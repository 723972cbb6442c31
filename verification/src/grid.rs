//! Row-major pixel grids: index arithmetic, rectangle copies and the lemmas
//! that connect a flat index with its `(x, y)` position.
use vstd::prelude::*;
use vstd::arithmetic::div_mod::{lemma_fundamental_div_mod, lemma_fundamental_div_mod_converse};
use crate::canvas::Rect;
use crate::color::Color;

verus! {

/// The pixel at `(x, y)` of a row-major grid with rows of length `w`.
pub open spec fn at(s: Seq<Color>, w: int, x: int, y: int) -> Color {
    s[y * w + x]
}

/// `r` lies inside a `w` x `h` grid.
pub open spec fn fits(r: Rect, w: int, h: int) -> bool {
    r.x + r.w <= w && r.y + r.h <= h
}

/// `(x, y)` lies inside `r`.
pub open spec fn in_rect(r: Rect, x: int, y: int) -> bool {
    r.x <= x < r.x + r.w && r.y <= y < r.y + r.h
}

/// The pixels of `r` read row by row out of a grid of row length `stride`.
pub open spec fn extract_spec(src: Seq<Color>, stride: int, r: Rect) -> Seq<Color> {
    Seq::new(
        (r.w * r.h) as nat,
        |k: int| src[(r.y + k / (r.w as int)) * stride + r.x + k % (r.w as int)],
    )
}

/// `dst` with the rectangle `r` overwritten by the row-by-row pixels `src`.
pub open spec fn blit_spec(dst: Seq<Color>, stride: int, r: Rect, src: Seq<Color>) -> Seq<Color> {
    Seq::new(
        dst.len(),
        |i: int|
            if in_rect(r, i % stride, i / stride) {
                src[(i / stride - r.y) * r.w + (i % stride - r.x)]
            } else {
                dst[i]
            },
    )
}

pub proof fn lemma_div_mod(q: int, d: int, r: int)
    requires
        0 <= r < d,
    ensures
        (q * d + r) / d == q,
        (q * d + r) % d == r,
{
    lemma_fundamental_div_mod_converse(q * d + r, d, q, r);
}

/// A flat index inside a `w` x `h` grid splits into its column and row.
pub proof fn lemma_split(i: int, w: int, h: int)
    requires
        0 <= i < w * h,
        w > 0,
    ensures
        0 <= i % w < w,
        0 <= i / w < h,
        i == (i / w) * w + i % w,
{
    lemma_fundamental_div_mod(i, w);
    assert(i == w * (i / w) + i % w);
    assert(0 <= i % w < w) by {
        vstd::arithmetic::div_mod::lemma_mod_bound(i, w);
    }
    assert((i / w) * w == w * (i / w)) by (nonlinear_arith);
    assert(0 <= i / w) by {
        vstd::arithmetic::div_mod::lemma_div_pos_is_pos(i, w);
    }
    if i / w >= h {
        assert((i / w) * w >= h * w) by (nonlinear_arith)
            requires
                i / w >= h,
                w > 0,
        ;
        assert(h * w == w * h) by (nonlinear_arith);
        assert(false);
    }
}

/// The flat index of `(x, y)` lies inside the grid and splits back into it.
pub proof fn lemma_index(x: int, y: int, w: int, h: int)
    requires
        0 <= x < w,
        0 <= y < h,
    ensures
        0 <= y * w + x < w * h,
        (y * w + x) / w == y,
        (y * w + x) % w == x,
{
    lemma_div_mod(y, w, x);
    assert(0 <= y * w + x < w * h) by (nonlinear_arith)
        requires
            0 <= x < w,
            0 <= y < h,
    ;
}

/// Row starts are ordered like rows.
pub proof fn lemma_row_le(y1: int, y2: int, w: int)
    requires
        y1 <= y2,
        w >= 0,
    ensures
        y1 * w <= y2 * w,
{
    assert(y1 * w <= y2 * w) by (nonlinear_arith)
        requires
            y1 <= y2,
            w >= 0,
    ;
}

/// The row after row `q` starts one stride later.
pub proof fn lemma_row_next(q: int, s: int)
    ensures
        (q + 1) * s == q * s + s,
        q * s == s * q,
{
    assert((q + 1) * s == q * s + s) by (nonlinear_arith);
    assert(q * s == s * q) by (nonlinear_arith);
}

/// Two grids of the same size that agree at every position are equal.
pub proof fn lemma_eq_by_pixels(s1: Seq<Color>, s2: Seq<Color>, w: int, h: int)
    requires
        w > 0,
        s1.len() == w * h,
        s2.len() == w * h,
        forall|x: int, y: int| 0 <= x < w && 0 <= y < h ==> #[trigger] at(s1, w, x, y) == at(s2, w, x, y),
    ensures
        s1 == s2,
{
    assert forall|i: int| 0 <= i < s1.len() implies s1[i] == s2[i] by {
        lemma_split(i, w, h);
        let x = i % w;
        let y = i / w;
        assert(at(s1, w, x, y) == at(s2, w, x, y));
    }
    assert(s1 =~= s2);
}

/// `blit_spec` read at a position.
pub proof fn lemma_blit_at(dst: Seq<Color>, w: int, h: int, r: Rect, src: Seq<Color>, x: int, y: int)
    requires
        dst.len() == w * h,
        0 <= x < w,
        0 <= y < h,
    ensures
        blit_spec(dst, w, r, src)[y * w + x] == if in_rect(r, x, y) {
            src[(y - r.y) * r.w + (x - r.x)]
        } else {
            dst[y * w + x]
        },
{
    lemma_index(x, y, w, h);
}

/// `extract_spec` read at a position of the rectangle.
pub proof fn lemma_extract_at(src: Seq<Color>, stride: int, r: Rect, col: int, row: int)
    requires
        0 <= col < r.w,
        0 <= row < r.h,
    ensures
        0 <= row * r.w + col < r.w * r.h,
        extract_spec(src, stride, r)[row * r.w + col] == src[(r.y + row) * stride + r.x + col],
{
    lemma_index(col, row, r.w as int, r.h as int);
}

/// `r` clipped to a `w` x `h` grid.
pub fn clip(r: Rect, w: usize, h: usize) -> (c: Rect)
    requires
        r.x + r.w <= usize::MAX,
        r.y + r.h <= usize::MAX,
    ensures
        c == clip_spec(r, w as int, h as int),
        fits(c, w as int, h as int),
{
    let x = if r.x < w { r.x } else { w };
    let y = if r.y < h { r.y } else { h };
    let x1 = if r.x + r.w < w { r.x + r.w } else { w };
    let y1 = if r.y + r.h < h { r.y + r.h } else { h };
    Rect { x, y, w: if x1 > x { x1 - x } else { 0 }, h: if y1 > y { y1 - y } else { 0 } }
}

pub open spec fn clip_spec(r: Rect, w: int, h: int) -> Rect {
    let x = if r.x < w { r.x as int } else { w };
    let y = if r.y < h { r.y as int } else { h };
    let x1 = if r.x + r.w < w { r.x + r.w } else { w };
    let y1 = if r.y + r.h < h { r.y + r.h } else { h };
    Rect {
        x: x as usize,
        y: y as usize,
        w: (if x1 > x { x1 - x } else { 0 }) as usize,
        h: (if y1 > y { y1 - y } else { 0 }) as usize,
    }
}

/// Copies the pixels of `r` out of a grid of row length `stride`.
pub fn extract(src: &[Color], stride: usize, r: Rect) -> (out: Vec<Color>)
    requires
        r.x + r.w <= stride,
        r.y + r.h <= usize::MAX,
        (r.y + r.h) * stride <= src@.len(),
    ensures
        out@ == extract_spec(src@, stride as int, r),
{
    let n = src.len();
    let mut out: Vec<Color> = Vec::new();
    let mut row: usize = 0;
    while row < r.h
        invariant
            n == src@.len(),
            row <= r.h,
            r.y + r.h <= usize::MAX,
            r.x + r.w <= stride,
            (r.y + r.h) * stride <= src@.len(),
            out@.len() == row * r.w,
            forall|k: int| 0 <= k < out@.len() ==> #[trigger] out@[k] == extract_spec(src@, stride as int, r)[k],
        decreases r.h - row,
    {
        proof {
            lemma_row_next((r.y + row) as int, stride as int);
            lemma_row_le((r.y + row + 1) as int, (r.y + r.h) as int, stride as int);
            lemma_row_next(row as int, r.w as int);
            lemma_row_le((row + 1) as int, r.h as int, r.w as int);
        }
        let a = (r.y + row) * stride + r.x;
        let mut col: usize = 0;
        while col < r.w
            invariant
                n == src@.len(),
                row < r.h,
                col <= r.w,
                r.x + r.w <= stride,
                a == (r.y + row) * stride + r.x,
                a + r.w <= src@.len(),
                out@.len() == row * r.w + col,
                (row + 1) * r.w <= r.h * r.w,
                forall|k: int| 0 <= k < out@.len() ==> #[trigger] out@[k] == extract_spec(src@, stride as int, r)[k],
            decreases r.w - col,
        {
            proof {
                lemma_extract_at(src@, stride as int, r, col as int, row as int);
            }
            out.push(src[a + col]);
            col += 1;
        }
        row += 1;
    }
    proof {
        lemma_row_next(r.h as int, r.w as int);
    }
    assert(out@ =~= extract_spec(src@, stride as int, r));
    out
}

/// Whether flat index `i` of a grid of row length `stride` lies in `r` and
/// comes before position `(x, y)` in row-major order.
pub open spec fn blitted_before(r: Rect, stride: int, i: int, x: int, y: int) -> bool {
    in_rect(r, i % stride, i / stride) && (i / stride < y || (i / stride == y && i % stride < x))
}

/// Writes the row-by-row pixels `src` into the rectangle `r` of a grid of row
/// length `stride`.
pub fn blit(dst: &mut Vec<Color>, stride: usize, r: Rect, src: &[Color])
    requires
        r.x + r.w <= stride,
        r.y + r.h <= usize::MAX,
        (r.y + r.h) * stride <= old(dst)@.len(),
        r.w * r.h <= src@.len(),
    ensures
        final(dst)@ == blit_spec(old(dst)@, stride as int, r, src@),
{
    let ghost d0 = dst@;
    let n = dst.len();
    let m = src.len();
    let mut row: usize = 0;
    while row < r.h
        invariant
            n == d0.len(),
            m == src@.len(),
            row <= r.h,
            r.x + r.w <= stride,
            r.y + r.h <= usize::MAX,
            (r.y + r.h) * stride <= d0.len(),
            r.w * r.h <= src@.len(),
            dst@.len() == d0.len(),
            forall|i: int| 0 <= i < d0.len() ==> #[trigger] dst@[i] == if blitted_before(r, stride as int, i, r.x as int, r.y + row) {
                src@[(i / stride as int - r.y) * r.w + (i % stride as int - r.x)]
            } else {
                d0[i]
            },
        decreases r.h - row,
    {
        proof {
            lemma_row_next((r.y + row) as int, stride as int);
            lemma_row_le((r.y + row + 1) as int, (r.y + r.h) as int, stride as int);
        }
        let base = (r.y + row) * stride + r.x;
        let mut col: usize = 0;
        while col < r.w
            invariant
                n == d0.len(),
                m == src@.len(),
                row < r.h,
                col <= r.w,
                r.x + r.w <= stride,
                r.y + r.h <= usize::MAX,
                base == (r.y + row) * stride + r.x,
                base + r.w <= d0.len(),
                r.w * r.h <= src@.len(),
                dst@.len() == d0.len(),
                forall|i: int| 0 <= i < d0.len() ==> #[trigger] dst@[i] == if blitted_before(r, stride as int, i, r.x + col, r.y + row) {
                    src@[(i / stride as int - r.y) * r.w + (i % stride as int - r.x)]
                } else {
                    d0[i]
                },
            decreases r.w - col,
        {
            let a = base + col;
            proof {
                lemma_index(col as int, row as int, r.w as int, r.h as int);
                lemma_div_mod((r.y + row) as int, stride as int, (r.x + col) as int);
                assert forall|j: int| 0 <= j < d0.len() && j != a implies
                    #[trigger] blitted_before(r, stride as int, j, r.x + col + 1, r.y + row)
                        == blitted_before(r, stride as int, j, r.x + col, r.y + row) by {
                    lemma_fundamental_div_mod(j, stride as int);
                    lemma_row_next(j / stride as int, stride as int);
                }
            }
            let ghost before = dst@;
            dst[a] = src[row * r.w + col];
            proof {
                assert((a as int) / (stride as int) == r.y + row);
                assert((a as int) % (stride as int) == r.x + col);
                assert(blitted_before(r, stride as int, a as int, r.x + col + 1, r.y + row));
                assert forall|i: int| 0 <= i < d0.len() implies #[trigger] dst@[i] == if blitted_before(r, stride as int, i, r.x + col + 1, r.y + row) {
                    src@[(i / stride as int - r.y) * r.w + (i % stride as int - r.x)]
                } else {
                    d0[i]
                } by {
                    if i != a {
                        assert(dst@[i] == before[i]);
                        assert(blitted_before(r, stride as int, i, r.x + col + 1, r.y + row)
                            == blitted_before(r, stride as int, i, r.x + col, r.y + row));
                    }
                }
            }
            col += 1;
        }
        proof {
            assert forall|j: int| 0 <= j < d0.len() implies
                #[trigger] blitted_before(r, stride as int, j, r.x + r.w, r.y + row)
                    == blitted_before(r, stride as int, j, r.x as int, r.y + row + 1) by {
            }
        }
        row += 1;
    }
    assert(dst@ =~= blit_spec(d0, stride as int, r, src@));
}

/// Like `blit`, but the part of `r` that falls off a `stride` x `h` grid is
/// skipped instead of written.
pub fn blit_clipped(dst: &mut Vec<Color>, stride: usize, h: usize, r: Rect, src: &[Color])
    requires
        old(dst)@.len() == stride * h,
        r.x + r.w <= usize::MAX,
        r.y + r.h <= usize::MAX,
        r.w * r.h <= src@.len(),
    ensures
        final(dst)@ == blit_spec(old(dst)@, stride as int, r, src@),
{
    let ghost d0 = dst@;
    let n = dst.len();
    let m = src.len();
    let cw: usize = if r.x >= stride { 0 } else if r.w < stride - r.x { r.w } else { stride - r.x };
    let ch: usize = if r.y >= h { 0 } else if r.h < h - r.y { r.h } else { h - r.y };
    let ghost rc = Rect { x: r.x, y: r.y, w: cw, h: ch };
    let mut row: usize = 0;
    let rows = if cw > 0 { ch } else { 0 };
    while row < rows
        invariant
            n == d0.len(),
            m == src@.len(),
            d0.len() == stride * h,
            row <= rows,
            rows == if cw > 0 { ch } else { 0 },
            ch <= r.h,
            cw <= r.w,
            rc == (Rect { x: r.x, y: r.y, w: cw, h: ch }),
            cw > 0 ==> r.x + cw <= stride,
            ch > 0 ==> r.y + ch <= h,
            r.w * r.h <= src@.len(),
            dst@.len() == d0.len(),
            forall|i: int| 0 <= i < d0.len() ==> #[trigger] dst@[i] == if blitted_before(rc, stride as int, i, r.x as int, r.y + row) {
                src@[(i / stride as int - r.y) * r.w + (i % stride as int - r.x)]
            } else {
                d0[i]
            },
        decreases rows - row,
    {
        proof {
            lemma_row_next((r.y + row) as int, stride as int);
            lemma_row_le((r.y + row + 1) as int, h as int, stride as int);
            lemma_row_next(h as int, stride as int);
        }
        let base = (r.y + row) * stride + r.x;
        let mut col: usize = 0;
        while col < cw
            invariant
                n == d0.len(),
                m == src@.len(),
                d0.len() == stride * h,
                row < ch,
                col <= cw,
                ch <= r.h,
                cw <= r.w,
                rc == (Rect { x: r.x, y: r.y, w: cw, h: ch }),
                r.x + cw <= stride,
                r.y + ch <= h,
                base == (r.y + row) * stride + r.x,
                base + cw <= d0.len(),
                r.w * r.h <= src@.len(),
                dst@.len() == d0.len(),
                forall|i: int| 0 <= i < d0.len() ==> #[trigger] dst@[i] == if blitted_before(rc, stride as int, i, r.x + col, r.y + row) {
                    src@[(i / stride as int - r.y) * r.w + (i % stride as int - r.x)]
                } else {
                    d0[i]
                },
            decreases cw - col,
        {
            let a = base + col;
            proof {
                lemma_index(col as int, row as int, r.w as int, r.h as int);
                lemma_div_mod((r.y + row) as int, stride as int, (r.x + col) as int);
                assert forall|j: int| 0 <= j < d0.len() && j != a implies
                    #[trigger] blitted_before(rc, stride as int, j, r.x + col + 1, r.y + row)
                        == blitted_before(rc, stride as int, j, r.x + col, r.y + row) by {
                    lemma_fundamental_div_mod(j, stride as int);
                    lemma_row_next(j / stride as int, stride as int);
                }
            }
            let ghost before = dst@;
            dst[a] = src[row * r.w + col];
            proof {
                assert((a as int) / (stride as int) == r.y + row);
                assert((a as int) % (stride as int) == r.x + col);
                assert forall|i: int| 0 <= i < d0.len() implies #[trigger] dst@[i] == if blitted_before(rc, stride as int, i, r.x + col + 1, r.y + row) {
                    src@[(i / stride as int - r.y) * r.w + (i % stride as int - r.x)]
                } else {
                    d0[i]
                } by {
                    if i != a {
                        assert(dst@[i] == before[i]);
                        assert(blitted_before(rc, stride as int, i, r.x + col + 1, r.y + row)
                            == blitted_before(rc, stride as int, i, r.x + col, r.y + row));
                    }
                }
            }
            col += 1;
        }
        proof {
            assert forall|j: int| 0 <= j < d0.len() implies
                #[trigger] blitted_before(rc, stride as int, j, r.x + cw, r.y + row)
                    == blitted_before(rc, stride as int, j, r.x as int, r.y + row + 1) by {
            }
        }
        row += 1;
    }
    proof {
        assert forall|i: int| 0 <= i < d0.len() implies
            #[trigger] blitted_before(rc, stride as int, i, r.x as int, r.y + ch)
                == in_rect(r, i % stride as int, i / stride as int) by {
            lemma_split(i, stride as int, h as int);
        }
    }
    assert(dst@ =~= blit_spec(d0, stride as int, r, src@));
}

/// The pixel of the row-by-row `src` that lands on `(x, y)` when `src` is
/// written into `r`.
pub open spec fn src_at(r: Rect, src: Seq<Color>, x: int, y: int) -> Color {
    src[(y - r.y) * r.w + (x - r.x)]
}

/// A keyed write of `src` into `r` changes `(x, y)`: the position is on the
/// `w` x `h` grid, inside `r`, and its source pixel is not the key color.
pub open spec fn keyed_hit(w: int, h: int, r: Rect, src: Seq<Color>, key: Color, x: int, y: int) -> bool {
    0 <= x < w && 0 <= y < h && in_rect(r, x, y) && src_at(r, src, x, y) != key
}

/// `dst` after writing `src` into `r`, skipping off-grid positions and the
/// pixels of color `key`.
pub open spec fn keyed_spec(dst: Seq<Color>, w: int, h: int, r: Rect, src: Seq<Color>, key: Color) -> Seq<Color> {
    Seq::new(
        dst.len(),
        |i: int| if keyed_hit(w, h, r, src, key, i % w, i / w) { src_at(r, src, i % w, i / w) } else { dst[i] },
    )
}

/// `b` is the bounding box of the positions a keyed write changes.
pub open spec fn hit_box(w: int, h: int, r: Rect, src: Seq<Color>, key: Color, b: Rect) -> bool {
    &&& forall|x: int, y: int| #[trigger] keyed_hit(w, h, r, src, key, x, y) ==> in_rect(b, x, y)
    &&& exists|x: int, y: int| #[trigger] keyed_hit(w, h, r, src, key, x, y) && x == b.x
    &&& exists|x: int, y: int| #[trigger] keyed_hit(w, h, r, src, key, x, y) && x == b.x + b.w - 1
    &&& exists|x: int, y: int| #[trigger] keyed_hit(w, h, r, src, key, x, y) && y == b.y
    &&& exists|x: int, y: int| #[trigger] keyed_hit(w, h, r, src, key, x, y) && y == b.y + b.h - 1
}

/// The bounding box of the positions a keyed write changes lies on the
/// grid and is not empty.
pub proof fn lemma_hit_box_fits(w: int, h: int, r: Rect, src: Seq<Color>, key: Color, b: Rect)
    requires
        hit_box(w, h, r, src, key, b),
    ensures
        fits(b, w, h),
        b.w >= 1,
        b.h >= 1,
{
    let (x, y) = choose|x: int, y: int| #[trigger] keyed_hit(w, h, r, src, key, x, y) && x == b.x + b.w - 1;
    assert(in_rect(b, x, y));
    let (x2, y2) = choose|x: int, y: int| #[trigger] keyed_hit(w, h, r, src, key, x, y) && y == b.y + b.h - 1;
    assert(in_rect(b, x2, y2));
}

/// `(x, y)` lies in `c` and comes before `(cx, cy)` in row-major order.
pub open spec fn done_before(c: Rect, x: int, y: int, cx: int, cy: int) -> bool {
    in_rect(c, x, y) && (y < cy || (y == cy && x < cx))
}

/// Writes `src` (row by row) into `r` of a `w` x `h` grid, skipping what
/// falls off the grid and every pixel of color `key`; returns the bounding
/// box of the positions written, `None` when there is none.
pub fn blit_keyed(dst: &mut Vec<Color>, w: usize, h: usize, r: Rect, src: &[Color], key: Color) -> (b: Option<Rect>)
    requires
        w > 0,
        old(dst)@.len() == w * h,
        r.x + r.w <= usize::MAX,
        r.y + r.h <= usize::MAX,
        r.w * r.h <= src@.len(),
    ensures
        final(dst)@ == keyed_spec(old(dst)@, w as int, h as int, r, src@, key),
        b is None <==> !exists|x: int, y: int| #[trigger] keyed_hit(w as int, h as int, r, src@, key, x, y),
        b matches Some(bb) ==> hit_box(w as int, h as int, r, src@, key, bb) && fits(bb, w as int, h as int),
{
    let ghost d0 = dst@;
    let ghost wi = w as int;
    let ghost hi = h as int;
    let n = dst.len();
    let m = src.len();
    let c = clip(r, w, h);
    let mut any = false;
    let mut bx0: usize = 0;
    let mut by0: usize = 0;
    let mut bx1: usize = 0;
    let mut by1: usize = 0;
    let ghost mut pl: (int, int) = (0, 0);
    let ghost mut pr: (int, int) = (0, 0);
    let ghost mut pt: (int, int) = (0, 0);
    let ghost mut pb: (int, int) = (0, 0);
    let mut row: usize = 0;
    while row < c.h
        invariant
            wi == w,
            hi == h,
            w > 0,
            n == d0.len(),
            m == src@.len(),
            d0.len() == w * h,
            dst@.len() == n,
            r.w * r.h <= src@.len(),
            c == clip_spec(r, wi, hi),
            fits(c, wi, hi),
            row <= c.h,
            forall|x: int, y: int| 0 <= x < w && 0 <= y < h ==> #[trigger] at(dst@, wi, x, y) ==
                if done_before(c, x, y, c.x as int, c.y + row) && src_at(r, src@, x, y) != key {
                    src_at(r, src@, x, y)
                } else {
                    at(d0, wi, x, y)
                },
            !any ==> forall|x: int, y: int| done_before(c, x, y, c.x as int, c.y + row) ==> #[trigger] src_at(r, src@, x, y) == key,
            any ==> forall|x: int, y: int| done_before(c, x, y, c.x as int, c.y + row) && #[trigger] src_at(r, src@, x, y) != key
                ==> bx0 <= x < bx1 && by0 <= y < by1,
            any ==> bx1 <= w && by1 <= h,
            any ==> done_before(c, pl.0, pl.1, c.x as int, c.y + row) && src_at(r, src@, pl.0, pl.1) != key && pl.0 == bx0,
            any ==> done_before(c, pr.0, pr.1, c.x as int, c.y + row) && src_at(r, src@, pr.0, pr.1) != key && pr.0 == bx1 - 1,
            any ==> done_before(c, pt.0, pt.1, c.x as int, c.y + row) && src_at(r, src@, pt.0, pt.1) != key && pt.1 == by0,
            any ==> done_before(c, pb.0, pb.1, c.x as int, c.y + row) && src_at(r, src@, pb.0, pb.1) != key && pb.1 == by1 - 1,
        decreases c.h - row,
    {
        let mut col: usize = 0;
        while col < c.w
            invariant
                wi == w,
                hi == h,
                w > 0,
                n == d0.len(),
                m == src@.len(),
                d0.len() == w * h,
                dst@.len() == n,
                r.w * r.h <= src@.len(),
                c == clip_spec(r, wi, hi),
                fits(c, wi, hi),
                row < c.h,
                col <= c.w,
                forall|x: int, y: int| 0 <= x < w && 0 <= y < h ==> #[trigger] at(dst@, wi, x, y) ==
                    if done_before(c, x, y, c.x + col, c.y + row) && src_at(r, src@, x, y) != key {
                        src_at(r, src@, x, y)
                    } else {
                        at(d0, wi, x, y)
                    },
                !any ==> forall|x: int, y: int| done_before(c, x, y, c.x + col, c.y + row) ==> #[trigger] src_at(r, src@, x, y) == key,
                any ==> forall|x: int, y: int| done_before(c, x, y, c.x + col, c.y + row) && #[trigger] src_at(r, src@, x, y) != key
                    ==> bx0 <= x < bx1 && by0 <= y < by1,
                any ==> bx1 <= w && by1 <= h,
                any ==> done_before(c, pl.0, pl.1, c.x + col, c.y + row) && src_at(r, src@, pl.0, pl.1) != key && pl.0 == bx0,
                any ==> done_before(c, pr.0, pr.1, c.x + col, c.y + row) && src_at(r, src@, pr.0, pr.1) != key && pr.0 == bx1 - 1,
                any ==> done_before(c, pt.0, pt.1, c.x + col, c.y + row) && src_at(r, src@, pt.0, pt.1) != key && pt.1 == by0,
                any ==> done_before(c, pb.0, pb.1, c.x + col, c.y + row) && src_at(r, src@, pb.0, pb.1) != key && pb.1 == by1 - 1,
            decreases c.w - col,
        {
            let x = c.x + col;
            let y = c.y + row;
            proof {
                assert(c.x == r.x && c.y == r.y);
                lemma_index((x - r.x) as int, (y - r.y) as int, r.w as int, r.h as int);
                lemma_index(x as int, y as int, wi, hi);
            }
            let v = src[(y - r.y) * r.w + (x - r.x)];
            let ghost before = dst@;
            if v != key {
                dst.set(y * w + x, v);
                proof {
                    assert forall|xx: int, yy: int| 0 <= xx < w && 0 <= yy < h && (xx, yy) != (x as int, y as int)
                        implies #[trigger] at(dst@, wi, xx, yy) == at(before, wi, xx, yy) by {
                        lemma_index(xx, yy, wi, hi);
                    }
                }
                if !any {
                    any = true;
                    bx0 = x;
                    bx1 = x + 1;
                    by0 = y;
                    by1 = y + 1;
                    proof {
                        pl = (x as int, y as int);
                        pr = pl;
                        pt = pl;
                        pb = pl;
                    }
                } else {
                    if x < bx0 {
                        bx0 = x;
                        proof { pl = (x as int, y as int); }
                    }
                    if x + 1 > bx1 {
                        bx1 = x + 1;
                        proof { pr = (x as int, y as int); }
                    }
                    if y < by0 {
                        by0 = y;
                        proof { pt = (x as int, y as int); }
                    }
                    if y + 1 > by1 {
                        by1 = y + 1;
                        proof { pb = (x as int, y as int); }
                    }
                }
            }
            proof {
                assert(src_at(r, src@, x as int, y as int) == v);
            }
            col += 1;
        }
        row += 1;
    }
    proof {
        lemma_clip_region(r, wi, hi);
        let fin = keyed_spec(d0, wi, hi, r, src@, key);
        assert forall|x: int, y: int| 0 <= x < wi && 0 <= y < hi implies #[trigger] at(dst@, wi, x, y) == at(fin, wi, x, y) by {
            lemma_index(x, y, wi, hi);
        }
        lemma_eq_by_pixels(dst@, fin, wi, hi);
    }
    if any {
        proof {
            assert(keyed_hit(wi, hi, r, src@, key, pl.0, pl.1));
            assert(keyed_hit(wi, hi, r, src@, key, pr.0, pr.1));
            assert(keyed_hit(wi, hi, r, src@, key, pt.0, pt.1));
            assert(keyed_hit(wi, hi, r, src@, key, pb.0, pb.1));
        }
        Some(Rect { x: bx0, y: by0, w: bx1 - bx0, h: by1 - by0 })
    } else {
        proof {
            assert forall|x: int, y: int| !#[trigger] keyed_hit(wi, hi, r, src@, key, x, y) by {
                if keyed_hit(wi, hi, r, src@, key, x, y) {
                    assert(done_before(c, x, y, c.x as int, c.y + c.h));
                }
            }
        }
        None
    }
}

/// Inside the grid, the clip of `r` and `r` hold the same positions, and a
/// position of the clip lies on the grid.
pub proof fn lemma_clip_region(r: Rect, w: int, h: int)
    requires
        0 <= w,
        0 <= h,
    ensures
        forall|x: int, y: int| #[trigger] in_rect(clip_spec(r, w, h), x, y) <==> (0 <= x < w && 0 <= y < h && in_rect(r, x, y)),
{
}

/// A per-pixel change applied to every pixel of a rectangle.
#[derive(Clone, Copy)]
pub enum RectOp {
    /// Paint every pixel with one color.
    Paint(Color),
    /// Replace each channel `v` by `255 - v`; the result is opaque.
    Invert,
    /// Replace one color by another, leaving the others alone.
    Replace(Color, Color),
}

pub open spec fn op_color(op: RectOp, c: Color) -> Color {
    match op {
        RectOp::Paint(p) => p,
        RectOp::Invert => Color { r: (255 - c.r) as u8, g: (255 - c.g) as u8, b: (255 - c.b) as u8, a: 255 },
        RectOp::Replace(from, to) => if c == from { to } else { c },
    }
}

/// Whether the change touches a pixel of color `c`.
pub open spec fn op_hits(op: RectOp, c: Color) -> bool {
    match op {
        RectOp::Replace(from, _) => c == from,
        _ => true,
    }
}

/// `img` with `op` applied inside `r`.
pub open spec fn map_rect(img: Seq<Color>, w: int, r: Rect, op: RectOp) -> Seq<Color> {
    Seq::new(img.len(), |i: int| if in_rect(r, i % w, i / w) { op_color(op, img[i]) } else { img[i] })
}

fn apply_color(op: RectOp, c: Color) -> (out: (Color, bool))
    ensures
        out.0 == op_color(op, c),
        out.1 == op_hits(op, c),
{
    match op {
        RectOp::Paint(p) => (p, true),
        RectOp::Invert => (Color::from_rgb(255 - c.r, 255 - c.g, 255 - c.b), true),
        RectOp::Replace(from, to) => if c == from { (to, true) } else { (c, false) },
    }
}

/// Applies `op` to every pixel of `r` in a `w` x `h` grid; tells whether the
/// change touched any pixel.
pub fn apply_rect(px: &mut Vec<Color>, w: usize, h: usize, r: Rect, op: RectOp) -> (hit: bool)
    requires
        w > 0,
        old(px)@.len() == w * h,
        fits(r, w as int, h as int),
    ensures
        final(px)@ == map_rect(old(px)@, w as int, r, op),
        hit == exists|x: int, y: int| in_rect(r, x, y) && #[trigger] op_hits(op, at(old(px)@, w as int, x, y)),
{
    let ghost d0 = px@;
    let n = px.len();
    let mut hit = false;
    let mut row: usize = 0;
    while row < r.h
        invariant
            n == d0.len(),
            d0.len() == w * h,
            row <= r.h,
            fits(r, w as int, h as int),
            px@.len() == d0.len(),
            forall|i: int| 0 <= i < d0.len() ==> #[trigger] px@[i] == if blitted_before(r, w as int, i, r.x as int, r.y + row) {
                op_color(op, d0[i])
            } else {
                d0[i]
            },
            hit == exists|x: int, y: int| in_rect(r, x, y) && y < r.y + row && #[trigger] op_hits(op, at(d0, w as int, x, y)),
        decreases r.h - row,
    {
        proof {
            lemma_row_next((r.y + row) as int, w as int);
            lemma_row_le((r.y + row + 1) as int, h as int, w as int);
            lemma_row_next(h as int, w as int);
        }
        let base = (r.y + row) * w + r.x;
        let mut col: usize = 0;
        while col < r.w
            invariant
                n == d0.len(),
                d0.len() == w * h,
                row < r.h,
                col <= r.w,
                fits(r, w as int, h as int),
                base == (r.y + row) * w + r.x,
                base + r.w <= d0.len(),
                px@.len() == d0.len(),
                forall|i: int| 0 <= i < d0.len() ==> #[trigger] px@[i] == if blitted_before(r, w as int, i, r.x + col, r.y + row) {
                    op_color(op, d0[i])
                } else {
                    d0[i]
                },
                hit == exists|x: int, y: int| in_rect(r, x, y) && (y < r.y + row || (y == r.y + row && x < r.x + col))
                    && #[trigger] op_hits(op, at(d0, w as int, x, y)),
            decreases r.w - col,
        {
            let a = base + col;
            proof {
                lemma_div_mod((r.y + row) as int, w as int, (r.x + col) as int);
                assert forall|j: int| 0 <= j < d0.len() && j != a implies
                    #[trigger] blitted_before(r, w as int, j, r.x + col + 1, r.y + row)
                        == blitted_before(r, w as int, j, r.x + col, r.y + row) by {
                    lemma_fundamental_div_mod(j, w as int);
                    lemma_row_next(j / w as int, w as int);
                }
            }
            let ghost before = px@;
            let old_c = px[a];
            let (c, touched) = apply_color(op, old_c);
            px[a] = c;
            proof {
                assert((a as int) / (w as int) == r.y + row);
                assert((a as int) % (w as int) == r.x + col);
                assert(at(d0, w as int, (r.x + col) as int, (r.y + row) as int) == old_c);
                assert forall|i: int| 0 <= i < d0.len() implies #[trigger] px@[i] == if blitted_before(r, w as int, i, r.x + col + 1, r.y + row) {
                    op_color(op, d0[i])
                } else {
                    d0[i]
                } by {
                    if i != a {
                        assert(px@[i] == before[i]);
                        assert(blitted_before(r, w as int, i, r.x + col + 1, r.y + row)
                            == blitted_before(r, w as int, i, r.x + col, r.y + row));
                    }
                }
            }
            hit = hit || touched;
            proof {
                let xx = (r.x + col) as int;
                let yy = (r.y + row) as int;
                if touched {
                    assert(in_rect(r, xx, yy) && op_hits(op, at(d0, w as int, xx, yy)));
                }
            }
            col += 1;
        }
        row += 1;
    }
    proof {
        assert forall|i: int| 0 <= i < d0.len() implies
            #[trigger] blitted_before(r, w as int, i, r.x as int, r.y + r.h)
                == in_rect(r, i % w as int, i / w as int) by {
            lemma_split(i, w as int, h as int);
        }
    }
    assert(px@ =~= map_rect(d0, w as int, r, op));
    hit
}

/// How a whole-grid operation reads its source for each destination pixel.
#[derive(Clone, Copy)]
pub enum Remap {
    /// Mirror left to right.
    FlipH,
    /// Mirror top to bottom.
    FlipV,
    /// Quarter turns clockwise: 1, 2 or 3.
    Rotate(u32),
    /// Keep the overlap of old and new sizes, fill the rest with a color.
    Resize(Color),
    /// Nearest-neighbour scaling.
    Scale,
}

/// The size of the grid that `m` makes out of a `w` x `h` grid when asked
/// for `nw` x `nh`.
pub open spec fn remap_dims(m: Remap, w: int, h: int, nw: int, nh: int) -> (int, int) {
    match m {
        Remap::FlipH | Remap::FlipV => (w, h),
        Remap::Rotate(q) => if q == 2 { (w, h) } else { (h, w) },
        Remap::Resize(_) | Remap::Scale => (nw, nh),
    }
}

/// The color that `m` puts at destination `(dx, dy)`.
pub open spec fn remap_at(m: Remap, src: Seq<Color>, w: int, h: int, nw: int, nh: int, dx: int, dy: int) -> Color {
    match m {
        Remap::FlipH => at(src, w, w - 1 - dx, dy),
        Remap::FlipV => at(src, w, dx, h - 1 - dy),
        Remap::Rotate(q) => if q == 1 {
            at(src, w, dy, h - 1 - dx)
        } else if q == 2 {
            at(src, w, w - 1 - dx, h - 1 - dy)
        } else {
            at(src, w, w - 1 - dy, dx)
        },
        Remap::Resize(bg) => if dx < w && dy < h { at(src, w, dx, dy) } else { bg },
        Remap::Scale => at(src, w, dx * w / nw, dy * h / nh),
    }
}

/// The whole destination grid of `m`, row by row.
pub open spec fn remap_spec(m: Remap, src: Seq<Color>, w: int, h: int, nw: int, nh: int) -> Seq<Color> {
    let (dw, dh) = remap_dims(m, w, h, nw, nh);
    Seq::new((dw * dh) as nat, |k: int| remap_at(m, src, w, h, nw, nh, k % dw, k / dw))
}

/// `remap_spec` read at a destination position.
pub proof fn lemma_remap_at(m: Remap, src: Seq<Color>, w: int, h: int, nw: int, nh: int, dx: int, dy: int)
    requires
        0 <= dx < remap_dims(m, w, h, nw, nh).0,
        0 <= dy < remap_dims(m, w, h, nw, nh).1,
    ensures
        remap_spec(m, src, w, h, nw, nh).len() == remap_dims(m, w, h, nw, nh).0 * remap_dims(m, w, h, nw, nh).1,
        at(remap_spec(m, src, w, h, nw, nh), remap_dims(m, w, h, nw, nh).0, dx, dy) == remap_at(m, src, w, h, nw, nh, dx, dy),
{
    let (dw, dh) = remap_dims(m, w, h, nw, nh);
    lemma_index(dx, dy, dw, dh);
    assert(dw * dh >= 0) by (nonlinear_arith)
        requires
            dw > 0,
            dh > 0,
    ;
}

/// Scaling reads inside the source: `d * s / n < s` for `d < n`.
pub proof fn lemma_scale_index(d: int, s: int, n: int)
    requires
        0 <= d < n,
        s > 0,
    ensures
        0 <= d * s / n < s,
        d * s <= n * s,
{
    assert(0 <= d * s) by (nonlinear_arith)
        requires
            0 <= d,
            s > 0,
    ;
    assert(d * s < n * s) by (nonlinear_arith)
        requires
            0 <= d < n,
            s > 0,
    ;
    assert(n * s == s * n) by (nonlinear_arith);
    vstd::arithmetic::div_mod::lemma_div_pos_is_pos(d * s, n);
    vstd::arithmetic::div_mod::lemma_div_by_multiple_is_strongly_ordered(d * s, s * n, s, n);
    vstd::arithmetic::div_mod::lemma_div_by_multiple(s, n);
}

/// Builds the destination grid of `m` out of a `w` x `h` grid.
pub fn remap(src: &[Color], w: usize, h: usize, nw: usize, nh: usize, m: Remap) -> (out: Vec<Color>)
    requires
        w > 0,
        h > 0,
        src@.len() == w * h,
        nw > 0,
        nh > 0,
        m is Scale ==> nw * w <= usize::MAX,
        m is Scale ==> nh * h <= usize::MAX,
        remap_dims(m, w as int, h as int, nw as int, nh as int).0 * remap_dims(m, w as int, h as int, nw as int, nh as int).1 <= usize::MAX,
        m matches Remap::Rotate(q) ==> 1 <= q <= 3,
    ensures
        out@ == remap_spec(m, src@, w as int, h as int, nw as int, nh as int),
{
    let (dw, dh): (usize, usize) = match m {
        Remap::FlipH | Remap::FlipV => (w, h),
        Remap::Rotate(q) => if q == 2 { (w, h) } else { (h, w) },
        Remap::Resize(_) | Remap::Scale => (nw, nh),
    };
    let ghost spec = remap_spec(m, src@, w as int, h as int, nw as int, nh as int);
    let n = src.len();
    let mut out: Vec<Color> = Vec::new();
    let mut dy: usize = 0;
    while dy < dh
        invariant
            (dw as int, dh as int) == remap_dims(m, w as int, h as int, nw as int, nh as int),
            dw > 0,
            dh > 0,
            w > 0,
            h > 0,
            src@.len() == w * h,
            n == src@.len(),
            m is Scale ==> nw * w <= usize::MAX,
            m is Scale ==> nh * h <= usize::MAX,
            m matches Remap::Rotate(q) ==> 1 <= q <= 3,
            spec == remap_spec(m, src@, w as int, h as int, nw as int, nh as int),
            dy <= dh,
            out@.len() == dy * dw,
            forall|k: int| 0 <= k < out@.len() ==> #[trigger] out@[k] == spec[k],
        decreases dh - dy,
    {
        let mut dx: usize = 0;
        while dx < dw
            invariant
                (dw as int, dh as int) == remap_dims(m, w as int, h as int, nw as int, nh as int),
                dw > 0,
                dh > 0,
                w > 0,
                h > 0,
                src@.len() == w * h,
                n == src@.len(),
                m is Scale ==> nw * w <= usize::MAX,
                m is Scale ==> nh * h <= usize::MAX,
                m matches Remap::Rotate(q) ==> 1 <= q <= 3,
                spec == remap_spec(m, src@, w as int, h as int, nw as int, nh as int),
                dy < dh,
                dx <= dw,
                out@.len() == dy * dw + dx,
                forall|k: int| 0 <= k < out@.len() ==> #[trigger] out@[k] == spec[k],
            decreases dw - dx,
        {
            let (sx, sy): (usize, usize) = match m {
                Remap::FlipH => (w - 1 - dx, dy),
                Remap::FlipV => (dx, h - 1 - dy),
                Remap::Rotate(q) => if q == 1 {
                    (dy, h - 1 - dx)
                } else if q == 2 {
                    (w - 1 - dx, h - 1 - dy)
                } else {
                    (w - 1 - dy, dx)
                },
                Remap::Resize(_) => (dx, dy),
                Remap::Scale => {
                    proof {
                        lemma_scale_index(dx as int, w as int, nw as int);
                        lemma_scale_index(dy as int, h as int, nh as int);
                    }
                    (dx * w / nw, dy * h / nh)
                },
            };
            let c = match m {
                Remap::Resize(bg) => if dx < w && dy < h {
                    proof {
                        lemma_index(sx as int, sy as int, w as int, h as int);
                    }
                    src[sy * w + sx]
                } else {
                    bg
                },
                _ => {
                    proof {
                        lemma_index(sx as int, sy as int, w as int, h as int);
                    }
                    src[sy * w + sx]
                },
            };
            proof {
                lemma_index(dx as int, dy as int, dw as int, dh as int);
                assert(spec[dy * dw + dx] == c);
            }
            out.push(c);
            dx += 1;
        }
        proof {
            lemma_row_next(dy as int, dw as int);
        }
        dy += 1;
    }
    proof {
        lemma_row_next(dh as int, dw as int);
    }
    assert(out@ =~= spec);
    out
}

} // verus!
