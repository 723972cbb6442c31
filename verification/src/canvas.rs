//! The pixel engine: a bitmap with a byte-budgeted undo history.
use vstd::prelude::*;
use crate::color::{opaque, Color};
use crate::grid::{
    remap, remap_spec, remap_dims, remap_at, lemma_remap_at, Remap,
    apply_rect, blit_clipped, blit_keyed, hit_box, keyed_hit, keyed_spec, map_rect, op_color, op_hits, RectOp, lemma_split,
    at, blit, blit_spec, clip, clip_spec, extract, extract_spec, fits, in_rect, lemma_blit_at,
    lemma_eq_by_pixels, lemma_extract_at, lemma_index, lemma_row_le, lemma_row_next,
};
use crate::fill::{bounds, flood, flood_spec};

verus! {

/// An axis-aligned rectangle in canvas pixels.
#[derive(Clone, Copy, PartialEq, Eq, Debug, Structural)]
pub struct Rect {
    pub x: usize,
    pub y: usize,
    pub w: usize,
    pub h: usize,
}

pub open spec fn min_int(a: int, b: int) -> int {
    if a <= b { a } else { b }
}

pub open spec fn max_int(a: int, b: int) -> int {
    if a >= b { a } else { b }
}

impl Rect {
    pub fn new(x: usize, y: usize, w: usize, h: usize) -> (r: Rect)
        ensures
            r == (Rect { x, y, w, h }),
    {
        Rect { x, y, w, h }
    }

    /// The rectangle spanned by two corners (both included), clipped to a
    /// `w` x `h` canvas; `None` when nothing of it lies on the canvas.
    pub fn from_corners(a: (i32, i32), b: (i32, i32), w: usize, h: usize) -> (res: Option<Rect>)
        requires
            a.0 < i32::MAX,
            b.0 < i32::MAX,
            a.1 < i32::MAX,
            b.1 < i32::MAX,
        ensures
            ({
                let x0 = max_int(min_int(a.0 as int, b.0 as int), 0);
                let y0 = max_int(min_int(a.1 as int, b.1 as int), 0);
                let x1 = min_int(max_int(max_int(a.0 as int, b.0 as int) + 1, 0), w as int);
                let y1 = min_int(max_int(max_int(a.1 as int, b.1 as int) + 1, 0), h as int);
                if x1 <= x0 || y1 <= y0 {
                    res is None
                } else {
                    res == Some(Rect { x: x0 as usize, y: y0 as usize, w: (x1 - x0) as usize, h: (y1 - y0) as usize })
                }
            }),
    {
        let lo_x = if a.0 < b.0 { a.0 } else { b.0 };
        let lo_y = if a.1 < b.1 { a.1 } else { b.1 };
        let hi_x = if a.0 > b.0 { a.0 } else { b.0 };
        let hi_y = if a.1 > b.1 { a.1 } else { b.1 };
        let x0: usize = if lo_x > 0 { lo_x as usize } else { 0 };
        let y0: usize = if lo_y > 0 { lo_y as usize } else { 0 };
        let x1: usize = if hi_x + 1 > 0 { (hi_x + 1) as usize } else { 0 };
        let y1: usize = if hi_y + 1 > 0 { (hi_y + 1) as usize } else { 0 };
        let x1: usize = if x1 < w { x1 } else { w };
        let y1: usize = if y1 < h { y1 } else { h };
        if x1 <= x0 || y1 <= y0 {
            return None;
        }
        Some(Rect { x: x0, y: y0, w: x1 - x0, h: y1 - y0 })
    }

    /// The smallest rectangle holding both.
    pub fn union(self, o: Rect) -> (r: Rect)
        requires
            self.x + self.w <= usize::MAX,
            self.y + self.h <= usize::MAX,
            o.x + o.w <= usize::MAX,
            o.y + o.h <= usize::MAX,
        ensures
            r.x == min_int(self.x as int, o.x as int),
            r.y == min_int(self.y as int, o.y as int),
            r.x + r.w == max_int(self.x + self.w, o.x + o.w),
            r.y + r.h == max_int(self.y + self.h, o.y + o.h),
    {
        let x = if self.x < o.x { self.x } else { o.x };
        let y = if self.y < o.y { self.y } else { o.y };
        let x1 = if self.x + self.w > o.x + o.w { self.x + self.w } else { o.x + o.w };
        let y1 = if self.y + self.h > o.y + o.h { self.y + self.h } else { o.y + o.h };
        Rect { x, y, w: x1 - x, h: y1 - y }
    }

    pub fn area(self) -> (a: usize)
        requires
            self.w * self.h <= usize::MAX,
        ensures
            a == self.w * self.h,
    {
        self.w * self.h
    }

    /// Whether the pixel `(x, y)` lies inside. The bounds are compared as
    /// `i32`, so a rectangle beyond `i32::MAX` wraps as the casts do.
    pub fn contains(self, x: i32, y: i32) -> (b: bool)
        requires
            self.x + self.w <= usize::MAX,
            self.y + self.h <= usize::MAX,
        ensures
            b == (x >= self.x as i32 && y >= self.y as i32 && x < (self.x + self.w) as i32
                && y < (self.y + self.h) as i32),
    {
        x >= self.x as i32 && y >= self.y as i32 && x < (self.x + self.w) as i32 && y < (self.y
            + self.h) as i32
    }
}

/// History budget in bytes: 256 MiB. Counting memory instead of steps gives
/// thousands of small strokes while whole-canvas operations degrade gently.
pub const MAX_UNDO_BYTES: usize = 268435456;

/// Bytes of one pixel in the history budget.
pub const PIXEL_BYTES: usize = 4;

/// The smallest rectangle holding `a` and `b`.
pub open spec fn union_spec(a: Rect, b: Rect) -> Rect {
    let x = min_int(a.x as int, b.x as int);
    let y = min_int(a.y as int, b.y as int);
    let x1 = max_int(a.x + a.w, b.x + b.w);
    let y1 = max_int(a.y + a.h, b.y + b.h);
    Rect { x: x as usize, y: y as usize, w: (x1 - x) as usize, h: (y1 - y) as usize }
}

/// A pending rectangle after `r` is marked on a `w` x `h` canvas: `r` is
/// clipped, and an empty clip leaves the pending rectangle as it was.
pub open spec fn mark_spec(d: Option<Rect>, r: Rect, w: int, h: int) -> Option<Rect> {
    let c = clip_spec(r, w, h);
    if c.w * c.h == 0 {
        d
    } else {
        match d {
            None => Some(c),
            Some(e) => Some(union_spec(e, c)),
        }
    }
}

/// Whether `(x, y)` lies in the pending rectangle `d`.
pub open spec fn covers(d: Option<Rect>, x: int, y: int) -> bool {
    match d {
        None => false,
        Some(r) => in_rect(r, x, y),
    }
}

/// A saved patch (the rectangle and its old pixels) fits a `w` x `h` canvas.
pub open spec fn patch_fits(p: (Rect, Seq<Color>), w: int, h: int) -> bool {
    fits(p.0, w, h) && p.1.len() == p.0.w * p.0.h
}

/// What a list of patches costs in the history budget.
pub open spec fn bytes_sum(s: Seq<(Rect, Seq<Color>)>) -> nat
    decreases s.len(),
{
    if s.len() == 0 {
        0
    } else {
        4 * s[0].1.len() + bytes_sum(s.drop_first())
    }
}

/// Drops the oldest patches while the list is over budget, never the last.
pub open spec fn evict(s: Seq<(Rect, Seq<Color>)>) -> Seq<(Rect, Seq<Color>)>
    decreases s.len(),
{
    if bytes_sum(s) > MAX_UNDO_BYTES && s.len() > 1 {
        evict(s.drop_first())
    } else {
        s
    }
}

/// The image of a `w` x `h` canvas filled with one color.
pub open spec fn solid(w: int, h: int, c: Color) -> Seq<Color> {
    Seq::new((w * h) as nat, |i: int| c)
}

/// Marking keeps a pending rectangle on the canvas.
pub proof fn lemma_mark_fits(d: Option<Rect>, r: Rect, w: int, h: int)
    requires
        0 <= w <= usize::MAX,
        0 <= h <= usize::MAX,
        d matches Some(e) ==> fits(e, w, h),
    ensures
        mark_spec(d, r, w, h) matches Some(e) ==> fits(e, w, h),
{
}

/// Marking grows the pending rectangle by every canvas pixel of `r`.
pub proof fn lemma_mark_covers(d: Option<Rect>, r: Rect, w: int, h: int, x: int, y: int)
    requires
        0 <= x < w <= usize::MAX,
        0 <= y < h <= usize::MAX,
        d matches Some(e) ==> fits(e, w, h),
        covers(d, x, y) || in_rect(r, x, y),
    ensures
        covers(mark_spec(d, r, w, h), x, y),
{
    let c = clip_spec(r, w, h);
    if in_rect(r, x, y) {
        assert(in_rect(c, x, y));
        assert(c.w * c.h != 0) by (nonlinear_arith)
            requires
                c.w >= 1,
                c.h >= 1,
        ;
    }
    if c.w * c.h != 0 {
        match d {
            None => {},
            Some(e) => {
                let u = union_spec(e, c);
                assert(u.x == min_int(e.x as int, c.x as int));
                assert(u.y == min_int(e.y as int, c.y as int));
                assert(u.x + u.w == max_int(e.x + e.w, c.x + c.w));
                assert(u.y + u.h == max_int(e.y + e.h, c.y + c.h));
            },
        }
    }
}

pub proof fn lemma_bytes_push(s: Seq<(Rect, Seq<Color>)>, p: (Rect, Seq<Color>))
    ensures
        bytes_sum(s.push(p)) == bytes_sum(s) + 4 * p.1.len(),
    decreases s.len(),
{
    if s.len() > 0 {
        assert(s.push(p).drop_first() =~= s.drop_first().push(p));
        assert(s.push(p)[0] == s[0]);
        lemma_bytes_push(s.drop_first(), p);
    } else {
        let e = Seq::<(Rect, Seq<Color>)>::empty();
        assert(s.push(p).drop_first() =~= e);
        assert(s.push(p)[0] == p);
        assert(bytes_sum(e) == 0);
        assert(s =~= e);
    }
}

pub proof fn lemma_bytes_drop_last(s: Seq<(Rect, Seq<Color>)>)
    requires
        s.len() > 0,
    ensures
        bytes_sum(s) == bytes_sum(s.drop_last()) + 4 * s.last().1.len(),
{
    assert(s.drop_last().push(s.last()) =~= s);
    lemma_bytes_push(s.drop_last(), s.last());
}

/// A patch that fits the canvas holds at most one canvas of pixels.
pub proof fn lemma_patch_small(p: (Rect, Seq<Color>), w: int, h: int)
    requires
        patch_fits(p, w, h),
    ensures
        p.1.len() <= w * h,
{
    assert(p.0.w * p.0.h <= w * h) by (nonlinear_arith)
        requires
            0 <= p.0.w <= w,
            0 <= p.0.h <= h,
    ;
}

/// Eviction never drops the newest step.
pub proof fn lemma_evict_last(s: Seq<(Rect, Seq<Color>)>)
    requires
        s.len() >= 1,
    ensures
        evict(s).len() >= 1,
        evict(s).last() == s.last(),
    decreases s.len(),
{
    if bytes_sum(s) > MAX_UNDO_BYTES && s.len() > 1 {
        lemma_evict_last(s.drop_first());
    }
}

/// A rectangle on the canvas is its own clip.
pub proof fn lemma_clip_fits(r: Rect, w: int, h: int)
    requires
        fits(r, w, h),
    ensures
        clip_spec(r, w, h) == r,
{
}

/// Writing a patch and then writing back what it covered restores the
/// picture.
pub proof fn lemma_blit_back(img: Seq<Color>, w: int, h: int, r: Rect, p: Seq<Color>)
    requires
        w > 0,
        h > 0,
        img.len() == w * h,
        fits(r, w, h),
        p.len() == r.w * r.h,
    ensures
        blit_spec(blit_spec(img, w, r, p), w, r, extract_spec(img, w, r)) == img,
{
    let once = blit_spec(img, w, r, p);
    let back = blit_spec(once, w, r, extract_spec(img, w, r));
    assert forall|x: int, y: int| 0 <= x < w && 0 <= y < h implies #[trigger] at(back, w, x, y) == at(img, w, x, y) by {
        lemma_blit_at(once, w, h, r, extract_spec(img, w, r), x, y);
        lemma_blit_at(img, w, h, r, p, x, y);
        if in_rect(r, x, y) {
            lemma_extract_at(img, w, r, x - r.x, y - r.y);
        }
    }
    lemma_eq_by_pixels(back, img, w, h);
}

/// Writing back what a rectangle held restores a picture that differs
/// from it only inside the rectangle.
pub proof fn lemma_blit_restores(img: Seq<Color>, img2: Seq<Color>, w: int, h: int, r: Rect)
    requires
        w > 0,
        h > 0,
        img.len() == w * h,
        img2.len() == w * h,
        fits(r, w, h),
        forall|x: int, y: int| 0 <= x < w && 0 <= y < h && !in_rect(r, x, y) ==> #[trigger] at(img2, w, x, y) == at(img, w, x, y),
    ensures
        blit_spec(img2, w, r, extract_spec(img, w, r)) == img,
{
    let back = blit_spec(img2, w, r, extract_spec(img, w, r));
    assert forall|x: int, y: int| 0 <= x < w && 0 <= y < h implies #[trigger] at(back, w, x, y) == at(img, w, x, y) by {
        lemma_blit_at(img2, w, h, r, extract_spec(img, w, r), x, y);
        if in_rect(r, x, y) {
            lemma_extract_at(img, w, r, x - r.x, y - r.y);
        } else {
            assert(at(img2, w, x, y) == at(img, w, x, y));
        }
    }
    lemma_eq_by_pixels(back, img, w, h);
}

/// Two canvases that look and behave the same: same size, pixels, pending
/// rectangles, file flag and history.
pub open spec fn same_canvas(a: Canvas, b: Canvas) -> bool {
    &&& a.wf() == b.wf()
    &&& a.width() == b.width()
    &&& a.height() == b.height()
    &&& a.image() == b.image()
    &&& a.base() == b.base()
    &&& a.stroke_spec() == b.stroke_spec()
    &&& a.dirty_spec() == b.dirty_spec()
    &&& a.upload_spec() == b.upload_spec()
    &&& a.file_dirty() == b.file_dirty()
    &&& a.undo_spec() == b.undo_spec()
    &&& a.redo_spec() == b.redo_spec()
    &&& a.stroke_consistent() == b.stroke_consistent()
}

/// A pixel change that misses every pixel of the rectangle changes nothing.
pub proof fn lemma_map_rect_no_hit(img: Seq<Color>, w: int, h: int, r: Rect, op: RectOp)
    requires
        w > 0,
        img.len() == w * h,
        fits(r, w, h),
        forall|x: int, y: int| in_rect(r, x, y) ==> !#[trigger] op_hits(op, at(img, w, x, y)),
        forall|c: Color| !op_hits(op, c) ==> op_color(op, c) == c,
    ensures
        map_rect(img, w, r, op) == img,
{
    assert forall|i: int| 0 <= i < img.len() implies map_rect(img, w, r, op)[i] == img[i] by {
        lemma_split(i, w, h);
        if in_rect(r, i % w, i / w) {
            assert(!op_hits(op, at(img, w, i % w, i / w)));
        }
    }
    assert(map_rect(img, w, r, op) =~= img);
}

/// `map_rect` read at a position.
pub proof fn lemma_map_rect_at(img: Seq<Color>, w: int, h: int, r: Rect, op: RectOp, x: int, y: int)
    requires
        img.len() == w * h,
        0 <= x < w,
        0 <= y < h,
    ensures
        at(map_rect(img, w, r, op), w, x, y) == if in_rect(r, x, y) { op_color(op, at(img, w, x, y)) } else { at(img, w, x, y) },
{
    lemma_index(x, y, w, h);
}

/// Clipping twice is clipping once.
pub proof fn lemma_clip_clip(r: Rect, w: int, h: int)
    requires
        0 <= w <= usize::MAX,
        0 <= h <= usize::MAX,
    ensures
        clip_spec(clip_spec(r, w, h), w, h) == clip_spec(r, w, h),
        fits(clip_spec(r, w, h), w, h),
        forall|x: int, y: int| 0 <= x < w && 0 <= y < h ==> (in_rect(r, x, y) == #[trigger] in_rect(clip_spec(r, w, h), x, y)),
{
}

/// The undo list once the open stroke (if it recorded anything) is closed.
pub open spec fn undo_after_close(c: Canvas) -> Seq<(Rect, Seq<Color>)> {
    match c.dirty_spec() {
        Some(r) => if c.base().len() == c.image().len() {
            evict(c.undo_spec().push((r, extract_spec(c.base(), c.width(), r))))
        } else {
            c.undo_spec()
        },
        None => c.undo_spec(),
    }
}

/// The redo list once the open stroke (if it recorded anything) is closed.
pub open spec fn redo_after_close(c: Canvas) -> Seq<(Rect, Seq<Color>)> {
    match c.dirty_spec() {
        Some(r) => if c.base().len() == c.image().len() {
            Seq::empty()
        } else {
            c.redo_spec()
        },
        None => c.redo_spec(),
    }
}

/// The undo list once a stroke that began from the picture `base` and
/// dirtied `d` closes on the list `undo`, for a picture of `n` pixels.
pub open spec fn closed_undo(undo: Seq<(Rect, Seq<Color>)>, d: Option<Rect>, base: Seq<Color>, n: nat, w: int) -> Seq<(Rect, Seq<Color>)> {
    match d {
        Some(r) => if base.len() == n {
            evict(undo.push((r, extract_spec(base, w, r))))
        } else {
            undo
        },
        None => undo,
    }
}

/// The redo list once such a stroke closes: a recorded step clears it.
pub open spec fn closed_redo(redo: Seq<(Rect, Seq<Color>)>, d: Option<Rect>, base: Seq<Color>, n: nat) -> Seq<(Rect, Seq<Color>)> {
    match d {
        Some(r) => if base.len() == n {
            Seq::empty()
        } else {
            redo
        },
        None => redo,
    }
}

/// A pending rectangle after an operation that marked `m` (`None`: marked
/// nothing).
pub open spec fn marked(d: Option<Rect>, m: Option<Rect>, w: int, h: int) -> Option<Rect> {
    match m {
        Some(r) => mark_spec(d, r, w, h),
        None => d,
    }
}

/// Whether marking `m` reaches a pixel of a `w` x `h` canvas.
pub open spec fn touches(m: Option<Rect>, w: int, h: int) -> bool {
    match m {
        Some(r) => clip_spec(r, w, h).w * clip_spec(r, w, h).h != 0,
        None => false,
    }
}

/// `c1` is `c0` after one undoable step that left the picture `image` and
/// marked `m`: a stroke is opened (closing an open one first, unless `reuse`
/// asks to continue it), the pixels change, and the stroke is closed.
pub open spec fn stroke_step(c0: Canvas, c1: Canvas, image: Seq<Color>, m: Option<Rect>, reuse: bool) -> bool {
    let w = c0.width();
    let h = c0.height();
    let cont = reuse && c0.stroke_spec();
    let u0 = if cont || !c0.stroke_spec() { c0.undo_spec() } else { undo_after_close(c0) };
    let r0 = if cont || !c0.stroke_spec() { c0.redo_spec() } else { redo_after_close(c0) };
    let base = if cont { c0.base() } else { c0.image() };
    let d = marked(if cont { c0.dirty_spec() } else { None }, m, w, h);
    &&& c1.wf()
    &&& c1.width() == w
    &&& c1.height() == h
    &&& c1.image() == image
    &&& c1.base() == base
    &&& !c1.stroke_spec()
    &&& c1.dirty_spec() is None
    &&& c1.upload_spec() == marked(c0.upload_spec(), m, w, h)
    &&& c1.file_dirty() == (c0.file_dirty() || touches(m, w, h))
    &&& c1.undo_spec() == closed_undo(u0, d, base, image.len(), w)
    &&& c1.redo_spec() == closed_redo(r0, d, base, image.len())
    &&& (!cont || c0.stroke_consistent()) ==> forall|x: int, y: int|
        0 <= x < w && 0 <= y < h && !covers(d, x, y) ==> #[trigger] at(image, w, x, y) == at(base, w, x, y)
}

/// `c1` is `c0` with a stroke open for the next change: the open one when
/// `reuse` asks to continue it, else a fresh one (an open one is closed
/// first).
pub open spec fn opened(c0: Canvas, c1: Canvas, reuse: bool) -> bool {
    if reuse && c0.stroke_spec() {
        c1 == c0
    } else {
        &&& c1.wf()
        &&& c1.stroke_spec()
        &&& c1.stroke_consistent()
        &&& c1.dirty_spec() is None
        &&& c1.base() == c0.image()
        &&& c1.image() == c0.image()
        &&& c1.width() == c0.width()
        &&& c1.height() == c0.height()
        &&& c1.upload_spec() == c0.upload_spec()
        &&& c1.file_dirty() == c0.file_dirty()
        &&& c1.undo_spec() == if c0.stroke_spec() { undo_after_close(c0) } else { c0.undo_spec() }
        &&& c1.redo_spec() == if c0.stroke_spec() { redo_after_close(c0) } else { c0.redo_spec() }
    }
}

/// `c1` is `c0` after a change of pixels that left `image` and marked `m`,
/// with the same size and history.
pub open spec fn changed(c0: Canvas, c1: Canvas, image: Seq<Color>, m: Option<Rect>) -> bool {
    let w = c0.width();
    let h = c0.height();
    &&& c1.wf()
    &&& c1.width() == w
    &&& c1.height() == h
    &&& c1.base() == c0.base()
    &&& c1.stroke_spec() == c0.stroke_spec()
    &&& c1.undo_spec() == c0.undo_spec()
    &&& c1.redo_spec() == c0.redo_spec()
    &&& c1.image() == image
    &&& c1.dirty_spec() == marked(c0.dirty_spec(), m, w, h)
    &&& c1.upload_spec() == marked(c0.upload_spec(), m, w, h)
    &&& c1.file_dirty() == (c0.file_dirty() || touches(m, w, h))
    &&& (c0.stroke_consistent() ==> c1.stroke_consistent())
}

/// Opening a stroke, changing pixels and closing the stroke is one
/// `stroke_step`.
pub proof fn lemma_stroke_step(c0: Canvas, c1: Canvas, c2: Canvas, c3: Canvas, image: Seq<Color>, m: Option<Rect>, reuse: bool)
    requires
        c0.wf(),
        opened(c0, c1, reuse),
        changed(c1, c2, image, m),
        ends_stroke(c2, c3),
    ensures
        stroke_step(c0, c3, image, m, reuse),
{
    let cont = reuse && c0.stroke_spec();
    if !cont || c0.stroke_consistent() {
        assert(c2.stroke_consistent());
        let w = c0.width();
        let h = c0.height();
        assert forall|x: int, y: int| 0 <= x < w && 0 <= y < h && !covers(c2.dirty_spec(), x, y)
            implies #[trigger] at(image, w, x, y) == at(c2.base(), w, x, y) by {
            assert(at(c2.px@, c2.w as int, x, y) == at(c2.scratch@, c2.w as int, x, y));
        }
    }
}

/// What `same_canvas` says, as a change that marked nothing.
pub proof fn lemma_same_is_unchanged(c1: Canvas, c0: Canvas)
    requires
        same_canvas(c1, c0),
        c0.wf(),
    ensures
        changed(c0, c1, c0.image(), None),
{
}

/// `new` is `old` after `end_stroke`.
pub open spec fn ends_stroke(old: Canvas, new: Canvas) -> bool {
    &&& new.wf()
    &&& new.width() == old.width()
    &&& new.height() == old.height()
    &&& new.image() == old.image()
    &&& new.base() == old.base()
    &&& !new.stroke_spec()
    &&& new.dirty_spec() is None
    &&& new.upload_spec() == old.upload_spec()
    &&& new.file_dirty() == old.file_dirty()
    &&& new.undo_spec() == undo_after_close(old)
    &&& new.redo_spec() == redo_after_close(old)
}

/// `new` is `old` after one undo (`undoing`) or one redo.
pub open spec fn steps(old: Canvas, new: Canvas, undoing: bool) -> bool {
    let from = if undoing { old.undo_spec() } else { old.redo_spec() };
    &&& new.wf()
    &&& new.width() == old.width()
    &&& new.height() == old.height()
    &&& new.base() == old.base()
    &&& new.stroke_spec() == old.stroke_spec()
    &&& if from.len() == 0 {
        new == old
    } else {
        let p = from.last();
        let inverse = (p.0, extract_spec(old.image(), old.width(), p.0));
        &&& new.image() == blit_spec(old.image(), old.width(), p.0, p.1)
        &&& new.dirty_spec() is None
        &&& new.upload_spec() == mark_spec(old.upload_spec(), p.0, old.width(), old.height())
        &&& new.file_dirty() == (old.file_dirty() || p.0.w * p.0.h != 0)
        &&& if undoing {
            &&& new.undo_spec() == old.undo_spec().drop_last()
            &&& new.redo_spec() == old.redo_spec().push(inverse)
        } else {
            &&& new.undo_spec() == evict(old.undo_spec().push(inverse))
            &&& new.redo_spec() == old.redo_spec().drop_last()
        }
    }
}

/// The pixels before an operation on the rectangle `r`.
struct Patch {
    r: Rect,
    px: Vec<Color>,
}

impl Patch {
    spec fn view(&self) -> (Rect, Seq<Color>) {
        (self.r, self.px@)
    }

    fn bytes(&self) -> (b: usize)
        requires
            4 * self.px@.len() <= usize::MAX,
        ensures
            b == 4 * self.px@.len(),
    {
        self.px.len() * PIXEL_BYTES
    }
}

/// A bitmap with an undo history that stores only the rectangle each step
/// dirtied.
pub struct Canvas {
    pub w: usize,
    pub h: usize,
    px: Vec<Color>,
    /// Copy taken when a stroke begins.
    scratch: Vec<Color>,
    /// What the open stroke dirtied; it becomes the history patch.
    dirty: Option<Rect>,
    /// A `begin_stroke` without its `end_stroke`.
    stroke: bool,
    /// What changed since the last frame took it.
    upload: Option<Rect>,
    undo: Vec<Patch>,
    redo: Vec<Patch>,
    undo_bytes: usize,
    /// Set on every change; the window title reads it.
    pub dirty_file: bool,
}

impl Canvas {
    pub closed spec fn width(&self) -> int {
        self.w as int
    }

    pub closed spec fn height(&self) -> int {
        self.h as int
    }

    pub closed spec fn file_dirty(&self) -> bool {
        self.dirty_file
    }

    /// The pixels, row by row.
    pub closed spec fn image(&self) -> Seq<Color> {
        self.px@
    }

    /// The pixels as they were when the open stroke began.
    pub closed spec fn base(&self) -> Seq<Color> {
        self.scratch@
    }

    pub closed spec fn stroke_spec(&self) -> bool {
        self.stroke
    }

    pub closed spec fn dirty_spec(&self) -> Option<Rect> {
        self.dirty
    }

    pub closed spec fn upload_spec(&self) -> Option<Rect> {
        self.upload
    }

    /// The undo steps, oldest first: each the rectangle and its old pixels.
    pub closed spec fn undo_spec(&self) -> Seq<(Rect, Seq<Color>)> {
        self.undo@.map_values(|p: Patch| p@)
    }

    pub closed spec fn redo_spec(&self) -> Seq<(Rect, Seq<Color>)> {
        self.redo@.map_values(|p: Patch| p@)
    }

    pub closed spec fn wf(&self) -> bool {
        &&& self.w > 0
        &&& self.h > 0
        &&& 4 * (self.w * self.h) <= isize::MAX
        &&& self.px@.len() == self.w * self.h
        &&& (self.dirty matches Some(r) ==> fits(r, self.w as int, self.h as int))
        &&& (self.upload matches Some(r) ==> fits(r, self.w as int, self.h as int))
        &&& forall|i: int| 0 <= i < self.undo@.len() ==> patch_fits(#[trigger] self.undo@[i]@, self.w as int, self.h as int)
        &&& forall|i: int| 0 <= i < self.redo@.len() ==> patch_fits(#[trigger] self.redo@[i]@, self.w as int, self.h as int)
        &&& self.undo_bytes == bytes_sum(self.undo_spec())
        &&& (bytes_sum(self.undo_spec()) <= MAX_UNDO_BYTES || self.undo@.len() == 1)
    }

    /// A stroke is open and everything it changed lies in its pending
    /// rectangle: closing it records exactly what undo needs.
    pub closed spec fn stroke_consistent(&self) -> bool {
        &&& self.stroke
        &&& self.scratch@.len() == self.px@.len()
        &&& forall|x: int, y: int| 0 <= x < self.w && 0 <= y < self.h && !covers(self.dirty, x, y)
                ==> #[trigger] at(self.px@, self.w as int, x, y) == at(self.scratch@, self.w as int, x, y)
    }

    /// Same size and the same history as `old`; only pixels, pending
    /// rectangles and the file flag may differ.
    pub closed spec fn keeps_history(&self, old: &Canvas) -> bool {
        &&& self.w == old.w
        &&& self.h == old.h
        &&& self.scratch@ == old.scratch@
        &&& self.stroke == old.stroke
        &&& self.undo@ == old.undo@
        &&& self.redo@ == old.redo@
        &&& self.undo_bytes == old.undo_bytes
    }

    /// A white canvas with an empty history.
    pub fn new(w: usize, h: usize) -> (c: Canvas)
        requires
            w > 0,
            h > 0,
            4 * (w * h) <= isize::MAX,
        ensures
            c.wf(),
            c.width() == w,
            c.height() == h,
            c.image() == solid(w as int, h as int, opaque(255, 255, 255)),
            c.undo_spec().len() == 0,
            c.redo_spec().len() == 0,
            !c.stroke_spec(),
            c.dirty_spec() is None,
            c.upload_spec() is None,
            !c.file_dirty(),
    {
        let px = vec![Color::white(); w * h];
        let c = Canvas {
            w,
            h,
            px,
            scratch: Vec::new(),
            dirty: None,
            stroke: false,
            upload: None,
            undo: Vec::new(),
            redo: Vec::new(),
            undo_bytes: 0,
            dirty_file: false,
        };
        assert(c.undo_spec() =~= Seq::empty());
        assert(c.redo_spec() =~= Seq::empty());
        assert(c.image() =~= solid(w as int, h as int, opaque(255, 255, 255)));
        c
    }

    pub fn pixels(&self) -> (p: &[Color])
        ensures
            p@ == self.image(),
    {
        self.px.as_slice()
    }

    /// Width and height.
    pub fn size(&self) -> (s: (usize, usize))
        ensures
            s.0 == self.width(),
            s.1 == self.height(),
    {
        (self.w, self.h)
    }

    /// Sets the flag that tells the window title there are unsaved changes.
    pub fn set_dirty_file(&mut self, v: bool)
        requires
            old(self).wf(),
        ensures
            final(self).wf(),
            final(self).file_dirty() == v,
            final(self).width() == old(self).width(),
            final(self).height() == old(self).height(),
            final(self).image() == old(self).image(),
            final(self).base() == old(self).base(),
            final(self).stroke_spec() == old(self).stroke_spec(),
            final(self).dirty_spec() == old(self).dirty_spec(),
            final(self).upload_spec() == old(self).upload_spec(),
            final(self).undo_spec() == old(self).undo_spec(),
            final(self).redo_spec() == old(self).redo_spec(),
            old(self).stroke_consistent() ==> final(self).stroke_consistent(),
    {
        self.dirty_file = v;
        proof {
            if old(self).stroke_consistent() {
                assert forall|x: int, y: int| 0 <= x < self.w && 0 <= y < self.h && !covers(self.dirty, x, y)
                    implies #[trigger] at(self.px@, self.w as int, x, y) == at(self.scratch@, self.w as int, x, y) by {
                    assert(at(old(self).px@, self.w as int, x, y) == at(old(self).scratch@, self.w as int, x, y));
                }
            }
        }
    }

    pub fn undo_bytes(&self) -> (b: usize)
        requires
            self.wf(),
        ensures
            b == bytes_sum(self.undo_spec()),
    {
        self.undo_bytes
    }

    pub fn undo_len(&self) -> (n: usize)
        ensures
            n == self.undo_spec().len(),
    {
        self.undo.len()
    }

    pub fn can_undo(&self) -> (b: bool)
        ensures
            b == (self.undo_spec().len() > 0),
    {
        !self.undo.is_empty()
    }

    pub fn can_redo(&self) -> (b: bool)
        ensures
            b == (self.redo_spec().len() > 0),
    {
        !self.redo.is_empty()
    }

    /// The pixel at `(x, y)`, or `None` off the canvas.
    pub fn geti(&self, x: i32, y: i32) -> (c: Option<Color>)
        requires
            self.wf(),
        ensures
            c == if 0 <= x < self.width() && 0 <= y < self.height() {
                Some(at(self.image(), self.width(), x as int, y as int))
            } else {
                None
            },
    {
        if x < 0 || y < 0 || x as usize >= self.w || y as usize >= self.h {
            None
        } else {
            proof {
                lemma_index(x as int, y as int, self.w as int, self.h as int);
            }
            Some(self.px[y as usize * self.w + x as usize])
        }
    }

    /// Records that `r` changed: grows the stroke's and the upload's pending
    /// rectangles by `r` clipped to the canvas.
    fn mark(&mut self, r: Rect)
        requires
            r.x + r.w <= usize::MAX,
            r.y + r.h <= usize::MAX,
            old(self).dirty matches Some(d) ==> fits(d, old(self).w as int, old(self).h as int),
            old(self).upload matches Some(d) ==> fits(d, old(self).w as int, old(self).h as int),
        ensures
            final(self).dirty == mark_spec(old(self).dirty, r, old(self).w as int, old(self).h as int),
            final(self).upload == mark_spec(old(self).upload, r, old(self).w as int, old(self).h as int),
            final(self).dirty_file == (old(self).dirty_file || clip_spec(r, old(self).w as int, old(self).h as int).w
                * clip_spec(r, old(self).w as int, old(self).h as int).h != 0),
            final(self).keeps_history(old(self)),
            final(self).px@ == old(self).px@,
    {
        let c = clip(r, self.w, self.h);
        if c.w == 0 || c.h == 0 {
            assert(c.w * c.h == 0) by (nonlinear_arith)
                requires
                    c.w == 0 || c.h == 0,
            ;
            return;
        }
        assert(c.w * c.h != 0) by (nonlinear_arith)
            requires
                c.w >= 1,
                c.h >= 1,
        ;
        self.dirty = Some(match self.dirty {
            None => c,
            Some(d) => d.union(c),
        });
        self.upload = Some(match self.upload {
            None => c,
            Some(u) => u.union(c),
        });
        self.dirty_file = true;
    }

    /// The history part of `wf`, which operations that replace the pixels
    /// keep while the pixels are in flux.
    closed spec fn history_ok(&self) -> bool {
        &&& self.w > 0
        &&& self.h > 0
        &&& 4 * (self.w * self.h) <= isize::MAX
        &&& forall|i: int| 0 <= i < self.undo@.len() ==> patch_fits(#[trigger] self.undo@[i]@, self.w as int, self.h as int)
        &&& forall|i: int| 0 <= i < self.redo@.len() ==> patch_fits(#[trigger] self.redo@[i]@, self.w as int, self.h as int)
        &&& self.undo_bytes == bytes_sum(self.undo_spec())
        &&& (bytes_sum(self.undo_spec()) <= MAX_UNDO_BYTES || self.undo@.len() == 1)
    }

    /// Adds a step to the undo list, dropping the oldest steps while the list
    /// is over budget, but never the step just added.
    fn push_undo(&mut self, p: Patch)
        requires
            old(self).history_ok(),
            patch_fits(p@, old(self).w as int, old(self).h as int),
        ensures
            final(self).history_ok(),
            final(self).undo_spec() == evict(old(self).undo_spec().push(p@)),
            final(self).undo_spec().len() >= 1,
            final(self).undo_spec().last() == p@,
            final(self).w == old(self).w,
            final(self).h == old(self).h,
            final(self).px@ == old(self).px@,
            final(self).scratch@ == old(self).scratch@,
            final(self).stroke == old(self).stroke,
            final(self).dirty == old(self).dirty,
            final(self).upload == old(self).upload,
            final(self).redo@ == old(self).redo@,
            final(self).dirty_file == old(self).dirty_file,
    {
        proof {
            lemma_patch_small(p@, self.w as int, self.h as int);
            if self.undo@.len() == 1 {
                lemma_patch_small(self.undo@[0]@, self.w as int, self.h as int);
                assert(self.undo_spec().drop_first() =~= Seq::empty());
                assert(bytes_sum(self.undo_spec().drop_first()) == 0);
                assert(self.undo_bytes <= 4 * (self.w * self.h));
            }
            if self.undo@.len() == 0 {
                assert(self.undo_spec() =~= Seq::empty());
            }
            assert(self.undo_bytes <= MAX_UNDO_BYTES || self.undo_bytes <= 4 * (self.w * self.h));
            assert(isize::MAX + isize::MAX < usize::MAX);
            assert(MAX_UNDO_BYTES + isize::MAX < usize::MAX);
            lemma_bytes_push(self.undo_spec(), p@);
        }
        let ghost target = evict(old(self).undo_spec().push(p@));
        let ghost pv = p@;
        self.undo_bytes = self.undo_bytes + p.bytes();
        self.undo.push(p);
        assert(self.undo_spec() =~= old(self).undo_spec().push(pv));
        while self.undo_bytes > MAX_UNDO_BYTES && self.undo.len() > 1
            invariant
                self.w == old(self).w,
                self.h == old(self).h,
                self.w > 0,
                self.h > 0,
                4 * (self.w * self.h) <= isize::MAX,
                forall|i: int| 0 <= i < self.undo@.len() ==> patch_fits(#[trigger] self.undo@[i]@, self.w as int, self.h as int),
                self.undo_bytes == bytes_sum(self.undo_spec()),
                evict(self.undo_spec()) == target,
                self.undo@.len() >= 1,
                self.undo_spec().last() == pv,
                self.px@ == old(self).px@,
                self.scratch@ == old(self).scratch@,
                self.stroke == old(self).stroke,
                self.dirty == old(self).dirty,
                self.upload == old(self).upload,
                self.redo@ == old(self).redo@,
                self.dirty_file == old(self).dirty_file,
                forall|i: int| 0 <= i < self.redo@.len() ==> patch_fits(#[trigger] self.redo@[i]@, self.w as int, self.h as int),
            decreases self.undo@.len(),
        {
            let ghost before = self.undo_spec();
            proof {
                lemma_patch_small(self.undo@[0]@, self.w as int, self.h as int);
            }
            let first = self.undo.remove(0);
            assert(self.undo_spec() =~= before.drop_first());
            self.undo_bytes = self.undo_bytes - first.bytes();
        }
    }

    /// Forgets the whole history and any open stroke.
    fn reset_history(&mut self)
        requires
            old(self).w > 0,
            old(self).h > 0,
            4 * (old(self).w * old(self).h) <= isize::MAX,
        ensures
            final(self).history_ok(),
            final(self).undo_spec().len() == 0,
            final(self).redo_spec().len() == 0,
            final(self).scratch@.len() == 0,
            !final(self).stroke,
            final(self).dirty is None,
            final(self).w == old(self).w,
            final(self).h == old(self).h,
            final(self).px@ == old(self).px@,
            final(self).upload == old(self).upload,
            final(self).dirty_file == old(self).dirty_file,
    {
        self.undo.clear();
        self.redo.clear();
        self.undo_bytes = 0;
        self.dirty = None;
        self.stroke = false;
        self.scratch.clear();
        assert(self.undo_spec() =~= Seq::empty());
        assert(self.redo_spec() =~= Seq::empty());
    }

    /// Asks for the whole canvas to be uploaded on the next frame.
    pub fn mark_all(&mut self)
        requires
            old(self).wf(),
        ensures
            final(self).wf(),
            final(self).upload_spec() == Some(Rect { x: 0, y: 0, w: old(self).width() as usize, h: old(self).height() as usize }),
            final(self).keeps_history(old(self)),
            final(self).image() == old(self).image(),
            final(self).dirty_spec() == old(self).dirty_spec(),
            final(self).file_dirty() == old(self).file_dirty(),
            old(self).stroke_consistent() ==> final(self).stroke_consistent(),
    {
        self.upload = Some(Rect { x: 0, y: 0, w: self.w, h: self.h });
    }

    /// What changed since the last call, for the texture upload.
    pub fn take_upload(&mut self) -> (u: Option<Rect>)
        requires
            old(self).wf(),
        ensures
            u == old(self).upload_spec(),
            final(self).wf(),
            final(self).upload_spec() is None,
            final(self).keeps_history(old(self)),
            final(self).image() == old(self).image(),
            final(self).dirty_spec() == old(self).dirty_spec(),
            final(self).file_dirty() == old(self).file_dirty(),
            old(self).stroke_consistent() ==> final(self).stroke_consistent(),
    {
        self.upload.take()
    }

    pub fn stroke_open(&self) -> (b: bool)
        ensures
            b == self.stroke_spec(),
    {
        self.stroke
    }

    /// Opens a stroke: later changes become one undo step when it closes.
    /// An already open stroke is closed first.
    pub fn begin_stroke(&mut self)
        requires
            old(self).wf(),
        ensures
            final(self).wf(),
            final(self).stroke_spec(),
            final(self).stroke_consistent(),
            final(self).dirty_spec() is None,
            final(self).base() == old(self).image(),
            final(self).image() == old(self).image(),
            final(self).width() == old(self).width(),
            final(self).height() == old(self).height(),
            final(self).upload_spec() == old(self).upload_spec(),
            final(self).file_dirty() == old(self).file_dirty(),
            final(self).undo_spec() == if old(self).stroke_spec() { undo_after_close(*old(self)) } else { old(self).undo_spec() },
            final(self).redo_spec() == if old(self).stroke_spec() { redo_after_close(*old(self)) } else { old(self).redo_spec() },
    {
        if self.stroke {
            self.end_stroke();
        }
        let n = self.px.len();
        let mut copy: Vec<Color> = Vec::new();
        let mut i: usize = 0;
        while i < n
            invariant
                n == self.px@.len(),
                i <= n,
                copy@ == self.px@.subrange(0, i as int),
            decreases n - i,
        {
            let c = self.px[i];
            copy.push(c);
            i += 1;
            assert(copy@ =~= self.px@.subrange(0, i as int));
        }
        assert(copy@ =~= self.px@);
        self.scratch = copy;
        self.dirty = None;
        self.stroke = true;
    }

    /// Applies the newest undo step (`undoing`) or redo step; what it
    /// overwrote goes to the other list.
    fn step(&mut self, undoing: bool)
        requires
            old(self).wf(),
        ensures
            steps(*old(self), *final(self), undoing),
    {
        if undoing && self.undo.len() == 0 {
            return;
        }
        if !undoing && self.redo.len() == 0 {
            return;
        }
        let ghost u0 = self.undo_spec();
        let ghost r0 = self.redo_spec();
        let popped = if undoing { self.undo.pop() } else { self.redo.pop() };
        let p = match popped {
            Some(p) => p,
            None => {
                return;
            },
        };
        proof {
            if undoing {
                assert(self.undo_spec() =~= u0.drop_last());
                assert(u0.last() == p@);
                assert(patch_fits(old(self).undo@[u0.len() - 1]@, self.w as int, self.h as int));
                lemma_bytes_drop_last(u0);
                lemma_patch_small(p@, self.w as int, self.h as int);
                if u0.len() == 1 {
                    assert(u0.drop_last() =~= Seq::empty());
                }
                assert(self.redo_spec() == r0);
            } else {
                assert(self.redo_spec() =~= r0.drop_last());
                assert(r0.last() == p@);
                assert(patch_fits(old(self).redo@[r0.len() - 1]@, self.w as int, self.h as int));
                assert(self.undo_spec() == u0);
            }
        }
        if undoing {
            self.undo_bytes = self.undo_bytes - p.bytes();
        }
        let r = p.r;
        proof {
            lemma_row_le((r.y + r.h) as int, self.h as int, self.w as int);
            lemma_row_next(r.h as int, r.w as int);
            lemma_row_next(self.h as int, self.w as int);
            lemma_clip_fits(r, self.w as int, self.h as int);
        }
        let ghost img0 = self.px@;
        let inverse = Patch { r, px: extract(self.px.as_slice(), self.w, r) };
        blit(&mut self.px, self.w, r, p.px.as_slice());
        self.mark(r);
        self.dirty = None;
        proof {
            lemma_mark_fits(old(self).upload, r, self.w as int, self.h as int);
            assert(patch_fits(inverse@, self.w as int, self.h as int));
        }
        if undoing {
            let ghost before = self.redo_spec();
            self.redo.push(inverse);
            assert(self.redo_spec() =~= before.push(inverse@));
        } else {
            self.push_undo(inverse);
        }
    }

    /// Undoes the newest step; with nothing to undo nothing happens.
    pub fn undo(&mut self)
        requires
            old(self).wf(),
        ensures
            steps(*old(self), *final(self), true),
    {
        self.step(true);
    }

    /// Redoes the newest undone step; with nothing to redo nothing happens.
    pub fn redo(&mut self)
        requires
            old(self).wf(),
        ensures
            steps(*old(self), *final(self), false),
    {
        self.step(false);
    }

    /// An open stroke stays consistent when every pixel that changed is
    /// covered by the grown pending rectangle.
    proof fn lemma_keep_consistent(old: Canvas, new: Canvas)
        requires
            old.stroke_consistent(),
            new.stroke == old.stroke,
            new.scratch@ == old.scratch@,
            new.w == old.w,
            new.h == old.h,
            new.px@.len() == old.px@.len(),
            forall|x: int, y: int| 0 <= x < old.w && 0 <= y < old.h && covers(old.dirty, x, y) ==> #[trigger] covers(new.dirty, x, y),
            forall|x: int, y: int| 0 <= x < old.w && 0 <= y < old.h && at(new.px@, old.w as int, x, y) != at(old.px@, old.w as int, x, y)
                ==> #[trigger] covers(new.dirty, x, y),
        ensures
            new.stroke_consistent(),
    {
        assert forall|x: int, y: int| 0 <= x < new.w && 0 <= y < new.h && !covers(new.dirty, x, y)
            implies #[trigger] at(new.px@, new.w as int, x, y) == at(new.scratch@, new.w as int, x, y) by {
            assert(!covers(old.dirty, x, y));
            assert(at(old.px@, old.w as int, x, y) == at(old.scratch@, old.w as int, x, y));
        }
    }

    /// The pixels of `r`, row by row.
    pub fn region(&self, r: Rect) -> (v: Vec<Color>)
        requires
            self.wf(),
            fits(r, self.width(), self.height()),
        ensures
            v@ == extract_spec(self.image(), self.width(), r),
    {
        proof {
            lemma_row_le((r.y + r.h) as int, self.h as int, self.w as int);
            lemma_row_next(self.h as int, self.w as int);
        }
        extract(self.px.as_slice(), self.w, r)
    }

    /// Writes `src` (row by row) into `r`; what falls off the canvas is
    /// skipped.
    pub fn put_region(&mut self, r: Rect, src: &[Color])
        requires
            old(self).wf(),
            r.x + r.w <= usize::MAX,
            r.y + r.h <= usize::MAX,
            r.w * r.h <= src@.len(),
        ensures
            final(self).wf(),
            final(self).keeps_history(old(self)),
            final(self).image() == blit_spec(old(self).image(), old(self).width(), r, src@),
            final(self).dirty_spec() == mark_spec(old(self).dirty_spec(), r, old(self).width(), old(self).height()),
            final(self).upload_spec() == mark_spec(old(self).upload_spec(), r, old(self).width(), old(self).height()),
            final(self).file_dirty() == (old(self).file_dirty() || clip_spec(r, old(self).width(), old(self).height()).w
                * clip_spec(r, old(self).width(), old(self).height()).h != 0),
            old(self).stroke_consistent() ==> final(self).stroke_consistent(),
    {
        proof {
            lemma_row_next(self.h as int, self.w as int);
            lemma_clip_clip(r, self.w as int, self.h as int);
        }
        let ghost old_self = *self;
        blit_clipped(&mut self.px, self.w, self.h, r, src);
        let c = clip(r, self.w, self.h);
        self.mark(c);
        proof {
            lemma_mark_fits(old(self).dirty, c, self.w as int, self.h as int);
            lemma_mark_fits(old(self).upload, c, self.w as int, self.h as int);
            if old(self).stroke_consistent() {
                assert forall|x: int, y: int| 0 <= x < self.w && 0 <= y < self.h && covers(old(self).dirty, x, y)
                    implies #[trigger] covers(self.dirty, x, y) by {
                    lemma_mark_covers(old(self).dirty, c, self.w as int, self.h as int, x, y);
                }
                assert forall|x: int, y: int| 0 <= x < self.w && 0 <= y < self.h
                    && at(self.px@, self.w as int, x, y) != at(old_self.px@, self.w as int, x, y)
                    implies #[trigger] covers(self.dirty, x, y) by {
                    crate::grid::lemma_blit_at(old_self.px@, self.w as int, self.h as int, r, src@, x, y);
                    lemma_mark_covers(old(self).dirty, c, self.w as int, self.h as int, x, y);
                }
                Self::lemma_keep_consistent(old_self, *self);
            }
        }
    }

    /// Like `put_region`, but the pixels of `src` that have color `key` are
    /// skipped: the transparent selection. Only a call that wrote some pixel
    /// marks the canvas, with the bounding box of what it wrote.
    pub fn put_region_keyed(&mut self, r: Rect, src: &[Color], key: Color)
        requires
            old(self).wf(),
            r.x + r.w <= usize::MAX,
            r.y + r.h <= usize::MAX,
            r.w * r.h <= src@.len(),
        ensures
            final(self).wf(),
            old(self).stroke_consistent() ==> final(self).stroke_consistent(),
            ({
                let w = old(self).width();
                let h = old(self).height();
                if exists|x: int, y: int| #[trigger] keyed_hit(w, h, r, src@, key, x, y) {
                    &&& final(self).image() == keyed_spec(old(self).image(), w, h, r, src@, key)
                    &&& exists|b: Rect| #[trigger] hit_box(w, h, r, src@, key, b)
                        && final(self).dirty_spec() == mark_spec(old(self).dirty_spec(), b, w, h)
                        && final(self).upload_spec() == mark_spec(old(self).upload_spec(), b, w, h)
                    &&& final(self).file_dirty()
                    &&& final(self).keeps_history(old(self))
                } else {
                    same_canvas(*final(self), *old(self))
                }
            }),
    {
        let ghost old_px = self.px@;
        let ghost wi = self.w as int;
        let ghost hi = self.h as int;
        let hit = blit_keyed(&mut self.px, self.w, self.h, r, src, key);
        match hit {
            None => {
                proof {
                    assert forall|i: int| 0 <= i < old_px.len() implies self.px@[i] == old_px[i] by {
                        lemma_split(i, wi, hi);
                        assert(!keyed_hit(wi, hi, r, src@, key, i % wi, i / wi));
                    }
                    assert(self.px@ =~= old_px);
                }
            },
            Some(b) => {
                self.mark(b);
                proof {
                    lemma_clip_fits(b, wi, hi);
                    let (x, y) = choose|x: int, y: int| #[trigger] keyed_hit(wi, hi, r, src@, key, x, y) && x == b.x;
                    assert(in_rect(b, x, y));
                    assert(b.w * b.h != 0) by (nonlinear_arith)
                        requires
                            b.w >= 1,
                            b.h >= 1,
                    ;
                    lemma_mark_fits(old(self).dirty, b, wi, hi);
                    lemma_mark_fits(old(self).upload, b, wi, hi);
                    if old(self).stroke_consistent() {
                        assert forall|xx: int, yy: int| 0 <= xx < self.w && 0 <= yy < self.h && !covers(self.dirty, xx, yy)
                            implies #[trigger] at(self.px@, wi, xx, yy) == at(self.scratch@, wi, xx, yy) by {
                            if covers(old(self).dirty, xx, yy) || in_rect(b, xx, yy) {
                                lemma_mark_covers(old(self).dirty, b, wi, hi, xx, yy);
                            }
                            lemma_index(xx, yy, wi, hi);
                            assert(!keyed_hit(wi, hi, r, src@, key, xx, yy));
                            assert(at(old_px, wi, xx, yy) == at(self.scratch@, wi, xx, yy));
                        }
                    }
                }
            },
        }
    }

    /// Paints the part of `r` on the canvas with `c`.
    pub fn clear_region(&mut self, r: Rect, c: Color)
        requires
            old(self).wf(),
            r.x + r.w <= usize::MAX,
            r.y + r.h <= usize::MAX,
        ensures
            final(self).wf(),
            final(self).keeps_history(old(self)),
            final(self).image() == map_rect(old(self).image(), old(self).width(), clip_spec(r, old(self).width(), old(self).height()), RectOp::Paint(c)),
            final(self).dirty_spec() == mark_spec(old(self).dirty_spec(), r, old(self).width(), old(self).height()),
            final(self).upload_spec() == mark_spec(old(self).upload_spec(), r, old(self).width(), old(self).height()),
            final(self).file_dirty() == (old(self).file_dirty() || clip_spec(r, old(self).width(), old(self).height()).w
                * clip_spec(r, old(self).width(), old(self).height()).h != 0),
            old(self).stroke_consistent() ==> final(self).stroke_consistent(),
    {
        self.apply_marked(r, RectOp::Paint(c));
    }

    /// Inverts the colors of the part of `r` on the canvas; the result is
    /// opaque.
    pub fn invert_region(&mut self, r: Rect)
        requires
            old(self).wf(),
            r.x + r.w <= usize::MAX,
            r.y + r.h <= usize::MAX,
        ensures
            final(self).wf(),
            final(self).keeps_history(old(self)),
            final(self).image() == map_rect(old(self).image(), old(self).width(), clip_spec(r, old(self).width(), old(self).height()), RectOp::Invert),
            final(self).dirty_spec() == mark_spec(old(self).dirty_spec(), r, old(self).width(), old(self).height()),
            final(self).upload_spec() == mark_spec(old(self).upload_spec(), r, old(self).width(), old(self).height()),
            final(self).file_dirty() == (old(self).file_dirty() || clip_spec(r, old(self).width(), old(self).height()).w
                * clip_spec(r, old(self).width(), old(self).height()).h != 0),
            old(self).stroke_consistent() ==> final(self).stroke_consistent(),
    {
        self.apply_marked(r, RectOp::Invert);
    }

    /// Applies `op` to the part of `r` on the canvas and marks it.
    fn apply_marked(&mut self, r: Rect, op: RectOp)
        requires
            old(self).wf(),
            r.x + r.w <= usize::MAX,
            r.y + r.h <= usize::MAX,
        ensures
            final(self).wf(),
            final(self).keeps_history(old(self)),
            final(self).image() == map_rect(old(self).image(), old(self).width(), clip_spec(r, old(self).width(), old(self).height()), op),
            final(self).dirty_spec() == mark_spec(old(self).dirty_spec(), r, old(self).width(), old(self).height()),
            final(self).upload_spec() == mark_spec(old(self).upload_spec(), r, old(self).width(), old(self).height()),
            final(self).file_dirty() == (old(self).file_dirty() || clip_spec(r, old(self).width(), old(self).height()).w
                * clip_spec(r, old(self).width(), old(self).height()).h != 0),
            old(self).stroke_consistent() ==> final(self).stroke_consistent(),
    {
        proof {
            lemma_clip_clip(r, self.w as int, self.h as int);
        }
        let ghost old_self = *self;
        let c = clip(r, self.w, self.h);
        apply_rect(&mut self.px, self.w, self.h, c, op);
        self.mark(c);
        proof {
            lemma_mark_fits(old(self).dirty, c, self.w as int, self.h as int);
            lemma_mark_fits(old(self).upload, c, self.w as int, self.h as int);
            if old(self).stroke_consistent() {
                assert forall|x: int, y: int| 0 <= x < self.w && 0 <= y < self.h && covers(old(self).dirty, x, y)
                    implies #[trigger] covers(self.dirty, x, y) by {
                    lemma_mark_covers(old(self).dirty, c, self.w as int, self.h as int, x, y);
                }
                assert forall|x: int, y: int| 0 <= x < self.w && 0 <= y < self.h
                    && at(self.px@, self.w as int, x, y) != at(old_self.px@, self.w as int, x, y)
                    implies #[trigger] covers(self.dirty, x, y) by {
                    lemma_map_rect_at(old_self.px@, self.w as int, self.h as int, c, op, x, y);
                    lemma_mark_covers(old(self).dirty, c, self.w as int, self.h as int, x, y);
                }
                Self::lemma_keep_consistent(old_self, *self);
            }
        }
    }

    /// The paint bucket: repaints with `c` the 4-connected region of the
    /// color under `(x, y)`, and marks its bounding box. Off the canvas, or
    /// on a pixel that already has color `c`, nothing happens.
    pub fn fill(&mut self, x: i32, y: i32, c: Color)
        requires
            old(self).wf(),
        ensures
            final(self).wf(),
            old(self).stroke_consistent() ==> final(self).stroke_consistent(),
            ({
                let w = old(self).width();
                let h = old(self).height();
                let s = (x as int, y as int);
                if 0 <= x < w && 0 <= y < h && at(old(self).image(), w, x as int, y as int) != c {
                    &&& final(self).image() == flood_spec(old(self).image(), w, h, s, c)
                    &&& exists|r: Rect| #[trigger] bounds(old(self).image(), w, h, s, r)
                        && final(self).dirty_spec() == mark_spec(old(self).dirty_spec(), r, w, h)
                        && final(self).upload_spec() == mark_spec(old(self).upload_spec(), r, w, h)
                    &&& final(self).file_dirty()
                    &&& final(self).keeps_history(old(self))
                } else {
                    same_canvas(*final(self), *old(self))
                }
            }),
    {
        if x < 0 || y < 0 {
            return;
        }
        let (xu, yu) = (x as usize, y as usize);
        if xu >= self.w || yu >= self.h {
            return;
        }
        proof {
            lemma_index(x as int, y as int, self.w as int, self.h as int);
        }
        let target = self.px[yu * self.w + xu];
        if target == c {
            return;
        }
        let ghost old_px = self.px@;
        let ghost wi = self.w as int;
        let ghost hi = self.h as int;
        let r = flood(&mut self.px, self.w, self.h, xu, yu, c);
        proof {
            assert(in_rect(r, x as int, y as int)) by {
                crate::fill::lemma_connected_self(old_px, wi, hi, (x as int, y as int));
            }
        }
        self.mark(r);
        proof {
            assert(clip_spec(r, wi, hi) == r);
            assert(r.w * r.h != 0) by (nonlinear_arith)
                requires
                    r.w >= 1,
                    r.h >= 1,
            ;
            lemma_mark_fits(old(self).dirty, r, wi, hi);
            lemma_mark_fits(old(self).upload, r, wi, hi);
            assert(bounds(old_px, wi, hi, (x as int, y as int), r));
            if old(self).stroke_consistent() {
                assert forall|xx: int, yy: int| 0 <= xx < self.w && 0 <= yy < self.h && !covers(self.dirty, xx, yy)
                    implies #[trigger] at(self.px@, wi, xx, yy) == at(self.scratch@, wi, xx, yy) by {
                    if covers(old(self).dirty, xx, yy) || in_rect(r, xx, yy) {
                        lemma_mark_covers(old(self).dirty, r, wi, hi, xx, yy);
                    }
                    lemma_index(xx, yy, wi, hi);
                    assert(!crate::fill::connected(old_px, wi, hi, (x as int, y as int), (xx, yy)));
                    assert(at(old_px, wi, xx, yy) == at(self.scratch@, wi, xx, yy));
                }
            }
        }
    }

    /// Replaces `from` by `to` inside `r`: the selective eraser. Only a call
    /// that changed some pixel marks the canvas.
    pub fn replace_color_in(&mut self, r: Rect, from: Color, to: Color)
        requires
            old(self).wf(),
            r.x + r.w <= usize::MAX,
            r.y + r.h <= usize::MAX,
        ensures
            final(self).wf(),
            ({
                let rc = clip_spec(r, old(self).width(), old(self).height());
                let touched = from != to && exists|x: int, y: int| in_rect(rc, x, y)
                    && #[trigger] at(old(self).image(), old(self).width(), x, y) == from;
                if touched {
                    &&& final(self).keeps_history(old(self))
                    &&& final(self).image() == map_rect(old(self).image(), old(self).width(), rc, RectOp::Replace(from, to))
                    &&& final(self).dirty_spec() == mark_spec(old(self).dirty_spec(), r, old(self).width(), old(self).height())
                    &&& final(self).upload_spec() == mark_spec(old(self).upload_spec(), r, old(self).width(), old(self).height())
                    &&& final(self).file_dirty() == (old(self).file_dirty() || rc.w * rc.h != 0)
                } else {
                    same_canvas(*final(self), *old(self))
                }
            }),
            old(self).stroke_consistent() ==> final(self).stroke_consistent(),
    {
        if from == to {
            return;
        }
        proof {
            lemma_clip_clip(r, self.w as int, self.h as int);
        }
        let ghost old_self = *self;
        let c = clip(r, self.w, self.h);
        let touched = apply_rect(&mut self.px, self.w, self.h, c, RectOp::Replace(from, to));
        proof {
            let op = RectOp::Replace(from, to);
            if !touched {
                lemma_map_rect_no_hit(old_self.px@, self.w as int, self.h as int, c, op);
                assert forall|x: int, y: int| in_rect(c, x, y) implies #[trigger] at(old_self.px@, self.w as int, x, y) != from by {
                    if at(old_self.px@, self.w as int, x, y) == from {
                        assert(op_hits(op, at(old_self.px@, self.w as int, x, y)));
                    }
                }
            } else {
                let (x, y) = choose|x: int, y: int| in_rect(c, x, y) && #[trigger] op_hits(op, at(old_self.px@, self.w as int, x, y));
                assert(in_rect(c, x, y) && at(old_self.px@, self.w as int, x, y) == from);
            }
            assert(touched == exists|x: int, y: int| in_rect(c, x, y)
                    && #[trigger] at(old_self.px@, self.w as int, x, y) == from);
        }
        if touched {
            self.mark(r);
            proof {
                lemma_mark_fits(old(self).dirty, r, self.w as int, self.h as int);
                lemma_mark_fits(old(self).upload, r, self.w as int, self.h as int);
                if old(self).stroke_consistent() {
                    assert forall|x: int, y: int| 0 <= x < self.w && 0 <= y < self.h && covers(old(self).dirty, x, y)
                        implies #[trigger] covers(self.dirty, x, y) by {
                        lemma_mark_covers(old(self).dirty, r, self.w as int, self.h as int, x, y);
                    }
                    assert forall|x: int, y: int| 0 <= x < self.w && 0 <= y < self.h
                        && at(self.px@, self.w as int, x, y) != at(old_self.px@, self.w as int, x, y)
                        implies #[trigger] covers(self.dirty, x, y) by {
                        lemma_map_rect_at(old_self.px@, self.w as int, self.h as int, c, RectOp::Replace(from, to), x, y);
                        lemma_mark_covers(old(self).dirty, r, self.w as int, self.h as int, x, y);
                    }
                    Self::lemma_keep_consistent(old_self, *self);
                }
            }
        }
    }

    /// The whole canvas as a rectangle.
    pub closed spec fn full(&self) -> Rect {
        Rect { x: 0, y: 0, w: self.w, h: self.h }
    }

    /// Records the whole canvas as one undo step, before an operation that
    /// changes every pixel but keeps the size.
    fn snapshot_all(&mut self)
        requires
            old(self).wf(),
        ensures
            final(self).wf(),
            final(self).undo_spec() == evict(old(self).undo_spec().push((old(self).full(), old(self).image()))),
            final(self).redo_spec().len() == 0,
            final(self).w == old(self).w,
            final(self).h == old(self).h,
            final(self).px@ == old(self).px@,
            final(self).scratch@ == old(self).scratch@,
            final(self).stroke == old(self).stroke,
            final(self).dirty == old(self).dirty,
            final(self).upload == old(self).upload,
            final(self).dirty_file == old(self).dirty_file,
    {
        let r = Rect { x: 0, y: 0, w: self.w, h: self.h };
        let n = self.px.len();
        let mut copy: Vec<Color> = Vec::new();
        let mut i: usize = 0;
        while i < n
            invariant
                n == self.px@.len(),
                i <= n,
                copy@ == self.px@.subrange(0, i as int),
            decreases n - i,
        {
            let c = self.px[i];
            copy.push(c);
            i += 1;
            assert(copy@ =~= self.px@.subrange(0, i as int));
        }
        assert(copy@ =~= self.px@);
        proof {
            lemma_row_next(self.h as int, self.w as int);
        }
        self.push_undo(Patch { r, px: copy });
        self.redo.clear();
        assert(self.redo_spec() =~= Seq::empty());
    }

    /// Replaces the pixels by `m` applied to them, after recording them as
    /// one undo step; the size stays.
    fn remap_keeping_history(&mut self, m: Remap)
        requires
            old(self).wf(),
            m is FlipH || m is FlipV,
        ensures
            final(self).wf(),
            final(self).width() == old(self).width(),
            final(self).height() == old(self).height(),
            final(self).image() == remap_spec(m, old(self).image(), old(self).width(), old(self).height(), 1, 1),
            final(self).undo_spec() == evict(old(self).undo_spec().push((old(self).full(), old(self).image()))),
            final(self).redo_spec().len() == 0,
            final(self).upload_spec() == Some(old(self).full()),
            final(self).file_dirty(),
            final(self).base() == old(self).base(),
            final(self).stroke_spec() == old(self).stroke_spec(),
            final(self).dirty_spec() == old(self).dirty_spec(),
    {
        self.snapshot_all();
        let out = remap(self.px.as_slice(), self.w, self.h, 1, 1, m);
        self.px = out;
        self.mark_all();
        self.dirty_file = true;
    }

    /// Mirrors the picture left to right, as one undo step.
    pub fn flip_horizontal(&mut self)
        requires
            old(self).wf(),
        ensures
            final(self).wf(),
            final(self).width() == old(self).width(),
            final(self).height() == old(self).height(),
            final(self).image() == remap_spec(Remap::FlipH, old(self).image(), old(self).width(), old(self).height(), 1, 1),
            final(self).undo_spec() == evict(old(self).undo_spec().push((old(self).full(), old(self).image()))),
            final(self).redo_spec().len() == 0,
            final(self).upload_spec() == Some(old(self).full()),
            final(self).file_dirty(),
            final(self).base() == old(self).base(),
            final(self).stroke_spec() == old(self).stroke_spec(),
            final(self).dirty_spec() == old(self).dirty_spec(),
    {
        self.remap_keeping_history(Remap::FlipH);
    }

    /// Mirrors the picture top to bottom, as one undo step.
    pub fn flip_vertical(&mut self)
        requires
            old(self).wf(),
        ensures
            final(self).wf(),
            final(self).width() == old(self).width(),
            final(self).height() == old(self).height(),
            final(self).image() == remap_spec(Remap::FlipV, old(self).image(), old(self).width(), old(self).height(), 1, 1),
            final(self).undo_spec() == evict(old(self).undo_spec().push((old(self).full(), old(self).image()))),
            final(self).redo_spec().len() == 0,
            final(self).upload_spec() == Some(old(self).full()),
            final(self).file_dirty(),
            final(self).base() == old(self).base(),
            final(self).stroke_spec() == old(self).stroke_spec(),
            final(self).dirty_spec() == old(self).dirty_spec(),
    {
        self.remap_keeping_history(Remap::FlipV);
    }

    /// Installs a new picture of `w` x `h` after the history was cleared.
    fn install(&mut self, w: usize, h: usize, px: Vec<Color>)
        requires
            w > 0,
            h > 0,
            4 * (w * h) <= isize::MAX,
            px@.len() == w * h,
            old(self).undo@.len() == 0,
            old(self).redo@.len() == 0,
            old(self).undo_bytes == 0,
            old(self).dirty is None,
        ensures
            final(self).wf(),
            final(self).w == w,
            final(self).h == h,
            final(self).px@ == px@,
            final(self).upload == Some(Rect { x: 0, y: 0, w, h }),
            final(self).undo@ == old(self).undo@,
            final(self).redo@ == old(self).redo@,
            final(self).scratch@ == old(self).scratch@,
            final(self).stroke == old(self).stroke,
            final(self).dirty == old(self).dirty,
            final(self).dirty_file == old(self).dirty_file,
    {
        self.px = px;
        self.w = w;
        self.h = h;
        self.upload = Some(Rect { x: 0, y: 0, w, h });
        assert(self.undo_spec() =~= Seq::empty());
        assert(self.redo_spec() =~= Seq::empty());
        assert(bytes_sum(self.undo_spec()) == 0);
    }

    /// Turns the picture clockwise by `quarters` quarter turns. The size may
    /// swap, so the history is cleared.
    pub fn rotate(&mut self, quarters: u32)
        requires
            old(self).wf(),
        ensures
            quarters % 4 == 0 ==> same_canvas(*final(self), *old(self)),
            quarters % 4 != 0 ==> {
                let q = quarters % 4;
                let (nw, nh) = remap_dims(Remap::Rotate(q), old(self).width(), old(self).height(), 1, 1);
                &&& final(self).wf()
                &&& final(self).width() == nw
                &&& final(self).height() == nh
                &&& final(self).image() == remap_spec(Remap::Rotate(q), old(self).image(), old(self).width(), old(self).height(), 1, 1)
                &&& final(self).undo_spec().len() == 0
                &&& final(self).redo_spec().len() == 0
                &&& !final(self).stroke_spec()
                &&& final(self).dirty_spec() is None
                &&& final(self).upload_spec() == Some(final(self).full())
                &&& final(self).file_dirty()
            },
    {
        let q = quarters % 4;
        if q == 0 {
            return;
        }
        self.reset_history();
        let (nw, nh) = if q == 2 { (self.w, self.h) } else { (self.h, self.w) };
        proof {
            assert(nw * nh == self.w * self.h) by (nonlinear_arith)
                requires
                    (nw == self.w && nh == self.h) || (nw == self.h && nh == self.w),
            ;
        }
        let out = remap(self.px.as_slice(), self.w, self.h, 1, 1, Remap::Rotate(q));
        self.install(nw, nh, out);
        self.dirty_file = true;
    }

    /// Changes the canvas size without scaling: the overlap keeps its
    /// pixels, new area gets `bg`. The history is cleared. A zero side or the
    /// same size does nothing.
    pub fn resize_canvas(&mut self, w: usize, h: usize, bg: Color)
        requires
            old(self).wf(),
            w > 0 && h > 0 ==> 4 * (w * h) <= isize::MAX,
        ensures
            (w == 0 || h == 0 || (w == old(self).width() && h == old(self).height())) ==> same_canvas(*final(self), *old(self)),
            !(w == 0 || h == 0 || (w == old(self).width() && h == old(self).height())) ==> {
                &&& final(self).wf()
                &&& final(self).width() == w
                &&& final(self).height() == h
                &&& final(self).image() == remap_spec(Remap::Resize(bg), old(self).image(), old(self).width(), old(self).height(), w as int, h as int)
                &&& final(self).undo_spec().len() == 0
                &&& final(self).redo_spec().len() == 0
                &&& !final(self).stroke_spec()
                &&& final(self).dirty_spec() is None
                &&& final(self).upload_spec() == Some(final(self).full())
                &&& final(self).file_dirty()
            },
    {
        if w == 0 || h == 0 || (w == self.w && h == self.h) {
            return;
        }
        self.reset_history();
        let out = remap(self.px.as_slice(), self.w, self.h, w, h, Remap::Resize(bg));
        self.install(w, h, out);
        self.dirty_file = true;
    }

    /// Scales the picture to `w` x `h` by nearest neighbour, like Paint's
    /// "Resize". The history is cleared. A zero side or the same size does
    /// nothing.
    pub fn scale(&mut self, w: usize, h: usize)
        requires
            old(self).wf(),
            w > 0 && h > 0 ==> 4 * (w * h) <= isize::MAX,
            w * old(self).width() <= usize::MAX,
            h * old(self).height() <= usize::MAX,
        ensures
            (w == 0 || h == 0 || (w == old(self).width() && h == old(self).height())) ==> same_canvas(*final(self), *old(self)),
            !(w == 0 || h == 0 || (w == old(self).width() && h == old(self).height())) ==> {
                &&& final(self).wf()
                &&& final(self).width() == w
                &&& final(self).height() == h
                &&& final(self).image() == remap_spec(Remap::Scale, old(self).image(), old(self).width(), old(self).height(), w as int, h as int)
                &&& final(self).undo_spec().len() == 0
                &&& final(self).redo_spec().len() == 0
                &&& !final(self).stroke_spec()
                &&& final(self).dirty_spec() is None
                &&& final(self).upload_spec() == Some(final(self).full())
                &&& final(self).file_dirty()
            },
    {
        if w == 0 || h == 0 || (w == self.w && h == self.h) {
            return;
        }
        self.reset_history();
        let out = remap(self.px.as_slice(), self.w, self.h, w, h, Remap::Scale);
        self.install(w, h, out);
        self.dirty_file = true;
    }

    /// Replaces the whole content, as opening a file does: new size, new
    /// pixels, no history and a clean file flag.
    pub fn load(&mut self, w: usize, h: usize, px: Vec<Color>)
        requires
            old(self).wf(),
            w > 0,
            h > 0,
            4 * (w * h) <= isize::MAX,
            px@.len() == w * h,
        ensures
            final(self).wf(),
            final(self).width() == w,
            final(self).height() == h,
            final(self).image() == px@,
            final(self).undo_spec().len() == 0,
            final(self).redo_spec().len() == 0,
            !final(self).stroke_spec(),
            final(self).dirty_spec() is None,
            final(self).upload_spec() == Some(final(self).full()),
            !final(self).file_dirty(),
    {
        self.reset_history();
        self.install(w, h, px);
        self.dirty_file = false;
    }

    /// Closes the open stroke: what it dirtied becomes one undo step and the
    /// redo list is cleared. A stroke that changed nothing records nothing.
    pub fn end_stroke(&mut self)
        requires
            old(self).wf(),
        ensures
            ends_stroke(*old(self), *final(self)),
    {
        self.stroke = false;
        let d = self.dirty.take();
        let r = match d {
            None => {
                return;
            },
            Some(r) => r,
        };
        if self.scratch.len() != self.px.len() {
            return;
        }
        proof {
            lemma_row_le((r.y + r.h) as int, self.h as int, self.w as int);
            crate::grid::lemma_row_next(self.h as int, self.w as int);
        }
        let px = extract(self.scratch.as_slice(), self.w, r);
        let patch = Patch { r, px };
        proof {
            assert(patch_fits(patch@, self.w as int, self.h as int)) by {
                crate::grid::lemma_row_next(r.h as int, r.w as int);
            }
        }
        self.push_undo(patch);
        self.redo.clear();
        assert(self.redo_spec() =~= Seq::empty());
    }

    pub fn set(&mut self, x: i32, y: i32, c: Color)
        requires
            old(self).wf(),
        ensures
            final(self).wf(),
            0 <= x < old(self).width() && 0 <= y < old(self).height() ==> final(self).image() == old(self).image().update(y * old(self).width() + x, c),
            0 <= x < old(self).width() && 0 <= y < old(self).height() ==> final(self).dirty_spec() == mark_spec(old(self).dirty_spec(), Rect { x: x as usize, y: y as usize, w: 1, h: 1 }, old(self).width(), old(self).height()),
            0 <= x < old(self).width() && 0 <= y < old(self).height() ==> final(self).upload_spec() == mark_spec(old(self).upload_spec(), Rect { x: x as usize, y: y as usize, w: 1, h: 1 }, old(self).width(), old(self).height()),
            0 <= x < old(self).width() && 0 <= y < old(self).height() ==> final(self).file_dirty(),
            0 <= x < old(self).width() && 0 <= y < old(self).height() ==> final(self).keeps_history(old(self)),
            old(self).stroke_consistent() ==> final(self).stroke_consistent(),
            !(0 <= x < old(self).width() && 0 <= y < old(self).height()) ==> *final(self) == *old(self),
    {
        if x < 0 || y < 0 {
            return;
        }
        let (xu, yu) = (x as usize, y as usize);
        if xu >= self.w || yu >= self.h {
            return;
        }
        proof {
            lemma_index(x as int, y as int, self.w as int, self.h as int);
        }
        let ghost old_px = self.px@;
        self.px.set(yu * self.w + xu, c);
        let r = Rect { x: xu, y: yu, w: 1, h: 1 };
        self.mark(r);
        proof {
            assert(clip_spec(r, self.w as int, self.h as int) == r);
            assert(r.w * r.h == 1);
            lemma_mark_fits(old(self).dirty, r, self.w as int, self.h as int);
            lemma_mark_fits(old(self).upload, r, self.w as int, self.h as int);
            if old(self).stroke_consistent() {
                assert forall|xx: int, yy: int| 0 <= xx < self.w && 0 <= yy < self.h && !covers(self.dirty, xx, yy)
                    implies #[trigger] at(self.px@, self.w as int, xx, yy) == at(self.scratch@, self.w as int, xx, yy) by {
                    if covers(old(self).dirty, xx, yy) || in_rect(r, xx, yy) {
                        lemma_mark_covers(old(self).dirty, r, self.w as int, self.h as int, xx, yy);
                    }
                    lemma_index(xx, yy, self.w as int, self.h as int);
                    assert(at(old_px, self.w as int, xx, yy) == at(self.scratch@, self.w as int, xx, yy));
                }
            }
        }
    }
}

/// A sound canvas is not empty and its pixels fit the history budget's
/// arithmetic.
pub proof fn lemma_wf_size(c: Canvas)
    requires
        c.wf(),
    ensures
        c.width() > 0,
        c.height() > 0,
        4 * (c.width() * c.height()) <= isize::MAX,
        c.image().len() == c.width() * c.height(),
        c.full() == (Rect { x: 0, y: 0, w: c.width() as usize, h: c.height() as usize }),
{
}

/// What a sound canvas keeps of its history: every saved step lies on the
/// canvas and holds as many pixels as its rectangle has, the undo list stays
/// within the byte budget or holds a single step, and the pending rectangles
/// lie on the canvas.
pub proof fn lemma_history_budget(c: Canvas)
    requires
        c.wf(),
    ensures
        forall|i: int| 0 <= i < c.undo_spec().len() ==> patch_fits(#[trigger] c.undo_spec()[i], c.width(), c.height()),
        forall|i: int| 0 <= i < c.redo_spec().len() ==> patch_fits(#[trigger] c.redo_spec()[i], c.width(), c.height()),
        bytes_sum(c.undo_spec()) <= MAX_UNDO_BYTES || c.undo_spec().len() == 1,
        c.dirty_spec() matches Some(r) ==> fits(r, c.width(), c.height()),
        c.upload_spec() matches Some(r) ==> fits(r, c.width(), c.height()),
{
    assert forall|i: int| 0 <= i < c.undo_spec().len() implies patch_fits(#[trigger] c.undo_spec()[i], c.width(), c.height()) by {
        assert(c.undo_spec()[i] == c.undo@[i]@);
    }
    assert forall|i: int| 0 <= i < c.redo_spec().len() implies patch_fits(#[trigger] c.redo_spec()[i], c.width(), c.height()) by {
        assert(c.redo_spec()[i] == c.redo@[i]@);
    }
}

/// A consistent open stroke began from a picture of the same size, and
/// outside its pending rectangle nothing has changed since.
pub proof fn lemma_stroke_consistent(c: Canvas)
    requires
        c.stroke_consistent(),
    ensures
        c.stroke_spec(),
        c.base().len() == c.image().len(),
        forall|x: int, y: int| 0 <= x < c.width() && 0 <= y < c.height() && !covers(c.dirty_spec(), x, y)
            ==> #[trigger] at(c.image(), c.width(), x, y) == at(c.base(), c.width(), x, y),
{
}

/// Closing a consistent open stroke that changed something (by
/// `end_stroke`, or by the next `begin_stroke`) records exactly one step,
/// the rectangle it dirtied with the pixels it had when the stroke began,
/// and clears the redo list. Only the oldest steps may leave, to keep the
/// budget; with room in the budget the undo list grows by one.
pub proof fn law_close_records_one_step(c: Canvas)
    requires
        c.wf(),
        c.stroke_consistent(),
        c.dirty_spec() is Some,
    ensures
        ({
            let r = c.dirty_spec()->0;
            let p = (r, extract_spec(c.base(), c.width(), r));
            &&& undo_after_close(c) == evict(c.undo_spec().push(p))
            &&& undo_after_close(c).len() >= 1
            &&& undo_after_close(c).last() == p
            &&& redo_after_close(c).len() == 0
            &&& bytes_sum(c.undo_spec()) + 4 * (r.w * r.h) <= MAX_UNDO_BYTES
                ==> undo_after_close(c).len() == c.undo_spec().len() + 1
        }),
{
    let r = c.dirty_spec()->0;
    let p = (r, extract_spec(c.base(), c.width(), r));
    let s = c.undo_spec().push(p);
    lemma_evict_last(s);
    lemma_bytes_push(c.undo_spec(), p);
    assert(p.1.len() == r.w * r.h);
    if bytes_sum(c.undo_spec()) + 4 * (r.w * r.h) <= MAX_UNDO_BYTES {
        assert(evict(s) == s);
    }
}

/// What `keeps_history` says through the public views.
pub proof fn lemma_keeps_history(new: Canvas, old: Canvas)
    requires
        new.keeps_history(&old),
    ensures
        new.width() == old.width(),
        new.height() == old.height(),
        new.base() == old.base(),
        new.stroke_spec() == old.stroke_spec(),
        new.undo_spec() == old.undo_spec(),
        new.redo_spec() == old.redo_spec(),
{
}

/// Undoing a closed stroke gives back exactly the picture from when the
/// stroke began.
pub proof fn law_undo_after_stroke(c0: Canvas, c1: Canvas, c2: Canvas)
    requires
        c0.wf(),
        c0.stroke_consistent(),
        c0.dirty_spec() is Some,
        ends_stroke(c0, c1),
        steps(c1, c2, true),
    ensures
        c2.image() == c0.base(),
{
    let r = c0.dirty_spec()->0;
    let w = c0.width();
    let h = c0.height();
    let p = (r, extract_spec(c0.base(), w, r));
    lemma_evict_last(c0.undo_spec().push(p));
    assert(c1.undo_spec().last() == p);
    assert forall|x: int, y: int| 0 <= x < w && 0 <= y < h implies #[trigger] at(c2.image(), w, x, y) == at(c0.base(), w, x, y) by {
        lemma_blit_at(c0.image(), w, h, r, p.1, x, y);
        if in_rect(r, x, y) {
            lemma_extract_at(c0.base(), w, r, x - r.x, y - r.y);
        } else {
            assert(!covers(c0.dirty, x, y));
            assert(at(c0.px@, w, x, y) == at(c0.scratch@, w, x, y));
        }
    }
    lemma_eq_by_pixels(c2.image(), c0.base(), w, h);
}

/// Undoing a step that recorded something gives back the picture the step
/// began from: the pixels before the first change of its stroke.
pub proof fn law_undo_after_step(c0: Canvas, c1: Canvas, c2: Canvas, image: Seq<Color>, m: Option<Rect>, reuse: bool)
    requires
        c0.wf(),
        stroke_step(c0, c1, image, m, reuse),
        reuse && c0.stroke_spec() ==> c0.stroke_consistent(),
        marked(if reuse && c0.stroke_spec() { c0.dirty_spec() } else { None }, m, c0.width(), c0.height()) is Some,
        steps(c1, c2, true),
    ensures
        c2.image() == if reuse && c0.stroke_spec() { c0.base() } else { c0.image() },
{
    let w = c0.width();
    let h = c0.height();
    let cont = reuse && c0.stroke_spec();
    let base = if cont { c0.base() } else { c0.image() };
    let d0 = if cont { c0.dirty_spec() } else { None };
    let d = marked(d0, m, w, h);
    let r = d->0;
    assert(d0 matches Some(e) ==> fits(e, w, h));
    match m {
        Some(mr) => lemma_mark_fits(d0, mr, w, h),
        None => {},
    }
    assert(base.len() == image.len());
    let p = (r, extract_spec(base, w, r));
    let u0 = if cont || !c0.stroke_spec() { c0.undo_spec() } else { undo_after_close(c0) };
    lemma_evict_last(u0.push(p));
    assert(c1.undo_spec().last() == p);
    assert forall|x: int, y: int| 0 <= x < w && 0 <= y < h implies #[trigger] at(c2.image(), w, x, y) == at(base, w, x, y) by {
        lemma_blit_at(image, w, h, r, p.1, x, y);
        if in_rect(r, x, y) {
            lemma_extract_at(base, w, r, x - r.x, y - r.y);
        } else {
            assert(!covers(d, x, y));
            assert(at(image, w, x, y) == at(base, w, x, y));
        }
    }
    lemma_eq_by_pixels(c2.image(), base, w, h);
}

/// Redoing an undone step gives back the picture from before the undo.
pub proof fn law_redo_after_undo(c0: Canvas, c1: Canvas, c2: Canvas)
    requires
        c0.wf(),
        c0.undo_spec().len() > 0,
        steps(c0, c1, true),
        steps(c1, c2, false),
    ensures
        c2.image() == c0.image(),
{
    let p = c0.undo_spec().last();
    assert(c0.undo_spec()[c0.undo_spec().len() - 1] == p);
    lemma_blit_back(c0.image(), c0.width(), c0.height(), p.0, p.1);
}

/// Undoing a redone step gives back the picture from before the redo.
pub proof fn law_undo_after_redo(c0: Canvas, c1: Canvas, c2: Canvas)
    requires
        c0.wf(),
        c0.redo_spec().len() > 0,
        steps(c0, c1, false),
        steps(c1, c2, true),
    ensures
        c2.image() == c0.image(),
{
    let p = c0.redo_spec().last();
    assert(c0.redo_spec()[c0.redo_spec().len() - 1] == p);
    let inverse = (p.0, extract_spec(c0.image(), c0.width(), p.0));
    lemma_evict_last(c0.undo_spec().push(inverse));
    lemma_blit_back(c0.image(), c0.width(), c0.height(), p.0, p.1);
}

/// Mirroring left to right twice gives back the picture.
pub proof fn law_flip_horizontal_twice(img: Seq<Color>, w: int, h: int)
    requires
        w > 0,
        h > 0,
        img.len() == w * h,
    ensures
        remap_spec(Remap::FlipH, remap_spec(Remap::FlipH, img, w, h, 1, 1), w, h, 1, 1) == img,
{
    let once = remap_spec(Remap::FlipH, img, w, h, 1, 1);
    let twice = remap_spec(Remap::FlipH, once, w, h, 1, 1);
    assert forall|x: int, y: int| 0 <= x < w && 0 <= y < h implies #[trigger] at(twice, w, x, y) == at(img, w, x, y) by {
        lemma_remap_at(Remap::FlipH, once, w, h, 1, 1, x, y);
        lemma_remap_at(Remap::FlipH, img, w, h, 1, 1, w - 1 - x, y);
    }
    lemma_remap_at(Remap::FlipH, once, w, h, 1, 1, 0, 0);
    lemma_eq_by_pixels(twice, img, w, h);
}

/// Mirroring top to bottom twice gives back the picture.
pub proof fn law_flip_vertical_twice(img: Seq<Color>, w: int, h: int)
    requires
        w > 0,
        h > 0,
        img.len() == w * h,
    ensures
        remap_spec(Remap::FlipV, remap_spec(Remap::FlipV, img, w, h, 1, 1), w, h, 1, 1) == img,
{
    let once = remap_spec(Remap::FlipV, img, w, h, 1, 1);
    let twice = remap_spec(Remap::FlipV, once, w, h, 1, 1);
    assert forall|x: int, y: int| 0 <= x < w && 0 <= y < h implies #[trigger] at(twice, w, x, y) == at(img, w, x, y) by {
        lemma_remap_at(Remap::FlipV, once, w, h, 1, 1, x, y);
        lemma_remap_at(Remap::FlipV, img, w, h, 1, 1, x, h - 1 - y);
    }
    lemma_remap_at(Remap::FlipV, once, w, h, 1, 1, 0, 0);
    lemma_eq_by_pixels(twice, img, w, h);
}

/// Where turning moves each pixel. A quarter turn to the right makes a
/// w x h picture h x w with source pixel (x, y) at (h-1-y, x); a half turn
/// keeps the size and puts it at (w-1-x, h-1-y); three quarters to the right
/// (a quarter turn to the left) put it at (y, w-1-x).
pub proof fn law_rotate_moves_each_pixel(img: Seq<Color>, w: int, h: int, x: int, y: int)
    requires
        w > 0,
        h > 0,
        img.len() == w * h,
        0 <= x < w,
        0 <= y < h,
    ensures
        remap_dims(Remap::Rotate(1), w, h, 1, 1) == (h, w),
        remap_dims(Remap::Rotate(2), w, h, 1, 1) == (w, h),
        remap_dims(Remap::Rotate(3), w, h, 1, 1) == (h, w),
        at(remap_spec(Remap::Rotate(1), img, w, h, 1, 1), h, h - 1 - y, x) == at(img, w, x, y),
        at(remap_spec(Remap::Rotate(2), img, w, h, 1, 1), w, w - 1 - x, h - 1 - y) == at(img, w, x, y),
        at(remap_spec(Remap::Rotate(3), img, w, h, 1, 1), h, y, w - 1 - x) == at(img, w, x, y),
{
    lemma_remap_at(Remap::Rotate(1), img, w, h, 1, 1, h - 1 - y, x);
    lemma_remap_at(Remap::Rotate(2), img, w, h, 1, 1, w - 1 - x, h - 1 - y);
    lemma_remap_at(Remap::Rotate(3), img, w, h, 1, 1, y, w - 1 - x);
}

/// A quarter turn to the left undoes a quarter turn to the right, and the
/// other way round.
pub proof fn law_rotate_left_undoes_right(img: Seq<Color>, w: int, h: int)
    requires
        w > 0,
        h > 0,
        img.len() == w * h,
    ensures
        remap_spec(Remap::Rotate(3), remap_spec(Remap::Rotate(1), img, w, h, 1, 1), h, w, 1, 1) == img,
        remap_spec(Remap::Rotate(1), remap_spec(Remap::Rotate(3), img, w, h, 1, 1), h, w, 1, 1) == img,
{
    let r1 = remap_spec(Remap::Rotate(1), img, w, h, 1, 1);
    let r3 = remap_spec(Remap::Rotate(3), img, w, h, 1, 1);
    let a = remap_spec(Remap::Rotate(3), r1, h, w, 1, 1);
    let b = remap_spec(Remap::Rotate(1), r3, h, w, 1, 1);
    assert forall|x: int, y: int| 0 <= x < w && 0 <= y < h implies #[trigger] at(a, w, x, y) == at(img, w, x, y)
        && at(b, w, x, y) == at(img, w, x, y) by {
        lemma_remap_at(Remap::Rotate(3), r1, h, w, 1, 1, x, y);
        lemma_remap_at(Remap::Rotate(1), img, w, h, 1, 1, h - 1 - y, x);
        lemma_remap_at(Remap::Rotate(1), r3, h, w, 1, 1, x, y);
        lemma_remap_at(Remap::Rotate(3), img, w, h, 1, 1, y, w - 1 - x);
    }
    lemma_remap_at(Remap::Rotate(3), r1, h, w, 1, 1, 0, 0);
    lemma_remap_at(Remap::Rotate(1), r3, h, w, 1, 1, 0, 0);
    lemma_eq_by_pixels(a, img, w, h);
    lemma_eq_by_pixels(b, img, w, h);
}

/// Where mirroring moves each pixel: left to right, (x, y) goes to
/// (w-1-x, y), staying in its row; top to bottom, (x, y) goes to
/// (x, h-1-y), staying in its column. The size does not change.
pub proof fn law_flip_moves_each_pixel(img: Seq<Color>, w: int, h: int, x: int, y: int)
    requires
        w > 0,
        h > 0,
        img.len() == w * h,
        0 <= x < w,
        0 <= y < h,
    ensures
        remap_dims(Remap::FlipH, w, h, 1, 1) == (w, h),
        remap_dims(Remap::FlipV, w, h, 1, 1) == (w, h),
        at(remap_spec(Remap::FlipH, img, w, h, 1, 1), w, w - 1 - x, y) == at(img, w, x, y),
        at(remap_spec(Remap::FlipV, img, w, h, 1, 1), w, x, h - 1 - y) == at(img, w, x, y),
{
    lemma_remap_at(Remap::FlipH, img, w, h, 1, 1, w - 1 - x, y);
    lemma_remap_at(Remap::FlipV, img, w, h, 1, 1, x, h - 1 - y);
}

/// Scaling by whole factors repeats pixels: scaled to k times the width and
/// m times the height, source pixel (x, y) fills the k x m block whose top
/// left corner is (k x, m y). So doubling the height doubles every row.
pub proof fn law_scale_repeats_each_pixel(img: Seq<Color>, w: int, h: int, k: int, m: int, x: int, y: int, i: int, j: int)
    requires
        w > 0,
        h > 0,
        img.len() == w * h,
        k >= 1,
        m >= 1,
        0 <= x < w,
        0 <= y < h,
        0 <= i < k,
        0 <= j < m,
    ensures
        remap_dims(Remap::Scale, w, h, k * w, m * h) == (k * w, m * h),
        0 <= k * x + i < k * w,
        0 <= m * y + j < m * h,
        at(remap_spec(Remap::Scale, img, w, h, k * w, m * h), k * w, k * x + i, m * y + j) == at(img, w, x, y),
{
    lemma_scale_block(x, i, k, w);
    lemma_scale_block(y, j, m, h);
    lemma_remap_at(Remap::Scale, img, w, h, k * w, m * h, k * x + i, m * y + j);
}

/// Destination index `k x + i` (with `i < k`) of a k-fold scale of length
/// `w` reads source index `x`.
proof fn lemma_scale_block(x: int, i: int, k: int, w: int)
    requires
        w > 0,
        k >= 1,
        0 <= x < w,
        0 <= i < k,
    ensures
        0 <= k * x + i < k * w,
        (k * x + i) * w / (k * w) == x,
{
    assert(0 <= k * x + i < k * w) by (nonlinear_arith)
        requires
            0 <= x < w,
            0 <= i < k,
            k >= 1,
    ;
    assert((k * x + i) * w == x * (k * w) + i * w) by (nonlinear_arith);
    assert(0 <= i * w < k * w) by (nonlinear_arith)
        requires
            0 <= i < k,
            w > 0,
    ;
    vstd::arithmetic::div_mod::lemma_fundamental_div_mod_converse((k * x + i) * w, k * w, x, i * w);
}

/// Resizing the canvas keeps each pixel where it was on the part the old
/// and new sizes share, and fills the rest with the background color.
pub proof fn law_resize_keeps_the_overlap(img: Seq<Color>, w: int, h: int, nw: int, nh: int, bg: Color, x: int, y: int)
    requires
        w > 0,
        h > 0,
        img.len() == w * h,
        0 <= x < nw,
        0 <= y < nh,
    ensures
        remap_dims(Remap::Resize(bg), w, h, nw, nh) == (nw, nh),
        x < w && y < h ==> at(remap_spec(Remap::Resize(bg), img, w, h, nw, nh), nw, x, y) == at(img, w, x, y),
        !(x < w && y < h) ==> at(remap_spec(Remap::Resize(bg), img, w, h, nw, nh), nw, x, y) == bg,
{
    lemma_remap_at(Remap::Resize(bg), img, w, h, nw, nh, x, y);
}

/// Four clockwise quarter turns give back the picture and its size.
pub proof fn law_rotate_four_quarters(img: Seq<Color>, w: int, h: int)
    requires
        w > 0,
        h > 0,
        img.len() == w * h,
    ensures
        remap_dims(Remap::Rotate(1), h, w, 1, 1) == (w, h),
        remap_spec(Remap::Rotate(1), remap_spec(Remap::Rotate(1), remap_spec(Remap::Rotate(1),
            remap_spec(Remap::Rotate(1), img, w, h, 1, 1), h, w, 1, 1), w, h, 1, 1), h, w, 1, 1) == img,
{
    let q = Remap::Rotate(1);
    let r1 = remap_spec(q, img, w, h, 1, 1);
    let r2 = remap_spec(q, r1, h, w, 1, 1);
    let r3 = remap_spec(q, r2, w, h, 1, 1);
    let r4 = remap_spec(q, r3, h, w, 1, 1);
    assert forall|x: int, y: int| 0 <= x < w && 0 <= y < h implies #[trigger] at(r4, w, x, y) == at(img, w, x, y) by {
        lemma_remap_at(q, r3, h, w, 1, 1, x, y);
        lemma_remap_at(q, r2, w, h, 1, 1, y, w - 1 - x);
        lemma_remap_at(q, r1, h, w, 1, 1, w - 1 - x, h - 1 - y);
        lemma_remap_at(q, img, w, h, 1, 1, h - 1 - y, x);
    }
    lemma_remap_at(q, r3, h, w, 1, 1, 0, 0);
    lemma_eq_by_pixels(r4, img, w, h);
}

} // verus!
