//! Flood fill: the 4-connected region of one color, repainted.
use vstd::prelude::*;
use crate::canvas::Rect;
use crate::color::Color;
use crate::grid::{at, fits, in_rect, lemma_eq_by_pixels, lemma_index, lemma_row_next, lemma_split};

verus! {

pub open spec fn in_grid(w: int, h: int, p: (int, int)) -> bool {
    0 <= p.0 < w && 0 <= p.1 < h
}

/// Whether `a` and `b` are 4-neighbours.
pub open spec fn adjacent(a: (int, int), b: (int, int)) -> bool {
    (a.0 == b.0 && (a.1 == b.1 + 1 || a.1 + 1 == b.1)) || (a.1 == b.1 && (a.0 == b.0 + 1 || a.0 + 1 == b.0))
}

/// The neighbour of `p` in direction `d`: left, right, up, down.
pub open spec fn nb(p: (int, int), d: int) -> (int, int) {
    if d == 0 {
        (p.0 - 1, p.1)
    } else if d == 1 {
        (p.0 + 1, p.1)
    } else if d == 2 {
        (p.0, p.1 - 1)
    } else {
        (p.0, p.1 + 1)
    }
}

/// A chain of 4-neighbours that all lie on the grid and all have color `t`.
pub open spec fn is_path(img: Seq<Color>, w: int, h: int, t: Color, path: Seq<(int, int)>) -> bool {
    &&& path.len() > 0
    &&& forall|i: int| 0 <= i < path.len() ==> in_grid(w, h, #[trigger] path[i]) && at(img, w, path[i].0, path[i].1) == t
    &&& forall|i: int| 0 <= i < path.len() - 1 ==> adjacent(#[trigger] path[i], path[i + 1])
}

/// `p` is reached from `s` through pixels of the color of `s`.
pub open spec fn connected(img: Seq<Color>, w: int, h: int, s: (int, int), p: (int, int)) -> bool {
    exists|path: Seq<(int, int)>| #[trigger] is_path(img, w, h, at(img, w, s.0, s.1), path) && path[0] == s && path.last() == p
}

/// The picture with the region of `s` repainted `c`.
pub open spec fn flood_spec(img: Seq<Color>, w: int, h: int, s: (int, int), c: Color) -> Seq<Color> {
    Seq::new(img.len(), |i: int| if connected(img, w, h, s, (i % w, i / w)) { c } else { img[i] })
}

/// `r` is the bounding box of the region of `s`.
pub open spec fn bounds(img: Seq<Color>, w: int, h: int, s: (int, int), r: Rect) -> bool {
    &&& forall|x: int, y: int| in_grid(w, h, (x, y)) && #[trigger] connected(img, w, h, s, (x, y)) ==> in_rect(r, x, y)
    &&& exists|x: int, y: int| #[trigger] connected(img, w, h, s, (x, y)) && in_grid(w, h, (x, y)) && x == r.x
    &&& exists|x: int, y: int| #[trigger] connected(img, w, h, s, (x, y)) && in_grid(w, h, (x, y)) && x == r.x + r.w - 1
    &&& exists|x: int, y: int| #[trigger] connected(img, w, h, s, (x, y)) && in_grid(w, h, (x, y)) && y == r.y
    &&& exists|x: int, y: int| #[trigger] connected(img, w, h, s, (x, y)) && in_grid(w, h, (x, y)) && y == r.y + r.h - 1
}

pub proof fn lemma_connected_self(img: Seq<Color>, w: int, h: int, s: (int, int))
    requires
        in_grid(w, h, s),
    ensures
        connected(img, w, h, s, s),
{
    let path = seq![s];
    assert(is_path(img, w, h, at(img, w, s.0, s.1), path));
}

pub proof fn lemma_connected_step(img: Seq<Color>, w: int, h: int, s: (int, int), p: (int, int), q: (int, int))
    requires
        connected(img, w, h, s, p),
        adjacent(p, q),
        in_grid(w, h, q),
        at(img, w, q.0, q.1) == at(img, w, s.0, s.1),
    ensures
        connected(img, w, h, s, q),
{
    let t = at(img, w, s.0, s.1);
    let path = choose|path: Seq<(int, int)>| #[trigger] is_path(img, w, h, t, path) && path[0] == s && path.last() == p;
    let path2 = path.push(q);
    assert forall|i: int| 0 <= i < path2.len() - 1 implies adjacent(#[trigger] path2[i], path2[i + 1]) by {
        if i < path.len() - 1 {
            assert(path2[i] == path[i]);
            assert(path2[i + 1] == path[i + 1]);
        }
    }
    assert forall|i: int| 0 <= i < path2.len() implies in_grid(w, h, #[trigger] path2[i]) && at(img, w, path2[i].0, path2[i].1) == t by {
        if i < path.len() {
            assert(path2[i] == path[i]);
        }
    }
    assert(is_path(img, w, h, t, path2));
    assert(path2[0] == s);
    assert(path2.last() == q);
}

/// `q` had the region color `t` and has been repainted.
pub open spec fn painted(img: Seq<Color>, px: Seq<Color>, w: int, t: Color, q: (int, int)) -> bool {
    at(img, w, q.0, q.1) == t && at(px, w, q.0, q.1) != t
}

/// Every pixel of the region is painted when the seed is painted and no
/// painted pixel has an unpainted neighbour of the region color.
pub proof fn lemma_region_painted(
    img: Seq<Color>,
    px: Seq<Color>,
    w: int,
    h: int,
    s: (int, int),
    path: Seq<(int, int)>,
)
    requires
        is_path(img, w, h, at(img, w, s.0, s.1), path),
        path[0] == s,
        at(px, w, s.0, s.1) != at(img, w, s.0, s.1),
        forall|q: (int, int), d: int|
            in_grid(w, h, q) && 0 <= d < 4 && #[trigger] painted(img, px, w, at(img, w, s.0, s.1), q)
                && in_grid(w, h, #[trigger] nb(q, d))
                ==> at(px, w, nb(q, d).0, nb(q, d).1) != at(img, w, s.0, s.1),
    ensures
        at(px, w, path.last().0, path.last().1) != at(img, w, s.0, s.1),
    decreases path.len(),
{
    let t = at(img, w, s.0, s.1);
    if path.len() > 1 {
        let pre = path.drop_last();
        assert forall|i: int| 0 <= i < pre.len() - 1 implies adjacent(#[trigger] pre[i], pre[i + 1]) by {
            assert(pre[i] == path[i]);
            assert(pre[i + 1] == path[i + 1]);
        }
        assert forall|i: int| 0 <= i < pre.len() implies in_grid(w, h, #[trigger] pre[i]) && at(img, w, pre[i].0, pre[i].1) == t by {
            assert(pre[i] == path[i]);
        }
        lemma_region_painted(img, px, w, h, s, pre);
        let p = pre.last();
        let q = path.last();
        assert(p == path[path.len() - 2]);
        assert(adjacent(path[path.len() - 2], path[path.len() - 1]));
        assert(in_grid(w, h, path[path.len() - 2]));
        assert(in_grid(w, h, path[path.len() - 1]));
        let d = if q == nb(p, 0) { 0int } else if q == nb(p, 1) { 1int } else if q == nb(p, 2) { 2int } else { 3int };
        assert(q == nb(p, d));
        assert(painted(img, px, w, t, p));
    }
}

/// A pixel of the region has the region color.
pub proof fn lemma_connected_color(img: Seq<Color>, w: int, h: int, s: (int, int), q: (int, int))
    requires
        connected(img, w, h, s, q),
    ensures
        at(img, w, q.0, q.1) == at(img, w, s.0, s.1),
        in_grid(w, h, q),
{
    let t = at(img, w, s.0, s.1);
    let path = choose|path: Seq<(int, int)>| #[trigger] is_path(img, w, h, t, path) && path[0] == s && path.last() == q;
    assert(path[path.len() - 1] == q);
}

/// The bounding box of a region lies on the grid and is not empty.
pub proof fn lemma_bounds_fits(img: Seq<Color>, w: int, h: int, s: (int, int), r: Rect)
    requires
        bounds(img, w, h, s, r),
    ensures
        fits(r, w, h),
        r.w >= 1,
        r.h >= 1,
{
    let (x, y) = choose|x: int, y: int| #[trigger] connected(img, w, h, s, (x, y)) && in_grid(w, h, (x, y)) && x == r.x + r.w - 1;
    assert(in_rect(r, x, y));
    let (x2, y2) = choose|x: int, y: int| #[trigger] connected(img, w, h, s, (x, y)) && in_grid(w, h, (x, y)) && y == r.y + r.h - 1;
    assert(in_rect(r, x2, y2));
}

/// How many pixels of `s` have color `t`.
pub open spec fn count(s: Seq<Color>, t: Color) -> nat
    decreases s.len(),
{
    if s.len() == 0 {
        0
    } else {
        count(s.drop_last(), t) + if s.last() == t { 1nat } else { 0nat }
    }
}

pub proof fn lemma_count_update(s: Seq<Color>, i: int, v: Color, t: Color)
    requires
        0 <= i < s.len(),
        s[i] == t,
        v != t,
    ensures
        count(s.update(i, v), t) + 1 == count(s, t),
    decreases s.len(),
{
    let u = s.update(i, v);
    if i == s.len() - 1 {
        assert(u.drop_last() =~= s.drop_last());
    } else {
        assert(u.drop_last() =~= s.drop_last().update(i, v));
        lemma_count_update(s.drop_last(), i, v, t);
    }
}

/// The flat index of `q` in a grid with rows of length `w`.
pub open spec fn idx(w: int, q: (int, int)) -> int {
    q.1 * w + q.0
}

/// The position of the flat index `i`.
pub open spec fn pos(w: int, i: int) -> (int, int) {
    (i % w, i / w)
}

/// `q` is waiting on the stack.
pub open spec fn on_stack(st: Seq<usize>, w: int, q: (int, int)) -> bool {
    exists|j: int| 0 <= j < st.len() && #[trigger] st[j] == idx(w, q)
}

/// Every pixel is either as it was, or had color `t` and now has `c`.
#[verifier::opaque]
spec fn only_paints(img: Seq<Color>, px: Seq<Color>, w: int, h: int, t: Color, c: Color) -> bool {
    forall|q: (int, int)| in_grid(w, h, q) ==> (#[trigger] at(px, w, q.0, q.1) == at(img, w, q.0, q.1)
        || (at(img, w, q.0, q.1) == t && at(px, w, q.0, q.1) == c))
}

/// Every painted pixel belongs to the region of `s`.
#[verifier::opaque]
spec fn painted_reached(img: Seq<Color>, px: Seq<Color>, w: int, h: int, t: Color, s: (int, int)) -> bool {
    forall|q: (int, int)| in_grid(w, h, q) && #[trigger] painted(img, px, w, t, q) ==> connected(img, w, h, s, q)
}

/// A painted pixel's neighbour that still has color `t` waits on the stack.
#[verifier::opaque]
spec fn frontier(img: Seq<Color>, px: Seq<Color>, st: Seq<usize>, w: int, h: int, t: Color) -> bool {
    forall|q: (int, int), d: int|
        in_grid(w, h, q) && 0 <= d < 4 && #[trigger] painted(img, px, w, t, q) && in_grid(w, h, #[trigger] nb(q, d))
            && at(px, w, nb(q, d).0, nb(q, d).1) == t ==> on_stack(st, w, nb(q, d))
}

/// Every entry of the stack is a flat index of the region of `s`.
#[verifier::opaque]
spec fn stack_ok(img: Seq<Color>, st: Seq<usize>, w: int, h: int, s: (int, int)) -> bool {
    forall|j: int| 0 <= j < st.len() ==> (#[trigger] st[j] as int) < w * h
        && connected(img, w, h, s, pos(w, st[j] as int))
}

proof fn lemma_same_index(w: int, h: int, p: (int, int), q: (int, int))
    requires
        in_grid(w, h, p),
        in_grid(w, h, q),
        idx(w, p) == idx(w, q),
    ensures
        p == q,
{
    lemma_index(p.0, p.1, w, h);
    lemma_index(q.0, q.1, w, h);
}

/// Dropping an entry whose pixel no longer has color `t` keeps the frontier.
proof fn lemma_drop_unpainted(img: Seq<Color>, px: Seq<Color>, st: Seq<usize>, w: int, h: int, t: Color, s: (int, int))
    requires
        st.len() > 0,
        frontier(img, px, st, w, h, t),
        at(px, w, s.0, s.1) == t ==> on_stack(st, w, s),
        px[st.last() as int] != t,
        stack_ok(img, st, w, h, s),
    ensures
        frontier(img, px, st.drop_last(), w, h, t),
        at(px, w, s.0, s.1) == t ==> on_stack(st.drop_last(), w, s),
        stack_ok(img, st.drop_last(), w, h, s),
{
    reveal(frontier);
    reveal(stack_ok);
    let rest = st.drop_last();
    assert forall|q: (int, int), d: int|
        in_grid(w, h, q) && 0 <= d < 4 && #[trigger] painted(img, px, w, t, q) && in_grid(w, h, #[trigger] nb(q, d))
            && at(px, w, nb(q, d).0, nb(q, d).1) == t implies on_stack(rest, w, nb(q, d)) by {
        let e = nb(q, d);
        let j = choose|j: int| 0 <= j < st.len() && #[trigger] st[j] == idx(w, e);
        assert(j != st.len() - 1);
        assert(rest[j] == st[j]);
    }
    if at(px, w, s.0, s.1) == t {
        let j = choose|j: int| 0 <= j < st.len() && #[trigger] st[j] == idx(w, s);
        assert(j != st.len() - 1);
        assert(rest[j] == st[j]);
    }
    assert forall|j: int| 0 <= j < rest.len() implies (#[trigger] rest[j] as int) < w * h
        && connected(img, w, h, s, pos(w, rest[j] as int)) by {
        assert(rest[j] == st[j]);
    }
}

/// `v` is the flat index of a 4-neighbour of `p` that has color `t`.
pub open spec fn from_neighbour(px: Seq<Color>, w: int, h: int, t: Color, p: (int, int), v: int) -> bool {
    exists|d: int| 0 <= d < 4 && in_grid(w, h, nb(p, d)) && at(px, w, nb(p, d).0, nb(p, d).1) == t
        && v == idx(w, #[trigger] nb(p, d))
}

/// Painting the pixel `p` taken off the stack, then pushing its neighbours
/// of color `t`, keeps every invariant of the fill.
proof fn lemma_paint_step(
    img: Seq<Color>,
    px0: Seq<Color>,
    px1: Seq<Color>,
    st0: Seq<usize>,
    st1: Seq<usize>,
    w: int,
    h: int,
    t: Color,
    c: Color,
    s: (int, int),
    p: (int, int),
)
    requires
        w > 0,
        h > 0,
        img.len() == w * h,
        px0.len() == w * h,
        t != c,
        at(img, w, s.0, s.1) == t,
        in_grid(w, h, s),
        in_grid(w, h, p),
        st0.len() > 0,
        st0.last() == idx(w, p),
        at(px0, w, p.0, p.1) == t,
        px1 == px0.update(idx(w, p), c),
        only_paints(img, px0, w, h, t, c),
        painted_reached(img, px0, w, h, t, s),
        frontier(img, px0, st0, w, h, t),
        at(px0, w, s.0, s.1) == t ==> on_stack(st0, w, s),
        stack_ok(img, st0, w, h, s),
        st1.len() >= st0.len() - 1,
        forall|j: int| 0 <= j < st0.len() - 1 ==> #[trigger] st1[j] == st0[j],
        forall|j: int| st0.len() - 1 <= j < st1.len() ==> from_neighbour(px1, w, h, t, p, #[trigger] st1[j] as int),
        forall|d: int| 0 <= d < 4 && in_grid(w, h, #[trigger] nb(p, d)) && at(px1, w, nb(p, d).0, nb(p, d).1) == t
            ==> on_stack(st1, w, nb(p, d)),
    ensures
        only_paints(img, px1, w, h, t, c),
        painted_reached(img, px1, w, h, t, s),
        frontier(img, px1, st1, w, h, t),
        at(px1, w, s.0, s.1) == t ==> on_stack(st1, w, s),
        stack_ok(img, st1, w, h, s),
        painted(img, px1, w, t, p),
        forall|q: (int, int)| in_grid(w, h, q) && #[trigger] painted(img, px1, w, t, q) ==> q == p || painted(img, px0, w, t, q),
        forall|q: (int, int)| #[trigger] painted(img, px0, w, t, q) && in_grid(w, h, q) ==> painted(img, px1, w, t, q),
{
    reveal(only_paints);
    reveal(painted_reached);
    reveal(frontier);
    reveal(stack_ok);
    lemma_index(p.0, p.1, w, h);
    assert forall|q: (int, int)| in_grid(w, h, q) && q != p implies #[trigger] at(px1, w, q.0, q.1) == at(px0, w, q.0, q.1) by {
        lemma_index(q.0, q.1, w, h);
        if idx(w, q) == idx(w, p) {
            lemma_same_index(w, h, p, q);
        }
    }
    assert(at(px1, w, p.0, p.1) == c);
    assert(at(img, w, p.0, p.1) == t);
    assert(connected(img, w, h, s, p)) by {
        assert(st0[st0.len() - 1] == idx(w, p));
        assert(pos(w, idx(w, p)) == p);
    }
    assert forall|q: (int, int)| in_grid(w, h, q) implies (#[trigger] at(px1, w, q.0, q.1) == at(img, w, q.0, q.1)
        || (at(img, w, q.0, q.1) == t && at(px1, w, q.0, q.1) == c)) by {
        if q != p {
            assert(at(px1, w, q.0, q.1) == at(px0, w, q.0, q.1));
        }
    }
    assert forall|q: (int, int)| in_grid(w, h, q) && #[trigger] painted(img, px1, w, t, q) implies q == p || painted(img, px0, w, t, q) by {
        if q != p {
            assert(at(px1, w, q.0, q.1) == at(px0, w, q.0, q.1));
        }
    }
    assert forall|q: (int, int)| #[trigger] painted(img, px0, w, t, q) && in_grid(w, h, q) implies painted(img, px1, w, t, q) by {
        if q != p {
            assert(at(px1, w, q.0, q.1) == at(px0, w, q.0, q.1));
        }
    }
    assert forall|q: (int, int)| in_grid(w, h, q) && #[trigger] painted(img, px1, w, t, q) implies connected(img, w, h, s, q) by {
        if q != p {
            assert(at(px1, w, q.0, q.1) == at(px0, w, q.0, q.1));
            assert(painted(img, px0, w, t, q));
        }
    }
    assert forall|q: (int, int), d: int|
        in_grid(w, h, q) && 0 <= d < 4 && #[trigger] painted(img, px1, w, t, q) && in_grid(w, h, #[trigger] nb(q, d))
            && at(px1, w, nb(q, d).0, nb(q, d).1) == t implies on_stack(st1, w, nb(q, d)) by {
        let e = nb(q, d);
        if q != p {
            assert(at(px1, w, q.0, q.1) == at(px0, w, q.0, q.1));
            assert(painted(img, px0, w, t, q));
            assert(e != p);
            assert(at(px1, w, e.0, e.1) == at(px0, w, e.0, e.1));
            assert(on_stack(st0, w, e));
            let j = choose|j: int| 0 <= j < st0.len() && #[trigger] st0[j] == idx(w, e);
            if j == st0.len() - 1 {
                lemma_same_index(w, h, p, e);
            }
            assert(st1[j] == st0[j]);
        }
    }
    if at(px1, w, s.0, s.1) == t {
        assert(s != p);
        assert(at(px1, w, s.0, s.1) == at(px0, w, s.0, s.1));
        let j = choose|j: int| 0 <= j < st0.len() && #[trigger] st0[j] == idx(w, s);
        if j == st0.len() - 1 {
            lemma_same_index(w, h, p, s);
        }
        assert(st1[j] == st0[j]);
    }
    assert forall|j: int| 0 <= j < st1.len() implies (#[trigger] st1[j] as int) < w * h
        && connected(img, w, h, s, pos(w, st1[j] as int)) by {
        if j < st0.len() - 1 {
            assert(st1[j] == st0[j]);
        } else {
            assert(from_neighbour(px1, w, h, t, p, st1[j] as int));
            let d = choose|d: int| 0 <= d < 4 && in_grid(w, h, nb(p, d))
                && at(px1, w, nb(p, d).0, nb(p, d).1) == t && st1[j] == idx(w, #[trigger] nb(p, d));
            let e = nb(p, d);
            lemma_index(e.0, e.1, w, h);
            assert(e != p);
            assert(at(px1, w, e.0, e.1) == at(px0, w, e.0, e.1));
            assert(at(img, w, e.0, e.1) == t);
            lemma_connected_step(img, w, h, s, p, e);
            assert(pos(w, st1[j] as int) == e);
        }
    }
}

/// Pushes the flat index of each 4-neighbour of `i` that has color `t`.
fn push_neighbours(px: &Vec<Color>, stack: &mut Vec<usize>, w: usize, h: usize, i: usize, t: Color)
    requires
        w > 0,
        h > 0,
        px@.len() == w * h,
        i < w * h,
    ensures
        final(stack)@.len() >= old(stack)@.len(),
        forall|j: int| 0 <= j < old(stack)@.len() ==> #[trigger] final(stack)@[j] == old(stack)@[j],
        forall|j: int| old(stack)@.len() <= j < final(stack)@.len()
            ==> from_neighbour(px@, w as int, h as int, t, pos(w as int, i as int), #[trigger] final(stack)@[j] as int),
        forall|d: int| 0 <= d < 4 && in_grid(w as int, h as int, #[trigger] nb(pos(w as int, i as int), d))
            && at(px@, w as int, nb(pos(w as int, i as int), d).0, nb(pos(w as int, i as int), d).1) == t
            ==> on_stack(final(stack)@, w as int, nb(pos(w as int, i as int), d)),
{
    let ghost wi = w as int;
    let ghost hi = h as int;
    let ghost st0 = stack@;
    let n = px.len();
    let cx = i % w;
    let cy = i / w;
    let ghost p = pos(wi, i as int);
    proof {
        lemma_split(i as int, wi, hi);
        assert(p == (cx as int, cy as int));
        assert(idx(wi, p) == i);
        lemma_row_next(cy as int - 1, wi);
        lemma_row_next(cy as int, wi);
        lemma_index(cx as int, cy as int, wi, hi);
        if cx + 1 < w {
            lemma_index(cx as int + 1, cy as int, wi, hi);
        }
        if cy + 1 < h {
            lemma_index(cx as int, cy as int + 1, wi, hi);
        }
        assert(idx(wi, nb(p, 0)) == i - 1);
        assert(idx(wi, nb(p, 1)) == i + 1);
        assert(idx(wi, nb(p, 2)) == i - w);
        assert(idx(wi, nb(p, 3)) == i + w);
    }
    if cx > 0 && px[i - 1] == t {
        stack.push(i - 1);
    }
    let ghost m0 = stack@;
    if cx + 1 < w && px[i + 1] == t {
        stack.push(i + 1);
    }
    let ghost m1 = stack@;
    if cy > 0 && px[i - w] == t {
        stack.push(i - w);
    }
    let ghost m2 = stack@;
    if cy + 1 < h && px[i + w] == t {
        stack.push(i + w);
    }
    proof {
        let st1 = stack@;
        assert forall|j: int| 0 <= j < st0.len() implies #[trigger] st1[j] == st0[j] by {
            assert(m0[j] == st0[j]);
            assert(m1[j] == m0[j]);
            assert(m2[j] == m1[j]);
        }
        assert forall|d: int| 0 <= d < 4 && in_grid(wi, hi, #[trigger] nb(p, d))
            && at(px@, wi, nb(p, d).0, nb(p, d).1) == t implies on_stack(st1, wi, nb(p, d)) by {
            if d == 0 {
                assert(st1[m0.len() - 1] == m0[m0.len() - 1]);
            } else if d == 1 {
                assert(st1[m1.len() - 1] == m1[m1.len() - 1]);
            } else if d == 2 {
                assert(st1[m2.len() - 1] == m2[m2.len() - 1]);
            } else {
                assert(st1[st1.len() - 1] == idx(wi, nb(p, 3)));
            }
        }
        assert forall|j: int| st0.len() <= j < st1.len() implies from_neighbour(px@, wi, hi, t, p, #[trigger] st1[j] as int) by {
            if j < m0.len() {
                assert(st1[j] == m0[j]);
                assert(st1[j] == idx(wi, nb(p, 0)));
            } else if j < m1.len() {
                assert(st1[j] == m1[j]);
                assert(st1[j] == idx(wi, nb(p, 1)));
            } else if j < m2.len() {
                assert(st1[j] == m2[j]);
                assert(st1[j] == idx(wi, nb(p, 2)));
            } else {
                assert(st1[j] == idx(wi, nb(p, 3)));
            }
        }
    }
}

/// Repaints with `c` the 4-connected region of color around `(x, y)` in a
/// `w` x `h` grid, and returns its bounding box.
pub fn flood(px: &mut Vec<Color>, w: usize, h: usize, x: usize, y: usize, c: Color) -> (r: Rect)
    requires
        w > 0,
        h > 0,
        old(px)@.len() == w * h,
        x < w,
        y < h,
        at(old(px)@, w as int, x as int, y as int) != c,
    ensures
        final(px)@ == flood_spec(old(px)@, w as int, h as int, (x as int, y as int), c),
        bounds(old(px)@, w as int, h as int, (x as int, y as int), r),
        fits(r, w as int, h as int),
{
    let ghost img0 = px@;
    let ghost s = (x as int, y as int);
    let ghost wi = w as int;
    let ghost hi = h as int;
    proof {
        lemma_index(x as int, y as int, w as int, h as int);
        lemma_connected_self(img0, wi, hi, s);
    }
    let n = px.len();
    let t = px[y * w + x];
    let mut x0 = x;
    let mut y0 = y;
    let mut x1 = x + 1;
    let mut y1 = y + 1;
    let ghost mut left = s;
    let ghost mut right = s;
    let ghost mut top = s;
    let ghost mut bottom = s;
    let mut stack: Vec<usize> = Vec::new();
    stack.push(y * w + x);
    proof {
        assert(stack@[0] == idx(wi, s));
        assert(pos(wi, idx(wi, s)) == s);
        assert(on_stack(stack@, wi, s));
        assert forall|q: (int, int)| in_grid(wi, hi, q) implies !#[trigger] painted(img0, px@, wi, t, q) by {}
        reveal(only_paints);
        reveal(painted_reached);
        reveal(frontier);
        reveal(stack_ok);
    }
    while stack.len() > 0
        invariant
            wi == w,
            hi == h,
            w > 0,
            h > 0,
            n == w * h,
            px@.len() == n,
            img0.len() == n,
            in_grid(wi, hi, s),
            t == at(img0, wi, s.0, s.1),
            t != c,
            only_paints(img0, px@, wi, hi, t, c),
            painted_reached(img0, px@, wi, hi, t, s),
            frontier(img0, px@, stack@, wi, hi, t),
            at(px@, wi, s.0, s.1) == t ==> on_stack(stack@, wi, s),
            stack_ok(img0, stack@, wi, hi, s),
            forall|q: (int, int)| in_grid(wi, hi, q) && #[trigger] painted(img0, px@, wi, t, q)
                ==> x0 <= q.0 < x1 && y0 <= q.1 < y1,
            x0 <= s.0 < x1 <= w,
            y0 <= s.1 < y1 <= h,
            left.0 == x0 && right.0 == x1 - 1 && top.1 == y0 && bottom.1 == y1 - 1,
            in_grid(wi, hi, left) && (left == s || painted(img0, px@, wi, t, left)),
            in_grid(wi, hi, right) && (right == s || painted(img0, px@, wi, t, right)),
            in_grid(wi, hi, top) && (top == s || painted(img0, px@, wi, t, top)),
            in_grid(wi, hi, bottom) && (bottom == s || painted(img0, px@, wi, t, bottom)),
        decreases count(px@, t), stack@.len(),
    {
        let ghost st0 = stack@;
        let ghost px0 = px@;
        let i = stack.pop().unwrap();
        proof {
            assert(i == st0[st0.len() - 1]);
            assert(stack@ =~= st0.drop_last());
            reveal(stack_ok);
            assert((st0[st0.len() - 1] as int) < wi * hi);
        }
        if px[i] == t {
            let cx = i % w;
            let cy = i / w;
            let ghost p = (cx as int, cy as int);
            proof {
                lemma_split(i as int, wi, hi);
                assert(idx(wi, p) == i);
                lemma_count_update(px0, i as int, c, t);
            }
            px.set(i, c);
            let ghost px1 = px@;
            push_neighbours(&px, &mut stack, w, h, i, t);
            proof {
                let st1 = stack@;
                assert(pos(wi, i as int) == p);
                assert forall|j: int| 0 <= j < st0.len() - 1 implies #[trigger] st1[j] == st0[j] by {
                    assert(st1[j] == st0.drop_last()[j]);
                }
                lemma_paint_step(img0, px0, px1, st0, st1, wi, hi, t, c, s, p);
            }
            if cx < x0 {
                x0 = cx;
                proof { left = p; }
            }
            if cx + 1 > x1 {
                x1 = cx + 1;
                proof { right = p; }
            }
            if cy < y0 {
                y0 = cy;
                proof { top = p; }
            }
            if cy + 1 > y1 {
                y1 = cy + 1;
                proof { bottom = p; }
            }
        } else {
            proof {
                lemma_drop_unpainted(img0, px0, st0, wi, hi, t, s);
            }
        }
    }
    proof {
        reveal(only_paints);
        reveal(painted_reached);
        reveal(frontier);
        assert forall|q: (int, int)| in_grid(wi, hi, q) && connected(img0, wi, hi, s, q) implies #[trigger] painted(img0, px@, wi, t, q) by {
            let path = choose|path: Seq<(int, int)>| #[trigger] is_path(img0, wi, hi, t, path) && path[0] == s && path.last() == q;
            if at(px@, wi, s.0, s.1) == t {
                let j = choose|j: int| 0 <= j < stack@.len() && #[trigger] stack@[j] == idx(wi, s);
            }
            assert forall|q2: (int, int), d: int|
                in_grid(wi, hi, q2) && 0 <= d < 4 && #[trigger] painted(img0, px@, wi, t, q2)
                    && in_grid(wi, hi, #[trigger] nb(q2, d))
                    implies at(px@, wi, nb(q2, d).0, nb(q2, d).1) != t by {
                if at(px@, wi, nb(q2, d).0, nb(q2, d).1) == t {
                    let j = choose|j: int| 0 <= j < stack@.len() && #[trigger] stack@[j] == idx(wi, nb(q2, d));
                }
            }
            lemma_region_painted(img0, px@, wi, hi, s, path);
            lemma_connected_color(img0, wi, hi, s, q);
        }
        let fin = flood_spec(img0, wi, hi, s, c);
        assert forall|a: int, b: int| 0 <= a < wi && 0 <= b < hi implies #[trigger] at(px@, wi, a, b) == at(fin, wi, a, b) by {
            lemma_index(a, b, wi, hi);
            let q = (a, b);
            assert(at(px@, wi, q.0, q.1) == at(img0, wi, q.0, q.1) || (at(img0, wi, q.0, q.1) == t && at(px@, wi, q.0, q.1) == c));
            if connected(img0, wi, hi, s, q) {
                assert(painted(img0, px@, wi, t, q));
            } else if at(px@, wi, a, b) != at(img0, wi, a, b) {
                assert(painted(img0, px@, wi, t, q));
            }
        }
        lemma_eq_by_pixels(px@, fin, wi, hi);
        assert(connected(img0, wi, hi, s, (left.0, left.1)));
        assert(connected(img0, wi, hi, s, (right.0, right.1)));
        assert(connected(img0, wi, hi, s, (top.0, top.1)));
        assert(connected(img0, wi, hi, s, (bottom.0, bottom.1)));
        assert forall|a: int, b: int| in_grid(wi, hi, (a, b)) && #[trigger] connected(img0, wi, hi, s, (a, b))
            implies x0 <= a < x1 && y0 <= b < y1 by {
            assert(painted(img0, px@, wi, t, (a, b)));
        }
    }
    Rect { x: x0, y: y0, w: x1 - x0, h: y1 - y0 }
}

} // verus!
