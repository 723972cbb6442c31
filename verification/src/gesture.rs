//! The pointer's decisions, apart from its geometry: which press opens a
//! stroke, which grabs and lifts the selection, which release closes the
//! stroke, and when a curve or a polygon stays armed. Where the pointer is
//! (in floating point) and what gets rasterized stay with the caller; what
//! happens to the document is decided and done here.
use vstd::prelude::*;
use crate::canvas::{ends_stroke, opened};
use crate::doc::{committed, lifted, mask_view, same_settings, settings_but_tool, Doc, Tool};
use crate::shapes::Shape;

verus! {

/// What the pointer is in the middle of.
#[derive(Clone, Copy, PartialEq, Eq, Debug, Structural)]
pub enum Gesture {
    Idle,
    /// Painting with the pencil, the brush or the eraser.
    Freehand,
    /// Dragging out a shape between two corners.
    Shape,
    /// Paint's curve: first the segment, then up to two bends; `bent` after
    /// the first.
    Curve { bent: bool },
    /// A polygon, one corner per click.
    Polygon,
    /// Drawing a new selection.
    SelectNew,
    /// Moving the selection.
    SelectMove,
    /// Stretching the selection by one of its eight handles.
    SelectScale(usize),
}

/// Where a press with the Select tool landed, as the caller measured it.
#[derive(Clone, Copy, PartialEq, Eq, Debug, Structural)]
pub enum Hit {
    Handle(usize),
    Inside,
    Outside,
}

/// A curve or a polygon: they take several clicks and keep their stroke
/// open between them.
pub open spec fn multistep(g: Gesture) -> bool {
    g is Curve || g is Polygon
}

/// `d` with the button that paints set.
pub open spec fn with_swap(d: Doc, right: bool) -> Doc {
    Doc { swap: right, ..d }
}

/// The lasso mask that `lift` gets: the caller's, when it has one flag per
/// pixel of a selection that does not float yet.
pub open spec fn mask_for(d: Doc, inside: Option<Vec<bool>>) -> Option<Seq<bool>> {
    match (inside, d.sel) {
        (Some(m), Some(s)) => if s.px is None && m@.len() == s.r.w * s.r.h { Some(m@) } else { None },
        _ => None,
    }
}

/// Whether a press grabs the selection: on one of its handles or inside it.
pub open spec fn grabs(d: Doc, hit: Hit) -> bool {
    d.tool == Tool::Select && d.sel is Some && (hit is Handle || hit is Inside)
}

/// The gesture a press starts with the tool of `d`, outside a curve or a
/// polygon.
pub open spec fn started(d: Doc, hit: Hit) -> Gesture {
    match d.tool {
        Tool::Select => if d.sel is Some {
            match hit {
                Hit::Handle(i) => Gesture::SelectScale(i),
                Hit::Inside => Gesture::SelectMove,
                Hit::Outside => Gesture::SelectNew,
            }
        } else {
            Gesture::SelectNew
        },
        Tool::Shape => match d.shape {
            Shape::Curve => Gesture::Curve { bent: false },
            Shape::Polygon => Gesture::Polygon,
            _ => Gesture::Shape,
        },
        Tool::Pencil | Tool::Brush | Tool::Eraser => Gesture::Freehand,
        _ => Gesture::Idle,
    }
}

/// `d1` is `d0` after a press that drops the selection and opens a stroke.
pub open spec fn opens_stroke(d0: Doc, d1: Doc) -> bool {
    exists|mid: Doc| #[trigger] committed(d0, mid) && opened(mid.canvas, d1.canvas, false) && d1.wf()
        && d1.sel is None && same_settings(mid, d1)
}

/// A press of the pointer with button `right`. In a curve or a polygon it
/// goes on with it (the first click after the segment bends the curve).
/// Otherwise, with the Select tool, a press on a handle or inside the
/// selection opens a stroke and lifts the selection, and one elsewhere puts
/// it down to draw a new one; with a shape or a painting tool the selection
/// is put down and a stroke opens. The other tools start nothing here.
pub fn press(doc: &mut Doc, g: Gesture, hit: Hit, right: bool, inside: Option<Vec<bool>>) -> (next: Gesture)
    requires
        old(doc).wf(),
    ensures
        final(doc).wf(),
        final(doc).swapped() == right,
        multistep(g) ==> *final(doc) == with_swap(*old(doc), right)
            && next == if g == (Gesture::Curve { bent: false }) { Gesture::Curve { bent: true } } else { g },
        !multistep(g) ==> next == started(*old(doc), hit),
        !multistep(g) && grabs(*old(doc), hit) ==> exists|d1: Doc| #[trigger] opened(with_swap(*old(doc), right).canvas, d1.canvas, false)
            && d1.wf() && d1.sel == old(doc).sel && same_settings(with_swap(*old(doc), right), d1)
            && lifted(d1, *final(doc), mask_for(*old(doc), inside)),
        !multistep(g) && old(doc).tool == Tool::Select && !grabs(*old(doc), hit) ==> committed(with_swap(*old(doc), right), *final(doc)),
        !multistep(g) && (old(doc).tool == Tool::Shape || old(doc).tool == Tool::Pencil || old(doc).tool == Tool::Brush
            || old(doc).tool == Tool::Eraser) ==> opens_stroke(with_swap(*old(doc), right), *final(doc)),
        !multistep(g) && !(old(doc).tool == Tool::Select || old(doc).tool == Tool::Shape || old(doc).tool == Tool::Pencil
            || old(doc).tool == Tool::Brush || old(doc).tool == Tool::Eraser) ==> *final(doc) == with_swap(*old(doc), right),
{
    let ghost d_old = *doc;
    let ghost gi = inside;
    doc.set_swap(right);
    let ghost d0 = *doc;
    match g {
        Gesture::Curve { .. } => {
            return Gesture::Curve { bent: true };
        },
        Gesture::Polygon => {
            return g;
        },
        _ => {},
    }
    match doc.tool {
        Tool::Select => {
            let grab = doc.sel.is_some() && match hit {
                Hit::Outside => false,
                _ => true,
            };
            if grab {
                let mask = match (&inside, &doc.sel) {
                    (Some(m), Some(s)) => if s.px.is_none() && s.r.w.checked_mul(s.r.h) == Some(m.len()) {
                        inside
                    } else {
                        None
                    },
                    _ => None,
                };
                proof {
                    if let (Some(m), Some(s)) = (gi, d0.sel) {
                        if s.px is None && m@.len() == s.r.w * s.r.h {
                            assert(mask_view(mask) == Some(m@));
                        }
                    }
                    assert(mask_view(mask) == mask_for(d_old, gi));
                }
                doc.canvas.begin_stroke();
                let ghost d1 = *doc;
                proof {
                    assert(opened(d0.canvas, d1.canvas, false));
                    assert(d1.wf());
                    assert(same_settings(d0, d1));
                }
                doc.lift(mask);
                proof {
                    assert(lifted(d1, *doc, mask_for(d_old, gi)));
                }
                match hit {
                    Hit::Handle(i) => Gesture::SelectScale(i),
                    _ => Gesture::SelectMove,
                }
            } else {
                doc.commit_selection();
                Gesture::SelectNew
            }
        },
        Tool::Shape | Tool::Pencil | Tool::Brush | Tool::Eraser => {
            doc.commit_selection();
            let ghost mid = *doc;
            doc.canvas.begin_stroke();
            proof {
                assert(committed(d0, mid));
            }
            match doc.tool {
                Tool::Shape => match doc.shape {
                    Shape::Curve => Gesture::Curve { bent: false },
                    Shape::Polygon => Gesture::Polygon,
                    _ => Gesture::Shape,
                },
                _ => Gesture::Freehand,
            }
        },
        _ => Gesture::Idle,
    }
}

/// The release of the pointer. Painting and a dragged shape close their
/// stroke (the caller has rasterized the shape); a curve or a polygon stays
/// armed with its stroke open; a new selection too small to hold anything
/// is dropped; the painting button is released.
pub fn release(doc: &mut Doc, g: Gesture) -> (next: Gesture)
    requires
        old(doc).wf(),
    ensures
        final(doc).wf(),
        !final(doc).swapped(),
        next == if multistep(g) { g } else { Gesture::Idle },
        (g is Freehand || g is Shape) ==> ends_stroke(old(doc).canvas, final(doc).canvas) && final(doc).sel == old(doc).sel
            && same_settings(with_swap(*old(doc), false), *final(doc)),
        !(g is Freehand || g is Shape || g is SelectNew) ==> *final(doc) == with_swap(*old(doc), false),
        g is SelectNew ==> final(doc).canvas == old(doc).canvas && same_settings(with_swap(*old(doc), false), *final(doc))
            && match old(doc).sel {
                Some(s) => if s.r.w < 2 || s.r.h < 2 { final(doc).sel is None } else { final(doc).sel == old(doc).sel },
                None => final(doc).sel is None,
            },
{
    let next = match g {
        Gesture::Freehand | Gesture::Shape => {
            doc.canvas.end_stroke();
            Gesture::Idle
        },
        Gesture::SelectNew => {
            doc.drop_tiny_selection();
            Gesture::Idle
        },
        Gesture::Curve { .. } | Gesture::Polygon => g,
        _ => Gesture::Idle,
    };
    doc.set_swap(false);
    next
}

/// Ends a curve or a polygon (double click, Enter, Escape, another tool):
/// its stroke closes, after the caller rasterized it. Anything else is left
/// as it is.
pub fn finish(doc: &mut Doc, g: Gesture) -> (next: Gesture)
    requires
        old(doc).wf(),
    ensures
        final(doc).wf(),
        multistep(g) ==> next is Idle && ends_stroke(old(doc).canvas, final(doc).canvas)
            && final(doc).sel == old(doc).sel && same_settings(*old(doc), *final(doc)),
        !multistep(g) ==> next == g && *final(doc) == *old(doc),
{
    match g {
        Gesture::Curve { .. } | Gesture::Polygon => {
            doc.canvas.end_stroke();
            Gesture::Idle
        },
        _ => g,
    }
}

/// Changes the tool. Leaving the tool ends a curve or a polygon in progress
/// and puts the selection down.
pub fn switch_tool(doc: &mut Doc, g: Gesture, t: Tool) -> (next: Gesture)
    requires
        old(doc).wf(),
    ensures
        final(doc).wf(),
        final(doc).tool == t,
        old(doc).tool == t ==> *final(doc) == *old(doc) && next == g,
        old(doc).tool != t ==> next == (if multistep(g) { Gesture::Idle } else { g }) && exists|d1: Doc, mid: Doc|
            (multistep(g) ==> ends_stroke(old(doc).canvas, d1.canvas) && d1.sel == old(doc).sel && same_settings(*old(doc), d1))
            && (!multistep(g) ==> d1 == *old(doc))
            && #[trigger] committed(d1, mid) && final(doc).canvas == mid.canvas && final(doc).sel is None
            && settings_but_tool(mid, *final(doc)),
{
    if doc.tool == t {
        return g;
    }
    let next = finish(doc, g);
    doc.set_tool(t);
    next
}

} // verus!
