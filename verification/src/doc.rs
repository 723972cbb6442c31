//! The document: the canvas, the tool settings, the selection and the
//! clipboard, and the operations that work on them with whole pixels.
use vstd::prelude::*;
use crate::canvas::{Canvas, Rect, stroke_step, same_canvas, lemma_stroke_step, changed, min_int, max_int, steps};
use crate::grid::{blit_spec, hit_box, keyed_hit, keyed_spec, map_rect, RectOp};
use crate::color::Color;
use crate::grid::{at, fits, remap, remap_spec, Remap, extract_spec, clip, clip_spec, lemma_row_le, lemma_row_next};
use crate::lang::{t, Lang};
use crate::fill::{bounds, flood_spec};
use crate::shapes::{Brush, Shape};

verus! {

/// The tools of the tool box.
#[derive(Clone, Copy, PartialEq, Eq, Debug, Structural)]
pub enum Tool {
    Pencil,
    Fill,
    Text,
    Eraser,
    Picker,
    Magnifier,
    Brush,
    Shape,
    Select,
}

/// The Spanish name of a tool: the key of its translation.
pub open spec fn tool_key(t: Tool) -> Seq<char> {
    match t {
        Tool::Pencil => "Lápiz"@,
        Tool::Fill => "Relleno con color"@,
        Tool::Text => "Texto"@,
        Tool::Eraser => "Borrador"@,
        Tool::Picker => "Selector de color"@,
        Tool::Magnifier => "Lupa"@,
        Tool::Brush => "Pinceles"@,
        Tool::Shape => "Formas"@,
        Tool::Select => "Seleccionar"@,
    }
}

impl Tool {
    /// The Spanish name of the tool.
    pub fn key(self) -> (k: &'static str)
        ensures
            k@ == tool_key(self),
    {
        match self {
            Tool::Pencil => "Lápiz",
            Tool::Fill => "Relleno con color",
            Tool::Text => "Texto",
            Tool::Eraser => "Borrador",
            Tool::Picker => "Selector de color",
            Tool::Magnifier => "Lupa",
            Tool::Brush => "Pinceles",
            Tool::Shape => "Formas",
            Tool::Select => "Seleccionar",
        }
    }

    /// The name the user sees, already translated.
    pub fn label<'a>(self, lang: &'a Lang) -> (l: &'a str)
        requires
            lang.wf(),
        ensures
            l@ == lang.translate(tool_key(self)),
    {
        t(lang, self.key())
    }
}

/// Outline and fill styles of the shapes: the same seven in both menus.
#[derive(Clone, Copy, PartialEq, Eq, Debug, Structural)]
pub enum Stroke {
    /// No outline or no fill.
    Empty,
    Solid,
    Crayon,
    Marker,
    Oil,
    NaturalPencil,
    Watercolor,
}

/// The name of a style in the outline menu.
pub open spec fn outline_name(s: Stroke) -> Seq<char> {
    match s {
        Stroke::Empty => "Sin contorno"@,
        Stroke::Solid => "Color sólido"@,
        Stroke::Crayon => "Crayón"@,
        Stroke::Marker => "Marcador"@,
        Stroke::Oil => "Óleo"@,
        Stroke::NaturalPencil => "Lápiz natural"@,
        Stroke::Watercolor => "Acuarela"@,
    }
}

impl Stroke {
    pub fn outline_label(self) -> (l: &'static str)
        ensures
            l@ == outline_name(self),
    {
        match self {
            Stroke::Empty => "Sin contorno",
            Stroke::Solid => "Color sólido",
            Stroke::Crayon => "Crayón",
            Stroke::Marker => "Marcador",
            Stroke::Oil => "Óleo",
            Stroke::NaturalPencil => "Lápiz natural",
            Stroke::Watercolor => "Acuarela",
        }
    }

    /// The name in the fill menu: the outline name, but for "no fill".
    pub fn fill_label(self) -> (l: &'static str)
        ensures
            l@ == if self is Empty { "Sin relleno"@ } else { outline_name(self) },
    {
        match self {
            Stroke::Empty => "Sin relleno",
            other => other.outline_label(),
        }
    }

    /// The brush a textured style is drawn with; `None` for the plain ones.
    pub fn brush(self) -> (b: Option<Brush>)
        ensures
            b == match self {
                Stroke::Crayon => Some(Brush::Crayon),
                Stroke::Marker => Some(Brush::Marker),
                Stroke::Oil => Some(Brush::Oil),
                Stroke::NaturalPencil => Some(Brush::NaturalPencil),
                Stroke::Watercolor => Some(Brush::Watercolor),
                Stroke::Empty | Stroke::Solid => None::<Brush>,
            },
    {
        match self {
            Stroke::Crayon => Some(Brush::Crayon),
            Stroke::Marker => Some(Brush::Marker),
            Stroke::Oil => Some(Brush::Oil),
            Stroke::NaturalPencil => Some(Brush::NaturalPencil),
            Stroke::Watercolor => Some(Brush::Watercolor),
            Stroke::Empty | Stroke::Solid => None,
        }
    }
}

#[derive(Clone, Copy, PartialEq, Eq, Debug, Structural)]
pub enum SelectMode {
    Rectangular,
    FreeForm,
}

/// A copy of a run of pixels.
pub fn dup(v: &[Color]) -> (o: Vec<Color>)
    ensures
        o@ == v@,
{
    let mut o: Vec<Color> = Vec::new();
    let mut i: usize = 0;
    while i < v.len()
        invariant
            i <= v@.len(),
            o@ == v@.subrange(0, i as int),
        decreases v@.len() - i,
    {
        o.push(v[i]);
        i += 1;
        assert(o@ =~= v@.subrange(0, i as int));
    }
    assert(o@ =~= v@);
    o
}

/// A selection. With `px` present it is lifted (floating): its pixels have
/// left the canvas and travel with it.
pub struct Selection {
    pub r: Rect,
    pub px: Option<Vec<Color>>,
    /// The size the pixels were lifted at. Stretching changes `r`, never
    /// `px`: the pixels are resampled when read, always from the original.
    pub src: (usize, usize),
}

impl Selection {
    /// The sizes agree with the pixels, and reading them at the size of `r`
    /// stays in machine range.
    pub open spec fn wf(&self) -> bool {
        &&& self.r.x + self.r.w <= usize::MAX
        &&& self.r.y + self.r.h <= usize::MAX
        &&& self.r.w * self.r.h <= usize::MAX
        &&& self.px matches Some(p) ==> p@.len() == self.src.0 * self.src.1 && ((self.r.w, self.r.h) == self.src || (
            self.src.0 > 0 && self.src.1 > 0 && self.r.w * self.src.0 <= usize::MAX && self.r.h * self.src.1 <= usize::MAX))
    }

    /// What reading the pixels needs: the pixels fill the size they were
    /// lifted at, and resampling them to `r` stays in machine range. A source
    /// with a zero side is read as it is.
    pub open spec fn readable(&self) -> bool {
        &&& self.r.w * self.r.h <= usize::MAX
        &&& self.px matches Some(p) ==> p@.len() == self.src.0 * self.src.1 && ((self.r.w, self.r.h) == self.src
            || self.src.0 == 0 || self.src.1 == 0
            || (self.r.w * self.src.0 <= usize::MAX && self.r.h * self.src.1 <= usize::MAX))
    }

    /// The floating pixels at the size `r` has now (nearest neighbour), or
    /// `None` when nothing floats.
    pub open spec fn pixels_spec(&self) -> Option<Seq<Color>> {
        match self.px {
            None => None,
            Some(p) => if (self.r.w, self.r.h) == self.src || self.src.0 == 0 || self.src.1 == 0 {
                Some(p@)
            } else {
                Some(remap_spec(Remap::Scale, p@, self.src.0 as int, self.src.1 as int, self.r.w as int, self.r.h as int))
            },
        }
    }

    /// The pixels at the size `r` has now.
    pub fn pixels(&self) -> (out: Option<Vec<Color>>)
        requires
            self.readable(),
        ensures
            out matches Some(v) ==> self.pixels_spec() == Some(v@),
            out is None <==> self.pixels_spec() is None,
    {
        let px = match &self.px {
            None => {
                return None;
            },
            Some(p) => p,
        };
        if self.r.w == self.src.0 && self.r.h == self.src.1 {
            return Some(dup(px.as_slice()));
        }
        let (sw, sh) = self.src;
        if sw == 0 || sh == 0 {
            return Some(dup(px.as_slice()));
        }
        if self.r.w == 0 || self.r.h == 0 {
            let e: Vec<Color> = Vec::new();
            proof {
                assert(self.r.w * self.r.h == 0) by (nonlinear_arith)
                    requires
                        self.r.w == 0 || self.r.h == 0,
                ;
                assert(e@ =~= remap_spec(Remap::Scale, px@, sw as int, sh as int, self.r.w as int, self.r.h as int));
            }
            return Some(e);
        }
        Some(remap(px.as_slice(), sw, sh, self.r.w, self.r.h, Remap::Scale))
    }
}

/// The document: what the tools work on.
pub struct Doc {
    pub canvas: Canvas,
    pub tool: Tool,
    pub brush: Brush,
    pub shape: Shape,
    pub outline: Stroke,
    pub fill_style: Stroke,
    pub select_mode: SelectMode,
    /// Paint's global toggle, not a property of each selection.
    pub transparent_selection: bool,
    pub color1: Color,
    pub color2: Color,
    pub sel: Option<Selection>,
    pub clipboard: Option<(usize, usize, Vec<Color>)>,
    /// Set while the right button draws: it swaps the two colors.
    pub swap: bool,
}

/// Two documents with the same settings: tool, brush, shape, styles,
/// selection mode and toggle, colors, clipboard and button.
pub open spec fn same_settings(a: Doc, b: Doc) -> bool {
    a.tool == b.tool && settings_but_tool(a, b)
}

/// Two documents whose settings agree, but maybe for the tool.
pub open spec fn settings_but_tool(a: Doc, b: Doc) -> bool {
    &&& a.brush == b.brush
    &&& a.shape == b.shape
    &&& a.outline == b.outline
    &&& a.fill_style == b.fill_style
    &&& a.select_mode == b.select_mode
    &&& a.transparent_selection == b.transparent_selection
    &&& a.color1 == b.color1
    &&& a.color2 == b.color2
    &&& a.clipboard == b.clipboard
    &&& a.swapped() == b.swapped()
}

/// `c1` is `c0` after `src` went down into `r` as one history step,
/// continuing an open stroke. With a `key`, the pixels of that color are
/// skipped, and a put that writes nothing marks nothing.
pub open spec fn put_down_spec(c0: Canvas, c1: Canvas, r: Rect, src: Seq<Color>, key: Option<Color>) -> bool {
    let w = c0.width();
    let h = c0.height();
    match key {
        None => stroke_step(c0, c1, blit_spec(c0.image(), w, r, src), Some(r), true),
        Some(k) => if exists|x: int, y: int| #[trigger] keyed_hit(w, h, r, src, k, x, y) {
            exists|b: Rect| #[trigger] hit_box(w, h, r, src, k, b)
                && stroke_step(c0, c1, keyed_spec(c0.image(), w, h, r, src, k), Some(b), true)
        } else {
            stroke_step(c0, c1, c0.image(), None, true)
        },
    }
}

/// Puts `src` down into `r`, in the open stroke or in a new one, and closes
/// the stroke.
fn put_down(c: &mut Canvas, r: Rect, src: &[Color], key: Option<Color>)
    requires
        old(c).wf(),
        r.x + r.w <= usize::MAX,
        r.y + r.h <= usize::MAX,
        r.w * r.h <= src@.len(),
    ensures
        put_down_spec(*old(c), *final(c), r, src@, key),
{
    let ghost c0 = *c;
    if !c.stroke_open() {
        c.begin_stroke();
    }
    let ghost c1 = *c;
    let ghost w = c0.width();
    let ghost h = c0.height();
    match key {
        Some(k) => {
            c.put_region_keyed(r, src, k);
            let ghost c2 = *c;
            c.end_stroke();
            proof {
                if exists|x: int, y: int| #[trigger] keyed_hit(w, h, r, src@, k, x, y) {
                    crate::canvas::lemma_keeps_history(c2, c1);
                    let b = choose|b: Rect| #[trigger] hit_box(w, h, r, src@, k, b)
                        && c2.dirty_spec() == crate::canvas::mark_spec(c1.dirty_spec(), b, w, h)
                        && c2.upload_spec() == crate::canvas::mark_spec(c1.upload_spec(), b, w, h);
                    crate::grid::lemma_hit_box_fits(w, h, r, src@, k, b);
                    crate::canvas::lemma_clip_fits(b, w, h);
                    assert(b.w * b.h != 0) by (nonlinear_arith)
                        requires
                            b.w >= 1,
                            b.h >= 1,
                    ;
                    lemma_stroke_step(c0, c1, c2, *c, keyed_spec(c0.image(), w, h, r, src@, k), Some(b), true);
                } else {
                    crate::canvas::lemma_same_is_unchanged(c2, c1);
                    lemma_stroke_step(c0, c1, c2, *c, c0.image(), None, true);
                }
            }
        },
        None => {
            c.put_region(r, src);
            let ghost c2 = *c;
            c.end_stroke();
            proof {
                crate::canvas::lemma_keeps_history(c2, c1);
                lemma_stroke_step(c0, c1, c2, *c, blit_spec(c0.image(), w, r, src@), Some(r), true);
            }
        },
    }
}

/// `d1` is `d0` after `commit_selection`: the selection is gone, and if it
/// floated its pixels, at the size of its rectangle, went down onto the
/// canvas in the same history step that lifted them (a new one if none is
/// open). A transparent selection skips the pixels of color 2.
pub open spec fn committed(d0: Doc, d1: Doc) -> bool {
    let c0 = d0.canvas;
    let w = c0.width();
    let h = c0.height();
    &&& d1.wf()
    &&& d1.sel is None
    &&& same_settings(d0, d1)
    &&& match d0.sel {
        Some(s) => match s.pixels_spec() {
            Some(pix) => put_down_spec(c0, d1.canvas, s.r, pix, if d0.transparent_selection { Some(d0.color2) } else { None }),
            None => same_canvas(d1.canvas, c0),
        },
        None => same_canvas(d1.canvas, c0),
    }
}

/// The lasso mask as plain flags.
pub open spec fn mask_view(inside: Option<Vec<bool>>) -> Option<Seq<bool>> {
    match inside {
        Some(m) => Some(m@),
        None => None,
    }
}

/// Lifted pixels: the ones outside the lasso turn into `bg`.
pub open spec fn masked(px: Seq<Color>, inside: Option<Seq<bool>>, bg: Color) -> Seq<Color> {
    match inside {
        None => px,
        Some(m) => Seq::new(px.len(), |k: int| if m[k] { px[k] } else { bg }),
    }
}

/// `d1` is `d0` after `lift`: a selection that did not float takes its
/// pixels off the canvas (outside the lasso they float as the background
/// color) and leaves the background color in their place.
pub open spec fn lifted(d0: Doc, d1: Doc, inside: Option<Seq<bool>>) -> bool {
    let c0 = d0.canvas;
    let w = c0.width();
    &&& d1.wf()
    &&& same_settings(d0, d1)
    &&& match d0.sel {
        Some(s) => if s.px is None {
            &&& match d1.sel {
                Some(t) => t.r == s.r && t.src == (s.r.w, s.r.h) && match t.px {
                    Some(p) => p@ == masked(extract_spec(c0.image(), w, s.r), inside, d0.bg_spec()),
                    None => false,
                },
                None => false,
            }
            &&& changed(c0, d1.canvas, map_rect(c0.image(), w, s.r, RectOp::Paint(d0.bg_spec())), Some(s.r))
        } else {
            d1.sel == d0.sel && d1.canvas == c0
        },
        None => d1.sel is None && d1.canvas == c0,
    }
}

/// What copying the selection puts on the clipboard: the floating pixels
/// at the selection's size, or the canvas under it.
pub open spec fn copied_pixels(d: Doc, s: Selection) -> Seq<Color> {
    match s.pixels_spec() {
        Some(p) => p,
        None => extract_spec(d.canvas.image(), d.canvas.width(), s.r),
    }
}

/// `d1` is `d0` after `copy_selection`.
pub open spec fn copied(d0: Doc, d1: Doc) -> bool {
    &&& d1.wf()
    &&& d1.canvas == d0.canvas
    &&& d1.sel == d0.sel
    &&& d1.tool == d0.tool
    &&& d1.brush == d0.brush
    &&& d1.shape == d0.shape
    &&& d1.outline == d0.outline
    &&& d1.fill_style == d0.fill_style
    &&& d1.select_mode == d0.select_mode
    &&& d1.color1 == d0.color1
    &&& d1.color2 == d0.color2
    &&& d1.transparent_selection == d0.transparent_selection
    &&& d1.swapped() == d0.swapped()
    &&& match d0.sel {
        Some(s) => match d1.clipboard {
            Some(c) => c.0 == s.r.w && c.1 == s.r.h && c.2@ == copied_pixels(d0, s),
            None => false,
        },
        None => d1.clipboard == d0.clipboard,
    }
}

/// `d1` is `d0` after `delete_selection`: the selection is gone, and one
/// history step paints a selection that did not float with color 2 (a
/// floating one was already taken off the canvas).
pub open spec fn deleted(d0: Doc, d1: Doc) -> bool {
    let c0 = d0.canvas;
    match d0.sel {
        Some(s) => {
            &&& d1.wf()
            &&& d1.sel is None
            &&& same_settings(d0, d1)
            &&& if s.px is Some {
                stroke_step(c0, d1.canvas, c0.image(), None, false)
            } else {
                stroke_step(c0, d1.canvas, map_rect(c0.image(), c0.width(), s.r, RectOp::Paint(d0.color2)), Some(s.r), false)
            }
        },
        None => d1.wf() && d1.sel is None && same_settings(d0, d1) && d1.canvas == c0,
    }
}

/// Whether the canvas grown to hold a `w` x `h` image still fits in memory:
/// each axis becomes the larger of the canvas's and the image's.
pub open spec fn paste_fits(c: Canvas, w: int, h: int) -> bool {
    4 * (max_int(w, c.width()) * max_int(h, c.height())) <= isize::MAX
}

/// `c1` is `c0` grown to `w` x `h`: the same canvas when the size already
/// is that, else the old pixels at the top left, `bg` in the new area, and
/// a history that starts over.
pub open spec fn grown(c0: Canvas, c1: Canvas, w: int, h: int, bg: Color) -> bool {
    if w == c0.width() && h == c0.height() {
        c1 == c0
    } else {
        &&& c1.wf()
        &&& c1.width() == w
        &&& c1.height() == h
        &&& c1.image() == remap_spec(Remap::Resize(bg), c0.image(), c0.width(), c0.height(), w, h)
        &&& c1.undo_spec().len() == 0
        &&& c1.redo_spec().len() == 0
        &&& !c1.stroke_spec()
        &&& c1.file_dirty()
    }
}

/// The floating selection that pasting a `w` x `h` image makes: the whole
/// image, at the origin, at its own size.
pub open spec fn paste_selection(s: Selection, w: usize, h: usize, px: Seq<Color>) -> bool {
    &&& s.r == Rect { x: 0, y: 0, w, h }
    &&& s.src == (w, h)
    &&& match s.px {
        Some(p) => p@ == px,
        None => false,
    }
}

/// `d1` is `d0` after `paste(w, h, px)`. A size that does not match the
/// pixels, or a grown canvas that would not fit in memory, changes nothing.
/// Otherwise the selection is committed, each axis of the canvas grows to
/// the image's when the image needs it (never shrinking; the new area gets
/// color 2), and the whole image floats at the origin, with Select as the
/// tool.
pub open spec fn pasted(d0: Doc, d1: Doc, w: usize, h: usize, px: Seq<Color>) -> bool {
    if w == 0 || h == 0 || px.len() != w * h || !paste_fits(d0.canvas, w as int, h as int) {
        d1 == d0
    } else {
        exists|mid: Doc| #[trigger] committed(d0, mid) && {
            let nw = max_int(w as int, mid.canvas.width());
            let nh = max_int(h as int, mid.canvas.height());
            &&& d1.wf()
            &&& grown(mid.canvas, d1.canvas, nw, nh, mid.color2)
            &&& d1.tool == Tool::Select
            &&& settings_but_tool(mid, d1)
            &&& match d1.sel {
                Some(s) => paste_selection(s, w, h, px),
                None => false,
            }
        }
    }
}

/// Two documents whose settings agree, but maybe for the two colors.
pub open spec fn settings_but_colors(a: Doc, b: Doc) -> bool {
    &&& a.tool == b.tool
    &&& a.brush == b.brush
    &&& a.shape == b.shape
    &&& a.outline == b.outline
    &&& a.fill_style == b.fill_style
    &&& a.select_mode == b.select_mode
    &&& a.transparent_selection == b.transparent_selection
    &&& a.clipboard == b.clipboard
    &&& a.swapped() == b.swapped()
}

/// The square the selective eraser works in: half-side `r` around
/// `(cx, cy)`, cut at the top and left edges of the canvas.
pub open spec fn eraser_square(cx: int, cy: int, r: int) -> Rect {
    Rect {
        x: (if cx >= r { cx - r } else { 0 }) as usize,
        y: (if cy >= r { cy - r } else { 0 }) as usize,
        w: (2 * r + 1) as usize,
        h: (2 * r + 1) as usize,
    }
}

/// `d1` is `d0` after `crop_to_selection`.
pub open spec fn cropped(d0: Doc, d1: Doc) -> bool {
    match d0.sel {
        None => d1 == d0,
        Some(s) => exists|mid: Doc| #[trigger] committed(d0, mid) && d1.sel is None
            && same_settings(mid, d1) && {
            let c = mid.canvas;
            let r = crop_rect(s.r, c.width(), c.height());
            if r.w * r.h == 0 {
                d1.canvas == c
            } else {
                let f = d1.canvas;
                &&& f.width() == r.w
                &&& f.height() == r.h
                &&& f.image() == extract_spec(c.image(), c.width(), r)
                &&& f.undo_spec().len() == 0
                &&& f.redo_spec().len() == 0
                &&& !f.stroke_spec()
                &&& f.dirty_spec() is None
                &&& f.upload_spec() == Some(whole(f))
                &&& f.file_dirty()
            }
        },
    }
}

/// The canvas of `d1` is that of `d0` after the selective eraser at
/// `(cx, cy)` with half-side `r`.
pub open spec fn erased(d0: Doc, d1: Doc, cx: int, cy: int, r: int) -> bool {
    let c0 = d0.canvas;
    let w = c0.width();
    let h = c0.height();
    let sq = eraser_square(cx, cy, r);
    let rc = crate::grid::clip_spec(sq, w, h);
    let from = d0.color1;
    let to = d0.color2;
    if from != to && exists|x: int, y: int| crate::grid::in_rect(rc, x, y) && #[trigger] at(c0.image(), w, x, y) == from {
        changed(c0, d1.canvas, map_rect(c0.image(), w, rc, RectOp::Replace(from, to)), Some(sq))
    } else {
        same_canvas(d1.canvas, c0)
    }
}

/// The whole canvas as a rectangle.
pub open spec fn whole(c: Canvas) -> Rect {
    Rect { x: 0, y: 0, w: c.width() as usize, h: c.height() as usize }
}

/// What `invert_selection_colors` inverts: the selection's part on the
/// canvas, or the whole canvas when nothing is selected.
pub open spec fn invert_target(d: Doc) -> Rect {
    match d.sel {
        Some(s) => clip_spec(s.r, d.canvas.width(), d.canvas.height()),
        None => whole(d.canvas),
    }
}

/// The rectangle `crop_to_selection` keeps of `r`: its part on the canvas.
pub open spec fn crop_rect(r: Rect, w: int, h: int) -> Rect {
    let x = min_int(r.x as int, w);
    let y = min_int(r.y as int, h);
    Rect { x: x as usize, y: y as usize, w: min_int(r.w as int, w - x) as usize, h: min_int(r.h as int, h - y) as usize }
}

impl Doc {
    pub open spec fn swapped(&self) -> bool {
        self.swap
    }

    /// The invariant: a sound canvas, a selection that agrees with its
    /// pixels (and lies on the canvas while it does not float), and a
    /// clipboard whose pixels fill its size.
    pub open spec fn wf(&self) -> bool {
        &&& self.canvas.wf()
        &&& (self.sel matches Some(s) ==> s.wf() && (s.px is None ==> fits(s.r, self.canvas.width(), self.canvas.height())))
        &&& (self.clipboard matches Some(c) ==> c.2@.len() == c.0 * c.1)
    }

    /// The drawing color: color 1, or color 2 under the right button.
    pub open spec fn fg_spec(&self) -> Color {
        if self.swapped() { self.color2 } else { self.color1 }
    }

    /// The other color: the eraser's, and what a moved selection leaves.
    pub open spec fn bg_spec(&self) -> Color {
        if self.swapped() { self.color1 } else { self.color2 }
    }

    /// A white `w` x `h` document with the pencil, black on white.
    pub fn new(w: usize, h: usize) -> (d: Doc)
        requires
            w > 0,
            h > 0,
            4 * (w * h) <= isize::MAX,
        ensures
            d.wf(),
            d.canvas.width() == w,
            d.canvas.height() == h,
            d.canvas.image() == crate::canvas::solid(w as int, h as int, crate::color::opaque(255, 255, 255)),
            d.canvas.undo_spec().len() == 0,
            d.canvas.redo_spec().len() == 0,
            !d.canvas.stroke_spec(),
            !d.canvas.file_dirty(),
            d.tool == Tool::Pencil,
            d.brush == Brush::Round,
            d.shape == Shape::Line,
            d.outline == Stroke::Solid,
            d.fill_style == Stroke::Empty,
            d.select_mode == SelectMode::Rectangular,
            !d.transparent_selection,
            d.color1 == crate::color::opaque(0, 0, 0),
            d.color2 == crate::color::opaque(255, 255, 255),
            d.sel is None,
            d.clipboard is None,
            !d.swapped(),
    {
        Doc {
            canvas: Canvas::new(w, h),
            tool: Tool::Pencil,
            brush: Brush::Round,
            shape: Shape::Line,
            outline: Stroke::Solid,
            fill_style: Stroke::Empty,
            select_mode: SelectMode::Rectangular,
            transparent_selection: false,
            color1: Color::black(),
            color2: Color::white(),
            sel: None,
            clipboard: None,
            swap: false,
        }
    }

    /// The drawing color, with the button in use.
    pub fn fg(&self) -> (c: Color)
        ensures
            c == self.fg_spec(),
    {
        if self.swap { self.color2 } else { self.color1 }
    }

    /// The other color.
    pub fn bg(&self) -> (c: Color)
        ensures
            c == self.bg_spec(),
    {
        if self.swap { self.color1 } else { self.color2 }
    }

    /// Records which button is down: the right one swaps the colors.
    pub fn set_swap(&mut self, right: bool)
        ensures
            *final(self) == (Doc { swap: right, ..*old(self) }),
    {
        self.swap = right;
    }

    /// Puts the floating selection down on the canvas. Idempotent: with no
    /// selection nothing happens.
    pub fn commit_selection(&mut self)
        requires
            old(self).wf(),
        ensures
            committed(*old(self), *final(self)),
    {
        let ghost d0 = *self;
        let sel = match self.sel.take() {
            None => {
                return;
            },
            Some(s) => s,
        };
        let px = match sel.pixels() {
            None => {
                return;
            },
            Some(p) => p,
        };
        proof {
            assert(sel.r.w * sel.r.h <= px@.len()) by (nonlinear_arith)
                requires
                    sel.wf(),
                    sel.px is Some,
                    px@.len() == if (sel.r.w, sel.r.h) == sel.src || sel.src.0 == 0 || sel.src.1 == 0 {
                        sel.src.0 * sel.src.1
                    } else {
                        sel.r.w * sel.r.h
                    },
            ;
        }
        let key = if self.transparent_selection { Some(self.color2) } else { None };
        put_down(&mut self.canvas, sel.r, px.as_slice(), key);
        proof {
            assert(d0.sel == Some(sel));
        }
    }

    /// Takes the selection's pixels off the canvas so they float with it;
    /// what they covered gets the background color. A free-form selection
    /// passes `inside`, one flag per pixel of its rectangle, row by row.
    pub fn lift(&mut self, inside: Option<Vec<bool>>)
        requires
            old(self).wf(),
            match old(self).sel {
                Some(s) => s.px is None ==> (inside matches Some(m) ==> m@.len() == s.r.w * s.r.h),
                None => true,
            },
        ensures
            lifted(*old(self), *final(self), mask_view(inside)),
    {
        let r = match &self.sel {
            None => {
                return;
            },
            Some(s) => {
                if s.px.is_some() {
                    return;
                }
                s.r
            },
        };
        let ghost c0 = self.canvas;
        let ghost w = c0.width();
        let ghost h = c0.height();
        let mut px = self.canvas.region(r);
        let ghost region = px@;
        let bg = self.bg();
        match &inside {
            Some(m) => {
                let mut k: usize = 0;
                while k < px.len()
                    invariant
                        k <= px@.len(),
                        px@.len() == region.len(),
                        m@.len() == region.len(),
                        forall|j: int| 0 <= j < px@.len() ==> #[trigger] px@[j] == if j < k && !m@[j] {
                            bg
                        } else {
                            region[j]
                        },
                    decreases px@.len() - k,
                {
                    if !m[k] {
                        px.set(k, bg);
                    }
                    k += 1;
                }
                assert(px@ =~= masked(region, mask_view(inside), bg));
            },
            None => {},
        }
        proof {
            assert(r.w * r.h <= w * h) by (nonlinear_arith)
                requires
                    r.w <= w,
                    r.h <= h,
            ;
        }
        self.sel = Some(Selection { r, px: Some(px), src: (r.w, r.h) });
        self.canvas.clear_region(r, bg);
        proof {
            crate::canvas::lemma_clip_fits(r, w, h);
            crate::canvas::lemma_keeps_history(self.canvas, c0);
        }
    }

    /// Puts the selection's pixels on the clipboard.
    pub fn copy_selection(&mut self)
        requires
            old(self).wf(),
        ensures
            copied(*old(self), *final(self)),
    {
        let (r, floating) = match &self.sel {
            None => {
                return;
            },
            Some(s) => (s.r, s.pixels()),
        };
        let px = match floating {
            Some(p) => p,
            None => self.canvas.region(r),
        };
        proof {
            let s = self.sel->0;
            assert(px@.len() == r.w * r.h) by {
                if s.px is Some {
                    assert(r.w * r.h >= 0);
                    assert(s.pixels_spec() == Some(px@));
                    if (s.r.w, s.r.h) == s.src || s.src.0 == 0 || s.src.1 == 0 {
                        assert((s.r.w, s.r.h) == s.src);
                    }
                }
            }
        }
        self.clipboard = Some((r.w, r.h, px));
    }

    /// Removes the selection; one that did not float leaves color 2.
    pub fn delete_selection(&mut self)
        requires
            old(self).wf(),
        ensures
            deleted(*old(self), *final(self)),
    {
        let (r, floating) = match &self.sel {
            None => {
                return;
            },
            Some(s) => (s.r, s.px.is_some()),
        };
        let ghost c0 = self.canvas;
        let ghost w = c0.width();
        let ghost h = c0.height();
        self.canvas.begin_stroke();
        let ghost c1 = self.canvas;
        if !floating {
            self.canvas.clear_region(r, self.color2);
            proof {
                crate::canvas::lemma_clip_fits(r, w, h);
                crate::canvas::lemma_keeps_history(self.canvas, c1);
            }
        }
        let ghost c2 = self.canvas;
        self.canvas.end_stroke();
        self.sel = None;
        proof {
            if floating {
                lemma_stroke_step(c0, c1, c2, self.canvas, c0.image(), None, false);
            } else {
                lemma_stroke_step(c0, c1, c2, self.canvas, map_rect(c0.image(), w, r, RectOp::Paint(old(self).color2)), Some(r), false);
            }
        }
    }

    /// Copy, then delete.
    pub fn cut_selection(&mut self)
        requires
            old(self).wf(),
        ensures
            exists|mid: Doc| copied(*old(self), mid) && deleted(mid, *final(self)),
    {
        self.copy_selection();
        let ghost mid = *self;
        self.delete_selection();
    }

    /// Pasting is making a floating selection at the origin: the same
    /// machinery the Select tool uses. The canvas grows on each axis where
    /// the image is larger, and is never reduced; the image floats whole. A
    /// size that does not match the pixels is ignored, and so is an image
    /// whose grown canvas would not fit in memory.
    pub fn paste(&mut self, w: usize, h: usize, px: Vec<Color>)
        requires
            old(self).wf(),
        ensures
            pasted(*old(self), *final(self), w, h, px@),
    {
        if w == 0 || h == 0 {
            return;
        }
        let n_px = px.len();
        match w.checked_mul(h) {
            None => {
                proof {
                    assert(px@.len() == n_px);
                }
                return;
            },
            Some(n) => {
                if n_px != n {
                    return;
                }
            },
        }
        let (cw0, ch0) = self.canvas.size();
        let nw = if w > cw0 { w } else { cw0 };
        let nh = if h > ch0 { h } else { ch0 };
        match nw.checked_mul(nh) {
            None => {
                return;
            },
            Some(a) => {
                if a > (isize::MAX as usize) / 4 {
                    return;
                }
            },
        }
        self.commit_selection();
        let ghost mid = *self;
        proof {
            crate::canvas::lemma_wf_size(self.canvas);
        }
        self.tool = Tool::Select;
        if nw != cw0 || nh != ch0 {
            let bg = self.color2;
            self.canvas.resize_canvas(nw, nh, bg);
        }
        self.sel = Some(Selection { r: Rect::new(0, 0, w, h), px: Some(px), src: (w, h) });
        proof {
            assert(committed(*old(self), mid));
        }
    }

    /// Pastes what `copy_selection` put on the clipboard.
    pub fn paste_from_clipboard(&mut self)
        requires
            old(self).wf(),
        ensures
            match old(self).clipboard {
                Some(c) => pasted(*old(self), *final(self), c.0, c.1, c.2@),
                None => *final(self) == *old(self),
            },
    {
        let (w, h, px) = match &self.clipboard {
            None => {
                return;
            },
            Some(c) => (c.0, c.1, dup(c.2.as_slice())),
        };
        self.paste(w, h, px);
    }

    /// Selects the whole canvas, with Select as the tool.
    pub fn select_all(&mut self)
        requires
            old(self).wf(),
        ensures
            exists|mid: Doc| #[trigger] committed(*old(self), mid) && final(self).canvas == mid.canvas
                && settings_but_tool(mid, *final(self)) && final(self).tool == Tool::Select
                && final(self).sel == Some(Selection { r: whole(mid.canvas), px: None, src: (mid.canvas.width() as usize, mid.canvas.height() as usize) }),
            final(self).wf(),
    {
        self.commit_selection();
        let ghost mid = *self;
        self.tool = Tool::Select;
        let (w, h) = self.canvas.size();
        self.sel = Some(Selection { r: Rect::new(0, 0, w, h), px: None, src: (w, h) });
        proof {
            crate::canvas::lemma_wf_size(self.canvas);
            assert(committed(*old(self), mid));
        }
    }

    /// Changes the tool. Leaving a tool puts a floating selection down.
    pub fn set_tool(&mut self, t: Tool)
        requires
            old(self).wf(),
        ensures
            final(self).wf(),
            old(self).tool == t ==> *final(self) == *old(self),
            old(self).tool != t ==> exists|mid: Doc| #[trigger] committed(*old(self), mid) && final(self).canvas == mid.canvas
                && final(self).sel is None && settings_but_tool(mid, *final(self)) && final(self).tool == t,
    {
        if self.tool != t {
            self.commit_selection();
            let ghost mid = *self;
            self.tool = t;
            proof {
                assert(committed(*old(self), mid));
            }
        }
    }

    /// Inverts the colors of the selection, or of the whole canvas when
    /// nothing is selected, as one history step. The selection is put down
    /// first and its part on the canvas is what gets inverted.
    pub fn invert_selection_colors(&mut self)
        requires
            old(self).wf(),
        ensures
            final(self).wf(),
            exists|mid: Doc| #[trigger] committed(*old(self), mid) && final(self).sel is None
                && same_settings(mid, *final(self))
                && stroke_step(mid.canvas, final(self).canvas,
                    map_rect(mid.canvas.image(), mid.canvas.width(), invert_target(*old(self)), RectOp::Invert),
                    Some(invert_target(*old(self))), false),
    {
        let (w, h) = self.canvas.size();
        let r = match &self.sel {
            Some(s) => clip(s.r, w, h),
            None => Rect::new(0, 0, w, h),
        };
        self.commit_selection();
        let ghost mid = *self;
        let ghost c0 = self.canvas;
        self.canvas.begin_stroke();
        let ghost c1 = self.canvas;
        self.canvas.invert_region(r);
        let ghost c2 = self.canvas;
        self.canvas.end_stroke();
        proof {
            crate::canvas::lemma_wf_size(c0);
            crate::canvas::lemma_clip_fits(r, w as int, h as int);
            crate::canvas::lemma_keeps_history(c2, c1);
            lemma_stroke_step(c0, c1, c2, self.canvas, map_rect(c0.image(), w as int, r, RectOp::Invert), Some(r), false);
            assert(committed(*old(self), mid));
        }
    }

    /// Makes the canvas the part of the selection that lies on it. The
    /// selection is put down first; an empty part leaves the canvas as it is.
    pub fn crop_to_selection(&mut self)
        requires
            old(self).wf(),
        ensures
            final(self).wf(),
            cropped(*old(self), *final(self)),
    {
        let r0 = match &self.sel {
            None => {
                return;
            },
            Some(s) => s.r,
        };
        self.commit_selection();
        let ghost mid = *self;
        proof {
            crate::canvas::lemma_wf_size(self.canvas);
        }
        let (w, h) = self.canvas.size();
        let x = if r0.x < w { r0.x } else { w };
        let y = if r0.y < h { r0.y } else { h };
        let rw = if r0.w < w - x { r0.w } else { w - x };
        let rh = if r0.h < h - y { r0.h } else { h - y };
        let r = Rect::new(x, y, rw, rh);
        proof {
            assert(rw * rh <= w * h) by (nonlinear_arith)
                requires
                    rw <= w,
                    rh <= h,
            ;
        }
        if rw * rh == 0 {
            proof {
                assert(committed(*old(self), mid));
            }
            return;
        }
        let px = self.canvas.region(r);
        proof {
            assert(rw * rh > 0);
            assert(rw > 0 && rh > 0) by (nonlinear_arith)
                requires
                    rw * rh > 0,
            ;
        }
        self.canvas.load(rw, rh, px);
        proof {
            crate::canvas::lemma_wf_size(self.canvas);
        }
        self.canvas.set_dirty_file(true);
        self.sel = None;
        proof {
            crate::canvas::lemma_wf_size(self.canvas);
            assert(committed(*old(self), mid));
            assert(r0 == old(self).sel->0.r);
        }
    }

    /// The color picker: takes the color under `(x, y)` as color 1, or as
    /// color 2 with the right button. Off the canvas nothing changes.
    pub fn pick(&mut self, x: i32, y: i32, right: bool)
        requires
            old(self).wf(),
        ensures
            final(self).wf(),
            final(self).canvas == old(self).canvas,
            final(self).sel == old(self).sel,
            settings_but_colors(*old(self), *final(self)),
            if 0 <= x < old(self).canvas.width() && 0 <= y < old(self).canvas.height() {
                let c = at(old(self).canvas.image(), old(self).canvas.width(), x as int, y as int);
                if right {
                    final(self).color2 == c && final(self).color1 == old(self).color1
                } else {
                    final(self).color1 == c && final(self).color2 == old(self).color2
                }
            } else {
                final(self).color1 == old(self).color1 && final(self).color2 == old(self).color2
            },
    {
        match self.canvas.geti(x, y) {
            Some(c) => {
                if right {
                    self.color2 = c;
                } else {
                    self.color1 = c;
                }
            },
            None => {},
        }
    }

    /// The paint bucket at `(x, y)`, with the drawing color, as one history
    /// step. The selection is put down first.
    pub fn fill_at(&mut self, x: i32, y: i32)
        requires
            old(self).wf(),
        ensures
            final(self).wf(),
            exists|mid: Doc| #[trigger] committed(*old(self), mid) && final(self).sel is None
                && same_settings(mid, *final(self)) && {
                let c = mid.canvas;
                let w = c.width();
                let h = c.height();
                let fg = mid.fg_spec();
                if 0 <= x < w && 0 <= y < h && at(c.image(), w, x as int, y as int) != fg {
                    exists|r: Rect| #[trigger] bounds(c.image(), w, h, (x as int, y as int), r)
                        && stroke_step(c, final(self).canvas, flood_spec(c.image(), w, h, (x as int, y as int), fg), Some(r), false)
                } else {
                    stroke_step(c, final(self).canvas, c.image(), None, false)
                }
            },
    {
        self.commit_selection();
        let ghost mid = *self;
        let ghost c0 = self.canvas;
        let ghost w = c0.width();
        let ghost h = c0.height();
        self.canvas.begin_stroke();
        let ghost c1 = self.canvas;
        let fg = self.fg();
        self.canvas.fill(x, y, fg);
        let ghost c2 = self.canvas;
        self.canvas.end_stroke();
        proof {
            if 0 <= x < w && 0 <= y < h && at(c1.image(), w, x as int, y as int) != fg {
                crate::canvas::lemma_keeps_history(c2, c1);
                let r = choose|r: Rect| #[trigger] bounds(c1.image(), w, h, (x as int, y as int), r)
                    && c2.dirty_spec() == crate::canvas::mark_spec(c1.dirty_spec(), r, w, h)
                    && c2.upload_spec() == crate::canvas::mark_spec(c1.upload_spec(), r, w, h);
                crate::fill::lemma_bounds_fits(c1.image(), w, h, (x as int, y as int), r);
                crate::canvas::lemma_clip_fits(r, w, h);
                assert(r.w * r.h != 0) by (nonlinear_arith)
                    requires
                        r.w >= 1,
                        r.h >= 1,
                ;
                lemma_stroke_step(c0, c1, c2, self.canvas, flood_spec(c0.image(), w, h, (x as int, y as int), fg), Some(r), false);
            } else {
                crate::canvas::lemma_same_is_unchanged(c2, c1);
                lemma_stroke_step(c0, c1, c2, self.canvas, c0.image(), None, false);
            }
            assert(committed(*old(self), mid));
        }
    }

    /// The selective eraser of the right button: inside the square of
    /// half-side `r` around `(cx, cy)`, color 1 becomes color 2.
    pub fn erase_selective(&mut self, cx: usize, cy: usize, r: usize)
        requires
            old(self).wf(),
            cx + r + 1 <= usize::MAX,
            cy + r + 1 <= usize::MAX,
            2 * r + 1 <= usize::MAX,
        ensures
            final(self).wf(),
            final(self).sel == old(self).sel,
            same_settings(*old(self), *final(self)),
            erased(*old(self), *final(self), cx as int, cy as int, r as int),
            old(self).canvas.stroke_consistent() ==> final(self).canvas.stroke_consistent(),
    {
        let x0 = if cx >= r { cx - r } else { 0 };
        let y0 = if cy >= r { cy - r } else { 0 };
        let rect = Rect::new(x0, y0, r * 2 + 1, r * 2 + 1);
        let (from, to) = (self.color1, self.color2);
        let ghost c0 = self.canvas;
        self.canvas.replace_color_in(rect, from, to);
        proof {
            let from = old(self).color1;
            let to = old(self).color2;
            let w = c0.width();
            let h = c0.height();
            let rc = crate::grid::clip_spec(rect, w, h);
            if from != to && exists|x: int, y: int| crate::grid::in_rect(rc, x, y) && #[trigger] at(c0.image(), w, x, y) == from {
                crate::canvas::lemma_keeps_history(self.canvas, c0);
            }
        }
    }

    /// A click without a drag selects nothing: a selection narrower or
    /// lower than two pixels is dropped.
    pub fn drop_tiny_selection(&mut self)
        requires
            old(self).wf(),
        ensures
            final(self).wf(),
            final(self).canvas == old(self).canvas,
            same_settings(*old(self), *final(self)),
            match old(self).sel {
                Some(s) => if s.r.w < 2 || s.r.h < 2 { final(self).sel is None } else { final(self).sel == old(self).sel },
                None => final(self).sel is None,
            },
    {
        let tiny = match &self.sel {
            Some(s) => s.r.w < 2 || s.r.h < 2,
            None => false,
        };
        if tiny {
            self.sel = None;
        }
    }
}

/// A put-down is a `stroke_step` that continues the open stroke.
proof fn lemma_put_down_step(c0: Canvas, c1: Canvas, r: Rect, src: Seq<Color>, key: Option<Color>)
    requires
        put_down_spec(c0, c1, r, src, key),
    ensures
        exists|image: Seq<Color>, m: Option<Rect>| #[trigger] stroke_step(c0, c1, image, m, true)
            && (c0.stroke_spec() && c0.dirty_spec() is Some ==> crate::canvas::marked(c0.dirty_spec(), m, c0.width(), c0.height()) is Some),
{
    let w = c0.width();
    let h = c0.height();
    match key {
        None => {
            let image = blit_spec(c0.image(), w, r, src);
            assert(stroke_step(c0, c1, image, Some(r), true));
        },
        Some(k) => {
            if exists|x: int, y: int| #[trigger] keyed_hit(w, h, r, src, k, x, y) {
                let b = choose|b: Rect| #[trigger] hit_box(w, h, r, src, k, b)
                    && stroke_step(c0, c1, keyed_spec(c0.image(), w, h, r, src, k), Some(b), true);
                let image = keyed_spec(c0.image(), w, h, r, src, k);
                assert(stroke_step(c0, c1, image, Some(b), true));
            } else {
                assert(stroke_step(c0, c1, c0.image(), None, true));
            }
        },
    }
}

/// Cropping to a selection that lies on the canvas (and is not empty) makes
/// the canvas exactly the selection's size, holding the pixels that were
/// under it once the selection was put down: pixel (x, y) of the result is
/// the one at (r.x + x, r.y + y).
pub proof fn law_crop_keeps_what_is_selected(d0: Doc, d1: Doc)
    requires
        d0.wf(),
        cropped(d0, d1),
        d0.sel matches Some(s) && fits(s.r, d0.canvas.width(), d0.canvas.height()) && s.r.w > 0 && s.r.h > 0,
    ensures
        d1.canvas.width() == d0.sel->0.r.w,
        d1.canvas.height() == d0.sel->0.r.h,
        exists|mid: Doc| #[trigger] committed(d0, mid) && mid.canvas.width() == d0.canvas.width()
            && forall|x: int, y: int| 0 <= x < d0.sel->0.r.w && 0 <= y < d0.sel->0.r.h ==>
                #[trigger] at(d1.canvas.image(), d0.sel->0.r.w as int, x, y)
                    == at(mid.canvas.image(), d0.canvas.width(), d0.sel->0.r.x + x, d0.sel->0.r.y + y),
{
    let s = d0.sel->0;
    let r = s.r;
    let mid = choose|mid: Doc| #[trigger] committed(d0, mid) && d1.sel is None && same_settings(mid, d1) && {
        let c = mid.canvas;
        let r = crop_rect(s.r, c.width(), c.height());
        if r.w * r.h == 0 {
            d1.canvas == c
        } else {
            let f = d1.canvas;
            &&& f.width() == r.w
            &&& f.height() == r.h
            &&& f.image() == extract_spec(c.image(), c.width(), r)
            &&& f.undo_spec().len() == 0
            &&& f.redo_spec().len() == 0
            &&& !f.stroke_spec()
            &&& f.dirty_spec() is None
            &&& f.upload_spec() == Some(whole(f))
            &&& f.file_dirty()
        }
    };
    let c = mid.canvas;
    let w = c.width();
    assert(w == d0.canvas.width() && c.height() == d0.canvas.height());
    assert(crop_rect(r, w, c.height()) == r);
    assert(r.w * r.h != 0) by (nonlinear_arith)
        requires
            r.w > 0,
            r.h > 0,
    ;
    assert forall|x: int, y: int| 0 <= x < r.w && 0 <= y < r.h implies #[trigger] at(d1.canvas.image(), r.w as int, x, y)
        == at(c.image(), w, r.x + x, r.y + y) by {
        crate::grid::lemma_extract_at(c.image(), w, r, x, y);
    }
}

/// The selective eraser turns color 1 into color 2 in the square of
/// half-side `r` around `(cx, cy)`: every pixel of color 1 within that
/// distance becomes color 2, no other color changes, and (away from the top
/// and left edges, where the square is cut) nothing farther away changes.
pub proof fn law_eraser_takes_color_one_nearby(d0: Doc, d1: Doc, cx: int, cy: int, r: int)
    requires
        d0.wf(),
        erased(d0, d1, cx, cy, r),
        0 <= cx,
        0 <= cy,
        0 <= r,
        cx + r + 1 <= usize::MAX,
        cy + r + 1 <= usize::MAX,
        2 * r + 1 <= usize::MAX,
    ensures
        d1.canvas.width() == d0.canvas.width(),
        d1.canvas.height() == d0.canvas.height(),
        forall|x: int, y: int| 0 <= x < d0.canvas.width() && 0 <= y < d0.canvas.height() ==> {
            let c = at(d0.canvas.image(), d0.canvas.width(), x, y);
            let n = #[trigger] at(d1.canvas.image(), d0.canvas.width(), x, y);
            let near = cx - r <= x <= cx + r && cy - r <= y <= cy + r;
            &&& (c != d0.color1 ==> n == c)
            &&& (near && c == d0.color1 ==> n == d0.color2)
            &&& (cx >= r && cy >= r && !near ==> n == c)
        },
{
    let c0 = d0.canvas;
    let w = c0.width();
    let h = c0.height();
    crate::canvas::lemma_wf_size(c0);
    let sq = eraser_square(cx, cy, r);
    let rc = crate::grid::clip_spec(sq, w, h);
    let from = d0.color1;
    let to = d0.color2;
    assert(w <= w * h && h <= w * h) by (nonlinear_arith)
        requires
            w > 0,
            h > 0,
    ;
    crate::canvas::lemma_clip_clip(sq, w, h);
    assert forall|x: int, y: int| 0 <= x < w && 0 <= y < h implies {
        let c = at(c0.image(), w, x, y);
        let n = #[trigger] at(d1.canvas.image(), w, x, y);
        let near = cx - r <= x <= cx + r && cy - r <= y <= cy + r;
        &&& (c != from ==> n == c)
        &&& (near && c == from ==> n == to)
        &&& (cx >= r && cy >= r && !near ==> n == c)
    } by {
        let near = cx - r <= x <= cx + r && cy - r <= y <= cy + r;
        assert(near ==> crate::grid::in_rect(sq, x, y));
        assert(cx >= r && cy >= r && crate::grid::in_rect(sq, x, y) ==> near);
        assert(crate::grid::in_rect(rc, x, y) == crate::grid::in_rect(sq, x, y));
        if from != to && exists|x: int, y: int| crate::grid::in_rect(rc, x, y) && #[trigger] at(c0.image(), w, x, y) == from {
            crate::canvas::lemma_map_rect_at(c0.image(), w, h, rc, RectOp::Replace(from, to), x, y);
        } else {
            if near && at(c0.image(), w, x, y) == from {
                assert(crate::grid::in_rect(rc, x, y));
            }
        }
    }
}

/// Putting a selection down twice is putting it down once: the second
/// commit finds no selection and changes nothing.
pub proof fn law_commit_idempotent(d0: Doc, d1: Doc, d2: Doc)
    requires
        d0.wf(),
        committed(d0, d1),
        committed(d1, d2),
    ensures
        same_canvas(d2.canvas, d1.canvas),
        d2.sel is None,
        same_settings(d1, d2),
{
}

/// Grabbing a selection, moving or stretching it and putting it down is one
/// step of the history: exactly one entry is added to the undo list as it
/// was when the grab opened its stroke, the redo list is cleared, and one
/// undo gives back the picture from before the grab. `d1` is `d0` with the
/// grab's stroke opened, `d2` after `lift`, `d3` after the selection's
/// rectangle was changed, `d4` after the commit, `c5` after one undo.
pub proof fn law_move_is_one_step(d0: Doc, d1: Doc, d2: Doc, d3: Doc, d4: Doc, c5: Canvas, inside: Option<Seq<bool>>)
    requires
        d0.wf(),
        d0.sel matches Some(s) && s.px is None && s.r.w > 0 && s.r.h > 0,
        d1.wf(),
        d1.sel == d0.sel,
        same_settings(d0, d1),
        crate::canvas::opened(d0.canvas, d1.canvas, false),
        lifted(d1, d2, inside),
        d3.wf(),
        d3.canvas == d2.canvas,
        same_settings(d2, d3),
        d3.sel matches Some(t) && t.px == d2.sel->0.px && t.src == d2.sel->0.src,
        committed(d3, d4),
        steps(d4.canvas, c5, true),
    ensures
        exists|p: (Rect, Seq<Color>)| d4.canvas.undo_spec() == crate::canvas::evict(d1.canvas.undo_spec().push(p)),
        d4.canvas.redo_spec().len() == 0,
        c5.image() == d0.canvas.image(),
{
    let c0 = d0.canvas;
    let c1 = d1.canvas;
    let c2 = d2.canvas;
    let c3 = d3.canvas;
    let c4 = d4.canvas;
    let w = c0.width();
    let h = c0.height();
    let s = d0.sel->0;
    let r = s.r;
    crate::canvas::lemma_clip_fits(r, w, h);
    assert(r.w * r.h != 0) by (nonlinear_arith)
        requires
            r.w > 0,
            r.h > 0,
    ;
    assert(c2.dirty_spec() == Some(r));
    let t = d3.sel->0;
    assert(t.pixels_spec() is Some);
    let pix = t.pixels_spec()->0;
    let key = if d3.transparent_selection { Some(d3.color2) } else { None };
    assert(put_down_spec(c3, c4, t.r, pix, key));
    lemma_put_down_step(c3, c4, t.r, pix, key);
    let (image, m) = choose|image: Seq<Color>, m: Option<Rect>| #[trigger] stroke_step(c3, c4, image, m, true)
        && (c3.stroke_spec() && c3.dirty_spec() is Some ==> crate::canvas::marked(c3.dirty_spec(), m, c3.width(), c3.height()) is Some);
    let dd = crate::canvas::marked(c3.dirty_spec(), m, w, h);
    crate::canvas::lemma_wf_size(c0);
    crate::canvas::lemma_wf_size(c3);
    crate::canvas::lemma_wf_size(c4);
    assert(c4.undo_spec() == crate::canvas::evict(c1.undo_spec().push((dd->0, extract_spec(c0.image(), w, dd->0)))));
    crate::canvas::law_undo_after_step(c3, c4, c5, image, m, true);
}

/// Grabbing a selection that is not transparent and putting it down where
/// it was changes no pixel: the pixels go back over the hole they left.
pub proof fn law_lift_and_put_back(d1: Doc, d2: Doc, d3: Doc)
    requires
        d1.wf(),
        d1.sel matches Some(s) && s.px is None,
        !d1.transparent_selection,
        lifted(d1, d2, None),
        committed(d2, d3),
    ensures
        d3.canvas.image() == d1.canvas.image(),
{
    let c1 = d1.canvas;
    let w = c1.width();
    let h = c1.height();
    let s = d1.sel->0;
    let r = s.r;
    crate::canvas::lemma_wf_size(c1);
    let img2 = d2.canvas.image();
    let t = d2.sel->0;
    assert(t.pixels_spec() == Some(extract_spec(c1.image(), w, r)));
    assert forall|x: int, y: int| 0 <= x < w && 0 <= y < h && !crate::grid::in_rect(r, x, y)
        implies #[trigger] at(img2, w, x, y) == at(c1.image(), w, x, y) by {
        crate::canvas::lemma_map_rect_at(c1.image(), w, h, r, RectOp::Paint(d1.bg_spec()), x, y);
    }
    crate::canvas::lemma_blit_restores(c1.image(), img2, w, h, r);
}

} // verus!
