//! The tags the interface exchanges with the application: commands, icons,
//! quick-access buttons, ribbon tabs, the classic tool box and its labels.
use vstd::prelude::*;
use crate::doc::{committed, tool_key, Doc, SelectMode, Tool};
use crate::lang::{t, Lang};
use crate::shapes::{shape_key, Brush, Shape};

verus! {

/// What the interface asks of the application. Commands are data, applied
/// after drawing.
#[derive(Clone, Copy, PartialEq, Eq, Debug, Structural)]
pub enum Cmd {
    New,
    Open,
    Save,
    SaveAs,
    Undo,
    Redo,
    Cut,
    Copy,
    Paste,
    /// Paste an image from a file.
    PasteFrom,
    SelectAll,
    Delete,
    Crop,
    ResizeDialog,
    PropertiesDialog,
    Rotate(u32),
    FlipH,
    FlipV,
    InvertColors,
    ZoomIn,
    ZoomOut,
    Zoom100,
    SetTheme(usize),
    ToggleGrid,
    ToggleRulers,
    ToggleStatusBar,
    ToggleThumbnail,
    FullScreen,
    Print,
    PrintPreview,
    /// A new picture of a size picked from the list.
    NewSized(usize, usize),
    /// Open one of the recent files.
    OpenRecent(usize),
    /// Save a scaled copy, in percent.
    Export(u32),
    /// Copy the whole picture to the clipboard.
    CopyImage,
    /// Show the file in the system's file browser.
    Reveal,
    ToggleQatBelow,
    ToggleRibbonMin,
    About,
    Exit,
}

/// Small icons that are not a tool's: the ribbon's.
#[derive(Clone, Copy, PartialEq, Eq, Debug, Structural)]
pub enum Ico {
    Cut,
    Copy,
    Paste,
    Crop,
    Resize,
    Rotate,
    New,
    Open,
    Save,
    Export,
    Reveal,
    Clock,
    Info,
    Exit,
    ZoomIn,
    ZoomOut,
    Zoom100,
    FullScreen,
    Thumbnail,
    Palette,
    FlipH,
    FlipV,
    Spectrum,
    Settings,
}

/// The icon of a button: a tool's, a ribbon icon, or none.
#[derive(Clone, Copy, PartialEq, Eq, Debug, Structural)]
pub enum Icon {
    T(Tool),
    I(Ico),
    /// No icon.
    Empty,
}

/// The buttons the quick-access bar can hold.
#[derive(Clone, Copy, PartialEq, Eq, Debug, Structural)]
pub enum Qat {
    New,
    Open,
    Save,
    Print,
    Preview,
    Undo,
    Redo,
}

/// The Spanish name of a quick-access button.
pub open spec fn qat_key(q: Qat) -> Seq<char> {
    match q {
        Qat::New => "Nuevo"@,
        Qat::Open => "Abrir"@,
        Qat::Save => "Guardar"@,
        Qat::Print => "Imprimir"@,
        Qat::Preview => "Vista previa de impresión"@,
        Qat::Undo => "Deshacer"@,
        Qat::Redo => "Rehacer"@,
    }
}

impl Qat {
    fn key(self) -> (k: &'static str)
        ensures
            k@ == qat_key(self),
    {
        match self {
            Qat::New => "Nuevo",
            Qat::Open => "Abrir",
            Qat::Save => "Guardar",
            Qat::Print => "Imprimir",
            Qat::Preview => "Vista previa de impresión",
            Qat::Undo => "Deshacer",
            Qat::Redo => "Rehacer",
        }
    }

    /// The name the user sees, already translated.
    pub fn label<'a>(self, lang: &'a Lang) -> (l: &'a str)
        requires
            lang.wf(),
        ensures
            l@ == lang.translate(qat_key(self)),
    {
        t(lang, self.key())
    }

    /// The command the button sends.
    pub fn cmd(self) -> (c: Cmd)
        ensures
            c == match self {
                Qat::New => Cmd::New,
                Qat::Open => Cmd::Open,
                Qat::Save => Cmd::Save,
                Qat::Print => Cmd::Print,
                Qat::Preview => Cmd::PrintPreview,
                Qat::Undo => Cmd::Undo,
                Qat::Redo => Cmd::Redo,
            },
    {
        match self {
            Qat::New => Cmd::New,
            Qat::Open => Cmd::Open,
            Qat::Save => Cmd::Save,
            Qat::Print => Cmd::Print,
            Qat::Preview => Cmd::PrintPreview,
            Qat::Undo => Cmd::Undo,
            Qat::Redo => Cmd::Redo,
        }
    }
}

/// Which half of a split button was hit.
#[derive(Clone, Copy, PartialEq, Eq, Debug, Structural)]
pub enum Half {
    /// The icon: runs the main action.
    Main,
    /// The small triangle: opens the menu.
    Caret,
}

/// What was hit in the ribbon's palette.
#[derive(Clone, Copy, PartialEq, Eq, Debug, Structural)]
pub enum PaletteHit {
    /// One of the twenty fixed colors.
    Fixed(usize),
    /// One of the ten custom ones.
    Custom(usize),
}

/// The ribbon tab in front.
#[derive(Clone, Copy, PartialEq, Eq, Debug, Structural)]
pub enum Tab {
    Home,
    View,
    /// Only while a text box is open.
    Text,
}

impl Default for Tab {
    fn default() -> (t: Tab)
        ensures
            t == Tab::Home,
    {
        Tab::Home
    }
}

/// A button of the classic tool box: it sets the tool and also the shape,
/// the brush or the selection mode that goes with it.
#[derive(Clone, Copy, PartialEq, Eq, Debug, Structural)]
pub enum XpPick {
    Simple(Tool),
    Seleccion(SelectMode),
    Pincel(Brush),
    Figura(Shape),
}

/// The name a tool box button shows, before translation.
pub open spec fn pick_key(p: XpPick) -> Seq<char> {
    match p {
        XpPick::Simple(t) => tool_key(t),
        XpPick::Seleccion(SelectMode::FreeForm) => "Selección libre"@,
        XpPick::Seleccion(SelectMode::Rectangular) => "Seleccionar"@,
        XpPick::Pincel(Brush::Airbrush) => "Aerógrafo"@,
        XpPick::Pincel(_) => "Pincel"@,
        XpPick::Figura(f) => shape_key(f),
    }
}

/// The tool a tool box button puts.
pub open spec fn pick_tool(p: XpPick) -> Tool {
    match p {
        XpPick::Simple(t) => t,
        XpPick::Seleccion(_) => Tool::Select,
        XpPick::Pincel(_) => Tool::Brush,
        XpPick::Figura(_) => Tool::Shape,
    }
}

impl XpPick {
    /// Whether this button is the pressed one: the tool and its setting
    /// both match, so only one of the sixteen is ever down.
    pub fn activo(self, doc: &Doc) -> (b: bool)
        ensures
            b == match self {
                XpPick::Simple(t) => doc.tool == t,
                XpPick::Seleccion(m) => doc.tool == Tool::Select && doc.select_mode == m,
                XpPick::Pincel(br) => doc.tool == Tool::Brush && doc.brush == br,
                XpPick::Figura(f) => doc.tool == Tool::Shape && doc.shape == f,
            },
    {
        match self {
            XpPick::Simple(t) => doc.tool == t,
            XpPick::Seleccion(m) => doc.tool == Tool::Select && doc.select_mode == m,
            XpPick::Pincel(br) => doc.tool == Tool::Brush && doc.brush == br,
            XpPick::Figura(f) => doc.tool == Tool::Shape && doc.shape == f,
        }
    }

    /// Presses the button: sets its setting, then its tool.
    pub fn aplicar(self, doc: &mut Doc)
        requires
            old(doc).wf(),
        ensures
            final(doc).wf(),
            final(doc).tool == pick_tool(self),
            final(doc).select_mode == match self {
                XpPick::Seleccion(m) => m,
                _ => old(doc).select_mode,
            },
            final(doc).brush == match self {
                XpPick::Pincel(b) => b,
                _ => old(doc).brush,
            },
            final(doc).shape == match self {
                XpPick::Figura(f) => f,
                _ => old(doc).shape,
            },
            final(doc).outline == old(doc).outline,
            final(doc).fill_style == old(doc).fill_style,
            final(doc).transparent_selection == old(doc).transparent_selection,
            final(doc).color1 == old(doc).color1,
            final(doc).color2 == old(doc).color2,
            final(doc).clipboard == old(doc).clipboard,
            final(doc).swapped() == old(doc).swapped(),
            old(doc).tool == pick_tool(self) ==> final(doc).canvas == old(doc).canvas && final(doc).sel == old(doc).sel,
            old(doc).tool != pick_tool(self) ==> exists|mid: Doc| #[trigger] committed(*old(doc), mid)
                && final(doc).canvas == mid.canvas && final(doc).sel is None,
    {
        let ghost d0 = *doc;
        match self {
            XpPick::Simple(t) => doc.set_tool(t),
            XpPick::Seleccion(m) => {
                doc.select_mode = m;
                doc.set_tool(Tool::Select);
            },
            XpPick::Pincel(b) => {
                doc.brush = b;
                doc.set_tool(Tool::Brush);
            },
            XpPick::Figura(f) => {
                doc.shape = f;
                doc.set_tool(Tool::Shape);
            },
        }
        proof {
            if d0.tool != pick_tool(self) {
                let d1 = match self {
                    XpPick::Seleccion(m) => Doc { select_mode: m, ..d0 },
                    XpPick::Pincel(b) => Doc { brush: b, ..d0 },
                    XpPick::Figura(f) => Doc { shape: f, ..d0 },
                    XpPick::Simple(_) => d0,
                };
                let mid = choose|mid: Doc| #[trigger] committed(d1, mid) && final(doc).canvas == mid.canvas
                    && final(doc).sel is None && crate::doc::settings_but_tool(mid, *final(doc)) && final(doc).tool == pick_tool(self);
                let mid0 = Doc { select_mode: d0.select_mode, brush: d0.brush, shape: d0.shape, ..mid };
                assert(committed(d0, mid0));
            }
        }
    }

    /// The name the button shows, already translated.
    pub fn nombre<'a>(self, lang: &'a Lang) -> (n: &'a str)
        requires
            lang.wf(),
        ensures
            n@ == lang.translate(pick_key(self)),
    {
        match self {
            XpPick::Simple(tool) => tool.label(lang),
            XpPick::Seleccion(SelectMode::FreeForm) => t(lang, "Selección libre"),
            XpPick::Seleccion(SelectMode::Rectangular) => t(lang, "Seleccionar"),
            XpPick::Pincel(Brush::Airbrush) => t(lang, "Aerógrafo"),
            XpPick::Pincel(_) => t(lang, "Pincel"),
            XpPick::Figura(f) => f.label(lang),
        }
    }
}

/// The name a tool has in the Mac tool bar, before translation.
pub open spec fn mac_key(t: Tool) -> Seq<char> {
    match t {
        Tool::Fill => "Relleno"@,
        Tool::Picker => "Cuentagotas"@,
        Tool::Brush => "Pincel"@,
        _ => tool_key(t),
    }
}

/// The Mac tool bar names three tools shorter.
pub fn mac_label<'a>(tool: Tool, lang: &'a Lang) -> (l: &'a str)
    requires
        lang.wf(),
    ensures
        l@ == lang.translate(mac_key(tool)),
{
    match tool {
        Tool::Fill => crate::lang::t(lang, "Relleno"),
        Tool::Picker => crate::lang::t(lang, "Cuentagotas"),
        Tool::Brush => crate::lang::t(lang, "Pincel"),
        _ => tool.label(lang),
    }
}

} // verus!
