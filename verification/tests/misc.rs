use lienzo::color::{opaque_rgba, Color};
use lienzo::lang::{Lang, LANG_COUNT};
use lienzo::shapes::{Brush, Rng, Shape, SEED};
use lienzo::ui::{mac_label, Cmd, Qat, Tab, XpPick};
use lienzo::doc::{Doc, SelectMode, Tool};
use lienzo::view::{zoom_step, ZOOM_LEVELS};

#[test]
fn rgba_se_compone_sobre_blanco() {
    assert_eq!(opaque_rgba(&[255, 0, 0, 0]), Color::white());
    assert_eq!(opaque_rgba(&[0, 0, 0, 255]), Color::black());
    assert_eq!(opaque_rgba(&[255, 0, 0, 128]), Color::from_rgb(255, 127, 127));
}

#[test]
fn zoom_por_rueda_respeta_los_limites() {
    assert_eq!(zoom_step(3, 1), 4);
    assert_eq!(zoom_step(3, -1), 2);
    assert_eq!(zoom_step(0, -1), 0);
    assert_eq!(zoom_step(ZOOM_LEVELS - 1, 1), ZOOM_LEVELS - 1);
    assert_eq!(zoom_step(3, 0), 3);
}

/// The mapping to [0, 1) is the program's (floating point, next to the
/// brushes); what this checks of the library is that its generator feeds
/// that formula values that keep it in range.
#[test]
fn el_generador_aleatorio_se_queda_en_rango() {
    let mut r = Rng::new();
    for _ in 0..10_000 {
        let u = (r.next_u32() >> 8) as f32 / (1u32 << 24) as f32;
        assert!((0.0..1.0).contains(&u), "xorshift devolvió {u}");
    }
}

#[test]
fn the_generator_never_reaches_zero_and_default_is_new() {
    let mut a = Rng::new();
    let mut b = Rng::default();
    for _ in 0..1000 {
        let x = a.next_u32();
        assert_ne!(x, 0);
        assert_eq!(x, b.next_u32());
    }
    let mut x = SEED;
    x ^= x << 13;
    x ^= x >> 17;
    x ^= x << 5;
    let mut c = Rng::new();
    assert_eq!(c.next_u32(), x);
}

#[test]
fn shape_and_brush_labels_are_translated() {
    let mut texts: Vec<&str> = vec!["{}"; LANG_COUNT];
    texts[1] = r#"{"Línea": "Line", "Pincel": "Brush"}"#;
    let mut lang = Lang::from_json(&texts);
    assert_eq!(Shape::Line.label(&lang), "Línea");
    assert_eq!(Shape::Heart.label(&lang), "Corazón");
    assert_eq!(Brush::Oil.label(&lang), "Óleo");
    lienzo::lang::set(&mut lang, 1);
    assert_eq!(Shape::Line.label(&lang), "Line");
    assert_eq!(Brush::Round.label(&lang), "Brush");
    assert_eq!(Tool::Fill.label(&lang), "Relleno con color");
    assert_eq!(mac_label(Tool::Brush, &lang), "Brush");
    assert_eq!(mac_label(Tool::Fill, &lang), "Relleno");
    assert_eq!(Qat::Save.label(&lang), "Guardar");
}

#[test]
fn open_shapes_are_line_and_curve() {
    assert!(!Shape::Line.is_closed());
    assert!(!Shape::Curve.is_closed());
    assert!(Shape::Oval.is_closed());
    assert!(Shape::Diamond2.is_closed());
}

#[test]
fn quick_access_buttons_send_their_command() {
    assert_eq!(Qat::Preview.cmd(), Cmd::PrintPreview);
    assert_eq!(Qat::Undo.cmd(), Cmd::Undo);
    assert_eq!(Tab::default(), Tab::Home);
}

#[test]
fn the_tool_box_presses_one_button_at_a_time() {
    let mut d = Doc::new(4, 4);
    let lang = Lang::from_json(&vec!["{}"; LANG_COUNT]);
    XpPick::Figura(Shape::Oval).aplicar(&mut d);
    assert_eq!(d.tool, Tool::Shape);
    assert!(XpPick::Figura(Shape::Oval).activo(&d));
    assert!(!XpPick::Figura(Shape::Line).activo(&d));
    XpPick::Seleccion(SelectMode::FreeForm).aplicar(&mut d);
    assert!(XpPick::Seleccion(SelectMode::FreeForm).activo(&d));
    assert!(!XpPick::Seleccion(SelectMode::Rectangular).activo(&d));
    assert_eq!(XpPick::Seleccion(SelectMode::FreeForm).nombre(&lang), "Selección libre");
    assert_eq!(XpPick::Pincel(Brush::Airbrush).nombre(&lang), "Aerógrafo");
    assert_eq!(XpPick::Pincel(Brush::Oil).nombre(&lang), "Pincel");
    assert_eq!(XpPick::Simple(Tool::Text).nombre(&lang), "Texto");
}

#[test]
fn the_seventy_three_shape_names_are_distinct_and_not_empty() {
    let all = [
        Shape::Line, Shape::Curve, Shape::Oval, Shape::Rectangle, Shape::RoundedRect,
        Shape::Polygon, Shape::Triangle, Shape::RightTriangle, Shape::Diamond, Shape::Pentagon,
        Shape::Hexagon, Shape::ArrowRight, Shape::ArrowLeft, Shape::ArrowUp, Shape::ArrowDown,
        Shape::Star4, Shape::Star5, Shape::Star6, Shape::CalloutRounded, Shape::CalloutOval,
        Shape::CalloutCloud, Shape::Heart, Shape::Lightning, Shape::Heptagon, Shape::Octagon,
        Shape::Trapezoid, Shape::Parallelogram, Shape::Cross, Shape::L, Shape::Chevron,
        Shape::ArrowNE, Shape::ArrowLeftRight, Shape::ArrowUpDown, Shape::ArrowFour, Shape::Star8,
        Shape::Star12, Shape::Sun, Shape::Burst, Shape::Moon, Shape::Drop, Shape::Gear,
        Shape::Shield, Shape::House, Shape::Bookmark, Shape::Tag, Shape::Semicircle, Shape::Sector,
        Shape::Nonagon, Shape::Decagon, Shape::Dodecagon, Shape::Kite, Shape::Rhomboid,
        Shape::TrapezoidR, Shape::ArrowBent, Shape::ArrowCurvedU, Shape::ArrowPentagon,
        Shape::CalloutSquare, Shape::Cross2, Shape::Frame, Shape::Chevron2, Shape::Zigzag,
        Shape::Pill, Shape::Egg, Shape::Leaf, Shape::Star3, Shape::Star7, Shape::Star10,
        Shape::Star24, Shape::BurstSharp, Shape::Cube, Shape::Plaque, Shape::Bevel, Shape::Diamond2
    ];
    let lang = Lang::new((0..LANG_COUNT).map(|_| Vec::new()).collect());
    for (i, a) in all.iter().enumerate() {
        assert!(!a.label(&lang).is_empty());
        for b in &all[i + 1..] {
            assert_ne!(a.label(&lang), b.label(&lang), "{a:?} and {b:?}");
        }
    }
    assert_eq!(Shape::Heart.label(&lang), "Corazón");
    assert_eq!(Shape::Star24.label(&lang), "Sol de 24 rayos");
}
