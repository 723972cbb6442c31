use lienzo::canvas::Rect;
use lienzo::color::Color;
use lienzo::doc::{Doc, Selection, Tool};
use lienzo::gesture::{finish, press, release, switch_tool, Gesture, Hit};
use lienzo::shapes::Shape;

fn red() -> Color {
    Color::from_rgb(255, 0, 0)
}

#[test]
fn grabbing_the_selection_lifts_it_in_an_open_stroke() {
    let mut d = Doc::new(6, 6);
    d.canvas.set(2, 2, red());
    d.tool = Tool::Select;
    let r = Rect::new(1, 1, 3, 3);
    d.sel = Some(Selection { r, px: None, src: (3, 3) });
    let g = press(&mut d, Gesture::Idle, Hit::Inside, false, None);
    assert_eq!(g, Gesture::SelectMove);
    assert!(d.canvas.stroke_open());
    let s = d.sel.as_ref().unwrap();
    assert!(s.px.is_some(), "the selection floats");
    assert_eq!(d.canvas.geti(2, 2), Some(d.color2), "the hole gets color 2");
    assert_eq!(press(&mut d, Gesture::Idle, Hit::Handle(4), false, None), Gesture::SelectScale(4));
}

#[test]
fn a_press_outside_puts_the_selection_down() {
    let mut d = Doc::new(6, 6);
    d.tool = Tool::Select;
    d.paste(1, 1, vec![red()]);
    let g = press(&mut d, Gesture::Idle, Hit::Outside, false, None);
    assert_eq!(g, Gesture::SelectNew);
    assert!(d.sel.is_none());
    assert_eq!(d.canvas.geti(0, 0), Some(red()));
}

#[test]
fn painting_opens_a_stroke_and_the_release_closes_it() {
    let mut d = Doc::new(4, 4);
    let g = press(&mut d, Gesture::Idle, Hit::Outside, true, None);
    assert_eq!(g, Gesture::Freehand);
    assert!(d.canvas.stroke_open());
    d.canvas.set(1, 1, red());
    assert_eq!(release(&mut d, g), Gesture::Idle);
    assert!(!d.canvas.stroke_open());
    assert_eq!(d.canvas.undo_len(), 1);
    assert!(!d.swap);
}

#[test]
fn a_curve_stays_armed_until_it_is_finished() {
    let mut d = Doc::new(4, 4);
    d.tool = Tool::Shape;
    d.shape = Shape::Curve;
    let g = press(&mut d, Gesture::Idle, Hit::Outside, false, None);
    assert_eq!(g, Gesture::Curve { bent: false });
    let g = release(&mut d, g);
    assert_eq!(g, Gesture::Curve { bent: false });
    assert!(d.canvas.stroke_open(), "the curve keeps its stroke");
    let g = press(&mut d, g, Hit::Outside, false, None);
    assert_eq!(g, Gesture::Curve { bent: true });
    assert_eq!(finish(&mut d, g), Gesture::Idle);
    assert!(!d.canvas.stroke_open());
}

#[test]
fn changing_tool_ends_a_curve_in_progress() {
    let mut d = Doc::new(4, 4);
    d.tool = Tool::Shape;
    d.shape = Shape::Polygon;
    let g = press(&mut d, Gesture::Idle, Hit::Outside, false, None);
    assert_eq!(g, Gesture::Polygon);
    let g = switch_tool(&mut d, g, Tool::Pencil);
    assert_eq!(g, Gesture::Idle);
    assert_eq!(d.tool, Tool::Pencil);
    assert!(!d.canvas.stroke_open());
}
