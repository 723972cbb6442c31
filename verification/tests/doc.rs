use lienzo::canvas::Rect;
use lienzo::color::Color;
use lienzo::doc::{Doc, SelectMode, Selection, Stroke, Tool};
use lienzo::shapes::Brush;

fn red() -> Color {
    Color::from_rgb(255, 0, 0)
}

fn blue() -> Color {
    Color::from_rgb(0, 0, 255)
}

/// What a drag of the Select tool from `a` to `b` leaves, then the release.
fn select(d: &mut Doc, a: (i32, i32), b: (i32, i32)) {
    d.commit_selection();
    let (w, h) = d.canvas.size();
    if let Some(r) = Rect::from_corners(a, b, w, h) {
        d.sel = Some(Selection { r, px: None, src: (r.w, r.h) });
    }
    d.drop_tiny_selection();
}

/// A press inside the selection: it opens the stroke and lifts the pixels.
fn grab(d: &mut Doc) {
    d.canvas.begin_stroke();
    d.lift(None);
}

/// The right button with the eraser only swaps color 1 for color 2.
#[test]
fn el_borrador_selectivo_respeta_los_otros_colores() {
    let mut d = Doc::new(40, 40);
    d.color1 = Color::black();
    d.color2 = Color::white();

    d.canvas.set(20, 20, Color::black());
    d.canvas.set(21, 20, blue());

    d.tool = Tool::Eraser;
    // The pointer goes down at (20, 20) with the right button and a width
    // of 8: the square has half-side ceil(8 / 2) + 1.
    d.set_swap(true);
    d.commit_selection();
    d.canvas.begin_stroke();
    d.erase_selective(20, 20, 5);
    d.canvas.end_stroke();
    d.set_swap(false);

    assert_eq!(d.canvas.geti(20, 20).unwrap(), Color::white(), "no borró el color objetivo");
    assert_eq!(d.canvas.geti(21, 20).unwrap(), blue(), "se comió un color que no era");
}

/// Moving a selection leaves color 2 behind, and is one step of the history.
#[test]
fn mover_la_seleccion_deja_el_color_dos() {
    let mut d = Doc::new(50, 50);
    d.color2 = Color::from_rgb(255, 0, 255);
    d.canvas.set(12, 12, Color::black());

    d.tool = Tool::Select;
    select(&mut d, (10, 10), (20, 20));
    assert!(d.sel.is_some(), "no quedó ninguna selección");

    // Grab inside at (15, 15) and drag to (35, 35).
    assert!(d.sel.as_ref().unwrap().r.contains(15, 15));
    grab(&mut d);
    {
        let s = d.sel.as_mut().unwrap();
        s.r.x += 20;
        s.r.y += 20;
    }

    assert_eq!(d.canvas.geti(12, 12).unwrap(), d.color2, "el hueco no quedó del Color 2");

    let pasos_antes = d.canvas.undo_len();
    d.commit_selection();
    assert!(d.sel.is_none(), "la selección no se confirmó");
    assert_eq!(
        d.canvas.undo_len(),
        pasos_antes + 1,
        "mover la selección dejó más de un paso en el historial"
    );
}

/// Pasting reuses the floating selection.
#[test]
fn pegar_crea_una_seleccion_flotante() {
    let mut d = Doc::new(50, 50);
    let px = vec![red(); 4 * 4];
    d.paste(4, 4, px);

    let sel = d.sel.as_ref().expect("pegar no creó selección");
    assert_eq!(sel.r.x, 0);
    assert_eq!(sel.r.y, 0);
    assert!(sel.px.is_some(), "lo pegado no quedó flotando");
    assert_eq!(d.tool, Tool::Select, "pegar debería activar Seleccionar");

    d.commit_selection();
    assert_eq!(d.canvas.geti(1, 1).unwrap(), red(), "lo pegado no bajó al lienzo");
}

/// Copy and paste inside the document.
#[test]
fn copiar_y_pegar_interno() {
    let mut d = Doc::new(40, 40);
    d.canvas.set(5, 5, blue());

    d.tool = Tool::Select;
    select(&mut d, (4, 4), (10, 10));
    d.copy_selection();
    assert!(d.clipboard.is_some(), "no copió nada");

    d.sel = None;
    d.paste_from_clipboard();
    d.commit_selection();
    assert_eq!(d.canvas.geti(1, 1).unwrap(), blue(), "no pegó en el origen");
}

/// Stretching resamples, and always from the lifted pixels.
#[test]
fn estirar_la_seleccion_y_volver_deja_los_mismos_pixeles() {
    let mut d = Doc::new(20, 20);
    d.canvas.set(3, 3, red());

    d.tool = Tool::Select;
    select(&mut d, (2, 2), (6, 6));

    // Handle 4 is the bottom right corner, at (r.x + r.w, r.y + r.h).
    let r0 = d.sel.as_ref().unwrap().r;
    let esquina = (r0.x + r0.w, r0.y + r0.h);
    grab(&mut d);
    let (w0, h0) = (r0.w, r0.h);
    let antes = d.sel.as_ref().unwrap().pixels().expect("levantar dejó píxeles");

    // Dragging the corner to (esquina + (w0, h0)) doubles the box.
    {
        let s = d.sel.as_mut().unwrap();
        s.r.w = esquina.0 + w0 - r0.x;
        s.r.h = esquina.1 + h0 - r0.y;
    }
    let estirada = d.sel.as_ref().unwrap().pixels().unwrap();
    assert_eq!(
        estirada.len(),
        w0 * 2 * h0 * 2,
        "al doble de ancho y de alto tiene que haber cuatro veces los píxeles"
    );

    // And back to the corner.
    {
        let s = d.sel.as_mut().unwrap();
        s.r.w = esquina.0 - r0.x;
        s.r.h = esquina.1 - r0.y;
    }
    assert_eq!(
        d.sel.as_ref().unwrap().pixels().unwrap(),
        antes,
        "volver al tamaño de antes tiene que dar la imagen de antes"
    );
}

#[test]
fn a_new_document_is_white_with_the_pencil() {
    let d = Doc::new(3, 2);
    assert_eq!(d.canvas.pixels(), &vec![Color::white(); 6][..]);
    assert_eq!(d.tool, Tool::Pencil);
    assert_eq!(d.brush, Brush::Round);
    assert_eq!(d.outline, Stroke::Solid);
    assert_eq!(d.fill_style, Stroke::Empty);
    assert_eq!(d.select_mode, SelectMode::Rectangular);
    assert_eq!(d.fg(), Color::black());
    assert_eq!(d.bg(), Color::white());
}

#[test]
fn the_right_button_swaps_the_colors() {
    let mut d = Doc::new(2, 2);
    d.set_swap(true);
    assert_eq!(d.fg(), Color::white());
    assert_eq!(d.bg(), Color::black());
}

#[test]
fn commit_twice_is_commit_once() {
    let mut d = Doc::new(10, 10);
    d.paste(2, 2, vec![red(); 4]);
    d.commit_selection();
    let once = d.canvas.pixels().to_vec();
    let steps = d.canvas.undo_len();
    d.commit_selection();
    assert_eq!(d.canvas.pixels(), &once[..]);
    assert_eq!(d.canvas.undo_len(), steps);
    assert!(d.sel.is_none());
}

#[test]
fn lifting_and_putting_back_changes_nothing() {
    let mut d = Doc::new(10, 10);
    d.canvas.set(3, 3, red());
    d.canvas.set(4, 4, blue());
    let before = d.canvas.pixels().to_vec();
    select(&mut d, (2, 2), (5, 5));
    grab(&mut d);
    assert_eq!(d.canvas.geti(3, 3), Some(Color::white()));
    d.commit_selection();
    assert_eq!(d.canvas.pixels(), &before[..]);
}

#[test]
fn one_undo_takes_a_move_back_to_before_the_grab() {
    let mut d = Doc::new(12, 12);
    d.canvas.set(2, 2, red());
    let before = d.canvas.pixels().to_vec();
    select(&mut d, (1, 1), (3, 3));
    grab(&mut d);
    d.sel.as_mut().unwrap().r.x = 7;
    d.commit_selection();
    assert_eq!(d.canvas.geti(8, 2), Some(red()));
    assert_eq!(d.canvas.geti(2, 2), Some(Color::white()));
    d.canvas.undo();
    assert_eq!(d.canvas.pixels(), &before[..]);
}

#[test]
fn a_transparent_selection_skips_color_two() {
    let mut d = Doc::new(6, 6);
    d.transparent_selection = true;
    d.canvas.set(4, 4, blue());
    d.paste(2, 2, vec![red(), Color::white(), Color::white(), Color::white()]);
    d.sel.as_mut().unwrap().r.x = 3;
    d.sel.as_mut().unwrap().r.y = 3;
    d.commit_selection();
    assert_eq!(d.canvas.geti(3, 3), Some(red()));
    assert_eq!(d.canvas.geti(4, 4), Some(blue()));
}

#[test]
fn paste_grows_the_canvas_where_the_image_needs_it() {
    let mut d = Doc::new(2, 4);
    d.color2 = blue();
    d.canvas.set(1, 3, red());
    let px: Vec<Color> = (0..9u8).map(|i| Color::from_rgb(i, i, i)).collect();
    d.paste(3, 3, px.clone());
    assert_eq!(d.canvas.size(), (3, 4), "only the width needed to grow");
    let s = d.sel.as_ref().unwrap();
    assert_eq!(s.r, Rect::new(0, 0, 3, 3));
    assert_eq!(s.src, (3, 3));
    assert_eq!(s.px.as_ref().unwrap(), &px, "nothing of the image is cut");
    assert_eq!(d.canvas.geti(1, 3), Some(red()), "the old pixels stay");
    assert_eq!(d.canvas.geti(2, 3), Some(blue()), "the new area gets color 2");
    d.commit_selection();
    assert_eq!(d.canvas.geti(2, 2), Some(Color::from_rgb(8, 8, 8)));
}

#[test]
fn paste_never_shrinks_a_larger_canvas() {
    let mut d = Doc::new(8, 8);
    d.paste(3, 2, vec![red(); 6]);
    assert_eq!(d.canvas.size(), (8, 8));
    assert_eq!(d.sel.as_ref().unwrap().r, Rect::new(0, 0, 3, 2));
}

#[test]
fn paste_with_a_wrong_size_is_ignored() {
    let mut d = Doc::new(4, 4);
    d.paste(2, 2, vec![red(); 3]);
    d.paste(0, 2, vec![]);
    assert!(d.sel.is_none());
    assert_eq!(d.tool, Tool::Pencil);
}

#[test]
fn deleting_paints_color_two() {
    let mut d = Doc::new(6, 6);
    d.color2 = blue();
    select(&mut d, (1, 1), (2, 2));
    d.delete_selection();
    assert!(d.sel.is_none());
    assert_eq!(d.canvas.geti(1, 1), Some(blue()));
    assert_eq!(d.canvas.geti(3, 3), Some(Color::white()));
    assert_eq!(d.canvas.undo_len(), 1);
}

#[test]
fn cut_copies_then_deletes() {
    let mut d = Doc::new(6, 6);
    d.canvas.set(1, 1, red());
    select(&mut d, (1, 1), (2, 2));
    d.cut_selection();
    let (w, h, px) = d.clipboard.clone().unwrap();
    assert_eq!((w, h), (2, 2));
    assert_eq!(px[0], red());
    assert_eq!(d.canvas.geti(1, 1), Some(Color::white()));
}

#[test]
fn invert_colors_inverts_only_the_selection() {
    let mut d = Doc::new(3, 3);
    select(&mut d, (0, 0), (1, 1));
    let r = d.sel.as_ref().unwrap().r;
    d.invert_selection_colors();
    assert!(d.sel.is_none());
    for y in 0..3 {
        for x in 0..3 {
            let inside = r.contains(x, y);
            let want = if inside { Color::black() } else { Color::white() };
            assert_eq!(d.canvas.geti(x, y), Some(want), "pixel {x},{y}");
        }
    }
    assert_eq!(d.canvas.undo_len(), 1);
}

#[test]
fn invert_colors_without_a_selection_inverts_the_whole_canvas() {
    let mut d = Doc::new(3, 3);
    d.invert_selection_colors();
    assert_eq!(d.canvas.pixels(), &vec![Color::black(); 9][..]);
    assert_eq!(d.canvas.undo_len(), 1);
}

#[test]
fn crop_keeps_the_part_on_the_canvas() {
    let mut d = Doc::new(5, 5);
    d.canvas.set(3, 3, red());
    select(&mut d, (2, 2), (4, 4));
    d.crop_to_selection();
    assert_eq!(d.canvas.size(), (3, 3));
    assert_eq!(d.canvas.geti(1, 1), Some(red()));
    assert!(d.canvas.dirty_file);
    assert_eq!(d.canvas.undo_len(), 0);
    assert!(d.sel.is_none());
}

#[test]
fn select_all_takes_the_whole_canvas() {
    let mut d = Doc::new(4, 3);
    d.select_all();
    assert_eq!(d.tool, Tool::Select);
    let s = d.sel.as_ref().unwrap();
    assert_eq!(s.r, Rect::new(0, 0, 4, 3));
    assert!(s.px.is_none());
}

#[test]
fn changing_tool_puts_the_selection_down() {
    let mut d = Doc::new(6, 6);
    d.paste(1, 1, vec![red()]);
    d.set_tool(Tool::Pencil);
    assert!(d.sel.is_none());
    assert_eq!(d.canvas.geti(0, 0), Some(red()));
    d.set_tool(Tool::Pencil);
    assert_eq!(d.tool, Tool::Pencil);
}

#[test]
fn the_picker_takes_the_color_under_the_pointer() {
    let mut d = Doc::new(4, 4);
    d.canvas.set(1, 2, red());
    d.pick(1, 2, false);
    assert_eq!(d.color1, red());
    d.pick(0, 0, true);
    assert_eq!(d.color2, Color::white());
    d.pick(9, 9, false);
    assert_eq!(d.color1, red());
}

#[test]
fn the_bucket_fills_with_the_drawing_color() {
    let mut d = Doc::new(4, 4);
    d.color1 = blue();
    d.fill_at(0, 0);
    assert_eq!(d.canvas.pixels(), &vec![blue(); 16][..]);
    assert_eq!(d.canvas.undo_len(), 1);
    d.fill_at(0, 0);
    assert_eq!(d.canvas.undo_len(), 1);
}

#[test]
fn a_click_without_a_drag_selects_nothing() {
    let mut d = Doc::new(10, 10);
    select(&mut d, (3, 3), (3, 3));
    assert!(d.sel.is_none());
    select(&mut d, (3, 3), (4, 4));
    assert!(d.sel.is_some());
}

#[test]
fn a_free_form_lift_floats_only_what_is_inside() {
    let mut d = Doc::new(4, 4);
    d.canvas.set(0, 0, red());
    d.canvas.set(1, 0, red());
    d.color2 = blue();
    select(&mut d, (0, 0), (1, 1));
    d.canvas.begin_stroke();
    d.lift(Some(vec![true, false, true, true]));
    let s = d.sel.as_ref().unwrap();
    assert_eq!(s.px.as_ref().unwrap(), &vec![red(), blue(), Color::white(), Color::white()]);
    assert_eq!(d.canvas.geti(0, 0), Some(blue()));
}

#[test]
fn labels_of_the_styles() {
    assert_eq!(Stroke::Empty.outline_label(), "Sin contorno");
    assert_eq!(Stroke::Empty.fill_label(), "Sin relleno");
    assert_eq!(Stroke::Oil.fill_label(), "Óleo");
    assert_eq!(Stroke::Watercolor.brush(), Some(Brush::Watercolor));
    assert_eq!(Stroke::Solid.brush(), None);
}

#[test]
fn pixels_lifted_at_a_zero_size_are_read_as_they_are() {
    let s = Selection { r: Rect::new(0, 0, 3, 3), px: Some(Vec::new()), src: (0, 4) };
    assert_eq!(s.pixels(), Some(Vec::new()));
    let t = Selection { r: Rect::new(0, 0, 2, 1), px: Some(vec![red(), blue()]), src: (2, 1) };
    assert_eq!(t.pixels(), Some(vec![red(), blue()]));
    let u = Selection { r: Rect::new(0, 0, 4, 1), px: Some(vec![red(), blue()]), src: (2, 1) };
    assert_eq!(u.pixels(), Some(vec![red(), red(), blue(), blue()]));
}
