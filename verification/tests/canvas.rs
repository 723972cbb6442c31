use lienzo::canvas::{Canvas, Rect};
use lienzo::color::Color;

fn red() -> Color {
    Color::from_rgb(255, 0, 0)
}

fn blue() -> Color {
    Color::from_rgb(0, 0, 255)
}

/// The two things that break silently: undo not giving back the exact
/// bitmap, and the fill leaking out or leaving borders unpainted.
#[test]
fn undo_es_exacto_y_el_relleno_respeta_los_bordes() {
    let mut c = Canvas::new(64, 48);
    let limpio = c.pixels().to_vec();

    c.begin_stroke();
    for x in 10..=30 {
        c.set(x, 10, Color::black());
        c.set(x, 30, Color::black());
    }
    for y in 10..=30 {
        c.set(10, y, Color::black());
        c.set(30, y, Color::black());
    }
    c.end_stroke();
    let con_caja = c.pixels().to_vec();

    assert_eq!(c.undo_bytes(), 21 * 21 * 4, "el historial guardó de más");

    c.begin_stroke();
    c.fill(20, 20, red());
    c.end_stroke();

    assert_eq!(c.geti(20, 20).unwrap(), red(), "no rellenó el interior");
    assert_eq!(c.geti(11, 11).unwrap(), red(), "no llegó a la esquina interior");
    assert_eq!(c.geti(10, 10).unwrap(), Color::black(), "se comió el borde");
    assert_eq!(c.geti(31, 20).unwrap(), Color::white(), "se filtró hacia afuera");
    assert_eq!(c.geti(0, 0).unwrap(), Color::white(), "se filtró hasta el origen");

    c.undo();
    assert_eq!(c.pixels(), &con_caja[..], "deshacer el relleno no fue exacto");
    c.undo();
    assert_eq!(c.pixels(), &limpio[..], "deshacer la caja no fue exacto");

    c.redo();
    assert_eq!(c.pixels(), &con_caja[..], "rehacer la caja no fue exacto");
    c.redo();
    assert_eq!(c.geti(20, 20).unwrap(), red(), "rehacer el relleno no funcionó");

    for _ in 0..5 {
        c.undo();
    }
    assert_eq!(c.pixels(), &limpio[..], "deshacer de más corrompió el lienzo");
    assert_eq!(c.undo_len(), 0);
}

#[test]
fn rellenar_del_mismo_color_no_hace_nada() {
    let mut c = Canvas::new(8, 8);
    c.fill(0, 0, Color::white());
    assert!(c.take_upload().is_none(), "marcó trabajo que no hizo");
}

/// Four quarter turns give back exactly the picture; wrong indices show at once.
#[test]
fn rotar_cuatro_veces_vuelve_al_origen() {
    let mut c = Canvas::new(7, 3);
    c.set(0, 0, red());
    c.set(6, 0, Color::from_rgb(0, 255, 0));
    c.set(0, 2, blue());
    let original = c.pixels().to_vec();

    for _ in 0..4 {
        c.rotate(1);
    }
    assert_eq!(c.w, 7);
    assert_eq!(c.h, 3);
    assert_eq!(c.pixels(), &original[..], "cuatro giros no volvieron al origen");
}

#[test]
fn voltear_dos_veces_vuelve_al_origen() {
    let mut c = Canvas::new(5, 4);
    c.set(0, 0, red());
    c.set(4, 3, blue());
    let original = c.pixels().to_vec();

    c.flip_horizontal();
    assert_ne!(c.pixels(), &original[..], "voltear no hizo nada");
    c.flip_horizontal();
    assert_eq!(c.pixels(), &original[..], "voltear horizontal no es su propio inverso");

    c.flip_vertical();
    c.flip_vertical();
    assert_eq!(c.pixels(), &original[..], "voltear vertical no es su propio inverso");
}

#[test]
fn fill_takes_the_bounding_box_as_dirty_rectangle() {
    let mut c = Canvas::new(10, 10);
    c.begin_stroke();
    for x in 0..10 {
        c.set(x, 5, Color::black());
    }
    c.end_stroke();
    let _ = c.take_upload();
    c.begin_stroke();
    c.fill(2, 2, red());
    assert_eq!(c.take_upload(), Some(Rect::new(0, 0, 10, 5)));
    c.end_stroke();
    assert_eq!(c.geti(9, 4), Some(red()));
    assert_eq!(c.geti(9, 6), Some(Color::white()));
    assert_eq!(c.undo_bytes(), 10 * 5 * 4 + 10 * 4);
}

#[test]
fn fill_off_the_canvas_does_nothing() {
    let mut c = Canvas::new(4, 4);
    c.fill(-1, 0, red());
    c.fill(0, 4, red());
    assert!(c.take_upload().is_none());
    assert!(!c.dirty_file);
}

#[test]
fn fill_does_not_cross_diagonals() {
    let mut c = Canvas::new(3, 3);
    c.set(1, 0, Color::black());
    c.set(0, 1, Color::black());
    c.fill(0, 0, red());
    assert_eq!(c.geti(0, 0), Some(red()));
    assert_eq!(c.geti(1, 1), Some(Color::white()));
}

#[test]
fn undo_then_redo_then_undo_round_trips() {
    let mut c = Canvas::new(6, 6);
    c.begin_stroke();
    c.clear_region(Rect::new(1, 1, 3, 3), blue());
    c.end_stroke();
    let after = c.pixels().to_vec();
    c.undo();
    let before = c.pixels().to_vec();
    assert!(c.can_redo());
    c.redo();
    assert_eq!(c.pixels(), &after[..]);
    c.undo();
    assert_eq!(c.pixels(), &before[..]);
    assert!(!c.can_undo());
}

#[test]
fn replace_only_touches_the_chosen_color() {
    let mut c = Canvas::new(4, 4);
    c.set(1, 1, red());
    c.set(2, 2, blue());
    let _ = c.take_upload();
    c.replace_color_in(Rect::new(0, 0, 4, 4), red(), Color::black());
    assert_eq!(c.geti(1, 1), Some(Color::black()));
    assert_eq!(c.geti(2, 2), Some(blue()));
    assert_eq!(c.take_upload(), Some(Rect::new(0, 0, 4, 4)));
    c.replace_color_in(Rect::new(0, 0, 4, 4), red(), Color::black());
    assert!(c.take_upload().is_none());
}

#[test]
fn keyed_put_skips_the_key_and_marks_what_it_wrote() {
    let mut c = Canvas::new(6, 6);
    let _ = c.take_upload();
    let w = Color::white();
    let src = vec![w, w, w, w, red(), w, w, w, w];
    c.put_region_keyed(Rect::new(2, 2, 3, 3), &src, w);
    assert_eq!(c.geti(3, 3), Some(red()));
    assert_eq!(c.take_upload(), Some(Rect::new(3, 3, 1, 1)));
    c.put_region_keyed(Rect::new(2, 2, 3, 3), &vec![w; 9], w);
    assert!(c.take_upload().is_none());
}

#[test]
fn put_region_cuts_what_falls_off() {
    let mut c = Canvas::new(4, 4);
    c.put_region(Rect::new(3, 3, 2, 2), &vec![red(); 4]);
    assert_eq!(c.geti(3, 3), Some(red()));
    assert_eq!(c.region(Rect::new(2, 2, 2, 2)), vec![Color::white(), Color::white(), Color::white(), red()]);
}

#[test]
fn invert_region_inverts_each_channel() {
    let mut c = Canvas::new(2, 1);
    c.set(0, 0, Color::from_rgb(10, 20, 30));
    c.invert_region(Rect::new(0, 0, 1, 1));
    assert_eq!(c.geti(0, 0), Some(Color::from_rgb(245, 235, 225)));
    assert_eq!(c.geti(1, 0), Some(Color::white()));
}

#[test]
fn resize_keeps_the_overlap_and_fills_the_rest() {
    let mut c = Canvas::new(2, 2);
    c.set(1, 1, red());
    c.resize_canvas(3, 1, blue());
    assert_eq!(c.w, 3);
    assert_eq!(c.h, 1);
    assert_eq!(c.pixels(), &[Color::white(), Color::white(), blue()][..]);
    assert_eq!(c.undo_len(), 0);
}

#[test]
fn scale_is_nearest_neighbour() {
    let mut c = Canvas::new(2, 1);
    c.set(1, 0, red());
    c.scale(4, 1);
    assert_eq!(c.pixels(), &[Color::white(), Color::white(), red(), red()][..]);
    assert_eq!(c.undo_len(), 0);
    assert!(c.dirty_file);
}

#[test]
fn load_replaces_everything_and_is_clean() {
    let mut c = Canvas::new(2, 2);
    c.set(0, 0, red());
    c.load(1, 1, vec![blue()]);
    assert_eq!(c.pixels(), &[blue()][..]);
    assert_eq!(c.undo_len(), 0);
    assert!(!c.dirty_file);
    assert_eq!(c.take_upload(), Some(Rect::new(0, 0, 1, 1)));
}

#[test]
fn rect_helpers() {
    assert_eq!(Rect::from_corners((5, 5), (2, 3), 10, 10), Some(Rect::new(2, 3, 4, 3)));
    assert_eq!(Rect::from_corners((-4, -4), (-1, -1), 10, 10), None);
    assert_eq!(Rect::from_corners((8, 8), (20, 20), 10, 10), Some(Rect::new(8, 8, 2, 2)));
    assert_eq!(Rect::new(1, 1, 2, 2).union(Rect::new(4, 0, 1, 1)), Rect::new(1, 0, 4, 3));
    assert_eq!(Rect::new(0, 0, 3, 4).area(), 12);
    assert!(Rect::new(1, 1, 2, 2).contains(2, 2));
    assert!(!Rect::new(1, 1, 2, 2).contains(3, 1));
    assert!(!Rect::new(1, 1, 2, 2).contains(-1, 1));
}

#[test]
fn history_budget_counts_bytes_of_the_patch() {
    let mut c = Canvas::new(8, 8);
    c.begin_stroke();
    c.set(0, 0, red());
    c.set(2, 1, red());
    c.end_stroke();
    assert_eq!(c.undo_bytes(), 3 * 2 * 4);
    c.flip_vertical();
    assert_eq!(c.undo_bytes(), 3 * 2 * 4 + 8 * 8 * 4);
}

#[test]
fn opening_a_stroke_closes_the_open_one_into_one_step() {
    let mut c = Canvas::new(4, 4);
    c.begin_stroke();
    c.set(1, 1, red());
    c.end_stroke();
    c.undo();
    assert!(c.can_redo());
    c.begin_stroke();
    c.set(2, 2, blue());
    let before = c.pixels().to_vec();
    let n = c.undo_len();
    c.begin_stroke();
    assert!(c.stroke_open());
    assert_eq!(c.undo_len(), n + 1);
    assert!(!c.can_redo());
    assert_eq!(c.pixels(), &before[..]);
    c.end_stroke();
    c.undo();
    assert_eq!(c.geti(2, 2), Some(Color::white()));
}
