use lienzo::color::Color;
use lienzo::theme::{families, parse_hex, to_hex, ThemeId};

#[test]
fn los_colores_van_y_vuelven_en_hexadecimal() {
    assert_eq!(parse_hex("#ff8000"), Some(Color::from_rgb(255, 128, 0)));
    assert_eq!(parse_hex("f80"), Some(Color::from_rgb(255, 136, 0)));
    assert_eq!(parse_hex("nope"), None);
    assert_eq!(parse_hex("#12345"), None);

    let c = Color::from_rgb(0x12, 0x34, 0x56);
    let json = serde_json::to_string(&to_hex(c)).unwrap();
    assert_eq!(json, "\"#123456\"");
    let back: String = serde_json::from_str(&json).unwrap();
    assert_eq!(parse_hex(&back), Some(c));
}

#[test]
fn hex_reading_edge_cases() {
    assert_eq!(parse_hex("  #0a0B0c \n"), Some(Color::from_rgb(10, 11, 12)));
    assert_eq!(parse_hex("##abc"), Some(Color::from_rgb(0xaa, 0xbb, 0xcc)));
    assert_eq!(parse_hex("\u{a0}#000000"), Some(Color::from_rgb(0, 0, 0)));
    assert_eq!(parse_hex("+f+f+f"), Some(Color::from_rgb(15, 15, 15)));
    assert_eq!(parse_hex("-f0000"), None);
    assert_eq!(parse_hex("+ff"), None);
    assert_eq!(parse_hex("#ééé"), None);
    assert_eq!(parse_hex(""), None);
    assert_eq!(parse_hex("#1234567"), None);
}

#[test]
fn every_color_round_trips() {
    for v in [0u8, 1, 9, 10, 15, 16, 127, 128, 200, 255] {
        let c = Color::from_rgb(v, 255 - v, v / 2);
        assert_eq!(parse_hex(&to_hex(c)), Some(c));
    }
    assert_eq!(to_hex(Color::from_rgb(255, 0, 171)), "#ff00ab");
}

fn id(name: &str, pair: Option<&str>, dark: bool) -> ThemeId {
    ThemeId { name: name.to_string(), pair: pair.map(|p| p.to_string()), dark }
}

#[test]
fn families_group_by_the_declared_pair() {
    let ts = vec![
        id("Lienzo", Some("Lienzo Tinta"), false),
        id("Lienzo Tinta", Some("Lienzo"), true),
        id("2077 nocturno", Some("2077"), true),
        id("2077", Some("2077 nocturno"), false),
        id("Suelto", None, false),
    ];
    assert_eq!(
        families(&ts, false),
        vec![("Lienzo".to_string(), 0), ("2077".to_string(), 3), ("Suelto".to_string(), 4)]
    );
    assert_eq!(
        families(&ts, true),
        vec![("Lienzo".to_string(), 1), ("2077".to_string(), 2), ("Suelto".to_string(), 4)]
    );
}

#[test]
fn a_pair_that_does_not_exist_is_no_family() {
    let ts = vec![id("Oscuro", Some("Claro"), true)];
    assert_eq!(families(&ts, false), vec![("Oscuro".to_string(), 0)]);
}
