use lienzo::lang::{current, index_of, lang_code, lang_name, t, Lang, LANG_COUNT};

/// Ten tables: Spanish needs none, English knows one string.
fn tables() -> Lang {
    let mut texts: Vec<&str> = vec!["{}"; LANG_COUNT];
    texts[1] = r#"{"Guardar": "Save", "Abrir": "Open"}"#;
    Lang::from_json(&texts)
}

#[test]
fn lo_que_falta_cae_al_original() {
    let mut lang = tables();
    lienzo::lang::set(&mut lang, 1);
    assert_eq!(t(&lang, "una cadena que no existe"), "una cadena que no existe");
    lienzo::lang::set(&mut lang, 0);
    assert_eq!(t(&lang, "Guardar"), "Guardar");
}

#[test]
fn a_translated_string_comes_from_the_table() {
    let mut lang = tables();
    lienzo::lang::set(&mut lang, 1);
    assert_eq!(t(&lang, "Guardar"), "Save");
    assert_eq!(t(&lang, "Abrir"), "Open");
}

#[test]
fn a_table_that_does_not_parse_is_empty() {
    let mut texts: Vec<&str> = vec!["{}"; LANG_COUNT];
    texts[2] = "{ esto no es json";
    texts[3] = r#"{"Guardar": 3}"#;
    let mut lang = Lang::from_json(&texts);
    lienzo::lang::set(&mut lang, 2);
    assert_eq!(t(&lang, "Guardar"), "Guardar");
    lienzo::lang::set(&mut lang, 3);
    assert_eq!(t(&lang, "Guardar"), "Guardar");
}

#[test]
fn setting_past_the_last_language_keeps_the_last() {
    let mut lang = tables();
    assert_eq!(current(&lang), 0);
    lienzo::lang::set(&mut lang, 99);
    assert_eq!(current(&lang), LANG_COUNT - 1);
}

#[test]
fn codes_are_found_and_unknown_ones_fall_back_to_spanish() {
    assert_eq!(index_of("es"), 0);
    assert_eq!(index_of("en"), 1);
    assert_eq!(index_of("nl"), 9);
    assert_eq!(index_of("xx"), 0);
    assert_eq!(index_of(""), 0);
    for i in 0..LANG_COUNT {
        assert_eq!(index_of(lang_code(i)), i);
    }
}

#[test]
fn cada_idioma_se_nombra_en_su_lengua() {
    assert_eq!(lang_name(0), "Español");
    assert_eq!(lang_name(1), "English");
    assert_eq!(lang_name(6), "Русский");
    assert_eq!(lang_name(LANG_COUNT - 1), "Nederlands");
}
