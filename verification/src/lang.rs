//! Languages. The key of every string is the Spanish original itself, so a
//! missing translation falls back to readable Spanish instead of a hole.
use vstd::prelude::*;
use crate::chars::str_eq;

verus! {

/// How many languages there are; the first one, Spanish, is the original.
pub const LANG_COUNT: usize = 10;

/// The code of language `i`.
pub open spec fn code_spec(i: int) -> Seq<char> {
    if i == 0 {
        "es"@
    } else if i == 1 {
        "en"@
    } else if i == 2 {
        "pt"@
    } else if i == 3 {
        "fr"@
    } else if i == 4 {
        "de"@
    } else if i == 5 {
        "it"@
    } else if i == 6 {
        "ru"@
    } else if i == 7 {
        "pl"@
    } else if i == 8 {
        "tr"@
    } else {
        "nl"@
    }
}

/// The code of language `i`: es, en, pt, fr, de, it, ru, pl, tr, nl.
pub fn lang_code(i: usize) -> (c: &'static str)
    requires
        i < LANG_COUNT,
    ensures
        c@ == code_spec(i as int),
{
    match i {
        0 => "es",
        1 => "en",
        2 => "pt",
        3 => "fr",
        4 => "de",
        5 => "it",
        6 => "ru",
        7 => "pl",
        8 => "tr",
        _ => "nl",
    }
}

/// The name of language `i`, written in that language.
pub open spec fn name_spec(i: int) -> Seq<char> {
    if i == 0 {
        "Español"@
    } else if i == 1 {
        "English"@
    } else if i == 2 {
        "Português"@
    } else if i == 3 {
        "Français"@
    } else if i == 4 {
        "Deutsch"@
    } else if i == 5 {
        "Italiano"@
    } else if i == 6 {
        "Русский"@
    } else if i == 7 {
        "Polski"@
    } else if i == 8 {
        "Türkçe"@
    } else {
        "Nederlands"@
    }
}

/// The name of language `i`, written in that language.
pub fn lang_name(i: usize) -> (n: &'static str)
    requires
        i < LANG_COUNT,
    ensures
        n@ == name_spec(i as int),
{
    match i {
        0 => "Español",
        1 => "English",
        2 => "Português",
        3 => "Français",
        4 => "Deutsch",
        5 => "Italiano",
        6 => "Русский",
        7 => "Polski",
        8 => "Türkçe",
        _ => "Nederlands",
    }
}

/// The first language from `i` on whose code is `code`; 0 when none is.
pub open spec fn find_code(code: Seq<char>, i: int) -> int
    decreases LANG_COUNT - i,
{
    if i >= LANG_COUNT {
        0
    } else if code == code_spec(i) {
        i
    } else {
        find_code(code, i + 1)
    }
}

/// The language a saved code names. An unknown code falls back to Spanish.
pub fn index_of(code: &str) -> (i: usize)
    ensures
        i == find_code(code@, 0),
        i < LANG_COUNT,
{
    let mut i: usize = 0;
    while i < LANG_COUNT
        invariant
            i <= LANG_COUNT,
            find_code(code@, 0) == find_code(code@, i as int),
        decreases LANG_COUNT - i,
    {
        if str_eq(code, lang_code(i)) {
            return i;
        }
        i += 1;
    }
    0
}

/// The value of the first pair whose key is `key`.
pub open spec fn lookup(table: Seq<(Seq<char>, Seq<char>)>, key: Seq<char>) -> Option<Seq<char>>
    decreases table.len(),
{
    if table.len() == 0 {
        None
    } else if table[0].0 == key {
        Some(table[0].1)
    } else {
        lookup(table.drop_first(), key)
    }
}

proof fn lemma_lookup_skip(table: Seq<(Seq<char>, Seq<char>)>, key: Seq<char>, i: int)
    requires
        0 <= i <= table.len(),
        forall|j: int| 0 <= j < i ==> (#[trigger] table[j]).0 != key,
    ensures
        lookup(table, key) == lookup(table.subrange(i, table.len() as int), key),
    decreases i,
{
    if i > 0 {
        assert(table[0].0 != key);
        let rest = table.drop_first();
        assert forall|j: int| 0 <= j < i - 1 implies (#[trigger] rest[j]).0 != key by {
            assert(rest[j] == table[j + 1]);
        }
        lemma_lookup_skip(rest, key, i - 1);
        assert(rest.subrange(i - 1, rest.len() as int) =~= table.subrange(i, table.len() as int));
    } else {
        assert(table.subrange(0, table.len() as int) =~= table);
    }
}

/// The pairs of a table as plain sequences of characters.
pub open spec fn pairs_view(v: Seq<(String, String)>) -> Seq<(Seq<char>, Seq<char>)> {
    v.map_values(|p: (String, String)| (p.0@, p.1@))
}

/// No key occurs twice in a table, as in the map it was read into.
pub open spec fn keys_distinct(t: Seq<(Seq<char>, Seq<char>)>) -> bool {
    forall|i: int, j: int| 0 <= i < j < t.len() ==> t[i].0 != t[j].0
}

/// The string table that `serde_json` reads out of `text`, as key and value
/// pairs; `None` when `text` is not a JSON object of strings.
pub uninterp spec fn json_string_map(text: Seq<char>) -> Option<Seq<(Seq<char>, Seq<char>)>>;

/// Calls `serde_json::from_str` into a `BTreeMap` from strings to strings and
/// hands its pairs out in the map's order. What the parse gives is named by
/// `json_string_map`; the contract claims that the result is that name
/// applied to the text, and, as of any map, that no key occurs twice.
#[verifier::external_body]
fn parse_table(text: &str) -> (r: Option<Vec<(String, String)>>)
    ensures
        r matches Some(v) ==> json_string_map(text@) == Some(pairs_view(v@)),
        r matches Some(v) ==> keys_distinct(pairs_view(v@)),
        r is None ==> json_string_map(text@) is None,
{
    serde_json::from_str::<std::collections::BTreeMap<String, String>>(text).ok().map(|m| m.into_iter().collect())
}

/// The translation tables and the language in use.
pub struct Lang {
    current: usize,
    tables: Vec<Vec<(String, String)>>,
}

impl Lang {
    pub closed spec fn current_spec(&self) -> int {
        self.current as int
    }

    /// The table of language `i`.
    pub closed spec fn table(&self, i: int) -> Seq<(Seq<char>, Seq<char>)> {
        pairs_view(self.tables@[i]@)
    }

    pub closed spec fn wf(&self) -> bool {
        &&& self.tables@.len() == LANG_COUNT
        &&& self.current < LANG_COUNT
        &&& forall|i: int| 0 <= i < LANG_COUNT ==> keys_distinct(#[trigger] pairs_view(self.tables@[i]@))
    }

    /// What `t` answers for `key`: the key itself in the original language
    /// or where the table of the language in use lacks it.
    pub open spec fn translate(&self, key: Seq<char>) -> Seq<char> {
        if self.current_spec() == 0 {
            key
        } else {
            match lookup(self.table(self.current_spec()), key) {
                Some(v) => v,
                None => key,
            }
        }
    }

    /// The original language, with one table per language.
    pub fn new(tables: Vec<Vec<(String, String)>>) -> (l: Lang)
        requires
            tables@.len() == LANG_COUNT,
            forall|i: int| 0 <= i < LANG_COUNT ==> keys_distinct(#[trigger] pairs_view(tables@[i]@)),
        ensures
            l.wf(),
            l.current_spec() == 0,
            forall|i: int| 0 <= i < LANG_COUNT ==> #[trigger] l.table(i) == pairs_view(tables@[i]@),
    {
        Lang { current: 0, tables }
    }

    /// Reads one JSON table per language. A table that does not parse is
    /// left empty, so that language shows the original strings.
    pub fn from_json(texts: &[&str]) -> (l: Lang)
        requires
            texts@.len() == LANG_COUNT,
        ensures
            l.wf(),
            l.current_spec() == 0,
            forall|i: int| 0 <= i < LANG_COUNT ==> keys_distinct(#[trigger] l.table(i)),
            forall|i: int| 0 <= i < LANG_COUNT ==> #[trigger] l.table(i) == match json_string_map(texts@[i]@) {
                Some(t) => t,
                None => Seq::empty(),
            },
    {
        let mut tables: Vec<Vec<(String, String)>> = Vec::new();
        let mut i: usize = 0;
        while i < texts.len()
            invariant
                texts@.len() == LANG_COUNT,
                i <= texts@.len(),
                tables@.len() == i,
                forall|j: int| 0 <= j < i ==> #[trigger] pairs_view(tables@[j]@) == match json_string_map(texts@[j]@) {
                    Some(t) => t,
                    None => Seq::empty(),
                },
                forall|j: int| 0 <= j < i ==> keys_distinct(#[trigger] pairs_view(tables@[j]@)),
            decreases texts@.len() - i,
        {
            let t = match parse_table(texts[i]) {
                Some(v) => v,
                None => {
                    let e: Vec<(String, String)> = Vec::new();
                    assert(pairs_view(e@) =~= Seq::empty());
                    e
                },
            };
            tables.push(t);
            i += 1;
        }
        Lang::new(tables)
    }
}

/// The language in use.
pub fn current(lang: &Lang) -> (i: usize)
    ensures
        i == lang.current_spec(),
{
    lang.current
}

/// Puts language `i`; past the last one, the last one.
pub fn set(lang: &mut Lang, i: usize)
    requires
        old(lang).wf(),
    ensures
        final(lang).wf(),
        final(lang).current_spec() == if i < LANG_COUNT { i as int } else { LANG_COUNT - 1 },
        forall|j: int| #[trigger] final(lang).table(j) == old(lang).table(j),
{
    lang.current = if i < LANG_COUNT { i } else { LANG_COUNT - 1 };
}

/// The string in the language in use, or the original when it is not
/// translated.
pub fn t<'a>(lang: &'a Lang, key: &'a str) -> (r: &'a str)
    requires
        lang.wf(),
    ensures
        r@ == lang.translate(key@),
{
    if lang.current == 0 {
        return key;
    }
    let table = &lang.tables[lang.current];
    let ghost tv = pairs_view(table@);
    let mut i: usize = 0;
    while i < table.len()
        invariant
            tv == pairs_view(table@),
            tv == lang.table(lang.current_spec()),
            lang.current_spec() != 0,
            i <= table@.len(),
            forall|j: int| 0 <= j < i ==> (#[trigger] tv[j]).0 != key@,
        decreases table@.len() - i,
    {
        if str_eq(table[i].0.as_str(), key) {
            proof {
                lemma_lookup_skip(tv, key@, i as int);
                let rest = tv.subrange(i as int, tv.len() as int);
                assert(rest[0] == tv[i as int]);
                assert(tv[i as int] == (table@[i as int].0@, table@[i as int].1@));
                assert(lookup(rest, key@) == Some(tv[i as int].1));
            }
            return table[i].1.as_str();
        }
        i += 1;
    }
    proof {
        lemma_lookup_skip(tv, key@, i as int);
        assert(tv.subrange(i as int, tv.len() as int) =~= Seq::<(Seq<char>, Seq<char>)>::empty());
    }
    key
}

} // verus!
