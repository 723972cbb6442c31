//! Themes: the layout families, colors written as `#rrggbb`, and the
//! grouping of themes into light and dark pairs.
use vstd::prelude::*;
use vstd::string::*;
use crate::chars::chars_of;
use crate::color::{opaque, Color};

verus! {

/// How the same command table is laid out.
#[derive(Clone, Copy, PartialEq, Eq, Debug, Structural)]
pub enum Chrome {
    /// Ribbon on top with labelled groups.
    Ribbon,
    /// Tool grid on the left, palette at the bottom.
    Palette,
    /// Unified title bar, tools on one side, an inspector on the other.
    Mac,
    /// The title bar is the tool bar.
    Gnome,
    /// Menu bar, icon bar, tool panel and color panel.
    Kde,
    /// One bar at the foot and the canvas to the four edges.
    Neon,
    /// A console and a reader floating over the canvas.
    Holo,
    /// A tool rail, a bar with what the tool can do, a floating canvas.
    Studio,
}

/// Unicode White_Space, the characters `str::trim` removes.
pub open spec fn is_ws_spec(c: char) -> bool {
    let u = c as u32;
    (0x9 <= u <= 0xd) || u == 0x20 || u == 0x85 || u == 0xa0 || u == 0x1680 || (0x2000 <= u <= 0x200a) || u == 0x2028
        || u == 0x2029 || u == 0x202f || u == 0x205f || u == 0x3000
}

pub fn is_ws(c: char) -> (b: bool)
    ensures
        b == is_ws_spec(c),
{
    let u = c as u32;
    (0x9 <= u && u <= 0xd) || u == 0x20 || u == 0x85 || u == 0xa0 || u == 0x1680 || (0x2000 <= u && u <= 0x200a)
        || u == 0x2028 || u == 0x2029 || u == 0x202f || u == 0x205f || u == 0x3000
}

/// The first position from `i` on that is not whitespace.
pub open spec fn lead_from(s: Seq<char>, i: int) -> int
    decreases s.len() - i,
{
    if 0 <= i < s.len() && is_ws_spec(s[i]) {
        lead_from(s, i + 1)
    } else {
        i
    }
}

/// The end of `s` once the whitespace before `j` (down to `lo`) is cut.
pub open spec fn trail_from(s: Seq<char>, lo: int, j: int) -> int
    decreases j - lo,
{
    if lo < j && j <= s.len() && is_ws_spec(s[j - 1]) {
        trail_from(s, lo, j - 1)
    } else {
        j
    }
}

/// The first position from `i` on, before `j`, that is not `#`.
pub open spec fn hash_from(s: Seq<char>, i: int, j: int) -> int
    decreases j - i,
{
    if 0 <= i < j && s[i] == '#' {
        hash_from(s, i + 1, j)
    } else {
        i
    }
}

/// `s` without surrounding whitespace and then without leading `#`s.
pub open spec fn hex_body(s: Seq<char>) -> Seq<char> {
    let a = lead_from(s, 0);
    let e = trail_from(s, a, s.len() as int);
    s.subrange(hash_from(s, a, e), e)
}

/// The value of a hexadecimal digit.
pub open spec fn digit_spec(c: char) -> Option<u8> {
    let u = c as u32;
    if 0x30 <= u <= 0x39 {
        Some((u - 0x30) as u8)
    } else if 0x61 <= u <= 0x66 {
        Some((u - 0x61 + 10) as u8)
    } else if 0x41 <= u <= 0x46 {
        Some((u - 0x41 + 10) as u8)
    } else {
        None
    }
}

/// `u8::from_str_radix` in base 16 on one character: a lone sign is no
/// number.
pub open spec fn radix1(c: char) -> Option<u8> {
    if c == '+' { None } else { digit_spec(c) }
}

/// `u8::from_str_radix` in base 16 on two characters: a leading `+` is
/// allowed, a `-` is not (the type is unsigned).
pub open spec fn radix2(a: char, b: char) -> Option<u8> {
    if a == '+' {
        digit_spec(b)
    } else {
        match (digit_spec(a), digit_spec(b)) {
            (Some(x), Some(y)) => Some((16 * x + y) as u8),
            _ => None,
        }
    }
}

/// The color written in `s` as `#rrggbb` or `#rgb` (each digit of the short
/// form doubled); `None` for anything else.
pub open spec fn parse_hex_spec(s: Seq<char>) -> Option<Color> {
    let h = hex_body(s);
    if !(forall|i: int| 0 <= i < h.len() ==> (h[i] as u32) < 128) {
        None
    } else if h.len() == 6 {
        match (radix2(h[0], h[1]), radix2(h[2], h[3]), radix2(h[4], h[5])) {
            (Some(r), Some(g), Some(b)) => Some(opaque(r, g, b)),
            _ => None,
        }
    } else if h.len() == 3 {
        match (radix1(h[0]), radix1(h[1]), radix1(h[2])) {
            (Some(r), Some(g), Some(b)) => Some(opaque((r * 17) as u8, (g * 17) as u8, (b * 17) as u8)),
            _ => None,
        }
    } else {
        None
    }
}

fn digit(c: char) -> (d: Option<u8>)
    ensures
        d == digit_spec(c),
{
    let u = c as u32;
    if 0x30 <= u && u <= 0x39 {
        Some((u - 0x30) as u8)
    } else if 0x61 <= u && u <= 0x66 {
        Some((u - 0x61 + 10) as u8)
    } else if 0x41 <= u && u <= 0x46 {
        Some((u - 0x41 + 10) as u8)
    } else {
        None
    }
}

fn one(c: char) -> (d: Option<u8>)
    ensures
        d == radix1(c),
{
    if c == '+' { None } else { digit(c) }
}

fn two(a: char, b: char) -> (d: Option<u8>)
    ensures
        d == radix2(a, b),
{
    if a == '+' {
        digit(b)
    } else {
        match (digit(a), digit(b)) {
            (Some(x), Some(y)) => Some(16 * x + y),
            _ => None,
        }
    }
}

/// Reads `#rrggbb` or `#rgb`, with whitespace around and any number of
/// leading `#`s; anything else, and anything outside ASCII, is `None`.
pub fn parse_hex(s: &str) -> (c: Option<Color>)
    ensures
        c == parse_hex_spec(s@),
{
    let v = chars_of(s);
    let n = v.len();
    let mut a: usize = 0;
    while a < n && is_ws(v[a])
        invariant
            v@ == s@,
            n == v@.len(),
            a <= n,
            lead_from(s@, 0) == lead_from(s@, a as int),
        decreases n - a,
    {
        a += 1;
    }
    let mut e: usize = n;
    while e > a && is_ws(v[e - 1])
        invariant
            v@ == s@,
            n == v@.len(),
            a <= e <= n,
            trail_from(s@, a as int, n as int) == trail_from(s@, a as int, e as int),
        decreases e,
    {
        e -= 1;
    }
    let mut k: usize = a;
    while k < e && v[k] == '#'
        invariant
            v@ == s@,
            n == v@.len(),
            a <= k <= e <= n,
            hash_from(s@, a as int, e as int) == hash_from(s@, k as int, e as int),
        decreases e - k,
    {
        k += 1;
    }
    let ghost h = s@.subrange(k as int, e as int);
    assert(h == hex_body(s@));
    let mut i: usize = k;
    while i < e
        invariant
            v@ == s@,
            h == s@.subrange(k as int, e as int),
            h == hex_body(s@),
            k <= i <= e <= n,
            n == v@.len(),
            forall|j: int| 0 <= j < i - k ==> (h[j] as u32) < 128,
        decreases e - i,
    {
        if (v[i] as u32) >= 128 {
            assert(h[i - k] == v@[i as int]);
            assert((h[i - k] as u32) >= 128);
            assert(!(forall|j: int| 0 <= j < h.len() ==> (h[j] as u32) < 128));
            return None;
        }
        i += 1;
    }
    if e - k == 6 {
        match (two(v[k], v[k + 1]), two(v[k + 2], v[k + 3]), two(v[k + 4], v[k + 5])) {
            (Some(r), Some(g), Some(b)) => Some(Color::from_rgb(r, g, b)),
            _ => None,
        }
    } else if e - k == 3 {
        match (one(v[k]), one(v[k + 1]), one(v[k + 2])) {
            (Some(r), Some(g), Some(b)) => Some(Color::from_rgb(r * 17, g * 17, b * 17)),
            _ => None,
        }
    } else {
        None
    }
}

/// The lowercase hexadecimal digit of a value below 16.
pub open spec fn hex_char(d: u8) -> char {
    if d < 10 { (0x30 + d) as char } else { (0x61 + d - 10) as char }
}

/// `#rrggbb` in lowercase, as themes write colors.
pub open spec fn to_hex_spec(c: Color) -> Seq<char> {
    seq![
        '#',
        hex_char(c.r / 16),
        hex_char(c.r % 16),
        hex_char(c.g / 16),
        hex_char(c.g % 16),
        hex_char(c.b / 16),
        hex_char(c.b % 16),
    ]
}

fn hex_str(d: u8) -> (s: &'static str)
    requires
        d < 16,
    ensures
        s@ == seq![hex_char(d)],
{
    match d {
        0 => {
            proof {
                reveal_strlit("0");
            }
            "0"
        },
        1 => {
            proof {
                reveal_strlit("1");
            }
            "1"
        },
        2 => {
            proof {
                reveal_strlit("2");
            }
            "2"
        },
        3 => {
            proof {
                reveal_strlit("3");
            }
            "3"
        },
        4 => {
            proof {
                reveal_strlit("4");
            }
            "4"
        },
        5 => {
            proof {
                reveal_strlit("5");
            }
            "5"
        },
        6 => {
            proof {
                reveal_strlit("6");
            }
            "6"
        },
        7 => {
            proof {
                reveal_strlit("7");
            }
            "7"
        },
        8 => {
            proof {
                reveal_strlit("8");
            }
            "8"
        },
        9 => {
            proof {
                reveal_strlit("9");
            }
            "9"
        },
        10 => {
            proof {
                reveal_strlit("a");
            }
            "a"
        },
        11 => {
            proof {
                reveal_strlit("b");
            }
            "b"
        },
        12 => {
            proof {
                reveal_strlit("c");
            }
            "c"
        },
        13 => {
            proof {
                reveal_strlit("d");
            }
            "d"
        },
        14 => {
            proof {
                reveal_strlit("e");
            }
            "e"
        },
        _ => {
            proof {
                reveal_strlit("f");
            }
            "f"
        },
    }
}

/// The color as `#rrggbb` in lowercase; the alpha byte is not written.
pub fn to_hex(c: Color) -> (s: String)
    ensures
        s@ == to_hex_spec(c),
{
    proof {
        reveal_strlit("#");
    }
    let mut s = String::from_str("#");
    s.append(hex_str(c.r / 16));
    s.append(hex_str(c.r % 16));
    s.append(hex_str(c.g / 16));
    s.append(hex_str(c.g % 16));
    s.append(hex_str(c.b / 16));
    s.append(hex_str(c.b % 16));
    assert(s@ =~= to_hex_spec(c));
    s
}

proof fn lemma_hex_char(d: u8)
    requires
        d < 16,
    ensures
        digit_spec(hex_char(d)) == Some(d),
        hex_char(d) != '+',
        hex_char(d) != '#',
        !is_ws_spec(hex_char(d)),
        (hex_char(d) as u32) < 128,
{
}

/// A color written with `to_hex` reads back with `parse_hex` as the same
/// opaque color.
pub proof fn law_hex_round_trip(c: Color)
    ensures
        parse_hex_spec(to_hex_spec(c)) == Some(opaque(c.r, c.g, c.b)),
{
    let s = to_hex_spec(c);
    lemma_hex_char(c.r / 16);
    lemma_hex_char(c.r % 16);
    lemma_hex_char(c.g / 16);
    lemma_hex_char(c.g % 16);
    lemma_hex_char(c.b / 16);
    lemma_hex_char(c.b % 16);
    assert(!is_ws_spec(s[0]));
    assert(lead_from(s, 0) == 0);
    assert(trail_from(s, 0, 7) == 7);
    assert(hash_from(s, 1, 7) == 1);
    assert(hash_from(s, 0, 7) == 1);
    let h = s.subrange(1, 7);
    assert(h == hex_body(s));
    assert(h.len() == 6);
    assert(forall|i: int| 0 <= i < h.len() ==> (h[i] as u32) < 128) by {
        assert forall|i: int| 0 <= i < h.len() implies (h[i] as u32) < 128 by {
            assert(h[i] == s[i + 1]);
        }
    }
    assert(h[0] == hex_char(c.r / 16) && h[1] == hex_char(c.r % 16));
    assert(radix2(h[0], h[1]) == Some(c.r));
    assert(radix2(h[2], h[3]) == Some(c.g));
    assert(radix2(h[4], h[5]) == Some(c.b));
}

/// What `families` reads of a theme: its name, the name of its pair in
/// the other mode, and its mode.
pub struct ThemeId {
    pub name: String,
    pub pair: Option<String>,
    pub dark: bool,
}

/// A theme identity as plain values.
pub open spec fn id_view(t: ThemeId) -> (Seq<char>, Option<Seq<char>>, bool) {
    (t.name@, match t.pair {
        Some(p) => Some(p@),
        None => None,
    }, t.dark)
}

pub open spec fn ids_view(ts: Seq<ThemeId>) -> Seq<(Seq<char>, Option<Seq<char>>, bool)> {
    ts.map_values(|t: ThemeId| id_view(t))
}

/// The first theme from `i` on named `n`.
pub open spec fn position_from(ts: Seq<(Seq<char>, Option<Seq<char>>, bool)>, n: Seq<char>, i: int) -> Option<int>
    decreases ts.len() - i,
{
    if i < 0 || i >= ts.len() {
        None
    } else if ts[i].0 == n {
        Some(i)
    } else {
        position_from(ts, n, i + 1)
    }
}

/// The theme a theme declares as its pair, if one has that name.
pub open spec fn pair_of(ts: Seq<(Seq<char>, Option<Seq<char>>, bool)>, i: int) -> Option<int> {
    match ts[i].1 {
        Some(p) => position_from(ts, p, 0),
        None => None,
    }
}

/// The names the families opened among the first `i` themes hold: each
/// opener's own name and the name of the pair it declares.
pub open spec fn held(ts: Seq<(Seq<char>, Option<Seq<char>>, bool)>, i: int) -> Seq<Seq<char>>
    decreases i,
{
    if i <= 0 {
        Seq::empty()
    } else {
        let h = held(ts, i - 1);
        let k = i - 1;
        if h.contains(ts[k].0) {
            h
        } else {
            match pair_of(ts, k) {
                Some(j) => h.push(ts[k].0).push(ts[j].0),
                None => h.push(ts[k].0),
            }
        }
    }
}

/// Theme `i` opens a family: no family opened before it holds its name.
pub open spec fn opens(ts: Seq<(Seq<char>, Option<Seq<char>>, bool)>, i: int) -> bool {
    !held(ts, i).contains(ts[i].0)
}

/// The entry of the family theme `i` opens: the light member's name (the
/// theme's own when it is light or has no pair) and the index of the member
/// of the requested mode (the theme itself when it has no pair).
pub open spec fn family_entry(ts: Seq<(Seq<char>, Option<Seq<char>>, bool)>, dark: bool, i: int) -> (Seq<char>, int) {
    let light = if ts[i].2 {
        match pair_of(ts, i) {
            Some(j) => ts[j].0,
            None => ts[i].0,
        }
    } else {
        ts[i].0
    };
    let idx = if ts[i].2 == dark {
        i
    } else {
        match pair_of(ts, i) {
            Some(j) => j,
            None => i,
        }
    };
    (light, idx)
}

pub open spec fn opener(ts: Seq<(Seq<char>, Option<Seq<char>>, bool)>) -> spec_fn(int) -> bool {
    |i: int| opens(ts, i)
}

pub open spec fn entry_of(ts: Seq<(Seq<char>, Option<Seq<char>>, bool)>, dark: bool) -> spec_fn(int) -> (Seq<char>, int) {
    |i: int| family_entry(ts, dark, i)
}

/// The families among the first `n` themes: one entry per family, in the
/// order in which the families first appear.
pub open spec fn families_upto(ts: Seq<(Seq<char>, Option<Seq<char>>, bool)>, dark: bool, n: int) -> Seq<(Seq<char>, int)> {
    Seq::new(n as nat, |i: int| i).filter(opener(ts)).map_values(entry_of(ts, dark))
}

pub open spec fn entries_view(v: Seq<(String, usize)>) -> Seq<(Seq<char>, int)> {
    v.map_values(|e: (String, usize)| (e.0@, e.1 as int))
}

pub open spec fn names_view(v: Seq<String>) -> Seq<Seq<char>> {
    v.map_values(|s: String| s@)
}

fn seen_contains(seen: &Vec<String>, n: &String) -> (b: bool)
    ensures
        b == names_view(seen@).contains(n@),
{
    let mut i: usize = 0;
    while i < seen.len()
        invariant
            i <= seen@.len(),
            forall|j: int| 0 <= j < i ==> seen@[j]@ != n@,
        decreases seen@.len() - i,
    {
        if seen[i] == *n {
            assert(names_view(seen@)[i as int] == n@);
            return true;
        }
        i += 1;
    }
    assert forall|j: int| 0 <= j < names_view(seen@).len() implies names_view(seen@)[j] != n@ by {
        assert(names_view(seen@)[j] == seen@[j]@);
    }
    false
}

fn position(themes: &[ThemeId], n: &String) -> (p: Option<usize>)
    ensures
        p matches Some(j) ==> j < themes@.len(),
        match p {
            Some(j) => position_from(ids_view(themes@), n@, 0) == Some(j as int),
            None => position_from(ids_view(themes@), n@, 0) is None,
        },
{
    let ghost ts = ids_view(themes@);
    let mut i: usize = 0;
    while i < themes.len()
        invariant
            ts == ids_view(themes@),
            i <= themes@.len(),
            position_from(ts, n@, 0) == position_from(ts, n@, i as int),
        decreases themes@.len() - i,
    {
        if themes[i].name == *n {
            assert(ts[i as int].0 == themes@[i as int].name@);
            return Some(i);
        }
        assert(ts[i as int].0 == themes@[i as int].name@);
        i += 1;
    }
    None
}

/// One entry per family of themes, in the order in which the families
/// first appear: the light theme's name and the index of the variant of the
/// requested mode. A family is made by the declared pair, not by the names,
/// which need not share a word.
pub fn families(themes: &[ThemeId], dark: bool) -> (out: Vec<(String, usize)>)
    ensures
        entries_view(out@) == families_upto(ids_view(themes@), dark, themes@.len() as int),
{
    let ghost ts = ids_view(themes@);
    let mut out: Vec<(String, usize)> = Vec::new();
    let mut seen: Vec<String> = Vec::new();
    let mut i: usize = 0;
    proof {
        assert(entries_view(out@) =~= Seq::empty());
        assert(names_view(seen@) =~= Seq::empty());
        assert(Seq::new(0nat, |k: int| k) =~= Seq::<int>::empty());
        assert(Seq::<int>::empty().filter(opener(ts)) =~= Seq::<int>::empty()) by {
            broadcast use vstd::seq_lib::group_filter_ensures;
        }
        assert(families_upto(ts, dark, 0) =~= Seq::empty());
    }
    while i < themes.len()
        invariant
            ts == ids_view(themes@),
            i <= themes@.len(),
            names_view(seen@) == held(ts, i as int),
            entries_view(out@) == families_upto(ts, dark, i as int),
        decreases themes@.len() - i,
    {
        let ghost seen0 = names_view(seen@);
        let ghost out0 = entries_view(out@);
        let t = &themes[i];
        assert(ts[i as int] == id_view(themes@[i as int]));
        let ghost idxs = Seq::new(i as nat, |k: int| k);
        proof {
            assert(Seq::new((i + 1) as nat, |k: int| k) =~= idxs.push(i as int));
            idxs.lemma_filter_push(i as int, opener(ts));
        }
        if seen_contains(&seen, &t.name) {
            proof {
                assert(!opens(ts, i as int));
                assert(held(ts, i + 1) == held(ts, i as int));
            }
            i += 1;
        } else {
            seen.push(t.name.clone());
            let pareja = match &t.pair {
                Some(p) => position(themes, p),
                None => None,
            };
            match pareja {
                Some(j) => {
                    seen.push(themes[j].name.clone());
                    proof {
                        assert(ts[j as int] == id_view(themes@[j as int]));
                    }
                },
                None => {},
            }
            let light = if t.dark {
                match pareja {
                    Some(j) => themes[j].name.clone(),
                    None => t.name.clone(),
                }
            } else {
                t.name.clone()
            };
            let idx = if t.dark == dark {
                i
            } else {
                match pareja {
                    Some(j) => j,
                    None => i,
                }
            };
            out.push((light, idx));
            proof {
                let pv = pair_of(ts, i as int);
                assert(pv == match pareja {
                    Some(j) => Some(j as int),
                    None => None::<int>,
                });
                assert(opens(ts, i as int));
                assert(names_view(seen@) =~= held(ts, i + 1));
                let f = idxs.filter(opener(ts));
                assert(f.push(i as int).map_values(entry_of(ts, dark)) =~= f.map_values(entry_of(ts, dark)).push(family_entry(ts, dark, i as int)));
                assert(family_entry(ts, dark, i as int) == (light@, idx as int));
                assert(entries_view(out@) =~= out0 + seq![(light@, idx as int)]);
                assert(entries_view(out@) =~= out0.push((light@, idx as int)));
            }
            i += 1;
        }
    }
    out
}

} // verus!
