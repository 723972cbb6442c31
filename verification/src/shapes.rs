//! The shape gallery and the brushes as plain tags, and the random
//! generator behind the textured brushes.
use vstd::prelude::*;
use crate::lang::{t, Lang};

verus! {

/// The shapes, in the order of the gallery.
#[derive(Clone, Copy, PartialEq, Eq, Debug, Structural)]
pub enum Shape {
    Line,
    Curve,
    Oval,
    Rectangle,
    RoundedRect,
    Polygon,
    Triangle,
    RightTriangle,
    Diamond,
    Pentagon,
    Hexagon,
    ArrowRight,
    ArrowLeft,
    ArrowUp,
    ArrowDown,
    Star4,
    Star5,
    Star6,
    CalloutRounded,
    CalloutOval,
    CalloutCloud,
    Heart,
    Lightning,
    Heptagon,
    Octagon,
    Trapezoid,
    Parallelogram,
    Cross,
    L,
    Chevron,
    ArrowNE,
    ArrowLeftRight,
    ArrowUpDown,
    ArrowFour,
    Star8,
    Star12,
    Sun,
    Burst,
    Moon,
    Drop,
    Gear,
    Shield,
    House,
    Bookmark,
    Tag,
    Semicircle,
    Sector,
    Nonagon,
    Decagon,
    Dodecagon,
    Kite,
    Rhomboid,
    TrapezoidR,
    ArrowBent,
    ArrowCurvedU,
    ArrowPentagon,
    CalloutSquare,
    Cross2,
    Frame,
    Chevron2,
    Zigzag,
    Pill,
    Egg,
    Leaf,
    Star3,
    Star7,
    Star10,
    Star24,
    BurstSharp,
    Cube,
    Plaque,
    Bevel,
    Diamond2,
}

/// The Spanish name of a shape: the key of its translation.
pub open spec fn shape_key(s: Shape) -> Seq<char> {
    match s {
        Shape::Line => "Línea"@,
        Shape::Curve => "Curva"@,
        Shape::Oval => "Óvalo"@,
        Shape::Rectangle => "Rectángulo"@,
        Shape::RoundedRect => "Rectángulo redondeado"@,
        Shape::Polygon => "Polígono"@,
        Shape::Triangle => "Triángulo"@,
        Shape::RightTriangle => "Triángulo rectángulo"@,
        Shape::Diamond => "Rombo"@,
        Shape::Pentagon => "Pentágono"@,
        Shape::Hexagon => "Hexágono"@,
        Shape::ArrowRight => "Flecha derecha"@,
        Shape::ArrowLeft => "Flecha izquierda"@,
        Shape::ArrowUp => "Flecha arriba"@,
        Shape::ArrowDown => "Flecha abajo"@,
        Shape::Star4 => "Estrella de 4 puntas"@,
        Shape::Star5 => "Estrella de 5 puntas"@,
        Shape::Star6 => "Estrella de 6 puntas"@,
        Shape::CalloutRounded => "Llamada rectangular redondeada"@,
        Shape::CalloutOval => "Llamada ovalada"@,
        Shape::CalloutCloud => "Llamada de nube"@,
        Shape::Heart => "Corazón"@,
        Shape::Lightning => "Rayo"@,
        Shape::Heptagon => "Heptágono"@,
        Shape::Octagon => "Octágono"@,
        Shape::Trapezoid => "Trapecio"@,
        Shape::Parallelogram => "Paralelogramo"@,
        Shape::Cross => "Cruz"@,
        Shape::L => "Ele"@,
        Shape::Chevron => "Galón"@,
        Shape::ArrowNE => "Flecha diagonal"@,
        Shape::ArrowLeftRight => "Flecha doble horizontal"@,
        Shape::ArrowUpDown => "Flecha doble vertical"@,
        Shape::ArrowFour => "Flecha de cuatro puntas"@,
        Shape::Star8 => "Estrella de 8 puntas"@,
        Shape::Star12 => "Estrella de 12 puntas"@,
        Shape::Sun => "Sol"@,
        Shape::Burst => "Explosión"@,
        Shape::Moon => "Luna"@,
        Shape::Drop => "Gota"@,
        Shape::Gear => "Engranaje"@,
        Shape::Shield => "Escudo"@,
        Shape::House => "Casa"@,
        Shape::Bookmark => "Marcador"@,
        Shape::Tag => "Etiqueta"@,
        Shape::Semicircle => "Semicírculo"@,
        Shape::Sector => "Sector circular"@,
        Shape::Nonagon => "Eneágono"@,
        Shape::Decagon => "Decágono"@,
        Shape::Dodecagon => "Dodecágono"@,
        Shape::Kite => "Cometa"@,
        Shape::Rhomboid => "Romboide"@,
        Shape::TrapezoidR => "Trapecio acostado"@,
        Shape::ArrowBent => "Flecha doblada"@,
        Shape::ArrowCurvedU => "Flecha en U"@,
        Shape::ArrowPentagon => "Flecha pentagonal"@,
        Shape::CalloutSquare => "Llamada rectangular"@,
        Shape::Cross2 => "Cruz delgada"@,
        Shape::Frame => "Marco"@,
        Shape::Chevron2 => "Galón delgado"@,
        Shape::Zigzag => "Zigzag"@,
        Shape::Pill => "Cápsula"@,
        Shape::Egg => "Huevo"@,
        Shape::Leaf => "Hoja"@,
        Shape::Star3 => "Estrella de 3 puntas"@,
        Shape::Star7 => "Estrella de 7 puntas"@,
        Shape::Star10 => "Estrella de 10 puntas"@,
        Shape::Star24 => "Sol de 24 rayos"@,
        Shape::BurstSharp => "Explosión aguda"@,
        Shape::Cube => "Cubo"@,
        Shape::Plaque => "Placa"@,
        Shape::Bevel => "Bisel"@,
        Shape::Diamond2 => "Rombo alargado"@,
    }
}

impl Shape {
    /// The Spanish name of the shape.
    pub fn key(self) -> (k: &'static str)
        ensures
            k@ == shape_key(self),
    {
        match self {
            Shape::Line => "Línea",
            Shape::Curve => "Curva",
            Shape::Oval => "Óvalo",
            Shape::Rectangle => "Rectángulo",
            Shape::RoundedRect => "Rectángulo redondeado",
            Shape::Polygon => "Polígono",
            Shape::Triangle => "Triángulo",
            Shape::RightTriangle => "Triángulo rectángulo",
            Shape::Diamond => "Rombo",
            Shape::Pentagon => "Pentágono",
            Shape::Hexagon => "Hexágono",
            Shape::ArrowRight => "Flecha derecha",
            Shape::ArrowLeft => "Flecha izquierda",
            Shape::ArrowUp => "Flecha arriba",
            Shape::ArrowDown => "Flecha abajo",
            Shape::Star4 => "Estrella de 4 puntas",
            Shape::Star5 => "Estrella de 5 puntas",
            Shape::Star6 => "Estrella de 6 puntas",
            Shape::CalloutRounded => "Llamada rectangular redondeada",
            Shape::CalloutOval => "Llamada ovalada",
            Shape::CalloutCloud => "Llamada de nube",
            Shape::Heart => "Corazón",
            Shape::Lightning => "Rayo",
            Shape::Heptagon => "Heptágono",
            Shape::Octagon => "Octágono",
            Shape::Trapezoid => "Trapecio",
            Shape::Parallelogram => "Paralelogramo",
            Shape::Cross => "Cruz",
            Shape::L => "Ele",
            Shape::Chevron => "Galón",
            Shape::ArrowNE => "Flecha diagonal",
            Shape::ArrowLeftRight => "Flecha doble horizontal",
            Shape::ArrowUpDown => "Flecha doble vertical",
            Shape::ArrowFour => "Flecha de cuatro puntas",
            Shape::Star8 => "Estrella de 8 puntas",
            Shape::Star12 => "Estrella de 12 puntas",
            Shape::Sun => "Sol",
            Shape::Burst => "Explosión",
            Shape::Moon => "Luna",
            Shape::Drop => "Gota",
            Shape::Gear => "Engranaje",
            Shape::Shield => "Escudo",
            Shape::House => "Casa",
            Shape::Bookmark => "Marcador",
            Shape::Tag => "Etiqueta",
            Shape::Semicircle => "Semicírculo",
            Shape::Sector => "Sector circular",
            Shape::Nonagon => "Eneágono",
            Shape::Decagon => "Decágono",
            Shape::Dodecagon => "Dodecágono",
            Shape::Kite => "Cometa",
            Shape::Rhomboid => "Romboide",
            Shape::TrapezoidR => "Trapecio acostado",
            Shape::ArrowBent => "Flecha doblada",
            Shape::ArrowCurvedU => "Flecha en U",
            Shape::ArrowPentagon => "Flecha pentagonal",
            Shape::CalloutSquare => "Llamada rectangular",
            Shape::Cross2 => "Cruz delgada",
            Shape::Frame => "Marco",
            Shape::Chevron2 => "Galón delgado",
            Shape::Zigzag => "Zigzag",
            Shape::Pill => "Cápsula",
            Shape::Egg => "Huevo",
            Shape::Leaf => "Hoja",
            Shape::Star3 => "Estrella de 3 puntas",
            Shape::Star7 => "Estrella de 7 puntas",
            Shape::Star10 => "Estrella de 10 puntas",
            Shape::Star24 => "Sol de 24 rayos",
            Shape::BurstSharp => "Explosión aguda",
            Shape::Cube => "Cubo",
            Shape::Plaque => "Placa",
            Shape::Bevel => "Bisel",
            Shape::Diamond2 => "Rombo alargado",
        }
    }

    /// The name the user sees, already translated.
    pub fn label<'a>(self, lang: &'a Lang) -> (l: &'a str)
        requires
            lang.wf(),
        ensures
            l@ == lang.translate(shape_key(self)),
    {
        t(lang, self.key())
    }

    /// Line and curve are open: they are never filled.
    pub fn is_closed(self) -> (b: bool)
        ensures
            b == !(self is Line || self is Curve),
    {
        !matches!(self, Shape::Line | Shape::Curve)
    }
}

/// The brushes, in the order of the gallery.
#[derive(Clone, Copy, PartialEq, Eq, Debug, Structural)]
pub enum Brush {
    Round,
    Calligraphy1,
    Calligraphy2,
    Airbrush,
    Oil,
    Crayon,
    Marker,
    NaturalPencil,
    Watercolor,
}

/// The Spanish name of a brush: the key of its translation.
pub open spec fn brush_key(b: Brush) -> Seq<char> {
    match b {
        Brush::Round => "Pincel"@,
        Brush::Calligraphy1 => "Caligrafía 1"@,
        Brush::Calligraphy2 => "Caligrafía 2"@,
        Brush::Airbrush => "Aerógrafo"@,
        Brush::Oil => "Óleo"@,
        Brush::Crayon => "Crayón"@,
        Brush::Marker => "Marcador"@,
        Brush::NaturalPencil => "Lápiz natural"@,
        Brush::Watercolor => "Acuarela"@,
    }
}

impl Brush {
    /// The Spanish name of the brush.
    pub fn key(self) -> (k: &'static str)
        ensures
            k@ == brush_key(self),
    {
        match self {
            Brush::Round => "Pincel",
            Brush::Calligraphy1 => "Caligrafía 1",
            Brush::Calligraphy2 => "Caligrafía 2",
            Brush::Airbrush => "Aerógrafo",
            Brush::Oil => "Óleo",
            Brush::Crayon => "Crayón",
            Brush::Marker => "Marcador",
            Brush::NaturalPencil => "Lápiz natural",
            Brush::Watercolor => "Acuarela",
        }
    }

    /// The name the user sees, already translated.
    pub fn label<'a>(self, lang: &'a Lang) -> (l: &'a str)
        requires
            lang.wf(),
        ensures
            l@ == lang.translate(brush_key(self)),
    {
        t(lang, self.key())
    }
}

/// One xorshift step on a 32-bit state.
pub open spec fn xorshift(x: u32) -> u32 {
    let a = x ^ ((x << 13u32) as u32);
    let b = a ^ (a >> 17u32);
    b ^ ((b << 5u32) as u32)
}

/// The seed every generator starts from. Zero would be a dead state: a
/// xorshift that reaches it stays there.
pub const SEED: u32 = 0x2545_F491;

/// A xorshift pseudo-random generator.
pub struct Rng {
    state: u32,
}

impl Rng {
    pub closed spec fn state(&self) -> u32 {
        self.state
    }

    pub fn new() -> (r: Rng)
        ensures
            r.state() == SEED,
            r.state() != 0,
    {
        Rng { state: SEED }
    }

    /// Advances the generator and returns the new state.
    pub fn next_u32(&mut self) -> (x: u32)
        ensures
            x == xorshift(old(self).state()),
            final(self).state() == x,
    {
        let mut x = self.state;
        x ^= x << 13u32;
        x ^= x >> 17u32;
        x ^= x << 5u32;
        self.state = x;
        x
    }
}

impl Default for Rng {
    /// The same as `new`: a generator at zero would never leave it.
    fn default() -> (r: Rng)
        ensures
            r.state() == SEED,
    {
        Rng::new()
    }
}

/// A xorshift step never reaches zero from a state that is not zero, so a
/// generator that starts at the seed keeps producing grain forever.
pub proof fn law_xorshift_never_dies(x: u32)
    requires
        x != 0,
    ensures
        xorshift(x) != 0,
{
    let a = x ^ ((x << 13u32) as u32);
    let b = a ^ (a >> 17u32);
    assert(x != 0 ==> x ^ ((x << 13u32) as u32) != 0) by (bit_vector);
    assert(a != 0 ==> a ^ (a >> 17u32) != 0) by (bit_vector);
    assert(b != 0 ==> b ^ ((b << 5u32) as u32) != 0) by (bit_vector);
}

/// Character `i` of `k`, or a blank past its end.
pub open spec fn char_or_blank(k: Seq<char>, i: int) -> char {
    if i < k.len() { k[i] } else { ' ' }
}

/// A few features of a name that already tell the 73 shape names apart:
/// its length, its first and last characters, and the characters at
/// positions 12 and 13 (where the stars write their number of points).
pub open spec fn name_features(k: Seq<char>) -> (int, char, char, char, char) {
    (k.len() as int, k[0], k[k.len() - 1], char_or_blank(k, 12), char_or_blank(k, 13))
}

/// The features of each shape's name, written out.
pub open spec fn shape_features(s: Shape) -> (int, char, char, char, char) {
    match s {
        Shape::Line => (5, 'L', 'a', ' ', ' '),
        Shape::Curve => (5, 'C', 'a', ' ', ' '),
        Shape::Oval => (5, 'Ó', 'o', ' ', ' '),
        Shape::Rectangle => (10, 'R', 'o', ' ', ' '),
        Shape::RoundedRect => (21, 'R', 'o', 'e', 'd'),
        Shape::Polygon => (8, 'P', 'o', ' ', ' '),
        Shape::Triangle => (9, 'T', 'o', ' ', ' '),
        Shape::RightTriangle => (20, 'T', 'o', 'c', 't'),
        Shape::Diamond => (5, 'R', 'o', ' ', ' '),
        Shape::Pentagon => (9, 'P', 'o', ' ', ' '),
        Shape::Hexagon => (8, 'H', 'o', ' ', ' '),
        Shape::ArrowRight => (14, 'F', 'a', 'h', 'a'),
        Shape::ArrowLeft => (16, 'F', 'a', 'e', 'r'),
        Shape::ArrowUp => (13, 'F', 'a', 'a', ' '),
        Shape::ArrowDown => (12, 'F', 'o', ' ', ' '),
        Shape::Star4 => (20, 'E', 's', '4', ' '),
        Shape::Star5 => (20, 'E', 's', '5', ' '),
        Shape::Star6 => (20, 'E', 's', '6', ' '),
        Shape::CalloutRounded => (30, 'L', 'a', 'a', 'n'),
        Shape::CalloutOval => (15, 'L', 'a', 'a', 'd'),
        Shape::CalloutCloud => (15, 'L', 'e', 'u', 'b'),
        Shape::Heart => (7, 'C', 'n', ' ', ' '),
        Shape::Lightning => (4, 'R', 'o', ' ', ' '),
        Shape::Heptagon => (9, 'H', 'o', ' ', ' '),
        Shape::Octagon => (8, 'O', 'o', ' ', ' '),
        Shape::Trapezoid => (8, 'T', 'o', ' ', ' '),
        Shape::Parallelogram => (13, 'P', 'o', 'o', ' '),
        Shape::Cross => (4, 'C', 'z', ' ', ' '),
        Shape::L => (3, 'E', 'e', ' ', ' '),
        Shape::Chevron => (5, 'G', 'n', ' ', ' '),
        Shape::ArrowNE => (15, 'F', 'l', 'n', 'a'),
        Shape::ArrowLeftRight => (23, 'F', 'l', ' ', 'h'),
        Shape::ArrowUpDown => (21, 'F', 'l', ' ', 'v'),
        Shape::ArrowFour => (23, 'F', 's', 'a', 't'),
        Shape::Star8 => (20, 'E', 's', '8', ' '),
        Shape::Star12 => (21, 'E', 's', '1', '2'),
        Shape::Sun => (3, 'S', 'l', ' ', ' '),
        Shape::Burst => (9, 'E', 'n', ' ', ' '),
        Shape::Moon => (4, 'L', 'a', ' ', ' '),
        Shape::Drop => (4, 'G', 'a', ' ', ' '),
        Shape::Gear => (9, 'E', 'e', ' ', ' '),
        Shape::Shield => (6, 'E', 'o', ' ', ' '),
        Shape::House => (4, 'C', 'a', ' ', ' '),
        Shape::Bookmark => (8, 'M', 'r', ' ', ' '),
        Shape::Tag => (8, 'E', 'a', ' ', ' '),
        Shape::Semicircle => (11, 'S', 'o', ' ', ' '),
        Shape::Sector => (15, 'S', 'r', 'l', 'a'),
        Shape::Nonagon => (8, 'E', 'o', ' ', ' '),
        Shape::Decagon => (8, 'D', 'o', ' ', ' '),
        Shape::Dodecagon => (10, 'D', 'o', ' ', ' '),
        Shape::Kite => (6, 'C', 'a', ' ', ' '),
        Shape::Rhomboid => (8, 'R', 'e', ' ', ' '),
        Shape::TrapezoidR => (17, 'T', 'o', 's', 't'),
        Shape::ArrowBent => (14, 'F', 'a', 'd', 'a'),
        Shape::ArrowCurvedU => (11, 'F', 'U', ' ', ' '),
        Shape::ArrowPentagon => (17, 'F', 'l', 'g', 'o'),
        Shape::CalloutSquare => (19, 'L', 'r', 'a', 'n'),
        Shape::Cross2 => (12, 'C', 'a', ' ', ' '),
        Shape::Frame => (5, 'M', 'o', ' ', ' '),
        Shape::Chevron2 => (13, 'G', 'o', 'o', ' '),
        Shape::Zigzag => (6, 'Z', 'g', ' ', ' '),
        Shape::Pill => (7, 'C', 'a', ' ', ' '),
        Shape::Egg => (5, 'H', 'o', ' ', ' '),
        Shape::Leaf => (4, 'H', 'a', ' ', ' '),
        Shape::Star3 => (20, 'E', 's', '3', ' '),
        Shape::Star7 => (20, 'E', 's', '7', ' '),
        Shape::Star10 => (21, 'E', 's', '1', '0'),
        Shape::Star24 => (15, 'S', 's', 'y', 'o'),
        Shape::BurstSharp => (15, 'E', 'a', 'u', 'd'),
        Shape::Cube => (4, 'C', 'o', ' ', ' '),
        Shape::Plaque => (5, 'P', 'a', ' ', ' '),
        Shape::Bevel => (5, 'B', 'l', ' ', ' '),
        Shape::Diamond2 => (14, 'R', 'o', 'd', 'o'),
    }
}

/// The shape whose name has features `t`, if one has.
pub open spec fn shape_with_features(t: (int, char, char, char, char)) -> Option<Shape> {
    if t == (5int, 'L', 'a', ' ', ' ') {
        Some(Shape::Line)
    } else if t == (5int, 'C', 'a', ' ', ' ') {
        Some(Shape::Curve)
    } else if t == (5int, 'Ó', 'o', ' ', ' ') {
        Some(Shape::Oval)
    } else if t == (10int, 'R', 'o', ' ', ' ') {
        Some(Shape::Rectangle)
    } else if t == (21int, 'R', 'o', 'e', 'd') {
        Some(Shape::RoundedRect)
    } else if t == (8int, 'P', 'o', ' ', ' ') {
        Some(Shape::Polygon)
    } else if t == (9int, 'T', 'o', ' ', ' ') {
        Some(Shape::Triangle)
    } else if t == (20int, 'T', 'o', 'c', 't') {
        Some(Shape::RightTriangle)
    } else if t == (5int, 'R', 'o', ' ', ' ') {
        Some(Shape::Diamond)
    } else if t == (9int, 'P', 'o', ' ', ' ') {
        Some(Shape::Pentagon)
    } else if t == (8int, 'H', 'o', ' ', ' ') {
        Some(Shape::Hexagon)
    } else if t == (14int, 'F', 'a', 'h', 'a') {
        Some(Shape::ArrowRight)
    } else if t == (16int, 'F', 'a', 'e', 'r') {
        Some(Shape::ArrowLeft)
    } else if t == (13int, 'F', 'a', 'a', ' ') {
        Some(Shape::ArrowUp)
    } else if t == (12int, 'F', 'o', ' ', ' ') {
        Some(Shape::ArrowDown)
    } else if t == (20int, 'E', 's', '4', ' ') {
        Some(Shape::Star4)
    } else if t == (20int, 'E', 's', '5', ' ') {
        Some(Shape::Star5)
    } else if t == (20int, 'E', 's', '6', ' ') {
        Some(Shape::Star6)
    } else if t == (30int, 'L', 'a', 'a', 'n') {
        Some(Shape::CalloutRounded)
    } else if t == (15int, 'L', 'a', 'a', 'd') {
        Some(Shape::CalloutOval)
    } else if t == (15int, 'L', 'e', 'u', 'b') {
        Some(Shape::CalloutCloud)
    } else if t == (7int, 'C', 'n', ' ', ' ') {
        Some(Shape::Heart)
    } else if t == (4int, 'R', 'o', ' ', ' ') {
        Some(Shape::Lightning)
    } else if t == (9int, 'H', 'o', ' ', ' ') {
        Some(Shape::Heptagon)
    } else if t == (8int, 'O', 'o', ' ', ' ') {
        Some(Shape::Octagon)
    } else if t == (8int, 'T', 'o', ' ', ' ') {
        Some(Shape::Trapezoid)
    } else if t == (13int, 'P', 'o', 'o', ' ') {
        Some(Shape::Parallelogram)
    } else if t == (4int, 'C', 'z', ' ', ' ') {
        Some(Shape::Cross)
    } else if t == (3int, 'E', 'e', ' ', ' ') {
        Some(Shape::L)
    } else if t == (5int, 'G', 'n', ' ', ' ') {
        Some(Shape::Chevron)
    } else if t == (15int, 'F', 'l', 'n', 'a') {
        Some(Shape::ArrowNE)
    } else if t == (23int, 'F', 'l', ' ', 'h') {
        Some(Shape::ArrowLeftRight)
    } else if t == (21int, 'F', 'l', ' ', 'v') {
        Some(Shape::ArrowUpDown)
    } else if t == (23int, 'F', 's', 'a', 't') {
        Some(Shape::ArrowFour)
    } else if t == (20int, 'E', 's', '8', ' ') {
        Some(Shape::Star8)
    } else if t == (21int, 'E', 's', '1', '2') {
        Some(Shape::Star12)
    } else if t == (3int, 'S', 'l', ' ', ' ') {
        Some(Shape::Sun)
    } else if t == (9int, 'E', 'n', ' ', ' ') {
        Some(Shape::Burst)
    } else if t == (4int, 'L', 'a', ' ', ' ') {
        Some(Shape::Moon)
    } else if t == (4int, 'G', 'a', ' ', ' ') {
        Some(Shape::Drop)
    } else if t == (9int, 'E', 'e', ' ', ' ') {
        Some(Shape::Gear)
    } else if t == (6int, 'E', 'o', ' ', ' ') {
        Some(Shape::Shield)
    } else if t == (4int, 'C', 'a', ' ', ' ') {
        Some(Shape::House)
    } else if t == (8int, 'M', 'r', ' ', ' ') {
        Some(Shape::Bookmark)
    } else if t == (8int, 'E', 'a', ' ', ' ') {
        Some(Shape::Tag)
    } else if t == (11int, 'S', 'o', ' ', ' ') {
        Some(Shape::Semicircle)
    } else if t == (15int, 'S', 'r', 'l', 'a') {
        Some(Shape::Sector)
    } else if t == (8int, 'E', 'o', ' ', ' ') {
        Some(Shape::Nonagon)
    } else if t == (8int, 'D', 'o', ' ', ' ') {
        Some(Shape::Decagon)
    } else if t == (10int, 'D', 'o', ' ', ' ') {
        Some(Shape::Dodecagon)
    } else if t == (6int, 'C', 'a', ' ', ' ') {
        Some(Shape::Kite)
    } else if t == (8int, 'R', 'e', ' ', ' ') {
        Some(Shape::Rhomboid)
    } else if t == (17int, 'T', 'o', 's', 't') {
        Some(Shape::TrapezoidR)
    } else if t == (14int, 'F', 'a', 'd', 'a') {
        Some(Shape::ArrowBent)
    } else if t == (11int, 'F', 'U', ' ', ' ') {
        Some(Shape::ArrowCurvedU)
    } else if t == (17int, 'F', 'l', 'g', 'o') {
        Some(Shape::ArrowPentagon)
    } else if t == (19int, 'L', 'r', 'a', 'n') {
        Some(Shape::CalloutSquare)
    } else if t == (12int, 'C', 'a', ' ', ' ') {
        Some(Shape::Cross2)
    } else if t == (5int, 'M', 'o', ' ', ' ') {
        Some(Shape::Frame)
    } else if t == (13int, 'G', 'o', 'o', ' ') {
        Some(Shape::Chevron2)
    } else if t == (6int, 'Z', 'g', ' ', ' ') {
        Some(Shape::Zigzag)
    } else if t == (7int, 'C', 'a', ' ', ' ') {
        Some(Shape::Pill)
    } else if t == (5int, 'H', 'o', ' ', ' ') {
        Some(Shape::Egg)
    } else if t == (4int, 'H', 'a', ' ', ' ') {
        Some(Shape::Leaf)
    } else if t == (20int, 'E', 's', '3', ' ') {
        Some(Shape::Star3)
    } else if t == (20int, 'E', 's', '7', ' ') {
        Some(Shape::Star7)
    } else if t == (21int, 'E', 's', '1', '0') {
        Some(Shape::Star10)
    } else if t == (15int, 'S', 's', 'y', 'o') {
        Some(Shape::Star24)
    } else if t == (15int, 'E', 'a', 'u', 'd') {
        Some(Shape::BurstSharp)
    } else if t == (4int, 'C', 'o', ' ', ' ') {
        Some(Shape::Cube)
    } else if t == (5int, 'P', 'a', ' ', ' ') {
        Some(Shape::Plaque)
    } else if t == (5int, 'B', 'l', ' ', ' ') {
        Some(Shape::Bevel)
    } else if t == (14int, 'R', 'o', 'd', 'o') {
        Some(Shape::Diamond2)
    } else {
        None
    }
}

proof fn lemma_name_features(s: Shape)
    ensures
        name_features(shape_key(s)) == shape_features(s),
{
    match s {
        Shape::Line => {
            reveal_strlit("Línea");
        },
        Shape::Curve => {
            reveal_strlit("Curva");
        },
        Shape::Oval => {
            reveal_strlit("Óvalo");
        },
        Shape::Rectangle => {
            reveal_strlit("Rectángulo");
        },
        Shape::RoundedRect => {
            reveal_strlit("Rectángulo redondeado");
        },
        Shape::Polygon => {
            reveal_strlit("Polígono");
        },
        Shape::Triangle => {
            reveal_strlit("Triángulo");
        },
        Shape::RightTriangle => {
            reveal_strlit("Triángulo rectángulo");
        },
        Shape::Diamond => {
            reveal_strlit("Rombo");
        },
        Shape::Pentagon => {
            reveal_strlit("Pentágono");
        },
        Shape::Hexagon => {
            reveal_strlit("Hexágono");
        },
        Shape::ArrowRight => {
            reveal_strlit("Flecha derecha");
        },
        Shape::ArrowLeft => {
            reveal_strlit("Flecha izquierda");
        },
        Shape::ArrowUp => {
            reveal_strlit("Flecha arriba");
        },
        Shape::ArrowDown => {
            reveal_strlit("Flecha abajo");
        },
        Shape::Star4 => {
            reveal_strlit("Estrella de 4 puntas");
        },
        Shape::Star5 => {
            reveal_strlit("Estrella de 5 puntas");
        },
        Shape::Star6 => {
            reveal_strlit("Estrella de 6 puntas");
        },
        Shape::CalloutRounded => {
            reveal_strlit("Llamada rectangular redondeada");
        },
        Shape::CalloutOval => {
            reveal_strlit("Llamada ovalada");
        },
        Shape::CalloutCloud => {
            reveal_strlit("Llamada de nube");
        },
        Shape::Heart => {
            reveal_strlit("Corazón");
        },
        Shape::Lightning => {
            reveal_strlit("Rayo");
        },
        Shape::Heptagon => {
            reveal_strlit("Heptágono");
        },
        Shape::Octagon => {
            reveal_strlit("Octágono");
        },
        Shape::Trapezoid => {
            reveal_strlit("Trapecio");
        },
        Shape::Parallelogram => {
            reveal_strlit("Paralelogramo");
        },
        Shape::Cross => {
            reveal_strlit("Cruz");
        },
        Shape::L => {
            reveal_strlit("Ele");
        },
        Shape::Chevron => {
            reveal_strlit("Galón");
        },
        Shape::ArrowNE => {
            reveal_strlit("Flecha diagonal");
        },
        Shape::ArrowLeftRight => {
            reveal_strlit("Flecha doble horizontal");
        },
        Shape::ArrowUpDown => {
            reveal_strlit("Flecha doble vertical");
        },
        Shape::ArrowFour => {
            reveal_strlit("Flecha de cuatro puntas");
        },
        Shape::Star8 => {
            reveal_strlit("Estrella de 8 puntas");
        },
        Shape::Star12 => {
            reveal_strlit("Estrella de 12 puntas");
        },
        Shape::Sun => {
            reveal_strlit("Sol");
        },
        Shape::Burst => {
            reveal_strlit("Explosión");
        },
        Shape::Moon => {
            reveal_strlit("Luna");
        },
        Shape::Drop => {
            reveal_strlit("Gota");
        },
        Shape::Gear => {
            reveal_strlit("Engranaje");
        },
        Shape::Shield => {
            reveal_strlit("Escudo");
        },
        Shape::House => {
            reveal_strlit("Casa");
        },
        Shape::Bookmark => {
            reveal_strlit("Marcador");
        },
        Shape::Tag => {
            reveal_strlit("Etiqueta");
        },
        Shape::Semicircle => {
            reveal_strlit("Semicírculo");
        },
        Shape::Sector => {
            reveal_strlit("Sector circular");
        },
        Shape::Nonagon => {
            reveal_strlit("Eneágono");
        },
        Shape::Decagon => {
            reveal_strlit("Decágono");
        },
        Shape::Dodecagon => {
            reveal_strlit("Dodecágono");
        },
        Shape::Kite => {
            reveal_strlit("Cometa");
        },
        Shape::Rhomboid => {
            reveal_strlit("Romboide");
        },
        Shape::TrapezoidR => {
            reveal_strlit("Trapecio acostado");
        },
        Shape::ArrowBent => {
            reveal_strlit("Flecha doblada");
        },
        Shape::ArrowCurvedU => {
            reveal_strlit("Flecha en U");
        },
        Shape::ArrowPentagon => {
            reveal_strlit("Flecha pentagonal");
        },
        Shape::CalloutSquare => {
            reveal_strlit("Llamada rectangular");
        },
        Shape::Cross2 => {
            reveal_strlit("Cruz delgada");
        },
        Shape::Frame => {
            reveal_strlit("Marco");
        },
        Shape::Chevron2 => {
            reveal_strlit("Galón delgado");
        },
        Shape::Zigzag => {
            reveal_strlit("Zigzag");
        },
        Shape::Pill => {
            reveal_strlit("Cápsula");
        },
        Shape::Egg => {
            reveal_strlit("Huevo");
        },
        Shape::Leaf => {
            reveal_strlit("Hoja");
        },
        Shape::Star3 => {
            reveal_strlit("Estrella de 3 puntas");
        },
        Shape::Star7 => {
            reveal_strlit("Estrella de 7 puntas");
        },
        Shape::Star10 => {
            reveal_strlit("Estrella de 10 puntas");
        },
        Shape::Star24 => {
            reveal_strlit("Sol de 24 rayos");
        },
        Shape::BurstSharp => {
            reveal_strlit("Explosión aguda");
        },
        Shape::Cube => {
            reveal_strlit("Cubo");
        },
        Shape::Plaque => {
            reveal_strlit("Placa");
        },
        Shape::Bevel => {
            reveal_strlit("Bisel");
        },
        Shape::Diamond2 => {
            reveal_strlit("Rombo alargado");
        },
    }
}

proof fn lemma_features_decode(s: Shape)
    ensures
        shape_with_features(shape_features(s)) == Some(s),
{
    match s {
        Shape::Line => {},
        Shape::Curve => {},
        Shape::Oval => {},
        Shape::Rectangle => {},
        Shape::RoundedRect => {},
        Shape::Polygon => {},
        Shape::Triangle => {},
        Shape::RightTriangle => {},
        Shape::Diamond => {},
        Shape::Pentagon => {},
        Shape::Hexagon => {},
        Shape::ArrowRight => {},
        Shape::ArrowLeft => {},
        Shape::ArrowUp => {},
        Shape::ArrowDown => {},
        Shape::Star4 => {},
        Shape::Star5 => {},
        Shape::Star6 => {},
        Shape::CalloutRounded => {},
        Shape::CalloutOval => {},
        Shape::CalloutCloud => {},
        Shape::Heart => {},
        Shape::Lightning => {},
        Shape::Heptagon => {},
        Shape::Octagon => {},
        Shape::Trapezoid => {},
        Shape::Parallelogram => {},
        Shape::Cross => {},
        Shape::L => {},
        Shape::Chevron => {},
        Shape::ArrowNE => {},
        Shape::ArrowLeftRight => {},
        Shape::ArrowUpDown => {},
        Shape::ArrowFour => {},
        Shape::Star8 => {},
        Shape::Star12 => {},
        Shape::Sun => {},
        Shape::Burst => {},
        Shape::Moon => {},
        Shape::Drop => {},
        Shape::Gear => {},
        Shape::Shield => {},
        Shape::House => {},
        Shape::Bookmark => {},
        Shape::Tag => {},
        Shape::Semicircle => {},
        Shape::Sector => {},
        Shape::Nonagon => {},
        Shape::Decagon => {},
        Shape::Dodecagon => {},
        Shape::Kite => {},
        Shape::Rhomboid => {},
        Shape::TrapezoidR => {},
        Shape::ArrowBent => {},
        Shape::ArrowCurvedU => {},
        Shape::ArrowPentagon => {},
        Shape::CalloutSquare => {},
        Shape::Cross2 => {},
        Shape::Frame => {},
        Shape::Chevron2 => {},
        Shape::Zigzag => {},
        Shape::Pill => {},
        Shape::Egg => {},
        Shape::Leaf => {},
        Shape::Star3 => {},
        Shape::Star7 => {},
        Shape::Star10 => {},
        Shape::Star24 => {},
        Shape::BurstSharp => {},
        Shape::Cube => {},
        Shape::Plaque => {},
        Shape::Bevel => {},
        Shape::Diamond2 => {},
    }
}

/// The 73 shapes have 73 different names and none is empty, so in the
/// original language no two shapes share a label (tooltip or translation
/// key).
pub proof fn law_shape_names_distinct(a: Shape, b: Shape, lang: Lang)
    requires
        lang.current_spec() == 0,
    ensures
        shape_key(a).len() > 0,
        shape_key(a) == shape_key(b) ==> a == b,
        lang.translate(shape_key(a)) == lang.translate(shape_key(b)) ==> a == b,
{
    lemma_name_features(a);
    lemma_name_features(b);
    lemma_features_decode(a);
    lemma_features_decode(b);
}

} // verus!
