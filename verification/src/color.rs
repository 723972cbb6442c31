//! Colors as four plain bytes.
use vstd::prelude::*;

verus! {

/// An RGBA color, one byte per channel. The canvas is opaque, so every color
/// it creates has `a == 255`; the alpha byte is still compared by `==`.
#[derive(Clone, Copy, PartialEq, Eq, Debug, Structural)]
pub struct Color {
    pub r: u8,
    pub g: u8,
    pub b: u8,
    pub a: u8,
}

pub open spec fn opaque(r: u8, g: u8, b: u8) -> Color {
    Color { r, g, b, a: 255 }
}

impl Color {
    /// An opaque color from its three channels.
    pub fn from_rgb(r: u8, g: u8, b: u8) -> (c: Color)
        ensures
            c == opaque(r, g, b),
    {
        Color { r, g, b, a: 255 }
    }

    pub fn white() -> (c: Color)
        ensures
            c == opaque(255, 255, 255),
    {
        Color::from_rgb(255, 255, 255)
    }

    pub fn black() -> (c: Color)
        ensures
            c == opaque(0, 0, 0),
    {
        Color::from_rgb(0, 0, 0)
    }

    pub fn red() -> (c: Color)
        ensures
            c == opaque(255, 0, 0),
    {
        Color::from_rgb(255, 0, 0)
    }

    pub fn blue() -> (c: Color)
        ensures
            c == opaque(0, 0, 255),
    {
        Color::from_rgb(0, 0, 255)
    }
}

/// One channel of a translucent pixel composed over white, rounded.
pub open spec fn over_white(c: u8, a: u8) -> u8 {
    ((c * a + 255 * (255 - a) + 127) / 255) as u8
}

/// An RGBA pixel (four bytes) composed over white: the canvas is opaque,
/// so an imported image with transparency shows the paper through.
pub fn opaque_rgba(p: &[u8]) -> (c: Color)
    requires
        p@.len() >= 4,
    ensures
        c == opaque(over_white(p@[0], p@[3]), over_white(p@[1], p@[3]), over_white(p@[2], p@[3])),
{
    let a = p[3] as u16;
    Color::from_rgb(mix(p[0], a), mix(p[1], a), mix(p[2], a))
}

fn mix(c: u8, a: u16) -> (m: u8)
    requires
        a <= 255,
    ensures
        m == over_white(c, a as u8),
{
    let cc = c as u16;
    assert(cc * a <= 255 * a) by (nonlinear_arith)
        requires
            cc <= 255,
    ;
    assert(cc * a + 255 * (255 - a) + 127 <= 65152) by (nonlinear_arith)
        requires
            cc * a <= 255 * a,
            a <= 255,
    ;
    let v = (cc * a + 255 * (255 - a) + 127) / 255;
    assert(v <= 255);
    v as u8
}

} // verus!
