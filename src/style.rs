//! Colors and the stroke/fill snapshot that a shape carries.

use vstd::prelude::*;

verus! {

/// A color with 8-bit channels.
#[derive(Clone, Copy, Debug, PartialEq, Eq, Structural)]
pub struct Color {
    pub r: u8,
    pub g: u8,
    pub b: u8,
    pub a: u8,
}

impl Color {
    /// An opaque color.
    pub fn from_rgb(r: u8, g: u8, b: u8) -> (c: Color)
        ensures
            c == (Color { r, g, b, a: 255 }),
    {
        Color { r, g, b, a: 255 }
    }

    pub fn black() -> (c: Color)
        ensures
            c == (Color { r: 0, g: 0, b: 0, a: 255 }),
    {
        Color { r: 0, g: 0, b: 0, a: 255 }
    }

    pub fn white() -> (c: Color)
        ensures
            c == (Color { r: 255, g: 255, b: 255, a: 255 }),
    {
        Color { r: 255, g: 255, b: 255, a: 255 }
    }

    /// The same base color with another alpha.
    pub fn with_alpha(self, a: u8) -> (c: Color)
        ensures
            c == (Color { a, ..self }),
    {
        Color { a, ..self }
    }

    pub fn alpha(&self) -> (a: u8)
        ensures
            a == self.a,
    {
        self.a
    }
}

/// A line color and a thickness in world units.
#[derive(Clone, Copy, Debug, PartialEq, Eq, Structural)]
pub struct Stroke {
    pub color: Color,
    pub size: i64,
}

/// How a shape is painted: an optional outline and an optional fill.
#[derive(Clone, Copy, Debug, PartialEq, Eq, Structural)]
pub struct Style {
    pub stroke: Option<Stroke>,
    pub fill: Option<Color>,
}

/// Largest stroke thickness.
pub const MAX_THICKNESS: i64 = 1_000_000;

impl Style {
    /// Thickness, if any, is between 0 and the largest thickness.
    pub open spec fn wf(self) -> bool {
        self.stroke matches Some(s) ==> 0 <= s.size <= MAX_THICKNESS
    }

    /// An outline only.
    pub fn stroked(color: Color, size: i64) -> (s: Style)
        ensures
            s == (Style { stroke: Some(Stroke { color, size }), fill: None }),
    {
        Style { stroke: Some(Stroke { color, size }), fill: None }
    }
}

} // verus!
