//! Points tagged with the space they live in, and exact integer helpers.

use vstd::prelude::*;
use vstd::arithmetic::div_mod::{lemma_fundamental_div_mod, lemma_fundamental_div_mod_converse};

verus! {

/// Largest absolute value of a world coordinate.
pub const WORLD_LIMIT: i64 = 100_000_000;

/// A point of the document's own coordinate system.
#[derive(Clone, Copy, Debug, PartialEq, Eq, Structural)]
pub struct WorldPoint {
    pub x: i64,
    pub y: i64,
}

/// Screen units per pixel: screen positions are kept in fixed point with
/// this many parts per pixel, fine enough that every zoom level maps whole
/// world units to whole screen units and back without loss.
pub const SUBPIXEL: i64 = 65536;

/// Largest absolute pixel coordinate that `ScreenPoint::from_pixels` takes.
pub const PIXEL_LIMIT: i64 = 1_000_000_000_000;

/// A point of the viewport, in screen units (`SUBPIXEL` of them per pixel).
#[derive(Clone, Copy, Debug, PartialEq, Eq, Structural)]
pub struct ScreenPoint {
    pub x: i64,
    pub y: i64,
}

pub open spec fn in_world(v: int) -> bool {
    -WORLD_LIMIT <= v <= WORLD_LIMIT
}

impl WorldPoint {
    /// Both coordinates lie within the drawable world.
    pub open spec fn in_range(self) -> bool {
        in_world(self.x as int) && in_world(self.y as int)
    }

    pub fn new(x: i64, y: i64) -> (r: WorldPoint)
        ensures
            r.x == x,
            r.y == y,
    {
        WorldPoint { x, y }
    }

    /// Component-wise minimum.
    pub fn min(self, o: WorldPoint) -> (r: WorldPoint)
        ensures
            r.x == if self.x <= o.x { self.x } else { o.x },
            r.y == if self.y <= o.y { self.y } else { o.y },
    {
        WorldPoint {
            x: if self.x <= o.x { self.x } else { o.x },
            y: if self.y <= o.y { self.y } else { o.y },
        }
    }

    /// Component-wise maximum.
    pub fn max(self, o: WorldPoint) -> (r: WorldPoint)
        ensures
            r.x == if self.x >= o.x { self.x } else { o.x },
            r.y == if self.y >= o.y { self.y } else { o.y },
    {
        WorldPoint {
            x: if self.x >= o.x { self.x } else { o.x },
            y: if self.y >= o.y { self.y } else { o.y },
        }
    }
}

impl ScreenPoint {
    /// A point given in screen units.
    pub fn new(x: i64, y: i64) -> (r: ScreenPoint)
        ensures
            r.x == x,
            r.y == y,
    {
        ScreenPoint { x, y }
    }

    /// A point given in whole pixels.
    pub fn from_pixels(x: i64, y: i64) -> (r: ScreenPoint)
        requires
            -PIXEL_LIMIT <= x <= PIXEL_LIMIT,
            -PIXEL_LIMIT <= y <= PIXEL_LIMIT,
        ensures
            r.x == x * SUBPIXEL,
            r.y == y * SUBPIXEL,
    {
        ScreenPoint { x: x * SUBPIXEL, y: y * SUBPIXEL }
    }
}

/// Floor division by a positive divisor, as the mathematical `a / d`.
pub fn floor_div(a: i128, d: i128) -> (r: i128)
    requires
        d > 0,
        a > i128::MIN,
    ensures
        r == a / d,
{
    if a >= 0 {
        a / d
    } else {
        let q = (-a) / d;
        let m = (-a) % d;
        proof {
            lemma_fundamental_div_mod(-a as int, d as int);
            assert(-a == d * q + m);
            assert(d * q == q * d) by (nonlinear_arith);
        }
        if m == 0 {
            proof {
                assert(a == (-q) * d + 0) by (nonlinear_arith)
                    requires -a == q * d;
                lemma_fundamental_div_mod_converse(a as int, d as int, -q, 0);
            }
            -q
        } else {
            proof {
                assert(-a == q * d + m);
                assert(a == (-q - 1) * d + (d - m)) by (nonlinear_arith)
                    requires -a == q * d + m;
                lemma_fundamental_div_mod_converse(a as int, d as int, -q - 1, d - m);
            }
            -q - 1
        }
    }
}

} // verus!
