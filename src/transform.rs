//! The map between world and screen space: a power-of-two scale and a
//! translation, with zoom and pan.
//!
//! A world unit at zoom level `k` spans `2^k` pixels, that is
//! `2^(k + 16)` screen units; since `k >= -16` that is a whole number of
//! screen units, so going to the screen and back gives the world point again.

use vstd::prelude::*;
use vstd::arithmetic::div_mod::lemma_div_multiples_vanish;
use crate::units::{WorldPoint, ScreenPoint, in_world, floor_div, WORLD_LIMIT};

verus! {

/// Largest zoom level in either direction; a level `k` scales by `2^k`.
pub const MAX_ZOOM_LEVEL: i64 = 16;

/// Largest absolute value of a translation component, in screen units.
pub const TRANSLATE_LIMIT: i64 = 1_000_000_000_000_000_000;

pub open spec fn pow2(k: nat) -> int
    decreases k,
{
    if k == 0 {
        1
    } else {
        2 * pow2((k - 1) as nat)
    }
}

proof fn lemma_pow2_pos(k: nat)
    ensures
        1 <= pow2(k),
    decreases k,
{
    if k > 0 {
        lemma_pow2_pos((k - 1) as nat);
    }
}

proof fn lemma_pow2_mono(a: nat, b: nat)
    requires
        a <= b,
    ensures
        pow2(a) <= pow2(b),
    decreases b - a,
{
    if a < b {
        lemma_pow2_mono(a, (b - 1) as nat);
        lemma_pow2_pos((b - 1) as nat);
    }
}

/// The exponents that the zoom levels use stay within 32 bits.
pub proof fn lemma_pow2_bounds(k: nat)
    requires
        k <= 32,
    ensures
        1 <= pow2(k) <= 0x1_0000_0000,
{
    lemma_pow2_pos(k);
    lemma_pow2_mono(k, 32);
    reveal_with_fuel(pow2, 33);
    assert(pow2(32) == 0x1_0000_0000);
}

pub open spec fn in_translate(v: int) -> bool {
    -TRANSLATE_LIMIT <= v <= TRANSLATE_LIMIT
}

/// Screen units per world unit at zoom `level`.
pub open spec fn units_per_world(level: int) -> int {
    pow2((level + 16) as nat)
}

/// Screen coordinate of world coordinate `w` at zoom `level` and offset `t`.
pub open spec fn screen_coord(level: int, w: int, t: int) -> int {
    w * units_per_world(level) + t
}

/// World coordinate of screen coordinate `s` at zoom `level` and offset
/// `t`, rounded down.
pub open spec fn world_coord(level: int, s: int, t: int) -> int {
    (s - t) / units_per_world(level)
}

/// Maps world space to screen space: `s = w * 2^(level + 16) + t`.
#[derive(Clone, Copy, Debug, PartialEq, Eq, Structural)]
pub struct Transform {
    pub level: i64,
    pub tx: i64,
    pub ty: i64,
}

pub open spec fn identity_spec() -> Transform {
    Transform { level: 0, tx: 0, ty: 0 }
}

/// The transform after one zoom-in step about `pivot`: the scale doubles and
/// the world point under the pivot stays under it; no change where the level
/// would pass `max_level` or the offset would leave its range.
pub open spec fn zoomed_in(t: Transform, pivot: ScreenPoint, max_level: int) -> Transform {
    let nx = 2 * t.tx - pivot.x;
    let ny = 2 * t.ty - pivot.y;
    if t.level < max_level && in_translate(nx) && in_translate(ny) {
        Transform { level: (t.level + 1) as i64, tx: nx as i64, ty: ny as i64 }
    } else {
        t
    }
}

/// The transform after one zoom-out step about `pivot`: the scale halves;
/// no change where the level would pass `min_level` or the offset would leave
/// its range.
pub open spec fn zoomed_out(t: Transform, pivot: ScreenPoint, min_level: int) -> Transform {
    let nx = pivot.x - (pivot.x - t.tx) / 2;
    let ny = pivot.y - (pivot.y - t.ty) / 2;
    if t.level > min_level && in_translate(nx) && in_translate(ny) {
        Transform { level: (t.level - 1) as i64, tx: nx as i64, ty: ny as i64 }
    } else {
        t
    }
}

pub open spec fn zoomed_in_n(t: Transform, pivot: ScreenPoint, max_level: int, n: nat) -> Transform
    decreases n,
{
    if n == 0 {
        t
    } else {
        zoomed_in(zoomed_in_n(t, pivot, max_level, (n - 1) as nat), pivot, max_level)
    }
}

pub open spec fn zoomed_out_n(t: Transform, pivot: ScreenPoint, min_level: int, n: nat) -> Transform
    decreases n,
{
    if n == 0 {
        t
    } else {
        zoomed_out_n(zoomed_out(t, pivot, min_level), pivot, min_level, (n - 1) as nat)
    }
}

pub open spec fn clamp_translate(v: int) -> int {
    if v < -TRANSLATE_LIMIT {
        -TRANSLATE_LIMIT as int
    } else if v > TRANSLATE_LIMIT {
        TRANSLATE_LIMIT as int
    } else {
        v
    }
}

fn clamp_translate_exec(v: i128) -> (r: i64)
    ensures
        r == clamp_translate(v as int),
{
    if v < -(TRANSLATE_LIMIT as i128) {
        -TRANSLATE_LIMIT
    } else if v > TRANSLATE_LIMIT as i128 {
        TRANSLATE_LIMIT
    } else {
        v as i64
    }
}

/// Screen units per world unit at zoom `level`.
fn units_per_world_exec(level: i64) -> (r: i128)
    requires
        -MAX_ZOOM_LEVEL <= level <= MAX_ZOOM_LEVEL,
    ensures
        r == units_per_world(level as int),
        1 <= r <= 0x1_0000_0000,
{
    let k = level + 16;
    let mut r: i128 = 1;
    let mut i: i64 = 0;
    while i < k
        invariant
            0 <= i <= k <= 32,
            r == pow2(i as nat),
        decreases k - i,
    {
        proof {
            lemma_pow2_bounds(i as nat);
        }
        r = r * 2;
        i = i + 1;
    }
    proof {
        lemma_pow2_bounds(k as nat);
    }
    r
}

impl Transform {
    /// Zoom level in range and offsets in range.
    pub open spec fn wf(self) -> bool {
        -MAX_ZOOM_LEVEL <= self.level <= MAX_ZOOM_LEVEL && in_translate(self.tx as int)
            && in_translate(self.ty as int)
    }

    /// Exact screen position of a world point.
    pub open spec fn screen_x(self, p: WorldPoint) -> int {
        screen_coord(self.level as int, p.x as int, self.tx as int)
    }

    pub open spec fn screen_y(self, p: WorldPoint) -> int {
        screen_coord(self.level as int, p.y as int, self.ty as int)
    }

    /// World position of a screen point, rounded down.
    pub open spec fn world_x(self, s: ScreenPoint) -> int {
        world_coord(self.level as int, s.x as int, self.tx as int)
    }

    pub open spec fn world_y(self, s: ScreenPoint) -> int {
        world_coord(self.level as int, s.y as int, self.ty as int)
    }

    /// The identity transform: one world unit per pixel, world origin at the
    /// screen origin.
    pub fn identity() -> (r: Transform)
        ensures
            r == identity_spec(),
            r.wf(),
    {
        Transform { level: 0, tx: 0, ty: 0 }
    }

    /// A pure translation by `(tx, ty)` screen units.
    pub fn new_translate(tx: i64, ty: i64) -> (r: Transform)
        requires
            in_translate(tx as int),
            in_translate(ty as int),
        ensures
            r == (Transform { level: 0, tx, ty }),
            r.wf(),
    {
        Transform { level: 0, tx, ty }
    }

    fn coord_to_screen(level: i64, w: i64, t: i64) -> (r: i64)
        requires
            -MAX_ZOOM_LEVEL <= level <= MAX_ZOOM_LEVEL,
            in_world(w as int),
            in_translate(t as int),
        ensures
            r == screen_coord(level as int, w as int, t as int),
    {
        let f = units_per_world_exec(level);
        let w2 = w as i128;
        assert(-429_496_729_600_000_000 <= w2 * f <= 429_496_729_600_000_000) by (nonlinear_arith)
            requires
                1 <= f <= 0x1_0000_0000,
                -100_000_000 <= w2 <= 100_000_000,
        ;
        (w2 * f + t as i128) as i64
    }

    fn coord_to_world(level: i64, s: i64, t: i64) -> (r: i128)
        requires
            -MAX_ZOOM_LEVEL <= level <= MAX_ZOOM_LEVEL,
            in_translate(t as int),
        ensures
            r == world_coord(level as int, s as int, t as int),
    {
        let f = units_per_world_exec(level);
        floor_div(s as i128 - t as i128, f)
    }

    /// Where a world point appears on screen.
    pub fn to_screen(&self, p: WorldPoint) -> (r: ScreenPoint)
        requires
            self.wf(),
            p.in_range(),
        ensures
            r.x == self.screen_x(p),
            r.y == self.screen_y(p),
    {
        ScreenPoint {
            x: Self::coord_to_screen(self.level, p.x, self.tx),
            y: Self::coord_to_screen(self.level, p.y, self.ty),
        }
    }

    /// The world point under a screen point, rounded down, or `None` where
    /// it lies outside the drawable world.
    pub fn to_world(&self, s: ScreenPoint) -> (r: Option<WorldPoint>)
        requires
            self.wf(),
        ensures
            r matches Some(w) ==> w.x == self.world_x(s) && w.y == self.world_y(s),
            r is None <==> !(in_world(self.world_x(s)) && in_world(self.world_y(s))),
    {
        let x = Self::coord_to_world(self.level, s.x, self.tx);
        let y = Self::coord_to_world(self.level, s.y, self.ty);
        if -(WORLD_LIMIT as i128) <= x && x <= WORLD_LIMIT as i128 && -(WORLD_LIMIT as i128) <= y
            && y <= WORLD_LIMIT as i128 {
            Some(WorldPoint { x: x as i64, y: y as i64 })
        } else {
            None
        }
    }

    /// The on-screen length of `len` world units.
    pub fn to_screen_len(&self, len: i64) -> (r: i64)
        requires
            self.wf(),
            0 <= len <= WORLD_LIMIT,
        ensures
            r == len * units_per_world(self.level as int),
    {
        Self::coord_to_screen(self.level, len, 0)
    }

    /// One zoom-in step about `pivot`, bounded by `max_level`.
    pub fn zoom_in(&mut self, pivot: ScreenPoint, max_level: i64)
        requires
            old(self).wf(),
            max_level <= MAX_ZOOM_LEVEL,
        ensures
            *final(self) == zoomed_in(*old(self), pivot, max_level as int),
            final(self).wf(),
    {
        let nx = 2 * (self.tx as i128) - pivot.x as i128;
        let ny = 2 * (self.ty as i128) - pivot.y as i128;
        let lim = TRANSLATE_LIMIT as i128;
        if self.level < max_level && -lim <= nx && nx <= lim && -lim <= ny && ny <= lim {
            self.level = self.level + 1;
            self.tx = nx as i64;
            self.ty = ny as i64;
        }
    }

    /// One zoom-out step about `pivot`, bounded by `min_level`.
    pub fn zoom_out(&mut self, pivot: ScreenPoint, min_level: i64)
        requires
            old(self).wf(),
            min_level >= -MAX_ZOOM_LEVEL,
        ensures
            *final(self) == zoomed_out(*old(self), pivot, min_level as int),
            final(self).wf(),
    {
        let hx = floor_div(pivot.x as i128 - self.tx as i128, 2);
        let hy = floor_div(pivot.y as i128 - self.ty as i128, 2);
        let nx = pivot.x as i128 - hx;
        let ny = pivot.y as i128 - hy;
        let lim = TRANSLATE_LIMIT as i128;
        if self.level > min_level && -lim <= nx && nx <= lim && -lim <= ny && ny <= lim {
            self.level = self.level - 1;
            self.tx = nx as i64;
            self.ty = ny as i64;
        }
    }

    /// Moves the picture by `delta` screen units; each offset stops at its limit.
    pub fn pan(&mut self, delta: ScreenPoint)
        requires
            old(self).wf(),
        ensures
            final(self).level == old(self).level,
            final(self).tx == clamp_translate(old(self).tx + delta.x),
            final(self).ty == clamp_translate(old(self).ty + delta.y),
            final(self).wf(),
    {
        self.pan_by(delta.x as i128, delta.y as i128);
    }

    /// Moves the picture by `(dx, dy)` screen units; each offset stops at its
    /// limit.
    pub fn pan_by(&mut self, dx: i128, dy: i128)
        requires
            old(self).wf(),
            -0x1_0000_0000_0000_0000 <= dx <= 0x1_0000_0000_0000_0000,
            -0x1_0000_0000_0000_0000 <= dy <= 0x1_0000_0000_0000_0000,
        ensures
            final(self).level == old(self).level,
            final(self).tx == clamp_translate(old(self).tx + dx),
            final(self).ty == clamp_translate(old(self).ty + dy),
            final(self).wf(),
    {
        self.tx = clamp_translate_exec(self.tx as i128 + dx);
        self.ty = clamp_translate_exec(self.ty as i128 + dy);
    }

    /// Returns to the identity transform.
    pub fn go_home(&mut self)
        ensures
            *final(self) == identity_spec(),
            final(self).wf(),
    {
        *self = Transform::identity();
    }
}

/// Going from world to screen and back gives the same world point, at every
/// zoom level and offset.
pub proof fn lemma_world_screen_round_trip(t: Transform, p: WorldPoint)
    requires
        t.wf(),
        p.in_range(),
    ensures
        i64::MIN <= t.screen_x(p) <= i64::MAX,
        i64::MIN <= t.screen_y(p) <= i64::MAX,
        t.world_x(ScreenPoint { x: t.screen_x(p) as i64, y: t.screen_y(p) as i64 }) == p.x,
        t.world_y(ScreenPoint { x: t.screen_x(p) as i64, y: t.screen_y(p) as i64 }) == p.y,
{
    lemma_coord_round_trip(t.level as int, p.x as int, t.tx as int);
    lemma_coord_round_trip(t.level as int, p.y as int, t.ty as int);
}

proof fn lemma_coord_round_trip(level: int, w: int, t: int)
    requires
        -MAX_ZOOM_LEVEL <= level <= MAX_ZOOM_LEVEL,
        in_world(w),
        in_translate(t),
    ensures
        i64::MIN <= screen_coord(level, w, t) <= i64::MAX,
        world_coord(level, screen_coord(level, w, t), t) == w,
{
    let f = units_per_world(level);
    lemma_pow2_bounds((level + 16) as nat);
    assert(-429_496_729_600_000_000 <= w * f <= 429_496_729_600_000_000) by (nonlinear_arith)
        requires
            1 <= f <= 0x1_0000_0000,
            -100_000_000 <= w <= 100_000_000,
    ;
    assert(w * f + t - t == f * w) by (nonlinear_arith);
    lemma_div_multiples_vanish(w, f);
}

/// One zoom-in step that took effect, followed by one zoom-out step about
/// the same pivot, gives back the transform exactly.
pub proof fn lemma_zoom_in_out(t: Transform, pivot: ScreenPoint, min_level: int, max_level: int)
    requires
        t.wf(),
        min_level <= t.level,
        zoomed_in(t, pivot, max_level).level == t.level + 1,
    ensures
        zoomed_out(zoomed_in(t, pivot, max_level), pivot, min_level) == t,
{
    let u = zoomed_in(t, pivot, max_level);
    assert((pivot.x - u.tx) == 2 * (pivot.x - t.tx));
    assert((pivot.y - u.ty) == 2 * (pivot.y - t.ty));
    lemma_div_multiples_vanish(pivot.x - t.tx, 2);
    lemma_div_multiples_vanish(pivot.y - t.ty, 2);
}

proof fn lemma_zoomed_in_n_level(t: Transform, pivot: ScreenPoint, max_level: int, n: nat)
    requires
        t.wf(),
        max_level <= MAX_ZOOM_LEVEL,
    ensures
        t.level <= zoomed_in_n(t, pivot, max_level, n).level <= t.level + n,
        zoomed_in_n(t, pivot, max_level, n).wf(),
    decreases n,
{
    if n > 0 {
        lemma_zoomed_in_n_level(t, pivot, max_level, (n - 1) as nat);
        let u = zoomed_in_n(t, pivot, max_level, (n - 1) as nat);
        assert(zoomed_in_n(t, pivot, max_level, n) == zoomed_in(u, pivot, max_level));
    }
}

/// Zooming in `n` steps, every one of which took effect, then zooming out `n`
/// steps about the same pivot, gives back the transform exactly: the same
/// scale and the same offset.
pub proof fn lemma_zoom_in_out_n(
    t: Transform,
    pivot: ScreenPoint,
    min_level: int,
    max_level: int,
    n: nat,
)
    requires
        t.wf(),
        max_level <= MAX_ZOOM_LEVEL,
        min_level <= t.level,
        zoomed_in_n(t, pivot, max_level, n).level == t.level + n,
    ensures
        zoomed_out_n(zoomed_in_n(t, pivot, max_level, n), pivot, min_level, n) == t,
    decreases n,
{
    if n > 0 {
        let u = zoomed_in_n(t, pivot, max_level, (n - 1) as nat);
        lemma_zoomed_in_n_level(t, pivot, max_level, (n - 1) as nat);
        lemma_zoom_in_out(u, pivot, min_level, max_level);
        lemma_zoom_in_out_n(t, pivot, min_level, max_level, (n - 1) as nat);
    }
}

} // verus!
