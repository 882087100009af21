//! Exact integer geometry: square roots, distances, and the shapes that
//! clicked points determine.

use vstd::prelude::*;
use crate::units::{WorldPoint, in_world, floor_div, WORLD_LIMIT};
use vstd::arithmetic::div_mod::lemma_fundamental_div_mod;
use crate::shape::{PathCommand, Ellipse, MAX_RADIUS, path_wf};

verus! {

/// Largest value whose square root `isqrt` takes.
pub const SQRT_LIMIT: u64 = 0x3fff_ffff_ffff_ffff;

/// `r` is the floor of the square root of `n`.
pub open spec fn is_sqrt(n: int, r: int) -> bool {
    0 <= r && r * r <= n < (r + 1) * (r + 1)
}

/// The floor of the square root of `n`.
pub open spec fn sqrt_floor(n: int) -> int {
    choose|r: int| #[trigger] is_sqrt(n, r)
}

proof fn lemma_sqrt_unique(n: int, r: int, s: int)
    requires
        0 <= r && r * r <= n < (r + 1) * (r + 1),
        0 <= s && s * s <= n < (s + 1) * (s + 1),
    ensures
        r == s,
{
    if r < s {
        assert((r + 1) * (r + 1) <= s * s) by (nonlinear_arith)
            requires 0 <= r, r + 1 <= s;
    } else if s < r {
        assert((s + 1) * (s + 1) <= r * r) by (nonlinear_arith)
            requires 0 <= s, s + 1 <= r;
    }
}

/// The floor of the square root.
pub fn isqrt(n: u64) -> (r: u64)
    requires
        n <= SQRT_LIMIT,
    ensures
        r * r <= n < (r + 1) * (r + 1),
        r == sqrt_floor(n as int),
{
    let mut lo: u64 = 0;
    let mut hi: u64 = 0x8000_0000;
    assert(0x8000_0000 * 0x8000_0000 > SQRT_LIMIT) by (nonlinear_arith);
    while hi - lo > 1
        invariant
            lo < hi <= 0x8000_0000,
            lo * lo <= n < hi * hi,
        decreases hi - lo,
    {
        let mid = lo + (hi - lo) / 2;
        assert((mid as u128) * (mid as u128) <= 0x8000_0000 * 0x8000_0000) by (nonlinear_arith)
            requires mid <= 0x8000_0000;
        if (mid as u128) * (mid as u128) <= n as u128 {
            lo = mid;
        } else {
            hi = mid;
        }
    }
    proof {
        assert(hi == lo + 1);
        let r = lo as int;
        assert(is_sqrt(n as int, r));
        let s = sqrt_floor(n as int);
        assert(0 <= s && s * s <= n < (s + 1) * (s + 1));
        lemma_sqrt_unique(n as int, r, s);
    }
    lo
}

/// The squared distance between two points.
pub open spec fn dist2(a: WorldPoint, b: WorldPoint) -> int {
    (a.x - b.x) * (a.x - b.x) + (a.y - b.y) * (a.y - b.y)
}

proof fn lemma_dist2_bound(a: WorldPoint, b: WorldPoint)
    requires
        a.in_range(),
        b.in_range(),
    ensures
        0 <= dist2(a, b) <= 80_000_000_000_000_000,
{
    let dx = a.x - b.x;
    let dy = a.y - b.y;
    assert(0 <= dx * dx <= 40_000_000_000_000_000) by (nonlinear_arith)
        requires -200_000_000 <= dx <= 200_000_000;
    assert(0 <= dy * dy <= 40_000_000_000_000_000) by (nonlinear_arith)
        requires -200_000_000 <= dy <= 200_000_000;
}

/// The squared distance, computed exactly.
pub fn distance2(a: WorldPoint, b: WorldPoint) -> (r: u64)
    requires
        a.in_range(),
        b.in_range(),
    ensures
        r == dist2(a, b),
        r <= 80_000_000_000_000_000,
{
    proof {
        lemma_dist2_bound(a, b);
    }
    let dx = a.x as i128 - b.x as i128;
    let dy = a.y as i128 - b.y as i128;
    proof {
        lemma_mul_bound(dx as int, dx as int, 200_000_000, 200_000_000);
        lemma_mul_bound(dy as int, dy as int, 200_000_000, 200_000_000);
    }
    (dx * dx + dy * dy) as u64
}

/// The distance, rounded down.
pub fn distance(a: WorldPoint, b: WorldPoint) -> (r: i64)
    requires
        a.in_range(),
        b.in_range(),
    ensures
        r == sqrt_floor(dist2(a, b)),
        0 <= r <= 283_000_000,
{
    let d = distance2(a, b);
    let r = isqrt(d);
    assert(r <= 283_000_000) by (nonlinear_arith)
        requires r * r <= d, d <= 80_000_000_000_000_000;
    r as i64
}

/// The closed axis-aligned rectangle with opposite corners `a` and `b`,
/// drawn from `a` along the x axis first.
pub open spec fn rectangle_spec(a: WorldPoint, b: WorldPoint) -> Seq<PathCommand> {
    seq![
        PathCommand::MoveTo(a),
        PathCommand::LineTo(WorldPoint { x: b.x, y: a.y }),
        PathCommand::LineTo(b),
        PathCommand::LineTo(WorldPoint { x: a.x, y: b.y }),
        PathCommand::LineTo(a),
    ]
}

pub fn rectangle_path(a: WorldPoint, b: WorldPoint) -> (r: Vec<PathCommand>)
    ensures
        r@ == rectangle_spec(a, b),
        a.in_range() && b.in_range() ==> path_wf(r@),
{
    let r = vec![
        PathCommand::MoveTo(a),
        PathCommand::LineTo(WorldPoint { x: b.x, y: a.y }),
        PathCommand::LineTo(b),
        PathCommand::LineTo(WorldPoint { x: a.x, y: b.y }),
        PathCommand::LineTo(a),
    ];
    assert(r@ =~= rectangle_spec(a, b));
    r
}

/// Twice the signed area of the triangle `abc`; zero when the points are
/// collinear.
pub open spec fn circum_den(a: WorldPoint, b: WorldPoint, c: WorldPoint) -> int {
    2 * (a.x * (b.y - c.y) + b.x * (c.y - a.y) + c.x * (a.y - b.y))
}

pub open spec fn norm2(p: WorldPoint) -> int {
    p.x * p.x + p.y * p.y
}

pub open spec fn circum_num_x(a: WorldPoint, b: WorldPoint, c: WorldPoint) -> int {
    norm2(a) * (b.y - c.y) + norm2(b) * (c.y - a.y) + norm2(c) * (a.y - b.y)
}

pub open spec fn circum_num_y(a: WorldPoint, b: WorldPoint, c: WorldPoint) -> int {
    norm2(a) * (c.x - b.x) + norm2(b) * (a.x - c.x) + norm2(c) * (b.x - a.x)
}

/// `n / d` rounded down, for a divisor of either sign.
pub open spec fn div_down(n: int, d: int) -> int {
    if d > 0 {
        n / d
    } else {
        (-n) / (-d)
    }
}

/// The center of the circle through three points, rounded down to world
/// units; `None` for collinear points.
pub open spec fn circumcenter(a: WorldPoint, b: WorldPoint, c: WorldPoint) -> Option<(int, int)> {
    let d = circum_den(a, b, c);
    if d == 0 {
        None
    } else {
        Some((div_down(circum_num_x(a, b, c), d), div_down(circum_num_y(a, b, c), d)))
    }
}

/// A product of two bounded numbers is bounded by the product of the bounds.
pub proof fn lemma_mul_bound(x: int, y: int, bx: int, by: int)
    requires
        -bx <= x <= bx,
        -by <= y <= by,
    ensures
        -(bx * by) <= x * y <= bx * by,
{
    assert(-(bx * by) <= x * y <= bx * by) by (nonlinear_arith)
        requires -bx <= x <= bx, -by <= y <= by;
}

fn norm2_exec(p: WorldPoint) -> (r: i128)
    requires
        p.in_range(),
    ensures
        r == norm2(p),
        0 <= r <= 20_000_000_000_000_000,
{
    proof {
        lemma_mul_bound(p.x as int, p.x as int, 100_000_000, 100_000_000);
        lemma_mul_bound(p.y as int, p.y as int, 100_000_000, 100_000_000);
    }
    let x = p.x as i128;
    let y = p.y as i128;
    assert(0 <= x * x && 0 <= y * y) by (nonlinear_arith);
    x * x + y * y
}

/// `n * d` for a squared norm and a coordinate difference.
fn term(n: i128, d: i128) -> (r: i128)
    requires
        0 <= n <= 20_000_000_000_000_000,
        -200_000_000 <= d <= 200_000_000,
    ensures
        r == n * d,
        -4_000_000_000_000_000_000_000_000 <= r <= 4_000_000_000_000_000_000_000_000,
{
    proof {
        lemma_mul_bound(n as int, d as int, 20_000_000_000_000_000, 200_000_000);
    }
    n * d
}

fn div_down_exec(n: i128, d: i128) -> (r: i128)
    requires
        d != 0,
        n > i128::MIN,
        d > i128::MIN,
    ensures
        r == div_down(n as int, d as int),
{
    if d > 0 {
        floor_div(n, d)
    } else {
        floor_div(-n, -d)
    }
}

/// The circle through `a`, `b` and `c`: its center rounded down to world
/// units, its radius the center's rounded-down distance to `a`; `None` where
/// the points are collinear or the center falls outside the drawable world.
pub open spec fn circle_through_spec(a: WorldPoint, b: WorldPoint, c: WorldPoint) -> Option<Ellipse> {
    match circumcenter(a, b, c) {
        None => None,
        Some((x, y)) => if xy_in_world(x, y) {
            let r = sqrt_floor(dist2(pt(x, y), a)) as i64;
            Some(Ellipse { center: pt(x, y), semimajor: r, semiminor: r })
        } else {
            None
        },
    }
}

/// The circle through three points; see `circle_through_spec`.
pub fn circle_through_three_points(a: WorldPoint, b: WorldPoint, c: WorldPoint) -> (r: Option<
    Ellipse,
>)
    requires
        a.in_range(),
        b.in_range(),
        c.in_range(),
    ensures
        r == circle_through_spec(a, b, c),
        r matches Some(e) ==> e.wf(),
{
    proof {
        lemma_mul_bound(a.x as int, (b.y - c.y) as int, 100_000_000, 200_000_000);
        lemma_mul_bound(b.x as int, (c.y - a.y) as int, 100_000_000, 200_000_000);
        lemma_mul_bound(c.x as int, (a.y - b.y) as int, 100_000_000, 200_000_000);
    }
    let (ax, ay, bx, by, cx, cy) = (
        a.x as i128,
        a.y as i128,
        b.x as i128,
        b.y as i128,
        c.x as i128,
        c.y as i128,
    );
    let d = 2 * (ax * (by - cy) + bx * (cy - ay) + cx * (ay - by));
    if d == 0 {
        return None;
    }
    let na = norm2_exec(a);
    let nb = norm2_exec(b);
    let nc = norm2_exec(c);
    let nx = term(na, by - cy) + term(nb, cy - ay) + term(nc, ay - by);
    let ny = term(na, cx - bx) + term(nb, ax - cx) + term(nc, bx - ax);
    let x = div_down_exec(nx, d);
    let y = div_down_exec(ny, d);
    let lim = WORLD_LIMIT as i128;
    if x < -lim || x > lim || y < -lim || y > lim {
        return None;
    }
    let center = WorldPoint { x: x as i64, y: y as i64 };
    let rad = distance(center, a);
    Some(Ellipse { center, semimajor: rad, semiminor: rad })
}

/// The circle with center `c` through `p`, its radius rounded down.
pub open spec fn circle_spec(c: WorldPoint, p: WorldPoint) -> Ellipse {
    let r = sqrt_floor(dist2(c, p)) as i64;
    Ellipse { center: c, semimajor: r, semiminor: r }
}

pub fn circle_by_center_and_point(c: WorldPoint, p: WorldPoint) -> (e: Ellipse)
    requires
        c.in_range(),
        p.in_range(),
    ensures
        e == circle_spec(c, p),
        0 <= e.semimajor <= 283_000_000,
        e.wf(),
{
    let rad = distance(c, p);
    Ellipse { center: c, semimajor: rad, semiminor: rad }
}

/// Scale of the control-point offset of a quarter-ellipse bezier, in
/// hundred-thousandths of the semi-axis.
pub const KAPPA: i128 = 55228;

pub const KAPPA_DEN: i128 = 100000;

pub open spec fn pt(x: int, y: int) -> WorldPoint {
    WorldPoint { x: x as i64, y: y as i64 }
}

pub open spec fn xy_in_world(x: int, y: int) -> bool {
    in_world(x) && in_world(y)
}

/// The semi-axes of the ellipse with foci `f1`, `f2` through `p`, rounded
/// down: half the sum of the distances to the foci, and the root of its
/// square less the square of half the focal distance.
pub open spec fn foci_semiaxes(f1: WorldPoint, f2: WorldPoint, p: WorldPoint) -> (int, int) {
    let a = (sqrt_floor(dist2(p, f1)) + sqrt_floor(dist2(p, f2))) / 2;
    let c = sqrt_floor(dist2(f1, f2)) / 2;
    let b = if a > c {
        sqrt_floor(a * a - c * c)
    } else {
        0
    };
    (a, b)
}

/// The direction of the major axis and its rounded-down length, `(1, 0)`
/// of length 1 where the foci coincide.
pub open spec fn foci_axis(f1: WorldPoint, f2: WorldPoint) -> (int, int, int) {
    let fd = sqrt_floor(dist2(f1, f2));
    if fd == 0 {
        (1, 0, 1)
    } else {
        (f2.x - f1.x, f2.y - f1.y, fd)
    }
}

/// The four cubic beziers that approximate the ellipse with center `(mx, my)`
/// and conjugate semi-axis vectors `(ux, uy)` and `(vx, vy)`; `(kux, kuy)` and
/// `(kvx, kvy)` are the control-point offsets along them.
pub open spec fn ellipse_curves(
    mx: int,
    my: int,
    ux: int,
    uy: int,
    vx: int,
    vy: int,
    kux: int,
    kuy: int,
    kvx: int,
    kvy: int,
) -> Seq<(int, int)> {
    seq![
        (mx + ux, my + uy),
        (mx + ux + kvx, my + uy + kvy),
        (mx + vx + kux, my + vy + kuy),
        (mx + vx, my + vy),
        (mx + vx - kux, my + vy - kuy),
        (mx - ux + kvx, my - uy + kvy),
        (mx - ux, my - uy),
        (mx - ux - kvx, my - uy - kvy),
        (mx - vx - kux, my - vy - kuy),
        (mx - vx, my - vy),
        (mx - vx + kux, my - vy + kuy),
        (mx + ux - kvx, my + uy - kvy),
        (mx + ux, my + uy),
    ]
}

/// The points of the bezier approximation of the ellipse with foci `f1`,
/// `f2` through `p`: the start, then three points for each quarter.
pub open spec fn foci_ellipse_points(f1: WorldPoint, f2: WorldPoint, p: WorldPoint) -> Seq<
    (int, int),
> {
    let (a, b) = foci_semiaxes(f1, f2, p);
    let (ex, ey, l) = foci_axis(f1, f2);
    let mx = (f1.x + f2.x) / 2;
    let my = (f1.y + f2.y) / 2;
    let ux = div_down(a * ex, l);
    let uy = div_down(a * ey, l);
    let vx = div_down(-b * ey, l);
    let vy = div_down(b * ex, l);
    ellipse_curves(
        mx,
        my,
        ux,
        uy,
        vx,
        vy,
        div_down(ux * KAPPA, KAPPA_DEN as int),
        div_down(uy * KAPPA, KAPPA_DEN as int),
        div_down(vx * KAPPA, KAPPA_DEN as int),
        div_down(vy * KAPPA, KAPPA_DEN as int),
    )
}

/// The path through the thirteen points: a move, then four curves.
pub open spec fn curves_path(q: Seq<(int, int)>) -> Seq<PathCommand> {
    seq![
        PathCommand::MoveTo(pt(q[0].0, q[0].1)),
        PathCommand::CurveTo(pt(q[1].0, q[1].1), pt(q[2].0, q[2].1), pt(q[3].0, q[3].1)),
        PathCommand::CurveTo(pt(q[4].0, q[4].1), pt(q[5].0, q[5].1), pt(q[6].0, q[6].1)),
        PathCommand::CurveTo(pt(q[7].0, q[7].1), pt(q[8].0, q[8].1), pt(q[9].0, q[9].1)),
        PathCommand::CurveTo(pt(q[10].0, q[10].1), pt(q[11].0, q[11].1), pt(q[12].0, q[12].1)),
    ]
}

/// The ellipse with foci `f1`, `f2` through `p` as a closed bezier path;
/// `None` where a semi-axis is zero or the path leaves the drawable world.
pub open spec fn foci_ellipse(f1: WorldPoint, f2: WorldPoint, p: WorldPoint) -> Option<
    Seq<PathCommand>,
> {
    let (a, b) = foci_semiaxes(f1, f2, p);
    let q = foci_ellipse_points(f1, f2, p);
    if a == 0 || b == 0 || !(forall|i: int| 0 <= i < 13 ==> xy_in_world(#[trigger] q[i].0, q[i].1)) {
        None
    } else {
        Some(curves_path(q))
    }
}

proof fn lemma_div_down_shrinks(n: int, d: int, k: int)
    requires
        d >= 1,
        k >= 0,
        -(d * k) <= n <= d * k,
    ensures
        -k <= div_down(n, d) <= k,
{
    lemma_fundamental_div_mod(n, d);
    let q = n / d;
    assert(-k <= q <= k) by (nonlinear_arith)
        requires
            d >= 1,
            n == d * q + n % d,
            0 <= n % d < d,
            -(d * k) <= n <= d * k,
    ;
}

/// The control-point offset for a semi-axis component `u`.
fn kappa_of(u: i128) -> (r: i128)
    requires
        -1_000_000_000_000_000_000 <= u <= 1_000_000_000_000_000_000,
    ensures
        r == div_down(u * KAPPA, KAPPA_DEN as int),
        -1_000_000_000_000_000_000 <= r <= 1_000_000_000_000_000_000,
{
    proof {
        lemma_mul_bound(u as int, KAPPA as int, 1_000_000_000_000_000_000, 55228);
        lemma_div_down_shrinks(u * KAPPA, KAPPA_DEN as int, 552_280_000_000_000_000);
    }
    div_down_exec(u * KAPPA, KAPPA_DEN)
}

proof fn lemma_div_down_bound(n: int, d: int, bound: int)
    requires
        d >= 1,
        -bound <= n <= bound,
    ensures
        -bound <= div_down(n, d) <= bound,
{
    lemma_fundamental_div_mod(n, d);
    let q = n / d;
    assert(-bound <= q <= bound) by (nonlinear_arith)
        requires
            d >= 1,
            n == d * q + n % d,
            0 <= n % d < d,
            -bound <= n <= bound,
    ;
}

/// `n * m / d` rounded down, for values small enough.
fn scaled(n: i128, m: i128, d: i128) -> (r: i128)
    requires
        -1_000_000_000 <= n <= 1_000_000_000,
        -1_000_000_000 <= m <= 1_000_000_000,
        1 <= d,
    ensures
        r == div_down(n * m, d as int),
        -1_000_000_000_000_000_000 <= r <= 1_000_000_000_000_000_000,
{
    proof {
        lemma_mul_bound(n as int, m as int, 1_000_000_000, 1_000_000_000);
        lemma_div_down_bound(n * m, d as int, 1_000_000_000_000_000_000);
    }
    div_down_exec(n * m, d)
}

fn world_pt(x: i128, y: i128) -> (r: Option<WorldPoint>)
    ensures
        r is Some <==> xy_in_world(x as int, y as int),
        r matches Some(w) ==> w == pt(x as int, y as int),
{
    let lim = WORLD_LIMIT as i128;
    if -lim <= x && x <= lim && -lim <= y && y <= lim {
        Some(WorldPoint { x: x as i64, y: y as i64 })
    } else {
        None
    }
}

/// The semi-axes and the points of the bezier approximation, or `None`
/// where a semi-axis is zero.
#[verifier::rlimit(40)]
fn ellipse_points(f1: WorldPoint, f2: WorldPoint, p: WorldPoint) -> (r: Option<([i128; 13], [i128; 13])>)
    requires
        f1.in_range(),
        f2.in_range(),
        p.in_range(),
    ensures
        r is None <==> (foci_semiaxes(f1, f2, p).0 == 0 || foci_semiaxes(f1, f2, p).1 == 0),
        r matches Some((xs, ys)) ==> forall|j: int|
            0 <= j < 13 ==> foci_ellipse_points(f1, f2, p)[j] == (xs@[j] as int, ys@[j] as int),
{
    let d1 = distance(p, f1) as i128;
    let d2 = distance(p, f2) as i128;
    let a = (d1 + d2) / 2;
    let fd = distance(f1, f2) as i128;
    let c = fd / 2;
    let b: i128 = if a > c {
        proof {
            assert(0 <= c * c <= a * a <= 90_000_000_000_000_000) by (nonlinear_arith)
                requires 0 <= c < a, a <= 283_000_000;
        }
        isqrt((a * a - c * c) as u64) as i128
    } else {
        0
    };
    assert(foci_semiaxes(f1, f2, p) == (a as int, b as int));
    assert(b <= 300_000_000) by (nonlinear_arith)
        requires b * b <= 90_000_000_000_000_000, b >= 0;
    if a == 0 || b == 0 {
        return None;
    }
    let (ex, ey, l): (i128, i128, i128) = if fd == 0 {
        (1, 0, 1)
    } else {
        (f2.x as i128 - f1.x as i128, f2.y as i128 - f1.y as i128, fd)
    };
    assert(foci_axis(f1, f2) == (ex as int, ey as int, l as int));
    let mx = floor_div(f1.x as i128 + f2.x as i128, 2);
    let my = floor_div(f1.y as i128 + f2.y as i128, 2);
    proof {
        lemma_div_down_bound(f1.x + f2.x, 2, 200_000_000);
        lemma_div_down_bound(f1.y + f2.y, 2, 200_000_000);
    }
    let ux = scaled(a, ex, l);
    let uy = scaled(a, ey, l);
    let vx = scaled(-b, ey, l);
    let vy = scaled(b, ex, l);
    assert(-b * ey == (-b) * ey);
    let kux = kappa_of(ux);
    let kuy = kappa_of(uy);
    let kvx = kappa_of(vx);
    let kvy = kappa_of(vy);
    let xs: [i128; 13] = [
        mx + ux,
        mx + ux + kvx,
        mx + vx + kux,
        mx + vx,
        mx + vx - kux,
        mx - ux + kvx,
        mx - ux,
        mx - ux - kvx,
        mx - vx - kux,
        mx - vx,
        mx - vx + kux,
        mx + ux - kvx,
        mx + ux,
    ];
    let ys: [i128; 13] = [
        my + uy,
        my + uy + kvy,
        my + vy + kuy,
        my + vy,
        my + vy - kuy,
        my - uy + kvy,
        my - uy,
        my - uy - kvy,
        my - vy - kuy,
        my - vy,
        my - vy + kuy,
        my + uy - kvy,
        my + uy,
    ];
    let ghost q = foci_ellipse_points(f1, f2, p);
    assert(q == ellipse_curves(
        mx as int, my as int, ux as int, uy as int, vx as int, vy as int,
        kux as int, kuy as int, kvx as int, kvy as int,
    ));
    Some((xs, ys))
}

/// The ellipse with foci `f1` and `f2` through `p`, as four cubic beziers.
#[verifier::rlimit(40)]
pub fn ellipse_by_foci_and_point(f1: WorldPoint, f2: WorldPoint, p: WorldPoint) -> (r: Option<
    Vec<PathCommand>,
>)
    requires
        f1.in_range(),
        f2.in_range(),
        p.in_range(),
    ensures
        match r {
            Some(v) => foci_ellipse(f1, f2, p) == Some(v@) && path_wf(v@),
            None => foci_ellipse(f1, f2, p) is None,
        },
{
    let ghost q = foci_ellipse_points(f1, f2, p);
    assert(q.len() == 13);
    let (xs, ys) = match ellipse_points(f1, f2, p) {
        None => return None,
        Some(t) => t,
    };
    let mut pts: Vec<WorldPoint> = Vec::new();
    let mut i: usize = 0;
    while i < 13
        invariant
            i <= 13,
            pts@.len() == i,
            q == foci_ellipse_points(f1, f2, p),
            q.len() == 13,
            foci_semiaxes(f1, f2, p).0 != 0,
            foci_semiaxes(f1, f2, p).1 != 0,
            forall|j: int| 0 <= j < 13 ==> q[j] == (xs@[j] as int, ys@[j] as int),
            forall|j: int| 0 <= j < i ==> xy_in_world(#[trigger] q[j].0, q[j].1) && pts@[j] == pt(q[j].0, q[j].1),
            forall|j: int| 0 <= j < i ==> (#[trigger] pts@[j]).in_range(),
        decreases 13 - i,
    {
        match world_pt(xs[i], ys[i]) {
            Some(w) => pts.push(w),
            None => {
                proof {
                    assert(!xy_in_world(q[i as int].0, q[i as int].1));
                    assert(!(forall|k: int| 0 <= k < 13 ==> xy_in_world(#[trigger] q[k].0, q[k].1)));
                }
                return None;
            },
        }
        i = i + 1;
    }
    let r = vec![
        PathCommand::MoveTo(pts[0]),
        PathCommand::CurveTo(pts[1], pts[2], pts[3]),
        PathCommand::CurveTo(pts[4], pts[5], pts[6]),
        PathCommand::CurveTo(pts[7], pts[8], pts[9]),
        PathCommand::CurveTo(pts[10], pts[11], pts[12]),
    ];
    assert(r@ =~= curves_path(q));
    assert(r@[0].in_range() && r@[1].in_range() && r@[2].in_range() && r@[3].in_range() && r@[4].in_range());
    Some(r)
}

/// Largest number of lines in either direction of a grid: a lattice that
/// would need more is drawn from its first corner up to that many lines.
pub const MAX_GRID_LINES: i64 = 10_000;

/// The number of grid lines across a span of `len` at spacing `s`, at most
/// the largest number of lines.
pub open spec fn grid_count(len: int, s: int) -> int {
    if len / s + 1 > MAX_GRID_LINES {
        MAX_GRID_LINES as int
    } else {
        len / s + 1
    }
}

/// The command at position `k` of the grid over `[x0, x1] x [y0, y1]` with
/// spacing `s`: first a segment at each vertical line `x0 + i * s`, then one
/// at each horizontal line `y0 + j * s`, each a move then a line.
pub open spec fn grid_command(x0: int, y0: int, x1: int, y1: int, s: int, k: int) -> PathCommand {
    let nx = grid_count(x1 - x0, s);
    if k < 2 * nx {
        let x = x0 + (k / 2) * s;
        if k % 2 == 0 {
            PathCommand::MoveTo(pt(x, y0))
        } else {
            PathCommand::LineTo(pt(x, y1))
        }
    } else {
        let y = y0 + ((k - 2 * nx) / 2) * s;
        if k % 2 == 0 {
            PathCommand::MoveTo(pt(x0, y))
        } else {
            PathCommand::LineTo(pt(x1, y))
        }
    }
}

pub open spec fn grid_spec(x0: int, y0: int, x1: int, y1: int, s: int) -> Seq<PathCommand> {
    let n = 2 * (grid_count(x1 - x0, s) + grid_count(y1 - y0, s));
    Seq::new(n as nat, |k: int| grid_command(x0, y0, x1, y1, s, k))
}

/// The lattice of segments over the rectangle with corners `a` and `b` at
/// spacing `s`, as one path; `None` where the rectangle has no area.
pub open spec fn grid_over(a: WorldPoint, b: WorldPoint, s: int) -> Option<Seq<PathCommand>> {
    let x0 = if a.x <= b.x { a.x as int } else { b.x as int };
    let x1 = if a.x <= b.x { b.x as int } else { a.x as int };
    let y0 = if a.y <= b.y { a.y as int } else { b.y as int };
    let y1 = if a.y <= b.y { b.y as int } else { a.y as int };
    if x0 == x1 || y0 == y1 {
        None
    } else {
        Some(grid_spec(x0, y0, x1, y1, s))
    }
}

pub fn grid_path(a: WorldPoint, b: WorldPoint, s: i64) -> (r: Option<Vec<PathCommand>>)
    requires
        a.in_range(),
        b.in_range(),
        s >= 1,
    ensures
        match r {
            None => grid_over(a, b, s as int) is None,
            Some(v) => grid_over(a, b, s as int) == Some(v@) && path_wf(v@),
        },
{
    let lo = a.min(b);
    let hi = a.max(b);
    if lo.x == hi.x || lo.y == hi.y {
        return None;
    }
    let fx = (hi.x - lo.x) / s + 1;
    let fy = (hi.y - lo.y) / s + 1;
    let nx = if fx > MAX_GRID_LINES { MAX_GRID_LINES } else { fx };
    let ny = if fy > MAX_GRID_LINES { MAX_GRID_LINES } else { fy };
    let ghost (x0, y0, x1, y1) = (lo.x as int, lo.y as int, hi.x as int, hi.y as int);
    let mut v: Vec<PathCommand> = Vec::new();
    let mut i: i64 = 0;
    while i < nx
        invariant
            0 <= i <= nx <= MAX_GRID_LINES,
            nx == grid_count(x1 - x0, s as int),
            x0 == lo.x,
            y0 == lo.y,
            x1 == hi.x,
            y1 == hi.y,
            x0 < x1,
            s >= 1,
            lo.in_range(),
            hi.in_range(),
            v@.len() == 2 * i,
            forall|k: int| 0 <= k < 2 * i ==> v@[k] == grid_command(x0, y0, x1, y1, s as int, k),
            forall|k: int| 0 <= k < 2 * i ==> (#[trigger] v@[k]).in_range(),
        decreases nx - i,
    {
        assert(i * s <= hi.x - lo.x) by (nonlinear_arith)
            requires i < nx, nx <= (hi.x - lo.x) as int / s as int + 1, s >= 1, hi.x - lo.x >= 0;
        assert(0 <= i * s) by (nonlinear_arith) requires i >= 0, s >= 1;
        let x = lo.x + i * s;
        v.push(PathCommand::MoveTo(WorldPoint { x, y: lo.y }));
        v.push(PathCommand::LineTo(WorldPoint { x, y: hi.y }));
        proof {
            assert((2 * i) / 2 == i);
            assert((2 * i + 1) / 2 == i);
        }
        i = i + 1;
    }
    let mut j: i64 = 0;
    while j < ny
        invariant
            0 <= j <= ny <= MAX_GRID_LINES,
            nx == grid_count(x1 - x0, s as int),
            ny == grid_count(y1 - y0, s as int),
            0 < nx <= MAX_GRID_LINES,
            x0 == lo.x,
            y0 == lo.y,
            x1 == hi.x,
            y1 == hi.y,
            y0 < y1,
            s >= 1,
            lo.in_range(),
            hi.in_range(),
            v@.len() == 2 * nx + 2 * j,
            forall|k: int| 0 <= k < 2 * nx + 2 * j ==> v@[k] == grid_command(x0, y0, x1, y1, s as int, k),
            forall|k: int| 0 <= k < 2 * nx + 2 * j ==> (#[trigger] v@[k]).in_range(),
            v@[0] is MoveTo,
        decreases ny - j,
    {
        assert(j * s <= hi.y - lo.y) by (nonlinear_arith)
            requires j < ny, ny <= (hi.y - lo.y) as int / s as int + 1, s >= 1, hi.y - lo.y >= 0;
        assert(0 <= j * s) by (nonlinear_arith) requires j >= 0, s >= 1;
        let y = lo.y + j * s;
        v.push(PathCommand::MoveTo(WorldPoint { x: lo.x, y }));
        v.push(PathCommand::LineTo(WorldPoint { x: hi.x, y }));
        proof {
            assert((2 * nx + 2 * j - 2 * nx) / 2 == j);
            assert((2 * nx + 2 * j + 1 - 2 * nx) / 2 == j);
        }
        j = j + 1;
    }
    assert(v@ =~= grid_spec(x0, y0, x1, y1, s as int));
    Some(v)
}

} // verus!
