//! Hit-testing shapes against the eraser's disc, and erasing the topmost hit.

use vstd::prelude::*;
use crate::units::WorldPoint;
use crate::shape::{PathCommand, Ellipse, Shape, ShapeView, MAX_RADIUS};
use crate::document::{Document, DocumentView, erased, shape_views};
use crate::geom::lemma_mul_bound;

verus! {

/// Largest eraser radius.
pub const MAX_HIT_RADIUS: i64 = 1_000_000;

/// The squared distance from `p` to the segment `ab` is at most `h * h`:
/// measured to the nearer end where `p` projects outside the segment, and
/// to the line through it otherwise.
pub open spec fn segment_within(p: WorldPoint, a: WorldPoint, b: WorldPoint, h: int) -> bool {
    let dx = b.x - a.x;
    let dy = b.y - a.y;
    let wx = p.x - a.x;
    let wy = p.y - a.y;
    let len2 = dx * dx + dy * dy;
    let t = wx * dx + wy * dy;
    if len2 == 0 || t <= 0 {
        wx * wx + wy * wy <= h * h
    } else if t >= len2 {
        (p.x - b.x) * (p.x - b.x) + (p.y - b.y) * (p.y - b.y) <= h * h
    } else {
        (dx * wy - dy * wx) * (dx * wy - dy * wx) <= h * h * len2
    }
}

/// Largest number of pieces a curve is sampled in.
pub const MAX_CURVE_SAMPLES: i64 = 1024;

pub open spec fn manhattan(a: WorldPoint, b: WorldPoint) -> int {
    (if a.x <= b.x { b.x - a.x } else { a.x - b.x }) + (if a.y <= b.y { b.y - a.y } else { a.y - b.y })
}

/// How many pieces the curve from `a` through controls `c1`, `c2` to `b` is
/// sampled in: enough that neighbouring samples lie at most about `h` apart
/// (the curve's speed is at most three times its control polygon's length),
/// and at most `MAX_CURVE_SAMPLES`.
pub open spec fn curve_pieces(a: WorldPoint, c1: WorldPoint, c2: WorldPoint, b: WorldPoint, h: int) -> int {
    let l = manhattan(a, c1) + manhattan(c1, c2) + manhattan(c2, b);
    let n = 3 * l / (if h > 0 { h } else { 1 }) + 1;
    if n > MAX_CURVE_SAMPLES { MAX_CURVE_SAMPLES as int } else { n }
}

/// `n^3` times one coordinate of the point of the cubic bezier with control
/// values `a, b, c, d` at parameter `i / n`.
pub open spec fn bezier_scaled(a: int, b: int, c: int, d: int, i: int, n: int) -> int {
    let u = n - i;
    u * u * u * a + 3 * u * u * i * b + 3 * u * i * i * c + i * i * i * d
}

/// The point of the curve at parameter `i / n` lies within `h` of `p`
/// (compared exactly, all scaled by `n^3`).
pub open spec fn sample_within(
    from: WorldPoint,
    c1: WorldPoint,
    c2: WorldPoint,
    to: WorldPoint,
    p: WorldPoint,
    h: int,
    i: int,
    n: int,
) -> bool {
    let n3 = n * n * n;
    let dx = n3 * p.x - bezier_scaled(from.x as int, c1.x as int, c2.x as int, to.x as int, i, n);
    let dy = n3 * p.y - bezier_scaled(from.y as int, c1.y as int, c2.y as int, to.y as int, i, n);
    dx * dx + dy * dy <= h * h * n3 * n3
}

/// Some sampled point of the curve lies within `h` of `p`. Every sample is a
/// point of the curve itself, so a hit always means the curve passes within
/// `h`; a curve that comes within `h` only between two samples (which lie
/// about `h` apart, or closer) is not hit.
pub open spec fn curve_within(
    from: WorldPoint,
    c1: WorldPoint,
    c2: WorldPoint,
    to: WorldPoint,
    p: WorldPoint,
    h: int,
) -> bool {
    let n = curve_pieces(from, c1, c2, to, h);
    exists|i: int| 0 <= i <= n && #[trigger] sample_within(from, c1, c2, to, p, h, i, n)
}

/// The step from `from` passes within `h` of `p`: a line segment is tested
/// exactly, a curve at its sample points.
pub open spec fn step_within(from: WorldPoint, c: PathCommand, p: WorldPoint, h: int) -> bool {
    match c {
        PathCommand::MoveTo(q) => false,
        PathCommand::LineTo(q) => segment_within(p, from, q, h),
        PathCommand::CurveTo(c1, c2, q) => curve_within(from, c1, c2, q, p, h),
    }
}

pub open spec fn path_hit(cmds: Seq<PathCommand>, p: WorldPoint, h: int) -> bool {
    exists|i: int| 1 <= i < cmds.len() && #[trigger] step_within(cmds[i - 1].end(), cmds[i], p, h)
}

/// `q` lies inside or on the axis-aligned ellipse at `c` with semi-axes
/// `rx` and `ry`.
pub open spec fn inside_ellipse(c: WorldPoint, rx: int, ry: int, q: WorldPoint) -> bool {
    let dx = q.x - c.x;
    let dy = q.y - c.y;
    dx * dx * ry * ry + dy * dy * rx * rx <= rx * rx * ry * ry
}

/// `p` lies inside the ellipse or within `h` of its outline: inside the
/// ellipse whose semi-axes are grown by `h` (for a circle, exactly
/// `|p - c| <= r + h`). Each point of that grown ellipse is a point of the
/// ellipse moved by at most `h`.
pub open spec fn ellipse_hit(e: Ellipse, p: WorldPoint, h: int) -> bool {
    inside_ellipse(e.center, e.semimajor + h, e.semiminor + h, p)
}

/// The eraser's disc at `p` with radius `h` meets the shape.
pub open spec fn shape_hit(s: ShapeView, p: WorldPoint, h: int) -> bool {
    match s {
        ShapeView::Path { commands, .. } => path_hit(commands, p, h),
        ShapeView::Ellipse { ellipse, .. } => ellipse_hit(ellipse, p, h),
    }
}

/// Exact test of `segment_within`.
pub fn segment_within_exec(p: WorldPoint, a: WorldPoint, b: WorldPoint, h: i64) -> (r: bool)
    requires
        p.in_range(),
        a.in_range(),
        b.in_range(),
        0 <= h <= MAX_HIT_RADIUS,
    ensures
        r == segment_within(p, a, b, h as int),
{
    let dx = b.x as i128 - a.x as i128;
    let dy = b.y as i128 - a.y as i128;
    let wx = p.x as i128 - a.x as i128;
    let wy = p.y as i128 - a.y as i128;
    let h = h as i128;
    let ghost e: int = 200_000_000;
    let ghost e2: int = 40_000_000_000_000_000;
    proof {
        lemma_mul_bound(dx as int, dx as int, e, e);
        lemma_mul_bound(dy as int, dy as int, e, e);
        lemma_mul_bound(wx as int, dx as int, e, e);
        lemma_mul_bound(wy as int, dy as int, e, e);
        lemma_mul_bound(wx as int, wx as int, e, e);
        lemma_mul_bound(wy as int, wy as int, e, e);
        lemma_mul_bound(dx as int, wy as int, e, e);
        lemma_mul_bound(dy as int, wx as int, e, e);
        lemma_mul_bound(h as int, h as int, 1_000_000, 1_000_000);
        assert(0 <= dx * dx && 0 <= dy * dy) by (nonlinear_arith);
    }
    let len2 = dx * dx + dy * dy;
    let t = wx * dx + wy * dy;
    if len2 == 0 || t <= 0 {
        wx * wx + wy * wy <= h * h
    } else if t >= len2 {
        let vx = p.x as i128 - b.x as i128;
        let vy = p.y as i128 - b.y as i128;
        proof {
            lemma_mul_bound(vx as int, vx as int, e, e);
            lemma_mul_bound(vy as int, vy as int, e, e);
        }
        vx * vx + vy * vy <= h * h
    } else {
        let cr = dx * wy - dy * wx;
        proof {
            lemma_mul_bound(cr as int, cr as int, 2 * e2, 2 * e2);
            lemma_mul_bound((h * h) as int, len2 as int, 1_000_000_000_000, 2 * e2);
        }
        cr * cr <= h * h * len2
    }
}

fn step_within_exec(from: WorldPoint, c: PathCommand, p: WorldPoint, h: i64) -> (r: bool)
    requires
        from.in_range(),
        c.in_range(),
        p.in_range(),
        0 <= h <= MAX_HIT_RADIUS,
    ensures
        r == step_within(from, c, p, h as int),
{
    match c {
        PathCommand::MoveTo(_) => false,
        PathCommand::LineTo(q) => segment_within_exec(p, from, q, h),
        PathCommand::CurveTo(c1, c2, q) => curve_within_exec(from, c1, c2, q, p, h),
    }
}

fn end_of(c: PathCommand) -> (r: WorldPoint)
    ensures
        r == c.end(),
{
    match c {
        PathCommand::MoveTo(q) => q,
        PathCommand::LineTo(q) => q,
        PathCommand::CurveTo(_, _, q) => q,
    }
}

/// Whether some step of the path passes within `h` of `p`.
pub fn path_hit_exec(cmds: &Vec<PathCommand>, p: WorldPoint, h: i64) -> (r: bool)
    requires
        forall|i: int| 0 <= i < cmds@.len() ==> (#[trigger] cmds@[i]).in_range(),
        p.in_range(),
        0 <= h <= MAX_HIT_RADIUS,
    ensures
        r == path_hit(cmds@, p, h as int),
{
    let mut i: usize = 1;
    while i < cmds.len()
        invariant
            1 <= i,
            i <= cmds@.len() || cmds@.len() == 0,
            forall|j: int| 0 <= j < cmds@.len() ==> (#[trigger] cmds@[j]).in_range(),
            p.in_range(),
            0 <= h <= MAX_HIT_RADIUS,
            forall|j: int| 1 <= j < i && j < cmds@.len() ==> !#[trigger] step_within(cmds@[j - 1].end(), cmds@[j], p, h as int),
        decreases cmds@.len() - i,
    {
        let from = end_of(cmds[i - 1]);
        if step_within_exec(from, cmds[i], p, h) {
            return true;
        }
        i = i + 1;
    }
    false
}

fn inside_ellipse_exec(c: WorldPoint, rx: i128, ry: i128, q: WorldPoint) -> (r: bool)
    requires
        c.in_range(),
        q.in_range(),
        0 <= rx <= 2 * MAX_RADIUS,
        0 <= ry <= 2 * MAX_RADIUS,
    ensures
        r == inside_ellipse(c, rx as int, ry as int, q),
{
    let dx = q.x as i128 - c.x as i128;
    let dy = q.y as i128 - c.y as i128;
    let ghost e: int = 200_000_000;
    let ghost m: int = 600_000_000;
    proof {
        lemma_mul_bound(dx as int, dx as int, e, e);
        lemma_mul_bound(dy as int, dy as int, e, e);
        lemma_mul_bound(rx as int, rx as int, m, m);
        lemma_mul_bound(ry as int, ry as int, m, m);
        assert(0 <= dx * dx && 0 <= dy * dy && 0 <= rx * rx && 0 <= ry * ry) by (nonlinear_arith);
        lemma_mul_bound(dx * dx, ry * ry, e * e, m * m);
        lemma_mul_bound(dy * dy, rx * rx, e * e, m * m);
        lemma_mul_bound(rx * rx, ry * ry, m * m, m * m);
        assert(dx * dx * ry * ry == (dx * dx) * (ry * ry)) by (nonlinear_arith);
        assert(dy * dy * rx * rx == (dy * dy) * (rx * rx)) by (nonlinear_arith);
        assert(rx * rx * ry * ry == (rx * rx) * (ry * ry)) by (nonlinear_arith);
    }
    (dx * dx) * (ry * ry) + (dy * dy) * (rx * rx) <= (rx * rx) * (ry * ry)
}

/// Whether `p` lies inside the ellipse or within `h` of its outline.
pub fn ellipse_hit_exec(e: Ellipse, p: WorldPoint, h: i64) -> (r: bool)
    requires
        e.wf(),
        p.in_range(),
        0 <= h <= MAX_HIT_RADIUS,
    ensures
        r == ellipse_hit(e, p, h as int),
{
    inside_ellipse_exec(e.center, e.semimajor as i128 + h as i128, e.semiminor as i128 + h as i128, p)
}

fn abs_diff(a: i64, b: i64) -> (r: i128)
    requires
        -100_000_000 <= a <= 100_000_000,
        -100_000_000 <= b <= 100_000_000,
    ensures
        r == if a <= b { b - a } else { a - b },
        0 <= r <= 200_000_000,
{
    if a <= b {
        b as i128 - a as i128
    } else {
        a as i128 - b as i128
    }
}

fn curve_pieces_exec(a: WorldPoint, c1: WorldPoint, c2: WorldPoint, b: WorldPoint, h: i64) -> (r: i128)
    requires
        a.in_range(),
        c1.in_range(),
        c2.in_range(),
        b.in_range(),
        0 <= h,
    ensures
        r == curve_pieces(a, c1, c2, b, h as int),
        1 <= r <= MAX_CURVE_SAMPLES,
{
    let l = abs_diff(a.x, c1.x) + abs_diff(a.y, c1.y) + abs_diff(c1.x, c2.x) + abs_diff(c1.y, c2.y)
        + abs_diff(c2.x, b.x) + abs_diff(c2.y, b.y);
    let d: i128 = if h > 0 { h as i128 } else { 1 };
    let n = 3 * l / d + 1;
    if n > MAX_CURVE_SAMPLES as i128 {
        MAX_CURVE_SAMPLES as i128
    } else {
        n
    }
}

/// `n^3` times a coordinate of the curve's point at `i / n`.
fn bezier_scaled_exec(a: i64, b: i64, c: i64, d: i64, i: i128, n: i128) -> (r: i128)
    requires
        -100_000_000 <= a <= 100_000_000,
        -100_000_000 <= b <= 100_000_000,
        -100_000_000 <= c <= 100_000_000,
        -100_000_000 <= d <= 100_000_000,
        0 <= i <= n <= MAX_CURVE_SAMPLES,
    ensures
        r == bezier_scaled(a as int, b as int, c as int, d as int, i as int, n as int),
        -1_300_000_000_000_000_000 <= r <= 1_300_000_000_000_000_000,
{
    let u = n - i;
    assert(0 <= u * u <= 0x10_0000 && 0 <= u * i <= 0x10_0000 && 0 <= i * i <= 0x10_0000) by (nonlinear_arith)
        requires
            0 <= u <= 1024,
            0 <= i <= 1024,
    ;
    assert(0 <= u * u * u <= 0x4000_0000 && 0 <= u * u * i <= 0x4000_0000 && 0 <= u * i * i
        <= 0x4000_0000 && 0 <= i * i * i <= 0x4000_0000) by (nonlinear_arith)
        requires
            0 <= u <= 1024,
            0 <= i <= 1024,
    ;
    let w0 = u * u * u;
    let w1 = 3 * (u * u * i);
    let w2 = 3 * (u * i * i);
    let w3 = i * i * i;
    proof {
        lemma_mul_bound(w0 as int, a as int, 0x4000_0000, 100_000_000);
        lemma_mul_bound(w1 as int, b as int, 0xC000_0000, 100_000_000);
        lemma_mul_bound(w2 as int, c as int, 0xC000_0000, 100_000_000);
        lemma_mul_bound(w3 as int, d as int, 0x4000_0000, 100_000_000);
        assert(3 * (u * u * i) * b == 3 * u * u * i * b) by (nonlinear_arith);
        assert(3 * (u * i * i) * c == 3 * u * i * i * c) by (nonlinear_arith);
    }
    w0 * (a as i128) + w1 * (b as i128) + w2 * (c as i128) + w3 * (d as i128)
}

fn sample_within_exec(
    from: WorldPoint,
    c1: WorldPoint,
    c2: WorldPoint,
    to: WorldPoint,
    p: WorldPoint,
    h: i64,
    i: i128,
    n: i128,
) -> (r: bool)
    requires
        from.in_range(),
        c1.in_range(),
        c2.in_range(),
        to.in_range(),
        p.in_range(),
        0 <= h <= MAX_HIT_RADIUS,
        0 <= i <= n,
        1 <= n <= MAX_CURVE_SAMPLES,
    ensures
        r == sample_within(from, c1, c2, to, p, h as int, i as int, n as int),
{
    assert(1 <= n * n <= 0x10_0000) by (nonlinear_arith)
        requires 1 <= n <= 1024;
    assert(1 <= n * n * n <= 0x4000_0000) by (nonlinear_arith)
        requires 1 <= n <= 1024;
    let n3 = n * n * n;
    proof {
        lemma_mul_bound(n3 as int, p.x as int, 0x4000_0000, 100_000_000);
        lemma_mul_bound(n3 as int, p.y as int, 0x4000_0000, 100_000_000);
    }
    let bx = bezier_scaled_exec(from.x, c1.x, c2.x, to.x, i, n);
    let by = bezier_scaled_exec(from.y, c1.y, c2.y, to.y, i, n);
    let dx = n3 * (p.x as i128) - bx;
    let dy = n3 * (p.y as i128) - by;
    let ghost bd: int = 1_500_000_000_000_000_000;
    proof {
        lemma_mul_bound(dx as int, dx as int, bd, bd);
        lemma_mul_bound(dy as int, dy as int, bd, bd);
        lemma_mul_bound(h as int, n3 as int, 1_000_000, 0x4000_0000);
        lemma_mul_bound(h * n3, h * n3, 1_073_741_824_000_000, 1_073_741_824_000_000);
        assert(h * h * n3 * n3 == (h * n3) * (h * n3)) by (nonlinear_arith);
    }
    let hn = (h as i128) * n3;
    dx * dx + dy * dy <= hn * hn
}

fn curve_within_exec(
    from: WorldPoint,
    c1: WorldPoint,
    c2: WorldPoint,
    to: WorldPoint,
    p: WorldPoint,
    h: i64,
) -> (r: bool)
    requires
        from.in_range(),
        c1.in_range(),
        c2.in_range(),
        to.in_range(),
        p.in_range(),
        0 <= h <= MAX_HIT_RADIUS,
    ensures
        r == curve_within(from, c1, c2, to, p, h as int),
{
    let n = curve_pieces_exec(from, c1, c2, to, h);
    let mut i: i128 = 0;
    while i <= n
        invariant
            0 <= i <= n + 1,
            n == curve_pieces(from, c1, c2, to, h as int),
            1 <= n <= MAX_CURVE_SAMPLES,
            from.in_range(),
            c1.in_range(),
            c2.in_range(),
            to.in_range(),
            p.in_range(),
            0 <= h <= MAX_HIT_RADIUS,
            forall|j: int| 0 <= j < i ==> !#[trigger] sample_within(from, c1, c2, to, p, h as int, j, n as int),
        decreases n + 1 - i,
    {
        if sample_within_exec(from, c1, c2, to, p, h, i, n) {
            return true;
        }
        i = i + 1;
    }
    false
}

/// Whether the eraser's disc at `p` meets the shape.
pub fn shape_hit_exec(s: &Shape, p: WorldPoint, h: i64) -> (r: bool)
    requires
        s@.wf(),
        p.in_range(),
        0 <= h <= MAX_HIT_RADIUS,
    ensures
        r == shape_hit(s@, p, h as int),
{
    match s {
        Shape::Path { commands, .. } => path_hit_exec(commands, p, h),
        Shape::Ellipse { ellipse, .. } => ellipse_hit_exec(*ellipse, p, h),
    }
}

/// `after` is `before` with the topmost shape that the disc at `p` with
/// radius `h` meets erased, or `before` itself where the disc meets none.
pub open spec fn erased_at(before: DocumentView, after: DocumentView, p: WorldPoint, h: int) -> bool {
    ||| (exists|i: int|
        0 <= i < before.shapes.len() && #[trigger] shape_hit(before.shapes[i], p, h) && (forall|j: int|
            i < j < before.shapes.len() ==> !#[trigger] shape_hit(before.shapes[j], p, h))
            && after == erased(before, i))
    ||| ((forall|j: int|
        0 <= j < before.shapes.len() ==> !#[trigger] shape_hit(before.shapes[j], p, h)) && after
        == before)
}

impl Document {
    /// Erases the topmost shape that the eraser's disc at `p` with radius `h`
    /// meets, and returns its index. At most one shape goes per call; where
    /// the disc meets none, nothing changes. Line segments are tested
    /// exactly, ellipses by their grown outline, and curves at sample points
    /// along them (see `curve_within`).
    pub fn erase_at(&mut self, p: WorldPoint, h: i64) -> (r: Option<usize>)
        requires
            old(self)@.wf(),
            p.in_range(),
            0 <= h <= MAX_HIT_RADIUS,
        ensures
            final(self)@.wf(),
            final(self).bgcolor() == old(self).bgcolor(),
            erased_at(old(self)@, final(self)@, p, h as int),
            match r {
                Some(i) => {
                    &&& i < old(self)@.shapes.len()
                    &&& shape_hit(old(self)@.shapes[i as int], p, h as int)
                    &&& forall|j: int|
                        i < j < old(self)@.shapes.len() ==> !#[trigger] shape_hit(
                            old(self)@.shapes[j],
                            p,
                            h as int,
                        )
                    &&& final(self)@ == erased(old(self)@, i as int)
                },
                None => {
                    &&& forall|j: int|
                        0 <= j < old(self)@.shapes.len() ==> !#[trigger] shape_hit(
                            old(self)@.shapes[j],
                            p,
                            h as int,
                        )
                    &&& final(self)@ == old(self)@
                },
            },
    {
        let ghost sv = self@.shapes;
        let n = self.len();
        let mut i: usize = n;
        let mut found: Option<usize> = None;
        while i > 0
            invariant
                i <= n,
                n == sv.len(),
                sv == self@.shapes,
                self@.wf(),
                p.in_range(),
                0 <= h <= MAX_HIT_RADIUS,
                found is None ==> forall|j: int| i <= j < n ==> !#[trigger] shape_hit(sv[j], p, h as int),
                found matches Some(k) ==> {
                    &&& i == 0
                    &&& k < n
                    &&& shape_hit(sv[k as int], p, h as int)
                    &&& forall|j: int| k < j < n ==> !#[trigger] shape_hit(sv[j], p, h as int)
                },
            decreases i,
        {
            let shapes = self.shapes();
            proof {
                assert(shape_views(shapes@)[(i - 1) as int] == shapes@[(i - 1) as int]@);
                assert(sv[(i - 1) as int].wf());
            }
            if shape_hit_exec(&shapes[i - 1], p, h) {
                found = Some(i - 1);
                i = 0;
            } else {
                i = i - 1;
            }
        }
        match found {
            Some(k) => {
                self.erase(k);
                Some(k)
            },
            None => {
                proof {
                    assert(i == 0);
                }
                None
            },
        }
    }
}

/// One eraser action removes at most one shape, and none at all when no
/// shape is within the hit radius of the point.
pub proof fn lemma_erase_at_most_one(before: DocumentView, after: DocumentView, p: WorldPoint, h: int)
    requires
        erased_at(before, after, p, h),
    ensures
        after.shapes.len() == before.shapes.len() || after.shapes.len() + 1 == before.shapes.len(),
        (forall|j: int| 0 <= j < before.shapes.len() ==> !#[trigger] shape_hit(before.shapes[j], p, h))
            ==> after == before,
{
}

} // verus!
