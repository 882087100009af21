//! Paths, ellipses, and the draw commands and shapes built from them.

use vstd::prelude::*;
use crate::units::{WorldPoint, ScreenPoint};
use crate::style::Style;

verus! {

/// One step of a world-space path.
#[derive(Clone, Copy, Debug, PartialEq, Eq, Structural)]
pub enum PathCommand {
    MoveTo(WorldPoint),
    LineTo(WorldPoint),
    /// A cubic bezier: two control points, then the end point.
    CurveTo(WorldPoint, WorldPoint, WorldPoint),
}

/// One step of a screen-space path.
#[derive(Clone, Copy, Debug, PartialEq, Eq, Structural)]
pub enum ScreenPathCommand {
    MoveTo(ScreenPoint),
    LineTo(ScreenPoint),
}

/// An axis-aligned ellipse; a zero semi-axis makes it invisible.
#[derive(Clone, Copy, Debug, PartialEq, Eq, Structural)]
pub struct Ellipse {
    pub center: WorldPoint,
    pub semimajor: i64,
    pub semiminor: i64,
}

impl PathCommand {
    /// The point where this step ends.
    pub open spec fn end(self) -> WorldPoint {
        match self {
            PathCommand::MoveTo(p) => p,
            PathCommand::LineTo(p) => p,
            PathCommand::CurveTo(_, _, p) => p,
        }
    }

    /// Every point that the step names lies in the drawable world.
    pub open spec fn in_range(self) -> bool {
        match self {
            PathCommand::MoveTo(p) => p.in_range(),
            PathCommand::LineTo(p) => p.in_range(),
            PathCommand::CurveTo(a, b, p) => a.in_range() && b.in_range() && p.in_range(),
        }
    }
}

/// A path starts with a move, holds at least one more step, and stays in
/// the drawable world; a later move starts a new subpath.
pub open spec fn path_wf(cmds: Seq<PathCommand>) -> bool {
    &&& cmds.len() >= 2
    &&& cmds[0] is MoveTo
    &&& forall|i: int| 0 <= i < cmds.len() ==> (#[trigger] cmds[i]).in_range()
}

/// Largest semi-axis of an ellipse.
pub const MAX_RADIUS: i64 = 300_000_000;

impl Ellipse {
    pub open spec fn wf(self) -> bool {
        &&& self.center.in_range()
        &&& 0 <= self.semimajor <= MAX_RADIUS
        &&& 0 <= self.semiminor <= MAX_RADIUS
    }
}

/// What a committed shape is, as plain values.
pub enum ShapeView {
    Path { commands: Seq<PathCommand>, style: Style },
    Ellipse { ellipse: Ellipse, style: Style },
}

/// A committed drawing element, in world space.
#[derive(Clone, Debug, PartialEq, Eq)]
pub enum Shape {
    Path { commands: Vec<PathCommand>, style: Style },
    Ellipse { ellipse: Ellipse, style: Style },
}

impl ShapeView {
    pub open spec fn wf(self) -> bool {
        match self {
            ShapeView::Path { commands, style } => path_wf(commands) && style.wf(),
            ShapeView::Ellipse { ellipse, style } => ellipse.wf() && style.wf(),
        }
    }
}

impl View for Shape {
    type V = ShapeView;

    open spec fn view(&self) -> ShapeView {
        match self {
            Shape::Path { commands, style } => ShapeView::Path { commands: commands@, style: *style },
            Shape::Ellipse { ellipse, style } => ShapeView::Ellipse { ellipse: *ellipse, style: *style },
        }
    }
}

/// What to paint: world-space commands go through the transform, screen-space
/// ones are painted as they are.
#[derive(Clone, Debug, PartialEq, Eq)]
#[allow(inconsistent_fields)]
pub enum DrawCommand {
    Path { commands: Vec<PathCommand>, style: Style },
    Ellipse { ellipse: Ellipse, style: Style },
    ScreenPath { commands: Vec<ScreenPathCommand>, style: Style },
    ScreenCircle { center: ScreenPoint, radius: i64, style: Style },
}

impl DrawCommand {
    /// Whether the command is in world space.
    pub fn is_world(&self) -> (r: bool)
        ensures
            r <==> (self is Path || self is Ellipse),
    {
        match self {
            DrawCommand::Path { .. } | DrawCommand::Ellipse { .. } => true,
            _ => false,
        }
    }
}

/// `d` paints the committed shape `s`.
pub open spec fn draws(s: ShapeView, d: DrawCommand) -> bool {
    match (s, d) {
        (ShapeView::Path { commands, style }, DrawCommand::Path { commands: c, style: st }) => c@
            == commands && st == style,
        (ShapeView::Ellipse { ellipse, style }, DrawCommand::Ellipse { ellipse: e, style: st }) => e
            == ellipse && st == style,
        _ => false,
    }
}

/// A copy of a path's steps.
pub fn copy_commands(v: &Vec<PathCommand>) -> (r: Vec<PathCommand>)
    ensures
        r@ == v@,
{
    let mut r: Vec<PathCommand> = Vec::new();
    let mut i: usize = 0;
    while i < v.len()
        invariant
            i <= v@.len(),
            r@ == v@.take(i as int),
        decreases v@.len() - i,
    {
        r.push(v[i]);
        i = i + 1;
        assert(r@ =~= v@.take(i as int));
    }
    assert(v@.take(v@.len() as int) =~= v@);
    r
}

impl Shape {
    /// The world-space command that paints this shape.
    pub fn to_draw_command(&self) -> (d: DrawCommand)
        ensures
            draws(self@, d),
    {
        match self {
            Shape::Path { commands, style } => DrawCommand::Path {
                commands: copy_commands(commands),
                style: *style,
            },
            Shape::Ellipse { ellipse, style } => DrawCommand::Ellipse { ellipse: *ellipse, style: *style },
        }
    }
}

/// An axis-aligned box: least x, least y, greatest x, greatest y.
pub type Extent = (int, int, int, int);

pub open spec fn min_i(a: int, b: int) -> int {
    if a <= b { a } else { b }
}

pub open spec fn max_i(a: int, b: int) -> int {
    if a >= b { a } else { b }
}

/// The least box holding both.
pub open spec fn join(a: Extent, b: Extent) -> Extent {
    (min_i(a.0, b.0), min_i(a.1, b.1), max_i(a.2, b.2), max_i(a.3, b.3))
}

pub open spec fn point_extent(p: WorldPoint) -> Extent {
    (p.x as int, p.y as int, p.x as int, p.y as int)
}

/// The box of the points a step names (control points included).
pub open spec fn command_extent(c: PathCommand) -> Extent {
    match c {
        PathCommand::MoveTo(p) => point_extent(p),
        PathCommand::LineTo(p) => point_extent(p),
        PathCommand::CurveTo(a, b, p) => join(join(point_extent(a), point_extent(b)), point_extent(p)),
    }
}

/// The box of all points of a nonempty path.
pub open spec fn path_extent(cs: Seq<PathCommand>) -> Extent
    decreases cs.len(),
{
    if cs.len() <= 1 {
        command_extent(cs[0])
    } else {
        join(path_extent(cs.drop_last()), command_extent(cs.last()))
    }
}

/// The box of a shape: its points, or an ellipse's bounding box.
pub open spec fn shape_extent(s: ShapeView) -> Extent {
    match s {
        ShapeView::Path { commands, .. } => path_extent(commands),
        ShapeView::Ellipse { ellipse: e, .. } => (
            e.center.x - e.semimajor,
            e.center.y - e.semiminor,
            e.center.x + e.semimajor,
            e.center.y + e.semiminor,
        ),
    }
}

/// The box of a nonempty list of shapes.
pub open spec fn shapes_extent(sv: Seq<ShapeView>) -> Extent
    decreases sv.len(),
{
    if sv.len() <= 1 {
        shape_extent(sv[0])
    } else {
        join(shapes_extent(sv.drop_last()), shape_extent(sv.last()))
    }
}

pub fn join_exec(a: (i64, i64, i64, i64), b: (i64, i64, i64, i64)) -> (r: (i64, i64, i64, i64))
    ensures
        (r.0 as int, r.1 as int, r.2 as int, r.3 as int) == join(
            (a.0 as int, a.1 as int, a.2 as int, a.3 as int),
            (b.0 as int, b.1 as int, b.2 as int, b.3 as int),
        ),
{
    (
        if a.0 <= b.0 { a.0 } else { b.0 },
        if a.1 <= b.1 { a.1 } else { b.1 },
        if a.2 >= b.2 { a.2 } else { b.2 },
        if a.3 >= b.3 { a.3 } else { b.3 },
    )
}

pub open spec fn as_extent(r: (i64, i64, i64, i64)) -> Extent {
    (r.0 as int, r.1 as int, r.2 as int, r.3 as int)
}

fn command_extent_exec(c: PathCommand) -> (r: (i64, i64, i64, i64))
    ensures
        as_extent(r) == command_extent(c),
{
    match c {
        PathCommand::MoveTo(p) => (p.x, p.y, p.x, p.y),
        PathCommand::LineTo(p) => (p.x, p.y, p.x, p.y),
        PathCommand::CurveTo(a, b, p) => join_exec(join_exec((a.x, a.y, a.x, a.y), (b.x, b.y, b.x, b.y)), (p.x, p.y, p.x, p.y)),
    }
}

/// The box of a well-formed shape.
pub fn shape_extent_exec(s: &Shape) -> (r: (i64, i64, i64, i64))
    requires
        s@.wf(),
    ensures
        as_extent(r) == shape_extent(s@),
{
    match s {
        Shape::Path { commands, .. } => {
            let mut r = command_extent_exec(commands[0]);
            let mut i: usize = 1;
            assert(commands@.take(1).drop_last() =~= Seq::<PathCommand>::empty());
            while i < commands.len()
                invariant
                    1 <= i <= commands@.len(),
                    as_extent(r) == path_extent(commands@.take(i as int)),
                decreases commands@.len() - i,
            {
                let c = command_extent_exec(commands[i]);
                r = join_exec(r, c);
                proof {
                    let t = commands@.take(i + 1);
                    assert(t.drop_last() =~= commands@.take(i as int));
                    assert(t.last() == commands@[i as int]);
                }
                i = i + 1;
            }
            assert(commands@.take(commands@.len() as int) =~= commands@);
            r
        },
        Shape::Ellipse { ellipse: e, .. } => (
            e.center.x - e.semimajor,
            e.center.y - e.semiminor,
            e.center.x + e.semimajor,
            e.center.y + e.semiminor,
        ),
    }
}

} // verus!
