//! Tools, input events, settings, and the shape that a finished gesture
//! makes.

use vstd::prelude::*;
use crate::units::WorldPoint;
use crate::style::{Color, Style};
use crate::shape::{PathCommand, Shape, ShapeView, Ellipse, path_wf};
use crate::geom::{
    rectangle_spec, rectangle_path, circle_spec, circle_by_center_and_point, circle_through_spec,
    circle_through_three_points, foci_ellipse, ellipse_by_foci_and_point, grid_over, grid_path,
};
use crate::eraser::MAX_HIT_RADIUS;
use crate::transform::MAX_ZOOM_LEVEL;

verus! {

/// The tools that draw a shape.
#[derive(Clone, Copy, Debug, PartialEq, Eq, Structural)]
pub enum ShapeTool {
    /// Freehand strokes.
    Path,
    Rectangle,
    Polygon,
    CircleByCenterAndPoint,
    CircleThroughThreePoints,
    /// Two foci, then a point on the curve.
    ThreePointEllipse,
    /// A lattice at the configured spacing.
    Grid,
    /// A lattice whose spacing follows the drag.
    FreeGrid,
}

#[derive(Clone, Copy, Debug, PartialEq, Eq, Structural)]
pub enum SelectedTool {
    Eraser,
    Shape(ShapeTool),
}

#[derive(Clone, Copy, Debug, PartialEq, Eq, Structural)]
pub enum MouseButton {
    Left,
    Middle,
    Right,
    Unknown,
}

#[derive(Clone, Copy, Debug, PartialEq, Eq, Structural)]
pub enum Key {
    Shift,
    Escape,
    Unknown,
}

/// Modifier keys held during an event.
#[derive(Clone, Copy, Debug, PartialEq, Eq, Structural)]
pub struct Flags {
    pub alt: bool,
    pub ctrl: bool,
    pub shift: bool,
}

/// The least the host must repaint after an event.
#[derive(Clone, Copy, Debug, PartialEq, Eq, Structural)]
pub enum ShouldRedraw {
    Nothing,
    /// Only the shape being drawn and the tool's marks.
    Shape,
    All,
}

/// Settings read once at start.
#[derive(Clone, Copy, Debug, PartialEq, Eq, Structural)]
pub struct Config {
    /// Margin around the drawing when exporting, in world units.
    pub export_padding: i64,
    /// Zoom-in steps allowed from the home scale.
    pub max_zoom_in: i64,
    /// Zoom-out steps allowed from the home scale.
    pub max_zoom_out: i64,
    /// Eraser radius in world units.
    pub eraser_radius: i64,
    /// Spacing of the fixed grid, in world units.
    pub grid_spacing: i64,
    /// Cells along the longer side of a free grid.
    pub free_grid_cells: i64,
    pub background: Color,
}

impl Config {
    pub open spec fn wf(self) -> bool {
        &&& 0 <= self.export_padding <= 1_000_000
        &&& 0 <= self.max_zoom_in <= MAX_ZOOM_LEVEL
        &&& 0 <= self.max_zoom_out <= MAX_ZOOM_LEVEL
        &&& 0 <= self.eraser_radius <= MAX_HIT_RADIUS
        &&& 1 <= self.grid_spacing <= 1_000_000
        &&& 1 <= self.free_grid_cells <= 1000
    }
}

impl Default for Config {
    fn default() -> (c: Config)
        ensures
            c.wf(),
            c == (Config {
                export_padding: 20,
                max_zoom_in: 8,
                max_zoom_out: 8,
                eraser_radius: 10,
                grid_spacing: 20,
                free_grid_cells: 4,
                background: Color { r: 255, g: 255, b: 255, a: 255 },
            }),
    {
        Config {
            export_padding: 20,
            max_zoom_in: 8,
            max_zoom_out: 8,
            eraser_radius: 10,
            grid_spacing: 20,
            free_grid_cells: 4,
            background: Color::white(),
        }
    }
}

/// Whether the tool collects points by clicks rather than by one drag.
pub open spec fn is_click_tool(t: ShapeTool) -> bool {
    t is Polygon || t is CircleThroughThreePoints || t is ThreePointEllipse
}

/// A move to the first point, then a line to each next one.
pub open spec fn polyline(pts: Seq<WorldPoint>) -> Seq<PathCommand> {
    Seq::new(
        pts.len(),
        |i: int|
            if i == 0 {
                PathCommand::MoveTo(pts[0])
            } else {
                PathCommand::LineTo(pts[i])
            },
    )
}

/// The polyline through the points, closed by a line back to the first.
pub open spec fn closed_polyline(pts: Seq<WorldPoint>) -> Seq<PathCommand> {
    polyline(pts).push(PathCommand::LineTo(pts[0]))
}

/// The spacing of a free grid over the drag from `a` to `b`: the longer side
/// over the number of cells, at least 1.
pub open spec fn free_grid_spacing(a: WorldPoint, b: WorldPoint, cells: int) -> int {
    let dx = if a.x <= b.x { b.x - a.x } else { a.x - b.x };
    let dy = if a.y <= b.y { b.y - a.y } else { a.y - b.y };
    let side = if dx >= dy { dx } else { dy };
    if side / cells >= 1 {
        side / cells
    } else {
        1
    }
}

pub open spec fn path_shape(cmds: Option<Seq<PathCommand>>, style: Style) -> Option<ShapeView> {
    match cmds {
        Some(c) => Some(ShapeView::Path { commands: c, style }),
        None => None,
    }
}

/// A circle with a positive radius, or nothing.
pub open spec fn circle_shape(e: Option<Ellipse>, style: Style) -> Option<ShapeView> {
    match e {
        Some(e) => if e.semimajor > 0 {
            Some(ShapeView::Ellipse { ellipse: e, style })
        } else {
            None
        },
        None => None,
    }
}

/// The shape that a finished gesture of `tool` through `pts` makes, painted
/// with `style`; `None` where the points make no visible shape.
pub open spec fn gesture_shape(tool: ShapeTool, pts: Seq<WorldPoint>, style: Style, cfg: Config) -> Option<
    ShapeView,
> {
    match tool {
        ShapeTool::Path => if pts.len() >= 2 {
            path_shape(Some(polyline(pts)), style)
        } else {
            None
        },
        ShapeTool::Polygon => if pts.len() >= 2 {
            path_shape(Some(closed_polyline(pts)), style)
        } else {
            None
        },
        ShapeTool::Rectangle => if pts.len() == 2 && pts[0] != pts[1] {
            path_shape(Some(rectangle_spec(pts[0], pts[1])), style)
        } else {
            None
        },
        ShapeTool::CircleByCenterAndPoint => if pts.len() == 2 {
            circle_shape(Some(circle_spec(pts[0], pts[1])), style)
        } else {
            None
        },
        ShapeTool::CircleThroughThreePoints => if pts.len() == 3 {
            circle_shape(circle_through_spec(pts[0], pts[1], pts[2]), style)
        } else {
            None
        },
        ShapeTool::ThreePointEllipse => if pts.len() == 3 {
            path_shape(foci_ellipse(pts[0], pts[1], pts[2]), style)
        } else {
            None
        },
        ShapeTool::Grid => if pts.len() == 2 {
            path_shape(grid_over(pts[0], pts[1], cfg.grid_spacing as int), style)
        } else {
            None
        },
        ShapeTool::FreeGrid => if pts.len() == 2 {
            path_shape(
                grid_over(
                    pts[0],
                    pts[1],
                    free_grid_spacing(pts[0], pts[1], cfg.free_grid_cells as int),
                ),
                style,
            )
        } else {
            None
        },
    }
}

pub open spec fn all_in_range(pts: Seq<WorldPoint>) -> bool {
    forall|i: int| 0 <= i < pts.len() ==> (#[trigger] pts[i]).in_range()
}

fn polyline_exec(pts: &Vec<WorldPoint>, close: bool) -> (r: Vec<PathCommand>)
    requires
        pts@.len() >= 2,
        all_in_range(pts@),
    ensures
        path_wf(r@),
        r@ == if close {
            closed_polyline(pts@)
        } else {
            polyline(pts@)
        },
{
    let mut r: Vec<PathCommand> = Vec::new();
    r.push(PathCommand::MoveTo(pts[0]));
    let mut i: usize = 1;
    while i < pts.len()
        invariant
            1 <= i <= pts@.len(),
            r@ =~= polyline(pts@).subrange(0, i as int),
        decreases pts@.len() - i,
    {
        r.push(PathCommand::LineTo(pts[i]));
        i = i + 1;
    }
    assert(r@ =~= polyline(pts@));
    if close {
        r.push(PathCommand::LineTo(pts[0]));
    }
    assert(forall|j: int| 0 <= j < r@.len() ==> (#[trigger] r@[j]).in_range()) by {
        assert forall|j: int| 0 <= j < r@.len() implies (#[trigger] r@[j]).in_range() by {
            if j < pts@.len() {
                assert(pts@[j].in_range());
            } else {
                assert(pts@[0].in_range());
            }
        }
    }
    r
}

fn abs_diff(a: i64, b: i64) -> (r: i64)
    requires
        -100_000_000 <= a <= 100_000_000,
        -100_000_000 <= b <= 100_000_000,
    ensures
        r == if a <= b { b - a } else { a - b },
{
    if a <= b {
        b - a
    } else {
        a - b
    }
}

fn with_style(cmds: Option<Vec<PathCommand>>, style: Style) -> (r: Option<Shape>)
    requires
        cmds matches Some(c) ==> path_wf(c@),
    ensures
        r matches Some(s) ==> (style.wf() ==> s@.wf()),
        match cmds {
            Some(c) => r == Some(Shape::Path { commands: c, style }),
            None => r is None,
        },
{
    match cmds {
        Some(c) => Some(Shape::Path { commands: c, style }),
        None => None,
    }
}

fn circle_of(e: Option<Ellipse>, style: Style) -> (r: Option<Shape>)
    requires
        e matches Some(e) ==> e.wf(),
    ensures
        r matches Some(s) ==> (style.wf() ==> s@.wf()),
        match r {
            Some(s) => circle_shape(e, style) == Some(s@),
            None => circle_shape(e, style) is None,
        },
{
    match e {
        Some(e) => if e.semimajor > 0 {
            Some(Shape::Ellipse { ellipse: e, style })
        } else {
            None
        },
        None => None,
    }
}

/// Builds the shape that a finished gesture makes; see `gesture_shape`.
pub fn build_shape(tool: ShapeTool, pts: &Vec<WorldPoint>, style: Style, cfg: &Config) -> (r: Option<
    Shape,
>)
    requires
        all_in_range(pts@),
        cfg.wf(),
    ensures
        match r {
            Some(s) => gesture_shape(tool, pts@, style, *cfg) == Some(s@),
            None => gesture_shape(tool, pts@, style, *cfg) is None,
        },
        r matches Some(s) ==> (style.wf() ==> s@.wf()),
{
    let n = pts.len();
    proof {
        if n >= 1 {
            assert(pts@[0].in_range());
        }
        if n >= 2 {
            assert(pts@[1].in_range());
        }
        if n >= 3 {
            assert(pts@[2].in_range());
        }
    }
    match tool {
        ShapeTool::Path => if n >= 2 {
            with_style(Some(polyline_exec(pts, false)), style)
        } else {
            None
        },
        ShapeTool::Polygon => if n >= 2 {
            with_style(Some(polyline_exec(pts, true)), style)
        } else {
            None
        },
        ShapeTool::Rectangle => if n == 2 && pts[0] != pts[1] {
            with_style(Some(rectangle_path(pts[0], pts[1])), style)
        } else {
            None
        },
        ShapeTool::CircleByCenterAndPoint => if n == 2 {
            circle_of(Some(circle_by_center_and_point(pts[0], pts[1])), style)
        } else {
            None
        },
        ShapeTool::CircleThroughThreePoints => if n == 3 {
            circle_of(circle_through_three_points(pts[0], pts[1], pts[2]), style)
        } else {
            None
        },
        ShapeTool::ThreePointEllipse => if n == 3 {
            with_style(ellipse_by_foci_and_point(pts[0], pts[1], pts[2]), style)
        } else {
            None
        },
        ShapeTool::Grid => if n == 2 {
            with_style(grid_path(pts[0], pts[1], cfg.grid_spacing), style)
        } else {
            None
        },
        ShapeTool::FreeGrid => if n == 2 {
            let dx = abs_diff(pts[0].x, pts[1].x);
            let dy = abs_diff(pts[0].y, pts[1].y);
            let side = if dx >= dy { dx } else { dy };
            let q = side / cfg.free_grid_cells;
            let s = if q >= 1 { q } else { 1 };
            with_style(grid_path(pts[0], pts[1], s), style)
        } else {
            None
        },
    }
}

} // verus!
