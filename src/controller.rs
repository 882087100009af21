//! The single owner of the document, the view transform and the gesture in
//! progress; every host event goes through it.

use vstd::prelude::*;
use crate::units::{WorldPoint, ScreenPoint};
use crate::style::{Color, Style, Stroke, MAX_THICKNESS};
use crate::shape::{Shape, ShapeView, DrawCommand, PathCommand};
use crate::document::{Document, DocumentView, SaveStatus, committed, undone, redone};
use crate::transform::{Transform, zoomed_in, zoomed_out, identity_spec, clamp_translate};
use crate::tools::{
    ShapeTool, SelectedTool, MouseButton, Key, Flags, ShouldRedraw, Config, gesture_shape,
    build_shape, all_in_range, is_click_tool,
};
use crate::eraser::erased_at;
use crate::codec::{ParseError, svg_bytes, read_svg, write_svg};
use crate::shape::{draws, shapes_extent, shape_extent_exec, as_extent, join_exec};
use crate::document::{all_wf, shape_views};
use crate::units::{in_world, SUBPIXEL};
use crate::transform::screen_coord;

verus! {

/// Largest viewport side, in screen units (a million pixels).
pub const MAX_DIMENSION: i64 = 65_536_000_000;

/// Screen units that one scroll step moves the picture (twenty pixels).
pub const SCROLL_STEP: i64 = 1_310_720;

/// The document after a finished gesture: the shape it makes committed, or
/// nothing changed where it makes none.
pub open spec fn finished(doc: DocumentView, tool: ShapeTool, pts: Seq<WorldPoint>, style: Style, cfg: Config) -> DocumentView {
    match gesture_shape(tool, pts, style, cfg) {
        Some(x) => committed(doc, x),
        None => doc,
    }
}

/// The middle of a viewport of `d`.
pub open spec fn center_of(d: ScreenPoint) -> ScreenPoint {
    ScreenPoint { x: (d.x / 2) as i64, y: (d.y / 2) as i64 }
}

/// The hint after a gesture ends: repaint everything where it committed a
/// shape, else only the overlay.
pub open spec fn finish_hint(tool: ShapeTool, pts: Seq<WorldPoint>, style: Style, cfg: Config) -> ShouldRedraw {
    if gesture_shape(tool, pts, style, cfg) is Some {
        ShouldRedraw::All
    } else {
        ShouldRedraw::Shape
    }
}

/// The hint after an eraser action: repaint everything where it erased a
/// shape, else only the overlay.
pub open spec fn erase_hint(before: DocumentView, after: DocumentView) -> ShouldRedraw {
    if after.shapes.len() < before.shapes.len() {
        ShouldRedraw::All
    } else {
        ShouldRedraw::Shape
    }
}

/// The tool that an event acts with: a stylus eraser erases whatever is
/// selected.
pub open spec fn acting_tool(selected: SelectedTool, hint: Option<SelectedTool>) -> SelectedTool {
    match hint {
        Some(SelectedTool::Eraser) => SelectedTool::Eraser,
        _ => selected,
    }
}

/// The points a drag gesture ends with when released at `w`: freehand keeps
/// every point (only the ends with Shift), the others take the anchor and `w`.
pub open spec fn drag_points(tool: ShapeTool, pts: Seq<WorldPoint>, w: WorldPoint, shift: bool) -> Seq<WorldPoint> {
    if tool is Path && !shift {
        pts.push(w)
    } else {
        seq![pts[0], w]
    }
}

/// The gesture in progress and the selected tool are the same in both.
pub open spec fn same_gesture(a: Pizarra, b: Pizarra) -> bool {
    &&& a.tool() == b.tool()
    &&& a.points() == b.points()
    &&& a.dragging() == b.dragging()
    &&& a.panning() == b.panning()
    &&& a.shift() == b.shift()
    &&& a.cursor() == b.cursor()
}

/// The drawing style, the settings and the background are the same in both.
pub open spec fn same_settings(a: Pizarra, b: Pizarra) -> bool {
    &&& a.style() == b.style()
    &&& a.cfg() == b.cfg()
    &&& a.bg() == b.bg()
}

/// The transform and the viewport are the same in both.
pub open spec fn same_view(a: Pizarra, b: Pizarra) -> bool {
    &&& a.transform() == b.transform()
    &&& a.dimensions() == b.dimensions()
}

pub struct Pizarra {
    doc: Document,
    transform: Transform,
    dimensions: ScreenPoint,
    tool: SelectedTool,
    points: Vec<WorldPoint>,
    cursor: Option<ScreenPoint>,
    dragging: bool,
    panning: Option<ScreenPoint>,
    shift: bool,
    style: Style,
    config: Config,
}

fn acting(selected: SelectedTool, hint: Option<SelectedTool>) -> (r: SelectedTool)
    ensures
        r == acting_tool(selected, hint),
{
    match hint {
        Some(SelectedTool::Eraser) => SelectedTool::Eraser,
        _ => selected,
    }
}

impl Pizarra {
    pub closed spec fn doc(&self) -> DocumentView {
        self.doc@
    }

    pub closed spec fn transform(&self) -> Transform {
        self.transform
    }

    pub closed spec fn dimensions(&self) -> ScreenPoint {
        self.dimensions
    }

    pub closed spec fn tool(&self) -> SelectedTool {
        self.tool
    }

    /// The points of the gesture in progress.
    pub closed spec fn points(&self) -> Seq<WorldPoint> {
        self.points@
    }

    /// Whether the left button is held down.
    pub closed spec fn dragging(&self) -> bool {
        self.dragging
    }

    /// Where the pointer was last seen.
    pub closed spec fn cursor(&self) -> Option<ScreenPoint> {
        self.cursor
    }

    pub closed spec fn panning(&self) -> Option<ScreenPoint> {
        self.panning
    }

    pub closed spec fn shift(&self) -> bool {
        self.shift
    }

    pub closed spec fn style(&self) -> Style {
        self.style
    }

    pub closed spec fn cfg(&self) -> Config {
        self.config
    }

    pub closed spec fn bg(&self) -> Color {
        self.doc.bgcolor()
    }

    pub open spec fn wf(&self) -> bool {
        &&& self.doc().wf()
        &&& self.transform().wf()
        &&& self.cfg().wf()
        &&& self.style().wf()
        &&& all_in_range(self.points())
        &&& 0 <= self.dimensions().x <= MAX_DIMENSION
        &&& 0 <= self.dimensions().y <= MAX_DIMENSION
    }

    /// A new, empty drawing with a viewport of `dimensions`, at the home
    /// transform, drawing freehand in black.
    pub fn new(dimensions: ScreenPoint, config: Config) -> (p: Pizarra)
        requires
            config.wf(),
            0 <= dimensions.x <= MAX_DIMENSION,
            0 <= dimensions.y <= MAX_DIMENSION,
        ensures
            p.wf(),
            p.doc().shapes.len() == 0,
            p.doc().undo.len() == 0,
            p.doc().redo.len() == 0,
            p.doc().status == SaveStatus::NewAndEmpty,
            p.transform() == identity_spec(),
            p.dimensions() == dimensions,
            p.tool() == SelectedTool::Shape(ShapeTool::Path),
            p.points().len() == 0,
            p.cfg() == config,
            p.bg() == config.background,
            p.style() == (Style {
                stroke: Some(Stroke { color: Color { r: 0, g: 0, b: 0, a: 255 }, size: 3 }),
                fill: None,
            }),
    {
        let p = Pizarra {
            doc: Document::new(config.background),
            transform: Transform::identity(),
            dimensions,
            tool: SelectedTool::Shape(ShapeTool::Path),
            points: Vec::new(),
            cursor: None,
            dragging: false,
            panning: None,
            shift: false,
            style: Style { stroke: Some(Stroke { color: Color::black(), size: 3 }), fill: None },
            config,
        };
        assert(p.points@ =~= Seq::<WorldPoint>::empty());
        p
    }

    // ------------------------------------------------------------------
    // Getters and settings

    pub fn get_transform(&self) -> (t: Transform)
        ensures
            t == self.transform(),
    {
        self.transform
    }

    pub fn get_dimensions(&self) -> (d: ScreenPoint)
        ensures
            d == self.dimensions(),
    {
        self.dimensions
    }

    pub fn get_save_status(&self) -> (s: &SaveStatus)
        ensures
            *s == self.doc().status,
    {
        self.doc.save_status()
    }

    pub fn get_tool(&self) -> (t: SelectedTool)
        ensures
            t == self.tool(),
    {
        self.tool
    }

    pub fn get_style(&self) -> (s: Style)
        ensures
            s == self.style(),
    {
        self.style
    }

    pub fn config(&self) -> (c: &Config)
        ensures
            *c == self.cfg(),
    {
        &self.config
    }

    pub fn bgcolor(&self) -> (c: Color)
        ensures
            c == self.bg(),
    {
        self.doc.background()
    }

    /// The committed shapes in paint order.
    pub fn shapes(&self) -> (r: &Vec<Shape>)
        ensures
            crate::document::shape_views(r@) == self.doc().shapes,
    {
        self.doc.shapes()
    }

    /// The gesture's points so far.
    pub fn gesture_points(&self) -> (r: &Vec<WorldPoint>)
        ensures
            r@ == self.points(),
    {
        &self.points
    }

    /// The color new outlines get; black where outlines are off.
    pub fn selected_color(&self) -> (c: Color)
        ensures
            c == match self.style().stroke {
                Some(s) => s.color,
                None => Color { r: 0, g: 0, b: 0, a: 255 },
            },
    {
        match self.style.stroke {
            Some(s) => s.color,
            None => Color::black(),
        }
    }

    /// Selects a tool; the gesture in progress is dropped.
    pub fn set_tool(&mut self, tool: SelectedTool)
        requires
            old(self).wf(),
        ensures
            final(self).wf(),
            final(self).tool() == tool,
            final(self).points().len() == 0,
            !final(self).dragging(),
            final(self).doc() == old(self).doc(),
            same_view(*final(self), *old(self)),
            same_settings(*final(self), *old(self)),
            final(self).panning() == old(self).panning(),
            final(self).shift() == old(self).shift(),
            final(self).cursor() == old(self).cursor(),
    {
        self.tool = tool;
        self.points.clear();
        self.dragging = false;
    }

    /// The outline color of shapes drawn from now on; shapes already drawn
    /// keep theirs.
    pub fn set_color(&mut self, color: Color)
        requires
            old(self).wf(),
        ensures
            final(self).wf(),
            final(self).style() == (Style {
                stroke: Some(Stroke {
                    color,
                    size: match old(self).style().stroke {
                        Some(s) => s.size,
                        None => 3,
                    },
                }),
                ..old(self).style()
            }),
            final(self).doc() == old(self).doc(),
            same_gesture(*final(self), *old(self)),
            same_view(*final(self), *old(self)),
            final(self).cfg() == old(self).cfg(),
            final(self).bg() == old(self).bg(),
    {
        let size = match self.style.stroke {
            Some(s) => s.size,
            None => 3,
        };
        self.style = Style { stroke: Some(Stroke { color, size }), ..self.style };
    }

    /// The alpha of the outline color of shapes drawn from now on.
    pub fn set_alpha(&mut self, alpha: u8)
        requires
            old(self).wf(),
        ensures
            final(self).wf(),
            final(self).style() == (Style {
                stroke: match old(self).style().stroke {
                    Some(s) => Some(Stroke { color: Color { a: alpha, ..s.color }, ..s }),
                    None => None,
                },
                ..old(self).style()
            }),
            final(self).doc() == old(self).doc(),
            same_gesture(*final(self), *old(self)),
            same_view(*final(self), *old(self)),
            final(self).cfg() == old(self).cfg(),
            final(self).bg() == old(self).bg(),
    {
        self.style = Style {
            stroke: match self.style.stroke {
                Some(s) => Some(Stroke { color: s.color.with_alpha(alpha), ..s }),
                None => None,
            },
            ..self.style
        };
    }

    /// The outline thickness of shapes drawn from now on, in world units,
    /// at most the largest thickness.
    pub fn set_stroke(&mut self, size: i64)
        requires
            old(self).wf(),
            0 <= size <= MAX_THICKNESS,
        ensures
            final(self).wf(),
            final(self).style() == (Style {
                stroke: Some(Stroke {
                    color: match old(self).style().stroke {
                        Some(s) => s.color,
                        None => Color { r: 0, g: 0, b: 0, a: 255 },
                    },
                    size,
                }),
                ..old(self).style()
            }),
            final(self).doc() == old(self).doc(),
            same_gesture(*final(self), *old(self)),
            same_view(*final(self), *old(self)),
            final(self).cfg() == old(self).cfg(),
            final(self).bg() == old(self).bg(),
    {
        let color = self.selected_color();
        self.style = Style { stroke: Some(Stroke { color, size }), ..self.style };
    }

    /// The fill of shapes drawn from now on.
    pub fn set_fill(&mut self, fill: Option<Color>)
        requires
            old(self).wf(),
        ensures
            final(self).wf(),
            final(self).style() == (Style { fill, ..old(self).style() }),
            final(self).doc() == old(self).doc(),
            same_gesture(*final(self), *old(self)),
            same_view(*final(self), *old(self)),
            final(self).cfg() == old(self).cfg(),
            final(self).bg() == old(self).bg(),
    {
        self.style = Style { fill, ..self.style };
    }

    // ------------------------------------------------------------------
    // Viewport

    /// The viewport got new dimensions; zoom and pan stay.
    pub fn resize(&mut self, dimensions: ScreenPoint)
        requires
            old(self).wf(),
            0 <= dimensions.x <= MAX_DIMENSION,
            0 <= dimensions.y <= MAX_DIMENSION,
        ensures
            final(self).wf(),
            final(self).dimensions() == dimensions,
            final(self).transform() == old(self).transform(),
            final(self).doc() == old(self).doc(),
            same_gesture(*final(self), *old(self)),
            same_settings(*final(self), *old(self)),
    {
        self.dimensions = dimensions;
    }

    fn center(&self) -> (c: ScreenPoint)
        requires
            self.wf(),
        ensures
            c.x == self.dimensions.x / 2,
            c.y == self.dimensions.y / 2,
    {
        ScreenPoint { x: self.dimensions.x / 2, y: self.dimensions.y / 2 }
    }

    /// One zoom step in, about the viewport's center.
    pub fn zoom_in(&mut self)
        requires
            old(self).wf(),
        ensures
            final(self).wf(),
            final(self).transform() == zoomed_in(
                old(self).transform(),
                center_of(old(self).dimensions()),
                old(self).cfg().max_zoom_in as int,
            ),
            final(self).doc() == old(self).doc(),
            final(self).dimensions() == old(self).dimensions(),
            same_gesture(*final(self), *old(self)),
            same_settings(*final(self), *old(self)),
    {
        let c = self.center();
        self.transform.zoom_in(c, self.config.max_zoom_in);
    }

    /// One zoom step out, about the viewport's center.
    pub fn zoom_out(&mut self)
        requires
            old(self).wf(),
        ensures
            final(self).wf(),
            final(self).transform() == zoomed_out(
                old(self).transform(),
                center_of(old(self).dimensions()),
                -old(self).cfg().max_zoom_out,
            ),
            final(self).doc() == old(self).doc(),
            final(self).dimensions() == old(self).dimensions(),
            same_gesture(*final(self), *old(self)),
            same_settings(*final(self), *old(self)),
    {
        let c = self.center();
        self.transform.zoom_out(c, -self.config.max_zoom_out);
    }

    /// Back to the identity transform, whatever zoom and pan came before.
    pub fn go_home(&mut self)
        requires
            old(self).wf(),
        ensures
            final(self).wf(),
            final(self).transform() == identity_spec(),
            final(self).doc() == old(self).doc(),
            final(self).dimensions() == old(self).dimensions(),
            same_gesture(*final(self), *old(self)),
            same_settings(*final(self), *old(self)),
    {
        self.transform.go_home();
    }

    /// Moves the picture by `delta` screen units.
    pub fn pan(&mut self, delta: ScreenPoint)
        requires
            old(self).wf(),
        ensures
            final(self).wf(),
            final(self).transform().level == old(self).transform().level,
            final(self).transform().tx == clamp_translate(old(self).transform().tx + delta.x),
            final(self).transform().ty == clamp_translate(old(self).transform().ty + delta.y),
            final(self).doc() == old(self).doc(),
            final(self).dimensions() == old(self).dimensions(),
            same_gesture(*final(self), *old(self)),
            same_settings(*final(self), *old(self)),
    {
        self.transform.pan(delta);
    }

    /// A scroll of `(dx, dy)` steps: with Ctrl it zooms (in when scrolling
    /// up), with Shift the vertical scroll moves sideways, and otherwise the
    /// picture moves against the scroll by a fixed step each.
    pub fn scroll(&mut self, delta: ScreenPoint, flags: Flags)
        requires
            old(self).wf(),
            -1_000_000 <= delta.x <= 1_000_000,
            -1_000_000 <= delta.y <= 1_000_000,
        ensures
            final(self).wf(),
            final(self).doc() == old(self).doc(),
            final(self).dimensions() == old(self).dimensions(),
            same_gesture(*final(self), *old(self)),
            same_settings(*final(self), *old(self)),
            ({
                let t = old(self).transform();
                let c = center_of(old(self).dimensions());
                let f = final(self).transform();
                if flags.ctrl {
                    if delta.y < 0 {
                        f == zoomed_in(t, c, old(self).cfg().max_zoom_in as int)
                    } else if delta.y > 0 {
                        f == zoomed_out(t, c, -old(self).cfg().max_zoom_out)
                    } else {
                        f == t
                    }
                } else if flags.shift {
                    f.level == t.level && f.tx == clamp_translate(t.tx - delta.y * SCROLL_STEP)
                        && f.ty == clamp_translate(t.ty - delta.x * SCROLL_STEP)
                } else {
                    f.level == t.level && f.tx == clamp_translate(t.tx - delta.x * SCROLL_STEP)
                        && f.ty == clamp_translate(t.ty - delta.y * SCROLL_STEP)
                }
            }),
    {
        if flags.ctrl {
            if delta.y < 0 {
                self.zoom_in();
            } else if delta.y > 0 {
                self.zoom_out();
            }
        } else {
            let sx: i128 = 0 - (delta.x as i128) * (SCROLL_STEP as i128);
            let sy: i128 = 0 - (delta.y as i128) * (SCROLL_STEP as i128);
            if flags.shift {
                self.transform.pan_by(sy, sx);
            } else {
                self.transform.pan_by(sx, sy);
            }
        }
    }

    // ------------------------------------------------------------------
    // Document

    /// Reverts the last commit or erase.
    pub fn undo(&mut self)
        requires
            old(self).wf(),
        ensures
            final(self).wf(),
            final(self).doc() == undone(old(self).doc()),
            same_view(*final(self), *old(self)),
            same_gesture(*final(self), *old(self)),
            same_settings(*final(self), *old(self)),
    {
        self.doc.undo();
    }

    /// Applies again the last undone edit.
    pub fn redo(&mut self)
        requires
            old(self).wf(),
        ensures
            final(self).wf(),
            final(self).doc() == redone(old(self).doc()),
            same_view(*final(self), *old(self)),
            same_gesture(*final(self), *old(self)),
            same_settings(*final(self), *old(self)),
    {
        self.doc.redo();
    }

    /// Replaces the drawing with an empty one, history included.
    pub fn reset(&mut self)
        requires
            old(self).wf(),
        ensures
            final(self).wf(),
            final(self).doc().shapes.len() == 0,
            final(self).doc().undo.len() == 0,
            final(self).doc().redo.len() == 0,
            final(self).doc().status == SaveStatus::NewAndEmpty,
            final(self).points().len() == 0,
            !final(self).dragging(),
            same_view(*final(self), *old(self)),
            same_settings(*final(self), *old(self)),
            final(self).tool() == old(self).tool(),
    {
        self.doc.reset();
        self.points.clear();
        self.dragging = false;
    }

    /// Records that the drawing was stored at `path`.
    pub fn set_saved(&mut self, path: String)
        requires
            old(self).wf(),
        ensures
            final(self).wf(),
            final(self).doc() == (DocumentView { status: SaveStatus::Saved(path), ..old(self).doc() }),
            same_view(*final(self), *old(self)),
            same_gesture(*final(self), *old(self)),
            same_settings(*final(self), *old(self)),
    {
        self.doc.set_saved(path);
    }

    /// Makes `doc` the drawing; the gesture in progress is dropped.
    pub fn replace_document(&mut self, doc: Document)
        requires
            old(self).wf(),
            doc@.wf(),
        ensures
            final(self).wf(),
            final(self).doc() == doc@,
            final(self).bg() == doc.bgcolor(),
            final(self).points().len() == 0,
            final(self).transform() == old(self).transform(),
    {
        self.doc = doc;
        self.points.clear();
        self.dragging = false;
    }

    // ------------------------------------------------------------------
    // Gestures

    fn finish(&mut self, tool: ShapeTool, pts: &Vec<WorldPoint>) -> (r: ShouldRedraw)
        requires
            old(self).wf(),
            all_in_range(pts@),
        ensures
            final(self).wf(),
            final(self).doc() == finished(old(self).doc(), tool, pts@, old(self).style(), old(self).cfg()),
            r == if gesture_shape(tool, pts@, old(self).style(), old(self).cfg()) is Some {
                ShouldRedraw::All
            } else {
                ShouldRedraw::Shape
            },
            final(self).points().len() == 0,
            !final(self).dragging(),
            final(self).transform() == old(self).transform(),
            final(self).tool() == old(self).tool(),
            final(self).style() == old(self).style(),
            final(self).cfg() == old(self).cfg(),
            final(self).bg() == old(self).bg(),
            final(self).shift() == old(self).shift(),
            final(self).panning() == old(self).panning(),
    {
        self.points.clear();
        self.dragging = false;
        match build_shape(tool, pts, self.style, &self.config) {
            Some(shape) => {
                self.doc.commit(shape);
                ShouldRedraw::All
            },
            None => ShouldRedraw::Shape,
        }
    }

    /// A button went down at screen position `pos`. The left button starts a
    /// drag gesture at the world point under it (click tools wait for the
    /// release), or erases there; the middle button starts panning.
    pub fn handle_mouse_button_pressed_flags(
        &mut self,
        button: MouseButton,
        pos: ScreenPoint,
        hint: Option<SelectedTool>,
    ) -> (r: ShouldRedraw)
        requires
            old(self).wf(),
        ensures
            final(self).wf(),
            final(self).transform() == old(self).transform(),
            final(self).tool() == old(self).tool(),
            final(self).style() == old(self).style(),
            final(self).cfg() == old(self).cfg(),
            final(self).bg() == old(self).bg(),
            ({
                let w = old(self).transform().world_x(pos);
                let v = old(self).transform().world_y(pos);
                let p = WorldPoint { x: w as i64, y: v as i64 };
                let inside = crate::units::in_world(w) && crate::units::in_world(v);
                match button {
                    MouseButton::Middle => final(self).panning() == Some(pos)
                        && final(self).doc() == old(self).doc()
                        && final(self).points() == old(self).points() && r == ShouldRedraw::Nothing,
                    MouseButton::Left => if !inside {
                        final(self).doc() == old(self).doc() && final(self).points() == old(
                            self,
                        ).points() && r == ShouldRedraw::Nothing
                    } else {
                        match acting_tool(old(self).tool(), hint) {
                            SelectedTool::Eraser => final(self).dragging() && erased_at(
                                old(self).doc(),
                                final(self).doc(),
                                p,
                                old(self).cfg().eraser_radius as int,
                            ) && final(self).points() == old(self).points() && r == erase_hint(
                                old(self).doc(),
                                final(self).doc(),
                            ),
                            SelectedTool::Shape(t) => if is_click_tool(t) {
                                final(self).doc() == old(self).doc() && final(self).points()
                                    == old(self).points() && r == ShouldRedraw::Nothing
                            } else {
                                final(self).doc() == old(self).doc() && final(self).points()
                                    == seq![p] && final(self).dragging() && r == ShouldRedraw::Shape
                            },
                        }
                    },
                    _ => final(self).doc() == old(self).doc() && final(self).points() == old(
                        self,
                    ).points() && r == ShouldRedraw::Nothing,
                }
            }),
    {
        match button {
            MouseButton::Middle => {
                self.panning = Some(pos);
                ShouldRedraw::Nothing
            },
            MouseButton::Left => {
                let w = match self.transform.to_world(pos) {
                    Some(w) => w,
                    None => return ShouldRedraw::Nothing,
                };
                match acting(self.tool, hint) {
                    SelectedTool::Eraser => {
                        self.dragging = true;
                        match self.doc.erase_at(w, self.config.eraser_radius) {
                            Some(_) => ShouldRedraw::All,
                            None => ShouldRedraw::Shape,
                        }
                    },
                    SelectedTool::Shape(t) => {
                        if matches!(t, ShapeTool::Polygon | ShapeTool::CircleThroughThreePoints | ShapeTool::ThreePointEllipse) {
                            ShouldRedraw::Nothing
                        } else {
                            self.points.clear();
                            self.points.push(w);
                            self.dragging = true;
                            assert(self.points@ =~= seq![w]);
                            ShouldRedraw::Shape
                        }
                    },
                }
            },
            _ => ShouldRedraw::Nothing,
        }
    }

    /// The pointer moved to screen position `pos`. While panning the picture
    /// follows it; while erasing the eraser erases there; a freehand stroke
    /// takes the point (with Shift only its two ends stay). The document is
    /// changed by the eraser alone.
    pub fn handle_mouse_move_flags(
        &mut self,
        pos: ScreenPoint,
        flags: Flags,
        hint: Option<SelectedTool>,
    ) -> (r: ShouldRedraw)
        requires
            old(self).wf(),
        ensures
            final(self).wf(),
            final(self).tool() == old(self).tool(),
            final(self).style() == old(self).style(),
            final(self).cfg() == old(self).cfg(),
            final(self).bg() == old(self).bg(),
            ({
                let t = old(self).transform();
                let w = t.world_x(pos);
                let v = t.world_y(pos);
                let p = WorldPoint { x: w as i64, y: v as i64 };
                let inside = crate::units::in_world(w) && crate::units::in_world(v);
                match old(self).panning() {
                    Some(p0) => {
                        &&& final(self).transform().level == t.level
                        &&& final(self).transform().tx == clamp_translate(t.tx + pos.x - p0.x)
                        &&& final(self).transform().ty == clamp_translate(t.ty + pos.y - p0.y)
                        &&& final(self).panning() == Some(pos)
                        &&& final(self).doc() == old(self).doc()
                        &&& final(self).points() == old(self).points()
                        &&& r == ShouldRedraw::All
                    },
                    None => {
                        &&& final(self).transform() == t
                        &&& final(self).cursor() == Some(pos)
                        &&& if !old(self).dragging() {
                            final(self).doc() == old(self).doc() && final(self).points() == old(
                                self,
                            ).points() && r == if old(self).points().len() > 0 {
                                ShouldRedraw::Shape
                            } else {
                                ShouldRedraw::Nothing
                            }
                        } else if !inside {
                            final(self).doc() == old(self).doc() && final(self).points() == old(
                                self,
                            ).points() && r == ShouldRedraw::Nothing
                        } else {
                            match acting_tool(old(self).tool(), hint) {
                                SelectedTool::Eraser => erased_at(
                                    old(self).doc(),
                                    final(self).doc(),
                                    p,
                                    old(self).cfg().eraser_radius as int,
                                ) && final(self).points() == old(self).points() && r == erase_hint(
                                    old(self).doc(),
                                    final(self).doc(),
                                ),
                                SelectedTool::Shape(ShapeTool::Path) => final(self).doc() == old(
                                    self,
                                ).doc() && final(self).points() == if old(self).points().len()
                                    == 0 {
                                    old(self).points()
                                } else {
                                    drag_points(
                                        ShapeTool::Path,
                                        old(self).points(),
                                        p,
                                        flags.shift || old(self).shift(),
                                    )
                                } && r == ShouldRedraw::Shape,
                                _ => final(self).doc() == old(self).doc() && final(self).points()
                                    == old(self).points() && r == ShouldRedraw::Shape,
                            }
                        }
                    },
                }
            }),
    {
        self.cursor = Some(pos);
        if let Some(p0) = self.panning {
            self.transform.pan_by(pos.x as i128 - p0.x as i128, pos.y as i128 - p0.y as i128);
            self.panning = Some(pos);
            return ShouldRedraw::All;
        }
        if !self.dragging {
            return if self.points.len() > 0 {
                ShouldRedraw::Shape
            } else {
                ShouldRedraw::Nothing
            };
        }
        let w = match self.transform.to_world(pos) {
            Some(w) => w,
            None => return ShouldRedraw::Nothing,
        };
        match acting(self.tool, hint) {
            SelectedTool::Eraser => match self.doc.erase_at(w, self.config.eraser_radius) {
                Some(_) => ShouldRedraw::All,
                None => ShouldRedraw::Shape,
            },
            SelectedTool::Shape(ShapeTool::Path) => {
                if self.points.len() > 0 {
                    if flags.shift || self.shift {
                        let first = self.points[0];
                        self.points.clear();
                        self.points.push(first);
                        self.points.push(w);
                        assert(self.points@ =~= seq![first, w]);
                    } else {
                        self.points.push(w);
                    }
                }
                ShouldRedraw::Shape
            },
            _ => ShouldRedraw::Shape,
        }
    }

    /// A button came up at screen position `pos`. The left button ends a drag
    /// gesture there, or adds a click tool's point (the third point of a
    /// three-point tool ends it); the right button ends a polygon; the middle
    /// button stops panning. An ended gesture commits its shape where it makes
    /// one.
    pub fn handle_mouse_button_released_flags(
        &mut self,
        button: MouseButton,
        pos: ScreenPoint,
        flags: Flags,
        hint: Option<SelectedTool>,
    ) -> (r: ShouldRedraw)
        requires
            old(self).wf(),
        ensures
            final(self).wf(),
            final(self).transform() == old(self).transform(),
            final(self).tool() == old(self).tool(),
            final(self).style() == old(self).style(),
            final(self).cfg() == old(self).cfg(),
            final(self).bg() == old(self).bg(),
            ({
                let t = old(self).transform();
                let w = t.world_x(pos);
                let v = t.world_y(pos);
                let p = WorldPoint { x: w as i64, y: v as i64 };
                let inside = crate::units::in_world(w) && crate::units::in_world(v);
                let pts = old(self).points();
                let doc = old(self).doc();
                let style = old(self).style();
                let cfg = old(self).cfg();
                match button {
                    MouseButton::Middle => final(self).panning() is None && final(self).doc()
                        == doc && final(self).points() == pts && r == ShouldRedraw::Nothing,
                    MouseButton::Left => !final(self).dragging() && match acting_tool(
                        old(self).tool(),
                        hint,
                    ) {
                        SelectedTool::Eraser => final(self).doc() == doc && final(self).points()
                            == pts && r == ShouldRedraw::Nothing,
                        SelectedTool::Shape(tool) => if !inside {
                            final(self).doc() == doc && final(self).points().len() == 0 && r
                                == ShouldRedraw::Shape
                        } else if is_click_tool(tool) {
                            let all = pts.push(p);
                            if !(tool is Polygon) && all.len() == 3 {
                                final(self).doc() == finished(doc, tool, all, style, cfg)
                                    && final(self).points().len() == 0 && r == finish_hint(
                                    tool,
                                    all,
                                    style,
                                    cfg,
                                )
                            } else {
                                final(self).doc() == doc && final(self).points() == all && r
                                    == ShouldRedraw::Shape
                            }
                        } else if old(self).dragging() && pts.len() > 0 {
                            final(self).doc() == finished(
                                doc,
                                tool,
                                drag_points(tool, pts, p, flags.shift || old(self).shift()),
                                style,
                                cfg,
                            ) && final(self).points().len() == 0 && r == finish_hint(
                                tool,
                                drag_points(tool, pts, p, flags.shift || old(self).shift()),
                                style,
                                cfg,
                            )
                        } else {
                            final(self).doc() == doc && final(self).points().len() == 0 && r
                                == ShouldRedraw::Nothing
                        },
                    },
                    MouseButton::Right => if old(self).tool() == SelectedTool::Shape(
                        ShapeTool::Polygon,
                    ) {
                        final(self).doc() == finished(doc, ShapeTool::Polygon, pts, style, cfg)
                            && final(self).points().len() == 0 && r == finish_hint(
                            ShapeTool::Polygon,
                            pts,
                            style,
                            cfg,
                        )
                    } else {
                        final(self).doc() == doc && final(self).points() == pts && r
                            == ShouldRedraw::Nothing
                    },
                    MouseButton::Unknown => final(self).doc() == doc && final(self).points() == pts
                        && r == ShouldRedraw::Nothing,
                }
            }),
    {
        match button {
            MouseButton::Middle => {
                self.panning = None;
                ShouldRedraw::Nothing
            },
            MouseButton::Left => {
                let was_dragging = self.dragging;
                self.dragging = false;
                let tool = match acting(self.tool, hint) {
                    SelectedTool::Eraser => return ShouldRedraw::Nothing,
                    SelectedTool::Shape(tool) => tool,
                };
                let w = match self.transform.to_world(pos) {
                    Some(w) => w,
                    None => {
                        self.points.clear();
                        return ShouldRedraw::Shape;
                    },
                };
                if matches!(tool, ShapeTool::Polygon | ShapeTool::CircleThroughThreePoints | ShapeTool::ThreePointEllipse) {
                    self.points.push(w);
                    if !matches!(tool, ShapeTool::Polygon) && self.points.len() == 3 {
                        let pts = self.points.clone();
                        assert(pts@ == self.points@);
                        self.finish(tool, &pts)
                    } else {
                        ShouldRedraw::Shape
                    }
                } else if was_dragging && self.points.len() > 0 {
                    let mut pts: Vec<WorldPoint>;
                    if matches!(tool, ShapeTool::Path) && !(flags.shift || self.shift) {
                        pts = self.points.clone();
                        pts.push(w);
                    } else {
                        pts = Vec::new();
                        pts.push(self.points[0]);
                        pts.push(w);
                    }
                    assert(pts@ =~= drag_points(tool, self.points@, w, flags.shift || self.shift));
                    self.finish(tool, &pts)
                } else {
                    self.points.clear();
                    ShouldRedraw::Nothing
                }
            },
            MouseButton::Right => {
                if self.tool == SelectedTool::Shape(ShapeTool::Polygon) {
                    let pts = self.points.clone();
                    assert(pts@ == self.points@);
                    self.finish(ShapeTool::Polygon, &pts)
                } else {
                    ShouldRedraw::Nothing
                }
            },
            MouseButton::Unknown => ShouldRedraw::Nothing,
        }
    }

    /// Ends a click-tool gesture now (a polygon is closed); other gestures
    /// and an idle tool are left as they are.
    pub fn finish_gesture(&mut self) -> (r: ShouldRedraw)
        requires
            old(self).wf(),
        ensures
            final(self).wf(),
            final(self).transform() == old(self).transform(),
            final(self).tool() == old(self).tool(),
            match old(self).tool() {
                SelectedTool::Shape(t) => if is_click_tool(t) {
                    final(self).doc() == finished(
                        old(self).doc(),
                        t,
                        old(self).points(),
                        old(self).style(),
                        old(self).cfg(),
                    ) && final(self).points().len() == 0 && r == finish_hint(
                        t,
                        old(self).points(),
                        old(self).style(),
                        old(self).cfg(),
                    )
                } else {
                    final(self).doc() == old(self).doc() && final(self).points() == old(
                        self,
                    ).points() && r == ShouldRedraw::Nothing
                },
                SelectedTool::Eraser => final(self).doc() == old(self).doc() && r
                    == ShouldRedraw::Nothing,
            },
    {
        match self.tool {
            SelectedTool::Shape(t) => {
                if matches!(t, ShapeTool::Polygon | ShapeTool::CircleThroughThreePoints | ShapeTool::ThreePointEllipse) {
                    let pts = self.points.clone();
                    assert(pts@ == self.points@);
                    self.finish(t, &pts)
                } else {
                    ShouldRedraw::Nothing
                }
            },
            SelectedTool::Eraser => ShouldRedraw::Nothing,
        }
    }

    /// Shift down: freehand strokes become straight lines.
    pub fn handle_key_pressed(&mut self, key: Key) -> (r: ShouldRedraw)
        requires
            old(self).wf(),
        ensures
            final(self).wf(),
            final(self).doc() == old(self).doc(),
            final(self).points() == old(self).points(),
            final(self).transform() == old(self).transform(),
            final(self).tool() == old(self).tool(),
            final(self).shift() == (key == Key::Shift || old(self).shift()),
            r == ShouldRedraw::Nothing,
    {
        if key == Key::Shift {
            self.shift = true;
        }
        ShouldRedraw::Nothing
    }

    /// Shift up ends its effect; Escape drops the gesture in progress and
    /// leaves the document as it is.
    pub fn handle_key_released(&mut self, key: Key) -> (r: ShouldRedraw)
        requires
            old(self).wf(),
        ensures
            final(self).wf(),
            final(self).doc() == old(self).doc(),
            final(self).transform() == old(self).transform(),
            final(self).tool() == old(self).tool(),
            match key {
                Key::Shift => !final(self).shift() && final(self).points() == old(self).points()
                    && r == ShouldRedraw::Nothing,
                Key::Escape => final(self).points().len() == 0 && !final(self).dragging() && r
                    == ShouldRedraw::Shape,
                Key::Unknown => final(self).points() == old(self).points() && r
                    == ShouldRedraw::Nothing,
            },
    {
        match key {
            Key::Shift => {
                self.shift = false;
                ShouldRedraw::Nothing
            },
            Key::Escape => {
                self.points.clear();
                self.dragging = false;
                ShouldRedraw::Shape
            },
            Key::Unknown => ShouldRedraw::Nothing,
        }
    }
}

impl Pizarra {
    // ------------------------------------------------------------------
    // Files

    /// The drawing as an SVG file, in UTF-8 bytes.
    pub fn to_svg(&self) -> (r: Vec<u8>)
        ensures
            r@ == svg_bytes(self.bg(), self.doc().shapes),
    {
        write_svg(self.doc.background(), self.doc.shapes())
    }

    /// Replaces the drawing with the one in `svg`, read from `path`. It
    /// succeeds exactly on a file that `to_svg` can write, and then the
    /// drawing is the one written, saved at `path`, with no history; on
    /// failure nothing changes.
    pub fn open(&mut self, svg: &[u8], path: String) -> (r: Result<(), ParseError>)
        requires
            old(self).wf(),
        ensures
            final(self).wf(),
            r is Err ==> *final(self) == *old(self),
            r is Ok <==> exists|c: Color, sv: Seq<ShapeView>| all_wf(sv) && svg@ == #[trigger] svg_bytes(c, sv),
            r is Ok ==> {
                &&& svg@ == svg_bytes(final(self).bg(), final(self).doc().shapes)
                &&& final(self).doc().status == SaveStatus::Saved(path)
                &&& final(self).doc().undo.len() == 0
                &&& final(self).doc().redo.len() == 0
                &&& final(self).points().len() == 0
                &&& final(self).transform() == old(self).transform()
            },
            forall|c: Color, sv: Seq<ShapeView>|
                all_wf(sv) && svg@ == #[trigger] svg_bytes(c, sv) ==> final(self).doc().shapes == sv
                    && final(self).bg() == c,
    {
        match read_svg(svg) {
            Ok((bg, shapes)) => {
                let doc = Document::loaded(shapes, bg, path);
                self.replace_document(doc);
                Ok(())
            },
            Err(e) => Err(e),
        }
    }

    // ------------------------------------------------------------------
    // Painting

    /// One world-space command per committed shape, in paint order.
    pub fn draw_commands_for_drawing(&self) -> (r: Vec<DrawCommand>)
        ensures
            r@.len() == self.doc().shapes.len(),
            forall|i: int| 0 <= i < r@.len() ==> draws(self.doc().shapes[i], #[trigger] r@[i]),
    {
        let shapes = self.doc.shapes();
        let mut r: Vec<DrawCommand> = Vec::new();
        let mut i: usize = 0;
        while i < shapes.len()
            invariant
                i <= shapes@.len(),
                shape_views(shapes@) == self.doc().shapes,
                r@.len() == i,
                forall|j: int| 0 <= j < i ==> draws(self.doc().shapes[j], #[trigger] r@[j]),
            decreases shapes@.len() - i,
        {
            let d = shapes[i].to_draw_command();
            r.push(d);
            i = i + 1;
        }
        r
    }

    /// The points that the gesture in progress would end with if the
    /// pointer were released at `w`.
    pub open spec fn preview_points(&self, t: ShapeTool, w: WorldPoint) -> Seq<WorldPoint> {
        if is_click_tool(t) {
            self.points().push(w)
        } else {
            crate::controller::drag_points(t, self.points(), w, self.shift())
        }
    }

    /// The shape that the gesture in progress would commit with the pointer
    /// released where it is now.
    pub open spec fn preview(&self) -> Option<ShapeView> {
        match (self.tool(), self.cursor()) {
            (SelectedTool::Shape(t), Some(c)) => {
                let x = self.transform().world_x(c);
                let y = self.transform().world_y(c);
                if self.points().len() > 0 && in_world(x) && in_world(y) {
                    gesture_shape(t, self.preview_points(t, WorldPoint { x: x as i64, y: y as i64 }), self.style(), self.cfg())
                } else {
                    None
                }
            },
            _ => None,
        }
    }

    /// The shape being drawn, as it would be committed with the pointer where
    /// it is; `None` where no gesture is in progress or it makes no shape yet.
    pub fn draw_commands_for_current_shape(&self) -> (r: Option<Vec<DrawCommand>>)
        requires
            self.wf(),
        ensures
            r matches Some(v) ==> (v@.len() == 1 && self.preview() is Some && draws(self.preview()->0, v@[0])),
            r is None ==> self.preview() is None,
    {
        let t = match self.tool {
            SelectedTool::Shape(t) => t,
            SelectedTool::Eraser => return None,
        };
        if self.points.len() == 0 {
            return None;
        }
        let c = match self.cursor {
            Some(c) => c,
            None => return None,
        };
        let w = match self.transform.to_world(c) {
            Some(w) => w,
            None => return None,
        };
        let mut pts: Vec<WorldPoint>;
        if matches!(t, ShapeTool::Polygon | ShapeTool::CircleThroughThreePoints | ShapeTool::ThreePointEllipse) {
            pts = self.points.clone();
            pts.push(w);
        } else if matches!(t, ShapeTool::Path) && !self.shift {
            pts = self.points.clone();
            pts.push(w);
        } else {
            pts = Vec::new();
            pts.push(self.points[0]);
            pts.push(w);
        }
        assert(pts@ =~= self.preview_points(t, w));
        match build_shape(t, &pts, self.style, &self.config) {
            Some(s) => {
                let d = s.to_draw_command();
                let v = vec![d];
                assert(v@[0] == d);
                Some(v)
            },
            None => None,
        }
    }

    /// Marks of the tool itself, in screen space: the eraser's circle under
    /// the pointer, at the eraser's on-screen size.
    pub fn draw_commands_for_tool(&self) -> (r: Vec<DrawCommand>)
        requires
            self.wf(),
        ensures
            (self.tool() is Eraser && self.cursor() is Some) ==> r@.len() == 1 && r@[0] == (
            DrawCommand::ScreenCircle {
                center: self.cursor()->0,
                radius: screen_coord(self.transform().level as int, self.cfg().eraser_radius as int, 0) as i64,
                style: Style {
                    stroke: Some(Stroke { color: Color { r: 128, g: 128, b: 128, a: 255 }, size: 1 }),
                    fill: None,
                },
            }),
            !(self.tool() is Eraser && self.cursor() is Some) ==> r@.len() == 0,
    {
        let mut r: Vec<DrawCommand> = Vec::new();
        if let (SelectedTool::Eraser, Some(c)) = (self.tool, self.cursor) {
            let radius = self.transform.to_screen_len(self.config.eraser_radius);
            r.push(DrawCommand::ScreenCircle {
                center: c,
                radius,
                style: Style {
                    stroke: Some(Stroke { color: Color { r: 128, g: 128, b: 128, a: 255 }, size: 1 }),
                    fill: None,
                },
            });
        }
        r
    }

    /// The least box holding every shape (control points and ellipse boxes
    /// included): its top-left and bottom-right corners; `None` for an empty
    /// drawing.
    pub fn get_bounds(&self) -> (r: Option<(WorldPoint, WorldPoint)>)
        requires
            self.wf(),
        ensures
            r is None <==> self.doc().shapes.len() == 0,
            r matches Some((lo, hi)) ==> shapes_extent(self.doc().shapes) == (
                lo.x as int,
                lo.y as int,
                hi.x as int,
                hi.y as int,
            ),
    {
        let shapes = self.doc.shapes();
        if shapes.len() == 0 {
            return None;
        }
        let ghost sv = self.doc().shapes;
        proof {
            assert(shape_views(shapes@)[0] == shapes@[0]@);
        }
        let mut r = shape_extent_exec(&shapes[0]);
        let mut i: usize = 1;
        assert(sv.take(1).drop_last() =~= Seq::<ShapeView>::empty());
        while i < shapes.len()
            invariant
                1 <= i <= shapes@.len(),
                sv == shape_views(shapes@),
                all_wf(sv),
                as_extent(r) == shapes_extent(sv.take(i as int)),
            decreases shapes@.len() - i,
        {
            proof {
                assert(sv[i as int] == shapes@[i as int]@);
                assert(sv[i as int].wf());
            }
            let e = shape_extent_exec(&shapes[i]);
            r = join_exec(r, e);
            proof {
                let t = sv.take(i + 1);
                assert(t.drop_last() =~= sv.take(i as int));
                assert(t.last() == sv[i as int]);
            }
            i = i + 1;
        }
        assert(sv.take(sv.len() as int) =~= sv);
        Some((WorldPoint { x: r.0, y: r.1 }, WorldPoint { x: r.2, y: r.3 }))
    }

    /// The image size in pixels and the transform for exporting the whole
    /// drawing at one pixel per world unit, with the configured padding on
    /// every side; `None` for an empty drawing.
    pub fn export_frame(&self) -> (r: Option<(i64, i64, Transform)>)
        requires
            self.wf(),
        ensures
            r is None <==> self.doc().shapes.len() == 0,
            r matches Some((w, h, t)) ==> {
                let e = shapes_extent(self.doc().shapes);
                let p = self.cfg().export_padding as int;
                &&& w == e.2 - e.0 + 2 * p
                &&& h == e.3 - e.1 + 2 * p
                &&& t == (Transform {
                    level: 0,
                    tx: ((p - e.0) * SUBPIXEL) as i64,
                    ty: ((p - e.1) * SUBPIXEL) as i64,
                })
                &&& t.wf()
            },
    {
        match self.get_bounds() {
            None => None,
            Some((lo, hi)) => {
                proof {
                    lemma_extent_bounds(self.doc().shapes);
                }
                let p = self.config.export_padding;
                let t = Transform::new_translate((p - lo.x) * SUBPIXEL, (p - lo.y) * SUBPIXEL);
                Some((hi.x - lo.x + 2 * p, hi.y - lo.y + 2 * p, t))
            },
        }
    }
}

proof fn lemma_extent_bounds(sv: Seq<ShapeView>)
    requires
        sv.len() >= 1,
        all_wf(sv),
    ensures
        ({
            let e = shapes_extent(sv);
            -400_000_000 <= e.0 <= e.2 <= 400_000_000 && -400_000_000 <= e.1 <= e.3 <= 400_000_000
        }),
    decreases sv.len(),
{
    lemma_shape_extent_bounds(sv.last());
    if sv.len() > 1 {
        lemma_extent_bounds(sv.drop_last());
        assert(all_wf(sv.drop_last())) by {
            assert forall|i: int| 0 <= i < sv.drop_last().len() implies (#[trigger] sv.drop_last()[i]).wf() by {
                assert(sv.drop_last()[i] == sv[i]);
            }
        }
    } else {
        assert(sv.last() == sv[0]);
    }
    assert(sv[sv.len() - 1].wf());
}

proof fn lemma_shape_extent_bounds(s: ShapeView)
    requires
        s.wf(),
    ensures
        ({
            let e = crate::shape::shape_extent(s);
            -400_000_000 <= e.0 <= e.2 <= 400_000_000 && -400_000_000 <= e.1 <= e.3 <= 400_000_000
        }),
{
    if let ShapeView::Path { commands, .. } = s {
        lemma_path_extent_bounds(commands);
    }
}

proof fn lemma_path_extent_bounds(cs: Seq<PathCommand>)
    requires
        cs.len() >= 1,
        forall|i: int| 0 <= i < cs.len() ==> (#[trigger] cs[i]).in_range(),
    ensures
        ({
            let e = crate::shape::path_extent(cs);
            -100_000_000 <= e.0 <= e.2 <= 100_000_000 && -100_000_000 <= e.1 <= e.3 <= 100_000_000
        }),
    decreases cs.len(),
{
    assert(cs[cs.len() - 1].in_range());
    if cs.len() > 1 {
        lemma_path_extent_bounds(cs.drop_last());
    } else {
        assert(cs[0].in_range());
    }
}

/// Three collinear points make no circle: the gesture is dropped and the
/// document stays exactly as it was.
pub proof fn lemma_collinear_circle_dropped(
    doc: DocumentView,
    a: WorldPoint,
    b: WorldPoint,
    c: WorldPoint,
    style: Style,
    cfg: Config,
)
    requires
        crate::geom::circum_den(a, b, c) == 0,
    ensures
        gesture_shape(ShapeTool::CircleThroughThreePoints, seq![a, b, c], style, cfg) is None,
        finished(doc, ShapeTool::CircleThroughThreePoints, seq![a, b, c], style, cfg) == doc,
{
}

} // verus!
