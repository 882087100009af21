use pizarra_core::codec::{read_svg, write_svg, ParseError};
use pizarra_core::controller::Pizarra;
use pizarra_core::document::{Document, SaveStatus};
use pizarra_core::files::{ensure_extension, file_name, parent};
use pizarra_core::geom::{
    circle_through_three_points, ellipse_by_foci_and_point, grid_path, isqrt, rectangle_path,
};
use pizarra_core::shape::{DrawCommand, Ellipse, PathCommand, Shape};
use pizarra_core::style::{Color, Stroke, Style};
use pizarra_core::tools::{Config, Flags, Key, MouseButton, SelectedTool, ShapeTool, ShouldRedraw};
use pizarra_core::transform::Transform;
use pizarra_core::units::{ScreenPoint, WorldPoint, SUBPIXEL};

fn wp(x: i64, y: i64) -> WorldPoint {
    WorldPoint::new(x, y)
}

/// A screen point given in pixels.
fn sp(x: i64, y: i64) -> ScreenPoint {
    ScreenPoint::from_pixels(x, y)
}

/// A transform with an offset given in pixels.
fn tr(level: i64, tx: i64, ty: i64) -> Transform {
    Transform { level, tx: tx * SUBPIXEL, ty: ty * SUBPIXEL }
}

fn no_flags() -> Flags {
    Flags { alt: false, ctrl: false, shift: false }
}

fn board() -> Pizarra {
    Pizarra::new(sp(800, 600), Config::default())
}

fn black(size: i64) -> Style {
    Style::stroked(Color::black(), size)
}

fn drag(p: &mut Pizarra, from: (i64, i64), to: (i64, i64)) -> ShouldRedraw {
    p.handle_mouse_button_pressed_flags(MouseButton::Left, sp(from.0, from.1), None);
    p.handle_mouse_move_flags(sp(to.0, to.1), no_flags(), None);
    p.handle_mouse_button_released_flags(MouseButton::Left, sp(to.0, to.1), no_flags(), None)
}

fn click(p: &mut Pizarra, at: (i64, i64)) -> ShouldRedraw {
    p.handle_mouse_button_pressed_flags(MouseButton::Left, sp(at.0, at.1), None);
    p.handle_mouse_button_released_flags(MouseButton::Left, sp(at.0, at.1), no_flags(), None)
}

fn line_shape(a: (i64, i64), b: (i64, i64)) -> Shape {
    Shape::Path {
        commands: vec![PathCommand::MoveTo(wp(a.0, a.1)), PathCommand::LineTo(wp(b.0, b.1))],
        style: black(2),
    }
}

fn rectangle_commands(a: (i64, i64), b: (i64, i64)) -> Vec<PathCommand> {
    vec![
        PathCommand::MoveTo(wp(a.0, a.1)),
        PathCommand::LineTo(wp(b.0, a.1)),
        PathCommand::LineTo(wp(b.0, b.1)),
        PathCommand::LineTo(wp(a.0, b.1)),
        PathCommand::LineTo(wp(a.0, a.1)),
    ]
}

#[test]
fn rectangle_saved_and_reopened() {
    let mut p = board();
    p.set_tool(SelectedTool::Shape(ShapeTool::Rectangle));
    p.set_color(Color::black());
    p.set_stroke(2);
    assert_eq!(drag(&mut p, (10, 10), (50, 30)), ShouldRedraw::All);
    let svg = p.to_svg();

    let mut q = board();
    assert_eq!(q.open(&svg, "drawing.svg".to_string()), Ok(()));
    assert_eq!(q.shapes().len(), 1);
    assert_eq!(
        q.shapes()[0],
        Shape::Path {
            commands: rectangle_commands((10, 10), (50, 30)),
            style: Style {
                stroke: Some(Stroke { color: Color::from_rgb(0, 0, 0), size: 2 }),
                fill: None,
            },
        }
    );
    assert_eq!(q.get_save_status(), &SaveStatus::Saved("drawing.svg".to_string()));
}

#[test]
fn undo_undo_redo_keeps_first_two() {
    let mut p = board();
    drag(&mut p, (0, 0), (10, 0));
    drag(&mut p, (0, 10), (10, 10));
    drag(&mut p, (0, 20), (10, 20));
    assert_eq!(p.shapes().len(), 3);
    p.undo();
    p.undo();
    p.redo();
    assert_eq!(p.shapes().len(), 2);
    assert_eq!(p.shapes()[0], Shape::Path {
        commands: vec![
            PathCommand::MoveTo(wp(0, 0)),
            PathCommand::LineTo(wp(10, 0)),
            PathCommand::LineTo(wp(10, 0)),
        ],
        style: black(3),
    });
    assert_eq!(p.shapes()[1], Shape::Path {
        commands: vec![
            PathCommand::MoveTo(wp(0, 10)),
            PathCommand::LineTo(wp(10, 10)),
            PathCommand::LineTo(wp(10, 10)),
        ],
        style: black(3),
    });
}

#[test]
fn go_home_after_zoom_and_pan_is_identity() {
    let mut p = board();
    let start = p.get_transform();
    assert_eq!(start, Transform::identity());
    for _ in 0..4 {
        p.zoom_in();
    }
    assert_eq!(p.get_transform().level, 4);
    p.pan(sp(100, 50));
    assert_ne!(p.get_transform(), start);
    p.go_home();
    assert_eq!(p.get_transform(), start);
}

#[test]
fn eraser_click_inside_circle_then_undo() {
    let mut d = Document::new(Color::white());
    let circle = Shape::Ellipse {
        ellipse: Ellipse { center: wp(0, 0), semimajor: 20, semiminor: 20 },
        style: black(1),
    };
    d.commit(circle.clone());
    assert_eq!(d.erase_at(wp(5, 5), 3), Some(0));
    assert_eq!(d.len(), 0);
    assert!(d.undo());
    assert_eq!(d.shapes(), &vec![circle]);
}

#[test]
fn eraser_near_outline_and_outside_circle() {
    let mut d = Document::new(Color::white());
    d.commit(Shape::Ellipse {
        ellipse: Ellipse { center: wp(0, 0), semimajor: 20, semiminor: 20 },
        style: black(1),
    });
    assert_eq!(d.erase_at(wp(24, 0), 3), None);
    assert_eq!(d.erase_at(wp(0, -30), 9), None);
    assert_eq!(d.len(), 1);
    assert_eq!(d.erase_at(wp(23, 0), 3), Some(0));
}

#[test]
fn eraser_tests_curves_on_the_curve() {
    let mut d = Document::new(Color::white());
    let curves = ellipse_by_foci_and_point(wp(-30, 0), wp(30, 0), wp(0, 40)).unwrap();
    d.commit(Shape::Path { commands: curves, style: black(1) });
    // Near the control polygon of the first quarter, about four units off the curve.
    assert_eq!(d.erase_at(wp(39, 31), 1), None);
    assert_eq!(d.len(), 1);
    assert_eq!(d.erase_at(wp(35, 28), 2), Some(0));
}

#[test]
fn truncated_file_is_refused_and_drawing_kept() {
    let mut p = board();
    drag(&mut p, (0, 0), (10, 10));
    let before = p.shapes().clone();
    let svg = p.to_svg();
    let cut = &svg[..svg.len() - 5];
    assert_eq!(p.open(cut, "x.svg".to_string()), Err(ParseError::Malformed));
    assert_eq!(p.open(b"<svg><g></g></svg>", "x.svg".to_string()), Err(ParseError::Malformed));
    assert_eq!(p.shapes(), &before);
    assert_eq!(p.get_save_status(), &SaveStatus::NewAndChanged);
}

#[test]
fn world_screen_round_trip() {
    let p = wp(1234, -987);
    let mut t = Transform::identity();
    for _ in 0..16 {
        t.zoom_in(sp(400, 300), 16);
        assert_eq!(t.to_world(t.to_screen(p)), Some(p));
    }
    let mut t = Transform::identity();
    for _ in 0..16 {
        t.zoom_out(sp(400, 300), -16);
        assert_eq!(t.to_world(t.to_screen(p)), Some(p));
        assert_eq!(t.to_world(t.to_screen(wp(1, 0))), Some(wp(1, 0)));
    }
    assert_eq!(t.level, -16);
    assert_eq!(tr(0, 10, 20).to_screen(wp(1, 2)), sp(11, 22));
}

#[test]
fn persistence_round_trip_of_every_kind() {
    let mut d = Document::new(Color::from_rgb(10, 20, 30).with_alpha(200));
    d.commit(Shape::Path { commands: rectangle_commands((-5, 7), (40, -3)), style: black(4) });
    d.commit(Shape::Ellipse {
        ellipse: Ellipse { center: wp(-100, 250), semimajor: 30, semiminor: 12 },
        style: Style { stroke: None, fill: Some(Color { r: 255, g: 0, b: 171, a: 16 }) },
    });
    let curves = ellipse_by_foci_and_point(wp(0, 0), wp(40, 30), wp(60, 60)).unwrap();
    d.commit(Shape::Path {
        commands: curves,
        style: Style {
            stroke: Some(Stroke { color: Color { r: 1, g: 2, b: 3, a: 4 }, size: 0 }),
            fill: Some(Color::white()),
        },
    });
    let svg = write_svg(d.background(), d.shapes());
    let (bg, shapes) = read_svg(&svg).unwrap();
    assert_eq!(bg, d.background());
    assert_eq!(&shapes, d.shapes());
}

#[test]
fn empty_drawing_round_trip() {
    let p = board();
    let svg = p.to_svg();
    let text = String::from_utf8(svg.clone()).unwrap();
    assert!(text.starts_with("<svg xmlns=\"http://www.w3.org/2000/svg\">\n<g>\n<rect"));
    assert!(text.ends_with("</g>\n</svg>\n"));
    let (bg, shapes) = read_svg(&svg).unwrap();
    assert_eq!(bg, Color::white());
    assert!(shapes.is_empty());
}

#[test]
fn svg_text_of_a_line() {
    let shapes = vec![line_shape((1, -2), (30, 4))];
    let svg = write_svg(Color::black(), &shapes);
    let text = String::from_utf8(svg).unwrap();
    assert_eq!(
        text,
        "<svg xmlns=\"http://www.w3.org/2000/svg\">\n<g>\n\
         <rect width=\"100%\" height=\"100%\" fill=\"#000000ff\"/>\n\
         <path d=\" M 1 -2 L 30 4\" stroke=\"#000000ff\" stroke-width=\"2\" fill=\"none\"/>\n\
         </g>\n</svg>\n"
    );
}

#[test]
fn foreign_svg_is_refused() {
    let text = "<svg xmlns=\"http://www.w3.org/2000/svg\">\n<g>\n\
         <rect width=\"100%\" height=\"100%\" fill=\"#000000ff\"/>\n\
         <circle cx=\"1\" cy=\"2\" r=\"3\"/>\n</g>\n</svg>\n";
    assert_eq!(read_svg(text.as_bytes()), Err(ParseError::Malformed));
    let bad_color = "<svg xmlns=\"http://www.w3.org/2000/svg\">\n<g>\n\
         <rect width=\"100%\" height=\"100%\" fill=\"#00000zff\"/>\n</g>\n</svg>\n";
    assert_eq!(read_svg(bad_color.as_bytes()), Err(ParseError::Malformed));
    let padded = "<svg xmlns=\"http://www.w3.org/2000/svg\">\n<g>\n\
         <rect width=\"100%\" height=\"100%\" fill=\"#000000ff\"/>\n\
         <path d=\" M 01 2 L 3 4\" stroke=\"none\" fill=\"none\"/>\n</g>\n</svg>\n";
    assert_eq!(read_svg(padded.as_bytes()), Err(ParseError::Malformed));
}

#[test]
fn commit_undo_redo_and_commit_clears_redo() {
    let mut d = Document::new(Color::white());
    let a = line_shape((0, 0), (1, 1));
    let b = line_shape((2, 2), (3, 3));
    d.commit(a.clone());
    d.commit(b.clone());
    assert!(d.undo());
    assert_eq!(d.shapes(), &vec![a.clone()]);
    assert!(d.can_redo());
    assert!(d.redo());
    assert_eq!(d.shapes(), &vec![a.clone(), b.clone()]);
    assert!(d.undo());
    d.commit(line_shape((5, 5), (6, 6)));
    assert!(!d.can_redo());
    assert!(!d.redo());
    assert_eq!(d.len(), 2);
}

#[test]
fn undo_of_erase_puts_shape_back_in_place() {
    let mut d = Document::new(Color::white());
    let a = line_shape((0, 0), (10, 0));
    let b = line_shape((0, 50), (10, 50));
    let c = line_shape((0, 100), (10, 100));
    d.commit(a.clone());
    d.commit(b.clone());
    d.commit(c.clone());
    d.erase(1);
    assert_eq!(d.shapes(), &vec![a.clone(), c.clone()]);
    d.undo();
    assert_eq!(d.shapes(), &vec![a, b, c]);
}

#[test]
fn empty_history_undo_and_redo_do_nothing() {
    let mut d = Document::new(Color::white());
    assert!(!d.undo());
    assert!(!d.redo());
    assert_eq!(d.save_status(), &SaveStatus::NewAndEmpty);
}

#[test]
fn save_status_transitions() {
    let mut d = Document::new(Color::white());
    d.commit(line_shape((0, 0), (1, 1)));
    assert_eq!(d.save_status(), &SaveStatus::NewAndChanged);
    d.set_saved("a.svg".to_string());
    assert_eq!(d.save_status(), &SaveStatus::Saved("a.svg".to_string()));
    d.undo();
    assert_eq!(d.save_status(), &SaveStatus::Unsaved("a.svg".to_string()));
    d.reset();
    assert_eq!(d.save_status(), &SaveStatus::NewAndEmpty);
    assert_eq!(d.len(), 0);
    assert!(!d.can_undo());
}

#[test]
fn zoom_in_then_out_restores_transform() {
    let mut p = board();
    p.pan(sp(37, -11));
    let before = p.get_transform();
    for _ in 0..3 {
        p.zoom_in();
    }
    assert_eq!(p.get_transform().level, 3);
    for _ in 0..3 {
        p.zoom_out();
    }
    assert_eq!(p.get_transform(), before);
}

#[test]
fn zoom_stops_at_configured_limit() {
    let mut p = board();
    for _ in 0..20 {
        p.zoom_in();
    }
    assert_eq!(p.get_transform().level, 8);
    p.go_home();
    for _ in 0..20 {
        p.zoom_out();
    }
    assert_eq!(p.get_transform().level, -8);
}

#[test]
fn zoom_keeps_pivot_fixed() {
    let mut t = Transform::identity();
    let pivot = sp(400, 300);
    let under = t.to_world(pivot).unwrap();
    t.zoom_in(pivot, 8);
    assert_eq!(t, tr(1, -400, -300));
    assert_eq!(t.to_screen(under), pivot);
}

#[test]
fn erase_removes_only_topmost_hit() {
    let mut d = Document::new(Color::white());
    let a = line_shape((0, 0), (100, 0));
    let b = line_shape((50, -50), (50, 50));
    d.commit(a.clone());
    d.commit(b.clone());
    assert_eq!(d.erase_at(wp(50, 1), 2), Some(1));
    assert_eq!(d.shapes(), &vec![a.clone()]);
    assert_eq!(d.erase_at(wp(500, 500), 10), None);
    assert_eq!(d.shapes(), &vec![a]);
}

#[test]
fn segment_distance_is_exact() {
    let mut d = Document::new(Color::white());
    d.commit(line_shape((0, 0), (10, 0)));
    assert_eq!(d.erase_at(wp(13, 4), 4), None);
    assert_eq!(d.erase_at(wp(13, 4), 5), Some(0));
}

#[test]
fn collinear_three_points_make_no_circle() {
    assert_eq!(circle_through_three_points(wp(0, 0), wp(5, 5), wp(10, 10)), None);
    let mut p = board();
    p.set_tool(SelectedTool::Shape(ShapeTool::CircleThroughThreePoints));
    click(&mut p, (0, 0));
    click(&mut p, (5, 5));
    assert_eq!(click(&mut p, (10, 10)), ShouldRedraw::Shape);
    assert_eq!(p.shapes().len(), 0);
    assert_eq!(p.get_save_status(), &SaveStatus::NewAndEmpty);
    assert_eq!(p.gesture_points().len(), 0);
}

#[test]
fn three_points_make_their_circle() {
    assert_eq!(
        circle_through_three_points(wp(10, 0), wp(0, 10), wp(-10, 0)),
        Some(Ellipse { center: wp(0, 0), semimajor: 10, semiminor: 10 })
    );
    let mut p = board();
    p.set_tool(SelectedTool::Shape(ShapeTool::CircleThroughThreePoints));
    click(&mut p, (110, 100));
    click(&mut p, (100, 110));
    assert_eq!(click(&mut p, (90, 100)), ShouldRedraw::All);
    assert_eq!(p.shapes()[0], Shape::Ellipse {
        ellipse: Ellipse { center: wp(100, 100), semimajor: 10, semiminor: 10 },
        style: black(3),
    });
}

#[test]
fn circle_by_center_and_point_radius() {
    let mut p = board();
    p.set_tool(SelectedTool::Shape(ShapeTool::CircleByCenterAndPoint));
    drag(&mut p, (100, 100), (103, 104));
    assert_eq!(p.shapes()[0], Shape::Ellipse {
        ellipse: Ellipse { center: wp(100, 100), semimajor: 5, semiminor: 5 },
        style: black(3),
    });
}

#[test]
fn polygon_closes_on_right_click_and_single_vertex_never_commits() {
    let mut p = board();
    p.set_tool(SelectedTool::Shape(ShapeTool::Polygon));
    click(&mut p, (0, 0));
    assert_eq!(
        p.handle_mouse_button_released_flags(MouseButton::Right, sp(0, 0), no_flags(), None),
        ShouldRedraw::Shape
    );
    assert_eq!(p.shapes().len(), 0);
    click(&mut p, (0, 0));
    click(&mut p, (10, 0));
    click(&mut p, (10, 10));
    assert_eq!(p.finish_gesture(), ShouldRedraw::All);
    assert_eq!(p.shapes()[0], Shape::Path {
        commands: vec![
            PathCommand::MoveTo(wp(0, 0)),
            PathCommand::LineTo(wp(10, 0)),
            PathCommand::LineTo(wp(10, 10)),
            PathCommand::LineTo(wp(0, 0)),
        ],
        style: black(3),
    });
}

#[test]
fn escape_cancels_gesture() {
    let mut p = board();
    p.handle_mouse_button_pressed_flags(MouseButton::Left, sp(0, 0), None);
    p.handle_mouse_move_flags(sp(5, 5), no_flags(), None);
    assert_eq!(p.handle_key_released(Key::Escape), ShouldRedraw::Shape);
    assert_eq!(
        p.handle_mouse_button_released_flags(MouseButton::Left, sp(9, 9), no_flags(), None),
        ShouldRedraw::Nothing
    );
    assert_eq!(p.shapes().len(), 0);
}

#[test]
fn freehand_with_one_point_is_dropped_and_shift_straightens() {
    let mut p = board();
    p.handle_mouse_button_pressed_flags(MouseButton::Left, sp(3, 3), None);
    p.set_tool(SelectedTool::Shape(ShapeTool::Path));
    assert_eq!(
        p.handle_mouse_button_released_flags(MouseButton::Left, sp(3, 3), no_flags(), None),
        ShouldRedraw::Nothing
    );
    assert_eq!(p.shapes().len(), 0);
    p.handle_key_pressed(Key::Shift);
    p.handle_mouse_button_pressed_flags(MouseButton::Left, sp(0, 0), None);
    p.handle_mouse_move_flags(sp(5, 9), no_flags(), None);
    p.handle_mouse_move_flags(sp(7, 1), no_flags(), None);
    p.handle_mouse_button_released_flags(MouseButton::Left, sp(20, 0), no_flags(), None);
    assert_eq!(p.shapes()[0], Shape::Path {
        commands: vec![PathCommand::MoveTo(wp(0, 0)), PathCommand::LineTo(wp(20, 0))],
        style: black(3),
    });
}

#[test]
fn style_changes_do_not_touch_committed_shapes() {
    let mut p = board();
    drag(&mut p, (0, 0), (10, 0));
    p.set_color(Color::from_rgb(255, 0, 0));
    p.set_alpha(100);
    p.set_stroke(9);
    p.set_fill(Some(Color::white()));
    if let Shape::Path { style, .. } = &p.shapes()[0] {
        assert_eq!(*style, black(3));
    } else {
        panic!("a freehand stroke is a path");
    }
    assert_eq!(p.selected_color(), Color { r: 255, g: 0, b: 0, a: 100 });
    drag(&mut p, (0, 5), (10, 5));
    if let Shape::Path { style, .. } = &p.shapes()[1] {
        assert_eq!(style.stroke, Some(Stroke { color: Color { r: 255, g: 0, b: 0, a: 100 }, size: 9 }));
        assert_eq!(style.fill, Some(Color::white()));
    }
}

#[test]
fn stylus_eraser_and_eraser_tool() {
    let mut p = board();
    drag(&mut p, (0, 0), (100, 0));
    assert_eq!(
        p.handle_mouse_button_pressed_flags(MouseButton::Left, sp(50, 2), Some(SelectedTool::Eraser)),
        ShouldRedraw::All
    );
    assert_eq!(p.shapes().len(), 0);
    p.undo();
    assert_eq!(p.shapes().len(), 1);
    p.set_tool(SelectedTool::Eraser);
    p.handle_mouse_move_flags(sp(300, 300), no_flags(), None);
    assert_eq!(p.draw_commands_for_tool().len(), 1);
    p.handle_mouse_button_pressed_flags(MouseButton::Left, sp(300, 300), None);
    assert_eq!(p.shapes().len(), 1);
    assert_eq!(p.handle_mouse_move_flags(sp(60, 5), no_flags(), None), ShouldRedraw::All);
    assert_eq!(p.shapes().len(), 0);
}

#[test]
fn middle_drag_pans() {
    let mut p = board();
    p.handle_mouse_button_pressed_flags(MouseButton::Middle, sp(10, 10), None);
    assert_eq!(p.handle_mouse_move_flags(sp(15, 30), no_flags(), None), ShouldRedraw::All);
    p.handle_mouse_button_released_flags(MouseButton::Middle, sp(15, 30), no_flags(), None);
    assert_eq!(p.get_transform(), tr(0, 5, 20));
    p.handle_mouse_move_flags(sp(100, 100), no_flags(), None);
    assert_eq!(p.get_transform(), tr(0, 5, 20));
}

#[test]
fn scroll_pans_and_zooms() {
    let mut p = board();
    p.scroll(ScreenPoint::new(1, 2), no_flags());
    assert_eq!(p.get_transform(), tr(0, -20, -40));
    p.scroll(ScreenPoint::new(0, 1), Flags { alt: false, ctrl: false, shift: true });
    assert_eq!(p.get_transform(), tr(0, -40, -40));
    p.scroll(ScreenPoint::new(0, -1), Flags { alt: false, ctrl: true, shift: false });
    assert_eq!(p.get_transform().level, 1);
}

#[test]
fn drawing_under_zoom_lands_in_world_space() {
    let mut p = board();
    p.zoom_in();
    p.set_tool(SelectedTool::Shape(ShapeTool::Rectangle));
    drag(&mut p, (400, 300), (420, 340));
    assert_eq!(p.shapes()[0], Shape::Path {
        commands: rectangle_commands((400, 300), (410, 320)),
        style: black(3),
    });
}

#[test]
fn grid_and_free_grid() {
    let g = grid_path(wp(0, 0), wp(40, 20), 20).unwrap();
    assert_eq!(g, vec![
        PathCommand::MoveTo(wp(0, 0)),
        PathCommand::LineTo(wp(0, 20)),
        PathCommand::MoveTo(wp(20, 0)),
        PathCommand::LineTo(wp(20, 20)),
        PathCommand::MoveTo(wp(40, 0)),
        PathCommand::LineTo(wp(40, 20)),
        PathCommand::MoveTo(wp(0, 0)),
        PathCommand::LineTo(wp(40, 0)),
        PathCommand::MoveTo(wp(0, 20)),
        PathCommand::LineTo(wp(40, 20)),
    ]);
    assert_eq!(grid_path(wp(0, 0), wp(0, 20), 5), None);
    let capped = grid_path(wp(0, 0), wp(100_000, 10), 1).unwrap();
    assert_eq!(capped.len(), 2 * (10_000 + 11));
    assert_eq!(capped[2 * 9_999], PathCommand::MoveTo(wp(9_999, 0)));
    assert_eq!(capped[2 * 10_000 + 1], PathCommand::LineTo(wp(100_000, 0)));
    let mut p = board();
    p.set_tool(SelectedTool::Shape(ShapeTool::FreeGrid));
    drag(&mut p, (0, 0), (40, 8));
    if let Shape::Path { commands, .. } = &p.shapes()[0] {
        assert_eq!(commands.len(), 2 * (5 + 1));
    } else {
        panic!("a free grid is a path");
    }
}

#[test]
fn ellipse_from_foci() {
    let e = ellipse_by_foci_and_point(wp(-30, 0), wp(30, 0), wp(0, 40)).unwrap();
    assert_eq!(e.len(), 5);
    assert_eq!(e[0], PathCommand::MoveTo(wp(50, 0)));
    assert_eq!(e[1], PathCommand::CurveTo(wp(50, 22), wp(27, 40), wp(0, 40)));
    assert_eq!(e[4], PathCommand::CurveTo(wp(27, -40), wp(50, -22), wp(50, 0)));
    assert_eq!(ellipse_by_foci_and_point(wp(0, 0), wp(0, 0), wp(0, 0)), None);
    let mut p = board();
    p.set_tool(SelectedTool::Shape(ShapeTool::ThreePointEllipse));
    click(&mut p, (70, 100));
    click(&mut p, (130, 100));
    assert_eq!(click(&mut p, (100, 140)), ShouldRedraw::All);
    assert_eq!(p.shapes().len(), 1);
}

#[test]
fn square_roots() {
    assert_eq!(isqrt(0), 0);
    assert_eq!(isqrt(1), 1);
    assert_eq!(isqrt(24), 4);
    assert_eq!(isqrt(25), 5);
    assert_eq!(isqrt(0x3fff_ffff_ffff_ffff), 0x7fff_ffff);
}

#[test]
fn rectangle_path_order() {
    assert_eq!(rectangle_path(wp(10, 10), wp(50, 30)), rectangle_commands((10, 10), (50, 30)));
}

#[test]
fn extension_is_enforced() {
    assert_eq!(ensure_extension(b"a/b/drawing", b"svg"), b"a/b/drawing.svg".to_vec());
    assert_eq!(ensure_extension(b"drawing.svg", b"svg"), b"drawing.svg".to_vec());
    assert_eq!(ensure_extension(b"drawing.png", b"svg"), b"drawing.svg".to_vec());
    assert_eq!(ensure_extension(b"dir.d/.hidden", b"svg"), b"dir.d/.hidden.svg".to_vec());
    assert_eq!(ensure_extension(b"x.tar.gz", b"png"), b"x.tar.png".to_vec());
    assert_eq!(ensure_extension(b"d/", b"svg"), b"d.svg".to_vec());
    assert_eq!(ensure_extension(b"a/d.png//", b"svg"), b"a/d.svg".to_vec());
    assert_eq!(ensure_extension(b"d.svg/", b"svg"), b"d.svg/".to_vec());
    assert_eq!(ensure_extension(b"/", b"svg"), b"/".to_vec());
    assert_eq!(ensure_extension(b"a/b/.", b"svg"), b"a/b.svg".to_vec());
    assert_eq!(ensure_extension(b"foo.txt/.", b"svg"), b"foo.svg".to_vec());
    assert_eq!(ensure_extension(b"a/b/./", b"png"), b"a/b.png".to_vec());
    assert_eq!(ensure_extension(b"a/..", b"svg"), b"a/..".to_vec());
    assert_eq!(ensure_extension(b".", b"svg"), b".".to_vec());
    for name in [&b"d/"[..], b"x", b"a.b/c", b".hidden", b"y.png", b"q//", b"a/b/."] {
        let once = ensure_extension(name, b"svg");
        assert_eq!(ensure_extension(&once, b"svg"), once);
    }
}

#[test]
fn bounds_and_export_frame() {
    let mut p = board();
    assert_eq!(p.get_bounds(), None);
    assert_eq!(p.export_frame(), None);
    drag(&mut p, (10, 20), (30, 5));
    p.set_tool(SelectedTool::Shape(ShapeTool::CircleByCenterAndPoint));
    drag(&mut p, (100, 100), (110, 100));
    assert_eq!(p.get_bounds(), Some((wp(10, 5), wp(110, 110))));
    let (w, h, t) = p.export_frame().unwrap();
    assert_eq!((w, h), (140, 145));
    assert_eq!(t, tr(0, 10, 15));
}

#[test]
fn draw_commands_follow_shapes() {
    let mut p = board();
    assert_eq!(p.draw_commands_for_current_shape(), None);
    drag(&mut p, (0, 0), (10, 0));
    let cmds = p.draw_commands_for_drawing();
    assert_eq!(cmds.len(), 1);
    assert!(cmds[0].is_world());
    assert_eq!(cmds[0], p.shapes()[0].to_draw_command());
    p.set_tool(SelectedTool::Shape(ShapeTool::Rectangle));
    p.handle_mouse_button_pressed_flags(MouseButton::Left, sp(0, 0), None);
    assert_eq!(p.draw_commands_for_current_shape(), Some(vec![DrawCommand::Path {
        commands: rectangle_commands((0, 0), (10, 0)),
        style: black(3),
    }]));
    p.handle_mouse_move_flags(sp(4, 6), no_flags(), None);
    let preview = p.draw_commands_for_current_shape().unwrap();
    assert_eq!(preview, vec![DrawCommand::Path { commands: rectangle_commands((0, 0), (4, 6)), style: black(3) }]);
    assert!(p.draw_commands_for_tool().is_empty());
}

#[test]
fn resize_keeps_transform() {
    let mut p = board();
    p.zoom_in();
    let t = p.get_transform();
    p.resize(sp(1024, 768));
    assert_eq!(p.get_transform(), t);
    assert_eq!(p.get_dimensions(), sp(1024, 768));
}

#[test]
fn open_replaces_drawing_and_reset_empties_it() {
    let mut src = board();
    drag(&mut src, (0, 0), (10, 10));
    drag(&mut src, (5, 5), (6, 6));
    let svg = src.to_svg();
    let mut p = board();
    drag(&mut p, (50, 50), (60, 60));
    assert_eq!(p.open(&svg, "in.svg".to_string()), Ok(()));
    assert_eq!(p.shapes(), src.shapes());
    p.undo();
    assert_eq!(p.shapes().len(), 2);
    p.reset();
    assert_eq!(p.shapes().len(), 0);
    assert_eq!(p.get_save_status(), &SaveStatus::NewAndEmpty);
}

#[test]
fn file_name_and_folder() {
    assert_eq!(file_name(b"/home/me/drawing.svg"), b"drawing.svg".to_vec());
    assert_eq!(parent(b"/home/me/drawing.svg"), b"/home/me".to_vec());
    assert_eq!(file_name(b"notes/"), b"notes".to_vec());
    assert_eq!(parent(b"notes/"), b"".to_vec());
    assert_eq!(parent(b"/top.svg"), b"/".to_vec());
    assert_eq!(file_name(b"plain"), b"plain".to_vec());
    assert_eq!(file_name(b"a/b/."), b"b".to_vec());
    assert_eq!(parent(b"a/b/."), b"a".to_vec());
    assert_eq!(file_name(b"foo.txt/."), b"foo.txt".to_vec());
    assert_eq!(parent(b"a//b"), b"a".to_vec());
    assert_eq!(parent(b"./a"), b".".to_vec());
    assert_eq!(file_name(b"a/.."), b"".to_vec());
}
