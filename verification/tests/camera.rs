use canvas_space::camera::{AnimationConfig, AnimationSample, AxisCamera};
use canvas_space::canvas_space::CanvasSpace;
use canvas_space::float::Float;
use canvas_space::geometry::{Point, Rectangle, Size, WindowSize};
use canvas_space::state::ResizeEdge;
use canvas_space::tile::{Options, Tile, TileMeasures, WindowRecord};

fn f(v: f64) -> Float {
    Float { bits: v.to_bits() }
}

fn value(v: Float) -> f64 {
    f64::from_bits(v.bits)
}

fn point(x: f64, y: f64) -> Point {
    Point { x: f(x), y: f(y) }
}

fn size(w: f64, h: f64) -> Size {
    Size { w: f(w), h: f(h) }
}

fn at(p: Point) -> (f64, f64) {
    (value(p.x), value(p.y))
}

fn options() -> Options {
    Options {
        handle: 7,
        disable_transactions: false,
        horizontal_view_movement: AnimationConfig { handle: 1 },
        window_close: AnimationConfig { handle: 2 },
    }
}

fn window(id: u64) -> WindowRecord {
    WindowRecord {
        id,
        size: WindowSize { w: 100, h: 80 },
        expected_size: None,
        min_size: WindowSize { w: 0, h: 0 },
        max_size: WindowSize { w: 0, h: 0 },
        requests: Vec::new(),
        last_commit: None,
    }
}

fn tile(id: u64, w: f64, h: f64) -> Tile<WindowRecord> {
    Tile {
        window: window(id),
        canvas_pos: point(0., 0.),
        tile_size: size(w, h),
        expected_or_current_size: size(w, h),
        window_size: size(w, h),
        frame: size(0., 0.),
        render_offset: point(0., 0.),
        unmap_snapshot: None,
        animations_ongoing: false,
        transitions_ongoing: false,
        is_valid: true,
        view_size: size(1280., 720.),
        scale: f(1.),
        options: options(),
    }
}

fn canvas() -> CanvasSpace<WindowRecord> {
    let area = Rectangle { loc: point(0., 20.), size: size(1280., 700.) };
    CanvasSpace::new(size(1280., 720.), area, f(1.), options())
}

/// What is measured of a tile of the given size, drawn off its place.
fn measures(w: f64, h: f64, dx: f64) -> TileMeasures {
    TileMeasures {
        tile_size: size(w, h),
        expected_or_current_size: size(w + 1., h + 1.),
        window_size: size(w - 2., h - 2.),
        frame: size(2., 2.),
        render_offset: point(dx, 0.),
        animations_ongoing: true,
        transitions_ongoing: false,
        is_valid: true,
    }
}

/// A directional move.
type Step = fn(&mut CanvasSpace<WindowRecord>) -> bool;

fn running(v: f64) -> AnimationSample {
    AnimationSample { value: f(v), is_done: false }
}

fn done() -> AnimationSample {
    AnimationSample { value: f(0.), is_done: true }
}

fn one_tile(x: f64, y: f64, w: f64, h: f64) -> CanvasSpace<WindowRecord> {
    let mut c = canvas();
    c.add_tile(tile(1, w, h), point(x, y));
    c
}

#[test]
fn a_jump_arrives_at_once() {
    let mut c = canvas();
    c.animate_view_pos_x(f(100.));
    c.set_view_pos(point(-3.5, 12.));
    assert_eq!(at(c.view_pos()), (-3.5, 12.));
    assert_eq!(at(c.target_view_pos()), (-3.5, 12.));
    assert_eq!(value(c.view_pos_x()), -3.5);
    assert_eq!(value(c.view_pos_y()), 12.);
    assert!(!c.are_animations_ongoing());
}

#[test]
fn heading_starts_a_spring_from_where_the_camera_stands() {
    let mut c = canvas();
    c.set_view_pos(point(10., 20.));
    c.animate_view_pos_x(f(110.));
    assert_eq!(at(c.view_pos()), (10., 20.));
    assert_eq!(at(c.target_view_pos()), (110., 20.));
    assert!(c.camera_y().is_static());
    match c.camera_x() {
        AxisCamera::Animation(a) => {
            assert_eq!(value(a.from), 10.);
            assert_eq!(value(a.to), 110.);
            assert_eq!(value(a.initial_velocity), 0.);
            assert_eq!(a.config, AnimationConfig { handle: 1 });
        }
        AxisCamera::Static(_) => panic!("at rest"),
    }
    assert!(c.are_animations_ongoing());
    assert!(c.are_transitions_ongoing());
    c.animate_view_pos_y(f(-5.));
    assert_eq!(value(c.target_view_pos_y()), -5.);
    assert_eq!(value(c.target_view_pos_x()), 110.);
}

#[test]
fn heading_where_it_already_heads_changes_nothing() {
    let mut c = canvas();
    c.animate_view_pos_x(f(0.));
    assert!(c.camera_x().is_static());
    c.animate_view_pos_x(f(-0.));
    assert!(c.camera_x().is_static());
    c.animate_view_pos_x(f(50.));
    c.advance_animations(running(20.), running(0.), &[], &[]);
    c.animate_view_pos_x(f(50.));
    match c.camera_x() {
        AxisCamera::Animation(a) => assert_eq!(value(a.from), 0.),
        AxisCamera::Static(_) => panic!("at rest"),
    }
    // A spring that is redirected starts from where the camera stands by then.
    c.animate_view_pos_x(f(70.));
    match c.camera_x() {
        AxisCamera::Animation(a) => assert_eq!(value(a.from), 20.),
        AxisCamera::Static(_) => panic!("at rest"),
    }
}

#[test]
fn a_heading_that_is_not_a_number_is_never_reached() {
    let mut c = canvas();
    c.animate_view_pos_x(f(f64::NAN));
    assert!(c.camera_x().is_animation_ongoing());
    assert!(value(c.target_view_pos_x()).is_nan());
    assert_eq!(value(c.view_pos_x()), 0.);
}

#[test]
fn the_camera_follows_its_spring_and_comes_to_rest() {
    let mut c = canvas();
    c.animate_view_pos_x(f(100.));
    c.animate_view_pos_y(f(-40.));
    c.advance_animations(running(30.), running(-10.), &[], &[]);
    assert_eq!(at(c.view_pos()), (30., -10.));
    assert_eq!(at(c.target_view_pos()), (100., -40.));
    c.advance_animations(done(), running(-39.), &[], &[]);
    assert_eq!(at(c.view_pos()), (100., -39.));
    assert!(c.camera_x().is_static());
    assert!(c.are_animations_ongoing());
    c.advance_animations(running(5.), done(), &[], &[]);
    assert_eq!(at(c.view_pos()), (100., -40.));
    assert!(!c.are_animations_ongoing());
    assert!(!c.are_transitions_ongoing());
}

#[test]
fn tiles_on_the_move_count_as_ongoing() {
    let mut c = one_tile(0., 0., 10., 10.);
    c.tiles_mut()[0].animations_ongoing = true;
    assert!(c.are_animations_ongoing());
    assert!(!c.are_transitions_ongoing());
    c.tiles_mut()[0].animations_ongoing = false;
    c.tiles_mut()[0].transitions_ongoing = true;
    assert!(!c.are_animations_ongoing());
    assert!(c.are_transitions_ongoing());
}

#[test]
fn panning_adds_to_the_target() {
    let mut c = canvas();
    c.pan_camera(f(10.), f(0.));
    assert_eq!(at(c.target_view_pos()), (10., 0.));
    assert!(c.camera_y().is_static());
    c.pan_camera(f(5.), f(-7.));
    assert_eq!(at(c.target_view_pos()), (15., -7.));
    assert_eq!(at(c.view_pos()), (0., 0.));
    c.pan_camera(f(-15.), f(7.));
    assert_eq!(at(c.target_view_pos()), (0., 0.));
    let mut c = canvas();
    c.pan_camera(f(0.), f(-0.));
    assert!(!c.are_animations_ongoing());
}

#[test]
fn a_tile_in_view_moves_no_camera() {
    let mut c = one_tile(0., 0., 1280., 720.);
    c.bring_active_tile_into_view();
    assert!(!c.are_animations_ongoing());
    let mut c = canvas();
    c.bring_active_tile_into_view();
    assert!(!c.are_animations_ongoing());
}

#[test]
fn a_tile_before_the_view_is_shown_at_its_near_edge() {
    let mut c = one_tile(-30., 0., 100., 100.);
    c.bring_active_tile_into_view();
    assert_eq!(at(c.target_view_pos()), (-30., 0.));
    assert!(c.camera_y().is_static());
}

#[test]
fn a_tile_past_the_view_is_shown_at_its_far_edge() {
    let mut c = one_tile(1250., 700., 100., 50.);
    c.bring_active_tile_into_view();
    assert_eq!(at(c.target_view_pos()), (70., 30.));
    let before = at(c.target_view_pos());
    c.bring_active_tile_into_view();
    assert_eq!(at(c.target_view_pos()), before);
}

#[test]
fn a_tile_larger_than_the_view_is_shown_by_the_edge_that_sticks_out() {
    let mut c = one_tile(-10., 0., 2000., 10.);
    c.bring_active_tile_into_view();
    assert_eq!(value(c.target_view_pos_x()), -10.);
    c.set_view_pos(point(-10., 0.));
    c.bring_active_tile_into_view();
    assert_eq!(value(c.target_view_pos_x()), 710.);
}

#[test]
fn the_view_that_counts_is_the_one_the_camera_heads_for() {
    let mut c = one_tile(2000., 0., 100., 100.);
    c.animate_view_pos_x(f(1500.));
    c.bring_active_tile_into_view();
    assert_eq!(value(c.target_view_pos_x()), 1500.);
    assert_eq!(value(c.view_pos_x()), 0.);
}

#[test]
fn directional_moves_go_fifty_pixels() {
    let mut c = one_tile(100., 200., 10., 10.);
    assert!(c.move_active_left());
    assert_eq!(at(c.tiles()[0].canvas_pos), (50., 200.));
    assert!(c.move_active_up());
    assert_eq!(at(c.tiles()[0].canvas_pos), (50., 150.));
    assert!(c.move_active_right());
    assert!(c.move_active_down());
    assert_eq!(at(c.tiles()[0].canvas_pos), (100., 200.));
    assert!(!c.are_animations_ongoing());
}

#[test]
fn a_moved_tile_is_brought_into_view() {
    let mut c = one_tile(20., 20., 10., 10.);
    assert!(c.move_active_left());
    assert_eq!(at(c.tiles()[0].canvas_pos), (-30., 20.));
    assert_eq!(at(c.target_view_pos()), (-30., 0.));
    assert!(c.move_active_by(point(2000.5, 1000.25)));
    assert_eq!(at(c.tiles()[0].canvas_pos), (1970.5, 1020.25));
    assert_eq!(at(c.target_view_pos()), (700.5, 310.25));
}

#[test]
fn moves_need_an_active_tile() {
    let mut c = canvas();
    assert!(!c.move_active_by(point(1., 1.)));
    assert!(!c.move_active_left());
    assert!(!c.move_active_right());
    assert!(!c.move_active_up());
    assert!(!c.move_active_down());
}

#[test]
fn a_move_cancels_a_resize() {
    let mut c = one_tile(0., 0., 10., 10.);
    let edges = ResizeEdge { top: false, bottom: false, left: false, right: true };
    assert!(c.interactive_resize_begin(1, edges));
    assert!(c.move_active_right());
    assert!(!c.interactive_resize_update(1, point(5., 5.)));
}

#[test]
fn each_tile_is_advanced_by_its_own_sample() {
    let mut c = one_tile(3., 4., 10., 10.);
    c.add_tile(tile(2, 20., 20.), point(30., 40.));
    c.animate_view_pos_x(f(5.));
    let samples = [measures(11., 12., 0.5), measures(21., 22., -0.5)];
    c.advance_animations(running(1.), running(0.), &samples, &[]);
    let sizes: Vec<f64> = c.tiles().iter().map(|t| value(t.tile_size.w)).collect();
    let offsets: Vec<f64> = c.tiles().iter().map(|t| value(t.render_offset.x)).collect();
    let positions: Vec<(f64, f64)> = c.tiles().iter().map(|t| at(t.canvas_pos)).collect();
    assert_eq!(sizes, vec![11., 21.]);
    assert_eq!(offsets, vec![0.5, -0.5]);
    assert_eq!(positions, vec![(3., 4.), (30., 40.)]);
    assert_eq!(c.active_window_id(), Some(2));
    assert_eq!(value(c.tiles()[1].expected_or_current_size.h), 23.);
    assert_eq!(value(c.tiles()[1].window_size.w), 19.);
    assert_eq!(value(c.tiles()[1].frame.w), 2.);
    assert!(c.tiles()[0].animations_ongoing && !c.tiles()[0].transitions_ongoing);
    assert!(c.verify_invariants());
}

#[test]
fn a_spring_that_is_sampled_goes_on() {
    let mut c = canvas();
    c.animate_view_pos_x(f(100.));
    c.sample_camera(f(25.), f(9.));
    assert_eq!(at(c.view_pos()), (25., 0.));
    assert_eq!(at(c.target_view_pos()), (100., 0.));
    assert!(c.camera_x().is_animation_ongoing());
    c.animate_view_pos_x(f(-1.));
    match c.camera_x() {
        AxisCamera::Animation(a) => assert_eq!(value(a.from), 25.),
        AxisCamera::Static(_) => panic!("at rest"),
    }
}

#[test]
fn directional_moves_cancel_each_other() {
    let moves: [(Step, Step); 4] = [
        (CanvasSpace::move_active_left, CanvasSpace::move_active_right),
        (CanvasSpace::move_active_right, CanvasSpace::move_active_left),
        (CanvasSpace::move_active_up, CanvasSpace::move_active_down),
        (CanvasSpace::move_active_down, CanvasSpace::move_active_up),
    ];
    for (there, back) in moves {
        let mut c = one_tile(30.5, 700.25, 10., 10.);
        c.add_tile(tile(2, 5., 5.), point(1., 2.));
        c.activate_window(1);
        assert!(there(&mut c));
        assert!(at(c.tiles()[0].canvas_pos) != (30.5, 700.25));
        assert!(back(&mut c));
        assert_eq!(at(c.tiles()[0].canvas_pos), (30.5, 700.25));
        assert_eq!(at(c.tiles()[1].canvas_pos), (1., 2.));
        assert_eq!(c.active_window_id(), Some(1));
    }
}
