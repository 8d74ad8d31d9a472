use canvas_space::camera::AnimationConfig;
use canvas_space::canvas_space::CanvasSpace;
use canvas_space::float::Float;
use canvas_space::focus::{score_for, SpatialDirection};
use canvas_space::geometry::{Point, Rectangle, Size, WindowSize};
use canvas_space::tile::{Options, Tile, WindowRecord};

fn f(v: f64) -> Float {
    Float { bits: v.to_bits() }
}

fn value(v: Float) -> f64 {
    f64::from_bits(v.bits)
}

fn point(x: f64, y: f64) -> Point {
    Point { x: f(x), y: f(y) }
}

fn size(w: f64, h: f64) -> Size {
    Size { w: f(w), h: f(h) }
}

fn at(p: Point) -> (f64, f64) {
    (value(p.x), value(p.y))
}

fn options() -> Options {
    Options {
        handle: 7,
        disable_transactions: false,
        horizontal_view_movement: AnimationConfig { handle: 1 },
        window_close: AnimationConfig { handle: 2 },
    }
}

fn window(id: u64) -> WindowRecord {
    WindowRecord {
        id,
        size: WindowSize { w: 100, h: 80 },
        expected_size: None,
        min_size: WindowSize { w: 0, h: 0 },
        max_size: WindowSize { w: 0, h: 0 },
        requests: Vec::new(),
        last_commit: None,
    }
}

fn tile(id: u64, w: f64, h: f64) -> Tile<WindowRecord> {
    Tile {
        window: window(id),
        canvas_pos: point(0., 0.),
        tile_size: size(w, h),
        expected_or_current_size: size(w, h),
        window_size: size(w, h),
        frame: size(0., 0.),
        render_offset: point(0., 0.),
        unmap_snapshot: None,
        animations_ongoing: false,
        transitions_ongoing: false,
        is_valid: true,
        view_size: size(1280., 720.),
        scale: f(1.),
        options: options(),
    }
}

fn canvas() -> CanvasSpace<WindowRecord> {
    let area = Rectangle { loc: point(0., 20.), size: size(1280., 700.) };
    CanvasSpace::new(size(1280., 720.), area, f(1.), options())
}

/// Tiles of 10 by 10 with their middles at the given points.
fn with_middles(middles: &[(u64, f64, f64)]) -> CanvasSpace<WindowRecord> {
    let mut c = canvas();
    for (id, x, y) in middles {
        c.add_tile(tile(*id, 10., 10.), point(*x - 5., *y - 5.));
    }
    c
}

#[test]
fn scores_weigh_the_distance_across_twice() {
    let s = |d, x: f64, y: f64| score_for(d, f(x), f(y)).map(value);
    assert_eq!(s(SpatialDirection::Right, 10., -3.), Some(16.));
    assert_eq!(s(SpatialDirection::Left, -10., -3.), Some(16.));
    assert_eq!(s(SpatialDirection::Down, 4., 7.), Some(15.));
    assert_eq!(s(SpatialDirection::Up, -4., -7.), Some(15.));
    assert_eq!(s(SpatialDirection::Right, 0., 5.), None);
    assert_eq!(s(SpatialDirection::Right, -0., 5.), None);
    assert_eq!(s(SpatialDirection::Right, -1., 5.), None);
    assert_eq!(s(SpatialDirection::Left, 1., 5.), None);
    assert_eq!(s(SpatialDirection::Down, 1., -5.), None);
    assert_eq!(s(SpatialDirection::Up, 1., 0.), None);
    assert_eq!(s(SpatialDirection::Right, f64::NAN, 5.), None);
    assert!(matches!(s(SpatialDirection::Right, 1., f64::NAN), Some(v) if v.is_nan()));
}

#[test]
fn focus_goes_each_way() {
    let all = [(1, 0., 0.), (2, 100., 0.), (3, -100., 0.), (4, 0., 100.), (5, 0., -100.)];
    for (direction, expected) in [
        (SpatialDirection::Right, 2),
        (SpatialDirection::Left, 3),
        (SpatialDirection::Down, 4),
        (SpatialDirection::Up, 5),
    ] {
        let mut c = with_middles(&all);
        c.activate_window(1);
        assert!(c.focus_spatial(direction));
        assert_eq!(c.active_window_id(), Some(expected));
    }
}

#[test]
fn focus_comes_back_the_way_it_went() {
    let mut c = with_middles(&[(1, 0., 0.), (2, 100., 20.)]);
    c.activate_window(1);
    assert!(c.focus_spatial(SpatialDirection::Right));
    assert_eq!(c.active_window_id(), Some(2));
    assert!(c.focus_spatial(SpatialDirection::Left));
    assert_eq!(c.active_window_id(), Some(1));
}

#[test]
fn a_straight_tile_beats_a_closer_one_across() {
    // 100 against 60 + 2 * 30.
    let mut c = with_middles(&[(1, 0., 0.), (2, 60., 30.), (3, 100., 0.)]);
    c.activate_window(1);
    assert!(c.focus_spatial(SpatialDirection::Right));
    assert_eq!(c.active_window_id(), Some(3));
}

#[test]
fn the_earliest_of_equals_is_taken() {
    let mut c = with_middles(&[(5, 50., 25.), (1, 0., 0.), (2, 100., 0.), (3, 50., -25.)]);
    c.activate_window(1);
    assert!(c.focus_spatial(SpatialDirection::Right));
    assert_eq!(c.active_window_id(), Some(5));
}

#[test]
fn nothing_in_the_direction_keeps_the_focus() {
    let mut c = with_middles(&[(1, 0., 0.), (2, 0., 100.)]);
    c.activate_window(1);
    assert!(!c.focus_spatial(SpatialDirection::Right));
    assert!(!c.focus_spatial(SpatialDirection::Up));
    assert_eq!(c.active_window_id(), Some(1));
    assert!(!c.are_animations_ongoing());
    assert!(!canvas().focus_spatial(SpatialDirection::Left));
}

#[test]
fn focus_brings_the_tile_into_view() {
    let mut c = with_middles(&[(1, 100., 100.), (2, 2000., 100.)]);
    c.activate_window(1);
    assert!(c.focus_spatial(SpatialDirection::Right));
    assert_eq!(at(c.target_view_pos()), (725., 0.));
}

#[test]
fn a_score_that_is_not_a_number_stays_if_it_comes_first() {
    let mut c = with_middles(&[(1, 0., 0.), (2, 10., f64::NAN), (3, 5., 0.)]);
    c.activate_window(1);
    assert!(c.focus_spatial(SpatialDirection::Right));
    assert_eq!(c.active_window_id(), Some(2));
    let mut c = with_middles(&[(1, 0., 0.), (3, 5., 0.), (2, 10., f64::NAN)]);
    c.activate_window(1);
    assert!(c.focus_spatial(SpatialDirection::Right));
    assert_eq!(c.active_window_id(), Some(3));
}
