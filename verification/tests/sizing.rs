use canvas_space::camera::AnimationConfig;
use canvas_space::canvas_space::CanvasSpace;
use canvas_space::float::Float;
use canvas_space::geometry::{Point, Rectangle, Size, WindowSize};
use canvas_space::sizing::{ensure_min_max_size, to_whole_pixels, SizeChange};
use canvas_space::state::ResizeEdge;
use canvas_space::tile::{Options, SizeRequest, Tile, WindowRecord};

fn f(v: f64) -> Float {
    Float { bits: v.to_bits() }
}

fn value(v: Float) -> f64 {
    f64::from_bits(v.bits)
}

fn point(x: f64, y: f64) -> Point {
    Point { x: f(x), y: f(y) }
}

fn size(w: f64, h: f64) -> Size {
    Size { w: f(w), h: f(h) }
}

fn at(p: Point) -> (f64, f64) {
    (value(p.x), value(p.y))
}

fn options() -> Options {
    Options {
        handle: 7,
        disable_transactions: false,
        horizontal_view_movement: AnimationConfig { handle: 1 },
        window_close: AnimationConfig { handle: 2 },
    }
}

fn window(id: u64) -> WindowRecord {
    WindowRecord {
        id,
        size: WindowSize { w: 100, h: 80 },
        expected_size: None,
        min_size: WindowSize { w: 0, h: 0 },
        max_size: WindowSize { w: 0, h: 0 },
        requests: Vec::new(),
        last_commit: None,
    }
}

fn tile(id: u64, w: f64, h: f64) -> Tile<WindowRecord> {
    Tile {
        window: window(id),
        canvas_pos: point(0., 0.),
        tile_size: size(w, h),
        expected_or_current_size: size(w, h),
        window_size: size(w, h),
        frame: size(0., 0.),
        render_offset: point(0., 0.),
        unmap_snapshot: None,
        animations_ongoing: false,
        transitions_ongoing: false,
        is_valid: true,
        view_size: size(1280., 720.),
        scale: f(1.),
        options: options(),
    }
}

fn canvas() -> CanvasSpace<WindowRecord> {
    let area = Rectangle { loc: point(0., 20.), size: size(1280., 700.) };
    CanvasSpace::new(size(1280., 720.), area, f(1.), options())
}

fn one(t: Tile<WindowRecord>) -> CanvasSpace<WindowRecord> {
    let mut c = canvas();
    c.add_tile(t, point(10., 10.));
    c
}

fn asked(c: &CanvasSpace<WindowRecord>) -> Vec<(i32, i32, bool)> {
    c.tiles()[0].window.requests.iter().map(|r| (r.size.w, r.size.h, r.animate)).collect()
}

/// What a tile with a frame of 8 by 6 is asked for when its width changes, then its height.
fn changed(change: SizeChange) -> (i32, i32) {
    let mut t = tile(1, 328., 206.);
    t.frame = size(8., 6.);
    t.window.size = WindowSize { w: 320, h: 200 };
    let mut c = one(t);
    c.set_window_width(Some(1), change, false);
    let w = asked(&c)[0].0;
    c.tiles_mut()[0].window.expected_size = None;
    c.set_window_height(Some(1), change, false);
    (w, asked(&c)[1].1)
}

fn edges(top: bool, bottom: bool, left: bool, right: bool) -> ResizeEdge {
    ResizeEdge { top, bottom, left, right }
}

#[test]
fn fixed_sizes() {
    assert_eq!(changed(SizeChange::SetFixed(640)), (640, 640));
    assert_eq!(changed(SizeChange::SetFixed(0)), (1, 1));
    assert_eq!(changed(SizeChange::SetFixed(-5)), (1, 1));
    assert_eq!(changed(SizeChange::SetFixed(i32::MIN)), (1, 1));
    assert_eq!(changed(SizeChange::SetFixed(100000)), (100000, 100000));
    assert_eq!(changed(SizeChange::SetFixed(100001)), (100000, 100000));
    assert_eq!(changed(SizeChange::SetFixed(i32::MAX)), (100000, 100000));
}

#[test]
fn proportions_of_the_working_area() {
    assert_eq!(changed(SizeChange::SetProportion(f(100.))), (1272, 694));
    assert_eq!(changed(SizeChange::SetProportion(f(50.))), (632, 344));
    // 1280 * 0.333 - 8 = 418.24, 700 * 0.333 - 6 = 227.1.
    assert_eq!(changed(SizeChange::SetProportion(f(33.3))), (418, 227));
    assert_eq!(changed(SizeChange::SetProportion(f(-20.))), (1, 1));
    assert_eq!(changed(SizeChange::SetProportion(f(1e9))), (100000, 100000));
    assert_eq!(changed(SizeChange::SetProportion(f(f64::INFINITY))), (100000, 100000));
    assert_eq!(changed(SizeChange::SetProportion(f(f64::NAN))), (0, 0));
}

#[test]
fn fixed_adjustments() {
    assert_eq!(changed(SizeChange::AdjustFixed(30)), (350, 230));
    assert_eq!(changed(SizeChange::AdjustFixed(-30)), (290, 170));
    assert_eq!(changed(SizeChange::AdjustFixed(-400)), (1, 1));
    assert_eq!(changed(SizeChange::AdjustFixed(i32::MAX)), (100000, 100000));
    assert_eq!(changed(SizeChange::AdjustFixed(i32::MIN)), (1, 1));
}

#[test]
fn proportional_adjustments() {
    // The tile is 328 of 1280 and 206 of 700.
    assert_eq!(changed(SizeChange::AdjustProportion(f(10.))), (448, 270));
    assert_eq!(changed(SizeChange::AdjustProportion(f(0.))), (320, 200));
    assert_eq!(changed(SizeChange::AdjustProportion(f(-100.))), (1, 1));
    assert_eq!(changed(SizeChange::AdjustProportion(f(f64::NAN))), (0, 0));
}

#[test]
fn halves_are_rounded_away_from_zero() {
    assert_eq!(to_whole_pixels(f(2.5)), 3);
    assert_eq!(to_whole_pixels(f(2.4999)), 2);
    assert_eq!(to_whole_pixels(f(0.2)), 1);
    assert_eq!(to_whole_pixels(f(-7.)), 1);
    assert_eq!(to_whole_pixels(f(f64::INFINITY)), 100000);
    assert_eq!(to_whole_pixels(f(f64::NAN)), 0);
}

#[test]
fn bounds_hold_and_the_lower_one_wins() {
    assert_eq!(ensure_min_max_size(50, 0, 0), 50);
    assert_eq!(ensure_min_max_size(50, 60, 0), 60);
    assert_eq!(ensure_min_max_size(50, 0, 40), 40);
    assert_eq!(ensure_min_max_size(50, 60, 40), 60);
    assert_eq!(ensure_min_max_size(50, -3, -9), 50);
}

#[test]
fn requests_respect_the_bounds_of_the_window() {
    let mut t = tile(1, 100., 80.);
    t.window.min_size = WindowSize { w: 200, h: 150 };
    t.window.max_size = WindowSize { w: 300, h: 160 };
    let mut c = one(t);
    c.set_window_width(Some(1), SizeChange::SetFixed(1000), true);
    c.set_window_height(Some(1), SizeChange::SetFixed(10), false);
    assert_eq!(asked(&c), vec![(300, 150, true), (300, 150, false)]);
}

#[test]
fn the_other_side_is_the_expected_one_or_none() {
    let mut c = one(tile(1, 100., 80.));
    c.set_window_width(Some(1), SizeChange::SetFixed(500), true);
    assert_eq!(asked(&c), vec![(500, 0, true)]);
    c.tiles_mut()[0].window.expected_size = Some(WindowSize { w: 70, h: 60 });
    c.set_window_width(Some(1), SizeChange::AdjustFixed(5), false);
    c.tiles_mut()[0].window.expected_size = Some(WindowSize { w: 70, h: 60 });
    c.set_window_height(Some(1), SizeChange::AdjustFixed(5), false);
    assert_eq!(asked(&c), vec![(500, 0, true), (75, 60, false), (70, 65, false)]);
}

#[test]
fn requests_go_to_the_named_window_or_the_active_one() {
    let mut c = one(tile(1, 100., 80.));
    c.add_tile(tile(2, 100., 80.), point(0., 0.));
    c.set_window_width(None, SizeChange::SetFixed(222), false);
    assert_eq!(c.tiles()[1].window.requests.len(), 1);
    assert_eq!(c.tiles()[0].window.requests.len(), 0);
    c.set_window_height(Some(1), SizeChange::SetFixed(111), false);
    assert_eq!(
        c.tiles()[0].window.requests,
        vec![SizeRequest { size: WindowSize { w: 0, h: 111 }, animate: false }]
    );
    c.set_window_width(Some(9), SizeChange::SetFixed(1), false);
    c.set_window_height(Some(9), SizeChange::SetFixed(1), false);
    assert_eq!(c.tiles()[0].window.requests.len(), 1);
    assert_eq!(c.tiles()[1].window.requests.len(), 1);
    let mut empty = canvas();
    empty.set_window_width(None, SizeChange::SetFixed(1), false);
    empty.set_window_height(None, SizeChange::SetFixed(1), false);
    assert!(empty.is_empty());
}

#[test]
fn a_gesture_on_the_right_edge_follows_the_pointer() {
    let mut c = one(tile(1, 100., 80.));
    assert!(c.interactive_resize_begin(1, edges(false, false, false, true)));
    assert!(c.interactive_resize_update(1, point(20.4, 99.)));
    assert!(c.interactive_resize_update(1, point(-10., 99.)));
    assert_eq!(asked(&c), vec![(120, 0, false), (90, 0, false)]);
}

#[test]
fn a_gesture_on_the_left_edge_is_mirrored() {
    let mut c = one(tile(1, 100., 80.));
    assert!(c.interactive_resize_begin(1, edges(false, false, true, false)));
    assert!(c.interactive_resize_update(1, point(-20.5, 0.)));
    assert_eq!(asked(&c), vec![(121, 0, false)]);
}

#[test]
fn a_gesture_on_top_and_bottom_changes_the_height() {
    let mut c = one(tile(1, 100., 80.));
    assert!(c.interactive_resize_begin(1, edges(true, false, false, false)));
    assert!(c.interactive_resize_update(1, point(7., -20.)));
    c.interactive_resize_end(Some(1));
    assert!(c.interactive_resize_begin(1, edges(false, true, false, false)));
    assert!(c.interactive_resize_update(1, point(7., -20.)));
    assert_eq!(asked(&c), vec![(0, 100, false), (0, 60, false)]);
}

#[test]
fn a_corner_asks_for_the_width_and_then_for_both() {
    let mut c = one(tile(1, 100., 80.));
    assert!(c.interactive_resize_begin(1, edges(false, true, false, true)));
    assert!(c.interactive_resize_update(1, point(10., 20.)));
    assert_eq!(asked(&c), vec![(110, 0, false), (110, 100, false)]);
}

#[test]
fn a_gesture_without_edges_asks_for_nothing() {
    let mut c = one(tile(1, 100., 80.));
    assert!(c.interactive_resize_begin(1, edges(false, false, false, false)));
    assert!(c.interactive_resize_update(1, point(10., 20.)));
    assert!(asked(&c).is_empty());
}

#[test]
fn one_gesture_at_a_time() {
    let mut c = one(tile(1, 100., 80.));
    c.add_tile(tile(2, 100., 80.), point(0., 0.));
    let right = edges(false, false, false, true);
    assert!(!c.interactive_resize_update(1, point(1., 1.)));
    assert!(!c.interactive_resize_begin(9, right));
    assert!(c.interactive_resize_begin(1, right));
    assert!(!c.interactive_resize_begin(1, right));
    assert!(!c.interactive_resize_begin(2, right));
    assert!(!c.interactive_resize_update(2, point(1., 1.)));
    c.interactive_resize_end(Some(2));
    assert!(c.interactive_resize_update(1, point(1., 1.)));
    c.interactive_resize_end(Some(1));
    assert!(!c.interactive_resize_update(1, point(1., 1.)));
    assert!(c.interactive_resize_begin(2, right));
    c.interactive_resize_end(None);
    assert!(!c.interactive_resize_update(2, point(1., 1.)));
    c.interactive_resize_end(None);
}

#[test]
fn a_gesture_on_a_tile_that_has_gone_asks_for_nothing() {
    let mut c = one(tile(1, 100., 80.));
    assert!(c.interactive_resize_begin(1, edges(false, false, false, true)));
    assert!(c.remove_tile(1).is_some());
    assert!(c.interactive_resize_update(1, point(1., 1.)));
    assert!(c.is_empty());
}

#[test]
fn a_gesture_stops_the_camera_where_it_stands() {
    let mut c = one(tile(1, 100., 80.));
    c.animate_view_pos_x(f(100.));
    c.animate_view_pos_y(f(50.));
    let (x, y) = (f(40.), f(10.));
    c.sample_camera(x, y);
    assert!(c.interactive_resize_begin(1, edges(false, false, false, true)));
    assert_eq!(at(c.view_pos()), (40., 10.));
    assert_eq!(at(c.target_view_pos()), (40., 10.));
    assert!(!c.are_animations_ongoing());
}

#[test]
fn the_drawn_size_is_what_a_gesture_grows() {
    let mut t = tile(1, 108., 88.);
    t.window_size = size(99.5, 80.);
    let mut c = one(t);
    assert!(c.interactive_resize_begin(1, edges(false, false, false, true)));
    assert!(c.interactive_resize_update(1, point(0., 0.)));
    assert_eq!(asked(&c), vec![(100, 0, false)]);
}
