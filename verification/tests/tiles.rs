use canvas_space::camera::AnimationConfig;
use canvas_space::canvas_space::CanvasSpace;
use canvas_space::float::Float;
use canvas_space::focus::SpatialDirection;
use canvas_space::geometry::{Point, Rectangle, Size, WindowSize};
use canvas_space::tile::{Options, Tile, TileMeasures, WindowRecord};

fn f(v: f64) -> Float {
    Float { bits: v.to_bits() }
}

fn value(v: Float) -> f64 {
    f64::from_bits(v.bits)
}

fn point(x: f64, y: f64) -> Point {
    Point { x: f(x), y: f(y) }
}

fn size(w: f64, h: f64) -> Size {
    Size { w: f(w), h: f(h) }
}

fn at(p: Point) -> (f64, f64) {
    (value(p.x), value(p.y))
}

fn options() -> Options {
    Options {
        handle: 7,
        disable_transactions: false,
        horizontal_view_movement: AnimationConfig { handle: 1 },
        window_close: AnimationConfig { handle: 2 },
    }
}

fn window(id: u64) -> WindowRecord {
    WindowRecord {
        id,
        size: WindowSize { w: 100, h: 80 },
        expected_size: None,
        min_size: WindowSize { w: 0, h: 0 },
        max_size: WindowSize { w: 0, h: 0 },
        requests: Vec::new(),
        last_commit: None,
    }
}

fn tile(id: u64, w: f64, h: f64) -> Tile<WindowRecord> {
    Tile {
        window: window(id),
        canvas_pos: point(0., 0.),
        tile_size: size(w, h),
        expected_or_current_size: size(w, h),
        window_size: size(w, h),
        frame: size(0., 0.),
        render_offset: point(0., 0.),
        unmap_snapshot: None,
        animations_ongoing: false,
        transitions_ongoing: false,
        is_valid: true,
        view_size: size(1280., 720.),
        scale: f(1.),
        options: options(),
    }
}

fn canvas() -> CanvasSpace<WindowRecord> {
    let area = Rectangle { loc: point(0., 20.), size: size(1280., 700.) };
    CanvasSpace::new(size(1280., 720.), area, f(1.), options())
}

/// What is measured of a tile of the given size, drawn off its place.
fn measures(w: f64, h: f64, dx: f64) -> TileMeasures {
    TileMeasures {
        tile_size: size(w, h),
        expected_or_current_size: size(w + 1., h + 1.),
        window_size: size(w - 2., h - 2.),
        frame: size(2., 2.),
        render_offset: point(dx, 0.),
        animations_ongoing: true,
        transitions_ongoing: false,
        is_valid: true,
    }
}

fn ids(c: &CanvasSpace<WindowRecord>) -> Vec<u64> {
    c.tiles().iter().map(|t| t.window.id).collect()
}

fn three() -> CanvasSpace<WindowRecord> {
    let mut c = canvas();
    c.add_tile(tile(1, 100., 80.), point(0., 0.));
    c.add_tile(tile(2, 200., 90.), point(300., -40.));
    c.add_tile(tile(3, 300., 70.), point(-500., 1000.));
    c
}

#[test]
fn new_canvas_is_empty_and_at_rest() {
    let c = canvas();
    assert!(c.is_empty());
    assert_eq!(c.len(), 0);
    assert_eq!(c.active_window_id(), None);
    assert!(c.active_window().is_none());
    assert_eq!(at(c.view_pos()), (0., 0.));
    assert_eq!(at(c.target_view_pos()), (0., 0.));
    assert!(!c.are_animations_ongoing());
    assert!(!c.are_transitions_ongoing());
    assert!(c.verify_invariants());
    assert_eq!(value(c.scale()), 1.);
    assert_eq!(value(c.view_size().w), 1280.);
    assert_eq!(value(c.view_size().h), 720.);
    assert_eq!(at(c.working_area().loc), (0., 20.));
    assert_eq!(value(c.working_area().size.h), 700.);
    assert_eq!(*c.options(), options());
}

#[test]
fn adding_a_tile_activates_it_at_its_position() {
    let mut c = three();
    assert_eq!(c.len(), 3);
    assert!(!c.is_empty());
    assert_eq!(ids(&c), vec![1, 2, 3]);
    assert_eq!(c.active_window_id(), Some(3));
    assert_eq!(c.active_window().map(|w| w.id), Some(3));
    let positions: Vec<(u64, (f64, f64))> =
        c.tiles_with_canvas_positions().iter().map(|(t, p)| (t.window.id, at(*p))).collect();
    assert_eq!(positions, vec![(1, (0., 0.)), (2, (300., -40.)), (3, (-500., 1000.))]);
    c.update_canvas_positions();
    assert_eq!(at(c.tiles()[2].canvas_pos), (-500., 1000.));
    assert!(c.verify_invariants());
}

#[test]
fn removing_the_active_tile_activates_the_first_one_left() {
    let mut c = three();
    let removed = c.remove_tile(3).map(|t| (t.window.id, at(t.canvas_pos)));
    assert_eq!(removed, Some((3, (-500., 1000.))));
    assert_eq!(ids(&c), vec![1, 2]);
    assert_eq!(c.active_window_id(), Some(1));
    assert!(c.verify_invariants());
}

#[test]
fn removing_another_tile_keeps_the_active_one() {
    let mut c = three();
    assert!(c.remove_tile(1).is_some());
    assert_eq!(ids(&c), vec![2, 3]);
    assert_eq!(c.active_window_id(), Some(3));
    assert!(c.remove_tile(1).is_none());
    assert_eq!(ids(&c), vec![2, 3]);
}

#[test]
fn removing_the_last_tile_leaves_nothing_active() {
    let mut c = canvas();
    c.add_tile(tile(9, 10., 10.), point(1., 2.));
    assert!(c.remove_tile(9).is_some());
    assert!(c.is_empty());
    assert_eq!(c.active_window_id(), None);
}

#[test]
fn removal_undoes_addition() {
    let mut c = three();
    c.activate_window(1);
    c.add_tile(tile(4, 1., 1.), point(5., 6.));
    assert_eq!(c.remove_tile(4).map(|t| t.window.id), Some(4));
    assert_eq!(ids(&c), vec![1, 2, 3]);
    assert_eq!(c.active_window_id(), Some(1));
}

#[test]
fn activation_needs_a_tile() {
    let mut c = three();
    assert!(c.activate_window(1));
    assert_eq!(c.active_window_id(), Some(1));
    assert!(!c.activate_window(7));
    assert_eq!(c.active_window_id(), Some(1));
    assert!(c.activate_window_without_raising(2));
    assert_eq!(c.active_window_id(), Some(2));
    assert_eq!(ids(&c), vec![1, 2, 3]);
    assert!(!c.activate_window_without_raising(0));
    assert_eq!(c.active_window_id(), Some(2));
}

#[test]
fn membership() {
    let c = three();
    assert!(c.has_window(1) && c.contains(1));
    assert!(c.has_window(3) && c.contains(3));
    assert!(!c.has_window(4) && !c.contains(4));
}

#[test]
fn moving_a_tile_by_id() {
    let mut c = three();
    assert!(c.move_tile_to(2, point(7.5, -9.25)));
    assert_eq!(at(c.tiles()[1].canvas_pos), (7.5, -9.25));
    assert_eq!(at(c.tiles()[0].canvas_pos), (0., 0.));
    assert_eq!(c.active_window_id(), Some(3));
    assert!(!c.move_tile_to(4, point(1., 1.)));
    assert_eq!(at(c.tiles()[1].canvas_pos), (7.5, -9.25));
}

#[test]
fn the_first_of_two_equal_ids_counts() {
    let mut c = canvas();
    c.add_tile(tile(1, 10., 10.), point(0., 0.));
    c.add_tile(tile(1, 20., 20.), point(5., 5.));
    assert!(!c.verify_invariants());
    assert!(c.move_tile_to(1, point(50., 60.)));
    assert_eq!(at(c.tiles()[0].canvas_pos), (50., 60.));
    assert_eq!(at(c.tiles()[1].canvas_pos), (5., 5.));
    assert_eq!(c.remove_tile(1).map(|t| value(t.tile_size.w)), Some(10.));
    assert_eq!(c.active_window_id(), Some(1));
    assert!(c.verify_invariants());
}

#[test]
fn tiles_and_the_active_window_change_in_place() {
    let mut c = three();
    c.tiles_mut()[0].tile_size = size(11., 12.);
    assert_eq!(value(c.tiles()[0].tile_size.w), 11.);
    if let Some(w) = c.active_window_mut() {
        w.size = WindowSize { w: 5, h: 6 };
    }
    assert_eq!(c.tiles()[2].window.size, WindowSize { w: 5, h: 6 });
    assert_eq!(c.tiles()[0].window.size, WindowSize { w: 100, h: 80 });
    assert!(canvas().active_window_mut().is_none());
}

#[test]
fn commits_reach_their_window_alone() {
    let mut c = three();
    assert!(c.update_window(2, Some(77), |w| {
        // The commit is passed on before the tile is measured.
        assert_eq!((w.id, w.last_commit), (2, Some(77)));
        measures(210., 95., 0.)
    }));
    assert_eq!(c.tiles()[1].window.last_commit, Some(77));
    assert_eq!(c.tiles()[0].window.last_commit, None);
    assert!(c.update_window(1, None, |_| measures(110., 85., 0.)));
    assert_eq!(c.tiles()[0].window.last_commit, None);
    assert!(!c.update_window(4, Some(1), |_| panic!("nothing to measure")));
    let sizes: Vec<f64> = c.tiles().iter().map(|t| value(t.tile_size.w)).collect();
    assert_eq!(sizes, vec![110., 210., 300.]);
    assert_eq!(at(c.tiles()[1].canvas_pos), (300., -40.));
    assert_eq!(c.active_window_id(), Some(3));
    assert_eq!(at(c.view_pos()), (0., 0.));
}

#[test]
fn configuration_reaches_every_tile() {
    let mut c = three();
    let other = Options { disable_transactions: true, ..options() };
    let area = Rectangle { loc: point(1., 2.), size: size(3., 4.) };
    c.update_config(size(800., 600.), area, f(1.5), other);
    assert_eq!(value(c.view_size().w), 800.);
    assert_eq!(value(c.working_area().size.w), 3.);
    assert_eq!(value(c.scale()), 1.5);
    assert_eq!(*c.options(), other);
    for t in c.tiles() {
        assert_eq!(value(t.view_size.w), 800.);
        assert_eq!(value(t.view_size.h), 600.);
        assert_eq!(value(t.scale), 1.5);
        assert_eq!(t.options, other);
    }
    assert_eq!(at(c.tiles()[1].canvas_pos), (300., -40.));
    assert_eq!(c.active_window_id(), Some(3));
    assert!(c.verify_invariants());
}

#[test]
fn broken_invariants_are_found() {
    let area = Rectangle { loc: point(0., 0.), size: size(1., 1.) };
    for bad in [0., -1., f64::INFINITY, f64::NAN] {
        let c: CanvasSpace<WindowRecord> =
            CanvasSpace::new(size(1280., 720.), area, f(bad), options());
        assert!(!c.verify_invariants());
    }
    let mut c = three();
    c.tiles_mut()[1].scale = f(2.);
    assert!(!c.verify_invariants());
    let mut c = three();
    c.tiles_mut()[1].view_size = size(1280., 721.);
    assert!(!c.verify_invariants());
    let mut c = three();
    c.tiles_mut()[0].options.disable_transactions = true;
    assert!(!c.verify_invariants());
    let mut c = three();
    c.tiles_mut()[2].window.id = 40;
    assert!(!c.verify_invariants());
    // Options that say the same are not the same options.
    let mut c = three();
    c.tiles_mut()[1].options.handle = 8;
    assert!(!c.verify_invariants());
    let mut c = three();
    c.tiles_mut()[1].is_valid = false;
    assert!(!c.verify_invariants());
    c.tiles_mut()[1].is_valid = true;
    assert!(c.verify_invariants());
}

#[test]
fn something_is_active_exactly_while_there_are_tiles() {
    let mut c = canvas();
    let mut seed: u64 = 3;
    for _ in 0..500 {
        seed = seed.wrapping_mul(6364136223846793005).wrapping_add(1442695040888963407);
        let id = (seed >> 40) % 4;
        match (seed >> 33) % 7 {
            0 | 1 => {
                if !c.has_window(id) {
                    c.add_tile(tile(id, 50., 50.), point(id as f64 * 90., 0.));
                }
            }
            2 | 3 => {
                c.remove_tile(id);
            }
            4 => {
                c.activate_window(id);
            }
            5 => {
                c.focus_spatial(SpatialDirection::Right);
            }
            _ => {
                c.move_active_left();
            }
        }
        assert_eq!(c.active_window().is_some(), !c.is_empty());
        assert_eq!(c.active_window().map(|w| w.id), c.active_window_id());
        assert!(c.verify_invariants());
    }
}
