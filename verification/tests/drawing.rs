use canvas_space::camera::{AnimationConfig, AnimationSample};
use canvas_space::canvas_space::CanvasSpace;
use canvas_space::float::Float;
use canvas_space::geometry::{PhysicalPoint, Point, Rectangle, Size, WindowSize};
use canvas_space::state::{ClosingWindow, OverviewFit, RenderCommand, TransactionBlocker};
use canvas_space::tile::{Options, Tile, TileRenderSnapshot, WindowRecord};

fn f(v: f64) -> Float {
    Float { bits: v.to_bits() }
}

fn value(v: Float) -> f64 {
    f64::from_bits(v.bits)
}

fn point(x: f64, y: f64) -> Point {
    Point { x: f(x), y: f(y) }
}

fn size(w: f64, h: f64) -> Size {
    Size { w: f(w), h: f(h) }
}

fn at(p: Point) -> (f64, f64) {
    (value(p.x), value(p.y))
}

fn options() -> Options {
    Options {
        handle: 7,
        disable_transactions: false,
        horizontal_view_movement: AnimationConfig { handle: 1 },
        window_close: AnimationConfig { handle: 2 },
    }
}

fn window(id: u64) -> WindowRecord {
    WindowRecord {
        id,
        size: WindowSize { w: 100, h: 80 },
        expected_size: None,
        min_size: WindowSize { w: 0, h: 0 },
        max_size: WindowSize { w: 0, h: 0 },
        requests: Vec::new(),
        last_commit: None,
    }
}

fn tile(id: u64, w: f64, h: f64) -> Tile<WindowRecord> {
    Tile {
        window: window(id),
        canvas_pos: point(0., 0.),
        tile_size: size(w, h),
        expected_or_current_size: size(w, h),
        window_size: size(w, h),
        frame: size(0., 0.),
        render_offset: point(0., 0.),
        unmap_snapshot: None,
        animations_ongoing: false,
        transitions_ongoing: false,
        is_valid: true,
        view_size: size(1280., 720.),
        scale: f(1.),
        options: options(),
    }
}

fn canvas() -> CanvasSpace<WindowRecord> {
    let area = Rectangle { loc: point(0., 20.), size: size(1280., 700.) };
    CanvasSpace::new(size(1280., 720.), area, f(1.), options())
}

fn scaled(scale: f64) -> CanvasSpace<WindowRecord> {
    let area = Rectangle { loc: point(0., 0.), size: size(1280., 720.) };
    CanvasSpace::new(size(1280., 720.), area, f(scale), options())
}

/// What is under a point of a tile: how far it is from the tile's corner, if it is in the tile.
fn inside(t: &Tile<WindowRecord>, pos: Point, p: Point) -> Option<(f64, f64)> {
    let (dx, dy) = (value(p.x) - value(pos.x), value(p.y) - value(pos.y));
    let hit = dx >= 0. && dy >= 0. && dx < value(t.tile_size.w) && dy < value(t.tile_size.h);
    if hit {
        Some((dx, dy))
    } else {
        None
    }
}

fn tiles_drawn(plan: &[RenderCommand]) -> Vec<(usize, (f64, f64), bool)> {
    let mut drawn = Vec::new();
    for command in plan {
        if let RenderCommand::Tile { index, pos, focus_ring } = command {
            drawn.push((*index, at(*pos), *focus_ring));
        }
    }
    drawn
}

#[test]
fn base_positions_are_relative_to_the_camera() {
    let p = CanvasSpace::<WindowRecord>::canvas_to_screen_base(point(10., -4.), point(2.5, 3.));
    assert_eq!(at(p), (7.5, -7.));
}

#[test]
fn tiles_are_drawn_in_order_and_the_active_one_has_the_ring() {
    let mut c = canvas();
    c.add_tile(tile(1, 10., 10.), point(100., 50.));
    c.add_tile(tile(2, 10., 10.), point(-20., 30.4));
    c.set_view_pos(point(10., 5.));
    assert_eq!(
        tiles_drawn(&c.render(true, None)),
        vec![(0, (90., 45.), false), (1, (-30., 25.), true)]
    );
    c.activate_window(1);
    assert_eq!(
        tiles_drawn(&c.render(true, None)),
        vec![(0, (90., 45.), true), (1, (-30., 25.), false)]
    );
    assert_eq!(
        tiles_drawn(&c.render(false, None)),
        vec![(0, (90., 45.), false), (1, (-30., 25.), false)]
    );
}

#[test]
fn drawn_positions_are_on_physical_pixels() {
    let mut c = scaled(1.5);
    let mut t = tile(1, 10., 10.);
    t.render_offset = point(0.25, -0.5);
    c.add_tile(t, point(10.1, 20.));
    // 10.35 * 1.5 = 15.525 and 19.5 * 1.5 = 29.25.
    let expected = (16. / 1.5, 29. / 1.5);
    let rounded: Vec<(f64, f64)> =
        c.tiles_with_render_positions().iter().map(|(_, p)| at(*p)).collect();
    assert_eq!(rounded, vec![expected]);
    assert_eq!(tiles_drawn(&c.render(false, None)), vec![(0, expected, false)]);
    let (tiles, positions) = c.tiles_with_render_positions_mut(true);
    assert_eq!(tiles.len(), 1);
    assert_eq!(at(positions[0]), expected);
    let (tiles, positions) = c.tiles_with_render_positions_mut(false);
    tiles[0].tile_size = size(33., 44.);
    assert_eq!(at(positions[0]), (10.1 + 0.25, 19.5));
    assert_eq!(value(c.tiles()[0].tile_size.w), 33.);
}

#[test]
fn closing_windows_are_drawn_first_and_last_to_close_on_top() {
    let mut c = canvas();
    c.add_tile(tile(1, 10., 10.), point(0., 0.));
    c.add_closing_window(Some(ClosingWindow { handle: 70 }));
    c.add_closing_window(None);
    c.add_closing_window(Some(ClosingWindow { handle: 71 }));
    let plan = c.render(true, None);
    assert_eq!(plan.len(), 3);
    let mut indexes = Vec::new();
    for command in &plan[..2] {
        if let RenderCommand::ClosingWindow { index, view_rect } = command {
            indexes.push(*index);
            assert_eq!(at(view_rect.loc), (0., 0.));
            assert_eq!(value(view_rect.size.w), 1280.);
            assert_eq!(value(view_rect.size.h), 720.);
        }
    }
    assert_eq!(indexes, vec![1, 0]);
    assert!(matches!(plan[2], RenderCommand::Tile { index: 0, .. }));
    let handles: Vec<u64> = c.closing_windows().iter().map(|w| w.handle).collect();
    assert_eq!(handles, vec![70, 71]);
}

#[test]
fn the_overview_scales_tiles_and_leaves_closing_windows_out() {
    let mut c = scaled(2.);
    c.add_tile(tile(1, 100., 100.), point(100., 200.));
    c.add_closing_window(Some(ClosingWindow { handle: 7 }));
    let fit = OverviewFit { view_pos: point(-10., 20.), scale: f(0.3) };
    let plan = c.render(true, Some(fit));
    assert_eq!(plan.len(), 1);
    match plan[0] {
        RenderCommand::TileScaled { index, pos, focus_ring, anchor, scale } => {
            assert_eq!(index, 0);
            // 110 * 0.3 = 33 and 180 * 0.3 = 54, on half pixels.
            assert_eq!(at(pos), (33., 54.));
            assert_eq!(anchor, PhysicalPoint { x: 66, y: 108 });
            assert!(focus_ring);
            assert_eq!(value(scale), 0.3);
        }
        _ => panic!("not scaled"),
    }
    assert!(matches!(
        c.render(false, Some(fit))[0],
        RenderCommand::TileScaled { focus_ring: false, .. }
    ));
}

#[test]
fn the_overview_leaves_the_canvas_alone() {
    let mut c = canvas();
    c.add_tile(tile(1, 3000., 100.), point(5., 5.));
    let fit = c.overview_fit();
    assert!(fit.is_some());
    assert_eq!(c.render(true, fit).len(), 1);
    assert_eq!(at(c.view_pos()), (0., 0.));
    assert_eq!(at(c.tiles()[0].canvas_pos), (5., 5.));
}

#[test]
fn an_empty_canvas_draws_nothing() {
    assert!(canvas().render(true, None).is_empty());
    assert!(canvas().update_render_elements(true).is_empty());
    assert!(canvas().window_under(point(0., 0.), None, inside).is_none());
}

#[test]
fn tiles_are_told_where_the_view_is() {
    let mut c = canvas();
    c.add_tile(tile(1, 10., 10.), point(100., 50.));
    c.add_tile(tile(2, 10., 10.), point(-20., 30.));
    c.set_view_pos(point(10., 5.));
    let updates = c.update_render_elements(true);
    assert_eq!(updates.len(), 2);
    assert_eq!(at(updates[0].view_rect.loc), (-90., -45.));
    assert_eq!(at(updates[1].view_rect.loc), (30., -25.));
    assert_eq!(value(updates[0].view_rect.size.w), 1280.);
    assert!(!updates[0].is_active);
    assert!(updates[1].is_active);
    assert!(!c.update_render_elements(false)[1].is_active);
}

#[test]
fn later_tiles_are_hit_first() {
    let mut c = canvas();
    c.add_tile(tile(1, 100., 100.), point(0., 0.));
    c.add_tile(tile(2, 100., 100.), point(50., 50.));
    let hit = |x, y| c.window_under(point(x, y), None, inside).map(|(w, h)| (w.id, h));
    assert_eq!(hit(60., 70.), Some((2, (10., 20.))));
    assert_eq!(hit(10., 10.), Some((1, (10., 10.))));
    assert_eq!(hit(120., 20.), None);
}

#[test]
fn hits_follow_the_camera_and_the_pixels() {
    let mut c = scaled(2.);
    let mut t = tile(1, 100., 100.);
    t.render_offset = point(0.3, 0.);
    c.add_tile(t, point(200., 10.));
    c.set_view_pos(point(150., 0.));
    let (tile_at, hit) = {
        let drawn = tiles_drawn(&c.render(false, None))[0].1;
        (drawn, c.window_under(point(60., 20.), None, inside).map(|(w, h)| (w.id, h)))
    };
    assert_eq!(tile_at, (50.5, 10.));
    assert_eq!(hit, Some((1, (9.5, 10.))));
}

#[test]
fn hits_in_the_overview_are_scaled_back() {
    let mut c = canvas();
    c.add_tile(tile(1, 100., 100.), point(100., 200.));
    let fit = OverviewFit { view_pos: point(0., 0.), scale: f(0.5) };
    let hit = |x, y| c.window_under(point(x, y), Some(fit), inside).map(|(w, h)| (w.id, h));
    assert_eq!(hit(60., 110.), Some((1, (20., 20.))));
    assert_eq!(hit(99.5, 149.5), Some((1, (99., 99.))));
    assert_eq!(hit(100., 150.), None);
    assert_eq!(hit(110., 210.), None);
}

#[test]
fn hits_in_the_overview_follow_the_drawn_pixels() {
    let mut c = scaled(1.);
    c.add_tile(tile(1, 100., 100.), point(101.6, 0.));
    let fit = OverviewFit { view_pos: point(0., 0.), scale: f(0.5) };
    // 101.6 * 0.5 = 50.8, drawn from 51 to 101.
    match c.render(true, Some(fit))[0] {
        RenderCommand::TileScaled { pos, .. } => assert_eq!(at(pos), (51., 0.)),
        _ => panic!("not scaled"),
    }
    let hit = |x, y| c.window_under(point(x, y), Some(fit), inside).map(|(w, h)| (w.id, h));
    assert_eq!(hit(50.9, 10.), None);
    assert_eq!(hit(51., 10.), Some((1, (0., 20.))));
    assert_eq!(hit(100.9, 10.).map(|h| h.0), Some(1));
    assert_eq!(hit(101., 10.), None);
}

#[test]
fn the_hit_box_in_the_overview_ends_where_the_drawn_tile_does() {
    let mut c = scaled(1.);
    c.add_tile(tile(1, 120., 72.), point(402.3, 81.));
    let fit = OverviewFit { view_pos: point(0., 0.), scale: f(0.25) };
    // Drawn from (101, 20) for 30 by 18.
    match c.render(true, Some(fit))[0] {
        RenderCommand::TileScaled { pos, .. } => assert_eq!(at(pos), (101., 20.)),
        _ => panic!("not scaled"),
    }
    for step in 0..2000 {
        let (x, y) = (95. + step as f64 / 32., 15. + step as f64 / 64.);
        let hit = |x, y| c.window_under(point(x, y), Some(fit), inside).is_some();
        assert_eq!(hit(x, 30.), (101. ..131.).contains(&x));
        assert_eq!(hit(110., y), (20. ..38.).contains(&y));
    }
}

#[test]
fn a_captured_window_closes_once() {
    let mut c = scaled(2.);
    let mut t = tile(1, 100., 80.);
    t.unmap_snapshot = Some(TileRenderSnapshot { handle: 5 });
    t.render_offset = point(0.1, 0.);
    c.add_tile(t, point(30., 40.));
    c.set_view_pos(point(10., 10.));
    let blocker = TransactionBlocker::Pending(9);
    match c.start_close_animation_for_window(1, blocker) {
        Some(closing) => {
            assert_eq!(closing.snapshot, TileRenderSnapshot { handle: 5 });
            assert_eq!(value(closing.scale), 2.);
            assert_eq!(value(closing.tile_size.w), 100.);
            assert_eq!(value(closing.tile_size.h), 80.);
            assert_eq!(at(closing.tile_pos), (20. + 0.1, 30.));
            assert_eq!(closing.blocker, blocker);
            assert_eq!(value(closing.anim.from), 0.);
            assert_eq!(value(closing.anim.to), 1.);
            assert_eq!(value(closing.anim.initial_velocity), 0.);
            assert_eq!(value(closing.anim.value), 0.);
            assert_eq!(closing.anim.config, AnimationConfig { handle: 2 });
        }
        None => panic!("not closing"),
    }
    assert_eq!(c.tiles()[0].unmap_snapshot, None);
    assert!(c.start_close_animation_for_window(1, blocker).is_none());
    assert!(c.start_close_animation_for_window(2, blocker).is_none());
    assert_eq!(c.len(), 1);
    assert!(c.closing_windows().is_empty());
}

#[test]
fn windows_do_not_wait_where_transactions_are_off() {
    let mut c = canvas();
    let off = Options { disable_transactions: true, ..options() };
    c.update_config(c.view_size(), c.working_area(), c.scale(), off);
    let closing = c.start_close_animation_for_tile(
        TileRenderSnapshot { handle: 1 },
        size(1., 2.),
        point(3., 4.),
        TransactionBlocker::Pending(9),
    );
    assert_eq!(closing.blocker, TransactionBlocker::Completed);
    assert_eq!(at(closing.tile_pos), (3., 4.));
}

#[test]
fn closing_windows_stay_while_they_run() {
    let mut c = canvas();
    for handle in 1..5 {
        c.add_closing_window(Some(ClosingWindow { handle }));
    }
    assert!(c.are_animations_ongoing());
    assert!(c.are_transitions_ongoing());
    let still = AnimationSample { value: f(0.), is_done: false };
    c.advance_animations(still, still, &[], &[true, false, true, false]);
    let handles: Vec<u64> = c.closing_windows().iter().map(|w| w.handle).collect();
    assert_eq!(handles, vec![1, 3]);
    c.advance_animations(still, still, &[], &[false, false]);
    assert!(c.closing_windows().is_empty());
    assert!(!c.are_animations_ongoing());
}

#[test]
fn rounding_twice_is_rounding_once() {
    for scale in [1., 1.25, 1.5, 1.7, 2., 3.3] {
        for step in -2000..2000 {
            let p = point(step as f64 * 0.37, step as f64 * -1.013);
            let once = p.snap(f(scale));
            let twice = once.snap(f(scale));
            assert_eq!(at(once), at(twice));
            assert_eq!(p.to_physical(f(scale)), once.to_physical(f(scale)));
        }
    }
}

#[test]
fn points_scale_and_snap_by_coordinate() {
    assert_eq!(at(point(1., 2.).add(point(0.5, -3.))), (1.5, -1.));
    assert_eq!(at(point(1., 2.).sub(point(0.5, -3.))), (0.5, 5.));
    assert_eq!(at(point(1., -2.).upscale(f(1.5))), (1.5, -3.));
    assert_eq!(at(point(3., -6.).downscale(f(1.5))), (2., -4.));
    assert_eq!(at(point(1.3, -1.3).snap(f(2.))), (1.5, -1.5));
    assert_eq!(point(1.3, -1.3).to_physical(f(2.)), PhysicalPoint { x: 3, y: -3 });
    let far = point(1e300, -1e300).to_physical(f(2.));
    assert_eq!(far, PhysicalPoint { x: i32::MAX, y: i32::MIN });
}

#[test]
fn the_screen_keeps_the_order_of_tiles() {
    let view = point(17.3, -900.1);
    let mut last = at(CanvasSpace::<WindowRecord>::canvas_to_screen_base(
        point(-1000.7, -1000.7),
        view,
    ));
    for step in -999..1000 {
        let here = at(CanvasSpace::<WindowRecord>::canvas_to_screen_base(
            point(step as f64 + 0.3, step as f64 + 0.3),
            view,
        ));
        assert!(last.0 <= here.0 && last.1 <= here.1);
        last = here;
    }
    assert_eq!(at(CanvasSpace::<WindowRecord>::canvas_to_screen_base(view, view)), (0., 0.));
}
