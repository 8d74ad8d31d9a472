use canvas_space::camera::AnimationConfig;
use canvas_space::canvas_space::CanvasSpace;
use canvas_space::float::Float;
use canvas_space::geometry::{Point, Rectangle, Size, WindowSize};
use canvas_space::tile::{Options, Tile, WindowRecord};

fn f(v: f64) -> Float {
    Float { bits: v.to_bits() }
}

fn value(v: Float) -> f64 {
    f64::from_bits(v.bits)
}

fn point(x: f64, y: f64) -> Point {
    Point { x: f(x), y: f(y) }
}

fn size(w: f64, h: f64) -> Size {
    Size { w: f(w), h: f(h) }
}

fn at(p: Point) -> (f64, f64) {
    (value(p.x), value(p.y))
}

fn options() -> Options {
    Options {
        handle: 7,
        disable_transactions: false,
        horizontal_view_movement: AnimationConfig { handle: 1 },
        window_close: AnimationConfig { handle: 2 },
    }
}

fn window(id: u64) -> WindowRecord {
    WindowRecord {
        id,
        size: WindowSize { w: 100, h: 80 },
        expected_size: None,
        min_size: WindowSize { w: 0, h: 0 },
        max_size: WindowSize { w: 0, h: 0 },
        requests: Vec::new(),
        last_commit: None,
    }
}

fn tile(id: u64, w: f64, h: f64) -> Tile<WindowRecord> {
    Tile {
        window: window(id),
        canvas_pos: point(0., 0.),
        tile_size: size(w, h),
        expected_or_current_size: size(w, h),
        window_size: size(w, h),
        frame: size(0., 0.),
        render_offset: point(0., 0.),
        unmap_snapshot: None,
        animations_ongoing: false,
        transitions_ongoing: false,
        is_valid: true,
        view_size: size(1280., 720.),
        scale: f(1.),
        options: options(),
    }
}

fn canvas() -> CanvasSpace<WindowRecord> {
    let area = Rectangle { loc: point(0., 20.), size: size(1280., 700.) };
    CanvasSpace::new(size(1280., 720.), area, f(1.), options())
}

fn viewed(w: f64, h: f64) -> CanvasSpace<WindowRecord> {
    let area = Rectangle { loc: point(0., 0.), size: size(w, h) };
    CanvasSpace::new(size(w, h), area, f(1.), options())
}

fn bounds(c: &CanvasSpace<WindowRecord>) -> Option<(f64, f64, f64, f64)> {
    c.content_bounds().map(|r| {
        (value(r.loc.x), value(r.loc.y), value(r.size.w), value(r.size.h))
    })
}

fn fit(c: &CanvasSpace<WindowRecord>) -> Option<(f64, f64, f64)> {
    c.overview_fit().map(|o| (value(o.view_pos.x), value(o.view_pos.y), value(o.scale)))
}

#[test]
fn bounds_of_nothing() {
    assert_eq!(bounds(&canvas()), None);
    assert_eq!(fit(&canvas()), None);
}

#[test]
fn bounds_of_one_tile_are_the_tile() {
    let mut c = canvas();
    c.add_tile(tile(1, 100., 80.), point(-7.5, 12.));
    assert_eq!(bounds(&c), Some((-7.5, 12., 100., 80.)));
}

#[test]
fn bounds_reach_around_all_tiles() {
    let mut c = canvas();
    c.add_tile(tile(1, 100., 80.), point(0., 0.));
    c.add_tile(tile(2, 10., 10.), point(-50., 300.));
    c.add_tile(tile(3, 700., 5.), point(20., -10.));
    assert_eq!(bounds(&c), Some((-50., -10., 770., 320.)));
    assert!(c.remove_tile(3).is_some());
    assert_eq!(bounds(&c), Some((-50., 0., 150., 310.)));
}

#[test]
fn bounds_pass_over_what_is_not_a_number() {
    let mut c = canvas();
    c.add_tile(tile(1, 100., 80.), point(0., 0.));
    c.add_tile(tile(2, 10., 10.), point(f64::NAN, 300.));
    assert_eq!(bounds(&c), Some((0., 0., 100., 310.)));
}

#[test]
fn an_overview_shrinks_wide_content_into_the_view() {
    let mut c = viewed(1000., 500.);
    c.add_tile(tile(1, 1936., 100.), point(100., 200.));
    // 1000 / (1936 + 64) = 0.5, centered on (1068, 250).
    assert_eq!(fit(&c), Some((68., -250., 0.5)));
}

#[test]
fn an_overview_shrinks_high_content_into_the_view() {
    let mut c = viewed(1000., 500.);
    c.add_tile(tile(1, 100., 1936.), point(0., 0.));
    assert_eq!(fit(&c), Some((50. - 2000., 968. - 1000., 0.25)));
}

#[test]
fn the_overview_is_what_the_machine_computes() {
    let (vw, vh): (f64, f64) = (1366., 768.);
    let mut c = viewed(vw, vh);
    c.add_tile(tile(1, 640.3, 480.7), point(-3000.1, 17.2));
    c.add_tile(tile(2, 801.9, 600.1), point(2500.6, -911.3));
    let (min_x, min_y): (f64, f64) = (-3000.1, -911.3);
    let (w, h): (f64, f64) = (2500.6 + 801.9 - min_x, 17.2 + 480.7 - min_y);
    let scale = (vw / (w + 64.)).min(vh / (h + 64.)).clamp(1e-3, 1.0);
    let x = min_x + w / 2. - vw / (2. * scale);
    let y = min_y + h / 2. - vh / (2. * scale);
    assert_eq!(fit(&c), Some((x, y, scale)));
    assert!(scale < 1.);
}

#[test]
fn content_that_fits_needs_no_overview() {
    let mut c = viewed(1000., 500.);
    c.add_tile(tile(1, 100., 100.), point(5000., 5000.));
    assert_eq!(fit(&c), None);
    // With its margin of 32 on each side it fits exactly.
    let mut c = viewed(1000., 500.);
    c.add_tile(tile(1, 936., 436.), point(0., 0.));
    assert_eq!(fit(&c), None);
    let mut c = viewed(1000., 500.);
    c.add_tile(tile(1, 937., 436.), point(0., 0.));
    assert_eq!(fit(&c).map(|o| o.2), Some(1000. / 1001.));
}

#[test]
fn a_view_without_area_has_no_overview() {
    for (w, h) in [(0., 500.), (1000., 0.), (-1., 500.), (f64::NAN, 500.), (1000., f64::NAN)] {
        let mut c = viewed(w, h);
        c.add_tile(tile(1, 5000., 5000.), point(0., 0.));
        assert_eq!(fit(&c), None);
    }
}

#[test]
fn the_least_scale_is_a_thousandth() {
    let mut c = viewed(1000., 500.);
    c.add_tile(tile(1, 1e12, 10.), point(0., 0.));
    assert_eq!(fit(&c).map(|o| o.2), Some(1e-3));
}

#[test]
fn the_overview_shows_every_tile() {
    let mut seed: u64 = 7;
    let mut next = |span: f64| {
        seed = seed.wrapping_mul(6364136223846793005).wrapping_add(1442695040888963407);
        ((seed >> 11) as f64 / (1u64 << 53) as f64) * span
    };
    for _ in 0..200 {
        let (vw, vh) = (300. + next(3000.), 200. + next(2000.));
        let mut c = viewed(vw, vh);
        for id in 0..5 {
            let (w, h) = (1. + next(2000.), 1. + next(2000.));
            c.add_tile(tile(id, w, h), point(next(20000.) - 10000., next(20000.) - 10000.));
        }
        let (x, y, scale) = match fit(&c) {
            Some(fit) => fit,
            None => continue,
        };
        assert!(scale > 1e-3 && scale < 1.);
        for t in c.tiles() {
            let (left, top) = at(t.canvas_pos);
            assert!(x <= left && y <= top);
            assert!((left + value(t.tile_size.w) - x) * scale <= vw);
            assert!((top + value(t.tile_size.h) - y) * scale <= vh);
        }
    }
}

#[test]
fn the_overview_is_centered() {
    let mut c = viewed(1000., 500.);
    c.add_tile(tile(1, 1936., 100.), point(100., 200.));
    let (x, y, scale) = match fit(&c) {
        Some(fit) => fit,
        None => panic!("no overview"),
    };
    assert_eq!(x + 1000. / (2. * scale), 1068.);
    assert_eq!(y + 500. / (2. * scale), 250.);
}
