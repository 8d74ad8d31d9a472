use canvas_space::canvas_space::CanvasSpace;
use canvas_space::float::Float;
use canvas_space::geometry::Point;
use canvas_space::pan_camera_grab::{ButtonState, PanCameraGrab};
use canvas_space::tile::WindowRecord;

fn point(x: f64, y: f64) -> Point {
    Point { x: Float { bits: x.to_bits() }, y: Float { bits: y.to_bits() } }
}

fn at(p: Point) -> (f64, f64) {
    (f64::from_bits(p.x.bits), f64::from_bits(p.y.bits))
}

#[test]
fn motion_gives_the_delta_since_the_last_one() {
    let mut grab = PanCameraGrab::new(point(10., 20.), 0x110);
    assert_eq!(grab.motion(point(13., 16.5)).map(at), Some((3., -3.5)));
    assert_eq!(grab.motion(point(13., 17.)).map(at), Some((0., 0.5)));
    assert_eq!(grab.motion(point(12., 17.)).map(at), Some((-1., 0.)));
    assert_eq!(at(grab.start_location()), (10., 20.));
}

#[test]
fn a_pointer_that_stays_pans_nothing() {
    let mut grab = PanCameraGrab::new(point(10., 20.), 0x110);
    assert!(grab.motion(point(10., 20.)).is_none());
    assert!(grab.motion(point(11., 20.)).is_some());
    assert!(grab.motion(point(11., 20.)).is_none());
}

#[test]
fn deltas_add_up() {
    let mut grab = PanCameraGrab::new(point(1., 2.), 1);
    let (mut x, mut y) = (0., 0.);
    for (px, py) in [(4., 4.), (4., 4.), (-8.5, 100.), (30., 7.25)] {
        if let Some(delta) = grab.motion(point(px, py)) {
            x += at(delta).0;
            y += at(delta).1;
        }
    }
    assert_eq!((x, y), (29., 5.25));
}

#[test]
fn a_delta_that_is_not_a_number_is_handed_on() {
    let mut grab = PanCameraGrab::new(point(1., 2.), 1);
    assert!(grab.motion(point(f64::NAN, 2.)).is_some());
    assert!(grab.motion(point(1., 2.)).is_some());
    assert!(grab.motion(point(1., 2.)).is_none());
}

#[test]
fn only_the_release_of_its_own_button_ends_the_grab() {
    let grab = PanCameraGrab::new(point(0., 0.), 0x112);
    assert!(grab.button(0x112, ButtonState::Released));
    assert!(!grab.button(0x112, ButtonState::Pressed));
    assert!(!grab.button(0x110, ButtonState::Released));
    assert!(!grab.button(0x110, ButtonState::Pressed));
}

#[test]
fn the_point_under_the_pointer_stays() {
    let mut grab = PanCameraGrab::new(point(100., 50.), 1);
    let (canvas, view) = (point(340., -20.), point(240., -70.));
    let before = CanvasSpace::<WindowRecord>::canvas_to_screen_base(canvas, view);
    assert_eq!(at(before), (100., 50.));
    if let Some(delta) = grab.motion(point(130.5, 20.)) {
        let after = CanvasSpace::<WindowRecord>::canvas_to_screen_base(canvas, view.sub(delta));
        assert_eq!(at(after), (130.5, 20.));
    } else {
        panic!("did not move");
    }
}
