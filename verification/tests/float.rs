use canvas_space::float::Float;

fn float(x: f64) -> Float {
    Float { bits: x.to_bits() }
}

fn native(x: Float) -> f64 {
    f64::from_bits(x.bits)
}

fn assert_same(ours: Float, theirs: f64, what: &str, a: f64, b: f64) {
    if theirs.is_nan() {
        assert!(ours.is_nan(), "{} of {:e} and {:e}", what, a, b);
    } else {
        assert_eq!(ours.bits, theirs.to_bits(), "{} of {:e} and {:e}", what, a, b);
    }
}

fn check_pair(a: f64, b: f64) {
    let (x, y) = (float(a), float(b));
    assert_same(x.add(y), a + b, "sum", a, b);
    assert_same(x.sub(y), a - b, "difference", a, b);
    assert_same(x.mul(y), a * b, "product", a, b);
    assert_same(x.div(y), a / b, "quotient", a, b);
    assert_eq!(x.lt(y), a < b, "{:e} < {:e}", a, b);
    assert_eq!(x.same(y), a == b, "{:e} == {:e}", a, b);
    let (larger, smaller) = (native(x.max(y)), native(x.min(y)));
    if !(a == 0. && b == 0.) {
        assert_same(x.max(y), a.max(b), "maximum", a, b);
        assert_same(x.min(y), a.min(b), "minimum", a, b);
    } else {
        assert_eq!((larger, smaller), (0., 0.));
    }
}

fn check_one(a: f64) {
    let x = float(a);
    assert_same(x.round(), a.round(), "rounding", a, a);
    assert_same(x.neg(), -a, "negation", a, a);
    assert_same(x.abs(), a.abs(), "absolute value", a, a);
    assert_eq!(x.to_i32(), a as i32, "whole part of {:e}", a);
    assert_eq!(x.is_nan(), a.is_nan());
    assert_eq!(x.is_finite(), a.is_finite());
    assert_same(
        x.clamp(float(-2.5), float(1e5)),
        a.clamp(-2.5, 1e5),
        "clamping",
        a,
        a,
    );
}

fn corner_cases() -> Vec<f64> {
    vec![
        0.,
        -0.,
        1.,
        -1.,
        0.5,
        -0.5,
        0.49999999999999994,
        1.5,
        2.5,
        -2.5,
        3.,
        1. / 3.,
        0.1,
        1e-3,
        100.,
        1e16,
        9007199254740991.,
        9007199254740992.,
        9007199254740993.,
        4503599627370496.5,
        4503599627370495.5,
        2147483647.,
        2147483648.,
        -2147483648.,
        -2147483649.,
        2147483647.5,
        f64::MAX,
        f64::MIN,
        f64::MIN_POSITIVE,
        f64::MIN_POSITIVE / 2.,
        f64::EPSILON,
        5e-324,
        -5e-324,
        1e-310,
        8.98846567431158e307,
        1e308,
        f64::INFINITY,
        f64::NEG_INFINITY,
        f64::NAN,
        f64::from_bits(0x000f_ffff_ffff_ffff),
        f64::from_bits(0x0010_0000_0000_0001),
        f64::from_bits(0x3fef_ffff_ffff_ffff),
        f64::from_bits(0x3ff0_0000_0000_0001),
        f64::from_bits(0xfff8_0000_0000_0001),
    ]
}

struct Draws(u64);

impl Draws {
    fn next(&mut self) -> u64 {
        self.0 ^= self.0 << 13;
        self.0 ^= self.0 >> 7;
        self.0 ^= self.0 << 17;
        self.0
    }
}

#[test]
fn corner_cases_agree_with_the_hardware() {
    for &a in &corner_cases() {
        check_one(a);
        for &b in &corner_cases() {
            check_pair(a, b);
        }
    }
}

#[test]
fn any_patterns_agree_with_the_hardware() {
    let mut draws = Draws(0x9e37_79b9_7f4a_7c15);
    for _ in 0..40_000 {
        let a = f64::from_bits(draws.next());
        let b = f64::from_bits(draws.next());
        check_one(a);
        check_pair(a, b);
    }
}

#[test]
fn layout_sized_values_agree_with_the_hardware() {
    let mut draws = Draws(0x0123_4567_89ab_cdef);
    for _ in 0..40_000 {
        let a = (draws.next() % 4_000_000) as f64 / 512. - 3_900.;
        let b = (draws.next() % 1_000_000) as f64 / 1_000. - 480.;
        check_one(a);
        check_pair(a, b);
    }
}

#[test]
fn nearby_exponents_agree_with_the_hardware() {
    let mut draws = Draws(0xfeed_beef_dead_c0de);
    for _ in 0..40_000 {
        let bits = draws.next();
        let shift = draws.next() % 140;
        let a = f64::from_bits(bits & 0x800f_ffff_ffff_ffff | 0x3ff0_0000_0000_0000);
        let b = f64::from_bits(
            draws.next() & 0x800f_ffff_ffff_ffff | ((1023 - 70 + shift) << 52),
        );
        check_one(b);
        check_pair(a, b);
        let tiny = f64::from_bits(bits >> 12);
        check_one(tiny);
        check_pair(tiny, b);
        check_pair(b, tiny);
    }
}

#[test]
fn whole_numbers_convert_exactly() {
    for i in [0, 1, -1, 2, 32, 50, 100, 1000, 10000, 100000, i32::MAX, i32::MIN, -77] {
        assert_eq!(Float::from_i32(i).bits, f64::from(i).to_bits());
        assert_eq!(Float::from_i32(i).to_i32(), i);
    }
}
