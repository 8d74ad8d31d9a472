//! Positions on physical pixels.

use crate::float::{distance, lemma_unit_is_large, signed, Float, UNIT_EXPONENT};
use crate::geometry::snapped;
use crate::rounding::{
    lemma_magnitude_increases, lemma_nearest_exists, lemma_nearest_is_monotone, lemma_representable,
    lemma_rounding_error, magnitude, nearest, IMPLICIT, INFINITY,
};
use vstd::arithmetic::power2::{
    lemma_pow2_adds, lemma_pow2_pos, lemma_pow2_strictly_increases, pow2,
};
use vstd::prelude::*;

verus! {

/// The largest physical pixel at which rounding is known to be stable.
pub const LAST_PIXEL: i64 = 0x1_0000_0000_0000;

/// A coordinate that was put on a pixel stays on it: it is on that same pixel when it is scaled
/// again, so that rounding twice is rounding once.
pub proof fn law_snapping_is_stable(v: Float, scale: Float)
    requires
        scale.spec_is_finite(),
        0 < scale.units(),
        v.spec_mul(scale).spec_is_finite(),
        distance(v.spec_mul(scale).units()) <= LAST_PIXEL * pow2(UNIT_EXPONENT as nat),
        snapped(v, scale).spec_is_finite(),
    ensures
        snapped(v, scale).spec_mul(scale).spec_round() == v.spec_mul(scale).spec_round(),
        snapped(snapped(v, scale), scale) == snapped(v, scale),
{
    let one = pow2(UNIT_EXPONENT as nat);
    let product = v.spec_mul(scale);
    let pixel = product.spec_round();
    let m = magnitude(product.pattern());
    let k = (2 * m + one) / (2 * one);
    lemma_pow2_pos(UNIT_EXPONENT as nat);
    assert(magnitude(0) == 0);
    vstd::arithmetic::div_mod::lemma_fundamental_div_mod((2 * m + one) as int, (2 * one) as int);
    assert(k <= LAST_PIXEL) by (nonlinear_arith)
        requires
            2 * m + one == (2 * one) * k + (2 * m + one) % (2 * one),
            0 <= (2 * m + one) % (2 * one),
            m <= LAST_PIXEL * one,
            one > 0,
    ;
    let p = lemma_representable(k, UNIT_EXPONENT as nat);
    assert(pixel == signed(product.is_negative(), p));
    let d = magnitude(scale.pattern());
    let back = pixel.spec_div(scale);
    assert(back == snapped(v, scale));
    let q = nearest((k * one) * one, d);
    lemma_nearest_exists((k * one) * one, d);
    assert(back == signed(product.is_negative(), q));
    lemma_rounding_error((k * one) * one, d);
    let w = magnitude(q);
    lemma_scale_is_small(scale);
    lemma_back_and_forth(k as int, one as int, d as int, w as int);
    let again = back.spec_mul(scale);
    let top = lemma_representable(2 * LAST_PIXEL as nat + 2, UNIT_EXPONENT as nat);
    let n = w * d;
    assert(n * 1 <= ((2 * LAST_PIXEL as nat + 2) * one) * one) by (nonlinear_arith)
        requires
            n == w * d,
            16 * (w * d - k * one * one) <= 2 * (one * one),
            0 <= k <= LAST_PIXEL,
            one > 0,
    ;
    lemma_nearest_is_monotone(n, one, (2 * LAST_PIXEL as nat + 2) * one, 1);
    lemma_rounding_error(n, one);
    let z = magnitude(nearest(n, one));
    lemma_unit_is_large();
    lemma_same_pixel(k as int, one as int, n as int, z as int);
    assert(again == signed(product.is_negative(), nearest(n, one)));
    vstd::arithmetic::div_mod::lemma_fundamental_div_mod_converse(
        (2 * z + one) as int,
        (2 * one) as int,
        k as int,
        2 * z + one - (2 * one) * k,
    );
}

/// No scale of the format is more than a small part of the square of the units of one.
proof fn lemma_scale_is_small(scale: Float)
    requires
        scale.spec_is_finite(),
    ensures
        4096 * magnitude(scale.pattern()) <= pow2(UNIT_EXPONENT as nat) * pow2(
            UNIT_EXPONENT as nat,
        ),
{
    let one = pow2(UNIT_EXPONENT as nat);
    lemma_magnitude_increases(scale.pattern(), INFINITY as nat);
    assert(magnitude(INFINITY as nat) == IMPLICIT * pow2(2046));
    lemma_pow2_adds(UNIT_EXPONENT as nat, UNIT_EXPONENT as nat);
    lemma_pow2_adds(102, 2046);
    vstd::arithmetic::power2::lemma2_to64();
    lemma_pow2_strictly_increases(64, 102);
    lemma_pow2_pos(2046);
    assert(4096 * (IMPLICIT * pow2(2046)) <= pow2(102) * pow2(2046)) by (nonlinear_arith)
        requires
            pow2(102) >= 0x1_0000_0000_0000_0000,
            pow2(2046) > 0,
    ;
}

/// A whole number of pixels divided by a scale and multiplied by it again, before rounding.
proof fn lemma_back_and_forth(k: int, one: int, d: int, w: int)
    requires
        0 <= k <= LAST_PIXEL,
        0 < one,
        0 < d,
        0 <= w,
        4096 * d <= one * one,
        2 * IMPLICIT * (d * w - k * one * one) <= d * (w + IMPLICIT),
        2 * IMPLICIT * (k * one * one - d * w) <= d * (w + IMPLICIT),
    ensures
        16 * (w * d - k * one * one) <= 2 * (one * one),
        16 * (k * one * one - w * d) <= 2 * (one * one),
{
    let square = one * one;
    let x = w * d;
    let target = k * one * one;
    assert(target <= LAST_PIXEL * square) by (nonlinear_arith)
        requires
            target == k * one * one,
            square == one * one,
            0 <= k <= LAST_PIXEL,
            one > 0,
    ;
    assert(d * w == x && d * (w + IMPLICIT) == x + IMPLICIT * d) by (nonlinear_arith)
        requires
            x == w * d,
    ;
    assert(16 * (x - target) <= 2 * square && 16 * (target - x) <= 2 * square) by (nonlinear_arith)
        requires
            2 * IMPLICIT * (x - target) <= x + IMPLICIT * d,
            2 * IMPLICIT * (target - x) <= x + IMPLICIT * d,
            4096 * d <= square,
            target <= LAST_PIXEL * square,
            square > 0,
    ;
}

/// What rounds to a number within a small part of a pixel from `k` pixels is on that pixel.
proof fn lemma_same_pixel(k: int, one: int, n: int, z: int)
    requires
        0 <= k <= LAST_PIXEL,
        one >= 1000,
        0 <= n,
        0 <= z,
        16 * (n - k * one * one) <= 2 * (one * one),
        16 * (k * one * one - n) <= 2 * (one * one),
        2 * IMPLICIT * (one * z - n) <= one * (z + IMPLICIT),
        2 * IMPLICIT * (n - one * z) <= one * (z + IMPLICIT),
    ensures
        0 <= 2 * z + one - (2 * one) * k < 2 * one,
{
    let square = one * one;
    let target = k * one * one;
    let x = one * z;
    assert(target <= LAST_PIXEL * square && 1000 * one <= square) by (nonlinear_arith)
        requires
            target == k * one * one,
            square == one * one,
            0 <= k <= LAST_PIXEL,
            one >= 1000,
    ;
    assert(one * (z + IMPLICIT) == x + IMPLICIT * one) by (nonlinear_arith)
        requires
            x == one * z,
    ;
    assert(4 * (x - target) < square && 4 * (target - x) < square) by (nonlinear_arith)
        requires
            2 * IMPLICIT * (x - n) <= x + IMPLICIT * one,
            2 * IMPLICIT * (n - x) <= x + IMPLICIT * one,
            16 * (n - target) <= 2 * square,
            16 * (target - n) <= 2 * square,
            1000 * one <= square,
            target <= LAST_PIXEL * square,
            square > 0,
    ;
    assert(4 * (z - k * one) < one && 4 * (k * one - z) < one) by (nonlinear_arith)
        requires
            4 * (one * z - k * one * one) < one * one,
            4 * (k * one * one - one * z) < one * one,
            one > 0,
    ;
    assert((2 * one) * k == 2 * (k * one)) by (nonlinear_arith);
}

} // verus!
