//! What arithmetic on numbers gives, in terms of the numbers that they stand for.

use crate::float::{
    distance, lemma_add_finite, lemma_neg, lemma_round_near, lemma_whole, Float, UNIT_EXPONENT,
};
use crate::rounding::{
    lemma_magnitude_increases, lemma_nearest_exists, lemma_nearest_zero, magnitude,
    nearest, IMPLICIT, INFINITY,
};
use vstd::arithmetic::power2::{lemma_pow2_pos, pow2};
use vstd::prelude::*;

verus! {

// --- rounding ---

/// No pattern is nearer than the nearest one, and where another is as near, the nearest is even.
proof fn lemma_none_is_nearer(n: nat, d: nat, q: nat)
    requires
        d > 0,
    ensures
        distance(d * magnitude(nearest(n, d)) - n) <= distance(d * magnitude(q) - n) || q
            > INFINITY,
        q <= INFINITY && q != nearest(n, d) && distance(d * magnitude(nearest(n, d)) - n)
            == distance(d * magnitude(q) - n) ==> nearest(n, d) % 2 == 0,
{
    lemma_nearest_exists(n, d);
    let p = nearest(n, d);
    let m = magnitude(p) as int;
    let k = magnitude(q) as int;
    if q < p {
        let below = magnitude((p - 1) as nat) as int;
        lemma_magnitude_increases((p - 1) as nat, p);
        if q < p - 1 {
            lemma_magnitude_increases(q, (p - 1) as nat);
        }
        lemma_below(n as int, d as int, m, below, k);
    } else if p < q <= INFINITY {
        let above = magnitude(p + 1) as int;
        lemma_magnitude_increases(p, p + 1);
        if p + 1 < q {
            lemma_magnitude_increases(p + 1, q);
        }
        lemma_above(n as int, d as int, m, above, k);
    }
}

/// What lies at or below the neighbour below is no nearer.
proof fn lemma_below(n: int, d: int, m: int, below: int, k: int)
    requires
        d > 0,
        k <= below < m,
        d * (below + m) <= 2 * n,
    ensures
        distance(d * m - n) <= distance(d * k - n),
        distance(d * m - n) == distance(d * k - n) ==> d * (below + m) == 2 * n,
{
    assert(d * (below + m) == d * below + d * m) by (nonlinear_arith);
    assert(d * k <= d * below && d * below < d * m) by (nonlinear_arith)
        requires
            d > 0,
            k <= below < m,
    ;
}

/// What lies at or above the neighbour above is no nearer.
proof fn lemma_above(n: int, d: int, m: int, above: int, k: int)
    requires
        d > 0,
        m < above <= k,
        2 * n <= d * (m + above),
    ensures
        distance(d * m - n) <= distance(d * k - n),
        distance(d * m - n) == distance(d * k - n) ==> d * (m + above) == 2 * n,
{
    assert(d * (m + above) == d * m + d * above) by (nonlinear_arith);
    assert(d * above <= d * k && d * m < d * above) by (nonlinear_arith)
        requires
            d > 0,
            m < above <= k,
    ;
}

/// The same with signs: `r` is the rounded `n / d` on the side of `negative`, and `q` any number.
proof fn lemma_none_is_nearer_signed(negative: bool, n: nat, d: nat, r: Float, q: Float)
    requires
        d > 0,
        q.spec_is_finite(),
        r.units() == if negative {
            -(magnitude(nearest(n, d)) as int)
        } else {
            magnitude(nearest(n, d)) as int
        },
        r.pattern() == nearest(n, d),
    ensures
        ({
            let exact = if negative {
                -(n as int)
            } else {
                n as int
            };
            let ours = distance(d * r.units() - exact);
            let theirs = distance(d * q.units() - exact);
            &&& ours <= theirs
            &&& ours == theirs && q.units() != r.units() ==> r.pattern() % 2 == 0
        }),
{
    let m = magnitude(nearest(n, d)) as int;
    let k = magnitude(q.pattern()) as int;
    let e = d as int;
    lemma_none_is_nearer(n, d, q.pattern());
    lemma_none_is_nearer(n, d, 0);
    assert(magnitude(0) == 0);
    assert(e * 0 == 0 && e * (-m) == -(e * m) && e * (-k) == -(e * k) && e * k >= 0)
        by (nonlinear_arith)
        requires
            e > 0,
            k >= 0,
    ;
    assert(e * k == 0 ==> k == 0) by (nonlinear_arith)
        requires
            e > 0,
    ;
}

/// A rounded sum is as near to the exact one as any number is; where another is as near, the sum is
/// the one with the even pattern.
pub proof fn law_sums_are_nearest(a: Float, b: Float, q: Float)
    requires
        a.spec_is_finite(),
        b.spec_is_finite(),
        q.spec_is_finite(),
    ensures
        ({
            let exact = a.units() + b.units();
            let ours = distance(a.spec_add(b).units() - exact);
            let theirs = distance(q.units() - exact);
            &&& ours <= theirs
            &&& ours == theirs && q.units() != a.spec_add(b).units() ==> a.spec_add(b).pattern() % 2
                == 0
        }),
{
    let exact = a.units() + b.units();
    let n = distance(exact);
    lemma_add_finite(a, b);
    lemma_nearest_exists(n, 1);
    lemma_nearest_zero(1);
    lemma_none_is_nearer_signed(exact < 0, n, 1, a.spec_add(b), q);
    assert(1 * q.units() == q.units() && 1 * a.spec_add(b).units() == a.spec_add(b).units())
        by (nonlinear_arith);
}

/// A rounded difference is as near to the exact one as any number is; where another is as near, the
/// difference is the one with the even pattern.
pub proof fn law_differences_are_nearest(a: Float, b: Float, q: Float)
    requires
        a.spec_is_finite(),
        b.spec_is_finite(),
        q.spec_is_finite(),
    ensures
        ({
            let exact = a.units() - b.units();
            let ours = distance(a.spec_sub(b).units() - exact);
            let theirs = distance(q.units() - exact);
            &&& ours <= theirs
            &&& ours == theirs && q.units() != a.spec_sub(b).units() ==> a.spec_sub(b).pattern() % 2
                == 0
        }),
{
    lemma_neg(b);
    law_sums_are_nearest(a, b.spec_neg(), q);
}

/// A rounded product is as near to the exact one as any number is; where another is as near, the
/// product is the one with the even pattern. A product counted in units is divided by what one is.
pub proof fn law_products_are_nearest(a: Float, b: Float, q: Float)
    requires
        a.spec_is_finite(),
        b.spec_is_finite(),
        q.spec_is_finite(),
    ensures
        ({
            let one = pow2(UNIT_EXPONENT as nat);
            let exact = a.units() * b.units();
            let ours = distance(one * a.spec_mul(b).units() - exact);
            let theirs = distance(one * q.units() - exact);
            &&& ours <= theirs
            &&& ours == theirs && q.units() != a.spec_mul(b).units() ==> a.spec_mul(b).pattern() % 2
                == 0
        }),
{
    let one = pow2(UNIT_EXPONENT as nat);
    let x = magnitude(a.pattern());
    let y = magnitude(b.pattern());
    let negative = a.is_negative() != b.is_negative();
    lemma_pow2_pos(UNIT_EXPONENT as nat);
    lemma_nearest_exists(x * y, one);
    lemma_none_is_nearer_signed(negative, x * y, one, a.spec_mul(b), q);
    assert((-(x as int)) * (y as int) == -(x * y) && (x as int) * (-(y as int)) == -(x * y) && (-(
    x as int)) * (-(y as int)) == x * y) by (nonlinear_arith);
}

/// A rounded quotient is as near to the exact one as any number is; where another is as near, the
/// quotient is the one with the even pattern. The distances are those of the quotients, times the
/// divisor.
pub proof fn law_quotients_are_nearest(a: Float, b: Float, q: Float)
    requires
        a.spec_is_finite(),
        b.spec_is_finite(),
        b.units() != 0,
        q.spec_is_finite(),
    ensures
        ({
            let one = pow2(UNIT_EXPONENT as nat);
            let exact = a.units() * one;
            let ours = distance(a.spec_div(b).units() * b.units() - exact);
            let theirs = distance(q.units() * b.units() - exact);
            &&& ours <= theirs
            &&& ours == theirs && q.units() != a.spec_div(b).units() ==> a.spec_div(b).pattern() % 2
                == 0
        }),
{
    let one = pow2(UNIT_EXPONENT as nat);
    let x = magnitude(a.pattern());
    let y = magnitude(b.pattern());
    let negative = a.is_negative() != b.is_negative();
    let r = a.spec_div(b);
    lemma_pow2_pos(UNIT_EXPONENT as nat);
    assert(magnitude(0) == 0);
    assert(!b.is_zero());
    lemma_nearest_exists(x * one, y);
    if a.is_zero() {
        assert(x * one == 0) by (nonlinear_arith)
            requires
                x == 0,
        ;
        lemma_nearest_zero(y);
    }
    lemma_none_is_nearer_signed(negative, x * one, y, r, q);
    lemma_quotient_signs(r.units(), q.units(), x as int, y as int, one as int);
}

/// How signs go through a quotient.
proof fn lemma_quotient_signs(r: int, q: int, x: int, y: int, one: int)
    ensures
        r * y == y * r,
        q * y == y * q,
        r * (-y) == -(y * r),
        q * (-y) == -(y * q),
        (-x) * one == -(x * one),
{
    assert(r * y == y * r && q * y == y * q) by (nonlinear_arith);
    assert(r * (-y) == -(y * r) && q * (-y) == -(y * q)) by (nonlinear_arith);
    assert((-x) * one == -(x * one)) by (nonlinear_arith);
}

// --- what is not finite ---

/// A sum is not a number if an operand is none, or if they are opposite infinities; else an
/// infinity takes the sum with it.
pub proof fn law_sums_beyond_numbers(a: Float, b: Float)
    ensures
        a.spec_is_nan() || b.spec_is_nan() ==> a.spec_add(b).spec_is_nan(),
        a.is_infinite() && b.is_infinite() && a.is_negative() != b.is_negative() ==> a.spec_add(
            b,
        ).spec_is_nan(),
        a.is_infinite() && b.spec_is_finite() ==> a.spec_add(b) == a,
        a.spec_is_finite() && b.is_infinite() ==> a.spec_add(b) == b,
        a.is_infinite() && a == b ==> a.spec_add(b) == a,
        a.spec_is_finite() && b.spec_is_finite() ==> !a.spec_add(b).spec_is_nan(),
        a.spec_is_finite() ==> a.spec_add(a.spec_neg()) == (Float { bits: 0 }),
{
    if a.spec_is_finite() && b.spec_is_finite() {
        lemma_add_finite(a, b);
    }
    lemma_neg(a);
}

/// A product is not a number if an operand is none, or if one is an infinity and the other zero;
/// else an infinity takes the product with it. Signs multiply.
pub proof fn law_products_beyond_numbers(a: Float, b: Float)
    ensures
        ({
            let r = a.spec_mul(b);
            let undefined = a.spec_is_nan() || b.spec_is_nan() || a.is_infinite() && b.is_zero()
                || a.is_zero() && b.is_infinite();
            &&& r.spec_is_nan() <==> undefined
            &&& !undefined ==> (r.is_negative() <==> a.is_negative() != b.is_negative())
            &&& !undefined && (a.is_infinite() || b.is_infinite()) ==> r.is_infinite()
            &&& a.spec_is_finite() && b.is_zero() ==> r.is_zero()
        }),
{
    let one = pow2(UNIT_EXPONENT as nat);
    let n = magnitude(a.pattern()) * magnitude(b.pattern());
    lemma_pow2_pos(UNIT_EXPONENT as nat);
    lemma_nearest_exists(n, one);
    if b.is_zero() {
        assert(magnitude(0) == 0);
        assert(n == 0) by (nonlinear_arith)
            requires
                n == magnitude(a.pattern()) * magnitude(b.pattern()),
                magnitude(b.pattern()) == 0,
        ;
        lemma_nearest_zero(one);
    }
}

/// A quotient is not a number if an operand is none, or of two zeros or two infinities; else it is
/// an infinity of an infinity or by zero, and zero of zero or by an infinity. Signs multiply.
pub proof fn law_quotients_beyond_numbers(a: Float, b: Float)
    ensures
        ({
            let r = a.spec_div(b);
            let undefined = a.spec_is_nan() || b.spec_is_nan() || a.is_infinite() && b.is_infinite()
                || a.is_zero() && b.is_zero();
            &&& r.spec_is_nan() <==> undefined
            &&& !undefined ==> (r.is_negative() <==> a.is_negative() != b.is_negative())
            &&& !undefined && (a.is_infinite() || b.is_zero()) ==> r.is_infinite()
            &&& !undefined && (a.is_zero() || b.is_infinite()) ==> r.is_zero()
        }),
{
    let one = pow2(UNIT_EXPONENT as nat);
    let n = magnitude(a.pattern()) * one;
    lemma_pow2_pos(UNIT_EXPONENT as nat);
    assert(magnitude(0) == 0);
    if b.spec_is_finite() && !b.is_zero() {
        lemma_magnitude_increases(0, b.pattern());
        lemma_nearest_exists(n, magnitude(b.pattern()));
        if a.is_zero() {
            assert(n == 0) by (nonlinear_arith)
                requires
                    n == magnitude(a.pattern()) * one,
                    magnitude(a.pattern()) == 0,
            ;
            lemma_nearest_zero(magnitude(b.pattern()));
        }
    }
}

// --- order ---

/// Numbers are ordered as what they stand for; what is no number is neither less nor equal.
pub proof fn law_numbers_are_ordered(a: Float, b: Float, c: Float)
    ensures
        !a.spec_is_nan() && !b.spec_is_nan() ==> a.spec_lt(b) || b.spec_lt(a) || a.spec_same(b),
        a.spec_lt(b) ==> !b.spec_lt(a) && !a.spec_same(b),
        a.spec_lt(b) && b.spec_lt(c) ==> a.spec_lt(c),
        a.spec_is_nan() || b.spec_is_nan() ==> !a.spec_lt(b) && !a.spec_same(b),
        a.spec_same(b) <==> b.spec_same(a),
        a.spec_is_finite() && b.is_infinite() ==> (a.spec_lt(b) <==> !b.is_negative()),
        a.spec_abs().spec_lt(Float::whole(0)) ==> a.spec_is_nan(),
        a.units() >= 0 ==> a.spec_abs().units() == a.units(),
        a.units() < 0 ==> a.spec_abs().units() == -a.units(),
{
    lemma_whole(0);
    assert(0 * pow2(UNIT_EXPONENT as nat) == 0) by (nonlinear_arith);
    assert(magnitude(0) == 0);
    if a.spec_is_finite() && b.is_infinite() {
        lemma_magnitude_increases(a.pattern(), b.pattern());
    }
}

/// Of two numbers the larger and the smaller one are one of them each, and lie on their sides of
/// both; what is no number has no say.
pub proof fn law_larger_and_smaller(a: Float, b: Float)
    ensures
        a.spec_max(b) == a || a.spec_max(b) == b,
        a.spec_min(b) == a || a.spec_min(b) == b,
        !a.spec_max(b).spec_lt(a) && !a.spec_max(b).spec_lt(b),
        !a.spec_lt(a.spec_min(b)) && !b.spec_lt(a.spec_min(b)),
        a.spec_is_nan() ==> a.spec_max(b) == b && a.spec_min(b) == b,
        b.spec_is_nan() && !a.spec_is_nan() ==> a.spec_max(b) == a && a.spec_min(b) == a,
{
}

/// A number that is held between two others stays if it lies there, else becomes the nearer one;
/// what is no number stays.
pub proof fn law_held_between(a: Float, low: Float, high: Float)
    requires
        !low.spec_is_nan(),
        !high.spec_is_nan(),
        low.units() <= high.units(),
    ensures
        a.spec_is_nan() ==> a.spec_clamp(low, high) == a,
        a.spec_lt(low) ==> a.spec_clamp(low, high) == low,
        high.spec_lt(a) ==> a.spec_clamp(low, high) == high,
        !a.spec_lt(low) && !high.spec_lt(a) ==> a.spec_clamp(low, high) == a,
{
}

// --- whole numbers ---

/// A number is rounded to the nearest whole one, halves away from zero. What is no number, and what
/// is infinite, stays so.
pub proof fn law_rounding_goes_to_the_nearest_whole(a: Float)
    ensures
        a.spec_is_nan() <==> a.spec_round().spec_is_nan(),
        a.is_infinite() ==> a.spec_round() == a,
        ({
            let one = pow2(UNIT_EXPONENT as nat);
            a.spec_is_finite() && distance(a.units()) <= IMPLICIT * one ==> exists|k: int|
                {
                    &&& a.spec_round().units() == #[trigger] (k * one)
                    &&& a.units() >= 0 ==> 2 * (k * one) - one <= 2 * a.units() < 2 * (k * one)
                        + one
                    &&& a.units() < 0 ==> 2 * (k * one) - one < 2 * a.units() <= 2 * (k * one)
                        + one
                }
        }),
{
    let one = pow2(UNIT_EXPONENT as nat);
    lemma_pow2_pos(UNIT_EXPONENT as nat);
    if a.spec_is_finite() {
        let whole = (2 * magnitude(a.pattern()) + one) / (2 * one);
        lemma_nearest_exists(whole * one, 1);
        if distance(a.units()) <= IMPLICIT * one {
            let k = lemma_round_near(a);
            assert(a.spec_round().units() == k * one);
        }
    }
}

/// The integer of a number is its whole part, cut towards zero and held within the range; it is
/// nothing for what is no number.
pub proof fn law_integers_are_whole_parts(a: Float)
    ensures
        ({
            let one = pow2(UNIT_EXPONENT as nat);
            let r = a.spec_to_i32();
            &&& i32::MIN <= r <= i32::MAX
            &&& a.spec_is_nan() ==> r == 0
            &&& !a.spec_is_nan() && a.units() >= 0 ==> {
                &&& r >= 0 && r * one <= a.units()
                &&& r < i32::MAX ==> a.units() < (r + 1) * one
            }
            &&& !a.spec_is_nan() && a.units() <= 0 ==> {
                &&& r <= 0 && a.units() <= r * one
                &&& r > i32::MIN ==> (r - 1) * one < a.units()
            }
        }),
{
    let one = pow2(UNIT_EXPONENT as nat) as int;
    let m = magnitude(a.pattern()) as int;
    let whole = m / one;
    lemma_pow2_pos(UNIT_EXPONENT as nat);
    vstd::arithmetic::div_mod::lemma_fundamental_div_mod(m, one);
    vstd::arithmetic::div_mod::lemma_div_pos_is_pos(m, one);
    assert(whole * one <= m < (whole + 1) * one) by (nonlinear_arith)
        requires
            m == one * whole + m % one,
            0 <= m % one < one,
    ;
    assert((-whole) * one == -(whole * one) && (-whole - 1) * one == -((whole + 1) * one))
        by (nonlinear_arith);
    if whole >= 0x7fff_ffff {
        assert(0x7fff_ffff * one <= whole * one) by (nonlinear_arith)
            requires
                0x7fff_ffff <= whole,
                one > 0,
        ;
    }
    if whole >= 0x8000_0000 {
        assert(0x8000_0000 * one <= whole * one && (-0x8000_0000) * one == -(0x8000_0000 * one))
            by (nonlinear_arith)
            requires
                0x8000_0000 <= whole,
                one > 0,
        ;
    }
    if m == 0 {
        assert(whole == 0) by (nonlinear_arith)
            requires
                whole * one <= 0,
                whole >= 0,
                one > 0,
        ;
    }
    assert(0 * one == 0) by (nonlinear_arith);
}

// --- operations ---

/// The operations on numbers give what the laws above speak of.
pub proof fn law_operations_compute(a: Float, b: Float)
    ensures
        forall|r: Float| #[trigger] call_ensures(Float::add, (a, b), r) ==> r == a.spec_add(b),
        forall|r: Float| #[trigger] call_ensures(Float::sub, (a, b), r) ==> r == a.spec_sub(b),
        forall|r: Float| #[trigger] call_ensures(Float::mul, (a, b), r) ==> r == a.spec_mul(b),
        forall|r: Float| #[trigger] call_ensures(Float::div, (a, b), r) ==> r == a.spec_div(b),
        forall|r: Float| #[trigger] call_ensures(Float::max, (a, b), r) ==> r == a.spec_max(b),
        forall|r: Float| #[trigger] call_ensures(Float::min, (a, b), r) ==> r == a.spec_min(b),
        forall|r: Float| #[trigger] call_ensures(Float::round, (a,), r) ==> r == a.spec_round(),
        forall|r: i32| #[trigger] call_ensures(Float::to_i32, (a,), r) ==> r == a.spec_to_i32(),
        forall|r: bool| #[trigger]
            call_ensures(Float::lt, (a, b), r) ==> (r <==> !a.spec_is_nan() && !b.spec_is_nan()
                && a.units() < b.units()),
        forall|r: bool| #[trigger]
            call_ensures(Float::same, (a, b), r) ==> (r <==> !a.spec_is_nan() && !b.spec_is_nan()
                && a.units() == b.units()),
        forall|r: Float| #[trigger]
            call_ensures(Float::neg, (a,), r) ==> r.units() == -a.units() && r.pattern()
                == a.pattern() && r.is_negative() != a.is_negative(),
        forall|r: Float| #[trigger]
            call_ensures(Float::abs, (a,), r) ==> r.units() == distance(a.units()) && r.pattern()
                == a.pattern() && !r.is_negative(),
        forall|low: Float, high: Float, r: Float| #[trigger]
            call_ensures(Float::clamp, (a, low, high), r) ==> r == a.spec_clamp(low, high),
{
}

/// Whole numbers become the numbers that stand for them.
pub proof fn law_whole_numbers_are_held(i: i32, r: Float)
    requires
        call_ensures(Float::from_i32, (i,), r),
    ensures
        r.spec_is_finite(),
        r.units() == i * pow2(UNIT_EXPONENT as nat),
{
    lemma_whole(i as int);
}

} // verus!
