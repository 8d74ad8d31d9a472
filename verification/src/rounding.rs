//! Rounding a quotient of integers to the nearest binary64 pattern.

use vstd::arithmetic::power2::{
    lemma_pow2_adds, lemma_pow2_pos, lemma_pow2_strictly_increases, lemma_pow2_unfold, pow2,
};
use vstd::prelude::*;

verus! {

/// One more than the largest fraction field: the weight of the implicit leading bit.
pub const IMPLICIT: u64 = 0x10_0000_0000_0000;

/// The pattern of infinity, sign aside. Patterns above it are not numbers.
pub const INFINITY: u64 = 0x7ff0_0000_0000_0000;

/// Added to every binary exponent where scaled magnitudes are compared, so that no exponent there
/// is negative.
pub const BIAS: u32 = 2048;

/// How many units the pattern `p`, sign aside, stands for. Infinity stands for the power of two
/// that follows the largest number: that is where rounding starts to overflow.
pub open spec fn magnitude(p: nat) -> nat {
    let exponent = p / (IMPLICIT as nat);
    let fraction = p % (IMPLICIT as nat);
    if exponent == 0 {
        fraction
    } else {
        (IMPLICIT as nat + fraction) * pow2((exponent - 1) as nat)
    }
}

/// Whether `p` is the pattern nearest to `n / d` units, an even pattern in a tie.
pub open spec fn is_nearest(n: nat, d: nat, p: nat) -> bool {
    &&& p <= INFINITY
    &&& p > 0 ==> {
        let below = d * (magnitude((p - 1) as nat) + magnitude(p));
        below <= 2 * n && (below == 2 * n ==> p % 2 == 0)
    }
    &&& p < INFINITY ==> {
        let above = d * (magnitude(p) + magnitude(p + 1));
        2 * n <= above && (above == 2 * n ==> p % 2 == 0)
    }
}

/// The pattern nearest to `n / d` units.
pub open spec fn nearest(n: nat, d: nat) -> nat {
    choose|p: nat| is_nearest(n, d, p)
}

/// Patterns are ordered as the magnitudes that they stand for.
pub proof fn lemma_magnitude_increases(p: nat, q: nat)
    requires
        p < q,
    ensures
        magnitude(p) < magnitude(q),
{
    let e = p / (IMPLICIT as nat);
    let g = q / (IMPLICIT as nat);
    let f = p % (IMPLICIT as nat);
    let h = q % (IMPLICIT as nat);
    assert(e <= g);
    if e == g {
        assert(f < h);
        if e > 0 {
            lemma_pow2_pos((e - 1) as nat);
            assert((IMPLICIT + f) * pow2((e - 1) as nat) < (IMPLICIT + h) * pow2((e - 1) as nat))
                by (nonlinear_arith)
                requires
                    f < h,
                    pow2((e - 1) as nat) > 0,
            ;
        }
    } else if e == 0 {
        lemma_pow2_pos((g - 1) as nat);
        assert((IMPLICIT + h) * pow2((g - 1) as nat) >= IMPLICIT + h) by (nonlinear_arith)
            requires
                pow2((g - 1) as nat) >= 1,
                h >= 0,
        ;
    } else {
        if e + 1 < g {
            lemma_pow2_strictly_increases(e, (g - 1) as nat);
        }
        lemma_pow2_unfold(e);
        lemma_pow2_pos((e - 1) as nat);
        assert((IMPLICIT + f) * pow2((e - 1) as nat) < (IMPLICIT + h) * pow2((g - 1) as nat))
            by (nonlinear_arith)
            requires
                f < IMPLICIT,
                h >= 0,
                pow2((e - 1) as nat) >= 1,
                pow2((g - 1) as nat) >= 2 * pow2((e - 1) as nat),
        ;
    }
}

/// No two patterns are nearest to the same quotient.
pub proof fn lemma_nearest_is_unique(n: nat, d: nat, p: nat, q: nat)
    requires
        d > 0,
        is_nearest(n, d, p),
        is_nearest(n, d, q),
    ensures
        p == q,
{
    lemma_nearest_is_ordered(n, d, p, q);
    lemma_nearest_is_ordered(n, d, q, p);
}

proof fn lemma_nearest_is_ordered(n: nat, d: nat, p: nat, q: nat)
    requires
        d > 0,
        is_nearest(n, d, p),
        is_nearest(n, d, q),
    ensures
        q <= p,
{
    if p < q {
        let above = magnitude(p) + magnitude(p + 1);
        let below = magnitude((q - 1) as nat) + magnitude(q);
        if p + 1 < q {
            lemma_magnitude_increases(p, (q - 1) as nat);
            lemma_magnitude_increases(p + 1, q);
            assert(d * above < d * below) by (nonlinear_arith)
                requires
                    d > 0,
                    above < below,
            ;
        }
    }
}

/// The pattern that holds `kept` as its leading bits, `2^q` units each.
pub(crate) proof fn lemma_magnitude_of(q: nat, kept: nat)
    requires
        kept <= 2 * IMPLICIT,
        q > 0 ==> kept >= IMPLICIT,
    ensures
        magnitude(q * IMPLICIT as nat + kept) == kept * pow2(q),
{
    let p = q * IMPLICIT as nat + kept;
    lemma_pow2_unfold(q + 1);
    assert(pow2(0) == 1) by {
        vstd::arithmetic::power2::lemma2_to64();
    }
    if kept < IMPLICIT {
        assert(p == kept);
    } else if kept < 2 * IMPLICIT {
        assert(p / (IMPLICIT as nat) == q + 1 && p % (IMPLICIT as nat) == kept - IMPLICIT) by {
            vstd::arithmetic::div_mod::lemma_fundamental_div_mod_converse(
                p as int,
                IMPLICIT as int,
                (q + 1) as int,
                kept - IMPLICIT,
            );
        }
    } else {
        assert(p / (IMPLICIT as nat) == q + 2 && p % (IMPLICIT as nat) == 0) by {
            vstd::arithmetic::div_mod::lemma_fundamental_div_mod_converse(
                p as int,
                IMPLICIT as int,
                (q + 2) as int,
                0,
            );
        }
        assert(IMPLICIT * pow2(q + 1) == kept * pow2(q)) by (nonlinear_arith)
            requires
                kept == 2 * IMPLICIT,
                pow2(q + 1) == 2 * pow2(q),
        ;
    }
}

/// What rounding to the lower neighbour takes.
proof fn lemma_round_down(n: nat, d: nat, q: nat, kept: nat)
    requires
        d > 0,
        kept < 2 * IMPLICIT,
        q > 0 ==> kept >= IMPLICIT,
        d * (kept * pow2(q)) <= n,
        2 * n <= d * ((2 * kept + 1) * pow2(q)),
        2 * n == d * ((2 * kept + 1) * pow2(q)) ==> kept % 2 == 0,
    ensures
        q * IMPLICIT + kept <= INFINITY ==> is_nearest(n, d, q * IMPLICIT as nat + kept),
        q * IMPLICIT + kept >= INFINITY ==> is_nearest(n, d, INFINITY as nat),
{
    let p = q * IMPLICIT as nat + kept;
    let m = magnitude(p);
    lemma_magnitude_of(q, kept);
    lemma_magnitude_of(q, kept + 1);
    if p > 0 {
        let below = magnitude((p - 1) as nat);
        lemma_magnitude_increases((p - 1) as nat, p);
        assert(d * (below + m) < 2 * n) by (nonlinear_arith)
            requires
                d > 0,
                below < m,
                d * m <= n,
        ;
    }
    assert(m + magnitude(p + 1) == (2 * kept + 1) * pow2(q)) by (nonlinear_arith)
        requires
            m == kept * pow2(q),
            magnitude(p + 1) == (kept + 1) * pow2(q),
    ;
    if p > INFINITY {
        let top = magnitude(INFINITY as nat);
        let below = magnitude((INFINITY - 1) as nat);
        lemma_magnitude_increases((INFINITY - 1) as nat, INFINITY as nat);
        lemma_magnitude_increases(INFINITY as nat, p);
        assert(d * (below + top) < 2 * n) by (nonlinear_arith)
            requires
                d > 0,
                below < top,
                top < m,
                d * m <= n,
        ;
    }
}

/// What rounding to the upper neighbour takes.
proof fn lemma_round_up(n: nat, d: nat, q: nat, kept: nat)
    requires
        d > 0,
        kept < 2 * IMPLICIT,
        q > 0 ==> kept >= IMPLICIT,
        n <= d * ((kept + 1) * pow2(q)),
        2 * n >= d * ((2 * kept + 1) * pow2(q)),
        2 * n == d * ((2 * kept + 1) * pow2(q)) ==> kept % 2 == 1,
    ensures
        q * IMPLICIT + kept + 1 <= INFINITY ==> is_nearest(n, d, q * IMPLICIT as nat + kept + 1),
        q * IMPLICIT + kept + 1 >= INFINITY ==> is_nearest(n, d, INFINITY as nat),
{
    let p = q * IMPLICIT as nat + kept + 1;
    let m = magnitude(p);
    lemma_magnitude_of(q, kept);
    lemma_magnitude_of(q, kept + 1);
    let below = magnitude((p - 1) as nat);
    assert(below + m == (2 * kept + 1) * pow2(q)) by (nonlinear_arith)
        requires
            below == kept * pow2(q),
            m == (kept + 1) * pow2(q),
    ;
    let above = magnitude(p + 1);
    lemma_magnitude_increases(p, p + 1);
    assert(2 * n < d * (m + above)) by (nonlinear_arith)
        requires
            d > 0,
            m < above,
            n <= d * m,
    ;
    if p > INFINITY {
        let top = magnitude(INFINITY as nat);
        let under = magnitude((INFINITY - 1) as nat);
        lemma_magnitude_increases((INFINITY - 1) as nat, INFINITY as nat);
        lemma_magnitude_increases(INFINITY as nat, p);
        if p - 1 > INFINITY {
            lemma_magnitude_increases(INFINITY as nat, (p - 1) as nat);
        }
        assert(d * (under + top) < 2 * n) by (nonlinear_arith)
            requires
                d > 0,
                under < top,
                top < m,
                top <= below,
                d * (below + m) <= 2 * n,
        ;
    }
}

/// Nothing rounds to zero.
pub proof fn lemma_nearest_zero(d: nat)
    requires
        d > 0,
    ensures
        nearest(0, d) == 0,
{
    assert(is_nearest(0, d, 0)) by {
        assert(magnitude(0) == 0 && magnitude(1) == 1);
        assert(d * (0 + 1) == d) by (nonlinear_arith);
    }
    lemma_nearest_is_unique(0, d, 0, nearest(0, d));
}

/// A number that the format holds is its own nearest.
pub proof fn lemma_nearest_exact(p: nat)
    requires
        p <= INFINITY,
    ensures
        nearest(magnitude(p), 1) == p,
{
    let m = magnitude(p);
    if p > 0 {
        lemma_magnitude_increases((p - 1) as nat, p);
    }
    lemma_magnitude_increases(p, p + 1);
    assert(is_nearest(m, 1, p));
    lemma_nearest_is_unique(m, 1, p, nearest(m, 1));
}

/// Every quotient has a nearest pattern.
pub proof fn lemma_nearest_exists(n: nat, d: nat)
    requires
        d > 0,
    ensures
        is_nearest(n, d, nearest(n, d)),
{
    assert(magnitude(0) == 0);
    assert(d * 0 == 0) by (nonlinear_arith);
    let p = lemma_floor(n, d, INFINITY as nat);
    if p == INFINITY {
        let top = magnitude(INFINITY as nat);
        let under = magnitude((INFINITY - 1) as nat);
        lemma_magnitude_increases((INFINITY - 1) as nat, INFINITY as nat);
        assert(d * (under + top) < 2 * n) by (nonlinear_arith)
            requires
                d > 0,
                under < top,
                d * top <= n,
        ;
        assert(is_nearest(n, d, p));
    } else {
        let m = magnitude(p);
        let above = magnitude(p + 1);
        lemma_magnitude_increases(p, p + 1);
        let middle = d * (m + above);
        if 2 * n < middle || (2 * n == middle && p % 2 == 0) {
            if p > 0 {
                let below = magnitude((p - 1) as nat);
                lemma_magnitude_increases((p - 1) as nat, p);
                assert(d * (below + m) < 2 * n) by (nonlinear_arith)
                    requires
                        d > 0,
                        below < m,
                        d * m <= n,
                ;
            }
            assert(is_nearest(n, d, p));
        } else {
            let further = magnitude(p + 2);
            lemma_magnitude_increases(p + 1, p + 2);
            assert(2 * n < d * (above + further)) by (nonlinear_arith)
                requires
                    d > 0,
                    above < further,
                    n < d * above,
            ;
            assert(is_nearest(n, d, p + 1));
        }
    }
}

/// The last pattern up to `from` that does not exceed the quotient.
proof fn lemma_floor(n: nat, d: nat, from: nat) -> (p: nat)
    requires
        d > 0,
        from <= INFINITY,
    ensures
        p <= from,
        d * magnitude(p) <= n,
        p < from ==> n < d * magnitude(p + 1),
    decreases from,
{
    if d * magnitude(from) <= n {
        from
    } else {
        assert(magnitude(0) == 0);
        assert(d * 0 == 0) by (nonlinear_arith);
        lemma_floor(n, d, (from - 1) as nat)
    }
}

/// Rounding keeps the order of quotients.
pub proof fn lemma_nearest_is_monotone(n: nat, d: nat, m: nat, e: nat)
    requires
        d > 0,
        e > 0,
        n * e <= m * d,
    ensures
        nearest(n, d) <= nearest(m, e) <= INFINITY,
{
    lemma_nearest_exists(n, d);
    lemma_nearest_exists(m, e);
    let p = nearest(n, d);
    let q = nearest(m, e);
    if q < p {
        let low = magnitude((p - 1) as nat) + magnitude(p);
        let high = magnitude(q) + magnitude(q + 1);
        if q + 1 < p {
            lemma_magnitude_increases(q, (p - 1) as nat);
            lemma_magnitude_increases(q + 1, p);
        }
        assert(high <= low);
        // Both quotients would lie on the same middle, which rounds one way only.
        assert(d * low == 2 * n && e * high == 2 * m && low == high) by (nonlinear_arith)
            requires
                d > 0,
                e > 0,
                d * low <= 2 * n,
                2 * m <= e * high,
                n * e <= m * d,
                high <= low,
        ;
        assert(p == q + 1);
    }
}

/// Comparing patterns is comparing magnitudes.
pub proof fn lemma_pattern_order(p: nat, q: nat)
    ensures
        p < q <==> magnitude(p) < magnitude(q),
        p == q <==> magnitude(p) == magnitude(q),
        p == 0 <==> magnitude(p) == 0,
        q == 0 <==> magnitude(q) == 0,
{
    if p < q {
        lemma_magnitude_increases(p, q);
    } else if q < p {
        lemma_magnitude_increases(q, p);
    }
    assert(magnitude(0) == 0);
    if p > 0 {
        lemma_magnitude_increases(0, p);
    }
    if q > 0 {
        lemma_magnitude_increases(0, q);
    }
}

/// Neighbouring patterns are at most one unit, and one part in `2^52`, apart.
proof fn lemma_gap(p: nat)
    ensures
        IMPLICIT * (magnitude(p + 1) - magnitude(p)) <= IMPLICIT + magnitude(p),
{
    let e = p / (IMPLICIT as nat);
    let f = p % (IMPLICIT as nat);
    vstd::arithmetic::div_mod::lemma_fundamental_div_mod(p as int, IMPLICIT as int);
    assert(p == e * IMPLICIT + f) by (nonlinear_arith)
        requires
            p == IMPLICIT as int * e + f,
    ;
    if e == 0 {
        lemma_magnitude_of(0, f);
        lemma_magnitude_of(0, f + 1);
        vstd::arithmetic::power2::lemma2_to64();
        assert(0 * IMPLICIT as nat == 0) by (nonlinear_arith);
        assert(f * 1 == f && (f + 1) * 1 == f + 1) by (nonlinear_arith);
    } else {
        let q = (e - 1) as nat;
        let kept = IMPLICIT as nat + f;
        assert(q * IMPLICIT + kept == p) by (nonlinear_arith)
            requires
                p == e * IMPLICIT + f,
                q == e - 1,
                kept == IMPLICIT + f,
        ;
        lemma_magnitude_of(q, kept);
        lemma_magnitude_of(q, kept + 1);
        assert(IMPLICIT * ((kept + 1) * pow2(q) - kept * pow2(q)) <= kept * pow2(q))
            by (nonlinear_arith)
            requires
                kept >= IMPLICIT,
                pow2(q) >= 0,
        ;
    }
}

/// A rounded quotient is off by at most half a unit and one part in `2^53`.
pub(crate) proof fn lemma_rounding_error(n: nat, d: nat)
    requires
        d > 0,
        nearest(n, d) < INFINITY,
    ensures
        ({
            let m = magnitude(nearest(n, d));
            &&& 2 * IMPLICIT * (d * m - n) <= d * (m + IMPLICIT)
            &&& 2 * IMPLICIT * (n - d * m) <= d * (m + IMPLICIT)
        }),
{
    lemma_nearest_exists(n, d);
    let p = nearest(n, d);
    let m = magnitude(p);
    let above = magnitude(p + 1);
    lemma_gap(p);
    assert(2 * IMPLICIT * (n - d * m) <= d * (m + IMPLICIT)) by (nonlinear_arith)
        requires
            2 * n <= d * (m + above),
            IMPLICIT * (above - m) <= IMPLICIT + m,
            d > 0,
    ;
    if p > 0 {
        let below = magnitude((p - 1) as nat);
        lemma_gap((p - 1) as nat);
        lemma_magnitude_increases((p - 1) as nat, p);
        assert(2 * IMPLICIT * (d * m - n) <= d * (m + IMPLICIT)) by (nonlinear_arith)
            requires
                d * (below + m) <= 2 * n,
                IMPLICIT * (m - below) <= IMPLICIT + below,
                below < m,
                d > 0,
        ;
    } else {
        assert(magnitude(0) == 0);
        assert(2 * IMPLICIT * (d * 0 - n) <= d * (0 + IMPLICIT)) by (nonlinear_arith)
            requires
                d > 0,
                n >= 0,
        ;
    }
}

/// The pattern of `s * 2^e` units, where the format has one.
pub(crate) proof fn lemma_representable(s: nat, e: nat) -> (p: nat)
    requires
        s < 2 * IMPLICIT,
        e <= 2045,
    ensures
        p < INFINITY,
        magnitude(p) == s * pow2(e),
        nearest(s * pow2(e), 1) == p,
    decreases e,
{
    if s >= IMPLICIT || e == 0 {
        let p = e * IMPLICIT as nat + s;
        lemma_magnitude_of(e, s);
        lemma_nearest_exact(p);
        p
    } else {
        lemma_pow2_unfold(e);
        assert(s * pow2(e) == (2 * s) * pow2((e - 1) as nat)) by (nonlinear_arith)
            requires
                pow2(e) == 2 * pow2((e - 1) as nat),
        ;
        lemma_representable(2 * s, (e - 1) as nat)
    }
}

/// Whether `n / d` units are `sig * 2^e`, or, with `sticky`, lie strictly between that and the
/// next multiple of `2^e`.
pub open spec fn encloses(sig: nat, e: int, sticky: bool, n: nat, d: nat) -> bool {
    let step = pow2((e + BIAS) as nat);
    let scaled = n * pow2(BIAS as nat);
    if sticky {
        d * (sig * step) < scaled < d * ((sig + 1) * step)
    } else {
        scaled == d * (sig * step)
    }
}

/// A whole number of units is exactly its significant bits.
pub(crate) proof fn lemma_encloses_exact(sig: nat, e: int, n: nat)
    requires
        e >= 0,
        n == sig * pow2(e as nat),
    ensures
        encloses(sig, e, false, n, 1),
{
    lemma_pow2_adds(e as nat, BIAS as nat);
    assert(n * pow2(BIAS as nat) == sig * (pow2(e as nat) * pow2(BIAS as nat))) by (nonlinear_arith)
        requires
            n == sig * pow2(e as nat),
    ;
}

/// How `n / d` units compare with `kept` and a half steps of `2^q`, where `rem` of the `2 * half`
/// steps of `2^e` in one of them are left.
proof fn lemma_enclosed(
    n: nat,
    d: nat,
    sig: nat,
    e: int,
    sticky: bool,
    q: nat,
    kept: nat,
    rem: nat,
    half: nat,
)
    requires
        d > 0,
        e + BIAS >= 0,
        e < q,
        encloses(sig, e, sticky, n, d),
        2 * half == pow2((q - e) as nat),
        sig == kept * (2 * half) + rem,
        rem < 2 * half,
    ensures
        d * (kept * pow2(q)) <= n < d * ((kept + 1) * pow2(q)),
        rem < half ==> 2 * n < d * ((2 * kept + 1) * pow2(q)),
        rem == half && !sticky ==> 2 * n == d * ((2 * kept + 1) * pow2(q)),
        rem > half || (rem == half && sticky) ==> 2 * n > d * ((2 * kept + 1) * pow2(q)),
{
    let b = pow2(BIAS as nat);
    let t = d * pow2((e + BIAS) as nat);
    let v = d * pow2(q);
    let s = 2 * half;
    lemma_pow2_pos(BIAS as nat);
    lemma_pow2_pos((e + BIAS) as nat);
    assert(t > 0) by (nonlinear_arith)
        requires
            d > 0,
            pow2((e + BIAS) as nat) > 0,
            t == d * pow2((e + BIAS) as nat),
    ;
    lemma_pow2_adds((q - e) as nat, (e + BIAS) as nat);
    lemma_pow2_adds(q, BIAS as nat);
    assert((q - e) as nat + (e + BIAS) as nat == q + BIAS as nat);
    let step = pow2((e + BIAS) as nat);
    let big = pow2(q);
    assert(v * b == s * t) by (nonlinear_arith)
        requires
            v == d * big,
            t == d * step,
            big * b == s * step,
    ;
    assert(d * (sig * step) == sig * t && d * ((sig + 1) * step) == (sig + 1) * t)
        by (nonlinear_arith)
        requires
            t == d * step,
    ;
    assert(sig * t == kept * (s * t) + rem * t) by (nonlinear_arith)
        requires
            sig == kept * s + rem,
    ;
    assert((sig + 1) * t == sig * t + t) by (nonlinear_arith);
    let x = n * b;
    assert(rem * t + t <= s * t) by (nonlinear_arith)
        requires
            rem + 1 <= s,
            t > 0,
    ;
    assert(s * t == 2 * (half * t)) by (nonlinear_arith)
        requires
            s == 2 * half,
    ;
    assert(rem * t >= 0) by (nonlinear_arith)
        requires
            t > 0,
            rem >= 0,
    ;
    // Everything below is in multiples of `b`.
    assert((kept * v) * b == kept * (s * t) && ((kept + 1) * v) * b == kept * (s * t) + s * t
        && ((2 * kept + 1) * v) * b == 2 * (kept * (s * t)) + s * t && (2 * n) * b == 2 * x)
        by (nonlinear_arith)
        requires
            v * b == s * t,
            x == n * b,
    ;
    if rem < half {
        assert(rem * t + t <= half * t) by (nonlinear_arith)
            requires
                rem + 1 <= half,
                t > 0,
        ;
        lemma_cancel_lt((2 * n) as int, ((2 * kept + 1) * v) as int, b as int);
    } else if rem == half && !sticky {
        lemma_cancel_le((2 * n) as int, ((2 * kept + 1) * v) as int, b as int);
        lemma_cancel_le(((2 * kept + 1) * v) as int, (2 * n) as int, b as int);
    } else {
        if rem > half {
            assert(rem * t >= half * t + t) by (nonlinear_arith)
                requires
                    rem >= half + 1,
                    t > 0,
            ;
        }
        lemma_cancel_lt(((2 * kept + 1) * v) as int, (2 * n) as int, b as int);
    }
    lemma_cancel_le((kept * v) as int, n as int, b as int);
    lemma_cancel_lt(n as int, ((kept + 1) * v) as int, b as int);
    assert(kept * v == d * (kept * big) && (kept + 1) * v == d * ((kept + 1) * big) && (2 * kept
        + 1) * v == d * ((2 * kept + 1) * big)) by (nonlinear_arith)
        requires
            v == d * big,
    ;
}

proof fn lemma_cancel_lt(a: int, c: int, b: int)
    requires
        a * b < c * b,
        b > 0,
    ensures
        a < c,
{
    vstd::arithmetic::mul::lemma_mul_strict_inequality_converse(a, c, b);
}

proof fn lemma_cancel_le(a: int, c: int, b: int)
    requires
        a * b <= c * b,
        b > 0,
    ensures
        a <= c,
{
    vstd::arithmetic::mul::lemma_mul_inequality_converse(a, c, b);
}

/// The powers of two that the format is made of.
pub(crate) proof fn lemma_power_bounds()
    ensures
        pow2(52) == IMPLICIT,
        pow2(53) == 2 * IMPLICIT,
        pow2(127) == 0x8000_0000_0000_0000_0000_0000_0000_0000,
        pow2(128) == u128::MAX + 1,
{
    vstd::arithmetic::power2::lemma2_to64();
    vstd::arithmetic::power2::lemma2_to64_rest();
    lemma_pow2_adds(64, 63);
    lemma_pow2_unfold(64);
    lemma_pow2_adds(64, 64);
    assert(pow2(64) * pow2(63) == 0x1_0000_0000_0000_0000 * 0x8000_0000_0000_0000);
}

/// Two to the power `k`.
pub(crate) fn power(k: u32) -> (r: u128)
    requires
        k < 128,
    ensures
        r == pow2(k as nat),
        r > 0,
{
    let mut r: u128 = 1;
    let mut i: u32 = 0;
    proof {
        vstd::arithmetic::power2::lemma2_to64();
    }
    while i < k
        invariant
            i <= k < 128,
            r == pow2(i as nat),
            r > 0,
        decreases k - i,
    {
        proof {
            lemma_power_bounds();
            lemma_pow2_unfold((i + 1) as nat);
            if i + 1 < 127 {
                lemma_pow2_strictly_increases((i + 1) as nat, 127);
            }
        }
        r = r * 2;
        i = i + 1;
    }
    r
}

/// How many binary digits `x` has.
pub(crate) fn bit_length(x: u128) -> (r: u32)
    ensures
        r <= 128,
        x < pow2(r as nat),
        r > 0 ==> pow2((r - 1) as nat) <= x,
        x > 0 ==> r > 0,
{
    let mut rest: u128 = x;
    let mut r: u32 = 0;
    proof {
        vstd::arithmetic::power2::lemma2_to64();
    }
    while rest > 0
        invariant
            r <= 128,
            rest * pow2(r as nat) <= x < (rest + 1) * pow2(r as nat),
            r > 0 ==> pow2((r - 1) as nat) <= x,
            r == 0 ==> rest == x,
        decreases rest,
    {
        proof {
            let p = pow2(r as nat);
            let h = rest / 2;
            lemma_pow2_unfold((r + 1) as nat);
            lemma_pow2_pos(r as nat);
            assert(p <= x) by (nonlinear_arith)
                requires
                    rest >= 1,
                    p > 0,
                    rest * p <= x,
            ;
            assert(h * (2 * p) <= x && x < (h + 1) * (2 * p)) by (nonlinear_arith)
                requires
                    2 * h <= rest <= 2 * h + 1,
                    p > 0,
                    rest * p <= x,
                    x < (rest + 1) * p,
            ;
            if r == 128 {
                lemma_power_bounds();
            }
        }
        rest = rest / 2;
        r = r + 1;
    }
    proof {
        assert((0 + 1) * pow2(r as nat) == pow2(r as nat)) by (nonlinear_arith);
    }
    r
}

/// The pattern nearest to the units that `sig`, `e` and `sticky` enclose.
pub(crate) fn encode(sig: u128, e: i32, sticky: bool, n: Ghost<nat>, d: Ghost<nat>) -> (p: u64)
    requires
        d@ > 0,
        -(BIAS as int) <= e <= 4000,
        0 < sig < 0x4000_0000_0000_0000_0000_0000_0000_0000,
        sticky ==> sig >= 4 * IMPLICIT,
        encloses(sig as nat, e as int, sticky, n@, d@),
    ensures
        is_nearest(n@, d@, p as nat),
        p == nearest(n@, d@),
        p <= INFINITY,
{
    let ghost (n, d) = (n@, d@);
    let len = bit_length(sig);
    proof {
        lemma_power_bounds();
        if len >= 128 {
            lemma_pow2_strictly_increases(126, 127);
            lemma_pow2_unfold(127);
        }
    }
    assert(len <= 127) by {
        if len == 128 {
            assert(pow2(127) <= sig);
        }
    }
    let lead: i32 = e + len as i32 - 53;
    let q: i32 = if lead > 0 {
        lead
    } else {
        0
    };
    let p: u64;
    if q >= 2047 {
        p = INFINITY;
        proof {
            lemma_overflow(n, d, sig as nat, e as int, sticky, len as nat);
        }
    } else if q <= e {
        let k: u32 = (e - q) as u32;
        proof {
            if sticky {
                lemma_pow2_unfold(54);
                if len < 55 {
                    if len < 54 {
                        lemma_pow2_strictly_increases(len as nat, 54);
                    }
                    assert(false);
                }
            }
            assert(!sticky);
            lemma_exact_fit(n, d, sig as nat, e as int, q as nat, len as nat);
        }
        let kept: u64 = (sig * power(k)) as u64;
        p = pack(q, kept);
        proof {
            lemma_pow2_pos(q as nat);
            lemma_tie_is_above(n, d, q as nat, kept as nat);
            lemma_round_down(n, d, q as nat, kept as nat);
        }
    } else {
        let shift: u32 = (q - e) as u32;
        let mut kept: u64 = 0;
        let mut up: bool = false;
        proof {
            lemma_kept_range(sig as nat, e as int, q as nat, len as nat);
        }
        if shift < 128 {
            let whole = power(shift);
            let half = power(shift - 1);
            let rem = sig % whole;
            proof {
                lemma_pow2_unfold(shift as nat);
                vstd::arithmetic::div_mod::lemma_fundamental_div_mod(sig as int, whole as int);
                assert(sig == (sig / whole) * whole + rem) by (nonlinear_arith)
                    requires
                        sig == whole * (sig / whole) + rem,
                ;
            }
            kept = (sig / whole) as u64;
            up = rem > half || (rem == half && (sticky || kept % 2 == 1));
            proof {
                lemma_enclosed(
                    n,
                    d,
                    sig as nat,
                    e as int,
                    sticky,
                    q as nat,
                    kept as nat,
                    rem as nat,
                    half as nat,
                );
            }
        } else {
            proof {
                lemma_pow2_unfold(shift as nat);
                lemma_pow2_pos((shift - 1) as nat);
                if shift - 1 > 127 {
                    lemma_pow2_strictly_increases(127, (shift - 1) as nat);
                }
                lemma_enclosed(
                    n,
                    d,
                    sig as nat,
                    e as int,
                    sticky,
                    q as nat,
                    0,
                    sig as nat,
                    pow2((shift - 1) as nat),
                );
            }
        }
        if up {
            p = pack(q, kept + 1);
            proof {
                lemma_round_up(n, d, q as nat, kept as nat);
            }
        } else {
            p = pack(q, kept);
            proof {
                lemma_round_down(n, d, q as nat, kept as nat);
            }
        }
    }
    proof {
        assert(is_nearest(n, d, p as nat));
        lemma_nearest_is_unique(n, d, p as nat, nearest(n, d));
    }
    p
}

/// The pattern of `kept` steps of `2^q` units, or infinity past the largest one.
fn pack(q: i32, kept: u64) -> (p: u64)
    requires
        0 <= q < 2047,
        kept <= 2 * IMPLICIT,
    ensures
        p == if q * IMPLICIT + kept <= INFINITY {
            q * IMPLICIT + kept
        } else {
            INFINITY as int
        },
{
    assert(q * IMPLICIT <= 2046 * IMPLICIT) by (nonlinear_arith)
        requires
            0 <= q <= 2046,
    ;
    let p: u64 = q as u64 * IMPLICIT + kept;
    if p <= INFINITY {
        p
    } else {
        INFINITY
    }
}

/// A magnitude of `2^2099` units or more is nearest to infinity.
proof fn lemma_overflow(n: nat, d: nat, sig: nat, e: int, sticky: bool, len: nat)
    requires
        d > 0,
        len > 0,
        pow2((len - 1) as nat) <= sig,
        e + BIAS >= 0,
        e + len - 53 >= 2047,
        encloses(sig, e, sticky, n, d),
    ensures
        is_nearest(n, d, INFINITY as nat),
{
    let b = pow2(BIAS as nat);
    let step = pow2((e + BIAS) as nat);
    let top = magnitude(INFINITY as nat);
    let under = magnitude((INFINITY - 1) as nat);
    lemma_pow2_pos(BIAS as nat);
    lemma_pow2_pos((e + BIAS) as nat);
    lemma_power_bounds();
    lemma_magnitude_increases((INFINITY - 1) as nat, INFINITY as nat);
    assert(top == IMPLICIT * pow2(2046)) by {
        lemma_magnitude_of(2046, IMPLICIT as nat);
    }
    lemma_pow2_adds(52, 2046);
    lemma_pow2_adds(2098, BIAS as nat);
    lemma_pow2_adds((len - 1) as nat, (e + BIAS) as nat);
    let big = pow2((len - 1) as nat + (e + BIAS) as nat);
    assert(top * b == pow2(2098 + BIAS as nat));
    lemma_pow2_strictly_increases(
        2098 + BIAS as nat,
        (len - 1) as nat + (e + BIAS) as nat,
    );
    assert(n * b >= d * big) by (nonlinear_arith)
        requires
            d > 0,
            step > 0,
            n * b >= d * (sig * step),
            sig >= pow2((len - 1) as nat),
            big == pow2((len - 1) as nat) * step,
    ;
    assert(n * b >= (d * top) * b) by (nonlinear_arith)
        requires
            d > 0,
            n * b >= d * big,
            top * b < big,
    ;
    lemma_cancel_le((d * top) as int, n as int, b as int);
    assert(d * (under + top) < 2 * n) by (nonlinear_arith)
        requires
            d > 0,
            under < top,
            d * top <= n,
    ;
}

/// Where no bit is lost, the leading bits are exact.
proof fn lemma_exact_fit(n: nat, d: nat, sig: nat, e: int, q: nat, len: nat)
    requires
        d > 0,
        0 < len,
        sig < pow2(len),
        pow2((len - 1) as nat) <= sig,
        e + BIAS >= 0,
        q <= e,
        q >= e + len - 53,
        q > 0 ==> q == e + len - 53,
        encloses(sig, e, false, n, d),
    ensures
        (e - q) < 128,
        sig * pow2((e - q) as nat) < 2 * IMPLICIT,
        q > 0 ==> sig * pow2((e - q) as nat) >= IMPLICIT,
        n == d * ((sig * pow2((e - q) as nat)) * pow2(q)),
{
    let k = (e - q) as nat;
    let b = pow2(BIAS as nat);
    let step = pow2((e + BIAS) as nat);
    lemma_power_bounds();
    lemma_pow2_pos(BIAS as nat);
    lemma_pow2_pos(k);
    lemma_pow2_adds(len, k);
    lemma_pow2_adds((len - 1) as nat, k);
    if len + k < 53 {
        lemma_pow2_strictly_increases(len + k, 53);
    }
    let r = pow2(k);
    assert(sig * r < pow2(len) * r) by (nonlinear_arith)
        requires
            sig < pow2(len),
            r > 0,
    ;
    assert(sig * r >= pow2((len - 1) as nat) * r) by (nonlinear_arith)
        requires
            sig >= pow2((len - 1) as nat),
            r > 0,
    ;
    if q > 0 {
        assert((len - 1) as nat + k == 52);
    }
    lemma_pow2_adds(k, q);
    lemma_pow2_adds(k + q, BIAS as nat);
    assert(k + q + BIAS as nat == (e + BIAS) as nat);
    let u = pow2(q);
    assert((d * ((sig * r) * u)) * b == d * (sig * ((r * u) * b))) by (nonlinear_arith);
    lemma_cancel_le((d * ((sig * r) * u)) as int, n as int, b as int);
    lemma_cancel_le(n as int, (d * ((sig * r) * u)) as int, b as int);
}

/// An exact multiple of a step lies below the middle of that step.
proof fn lemma_tie_is_above(n: nat, d: nat, q: nat, kept: nat)
    requires
        d > 0,
        n == d * (kept * pow2(q)),
    ensures
        2 * n < d * ((2 * kept + 1) * pow2(q)),
{
    let u = pow2(q);
    lemma_pow2_pos(q);
    assert(2 * (d * (kept * u)) < d * ((2 * kept + 1) * u)) by (nonlinear_arith)
        requires
            d > 0,
            u > 0,
    ;
}

/// Leading bits fill the field, unless the number is below the normal range.
proof fn lemma_kept_range(sig: nat, e: int, q: nat, len: nat)
    requires
        0 < len <= 127,
        sig < pow2(len),
        pow2((len - 1) as nat) <= sig,
        q > e,
        q >= e + len - 53,
        q > 0 ==> q == e + len - 53,
    ensures
        sig / pow2((q - e) as nat) < 2 * IMPLICIT,
        q > 0 ==> sig / pow2((q - e) as nat) >= IMPLICIT,
        q > 0 ==> q - e < 128,
{
    let s = (q - e) as nat;
    let w = pow2(s);
    lemma_power_bounds();
    lemma_pow2_pos(s);
    if len <= s + 53 {
        lemma_pow2_adds(s, 53);
        if len < s + 53 {
            lemma_pow2_strictly_increases(len, s + 53);
        }
    }
    vstd::arithmetic::div_mod::lemma_fundamental_div_mod(sig as int, w as int);
    let quot = sig / w;
    assert(quot < 2 * IMPLICIT) by (nonlinear_arith)
        requires
            w > 0,
            sig < w * (2 * IMPLICIT),
            sig == w * quot + sig % w,
            sig % w >= 0,
    ;
    if q > 0 {
        assert((len - 1) as nat == s + 52);
        lemma_pow2_adds(s, 52);
        assert(quot >= IMPLICIT) by (nonlinear_arith)
            requires
                w > 0,
                sig >= w * IMPLICIT,
                sig == w * quot + sig % w,
                sig % w < w,
        ;
    }
}

} // verus!
