//! IEEE 754 binary64 numbers, computed on their bit patterns.
//!
//! Every finite number of the format is a whole multiple of the smallest positive one, `2^-1074`.
//! The specifications count in that unit: a number stands for the integer [`Float::units`], and
//! the result of an operation is the number whose units lie nearest to the exact result, ties
//! going to the pattern with the even last bit. All of it is integer arithmetic, so a layout is the
//! same on every machine.

use crate::rounding::{
    bit_length, encloses, encode, lemma_encloses_exact, lemma_magnitude_of, lemma_nearest_exact,
    lemma_nearest_exists, lemma_nearest_is_monotone, lemma_nearest_zero, lemma_pattern_order,
    lemma_power_bounds, lemma_representable, lemma_rounding_error, magnitude, nearest, power,
    BIAS, IMPLICIT, INFINITY,
};
use vstd::arithmetic::power2::{
    lemma_pow2_adds, lemma_pow2_pos, lemma_pow2_strictly_increases, lemma_pow2_unfold, pow2,
};
use vstd::prelude::*;

verus! {

/// The sign bit.
pub const SIGN: u64 = 0x8000_0000_0000_0000;

/// The one not-a-number pattern that operations give.
pub const QUIET_NAN: u64 = 0x7ff8_0000_0000_0000;

/// How many halvings of one the smallest positive number is away.
pub const UNIT_EXPONENT: u32 = 1074;

/// A binary64 number, held as its bit pattern.
#[derive(Clone, Copy, Debug)]
pub struct Float {
    pub bits: u64,
}

/// The absolute value of an integer.
pub open spec fn distance(i: int) -> nat {
    if i < 0 {
        (-i) as nat
    } else {
        i as nat
    }
}

/// The number with the given sign and pattern.
pub open spec fn signed(negative: bool, p: nat) -> Float {
    Float {
        bits: if negative {
            (SIGN + p) as u64
        } else {
            p as u64
        },
    }
}

impl Float {
    pub open spec fn is_negative(self) -> bool {
        self.bits >= SIGN
    }

    /// The bits without the sign.
    pub open spec fn pattern(self) -> nat {
        if self.is_negative() {
            (self.bits - SIGN) as nat
        } else {
            self.bits as nat
        }
    }

    pub open spec fn spec_is_nan(self) -> bool {
        self.pattern() > INFINITY
    }

    pub open spec fn is_infinite(self) -> bool {
        self.pattern() == INFINITY
    }

    pub open spec fn spec_is_finite(self) -> bool {
        self.pattern() < INFINITY
    }

    pub open spec fn is_zero(self) -> bool {
        self.pattern() == 0
    }

    /// The number counted in units of `2^-1074`.
    pub open spec fn units(self) -> int {
        if self.is_negative() {
            -(magnitude(self.pattern()) as int)
        } else {
            magnitude(self.pattern()) as int
        }
    }

    pub open spec fn nan() -> Float {
        Float { bits: QUIET_NAN }
    }

    /// Whether `self < other`. Nothing is less or greater than a NaN.
    pub open spec fn spec_lt(self, other: Float) -> bool {
        !self.spec_is_nan() && !other.spec_is_nan() && self.units() < other.units()
    }

    /// Whether the two are equal as numbers: the two zeros are, a NaN equals nothing.
    pub open spec fn spec_same(self, other: Float) -> bool {
        !self.spec_is_nan() && !other.spec_is_nan() && self.units() == other.units()
    }

    pub open spec fn spec_neg(self) -> Float {
        signed(!self.is_negative(), self.pattern())
    }

    pub open spec fn spec_abs(self) -> Float {
        signed(false, self.pattern())
    }

    /// The rounded sum.
    pub open spec fn spec_add(self, other: Float) -> Float {
        if self.spec_is_nan() || other.spec_is_nan() || (self.is_infinite() && other.is_infinite()
            && self.is_negative() != other.is_negative()) {
            Float::nan()
        } else if self.is_infinite() {
            self
        } else if other.is_infinite() {
            other
        } else {
            let sum = self.units() + other.units();
            if sum == 0 {
                signed(self.is_negative() && other.is_negative(), 0)
            } else {
                signed(sum < 0, nearest(distance(sum), 1))
            }
        }
    }

    /// The rounded difference.
    pub open spec fn spec_sub(self, other: Float) -> Float {
        self.spec_add(other.spec_neg())
    }

    /// The rounded product.
    pub open spec fn spec_mul(self, other: Float) -> Float {
        let negative = self.is_negative() != other.is_negative();
        if self.spec_is_nan() || other.spec_is_nan() || (self.is_infinite() && other.is_zero())
            || (self.is_zero() && other.is_infinite()) {
            Float::nan()
        } else if self.is_infinite() || other.is_infinite() {
            signed(negative, INFINITY as nat)
        } else {
            signed(
                negative,
                nearest(
                    magnitude(self.pattern()) * magnitude(other.pattern()),
                    pow2(UNIT_EXPONENT as nat),
                ),
            )
        }
    }

    /// The rounded quotient.
    pub open spec fn spec_div(self, other: Float) -> Float {
        let negative = self.is_negative() != other.is_negative();
        if self.spec_is_nan() || other.spec_is_nan() || (self.is_infinite() && other.is_infinite())
            || (self.is_zero() && other.is_zero()) {
            Float::nan()
        } else if self.is_infinite() || other.is_zero() {
            signed(negative, INFINITY as nat)
        } else if other.is_infinite() {
            signed(negative, 0)
        } else {
            signed(
                negative,
                nearest(
                    magnitude(self.pattern()) * pow2(UNIT_EXPONENT as nat),
                    magnitude(other.pattern()),
                ),
            )
        }
    }
}

/// A finite number taken apart: its magnitude is `sig * 2^e` units.
struct Parts {
    sig: u64,
    e: i32,
}

impl Parts {
    spec fn holds(self, p: nat) -> bool {
        &&& magnitude(p) == self.sig * pow2(self.e as nat)
        &&& self.sig < 2 * IMPLICIT
        &&& 0 <= self.e <= 2045
        &&& self.e > 0 ==> self.sig >= IMPLICIT
        &&& self.sig == 0 <==> p == 0
    }
}

impl Float {
    pub fn is_nan(self) -> (r: bool)
        ensures
            r == self.spec_is_nan(),
    {
        self.unsigned() > INFINITY
    }

    pub fn is_finite(self) -> (r: bool)
        ensures
            r == self.spec_is_finite(),
    {
        self.unsigned() < INFINITY
    }

    fn unsigned(self) -> (p: u64)
        ensures
            p == self.pattern(),
            p < SIGN,
    {
        if self.bits >= SIGN {
            self.bits - SIGN
        } else {
            self.bits
        }
    }

    fn with_sign(negative: bool, p: u64) -> (r: Float)
        requires
            p < SIGN,
        ensures
            r == signed(negative, p as nat),
            r.is_negative() == negative,
            r.pattern() == p,
    {
        if negative {
            Float { bits: SIGN + p }
        } else {
            Float { bits: p }
        }
    }

    fn quiet_nan() -> (r: Float)
        ensures
            r == Float::nan(),
    {
        Float { bits: QUIET_NAN }
    }

    fn parts(self) -> (r: Parts)
        requires
            self.spec_is_finite(),
        ensures
            r.holds(self.pattern()),
    {
        let p = self.unsigned();
        let exponent = p / IMPLICIT;
        let fraction = p % IMPLICIT;
        proof {
            vstd::arithmetic::power2::lemma2_to64();
        }
        if exponent == 0 {
            assert(fraction * pow2(0) == fraction) by (nonlinear_arith)
                requires
                    pow2(0) == 1,
            ;
            Parts { sig: fraction, e: 0 }
        } else {
            Parts { sig: IMPLICIT + fraction, e: exponent as i32 - 1 }
        }
    }

    /// `self < other`.
    pub fn lt(self, other: Float) -> (r: bool)
        ensures
            r == self.spec_lt(other),
    {
        if self.is_nan() || other.is_nan() {
            return false;
        }
        let a = self.unsigned();
        let b = other.unsigned();
        proof {
            lemma_pattern_order(a as nat, b as nat);
        }
        if self.bits >= SIGN {
            if other.bits >= SIGN {
                b < a
            } else {
                a > 0 || b > 0
            }
        } else {
            other.bits < SIGN && a < b
        }
    }

    /// `self == other`.
    pub fn same(self, other: Float) -> (r: bool)
        ensures
            r == self.spec_same(other),
    {
        if self.is_nan() || other.is_nan() {
            return false;
        }
        let a = self.unsigned();
        let b = other.unsigned();
        proof {
            lemma_pattern_order(a as nat, b as nat);
        }
        a == b && (a == 0 || (self.bits >= SIGN) == (other.bits >= SIGN))
    }

    /// `-self`.
    pub fn neg(self) -> (r: Float)
        ensures
            r == self.spec_neg(),
    {
        Float::with_sign(self.bits < SIGN, self.unsigned())
    }

    /// The absolute value.
    pub fn abs(self) -> (r: Float)
        ensures
            r == self.spec_abs(),
    {
        Float::with_sign(false, self.unsigned())
    }

    /// `self + other`.
    pub fn add(self, other: Float) -> (r: Float)
        ensures
            r == self.spec_add(other),
    {
        let a = self.unsigned();
        let b = other.unsigned();
        let a_negative = self.bits >= SIGN;
        let b_negative = other.bits >= SIGN;
        if a > INFINITY || b > INFINITY {
            return Float::quiet_nan();
        }
        if a == INFINITY {
            if b == INFINITY && a_negative != b_negative {
                return Float::quiet_nan();
            }
            return self;
        }
        if b == INFINITY {
            return other;
        }
        let x = self.parts();
        let y = other.parts();
        if x.e >= y.e {
            Float::add_aligned(self, a_negative, x, other, b_negative, y)
        } else {
            assert(self.units() + other.units() == other.units() + self.units());
            Float::add_aligned(other, b_negative, y, self, a_negative, x)
        }
    }

    /// The sum of two finite numbers, the first of which has no smaller exponent.
    fn add_aligned(
        a: Float,
        a_negative: bool,
        x: Parts,
        b: Float,
        b_negative: bool,
        y: Parts,
    ) -> (r: Float)
        requires
            a.spec_is_finite(),
            b.spec_is_finite(),
            a_negative == a.is_negative(),
            b_negative == b.is_negative(),
            x.holds(a.pattern()),
            y.holds(b.pattern()),
            x.e >= y.e,
        ensures
            r == a.spec_add(b),
    {
        let gap: u32 = (x.e - y.e) as u32;
        let ghost ma = magnitude(a.pattern());
        let ghost mb = magnitude(b.pattern());
        let ghost sum = a.units() + b.units();
        if gap > 64 {
            proof {
                lemma_far_apart(ma, mb, x, y);
            }
            let sig: u128 = x.sig as u128 * 1024;
            if y.sig == 0 {
                proof {
                    lemma_pattern_order(0, a.pattern());
                    lemma_pattern_order(0, b.pattern());
                }
                let p = encode(sig, x.e - 10, false, Ghost(ma), Ghost(1));
                return Float::with_sign(a_negative, p);
            }
            if a_negative == b_negative {
                let p = encode(sig, x.e - 10, true, Ghost((ma + mb) as nat), Ghost(1));
                Float::with_sign(a_negative, p)
            } else {
                let p = encode(sig - 1, x.e - 10, true, Ghost((ma - mb) as nat), Ghost(1));
                Float::with_sign(a_negative, p)
            }
        } else {
            let w = power(gap);
            proof {
                lemma_power_bounds();
                vstd::arithmetic::power2::lemma2_to64();
                vstd::arithmetic::power2::lemma2_to64_rest();
                if gap < 64 {
                    lemma_pow2_strictly_increases(gap as nat, 64);
                }
                lemma_pow2_adds(gap as nat, y.e as nat);
                assert(x.sig * w <= 2 * IMPLICIT * 0x1_0000_0000_0000_0000) by (nonlinear_arith)
                    requires
                        0 <= x.sig <= 2 * IMPLICIT,
                        0 <= w <= 0x1_0000_0000_0000_0000,
                ;
            }
            let s: u128 = x.sig as u128 * w;
            let t: u128 = y.sig as u128;
            let ghost u = pow2(y.e as nat);
            proof {
                lemma_pow2_pos(y.e as nat);
                assert(ma == s * u) by (nonlinear_arith)
                    requires
                        ma == x.sig * (w * u),
                        s == x.sig * w,
                ;
                assert((s + t) * u == s * u + t * u) by (nonlinear_arith);
                assert((s - t) * u == s * u - t * u) by (nonlinear_arith);
                assert((t - s) * u == t * u - s * u) by (nonlinear_arith);
                assert(s < t ==> s * u < t * u) by (nonlinear_arith)
                    requires
                        u > 0,
                ;
                assert(s > t ==> s * u > t * u) by (nonlinear_arith)
                    requires
                        u > 0,
                ;
                assert(s + t > 0 ==> (s + t) * u > 0) by (nonlinear_arith)
                    requires
                        u > 0,
                ;
            }
            if a_negative == b_negative {
                if s + t == 0 {
                    assert(sum == 0) by (nonlinear_arith)
                        requires
                            s + t == 0,
                            (s + t) * u == s * u + t * u,
                            sum == s * u + t * u || sum == -(s * u) - (t * u),
                    ;
                    return Float::with_sign(a_negative, 0);
                }
                proof {
                    lemma_encloses_exact((s + t) as nat, y.e as int, distance(sum));
                }
                let p = encode(s + t, y.e, false, Ghost(distance(sum)), Ghost(1));
                Float::with_sign(a_negative, p)
            } else if s == t {
                Float::with_sign(false, 0)
            } else if s > t {
                proof {
                    lemma_encloses_exact((s - t) as nat, y.e as int, distance(sum));
                }
                let p = encode(s - t, y.e, false, Ghost(distance(sum)), Ghost(1));
                Float::with_sign(a_negative, p)
            } else {
                proof {
                    lemma_encloses_exact((t - s) as nat, y.e as int, distance(sum));
                }
                let p = encode(t - s, y.e, false, Ghost(distance(sum)), Ghost(1));
                Float::with_sign(b_negative, p)
            }
        }
    }

    /// `self - other`.
    pub fn sub(self, other: Float) -> (r: Float)
        ensures
            r == self.spec_sub(other),
    {
        self.add(other.neg())
    }
}

/// A number more than 64 binary orders below another one moves it by less than a step of ten
/// further bits.
proof fn lemma_far_apart(ma: nat, mb: nat, x: Parts, y: Parts)
    requires
        ma == x.sig * pow2(x.e as nat),
        mb == y.sig * pow2(y.e as nat),
        x.sig >= IMPLICIT,
        x.sig < 2 * IMPLICIT,
        y.sig < 2 * IMPLICIT,
        y.e >= 0,
        x.e - y.e > 64,
    ensures
        encloses((x.sig * 1024) as nat, x.e - 10, false, ma, 1),
        y.sig > 0 ==> encloses((x.sig * 1024) as nat, x.e - 10, true, ma + mb, 1),
        y.sig > 0 ==> mb < ma && encloses(
            (x.sig * 1024 - 1) as nat,
            x.e - 10,
            true,
            (ma - mb) as nat,
            1,
        ),
{
    let e = (x.e - 10) as nat;
    let step = pow2(e);
    let b = pow2(BIAS as nat);
    let scaled = pow2((e + BIAS) as nat);
    vstd::arithmetic::power2::lemma2_to64();
    lemma_power_bounds();
    lemma_pow2_adds(10, e);
    lemma_pow2_pos(BIAS as nat);
    lemma_pow2_pos(e);
    lemma_pow2_adds(e, BIAS as nat);
    let s = x.sig * 1024;
    assert(ma == s * step) by (nonlinear_arith)
        requires
            ma == x.sig * (1024 * step),
            s == x.sig * 1024,
    ;
    // The smaller number is below one step.
    lemma_pow2_adds(53, y.e as nat);
    if 53 + y.e < e {
        lemma_pow2_strictly_increases((53 + y.e) as nat, e);
    }
    let v = pow2(y.e as nat);
    lemma_pow2_pos(y.e as nat);
    assert(mb < step) by (nonlinear_arith)
        requires
            mb == y.sig * v,
            y.sig < 2 * IMPLICIT,
            v > 0,
            (2 * IMPLICIT) * v <= step,
    ;
    assert(y.sig > 0 ==> mb > 0) by (nonlinear_arith)
        requires
            mb == y.sig * v,
            v > 0,
    ;
    assert(ma >= step) by (nonlinear_arith)
        requires
            ma == s * step,
            s >= 1,
    ;
    assert(ma * b == s * scaled) by (nonlinear_arith)
        requires
            ma == s * step,
            scaled == step * b,
    ;
    if y.sig > 0 {
        assert(s * scaled < (ma + mb) * b && (ma + mb) * b < (s + 1) * scaled)
            by (nonlinear_arith)
            requires
                ma == s * step,
                scaled == step * b,
                0 < mb < step,
                b > 0,
        ;
        assert((s - 1) * scaled < (ma - mb) * b && (ma - mb) * b < s * scaled)
            by (nonlinear_arith)
            requires
                ma == s * step,
                scaled == step * b,
                0 < mb < step,
                b > 0,
        ;
    }
}

impl Float {
    /// The whole number `i`.
    pub open spec fn whole(i: int) -> Float {
        signed(i < 0, nearest(distance(i) * pow2(UNIT_EXPONENT as nat), 1))
    }

    /// The nearest whole number, halves going away from zero.
    pub open spec fn spec_round(self) -> Float {
        let one = pow2(UNIT_EXPONENT as nat);
        if self.spec_is_nan() {
            Float::nan()
        } else if self.is_infinite() {
            self
        } else {
            let whole = (2 * magnitude(self.pattern()) + one) / (2 * one);
            signed(self.is_negative(), nearest(whole * one, 1))
        }
    }

    /// The whole part, held within the range of `i32`; nothing for a NaN.
    pub open spec fn spec_to_i32(self) -> int {
        let whole = magnitude(self.pattern()) / pow2(UNIT_EXPONENT as nat);
        if self.spec_is_nan() {
            0
        } else if self.is_negative() {
            if whole > 0x8000_0000 {
                i32::MIN as int
            } else {
                -(whole as int)
            }
        } else if whole > i32::MAX {
            i32::MAX as int
        } else {
            whole as int
        }
    }

    /// The nearest of the numbers from `low` to `high`; a NaN stays one.
    pub open spec fn spec_clamp(self, low: Float, high: Float) -> Float {
        let raised = if self.spec_lt(low) {
            low
        } else {
            self
        };
        if high.spec_lt(raised) {
            high
        } else {
            raised
        }
    }

    /// The larger one, or the one that is a number.
    pub open spec fn spec_max(self, other: Float) -> Float {
        if self.spec_is_nan() || self.spec_lt(other) {
            other
        } else {
            self
        }
    }

    /// The smaller one, or the one that is a number.
    pub open spec fn spec_min(self, other: Float) -> Float {
        if self.spec_is_nan() || other.spec_lt(self) {
            other
        } else {
            self
        }
    }

    /// `self * other`.
    pub fn mul(self, other: Float) -> (r: Float)
        ensures
            r == self.spec_mul(other),
    {
        let a = self.unsigned();
        let b = other.unsigned();
        let negative = (self.bits >= SIGN) != (other.bits >= SIGN);
        if a > INFINITY || b > INFINITY {
            return Float::quiet_nan();
        }
        if a == INFINITY || b == INFINITY {
            if a == 0 || b == 0 {
                return Float::quiet_nan();
            }
            return Float::with_sign(negative, INFINITY);
        }
        let x = self.parts();
        let y = other.parts();
        let ghost n = magnitude(a as nat) * magnitude(b as nat);
        let ghost d = pow2(UNIT_EXPONENT as nat);
        proof {
            lemma_pow2_pos(UNIT_EXPONENT as nat);
            assert(x.sig * y.sig <= (2 * IMPLICIT) * (2 * IMPLICIT)) by (nonlinear_arith)
                requires
                    0 <= x.sig <= 2 * IMPLICIT,
                    0 <= y.sig <= 2 * IMPLICIT,
            ;
        }
        if a == 0 || b == 0 {
            proof {
                lemma_pattern_order(a as nat, b as nat);
                assert(n == 0) by (nonlinear_arith)
                    requires
                        magnitude(a as nat) == 0 || magnitude(b as nat) == 0,
                        n == magnitude(a as nat) * magnitude(b as nat),
                ;
                lemma_nearest_zero(d);
            }
            return Float::with_sign(negative, 0);
        }
        let sig: u128 = x.sig as u128 * y.sig as u128;
        let e: i32 = x.e + y.e - UNIT_EXPONENT as i32;
        proof {
            assert(sig > 0) by (nonlinear_arith)
                requires
                    x.sig > 0,
                    y.sig > 0,
                    sig == x.sig * y.sig,
            ;
            let step = pow2((e + BIAS) as nat);
            let bias = pow2(BIAS as nat);
            let p = pow2(x.e as nat);
            let q = pow2(y.e as nat);
            lemma_pow2_adds(x.e as nat, y.e as nat);
            lemma_pow2_adds((x.e + y.e) as nat, BIAS as nat);
            lemma_pow2_adds(UNIT_EXPONENT as nat, (e + BIAS) as nat);
            assert(UNIT_EXPONENT as nat + (e + BIAS) as nat == (x.e + y.e) as nat + BIAS as nat);
            assert(n * bias == d * (sig * step)) by (nonlinear_arith)
                requires
                    n == (x.sig * p) * (y.sig * q),
                    sig == x.sig * y.sig,
                    d * step == (p * q) * bias,
            ;
        }
        let r = encode(sig, e, false, Ghost(n), Ghost(d));
        Float::with_sign(negative, r)
    }

    /// `self / other`.
    pub fn div(self, other: Float) -> (r: Float)
        ensures
            r == self.spec_div(other),
    {
        let a = self.unsigned();
        let b = other.unsigned();
        let negative = (self.bits >= SIGN) != (other.bits >= SIGN);
        if a > INFINITY || b > INFINITY {
            return Float::quiet_nan();
        }
        if a == INFINITY {
            if b == INFINITY {
                return Float::quiet_nan();
            }
            return Float::with_sign(negative, INFINITY);
        }
        if b == 0 {
            if a == 0 {
                return Float::quiet_nan();
            }
            return Float::with_sign(negative, INFINITY);
        }
        if b == INFINITY {
            return Float::with_sign(negative, 0);
        }
        let x = self.parts();
        let y = other.parts();
        let ghost n = magnitude(a as nat) * pow2(UNIT_EXPONENT as nat);
        let ghost d = magnitude(b as nat);
        proof {
            lemma_pattern_order(a as nat, b as nat);
        }
        if a == 0 {
            proof {
                assert(n == 0) by (nonlinear_arith)
                    requires
                        magnitude(a as nat) == 0,
                        n == magnitude(a as nat) * pow2(UNIT_EXPONENT as nat),
                ;
                lemma_nearest_zero(d);
            }
            return Float::with_sign(negative, 0);
        }
        let len = bit_length(x.sig as u128);
        proof {
            lemma_power_bounds();
            if len > 54 {
                lemma_pow2_strictly_increases(53, (len - 1) as nat);
            }
        }
        // The dividend with its leading bit in place 116.
        let k: u32 = 53 + 64 - len;
        let w = power(k);
        proof {
            vstd::arithmetic::power2::lemma2_to64();
            lemma_pow2_adds(len as nat, k as nat);
            lemma_pow2_adds((len - 1) as nat, k as nat);
            lemma_pow2_adds(53, 64);
            lemma_pow2_adds(52, 64);
            assert((len - 1) as nat + k as nat == 52 + 64);
            assert(x.sig * w < pow2(len as nat) * w) by (nonlinear_arith)
                requires
                    x.sig < pow2(len as nat),
                    w > 0,
            ;
            assert(x.sig * w >= pow2((len - 1) as nat) * w) by (nonlinear_arith)
                requires
                    x.sig >= pow2((len - 1) as nat),
                    w > 0,
            ;
        }
        let dividend: u128 = x.sig as u128 * w;
        let divisor: u128 = y.sig as u128;
        let sig: u128 = dividend / divisor;
        let rem: u128 = dividend % divisor;
        let e: i32 = x.e - k as i32 - y.e + UNIT_EXPONENT as i32;
        proof {
            vstd::arithmetic::div_mod::lemma_fundamental_div_mod(dividend as int, divisor as int);
            assert(sig >= 4 * IMPLICIT) by (nonlinear_arith)
                requires
                    dividend >= IMPLICIT * 0x1_0000_0000_0000_0000,
                    0 < divisor < 2 * IMPLICIT,
                    dividend == divisor * sig + rem,
                    rem < divisor,
            ;
            assert(sig <= dividend) by (nonlinear_arith)
                requires
                    divisor >= 1,
                    dividend == divisor * sig + rem,
                    rem >= 0,
                    sig >= 0,
            ;
            lemma_quotient_enclosed(
                n,
                d,
                x.sig as nat,
                x.e as nat,
                y.sig as nat,
                y.e as nat,
                k as nat,
                sig as nat,
                rem as nat,
            );
        }
        let r = encode(sig, e, rem > 0, Ghost(n), Ghost(d));
        Float::with_sign(negative, r)
    }

    /// The whole number `i`.
    pub fn from_i32(i: i32) -> (r: Float)
        ensures
            r == Float::whole(i as int),
    {
        let ghost n = distance(i as int) * pow2(UNIT_EXPONENT as nat);
        if i == 0 {
            proof {
                assert(n == 0) by (nonlinear_arith)
                    requires
                        n == 0 * pow2(UNIT_EXPONENT as nat),
                ;
                lemma_nearest_zero(1);
            }
            return Float::with_sign(false, 0);
        }
        let size: u128 = if i < 0 {
            (-(i as i64)) as u128
        } else {
            i as u128
        };
        proof {
            lemma_encloses_exact(size as nat, UNIT_EXPONENT as int, n);
        }
        let p = encode(size, UNIT_EXPONENT as i32, false, Ghost(n), Ghost(1));
        Float::with_sign(i < 0, p)
    }

    /// The nearest whole number, halves going away from zero.
    pub fn round(self) -> (r: Float)
        ensures
            r == self.spec_round(),
    {
        let a = self.unsigned();
        if a > INFINITY {
            return Float::quiet_nan();
        }
        if a == INFINITY {
            return self;
        }
        let negative = self.bits >= SIGN;
        let x = self.parts();
        let ghost one = pow2(UNIT_EXPONENT as nat);
        let ghost m = magnitude(a as nat);
        let ghost whole = (2 * m + one) / (2 * one);
        if x.e >= UNIT_EXPONENT as i32 {
            proof {
                lemma_whole_already(m, x.sig as nat, x.e as nat);
                lemma_nearest_exact(a as nat);
            }
            return Float::with_sign(negative, a);
        }
        let shift: u32 = (UNIT_EXPONENT as i32 - x.e) as u32;
        proof {
            lemma_rounded_whole(m, x.sig as nat, x.e as nat);
            lemma_pow2_pos((shift - 1) as nat);
        }
        if shift >= 55 {
            proof {
                lemma_power_bounds();
                lemma_pow2_strictly_increases(53, (shift - 1) as nat);
                lemma_pow2_unfold(shift as nat);
                assert(whole == 0) by {
                    vstd::arithmetic::div_mod::lemma_basic_div(
                        (x.sig + pow2((shift - 1) as nat)) as int,
                        pow2(shift as nat) as int,
                    );
                }
                assert(whole * one == 0) by (nonlinear_arith)
                    requires
                        whole == 0,
                ;
                lemma_nearest_zero(1);
            }
            return Float::with_sign(negative, 0);
        }
        let half = power(shift - 1);
        let step = power(shift);
        proof {
            lemma_pow2_unfold(shift as nat);
            lemma_power_bounds();
            if shift < 53 {
                lemma_pow2_strictly_increases(shift as nat, 53);
            } else if shift == 54 {
                lemma_pow2_unfold(54);
            }
        }
        let size: u128 = (x.sig as u128 + half) / step;
        assert(size == whole);
        if size == 0 {
            proof {
                assert(whole * one == 0) by (nonlinear_arith)
                    requires
                        whole == 0,
                ;
                lemma_nearest_zero(1);
            }
            return Float::with_sign(negative, 0);
        }
        proof {
            lemma_encloses_exact(size as nat, UNIT_EXPONENT as int, whole * one);
            assert(size <= x.sig + half) by (nonlinear_arith)
                requires
                    size == (x.sig + half) / (step as int),
                    step > 0,
                    x.sig >= 0,
                    half >= 0,
            ;
        }
        let p = encode(size, UNIT_EXPONENT as i32, false, Ghost(whole * one), Ghost(1));
        Float::with_sign(negative, p)
    }

    /// The whole part, held within the range of `i32`.
    pub fn to_i32(self) -> (r: i32)
        ensures
            r == self.spec_to_i32(),
    {
        let a = self.unsigned();
        if a > INFINITY {
            return 0;
        }
        let negative = self.bits >= SIGN;
        let ghost one = pow2(UNIT_EXPONENT as nat);
        let ghost m = magnitude(a as nat);
        let ghost whole = m / one;
        let extreme: i32 = if negative {
            i32::MIN
        } else {
            i32::MAX
        };
        if a == INFINITY {
            proof {
                lemma_magnitude_of(2046, IMPLICIT as nat);
                lemma_large_whole(m, IMPLICIT as nat, 2046);
            }
            return extreme;
        }
        let x = self.parts();
        if x.e >= UNIT_EXPONENT as i32 {
            proof {
                lemma_large_whole(m, x.sig as nat, x.e as nat);
            }
            return extreme;
        }
        let shift: u32 = (UNIT_EXPONENT as i32 - x.e) as u32;
        proof {
            lemma_cut_whole(m, x.sig as nat, x.e as nat);
            lemma_power_bounds();
        }
        if shift >= 54 {
            proof {
                lemma_pow2_strictly_increases(53, shift as nat);
                vstd::arithmetic::div_mod::lemma_basic_div(
                    x.sig as int,
                    pow2(shift as nat) as int,
                );
            }
            return 0;
        }
        let step = power(shift);
        let size: u128 = x.sig as u128 / step;
        assert(size == whole);
        if negative {
            if size > 0x8000_0000 {
                i32::MIN
            } else {
                (-(size as i64)) as i32
            }
        } else if size > 0x7fff_ffff {
            i32::MAX
        } else {
            size as i32
        }
    }

    /// The nearest of the numbers from `low` to `high`.
    pub fn clamp(self, low: Float, high: Float) -> (r: Float)
        requires
            !low.spec_is_nan(),
            !high.spec_is_nan(),
            !high.spec_lt(low),
        ensures
            r == self.spec_clamp(low, high),
    {
        let raised = if self.lt(low) {
            low
        } else {
            self
        };
        if high.lt(raised) {
            high
        } else {
            raised
        }
    }

    /// The larger of the two.
    pub fn max(self, other: Float) -> (r: Float)
        ensures
            r == self.spec_max(other),
    {
        if self.is_nan() || self.lt(other) {
            other
        } else {
            self
        }
    }

    /// The smaller of the two.
    pub fn min(self, other: Float) -> (r: Float)
        ensures
            r == self.spec_min(other),
    {
        if self.is_nan() || other.lt(self) {
            other
        } else {
            self
        }
    }
}

/// What dividing significands tells of the quotient.
proof fn lemma_quotient_enclosed(
    n: nat,
    d: nat,
    xs: nat,
    xe: nat,
    ys: nat,
    ye: nat,
    k: nat,
    sig: nat,
    rem: nat,
)
    requires
        n == (xs * pow2(xe)) * pow2(UNIT_EXPONENT as nat),
        d == ys * pow2(ye),
        xs * pow2(k) == ys * sig + rem,
        rem < ys,
        k <= 117,
        xe <= 2045,
        ye <= 2045,
    ensures
        encloses(sig, xe - k - ye + UNIT_EXPONENT, rem > 0, n, d),
{
    let e = xe - k - ye + UNIT_EXPONENT;
    let step = pow2((e + BIAS) as nat);
    let b = pow2(BIAS as nat);
    let one = pow2(UNIT_EXPONENT as nat);
    let w = pow2(k);
    let p = pow2(xe);
    let q = pow2(ye);
    let z = pow2((xe - k + UNIT_EXPONENT + BIAS) as nat);
    lemma_pow2_pos((xe - k + UNIT_EXPONENT + BIAS) as nat);
    lemma_pow2_adds(xe, UNIT_EXPONENT as nat);
    lemma_pow2_adds(xe + UNIT_EXPONENT as nat, BIAS as nat);
    lemma_pow2_adds(k, (xe - k + UNIT_EXPONENT + BIAS) as nat);
    lemma_pow2_adds(ye, (e + BIAS) as nat);
    assert(xe + UNIT_EXPONENT as nat + BIAS as nat == k + (xe - k + UNIT_EXPONENT + BIAS) as nat);
    assert(ye + (e + BIAS) as nat == (xe - k + UNIT_EXPONENT + BIAS) as nat);
    assert(n * b == (xs * w) * z) by (nonlinear_arith)
        requires
            n == (xs * p) * one,
            (p * one) * b == w * z,
    ;
    assert(d * (sig * step) == (ys * sig) * z && d * ((sig + 1) * step) == (ys * sig + ys) * z)
        by (nonlinear_arith)
        requires
            d == ys * q,
            q * step == z,
    ;
    assert(rem > 0 ==> (ys * sig) * z < (ys * sig + rem) * z) by (nonlinear_arith)
        requires
            z > 0,
    ;
    assert((ys * sig + rem) * z < (ys * sig + ys) * z) by (nonlinear_arith)
        requires
            z > 0,
            rem < ys,
    ;
}

/// From exponent 1074 on every number is whole.
proof fn lemma_whole_already(m: nat, sig: nat, e: nat)
    requires
        m == sig * pow2(e),
        e >= UNIT_EXPONENT,
    ensures
        ((2 * m + pow2(UNIT_EXPONENT as nat)) / (2 * pow2(UNIT_EXPONENT as nat))) * pow2(
            UNIT_EXPONENT as nat,
        ) == m,
{
    let one = pow2(UNIT_EXPONENT as nat);
    let w = pow2((e - UNIT_EXPONENT) as nat);
    lemma_pow2_adds((e - UNIT_EXPONENT) as nat, UNIT_EXPONENT as nat);
    lemma_pow2_pos(UNIT_EXPONENT as nat);
    let k = sig * w;
    assert(m == k * one) by (nonlinear_arith)
        requires
            m == sig * (w * one),
            k == sig * w,
    ;
    assert(2 * m + one == k * (2 * one) + one) by (nonlinear_arith)
        requires
            m == k * one,
    ;
    vstd::arithmetic::div_mod::lemma_fundamental_div_mod_converse(
        (2 * m + one) as int,
        (2 * one) as int,
        k as int,
        one as int,
    );
}

/// The rounded whole number is found among the leading bits.
proof fn lemma_rounded_whole(m: nat, sig: nat, e: nat)
    requires
        m == sig * pow2(e),
        e < UNIT_EXPONENT,
    ensures
        (2 * m + pow2(UNIT_EXPONENT as nat)) / (2 * pow2(UNIT_EXPONENT as nat)) == (sig + pow2(
            (UNIT_EXPONENT - e - 1) as nat,
        )) / pow2((UNIT_EXPONENT - e) as nat),
{
    let one = pow2(UNIT_EXPONENT as nat);
    let p = pow2(e);
    let s = (UNIT_EXPONENT - e) as nat;
    let w = pow2(s);
    let h = pow2((s - 1) as nat);
    lemma_pow2_unfold(s);
    lemma_pow2_pos(e);
    lemma_pow2_pos(s);
    lemma_pow2_adds(e, s);
    let k = (sig + h) / w;
    let r = (sig + h) % w;
    vstd::arithmetic::div_mod::lemma_fundamental_div_mod((sig + h) as int, w as int);
    assert(2 * m + one == k * (2 * one) + (2 * p) * r) by (nonlinear_arith)
        requires
            m == sig * p,
            one == p * w,
            w == 2 * h,
            sig + h == w * k + r,
    ;
    assert(0 <= (2 * p) * r && (2 * p) * r < 2 * one) by (nonlinear_arith)
        requires
            one == p * w,
            0 <= r < w,
            p > 0,
    ;
    vstd::arithmetic::div_mod::lemma_fundamental_div_mod_converse(
        (2 * m + one) as int,
        (2 * one) as int,
        k as int,
        ((2 * p) * r) as int,
    );
}

/// The whole part is found among the leading bits.
proof fn lemma_cut_whole(m: nat, sig: nat, e: nat)
    requires
        m == sig * pow2(e),
        e < UNIT_EXPONENT,
    ensures
        m / pow2(UNIT_EXPONENT as nat) == sig / pow2((UNIT_EXPONENT - e) as nat),
{
    let one = pow2(UNIT_EXPONENT as nat);
    let p = pow2(e);
    let w = pow2((UNIT_EXPONENT - e) as nat);
    lemma_pow2_pos(e);
    lemma_pow2_pos((UNIT_EXPONENT - e) as nat);
    lemma_pow2_adds(e, (UNIT_EXPONENT - e) as nat);
    let k = sig / w;
    let r = sig % w;
    vstd::arithmetic::div_mod::lemma_fundamental_div_mod(sig as int, w as int);
    assert(m == k * one + p * r) by (nonlinear_arith)
        requires
            m == sig * p,
            one == p * w,
            sig == w * k + r,
    ;
    assert(0 <= p * r && p * r < one) by (nonlinear_arith)
        requires
            one == p * w,
            0 <= r < w,
            p > 0,
    ;
    vstd::arithmetic::div_mod::lemma_fundamental_div_mod_converse(
        m as int,
        one as int,
        k as int,
        (p * r) as int,
    );
}

/// Past exponent 1074 the whole part is past the range of `i32`.
proof fn lemma_large_whole(m: nat, sig: nat, e: nat)
    requires
        m == sig * pow2(e),
        sig >= IMPLICIT,
        e >= UNIT_EXPONENT,
    ensures
        m / pow2(UNIT_EXPONENT as nat) >= IMPLICIT,
{
    let one = pow2(UNIT_EXPONENT as nat);
    let w = pow2((e - UNIT_EXPONENT) as nat);
    lemma_pow2_adds((e - UNIT_EXPONENT) as nat, UNIT_EXPONENT as nat);
    lemma_pow2_pos(UNIT_EXPONENT as nat);
    lemma_pow2_pos((e - UNIT_EXPONENT) as nat);
    let k = sig * w;
    assert(k >= IMPLICIT) by (nonlinear_arith)
        requires
            k == sig * w,
            sig >= IMPLICIT,
            w >= 1,
    ;
    assert(m == k * one) by (nonlinear_arith)
        requires
            m == sig * (w * one),
            k == sig * w,
    ;
    vstd::arithmetic::div_mod::lemma_fundamental_div_mod_converse(
        m as int,
        one as int,
        k as int,
        0,
    );
}

/// Whole numbers up to `2^53` are held exactly.
pub proof fn lemma_whole(i: int)
    requires
        -2 * IMPLICIT < i < 2 * IMPLICIT,
    ensures
        Float::whole(i).spec_is_finite(),
        Float::whole(i).units() == i * pow2(UNIT_EXPONENT as nat),
        Float::whole(i).is_negative() == (i < 0),
        Float::whole(0) == (Float { bits: 0 }),
{
    let one = pow2(UNIT_EXPONENT as nat);
    let p = lemma_representable(distance(i), UNIT_EXPONENT as nat);
    assert(-(-i * one) == i * one) by (nonlinear_arith);
    assert(0 * one == 0) by (nonlinear_arith);
    lemma_nearest_zero(1);
}

impl Float {
    /// Whether the two numbers have a sum that the format holds.
    pub open spec fn adds_exactly(self, other: Float) -> bool {
        let sum = self.spec_add(other);
        &&& self.spec_is_finite() && other.spec_is_finite() && sum.spec_is_finite()
        &&& sum.units() == self.units() + other.units()
    }

    /// Whether the two numbers have a difference that the format holds.
    pub open spec fn subtracts_exactly(self, other: Float) -> bool {
        self.adds_exactly(other.spec_neg())
    }

    /// Whether the two numbers have a product that the format holds.
    pub open spec fn multiplies_exactly(self, other: Float) -> bool {
        let product = self.spec_mul(other);
        &&& self.spec_is_finite() && other.spec_is_finite() && product.spec_is_finite()
        &&& product.units() * pow2(UNIT_EXPONENT as nat) == self.units() * other.units()
    }

    /// Whether the two numbers have a quotient that the format holds.
    pub open spec fn divides_exactly(self, other: Float) -> bool {
        let quotient = self.spec_div(other);
        &&& self.spec_is_finite() && other.spec_is_finite() && quotient.spec_is_finite()
        &&& quotient.units() * other.units() == self.units() * pow2(UNIT_EXPONENT as nat)
    }
}

/// Changing the sign negates.
pub proof fn lemma_neg(a: Float)
    ensures
        a.spec_neg().units() == -a.units(),
        a.spec_neg().spec_is_nan() == a.spec_is_nan(),
        a.spec_neg().spec_is_finite() == a.spec_is_finite(),
        a.spec_neg().spec_neg() == a,
{
}

/// A sum of finite numbers is the number nearest to the exact sum.
pub proof fn lemma_add_finite(a: Float, b: Float)
    requires
        a.spec_is_finite(),
        b.spec_is_finite(),
    ensures
        !a.spec_add(b).spec_is_nan(),
        a.spec_add(b).units() == ({
            let sum = a.units() + b.units();
            if sum < 0 {
                -(magnitude(nearest(distance(sum), 1)) as int)
            } else {
                magnitude(nearest(distance(sum), 1)) as int
            }
        }),
{
    let sum = a.units() + b.units();
    lemma_nearest_exists(distance(sum), 1);
    lemma_nearest_zero(1);
    assert(magnitude(0) == 0);
}

/// A sum that some number holds is found.
pub proof fn lemma_add_exact(a: Float, b: Float, c: Float)
    requires
        a.spec_is_finite(),
        b.spec_is_finite(),
        c.spec_is_finite(),
        c.units() == a.units() + b.units(),
    ensures
        a.adds_exactly(b),
        a.spec_add(b).units() == c.units(),
{
    lemma_add_finite(a, b);
    lemma_nearest_exact(c.pattern());
    lemma_nearest_zero(1);
    assert(magnitude(0) == 0);
    lemma_pattern_order(0, c.pattern());
}

/// Rounded sums keep the order of the exact ones.
pub proof fn lemma_add_monotone(a: Float, b: Float, c: Float, d: Float)
    requires
        a.spec_is_finite(),
        b.spec_is_finite(),
        c.spec_is_finite(),
        d.spec_is_finite(),
        a.units() + b.units() <= c.units() + d.units(),
    ensures
        !a.spec_add(b).spec_is_nan(),
        !c.spec_add(d).spec_is_nan(),
        a.spec_add(b).units() <= c.spec_add(d).units(),
{
    lemma_add_finite(a, b);
    lemma_add_finite(c, d);
    let s = distance(a.units() + b.units());
    let t = distance(c.units() + d.units());
    if s <= t {
        lemma_nearest_is_monotone(s, 1, t, 1);
        lemma_pattern_order(nearest(s, 1), nearest(t, 1));
    } else {
        lemma_nearest_is_monotone(t, 1, s, 1);
        lemma_pattern_order(nearest(t, 1), nearest(s, 1));
    }
}

/// Rounded quotients by a positive number keep the order of what is divided.
pub proof fn lemma_div_monotone(a: Float, b: Float, d: Float)
    requires
        a.spec_is_finite(),
        b.spec_is_finite(),
        d.spec_is_finite(),
        0 < d.units(),
    ensures
        a.units() <= b.units() ==> !b.spec_div(d).spec_lt(a.spec_div(d)),
{
    let one = pow2(UNIT_EXPONENT as nat);
    let m = magnitude(a.pattern()) * one;
    let n = magnitude(b.pattern()) * one;
    let w = magnitude(d.pattern());
    assert(magnitude(0) == 0);
    lemma_nearest_exists(m, w);
    lemma_nearest_exists(n, w);
    lemma_nearest_zero(w);
    assert(0 * one == 0) by (nonlinear_arith);
    lemma_pattern_order(nearest(m, w), nearest(n, w));
    if magnitude(a.pattern()) <= magnitude(b.pattern()) {
        assert(m * w <= n * w) by (nonlinear_arith)
            requires
                magnitude(a.pattern()) <= magnitude(b.pattern()),
                m == magnitude(a.pattern()) * one,
                n == magnitude(b.pattern()) * one,
        ;
        lemma_nearest_is_monotone(m, w, n, w);
    }
    if magnitude(b.pattern()) <= magnitude(a.pattern()) {
        assert(n * w <= m * w) by (nonlinear_arith)
            requires
                magnitude(b.pattern()) <= magnitude(a.pattern()),
                m == magnitude(a.pattern()) * one,
                n == magnitude(b.pattern()) * one,
        ;
        lemma_nearest_is_monotone(n, w, m, w);
    }
}

/// Where `a / d` is the exact sum of `b` and `c`, rounding the one gives what rounding the other
/// does.
pub proof fn lemma_quotient_is_sum(a: Float, d: Float, b: Float, c: Float)
    requires
        a.spec_is_finite(),
        d.spec_is_finite(),
        b.spec_is_finite(),
        c.spec_is_finite(),
        0 < d.units(),
        (b.units() + c.units()) * d.units() == a.units() * pow2(UNIT_EXPONENT as nat),
    ensures
        !a.spec_div(d).spec_is_nan(),
        !b.spec_add(c).spec_is_nan(),
        a.spec_div(d).units() == b.spec_add(c).units(),
{
    let one = pow2(UNIT_EXPONENT as nat);
    let w = magnitude(d.pattern());
    let sum = b.units() + c.units();
    let n = magnitude(a.pattern()) * one;
    let m = distance(sum);
    assert(magnitude(0) == 0);
    lemma_pow2_pos(UNIT_EXPONENT as nat);
    lemma_add_finite(b, c);
    lemma_nearest_exists(n, w);
    lemma_nearest_zero(w);
    lemma_nearest_zero(1);
    assert(0 * one == 0) by (nonlinear_arith);
    assert((sum < 0 <==> a.units() < 0) && n * 1 == m * w) by (nonlinear_arith)
        requires
            sum * d.units() == a.units() * one,
            one > 0,
            w > 0,
            w == d.units(),
            n == magnitude(a.pattern()) * one,
            magnitude(a.pattern()) == if a.units() < 0 {
                -a.units()
            } else {
                a.units()
            },
            m == if sum < 0 {
                -sum
            } else {
                sum
            },
    ;
    lemma_nearest_is_monotone(n, w, m, 1);
    lemma_nearest_is_monotone(m, 1, n, w);
}

/// One is a large number of units.
pub(crate) proof fn lemma_unit_is_large()
    ensures
        pow2(UNIT_EXPONENT as nat) >= 0x1_0000_0000_0000_0000,
{
    vstd::arithmetic::power2::lemma2_to64();
    lemma_pow2_strictly_increases(64, UNIT_EXPONENT as nat);
}

/// A sum of no more than `2^52` is finite and off by less than one.
pub proof fn lemma_add_near(a: Float, b: Float)
    requires
        a.spec_is_finite(),
        b.spec_is_finite(),
        distance(a.units() + b.units()) <= IMPLICIT * pow2(UNIT_EXPONENT as nat),
    ensures
        a.spec_add(b).spec_is_finite(),
        distance(a.spec_add(b).units()) <= IMPLICIT * pow2(UNIT_EXPONENT as nat),
        distance(a.spec_add(b).units() - (a.units() + b.units())) < pow2(UNIT_EXPONENT as nat),
{
    let one = pow2(UNIT_EXPONENT as nat);
    let n = distance(a.units() + b.units());
    let top = lemma_representable(IMPLICIT as nat, UNIT_EXPONENT as nat);
    lemma_add_finite(a, b);
    lemma_nearest_is_monotone(n, 1, IMPLICIT as nat * one, 1);
    let p = nearest(n, 1);
    let m = magnitude(p);
    lemma_pattern_order(p, top);
    lemma_rounding_error(n, 1);
    lemma_nearest_zero(1);
    vstd::arithmetic::power2::lemma2_to64();
    lemma_pow2_strictly_increases(10, UNIT_EXPONENT as nat);
    assert(1 * m == m && 1 * (m + IMPLICIT) == m + IMPLICIT) by (nonlinear_arith);
    assert(m - n < one && n - m < one) by (nonlinear_arith)
        requires
            2 * IMPLICIT * (m - n) <= m + IMPLICIT,
            2 * IMPLICIT * (n - m) <= m + IMPLICIT,
            m <= IMPLICIT * one,
            one >= 1000,
    ;
    assert(a.spec_add(b).pattern() == p || a.spec_add(b).pattern() == 0);
}

/// Twice a number that is not large is held exactly.
pub proof fn lemma_twice(a: Float)
    requires
        !a.is_negative(),
        a.spec_is_finite(),
        a.units() <= pow2(UNIT_EXPONENT as nat),
    ensures
        Float::whole(2).spec_mul(a).spec_is_finite(),
        !Float::whole(2).spec_mul(a).is_negative(),
        Float::whole(2).spec_mul(a).units() == 2 * a.units(),
{
    let one = pow2(UNIT_EXPONENT as nat);
    let p = a.pattern();
    let e = p / (IMPLICIT as nat);
    let f = p % (IMPLICIT as nat);
    let m = magnitude(p);
    lemma_whole(2);
    lemma_pow2_pos(UNIT_EXPONENT as nat);
    vstd::arithmetic::power2::lemma2_to64();
    assert(0 < 2 * one);
    lemma_pattern_order(0, Float::whole(2).pattern());
    let q = if e == 0 {
        assert((2 * f) * 1 == 2 * f) by (nonlinear_arith);
        lemma_representable(2 * f, 0)
    } else {
        if e > 2045 {
            lemma_pow2_strictly_increases(UNIT_EXPONENT as nat, (e - 1) as nat);
            assert((IMPLICIT + f) * pow2((e - 1) as nat) > one) by (nonlinear_arith)
                requires
                    pow2((e - 1) as nat) > one,
                    one > 0,
                    f >= 0,
            ;
        }
        lemma_pow2_unfold(e);
        assert((IMPLICIT as nat + f) * pow2(e) == 2 * ((IMPLICIT as nat + f) * pow2(
            (e - 1) as nat,
        ))) by (nonlinear_arith)
            requires
                pow2(e) == 2 * pow2((e - 1) as nat),
        ;
        lemma_representable(IMPLICIT as nat + f, e)
    };
    assert(magnitude(q) == 2 * m);
    lemma_nearest_exact(q);
    let n = magnitude(Float::whole(2).pattern()) * m;
    assert(n * 1 == (2 * m) * one) by (nonlinear_arith)
        requires
            n == (2 * one) * m,
    ;
    lemma_nearest_is_monotone(n, one, 2 * m, 1);
    lemma_nearest_is_monotone(2 * m, 1, n, one);
}

/// Rounding leaves a whole number as it is, and its whole part is that number.
pub proof fn lemma_whole_is_whole(i: int)
    requires
        -2 * IMPLICIT < i < 2 * IMPLICIT,
    ensures
        Float::whole(i).spec_round() == Float::whole(i),
        i32::MIN <= i <= i32::MAX ==> Float::whole(i).spec_to_i32() == i,
{
    let one = pow2(UNIT_EXPONENT as nat);
    let n = distance(i);
    let a = Float::whole(i);
    lemma_whole(i);
    lemma_pow2_pos(UNIT_EXPONENT as nat);
    let m = magnitude(a.pattern());
    assert(m == n * one) by (nonlinear_arith)
        requires
            m == i * one || m == -(i * one),
            m >= 0,
            one > 0,
            n == i || n == -i,
            n >= 0,
    ;
    assert(2 * m + one == n * (2 * one) + one) by (nonlinear_arith)
        requires
            m == n * one,
    ;
    vstd::arithmetic::div_mod::lemma_fundamental_div_mod_converse(
        (2 * m + one) as int,
        (2 * one) as int,
        n as int,
        one as int,
    );
    vstd::arithmetic::div_mod::lemma_fundamental_div_mod_converse(
        m as int,
        one as int,
        n as int,
        0,
    );
    lemma_nearest_exact(a.pattern());
}

/// The whole number that a number of no more than `2^52` is rounded to: no other is nearer, and a
/// half goes away from zero.
pub proof fn lemma_round_near(a: Float) -> (k: int)
    requires
        a.spec_is_finite(),
        distance(a.units()) <= IMPLICIT * pow2(UNIT_EXPONENT as nat),
    ensures
        a.spec_round().spec_is_finite(),
        a.spec_round().units() == k * pow2(UNIT_EXPONENT as nat),
        distance(k) <= IMPLICIT,
        ({
            let one = pow2(UNIT_EXPONENT as nat);
            if a.units() >= 0 {
                2 * (k * one) - one <= 2 * a.units() < 2 * (k * one) + one
            } else {
                2 * (k * one) - one < 2 * a.units() <= 2 * (k * one) + one
            }
        }),
        i32::MIN <= k <= i32::MAX ==> a.spec_round().spec_to_i32() == k,
{
    let one = pow2(UNIT_EXPONENT as nat);
    let m = magnitude(a.pattern());
    let k = (2 * m + one) / (2 * one);
    lemma_pow2_pos(UNIT_EXPONENT as nat);
    assert(magnitude(0) == 0);
    vstd::arithmetic::div_mod::lemma_fundamental_div_mod((2 * m + one) as int, (2 * one) as int);
    assert((2 * one) * k == 2 * (k * one)) by (nonlinear_arith);
    assert(k <= IMPLICIT) by (nonlinear_arith)
        requires
            2 * m + one == (2 * one) * k + (2 * m + one) % (2 * one),
            0 <= (2 * m + one) % (2 * one),
            m <= IMPLICIT * one,
            one > 0,
    ;
    if m == 0 {
        assert(k == 0) by (nonlinear_arith)
            requires
                one == (2 * one) * k + one % (2 * one),
                0 <= one % (2 * one),
                one > 0,
                k >= 0,
        ;
    }
    let p = lemma_representable(k, UNIT_EXPONENT as nat);
    assert(a.spec_round() == signed(a.is_negative(), p));
    vstd::arithmetic::div_mod::lemma_fundamental_div_mod_converse(
        (k * one) as int,
        one as int,
        k as int,
        0,
    );
    if a.is_negative() {
        assert(-(k * one) == (-k) * one) by (nonlinear_arith);
        -k
    } else {
        k as int
    }
}

/// A number divided by one is that number.
pub proof fn lemma_over_one(a: Float)
    requires
        !a.spec_is_nan(),
    ensures
        a.spec_div(Float::whole(1)) == a,
{
    let one = pow2(UNIT_EXPONENT as nat);
    lemma_whole(1);
    lemma_pow2_pos(UNIT_EXPONENT as nat);
    assert(1 * one == one) by (nonlinear_arith);
    lemma_pattern_order(0, Float::whole(1).pattern());
    assert(magnitude(0) == 0);
    if a.spec_is_finite() {
        let m = magnitude(a.pattern());
        lemma_nearest_exact(a.pattern());
        lemma_nearest_is_monotone(m * one, one, m, 1);
        lemma_nearest_is_monotone(m, 1, m * one, one);
    }
}

/// A difference is above zero exactly if the first number is the larger one, however close they
/// are.
pub proof fn lemma_difference_sign(a: Float, b: Float)
    requires
        a.spec_is_finite(),
        b.spec_is_finite(),
    ensures
        !a.spec_sub(b).spec_is_nan(),
        a.spec_sub(b).units() > 0 <==> a.units() > b.units(),
        a.spec_sub(b).units() < 0 <==> a.units() < b.units(),
{
    lemma_neg(b);
    lemma_add_finite(a, b.spec_neg());
    let n = distance(a.units() - b.units());
    assert(magnitude(0) == 0 && magnitude(1) == 1);
    lemma_nearest_zero(1);
    if n >= 1 {
        lemma_nearest_exact(1);
        lemma_nearest_is_monotone(1, 1, n, 1);
        lemma_pattern_order(0, nearest(n, 1));
    }
}

/// One times a number is that number.
pub proof fn lemma_times_one(a: Float)
    requires
        !a.spec_is_nan(),
    ensures
        a.spec_mul(Float::whole(1)) == a,
{
    let one = pow2(UNIT_EXPONENT as nat);
    lemma_whole(1);
    lemma_pow2_pos(UNIT_EXPONENT as nat);
    assert(1 * one == one) by (nonlinear_arith);
    lemma_pattern_order(0, Float::whole(1).pattern());
    assert(magnitude(0) == 0);
    if a.spec_is_finite() {
        let m = magnitude(a.pattern());
        lemma_nearest_exact(a.pattern());
        lemma_nearest_is_monotone(m * one, one, m, 1);
        lemma_nearest_is_monotone(m, 1, m * one, one);
    }
}

} // verus!
