//! Double-precision numbers as bit patterns, with exact integer arithmetic.
//!
//! A [`Binary64`] holds the sixty-four bits of an IEEE 754 double. Every
//! finite one is a whole multiple of the smallest positive double, so its
//! value is stated as a whole number of those. Arithmetic is the exact result
//! rounded to the nearest double, as [`crate::rounding`] defines it.
use vstd::arithmetic::div_mod::{
    lemma_fundamental_div_mod, lemma_fundamental_div_mod_converse,
};
use vstd::arithmetic::power2::{lemma_pow2_adds, lemma_pow2_pos, lemma_pow2_unfold, pow2};
use vstd::bits::{lemma_u64_pow2_no_overflow, lemma_u64_shl_is_mul};
use vstd::prelude::*;

use crate::rounding::{
    lemma_nearest_full_width, lemma_nearest_same_ratio, lemma_pow2_known, lemma_pow2_monotone,
    nearest, nearest_even, nearest_unbounded, round_scaled, shifted_den, shifted_num, INFINITE,
    PER_SPACING, WIDTH,
};

verus! {

/// The weight of the sign bit.
pub const SIGN: u64 = 0x8000_0000_0000_0000;

/// The bit pattern of every result that is not a number.
pub const NAN_BITS: u64 = 0x7ff8_0000_0000_0000;

/// The exponent of the smallest positive double, negated: `1.0` is two to
/// this power of them.
pub const ONE_EXPONENT: i64 = 1074;

/// A double-precision number.
#[derive(Clone, Copy, Debug, PartialEq, Eq, Structural)]
pub struct Binary64 {
    pub bits: u64,
}

/// The value of a finite magnitude, in smallest positive doubles.
pub open spec fn units(magnitude: nat) -> nat
    decreases magnitude,
{
    if magnitude < WIDTH {
        magnitude
    } else {
        2 * units((magnitude - PER_SPACING) as nat)
    }
}

/// How many smallest positive doubles make up `1.0`.
pub open spec fn one() -> nat {
    pow2(ONE_EXPONENT as nat)
}

/// The double with this sign and magnitude.
pub open spec fn signed(negative: bool, magnitude: nat) -> Binary64 {
    Binary64 {
        bits: if negative {
            (SIGN + magnitude) as u64
        } else {
            magnitude as u64
        },
    }
}

/// What an operation without a numeric result gives.
pub open spec fn not_a_number() -> Binary64 {
    Binary64 { bits: NAN_BITS }
}

/// The double nearest to `num / den`, with the given sign.
pub open spec fn rounded(negative: bool, num: nat, den: nat) -> Binary64 {
    signed(negative, nearest(num, den))
}

/// The double nearest to a whole number.
pub open spec fn whole(n: u64) -> Binary64 {
    rounded(false, n as nat * one(), 1)
}

/// `a + b`.
pub open spec fn sum(a: Binary64, b: Binary64) -> Binary64 {
    if a.is_nan() || b.is_nan() {
        not_a_number()
    } else if a.is_infinite() {
        if b.is_infinite() && a.is_negative() != b.is_negative() {
            not_a_number()
        } else {
            a
        }
    } else if b.is_infinite() {
        b
    } else {
        let total = a.value() + b.value();
        if total == 0 {
            signed(a.is_negative() && b.is_negative(), 0)
        } else if total > 0 {
            rounded(false, total as nat, 1)
        } else {
            rounded(true, (-total) as nat, 1)
        }
    }
}

/// `-a`.
pub open spec fn opposite(a: Binary64) -> Binary64 {
    signed(!a.is_negative(), a.magnitude())
}

/// `a - b`.
pub open spec fn difference(a: Binary64, b: Binary64) -> Binary64 {
    sum(a, opposite(b))
}

/// `a * b`.
pub open spec fn product(a: Binary64, b: Binary64) -> Binary64 {
    let negative = a.is_negative() != b.is_negative();
    if a.is_nan() || b.is_nan() {
        not_a_number()
    } else if a.is_infinite() || b.is_infinite() {
        if a.magnitude() == 0 || b.magnitude() == 0 {
            not_a_number()
        } else {
            signed(negative, INFINITE as nat)
        }
    } else {
        rounded(negative, units(a.magnitude()) * units(b.magnitude()), one())
    }
}

/// `a / b`.
pub open spec fn quotient(a: Binary64, b: Binary64) -> Binary64 {
    let negative = a.is_negative() != b.is_negative();
    if a.is_nan() || b.is_nan() {
        not_a_number()
    } else if a.is_infinite() {
        if b.is_infinite() {
            not_a_number()
        } else {
            signed(negative, INFINITE as nat)
        }
    } else if b.is_infinite() {
        signed(negative, 0)
    } else if b.magnitude() == 0 {
        if a.magnitude() == 0 {
            not_a_number()
        } else {
            signed(negative, INFINITE as nat)
        }
    } else {
        rounded(negative, units(a.magnitude()) * one(), units(b.magnitude()))
    }
}

impl Binary64 {
    /// Whether the sign bit is set.
    pub open spec fn is_negative(self) -> bool {
        self.bits >= SIGN
    }

    /// The bit pattern without its sign: the number of the magnitude.
    pub open spec fn magnitude(self) -> nat {
        if self.bits >= SIGN {
            (self.bits - SIGN) as nat
        } else {
            self.bits as nat
        }
    }

    pub open spec fn is_nan(self) -> bool {
        self.magnitude() > INFINITE
    }

    pub open spec fn is_infinite(self) -> bool {
        self.magnitude() == INFINITE
    }

    pub open spec fn is_finite(self) -> bool {
        self.magnitude() < INFINITE
    }

    /// The value of a finite number, in smallest positive doubles.
    pub open spec fn value(self) -> int {
        if self.is_negative() {
            -(units(self.magnitude()) as int)
        } else {
            units(self.magnitude()) as int
        }
    }

    /// The place of a number in the order of all numbers, zero for both zeros.
    pub open spec fn rank(self) -> int {
        if self.is_negative() {
            -(self.magnitude() as int)
        } else {
            self.magnitude() as int
        }
    }

    /// `self > 0.0`.
    pub open spec fn is_positive(self) -> bool {
        !self.is_nan() && self.rank() > 0
    }

    /// `self >= other`.
    pub open spec fn at_least(self, other: Binary64) -> bool {
        !self.is_nan() && !other.is_nan() && self.rank() >= other.rank()
    }

    /// The whole part of a positive number, held to the range of `u64`; zero
    /// for every other one.
    pub open spec fn count(self) -> u64 {
        if !self.is_positive() {
            0
        } else if self.is_infinite() || units(self.magnitude()) / one() > u64::MAX {
            u64::MAX
        } else {
            (units(self.magnitude()) / one()) as u64
        }
    }

    /// `self` held to the range from `0.0` to `1.0`.
    pub open spec fn ratio(self) -> Binary64 {
        if self.is_nan() {
            self
        } else if self.rank() < 0 {
            signed(false, 0)
        } else if self.rank() > whole(1).rank() {
            whole(1)
        } else {
            self
        }
    }
}

/// A finite magnitude is a significand times a power of two.
pub proof fn lemma_units_parts(significand: nat, exponent: nat)
    requires
        significand < WIDTH,
        exponent > 0 ==> significand >= PER_SPACING,
    ensures
        units((exponent * PER_SPACING + significand) as nat) == significand * pow2(exponent),
    decreases exponent,
{
    crate::rounding::lemma_pow2_zero();
    if exponent == 0 {
        assert(significand * pow2(0) == significand) by (nonlinear_arith)
            requires
                pow2(0) == 1,
        ;
    } else {
        let lower = (exponent - 1) as nat;
        lemma_units_parts(significand, lower);
        lemma_pow2_unfold(exponent);
        assert(exponent * PER_SPACING == lower * PER_SPACING + PER_SPACING) by (nonlinear_arith)
            requires
                exponent == lower + 1,
        ;
        assert(exponent * PER_SPACING >= PER_SPACING) by (nonlinear_arith)
            requires
                exponent >= 1,
        ;
        assert(significand * pow2(exponent) == 2 * (significand * pow2(lower))) by (nonlinear_arith)
            requires
                pow2(exponent) == 2 * pow2(lower),
        ;
    }
}

/// A number that is less than a quarter of the spacing does not move another
/// one away from where it is.
proof fn lemma_far_apart(significand: nat, exponent: nat, small: nat)
    requires
        PER_SPACING <= significand < WIDTH,
        exponent > 0,
        4 * small < pow2(exponent),
    ensures
        nearest_unbounded(significand * pow2(exponent) + small, 1) == exponent * PER_SPACING
            + significand,
        significand * pow2(exponent) > small,
        nearest_unbounded((significand * pow2(exponent) - small) as nat, 1) == exponent
            * PER_SPACING + significand,
{
    let d = pow2(exponent);
    let big = significand * d;
    assert(big >= PER_SPACING * d && big + d <= WIDTH * d) by (nonlinear_arith)
        requires
            big == significand * d,
            PER_SPACING <= significand,
            significand + 1 <= WIDTH,
    ;
    assert(big >= d) by (nonlinear_arith)
        requires
            big >= PER_SPACING * d,
            PER_SPACING >= 1,
    ;
    lemma_nearest_in_spacing(big + small, exponent);
    lemma_fundamental_div_mod_converse((big + small) as int, d as int, significand as int, small as int);
    if small > 0 {
        let n = (big - small) as nat;
        if significand > PER_SPACING {
            assert(n == (significand - 1) * d + (d - small)) by (nonlinear_arith)
                requires
                    n == significand * d - small,
            ;
            assert(n >= PER_SPACING * d) by (nonlinear_arith)
                requires
                    n == (significand - 1) * d + (d - small),
                    small < d,
                    significand - 1 >= PER_SPACING,
            ;
            lemma_nearest_in_spacing(n, exponent);
            lemma_fundamental_div_mod_converse(
                n as int,
                d as int,
                significand - 1,
                d - small,
            );
        } else {
            let lower = (exponent - 1) as nat;
            let half = pow2(lower);
            lemma_pow2_unfold(exponent);
            assert(n == (WIDTH - 1) * half + (half - small)) by (nonlinear_arith)
                requires
                    n == PER_SPACING * d - small,
                    d == 2 * half,
                    WIDTH == 2 * PER_SPACING,
            ;
            assert(PER_SPACING * half <= n < WIDTH * half) by (nonlinear_arith)
                requires
                    n == (WIDTH - 1) * half + (half - small),
                    0 < small < half,
                    WIDTH - 1 >= PER_SPACING,
            ;
            lemma_nearest_in_spacing(n, lower);
            lemma_fundamental_div_mod_converse(
                n as int,
                half as int,
                WIDTH - 1,
                half - small,
            );
            assert(exponent * PER_SPACING == lower * PER_SPACING + PER_SPACING) by (nonlinear_arith)
                requires
                    exponent == lower + 1,
            ;
        }
    }
}

/// Where a whole number of full width at this exponent rounds to.
proof fn lemma_nearest_in_spacing(n: nat, exponent: nat)
    requires
        PER_SPACING * pow2(exponent) <= n < WIDTH * pow2(exponent),
    ensures
        nearest_unbounded(n, 1) == exponent * PER_SPACING + nearest_even(n, pow2(exponent)),
{
    let d = pow2(exponent);
    lemma_pow2_pos(exponent);
    lemma_nearest_full_width(n, d, exponent);
    assert(n * d > 0 || n == 0) by (nonlinear_arith)
        requires
            d > 0,
    ;
    lemma_nearest_same_ratio(n * d, d, n, 1);
}

/// The product of two numbers, as a ratio of their significands.
proof fn lemma_product_shift(s: nat, e: nat, t: nat, f: nat, shift: int)
    requires
        shift == e + f - ONE_EXPONENT,
    ensures
        nearest(shifted_num(s * t, shift), shifted_den(1, shift)) == nearest(
            (s * pow2(e)) * (t * pow2(f)),
            one(),
        ),
{
    let num = (s * pow2(e)) * (t * pow2(f));
    lemma_pow2_adds(e, f);
    lemma_pow2_pos(ONE_EXPONENT as nat);
    assert(num == (s * t) * pow2(e + f)) by (nonlinear_arith)
        requires
            num == (s * pow2(e)) * (t * pow2(f)),
            pow2(e + f) == pow2(e) * pow2(f),
    ;
    if shift >= 0 {
        lemma_pow2_adds(shift as nat, ONE_EXPONENT as nat);
        assert(((s * t) * pow2(shift as nat)) * one() == num * 1) by (nonlinear_arith)
            requires
                num == (s * t) * pow2(e + f),
                pow2(e + f) == pow2(shift as nat) * one(),
        ;
        lemma_nearest_same_ratio((s * t) * pow2(shift as nat), 1, num, one());
    } else {
        let down = (-shift) as nat;
        lemma_pow2_adds(e + f, down);
        lemma_pow2_pos(down);
        assert((s * t) * one() == num * (1 * pow2(down))) by (nonlinear_arith)
            requires
                num == (s * t) * pow2(e + f),
                one() == pow2(e + f) * pow2(down),
        ;
        lemma_nearest_same_ratio(s * t, 1 * pow2(down), num, one());
    }
}

/// The quotient of two numbers, as a ratio of their significands.
proof fn lemma_quotient_shift(s: nat, e: nat, t: nat, f: nat, shift: int)
    requires
        shift == e - f + ONE_EXPONENT,
        t > 0,
    ensures
        nearest(shifted_num(s, shift), shifted_den(t, shift)) == nearest(
            (s * pow2(e)) * one(),
            t * pow2(f),
        ),
{
    let num = (s * pow2(e)) * one();
    let den = t * pow2(f);
    let up = (e + ONE_EXPONENT) as nat;
    lemma_pow2_adds(e, ONE_EXPONENT as nat);
    lemma_pow2_pos(f);
    assert(den > 0) by (nonlinear_arith)
        requires
            den == t * pow2(f),
            t > 0,
            pow2(f) > 0,
    ;
    assert(num == s * pow2(up)) by (nonlinear_arith)
        requires
            num == (s * pow2(e)) * one(),
            pow2(up) == pow2(e) * one(),
    ;
    if shift >= 0 {
        lemma_pow2_adds(shift as nat, f);
        assert((s * pow2(shift as nat)) * den == num * t) by (nonlinear_arith)
            requires
                num == s * pow2(up),
                den == t * pow2(f),
                pow2(up) == pow2(shift as nat) * pow2(f),
        ;
        lemma_nearest_same_ratio(s * pow2(shift as nat), t, num, den);
    } else {
        let down = (-shift) as nat;
        lemma_pow2_adds(up, down);
        lemma_pow2_pos(down);
        assert(s * den == num * (t * pow2(down))) by (nonlinear_arith)
            requires
                num == s * pow2(up),
                den == t * pow2(f),
                pow2(f) == pow2(up) * pow2(down),
        ;
        assert(t * pow2(down) > 0) by (nonlinear_arith)
            requires
                t > 0,
                pow2(down) > 0,
        ;
        lemma_nearest_same_ratio(s, t * pow2(down), num, den);
    }
}

/// A factor that numerator and denominator share leaves the whole part of a
/// ratio as it is.
proof fn lemma_div_denominator_scale(n: nat, d: nat, c: nat)
    requires
        d > 0,
        c > 0,
    ensures
        (n * c) / (c * d) == n / d,
{
    lemma_fundamental_div_mod(n as int, d as int);
    let q = n as int / d as int;
    let r = n as int % d as int;
    assert(n * c == q * (c * d) + c * r) by (nonlinear_arith)
        requires
            n == d * q + r,
    ;
    assert(0 <= c * r < c * d) by (nonlinear_arith)
        requires
            0 <= r < d,
            c > 0,
    ;
    lemma_fundamental_div_mod_converse((n * c) as int, (c * d) as int, q, c * r);
}

/// Two to a small power.
fn power_of_two(exponent: u64) -> (r: u64)
    requires
        exponent < 64,
    ensures
        r == pow2(exponent as nat),
{
    proof {
        lemma_u64_pow2_no_overflow(exponent as nat);
        lemma_u64_shl_is_mul(1, exponent);
    }
    1u64 << exponent
}

impl Binary64 {
    /// The number with this bit pattern.
    pub fn from_bits(bits: u64) -> (r: Binary64)
        ensures
            r.bits == bits,
    {
        Binary64 { bits }
    }

    /// The bit pattern of the number.
    pub fn to_bits(self) -> (bits: u64)
        ensures
            bits == self.bits,
    {
        self.bits
    }

    fn unsigned(self) -> (m: u64)
        ensures
            m == self.magnitude(),
    {
        if self.bits >= SIGN {
            self.bits - SIGN
        } else {
            self.bits
        }
    }

    fn with_sign(negative: bool, magnitude: u64) -> (r: Binary64)
        requires
            magnitude <= INFINITE,
        ensures
            r == signed(negative, magnitude as nat),
    {
        if negative {
            Binary64 { bits: SIGN + magnitude }
        } else {
            Binary64 { bits: magnitude }
        }
    }

    /// The significand and the exponent of a finite number.
    fn parts(self) -> (r: (u64, i64))
        requires
            self.is_finite(),
        ensures
            r.0 < WIDTH,
            0 <= r.1 <= 2045,
            r.1 > 0 ==> r.0 >= PER_SPACING,
            r.1 * PER_SPACING + r.0 == self.magnitude(),
            units(self.magnitude()) == r.0 * pow2(r.1 as nat),
            r.0 == 0 <==> self.magnitude() == 0,
    {
        let m: u64 = self.unsigned();
        let (significand, exponent): (u64, i64) = if m < WIDTH {
            (m, 0)
        } else {
            ((PER_SPACING + m % PER_SPACING), (m / PER_SPACING) as i64 - 1)
        };
        proof {
            lemma_units_parts(significand as nat, exponent as nat);
        }
        (significand, exponent)
    }

    /// `self + other`.
    pub fn plus(self, other: Binary64) -> (r: Binary64)
        ensures
            r == sum(self, other),
    {
        if self.unsigned() > INFINITE || other.unsigned() > INFINITE {
            return Binary64 { bits: NAN_BITS };
        }
        if self.unsigned() == INFINITE {
            if other.unsigned() == INFINITE && (self.bits >= SIGN) != (other.bits >= SIGN) {
                return Binary64 { bits: NAN_BITS };
            }
            return self;
        }
        if other.unsigned() == INFINITE {
            return other;
        }
        let (_, exponent): (u64, i64) = self.parts();
        let (_, other_exponent): (u64, i64) = other.parts();
        if exponent >= other_exponent {
            Self::plus_ordered(self, other)
        } else {
            Self::plus_ordered(other, self)
        }
    }

    /// The sum of two finite numbers, the one with the wider spacing first.
    fn plus_ordered(a: Binary64, b: Binary64) -> (r: Binary64)
        requires
            a.is_finite(),
            b.is_finite(),
            b.magnitude() / (PER_SPACING as nat) <= a.magnitude() / (PER_SPACING as nat)
                || b.magnitude() < WIDTH,
        ensures
            r == sum(a, b),
    {
        let negative: bool = a.bits >= SIGN;
        let other_negative: bool = b.bits >= SIGN;
        let (s, e): (u64, i64) = a.parts();
        let (t, f): (u64, i64) = b.parts();
        assert(e >= f);
        let gap: i64 = e - f;
        if gap > 54 {
            proof {
                let small = t * pow2(f as nat);
                lemma_pow2_pos(f as nat);
                lemma_pow2_known();
                lemma_pow2_adds(f as nat, 55);
                lemma_pow2_monotone((f + 55) as nat, e as nat);
                assert(4 * small < pow2(e as nat)) by (nonlinear_arith)
                    requires
                        small == t * pow2(f as nat),
                        t < WIDTH,
                        WIDTH * 4 == 0x80_0000_0000_0000,
                        pow2((f + 55) as nat) == pow2(f as nat) * 0x80_0000_0000_0000,
                        pow2((f + 55) as nat) <= pow2(e as nat),
                        pow2(f as nat) > 0,
                ;
                lemma_far_apart(s as nat, e as nat, small as nat);
            }
            return a;
        }
        proof {
            lemma_pow2_known();
            lemma_pow2_monotone(gap as nat, 54);
            lemma_pow2_pos(f as nat);
            lemma_pow2_adds(f as nat, gap as nat);
            assert(s * pow2(gap as nat) <= 0x20_0000_0000_0000 * 0x40_0000_0000_0000)
                by (nonlinear_arith)
                requires
                    s < WIDTH,
                    WIDTH == 0x20_0000_0000_0000,
                    pow2(gap as nat) <= 0x40_0000_0000_0000,
            ;
        }
        let x: u128 = s as u128 * power_of_two(gap as u64) as u128;
        let y: u128 = t as u128;
        let ghost scale = pow2(f as nat);
        proof {
            assert(x * scale == s * pow2(e as nat)) by (nonlinear_arith)
                requires
                    x == s * pow2(gap as nat),
                    pow2(e as nat) == pow2(f as nat) * pow2(gap as nat),
                    scale == pow2(f as nat),
            ;
            assert((x + y) * scale == x * scale + y * scale) by (nonlinear_arith);
            assert((x - y) * scale == x * scale - y * scale) by (nonlinear_arith);
            assert((y - x) * scale == y * scale - x * scale) by (nonlinear_arith);
            assert((x + y) * scale == 0 <==> x + y == 0) by (nonlinear_arith)
                requires
                    scale > 0,
            ;
            assert((x - y) * scale == 0 <==> x - y == 0) by (nonlinear_arith)
                requires
                    scale > 0,
            ;
            assert((x - y) * scale > 0 <==> x - y > 0) by (nonlinear_arith)
                requires
                    scale > 0,
            ;
        }
        if negative == other_negative {
            if x + y == 0 {
                return Self::with_sign(negative, 0);
            }
            Self::with_sign(negative, round_scaled(x + y, 1, f))
        } else if x == y {
            Self::with_sign(false, 0)
        } else if x > y {
            Self::with_sign(negative, round_scaled(x - y, 1, f))
        } else {
            Self::with_sign(other_negative, round_scaled(y - x, 1, f))
        }
    }

    /// `self - other`.
    pub fn minus(self, other: Binary64) -> (r: Binary64)
        ensures
            r == difference(self, other),
    {
        let flipped: Binary64 = if other.bits >= SIGN {
            Binary64 { bits: other.bits - SIGN }
        } else {
            Binary64 { bits: other.bits + SIGN }
        };
        self.plus(flipped)
    }

    /// `self * other`.
    pub fn times(self, other: Binary64) -> (r: Binary64)
        ensures
            r == product(self, other),
    {
        let negative: bool = (self.bits >= SIGN) != (other.bits >= SIGN);
        let m: u64 = self.unsigned();
        let other_m: u64 = other.unsigned();
        if m > INFINITE || other_m > INFINITE {
            return Binary64 { bits: NAN_BITS };
        }
        if m == INFINITE || other_m == INFINITE {
            if m == 0 || other_m == 0 {
                return Binary64 { bits: NAN_BITS };
            }
            return Self::with_sign(negative, INFINITE);
        }
        let (s, e): (u64, i64) = self.parts();
        let (t, f): (u64, i64) = other.parts();
        assert(s * t <= 0x20_0000_0000_0000 * 0x20_0000_0000_0000) by (nonlinear_arith)
            requires
                s < 0x20_0000_0000_0000,
                t < 0x20_0000_0000_0000,
        ;
        let shift: i64 = e + f - ONE_EXPONENT;
        let n: u128 = s as u128 * t as u128;
        proof {
            lemma_product_shift(s as nat, e as nat, t as nat, f as nat, shift as int);
        }
        Self::with_sign(negative, round_scaled(n, 1, shift))
    }

    /// `self / other`.
    pub fn over(self, other: Binary64) -> (r: Binary64)
        ensures
            r == quotient(self, other),
    {
        let negative: bool = (self.bits >= SIGN) != (other.bits >= SIGN);
        let m: u64 = self.unsigned();
        let other_m: u64 = other.unsigned();
        if m > INFINITE || other_m > INFINITE {
            return Binary64 { bits: NAN_BITS };
        }
        if m == INFINITE {
            if other_m == INFINITE {
                return Binary64 { bits: NAN_BITS };
            }
            return Self::with_sign(negative, INFINITE);
        }
        if other_m == INFINITE {
            return Self::with_sign(negative, 0);
        }
        if other_m == 0 {
            if m == 0 {
                return Binary64 { bits: NAN_BITS };
            }
            return Self::with_sign(negative, INFINITE);
        }
        let (s, e): (u64, i64) = self.parts();
        let (t, f): (u64, i64) = other.parts();
        let shift: i64 = e - f + ONE_EXPONENT;
        proof {
            lemma_quotient_shift(s as nat, e as nat, t as nat, f as nat, shift as int);
        }
        Self::with_sign(negative, round_scaled(s as u128, t as u128, shift))
    }

    /// The number nearest to a count.
    pub fn from_count(n: u64) -> (r: Binary64)
        ensures
            r == whole(n),
    {
        Self::with_sign(false, round_scaled(n as u128, 1, ONE_EXPONENT))
    }

    /// `self > 0.0`.
    pub fn exceeds_zero(self) -> (r: bool)
        ensures
            r == self.is_positive(),
    {
        self.bits > 0 && self.bits <= INFINITE
    }

    /// `self >= other`.
    pub fn reaches(self, other: Binary64) -> (r: bool)
        ensures
            r == self.at_least(other),
    {
        let m: u64 = self.unsigned();
        let other_m: u64 = other.unsigned();
        if m > INFINITE || other_m > INFINITE {
            return false;
        }
        match (self.bits >= SIGN, other.bits >= SIGN) {
            (false, false) => m >= other_m,
            (false, true) => true,
            (true, false) => m == 0 && other_m == 0,
            (true, true) => m <= other_m,
        }
    }

    /// The whole part of a positive number, held to the range of `u64`; zero
    /// for every other one.
    pub fn to_count(self) -> (r: u64)
        ensures
            r == self.count(),
    {
        if !self.exceeds_zero() {
            return 0;
        }
        if self.bits == INFINITE {
            return u64::MAX;
        }
        let (s, e): (u64, i64) = self.parts();
        if e >= ONE_EXPONENT {
            let up: i64 = e - ONE_EXPONENT;
            proof {
                lemma_pow2_adds(ONE_EXPONENT as nat, up as nat);
                lemma_pow2_pos(ONE_EXPONENT as nat);
                lemma_pow2_known();
                assert(s * pow2(e as nat) == (s * pow2(up as nat)) * one()) by (nonlinear_arith)
                    requires
                        pow2(e as nat) == one() * pow2(up as nat),
                ;
                lemma_fundamental_div_mod_converse(
                    (s * pow2(e as nat)) as int,
                    one() as int,
                    (s * pow2(up as nat)) as int,
                    0,
                );
            }
            if up > 11 {
                proof {
                    lemma_pow2_monotone(12, up as nat);
                    assert(s * pow2(up as nat) >= 0x10_0000_0000_0000 * 0x1000)
                        by (nonlinear_arith)
                        requires
                            s >= 0x10_0000_0000_0000,
                            pow2(up as nat) >= 0x1000,
                    ;
                }
                return u64::MAX;
            }
            proof {
                lemma_pow2_monotone(up as nat, 11);
                assert(s * pow2(up as nat) <= 0x1f_ffff_ffff_ffff * 0x800) by (nonlinear_arith)
                    requires
                        s <= 0x1f_ffff_ffff_ffff,
                        pow2(up as nat) <= 0x800,
                ;
            }
            s * power_of_two(up as u64)
        } else {
            let down: i64 = ONE_EXPONENT - e;
            proof {
                lemma_pow2_adds(e as nat, down as nat);
                lemma_pow2_pos(e as nat);
                lemma_pow2_pos(down as nat);
                lemma_div_denominator_scale(s as nat, pow2(down as nat), pow2(e as nat));
                lemma_pow2_known();
            }
            if down > 53 {
                proof {
                    lemma_pow2_monotone(53, down as nat);
                    lemma_fundamental_div_mod_converse(s as int, pow2(down as nat) as int, 0, s as int);
                }
                return 0;
            }
            proof {
                lemma_pow2_monotone(down as nat, 53);
                assert(s as int / pow2(down as nat) as int <= s) by (nonlinear_arith)
                    requires
                        pow2(down as nat) > 0,
                        s >= 0,
                ;
            }
            s / power_of_two(down as u64)
        }
    }

    /// `self` held to the range from `0.0` to `1.0`.
    pub fn to_ratio(self) -> (r: Binary64)
        ensures
            r == self.ratio(),
    {
        let m: u64 = self.unsigned();
        if m > INFINITE {
            return self;
        }
        if self.bits >= SIGN {
            return if m == 0 {
                self
            } else {
                Binary64 { bits: 0 }
            };
        }
        let top: Binary64 = Self::from_count(1);
        if m > top.unsigned() {
            top
        } else {
            self
        }
    }
}

} // verus!
