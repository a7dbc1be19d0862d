//! Rounding of an exact ratio to the nearest binary floating-point magnitude.
//!
//! Magnitudes are measured in the smallest positive one. The finite ones, in
//! increasing order, are numbered from zero: that number is also the bit
//! pattern of the magnitude, and [`INFINITE`] is the first number past the
//! largest finite one.
use vstd::arithmetic::div_mod::{lemma_fundamental_div_mod, lemma_fundamental_div_mod_converse};
use vstd::arithmetic::power2::{
    lemma_pow2_adds, lemma_pow2_pos, lemma_pow2_strictly_increases, lemma_pow2_unfold, pow2,
};
use vstd::prelude::*;

verus! {

/// How many magnitudes share one spacing.
pub const PER_SPACING: u64 = 0x10_0000_0000_0000;

/// The first significand that is too wide for a magnitude.
pub const WIDTH: u64 = 0x20_0000_0000_0000;

/// The bit pattern of the infinite magnitude.
pub const INFINITE: u64 = 0x7ff0_0000_0000_0000;

/// The whole number nearest to `num / den`, the even one of two that are
/// equally near.
pub open spec fn nearest_even(num: nat, den: nat) -> nat {
    let below = num / den;
    let rest = num % den;
    if 2 * rest < den || (2 * rest == den && below % 2 == 0) {
        below
    } else {
        below + 1
    }
}

/// The number of the magnitude nearest to `num / den` if magnitudes went on
/// without end. Up to [`WIDTH`] they are the whole numbers; from there on
/// each doubling of the value doubles the spacing, and [`PER_SPACING`] of
/// them share it.
pub open spec fn nearest_unbounded(num: nat, den: nat) -> nat
    decreases (if num > den { num - den } else { 0 }),
{
    if den == 0 || num < WIDTH * den {
        nearest_even(num, den)
    } else {
        PER_SPACING as nat + nearest_unbounded(num, 2 * den)
    }
}

/// The bit pattern of the magnitude nearest to `num / den`.
pub open spec fn nearest(num: nat, den: nat) -> nat {
    let m = nearest_unbounded(num, den);
    if m < INFINITE {
        m
    } else {
        INFINITE as nat
    }
}

/// The numerator of `n / d * 2^k`, written with whole numbers only.
pub open spec fn shifted_num(n: nat, k: int) -> nat {
    if k >= 0 {
        n * pow2(k as nat)
    } else {
        n
    }
}

/// The denominator of `n / d * 2^k`, written with whole numbers only.
pub open spec fn shifted_den(d: nat, k: int) -> nat {
    if k >= 0 {
        d
    } else {
        d * pow2((-k) as nat)
    }
}

pub proof fn lemma_nearest_even_scale(num: nat, den: nat, c: nat)
    requires
        den > 0,
        c > 0,
    ensures
        nearest_even(c * num, c * den) == nearest_even(num, den),
{
    let q = num as int / den as int;
    let r = num as int % den as int;
    lemma_fundamental_div_mod(num as int, den as int);
    assert(c * num == q * (c * den) + c * r) by (nonlinear_arith)
        requires
            num == den * q + r,
    ;
    assert(0 <= c * r < c * den) by (nonlinear_arith)
        requires
            0 <= r < den,
            c > 0,
    ;
    lemma_fundamental_div_mod_converse((c * num) as int, (c * den) as int, q, c * r);
    assert(2 * (c * r) < c * den <==> 2 * r < den) by (nonlinear_arith)
        requires
            c > 0,
    ;
    assert(2 * (c * r) == c * den <==> 2 * r == den) by (nonlinear_arith)
        requires
            c > 0,
    ;
}

/// Only the value of the ratio matters, not how it is written.
pub proof fn lemma_nearest_scale(num: nat, den: nat, c: nat)
    requires
        den > 0,
        c > 0,
    ensures
        nearest_unbounded(c * num, c * den) == nearest_unbounded(num, den),
        nearest(c * num, c * den) == nearest(num, den),
    decreases (if num > den { num - den } else { 0 }),
{
    assert(c * den > 0) by (nonlinear_arith)
        requires
            c > 0,
            den > 0,
    ;
    assert(c * num < WIDTH * (c * den) <==> num < WIDTH * den) by (nonlinear_arith)
        requires
            c > 0,
    ;
    if num < WIDTH * den {
        lemma_nearest_even_scale(num, den, c);
    } else {
        lemma_nearest_scale(num, 2 * den, c);
        assert(2 * (c * den) == c * (2 * den)) by (nonlinear_arith);
    }
}

/// Two ways to write one ratio round alike.
pub proof fn lemma_nearest_same_ratio(num1: nat, den1: nat, num2: nat, den2: nat)
    requires
        den1 > 0,
        den2 > 0,
        num1 * den2 == num2 * den1,
    ensures
        nearest_unbounded(num1, den1) == nearest_unbounded(num2, den2),
        nearest(num1, den1) == nearest(num2, den2),
{
    lemma_nearest_scale(num1, den1, den2);
    lemma_nearest_scale(num2, den2, den1);
    assert(den2 * num1 == den1 * num2) by (nonlinear_arith)
        requires
            num1 * den2 == num2 * den1,
    ;
    assert(den2 * den1 == den1 * den2) by (nonlinear_arith);
}

/// A ratio with a significand of full width, `k` doublings up.
pub proof fn lemma_nearest_full_width(n: nat, d: nat, k: nat)
    requires
        d > 0,
        PER_SPACING * d <= n < WIDTH * d,
    ensures
        nearest_unbounded(n * pow2(k), d) == k * PER_SPACING + nearest_even(n, d),
    decreases k,
{
    lemma_pow2_pos(k);
    if k == 0 {
        lemma_pow2_zero();
        assert(n * pow2(0) == n) by (nonlinear_arith)
            requires
                pow2(0) == 1,
        ;
    } else {
        let j = (k - 1) as nat;
        lemma_pow2_unfold(k);
        lemma_pow2_pos(j);
        assert(n * pow2(k) == 2 * (n * pow2(j))) by (nonlinear_arith)
            requires
                pow2(k) == 2 * pow2(j),
        ;
        assert(n * pow2(k) >= WIDTH * d) by (nonlinear_arith)
            requires
                n >= PER_SPACING * d,
                pow2(k) == 2 * pow2(j),
                pow2(j) >= 1,
                WIDTH == 2 * PER_SPACING,
        ;
        lemma_nearest_scale(n * pow2(j), d, 2);
        lemma_nearest_full_width(n, d, j);
        assert(k * PER_SPACING == j * PER_SPACING + PER_SPACING) by (nonlinear_arith)
            requires
                k == j + 1,
        ;
    }
}

pub proof fn lemma_pow2_zero()
    ensures
        pow2(0) == 1,
        pow2(1) == 2,
{
    vstd::arithmetic::power2::lemma2_to64();
}

pub proof fn lemma_pow2_known()
    ensures
        pow2(11) == 0x800,
        pow2(12) == 0x1000,
        pow2(52) == PER_SPACING,
        pow2(53) == WIDTH,
        pow2(54) == 0x40_0000_0000_0000,
        pow2(55) == 0x80_0000_0000_0000,
        pow2(57) == 0x200_0000_0000_0000,
{
    vstd::arithmetic::power2::lemma2_to64();
    vstd::arithmetic::power2::lemma2_to64_rest();
}

pub proof fn lemma_pow2_monotone(a: nat, b: nat)
    requires
        a <= b,
    ensures
        pow2(a) <= pow2(b),
{
    if a < b {
        lemma_pow2_strictly_increases(a, b);
    }
}

/// Rounding stays between two whole numbers that enclose the ratio.
pub proof fn lemma_nearest_even_bounds(num: nat, den: nat, low: nat, high: nat)
    requires
        den > 0,
        low * den <= num <= high * den,
    ensures
        low <= nearest_even(num, den) <= high,
{
    lemma_fundamental_div_mod(num as int, den as int);
    let q = num / den;
    let r = num % den;
    assert(low <= q <= high) by (nonlinear_arith)
        requires
            low * den <= num <= high * den,
            num == den * q + r,
            0 <= r < den,
    ;
    assert(q == high ==> r == 0) by (nonlinear_arith)
        requires
            num <= high * den,
            num == den * q + r,
            0 <= r < den,
    ;
}

/// Less than half of one rounds to nothing.
proof fn lemma_nearest_even_small(num: nat, den: nat)
    requires
        2 * num < den,
    ensures
        nearest_even(num, den) == 0,
{
    vstd::arithmetic::div_mod::lemma_small_mod(num, den);
    lemma_fundamental_div_mod_converse(num as int, den as int, 0, num as int);
}

/// Nothing rounds to nothing.
pub proof fn lemma_nearest_zero(den: nat)
    requires
        den > 0,
    ensures
        nearest(0, den) == 0,
{
    lemma_nearest_even_small(0, den);
}

/// Doubling the denominator and the power of two leaves the ratio as it is.
proof fn lemma_double_den(n: nat, d: nat, k: int)
    requires
        d > 0,
    ensures
        nearest(shifted_num(n, k + 1), shifted_den(2 * d, k + 1)) == nearest(
            shifted_num(n, k),
            shifted_den(d, k),
        ),
{
    if k >= 0 {
        lemma_pow2_unfold((k + 1) as nat);
        assert(n * pow2((k + 1) as nat) == 2 * (n * pow2(k as nat))) by (nonlinear_arith)
            requires
                pow2((k + 1) as nat) == 2 * pow2(k as nat),
        ;
        lemma_nearest_scale(n * pow2(k as nat), d, 2);
    } else {
        lemma_pow2_unfold((-k) as nat);
        lemma_pow2_zero();
        assert(d * pow2((-k) as nat) == (2 * d) * pow2((-k - 1) as nat)) by (nonlinear_arith)
            requires
                pow2((-k) as nat) == 2 * pow2((-k - 1) as nat),
        ;
        if k == -1 {
            assert((2 * d) * pow2(0) == 2 * d) by (nonlinear_arith)
                requires
                    pow2(0) == 1,
            ;
            assert(n * pow2(0) == n) by (nonlinear_arith)
                requires
                    pow2(0) == 1,
            ;
        }
    }
}

/// Doubling the numerator and halving the power of two leaves the ratio as it
/// is.
proof fn lemma_double_num(n: nat, d: nat, k: int)
    requires
        d > 0,
    ensures
        nearest(shifted_num(2 * n, k - 1), shifted_den(d, k - 1)) == nearest(
            shifted_num(n, k),
            shifted_den(d, k),
        ),
{
    if k > 0 {
        lemma_pow2_unfold(k as nat);
        assert(n * pow2(k as nat) == (2 * n) * pow2((k - 1) as nat)) by (nonlinear_arith)
            requires
                pow2(k as nat) == 2 * pow2((k - 1) as nat),
        ;
    } else {
        lemma_pow2_unfold((1 - k) as nat);
        lemma_pow2_pos((-k) as nat);
        lemma_pow2_zero();
        assert(d * pow2((1 - k) as nat) == 2 * (d * pow2((-k) as nat))) by (nonlinear_arith)
            requires
                pow2((1 - k) as nat) == 2 * pow2((-k) as nat),
        ;
        assert(d * pow2((-k) as nat) > 0) by (nonlinear_arith)
            requires
                d > 0,
                pow2((-k) as nat) > 0,
        ;
        if k == 0 {
            assert(d * pow2(0) == d) by (nonlinear_arith)
                requires
                    pow2(0) == 1,
            ;
            assert(n * pow2(0) == n) by (nonlinear_arith)
                requires
                    pow2(0) == 1,
            ;
        }
        lemma_nearest_scale(n, d * pow2((-k) as nat), 2);
    }
}

/// The whole number nearest to `num / den`, the even one of two that are
/// equally near.
fn round_half_even(num: u128, den: u128) -> (r: u128)
    requires
        0 < den < 0x8000_0000_0000_0000_0000_0000_0000_0000,
        num < 0x8000_0000_0000_0000_0000_0000_0000_0000,
    ensures
        r == nearest_even(num as nat, den as nat),
{
    let below: u128 = num / den;
    let rest: u128 = num % den;
    assert(below <= num) by (nonlinear_arith)
        requires
            below == num / den,
            den > 0,
    ;
    assert(rest < den) by (nonlinear_arith)
        requires
            rest == num % den,
            den > 0,
    ;
    if 2 * rest < den || (2 * rest == den && below % 2 == 0) {
        below
    } else {
        below + 1
    }
}

/// The bit pattern of the magnitude nearest to `num / den * 2^shift`.
pub(crate) fn round_scaled(num: u128, den: u128, shift: i64) -> (r: u64)
    requires
        0 < den <= WIDTH,
        num < 0x1000_0000_0000_0000_0000_0000_0000,
        -10000 <= shift <= 10000,
    ensures
        r == nearest(
            shifted_num(num as nat, shift as int),
            shifted_den(den as nat, shift as int),
        ),
{
    let mut n: u128 = num;
    let mut d: u128 = den;
    let mut k: i64 = shift;
    let ghost target = nearest(
        shifted_num(num as nat, shift as int),
        shifted_den(den as nat, shift as int),
    );
    if n == 0 {
        proof {
            let full = shifted_den(den as nat, shift as int);
            if shift < 0 {
                lemma_pow2_pos((-shift) as nat);
                assert(den * pow2((-shift) as nat) > 0) by (nonlinear_arith)
                    requires
                        den > 0,
                        pow2((-shift) as nat) > 0,
                ;
            } else {
                assert(0 * pow2(shift as nat) == 0);
            }
            lemma_nearest_zero(full);
        }
        return 0;
    }
    proof {
        lemma_pow2_zero();
    }
    while n >= 0x20_0000_0000_0000 * d
        invariant
            0 < n < 0x1000_0000_0000_0000_0000_0000_0000,
            0 < d <= 0x100_0000_0000_0000,
            -10000 <= shift <= 10000,
            shift <= k <= shift + 60,
            d >= pow2((k - shift) as nat),
            target == nearest(shifted_num(n as nat, k as int), shifted_den(d as nat, k as int)),
        decreases 0x200_0000_0000_0000 - d,
    {
        proof {
            lemma_double_den(n as nat, d as nat, k as int);
            lemma_pow2_unfold((k + 1 - shift) as nat);
            if k - shift >= 57 {
                lemma_pow2_known();
                lemma_pow2_monotone(57, (k - shift) as nat);
            }
        }
        d = 2 * d;
        k = k + 1;
    }
    let ghost high = k;
    proof {
        lemma_pow2_zero();
    }
    while n < 0x10_0000_0000_0000 * d
        invariant
            0 < n < 0x20_0000_0000_0000 * d,
            0 < d <= 0x100_0000_0000_0000,
            -10000 <= high <= 10060,
            high - 120 <= k <= high,
            n >= pow2((high - k) as nat),
            target == nearest(shifted_num(n as nat, k as int), shifted_den(d as nat, k as int)),
        decreases 0x20_0000_0000_0000 * d - n,
    {
        proof {
            lemma_double_num(n as nat, d as nat, k as int);
            lemma_pow2_unfold((high + 1 - k) as nat);
            if high - k >= 112 {
                lemma_pow2_known();
                lemma_pow2_adds(55, 57);
                lemma_pow2_monotone(112, (high - k) as nat);
                assert(pow2(112) >= 0x20_0000_0000_0000 * 0x100_0000_0000_0000) by (nonlinear_arith)
                    requires
                        pow2(112) == pow2(55) * pow2(57),
                        pow2(55) == 0x80_0000_0000_0000,
                        pow2(57) == 0x200_0000_0000_0000,
                ;
            }
        }
        n = 2 * n;
        k = k - 1;
    }
    if k >= 0 {
        proof {
            lemma_nearest_full_width(n as nat, d as nat, k as nat);
            lemma_nearest_even_bounds(n as nat, d as nat, PER_SPACING as nat, WIDTH as nat);
        }
        if k > 2046 {
            proof {
                assert(k * PER_SPACING >= INFINITE) by (nonlinear_arith)
                    requires
                        k >= 2047,
                        PER_SPACING == 0x10_0000_0000_0000,
                        INFINITE == 0x7ff0_0000_0000_0000,
                ;
            }
            return 0x7ff0_0000_0000_0000;
        }
        let significand: u64 = round_half_even(n, d) as u64;
        let bits: u64 = k as u64 * 0x10_0000_0000_0000 + significand;
        if bits < 0x7ff0_0000_0000_0000 {
            bits
        } else {
            0x7ff0_0000_0000_0000
        }
    } else {
        let mut wide: u128 = d;
        let mut i: i64 = k;
        proof {
            lemma_pow2_zero();
            assert(d * pow2(0) == d) by (nonlinear_arith)
                requires
                    pow2(0) == 1,
            ;
        }
        while i < 0 && wide <= 2 * n
            invariant
                k <= i <= 0,
                k < 0,
                0 < d <= wide <= 4 * n,
                0 < n < 0x20_0000_0000_0000 * d,
                0 < d <= 0x100_0000_0000_0000,
                wide == d * pow2((i - k) as nat),
            decreases -i,
        {
            proof {
                lemma_pow2_unfold((i + 1 - k) as nat);
                assert(d * pow2((i + 1 - k) as nat) == 2 * (d * pow2((i - k) as nat)))
                    by (nonlinear_arith)
                    requires
                        pow2((i + 1 - k) as nat) == 2 * pow2((i - k) as nat),
                ;
            }
            wide = 2 * wide;
            i = i + 1;
        }
        proof {
            let full = shifted_den(d as nat, k as int);
            lemma_pow2_monotone((i - k) as nat, (-k) as nat);
            assert(d * pow2((-k) as nat) >= d * pow2((i - k) as nat)) by (nonlinear_arith)
                requires
                    pow2((-k) as nat) >= pow2((i - k) as nat),
            ;
            assert(WIDTH * full >= WIDTH * d) by (nonlinear_arith)
                requires
                    full >= d,
            ;
            lemma_nearest_even_bounds(n as nat, full, 0, WIDTH as nat);
            assert(nearest_unbounded(n as nat, full) == nearest_even(n as nat, full));
            if i < 0 {
                lemma_nearest_even_small(n as nat, full);
            }
        }
        if i < 0 {
            0
        } else {
            round_half_even(n, wide) as u64
        }
    }
}

} // verus!
