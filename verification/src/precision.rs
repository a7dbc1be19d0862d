//! What rounding and the order of doubles promise.
use vstd::arithmetic::div_mod::{lemma_fundamental_div_mod, lemma_fundamental_div_mod_converse};
use vstd::arithmetic::power2::{lemma_pow2_pos, lemma_pow2_unfold, pow2};
use vstd::prelude::*;

use crate::binary64::{lemma_units_parts, one, units, whole, Binary64, ONE_EXPONENT};
use crate::rounding::{
    lemma_nearest_even_bounds, lemma_nearest_scale, lemma_nearest_zero, lemma_pow2_known,
    lemma_pow2_zero, nearest, nearest_even, nearest_unbounded, INFINITE, PER_SPACING, WIDTH,
};

verus! {

/// How far the magnitude with the number `m` is from `num / den`, in parts of
/// `den`.
pub open spec fn distance(num: nat, den: nat, m: nat) -> nat {
    let exact = units(m) * den;
    if exact >= num {
        (exact - num) as nat
    } else {
        (num - exact) as nat
    }
}

/// Larger magnitudes have larger values.
pub proof fn lemma_units_increase(m1: nat, m2: nat)
    requires
        m1 < m2,
    ensures
        units(m1) < units(m2),
    decreases m2,
{
    reveal_with_fuel(units, 2);
    if m2 < WIDTH {
    } else if m1 < WIDTH {
        if m2 - PER_SPACING >= WIDTH {
            lemma_units_increase(PER_SPACING as nat, (m2 - PER_SPACING) as nat);
        }
    } else {
        lemma_units_increase((m1 - PER_SPACING) as nat, (m2 - PER_SPACING) as nat);
    }
}

/// From the widest significand of a spacing on, rounding stays there.
pub proof fn lemma_nearest_at_least_spacing(num: nat, den: nat)
    requires
        den > 0,
        num >= PER_SPACING * den,
    ensures
        nearest_unbounded(num, den) >= PER_SPACING,
{
    if num < WIDTH * den {
        lemma_nearest_even_bounds(num, den, PER_SPACING as nat, WIDTH as nat);
    }
}

proof fn lemma_nearest_even_closest(num: nat, den: nat, m: nat)
    requires
        den > 0,
    ensures
        ({
            let r = nearest_even(num, den);
            let off = if r * den >= num { r * den - num } else { num - r * den };
            let other = if m * den >= num { m * den - num } else { num - m * den };
            &&& off <= other
            &&& off == other && m != r ==> r % 2 == 0
        }),
{
    lemma_fundamental_div_mod(num as int, den as int);
    let q = num / den;
    let r = num % den;
    assert(num == q * den + r) by (nonlinear_arith)
        requires
            num == den * q + r,
    ;
    assert((q + 1) * den == q * den + den) by (nonlinear_arith);
    if m <= q {
        assert(m * den <= q * den) by (nonlinear_arith)
            requires
                m <= q,
        ;
        if m < q {
            assert(m * den + den <= q * den) by (nonlinear_arith)
                requires
                    m + 1 <= q,
            ;
        }
    } else {
        assert(m * den >= (q + 1) * den) by (nonlinear_arith)
            requires
                m >= q + 1,
        ;
        if m > q + 1 {
            assert(m * den >= (q + 1) * den + den) by (nonlinear_arith)
                requires
                    m >= q + 2,
            ;
        }
    }
}

/// No magnitude is nearer to the exact ratio than the one that rounding
/// gives, and of two that are equally near it gives the even one.
pub proof fn law_rounding_is_nearest(num: nat, den: nat, other: nat)
    requires
        den > 0,
    ensures
        distance(num, den, nearest_unbounded(num, den)) <= distance(num, den, other),
        distance(num, den, nearest_unbounded(num, den)) == distance(num, den, other) && other
            != nearest_unbounded(num, den) ==> nearest_unbounded(num, den) % 2 == 0,
        nearest(num, den) < INFINITE ==> nearest(num, den) == nearest_unbounded(num, den),
    decreases (if num > den { num - den } else { 0 }),
{
    let r = nearest_unbounded(num, den);
    reveal_with_fuel(units, 2);
    if num < WIDTH * den {
        lemma_nearest_even_bounds(num, den, 0, WIDTH as nat);
        if other <= WIDTH {
            lemma_nearest_even_closest(num, den, other);
        } else {
            lemma_nearest_even_closest(num, den, WIDTH as nat);
            lemma_units_increase(WIDTH as nat, other);
            assert(units(other) * den > WIDTH * den) by (nonlinear_arith)
                requires
                    units(other) > WIDTH,
                    den > 0,
            ;
        }
    } else {
        let lower = nearest_unbounded(num, 2 * den);
        lemma_nearest_at_least_spacing(num, 2 * den);
        let m = if other < WIDTH {
            WIDTH as nat
        } else {
            other
        };
        law_rounding_is_nearest(num, 2 * den, (m - PER_SPACING) as nat);
        assert(units(r) * den == units(lower) * (2 * den)) by (nonlinear_arith)
            requires
                units(r) == 2 * units(lower),
        ;
        let m1 = (m - PER_SPACING) as nat;
        assert(units(m) * den == units(m1) * (2 * den)) by (nonlinear_arith)
            requires
                units(m) == 2 * units(m1),
        ;
        if other < WIDTH {
            assert(other * den < WIDTH * den) by (nonlinear_arith)
                requires
                    other < WIDTH,
                    den > 0,
            ;
        }
    }
}

/// A magnitude that can be represented rounds to itself.
pub proof fn law_rounding_keeps_what_is_exact(m: nat)
    ensures
        nearest_unbounded(units(m), 1) == m,
        m <= INFINITE ==> nearest(units(m), 1) == m,
    decreases m,
{
    if m < WIDTH {
        lemma_fundamental_div_mod_converse(m as int, 1, m as int, 0);
    } else {
        let lower = (m - PER_SPACING) as nat;
        law_rounding_keeps_what_is_exact(lower);
        lemma_nearest_scale(units(lower), 1, 2);
        lemma_units_at_least_spacing(lower);
    }
}

proof fn lemma_units_at_least_spacing(m: nat)
    requires
        m >= PER_SPACING,
    ensures
        units(m) >= PER_SPACING,
{
    if m > PER_SPACING {
        lemma_units_increase(PER_SPACING as nat, m);
    }
}

proof fn lemma_nearest_even_ordered(num1: nat, num2: nat, den: nat)
    requires
        den > 0,
        num1 <= num2,
    ensures
        nearest_even(num1, den) <= nearest_even(num2, den),
{
    lemma_fundamental_div_mod(num1 as int, den as int);
    lemma_fundamental_div_mod(num2 as int, den as int);
    let q1 = num1 / den;
    let q2 = num2 / den;
    let r1 = num1 % den;
    let r2 = num2 % den;
    assert(q1 <= q2 && (q1 == q2 ==> r1 <= r2)) by (nonlinear_arith)
        requires
            num1 == den * q1 + r1,
            num2 == den * q2 + r2,
            0 <= r1 < den,
            0 <= r2 < den,
            num1 <= num2,
    ;
}

proof fn lemma_nearest_ordered_same_den(num1: nat, num2: nat, den: nat)
    requires
        den > 0,
        num1 <= num2,
    ensures
        nearest_unbounded(num1, den) <= nearest_unbounded(num2, den),
    decreases (if num2 > den { num2 - den } else { 0 }),
{
    if num2 < WIDTH * den {
        lemma_nearest_even_ordered(num1, num2, den);
    } else if num1 < WIDTH * den {
        lemma_nearest_even_bounds(num1, den, 0, WIDTH as nat);
        lemma_nearest_at_least_spacing(num2, 2 * den);
    } else {
        lemma_nearest_ordered_same_den(num1, num2, 2 * den);
    }
}

/// Rounding keeps the order of ratios.
pub proof fn law_rounding_is_monotone(num1: nat, den1: nat, num2: nat, den2: nat)
    requires
        den1 > 0,
        den2 > 0,
        num1 * den2 <= num2 * den1,
    ensures
        nearest(num1, den1) <= nearest(num2, den2),
{
    lemma_nearest_scale(num1, den1, den2);
    lemma_nearest_scale(num2, den2, den1);
    assert(den2 * den1 == den1 * den2 && den1 * den2 > 0) by (nonlinear_arith)
        requires
            den1 > 0,
            den2 > 0,
    ;
    assert(den2 * num1 <= den1 * num2) by (nonlinear_arith)
        requires
            num1 * den2 <= num2 * den1,
    ;
    lemma_nearest_ordered_same_den(den2 * num1, den1 * num2, den1 * den2);
}

/// Finite numbers compare as their values do.
pub proof fn law_order_is_by_value(a: Binary64, b: Binary64)
    requires
        a.is_finite(),
        b.is_finite(),
    ensures
        a.at_least(b) <==> a.value() >= b.value(),
        a.is_positive() <==> a.value() > 0,
{
    let m = a.magnitude();
    let n = b.magnitude();
    if m < n {
        lemma_units_increase(m, n);
    }
    if n < m {
        lemma_units_increase(n, m);
    }
    if m > 0 {
        lemma_units_increase(0, m);
    }
    if n > 0 {
        lemma_units_increase(0, n);
    }
}

/// A whole number of at most fifty-three bits, times a power of two, is a
/// magnitude.
proof fn lemma_representable(n: nat, exponent: nat, shift: nat) -> (m: nat)
    requires
        0 < n < WIDTH,
        shift <= exponent <= 2000,
        n * pow2(shift) >= PER_SPACING,
    ensures
        units(m) == n * pow2(exponent),
        m < INFINITE,
    decreases WIDTH - n,
{
    if n >= PER_SPACING {
        lemma_units_parts(n, exponent);
        let m = (exponent * PER_SPACING + n) as nat;
        m
    } else {
        lemma_pow2_zero();
        if shift == 0 {
            assert(n * pow2(0) == n) by (nonlinear_arith)
                requires
                    pow2(0) == 1,
            ;
        }
        lemma_pow2_unfold(shift);
        lemma_pow2_unfold(exponent);
        assert((2 * n) * pow2((shift - 1) as nat) == n * pow2(shift)) by (nonlinear_arith)
            requires
                pow2(shift) == 2 * pow2((shift - 1) as nat),
        ;
        assert((2 * n) * pow2((exponent - 1) as nat) == n * pow2(exponent)) by (nonlinear_arith)
            requires
                pow2(exponent) == 2 * pow2((exponent - 1) as nat),
        ;
        lemma_representable(2 * n, (exponent - 1) as nat, (shift - 1) as nat)
    }
}

/// Counts of at most fifty-three bits are exact as doubles, and come back as
/// they were.
pub proof fn law_counts_are_exact(n: u64)
    requires
        n < WIDTH,
    ensures
        whole(n).is_finite(),
        whole(n).value() == n * one(),
        whole(n).count() == n,
{
    lemma_pow2_pos(ONE_EXPONENT as nat);
    if n == 0 {
        lemma_nearest_zero(1);
        assert(0 * one() == 0);
    } else {
        lemma_pow2_known();
        assert(n * pow2(52) >= PER_SPACING) by (nonlinear_arith)
            requires
                n >= 1,
                pow2(52) == PER_SPACING,
        ;
        let m = lemma_representable(n as nat, ONE_EXPONENT as nat, 52);
        law_rounding_keeps_what_is_exact(m);
        assert(n * one() > 0) by (nonlinear_arith)
            requires
                n > 0,
                one() > 0,
        ;
        if m == 0 {
            assert(units(0) == 0);
        }
        lemma_fundamental_div_mod_converse((n * one()) as int, one() as int, n as int, 0);
    }
}

} // verus!
