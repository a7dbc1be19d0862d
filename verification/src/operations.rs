//! What the operations on doubles mean, over the values of their operands.
//!
//! A result is described by what it has to satisfy: no double is nearer to the
//! exact result, and of two that are equally near it is the even one.
use vstd::arithmetic::div_mod::lemma_fundamental_div_mod;
use vstd::arithmetic::power2::{lemma_pow2_adds, lemma_pow2_pos, pow2};
use vstd::prelude::*;

use crate::binary64::{
    difference, lemma_units_parts, one, opposite, product, quotient, rounded, sum, units, whole,
    Binary64, ONE_EXPONENT,
};
use crate::precision::{
    distance, law_order_is_by_value, law_rounding_is_nearest, lemma_units_increase,
};
use crate::rounding::{lemma_pow2_known, nearest_unbounded, INFINITE, PER_SPACING, WIDTH};

verus! {

/// The size of a whole number, without its sign.
pub open spec fn size(x: int) -> nat {
    if x < 0 {
        (-x) as nat
    } else {
        x as nat
    }
}

/// How far the size of a finite double is from `num / den`, in parts of `den`.
pub open spec fn apart(x: Binary64, num: nat, den: nat) -> nat {
    size(size(x.value()) * den - num)
}

/// Where results begin to be infinite: half a step past the largest double.
pub open spec fn overflow_from() -> nat {
    (0x3f_ffff_ffff_ffff * pow2(2044)) as nat
}

/// Whether `r` has this sign and is the double nearest to `num / den`, counted
/// in smallest positive doubles.
pub open spec fn is_nearest(r: Binary64, negative: bool, num: nat, den: nat) -> bool {
    &&& !r.is_nan()
    &&& r.is_negative() == negative
    &&& r.is_infinite() <==> num >= overflow_from() * den
    &&& r.is_finite() ==> forall|other: Binary64|
        other.is_finite() ==> apart(r, num, den) <= #[trigger] apart(other, num, den) && (apart(
            r,
            num,
            den,
        ) == apart(other, num, den) && size(other.value()) != size(r.value()) ==> r.bits % 2 == 0)
}

/// Whether a double is above zero.
pub open spec fn above_zero(v: Binary64) -> bool {
    ||| v.is_infinite() && !v.is_negative()
    ||| v.is_finite() && v.value() > 0
}

/// Whether one double is another or above it. What is not a number is neither.
pub open spec fn not_below(a: Binary64, b: Binary64) -> bool {
    &&& !a.is_nan()
    &&& !b.is_nan()
    &&& {
        ||| a.is_infinite() && !a.is_negative()
        ||| b.is_infinite() && b.is_negative()
        ||| a.is_finite() && b.is_finite() && a.value() >= b.value()
    }
}

/// Whether `r` is the double for the whole number `n`.
pub open spec fn is_double_of(n: nat, r: Binary64) -> bool {
    is_nearest(r, false, n * one(), 1)
}

/// Whether `r` is `a + b`.
pub open spec fn is_sum(a: Binary64, b: Binary64, r: Binary64) -> bool {
    if a.is_nan() || b.is_nan() {
        r.is_nan()
    } else if a.is_infinite() && b.is_infinite() && a.is_negative() != b.is_negative() {
        r.is_nan()
    } else if a.is_infinite() {
        r == a
    } else if b.is_infinite() {
        r == b
    } else {
        let total = a.value() + b.value();
        is_nearest(
            r,
            total < 0 || (total == 0 && a.is_negative() && b.is_negative()),
            size(total),
            1,
        )
    }
}

/// Whether `r` is `a - b`.
pub open spec fn is_difference(a: Binary64, b: Binary64, r: Binary64) -> bool {
    if a.is_nan() || b.is_nan() {
        r.is_nan()
    } else if a.is_infinite() && b.is_infinite() && a.is_negative() == b.is_negative() {
        r.is_nan()
    } else if a.is_infinite() {
        r == a
    } else if b.is_infinite() {
        r.is_infinite() && r.is_negative() != b.is_negative()
    } else {
        let rest = a.value() - b.value();
        is_nearest(
            r,
            rest < 0 || (rest == 0 && a.is_negative() && !b.is_negative()),
            size(rest),
            1,
        )
    }
}

/// Whether `r` is `a * b`.
pub open spec fn is_product(a: Binary64, b: Binary64, r: Binary64) -> bool {
    let negative = a.is_negative() != b.is_negative();
    if a.is_nan() || b.is_nan() {
        r.is_nan()
    } else if a.is_finite() && b.is_finite() {
        is_nearest(r, negative, size(a.value()) * size(b.value()), one())
    } else if (a.is_finite() && a.value() == 0) || (b.is_finite() && b.value() == 0) {
        r.is_nan()
    } else {
        r.is_infinite() && r.is_negative() == negative
    }
}

/// Whether `r` is `a / b`.
pub open spec fn is_quotient(a: Binary64, b: Binary64, r: Binary64) -> bool {
    let negative = a.is_negative() != b.is_negative();
    if a.is_nan() || b.is_nan() || (a.is_infinite() && b.is_infinite()) {
        r.is_nan()
    } else if a.is_infinite() {
        r.is_infinite() && r.is_negative() == negative
    } else if b.is_infinite() {
        r.is_finite() && r.value() == 0 && r.is_negative() == negative
    } else if b.value() != 0 {
        is_nearest(r, negative, size(a.value()) * one(), size(b.value()))
    } else if a.value() != 0 {
        r.is_infinite() && r.is_negative() == negative
    } else {
        r.is_nan()
    }
}

/// Whether `r` is `part / total * 100`.
pub open spec fn is_percentage(part: Binary64, total: Binary64, r: Binary64) -> bool {
    exists|share: Binary64, hundred: Binary64|
        is_quotient(part, total, share) && is_double_of(100, hundred) && #[trigger] is_product(
            share,
            hundred,
            r,
        )
}

/// Whether `c` is the whole part of a reading: nothing of what is not above
/// zero, and as much as a count can hold of what is larger.
pub open spec fn is_count(v: Binary64, c: u64) -> bool {
    if !above_zero(v) {
        c == 0
    } else if v.is_infinite() {
        c == u64::MAX
    } else {
        c * one() <= v.value() && (c < u64::MAX ==> v.value() < (c + 1) * one())
    }
}

/// The value of a double is what its sign, its exponent and its fraction say.
pub proof fn law_value_is_of_the_bits(b: Binary64)
    ensures
        ({
            let exponent = b.bits as nat / 0x10_0000_0000_0000 % 0x800;
            let fraction = b.bits as nat % 0x10_0000_0000_0000;
            &&& b.is_negative() <==> b.bits as nat / 0x8000_0000_0000_0000 == 1
            &&& b.is_nan() <==> exponent == 0x7ff && fraction != 0
            &&& b.is_infinite() <==> exponent == 0x7ff && fraction == 0
            &&& b.is_finite() <==> exponent != 0x7ff
            &&& b.is_finite() && exponent == 0 ==> size(b.value()) == fraction
            &&& b.is_finite() && exponent > 0 ==> size(b.value()) == (0x10_0000_0000_0000
                + fraction) * pow2((exponent - 1) as nat)
            &&& b.value() < 0 ==> b.is_negative()
            &&& b.value() > 0 ==> !b.is_negative()
        }),
{
    let m = b.magnitude();
    let exponent = m / 0x10_0000_0000_0000;
    let fraction = m % 0x10_0000_0000_0000;
    assert(b.bits as nat / 0x10_0000_0000_0000 % 0x800 == exponent);
    assert(b.bits as nat % 0x10_0000_0000_0000 == fraction);
    if exponent > 0 {
        lemma_units_parts((PER_SPACING + fraction) as nat, (exponent - 1) as nat);
        assert((exponent - 1) * PER_SPACING + (PER_SPACING + fraction) == m);
    }
}

/// Ratios from [`overflow_from`] on, and no others, round past the largest
/// double.
proof fn lemma_overflow(num: nat, den: nat)
    requires
        den > 0,
    ensures
        nearest_unbounded(num, den) >= INFINITE <==> num >= overflow_from() * den,
{
    let h = pow2(2044);
    let top = INFINITE as nat;
    let last = (INFINITE - 1) as nat;
    let m = nearest_unbounded(num, den);
    lemma_pow2_known();
    lemma_pow2_pos(2044);
    vstd::arithmetic::power2::lemma2_to64();
    lemma_pow2_adds(2044, 1);
    lemma_pow2_adds(2044, 2);
    lemma_units_parts(PER_SPACING as nat, 2046);
    lemma_units_parts((WIDTH - 1) as nat, 2045);
    assert(units(top) == 0x40_0000_0000_0000 * h);
    assert(units(last) == 0x3f_ffff_ffff_fffe * h);
    let step = h * den;
    assert(step > 0) by (nonlinear_arith)
        requires
            step == h * den,
            h > 0,
            den > 0,
    ;
    assert(units(top) * den == 0x40_0000_0000_0000 * step) by (nonlinear_arith)
        requires
            units(top) == 0x40_0000_0000_0000 * h,
            step == h * den,
    ;
    assert(units(last) * den == 0x3f_ffff_ffff_fffe * step) by (nonlinear_arith)
        requires
            units(last) == 0x3f_ffff_ffff_fffe * h,
            step == h * den,
    ;
    assert(overflow_from() * den == 0x3f_ffff_ffff_ffff * step) by (nonlinear_arith)
        requires
            overflow_from() == 0x3f_ffff_ffff_ffff * h,
            step == h * den,
    ;
    law_rounding_is_nearest(num, den, top);
    law_rounding_is_nearest(num, den, last);
    if m < top {
        if m < last {
            lemma_units_increase(m, last);
            assert(units(m) * den < units(last) * den) by (nonlinear_arith)
                requires
                    units(m) < units(last),
                    den > 0,
            ;
        } else {
            assert(m == last && last % 2 == 1);
        }
    } else {
        if m > top {
            lemma_units_increase(top, m);
        }
        assert(units(m) * den >= units(top) * den) by (nonlinear_arith)
            requires
                units(m) >= units(top),
        ;
    }
}

/// Rounding gives the nearest double.
proof fn lemma_rounded(negative: bool, num: nat, den: nat)
    requires
        den > 0,
    ensures
        is_nearest(rounded(negative, num, den), negative, num, den),
{
    let r = rounded(negative, num, den);
    lemma_overflow(num, den);
    if r.is_finite() {
        assert forall|other: Binary64| other.is_finite() implies apart(r, num, den)
            <= #[trigger] apart(other, num, den) && (apart(r, num, den) == apart(other, num, den)
            && size(other.value()) != size(r.value()) ==> r.bits % 2 == 0) by {
            law_rounding_is_nearest(num, den, other.magnitude());
            assert(size(other.value()) == units(other.magnitude()));
            assert(size(r.value()) == units(r.magnitude()));
            assert(apart(other, num, den) == distance(num, den, other.magnitude()));
            assert(apart(r, num, den) == distance(num, den, r.magnitude()));
        }
    }
}

/// A double that is nearest to what a double holds exactly holds it too.
pub proof fn law_nearest_keeps_what_is_exact(
    r: Binary64,
    negative: bool,
    num: nat,
    den: nat,
    exact: Binary64,
)
    requires
        is_nearest(r, negative, num, den),
        den > 0,
        exact.is_finite(),
        size(exact.value()) * den == num,
    ensures
        r.is_finite(),
        size(r.value()) == size(exact.value()),
{
    lemma_overflow(num, den);
    let m = exact.magnitude();
    law_rounding_is_nearest(num, den, m);
    assert(apart(exact, num, den) == 0);
    assert(distance(num, den, m) == 0);
    let k = nearest_unbounded(num, den);
    assert(units(k) * den == units(m) * den);
    assert(units(k) == units(m)) by (nonlinear_arith)
        requires
            units(k) * den == units(m) * den,
            den > 0,
    ;
    if k < m {
        lemma_units_increase(k, m);
    }
    if m < k {
        lemma_units_increase(m, k);
    }
    assert(apart(r, num, den) == 0);
    assert(size(r.value()) == size(exact.value())) by (nonlinear_arith)
        requires
            size(r.value()) * den == size(exact.value()) * den,
            den > 0,
    ;
}

/// Being above zero and being reached are matters of value.
pub proof fn law_comparisons_are_by_value(a: Binary64, b: Binary64)
    ensures
        a.is_positive() <==> above_zero(a),
        a.at_least(b) <==> not_below(a, b),
{
    if a.is_finite() {
        law_order_is_by_value(a, a);
        if b.is_finite() {
            law_order_is_by_value(a, b);
        }
    }
}

/// Addition gives the double nearest to the sum.
pub proof fn law_sum_is_nearest(a: Binary64, b: Binary64)
    ensures
        is_sum(a, b, sum(a, b)),
{
    if a.is_finite() && b.is_finite() {
        let total = a.value() + b.value();
        if total == 0 {
            crate::rounding::lemma_nearest_zero(1);
        }
        lemma_rounded(
            total < 0 || (total == 0 && a.is_negative() && b.is_negative()),
            size(total),
            1,
        );
    }
}

/// Subtraction gives the double nearest to the difference.
pub proof fn law_difference_is_nearest(a: Binary64, b: Binary64)
    ensures
        is_difference(a, b, difference(a, b)),
{
    law_sum_is_nearest(a, opposite(b));
    assert(opposite(b).magnitude() == b.magnitude());
    assert(opposite(b).is_negative() != b.is_negative());
}

/// Multiplication gives the double nearest to the product.
pub proof fn law_product_is_nearest(a: Binary64, b: Binary64)
    ensures
        is_product(a, b, product(a, b)),
{
    lemma_pow2_pos(ONE_EXPONENT as nat);
    lemma_nothing_is_zero(a);
    lemma_nothing_is_zero(b);
    if a.is_finite() && b.is_finite() {
        assert(size(a.value()) == units(a.magnitude()));
        assert(size(b.value()) == units(b.magnitude()));
        lemma_rounded(
            a.is_negative() != b.is_negative(),
            units(a.magnitude()) * units(b.magnitude()),
            one(),
        );
    }
}

/// Division gives the double nearest to the quotient.
pub proof fn law_quotient_is_nearest(a: Binary64, b: Binary64)
    ensures
        is_quotient(a, b, quotient(a, b)),
{
    lemma_nothing_is_zero(a);
    lemma_nothing_is_zero(b);
    if a.is_finite() && b.is_finite() && b.value() != 0 {
        assert(size(a.value()) == units(a.magnitude()));
        assert(size(b.value()) == units(b.magnitude()));
        lemma_rounded(
            a.is_negative() != b.is_negative(),
            units(a.magnitude()) * one(),
            units(b.magnitude()),
        );
    }
}

proof fn lemma_nothing_is_zero(a: Binary64)
    ensures
        a.magnitude() == 0 <==> units(a.magnitude()) == 0,
        a.value() == 0 <==> a.magnitude() == 0,
{
    if a.magnitude() > 0 {
        lemma_units_increase(0, a.magnitude());
    }
}

/// A count becomes the double nearest to it.
pub proof fn law_double_of_a_count_is_nearest(n: u64)
    ensures
        is_double_of(n as nat, whole(n)),
{
    lemma_rounded(false, n as nat * one(), 1);
}

/// A share times a hundred is a percentage.
pub proof fn law_percentage_is_of_the_share(part: Binary64, total: Binary64)
    ensures
        is_percentage(part, total, product(quotient(part, total), whole(100))),
{
    law_quotient_is_nearest(part, total);
    law_double_of_a_count_is_nearest(100);
    law_product_is_nearest(quotient(part, total), whole(100));
}

/// A reading is counted by its whole part.
pub proof fn law_count_is_the_whole_part(v: Binary64)
    ensures
        is_count(v, v.count()),
{
    law_comparisons_are_by_value(v, v);
    lemma_pow2_pos(ONE_EXPONENT as nat);
    if above_zero(v) && v.is_finite() {
        let u = units(v.magnitude());
        let q = u / one();
        lemma_fundamental_div_mod(u as int, one() as int);
        assert(q * one() <= u < (q + 1) * one()) by (nonlinear_arith)
            requires
                u == one() * q + u % one(),
                0 <= u % one() < one(),
        ;
        if q > u64::MAX {
            assert(u64::MAX * one() <= q * one()) by (nonlinear_arith)
                requires
                    u64::MAX <= q,
            ;
        }
    }
}

/// A ratio is held between nothing and all: what is below is nothing, what is
/// above is all, and what is between stays.
pub proof fn law_ratio_is_held_to_its_range(v: Binary64)
    ensures
        v.is_nan() ==> v.ratio() == v,
        v.is_finite() && 0 <= v.value() <= one() ==> v.ratio() == v,
        v.is_finite() && v.value() < 0 ==> v.ratio().bits == 0,
        v.is_infinite() && v.is_negative() ==> v.ratio().bits == 0,
        above_zero(v) && (v.is_infinite() || v.value() > one()) ==> v.ratio().is_finite()
            && v.ratio().value() == one(),
{
    crate::laws::lemma_hundred();
    lemma_nothing_is_zero(v);
    let top = 0x3ff0_0000_0000_0000nat;
    if v.magnitude() < top {
        lemma_units_increase(v.magnitude(), top);
    }
    if v.magnitude() > top {
        lemma_units_increase(top, v.magnitude());
    }
}

/// `plus` adds.
pub proof fn law_plus_adds(a: Binary64, b: Binary64, r: Binary64)
    requires
        call_ensures(Binary64::plus, (a, b), r),
    ensures
        is_sum(a, b, r),
{
    law_sum_is_nearest(a, b);
}

/// `minus` subtracts.
pub proof fn law_minus_subtracts(a: Binary64, b: Binary64, r: Binary64)
    requires
        call_ensures(Binary64::minus, (a, b), r),
    ensures
        is_difference(a, b, r),
{
    law_difference_is_nearest(a, b);
}

/// `times` multiplies.
pub proof fn law_times_multiplies(a: Binary64, b: Binary64, r: Binary64)
    requires
        call_ensures(Binary64::times, (a, b), r),
    ensures
        is_product(a, b, r),
{
    law_product_is_nearest(a, b);
}

/// `over` divides.
pub proof fn law_over_divides(a: Binary64, b: Binary64, r: Binary64)
    requires
        call_ensures(Binary64::over, (a, b), r),
    ensures
        is_quotient(a, b, r),
{
    law_quotient_is_nearest(a, b);
}

/// `from_count` gives the double of a count.
pub proof fn law_from_count_is_the_double(n: u64, r: Binary64)
    requires
        call_ensures(Binary64::from_count, (n,), r),
    ensures
        is_double_of(n as nat, r),
{
    law_double_of_a_count_is_nearest(n);
}

/// `to_count` gives the whole part of a reading.
pub proof fn law_to_count_is_the_whole_part(v: Binary64, r: u64)
    requires
        call_ensures(Binary64::to_count, (v,), r),
    ensures
        is_count(v, r),
{
    law_count_is_the_whole_part(v);
}

/// `exceeds_zero` tells what is above zero, and `reaches` what is not below
/// another.
pub proof fn law_comparisons_tell_the_order(a: Binary64, b: Binary64, exceeds: bool, reaches: bool)
    requires
        call_ensures(Binary64::exceeds_zero, (a,), exceeds),
        call_ensures(Binary64::reaches, (a, b), reaches),
    ensures
        exceeds <==> above_zero(a),
        reaches <==> not_below(a, b),
{
    law_comparisons_are_by_value(a, b);
}

} // verus!
