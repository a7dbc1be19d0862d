//! What holds of the mapping as a whole.
use vstd::arithmetic::power2::{lemma_pow2_adds, lemma_pow2_pos, pow2};
use vstd::prelude::*;

use crate::binary64::{
    difference, lemma_units_parts, one, product, quotient, sum, units, whole, Binary64,
};
use crate::metrics::{
    accumulated, average_of, hit_rate, in_milliseconds, live_rate, positive_ratio, snapshot,
    usage_percent, Average, Snapshot,
};
use crate::positions::{is_distribution, is_reported, reports};
use crate::precision::{
    law_order_is_by_value, law_rounding_is_monotone, law_rounding_keeps_what_is_exact,
    lemma_units_increase,
};
use crate::rounding::{lemma_nearest_zero, lemma_pow2_known, nearest, PER_SPACING};

verus! {

/// A running average after a sequence of readings.
pub open spec fn accumulated_all(average: Average, readings: Seq<Option<Binary64>>) -> Average
    decreases readings.len(),
{
    if readings.len() == 0 {
        average
    } else {
        accumulated(accumulated_all(average, readings.drop_last()), readings.last())
    }
}

/// Whether a reading counts towards a running average.
pub open spec fn counts(reading: Option<Binary64>) -> bool {
    reading matches Some(v) && v.is_positive()
}

/// How many of the readings are positive.
pub open spec fn positive_count(readings: Seq<Option<Binary64>>) -> nat
    decreases readings.len(),
{
    if readings.len() == 0 {
        0
    } else {
        positive_count(readings.drop_last()) + if counts(readings.last()) {
            1nat
        } else {
            0
        }
    }
}

/// The sum of the positive readings, added up in order.
pub open spec fn positive_sum(start: Binary64, readings: Seq<Option<Binary64>>) -> Binary64
    decreases readings.len(),
{
    if readings.len() == 0 {
        start
    } else {
        let before = positive_sum(start, readings.drop_last());
        match readings.last() {
            Some(v) if v.is_positive() => sum(before, v),
            _ => before,
        }
    }
}

/// An idle scrape, one with no reading or none above zero, changes neither a
/// running average nor what it is made of.
pub proof fn law_idle_scrapes_keep_the_average(average: Average, reading: Option<Binary64>)
    requires
        !counts(reading),
    ensures
        accumulated(average, reading) == average,
        average_of(accumulated(average, reading)) == average_of(average),
{
}

/// After any number of scrapes, a running average is made of the sum of the
/// positive readings and their number.
pub proof fn law_average_is_of_positive_readings(
    average: Average,
    readings: Seq<Option<Binary64>>,
)
    requires
        average.1 + positive_count(readings) <= u64::MAX,
    ensures
        accumulated_all(average, readings).0 == positive_sum(average.0, readings),
        accumulated_all(average, readings).1 == average.1 + positive_count(readings),
    decreases readings.len(),
{
    if readings.len() > 0 {
        law_average_is_of_positive_readings(average, readings.drop_last());
    }
}

/// The time per token and the tokens per second are known together or not at
/// all.
pub proof fn law_decode_timings_come_together(
    seconds: Option<Binary64>,
    tokens: Option<Binary64>,
)
    ensures
        in_milliseconds(positive_ratio(seconds, tokens)) is Some <==> positive_ratio(
            tokens,
            seconds,
        ) is Some,
{
}

/// A scrape without one of the two counters discards the snapshot: the next
/// scrape has no live rate, whatever it holds.
pub proof fn law_missing_counter_discards_the_snapshot(
    accepted: Option<Binary64>,
    draft: Option<Binary64>,
    previous: Option<Snapshot>,
    next: Option<Snapshot>,
)
    requires
        accepted is None || draft is None,
    ensures
        snapshot(accepted, draft) is None,
        live_rate(snapshot(accepted, draft), previous) is None,
        live_rate(next, snapshot(accepted, draft)) is None,
{
}

/// A counter that went backwards gives no live rate, and what the next scrape
/// is compared with is the new reading, not the one from before.
pub proof fn law_backwards_counter_starts_afresh(
    accepted: Binary64,
    draft: Binary64,
    previous: Snapshot,
)
    requires
        !accepted.at_least(previous.0) || !draft.at_least(previous.1),
    ensures
        live_rate(snapshot(Some(accepted), Some(draft)), Some(previous)) is None,
        snapshot(Some(accepted), Some(draft)) == Some((accepted, draft)),
{
}

/// Neither sign of zero, nor anything above it, is below zero.
spec fn not_below_zero(a: Binary64) -> bool {
    a.is_nan() || a.rank() >= 0
}

proof fn lemma_quotient_not_below_zero(a: Binary64, b: Binary64)
    requires
        not_below_zero(a),
        not_below_zero(b),
        b.is_positive(),
    ensures
        not_below_zero(quotient(a, b)),
{
    if a.is_finite() && b.is_finite() {
        lemma_units_increase(0, b.magnitude());
        lemma_pow2_pos(crate::binary64::ONE_EXPONENT as nat);
        if a.magnitude() == 0 {
            assert(units(0) * one() == 0) by (nonlinear_arith)
                requires
                    units(0) == 0,
            ;
            lemma_nearest_zero(units(b.magnitude()));
        }
    }
}

proof fn lemma_product_not_below_zero(a: Binary64, b: Binary64)
    requires
        not_below_zero(a),
        b.is_positive(),
    ensures
        not_below_zero(product(a, b)),
{
    if a.is_finite() && b.is_finite() {
        lemma_pow2_pos(crate::binary64::ONE_EXPONENT as nat);
        if a.magnitude() == 0 {
            assert(units(0) * units(b.magnitude()) == 0) by (nonlinear_arith)
                requires
                    units(0) == 0,
            ;
            lemma_nearest_zero(one());
        }
    }
}

proof fn lemma_difference_not_below_zero(a: Binary64, b: Binary64)
    requires
        a.at_least(b),
    ensures
        not_below_zero(difference(a, b)),
{
    if a.is_finite() && b.is_finite() {
        law_order_is_by_value(a, b);
    }
}

/// The live acceptance rate is never below zero.
pub proof fn law_live_rate_is_not_negative(now: Option<Snapshot>, previous: Option<Snapshot>)
    ensures
        live_rate(now, previous) matches Some(rate) ==> rate.is_nan() || rate.rank() >= 0,
{
    if let (Some((a, d)), Some((prev_a, prev_d))) = (now, previous) {
        if a.at_least(prev_a) && d.at_least(prev_d) {
            let part = difference(a, prev_a);
            let total = difference(d, prev_d);
            lemma_difference_not_below_zero(a, prev_a);
            if total.is_positive() {
                lemma_quotient_not_below_zero(part, total);
                lemma_hundred();
                lemma_product_not_below_zero(quotient(part, total), whole(100));
            }
        }
    }
}

/// `1.0` and `100.0` are exact.
pub proof fn lemma_hundred()
    ensures
        nearest(one(), 1) == 0x3ff0_0000_0000_0000,
        whole(1).bits == 0x3ff0_0000_0000_0000,
        units(0x3ff0_0000_0000_0000) == one(),
        nearest(100 * one(), 1) == 0x4059_0000_0000_0000,
        whole(100).bits == 0x4059_0000_0000_0000,
        units(0x4059_0000_0000_0000) == 100 * one(),
{
    let p = PER_SPACING as nat;
    lemma_pow2_known();
    lemma_units_parts(p, 1022);
    lemma_pow2_adds(52, 1022);
    assert(p * pow2(1022) == one());
    law_rounding_keeps_what_is_exact(0x3ff0_0000_0000_0000);
    assert(1 * one() == one());
    let s: nat = 0x19_0000_0000_0000;
    lemma_units_parts(s, 1028);
    lemma_pow2_adds(46, 1028);
    vstd::arithmetic::power2::lemma2_to64_rest();
    assert(s * pow2(1028) == 100 * one()) by (nonlinear_arith)
        requires
            s == 100 * pow2(46),
            one() == pow2(46) * pow2(1028),
    ;
    law_rounding_keeps_what_is_exact(0x4059_0000_0000_0000);
}

/// A hundred times a ratio up to one is up to a hundred.
proof fn lemma_percent_of_ratio(ratio: Binary64)
    requires
        ratio.magnitude() <= 0x3ff0_0000_0000_0000,
        ratio.rank() >= 0,
    ensures
        !product(ratio, whole(100)).is_nan(),
        0 <= product(ratio, whole(100)).rank() <= whole(100).rank(),
{
    lemma_hundred();
    lemma_product_not_below_zero(ratio, whole(100));
    lemma_pow2_pos(crate::binary64::ONE_EXPONENT as nat);
    if ratio.magnitude() < 0x3ff0_0000_0000_0000 {
        lemma_units_increase(ratio.magnitude(), 0x3ff0_0000_0000_0000);
    }
    let u = units(ratio.magnitude());
    assert((u * (100 * one())) * 1 <= (100 * one()) * one()) by (nonlinear_arith)
        requires
            u <= one(),
    ;
    law_rounding_is_monotone(u * (100 * one()), one(), 100 * one(), 1);
}

/// The KV cache usage is between nothing and all, whatever number the engine
/// says.
pub proof fn law_usage_is_a_percentage(ratio: Binary64)
    requires
        !ratio.is_nan(),
    ensures
        usage_percent(Some(ratio)) matches Some(percent) && !percent.is_nan() && 0 <= percent.rank()
            <= whole(100).rank(),
{
    lemma_hundred();
    lemma_percent_of_ratio(ratio.ratio());
}

/// The hit rate is a share: with counters that are not below zero it is
/// between nothing and all.
pub proof fn law_hit_rate_is_a_share(processed: Binary64, cached: Binary64)
    requires
        !processed.is_nan(),
        processed.rank() >= 0,
        cached.is_finite(),
        cached.rank() >= 0,
    ensures
        hit_rate(Some(processed), Some(cached)) matches Some(rate) ==> !rate.is_nan() && 0
            <= rate.rank() <= whole(100).rank(),
{
    let queried = sum(processed, cached);
    if queried.is_positive() {
        lemma_hundred();
        lemma_quotient_not_below_zero(cached, queried);
        let share = quotient(cached, queried);
        if queried.is_finite() {
            let c = units(cached.magnitude());
            let q = units(queried.magnitude());
            lemma_units_increase(0, queried.magnitude());
            assert(processed.is_finite());
            let total = units(processed.magnitude()) + c;
            assert(processed.value() + cached.value() == total);
            law_rounding_is_monotone(c, 1, total, 1);
            law_rounding_keeps_what_is_exact(cached.magnitude());
            if cached.magnitude() < queried.magnitude() {
                lemma_units_increase(cached.magnitude(), queried.magnitude());
            }
            lemma_pow2_pos(crate::binary64::ONE_EXPONENT as nat);
            assert((c * one()) * 1 <= one() * q) by (nonlinear_arith)
                requires
                    c <= q,
            ;
            law_rounding_is_monotone(c * one(), q, one(), 1);
        }
        lemma_percent_of_ratio(share);
    }
}

/// Where no two counters are about one position, the distribution is
/// determined by them: the count at a position is the count that its counter
/// reports.
pub proof fn law_distribution_is_determined(
    samples: Map<Seq<char>, Binary64>,
    slots: Seq<u64>,
    key: Seq<char>,
    position: int,
)
    requires
        is_distribution(samples, slots),
        reports(samples, key, position),
        forall|other: Seq<char>| #[trigger] reports(samples, other, position) ==> other == key,
    ensures
        0 <= position < slots.len(),
        slots[position] == samples[key].count(),
{
    assert(is_reported(samples, position));
    assert(slots[position] == slots[position]);
}

} // verus!
