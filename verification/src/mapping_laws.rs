//! What the fields of a mapped scrape mean, over the samples that it holds.
use vstd::arithmetic::power2::lemma_pow2_pos;
use vstd::prelude::*;

use crate::binary64::{
    difference, one, product, quotient, sum, units, whole, Binary64, ONE_EXPONENT,
};
use crate::laws::{accumulated_all, lemma_hundred};
use crate::metrics::{
    acceptance_rate, accumulated, average_of, hit_rate, is_mapping, live_acceptance, live_rate,
    positive_ratio, scraped_snapshot, spec_acceptance_rate, spec_mean_acceptance_length, Average,
    EngineMetrics, Snapshot,
};
use crate::operations::{
    above_zero, is_count, is_difference, is_double_of, is_percentage, is_product, is_quotient,
    is_sum, law_comparisons_are_by_value, law_count_is_the_whole_part, law_difference_is_nearest,
    law_double_of_a_count_is_nearest, law_nearest_keeps_what_is_exact,
    law_percentage_is_of_the_share, law_product_is_nearest, law_quotient_is_nearest,
    law_ratio_is_held_to_its_range, law_sum_is_nearest, not_below, size,
};
use crate::precision::{
    law_counts_are_exact, law_rounding_is_monotone, law_rounding_keeps_what_is_exact,
    lemma_units_increase,
};
use crate::rounding::{lemma_nearest_same_ratio, lemma_nearest_zero, nearest, WIDTH};
use crate::samples::{lookup, ParsedMetrics};

verus! {

/// Whether `c` counts a reading, where there is one.
pub open spec fn is_counted(reading: Option<Binary64>, c: Option<u64>) -> bool {
    match (reading, c) {
        (Some(v), Some(n)) => is_count(v, n),
        (None, None) => true,
        _ => false,
    }
}

/// Whether two readings are there and above zero.
pub open spec fn both_above_zero(a: Option<Binary64>, b: Option<Binary64>) -> bool {
    a is Some && b is Some && above_zero(a->0) && above_zero(b->0)
}

/// Whether `r` is `top / bottom`, given exactly where both are above zero.
pub open spec fn is_rate(top: Option<Binary64>, bottom: Option<Binary64>, r: Option<Binary64>) -> bool {
    &&& r is Some <==> both_above_zero(top, bottom)
    &&& r is Some ==> is_quotient(top->0, bottom->0, r->0)
}

/// Whether `r` is a thousand times `top / bottom`, given exactly where both
/// are above zero.
pub open spec fn is_rate_in_thousandths(
    top: Option<Binary64>,
    bottom: Option<Binary64>,
    r: Option<Binary64>,
) -> bool {
    &&& r is Some <==> both_above_zero(top, bottom)
    &&& r is Some ==> exists|ratio: Binary64, thousand: Binary64|
        is_quotient(top->0, bottom->0, ratio) && is_double_of(1000, thousand)
            && #[trigger] is_product(ratio, thousand, r->0)
}

/// Whether `r` is the share of a total in percent, given exactly where both
/// are there and the total is above zero.
pub open spec fn is_share(part: Option<Binary64>, total: Option<Binary64>, r: Option<Binary64>) -> bool {
    &&& r is Some <==> part is Some && total is Some && above_zero(total->0)
    &&& r is Some ==> is_percentage(part->0, total->0, r->0)
}

/// Counts are the whole parts of the samples of their names, and are there
/// exactly where those are.
pub proof fn law_counts_are_of_their_samples(
    m: EngineMetrics,
    parsed: &ParsedMetrics,
    previous: Option<Snapshot>,
    generation: Average,
    prompt: Average,
)
    requires
        is_mapping(m, parsed, previous, generation, prompt),
    ensures
        is_counted(lookup(parsed.gauges@, "llamacpp_requests_processing"@), m.active_requests),
        is_counted(lookup(parsed.gauges@, "llamacpp_requests_deferred"@), m.queued_requests),
        is_counted(lookup(parsed.counters@, "llamacpp_prompt_tokens_total"@), m.total_prompt_tokens),
        is_counted(
            lookup(parsed.counters@, "llamacpp_tokens_predicted_total"@),
            m.total_generation_tokens,
        ),
        is_counted(lookup(parsed.counters@, "llamacpp_n_decode_total"@), m.total_decode_calls),
        is_counted(lookup(parsed.counters@, "llamacpp_n_tokens_max"@), m.max_sequence_tokens),
        is_counted(
            lookup(parsed.counters@, "llamacpp_spec_decode_num_draft_tokens_total"@),
            m.spec_decode_draft_tokens_total,
        ),
        is_counted(
            lookup(parsed.counters@, "llamacpp_spec_decode_num_accepted_tokens_total"@),
            m.spec_decode_accepted_tokens_total,
        ),
        is_counted(
            lookup(parsed.counters@, "llamacpp_spec_decode_num_drafts_total"@),
            m.spec_decode_drafts_total,
        ),
{
    assert forall|v: Binary64| is_count(v, #[trigger] v.count()) by {
        law_count_is_the_whole_part(v);
    }
}

/// The engine's own gauges are passed on as they are.
pub proof fn law_gauges_are_passed_on(
    m: EngineMetrics,
    parsed: &ParsedMetrics,
    previous: Option<Snapshot>,
    generation: Average,
    prompt: Average,
)
    requires
        is_mapping(m, parsed, previous, generation, prompt),
    ensures
        m.tokens_per_sec == lookup(parsed.gauges@, "llamacpp_predicted_tokens_seconds"@),
        m.prompt_tokens_per_sec == lookup(parsed.gauges@, "llamacpp_prompt_tokens_seconds"@),
        m.avg_batch_size == lookup(parsed.gauges@, "llamacpp_n_busy_slots_per_decode"@),
{
}

/// What this engine does not report stays blank, whatever a scrape holds.
pub proof fn law_unreported_fields_stay_blank(
    m: EngineMetrics,
    parsed: &ParsedMetrics,
    previous: Option<Snapshot>,
    generation: Average,
    prompt: Average,
)
    requires
        is_mapping(m, parsed, previous, generation, prompt),
    ensures
        m.ttft_ms is None && m.ttft_percentiles is None && m.ttft_goodput_pct is None
            && m.ttft_buckets is None,
        m.itl_percentiles is None && m.itl_goodput_pct is None && m.itl_buckets is None,
        m.e2e_latency_ms is None && m.e2e_percentiles is None && m.e2e_goodput_pct is None
            && m.e2e_buckets is None,
        m.tpot_percentiles is None && m.tpot_goodput_pct is None && m.tpot_buckets is None,
        m.total_requests is None && m.swapped_requests is None && m.queue_time_ms is None
            && m.preemptions_total is None,
        !m.kv_cache_is_estimated,
        !m.warming_up,
{
}

/// Rates are tokens by seconds, and the time per token is seconds by tokens in
/// milliseconds, for every number of tokens and seconds above zero.
pub proof fn law_rates_are_tokens_by_seconds(
    m: EngineMetrics,
    parsed: &ParsedMetrics,
    previous: Option<Snapshot>,
    generation: Average,
    prompt: Average,
)
    requires
        is_mapping(m, parsed, previous, generation, prompt),
    ensures
        is_rate(
            lookup(parsed.counters@, "llamacpp_tokens_predicted_total"@),
            lookup(parsed.counters@, "llamacpp_tokens_predicted_seconds_total"@),
            m.per_request_tps,
        ),
        is_rate(
            lookup(parsed.counters@, "llamacpp_prompt_tokens_total"@),
            lookup(parsed.counters@, "llamacpp_prompt_seconds_total"@),
            m.per_request_prompt_tps,
        ),
        is_rate_in_thousandths(
            lookup(parsed.counters@, "llamacpp_tokens_predicted_seconds_total"@),
            lookup(parsed.counters@, "llamacpp_tokens_predicted_total"@),
            m.tpot_ms,
        ),
        m.inter_token_latency_ms == m.tpot_ms,
{
    let tokens = lookup(parsed.counters@, "llamacpp_tokens_predicted_total"@);
    let seconds = lookup(parsed.counters@, "llamacpp_tokens_predicted_seconds_total"@);
    lemma_rate(tokens, seconds);
    lemma_rate(seconds, tokens);
    lemma_rate(
        lookup(parsed.counters@, "llamacpp_prompt_tokens_total"@),
        lookup(parsed.counters@, "llamacpp_prompt_seconds_total"@),
    );
    if both_above_zero(seconds, tokens) {
        law_double_of_a_count_is_nearest(1000);
        law_product_is_nearest(quotient(seconds->0, tokens->0), whole(1000));
        assert(is_product(quotient(seconds->0, tokens->0), whole(1000), m.tpot_ms->0));
    }
}

proof fn lemma_rate(top: Option<Binary64>, bottom: Option<Binary64>)
    ensures
        is_rate(top, bottom, positive_ratio(top, bottom)),
        both_above_zero(top, bottom) ==> positive_ratio(top, bottom) == Some(
            quotient(top->0, bottom->0),
        ),
{
    if let (Some(a), Some(b)) = (top, bottom) {
        law_comparisons_are_by_value(a, b);
        law_comparisons_are_by_value(b, a);
        law_quotient_is_nearest(a, b);
    }
}

/// Where some double times the seconds is exactly the tokens, that double is
/// the rate.
pub proof fn law_exact_rate_times_seconds_is_tokens(
    tokens: Binary64,
    seconds: Binary64,
    exact: Binary64,
)
    requires
        tokens.is_finite(),
        tokens.value() > 0,
        seconds.is_finite(),
        seconds.value() > 0,
        exact.is_finite(),
        exact.value() * seconds.value() == tokens.value() * one(),
    ensures
        positive_ratio(Some(tokens), Some(seconds)) matches Some(rate) && rate.is_finite()
            && rate.value() == exact.value(),
{
    lemma_rate(Some(tokens), Some(seconds));
    let rate = quotient(tokens, seconds);
    lemma_pow2_pos(ONE_EXPONENT as nat);
    assert(exact.value() > 0) by (nonlinear_arith)
        requires
            exact.value() * seconds.value() == tokens.value() * one(),
            tokens.value() > 0,
            seconds.value() > 0,
            one() > 0,
    ;
    law_nearest_keeps_what_is_exact(
        rate,
        false,
        size(tokens.value()) * one(),
        size(seconds.value()),
        exact,
    );
}

/// Half the seconds for the same tokens are twice the rate, where both rates
/// are exact.
pub proof fn law_half_the_seconds_is_twice_the_rate(
    tokens: Binary64,
    seconds: Binary64,
    half: Binary64,
    exact: Binary64,
    twice: Binary64,
)
    requires
        tokens.is_finite(),
        tokens.value() > 0,
        seconds.is_finite(),
        half.is_finite(),
        half.value() > 0,
        seconds.value() == 2 * half.value(),
        exact.is_finite(),
        exact.value() * seconds.value() == tokens.value() * one(),
        twice.is_finite(),
        twice.value() == 2 * exact.value(),
    ensures
        positive_ratio(Some(tokens), Some(seconds)) matches Some(rate) && (positive_ratio(
            Some(tokens),
            Some(half),
        ) matches Some(faster) && faster.value() == 2 * rate.value()),
{
    assert(twice.value() * half.value() == exact.value() * seconds.value()) by (nonlinear_arith)
        requires
            twice.value() == 2 * exact.value(),
            seconds.value() == 2 * half.value(),
    ;
    law_exact_rate_times_seconds_is_tokens(tokens, seconds, exact);
    law_exact_rate_times_seconds_is_tokens(tokens, half, twice);
}

/// The acceptance rate is the accepted share of the drafted tokens, and the
/// mean length is the accepted tokens by the draft attempts.
pub proof fn law_acceptance_is_of_the_drafted(
    m: EngineMetrics,
    parsed: &ParsedMetrics,
    previous: Option<Snapshot>,
    generation: Average,
    prompt: Average,
)
    requires
        is_mapping(m, parsed, previous, generation, prompt),
    ensures
        ({
            let accepted = lookup(
                parsed.counters@,
                "llamacpp_spec_decode_num_accepted_tokens_total"@,
            );
            let draft = lookup(parsed.counters@, "llamacpp_spec_decode_num_draft_tokens_total"@);
            let drafts = lookup(parsed.counters@, "llamacpp_spec_decode_num_drafts_total"@);
            let length = m.spec_decode_mean_acceptance_length;
            &&& is_share(accepted, draft, m.spec_decode_acceptance_rate)
            &&& length is Some <==> accepted is Some && drafts is Some && above_zero(drafts->0)
            &&& length is Some ==> is_quotient(accepted->0, drafts->0, length->0)
        }),
{
    let accepted = lookup(parsed.counters@, "llamacpp_spec_decode_num_accepted_tokens_total"@);
    let draft = lookup(parsed.counters@, "llamacpp_spec_decode_num_draft_tokens_total"@);
    let drafts = lookup(parsed.counters@, "llamacpp_spec_decode_num_drafts_total"@);
    lemma_acceptance(accepted, draft);
    if let (Some(a), Some(d)) = (accepted, drafts) {
        law_comparisons_are_by_value(d, d);
        law_quotient_is_nearest(a, d);
    }
}

proof fn lemma_acceptance(accepted: Option<Binary64>, draft: Option<Binary64>)
    ensures
        is_share(accepted, draft, acceptance_rate(accepted, draft)),
{
    if let (Some(a), Some(d)) = (accepted, draft) {
        law_comparisons_are_by_value(d, d);
        law_percentage_is_of_the_share(a, d);
    }
}

/// The tokens queried are those processed and those cached, and the hit rate
/// is the cached share of them; both are there exactly where both counters
/// are, and the hit rate only where something was queried.
pub proof fn law_cache_hits_are_of_the_queried(
    m: EngineMetrics,
    parsed: &ParsedMetrics,
    previous: Option<Snapshot>,
    generation: Average,
    prompt: Average,
)
    requires
        is_mapping(m, parsed, previous, generation, prompt),
    ensures
        ({
            let processed = lookup(parsed.counters@, "llamacpp_prompt_tokens_total"@);
            let cached = lookup(parsed.counters@, "llamacpp_prompt_tokens_cached_total"@);
            let count = m.prefix_cache_queries_total;
            &&& count is Some <==> processed is Some && cached is Some
            &&& m.prefix_cache_hit_rate is Some ==> count is Some
            &&& count is Some ==> exists|queried: Binary64| #[trigger]
                is_sum(processed->0, cached->0, queried) && is_count(queried, count->0) && is_share(
                    cached,
                    Some(queried),
                    m.prefix_cache_hit_rate,
                )
        }),
{
    let processed = lookup(parsed.counters@, "llamacpp_prompt_tokens_total"@);
    let cached = lookup(parsed.counters@, "llamacpp_prompt_tokens_cached_total"@);
    if let (Some(p), Some(c)) = (processed, cached) {
        let queried = sum(p, c);
        law_sum_is_nearest(p, c);
        law_count_is_the_whole_part(queried);
        law_comparisons_are_by_value(queried, queried);
        law_percentage_is_of_the_share(c, queried);
        assert(is_sum(processed->0, cached->0, queried));
    }
}

/// The KV cache usage is a hundred times the ratio, held between nothing and
/// all.
pub proof fn law_usage_is_of_the_ratio(
    m: EngineMetrics,
    parsed: &ParsedMetrics,
    previous: Option<Snapshot>,
    generation: Average,
    prompt: Average,
)
    requires
        is_mapping(m, parsed, previous, generation, prompt),
    ensures
        ({
            let ratio = lookup(parsed.gauges@, "llamacpp_kv_cache_usage_ratio"@);
            let percent = m.kv_cache_percent;
            &&& percent is Some <==> ratio is Some
            &&& percent is Some && ratio->0.is_nan() ==> percent->0.is_nan()
            &&& percent is Some && ratio->0.is_finite() && 0 <= ratio->0.value() <= one()
                ==> exists|hundred: Binary64|
                is_double_of(100, hundred) && #[trigger] is_product(ratio->0, hundred, percent->0)
            &&& percent is Some && ((ratio->0.is_finite() && ratio->0.value() < 0) || (
            ratio->0.is_infinite() && ratio->0.is_negative())) ==> percent->0.bits == 0
            &&& percent is Some && above_zero(ratio->0) && (ratio->0.is_infinite()
                || ratio->0.value() > one()) ==> percent->0.is_finite() && percent->0.value() == 100
                * one()
        }),
{
    if let Some(v) = lookup(parsed.gauges@, "llamacpp_kv_cache_usage_ratio"@) {
        let held = v.ratio();
        law_ratio_is_held_to_its_range(v);
        law_double_of_a_count_is_nearest(100);
        law_product_is_nearest(held, whole(100));
        assert(is_product(held, whole(100), m.kv_cache_percent->0));
        lemma_hundred();
        lemma_pow2_pos(ONE_EXPONENT as nat);
        if held.bits == 0 {
            assert(units(0) * (100 * one()) == 0) by (nonlinear_arith)
                requires
                    units(0) == 0,
            ;
            lemma_nearest_zero(one());
        }
        if held.is_finite() && held.value() == one() {
            lemma_all_in_percent(held);
        }
    }
}

/// All of it is a hundred percent.
proof fn lemma_all_in_percent(all: Binary64)
    requires
        all.is_finite(),
        all.value() == one(),
    ensures
        product(all, whole(100)).is_finite(),
        product(all, whole(100)).value() == 100 * one(),
{
    lemma_hundred();
    lemma_pow2_pos(ONE_EXPONENT as nat);
    let u = units(all.magnitude());
    assert((u * (100 * one())) * 1 == (100 * one()) * one()) by (nonlinear_arith)
        requires
            u == one(),
    ;
    lemma_nearest_same_ratio(u * (100 * one()), one(), 100 * one(), 1);
}

/// What a scrape leaves for the next one is both counters, or nothing where
/// one is missing.
pub proof fn law_snapshot_is_of_both_counters(parsed: &ParsedMetrics)
    ensures
        ({
            let accepted = lookup(
                parsed.counters@,
                "llamacpp_spec_decode_num_accepted_tokens_total"@,
            );
            let draft = lookup(parsed.counters@, "llamacpp_spec_decode_num_draft_tokens_total"@);
            &&& scraped_snapshot(parsed) is Some <==> accepted is Some && draft is Some
            &&& scraped_snapshot(parsed) is Some ==> scraped_snapshot(parsed)->0 == (
                accepted->0,
                draft->0,
            )
        }),
{
}

/// Whether `r` is the rate of the window between two readings of the
/// counters: the share of the drafted increase that was accepted.
pub open spec fn is_rate_of_the_window(now: Snapshot, previous: Snapshot, r: Option<Binary64>) -> bool {
    exists|accepted: Binary64, drafted: Binary64| #[trigger]
        is_difference(now.0, previous.0, accepted) && #[trigger] is_difference(
            now.1,
            previous.1,
            drafted,
        ) && is_share(Some(accepted), Some(drafted), r)
}

/// The live rate is the accepted share of what was drafted since the previous
/// reading, for every size of the window. There is none without a previous
/// reading, and none where a counter is missing or has gone backwards.
pub proof fn law_live_rate_is_of_the_window(
    m: EngineMetrics,
    parsed: &ParsedMetrics,
    previous: Option<Snapshot>,
    generation: Average,
    prompt: Average,
)
    requires
        is_mapping(m, parsed, previous, generation, prompt),
    ensures
        ({
            let accepted = lookup(
                parsed.counters@,
                "llamacpp_spec_decode_num_accepted_tokens_total"@,
            );
            let draft = lookup(parsed.counters@, "llamacpp_spec_decode_num_draft_tokens_total"@);
            let live = m.spec_decode_acceptance_rate_live;
            match (accepted, draft, previous) {
                (Some(a), Some(d), Some(before)) => if not_below(a, before.0) && not_below(
                    d,
                    before.1,
                ) {
                    is_rate_of_the_window((a, d), before, live)
                } else {
                    live is None
                },
                _ => live is None,
            }
        }),
{
    let accepted = lookup(parsed.counters@, "llamacpp_spec_decode_num_accepted_tokens_total"@);
    let draft = lookup(parsed.counters@, "llamacpp_spec_decode_num_draft_tokens_total"@);
    if let (Some(a), Some(d)) = (accepted, draft) {
        if let Some(p) = previous {
            law_comparisons_are_by_value(a, p.0);
            law_comparisons_are_by_value(d, p.1);
            law_difference_is_nearest(a, p.0);
            law_difference_is_nearest(d, p.1);
            let x = difference(a, p.0);
            let y = difference(d, p.1);
            lemma_acceptance(Some(x), Some(y));
            assert(is_difference(a, p.0, x) && is_difference(d, p.1, y));
        }
    }
}

/// The increase of a counter that starts at zero or above it.
proof fn lemma_increase(now: Binary64, before: Binary64)
    requires
        now.is_finite(),
        before.is_finite(),
        0 <= before.value() <= now.value(),
    ensures
        difference(now, before).is_finite(),
        difference(now, before).magnitude() == nearest((now.value() - before.value()) as nat, 1),
        now.value() > before.value() ==> difference(now, before).is_positive(),
{
    let rest = (now.value() - before.value()) as nat;
    lemma_nearest_zero(1);
    assert(crate::binary64::opposite(before).magnitude() == before.magnitude());
    law_rounding_keeps_what_is_exact(now.magnitude());
    law_rounding_keeps_what_is_exact(1);
    assert(units(1) == 1);
    assert(now.value() == units(now.magnitude())) by {
        if now.is_negative() {
            assert(now.value() == -units(now.magnitude()));
        }
    }
    law_rounding_is_monotone(rest, 1, units(now.magnitude()), 1);
    if rest > 0 {
        law_rounding_is_monotone(1, 1, rest, 1);
    }
}

/// A part of a total is between nothing and a hundred percent of it, and all
/// of it is a hundred percent.
proof fn lemma_part_in_percent(part: Binary64, total: Binary64)
    requires
        part.is_finite(),
        total.is_finite(),
        total.is_positive(),
        part.magnitude() <= total.magnitude(),
    ensures
        product(quotient(part, total), whole(100)).is_finite(),
        size(product(quotient(part, total), whole(100)).value()) <= 100 * one(),
        part.magnitude() == total.magnitude() ==> size(
            product(quotient(part, total), whole(100)).value(),
        ) == 100 * one(),
        part.magnitude() == 0 ==> product(quotient(part, total), whole(100)).value() == 0,
{
    lemma_hundred();
    lemma_pow2_pos(ONE_EXPONENT as nat);
    let u = units(part.magnitude());
    let v = units(total.magnitude());
    lemma_units_increase(0, total.magnitude());
    if part.magnitude() < total.magnitude() {
        lemma_units_increase(part.magnitude(), total.magnitude());
    }
    assert((u * one()) * 1 <= one() * v) by (nonlinear_arith)
        requires
            u <= v,
    ;
    law_rounding_is_monotone(u * one(), v, one(), 1);
    let share = quotient(part, total);
    let s = units(share.magnitude());
    if share.magnitude() < 0x3ff0_0000_0000_0000 {
        lemma_units_increase(share.magnitude(), 0x3ff0_0000_0000_0000);
    }
    assert((s * (100 * one())) * 1 <= (100 * one()) * one()) by (nonlinear_arith)
        requires
            s <= one(),
    ;
    law_rounding_is_monotone(s * (100 * one()), one(), 100 * one(), 1);
    let r = product(share, whole(100));
    if r.magnitude() < 0x4059_0000_0000_0000 {
        lemma_units_increase(r.magnitude(), 0x4059_0000_0000_0000);
    }
    if u == v {
        assert((u * one()) * 1 == one() * v) by (nonlinear_arith)
            requires
                u == v,
        ;
        lemma_nearest_same_ratio(u * one(), v, one(), 1);
        assert((s * (100 * one())) * 1 == (100 * one()) * one()) by (nonlinear_arith)
            requires
                s == one(),
        ;
        lemma_nearest_same_ratio(s * (100 * one()), one(), 100 * one(), 1);
    }
    if u == 0 {
        assert(u * one() == 0) by (nonlinear_arith)
            requires
                u == 0,
        ;
        lemma_nearest_zero(v);
        assert(s * (100 * one()) == 0) by (nonlinear_arith)
            requires
                s == 0,
        ;
        lemma_nearest_zero(one());
    }
}

/// In a window in which something was drafted there is a live rate. It is at
/// most a hundred where no more was accepted than drafted, a hundred where all
/// was, and nothing where nothing was.
pub proof fn law_live_rate_is_a_share_of_the_window(now: Snapshot, previous: Snapshot)
    requires
        now.0.is_finite(),
        now.1.is_finite(),
        previous.0.is_finite(),
        previous.1.is_finite(),
        0 <= previous.0.value() <= now.0.value(),
        0 <= previous.1.value() < now.1.value(),
    ensures
        live_rate(Some(now), Some(previous)) is Some,
        ({
            let rate = live_rate(Some(now), Some(previous))->0;
            let accepted = now.0.value() - previous.0.value();
            let drafted = now.1.value() - previous.1.value();
            &&& accepted <= drafted ==> rate.is_finite() && 0 <= rate.value() <= 100 * one()
            &&& accepted == drafted ==> rate.value() == 100 * one()
            &&& accepted == 0 ==> rate.value() == 0
        }),
{
    let x = difference(now.0, previous.0);
    let y = difference(now.1, previous.1);
    let accepted = (now.0.value() - previous.0.value()) as nat;
    let drafted = (now.1.value() - previous.1.value()) as nat;
    law_comparisons_are_by_value(now.0, previous.0);
    law_comparisons_are_by_value(now.1, previous.1);
    lemma_increase(now.0, previous.0);
    lemma_increase(now.1, previous.1);
    if accepted <= drafted {
        law_rounding_is_monotone(accepted, 1, drafted, 1);
        lemma_part_in_percent(x, y);
        if accepted > 0 {
            assert(!x.is_negative());
        } else {
            lemma_nearest_zero(1);
        }
    }
}

/// A share of a counter is at most a hundred percent where the part is at most
/// the total, a hundred where it is all, and nothing where it is nothing: the
/// lifetime acceptance rate.
pub proof fn law_acceptance_is_at_most_all(accepted: Binary64, draft: Binary64)
    requires
        accepted.is_finite(),
        draft.is_finite(),
        0 <= accepted.value() <= draft.value(),
        draft.value() > 0,
    ensures
        acceptance_rate(Some(accepted), Some(draft)) is Some,
        ({
            let rate = acceptance_rate(Some(accepted), Some(draft))->0;
            &&& rate.is_finite()
            &&& 0 <= rate.value() <= 100 * one()
            &&& accepted.value() == draft.value() ==> rate.value() == 100 * one()
            &&& accepted.value() == 0 ==> rate.value() == 0
        }),
{
    law_comparisons_are_by_value(draft, draft);
    lemma_ordered_magnitudes(accepted, draft);
    lemma_part_in_percent(accepted, draft);
}

/// Doubles that are not below zero are ordered as their bit patterns are.
proof fn lemma_ordered_magnitudes(a: Binary64, b: Binary64)
    requires
        a.is_finite(),
        b.is_finite(),
        0 <= a.value() <= b.value(),
    ensures
        a.magnitude() <= b.magnitude(),
        a.value() == b.value() ==> a.magnitude() == b.magnitude(),
        a.value() == 0 ==> a.magnitude() == 0,
        a.value() > 0 ==> !a.is_negative(),
{
    let m = a.magnitude();
    let n = b.magnitude();
    if m > 0 {
        lemma_units_increase(0, m);
    }
    if n > 0 {
        lemma_units_increase(0, n);
    }
    if m < n {
        lemma_units_increase(m, n);
    }
    if n < m {
        lemma_units_increase(n, m);
    }
}

/// Where nothing was processed that was not cached, the hit rate is a hundred,
/// and where nothing was cached it is nothing.
pub proof fn law_hit_rate_at_its_ends(processed: Binary64, cached: Binary64)
    requires
        processed.is_finite(),
        cached.is_finite(),
    ensures
        processed.value() == 0 && cached.value() > 0 ==> (hit_rate(
            Some(processed),
            Some(cached),
        ) matches Some(rate) && rate.is_finite() && rate.value() == 100 * one()),
        processed.value() > 0 && cached.value() == 0 ==> (hit_rate(
            Some(processed),
            Some(cached),
        ) matches Some(rate) && rate.is_finite() && rate.value() == 0),
{
    let queried = sum(processed, cached);
    law_comparisons_are_by_value(queried, queried);
    if processed.value() == 0 && cached.value() > 0 {
        lemma_ordered_magnitudes(processed, cached);
        law_rounding_keeps_what_is_exact(cached.magnitude());
        lemma_part_in_percent(cached, queried);
    }
    if processed.value() > 0 && cached.value() == 0 {
        lemma_ordered_magnitudes(cached, processed);
        lemma_ordered_magnitudes(processed, processed);
        law_rounding_keeps_what_is_exact(processed.magnitude());
        lemma_part_in_percent(cached, queried);
    }
}

/// Whether a reading is there and above zero.
pub open spec fn is_heard(reading: Option<Binary64>) -> bool {
    reading is Some && above_zero(reading->0)
}

/// A running average takes a reading above zero into its sum and counts it,
/// and takes no other.
pub proof fn law_average_takes_what_is_above_zero(average: Average, reading: Option<Binary64>)
    requires
        average.1 < u64::MAX,
    ensures
        is_heard(reading) ==> is_sum(average.0, reading->0, accumulated(average, reading).0)
            && accumulated(average, reading).1 == average.1 + 1,
        !is_heard(reading) ==> accumulated(average, reading) == average,
{
    if let Some(v) = reading {
        law_comparisons_are_by_value(v, v);
        law_sum_is_nearest(average.0, v);
    }
}

/// Whether `r` is the sum of the readings by their number, given exactly where
/// there is one.
pub open spec fn is_average(average: Average, r: Option<Binary64>) -> bool {
    &&& r is Some <==> average.1 > 0
    &&& r is Some ==> exists|count: Binary64|
        is_double_of(average.1 as nat, count) && #[trigger] is_quotient(average.0, count, r->0)
}

/// A running average is the sum by the number, for every number of readings.
pub proof fn law_average_is_the_sum_by_the_number(average: Average)
    ensures
        is_average(average, average_of(average)),
{
    law_double_of_a_count_is_nearest(average.1);
    law_quotient_is_nearest(average.0, whole(average.1));
    if average.1 > 0 {
        assert(is_quotient(average.0, whole(average.1), average_of(average)->0));
    }
}

/// The averages that a scrape reports are those of the accumulators after it
/// has been taken into them.
pub proof fn law_averages_are_of_the_readings(
    m: EngineMetrics,
    parsed: &ParsedMetrics,
    previous: Option<Snapshot>,
    generation: Average,
    prompt: Average,
)
    requires
        is_mapping(m, parsed, previous, generation, prompt),
    ensures
        is_average(
            accumulated(
                generation,
                lookup(parsed.gauges@, "llamacpp_predicted_tokens_seconds"@),
            ),
            m.avg_tokens_per_sec,
        ),
        is_average(
            accumulated(prompt, lookup(parsed.gauges@, "llamacpp_prompt_tokens_seconds"@)),
            m.avg_prompt_tokens_per_sec,
        ),
{
    law_average_is_the_sum_by_the_number(
        accumulated(generation, lookup(parsed.gauges@, "llamacpp_predicted_tokens_seconds"@)),
    );
    law_average_is_the_sum_by_the_number(
        accumulated(prompt, lookup(parsed.gauges@, "llamacpp_prompt_tokens_seconds"@)),
    );
}

/// How many readings are above zero.
pub open spec fn heard_count(readings: Seq<Option<Binary64>>) -> nat
    decreases readings.len(),
{
    if readings.len() == 0 {
        0
    } else if is_heard(readings.last()) {
        heard_count(readings.drop_last()) + 1
    } else {
        heard_count(readings.drop_last())
    }
}

/// The values of the readings above zero, added up.
pub open spec fn heard_value(readings: Seq<Option<Binary64>>) -> int
    decreases readings.len(),
{
    if readings.len() == 0 {
        0
    } else if is_heard(readings.last()) {
        heard_value(readings.drop_last()) + readings.last()->0.value()
    } else {
        heard_value(readings.drop_last())
    }
}

/// Whether a double holds a value exactly.
pub open spec fn holds(x: Binary64, value: int) -> bool {
    x.is_finite() && x.value() == value
}

/// Whether the readings above zero are finite and each of their sums, up to
/// some reading, is a double.
pub open spec fn sums_exactly(readings: Seq<Option<Binary64>>) -> bool
    decreases readings.len(),
{
    readings.len() > 0 ==> {
        &&& sums_exactly(readings.drop_last())
        &&& is_heard(readings.last()) ==> readings.last()->0.is_finite()
        &&& exists|x: Binary64| #[trigger] holds(x, heard_value(readings))
    }
}

/// An average without readings.
pub open spec fn unheard() -> Average {
    (Binary64 { bits: 0 }, 0)
}

/// Where every sum is a double, the accumulator holds it, with the number of
/// the readings.
pub proof fn law_accumulator_holds_the_sum(readings: Seq<Option<Binary64>>)
    requires
        sums_exactly(readings),
        heard_count(readings) <= u64::MAX,
    ensures
        holds(accumulated_all(unheard(), readings).0, heard_value(readings)),
        heard_value(readings) >= 0,
        accumulated_all(unheard(), readings).1 == heard_count(readings),
    decreases readings.len(),
{
    if readings.len() > 0 {
        let rest = readings.drop_last();
        let before = accumulated_all(unheard(), rest);
        law_accumulator_holds_the_sum(rest);
        if is_heard(readings.last()) {
            let v = readings.last()->0;
            law_average_takes_what_is_above_zero(before, readings.last());
            let exact = choose|x: Binary64| #[trigger] holds(x, heard_value(readings));
            let total = before.0.value() + v.value();
            let s = accumulated(before, readings.last()).0;
            law_nearest_keeps_what_is_exact(s, false, size(total), 1, exact);
        } else {
            if let Some(v) = readings.last() {
                law_comparisons_are_by_value(v, v);
            }
        }
    }
}

proof fn lemma_sum_between(readings: Seq<Option<Binary64>>, low: int, high: int)
    requires
        forall|i: int|
            0 <= i < readings.len() && is_heard(#[trigger] readings[i]) ==> low
                <= readings[i]->0.value() <= high,
    ensures
        low * heard_count(readings) <= heard_value(readings) <= high * heard_count(readings),
    decreases readings.len(),
{
    if readings.len() > 0 {
        let rest = readings.drop_last();
        assert forall|i: int| 0 <= i < rest.len() && is_heard(#[trigger] rest[i]) implies low
            <= rest[i]->0.value() <= high by {
            assert(rest[i] == readings[i]);
        }
        lemma_sum_between(rest, low, high);
        assert(readings.last() == readings[readings.len() - 1]);
        let n = heard_count(rest);
        assert(low * (n + 1) == low * n + low && high * (n + 1) == high * n + high)
            by (nonlinear_arith);
    } else {
        assert(low * 0 == 0 && high * 0 == 0);
    }
}

/// A running average lies among its readings: between the smallest and the
/// largest of those above zero, however many there are, where their sums are
/// doubles.
pub proof fn law_average_lies_among_its_readings(
    readings: Seq<Option<Binary64>>,
    low: Binary64,
    high: Binary64,
)
    requires
        sums_exactly(readings),
        0 < heard_count(readings) < WIDTH,
        low.is_finite(),
        high.is_finite(),
        low.value() >= 0,
        forall|i: int|
            0 <= i < readings.len() && is_heard(#[trigger] readings[i]) ==> low.value()
                <= readings[i]->0.value() <= high.value(),
    ensures
        average_of(accumulated_all(unheard(), readings)) matches Some(average)
            && average.is_finite() && low.value() <= average.value() <= high.value(),
{
    let n = heard_count(readings);
    let state = accumulated_all(unheard(), readings);
    law_accumulator_holds_the_sum(readings);
    lemma_sum_between(readings, low.value(), high.value());
    law_counts_are_exact(state.1);
    lemma_pow2_pos(ONE_EXPONENT as nat);
    let count = whole(state.1);
    let total = heard_value(readings) as nat;
    let bottom = units(count.magnitude());
    let l = units(low.magnitude());
    let h = units(high.magnitude());
    assert(high.value() >= 0) by (nonlinear_arith)
        requires
            high.value() * n >= low.value() * n,
            low.value() >= 0,
            n > 0,
    ;
    assert(units(state.0.magnitude()) == total);
    assert(bottom == n * one() && bottom > 0) by (nonlinear_arith)
        requires
            bottom == n * one(),
            n > 0,
            one() > 0,
    ;
    assert(l * bottom <= (total * one()) * 1) by (nonlinear_arith)
        requires
            l * n <= total,
            bottom == n * one(),
    ;
    assert((total * one()) * 1 <= h * bottom) by (nonlinear_arith)
        requires
            total <= h * n,
            bottom == n * one(),
    ;
    law_rounding_is_monotone(l, 1, total * one(), bottom);
    law_rounding_is_monotone(total * one(), bottom, h, 1);
    law_rounding_keeps_what_is_exact(low.magnitude());
    law_rounding_keeps_what_is_exact(high.magnitude());
    let average = quotient(state.0, count);
    lemma_units_not_smaller(low.magnitude(), average.magnitude());
    lemma_units_not_smaller(average.magnitude(), high.magnitude());
    lemma_units_not_smaller(0, count.magnitude());
    if total == 0 {
        assert(l * n <= 0);
        assert(l == 0) by (nonlinear_arith)
            requires
                l * n <= 0,
                n > 0,
        ;
        assert(total * one() == 0) by (nonlinear_arith)
            requires
                total == 0,
        ;
        lemma_nearest_zero(bottom);
    } else {
        lemma_ordered_magnitudes(state.0, state.0);
    }
    lemma_ordered_magnitudes(count, count);
}

proof fn lemma_units_not_smaller(m: nat, n: nat)
    requires
        m <= n,
    ensures
        units(m) <= units(n),
{
    if m < n {
        lemma_units_increase(m, n);
    }
}

/// The average of equal readings is the reading, however many there are, where
/// their sums are doubles.
pub proof fn law_average_of_equal_readings(v: Binary64, readings: Seq<Option<Binary64>>)
    requires
        v.is_finite(),
        v.value() > 0,
        0 < readings.len() < WIDTH,
        forall|i: int| 0 <= i < readings.len() ==> #[trigger] readings[i] == Some(v),
        sums_exactly(readings),
    ensures
        average_of(accumulated_all(unheard(), readings)) == Some(v),
{
    lemma_all_heard(v, readings);
    law_average_lies_among_its_readings(readings, v, v);
    let average = average_of(accumulated_all(unheard(), readings))->0;
    lemma_ordered_magnitudes(average, v);
    lemma_ordered_magnitudes(v, v);
}

proof fn lemma_all_heard(v: Binary64, readings: Seq<Option<Binary64>>)
    requires
        above_zero(v),
        forall|i: int| 0 <= i < readings.len() ==> #[trigger] readings[i] == Some(v),
    ensures
        heard_count(readings) == readings.len(),
    decreases readings.len(),
{
    if readings.len() > 0 {
        let rest = readings.drop_last();
        assert forall|i: int| 0 <= i < rest.len() implies #[trigger] rest[i] == Some(v) by {
            assert(rest[i] == readings[i]);
        }
        lemma_all_heard(v, rest);
        assert(readings.last() == readings[readings.len() - 1]);
    }
}

/// `live_acceptance` gives the rate of the window and what the next scrape is
/// compared with: both counters, whether they went backwards or not.
pub proof fn law_live_acceptance_is_of_the_window(
    accepted: Option<Binary64>,
    draft: Option<Binary64>,
    previous: Option<Snapshot>,
    r: (Option<Binary64>, Option<Snapshot>),
)
    requires
        call_ensures(live_acceptance, (accepted, draft, previous), r),
    ensures
        match (accepted, draft) {
            (Some(a), Some(d)) => {
                &&& r.1 == Some((a, d))
                &&& match previous {
                    Some(before) => if not_below(a, before.0) && not_below(d, before.1) {
                        is_rate_of_the_window((a, d), before, r.0)
                    } else {
                        r.0 is None
                    },
                    None => r.0 is None,
                }
            },
            _ => r.0 is None && r.1 is None,
        },
{
    if let (Some(a), Some(d)) = (accepted, draft) {
        if let Some(p) = previous {
            law_comparisons_are_by_value(a, p.0);
            law_comparisons_are_by_value(d, p.1);
            law_difference_is_nearest(a, p.0);
            law_difference_is_nearest(d, p.1);
            let x = difference(a, p.0);
            let y = difference(d, p.1);
            lemma_acceptance(Some(x), Some(y));
            assert(is_difference(a, p.0, x) && is_difference(d, p.1, y));
        }
    }
}

/// `spec_acceptance_rate` gives the accepted share, and
/// `spec_mean_acceptance_length` the accepted tokens by the attempts.
pub proof fn law_acceptance_is_a_share(
    accepted: Option<Binary64>,
    of: Option<Binary64>,
    rate: Option<Binary64>,
    length: Option<Binary64>,
)
    requires
        call_ensures(spec_acceptance_rate, (accepted, of), rate),
        call_ensures(spec_mean_acceptance_length, (accepted, of), length),
    ensures
        is_share(accepted, of, rate),
        length is Some <==> accepted is Some && of is Some && above_zero(of->0),
        length is Some ==> is_quotient(accepted->0, of->0, length->0),
{
    lemma_acceptance(accepted, of);
    if let (Some(a), Some(d)) = (accepted, of) {
        law_comparisons_are_by_value(d, d);
        law_quotient_is_nearest(a, d);
    }
}

} // verus!
