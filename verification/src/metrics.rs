//! Mapping of one metrics scrape onto the shared metrics contract.
//!
//! The engine reports no per-request histograms and no total-request counter,
//! so every field that derives from those stays blank. Throughput over the
//! window between two scrapes is a gauge that the engine averages itself; the
//! time per generated token is the ratio of two lifetime counters.
use vstd::prelude::*;

use crate::binary64::{difference, product, quotient, sum, whole, Binary64};
use crate::positions::{accepted_per_position, is_distribution, is_reported, positions_fit};
use crate::samples::{lookup, ParsedMetrics, SampleMap};

verus! {

/// Cumulative prompt tokens processed (excluding cached tokens).
pub const PROMPT_TOKENS_TOTAL: &'static str = "llamacpp_prompt_tokens_total";

/// Cumulative prompt tokens reused from the prompt cache.
pub const PROMPT_TOKENS_CACHED_TOTAL: &'static str = "llamacpp_prompt_tokens_cached_total";

/// Cumulative seconds spent on prompt processing (prefill).
pub const PROMPT_SECONDS_TOTAL: &'static str = "llamacpp_prompt_seconds_total";

/// Cumulative tokens generated (decoded).
pub const TOKENS_PREDICTED_TOTAL: &'static str = "llamacpp_tokens_predicted_total";

/// Cumulative seconds spent on token generation (decode).
pub const TOKENS_PREDICTED_SECONDS_TOTAL: &'static str = "llamacpp_tokens_predicted_seconds_total";

/// Gauge: average prompt throughput over the window between two scrapes.
pub const PROMPT_TOKENS_SECONDS: &'static str = "llamacpp_prompt_tokens_seconds";

/// Gauge: average generation throughput over the window between two scrapes.
pub const PREDICTED_TOKENS_SECONDS: &'static str = "llamacpp_predicted_tokens_seconds";

/// Gauge: requests currently being processed.
pub const REQUESTS_PROCESSING: &'static str = "llamacpp_requests_processing";

/// Gauge: requests deferred (queued) waiting for a slot.
pub const REQUESTS_DEFERRED: &'static str = "llamacpp_requests_deferred";

/// Gauge: average number of busy slots per decode call, the engine's
/// batch-size proxy.
pub const N_BUSY_SLOTS_PER_DECODE: &'static str = "llamacpp_n_busy_slots_per_decode";

/// Gauge (older releases): KV cache usage ratio in [0, 1].
pub const KV_CACHE_USAGE_RATIO: &'static str = "llamacpp_kv_cache_usage_ratio";

/// Cumulative speculatively-drafted tokens.
pub const SPEC_DECODE_DRAFT_TOKENS_TOTAL: &'static str =
    "llamacpp_spec_decode_num_draft_tokens_total";

/// Cumulative draft tokens that passed verification.
pub const SPEC_DECODE_ACCEPTED_TOKENS_TOTAL: &'static str =
    "llamacpp_spec_decode_num_accepted_tokens_total";

/// Cumulative speculative-decoding draft attempts.
pub const SPEC_DECODE_DRAFTS_TOTAL: &'static str = "llamacpp_spec_decode_num_drafts_total";

/// Cumulative number of llama_decode() calls.
pub const N_DECODE_TOTAL: &'static str = "llamacpp_n_decode_total";

/// Largest observed sequence length (prompt + generation).
pub const N_TOKENS_MAX: &'static str = "llamacpp_n_tokens_max";

/// Percentiles of a per-request latency histogram. This engine has no such
/// histogram, so there is nothing to hold.
#[derive(Debug)]
pub struct Percentiles {}

/// Buckets of a per-request latency histogram. This engine has no such
/// histogram, so there is nothing to hold.
#[derive(Debug)]
pub struct Buckets {}

/// What an engine reports about itself; blank where it does not.
#[derive(Debug)]
pub struct EngineMetrics {
    pub tokens_per_sec: Option<Binary64>,
    pub avg_tokens_per_sec: Option<Binary64>,
    pub per_request_tps: Option<Binary64>,
    pub ttft_ms: Option<Binary64>,
    pub active_requests: Option<u64>,
    pub queued_requests: Option<u64>,
    pub kv_cache_percent: Option<Binary64>,
    pub kv_cache_is_estimated: bool,
    pub total_requests: Option<u64>,
    pub e2e_latency_ms: Option<Binary64>,
    pub prompt_tokens_per_sec: Option<Binary64>,
    pub avg_prompt_tokens_per_sec: Option<Binary64>,
    pub per_request_prompt_tps: Option<Binary64>,
    pub swapped_requests: Option<u64>,
    pub prefix_cache_hit_rate: Option<Binary64>,
    pub queue_time_ms: Option<Binary64>,
    pub inter_token_latency_ms: Option<Binary64>,
    pub preemptions_total: Option<u64>,
    pub total_prompt_tokens: Option<u64>,
    pub total_generation_tokens: Option<u64>,
    pub prefix_cache_queries_total: Option<u64>,
    pub avg_batch_size: Option<Binary64>,
    pub ttft_percentiles: Option<Percentiles>,
    pub itl_percentiles: Option<Percentiles>,
    pub e2e_percentiles: Option<Percentiles>,
    pub ttft_goodput_pct: Option<Binary64>,
    pub itl_goodput_pct: Option<Binary64>,
    pub e2e_goodput_pct: Option<Binary64>,
    pub ttft_buckets: Option<Buckets>,
    pub itl_buckets: Option<Buckets>,
    pub e2e_buckets: Option<Buckets>,
    pub tpot_ms: Option<Binary64>,
    pub tpot_percentiles: Option<Percentiles>,
    pub tpot_goodput_pct: Option<Binary64>,
    pub tpot_buckets: Option<Buckets>,
    pub spec_decode_draft_tokens_total: Option<u64>,
    pub spec_decode_accepted_tokens_total: Option<u64>,
    pub spec_decode_drafts_total: Option<u64>,
    pub spec_decode_acceptance_rate: Option<Binary64>,
    pub spec_decode_acceptance_rate_live: Option<Binary64>,
    pub spec_decode_mean_acceptance_length: Option<Binary64>,
    pub spec_decode_accepted_tokens_per_pos: Option<Vec<u64>>,
    pub total_decode_calls: Option<u64>,
    pub max_sequence_tokens: Option<u64>,
    pub warming_up: bool,
}

/// A running average: the sum of the positive readings, and how many.
pub type Average = (Binary64, u64);

/// The accepted and the drafted tokens at a scrape.
pub type Snapshot = (Binary64, Binary64);

/// The counter with this name.
pub open spec fn counter(parsed: &ParsedMetrics, name: Seq<char>) -> Option<Binary64> {
    lookup(parsed.counters@, name)
}

/// The gauge with this name.
pub open spec fn gauge(parsed: &ParsedMetrics, name: Seq<char>) -> Option<Binary64> {
    lookup(parsed.gauges@, name)
}

/// A reading as a count: its whole part, and zero for what is below zero.
pub open spec fn counted(reading: Option<Binary64>) -> Option<u64> {
    match reading {
        Some(v) => Some(v.count()),
        None => None,
    }
}

/// `part / total` in percent.
pub open spec fn percentage(part: Binary64, total: Binary64) -> Binary64 {
    product(quotient(part, total), whole(100))
}

/// `top / bottom`, where both are known and positive.
pub open spec fn positive_ratio(top: Option<Binary64>, bottom: Option<Binary64>) -> Option<
    Binary64,
> {
    match (top, bottom) {
        (Some(a), Some(b)) if a.is_positive() && b.is_positive() => Some(quotient(a, b)),
        _ => None,
    }
}

/// A ratio of seconds, in milliseconds.
pub open spec fn in_milliseconds(seconds: Option<Binary64>) -> Option<Binary64> {
    match seconds {
        Some(v) => Some(product(v, whole(1000))),
        None => None,
    }
}

/// The share of drafted tokens that was accepted, in percent, where
/// something was drafted.
pub open spec fn acceptance_rate(accepted: Option<Binary64>, draft: Option<Binary64>) -> Option<
    Binary64,
> {
    match (accepted, draft) {
        (Some(a), Some(d)) if d.is_positive() => Some(percentage(a, d)),
        _ => None,
    }
}

/// The accepted tokens per draft attempt, where there was one.
pub open spec fn mean_acceptance_length(
    accepted: Option<Binary64>,
    drafts: Option<Binary64>,
) -> Option<Binary64> {
    match (accepted, drafts) {
        (Some(a), Some(d)) if d.is_positive() => Some(quotient(a, d)),
        _ => None,
    }
}

/// The snapshot that a scrape leaves: nothing where a counter is missing.
pub open spec fn snapshot(accepted: Option<Binary64>, draft: Option<Binary64>) -> Option<Snapshot> {
    match (accepted, draft) {
        (Some(a), Some(d)) => Some((a, d)),
        _ => None,
    }
}

/// The acceptance rate since the previous snapshot, where there is one and
/// neither counter has gone backwards.
pub open spec fn live_rate(now: Option<Snapshot>, previous: Option<Snapshot>) -> Option<Binary64> {
    match (now, previous) {
        (Some((a, d)), Some((prev_a, prev_d))) if a.at_least(prev_a) && d.at_least(prev_d) => {
            acceptance_rate(Some(difference(a, prev_a)), Some(difference(d, prev_d)))
        },
        _ => None,
    }
}

/// Whether one more reading can be counted.
pub open spec fn can_accumulate(average: Average, reading: Option<Binary64>) -> bool {
    (reading matches Some(v) && v.is_positive()) ==> average.1 < u64::MAX
}

/// A running average after one more reading: only a positive one counts.
pub open spec fn accumulated(average: Average, reading: Option<Binary64>) -> Average {
    match reading {
        Some(v) if v.is_positive() => (sum(average.0, v), (average.1 + 1) as u64),
        _ => average,
    }
}

/// The average itself, once there is a reading.
pub open spec fn average_of(average: Average) -> Option<Binary64> {
    if average.1 > 0 {
        Some(quotient(average.0, whole(average.1)))
    } else {
        None
    }
}

/// The prompt tokens that were queried: those processed and those cached.
pub open spec fn queried_tokens(processed: Option<Binary64>, cached: Option<Binary64>) -> Option<
    Binary64,
> {
    match (processed, cached) {
        (Some(p), Some(c)) => Some(sum(p, c)),
        _ => None,
    }
}

/// The cached share of the queried tokens, in percent.
pub open spec fn hit_rate(processed: Option<Binary64>, cached: Option<Binary64>) -> Option<
    Binary64,
> {
    match (queried_tokens(processed, cached), cached) {
        (Some(q), Some(c)) if q.is_positive() => Some(percentage(c, q)),
        _ => None,
    }
}

/// A ratio held to [0, 1], in percent.
pub open spec fn usage_percent(ratio: Option<Binary64>) -> Option<Binary64> {
    match ratio {
        Some(v) => Some(product(v.ratio(), whole(100))),
        None => None,
    }
}

/// What a scrape says about throughput and timing.
pub open spec fn throughput_mapped(
    m: EngineMetrics,
    parsed: &ParsedMetrics,
    generation: Average,
    prompt: Average,
) -> bool {
    let speed = gauge(parsed, PREDICTED_TOKENS_SECONDS@);
    let prompt_speed = gauge(parsed, PROMPT_TOKENS_SECONDS@);
    let seconds = counter(parsed, TOKENS_PREDICTED_SECONDS_TOTAL@);
    let tokens = counter(parsed, TOKENS_PREDICTED_TOTAL@);
    &&& m.tokens_per_sec == speed
    &&& m.prompt_tokens_per_sec == prompt_speed
    &&& m.avg_tokens_per_sec == average_of(accumulated(generation, speed))
    &&& m.avg_prompt_tokens_per_sec == average_of(accumulated(prompt, prompt_speed))
    &&& m.tpot_ms == in_milliseconds(positive_ratio(seconds, tokens))
    &&& m.inter_token_latency_ms == m.tpot_ms
    &&& m.per_request_tps == positive_ratio(tokens, seconds)
    &&& m.per_request_prompt_tps == positive_ratio(
        counter(parsed, PROMPT_TOKENS_TOTAL@),
        counter(parsed, PROMPT_SECONDS_TOTAL@),
    )
}

/// What a scrape says about requests, slots and lifetime counts.
pub open spec fn state_mapped(m: EngineMetrics, parsed: &ParsedMetrics) -> bool {
    &&& m.active_requests == counted(gauge(parsed, REQUESTS_PROCESSING@))
    &&& m.queued_requests == counted(gauge(parsed, REQUESTS_DEFERRED@))
    &&& m.avg_batch_size == gauge(parsed, N_BUSY_SLOTS_PER_DECODE@)
    &&& m.total_prompt_tokens == counted(counter(parsed, PROMPT_TOKENS_TOTAL@))
    &&& m.total_generation_tokens == counted(counter(parsed, TOKENS_PREDICTED_TOTAL@))
    &&& m.total_decode_calls == counted(counter(parsed, N_DECODE_TOTAL@))
    &&& m.max_sequence_tokens == counted(counter(parsed, N_TOKENS_MAX@))
}

/// What a scrape says about the caches.
pub open spec fn caches_mapped(m: EngineMetrics, parsed: &ParsedMetrics) -> bool {
    let processed = counter(parsed, PROMPT_TOKENS_TOTAL@);
    let cached = counter(parsed, PROMPT_TOKENS_CACHED_TOTAL@);
    &&& m.prefix_cache_hit_rate == hit_rate(processed, cached)
    &&& m.prefix_cache_queries_total == counted(queried_tokens(processed, cached))
    &&& m.kv_cache_percent == usage_percent(gauge(parsed, KV_CACHE_USAGE_RATIO@))
    &&& !m.kv_cache_is_estimated
}

/// The snapshot of the speculative-decoding counters that a scrape holds.
pub open spec fn scraped_snapshot(parsed: &ParsedMetrics) -> Option<Snapshot> {
    snapshot(
        counter(parsed, SPEC_DECODE_ACCEPTED_TOKENS_TOTAL@),
        counter(parsed, SPEC_DECODE_DRAFT_TOKENS_TOTAL@),
    )
}

/// What a scrape says about speculative decoding.
pub open spec fn spec_decode_mapped(
    m: EngineMetrics,
    parsed: &ParsedMetrics,
    previous: Option<Snapshot>,
) -> bool {
    let draft = counter(parsed, SPEC_DECODE_DRAFT_TOKENS_TOTAL@);
    let accepted = counter(parsed, SPEC_DECODE_ACCEPTED_TOKENS_TOTAL@);
    let drafts = counter(parsed, SPEC_DECODE_DRAFTS_TOTAL@);
    &&& m.spec_decode_draft_tokens_total == counted(draft)
    &&& m.spec_decode_accepted_tokens_total == counted(accepted)
    &&& m.spec_decode_drafts_total == counted(drafts)
    &&& m.spec_decode_acceptance_rate == acceptance_rate(accepted, draft)
    &&& m.spec_decode_mean_acceptance_length == mean_acceptance_length(accepted, drafts)
    &&& m.spec_decode_acceptance_rate_live == live_rate(scraped_snapshot(parsed), previous)
    &&& match m.spec_decode_accepted_tokens_per_pos {
        Some(slots) => is_distribution(parsed.labeled_counters@, slots@),
        None => forall|position: int| !is_reported(parsed.labeled_counters@, position),
    }
}

/// The fields that this engine has no figures for.
pub open spec fn unreported_blank(m: EngineMetrics) -> bool {
    &&& m.ttft_ms is None
    &&& m.total_requests is None
    &&& m.e2e_latency_ms is None
    &&& m.swapped_requests is None
    &&& m.queue_time_ms is None
    &&& m.preemptions_total is None
    &&& m.ttft_percentiles is None
    &&& m.itl_percentiles is None
    &&& m.e2e_percentiles is None
    &&& m.tpot_percentiles is None
    &&& m.ttft_goodput_pct is None
    &&& m.itl_goodput_pct is None
    &&& m.e2e_goodput_pct is None
    &&& m.tpot_goodput_pct is None
    &&& m.ttft_buckets is None
    &&& m.itl_buckets is None
    &&& m.e2e_buckets is None
    &&& m.tpot_buckets is None
    &&& !m.warming_up
}

/// Whether `m` is what a scrape maps onto, given the previous snapshot and
/// the running averages before it.
pub open spec fn is_mapping(
    m: EngineMetrics,
    parsed: &ParsedMetrics,
    previous: Option<Snapshot>,
    generation: Average,
    prompt: Average,
) -> bool {
    &&& throughput_mapped(m, parsed, generation, prompt)
    &&& state_mapped(m, parsed)
    &&& caches_mapped(m, parsed)
    &&& spec_decode_mapped(m, parsed, previous)
    &&& unreported_blank(m)
}

/// Whether a scrape can be mapped: the positions that it reports can be held,
/// and the running averages can count one more reading.
pub open spec fn can_map(parsed: &ParsedMetrics, generation: Average, prompt: Average) -> bool {
    &&& positions_fit(parsed.labeled_counters@)
    &&& can_accumulate(generation, gauge(parsed, PREDICTED_TOKENS_SECONDS@))
    &&& can_accumulate(prompt, gauge(parsed, PROMPT_TOKENS_SECONDS@))
}

fn count_of(reading: Option<Binary64>) -> (r: Option<u64>)
    ensures
        r == counted(reading),
{
    match reading {
        Some(v) => Some(v.to_count()),
        None => None,
    }
}

/// `part / total` in percent.
fn percent(part: Binary64, total: Binary64) -> (r: Binary64)
    ensures
        r == percentage(part, total),
{
    part.over(total).times(Binary64::from_count(100))
}

fn ratio_of_positive(top: Option<Binary64>, bottom: Option<Binary64>) -> (r: Option<Binary64>)
    ensures
        r == positive_ratio(top, bottom),
{
    match (top, bottom) {
        (Some(a), Some(b)) => if a.exceeds_zero() && b.exceeds_zero() {
            Some(a.over(b))
        } else {
            None
        },
        _ => None,
    }
}

/// The share of drafted tokens that was accepted, in percent.
pub fn spec_acceptance_rate(accepted: Option<Binary64>, draft: Option<Binary64>) -> (r: Option<
    Binary64,
>)
    ensures
        r == acceptance_rate(accepted, draft),
{
    match (accepted, draft) {
        (Some(a), Some(d)) => if d.exceeds_zero() {
            Some(percent(a, d))
        } else {
            None
        },
        _ => None,
    }
}

/// The accepted tokens per draft attempt.
pub fn spec_mean_acceptance_length(accepted: Option<Binary64>, drafts: Option<Binary64>) -> (r:
    Option<Binary64>)
    ensures
        r == mean_acceptance_length(accepted, drafts),
{
    match (accepted, drafts) {
        (Some(a), Some(d)) => if d.exceeds_zero() {
            Some(a.over(d))
        } else {
            None
        },
        _ => None,
    }
}

/// The acceptance rate since the previous scrape, and the snapshot for the
/// next one. A missing or backwards counter (engine restart) discards the
/// previous snapshot rather than diffing against a stale value.
pub fn live_acceptance(
    accepted: Option<Binary64>,
    draft: Option<Binary64>,
    previous: Option<Snapshot>,
) -> (r: (Option<Binary64>, Option<Snapshot>))
    ensures
        r.0 == live_rate(snapshot(accepted, draft), previous),
        r.1 == snapshot(accepted, draft),
{
    match (accepted, draft) {
        (Some(a), Some(d)) => {
            let live: Option<Binary64> = match previous {
                Some((prev_a, prev_d)) => if a.reaches(prev_a) && d.reaches(prev_d) {
                    spec_acceptance_rate(Some(a.minus(prev_a)), Some(d.minus(prev_d)))
                } else {
                    None
                },
                None => None,
            };
            (live, Some((a, d)))
        },
        _ => (None, None),
    }
}

/// Adds a reading to a running average of positive readings, and gives the
/// average. It stays stable while the engine idles.
pub fn push_average(average: &mut Average, reading: Option<Binary64>) -> (r: Option<Binary64>)
    requires
        can_accumulate(*old(average), reading),
    ensures
        *final(average) == accumulated(*old(average), reading),
        r == average_of(*final(average)),
{
    if let Some(v) = reading {
        if v.exceeds_zero() {
            *average = (average.0.plus(v), average.1 + 1);
        }
    }
    if average.1 > 0 {
        Some(average.0.over(Binary64::from_count(average.1)))
    } else {
        None
    }
}

/// Whether a scrape can be mapped.
pub fn scrape_fits(parsed: &ParsedMetrics, generation: &Average, prompt: &Average) -> (r: bool)
    ensures
        r == can_map(parsed, *generation, *prompt),
{
    let generation_fits: bool = match parsed.gauges.get(PREDICTED_TOKENS_SECONDS) {
        Some(v) => !v.exceeds_zero() || generation.1 < u64::MAX,
        None => true,
    };
    let prompt_fits: bool = match parsed.gauges.get(PROMPT_TOKENS_SECONDS) {
        Some(v) => !v.exceeds_zero() || prompt.1 < u64::MAX,
        None => true,
    };
    generation_fits && prompt_fits && crate::positions::can_hold_positions(
        &parsed.labeled_counters,
    )
}

/// Maps one parsed `/metrics` scrape onto the shared metrics contract.
///
/// The previous spec-decode counter reading and the two throughput
/// accumulators are passed in and returned.
pub fn map_metrics(
    parsed: &ParsedMetrics,
    prev_spec_decode: Option<Snapshot>,
    avg_generation: &mut Average,
    avg_prompt: &mut Average,
) -> (r: (EngineMetrics, Option<Snapshot>))
    requires
        can_map(parsed, *old(avg_generation), *old(avg_prompt)),
    ensures
        is_mapping(r.0, parsed, prev_spec_decode, *old(avg_generation), *old(avg_prompt)),
        r.1 == scraped_snapshot(parsed),
        *final(avg_generation) == accumulated(
            *old(avg_generation),
            gauge(parsed, PREDICTED_TOKENS_SECONDS@),
        ),
        *final(avg_prompt) == accumulated(
            *old(avg_prompt),
            gauge(parsed, PROMPT_TOKENS_SECONDS@),
        ),
{
    let counters: &SampleMap = &parsed.counters;
    let gauges: &SampleMap = &parsed.gauges;

    let prompt_total: Option<Binary64> = counters.get(PROMPT_TOKENS_TOTAL);
    let prompt_cached: Option<Binary64> = counters.get(PROMPT_TOKENS_CACHED_TOTAL);
    let prompt_seconds: Option<Binary64> = counters.get(PROMPT_SECONDS_TOTAL);
    let generation_total: Option<Binary64> = counters.get(TOKENS_PREDICTED_TOTAL);
    let generation_seconds: Option<Binary64> = counters.get(TOKENS_PREDICTED_SECONDS_TOTAL);

    // The engine averages its own throughput over the window between two
    // scrapes; those gauges are the instantaneous rates.
    let tokens_per_sec: Option<Binary64> = gauges.get(PREDICTED_TOKENS_SECONDS);
    let prompt_tokens_per_sec: Option<Binary64> = gauges.get(PROMPT_TOKENS_SECONDS);
    let avg_tokens_per_sec: Option<Binary64> = push_average(avg_generation, tokens_per_sec);
    let avg_prompt_tokens_per_sec: Option<Binary64> = push_average(
        avg_prompt,
        prompt_tokens_per_sec,
    );

    // Lifetime decode time per generated token. It serves both the TPOT tile
    // and the inter-token gap tile: the engine reports one decode timing, and
    // that is what both mean here.
    let tpot_ms: Option<Binary64> = match ratio_of_positive(generation_seconds, generation_total) {
        Some(v) => Some(v.times(Binary64::from_count(1000))),
        None => None,
    };
    let per_request_tps: Option<Binary64> = ratio_of_positive(generation_total, generation_seconds);
    let per_request_prompt_tps: Option<Binary64> = ratio_of_positive(prompt_total, prompt_seconds);

    // The counter of prompt tokens leaves the cached ones out, so the tokens
    // queried are the sum, and the hit rate is the cached share of that sum.
    let (prefix_cache_hit_rate, prefix_cache_queries_total): (Option<Binary64>, Option<u64>) =
        match (prompt_total, prompt_cached) {
        (Some(processed), Some(cached)) => {
            let queried: Binary64 = processed.plus(cached);
            let rate: Option<Binary64> = if queried.exceeds_zero() {
                Some(percent(cached, queried))
            } else {
                None
            };
            (rate, Some(queried.to_count()))
        },
        _ => (None, None),
    };

    let spec_draft: Option<Binary64> = counters.get(SPEC_DECODE_DRAFT_TOKENS_TOTAL);
    let spec_accepted: Option<Binary64> = counters.get(SPEC_DECODE_ACCEPTED_TOKENS_TOTAL);
    let spec_drafts: Option<Binary64> = counters.get(SPEC_DECODE_DRAFTS_TOTAL);
    let (spec_decode_acceptance_rate_live, next_prev_spec_decode): (
        Option<Binary64>,
        Option<Snapshot>,
    ) = live_acceptance(spec_accepted, spec_draft, prev_spec_decode);

    let kv_cache_percent: Option<Binary64> = match gauges.get(KV_CACHE_USAGE_RATIO) {
        Some(ratio) => Some(ratio.to_ratio().times(Binary64::from_count(100))),
        None => None,
    };

    let metrics = EngineMetrics {
        tokens_per_sec,
        avg_tokens_per_sec,
        per_request_tps,
        ttft_ms: None,
        active_requests: count_of(gauges.get(REQUESTS_PROCESSING)),
        queued_requests: count_of(gauges.get(REQUESTS_DEFERRED)),
        kv_cache_percent,
        // The ratio is the engine's own measurement, not an estimate.
        kv_cache_is_estimated: false,
        total_requests: None,
        e2e_latency_ms: None,
        prompt_tokens_per_sec,
        avg_prompt_tokens_per_sec,
        per_request_prompt_tps,
        swapped_requests: None,
        prefix_cache_hit_rate,
        queue_time_ms: None,
        inter_token_latency_ms: tpot_ms,
        preemptions_total: None,
        total_prompt_tokens: count_of(prompt_total),
        total_generation_tokens: count_of(generation_total),
        prefix_cache_queries_total,
        avg_batch_size: gauges.get(N_BUSY_SLOTS_PER_DECODE),
        ttft_percentiles: None,
        itl_percentiles: None,
        e2e_percentiles: None,
        ttft_goodput_pct: None,
        itl_goodput_pct: None,
        e2e_goodput_pct: None,
        ttft_buckets: None,
        itl_buckets: None,
        e2e_buckets: None,
        tpot_ms,
        tpot_percentiles: None,
        tpot_goodput_pct: None,
        tpot_buckets: None,
        spec_decode_draft_tokens_total: count_of(spec_draft),
        spec_decode_accepted_tokens_total: count_of(spec_accepted),
        spec_decode_drafts_total: count_of(spec_drafts),
        spec_decode_acceptance_rate: spec_acceptance_rate(spec_accepted, spec_draft),
        spec_decode_acceptance_rate_live,
        spec_decode_mean_acceptance_length: spec_mean_acceptance_length(
            spec_accepted,
            spec_drafts,
        ),
        spec_decode_accepted_tokens_per_pos: accepted_per_position(&parsed.labeled_counters),
        total_decode_calls: count_of(counters.get(N_DECODE_TOTAL)),
        max_sequence_tokens: count_of(counters.get(N_TOKENS_MAX)),
        warming_up: false,
    };
    (metrics, next_prev_spec_decode)
}

} // verus!
