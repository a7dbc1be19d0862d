use llama_adapter::binary64::Binary64;
use llama_adapter::exposition::exposition_text;
use llama_adapter::metrics::{
    live_acceptance, map_metrics, push_average, scrape_fits, spec_acceptance_rate,
    spec_mean_acceptance_length, EngineMetrics, PREDICTED_TOKENS_SECONDS, PROMPT_TOKENS_SECONDS,
    SPEC_DECODE_ACCEPTED_TOKENS_TOTAL, SPEC_DECODE_DRAFT_TOKENS_TOTAL,
};
use llama_adapter::samples::ParsedMetrics;
use prometheus_parse::{Scrape, Value};

/// A current-release (master) metrics body: the cumulative counters, the
/// engine's own windowed throughput gauges, the request/slot gauges, the
/// prompt-cache counter, and the speculative-decoding triple.
const FULL_BODY: &str = "\
# HELP llamacpp:prompt_tokens_total Total prompt processing tokens (excluding cached tokens).
# TYPE llamacpp:prompt_tokens_total counter
llamacpp:prompt_tokens_total 12345
# HELP llamacpp:prompt_tokens_cached_total Total prompt processing tokens (cached tokens).
# TYPE llamacpp:prompt_tokens_cached_total counter
llamacpp:prompt_tokens_cached_total 678
# HELP llamacpp:prompt_seconds_total Total time spent on prompt processing.
# TYPE llamacpp:prompt_seconds_total counter
llamacpp:prompt_seconds_total 12.345
# HELP llamacpp:tokens_predicted_total Total predicted tokens.
# TYPE llamacpp:tokens_predicted_total counter
llamacpp:tokens_predicted_total 987
# HELP llamacpp:tokens_predicted_seconds_total Total time spent on token generation.
# TYPE llamacpp:tokens_predicted_seconds_total counter
llamacpp:tokens_predicted_seconds_total 9.87
# HELP llamacpp:prompt_tokens_seconds Average prompt throughput between two scrapes.
# TYPE llamacpp:prompt_tokens_seconds gauge
llamacpp:prompt_tokens_seconds 50
# HELP llamacpp:predicted_tokens_seconds Average generation throughput between two scrapes.
# TYPE llamacpp:predicted_tokens_seconds gauge
llamacpp:predicted_tokens_seconds 25
# HELP llamacpp:requests_processing Total active requests.
# TYPE llamacpp:requests_processing gauge
llamacpp:requests_processing 3
# HELP llamacpp:requests_deferred Total deferred requests.
# TYPE llamacpp:requests_deferred gauge
llamacpp:requests_deferred 1
# HELP llamacpp:n_busy_slots_per_decode Average number of busy slots per decode.
# TYPE llamacpp:n_busy_slots_per_decode gauge
llamacpp:n_busy_slots_per_decode 2
# HELP llamacpp:spec_decode_num_draft_tokens_total Total speculative draft tokens generated.
# TYPE llamacpp:spec_decode_num_draft_tokens_total counter
llamacpp:spec_decode_num_draft_tokens_total 1000
# HELP llamacpp:spec_decode_num_accepted_tokens_total Total speculative draft tokens accepted.
# TYPE llamacpp:spec_decode_num_accepted_tokens_total counter
llamacpp:spec_decode_num_accepted_tokens_total 800
# HELP llamacpp:spec_decode_num_drafts_total Total speculative decoding drafts.
# TYPE llamacpp:spec_decode_num_drafts_total counter
llamacpp:spec_decode_num_drafts_total 200
# HELP llamacpp:n_decode_total Total number of llama_decode() calls.
# TYPE llamacpp:n_decode_total counter
llamacpp:n_decode_total 543
# HELP llamacpp:n_tokens_max Largest observed sequence length (prompt + generation).
# TYPE llamacpp:n_tokens_max counter
llamacpp:n_tokens_max 2048
# HELP llamacpp:spec_decode_num_accepted_tokens_per_pos_total Accepted tokens per draft position.
# TYPE llamacpp:spec_decode_num_accepted_tokens_per_pos_total counter
llamacpp:spec_decode_num_accepted_tokens_per_pos_total{position=\"0\"} 800
llamacpp:spec_decode_num_accepted_tokens_per_pos_total{position=\"1\"} 400
llamacpp:spec_decode_num_accepted_tokens_per_pos_total{position=\"2\"} 120
";
fn b(x: f64) -> Binary64 {
    Binary64::from_bits(x.to_bits())
}

fn f(x: Option<Binary64>) -> Option<f64> {
    x.map(|v| f64::from_bits(v.to_bits()))
}

fn pair(x: Option<(Binary64, Binary64)>) -> Option<(f64, f64)> {
    x.map(|(p, q)| (f64::from_bits(p.to_bits()), f64::from_bits(q.to_bits())))
}

fn zero() -> (Binary64, u64) {
    (b(0.0), 0)
}

fn parse(body: &str) -> ParsedMetrics {
    let text = exposition_text(body).expect("exposition text");
    let scrape = Scrape::parse(text.lines().map(|line| Ok(line.to_string()))).expect("parse");
    let mut parsed = ParsedMetrics::new();
    for sample in scrape.samples {
        match sample.value {
            Value::Counter(v) if sample.labels.is_empty() => {
                parsed.counters.insert(sample.metric, b(v));
            }
            Value::Counter(v) => {
                let key = format!("{}{{{}}}", sample.metric, sample.labels);
                parsed.labeled_counters.insert(key, b(v));
            }
            Value::Gauge(v) => {
                parsed.gauges.insert(sample.metric, b(v));
            }
            _ => {}
        }
    }
    parsed
}

fn map(parsed: &ParsedMetrics, prev: Option<(f64, f64)>) -> (EngineMetrics, Option<(f64, f64)>) {
    let prev = prev.map(|(p, q)| (b(p), b(q)));
    assert!(scrape_fits(parsed, &zero(), &zero()));
    let (m, next) = map_metrics(parsed, prev, &mut zero(), &mut zero());
    (m, pair(next))
}

#[test]
fn full_body_maps_every_field_llama_reports() {
    let (m, next) = map(&parse(FULL_BODY), None);

    // Raw lifetime counters.
    assert_eq!(m.total_prompt_tokens, Some(12345));
    assert_eq!(m.total_generation_tokens, Some(987));

    // Engine-provided windowed throughput, plus the running average of
    // the first positive reading.
    assert_eq!(f(m.tokens_per_sec), Some(25.0));
    assert_eq!(f(m.prompt_tokens_per_sec), Some(50.0));
    assert_eq!(f(m.avg_tokens_per_sec), Some(25.0));
    assert_eq!(f(m.avg_prompt_tokens_per_sec), Some(50.0));

    // Request/slot state.
    assert_eq!(m.active_requests, Some(3));
    assert_eq!(m.queued_requests, Some(1));
    assert_eq!(f(m.avg_batch_size), Some(2.0));

    // Lifetime decode-time derivations: 9.87s / 987 tokens = 10 ms/token,
    // 100 tokens/s; prefill 12345 / 12.345s = 1000 tokens/s.
    let close = |a: Option<Binary64>, b: f64| f(a).is_some_and(|v| (v - b).abs() < 1e-9);
    assert!(close(m.tpot_ms, 10.0));
    assert!(close(m.inter_token_latency_ms, 10.0));
    assert!(close(m.per_request_tps, 100.0));
    assert!(close(m.per_request_prompt_tps, 1000.0));

    // Prompt cache: 678 cached of 12345 + 678 queried.
    assert_eq!(m.prefix_cache_queries_total, Some(13023));
    assert!(
        (f(m.prefix_cache_hit_rate).unwrap() - 678.0 / 13023.0 * 100.0).abs() < 1e-9,
        "hit rate = 678/13023*100, got {:?}",
        m.prefix_cache_hit_rate
    );

    // Speculative decoding: lifetime 800/1000 = 80%, mean length 4.0.
    assert_eq!(m.spec_decode_draft_tokens_total, Some(1000));
    assert_eq!(m.spec_decode_accepted_tokens_total, Some(800));
    assert_eq!(m.spec_decode_drafts_total, Some(200));
    assert_eq!(f(m.spec_decode_acceptance_rate), Some(80.0));
    assert_eq!(
        f(m.spec_decode_acceptance_rate_live), None,
        "no previous reading yet"
    );
    assert_eq!(f(m.spec_decode_mean_acceptance_length), Some(4.0));
    assert_eq!(next, Some((800.0, 1000.0)));

    // Decode-call counter, largest observed sequence length, and the
    // per-draft-position accepted-token distribution (indexed by
    // position).
    assert_eq!(m.total_decode_calls, Some(543));
    assert_eq!(m.max_sequence_tokens, Some(2048));
    assert_eq!(
        m.spec_decode_accepted_tokens_per_pos.as_deref(),
        Some([800, 400, 120].as_slice())
    );

    // No warmup machinery applies: there are no per-request histograms to
    // screen.
    assert!(!m.warming_up);
}

#[test]
fn fields_without_a_llama_cpp_equivalent_stay_blank() {
    let (m, _) = map(&parse(FULL_BODY), None);

    assert_eq!(m.ttft_ms, None);
    assert_eq!(m.total_requests, None);
    assert_eq!(m.e2e_latency_ms, None);
    // The percentile/bucket types carry no PartialEq, so absence is
    // asserted on the Option itself.
    assert!(m.e2e_percentiles.is_none());
    assert!(m.e2e_buckets.is_none());
    assert!(m.ttft_percentiles.is_none());
    assert!(m.ttft_buckets.is_none());
    assert!(m.itl_percentiles.is_none());
    assert!(m.itl_buckets.is_none());
    assert!(m.tpot_percentiles.is_none());
    assert!(m.tpot_buckets.is_none());
    assert_eq!(m.ttft_goodput_pct, None);
    assert_eq!(m.itl_goodput_pct, None);
    assert_eq!(m.e2e_goodput_pct, None);
    assert_eq!(m.tpot_goodput_pct, None);
    assert_eq!(
        m.kv_cache_percent, None,
        "master no longer reports the usage ratio"
    );
    assert!(!m.kv_cache_is_estimated);
    assert_eq!(m.swapped_requests, None);
    assert_eq!(m.queue_time_ms, None);
    assert_eq!(m.preemptions_total, None);
}

#[test]
fn kv_cache_usage_ratio_maps_to_percent_when_present() {
    // Older releases expose the ratio as a gauge in [0, 1].
    let (m, _) = map(
        &parse(
            "
# HELP llamacpp:kv_cache_usage_ratio KV cache usage ratio.
# TYPE llamacpp:kv_cache_usage_ratio gauge
llamacpp:kv_cache_usage_ratio 0.42
",
        ),
        None,
    );
    assert_eq!(f(m.kv_cache_percent), Some(42.0));
    assert!(
        !m.kv_cache_is_estimated,
        "the engine-reported ratio is a measurement, not an estimate"
    );
}

#[test]
fn prefix_cache_fields_stay_blank_without_the_cached_counter() {
    // Releases before the cached-token counter existed.
    let (m, _) = map(
        &parse(
            "
# HELP llamacpp:prompt_tokens_total Total prompt processing tokens.
# TYPE llamacpp:prompt_tokens_total counter
llamacpp:prompt_tokens_total 100
",
        ),
        None,
    );
    assert_eq!(m.prefix_cache_hit_rate, None);
    assert_eq!(m.prefix_cache_queries_total, None);
}

#[test]
fn per_position_acceptance_stays_blank_without_the_labeled_counter() {
    // Releases without the per-position counter, and scrapes where
    // speculative decoding never ran, must leave the vector absent.
    let (m, _) = map(
        &parse(
            "
# HELP llamacpp:tokens_predicted_total Total predicted tokens.
# TYPE llamacpp:tokens_predicted_total counter
llamacpp:tokens_predicted_total 42
",
        ),
        None,
    );
    assert!(m.spec_decode_accepted_tokens_per_pos.is_none());
    assert_eq!(m.total_decode_calls, None);
    assert_eq!(m.max_sequence_tokens, None);
}

#[test]
fn decode_time_derivation_guards_zero_and_missing_denominators() {
    let body = "
# HELP llamacpp:tokens_predicted_seconds_total Total time spent on token generation.
# TYPE llamacpp:tokens_predicted_seconds_total counter
llamacpp:tokens_predicted_seconds_total 0
# HELP llamacpp:tokens_predicted_total Total predicted tokens.
# TYPE llamacpp:tokens_predicted_total counter
llamacpp:tokens_predicted_total 0
";
    let (m, _) = map(&parse(body), None);
    assert_eq!(m.tpot_ms, None);
    assert_eq!(m.inter_token_latency_ms, None);
    assert_eq!(m.per_request_tps, None);
    assert_eq!(m.total_generation_tokens, Some(0));
}

#[test]
fn live_spec_decode_rate_comes_from_the_per_poll_delta() {
    let mut parsed = parse(FULL_BODY);
    // The second scrape: 1100 drafted, 850 accepted so far.
    parsed
        .counters
        .insert(SPEC_DECODE_DRAFT_TOKENS_TOTAL.to_string(), b(1100.0));
    parsed
        .counters
        .insert(SPEC_DECODE_ACCEPTED_TOKENS_TOTAL.to_string(), b(850.0));

    let (m, next) = map(&parsed, Some((800.0, 1000.0)));
    // (850 - 800) / (1100 - 1000) = 50%.
    assert_eq!(f(m.spec_decode_acceptance_rate_live), Some(50.0));
    assert_eq!(next, Some((850.0, 1100.0)));
}

#[test]
fn backwards_spec_decode_counters_discard_the_snapshot() {
    // An engine restart resets counters; diffing against the stale
    // snapshot would negate the rate.
    let mut parsed = parse(FULL_BODY);
    parsed
        .counters
        .insert(SPEC_DECODE_DRAFT_TOKENS_TOTAL.to_string(), b(50.0));
    parsed
        .counters
        .insert(SPEC_DECODE_ACCEPTED_TOKENS_TOTAL.to_string(), b(40.0));

    let (m, next) = map(&parsed, Some((800.0, 1000.0)));
    assert_eq!(m.spec_decode_acceptance_rate_live, None);
    assert_eq!(next, Some((40.0, 50.0)), "fresh snapshot recorded");
}

#[test]
fn avg_accumulator_keeps_running_average_across_scrapes() {
    // First scrape: 25 tok/s. Second: idle (0), third: 75 tok/s.
    let mut gen_accum = zero();
    let mut prompt_accum = zero();
    let before = |p: f64, q: f64| Some((b(p), b(q)));

    let m1 = map_metrics(&parse(FULL_BODY), None, &mut gen_accum, &mut prompt_accum);
    assert_eq!(f(m1.0.avg_tokens_per_sec), Some(25.0));

    let mut idle = parse(FULL_BODY);
    idle.gauges
        .insert(PREDICTED_TOKENS_SECONDS.to_string(), b(0.0));
    idle.gauges.insert(PROMPT_TOKENS_SECONDS.to_string(), b(0.0));
    let m2 = map_metrics(
        &idle,
        before(800.0, 1000.0),
        &mut gen_accum,
        &mut prompt_accum,
    );
    assert_eq!(f(m2.0.tokens_per_sec), Some(0.0));
    assert_eq!(
        f(m2.0.avg_tokens_per_sec),
        Some(25.0),
        "idle reading does not accumulate"
    );

    let mut busy = parse(FULL_BODY);
    busy.gauges
        .insert(PREDICTED_TOKENS_SECONDS.to_string(), b(75.0));
    let m3 = map_metrics(
        &busy,
        before(850.0, 1100.0),
        &mut gen_accum,
        &mut prompt_accum,
    );
    assert_eq!(f(m3.0.avg_tokens_per_sec), Some(50.0), "(25 + 75) / 2");
}

#[test]
fn empty_body_maps_to_all_blank_metrics() {
    let (m, next) = map(&parse(""), None);
    assert_eq!(m.tokens_per_sec, None);
    assert_eq!(m.total_prompt_tokens, None);
    assert_eq!(m.active_requests, None);
    assert_eq!(next, None);
}

fn labeled(entries: &[(&str, f64)]) -> ParsedMetrics {
    let mut parsed = ParsedMetrics::new();
    for (labels, value) in entries {
        let key = format!(
            "llamacpp_spec_decode_num_accepted_tokens_per_pos_total{}",
            labels
        );
        parsed.labeled_counters.insert(key, b(*value));
    }
    parsed
}

#[test]
fn gaps_between_positions_are_zero() {
    let (m, _) = map(
        &labeled(&[("{position=\"4\"}", 7.9), ("{position=\"1\"}", -3.0), ("{position=0}", 5.0)]),
        None,
    );
    assert_eq!(m.spec_decode_accepted_tokens_per_pos, Some(vec![5, 0, 0, 0, 7]));
}

#[test]
fn labels_that_are_no_position_are_left_out() {
    let (m, _) = map(
        &labeled(&[
            ("{position=\"x\"}", 1.0),
            ("{position=\"\"}", 1.0),
            ("{position=\"-1\"}", 1.0),
            ("{slot=\"0\"}", 1.0),
            ("{position=\"0\"", 1.0),
            ("{position=\"99999999999999999999999\"}", 1.0),
        ]),
        None,
    );
    assert_eq!(m.spec_decode_accepted_tokens_per_pos, None);
    // A plus sign and leading zeros are part of a number.
    let (m, _) = map(&labeled(&[("{position=\"+1\"}", 2.0), ("{position=\"00\"}", 3.0)]), None);
    assert_eq!(m.spec_decode_accepted_tokens_per_pos, Some(vec![3, 2]));
}

#[test]
fn a_position_past_what_can_be_held_does_not_fit() {
    let parsed = labeled(&[("{position=\"18446744073709551615\"}", 1.0)]);
    assert!(!scrape_fits(&parsed, &zero(), &zero()));
    assert!(scrape_fits(&labeled(&[("{position=\"9\"}", 1.0)]), &zero(), &zero()));
}

#[test]
fn a_full_average_takes_no_more_readings() {
    let mut parsed = ParsedMetrics::new();
    parsed
        .gauges
        .insert(PREDICTED_TOKENS_SECONDS.to_string(), b(1.0));
    let full = (b(1.0), u64::MAX);
    assert!(!scrape_fits(&parsed, &full, &zero()));
    assert!(scrape_fits(&parsed, &zero(), &full));
    parsed
        .gauges
        .insert(PREDICTED_TOKENS_SECONDS.to_string(), b(0.0));
    assert!(scrape_fits(&parsed, &full, &zero()));
}

#[test]
fn rates_need_a_positive_denominator() {
    assert_eq!(f(spec_acceptance_rate(Some(b(1.0)), Some(b(8.0)))), Some(12.5));
    assert_eq!(spec_acceptance_rate(Some(b(1.0)), Some(b(0.0))), None);
    assert_eq!(spec_acceptance_rate(None, Some(b(8.0))), None);
    assert_eq!(spec_acceptance_rate(Some(b(1.0)), None), None);
    assert_eq!(f(spec_mean_acceptance_length(Some(b(9.0)), Some(b(4.0)))), Some(2.25));
    assert_eq!(spec_mean_acceptance_length(Some(b(9.0)), Some(b(-4.0))), None);
    assert_eq!(spec_mean_acceptance_length(Some(b(9.0)), None), None);
}

#[test]
fn a_missing_counter_discards_the_snapshot() {
    let previous = Some((b(8.0), b(16.0)));
    let (live, next) = live_acceptance(Some(b(9.0)), None, previous);
    assert_eq!(live, None);
    assert_eq!(next, None);
    let (live, next) = live_acceptance(Some(b(9.0)), Some(b(20.0)), next);
    assert_eq!(live, None);
    let (live, _) = live_acceptance(Some(b(12.0)), Some(b(24.0)), next);
    assert_eq!(f(live), Some(75.0));
}

#[test]
fn the_live_rate_is_never_negative() {
    for (a, d) in [(7.0, 24.0), (9.0, 15.0), (8.0, 16.0), (8.0, 17.0)] {
        let (live, _) = live_acceptance(Some(b(a)), Some(b(d)), Some((b(8.0), b(16.0))));
        assert!(!f(live).is_some_and(|v| v < 0.0));
    }
}

#[test]
fn only_positive_readings_are_averaged() {
    let mut average = zero();
    assert_eq!(push_average(&mut average, None), None);
    assert_eq!(push_average(&mut average, Some(b(-2.0))), None);
    assert_eq!(push_average(&mut average, Some(b(f64::NAN))), None);
    assert_eq!(f(push_average(&mut average, Some(b(1.0)))), Some(1.0));
    assert_eq!(f(push_average(&mut average, Some(b(0.0)))), Some(1.0));
    assert_eq!(f(push_average(&mut average, Some(b(2.0)))), Some(1.5));
    assert_eq!(average.1, 2);
}

#[test]
fn cache_usage_is_held_to_its_range() {
    for (ratio, percent) in [(-0.5, 0.0), (0.0, 0.0), (1.0, 100.0), (7.0, 100.0), (0.125, 12.5)] {
        let mut parsed = ParsedMetrics::new();
        parsed
            .gauges
            .insert("llamacpp_kv_cache_usage_ratio".to_string(), b(ratio));
        assert_eq!(f(map(&parsed, None).0.kv_cache_percent), Some(percent));
    }
}

#[test]
fn the_hit_rate_is_a_share() {
    for (processed, cached, rate) in [(0.0, 5.0, Some(100.0)), (3.0, 1.0, Some(25.0)), (0.0, 0.0, None)] {
        let mut parsed = ParsedMetrics::new();
        parsed
            .counters
            .insert("llamacpp_prompt_tokens_total".to_string(), b(processed));
        parsed
            .counters
            .insert("llamacpp_prompt_tokens_cached_total".to_string(), b(cached));
        let (m, _) = map(&parsed, None);
        assert_eq!(f(m.prefix_cache_hit_rate), rate);
        assert_eq!(m.prefix_cache_queries_total, Some((processed + cached) as u64));
    }
}

#[test]
fn samples_are_replaced_by_name() {
    let mut parsed = ParsedMetrics::new();
    assert_eq!(parsed.counters.insert("a".to_string(), b(1.0)), None);
    assert_eq!(parsed.counters.insert("b".to_string(), b(2.0)), None);
    assert_eq!(parsed.counters.insert("a".to_string(), b(3.0)), Some(b(1.0)));
    assert_eq!(parsed.counters.get("a"), Some(b(3.0)));
    assert_eq!(parsed.counters.get("b"), Some(b(2.0)));
    assert_eq!(parsed.counters.get("c"), None);
}

#[test]
fn decode_timings_come_together() {
    for (seconds, tokens) in [(0.0, 5.0), (2.0, 0.0), (-1.0, 5.0), (2.0, 5.0)] {
        let mut parsed = ParsedMetrics::new();
        parsed
            .counters
            .insert("llamacpp_tokens_predicted_seconds_total".to_string(), b(seconds));
        parsed
            .counters
            .insert("llamacpp_tokens_predicted_total".to_string(), b(tokens));
        let (m, _) = map(&parsed, None);
        assert_eq!(m.tpot_ms.is_some(), m.per_request_tps.is_some());
        assert_eq!(m.tpot_ms.is_some(), seconds > 0.0 && tokens > 0.0);
        assert_eq!(m.inter_token_latency_ms, m.tpot_ms);
    }
}
