use llama_adapter::adapter::{
    EngineStatus, EngineType, LlamaAdapter, ScrapeAction, ScrapeEvent, ScrapeStage,
};
use llama_adapter::binary64::Binary64;
use llama_adapter::http::{is_success, Reply};
use llama_adapter::metrics::PREDICTED_TOKENS_SECONDS;
use llama_adapter::model::{
    classify_models_error_status, display_model_hint, models_reply, ModelMetadataError, ModelsReply,
};
use llama_adapter::samples::ParsedMetrics;

fn adapter(hint: Option<&str>, key: Option<&str>) -> LlamaAdapter {
    LlamaAdapter::new(
        reqwest::Client::new(),
        "http://localhost:9931".into(),
        hint.map(str::to_string),
        key.map(str::to_string),
    )
}

#[test]
fn display_hint_shows_the_file_not_the_path() {
    assert_eq!(
        display_model_hint("/mnt/models/Qwen2.5-3B-Instruct-Q4_K_M.gguf"),
        "Qwen2.5-3B-Instruct-Q4_K_M.gguf"
    );
    // hf: URIs carry the repo id: keep it, drop the scheme marker.
    assert_eq!(
        display_model_hint("hf:Qwen/Qwen2.5-3B-Instruct-GGUF:Q4_K_M"),
        "Qwen/Qwen2.5-3B-Instruct-GGUF:Q4_K_M"
    );
    // Plain slugs and aliases pass through.
    assert_eq!(display_model_hint("my-alias"), "my-alias");
}

#[test]
fn display_hint_at_its_edges() {
    assert_eq!(display_model_hint(""), "");
    assert_eq!(display_model_hint("models/"), "");
    assert_eq!(display_model_hint("hf:"), "");
    assert_eq!(display_model_hint("hf"), "hf");
    assert_eq!(display_model_hint("/é/ü.gguf"), "ü.gguf");
}

#[test]
fn metrics_url_pins_the_model_for_preset_pools() {
    let adapter = LlamaAdapter::new(
        reqwest::Client::new(),
        "http://localhost:9931".into(),
        None,
        None,
    );
    assert_eq!(adapter.metrics_url(None), "http://localhost:9931/metrics");
    assert_eq!(
        adapter.metrics_url(Some("Qwen3.8-27B-UD-Q4_K_M")),
        "http://localhost:9931/metrics?model=Qwen3.8-27B-UD-Q4_K_M",
    );
    // Alias names with spaces must arrive URL-encoded (+ decodes to a
    // space server-side, like any standard query form encoding).
    assert_eq!(
        adapter.metrics_url(Some("my model v2")),
        "http://localhost:9931/metrics?model=my+model+v2",
    );
}

fn url(endpoint: &str, model: Option<&str>) -> String {
    LlamaAdapter::new(reqwest::Client::new(), endpoint.into(), None, None).metrics_url(model)
}

#[test]
fn metrics_url_keeps_what_is_no_url() {
    assert_eq!(url("not a url", None), "not a url/metrics");
    assert_eq!(url("not a url", Some("m")), "not a url/metrics");
}

#[test]
fn metrics_url_is_what_the_parser_writes() {
    assert_eq!(url("HTTP://Local/a b", None), "http://local/a%20b/metrics");
}

#[test]
fn metrics_url_adds_the_model_to_the_query() {
    assert_eq!(url("http://h/a?x=1", Some("m&n")), "http://h/a?x=1/metrics&model=m%26n");
    assert_eq!(url("http://h/a#f", Some("é+*")), "http://h/a?model=%C3%A9%2B*#f/metrics");
    assert_eq!(url("http://h/a?#f", Some("m")), "http://h/a?model=m#f/metrics");
}

#[test]
fn every_model_has_a_url_of_its_own() {
    let names = ["a b", "a+b", "a%20b", "a/b", "a", "", "%", "A"];
    for x in names {
        for y in names {
            let a = adapter(None, None);
            assert_eq!(x == y, a.metrics_url(Some(x)) == a.metrics_url(Some(y)));
            assert_eq!(a.checked_metrics_url(x), Some(a.metrics_url(Some(x))));
        }
    }
}

/// The pairs that the query of a URL writes, and the URL without its query.
fn read(text: &str) -> (Vec<(String, String)>, String) {
    let mut url = reqwest::Url::parse(text).expect("url");
    let pairs = url.query_pairs().into_owned().collect();
    url.set_query(None);
    (pairs, url.to_string())
}

fn pair_of(name: &str, value: &str) -> (String, String) {
    (name.to_string(), value.to_string())
}

#[test]
fn the_query_writes_the_model_and_nothing_else() {
    let names = ["m", "", "a b", "a&b=c", "a#b?c", "100%", "%41", "+", "naïve 模型 🦙", "org/repo:Q4", "\n\0"];
    for endpoint in ["http://localhost:9931", "https://u:p@example.org/x y", "http://[::1]:80"] {
        let bare = url(endpoint, None);
        assert!(!bare.contains('?') && !bare.contains('#'));
        for name in names {
            assert_eq!(read(&url(endpoint, Some(name))), (vec![pair_of("model", name)], bare.clone()));
        }
    }
}

#[test]
fn the_model_is_added_to_a_query_that_is_there() {
    let (pairs, rest) = read(&url("http://h/a?x=1&&y", Some("m n")));
    assert_eq!(pairs, vec![pair_of("x", "1"), pair_of("y/metrics", ""), pair_of("model", "m n")]);
    assert_eq!(rest, "http://h/a");
    let (pairs, rest) = read(&url("http://h/a#f", Some("m")));
    assert_eq!(pairs, vec![pair_of("model", "m")]);
    assert_eq!(rest, "http://h/a#f/metrics");
}

#[test]
fn no_character_of_a_host_becomes_a_query() {
    // Full-width and escaped signs are no way into the query or the fragment.
    for endpoint in ["http://a？b", "http://a＃b", "http://a%3Fb", "http://a%23b"] {
        assert_eq!(url(endpoint, None), format!("{}/metrics", endpoint));
    }
    assert_eq!(url("http://h/a%3Fb", None), "http://h/a%3Fb/metrics");
}

#[test]
fn ordinary_endpoints_can_be_scraped() {
    assert!(adapter(None, None).can_scrape());
    assert!(LlamaAdapter::new(reqwest::Client::new(), "x".repeat(1 << 20), None, None).can_scrape());
}

#[test]
fn create_adapter_builds_the_llama_adapter() {
    let client = reqwest::Client::new();
    let adapter = LlamaAdapter::new(
        client,
        "http://localhost:8080".into(),
        Some("/models/m.gguf".into()),
        None,
    );
    assert_eq!(adapter.engine_type(), EngineType::Llama);
    assert_eq!(adapter.endpoint(), "http://localhost:8080");
}

#[test]
fn requests_carry_the_key() {
    for key in [None, Some("k")] {
        let a = adapter(Some("m"), key);
        let retry = match a.scrape_step(
            ScrapeStage::Models,
            ScrapeEvent::Models(Err(ModelMetadataError::Unavailable)),
        ) {
            (ScrapeStage::Retry, ScrapeAction::Get(request)) => request,
            other => panic!("{:?}", other),
        };
        for request in [a.scrape_request(), a.models_request(), a.health_request(), retry] {
            assert_eq!(request.bearer.as_deref(), key);
        }
    }
    let a = adapter(None, Some("k"));
    assert_eq!(a.models_request().url, "http://localhost:9931/v1/models");
    assert_eq!(a.models_request().timeout_secs, 2);
    assert_eq!(a.health_request().url, "http://localhost:9931/health");
    assert_eq!(a.health_request().timeout_secs, 2);
    assert_eq!(a.scrape_request().url, "http://localhost:9931/metrics");
    assert_eq!(a.scrape_request().timeout_secs, 5);
}

#[test]
fn health_follows_the_status() {
    assert!(matches!(LlamaAdapter::health_check(Reply::Status(200)), EngineStatus::Running));
    assert!(matches!(LlamaAdapter::health_check(Reply::Status(299)), EngineStatus::Running));
    let error = |reply: Reply| match LlamaAdapter::health_check(reply) {
        EngineStatus::Error(text) => text,
        EngineStatus::Running => panic!("running"),
    };
    assert_eq!(error(Reply::Status(503)), "HTTP 503 Service Unavailable");
    assert_eq!(error(Reply::Status(404)), "HTTP 404 Not Found");
    assert_eq!(error(Reply::Status(799)), "HTTP 799 <unknown status code>");
    assert_eq!(error(Reply::Failed("refused".into())), "refused");
    assert!(!is_success(199));
    assert!(!is_success(300));
}

#[test]
fn the_list_of_models_gives_an_id_or_an_error() {
    let list = |ids: &[&str]| Some(ids.iter().map(|id| id.to_string()).collect::<Vec<_>>());
    let none = Err(ModelMetadataError::Unavailable);
    assert_eq!(models_reply(ModelsReply::Failed), none);
    assert_eq!(models_reply(ModelsReply::Answered(200, None)), none);
    assert_eq!(models_reply(ModelsReply::Answered(200, list(&[]))), none);
    assert_eq!(models_reply(ModelsReply::Answered(200, list(&["", "b"]))), none);
    assert_eq!(models_reply(ModelsReply::Answered(200, list(&["a", "b"]))), Ok("a".to_string()));
    assert_eq!(models_reply(ModelsReply::Answered(500, list(&["a"]))), none);
    assert_eq!(
        models_reply(ModelsReply::Answered(401, None)),
        Err(ModelMetadataError::AuthRequired)
    );
    assert_eq!(classify_models_error_status(403), ModelMetadataError::AuthRequired);
    assert_eq!(classify_models_error_status(404), ModelMetadataError::Unavailable);
}

#[test]
fn the_engines_own_id_wins_over_the_hint() {
    let upper = |id: &str| id.to_uppercase();
    let a = adapter(Some("/m/file.gguf"), None);
    let own = a.get_model_info(Ok("alias".to_string()), upper);
    assert_eq!(own.model.map(|m| m.name), Some("ALIAS".to_string()));
    assert_eq!(own.metadata_error, None);
    let fallback = a.get_model_info(Err(ModelMetadataError::AuthRequired), upper);
    let info = fallback.model.unwrap();
    assert_eq!(info.name, "FILE.GGUF");
    assert_eq!(info.quantization, None);
    assert_eq!(fallback.metadata_error, Some(ModelMetadataError::AuthRequired));
    let nothing = adapter(None, None).get_model_info(Err(ModelMetadataError::Unavailable), upper);
    assert!(nothing.model.is_none());
    assert_eq!(nothing.metadata_error, Some(ModelMetadataError::Unavailable));
}

#[test]
fn a_scrape_is_retried_once_with_the_model() {
    let a = adapter(Some("/m/file.gguf"), None);
    let (stage, action) =
        a.scrape_step(ScrapeStage::First, ScrapeEvent::Metrics(Reply::Status(400)));
    assert_eq!(stage, ScrapeStage::Models);
    assert!(matches!(action, ScrapeAction::AskModels(r) if r.url.ends_with("/v1/models")));

    let (stage, action) =
        a.scrape_step(ScrapeStage::Models, ScrapeEvent::Models(Ok("my alias".to_string())));
    assert_eq!(stage, ScrapeStage::Retry);
    assert!(matches!(
        action,
        ScrapeAction::Get(r) if r.url == "http://localhost:9931/metrics?model=my+alias"
            && r.timeout_secs == 5
    ));

    // The hint goes out as it is, not as it is shown.
    let (_, action) = a.scrape_step(
        ScrapeStage::Models,
        ScrapeEvent::Models(Err(ModelMetadataError::Unavailable)),
    );
    assert!(matches!(
        action,
        ScrapeAction::Get(r) if r.url == "http://localhost:9931/metrics?model=%2Fm%2Ffile.gguf"
    ));

    let (stage, action) =
        a.scrape_step(ScrapeStage::Retry, ScrapeEvent::Metrics(Reply::Status(400)));
    assert_eq!(stage, ScrapeStage::Over);
    assert!(matches!(action, ScrapeAction::GiveUp));
}

#[test]
fn a_scrape_ends_where_there_is_nothing_to_be_had() {
    let a = adapter(None, None);
    for stage in [ScrapeStage::First, ScrapeStage::Retry] {
        let (next, action) =
            a.scrape_step(stage, ScrapeEvent::Metrics(Reply::Failed("timeout".into())));
        assert_eq!(next, ScrapeStage::Over);
        assert!(matches!(action, ScrapeAction::GiveUp));
        let (next, action) = a.scrape_step(stage, ScrapeEvent::Metrics(Reply::Status(200)));
        assert_eq!(next, ScrapeStage::Over);
        assert!(matches!(action, ScrapeAction::ReadBody));
    }
    let (next, action) = a.scrape_step(
        ScrapeStage::Models,
        ScrapeEvent::Models(Err(ModelMetadataError::Unavailable)),
    );
    assert_eq!(next, ScrapeStage::Over);
    assert!(matches!(action, ScrapeAction::GiveUp));
}

#[test]
fn a_scrape_moves_the_adapter_on() {
    let b = |x: f64| Binary64::from_bits(x.to_bits());
    let f = |x: Option<Binary64>| x.map(|v| f64::from_bits(v.to_bits()));
    let scrape = |accepted: f64, draft: f64, speed: f64| {
        let mut p = ParsedMetrics::new();
        p.counters.insert(
            "llamacpp_spec_decode_num_accepted_tokens_total".to_string(),
            b(accepted),
        );
        p.counters.insert(
            "llamacpp_spec_decode_num_draft_tokens_total".to_string(),
            b(draft),
        );
        p.gauges.insert(PREDICTED_TOKENS_SECONDS.to_string(), b(speed));
        p
    };
    let mut a = adapter(None, None);
    let first = scrape(8.0, 16.0, 10.0);
    assert!(a.can_record(&first));
    let m = a.get_metrics(Some(&first)).unwrap();
    assert_eq!(m.spec_decode_acceptance_rate_live, None);
    assert!(a.get_metrics(None).is_none());
    let m = a.get_metrics(Some(&scrape(11.0, 20.0, 30.0))).unwrap();
    assert_eq!(f(m.spec_decode_acceptance_rate_live), Some(75.0));
    assert_eq!(f(m.avg_tokens_per_sec), Some(20.0));
    let _ = a.client();
}
