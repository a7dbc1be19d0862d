//! The adapter for one `llama-server`.
//!
//! The adapter decides what to ask the engine and what to make of the
//! answers; sending requests is up to its caller. Telemetry is served at
//! `/metrics` in Prometheus text exposition format, but only by a server
//! started with `--metrics`: any other answers with an error status, so the
//! engine keeps its status but has no metrics.
use vstd::prelude::*;

use crate::binary64::Binary64;
use crate::http::{
    append_query_pair, can_be_read, fits_pair, has_room, is_success, is_unqueried, parse_url,
    status_digits, status_line, status_phrase, success, url_text, with_pair, HttpGet, Reply,
};
use crate::metrics::{
    accumulated, can_map, gauge, is_mapping, map_metrics, scrape_fits, scraped_snapshot, Average,
    EngineMetrics, Snapshot, PREDICTED_TOKENS_SECONDS, PROMPT_TOKENS_SECONDS,
};
use crate::model::{
    is_bare, is_normalized, resolve_model, shown_id, ModelMetadataError, ModelResolution,
};
use crate::query::{form_pairs, query_of, without_query};
use crate::request_laws::law_pinned_url_writes_the_model;
use crate::samples::ParsedMetrics;

verus! {

/// The HTTP client that requests go through. The adapter only carries it.
#[verifier::external_type_specification]
#[verifier::external_body]
pub struct ExClient(reqwest::Client);

/// The kinds of engines.
#[derive(Clone, Copy, Debug, PartialEq, Eq, Structural)]
pub enum EngineType {
    Llama,
}

/// Whether an engine is up.
#[derive(Debug)]
pub enum EngineStatus {
    Running,
    Error(String),
}

/// Adapter for a `llama-server`.
pub struct LlamaAdapter {
    client: reqwest::Client,
    endpoint: String,
    /// Optional bearer token for `llama-server --api-key` deployments.
    /// Applied to engine requests; open endpoints ignore it harmlessly.
    api_key: Option<String>,
    /// `--model <path>` recovered from the launch command line during
    /// detection. Display fallback for when `/v1/models` cannot be read: the
    /// engine's own answer (an `--alias` or the GGUF file name) always wins
    /// when it is available.
    model_hint: Option<String>,
    /// Previous (accepted, draft) spec-decode counter readings for the live
    /// (windowed) token acceptance rate.
    prev_spec_decode: Option<Snapshot>,
    /// Running average for generation throughput.
    avg_accum: Average,
    /// Running average for prompt throughput.
    avg_prompt_accum: Average,
}

/// What an adapter knows.
pub struct Knowledge {
    pub endpoint: Seq<char>,
    pub api_key: Option<Seq<char>>,
    pub model_hint: Option<Seq<char>>,
    /// The counters that the next scrape is compared with.
    pub previous: Option<Snapshot>,
    /// The running average of generation throughput.
    pub generation: Average,
    /// The running average of prompt throughput.
    pub prompt: Average,
}

/// A string that may be missing, as text.
pub open spec fn text_of(s: Option<String>) -> Option<Seq<char>> {
    match s {
        Some(t) => Some(t@),
        None => None,
    }
}

/// A string slice that may be missing, as text.
pub open spec fn text_in(s: Option<&str>) -> Option<Seq<char>> {
    match s {
        Some(t) => Some(t@),
        None => None,
    }
}

impl View for LlamaAdapter {
    type V = Knowledge;

    closed spec fn view(&self) -> Knowledge {
        Knowledge {
            endpoint: self.endpoint@,
            api_key: text_of(self.api_key),
            model_hint: text_of(self.model_hint),
            previous: self.prev_spec_decode,
            generation: self.avg_accum,
            prompt: self.avg_prompt_accum,
        }
    }
}

/// Where the engine serves its metrics.
pub open spec fn metrics_address(k: Knowledge) -> Seq<char> {
    k.endpoint + "/metrics"@
}

/// The URL of a scrape, pinned to a model or not.
pub open spec fn scrape_url(k: Knowledge, model: Option<Seq<char>>) -> Seq<char> {
    match (url_text(metrics_address(k)), model) {
        (Some(text), Some(m)) => with_pair(text, "model"@, m),
        (Some(text), None) => text,
        (None, _) => metrics_address(k),
    }
}

/// Whether the URL of a scrape has room for the name of a model.
pub open spec fn room_for_model(k: Knowledge, model: Option<Seq<char>>) -> bool {
    match (url_text(metrics_address(k)), model) {
        (Some(text), Some(m)) => has_room(text, "model"@, m),
        _ => true,
    }
}

/// Whether a scrape can be pinned to a model.
pub open spec fn can_be_pinned(k: Knowledge, model: Seq<char>) -> bool {
    can_be_read(metrics_address(k)) && room_for_model(k, Some(model))
}

/// Whether the query of `url` writes the model and nothing else, and the rest
/// of it is the bare URL of a scrape.
pub open spec fn is_pinned(k: Knowledge, url: Seq<char>, model: Seq<char>) -> bool {
    &&& form_pairs(query_of(url)) == seq![("model"@, model)]
    &&& without_query(url) == scrape_url(k, None)
}

/// Whether the engine is at a URL that has neither a query nor a fragment.
pub open spec fn is_plain_endpoint(k: Knowledge) -> bool {
    url_text(metrics_address(k)) is Some && is_unqueried(k.endpoint)
}

/// Whether `request` goes to `url`, with the adapter's token and this limit
/// on its time.
pub open spec fn is_request(k: Knowledge, request: HttpGet, url: Seq<char>, secs: u64) -> bool {
    &&& request.url@ == url
    &&& request.timeout_secs == secs
    &&& text_of(request.bearer) == k.api_key
}

/// What is known after a scrape: its counters are what the next one is
/// compared with, and the running averages have moved on.
pub open spec fn after_scrape(k: Knowledge, parsed: &ParsedMetrics) -> Knowledge {
    Knowledge {
        previous: scraped_snapshot(parsed),
        generation: accumulated(k.generation, gauge(parsed, PREDICTED_TOKENS_SECONDS@)),
        prompt: accumulated(k.prompt, gauge(parsed, PROMPT_TOKENS_SECONDS@)),
        ..k
    }
}

/// How far a scrape has got.
#[derive(Clone, Copy, Debug, PartialEq, Eq, Structural)]
pub enum ScrapeStage {
    /// The bare request is out.
    First,
    /// The request for the list of models is out.
    Models,
    /// The request that is pinned to a model is out.
    Retry,
    /// Nothing is out any more.
    Over,
}

/// What happened to the request that is out.
#[derive(Debug)]
pub enum ScrapeEvent {
    /// How a request for metrics ended.
    Metrics(Reply),
    /// What the list of models had to say.
    Models(Result<String, ModelMetadataError>),
}

/// What to do next for a scrape.
#[derive(Debug)]
pub enum ScrapeAction {
    /// Send this request for metrics.
    Get(HttpGet),
    /// Send this request for the list of models.
    AskModels(HttpGet),
    /// Read the body of the response.
    ReadBody,
    /// There are no metrics to be had.
    GiveUp,
    /// The endpoint or the name of the model does not fit into a URL.
    NoRoom,
}

/// Whether an event can happen at a stage.
pub open spec fn can_happen(stage: ScrapeStage, event: ScrapeEvent) -> bool {
    match stage {
        ScrapeStage::First | ScrapeStage::Retry => event is Metrics,
        ScrapeStage::Models => event is Models,
        ScrapeStage::Over => false,
    }
}

/// The model that a scrape is pinned to: the engine's own id wins over the
/// hint from the command line.
pub open spec fn pinned_model(
    k: Knowledge,
    models: Result<String, ModelMetadataError>,
) -> Option<Seq<char>> {
    match models {
        Ok(id) => Some(id@),
        Err(_) => k.model_hint,
    }
}

/// Whether `action` and `next` are what an event at a stage leads to.
pub open spec fn is_step(
    k: Knowledge,
    stage: ScrapeStage,
    event: ScrapeEvent,
    next: ScrapeStage,
    action: ScrapeAction,
) -> bool {
    match event {
        ScrapeEvent::Metrics(Reply::Failed(_)) => next is Over && action is GiveUp,
        ScrapeEvent::Metrics(Reply::Status(status)) => if success(status) {
            next is Over && action is ReadBody
        } else if stage is First {
            next is Models && (action matches ScrapeAction::AskModels(request) && is_request(
                k,
                request,
                k.endpoint + "/v1/models"@,
                2,
            ))
        } else {
            next is Over && action is GiveUp
        },
        ScrapeEvent::Models(models) => match pinned_model(k, models) {
            None => next is Over && action is GiveUp,
            Some(model) => if can_be_pinned(k, model) {
                next is Retry && (action matches ScrapeAction::Get(request) && is_request(
                    k,
                    request,
                    scrape_url(k, Some(model)),
                    5,
                ))
            } else {
                next is Over && action is NoRoom
            },
        },
    }
}

/// `endpoint` followed by `path`.
fn joined(endpoint: &String, path: &str) -> (r: String)
    ensures
        r@ == endpoint@ + path@,
{
    let mut url: String = endpoint.clone();
    url.append(path);
    url
}

/// The path of the metrics adds neither a query nor a fragment.
proof fn lemma_address_unqueried(k: Knowledge)
    requires
        is_unqueried(k.endpoint),
    ensures
        is_unqueried(metrics_address(k)),
{
    reveal_strlit("/metrics");
    let address = metrics_address(k);
    assert forall|i: int| 0 <= i < address.len() implies #[trigger] address[i] != '?' && address[i]
        != '#' by {
        if i < k.endpoint.len() {
            assert(k.endpoint.contains(k.endpoint[i]));
        } else {
            assert(address[i] == "/metrics"@[i - k.endpoint.len()]);
        }
    }
}

fn copy_of(s: &Option<String>) -> (r: Option<String>)
    ensures
        text_of(r) == text_of(*s),
{
    match s {
        Some(t) => Some(t.clone()),
        None => None,
    }
}

impl LlamaAdapter {
    /// The client that requests go through.
    pub closed spec fn http_client(&self) -> reqwest::Client {
        self.client
    }

    /// An adapter for the server at `endpoint`, without any scrape yet.
    pub fn new(
        client: reqwest::Client,
        endpoint: String,
        model_hint: Option<String>,
        api_key: Option<String>,
    ) -> (r: LlamaAdapter)
        ensures
            r.http_client() == client,
            r@ == (Knowledge {
                endpoint: endpoint@,
                api_key: text_of(api_key),
                model_hint: text_of(model_hint),
                previous: None,
                generation: (Binary64 { bits: 0 }, 0),
                prompt: (Binary64 { bits: 0 }, 0),
            }),
    {
        LlamaAdapter {
            client,
            endpoint,
            api_key,
            model_hint,
            prev_spec_decode: None,
            avg_accum: (Binary64 { bits: 0 }, 0),
            avg_prompt_accum: (Binary64 { bits: 0 }, 0),
        }
    }

    /// The client that requests go through.
    pub fn client(&self) -> (r: &reqwest::Client)
        ensures
            *r == self.http_client(),
    {
        &self.client
    }

    pub fn engine_type(&self) -> (r: EngineType)
        ensures
            r is Llama,
    {
        EngineType::Llama
    }

    pub fn endpoint(&self) -> (r: &str)
        ensures
            r@ == self@.endpoint,
    {
        self.endpoint.as_str()
    }

    /// Whether the endpoint is short enough to be read as a URL.
    pub fn can_scrape(&self) -> (r: bool)
        ensures
            r == can_be_read(metrics_address(self@)),
    {
        joined(&self.endpoint, "/metrics").as_str().unicode_len() <= 0x7fff_ffff
    }

    /// `/metrics` URL, optionally pinned to a model. Multi-model preset pools
    /// (`--models-preset`) reject a bare scrape with 400 "model name is
    /// missing from the request"; a single-model server accepts `?model=`
    /// harmlessly, so the retry is safe in either case.
    ///
    /// The name of a model arrives as it is: the query of a pinned URL writes
    /// it, whatever characters it holds.
    pub fn metrics_url(&self, model: Option<&str>) -> (r: String)
        requires
            can_be_read(metrics_address(self@)),
            room_for_model(self@, text_in(model)),
        ensures
            r@ == scrape_url(self@, text_in(model)),
            is_unqueried(self@.endpoint) ==> is_unqueried(scrape_url(self@, None)),
            is_plain_endpoint(self@) ==> (model matches Some(m) ==> is_pinned(self@, r@, m@)),
    {
        let bare: String = joined(&self.endpoint, "/metrics");
        proof {
            if is_unqueried(self@.endpoint) {
                lemma_address_unqueried(self@);
            }
        }
        match parse_url(bare.as_str()) {
            Some(text) => match model {
                Some(m) => {
                    proof {
                        if is_plain_endpoint(self@) {
                            law_pinned_url_writes_the_model(self@, m@);
                        }
                    }
                    match append_query_pair(bare.as_str(), "model", m) {
                        Some(url) => url,
                        None => bare,
                    }
                },
                None => text,
            },
            None => bare,
        }
    }

    /// `/metrics` URL, pinned to a model, or nothing where the endpoint or the
    /// name of the model does not fit.
    pub fn checked_metrics_url(&self, model: &str) -> (r: Option<String>)
        ensures
            match r {
                Some(url) => {
                    &&& can_be_pinned(self@, model@)
                    &&& url@ == scrape_url(self@, Some(model@))
                    &&& is_plain_endpoint(self@) ==> is_pinned(self@, url@, model@)
                },
                None => !can_be_pinned(self@, model@),
            },
    {
        if !self.can_scrape() {
            return None;
        }
        let bare: String = joined(&self.endpoint, "/metrics");
        if let Some(text) = parse_url(bare.as_str()) {
            if !fits_pair(text.as_str(), "model", model) {
                return None;
            }
        }
        Some(self.metrics_url(Some(model)))
    }

    /// A request with the bearer token, where there is one.
    pub fn auth(&self, request: HttpGet) -> (r: HttpGet)
        ensures
            r.url == request.url,
            r.timeout_secs == request.timeout_secs,
            text_of(r.bearer) == (match self@.api_key {
                Some(key) => Some(key),
                None => text_of(request.bearer),
            }),
    {
        match &self.api_key {
            Some(key) => HttpGet {
                url: request.url,
                timeout_secs: request.timeout_secs,
                bearer: Some(key.clone()),
            },
            None => request,
        }
    }

    fn request(&self, url: String, timeout_secs: u64) -> (r: HttpGet)
        ensures
            is_request(self@, r, url@, timeout_secs),
    {
        self.auth(HttpGet { url, timeout_secs, bearer: None })
    }

    /// The request that asks for the list of models.
    pub fn models_request(&self) -> (r: HttpGet)
        ensures
            is_request(self@, r, self@.endpoint + "/v1/models"@, 2),
    {
        self.request(joined(&self.endpoint, "/v1/models"), 2)
    }

    /// The request that asks whether the engine is up. `/health` is
    /// documented public, but the bearer is applied anyway (harmless on open
    /// routes).
    pub fn health_request(&self) -> (r: HttpGet)
        ensures
            is_request(self@, r, self@.endpoint + "/health"@, 2),
    {
        self.request(joined(&self.endpoint, "/health"), 2)
    }

    /// Whether the engine is up, as the reply to that request says.
    pub fn health_check(reply: Reply) -> (r: EngineStatus)
        requires
            reply matches Reply::Status(status) ==> 100 <= status <= 999,
        ensures
            match reply {
                Reply::Status(status) => if success(status) {
                    r is Running
                } else {
                    r matches EngineStatus::Error(text) && text@ == "HTTP "@ + status_digits(status)
                        + status_phrase(status)
                },
                Reply::Failed(reason) => r == EngineStatus::Error(reason),
            },
    {
        match reply {
            Reply::Status(status) => {
                if is_success(status) {
                    return EngineStatus::Running;
                }
                let mut text: String = "HTTP ".to_string();
                text.append(status_line(status).as_str());
                assert(text@ =~= "HTTP "@ + status_digits(status) + status_phrase(status));
                EngineStatus::Error(text)
            },
            Reply::Failed(reason) => EngineStatus::Error(reason),
        }
    }

    /// The model that the engine serves, from what its list of models had to
    /// say.
    ///
    /// The engine's own id (an `--alias` or the GGUF file name) is the display
    /// name when it exists; without it the hint from the command line is.
    pub fn get_model_info<N: Fn(&str) -> String>(
        &self,
        reply: Result<String, ModelMetadataError>,
        normalize: N,
    ) -> (r: ModelResolution)
        requires
            forall|s: &str| call_requires(normalize, (s,)),
        ensures
            match shown_id(reply, self@.model_hint) {
                Some(id) => r.model matches Some(info) && is_bare(info) && is_normalized(
                    normalize,
                    id,
                    info.name,
                ),
                None => r.model is None,
            },
            r.metadata_error == (match reply {
                Ok(_) => None,
                Err(error) => Some(error),
            }),
    {
        let hint: Option<&str> = match &self.model_hint {
            Some(h) => Some(h.as_str()),
            None => None,
        };
        resolve_model(reply, hint, normalize)
    }

    /// The request that a scrape begins with.
    pub fn scrape_request(&self) -> (r: HttpGet)
        requires
            can_be_read(metrics_address(self@)),
        ensures
            is_request(self@, r, scrape_url(self@, None), 5),
    {
        self.request(self.metrics_url(None), 5)
    }

    /// What to do after an event of a scrape.
    ///
    /// A server started without `--metrics` answers with an HTTP error and a
    /// JSON body. The status is the reliable signal, so it is checked before
    /// the body is read. A multi-model preset pool needs the model name on the
    /// scrape, so an error status is followed by one more attempt with it.
    pub fn scrape_step(&self, stage: ScrapeStage, event: ScrapeEvent) -> (r: (
        ScrapeStage,
        ScrapeAction,
    ))
        requires
            can_happen(stage, event),
        ensures
            is_step(self@, stage, event, r.0, r.1),
            is_plain_endpoint(self@) ==> (event matches ScrapeEvent::Models(models) ==> (
            r.1 matches ScrapeAction::Get(request) ==> (pinned_model(self@, models) matches Some(
                model,
            ) && is_pinned(self@, request.url@, model)))),
    {
        match event {
            ScrapeEvent::Metrics(reply) => match reply {
                Reply::Failed(_) => (ScrapeStage::Over, ScrapeAction::GiveUp),
                Reply::Status(status) => if is_success(status) {
                    (ScrapeStage::Over, ScrapeAction::ReadBody)
                } else if stage == ScrapeStage::First {
                    (ScrapeStage::Models, ScrapeAction::AskModels(self.models_request()))
                } else {
                    (ScrapeStage::Over, ScrapeAction::GiveUp)
                },
            },
            ScrapeEvent::Models(models) => {
                let model: Option<String> = match models {
                    Ok(id) => Some(id),
                    Err(_) => copy_of(&self.model_hint),
                };
                match model {
                    Some(m) => match self.checked_metrics_url(m.as_str()) {
                        Some(url) => (
                            ScrapeStage::Retry,
                            ScrapeAction::Get(self.request(url, 5)),
                        ),
                        None => (ScrapeStage::Over, ScrapeAction::NoRoom),
                    },
                    None => (ScrapeStage::Over, ScrapeAction::GiveUp),
                }
            },
        }
    }

    /// Whether a scrape can be recorded.
    pub fn can_record(&self, parsed: &ParsedMetrics) -> (r: bool)
        ensures
            r == can_map(parsed, self@.generation, self@.prompt),
    {
        scrape_fits(parsed, &self.avg_accum, &self.avg_prompt_accum)
    }

    /// The metrics of a scrape whose body has been read, or nothing where the
    /// body was no exposition text. A scrape moves the running averages on and
    /// leaves its counters for the next one to compare with.
    pub fn get_metrics(&mut self, parsed: Option<&ParsedMetrics>) -> (r: Option<EngineMetrics>)
        requires
            parsed matches Some(p) ==> can_map(p, old(self)@.generation, old(self)@.prompt),
        ensures
            final(self).http_client() == old(self).http_client(),
            match parsed {
                Some(p) => {
                    &&& r matches Some(m) && is_mapping(
                        m,
                        p,
                        old(self)@.previous,
                        old(self)@.generation,
                        old(self)@.prompt,
                    )
                    &&& final(self)@ == after_scrape(old(self)@, p)
                },
                None => r is None && final(self)@ == old(self)@,
            },
    {
        match parsed {
            Some(p) => {
                let previous: Option<Snapshot> = self.prev_spec_decode;
                let (metrics, next): (EngineMetrics, Option<Snapshot>) = map_metrics(
                    p,
                    previous,
                    &mut self.avg_accum,
                    &mut self.avg_prompt_accum,
                );
                self.prev_spec_decode = next;
                Some(metrics)
            },
            None => None,
        }
    }
}

} // verus!
