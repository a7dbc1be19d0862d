//! What the requests to an engine ask, and what its answers come to.
use vstd::prelude::*;
use vstd::utf8::encode_utf8;

use crate::adapter::{
    after_scrape, can_be_pinned, can_happen, scrape_url, EngineStatus, Knowledge, LlamaAdapter,
    ScrapeAction, ScrapeEvent, ScrapeStage,
};
use crate::exposition::exposition_text;
use crate::http::{
    before_fragment, form_bytes, form_encoded, has_room, is_success, status_digits, status_phrase,
    url_text, HttpGet, Reply,
};
use crate::metrics::accumulated;
use crate::model::{
    classify_models_error_status, display_model_hint, hint_shown, models_reply, ModelInfo,
    ModelMetadataError, ModelResolution, ModelsReply,
};
use crate::position_laws::{digits_in_order, in_base_ten};
use crate::query::lemma_before_first_bound;
use crate::request_laws::lemma_after_last;
use crate::samples::{lookup, ParsedMetrics};

verus! {

/// A status is a success exactly from 200 to 299.
pub proof fn law_success_is_in_the_two_hundreds(status: u16, r: bool)
    requires
        call_ensures(is_success, (status,), r),
    ensures
        r <==> 200 <= status <= 299,
{
}

/// An engine that wants a key says so with 401 or 403, and with no other
/// status.
pub proof fn law_rejection_asks_for_a_key(status: u16, r: ModelMetadataError)
    requires
        call_ensures(classify_models_error_status, (status,), r),
    ensures
        r is AuthRequired <==> status == 401 || status == 403,
{
}

/// The model is the first id of a list that came with a success, where that id
/// is not empty, whatever follows it and also where nothing does. Without such
/// an id there is an error: a rejected request for want of a key is told apart
/// from everything else.
pub proof fn law_first_id_is_the_model(reply: ModelsReply, r: Result<String, ModelMetadataError>)
    requires
        call_ensures(models_reply, (reply,), r),
    ensures
        match reply {
            ModelsReply::Failed => r matches Err(error) && error is Unavailable,
            ModelsReply::Answered(status, ids) => if 200 <= status <= 299 {
                match ids {
                    Some(list) => if list@.len() >= 1 && list@[0]@.len() >= 1 {
                        r matches Ok(id) && id@ == list@[0]@
                    } else {
                        r matches Err(error) && error is Unavailable
                    },
                    None => r matches Err(error) && error is Unavailable,
                }
            } else {
                r matches Err(error) && (error is AuthRequired <==> status == 401 || status == 403)
            },
        },
{
}

/// Ids behind the first change nothing.
pub proof fn law_later_ids_change_nothing(
    status: u16,
    short: Vec<String>,
    long: Vec<String>,
    r: Result<String, ModelMetadataError>,
    s: Result<String, ModelMetadataError>,
)
    requires
        short@.len() == 1,
        long@.len() >= 1,
        short@[0]@ == long@[0]@,
        call_ensures(models_reply, (ModelsReply::Answered(status, Some(short)),), r),
        call_ensures(models_reply, (ModelsReply::Answered(status, Some(long)),), s),
    ensures
        match (r, s) {
            (Ok(a), Ok(b)) => a@ == short@[0]@ && b@ == short@[0]@,
            (Err(a), Err(b)) => a == b,
            _ => false,
        },
{
}

/// Whether a hint carries the id of a repository.
pub open spec fn is_repository(hint: Seq<char>) -> bool {
    hint.len() >= 3 && hint[0] == 'h' && hint[1] == 'f' && hint[2] == ':'
}

/// Whether `shown` is what is shown of a hint: all that follows the marker of
/// a repository, or else the end of the hint that no slash is in and that a
/// slash or nothing comes before.
pub open spec fn is_shown(hint: Seq<char>, shown: Seq<char>) -> bool {
    if is_repository(hint) {
        hint == seq!['h', 'f', ':'] + shown
    } else {
        &&& !shown.contains('/')
        &&& shown.len() <= hint.len()
        &&& shown == hint.subrange(hint.len() - shown.len(), hint.len() as int)
        &&& shown.len() < hint.len() ==> hint[hint.len() - shown.len() - 1] == '/'
    }
}

proof fn lemma_shown(hint: Seq<char>)
    ensures
        is_shown(hint, hint_shown(hint)),
{
    reveal_strlit("hf:");
    assert("hf:"@ =~= seq!['h', 'f', ':']);
    lemma_after_last(hint, '/');
    if is_repository(hint) {
        assert(hint.subrange(0, 3) =~= "hf:"@);
        assert(hint =~= seq!['h', 'f', ':'] + hint.subrange(3, hint.len() as int));
    } else if hint.len() >= 3 && hint.subrange(0, 3) == "hf:"@ {
        assert(hint.subrange(0, 3)[0] == 'h' && hint.subrange(0, 3)[1] == 'f' && hint.subrange(
            0,
            3,
        )[2] == ':');
    }
}

/// A hint is shown by its file or its repository.
pub proof fn law_hint_is_shown_by_its_end(hint: &str, r: String)
    requires
        call_ensures(display_model_hint, (hint,), r),
    ensures
        is_shown(hint@, r@),
{
    lemma_shown(hint@);
}

/// Whether `info` holds a name that `normalize` gives for an id, and nothing
/// else.
pub open spec fn is_named<N: Fn(&str) -> String>(
    normalize: N,
    id: Seq<char>,
    info: ModelInfo,
) -> bool {
    &&& exists|s: &str| s@ == id && #[trigger] call_ensures(normalize, (s,), info.name)
    &&& info.parameter_size is None && info.quantization is None && info.precision is None
    &&& info.tensor_type is None && info.model_type is None && info.pipeline_tag is None
}

/// A model goes by the engine's own id, without an error; or else by what is
/// shown of the hint, with the error; or by no name where there is no hint.
pub proof fn law_model_goes_by_its_id_or_its_hint<N: Fn(&str) -> String>(
    a: &LlamaAdapter,
    reply: Result<String, ModelMetadataError>,
    normalize: N,
    r: ModelResolution,
)
    requires
        call_ensures(LlamaAdapter::get_model_info::<N>, (a, reply, normalize), r),
    ensures
        match reply {
            Ok(id) => r.metadata_error is None && (r.model matches Some(info) && is_named(
                normalize,
                id@,
                info,
            )),
            Err(error) => r.metadata_error == Some(error) && match a@.model_hint {
                Some(hint) => r.model matches Some(info) && exists|shown: Seq<char>| #[trigger]
                    is_shown(hint, shown) && is_named(normalize, shown, info),
                None => r.model is None,
            },
        },
{
    if reply is Err {
        if let Some(hint) = a@.model_hint {
            lemma_shown(hint);
            assert(is_shown(hint, hint_shown(hint)) && is_named(
                normalize,
                hint_shown(hint),
                r.model->0,
            ));
        }
    }
}

proof fn lemma_status_digits(status: u16)
    requires
        100 <= status <= 999,
    ensures
        status_digits(status) == in_base_ten(status as nat) + " "@,
{
    reveal_strlit(" ");
    let n = status as nat;
    let all = digits_in_order();
    reveal_with_fuel(in_base_ten, 3);
    assert(in_base_ten(n) == seq![all[n as int / 10 / 10]].push(all[n as int / 10 % 10]).push(
        all[n as int % 10],
    ));
    assert(n / 10 / 10 == n / 100);
    assert(status_digits(status) =~= in_base_ten(n) + " "@);
}

/// An engine is up where it answers with a success; another answer is told by
/// its status, in base ten and with its phrase, and no answer by the reason.
pub proof fn law_health_follows_the_answer(reply: Reply, r: EngineStatus)
    requires
        reply matches Reply::Status(status) ==> 100 <= status <= 999,
        call_ensures(LlamaAdapter::health_check, (reply,), r),
    ensures
        match reply {
            Reply::Failed(reason) => r == EngineStatus::Error(reason),
            Reply::Status(status) => if 200 <= status <= 299 {
                r is Running
            } else {
                r matches EngineStatus::Error(text) && text@ == "HTTP "@ + in_base_ten(
                    status as nat,
                ) + " "@ + status_phrase(status)
            },
        },
{
    if let Reply::Status(status) = reply {
        lemma_status_digits(status);
        assert("HTTP "@ + status_digits(status) + status_phrase(status) =~= "HTTP "@ + in_base_ten(
            status as nat,
        ) + " "@ + status_phrase(status));
    }
}

/// An adapter knows what it was made with, and has heard nothing yet.
pub proof fn law_adapter_knows_what_it_was_made_with(
    client: reqwest::Client,
    endpoint: String,
    model_hint: Option<String>,
    api_key: Option<String>,
    r: LlamaAdapter,
)
    requires
        call_ensures(LlamaAdapter::new, (client, endpoint, model_hint, api_key), r),
    ensures
        r@.endpoint == endpoint@,
        model_hint matches Some(hint) ==> r@.model_hint == Some(hint@),
        model_hint is None ==> r@.model_hint is None,
        api_key matches Some(key) ==> r@.api_key == Some(key@),
        api_key is None ==> r@.api_key is None,
        r@.previous is None,
        r@.generation.1 == 0 && r@.generation.0.bits == 0,
        r@.prompt.1 == 0 && r@.prompt.0.bits == 0,
{
}

/// Whether a request goes to `url`, waits so long, and carries the key of the
/// adapter, or none where it has none.
pub open spec fn asks(k: Knowledge, request: HttpGet, url: Seq<char>, secs: u64) -> bool {
    &&& request.url@ == url
    &&& request.timeout_secs == secs
    &&& match (request.bearer, k.api_key) {
        (Some(bearer), Some(key)) => bearer@ == key,
        (None, None) => true,
        _ => false,
    }
}

/// Whether `url` is where a bare scrape goes: the URL that the endpoint and
/// the path of the metrics write, or those as they are where they write none.
pub open spec fn is_scraped_at(k: Knowledge, url: Seq<char>) -> bool {
    match url_text(k.endpoint + "/metrics"@) {
        Some(text) => url == text,
        None => url == k.endpoint + "/metrics"@,
    }
}

/// The health of an engine is asked for at `/health`, for two seconds.
pub proof fn law_health_is_asked_for(a: &LlamaAdapter, r: HttpGet)
    requires
        call_ensures(LlamaAdapter::health_request, (a,), r),
    ensures
        asks(a@, r, a@.endpoint + "/health"@, 2),
{
}

/// The models of an engine are asked for at `/v1/models`, for two seconds.
pub proof fn law_models_are_asked_for(a: &LlamaAdapter, r: HttpGet)
    requires
        call_ensures(LlamaAdapter::models_request, (a,), r),
    ensures
        asks(a@, r, a@.endpoint + "/v1/models"@, 2),
{
}

/// The metrics of an engine are asked for at `/metrics`, for five seconds.
pub proof fn law_metrics_are_asked_for(a: &LlamaAdapter, r: HttpGet)
    requires
        a@.endpoint.len() + 8 <= 0x7fff_ffff,
        call_ensures(LlamaAdapter::scrape_request, (a,), r),
    ensures
        is_scraped_at(a@, r.url@),
        asks(a@, r, r.url@, 5),
{
}

/// A key is put on a request, and nothing else is touched.
pub proof fn law_key_is_put_on_requests(a: &LlamaAdapter, request: HttpGet, r: HttpGet)
    requires
        call_ensures(LlamaAdapter::auth, (a, request), r),
    ensures
        r.url == request.url,
        r.timeout_secs == request.timeout_secs,
        a@.api_key matches Some(key) ==> (r.bearer matches Some(bearer) && bearer@ == key),
        a@.api_key is None ==> match (r.bearer, request.bearer) {
            (Some(after), Some(before)) => after@ == before@,
            (None, None) => true,
            _ => false,
        },
{
}

/// A bare URL of a scrape is what the endpoint writes, and so is a pinned one
/// where the endpoint writes no URL.
pub proof fn law_url_is_of_the_endpoint(a: &LlamaAdapter, model: Option<&str>, r: String)
    requires
        a@.endpoint.len() + 8 <= 0x7fff_ffff,
        call_ensures(LlamaAdapter::metrics_url, (a, model), r),
    ensures
        model is None ==> is_scraped_at(a@, r@),
        url_text(a@.endpoint + "/metrics"@) is None ==> r@ == a@.endpoint + "/metrics"@,
{
}

/// A pinned URL is given exactly where there is room for it.
pub proof fn law_pinned_url_is_given_where_it_fits(a: &LlamaAdapter, model: &str, r: Option<String>)
    requires
        call_ensures(LlamaAdapter::checked_metrics_url, (a, model), r),
    ensures
        r is Some <==> can_be_pinned(a@, model@),
        r matches Some(url) ==> url@ == scrape_url(a@, Some(model@)),
{
}

/// The course of a scrape. A response that is a success is read. After any
/// other the list of models is asked for, once, and the scrape is tried again
/// with the engine's own id or else the hint. No response, no name, or a
/// second response that is no success is the end of it.
pub proof fn law_course_of_a_scrape(
    a: &LlamaAdapter,
    stage: ScrapeStage,
    event: ScrapeEvent,
    r: (ScrapeStage, ScrapeAction),
)
    requires
        can_happen(stage, event),
        call_ensures(LlamaAdapter::scrape_step, (a, stage, event), r),
    ensures
        match event {
            ScrapeEvent::Metrics(Reply::Failed(_)) => r.0 is Over && r.1 is GiveUp,
            ScrapeEvent::Metrics(Reply::Status(status)) => if 200 <= status <= 299 {
                r.0 is Over && r.1 is ReadBody
            } else if stage is First {
                r.0 is Models && (r.1 matches ScrapeAction::AskModels(request) && asks(
                    a@,
                    request,
                    a@.endpoint + "/v1/models"@,
                    2,
                ))
            } else {
                r.0 is Over && r.1 is GiveUp
            },
            ScrapeEvent::Models(models) => {
                let model = match models {
                    Ok(id) => Some(id@),
                    Err(_) => a@.model_hint,
                };
                match model {
                    None => r.0 is Over && r.1 is GiveUp,
                    Some(m) => if can_be_pinned(a@, m) {
                        r.0 is Retry && (r.1 matches ScrapeAction::Get(request) && asks(
                            a@,
                            request,
                            scrape_url(a@, Some(m)),
                            5,
                        ))
                    } else {
                        r.0 is Over && r.1 is NoRoom
                    },
                }
            },
        },
{
}

/// Which events can happen at a stage: those of the request that is out.
pub proof fn law_events_are_of_the_request(stage: ScrapeStage, event: ScrapeEvent)
    ensures
        can_happen(stage, event) <==> match event {
            ScrapeEvent::Metrics(_) => stage is First || stage is Retry,
            ScrapeEvent::Models(_) => stage is Models,
        },
{
}

proof fn lemma_encoded_length(bytes: Seq<u8>)
    ensures
        bytes.len() <= form_bytes(bytes).len() <= 3 * bytes.len(),
    decreases bytes.len(),
{
    if bytes.len() > 0 {
        lemma_encoded_length(bytes.subrange(1, bytes.len() as int));
    }
}

proof fn lemma_bytes_of_start(s: Seq<char>, n: int)
    requires
        0 <= n <= s.len(),
    ensures
        encode_utf8(s.subrange(0, n)).len() <= encode_utf8(s).len(),
    decreases n,
{
    if n > 0 {
        let start = s.subrange(0, n);
        assert(start.drop_first() =~= s.drop_first().subrange(0, n - 1));
        lemma_bytes_of_start(s.drop_first(), n - 1);
    }
}

/// There is room for every name that, at three bytes for each of its own and
/// with the rest of the URL, stays below two gigabytes.
pub proof fn law_ordinary_names_have_room(k: Knowledge, model: Seq<char>)
    requires
        k.endpoint.len() + 8 <= 0x7fff_ffff,
        url_text(k.endpoint + "/metrics"@) matches Some(text) ==> encode_utf8(text).len() + 3
            * encode_utf8(model).len() + 17 <= 0x7fff_ffff,
    ensures
        can_be_pinned(k, model),
{
    reveal_strlit("/metrics");
    reveal_strlit("model");
    if let Some(text) = url_text(k.endpoint + "/metrics"@) {
        let head = before_fragment(text);
        lemma_before_first_bound(text, '#');
        lemma_bytes_of_start(text, head.len() as int);
        vstd::utf8::is_ascii_chars_encode_utf8("model"@);
        lemma_encoded_length(encode_utf8("model"@));
        lemma_encoded_length(encode_utf8(model));
        assert(form_encoded("model"@).len() <= 15);
        assert(has_room(text, "model"@, model));
    }
}

/// What is known after a scrape: the same engine, both counters of the scrape,
/// and the averages that have heard it.
pub proof fn law_scrape_is_remembered(k: Knowledge, parsed: &ParsedMetrics)
    ensures
        ({
            let after = after_scrape(k, parsed);
            let accepted = lookup(
                parsed.counters@,
                "llamacpp_spec_decode_num_accepted_tokens_total"@,
            );
            let draft = lookup(parsed.counters@, "llamacpp_spec_decode_num_draft_tokens_total"@);
            &&& after.endpoint == k.endpoint
            &&& after.api_key == k.api_key
            &&& after.model_hint == k.model_hint
            &&& after.previous == match (accepted, draft) {
                (Some(a), Some(d)) => Some((a, d)),
                _ => None,
            }
            &&& after.generation == accumulated(
                k.generation,
                lookup(parsed.gauges@, "llamacpp_predicted_tokens_seconds"@),
            )
            &&& after.prompt == accumulated(
                k.prompt,
                lookup(parsed.gauges@, "llamacpp_prompt_tokens_seconds"@),
            )
        }),
{
}

/// Whether a character is blank.
pub open spec fn is_blank(c: char) -> bool {
    c == ' ' || c == '\t' || c == '\n' || c == '\r'
}

/// Whether text is blank up to a brace.
pub open spec fn opens_an_object(s: Seq<char>, at: int) -> bool {
    &&& 0 <= at < s.len()
    &&& s[at] == '{'
    &&& forall|j: int| 0 <= j < at ==> is_blank(#[trigger] s[j])
}

/// Whether the colon at `i` ends the reserved prefix.
pub open spec fn ends_reserved(s: Seq<char>, i: int) -> bool {
    s[i] == ':' && i >= 8 && s.subrange(i - 8, i) == "llamacpp"@
}

/// A body that opens an object is no exposition text. Of any other body each
/// colon that ends the reserved prefix becomes an underscore, and nothing else
/// changes.
pub proof fn law_only_reserved_colons_change(body: &str, r: Option<String>, i: int)
    requires
        call_ensures(exposition_text, (body,), r),
    ensures
        opens_an_object(body@, i) ==> r is None,
        r is None ==> exists|at: int| opens_an_object(body@, at),
        r matches Some(text) ==> {
            &&& text@.len() == body@.len()
            &&& 0 <= i < body@.len() ==> text@[i] == (if ends_reserved(body@, i) {
                '_'
            } else {
                body@[i]
            })
        },
{
    let s = body@;
    reveal_strlit("llamacpp");
    if opens_an_object(s, i) {
        assert(s[i] == '{' && forall|j: int|
            0 <= j < i ==> crate::exposition::is_space(#[trigger] s[j]));
    }
    if r is None {
        let at = choose|at: int|
            0 <= at < s.len() && #[trigger] s[at] == '{' && forall|j: int|
                0 <= j < at ==> crate::exposition::is_space(#[trigger] s[j]);
        assert(opens_an_object(s, at));
    }
    if 8 <= i < s.len() {
        let rest = s.subrange(i - 8, s.len() as int);
        assert(rest.subrange(0, 8) =~= s.subrange(i - 8, i));
    }
}

} // verus!
