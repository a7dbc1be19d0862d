//! What holds of the requests and of the names that an adapter deals in.
use vstd::prelude::*;
use vstd::utf8::{encode_utf8, is_ascii_chars_encode_utf8};

use crate::adapter::{
    after_scrape, can_happen, is_pinned, is_step, metrics_address, pinned_model, scrape_url, text_of,
    Knowledge, ScrapeAction, ScrapeEvent, ScrapeStage,
};
use crate::http::{
    before_fragment, form_bytes, form_encoded, is_unqueried, success, url_text, with_pair, Reply,
};
use crate::metrics::{is_mapping, live_rate, scraped_snapshot, EngineMetrics};
use crate::model::{hint_shown, shown_id, ModelMetadataError};
use crate::query::{
    form_pairs, law_encoding_is_read_back, law_pair_is_added, lemma_before_first_absent,
    lemma_before_first_bound, query_of, without_query,
};
use crate::samples::ParsedMetrics;
use crate::text::{after_last, begins_with};

verus! {

/// How many events a scrape can still wait for.
pub open spec fn events_left(stage: ScrapeStage) -> nat {
    match stage {
        ScrapeStage::First => 3,
        ScrapeStage::Models => 2,
        ScrapeStage::Retry => 1,
        ScrapeStage::Over => 0,
    }
}

/// A scrape comes to an end: each event brings it nearer, and what is done
/// then sends a request exactly where one is to be waited for.
pub proof fn law_scrape_ends(
    k: Knowledge,
    stage: ScrapeStage,
    event: ScrapeEvent,
    next: ScrapeStage,
    action: ScrapeAction,
)
    requires
        can_happen(stage, event),
        is_step(k, stage, event, next, action),
    ensures
        events_left(next) < events_left(stage),
        next is Over <==> !(action is Get || action is AskModels),
{
}

/// There is one retry at most: a request for metrics goes out only after the
/// list of models was asked for, and that happens after the first reply only.
pub proof fn law_scrape_is_retried_once(
    k: Knowledge,
    stage: ScrapeStage,
    event: ScrapeEvent,
    next: ScrapeStage,
    action: ScrapeAction,
)
    requires
        can_happen(stage, event),
        is_step(k, stage, event, next, action),
    ensures
        action is Get ==> stage is Models && next is Retry,
        action is AskModels ==> stage is First && next is Models,
        stage is Retry ==> next is Over,
{
}

/// A body is read only of a response whose status is a success.
pub proof fn law_body_is_read_on_success_only(
    k: Knowledge,
    stage: ScrapeStage,
    event: ScrapeEvent,
    next: ScrapeStage,
    action: ScrapeAction,
)
    requires
        can_happen(stage, event),
        is_step(k, stage, event, next, action),
    ensures
        action is ReadBody <==> (event matches ScrapeEvent::Metrics(Reply::Status(status))
            && success(status)),
{
}

/// Every request of a scrape carries the adapter's key, and none carries one
/// where the adapter has none.
pub proof fn law_requests_carry_the_key(
    k: Knowledge,
    stage: ScrapeStage,
    event: ScrapeEvent,
    next: ScrapeStage,
    action: ScrapeAction,
)
    requires
        can_happen(stage, event),
        is_step(k, stage, event, next, action),
    ensures
        action matches ScrapeAction::Get(request) ==> text_of(request.bearer) == k.api_key,
        action matches ScrapeAction::AskModels(request) ==> text_of(request.bearer) == k.api_key,
{
}

/// The engine's own id wins over the hint, for the name that is shown and for
/// the model that a scrape is pinned to.
pub proof fn law_own_id_wins(
    k: Knowledge,
    id: String,
    hint: Option<Seq<char>>,
)
    ensures
        shown_id(Ok(id), hint) == Some(id@),
        pinned_model(k, Ok(id)) == Some(id@),
{
}

/// Without an id of its own, an engine goes by the hint, and where there is
/// none it goes by no name.
pub proof fn law_hint_stands_in(
    k: Knowledge,
    error: ModelMetadataError,
    hint: Option<Seq<char>>,
)
    ensures
        shown_id(Err(error), hint) is Some <==> hint is Some,
        hint matches Some(h) ==> shown_id(Err(error), hint) == Some(hint_shown(h)),
        pinned_model(k, Err(error)) == k.model_hint,
{
}

/// What a scrape is compared with is the scrape before it.
pub proof fn law_live_rate_is_since_the_last_scrape(
    k: Knowledge,
    first: &ParsedMetrics,
    second: &ParsedMetrics,
    m: EngineMetrics,
)
    requires
        is_mapping(
            m,
            second,
            after_scrape(k, first).previous,
            after_scrape(k, first).generation,
            after_scrape(k, first).prompt,
        ),
    ensures
        m.spec_decode_acceptance_rate_live == live_rate(
            scraped_snapshot(second),
            scraped_snapshot(first),
        ),
{
}

pub proof fn lemma_after_last(s: Seq<char>, separator: char)
    ensures
        !after_last(s, separator).contains(separator),
        after_last(s, separator).len() <= s.len(),
        after_last(s, separator) == s.subrange(
            s.len() - after_last(s, separator).len(),
            s.len() as int,
        ),
        after_last(s, separator).len() < s.len() ==> s[s.len() - after_last(s, separator).len() - 1]
            == separator,
    decreases s.len(),
{
    if s.len() == 0 || s.last() == separator {
        assert(after_last(s, separator) =~= s.subrange(s.len() as int, s.len() as int));
    } else {
        let rest = s.drop_last();
        lemma_after_last(rest, separator);
        let shown = after_last(s, separator);
        assert(shown =~= s.subrange(s.len() - shown.len(), s.len() as int));
        assert forall|i: int| 0 <= i < shown.len() implies shown[i] != separator by {
            if i < shown.len() - 1 {
                assert(after_last(rest, separator).contains(after_last(rest, separator)[i]));
            }
        }
    }
}

/// A path is shown by its file: the end of the path, without a slash, and
/// nothing shorter than what follows the last slash.
pub proof fn law_path_is_shown_by_its_file(hint: Seq<char>)
    requires
        !begins_with(hint, "hf:"@),
    ensures
        !hint_shown(hint).contains('/'),
        hint_shown(hint).len() <= hint.len(),
        hint_shown(hint) == hint.subrange(hint.len() - hint_shown(hint).len(), hint.len() as int),
        hint_shown(hint).len() < hint.len() ==> hint[hint.len() - hint_shown(hint).len() - 1]
            == '/',
        !hint.contains('/') ==> hint_shown(hint) == hint,
{
    lemma_after_last(hint, '/');
    if !hint.contains('/') {
        let n = hint_shown(hint).len();
        if n < hint.len() {
            assert(hint.contains(hint[hint.len() - n - 1]));
        }
        assert(hint.subrange(0, hint.len() as int) =~= hint);
    }
}

/// A repository id is kept whole: only its marker is dropped.
pub proof fn law_repository_is_kept_whole(repository: Seq<char>)
    ensures
        hint_shown("hf:"@ + repository) == repository,
{
    reveal_strlit("hf:");
    let hint = "hf:"@ + repository;
    assert(hint.subrange(0, 3) =~= "hf:"@);
    assert(hint.subrange(3, hint.len() as int) =~= repository);
}

/// The name of the query parameter needs no encoding.
proof fn lemma_model_parameter()
    ensures
        form_encoded("model"@) == "model"@,
{
    reveal_strlit("model");
    let name = "model"@;
    is_ascii_chars_encode_utf8(name);
    let bytes = encode_utf8(name);
    assert(bytes =~= seq!['m' as u8, 'o' as u8, 'd' as u8, 'e' as u8, 'l' as u8]);
    reveal_with_fuel(form_bytes, 6);
    assert(form_bytes(bytes) =~= name);
}

/// Pinning a scrape to a model adds the model, in form encoding, to the end of
/// the bare URL, where that has no query and no fragment.
pub proof fn law_pinned_url_extends_the_bare_one(k: Knowledge, model: Seq<char>)
    requires
        url_text(metrics_address(k)) is Some,
        is_unqueried(scrape_url(k, None)),
    ensures
        scrape_url(k, Some(model)) == scrape_url(k, None) + "?model="@ + form_encoded(model),
{
    let text = scrape_url(k, None);
    lemma_before_first_absent(text, '#');
    lemma_before_first_absent(text, '?');
    assert(text.subrange(0, text.len() as int) =~= text);
    lemma_model_parameter();
    reveal_strlit("?model=");
    reveal_strlit("model");
    assert(seq!['?'] + "model"@ + seq!['='] =~= "?model="@);
    assert(with_pair(text, "model"@, model) =~= text + "?model="@ + form_encoded(model));
}

/// Pinning a scrape to a model adds one pair to the query, the model under its
/// name, and leaves the rest of the bare URL as it is.
pub proof fn law_pinned_url_adds_the_model(k: Knowledge, model: Seq<char>)
    requires
        url_text(metrics_address(k)) is Some,
    ensures
        form_pairs(query_of(scrape_url(k, Some(model)))) == form_pairs(
            query_of(scrape_url(k, None)),
        ).push(("model"@, model)),
        without_query(scrape_url(k, Some(model))) == without_query(scrape_url(k, None)),
{
    law_pair_is_added(scrape_url(k, None), "model"@, model);
}

/// Where the bare URL has neither a query nor a fragment, the query of a
/// pinned one writes the model and nothing else, and the rest of it is the
/// bare one.
pub proof fn law_pinned_url_writes_the_model(k: Knowledge, model: Seq<char>)
    requires
        url_text(metrics_address(k)) is Some,
        is_unqueried(scrape_url(k, None)),
    ensures
        is_pinned(k, scrape_url(k, Some(model)), model),
        form_pairs(query_of(scrape_url(k, Some(model)))) == seq![("model"@, model)],
        without_query(scrape_url(k, Some(model))) == scrape_url(k, None),
{
    let bare = scrape_url(k, None);
    law_pinned_url_adds_the_model(k, model);
    lemma_before_first_absent(bare, '#');
    assert(bare.subrange(0, bare.len() as int) =~= bare);
    lemma_before_first_absent(bare, '?');
    assert(without_query(bare) =~= bare);
    assert(form_pairs(query_of(bare)).push(("model"@, model)) =~= seq![("model"@, model)]);
}

/// No name is lost in form encoding: two names with one encoding are one.
pub proof fn law_encoding_keeps_names_apart(a: Seq<char>, b: Seq<char>)
    requires
        form_encoded(a) == form_encoded(b),
    ensures
        a == b,
{
    law_encoding_is_read_back(a);
    law_encoding_is_read_back(b);
}

/// Two models are scraped at two URLs.
pub proof fn law_models_have_urls_of_their_own(k: Knowledge, a: Seq<char>, b: Seq<char>)
    requires
        url_text(metrics_address(k)) is Some,
        scrape_url(k, Some(a)) == scrape_url(k, Some(b)),
    ensures
        a == b,
{
    let text = scrape_url(k, None);
    let url_a = scrape_url(k, Some(a));
    let url_b = scrape_url(k, Some(b));
    lemma_before_first_bound(text, '#');
    let tail = text.subrange(before_fragment(text).len() as int, text.len() as int);
    let code_a = form_encoded(a);
    let code_b = form_encoded(b);
    let n = url_a.len() - code_a.len() - tail.len();
    assert(code_a.len() == code_b.len());
    assert(code_a =~= url_a.subrange(n, n + code_a.len()));
    assert(code_b =~= url_b.subrange(n, n + code_b.len()));
    law_encoding_keeps_names_apart(a, b);
}

} // verus!
