//! Model discovery: the URL of the listing, the order of the listed
//! models, and the decision between the frequency map and the network.

use vstd::prelude::*;
use vstd::seq_lib::{
    to_multiset_build, to_multiset_contains, to_multiset_insert, to_multiset_len, to_multiset_remove,
};
use vstd::string::{StrSliceExecFns, StringExecFns};
use vstd::utf8::encode_utf8;
use crate::error::{is_success, is_success_status, ServiceError};
use crate::frequency::{is_available_list, with_known, FrequencyMap};
use crate::models::{listed_ids, AvailableModelsResponse, ModelFrequency, ModelsResponse};
use crate::text::{lemma_encode_utf8_injective, text_views};

verus! {

/// Whether `a` stands before `b`, or is `b`, in the order by bytes: at
/// the first place where they differ `a` has the smaller byte, or `a` ends
/// there.
pub open spec fn lex_le(a: Seq<u8>, b: Seq<u8>) -> bool
    decreases a.len(),
{
    if a.len() == 0 {
        true
    } else if b.len() == 0 {
        false
    } else if a[0] != b[0] {
        a[0] < b[0]
    } else {
        lex_le(a.skip(1), b.skip(1))
    }
}

/// Whether the text `a` stands before `b`, or is `b`, in the order in
/// which strings are sorted: the order of their UTF-8 bytes.
pub open spec fn text_le(a: Seq<char>, b: Seq<char>) -> bool {
    lex_le(encode_utf8(a), encode_utf8(b))
}

/// Whether `texts` stand in ascending order.
pub open spec fn is_sorted(texts: Seq<Seq<char>>) -> bool {
    forall|i: int, j: int| 0 <= i < j < texts.len() ==> #[trigger] text_le(texts[i], texts[j])
}

/// Of two byte strings one stands before the other, or they are equal.
pub proof fn lemma_lex_le_total(a: Seq<u8>, b: Seq<u8>)
    ensures
        lex_le(a, b) || lex_le(b, a),
    decreases a.len(),
{
    if a.len() > 0 && b.len() > 0 && a[0] == b[0] {
        lemma_lex_le_total(a.skip(1), b.skip(1));
    }
}

/// The order by bytes is transitive.
pub proof fn lemma_lex_le_transitive(a: Seq<u8>, b: Seq<u8>, c: Seq<u8>)
    requires
        lex_le(a, b),
        lex_le(b, c),
    ensures
        lex_le(a, c),
    decreases a.len(),
{
    if a.len() > 0 && b.len() > 0 && c.len() > 0 && a[0] == b[0] && b[0] == c[0] {
        lemma_lex_le_transitive(a.skip(1), b.skip(1), c.skip(1));
    }
}

/// Two byte strings that stand each before the other are equal.
pub proof fn lemma_lex_le_antisymmetric(a: Seq<u8>, b: Seq<u8>)
    requires
        lex_le(a, b),
        lex_le(b, a),
    ensures
        a == b,
    decreases a.len(),
{
    if a.len() == 0 || b.len() == 0 {
        assert(a =~= b);
    } else {
        lemma_lex_le_antisymmetric(a.skip(1), b.skip(1));
        assert(a =~= seq![a[0]] + a.skip(1));
        assert(b =~= seq![b[0]] + b.skip(1));
    }
}

/// Identifiers have one ascending order: two sorted sequences that hold
/// the same identifiers, each as often as the other, are equal.
pub proof fn lemma_sorted_unique(x: Seq<Seq<char>>, y: Seq<Seq<char>>)
    requires
        is_sorted(x),
        is_sorted(y),
        x.to_multiset() == y.to_multiset(),
    ensures
        x == y,
    decreases x.len(),
{
    to_multiset_len(x);
    to_multiset_len(y);
    if x.len() == 0 {
        assert(x =~= y);
    } else {
        assert(x.contains(x[0]));
        assert(y.contains(y[0]));
        to_multiset_contains(x, x[0]);
        to_multiset_contains(y, x[0]);
        to_multiset_contains(x, y[0]);
        to_multiset_contains(y, y[0]);
        let p = choose|p: int| 0 <= p < y.len() && y[p] == x[0];
        let q = choose|q: int| 0 <= q < x.len() && x[q] == y[0];
        lemma_lex_le_total(encode_utf8(x[0]), encode_utf8(x[0]));
        lemma_lex_le_total(encode_utf8(y[0]), encode_utf8(y[0]));
        if p > 0 {
            assert(text_le(y[0], y[p]));
        }
        if q > 0 {
            assert(text_le(x[0], x[q]));
        }
        assert(text_le(y[0], x[0]) && text_le(x[0], y[0]));
        lemma_lex_le_antisymmetric(encode_utf8(x[0]), encode_utf8(y[0]));
        lemma_encode_utf8_injective(x[0], y[0]);
        let xs = x.skip(1);
        let ys = y.skip(1);
        assert(xs =~= x.remove(0));
        assert(ys =~= y.remove(0));
        to_multiset_remove(x, 0);
        to_multiset_remove(y, 0);
        assert forall|i: int, j: int| 0 <= i < j < xs.len() implies #[trigger] text_le(
            xs[i],
            xs[j],
        ) by {
            assert(text_le(x[i + 1], x[j + 1]));
        }
        assert forall|i: int, j: int| 0 <= i < j < ys.len() implies #[trigger] text_le(
            ys[i],
            ys[j],
        ) by {
            assert(text_le(y[i + 1], y[j + 1]));
        }
        lemma_sorted_unique(xs, ys);
        assert(x =~= seq![x[0]] + xs);
        assert(y =~= seq![y[0]] + ys);
    }
}

/// Tells whether `a` stands before `b`, or is `b`, in the order by bytes.
pub fn bytes_le(a: &[u8], b: &[u8]) -> (le: bool)
    ensures
        le == lex_le(a@, b@),
{
    let mut i: usize = 0;
    assert(a@.skip(0) =~= a@ && b@.skip(0) =~= b@);
    while i < a.len() && i < b.len()
        invariant
            i <= a.len(),
            i <= b.len(),
            lex_le(a@, b@) == lex_le(a@.skip(i as int), b@.skip(i as int)),
        decreases a.len() - i,
    {
        if a[i] != b[i] {
            return a[i] < b[i];
        }
        assert(a@.skip(i as int).skip(1) =~= a@.skip(i + 1));
        assert(b@.skip(i as int).skip(1) =~= b@.skip(i + 1));
        i = i + 1;
    }
    i == a.len()
}

/// Sorts model identifiers in ascending order. The result holds the same
/// identifiers, each as often as `ids` does.
pub fn sort_models(ids: &Vec<String>) -> (sorted: Vec<String>)
    ensures
        is_sorted(text_views(sorted@)),
        text_views(sorted@).to_multiset() == text_views(ids@).to_multiset(),
{
    let mut sorted: Vec<String> = Vec::new();
    let mut i: usize = 0;
    assert(text_views(ids@).take(0) =~= Seq::<Seq<char>>::empty());
    assert(text_views(sorted@) =~= Seq::<Seq<char>>::empty());
    while i < ids.len()
        invariant
            i <= ids.len(),
            is_sorted(text_views(sorted@)),
            text_views(sorted@).to_multiset() == text_views(ids@).take(i as int).to_multiset(),
        decreases ids.len() - i,
    {
        let id = ids[i].clone();
        let mut at: usize = 0;
        while at < sorted.len() && bytes_le(sorted[at].as_str().as_bytes(), id.as_str().as_bytes())
            invariant
                at <= sorted.len(),
                forall|k: int| 0 <= k < at ==> #[trigger] text_le(text_views(sorted@)[k], id@),
            decreases sorted.len() - at,
        {
            at = at + 1;
        }
        proof {
            let before = text_views(sorted@);
            let after = before.insert(at as int, id@);
            assert(text_views(sorted@.insert(at as int, id)) =~= after);
            assert forall|a: int, b: int| 0 <= a < b < after.len() implies #[trigger] text_le(
                after[a],
                after[b],
            ) by {
                if b < at {
                    assert(text_le(before[a], before[b]));
                } else if b == at {
                    assert(text_le(before[a], id@));
                } else if a < at {
                    assert(text_le(before[a], before[b - 1]));
                } else {
                    lemma_lex_le_total(encode_utf8(before[at as int]), encode_utf8(id@));
                    assert(text_le(id@, before[at as int]));
                    if a == at {
                        if b - 1 > at {
                            assert(text_le(before[at as int], before[b - 1]));
                            lemma_lex_le_transitive(
                                encode_utf8(id@),
                                encode_utf8(before[at as int]),
                                encode_utf8(before[b - 1]),
                            );
                        }
                    } else {
                        assert(text_le(before[a - 1], before[b - 1]));
                    }
                }
            }
            to_multiset_insert(before, at as int, id@);
            assert(text_views(ids@).take(i + 1) =~= text_views(ids@).take(i as int).push(id@));
            to_multiset_build(text_views(ids@).take(i as int), id@);
        }
        sorted.insert(at, id);
        i = i + 1;
    }
    assert(text_views(ids@).take(ids.len() as int) =~= text_views(ids@));
    sorted
}

/// Whether `text` ends with `suffix`.
pub open spec fn ends_with(text: Seq<char>, suffix: Seq<char>) -> bool {
    suffix.len() <= text.len() && text.skip(text.len() - suffix.len()) == suffix
}

/// `text` without the slashes at its end.
pub open spec fn without_trailing_slashes(text: Seq<char>) -> Seq<char>
    decreases text.len(),
{
    if text.len() > 0 && text.last() == '/' {
        without_trailing_slashes(text.drop_last())
    } else {
        text
    }
}

/// The URL of the model listing that belongs to the URL of a completions
/// endpoint. A URL that ends with `/chat/completions` has that suffix
/// replaced by `/models`. One that ends with the version segment `/v1`,
/// with or without a slash behind it, has `models` added as the next
/// segment. Any other URL loses the slashes at its end and gets
/// `/v1/models` added.
pub open spec fn models_url_of(url: Seq<char>) -> Seq<char> {
    if ends_with(url, "/chat/completions"@) {
        url.take(url.len() - "/chat/completions"@.len()) + "/models"@
    } else if ends_with(url, "/v1"@) {
        url + "/models"@
    } else if ends_with(url, "/v1/"@) {
        url + "models"@
    } else {
        without_trailing_slashes(url) + "/v1/models"@
    }
}

/// Tells whether `text` ends with `suffix`.
pub fn str_ends_with(text: &str, suffix: &str) -> (found: bool)
    ensures
        found == ends_with(text@, suffix@),
{
    let length = text.unicode_len();
    let short = suffix.unicode_len();
    if short > length {
        return false;
    }
    let start: usize = length - short;
    let mut i: usize = 0;
    while i < short
        invariant
            i <= short,
            short == suffix@.len(),
            length == text@.len(),
            start == length - short,
            forall|j: int| 0 <= j < i ==> text@[start + j] == suffix@[j],
        decreases short - i,
    {
        if text.get_char(start + i) != suffix.get_char(i) {
            assert(text@.skip(start as int)[i as int] != suffix@[i as int]);
            return false;
        }
        i = i + 1;
    }
    assert(text@.skip(start as int) =~= suffix@);
    true
}

/// Derives the URL of the model listing from the URL of the completions
/// endpoint.
pub fn models_url(api_url: &str) -> (url: String)
    ensures
        url@ == models_url_of(api_url@),
{
    let length = api_url.unicode_len();
    if str_ends_with(api_url, "/chat/completions") {
        let short = "/chat/completions".unicode_len();
        let base = api_url.substring_char(0, length - short);
        assert(base@ =~= api_url@.take(api_url@.len() - "/chat/completions"@.len()));
        String::from_str(base).concat("/models")
    } else if str_ends_with(api_url, "/v1") {
        String::from_str(api_url).concat("/models")
    } else if str_ends_with(api_url, "/v1/") {
        String::from_str(api_url).concat("models")
    } else {
        let mut end: usize = length;
        assert(api_url@.take(end as int) =~= api_url@);
        while end > 0 && api_url.get_char(end - 1) == '/'
            invariant
                end <= length,
                length == api_url@.len(),
                without_trailing_slashes(api_url@) == without_trailing_slashes(
                    api_url@.take(end as int),
                ),
            decreases end,
        {
            assert(api_url@.take(end as int).drop_last() =~= api_url@.take(end - 1));
            end = end - 1;
        }
        let base = api_url.substring_char(0, end);
        assert(base@ =~= api_url@.take(end as int));
        String::from_str(base).concat("/v1/models")
    }
}

/// The identifiers of a listing, in its order.
pub fn model_ids(listing: &ModelsResponse) -> (ids: Vec<String>)
    ensures
        text_views(ids@) == listed_ids(listing.data@),
{
    let mut ids: Vec<String> = Vec::new();
    let mut i: usize = 0;
    while i < listing.data.len()
        invariant
            i <= listing.data.len(),
            ids@.len() == i,
            forall|j: int| 0 <= j < i ==> (#[trigger] ids@[j])@ == listing.data@[j].id@,
        decreases listing.data.len() - i,
    {
        ids.push(listing.data[i].id.clone());
        i = i + 1;
    }
    assert(text_views(ids@) =~= listed_ids(listing.data@));
    ids
}

/// What the embedding program reports of a model discovery.
#[derive(Debug)]
pub enum FetchEvent {
    /// The request for the models has come in. `stored` is the persisted
    /// frequency map, or nothing where its file is missing or unreadable.
    Start { stored: Option<ModelFrequency> },
    /// The endpoint has answered the listing request with this HTTP
    /// status. `listing` is its decoded body, or nothing where the body
    /// was not a listing.
    Listing { status: u16, listing: Option<ModelsResponse> },
    /// The transport failed.
    TransportError,
}

/// What the embedding program is to do next.
#[derive(Debug)]
pub enum FetchAction {
    /// Answer with these models; no request is needed.
    Respond(AvailableModelsResponse),
    /// Request the listing from this URL and report the answer by a
    /// `Listing` event.
    Discover { url: String },
    /// Persist this frequency map, then answer with these models.
    Persist { snapshot: ModelFrequency, response: AvailableModelsResponse },
    /// Give up and report this error.
    Fail(ServiceError),
}

/// The models that a persisted frequency map offers: none where there is
/// no map.
pub fn stored_models(stored: &Option<ModelFrequency>) -> (models: Vec<String>)
    requires
        stored matches Some(snapshot) ==> snapshot.frequencies.wf(),
    ensures
        match stored {
            Some(snapshot) => is_available_list(snapshot.frequencies@, text_views(models@)),
            None => models@.len() == 0,
        },
{
    match stored {
        Some(snapshot) => snapshot.frequencies.available_models(),
        None => Vec::new(),
    }
}

/// Answers the request for the models. Where the persisted frequency map
/// offers at least one model, those are the answer, in the order of the
/// offer. Otherwise the listing is to be requested from the URL that
/// belongs to `api_url`.
pub fn begin_fetch(api_url: &str, stored: &Option<ModelFrequency>) -> (action: FetchAction)
    requires
        stored matches Some(snapshot) ==> snapshot.frequencies.wf(),
    ensures
        match action {
            FetchAction::Respond(response) => {
                &&& stored matches Some(snapshot)
                &&& response.models@.len() > 0
                &&& is_available_list(snapshot.frequencies@, text_views(response.models@))
            },
            FetchAction::Discover { url } => {
                &&& url@ == models_url_of(api_url@)
                &&& stored matches Some(snapshot) ==> is_available_list(
                    snapshot.frequencies@,
                    Seq::<Seq<char>>::empty(),
                )
            },
            _ => false,
        },
{
    let models = stored_models(stored);
    if models.len() > 0 {
        FetchAction::Respond(AvailableModelsResponse { models })
    } else {
        assert(text_views(models@) =~= Seq::<Seq<char>>::empty());
        FetchAction::Discover { url: models_url(api_url) }
    }
}

/// What the answer to the listing request yields. A status that is no
/// success fails with `ApiError`, whatever the body; a body that is no
/// listing fails with `ParseError`. Otherwise the listed identifiers are
/// handed out in ascending order.
pub fn fetch_models_from_api(status: u16, listing: &Option<ModelsResponse>) -> (models: Result<
    Vec<String>,
    ServiceError,
>)
    ensures
        match models {
            Ok(ids) => {
                &&& is_success_status(status)
                &&& listing matches Some(list)
                &&& is_sorted(text_views(ids@))
                &&& text_views(ids@).to_multiset() == listed_ids(list.data@).to_multiset()
            },
            Err(error) => {
                &&& error == (if !is_success_status(status) {
                    ServiceError::ApiError { status }
                } else {
                    ServiceError::ParseError
                })
                &&& !is_success_status(status) || listing is None
            },
        },
{
    if !is_success(status) {
        return Err(ServiceError::ApiError { status });
    }
    match listing {
        None => Err(ServiceError::ParseError),
        Some(list) => Ok(sort_models(&model_ids(list))),
    }
}

/// Enters the listed models into the frequency map, each that it does
/// not know with score 0, and hands out the map as it is to be persisted.
pub fn write_models_to_file(frequencies: &mut FrequencyMap, models: &Vec<String>) -> (snapshot:
    ModelFrequency)
    requires
        old(frequencies).wf(),
    ensures
        final(frequencies).wf(),
        final(frequencies)@ == with_known(old(frequencies)@, text_views(models@)),
        snapshot.frequencies@ == final(frequencies)@,
{
    frequencies.ensure_known(models);
    ModelFrequency { frequencies: frequencies.clone() }
}

/// Takes the answer to the listing request. Where it yields the models,
/// they are the answer, they enter the frequency map, and the map is to
/// be persisted; where it fails, the failure is reported and the map
/// stays as it is.
pub fn finish_fetch(cache: &mut FrequencyMap, status: u16, listing: &Option<ModelsResponse>) -> (action:
    FetchAction)
    requires
        old(cache).wf(),
    ensures
        final(cache).wf(),
        match action {
            FetchAction::Fail(error) => {
                &&& final(cache)@ == old(cache)@
                &&& error == (if !is_success_status(status) {
                    ServiceError::ApiError { status }
                } else {
                    ServiceError::ParseError
                })
                &&& !is_success_status(status) || listing is None
            },
            FetchAction::Persist { snapshot, response } => {
                &&& is_success_status(status)
                &&& listing matches Some(list)
                &&& is_sorted(text_views(response.models@))
                &&& text_views(response.models@).to_multiset() == listed_ids(
                    list.data@,
                ).to_multiset()
                &&& final(cache)@ == with_known(old(cache)@, text_views(response.models@))
                &&& snapshot.frequencies@ == final(cache)@
            },
            _ => false,
        },
{
    match fetch_models_from_api(status, listing) {
        Err(error) => FetchAction::Fail(error),
        Ok(models) => {
            let snapshot = write_models_to_file(cache, &models);
            FetchAction::Persist { snapshot, response: AvailableModelsResponse { models } }
        },
    }
}

} // verus!
