//! The entry points: each takes what the embedding program reports and
//! answers with what it is to do.

use vstd::prelude::*;
use vstd::string::StringExecFns;
use crate::completion::{
    are_texts_of, chunk_payloads, frame_fragment, pending_part, ChatAction, ChatEvent, ChatPhase,
    ChatSession,
};
use crate::discovery::{
    begin_fetch, finish_fetch, is_sorted, models_url_of, FetchAction, FetchEvent,
};
use crate::cache::{
    decrypt_api_key, decrypt_api_url, delete_api_key, delete_api_url, encrypt_api_key,
    encrypt_api_url, is_saved, loaded, SecretStore,
};
use crate::cipher::SecretCipher;
use crate::error::{is_success_status, SecretKind, ServiceError};
use crate::frequency::{is_available_list, recorded, score_of, with_known, FrequencyMap};
use crate::models::listed_ids;
use crate::sse::{lines_of, payloads_of};
use crate::text::text_views;

verus! {

/// The value of the authorization header that carries `api_key` as a
/// bearer token.
pub fn bearer_token(api_key: &str) -> (value: String)
    ensures
        value@ == "Bearer "@ + api_key@,
{
    String::from_str("Bearer ").concat(api_key)
}

/// Whether `action` answers `event` as the completion protocol asks, with
/// the session going from `before` to `after` and the entries of the
/// frequency map from `entries` to `entries_after`.
pub open spec fn chat_step(
    before: ChatSession,
    entries: Seq<crate::frequency::ScoreEntry>,
    event: ChatEvent,
    after: ChatSession,
    entries_after: Seq<crate::frequency::ScoreEntry>,
    action: ChatAction,
) -> bool {
    &&& after.model == before.model
    &&& match event {
        ChatEvent::Status(status) => {
            &&& after.pending == before.pending
            &&& after.transcript == before.transcript
            &&& if before.phase != ChatPhase::AwaitingStatus {
                &&& action is Continue
                &&& after.phase == before.phase
                &&& entries_after == entries
            } else if is_success_status(status) {
                &&& action is Continue
                &&& after.phase == ChatPhase::Streaming
                &&& entries_after == entries
            } else {
                &&& action == ChatAction::Fail(ServiceError::ApiError { status })
                &&& after.phase == ChatPhase::Closed
                &&& entries_after == recorded(entries, before.model@, false)
            }
        },
        ChatEvent::Chunk(chunk) => {
            &&& after.phase == before.phase
            &&& after.transcript == before.transcript
            &&& entries_after == entries
            &&& if before.phase == ChatPhase::Streaming {
                &&& action matches ChatAction::Decode(texts)
                &&& are_texts_of(text_views(texts@), chunk_payloads(before.pending@, chunk@))
                &&& after.pending@ == pending_part(before.pending@ + chunk@)
            } else {
                action is Continue && after.pending == before.pending
            }
        },
        ChatEvent::Frame(frame) => {
            &&& after.phase == before.phase
            &&& after.pending == before.pending
            &&& entries_after == entries
            &&& match (before.phase, frame_fragment(frame)) {
                (ChatPhase::Streaming, Some(text)) => {
                    &&& action matches ChatAction::Emit(emitted)
                    &&& emitted@ == text
                    &&& after.transcript@ == before.transcript@ + text
                },
                _ => action is Continue && after.transcript == before.transcript,
            }
        },
        ChatEvent::End { elapsed_ms } => {
            &&& after.transcript == before.transcript
            &&& if before.phase != ChatPhase::Streaming {
                &&& action is Continue
                &&& after.phase == before.phase
                &&& after.pending == before.pending
                &&& entries_after == entries
            } else if before.pending@.len() > 0 {
                &&& action matches ChatAction::Decode(texts)
                &&& are_texts_of(text_views(texts@), payloads_of(lines_of(before.pending@)))
                &&& after.phase == ChatPhase::Streaming
                &&& after.pending@ == Seq::<u8>::empty()
                &&& entries_after == entries
            } else {
                &&& action matches ChatAction::Finish(summary)
                &&& summary.transcript@ == before.transcript@
                &&& summary.elapsed_ms == elapsed_ms
                &&& after.phase == ChatPhase::Closed
                &&& after.pending == before.pending
                &&& entries_after == recorded(entries, before.model@, true)
            }
        },
        ChatEvent::TransportError => {
            &&& after.pending == before.pending
            &&& after.transcript == before.transcript
            &&& after.phase == ChatPhase::Closed
            &&& entries_after == entries
            &&& if before.phase == ChatPhase::Closed {
                action is Continue
            } else {
                action == ChatAction::Fail(ServiceError::TransportError)
            }
        },
    }
}

/// One step of a streaming completion: takes the next event of the
/// session and answers with the action to take.
///
/// The status of the answer opens the body, or fails the completion and
/// counts against the model. Chunks of the body hand out the payloads of
/// the lines they complete; decoded frames add their text to the
/// transcript and have it emitted; the end of the body, once nothing
/// waits any more, counts for the model and hands out the summary. A
/// transport error fails the completion and leaves the frequency map as
/// it is.
pub fn chat(session: &mut ChatSession, cache: &mut FrequencyMap, event: ChatEvent) -> (action:
    ChatAction)
    requires
        old(cache).wf(),
        event is End && old(session).phase == ChatPhase::Streaming && old(session).pending@.len()
            == 0 ==> score_of(old(cache)@, old(session).model@) != Some(i32::MAX as int),
    ensures
        final(cache).wf(),
        chat_step(*old(session), old(cache)@, event, *final(session), final(cache)@, action),
{
    match event {
        ChatEvent::Status(status) => session.on_status(cache, status),
        ChatEvent::Chunk(chunk) => session.on_chunk(chunk.as_slice()),
        ChatEvent::Frame(frame) => session.on_frame(frame),
        ChatEvent::End { elapsed_ms } => session.on_end(cache, elapsed_ms),
        ChatEvent::TransportError => session.on_transport_error(),
    }
}

/// Whether `action` answers `event` as model discovery asks, for the
/// endpoint at `api_url`, with the entries of the frequency map going from
/// `entries` to `entries_after`.
pub open spec fn fetch_step(
    api_url: Seq<char>,
    entries: Seq<crate::frequency::ScoreEntry>,
    event: FetchEvent,
    entries_after: Seq<crate::frequency::ScoreEntry>,
    action: FetchAction,
) -> bool {
    match event {
        FetchEvent::Start { stored } => {
            &&& entries_after == entries
            &&& match action {
                FetchAction::Respond(response) => {
                    &&& stored matches Some(snapshot)
                    &&& response.models@.len() > 0
                    &&& is_available_list(snapshot.frequencies@, text_views(response.models@))
                },
                FetchAction::Discover { url } => {
                    &&& url@ == models_url_of(api_url)
                    &&& stored matches Some(snapshot) ==> is_available_list(
                        snapshot.frequencies@,
                        Seq::<Seq<char>>::empty(),
                    )
                },
                _ => false,
            }
        },
        FetchEvent::Listing { status, listing } => {
            if !is_success_status(status) {
                action == FetchAction::Fail(ServiceError::ApiError { status }) && entries_after == entries
            } else {
                match listing {
                    None => action == FetchAction::Fail(ServiceError::ParseError) && entries_after
                        == entries,
                    Some(list) => {
                        &&& action matches FetchAction::Persist { snapshot, response }
                        &&& is_sorted(text_views(response.models@))
                        &&& text_views(response.models@).to_multiset() == listed_ids(
                            list.data@,
                        ).to_multiset()
                        &&& entries_after == with_known(entries, text_views(response.models@))
                        &&& snapshot.frequencies@ == entries_after
                    },
                }
            }
        },
        FetchEvent::TransportError => {
            action == FetchAction::Fail(ServiceError::TransportError) && entries_after == entries
        },
    }
}

/// One step of a model discovery: takes the next event and answers with
/// the action to take.
///
/// At the start, the models that the persisted frequency map offers are
/// the answer; where it offers none, the listing is to be requested. The
/// listing, once it has come, is sorted and answered; its models enter
/// the frequency map, which is to be persisted. An answer without success
/// status, a body that is no listing, and a transport error fail.
pub fn fetch_models(cache: &mut FrequencyMap, api_url: &str, event: FetchEvent) -> (action:
    FetchAction)
    requires
        old(cache).wf(),
        event matches FetchEvent::Start { stored: Some(snapshot) } ==> snapshot.frequencies.wf(),
    ensures
        final(cache).wf(),
        fetch_step(api_url@, old(cache)@, event, final(cache)@, action),
{
    match event {
        FetchEvent::Start { stored } => begin_fetch(api_url, &stored),
        FetchEvent::Listing { status, listing } => finish_fetch(cache, status, &listing),
        FetchEvent::TransportError => FetchAction::Fail(ServiceError::TransportError),
    }
}

/// Saves the credential. An empty one is refused with
/// `ConfigurationError`.
///
/// # Panics
///
/// Panics as `SecretCipher::encrypt` does, where no nonce can be drawn.
pub fn save_api_key(cipher: &SecretCipher, store: &mut SecretStore, api_key: String) -> (done:
    Result<(), ServiceError>)
    requires
        cipher.wf(),
    ensures
        is_saved(*old(store), cipher.key(), SecretKind::Credential, api_key@, *final(store), done),
{
    encrypt_api_key(cipher, store, api_key.as_str())
}

/// Loads the credential; `NotConfigured` where none was saved.
pub fn get_api_key(cipher: &SecretCipher, store: &SecretStore) -> (api_key: Result<
    String,
    ServiceError,
>)
    requires
        cipher.wf(),
    ensures
        match api_key {
            Ok(text) => loaded(*store, cipher.key(), SecretKind::Credential) == Ok::<
                Seq<char>,
                ServiceError,
            >(text@),
            Err(e) => loaded(*store, cipher.key(), SecretKind::Credential) == Err::<
                Seq<char>,
                ServiceError,
            >(e),
        },
{
    decrypt_api_key(cipher, store)
}

/// Removes the credential, if there is one.
pub fn remove_api_key(store: &mut SecretStore) -> (done: Result<(), ServiceError>)
    ensures
        done is Ok,
        final(store).slot(SecretKind::Credential) is None,
        final(store).slot(SecretKind::EndpointUrl) == old(store).slot(SecretKind::EndpointUrl),
{
    delete_api_key(store)
}

/// Saves the endpoint URL. An empty one is refused with
/// `ConfigurationError`.
///
/// # Panics
///
/// Panics as `SecretCipher::encrypt` does, where no nonce can be drawn.
pub fn save_api_url(cipher: &SecretCipher, store: &mut SecretStore, api_url: String) -> (done:
    Result<(), ServiceError>)
    requires
        cipher.wf(),
    ensures
        is_saved(*old(store), cipher.key(), SecretKind::EndpointUrl, api_url@, *final(store), done),
{
    encrypt_api_url(cipher, store, api_url.as_str())
}

/// Loads the endpoint URL; `NotConfigured` where none was saved.
pub fn get_api_url(cipher: &SecretCipher, store: &SecretStore) -> (api_url: Result<
    String,
    ServiceError,
>)
    requires
        cipher.wf(),
    ensures
        match api_url {
            Ok(text) => loaded(*store, cipher.key(), SecretKind::EndpointUrl) == Ok::<
                Seq<char>,
                ServiceError,
            >(text@),
            Err(e) => loaded(*store, cipher.key(), SecretKind::EndpointUrl) == Err::<
                Seq<char>,
                ServiceError,
            >(e),
        },
{
    decrypt_api_url(cipher, store)
}

/// Removes the endpoint URL, if there is one.
pub fn remove_api_url(store: &mut SecretStore) -> (done: Result<(), ServiceError>)
    ensures
        done is Ok,
        final(store).slot(SecretKind::EndpointUrl) is None,
        final(store).slot(SecretKind::Credential) == old(store).slot(SecretKind::Credential),
{
    delete_api_url(store)
}

} // verus!
