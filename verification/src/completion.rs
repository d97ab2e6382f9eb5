//! The streaming completion as a state machine. The embedding program does
//! the transport and decodes JSON; it reports what happened as events, and
//! every event is answered by the action to take.
//!
//! The body of the answer arrives in chunks that need not end where a line
//! ends. The bytes behind the last line feed are kept until the next chunk
//! completes their line, so that the frames of a stream do not depend on
//! how the transport cut it. A transport error ends the session and is not
//! counted against the model.

use vstd::prelude::*;
use crate::chat::StreamResponse;
use crate::error::{is_success, is_success_status, ServiceError};
use crate::frequency::{recorded, score_of, FrequencyMap};
use crate::sse::{
    byte_views, complete_len, frame_payloads, lemma_complete_len, lemma_complete_len_concat,
    lemma_complete_len_none, lemma_lines_of_concat, lemma_payloads_of_concat, lines_of, payloads_of,
    split_lines, LINE_FEED,
};
use crate::text::{append_bytes, decode_lossy, text_views, utf8_lossy};
use vstd::slice::{slice_subrange, slice_to_vec};
use vstd::string::StringExecFns;
use vstd::utf8::{decode_utf8, valid_utf8};

verus! {

/// How far a completion has come.
#[derive(Clone, Copy, Debug, PartialEq, Eq, Structural)]
pub enum ChatPhase {
    /// The request is sent and the status of the answer is awaited.
    AwaitingStatus,
    /// The status was a success and the body is being read.
    Streaming,
    /// The completion has ended, well or badly.
    Closed,
}

/// What the embedding program reports of a completion.
#[derive(Debug)]
pub enum ChatEvent {
    /// The answer has begun, with this HTTP status.
    Status(u16),
    /// The next bytes of the body.
    Chunk(Vec<u8>),
    /// The result of decoding the next payload that was handed out: the
    /// frame, or nothing where the payload was not a frame.
    Frame(Option<StreamResponse>),
    /// The body has ended without a transport error, so much time after
    /// the request was sent. The event is repeated until it is answered by
    /// `Finish`.
    End { elapsed_ms: u64 },
    /// The transport failed.
    TransportError,
}

/// What the embedding program is to do next.
#[derive(Debug)]
pub enum ChatAction {
    /// Nothing; go on with the next event.
    Continue,
    /// Decode each of these payloads as JSON and report each result, in
    /// this order, by a `Frame` event.
    Decode(Vec<String>),
    /// Hand this text to the sink.
    Emit(String),
    /// Give up and report this error.
    Fail(ServiceError),
    /// Report the completion as done.
    Finish(Summary),
}

/// The result of a completion.
#[derive(Debug)]
pub struct Summary {
    /// Everything that the frames added, in their order.
    pub transcript: String,
    /// The time from the request to the end of the body, in milliseconds.
    pub elapsed_ms: u64,
}

/// The state of one completion.
#[derive(Debug)]
pub struct ChatSession {
    /// The model that is asked.
    pub model: String,
    /// How far the completion has come.
    pub phase: ChatPhase,
    /// The bytes of the body behind its last line feed so far.
    pub pending: Vec<u8>,
    /// Everything that the frames have added so far.
    pub transcript: String,
}

/// The part of `data` that is made of whole lines.
pub open spec fn complete_part(data: Seq<u8>) -> Seq<u8> {
    data.take(complete_len(data) as int)
}

/// The part of `data` behind its last line feed.
pub open spec fn pending_part(data: Seq<u8>) -> Seq<u8> {
    data.skip(complete_len(data) as int)
}

/// The payloads that become complete when `chunk` arrives behind `pending`.
pub open spec fn chunk_payloads(pending: Seq<u8>, chunk: Seq<u8>) -> Seq<Seq<u8>> {
    payloads_of(lines_of(complete_part(pending + chunk)))
}

/// The texts that a lossy decoding makes of payloads.
pub open spec fn lossy_texts(payloads: Seq<Seq<u8>>) -> Seq<Seq<char>> {
    payloads.map_values(|payload: Seq<u8>| utf8_lossy(payload))
}

/// Whether `texts` are the payloads decoded to text: each is what a
/// lossy decoding makes of its payload, which for a payload that is UTF-8
/// is the text that it encodes.
pub open spec fn are_texts_of(texts: Seq<Seq<char>>, payloads: Seq<Seq<u8>>) -> bool {
    &&& texts == lossy_texts(payloads)
    &&& forall|i: int|
        0 <= i < payloads.len() && valid_utf8(#[trigger] payloads[i]) ==> texts[i] == decode_utf8(
            payloads[i],
        )
}

/// The text that a decoded payload adds to the transcript, if any.
pub open spec fn frame_fragment(frame: Option<StreamResponse>) -> Option<Seq<char>> {
    match frame {
        Some(response) => response.fragment(),
        None => None,
    }
}

/// The data that arrived splits into its whole lines and what waits
/// behind them; the whole lines are empty or end with a line feed, and no
/// line feed waits.
pub proof fn lemma_parts(data: Seq<u8>)
    ensures
        complete_part(data) + pending_part(data) == data,
        complete_part(data).len() == 0 || complete_part(data).last() == LINE_FEED,
        complete_len(pending_part(data)) == 0,
{
    lemma_complete_len(data);
    assert(complete_part(data) + pending_part(data) =~= data);
    let rest = pending_part(data);
    assert forall|j: int| 0 <= j < rest.len() implies rest[j] != LINE_FEED by {
        assert(rest[j] == data[complete_len(data) + j]);
    }
    lemma_complete_len_none(rest);
}

/// How the transport cuts the body into chunks is immaterial: two chunks
/// one after the other hand out the payloads, and leave waiting the
/// bytes, that the two hand out and leave as one chunk.
pub proof fn lemma_chunking_is_immaterial(pending: Seq<u8>, first: Seq<u8>, second: Seq<u8>)
    ensures
        chunk_payloads(pending, first + second) == chunk_payloads(pending, first) + chunk_payloads(
            pending_part(pending + first),
            second,
        ),
        pending_part(pending + (first + second)) == pending_part(
            pending_part(pending + first) + second,
        ),
{
    let data = pending + first;
    let whole = complete_part(data);
    let rest = pending_part(data);
    lemma_parts(data);
    lemma_complete_len(data);
    lemma_complete_len(second);
    lemma_complete_len_concat(data, second);
    lemma_complete_len_concat(rest, second);
    assert(pending + (first + second) =~= data + second);
    let cut = complete_len(data) as int;
    let cut_second = complete_len(second) as int;
    assert(whole.len() == cut && rest.len() == data.len() - cut);
    if cut_second > 0 {
        assert(complete_len(data + second) == data.len() + cut_second);
        assert(complete_len(rest + second) == rest.len() + cut_second);
    } else {
        assert(complete_len(data + second) == cut);
        assert(complete_len(rest + second) == 0);
    }
    assert(data + second =~= whole + (rest + second));
    assert(complete_part(data + second) =~= whole + complete_part(rest + second));
    assert(pending_part(data + second) =~= pending_part(rest + second));
    lemma_lines_of_concat(whole, complete_part(rest + second));
    lemma_payloads_of_concat(lines_of(whole), lines_of(complete_part(rest + second)));
}

/// The chunks one after the other, as one sequence of bytes.
pub open spec fn joined_chunks(chunks: Seq<Seq<u8>>) -> Seq<u8>
    decreases chunks.len(),
{
    if chunks.len() == 0 {
        Seq::empty()
    } else {
        joined_chunks(chunks.drop_last()) + chunks.last()
    }
}

/// The bytes that wait after `chunks` have arrived one by one behind
/// `pending`.
pub open spec fn pending_after(pending: Seq<u8>, chunks: Seq<Seq<u8>>) -> Seq<u8>
    decreases chunks.len(),
{
    if chunks.len() == 0 {
        pending
    } else {
        pending_part(pending_after(pending, chunks.drop_last()) + chunks.last())
    }
}

/// The payloads that are handed out while `chunks` arrive one by one
/// behind `pending`, in the order in which they are handed out.
pub open spec fn payloads_after(pending: Seq<u8>, chunks: Seq<Seq<u8>>) -> Seq<Seq<u8>>
    decreases chunks.len(),
{
    if chunks.len() == 0 {
        Seq::empty()
    } else {
        payloads_after(pending, chunks.drop_last()) + chunk_payloads(
            pending_after(pending, chunks.drop_last()),
            chunks.last(),
        )
    }
}

/// However many chunks the transport makes of the body, and wherever it
/// cuts, they hand out the payloads, and leave waiting the bytes, that
/// the body hands out and leaves as one chunk.
pub proof fn lemma_any_chunking(pending: Seq<u8>, chunks: Seq<Seq<u8>>)
    requires
        complete_len(pending) == 0,
    ensures
        payloads_after(pending, chunks) == chunk_payloads(pending, joined_chunks(chunks)),
        pending_after(pending, chunks) == pending_part(pending + joined_chunks(chunks)),
    decreases chunks.len(),
{
    if chunks.len() == 0 {
        assert(pending + joined_chunks(chunks) =~= pending);
        assert(complete_part(pending) =~= Seq::<u8>::empty());
        assert(pending_part(pending) =~= pending);
    } else {
        let init = chunks.drop_last();
        lemma_any_chunking(pending, init);
        lemma_chunking_is_immaterial(pending, joined_chunks(init), chunks.last());
    }
}

/// A body that is read to its end in chunks, however it is cut, hands out
/// the payloads of its lines: those that the chunks complete, then that
/// of the line that still waits when the body ends.
pub proof fn lemma_chunked_stream_payloads(chunks: Seq<Seq<u8>>)
    ensures
        payloads_after(Seq::<u8>::empty(), chunks) + payloads_of(
            lines_of(pending_after(Seq::<u8>::empty(), chunks)),
        ) == payloads_of(lines_of(joined_chunks(chunks))),
{
    lemma_any_chunking(Seq::<u8>::empty(), chunks);
    lemma_stream_payloads(joined_chunks(chunks));
    assert(Seq::<u8>::empty() + joined_chunks(chunks) =~= joined_chunks(chunks));
}

/// A body that is read to its end hands out the payloads of its lines:
/// those that its chunks complete, then that of the line that still
/// waits when it ends.
pub proof fn lemma_stream_payloads(body: Seq<u8>)
    ensures
        chunk_payloads(Seq::<u8>::empty(), body) + payloads_of(lines_of(pending_part(body)))
            == payloads_of(lines_of(body)),
{
    lemma_parts(body);
    assert(Seq::<u8>::empty() + body =~= body);
    lemma_lines_of_concat(complete_part(body), pending_part(body));
    lemma_payloads_of_concat(lines_of(complete_part(body)), lines_of(pending_part(body)));
}

/// Decodes each payload to text, replacing what is not UTF-8. A payload
/// that is UTF-8 becomes the text that it encodes.
pub fn decode_payloads(payloads: &Vec<Vec<u8>>) -> (texts: Vec<String>)
    ensures
        are_texts_of(text_views(texts@), byte_views(payloads@)),
{
    let mut texts: Vec<String> = Vec::new();
    let mut i: usize = 0;
    while i < payloads.len()
        invariant
            i <= payloads.len(),
            texts@.len() == i,
            forall|j: int| 0 <= j < i ==> (#[trigger] texts@[j])@ == utf8_lossy(payloads@[j]@),
            forall|j: int|
                0 <= j < i && valid_utf8(payloads@[j]@) ==> (#[trigger] texts@[j])@ == decode_utf8(
                    payloads@[j]@,
                ),
        decreases payloads.len() - i,
    {
        texts.push(decode_lossy(payloads[i].as_slice()));
        i = i + 1;
    }
    assert(text_views(texts@) =~= lossy_texts(byte_views(payloads@)));
    assert forall|i: int|
        0 <= i < byte_views(payloads@).len() && valid_utf8(
            #[trigger] byte_views(payloads@)[i],
        ) implies text_views(texts@)[i] == decode_utf8(byte_views(payloads@)[i]) by {
        assert(texts@[i]@ == decode_utf8(payloads@[i]@));
    }
    texts
}

/// Finds the position just behind the last line feed of `data`.
pub fn find_complete_len(data: &[u8]) -> (cut: usize)
    ensures
        cut == complete_len(data@),
        cut <= data@.len(),
{
    let mut cut: usize = data.len();
    assert(data@.take(cut as int) =~= data@);
    while cut > 0 && data[cut - 1] != LINE_FEED
        invariant
            cut <= data@.len(),
            complete_len(data@) == complete_len(data@.take(cut as int)),
        decreases cut,
    {
        assert(data@.take(cut as int).drop_last() =~= data@.take(cut - 1));
        cut = cut - 1;
    }
    proof {
        lemma_complete_len(data@.take(cut as int));
    }
    cut
}

impl ChatSession {
    /// A session that asks `model` and awaits the status of the answer.
    pub fn new(model: String) -> (session: ChatSession)
        ensures
            session.model == model,
            session.phase == ChatPhase::AwaitingStatus,
            session.pending@ == Seq::<u8>::empty(),
            session.transcript@ == Seq::<char>::empty(),
    {
        ChatSession {
            model,
            phase: ChatPhase::AwaitingStatus,
            pending: Vec::new(),
            transcript: String::new(),
        }
    }

    /// Takes the status of the answer. A success opens the body. Any
    /// other status closes the session with `ApiError` and is counted
    /// against the model. A status that is not awaited changes nothing.
    pub fn on_status(&mut self, cache: &mut FrequencyMap, status: u16) -> (action: ChatAction)
        requires
            old(cache).wf(),
        ensures
            final(cache).wf(),
            final(self).model == old(self).model,
            final(self).pending == old(self).pending,
            final(self).transcript == old(self).transcript,
            old(self).phase != ChatPhase::AwaitingStatus ==> {
                &&& action is Continue
                &&& final(self).phase == old(self).phase
                &&& final(cache)@ == old(cache)@
            },
            old(self).phase == ChatPhase::AwaitingStatus && is_success_status(status) ==> {
                &&& action is Continue
                &&& final(self).phase == ChatPhase::Streaming
                &&& final(cache)@ == old(cache)@
            },
            old(self).phase == ChatPhase::AwaitingStatus && !is_success_status(status) ==> {
                &&& action == ChatAction::Fail(ServiceError::ApiError { status })
                &&& final(self).phase == ChatPhase::Closed
                &&& final(cache)@ == recorded(old(cache)@, old(self).model@, false)
            },
    {
        match self.phase {
            ChatPhase::AwaitingStatus => {
                if is_success(status) {
                    self.phase = ChatPhase::Streaming;
                    ChatAction::Continue
                } else {
                    self.phase = ChatPhase::Closed;
                    cache.record_outcome(self.model.clone(), false);
                    ChatAction::Fail(ServiceError::ApiError { status })
                }
            },
            _ => ChatAction::Continue,
        }
    }

    /// Takes the next bytes of the body. The lines that they complete
    /// hand out their payloads, as text, to be decoded; what stands behind
    /// the last line feed waits for the next chunk. Outside the body the
    /// bytes are dropped.
    pub fn on_chunk(&mut self, chunk: &[u8]) -> (action: ChatAction)
        ensures
            final(self).model == old(self).model,
            final(self).phase == old(self).phase,
            final(self).transcript == old(self).transcript,
            old(self).phase != ChatPhase::Streaming ==> action is Continue && final(self).pending
                == old(self).pending,
            old(self).phase == ChatPhase::Streaming ==> {
                &&& action matches ChatAction::Decode(texts)
                &&& are_texts_of(
                    text_views(texts@),
                    chunk_payloads(old(self).pending@, chunk@),
                )
                &&& final(self).pending@ == pending_part(old(self).pending@ + chunk@)
            },
    {
        match self.phase {
            ChatPhase::Streaming => {
                append_bytes(&mut self.pending, chunk);
                let cut = find_complete_len(self.pending.as_slice());
                let lines = split_lines(slice_subrange(self.pending.as_slice(), 0, cut));
                let payloads = frame_payloads(&lines);
                let texts = decode_payloads(&payloads);
                let rest = slice_to_vec(
                    slice_subrange(self.pending.as_slice(), cut, self.pending.len()),
                );
                self.pending = rest;
                ChatAction::Decode(texts)
            },
            _ => ChatAction::Continue,
        }
    }

    /// Takes the result of decoding a payload. A frame whose first choice
    /// carries text that is not empty adds it to the transcript and has it
    /// handed to the sink. Anything else, and anything outside the body,
    /// changes nothing.
    pub fn on_frame(&mut self, frame: Option<StreamResponse>) -> (action: ChatAction)
        ensures
            final(self).model == old(self).model,
            final(self).phase == old(self).phase,
            final(self).pending == old(self).pending,
            match (old(self).phase, frame_fragment(frame)) {
                (ChatPhase::Streaming, Some(text)) => {
                    &&& action matches ChatAction::Emit(emitted)
                    &&& emitted@ == text
                    &&& final(self).transcript@ == old(self).transcript@ + text
                },
                _ => action is Continue && final(self).transcript == old(self).transcript,
            },
    {
        match self.phase {
            ChatPhase::Streaming => {
                let fragment = match &frame {
                    Some(response) => response.text_fragment(),
                    None => None,
                };
                match fragment {
                    Some(text) => {
                        self.transcript.append(text.as_str());
                        ChatAction::Emit(text.clone())
                    },
                    None => ChatAction::Continue,
                }
            },
            _ => ChatAction::Continue,
        }
    }

    /// Takes the end of the body. Bytes that still wait are the last line:
    /// its payload, if it has one, is handed out to be decoded, and the
    /// event is to be repeated. With nothing waiting the session closes,
    /// the model is counted a success, and the summary is handed out.
    /// Outside the body the event changes nothing.
    pub fn on_end(&mut self, cache: &mut FrequencyMap, elapsed_ms: u64) -> (action: ChatAction)
        requires
            old(cache).wf(),
            old(self).phase == ChatPhase::Streaming && old(self).pending@.len() == 0 ==> score_of(
                old(cache)@,
                old(self).model@,
            ) != Some(i32::MAX as int),
        ensures
            final(cache).wf(),
            final(self).model == old(self).model,
            final(self).transcript == old(self).transcript,
            old(self).phase != ChatPhase::Streaming ==> {
                &&& action is Continue
                &&& final(self).phase == old(self).phase
                &&& final(self).pending == old(self).pending
                &&& final(cache)@ == old(cache)@
            },
            old(self).phase == ChatPhase::Streaming && old(self).pending@.len() > 0 ==> {
                &&& action matches ChatAction::Decode(texts)
                &&& are_texts_of(text_views(texts@), payloads_of(lines_of(old(self).pending@)))
                &&& final(self).phase == ChatPhase::Streaming
                &&& final(self).pending@ == Seq::<u8>::empty()
                &&& final(cache)@ == old(cache)@
            },
            old(self).phase == ChatPhase::Streaming && old(self).pending@.len() == 0 ==> {
                &&& action matches ChatAction::Finish(summary)
                &&& summary.transcript@ == old(self).transcript@
                &&& summary.elapsed_ms == elapsed_ms
                &&& final(self).phase == ChatPhase::Closed
                &&& final(self).pending == old(self).pending
                &&& final(cache)@ == recorded(old(cache)@, old(self).model@, true)
            },
    {
        match self.phase {
            ChatPhase::Streaming => {
                if self.pending.len() > 0 {
                    let lines = split_lines(self.pending.as_slice());
                    let payloads = frame_payloads(&lines);
                    let texts = decode_payloads(&payloads);
                    self.pending = Vec::new();
                    ChatAction::Decode(texts)
                } else {
                    self.phase = ChatPhase::Closed;
                    cache.record_outcome(self.model.clone(), true);
                    ChatAction::Finish(
                        Summary { transcript: self.transcript.clone(), elapsed_ms },
                    )
                }
            },
            _ => ChatAction::Continue,
        }
    }

    /// Takes a failure of the transport. A session that is not closed
    /// closes with `TransportError`; the frequency map is not touched, as
    /// the failure says nothing of the model.
    pub fn on_transport_error(&mut self) -> (action: ChatAction)
        ensures
            final(self).model == old(self).model,
            final(self).pending == old(self).pending,
            final(self).transcript == old(self).transcript,
            final(self).phase == ChatPhase::Closed,
            old(self).phase == ChatPhase::Closed ==> action is Continue,
            old(self).phase != ChatPhase::Closed ==> action == ChatAction::Fail(
                ServiceError::TransportError,
            ),
    {
        match self.phase {
            ChatPhase::Closed => ChatAction::Continue,
            _ => {
                self.phase = ChatPhase::Closed;
                ChatAction::Fail(ServiceError::TransportError)
            },
        }
    }
}

} // verus!
