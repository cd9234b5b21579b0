//! Streaming-emission state machine.
//!
//! One controller drives either of the two wire protocols (Responses-style or
//! Chat-Completions-style). It decides which events to emit from progress
//! notifications; decoding token slices to text and writing events to the
//! wire stay with the caller, which feeds the decoded text back in. The
//! state moves `not-started -> started -> deltas -> finalized`; `finalized`
//! is terminal and idempotent.

use vstd::prelude::*;
use crate::api::Usage;

verus! {

/// Identity of one stream, fixed at creation: which protocol it speaks and
/// the identifiers every event of the stream carries.
pub enum StreamKind {
    Responses { response_id: String, output_id: String, model: String, created: i64 },
    Chat { completion_id: String, model: String, created: i64 },
}

/// One event to put on the wire. `Done` is the terminal sentinel that closes
/// every stream.
pub enum StreamEvent {
    ResponseCreated { response_id: String, created: i64, model: String },
    OutputTextDelta {
        response_id: String,
        output_id: String,
        created: i64,
        model: String,
        delta: String,
    },
    ResponseCompleted {
        response_id: String,
        output_id: String,
        created: i64,
        model: String,
        text: String,
        usage: Usage,
    },
    ResponseError { message: String },
    ChatChunkRole { completion_id: String, created: i64, model: String },
    ChatChunkDelta {
        completion_id: String,
        created: i64,
        model: String,
        content: String,
        include_role: bool,
    },
    ChatChunkFinal { completion_id: String, created: i64, model: String, usage: Usage },
    ChatChunkError { completion_id: String, created: i64, model: String, message: String },
    Done,
}

/// A progress notification accepted by the controller: decode the id slice
/// `[start, end)` and, when the decoded text is non-empty, emit it as a delta
/// (with the role marker inline when `include_role` holds).
pub struct DeltaPlan {
    pub start: usize,
    pub end: usize,
    pub include_role: bool,
}

/// `e` is the initial event of a stream of kind `kind`.
pub open spec fn is_initial_event(kind: StreamKind, e: StreamEvent) -> bool {
    match kind {
        StreamKind::Responses { response_id, output_id, model, created } => e
            == (StreamEvent::ResponseCreated { response_id, created, model }),
        StreamKind::Chat { completion_id, model, created } => e == (StreamEvent::ChatChunkRole {
            completion_id,
            created,
            model,
        }),
    }
}

/// `e` is the delta event of a stream of kind `kind` carrying `text`.
pub open spec fn is_delta_event(
    kind: StreamKind,
    text: Seq<char>,
    include_role: bool,
    e: StreamEvent,
) -> bool {
    match kind {
        StreamKind::Responses { response_id, output_id, model, created } => match e {
            StreamEvent::OutputTextDelta {
                response_id: rid,
                output_id: oid,
                created: c,
                model: m,
                delta,
            } => rid == response_id && oid == output_id && c == created && m == model && delta@
                == text,
            _ => false,
        },
        StreamKind::Chat { completion_id, model, created } => match e {
            StreamEvent::ChatChunkDelta {
                completion_id: cid,
                created: c,
                model: m,
                content,
                include_role: ir,
            } => cid == completion_id && c == created && m == model && content@ == text && ir
                == include_role,
            _ => false,
        },
    }
}

/// `e` is the completion event of a stream of kind `kind` reporting `text`
/// and the exact token usage.
pub open spec fn is_completion_event(
    kind: StreamKind,
    text: Seq<char>,
    prompt_tokens: usize,
    completion_tokens: usize,
    e: StreamEvent,
) -> bool {
    match kind {
        StreamKind::Responses { response_id, output_id, model, created } => match e {
            StreamEvent::ResponseCompleted {
                response_id: rid,
                output_id: oid,
                created: c,
                model: m,
                text: t,
                usage,
            } => rid == response_id && oid == output_id && c == created && m == model && t@ == text
                && usage.prompt_tokens == prompt_tokens && usage.completion_tokens
                == completion_tokens && usage.total_tokens == prompt_tokens + completion_tokens,
            _ => false,
        },
        StreamKind::Chat { completion_id, model, created } => match e {
            StreamEvent::ChatChunkFinal { completion_id: cid, created: c, model: m, usage } => cid
                == completion_id && c == created && m == model && usage.prompt_tokens
                == prompt_tokens && usage.completion_tokens == completion_tokens
                && usage.total_tokens == prompt_tokens + completion_tokens,
            _ => false,
        },
    }
}

/// `e` is the in-band error event of a stream of kind `kind`.
pub open spec fn is_error_event(kind: StreamKind, message: Seq<char>, e: StreamEvent) -> bool {
    match kind {
        StreamKind::Responses { .. } => match e {
            StreamEvent::ResponseError { message: m } => m@ == message,
            _ => false,
        },
        StreamKind::Chat { completion_id, model, created } => match e {
            StreamEvent::ChatChunkError { completion_id: cid, created: c, model: m, message: msg }
                => cid == completion_id && c == created && m == model && msg@ == message,
            _ => false,
        },
    }
}

/// Per-stream mutable state. `last_count` never decreases; `finished` moves
/// `false -> true` exactly once and gates all terminal emission.
pub struct StreamController {
    pub kind: StreamKind,
    pub last_count: usize,
    pub role_sent: bool,
    pub finished: bool,
}

impl StreamController {
    /// A fresh session: nothing emitted yet.
    pub fn new(kind: StreamKind) -> (r: StreamController)
        ensures
            r.kind == kind,
            r.last_count == 0,
            !r.role_sent,
            !r.finished,
    {
        StreamController { kind, last_count: 0, role_sent: false, finished: false }
    }

    fn clone_kind(&self) -> (r: StreamKind)
        ensures
            r == self.kind,
    {
        match &self.kind {
            StreamKind::Responses { response_id, output_id, model, created } => {
                StreamKind::Responses {
                    response_id: response_id.clone(),
                    output_id: output_id.clone(),
                    model: model.clone(),
                    created: *created,
                }
            },
            StreamKind::Chat { completion_id, model, created } => {
                StreamKind::Chat {
                    completion_id: completion_id.clone(),
                    model: model.clone(),
                    created: *created,
                }
            },
        }
    }

    /// Emits the protocol's opening event. For the Chat protocol this sends
    /// the assistant role, which is then never repeated in a delta.
    pub fn send_initial(&mut self) -> (r: StreamEvent)
        ensures
            final(self).kind == old(self).kind,
            final(self).last_count == old(self).last_count,
            final(self).finished == old(self).finished,
            final(self).role_sent == (old(self).role_sent || old(self).kind is Chat),
            is_initial_event(old(self).kind, r),
    {
        match self.clone_kind() {
            StreamKind::Responses { response_id, output_id, model, created } => {
                StreamEvent::ResponseCreated { response_id, created, model }
            },
            StreamKind::Chat { completion_id, model, created } => {
                self.role_sent = true;
                StreamEvent::ChatChunkRole { completion_id, created, model }
            },
        }
    }

    /// Accepts the notification that `count` tokens exist so far. A count at
    /// or below what was already consumed is a no-op; otherwise the caller is
    /// told to decode exactly the new slice, and the slice counts as consumed
    /// whether or not it decodes to visible text.
    pub fn handle_progress(&mut self, count: usize) -> (r: Option<DeltaPlan>)
        ensures
            final(self).kind == old(self).kind,
            final(self).finished == old(self).finished,
            final(self).last_count >= old(self).last_count,
            count <= old(self).last_count ==> r is None && *final(self) == *old(self),
            count > old(self).last_count ==> {
                &&& r == Some(
                    DeltaPlan {
                        start: old(self).last_count,
                        end: count,
                        include_role: old(self).kind is Chat && !old(self).role_sent,
                    },
                )
                &&& final(self).last_count == count
                &&& final(self).role_sent == (old(self).role_sent || old(self).kind is Chat)
            },
    {
        if count <= self.last_count {
            return None;
        }
        let start = self.last_count;
        self.last_count = count;
        let include_role = match self.kind {
            StreamKind::Chat { .. } => !self.role_sent,
            _ => false,
        };
        if include_role {
            self.role_sent = true;
        }
        Some(DeltaPlan { start, end: count, include_role })
    }

    /// One more slice-decode pass at completion, catching any tail the last
    /// progress notification did not cover. Same consumption rule as
    /// `handle_progress` with the full buffer length as the count.
    pub fn flush_remaining(&mut self, total: usize) -> (r: Option<DeltaPlan>)
        ensures
            final(self).kind == old(self).kind,
            final(self).finished == old(self).finished,
            final(self).last_count >= old(self).last_count,
            total <= old(self).last_count ==> r is None && *final(self) == *old(self),
            total > old(self).last_count ==> {
                &&& r == Some(
                    DeltaPlan {
                        start: old(self).last_count,
                        end: total,
                        include_role: old(self).kind is Chat && !old(self).role_sent,
                    },
                )
                &&& final(self).last_count == total
                &&& final(self).role_sent == (old(self).role_sent || old(self).kind is Chat)
            },
    {
        self.handle_progress(total)
    }

    /// Builds the delta event carrying decoded text the caller obtained for a
    /// `DeltaPlan` slice.
    pub fn emit_delta(&self, text: String, include_role: bool) -> (r: StreamEvent)
        ensures
            is_delta_event(self.kind, text@, include_role, r),
    {
        match self.clone_kind() {
            StreamKind::Responses { response_id, output_id, model, created } => {
                StreamEvent::OutputTextDelta { response_id, output_id, created, model, delta: text }
            },
            StreamKind::Chat { completion_id, model, created } => {
                StreamEvent::ChatChunkDelta {
                    completion_id,
                    created,
                    model,
                    content: text,
                    include_role,
                }
            },
        }
    }

    /// Emits the terminal payload pair (completion event, then the `[DONE]`
    /// sentinel) at most once per session: the first call flips `finished`
    /// and returns the pair, every later call is a silent no-op.
    pub fn finalize(&mut self, normalized: &str, prompt_tokens: usize, completion_tokens: usize)
        -> (r: Option<(StreamEvent, StreamEvent)>)
        requires
            prompt_tokens + completion_tokens <= usize::MAX,
        ensures
            final(self).kind == old(self).kind,
            final(self).last_count == old(self).last_count,
            final(self).role_sent == old(self).role_sent,
            final(self).finished,
            old(self).finished ==> r is None && *final(self) == *old(self),
            !old(self).finished ==> r is Some && is_completion_event(
                old(self).kind,
                normalized@,
                prompt_tokens,
                completion_tokens,
                r->Some_0.0,
            ) && r->Some_0.1 == StreamEvent::Done,
    {
        if self.finished {
            return None;
        }
        self.finished = true;
        let usage = Usage::new(prompt_tokens, completion_tokens);
        let event = match self.clone_kind() {
            StreamKind::Responses { response_id, output_id, model, created } => {
                StreamEvent::ResponseCompleted {
                    response_id,
                    output_id,
                    created,
                    model,
                    text: String::from_str(normalized),
                    usage,
                }
            },
            StreamKind::Chat { completion_id, model, created } => {
                StreamEvent::ChatChunkFinal { completion_id, created, model, usage }
            },
        };
        Some((event, StreamEvent::Done))
    }

    /// Builds the in-band error payload pair (error event, then the sentinel)
    /// used once the stream has committed to event output and an HTTP error
    /// status can no longer be returned.
    pub fn send_error(&self, message: &str) -> (r: (StreamEvent, StreamEvent))
        ensures
            is_error_event(self.kind, message@, r.0),
            r.1 == StreamEvent::Done,
    {
        let event = match self.clone_kind() {
            StreamKind::Responses { .. } => {
                StreamEvent::ResponseError { message: String::from_str(message) }
            },
            StreamKind::Chat { completion_id, model, created } => {
                StreamEvent::ChatChunkError {
                    completion_id,
                    created,
                    model,
                    message: String::from_str(message),
                }
            },
        };
        (event, StreamEvent::Done)
    }
}

} // verus!
