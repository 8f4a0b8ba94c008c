//! The streaming decoder: it buffers the text of a streamed reply, hands out
//! the payload of each complete frame, and folds the decoded frames into the
//! updates that the consumer sees.

use crate::frame::{first_frame_len, has_frame, normalize_frame, payload_of, split_first_frame};
use crate::wire::{DeltaEvent, DeltaKind, EventView};
use vstd::prelude::*;
use vstd::string::*;

verus! {

/// What the consumer of a stream is sent: the reply so far, and whether more
/// will come.
#[derive(Debug)]
pub struct StreamUpdate {
    pub message_id: i64,
    pub cumulative_text: String,
    pub is_final: bool,
}

/// A `StreamUpdate` by its characters.
#[verifier::ext_equal]
pub struct UpdateView {
    pub message_id: i64,
    pub cumulative_text: Seq<char>,
    pub is_final: bool,
}

impl View for StreamUpdate {
    type V = UpdateView;

    open spec fn view(&self) -> UpdateView {
        UpdateView {
            message_id: self.message_id,
            cumulative_text: self.cumulative_text@,
            is_final: self.is_final,
        }
    }
}

impl DeepView for StreamUpdate {
    type V = UpdateView;

    open spec fn deep_view(&self) -> UpdateView {
        self@
    }
}

/// An optional update by its characters.
pub open spec fn update_of(u: Option<StreamUpdate>) -> Option<UpdateView> {
    match u {
        Some(u) => Some(u@),
        None => None,
    }
}

/// The state of a decoder: the text received and not yet framed, the reply
/// accumulated so far, and whether the final update has been given.
#[verifier::ext_equal]
pub struct DecoderState {
    pub message_id: i64,
    pub buffer: Seq<char>,
    pub text: Seq<char>,
    pub finished: bool,
}

impl DecoderState {
    /// The state before anything was received.
    pub open spec fn start(message_id: i64) -> DecoderState {
        DecoderState { message_id, buffer: Seq::empty(), text: Seq::empty(), finished: false }
    }

    /// The state after `chunk` was received. A finished decoder takes no
    /// more input.
    pub open spec fn push(self, chunk: Seq<char>) -> DecoderState {
        if self.finished {
            self
        } else {
            DecoderState { buffer: self.buffer + chunk, ..self }
        }
    }

    /// Whether a complete frame is waiting.
    pub open spec fn frame_ready(self) -> bool {
        !self.finished && has_frame(self.buffer)
    }

    /// The payload of the frame that is waiting.
    pub open spec fn next_payload(self) -> Seq<char> {
        payload_of(self.buffer.take(first_frame_len(self.buffer)))
    }

    /// The state after the waiting frame was taken out.
    pub open spec fn after_frame(self) -> DecoderState {
        DecoderState { buffer: self.buffer.skip(first_frame_len(self.buffer) + 2), ..self }
    }

    /// The update that closes the stream in this state.
    pub open spec fn closing_update(self) -> UpdateView {
        UpdateView { message_id: self.message_id, cumulative_text: self.text, is_final: true }
    }

    /// This state, closed: finished, and with nothing buffered.
    pub open spec fn closed(self) -> DecoderState {
        DecoderState { buffer: Seq::empty(), finished: true, ..self }
    }

    /// The state after `event`. A fragment is added to the reply; the
    /// terminal marker closes the stream; every other event, and every event
    /// after the end, changes nothing.
    pub open spec fn apply(self, event: EventView) -> DecoderState {
        if self.finished {
            self
        } else if event.kind == DeltaKind::Terminal {
            self.closed()
        } else {
            match event.fragment() {
                Some(fragment) => DecoderState { text: self.text + fragment, ..self },
                None => self,
            }
        }
    }

    /// The update that `event` gives rise to in this state, if any.
    pub open spec fn update_for(self, event: EventView) -> Option<UpdateView> {
        if self.finished {
            None
        } else if event.kind == DeltaKind::Terminal {
            Some(self.closing_update())
        } else {
            match event.fragment() {
                Some(fragment) => Some(
                    UpdateView {
                        message_id: self.message_id,
                        cumulative_text: self.text + fragment,
                        is_final: false,
                    },
                ),
                None => None,
            }
        }
    }

    /// The state after the stream ended or was cancelled.
    pub open spec fn close(self) -> DecoderState {
        if self.finished {
            self
        } else {
            self.closed()
        }
    }

    /// The update given when the stream ends or is cancelled: the closing
    /// update, unless the stream was closed before.
    pub open spec fn update_on_close(self) -> Option<UpdateView> {
        if self.finished {
            None
        } else {
            Some(self.closing_update())
        }
    }
}

/// Decoder of one streamed reply.
pub struct StreamingDecoder {
    message_id: i64,
    buffer: String,
    full_text: String,
    finished: bool,
}

impl View for StreamingDecoder {
    type V = DecoderState;

    closed spec fn view(&self) -> DecoderState {
        DecoderState {
            message_id: self.message_id,
            buffer: self.buffer@,
            text: self.full_text@,
            finished: self.finished,
        }
    }
}

impl StreamingDecoder {
    /// A decoder for the reply to message `message_id`.
    pub fn new(message_id: i64) -> (decoder: StreamingDecoder)
        ensures
            decoder@ == DecoderState::start(message_id),
    {
        StreamingDecoder {
            message_id,
            buffer: String::new(),
            full_text: String::new(),
            finished: false,
        }
    }

    /// The message that the reply belongs to.
    pub fn message_id(&self) -> (id: i64)
        ensures
            id == self@.message_id,
    {
        self.message_id
    }

    /// The reply accumulated so far.
    pub fn cumulative_text(&self) -> (text: &str)
        ensures
            text@ == self@.text,
    {
        self.full_text.as_str()
    }

    /// The text received and not yet framed.
    pub fn buffered(&self) -> (text: &str)
        ensures
            text@ == self@.buffer,
    {
        self.buffer.as_str()
    }

    /// Whether the final update has been given.
    pub fn is_finished(&self) -> (finished: bool)
        ensures
            finished == self@.finished,
    {
        self.finished
    }

    /// Receives the next piece of the stream.
    pub fn push_chunk(&mut self, chunk: &str)
        ensures
            final(self)@ == old(self)@.push(chunk@),
    {
        if !self.finished {
            self.buffer.append(chunk);
        }
    }

    /// Takes the first complete frame out of the buffer and returns its
    /// payload; `None` where no complete frame is waiting.
    pub fn next_frame(&mut self) -> (payload: Option<String>)
        ensures
            payload is Some <==> old(self)@.frame_ready(),
            payload matches Some(p) ==> p@ == old(self)@.next_payload() && final(self)@ == old(
                self,
            )@.after_frame(),
            payload is None ==> final(self)@ == old(self)@,
    {
        if self.finished {
            return None;
        }
        let (payload, rest) = match split_first_frame(self.buffer.as_str()) {
            None => {
                return None;
            },
            Some((frame, rest)) => (
                String::from_str(normalize_frame(frame)),
                String::from_str(rest),
            ),
        };
        self.buffer = rest;
        Some(payload)
    }

    fn finalize(&mut self) -> (update: StreamUpdate)
        requires
            !old(self)@.finished,
        ensures
            final(self)@ == old(self)@.closed(),
            update@ == old(self)@.closing_update(),
    {
        self.buffer = String::new();
        self.finished = true;
        StreamUpdate {
            message_id: self.message_id,
            cumulative_text: self.full_text.clone(),
            is_final: true,
        }
    }

    /// Folds one decoded frame into the reply and returns the update to send,
    /// if the frame calls for one.
    pub fn apply(&mut self, event: &DeltaEvent) -> (update: Option<StreamUpdate>)
        ensures
            final(self)@ == old(self)@.apply(event@),
            update_of(update) == old(self)@.update_for(event@),
    {
        if self.finished {
            return None;
        }
        match event.kind {
            DeltaKind::Terminal => Some(self.finalize()),
            DeltaKind::TextFragment => match &event.text {
                Some(fragment) => {
                    self.full_text.append(fragment.as_str());
                    Some(
                        StreamUpdate {
                            message_id: self.message_id,
                            cumulative_text: self.full_text.clone(),
                            is_final: false,
                        },
                    )
                },
                None => None,
            },
            _ => None,
        }
    }

    /// The stream has ended. Where the terminal marker was not seen, closes
    /// the sequence of updates with a final one.
    pub fn finish(&mut self) -> (update: Option<StreamUpdate>)
        ensures
            final(self)@ == old(self)@.close(),
            update_of(update) == old(self)@.update_on_close(),
    {
        if self.finished {
            None
        } else {
            Some(self.finalize())
        }
    }

    /// The caller asked to stop. Gives the final update with the reply as
    /// far as it got, unless the stream was closed before.
    pub fn cancel(&mut self) -> (update: Option<StreamUpdate>)
        ensures
            final(self)@ == old(self)@.close(),
            update_of(update) == old(self)@.update_on_close(),
    {
        self.finish()
    }
}

} // verus!
