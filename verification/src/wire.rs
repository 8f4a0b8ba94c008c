//! The provider's wire messages as plain values, and what each frame of a
//! streamed reply means to the decoder.

use crate::frame::{error_payload_of, normalize_error_frame};
use crate::json::Json;
use crate::text::same_text;
use vstd::prelude::*;
use vstd::string::*;

verus! {

/// Token counts that the provider reports.
#[derive(Debug)]
pub struct AnthropicUsage {
    pub input_tokens: Option<u32>,
    pub output_tokens: Option<u32>,
}

/// One block of a complete reply.
#[derive(Debug)]
pub struct AnthropicContentBlock {
    pub content_type: String,
    pub text: Option<String>,
}

/// The change that one frame of a streamed reply carries.
#[derive(Debug)]
pub struct AnthropicTextDelta {
    pub delta_type: Option<String>,
    pub text: Option<String>,
    pub stop_reason: Option<String>,
    pub stop_sequence: Option<String>,
    pub usage: Option<AnthropicUsage>,
}

/// A complete reply, or the head of a streamed one.
#[derive(Debug)]
pub struct AnthropicMessage {
    pub id: Option<String>,
    pub message_type: String,
    pub role: Option<String>,
    pub content: Option<Vec<AnthropicContentBlock>>,
    pub model: Option<String>,
    pub stop_reason: Option<String>,
    pub stop_sequence: Option<String>,
    pub usage: Option<AnthropicUsage>,
}

/// One decoded frame of a streamed reply.
#[derive(Debug)]
pub struct AnthropicChatCompletionChunk {
    pub event_type: String,
    pub index: Option<usize>,
    pub delta: Option<AnthropicTextDelta>,
    pub message: Option<AnthropicMessage>,
}

/// A frame in which the provider reports an error.
#[derive(Debug)]
pub struct AnthropicErrorMessage {
    pub error_type: String,
    pub error: AnthropicErrorDetails,
}

/// What the provider says of an error.
#[derive(Debug)]
pub struct AnthropicErrorDetails {
    pub details: Option<Json>,
    pub error_type: String,
    pub message: String,
}

/// How the model may use tools.
#[derive(Debug)]
pub enum ToolChoice {
    Auto,
    Any,
    Tool(String),
}

/// What a frame means to the decoder.
#[derive(Debug, Clone, Copy, PartialEq, Eq, Structural)]
pub enum DeltaKind {
    /// A delta; with text, the next fragment of the reply.
    TextFragment,
    /// The reply is complete.
    Terminal,
    /// The provider reported an error.
    ErrorFrame,
    /// Anything else: a frame of a kind the decoder has no use for, or one
    /// that could not be decoded at all.
    Unrecognized,
}

/// One frame, normalized.
#[derive(Debug)]
pub struct DeltaEvent {
    pub kind: DeltaKind,
    pub text: Option<String>,
    pub raw: Option<String>,
}

/// A `DeltaEvent` by its characters.
#[verifier::ext_equal]
pub struct EventView {
    pub kind: DeltaKind,
    pub text: Option<Seq<char>>,
    pub raw: Option<Seq<char>>,
}

/// An optional string by its characters.
pub open spec fn text_of(s: Option<String>) -> Option<Seq<char>> {
    match s {
        Some(s) => Some(s@),
        None => None,
    }
}

impl View for DeltaEvent {
    type V = EventView;

    open spec fn view(&self) -> EventView {
        EventView { kind: self.kind, text: text_of(self.text), raw: text_of(self.raw) }
    }
}

impl DeepView for DeltaEvent {
    type V = EventView;

    open spec fn deep_view(&self) -> EventView {
        self@
    }
}

impl EventView {
    /// The fragment that this event adds to the reply, if it adds one.
    pub open spec fn fragment(self) -> Option<Seq<char>> {
        if self.kind == DeltaKind::TextFragment {
            self.text
        } else {
            None
        }
    }

    /// Whether this event changes nothing: an error frame, an unrecognized
    /// frame, or a delta without text.
    pub open spec fn is_inert(self) -> bool {
        self.kind != DeltaKind::Terminal && self.fragment() is None
    }
}

fn copy_text(s: &Option<String>) -> (copy: Option<String>)
    ensures
        text_of(copy) == text_of(*s),
{
    match s {
        Some(s) => Some(s.clone()),
        None => None,
    }
}

impl AnthropicChatCompletionChunk {
    /// What this frame means: a frame with a delta is a text fragment, with
    /// the delta's text; without a delta, a frame of type `message_stop` is
    /// the terminal marker; any other frame is unrecognized, and carries its
    /// type as diagnostic.
    pub open spec fn event(self) -> EventView {
        match self.delta {
            Some(delta) => EventView {
                kind: DeltaKind::TextFragment,
                text: text_of(delta.text),
                raw: None,
            },
            None => if self.event_type@ == "message_stop"@ {
                EventView { kind: DeltaKind::Terminal, text: None, raw: None }
            } else {
                EventView {
                    kind: DeltaKind::Unrecognized,
                    text: None,
                    raw: Some(self.event_type@),
                }
            },
        }
    }

    /// What this frame means to the decoder.
    pub fn to_event(&self) -> (event: DeltaEvent)
        ensures
            event@ == self.event(),
    {
        match &self.delta {
            Some(delta) => DeltaEvent {
                kind: DeltaKind::TextFragment,
                text: copy_text(&delta.text),
                raw: None,
            },
            None => if same_text(self.event_type.as_str(), "message_stop") {
                DeltaEvent { kind: DeltaKind::Terminal, text: None, raw: None }
            } else {
                DeltaEvent {
                    kind: DeltaKind::Unrecognized,
                    text: None,
                    raw: Some(self.event_type.clone()),
                }
            },
        }
    }
}

impl AnthropicErrorMessage {
    /// The line that reports this error: its type, a colon and a space, and
    /// the provider's message.
    pub open spec fn report(self) -> Seq<char> {
        self.error.error_type@ + ": "@ + self.error.message@
    }

    /// The error as an event for the decoder, with the report as diagnostic.
    pub fn to_event(&self) -> (event: DeltaEvent)
        ensures
            event@ == (EventView {
                kind: DeltaKind::ErrorFrame,
                text: None,
                raw: Some(self.report()),
            }),
    {
        let line = self.error.error_type.clone().concat(": ").concat(self.error.message.as_str());
        DeltaEvent { kind: DeltaKind::ErrorFrame, text: None, raw: Some(line) }
    }
}

impl DeltaEvent {
    /// The event for a frame that decoded neither as a delta nor as an
    /// error: `payload` is kept as diagnostic.
    pub fn unrecognized(payload: &str) -> (event: DeltaEvent)
        ensures
            event@ == (EventView {
                kind: DeltaKind::Unrecognized,
                text: None,
                raw: Some(payload@),
            }),
    {
        DeltaEvent { kind: DeltaKind::Unrecognized, text: None, raw: Some(String::from_str(payload)) }
    }
}

/// What the frame with the payload `payload` means, by what it decoded to:
/// where it decoded as a delta frame, what that frame means; else, where
/// its error payload decoded as an error of the provider, that error; else
/// nothing that is known, with the error payload as diagnostic.
pub open spec fn decoded_event(
    chunk: Option<AnthropicChatCompletionChunk>,
    error: Option<AnthropicErrorMessage>,
    payload: Seq<char>,
) -> EventView {
    match chunk {
        Some(chunk) => chunk.event(),
        None => match error {
            Some(error) => EventView {
                kind: DeltaKind::ErrorFrame,
                text: None,
                raw: Some(error.report()),
            },
            None => EventView {
                kind: DeltaKind::Unrecognized,
                text: None,
                raw: Some(error_payload_of(payload)),
            },
        },
    }
}

/// Decides what a frame means. `chunk` is what the payload decoded to as
/// a delta frame, `error` what its error payload decoded to as an error of
/// the provider; `error` counts only where `chunk` is none.
pub fn decode_event(
    chunk: Option<AnthropicChatCompletionChunk>,
    error: Option<AnthropicErrorMessage>,
    payload: &str,
) -> (event: DeltaEvent)
    ensures
        event@ == decoded_event(chunk, error, payload@),
{
    match chunk {
        Some(chunk) => chunk.to_event(),
        None => match error {
            Some(error) => error.to_event(),
            None => DeltaEvent::unrecognized(normalize_error_frame(payload)),
        },
    }
}

} // verus!
