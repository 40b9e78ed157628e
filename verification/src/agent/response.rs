use vstd::prelude::*;

use crate::agent::client::AgentClientMessageToolCall;

verus! {

/// A JSON value carried through unread (the `code` of a mid-stream error,
/// which providers send as a number or a string).
#[verifier::external_type_specification]
#[verifier::external_body]
pub struct ExJsonValue(serde_json::Value);

/// Events emitted during streaming responses.
#[derive(Debug, Clone, PartialEq, Eq)]
pub enum StreamEvent {
    /// A fragment of the model's reasoning
    ReasoningDelta(String),
    /// A fragment of the model's visible output
    ContentDelta(String),
    /// Emitted once after the stream has fully ended
    Done,
}

/// What a `StreamEvent` says, as plain text.
pub enum StreamEventView {
    ReasoningDelta(Seq<char>),
    ContentDelta(Seq<char>),
    Done,
}

impl View for StreamEvent {
    type V = StreamEventView;

    open spec fn view(&self) -> StreamEventView {
        match self {
            StreamEvent::ReasoningDelta(t) => StreamEventView::ReasoningDelta(t@),
            StreamEvent::ContentDelta(t) => StreamEventView::ContentDelta(t@),
            StreamEvent::Done => StreamEventView::Done,
        }
    }
}

/// Token counts that a provider reports for one request.
#[derive(Debug, Clone, Copy, PartialEq, Eq)]
pub struct TokenUsage {
    pub prompt_tokens: u32,
    pub completion_tokens: u32,
    pub total_tokens: u32,
}

/// A single SSE chunk from the OpenRouter streaming API.
#[derive(Debug)]
pub struct StreamChunk {
    pub id: Option<String>,
    pub model: Option<String>,
    pub provider: Option<String>,
    pub choices: Vec<StreamChoice>,
    pub usage: Option<TokenUsage>,
    pub error: Option<StreamError>,
}

#[derive(Debug)]
pub struct StreamChoice {
    pub index: u32,
    pub finish_reason: Option<String>,
    pub delta: StreamDelta,
}

#[derive(Debug)]
pub struct StreamDelta {
    pub role: Option<String>,
    pub content: Option<String>,
    pub reasoning: Option<String>,
    pub tool_calls: Option<Vec<StreamToolCall>>,
}

/// A tool-call delta. The first delta typically carries the tool `id` and function `name`
/// Subsequent deltas for the same index carry `arguments` fragments that must be concatenated.
#[derive(Debug)]
pub struct StreamToolCall {
    pub index: u32,
    pub id: Option<String>,
    pub type_: Option<String>,
    pub function: Option<StreamToolFunction>,
}

#[derive(Debug)]
pub struct StreamToolFunction {
    pub name: Option<String>,
    pub arguments: Option<String>,
}

/// A mid-stream error.
#[derive(Debug)]
pub struct StreamError {
    pub code: serde_json::Value,
    pub message: String,
}

#[derive(Debug, Clone, PartialEq, Eq)]
pub struct OpenRouterAPIResponseChoice {
    pub index: u32,
    pub finish_reason: String,
    pub message: OpenRouterAPIResponseMessage,
}

#[derive(Debug, Clone, PartialEq, Eq)]
pub struct OpenRouterAPIResponseMessage {
    pub role: String,
    pub content: Option<String>,
    pub reasoning: Option<String>,
    pub refusal: Option<String>,
    pub tool_calls: Option<Vec<AgentClientMessageToolCall>>,
}

} // verus!
