use vstd::prelude::*;

use crate::agent::response::{
    OpenRouterAPIResponseChoice, OpenRouterAPIResponseMessage, StreamChoice, StreamChunk,
    StreamEvent, StreamEventView, StreamToolCall, TokenUsage,
};
use crate::text::{
    copy_str, decimal, find_char_from, from_char_range, push_decimal, push_str, starts_with,
    str_contains_char, str_eq, str_starts_with, to_chars, trim, trim_bounds, trim_end_char,
    trim_end_matches_char, texts, utf8_lossy, utf8_lossy_string,
};
use crate::headers::{header_value, is_header_text};
use reqwest::header::HeaderValue;
use vstd::utf8::encode_utf8;

verus! {

// ---------------------------------------------------------------------------
// Messages exchanged with the model
// ---------------------------------------------------------------------------

/// Represents all possible messages that are used to communicate between the agent and the client.
#[derive(Debug, Clone, PartialEq, Eq)]
pub enum AgentClientMessage {
    System(AgentClientMessageSystem),
    User(AgentClientMessageUser),
    Assistant(AgentClientMessageAssistant),
    Tool(AgentClientMessageTool),
}

/// Represents a system message sent to the agent, which may include instructions or context.
#[derive(Debug, Clone, PartialEq, Eq)]
pub struct AgentClientMessageSystem {
    pub role: String,
    pub content: String,
}

/// Represents a message sent by the user to the agent.
#[derive(Debug, Clone, PartialEq, Eq)]
pub struct AgentClientMessageUser {
    pub role: String,
    pub content: String,
}

/// Represents a message sent by the agent to the user, which may include tool calls.
#[derive(Debug, Clone, PartialEq, Eq)]
pub struct AgentClientMessageAssistant {
    pub role: String,
    pub content: Option<String>,
    pub reasoning: Option<String>,
    pub tool_calls: Option<Vec<AgentClientMessageToolCall>>,
}

#[derive(Debug, Clone, PartialEq, Eq)]
pub struct AgentClientMessageToolCall {
    pub id: String,
    pub type_: String,
    pub function: AgentClientMessageToolFunction,
}

#[derive(Debug, Clone, PartialEq, Eq)]
pub struct AgentClientMessageToolFunction {
    pub name: String,
    /// Needs to be parsed as a JSON object later, since it is already escaped as a string in the API response.
    pub arguments: String,
}

/// Represents the data returned by this client that is sent to the agent for processing.
#[derive(Debug, Clone, PartialEq, Eq)]
pub struct AgentClientMessageTool {
    pub role: String,
    pub tool_call_id: String,
    pub content: Option<String>,
}

/// The text of an optional string.
pub open spec fn opt_text(o: Option<String>) -> Option<Seq<char>> {
    match o {
        Some(s) => Some(s@),
        None => None,
    }
}

/// What a tool call says, as plain text.
#[verifier::ext_equal]
pub struct ToolCallView {
    pub id: Seq<char>,
    pub kind: Seq<char>,
    pub name: Seq<char>,
    pub arguments: Seq<char>,
}

impl View for AgentClientMessageToolCall {
    type V = ToolCallView;

    open spec fn view(&self) -> ToolCallView {
        ToolCallView {
            id: self.id@,
            kind: self.type_@,
            name: self.function.name@,
            arguments: self.function.arguments@,
        }
    }
}

/// The views of a sequence of tool calls.
pub open spec fn calls_view(v: Seq<AgentClientMessageToolCall>) -> Seq<ToolCallView> {
    v.map_values(|c: AgentClientMessageToolCall| c@)
}

/// The views of a sequence of stream events.
pub open spec fn events_view(v: Seq<StreamEvent>) -> Seq<StreamEventView> {
    v.map_values(|e: StreamEvent| e@)
}

/// A copy of an optional string.
pub fn copy_opt_string(o: &Option<String>) -> (r: Option<String>)
    ensures
        opt_text(r) == opt_text(*o),
{
    match o {
        Some(s) => Some(s.clone()),
        None => None,
    }
}

/// A copy of a tool call.
pub fn copy_tool_call(c: &AgentClientMessageToolCall) -> (r: AgentClientMessageToolCall)
    ensures
        r@ == c@,
{
    AgentClientMessageToolCall {
        id: c.id.clone(),
        type_: c.type_.clone(),
        function: AgentClientMessageToolFunction {
            name: c.function.name.clone(),
            arguments: c.function.arguments.clone(),
        },
    }
}

/// A copy of a list of tool calls.
pub fn copy_tool_calls(v: &Vec<AgentClientMessageToolCall>) -> (r: Vec<AgentClientMessageToolCall>)
    ensures
        calls_view(r@) == calls_view(v@),
{
    let mut r: Vec<AgentClientMessageToolCall> = Vec::new();
    let mut i: usize = 0;
    while i < v.len()
        invariant
            i <= v.len(),
            r.len() == i,
            forall|k: int| 0 <= k < i ==> (#[trigger] r@[k])@ == v@[k]@,
        decreases v.len() - i,
    {
        r.push(copy_tool_call(&v[i]));
        i = i + 1;
    }
    assert(calls_view(r@) == calls_view(v@));
    r
}

// ---------------------------------------------------------------------------
// Accumulating a streamed response
// ---------------------------------------------------------------------------

/// Tool-call slots beyond this index are refused, so that a malformed or
/// adversarial response cannot make the accumulator allocate without bound.
pub const MAX_TOOL_CALLS: usize = 128;

/// Lines longer than this many bytes without a newline end the stream.
pub const MAX_LINE_LEN: usize = 1048576;

/// Why a streamed response was abandoned.
#[derive(Debug, Clone, PartialEq, Eq)]
pub enum StreamFailure {
    /// The line buffer grew past `MAX_LINE_LEN` bytes without a newline.
    LineTooLong,
    /// The provider sent a chunk with a top-level `error` (its message).
    ErrorChunk(String),
    /// A tool-call delta named a slot at or beyond `MAX_TOOL_CALLS`.
    ToolCallIndex(u32),
}

/// The text of the failure `f`, as the client reports it.
pub open spec fn failure_text(f: StreamFailure) -> Seq<char> {
    match f {
        StreamFailure::LineTooLong => "SSE line exceeded maximum length (1048576 bytes) without a newline"@,
        StreamFailure::ErrorChunk(m) => "Stream error: "@ + m@,
        StreamFailure::ToolCallIndex(i) => "Tool call index "@ + decimal(i as nat) + " exceeds maximum (128)"@,
    }
}

impl StreamFailure {
    /// The message reported for this failure.
    pub fn message(&self) -> (m: String)
        ensures
            m@ == failure_text(*self),
    {
        match self {
            StreamFailure::LineTooLong => {
                copy_str("SSE line exceeded maximum length (1048576 bytes) without a newline")
            },
            StreamFailure::ErrorChunk(msg) => {
                let mut m = copy_str("Stream error: ");
                push_str(&mut m, msg.as_str());
                m
            },
            StreamFailure::ToolCallIndex(i) => {
                let mut m = copy_str("Tool call index ");
                push_decimal(&mut m, *i as u128);
                push_str(&mut m, " exceeds maximum (128)");
                m
            },
        }
    }
}

/// Accumulated state while consuming a streaming response.
pub struct StreamAccumulator {
    pub role: String,
    pub content: String,
    pub reasoning: String,
    pub tool_calls: Vec<AgentClientMessageToolCall>,
    pub finish_reason: String,
    pub usage: Option<TokenUsage>,
    pub chunk_id: String,
    pub chunk_model: String,
    pub chunk_provider: String,
}

/// What a `StreamAccumulator` holds, as plain values.
#[verifier::ext_equal]
pub struct AccumulatorView {
    pub role: Seq<char>,
    pub content: Seq<char>,
    pub reasoning: Seq<char>,
    pub tool_calls: Seq<ToolCallView>,
    pub finish_reason: Seq<char>,
    pub usage: Option<TokenUsage>,
    pub chunk_id: Seq<char>,
    pub chunk_model: Seq<char>,
    pub chunk_provider: Seq<char>,
}

impl View for StreamAccumulator {
    type V = AccumulatorView;

    open spec fn view(&self) -> AccumulatorView {
        AccumulatorView {
            role: self.role@,
            content: self.content@,
            reasoning: self.reasoning@,
            tool_calls: calls_view(self.tool_calls@),
            finish_reason: self.finish_reason@,
            usage: self.usage,
            chunk_id: self.chunk_id@,
            chunk_model: self.chunk_model@,
            chunk_provider: self.chunk_provider@,
        }
    }
}

/// A freshly allocated tool-call slot.
pub open spec fn blank_tool_call() -> ToolCallView {
    ToolCallView { id: Seq::empty(), kind: "function"@, name: Seq::empty(), arguments: Seq::empty() }
}

/// The tool calls after absorbing one tool-call delta (whose index is below
/// `MAX_TOOL_CALLS`): the list grows with blank slots up to the index, the
/// slot takes the delta's id, type and name where the delta has them, and
/// the delta's argument fragment is appended to the slot's arguments.
pub open spec fn apply_tool_delta(calls: Seq<ToolCallView>, d: StreamToolCall) -> Seq<ToolCallView> {
    let idx = d.index as int;
    let grown = if idx >= calls.len() {
        calls + Seq::new((idx + 1 - calls.len()) as nat, |i: int| blank_tool_call())
    } else {
        calls
    };
    let slot = grown[idx];
    let name = match d.function {
        Some(f) => match f.name {
            Some(n) => n@,
            None => slot.name,
        },
        None => slot.name,
    };
    let extra = match d.function {
        Some(f) => match f.arguments {
            Some(a) => a@,
            None => Seq::empty(),
        },
        None => Seq::empty(),
    };
    grown.update(
        idx,
        ToolCallView {
            id: match d.id {
                Some(x) => x@,
                None => slot.id,
            },
            kind: match d.type_ {
                Some(t) => t@,
                None => slot.kind,
            },
            name: name,
            arguments: slot.arguments + extra,
        },
    )
}

/// The tool calls after absorbing the deltas `ds` in order, and the index of
/// the first delta refused for naming a slot at or beyond `MAX_TOOL_CALLS`
/// (absorption stops there).
pub open spec fn apply_tool_deltas(calls: Seq<ToolCallView>, ds: Seq<StreamToolCall>) -> (Seq<ToolCallView>, Option<u32>)
    decreases ds.len(),
{
    if ds.len() == 0 {
        (calls, None)
    } else if ds[0].index >= 128 {
        (calls, Some(ds[0].index))
    } else {
        apply_tool_deltas(apply_tool_delta(calls, ds[0]), ds.drop_first())
    }
}

/// The argument fragment a tool-call delta carries (empty when none).
pub open spec fn delta_arguments(d: StreamToolCall) -> Seq<char> {
    match d.function {
        Some(f) => match f.arguments {
            Some(a) => a@,
            None => Seq::empty(),
        },
        None => Seq::empty(),
    }
}

/// The argument fragments of `ds`, concatenated in order.
pub open spec fn concat_fragments(ds: Seq<StreamToolCall>) -> Seq<char>
    decreases ds.len(),
{
    if ds.len() == 0 {
        Seq::empty()
    } else {
        delta_arguments(ds[0]) + concat_fragments(ds.drop_first())
    }
}

/// Deltas for one slot concatenate their argument fragments in order: the
/// slot's arguments end up as what it held (nothing for a new slot)
/// followed by every fragment.
pub proof fn lemma_fragments_concatenate(calls: Seq<ToolCallView>, ds: Seq<StreamToolCall>, i: u32)
    requires
        i < 128,
        forall|k: int| 0 <= k < ds.len() ==> (#[trigger] ds[k]).index == i,
    ensures
        apply_tool_deltas(calls, ds).1 is None,
        ds.len() > 0 || i < calls.len() ==> {
            let r = apply_tool_deltas(calls, ds).0;
            &&& i < r.len()
            &&& r[i as int].arguments == (if i < calls.len() {
                calls[i as int].arguments
            } else {
                Seq::empty()
            }) + concat_fragments(ds)
        },
    decreases ds.len(),
{
    if ds.len() > 0 {
        let d = ds[0];
        let c1 = apply_tool_delta(calls, d);
        let idx = i as int;
        let grown = if idx >= calls.len() {
            calls + Seq::new((idx + 1 - calls.len()) as nat, |k: int| blank_tool_call())
        } else {
            calls
        };
        let base = if i < calls.len() {
            calls[idx].arguments
        } else {
            Seq::<char>::empty()
        };
        assert(grown[idx].arguments == base);
        assert(c1[idx].arguments == base + delta_arguments(d));
        let rest = ds.drop_first();
        assert forall|k: int| 0 <= k < rest.len() implies (#[trigger] rest[k]).index == i by {
            assert(rest[k] == ds[k + 1]);
        }
        lemma_fragments_concatenate(c1, rest, i);
        assert(base + delta_arguments(d) + concat_fragments(rest) =~= base + concat_fragments(ds));
    } else {
        if i < calls.len() {
            assert(calls[i as int].arguments + Seq::<char>::empty() =~= calls[i as int].arguments);
        }
    }
}

/// The outcome of absorbing choices: the new state, the events to show, and
/// the refused tool-call index, if any.
#[verifier::ext_equal]
pub struct ChoicesView {
    pub acc: AccumulatorView,
    pub events: Seq<StreamEventView>,
    pub failure: Option<u32>,
}

/// Absorbing one choice: its role replaces the role; a non-empty reasoning
/// fragment is appended and shown; a non-empty content fragment is appended
/// and shown; its finish reason replaces the finish reason; its tool-call
/// deltas are absorbed.
pub open spec fn apply_choice(a: AccumulatorView, ch: StreamChoice) -> ChoicesView {
    let d = ch.delta;
    let has_reasoning = d.reasoning is Some && d.reasoning->0@.len() > 0;
    let has_content = d.content is Some && d.content->0@.len() > 0;
    let deltas = match d.tool_calls {
        Some(v) => apply_tool_deltas(a.tool_calls, v@),
        None => (a.tool_calls, None),
    };
    ChoicesView {
        acc: AccumulatorView {
            role: match d.role {
                Some(r) => r@,
                None => a.role,
            },
            reasoning: if has_reasoning {
                a.reasoning + d.reasoning->0@
            } else {
                a.reasoning
            },
            content: if has_content {
                a.content + d.content->0@
            } else {
                a.content
            },
            finish_reason: match ch.finish_reason {
                Some(f) => f@,
                None => a.finish_reason,
            },
            tool_calls: deltas.0,
            ..a
        },
        events: (if has_reasoning {
            seq![StreamEventView::ReasoningDelta(d.reasoning->0@)]
        } else {
            Seq::empty()
        }) + (if has_content {
            seq![StreamEventView::ContentDelta(d.content->0@)]
        } else {
            Seq::empty()
        }),
        failure: deltas.1,
    }
}

/// Absorbing choices in order, stopping at the first refused tool call.
pub open spec fn apply_choices(a: AccumulatorView, chs: Seq<StreamChoice>) -> ChoicesView
    decreases chs.len(),
{
    if chs.len() == 0 {
        ChoicesView { acc: a, events: Seq::empty(), failure: None }
    } else {
        let first = apply_choice(a, chs[0]);
        if first.failure is Some {
            first
        } else {
            let rest = apply_choices(first.acc, chs.drop_first());
            ChoicesView { acc: rest.acc, events: first.events + rest.events, failure: rest.failure }
        }
    }
}

/// The content fragment of a choice (empty when it has none).
pub open spec fn choice_content(ch: StreamChoice) -> Seq<char> {
    match ch.delta.content {
        Some(c) => c@,
        None => Seq::empty(),
    }
}

/// The reasoning fragment of a choice (empty when it has none).
pub open spec fn choice_reasoning(ch: StreamChoice) -> Seq<char> {
    match ch.delta.reasoning {
        Some(r) => r@,
        None => Seq::empty(),
    }
}

/// The content fragments of `chs`, concatenated in order.
pub open spec fn concat_contents(chs: Seq<StreamChoice>) -> Seq<char>
    decreases chs.len(),
{
    if chs.len() == 0 {
        Seq::empty()
    } else {
        choice_content(chs[0]) + concat_contents(chs.drop_first())
    }
}

/// The reasoning fragments of `chs`, concatenated in order.
pub open spec fn concat_reasonings(chs: Seq<StreamChoice>) -> Seq<char>
    decreases chs.len(),
{
    if chs.len() == 0 {
        Seq::empty()
    } else {
        choice_reasoning(chs[0]) + concat_reasonings(chs.drop_first())
    }
}

/// Absorbing choices appends their content fragments, in order, to the
/// content, and their reasoning fragments to the reasoning (when no tool
/// call was refused on the way).
pub proof fn lemma_choices_concatenate(a: AccumulatorView, chs: Seq<StreamChoice>)
    requires
        apply_choices(a, chs).failure is None,
    ensures
        apply_choices(a, chs).acc.content == a.content + concat_contents(chs),
        apply_choices(a, chs).acc.reasoning == a.reasoning + concat_reasonings(chs),
    decreases chs.len(),
{
    if chs.len() == 0 {
        assert(a.content + Seq::<char>::empty() =~= a.content);
        assert(a.reasoning + Seq::<char>::empty() =~= a.reasoning);
    } else {
        let ch = chs[0];
        let first = apply_choice(a, ch);
        let rest = chs.drop_first();
        assert(first.acc.content =~= a.content + choice_content(ch));
        assert(first.acc.reasoning =~= a.reasoning + choice_reasoning(ch));
        lemma_choices_concatenate(first.acc, rest);
        assert(a.content + choice_content(ch) + concat_contents(rest) =~= a.content
            + concat_contents(chs));
        assert(a.reasoning + choice_reasoning(ch) + concat_reasonings(rest) =~= a.reasoning
            + concat_reasonings(chs));
    }
}

/// A refused tool call names a slot at or beyond `MAX_TOOL_CALLS`, and it
/// is the index of one of the deltas given; without one, no delta is
/// refused.
pub proof fn lemma_tool_failure(calls: Seq<ToolCallView>, ds: Seq<StreamToolCall>)
    ensures
        apply_tool_deltas(calls, ds).1 matches Some(i) ==> i >= 128 && exists|k: int|
            0 <= k < ds.len() && (#[trigger] ds[k]).index == i,
        (forall|k: int| 0 <= k < ds.len() ==> (#[trigger] ds[k]).index < 128) ==> apply_tool_deltas(
            calls,
            ds,
        ).1 is None,
    decreases ds.len(),
{
    if ds.len() > 0 && ds[0].index < 128 {
        let rest = ds.drop_first();
        lemma_tool_failure(apply_tool_delta(calls, ds[0]), rest);
        if apply_tool_deltas(calls, ds).1 is Some {
            let i = apply_tool_deltas(calls, ds).1->0;
            let k = choose|k: int| 0 <= k < rest.len() && (#[trigger] rest[k]).index == i;
            assert(ds[k + 1] == rest[k]);
        }
        assert forall|k: int| 0 <= k < rest.len() implies rest[k] == ds[k + 1] by {}
    }
}

/// A stream that fails on a tool call fails on a slot at or beyond
/// `MAX_TOOL_CALLS`; choices whose deltas all stay below never fail.
pub proof fn lemma_choices_failure(a: AccumulatorView, chs: Seq<StreamChoice>)
    ensures
        apply_choices(a, chs).failure matches Some(i) ==> i >= 128,
    decreases chs.len(),
{
    if chs.len() > 0 {
        let first = apply_choice(a, chs[0]);
        match chs[0].delta.tool_calls {
            Some(v) => lemma_tool_failure(a.tool_calls, v@),
            None => {},
        }
        lemma_choices_failure(first.acc, chs.drop_first());
    }
}

/// Metadata (id, model, provider) is taken from the first chunk that has it.
pub open spec fn apply_metadata(a: AccumulatorView, c: StreamChunk) -> AccumulatorView {
    AccumulatorView {
        chunk_id: if a.chunk_id.len() == 0 && c.id is Some {
            c.id->0@
        } else {
            a.chunk_id
        },
        chunk_model: if a.chunk_model.len() == 0 && c.model is Some {
            c.model->0@
        } else {
            a.chunk_model
        },
        chunk_provider: if a.chunk_provider.len() == 0 && c.provider is Some {
            c.provider->0@
        } else {
            a.chunk_provider
        },
        ..a
    }
}

/// What consuming one chunk yields: the events to show, in order, and the
/// failure that ends the stream, if any.
pub struct ChunkOutcome {
    pub events: Vec<StreamEvent>,
    pub failure: Option<StreamFailure>,
}

impl StreamAccumulator {
    /// The state before any chunk: role `assistant`, finish reason `stop`,
    /// everything else empty.
    pub fn new() -> (r: Self)
        ensures
            r@.role == "assistant"@,
            r@.content.len() == 0,
            r@.reasoning.len() == 0,
            r@.tool_calls.len() == 0,
            r@.finish_reason == "stop"@,
            r@.usage is None,
            r@.chunk_id.len() == 0,
            r@.chunk_model.len() == 0,
            r@.chunk_provider.len() == 0,
    {
        StreamAccumulator {
            role: copy_str("assistant"),
            content: String::new(),
            reasoning: String::new(),
            tool_calls: Vec::new(),
            finish_reason: copy_str("stop"),
            usage: None,
            chunk_id: String::new(),
            chunk_model: String::new(),
            chunk_provider: String::new(),
        }
    }

    /// Absorbs one tool-call delta whose index is below `MAX_TOOL_CALLS`.
    fn apply_tool_delta(&mut self, d: StreamToolCall)
        requires
            d.index < 128,
        ensures
            final(self)@ == (AccumulatorView {
                tool_calls: apply_tool_delta(old(self)@.tool_calls, d),
                ..old(self)@
            }),
    {
        let ghost old_calls = calls_view(self.tool_calls@);
        let ghost dd = d;
        let idx = d.index as usize;
        while self.tool_calls.len() <= idx
            invariant
                idx == d.index,
                idx < 128,
                old_calls == old(self)@.tool_calls,
                self@ == (AccumulatorView { tool_calls: self@.tool_calls, ..old(self)@ }),
                old_calls.len() <= self.tool_calls.len() <= idx + 1 || self.tool_calls.len()
                    == old_calls.len(),
                calls_view(self.tool_calls@) == (if idx >= old_calls.len() {
                    old_calls + Seq::new(
                        (self.tool_calls.len() - old_calls.len()) as nat,
                        |i: int| blank_tool_call(),
                    )
                } else {
                    old_calls
                }),
            decreases idx + 1 - self.tool_calls.len(),
        {
            let ghost before = calls_view(self.tool_calls@);
            self.tool_calls.push(
                AgentClientMessageToolCall {
                    id: String::new(),
                    type_: copy_str("function"),
                    function: AgentClientMessageToolFunction {
                        name: String::new(),
                        arguments: String::new(),
                    },
                },
            );
            assert(calls_view(self.tool_calls@) == before.push(blank_tool_call()));
            assert(Seq::new(
                (self.tool_calls.len() - old_calls.len()) as nat,
                |i: int| blank_tool_call(),
            ) == Seq::new(
                (self.tool_calls.len() - 1 - old_calls.len()) as nat,
                |i: int| blank_tool_call(),
            ).push(blank_tool_call()));
        }
        let ghost grown = calls_view(self.tool_calls@);
        assert(idx < self.tool_calls.len());
        let slot = copy_tool_call(&self.tool_calls[idx]);
        let mut id = slot.id;
        let mut kind = slot.type_;
        let mut name = slot.function.name;
        let mut arguments = slot.function.arguments;
        if let Some(x) = d.id {
            id = x;
        }
        if let Some(t) = d.type_ {
            kind = t;
        }
        if let Some(f) = d.function {
            if let Some(n) = f.name {
                name = n;
            }
            if let Some(a) = f.arguments {
                push_str(&mut arguments, a.as_str());
            }
        }
        self.tool_calls[idx] = AgentClientMessageToolCall {
            id: id,
            type_: kind,
            function: AgentClientMessageToolFunction { name: name, arguments: arguments },
        };
        assert(calls_view(self.tool_calls@) == apply_tool_delta(old_calls, dd));
        assert(self@ =~= (AccumulatorView {
            tool_calls: apply_tool_delta(old(self)@.tool_calls, dd),
            ..old(self)@
        }));
    }

    /// Absorbs tool-call deltas in order; stops at the first one whose index
    /// is at or beyond `MAX_TOOL_CALLS` and returns that index.
    fn apply_tool_deltas(&mut self, deltas: Vec<StreamToolCall>) -> (r: Option<u32>)
        ensures
            final(self)@ == (AccumulatorView {
                tool_calls: apply_tool_deltas(old(self)@.tool_calls, deltas@).0,
                ..old(self)@
            }),
            r == apply_tool_deltas(old(self)@.tool_calls, deltas@).1,
    {
        let ghost all = deltas@;
        let ghost start = old(self)@;
        let mut rest = deltas;
        let n = rest.len();
        let mut i: usize = 0;
        assert(all.skip(0) == all);
        while i < n
            invariant
                n == all.len(),
                i <= n,
                rest@ == all.skip(i as int),
                all == deltas@,
                start == old(self)@,
                self@ == (AccumulatorView { tool_calls: self@.tool_calls, ..start }),
                apply_tool_deltas(start.tool_calls, all) == apply_tool_deltas(
                    self@.tool_calls,
                    all.skip(i as int),
                ),
            decreases n - i,
        {
            let d = rest.remove(0);
            assert(all.skip(i as int).drop_first() == all.skip(i + 1));
            assert(d == all.skip(i as int)[0]);
            if d.index >= 128 {
                assert(apply_tool_deltas(self@.tool_calls, all.skip(i as int)) == (
                    self@.tool_calls,
                    Some(d.index),
                ));
                assert(self@ =~= (AccumulatorView {
                    tool_calls: apply_tool_deltas(start.tool_calls, all).0,
                    ..start
                }));
                return Some(d.index);
            }
            self.apply_tool_delta(d);
            i = i + 1;
        }
        assert(all.skip(n as int).len() == 0);
        None
    }

    /// Absorbs one choice and returns the events it produces and the refused
    /// tool-call index, if any.
    fn apply_choice(&mut self, ch: StreamChoice) -> (r: (Vec<StreamEvent>, Option<u32>))
        ensures
            final(self)@ == apply_choice(old(self)@, ch).acc,
            events_view(r.0@) == apply_choice(old(self)@, ch).events,
            r.1 == apply_choice(old(self)@, ch).failure,
    {
        let ghost spec_result = apply_choice(self@, ch);
        let mut events: Vec<StreamEvent> = Vec::new();
        let StreamChoice { index: _, finish_reason, delta } = ch;
        if let Some(role) = delta.role {
            self.role = role;
        }
        if let Some(r) = delta.reasoning {
            if r.as_str().is_empty() == false {
                push_str(&mut self.reasoning, r.as_str());
                events.push(StreamEvent::ReasoningDelta(r));
            }
        }
        if let Some(c) = delta.content {
            if c.as_str().is_empty() == false {
                push_str(&mut self.content, c.as_str());
                events.push(StreamEvent::ContentDelta(c));
            }
        }
        if let Some(f) = finish_reason {
            self.finish_reason = f;
        }
        let failure = match delta.tool_calls {
            Some(ds) => self.apply_tool_deltas(ds),
            None => None,
        };
        assert(events_view(events@) == spec_result.events);
        (events, failure)
    }

    /// Absorbs one parsed chunk. Metadata is captured from the first chunk
    /// that carries it; a chunk with a top-level error ends the stream; a
    /// usage report replaces any earlier one; the choices are absorbed in
    /// order until a tool-call delta is refused.
    pub fn apply_chunk(&mut self, chunk: StreamChunk) -> (out: ChunkOutcome)
        ensures
            chunk.error is Some ==> {
                &&& final(self)@ == apply_metadata(old(self)@, chunk)
                &&& out.events@.len() == 0
                &&& out.failure matches Some(StreamFailure::ErrorChunk(m))
                &&& m@ == chunk.error->0.message@
            },
            chunk.error is None ==> {
                let with_usage = if chunk.usage is Some {
                    AccumulatorView { usage: chunk.usage, ..apply_metadata(old(self)@, chunk) }
                } else {
                    apply_metadata(old(self)@, chunk)
                };
                let r = apply_choices(with_usage, chunk.choices@);
                &&& final(self)@ == r.acc
                &&& events_view(out.events@) == r.events
                &&& match r.failure {
                    Some(i) => out.failure == Some(StreamFailure::ToolCallIndex(i)),
                    None => out.failure is None,
                }
            },
    {
        let ghost c = chunk;
        let StreamChunk { id, model, provider, choices, usage, error } = chunk;
        if self.chunk_id.as_str().is_empty() {
            if let Some(x) = id {
                self.chunk_id = x;
            }
        }
        if self.chunk_model.as_str().is_empty() {
            if let Some(x) = model {
                self.chunk_model = x;
            }
        }
        if self.chunk_provider.as_str().is_empty() {
            if let Some(x) = provider {
                self.chunk_provider = x;
            }
        }
        assert(self@ == apply_metadata(old(self)@, c));
        if let Some(err) = error {
            return ChunkOutcome {
                events: Vec::new(),
                failure: Some(StreamFailure::ErrorChunk(err.message)),
            };
        }
        if usage.is_some() {
            self.usage = usage;
        }
        let ghost start = self@;
        let ghost all = choices@;
        let mut rest = choices;
        let n = rest.len();
        let mut events: Vec<StreamEvent> = Vec::new();
        let mut i: usize = 0;
        assert(all.skip(0) == all);
        assert(events_view(events@) + apply_choices(start, all).events == apply_choices(
            start,
            all,
        ).events);
        while i < n
            invariant
                n == all.len(),
                i <= n,
                rest@ == all.skip(i as int),
                all == chunk.choices@,
                chunk.error is None,
                start == (if chunk.usage is Some {
                    AccumulatorView { usage: chunk.usage, ..apply_metadata(old(self)@, chunk) }
                } else {
                    apply_metadata(old(self)@, chunk)
                }),
                apply_choices(start, all).events == events_view(events@) + apply_choices(
                    self@,
                    all.skip(i as int),
                ).events,
                apply_choices(start, all).acc == apply_choices(self@, all.skip(i as int)).acc,
                apply_choices(start, all).failure == apply_choices(
                    self@,
                    all.skip(i as int),
                ).failure,
            decreases n - i,
        {
            let ch = rest.remove(0);
            assert(all.skip(i as int).drop_first() == all.skip(i + 1));
            assert(ch == all.skip(i as int)[0]);
            let ghost before = self@;
            let (mut evs, failure) = self.apply_choice(ch);
            let ghost ev_before = events_view(events@);
            let ghost new_evs = events_view(evs@);
            events.append(&mut evs);
            assert(events_view(events@) == ev_before + new_evs);
            if let Some(idx) = failure {
                assert(apply_choices(before, all.skip(i as int)) == apply_choice(before, ch));
                return ChunkOutcome { events, failure: Some(StreamFailure::ToolCallIndex(idx)) };
            }
            i = i + 1;
        }
        assert(all.skip(n as int).len() == 0);
        assert(events_view(events@) + Seq::<StreamEventView>::empty() == events_view(events@));
        ChunkOutcome { events, failure: None }
    }
}


// ---------------------------------------------------------------------------
// Server-sent-event lines
// ---------------------------------------------------------------------------

/// The text received so far that does not yet form a complete line.
pub struct SseLineBuffer {
    pub buffer: String,
}

impl SseLineBuffer {
    /// An empty buffer.
    pub fn new() -> (r: Self)
        ensures
            r.buffer@.len() == 0,
    {
        SseLineBuffer { buffer: String::new() }
    }

    /// Appends a network chunk, decoded as UTF-8 with invalid sequences
    /// replaced. Fails when the buffer then holds more than `MAX_LINE_LEN`
    /// bytes and no newline.
    pub fn push_bytes(&mut self, bytes: &[u8]) -> (r: Result<(), StreamFailure>)
        ensures
            final(self).buffer@ == old(self).buffer@ + utf8_lossy(bytes@),
            r is Err <==> ((encode_utf8(final(self).buffer@).len() as usize) > MAX_LINE_LEN
                && !final(self).buffer@.contains('\n')),
            r is Err ==> r == Err::<(), StreamFailure>(StreamFailure::LineTooLong),
    {
        let text = utf8_lossy_string(bytes);
        push_str(&mut self.buffer, text.as_str());
        if self.buffer.as_str().len() > MAX_LINE_LEN && !str_contains_char(
            self.buffer.as_str(),
            '\n',
        ) {
            return Err(StreamFailure::LineTooLong);
        }
        Ok(())
    }

    /// Removes and returns the first complete line, newline included, or
    /// returns `None` (leaving the buffer as it is) when there is none.
    pub fn next_line(&mut self) -> (r: Option<String>)
        ensures
            r is None ==> !old(self).buffer@.contains('\n') && final(self).buffer@ == old(
                self,
            ).buffer@,
            r matches Some(line) ==> {
                &&& old(self).buffer@ == line@ + final(self).buffer@
                &&& line@.len() > 0
                &&& line@.last() == '\n'
                &&& !line@.drop_last().contains('\n')
            },
    {
        let chars = to_chars(self.buffer.as_str());
        match find_char_from(chars.as_slice(), '\n', 0) {
            None => {
                assert(!self.buffer@.contains('\n'));
                None
            },
            Some(pos) => {
                let line = from_char_range(chars.as_slice(), 0, pos + 1);
                let rest = from_char_range(chars.as_slice(), pos + 1, chars.len());
                assert(chars@ == chars@.subrange(0, pos + 1) + chars@.subrange(
                    pos + 1,
                    chars.len() as int,
                ));
                assert(line@.drop_last() == chars@.subrange(0, pos as int));
                assert(line@.last() == chars@[pos as int]);
                assert forall|k: int| 0 <= k < line@.drop_last().len() implies line@.drop_last()[k]
                    != '\n' by {
                    assert(line@.drop_last()[k] == chars@[k]);
                }
                self.buffer = rest;
                Some(line)
            },
        }
    }
}

impl SseLineBuffer {
    /// The response body ended without a `[DONE]` marker: the stream ends
    /// all the same (a partial last line is dropped).
    pub fn end_of_body(self) -> (e: StreamEvent)
        ensures
            e == StreamEvent::Done,
    {
        StreamEvent::Done
    }
}

/// How a received line is handled.
#[derive(Debug, Clone, PartialEq, Eq)]
pub enum SseLine {
    /// An empty line, a keep-alive comment, or a line that is not `data:`.
    Skip,
    /// The `[DONE]` marker that ends the stream.
    Done,
    /// The payload of a `data:` line.
    Data(String),
}

/// The payload of a `data:` line: the line is trimmed; empty lines and
/// comments (starting with `:`) carry none; after the `data:` prefix one
/// optional space is dropped.
pub open spec fn sse_payload(line: Seq<char>) -> Option<Seq<char>> {
    let t = trim(line);
    if t.len() == 0 || t[0] == ':' {
        None
    } else if starts_with(t, "data:"@) {
        let d = t.skip(5);
        Some(
            if d.len() > 0 && d[0] == ' ' {
                d.skip(1)
            } else {
                d
            },
        )
    } else {
        None
    }
}

/// Classifies one received line: lines without payload are skipped, the
/// payload `[DONE]` ends the stream, any other payload is data to parse.
pub fn classify_sse_line(line: &str) -> (r: SseLine)
    ensures
        match sse_payload(line@) {
            None => r == SseLine::Skip,
            Some(d) => if d == "[DONE]"@ {
                r == SseLine::Done
            } else {
                r matches SseLine::Data(x) && x@ == d
            },
        },
{
    proof {
        reveal_strlit("data:");
    }
    let chars = to_chars(line);
    let (a, b) = trim_bounds(chars.as_slice());
    let t = from_char_range(chars.as_slice(), a, b);
    if a == b || chars[a] == ':' {
        return SseLine::Skip;
    }
    if !str_starts_with(t.as_str(), "data:") {
        return SseLine::Skip;
    }
    let start = if a + 5 < b && chars[a + 5] == ' ' {
        a + 6
    } else {
        a + 5
    };
    let data = from_char_range(chars.as_slice(), start, b);
    proof {
        let tt = trim(line@);
        assert(tt == chars@.subrange(a as int, b as int));
        assert(tt.skip(5) == chars@.subrange(a + 5, b as int));
        if a + 5 < b && chars@[a + 5] == ' ' {
            assert(tt.skip(5).skip(1) == chars@.subrange(a + 6, b as int));
        }
    }
    if str_eq(data.as_str(), "[DONE]") {
        SseLine::Done
    } else {
        SseLine::Data(data)
    }
}

// ---------------------------------------------------------------------------
// Finishing a streamed turn
// ---------------------------------------------------------------------------

/// `Some(s)` unless `s` is empty.
pub open spec fn nonempty(s: Seq<char>) -> Option<Seq<char>> {
    if s.len() == 0 {
        None
    } else {
        Some(s)
    }
}

/// The tool calls of an optional list.
pub open spec fn opt_calls(o: Option<Vec<AgentClientMessageToolCall>>) -> Option<Seq<ToolCallView>> {
    match o {
        Some(v) => Some(calls_view(v@)),
        None => None,
    }
}

/// Everything a finished stream yields.
pub struct FinishedStream {
    /// The assistant message to append to the conversation.
    pub assistant: AgentClientMessageAssistant,
    pub id: String,
    pub model: String,
    pub provider: String,
    /// The single choice of the assembled response.
    pub choice: OpenRouterAPIResponseChoice,
    /// The last usage report, if the provider sent one.
    pub usage: Option<TokenUsage>,
    /// Whether the model asked for tools (the turn then continues).
    pub tools_requested: bool,
    /// The requested tool calls, in slot order.
    pub tool_calls: Vec<AgentClientMessageToolCall>,
}

impl StreamAccumulator {
    /// Assembles the accumulated state: empty content, reasoning and tool
    /// calls become absent; the assistant message and the response choice
    /// (index 0, no refusal) carry the same role, content, reasoning and
    /// tool calls.
    pub fn finish(self) -> (r: FinishedStream)
        ensures
            r.assistant.role@ == self@.role,
            opt_text(r.assistant.content) == nonempty(self@.content),
            opt_text(r.assistant.reasoning) == nonempty(self@.reasoning),
            opt_calls(r.assistant.tool_calls) == (if self@.tool_calls.len() == 0 {
                None
            } else {
                Some(self@.tool_calls)
            }),
            r.id@ == self@.chunk_id,
            r.model@ == self@.chunk_model,
            r.provider@ == self@.chunk_provider,
            r.choice.index == 0,
            r.choice.finish_reason@ == self@.finish_reason,
            r.choice.message.role@ == self@.role,
            opt_text(r.choice.message.content) == opt_text(r.assistant.content),
            opt_text(r.choice.message.reasoning) == opt_text(r.assistant.reasoning),
            r.choice.message.refusal is None,
            opt_calls(r.choice.message.tool_calls) == opt_calls(r.assistant.tool_calls),
            r.usage == self@.usage,
            r.tools_requested == (self@.tool_calls.len() > 0),
            calls_view(r.tool_calls@) == self@.tool_calls,
    {
        let StreamAccumulator {
            role,
            content,
            reasoning,
            tool_calls,
            finish_reason,
            usage,
            chunk_id,
            chunk_model,
            chunk_provider,
        } = self;
        let tools_requested = tool_calls.len() > 0;
        let content_opt = if content.as_str().is_empty() {
            None
        } else {
            Some(content)
        };
        let reasoning_opt = if reasoning.as_str().is_empty() {
            None
        } else {
            Some(reasoning)
        };
        let calls_for_message = if tool_calls.len() == 0 {
            None
        } else {
            Some(copy_tool_calls(&tool_calls))
        };
        let calls_for_choice = if tool_calls.len() == 0 {
            None
        } else {
            Some(copy_tool_calls(&tool_calls))
        };
        let assistant = AgentClientMessageAssistant {
            role: role.clone(),
            content: copy_opt_string(&content_opt),
            reasoning: copy_opt_string(&reasoning_opt),
            tool_calls: calls_for_message,
        };
        let choice = OpenRouterAPIResponseChoice {
            index: 0,
            finish_reason: finish_reason,
            message: OpenRouterAPIResponseMessage {
                role: role,
                content: content_opt,
                reasoning: reasoning_opt,
                refusal: None,
                tool_calls: calls_for_choice,
            },
        };
        FinishedStream {
            assistant,
            id: chunk_id,
            model: chunk_model,
            provider: chunk_provider,
            choice,
            usage,
            tools_requested,
            tool_calls,
        }
    }
}

// ---------------------------------------------------------------------------
// Tool calls
// ---------------------------------------------------------------------------

/// What became of one requested tool call.
#[derive(Debug, Clone, PartialEq, Eq)]
pub enum ToolOutcome {
    /// No tool of that name is available.
    NotFound,
    /// The tool ran: its raw result and its one-line summary.
    Succeeded { result: String, display: String },
    /// The tool failed with this error text.
    Failed { error: String },
}

/// The tool message that answers `call` with content `content`.
pub open spec fn is_tool_reply(m: AgentClientMessage, call: AgentClientMessageToolCall, content: Seq<char>) -> bool {
    &&& m matches AgentClientMessage::Tool(t)
    &&& t.role@ == "tool"@
    &&& t.tool_call_id@ == call.id@
    &&& t.content matches Some(c)
    &&& c@ == content
}

/// What the conversation and the user are told about a tool call: a
/// missing tool gets no message and `<name>: NOT FOUND`; a success sends
/// the result back to the model and shows the tool's summary; a failure
/// sends `Error executing tool '<name>': <error>` and shows
/// `<name>: ERROR - <error>`.
pub fn tool_outcome_records(call: &AgentClientMessageToolCall, outcome: ToolOutcome) -> (r: (
    Option<AgentClientMessage>,
    String,
))
    ensures
        outcome == ToolOutcome::NotFound ==> r.0 is None && r.1@ == call.function.name@
            + ": NOT FOUND"@,
        outcome matches ToolOutcome::Succeeded { result, display } ==> {
            &&& r.0 matches Some(m)
            &&& is_tool_reply(m, *call, result@)
            &&& r.1@ == display@
        },
        outcome matches ToolOutcome::Failed { error } ==> {
            &&& r.0 matches Some(m)
            &&& is_tool_reply(
                m,
                *call,
                "Error executing tool '"@ + call.function.name@ + "': "@ + error@,
            )
            &&& r.1@ == call.function.name@ + ": ERROR - "@ + error@
        },
{
    match outcome {
        ToolOutcome::NotFound => {
            let mut shown = call.function.name.clone();
            push_str(&mut shown, ": NOT FOUND");
            (None, shown)
        },
        ToolOutcome::Succeeded { result, display } => {
            let m = AgentClientMessage::Tool(
                AgentClientMessageTool {
                    role: copy_str("tool"),
                    tool_call_id: call.id.clone(),
                    content: Some(result),
                },
            );
            (Some(m), display)
        },
        ToolOutcome::Failed { error } => {
            let mut text = copy_str("Error executing tool '");
            push_str(&mut text, call.function.name.as_str());
            push_str(&mut text, "': ");
            push_str(&mut text, error.as_str());
            let m = AgentClientMessage::Tool(
                AgentClientMessageTool {
                    role: copy_str("tool"),
                    tool_call_id: call.id.clone(),
                    content: Some(text),
                },
            );
            let mut shown = call.function.name.clone();
            push_str(&mut shown, ": ERROR - ");
            push_str(&mut shown, error.as_str());
            (Some(m), shown)
        },
    }
}


// ---------------------------------------------------------------------------
// Building a client
// ---------------------------------------------------------------------------

/// Collects what a client needs before it can talk to a provider. (The
/// sampling temperature and the tools are kept beside it by the caller.)
pub struct AgentClientBuilder {
    pub messages: Vec<AgentClientMessage>,
    pub model: Option<String>,
    pub endpoint: Option<String>,
    pub api_key: Option<String>,
    /// The names of the tools added so far, in the order they were added.
    pub tool_names: Vec<String>,
}

/// What a successful build yields: the messages so far, the model, the
/// endpoint, and the `Authorization` header (`Bearer <api key>`), as a
/// header value and as text.
pub struct AgentClientSettings {
    pub messages: Vec<AgentClientMessage>,
    pub model: String,
    pub endpoint: String,
    pub authorization: HeaderValue,
    pub authorization_text: String,
    /// The tools by name: each name once, in the order it was first added,
    /// with the position of the last tool added under it.
    pub tools: Vec<(String, usize)>,
}

/// Why a client could not be built.
#[derive(Debug, Clone, Copy, PartialEq, Eq)]
pub enum AgentClientBuildError {
    MissingModel,
    MissingApiKey,
    MissingEndpoint,
    /// `Bearer <api key>` cannot stand in an HTTP header.
    InvalidApiKey,
}

/// The message of a build error.
pub open spec fn build_error_text(e: AgentClientBuildError) -> Seq<char> {
    match e {
        AgentClientBuildError::MissingModel => "Model must be specified before building the AgentClient."@,
        AgentClientBuildError::MissingApiKey => "API key must be specified before building the AgentClient."@,
        AgentClientBuildError::MissingEndpoint => "Endpoint must be specified before building the AgentClient."@,
        AgentClientBuildError::InvalidApiKey => "failed to parse header value"@,
    }
}

impl AgentClientBuildError {
    /// The message reported for this error.
    pub fn message(&self) -> (m: String)
        ensures
            m@ == build_error_text(*self),
    {
        match self {
            AgentClientBuildError::MissingModel => copy_str(
                "Model must be specified before building the AgentClient.",
            ),
            AgentClientBuildError::MissingApiKey => copy_str(
                "API key must be specified before building the AgentClient.",
            ),
            AgentClientBuildError::MissingEndpoint => copy_str(
                "Endpoint must be specified before building the AgentClient.",
            ),
            AgentClientBuildError::InvalidApiKey => copy_str("failed to parse header value"),
        }
    }
}

/// A system message with the given content.
pub open spec fn is_system_message(m: AgentClientMessage, content: Seq<char>) -> bool {
    &&& m matches AgentClientMessage::System(s)
    &&& s.role@ == "system"@
    &&& s.content@ == content
}

/// The last position of `n` in `names`, or -1.
pub open spec fn last_position(names: Seq<Seq<char>>, n: Seq<char>) -> int
    decreases names.len(),
{
    if names.len() == 0 {
        -1
    } else if names.last() == n {
        names.len() - 1
    } else {
        last_position(names.drop_last(), n)
    }
}

/// The distinct names, in the order of their first occurrence.
pub open spec fn first_occurrences(names: Seq<Seq<char>>) -> Seq<Seq<char>>
    decreases names.len(),
{
    if names.len() == 0 {
        Seq::empty()
    } else {
        let r = first_occurrences(names.drop_last());
        if r.contains(names.last()) {
            r
        } else {
            r.push(names.last())
        }
    }
}

/// The tool table built from tools added under `names`: each name once, in
/// the order of its first occurrence, with the last position it was added
/// at (a later tool of the same name replaces an earlier one in place).
pub open spec fn tool_slots(names: Seq<Seq<char>>) -> Seq<(Seq<char>, int)> {
    first_occurrences(names).map_values(|n: Seq<char>| (n, last_position(names, n)))
}

/// The tool table as plain values.
pub open spec fn slots_view(v: Seq<(String, usize)>) -> Seq<(Seq<char>, int)> {
    v.map_values(|e: (String, usize)| (e.0@, e.1 as int))
}

/// The first occurrences hold no name twice, and exactly the names given.
proof fn lemma_first_occurrences(names: Seq<Seq<char>>)
    ensures
        forall|a: int, b: int|
            0 <= a < b < first_occurrences(names).len() ==> first_occurrences(names)[a]
                != first_occurrences(names)[b],
        forall|n: Seq<char>| #[trigger] first_occurrences(names).contains(n) <==> names.contains(n),
    decreases names.len(),
{
    if names.len() > 0 {
        let d = names.drop_last();
        let l = names.last();
        lemma_first_occurrences(d);
        let r = first_occurrences(d);
        let f = first_occurrences(names);
        assert forall|n: Seq<char>| names.contains(n) <==> (d.contains(n) || n == l) by {
            if names.contains(n) {
                let k = choose|k: int| 0 <= k < names.len() && names[k] == n;
                if k < d.len() {
                    assert(d[k] == n);
                }
            }
            if d.contains(n) {
                let k = choose|k: int| 0 <= k < d.len() && d[k] == n;
                assert(names[k] == n);
            }
            if n == l {
                assert(names[names.len() - 1] == n);
            }
        }
        if r.contains(l) {
            assert(f == r);
            assert forall|n: Seq<char>| #[trigger] f.contains(n) <==> names.contains(n) by {}
        } else {
            assert(f == r.push(l));
            assert forall|a: int, b: int| 0 <= a < b < f.len() implies f[a] != f[b] by {
                if b == r.len() {
                    assert(f[a] == r[a]);
                    if r[a] == l {
                        assert(r.contains(l));
                    }
                } else {
                    assert(f[a] == r[a] && f[b] == r[b]);
                }
            }
            assert forall|n: Seq<char>| #[trigger] f.contains(n) <==> names.contains(n) by {
                if f.contains(n) {
                    let k = choose|k: int| 0 <= k < f.len() && f[k] == n;
                    if k < r.len() {
                        assert(r[k] == n);
                        assert(r.contains(n));
                    }
                }
                if r.contains(n) {
                    let k = choose|k: int| 0 <= k < r.len() && r[k] == n;
                    assert(f[k] == n);
                }
                if n == l {
                    assert(f[r.len() as int] == n);
                }
            }
        }
    }
}

/// Builds the tool table of `names` (see `tool_slots`).
fn tool_table(names: &Vec<String>) -> (r: Vec<(String, usize)>)
    ensures
        slots_view(r@) == tool_slots(texts(names@)),
{
    let ghost ns = texts(names@);
    let mut out: Vec<(String, usize)> = Vec::new();
    let mut i: usize = 0;
    assert(ns.take(0) =~= Seq::<Seq<char>>::empty());
    assert(slots_view(out@) =~= tool_slots(ns.take(0)));
    while i < names.len()
        invariant
            i <= names@.len(),
            ns == texts(names@),
            slots_view(out@) == tool_slots(ns.take(i as int)),
        decreases names.len() - i,
    {
        let ghost pre = ns.take(i as int);
        let ghost post = ns.take(i + 1);
        let ghost x = ns[i as int];
        assert(post.drop_last() =~= pre);
        assert(post.last() == x);
        assert(names@[i as int]@ == x);
        proof {
            lemma_first_occurrences(pre);
        }
        let ghost fo = first_occurrences(pre);
        let ghost ov = slots_view(out@);
        let mut j: usize = 0;
        while j < out.len() && !str_eq(out[j].0.as_str(), names[i].as_str())
            invariant
                j <= out@.len(),
                i < names@.len(),
                x == names@[i as int]@,
                ov == slots_view(out@),
                ov.len() == fo.len(),
                forall|k: int| 0 <= k < ov.len() ==> (#[trigger] ov[k]).0 == fo[k],
                forall|k: int| 0 <= k < j ==> fo[k] != x,
            decreases out.len() - j,
        {
            assert(ov[j as int].0 == out@[j as int].0@);
            j = j + 1;
        }
        if j < out.len() {
            assert(ov[j as int].0 == out@[j as int].0@);
            assert(fo[j as int] == x);
            assert(fo.contains(x));
            let name = out[j].0.clone();
            out.set(j, (name, i));
            proof {
                assert(first_occurrences(post) == fo);
                let nv = slots_view(out@);
                let want = tool_slots(post);
                assert forall|k: int| 0 <= k < fo.len() implies #[trigger] nv[k] == want[k] by {
                    assert(want[k] == (fo[k], last_position(post, fo[k])));
                    assert(ov[k] == tool_slots(pre)[k]);
                    assert(tool_slots(pre)[k] == (fo[k], last_position(pre, fo[k])));
                    if k != j {
                        assert(fo[k] != fo[j as int]);
                        assert(nv[k] == ov[k]);
                    }
                }
                assert(nv.len() == want.len());
                assert(nv =~= want);
            }
        } else {
            assert(!fo.contains(x)) by {
                if fo.contains(x) {
                    let k = choose|k: int| 0 <= k < fo.len() && fo[k] == x;
                    assert(fo[k] != x);
                }
            }
            out.push((names[i].clone(), i));
            proof {
                let nfo = fo.push(x);
                assert(first_occurrences(post) == nfo);
                let nv = slots_view(out@);
                let want = tool_slots(post);
                assert forall|k: int| 0 <= k < nfo.len() implies #[trigger] nv[k] == want[k] by {
                    assert(want[k] == (nfo[k], last_position(post, nfo[k])));
                    if k < fo.len() {
                        assert(nfo[k] == fo[k]);
                        assert(ov[k] == tool_slots(pre)[k]);
                        assert(tool_slots(pre)[k] == (fo[k], last_position(pre, fo[k])));
                        if fo[k] == x {
                            assert(fo.contains(x));
                        }
                        assert(nv[k] == ov[k]);
                    }
                }
                assert(nv.len() == want.len());
                assert(nv =~= want);
            }
        }
        i = i + 1;
    }
    assert(ns.take(names@.len() as int) =~= ns);
    out
}

impl AgentClientBuilder {
    /// A builder with no messages and nothing set.
    pub fn new() -> (r: Self)
        ensures
            r.messages@.len() == 0,
            r.model is None,
            r.endpoint is None,
            r.api_key is None,
            r.tool_names@.len() == 0,
    {
        AgentClientBuilder {
            messages: Vec::new(),
            model: None,
            endpoint: None,
            api_key: None,
            tool_names: Vec::new(),
        }
    }

    /// Records a tool added under `name`.
    pub fn with_tool_name(self, name: &str) -> (r: Self)
        ensures
            texts(r.tool_names@) == texts(self.tool_names@).push(name@),
            r.messages == self.messages,
            r.model == self.model,
            r.endpoint == self.endpoint,
            r.api_key == self.api_key,
    {
        let mut b = self;
        b.tool_names.push(copy_str(name));
        assert(texts(b.tool_names@) =~= texts(self.tool_names@).push(name@));
        b
    }

    /// Appends a system message.
    pub fn with_system_message(self, content: &str) -> (r: Self)
        ensures
            r.messages@.len() == self.messages@.len() + 1,
            r.messages@.take(self.messages@.len() as int) == self.messages@,
            is_system_message(r.messages@.last(), content@),
            r.model == self.model,
            r.endpoint == self.endpoint,
            r.api_key == self.api_key,
            r.tool_names == self.tool_names,
    {
        let mut b = self;
        b.messages.push(
            AgentClientMessage::System(
                AgentClientMessageSystem { role: copy_str("system"), content: copy_str(content) },
            ),
        );
        b
    }

    /// Sets the model.
    pub fn with_model(self, model: &str) -> (r: Self)
        ensures
            r.model matches Some(m) && m@ == model@,
            r.messages == self.messages,
            r.endpoint == self.endpoint,
            r.api_key == self.api_key,
            r.tool_names == self.tool_names,
    {
        let mut b = self;
        b.model = Some(copy_str(model));
        b
    }

    /// Sets the endpoint, without any trailing slash.
    pub fn with_endpoint(self, endpoint: &str) -> (r: Self)
        ensures
            r.endpoint matches Some(e) && e@ == trim_end_char(endpoint@, '/'),
            r.messages == self.messages,
            r.model == self.model,
            r.api_key == self.api_key,
            r.tool_names == self.tool_names,
    {
        let mut b = self;
        b.endpoint = Some(trim_end_matches_char(endpoint, '/'));
        b
    }

    /// Sets the API key.
    pub fn with_api_key(self, api_key: &str) -> (r: Self)
        ensures
            r.api_key matches Some(k) && k@ == api_key@,
            r.messages == self.messages,
            r.model == self.model,
            r.endpoint == self.endpoint,
            r.tool_names == self.tool_names,
    {
        let mut b = self;
        b.api_key = Some(copy_str(api_key));
        b
    }

    /// Checks that model, API key and endpoint are set, in that order, and
    /// that `Bearer <api key>` can stand in a header; hands them over with
    /// the messages.
    pub fn build(self) -> (r: Result<AgentClientSettings, AgentClientBuildError>)
        ensures
            self.model is None ==> r == Err::<AgentClientSettings, _>(
                AgentClientBuildError::MissingModel,
            ),
            self.model is Some && self.api_key is None ==> r == Err::<AgentClientSettings, _>(
                AgentClientBuildError::MissingApiKey,
            ),
            self.model is Some && self.api_key is Some && self.endpoint is None ==> r == Err::<
                AgentClientSettings,
                _,
            >(AgentClientBuildError::MissingEndpoint),
            self.model is Some && self.api_key is Some && self.endpoint is Some && !is_header_text(
                "Bearer "@ + self.api_key->0@,
            ) ==> r == Err::<AgentClientSettings, _>(AgentClientBuildError::InvalidApiKey),
            self.model is Some && self.api_key is Some && self.endpoint is Some && is_header_text(
                "Bearer "@ + self.api_key->0@,
            ) ==> {
                &&& r matches Ok(s)
                &&& s.messages == self.messages
                &&& s.model == self.model->0
                &&& s.endpoint == self.endpoint->0
                &&& s.authorization_text@ == "Bearer "@ + self.api_key->0@
                &&& slots_view(s.tools@) == tool_slots(texts(self.tool_names@))
            },
    {
        let tools = tool_table(&self.tool_names);
        let AgentClientBuilder { messages, model, endpoint, api_key, tool_names: _ } = self;
        match model {
            None => Err(AgentClientBuildError::MissingModel),
            Some(model) => match api_key {
                None => Err(AgentClientBuildError::MissingApiKey),
                Some(api_key) => match endpoint {
                    None => Err(AgentClientBuildError::MissingEndpoint),
                    Some(endpoint) => {
                        let mut bearer = copy_str("Bearer ");
                        push_str(&mut bearer, api_key.as_str());
                        match header_value(bearer.as_str()) {
                            Some(authorization) => Ok(
                                AgentClientSettings {
                                    messages,
                                    model,
                                    endpoint,
                                    authorization,
                                    authorization_text: bearer,
                                    tools,
                                },
                            ),
                            None => Err(AgentClientBuildError::InvalidApiKey),
                        }
                    },
                },
            },
        }
    }
}

} // verus!
