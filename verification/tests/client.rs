use code_review_agent::agent::client::{
    classify_sse_line, tool_outcome_records, AgentClientBuildError, AgentClientBuilder,
    AgentClientMessage, AgentClientMessageToolCall, AgentClientMessageToolFunction, SseLine,
    SseLineBuffer, StreamAccumulator, StreamFailure, ToolOutcome,
};
use code_review_agent::agent::response::{
    StreamChoice, StreamChunk, StreamDelta, StreamError, StreamEvent, StreamToolCall,
    StreamToolFunction, TokenUsage,
};

fn chunk(choices: Vec<StreamChoice>) -> StreamChunk {
    StreamChunk {
        id: Some("gen-1".to_string()),
        model: Some("m".to_string()),
        provider: Some("P".to_string()),
        choices,
        usage: None,
        error: None,
    }
}

fn delta(content: Option<&str>, reasoning: Option<&str>) -> StreamChoice {
    StreamChoice {
        index: 0,
        finish_reason: None,
        delta: StreamDelta {
            role: None,
            content: content.map(|s| s.to_string()),
            reasoning: reasoning.map(|s| s.to_string()),
            tool_calls: None,
        },
    }
}

fn tool_delta(index: u32, id: Option<&str>, name: Option<&str>, args: Option<&str>) -> StreamToolCall {
    StreamToolCall {
        index,
        id: id.map(|s| s.to_string()),
        type_: None,
        function: Some(StreamToolFunction {
            name: name.map(|s| s.to_string()),
            arguments: args.map(|s| s.to_string()),
        }),
    }
}

#[test]
fn accumulator_collects_text_and_events() {
    let mut acc = StreamAccumulator::new();
    let out = acc.apply_chunk(chunk(vec![delta(Some("Hel"), Some("think"))]));
    assert!(out.failure.is_none());
    assert_eq!(
        out.events,
        vec![
            StreamEvent::ReasoningDelta("think".to_string()),
            StreamEvent::ContentDelta("Hel".to_string())
        ]
    );
    let out = acc.apply_chunk(chunk(vec![delta(Some("lo"), Some(""))]));
    assert_eq!(out.events, vec![StreamEvent::ContentDelta("lo".to_string())]);
    assert_eq!(acc.content, "Hello");
    assert_eq!(acc.reasoning, "think");
    assert_eq!(acc.chunk_id, "gen-1");
    let done = acc.finish();
    assert!(!done.tools_requested);
    assert_eq!(done.choice.finish_reason, "stop");
    assert_eq!(done.assistant.content.as_deref(), Some("Hello"));
    assert_eq!(done.provider, "P");
}

#[test]
fn accumulator_builds_tool_calls_from_fragments() {
    let mut acc = StreamAccumulator::new();
    let mut c = delta(None, None);
    c.delta.tool_calls = Some(vec![tool_delta(1, Some("call_b"), Some("read_file"), Some("{\"fi"))]);
    assert!(acc.apply_chunk(chunk(vec![c])).failure.is_none());
    let mut c = delta(None, None);
    c.delta.tool_calls = Some(vec![tool_delta(1, None, None, Some("le\":\"a\"}"))]);
    c.finish_reason = Some("tool_calls".to_string());
    assert!(acc.apply_chunk(chunk(vec![c])).failure.is_none());
    assert_eq!(acc.tool_calls.len(), 2);
    assert_eq!(acc.tool_calls[0].id, "");
    assert_eq!(acc.tool_calls[0].type_, "function");
    assert_eq!(acc.tool_calls[1].id, "call_b");
    assert_eq!(acc.tool_calls[1].function.name, "read_file");
    assert_eq!(acc.tool_calls[1].function.arguments, "{\"file\":\"a\"}");
    let done = acc.finish();
    assert!(done.tools_requested);
    assert_eq!(done.choice.finish_reason, "tool_calls");
    assert_eq!(done.tool_calls.len(), 2);
}

#[test]
fn accumulator_refuses_large_tool_index() {
    let mut acc = StreamAccumulator::new();
    let mut c = delta(None, None);
    c.delta.tool_calls = Some(vec![tool_delta(128, Some("x"), None, None)]);
    let out = acc.apply_chunk(chunk(vec![c]));
    assert_eq!(out.failure, Some(StreamFailure::ToolCallIndex(128)));
    assert!(acc.tool_calls.is_empty());
    assert_eq!(
        StreamFailure::ToolCallIndex(128).message(),
        "Tool call index 128 exceeds maximum (128)"
    );
}

#[test]
fn error_chunk_ends_the_stream() {
    let mut acc = StreamAccumulator::new();
    let mut c = chunk(vec![delta(Some("x"), None)]);
    c.error = Some(StreamError { code: serde_json::Value::from(502), message: "overloaded".to_string() });
    let out = acc.apply_chunk(c);
    assert_eq!(out.failure, Some(StreamFailure::ErrorChunk("overloaded".to_string())));
    assert!(out.events.is_empty());
    assert_eq!(acc.content, "");
    assert_eq!(StreamFailure::ErrorChunk("overloaded".to_string()).message(), "Stream error: overloaded");
}

#[test]
fn usage_and_metadata_come_from_chunks() {
    let mut acc = StreamAccumulator::new();
    let mut c = chunk(vec![]);
    c.usage = Some(TokenUsage { prompt_tokens: 3, completion_tokens: 4, total_tokens: 7 });
    acc.apply_chunk(c);
    let mut c = chunk(vec![]);
    c.id = Some("other".to_string());
    acc.apply_chunk(c);
    assert_eq!(acc.chunk_id, "gen-1");
    assert_eq!(acc.usage, Some(TokenUsage { prompt_tokens: 3, completion_tokens: 4, total_tokens: 7 }));
}

#[test]
fn sse_lines_are_classified() {
    assert_eq!(classify_sse_line("\n"), SseLine::Skip);
    assert_eq!(classify_sse_line(": OPENROUTER PROCESSING\n"), SseLine::Skip);
    assert_eq!(classify_sse_line("event: x\n"), SseLine::Skip);
    assert_eq!(classify_sse_line("data: [DONE]\n"), SseLine::Done);
    assert_eq!(classify_sse_line("data:{\"a\":1}\r\n"), SseLine::Data("{\"a\":1}".to_string()));
    assert_eq!(classify_sse_line("  data:  x \n"), SseLine::Data(" x".to_string()));
}

#[test]
fn sse_buffer_splits_lines() {
    let mut b = SseLineBuffer::new();
    assert!(b.push_bytes(b"data: a\n\ndata: b").is_ok());
    assert_eq!(b.next_line(), Some("data: a\n".to_string()));
    assert_eq!(b.next_line(), Some("\n".to_string()));
    assert_eq!(b.next_line(), None);
    assert!(b.push_bytes(b"c\n").is_ok());
    assert_eq!(b.next_line(), Some("data: bc\n".to_string()));
    assert_eq!(b.buffer, "");
}

#[test]
fn sse_buffer_refuses_endless_lines() {
    let mut b = SseLineBuffer::new();
    let big = vec![b'x'; 1024 * 1024];
    assert!(b.push_bytes(&big).is_ok());
    assert_eq!(b.push_bytes(b"y"), Err(StreamFailure::LineTooLong));
    assert_eq!(
        StreamFailure::LineTooLong.message(),
        "SSE line exceeded maximum length (1048576 bytes) without a newline"
    );
}

fn call(name: &str) -> AgentClientMessageToolCall {
    AgentClientMessageToolCall {
        id: "c1".to_string(),
        type_: "function".to_string(),
        function: AgentClientMessageToolFunction { name: name.to_string(), arguments: "{}".to_string() },
    }
}

#[test]
fn tool_outcomes_are_recorded() {
    let (m, shown) = tool_outcome_records(&call("nope"), ToolOutcome::NotFound);
    assert!(m.is_none());
    assert_eq!(shown, "nope: NOT FOUND");

    let (m, shown) = tool_outcome_records(
        &call("read_file"),
        ToolOutcome::Succeeded { result: "R".to_string(), display: "read_file: a".to_string() },
    );
    assert_eq!(shown, "read_file: a");
    match m {
        Some(AgentClientMessage::Tool(t)) => {
            assert_eq!(t.role, "tool");
            assert_eq!(t.tool_call_id, "c1");
            assert_eq!(t.content.as_deref(), Some("R"));
        }
        _ => panic!("expected a tool message"),
    }

    let (m, shown) = tool_outcome_records(&call("t"), ToolOutcome::Failed { error: "boom".to_string() });
    assert_eq!(shown, "t: ERROR - boom");
    match m {
        Some(AgentClientMessage::Tool(t)) => {
            assert_eq!(t.content.as_deref(), Some("Error executing tool 't': boom"))
        }
        _ => panic!("expected a tool message"),
    }
}

#[test]
fn builder_checks_required_settings() {
    let b = AgentClientBuilder::new();
    assert_eq!(b.build().err(), Some(AgentClientBuildError::MissingModel));
    let b = AgentClientBuilder::new().with_model("m");
    assert_eq!(b.build().err(), Some(AgentClientBuildError::MissingApiKey));
    let b = AgentClientBuilder::new().with_model("m").with_api_key("k");
    assert_eq!(b.build().err(), Some(AgentClientBuildError::MissingEndpoint));
    let b = AgentClientBuilder::new().with_model("m").with_api_key("k\n").with_endpoint("https://x/");
    assert_eq!(b.build().err(), Some(AgentClientBuildError::InvalidApiKey));
    let s = AgentClientBuilder::new()
        .with_system_message("sys")
        .with_model("m")
        .with_api_key("k")
        .with_endpoint("https://x/v1//")
        .build()
        .ok()
        .expect("complete settings");
    assert_eq!(s.endpoint, "https://x/v1");
    assert_eq!(s.model, "m");
    assert_eq!(s.authorization.to_str().unwrap(), "Bearer k");
    assert_eq!(s.authorization_text, "Bearer k");
    assert_eq!(s.messages.len(), 1);
    assert_eq!(
        AgentClientBuildError::MissingModel.message(),
        "Model must be specified before building the AgentClient."
    );
}

#[test]
fn invalid_utf8_is_replaced_in_the_buffer() {
    let mut b = SseLineBuffer::new();
    assert!(b.push_bytes(b"data: \xff\xfe\n").is_ok());
    assert_eq!(b.next_line(), Some("data: \u{fffd}\u{fffd}\n".to_string()));
}

#[test]
fn tools_keep_first_insertion_order_and_last_value() {
    let s = AgentClientBuilder::new()
        .with_model("m")
        .with_api_key("k")
        .with_endpoint("https://x")
        .with_tool_name("a")
        .with_tool_name("b")
        .with_tool_name("a")
        .with_tool_name("c")
        .build()
        .ok()
        .expect("complete settings");
    assert_eq!(
        s.tools,
        vec![("a".to_string(), 2), ("b".to_string(), 1), ("c".to_string(), 3)]
    );
}
