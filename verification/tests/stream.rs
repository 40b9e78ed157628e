use code_review_agent::agent::response::StreamEvent;
use code_review_agent::stream::{PrintOp, StreamPrinter, StreamSection};

#[test]
fn printer_emits_headers_on_section_changes() {
    let mut p = StreamPrinter::new();
    assert_eq!(p.section, StreamSection::Nothing);
    assert_eq!(p.on_event(StreamEvent::ContentDelta(String::new())), vec![]);
    assert_eq!(
        p.on_event(StreamEvent::ReasoningDelta("a".to_string())),
        vec![PrintOp::ReasoningHeader, PrintOp::ReasoningText("a".to_string())]
    );
    assert_eq!(
        p.on_event(StreamEvent::ReasoningDelta("b".to_string())),
        vec![PrintOp::ReasoningText("b".to_string())]
    );
    assert_eq!(
        p.on_event(StreamEvent::ContentDelta("c".to_string())),
        vec![PrintOp::Newline, PrintOp::ResponseHeader, PrintOp::ContentText("c".to_string())]
    );
    assert_eq!(p.on_event(StreamEvent::Done), vec![PrintOp::Newline]);
}

#[test]
fn done_without_output_prints_nothing() {
    let mut p = StreamPrinter::new();
    assert_eq!(p.on_event(StreamEvent::Done), vec![]);
    assert_eq!(p.begin_section(StreamSection::Nothing), vec![]);
}
