use vstd::prelude::*;

use crate::agent::response::StreamEvent;

verus! {

/// Represents the current section of the output being printed.
#[derive(Debug, Clone, Copy, PartialEq, Eq, Structural)]
pub enum StreamSection {
    /// Nothing has been printed yet this turn.
    Nothing,
    /// Currently printing reasoning (chain-of-thought) tokens.
    Reasoning,
    /// Currently printing visible response content tokens.
    Content,
}

/// One step of terminal output; the caller applies the colors and flushes
/// after each event.
#[derive(Debug, Clone, PartialEq, Eq)]
pub enum PrintOp {
    /// End the current line.
    Newline,
    /// The `Reasoning: ` header.
    ReasoningHeader,
    /// The `Response: ` header.
    ResponseHeader,
    /// A fragment of reasoning, shown dimmed.
    ReasoningText(String),
    /// A fragment of response content, shown in green.
    ContentText(String),
}

/// What a `PrintOp` says, as plain values.
pub enum PrintOpView {
    Newline,
    ReasoningHeader,
    ResponseHeader,
    ReasoningText(Seq<char>),
    ContentText(Seq<char>),
}

impl View for PrintOp {
    type V = PrintOpView;

    open spec fn view(&self) -> PrintOpView {
        match self {
            PrintOp::Newline => PrintOpView::Newline,
            PrintOp::ReasoningHeader => PrintOpView::ReasoningHeader,
            PrintOp::ResponseHeader => PrintOpView::ResponseHeader,
            PrintOp::ReasoningText(t) => PrintOpView::ReasoningText(t@),
            PrintOp::ContentText(t) => PrintOpView::ContentText(t@),
        }
    }
}

/// The views of a list of print operations.
pub open spec fn ops_view(v: Seq<PrintOp>) -> Seq<PrintOpView> {
    v.map_values(|o: PrintOp| o@)
}

/// Stateful printer for live streaming output.
pub struct StreamPrinter {
    pub section: StreamSection,
    pub printed_any: bool,
}

/// The output of switching to `target` from `section`: nothing if already
/// there; otherwise a line break if anything was printed, then the header.
pub open spec fn section_ops(section: StreamSection, printed_any: bool, target: StreamSection) -> Seq<PrintOpView> {
    if section == target {
        Seq::empty()
    } else {
        (if printed_any {
            seq![PrintOpView::Newline]
        } else {
            Seq::empty()
        }) + match target {
            StreamSection::Reasoning => seq![PrintOpView::ReasoningHeader],
            StreamSection::Content => seq![PrintOpView::ResponseHeader],
            StreamSection::Nothing => Seq::empty(),
        }
    }
}

/// The printer state after switching to `target`.
pub open spec fn after_section(p: StreamPrinter, target: StreamSection) -> StreamPrinter {
    if p.section == target {
        p
    } else {
        StreamPrinter { section: target, printed_any: true }
    }
}

impl StreamPrinter {
    /// A printer that has printed nothing.
    pub fn new() -> (r: Self)
        ensures
            r.section == StreamSection::Nothing,
            !r.printed_any,
    {
        Self { section: StreamSection::Nothing, printed_any: false }
    }

    /// Transition to `target`, printing a header (and a separating newline if
    /// switching from a different section) the first time `target` is entered.
    pub fn begin_section(&mut self, target: StreamSection) -> (ops: Vec<PrintOp>)
        ensures
            *final(self) == after_section(*old(self), target),
            ops_view(ops@) == section_ops(old(self).section, old(self).printed_any, target),
    {
        let mut ops: Vec<PrintOp> = Vec::new();
        if self.section == target {
            assert(ops_view(ops@) == Seq::<PrintOpView>::empty());
            return ops;
        }
        if self.printed_any {
            ops.push(PrintOp::Newline);
        }
        match target {
            StreamSection::Reasoning => ops.push(PrintOp::ReasoningHeader),
            StreamSection::Content => ops.push(PrintOp::ResponseHeader),
            StreamSection::Nothing => {},
        }
        self.section = target;
        self.printed_any = true;
        assert(ops_view(ops@) == section_ops(old(self).section, old(self).printed_any, target));
        ops
    }

    /// The output for one stream event: an empty fragment prints nothing; a
    /// fragment enters its section (see `begin_section`) and is printed; the
    /// end of the stream closes the line if anything was printed.
    pub fn on_event(&mut self, event: StreamEvent) -> (ops: Vec<PrintOp>)
        ensures
            match event {
                StreamEvent::ReasoningDelta(t) => if t@.len() == 0 {
                    *final(self) == *old(self) && ops@.len() == 0
                } else {
                    &&& *final(self) == after_section(*old(self), StreamSection::Reasoning)
                    &&& ops_view(ops@) == section_ops(
                        old(self).section,
                        old(self).printed_any,
                        StreamSection::Reasoning,
                    ).push(PrintOpView::ReasoningText(t@))
                },
                StreamEvent::ContentDelta(t) => if t@.len() == 0 {
                    *final(self) == *old(self) && ops@.len() == 0
                } else {
                    &&& *final(self) == after_section(*old(self), StreamSection::Content)
                    &&& ops_view(ops@) == section_ops(
                        old(self).section,
                        old(self).printed_any,
                        StreamSection::Content,
                    ).push(PrintOpView::ContentText(t@))
                },
                StreamEvent::Done => {
                    &&& *final(self) == *old(self)
                    &&& ops_view(ops@) == (if old(self).printed_any {
                        seq![PrintOpView::Newline]
                    } else {
                        Seq::empty()
                    })
                },
            },
    {
        match event {
            StreamEvent::ReasoningDelta(text) => {
                if text.as_str().is_empty() {
                    return Vec::new();
                }
                let mut ops = self.begin_section(StreamSection::Reasoning);
                ops.push(PrintOp::ReasoningText(text));
                ops
            },
            StreamEvent::ContentDelta(text) => {
                if text.as_str().is_empty() {
                    return Vec::new();
                }
                let mut ops = self.begin_section(StreamSection::Content);
                ops.push(PrintOp::ContentText(text));
                ops
            },
            StreamEvent::Done => {
                let mut ops: Vec<PrintOp> = Vec::new();
                if self.printed_any {
                    ops.push(PrintOp::Newline);
                }
                assert(ops_view(ops@) == (if old(self).printed_any {
                    seq![PrintOpView::Newline]
                } else {
                    Seq::<PrintOpView>::empty()
                }));
                ops
            },
        }
    }
}

} // verus!
