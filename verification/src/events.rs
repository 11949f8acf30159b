//! The structural event stream: a streaming markdown parse reduced to the
//! three event shapes the scan cares about, each carrying the byte range in
//! the source text that produced it.

use pulldown_cmark::{CodeBlockKind, Event, Options, Parser, Tag, TagEnd};
use vstd::prelude::*;

verus! {

/// One structural event of the underlying markdown parse.
pub enum ScanEvent {
    /// A fenced code block opens; `tag` holds its info string.
    FencedOpen { tag: Vec<u8>, start: usize, end: usize },
    /// A literal text fragment.
    Text { start: usize, end: usize },
    /// A code block closes; its range spans the whole block, opening
    /// marker through closing marker.
    BlockClose { start: usize, end: usize },
    /// Any other structural event; the scan ignores these.
    Other,
}

/// The mathematical image of one `ScanEvent`.
pub enum EventModel {
    FencedOpen { tag: Seq<u8>, start: int, end: int },
    Text { start: int, end: int },
    BlockClose { start: int, end: int },
    Other,
}

impl View for ScanEvent {
    type V = EventModel;

    open spec fn view(&self) -> EventModel {
        match self {
            ScanEvent::FencedOpen { tag, start, end } => EventModel::FencedOpen {
                tag: tag@,
                start: *start as int,
                end: *end as int,
            },
            ScanEvent::Text { start, end } => EventModel::Text {
                start: *start as int,
                end: *end as int,
            },
            ScanEvent::BlockClose { start, end } => EventModel::BlockClose {
                start: *start as int,
                end: *end as int,
            },
            ScanEvent::Other => EventModel::Other,
        }
    }
}

/// The views of a vector of events, in order.
pub open spec fn event_views(es: Seq<ScanEvent>) -> Seq<EventModel> {
    es.map_values(|e: ScanEvent| e@)
}

/// The event stream that the markdown parser produces for `text`: a fixed
/// function of the bytes alone.
pub uninterp spec fn events_of(text: Seq<u8>) -> Seq<EventModel>;

/// Relies on pulldown_cmark's `Parser`: driven over `text` with no extra
/// options enabled, it yields one event stream determined by `text` alone,
/// in document order, with each event's byte range taken from the source.
/// Bytes that are not valid UTF-8 are replaced before the parse, as
/// `String::from_utf8_lossy` does.
#[verifier::external_body]
pub(crate) fn parse_events(text: &Vec<u8>) -> (r: Vec<ScanEvent>)
    ensures
        event_views(r@) == events_of(text@),
{
    let s = String::from_utf8_lossy(text.as_slice());
    Parser::new_ext(&s, Options::empty())
        .into_offset_iter()
        .map(|(ev, sp)| match ev {
            Event::Start(Tag::CodeBlock(CodeBlockKind::Fenced(t))) => ScanEvent::FencedOpen {
                tag: t.as_bytes().to_vec(),
                start: sp.start,
                end: sp.end,
            },
            Event::Text(_) => ScanEvent::Text { start: sp.start, end: sp.end },
            Event::End(TagEnd::CodeBlock) => ScanEvent::BlockClose { start: sp.start, end: sp.end },
            _ => ScanEvent::Other,
        })
        .collect()
}

} // verus!
