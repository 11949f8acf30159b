//! The span scanner: it walks the structural event stream of one document,
//! accumulates the byte span of every fenced block carrying the target tag,
//! and emits one extraction record per closed block.

use vstd::prelude::*;

use crate::bytes::slice_range;
use crate::bytes::bytes_eq;
use crate::events::EventModel;
use crate::events::ScanEvent;
use crate::events::event_views;
use crate::events::events_of;
use crate::events::parse_events;
use crate::normalize::normalize;
use crate::normalize::normalize_bytes;

verus! {

/// One extracted block: the byte range of the whole block, opening marker
/// through closing marker, and the normalized literal payload found inside.
pub struct ExtractionRecord {
    /// Byte offset of the block's opening marker.
    pub start: usize,
    /// Byte offset one past the block's closing marker.
    pub end: usize,
    /// The normalized literal payload.
    pub payload: Vec<u8>,
}

/// The mathematical image of one `ExtractionRecord`.
pub struct RecordModel {
    pub start: int,
    pub end: int,
    pub payload: Seq<u8>,
}

impl View for ExtractionRecord {
    type V = RecordModel;

    open spec fn view(&self) -> RecordModel {
        RecordModel { start: self.start as int, end: self.end as int, payload: self.payload@ }
    }
}

/// The views of a vector of records, in order.
pub open spec fn record_views(rs: Seq<ExtractionRecord>) -> Seq<RecordModel> {
    rs.map_values(|r: ExtractionRecord| r@)
}

/// Ranges in scan order: every record lies inside `[0, len]` and no two
/// records overlap.
pub open spec fn records_ordered(rs: Seq<RecordModel>, len: int) -> bool {
    &&& forall|i: int|
        0 <= i < rs.len() ==> 0 <= (#[trigger] rs[i]).start <= rs[i].end <= len
    &&& forall|i: int| 0 < i < rs.len() ==> (#[trigger] rs[i]).start >= rs[i - 1].end
}

/// The scan's state between two events: whether the scan stands inside a
/// target block, whether the accumulated span is still empty (`fresh`), the
/// accumulated span itself, the end of the last emitted record, and the
/// records emitted so far.
pub struct ScanState {
    pub in_block: bool,
    pub fresh: bool,
    pub acc_start: int,
    pub acc_end: int,
    pub emitted_end: int,
    pub records: Seq<RecordModel>,
}

/// The state before any event is seen.
pub open spec fn scan_init() -> ScanState {
    ScanState {
        in_block: false,
        fresh: true,
        acc_start: 0,
        acc_end: 0,
        emitted_end: 0,
        records: Seq::empty(),
    }
}

/// The payload emitted when a target block closes: the slice of `content`
/// under the accumulated span, normalized; empty when no fragment was seen
/// or the span does not fit the document.
pub open spec fn close_payload(content: Seq<u8>, st: ScanState) -> Seq<u8> {
    if !st.fresh && 0 <= st.acc_start <= st.acc_end <= content.len() {
        normalize(content.subrange(st.acc_start, st.acc_end))
    } else {
        Seq::empty()
    }
}

/// One step of the scan: the next state after `ev`.
///
/// A block-open whose tag equals the target raises the flag; a text
/// fragment while the flag is set starts or extends the accumulated span,
/// bridging fragments as the union of the first and the latest range; a
/// block-close while the flag is set clears it and emits one record over
/// the close event's full range. A record whose range would step outside
/// the document or back over an earlier record is dropped. Everything else
/// leaves the state unchanged.
pub open spec fn scan_step(content: Seq<u8>, tag: Seq<u8>, st: ScanState, ev: EventModel) -> ScanState {
    match ev {
        EventModel::FencedOpen { tag: t, start: _, end: _ } => {
            if t == tag {
                ScanState { in_block: true, ..st }
            } else {
                st
            }
        },
        EventModel::Text { start, end } => {
            if st.in_block {
                if st.fresh {
                    ScanState { fresh: false, acc_start: start, acc_end: end, ..st }
                } else {
                    ScanState { acc_end: end, ..st }
                }
            } else {
                st
            }
        },
        EventModel::BlockClose { start, end } => {
            if st.in_block {
                if st.emitted_end <= start <= end <= content.len() {
                    ScanState {
                        in_block: false,
                        fresh: true,
                        emitted_end: end,
                        records: st.records.push(
                            RecordModel { start, end, payload: close_payload(content, st) },
                        ),
                        ..st
                    }
                } else {
                    ScanState { in_block: false, fresh: true, ..st }
                }
            } else {
                st
            }
        },
        EventModel::Other => st,
    }
}

/// The state after the whole event stream.
pub open spec fn scan_fold(content: Seq<u8>, tag: Seq<u8>, evs: Seq<EventModel>) -> ScanState
    decreases evs.len(),
{
    if evs.len() == 0 {
        scan_init()
    } else {
        scan_step(content, tag, scan_fold(content, tag, evs.drop_last()), evs.last())
    }
}

/// The records that scanning `content` under `evs` with `tag` yields.
pub open spec fn scan_records(content: Seq<u8>, evs: Seq<EventModel>, tag: Seq<u8>) -> Seq<RecordModel> {
    scan_fold(content, tag, evs).records
}

/// The scan state invariant: emitted records are ordered and end at or
/// before `emitted_end`, which lies inside the document.
pub open spec fn state_ok(st: ScanState, len: int) -> bool {
    &&& records_ordered(st.records, len)
    &&& 0 <= st.emitted_end <= len
    &&& forall|i: int| 0 <= i < st.records.len() ==> (#[trigger] st.records[i]).end <= st.emitted_end
}

/// One scan step keeps the state invariant, whatever the event.
pub proof fn lemma_scan_step_ok(content: Seq<u8>, tag: Seq<u8>, st: ScanState, ev: EventModel)
    requires
        state_ok(st, content.len() as int),
    ensures
        state_ok(scan_step(content, tag, st, ev), content.len() as int),
{
    let st2 = scan_step(content, tag, st, ev);
    match ev {
        EventModel::BlockClose { start, end } => {
            if st.in_block && st.emitted_end <= start <= end <= content.len() {
                assert forall|i: int| 0 < i < st2.records.len() implies (#[trigger] st2.records[i]).start
                    >= st2.records[i - 1].end by {
                    if i < st2.records.len() - 1 {
                        assert(st2.records[i] == st.records[i]);
                    } else {
                        assert(st2.records[i].start == start);
                        assert(st2.records[i - 1].end <= st.emitted_end);
                    }
                }
            }
        },
        _ => {},
    }
}

/// The whole fold keeps the state invariant.
pub proof fn lemma_scan_fold_ok(content: Seq<u8>, tag: Seq<u8>, evs: Seq<EventModel>)
    ensures
        state_ok(scan_fold(content, tag, evs), content.len() as int),
    decreases evs.len(),
{
    if evs.len() == 0 {
    } else {
        lemma_scan_fold_ok(content, tag, evs.drop_last());
        lemma_scan_step_ok(content, tag, scan_fold(content, tag, evs.drop_last()), evs.last());
    }
}

/// The text-fragment events for a list of byte spans, in order.
pub open spec fn text_events(spans: Seq<(int, int)>) -> Seq<EventModel> {
    Seq::new(spans.len(), |i: int| EventModel::Text { start: spans[i].0, end: spans[i].1 })
}

/// Folding a run of text fragments while inside a block accumulates the
/// union of the first and the latest fragment range, and emits nothing.
proof fn lemma_fold_text_run(
    content: Seq<u8>,
    tag: Seq<u8>,
    prefix: Seq<EventModel>,
    spans: Seq<(int, int)>,
)
    requires
        spans.len() > 0,
        scan_fold(content, tag, prefix).in_block,
        scan_fold(content, tag, prefix).fresh,
    ensures
        scan_fold(content, tag, prefix + text_events(spans)) == (ScanState {
            in_block: true,
            fresh: false,
            acc_start: spans[0].0,
            acc_end: spans.last().1,
            emitted_end: scan_fold(content, tag, prefix).emitted_end,
            records: scan_fold(content, tag, prefix).records,
        }),
    decreases spans.len(),
{
    let evs = prefix + text_events(spans);
    if spans.len() == 1 {
        assert(evs.drop_last() =~= prefix);
        assert(evs.last() == (EventModel::Text { start: spans[0].0, end: spans[0].1 }));
    } else {
        let spans2 = spans.drop_last();
        lemma_fold_text_run(content, tag, prefix, spans2);
        assert(evs.drop_last() =~= prefix + text_events(spans2));
        assert(evs.last() == (EventModel::Text {
            start: spans.last().0,
            end: spans.last().1,
        }));
        assert(spans2[0] == spans[0]);
    }
}

/// The bridging law: one target-tagged block whose content reaches the
/// scan as any number of fragment events yields exactly one record, whose
/// payload is the normalized slice from the first fragment's start to the
/// latest fragment's end, and whose range is the block's own.
pub proof fn lemma_fragment_bridging(
    content: Seq<u8>,
    tag: Seq<u8>,
    open_start: int,
    open_end: int,
    spans: Seq<(int, int)>,
    close_start: int,
    close_end: int,
)
    requires
        spans.len() > 0,
        0 <= spans[0].0 <= spans.last().1 <= content.len(),
        0 <= close_start <= close_end <= content.len(),
    ensures
        scan_records(
            content,
            seq![EventModel::FencedOpen { tag: tag, start: open_start, end: open_end }]
                + text_events(spans) + seq![
                EventModel::BlockClose { start: close_start, end: close_end },
            ],
            tag,
        ) == seq![
            RecordModel {
                start: close_start,
                end: close_end,
                payload: normalize(content.subrange(spans[0].0, spans.last().1)),
            },
        ],
{
    let open = seq![EventModel::FencedOpen { tag: tag, start: open_start, end: open_end }];
    let close = EventModel::BlockClose { start: close_start, end: close_end };
    let evs = open + text_events(spans) + seq![close];
    assert(open.drop_last() =~= Seq::<EventModel>::empty());
    assert(open.len() == 1);
    assert(scan_fold(content, tag, Seq::<EventModel>::empty()) == scan_init());
    assert(scan_fold(content, tag, open.drop_last()) == scan_init());
    assert(scan_fold(content, tag, open) == scan_step(content, tag, scan_init(), open.last()));
    lemma_fold_text_run(content, tag, open, spans);
    assert(evs.drop_last() =~= open + text_events(spans));
    assert(evs.last() == close);
    let st = scan_fold(content, tag, evs.drop_last());
    assert(scan_fold(content, tag, evs) == scan_step(content, tag, st, close));
    assert(scan_records(content, evs, tag) =~= seq![
        RecordModel {
            start: close_start,
            end: close_end,
            payload: normalize(content.subrange(spans[0].0, spans.last().1)),
        },
    ]);
}

/// Scans one document's event stream for blocks carrying `tag` and returns
/// their extraction records, in document order.
pub fn scan_events(content: &Vec<u8>, events: &Vec<ScanEvent>, tag: &Vec<u8>) -> (r: Vec<
    ExtractionRecord,
>)
    ensures
        record_views(r@) == scan_records(content@, event_views(events@), tag@),
        records_ordered(record_views(r@), content@.len() as int),
{
    let mut in_block = false;
    let mut fresh = true;
    let mut acc_start: usize = 0;
    let mut acc_end: usize = 0;
    let mut emitted_end: usize = 0;
    let mut records: Vec<ExtractionRecord> = Vec::new();
    let mut i: usize = 0;
    proof {
        assert(event_views(events@).take(0) =~= Seq::<EventModel>::empty());
        assert(record_views(records@) =~= Seq::<RecordModel>::empty());
    }
    while i < events.len()
        invariant
            i <= events@.len(),
            in_block == scan_fold(content@, tag@, event_views(events@).take(i as int)).in_block,
            fresh == scan_fold(content@, tag@, event_views(events@).take(i as int)).fresh,
            acc_start as int == scan_fold(
                content@,
                tag@,
                event_views(events@).take(i as int),
            ).acc_start,
            acc_end as int == scan_fold(content@, tag@, event_views(events@).take(i as int)).acc_end,
            emitted_end as int == scan_fold(
                content@,
                tag@,
                event_views(events@).take(i as int),
            ).emitted_end,
            record_views(records@) == scan_fold(
                content@,
                tag@,
                event_views(events@).take(i as int),
            ).records,
        decreases events@.len() - i,
    {
        let ghost st = scan_fold(content@, tag@, event_views(events@).take(i as int));
        let ghost st2 = scan_step(content@, tag@, st, events@[i as int]@);
        proof {
            let evs = event_views(events@);
            assert(evs.take(i as int + 1).drop_last() =~= evs.take(i as int));
            assert(evs.take(i as int + 1).last() == evs[i as int]);
            assert(evs[i as int] == events@[i as int]@);
            assert(scan_fold(content@, tag@, evs.take(i as int + 1)) == st2);
        }
        match &events[i] {
            ScanEvent::FencedOpen { tag: t, start: _, end: _ } => {
                if bytes_eq(t, tag) {
                    in_block = true;
                }
            },
            ScanEvent::Text { start, end } => {
                if in_block {
                    if fresh {
                        acc_start = *start;
                        acc_end = *end;
                        fresh = false;
                    } else {
                        acc_end = *end;
                    }
                }
            },
            ScanEvent::BlockClose { start, end } => {
                if in_block {
                    let payload: Vec<u8> = if !fresh && acc_start <= acc_end && acc_end
                        <= content.len() {
                        let sliced = slice_range(content, acc_start, acc_end);
                        normalize_bytes(&sliced)
                    } else {
                        Vec::new()
                    };
                    proof {
                        assert(payload@ == close_payload(content@, st));
                    }
                    in_block = false;
                    fresh = true;
                    if emitted_end <= *start && *start <= *end && *end <= content.len() {
                        let rec = ExtractionRecord { start: *start, end: *end, payload };
                        records.push(rec);
                        emitted_end = *end;
                        proof {
                            assert(record_views(records@) =~= st.records.push(
                                RecordModel {
                                    start: *start as int,
                                    end: *end as int,
                                    payload: close_payload(content@, st),
                                },
                            ));
                        }
                    }
                }
            },
            ScanEvent::Other => {},
        }
        i = i + 1;
    }
    proof {
        assert(event_views(events@).take(events@.len() as int) =~= event_views(events@));
        lemma_scan_fold_ok(content@, tag@, event_views(events@));
    }
    records
}

/// Scans one document for fenced blocks carrying `tag`: the streaming
/// structural parse followed by the event walk of `scan_events`.
pub fn scan(content: &Vec<u8>, tag: &Vec<u8>) -> (r: Vec<ExtractionRecord>)
    ensures
        record_views(r@) == scan_records(content@, events_of(content@), tag@),
        records_ordered(record_views(r@), content@.len() as int),
{
    let events = parse_events(content);
    scan_events(content, &events, tag)
}

} // verus!
