//! The per-document transform: scan one document for target-tagged blocks,
//! render each extracted payload, and splice the rendered text back over
//! the blocks' byte ranges.

use vstd::prelude::*;

use crate::bytes::slice_range;
use crate::events::EventModel;
use crate::events::events_of;
use crate::render::render;
use crate::render::render_spec;
use crate::scanner::ExtractionRecord;
use crate::scanner::RecordModel;
use crate::scanner::record_views;
use crate::scanner::records_ordered;
use crate::scanner::scan;
use crate::scanner::scan_records;
use crate::splicer::ReplacementModel;
use crate::splicer::ReplacementRecord;
use crate::splicer::lemma_splice_empty_identity;
use crate::splicer::replacement_views;
use crate::splicer::replacements_ordered;
use crate::splicer::splice;
use crate::splicer::splice_spec;

verus! {

/// The one fenced-block tag this transform intercepts: `merjong`.
pub open spec fn target_tag() -> Seq<u8> {
    seq![0x6du8, 0x65u8, 0x72u8, 0x6au8, 0x6fu8, 0x6eu8, 0x67u8]
}

/// The target tag as bytes.
pub fn target_tag_bytes() -> (r: Vec<u8>)
    ensures
        r@ == target_tag(),
{
    let mut out: Vec<u8> = Vec::new();
    out.push(0x6d);  // m
    out.push(0x65);  // e
    out.push(0x72);  // r
    out.push(0x6a);  // j
    out.push(0x6f);  // o
    out.push(0x6e);  // n
    out.push(0x67);  // g
    proof {
        assert(out@ =~= target_tag());
    }
    out
}

/// Each extraction record paired with its rendered replacement.
pub open spec fn render_records(rs: Seq<RecordModel>) -> Seq<ReplacementModel> {
    rs.map_values(
        |r: RecordModel| ReplacementModel { record: r, rendered: render_spec(r.payload) },
    )
}

/// The transformed document: every target-tagged block of `content`, as the
/// event stream `evs` presents it, replaced by its rendered payload.
pub open spec fn preprocess_spec(content: Seq<u8>, evs: Seq<EventModel>, tag: Seq<u8>) -> Seq<u8> {
    splice_spec(content, render_records(scan_records(content, evs, tag)))
}

/// Rendering the records keeps their ranges and so their ordering.
pub proof fn lemma_render_keeps_order(rs: Seq<RecordModel>, len: int)
    requires
        records_ordered(rs, len),
    ensures
        replacements_ordered(render_records(rs), len),
{
    let rr = render_records(rs);
    assert forall|i: int| 0 <= i < rr.len() implies 0 <= (#[trigger] rr[i]).record.start
        <= rr[i].record.end <= len by {
        assert(rr[i].record == rs[i]);
    }
    assert forall|i: int| 0 < i < rr.len() implies (#[trigger] rr[i]).record.start >= rr[i
        - 1].record.end by {
        assert(rr[i].record == rs[i]);
        assert(rr[i - 1].record == rs[i - 1]);
    }
}

/// A document whose scan yields no records comes back unchanged: scanning
/// and then splicing is the identity transform on it.
pub proof fn lemma_no_records_identity(content: Seq<u8>, evs: Seq<EventModel>, tag: Seq<u8>)
    requires
        scan_records(content, evs, tag).len() == 0,
    ensures
        preprocess_spec(content, evs, tag) == content,
{
    lemma_splice_empty_identity(content, render_records(scan_records(content, evs, tag)));
}

/// Transforms one document: every fenced block tagged `merjong` is replaced
/// by its normalized payload wrapped in the markup envelope; all other
/// bytes stay untouched.
pub fn preprocess(content: &Vec<u8>) -> (r: Vec<u8>)
    ensures
        r@ == preprocess_spec(content@, events_of(content@), target_tag()),
{
    let tag = target_tag_bytes();
    let records = scan(content, &tag);
    let ghost recs = record_views(records@);
    let mut reps: Vec<ReplacementRecord> = Vec::new();
    let mut i: usize = 0;
    while i < records.len()
        invariant
            i <= records@.len(),
            recs == record_views(records@),
            reps@.len() == i,
            forall|j: int| 0 <= j < i ==> (#[trigger] reps@[j])@ == render_records(recs)[j],
        decreases records@.len() - i,
    {
        let rec = &records[i];
        let payload_copy = slice_range(&rec.payload, 0, rec.payload.len());
        let rendered = render(&rec.payload);
        proof {
            assert(payload_copy@ =~= rec.payload@);
            assert(recs[i as int] == records@[i as int]@);
        }
        reps.push(
            ReplacementRecord {
                record: ExtractionRecord { start: rec.start, end: rec.end, payload: payload_copy },
                rendered,
            },
        );
        proof {
            let m = reps@[i as int]@;
            assert(m.record.start == recs[i as int].start);
            assert(m.record.end == recs[i as int].end);
            assert(m.record.payload == recs[i as int].payload);
            assert(m.record == recs[i as int]);
            assert(m.rendered == render_spec(recs[i as int].payload));
            assert(m == render_records(recs)[i as int]);
        }
        i = i + 1;
    }
    proof {
        assert(replacement_views(reps@) =~= render_records(recs));
        lemma_render_keeps_order(recs, content@.len() as int);
    }
    splice(content, &reps)
}

} // verus!
