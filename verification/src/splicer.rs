//! The document splicer: it rewrites one document by substituting each
//! recorded byte range with its rendered text, leaving every other byte
//! untouched. The executable works back to front, so that substituting one
//! range never invalidates the offsets of the ranges before it; its result
//! is proved equal to the front-to-back specification, so any
//! internally-consistent order gives the same bytes.

use vstd::prelude::*;

use crate::bytes::slice_range;
use crate::scanner::RecordModel;
use crate::scanner::ExtractionRecord;

verus! {

/// An extraction record extended with the rendered text to substitute.
pub struct ReplacementRecord {
    /// The extracted block this replacement stands for.
    pub record: ExtractionRecord,
    /// The wrapped output that takes the block's place.
    pub rendered: Vec<u8>,
}

/// The mathematical image of one `ReplacementRecord`.
pub struct ReplacementModel {
    pub record: RecordModel,
    pub rendered: Seq<u8>,
}

impl View for ReplacementRecord {
    type V = ReplacementModel;

    open spec fn view(&self) -> ReplacementModel {
        ReplacementModel { record: self.record@, rendered: self.rendered@ }
    }
}

/// The views of a vector of replacements, in order.
pub open spec fn replacement_views(rs: Seq<ReplacementRecord>) -> Seq<ReplacementModel> {
    rs.map_values(|r: ReplacementRecord| r@)
}

/// Ranges in ascending order: every replacement lies inside `[0, len]` and
/// no two replacements overlap.
pub open spec fn replacements_ordered(rs: Seq<ReplacementModel>, len: int) -> bool {
    &&& forall|i: int|
        0 <= i < rs.len() ==> 0 <= (#[trigger] rs[i]).record.start <= rs[i].record.end <= len
    &&& forall|i: int| 0 < i < rs.len() ==> (#[trigger] rs[i]).record.start >= rs[i - 1].record.end
}

/// The spliced text from `from` on: the bytes of `text` outside the
/// recorded ranges, with each range's rendered text in its place, taken in
/// ascending order.
pub open spec fn splice_from(text: Seq<u8>, rs: Seq<ReplacementModel>, from: int) -> Seq<u8>
    decreases rs.len(),
{
    if rs.len() == 0 {
        text.subrange(from, text.len() as int)
    } else {
        text.subrange(from, rs[0].record.start) + rs[0].rendered + splice_from(
            text,
            rs.skip(1),
            rs[0].record.end,
        )
    }
}

/// The whole document with every recorded range substituted.
pub open spec fn splice_spec(text: Seq<u8>, rs: Seq<ReplacementModel>) -> Seq<u8> {
    splice_from(text, rs, 0)
}

/// With no replacements the splice is the identity transform.
pub proof fn lemma_splice_empty_identity(text: Seq<u8>, rs: Seq<ReplacementModel>)
    requires
        rs.len() == 0,
    ensures
        splice_spec(text, rs) == text,
{
    assert(text.subrange(0, text.len() as int) =~= text);
}

/// Dropping the first `k` replacements keeps the ordering.
pub proof fn lemma_ordered_skip(rs: Seq<ReplacementModel>, len: int, k: int)
    requires
        replacements_ordered(rs, len),
        0 <= k <= rs.len(),
    ensures
        replacements_ordered(rs.skip(k), len),
{
    assert forall|i: int| 0 <= i < rs.skip(k).len() implies 0 <= (#[trigger] rs.skip(
        k,
    )[i]).record.start <= rs.skip(k)[i].record.end <= len by {
        assert(rs.skip(k)[i] == rs[i + k]);
    }
    assert forall|i: int| 0 < i < rs.skip(k).len() implies (#[trigger] rs.skip(k)[i]).record.start
        >= rs.skip(k)[i - 1].record.end by {
        assert(rs.skip(k)[i] == rs[i + k]);
        assert(rs.skip(k)[i - 1] == rs[i - 1 + k]);
    }
}

/// Up to the first replaced range, the spliced text repeats `text`: it is
/// at least `mid - from` long and agrees with `text` on `[from, mid)`.
pub proof fn lemma_splice_from_prefix(text: Seq<u8>, rs: Seq<ReplacementModel>, from: int, mid: int)
    requires
        replacements_ordered(rs, text.len() as int),
        0 <= from <= mid,
        mid <= if rs.len() > 0 {
            rs[0].record.start
        } else {
            text.len() as int
        },
    ensures
        splice_from(text, rs, from).len() >= mid - from,
        splice_from(text, rs, from).subrange(0, mid - from) == text.subrange(from, mid),
{
    if rs.len() == 0 {
        assert(splice_from(text, rs, from).subrange(0, mid - from) =~= text.subrange(from, mid));
    } else {
        let a = text.subrange(from, rs[0].record.start);
        let rest = rs[0].rendered + splice_from(text, rs.skip(1), rs[0].record.end);
        assert(splice_from(text, rs, from) == a + rest);
        assert((a + rest).subrange(0, mid - from) =~= text.subrange(from, mid));
    }
}

/// The spliced text splits at any point before the first replaced range.
pub proof fn lemma_splice_from_split(text: Seq<u8>, rs: Seq<ReplacementModel>, from: int, mid: int)
    requires
        replacements_ordered(rs, text.len() as int),
        0 <= from <= mid,
        mid <= if rs.len() > 0 {
            rs[0].record.start
        } else {
            text.len() as int
        },
    ensures
        splice_from(text, rs, from) == text.subrange(from, mid) + splice_from(text, rs, mid),
{
    if rs.len() == 0 {
        assert(text.subrange(from, text.len() as int) =~= text.subrange(from, mid) + text.subrange(
            mid,
            text.len() as int,
        ));
    } else {
        assert(text.subrange(from, rs[0].record.start) =~= text.subrange(from, mid)
            + text.subrange(mid, rs[0].record.start));
        assert((text.subrange(from, mid) + text.subrange(mid, rs[0].record.start)) + rs[0].rendered
            + splice_from(text, rs.skip(1), rs[0].record.end) =~= text.subrange(from, mid) + (
        text.subrange(mid, rs[0].record.start) + rs[0].rendered + splice_from(
            text,
            rs.skip(1),
            rs[0].record.end,
        )));
    }
}

/// Replaces `v[start..end]` by `mid`, leaving all other bytes unchanged.
pub fn replace_range(v: &Vec<u8>, start: usize, end: usize, mid: &Vec<u8>) -> (r: Vec<u8>)
    requires
        start <= end <= v@.len(),
    ensures
        r@ == v@.subrange(0, start as int) + mid@ + v@.subrange(end as int, v@.len() as int),
{
    let mut out = slice_range(v, 0, start);
    let mut i: usize = 0;
    while i < mid.len()
        invariant
            i <= mid@.len(),
            start <= end <= v@.len(),
            out@ == v@.subrange(0, start as int) + mid@.take(i as int),
        decreases mid@.len() - i,
    {
        out.push(mid[i]);
        proof {
            assert(out@ =~= v@.subrange(0, start as int) + mid@.take(i as int + 1));
        }
        i = i + 1;
    }
    proof {
        assert(mid@.take(mid@.len() as int) =~= mid@);
    }
    let mut k: usize = end;
    while k < v.len()
        invariant
            end <= k <= v@.len(),
            out@ == v@.subrange(0, start as int) + mid@ + v@.subrange(end as int, k as int),
        decreases v@.len() - k,
    {
        out.push(v[k]);
        proof {
            assert(out@ =~= v@.subrange(0, start as int) + mid@ + v@.subrange(
                end as int,
                k as int + 1,
            ));
        }
        k = k + 1;
    }
    proof {
        assert(out@ + v@.subrange(end as int, end as int) =~= out@);
    }
    out
}

/// Splices every replacement into `text`, back to front, and returns the
/// new document text.
pub fn splice(text: &Vec<u8>, reps: &Vec<ReplacementRecord>) -> (r: Vec<u8>)
    requires
        replacements_ordered(replacement_views(reps@), text@.len() as int),
    ensures
        r@ == splice_spec(text@, replacement_views(reps@)),
{
    let ghost all = replacement_views(reps@);
    let mut out = slice_range(text, 0, text.len());
    let mut j: usize = reps.len();
    proof {
        assert(all.skip(reps@.len() as int) =~= Seq::<ReplacementModel>::empty());
        assert(out@ =~= splice_from(text@, all.skip(reps@.len() as int), 0));
    }
    while j > 0
        invariant
            j <= reps@.len(),
            all == replacement_views(reps@),
            replacements_ordered(all, text@.len() as int),
            out@ == splice_from(text@, all.skip(j as int), 0),
        decreases j,
    {
        j = j - 1;
        let ghost tail = all.skip(j as int + 1);
        let ghost sj = all[j as int].record.start;
        let ghost ej = all[j as int].record.end;
        proof {
            assert(all[j as int] == reps@[j as int]@);
            lemma_ordered_skip(all, text@.len() as int, j as int + 1);
            if j as int + 1 < all.len() {
                assert(tail[0] == all[j as int + 1]);
                assert(ej <= tail[0].record.start);
            }
            lemma_splice_from_prefix(text@, tail, 0, ej);
            lemma_splice_from_prefix(text@, tail, 0, sj);
            lemma_splice_from_split(text@, tail, 0, ej);
        }
        let rep = &reps[j];
        let start = rep.record.start;
        let end = rep.record.end;
        proof {
            assert(start as int == sj && end as int == ej);
            assert(out@.len() >= ej);
            assert(out@.subrange(0, sj) =~= text@.subrange(0, sj));
        }
        let next = replace_range(&out, start, end, &rep.rendered);
        proof {
            assert(out@.subrange(ej, out@.len() as int) =~= splice_from(text@, tail, ej));
            assert(all.skip(j as int)[0] == all[j as int]);
            assert(all.skip(j as int).skip(1) =~= tail);
            assert(splice_from(text@, all.skip(j as int), 0) == text@.subrange(0, sj)
                + all[j as int].rendered + splice_from(text@, tail, ej));
            assert(next@ == splice_from(text@, all.skip(j as int), 0));
        }
        out = next;
    }
    proof {
        assert(all.skip(0) =~= all);
    }
    out
}

} // verus!
