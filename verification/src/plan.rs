//! Which parts of a download are finished and which are still to be fetched.

use crate::downloader::sum_up_to;
use crate::hls::{HlsCipher, HlsCipherView};
use crate::lists::each;
use crate::record::{RangePart, SegmentPart};
use crate::text::same_text;
use vstd::prelude::*;

verus! {

/// A range that is to be fetched, and its place in the record.
#[derive(Clone, Copy, Debug, PartialEq, Eq, Structural)]
pub struct RangeJob {
    pub index: usize,
    pub start: u64,
    pub end: u64,
}

/// Whether ranges make up a file of so many bytes: the first begins at its first byte, each
/// begins where the one before it ends, and the last ends at its last byte.
pub open spec fn is_plan(list: Seq<RangePart>, total: u64) -> bool {
    &&& list.len() > 0
    &&& list[0].start == 0
    &&& list.last().end + 1 == total
    &&& forall|i: int| 0 <= i < list.len() ==> (#[trigger] list[i]).start <= list[i].end
    &&& forall|i: int|
        1 <= i < list.len() ==> (#[trigger] list[i]).start == list[i - 1].end + 1
}

/// Whether ranges make up a file of so many bytes.
pub fn makes_up(list: &Vec<RangePart>, total: u64) -> (r: bool)
    ensures
        r == is_plan(list@, total),
{
    if list.len() == 0 || list[0].start != 0 || total == 0 || list[list.len() - 1].end != total
        - 1 {
        return false;
    }
    let mut i: usize = 0;
    while i < list.len()
        invariant
            i <= list.len(),
            forall|k: int| 0 <= k < i ==> (#[trigger] list@[k]).start <= list@[k].end,
            forall|k: int| 1 <= k < i ==> (#[trigger] list@[k]).start == list@[k - 1].end + 1,
        decreases list.len() - i,
    {
        let part = list[i];
        if part.start > part.end {
            proof {
                assert(list@[i as int].start > list@[i as int].end);
            }
            return false;
        }
        if i > 0 && (part.start == 0 || list[i - 1].end != part.start - 1) {
            proof {
                assert(list@[i as int].start != list@[i - 1].end + 1);
            }
            return false;
        }
        i = i + 1;
    }
    true
}

/// Ranges of which none has come.
pub open spec fn fresh_ranges(ranges: Seq<(u64, u64)>) -> Seq<RangePart> {
    Seq::new(
        ranges.len(),
        |i: int| RangePart { start: ranges[i].0, end: ranges[i].1, completed: false },
    )
}

/// Ranges of which none has come.
pub fn plan_ranges(ranges: &Vec<(u64, u64)>) -> (r: Vec<RangePart>)
    ensures
        r@ == fresh_ranges(ranges@),
{
    let mut out: Vec<RangePart> = Vec::new();
    let mut i: usize = 0;
    while i < ranges.len()
        invariant
            i <= ranges.len(),
            out@ == fresh_ranges(ranges@).take(i as int),
        decreases ranges.len() - i,
    {
        out.push(RangePart { start: ranges[i].0, end: ranges[i].1, completed: false });
        i = i + 1;
        proof {
            assert(out@ =~= fresh_ranges(ranges@).take(i as int));
        }
    }
    proof {
        assert(out@ =~= fresh_ranges(ranges@));
    }
    out
}

/// The ranges that have not come, in their order.
pub open spec fn pending_ranges(list: Seq<RangePart>) -> Seq<RangeJob>
    decreases list.len(),
{
    if list.len() == 0 {
        Seq::empty()
    } else {
        let rest = pending_ranges(list.drop_last());
        let part = list.last();
        if part.completed {
            rest
        } else {
            rest.push(
                RangeJob { index: (list.len() - 1) as usize, start: part.start, end: part.end },
            )
        }
    }
}

/// The ranges that have not come.
pub fn ranges_to_fetch(list: &Vec<RangePart>) -> (r: Vec<RangeJob>)
    ensures
        r@ == pending_ranges(list@),
{
    let mut out: Vec<RangeJob> = Vec::new();
    let mut i: usize = 0;
    proof {
        assert(list@.take(0) =~= Seq::<RangePart>::empty());
    }
    while i < list.len()
        invariant
            i <= list.len(),
            out@ == pending_ranges(list@.take(i as int)),
        decreases list.len() - i,
    {
        proof {
            assert(list@.take(i + 1).drop_last() =~= list@.take(i as int));
        }
        let part = list[i];
        if !part.completed {
            out.push(RangeJob { index: i, start: part.start, end: part.end });
        }
        i = i + 1;
    }
    proof {
        assert(list@.take(list.len() as int) =~= list@);
    }
    out
}

/// The number of bytes in the ranges that have come.
pub open spec fn bytes_done(list: Seq<RangePart>) -> int
    decreases list.len(),
{
    if list.len() == 0 {
        0
    } else {
        bytes_done(list.drop_last()) + (if list.last().completed {
            list.last().end - list.last().start + 1
        } else {
            0
        })
    }
}

/// What has come of a file is no more than the file.
pub proof fn lemma_bytes_done(list: Seq<RangePart>, total: u64, upto: int)
    requires
        is_plan(list, total),
        0 <= upto <= list.len(),
    ensures
        0 <= bytes_done(list.take(upto)) <= (if upto == 0 {
            0
        } else {
            list[upto - 1].end + 1
        }),
        upto > 0 ==> list[upto - 1].end < total,
    decreases upto,
{
    if upto > 0 {
        lemma_bytes_done(list, total, upto - 1);
        assert(list.take(upto).drop_last() =~= list.take(upto - 1));
        lemma_ends_grow(list, total, upto - 1);
        assert(list[upto - 1].start <= list[upto - 1].end);
        if upto > 1 {
            assert(list[upto - 1].start == list[upto - 2].end + 1);
        }
    } else {
        assert(list.take(0).len() == 0);
    }
}

proof fn lemma_ends_grow(list: Seq<RangePart>, total: u64, at: int)
    requires
        is_plan(list, total),
        0 <= at < list.len(),
    ensures
        list[at].end < total,
    decreases list.len() - at,
{
    if at < list.len() - 1 {
        lemma_ends_grow(list, total, at + 1);
        assert(list[at + 1].start == list[at].end + 1);
        assert(list[at + 1].start <= list[at + 1].end);
    }
}

/// The number of bytes in the ranges that have come.
pub fn bytes_come(list: &Vec<RangePart>, total: u64) -> (r: u64)
    requires
        is_plan(list@, total),
    ensures
        r == bytes_done(list@),
        r <= total,
{
    let mut sum: u64 = 0;
    let mut i: usize = 0;
    proof {
        assert(list@.take(0).len() == 0);
    }
    while i < list.len()
        invariant
            i <= list.len(),
            is_plan(list@, total),
            sum == bytes_done(list@.take(i as int)),
        decreases list.len() - i,
    {
        proof {
            assert(list@.take(i + 1).drop_last() =~= list@.take(i as int));
            lemma_bytes_done(list@, total, i + 1);
            assert(list@[i as int].start <= list@[i as int].end);
        }
        let part = list[i];
        if part.completed {
            sum = sum + (part.end - part.start + 1);
        }
        i = i + 1;
    }
    proof {
        assert(list@.take(list.len() as int) =~= list@);
        lemma_bytes_done(list@, total, list@.len() as int);
    }
    sum
}

/// So many segments of which none has come.
pub open spec fn fresh_segments(count: nat) -> Seq<SegmentPart> {
    Seq::new(count, |i: int| SegmentPart { bytes: 0, completed: false })
}

/// So many segments of which none has come.
pub fn plan_segments(count: usize) -> (r: Vec<SegmentPart>)
    ensures
        r@ == fresh_segments(count as nat),
{
    let mut out: Vec<SegmentPart> = Vec::new();
    let mut i: usize = 0;
    while i < count
        invariant
            i <= count,
            out@ == fresh_segments(i as nat),
        decreases count - i,
    {
        out.push(SegmentPart { bytes: 0, completed: false });
        i = i + 1;
        proof {
            assert(out@ =~= fresh_segments(i as nat));
        }
    }
    out
}

/// What is recorded of segments, as far as the files on disk bear it out: a segment counts
/// as come only if its file has the size recorded.
pub open spec fn confirmed(list: Seq<SegmentPart>, sizes: Seq<Option<u64>>) -> Seq<SegmentPart> {
    Seq::new(
        list.len(),
        |i: int|
            if list[i].completed && i < sizes.len() && sizes[i] == Some(list[i].bytes) {
                list[i]
            } else {
                SegmentPart { bytes: 0, completed: false }
            },
    )
}

/// What is recorded of segments, as far as the files on disk bear it out.
pub fn confirm(list: &Vec<SegmentPart>, sizes: &Vec<Option<u64>>) -> (r: Vec<SegmentPart>)
    ensures
        r@ == confirmed(list@, sizes@),
{
    let mut out: Vec<SegmentPart> = Vec::new();
    let mut i: usize = 0;
    while i < list.len()
        invariant
            i <= list.len(),
            out@ == confirmed(list@, sizes@).take(i as int),
        decreases list.len() - i,
    {
        let part = list[i];
        let kept = part.completed && i < sizes.len() && (match sizes[i] {
            Some(size) => size == part.bytes,
            None => false,
        });
        if kept {
            out.push(part);
        } else {
            out.push(SegmentPart { bytes: 0, completed: false });
        }
        i = i + 1;
        proof {
            assert(out@ =~= confirmed(list@, sizes@).take(i as int));
        }
    }
    proof {
        assert(out@ =~= confirmed(list@, sizes@));
    }
    out
}

/// The positions of the segments that have not come, in their order.
pub open spec fn pending_segments(list: Seq<SegmentPart>) -> Seq<usize>
    decreases list.len(),
{
    if list.len() == 0 {
        Seq::empty()
    } else if list.last().completed {
        pending_segments(list.drop_last())
    } else {
        pending_segments(list.drop_last()).push((list.len() - 1) as usize)
    }
}

/// The number of segments that have come.
pub open spec fn segments_done(list: Seq<SegmentPart>) -> nat
    decreases list.len(),
{
    if list.len() == 0 {
        0
    } else if list.last().completed {
        segments_done(list.drop_last()) + 1
    } else {
        segments_done(list.drop_last())
    }
}

/// The bytes of the segments that have come, as far as 64 bits hold them.
pub open spec fn segment_bytes_done(list: Seq<SegmentPart>) -> nat
    decreases list.len(),
{
    if list.len() == 0 {
        0
    } else if list.last().completed {
        sum_up_to(
            segment_bytes_done(list.drop_last()),
            list.last().bytes as nat,
            u64::MAX as nat,
        )
    } else {
        segment_bytes_done(list.drop_last())
    }
}

/// What has come of segments, and what has not.
pub struct SegmentTally {
    pub count: usize,
    pub bytes: u64,
    pub pending: Vec<usize>,
}

/// What has come of segments, and what has not.
pub fn tally_segments(list: &Vec<SegmentPart>) -> (r: SegmentTally)
    ensures
        r.count == segments_done(list@),
        r.bytes == segment_bytes_done(list@),
        r.pending@ == pending_segments(list@),
{
    let mut count: usize = 0;
    let mut bytes: u64 = 0;
    let mut pending: Vec<usize> = Vec::new();
    let mut i: usize = 0;
    proof {
        assert(list@.take(0).len() == 0);
    }
    while i < list.len()
        invariant
            i <= list.len(),
            count <= i,
            count == segments_done(list@.take(i as int)),
            bytes == segment_bytes_done(list@.take(i as int)),
            pending@ == pending_segments(list@.take(i as int)),
        decreases list.len() - i,
    {
        proof {
            assert(list@.take(i + 1).drop_last() =~= list@.take(i as int));
        }
        if list[i].completed {
            count = count + 1;
            bytes = bytes.saturating_add(list[i].bytes);
        } else {
            pending.push(i);
        }
        i = i + 1;
    }
    proof {
        assert(list@.take(list.len() as int) =~= list@);
    }
    SegmentTally { count, bytes, pending }
}

/// The addresses of the keys that segments are encrypted with, each once, in the order of
/// their first use.
pub open spec fn key_urls(ciphers: Seq<HlsCipherView>) -> Seq<Seq<char>>
    decreases ciphers.len(),
{
    if ciphers.len() == 0 {
        Seq::empty()
    } else {
        let rest = key_urls(ciphers.drop_last());
        match ciphers.last() {
            HlsCipherView::Aes { url, .. } => if rest.contains(url) {
                rest
            } else {
                rest.push(url)
            },
            _ => rest,
        }
    }
}

/// The position of the first of some texts that is the given one, or their number.
pub open spec fn position_in(list: Seq<Seq<char>>, text: Seq<char>) -> int
    decreases list.len(),
{
    if list.len() == 0 || list[0] == text {
        0
    } else {
        1 + position_in(list.drop_first(), text)
    }
}

/// `position_in` is where the first such text stands.
pub proof fn lemma_position_in(list: Seq<Seq<char>>, text: Seq<char>)
    ensures
        0 <= position_in(list, text) <= list.len(),
        position_in(list, text) < list.len() ==> list[position_in(list, text)] == text,
        forall|k: int| 0 <= k < position_in(list, text) ==> #[trigger] list[k] != text,
    decreases list.len(),
{
    if list.len() > 0 && list[0] != text {
        let rest = list.drop_first();
        lemma_position_in(rest, text);
        assert forall|k: int| 0 <= k < position_in(list, text) implies #[trigger] list[k] != text by {
            if k > 0 {
                assert(list[k] == rest[k - 1]);
            }
        }
    }
}

/// The position of the first of some strings that is the given text, or their number.
pub fn find_text(list: &Vec<String>, text: &str) -> (r: usize)
    ensures
        r == position_in(each(list@), text@),
        r <= list@.len(),
        r < list@.len() <==> each(list@).contains(text@),
{
    proof {
        lemma_position_in(each(list@), text@);
    }
    let mut i: usize = 0;
    while i < list.len()
        invariant
            i <= list.len(),
            0 <= position_in(each(list@), text@) <= list@.len(),
            position_in(each(list@), text@) < list@.len() ==> each(
                list@,
            )[position_in(each(list@), text@)] == text@,
            forall|k: int|
                0 <= k < position_in(each(list@), text@) ==> #[trigger] each(list@)[k] != text@,
            forall|k: int| 0 <= k < i ==> #[trigger] each(list@)[k] != text@,
        decreases list.len() - i,
    {
        assert(each(list@)[i as int] == list@[i as int]@);
        if same_text(list[i].as_str(), text) {
            assert(each(list@).contains(text@));
            return i;
        }
        i = i + 1;
    }
    i
}

/// The addresses of the keys that segments are encrypted with, each once.
pub fn keys_to_fetch(ciphers: &Vec<HlsCipher>) -> (r: Vec<String>)
    ensures
        each(r@) == key_urls(each(ciphers@)),
{
    let mut out: Vec<String> = Vec::new();
    let mut i: usize = 0;
    let ghost all = each(ciphers@);
    proof {
        assert(all.take(0).len() == 0);
        assert(each(out@) =~= key_urls(all.take(0)));
    }
    while i < ciphers.len()
        invariant
            i <= ciphers.len(),
            all == each(ciphers@),
            each(out@) == key_urls(all.take(i as int)),
        decreases ciphers.len() - i,
    {
        proof {
            assert(all.take(i + 1).drop_last() =~= all.take(i as int));
            assert(all.take(i + 1).last() == ciphers@[i as int]@);
        }
        if let HlsCipher::Aes { url, .. } = &ciphers[i] {
            if find_text(&out, url.as_str()) == out.len() {
                let ghost was = each(out@);
                let copy = url.clone();
                out.push(copy);
                proof {
                    assert(each(out@) =~= was.push(copy@));
                }
            }
        }
        i = i + 1;
    }
    proof {
        assert(all.take(ciphers.len() as int) =~= all);
    }
    out
}

/// Whether a segment is encrypted in a way that is not supported.
pub open spec fn has_refused(ciphers: Seq<HlsCipherView>) -> bool {
    exists|i: int| 0 <= i < ciphers.len() && #[trigger] ciphers[i] == HlsCipherView::Refused
}

/// Whether a segment is encrypted in a way that is not supported.
pub fn any_refused(ciphers: &Vec<HlsCipher>) -> (r: bool)
    ensures
        r == has_refused(each(ciphers@)),
{
    let mut i: usize = 0;
    while i < ciphers.len()
        invariant
            i <= ciphers.len(),
            forall|k: int|
                0 <= k < i ==> #[trigger] each(ciphers@)[k] != HlsCipherView::Refused,
        decreases ciphers.len() - i,
    {
        assert(each(ciphers@)[i as int] == ciphers@[i as int]@);
        if let HlsCipher::Refused = &ciphers[i] {
            return true;
        }
        i = i + 1;
    }
    false
}

} // verus!
