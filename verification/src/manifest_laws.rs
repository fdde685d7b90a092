//! What a record of a download holds and what is shown of it, told part by part.

use crate::display::size_text;
use crate::manifest::{bounds, done_parts, is_done, range_line, segment_line, shown, summary_of};
use crate::outside::{json_member, Json};
use crate::record::{range_in, record_json, record_of, segment_in, RangePart, RecordView};
use crate::record_laws::{lemma_member_names, lemma_members, lemma_part_names};
use crate::text::decimal;
use vstd::prelude::*;

verus! {

/// A part of a record: a segment of a playlist.
pub open spec fn is_segment(part: Json, index: u64, bytes: u64, completed: bool) -> bool {
    &&& json_member(part, "index"@) == Some(Json::Unsigned(index))
    &&& json_member(part, "bytes"@) == Some(Json::Unsigned(bytes))
    &&& json_member(part, "completed"@) == Some(Json::Bool(completed))
}

/// A part of a record: a range of a file.
pub open spec fn is_range(part: Json, start: u64, end: u64, completed: bool) -> bool {
    &&& json_member(part, "start"@) == Some(Json::Unsigned(start))
    &&& json_member(part, "end"@) == Some(Json::Unsigned(end))
    &&& json_member(part, "completed"@) == Some(Json::Bool(completed))
}

/// A record with no segments shows none.
pub proof fn law_no_segments_show_nothing(json: Json)
    requires
        json_member(json, "kind"@) == Some(Json::Text("Hls"@)),
        json_member(json, "hls_parts"@) == Some(Json::List(Seq::empty())),
    ensures
        summary_of(json).kind == "Hls"@,
        summary_of(json).completed_parts == 0,
        summary_of(json).downloaded_bytes == 0,
        summary_of(json).preview_lines.len() == 0,
{
}

/// Each segment that has come counts once, with its bytes, and each of the first eighty segments
/// has a line that gives its number, whether it has come, and its size.
pub proof fn law_segments_are_shown_one_by_one(
    shorter: Json,
    longer: Json,
    parts: Seq<Json>,
    part: Json,
    index: u64,
    bytes: u64,
    completed: bool,
)
    requires
        json_member(shorter, "kind"@) == Some(Json::Text("Hls"@)),
        json_member(longer, "kind"@) == Some(Json::Text("Hls"@)),
        json_member(shorter, "hls_parts"@) == Some(Json::List(parts)),
        json_member(longer, "hls_parts"@) == Some(Json::List(parts.push(part))),
        is_segment(part, index, bytes, completed),
    ensures
        ({
            let before = summary_of(shorter);
            let after = summary_of(longer);
            let state = if completed {
                "完成"@
            } else {
                "待下载"@
            };
            let line = "#"@ + decimal(index as nat) + ": "@ + state + " · "@ + size_text(bytes);
            &&& after.kind == "Hls"@
            &&& completed ==> after.completed_parts == before.completed_parts + 1
            &&& completed ==> after.downloaded_bytes == before.downloaded_bytes + bytes
            &&& !completed ==> after.completed_parts == before.completed_parts
            &&& !completed ==> after.downloaded_bytes == before.downloaded_bytes
            &&& parts.len() < 80 ==> after.preview_lines == before.preview_lines.push(line)
            &&& parts.len() >= 80 ==> after.preview_lines == before.preview_lines
        }),
{
    let all = parts.push(part);
    assert(all.drop_last() =~= parts);
    let done = done_parts(parts);
    assert(done.push(part).drop_last() =~= done);
    if parts.len() < 80 {
        assert(summary_of(longer).preview_lines =~= summary_of(shorter).preview_lines.push(
            segment_line(part),
        ));
    } else {
        assert(shown(all) =~= shown(parts));
    }
}

/// What is left of a download in segments is the total less what has come, and never less than
/// nothing. A record that gives no total, or none at all, does not say what is left.
pub proof fn law_what_is_left_is_the_rest(json: Json, total: u64)
    requires
        json_member(json, "kind"@) == Some(Json::Text("Hls"@)),
        json_member(json, "total_parts"@) == Some(Json::Unsigned(total)),
        total <= usize::MAX,
    ensures
        total > 0 ==> summary_of(json).total_parts == Some(total as usize),
        total > 0 && summary_of(json).completed_parts <= total ==> summary_of(json).pending_parts
            == Some((total - summary_of(json).completed_parts) as usize),
        total > 0 && summary_of(json).completed_parts > total ==> summary_of(json).pending_parts
            == Some(0usize),
        total == 0 ==> summary_of(json).total_parts is None && summary_of(json).pending_parts
            is None,
{
}

/// A record with no ranges shows none.
pub proof fn law_no_ranges_show_nothing(json: Json, kind: Seq<char>)
    requires
        json_member(json, "kind"@) == Some(Json::Text(kind)),
        kind != "Hls"@,
        json_member(json, "range_parts"@) == Some(Json::List(Seq::empty())),
    ensures
        summary_of(json).kind == kind,
        summary_of(json).completed_parts == 0,
        summary_of(json).pending_parts is None,
        summary_of(json).downloaded_bytes == 0,
        summary_of(json).preview_lines.len() == 0,
{
    let none = Seq::new(0, |i: int| bounds(done_parts(Seq::empty())[i]));
    assert(none =~= Seq::empty());
    assert(none.to_set() =~= Set::empty());
}

/// Only ranges that have come are shown. Each counts with the bytes from its start to its end,
/// each of the first eighty has a line, and one that is recorded twice is one part.
#[verifier::rlimit(60)]
pub proof fn law_ranges_are_shown_one_by_one(
    shorter: Json,
    longer: Json,
    kind: Seq<char>,
    parts: Seq<Json>,
    part: Json,
    start: u64,
    end: u64,
    completed: bool,
)
    requires
        kind != "Hls"@,
        json_member(shorter, "kind"@) == Some(Json::Text(kind)),
        json_member(longer, "kind"@) == Some(Json::Text(kind)),
        json_member(shorter, "range_parts"@) == Some(Json::List(parts)),
        json_member(longer, "range_parts"@) == Some(Json::List(parts.push(part))),
        is_range(part, start, end, completed),
        start <= end,
        end - start < u64::MAX,
    ensures
        ({
            let before = summary_of(shorter);
            let after = summary_of(longer);
            let line = decimal(start as nat) + "-"@ + decimal(end as nat) + ": 完成 · "@
                + size_text((end - start + 1) as u64);
            let known = exists|i: int|
                0 <= i < parts.len() && is_range(#[trigger] parts[i], start, end, true);
            &&& after.kind == kind
            &&& after.pending_parts is None
            &&& !completed ==> after.completed_parts == before.completed_parts
                && after.downloaded_bytes == before.downloaded_bytes && after.preview_lines
                == before.preview_lines
            &&& completed ==> after.downloaded_bytes == before.downloaded_bytes + (end - start + 1)
            &&& completed && known ==> after.completed_parts == before.completed_parts
            &&& completed && before.preview_lines.len() < 80 ==> after.preview_lines
                == before.preview_lines.push(line)
            &&& before.preview_lines.len() >= 80 ==> after.preview_lines == before.preview_lines
        }),
{
    let all = parts.push(part);
    assert(all.drop_last() =~= parts);
    let done = done_parts(parts);
    if completed {
        let more = done.push(part);
        assert(done_parts(all) == more);
        assert(more.drop_last() =~= done);
        let a = Seq::new(done.len(), |i: int| bounds(done[i]));
        let b = Seq::new(more.len(), |i: int| bounds(more[i]));
        assert(b =~= a.push(bounds(part)));
        assert(bounds(part) == (start, end));
        if exists|i: int| 0 <= i < parts.len() && is_range(#[trigger] parts[i], start, end, true) {
            let i = choose|i: int|
                0 <= i < parts.len() && is_range(#[trigger] parts[i], start, end, true);
            lemma_done_holds(parts, i);
            let k = choose|k: int| 0 <= k < done.len() && done[k] == parts[i];
            assert(a[k] == (start, end));
            assert(a.contains(bounds(part)));
            assert(b.to_set() =~= a.to_set()) by {
                assert forall|x: (u64, u64)| b.contains(x) implies a.contains(x) by {
                    let j = choose|j: int| 0 <= j < b.len() && b[j] == x;
                    if j < a.len() {
                        assert(a[j] == x);
                    }
                }
                assert forall|x: (u64, u64)| a.contains(x) implies b.contains(x) by {
                    let j = choose|j: int| 0 <= j < a.len() && a[j] == x;
                    assert(b[j] == x);
                }
            }
        }
        if done.len() < 80 {
            assert(summary_of(longer).preview_lines =~= summary_of(shorter).preview_lines.push(
                range_line(part),
            ));
        } else {
            assert(shown(more) =~= shown(done));
        }
    }
}

proof fn lemma_done_holds(parts: Seq<Json>, i: int)
    requires
        0 <= i < parts.len(),
        is_done(parts[i]),
    ensures
        done_parts(parts).contains(parts[i]),
    decreases parts.len(),
{
    let rest = parts.drop_last();
    let before = done_parts(rest);
    if i < rest.len() {
        assert(rest[i] == parts[i]);
        lemma_done_holds(rest, i);
        let k = choose|k: int| 0 <= k < before.len() && before[k] == parts[i];
        assert(done_parts(parts)[k] == parts[i]);
    } else {
        assert(done_parts(parts)[before.len() as int] == parts[i]);
    }
}

proof fn lemma_done_is_there(parts: Seq<Json>, k: int)
    requires
        0 <= k < done_parts(parts).len(),
    ensures
        exists|i: int|
            0 <= i < parts.len() && is_done(#[trigger] parts[i]) && parts[i] == done_parts(
                parts,
            )[k],
    decreases parts.len(),
{
    let rest = parts.drop_last();
    if k < done_parts(rest).len() {
        lemma_done_is_there(rest, k);
        let i = choose|i: int|
            0 <= i < rest.len() && is_done(#[trigger] rest[i]) && rest[i] == done_parts(rest)[k];
        assert(parts[i] == rest[i]);
    } else {
        assert(parts[parts.len() - 1] == done_parts(parts)[k]);
    }
}

/// A range that no other part of the record has is one part more once it has come.
pub proof fn law_each_different_range_is_a_part(
    shorter: Json,
    longer: Json,
    kind: Seq<char>,
    parts: Seq<Json>,
    part: Json,
    start: u64,
    end: u64,
)
    requires
        kind != "Hls"@,
        json_member(shorter, "kind"@) == Some(Json::Text(kind)),
        json_member(longer, "kind"@) == Some(Json::Text(kind)),
        json_member(shorter, "range_parts"@) == Some(Json::List(parts)),
        json_member(longer, "range_parts"@) == Some(Json::List(parts.push(part))),
        is_range(part, start, end, true),
        forall|i: int|
            0 <= i < parts.len() ==> exists|s: u64, e: u64, c: bool|
                (s != start || e != end) && #[trigger] is_range(#[trigger] parts[i], s, e, c),
    ensures
        summary_of(longer).completed_parts == summary_of(shorter).completed_parts + 1,
{
    let all = parts.push(part);
    assert(all.drop_last() =~= parts);
    let done = done_parts(parts);
    let more = done.push(part);
    assert(done_parts(all) == more);
    let a = Seq::new(done.len(), |i: int| bounds(done[i]));
    let b = Seq::new(more.len(), |i: int| bounds(more[i]));
    assert(b =~= a.push(bounds(part)));
    assert(!a.contains((start, end))) by {
        if a.contains((start, end)) {
            let k = choose|k: int| 0 <= k < a.len() && a[k] == (start, end);
            lemma_done_is_there(parts, k);
            let i = choose|i: int|
                0 <= i < parts.len() && is_done(#[trigger] parts[i]) && parts[i] == done[k];
            let (s, e, c) = choose|s: u64, e: u64, c: bool|
                (s != start || e != end) && #[trigger] is_range(parts[i], s, e, c);
            assert(bounds(parts[i]) == (s, e));
        }
    }
    a.lemma_cardinality_of_set();
    assert(b.to_set() =~= a.to_set().insert((start, end))) by {
        assert forall|x: (u64, u64)| b.contains(x) implies a.contains(x) || x == (start, end) by {
            let j = choose|j: int| 0 <= j < b.len() && b[j] == x;
            if j < a.len() {
                assert(a[j] == x);
            }
        }
        assert forall|x: (u64, u64)| a.contains(x) || x == (start, end) implies b.contains(x) by {
            if a.contains(x) {
                let j = choose|j: int| 0 <= j < a.len() && a[j] == x;
                assert(b[j] == x);
            } else {
                assert(b[a.len() as int] == x);
            }
        }
    }
    assert(a.to_set().finite());
}

/// A record that does not say of what kind it is is shown as unknown, and what it leaves out
/// counts as nothing.
pub proof fn law_left_out_members_count_as_nothing(json: Json)
    requires
        json_member(json, "kind"@) is None,
        json_member(json, "range_parts"@) is None,
        json_member(json, "total_parts"@) is None,
    ensures
        summary_of(json).kind == "Unknown"@,
        summary_of(json).total_parts is None,
        summary_of(json).pending_parts is None,
        summary_of(json).completed_parts == 0,
        summary_of(json).downloaded_bytes == 0,
        summary_of(json).preview_lines.len() == 0,
{
    reveal_strlit("Unknown");
    reveal_strlit("Hls");
    assert("Unknown"@.len() == 7 && "Hls"@.len() == 3);
    let none = Seq::new(0, |i: int| bounds(done_parts(Seq::empty())[i]));
    assert(none =~= Seq::empty());
    assert(none.to_set() =~= Set::empty());
}

/// What is written down of a download, under which names.
pub proof fn law_a_record_holds_the_download(record: RecordView, i: int, j: int, h: int)
    requires
        0 <= i < record.segments.len() <= u64::MAX,
        0 <= j < record.ranges.len() <= u64::MAX,
        0 <= h < record.headers.len(),
    ensures
        ({
            let json = record_json(record);
            let segments = json_member(json, "hls_parts"@)->0->List_0;
            let ranges = json_member(json, "range_parts"@)->0->List_0;
            let headers = json_member(json, "headers"@)->0->List_0;
            &&& record.segmented ==> json_member(json, "kind"@) == Some(Json::Text("Hls"@))
            &&& record.segmented ==> json_member(json, "total_parts"@) == Some(
                Json::Unsigned(record.segments.len() as u64),
            )
            &&& !record.segmented ==> json_member(json, "kind"@) == Some(Json::Text("Range"@))
            &&& !record.segmented ==> json_member(json, "total_parts"@) == Some(
                Json::Unsigned(record.ranges.len() as u64),
            )
            &&& json_member(json, "total_bytes"@) == Some(Json::Unsigned(record.total_bytes))
            &&& json_member(json, "title"@) == Some(Json::Text(record.title))
            &&& json_member(json, "url"@) == Some(Json::Text(record.url))
            &&& json_member(json, "hls_parts"@) == Some(Json::List(segments))
            &&& segments.len() == record.segments.len()
            &&& is_segment(
                segments[i],
                i as u64,
                record.segments[i].bytes,
                record.segments[i].completed,
            )
            &&& json_member(json, "range_parts"@) == Some(Json::List(ranges))
            &&& ranges.len() == record.ranges.len()
            &&& is_range(
                ranges[j],
                record.ranges[j].start,
                record.ranges[j].end,
                record.ranges[j].completed,
            )
            &&& json_member(json, "headers"@) == Some(Json::List(headers))
            &&& headers.len() == record.headers.len()
            &&& json_member(headers[h], "name"@) == Some(Json::Text(record.headers[h].name))
            &&& json_member(headers[h], "value"@) == Some(Json::Text(record.headers[h].value))
        }),
{
    lemma_members(record);
    lemma_member_names();
    lemma_part_names();
}

/// A segment is taken as done only where the record says that it is done and gives the number of
/// its place.
pub proof fn law_segments_are_done_in_their_place(
    part: Json,
    place: int,
    index: u64,
    bytes: u64,
    completed: bool,
)
    requires
        is_segment(part, index, bytes, completed),
    ensures
        segment_in(part, place).completed <==> completed && index == place,
        segment_in(part, place).bytes == bytes,
{
}

/// A range is taken as it is recorded.
pub proof fn law_ranges_are_read_as_recorded(part: Json, start: u64, end: u64, completed: bool)
    requires
        is_range(part, start, end, completed),
    ensures
        range_in(part) == (RangePart { start, end, completed }),
{
}

/// A record of another kind than segments or ranges is not taken up.
pub proof fn law_other_records_are_not_taken_up(json: Json, kind: Seq<char>)
    requires
        json_member(json, "kind"@) == Some(Json::Text(kind)),
        kind != "Hls"@,
        kind != "Range"@,
    ensures
        record_of(json) is None,
{
}

} // verus!
