//! What holds of every record, and of every download that is taken up again.

use crate::downloader::{part_name, part_size, ranges_of};
use crate::downloader_laws::law_ranges_follow_each_other;
use crate::hls::HlsCipherView;
use crate::intake::restored_task;
use crate::manifest::{done_parts, is_done, items_in, summary_of};
use crate::outside::{json_member, json_of_text, Json};
use crate::plan::{
    fresh_ranges, is_plan, key_urls, lemma_position_in, pending_ranges, pending_segments,
    position_in, segments_done, RangeJob,
};
use crate::record::{
    header_in, header_json, media_named, range_in, range_json, record_json, record_of, segment_in,
    segment_json, with_range, with_segment, RangePart, RecordView, SegmentPart,
};
use crate::run::{
    are_keys, content_of, in_ranges, job_at, measured_step, merging, opened_record, part_names,
    ranges_planned, segments_planned, serves_ranges, stated_length, ActionView, RunView,
    SecretView,
};
use crate::state::{media_label, AppStateView, DownloadStatus, HeaderPairView, MediaType};
use vstd::prelude::*;

verus! {

pub proof fn lemma_part_names()
    ensures
        "index"@ != "bytes"@,
        "index"@ != "completed"@,
        "bytes"@ != "completed"@,
        "start"@ != "end"@,
        "start"@ != "completed"@,
        "end"@ != "completed"@,
        "name"@ != "value"@,
{
    reveal_strlit("index");
    reveal_strlit("bytes");
    reveal_strlit("completed");
    reveal_strlit("start");
    reveal_strlit("end");
    reveal_strlit("name");
    reveal_strlit("value");
    assert("index"@[0] == 'i');
    assert("bytes"@[0] == 'b');
    assert("completed"@.len() == 9);
    assert("start"@.len() == 5);
    assert("end"@.len() == 3);
    assert("name"@.len() == 4);
    assert("value"@.len() == 5);
}

proof fn lemma_parts_read_back(index: int, segment: SegmentPart, range: RangePart, pair: HeaderPairView)
    requires
        0 <= index <= u64::MAX,
    ensures
        segment_in(segment_json(index, segment), index) == segment,
        range_in(range_json(range)) == range,
        header_in(header_json(pair)) == pair,
{
    lemma_part_names();
}

pub proof fn lemma_member_names()
    ensures
        "kind"@.len() == 4,
        "title"@.len() == 5,
        "url"@.len() == 3,
        "headers"@.len() == 7,
        "hls_parts"@.len() == 9,
        "media_low"@.len() == 9,
        "media_type"@.len() == 10,
        "media_high"@.len() == 10,
        "total_parts"@.len() == 11,
        "total_bytes"@.len() == 11,
        "range_parts"@.len() == 11,
        "hls_parts"@[0] == 'h',
        "media_low"@[0] == 'm',
        "media_type"@[6] == 't',
        "media_high"@[6] == 'h',
        "range_parts"@[0] == 'r',
        "total_parts"@[0] == 't',
        "total_bytes"@[0] == 't',
        "total_parts"@[6] == 'p',
        "total_bytes"@[6] == 'b',
{
    reveal_strlit("kind");
    reveal_strlit("title");
    reveal_strlit("url");
    reveal_strlit("headers");
    reveal_strlit("hls_parts");
    reveal_strlit("media_low");
    reveal_strlit("media_type");
    reveal_strlit("media_high");
    reveal_strlit("total_parts");
    reveal_strlit("total_bytes");
    reveal_strlit("range_parts");
}

proof fn lemma_media_names(media_type: MediaType)
    ensures
        media_named(media_label(media_type)) == Some(media_type),
        "Hls"@ != "Range"@,
{
    reveal_strlit("HLS");
    reveal_strlit("DASH");
    reveal_strlit("MP4");
    reveal_strlit("WEBM");
    reveal_strlit("未知");
    reveal_strlit("Hls");
    reveal_strlit("Range");
    assert("HLS"@[0] == 'H');
    assert("MP4"@[0] == 'M');
    assert("DASH"@[0] == 'D');
    assert("WEBM"@[0] == 'W');
    assert("HLS"@.len() == 3 && "MP4"@.len() == 3 && "DASH"@.len() == 4 && "WEBM"@.len() == 4);
    assert("未知"@.len() == 2);
    assert("Hls"@.len() == 3 && "Range"@.len() == 5);
}

pub proof fn lemma_members(record: RecordView)
    ensures
        ({
            let json = record_json(record);
            &&& json_member(json, "kind"@) == Some(
                Json::Text(
                    if record.segmented {
                        "Hls"@
                    } else {
                        "Range"@
                    },
                ),
            )
            &&& json_member(json, "total_bytes"@) == Some(Json::Unsigned(record.total_bytes))
            &&& json_member(json, "hls_parts"@) == Some(
                Json::List(
                    Seq::new(record.segments.len(), |i: int| segment_json(i, record.segments[i])),
                ),
            )
            &&& json_member(json, "range_parts"@) == Some(
                Json::List(Seq::new(record.ranges.len(), |i: int| range_json(record.ranges[i]))),
            )
            &&& json_member(json, "title"@) == Some(Json::Text(record.title))
            &&& json_member(json, "url"@) == Some(Json::Text(record.url))
            &&& json_member(json, "media_type"@) == Some(
                Json::Text(media_label(record.media_type)),
            )
            &&& json_member(json, "media_high"@) == Some(
                Json::Unsigned((record.media_id / 0x1_0000_0000_0000_0000) as u64),
            )
            &&& json_member(json, "media_low"@) == Some(
                Json::Unsigned((record.media_id % 0x1_0000_0000_0000_0000) as u64),
            )
            &&& json_member(json, "headers"@) == Some(
                Json::List(
                    Seq::new(record.headers.len(), |i: int| header_json(record.headers[i])),
                ),
            )
        }),
{
    lemma_member_names();
}

/// A record that is written and read again is the same record.
pub proof fn law_records_read_back(record: RecordView)
    requires
        record.segments.len() <= u64::MAX,
    ensures
        record_of(record_json(record)) == Some(record),
{
    let json = record_json(record);
    lemma_members(record);
    lemma_media_names(record.media_type);
    let segments = items_in(json, "hls_parts"@);
    let ranges = items_in(json, "range_parts"@);
    let headers = items_in(json, "headers"@);
    assert forall|i: int| 0 <= i < record.segments.len() implies #[trigger] segment_in(
        segments[i],
        i,
    ) == record.segments[i] by {
        lemma_parts_read_back(
            i,
            record.segments[i],
            RangePart { start: 0, end: 0, completed: false },
            HeaderPairView { name: Seq::empty(), value: Seq::empty() },
        );
    }
    assert forall|i: int| 0 <= i < record.ranges.len() implies #[trigger] range_in(ranges[i])
        == record.ranges[i] by {
        lemma_parts_read_back(
            0,
            SegmentPart { bytes: 0, completed: false },
            record.ranges[i],
            HeaderPairView { name: Seq::empty(), value: Seq::empty() },
        );
    }
    assert forall|i: int| 0 <= i < record.headers.len() implies #[trigger] header_in(headers[i])
        == record.headers[i] by {
        lemma_parts_read_back(
            0,
            SegmentPart { bytes: 0, completed: false },
            RangePart { start: 0, end: 0, completed: false },
            record.headers[i],
        );
    }
    let back = record_of(json)->0;
    assert(back.segments =~= record.segments);
    assert(back.ranges =~= record.ranges);
    assert(back.headers =~= record.headers);
    assert(back =~= record);
}

/// A download that is taken up finds in the text of its record what was written.
pub proof fn law_what_was_recorded_is_taken_up(text: Seq<char>, record: RecordView)
    requires
        record.segments.len() <= u64::MAX,
        json_of_text(text) == Some(record_json(record)),
    ensures
        opened_record(Some(text)) == Some(record),
{
    law_records_read_back(record);
}

proof fn lemma_done_count(segments: Seq<SegmentPart>, parts: Seq<Json>)
    requires
        parts.len() == segments.len(),
        forall|i: int|
            0 <= i < parts.len() ==> is_done(#[trigger] parts[i]) == segments[i].completed,
    ensures
        done_parts(parts).len() == segments_done(segments),
    decreases parts.len(),
{
    if parts.len() > 0 {
        assert(is_done(parts[parts.len() - 1]) == segments[parts.len() - 1].completed);
        assert forall|i: int| 0 <= i < parts.len() - 1 implies is_done(
            #[trigger] parts.drop_last()[i],
        ) == segments.drop_last()[i].completed by {
            assert(parts[i] == parts.drop_last()[i]);
        }
        lemma_done_count(segments.drop_last(), parts.drop_last());
    }
}

/// What is shown of the record of a download in segments counts those that have come.
pub proof fn law_shown_record_counts_what_has_come(record: RecordView)
    requires
        record.segmented,
    ensures
        summary_of(record_json(record)).completed_parts == segments_done(record.segments),
{
    let json = record_json(record);
    lemma_members(record);
    let parts = items_in(json, "hls_parts"@);
    assert forall|i: int| 0 <= i < parts.len() implies is_done(#[trigger] parts[i])
        == record.segments[i].completed by {
        lemma_part_names();
    }
    lemma_done_count(record.segments, parts);
}

proof fn lemma_pending_ranges(list: Seq<RangePart>, job: RangeJob)
    requires
        list.len() <= usize::MAX,
    ensures
        pending_ranges(list).contains(job) <==> {
            &&& job.index < list.len()
            &&& !list[job.index as int].completed
            &&& job.start == list[job.index as int].start
            &&& job.end == list[job.index as int].end
        },
    decreases list.len(),
{
    let all = pending_ranges(list);
    if list.len() > 0 {
        let rest = list.drop_last();
        let before = pending_ranges(rest);
        lemma_pending_ranges(rest, job);
        let last = list.last();
        if !last.completed {
            let own = RangeJob {
                index: (list.len() - 1) as usize,
                start: last.start,
                end: last.end,
            };
            assert(all =~= before.push(own));
            assert(all.contains(job) <==> before.contains(job) || job == own) by {
                if before.contains(job) {
                    let k = choose|k: int| 0 <= k < before.len() && before[k] == job;
                    assert(all[k] == job);
                }
                if job == own {
                    assert(all[before.len() as int] == job);
                }
                if all.contains(job) {
                    let k = choose|k: int| 0 <= k < all.len() && all[k] == job;
                    if k < before.len() {
                        assert(before[k] == job);
                    }
                }
            }
        }
    }
}

proof fn lemma_plan_is_ordered(list: Seq<RangePart>, total: u64, i: int, j: int)
    requires
        is_plan(list, total),
        0 <= i < j < list.len(),
    ensures
        list[i].end < list[j].start,
    decreases j - i,
{
    assert(list[j].start == list[j - 1].end + 1);
    if i < j - 1 {
        lemma_plan_is_ordered(list, total, i, j - 1);
        assert(list[j - 1].start <= list[j - 1].end);
    }
}

proof fn lemma_plan_covers(list: Seq<RangePart>, total: u64, byte: u64, upto: int) -> (at: int)
    requires
        is_plan(list, total),
        0 <= upto < list.len(),
        byte <= list[upto].end,
    ensures
        0 <= at <= upto,
        list[at].start <= byte <= list[at].end,
    decreases upto,
{
    if upto == 0 {
        0
    } else if byte >= list[upto].start {
        upto
    } else {
        assert(list[upto].start == list[upto - 1].end + 1);
        lemma_plan_covers(list, total, byte, upto - 1)
    }
}

proof fn lemma_planned(run: RunView, total: u64, record: Option<RecordView>, existing: Option<u64>)
    requires
        run.part_threads > 0,
        total > 0,
    ensures
        is_plan(ranges_planned(run, total, record, existing), total),
{
    let size = part_size(total as nat, run.part_threads as nat);
    let ranges = ranges_of(total as nat, size);
    let plan = fresh_ranges(ranges);
    crate::downloader::lemma_part_count(total as nat, size, 0);
    assert forall|i: int| 0 <= i < plan.len() implies (#[trigger] plan[i]).start <= plan[i].end by {
        law_ranges_follow_each_other(total, run.part_threads, i);
        assert(plan[i].start == ranges[i].0);
    }
    assert forall|i: int| 1 <= i < plan.len() implies (#[trigger] plan[i]).start == plan[i - 1].end
        + 1 by {
        law_ranges_follow_each_other(total, run.part_threads, i - 1);
        assert(plan[i].start == ranges[i].0);
    }
    law_ranges_follow_each_other(total, run.part_threads, 0);
    assert(plan[0].start == ranges[0].0);
    assert(plan.last().end == ranges.last().1);
}

/// Whatever an earlier start has left, every byte of a file is in one range of the plan and
/// in no other; and the range has come, or it is fetched, and never both.
pub proof fn law_recorded_and_fetched_ranges_make_up_the_file(
    run: RunView,
    total: u64,
    record: Option<RecordView>,
    existing: Option<u64>,
    byte: u64,
)
    requires
        run.part_threads > 0,
        byte < total,
        ranges_planned(run, total, record, existing).len() <= usize::MAX,
    ensures
        ({
            let plan = ranges_planned(run, total, record, existing);
            &&& exists|i: int| 0 <= i < plan.len() && (#[trigger] plan[i]).start <= byte <= plan[i].end
            &&& forall|i: int, j: int|
                0 <= i < plan.len() && 0 <= j < plan.len() && (#[trigger] plan[i]).start <= byte
                    <= plan[i].end && (#[trigger] plan[j]).start <= byte <= plan[j].end ==> i == j
            &&& forall|i: int|
                0 <= i < plan.len() ==> ((#[trigger] plan[i]).completed <==> !pending_ranges(
                    plan,
                ).contains(
                    RangeJob { index: i as usize, start: plan[i].start, end: plan[i].end },
                ))
        }),
{
    let plan = ranges_planned(run, total, record, existing);
    lemma_planned(run, total, record, existing);
    let at = lemma_plan_covers(plan, total, byte, plan.len() - 1);
    assert(plan[at].start <= byte <= plan[at].end);
    assert forall|i: int, j: int|
        0 <= i < plan.len() && 0 <= j < plan.len() && (#[trigger] plan[i]).start <= byte
            <= plan[i].end && (#[trigger] plan[j]).start <= byte <= plan[j].end implies i == j by {
        if i < j {
            lemma_plan_is_ordered(plan, total, i, j);
        }
        if j < i {
            lemma_plan_is_ordered(plan, total, j, i);
        }
    }
    assert forall|i: int| 0 <= i < plan.len() implies ((#[trigger] plan[i]).completed
        <==> !pending_ranges(plan).contains(
        RangeJob { index: i as usize, start: plan[i].start, end: plan[i].end },
    )) by {
        lemma_pending_ranges(
            plan,
            RangeJob { index: i as usize, start: plan[i].start, end: plan[i].end },
        );
    }
}

/// A file is fetched in ranges only if its length is known, and then only what has not come.
pub proof fn law_ranges_are_of_a_known_length(
    run: RunView,
    app: AppStateView,
    content_length: Option<Seq<char>>,
    accept_ranges: Option<Seq<char>>,
    record: Option<RecordView>,
    existing: Option<u64>,
)
    ensures
        match measured_step(run, app, content_length, accept_ranges, record, existing).action {
            ActionView::FetchRanges { total, ranges, .. } => {
                &&& stated_length(content_length) == Some(total)
                &&& serves_ranges(accept_ranges)
                &&& ranges == pending_ranges(ranges_planned(run, total, record, existing))
            },
            ActionView::FetchWhole { .. } => !in_ranges(
                run,
                stated_length(content_length),
                serves_ranges(accept_ranges),
            ),
            _ => false,
        },
{
}

/// A range that was recorded is not fetched when the download is taken up again.
pub proof fn law_recorded_ranges_are_not_fetched(
    run: RunView,
    total: u64,
    record: RecordView,
    job: RangeJob,
)
    requires
        !record.segmented,
        record.total_bytes == total,
        is_plan(record.ranges, total),
        record.ranges.len() <= usize::MAX,
        job.index < record.ranges.len(),
        record.ranges[job.index as int].completed,
    ensures
        !pending_ranges(ranges_planned(run, total, Some(record), Some(total))).contains(job),
{
    lemma_pending_ranges(record.ranges, job);
}

/// A record of ranges that make up a file stays one, whatever comes; and the range that has
/// come is noted.
pub proof fn law_noting_a_range_keeps_the_plan(record: RecordView, total: u64, index: int)
    requires
        is_plan(record.ranges, total),
        0 <= index < record.ranges.len(),
    ensures
        is_plan(with_range(record, index).ranges, total),
        with_range(record, index).ranges[index].completed,
        forall|i: int|
            0 <= i < record.ranges.len() && i != index ==> (#[trigger] with_range(
                record,
                index,
            ).ranges[i]) == record.ranges[i],
{
    let noted = with_range(record, index).ranges;
    assert forall|i: int| 1 <= i < noted.len() implies (#[trigger] noted[i]).start == noted[i
        - 1].end + 1 by {
        assert(record.ranges[i].start == record.ranges[i - 1].end + 1);
    }
    assert forall|i: int| 0 <= i < noted.len() implies (#[trigger] noted[i]).start
        <= noted[i].end by {
        assert(record.ranges[i].start <= record.ranges[i].end);
    }
}

/// A range that has come, and was noted in the record on disk, is not fetched when the
/// download is taken up again.
pub proof fn law_finished_ranges_stay_finished(
    run: RunView,
    total: u64,
    record: RecordView,
    text: Seq<char>,
    job: RangeJob,
)
    requires
        !record.segmented,
        record.total_bytes == total,
        record.segments.len() <= u64::MAX,
        is_plan(record.ranges, total),
        record.ranges.len() <= usize::MAX,
        job.index < record.ranges.len(),
        json_of_text(text) == Some(record_json(with_range(record, job.index as int))),
    ensures
        !pending_ranges(
            ranges_planned(run, total, opened_record(Some(text)), Some(total)),
        ).contains(job),
{
    let noted = with_range(record, job.index as int);
    law_what_was_recorded_is_taken_up(text, noted);
    law_noting_a_range_keeps_the_plan(record, total, job.index as int);
    law_recorded_ranges_are_not_fetched(run, total, noted, job);
}

pub proof fn lemma_pending_segments(list: Seq<SegmentPart>, index: usize)
    requires
        list.len() <= usize::MAX,
    ensures
        pending_segments(list).contains(index) <==> index < list.len()
            && !list[index as int].completed,
    decreases list.len(),
{
    let all = pending_segments(list);
    if list.len() > 0 {
        let before = pending_segments(list.drop_last());
        lemma_pending_segments(list.drop_last(), index);
        if !list.last().completed {
            let own = (list.len() - 1) as usize;
            assert(all =~= before.push(own));
            assert(all.contains(index) <==> before.contains(index) || index == own) by {
                if before.contains(index) {
                    let k = choose|k: int| 0 <= k < before.len() && before[k] == index;
                    assert(all[k] == index);
                }
                if index == own {
                    assert(all[before.len() as int] == index);
                }
                if all.contains(index) {
                    let k = choose|k: int| 0 <= k < all.len() && all[k] == index;
                    if k < before.len() {
                        assert(before[k] == index);
                    }
                }
            }
        }
    }
}

/// Whatever an earlier start has left, every segment has come or is fetched, and never both.
pub proof fn law_recorded_and_fetched_segments_make_up_the_list(
    run: RunView,
    record: Option<RecordView>,
    sizes: Seq<Option<u64>>,
    index: usize,
)
    requires
        run.segments.len() <= usize::MAX,
        index < run.segments.len(),
    ensures
        ({
            let plan = segments_planned(run, record, sizes);
            &&& plan.len() == run.segments.len()
            &&& pending_segments(plan).contains(index) <==> !plan[index as int].completed
        }),
{
    lemma_pending_segments(segments_planned(run, record, sizes), index);
}

/// A segment that was recorded, and whose file is there, is not fetched when the download is
/// taken up again.
pub proof fn law_recorded_segments_are_not_fetched(
    run: RunView,
    record: RecordView,
    sizes: Seq<Option<u64>>,
    index: usize,
)
    requires
        record.segmented,
        record.segments.len() == run.segments.len(),
        run.segments.len() <= usize::MAX,
        index < run.segments.len(),
        index < sizes.len(),
        record.segments[index as int].completed,
        sizes[index as int] == Some(record.segments[index as int].bytes),
    ensures
        !pending_segments(segments_planned(run, Some(record), sizes)).contains(index),
{
    lemma_pending_segments(segments_planned(run, Some(record), sizes), index);
}

/// The segment that has come is noted, and no other is touched.
pub proof fn law_noting_a_segment_keeps_the_others(record: RecordView, index: int, bytes: u64, other: int)
    requires
        0 <= index < record.segments.len(),
        0 <= other < record.segments.len(),
        other != index,
    ensures
        with_segment(record, index, bytes).segments[index] == (SegmentPart {
            bytes,
            completed: true,
        }),
        with_segment(record, index, bytes).segments[other] == record.segments[other],
{
}

/// A segment that has come, was noted in the record on disk and is in its file, is not
/// fetched when the download is taken up again.
pub proof fn law_finished_segments_stay_finished(
    run: RunView,
    record: RecordView,
    text: Seq<char>,
    sizes: Seq<Option<u64>>,
    index: usize,
    bytes: u64,
)
    requires
        record.segmented,
        record.segments.len() == run.segments.len(),
        run.segments.len() <= usize::MAX,
        index < run.segments.len(),
        index < sizes.len(),
        sizes[index as int] == Some(bytes),
        json_of_text(text) == Some(record_json(with_segment(record, index as int, bytes))),
    ensures
        !pending_segments(
            segments_planned(run, opened_record(Some(text)), sizes),
        ).contains(index),
{
    let noted = with_segment(record, index as int, bytes);
    law_what_was_recorded_is_taken_up(text, noted);
    law_recorded_segments_are_not_fetched(run, noted, sizes, index);
}

proof fn lemma_key_is_listed(ciphers: Seq<HlsCipherView>, at: int)
    requires
        0 <= at < ciphers.len(),
        ciphers[at] is Aes,
    ensures
        key_urls(ciphers).contains(ciphers[at]->url),
    decreases ciphers.len(),
{
    let url = ciphers[at]->url;
    let rest = key_urls(ciphers.drop_last());
    let all = key_urls(ciphers);
    if at < ciphers.len() - 1 {
        lemma_key_is_listed(ciphers.drop_last(), at);
        let k = choose|k: int| 0 <= k < rest.len() && rest[k] == url;
        assert(all[k] == url);
    } else {
        if !rest.contains(url) {
            assert(all[rest.len() as int] == url);
        }
    }
}

/// Each encrypted segment is handed the key that was fetched from its own address, and its
/// own initial number.
pub proof fn law_segments_get_their_own_keys(run: RunView, keys: Seq<Seq<u8>>, index: usize)
    requires
        are_keys(keys, key_urls(run.ciphers).len()),
        index < run.ciphers.len(),
        run.ciphers[index as int] is Aes,
    ensures
        ({
            let secret = job_at(run, index, keys).secret;
            let at = position_in(key_urls(run.ciphers), run.ciphers[index as int]->url);
            &&& at < keys.len()
            &&& key_urls(run.ciphers)[at] == run.ciphers[index as int]->url
            &&& secret == Some(
                SecretView { key: keys[at], iv: run.ciphers[index as int]->iv },
            )
        }),
{
    lemma_key_is_listed(run.ciphers, index as int);
    lemma_position_in(key_urls(run.ciphers), run.ciphers[index as int]->url);
}

/// What files of the given names hold, one after the other.
pub open spec fn put_together(files: spec_fn(Seq<char>) -> Seq<u8>, names: Seq<Seq<char>>) -> Seq<u8>
    decreases names.len(),
{
    if names.len() == 0 {
        Seq::empty()
    } else {
        put_together(files, names.drop_last()) + files(names.last())
    }
}

/// Contents one after the other.
pub open spec fn concatenated(contents: Seq<Seq<u8>>) -> Seq<u8>
    decreases contents.len(),
{
    if contents.len() == 0 {
        Seq::empty()
    } else {
        concatenated(contents.drop_last()) + contents.last()
    }
}

proof fn lemma_put_together(files: spec_fn(Seq<char>) -> Seq<u8>, contents: Seq<Seq<u8>>)
    requires
        forall|i: int| 0 <= i < contents.len() ==> #[trigger] contents[i] == files(part_name(i as nat)),
    ensures
        put_together(files, part_names(contents.len())) == concatenated(contents),
    decreases contents.len(),
{
    let names = part_names(contents.len());
    if contents.len() > 0 {
        let fewer = contents.drop_last();
        assert forall|i: int| 0 <= i < fewer.len() implies #[trigger] fewer[i] == files(
            part_name(i as nat),
        ) by {
            assert(fewer[i] == contents[i]);
        }
        lemma_put_together(files, fewer);
        assert(names.drop_last() =~= part_names(fewer.len()));
        assert(contents.last() == files(part_name((contents.len() - 1) as nat)));
    }
}

/// What a segment is, once its bytes have come: they are decrypted with the key and the
/// initial number that the segment is handed, if it is encrypted.
pub open spec fn segment_of(run: RunView, keys: Seq<Seq<u8>>, index: int, bytes: Seq<u8>) -> Option<
    Seq<u8>,
> {
    content_of(job_at(run, index as usize, keys).secret, bytes)
}

/// If every segment could be decrypted, and is in its file, the files that are merged hold
/// the decrypted segments in the order of the playlist.
pub proof fn law_merged_file_is_the_decrypted_segments(
    run: RunView,
    app: AppStateView,
    keys: Seq<Seq<u8>>,
    fetched: Seq<Seq<u8>>,
    files: spec_fn(Seq<char>) -> Seq<u8>,
)
    requires
        fetched.len() == run.segments.len(),
        forall|i: int|
            0 <= i < fetched.len() ==> segment_of(run, keys, i, #[trigger] fetched[i]) == Some(
                files(part_name(i as nat)),
            ),
    ensures
        match merging(run, app).action {
            ActionView::MergeParts { parts, .. } => put_together(files, parts) == concatenated(
                Seq::new(fetched.len(), |i: int| segment_of(run, keys, i, fetched[i])->0),
            ),
            _ => false,
        },
{
    let contents = Seq::new(fetched.len(), |i: int| segment_of(run, keys, i, fetched[i])->0);
    assert forall|i: int| 0 <= i < contents.len() implies #[trigger] contents[i] == files(
        part_name(i as nat),
    ) by {
        assert(segment_of(run, keys, i, fetched[i]) == Some(files(part_name(i as nat))));
    }
    lemma_put_together(files, contents);
}

/// A download that is restored from its record is paused, and what has come of its segments
/// is kept.
pub proof fn law_restored_downloads_keep_what_has_come(record: RecordView, id: u128)
    requires
        record.segmented,
        record.segments.len() <= usize::MAX,
    ensures
        restored_task(record, id).status == DownloadStatus::Paused,
        restored_task(record, id).completed_segments == segments_done(record.segments),
        restored_task(record, id).progress.wf(),
{
    lemma_done_is_few(record.segments);
}

proof fn lemma_done_is_few(list: Seq<SegmentPart>)
    ensures
        segments_done(list) <= list.len(),
    decreases list.len(),
{
    if list.len() > 0 {
        lemma_done_is_few(list.drop_last());
    }
}

} // verus!
