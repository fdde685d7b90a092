//! How a download comes about and is taken up again, told by what was given and what has come.

use crate::course_laws::stands_at;
use crate::display::size_text;
use crate::downloader::{is_task, progressed};
use crate::ffmpeg::{first_found, is_so, places, remuxed_name, ToolView};
use crate::hls::HlsCipherView;
use crate::intake::{restored, restored_task, with_address};
use crate::lists::lemma_first_is;
use crate::plan::{
    bytes_done, confirmed, fresh_ranges, fresh_segments, has_refused, is_plan, key_urls,
    pending_ranges, pending_segments, position_in, segment_bytes_done, segments_done, RangeJob,
};
use crate::record::{with_range, with_segment, RangePart, RecordView, SegmentPart};
use crate::state::{
    media_type_of, progress_of, url_filename, AppStateView, DownloadTaskView, Progress,
};
use crate::text::{lower, trimmed};
use crate::text_laws::{same_but_case, law_lower_case_tells_texts_apart};
use vstd::prelude::*;

verus! {

/// An address that is typed in becomes a download that waits: of the address without the space
/// around it, under the name of the file there, of the kind that the address tells.
pub proof fn law_typed_addresses_become_downloads(
    app: AppStateView,
    address: Seq<char>,
    media_id: u128,
    id: u128,
    at: i64,
)
    ensures
        ({
            let after = with_address(app, address, media_id, id, at);
            let task = after.tasks.last();
            &&& after.tasks.len() == app.tasks.len() + 1
            &&& after.tasks.drop_last() == app.tasks
            &&& after.detected == app.detected
            &&& after.pending_audio == app.pending_audio
            &&& after.settings == app.settings
            &&& task.id == id
            &&& task.media_id == media_id
            &&& task.url == trimmed(address)
            &&& task.title == url_filename(trimmed(address))
            &&& task.media_type == media_type_of(trimmed(address), Seq::empty())
            &&& task.status is Queued
            &&& task.downloaded_bytes == 0
            &&& task.total_bytes is None
            &&& task.completed_segments == 0
            &&& task.message == "等待下载"@
            &&& task.file_path is None
        }),
{
    let after = with_address(app, address, media_id, id, at);
    assert(after.tasks.drop_last() =~= app.tasks);
}

/// A recorded download that is not listed is listed again, paused, as what it was.
pub proof fn law_recorded_downloads_are_listed_again(
    app: AppStateView,
    record: RecordView,
    id: u128,
)
    requires
        forall|i: int| 0 <= i < app.tasks.len() ==> (#[trigger] app.tasks[i]).id != id,
    ensures
        ({
            let after = restored(app, record, id);
            let task = after.tasks.last();
            &&& after.tasks.drop_last() == app.tasks
            &&& after.tasks.len() == app.tasks.len() + 1
            &&& after.detected == app.detected
            &&& after.pending_audio == app.pending_audio
            &&& after.settings == app.settings
            &&& task.id == id
            &&& task.media_id == record.media_id
            &&& task.title == record.title
            &&& task.url == record.url
            &&& task.media_type == record.media_type
            &&& task.status is Paused
            &&& task.message == "已暂停"@
            &&& task.file_path is None
            &&& record.segmented ==> task.total_bytes is None
            &&& !record.segmented ==> task.total_bytes == Some(record.total_bytes)
            &&& !record.segmented ==> task.completed_segments == 0
            &&& record.segmented ==> task.progress == progress_of(
                segments_done(record.segments),
                record.segments.len(),
            )
            &&& !record.segmented ==> task.progress == progress_of(
                task.downloaded_bytes as nat,
                record.total_bytes as nat,
            )
        }),
{
    lemma_first_is(app.tasks, is_task(id), app.tasks.len() as int);
    assert(restored(app, record, id).tasks.drop_last() =~= app.tasks);
}

/// A recorded download that is listed already is left as it is.
pub proof fn law_listed_downloads_are_left_alone(
    app: AppStateView,
    record: RecordView,
    id: u128,
    k: int,
)
    requires
        stands_at(app, id, k),
    ensures
        restored(app, record, id) == app,
{
    assert forall|i: int| 0 <= i < k implies !is_task(id)(#[trigger] app.tasks[i]) by {
        assert(app.tasks[i].id != id);
    }
    lemma_first_is(app.tasks, is_task(id), k);
}

/// The ranges of a record that follow each other from the first byte to the last count with the
/// bytes of those that have come. Ranges that do not make up the file count for nothing.
pub proof fn law_recorded_ranges_count_if_they_make_up_the_file(
    record: RecordView,
    id: u128,
    done: u64,
)
    requires
        !record.segmented,
        bytes_done(record.ranges) == done,
    ensures
        ({
            let list = record.ranges;
            let whole = {
                &&& list.len() > 0
                &&& list[0].start == 0
                &&& list[list.len() - 1].end + 1 == record.total_bytes
                &&& forall|i: int|
                    0 <= i < list.len() ==> (#[trigger] list[i]).start <= list[i].end
                &&& forall|i: int|
                    0 < i < list.len() ==> (#[trigger] list[i]).start == list[i - 1].end + 1
            };
            &&& whole ==> restored_task(record, id).downloaded_bytes == done
            &&& !whole ==> restored_task(record, id).downloaded_bytes == 0
        }),
{
}

/// What has come of a file in ranges is what has come of each of its ranges.
pub proof fn law_ranges_count_when_they_have_come(list: Seq<RangePart>, part: RangePart)
    ensures
        bytes_done(Seq::empty()) == 0,
        part.completed ==> bytes_done(list.push(part)) == bytes_done(list) + (part.end - part.start
            + 1),
        !part.completed ==> bytes_done(list.push(part)) == bytes_done(list),
{
    assert(list.push(part).drop_last() =~= list);
}

/// The ranges that have not come are fetched, in their order, and those that have come are not.
pub proof fn law_missing_ranges_are_fetched_in_order(list: Seq<RangePart>, part: RangePart)
    requires
        list.len() < usize::MAX,
    ensures
        pending_ranges(Seq::empty()).len() == 0,
        part.completed ==> pending_ranges(list.push(part)) == pending_ranges(list),
        !part.completed ==> pending_ranges(list.push(part)) == pending_ranges(list).push(
            RangeJob { index: list.len() as usize, start: part.start, end: part.end },
        ),
{
    assert(list.push(part).drop_last() =~= list);
}

/// The segments that have not come are fetched, in their order, and those that have come are
/// counted, with their bytes up to the most that can be counted.
pub proof fn law_missing_segments_are_fetched_in_order(list: Seq<SegmentPart>, part: SegmentPart)
    requires
        list.len() < usize::MAX,
    ensures
        pending_segments(Seq::empty()).len() == 0,
        segments_done(Seq::empty()) == 0,
        segment_bytes_done(Seq::empty()) == 0,
        part.completed ==> {
            &&& pending_segments(list.push(part)) == pending_segments(list)
            &&& segments_done(list.push(part)) == segments_done(list) + 1
            &&& segment_bytes_done(list) + part.bytes <= u64::MAX ==> segment_bytes_done(
                list.push(part),
            ) == segment_bytes_done(list) + part.bytes
            &&& segment_bytes_done(list) + part.bytes > u64::MAX ==> segment_bytes_done(
                list.push(part),
            ) == u64::MAX
        },
        !part.completed ==> {
            &&& pending_segments(list.push(part)) == pending_segments(list).push(
                list.len() as usize,
            )
            &&& segments_done(list.push(part)) == segments_done(list)
            &&& segment_bytes_done(list.push(part)) == segment_bytes_done(list)
        },
{
    assert(list.push(part).drop_last() =~= list);
}

/// A new plan has all of its parts before it.
pub proof fn law_new_plans_have_nothing_done(ranges: Seq<(u64, u64)>, count: nat, i: int, j: int)
    requires
        0 <= i < ranges.len(),
        0 <= j < count,
    ensures
        fresh_ranges(ranges).len() == ranges.len(),
        fresh_ranges(ranges)[i].start == ranges[i].0,
        fresh_ranges(ranges)[i].end == ranges[i].1,
        !fresh_ranges(ranges)[i].completed,
        fresh_segments(count).len() == count,
        fresh_segments(count)[j].bytes == 0,
        !fresh_segments(count)[j].completed,
{
}

/// A segment is taken as come only while the file of it is as long as was recorded. Any other is
/// fetched anew.
pub proof fn law_segments_are_confirmed_by_their_files(
    list: Seq<SegmentPart>,
    sizes: Seq<Option<u64>>,
    i: int,
)
    requires
        0 <= i < list.len() == sizes.len(),
    ensures
        confirmed(list, sizes).len() == list.len(),
        confirmed(list, sizes)[i].completed <==> list[i].completed && sizes[i] == Some(
            list[i].bytes,
        ),
        confirmed(list, sizes)[i].completed ==> confirmed(list, sizes)[i].bytes == list[i].bytes,
        !confirmed(list, sizes)[i].completed ==> confirmed(list, sizes)[i].bytes == 0,
{
}

/// A part that has come is noted as come, with its bytes, and the others stay as they were.
pub proof fn law_parts_are_noted_one_by_one(record: RecordView, i: int, j: int, bytes: u64)
    requires
        0 <= i < record.segments.len(),
        0 <= j < record.ranges.len(),
    ensures
        with_segment(record, i, bytes).segments == record.segments.update(
            i,
            SegmentPart { bytes, completed: true },
        ),
        with_segment(record, i, bytes) == (RecordView {
            segments: with_segment(record, i, bytes).segments,
            ..record
        }),
        with_range(record, j).ranges == record.ranges.update(
            j,
            RangePart { start: record.ranges[j].start, end: record.ranges[j].end, completed: true },
        ),
        with_range(record, j) == (RecordView { ranges: with_range(record, j).ranges, ..record }),
{
}

/// A part that the record does not have is not noted.
pub proof fn law_unknown_parts_are_not_noted(record: RecordView, i: int, bytes: u64)
    ensures
        i < 0 || i >= record.segments.len() ==> with_segment(record, i, bytes) == record,
        i < 0 || i >= record.ranges.len() ==> with_range(record, i) == record,
{
}

/// Each key is fetched once, in the order in which the segments first name it.
pub proof fn law_keys_are_fetched_once(ciphers: Seq<HlsCipherView>, cipher: HlsCipherView)
    ensures
        key_urls(Seq::empty()).len() == 0,
        !(cipher is Aes) ==> key_urls(ciphers.push(cipher)) == key_urls(ciphers),
        cipher is Aes && key_urls(ciphers).contains(cipher->url) ==> key_urls(ciphers.push(cipher))
            == key_urls(ciphers),
        cipher is Aes && !key_urls(ciphers).contains(cipher->url) ==> key_urls(
            ciphers.push(cipher),
        ) == key_urls(ciphers).push(cipher->url),
{
    assert(ciphers.push(cipher).drop_last() =~= ciphers);
}

/// Where a text stands in a list: at the first place that holds it, and past the end if none
/// does.
pub proof fn law_texts_are_found_at_their_first_place(
    list: Seq<Seq<char>>,
    text: Seq<char>,
    k: int,
)
    requires
        0 <= k <= list.len(),
        forall|i: int| 0 <= i < k ==> #[trigger] list[i] != text,
        k < list.len() ==> list[k] == text,
    ensures
        position_in(list, text) == k,
    decreases list.len(),
{
    if k > 0 {
        let rest = list.drop_first();
        assert forall|i: int| 0 <= i < k - 1 implies #[trigger] rest[i] != text by {
            assert(rest[i] == list[i + 1]);
        }
        assert(list[0] != text);
        law_texts_are_found_at_their_first_place(rest, text, k - 1);
    }
}

/// One segment of an encryption that is not known is enough to refuse a playlist.
pub proof fn law_one_unknown_encryption_is_enough(
    ciphers: Seq<HlsCipherView>,
    cipher: HlsCipherView,
)
    ensures
        !has_refused(Seq::empty()),
        has_refused(ciphers.push(cipher)) <==> has_refused(ciphers) || cipher is Refused,
{
    let all = ciphers.push(cipher);
    if has_refused(ciphers) {
        let i = choose|i: int|
            0 <= i < ciphers.len() && #[trigger] ciphers[i] == HlsCipherView::Refused;
        assert(all[i] == HlsCipherView::Refused);
    }
    if cipher is Refused {
        assert(all[ciphers.len() as int] == HlsCipherView::Refused);
    }
    if has_refused(all) && !(cipher is Refused) {
        let i = choose|i: int| 0 <= i < all.len() && #[trigger] all[i] == HlsCipherView::Refused;
        assert(ciphers[i] == HlsCipherView::Refused);
    }
}

/// Where the program that puts files together is looked for, in which order: the file that was
/// named, beside this program, below it, in the project, and last wherever the system finds it.
pub proof fn law_the_tool_is_looked_for_in_order(
    named: Seq<char>,
    package: Seq<char>,
    project: Seq<char>,
    separator: char,
)
    requires
        trimmed(named).len() > 0,
    ensures
        ({
            let beside = package.push(separator) + "ffmpeg.exe"@;
            let below = (package.push(separator) + "bin"@).push(separator) + "ffmpeg.exe"@;
            let in_project = ((project.push(separator) + "third_party"@).push(separator)
                + "ffmpeg"@).push(separator) + "ffmpeg.exe"@;
            let in_package = ((package.push(separator) + "third_party"@).push(separator)
                + "ffmpeg"@).push(separator) + "ffmpeg.exe"@;
            let last = ToolView::OnPath("ffmpeg"@);
            &&& places(Some(named), Some(package), Some(project), separator) == seq![
                ToolView::File(named),
                ToolView::File(beside),
                ToolView::File(below),
                ToolView::File(in_project),
                ToolView::File(in_package),
                last,
            ]
            &&& places(None, Some(package), Some(project), separator) == seq![
                ToolView::File(beside),
                ToolView::File(below),
                ToolView::File(in_project),
                ToolView::File(in_package),
                last,
            ]
            &&& places(None, None, Some(project), separator) == seq![
                ToolView::File(in_project),
                last,
            ]
            &&& places(None, Some(package), None, separator) == seq![
                ToolView::File(beside),
                ToolView::File(below),
                ToolView::File(in_package),
                last,
            ]
            &&& places(None, None, None, separator) == seq![last]
        }),
{
    let beside = package.push(separator) + "ffmpeg.exe"@;
    let below = (package.push(separator) + "bin"@).push(separator) + "ffmpeg.exe"@;
    let in_project = ((project.push(separator) + "third_party"@).push(separator) + "ffmpeg"@).push(
        separator,
    ) + "ffmpeg.exe"@;
    let in_package = ((package.push(separator) + "third_party"@).push(separator) + "ffmpeg"@).push(
        separator,
    ) + "ffmpeg.exe"@;
    let last = ToolView::OnPath("ffmpeg"@);
    assert(places(Some(named), Some(package), Some(project), separator) =~= seq![
        ToolView::File(named),
        ToolView::File(beside),
        ToolView::File(below),
        ToolView::File(in_project),
        ToolView::File(in_package),
        last,
    ]);
    assert(places(None, Some(package), Some(project), separator) =~= seq![
        ToolView::File(beside),
        ToolView::File(below),
        ToolView::File(in_project),
        ToolView::File(in_package),
        last,
    ]);
    assert(places(None, None, Some(project), separator) =~= seq![ToolView::File(in_project), last]);
    assert(places(None, Some(package), None, separator) =~= seq![
        ToolView::File(beside),
        ToolView::File(below),
        ToolView::File(in_package),
        last,
    ]);
    assert(places(None, None, None, separator) =~= seq![last]);
}

/// A name that was given but is blank is no name.
pub proof fn law_blank_names_are_no_names(
    named: Seq<char>,
    package: Option<Seq<char>>,
    project: Option<Seq<char>>,
    separator: char,
)
    requires
        trimmed(named).len() == 0,
    ensures
        places(Some(named), package, project, separator) == places(
            None,
            package,
            project,
            separator,
        ),
{
}

/// In the name of the file that is put together the ending `.ts`, in whatever case it is written,
/// gives way to `.mp4`. Any other name gets `.mp4` behind it.
pub proof fn law_the_ending_gives_way(name: Seq<char>, ending: Seq<char>)
    ensures
        same_but_case(ending, ".ts"@) ==> remuxed_name(name + ending) == name + ".mp4"@,
        (forall|start: Seq<char>, e: Seq<char>|
            #![trigger start + e]
            name == start + e ==> !same_but_case(e, ".ts"@)) ==> remuxed_name(name) == name
            + ".mp4"@,
{
    reveal_strlit(".ts");
    assert(lower(".ts"@) =~= ".ts"@);
    if same_but_case(ending, ".ts"@) {
        let whole = name + ending;
        law_lower_case_tells_texts_apart(ending, ".ts"@);
        assert(lower(whole).subrange(whole.len() - 3, whole.len() as int) =~= lower(ending));
        assert(whole.take(whole.len() - 3) =~= name);
    }
    if forall|start: Seq<char>, e: Seq<char>|
        #![trigger start + e]
        name == start + e ==> !same_but_case(e, ".ts"@) {
        if ".ts"@.is_suffix_of(lower(name)) {
            let start = name.take(name.len() - 3);
            let e = name.skip(name.len() - 3);
            assert(start + e =~= name);
            assert(lower(name).subrange(name.len() - 3, name.len() as int) =~= lower(e));
            law_lower_case_tells_texts_apart(e, ".ts"@);
        }
    }
}

/// The program is taken from the first place that has it, and from none if no place has it.
pub proof fn law_the_first_place_that_has_the_tool_is_taken(
    tools: Seq<ToolView>,
    found: Seq<bool>,
    k: int,
)
    requires
        0 <= k <= found.len(),
        forall|i: int| 0 <= i < k ==> !#[trigger] found[i],
        k < found.len() ==> found[k],
    ensures
        k < found.len() && k < tools.len() ==> first_found(tools, found) == Some(
            match tools[k] {
                ToolView::File(path) => path,
                ToolView::OnPath(name) => name,
            },
        ),
        k == found.len() || k >= tools.len() ==> first_found(tools, found) is None,
{
    assert forall|i: int| 0 <= i < k implies !is_so()(#[trigger] found[i]) by {
        assert(!found[i]);
    }
    lemma_first_is(found, is_so(), k);
}

/// Ranges make up a file if they follow each other without a gap from its first byte to its last.
pub proof fn law_ranges_make_up_a_file_without_gaps(list: Seq<RangePart>, total: u64)
    ensures
        is_plan(list, total) <==> {
            &&& list.len() > 0
            &&& list[0].start == 0
            &&& list[list.len() - 1].end + 1 == total
            &&& forall|i: int| 0 <= i < list.len() ==> (#[trigger] list[i]).start <= list[i].end
            &&& forall|i: int|
                0 < i < list.len() ==> (#[trigger] list[i]).start == list[i - 1].end + 1
        },
{
}

/// A segment whose file was not looked at is fetched anew.
pub proof fn law_unseen_segments_are_fetched_anew(
    list: Seq<SegmentPart>,
    sizes: Seq<Option<u64>>,
    i: int,
)
    requires
        0 <= i < list.len(),
        i >= sizes.len(),
    ensures
        confirmed(list, sizes)[i] == (SegmentPart { bytes: 0, completed: false }),
{
}

/// While the length of a file is not known its progress shows what has come and no share of a
/// whole.
pub proof fn law_an_unknown_length_has_no_share(task: DownloadTaskView, come: u64)
    ensures
        progressed(come, None)(task) == (DownloadTaskView {
            downloaded_bytes: come,
            total_bytes: None,
            progress: Progress { done: 0, whole: 1 },
            message: size_text(come),
            ..task
        }),
{
}

} // verus!
