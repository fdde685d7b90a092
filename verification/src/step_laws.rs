//! What a download asks for and writes down at a step, and what it shows, told in full.

use crate::course_laws::{lemma_task, stands_at};
use crate::downloader::{part_size, ranges_of, saying};
use crate::hls::playlist_of;
use crate::outside::uuid_text;
use crate::plan::{bytes_done, is_plan, pending_ranges, segment_bytes_done, segments_done};
use crate::record::{RangePart, RecordView, SegmentPart};
use crate::run::{
    advanced, content_of, jobs_of, ranges_planned, segmented, segments_planned, taken, taken_up_at, ActionView,
    EventView, Phase, RunView, SecretView,
};
use crate::state::{progress_of, variant_label, AppStateView, DownloadTaskView};
use crate::text::{decimal, unsigned};
use vstd::prelude::*;

verus! {

/// A file in ranges is taken up where its record left it: the ranges that have not come are
/// fetched, and what has come is shown.
pub proof fn law_missing_ranges_are_asked_for(
    run: RunView,
    app: AppStateView,
    content_length: Option<Seq<char>>,
    accept_ranges: Option<Seq<char>>,
    record: Option<Seq<char>>,
    existing: Option<u64>,
    k: int,
)
    requires
        run.phase == Phase::Head,
        stands_at(app, run.task.id, k),
        advanced(
            run,
            app,
            EventView::Head { content_length, accept_ranges, record, existing },
        ).action is FetchRanges,
    ensures
        ({
            let step = advanced(
                run,
                app,
                EventView::Head { content_length, accept_ranges, record, existing },
            );
            let kept = step.action->FetchRanges_record;
            let total = step.action->FetchRanges_total;
            let before = app.tasks[k];
            let after = step.app.tasks[k];
            &&& step.action->FetchRanges_ranges == pending_ranges(kept.ranges)
            &&& kept.segments.len() == 0
            &&& after == (DownloadTaskView {
                total_bytes: Some(total),
                downloaded_bytes: bytes_done(kept.ranges) as u64,
                progress: progress_of((bytes_done(kept.ranges) as u64) as nat, total as nat),
                message: after.message,
                ..before
            })
            &&& step.run == (RunView { phase: Phase::Transfer, ..run })
        }),
{
    let step = advanced(
        run,
        app,
        EventView::Head { content_length, accept_ranges, record, existing },
    );
    let kept = step.action->FetchRanges_record;
    let message = "服务器支持分片下载，线程数 "@ + decimal(run.part_threads as nat);
    lemma_task(
        app,
        run.task.id,
        taken_up_at(unsigned(content_length->0)->0, bytes_done(kept.ranges) as u64, message),
        k,
    );
}

/// The ranges of a record are gone on with if the record is one of ranges, is of a file of the
/// same length, makes up that file, and what was kept is as long. Else the file is divided anew,
/// with nothing done.
pub proof fn law_ranges_are_gone_on_with_if_they_fit(
    run: RunView,
    total: u64,
    record: Option<RecordView>,
    existing: Option<u64>,
)
    ensures
        ({
            let fits = record is Some && !record->0.segmented && record->0.total_bytes == total
                && existing == Some(total) && is_plan(record->0.ranges, total);
            let anew = ranges_of(total as nat, part_size(total as nat, run.part_threads as nat));
            let planned = ranges_planned(run, total, record, existing);
            &&& fits ==> planned == record->0.ranges
            &&& !fits ==> planned.len() == anew.len() && forall|i: int|
                0 <= i < anew.len() ==> #[trigger] planned[i] == (RangePart {
                    start: anew[i].0,
                    end: anew[i].1,
                    completed: false,
                })
        }),
{
}

/// The segments of a record are gone on with if the record is one of as many segments, each as
/// far as its file is there. Else all are fetched.
pub proof fn law_segments_are_gone_on_with_if_they_fit(
    run: RunView,
    record: Option<RecordView>,
    sizes: Seq<Option<u64>>,
    i: int,
)
    requires
        0 <= i < run.segments.len() == sizes.len(),
    ensures
        ({
            let fits = record is Some && record->0.segmented && record->0.segments.len()
                == run.segments.len();
            let planned = segments_planned(run, record, sizes);
            &&& planned.len() == run.segments.len()
            &&& fits && record->0.segments[i].completed && sizes[i] == Some(
                record->0.segments[i].bytes,
            ) ==> planned[i] == record->0.segments[i]
            &&& !(fits && record->0.segments[i].completed && sizes[i] == Some(
                record->0.segments[i].bytes,
            )) ==> planned[i] == (SegmentPart { bytes: 0, completed: false })
        }),
{
}

/// The quality that a download takes is one of those on offer. It is said which, and its playlist
/// is fetched.
pub proof fn law_the_quality_that_is_taken_is_named(
    run: RunView,
    app: AppStateView,
    text: Seq<char>,
    k: int,
)
    requires
        run.phase == Phase::Playlist,
        stands_at(app, run.task.id, k),
        playlist_of(run.playlist_url, text) is Ok,
        playlist_of(run.playlist_url, text)->Ok_0.variants.len() > 0,
    ensures
        ({
            let step = advanced(run, app, EventView::Text(text));
            let variant = taken(playlist_of(run.playlist_url, text)->Ok_0.variants);
            &&& step.run == (RunView {
                phase: Phase::Quality,
                playlist_url: variant.url,
                ..run
            })
            &&& step.action == (ActionView::FetchPlaylist { url: variant.url })
            &&& step.app.tasks[k] == (DownloadTaskView {
                message: "自动选择清晰度 "@ + variant_label(variant),
                ..app.tasks[k]
            })
        }),
{
    let variant = taken(playlist_of(run.playlist_url, text)->Ok_0.variants);
    lemma_task(app, run.task.id, saying("自动选择清晰度 "@ + variant_label(variant)), k);
}

/// When segments are fetched, the ones that have not come are asked for, into the directory of
/// the download, by as many threads as are allowed and at least one. What is written down is the
/// download and its plan, and what is shown is what has come.
pub proof fn law_missing_segments_are_asked_for(
    run: RunView,
    app: AppStateView,
    event: EventView,
    k: int,
)
    requires
        run.phase == Phase::Parts || run.phase == Phase::Keys,
        stands_at(app, run.task.id, k),
        advanced(run, app, event).action is FetchSegments,
        run.segments.len() <= usize::MAX,
    ensures
        ({
            let step = advanced(run, app, event);
            let plan = step.run.plan;
            let kept = step.action->FetchSegments_record;
            let threads = step.action->FetchSegments_threads;
            let keys = if event is Keys {
                event->Keys_0
            } else {
                Seq::empty()
            };
            &&& step.run.phase == Phase::Segments
            &&& run.phase == Phase::Keys ==> plan == run.plan
            &&& step.action->FetchSegments_jobs == jobs_of(step.run, keys)
            &&& step.action->FetchSegments_count == run.segments.len()
            &&& step.action->FetchSegments_directory == uuid_text(run.task.id)
            &&& run.part_threads >= 1 ==> threads == run.part_threads
            &&& run.part_threads == 0 ==> threads == 1
            &&& kept.title == run.task.title && kept.url == run.task.url
            &&& kept.media_type == run.task.media_type && kept.media_id == run.task.media_id
            &&& kept.headers == run.headers && kept.segmented && kept.total_bytes == 0
            &&& kept.segments == plan && kept.ranges.len() == 0
            &&& step.app.tasks[k] == (DownloadTaskView {
                completed_segments: segments_done(plan) as usize,
                downloaded_bytes: segment_bytes_done(plan) as u64,
                progress: progress_of(segments_done(plan), plan.len()),
                total_bytes: None,
                message: "开始下载 "@ + decimal(run.segments.len())
                    + " 个 HLS 分片，线程数 "@ + decimal(threads as nat),
                ..app.tasks[k]
            })
        }),
{
    let step = advanced(run, app, event);
    let threads = step.action->FetchSegments_threads;
    let message = "开始下载 "@ + decimal(run.segments.len()) + " 个 HLS 分片，线程数 "@
        + decimal(threads as nat);
    lemma_task(app, run.task.id, segmented(step.run.plan, message), k);
}

/// A download that is broken off stops as it stands, and one that is over stays so.
pub proof fn law_broken_off_downloads_stop_as_they_stand(
    run: RunView,
    app: AppStateView,
    event: EventView,
)
    ensures
        advanced(run, app, EventView::Interrupted).app == app,
        advanced(run, app, EventView::Interrupted).action is Stop,
        advanced(run, app, EventView::Interrupted).run == (RunView { phase: Phase::Over, ..run }),
        run.phase == Phase::Over ==> {
            &&& advanced(run, app, event).run == run
            &&& advanced(run, app, event).app == app
            &&& advanced(run, app, event).action is Stop
        },
{
}

/// A segment without a key is kept as it came, and one whose key is not of sixteen bytes is not
/// kept.
pub proof fn law_plain_segments_are_kept_as_they_came(secret: SecretView, bytes: Seq<u8>)
    ensures
        content_of(None, bytes) == Some(bytes),
        secret.key.len() != 16 ==> content_of(Some(secret), bytes) is None,
{
}

} // verus!
