//! The course of a download: what is done next, after each thing that happened.

use crate::aes::{decrypt, decrypted, BLOCK};
use crate::downloader::{
    file_name, find_task, finished, is_task, mark_completed, mark_failed, output_filename,
    part_file_name, part_name, part_size, ranges_of, saying, set_message, set_status, split_ranges,
    standing, with_task,
};
use crate::ffmpeg::{remuxed_file_name, remuxed_name};
use crate::hls::{
    choose_highest_variant, error_text, is_highest, lemma_ranked_len, parse_hls_playlist,
    playlist_of, ranked, sort_variants_highest_first, HlsCipher, HlsCipherView, HlsPlaylist,
    HlsPlaylistView,
};
use crate::hls_laws::law_highest_is_one;
use crate::lists::{copy_list, each, first_where, lemma_first_where, maybe};
use crate::outside::{json_of_text, uuid_text, write_uuid};
use crate::plan::{
    any_refused, bytes_come, bytes_done, confirm, confirmed, find_text, fresh_ranges,
    fresh_segments, has_refused, is_plan, key_urls, keys_to_fetch, makes_up, pending_ranges,
    pending_segments, plan_ranges, plan_segments, position_in, ranges_to_fetch, segment_bytes_done,
    segments_done, tally_segments, RangeJob,
};
use crate::record::{read_record, record_of, RangePart, Record, RecordView, SegmentPart};
use crate::state::{
    copy_headers, progress_of, variant_label, AppState, AppStateView, DownloadStatus, DownloadTask,
    DownloadTaskView, HeaderPair, HeaderPairView, HlsVariantView, MediaType, Progress,
};
use crate::text::{decimal, lower, number, parse_unsigned, same_text_ignoring_case, unsigned};
use vstd::prelude::*;

verus! {

/// What a download waits for.
#[derive(Clone, Copy, Debug, PartialEq, Eq, Structural)]
pub enum Phase {
    /// The directory to save in.
    Directory,
    /// What the server says of a file before it is fetched.
    Head,
    /// The file.
    Transfer,
    /// The playlist at the address of the download.
    Playlist,
    /// The playlist of the chosen quality.
    Quality,
    /// The directory for the segments, and what it holds.
    Parts,
    /// The keys that the segments are encrypted with.
    Keys,
    /// The segments.
    Segments,
    /// The file that the segments are put together in.
    Merge,
    /// Whether there is a program to turn that file into another.
    Tool,
    /// The other file.
    Remux,
    /// Nothing: the download is over.
    Over,
}

/// A download under way.
pub struct Run {
    /// The download as it was at its start.
    pub task: DownloadTask,
    pub headers: Vec<HeaderPair>,
    pub save_dir: String,
    pub part_threads: usize,
    /// Whether file names follow the rules of Windows.
    pub windows: bool,
    pub phase: Phase,
    /// The address of the playlist waited for.
    pub playlist_url: String,
    /// The addresses of the segments, once they are known, and how they are encrypted.
    pub segments: Vec<String>,
    pub ciphers: Vec<HlsCipher>,
    /// Which of the segments have come.
    pub plan: Vec<SegmentPart>,
    /// The path of the file that the segments were put together in.
    pub merged: String,
}

#[verifier::ext_equal]
pub struct RunView {
    pub task: DownloadTaskView,
    pub headers: Seq<HeaderPairView>,
    pub save_dir: Seq<char>,
    pub part_threads: usize,
    pub windows: bool,
    pub phase: Phase,
    pub playlist_url: Seq<char>,
    pub segments: Seq<Seq<char>>,
    pub ciphers: Seq<HlsCipherView>,
    pub plan: Seq<SegmentPart>,
    pub merged: Seq<char>,
}

impl View for Run {
    type V = RunView;

    open spec fn view(&self) -> RunView {
        RunView {
            task: self.task@,
            headers: each(self.headers@),
            save_dir: self.save_dir@,
            part_threads: self.part_threads,
            windows: self.windows,
            phase: self.phase,
            playlist_url: self.playlist_url@,
            segments: each(self.segments@),
            ciphers: each(self.ciphers@),
            plan: self.plan@,
            merged: self.merged@,
        }
    }
}

/// What a segment is decrypted with.
#[derive(Debug)]
pub struct Secret {
    pub key: Vec<u8>,
    pub iv: u128,
}

#[verifier::ext_equal]
pub struct SecretView {
    pub key: Seq<u8>,
    pub iv: u128,
}

impl View for Secret {
    type V = SecretView;

    open spec fn view(&self) -> SecretView {
        SecretView { key: self.key@, iv: self.iv }
    }
}

/// A segment that is to be fetched: its position, its address, and what it is decrypted
/// with if it is encrypted.
#[derive(Debug)]
pub struct SegmentJob {
    pub index: usize,
    pub url: String,
    pub secret: Option<Secret>,
}

#[verifier::ext_equal]
pub struct SegmentJobView {
    pub index: usize,
    pub url: Seq<char>,
    pub secret: Option<SecretView>,
}

impl View for SegmentJob {
    type V = SegmentJobView;

    open spec fn view(&self) -> SegmentJobView {
        SegmentJobView { index: self.index, url: self.url@, secret: maybe(self.secret) }
    }
}

/// What has happened.
pub enum Event {
    /// What was asked for is done.
    Done,
    /// The server has said what it knows of a file: the texts of its `Content-Length` and
    /// `Accept-Ranges` headers. Also the record that an earlier start has left, and the
    /// length of the file as it is on disk.
    Head {
        content_length: Option<String>,
        accept_ranges: Option<String>,
        record: Option<String>,
        existing: Option<u64>,
    },
    /// The text of a playlist has come.
    Text(String),
    /// The directory for the segments is there. Also the record that an earlier start has
    /// left, and the sizes of the segments' files on disk.
    Parts { record: Option<String>, sizes: Vec<Option<u64>> },
    /// The keys have come.
    Keys(Vec<Vec<u8>>),
    /// The file is saved at the given path.
    Written(String),
    /// There is a program of the given name to turn a TS file into an MP4 file.
    ToolFound(String),
    /// There is none.
    NoTool,
    /// The program has failed.
    RemuxFailed(String),
    /// Something went wrong.
    Failed(String),
    /// The user has stopped the download.
    Interrupted,
}

#[verifier::ext_equal]
pub enum EventView {
    Done,
    Head {
        content_length: Option<Seq<char>>,
        accept_ranges: Option<Seq<char>>,
        record: Option<Seq<char>>,
        existing: Option<u64>,
    },
    Text(Seq<char>),
    Parts { record: Option<Seq<char>>, sizes: Seq<Option<u64>> },
    Keys(Seq<Seq<u8>>),
    Written(Seq<char>),
    ToolFound(Seq<char>),
    NoTool,
    RemuxFailed(Seq<char>),
    Failed(Seq<char>),
    Interrupted,
}

impl View for Event {
    type V = EventView;

    open spec fn view(&self) -> EventView {
        match self {
            Event::Done => EventView::Done,
            Event::Head { content_length, accept_ranges, record, existing } => EventView::Head {
                content_length: maybe(*content_length),
                accept_ranges: maybe(*accept_ranges),
                record: maybe(*record),
                existing: *existing,
            },
            Event::Text(text) => EventView::Text(text@),
            Event::Parts { record, sizes } => EventView::Parts {
                record: maybe(*record),
                sizes: sizes@,
            },
            Event::Keys(keys) => EventView::Keys(each(keys@)),
            Event::Written(path) => EventView::Written(path@),
            Event::ToolFound(program) => EventView::ToolFound(program@),
            Event::NoTool => EventView::NoTool,
            Event::RemuxFailed(reason) => EventView::RemuxFailed(reason@),
            Event::Failed(reason) => EventView::Failed(reason@),
            Event::Interrupted => EventView::Interrupted,
        }
    }
}

/// What is to be done next.
pub enum Action {
    /// Create the directory to save in.
    CreateDirectory { path: String },
    /// Ask the server what it knows of a file, and look at what an earlier start has left:
    /// the record in the directory, and the file.
    RequestHead { url: String, file_name: String, directory: String },
    /// Fetch a file as a whole.
    FetchWhole { url: String, file_name: String },
    /// Fetch ranges of a file of so many bytes, so many at a time; keep what the file
    /// holds of the others. Keep the record in the directory, with each range noted that
    /// has come, and remove it when all have.
    FetchRanges {
        url: String,
        file_name: String,
        directory: String,
        total: u64,
        ranges: Vec<RangeJob>,
        threads: usize,
        record: Record,
    },
    /// Fetch the text of a playlist.
    FetchPlaylist { url: String },
    /// Create the directory for the segments, and look at what it holds of the files.
    CreateParts { directory: String, parts: Vec<String> },
    /// Fetch the keys, in this order.
    FetchKeys { urls: Vec<String> },
    /// Fetch segments, so many at a time, and decrypt those that are encrypted. Keep the
    /// record in the directory, with each segment noted that has come.
    FetchSegments {
        jobs: Vec<SegmentJob>,
        count: usize,
        directory: String,
        threads: usize,
        record: Record,
    },
    /// Put the segments together in one file, and remove their directory.
    MergeParts { parts: Vec<String>, directory: String, file_name: String },
    /// Look for the program that turns a TS file into an MP4 file.
    FindTool,
    /// Turn a TS file into an MP4 file, and remove it.
    Remux { program: String, source: String, file_name: String },
    /// Nothing.
    Stop,
}

#[verifier::ext_equal]
pub enum ActionView {
    CreateDirectory { path: Seq<char> },
    RequestHead { url: Seq<char>, file_name: Seq<char>, directory: Seq<char> },
    FetchWhole { url: Seq<char>, file_name: Seq<char> },
    FetchRanges {
        url: Seq<char>,
        file_name: Seq<char>,
        directory: Seq<char>,
        total: u64,
        ranges: Seq<RangeJob>,
        threads: usize,
        record: RecordView,
    },
    FetchPlaylist { url: Seq<char> },
    CreateParts { directory: Seq<char>, parts: Seq<Seq<char>> },
    FetchKeys { urls: Seq<Seq<char>> },
    FetchSegments {
        jobs: Seq<SegmentJobView>,
        count: usize,
        directory: Seq<char>,
        threads: usize,
        record: RecordView,
    },
    MergeParts { parts: Seq<Seq<char>>, directory: Seq<char>, file_name: Seq<char> },
    FindTool,
    Remux { program: Seq<char>, source: Seq<char>, file_name: Seq<char> },
    Stop,
}

impl View for Action {
    type V = ActionView;

    open spec fn view(&self) -> ActionView {
        match self {
            Action::CreateDirectory { path } => ActionView::CreateDirectory { path: path@ },
            Action::RequestHead { url, file_name, directory } => ActionView::RequestHead {
                url: url@,
                file_name: file_name@,
                directory: directory@,
            },
            Action::FetchWhole { url, file_name } => ActionView::FetchWhole {
                url: url@,
                file_name: file_name@,
            },
            Action::FetchRanges { url, file_name, directory, total, ranges, threads, record } => {
                ActionView::FetchRanges {
                    url: url@,
                    file_name: file_name@,
                    directory: directory@,
                    total: *total,
                    ranges: ranges@,
                    threads: *threads,
                    record: record@,
                }
            },
            Action::FetchPlaylist { url } => ActionView::FetchPlaylist { url: url@ },
            Action::CreateParts { directory, parts } => ActionView::CreateParts {
                directory: directory@,
                parts: each(parts@),
            },
            Action::FetchKeys { urls } => ActionView::FetchKeys { urls: each(urls@) },
            Action::FetchSegments { jobs, count, directory, threads, record } => {
                ActionView::FetchSegments {
                    jobs: each(jobs@),
                    count: *count,
                    directory: directory@,
                    threads: *threads,
                    record: record@,
                }
            },
            Action::MergeParts { parts, directory, file_name } => ActionView::MergeParts {
                parts: each(parts@),
                directory: directory@,
                file_name: file_name@,
            },
            Action::FindTool => ActionView::FindTool,
            Action::Remux { program, source, file_name } => ActionView::Remux {
                program: program@,
                source: source@,
                file_name: file_name@,
            },
            Action::Stop => ActionView::Stop,
        }
    }
}

/// A download under way, the state, and what is to be done next.
#[verifier::ext_equal]
pub struct Step {
    pub run: RunView,
    pub app: AppStateView,
    pub action: ActionView,
}

/// The start of the download of a task: HLS media is read from its playlist, DASH media
/// cannot be downloaded, and other media is fetched from its address.
pub open spec fn begun(
    app: AppStateView,
    task: DownloadTaskView,
    headers: Seq<HeaderPairView>,
    windows: bool,
) -> Step {
    let run = RunView {
        task,
        headers,
        save_dir: app.settings.save_dir,
        part_threads: app.settings.part_threads,
        windows,
        phase: Phase::Directory,
        playlist_url: task.url,
        segments: Seq::empty(),
        ciphers: Seq::empty(),
        plan: Seq::empty(),
        merged: Seq::empty(),
    };
    match task.media_type {
        MediaType::Dash => Step {
            run: RunView { phase: Phase::Over, ..run },
            app: with_task(
                app,
                task.id,
                standing(
                    DownloadStatus::Unsupported,
                    "DASH 下载将在下一步加入解析与音视频合并"@,
                ),
            ),
            action: ActionView::Stop,
        },
        MediaType::Hls => Step {
            run,
            app: with_task(
                app,
                task.id,
                standing(DownloadStatus::Downloading, "正在解析 HLS 播放列表"@),
            ),
            action: ActionView::CreateDirectory { path: run.save_dir },
        },
        _ => Step {
            run,
            app: with_task(
                app,
                task.id,
                standing(DownloadStatus::Downloading, "正在连接服务器"@),
            ),
            action: ActionView::CreateDirectory { path: run.save_dir },
        },
    }
}

/// The download over, without another change.
pub open spec fn over(run: RunView) -> RunView {
    RunView { phase: Phase::Over, ..run }
}

/// The download over because something went wrong.
pub open spec fn failed(run: RunView, app: AppStateView, reason: Seq<char>) -> Step {
    Step {
        run: over(run),
        app: with_task(app, run.task.id, standing(DownloadStatus::Failed, reason)),
        action: ActionView::Stop,
    }
}

/// The size above which a file is fetched in ranges.
pub const RANGED_ABOVE: u64 = 1048576;

/// Whether the server says that it serves ranges of bytes.
pub open spec fn serves_ranges(accept_ranges: Option<Seq<char>>) -> bool {
    accept_ranges is Some && lower(accept_ranges->0) == lower("bytes"@)
}

/// The length that a `Content-Length` header states.
pub open spec fn stated_length(content_length: Option<Seq<char>>) -> Option<u64> {
    match content_length {
        Some(text) => unsigned(text),
        None => None,
    }
}

/// The record that a text is, if there is one.
pub open spec fn opened_record(text: Option<Seq<char>>) -> Option<RecordView> {
    match text {
        Some(text) => match json_of_text(text) {
            Some(json) => record_of(json),
            None => None,
        },
        None => None,
    }
}

/// The name of the directory that the parts of a download and their record are kept in.
pub open spec fn parts_directory(run: RunView) -> Seq<char> {
    uuid_text(run.task.id)
}

/// A download of which the server has said the length.
pub open spec fn measured(total: Option<u64>, message: Seq<char>) -> spec_fn(
    DownloadTaskView,
) -> DownloadTaskView {
    |task: DownloadTaskView| DownloadTaskView { total_bytes: total, message, ..task }
}

/// A download in ranges of which so many bytes have come before.
pub open spec fn taken_up_at(total: u64, done: u64, message: Seq<char>) -> spec_fn(
    DownloadTaskView,
) -> DownloadTaskView {
    |task: DownloadTaskView|
        DownloadTaskView {
            total_bytes: Some(total),
            downloaded_bytes: done,
            progress: progress_of(done as nat, total as nat),
            message,
            ..task
        }
}

/// Whether a file is fetched in ranges: the server serves them, more than one at a time is
/// allowed and the file is large.
pub open spec fn in_ranges(run: RunView, total: Option<u64>, ranged: bool) -> bool {
    total is Some && ranged && run.part_threads > 1 && total->0 > RANGED_ABOVE
}

/// The ranges of a file, with those noted that have come: as recorded at an earlier start,
/// if the record is of this file and the file is still there; else cut anew.
pub open spec fn ranges_planned(
    run: RunView,
    total: u64,
    record: Option<RecordView>,
    existing: Option<u64>,
) -> Seq<RangePart> {
    match record {
        Some(record) if !record.segmented && record.total_bytes == total && existing == Some(total)
            && is_plan(record.ranges, total) => record.ranges,
        _ => fresh_ranges(
            ranges_of(total as nat, part_size(total as nat, run.part_threads as nat)),
        ),
    }
}

/// The record of a download in ranges.
pub open spec fn ranges_record(run: RunView, total: u64, ranges: Seq<RangePart>) -> RecordView {
    RecordView {
        title: run.task.title,
        url: run.task.url,
        media_type: run.task.media_type,
        media_id: run.task.media_id,
        headers: run.headers,
        segmented: false,
        total_bytes: total,
        segments: Seq::empty(),
        ranges,
    }
}

/// The record of a download in segments.
pub open spec fn segments_record(run: RunView, segments: Seq<SegmentPart>) -> RecordView {
    RecordView {
        title: run.task.title,
        url: run.task.url,
        media_type: run.task.media_type,
        media_id: run.task.media_id,
        headers: run.headers,
        segmented: true,
        total_bytes: 0,
        segments,
        ranges: Seq::empty(),
    }
}

/// The download after the server has said what it knows of the file, and what an earlier
/// start has left is known: only the ranges that have not come are fetched.
pub open spec fn measured_step(
    run: RunView,
    app: AppStateView,
    content_length: Option<Seq<char>>,
    accept_ranges: Option<Seq<char>>,
    record: Option<RecordView>,
    existing: Option<u64>,
) -> Step {
    let total = stated_length(content_length);
    let ranged = serves_ranges(accept_ranges);
    let message = if ranged {
        "服务器支持分片下载，线程数 "@ + decimal(run.part_threads as nat)
    } else {
        "服务器不支持分片，使用单线程下载"@
    };
    let name = file_name(run.task, run.windows);
    let next = RunView { phase: Phase::Transfer, ..run };
    if in_ranges(run, total, ranged) {
        let total = total->0;
        let plan = ranges_planned(run, total, record, existing);
        Step {
            run: next,
            app: with_task(
                app,
                run.task.id,
                taken_up_at(total, bytes_done(plan) as u64, message),
            ),
            action: ActionView::FetchRanges {
                url: run.task.url,
                file_name: name,
                directory: parts_directory(run),
                total,
                ranges: pending_ranges(plan),
                threads: run.part_threads,
                record: ranges_record(run, total, plan),
            },
        }
    } else {
        Step {
            run: next,
            app: with_task(app, run.task.id, measured(total, message)),
            action: ActionView::FetchWhole { url: run.task.url, file_name: name },
        }
    }
}

/// The download over because all is done, its file saved at a path.
pub open spec fn completed(
    run: RunView,
    app: AppStateView,
    message: Seq<char>,
    path: Seq<char>,
) -> Step {
    Step {
        run: over(run),
        app: with_task(app, run.task.id, finished(message, path)),
        action: ActionView::Stop,
    }
}

/// The quality that is taken from a master playlist.
pub open spec fn taken(variants: Seq<HlsVariantView>) -> HlsVariantView {
    let list = ranked(variants);
    list[choose|at: int| is_highest(list, at)]
}

/// The names of the files that hold so many segments, in order.
pub open spec fn part_names(count: nat) -> Seq<Seq<char>> {
    Seq::new(count, |i: int| part_name(i as nat))
}

/// The download after the playlist with its segments was read: what is encrypted for a
/// digital rights system, or in an unknown way, cannot be downloaded.
pub open spec fn listed(run: RunView, app: AppStateView, playlist: HlsPlaylistView) -> Step {
    if has_refused(playlist.ciphers) {
        failed(run, app, "当前版本检测到加密 HLS，暂未处理 EXT-X-KEY 解密"@)
    } else if playlist.segments.len() == 0 {
        failed(run, app, "HLS 播放列表中没有可下载分片"@)
    } else {
        Step {
            run: RunView {
                phase: Phase::Parts,
                segments: playlist.segments,
                ciphers: playlist.ciphers,
                ..run
            },
            app,
            action: ActionView::CreateParts {
                directory: parts_directory(run),
                parts: part_names(playlist.segments.len()),
            },
        }
    }
}

/// The download after the first playlist was read: a master playlist leads to that of
/// its highest quality.
pub open spec fn opened(run: RunView, app: AppStateView, playlist: HlsPlaylistView) -> Step {
    if playlist.variants.len() > 0 {
        let variant = taken(playlist.variants);
        Step {
            run: RunView { phase: Phase::Quality, playlist_url: variant.url, ..run },
            app: with_task(
                app,
                run.task.id,
                saying("自动选择清晰度 "@ + variant_label(variant)),
            ),
            action: ActionView::FetchPlaylist { url: variant.url },
        }
    } else {
        listed(run, app, playlist)
    }
}

/// How many segments are fetched at a time: at least one.
pub open spec fn segment_threads(run: RunView) -> usize {
    if run.part_threads == 0 {
        1
    } else {
        run.part_threads
    }
}

/// The segments of a playlist, with those noted that have come: as recorded at an earlier
/// start and borne out by the files on disk, if the record is of as many segments.
pub open spec fn segments_planned(
    run: RunView,
    record: Option<RecordView>,
    sizes: Seq<Option<u64>>,
) -> Seq<SegmentPart> {
    match record {
        Some(record) if record.segmented && record.segments.len() == run.segments.len() => {
            confirmed(record.segments, sizes)
        },
        _ => fresh_segments(run.segments.len()),
    }
}

/// A download whose segments are about to be fetched, but for those that have come before.
pub open spec fn segmented(plan: Seq<SegmentPart>, message: Seq<char>) -> spec_fn(
    DownloadTaskView,
) -> DownloadTaskView {
    |task: DownloadTaskView|
        DownloadTaskView {
            completed_segments: segments_done(plan) as usize,
            downloaded_bytes: segment_bytes_done(plan) as u64,
            progress: progress_of(segments_done(plan), plan.len()),
            total_bytes: None,
            message,
            ..task
        }
}

/// How the segment at a position is encrypted.
pub open spec fn cipher_at(ciphers: Seq<HlsCipherView>, index: int) -> HlsCipherView {
    if 0 <= index < ciphers.len() {
        ciphers[index]
    } else {
        HlsCipherView::Plain
    }
}

/// What a segment is decrypted with, given the keys and their addresses.
pub open spec fn secret_of(
    cipher: HlsCipherView,
    urls: Seq<Seq<char>>,
    keys: Seq<Seq<u8>>,
) -> Option<SecretView> {
    match cipher {
        HlsCipherView::Aes { url, iv } => {
            let at = position_in(urls, url);
            Some(
                SecretView {
                    key: if at < keys.len() {
                        keys[at]
                    } else {
                        Seq::empty()
                    },
                    iv,
                },
            )
        },
        _ => None,
    }
}

/// The fetching of the segment at a position.
pub open spec fn job_at(run: RunView, index: usize, keys: Seq<Seq<u8>>) -> SegmentJobView {
    SegmentJobView {
        index,
        url: if index < run.segments.len() {
            run.segments[index as int]
        } else {
            Seq::empty()
        },
        secret: secret_of(cipher_at(run.ciphers, index as int), key_urls(run.ciphers), keys),
    }
}

/// The fetching of the segments that have not come, in their order.
pub open spec fn jobs_of(run: RunView, keys: Seq<Seq<u8>>) -> Seq<SegmentJobView> {
    let pending = pending_segments(run.plan);
    Seq::new(pending.len(), |i: int| job_at(run, pending[i], keys))
}

/// The download once the keys are there: the segments that have not come are fetched.
pub open spec fn fetching(run: RunView, app: AppStateView, keys: Seq<Seq<u8>>) -> Step {
    Step {
        run: RunView { phase: Phase::Segments, ..run },
        app: with_task(
            app,
            run.task.id,
            segmented(
                run.plan,
                "开始下载 "@ + decimal(run.segments.len()) + " 个 HLS 分片，线程数 "@ + decimal(
                    segment_threads(run) as nat,
                ),
            ),
        ),
        action: ActionView::FetchSegments {
            jobs: jobs_of(run, keys),
            count: run.segments.len() as usize,
            directory: parts_directory(run),
            threads: segment_threads(run),
            record: segments_record(run, run.plan),
        },
    }
}

/// The download after the directory for its segments was made, and what an earlier start
/// has left is known.
pub open spec fn prepared(
    run: RunView,
    app: AppStateView,
    record: Option<RecordView>,
    sizes: Seq<Option<u64>>,
) -> Step {
    let next = RunView { plan: segments_planned(run, record, sizes), ..run };
    let urls = key_urls(run.ciphers);
    if urls.len() == 0 {
        fetching(next, app, Seq::empty())
    } else {
        Step {
            run: RunView { phase: Phase::Keys, ..next },
            app,
            action: ActionView::FetchKeys { urls },
        }
    }
}

/// Whether keys are those asked for: as many, each of the right length.
pub open spec fn are_keys(keys: Seq<Seq<u8>>, count: nat) -> bool {
    &&& keys.len() == count
    &&& forall|i: int| 0 <= i < keys.len() ==> (#[trigger] keys[i]).len() == BLOCK
}

/// The download after its keys have come.
pub open spec fn unlocked(run: RunView, app: AppStateView, keys: Seq<Seq<u8>>) -> Step {
    if are_keys(keys, key_urls(run.ciphers).len()) {
        fetching(run, app, keys)
    } else {
        failed(run, app, "HLS 密钥无效"@)
    }
}

/// The download after its segments have come.
pub open spec fn merging(run: RunView, app: AppStateView) -> Step {
    Step {
        run: RunView { phase: Phase::Merge, ..run },
        app: with_task(app, run.task.id, saying("正在合并 HLS 分片"@)),
        action: ActionView::MergeParts {
            parts: part_names(run.segments.len()),
            directory: parts_directory(run),
            file_name: file_name(run.task, run.windows),
        },
    }
}

/// The download after its segments were put together in the file at a path.
pub open spec fn looking(run: RunView, app: AppStateView, path: Seq<char>) -> Step {
    Step {
        run: RunView { phase: Phase::Tool, merged: path, ..run },
        app,
        action: ActionView::FindTool,
    }
}

/// The download after the program was found that turns its TS file into an MP4 file.
pub open spec fn remuxing(run: RunView, app: AppStateView, program: Seq<char>) -> Step {
    Step {
        run: RunView { phase: Phase::Remux, ..run },
        app: with_task(app, run.task.id, saying("正在转封装为 MP4"@)),
        action: ActionView::Remux {
            program,
            source: run.merged,
            file_name: remuxed_name(file_name(run.task, run.windows)),
        },
    }
}

/// What is said of a download in segments that is done.
pub open spec fn merged_at(path: Seq<char>) -> Seq<char> {
    "HLS 合并完成: "@ + path
}

/// The download unchanged, with nothing to be done.
pub open spec fn idle(run: RunView, app: AppStateView) -> Step {
    Step { run, app, action: ActionView::Stop }
}

/// The download after something happened that leads to its file.
pub open spec fn file_step(run: RunView, app: AppStateView, event: EventView) -> Step {
    match (run.phase, event) {
        (Phase::Directory, EventView::Done) => if run.task.media_type == MediaType::Hls {
            Step {
                run: RunView { phase: Phase::Playlist, ..run },
                app,
                action: ActionView::FetchPlaylist { url: run.playlist_url },
            }
        } else {
            Step {
                run: RunView { phase: Phase::Head, ..run },
                app,
                action: ActionView::RequestHead {
                    url: run.task.url,
                    file_name: file_name(run.task, run.windows),
                    directory: parts_directory(run),
                },
            }
        },
        (Phase::Head, EventView::Head { content_length, accept_ranges, record, existing }) => {
            measured_step(
                run,
                app,
                content_length,
                accept_ranges,
                opened_record(record),
                existing,
            )
        },
        (Phase::Transfer, EventView::Written(path)) => completed(run, app, "下载完成"@, path),
        _ => idle(run, app),
    }
}

/// The download after something happened that leads to its segments.
pub open spec fn playlist_step(run: RunView, app: AppStateView, event: EventView) -> Step {
    match (run.phase, event) {
        (Phase::Playlist, EventView::Text(text)) => match playlist_of(run.playlist_url, text) {
            Ok(playlist) => opened(run, app, playlist),
            Err(err) => failed(run, app, error_text(err)),
        },
        (Phase::Quality, EventView::Text(text)) => match playlist_of(run.playlist_url, text) {
            Ok(playlist) => listed(run, app, playlist),
            Err(err) => failed(run, app, error_text(err)),
        },
        (Phase::Parts, EventView::Parts { record, sizes }) => prepared(
            run,
            app,
            opened_record(record),
            sizes,
        ),
        (Phase::Keys, EventView::Keys(keys)) => unlocked(run, app, keys),
        _ => idle(run, app),
    }
}

/// The download after something happened that leads from its segments to its file.
pub open spec fn closing_step(run: RunView, app: AppStateView, event: EventView) -> Step {
    match (run.phase, event) {
        (Phase::Segments, EventView::Done) => merging(run, app),
        (Phase::Merge, EventView::Written(path)) => looking(run, app, path),
        (Phase::Tool, EventView::ToolFound(program)) => remuxing(run, app, program),
        (Phase::Tool, EventView::NoTool) => completed(
            run,
            app,
            merged_at(run.merged),
            run.merged,
        ),
        (Phase::Remux, EventView::Written(path)) => completed(run, app, merged_at(path), path),
        (Phase::Remux, EventView::RemuxFailed(reason)) => completed(
            run,
            app,
            merged_at(run.merged) + "，MP4 转封装失败: "@ + reason,
            run.merged,
        ),
        _ => idle(run, app),
    }
}

/// The download after something happened; what it does not wait for changes nothing.
pub open spec fn advanced(run: RunView, app: AppStateView, event: EventView) -> Step {
    if run.phase == Phase::Over {
        idle(run, app)
    } else {
        match event {
            EventView::Failed(reason) => failed(run, app, reason),
            EventView::Interrupted => idle(over(run), app),
            _ => match run.phase {
                Phase::Directory | Phase::Head | Phase::Transfer => file_step(run, app, event),
                Phase::Playlist | Phase::Quality | Phase::Parts | Phase::Keys => playlist_step(
                    run,
                    app,
                    event,
                ),
                _ => closing_step(run, app, event),
            },
        }
    }
}

fn read_text(text: &Option<String>) -> (r: Option<Record>)
    ensures
        maybe(r) == opened_record(maybe(*text)),
{
    match text {
        Some(text) => read_record(text.as_str()),
        None => None,
    }
}

proof fn lemma_fresh_bytes(ranges: Seq<(u64, u64)>)
    ensures
        bytes_done(fresh_ranges(ranges)) == 0,
    decreases ranges.len(),
{
    if ranges.len() > 0 {
        lemma_fresh_bytes(ranges.drop_last());
        assert(fresh_ranges(ranges).drop_last() =~= fresh_ranges(ranges.drop_last()));
    }
}

impl Run {
    /// Starts the download with the given identity, if there is one; its requests carry the
    /// given headers.
    pub fn begin(app: &mut AppState, id: u128, headers: Vec<HeaderPair>, windows: bool) -> (r:
        Option<(Run, Action)>)
        ensures
            ({
                let at = first_where(old(app)@.tasks, is_task(id));
                match r {
                    Some((run, action)) => {
                        &&& at < old(app)@.tasks.len()
                        &&& (Step { run: run@, app: final(app)@, action: action@ }) == begun(
                            old(app)@,
                            old(app)@.tasks[at],
                            each(headers@),
                            windows,
                        )
                    },
                    None => at == old(app)@.tasks.len() && final(app)@ == old(app)@,
                }
            }),
    {
        let at = find_task(&app.tasks, id);
        if at == app.tasks.len() {
            return None;
        }
        proof {
            lemma_first_where(app@.tasks, is_task(id));
        }
        let task = app.tasks[at].clone();
        let media_type = task.media_type;
        let save_dir = app.settings.save_dir.clone();
        let path = app.settings.save_dir.clone();
        let part_threads: usize = app.settings.part_threads;
        let playlist_url = task.url.clone();
        let mut run = Run {
            task,
            headers,
            save_dir,
            part_threads,
            windows,
            phase: Phase::Directory,
            playlist_url,
            segments: Vec::new(),
            ciphers: Vec::new(),
            plan: Vec::new(),
            merged: String::new(),
        };
        proof {
            assert(run@.segments =~= Seq::<Seq<char>>::empty());
            assert(run@.ciphers =~= Seq::<HlsCipherView>::empty());
        }
        match media_type {
            MediaType::Dash => {
                run.phase = Phase::Over;
                set_status(
                    app,
                    id,
                    DownloadStatus::Unsupported,
                    "DASH 下载将在下一步加入解析与音视频合并".to_string(),
                );
                Some((run, Action::Stop))
            },
            MediaType::Hls => {
                set_status(
                    app,
                    id,
                    DownloadStatus::Downloading,
                    "正在解析 HLS 播放列表".to_string(),
                );
                Some((run, Action::CreateDirectory { path }))
            },
            _ => {
                set_status(app, id, DownloadStatus::Downloading, "正在连接服务器".to_string());
                Some((run, Action::CreateDirectory { path }))
            },
        }
    }

    fn fail(&mut self, app: &mut AppState, reason: String) -> (action: Action)
        ensures
            (Step { run: final(self)@, app: final(app)@, action: action@ }) == failed(
                old(self)@,
                old(app)@,
                reason@,
            ),
    {
        mark_failed(app, self.task.id, reason);
        self.phase = Phase::Over;
        Action::Stop
    }

    fn plan_file(&self, total: u64, record: Option<Record>, existing: Option<u64>) -> (r: (
        Vec<RangePart>,
        u64,
    ))
        requires
            self.part_threads > 0,
        ensures
            r.0@ == ranges_planned(self@, total, maybe(record), existing),
            r.1 == bytes_done(r.0@) as u64,
    {
        if let Some(record) = record {
            if !record.segmented && record.total_bytes == total && existing == Some(total)
                && makes_up(&record.ranges, total) {
                let done = bytes_come(&record.ranges, total);
                return (record.ranges, done);
            }
        }
        let ranges = split_ranges(total, self.part_threads);
        proof {
            lemma_fresh_bytes(ranges@);
        }
        (plan_ranges(&ranges), 0)
    }

    /// Goes on after the server has said what it knows of the file, and what an earlier
    /// start has left is known.
    pub fn measure(
        &mut self,
        app: &mut AppState,
        content_length: Option<String>,
        accept_ranges: Option<String>,
        record: Option<Record>,
        existing: Option<u64>,
    ) -> (action: Action)
        ensures
            (Step { run: final(self)@, app: final(app)@, action: action@ }) == measured_step(
                old(self)@,
                old(app)@,
                maybe(content_length),
                maybe(accept_ranges),
                maybe(record),
                existing,
            ),
    {
        let total = match &content_length {
            Some(text) => parse_unsigned(text.as_str()),
            None => None,
        };
        let ranged = match &accept_ranges {
            Some(text) => same_text_ignoring_case(text.as_str(), "bytes"),
            None => false,
        };
        let message = if ranged {
            let mut text = "服务器支持分片下载，线程数 ".to_string();
            text.append(number(self.part_threads as u64).as_str());
            text
        } else {
            "服务器不支持分片，使用单线程下载".to_string()
        };
        let url = self.task.url.clone();
        let file_name = output_filename(&self.task, self.windows);
        let at = find_task(&app.tasks, self.task.id);
        match total {
            Some(total) if ranged && self.part_threads > 1 && total > RANGED_ABOVE => {
                let (plan, done) = self.plan_file(total, record, existing);
                if at < app.tasks.len() {
                    app.tasks[at].total_bytes = Some(total);
                    app.tasks[at].downloaded_bytes = done;
                    app.tasks[at].progress = Progress::of(done, total);
                    app.tasks[at].message = message;
                }
                proof {
                    assert(app@.tasks =~= with_task(
                        old(app)@,
                        self.task.id,
                        taken_up_at(total, done, message@),
                    ).tasks);
                }
                self.phase = Phase::Transfer;
                let ranges = ranges_to_fetch(&plan);
                let record = Record {
                    title: self.task.title.clone(),
                    url: self.task.url.clone(),
                    media_type: self.task.media_type,
                    media_id: self.task.media_id,
                    headers: copy_headers(&self.headers),
                    segmented: false,
                    total_bytes: total,
                    segments: Vec::new(),
                    ranges: plan,
                };
                Action::FetchRanges {
                    url,
                    file_name,
                    directory: write_uuid(self.task.id),
                    total,
                    ranges,
                    threads: self.part_threads,
                    record,
                }
            },
            _ => {
                if at < app.tasks.len() {
                    app.tasks[at].total_bytes = total;
                    app.tasks[at].message = message;
                }
                proof {
                    assert(app@.tasks =~= with_task(
                        old(app)@,
                        self.task.id,
                        measured(total, message@),
                    ).tasks);
                }
                self.phase = Phase::Transfer;
                Action::FetchWhole { url, file_name }
            },
        }
    }

    /// Goes on after the playlist with the segments was read.
    pub fn take_segments(&mut self, app: &mut AppState, playlist: HlsPlaylist) -> (action: Action)
        ensures
            (Step { run: final(self)@, app: final(app)@, action: action@ }) == listed(
                old(self)@,
                old(app)@,
                playlist@,
            ),
    {
        if any_refused(&playlist.ciphers) {
            return self.fail(
                app,
                "当前版本检测到加密 HLS，暂未处理 EXT-X-KEY 解密".to_string(),
            );
        }
        if playlist.segments.len() == 0 {
            return self.fail(app, "HLS 播放列表中没有可下载分片".to_string());
        }
        let parts = part_file_names(playlist.segments.len());
        self.segments = playlist.segments;
        self.ciphers = playlist.ciphers;
        self.phase = Phase::Parts;
        Action::CreateParts { directory: write_uuid(self.task.id), parts }
    }

    /// Goes on after the first playlist was read.
    pub fn open_playlist(&mut self, app: &mut AppState, playlist: HlsPlaylist) -> (action: Action)
        ensures
            (Step { run: final(self)@, app: final(app)@, action: action@ }) == opened(
                old(self)@,
                old(app)@,
                playlist@,
            ),
    {
        if !playlist.is_master() {
            return self.take_segments(app, playlist);
        }
        let mut variants = playlist.variants;
        let ghost offered = each(variants@);
        sort_variants_highest_first(variants.as_mut_slice());
        let ghost list = each(variants@);
        proof {
            lemma_ranked_len(offered);
        }
        match choose_highest_variant(variants.as_slice()) {
            Ok(variant) => {
                proof {
                    let at = choose|at: int|
                        is_highest(list, at) && *variant == #[trigger] variants@[at];
                    let picked = choose|at: int| is_highest(list, at);
                    law_highest_is_one(list, at, picked);
                    assert(variant@ == taken(offered));
                }
                let mut message = "自动选择清晰度 ".to_string();
                message.append(variant.label().as_str());
                set_message(app, self.task.id, message);
                self.playlist_url = variant.url.clone();
                self.phase = Phase::Quality;
                Action::FetchPlaylist { url: variant.url.clone() }
            },
            Err(err) => self.fail(app, err.message()),
        }
    }

    fn secret_at(&self, index: usize, urls: &Vec<String>, keys: &Vec<Vec<u8>>) -> (r: Option<Secret>)
        ensures
            maybe(r) == secret_of(
                cipher_at(self@.ciphers, index as int),
                each(urls@),
                each(keys@),
            ),
    {
        if index >= self.ciphers.len() {
            return None;
        }
        assert(self@.ciphers[index as int] == self.ciphers@[index as int]@);
        match &self.ciphers[index] {
            HlsCipher::Aes { url, iv } => {
                let at = find_text(urls, url.as_str());
                let key: Vec<u8> = if at < keys.len() {
                    assert(each(keys@)[at as int] == keys@[at as int]@);
                    copy_list(&keys[at])
                } else {
                    Vec::new()
                };
                proof {
                    if at >= keys.len() {
                        assert(key@ =~= Seq::<u8>::empty());
                    }
                }
                Some(Secret { key, iv: *iv })
            },
            _ => None,
        }
    }

    fn jobs(&self, pending: &Vec<usize>, keys: &Vec<Vec<u8>>) -> (r: Vec<SegmentJob>)
        requires
            pending@ == pending_segments(self.plan@),
        ensures
            each(r@) == jobs_of(self@, each(keys@)),
    {
        let urls = keys_to_fetch(&self.ciphers);
        let mut jobs: Vec<SegmentJob> = Vec::new();
        let mut i: usize = 0;
        while i < pending.len()
            invariant
                i <= pending.len(),
                pending@ == pending_segments(self.plan@),
                each(urls@) == key_urls(self@.ciphers),
                each(jobs@) == jobs_of(self@, each(keys@)).take(i as int),
            decreases pending.len() - i,
        {
            let index = pending[i];
            let url = if index < self.segments.len() {
                assert(self@.segments[index as int] == self.segments@[index as int]@);
                self.segments[index].clone()
            } else {
                String::new()
            };
            let secret = self.secret_at(index, &urls, keys);
            let job = SegmentJob { index, url, secret };
            let ghost was = each(jobs@);
            jobs.push(job);
            proof {
                assert(job@ =~= job_at(self@, index, each(keys@)));
                assert(each(jobs@) =~= was.push(job@));
                assert(each(jobs@) =~= jobs_of(self@, each(keys@)).take(i + 1));
            }
            i = i + 1;
        }
        proof {
            assert(each(jobs@) =~= jobs_of(self@, each(keys@)));
        }
        jobs
    }

    fn fetch_segments(&mut self, app: &mut AppState, keys: &Vec<Vec<u8>>) -> (action: Action)
        ensures
            (Step { run: final(self)@, app: final(app)@, action: action@ }) == fetching(
                old(self)@,
                old(app)@,
                each(keys@),
            ),
    {
        let threads: usize = if self.part_threads == 0 {
            1
        } else {
            self.part_threads
        };
        let count: usize = self.segments.len();
        let mut message = "开始下载 ".to_string();
        message.append(number(count as u64).as_str());
        message.append(" 个 HLS 分片，线程数 ");
        message.append(number(threads as u64).as_str());
        let tally = tally_segments(&self.plan);
        let at = find_task(&app.tasks, self.task.id);
        if at < app.tasks.len() {
            app.tasks[at].completed_segments = tally.count;
            app.tasks[at].downloaded_bytes = tally.bytes;
            app.tasks[at].progress = Progress::of(tally.count as u64, self.plan.len() as u64);
            app.tasks[at].total_bytes = None;
            app.tasks[at].message = message;
        }
        proof {
            assert(app@.tasks =~= with_task(
                old(app)@,
                self.task.id,
                segmented(self.plan@, message@),
            ).tasks);
        }
        let jobs = self.jobs(&tally.pending, keys);
        let record = Record {
            title: self.task.title.clone(),
            url: self.task.url.clone(),
            media_type: self.task.media_type,
            media_id: self.task.media_id,
            headers: copy_headers(&self.headers),
            segmented: true,
            total_bytes: 0,
            segments: copy_list(&self.plan),
            ranges: Vec::new(),
        };
        self.phase = Phase::Segments;
        Action::FetchSegments {
            jobs,
            count,
            directory: write_uuid(self.task.id),
            threads,
            record,
        }
    }

    /// Goes on after the directory for the segments was made, and what an earlier start has
    /// left is known.
    pub fn prepare(&mut self, app: &mut AppState, record: Option<Record>, sizes: Vec<Option<u64>>)
        -> (action: Action)
        ensures
            (Step { run: final(self)@, app: final(app)@, action: action@ }) == prepared(
                old(self)@,
                old(app)@,
                maybe(record),
                sizes@,
            ),
    {
        let plan = match &record {
            Some(record) if record.segmented && record.segments.len() == self.segments.len() => {
                confirm(&record.segments, &sizes)
            },
            _ => plan_segments(self.segments.len()),
        };
        self.plan = plan;
        let urls = keys_to_fetch(&self.ciphers);
        if urls.len() == 0 {
            let none: Vec<Vec<u8>> = Vec::new();
            proof {
                assert(each(none@) =~= Seq::<Seq<u8>>::empty());
                assert(each(urls@).len() == 0);
            }
            return self.fetch_segments(app, &none);
        }
        self.phase = Phase::Keys;
        Action::FetchKeys { urls }
    }

    fn unlock(&mut self, app: &mut AppState, keys: Vec<Vec<u8>>) -> (action: Action)
        ensures
            (Step { run: final(self)@, app: final(app)@, action: action@ }) == unlocked(
                old(self)@,
                old(app)@,
                each(keys@),
            ),
    {
        let urls = keys_to_fetch(&self.ciphers);
        let mut good = keys.len() == urls.len();
        let mut i: usize = 0;
        while i < keys.len()
            invariant
                i <= keys.len(),
                urls@.len() == key_urls(self@.ciphers).len(),
                good == (keys@.len() == urls@.len() && forall|k: int|
                    0 <= k < i ==> (#[trigger] each(keys@)[k]).len() == BLOCK),
            decreases keys.len() - i,
        {
            assert(each(keys@)[i as int] == keys@[i as int]@);
            if keys[i].len() != BLOCK {
                good = false;
            }
            i = i + 1;
        }
        if good {
            self.fetch_segments(app, &keys)
        } else {
            self.fail(app, "HLS 密钥无效".to_string())
        }
    }

    fn merge_segments(&mut self, app: &mut AppState) -> (action: Action)
        ensures
            (Step { run: final(self)@, app: final(app)@, action: action@ }) == merging(
                old(self)@,
                old(app)@,
            ),
    {
        set_message(app, self.task.id, "正在合并 HLS 分片".to_string());
        self.phase = Phase::Merge;
        let parts = part_file_names(self.segments.len());
        Action::MergeParts {
            parts,
            directory: write_uuid(self.task.id),
            file_name: output_filename(&self.task, self.windows),
        }
    }

    fn remux(&mut self, app: &mut AppState, program: String) -> (action: Action)
        ensures
            (Step { run: final(self)@, app: final(app)@, action: action@ }) == remuxing(
                old(self)@,
                old(app)@,
                program@,
            ),
    {
        set_message(app, self.task.id, "正在转封装为 MP4".to_string());
        self.phase = Phase::Remux;
        let name = output_filename(&self.task, self.windows);
        Action::Remux {
            program,
            source: self.merged.clone(),
            file_name: remuxed_file_name(name.as_str()),
        }
    }

    fn complete(&mut self, app: &mut AppState, message: String, path: String) -> (action: Action)
        ensures
            (Step { run: final(self)@, app: final(app)@, action: action@ }) == completed(
                old(self)@,
                old(app)@,
                message@,
                path@,
            ),
    {
        mark_completed(app, self.task.id, message, path);
        self.phase = Phase::Over;
        Action::Stop
    }

    fn advance_file(&mut self, app: &mut AppState, event: Event) -> (action: Action)
        ensures
            (Step { run: final(self)@, app: final(app)@, action: action@ }) == file_step(
                old(self)@,
                old(app)@,
                event@,
            ),
    {
        match (self.phase, event) {
            (Phase::Directory, Event::Done) => if self.task.media_type == MediaType::Hls {
                self.phase = Phase::Playlist;
                Action::FetchPlaylist { url: self.playlist_url.clone() }
            } else {
                self.phase = Phase::Head;
                Action::RequestHead {
                    url: self.task.url.clone(),
                    file_name: output_filename(&self.task, self.windows),
                    directory: write_uuid(self.task.id),
                }
            },
            (Phase::Head, Event::Head { content_length, accept_ranges, record, existing }) => {
                let record = read_text(&record);
                self.measure(app, content_length, accept_ranges, record, existing)
            },
            (Phase::Transfer, Event::Written(path)) => self.complete(
                app,
                "下载完成".to_string(),
                path,
            ),
            _ => Action::Stop,
        }
    }

    fn advance_playlist(&mut self, app: &mut AppState, event: Event) -> (action: Action)
        ensures
            (Step { run: final(self)@, app: final(app)@, action: action@ }) == playlist_step(
                old(self)@,
                old(app)@,
                event@,
            ),
    {
        match (self.phase, event) {
            (Phase::Playlist, Event::Text(text)) => match parse_hls_playlist(
                self.playlist_url.as_str(),
                text.as_str(),
            ) {
                Ok(playlist) => self.open_playlist(app, playlist),
                Err(err) => self.fail(app, err.message()),
            },
            (Phase::Quality, Event::Text(text)) => match parse_hls_playlist(
                self.playlist_url.as_str(),
                text.as_str(),
            ) {
                Ok(playlist) => self.take_segments(app, playlist),
                Err(err) => self.fail(app, err.message()),
            },
            (Phase::Parts, Event::Parts { record, sizes }) => {
                let record = read_text(&record);
                self.prepare(app, record, sizes)
            },
            (Phase::Keys, Event::Keys(keys)) => self.unlock(app, keys),
            _ => Action::Stop,
        }
    }

    fn advance_closing(&mut self, app: &mut AppState, event: Event) -> (action: Action)
        ensures
            (Step { run: final(self)@, app: final(app)@, action: action@ }) == closing_step(
                old(self)@,
                old(app)@,
                event@,
            ),
    {
        match (self.phase, event) {
            (Phase::Segments, Event::Done) => self.merge_segments(app),
            (Phase::Merge, Event::Written(path)) => {
                self.merged = path;
                self.phase = Phase::Tool;
                Action::FindTool
            },
            (Phase::Tool, Event::ToolFound(program)) => self.remux(app, program),
            (Phase::Tool, Event::NoTool) => {
                let path = self.merged.clone();
                self.complete(app, merged_message(path.as_str()), path)
            },
            (Phase::Remux, Event::Written(path)) => {
                self.complete(app, merged_message(path.as_str()), path)
            },
            (Phase::Remux, Event::RemuxFailed(reason)) => {
                let path = self.merged.clone();
                let mut message = merged_message(path.as_str());
                message.append("，MP4 转封装失败: ");
                message.append(reason.as_str());
                self.complete(app, message, path)
            },
            _ => Action::Stop,
        }
    }

    /// Goes on after something happened.
    pub fn advance(&mut self, app: &mut AppState, event: Event) -> (action: Action)
        ensures
            (Step { run: final(self)@, app: final(app)@, action: action@ }) == advanced(
                old(self)@,
                old(app)@,
                event@,
            ),
    {
        if self.phase == Phase::Over {
            return Action::Stop;
        }
        match event {
            Event::Failed(reason) => self.fail(app, reason),
            Event::Interrupted => {
                self.phase = Phase::Over;
                Action::Stop
            },
            event => match self.phase {
                Phase::Directory | Phase::Head | Phase::Transfer => self.advance_file(app, event),
                Phase::Playlist | Phase::Quality | Phase::Parts | Phase::Keys => {
                    self.advance_playlist(app, event)
                },
                _ => self.advance_closing(app, event),
            },
        }
    }
}

fn merged_message(path: &str) -> (r: String)
    ensures
        r@ == merged_at(path@),
{
    let mut message = "HLS 合并完成: ".to_string();
    message.append(path);
    message
}

fn part_file_names(count: usize) -> (r: Vec<String>)
    ensures
        each(r@) == part_names(count as nat),
{
    let mut names: Vec<String> = Vec::new();
    let mut i: usize = 0;
    while i < count
        invariant
            i <= count,
            each(names@) == part_names(i as nat),
        decreases count - i,
    {
        let ghost was = each(names@);
        let name = part_file_name(i);
        names.push(name);
        i = i + 1;
        proof {
            assert(each(names@) =~= was.push(name@));
            assert(each(names@) =~= part_names(i as nat));
        }
    }
    names
}

/// What is kept of a segment that has come as some bytes: the bytes themselves, or what
/// they are the encryption of; nothing if they are no encryption.
pub open spec fn content_of(secret: Option<SecretView>, bytes: Seq<u8>) -> Option<Seq<u8>> {
    match secret {
        None => Some(bytes),
        Some(secret) => if secret.key.len() == BLOCK {
            decrypted(secret.key, secret.iv, bytes)
        } else {
            None
        },
    }
}

/// What is kept of a segment that has come as some bytes.
pub fn segment_content(secret: &Option<Secret>, bytes: Vec<u8>) -> (r: Option<Vec<u8>>)
    ensures
        content_of(maybe(*secret), bytes@) == (match r {
            Some(content) => Some(content@),
            None => None,
        }),
{
    match secret {
        None => Some(bytes),
        Some(secret) => if secret.key.len() == BLOCK {
            decrypt(&secret.key, secret.iv, &bytes)
        } else {
            None
        },
    }
}

} // verus!
