//! What a download does at each step of its course, told by what has happened.

use crate::aes::BLOCK;
use crate::aes_laws::{encrypted, law_decryption_undoes_encryption};
use crate::display::size_text;
use crate::downloader::{
    advanced_by_segment, enqueued, extended, extension_of, file_name, finished, grown, is_task,
    part_name, part_size, progressed, ranges_of, six_digits, with_task, zeros,
};
use crate::ffmpeg::remuxed_name;
use crate::hls::{error_text, playlist_of, HlsCipherView};
use crate::lists::{change_first, lemma_first_is};
use crate::outside::{sanitized, uuid_text};
use crate::plan::{bytes_done, has_refused, key_urls, pending_segments, position_in};
use crate::record_laws::{concatenated, put_together, segment_of};
use crate::run::{
    advanced, are_keys, begun, content_of, jobs_of, merging, opened_record, part_names,
    ranges_planned, segments_planned, ActionView, EventView, Phase, RunView, SecretView,
};
use crate::state::{
    download_url, url_filename, AppStateView, DownloadStatus, DownloadTaskView, HeaderPairView,
    MediaItemView, MediaType,
};
use crate::text::{
    decimal, digits_value, all_digits, is_digit, lower, trimmed, unsigned, without_plus,
};
use crate::text_laws::{law_lower_case_tells_texts_apart, same_but_case};
use vstd::prelude::*;

verus! {

/// Only the first element that satisfies a condition is changed.
pub proof fn law_only_the_first_match_is_changed<A>(
    list: Seq<A>,
    wanted: spec_fn(A) -> bool,
    change: spec_fn(A) -> A,
    k: int,
)
    requires
        0 <= k <= list.len(),
        forall|i: int| 0 <= i < k ==> !wanted(#[trigger] list[i]),
        k < list.len() ==> wanted(list[k]),
    ensures
        change_first(list, wanted, change).len() == list.len(),
        k < list.len() ==> change_first(list, wanted, change)[k] == change(list[k]),
        forall|i: int|
            0 <= i < list.len() && i != k ==> #[trigger] change_first(list, wanted, change)[i]
                == list[i],
{
    lemma_first_is(list, wanted, k);
}

/// Whether the first download of an identity stands at a place in the list.
pub open spec fn stands_at(app: AppStateView, id: u128, k: int) -> bool {
    &&& 0 <= k < app.tasks.len()
    &&& app.tasks[k].id == id
    &&& forall|i: int| 0 <= i < k ==> (#[trigger] app.tasks[i]).id != id
}

pub proof fn lemma_task(
    app: AppStateView,
    id: u128,
    change: spec_fn(DownloadTaskView) -> DownloadTaskView,
    k: int,
)
    requires
        stands_at(app, id, k),
    ensures
        with_task(app, id, change).tasks.len() == app.tasks.len(),
        with_task(app, id, change).tasks[k] == change(app.tasks[k]),
        with_task(app, id, change).settings == app.settings,
{
    assert forall|i: int| 0 <= i < k implies !is_task(id)(#[trigger] app.tasks[i]) by {}
    law_only_the_first_match_is_changed(app.tasks, is_task(id), change, k);
}

/// A download that is added waits at the end of the list, of its item and with nothing come.
pub proof fn law_a_new_download_waits(app: AppStateView, item: MediaItemView, id: u128)
    ensures
        ({
            let next = enqueued(app, item, id);
            let task = next.tasks.last();
            &&& next.tasks.drop_last() == app.tasks
            &&& next.detected == app.detected && next.settings == app.settings
            &&& next.pending_audio == app.pending_audio
            &&& task.id == id && task.media_id == item.id
            &&& task.title == item.title && task.url == download_url(item)
            &&& task.media_type == item.media_type
            &&& task.status == DownloadStatus::Queued
            &&& task.progress.done == 0 && task.progress.whole == 1
            &&& task.downloaded_bytes == 0 && task.total_bytes is None
            &&& task.completed_segments == 0 && task.file_path is None
            &&& task.message == "等待下载"@
        }),
{
    assert(enqueued(app, item, id).tasks.drop_last() =~= app.tasks);
}

/// What has come of a download as a whole is what is shown of it.
pub proof fn law_what_has_come_is_shown(task: DownloadTaskView, downloaded: u64, total: Option<u64>)
    ensures
        ({
            let next = progressed(downloaded, total)(task);
            &&& next.downloaded_bytes == downloaded && next.total_bytes == total
            &&& next.message == size_text(downloaded)
            &&& total is None ==> next.progress.done == 0
            &&& total is Some && 0 < total->0 && downloaded <= total->0 ==> next.progress.done
                == downloaded && next.progress.whole == total->0
            &&& next.status == task.status && next.id == task.id && next.url == task.url
        }),
{
}

/// What comes of a range adds to what has come, up to the total.
pub proof fn law_ranges_add_to_what_has_come(task: DownloadTaskView, bytes: u64, total: u64)
    ensures
        ({
            let next = grown(bytes, total)(task);
            &&& task.downloaded_bytes + bytes <= total ==> next.downloaded_bytes
                == task.downloaded_bytes + bytes
            &&& task.downloaded_bytes + bytes > total ==> next.downloaded_bytes == total
            &&& next.total_bytes == Some(total)
            &&& total > 0 ==> next.progress.done == next.downloaded_bytes && next.progress.whole
                == total
            &&& next.message == size_text(next.downloaded_bytes) + " / "@ + size_text(total)
            &&& next.status == task.status && next.completed_segments == task.completed_segments
        }),
{
}

/// A segment that comes adds one to the segments and its bytes to what has come.
pub proof fn law_segments_add_to_what_has_come(
    task: DownloadTaskView,
    number: usize,
    count: usize,
    bytes: u64,
)
    requires
        task.downloaded_bytes + bytes <= u64::MAX,
        task.completed_segments < usize::MAX,
        task.completed_segments < count,
        count <= u64::MAX,
    ensures
        ({
            let next = advanced_by_segment(number, count, bytes)(task);
            &&& next.downloaded_bytes == task.downloaded_bytes + bytes
            &&& next.completed_segments == task.completed_segments + 1
            &&& next.progress.done == task.completed_segments + 1 && next.progress.whole == count
            &&& next.message == "已下载分片 "@ + decimal((task.completed_segments + 1) as nat) + "/"@
                + decimal(count as nat) + "，最近完成 #"@ + decimal(number as nat) + "，累计 "@
                + size_text((task.downloaded_bytes + bytes) as u64)
            &&& next.status == task.status && next.total_bytes == task.total_bytes
        }),
{
}

/// Every range but the last is as long as the file divided by the number of threads, and one
/// byte at least.
pub proof fn law_ranges_are_shares_of_the_file(total: u64, parts: usize, i: int)
    requires
        parts > 0,
        0 <= i,
        i + 1 < ranges_of(total as nat, part_size(total as nat, parts as nat)).len(),
    ensures
        ({
            let range = ranges_of(total as nat, part_size(total as nat, parts as nat))[i];
            let share = total as int / parts as int;
            range.1 - range.0 + 1 == (if share >= 1 {
                share
            } else {
                1
            })
        }),
{
    crate::downloader_laws::law_ranges_follow_each_other(total, parts, i);
    let size = part_size(total as nat, parts as nat);
    crate::downloader::lemma_part_count(total as nat, size, (i + 1) as nat);
    assert((i + 1) * size == i * size + size) by (nonlinear_arith);
}

/// The file of a segment is named by its number in six digits or more, and the ending `.part`.
pub proof fn law_part_files_are_numbered(index: u64)
    ensures
        ({
            let name = part_name(index as nat);
            let digits = name.take(name.len() - 5);
            &&& name.len() >= 11
            &&& name.skip(name.len() - 5) == ".part"@
            &&& unsigned(digits) == Some(index)
        }),
{
    reveal_strlit(".part");
    let name = part_name(index as nat);
    let digits = name.take(name.len() - 5);
    assert(digits =~= six_digits(index as nat));
    assert(name.skip(name.len() - 5) =~= ".part"@);
    crate::downloader_laws::law_numbers_read_back(index);
    let plain = decimal(index as nat);
    lemma_decimal_digits(index as nat);
    let count = if plain.len() < 6 {
        (6 - plain.len()) as nat
    } else {
        0
    };
    assert(digits =~= zeros(count) + plain);
    lemma_zeros(count, plain);
    assert(without_plus(digits) == digits);
    assert(without_plus(plain) == plain);
}

proof fn lemma_decimal_digits(n: nat)
    ensures
        all_digits(decimal(n)),
        decimal(n).len() >= 1,
    decreases n,
{
    if n >= 10 {
        lemma_decimal_digits(n / 10);
        let rest = decimal(n / 10);
        assert forall|i: int| 0 <= i < decimal(n).len() implies is_digit(#[trigger] decimal(n)[i]) by {
            if i < rest.len() {
                assert(is_digit(rest[i]));
            }
        }
    }
}

proof fn lemma_zeros(count: nat, digits: Seq<char>)
    requires
        all_digits(digits),
    ensures
        digits_value(zeros(count) + digits) == digits_value(digits),
        all_digits(zeros(count) + digits),
    decreases digits.len(),
{
    let text = zeros(count) + digits;
    assert forall|i: int| 0 <= i < text.len() implies is_digit(#[trigger] text[i]) by {
        if i >= count {
            assert(is_digit(digits[i - count]));
        }
    }
    if digits.len() == 0 {
        assert(text =~= zeros(count));
        lemma_only_zeros(count);
    } else {
        let rest = digits.drop_last();
        assert(all_digits(rest)) by {
            assert forall|i: int| 0 <= i < rest.len() implies is_digit(#[trigger] rest[i]) by {
                assert(is_digit(digits[i]));
            }
        }
        lemma_zeros(count, rest);
        assert(text.drop_last() =~= zeros(count) + rest);
    }
}

proof fn lemma_only_zeros(count: nat)
    ensures
        digits_value(zeros(count)) == 0,
    decreases count,
{
    if count > 0 {
        assert(zeros(count).drop_last() =~= zeros((count - 1) as nat));
        lemma_only_zeros((count - 1) as nat);
    }
}

/// HLS is saved as TS, WEBM as WEBM and anything else as MP4; the ending is added unless the
/// name has it, ASCII case aside.
pub proof fn law_files_are_named_by_their_kind(name: Seq<char>, kind: MediaType)
    ensures
        ({
            let ending = if kind == MediaType::Hls {
                "ts"@
            } else if kind == MediaType::Webm {
                "webm"@
            } else {
                "mp4"@
            };
            extended(name, kind) == (if name.len() >= ending.len() && same_but_case(
                name.skip(name.len() - ending.len()),
                ending,
            ) {
                name
            } else {
                name + "."@ + ending
            })
        }),
{
    reveal_strlit("ts");
    reveal_strlit("webm");
    reveal_strlit("mp4");
    assert(lower("ts"@) =~= "ts"@);
    assert(lower("webm"@) =~= "webm"@);
    assert(lower("mp4"@) =~= "mp4"@);
    let ending = extension_of(kind);
    if name.len() >= ending.len() {
        let tail = name.skip(name.len() - ending.len());
        law_lower_case_tells_texts_apart(tail, ending);
        assert(lower(name).subrange(name.len() - ending.len(), name.len() as int) =~= lower(tail));
    }
}

/// The file of a download is named after its title, or after the file at its address where
/// nothing is left of the title.
pub proof fn law_files_are_named_after_the_title(task: DownloadTaskView, windows: bool)
    ensures
        trimmed(sanitized(task.title, windows)).len() > 0 ==> file_name(task, windows) == extended(
            sanitized(task.title, windows),
            task.media_type,
        ),
        trimmed(sanitized(task.title, windows)).len() == 0 ==> file_name(task, windows) == extended(
            sanitized(url_filename(task.url), windows),
            task.media_type,
        ),
{
}

/// A download starts by its kind: DASH is not supported, and all else begins with the directory
/// to save in; it is fetched as its task says, with its headers and as the settings are then.
pub proof fn law_a_download_starts_by_its_kind(
    app: AppStateView,
    task: DownloadTaskView,
    headers: Seq<HeaderPairView>,
    windows: bool,
    k: int,
)
    requires
        stands_at(app, task.id, k),
    ensures
        ({
            let step = begun(app, task, headers, windows);
            let shown = step.app.tasks[k];
            &&& step.run.task == task && step.run.headers == headers && step.run.windows == windows
            &&& step.run.save_dir == app.settings.save_dir
            &&& step.run.part_threads == app.settings.part_threads
            &&& if task.media_type == MediaType::Dash {
                &&& step.action is Stop && step.run.phase == Phase::Over
                &&& shown.status == DownloadStatus::Unsupported
            } else {
                &&& step.action == (ActionView::CreateDirectory { path: app.settings.save_dir })
                &&& step.run.phase == Phase::Directory
                &&& shown.status == DownloadStatus::Downloading
                &&& task.media_type == MediaType::Hls ==> shown.message == "正在解析 HLS 播放列表"@
                &&& task.media_type != MediaType::Hls ==> shown.message == "正在连接服务器"@
            }
        }),
{
    let step = begun(app, task, headers, windows);
    lemma_task(
        app,
        task.id,
        crate::downloader::standing(
            DownloadStatus::Unsupported,
            "DASH 下载将在下一步加入解析与音视频合并"@,
        ),
        k,
    );
    lemma_task(
        app,
        task.id,
        crate::downloader::standing(DownloadStatus::Downloading, "正在解析 HLS 播放列表"@),
        k,
    );
    lemma_task(
        app,
        task.id,
        crate::downloader::standing(DownloadStatus::Downloading, "正在连接服务器"@),
        k,
    );
}

/// With the directory there, the playlist of an HLS download is fetched, and the server is asked
/// about the file of any other; both at the address of the download.
pub proof fn law_the_address_of_a_download_is_asked_first(run: RunView, app: AppStateView)
    requires
        run.phase == Phase::Directory,
    ensures
        ({
            let step = advanced(run, app, EventView::Done);
            &&& step.app == app
            &&& run.task.media_type == MediaType::Hls ==> step.action == (
            ActionView::FetchPlaylist { url: run.playlist_url })
            &&& run.task.media_type != MediaType::Hls ==> step.action == (ActionView::RequestHead {
                url: run.task.url,
                file_name: file_name(run.task, run.windows),
                directory: uuid_text(run.task.id),
            })
        }),
{
}

/// The playlist of a download is at its own address at first.
pub proof fn law_the_first_playlist_is_that_of_the_download(
    app: AppStateView,
    task: DownloadTaskView,
    headers: Seq<HeaderPairView>,
    windows: bool,
)
    ensures
        begun(app, task, headers, windows).run.playlist_url == task.url,
{
}

/// A file of more than a mebibyte is fetched in ranges if its length is known, the server serves
/// ranges of bytes and more than one thread is allowed; any other is fetched as a whole. Both go
/// to the address and into the file of the download.
#[verifier::rlimit(60)]
#[verifier::spinoff_prover]
pub proof fn law_large_files_are_fetched_in_ranges(
    run: RunView,
    app: AppStateView,
    content_length: Option<Seq<char>>,
    accept_ranges: Option<Seq<char>>,
    record: Option<Seq<char>>,
    existing: Option<u64>,
    k: int,
)
    requires
        run.phase == Phase::Head,
        stands_at(app, run.task.id, k),
    ensures
        ({
            let step = advanced(
                run,
                app,
                EventView::Head { content_length, accept_ranges, record, existing },
            );
            let length = if content_length is Some {
                unsigned(content_length->0)
            } else {
                None
            };
            let ranged = accept_ranges is Some && same_but_case(accept_ranges->0, "bytes"@);
            let shown = step.app.tasks[k];
            &&& step.run.phase == Phase::Transfer
            &&& shown.total_bytes == length
            &&& ranged ==> shown.message == "服务器支持分片下载，线程数 "@ + decimal(
                run.part_threads as nat,
            )
            &&& !ranged ==> shown.message == "服务器不支持分片，使用单线程下载"@
            &&& if ranged && run.part_threads > 1 && length is Some && length->0 > 1024 * 1024 {
                match step.action {
                    ActionView::FetchRanges {
                        url,
                        file_name: name,
                        directory,
                        total,
                        threads,
                        record: kept,
                        ..
                    } => {
                        &&& url == run.task.url && name == file_name(run.task, run.windows)
                        &&& directory == uuid_text(run.task.id)
                        &&& total == length->0 && threads == run.part_threads
                        &&& kept.title == run.task.title && kept.url == run.task.url
                        &&& kept.media_type == run.task.media_type
                        &&& kept.media_id == run.task.media_id && kept.headers == run.headers
                        &&& !kept.segmented && kept.total_bytes == total
                        &&& kept.ranges == ranges_planned(
                            run,
                            total,
                            opened_record(record),
                            existing,
                        )
                    },
                    _ => false,
                }
            } else {
                step.action == (ActionView::FetchWhole {
                    url: run.task.url,
                    file_name: file_name(run.task, run.windows),
                })
            }
        }),
{
    reveal_strlit("bytes");
    assert(lower("bytes"@) =~= "bytes"@);
    if accept_ranges is Some {
        law_lower_case_tells_texts_apart(accept_ranges->0, "bytes"@);
    }
    let length = if content_length is Some {
        unsigned(content_length->0)
    } else {
        None
    };
    let ranged = crate::run::serves_ranges(accept_ranges);
    let message = if ranged {
        "服务器支持分片下载，线程数 "@ + decimal(run.part_threads as nat)
    } else {
        "服务器不支持分片，使用单线程下载"@
    };
    lemma_task(app, run.task.id, crate::run::measured(length, message), k);
    if length is Some {
        let plan = ranges_planned(run, length->0, opened_record(record), existing);
        lemma_task(
            app,
            run.task.id,
            crate::run::taken_up_at(length->0, bytes_done(plan) as u64, message),
            k,
        );
    }
}

/// A file that is saved completes its download, with all of it done and its path noted.
pub proof fn law_a_saved_file_completes_its_download(
    run: RunView,
    app: AppStateView,
    path: Seq<char>,
    k: int,
)
    requires
        run.phase == Phase::Transfer,
        stands_at(app, run.task.id, k),
    ensures
        ({
            let step = advanced(run, app, EventView::Written(path));
            let shown = step.app.tasks[k];
            &&& step.action is Stop && step.run.phase == Phase::Over
            &&& shown.status == DownloadStatus::Completed && shown.file_path == Some(path)
            &&& shown.progress.done == shown.progress.whole
            &&& shown.message == "下载完成"@
        }),
{
    lemma_task(app, run.task.id, finished("下载完成"@, path), k);
}

/// A playlist with qualities leads to the playlist of one of them, and none has more bandwidth;
/// one without leads to the directory for its segments, which are kept as listed. Without
/// segments, or with a cipher that is refused, the download fails.
#[verifier::rlimit(60)]
#[verifier::spinoff_prover]
pub proof fn law_a_playlist_leads_to_its_segments(
    run: RunView,
    app: AppStateView,
    text: Seq<char>,
    k: int,
)
    requires
        run.phase == Phase::Playlist || run.phase == Phase::Quality,
        stands_at(app, run.task.id, k),
    ensures
        ({
            let step = advanced(run, app, EventView::Text(text));
            let shown = step.app.tasks[k];
            match playlist_of(run.playlist_url, text) {
                Err(err) => {
                    &&& step.action is Stop && step.run.phase == Phase::Over
                    &&& shown.status == DownloadStatus::Failed && shown.message == error_text(err)
                },
                Ok(playlist) => if run.phase == Phase::Playlist && playlist.variants.len() > 0 {
                    &&& step.run.phase == Phase::Quality
                    &&& step.action == (ActionView::FetchPlaylist { url: step.run.playlist_url })
                } else if has_refused(playlist.ciphers) {
                    &&& step.action is Stop && shown.status == DownloadStatus::Failed
                    &&& shown.message == "当前版本检测到加密 HLS，暂未处理 EXT-X-KEY 解密"@
                } else if playlist.segments.len() == 0 {
                    &&& step.action is Stop && shown.status == DownloadStatus::Failed
                    &&& shown.message == "HLS 播放列表中没有可下载分片"@
                } else {
                    &&& step.run.phase == Phase::Parts && step.app == app
                    &&& step.run.segments == playlist.segments
                    &&& step.run.ciphers == playlist.ciphers
                    &&& step.action == (ActionView::CreateParts {
                        directory: uuid_text(run.task.id),
                        parts: Seq::new(playlist.segments.len(), |i: int| part_name(i as nat)),
                    })
                },
            }
        }),
{
    let failing = |reason: Seq<char>| crate::downloader::standing(DownloadStatus::Failed, reason);
    lemma_task(app, run.task.id, failing("当前版本检测到加密 HLS，暂未处理 EXT-X-KEY 解密"@), k);
    lemma_task(app, run.task.id, failing("HLS 播放列表中没有可下载分片"@), k);
    match playlist_of(run.playlist_url, text) {
        Err(err) => {
            lemma_task(app, run.task.id, failing(error_text(err)), k);
        },
        Ok(playlist) => {
            assert(part_names(playlist.segments.len()) =~= Seq::new(
                playlist.segments.len(),
                |i: int| part_name(i as nat),
            ));
        },
    }
}

/// A segment that is to be fetched is at its own address, and is decrypted if and only if it is
/// encrypted.
pub proof fn law_segments_are_fetched_from_their_addresses(
    run: RunView,
    keys: Seq<Seq<u8>>,
    i: int,
)
    requires
        0 <= i < jobs_of(run, keys).len(),
        run.plan.len() == run.segments.len(),
        run.plan.len() <= usize::MAX,
        run.ciphers.len() == run.segments.len(),
    ensures
        ({
            let job = jobs_of(run, keys)[i];
            &&& job.index < run.segments.len()
            &&& !run.plan[job.index as int].completed
            &&& job.url == run.segments[job.index as int]
            &&& job.secret is Some <==> run.ciphers[job.index as int] is Aes
        }),
{
    let pending = pending_segments(run.plan);
    crate::record_laws::lemma_pending_segments(run.plan, pending[i]);
    assert(pending.contains(pending[i]));
}

/// With the directory for its segments there, a download that needs keys asks for them, each
/// once, and any other fetches its segments.
pub proof fn law_keys_are_fetched_before_segments(
    run: RunView,
    app: AppStateView,
    record: Option<Seq<char>>,
    sizes: Seq<Option<u64>>,
)
    requires
        run.phase == Phase::Parts,
    ensures
        ({
            let step = advanced(run, app, EventView::Parts { record, sizes });
            &&& step.run.plan == segments_planned(run, opened_record(record), sizes)
            &&& step.run.segments == run.segments && step.run.ciphers == run.ciphers
            &&& if forall|i: int| 0 <= i < run.ciphers.len() ==> !((#[trigger] run.ciphers[i]) is Aes) {
                step.action is FetchSegments
            } else {
                step.action == (ActionView::FetchKeys { urls: key_urls(run.ciphers) })
            }
        }),
{
    lemma_no_keys(run.ciphers);
}

proof fn lemma_no_keys(ciphers: Seq<HlsCipherView>)
    ensures
        key_urls(ciphers).len() == 0 <==> forall|i: int|
            0 <= i < ciphers.len() ==> !((#[trigger] ciphers[i]) is Aes),
    decreases ciphers.len(),
{
    if ciphers.len() > 0 {
        let rest = ciphers.drop_last();
        lemma_no_keys(rest);
        if key_urls(ciphers).len() == 0 {
            assert forall|i: int| 0 <= i < ciphers.len() implies !((#[trigger] ciphers[i]) is Aes) by {
                if i < rest.len() {
                    assert(rest[i] == ciphers[i]);
                }
            }
        }
        if forall|i: int| 0 <= i < ciphers.len() ==> !((#[trigger] ciphers[i]) is Aes) {
            assert forall|i: int| 0 <= i < rest.len() implies !((#[trigger] rest[i]) is Aes) by {
                assert(ciphers[i] == rest[i]);
            }
            assert(!(ciphers[ciphers.len() - 1] is Aes));
        }
    }
}

/// The keys that have come are handed to the segments if they are as many as were asked for and
/// of sixteen bytes each; else the download fails.
pub proof fn law_wrong_keys_end_a_download(
    run: RunView,
    app: AppStateView,
    keys: Seq<Seq<u8>>,
    k: int,
)
    requires
        run.phase == Phase::Keys,
        stands_at(app, run.task.id, k),
    ensures
        ({
            let step = advanced(run, app, EventView::Keys(keys));
            if keys.len() == key_urls(run.ciphers).len() && forall|i: int|
                0 <= i < keys.len() ==> (#[trigger] keys[i]).len() == 16 {
                match step.action {
                    ActionView::FetchSegments { jobs, count, directory, threads, record } => {
                        &&& jobs == jobs_of(run, keys)
                        &&& count == run.segments.len() as usize
                        &&& directory == uuid_text(run.task.id)
                        &&& threads == (if run.part_threads == 0 {
                            1
                        } else {
                            run.part_threads
                        })
                        &&& record.segmented && record.segments == run.plan
                        &&& record.title == run.task.title && record.url == run.task.url
                        &&& record.media_type == run.task.media_type
                        &&& record.media_id == run.task.media_id && record.headers == run.headers
                    },
                    _ => false,
                }
            } else {
                &&& step.action is Stop
                &&& step.app.tasks[k].status == DownloadStatus::Failed
                &&& step.app.tasks[k].message == "HLS 密钥无效"@
            }
        }),
{
    lemma_task(
        app,
        run.task.id,
        crate::downloader::standing(DownloadStatus::Failed, "HLS 密钥无效"@),
        k,
    );
}

/// With its segments there, a download merges them in their order into its file, and then looks
/// for the program.
pub proof fn law_segments_are_merged_into_the_file(
    run: RunView,
    app: AppStateView,
    path: Seq<char>,
    k: int,
)
    requires
        run.phase == Phase::Segments,
        stands_at(app, run.task.id, k),
    ensures
        ({
            let merge = advanced(run, app, EventView::Done);
            &&& merge.action == (ActionView::MergeParts {
                parts: Seq::new(run.segments.len(), |i: int| part_name(i as nat)),
                directory: uuid_text(run.task.id),
                file_name: file_name(run.task, run.windows),
            })
            &&& merge.app.tasks[k].message == "正在合并 HLS 分片"@
            &&& merge.app.tasks[k].status == app.tasks[k].status
        }),
        ({
            let merge = advanced(run, app, EventView::Done);
            let search = advanced(merge.run, merge.app, EventView::Written(path));
            &&& search.action is FindTool && search.run.phase == Phase::Tool
            &&& search.run.merged == path && search.run.task == run.task
            &&& search.run.windows == run.windows && search.app == merge.app
        }),
{
    assert(part_names(run.segments.len()) =~= Seq::new(
        run.segments.len(),
        |i: int| part_name(i as nat),
    ));
    lemma_task(app, run.task.id, crate::downloader::saying("正在合并 HLS 分片"@), k);
}

/// Without a program the merged file is the result; with one it is run on that file.
pub proof fn law_the_merged_file_is_kept_without_a_program(
    run: RunView,
    app: AppStateView,
    program: Seq<char>,
    k: int,
)
    requires
        run.phase == Phase::Tool,
        stands_at(app, run.task.id, k),
    ensures
        ({
            let without = advanced(run, app, EventView::NoTool);
            &&& without.action is Stop && without.run.phase == Phase::Over
            &&& without.app.tasks[k].status == DownloadStatus::Completed
            &&& without.app.tasks[k].file_path == Some(run.merged)
            &&& without.app.tasks[k].message == "HLS 合并完成: "@ + run.merged
        }),
        ({
            let with = advanced(run, app, EventView::ToolFound(program));
            &&& with.action == (ActionView::Remux {
                program,
                source: run.merged,
                file_name: remuxed_name(file_name(run.task, run.windows)),
            })
            &&& with.run.merged == run.merged && with.run.phase == Phase::Remux
        }),
{
    lemma_task(app, run.task.id, finished("HLS 合并完成: "@ + run.merged, run.merged), k);
}

/// What the program has made is the result; if it fails, the merged file is.
pub proof fn law_the_program_makes_the_result(
    run: RunView,
    app: AppStateView,
    result: Seq<char>,
    reason: Seq<char>,
    k: int,
)
    requires
        run.phase == Phase::Remux,
        stands_at(app, run.task.id, k),
    ensures
        ({
            let made = advanced(run, app, EventView::Written(result));
            &&& made.action is Stop && made.app.tasks[k].status == DownloadStatus::Completed
            &&& made.app.tasks[k].file_path == Some(result)
            &&& made.app.tasks[k].message == "HLS 合并完成: "@ + result
        }),
        ({
            let spoilt = advanced(run, app, EventView::RemuxFailed(reason));
            &&& spoilt.action is Stop && spoilt.app.tasks[k].status == DownloadStatus::Completed
            &&& spoilt.app.tasks[k].file_path == Some(run.merged)
            &&& spoilt.app.tasks[k].message == "HLS 合并完成: "@ + run.merged
                + "，MP4 转封装失败: "@ + reason
        }),
{
    lemma_task(app, run.task.id, finished("HLS 合并完成: "@ + result, result), k);
    lemma_task(
        app,
        run.task.id,
        finished("HLS 合并完成: "@ + run.merged + "，MP4 转封装失败: "@ + reason, run.merged),
        k,
    );
}

/// What is kept of a segment that is not encrypted is what has come, and of one that is, what
/// was encrypted.
#[verifier::rlimit(60)]
pub proof fn law_segments_are_kept_as_they_were_before_encryption(
    key: Seq<u8>,
    iv: u128,
    text: Seq<u8>,
)
    requires
        key.len() == BLOCK,
    ensures
        content_of(None, text) == Some(text),
        content_of(Some(SecretView { key, iv }), encrypted(key, iv, text)) == Some(text),
{
    law_decryption_undoes_encryption(key, iv, text);
}

/// If every segment that came was that of the video, encrypted under the key and the initial
/// number that the playlist gives it, and is kept in its file, then the merged file is the video.
#[verifier::rlimit(60)]
pub proof fn law_the_merged_file_is_the_video(
    run: RunView,
    app: AppStateView,
    keys: Seq<Seq<u8>>,
    video: Seq<Seq<u8>>,
    fetched: Seq<Seq<u8>>,
    files: spec_fn(Seq<char>) -> Seq<u8>,
)
    requires
        video.len() == run.segments.len(),
        fetched.len() == run.segments.len(),
        run.ciphers.len() == run.segments.len(),
        run.segments.len() <= usize::MAX,
        are_keys(keys, key_urls(run.ciphers).len()),
        forall|i: int|
            0 <= i < fetched.len() ==> {
                &&& #[trigger] run.ciphers[i] is Plain ==> fetched[i] == video[i]
                &&& run.ciphers[i] is Aes ==> fetched[i] == encrypted(
                    keys[position_in(key_urls(run.ciphers), run.ciphers[i]->url)],
                    run.ciphers[i]->iv,
                    video[i],
                )
                &&& !(run.ciphers[i] is Refused)
            },
        forall|i: int|
            0 <= i < fetched.len() ==> segment_of(run, keys, i, #[trigger] fetched[i]) == Some(
                files(part_name(i as nat)),
            ),
    ensures
        match merging(run, app).action {
            ActionView::MergeParts { parts, .. } => put_together(files, parts) == concatenated(
                video,
            ),
            _ => false,
        },
{
    assert forall|i: int| 0 <= i < fetched.len() implies segment_of(
        run,
        keys,
        i,
        #[trigger] fetched[i],
    ) == Some(video[i]) by {
        let cipher = run.ciphers[i];
        if cipher is Aes {
            crate::record_laws::law_segments_get_their_own_keys(run, keys, i as usize);
            let key = keys[position_in(key_urls(run.ciphers), cipher->url)];
            law_decryption_undoes_encryption(key, cipher->iv, video[i]);
        }
    }
    crate::record_laws::law_merged_file_is_the_decrypted_segments(run, app, keys, fetched, files);
    assert(Seq::new(fetched.len(), |i: int| segment_of(run, keys, i, fetched[i])->0) =~= video) by {
        assert forall|i: int| 0 <= i < video.len() implies segment_of(run, keys, i, fetched[i])->0
            == #[trigger] video[i] by {
            assert(segment_of(run, keys, i, fetched[i]) == Some(video[i]));
        }
    }
}

} // verus!
