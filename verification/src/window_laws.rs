//! What the windows show and what a click in them does, told by what was shown before.

use crate::analysis::{
    analyzed, choosing, chosen_label, chosen_url, is_at, is_hls, is_media, labels_of, offering,
    playlist_request, remarked, with_media,
};
use crate::course_laws::stands_at;
use crate::downloader::{is_task, with_task};
use crate::hls::{ranked, HlsPlaylistView};
use crate::hls_laws::{law_first_ranked_is_highest, law_ranked_keeps_all};
use crate::lists::lemma_first_is;
use crate::panel::{
    can_be_paused, can_be_resumed, cleared, clock, compact, draft_of, first_task, goes_on,
    is_listed, is_other_media, is_other_task, is_taken_up, listed_count, pausable, paused,
    recordless, resumable, resumed, saved, saved_path, selected_without, selection,
    settings_followed, switched, taken_up, without_task, AppView, SettingsClick, SettingsDraftView,
};
use crate::state::{
    download_url, variant_label, AppStateView, DownloadStatus, DownloadTaskView, MediaItemView,
    SettingsView,
};
use crate::text::{decimal, trimmed};
use vstd::prelude::*;

verus! {

/// A setting that lies between its bounds is saved as it was written, one that lies outside is
/// saved as the bound next to it. The address that is listened at cannot be changed.
pub proof fn law_settings_are_saved_as_written(settings: SettingsView, draft: SettingsDraftView)
    ensures
        saved(settings, draft).save_dir == trimmed(draft.save_dir),
        saved(settings, draft).listen_port == settings.listen_port,
        1 <= draft.max_tasks <= 16 ==> saved(settings, draft).max_tasks == draft.max_tasks,
        draft.max_tasks < 1 ==> saved(settings, draft).max_tasks == 1,
        draft.max_tasks > 16 ==> saved(settings, draft).max_tasks == 16,
        1 <= draft.part_threads <= 64 ==> saved(settings, draft).part_threads
            == draft.part_threads,
        draft.part_threads < 1 ==> saved(settings, draft).part_threads == 1,
        draft.part_threads > 64 ==> saved(settings, draft).part_threads == 64,
        1 <= draft.min_media_size_mb <= 1024 ==> saved(settings, draft).min_media_size_mb
            == draft.min_media_size_mb,
        draft.min_media_size_mb < 1 ==> saved(settings, draft).min_media_size_mb == 1,
        draft.min_media_size_mb > 1024 ==> saved(settings, draft).min_media_size_mb == 1024,
        1 <= draft.request_retry_attempts <= 20 ==> saved(settings, draft).request_retry_attempts
            == draft.request_retry_attempts,
        draft.request_retry_attempts < 1 ==> saved(settings, draft).request_retry_attempts == 1,
        draft.request_retry_attempts > 20 ==> saved(settings, draft).request_retry_attempts == 20,
        1 <= draft.part_retry_attempts <= 50 ==> saved(settings, draft).part_retry_attempts
            == draft.part_retry_attempts,
        draft.part_retry_attempts < 1 ==> saved(settings, draft).part_retry_attempts == 1,
        draft.part_retry_attempts > 50 ==> saved(settings, draft).part_retry_attempts == 50,
{
}

/// The form for settings opens with the settings that hold.
pub proof fn law_the_form_shows_the_settings(settings: SettingsView)
    ensures
        draft_of(settings).save_dir == settings.save_dir,
        draft_of(settings).max_tasks == settings.max_tasks,
        draft_of(settings).part_threads == settings.part_threads,
        draft_of(settings).min_media_size_mb == settings.min_media_size_mb,
        draft_of(settings).request_retry_attempts == settings.request_retry_attempts,
        draft_of(settings).part_retry_attempts == settings.part_retry_attempts,
{
}

/// Only saving in an open form changes the settings, nothing else of the state ever changes, and
/// the form stays open until a button is used.
pub proof fn law_only_saving_changes_settings(
    app: AppStateView,
    draft: SettingsDraftView,
    open: bool,
    click: SettingsClick,
)
    ensures
        ({
            let (after, shown) = settings_followed(app, draft, open, click);
            &&& after.detected == app.detected
            &&& after.pending_audio == app.pending_audio
            &&& after.tasks == app.tasks
            &&& shown ==> open && click is Nothing
            &&& open && click is Nothing ==> shown
            &&& !open || !(click is Save) ==> after.settings == app.settings
            &&& open && click is Save ==> after.settings == saved(app.settings, draft)
        }),
{
}

proof fn lemma_filter_contains<A>(list: Seq<A>, wanted: spec_fn(A) -> bool, x: A)
    ensures
        list.filter(wanted).contains(x) <==> list.contains(x) && wanted(x),
    decreases list.len(),
{
    reveal(Seq::filter);
    if list.len() > 0 {
        let rest = list.drop_last();
        lemma_filter_contains(rest, wanted, x);
        assert(list =~= rest.push(list.last()));
        if list.contains(x) && x != list.last() {
            let i = choose|i: int| 0 <= i < list.len() && list[i] == x;
            assert(rest[i] == x);
        }
        if rest.contains(x) {
            let i = choose|i: int| 0 <= i < rest.len() && rest[i] == x;
            assert(list[i] == x);
        }
        let kept = rest.filter(wanted);
        if wanted(list.last()) {
            let longer = kept.push(list.last());
            assert(longer[kept.len() as int] == list.last());
            if kept.contains(x) {
                let i = choose|i: int| 0 <= i < kept.len() && kept[i] == x;
                assert(longer[i] == x);
            }
            if longer.contains(x) && x != list.last() {
                let i = choose|i: int| 0 <= i < longer.len() && longer[i] == x;
                assert(kept[i] == x);
            }
        }
        assert(list[list.len() - 1] == list.last());
    }
}

/// Leaving the list of what was found keeps of it what is being downloaded, and nothing else.
/// Going from any other window, or staying, changes nothing.
pub proof fn law_leaving_keeps_what_is_downloaded(
    app: AppStateView,
    from: AppView,
    to: AppView,
    item: MediaItemView,
)
    ensures
        from is Sniffing && !(to is Sniffing) ==> (switched(app, from, to).detected.contains(item)
            <==> app.detected.contains(item) && exists|i: int|
            0 <= i < app.tasks.len() && (#[trigger] app.tasks[i]).media_id == item.id),
        switched(app, from, to).tasks == app.tasks,
        switched(app, from, to).settings == app.settings,
        switched(app, from, to).pending_audio == app.pending_audio,
        !(from is Sniffing) || to is Sniffing ==> switched(app, from, to) == app,
{
    lemma_filter_contains(app.detected, is_taken_up(app.tasks), item);
}

/// An item that is taken up for download leaves the list of what was found, and the others stay.
pub proof fn law_other_items_stay_listed(
    app: AppStateView,
    item: MediaItemView,
    id: u128,
    other: MediaItemView,
)
    ensures
        taken_up(app, item, id).detected.contains(other) <==> app.detected.contains(other)
            && other.id != item.id,
        taken_up(app, item, id).tasks.len() == app.tasks.len() + 1,
        taken_up(app, item, id).tasks.last().id == id,
        taken_up(app, item, id).tasks.last().media_id == item.id,
        taken_up(app, item, id).settings == app.settings,
        taken_up(app, item, id).pending_audio == app.pending_audio,
{
    lemma_filter_contains(app.detected, is_other_media(item.id), other);
}

/// A removed download is gone, the others stay, and nothing is selected that is gone.
pub proof fn law_other_downloads_stay(
    app: AppStateView,
    id: u128,
    other: DownloadTaskView,
    selected: Option<u128>,
)
    ensures
        without_task(app, id).tasks.contains(other) <==> app.tasks.contains(other) && other.id
            != id,
        without_task(app, id).detected == app.detected,
        without_task(app, id).settings == app.settings,
        without_task(app, id).pending_audio == app.pending_audio,
        selected != Some(id) ==> selected_without(selected, id) == selected,
        selected == Some(id) ==> selected_without(selected, id) is None,
{
    lemma_filter_contains(app.tasks, is_other_task(id), other);
}

proof fn lemma_task_at(app: AppStateView, id: u128, k: int)
    requires
        stands_at(app, id, k),
    ensures
        first_task(app, id) == Some(app.tasks[k]),
        forall|change: spec_fn(DownloadTaskView) -> DownloadTaskView|
            #![trigger with_task(app, id, change)]
            with_task(app, id, change) == (AppStateView {
                tasks: app.tasks.update(k, change(app.tasks[k])),
                ..app
            }),
{
    assert forall|i: int| 0 <= i < k implies !is_task(id)(#[trigger] app.tasks[i]) by {
        assert(app.tasks[i].id != id);
    }
    lemma_first_is(app.tasks, is_task(id), k);
}

proof fn lemma_no_task(app: AppStateView, id: u128)
    requires
        forall|i: int| 0 <= i < app.tasks.len() ==> (#[trigger] app.tasks[i]).id != id,
    ensures
        first_task(app, id) is None,
{
    lemma_first_is(app.tasks, is_task(id), app.tasks.len() as int);
}

/// What is waiting or running can be paused, and nothing else. Pausing changes how the download
/// stands and what is said of it, and nothing more.
pub proof fn law_pausing_only_stops(app: AppStateView, id: u128, k: int)
    requires
        stands_at(app, id, k),
    ensures
        ({
            let before = app.tasks[k];
            let after = with_task(app, id, paused()).tasks[k];
            &&& can_be_paused(app, id) <==> before.status is Queued || before.status
                is Downloading
            &&& can_be_paused(app, id) ==> after == (DownloadTaskView {
                status: DownloadStatus::Paused,
                message: "已暂停"@,
                ..before
            })
            &&& !can_be_paused(app, id) ==> after == before
        }),
{
    lemma_task_at(app, id, k);
}

/// What is paused, failed or waiting can be taken up again, and nothing else. It then waits, with
/// what it has so far.
pub proof fn law_resuming_only_queues(app: AppStateView, id: u128, k: int)
    requires
        stands_at(app, id, k),
    ensures
        ({
            let before = app.tasks[k];
            let after = with_task(app, id, resumed()).tasks[k];
            &&& can_be_resumed(app, id) <==> before.status is Paused || before.status is Failed
                || before.status is Queued
            &&& can_be_resumed(app, id) ==> after == (DownloadTaskView {
                status: DownloadStatus::Queued,
                message: "等待下载"@,
                ..before
            })
            &&& !can_be_resumed(app, id) ==> after == before
        }),
{
    lemma_task_at(app, id, k);
}

/// Which buttons are offered for a download.
pub proof fn law_buttons_follow_the_status(status: DownloadStatus)
    ensures
        pausable(status) <==> status is Queued || status is Downloading,
        resumable(status) <==> status is Paused || status is Failed || status is Queued,
        pausable(status) || resumable(status) <==> !(status is Completed || status is Unsupported),
{
}

/// A download goes on just as long as it stands as running, and the file of a download can be
/// opened once it is completed.
pub proof fn law_a_download_is_what_it_stands_as(app: AppStateView, id: u128, k: int)
    requires
        stands_at(app, id, k),
    ensures
        goes_on(app, id) <==> app.tasks[k].status is Downloading,
        selection(app, Some(id)) == Some(app.tasks[k]),
        selection(app, None) is None,
        app.tasks[k].status is Completed ==> saved_path(app, id) == app.tasks[k].file_path,
        !(app.tasks[k].status is Completed) ==> saved_path(app, id) is None,
{
    lemma_task_at(app, id, k);
    assert forall|i: int| 0 <= i < k implies !is_task(id)(#[trigger] app.tasks[i]) by {
        assert(app.tasks[i].id != id);
    }
    lemma_first_is(app.tasks, is_task(id), k);
}

/// Nothing is done with a download that is not there.
pub proof fn law_unknown_downloads_do_nothing(app: AppStateView, id: u128)
    requires
        forall|i: int| 0 <= i < app.tasks.len() ==> (#[trigger] app.tasks[i]).id != id,
    ensures
        !goes_on(app, id),
        !can_be_paused(app, id),
        !can_be_resumed(app, id),
        selection(app, Some(id)) is None,
        saved_path(app, id) is None,
        with_task(app, id, paused()) == app,
        with_task(app, id, resumed()) == app,
        without_task(app, id) == app,
{
    lemma_no_task(app, id);
    lemma_first_is(app.tasks, is_task(id), app.tasks.len() as int);
    lemma_filter_all(app.tasks, is_other_task(id));
}

proof fn lemma_filter_all<A>(list: Seq<A>, wanted: spec_fn(A) -> bool)
    requires
        forall|i: int| 0 <= i < list.len() ==> wanted(#[trigger] list[i]),
    ensures
        list.filter(wanted) == list,
    decreases list.len(),
{
    reveal(Seq::filter);
    if list.len() > 0 {
        lemma_filter_all(list.drop_last(), wanted);
        assert(list.drop_last().push(list.last()) =~= list);
    }
}

proof fn lemma_filter_push<A>(list: Seq<A>, wanted: spec_fn(A) -> bool, x: A)
    ensures
        list.push(x).filter(wanted) == (if wanted(x) {
            list.filter(wanted).push(x)
        } else {
            list.filter(wanted)
        }),
{
    reveal(Seq::filter);
    assert(list.push(x).drop_last() =~= list);
}

/// One list holds what is completed, the other all the rest, and each new download adds one to
/// the count of its list.
pub proof fn law_downloads_are_counted_in_their_list(
    app: AppStateView,
    task: DownloadTaskView,
    completed_only: bool,
)
    ensures
        app.tasks.filter(is_listed(completed_only)).contains(task) <==> app.tasks.contains(task) && (
        completed_only <==> task.status is Completed),
        listed_count(AppStateView { tasks: app.tasks.push(task), ..app }, completed_only)
            == listed_count(app, completed_only) + (if completed_only <==> task.status
            is Completed {
            1int
        } else {
            0int
        }),
        app.tasks.len() == 0 ==> listed_count(app, completed_only) == 0,
{
    lemma_filter_contains(app.tasks, is_listed(completed_only), task);
    lemma_filter_push(app.tasks, is_listed(completed_only), task);
    reveal(Seq::filter);
}

/// What was found keeps its order when the list is left: an item more at the end is one more at
/// the end afterwards if it is being downloaded, and none if it is not.
pub proof fn law_leaving_keeps_the_order(app: AppStateView, item: MediaItemView)
    ensures
        ({
            let longer = cleared(AppStateView { detected: app.detected.push(item), ..app });
            &&& (exists|i: int|
                0 <= i < app.tasks.len() && (#[trigger] app.tasks[i]).media_id == item.id)
                ==> longer.detected == cleared(app).detected.push(item)
            &&& (forall|i: int|
                0 <= i < app.tasks.len() ==> (#[trigger] app.tasks[i]).media_id != item.id)
                ==> longer.detected == cleared(app).detected
        }),
{
    lemma_filter_push(app.detected, is_taken_up(app.tasks), item);
}

/// The downloads keep their order when one of them is removed.
pub proof fn law_removing_keeps_the_order(app: AppStateView, task: DownloadTaskView, id: u128)
    ensures
        ({
            let longer = without_task(AppStateView { tasks: app.tasks.push(task), ..app }, id);
            &&& task.id != id ==> longer.tasks == without_task(app, id).tasks.push(task)
            &&& task.id == id ==> longer.tasks == without_task(app, id).tasks
        }),
{
    lemma_filter_push(app.tasks, is_other_task(id), task);
}

/// The items keep their order when one of them is taken up.
pub proof fn law_taking_up_keeps_the_order(
    app: AppStateView,
    item: MediaItemView,
    id: u128,
    other: MediaItemView,
)
    ensures
        ({
            let longer = taken_up(
                AppStateView { detected: app.detected.push(other), ..app },
                item,
                id,
            );
            &&& other.id != item.id ==> longer.detected == taken_up(app, item, id).detected.push(
                other,
            )
            &&& other.id == item.id ==> longer.detected == taken_up(app, item, id).detected
        }),
{
    lemma_filter_push(app.detected, is_other_media(item.id), other);
}

/// What stands in place of a missing record.
pub proof fn law_missing_records_are_explained(status: DownloadStatus)
    ensures
        status is Completed ==> recordless(status)
            == "任务已完成，临时分片记录已清理。"@,
        !(status is Completed) ==> recordless(status)
            == "任务开始分片下载后会生成临时记录。"@,
{
}

/// A text that fits is shown whole. Of a longer one the first characters are shown, with three
/// dots behind.
pub proof fn law_long_texts_are_cut(text: Seq<char>, rest: Seq<char>, most: nat)
    requires
        rest.len() > 0,
        text.len() == most,
    ensures
        compact(text, most) == text,
        compact(text + rest, most) == text + "..."@,
        compact(text, most + rest.len()) == text,
{
    assert((text + rest).take(most as int) =~= text);
}

/// The time of day is shown as hours, minutes and seconds, two digits each.
pub proof fn law_times_are_shown_to_the_second(
    day: int,
    hour: nat,
    minute: nat,
    second: nat,
    rest: nat,
    at: i64,
)
    requires
        hour < 24,
        minute < 60,
        second < 60,
        rest < 1000,
        at == day * 86_400_000 + hour * 3_600_000 + minute * 60_000 + second * 1000 + rest,
    ensures
        clock(at).len() == 8,
        clock(at)[2] == ':' && clock(at)[5] == ':',
        clock(at)[0] as int == '0' as int + hour / 10,
        clock(at)[1] as int == '0' as int + hour % 10,
        clock(at)[3] as int == '0' as int + minute / 10,
        clock(at)[4] as int == '0' as int + minute % 10,
        clock(at)[6] as int == '0' as int + second / 10,
        clock(at)[7] as int == '0' as int + second % 10,
{
    reveal_strlit(":");
    let in_day: int = hour as int * 3_600_000 + minute as int * 60_000 + second as int * 1000
        + rest as int;
    assert(at as int % 86_400_000 == in_day) by {
        vstd::arithmetic::div_mod::lemma_fundamental_div_mod_converse(
            at as int,
            86_400_000,
            day,
            in_day,
        );
    }
    let seconds = hour * 3600 + minute * 60 + second;
    assert(in_day / 1000 == seconds);
    assert(seconds / 3600 == hour);
    assert(seconds / 60 % 60 == minute);
    assert(seconds % 60 == second);
}

/// Whether the first item of an identity stands at a place in the list of what was found.
pub open spec fn is_found_at(app: AppStateView, id: u128, k: int) -> bool {
    &&& 0 <= k < app.detected.len()
    &&& app.detected[k].id == id
    &&& forall|i: int| 0 <= i < k ==> (#[trigger] app.detected[i]).id != id
}

proof fn lemma_item_at(
    app: AppStateView,
    id: u128,
    k: int,
    change: spec_fn(MediaItemView) -> MediaItemView,
)
    requires
        is_found_at(app, id, k),
    ensures
        with_media(app, id, change) == (AppStateView {
            detected: app.detected.update(k, change(app.detected[k])),
            ..app
        }),
{
    assert forall|i: int| 0 <= i < k implies !is_media(id)(#[trigger] app.detected[i]) by {
        assert(app.detected[i].id != id);
    }
    lemma_first_is(app.detected, is_media(id), k);
}

/// The playlist of a stream in segments is asked for at the address of the stream, with the
/// headers that came with it. Of other media no playlist is asked for.
pub proof fn law_playlists_are_asked_for_as_reported(app: AppStateView, id: u128, k: int)
    requires
        0 <= k <= app.detected.len(),
        forall|i: int|
            0 <= i < k ==> (#[trigger] app.detected[i]).id != id || !(app.detected[i].media_type
                is Hls),
        k < app.detected.len() ==> app.detected[k].id == id && app.detected[k].media_type is Hls,
    ensures
        k < app.detected.len() ==> playlist_request(app, id) == Some(
            (app.detected[k].url, app.detected[k].headers),
        ),
        k == app.detected.len() ==> playlist_request(app, id) is None,
{
    assert forall|i: int| 0 <= i < k implies !is_hls(id)(#[trigger] app.detected[i]) by {
        assert(app.detected[i].id != id || !(app.detected[i].media_type is Hls));
    }
    lemma_first_is(app.detected, is_hls(id), k);
}

/// A remark is put beside the item it is about, and nothing else changes.
pub proof fn law_remarks_stand_beside_their_item(
    app: AppStateView,
    id: u128,
    k: int,
    message: Seq<char>,
)
    requires
        is_found_at(app, id, k),
    ensures
        with_media(app, id, remarked(message)).detected == app.detected.update(
            k,
            MediaItemView { hls_status: Some(message), ..app.detected[k] },
        ),
        with_media(app, id, remarked(message)).tasks == app.tasks,
        with_media(app, id, remarked(message)).settings == app.settings,
        with_media(app, id, remarked(message)).pending_audio == app.pending_audio,
{
    lemma_item_at(app, id, k, remarked(message));
}

/// A playlist that offers no qualities leaves the item with a remark.
pub proof fn law_one_quality_is_remarked(
    app: AppStateView,
    id: u128,
    k: int,
    playlist: HlsPlaylistView,
)
    requires
        is_found_at(app, id, k),
        playlist.variants.len() == 0,
    ensures
        analyzed(app, id, playlist) == (AppStateView {
            detected: app.detected.update(
                k,
                MediaItemView { hls_status: Some("单清晰度 HLS"@), ..app.detected[k] },
            ),
            ..app
        }),
{
    lemma_item_at(app, id, k, remarked("单清晰度 HLS"@));
}

/// The qualities that a playlist offers are offered with the item, the best one first, and that
/// one is chosen.
pub proof fn law_qualities_are_offered_best_first(
    app: AppStateView,
    id: u128,
    k: int,
    playlist: HlsPlaylistView,
    at: int,
)
    requires
        is_found_at(app, id, k),
        0 <= at < playlist.variants.len(),
    ensures
        ({
            let after = analyzed(app, id, playlist);
            let item = after.detected[k];
            &&& after.detected == app.detected.update(k, item)
            &&& after.tasks == app.tasks
            &&& after.settings == app.settings
            &&& after.pending_audio == app.pending_audio
            &&& item.hls_variants.len() == playlist.variants.len()
            &&& item.hls_variants.to_multiset() == playlist.variants.to_multiset()
            &&& playlist.variants[at].bandwidth is Some && playlist.variants[at].bandwidth->0 > 0
                ==> {
                &&& item.hls_variants[0].bandwidth is Some
                &&& item.hls_variants[0].bandwidth->0 >= playlist.variants[at].bandwidth->0
            }
            &&& item.selected_hls_variant_url == Some(item.hls_variants[0].url)
            &&& item.hls_status == Some(
                "已发现 "@ + decimal(playlist.variants.len()) + " 个清晰度，默认最高码率"@,
            )
            &&& item == (MediaItemView {
                hls_variants: item.hls_variants,
                selected_hls_variant_url: item.selected_hls_variant_url,
                hls_status: item.hls_status,
                ..app.detected[k]
            })
        }),
{
    let list = playlist.variants;
    lemma_item_at(app, id, k, offering(list));
    law_ranked_keeps_all(list);
    law_first_ranked_is_highest(list, at);
    list.to_multiset_ensures();
    ranked(list).to_multiset_ensures();
}

/// A quality that is chosen is the one that will be downloaded.
pub proof fn law_the_chosen_quality_is_kept(app: AppStateView, id: u128, k: int, url: Seq<char>)
    requires
        is_found_at(app, id, k),
    ensures
        with_media(app, id, choosing(url)) == (AppStateView {
            detected: app.detected.update(
                k,
                MediaItemView {
                    selected_hls_variant_url: Some(url),
                    hls_status: Some("已切换清晰度"@),
                    ..app.detected[k]
                },
            ),
            ..app
        }),
        app.detected[k].media_type is Hls ==> download_url(
            with_media(app, id, choosing(url)).detected[k],
        ) == url,
{
    lemma_item_at(app, id, k, choosing(url));
}

/// Nothing changes for an item that is not there.
pub proof fn law_unknown_items_do_nothing(
    app: AppStateView,
    id: u128,
    playlist: HlsPlaylistView,
    text: Seq<char>,
)
    requires
        forall|i: int| 0 <= i < app.detected.len() ==> (#[trigger] app.detected[i]).id != id,
    ensures
        analyzed(app, id, playlist) == app,
        with_media(app, id, remarked(text)) == app,
        with_media(app, id, choosing(text)) == app,
{
    lemma_first_is(app.detected, is_media(id), app.detected.len() as int);
}

/// Under the name of which quality an item is shown: of the one that is chosen, where it is on
/// offer, and of the first where none is chosen.
pub proof fn law_the_label_is_of_the_chosen_quality(item: MediaItemView, k: int)
    requires
        0 <= k < item.hls_variants.len(),
        forall|i: int|
            0 <= i < k ==> (#[trigger] item.hls_variants[i]).url != item.hls_variants[k].url,
    ensures
        item.selected_hls_variant_url == Some(item.hls_variants[k].url) ==> chosen_label(item)
            == variant_label(item.hls_variants[k]),
        item.selected_hls_variant_url is None ==> chosen_label(item) == variant_label(
            item.hls_variants[0],
        ),
        labels_of(item.hls_variants).len() == item.hls_variants.len(),
        labels_of(item.hls_variants)[k] == variant_label(item.hls_variants[k]),
{
    let url = item.hls_variants[k].url;
    assert forall|i: int| 0 <= i < k implies !is_at(url)(#[trigger] item.hls_variants[i]) by {
        assert(item.hls_variants[i].url != url);
    }
    lemma_first_is(item.hls_variants, is_at(url), k);
    lemma_first_is(item.hls_variants, is_at(item.hls_variants[0].url), 0);
}

/// Which quality of an item is marked: the one that was chosen, and else the first on offer.
pub proof fn law_the_first_quality_is_marked_until_one_is_chosen(item: MediaItemView)
    ensures
        item.selected_hls_variant_url is Some ==> chosen_url(item)
            == item.selected_hls_variant_url,
        item.selected_hls_variant_url is None && item.hls_variants.len() > 0 ==> chosen_url(item)
            == Some(item.hls_variants[0].url),
        item.selected_hls_variant_url is None && item.hls_variants.len() == 0 ==> chosen_url(item)
            is None,
{
}

/// A choice that is not on offer, and an item without qualities, are shown as automatic.
pub proof fn law_other_choices_are_automatic(item: MediaItemView)
    ensures
        item.selected_hls_variant_url is Some && (forall|i: int|
            0 <= i < item.hls_variants.len() ==> (#[trigger] item.hls_variants[i]).url
                != item.selected_hls_variant_url->0) ==> chosen_label(item) == "自动最高码率"@,
        item.selected_hls_variant_url is None && item.hls_variants.len() == 0 ==> chosen_label(item)
            == "自动最高码率"@,
{
    if let Some(url) = item.selected_hls_variant_url {
        if forall|i: int|
            0 <= i < item.hls_variants.len() ==> (#[trigger] item.hls_variants[i]).url != url {
            assert forall|i: int| 0 <= i < item.hls_variants.len() implies !is_at(url)(
                #[trigger] item.hls_variants[i],
            ) by {
                assert(item.hls_variants[i].url != url);
            }
            lemma_first_is(item.hls_variants, is_at(url), item.hls_variants.len() as int);
        }
    }
}

} // verus!
