//! What holds of everything that the windows show, and of all that is done in them.

use crate::downloader::{is_task, with_task};
use crate::downloader_laws::progress_is_bounded;
use crate::lists::{first_where, lemma_first_is, lemma_first_where};
use crate::manifest::{bounds, done_parts, items_in, kind_of, part_total, summary_of, SHOWN};
use crate::net::{MOST_ATTEMPTS, MOST_DOUBLINGS};
use crate::outside::Json;
use crate::panel::{
    cleared, compact, draft_of, is_listed, is_other_media, is_other_task, is_taken_up, paused,
    resumed, saved, taken_up, SettingsDraftView,
};
use crate::state::{
    default_settings, AppStateView, DownloadStatus, DownloadTaskView, MediaItemView, SettingsView,
};
use crate::text::{is_space, trimmed, without_leading_space, without_trailing_space};
use vstd::prelude::*;

verus! {

proof fn lemma_leading(text: Seq<char>)
    ensures
        without_leading_space(text).len() > 0 ==> !is_space(without_leading_space(text)[0]),
    decreases text.len(),
{
    if text.len() > 0 && is_space(text[0]) {
        lemma_leading(text.drop_first());
    }
}

proof fn lemma_trailing(text: Seq<char>)
    ensures
        without_trailing_space(text).is_prefix_of(text),
        without_trailing_space(text).len() > 0 ==> !is_space(without_trailing_space(text).last()),
    decreases text.len(),
{
    if text.len() > 0 && is_space(text.last()) {
        lemma_trailing(text.drop_last());
        assert(text.drop_last() =~= text.take(text.len() - 1));
    }
}

/// A trimmed text has no white space at its ends, and trimming it again changes nothing.
pub proof fn law_trimming_once_is_enough(text: Seq<char>)
    ensures
        trimmed(trimmed(text)) == trimmed(text),
        trimmed(text).len() > 0 ==> !is_space(trimmed(text)[0]) && !is_space(trimmed(text).last()),
{
    let body = without_leading_space(text);
    let core = trimmed(text);
    lemma_leading(text);
    lemma_trailing(body);
    if core.len() > 0 {
        assert(core[0] == body[0]);
    }
    assert(without_leading_space(core) == core);
    assert(without_trailing_space(core) == core);
}

/// Whether settings are ones that can be saved.
pub open spec fn settings_in_bounds(settings: SettingsView) -> bool {
    &&& 1 <= settings.max_tasks <= 16
    &&& 1 <= settings.part_threads <= 64
    &&& 1 <= settings.min_media_size_mb <= 1024
    &&& 1 <= settings.request_retry_attempts <= 20
    &&& 1 <= settings.part_retry_attempts <= 50
    &&& trimmed(settings.save_dir) == settings.save_dir
}

/// Whatever is saved, the settings are in their bounds, and the port is kept.
pub proof fn law_saved_settings_are_in_bounds(settings: SettingsView, draft: SettingsDraftView)
    ensures
        settings_in_bounds(saved(settings, draft)),
        saved(settings, draft).listen_port == settings.listen_port,
{
    law_trimming_once_is_enough(draft.save_dir);
}

/// Settings in their bounds that are opened and saved are kept as they are.
pub proof fn law_saving_untouched_settings_keeps_them(settings: SettingsView)
    requires
        settings_in_bounds(settings),
    ensures
        saved(settings, draft_of(settings)) == settings,
{
}

/// The settings at the first start are in their bounds.
pub proof fn law_first_settings_are_in_bounds(save_dir: Seq<char>)
    requires
        trimmed(save_dir) == save_dir,
    ensures
        settings_in_bounds(default_settings(save_dir)),
{
}

/// With settings in their bounds, 64 bits hold every wait between two attempts.
pub proof fn law_allowed_attempts_can_be_made(settings: SettingsView, attempt: usize)
    requires
        settings_in_bounds(settings),
        1 <= attempt,
        attempt <= settings.request_retry_attempts || attempt <= settings.part_retry_attempts,
    ensures
        settings.request_retry_attempts <= MOST_ATTEMPTS,
        settings.part_retry_attempts <= MOST_ATTEMPTS,
        attempt - 1 <= MOST_DOUBLINGS,
{
}

proof fn lemma_kept<A>(list: Seq<A>, wanted: spec_fn(A) -> bool)
    ensures
        forall|x: A| list.filter(wanted).contains(x) <==> list.contains(x) && wanted(x),
        list.filter(wanted).len() <= list.len(),
    decreases list.len(),
{
    reveal_with_fuel(Seq::filter, 1);
    let kept = list.filter(wanted);
    if list.len() > 0 {
        let rest = list.drop_last();
        let last = list.last();
        lemma_kept(rest, wanted);
        assert(list =~= rest.push(last));
        assert forall|x: A| kept.contains(x) <==> list.contains(x) && wanted(x) by {
            if list.contains(x) {
                let i = choose|i: int| 0 <= i < list.len() && list[i] == x;
                if i < rest.len() {
                    assert(rest[i] == x);
                }
            }
            if rest.contains(x) {
                let i = choose|i: int| 0 <= i < rest.len() && rest[i] == x;
                assert(list[i] == x);
            }
            if wanted(last) {
                let before = rest.filter(wanted);
                assert(kept =~= before.push(last));
                if before.contains(x) {
                    let i = choose|i: int| 0 <= i < before.len() && before[i] == x;
                    assert(kept[i] == x);
                }
                if kept.contains(x) {
                    let i = choose|i: int| 0 <= i < kept.len() && kept[i] == x;
                    if i < before.len() {
                        assert(before[i] == x);
                    }
                }
                if x == last {
                    assert(kept[before.len() as int] == x);
                    assert(list[list.len() - 1] == x);
                }
            }
        }
    }
}

/// Leaving the sniffing window forgets the items that no download is of, and no others.
pub proof fn law_leaving_forgets_what_is_not_downloaded(app: AppStateView, item: MediaItemView)
    ensures
        cleared(app).detected.contains(item) <==> app.detected.contains(item) && is_taken_up(
            app.tasks,
        )(item),
        cleared(app).tasks == app.tasks,
        cleared(app).pending_audio == app.pending_audio,
        cleared(app).settings == app.settings,
{
    lemma_kept(app.detected, is_taken_up(app.tasks));
}

/// With no downloads, leaving the sniffing window forgets every item.
pub proof fn law_leaving_without_downloads_forgets_all(app: AppStateView)
    requires
        app.tasks.len() == 0,
    ensures
        cleared(app).detected.len() == 0,
{
    lemma_kept(app.detected, is_taken_up(app.tasks));
    let kept = cleared(app).detected;
    if kept.len() > 0 {
        assert(kept.contains(kept[0]));
    }
}

/// An item that was taken up is among the downloads and no longer among the items seen;
/// the other items stay.
pub proof fn law_taken_up_items_move_to_the_downloads(
    app: AppStateView,
    item: MediaItemView,
    id: u128,
    other: MediaItemView,
)
    ensures
        taken_up(app, item, id).tasks.last().media_id == item.id,
        taken_up(app, item, id).tasks.drop_last() == app.tasks,
        taken_up(app, item, id).detected.contains(other) <==> app.detected.contains(other)
            && other.id != item.id,
{
    lemma_kept(app.detected, is_other_media(item.id));
    assert(taken_up(app, item, id).tasks.drop_last() =~= app.tasks);
}

/// A removed download is no longer listed; the others are.
pub proof fn law_removed_downloads_are_gone(
    tasks: Seq<DownloadTaskView>,
    id: u128,
    task: DownloadTaskView,
)
    ensures
        tasks.filter(is_other_task(id)).contains(task) <==> tasks.contains(task) && task.id != id,
{
    lemma_kept(tasks, is_other_task(id));
}

/// Every download is in one of the two lists, and in one only.
pub proof fn law_the_two_lists_share_the_downloads(
    tasks: Seq<DownloadTaskView>,
    task: DownloadTaskView,
)
    ensures
        tasks.filter(is_listed(true)).len() + tasks.filter(is_listed(false)).len() == tasks.len(),
        tasks.contains(task) ==> (tasks.filter(is_listed(true)).contains(task) <==> !tasks.filter(
            is_listed(false),
        ).contains(task)),
    decreases tasks.len(),
{
    reveal_with_fuel(Seq::filter, 1);
    lemma_kept(tasks, is_listed(true));
    lemma_kept(tasks, is_listed(false));
    if tasks.len() > 0 {
        law_the_two_lists_share_the_downloads(tasks.drop_last(), task);
    }
}

/// A download that was paused can be taken up again; what has come of it is kept, and no
/// other download is touched.
pub proof fn law_paused_downloads_can_be_resumed(app: AppStateView, id: u128)
    requires
        first_where(app.tasks, is_task(id)) < app.tasks.len(),
        app.tasks[first_where(app.tasks, is_task(id))].status == DownloadStatus::Downloading,
    ensures
        ({
            let at = first_where(app.tasks, is_task(id));
            let stopped = with_task(app, id, paused());
            let again = with_task(stopped, id, resumed());
            &&& stopped.tasks[at].status == DownloadStatus::Paused
            &&& stopped.tasks[at].downloaded_bytes == app.tasks[at].downloaded_bytes
            &&& again.tasks[at] == (DownloadTaskView {
                status: DownloadStatus::Queued,
                message: "等待下载"@,
                ..app.tasks[at]
            })
            &&& again.tasks == app.tasks.update(at, again.tasks[at])
        }),
{
    let at = first_where(app.tasks, is_task(id));
    lemma_first_where(app.tasks, is_task(id));
    let stopped = with_task(app, id, paused());
    assert forall|k: int| 0 <= k < at implies !is_task(id)(#[trigger] stopped.tasks[k]) by {
        assert(stopped.tasks[k] == app.tasks[k]);
    }
    lemma_first_is(stopped.tasks, is_task(id), at);
    let again = with_task(stopped, id, resumed());
    assert(again.tasks =~= app.tasks.update(at, again.tasks[at]));
}

/// What is done cannot be paused or taken up again.
pub proof fn law_completed_downloads_are_left_alone(app: AppStateView, id: u128)
    requires
        first_where(app.tasks, is_task(id)) < app.tasks.len(),
        app.tasks[first_where(app.tasks, is_task(id))].status == DownloadStatus::Completed,
    ensures
        with_task(app, id, paused()) == app,
        with_task(app, id, resumed()) == app,
{
    lemma_first_where(app.tasks, is_task(id));
    assert(with_task(app, id, paused()).tasks =~= app.tasks);
    assert(with_task(app, id, resumed()).tasks =~= app.tasks);
}

/// Pausing a download and taking it up again keeps the progress of every download between
/// nothing and everything.
pub proof fn law_pausing_keeps_progress_bounded(app: AppStateView, id: u128)
    requires
        progress_is_bounded(app),
    ensures
        progress_is_bounded(with_task(app, id, paused())),
        progress_is_bounded(with_task(app, id, resumed())),
{
    lemma_first_where(app.tasks, is_task(id));
}

/// A text cut short is no longer than was asked for, the dots aside, and begins as the
/// text does.
pub proof fn law_short_texts_are_short(text: Seq<char>, most: nat)
    ensures
        compact(text, most).len() <= most + 3,
        text.len() <= most ==> compact(text, most) == text,
        text.len() > most ==> text.take(most as int).is_prefix_of(compact(text, most)),
{
    reveal_strlit("...");
    if text.len() > most {
        assert(compact(text, most).take(most as int) =~= text.take(most as int));
    }
}

proof fn lemma_done_len(parts: Seq<Json>)
    ensures
        done_parts(parts).len() <= parts.len(),
    decreases parts.len(),
{
    if parts.len() > 0 {
        lemma_done_len(parts.drop_last());
    }
}

/// No more than so many lines of a record are shown.
pub proof fn law_records_are_shown_in_short(json: Json)
    ensures
        summary_of(json).preview_lines.len() <= SHOWN,
{
}

/// No more parts are counted as done than a record holds.
pub proof fn law_done_parts_are_recorded(json: Json)
    ensures
        summary_of(json).completed_parts <= (if kind_of(json) == "Hls"@ {
            items_in(json, "hls_parts"@).len()
        } else {
            items_in(json, "range_parts"@).len()
        }),
{
    let parts = if kind_of(json) == "Hls"@ {
        items_in(json, "hls_parts"@)
    } else {
        items_in(json, "range_parts"@)
    };
    lemma_done_len(parts);
    let done = done_parts(parts);
    Seq::new(done.len(), |i: int| bounds(done[i])).lemma_cardinality_of_set();
}

/// Of the segments of a record, those done and those left make up the total.
pub proof fn law_done_and_left_make_the_total(json: Json)
    requires
        kind_of(json) == "Hls"@,
        part_total(json) is Some,
        summary_of(json).completed_parts <= part_total(json)->0,
    ensures
        summary_of(json).pending_parts is Some,
        summary_of(json).completed_parts + summary_of(json).pending_parts->0 == part_total(
            json,
        )->0,
{
}

} // verus!
