//! What the windows show and what the user does in them.

use crate::downloader::{enqueue_download, enqueued, find_task, is_task, with_task};
use crate::lists::{as_list, as_queue, each, first_where, keep_where, lemma_first_where, maybe};
use crate::outside::is_random_uuid;
use crate::state::{
    AppState, AppStateView, DownloadStatus, DownloadTask, DownloadTaskView, MediaItem,
    MediaItemView, MediaType, Settings, SettingsView,
};
use crate::text::{digit, trim, trimmed};
use std::collections::VecDeque;
use vstd::prelude::*;

verus! {

/// The windows that can be shown.
#[derive(Clone, Copy, Debug, PartialEq, Eq, Structural)]
pub enum AppView {
    Sniffing,
    Downloading,
    Completed,
}

/// The settings as the user edits them.
#[derive(Debug)]
pub struct SettingsDraft {
    pub save_dir: String,
    pub max_tasks: usize,
    pub part_threads: usize,
    pub min_media_size_mb: u64,
    pub request_retry_attempts: usize,
    pub part_retry_attempts: usize,
}

#[verifier::ext_equal]
pub struct SettingsDraftView {
    pub save_dir: Seq<char>,
    pub max_tasks: usize,
    pub part_threads: usize,
    pub min_media_size_mb: u64,
    pub request_retry_attempts: usize,
    pub part_retry_attempts: usize,
}

impl View for SettingsDraft {
    type V = SettingsDraftView;

    open spec fn view(&self) -> SettingsDraftView {
        SettingsDraftView {
            save_dir: self.save_dir@,
            max_tasks: self.max_tasks,
            part_threads: self.part_threads,
            min_media_size_mb: self.min_media_size_mb,
            request_retry_attempts: self.request_retry_attempts,
            part_retry_attempts: self.part_retry_attempts,
        }
    }
}

/// The number in the given bounds that is nearest to another.
pub open spec fn within(n: int, least: int, most: int) -> int {
    if n < least {
        least
    } else if n > most {
        most
    } else {
        n
    }
}

fn clamp(n: usize, least: usize, most: usize) -> (r: usize)
    ensures
        r == within(n as int, least as int, most as int),
{
    if n < least {
        least
    } else if n > most {
        most
    } else {
        n
    }
}

/// The settings as they are offered for editing.
pub open spec fn draft_of(settings: SettingsView) -> SettingsDraftView {
    SettingsDraftView {
        save_dir: settings.save_dir,
        max_tasks: settings.max_tasks,
        part_threads: settings.part_threads,
        min_media_size_mb: settings.min_media_size_mb,
        request_retry_attempts: settings.request_retry_attempts,
        part_retry_attempts: settings.part_retry_attempts,
    }
}

/// The settings after a draft was saved: each number in its bounds, the port kept.
pub open spec fn saved(settings: SettingsView, draft: SettingsDraftView) -> SettingsView {
    SettingsView {
        save_dir: trimmed(draft.save_dir),
        max_tasks: within(draft.max_tasks as int, 1, 16) as usize,
        part_threads: within(draft.part_threads as int, 1, 64) as usize,
        min_media_size_mb: within(draft.min_media_size_mb as int, 1, 1024) as u64,
        listen_port: settings.listen_port,
        request_retry_attempts: within(draft.request_retry_attempts as int, 1, 20) as usize,
        part_retry_attempts: within(draft.part_retry_attempts as int, 1, 50) as usize,
    }
}

impl SettingsDraft {
    /// The settings as they are offered for editing.
    pub fn from_settings(settings: &Settings) -> (r: SettingsDraft)
        ensures
            r@ == draft_of(settings@),
    {
        SettingsDraft {
            save_dir: settings.save_dir.clone(),
            max_tasks: settings.max_tasks,
            part_threads: settings.part_threads,
            min_media_size_mb: settings.min_media_size_mb,
            request_retry_attempts: settings.request_retry_attempts,
            part_retry_attempts: settings.part_retry_attempts,
        }
    }

    /// Makes the draft the settings.
    pub fn save_settings(&self, app: &mut AppState)
        ensures
            final(app)@ == (AppStateView {
                settings: saved(old(app)@.settings, self@),
                ..old(app)@
            }),
    {
        app.settings.save_dir = trim(self.save_dir.as_str()).to_string();
        app.settings.max_tasks = clamp(self.max_tasks, 1, 16);
        app.settings.part_threads = clamp(self.part_threads, 1, 64);
        app.settings.min_media_size_mb = if self.min_media_size_mb < 1 {
            1
        } else if self.min_media_size_mb > 1024 {
            1024
        } else {
            self.min_media_size_mb
        };
        app.settings.request_retry_attempts = clamp(self.request_retry_attempts, 1, 20);
        app.settings.part_retry_attempts = clamp(self.part_retry_attempts, 1, 50);
    }
}

/// What the user does in the settings window.
#[derive(Clone, Copy, Debug, PartialEq, Eq, Structural)]
pub enum SettingsClick {
    Nothing,
    Save,
    Cancel,
    Close,
}

/// The state, and whether the window for settings stays open, after a click in it: saving takes
/// the draft over, and every click closes it.
pub open spec fn settings_followed(
    app: AppStateView,
    draft: SettingsDraftView,
    open: bool,
    click: SettingsClick,
) -> (AppStateView, bool) {
    (
        if open && click == SettingsClick::Save {
            AppStateView { settings: saved(app.settings, draft), ..app }
        } else {
            app
        },
        open && click == SettingsClick::Nothing,
    )
}

/// Follows what the user does in the settings window, and says whether it stays open:
/// saving takes over the draft and closes it, cancelling and closing only close it.
pub fn follow_settings(app: &mut AppState, draft: &SettingsDraft, open: bool, click: SettingsClick)
    -> (r: bool)
    ensures
        (final(app)@, r) == settings_followed(old(app)@, draft@, open, click),
{
    if open && click == SettingsClick::Save {
        draft.save_settings(app);
    }
    open && click == SettingsClick::Nothing
}

/// Whether an item is the medium of one of the downloads.
pub open spec fn is_taken_up(tasks: Seq<DownloadTaskView>) -> spec_fn(MediaItemView) -> bool {
    |item: MediaItemView|
        exists|i: int| 0 <= i < tasks.len() && (#[trigger] tasks[i]).media_id == item.id
}

/// The state without the items that no download is of.
pub open spec fn cleared(app: AppStateView) -> AppStateView {
    AppStateView { detected: app.detected.filter(is_taken_up(app.tasks)), ..app }
}

fn is_of_a_task(tasks: &Vec<DownloadTask>, id: u128) -> (r: bool)
    ensures
        r == exists|i: int| 0 <= i < tasks@.len() && (#[trigger] each(tasks@)[i]).media_id == id,
{
    let mut i: usize = 0;
    while i < tasks.len()
        invariant
            i <= tasks.len(),
            forall|k: int| 0 <= k < i ==> (#[trigger] each(tasks@)[k]).media_id != id,
        decreases tasks.len() - i,
    {
        assert(each(tasks@)[i as int] == tasks@[i as int]@);
        if tasks[i].media_id == id {
            return true;
        }
        i = i + 1;
    }
    false
}

proof fn lemma_filter_next<A>(list: Seq<A>, wanted: spec_fn(A) -> bool, at: int)
    requires
        0 <= at < list.len(),
    ensures
        list.take(at + 1).filter(wanted) == (if wanted(list[at]) {
            list.take(at).filter(wanted).push(list[at])
        } else {
            list.take(at).filter(wanted)
        }),
{
    reveal_with_fuel(Seq::filter, 1);
    assert(list.take(at + 1).drop_last() =~= list.take(at));
}

proof fn lemma_filter_none<A>(list: Seq<A>, wanted: spec_fn(A) -> bool)
    ensures
        list.take(0).filter(wanted) == Seq::<A>::empty(),
        list.take(list.len() as int) == list,
{
    reveal_with_fuel(Seq::filter, 1);
    assert(list.take(list.len() as int) =~= list);
}

/// Forgets the items that no download is of.
pub fn clear_undownloaded_detected(app: &mut AppState)
    ensures
        final(app)@ == cleared(old(app)@),
{
    let mut list: VecDeque<MediaItem> = VecDeque::new();
    std::mem::swap(&mut list, &mut app.detected);
    let tasks = &app.tasks;
    let test = |item: &MediaItem| -> (r: bool)
        ensures
            r == is_taken_up(each(tasks@))(item@),
    {
        is_of_a_task(tasks, item.id)
    };
    let kept = keep_where(list, test, Ghost(is_taken_up(each(tasks@))));
    app.detected = kept;
}

/// The state after another window was chosen: leaving the sniffing window clears it.
pub open spec fn switched(app: AppStateView, from: AppView, to: AppView) -> AppStateView {
    if from == AppView::Sniffing && to != AppView::Sniffing {
        cleared(app)
    } else {
        app
    }
}

/// Shows another window: what is left behind in the sniffing window is forgotten, unless
/// a download is of it.
pub fn switch_view(app: &mut AppState, from: AppView, to: AppView)
    ensures
        final(app)@ == switched(old(app)@, from, to),
{
    if from == AppView::Sniffing && to != AppView::Sniffing {
        clear_undownloaded_detected(app);
    }
}

/// Whether an item has another identity.
pub open spec fn is_other_media(id: u128) -> spec_fn(MediaItemView) -> bool {
    |item: MediaItemView| item.id != id
}

/// Forgets the items with the given identity.
pub fn remove_detected(app: &mut AppState, id: u128)
    ensures
        final(app)@ == (AppStateView {
            detected: old(app)@.detected.filter(is_other_media(id)),
            ..old(app)@
        }),
{
    let mut list: VecDeque<MediaItem> = VecDeque::new();
    std::mem::swap(&mut list, &mut app.detected);
    let test = |item: &MediaItem| -> (r: bool)
        ensures
            r == is_other_media(id)(item@),
    {
        item.id != id
    };
    let kept = keep_where(list, test, Ghost(is_other_media(id)));
    app.detected = kept;
}

/// The state after an item was taken up for download: the download is added and the item
/// no longer listed.
pub open spec fn taken_up(app: AppStateView, item: MediaItemView, id: u128) -> AppStateView {
    AppStateView {
        detected: app.detected.filter(is_other_media(item.id)),
        ..enqueued(app, item, id)
    }
}

/// Takes up an item for download.
pub fn take_up(app: &mut AppState, item: &MediaItem) -> (id: u128)
    ensures
        is_random_uuid(id),
        final(app)@ == taken_up(old(app)@, item@, id),
{
    let id = enqueue_download(app, item);
    remove_detected(app, item.id);
    id
}

/// Follows what the user does with an item: a click on the download button, which works for
/// media that can be downloaded, takes it up and leads to the downloads. Gives the identity
/// of the download, if there is one, and the window to show.
pub fn follow_item(app: &mut AppState, item: &MediaItem, clicked: bool, view: AppView) -> (r: (
    Option<u128>,
    AppView,
))
    ensures
        match r.0 {
            Some(id) => {
                &&& clicked && item.media_type != MediaType::Dash
                &&& is_random_uuid(id)
                &&& final(app)@ == taken_up(old(app)@, item@, id)
                &&& r.1 == AppView::Downloading
            },
            None => {
                &&& !clicked || item.media_type == MediaType::Dash
                &&& final(app)@ == old(app)@
                &&& r.1 == view
            },
        },
{
    if clicked && item.media_type.is_downloadable() {
        (Some(take_up(app, item)), AppView::Downloading)
    } else {
        (None, view)
    }
}

/// The address of an item as it is copied: all of it, however short it is shown.
pub fn address_to_copy(item: &MediaItem) -> (r: String)
    ensures
        r@ == item@.url,
{
    item.url.clone()
}

/// Whether a download has another identity.
pub open spec fn is_other_task(id: u128) -> spec_fn(DownloadTaskView) -> bool {
    |task: DownloadTaskView| task.id != id
}

/// The state without the downloads of an identity.
pub open spec fn without_task(app: AppStateView, id: u128) -> AppStateView {
    AppStateView { tasks: app.tasks.filter(is_other_task(id)), ..app }
}

/// The download that stands selected after the given one was removed.
pub open spec fn selected_without(selected: Option<u128>, id: u128) -> Option<u128> {
    if selected == Some(id) {
        None
    } else {
        selected
    }
}

/// Removes the downloads with the given identity from the list, and gives the download
/// that stays selected.
pub fn remove_task(app: &mut AppState, id: u128, selected: Option<u128>) -> (r: Option<u128>)
    ensures
        final(app)@ == without_task(old(app)@, id),
        r == selected_without(selected, id),
{
    let mut list: Vec<DownloadTask> = Vec::new();
    std::mem::swap(&mut list, &mut app.tasks);
    let test = |task: &DownloadTask| -> (r: bool)
        ensures
            r == is_other_task(id)(task@),
    {
        task.id != id
    };
    let kept = keep_where(as_queue(list), test, Ghost(is_other_task(id)));
    app.tasks = as_list(kept);
    match selected {
        Some(other) if other == id => None,
        _ => selected,
    }
}

/// The path of the file of the first download with the given identity, if it is completed.
pub open spec fn saved_path(app: AppStateView, id: u128) -> Option<Seq<char>> {
    let at = first_where(app.tasks, is_task(id));
    if at < app.tasks.len() && app.tasks[at].status == DownloadStatus::Completed {
        app.tasks[at].file_path
    } else {
        None
    }
}

/// The path of the file of a completed download.
pub fn saved_file(app: &AppState, id: u128) -> (r: Option<String>)
    ensures
        maybe(r) == saved_path(app@, id),
{
    let at = find_task(&app.tasks, id);
    if at < app.tasks.len() {
        proof {
            lemma_first_where(app@.tasks, is_task(id));
            assert(app@.tasks[at as int] == app.tasks@[at as int]@);
        }
        if app.tasks[at].status == DownloadStatus::Completed {
            return app.tasks[at].file_path.clone();
        }
    }
    None
}

/// What comes of a double click on a completed download.
#[derive(Debug)]
pub enum FileClick {
    /// The file at this path is to be opened.
    Open(String),
    /// The file is gone, and the download is no longer listed.
    Dropped,
    /// There is no such download.
    Nothing,
}

/// Follows a double click on a completed download, given whether its file exists: the file
/// is opened, or the download is removed from the list.
pub fn follow_double_click(app: &mut AppState, id: u128, exists: bool) -> (r: FileClick)
    ensures
        match r {
            FileClick::Open(path) => {
                &&& exists
                &&& saved_path(old(app)@, id) == Some(path@)
                &&& final(app)@ == old(app)@
            },
            FileClick::Dropped => {
                &&& !exists
                &&& saved_path(old(app)@, id) is Some
                &&& final(app)@ == without_task(old(app)@, id)
            },
            FileClick::Nothing => {
                &&& saved_path(old(app)@, id) is None
                &&& final(app)@ == old(app)@
            },
        },
{
    match saved_file(app, id) {
        None => FileClick::Nothing,
        Some(path) => if exists {
            FileClick::Open(path)
        } else {
            remove_task(app, id, None);
            FileClick::Dropped
        },
    }
}

/// Whether a download belongs in the list of those completed, or in that of the others.
pub open spec fn is_listed(completed_only: bool) -> spec_fn(DownloadTaskView) -> bool {
    |task: DownloadTaskView| (task.status == DownloadStatus::Completed) == completed_only
}

/// The downloads that are completed, or the others.
pub fn visible_tasks(app: &AppState, completed_only: bool) -> (r: Vec<DownloadTask>)
    ensures
        each(r@) == app@.tasks.filter(is_listed(completed_only)),
{
    let copy = app.tasks.clone();
    proof {
        assert(each(copy@) =~= each(app.tasks@));
    }
    let test = |task: &DownloadTask| -> (r: bool)
        ensures
            r == is_listed(completed_only)(task@),
    {
        (task.status == DownloadStatus::Completed) == completed_only
    };
    as_list(keep_where(as_queue(copy), test, Ghost(is_listed(completed_only))))
}

/// How much there is in each window.
#[derive(Clone, Copy, Debug, PartialEq, Eq, Structural)]
pub struct Counts {
    pub detected: usize,
    pub running: usize,
    pub completed: usize,
}

/// How many downloads belong in one of the two lists.
pub open spec fn listed_count(app: AppStateView, completed_only: bool) -> nat {
    app.tasks.filter(is_listed(completed_only)).len()
}

/// How much there is in each window.
pub fn counts(app: &AppState) -> (r: Counts)
    ensures
        r.detected == app@.detected.len(),
        r.running == listed_count(app@, false),
        r.completed == listed_count(app@, true),
{
    let ghost all = app@.tasks;
    let mut running: usize = 0;
    let mut completed: usize = 0;
    let mut i: usize = 0;
    proof {
        lemma_filter_none(all, is_listed(false));
        lemma_filter_none(all, is_listed(true));
    }
    while i < app.tasks.len()
        invariant
            i <= app.tasks.len(),
            all == each(app.tasks@),
            running + completed == i,
            running == all.take(i as int).filter(is_listed(false)).len(),
            completed == all.take(i as int).filter(is_listed(true)).len(),
        decreases app.tasks.len() - i,
    {
        proof {
            lemma_filter_next(all, is_listed(false), i as int);
            lemma_filter_next(all, is_listed(true), i as int);
            assert(all[i as int] == app.tasks@[i as int]@);
        }
        if app.tasks[i].status == DownloadStatus::Completed {
            completed = completed + 1;
        } else {
            running = running + 1;
        }
        i = i + 1;
    }
    proof {
        lemma_filter_none(all, is_listed(false));
        lemma_filter_none(all, is_listed(true));
    }
    Counts { detected: app.detected.len(), running, completed }
}

/// The first download of an identity.
pub open spec fn first_task(app: AppStateView, id: u128) -> Option<DownloadTaskView> {
    let at = first_where(app.tasks, is_task(id));
    if at < app.tasks.len() {
        Some(app.tasks[at])
    } else {
        None
    }
}

/// The download that is selected.
pub open spec fn selection(app: AppStateView, selected: Option<u128>) -> Option<DownloadTaskView> {
    match selected {
        Some(id) => first_task(app, id),
        None => None,
    }
}

/// The selected download, if it is still listed.
pub fn selected_task(app: &AppState, selected: Option<u128>) -> (r: Option<DownloadTask>)
    ensures
        maybe(r) == selection(app@, selected),
{
    match selected {
        Some(id) => {
            let at = find_task(&app.tasks, id);
            if at < app.tasks.len() {
                proof {
                    lemma_first_where(app@.tasks, is_task(id));
                }
                Some(app.tasks[at].clone())
            } else {
                None
            }
        },
        None => None,
    }
}

/// What is said of a download that has no record.
pub open spec fn recordless(status: DownloadStatus) -> Seq<char> {
    if status == DownloadStatus::Completed {
        "任务已完成，临时分片记录已清理。"@
    } else {
        "任务开始分片下载后会生成临时记录。"@
    }
}

/// What is said where a download has left no record.
pub fn missing_record_note(status: DownloadStatus) -> (r: &'static str)
    ensures
        r@ == recordless(status),
{
    if status == DownloadStatus::Completed {
        "任务已完成，临时分片记录已清理。"
    } else {
        "任务开始分片下载后会生成临时记录。"
    }
}

/// Whether a download with this status can be paused.
pub open spec fn pausable(status: DownloadStatus) -> bool {
    status == DownloadStatus::Queued || status == DownloadStatus::Downloading
}

/// Whether a download with this status can be taken up again.
pub open spec fn resumable(status: DownloadStatus) -> bool {
    status == DownloadStatus::Paused || status == DownloadStatus::Failed || status
        == DownloadStatus::Queued
}

/// Whether a download with this status can be paused.
pub fn can_pause(status: DownloadStatus) -> (r: bool)
    ensures
        r == pausable(status),
{
    status == DownloadStatus::Queued || status == DownloadStatus::Downloading
}

/// Whether a download with this status can be taken up again.
pub fn can_resume(status: DownloadStatus) -> (r: bool)
    ensures
        r == resumable(status),
{
    status == DownloadStatus::Paused || status == DownloadStatus::Failed || status
        == DownloadStatus::Queued
}

/// A download after the user has paused it, if it could be paused.
pub open spec fn paused() -> spec_fn(DownloadTaskView) -> DownloadTaskView {
    |task: DownloadTaskView|
        if pausable(task.status) {
            DownloadTaskView { status: DownloadStatus::Paused, message: "已暂停"@, ..task }
        } else {
            task
        }
}

/// A download after the user has taken it up again, if it could be: it waits to go on, and
/// what has come of it is kept.
pub open spec fn resumed() -> spec_fn(DownloadTaskView) -> DownloadTaskView {
    |task: DownloadTaskView|
        if resumable(task.status) {
            DownloadTaskView {
                status: DownloadStatus::Queued,
                message: "等待下载"@,
                ..task
            }
        } else {
            task
        }
}

/// Whether there is a download of an identity that can be paused.
pub open spec fn can_be_paused(app: AppStateView, id: u128) -> bool {
    first_task(app, id) matches Some(task) && pausable(task.status)
}

/// Whether there is a download of an identity that can be taken up again.
pub open spec fn can_be_resumed(app: AppStateView, id: u128) -> bool {
    first_task(app, id) matches Some(task) && resumable(task.status)
}

/// Pauses a download, if it can be paused, and says whether it was.
pub fn pause_download(app: &mut AppState, id: u128) -> (r: bool)
    ensures
        final(app)@ == with_task(old(app)@, id, paused()),
        r == can_be_paused(old(app)@, id),
{
    let at = find_task(&app.tasks, id);
    let mut changed = false;
    if at < app.tasks.len() {
        assert(app@.tasks[at as int] == app.tasks@[at as int]@);
        proof {
            lemma_first_where(app@.tasks, is_task(id));
        }
        if can_pause(app.tasks[at].status) {
            app.tasks[at].status = DownloadStatus::Paused;
            app.tasks[at].message = "已暂停".to_string();
            changed = true;
        }
    }
    proof {
        assert(final(app)@.tasks =~= with_task(old(app)@, id, paused()).tasks);
    }
    changed
}

/// Takes a download up again, if it can be, and says whether it was: it then waits to go on.
pub fn resume_download(app: &mut AppState, id: u128) -> (r: bool)
    ensures
        final(app)@ == with_task(old(app)@, id, resumed()),
        r == can_be_resumed(old(app)@, id),
{
    let at = find_task(&app.tasks, id);
    let mut changed = false;
    if at < app.tasks.len() {
        assert(app@.tasks[at as int] == app.tasks@[at as int]@);
        proof {
            lemma_first_where(app@.tasks, is_task(id));
        }
        if can_resume(app.tasks[at].status) {
            app.tasks[at].status = DownloadStatus::Queued;
            app.tasks[at].message = "等待下载".to_string();
            changed = true;
        }
    }
    proof {
        assert(final(app)@.tasks =~= with_task(old(app)@, id, resumed()).tasks);
    }
    changed
}

/// Whether a download is under way.
pub open spec fn goes_on(app: AppStateView, id: u128) -> bool {
    first_task(app, id) matches Some(task) && task.status == DownloadStatus::Downloading
}

/// Whether a download under way may go on: it is still listed as being downloaded.
pub fn may_go_on(app: &AppState, id: u128) -> (r: bool)
    ensures
        r == goes_on(app@, id),
{
    let at = find_task(&app.tasks, id);
    if at < app.tasks.len() {
        proof {
            lemma_first_where(app@.tasks, is_task(id));
            assert(app@.tasks[at as int] == app.tasks@[at as int]@);
        }
        app.tasks[at].status == DownloadStatus::Downloading
    } else {
        false
    }
}

/// A text cut short after so many characters, with dots in place of the rest.
pub open spec fn compact(text: Seq<char>, most: nat) -> Seq<char> {
    if text.len() > most {
        text.take(most as int) + "..."@
    } else {
        text
    }
}

/// A text cut short after so many characters.
pub fn compact_text(value: &str, max_chars: usize) -> (r: String)
    ensures
        r@ == compact(value@, max_chars as nat),
{
    let chars = crate::text::chars_of(value);
    if chars.len() > max_chars {
        let mut text = value.substring_char(0, max_chars).to_string();
        proof {
            assert(text@ =~= value@.take(max_chars as int));
        }
        text.append("...");
        text
    } else {
        value.to_string()
    }
}

/// A number below one hundred in two digits.
pub open spec fn two_digits(n: nat) -> Seq<char> {
    seq![digit(n / 10), digit(n % 10)]
}

/// The time of day in UTC of a moment, given in milliseconds since the start of 1970.
pub open spec fn clock(at: i64) -> Seq<char> {
    let seconds = ((at as int % 86_400_000) / 1000) as nat;
    two_digits(seconds / 3600) + ":"@ + two_digits(seconds / 60 % 60) + ":"@ + two_digits(
        seconds % 60,
    )
}

fn write_two_digits(n: u64) -> (r: String)
    requires
        n < 100,
    ensures
        r@ == two_digits(n as nat),
{
    let mut text = String::new();
    text.push((48 + (n / 10) as u8) as char);
    text.push((48 + (n % 10) as u8) as char);
    proof {
        assert(text@ =~= two_digits(n as nat));
    }
    text
}

fn millis_of_day(at: i64) -> (r: u64)
    ensures
        r == at as int % 86_400_000,
{
    if at >= 0 {
        (at % 86_400_000) as u64
    } else {
        let before: i64 = -(at + 1);
        let left: i64 = 86_399_999 - before % 86_400_000;
        proof {
            let days = before as int / 86_400_000 + 1;
            vstd::arithmetic::div_mod::lemma_fundamental_div_mod_converse(
                at as int,
                86_400_000,
                -days,
                left as int,
            );
        }
        left as u64
    }
}

/// The time of day in UTC of a moment, given in milliseconds since the start of 1970.
pub fn clock_label(at: i64) -> (r: String)
    ensures
        r@ == clock(at),
{
    let seconds: u64 = millis_of_day(at) / 1000;
    let mut text = write_two_digits(seconds / 3600);
    text.append(":");
    text.append(write_two_digits(seconds / 60 % 60).as_str());
    text.append(":");
    text.append(write_two_digits(seconds % 60).as_str());
    text
}

} // verus!
