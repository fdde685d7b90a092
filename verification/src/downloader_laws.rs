//! What holds of every download.

use crate::downloader::{
    advanced_by_segment, enqueued, entries_of, extended, extension_of, file_name, grown, is_task,
    lemma_part_count, part_bounds, part_count, part_name, part_size, progressed, ranges_of,
    six_digits, task_of, with_task, zeros,
};
use crate::hls::{
    bandwidth_of, is_highest, lemma_ranked_len, ranked, HlsPlaylistView,
};
use crate::hls_laws::{law_first_ranked_is_highest, law_ranked_keeps_all};
use crate::lists::{first_where, lemma_first_is, lemma_first_where};
use crate::outside::{is_header_name, is_header_value};
use crate::plan::has_refused;
use crate::run::{
    advanced, begun, listed, merging, opened, taken, ActionView, EventView, Phase,
    RunView,
};
use crate::state::{
    AppStateView, DownloadStatus, DownloadTaskView, HeaderPairView, HlsVariantView, MediaItemView,
    MediaType,
};
use crate::text::{
    all_digits, decimal, digit, digits_value, is_digit, lower, lower_char, unsigned, without_plus,
};
use vstd::prelude::*;
use vstd::utf8::encode_utf8;

verus! {

/// Whether a range holds a byte.
pub open spec fn covers(range: (u64, u64), byte: u64) -> bool {
    range.0 <= byte <= range.1
}

proof fn lemma_bounds(total: u64, size: nat, index: nat)
    requires
        1 <= size,
        index < part_count(total as nat, size),
    ensures
        ({
            let range = part_bounds(total as nat, size, index as int);
            &&& range.0 == index * size
            &&& range.0 <= range.1 < total
            &&& index + 1 < part_count(total as nat, size) ==> range.1 + 1 == (index + 1) * size
            &&& index + 1 == part_count(total as nat, size) ==> range.1 + 1 == total
        }),
{
    lemma_part_count(total as nat, size, index);
    lemma_part_count(total as nat, size, index + 1);
    assert((index + 1) * size == index * size + size) by (nonlinear_arith);
}

/// The ranges that a file is cut into begin at its first byte, follow each other without
/// a gap, and end at its last byte.
pub proof fn law_ranges_follow_each_other(total: u64, parts: usize, index: int)
    requires
        parts > 0,
        0 <= index < ranges_of(total as nat, part_size(total as nat, parts as nat)).len(),
    ensures
        ({
            let ranges = ranges_of(total as nat, part_size(total as nat, parts as nat));
            &&& ranges[index].0 <= ranges[index].1
            &&& ranges[0].0 == 0
            &&& ranges.last().1 == total - 1
            &&& index + 1 < ranges.len() ==> ranges[index + 1].0 == ranges[index].1 + 1
        }),
{
    let size = part_size(total as nat, parts as nat);
    let count = part_count(total as nat, size);
    lemma_bounds(total, size, 0);
    lemma_bounds(total, size, index as nat);
    lemma_bounds(total, size, (count - 1) as nat);
    if index + 1 < count {
        lemma_bounds(total, size, (index + 1) as nat);
    }
}

/// Every byte of a file is in one range, and in no other.
pub proof fn law_ranges_cover_each_byte_once(total: u64, parts: usize, byte: u64)
    requires
        parts > 0,
        byte < total,
    ensures
        ({
            let ranges = ranges_of(total as nat, part_size(total as nat, parts as nat));
            &&& exists|i: int| 0 <= i < ranges.len() && covers(#[trigger] ranges[i], byte)
            &&& forall|i: int, j: int|
                0 <= i < ranges.len() && 0 <= j < ranges.len() && covers(
                    #[trigger] ranges[i],
                    byte,
                ) && covers(#[trigger] ranges[j], byte) ==> i == j
        }),
{
    let size = part_size(total as nat, parts as nat);
    let ranges = ranges_of(total as nat, size);
    let at = byte as nat / size;
    vstd::arithmetic::div_mod::lemma_fundamental_div_mod(byte as int, size as int);
    assert(at * size == size * at) by (nonlinear_arith);
    assert((at + 1) * size == at * size + size) by (nonlinear_arith);
    lemma_part_count(total as nat, size, at);
    lemma_bounds(total, size, at);
    assert(covers(ranges[at as int], byte));
    assert forall|i: int| 0 <= i < ranges.len() && covers(#[trigger] ranges[i], byte) implies i
        == at by {
        lemma_bounds(total, size, i as nat);
        if i < at {
            assert((i + 1) * size <= at * size) by (nonlinear_arith)
                requires
                    i + 1 <= at,
            ;
        }
        if at < i {
            assert((at + 1) * size <= i * size) by (nonlinear_arith)
                requires
                    at + 1 <= i,
            ;
        }
    }
}

/// The number of bytes in ranges together.
pub open spec fn bytes_in(ranges: Seq<(u64, u64)>) -> int
    decreases ranges.len(),
{
    if ranges.len() == 0 {
        0
    } else {
        bytes_in(ranges.drop_last()) + (ranges.last().1 - ranges.last().0 + 1)
    }
}

proof fn lemma_bytes(total: u64, size: nat, upto: nat)
    requires
        1 <= size,
        upto <= part_count(total as nat, size),
    ensures
        bytes_in(ranges_of(total as nat, size).take(upto as int)) == (if upto == part_count(
            total as nat,
            size,
        ) {
            total as int
        } else {
            (upto * size) as int
        }),
    decreases upto,
{
    let ranges = ranges_of(total as nat, size);
    if upto == 0 {
        assert(ranges.take(0).len() == 0);
        lemma_part_count(total as nat, size, 0);
    } else {
        let before = (upto - 1) as nat;
        lemma_bytes(total, size, before);
        lemma_bounds(total, size, before);
        assert(ranges.take(upto as int).drop_last() =~= ranges.take(before as int));
        assert(ranges.take(upto as int).last() == part_bounds(total as nat, size, before as int));
    }
}

/// The ranges hold as many bytes as the file.
pub proof fn law_ranges_add_up(total: u64, parts: usize)
    requires
        parts > 0,
    ensures
        bytes_in(ranges_of(total as nat, part_size(total as nat, parts as nat))) == total,
{
    let size = part_size(total as nat, parts as nat);
    let ranges = ranges_of(total as nat, size);
    lemma_bytes(total, size, ranges.len());
    assert(ranges.take(ranges.len() as int) =~= ranges);
}

/// A file is cut into fewer than twice as many ranges as were asked for.
pub proof fn law_ranges_are_few(total: u64, parts: usize)
    requires
        parts > 0,
    ensures
        ranges_of(total as nat, part_size(total as nat, parts as nat)).len() < 2 * parts,
{
    let size = part_size(total as nat, parts as nat);
    let most = (2 * parts - 1) as nat;
    lemma_part_count(total as nat, size, most);
    vstd::arithmetic::div_mod::lemma_fundamental_div_mod(total as int, parts as int);
    let whole = total as int / parts as int;
    let rest = total as int % parts as int;
    if whole == 0 {
        assert(parts * whole == 0) by (nonlinear_arith)
            requires
                whole == 0,
        ;
        assert(most * 1 == most) by (nonlinear_arith);
    } else {
        assert(most * size >= parts * whole + rest) by (nonlinear_arith)
            requires
                most == 2 * parts - 1,
                size == whole,
                1 <= whole,
                rest <= parts - 1,
                1 <= parts,
        ;
    }
}

proof fn lemma_digits_of_decimal(n: nat)
    ensures
        all_digits(decimal(n)),
        decimal(n).len() >= 1,
        digits_value(decimal(n)) == n,
    decreases n,
{
    let text = decimal(n);
    if n < 10 {
        assert(text.drop_last() =~= Seq::<char>::empty());
        assert(digits_value(text.drop_last()) == 0);
        assert(text.last() == digit(n));
    } else {
        lemma_digits_of_decimal(n / 10);
        assert(text.drop_last() =~= decimal(n / 10));
        assert(text.last() == digit(n % 10));
    }
}

/// A number of 64 bits that was written out reads back as itself.
pub proof fn law_numbers_read_back(n: u64)
    ensures
        unsigned(decimal(n as nat)) == Some(n),
{
    let text = decimal(n as nat);
    lemma_digits_of_decimal(n as nat);
    assert(is_digit(text[0]));
    assert(without_plus(text) == text);
}

proof fn lemma_zeros_value(count: nat, text: Seq<char>)
    ensures
        digits_value(zeros(count) + text) == digits_value(text),
    decreases text.len(), count,
{
    let whole = zeros(count) + text;
    if text.len() > 0 {
        assert(whole.drop_last() =~= zeros(count) + text.drop_last());
        lemma_zeros_value(count, text.drop_last());
    } else if count > 0 {
        assert(whole.drop_last() =~= zeros((count - 1) as nat) + text);
        lemma_zeros_value((count - 1) as nat, text);
        assert(whole.last() == '0');
    } else {
        assert(whole =~= text);
    }
}

/// Different segments are kept in files of different names.
pub proof fn law_part_names_differ(a: nat, b: nat)
    requires
        a != b,
    ensures
        part_name(a) != part_name(b),
{
    lemma_digits_of_decimal(a);
    lemma_digits_of_decimal(b);
    if decimal(a).len() < 6 {
        lemma_zeros_value((6 - decimal(a).len()) as nat, decimal(a));
    }
    if decimal(b).len() < 6 {
        lemma_zeros_value((6 - decimal(b).len()) as nat, decimal(b));
    }
    assert(digits_value(six_digits(a)) == a);
    assert(digits_value(six_digits(b)) == b);
    if part_name(a) == part_name(b) {
        let ending = ".part"@;
        assert(part_name(a).len() == six_digits(a).len() + ending.len());
        assert(part_name(b).len() == six_digits(b).len() + ending.len());
        assert(six_digits(a) =~= part_name(a).take(six_digits(a).len() as int));
        assert(six_digits(b) =~= part_name(b).take(six_digits(b).len() as int));
    }
}

/// The segments are put together in their order, each once.
pub proof fn law_segments_are_merged_in_order(run: RunView, app: AppStateView, i: int, j: int)
    requires
        0 <= i < run.segments.len(),
        0 <= j < run.segments.len(),
        i != j,
    ensures
        merging(run, app).action matches ActionView::MergeParts { parts, .. } && {
            &&& parts.len() == run.segments.len()
            &&& parts[i] == part_name(i as nat)
            &&& parts[i] != parts[j]
        },
{
    law_part_names_differ(i as nat, j as nat);
}

proof fn lemma_extension_is_lower(media_type: MediaType)
    ensures
        lower(extension_of(media_type)) == extension_of(media_type),
{
    reveal_strlit("ts");
    reveal_strlit("webm");
    reveal_strlit("mp4");
    let extension = extension_of(media_type);
    assert forall|i: int| 0 <= i < extension.len() implies lower_char(#[trigger] extension[i])
        == extension[i] by {}
    assert(lower(extension) =~= extension);
}

/// The name of a saved file ends with the extension of its kind, ASCII case aside.
pub proof fn law_file_names_end_with_the_extension(task: DownloadTaskView, windows: bool)
    ensures
        extension_of(task.media_type).is_suffix_of(lower(file_name(task, windows))),
{
    let name = file_name(task, windows);
    let extension = extension_of(task.media_type);
    lemma_extension_is_lower(task.media_type);
    let title = crate::outside::sanitized(task.title, windows);
    let stem = if crate::text::trimmed(title).len() > 0 {
        title
    } else {
        crate::outside::sanitized(crate::state::url_filename(task.url), windows)
    };
    if !extension.is_suffix_of(lower(stem)) {
        assert(name == stem + "."@ + extension);
        let low = lower(name);
        assert(low.subrange(low.len() - extension.len(), low.len() as int) =~= lower(extension));
    }
}

/// Adding the extension twice adds it once.
pub proof fn law_extension_is_added_once(name: Seq<char>, media_type: MediaType)
    ensures
        extended(extended(name, media_type), media_type) == extended(name, media_type),
{
    let extension = extension_of(media_type);
    lemma_extension_is_lower(media_type);
    if !extension.is_suffix_of(lower(name)) {
        let low = lower(name + "."@ + extension);
        assert(low.subrange(low.len() - extension.len(), low.len() as int) =~= lower(extension));
    }
}

/// The last header of a name is the one that is sent, whatever case the name is written in.
pub proof fn law_last_header_wins(headers: Seq<HeaderPairView>, pair: HeaderPairView)
    requires
        is_header_name(pair.name),
        is_header_value(pair.value),
    ensures
        entries_of(headers.push(pair)).contains_key(lower(pair.name)),
        entries_of(headers.push(pair))[lower(pair.name)] == seq![encode_utf8(pair.value)],
{
    assert(headers.push(pair).drop_last() =~= headers);
}

/// What is no header is left out.
pub proof fn law_bad_headers_are_left_out(headers: Seq<HeaderPairView>, pair: HeaderPairView)
    requires
        !is_header_name(pair.name) || !is_header_value(pair.value),
    ensures
        entries_of(headers.push(pair)) == entries_of(headers),
{
    assert(headers.push(pair).drop_last() =~= headers);
}

/// A download that was added under a new identity is found under it.
pub proof fn law_added_downloads_are_found(app: AppStateView, item: MediaItemView, id: u128)
    requires
        forall|i: int| 0 <= i < app.tasks.len() ==> (#[trigger] app.tasks[i]).id != id,
    ensures
        ({
            let tasks = enqueued(app, item, id).tasks;
            let at = first_where(tasks, is_task(id));
            at < tasks.len() && tasks[at] == task_of(item, id)
        }),
{
    let tasks = enqueued(app, item, id).tasks;
    assert forall|k: int| 0 <= k < app.tasks.len() implies !is_task(id)(#[trigger] tasks[k]) by {
        assert(tasks[k] == app.tasks[k]);
    }
    lemma_first_is(tasks, is_task(id), app.tasks.len() as int);
}

/// Whether two states differ in no more than the first download of the given identity,
/// which keeps its identity and what it is of.
pub open spec fn same_but_for(id: u128, before: AppStateView, after: AppStateView) -> bool {
    &&& after.detected == before.detected
    &&& after.pending_audio == before.pending_audio
    &&& after.settings == before.settings
    &&& after.tasks.len() == before.tasks.len()
    &&& forall|i: int|
        0 <= i < before.tasks.len() && i != first_where(before.tasks, is_task(id)) ==> (
        #[trigger] after.tasks[i]) == before.tasks[i]
    &&& forall|i: int|
        0 <= i < before.tasks.len() ==> {
            &&& (#[trigger] after.tasks[i]).id == before.tasks[i].id
            &&& after.tasks[i].media_id == before.tasks[i].media_id
            &&& after.tasks[i].url == before.tasks[i].url
            &&& after.tasks[i].title == before.tasks[i].title
            &&& after.tasks[i].media_type == before.tasks[i].media_type
        }
}

/// Whatever happens to a download changes no other download, no item seen and no setting.
pub proof fn law_downloads_do_not_disturb_each_other(
    run: RunView,
    app: AppStateView,
    event: EventView,
)
    ensures
        same_but_for(run.task.id, app, advanced(run, app, event).app),
{
    lemma_first_where(app.tasks, is_task(run.task.id));
}

/// The start of a download changes no other download, no item seen and no setting.
pub proof fn law_starting_disturbs_nothing(
    app: AppStateView,
    task: DownloadTaskView,
    headers: Seq<HeaderPairView>,
    windows: bool,
)
    ensures
        same_but_for(task.id, app, begun(app, task, headers, windows).app),
{
    lemma_first_where(app.tasks, is_task(task.id));
}

/// The pieces, ranges and segments that come in change no other download, no item seen and
/// no setting.
pub proof fn law_progress_disturbs_nothing(
    app: AppStateView,
    id: u128,
    bytes: u64,
    total: u64,
    known: Option<u64>,
    number: usize,
    count: usize,
)
    ensures
        same_but_for(id, app, with_task(app, id, progressed(bytes, known))),
        same_but_for(id, app, with_task(app, id, grown(bytes, total))),
        same_but_for(id, app, with_task(app, id, advanced_by_segment(number, count, bytes))),
{
    lemma_first_where(app.tasks, is_task(id));
}

/// Whether the progress of every download is between nothing and everything.
pub open spec fn progress_is_bounded(app: AppStateView) -> bool {
    forall|i: int| 0 <= i < app.tasks.len() ==> (#[trigger] app.tasks[i]).progress.wf()
}

/// The progress of a download stays between nothing and everything, whatever happens.
pub proof fn law_progress_stays_bounded(run: RunView, app: AppStateView, event: EventView)
    requires
        progress_is_bounded(app),
        run.segments.len() <= usize::MAX,
        run.plan.len() <= usize::MAX,
    ensures
        progress_is_bounded(advanced(run, app, event).app),
{
    lemma_first_where(app.tasks, is_task(run.task.id));
}

/// The progress of a download stays between nothing and everything, whatever comes in.
pub proof fn law_progress_stays_bounded_on_arrival(
    app: AppStateView,
    item: MediaItemView,
    id: u128,
    bytes: u64,
    total: u64,
    known: Option<u64>,
    number: usize,
    count: usize,
)
    requires
        progress_is_bounded(app),
    ensures
        progress_is_bounded(enqueued(app, item, id)),
        progress_is_bounded(with_task(app, id, progressed(bytes, known))),
        progress_is_bounded(with_task(app, id, grown(bytes, total))),
        progress_is_bounded(with_task(app, id, advanced_by_segment(number, count, bytes))),
{
    lemma_first_where(app.tasks, is_task(id));
}

/// How far a phase is from the start.
pub open spec fn stage(phase: Phase) -> int {
    match phase {
        Phase::Directory => 0,
        Phase::Head => 1,
        Phase::Playlist => 1,
        Phase::Transfer => 2,
        Phase::Quality => 2,
        Phase::Parts => 3,
        Phase::Keys => 4,
        Phase::Segments => 5,
        Phase::Merge => 6,
        Phase::Tool => 7,
        Phase::Remux => 8,
        Phase::Over => 9,
    }
}

/// A download never goes back: whatever is to be done next, it has come further. So it
/// asks for no more than nine things.
pub proof fn law_downloads_go_forward(run: RunView, app: AppStateView, event: EventView)
    ensures
        advanced(run, app, event).action != ActionView::Stop ==> stage(
            advanced(run, app, event).run.phase,
        ) > stage(run.phase),
        stage(advanced(run, app, event).run.phase) >= stage(run.phase),
{
}

/// A download that is over stays so, and changes nothing more.
pub proof fn law_over_is_over(run: RunView, app: AppStateView, event: EventView)
    requires
        run.phase == Phase::Over,
    ensures
        advanced(run, app, event).run == run,
        advanced(run, app, event).app == app,
        advanced(run, app, event).action == ActionView::Stop,
{
}

/// A download is completed only when its file has come, or its segments are put together and
/// nothing more can be made of them.
pub proof fn law_completion_is_earned(run: RunView, app: AppStateView, event: EventView, at: int)
    requires
        0 <= at < app.tasks.len(),
        app.tasks[at].status != DownloadStatus::Completed,
        advanced(run, app, event).app.tasks[at].status == DownloadStatus::Completed,
    ensures
        ({
            ||| run.phase == Phase::Transfer && event is Written
            ||| run.phase == Phase::Tool && event == EventView::NoTool
            ||| run.phase == Phase::Remux && (event is Written || event is RemuxFailed)
        }),
{
    lemma_first_where(app.tasks, is_task(run.task.id));
}

/// What went wrong is noted on the download, and ends it.
pub proof fn law_failure_is_noted(run: RunView, app: AppStateView, reason: Seq<char>)
    requires
        run.phase != Phase::Over,
        first_where(app.tasks, is_task(run.task.id)) < app.tasks.len(),
    ensures
        ({
            let next = advanced(run, app, EventView::Failed(reason));
            let task = next.app.tasks[first_where(app.tasks, is_task(run.task.id))];
            &&& next.run.phase == Phase::Over
            &&& task.status == DownloadStatus::Failed
            &&& task.message == reason
        }),
{
    lemma_first_where(app.tasks, is_task(run.task.id));
}

/// Segments that are encrypted in an unknown way, or for a digital rights system, are not
/// fetched.
pub proof fn law_unknown_encryption_is_refused(
    run: RunView,
    app: AppStateView,
    playlist: HlsPlaylistView,
)
    requires
        has_refused(playlist.ciphers),
    ensures
        listed(run, app, playlist).run.phase == Phase::Over,
        listed(run, app, playlist).action == ActionView::Stop,
{
}

/// Segments that are not encrypted, or with AES-128 and a key that can be fetched, are.
pub proof fn law_known_encryption_goes_on(
    run: RunView,
    app: AppStateView,
    playlist: HlsPlaylistView,
)
    requires
        playlist.segments.len() > 0,
        forall|i: int|
            0 <= i < playlist.ciphers.len() ==> (#[trigger] playlist.ciphers[i]) is Plain
                || playlist.ciphers[i] is Aes,
    ensures
        listed(run, app, playlist).run.phase == Phase::Parts,
        listed(run, app, playlist).run.segments == playlist.segments,
        listed(run, app, playlist).run.ciphers == playlist.ciphers,
        listed(run, app, playlist).action is CreateParts,
{
}

proof fn lemma_has_highest(list: Seq<HlsVariantView>) -> (at: int)
    requires
        list.len() > 0,
    ensures
        is_highest(list, at),
    decreases list.len(),
{
    if list.len() == 1 {
        0
    } else {
        let rest = list.drop_last();
        let best = lemma_has_highest(rest);
        assert(rest[best] == list[best]);
        let last = list.len() - 1;
        if bandwidth_of(list[last]) >= bandwidth_of(list[best]) {
            assert forall|k: int| 0 <= k < list.len() implies bandwidth_of(#[trigger] list[k])
                <= bandwidth_of(list[last]) by {
                if k < last {
                    assert(bandwidth_of(rest[k]) <= bandwidth_of(rest[best]));
                }
            }
            last
        } else {
            assert forall|k: int| 0 <= k < list.len() implies bandwidth_of(#[trigger] list[k])
                <= bandwidth_of(list[best]) by {
                if k < last {
                    assert(bandwidth_of(rest[k]) <= bandwidth_of(rest[best]));
                }
            }
            assert forall|k: int| best < k < list.len() implies bandwidth_of(#[trigger] list[k])
                < bandwidth_of(list[best]) by {
                if k < last {
                    assert(bandwidth_of(rest[k]) < bandwidth_of(rest[best]));
                }
            }
            best
        }
    }
}

/// A master playlist leads to one of its qualities, and none has a higher bandwidth.
pub proof fn law_master_leads_to_the_highest_quality(
    run: RunView,
    app: AppStateView,
    playlist: HlsPlaylistView,
    at: int,
)
    requires
        0 <= at < playlist.variants.len(),
    ensures
        opened(run, app, playlist).action == (ActionView::FetchPlaylist {
            url: taken(playlist.variants).url,
        }),
        playlist.variants.contains(taken(playlist.variants)),
        bandwidth_of(playlist.variants[at]) <= bandwidth_of(taken(playlist.variants)),
{
    broadcast use vstd::seq_lib::group_to_multiset_ensures;

    let variants = playlist.variants;
    let list = ranked(variants);
    lemma_ranked_len(variants);
    let best = lemma_has_highest(list);
    let picked = choose|at: int| is_highest(list, at);
    assert(is_highest(list, picked));
    law_ranked_keeps_all(variants);
    law_first_ranked_is_highest(variants, at);
    assert(bandwidth_of(list[0]) <= bandwidth_of(list[picked]));
    assert(list.contains(list[picked]));
    assert(variants.to_multiset().count(list[picked]) > 0);
}

} // verus!
