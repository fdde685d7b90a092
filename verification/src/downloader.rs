//! Downloads: what is recorded of them, and how they are cut into parts.

use crate::display::{format_bytes, size_text};
use crate::lists::{change_first, each, find_in, first_where};
use crate::outside::{
    accepts_header_name, accepts_header_value, empty_header_map, fresh_id, header_entries,
    insert_header, is_header_name, is_header_value, is_random_uuid, sanitize, sanitized,
    HEADER_LIMIT,
};
use crate::plan::find_text;
use crate::state::{
    download_url, filename_from_url, progress_of, url_filename, AppState, AppStateView,
    DownloadStatus, DownloadTask, DownloadTaskView, HeaderPair, HeaderPairView, MediaItem,
    MediaItemView, MediaType, Progress,
};
use crate::text::{decimal, finishes_with, is_blank, lower, number, to_lower, trimmed};
use reqwest::header::HeaderMap;
use vstd::prelude::*;
use vstd::utf8::encode_utf8;

verus! {

/// Whether a download has the given identity.
pub open spec fn is_task(id: u128) -> spec_fn(DownloadTaskView) -> bool {
    |task: DownloadTaskView| task.id == id
}

/// The position of the first download with the given identity.
pub fn find_task(tasks: &Vec<DownloadTask>, id: u128) -> (r: usize)
    ensures
        r == first_where(each(tasks@), is_task(id)),
        r <= tasks@.len(),
{
    let test = |one: &DownloadTask| -> (r: bool)
        ensures
            r == is_task(id)(one@),
    {
        one.id == id
    };
    find_in(tasks, test, Ghost(is_task(id)))
}

/// The state with the first download of the given identity changed.
pub open spec fn with_task(
    app: AppStateView,
    id: u128,
    change: spec_fn(DownloadTaskView) -> DownloadTaskView,
) -> AppStateView {
    AppStateView { tasks: change_first(app.tasks, is_task(id), change), ..app }
}

/// The download of an item that has not begun.
pub open spec fn task_of(item: MediaItemView, id: u128) -> DownloadTaskView {
    DownloadTaskView {
        id,
        media_id: item.id,
        title: item.title,
        url: download_url(item),
        media_type: item.media_type,
        status: DownloadStatus::Queued,
        progress: progress_of(0, 1),
        downloaded_bytes: 0,
        total_bytes: None,
        completed_segments: 0,
        message: "等待下载"@,
        file_path: None,
    }
}

/// The state with a download of an item added.
pub open spec fn enqueued(app: AppStateView, item: MediaItemView, id: u128) -> AppStateView {
    AppStateView { tasks: app.tasks.push(task_of(item, id)), ..app }
}

/// Adds a download of an item under the given identity.
pub fn enqueue_download_as(app: &mut AppState, media: &MediaItem, id: u128)
    ensures
        final(app)@ == enqueued(old(app)@, media@, id),
{
    let task = DownloadTask {
        id,
        media_id: media.id,
        title: media.title.clone(),
        url: media.selected_hls_url(),
        media_type: media.media_type,
        status: DownloadStatus::Queued,
        progress: Progress::of(0, 1),
        downloaded_bytes: 0,
        total_bytes: None,
        completed_segments: 0,
        message: "等待下载".to_string(),
        file_path: None,
    };
    app.tasks.push(task);
    proof {
        assert(app@.tasks =~= enqueued(old(app)@, media@, id).tasks);
    }
}

/// Adds a download of an item under a new identity.
pub fn enqueue_download(app: &mut AppState, media: &MediaItem) -> (id: u128)
    ensures
        is_random_uuid(id),
        final(app)@ == enqueued(old(app)@, media@, id),
{
    let id = fresh_id();
    enqueue_download_as(app, media, id);
    id
}

/// A download with the given word on it.
pub open spec fn saying(message: Seq<char>) -> spec_fn(DownloadTaskView) -> DownloadTaskView {
    |task: DownloadTaskView| DownloadTaskView { message, ..task }
}

/// A download with the given status and word on it.
pub open spec fn standing(status: DownloadStatus, message: Seq<char>) -> spec_fn(
    DownloadTaskView,
) -> DownloadTaskView {
    |task: DownloadTaskView| DownloadTaskView { status, message, ..task }
}

/// A download that is done, its file saved at a path.
pub open spec fn finished(message: Seq<char>, path: Seq<char>) -> spec_fn(
    DownloadTaskView,
) -> DownloadTaskView {
    |task: DownloadTaskView|
        DownloadTaskView {
            status: DownloadStatus::Completed,
            progress: progress_of(1, 1),
            message,
            file_path: Some(path),
            ..task
        }
}

/// Sets the word on a download.
pub fn set_message(app: &mut AppState, id: u128, message: String)
    ensures
        final(app)@ == with_task(old(app)@, id, saying(message@)),
{
    let at = find_task(&app.tasks, id);
    if at < app.tasks.len() {
        app.tasks[at].message = message;
    }
    proof {
        assert(final(app)@.tasks =~= with_task(old(app)@, id, saying(message@)).tasks);
    }
}

/// Sets the status of a download and the word on it.
pub fn set_status(app: &mut AppState, id: u128, status: DownloadStatus, message: String)
    ensures
        final(app)@ == with_task(old(app)@, id, standing(status, message@)),
{
    let at = find_task(&app.tasks, id);
    if at < app.tasks.len() {
        app.tasks[at].status = status;
        app.tasks[at].message = message;
    }
    proof {
        assert(final(app)@.tasks =~= with_task(old(app)@, id, standing(status, message@)).tasks);
    }
}

/// Notes that a download has failed, and why.
pub fn mark_failed(app: &mut AppState, id: u128, message: String)
    ensures
        final(app)@ == with_task(old(app)@, id, standing(DownloadStatus::Failed, message@)),
{
    set_status(app, id, DownloadStatus::Failed, message);
}

/// Notes that a download is done, its file saved at a path.
pub fn mark_completed(app: &mut AppState, id: u128, message: String, path: String)
    ensures
        final(app)@ == with_task(old(app)@, id, finished(message@, path@)),
{
    let at = find_task(&app.tasks, id);
    if at < app.tasks.len() {
        app.tasks[at].status = DownloadStatus::Completed;
        app.tasks[at].progress = Progress::of(1, 1);
        app.tasks[at].message = message;
        app.tasks[at].file_path = Some(path);
    }
    proof {
        assert(final(app)@.tasks =~= with_task(old(app)@, id, finished(message@, path@)).tasks);
    }
}

/// A download of which so many bytes have come, of a total if that is known.
pub open spec fn progressed(downloaded: u64, total: Option<u64>) -> spec_fn(
    DownloadTaskView,
) -> DownloadTaskView {
    |task: DownloadTaskView|
        DownloadTaskView {
            downloaded_bytes: downloaded,
            total_bytes: total,
            progress: match total {
                Some(total) => progress_of(downloaded as nat, total as nat),
                None => progress_of(0, 1),
            },
            message: size_text(downloaded),
            ..task
        }
}

/// Notes how many bytes of a download have come.
pub fn update_progress(app: &mut AppState, id: u128, downloaded: u64, total: Option<u64>)
    ensures
        final(app)@ == with_task(old(app)@, id, progressed(downloaded, total)),
{
    let at = find_task(&app.tasks, id);
    if at < app.tasks.len() {
        app.tasks[at].downloaded_bytes = downloaded;
        app.tasks[at].total_bytes = total;
        app.tasks[at].progress = match total {
            Some(total) => Progress::of(downloaded, total),
            None => Progress::of(0, 1),
        };
        app.tasks[at].message = format_bytes(downloaded);
    }
    proof {
        assert(final(app)@.tasks =~= with_task(old(app)@, id, progressed(downloaded, total)).tasks);
    }
}

/// Notes that one more piece of a download has come after `downloaded` bytes, and gives
/// the new number of bytes.
pub fn receive_chunk(
    app: &mut AppState,
    id: u128,
    downloaded: u64,
    bytes: u64,
    total: Option<u64>,
) -> (r: u64)
    requires
        downloaded + bytes <= u64::MAX,
    ensures
        r == downloaded + bytes,
        final(app)@ == with_task(old(app)@, id, progressed(r, total)),
{
    let sum: u64 = downloaded + bytes;
    update_progress(app, id, sum, total);
    sum
}

/// The sum of two numbers, or the largest number if the sum is larger.
pub open spec fn sum_up_to(a: nat, b: nat, most: nat) -> nat {
    if a + b < most {
        a + b
    } else {
        most
    }
}

/// A download of `total` bytes in ranges of which some more bytes have come.
pub open spec fn grown(bytes: u64, total: u64) -> spec_fn(DownloadTaskView) -> DownloadTaskView {
    |task: DownloadTaskView|
        {
            let downloaded = sum_up_to(task.downloaded_bytes as nat, bytes as nat, total as nat)
                as u64;
            DownloadTaskView {
                downloaded_bytes: downloaded,
                total_bytes: Some(total),
                progress: progress_of(downloaded as nat, total as nat),
                message: size_text(downloaded) + " / "@ + size_text(total),
                ..task
            }
        }
}

/// Notes that some more bytes of a download in ranges have come.
pub fn add_downloaded(app: &mut AppState, id: u128, bytes: u64, total: u64)
    ensures
        final(app)@ == with_task(old(app)@, id, grown(bytes, total)),
{
    let at = find_task(&app.tasks, id);
    if at < app.tasks.len() {
        let sum: u64 = app.tasks[at].downloaded_bytes.saturating_add(bytes);
        let downloaded: u64 = if sum < total {
            sum
        } else {
            total
        };
        let mut message = format_bytes(downloaded);
        message.append(" / ");
        message.append(format_bytes(total).as_str());
        app.tasks[at].downloaded_bytes = downloaded;
        app.tasks[at].total_bytes = Some(total);
        app.tasks[at].progress = Progress::of(downloaded, total);
        app.tasks[at].message = message;
        proof {
            assert(app.tasks@[at as int]@ =~= grown(bytes, total)(old(app)@.tasks[at as int]));
        }
    }
    proof {
        assert(final(app)@.tasks =~= with_task(old(app)@, id, grown(bytes, total)).tasks);
    }
}

/// A download in segments of which one more has come.
pub open spec fn advanced_by_segment(number: usize, count: usize, bytes: u64) -> spec_fn(
    DownloadTaskView,
) -> DownloadTaskView {
    |task: DownloadTaskView|
        {
            let downloaded = sum_up_to(task.downloaded_bytes as nat, bytes as nat, u64::MAX as nat)
                as u64;
            let segments = sum_up_to(task.completed_segments as nat, 1, usize::MAX as nat) as usize;
            DownloadTaskView {
                downloaded_bytes: downloaded,
                completed_segments: segments,
                progress: progress_of(segments as nat, count as nat),
                message: "已下载分片 "@ + decimal(segments as nat) + "/"@ + decimal(count as nat)
                    + "，最近完成 #"@ + decimal(number as nat) + "，累计 "@ + size_text(
                    downloaded,
                ),
                ..task
            }
        }
}

/// Notes that one more segment of a download has come: the one with the given number, of
/// so many, with so many bytes.
pub fn add_hls_segment(
    app: &mut AppState,
    id: u128,
    segment_number: usize,
    total_segments: usize,
    bytes: u64,
)
    ensures
        final(app)@ == with_task(
            old(app)@,
            id,
            advanced_by_segment(segment_number, total_segments, bytes),
        ),
{
    let at = find_task(&app.tasks, id);
    if at < app.tasks.len() {
        let downloaded: u64 = app.tasks[at].downloaded_bytes.saturating_add(bytes);
        let segments: usize = app.tasks[at].completed_segments.saturating_add(1);
        let mut message = "已下载分片 ".to_string();
        message.append(number(segments as u64).as_str());
        message.append("/");
        message.append(number(total_segments as u64).as_str());
        message.append("，最近完成 #");
        message.append(number(segment_number as u64).as_str());
        message.append("，累计 ");
        message.append(format_bytes(downloaded).as_str());
        app.tasks[at].downloaded_bytes = downloaded;
        app.tasks[at].completed_segments = segments;
        app.tasks[at].progress = Progress::of(segments as u64, total_segments as u64);
        app.tasks[at].message = message;
        proof {
            assert(app.tasks@[at as int]@ =~= advanced_by_segment(
                segment_number,
                total_segments,
                bytes,
            )(old(app)@.tasks[at as int]));
        }
    }
    proof {
        assert(final(app)@.tasks =~= with_task(
            old(app)@,
            id,
            advanced_by_segment(segment_number, total_segments, bytes),
        ).tasks);
    }
}

/// The size of the parts when so many bytes are cut into so many parts: at least one byte.
pub open spec fn part_size(total: nat, parts: nat) -> nat {
    if total / parts == 0 {
        1
    } else {
        total / parts
    }
}

/// The number of parts of the given size that so many bytes take.
pub open spec fn part_count(total: nat, size: nat) -> nat {
    (total + size - 1) as nat / size
}

/// The first and the last byte of a part.
pub open spec fn part_bounds(total: nat, size: nat, index: int) -> (u64, u64) {
    let next = (index + 1) * size;
    (
        (index * size) as u64,
        ((if next < total {
            next
        } else {
            total as int
        }) - 1) as u64,
    )
}

/// The first and the last byte of each part.
pub open spec fn ranges_of(total: nat, size: nat) -> Seq<(u64, u64)> {
    Seq::new(part_count(total, size), |index: int| part_bounds(total, size, index))
}

/// `part_count` parts are as many as begin within the bytes.
pub proof fn lemma_part_count(total: nat, size: nat, index: nat)
    requires
        1 <= size,
    ensures
        index < part_count(total, size) <==> index * size < total,
{
    let count = part_count(total, size);
    let rest = (total + size - 1) as nat % size;
    assert(total + size - 1 == count * size + rest) by {
        vstd::arithmetic::div_mod::lemma_fundamental_div_mod(total + size - 1, size as int);
        assert(size * count == count * size) by (nonlinear_arith);
    }
    if index < count {
        assert(index * size + size <= count * size) by (nonlinear_arith)
            requires
                index + 1 <= count,
        ;
    } else {
        assert(count * size <= index * size) by (nonlinear_arith)
            requires
                count <= index,
        ;
    }
}

/// Cuts so many bytes into parts of equal size, the last one aside.
pub fn split_ranges(total: u64, parts: usize) -> (r: Vec<(u64, u64)>)
    requires
        parts > 0,
    ensures
        r@ == ranges_of(total as nat, part_size(total as nat, parts as nat)),
{
    let whole: u64 = total / parts as u64;
    let chunk: u64 = if whole == 0 {
        1
    } else {
        whole
    };
    let ghost size = part_size(total as nat, parts as nat);
    let mut ranges: Vec<(u64, u64)> = Vec::new();
    let mut start: u64 = 0;
    proof {
        lemma_part_count(total as nat, size, 0);
        assert(ranges@ =~= ranges_of(total as nat, size).take(0));
    }
    while start < total
        invariant
            1 <= chunk,
            chunk == size,
            start <= total,
            ranges@.len() <= part_count(total as nat, size),
            ranges@ == ranges_of(total as nat, size).take(ranges@.len() as int),
            start < total ==> start == ranges@.len() * size,
            start == total ==> ranges@.len() == part_count(total as nat, size),
        decreases total - start,
    {
        let ghost index = ranges@.len();
        let end: u64 = if total - start <= chunk {
            total - 1
        } else {
            start + chunk - 1
        };
        proof {
            lemma_part_count(total as nat, size, index);
            lemma_part_count(total as nat, size, index + 1);
            assert((index + 1) * size == index * size + size) by (nonlinear_arith);
        }
        ranges.push((start, end));
        start = end + 1;
        proof {
            assert(ranges@[index as int] == part_bounds(total as nat, size, index as int));
            assert(ranges@ =~= ranges_of(total as nat, size).take(index as int + 1));
        }
    }
    proof {
        assert(ranges@ =~= ranges_of(total as nat, size));
    }
    ranges
}

/// The `Range` header for the bytes from `start` to `end`.
pub fn range_header(start: u64, end: u64) -> (r: String)
    ensures
        r@ == "bytes="@ + decimal(start as nat) + "-"@ + decimal(end as nat),
{
    let mut text = "bytes=".to_string();
    text.append(number(start).as_str());
    text.append("-");
    text.append(number(end).as_str());
    text
}

/// So many zeros.
pub open spec fn zeros(count: nat) -> Seq<char> {
    Seq::new(count, |i: int| '0')
}

/// A number in decimal, with zeros before it up to six digits.
pub open spec fn six_digits(n: nat) -> Seq<char> {
    let digits = decimal(n);
    if digits.len() < 6 {
        zeros((6 - digits.len()) as nat) + digits
    } else {
        digits
    }
}

/// The name of the file that holds a segment.
pub open spec fn part_name(index: nat) -> Seq<char> {
    six_digits(index) + ".part"@
}

/// The name of the file that holds a segment.
pub fn part_file_name(index: usize) -> (r: String)
    ensures
        r@ == part_name(index as nat),
{
    let digits = number(index as u64);
    let width: usize = crate::text::chars_of(digits.as_str()).len();
    let mut name = String::new();
    let mut have: usize = width;
    while have < 6
        invariant
            have <= 6 || have == width,
            width <= have,
            name@ == zeros((have - width) as nat),
        decreases 6 - have,
    {
        name.push('0');
        have = have + 1;
        proof {
            assert(name@ =~= zeros((have - width) as nat));
        }
    }
    name.append(digits.as_str());
    proof {
        assert(name@ =~= six_digits(index as nat));
    }
    name.append(".part");
    name
}

/// What a list of headers makes of a header map: of the pairs that are headers, each
/// replaces what the name had before.
pub open spec fn entries_of(headers: Seq<HeaderPairView>) -> Map<Seq<char>, Seq<Seq<u8>>>
    decreases headers.len(),
{
    if headers.len() == 0 {
        Map::empty()
    } else {
        let rest = entries_of(headers.drop_last());
        let pair = headers.last();
        if is_header_name(pair.name) && is_header_value(pair.value) {
            rest.insert(lower(pair.name), seq![encode_utf8(pair.value)])
        } else {
            rest
        }
    }
}

/// Whether a pair is a header.
pub open spec fn is_header(pair: HeaderPairView) -> bool {
    is_header_name(pair.name) && is_header_value(pair.value)
}

/// Whether a header map has room for a list of headers: before each of them it holds fewer
/// names than the limit.
pub open spec fn headers_fit(headers: Seq<HeaderPairView>) -> bool {
    forall|i: int|
        0 <= i < headers.len() && is_header(headers[i]) ==> (#[trigger] entries_of(
            headers.take(i),
        )).len() < HEADER_LIMIT
}

proof fn lemma_next_entry(headers: Seq<HeaderPairView>, i: int)
    requires
        0 <= i < headers.len(),
    ensures
        entries_of(headers.take(i + 1)) == (if is_header(headers[i]) {
            entries_of(headers.take(i)).insert(
                lower(headers[i].name),
                seq![encode_utf8(headers[i].value)],
            )
        } else {
            entries_of(headers.take(i))
        }),
{
    assert(headers.take(i + 1).drop_last() =~= headers.take(i));
}

/// Whether a header map has room for a list of headers.
pub fn have_room(headers: &[HeaderPair]) -> (r: bool)
    ensures
        r == headers_fit(each(headers@)),
{
    let ghost all = each(headers@);
    let mut names: Vec<String> = Vec::new();
    let mut i: usize = 0;
    proof {
        assert(all.take(0) =~= Seq::<HeaderPairView>::empty());
        assert(each(names@).to_set() =~= entries_of(all.take(0)).dom());
    }
    while i < headers.len()
        invariant
            i <= headers@.len(),
            all == each(headers@),
            each(names@).no_duplicates(),
            each(names@).to_set() == entries_of(all.take(i as int)).dom(),
            forall|k: int|
                0 <= k < i && is_header(all[k]) ==> (#[trigger] entries_of(all.take(k))).len()
                    < HEADER_LIMIT,
        decreases headers@.len() - i,
    {
        proof {
            assert(all[i as int] == headers@[i as int]@);
            lemma_next_entry(all, i as int);
            each(names@).unique_seq_to_set();
        }
        if accepts_header_name(headers[i].name.as_str()) && accepts_header_value(
            headers[i].value.as_str(),
        ) {
            if names.len() >= HEADER_LIMIT {
                proof {
                    assert(entries_of(all.take(i as int)).len() >= HEADER_LIMIT);
                }
                return false;
            }
            let name = to_lower(headers[i].name.as_str());
            let ghost was = each(names@);
            if find_text(&names, name.as_str()) == names.len() {
                names.push(name);
                proof {
                    assert(each(names@) =~= was.push(name@));
                    was.lemma_push_to_set_commute(name@);
                }
            } else {
                proof {
                    assert(was.to_set().contains(name@));
                    assert(was.to_set().insert(name@) =~= was.to_set());
                }
            }
            proof {
                assert(each(names@).to_set() =~= entries_of(all.take(i + 1)).dom());
            }
        }
        i = i + 1;
    }
    true
}

/// The header map that a list of headers stands for.
pub fn to_header_map(headers: &[HeaderPair]) -> (r: HeaderMap)
    requires
        headers_fit(each(headers@)),
    ensures
        header_entries(r) == entries_of(each(headers@)),
{
    let mut map = empty_header_map();
    let mut i: usize = 0;
    proof {
        assert(each(headers@).take(0) =~= Seq::<HeaderPairView>::empty());
    }
    while i < headers.len()
        invariant
            i <= headers@.len(),
            headers_fit(each(headers@)),
            header_entries(map) == entries_of(each(headers@).take(i as int)),
        decreases headers@.len() - i,
    {
        proof {
            assert(each(headers@)[i as int] == headers@[i as int]@);
            lemma_next_entry(each(headers@), i as int);
        }
        let name = headers[i].name.as_str();
        let value = headers[i].value.as_str();
        if accepts_header_name(name) && accepts_header_value(value) {
            insert_header(&mut map, name, value);
        }
        i = i + 1;
    }
    proof {
        assert(each(headers@).take(headers@.len() as int) =~= each(headers@));
    }
    map
}

/// The extension of the file that media of a kind is saved in.
pub open spec fn extension_of(media_type: MediaType) -> Seq<char> {
    match media_type {
        MediaType::Hls => "ts"@,
        MediaType::Webm => "webm"@,
        _ => "mp4"@,
    }
}

/// A name with the extension of the kind of media, unless it ends with that, ASCII case
/// aside.
pub open spec fn extended(name: Seq<char>, media_type: MediaType) -> Seq<char> {
    if extension_of(media_type).is_suffix_of(lower(name)) {
        name
    } else {
        name + "."@ + extension_of(media_type)
    }
}

/// A name with the extension of the kind of media, unless it ends with that.
pub fn with_extension(name: String, media_type: MediaType) -> (r: String)
    ensures
        r@ == extended(name@, media_type),
{
    let extension = match media_type {
        MediaType::Hls => "ts",
        MediaType::Webm => "webm",
        _ => "mp4",
    };
    if finishes_with(to_lower(name.as_str()).as_str(), extension) {
        name
    } else {
        let mut name = name;
        name.append(".");
        name.append(extension);
        name
    }
}

/// The name of the file that a download is saved in: its title, or the name at its
/// address where nothing is left of the title.
pub open spec fn file_name(task: DownloadTaskView, windows: bool) -> Seq<char> {
    let title = sanitized(task.title, windows);
    let stem = if trimmed(title).len() > 0 {
        title
    } else {
        sanitized(url_filename(task.url), windows)
    };
    extended(stem, task.media_type)
}

/// The name of the file that a download is saved in, under the rules of Windows or of
/// other systems.
pub fn output_filename(task: &DownloadTask, windows: bool) -> (r: String)
    ensures
        r@ == file_name(task@, windows),
        forall|i: int| 0 <= i < r@.len() ==> crate::outside::is_file_name_char(#[trigger] r@[i]),
{
    let mut name = sanitize(task.title.as_str(), windows);
    if is_blank(name.as_str()) {
        name = sanitize(filename_from_url(task.url.as_str()).as_str(), windows);
    }
    let ghost stem = name@;
    let r = with_extension(name, task.media_type);
    proof {
        reveal_strlit("ts");
        reveal_strlit("webm");
        reveal_strlit("mp4");
        reveal_strlit(".");
        assert forall|i: int| 0 <= i < r@.len() implies crate::outside::is_file_name_char(
            #[trigger] r@[i],
        ) by {
            if i < stem.len() {
                assert(r@[i] == stem[i]);
            }
        }
    }
    r
}

} // verus!
