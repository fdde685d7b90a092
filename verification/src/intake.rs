//! Downloads that come from elsewhere than the browser: an address that the user types, or
//! a download that was under way when the application ended.

use crate::downloader::{enqueue_download_as, enqueued, find_task, is_task};
use crate::lists::{each, first_where};
use crate::outside::{fresh_id, is_random_uuid, json_of_text, now_millis, parse_url, parsed_url};
use crate::plan::{
    bytes_come, bytes_done, is_plan, makes_up, segment_bytes_done, segments_done, tally_segments,
};
use crate::record::{read_record, record_of, Record, RecordView};
use crate::state::{
    item_of, progress_of, AppState, AppStateView, DownloadStatus, DownloadTask, DownloadTaskView,
    HeaderPair, MediaCandidate, MediaCandidateView, MediaItem, Progress,
};
use crate::text::{is_blank, trim, trimmed};
use vstd::prelude::*;

verus! {

/// Why an address that was typed cannot be downloaded.
#[derive(Debug)]
pub enum AddressError {
    /// Nothing was typed.
    Blank,
    /// It is no address; the text says why.
    BadAddress(String),
}

/// The request that stands for an address.
pub open spec fn request_for(url: Seq<char>) -> MediaCandidateView {
    MediaCandidateView {
        url,
        page_url: None,
        title: None,
        mime_type: None,
        method: None,
        request_headers: Seq::empty(),
        content_length: None,
        duration_seconds: None,
    }
}

/// The state with a download of a typed address added.
pub open spec fn with_address(
    app: AppStateView,
    address: Seq<char>,
    media_id: u128,
    id: u128,
    at: i64,
) -> AppStateView {
    enqueued(app, item_of(request_for(trimmed(address)), media_id, at), id)
}

/// Adds a download of a typed address under the given identities, given what the address
/// reads as: white space at its ends aside, it must be an address.
pub fn add_address_as(
    app: &mut AppState,
    address: &str,
    parsed: Result<String, String>,
    media_id: u128,
    id: u128,
    at: i64,
) -> (r: Result<(), AddressError>)
    ensures
        match r {
            Ok(_) => {
                &&& trimmed(address@).len() > 0 && parsed is Ok
                &&& final(app)@ == with_address(old(app)@, address@, media_id, id, at)
            },
            Err(AddressError::Blank) => {
                &&& trimmed(address@).len() == 0
                &&& final(app)@ == old(app)@
            },
            Err(AddressError::BadAddress(reason)) => {
                &&& trimmed(address@).len() > 0 && parsed == Err::<String, String>(reason)
                &&& final(app)@ == old(app)@
            },
        },
{
    if is_blank(address) {
        return Err(AddressError::Blank);
    }
    if let Err(reason) = parsed {
        return Err(AddressError::BadAddress(reason));
    }
    let candidate = MediaCandidate {
        url: trim(address).to_string(),
        page_url: None,
        title: None,
        mime_type: None,
        method: None,
        request_headers: Vec::new(),
        content_length: None,
        duration_seconds: None,
    };
    proof {
        assert(candidate@ =~= request_for(trimmed(address@)));
    }
    let item = MediaItem::seen(candidate, media_id, at);
    enqueue_download_as(app, &item, id);
    Ok(())
}

/// Adds a download of a typed address, and gives its identity.
pub fn add_address(app: &mut AppState, address: &str) -> (r: Result<u128, AddressError>)
    ensures
        match r {
            Ok(id) => {
                &&& trimmed(address@).len() > 0 && parsed_url(trimmed(address@)) is Ok
                &&& is_random_uuid(id)
                &&& exists|media_id: u128, at: i64|
                    is_random_uuid(media_id) && final(app)@ == #[trigger] with_address(
                        old(app)@,
                        address@,
                        media_id,
                        id,
                        at,
                    )
            },
            Err(AddressError::Blank) => {
                &&& trimmed(address@).len() == 0
                &&& final(app)@ == old(app)@
            },
            Err(AddressError::BadAddress(reason)) => {
                &&& trimmed(address@).len() > 0
                &&& parsed_url(trimmed(address@)) == Err::<Seq<char>, Seq<char>>(reason@)
                &&& final(app)@ == old(app)@
            },
        },
{
    let parsed = parse_url(trim(address));
    let id = fresh_id();
    match add_address_as(app, address, parsed, fresh_id(), id, now_millis()) {
        Ok(_) => Ok(id),
        Err(err) => Err(err),
    }
}

/// A download as its record shows it: paused, with what has come of it.
pub open spec fn restored_task(record: RecordView, id: u128) -> DownloadTaskView {
    let in_ranges = if is_plan(record.ranges, record.total_bytes) {
        bytes_done(record.ranges) as u64
    } else {
        0
    };
    DownloadTaskView {
        id,
        media_id: record.media_id,
        title: record.title,
        url: record.url,
        media_type: record.media_type,
        status: DownloadStatus::Paused,
        progress: if record.segmented {
            progress_of(segments_done(record.segments), record.segments.len())
        } else {
            progress_of(in_ranges as nat, record.total_bytes as nat)
        },
        downloaded_bytes: if record.segmented {
            segment_bytes_done(record.segments) as u64
        } else {
            in_ranges
        },
        total_bytes: if record.segmented {
            None
        } else {
            Some(record.total_bytes)
        },
        completed_segments: if record.segmented {
            segments_done(record.segments) as usize
        } else {
            0
        },
        message: "已暂停"@,
        file_path: None,
    }
}

/// The state with a download restored from its record, unless it is listed.
pub open spec fn restored(app: AppStateView, record: RecordView, id: u128) -> AppStateView {
    if first_where(app.tasks, is_task(id)) < app.tasks.len() {
        app
    } else {
        AppStateView { tasks: app.tasks.push(restored_task(record, id)), ..app }
    }
}

/// Restores a download from its record, unless it is listed.
pub fn restore_download(app: &mut AppState, record: &Record, id: u128)
    ensures
        final(app)@ == restored(old(app)@, record@, id),
{
    if find_task(&app.tasks, id) < app.tasks.len() {
        return;
    }
    let task = if record.segmented {
        let tally = tally_segments(&record.segments);
        DownloadTask {
            id,
            media_id: record.media_id,
            title: record.title.clone(),
            url: record.url.clone(),
            media_type: record.media_type,
            status: DownloadStatus::Paused,
            progress: Progress::of(tally.count as u64, record.segments.len() as u64),
            downloaded_bytes: tally.bytes,
            total_bytes: None,
            completed_segments: tally.count,
            message: "已暂停".to_string(),
            file_path: None,
        }
    } else {
        let done: u64 = if makes_up(&record.ranges, record.total_bytes) {
            bytes_come(&record.ranges, record.total_bytes)
        } else {
            0
        };
        DownloadTask {
            id,
            media_id: record.media_id,
            title: record.title.clone(),
            url: record.url.clone(),
            media_type: record.media_type,
            status: DownloadStatus::Paused,
            progress: Progress::of(done, record.total_bytes),
            downloaded_bytes: done,
            total_bytes: Some(record.total_bytes),
            completed_segments: 0,
            message: "已暂停".to_string(),
            file_path: None,
        }
    };
    let ghost shown = task@;
    app.tasks.push(task);
    proof {
        assert(shown =~= restored_task(record@, id));
        assert(app@.tasks =~= restored(old(app)@, record@, id).tasks);
    }
}

/// Restores a download from the text of its record, and gives the headers that its requests
/// carry; nothing if the text is no record.
pub fn restore_from(app: &mut AppState, text: &str, id: u128) -> (r: Option<Vec<HeaderPair>>)
    ensures
        ({
            let record = match json_of_text(text@) {
                Some(json) => record_of(json),
                None => None,
            };
            match r {
                Some(headers) => {
                    &&& record is Some
                    &&& each(headers@) == record->0.headers
                    &&& final(app)@ == restored(old(app)@, record->0, id)
                },
                None => record is None && final(app)@ == old(app)@,
            }
        }),
{
    match read_record(text) {
        Some(record) => {
            restore_download(app, &record, id);
            Some(record.headers)
        },
        None => None,
    }
}

} // verus!
