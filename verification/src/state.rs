//! What the application knows: the media it has seen, its downloads and its settings.

use crate::display::{bitrate_label, bitrate_text};
use crate::lists::{each, maybe};
use crate::outside::{fresh_id, is_random_uuid, now_millis};
use crate::text::{
    before, final_piece, has_part, holds, is_blank, last_piece, lower, piece_before, to_lower,
    trimmed,
};
use std::collections::VecDeque;
use vstd::prelude::*;

verus! {

/// One header of a request.
#[derive(Debug)]
pub struct HeaderPair {
    pub name: String,
    pub value: String,
}

#[verifier::ext_equal]
pub struct HeaderPairView {
    pub name: Seq<char>,
    pub value: Seq<char>,
}

impl View for HeaderPair {
    type V = HeaderPairView;

    open spec fn view(&self) -> HeaderPairView {
        HeaderPairView { name: self.name@, value: self.value@ }
    }
}

impl Clone for HeaderPair {
    fn clone(&self) -> (r: Self)
        ensures
            r@ == self@,
    {
        HeaderPair { name: self.name.clone(), value: self.value.clone() }
    }
}

/// A copy of a list of headers.
pub fn copy_headers(headers: &Vec<HeaderPair>) -> (r: Vec<HeaderPair>)
    ensures
        each(r@) == each(headers@),
{
    headers.clone()
}

/// A media request that the browser extension has reported.
#[derive(Debug)]
pub struct MediaCandidate {
    pub url: String,
    pub page_url: Option<String>,
    pub title: Option<String>,
    pub mime_type: Option<String>,
    pub method: Option<String>,
    pub request_headers: Vec<HeaderPair>,
    pub content_length: Option<u64>,
    pub duration_seconds: Option<u64>,
}

#[verifier::ext_equal]
pub struct MediaCandidateView {
    pub url: Seq<char>,
    pub page_url: Option<Seq<char>>,
    pub title: Option<Seq<char>>,
    pub mime_type: Option<Seq<char>>,
    pub method: Option<Seq<char>>,
    pub request_headers: Seq<HeaderPairView>,
    pub content_length: Option<u64>,
    pub duration_seconds: Option<u64>,
}

impl Clone for MediaCandidate {
    fn clone(&self) -> (r: Self)
        ensures
            r@ == self@,
    {
        MediaCandidate {
            url: self.url.clone(),
            page_url: self.page_url.clone(),
            title: self.title.clone(),
            mime_type: self.mime_type.clone(),
            method: self.method.clone(),
            request_headers: copy_headers(&self.request_headers),
            content_length: self.content_length,
            duration_seconds: self.duration_seconds,
        }
    }
}

impl View for MediaCandidate {
    type V = MediaCandidateView;

    open spec fn view(&self) -> MediaCandidateView {
        MediaCandidateView {
            url: self.url@,
            page_url: maybe(self.page_url),
            title: maybe(self.title),
            mime_type: maybe(self.mime_type),
            method: maybe(self.method),
            request_headers: each(self.request_headers@),
            content_length: self.content_length,
            duration_seconds: self.duration_seconds,
        }
    }
}

/// A second stream that belongs to a media item: its sound, in most cases.
#[derive(Debug)]
pub struct MediaSidecar {
    pub url: String,
    pub page_url: Option<String>,
    pub title: Option<String>,
    pub content_length: Option<u64>,
    pub duration_seconds: Option<u64>,
    pub headers: Vec<HeaderPair>,
}

#[verifier::ext_equal]
pub struct MediaSidecarView {
    pub url: Seq<char>,
    pub page_url: Option<Seq<char>>,
    pub title: Option<Seq<char>>,
    pub content_length: Option<u64>,
    pub duration_seconds: Option<u64>,
    pub headers: Seq<HeaderPairView>,
}

impl View for MediaSidecar {
    type V = MediaSidecarView;

    open spec fn view(&self) -> MediaSidecarView {
        MediaSidecarView {
            url: self.url@,
            page_url: maybe(self.page_url),
            title: maybe(self.title),
            content_length: self.content_length,
            duration_seconds: self.duration_seconds,
            headers: each(self.headers@),
        }
    }
}

impl Clone for MediaSidecar {
    fn clone(&self) -> (r: Self)
        ensures
            r@ == self@,
    {
        MediaSidecar {
            url: self.url.clone(),
            page_url: self.page_url.clone(),
            title: self.title.clone(),
            content_length: self.content_length,
            duration_seconds: self.duration_seconds,
            headers: copy_headers(&self.headers),
        }
    }
}

impl MediaSidecar {
    /// The sidecar that a reported request stands for.
    pub fn from(candidate: MediaCandidate) -> (r: MediaSidecar)
        ensures
            r@ == sidecar_of(candidate@),
    {
        MediaSidecar {
            url: candidate.url,
            page_url: candidate.page_url,
            title: candidate.title,
            content_length: candidate.content_length,
            duration_seconds: candidate.duration_seconds,
            headers: candidate.request_headers,
        }
    }
}

/// The sidecar that a reported request stands for.
pub open spec fn sidecar_of(candidate: MediaCandidateView) -> MediaSidecarView {
    MediaSidecarView {
        url: candidate.url,
        page_url: candidate.page_url,
        title: candidate.title,
        content_length: candidate.content_length,
        duration_seconds: candidate.duration_seconds,
        headers: candidate.request_headers,
    }
}

/// One of the qualities that an HLS master playlist offers.
#[derive(Debug)]
pub struct HlsVariant {
    pub url: String,
    pub bandwidth: Option<u64>,
    pub resolution: Option<String>,
    pub codecs: Option<String>,
}

#[verifier::ext_equal]
pub struct HlsVariantView {
    pub url: Seq<char>,
    pub bandwidth: Option<u64>,
    pub resolution: Option<Seq<char>>,
    pub codecs: Option<Seq<char>>,
}

impl View for HlsVariant {
    type V = HlsVariantView;

    open spec fn view(&self) -> HlsVariantView {
        HlsVariantView {
            url: self.url@,
            bandwidth: self.bandwidth,
            resolution: maybe(self.resolution),
            codecs: maybe(self.codecs),
        }
    }
}

impl Clone for HlsVariant {
    fn clone(&self) -> (r: Self)
        ensures
            r@ == self@,
    {
        HlsVariant {
            url: self.url.clone(),
            bandwidth: self.bandwidth,
            resolution: self.resolution.clone(),
            codecs: self.codecs.clone(),
        }
    }
}

/// The name of a quality: its resolution and bit rate, as far as they are known, then its
/// codecs if there are any.
pub open spec fn variant_label(variant: HlsVariantView) -> Seq<char> {
    let quality = match (variant.resolution, variant.bandwidth) {
        (Some(resolution), Some(bandwidth)) => resolution + " · "@ + bitrate_text(bandwidth),
        (Some(resolution), None) => resolution,
        (None, Some(bandwidth)) => bitrate_text(bandwidth),
        (None, None) => "自动清晰度"@,
    };
    match variant.codecs {
        Some(codecs) if codecs.len() > 0 => quality + " · "@ + codecs,
        _ => quality,
    }
}

impl HlsVariant {
    /// The name of the quality.
    pub fn label(&self) -> (r: String)
        ensures
            r@ == variant_label(self@),
    {
        let mut quality = match (&self.resolution, self.bandwidth) {
            (Some(resolution), Some(bandwidth)) => {
                let mut text = resolution.clone();
                text.append(" · ");
                text.append(bitrate_label(bandwidth).as_str());
                text
            },
            (Some(resolution), None) => resolution.clone(),
            (None, Some(bandwidth)) => bitrate_label(bandwidth),
            (None, None) => "自动清晰度".to_string(),
        };
        if let Some(codecs) = &self.codecs {
            if !codecs.as_str().is_empty() {
                quality.append(" · ");
                quality.append(codecs.as_str());
            }
        }
        quality
    }
}

/// The kinds of media that are told apart.
#[derive(Clone, Copy, Debug, PartialEq, Eq, Structural)]
pub enum MediaType {
    Hls,
    Dash,
    Mp4,
    Webm,
    Unknown,
}

/// The kind of media at an address: its first mark in the address or the content type,
/// looked for without regard to ASCII case.
pub open spec fn media_type_of(url: Seq<char>, mime: Seq<char>) -> MediaType {
    let url = lower(url);
    let mime = lower(mime);
    if holds(url, ".m3u8"@) || holds(mime, "mpegurl"@) {
        MediaType::Hls
    } else if holds(url, ".mpd"@) || holds(mime, "dash"@) {
        MediaType::Dash
    } else if holds(url, ".mp4"@) || holds(mime, "mp4"@) {
        MediaType::Mp4
    } else if holds(url, ".webm"@) || holds(mime, "webm"@) {
        MediaType::Webm
    } else {
        MediaType::Unknown
    }
}

/// The name of a kind of media.
pub open spec fn media_label(media_type: MediaType) -> Seq<char> {
    match media_type {
        MediaType::Hls => "HLS"@,
        MediaType::Dash => "DASH"@,
        MediaType::Mp4 => "MP4"@,
        MediaType::Webm => "WEBM"@,
        MediaType::Unknown => "未知"@,
    }
}

/// A text, or the empty one in place of none.
pub open spec fn or_empty(text: Option<Seq<char>>) -> Seq<char> {
    match text {
        Some(t) => t,
        None => Seq::empty(),
    }
}

impl MediaType {
    /// The kind of media at an address.
    pub fn from_url_and_mime(url: &str, mime: Option<&str>) -> (r: MediaType)
        ensures
            r == media_type_of(url@, or_empty(maybe(mime))),
    {
        let lower_url = to_lower(url);
        let lower_mime = match mime {
            Some(text) => to_lower(text),
            None => String::new(),
        };
        proof {
            assert(lower(Seq::<char>::empty()) =~= Seq::<char>::empty());
        }
        let url = lower_url.as_str();
        let mime = lower_mime.as_str();
        if has_part(url, ".m3u8") || has_part(mime, "mpegurl") {
            MediaType::Hls
        } else if has_part(url, ".mpd") || has_part(mime, "dash") {
            MediaType::Dash
        } else if has_part(url, ".mp4") || has_part(mime, "mp4") {
            MediaType::Mp4
        } else if has_part(url, ".webm") || has_part(mime, "webm") {
            MediaType::Webm
        } else {
            MediaType::Unknown
        }
    }

    /// The name of the kind.
    pub fn label(self) -> (r: &'static str)
        ensures
            r@ == media_label(self),
    {
        match self {
            MediaType::Hls => "HLS",
            MediaType::Dash => "DASH",
            MediaType::Mp4 => "MP4",
            MediaType::Webm => "WEBM",
            MediaType::Unknown => "未知",
        }
    }

    /// Whether media of this kind can be downloaded.
    pub fn is_downloadable(self) -> (r: bool)
        ensures
            r == (self != MediaType::Dash),
    {
        match self {
            MediaType::Dash => false,
            _ => true,
        }
    }
}

/// The name of the file at an address: what follows the last slash before the query, or
/// "video" if that is nothing.
pub open spec fn url_filename(url: Seq<char>) -> Seq<char> {
    let name = last_piece(before(url, '?'), '/');
    if name.len() > 0 {
        name
    } else {
        "video"@
    }
}

/// The name of the file at an address.
pub fn filename_from_url(url: &str) -> (r: String)
    ensures
        r@ == url_filename(url@),
{
    let name = final_piece(piece_before(url, '?'), '/');
    if name.is_empty() {
        "video".to_string()
    } else {
        name.to_string()
    }
}

/// A media stream that can be offered for download.
pub struct MediaItem {
    pub id: u128,
    pub url: String,
    pub page_url: Option<String>,
    pub title: String,
    pub media_type: MediaType,
    pub headers: Vec<HeaderPair>,
    pub hls_variants: Vec<HlsVariant>,
    pub selected_hls_variant_url: Option<String>,
    pub hls_status: Option<String>,
    /// Milliseconds since the start of 1970, UTC.
    pub detected_at: i64,
    pub content_length: Option<u64>,
    pub duration_seconds: Option<u64>,
    pub audio: Option<MediaSidecar>,
}

#[verifier::ext_equal]
pub struct MediaItemView {
    pub id: u128,
    pub url: Seq<char>,
    pub page_url: Option<Seq<char>>,
    pub title: Seq<char>,
    pub media_type: MediaType,
    pub headers: Seq<HeaderPairView>,
    pub hls_variants: Seq<HlsVariantView>,
    pub selected_hls_variant_url: Option<Seq<char>>,
    pub hls_status: Option<Seq<char>>,
    pub detected_at: i64,
    pub content_length: Option<u64>,
    pub duration_seconds: Option<u64>,
    pub audio: Option<MediaSidecarView>,
}

impl View for MediaItem {
    type V = MediaItemView;

    open spec fn view(&self) -> MediaItemView {
        MediaItemView {
            id: self.id,
            url: self.url@,
            page_url: maybe(self.page_url),
            title: self.title@,
            media_type: self.media_type,
            headers: each(self.headers@),
            hls_variants: each(self.hls_variants@),
            selected_hls_variant_url: maybe(self.selected_hls_variant_url),
            hls_status: maybe(self.hls_status),
            detected_at: self.detected_at,
            content_length: self.content_length,
            duration_seconds: self.duration_seconds,
            audio: maybe(self.audio),
        }
    }
}

impl Clone for MediaItem {
    fn clone(&self) -> (r: Self)
        ensures
            r@ == self@,
    {
        MediaItem {
            id: self.id,
            url: self.url.clone(),
            page_url: self.page_url.clone(),
            title: self.title.clone(),
            media_type: self.media_type,
            headers: copy_headers(&self.headers),
            hls_variants: self.hls_variants.clone(),
            selected_hls_variant_url: self.selected_hls_variant_url.clone(),
            hls_status: self.hls_status.clone(),
            detected_at: self.detected_at,
            content_length: self.content_length,
            duration_seconds: self.duration_seconds,
            audio: self.audio.clone(),
        }
    }
}

/// The media item that a reported request stands for, with its identity and the time it
/// was seen.
pub open spec fn item_of(candidate: MediaCandidateView, id: u128, at: i64) -> MediaItemView {
    MediaItemView {
        id,
        url: candidate.url,
        page_url: candidate.page_url,
        title: match candidate.title {
            Some(title) if trimmed(title).len() > 0 => title,
            _ => url_filename(candidate.url),
        },
        media_type: media_type_of(candidate.url, or_empty(candidate.mime_type)),
        headers: candidate.request_headers,
        hls_variants: Seq::empty(),
        selected_hls_variant_url: None,
        hls_status: None,
        detected_at: at,
        content_length: candidate.content_length,
        duration_seconds: candidate.duration_seconds,
        audio: None,
    }
}

/// The address that a download of an item fetches: for HLS the chosen quality, else the
/// first one, if there is any.
pub open spec fn download_url(item: MediaItemView) -> Seq<char> {
    if item.media_type != MediaType::Hls {
        item.url
    } else if item.selected_hls_variant_url is Some {
        item.selected_hls_variant_url->0
    } else if item.hls_variants.len() > 0 {
        item.hls_variants[0].url
    } else {
        item.url
    }
}

impl MediaItem {
    /// The media item that a reported request stands for, with a new identity, seen now.
    pub fn from(candidate: MediaCandidate) -> (r: MediaItem)
        ensures
            is_random_uuid(r.id),
            r@ == item_of(candidate@, r.id, r.detected_at),
    {
        let id = fresh_id();
        let at = now_millis();
        MediaItem::seen(candidate, id, at)
    }

    /// The media item that a reported request stands for, with the given identity, seen
    /// at the given time.
    pub fn seen(candidate: MediaCandidate, id: u128, at: i64) -> (r: MediaItem)
        ensures
            r@ == item_of(candidate@, id, at),
    {
        let mime = match &candidate.mime_type {
            Some(text) => Some(text.as_str()),
            None => None,
        };
        let media_type = MediaType::from_url_and_mime(candidate.url.as_str(), mime);
        let title = match candidate.title {
            Some(title) => if is_blank(title.as_str()) {
                filename_from_url(candidate.url.as_str())
            } else {
                title
            },
            None => filename_from_url(candidate.url.as_str()),
        };
        MediaItem {
            id,
            url: candidate.url,
            page_url: candidate.page_url,
            title,
            media_type,
            headers: candidate.request_headers,
            hls_variants: Vec::new(),
            selected_hls_variant_url: None,
            hls_status: None,
            detected_at: at,
            content_length: candidate.content_length,
            duration_seconds: candidate.duration_seconds,
            audio: None,
        }
    }

    /// The address that a download of the item fetches.
    pub fn selected_hls_url(&self) -> (r: String)
        ensures
            r@ == download_url(self@),
    {
        if self.media_type != MediaType::Hls {
            return self.url.clone();
        }
        match &self.selected_hls_variant_url {
            Some(url) => url.clone(),
            None => if self.hls_variants.len() > 0 {
                self.hls_variants[0].url.clone()
            } else {
                self.url.clone()
            },
        }
    }
}

/// How far a download has come.
#[derive(Clone, Copy, Debug, PartialEq, Eq, Structural)]
pub enum DownloadStatus {
    Queued,
    Downloading,
    Paused,
    Completed,
    Failed,
    Unsupported,
}

impl DownloadStatus {
    /// The name of the status.
    pub fn label(self) -> (r: &'static str)
        ensures
            r@ == (match self {
                DownloadStatus::Queued => "等待中"@,
                DownloadStatus::Downloading => "下载中"@,
                DownloadStatus::Paused => "已暂停"@,
                DownloadStatus::Completed => "已完成"@,
                DownloadStatus::Failed => "失败"@,
                DownloadStatus::Unsupported => "暂不支持"@,
            }),
    {
        match self {
            DownloadStatus::Queued => "等待中",
            DownloadStatus::Downloading => "下载中",
            DownloadStatus::Paused => "已暂停",
            DownloadStatus::Completed => "已完成",
            DownloadStatus::Failed => "失败",
            DownloadStatus::Unsupported => "暂不支持",
        }
    }
}

/// A part of a whole: `done` of `whole`.
#[derive(Clone, Copy, Debug, PartialEq, Eq, Structural)]
pub struct Progress {
    pub done: u64,
    pub whole: u64,
}

/// The progress at `done` of `whole`, between nothing and everything; a whole of nothing
/// counts as one.
pub open spec fn progress_of(done: nat, whole: nat) -> Progress {
    let whole = if whole == 0 {
        1
    } else {
        whole
    };
    Progress {
        done: (if done < whole {
            done
        } else {
            whole
        }) as u64,
        whole: whole as u64,
    }
}

impl Progress {
    /// A part of a whole, and not nothing as the whole.
    pub open spec fn wf(self) -> bool {
        &&& 1 <= self.whole
        &&& self.done <= self.whole
    }

    /// The progress at `done` of `whole`.
    pub fn of(done: u64, whole: u64) -> (r: Progress)
        ensures
            r == progress_of(done as nat, whole as nat),
            r.wf(),
    {
        let whole: u64 = if whole == 0 {
            1
        } else {
            whole
        };
        Progress {
            done: if done < whole {
                done
            } else {
                whole
            },
            whole,
        }
    }
}

/// A download.
pub struct DownloadTask {
    pub id: u128,
    pub media_id: u128,
    pub title: String,
    pub url: String,
    pub media_type: MediaType,
    pub status: DownloadStatus,
    pub progress: Progress,
    pub downloaded_bytes: u64,
    pub total_bytes: Option<u64>,
    pub completed_segments: usize,
    pub message: String,
    /// The path of the saved file, once there is one.
    pub file_path: Option<String>,
}

#[verifier::ext_equal]
pub struct DownloadTaskView {
    pub id: u128,
    pub media_id: u128,
    pub title: Seq<char>,
    pub url: Seq<char>,
    pub media_type: MediaType,
    pub status: DownloadStatus,
    pub progress: Progress,
    pub downloaded_bytes: u64,
    pub total_bytes: Option<u64>,
    pub completed_segments: usize,
    pub message: Seq<char>,
    pub file_path: Option<Seq<char>>,
}

impl View for DownloadTask {
    type V = DownloadTaskView;

    open spec fn view(&self) -> DownloadTaskView {
        DownloadTaskView {
            id: self.id,
            media_id: self.media_id,
            title: self.title@,
            url: self.url@,
            media_type: self.media_type,
            status: self.status,
            progress: self.progress,
            downloaded_bytes: self.downloaded_bytes,
            total_bytes: self.total_bytes,
            completed_segments: self.completed_segments,
            message: self.message@,
            file_path: maybe(self.file_path),
        }
    }
}

impl Clone for DownloadTask {
    fn clone(&self) -> (r: Self)
        ensures
            r@ == self@,
    {
        DownloadTask {
            id: self.id,
            media_id: self.media_id,
            title: self.title.clone(),
            url: self.url.clone(),
            media_type: self.media_type,
            status: self.status,
            progress: self.progress,
            downloaded_bytes: self.downloaded_bytes,
            total_bytes: self.total_bytes,
            completed_segments: self.completed_segments,
            message: self.message.clone(),
            file_path: self.file_path.clone(),
        }
    }
}

/// What the user can set.
pub struct Settings {
    pub save_dir: String,
    pub max_tasks: usize,
    pub part_threads: usize,
    pub min_media_size_mb: u64,
    pub listen_port: u16,
    pub request_retry_attempts: usize,
    pub part_retry_attempts: usize,
}

#[verifier::ext_equal]
pub struct SettingsView {
    pub save_dir: Seq<char>,
    pub max_tasks: usize,
    pub part_threads: usize,
    pub min_media_size_mb: u64,
    pub listen_port: u16,
    pub request_retry_attempts: usize,
    pub part_retry_attempts: usize,
}

impl View for Settings {
    type V = SettingsView;

    open spec fn view(&self) -> SettingsView {
        SettingsView {
            save_dir: self.save_dir@,
            max_tasks: self.max_tasks,
            part_threads: self.part_threads,
            min_media_size_mb: self.min_media_size_mb,
            listen_port: self.listen_port,
            request_retry_attempts: self.request_retry_attempts,
            part_retry_attempts: self.part_retry_attempts,
        }
    }
}

impl Clone for Settings {
    fn clone(&self) -> (r: Self)
        ensures
            r@ == self@,
    {
        Settings {
            save_dir: self.save_dir.clone(),
            max_tasks: self.max_tasks,
            part_threads: self.part_threads,
            min_media_size_mb: self.min_media_size_mb,
            listen_port: self.listen_port,
            request_retry_attempts: self.request_retry_attempts,
            part_retry_attempts: self.part_retry_attempts,
        }
    }
}

/// Everything that the application knows.
pub struct AppState {
    /// The media seen, newest first.
    pub detected: VecDeque<MediaItem>,
    /// The sound streams seen that belong to no item yet, newest first.
    pub pending_audio: VecDeque<MediaSidecar>,
    pub tasks: Vec<DownloadTask>,
    pub settings: Settings,
}

#[verifier::ext_equal]
pub struct AppStateView {
    pub detected: Seq<MediaItemView>,
    pub pending_audio: Seq<MediaSidecarView>,
    pub tasks: Seq<DownloadTaskView>,
    pub settings: SettingsView,
}

impl View for AppState {
    type V = AppStateView;

    open spec fn view(&self) -> AppStateView {
        AppStateView {
            detected: each(self.detected@),
            pending_audio: each(self.pending_audio@),
            tasks: each(self.tasks@),
            settings: self.settings@,
        }
    }
}

impl Clone for AppState {
    fn clone(&self) -> (r: Self)
        ensures
            r@ == self@,
    {
        AppState {
            detected: self.detected.clone(),
            pending_audio: self.pending_audio.clone(),
            tasks: self.tasks.clone(),
            settings: self.settings.clone(),
        }
    }
}

/// The number of attempts at a request until the user sets another.
pub const DEFAULT_ATTEMPTS: usize = 4;

/// The settings at the first start.
pub open spec fn default_settings(save_dir: Seq<char>) -> SettingsView {
    SettingsView {
        save_dir,
        max_tasks: 3,
        part_threads: 8,
        min_media_size_mb: 10,
        listen_port: 37651,
        request_retry_attempts: DEFAULT_ATTEMPTS,
        part_retry_attempts: DEFAULT_ATTEMPTS,
    }
}

/// The state together with a count of its changes.
pub struct SharedState {
    app: AppState,
    revision: u64,
}

impl SharedState {
    /// The application state as it is stored.
    pub closed spec fn stored(self) -> AppState {
        self.app
    }

    /// The application state.
    pub open spec fn app(self) -> AppStateView {
        self.stored()@
    }

    /// The number of the current version.
    pub closed spec fn version(self) -> u64 {
        self.revision
    }

    /// The state at the first start, saving to the given directory.
    pub fn new(save_dir: String) -> (r: SharedState)
        ensures
            r.app() == (AppStateView {
                detected: Seq::empty(),
                pending_audio: Seq::empty(),
                tasks: Seq::empty(),
                settings: default_settings(save_dir@),
            }),
            r.version() == 1,
    {
        SharedState {
            app: AppState {
                detected: VecDeque::new(),
                pending_audio: VecDeque::new(),
                tasks: Vec::new(),
                settings: Settings {
                    save_dir,
                    max_tasks: 3,
                    part_threads: 8,
                    min_media_size_mb: 10,
                    listen_port: 37651,
                    request_retry_attempts: DEFAULT_ATTEMPTS,
                    part_retry_attempts: DEFAULT_ATTEMPTS,
                },
            },
            revision: 1,
        }
    }

    /// What `f` makes of the state.
    pub fn read<R, F: FnOnce(&AppState) -> R>(&self, f: F) -> (r: R)
        requires
            f.requires((&self.stored(),)),
        ensures
            f.ensures((&self.stored(),), r),
    {
        f(&self.app)
    }

    /// Lets `f` change the state, and counts the change.
    pub fn write<R, F: FnOnce(&mut AppState) -> R>(&mut self, f: F) -> (r: R)
        requires
            forall|app: &mut AppState| *app == old(self).stored() ==> f.requires((app,)),
        ensures
            exists|app: &mut AppState| {
                &&& *app == old(self).stored()
                &&& *final(app) == final(self).stored()
                &&& #[trigger] f.ensures((app,), r)
            },
            final(self).version() == next_version(old(self).version()),
    {
        let r = f(&mut self.app);
        self.bump();
        r
    }

    /// The state, for a change that is not counted by itself.
    pub(crate) fn app_mut(&mut self) -> (r: &mut AppState)
        ensures
            *r == old(self).stored(),
            *final(r) == final(self).stored(),
            final(self).version() == old(self).version(),
    {
        &mut self.app
    }

    /// The number of the current version.
    pub fn revision(&self) -> (r: u64)
        ensures
            r == self.version(),
    {
        self.revision
    }

    /// Counts a change.
    pub fn bump(&mut self)
        ensures
            final(self).version() == next_version(old(self).version()),
            final(self).stored() == old(self).stored(),
    {
        self.revision = self.revision.wrapping_add(1);
    }
}

/// The number after a version's: after the largest comes 0.
pub open spec fn next_version(version: u64) -> u64 {
    if version == u64::MAX {
        0
    } else {
        (version + 1) as u64
    }
}

} // verus!
