use video_sniffer::downloader::enqueue_download_as;
use video_sniffer::panel::{
    address_to_copy, can_pause, can_resume, clear_undownloaded_detected, counts,
    follow_double_click, follow_item, follow_settings, may_go_on, missing_record_note,
    pause_download, remove_detected, remove_task, resume_download, saved_file, selected_task,
    switch_view, take_up, visible_tasks, AppView, FileClick, SettingsClick, SettingsDraft,
};
use video_sniffer::run::Run;
use video_sniffer::sniffer::receive_media_as;
use video_sniffer::state::{
    filename_from_url, AppState, DownloadStatus, HlsVariant, MediaCandidate, MediaItem, MediaType,
    Progress, SharedState,
};

fn candidate(url: &str) -> MediaCandidate {
    MediaCandidate {
        url: url.to_string(),
        page_url: None,
        title: None,
        mime_type: None,
        method: None,
        request_headers: Vec::new(),
        content_length: None,
        duration_seconds: None,
    }
}

fn app_with_items(count: u128) -> AppState {
    let shared = SharedState::new("videos".to_string());
    let mut app = shared.read(|app: &AppState| app.clone());
    for id in 0..count {
        receive_media_as(&mut app, candidate(&format!("https://a/{id}.mp4")), id, 0);
    }
    app
}

#[test]
fn the_state_starts_with_the_defaults() {
    let mut shared = SharedState::new("videos".to_string());
    assert_eq!(shared.revision(), 1);
    let settings = shared.read(|app: &AppState| app.settings.clone());
    assert_eq!(settings.save_dir, "videos");
    assert_eq!(settings.max_tasks, 3);
    assert_eq!(settings.part_threads, 8);
    assert_eq!(settings.min_media_size_mb, 10);
    assert_eq!(settings.listen_port, 37651);
    assert_eq!(settings.request_retry_attempts, 4);
    assert_eq!(settings.part_retry_attempts, 4);
    let answer = shared.write(|app: &mut AppState| {
        app.settings.max_tasks = 9;
        7
    });
    assert_eq!(answer, 7);
    assert_eq!(shared.revision(), 2);
    assert_eq!(shared.read(|app: &AppState| app.settings.max_tasks), 9);
    shared.bump();
    assert_eq!(shared.revision(), 3);
}

#[test]
fn settings_are_kept_in_bounds() {
    let mut app = app_with_items(0);
    let mut draft = SettingsDraft::from_settings(&app.settings);
    assert_eq!(draft.save_dir, "videos");
    assert_eq!(draft.part_threads, 8);
    draft.save_dir = "  films ".to_string();
    draft.max_tasks = 0;
    draft.part_threads = 65;
    draft.min_media_size_mb = 5000;
    draft.request_retry_attempts = 21;
    draft.part_retry_attempts = 0;
    draft.save_settings(&mut app);
    assert_eq!(app.settings.save_dir, "films");
    assert_eq!(app.settings.max_tasks, 1);
    assert_eq!(app.settings.part_threads, 64);
    assert_eq!(app.settings.min_media_size_mb, 1024);
    assert_eq!(app.settings.request_retry_attempts, 20);
    assert_eq!(app.settings.part_retry_attempts, 1);
    assert_eq!(app.settings.listen_port, 37651);
    SettingsDraft::from_settings(&app.settings).save_settings(&mut app);
    assert_eq!(app.settings.save_dir, "films");
    assert_eq!(app.settings.part_threads, 64);
}

#[test]
fn the_settings_window_closes_on_a_click() {
    let clicks = [
        (SettingsClick::Nothing, true, 3),
        (SettingsClick::Save, false, 7),
        (SettingsClick::Cancel, false, 3),
        (SettingsClick::Close, false, 3),
    ];
    for (click, stays, most) in clicks {
        let mut app = app_with_items(0);
        let mut draft = SettingsDraft::from_settings(&app.settings);
        draft.max_tasks = 7;
        assert_eq!(follow_settings(&mut app, &draft, true, click), stays);
        assert_eq!(app.settings.max_tasks, most);
        let mut app = app_with_items(0);
        assert!(!follow_settings(&mut app, &draft, false, click));
        assert_eq!(app.settings.max_tasks, 3);
    }
}

#[test]
fn an_item_that_is_taken_up_leads_to_the_downloads() {
    let mut app = app_with_items(2);
    let item = app.detected[0].clone();
    assert_eq!(follow_item(&mut app, &item, false, AppView::Sniffing), (None, AppView::Sniffing));
    assert_eq!(app.detected.len(), 2);
    let (id, view) = follow_item(&mut app, &item, true, AppView::Sniffing);
    assert_eq!(view, AppView::Downloading);
    assert_eq!(app.tasks[0].id, id.unwrap());
    assert_eq!(app.detected.len(), 1);
    let mut dash = app.detected[0].clone();
    dash.media_type = MediaType::Dash;
    assert_eq!(follow_item(&mut app, &dash, true, AppView::Sniffing), (None, AppView::Sniffing));
    assert_eq!(app.tasks.len(), 1);
    assert_eq!(address_to_copy(&item), item.url);
}

#[test]
fn a_finished_file_opens_on_a_double_click() {
    let mut app = app_with_items(1);
    let item = app.detected[0].clone();
    enqueue_download_as(&mut app, &item, 5);
    app.tasks[0].file_path = Some("videos/0.mp4".to_string());
    assert_eq!(saved_file(&app, 5), None);
    assert!(matches!(follow_double_click(&mut app, 5, true), FileClick::Nothing));
    app.tasks[0].status = DownloadStatus::Completed;
    assert_eq!(saved_file(&app, 5).as_deref(), Some("videos/0.mp4"));
    assert_eq!(saved_file(&app, 6), None);
    assert!(matches!(
        follow_double_click(&mut app, 5, true),
        FileClick::Open(path) if path == "videos/0.mp4"
    ));
    assert_eq!(app.tasks.len(), 1);
    assert!(matches!(follow_double_click(&mut app, 6, false), FileClick::Nothing));
    assert!(matches!(follow_double_click(&mut app, 5, false), FileClick::Dropped));
    assert_eq!(app.tasks.len(), 0);
}

#[test]
fn leaving_the_sniffing_window_clears_it() {
    let mut app = app_with_items(3);
    let kept = app.detected[1].clone();
    enqueue_download_as(&mut app, &kept, 77);
    switch_view(&mut app, AppView::Sniffing, AppView::Sniffing);
    switch_view(&mut app, AppView::Downloading, AppView::Completed);
    assert_eq!(app.detected.len(), 3);
    switch_view(&mut app, AppView::Sniffing, AppView::Downloading);
    assert_eq!(app.detected.len(), 1);
    assert_eq!(app.detected[0].id, kept.id);
    app.tasks.clear();
    clear_undownloaded_detected(&mut app);
    assert_eq!(app.detected.len(), 0);
}

#[test]
fn items_taken_up_become_downloads() {
    let mut app = app_with_items(3);
    let item = app.detected[1].clone();
    let id = take_up(&mut app, &item);
    assert_eq!(app.detected.len(), 2);
    assert!(app.detected.iter().all(|other| other.id != item.id));
    assert_eq!(app.tasks.len(), 1);
    assert_eq!(app.tasks[0].id, id);
    assert_eq!(app.tasks[0].media_id, item.id);
    remove_detected(&mut app, 0);
    assert_eq!(app.detected.len(), 1);
}

#[test]
fn downloads_are_listed_in_two_windows() {
    let mut app = app_with_items(3);
    let items: Vec<MediaItem> = app.detected.iter().cloned().collect();
    for (i, item) in items.iter().enumerate() {
        enqueue_download_as(&mut app, item, i as u128);
    }
    app.tasks[1].status = DownloadStatus::Completed;
    let found = counts(&app);
    assert_eq!((found.detected, found.running, found.completed), (3, 2, 1));
    let done: Vec<u128> = visible_tasks(&app, true).iter().map(|task| task.id).collect();
    let open: Vec<u128> = visible_tasks(&app, false).iter().map(|task| task.id).collect();
    assert_eq!(done, vec![1]);
    assert_eq!(open, vec![0, 2]);
    assert_eq!(selected_task(&app, Some(2)).unwrap().id, 2);
    assert!(selected_task(&app, Some(9)).is_none());
    assert!(selected_task(&app, None).is_none());
    assert_eq!(remove_task(&mut app, 1, Some(1)), None);
    assert_eq!(remove_task(&mut app, 1, Some(2)), Some(2));
    assert_eq!(app.tasks.len(), 2);
}

#[test]
fn downloads_are_paused_and_resumed() {
    let mut app = app_with_items(1);
    let item = app.detected[0].clone();
    enqueue_download_as(&mut app, &item, 5);
    assert!(!may_go_on(&app, 5));
    Run::begin(&mut app, 5, Vec::new(), false);
    assert!(may_go_on(&app, 5));
    app.tasks[0].downloaded_bytes = 10;
    app.tasks[0].progress = Progress { done: 10, whole: 40 };
    assert!(pause_download(&mut app, 5));
    assert_eq!(app.tasks[0].status, DownloadStatus::Paused);
    assert_eq!(app.tasks[0].message, "已暂停");
    assert_eq!(app.tasks[0].downloaded_bytes, 10);
    assert!(!may_go_on(&app, 5));
    assert!(!pause_download(&mut app, 5));
    assert!(resume_download(&mut app, 5));
    assert_eq!(app.tasks[0].status, DownloadStatus::Queued);
    assert_eq!(app.tasks[0].downloaded_bytes, 10);
    assert_eq!(app.tasks[0].progress, Progress { done: 10, whole: 40 });
    app.tasks[0].status = DownloadStatus::Completed;
    assert!(!pause_download(&mut app, 5));
    assert!(!resume_download(&mut app, 5));
    assert_eq!(app.tasks[0].status, DownloadStatus::Completed);
    assert!(!pause_download(&mut app, 6));
    assert!(!resume_download(&mut app, 6));
}

#[test]
fn statuses_say_what_can_be_done() {
    let all = [
        (DownloadStatus::Queued, true, true, "等待中"),
        (DownloadStatus::Downloading, true, false, "下载中"),
        (DownloadStatus::Paused, false, true, "已暂停"),
        (DownloadStatus::Completed, false, false, "已完成"),
        (DownloadStatus::Failed, false, true, "失败"),
        (DownloadStatus::Unsupported, false, false, "暂不支持"),
    ];
    for (status, pause, resume, label) in all {
        assert_eq!(can_pause(status), pause);
        assert_eq!(can_resume(status), resume);
        assert_eq!(status.label(), label);
    }
    assert_eq!(
        missing_record_note(DownloadStatus::Completed),
        "任务已完成，临时分片记录已清理。"
    );
    assert_eq!(
        missing_record_note(DownloadStatus::Failed),
        "任务开始分片下载后会生成临时记录。"
    );
}

#[test]
fn kinds_are_told_by_address_and_type() {
    let cases = [
        ("https://a/x.M3U8", None, MediaType::Hls, "HLS"),
        ("https://a/x", Some("application/vnd.apple.mpegURL"), MediaType::Hls, "HLS"),
        ("https://a/x.mpd", None, MediaType::Dash, "DASH"),
        ("https://a/x", Some("application/dash+xml"), MediaType::Dash, "DASH"),
        ("https://a/x.mp4", None, MediaType::Mp4, "MP4"),
        ("https://a/x", Some("video/webm"), MediaType::Webm, "WEBM"),
        ("https://a/x", None, MediaType::Unknown, "未知"),
    ];
    for (url, mime, kind, label) in cases {
        let found = MediaType::from_url_and_mime(url, mime);
        assert_eq!(found, kind);
        assert_eq!(found.label(), label);
        assert_eq!(found.is_downloadable(), kind != MediaType::Dash);
    }
}

#[test]
fn file_names_come_from_the_address() {
    assert_eq!(filename_from_url("https://a/b/film.mp4?x=/y"), "film.mp4");
    assert_eq!(filename_from_url("https://a/b/?x"), "video");
    assert_eq!(filename_from_url(""), "video");
    assert_eq!(filename_from_url("film"), "film");
}

#[test]
fn qualities_are_named() {
    let quality = |bandwidth, resolution: Option<&str>, codecs: Option<&str>| HlsVariant {
        url: String::new(),
        bandwidth,
        resolution: resolution.map(|text| text.to_string()),
        codecs: codecs.map(|text| text.to_string()),
    };
    assert_eq!(quality(Some(1_500_000), Some("1x2"), Some("c")).label(), "1x2 · 1.5 Mbps · c");
    assert_eq!(quality(None, Some("1x2"), Some("")).label(), "1x2");
    assert_eq!(quality(Some(999), None, None).label(), "999 bps");
    assert_eq!(quality(None, None, None).label(), "自动清晰度");
}

#[test]
fn items_are_made_from_reports() {
    let mut report = candidate("https://a/x.m3u8");
    report.title = Some(" ".to_string());
    let item = MediaItem::from(report);
    assert_eq!(item.title, "x.m3u8");
    assert_eq!(item.selected_hls_url(), "https://a/x.m3u8");
    assert_eq!((item.id >> 76) % 16, 4);
}

#[test]
fn progress_stays_a_part_of_the_whole() {
    assert_eq!(Progress::of(5, 10), Progress { done: 5, whole: 10 });
    assert_eq!(Progress::of(15, 10), Progress { done: 10, whole: 10 });
    assert_eq!(Progress::of(0, 0), Progress { done: 0, whole: 1 });
}
