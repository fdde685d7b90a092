use video_sniffer::ids::{id_of, id_text};
use video_sniffer::intake::{
    add_address, add_address_as, restore_download, restore_from, AddressError,
};
use video_sniffer::record::{write_record, RangePart, Record, SegmentPart};
use video_sniffer::state::{
    AppState, DownloadStatus, HeaderPair, MediaType, Progress, SharedState,
};

fn empty_app() -> AppState {
    SharedState::new("videos".to_string()).read(|app: &AppState| app.clone())
}

fn record() -> Record {
    Record {
        title: "Film".to_string(),
        url: "https://a/x.m3u8".to_string(),
        media_type: MediaType::Hls,
        media_id: 5,
        headers: vec![HeaderPair { name: "Cookie".to_string(), value: "a=b".to_string() }],
        segmented: true,
        total_bytes: 0,
        segments: vec![
            SegmentPart { bytes: 10, completed: true },
            SegmentPart { bytes: 0, completed: false },
            SegmentPart { bytes: 20, completed: true },
        ],
        ranges: Vec::new(),
    }
}

#[test]
fn a_typed_address_becomes_a_download() {
    let mut app = empty_app();
    let id = add_address(&mut app, "  https://a/b/film.mp4?x=1 ").unwrap();
    assert_eq!((id >> 76) % 16, 4);
    let task = &app.tasks[0];
    assert_eq!(task.id, id);
    assert_eq!(task.url, "https://a/b/film.mp4?x=1");
    assert_eq!(task.title, "film.mp4");
    assert_eq!(task.media_type, MediaType::Mp4);
    assert_eq!(task.status, DownloadStatus::Queued);
    assert_eq!(task.message, "等待下载");
    assert_eq!(app.detected.len(), 0);
    add_address_as(&mut app, "https://a/m.m3u8", Ok("https://a/m.m3u8".to_string()), 8, 9, 0).unwrap();
    assert_eq!(app.tasks[1].id, 9);
    assert_eq!(app.tasks[1].media_id, 8);
    assert_eq!(app.tasks[1].media_type, MediaType::Hls);
}

#[test]
fn what_is_no_address_is_refused() {
    let mut app = empty_app();
    assert!(matches!(add_address(&mut app, " \t"), Err(AddressError::Blank)));
    match add_address(&mut app, "film.mp4") {
        Err(AddressError::BadAddress(reason)) => assert_eq!(reason, "relative URL without a base"),
        _ => panic!("an address was not expected"),
    }
    let refused = add_address_as(&mut app, "x", Err("why".to_string()), 1, 2, 3);
    assert!(matches!(refused, Err(AddressError::BadAddress(reason)) if reason == "why"));
    assert_eq!(app.tasks.len(), 0);
}

#[test]
fn downloads_are_restored_from_their_records() {
    let mut app = empty_app();
    let headers = restore_from(&mut app, &write_record(&record()), 11).unwrap();
    assert_eq!(headers[0].value, "a=b");
    let task = &app.tasks[0];
    assert_eq!(task.id, 11);
    assert_eq!(task.media_id, 5);
    assert_eq!(task.title, "Film");
    assert_eq!(task.url, "https://a/x.m3u8");
    assert_eq!(task.media_type, MediaType::Hls);
    assert_eq!(task.status, DownloadStatus::Paused);
    assert_eq!(task.message, "已暂停");
    assert_eq!(task.completed_segments, 2);
    assert_eq!(task.downloaded_bytes, 30);
    assert_eq!(task.progress, Progress { done: 2, whole: 3 });
    assert_eq!(task.total_bytes, None);
    restore_download(&mut app, &record(), 11);
    assert_eq!(app.tasks.len(), 1);
    assert!(restore_from(&mut app, "{}", 12).is_none());
    assert_eq!(app.tasks.len(), 1);
}

#[test]
fn a_download_in_ranges_is_restored() {
    let mut ranged = record();
    ranged.segmented = false;
    ranged.media_type = MediaType::Mp4;
    ranged.total_bytes = 100;
    ranged.ranges = vec![
        RangePart { start: 0, end: 39, completed: true },
        RangePart { start: 40, end: 99, completed: false },
    ];
    let mut app = empty_app();
    restore_download(&mut app, &ranged, 1);
    assert_eq!(app.tasks[0].downloaded_bytes, 40);
    assert_eq!(app.tasks[0].total_bytes, Some(100));
    assert_eq!(app.tasks[0].progress, Progress { done: 40, whole: 100 });
    assert_eq!(app.tasks[0].completed_segments, 0);
    ranged.ranges.pop();
    restore_download(&mut app, &ranged, 2);
    assert_eq!(app.tasks[1].downloaded_bytes, 0);
}

#[test]
fn identities_read_back() {
    let id = 0x0123456789abcdef_fedcba9876543210u128;
    assert_eq!(id_text(id), "01234567-89ab-cdef-fedc-ba9876543210");
    for id in [0, 1, 11, id, u128::MAX, 1 << 127] {
        assert_eq!(id_of(&id_text(id)), Some(id));
    }
    for text in [
        "",
        "0123456789abcdeffedcba9876543210",
        "01234567-89AB-cdef-fedc-ba9876543210",
        "01234567-89ab-cdef-fedc-ba987654321",
        "01234567-89ab-cdef-fedc-ba98765432100",
        "01234567089ab-cdef-fedc-ba9876543210",
        "01234567-89ab-cdef-fedc-ba987654321g",
    ] {
        assert_eq!(id_of(text), None, "{text}");
    }
}
