use video_sniffer::manifest::{
    read_manifest, read_manifest_summary, summarize, ManifestReading, SHOWN,
};
use video_sniffer::plan::{
    bytes_come, confirm, find_text, keys_to_fetch, makes_up, plan_ranges, plan_segments,
    ranges_to_fetch, tally_segments, RangeJob,
};
use video_sniffer::hls::HlsCipher;
use video_sniffer::record::{
    read_record, record_from, record_value, write_record, RangePart, Record, SegmentPart,
};
use video_sniffer::state::{HeaderPair, MediaType};

#[test]
fn segments_are_summed_up() {
    let json = r#"{"kind":"Hls","total_parts":5,"hls_parts":[
        {"index":0,"completed":true,"bytes":1536},
        {"index":1,"completed":false,"bytes":10},
        {"index":2,"completed":true},
        {"index":"x","completed":"yes","bytes":-4}]}"#;
    let summary = read_manifest_summary(json).unwrap();
    assert_eq!(summary.kind, "Hls");
    assert_eq!(summary.total_parts, Some(5));
    assert_eq!(summary.completed_parts, 2);
    assert_eq!(summary.pending_parts, Some(3));
    assert_eq!(summary.downloaded_bytes, 1536);
    assert_eq!(
        summary.preview_lines,
        vec![
            "#0: 完成 · 1.5 KB",
            "#1: 待下载 · 10 B",
            "#2: 完成 · 0 B",
            "#0: 待下载 · 0 B",
        ]
    );
}

#[test]
fn ranges_are_summed_up() {
    let json = r#"{"total_parts":0,"range_parts":[
        {"start":0,"end":1023,"completed":true},
        {"start":0,"end":1023,"completed":true},
        {"start":5,"end":2,"completed":true},
        {"start":2000,"end":3000,"completed":false},
        {"completed":true}]}"#;
    let summary = read_manifest_summary(json).unwrap();
    assert_eq!(summary.kind, "Unknown");
    assert_eq!(summary.total_parts, None);
    assert_eq!(summary.completed_parts, 3);
    assert_eq!(summary.pending_parts, None);
    assert_eq!(summary.downloaded_bytes, 1024 + 1024 + 1 + 1);
    assert_eq!(
        summary.preview_lines,
        vec![
            "0-1023: 完成 · 1.0 KB",
            "0-1023: 完成 · 1.0 KB",
            "5-2: 完成 · 1 B",
            "0-0: 完成 · 1 B",
        ]
    );
}

#[test]
fn what_is_not_json_is_no_record() {
    assert!(read_manifest_summary("{").is_none());
    assert!(matches!(read_manifest("{"), ManifestReading::NotJson));
}

#[test]
fn odd_records_are_empty() {
    for json in ["[]", "3", "null", "{}", r#"{"kind":7,"range_parts":{}}"#] {
        let summary = read_manifest_summary(json).unwrap();
        assert_eq!(summary.kind, "Unknown");
        assert_eq!(summary.completed_parts, 0);
        assert_eq!(summary.downloaded_bytes, 0);
        assert_eq!(summary.preview_lines.len(), 0);
    }
    let hls = read_manifest_summary(r#"{"kind":"Hls","total_parts":3}"#).unwrap();
    assert_eq!(hls.pending_parts, Some(3));
}

#[test]
fn only_the_first_lines_are_shown() {
    let part = r#"{"index":1,"completed":true,"bytes":1}"#;
    let list = vec![part; 100].join(",");
    let json = format!("{{\"kind\":\"Hls\",\"total_parts\":90,\"hls_parts\":[{list}]}}");
    let summary = read_manifest_summary(&json).unwrap();
    assert_eq!(summary.preview_lines.len(), SHOWN);
    assert_eq!(summary.completed_parts, 100);
    assert_eq!(summary.pending_parts, Some(0));
    assert_eq!(summary.downloaded_bytes, 100);
}

#[test]
fn records_of_too_many_bytes_are_refused() {
    let json = r#"{"kind":"Hls","hls_parts":[
        {"completed":true,"bytes":18446744073709551615},
        {"completed":true,"bytes":1}]}"#;
    assert!(matches!(read_manifest(json), ManifestReading::TooLarge));
    let fits = r#"{"kind":"Hls","hls_parts":[{"completed":true,"bytes":18446744073709551615}]}"#;
    match read_manifest(fits) {
        ManifestReading::Summary(summary) => assert_eq!(summary.downloaded_bytes, u64::MAX),
        _ => panic!("the bytes fit"),
    }
    let range = r#"{"range_parts":[{"start":0,"end":18446744073709551615,"completed":true}]}"#;
    match read_manifest(range) {
        ManifestReading::Summary(summary) => assert_eq!(summary.downloaded_bytes, u64::MAX),
        _ => panic!("the bytes fit"),
    }
}

#[test]
fn values_are_summed_up_too() {
    let value: serde_json::Value =
        serde_json::from_str(r#"{"kind":"Hls","hls_parts":[{"completed":true,"bytes":2}]}"#).unwrap();
    assert_eq!(summarize(&value).unwrap().downloaded_bytes, 2);
}

fn record(media_type: MediaType, segmented: bool) -> Record {
    Record {
        title: "影片 \"one\"".to_string(),
        url: "https://a/x?y=\\z".to_string(),
        media_type,
        media_id: (7u128 << 64) + 9,
        headers: vec![
            HeaderPair { name: "Cookie".to_string(), value: "a=b".to_string() },
            HeaderPair { name: "Referer".to_string(), value: "https://page".to_string() },
        ],
        segmented,
        total_bytes: u64::MAX,
        segments: vec![
            SegmentPart { bytes: 12, completed: true },
            SegmentPart { bytes: 0, completed: false },
        ],
        ranges: vec![
            RangePart { start: 0, end: 9, completed: false },
            RangePart { start: 10, end: u64::MAX - 1, completed: true },
        ],
    }
}

#[test]
fn records_read_back_as_they_were_written() {
    let kinds = [
        MediaType::Hls,
        MediaType::Dash,
        MediaType::Mp4,
        MediaType::Webm,
        MediaType::Unknown,
    ];
    for media_type in kinds {
        for segmented in [false, true] {
            let was = record(media_type, segmented);
            let now = read_record(&write_record(&was)).unwrap();
            assert_eq!(now.title, was.title);
            assert_eq!(now.url, was.url);
            assert_eq!(now.media_type, was.media_type);
            assert_eq!(now.media_id, was.media_id);
            assert_eq!(now.headers.len(), 2);
            assert_eq!(now.headers[1].name, "Referer");
            assert_eq!(now.headers[1].value, "https://page");
            assert_eq!(now.segmented, was.segmented);
            assert_eq!(now.total_bytes, was.total_bytes);
            assert_eq!(now.segments, was.segments);
            assert_eq!(now.ranges, was.ranges);
            let copy = record_from(&record_value(&was.clone())).unwrap();
            assert_eq!(copy.ranges, was.ranges);
        }
    }
}

#[test]
fn other_texts_are_no_records_of_downloads() {
    for text in ["", "{", "[]", "{}", r#"{"kind":"Hls","title":"x"}"#] {
        assert!(read_record(text).is_none(), "{text}");
    }
}

#[test]
fn a_written_record_is_summed_up() {
    let summary = read_manifest_summary(&write_record(&record(MediaType::Hls, true))).unwrap();
    assert_eq!(summary.kind, "Hls");
    assert_eq!(summary.total_parts, Some(2));
    assert_eq!(summary.completed_parts, 1);
    assert_eq!(summary.pending_parts, Some(1));
    assert_eq!(summary.downloaded_bytes, 12);
    assert_eq!(summary.preview_lines, vec!["#0: 完成 · 12 B", "#1: 待下载 · 0 B"]);
    let ranged = read_manifest_summary(&write_record(&record(MediaType::Mp4, false))).unwrap();
    assert_eq!(ranged.kind, "Range");
    assert_eq!(ranged.completed_parts, 1);
    assert_eq!(ranged.downloaded_bytes, u64::MAX - 10);
}

#[test]
fn ranges_are_planned() {
    let mut plan = plan_ranges(&vec![(0, 2), (3, 5), (6, 6)]);
    assert!(makes_up(&plan, 7));
    assert!(!makes_up(&plan, 8));
    assert!(!makes_up(&vec![], 1));
    assert_eq!(bytes_come(&plan, 7), 0);
    plan[0].completed = true;
    plan[2].completed = true;
    assert_eq!(bytes_come(&plan, 7), 4);
    assert_eq!(ranges_to_fetch(&plan), vec![RangeJob { index: 1, start: 3, end: 5 }]);
    plan[1].start = 4;
    assert!(!makes_up(&plan, 7));
}

#[test]
fn segments_are_planned() {
    let mut plan = plan_segments(3);
    assert_eq!(plan, vec![SegmentPart { bytes: 0, completed: false }; 3]);
    plan[0] = SegmentPart { bytes: u64::MAX, completed: true };
    plan[2] = SegmentPart { bytes: 5, completed: true };
    let tally = tally_segments(&plan);
    assert_eq!(tally.count, 2);
    assert_eq!(tally.bytes, u64::MAX);
    assert_eq!(tally.pending, vec![1]);
    let kept = confirm(&plan, &vec![Some(u64::MAX), Some(3)]);
    assert!(kept[0].completed);
    assert!(!kept[1].completed);
    assert!(!kept[2].completed);
}

#[test]
fn each_key_is_fetched_once() {
    let aes = |url: &str| HlsCipher::Aes { url: url.to_string(), iv: 0 };
    let ciphers = vec![aes("b"), HlsCipher::Plain, aes("a"), aes("b"), HlsCipher::Refused];
    let urls = keys_to_fetch(&ciphers);
    assert_eq!(urls, vec!["b", "a"]);
    assert_eq!(find_text(&urls, "a"), 1);
    assert_eq!(find_text(&urls, "c"), 2);
}
