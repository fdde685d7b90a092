use std::collections::VecDeque;
use video_sniffer::downloader::{
    add_downloaded, add_hls_segment, enqueue_download, enqueue_download_as, find_task, have_room,
    mark_failed, output_filename, part_file_name, range_header, receive_chunk, split_ranges, to_header_map,
    update_progress, with_extension,
};
use video_sniffer::hls::{HlsCipher, HlsPlaylist};
use video_sniffer::plan::RangeJob;
use video_sniffer::record::{write_record, RangePart, Record, SegmentPart};
use video_sniffer::run::{segment_content, Action, Event, Phase, Run, Secret, RANGED_ABOVE};
use video_sniffer::state::{
    AppState, DownloadStatus, HeaderPair, HlsVariant, MediaCandidate, MediaItem, MediaType,
    Progress, Settings,
};

fn item(url: &str, title: &str, id: u128) -> MediaItem {
    MediaItem::seen(
        MediaCandidate {
            url: url.to_string(),
            page_url: None,
            title: Some(title.to_string()),
            mime_type: None,
            method: None,
            request_headers: Vec::new(),
            content_length: None,
            duration_seconds: None,
        },
        id,
        0,
    )
}

fn app_with_threads(part_threads: usize) -> AppState {
    AppState {
        detected: VecDeque::new(),
        pending_audio: VecDeque::new(),
        tasks: Vec::new(),
        settings: Settings {
            save_dir: "videos".to_string(),
            max_tasks: 3,
            part_threads,
            min_media_size_mb: 10,
            listen_port: 37651,
            request_retry_attempts: 4,
            part_retry_attempts: 4,
        },
    }
}

fn sent() -> Vec<HeaderPair> {
    vec![HeaderPair { name: "Referer".to_string(), value: "https://page".to_string() }]
}

/// What a server says of a file when nothing is on disk.
fn head(content_length: Option<String>, accept_ranges: Option<&str>) -> Event {
    Event::Head {
        content_length,
        accept_ranges: accept_ranges.map(|text| text.to_string()),
        record: None,
        existing: None,
    }
}

/// A directory for segments that holds nothing.
fn nothing_there() -> Event {
    Event::Parts { record: None, sizes: Vec::new() }
}

fn started(url: &str, threads: usize) -> (AppState, Run, Action) {
    let mut app = app_with_threads(threads);
    enqueue_download_as(&mut app, &item(url, "Film", 5), 11);
    let (run, action) = Run::begin(&mut app, 11, sent(), false).unwrap();
    (app, run, action)
}

#[test]
fn downloads_wait_at_first() {
    let mut app = app_with_threads(8);
    let media = item("https://a/x.mp4", "Film", 5);
    let id = enqueue_download(&mut app, &media);
    assert_eq!((id >> 76) % 16, 4);
    let task = &app.tasks[0];
    assert_eq!(task.id, id);
    assert_eq!(task.media_id, 5);
    assert_eq!(task.title, "Film");
    assert_eq!(task.url, "https://a/x.mp4");
    assert_eq!(task.status, DownloadStatus::Queued);
    assert_eq!(task.progress, Progress { done: 0, whole: 1 });
    assert_eq!(task.message, "等待下载");
    assert_eq!(task.file_path, None);
    assert_eq!(find_task(&app.tasks, id), 0);
    assert_eq!(find_task(&app.tasks, 1), 1);
    let second = enqueue_download(&mut app, &media);
    assert_ne!(id, second);
}

#[test]
fn downloads_take_the_chosen_quality() {
    let mut app = app_with_threads(8);
    let mut media = item("https://a/x.m3u8", "Film", 5);
    media.selected_hls_variant_url = Some("https://a/high.m3u8".to_string());
    enqueue_download_as(&mut app, &media, 1);
    assert_eq!(app.tasks[0].url, "https://a/high.m3u8");
}

#[test]
fn files_are_cut_into_ranges() {
    assert_eq!(split_ranges(10, 3), vec![(0, 2), (3, 5), (6, 8), (9, 9)]);
    assert_eq!(split_ranges(2, 5), vec![(0, 0), (1, 1)]);
    assert_eq!(split_ranges(0, 5), vec![]);
    assert_eq!(split_ranges(7, 1), vec![(0, 6)]);
    assert_eq!(split_ranges(u64::MAX, 1), vec![(0, u64::MAX - 1)]);
    for total in [1u64, 2, 99, 100, 101, 1_000_003] {
        for parts in [1usize, 2, 3, 7, 64] {
            let ranges = split_ranges(total, parts);
            let mut next = 0;
            for (start, end) in &ranges {
                assert_eq!(*start, next);
                assert!(start <= end);
                next = end + 1;
            }
            assert_eq!(next, total);
            assert!(ranges.len() < 2 * parts);
        }
    }
    assert_eq!(range_header(3, 5), "bytes=3-5");
}

#[test]
fn parts_have_six_digits_or_more() {
    assert_eq!(part_file_name(0), "000000.part");
    assert_eq!(part_file_name(42), "000042.part");
    assert_eq!(part_file_name(1_234_567), "1234567.part");
    for index in 0..2000usize {
        assert_eq!(part_file_name(index), format!("{index:06}.part"));
    }
}

#[test]
fn headers_are_taken_where_they_are_valid() {
    let pair = |name: &str, value: &str| HeaderPair {
        name: name.to_string(),
        value: value.to_string(),
    };
    let map = to_header_map(&[
        pair("Referer", "https://one"),
        pair("bad name", "x"),
        pair("", "x"),
        pair("X-Bad", "line\nbreak"),
        pair("REFERER", "https://two"),
        pair("X-Text", "水\tfire"),
    ]);
    assert_eq!(map.len(), 2);
    assert_eq!(map.get("referer").unwrap().as_bytes(), b"https://two");
    assert_eq!(map.get("x-text").unwrap().as_bytes(), "水\tfire".as_bytes());
    assert!(to_header_map(&[]).is_empty());
}

#[test]
fn header_names_and_values_are_those_of_http() {
    for code in 0..0x180u32 {
        let c = char::from_u32(code).unwrap();
        let name = format!("x{c}");
        let by_name = to_header_map(&[HeaderPair { name: name.clone(), value: "v".to_string() }]);
        let token = c.is_ascii_alphanumeric() || "!#$%&'*+-.^_`|~".contains(c);
        assert_eq!(by_name.len() == 1, token, "{code:x}");
        if token {
            assert!(by_name.get(name.to_ascii_lowercase().as_str()).is_some());
        }
        let by_value = to_header_map(&[HeaderPair {
            name: "x".to_string(),
            value: format!("{c}"),
        }]);
        let printable = (code >= 32 && code != 127) || c == '\t';
        assert_eq!(by_value.len() == 1, printable, "{code:x}");
    }
}

#[test]
fn a_header_map_finds_room_up_to_the_limit() {
    let headers: Vec<HeaderPair> = (0..video_sniffer::outside::HEADER_LIMIT)
        .map(|i| HeaderPair { name: format!("x-{i}"), value: i.to_string() })
        .collect();
    let map = to_header_map(&headers);
    assert_eq!(map.len(), headers.len());
    assert_eq!(map.get("x-77").unwrap().as_bytes(), b"77");
}

#[test]
fn room_is_taken_by_names_alone() {
    let limit = video_sniffer::outside::HEADER_LIMIT;
    let pair = |name: String| HeaderPair { name, value: "v".to_string() };
    let mut headers: Vec<HeaderPair> = (1..limit).map(|i| pair(format!("x-{i}"))).collect();
    headers.push(pair("X-1".to_string()));
    headers.push(pair("bad name".to_string()));
    headers.push(pair("last".to_string()));
    assert!(have_room(&headers));
    assert_eq!(to_header_map(&headers).len(), limit);
    headers.push(pair("one-more".to_string()));
    assert!(!have_room(&headers));
    assert!(have_room(&[]));
}

#[test]
fn files_are_named_after_the_title() {
    let mut app = app_with_threads(1);
    enqueue_download_as(&mut app, &item("https://a/x.mp4", "A/B: \"C\"?", 1), 1);
    assert_eq!(output_filename(&app.tasks[0], false), "AB C.mp4");
    enqueue_download_as(&mut app, &item("https://a/clip.webm?q", "???", 1), 2);
    assert_eq!(output_filename(&app.tasks[1], false), "clip.webm");
    enqueue_download_as(&mut app, &item("https://a/x.m3u8", "Show.TS", 1), 3);
    assert_eq!(output_filename(&app.tasks[2], false), "Show.TS");
    enqueue_download_as(&mut app, &item("https://a/x.m3u8", "con", 1), 4);
    assert_eq!(output_filename(&app.tasks[3], false), "con.ts");
    assert_eq!(output_filename(&app.tasks[3], true), "x.m3u8.ts");
    assert_eq!(with_extension("a".to_string(), MediaType::Dash), "a.mp4");
    assert_eq!(with_extension("a.mp4".to_string(), MediaType::Mp4), "a.mp4");
}

#[test]
fn progress_is_noted() {
    let mut app = app_with_threads(8);
    enqueue_download_as(&mut app, &item("https://a/x.mp4", "Film", 5), 1);
    update_progress(&mut app, 1, 1536, Some(3072));
    assert_eq!(app.tasks[0].downloaded_bytes, 1536);
    assert_eq!(app.tasks[0].total_bytes, Some(3072));
    assert_eq!(app.tasks[0].progress, Progress { done: 1536, whole: 3072 });
    assert_eq!(app.tasks[0].message, "1.5 KB");
    update_progress(&mut app, 1, 10, None);
    assert_eq!(app.tasks[0].progress, Progress { done: 0, whole: 1 });
    update_progress(&mut app, 1, 10, Some(0));
    assert_eq!(app.tasks[0].progress, Progress { done: 1, whole: 1 });
    assert_eq!(receive_chunk(&mut app, 1, 10, 5, Some(30)), 15);
    assert_eq!(app.tasks[0].progress, Progress { done: 15, whole: 30 });
    add_downloaded(&mut app, 1, 10, 20);
    assert_eq!(app.tasks[0].downloaded_bytes, 20);
    assert_eq!(app.tasks[0].message, "20 B / 20 B");
    add_hls_segment(&mut app, 1, 3, 4, u64::MAX);
    assert_eq!(app.tasks[0].downloaded_bytes, u64::MAX);
    assert_eq!(app.tasks[0].completed_segments, 1);
    assert_eq!(app.tasks[0].progress, Progress { done: 1, whole: 4 });
    assert_eq!(
        app.tasks[0].message,
        format!("已下载分片 1/4，最近完成 #3，累计 {:.2} GB", u64::MAX as f64 / 1073741824.0)
    );
    mark_failed(&mut app, 1, "gone".to_string());
    assert_eq!(app.tasks[0].status, DownloadStatus::Failed);
    assert_eq!(app.tasks[0].message, "gone");
    mark_failed(&mut app, 2, "other".to_string());
    assert_eq!(app.tasks[0].message, "gone");
}

#[test]
fn dash_is_not_supported() {
    let (app, run, action) = started("https://a/x.mpd", 8);
    assert_eq!(run.phase, Phase::Over);
    assert!(matches!(action, Action::Stop));
    assert_eq!(app.tasks[0].status, DownloadStatus::Unsupported);
    assert_eq!(app.tasks[0].message, "DASH 下载将在下一步加入解析与音视频合并");
}

#[test]
fn unknown_downloads_do_not_begin() {
    let mut app = app_with_threads(8);
    assert!(Run::begin(&mut app, 1, Vec::new(), false).is_none());
}

#[test]
fn a_large_file_comes_in_ranges() {
    let (mut app, mut run, action) = started("https://a/x.mp4", 4);
    assert!(matches!(action, Action::CreateDirectory { path } if path == "videos"));
    assert_eq!(app.tasks[0].status, DownloadStatus::Downloading);
    assert_eq!(app.tasks[0].message, "正在连接服务器");
    let action = run.advance(&mut app, Event::Done);
    match action {
        Action::RequestHead { url, file_name, directory } => {
            assert_eq!(url, "https://a/x.mp4");
            assert_eq!(file_name, "Film.mp4");
            assert_eq!(directory, "00000000-0000-0000-0000-00000000000b");
        }
        _ => panic!("a question was expected"),
    }
    let length = RANGED_ABOVE + 1;
    let action = run.advance(&mut app, head(Some(length.to_string()), Some("Bytes")));
    match action {
        Action::FetchRanges { url, file_name, directory, total, ranges, threads, record } => {
            assert_eq!(url, "https://a/x.mp4");
            assert_eq!(file_name, "Film.mp4");
            assert_eq!(directory, "00000000-0000-0000-0000-00000000000b");
            assert_eq!(total, length);
            let cut: Vec<(u64, u64)> = ranges.iter().map(|job| (job.start, job.end)).collect();
            assert_eq!(cut, split_ranges(length, 4));
            assert!(ranges.iter().enumerate().all(|(i, job)| job.index == i));
            assert_eq!(threads, 4);
            assert!(!record.segmented);
            assert_eq!(record.title, "Film");
            assert_eq!(record.media_id, 5);
            assert_eq!(record.total_bytes, length);
            assert_eq!(record.headers[0].value, "https://page");
            assert_eq!(record.ranges.len(), cut.len());
            assert!(record.ranges.iter().all(|part| !part.completed));
        }
        _ => panic!("ranges were expected"),
    }
    assert_eq!(app.tasks[0].total_bytes, Some(length));
    assert_eq!(app.tasks[0].message, "服务器支持分片下载，线程数 4");
    let action = run.advance(&mut app, Event::Written("videos/Film.mp4".to_string()));
    assert!(matches!(action, Action::Stop));
    assert_eq!(run.phase, Phase::Over);
    assert_eq!(app.tasks[0].status, DownloadStatus::Completed);
    assert_eq!(app.tasks[0].progress, Progress { done: 1, whole: 1 });
    assert_eq!(app.tasks[0].message, "下载完成");
    assert_eq!(app.tasks[0].file_path.as_deref(), Some("videos/Film.mp4"));
    run.advance(&mut app, Event::Failed("late".to_string()));
    assert_eq!(app.tasks[0].status, DownloadStatus::Completed);
}

fn ranges_record(total: u64, ranges: Vec<RangePart>) -> Record {
    Record {
        title: "Film".to_string(),
        url: "https://a/x.mp4".to_string(),
        media_type: MediaType::Mp4,
        media_id: 5,
        headers: sent(),
        segmented: false,
        total_bytes: total,
        segments: Vec::new(),
        ranges,
    }
}

#[test]
fn a_file_is_taken_up_where_it_stopped() {
    let total = 4_000_000;
    let ranges = vec![
        RangePart { start: 0, end: 999_999, completed: true },
        RangePart { start: 1_000_000, end: 2_499_999, completed: false },
        RangePart { start: 2_500_000, end: 3_999_999, completed: true },
    ];
    let text = write_record(&ranges_record(total, ranges.clone()));
    let (mut app, mut run, _) = started("https://a/x.mp4", 4);
    run.advance(&mut app, Event::Done);
    let action = run.advance(
        &mut app,
        Event::Head {
            content_length: Some(total.to_string()),
            accept_ranges: Some("bytes".to_string()),
            record: Some(text.clone()),
            existing: Some(total),
        },
    );
    match action {
        Action::FetchRanges { ranges: jobs, mut record, .. } => {
            assert_eq!(jobs, vec![RangeJob { index: 1, start: 1_000_000, end: 2_499_999 }]);
            assert_eq!(record.ranges, ranges);
            record.finish_range(1);
            record.finish_range(9);
            assert!(record.ranges.iter().all(|part| part.completed));
        }
        _ => panic!("ranges were expected"),
    }
    assert_eq!(app.tasks[0].downloaded_bytes, 2_500_000);
    assert_eq!(app.tasks[0].progress, Progress { done: 2_500_000, whole: total });

    // The record is of another file, or the file is gone or shorter: all is fetched.
    let gap = vec![RangePart { start: 0, end: total - 2, completed: true }];
    let cases = [
        (total, Some(text.clone()), None),
        (total, Some(text.clone()), Some(total - 1)),
        (total + 1, Some(text.clone()), Some(total + 1)),
        (total, Some("no record".to_string()), Some(total)),
        (total, Some(write_record(&ranges_record(total, gap))), Some(total)),
        (total, None, Some(total)),
    ];
    for (length, record, existing) in cases {
        let (mut app, mut run, _) = started("https://a/x.mp4", 4);
        run.advance(&mut app, Event::Done);
        let action = run.advance(
            &mut app,
            Event::Head {
                content_length: Some(length.to_string()),
                accept_ranges: Some("bytes".to_string()),
                record,
                existing,
            },
        );
        match action {
            Action::FetchRanges { ranges: jobs, .. } => {
                let cut: Vec<(u64, u64)> = jobs.iter().map(|job| (job.start, job.end)).collect();
                assert_eq!(cut, split_ranges(length, 4));
            }
            _ => panic!("ranges were expected"),
        }
        assert_eq!(app.tasks[0].downloaded_bytes, 0);
    }
}

#[test]
fn what_the_server_said_leads_on() {
    let (mut app, mut run, _) = started("https://a/x.mp4", 2);
    let record = ranges_record(
        2_000_000,
        vec![RangePart { start: 0, end: 1_999_999, completed: true }],
    );
    let action = run.measure(
        &mut app,
        Some("2000000".to_string()),
        Some("bytes".to_string()),
        Some(record),
        Some(2_000_000),
    );
    assert!(matches!(action, Action::FetchRanges { ranges, .. } if ranges.is_empty()));
    assert_eq!(app.tasks[0].downloaded_bytes, 2_000_000);
}

#[test]
fn other_files_come_as_a_whole() {
    let cases = [
        (4, Some(RANGED_ABOVE.to_string()), Some("bytes")),
        (1, Some("9999999999".to_string()), Some("bytes")),
        (4, Some("9999999999".to_string()), Some("none")),
        (4, Some("9999999999".to_string()), None),
        (4, Some("many".to_string()), Some("bytes")),
        (4, None, Some("bytes")),
    ];
    for (threads, length, ranges) in cases {
        let (mut app, mut run, _) = started("https://a/x.mp4", threads);
        run.advance(&mut app, Event::Done);
        let action = run.advance(&mut app, head(length, ranges));
        assert!(matches!(action, Action::FetchWhole { .. }));
        if ranges != Some("bytes") {
            assert_eq!(app.tasks[0].message, "服务器不支持分片，使用单线程下载");
        }
    }
}

#[test]
fn segments_come_and_are_merged() {
    let (mut app, mut run, _) = started("https://a/x.m3u8", 0);
    assert_eq!(app.tasks[0].message, "正在解析 HLS 播放列表");
    let action = run.advance(&mut app, Event::Done);
    assert!(matches!(action, Action::FetchPlaylist { url } if url == "https://a/x.m3u8"));
    let master = "#EXT-X-STREAM-INF:BANDWIDTH=1\nlow.m3u8\n#EXT-X-STREAM-INF:BANDWIDTH=2000000\nhigh.m3u8\n";
    let action = run.advance(&mut app, Event::Text(master.to_string()));
    assert!(matches!(action, Action::FetchPlaylist { url } if url == "https://a/high.m3u8"));
    assert_eq!(app.tasks[0].message, "自动选择清晰度 2.0 Mbps");
    let action = run.advance(&mut app, Event::Text("#EXTM3U\n0.ts\n1.ts\n".to_string()));
    let directory = "00000000-0000-0000-0000-00000000000b";
    match action {
        Action::CreateParts { directory: d, parts } => {
            assert_eq!(d, directory);
            assert_eq!(parts, vec!["000000.part", "000001.part"]);
        }
        _ => panic!("a directory was expected"),
    }
    let action = run.advance(&mut app, nothing_there());
    match action {
        Action::FetchSegments { jobs, count, directory: d, threads, record } => {
            let urls: Vec<&str> = jobs.iter().map(|job| job.url.as_str()).collect();
            assert_eq!(urls, vec!["https://a/0.ts", "https://a/1.ts"]);
            assert!(jobs.iter().enumerate().all(|(i, job)| job.index == i));
            assert!(jobs.iter().all(|job| job.secret.is_none()));
            assert_eq!(count, 2);
            assert_eq!(d, directory);
            assert_eq!(threads, 1);
            assert!(record.segmented);
            assert_eq!(record.segments, vec![SegmentPart { bytes: 0, completed: false }; 2]);
        }
        _ => panic!("segments were expected"),
    }
    assert_eq!(app.tasks[0].message, "开始下载 2 个 HLS 分片，线程数 1");
    let action = run.advance(&mut app, Event::Done);
    match action {
        Action::MergeParts { parts, directory: d, file_name } => {
            assert_eq!(parts, vec!["000000.part", "000001.part"]);
            assert_eq!(d, directory);
            assert_eq!(file_name, "Film.ts");
        }
        _ => panic!("a merge was expected"),
    }
    assert_eq!(app.tasks[0].message, "正在合并 HLS 分片");
    let action = run.advance(&mut app, Event::Written("videos/Film.ts".to_string()));
    assert!(matches!(action, Action::FindTool));
    assert_eq!(run.phase, Phase::Tool);
    run.advance(&mut app, Event::NoTool);
    assert_eq!(app.tasks[0].status, DownloadStatus::Completed);
    assert_eq!(app.tasks[0].message, "HLS 合并完成: videos/Film.ts");
    assert_eq!(app.tasks[0].file_path.as_deref(), Some("videos/Film.ts"));
}

/// A download of the given playlist, up to its segments' directory.
fn listed(text: &str) -> (AppState, Run, Action) {
    let (mut app, mut run, _) = started("https://a/x.m3u8", 2);
    run.advance(&mut app, Event::Done);
    let action = run.advance(&mut app, Event::Text(text.to_string()));
    (app, run, action)
}

#[test]
fn a_program_turns_the_file_into_another() {
    for success in [true, false] {
        let (mut app, mut run, _) = listed("0.ts\n");
        run.advance(&mut app, nothing_there());
        run.advance(&mut app, Event::Done);
        run.advance(&mut app, Event::Written("videos/Film.ts".to_string()));
        let action = run.advance(&mut app, Event::ToolFound("/opt/ffmpeg".to_string()));
        match action {
            Action::Remux { program, source, file_name } => {
                assert_eq!(program, "/opt/ffmpeg");
                assert_eq!(source, "videos/Film.ts");
                assert_eq!(file_name, "Film.mp4");
            }
            _ => panic!("the program was to be run"),
        }
        assert_eq!(app.tasks[0].message, "正在转封装为 MP4");
        assert_eq!(app.tasks[0].status, DownloadStatus::Downloading);
        let (event, message, path) = if success {
            (
                Event::Written("videos/Film.mp4".to_string()),
                "HLS 合并完成: videos/Film.mp4",
                "videos/Film.mp4",
            )
        } else {
            (
                Event::RemuxFailed("exit 1".to_string()),
                "HLS 合并完成: videos/Film.ts，MP4 转封装失败: exit 1",
                "videos/Film.ts",
            )
        };
        assert!(matches!(run.advance(&mut app, event), Action::Stop));
        assert_eq!(app.tasks[0].status, DownloadStatus::Completed);
        assert_eq!(app.tasks[0].message, message);
        assert_eq!(app.tasks[0].file_path.as_deref(), Some(path));
    }
}

#[test]
fn encrypted_segments_get_their_keys() {
    let text = "#EXT-X-MEDIA-SEQUENCE:7\n#EXT-X-KEY:METHOD=AES-128,URI=\"k\"\n0.ts\n1.ts\n#EXT-X-KEY:METHOD=AES-128,URI=\"/other\",IV=0x10\n2.ts\n#EXT-X-KEY:METHOD=NONE\n3.ts\n";
    let (mut app, mut run, action) = listed(text);
    assert!(matches!(action, Action::CreateParts { parts, .. } if parts.len() == 4));
    let action = run.advance(&mut app, nothing_there());
    match action {
        Action::FetchKeys { urls } => assert_eq!(urls, vec!["https://a/k", "https://a/other"]),
        _ => panic!("keys were expected"),
    }
    assert_eq!(run.phase, Phase::Keys);
    let action = run.advance(&mut app, Event::Keys(vec![vec![0; 16], vec![1; 16]]));
    let jobs = match action {
        Action::FetchSegments { jobs, .. } => jobs,
        _ => panic!("segments were expected"),
    };
    let secrets: Vec<Option<(u8, u128)>> = jobs
        .iter()
        .map(|job| job.secret.as_ref().map(|secret| (secret.key[15], secret.iv)))
        .collect();
    assert_eq!(secrets, vec![Some((0, 7)), Some((0, 8)), Some((1, 16)), None]);

    let encrypted = [
        0x04, 0xd6, 0x96, 0xc7, 0xca, 0x76, 0xb8, 0x96, 0x29, 0x37, 0x23, 0x1d, 0x64, 0xa9, 0x0d,
        0xa3,
    ];
    let content = segment_content(&jobs[0].secret, encrypted.to_vec());
    assert_eq!(content, Some(b"abc".to_vec()));
    assert_eq!(segment_content(&jobs[3].secret, b"plain".to_vec()), Some(b"plain".to_vec()));
    let short = Some(Secret { key: vec![0; 15], iv: 7 });
    assert_eq!(segment_content(&short, encrypted.to_vec()), None);
}

#[test]
fn wrong_keys_end_a_download() {
    let text = "#EXT-X-KEY:METHOD=AES-128,URI=\"k\"\n0.ts\n";
    for keys in [vec![], vec![vec![0; 15]], vec![vec![0; 16], vec![0; 16]]] {
        let (mut app, mut run, _) = listed(text);
        run.advance(&mut app, nothing_there());
        assert!(matches!(run.advance(&mut app, Event::Keys(keys)), Action::Stop));
        assert_eq!(app.tasks[0].status, DownloadStatus::Failed);
        assert_eq!(app.tasks[0].message, "HLS 密钥无效");
    }
}

#[test]
fn segments_are_taken_up_where_they_stopped() {
    let record = Record {
        title: "Film".to_string(),
        url: "https://a/x.m3u8".to_string(),
        media_type: MediaType::Hls,
        media_id: 5,
        headers: Vec::new(),
        segmented: true,
        total_bytes: 0,
        segments: vec![
            SegmentPart { bytes: 100, completed: true },
            SegmentPart { bytes: 200, completed: true },
            SegmentPart { bytes: 0, completed: false },
            SegmentPart { bytes: 300, completed: true },
        ],
        ranges: Vec::new(),
    };
    let text = write_record(&record);
    let event = || Event::Parts {
        record: Some(text.clone()),
        sizes: vec![Some(100), Some(199), None, Some(300)],
    };
    let (mut app, mut run, _) = listed("0.ts\n1.ts\n2.ts\n3.ts\n");
    match run.advance(&mut app, event()) {
        Action::FetchSegments { jobs, count, mut record, .. } => {
            let left: Vec<usize> = jobs.iter().map(|job| job.index).collect();
            assert_eq!(left, vec![1, 2]);
            assert_eq!(jobs[0].url, "https://a/1.ts");
            assert_eq!(count, 4);
            record.finish_segment(1, 77);
            record.finish_segment(4, 77);
            assert_eq!(record.segments[1], SegmentPart { bytes: 77, completed: true });
            assert!(!record.segments[2].completed);
        }
        _ => panic!("segments were expected"),
    }
    assert_eq!(app.tasks[0].completed_segments, 2);
    assert_eq!(app.tasks[0].downloaded_bytes, 400);
    assert_eq!(app.tasks[0].progress, Progress { done: 2, whole: 4 });

    // A playlist of another length starts anew.
    let (mut app, mut run, _) = listed("0.ts\n1.ts\n");
    match run.advance(&mut app, event()) {
        Action::FetchSegments { jobs, .. } => assert_eq!(jobs.len(), 2),
        _ => panic!("segments were expected"),
    }
    assert_eq!(app.tasks[0].completed_segments, 0);

    let (mut app, mut run, _) = listed("0.ts\n1.ts\n2.ts\n3.ts\n");
    let action = run.prepare(&mut app, Some(record), vec![Some(100)]);
    assert!(matches!(action, Action::FetchSegments { jobs, .. } if jobs.len() == 3));
}

#[test]
fn playlists_that_cannot_be_used_fail() {
    let cases = [
        ("#EXT-X-KEY:METHOD=SAMPLE-AES,URI=\"k\"\n0.ts\n", "当前版本检测到加密 HLS，暂未处理 EXT-X-KEY 解密"),
        ("#EXT-X-KEY:METHOD=AES-128,URI=\"http://[\"\n0.ts\n", "当前版本检测到加密 HLS，暂未处理 EXT-X-KEY 解密"),
        ("0.ts\n#EXT-X-KEY:METHOD=AES-128\n1.ts\n", "当前版本检测到加密 HLS，暂未处理 EXT-X-KEY 解密"),
        ("#EXTM3U\n", "HLS 播放列表中没有可下载分片"),
        ("http://[\n", "invalid IPv6 address"),
    ];
    for (text, reason) in cases {
        let (mut app, mut run, _) = started("https://a/x.m3u8", 2);
        run.advance(&mut app, Event::Done);
        let action = run.advance(&mut app, Event::Text(text.to_string()));
        assert!(matches!(action, Action::Stop));
        assert_eq!(run.phase, Phase::Over);
        assert_eq!(app.tasks[0].status, DownloadStatus::Failed);
        assert_eq!(app.tasks[0].message, reason);
    }
}

#[test]
fn a_read_playlist_leads_on() {
    let (mut app, mut run, _) = started("https://a/x.m3u8", 2);
    let master = HlsPlaylist {
        segments: vec![],
        ciphers: vec![],
        variants: vec![
            HlsVariant {
                url: "https://a/1".to_string(),
                bandwidth: Some(5),
                resolution: None,
                codecs: None,
            },
            HlsVariant {
                url: "https://a/2".to_string(),
                bandwidth: None,
                resolution: None,
                codecs: None,
            },
        ],
        encrypted: false,
    };
    let action = run.open_playlist(&mut app, master);
    assert!(matches!(action, Action::FetchPlaylist { url } if url == "https://a/1"));
    assert_eq!(run.phase, Phase::Quality);
    let media = HlsPlaylist {
        segments: vec!["https://a/0.ts".to_string()],
        ciphers: vec![HlsCipher::Plain],
        variants: vec![],
        encrypted: false,
    };
    let action = run.take_segments(&mut app, media);
    assert!(matches!(action, Action::CreateParts { .. }));
    assert_eq!(run.segments, vec!["https://a/0.ts"]);
}

#[test]
fn trouble_and_interruption_end_a_download() {
    let (mut app, mut run, _) = started("https://a/x.mp4", 2);
    run.advance(&mut app, Event::Failed("no disk".to_string()));
    assert_eq!(app.tasks[0].status, DownloadStatus::Failed);
    assert_eq!(app.tasks[0].message, "no disk");
    let (mut app, mut run, _) = started("https://a/x.mp4", 2);
    let action = run.advance(&mut app, Event::Text("unasked".to_string()));
    assert!(matches!(action, Action::Stop));
    assert_eq!(run.phase, Phase::Directory);
    run.advance(&mut app, Event::Interrupted);
    assert_eq!(run.phase, Phase::Over);
    assert_eq!(app.tasks[0].status, DownloadStatus::Downloading);
}

#[test]
fn downloads_do_not_disturb_each_other() {
    let mut app = app_with_threads(2);
    enqueue_download_as(&mut app, &item("https://a/1.mp4", "One", 1), 1);
    enqueue_download_as(&mut app, &item("https://a/2.mp4", "Two", 2), 2);
    let (mut run, _) = Run::begin(&mut app, 2, Vec::new(), false).unwrap();
    run.advance(&mut app, Event::Failed("gone".to_string()));
    add_downloaded(&mut app, 2, 5, 10);
    assert_eq!(app.tasks[0].status, DownloadStatus::Queued);
    assert_eq!(app.tasks[0].message, "等待下载");
    assert_eq!(app.tasks[0].downloaded_bytes, 0);
    assert_eq!(app.tasks[1].status, DownloadStatus::Failed);
    assert_eq!(app.tasks[1].downloaded_bytes, 5);
    assert_eq!(app.settings.part_threads, 2);
}

#[test]
fn a_download_asks_for_nine_things_at_most() {
    let (mut app, mut run, mut action) = started("https://a/x.m3u8", 2);
    let mut asked = 0;
    let mut texts = vec![
        "#EXTM3U\n#EXT-X-KEY:METHOD=AES-128,URI=\"k\"\n0.ts\n".to_string(),
        "#EXT-X-STREAM-INF:BANDWIDTH=1\nq.m3u8\n".to_string(),
    ];
    while !matches!(action, Action::Stop) {
        asked += 1;
        let event = match action {
            Action::FetchPlaylist { .. } => Event::Text(texts.pop().unwrap()),
            Action::CreateParts { .. } => nothing_there(),
            Action::FetchKeys { urls } => Event::Keys(vec![vec![3; 16]; urls.len()]),
            Action::MergeParts { .. } => Event::Written("film.ts".to_string()),
            Action::FindTool => Event::ToolFound("ffmpeg".to_string()),
            Action::Remux { .. } => Event::Written("film.mp4".to_string()),
            _ => Event::Done,
        };
        action = run.advance(&mut app, event);
    }
    assert_eq!(asked, 9);
    assert_eq!(app.tasks[0].status, DownloadStatus::Completed);
}

#[test]
fn a_finished_range_is_not_fetched_again() {
    let total = RANGED_ABOVE * 4;
    let event = |record: Option<String>| Event::Head {
        content_length: Some(total.to_string()),
        accept_ranges: Some("bytes".to_string()),
        record,
        existing: Some(total),
    };
    let mut text = None;
    for finished in 0..4usize {
        let (mut app, mut run, _) = started("https://a/x.mp4", 4);
        run.advance(&mut app, Event::Done);
        match run.advance(&mut app, event(text)) {
            Action::FetchRanges { ranges, mut record, .. } => {
                let left: Vec<usize> = ranges.iter().map(|job| job.index).collect();
                assert_eq!(left, (finished..4).collect::<Vec<usize>>());
                record.finish_range(finished);
                text = Some(write_record(&record));
            }
            _ => panic!("ranges were expected"),
        }
        assert_eq!(app.tasks[0].downloaded_bytes, RANGED_ABOVE * finished as u64);
        run.advance(&mut app, Event::Interrupted);
    }
}

#[test]
fn a_finished_segment_is_not_fetched_again() {
    let (mut app, mut run, _) = listed("0.ts\n1.ts\n");
    let text = match run.advance(&mut app, nothing_there()) {
        Action::FetchSegments { mut record, .. } => {
            record.finish_segment(1, 9);
            write_record(&record)
        }
        _ => panic!("segments were expected"),
    };
    let (mut app, mut run, _) = listed("0.ts\n1.ts\n");
    let event = Event::Parts { record: Some(text), sizes: vec![Some(4), Some(9)] };
    match run.advance(&mut app, event) {
        Action::FetchSegments { jobs, .. } => {
            assert_eq!(jobs.len(), 1);
            assert_eq!(jobs[0].index, 0);
        }
        _ => panic!("segments were expected"),
    }
}

#[test]
fn the_merged_file_is_the_decrypted_segments() {
    let fetched = [
        vec![0x04, 0xd6, 0x96, 0xc7, 0xca, 0x76, 0xb8, 0x96, 0x29, 0x37, 0x23, 0x1d, 0x64, 0xa9, 0x0d, 0xa3],
        vec![0x03, 0x51, 0xe3, 0xa3, 0xa4, 0xf4, 0xdd, 0x14, 0x1c, 0xa1, 0xe6, 0x1b, 0xe1, 0xba, 0x0b, 0x73],
        b"!".to_vec(),
    ];
    let text = "#EXT-X-MEDIA-SEQUENCE:7\n#EXT-X-KEY:METHOD=AES-128,URI=\"k\"\n0.ts\n1.ts\n#EXT-X-KEY:METHOD=NONE\n2.ts\n";
    let (mut app, mut run, _) = listed(text);
    run.advance(&mut app, nothing_there());
    let jobs = match run.advance(&mut app, Event::Keys(vec![vec![0; 16]])) {
        Action::FetchSegments { jobs, .. } => jobs,
        _ => panic!("segments were expected"),
    };
    let mut files: Vec<(String, Vec<u8>)> = Vec::new();
    for job in jobs.iter().rev() {
        let content = segment_content(&job.secret, fetched[job.index].clone()).unwrap();
        files.push((part_file_name(job.index), content));
    }
    let parts = match run.advance(&mut app, Event::Done) {
        Action::MergeParts { parts, .. } => parts,
        _ => panic!("a merge was expected"),
    };
    let mut merged: Vec<u8> = Vec::new();
    for part in parts {
        merged.extend(&files.iter().find(|(name, _)| *name == part).unwrap().1);
    }
    assert_eq!(merged, b"abcdefg!");
}
