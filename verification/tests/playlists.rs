use std::collections::VecDeque;
use video_sniffer::analysis::{
    analyze_playlist, begin_analysis, fail_analysis, finish_analysis, hls_request, quality_display,
    refuse_analysis, select_variant, update_hls_status, QualityDisplay,
};
use video_sniffer::hls::{
    assemble, choose_highest_variant, clean_attr_value, parse_attribute_list, parse_hls_playlist,
    parse_key, parse_variant_info, read_outline, sort_variants_highest_first, HlsCipher, HlsError, HlsKey, HlsPlace,
    HlsPlaylist,
};
use video_sniffer::state::{
    AppState, HeaderPair, HlsVariant, MediaCandidate, MediaItem, Settings,
};

fn variant(url: &str, bandwidth: Option<u64>, resolution: Option<&str>) -> HlsVariant {
    HlsVariant {
        url: url.to_string(),
        bandwidth,
        resolution: resolution.map(|text| text.to_string()),
        codecs: None,
    }
}

fn item(url: &str, id: u128) -> MediaItem {
    MediaItem::seen(
        MediaCandidate {
            url: url.to_string(),
            page_url: None,
            title: None,
            mime_type: None,
            method: None,
            request_headers: vec![HeaderPair {
                name: "Cookie".to_string(),
                value: "a=b".to_string(),
            }],
            content_length: None,
            duration_seconds: None,
        },
        id,
        0,
    )
}

fn app_with(items: Vec<MediaItem>) -> AppState {
    AppState {
        detected: VecDeque::from(items),
        pending_audio: VecDeque::new(),
        tasks: Vec::new(),
        settings: Settings {
            save_dir: "videos".to_string(),
            max_tasks: 3,
            part_threads: 8,
            min_media_size_mb: 10,
            listen_port: 37651,
            request_retry_attempts: 4,
            part_retry_attempts: 4,
        },
    }
}

const MASTER: &str = "#EXTM3U\r\n#EXT-X-STREAM-INF:BANDWIDTH=800000,RESOLUTION=640x360,CODECS=\"avc1.4d401e,mp4a.40.2\"\r\nlow/index.m3u8\r\n\r\n#EXT-X-STREAM-INF:AVERAGE-BANDWIDTH=2000000,RESOLUTION=1280x720\r\n/high.m3u8\r\n";
const MEDIA: &str = "#EXTM3U\n#EXTINF:4,\n0.ts\n#EXTINF:4,\n  1.ts  \n#EXT-X-ENDLIST\n";

#[test]
fn master_playlists_list_their_qualities() {
    let playlist = parse_hls_playlist("https://a/b/master.m3u8?x=1", MASTER).unwrap();
    assert!(playlist.is_master());
    assert!(!playlist.encrypted);
    assert_eq!(playlist.segments.len(), 0);
    assert_eq!(playlist.variants.len(), 2);
    assert_eq!(playlist.variants[0].url, "https://a/b/low/index.m3u8");
    assert_eq!(playlist.variants[0].bandwidth, Some(800_000));
    assert_eq!(playlist.variants[0].resolution.as_deref(), Some("640x360"));
    assert_eq!(playlist.variants[0].codecs.as_deref(), Some("avc1.4d401e,mp4a.40.2"));
    assert_eq!(playlist.variants[1].url, "https://a/high.m3u8");
    assert_eq!(playlist.variants[1].bandwidth, Some(2_000_000));
    assert_eq!(playlist.variants[1].codecs, None);
}

#[test]
fn media_playlists_list_their_segments_in_order() {
    let playlist = parse_hls_playlist("https://a/b/c.m3u8", MEDIA).unwrap();
    assert!(!playlist.is_master());
    assert_eq!(playlist.segments, vec!["https://a/b/0.ts", "https://a/b/1.ts"]);
    let other = parse_hls_playlist("https://a/b/c.m3u8", &MEDIA.replace('\n', "\r\n")).unwrap();
    assert_eq!(other.segments, playlist.segments);
}

#[test]
fn a_key_means_encryption() {
    let text = "#EXTM3U\n#EXT-X-KEY:METHOD=AES-128,URI=\"k\"\n0.ts\n";
    let playlist = parse_hls_playlist("https://a/", text).unwrap();
    assert!(playlist.encrypted);
    assert!(matches!(&playlist.ciphers[0], HlsCipher::Aes { url, iv: 0 } if url == "https://a/k"));
}

#[test]
fn a_key_holds_until_the_next() {
    let text = "#EXTM3U\n#EXT-X-MEDIA-SEQUENCE:7\n0.ts\n#EXT-X-KEY:METHOD=AES-128,URI=\"key/one\"\n1.ts\n2.ts\n#EXT-X-KEY:METHOD=AES-128,URI=\"two\",IV=0xFf\n3.ts\n#EXT-X-KEY:METHOD=NONE\n4.ts\n#EXT-X-KEY:METHOD=SAMPLE-AES,URI=\"x\"\n5.ts\n";
    let playlist = parse_hls_playlist("https://a/b/c.m3u8", text).unwrap();
    assert_eq!(playlist.segments.len(), 6);
    assert_eq!(playlist.ciphers.len(), 6);
    let shown: Vec<String> = playlist
        .ciphers
        .iter()
        .map(|cipher| match cipher {
            HlsCipher::Plain => "plain".to_string(),
            HlsCipher::Aes { url, iv } => format!("{url} {iv}"),
            HlsCipher::Refused => "refused".to_string(),
        })
        .collect();
    assert_eq!(
        shown,
        vec![
            "plain",
            "https://a/b/key/one 8",
            "https://a/b/key/one 9",
            "https://a/b/two 255",
            "plain",
            "refused",
        ]
    );
}

#[test]
fn keys_are_read() {
    assert!(matches!(parse_key(":METHOD=NONE"), HlsKey::Plain));
    assert!(matches!(
        parse_key(":METHOD=AES-128,URI=\"k?a,b\""),
        HlsKey::Aes { uri, iv: None } if uri == "k?a,b"
    ));
    assert!(matches!(
        parse_key(":METHOD=AES-128,URI=\"k\",IV=0x00000000000000000000000000000010,KEYFORMAT=\"identity\""),
        HlsKey::Aes { uri, iv: Some(16) } if uri == "k"
    ));
    assert!(matches!(
        parse_key(":METHOD=AES-128,URI=\"k\",IV=0Xffffffffffffffffffffffffffffffff"),
        HlsKey::Aes { iv: Some(u128::MAX), .. }
    ));
    for text in [
        ":METHOD=AES-128",
        ":METHOD=SAMPLE-AES,URI=\"k\"",
        ":METHOD=AES-128,URI=\"k\",KEYFORMAT=\"com.apple.streamingkeydelivery\"",
        ":URI=\"k\"",
    ] {
        assert!(matches!(parse_key(text), HlsKey::Refused), "{text}");
    }
}

#[test]
fn a_bad_key_address_is_no_error() {
    let text = "#EXT-X-KEY:METHOD=AES-128,URI=\"http://[\"\n0.ts\n";
    let playlist = parse_hls_playlist("https://a/", text).unwrap();
    assert!(playlist.encrypted);
    assert_eq!(playlist.segments, vec!["https://a/0.ts"]);
    assert!(matches!(playlist.ciphers[0], HlsCipher::Refused));
    let mut app = app_with(vec![item("https://a/m.m3u8", 2)]);
    analyze_playlist(&mut app, 2, "https://a/m.m3u8", text).unwrap();
    assert_eq!(app.detected[0].hls_status.as_deref(), Some("单清晰度 HLS"));
}

#[test]
fn bad_addresses_are_errors() {
    let bad_base = parse_hls_playlist("not an address", MEDIA).unwrap_err();
    assert!(matches!(bad_base, HlsError::BadAddress(_)));
    assert_eq!(bad_base.message(), "relative URL without a base");
    let bad_line = parse_hls_playlist("https://a/", "http://[\n").unwrap_err();
    assert!(matches!(bad_line, HlsError::BadAddress(_)));
    assert_eq!(bad_line.message(), "invalid IPv6 address");
}

#[test]
fn outlines_keep_addresses_as_they_stand() {
    let outline = read_outline(MASTER);
    assert_eq!(outline.entries.len(), 2);
    assert_eq!(outline.entries[0].address, "low/index.m3u8");
    assert_eq!(outline.entries[1].address, "/high.m3u8");
    assert!(outline.entries[0].info.is_some());
    assert!(outline.pending.is_none());
    let place = |url: &str| HlsPlace { url: url.to_string(), key_url: None };
    let playlist = assemble(outline, vec![place("https://x/1"), place("https://x/2")]);
    assert_eq!(playlist.variants[1].url, "https://x/2");
    let unfinished = read_outline("#EXT-X-STREAM-INF:BANDWIDTH=1");
    assert_eq!(unfinished.entries.len(), 0);
    assert_eq!(unfinished.pending.unwrap().bandwidth, Some(1));
    let keyed = read_outline("#EXT-X-MEDIA-SEQUENCE:3\n#EXT-X-KEY:METHOD=AES-128,URI=\"k\"\n0.ts");
    assert_eq!(keyed.sequence, 3);
    assert!(keyed.encrypted);
    let place = HlsPlace {
        url: "https://x/0.ts".to_string(),
        key_url: Some("https://x/k".to_string()),
    };
    let playlist = assemble(keyed, vec![place]);
    assert!(matches!(&playlist.ciphers[0], HlsCipher::Aes { url, iv: 3 } if url == "https://x/k"));
}

#[test]
fn attribute_lists_are_split_outside_quotes() {
    let list = parse_attribute_list("A=1, B=\"x,y\" ,=3,C,D=a=b");
    let expected: Vec<(String, String)> = vec![("A", "1"), ("B", "x,y"), ("C", ""), ("D", "a=b")]
        .into_iter()
        .map(|(k, v)| (k.to_string(), v.to_string()))
        .collect();
    assert_eq!(list, expected);
    assert_eq!(parse_attribute_list("").len(), 0);
    let mut joined = parse_attribute_list("A=1,B=\"x,y\"");
    joined.extend(parse_attribute_list("C=2"));
    assert_eq!(parse_attribute_list("A=1,B=\"x,y\",C=2"), joined);
}

#[test]
fn values_are_cleaned() {
    assert_eq!(clean_attr_value("  \"a b\"  "), "a b");
    assert_eq!(clean_attr_value("\"\""), "");
    assert_eq!(clean_attr_value("\" a \""), " a ");
}

#[test]
fn bandwidth_goes_before_its_average() {
    assert_eq!(parse_variant_info("BANDWIDTH=5,AVERAGE-BANDWIDTH=3").bandwidth, Some(5));
    assert_eq!(parse_variant_info("AVERAGE-BANDWIDTH=3,BANDWIDTH=5").bandwidth, Some(5));
    assert_eq!(parse_variant_info("AVERAGE-BANDWIDTH=3").bandwidth, Some(3));
    assert_eq!(parse_variant_info("BANDWIDTH=x,AVERAGE-BANDWIDTH=3").bandwidth, Some(3));
    assert_eq!(parse_variant_info("AVERAGE-BANDWIDTH=3,BANDWIDTH=x").bandwidth, None);
}

#[test]
fn qualities_are_sorted_highest_first() {
    let mut list = vec![
        variant("a", Some(1), None),
        variant("b", None, Some("9")),
        variant("c", Some(2), Some("640x360")),
        variant("d", Some(2), Some("854x480")),
        variant("e", Some(2), None),
        variant("f", Some(1), None),
    ];
    let mut expected: Vec<HlsVariant> = list.clone();
    expected.sort_by(|a, b| {
        b.bandwidth
            .unwrap_or(0)
            .cmp(&a.bandwidth.unwrap_or(0))
            .then_with(|| b.resolution.cmp(&a.resolution))
    });
    sort_variants_highest_first(&mut list);
    let urls: Vec<&str> = list.iter().map(|v| v.url.as_str()).collect();
    let wanted: Vec<&str> = expected.iter().map(|v| v.url.as_str()).collect();
    assert_eq!(urls, wanted);
    assert_eq!(urls, vec!["d", "c", "e", "a", "f", "b"]);
}

#[test]
fn the_last_of_the_highest_is_chosen() {
    let list = vec![
        variant("a", Some(3), None),
        variant("b", None, None),
        variant("c", Some(3), None),
        variant("d", Some(1), None),
    ];
    assert_eq!(choose_highest_variant(&list).unwrap().url, "c");
    let none = choose_highest_variant(&[]).unwrap_err();
    assert!(matches!(none, HlsError::NoVariant));
    assert_eq!(none.message(), "HLS master playlist 没有可用清晰度");
}

#[test]
fn analysis_offers_the_qualities() {
    let mut app = app_with(vec![item("https://a/x.mp4", 1), item("https://a/m.m3u8", 2)]);
    let (url, headers) = hls_request(&app, 2).unwrap();
    assert_eq!(url, "https://a/m.m3u8");
    assert_eq!(headers[0].name, "Cookie");
    assert!(hls_request(&app, 1).is_none());
    assert!(hls_request(&app, 3).is_none());
    begin_analysis(&mut app, 2);
    assert_eq!(app.detected[1].hls_status.as_deref(), Some("正在分析 HLS 清晰度"));
    analyze_playlist(&mut app, 2, &url, MASTER).unwrap();
    let found = &app.detected[1];
    assert_eq!(found.hls_variants[0].url, "https://a/high.m3u8");
    assert_eq!(found.selected_hls_variant_url.as_deref(), Some("https://a/high.m3u8"));
    assert_eq!(found.hls_status.as_deref(), Some("已发现 2 个清晰度，默认最高码率"));
    assert_eq!(found.selected_hls_url(), "https://a/high.m3u8");
    assert!(app.detected[0].hls_status.is_none());
}

#[test]
fn analysis_of_a_single_quality() {
    let mut app = app_with(vec![item("https://a/m.m3u8", 2)]);
    analyze_playlist(&mut app, 2, "https://a/m.m3u8", MEDIA).unwrap();
    assert_eq!(app.detected[0].hls_status.as_deref(), Some("单清晰度 HLS"));
    assert_eq!(app.detected[0].selected_hls_url(), "https://a/m.m3u8");
    assert!(analyze_playlist(&mut app, 2, "nowhere", MEDIA).is_err());
    assert_eq!(app.detected[0].hls_status.as_deref(), Some("单清晰度 HLS"));
    finish_analysis(
        &mut app,
        9,
        HlsPlaylist { segments: vec![], ciphers: vec![], variants: vec![], encrypted: false },
    );
    assert_eq!(app.detected.len(), 1);
}

#[test]
fn analysis_says_what_went_wrong() {
    let mut app = app_with(vec![item("https://a/m.m3u8", 2)]);
    fail_analysis(&mut app, 2, "timeout");
    assert_eq!(app.detected[0].hls_status.as_deref(), Some("HLS 清晰度分析失败: timeout"));
    refuse_analysis(&mut app, 2, "no thread");
    assert_eq!(app.detected[0].hls_status.as_deref(), Some("无法启动 HLS 分析: no thread"));
    update_hls_status(&mut app, 2, "x".to_string());
    assert_eq!(app.detected[0].hls_status.as_deref(), Some("x"));
    update_hls_status(&mut app, 3, "y".to_string());
    assert_eq!(app.detected[0].hls_status.as_deref(), Some("x"));
}

#[test]
fn a_quality_can_be_chosen() {
    let mut app = app_with(vec![item("https://a/m.m3u8", 2)]);
    match quality_display(&app.detected[0]) {
        QualityDisplay::Status(text) => assert_eq!(text, "正在等待 HLS 清晰度分析"),
        QualityDisplay::Choice(_) => panic!("no qualities are known"),
    }
    analyze_playlist(&mut app, 2, "https://a/m.m3u8", MASTER).unwrap();
    select_variant(&mut app, 2, "https://a/low/index.m3u8".to_string());
    assert_eq!(app.detected[0].hls_status.as_deref(), Some("已切换清晰度"));
    match quality_display(&app.detected[0]) {
        QualityDisplay::Status(_) => panic!("qualities are known"),
        QualityDisplay::Choice(choice) => {
            assert_eq!(choice.selected_url.as_deref(), Some("https://a/low/index.m3u8"));
            assert_eq!(
                choice.selected_label,
                "640x360 · 800 Kbps · avc1.4d401e,mp4a.40.2"
            );
            assert_eq!(choice.labels[0], "1280x720 · 2.0 Mbps");
        }
    }
    select_variant(&mut app, 2, "https://elsewhere".to_string());
    match quality_display(&app.detected[0]) {
        QualityDisplay::Status(_) => panic!("qualities are known"),
        QualityDisplay::Choice(choice) => assert_eq!(choice.selected_label, "自动最高码率"),
    }
    app.detected[0].selected_hls_variant_url = None;
    match quality_display(&app.detected[0]) {
        QualityDisplay::Status(_) => panic!("qualities are known"),
        QualityDisplay::Choice(choice) => {
            assert_eq!(choice.selected_url.as_deref(), Some("https://a/high.m3u8"));
        }
    }
}
