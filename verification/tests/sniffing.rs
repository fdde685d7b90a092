use std::collections::VecDeque;
use video_sniffer::sniffer::{
    bilibili_group_key, cors_preflight, health, looks_like_audio, looks_like_media, looks_like_segmented_mp4,
    looks_like_segmented_url, media_dedupe_key, method_is_allowed, normalized_page, query_value,
    receive_media, receive_media_as, report_media, same_media_group, should_pair_audio,
    should_promote_segmented_mp4, sidecar_from_item, stream_score, Reception, KEPT,
};
use video_sniffer::state::{
    AppState, HeaderPair, HlsVariant, MediaCandidate, MediaItem, MediaSidecar, MediaType, Settings,
    SharedState,
};

const BILI_AUDIO: &str = "https://b-baaac10nxz3a75cr81cljvml1d.edge.mountaintoys.cn:4483/upgcxcode/51/13/38210831351/38210831351-1-100026.m4s?trid=0000c1454ead28bb43658b12d98b08c3013u&bw=2487979";
const BILI_VIDEO: &str = "https://rve5881c.edge.mountaintoys.cn:4483/upgcxcode/51/13/38210831351/38210831351-1-30280.m4s?trid=0000c1454ead28bb43658b12d98b08c3013u&bw=112104";

fn candidate(url: &str) -> MediaCandidate {
    MediaCandidate {
        url: url.to_string(),
        page_url: None,
        title: None,
        mime_type: None,
        method: None,
        request_headers: Vec::new(),
        content_length: None,
        duration_seconds: None,
    }
}

fn empty_app() -> AppState {
    AppState {
        detected: VecDeque::new(),
        pending_audio: VecDeque::new(),
        tasks: Vec::new(),
        settings: Settings {
            save_dir: "videos".to_string(),
            max_tasks: 3,
            part_threads: 8,
            min_media_size_mb: 10,
            listen_port: 37651,
            request_retry_attempts: 4,
            part_retry_attempts: 4,
        },
    }
}

#[test]
fn bilibili_m4s_urls_share_group_key() {
    assert_eq!(
        bilibili_group_key(BILI_AUDIO),
        bilibili_group_key(BILI_VIDEO)
    );
}

#[test]
fn bilibili_m4s_urls_pair_without_page_url() {
    assert!(same_media_group(None, BILI_AUDIO, None, BILI_VIDEO));
}

#[test]
fn m4s_bandwidth_score_prefers_higher_stream() {
    assert!(stream_score(BILI_AUDIO, None, None) > stream_score(BILI_VIDEO, None, None));
}

#[test]
fn group_key_is_the_video_and_the_trace() {
    assert_eq!(
        bilibili_group_key(BILI_AUDIO),
        Some("38210831351:0000c1454ead28bb43658b12d98b08c3013u".to_string())
    );
    assert_eq!(bilibili_group_key("https://a/upgcxcode/7-1.m4s"), Some("7:".to_string()));
    assert_eq!(bilibili_group_key("https://a/upgcxcode/-1.m4s"), None);
    assert_eq!(bilibili_group_key("https://a/other/7-1.m4s"), None);
    assert_eq!(bilibili_group_key("https://a/upgcxcode/7-1.mp4"), None);
}

#[test]
fn streams_of_one_page_belong_together() {
    assert!(same_media_group(
        Some("https://site/watch?x=1#top"),
        "https://cdn/a.m4s",
        Some("https://site/watch?x=1#end"),
        "https://cdn/b.m4s"
    ));
    assert!(!same_media_group(
        Some("https://site/one"),
        "https://cdn/a.m4s",
        Some("https://site/two"),
        "https://cdn/b.m4s"
    ));
    assert!(!same_media_group(None, "https://cdn/a.m4s", None, "https://cdn/b.m4s"));
}

#[test]
fn scores_are_exact() {
    assert_eq!(stream_score(BILI_AUDIO, None, None), 2487979);
    assert_eq!(stream_score("https://a/b.m4s", Some(77), None), 77);
    assert_eq!(stream_score("https://a/b.m4s?bw=oops", Some(77), None), 77);
    assert_eq!(stream_score("https://a/b.m4s", None, None), 1);
    assert_eq!(stream_score(BILI_AUDIO, None, Some("Video/MP4")), u64::MAX);
    assert_eq!(stream_score(BILI_AUDIO, None, Some("audio/mp4")), 0);
}

#[test]
fn query_values_are_found_by_key() {
    assert_eq!(query_value("a=1&b=2", "b"), Some("2".to_string()));
    assert_eq!(query_value("a=1&b=2", "c"), None);
    assert_eq!(query_value("", "a"), None);
    assert_eq!(query_value("a=1&a=2", "a"), Some("1".to_string()));
}

#[test]
fn pages_are_the_same_without_their_fragment() {
    assert_eq!(normalized_page("https://A/b#c"), normalized_page("https://A/b#d"));
}

#[test]
fn media_is_told_by_its_marks() {
    assert!(looks_like_media(&candidate("https://a/x.M3U8?y")));
    assert!(looks_like_media(&candidate("https://a/x.m4s")));
    assert!(!looks_like_media(&candidate("https://a/x.html")));
    let mut typed = candidate("https://a/x");
    typed.mime_type = Some("Audio/AAC".to_string());
    assert!(looks_like_media(&typed));
    assert!(looks_like_audio(&typed));
    assert!(looks_like_audio(&candidate("https://a/audio/x.mp4")));
    assert!(!looks_like_audio(&candidate("https://a/x.mp4")));
    assert!(looks_like_segmented_mp4(&candidate("https://a/x.M4S")));
    assert!(looks_like_segmented_url("https://a/x.m4s"));
    assert!(!looks_like_segmented_url("https://a/x.mp4"));
}

#[test]
fn keys_leave_out_what_changes() {
    assert_eq!(
        media_dedupe_key("HTTPS://A/v.mp4?token=1&Q=2&b=3#frag"),
        "https://a/v.mp4?b=3&q=2"
    );
    assert_eq!(media_dedupe_key("https://a/v.mp4?token=1&t=5"), "https://a/v.mp4");
    assert_eq!(media_dedupe_key("https://a/v.mp4"), "https://a/v.mp4");
    assert_eq!(media_dedupe_key("https://a/v.mp4?&&x"), "https://a/v.mp4?x");
}

#[test]
fn keys_do_not_depend_on_order_case_or_fragment() {
    assert_eq!(
        media_dedupe_key("https://a/v?one=1&two=2"),
        media_dedupe_key("https://A/V?TWO=2&one=1#x")
    );
}

#[test]
fn keys_are_equal_for_one_medium_alone() {
    let urls = [
        "https://A/b?x=1&Y=2#f",
        "https://a/B?y=2&t=9&X=1",
        "https://a/b?x=1&x=1&y=2",
        "https://a/b?x=1",
        "https://a/b",
        "https://a/b?&&token=3",
        "https://a/b?x=1?&y=2",
        "https://a/c?x=1&y=2",
    ];
    let groups = [0, 0, 1, 2, 3, 3, 4, 5];
    for (left, one) in urls.iter().zip(groups) {
        let key = media_dedupe_key(left);
        assert_eq!(media_dedupe_key(&key), key);
        for (right, two) in urls.iter().zip(groups) {
            assert_eq!(key == media_dedupe_key(right), one == two, "{left} {right}");
        }
    }
}

#[test]
fn what_is_not_media_is_ignored() {
    let mut app = empty_app();
    let reception = receive_media_as(&mut app, candidate("https://a/page.html"), 1, 0);
    assert_eq!(reception, Reception::Ignored);
    let answer = reception.answer();
    assert_eq!((answer.status, answer.body), (204, "ignored"));
    assert_eq!(app.detected.len(), 0);
}

#[test]
fn a_stream_becomes_an_item() {
    let mut app = empty_app();
    let mut report = candidate("https://a/dir/film.mp4?x=1");
    report.content_length = Some(10);
    let reception = receive_media_as(&mut app, report, 42, 1000);
    assert_eq!(reception, Reception::Accepted { analyze: None });
    let answer = reception.answer();
    assert_eq!((answer.status, answer.body), (201, "accepted"));
    let item = &app.detected[0];
    assert_eq!(item.id, 42);
    assert_eq!(item.detected_at, 1000);
    assert_eq!(item.title, "film.mp4");
    assert_eq!(item.media_type, MediaType::Mp4);
    assert_eq!(item.content_length, Some(10));
    assert!(item.audio.is_none());
}

#[test]
fn a_playlist_is_to_be_looked_into_until_its_qualities_are_known() {
    let mut app = empty_app();
    let first = receive_media_as(&mut app, candidate("https://a/x.m3u8"), 7, 0);
    assert_eq!(first, Reception::Accepted { analyze: Some(7) });
    let again = receive_media_as(&mut app, candidate("https://a/x.m3u8#y"), 8, 0);
    assert_eq!(again, Reception::Accepted { analyze: Some(7) });
    app.detected[0].hls_variants.push(HlsVariant {
        url: "https://a/low.m3u8".to_string(),
        bandwidth: None,
        resolution: None,
        codecs: None,
    });
    let known = receive_media_as(&mut app, candidate("https://a/x.m3u8"), 9, 0);
    assert_eq!(known, Reception::Accepted { analyze: None });
    assert_eq!(app.detected.len(), 1);
}

#[test]
fn a_second_report_refreshes_the_item() {
    let mut app = empty_app();
    receive_media_as(&mut app, candidate("https://a/x.mp4"), 1, 0);
    let mut report = candidate("https://a/x.mp4?token=9");
    report.title = Some("A film".to_string());
    report.page_url = Some("https://page".to_string());
    report.duration_seconds = Some(60);
    report.request_headers.push(HeaderPair {
        name: "Referer".to_string(),
        value: "https://page".to_string(),
    });
    receive_media_as(&mut app, report, 2, 0);
    let mut blank = candidate("https://a/x.mp4");
    blank.title = Some("  ".to_string());
    receive_media_as(&mut app, blank, 3, 0);
    assert_eq!(app.detected.len(), 1);
    let item = &app.detected[0];
    assert_eq!(item.id, 1);
    assert_eq!(item.url, "https://a/x.mp4");
    assert_eq!(item.title, "A film");
    assert_eq!(item.page_url.as_deref(), Some("https://page"));
    assert_eq!(item.duration_seconds, Some(60));
    assert_eq!(item.headers.len(), 1);
}

#[test]
fn reporting_twice_changes_nothing_more() {
    for url in ["https://a/x.mp4", "https://a/x.m4s", "https://a/audio/x.mp4"] {
        let mut app = empty_app();
        receive_media_as(&mut app, candidate(url), 1, 0);
        let detected = app.detected.len();
        let pending = app.pending_audio.len();
        receive_media_as(&mut app, candidate(url), 2, 0);
        assert_eq!(app.detected.len(), detected);
        assert_eq!(app.pending_audio.len(), pending);
    }
}

#[test]
fn sound_waits_for_its_item() {
    let mut app = empty_app();
    let mut sound = candidate("https://a/sound.m4a");
    sound.mime_type = Some("audio/mp4".to_string());
    sound.page_url = Some("https://page#1".to_string());
    receive_media_as(&mut app, sound, 1, 0);
    assert_eq!(app.pending_audio.len(), 1);
    let mut film = candidate("https://a/film.mp4");
    film.page_url = Some("https://page#2".to_string());
    receive_media_as(&mut app, film, 2, 0);
    assert_eq!(app.pending_audio.len(), 0);
    let audio = app.detected[0].audio.as_ref().unwrap();
    assert_eq!(audio.url, "https://a/sound.m4a");
}

#[test]
fn sound_joins_the_item_that_is_there() {
    let mut app = empty_app();
    let mut film = candidate("https://a/film.mp4");
    film.title = Some("Film".to_string());
    receive_media_as(&mut app, film, 1, 0);
    let mut sound = candidate("https://a/sound.m4a");
    sound.mime_type = Some("audio/mp4".to_string());
    sound.title = Some(" Film ".to_string());
    receive_media_as(&mut app, sound, 2, 0);
    assert_eq!(app.pending_audio.len(), 0);
    assert_eq!(app.detected[0].audio.as_ref().unwrap().url, "https://a/sound.m4a");
}

#[test]
fn the_stream_that_carries_more_leads() {
    let mut app = empty_app();
    receive_media_as(&mut app, candidate(BILI_VIDEO), 1, 0);
    receive_media_as(&mut app, candidate(BILI_AUDIO), 2, 0);
    assert_eq!(app.detected.len(), 1);
    let item = &app.detected[0];
    assert_eq!(item.id, 1);
    assert_eq!(item.url, BILI_AUDIO);
    assert_eq!(item.audio.as_ref().unwrap().url, BILI_VIDEO);

    let mut app = empty_app();
    receive_media_as(&mut app, candidate(BILI_AUDIO), 1, 0);
    let mut second = candidate(BILI_VIDEO);
    second.duration_seconds = Some(9);
    receive_media_as(&mut app, second, 2, 0);
    assert_eq!(app.detected.len(), 1);
    assert_eq!(app.detected[0].url, BILI_AUDIO);
    assert_eq!(app.detected[0].duration_seconds, Some(9));
    assert_eq!(app.detected[0].audio.as_ref().unwrap().url, BILI_VIDEO);
}

#[test]
fn only_the_newest_are_kept() {
    let mut app = empty_app();
    for i in 0..(KEPT + 5) {
        receive_media_as(&mut app, candidate(&format!("https://a/{i}.mp4")), i as u128, 0);
    }
    assert_eq!(app.detected.len(), KEPT);
    assert_eq!(app.detected[0].id, (KEPT + 4) as u128);
    for i in 0..(KEPT + 5) {
        let mut sound = candidate(&format!("https://b/{i}.m4a"));
        sound.mime_type = Some("audio/mp4".to_string());
        receive_media_as(&mut app, sound, 0, 0);
    }
    assert_eq!(app.pending_audio.len(), KEPT);
}

#[test]
fn new_items_get_random_identities() {
    let mut app = empty_app();
    receive_media(&mut app, candidate("https://a/1.mp4"));
    receive_media(&mut app, candidate("https://a/2.mp4"));
    let first = app.detected[0].id;
    let second = app.detected[1].id;
    assert_ne!(first, second);
    assert_eq!((first >> 76) % 16, 4);
    assert_eq!((first >> 62) % 4, 2);
    assert!(app.detected[0].detected_at > 1_500_000_000_000);
}

#[test]
fn pairing_needs_a_different_stream_without_sound() {
    let item = MediaItem::seen(candidate("https://a/film.mp4"), 1, 0);
    let same = MediaSidecar::from(candidate("https://a/film.mp4#x"));
    assert!(!should_pair_audio(&item, &same));
    let other = MediaSidecar::from(candidate("https://a/sound.m4a"));
    assert!(!should_pair_audio(&item, &other));
    let louder = MediaItem::seen(candidate("https://a/x.m4s?bw=9"), 2, 0);
    let quieter = MediaItem::seen(candidate("https://a/y.m4s?bw=8"), 3, 0);
    assert!(should_promote_segmented_mp4(&louder, &quieter));
    assert!(!should_promote_segmented_mp4(&quieter, &louder));
    let sidecar = sidecar_from_item(&louder);
    assert_eq!(sidecar.title.as_deref(), Some("x.m4s"));
}

#[test]
fn reports_may_be_posted() {
    assert!(method_is_allowed("POST"));
    assert!(method_is_allowed("OPTIONS"));
    assert!(method_is_allowed("GET"));
    assert!(!method_is_allowed("PUT"));
    assert!(!method_is_allowed("post"));
}

#[test]
fn the_leading_stream_does_not_depend_on_order() {
    for (first, second) in [(BILI_AUDIO, BILI_VIDEO), (BILI_VIDEO, BILI_AUDIO)] {
        let mut app = empty_app();
        receive_media_as(&mut app, candidate(first), 1, 0);
        receive_media_as(&mut app, candidate(second), 2, 0);
        assert_eq!(app.detected.len(), 1);
        assert_eq!(app.detected[0].url, BILI_AUDIO);
        assert_eq!(app.detected[0].audio.as_ref().unwrap().url, BILI_VIDEO);
        assert!(same_media_group(None, first, None, second));
    }
}

#[test]
fn reports_do_not_touch_settings() {
    let mut app = empty_app();
    receive_media_as(&mut app, candidate("https://a/x.mp4"), 1, 0);
    assert_eq!(app.settings.part_threads, 8);
    assert_eq!(app.tasks.len(), 0);
}

#[test]
fn only_accepted_reports_count_as_changes() {
    let mut shared = SharedState::new("videos".to_string());
    let before = shared.revision();
    let ignored = report_media(&mut shared, candidate("https://a/page.html"));
    assert_eq!(ignored, Reception::Ignored);
    assert_eq!(shared.revision(), before);
    let accepted = report_media(&mut shared, candidate("https://a/x.mp4"));
    assert_eq!(accepted, Reception::Accepted { analyze: None });
    assert_eq!(shared.revision(), before + 1);
    assert_eq!(shared.read(|app: &AppState| app.detected.len()), 1);
}

#[test]
fn a_report_can_be_copied() {
    let mut report = candidate("https://a/x.mp4");
    report.title = Some("Film".to_string());
    report.request_headers.push(HeaderPair { name: "A".to_string(), value: "b".to_string() });
    report.content_length = Some(7);
    let copy = report.clone();
    assert_eq!(copy.url, report.url);
    assert_eq!(copy.title, report.title);
    assert_eq!(copy.request_headers[0].value, "b");
    assert_eq!(copy.content_length, Some(7));
}

#[test]
fn answers_can_be_read_from_any_page() {
    let expected = [
        ("access-control-allow-origin", "*"),
        ("access-control-allow-methods", "POST, OPTIONS, GET"),
        ("access-control-allow-headers", "content-type"),
        ("access-control-max-age", "86400"),
    ];
    let answers = [
        (health(), 200, "ok"),
        (cors_preflight(), 204, ""),
        (Reception::Ignored.answer(), 204, "ignored"),
        (Reception::Accepted { analyze: Some(1) }.answer(), 201, "accepted"),
    ];
    for (answer, status, body) in answers {
        assert_eq!((answer.status, answer.body), (status, body));
        let pairs: Vec<(&str, &str)> = answer
            .headers
            .iter()
            .map(|pair| (pair.name.as_str(), pair.value.as_str()))
            .collect();
        assert_eq!(pairs, expected);
    }
}
