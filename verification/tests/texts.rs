use video_sniffer::display::{bitrate_label, format_bytes, human_bytes};
use video_sniffer::panel::{clock_label, compact_text};
use video_sniffer::text::{
    begins_with, comes_first, final_piece, finishes_with, has_part, is_white_space, join, number,
    parse_unsigned, piece_after, piece_before, same_text_ignoring_case, sort_strings, split_at_each,
    to_lower, trim,
};

fn reference_size(bytes: u64) -> String {
    const KB: f64 = 1024.0;
    const MB: f64 = KB * 1024.0;
    const GB: f64 = MB * 1024.0;
    let bytes = bytes as f64;
    if bytes >= GB {
        format!("{:.2} GB", bytes / GB)
    } else if bytes >= MB {
        format!("{:.2} MB", bytes / MB)
    } else if bytes >= KB {
        format!("{:.1} KB", bytes / KB)
    } else {
        format!("{bytes:.0} B")
    }
}

fn reference_rate(bits: u64) -> String {
    if bits >= 1_000_000 {
        format!("{:.1} Mbps", bits as f64 / 1_000_000.0)
    } else if bits >= 1_000 {
        format!("{:.0} Kbps", bits as f64 / 1_000.0)
    } else {
        format!("{bits} bps")
    }
}

fn samples() -> Vec<u64> {
    let mut list = vec![
        0, 1, 999, 1000, 1023, 1024, 1025, 1075, 1076, 1500, 2500, 999_499, 999_500, 999_999,
        1_000_000, 1_049_999, 1_050_000, 1_050_001, 1_048_575, 1_048_576, 1_153_434,
        1_073_741_823, 1_073_741_824, 9_007_199_254_740_993, u64::MAX, u64::MAX - 1023,
        u64::MAX - 1024,
    ];
    let mut seed: u64 = 0x9e37_79b9_7f4a_7c15;
    for i in 0..20_000u64 {
        seed = seed.wrapping_mul(6_364_136_223_846_793_005).wrapping_add(1_442_695_040_888_963_407);
        list.push(seed >> (i % 64));
    }
    for k in 0..3000u64 {
        list.push(1024 * k / 20);
        list.push(1_000_000 + 50_000 * k);
        list.push(500 * k);
    }
    list
}

#[test]
fn sizes_are_printed_as_doubles() {
    for n in samples() {
        assert_eq!(format_bytes(n), reference_size(n), "{n}");
        assert_eq!(human_bytes(n), reference_size(n), "{n}");
    }
    assert_eq!(format_bytes(1536), "1.5 KB");
    assert_eq!(human_bytes(0), "0 B");
}

#[test]
fn rates_are_printed_as_doubles() {
    for n in samples() {
        assert_eq!(bitrate_label(n), reference_rate(n), "{n}");
    }
    assert_eq!(bitrate_label(2_500_000), "2.5 Mbps");
}

#[test]
fn white_space_is_that_of_unicode() {
    for code in 0..=0x10_ffffu32 {
        if let Some(c) = char::from_u32(code) {
            assert_eq!(is_white_space(c), c.is_whitespace(), "{code:x}");
        }
    }
}

#[test]
fn trimming_agrees_with_std() {
    for text in ["", " ", " a b ", "\u{3000}x\r\n", "x", "\t\ty y\u{85}"] {
        assert_eq!(trim(text), text.trim());
        assert_eq!(trim(trim(text)), trim(text));
    }
}

#[test]
fn numbers_are_read_as_std_reads_them() {
    for text in [
        "", "+", "-", "0", "007", "+12", "-1", " 1", "1 ", "1_0", "18446744073709551615",
        "18446744073709551616", "99999999999999999999999", "00000000000000000000000001", "++1",
        "١", "12a",
    ] {
        assert_eq!(parse_unsigned(text), text.parse::<u64>().ok(), "{text}");
    }
    for n in samples() {
        assert_eq!(number(n), n.to_string());
        assert_eq!(parse_unsigned(&number(n)), Some(n));
    }
}

#[test]
fn pieces_agree_with_std() {
    for text in ["", "a", "a?b", "?", "a?b?c", "x/y/z?", "/", "a=b=c"] {
        for c in ['?', '/', '='] {
            assert_eq!(piece_before(text, c), text.split(c).next().unwrap());
            assert_eq!(piece_after(text, c), text.split_once(c).map(|pair| pair.1));
            assert_eq!(final_piece(text, c), text.rsplit(c).next().unwrap());
            let pieces: Vec<&str> = text.split(c).collect();
            assert_eq!(split_at_each(text, c), pieces);
        }
    }
}

#[test]
fn searches_agree_with_std() {
    for text in ["", "abc", "aXbX", "ababab", "é水é"] {
        for part in ["", "a", "ab", "bab", "水", "zz", "ababababab"] {
            assert_eq!(has_part(text, part), text.contains(part));
            assert_eq!(begins_with(text, part), text.starts_with(part));
            assert_eq!(finishes_with(text, part), text.ends_with(part));
            assert_eq!(comes_first(text, part), text <= part);
            assert_eq!(same_text_ignoring_case(text, part), text.eq_ignore_ascii_case(part));
        }
        assert_eq!(to_lower(text), text.to_ascii_lowercase());
    }
    assert!(same_text_ignoring_case("ByTeS", "bytes"));
}

#[test]
fn strings_are_sorted_and_joined() {
    let mut list: Vec<String> = vec!["b", "a", "", "ab", "a", "é", "水"]
        .into_iter()
        .map(|s| s.to_string())
        .collect();
    let sorted = sort_strings(list.clone());
    list.sort();
    assert_eq!(sorted, list);
    assert_eq!(join(&sorted, "&"), list.join("&"));
    assert_eq!(join(&Vec::new(), "&"), "");
}

#[test]
fn texts_are_cut_by_characters() {
    assert_eq!(compact_text("水火木金土", 3), "水火木...");
    assert_eq!(compact_text("水火木", 3), "水火木");
    assert_eq!(compact_text("", 0), "");
    assert_eq!(compact_text("a", 0), "...");
}

#[test]
fn clock_shows_the_time_of_day() {
    assert_eq!(clock_label(0), "00:00:00");
    assert_eq!(clock_label(86_399_999), "23:59:59");
    assert_eq!(clock_label(1_700_000_000_000), "22:13:20");
    assert_eq!(clock_label(-1), "23:59:59");
    assert_eq!(clock_label(-86_400_000), "00:00:00");
    for at in [0, 1_234_567_890_123, -1_234_567_890_123, 999, -999] {
        let moment = chrono::DateTime::from_timestamp_millis(at).unwrap();
        let time = moment.time();
        let expected = format!(
            "{:02}:{:02}:{:02}",
            chrono::Timelike::hour(&time),
            chrono::Timelike::minute(&time),
            chrono::Timelike::second(&time)
        );
        assert_eq!(clock_label(at), expected);
    }
}
