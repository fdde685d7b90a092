//! What media, downloads and sizes are called and counted as.

use crate::display::{
    as_double, bitrate_text, double_quotient, excess_bits, nearest, size_text, two_to,
};
use crate::outside::sanitized;
use crate::state::{
    default_settings, download_url, item_of, media_label, media_type_of, next_version, progress_of,
    url_filename, variant_label, HlsVariantView, MediaCandidateView, MediaItemView, MediaType,
};
use crate::text::{
    before, decimal, digit, first_at, holds, last_piece, lemma_first_at, lower, trimmed,
};
use crate::text_laws::{
    law_before_and_after_make_up_the_text, law_parts_are_found_in_any_case, mentions,
};
use vstd::prelude::*;

verus! {

proof fn lemma_marked(text: Seq<char>, mark: Seq<char>)
    requires
        lower(mark) == mark,
    ensures
        holds(lower(text), mark) <==> mentions(text, mark),
{
    law_parts_are_found_in_any_case(text, mark);
}

/// The kind of media is told by the first of these marks that its address or its content type
/// bears, ASCII case aside.
pub proof fn law_the_kind_of_media_is_told_by_its_marks(url: Seq<char>, mime: Seq<char>)
    ensures
        ({
            let hls = mentions(url, ".m3u8"@) || mentions(mime, "mpegurl"@);
            let dash = mentions(url, ".mpd"@) || mentions(mime, "dash"@);
            let mp4 = mentions(url, ".mp4"@) || mentions(mime, "mp4"@);
            let webm = mentions(url, ".webm"@) || mentions(mime, "webm"@);
            &&& media_type_of(url, mime) == MediaType::Hls <==> hls
            &&& media_type_of(url, mime) == MediaType::Dash <==> !hls && dash
            &&& media_type_of(url, mime) == MediaType::Mp4 <==> !hls && !dash && mp4
            &&& media_type_of(url, mime) == MediaType::Webm <==> !hls && !dash && !mp4 && webm
        }),
{
    reveal_strlit(".m3u8");
    reveal_strlit(".mpd");
    reveal_strlit(".mp4");
    reveal_strlit(".webm");
    reveal_strlit("mpegurl");
    reveal_strlit("dash");
    reveal_strlit("mp4");
    reveal_strlit("webm");
    assert(lower(".m3u8"@) =~= ".m3u8"@);
    assert(lower(".mpd"@) =~= ".mpd"@);
    assert(lower(".mp4"@) =~= ".mp4"@);
    assert(lower(".webm"@) =~= ".webm"@);
    assert(lower("mpegurl"@) =~= "mpegurl"@);
    assert(lower("dash"@) =~= "dash"@);
    assert(lower("mp4"@) =~= "mp4"@);
    assert(lower("webm"@) =~= "webm"@);
    lemma_marked(url, ".m3u8"@);
    lemma_marked(url, ".mpd"@);
    lemma_marked(url, ".mp4"@);
    lemma_marked(url, ".webm"@);
    lemma_marked(mime, "mpegurl"@);
    lemma_marked(mime, "dash"@);
    lemma_marked(mime, "mp4"@);
    lemma_marked(mime, "webm"@);
}

/// The item that a report stands for is what the report says, with nothing known yet of its
/// qualities and its sound. Its title is the one reported unless that is blank, else the name of
/// the file at its address.
pub proof fn law_an_item_is_as_reported(candidate: MediaCandidateView, id: u128, at: i64)
    ensures
        ({
            let item = item_of(candidate, id, at);
            &&& item.id == id && item.detected_at == at
            &&& item.url == candidate.url && item.page_url == candidate.page_url
            &&& item.headers == candidate.request_headers
            &&& item.content_length == candidate.content_length
            &&& item.duration_seconds == candidate.duration_seconds
            &&& item.hls_variants.len() == 0 && item.selected_hls_variant_url is None
            &&& item.hls_status is None && item.audio is None
            &&& candidate.title is Some && trimmed(candidate.title->0).len() > 0 ==> item.title
                == candidate.title->0
            &&& candidate.title is None || trimmed(candidate.title->0).len() == 0 ==> item.title
                == url_filename(candidate.url)
            &&& candidate.mime_type is Some ==> item.media_type == media_type_of(
                candidate.url,
                candidate.mime_type->0,
            )
            &&& candidate.mime_type is None ==> item.media_type == media_type_of(
                candidate.url,
                Seq::empty(),
            )
        }),
{
}

proof fn lemma_last_of(dir: Seq<char>, name: Seq<char>)
    requires
        !name.contains('/'),
    ensures
        last_piece(dir + seq!['/'] + name, '/') == name,
    decreases name.len(),
{
    let text = dir + seq!['/'] + name;
    if name.len() == 0 {
        assert(text.last() == '/');
        assert(name =~= Seq::<char>::empty());
    } else {
        let rest = name.drop_last();
        assert(!rest.contains('/')) by {
            if rest.contains('/') {
                let k = choose|k: int| 0 <= k < rest.len() && rest[k] == '/';
                assert(name[k] == '/');
            }
        }
        lemma_last_of(dir, rest);
        assert(text.drop_last() =~= dir + seq!['/'] + rest);
        assert(name.contains(name.last()));
        assert(rest.push(name.last()) =~= name);
    }
}

/// The file at an address has the name that follows the last slash of the path, whatever the
/// query is; without one it is called `video`.
pub proof fn law_the_file_at_an_address_has_the_last_name_of_its_path(
    dir: Seq<char>,
    name: Seq<char>,
    query: Seq<char>,
)
    requires
        !dir.contains('?'),
        !name.contains('?') && !name.contains('/'),
    ensures
        url_filename(dir + seq!['/'] + name) == (if name.len() > 0 {
            name
        } else {
            "video"@
        }),
        url_filename(dir + seq!['/'] + name + seq!['?'] + query) == url_filename(
            dir + seq!['/'] + name,
        ),
{
    let path = dir + seq!['/'] + name;
    assert(!path.contains('?')) by {
        if path.contains('?') {
            let k = choose|k: int| 0 <= k < path.len() && path[k] == '?';
            if k < dir.len() {
                assert(dir.contains(dir[k]));
            } else if k > dir.len() {
                assert(name.contains(name[k - dir.len() - 1]));
            }
        }
    }
    law_before_and_after_make_up_the_text(path, '?');
    lemma_last_of(dir, name);
    let url = path + seq!['?'] + query;
    lemma_first_at(url, '?');
    let at = first_at(url, '?');
    assert(url[path.len() as int] == '?');
    if at < path.len() {
        assert(path.contains(path[at]));
    }
    assert(before(url, '?') =~= path);
}

/// A download fetches the address of its item, but for HLS that of the quality that was chosen,
/// else of the first that is offered.
pub proof fn law_a_download_fetches_the_chosen_quality(item: MediaItemView)
    ensures
        item.media_type != MediaType::Hls ==> download_url(item) == item.url,
        item.media_type == MediaType::Hls ==> {
            &&& item.selected_hls_variant_url is Some ==> download_url(item)
                == item.selected_hls_variant_url->0
            &&& item.selected_hls_variant_url is None && item.hls_variants.len() > 0 ==> download_url(
                item,
            ) == item.hls_variants[0].url
            &&& item.selected_hls_variant_url is None && item.hls_variants.len() == 0
                ==> download_url(item) == item.url
        },
{
}

/// The name of a quality shows what is known of it: resolution, bit rate and codecs, in this
/// order and with dots between them.
pub proof fn law_a_quality_is_named_by_what_is_known(variant: HlsVariantView)
    ensures
        ({
            let bare = variant_label(HlsVariantView { codecs: None, ..variant });
            let r = variant.resolution;
            let b = variant.bandwidth;
            &&& r is Some && b is Some ==> bare == r->0 + " · "@ + bitrate_text(b->0)
            &&& r is Some && b is None ==> bare == r->0
            &&& r is None && b is Some ==> bare == bitrate_text(b->0)
            &&& r is None && b is None ==> bare == "自动清晰度"@
            &&& variant.codecs is Some && variant.codecs->0.len() > 0 ==> variant_label(variant)
                == bare + " · "@ + variant.codecs->0
            &&& variant.codecs is None || variant.codecs->0.len() == 0 ==> variant_label(variant)
                == bare
        }),
{
}

/// Each kind of media has its name.
pub proof fn law_kinds_have_their_names(kind: MediaType)
    ensures
        kind == MediaType::Hls ==> media_label(kind) == "HLS"@,
        kind == MediaType::Dash ==> media_label(kind) == "DASH"@,
        kind == MediaType::Mp4 ==> media_label(kind) == "MP4"@,
        kind == MediaType::Webm ==> media_label(kind) == "WEBM"@,
        kind == MediaType::Unknown ==> media_label(kind) == "未知"@,
{
}

/// Progress is the part that is done of the whole, no more than all of it; a whole of nothing
/// counts as one.
pub proof fn law_progress_is_a_part_of_the_whole(done: nat, whole: nat)
    requires
        whole <= u64::MAX,
    ensures
        whole > 0 ==> progress_of(done, whole).whole == whole,
        whole == 0 ==> progress_of(done, whole).whole == 1,
        done <= progress_of(done, whole).whole ==> progress_of(done, whole).done == done,
        done > progress_of(done, whole).whole ==> progress_of(done, whole).done == progress_of(
            done,
            whole,
        ).whole,
{
}

/// The settings of the first start.
pub proof fn law_the_first_settings_are_these(save_dir: Seq<char>)
    ensures
        default_settings(save_dir).save_dir == save_dir,
        default_settings(save_dir).max_tasks == 3,
        default_settings(save_dir).part_threads == 8,
        default_settings(save_dir).min_media_size_mb == 10,
        default_settings(save_dir).listen_port == 37651,
        default_settings(save_dir).request_retry_attempts == 4,
        default_settings(save_dir).part_retry_attempts == 4,
{
}

/// Every change gives the state another number, one more than the last.
pub proof fn law_changes_are_counted_one_by_one(version: u64)
    ensures
        version < u64::MAX ==> next_version(version) == version + 1,
        next_version(version) != version,
        next_version(u64::MAX) == 0,
{
}

proof fn lemma_exact(n: nat)
    requires
        n < 0x20_0000_0000_0000,
    ensures
        as_double(n) == n,
{
    assert(two_to(0) == 1);
    assert(excess_bits(n, 0) == 0);
    assert(n / 1 == n && n % 1 == 0);
    assert(nearest(n, 1) * 1 == n);
}

proof fn lemma_nearest(n: nat, d: nat)
    requires
        d > 0,
    ensures
        2 * (n - nearest(n, d) * d) <= d,
        2 * (nearest(n, d) * d - n) <= d,
        2 * (n - nearest(n, d) * d) == d || 2 * (nearest(n, d) * d - n) == d ==> nearest(n, d) % 2
            == 0,
{
    let q = n / d;
    let r = n % d;
    vstd::arithmetic::div_mod::lemma_fundamental_div_mod(n as int, d as int);
    assert(d * q == q * d) by (nonlinear_arith);
    assert((q + 1) * d == q * d + d) by (nonlinear_arith);
}

/// Sizes are given in the largest unit of which there is one, each unit being 1024 of the one
/// before it: in whole bytes, in tenths of KB, in hundredths of MB and GB, and never further from
/// the size than half of the last place. Half way between two the even one is given.
#[verifier::rlimit(60)]
pub proof fn law_sizes_are_rounded_to_the_nearest(bytes: u64) -> (places: nat)
    requires
        bytes < 0x20_0000_0000_0000,
    ensures
        bytes < 1024 ==> size_text(bytes) == decimal(bytes as nat) + " B"@,
        1024 <= bytes < 1024 * 1024 ==> {
            &&& size_text(bytes) == decimal(places / 10) + seq!['.', digit(places % 10)] + " KB"@
            &&& -1024 <= 2 * (10 * bytes - 1024 * places) <= 1024
            &&& 2 * (10 * bytes - 1024 * places) == 1024 || 2 * (1024 * places - 10 * bytes) == 1024
                ==> places % 2 == 0
        },
        1024 * 1024 <= bytes < 1024 * 1024 * 1024 ==> {
            &&& size_text(bytes) == decimal(places / 100) + seq![
                '.',
                digit(places / 10 % 10),
                digit(places % 10),
            ] + " MB"@
            &&& -(1024 * 1024) <= 2 * (100 * bytes - 1024 * 1024 * places) <= 1024 * 1024
            &&& 2 * (100 * bytes - 1024 * 1024 * places) == 1024 * 1024 || 2 * (1024 * 1024 * places
                - 100 * bytes) == 1024 * 1024 ==> places % 2 == 0
        },
        bytes >= 1024 * 1024 * 1024 ==> {
            &&& size_text(bytes) == decimal(places / 100) + seq![
                '.',
                digit(places / 10 % 10),
                digit(places % 10),
            ] + " GB"@
            &&& -(1024 * 1024 * 1024) <= 2 * (100 * bytes - 1024 * 1024 * 1024 * places) <= 1024
                * 1024 * 1024
        },
{
    let n = bytes as nat;
    lemma_exact(n);
    if bytes < 1024 {
        assert(n / 1 == n && n % 1 == 0);
        assert(nearest(n, 1) == n);
        0
    } else if bytes < 1024 * 1024 {
        lemma_nearest(n * 10, 0x400);
        nearest(n * 10, 0x400)
    } else if bytes < 1024 * 1024 * 1024 {
        lemma_nearest(n * 100, 0x10_0000);
        nearest(n * 100, 0x10_0000)
    } else {
        lemma_nearest(n * 100, 0x4000_0000);
        nearest(n * 100, 0x4000_0000)
    }
}

#[verifier::rlimit(60)]
proof fn lemma_quotient(n: nat, d: nat, tens: nat)
    requires
        d > 0,
        tens > 0,
    ensures
        ({
            let (m, unit) = double_quotient(n, d);
            let t = nearest(m * tens, unit);
            &&& unit > 0
            &&& unit * (tens * n - d * t) * 2 <= d * tens + d * unit
            &&& unit * (d * t - tens * n) * 2 <= d * tens + d * unit
        }),
{
    let e = crate::display::binary_places(n, d, 0);
    let unit = two_to(e);
    crate::display::lemma_two_to_grows(0, e);
    let m = nearest(n * unit, d);
    lemma_nearest(n * unit, d);
    let t = nearest(m * tens, unit);
    lemma_nearest(m * tens, unit);
    let (a, b, c, u) = (n as int, d as int, tens as int, unit as int);
    let (p, q) = (m as int, t as int);
    assert(u * (c * a - b * q) * 2 == 2 * (a * u - p * b) * c + 2 * (p * c - q * u) * b)
        by (nonlinear_arith);
    assert(u * (b * q - c * a) * 2 == 2 * (p * b - a * u) * c + 2 * (q * u - p * c) * b)
        by (nonlinear_arith);
    let x = 2 * (a * u - p * b);
    let y = 2 * (p * c - q * u);
    assert(x * c <= b * c) by (nonlinear_arith)
        requires
            x <= b,
            c > 0,
    ;
    assert(y * b <= u * b) by (nonlinear_arith)
        requires
            y <= u,
            b > 0,
    ;
    let x2 = 2 * (p * b - a * u);
    let y2 = 2 * (q * u - p * c);
    assert(x2 * c <= b * c) by (nonlinear_arith)
        requires
            x2 <= b,
            c > 0,
    ;
    assert(y2 * b <= u * b) by (nonlinear_arith)
        requires
            y2 <= u,
            b > 0,
    ;
    assert(u * b == b * u) by (nonlinear_arith);
}

proof fn lemma_places_fill(n: nat, d: nat, e: nat)
    requires
        e <= 52,
    ensures
        ({
            let places = crate::display::binary_places(n, d, e);
            2 * n * two_to(places) >= 0x20_0000_0000_0000 * d || places == 52
        }),
    decreases 52 - e,
{
    if !(2 * n * two_to(e) >= 0x20_0000_0000_0000 * d || e >= 52) {
        lemma_places_fill(n, d, e + 1);
    }
}

proof fn lemma_unit(n: nat, d: nat)
    requires
        0 < n < 0x20_0000_0000_0000,
        0 < d <= 1_000_000,
    ensures
        2 * double_quotient(n, d).1 >= d,
{
    let e = crate::display::binary_places(n, d, 0);
    lemma_places_fill(n, d, 0);
    let unit = two_to(e);
    if e == 52 {
        assert(two_to(52) == 0x10_0000_0000_0000) by {
            reveal_with_fuel(two_to, 53);
        }
    } else {
        assert(2 * unit >= d) by (nonlinear_arith)
            requires
                2 * n * unit >= 0x20_0000_0000_0000 * d,
                0 < n < 0x20_0000_0000_0000,
        ;
    }
}

/// Bit rates are given in whole bps below a thousand, in whole Kbps below a million and in
/// tenths of Mbps from there on, and are no further from the rate than half of the last place,
/// but for ten bps.
#[verifier::rlimit(60)]
pub proof fn law_bit_rates_are_rounded(rate: u64) -> (places: nat)
    requires
        rate < 0x20_0000_0000_0000,
    ensures
        rate < 1000 ==> bitrate_text(rate) == decimal(rate as nat) + " bps"@,
        1000 <= rate < 1_000_000 ==> {
            &&& bitrate_text(rate) == decimal(places) + " Kbps"@
            &&& -510 <= rate - 1000 * places <= 510
        },
        rate >= 1_000_000 ==> {
            &&& bitrate_text(rate) == decimal(places / 10) + seq!['.', digit(places % 10)] + " Mbps"@
            &&& -500_100 <= 10 * rate - 1_000_000 * places <= 500_100
        },
{
    let n = rate as nat;
    lemma_exact(n);
    if rate < 1000 {
        0
    } else if rate < 1_000_000 {
        let (m, unit) = double_quotient(n, 1000);
        lemma_quotient(n, 1000, 1);
        let t = nearest(m, unit);
        assert(m * 1 == m);
        let k = n - 1000 * t;
        lemma_unit(n, 1000);
        assert(-510 <= k <= 510) by (nonlinear_arith)
            requires
                2 * unit >= 1000,
                unit * (1 * n - 1000 * t) * 2 <= 1000 * 1 + 1000 * unit,
                unit * (1000 * t - 1 * n) * 2 <= 1000 * 1 + 1000 * unit,
                k == n - 1000 * t,
        ;
        t
    } else {
        let (m, unit) = double_quotient(n, 1_000_000);
        lemma_quotient(n, 1_000_000, 10);
        let t = nearest(m * 10, unit);
        let k = 10 * n - 1_000_000 * t;
        lemma_unit(n, 1_000_000);
        assert(-500_100 <= k <= 500_100) by (nonlinear_arith)
            requires
                2 * unit >= 1_000_000,
                unit * (10 * n - 1_000_000 * t) * 2 <= 1_000_000 * 10 + 1_000_000 * unit,
                unit * (1_000_000 * t - 10 * n) * 2 <= 1_000_000 * 10 + 1_000_000 * unit,
                k == 10 * n - 1_000_000 * t,
        ;
        t
    }
}

proof fn lemma_excess(n: nat, k: nat)
    requires
        n < 0x1_0000_0000_0000_0000,
        k <= 64,
        k > 0 ==> n >= 0x20_0000_0000_0000 * two_to((k - 1) as nat),
    ensures
        ({
            let e = excess_bits(n, k);
            &&& n < 0x20_0000_0000_0000 * two_to(e)
            &&& e > 0 ==> n >= 0x20_0000_0000_0000 * two_to((e - 1) as nat)
        }),
    decreases 64 - k,
{
    if k >= 64 {
        assert(two_to(64) == 0x1_0000_0000_0000_0000) by {
            reveal_with_fuel(two_to, 65);
        }
    } else if !(n < 0x20_0000_0000_0000 * two_to(k)) {
        lemma_excess(n, k + 1);
    }
}

/// A number that is too long is taken with its first 53 binary places, rounded to the nearest,
/// half way between two to the even one.
pub proof fn law_long_numbers_are_rounded_to_53_places(n: u64) -> (dropped: nat)
    ensures
        n < 0x20_0000_0000_0000 * two_to(dropped),
        dropped > 0 ==> n >= 0x20_0000_0000_0000 * two_to((dropped - 1) as nat),
        exists|m: nat|
            {
                &&& as_double(n as nat) == #[trigger] (m * two_to(dropped))
                &&& 2 * (n - as_double(n as nat)) <= two_to(dropped)
                &&& 2 * (as_double(n as nat) - n) <= two_to(dropped)
                &&& 2 * (n - as_double(n as nat)) == two_to(dropped) || 2 * (as_double(n as nat) - n)
                    == two_to(dropped) ==> m % 2 == 0
            },
{
    let dropped = excess_bits(n as nat, 0);
    lemma_excess(n as nat, 0);
    crate::display::lemma_two_to_grows(0, dropped);
    lemma_nearest(n as nat, two_to(dropped));
    let m = nearest(n as nat, two_to(dropped));
    assert(as_double(n as nat) == m * two_to(dropped));
    dropped
}

/// Very large sizes are given in GB too, of the number with 53 binary places.
pub proof fn law_large_sizes_are_rounded_to_the_nearest(bytes: u64) -> (places: nat)
    requires
        as_double(bytes as nat) >= 1024 * 1024 * 1024,
    ensures
        size_text(bytes) == decimal(places / 100) + seq![
            '.',
            digit(places / 10 % 10),
            digit(places % 10),
        ] + " GB"@,
        -(1024 * 1024 * 1024) <= 2 * (100 * as_double(bytes as nat) - 1024 * 1024 * 1024 * places)
            <= 1024 * 1024 * 1024,
{
    let n = as_double(bytes as nat);
    lemma_nearest(n * 100, 0x4000_0000);
    nearest(n * 100, 0x4000_0000)
}

} // verus!
