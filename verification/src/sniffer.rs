//! Which of the requests that the browser reports are media, and which of them belong
//! together.

use crate::lists::{each, find_in, find_where, first_where, maybe};
use crate::outside::{fresh_id, is_random_uuid, now_millis};
use crate::state::{
    copy_headers, item_of, next_version, or_empty, sidecar_of, AppState, AppStateView, HeaderPair,
    HeaderPairView, MediaCandidate, MediaCandidateView, MediaItem, MediaItemView, MediaSidecar, MediaSidecarView,
    MediaType, SharedState,
};
use crate::text::{
    after, before, final_piece, has_part, holds, is_blank, join, joined, last_piece, lower,
    parse_unsigned, piece_after, piece_before, same_text, same_text_ignoring_case, sort_strings,
    sorted, split, split_at_each, to_lower, trim, trimmed, unsigned,
};
use std::collections::VecDeque;
use vstd::prelude::*;

verus! {

/// A text that may be absent, as a slice.
fn as_text(text: &Option<String>) -> (r: Option<&str>)
    ensures
        maybe(r) == maybe(*text),
{
    match text {
        Some(t) => Some(t.as_str()),
        None => None,
    }
}

/// A text in lower case, or the empty one in place of none.
fn lower_or_empty(text: Option<&str>) -> (r: String)
    ensures
        r@ == lower(or_empty(maybe(text))),
{
    match text {
        Some(t) => to_lower(t),
        None => {
            proof {
                assert(lower(Seq::<char>::empty()) =~= Seq::<char>::empty());
            }
            String::new()
        },
    }
}

/// Whether a reported request is one for media, by its address or its content type.
pub open spec fn is_media(candidate: MediaCandidateView) -> bool {
    let url = lower(candidate.url);
    let mime = lower(or_empty(candidate.mime_type));
    ||| holds(url, ".m3u8"@)
    ||| holds(url, ".mpd"@)
    ||| holds(url, ".mp4"@)
    ||| holds(url, ".m4s"@)
    ||| holds(url, ".webm"@)
    ||| holds(mime, "video/"@)
    ||| holds(mime, "audio/"@)
    ||| holds(mime, "mpegurl"@)
    ||| holds(mime, "dash"@)
}

/// Whether a reported request is one for media.
pub fn looks_like_media(candidate: &MediaCandidate) -> (r: bool)
    ensures
        r == is_media(candidate@),
{
    let url = to_lower(candidate.url.as_str());
    let url = url.as_str();
    let mime = lower_or_empty(as_text(&candidate.mime_type));
    let mime = mime.as_str();
    has_part(url, ".m3u8") || has_part(url, ".mpd") || has_part(url, ".mp4") || has_part(
        url,
        ".m4s",
    ) || has_part(url, ".webm") || has_part(mime, "video/") || has_part(mime, "audio/") || has_part(
        mime,
        "mpegurl",
    ) || has_part(mime, "dash")
}

/// Whether a reported request is one for sound alone.
pub open spec fn is_audio(candidate: MediaCandidateView) -> bool {
    let url = lower(candidate.url);
    let mime = lower(or_empty(candidate.mime_type));
    ||| holds(mime, "audio/"@)
    ||| holds(url, ".m4a"@)
    ||| holds(url, ".aac"@)
    ||| holds(url, ".mp3"@)
    ||| holds(url, ".opus"@)
    ||| holds(url, "/audio/"@)
}

/// Whether a reported request is one for sound alone.
pub fn looks_like_audio(candidate: &MediaCandidate) -> (r: bool)
    ensures
        r == is_audio(candidate@),
{
    let url = to_lower(candidate.url.as_str());
    let url = url.as_str();
    let mime = lower_or_empty(as_text(&candidate.mime_type));
    let mime = mime.as_str();
    has_part(mime, "audio/") || has_part(url, ".m4a") || has_part(url, ".aac") || has_part(
        url,
        ".mp3",
    ) || has_part(url, ".opus") || has_part(url, "/audio/")
}

/// Whether an address is one of a segmented MP4 stream.
pub open spec fn is_segmented(url: Seq<char>) -> bool {
    holds(lower(url), ".m4s"@)
}

/// Whether an address is one of a segmented MP4 stream.
pub fn looks_like_segmented_url(url: &str) -> (r: bool)
    ensures
        r == is_segmented(url@),
{
    has_part(to_lower(url).as_str(), ".m4s")
}

/// Whether a reported request is one for a segmented MP4 stream.
pub fn looks_like_segmented_mp4(candidate: &MediaCandidate) -> (r: bool)
    ensures
        r == is_segmented(candidate.url@),
{
    looks_like_segmented_url(candidate.url.as_str())
}

/// A page address without its fragment and without regard to ASCII case.
pub open spec fn page_key(url: Seq<char>) -> Seq<char> {
    lower(before(url, '#'))
}

/// A page address without its fragment and without regard to ASCII case.
pub fn normalized_page(url: &str) -> (r: String)
    ensures
        r@ == page_key(url@),
{
    to_lower(piece_before(url, '#'))
}

/// Whether one part of a query sets `key`.
pub open spec fn sets_key(key: Seq<char>) -> spec_fn(Seq<char>) -> bool {
    |part: Seq<char>| after(part, '=') is Some && lower(before(part, '=')) == lower(key)
}

/// The value that the first part of a query to set `key` gives it; case does not matter
/// in keys.
pub open spec fn value_in_query(query: Seq<char>, key: Seq<char>) -> Option<Seq<char>> {
    let parts = split(query, '&');
    let at = first_where(parts, sets_key(key));
    if at < parts.len() {
        after(parts[at], '=')
    } else {
        None
    }
}

/// The value that a query gives to `key`.
pub fn query_value(query: &str, key: &str) -> (r: Option<String>)
    ensures
        maybe(r) == value_in_query(query@, key@),
{
    let parts = split_at_each(query, '&');
    let test = |part: &String| -> (r: bool)
        ensures
            r == sets_key(key@)(part@),
    {
        piece_after(part.as_str(), '=').is_some() && same_text_ignoring_case(
            piece_before(part.as_str(), '='),
            key,
        )
    };
    let at = find_in(&parts, test, Ghost(sets_key(key@)));
    if at < parts.len() {
        assert(each(parts@)[at as int] == parts@[at as int]@);
        match piece_after(parts[at].as_str(), '=') {
            Some(value) => Some(value.to_string()),
            None => None,
        }
    } else {
        None
    }
}

/// What the segmented streams of one Bilibili video have in common: the number of the
/// video and the trace in the query.
pub open spec fn bilibili_key(url: Seq<char>) -> Option<Seq<char>> {
    let url = lower(url);
    let cid = before(last_piece(before(url, '?'), '/'), '-');
    if holds(url, ".m4s"@) && holds(url, "/upgcxcode/"@) && cid.len() > 0 {
        let trid = or_empty(value_in_query(or_empty(after(url, '?')), "trid"@));
        Some(cid + ":"@ + trid)
    } else {
        None
    }
}

/// What the segmented streams of one Bilibili video have in common.
pub fn bilibili_group_key(url: &str) -> (r: Option<String>)
    ensures
        maybe(r) == bilibili_key(url@),
{
    let low = to_lower(url);
    let low = low.as_str();
    if !has_part(low, ".m4s") || !has_part(low, "/upgcxcode/") {
        return None;
    }
    let cid = piece_before(final_piece(piece_before(low, '?'), '/'), '-');
    if cid.is_empty() {
        return None;
    }
    let query = piece_after(low, '?').unwrap_or("");
    proof {
        reveal_strlit("");
        assert(""@ =~= Seq::<char>::empty());
    }
    let trid = query_value(query, "trid").unwrap_or(String::new());
    let mut key = cid.to_string();
    key.append(":");
    key.append(trid.as_str());
    Some(key)
}

/// Whether two pages that may be unknown are known to be the same.
pub open spec fn same_page(left: Option<Seq<char>>, right: Option<Seq<char>>) -> bool {
    left is Some && right is Some && page_key(left->0) == page_key(right->0)
}

/// Whether two streams belong to one medium: they come from the same page, or they are
/// streams of the same Bilibili video.
pub open spec fn same_group(
    left_page: Option<Seq<char>>,
    left_url: Seq<char>,
    right_page: Option<Seq<char>>,
    right_url: Seq<char>,
) -> bool {
    ||| same_page(left_page, right_page)
    ||| bilibili_key(left_url) is Some && bilibili_key(left_url) == bilibili_key(right_url)
}

fn is_same_page(left: Option<&str>, right: Option<&str>) -> (r: bool)
    ensures
        r == same_page(maybe(left), maybe(right)),
{
    match (left, right) {
        (Some(left), Some(right)) => same_text(
            normalized_page(left).as_str(),
            normalized_page(right).as_str(),
        ),
        _ => false,
    }
}

/// Whether two streams belong to one medium.
pub fn same_media_group(
    left_page: Option<&str>,
    left_url: &str,
    right_page: Option<&str>,
    right_url: &str,
) -> (r: bool)
    ensures
        r == same_group(maybe(left_page), left_url@, maybe(right_page), right_url@),
{
    if is_same_page(left_page, right_page) {
        return true;
    }
    match (bilibili_group_key(left_url), bilibili_group_key(right_url)) {
        (Some(left), Some(right)) => same_text(left.as_str(), right.as_str()),
        _ => false,
    }
}

/// How much a stream carries: pictures above all, sound alone below all, else its
/// bandwidth as the query gives it, else its length, else one.
pub open spec fn score(url: Seq<char>, content_length: Option<u64>, mime: Seq<char>) -> u64 {
    let bandwidth = value_in_query(or_empty(after(url, '?')), "bw"@);
    if holds(lower(mime), "video/"@) {
        u64::MAX
    } else if holds(lower(mime), "audio/"@) {
        0
    } else if bandwidth is Some && unsigned(bandwidth->0) is Some {
        unsigned(bandwidth->0)->0
    } else if content_length is Some {
        content_length->0
    } else {
        1
    }
}

/// How much a stream carries.
pub fn stream_score(url: &str, content_length: Option<u64>, mime: Option<&str>) -> (r: u64)
    ensures
        r == score(url@, content_length, or_empty(maybe(mime))),
{
    let mime = lower_or_empty(mime);
    if has_part(mime.as_str(), "video/") {
        return u64::MAX;
    }
    if has_part(mime.as_str(), "audio/") {
        return 0;
    }
    proof {
        reveal_strlit("");
        assert(""@ =~= Seq::<char>::empty());
    }
    let query = piece_after(url, '?').unwrap_or("");
    if let Some(bandwidth) = query_value(query, "bw") {
        if let Some(value) = parse_unsigned(bandwidth.as_str()) {
            return value;
        }
    }
    content_length.unwrap_or(1)
}

/// The keys of a query that change from request to request for the same medium.
pub open spec fn is_volatile(key: Seq<char>) -> bool {
    ||| key == "range"@
    ||| key == "start"@
    ||| key == "end"@
    ||| key == "r"@
    ||| key == "rnd"@
    ||| key == "random"@
    ||| key == "ts"@
    ||| key == "t"@
    ||| key == "_"@
    ||| key == "token"@
    ||| key == "expires"@
    ||| key == "expire"@
    ||| key == "deadline"@
}

fn is_volatile_key(key: &str) -> (r: bool)
    ensures
        r == is_volatile(key@),
{
    same_text(key, "range") || same_text(key, "start") || same_text(key, "end") || same_text(
        key,
        "r",
    ) || same_text(key, "rnd") || same_text(key, "random") || same_text(key, "ts") || same_text(
        key,
        "t",
    ) || same_text(key, "_") || same_text(key, "token") || same_text(key, "expires") || same_text(
        key,
        "expire",
    ) || same_text(key, "deadline")
}

/// Whether a part of a query tells one medium from another.
pub open spec fn is_stable(part: Seq<char>) -> bool {
    part.len() > 0 && !is_volatile(lower(before(part, '=')))
}

/// The parts of a query that tell one medium from another, in lower case.
pub open spec fn stable_parts(query: Seq<char>) -> Seq<Seq<char>> {
    split(query, '&').filter(|part: Seq<char>| is_stable(part)).map_values(
        |part: Seq<char>| lower(part),
    )
}

/// What the addresses of one medium have in common: the address in lower case, without
/// its fragment, with the stable parts of its query in order.
pub open spec fn dedupe_key(url: Seq<char>) -> Seq<char> {
    let address = before(url, '#');
    let base = lower(before(address, '?'));
    match after(address, '?') {
        None => base,
        Some(query) => if stable_parts(query).len() == 0 {
            base
        } else {
            base + "?"@ + joined(sorted(stable_parts(query)), "&"@)
        },
    }
}

fn stable_params(query: &str) -> (r: Vec<String>)
    ensures
        each(r@) == stable_parts(query@),
{
    let parts = split_at_each(query, '&');
    let ghost stable = |part: Seq<char>| is_stable(part);
    let ghost low = |part: Seq<char>| lower(part);
    let mut out: Vec<String> = Vec::new();
    let mut i: usize = 0;
    proof {
        assert(each(parts@).take(0).filter(stable) =~= Seq::<Seq<char>>::empty());
    }
    while i < parts.len()
        invariant
            i <= parts.len(),
            each(parts@) == split(query@, '&'),
            stable == (|part: Seq<char>| is_stable(part)),
            low == (|part: Seq<char>| lower(part)),
            each(out@) == each(parts@).take(i as int).filter(stable).map_values(low),
        decreases parts.len() - i,
    {
        let part = parts[i].as_str();
        proof {
            let next = each(parts@).take(i + 1);
            assert(next.drop_last() == each(parts@).take(i as int));
            assert(next.last() == part@);
            reveal_with_fuel(Seq::filter, 1);
        }
        if !part.is_empty() && !is_volatile_key(to_lower(piece_before(part, '=')).as_str()) {
            let ghost was = each(out@);
            out.push(to_lower(part));
            proof {
                assert(each(out@) =~= was.push(lower(part@)));
                assert(each(out@) =~= each(parts@).take(i + 1).filter(stable).map_values(low));
            }
        }
        i = i + 1;
    }
    proof {
        assert(each(parts@).take(parts.len() as int) == each(parts@));
    }
    out
}

/// What the addresses of one medium have in common.
pub fn media_dedupe_key(url: &str) -> (r: String)
    ensures
        r@ == dedupe_key(url@),
{
    let address = piece_before(url, '#');
    let base = to_lower(piece_before(address, '?'));
    match piece_after(address, '?') {
        None => base,
        Some(query) => {
            let params = stable_params(query);
            if params.len() == 0 {
                base
            } else {
                let params = sort_strings(params);
                let mut key = base;
                key.append("?");
                key.append(join(&params, "&").as_str());
                key
            }
        },
    }
}

/// Whether a sidecar is another segmented stream of the same medium as an item.
pub open spec fn pairs_segmented(item: MediaItemView, sidecar: MediaSidecarView) -> bool {
    &&& is_segmented(item.url)
    &&& is_segmented(sidecar.url)
    &&& same_group(item.page_url, item.url, sidecar.page_url, sidecar.url)
}

/// Whether a sidecar is another segmented stream of the same medium as an item.
pub fn should_pair_sidecar_with_segmented_mp4(item: &MediaItem, sidecar: &MediaSidecar) -> (r: bool)
    ensures
        r == pairs_segmented(item@, sidecar@),
{
    looks_like_segmented_url(item.url.as_str()) && looks_like_segmented_url(sidecar.url.as_str())
        && same_media_group(
        as_text(&item.page_url),
        item.url.as_str(),
        as_text(&sidecar.page_url),
        sidecar.url.as_str(),
    )
}

/// Whether a new item is the missing second segmented stream of one seen before.
pub open spec fn completes(existing: MediaItemView, candidate: MediaItemView) -> bool {
    &&& existing.audio is None
    &&& is_segmented(existing.url)
    &&& is_segmented(candidate.url)
    &&& same_group(existing.page_url, existing.url, candidate.page_url, candidate.url)
}

/// Whether a new item is the missing second segmented stream of one seen before.
pub fn should_pair_segmented_mp4(existing: &MediaItem, candidate: &MediaItem) -> (r: bool)
    ensures
        r == completes(existing@, candidate@),
{
    existing.audio.is_none() && looks_like_segmented_url(existing.url.as_str())
        && looks_like_segmented_url(candidate.url.as_str()) && same_media_group(
        as_text(&existing.page_url),
        existing.url.as_str(),
        as_text(&candidate.page_url),
        candidate.url.as_str(),
    )
}

/// Whether a new stream carries more than one seen before.
pub open spec fn outranks(candidate: MediaItemView, existing: MediaItemView) -> bool {
    score(candidate.url, candidate.content_length, Seq::empty()) > score(
        existing.url,
        existing.content_length,
        Seq::empty(),
    )
}

/// Whether a new stream carries more than one seen before.
pub fn should_promote_segmented_mp4(candidate: &MediaItem, existing: &MediaItem) -> (r: bool)
    ensures
        r == outranks(candidate@, existing@),
{
    stream_score(candidate.url.as_str(), candidate.content_length, None) > stream_score(
        existing.url.as_str(),
        existing.content_length,
        None,
    )
}

/// An item as the sidecar of another.
pub open spec fn as_sidecar(item: MediaItemView) -> MediaSidecarView {
    MediaSidecarView {
        url: item.url,
        page_url: item.page_url,
        title: Some(item.title),
        content_length: item.content_length,
        duration_seconds: item.duration_seconds,
        headers: item.headers,
    }
}

/// An item as the sidecar of another.
pub fn sidecar_from_item(item: &MediaItem) -> (r: MediaSidecar)
    ensures
        r@ == as_sidecar(item@),
{
    MediaSidecar {
        url: item.url.clone(),
        page_url: item.page_url.clone(),
        title: Some(item.title.clone()),
        content_length: item.content_length,
        duration_seconds: item.duration_seconds,
        headers: copy_headers(&item.headers),
    }
}

/// Whether a sound stream is the sound of an item: the item has none, the two are
/// different streams, and they are segmented streams of one medium, come from one page or
/// bear one title.
pub open spec fn pairs_audio(item: MediaItemView, audio: MediaSidecarView) -> bool {
    &&& item.audio is None
    &&& dedupe_key(item.url) != dedupe_key(audio.url)
    &&& {
        ||| pairs_segmented(item, audio)
        ||| same_page(item.page_url, audio.page_url)
        ||| trimmed(item.title).len() > 0 && audio.title is Some && trimmed(audio.title->0)
            == trimmed(item.title)
    }
}

/// Whether a sound stream is the sound of an item.
pub fn should_pair_audio(item: &MediaItem, audio: &MediaSidecar) -> (r: bool)
    ensures
        r == pairs_audio(item@, audio@),
{
    if item.audio.is_some() || same_text(
        media_dedupe_key(item.url.as_str()).as_str(),
        media_dedupe_key(audio.url.as_str()).as_str(),
    ) {
        return false;
    }
    if should_pair_sidecar_with_segmented_mp4(item, audio) {
        return true;
    }
    if is_same_page(as_text(&item.page_url), as_text(&audio.page_url)) {
        return true;
    }
    if is_blank(item.title.as_str()) {
        return false;
    }
    match &audio.title {
        Some(title) => same_text(trim(title.as_str()), trim(item.title.as_str())),
        None => false,
    }
}

/// The most items, and the most pending sound streams, that are kept.
pub const KEPT: usize = 200;

/// The newest of a list, as many as are kept.
pub open spec fn newest<A>(list: Seq<A>) -> Seq<A> {
    if list.len() > KEPT {
        list.take(KEPT as int)
    } else {
        list
    }
}

fn keep_newest<A>(list: &mut VecDeque<A>)
    ensures
        final(list)@ == newest(old(list)@),
{
    list.truncate(KEPT);
}

/// What becomes of a reported request.
#[derive(Clone, Copy, Debug, PartialEq, Eq, Structural)]
pub enum Reception {
    /// It is not media.
    Ignored,
    /// It is taken in; the playlist of the HLS item given, if any, is to be looked into.
    Accepted { analyze: Option<u128> },
}

/// Whether an item is at an address with the given key.
pub open spec fn has_key(key: Seq<char>) -> spec_fn(MediaItemView) -> bool {
    |item: MediaItemView| dedupe_key(item.url) == key
}

/// Whether an item's sound is at an address with the given key.
pub open spec fn sound_has_key(key: Seq<char>) -> spec_fn(MediaItemView) -> bool {
    |item: MediaItemView| item.audio is Some && dedupe_key(item.audio->0.url) == key
}

/// Whether a sidecar is at an address with the given key.
pub open spec fn sidecar_has_key(key: Seq<char>) -> spec_fn(MediaSidecarView) -> bool {
    |audio: MediaSidecarView| dedupe_key(audio.url) == key
}

/// Whether an item takes a sound stream as its own.
pub open spec fn takes_audio(audio: MediaSidecarView) -> spec_fn(MediaItemView) -> bool {
    |item: MediaItemView| pairs_audio(item, audio)
}

/// Whether a sound stream is the sound of an item.
pub open spec fn is_audio_of(item: MediaItemView) -> spec_fn(MediaSidecarView) -> bool {
    |audio: MediaSidecarView| pairs_audio(item, audio)
}

/// Whether an item lacks the segmented stream that another one is.
pub open spec fn completed_by(candidate: MediaItemView) -> spec_fn(MediaItemView) -> bool {
    |existing: MediaItemView| completes(existing, candidate)
}

/// Whether a sidecar is another segmented stream of the same medium as an item.
pub open spec fn is_segmented_pair_of(item: MediaItemView) -> spec_fn(MediaSidecarView) -> bool {
    |audio: MediaSidecarView| pairs_segmented(item, audio)
}

/// Whether a list has an element that satisfies a condition.
pub open spec fn has_such<A>(list: Seq<A>, wanted: spec_fn(A) -> bool) -> bool {
    first_where(list, wanted) < list.len()
}

fn find_key(detected: &VecDeque<MediaItem>, key: &str) -> (r: usize)
    ensures
        r == first_where(each(detected@), has_key(key@)),
        r <= detected@.len(),
{
    let test = |one: &MediaItem| -> (r: bool)
        ensures
            r == has_key(key@)(one@),
    {
        same_text(media_dedupe_key(one.url.as_str()).as_str(), key)
    };
    find_where(detected, test, Ghost(has_key(key@)))
}

fn sound_is_at(item: &MediaItem, key: &str) -> (r: bool)
    ensures
        r == sound_has_key(key@)(item@),
{
    match &item.audio {
        Some(audio) => same_text(media_dedupe_key(audio.url.as_str()).as_str(), key),
        None => false,
    }
}

fn find_sound_key(detected: &VecDeque<MediaItem>, key: &str) -> (r: usize)
    ensures
        r == first_where(each(detected@), sound_has_key(key@)),
        r <= detected@.len(),
{
    let test = |one: &MediaItem| -> (r: bool)
        ensures
            r == sound_has_key(key@)(one@),
    {
        sound_is_at(one, key)
    };
    find_where(detected, test, Ghost(sound_has_key(key@)))
}

fn find_pending_key(pending: &VecDeque<MediaSidecar>, key: &str) -> (r: usize)
    ensures
        r == first_where(each(pending@), sidecar_has_key(key@)),
        r <= pending@.len(),
{
    let test = |one: &MediaSidecar| -> (r: bool)
        ensures
            r == sidecar_has_key(key@)(one@),
    {
        same_text(media_dedupe_key(one.url.as_str()).as_str(), key)
    };
    find_where(pending, test, Ghost(sidecar_has_key(key@)))
}

fn find_taker(detected: &VecDeque<MediaItem>, audio: &MediaSidecar) -> (r: usize)
    ensures
        r == first_where(each(detected@), takes_audio(audio@)),
        r <= detected@.len(),
{
    let test = |one: &MediaItem| -> (r: bool)
        ensures
            r == takes_audio(audio@)(one@),
    {
        should_pair_audio(one, audio)
    };
    find_where(detected, test, Ghost(takes_audio(audio@)))
}

fn find_audio_for(pending: &VecDeque<MediaSidecar>, item: &MediaItem) -> (r: usize)
    ensures
        r == first_where(each(pending@), is_audio_of(item@)),
        r <= pending@.len(),
{
    let test = |one: &MediaSidecar| -> (r: bool)
        ensures
            r == is_audio_of(item@)(one@),
    {
        should_pair_audio(item, one)
    };
    find_where(pending, test, Ghost(is_audio_of(item@)))
}

fn find_incomplete(detected: &VecDeque<MediaItem>, candidate: &MediaItem) -> (r: usize)
    ensures
        r == first_where(each(detected@), completed_by(candidate@)),
        r <= detected@.len(),
{
    let test = |one: &MediaItem| -> (r: bool)
        ensures
            r == completed_by(candidate@)(one@),
    {
        should_pair_segmented_mp4(one, candidate)
    };
    find_where(detected, test, Ghost(completed_by(candidate@)))
}

fn find_segmented_pair(pending: &VecDeque<MediaSidecar>, item: &MediaItem) -> (r: usize)
    ensures
        r == first_where(each(pending@), is_segmented_pair_of(item@)),
        r <= pending@.len(),
{
    let test = |one: &MediaSidecar| -> (r: bool)
        ensures
            r == is_segmented_pair_of(item@)(one@),
    {
        should_pair_sidecar_with_segmented_mp4(item, one)
    };
    find_where(pending, test, Ghost(is_segmented_pair_of(item@)))
}

/// An item with what a new report on it says: headers if there are any, and whatever
/// else the report knows.
pub open spec fn refreshed(item: MediaItemView, candidate: MediaCandidateView) -> MediaItemView {
    MediaItemView {
        headers: if candidate.request_headers.len() > 0 {
            candidate.request_headers
        } else {
            item.headers
        },
        page_url: if candidate.page_url is Some {
            candidate.page_url
        } else {
            item.page_url
        },
        title: match candidate.title {
            Some(title) if trimmed(title).len() > 0 => title,
            _ => item.title,
        },
        content_length: if candidate.content_length is Some {
            candidate.content_length
        } else {
            item.content_length
        },
        duration_seconds: if candidate.duration_seconds is Some {
            candidate.duration_seconds
        } else {
            item.duration_seconds
        },
        ..item
    }
}

fn refresh(item: MediaItem, candidate: MediaCandidate) -> (r: MediaItem)
    ensures
        r@ == refreshed(item@, candidate@),
{
    let mut item = item;
    if candidate.request_headers.len() > 0 {
        item.headers = candidate.request_headers;
    }
    if candidate.page_url.is_some() {
        item.page_url = candidate.page_url;
    }
    if let Some(title) = candidate.title {
        if !is_blank(title.as_str()) {
            item.title = title;
        }
    }
    if candidate.content_length.is_some() {
        item.content_length = candidate.content_length;
    }
    if candidate.duration_seconds.is_some() {
        item.duration_seconds = candidate.duration_seconds;
    }
    item
}

/// The state after a sound stream was reported: unchanged if the stream is known, else
/// with the sound given to the first item that takes it, else kept until one does.
pub open spec fn with_audio(app: AppStateView, candidate: MediaCandidateView) -> AppStateView {
    let audio = sidecar_of(candidate);
    let key = dedupe_key(audio.url);
    let at = first_where(app.detected, takes_audio(audio));
    if has_such(app.detected, sound_has_key(key)) || has_such(
        app.pending_audio,
        sidecar_has_key(key),
    ) {
        app
    } else if at < app.detected.len() {
        AppStateView {
            detected: app.detected.update(
                at,
                MediaItemView { audio: Some(audio), ..app.detected[at] },
            ),
            ..app
        }
    } else {
        AppStateView { pending_audio: newest(seq![audio] + app.pending_audio), ..app }
    }
}

/// Takes in a sound stream.
pub fn accept_audio(app: &mut AppState, candidate: MediaCandidate)
    ensures
        final(app)@ == with_audio(old(app)@, candidate@),
{
    let audio = MediaSidecar::from(candidate);
    let key = media_dedupe_key(audio.url.as_str());
    if find_sound_key(&app.detected, key.as_str()) < app.detected.len() || find_pending_key(
        &app.pending_audio,
        key.as_str(),
    ) < app.pending_audio.len() {
        return;
    }
    let at = find_taker(&app.detected, &audio);
    if at < app.detected.len() {
        if let Some(item) = app.detected.remove(at) {
            let mut item = item;
            item.audio = Some(audio);
            app.detected.insert(at, item);
        }
        proof {
            assert(final(app)@.detected =~= with_audio(old(app)@, candidate@).detected);
        }
        return;
    }
    app.pending_audio.push_front(audio);
    keep_newest(&mut app.pending_audio);
    proof {
        assert(app@.pending_audio =~= with_audio(old(app)@, candidate@).pending_audio);
    }
}

/// A new item, with its sound if a pending stream is that.
pub open spec fn joined_item(item: MediaItemView, pending: Seq<MediaSidecarView>, at: int) -> MediaItemView {
    if at < pending.len() {
        MediaItemView { audio: Some(pending[at]), ..item }
    } else {
        item
    }
}

/// The pending streams without the one that has found its item, if one has.
pub open spec fn left_pending(pending: Seq<MediaSidecarView>, at: int) -> Seq<MediaSidecarView> {
    if at < pending.len() {
        pending.remove(at)
    } else {
        pending
    }
}

/// The state with a new item in front, and the pending stream at `at` given to it.
pub open spec fn with_item(app: AppStateView, item: MediaItemView, at: int) -> AppStateView {
    AppStateView {
        detected: newest(seq![joined_item(item, app.pending_audio, at)] + app.detected),
        pending_audio: left_pending(app.pending_audio, at),
        ..app
    }
}

/// The item whose playlist is to be looked into after it was taken in.
pub open spec fn to_analyze(item: MediaItemView) -> Option<u128> {
    if item.media_type == MediaType::Hls && item.hls_variants.len() == 0 {
        Some(item.id)
    } else {
        None
    }
}

fn add_item(app: &mut AppState, item: MediaItem, at: usize) -> (r: Option<u128>)
    requires
        item@.hls_variants.len() == 0,
    ensures
        final(app)@ == with_item(old(app)@, item@, at as int),
        r == to_analyze(item@),
{
    let mut item = item;
    let ghost new = item@;
    let analyze = if item.media_type == MediaType::Hls {
        Some(item.id)
    } else {
        None
    };
    let ghost pending = app@.pending_audio;
    if let Some(audio) = app.pending_audio.remove(at) {
        item.audio = Some(audio);
    }
    proof {
        assert(app@.pending_audio =~= left_pending(pending, at as int));
        assert(item@ =~= joined_item(new, pending, at as int));
    }
    let ghost whole = item@;
    app.detected.push_front(item);
    keep_newest(&mut app.detected);
    proof {
        assert(app@.detected =~= newest(seq![whole] + old(app)@.detected));
    }
    analyze
}

/// The state, and the item to look into, after a stream that is neither segmented nor
/// sound was reported: the item seen at that address is refreshed, else a new one comes
/// in front.
pub open spec fn with_stream(
    app: AppStateView,
    candidate: MediaCandidateView,
    id: u128,
    at: i64,
) -> (AppStateView, Option<u128>) {
    let known = first_where(app.detected, has_key(dedupe_key(candidate.url)));
    if known < app.detected.len() {
        let item = refreshed(app.detected[known], candidate);
        (AppStateView { detected: app.detected.update(known, item), ..app }, to_analyze(item))
    } else {
        let item = item_of(candidate, id, at);
        (with_item(app, item, first_where(app.pending_audio, is_audio_of(item))), to_analyze(item))
    }
}

/// Takes in a stream that is neither segmented nor sound.
pub fn accept_stream(app: &mut AppState, candidate: MediaCandidate, id: u128, at: i64) -> (r: Option<
    u128,
>)
    ensures
        (final(app)@, r) == with_stream(old(app)@, candidate@, id, at),
{
    let key = media_dedupe_key(candidate.url.as_str());
    let known = find_key(&app.detected, key.as_str());
    if known < app.detected.len() {
        if let Some(item) = app.detected.remove(known) {
            let item = refresh(item, candidate);
            let analyze = if item.media_type == MediaType::Hls && item.hls_variants.len() == 0 {
                Some(item.id)
            } else {
                None
            };
            app.detected.insert(known, item);
            proof {
                assert(app@.detected =~= old(app)@.detected.update(known as int, item@));
            }
            return analyze;
        }
    }
    let item = MediaItem::seen(candidate, id, at);
    let place = find_audio_for(&app.pending_audio, &item);
    add_item(app, item, place)
}

/// An item that has become the sidecar of a stream that carries more: the address, page,
/// title, kind, length, duration and headers are those of the stream.
pub open spec fn promoted(existing: MediaItemView, item: MediaItemView) -> MediaItemView {
    MediaItemView {
        url: item.url,
        page_url: item.page_url,
        title: item.title,
        media_type: item.media_type,
        content_length: item.content_length,
        duration_seconds: item.duration_seconds,
        headers: item.headers,
        audio: Some(as_sidecar(existing)),
        ..existing
    }
}

/// An item that has got another stream as its sidecar.
pub open spec fn accompanied(existing: MediaItemView, item: MediaItemView) -> MediaItemView {
    MediaItemView {
        duration_seconds: if existing.duration_seconds is None {
            item.duration_seconds
        } else {
            existing.duration_seconds
        },
        audio: Some(as_sidecar(item)),
        ..existing
    }
}

/// The state, and the item to look into, after a segmented stream was reported: unchanged
/// if the stream is known; else the first item that lacks it gets it, as its main stream
/// or as its sidecar, whichever carries more; else it is a new item.
pub open spec fn with_segmented(
    app: AppStateView,
    candidate: MediaCandidateView,
    id: u128,
    at: i64,
) -> (AppStateView, Option<u128>) {
    let key = dedupe_key(candidate.url);
    let item = item_of(candidate, id, at);
    let partner = first_where(app.detected, completed_by(item));
    if has_such(app.detected, has_key(key)) || has_such(app.detected, sound_has_key(key)) {
        (app, None)
    } else if partner < app.detected.len() {
        let existing = app.detected[partner];
        let whole = if outranks(item, existing) {
            promoted(existing, item)
        } else {
            accompanied(existing, item)
        };
        (AppStateView { detected: app.detected.update(partner, whole), ..app }, None)
    } else {
        (
            with_item(app, item, first_where(app.pending_audio, is_segmented_pair_of(item))),
            to_analyze(item),
        )
    }
}

fn pair_items(existing: MediaItem, item: MediaItem) -> (r: MediaItem)
    ensures
        r@ == (if outranks(item@, existing@) {
            promoted(existing@, item@)
        } else {
            accompanied(existing@, item@)
        }),
{
    let mut existing = existing;
    if should_promote_segmented_mp4(&item, &existing) {
        let sidecar = sidecar_from_item(&existing);
        existing.url = item.url;
        existing.page_url = item.page_url;
        existing.title = item.title;
        existing.media_type = item.media_type;
        existing.content_length = item.content_length;
        existing.duration_seconds = item.duration_seconds;
        existing.headers = item.headers;
        existing.audio = Some(sidecar);
    } else {
        if existing.duration_seconds.is_none() {
            existing.duration_seconds = item.duration_seconds;
        }
        existing.audio = Some(sidecar_from_item(&item));
    }
    existing
}

/// Takes in a segmented stream.
pub fn accept_segmented_mp4(app: &mut AppState, candidate: MediaCandidate, id: u128, at: i64) -> (r:
    Option<u128>)
    ensures
        (final(app)@, r) == with_segmented(old(app)@, candidate@, id, at),
{
    let key = media_dedupe_key(candidate.url.as_str());
    if find_key(&app.detected, key.as_str()) < app.detected.len() || find_sound_key(
        &app.detected,
        key.as_str(),
    ) < app.detected.len() {
        return None;
    }
    let item = MediaItem::seen(candidate, id, at);
    let partner = find_incomplete(&app.detected, &item);
    if partner < app.detected.len() {
        if let Some(existing) = app.detected.remove(partner) {
            let whole = pair_items(existing, item);
            app.detected.insert(partner, whole);
            proof {
                assert(app@.detected =~= old(app)@.detected.update(partner as int, whole@));
            }
            return None;
        }
        return None;
    }
    let place = find_segmented_pair(&app.pending_audio, &item);
    add_item(app, item, place)
}

/// The state, and the answer, after a request was reported: what is not media is ignored;
/// the rest is taken in as a segmented stream, a sound stream or another stream.
pub open spec fn received(app: AppStateView, candidate: MediaCandidateView, id: u128, at: i64) -> (
    AppStateView,
    Reception,
) {
    if !is_media(candidate) {
        (app, Reception::Ignored)
    } else if is_segmented(candidate.url) {
        let (next, analyze) = with_segmented(app, candidate, id, at);
        (next, Reception::Accepted { analyze })
    } else if is_audio(candidate) {
        (with_audio(app, candidate), Reception::Accepted { analyze: None })
    } else {
        let (next, analyze) = with_stream(app, candidate, id, at);
        (next, Reception::Accepted { analyze })
    }
}

/// Takes in a reported request; an item that comes of it gets the given identity and time.
pub fn receive_media_as(app: &mut AppState, candidate: MediaCandidate, id: u128, at: i64) -> (r:
    Reception)
    ensures
        (final(app)@, r) == received(old(app)@, candidate@, id, at),
{
    if !looks_like_media(&candidate) {
        return Reception::Ignored;
    }
    if looks_like_segmented_mp4(&candidate) {
        let analyze = accept_segmented_mp4(app, candidate, id, at);
        return Reception::Accepted { analyze };
    }
    if looks_like_audio(&candidate) {
        accept_audio(app, candidate);
        return Reception::Accepted { analyze: None };
    }
    let analyze = accept_stream(app, candidate, id, at);
    Reception::Accepted { analyze }
}

/// Takes in a reported request; an item that comes of it gets a new identity and the
/// current time.
pub fn receive_media(app: &mut AppState, candidate: MediaCandidate) -> (r: Reception)
    ensures
        exists|id: u128, at: i64|
            is_random_uuid(id) && (final(app)@, r) == #[trigger] received(
                old(app)@,
                candidate@,
                id,
                at,
            ),
{
    let id = fresh_id();
    let at = now_millis();
    receive_media_as(app, candidate, id, at)
}

/// An answer to a request: its status code, its body and its headers.
#[derive(Debug)]
pub struct Answer {
    pub status: u16,
    pub body: &'static str,
    pub headers: Vec<HeaderPair>,
}

#[verifier::ext_equal]
pub struct AnswerView {
    pub status: u16,
    pub body: Seq<char>,
    pub headers: Seq<HeaderPairView>,
}

impl View for Answer {
    type V = AnswerView;

    open spec fn view(&self) -> AnswerView {
        AnswerView { status: self.status, body: self.body@, headers: each(self.headers@) }
    }
}

/// The headers that let pages of any origin send requests and read the answers.
pub open spec fn cors_headers() -> Seq<HeaderPairView> {
    seq![
        HeaderPairView { name: "access-control-allow-origin"@, value: "*"@ },
        HeaderPairView { name: "access-control-allow-methods"@, value: "POST, OPTIONS, GET"@ },
        HeaderPairView { name: "access-control-allow-headers"@, value: "content-type"@ },
        HeaderPairView { name: "access-control-max-age"@, value: "86400"@ },
    ]
}

fn header(name: &str, value: &str) -> (r: HeaderPair)
    ensures
        r@ == (HeaderPairView { name: name@, value: value@ }),
{
    HeaderPair { name: name.to_string(), value: value.to_string() }
}

/// An answer that pages of any origin can read.
pub fn with_cors(status: u16, body: &'static str) -> (r: Answer)
    ensures
        r@ == (AnswerView { status, body: body@, headers: cors_headers() }),
{
    let mut headers: Vec<HeaderPair> = Vec::new();
    headers.push(header("access-control-allow-origin", "*"));
    headers.push(header("access-control-allow-methods", "POST, OPTIONS, GET"));
    headers.push(header("access-control-allow-headers", "content-type"));
    headers.push(header("access-control-max-age", "86400"));
    proof {
        assert(each(headers@) =~= cors_headers());
    }
    Answer { status, body, headers }
}

/// The answer to the question whether the application runs.
pub fn health() -> (r: Answer)
    ensures
        r@ == (AnswerView { status: 200, body: "ok"@, headers: cors_headers() }),
{
    with_cors(200, "ok")
}

/// The answer to the question whether a report may be sent.
pub fn cors_preflight() -> (r: Answer)
    ensures
        r@ == (AnswerView { status: 204, body: ""@, headers: cors_headers() }),
{
    with_cors(204, "")
}

/// The answer to a report.
pub open spec fn answer_of(reception: Reception) -> AnswerView {
    match reception {
        Reception::Ignored => AnswerView {
            status: 204,
            body: "ignored"@,
            headers: cors_headers(),
        },
        Reception::Accepted { .. } => AnswerView {
            status: 201,
            body: "accepted"@,
            headers: cors_headers(),
        },
    }
}

impl Reception {
    /// The answer to a report.
    pub fn answer(self) -> (r: Answer)
        ensures
            r@ == answer_of(self),
    {
        match self {
            Reception::Ignored => with_cors(204, "ignored"),
            Reception::Accepted { .. } => with_cors(201, "accepted"),
        }
    }
}

/// Whether reports may be sent with a method.
pub fn method_is_allowed(method: &str) -> (r: bool)
    ensures
        r == (method@ == "POST"@ || method@ == "OPTIONS"@ || method@ == "GET"@),
{
    same_text(method, "POST") || same_text(method, "OPTIONS") || same_text(method, "GET")
}

/// Takes in a reported request; a change is counted only if the request is accepted.
pub fn report_media(shared: &mut SharedState, candidate: MediaCandidate) -> (r: Reception)
    ensures
        r == Reception::Ignored <==> !is_media(candidate@),
        r == Reception::Ignored ==> {
            &&& final(shared).app() == old(shared).app()
            &&& final(shared).version() == old(shared).version()
        },
        r != Reception::Ignored ==> {
            &&& final(shared).version() == next_version(old(shared).version())
            &&& exists|id: u128, at: i64|
                is_random_uuid(id) && (final(shared).app(), r) == #[trigger] received(
                    old(shared).app(),
                    candidate@,
                    id,
                    at,
                )
        },
{
    if !looks_like_media(&candidate) {
        return Reception::Ignored;
    }
    let ghost was = shared.app();
    let app = shared.app_mut();
    let reception = receive_media(app, candidate);
    proof {
        assert(exists|id: u128, at: i64|
            is_random_uuid(id) && (shared.app(), reception) == #[trigger] received(
                was,
                candidate@,
                id,
                at,
            ));
    }
    shared.bump();
    proof {
        let (id, at) = choose|id: u128, at: i64|
            is_random_uuid(id) && (shared.app(), reception) == #[trigger] received(
                was,
                candidate@,
                id,
                at,
            );
        assert((shared.app(), reception) == received(was, candidate@, id, at));
    }
    reception
}

} // verus!
