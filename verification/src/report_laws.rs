//! What becomes of a reported request, told by what the request says.

use crate::lists::{first_where, lemma_first_is, lemma_first_where};
use crate::sniffer::{
    bilibili_key, completed_by, dedupe_key, has_key, is_audio, is_audio_of, is_media, is_segmented,
    is_segmented_pair_of, is_stable, is_volatile, pairs_audio, received, same_page, score, sets_key,
    sidecar_has_key, sound_has_key, stable_parts, takes_audio, value_in_query, Reception,
};
use crate::sniffer_laws::{
    law_keys_are_equal_for_one_medium, lemma_address_parts, lemma_split_push, lemma_split_whole,
};
use crate::state::{
    item_of, or_empty, sidecar_of, AppStateView, MediaCandidateView, MediaItemView,
    MediaSidecarView, MediaType,
};
use crate::text::{
    after, before, first_at, holds, last_piece, lemma_first_at, lower, split, trimmed, unsigned,
};
use crate::text_laws::{
    law_before_and_after_make_up_the_text, law_lower_case_tells_texts_apart,
    law_parts_are_found_in_any_case, mentions, same_but_case,
};
use vstd::prelude::*;

verus! {

/// Whether an address or a content type is one of media: each of these marks is enough.
pub open spec fn says_media(url: Seq<char>, mime: Option<Seq<char>>) -> bool {
    ||| mentions(url, ".m3u8"@)
    ||| mentions(url, ".mpd"@)
    ||| mentions(url, ".mp4"@)
    ||| mentions(url, ".m4s"@)
    ||| mentions(url, ".webm"@)
    ||| mime is Some && {
        ||| mentions(mime->0, "video/"@)
        ||| mentions(mime->0, "audio/"@)
        ||| mentions(mime->0, "mpegurl"@)
        ||| mentions(mime->0, "dash"@)
    }
}

/// Whether an address or a content type is one of sound alone.
pub open spec fn says_sound(url: Seq<char>, mime: Option<Seq<char>>) -> bool {
    ||| mime is Some && mentions(mime->0, "audio/"@)
    ||| mentions(url, ".m4a"@)
    ||| mentions(url, ".aac"@)
    ||| mentions(url, ".mp3"@)
    ||| mentions(url, ".opus"@)
    ||| mentions(url, "/audio/"@)
}

proof fn lemma_mention(text: Seq<char>, mark: Seq<char>)
    requires
        lower(mark) == mark,
    ensures
        holds(lower(text), mark) <==> mentions(text, mark),
{
    law_parts_are_found_in_any_case(text, mark);
}

proof fn lemma_mention_in(text: Option<Seq<char>>, mark: Seq<char>)
    requires
        lower(mark) == mark,
        mark.len() > 0,
    ensures
        holds(lower(or_empty(text)), mark) <==> text is Some && mentions(text->0, mark),
{
    lemma_mention(or_empty(text), mark);
    if text is None && mentions(or_empty(text), mark) {
        assert(false);
    }
}

proof fn lemma_marks()
    ensures
        lower(".m3u8"@) == ".m3u8"@,
        lower(".mpd"@) == ".mpd"@,
        lower(".mp4"@) == ".mp4"@,
        lower(".m4s"@) == ".m4s"@,
        lower(".webm"@) == ".webm"@,
        lower("video/"@) == "video/"@ && "video/"@.len() == 6,
        lower("audio/"@) == "audio/"@ && "audio/"@.len() == 6,
        lower("mpegurl"@) == "mpegurl"@ && "mpegurl"@.len() == 7,
        lower("dash"@) == "dash"@ && "dash"@.len() == 4,
        lower("mp4"@) == "mp4"@ && "mp4"@.len() == 3,
        lower("webm"@) == "webm"@ && "webm"@.len() == 4,
{
    reveal_strlit(".m3u8");
    reveal_strlit(".mpd");
    reveal_strlit(".mp4");
    reveal_strlit(".m4s");
    reveal_strlit(".webm");
    reveal_strlit("video/");
    reveal_strlit("audio/");
    reveal_strlit("mpegurl");
    reveal_strlit("dash");
    reveal_strlit("mp4");
    reveal_strlit("webm");
    assert(lower(".m3u8"@) =~= ".m3u8"@);
    assert(lower(".mpd"@) =~= ".mpd"@);
    assert(lower(".mp4"@) =~= ".mp4"@);
    assert(lower(".m4s"@) =~= ".m4s"@);
    assert(lower(".webm"@) =~= ".webm"@);
    assert(lower("video/"@) =~= "video/"@);
    assert(lower("audio/"@) =~= "audio/"@);
    assert(lower("mpegurl"@) =~= "mpegurl"@);
    assert(lower("dash"@) =~= "dash"@);
    assert(lower("mp4"@) =~= "mp4"@);
    assert(lower("webm"@) =~= "webm"@);
}

proof fn lemma_sound_marks()
    ensures
        lower(".m4a"@) == ".m4a"@,
        lower(".aac"@) == ".aac"@,
        lower(".mp3"@) == ".mp3"@,
        lower(".opus"@) == ".opus"@,
        lower("/audio/"@) == "/audio/"@,
{
    reveal_strlit(".m4a");
    reveal_strlit(".aac");
    reveal_strlit(".mp3");
    reveal_strlit(".opus");
    reveal_strlit("/audio/");
    assert(lower(".m4a"@) =~= ".m4a"@);
    assert(lower(".aac"@) =~= ".aac"@);
    assert(lower(".mp3"@) =~= ".mp3"@);
    assert(lower(".opus"@) =~= ".opus"@);
    assert(lower("/audio/"@) =~= "/audio/"@);
}

proof fn lemma_media(candidate: MediaCandidateView)
    ensures
        is_media(candidate) <==> says_media(candidate.url, candidate.mime_type),
        is_audio(candidate) <==> says_sound(candidate.url, candidate.mime_type),
        is_segmented(candidate.url) <==> mentions(candidate.url, ".m4s"@),
{
    let url = candidate.url;
    let mime = candidate.mime_type;
    lemma_marks();
    lemma_sound_marks();
    lemma_mention(url, ".m3u8"@);
    lemma_mention(url, ".mpd"@);
    lemma_mention(url, ".mp4"@);
    lemma_mention(url, ".m4s"@);
    lemma_mention(url, ".webm"@);
    lemma_mention(url, ".m4a"@);
    lemma_mention(url, ".aac"@);
    lemma_mention(url, ".mp3"@);
    lemma_mention(url, ".opus"@);
    lemma_mention(url, "/audio/"@);
    lemma_mention_in(mime, "video/"@);
    lemma_mention_in(mime, "audio/"@);
    lemma_mention_in(mime, "mpegurl"@);
    lemma_mention_in(mime, "dash"@);
}

/// A report is ignored if and only if neither its address nor its content type says that it is
/// media; nothing is changed by it then.
pub proof fn law_media_is_accepted_and_nothing_else(
    app: AppStateView,
    candidate: MediaCandidateView,
    id: u128,
    at: i64,
)
    ensures
        received(app, candidate, id, at).1 is Ignored <==> !says_media(
            candidate.url,
            candidate.mime_type,
        ),
        !says_media(candidate.url, candidate.mime_type) ==> received(app, candidate, id, at).0
            == app,
{
    lemma_media(candidate);
}

/// Every request whose content type begins with `video/`, ASCII case aside, is accepted,
/// whatever its address is.
pub proof fn law_video_is_accepted_by_its_type(
    app: AppStateView,
    candidate: MediaCandidateView,
    id: u128,
    at: i64,
)
    requires
        candidate.mime_type is Some,
        candidate.mime_type->0.len() >= 6,
        same_but_case(candidate.mime_type->0.take(6), "video/"@),
    ensures
        received(app, candidate, id, at).1 is Accepted,
{
    let mime = candidate.mime_type->0;
    lemma_marks();
    assert(mime.subrange(0, 6) =~= mime.take(6));
    assert(same_but_case(mime.subrange(0, 0int + "video/"@.len()), "video/"@));
    law_media_is_accepted_and_nothing_else(app, candidate, id, at);
}

/// The sidecar that a report of sound stands for is what the report says.
pub proof fn law_a_sidecar_is_as_reported(candidate: MediaCandidateView)
    ensures
        sidecar_of(candidate).url == candidate.url,
        sidecar_of(candidate).page_url == candidate.page_url,
        sidecar_of(candidate).title == candidate.title,
        sidecar_of(candidate).content_length == candidate.content_length,
        sidecar_of(candidate).duration_seconds == candidate.duration_seconds,
        sidecar_of(candidate).headers == candidate.request_headers,
{
}

/// With nothing seen before, a report of sound waits for its item, and any other report of media
/// becomes the one item that is listed.
pub proof fn law_a_first_report_is_listed_or_waits(
    app: AppStateView,
    candidate: MediaCandidateView,
    id: u128,
    at: i64,
)
    requires
        app.detected.len() == 0,
        app.pending_audio.len() == 0,
        says_media(candidate.url, candidate.mime_type),
    ensures
        ({
            let next = received(app, candidate, id, at).0;
            if !mentions(candidate.url, ".m4s"@) && says_sound(candidate.url, candidate.mime_type) {
                &&& next.detected.len() == 0
                &&& next.pending_audio == seq![sidecar_of(candidate)]
            } else {
                &&& next.pending_audio.len() == 0
                &&& next.detected == seq![item_of(candidate, id, at)]
            }
        }),
        received(app, candidate, id, at).0.tasks == app.tasks,
        received(app, candidate, id, at).0.settings == app.settings,
{
    lemma_media(candidate);
    let next = received(app, candidate, id, at).0;
    let item = item_of(candidate, id, at);
    assert(seq![item] + app.detected =~= seq![item]);
    assert(seq![sidecar_of(candidate)] + app.pending_audio =~= seq![sidecar_of(candidate)]);
    assert(app.pending_audio =~= Seq::<MediaSidecarView>::empty());
    assert(app.detected =~= Seq::<MediaItemView>::empty());
}

/// Two pages are known to be the same if and only if both are known, and what stands before
/// their fragments is the same but for ASCII case.
pub proof fn law_pages_are_the_same_but_for_case(left: Option<Seq<char>>, right: Option<Seq<char>>)
    ensures
        same_page(left, right) <==> left is Some && right is Some && same_but_case(
            before(left->0, '#'),
            before(right->0, '#'),
        ),
        left is Some && right is Some && !left->0.contains('#') && !right->0.contains('#') ==> (
        same_page(left, right) <==> same_but_case(left->0, right->0)),
{
    if left is Some && right is Some {
        law_lower_case_tells_texts_apart(before(left->0, '#'), before(right->0, '#'));
        law_before_and_after_make_up_the_text(left->0, '#');
        law_before_and_after_make_up_the_text(right->0, '#');
    }
}

/// Whether a sound stream is the sound of an item that is no segmented stream: they come from
/// the same page, or they have the same title.
pub open spec fn goes_with(item: MediaItemView, audio: MediaSidecarView) -> bool {
    ||| item.page_url is Some && audio.page_url is Some && same_but_case(
        before(item.page_url->0, '#'),
        before(audio.page_url->0, '#'),
    )
    ||| trimmed(item.title).len() > 0 && audio.title is Some && trimmed(audio.title->0) == trimmed(
        item.title,
    )
}

proof fn lemma_pairs(item: MediaItemView, audio: MediaSidecarView)
    requires
        !mentions(audio.url, ".m4s"@),
    ensures
        pairs_audio(item, audio) <==> item.audio is None && dedupe_key(item.url) != dedupe_key(
            audio.url,
        ) && goes_with(item, audio),
{
    lemma_marks();
    lemma_mention(audio.url, ".m4s"@);
    law_pages_are_the_same_but_for_case(item.page_url, audio.page_url);
}

/// A sound that is reported becomes that of the one item there is if the item has none, is
/// another stream, and comes from the same page or has the same title; else it waits.
pub proof fn law_sound_joins_the_item_of_its_page_or_title(
    app: AppStateView,
    item: MediaItemView,
    candidate: MediaCandidateView,
    id: u128,
    at: i64,
)
    requires
        app.detected == seq![item],
        app.pending_audio.len() == 0,
        item.audio is None,
        dedupe_key(item.url) != dedupe_key(candidate.url),
        says_media(candidate.url, candidate.mime_type),
        says_sound(candidate.url, candidate.mime_type),
        !mentions(candidate.url, ".m4s"@),
    ensures
        ({
            let audio = sidecar_of(candidate);
            let next = received(app, candidate, id, at).0;
            if goes_with(item, audio) {
                &&& next.detected == seq![MediaItemView { audio: Some(audio), ..item }]
                &&& next.pending_audio.len() == 0
            } else {
                &&& next.detected == seq![item]
                &&& next.pending_audio == seq![audio]
            }
        }),
{
    lemma_media(candidate);
    let audio = sidecar_of(candidate);
    lemma_pairs(item, audio);
    let key = dedupe_key(audio.url);
    lemma_first_where(app.detected, takes_audio(audio));
    lemma_first_where(app.detected, sound_has_key(key));
    lemma_first_where(app.pending_audio, sidecar_has_key(key));
    assert(app.detected[0] == item);
    let next = received(app, candidate, id, at).0;
    if goes_with(item, audio) {
        lemma_first_is(app.detected, takes_audio(audio), 0);
        assert(next.detected =~= seq![MediaItemView { audio: Some(audio), ..item }]);
    } else {
        let k = first_where(app.detected, takes_audio(audio));
        assert(k == 1) by {
            if k < 1 {
                assert(takes_audio(audio)(app.detected[0]));
            }
        }
        assert(next.pending_audio =~= seq![audio]);
    }
}

/// A stream that is reported takes the one sound that waits if they come from the same page or
/// have the same title; else the sound goes on waiting.
pub proof fn law_a_stream_takes_the_sound_of_its_page_or_title(
    app: AppStateView,
    audio: MediaSidecarView,
    candidate: MediaCandidateView,
    id: u128,
    at: i64,
)
    requires
        app.detected.len() == 0,
        app.pending_audio == seq![audio],
        dedupe_key(candidate.url) != dedupe_key(audio.url),
        says_media(candidate.url, candidate.mime_type),
        !says_sound(candidate.url, candidate.mime_type),
        !mentions(candidate.url, ".m4s"@),
        !mentions(audio.url, ".m4s"@),
    ensures
        ({
            let item = item_of(candidate, id, at);
            let next = received(app, candidate, id, at).0;
            if goes_with(item, audio) {
                &&& next.detected == seq![MediaItemView { audio: Some(audio), ..item }]
                &&& next.pending_audio.len() == 0
            } else {
                &&& next.detected == seq![item]
                &&& next.pending_audio == seq![audio]
            }
        }),
{
    lemma_media(candidate);
    let item = item_of(candidate, id, at);
    lemma_pairs(item, audio);
    lemma_first_where(app.detected, has_key(dedupe_key(candidate.url)));
    lemma_first_where(app.pending_audio, is_audio_of(item));
    assert(app.pending_audio[0] == audio);
    let next = received(app, candidate, id, at).0;
    if goes_with(item, audio) {
        lemma_first_is(app.pending_audio, is_audio_of(item), 0);
        assert(next.detected =~= seq![MediaItemView { audio: Some(audio), ..item }]);
        assert(next.pending_audio =~= Seq::<MediaSidecarView>::empty());
    } else {
        let k = first_where(app.pending_audio, is_audio_of(item));
        assert(k == 1) by {
            if k < 1 {
                assert(is_audio_of(item)(app.pending_audio[0]));
            }
        }
        assert(next.detected =~= seq![item]);
    }
}

/// A stream that is known is not listed again: its item keeps its identity, address, kind,
/// qualities and sound, and takes what the new report says of the rest; no other item changes.
pub proof fn law_a_known_stream_is_brought_up_to_date(
    app: AppStateView,
    candidate: MediaCandidateView,
    id: u128,
    at: i64,
    k: int,
)
    requires
        says_media(candidate.url, candidate.mime_type),
        !says_sound(candidate.url, candidate.mime_type),
        !mentions(candidate.url, ".m4s"@),
        0 <= k < app.detected.len(),
        dedupe_key(app.detected[k].url) == dedupe_key(candidate.url),
        forall|i: int|
            0 <= i < k ==> dedupe_key((#[trigger] app.detected[i]).url) != dedupe_key(candidate.url),
    ensures
        ({
            let next = received(app, candidate, id, at).0;
            let old = app.detected[k];
            let new = next.detected[k];
            &&& next.detected.len() == app.detected.len()
            &&& forall|i: int| 0 <= i < app.detected.len() && i != k ==> #[trigger] next.detected[i]
                == app.detected[i]
            &&& next.pending_audio == app.pending_audio
            &&& new.id == old.id && new.url == old.url && new.media_type == old.media_type
            &&& new.hls_variants == old.hls_variants && new.audio == old.audio
            &&& new.selected_hls_variant_url == old.selected_hls_variant_url
            &&& new.hls_status == old.hls_status && new.detected_at == old.detected_at
            &&& candidate.request_headers.len() > 0 ==> new.headers == candidate.request_headers
            &&& candidate.request_headers.len() == 0 ==> new.headers == old.headers
            &&& candidate.page_url is Some ==> new.page_url == candidate.page_url
            &&& candidate.page_url is None ==> new.page_url == old.page_url
            &&& candidate.title is Some && trimmed(candidate.title->0).len() > 0 ==> new.title
                == candidate.title->0
            &&& candidate.title is None || trimmed(candidate.title->0).len() == 0 ==> new.title
                == old.title
            &&& candidate.content_length is Some ==> new.content_length == candidate.content_length
            &&& candidate.content_length is None ==> new.content_length == old.content_length
            &&& candidate.duration_seconds is Some ==> new.duration_seconds
                == candidate.duration_seconds
            &&& candidate.duration_seconds is None ==> new.duration_seconds == old.duration_seconds
        }),
{
    lemma_media(candidate);
    let key = dedupe_key(candidate.url);
    assert forall|i: int| 0 <= i < k implies !has_key(key)(#[trigger] app.detected[i]) by {}
    lemma_first_is(app.detected, has_key(key), k);
}

/// A stream that is not known is listed before all others, which follow in their order; of more
/// than two hundred the last is dropped.
pub proof fn law_a_new_stream_comes_first(
    app: AppStateView,
    candidate: MediaCandidateView,
    id: u128,
    at: i64,
)
    requires
        says_media(candidate.url, candidate.mime_type),
        !says_sound(candidate.url, candidate.mime_type),
        !mentions(candidate.url, ".m4s"@),
        app.detected.len() <= 200,
        forall|i: int|
            0 <= i < app.detected.len() ==> dedupe_key((#[trigger] app.detected[i]).url)
                != dedupe_key(candidate.url),
    ensures
        ({
            let next = received(app, candidate, id, at).0;
            let item = item_of(candidate, id, at);
            &&& next.detected.len() == (if app.detected.len() < 200 {
                app.detected.len() + 1
            } else {
                200
            })
            &&& next.detected[0] == (MediaItemView { audio: next.detected[0].audio, ..item })
            &&& forall|i: int|
                1 <= i < next.detected.len() ==> #[trigger] next.detected[i] == app.detected[i - 1]
        }),
{
    lemma_media(candidate);
    let key = dedupe_key(candidate.url);
    lemma_first_where(app.detected, has_key(key));
    let k = first_where(app.detected, has_key(key));
    if k < app.detected.len() {
        assert(has_key(key)(app.detected[k]));
    }
}

/// A sound that finds no item waits before all others; of more than two hundred the last is
/// dropped.
pub proof fn law_a_waiting_sound_comes_first(
    app: AppStateView,
    candidate: MediaCandidateView,
    id: u128,
    at: i64,
)
    requires
        says_media(candidate.url, candidate.mime_type),
        says_sound(candidate.url, candidate.mime_type),
        !mentions(candidate.url, ".m4s"@),
        app.detected.len() == 0,
        app.pending_audio.len() <= 200,
        forall|i: int|
            0 <= i < app.pending_audio.len() ==> dedupe_key((#[trigger] app.pending_audio[i]).url)
                != dedupe_key(candidate.url),
    ensures
        ({
            let next = received(app, candidate, id, at).0;
            &&& next.pending_audio.len() == (if app.pending_audio.len() < 200 {
                app.pending_audio.len() + 1
            } else {
                200
            })
            &&& next.pending_audio[0] == sidecar_of(candidate)
            &&& forall|i: int|
                1 <= i < next.pending_audio.len() ==> #[trigger] next.pending_audio[i]
                    == app.pending_audio[i - 1]
        }),
{
    lemma_media(candidate);
    let key = dedupe_key(candidate.url);
    lemma_first_where(app.pending_audio, sidecar_has_key(key));
    let k = first_where(app.pending_audio, sidecar_has_key(key));
    if k < app.pending_audio.len() {
        assert(sidecar_has_key(key)(app.pending_audio[k]));
    }
}

/// A playlist is to be looked into when its item is listed, and whenever it is reported again
/// while its qualities are not known; nothing else is.
pub proof fn law_playlists_are_looked_into_until_their_qualities_are_known(
    app: AppStateView,
    candidate: MediaCandidateView,
    id: u128,
    at: i64,
)
    ensures
        received(app, candidate, id, at).1 matches Reception::Accepted { analyze } ==> (analyze
            matches Some(wanted) ==> exists|i: int|
            {
                &&& 0 <= i < received(app, candidate, id, at).0.detected.len()
                &&& (#[trigger] received(app, candidate, id, at).0.detected[i]).id == wanted
                &&& received(app, candidate, id, at).0.detected[i].media_type == MediaType::Hls
                &&& received(app, candidate, id, at).0.detected[i].hls_variants.len() == 0
            }),
{
    let next = received(app, candidate, id, at).0;
    if is_media(candidate) {
        let key = dedupe_key(candidate.url);
        lemma_first_where(app.detected, has_key(key));
        let k = first_where(app.detected, has_key(key));
        if is_segmented(candidate.url) {
            if received(app, candidate, id, at).1->analyze is Some {
                assert(next.detected[0].id == id);
            }
        } else if !is_audio(candidate) {
            if k < app.detected.len() {
                assert(next.detected[k].id == app.detected[k].id);
            } else {
                assert(next.detected[0].id == id);
            }
        }
    }
}

/// Whether two segmented streams belong to one medium: they come from the same page, or they
/// are streams of one Bilibili video.
pub open spec fn belong_together(
    page: Option<Seq<char>>,
    url: Seq<char>,
    other_page: Option<Seq<char>>,
    other_url: Seq<char>,
) -> bool {
    ||| page is Some && other_page is Some && same_but_case(
        before(page->0, '#'),
        before(other_page->0, '#'),
    )
    ||| bilibili_key(url) is Some && bilibili_key(other_url) is Some && bilibili_key(url)->0
        == bilibili_key(other_url)->0
}

/// A segmented stream joins the segmented item of its medium: the one that carries more leads
/// with all that is its own, and the other goes with it; the item keeps its identity. A stream
/// of another medium is listed by itself.
#[verifier::rlimit(60)]
pub proof fn law_a_second_segmented_stream_joins_its_medium(
    app: AppStateView,
    old: MediaItemView,
    candidate: MediaCandidateView,
    id: u128,
    at: i64,
)
    requires
        app.detected == seq![old],
        app.pending_audio.len() == 0,
        old.audio is None,
        mentions(candidate.url, ".m4s"@),
        dedupe_key(candidate.url) != dedupe_key(old.url),
    ensures
        ({
            let next = received(app, candidate, id, at).0.detected;
            let item = item_of(candidate, id, at);
            if mentions(old.url, ".m4s"@) && belong_together(
                old.page_url,
                old.url,
                candidate.page_url,
                candidate.url,
            ) {
                let new = next[0];
                &&& next.len() == 1
                &&& new.id == old.id && new.detected_at == old.detected_at
                &&& new.hls_variants == old.hls_variants && new.hls_status == old.hls_status
                &&& new.selected_hls_variant_url == old.selected_hls_variant_url
                &&& new.audio is Some
                &&& if score(candidate.url, candidate.content_length, Seq::empty()) > score(
                    old.url,
                    old.content_length,
                    Seq::empty(),
                ) {
                    &&& new.url == candidate.url && new.page_url == candidate.page_url
                    &&& new.title == item.title && new.media_type == item.media_type
                    &&& new.headers == candidate.request_headers
                    &&& new.content_length == candidate.content_length
                    &&& new.duration_seconds == candidate.duration_seconds
                    &&& new.audio->0.url == old.url && new.audio->0.page_url == old.page_url
                    &&& new.audio->0.title == Some(old.title)
                    &&& new.audio->0.headers == old.headers
                    &&& new.audio->0.content_length == old.content_length
                    &&& new.audio->0.duration_seconds == old.duration_seconds
                } else {
                    &&& new.url == old.url && new.page_url == old.page_url
                    &&& new.title == old.title && new.media_type == old.media_type
                    &&& new.headers == old.headers
                    &&& new.content_length == old.content_length
                    &&& old.duration_seconds is Some ==> new.duration_seconds
                        == old.duration_seconds
                    &&& old.duration_seconds is None ==> new.duration_seconds
                        == candidate.duration_seconds
                    &&& new.audio->0.url == candidate.url
                    &&& new.audio->0.page_url == candidate.page_url
                    &&& new.audio->0.title == Some(item.title)
                    &&& new.audio->0.headers == candidate.request_headers
                    &&& new.audio->0.content_length == candidate.content_length
                    &&& new.audio->0.duration_seconds == candidate.duration_seconds
                }
            } else {
                next == seq![item, old]
            }
        }),
{
    lemma_media(candidate);
    lemma_marks();
    lemma_mention(old.url, ".m4s"@);
    law_pages_are_the_same_but_for_case(old.page_url, candidate.page_url);
    let item = item_of(candidate, id, at);
    let key = dedupe_key(candidate.url);
    assert(app.detected[0] == old);
    lemma_first_is(app.detected, has_key(key), 1);
    lemma_first_is(app.detected, sound_has_key(key), 1);
    if completed_by(item)(old) {
        lemma_first_is(app.detected, completed_by(item), 0);
    } else {
        lemma_first_is(app.detected, completed_by(item), 1);
        lemma_first_is(app.pending_audio, is_segmented_pair_of(item), 0);
        assert(received(app, candidate, id, at).0.detected =~= seq![item, old]);
    }
}

/// The names of the parts of a query that change from request to request.
pub open spec fn passing_names() -> Seq<Seq<char>> {
    seq![
        "range"@, "start"@, "end"@, "r"@, "rnd"@, "random"@, "ts"@, "t"@, "_"@, "token"@,
        "expires"@, "expire"@, "deadline"@,
    ]
}

/// Whether a part of a query is left out of a key: it is empty, or its name, ASCII case aside,
/// is one of thirteen.
pub open spec fn is_left_out(part: Seq<char>) -> bool {
    ||| part.len() == 0
    ||| exists|k: int|
        0 <= k < 13 && same_but_case(before(part, '='), #[trigger] passing_names()[k])
}

proof fn lemma_low_name(name: Seq<char>, word: Seq<char>)
    requires
        lower(word) == word,
    ensures
        lower(name) == word <==> same_but_case(name, word),
{
    law_lower_case_tells_texts_apart(name, word);
}

proof fn lemma_low_words()
    ensures
        forall|k: int| 0 <= k < 13 ==> lower(#[trigger] passing_names()[k]) == passing_names()[k],
{
    reveal_strlit("range");
    reveal_strlit("start");
    reveal_strlit("end");
    reveal_strlit("r");
    reveal_strlit("rnd");
    reveal_strlit("random");
    reveal_strlit("ts");
    reveal_strlit("t");
    reveal_strlit("_");
    reveal_strlit("token");
    reveal_strlit("expires");
    reveal_strlit("expire");
    reveal_strlit("deadline");
    assert forall|k: int| 0 <= k < 13 implies lower(#[trigger] passing_names()[k])
        == passing_names()[k] by {
        assert(lower(passing_names()[k]) =~= passing_names()[k]);
    }
}

proof fn lemma_left_out(part: Seq<char>)
    ensures
        is_stable(part) <==> !is_left_out(part),
{
    let name = before(part, '=');
    let names = passing_names();
    lemma_low_words();
    assert forall|k: int| 0 <= k < 13 implies (lower(name) == #[trigger] names[k] <==> same_but_case(
        name,
        names[k],
    )) by {
        lemma_low_name(name, names[k]);
    }
    if is_volatile(lower(name)) {
        assert(exists|k: int| 0 <= k < 13 && lower(name) == #[trigger] names[k]) by {
            assert(names[0] == "range"@ && names[1] == "start"@ && names[2] == "end"@ && names[3]
                == "r"@ && names[4] == "rnd"@ && names[5] == "random"@ && names[6] == "ts"@
                && names[7] == "t"@ && names[8] == "_"@ && names[9] == "token"@ && names[10]
                == "expires"@ && names[11] == "expire"@ && names[12] == "deadline"@);
        }
    }
}

/// A part of a query is left out of a key only if it is empty or its name, ASCII case aside, is
/// one of the thirteen that change from request to request: with any other part added, an
/// address is that of another medium.
pub proof fn law_parts_of_other_names_tell_media_apart(
    base: Seq<char>,
    query: Seq<char>,
    part: Seq<char>,
)
    requires
        !base.contains('#'),
        !base.contains('?'),
        !query.contains('#'),
        !part.contains('#'),
        !part.contains('&'),
    ensures
        dedupe_key(base + seq!['?'] + (query + seq!['&'] + part)) == dedupe_key(
            base + seq!['?'] + query,
        ) <==> is_left_out(part),
{
    let longer = query + seq!['&'] + part;
    assert(!longer.contains('#')) by {
        if longer.contains('#') {
            let k = choose|k: int| 0 <= k < longer.len() && longer[k] == '#';
            if k < query.len() {
                assert(query.contains(query[k]));
            } else if k > query.len() {
                assert(part.contains(part[k - query.len() - 1]));
            }
        }
    }
    lemma_address_parts(base, query);
    lemma_address_parts(base, longer);
    lemma_split_push(query, part, '&');
    lemma_left_out(part);
    let one = base + seq!['?'] + longer;
    let two = base + seq!['?'] + query;
    law_keys_are_equal_for_one_medium(one, two);
    let stable = |part: Seq<char>| is_stable(part);
    let low = |part: Seq<char>| lower(part);
    let parts = split(query, '&');
    reveal_with_fuel(Seq::filter, 1);
    assert(parts.push(part).drop_last() =~= parts);
    if is_stable(part) {
        assert(parts.push(part).filter(stable) == parts.filter(stable).push(part));
        assert(stable_parts(longer) =~= stable_parts(query).push(lower(part)));
        broadcast use vstd::seq_lib::group_to_multiset_ensures;

        assert(stable_parts(longer).len() == stable_parts(longer).to_multiset().len());
        assert(stable_parts(query).len() == stable_parts(query).to_multiset().len());
    } else {
        assert(parts.push(part).filter(stable) == parts.filter(stable));
    }
}

/// Two addresses with a query of one part each, neither of them one that is left out, are of one
/// medium if and only if they are the same but for ASCII case.
pub proof fn law_single_parts_tell_media_apart(
    base: Seq<char>,
    other_base: Seq<char>,
    part: Seq<char>,
    other: Seq<char>,
)
    requires
        !base.contains('#') && !base.contains('?'),
        !other_base.contains('#') && !other_base.contains('?'),
        !part.contains('#') && !part.contains('&') && !is_left_out(part),
        !other.contains('#') && !other.contains('&') && !is_left_out(other),
    ensures
        dedupe_key(base + seq!['?'] + part) == dedupe_key(other_base + seq!['?'] + other)
            <==> same_but_case(base, other_base) && same_but_case(part, other),
{
    lemma_address_parts(base, part);
    lemma_address_parts(other_base, other);
    lemma_split_whole(part, '&');
    lemma_split_whole(other, '&');
    lemma_left_out(part);
    lemma_left_out(other);
    law_keys_are_equal_for_one_medium(base + seq!['?'] + part, other_base + seq!['?'] + other);
    law_lower_case_tells_texts_apart(base, other_base);
    law_lower_case_tells_texts_apart(part, other);
    lemma_one_part(part);
    lemma_one_part(other);
    broadcast use vstd::seq_lib::group_to_multiset_ensures;

    let a = seq![lower(part)];
    let b = seq![lower(other)];
    if a.to_multiset() == b.to_multiset() {
        assert(a.contains(a[0]));
        assert(a.to_multiset().count(a[0]) > 0);
        assert(b.to_multiset().count(a[0]) > 0);
        assert(b.contains(a[0]));
        assert(lower(part) == lower(other));
    }
}

proof fn lemma_one_part(part: Seq<char>)
    requires
        !part.contains('&'),
        is_stable(part),
    ensures
        stable_parts(part) == seq![lower(part)],
{
    lemma_split_whole(part, '&');
    let stable = |part: Seq<char>| is_stable(part);
    reveal_with_fuel(Seq::filter, 2);
    assert(seq![part].drop_last() =~= Seq::<Seq<char>>::empty());
    assert(seq![part].filter(stable) =~= seq![part]);
    assert(stable_parts(part) =~= seq![lower(part)]);
}

/// Two addresses without a query and a fragment are of one medium if and only if they are the
/// same but for ASCII case.
pub proof fn law_plain_addresses_tell_media_apart(left: Seq<char>, right: Seq<char>)
    requires
        !left.contains('#') && !left.contains('?'),
        !right.contains('#') && !right.contains('?'),
    ensures
        dedupe_key(left) == dedupe_key(right) <==> same_but_case(left, right),
{
    law_before_and_after_make_up_the_text(left, '#');
    law_before_and_after_make_up_the_text(left, '?');
    law_before_and_after_make_up_the_text(right, '#');
    law_before_and_after_make_up_the_text(right, '?');
    law_lower_case_tells_texts_apart(left, right);
}

/// The value of a name in a query is what follows the equals sign in the first part of that
/// name, ASCII case aside; a part without an equals sign has no name.
pub proof fn law_the_first_part_of_a_name_counts(query: Seq<char>, name: Seq<char>, k: int)
    requires
        0 <= k <= split(query, '&').len(),
        forall|i: int|
            0 <= i < k ==> !((#[trigger] split(query, '&')[i]).contains('=') && same_but_case(
                before(split(query, '&')[i], '='),
                name,
            )),
        k < split(query, '&').len() ==> split(query, '&')[k].contains('=') && same_but_case(
            before(split(query, '&')[k], '='),
            name,
        ),
    ensures
        value_in_query(query, name) == (if k < split(query, '&').len() {
            after(split(query, '&')[k], '=')
        } else {
            None
        }),
{
    let parts = split(query, '&');
    assert forall|i: int| 0 <= i < k implies !sets_key(name)(#[trigger] parts[i]) by {
        law_before_and_after_make_up_the_text(parts[i], '=');
        law_lower_case_tells_texts_apart(before(parts[i], '='), name);
    }
    if k < parts.len() {
        law_before_and_after_make_up_the_text(parts[k], '=');
        law_lower_case_tells_texts_apart(before(parts[k], '='), name);
    }
    lemma_first_is(parts, sets_key(name), k);
}

/// What a stream carries: pictures count above all and sound alone below all, by the content
/// type; else the bandwidth in the query counts if it is a number, else the length, else one.
pub proof fn law_streams_are_weighed(
    url: Seq<char>,
    content_length: Option<u64>,
    mime: Seq<char>,
)
    ensures
        ({
            let weight = score(url, content_length, mime);
            let bandwidth = value_in_query(or_empty(after(url, '?')), "bw"@);
            &&& mentions(mime, "video/"@) ==> weight == u64::MAX
            &&& mentions(mime, "audio/"@) && !mentions(mime, "video/"@) ==> weight == 0
            &&& !mentions(mime, "audio/"@) && !mentions(mime, "video/"@) ==> {
                &&& bandwidth is Some && unsigned(bandwidth->0) is Some ==> weight == unsigned(
                    bandwidth->0,
                )->0
                &&& (bandwidth is None || unsigned(bandwidth->0) is None) && content_length is Some
                    ==> weight == content_length->0
                &&& (bandwidth is None || unsigned(bandwidth->0) is None) && content_length is None
                    ==> weight == 1
            }
        }),
{
    lemma_marks();
    lemma_mention(mime, "video/"@);
    lemma_mention(mime, "audio/"@);
}

/// The streams of one Bilibili video have in common what stands between the last slash and the
/// first hyphen after it, and the trace in the query.
pub proof fn law_streams_of_one_video_share_their_number_and_trace(
    dir: Seq<char>,
    number: Seq<char>,
    tail: Seq<char>,
    query: Seq<char>,
)
    requires
        !dir.contains('?'),
        number.len() > 0 && !number.contains('/') && !number.contains('-') && !number.contains('?'),
        !tail.contains('/') && !tail.contains('?'),
        lower(dir + seq!['/'] + number + seq!['-'] + tail + seq!['?'] + query) == dir + seq!['/']
            + number + seq!['-'] + tail + seq!['?'] + query,
        mentions(dir + seq!['/'] + number + seq!['-'] + tail + seq!['?'] + query, ".m4s"@),
        mentions(dir + seq!['/'] + number + seq!['-'] + tail + seq!['?'] + query, "/upgcxcode/"@),
    ensures
        bilibili_key(dir + seq!['/'] + number + seq!['-'] + tail + seq!['?'] + query) == Some(
            number + seq![':'] + or_empty(value_in_query(query, "trid"@)),
        ),
{
    let name = number + seq!['-'] + tail;
    let path = dir + seq!['/'] + name;
    let url = dir + seq!['/'] + number + seq!['-'] + tail + seq!['?'] + query;
    assert(url =~= path + seq!['?'] + query);
    assert(!name.contains('/') && !name.contains('?')) by {
        if name.contains('/') {
            let k = choose|k: int| 0 <= k < name.len() && name[k] == '/';
            if k < number.len() {
                assert(number.contains(number[k]));
            } else if k > number.len() {
                assert(tail.contains(tail[k - number.len() - 1]));
            }
        }
        if name.contains('?') {
            let k = choose|k: int| 0 <= k < name.len() && name[k] == '?';
            if k < number.len() {
                assert(number.contains(number[k]));
            } else if k > number.len() {
                assert(tail.contains(tail[k - number.len() - 1]));
            }
        }
    }
    assert(!path.contains('?')) by {
        if path.contains('?') {
            let k = choose|k: int| 0 <= k < path.len() && path[k] == '?';
            if k < dir.len() {
                assert(dir.contains(dir[k]));
            } else if k > dir.len() {
                assert(name.contains(name[k - dir.len() - 1]));
            }
        }
    }
    lemma_cut(path, query, '?');
    lemma_cut(number, tail, '-');
    lemma_last(dir, name);
    lemma_marks();
    lemma_mention(url, ".m4s"@);
    reveal_strlit("/upgcxcode/");
    assert(lower("/upgcxcode/"@) =~= "/upgcxcode/"@);
    lemma_mention(url, "/upgcxcode/"@);
    reveal_strlit(":");
    assert(":"@ =~= seq![':']);
}

proof fn lemma_cut(head: Seq<char>, tail: Seq<char>, c: char)
    requires
        !head.contains(c),
    ensures
        before(head + seq![c] + tail, c) == head,
        after(head + seq![c] + tail, c) == Some(tail),
{
    let text = head + seq![c] + tail;
    lemma_first_at(text, c);
    let at = first_at(text, c);
    assert(text[head.len() as int] == c);
    if at < head.len() {
        assert(head.contains(head[at]));
    }
    assert(at == head.len());
    assert(before(text, c) =~= head);
    assert(after(text, c)->0 =~= tail);
}

proof fn lemma_last(dir: Seq<char>, name: Seq<char>)
    requires
        !name.contains('/'),
    ensures
        last_piece(dir + seq!['/'] + name, '/') == name,
    decreases name.len(),
{
    let text = dir + seq!['/'] + name;
    if name.len() == 0 {
        assert(text.last() == '/');
        assert(name =~= Seq::<char>::empty());
    } else {
        let rest = name.drop_last();
        assert(!rest.contains('/')) by {
            if rest.contains('/') {
                let k = choose|k: int| 0 <= k < rest.len() && rest[k] == '/';
                assert(name[k] == '/');
            }
        }
        lemma_last(dir, rest);
        assert(text.drop_last() =~= dir + seq!['/'] + rest);
        assert(name.contains(name.last()));
        assert(rest.push(name.last()) =~= name);
    }
}

/// Only segmented streams under the path of Bilibili have such a mark, and ASCII case does not
/// matter to it.
pub proof fn law_only_streams_of_bilibili_have_a_number(url: Seq<char>)
    ensures
        bilibili_key(url) is Some ==> mentions(url, ".m4s"@) && mentions(url, "/upgcxcode/"@),
        bilibili_key(lower(url)) == bilibili_key(url),
{
    lemma_marks();
    lemma_mention(url, ".m4s"@);
    reveal_strlit("/upgcxcode/");
    assert(lower("/upgcxcode/"@) =~= "/upgcxcode/"@);
    lemma_mention(url, "/upgcxcode/"@);
    assert(lower(lower(url)) =~= lower(url));
}

/// A stream in segments whose qualities are not known has its playlist looked into whenever it is
/// reported, and no other stream has.
pub proof fn law_every_report_of_a_playlist_is_looked_into(
    app: AppStateView,
    candidate: MediaCandidateView,
    id: u128,
    at: i64,
    k: int,
)
    requires
        says_media(candidate.url, candidate.mime_type),
        !says_sound(candidate.url, candidate.mime_type),
        !mentions(candidate.url, ".m4s"@),
        0 <= k <= app.detected.len(),
        k < app.detected.len() ==> dedupe_key(app.detected[k].url) == dedupe_key(candidate.url),
        forall|i: int|
            0 <= i < k ==> dedupe_key((#[trigger] app.detected[i]).url) != dedupe_key(candidate.url),
    ensures
        ({
            let asked = received(app, candidate, id, at).1;
            let item = app.detected[k];
            &&& k == app.detected.len() && item_of(candidate, id, at).media_type is Hls ==> asked
                == (Reception::Accepted { analyze: Some(id) })
            &&& k == app.detected.len() && !(item_of(candidate, id, at).media_type is Hls) ==> asked
                == (Reception::Accepted { analyze: None })
            &&& k < app.detected.len() && item.media_type is Hls && item.hls_variants.len() == 0
                ==> asked == (Reception::Accepted { analyze: Some(item.id) })
            &&& k < app.detected.len() && !(item.media_type is Hls && item.hls_variants.len() == 0)
                ==> asked == (Reception::Accepted { analyze: None })
        }),
{
    lemma_media(candidate);
    let key = dedupe_key(candidate.url);
    assert forall|i: int| 0 <= i < k implies !has_key(key)(#[trigger] app.detected[i]) by {}
    lemma_first_is(app.detected, has_key(key), k);
}

/// Of all items that a sound goes with the first that has none of its own takes it, and the other
/// items stay as they are. A sound that goes with none waits before all others.
pub proof fn law_sound_joins_the_first_item_it_goes_with(
    app: AppStateView,
    candidate: MediaCandidateView,
    id: u128,
    at: i64,
    k: int,
)
    requires
        says_media(candidate.url, candidate.mime_type),
        says_sound(candidate.url, candidate.mime_type),
        !mentions(candidate.url, ".m4s"@),
        forall|i: int|
            0 <= i < app.detected.len() ==> {
                &&& dedupe_key((#[trigger] app.detected[i]).url) != dedupe_key(candidate.url)
                &&& app.detected[i].audio is Some ==> dedupe_key(app.detected[i].audio->0.url)
                    != dedupe_key(candidate.url)
            },
        forall|i: int|
            0 <= i < app.pending_audio.len() ==> dedupe_key((#[trigger] app.pending_audio[i]).url)
                != dedupe_key(candidate.url),
        0 <= k <= app.detected.len(),
        forall|i: int|
            0 <= i < k ==> (#[trigger] app.detected[i]).audio is Some || !goes_with(
                app.detected[i],
                sidecar_of(candidate),
            ),
        k < app.detected.len() ==> app.detected[k].audio is None && goes_with(
            app.detected[k],
            sidecar_of(candidate),
        ),
    ensures
        ({
            let next = received(app, candidate, id, at).0;
            let audio = sidecar_of(candidate);
            &&& next.tasks == app.tasks
            &&& next.settings == app.settings
            &&& k < app.detected.len() ==> next.pending_audio == app.pending_audio && next.detected
                == app.detected.update(k, MediaItemView { audio: Some(audio), ..app.detected[k] })
            &&& k == app.detected.len() ==> next.detected == app.detected
                && next.pending_audio[0] == audio
        }),
{
    lemma_media(candidate);
    let audio = sidecar_of(candidate);
    let key = dedupe_key(audio.url);
    assert forall|i: int| 0 <= i < app.detected.len() implies !sound_has_key(key)(
        #[trigger] app.detected[i],
    ) by {
        assert(dedupe_key(app.detected[i].url) != key);
    }
    lemma_first_is(app.detected, sound_has_key(key), app.detected.len() as int);
    assert forall|i: int| 0 <= i < app.pending_audio.len() implies !sidecar_has_key(key)(
        #[trigger] app.pending_audio[i],
    ) by {}
    lemma_first_is(app.pending_audio, sidecar_has_key(key), app.pending_audio.len() as int);
    assert forall|i: int| 0 <= i < k implies !takes_audio(audio)(#[trigger] app.detected[i]) by {
        lemma_pairs(app.detected[i], audio);
    }
    if k < app.detected.len() {
        lemma_pairs(app.detected[k], audio);
        assert(dedupe_key(app.detected[k].url) != key);
    }
    lemma_first_is(app.detected, takes_audio(audio), k);
}

/// A new stream takes the first of the waiting sounds that it goes with, and the others go on
/// waiting in their order.
pub proof fn law_a_stream_takes_the_first_sound_it_goes_with(
    app: AppStateView,
    candidate: MediaCandidateView,
    id: u128,
    at: i64,
    k: int,
)
    requires
        says_media(candidate.url, candidate.mime_type),
        !says_sound(candidate.url, candidate.mime_type),
        !mentions(candidate.url, ".m4s"@),
        forall|i: int|
            0 <= i < app.detected.len() ==> dedupe_key((#[trigger] app.detected[i]).url)
                != dedupe_key(candidate.url),
        forall|i: int|
            0 <= i < app.pending_audio.len() ==> {
                &&& dedupe_key((#[trigger] app.pending_audio[i]).url) != dedupe_key(candidate.url)
                &&& !mentions(app.pending_audio[i].url, ".m4s"@)
            },
        0 <= k <= app.pending_audio.len(),
        forall|i: int|
            0 <= i < k ==> !goes_with(
                item_of(candidate, id, at),
                #[trigger] app.pending_audio[i],
            ),
        k < app.pending_audio.len() ==> goes_with(
            item_of(candidate, id, at),
            app.pending_audio[k],
        ),
    ensures
        ({
            let next = received(app, candidate, id, at).0;
            &&& k < app.pending_audio.len() ==> {
                &&& next.detected[0].audio == Some(app.pending_audio[k])
                &&& next.pending_audio == app.pending_audio.remove(k)
            }
            &&& k == app.pending_audio.len() ==> {
                &&& next.detected[0].audio is None
                &&& next.pending_audio == app.pending_audio
            }
        }),
{
    lemma_media(candidate);
    let item = item_of(candidate, id, at);
    let key = dedupe_key(candidate.url);
    assert forall|i: int| 0 <= i < app.detected.len() implies !has_key(key)(
        #[trigger] app.detected[i],
    ) by {}
    lemma_first_is(app.detected, has_key(key), app.detected.len() as int);
    assert forall|i: int| 0 <= i < k implies !is_audio_of(item)(#[trigger] app.pending_audio[i]) by {
        lemma_pairs(item, app.pending_audio[i]);
    }
    if k < app.pending_audio.len() {
        lemma_pairs(item, app.pending_audio[k]);
    }
    lemma_first_is(app.pending_audio, is_audio_of(item), k);
}

/// A sound that some item has, or that waits, changes nothing when it is reported again.
pub proof fn law_known_sound_changes_nothing(
    app: AppStateView,
    candidate: MediaCandidateView,
    id: u128,
    at: i64,
    k: int,
)
    requires
        says_media(candidate.url, candidate.mime_type),
        says_sound(candidate.url, candidate.mime_type),
        !mentions(candidate.url, ".m4s"@),
        ({
            ||| 0 <= k < app.detected.len() && app.detected[k].audio is Some && dedupe_key(
                app.detected[k].audio->0.url,
            ) == dedupe_key(candidate.url)
            ||| 0 <= k < app.pending_audio.len() && dedupe_key(app.pending_audio[k].url)
                == dedupe_key(candidate.url)
        }),
    ensures
        received(app, candidate, id, at).0 == app,
        received(app, candidate, id, at).1 == (Reception::Accepted { analyze: None }),
{
    lemma_media(candidate);
    let key = dedupe_key(candidate.url);
    lemma_first_where(app.detected, sound_has_key(key));
    lemma_first_where(app.pending_audio, sidecar_has_key(key));
    if 0 <= k < app.detected.len() {
        assert(sound_has_key(key)(app.detected[k]) ==> first_where(app.detected, sound_has_key(key))
            <= k);
    }
    if 0 <= k < app.pending_audio.len() {
        assert(sidecar_has_key(key)(app.pending_audio[k]) ==> first_where(
            app.pending_audio,
            sidecar_has_key(key),
        ) <= k);
    }
}

/// A segmented stream that leads an item, or goes with one, changes nothing when it is reported
/// again.
pub proof fn law_known_segments_change_nothing(
    app: AppStateView,
    candidate: MediaCandidateView,
    id: u128,
    at: i64,
    k: int,
)
    requires
        mentions(candidate.url, ".m4s"@),
        0 <= k < app.detected.len(),
        dedupe_key(app.detected[k].url) == dedupe_key(candidate.url) || app.detected[k].audio
            is Some && dedupe_key(app.detected[k].audio->0.url) == dedupe_key(candidate.url),
    ensures
        received(app, candidate, id, at).0 == app,
        received(app, candidate, id, at).1 == (Reception::Accepted { analyze: None }),
{
    lemma_media(candidate);
    let key = dedupe_key(candidate.url);
    lemma_first_where(app.detected, sound_has_key(key));
    lemma_first_where(app.detected, has_key(key));
    assert(sound_has_key(key)(app.detected[k]) || has_key(key)(app.detected[k]));
}

/// A segmented stream joins the first segmented item of its medium that stands alone, and the
/// other items stay as they are.
#[verifier::rlimit(60)]
pub proof fn law_segments_join_the_first_item_of_their_medium(
    app: AppStateView,
    candidate: MediaCandidateView,
    id: u128,
    at: i64,
    k: int,
)
    requires
        mentions(candidate.url, ".m4s"@),
        forall|i: int|
            0 <= i < app.detected.len() ==> {
                &&& dedupe_key((#[trigger] app.detected[i]).url) != dedupe_key(candidate.url)
                &&& app.detected[i].audio is Some ==> dedupe_key(app.detected[i].audio->0.url)
                    != dedupe_key(candidate.url)
            },
        0 <= k <= app.detected.len(),
        forall|i: int|
            0 <= i < k ==> {
                ||| (#[trigger] app.detected[i]).audio is Some
                ||| !mentions(app.detected[i].url, ".m4s"@)
                ||| !belong_together(
                    app.detected[i].page_url,
                    app.detected[i].url,
                    candidate.page_url,
                    candidate.url,
                )
            },
        k < app.detected.len() ==> {
            &&& app.detected[k].audio is None
            &&& mentions(app.detected[k].url, ".m4s"@)
            &&& belong_together(
                app.detected[k].page_url,
                app.detected[k].url,
                candidate.page_url,
                candidate.url,
            )
        },
    ensures
        ({
            let next = received(app, candidate, id, at).0;
            let streams = (app.detected[k].url, candidate.url);
            &&& k < app.detected.len() ==> {
                &&& next.detected.len() == app.detected.len()
                &&& next.detected == app.detected.update(k, next.detected[k])
                &&& next.pending_audio == app.pending_audio
                &&& next.detected[k].id == app.detected[k].id
                &&& next.detected[k].audio is Some
                &&& streams == (next.detected[k].url, next.detected[k].audio->0.url) || streams
                    == (next.detected[k].audio->0.url, next.detected[k].url)
            }
            &&& k == app.detected.len() ==> next.detected[0].id == id && next.detected[0].url
                == candidate.url
        }),
{
    lemma_media(candidate);
    lemma_marks();
    let item = item_of(candidate, id, at);
    let key = dedupe_key(candidate.url);
    assert forall|i: int| 0 <= i < app.detected.len() implies !sound_has_key(key)(
        #[trigger] app.detected[i],
    ) && !has_key(key)(app.detected[i]) by {}
    lemma_first_is(app.detected, sound_has_key(key), app.detected.len() as int);
    lemma_first_is(app.detected, has_key(key), app.detected.len() as int);
    assert forall|i: int| 0 <= i < k implies !completed_by(item)(#[trigger] app.detected[i]) by {
        lemma_mention(app.detected[i].url, ".m4s"@);
        law_pages_are_the_same_but_for_case(app.detected[i].page_url, candidate.page_url);
    }
    if k < app.detected.len() {
        lemma_mention(app.detected[k].url, ".m4s"@);
        law_pages_are_the_same_but_for_case(app.detected[k].page_url, candidate.page_url);
    }
    lemma_first_is(app.detected, completed_by(item), k);
}

} // verus!
