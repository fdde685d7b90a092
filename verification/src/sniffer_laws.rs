//! What holds of the sniffer whatever the browser reports.

use crate::lists::{first_where, lemma_first_is, lemma_first_where};
use crate::sniffer::{
    completed_by, dedupe_key, has_key, has_such, is_audio, is_audio_of, is_media, is_segmented,
    is_segmented_pair_of, is_stable, joined_item, outranks, pairs_audio, received, refreshed,
    same_group, score, sidecar_has_key, sound_has_key, stable_parts, takes_audio, with_audio,
    with_item, with_segmented, with_stream, KEPT,
};
use crate::state::{item_of, sidecar_of, AppStateView, MediaCandidateView, MediaItemView};
use crate::text::{
    after, before, first_at, joined, lemma_first_at, lemma_split_len, lemma_text_order, lower,
    lower_char, sorted, split, text_le,
};
use vstd::prelude::*;

verus! {

proof fn lemma_has_such<A>(list: Seq<A>, wanted: spec_fn(A) -> bool, at: int)
    requires
        0 <= at < list.len(),
        wanted(list[at]),
    ensures
        has_such(list, wanted),
        first_where(list, wanted) <= at,
{
    lemma_first_where(list, wanted);
}

/// Whether no more is kept than is to be.
pub open spec fn within_limits(app: AppStateView) -> bool {
    &&& app.detected.len() <= KEPT
    &&& app.pending_audio.len() <= KEPT
}

/// Whatever is reported, no more items and no more pending sound streams are kept than
/// are to be.
pub proof fn law_limits_are_kept(
    app: AppStateView,
    candidate: MediaCandidateView,
    id: u128,
    at: i64,
)
    requires
        within_limits(app),
    ensures
        within_limits(received(app, candidate, id, at).0),
{
    let item = item_of(candidate, id, at);
    lemma_first_where(app.detected, has_key(dedupe_key(candidate.url)));
    lemma_first_where(app.detected, completed_by(item));
    lemma_first_where(app.detected, takes_audio(sidecar_of(candidate)));
    lemma_first_where(app.pending_audio, is_audio_of(item));
    lemma_first_where(app.pending_audio, is_segmented_pair_of(item));
}

/// Whether no two items are at addresses with the same key.
pub open spec fn keys_differ(items: Seq<MediaItemView>) -> bool {
    forall|i: int, j: int|
        0 <= i < j < items.len() ==> dedupe_key(#[trigger] items[i].url) != dedupe_key(
            #[trigger] items[j].url,
        )
}

proof fn lemma_new_key_differs(app: AppStateView, item: MediaItemView, place: int)
    requires
        keys_differ(app.detected),
        !has_such(app.detected, has_key(dedupe_key(item.url))),
    ensures
        keys_differ(with_item(app, item, place).detected),
{
    lemma_first_where(app.detected, has_key(dedupe_key(item.url)));
    let all = seq![joined_item(item, app.pending_audio, place)] + app.detected;
    assert forall|i: int, j: int| 0 <= i < j < all.len() implies dedupe_key(#[trigger] all[i].url)
        != dedupe_key(#[trigger] all[j].url) by {
        assert(all[j] == app.detected[j - 1]);
        if i == 0 {
            assert(!has_key(dedupe_key(item.url))(app.detected[j - 1]));
        } else {
            assert(all[i] == app.detected[i - 1]);
            assert(dedupe_key(app.detected[i - 1].url) != dedupe_key(app.detected[j - 1].url));
        }
    }
}

/// Whatever is reported, no medium is listed twice.
pub proof fn law_no_medium_is_listed_twice(
    app: AppStateView,
    candidate: MediaCandidateView,
    id: u128,
    at: i64,
)
    requires
        keys_differ(app.detected),
    ensures
        keys_differ(received(app, candidate, id, at).0.detected),
{
    let key = dedupe_key(candidate.url);
    let item = item_of(candidate, id, at);
    lemma_first_where(app.detected, has_key(key));
    if is_media(candidate) {
        if is_segmented(candidate.url) {
            let next = with_segmented(app, candidate, id, at).0;
            let partner = first_where(app.detected, completed_by(item));
            lemma_first_where(app.detected, completed_by(item));
            if has_such(app.detected, has_key(key)) || has_such(
                app.detected,
                sound_has_key(key),
            ) {
            } else if partner < app.detected.len() {
                assert forall|i: int, j: int| 0 <= i < j < next.detected.len() implies dedupe_key(
                    #[trigger] next.detected[i].url,
                ) != dedupe_key(#[trigger] next.detected[j].url) by {
                    assert(dedupe_key(app.detected[i].url) != dedupe_key(app.detected[j].url));
                    assert(!has_key(key)(app.detected[i]));
                    assert(!has_key(key)(app.detected[j]));
                }
            } else {
                lemma_new_key_differs(
                    app,
                    item,
                    first_where(app.pending_audio, is_segmented_pair_of(item)),
                );
            }
        } else if is_audio(candidate) {
            let audio = sidecar_of(candidate);
            let next = with_audio(app, candidate);
            lemma_first_where(app.detected, takes_audio(audio));
            assert forall|i: int, j: int| 0 <= i < j < next.detected.len() implies dedupe_key(
                #[trigger] next.detected[i].url,
            ) != dedupe_key(#[trigger] next.detected[j].url) by {
                assert(next.detected[i].url == app.detected[i].url);
                assert(next.detected[j].url == app.detected[j].url);
            }
        } else {
            let next = with_stream(app, candidate, id, at).0;
            if has_such(app.detected, has_key(key)) {
                assert forall|i: int, j: int| 0 <= i < j < next.detected.len() implies dedupe_key(
                    #[trigger] next.detected[i].url,
                ) != dedupe_key(#[trigger] next.detected[j].url) by {
                    assert(next.detected[i].url == app.detected[i].url);
                    assert(next.detected[j].url == app.detected[j].url);
                }
            } else {
                lemma_new_key_differs(
                    app,
                    item,
                    first_where(app.pending_audio, is_audio_of(item)),
                );
            }
        }
    }
}

proof fn lemma_segmented_twice(
    app: AppStateView,
    candidate: MediaCandidateView,
    id: u128,
    at: i64,
    id2: u128,
    at2: i64,
)
    ensures
        ({
            let once = with_segmented(app, candidate, id, at).0;
            with_segmented(once, candidate, id2, at2).0 == once
        }),
{
    let key = dedupe_key(candidate.url);
    let item = item_of(candidate, id, at);
    let once = with_segmented(app, candidate, id, at).0;
    let partner = first_where(app.detected, completed_by(item));
    lemma_first_where(app.detected, completed_by(item));
    if has_such(app.detected, has_key(key)) || has_such(app.detected, sound_has_key(key)) {
    } else if partner < app.detected.len() {
        if outranks(item, app.detected[partner]) {
            lemma_has_such(once.detected, has_key(key), partner);
        } else {
            lemma_has_such(once.detected, sound_has_key(key), partner);
        }
    } else {
        lemma_has_such(once.detected, has_key(key), 0);
    }
}

proof fn lemma_audio_twice(app: AppStateView, candidate: MediaCandidateView)
    ensures
        with_audio(with_audio(app, candidate), candidate) == with_audio(app, candidate),
{
    let audio = sidecar_of(candidate);
    let key = dedupe_key(audio.url);
    let once = with_audio(app, candidate);
    let taker = first_where(app.detected, takes_audio(audio));
    lemma_first_where(app.detected, takes_audio(audio));
    if has_such(app.detected, sound_has_key(key)) || has_such(
        app.pending_audio,
        sidecar_has_key(key),
    ) {
    } else if taker < app.detected.len() {
        lemma_has_such(once.detected, sound_has_key(key), taker);
    } else {
        lemma_has_such(once.pending_audio, sidecar_has_key(key), 0);
    }
}

proof fn lemma_stream_twice(
    app: AppStateView,
    candidate: MediaCandidateView,
    id: u128,
    at: i64,
    id2: u128,
    at2: i64,
)
    ensures
        ({
            let once = with_stream(app, candidate, id, at).0;
            with_stream(once, candidate, id2, at2).0 == once
        }),
{
    let key = dedupe_key(candidate.url);
    let item = item_of(candidate, id, at);
    let once = with_stream(app, candidate, id, at).0;
    let twice = with_stream(once, candidate, id2, at2).0;
    let known = first_where(app.detected, has_key(key));
    lemma_first_where(app.detected, has_key(key));
    if known < app.detected.len() {
        assert forall|k: int| 0 <= k < known implies !has_key(key)(#[trigger] once.detected[k]) by {
            assert(!has_key(key)(app.detected[k]));
        }
        lemma_first_is(once.detected, has_key(key), known);
        let refreshed_once = refreshed(app.detected[known], candidate);
        assert(refreshed(refreshed_once, candidate) =~= refreshed_once);
    } else {
        lemma_first_is(once.detected, has_key(key), 0);
        let front = once.detected[0];
        assert(refreshed(front, candidate) =~= front);
    }
    assert(twice.detected =~= once.detected);
}

/// To report a request a second time changes nothing more.
pub proof fn law_reporting_twice_changes_nothing_more(
    app: AppStateView,
    candidate: MediaCandidateView,
    id: u128,
    at: i64,
    id2: u128,
    at2: i64,
)
    ensures
        ({
            let once = received(app, candidate, id, at).0;
            received(once, candidate, id2, at2).0 == once
        }),
{
    lemma_segmented_twice(app, candidate, id, at, id2, at2);
    lemma_audio_twice(app, candidate);
    lemma_stream_twice(app, candidate, id, at, id2, at2);
}

/// What is not media changes nothing, and nothing that is reported touches the downloads
/// or the settings.
pub proof fn law_reports_leave_downloads_alone(
    app: AppStateView,
    candidate: MediaCandidateView,
    id: u128,
    at: i64,
)
    ensures
        received(app, candidate, id, at).0.tasks == app.tasks,
        received(app, candidate, id, at).0.settings == app.settings,
        !is_media(candidate) ==> received(app, candidate, id, at).0 == app,
{
}

/// Whether two streams belong together does not depend on which is named first.
pub proof fn law_grouping_is_symmetric(
    left_page: Option<Seq<char>>,
    left_url: Seq<char>,
    right_page: Option<Seq<char>>,
    right_url: Seq<char>,
)
    ensures
        same_group(left_page, left_url, right_page, right_url) == same_group(
            right_page,
            right_url,
            left_page,
            left_url,
        ),
{
}

/// The state with nothing seen yet.
pub open spec fn nothing_seen(app: AppStateView) -> bool {
    app.detected.len() == 0 && app.pending_audio.len() == 0
}

proof fn lemma_pair_in_order(
    app: AppStateView,
    first: MediaCandidateView,
    second: MediaCandidateView,
    ids: (u128, u128),
    times: (i64, i64),
)
    requires
        nothing_seen(app),
        is_segmented(first.url),
        is_segmented(second.url),
        same_group(first.page_url, first.url, second.page_url, second.url),
        dedupe_key(first.url) != dedupe_key(second.url),
    ensures
        ({
            let once = received(app, first, ids.0, times.0).0;
            let twice = received(once, second, ids.1, times.1).0;
            let leads = score(second.url, second.content_length, Seq::empty()) > score(
                first.url,
                first.content_length,
                Seq::empty(),
            );
            &&& twice.detected.len() == 1
            &&& twice.detected[0].url == (if leads {
                second.url
            } else {
                first.url
            })
            &&& twice.detected[0].audio is Some
            &&& twice.detected[0].audio->0.url == (if leads {
                first.url
            } else {
                second.url
            })
        }),
{
    let a = item_of(first, ids.0, times.0);
    let b = item_of(second, ids.1, times.1);
    let once = received(app, first, ids.0, times.0).0;
    assert(once.detected =~= seq![a]);
    let key = dedupe_key(second.url);
    lemma_first_is(once.detected, has_key(key), 1);
    lemma_first_is(once.detected, sound_has_key(key), 1);
    lemma_first_is(once.detected, completed_by(b), 0);
}

/// Of two segmented streams of one medium, the one that carries more leads and the other
/// goes with it, whichever was reported first.
pub proof fn law_leading_stream_does_not_depend_on_order(
    app: AppStateView,
    more: MediaCandidateView,
    less: MediaCandidateView,
    ids: (u128, u128),
    times: (i64, i64),
)
    requires
        nothing_seen(app),
        is_segmented(more.url),
        is_segmented(less.url),
        same_group(more.page_url, more.url, less.page_url, less.url),
        dedupe_key(more.url) != dedupe_key(less.url),
        score(more.url, more.content_length, Seq::empty()) > score(
            less.url,
            less.content_length,
            Seq::empty(),
        ),
    ensures
        ({
            let one = received(
                received(app, more, ids.0, times.0).0,
                less,
                ids.1,
                times.1,
            ).0.detected;
            let other = received(
                received(app, less, ids.0, times.0).0,
                more,
                ids.1,
                times.1,
            ).0.detected;
            &&& one.len() == 1 && other.len() == 1
            &&& one[0].url == more.url && other[0].url == more.url
            &&& one[0].audio is Some && one[0].audio->0.url == less.url
            &&& other[0].audio is Some && other[0].audio->0.url == less.url
        }),
{
    law_grouping_is_symmetric(more.page_url, more.url, less.page_url, less.url);
    lemma_pair_in_order(app, more, less, ids, times);
    lemma_pair_in_order(app, less, more, ids, times);
}

/// A sound stream and the stream that it belongs to find each other, whichever was
/// reported first.
pub proof fn law_sound_finds_its_stream_in_either_order(
    app: AppStateView,
    stream: MediaCandidateView,
    sound: MediaCandidateView,
    id: u128,
    at: i64,
)
    requires
        nothing_seen(app),
        is_media(stream),
        !is_segmented(stream.url),
        !is_audio(stream),
        is_media(sound),
        !is_segmented(sound.url),
        is_audio(sound),
        pairs_audio(item_of(stream, id, at), sidecar_of(sound)),
    ensures
        ({
            let one = received(received(app, stream, id, at).0, sound, id, at).0;
            let other = received(received(app, sound, id, at).0, stream, id, at).0;
            let whole = MediaItemView {
                audio: Some(sidecar_of(sound)),
                ..item_of(stream, id, at)
            };
            &&& one.detected == seq![whole] && one.pending_audio.len() == 0
            &&& other.detected == seq![whole] && other.pending_audio.len() == 0
        }),
{
    let item = item_of(stream, id, at);
    let audio = sidecar_of(sound);
    let whole = MediaItemView { audio: Some(audio), ..item };
    let streamed = received(app, stream, id, at).0;
    assert(streamed.detected =~= seq![item]);
    lemma_first_is(streamed.detected, sound_has_key(dedupe_key(audio.url)), 1);
    lemma_first_is(streamed.detected, takes_audio(audio), 0);
    assert(received(streamed, sound, id, at).0.detected =~= seq![whole]);
    let sounded = received(app, sound, id, at).0;
    assert(sounded.pending_audio =~= seq![audio]);
    lemma_first_is(sounded.pending_audio, is_audio_of(item), 0);
    assert(received(sounded, stream, id, at).0.detected =~= seq![whole]);
}

proof fn lemma_lower_char_keeps(x: char, c: char)
    requires
        !('a' <= c <= 'z'),
        !('A' <= c <= 'Z'),
    ensures
        lower_char(x) == c <==> x == c,
        lower_char(lower_char(x)) == lower_char(x),
{
}

proof fn lemma_lower_twice(text: Seq<char>)
    ensures
        lower(lower(text)) == lower(text),
{
    assert forall|i: int| 0 <= i < text.len() implies lower_char(lower_char(text[i]))
        == lower_char(#[trigger] text[i]) by {
        lemma_lower_char_keeps(text[i], '#');
    }
    assert(lower(lower(text)) =~= lower(text));
}

proof fn lemma_lower_first_at(text: Seq<char>, c: char)
    requires
        !('a' <= c <= 'z'),
        !('A' <= c <= 'Z'),
    ensures
        first_at(lower(text), c) == first_at(text, c),
        before(lower(text), c) == lower(before(text, c)),
        after(text, c) is None ==> after(lower(text), c) is None,
        after(text, c) is Some ==> after(lower(text), c) == Some(lower(after(text, c)->0)),
{
    lemma_first_at(text, c);
    lemma_first_at(lower(text), c);
    let here = first_at(text, c);
    let there = first_at(lower(text), c);
    if here < there {
        lemma_lower_char_keeps(text[here], c);
        assert(lower(text)[here] != c);
    } else if there < here {
        lemma_lower_char_keeps(text[there], c);
        assert(lower(text)[there] == c);
    }
    assert(before(lower(text), c) =~= lower(before(text, c)));
    if after(text, c) is Some {
        assert(after(lower(text), c)->0 =~= lower(after(text, c)->0));
    }
}

/// The fragment of an address does not matter to its key.
pub proof fn law_key_ignores_fragment(url: Seq<char>)
    ensures
        dedupe_key(url) == dedupe_key(before(url, '#')),
{
    lemma_first_at(url, '#');
    let address = before(url, '#');
    lemma_first_at(address, '#');
    assert(first_at(address, '#') == address.len());
    assert(before(address, '#') =~= address);
}

proof fn lemma_split_lower(text: Seq<char>, sep: char)
    requires
        !('a' <= sep <= 'z'),
        !('A' <= sep <= 'Z'),
    ensures
        split(lower(text), sep) == split(text, sep).map_values(|part: Seq<char>| lower(part)),
    decreases text.len(),
{
    let low = |part: Seq<char>| lower(part);
    if text.len() == 0 {
        assert(lower(text) =~= Seq::<char>::empty());
        assert(lower(Seq::<char>::empty()) =~= Seq::<char>::empty());
        assert(split(lower(text), sep) =~= split(text, sep).map_values(low));
    } else {
        lemma_split_lower(text.drop_last(), sep);
        lemma_split_len(text.drop_last(), sep);
        lemma_lower_char_keeps(text.last(), sep);
        let pieces = split(text.drop_last(), sep);
        assert(lower(text).drop_last() =~= lower(text.drop_last()));
        assert(lower(text).last() == lower_char(text.last()));
        if text.last() == sep {
            assert(lower(Seq::<char>::empty()) =~= Seq::<char>::empty());
            assert(split(lower(text), sep) =~= split(text, sep).map_values(low));
        } else {
            assert(lower(pieces.last().push(text.last())) =~= lower(pieces.last()).push(
                lower_char(text.last()),
            ));
            assert(split(lower(text), sep) =~= split(text, sep).map_values(low));
        }
    }
}

proof fn lemma_stable_lower(part: Seq<char>)
    ensures
        is_stable(lower(part)) == is_stable(part),
{
    lemma_lower_first_at(part, '=');
    lemma_lower_twice(before(part, '='));
}

proof fn lemma_filter_lower(parts: Seq<Seq<char>>)
    ensures
        ({
            let low = |part: Seq<char>| lower(part);
            let stable = |part: Seq<char>| is_stable(part);
            parts.map_values(low).filter(stable).map_values(low) == parts.filter(stable).map_values(
                low,
            )
        }),
    decreases parts.len(),
{
    let low = |part: Seq<char>| lower(part);
    let stable = |part: Seq<char>| is_stable(part);
    reveal_with_fuel(Seq::filter, 1);
    if parts.len() > 0 {
        lemma_filter_lower(parts.drop_last());
        assert(parts.map_values(low).drop_last() =~= parts.drop_last().map_values(low));
        lemma_stable_lower(parts.last());
        lemma_lower_twice(parts.last());
        let rest = parts.drop_last();
        if is_stable(parts.last()) {
            assert(parts.filter(stable) == rest.filter(stable).push(parts.last()));
            assert(parts.map_values(low).filter(stable) == rest.map_values(low).filter(stable).push(
                lower(parts.last()),
            ));
            let kept = rest.filter(stable);
            let kept_low = rest.map_values(low).filter(stable);
            assert(kept.push(parts.last()).map_values(low) =~= kept.map_values(low).push(
                lower(parts.last()),
            ));
            assert(kept_low.push(lower(parts.last())).map_values(low) =~= kept_low.map_values(
                low,
            ).push(lower(parts.last())));
        } else {
            assert(parts.filter(stable) == rest.filter(stable));
            assert(parts.map_values(low).filter(stable) == rest.map_values(low).filter(stable));
        }
        assert(parts.map_values(low).filter(stable).map_values(low) =~= parts.filter(
            stable,
        ).map_values(low));
    } else {
        assert(parts.map_values(low).filter(stable).map_values(low) =~= parts.filter(
            stable,
        ).map_values(low));
    }
}

/// ASCII case does not matter to the key of an address.
pub proof fn law_key_ignores_case(url: Seq<char>)
    ensures
        dedupe_key(lower(url)) == dedupe_key(url),
{
    lemma_lower_first_at(url, '#');
    let address = before(url, '#');
    lemma_lower_first_at(address, '?');
    lemma_lower_twice(before(address, '?'));
    if after(address, '?') is Some {
        let query = after(address, '?')->0;
        lemma_split_lower(query, '&');
        lemma_filter_lower(split(query, '&'));
    }
}

pub proof fn lemma_address_parts(base: Seq<char>, query: Seq<char>)
    requires
        !base.contains('#'),
        !base.contains('?'),
        !query.contains('#'),
    ensures
        ({
            let url = base + seq!['?'] + query;
            &&& before(url, '#') == url
            &&& before(url, '?') == base
            &&& after(url, '?') == Some(query)
        }),
{
    let url = base + seq!['?'] + query;
    lemma_first_at(url, '#');
    lemma_first_at(url, '?');
    let hash = first_at(url, '#');
    let mark = first_at(url, '?');
    if hash < url.len() {
        if hash < base.len() {
            assert(base.contains(base[hash]));
        } else {
            assert(hash > base.len());
            assert(query.contains(query[hash - base.len() - 1]));
        }
    }
    assert(before(url, '#') =~= url);
    assert(url[base.len() as int] == '?');
    if mark < base.len() {
        assert(base.contains(base[mark]));
    }
    assert(mark == base.len());
    assert(before(url, '?') =~= base);
    assert(after(url, '?')->0 =~= query);
}

pub proof fn lemma_split_push(query: Seq<char>, part: Seq<char>, sep: char)
    requires
        !part.contains(sep),
    ensures
        split(query + seq![sep] + part, sep) == split(query, sep).push(part),
    decreases part.len(),
{
    let whole = query + seq![sep] + part;
    lemma_split_len(query, sep);
    if part.len() == 0 {
        assert(whole.drop_last() =~= query);
        assert(part =~= Seq::<char>::empty());
        assert(split(whole, sep) =~= split(query, sep).push(part));
    } else {
        let rest = part.drop_last();
        assert(!rest.contains(sep)) by {
            if rest.contains(sep) {
                let k = choose|k: int| 0 <= k < rest.len() && rest[k] == sep;
                assert(part[k] == sep);
            }
        }
        lemma_split_push(query, rest, sep);
        assert(whole.drop_last() =~= query + seq![sep] + rest);
        assert(part.contains(part.last()));
        assert(rest.push(part.last()) =~= part);
        assert(split(whole, sep) =~= split(query, sep).push(part));
    }
}

/// A part of a query that changes from request to request does not matter to the key.
pub proof fn law_key_ignores_volatile_parts(base: Seq<char>, query: Seq<char>, part: Seq<char>)
    requires
        !base.contains('#'),
        !base.contains('?'),
        !query.contains('#'),
        !part.contains('#'),
        !part.contains('&'),
        !is_stable(part),
    ensures
        dedupe_key(base + seq!['?'] + (query + seq!['&'] + part)) == dedupe_key(
            base + seq!['?'] + query,
        ),
{
    let longer = query + seq!['&'] + part;
    assert(!longer.contains('#')) by {
        if longer.contains('#') {
            let k = choose|k: int| 0 <= k < longer.len() && longer[k] == '#';
            if k < query.len() {
                assert(query.contains(query[k]));
            } else if k > query.len() {
                assert(part.contains(part[k - query.len() - 1]));
            }
        }
    }
    lemma_address_parts(base, query);
    lemma_address_parts(base, longer);
    lemma_split_push(query, part, '&');
    let stable = |part: Seq<char>| is_stable(part);
    let parts = split(query, '&');
    reveal_with_fuel(Seq::filter, 1);
    assert(parts.push(part).drop_last() =~= parts);
    assert(parts.push(part).filter(stable) == parts.filter(stable));
}

spec fn selected(parts: Seq<Seq<char>>) -> Seq<Seq<char>> {
    parts.filter(|part: Seq<char>| is_stable(part)).map_values(|part: Seq<char>| lower(part))
}

proof fn lemma_selected_concat(a: Seq<Seq<char>>, b: Seq<Seq<char>>)
    ensures
        selected(a + b) == selected(a) + selected(b),
{
    let stable = |part: Seq<char>| is_stable(part);
    Seq::filter_distributes_over_add(a, b, stable);
    assert(selected(a + b) =~= selected(a) + selected(b));
}

proof fn lemma_selected_multiset(a: Seq<Seq<char>>, b: Seq<Seq<char>>)
    requires
        a.to_multiset() == b.to_multiset(),
    ensures
        selected(a).to_multiset() == selected(b).to_multiset(),
    decreases a.len(),
{
    broadcast use vstd::seq_lib::group_to_multiset_ensures;
    broadcast use vstd::multiset::group_multiset_axioms;

    assert(a.len() == a.to_multiset().len());
    assert(b.len() == b.to_multiset().len());
    if a.len() == 0 {
        assert(a =~= b);
    } else {
        let x = a.last();
        assert(a.to_multiset().contains(x)) by {
            assert(a.contains(x));
        }
        assert(b.contains(x));
        let at = choose|at: int| 0 <= at < b.len() && b[at] == x;
        let head = b.take(at);
        let tail = b.skip(at + 1);
        let one = seq![x];
        assert(b =~= head + one + tail);
        assert(a =~= a.drop_last() + one);
        assert(a =~= a.drop_last().push(x));
        assert(b.remove(at) =~= head + tail);
        assert(a.drop_last().to_multiset() =~= a.to_multiset().remove(x));
        assert((head + tail).to_multiset() =~= b.to_multiset().remove(x));
        lemma_selected_multiset(a.drop_last(), head + tail);
        lemma_selected_concat(a.drop_last(), one);
        lemma_selected_concat(head, one);
        lemma_selected_concat(head + one, tail);
        lemma_selected_concat(head, tail);
        let h = selected(head);
        let o = selected(one);
        let t = selected(tail);
        let r = selected(a.drop_last());
        vstd::seq_lib::lemma_multiset_commutative(r, o);
        vstd::seq_lib::lemma_multiset_commutative(h, t);
        vstd::seq_lib::lemma_multiset_commutative(h, o);
        vstd::seq_lib::lemma_multiset_commutative(h + o, t);
        assert(selected(a).to_multiset() =~= selected(b).to_multiset());
    }
}

/// The order of the parts of a query does not matter to the key.
pub proof fn law_key_ignores_order(base: Seq<char>, query: Seq<char>, other: Seq<char>)
    requires
        !base.contains('#'),
        !base.contains('?'),
        !query.contains('#'),
        !other.contains('#'),
        split(query, '&').to_multiset() == split(other, '&').to_multiset(),
    ensures
        dedupe_key(base + seq!['?'] + query) == dedupe_key(base + seq!['?'] + other),
{
    broadcast use vstd::seq_lib::group_to_multiset_ensures;

    lemma_address_parts(base, query);
    lemma_address_parts(base, other);
    lemma_selected_multiset(split(query, '&'), split(other, '&'));
    let one = stable_parts(query);
    let two = stable_parts(other);
    assert(one.len() == one.to_multiset().len());
    assert(two.len() == two.to_multiset().len());
    let le = |a: Seq<char>, b: Seq<char>| text_le(a, b);
    lemma_text_order();
    one.lemma_sort_by_ensures(le);
    two.lemma_sort_by_ensures(le);
    vstd::seq_lib::lemma_sorted_unique(sorted(one), sorted(two), le);
}

/// The part of the key of an address that comes from what stands before its query.
pub open spec fn key_base(url: Seq<char>) -> Seq<char> {
    lower(before(before(url, '#'), '?'))
}

/// The parts of the query of an address that tell one medium from another.
pub open spec fn key_parts(url: Seq<char>) -> Seq<Seq<char>> {
    match after(before(url, '#'), '?') {
        None => Seq::empty(),
        Some(query) => stable_parts(query),
    }
}

/// Whether a text can be a part of a key.
spec fn is_key_part(part: Seq<char>) -> bool {
    &&& is_stable(part)
    &&& lower(part) == part
    &&& !part.contains('&')
    &&& !part.contains('#')
}

proof fn lemma_lower_contains(text: Seq<char>, c: char)
    requires
        !('a' <= c <= 'z'),
        !('A' <= c <= 'Z'),
        !text.contains(c),
    ensures
        !lower(text).contains(c),
{
    if lower(text).contains(c) {
        let k = choose|k: int| 0 <= k < text.len() && lower(text)[k] == c;
        lemma_lower_char_keeps(text[k], c);
        assert(text.contains(text[k]));
    }
}

proof fn lemma_before_lacks(text: Seq<char>, c: char)
    ensures
        !before(text, c).contains(c),
        forall|d: char| #[trigger] before(text, c).contains(d) ==> text.contains(d),
        forall|d: char|
            after(text, c) is Some && #[trigger] (after(text, c)->0).contains(d) ==> text.contains(d),
{
    lemma_first_at(text, c);
    assert forall|d: char| #[trigger] before(text, c).contains(d) implies text.contains(d) by {
        let k = choose|k: int| 0 <= k < before(text, c).len() && before(text, c)[k] == d;
        assert(text[k] == d);
    }
    assert forall|d: char|
        after(text, c) is Some && #[trigger] (after(text, c)->0).contains(d) implies text.contains(
        d,
    ) by {
        let rest = after(text, c)->0;
        let k = choose|k: int| 0 <= k < rest.len() && rest[k] == d;
        assert(text[first_at(text, c) + 1 + k] == d);
    }
}

proof fn lemma_pieces(text: Seq<char>, sep: char)
    ensures
        forall|i: int, c: char|
            0 <= i < split(text, sep).len() && #[trigger] split(text, sep)[i].contains(c)
                ==> text.contains(c) && c != sep,
    decreases text.len(),
{
    let pieces = split(text, sep);
    if text.len() > 0 {
        let rest = text.drop_last();
        let fewer = split(rest, sep);
        lemma_pieces(rest, sep);
        lemma_split_len(rest, sep);
        assert forall|i: int, c: char|
            0 <= i < pieces.len() && #[trigger] pieces[i].contains(c) implies text.contains(c) && c
            != sep by {
            let k = choose|k: int| 0 <= k < pieces[i].len() && pieces[i][k] == c;
            if text.last() != sep && i == pieces.len() - 1 && k == pieces[i].len() - 1 {
                assert(text[text.len() - 1] == c);
            } else {
                assert(fewer[i][k] == c);
                assert(fewer[i].contains(c));
                let m = choose|m: int| 0 <= m < rest.len() && rest[m] == c;
                assert(text[m] == c);
            }
        }
    }
}

proof fn lemma_selected_parts(parts: Seq<Seq<char>>)
    requires
        forall|i: int|
            0 <= i < parts.len() ==> !(#[trigger] parts[i]).contains('&') && !parts[i].contains('#'),
    ensures
        forall|i: int| 0 <= i < selected(parts).len() ==> is_key_part(#[trigger] selected(parts)[i]),
    decreases parts.len(),
{
    reveal_with_fuel(Seq::filter, 1);
    if parts.len() > 0 {
        let rest = parts.drop_last();
        let part = parts.last();
        lemma_selected_parts(rest);
        lemma_stable_lower(part);
        lemma_lower_twice(part);
        lemma_lower_contains(part, '&');
        lemma_lower_contains(part, '#');
        if is_stable(part) {
            assert(selected(parts) =~= selected(rest).push(lower(part)));
        }
    }
}

proof fn lemma_selected_all(parts: Seq<Seq<char>>)
    requires
        forall|i: int| 0 <= i < parts.len() ==> is_key_part(#[trigger] parts[i]),
    ensures
        selected(parts) == parts,
    decreases parts.len(),
{
    reveal_with_fuel(Seq::filter, 1);
    if parts.len() > 0 {
        let rest = parts.drop_last();
        lemma_selected_all(rest);
        assert(is_key_part(parts[parts.len() - 1]));
        assert(selected(parts) =~= selected(rest).push(parts.last()));
    }
    assert(selected(parts) =~= parts);
}

pub proof fn lemma_split_whole(text: Seq<char>, sep: char)
    requires
        !text.contains(sep),
    ensures
        split(text, sep) == seq![text],
    decreases text.len(),
{
    if text.len() > 0 {
        let rest = text.drop_last();
        assert(!rest.contains(sep)) by {
            if rest.contains(sep) {
                let k = choose|k: int| 0 <= k < rest.len() && rest[k] == sep;
                assert(text[k] == sep);
            }
        }
        lemma_split_whole(rest, sep);
        assert(text[text.len() - 1] != sep);
        assert(rest.push(text.last()) =~= text);
    } else {
        assert(text =~= Seq::<char>::empty());
    }
    assert(split(text, sep) =~= seq![text]);
}

proof fn lemma_split_joined(parts: Seq<Seq<char>>)
    requires
        parts.len() > 0,
        forall|i: int| 0 <= i < parts.len() ==> is_key_part(#[trigger] parts[i]),
    ensures
        split(joined(parts, "&"@), '&') == parts,
        !joined(parts, "&"@).contains('#'),
    decreases parts.len(),
{
    reveal_strlit("&");
    let text = joined(parts, "&"@);
    let part = parts.last();
    assert(is_key_part(parts[parts.len() - 1]));
    if parts.len() == 1 {
        lemma_split_whole(part, '&');
        assert(seq![part] =~= parts);
    } else {
        let rest = parts.drop_last();
        lemma_split_joined(rest);
        let head = joined(rest, "&"@);
        assert("&"@ =~= seq!['&']);
        lemma_split_push(head, part, '&');
        assert(rest.push(part) =~= parts);
        if text.contains('#') {
            let k = choose|k: int| 0 <= k < text.len() && text[k] == '#';
            if k < head.len() {
                assert(head.contains(head[k]));
            } else {
                assert(k > head.len());
                assert(part.contains(part[k - head.len() - 1]));
            }
        }
    }
}

proof fn lemma_sorted(parts: Seq<Seq<char>>)
    ensures
        sorted(parts).to_multiset() == parts.to_multiset(),
        sorted(parts).len() == parts.len(),
        forall|i: int| 0 <= i < parts.len() ==> parts.contains(#[trigger] sorted(parts)[i]),
        sorted(sorted(parts)) == sorted(parts),
{
    broadcast use vstd::seq_lib::group_to_multiset_ensures;

    let le = |a: Seq<char>, b: Seq<char>| text_le(a, b);
    lemma_text_order();
    parts.lemma_sort_by_ensures(le);
    let list = sorted(parts);
    list.lemma_sort_by_ensures(le);
    vstd::seq_lib::lemma_sorted_unique(sorted(list), list, le);
    assert(list.len() == list.to_multiset().len());
    assert(parts.len() == parts.to_multiset().len());
    assert forall|i: int| 0 <= i < parts.len() implies parts.contains(#[trigger] list[i]) by {
        assert(list.contains(list[i]));
        assert(list.to_multiset().count(list[i]) > 0);
    }
}

proof fn lemma_key_reads_back(url: Seq<char>)
    ensures
        key_base(dedupe_key(url)) == key_base(url),
        key_parts(dedupe_key(url)) == sorted(key_parts(url)),
{
    let address = before(url, '#');
    let base = key_base(url);
    let parts = key_parts(url);
    let key = dedupe_key(url);
    let plain = before(address, '?');
    lemma_before_lacks(url, '#');
    lemma_before_lacks(address, '?');
    assert(!plain.contains('#') && !plain.contains('?'));
    lemma_lower_contains(plain, '#');
    lemma_lower_contains(plain, '?');
    lemma_lower_twice(plain);
    lemma_sorted(parts);
    if parts.len() == 0 {
        assert(key == base);
        lemma_before_lacks(base, '#');
        lemma_first_at(base, '#');
        lemma_first_at(base, '?');
        if first_at(base, '#') < base.len() {
            assert(base.contains(base[first_at(base, '#')]));
        }
        if first_at(base, '?') < base.len() {
            assert(base.contains(base[first_at(base, '?')]));
        }
        assert(before(base, '#') =~= base);
        assert(before(base, '?') =~= base);
        assert(sorted(parts) =~= Seq::<Seq<char>>::empty());
    } else {
        let query = after(address, '?')->0;
        let pieces = split(query, '&');
        lemma_pieces(query, '&');
        assert forall|i: int| 0 <= i < pieces.len() implies !(#[trigger] pieces[i]).contains('&')
            && !pieces[i].contains('#') by {
            if pieces[i].contains('#') {
                assert(query.contains('#'));
                assert(address.contains('#'));
            }
        }
        lemma_selected_parts(pieces);
        assert(parts == selected(pieces));
        let list = sorted(parts);
        assert forall|i: int| 0 <= i < list.len() implies is_key_part(#[trigger] list[i]) by {
            assert(parts.contains(list[i]));
            let k = choose|k: int| 0 <= k < parts.len() && parts[k] == list[i];
            assert(is_key_part(parts[k]));
        }
        let text = joined(list, "&"@);
        lemma_split_joined(list);
        lemma_selected_all(list);
        reveal_strlit("?");
        assert("?"@ =~= seq!['?']);
        lemma_address_parts(base, text);
        assert(stable_parts(text) == selected(split(text, '&')));
    }
}

/// Two addresses have one key if and only if they are the same before their queries, but for
/// ASCII case, and the parts of their queries that tell one medium from another are the same,
/// whatever their order.
pub proof fn law_keys_are_equal_for_one_medium(left: Seq<char>, right: Seq<char>)
    ensures
        dedupe_key(left) == dedupe_key(right) <==> key_base(left) == key_base(right) && key_parts(
            left,
        ).to_multiset() == key_parts(right).to_multiset(),
{
    broadcast use vstd::seq_lib::group_to_multiset_ensures;

    lemma_key_reads_back(left);
    lemma_key_reads_back(right);
    let one = key_parts(left);
    let two = key_parts(right);
    lemma_sorted(one);
    lemma_sorted(two);
    if one.to_multiset() == two.to_multiset() {
        assert(one.len() == one.to_multiset().len());
        assert(two.len() == two.to_multiset().len());
        let le = |a: Seq<char>, b: Seq<char>| text_le(a, b);
        lemma_text_order();
        one.lemma_sort_by_ensures(le);
        two.lemma_sort_by_ensures(le);
        vstd::seq_lib::lemma_sorted_unique(sorted(one), sorted(two), le);
    }
}

/// A key is its own key.
pub proof fn law_a_key_is_its_own_key(url: Seq<char>)
    ensures
        dedupe_key(dedupe_key(url)) == dedupe_key(url),
{
    lemma_key_reads_back(url);
    lemma_sorted(key_parts(url));
}

} // verus!
