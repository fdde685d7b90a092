//! What holds of every HLS playlist and of every list of qualities.

use crate::analysis::{analyzed, is_media};
use crate::hls::{
    as_high, assembled, attributes_of, bandwidth_of, cipher_of, ciphers_of, fields, in_quotes,
    is_highest, key_in, lemma_ranked_len, line_kind, outline_of, outlined, place_of, placed,
    playlist_of, ranked, resolved, segments_of, variants_of, HlsCipherView, HlsEntryView,
    HlsOutlineView, HlsPlaceView, HlsPlaylistView, Line,
};
use crate::lists::{first_where, lemma_first_where};
use crate::outside::{joined_url, parsed_url};
use crate::state::{download_url, AppStateView, HlsVariantView, MediaType};
use crate::text::{is_space, lemma_text_order, split, text_le, trimmed, without_leading_space};
use vstd::prelude::*;

verus! {

proof fn lemma_as_high_total(a: HlsVariantView, b: HlsVariantView)
    ensures
        as_high(a, a),
        as_high(a, b) || as_high(b, a),
{
    lemma_text_order();
    let le = |a: Seq<char>, b: Seq<char>| text_le(a, b);
    match (a.resolution, b.resolution) {
        (Some(x), Some(y)) => {
            assert(le(x, x));
            assert(le(x, y) || le(y, x));
        },
        (Some(x), None) => {
            assert(le(x, x));
        },
        _ => {},
    }
}

proof fn lemma_as_high_transitive(a: HlsVariantView, b: HlsVariantView, c: HlsVariantView)
    requires
        as_high(a, b),
        as_high(b, c),
    ensures
        as_high(a, c),
{
    lemma_text_order();
    let le = |a: Seq<char>, b: Seq<char>| text_le(a, b);
    match (a.resolution, b.resolution, c.resolution) {
        (Some(x), Some(y), Some(z)) => {
            if bandwidth_of(a) == bandwidth_of(b) && bandwidth_of(b) == bandwidth_of(c) {
                assert(le(z, y) && le(y, x));
                assert(le(z, x));
            }
        },
        _ => {},
    }
}

/// Whether a list of qualities is in order, highest first.
pub open spec fn highest_first(list: Seq<HlsVariantView>) -> bool {
    forall|i: int, j: int|
        0 <= i < j < list.len() ==> as_high(#[trigger] list[i], #[trigger] list[j])
}

proof fn lemma_placed(list: Seq<HlsVariantView>, variant: HlsVariantView)
    requires
        highest_first(list),
    ensures
        highest_first(placed(list, variant)),
        placed(list, variant).len() == list.len() + 1,
        placed(list, variant).to_multiset() == list.to_multiset().insert(variant),
        list.len() > 0 ==> placed(list, variant).last() == list.last() || placed(
            list,
            variant,
        ).last() == variant,
    decreases list.len(),
{
    broadcast use vstd::seq_lib::group_to_multiset_ensures;

    let all = placed(list, variant);
    if list.len() == 0 {
    } else if as_high(list.last(), variant) {
        assert forall|i: int, j: int| 0 <= i < j < all.len() implies as_high(
            #[trigger] all[i],
            #[trigger] all[j],
        ) by {
            if j == list.len() && i < list.len() - 1 {
                assert(as_high(list[i], list.last()));
                lemma_as_high_transitive(list[i], list.last(), variant);
            }
        }
    } else {
        let rest = list.drop_last();
        lemma_placed(rest, variant);
        lemma_as_high_total(list.last(), variant);
        let inner = placed(rest, variant);
        assert(all =~= inner.push(list.last()));
        assert forall|i: int, j: int| 0 <= i < j < all.len() implies as_high(
            #[trigger] all[i],
            #[trigger] all[j],
        ) by {
            if j == inner.len() {
                assert(inner.contains(inner[i]));
                assert(inner.to_multiset().count(inner[i]) > 0);
                assert(rest.to_multiset().insert(variant).count(inner[i]) > 0);
                if inner[i] != variant {
                    assert(rest.to_multiset().count(inner[i]) > 0);
                    assert(rest.contains(inner[i]));
                    let k = choose|k: int| 0 <= k < rest.len() && rest[k] == inner[i];
                    assert(as_high(list[k], list.last()));
                }
            } else {
                assert(as_high(inner[i], inner[j]));
            }
        }
        assert(list =~= rest.push(list.last()));
        assert(all.to_multiset() =~= list.to_multiset().insert(variant));
    }
}

/// Ranked qualities are in order: none stands before one that is higher.
pub proof fn law_ranked_is_in_order(list: Seq<HlsVariantView>)
    ensures
        highest_first(ranked(list)),
    decreases list.len(),
{
    if list.len() > 0 {
        law_ranked_is_in_order(list.drop_last());
        lemma_placed(ranked(list.drop_last()), list.last());
    }
}

/// Ranking neither adds nor loses a quality.
pub proof fn law_ranked_keeps_all(list: Seq<HlsVariantView>)
    ensures
        ranked(list).to_multiset() == list.to_multiset(),
    decreases list.len(),
{
    broadcast use vstd::seq_lib::group_to_multiset_ensures;

    if list.len() > 0 {
        let rest = list.drop_last();
        law_ranked_keeps_all(rest);
        law_ranked_is_in_order(rest);
        lemma_placed(ranked(rest), list.last());
        assert(list =~= rest.push(list.last()));
    }
}

/// Whether two qualities are equally high.
pub open spec fn equally_high(a: HlsVariantView) -> spec_fn(HlsVariantView) -> bool {
    |b: HlsVariantView| as_high(a, b) && as_high(b, a)
}

proof fn lemma_filter_push<A>(list: Seq<A>, x: A, wanted: spec_fn(A) -> bool)
    ensures
        list.push(x).filter(wanted) == (if wanted(x) {
            list.filter(wanted).push(x)
        } else {
            list.filter(wanted)
        }),
{
    reveal_with_fuel(Seq::filter, 1);
    assert(list.push(x).drop_last() =~= list);
}

proof fn lemma_placed_stable(
    list: Seq<HlsVariantView>,
    variant: HlsVariantView,
    rank: HlsVariantView,
)
    requires
        highest_first(list),
    ensures
        placed(list, variant).filter(equally_high(rank)) == list.push(variant).filter(
            equally_high(rank),
        ),
    decreases list.len(),
{
    let same = equally_high(rank);
    if list.len() > 0 && !as_high(list.last(), variant) {
        let rest = list.drop_last();
        let last = list.last();
        lemma_placed_stable(rest, variant, rank);
        assert(list =~= rest.push(last));
        lemma_filter_push(placed(rest, variant), last, same);
        lemma_filter_push(rest, variant, same);
        lemma_filter_push(rest, last, same);
        lemma_filter_push(list, variant, same);
        if same(variant) && same(last) {
            lemma_as_high_transitive(last, rank, variant);
        }
    }
}

/// Equally high qualities stay in their order.
pub proof fn law_ranking_is_stable(list: Seq<HlsVariantView>, rank: HlsVariantView)
    ensures
        ranked(list).filter(equally_high(rank)) == list.filter(equally_high(rank)),
    decreases list.len(),
{
    if list.len() > 0 {
        let rest = list.drop_last();
        law_ranking_is_stable(rest, rank);
        law_ranked_is_in_order(rest);
        lemma_placed_stable(ranked(rest), list.last(), rank);
        lemma_filter_push(ranked(rest), list.last(), equally_high(rank));
        lemma_filter_push(rest, list.last(), equally_high(rank));
        assert(list =~= rest.push(list.last()));
    }
}

/// The first of the ranked qualities has the highest bandwidth of all.
pub proof fn law_first_ranked_is_highest(list: Seq<HlsVariantView>, at: int)
    requires
        0 <= at < list.len(),
    ensures
        bandwidth_of(list[at]) <= bandwidth_of(ranked(list)[0]),
{
    broadcast use vstd::seq_lib::group_to_multiset_ensures;

    law_ranked_is_in_order(list);
    law_ranked_keeps_all(list);
    lemma_ranked_len(list);
    assert(list.contains(list[at]));
    assert(ranked(list).to_multiset().count(list[at]) > 0);
    assert(ranked(list).contains(list[at]));
    let k = choose|k: int| 0 <= k < ranked(list).len() && ranked(list)[k] == list[at];
    if k > 0 {
        assert(as_high(ranked(list)[0], ranked(list)[k]));
    }
}

/// The quality that is chosen among ranked ones has the same bandwidth as the first.
pub proof fn law_choice_agrees_with_ranking(list: Seq<HlsVariantView>, at: int)
    requires
        is_highest(ranked(list), at),
    ensures
        bandwidth_of(ranked(list)[at]) == bandwidth_of(ranked(list)[0]),
{
    law_ranked_is_in_order(list);
    if at > 0 {
        assert(as_high(ranked(list)[0], ranked(list)[at]));
    }
    assert(bandwidth_of(ranked(list)[0]) <= bandwidth_of(ranked(list)[at]));
}

/// Choosing the highest quality gives one answer.
pub proof fn law_highest_is_one(list: Seq<HlsVariantView>, a: int, b: int)
    requires
        is_highest(list, a),
        is_highest(list, b),
    ensures
        a == b,
{
    if a < b {
        assert(bandwidth_of(list[b]) < bandwidth_of(list[a]));
        assert(bandwidth_of(list[a]) <= bandwidth_of(list[b]));
    }
    if b < a {
        assert(bandwidth_of(list[a]) < bandwidth_of(list[b]));
        assert(bandwidth_of(list[b]) <= bandwidth_of(list[a]));
    }
}

/// After the qualities of an HLS item were found, a download of it fetches one with the
/// highest bandwidth.
pub proof fn law_download_takes_the_highest(
    app: AppStateView,
    id: u128,
    playlist: HlsPlaylistView,
    at: int,
)
    requires
        playlist.variants.len() > 0,
        first_where(app.detected, is_media(id)) < app.detected.len(),
        app.detected[first_where(app.detected, is_media(id))].media_type == MediaType::Hls,
        0 <= at < playlist.variants.len(),
    ensures
        ({
            let place = first_where(app.detected, is_media(id));
            let best = ranked(playlist.variants)[0];
            &&& download_url(analyzed(app, id, playlist).detected[place]) == best.url
            &&& playlist.variants.contains(best)
            &&& bandwidth_of(playlist.variants[at]) <= bandwidth_of(best)
        }),
{
    broadcast use vstd::seq_lib::group_to_multiset_ensures;

    lemma_first_where(app.detected, is_media(id));
    law_first_ranked_is_highest(playlist.variants, at);
    law_ranked_keeps_all(playlist.variants);
    lemma_ranked_len(playlist.variants);
    let best = ranked(playlist.variants)[0];
    assert(ranked(playlist.variants).contains(best));
    assert(playlist.variants.to_multiset().count(best) > 0);
}

/// A playlist is encrypted if and only if one of its lines is a key.
pub proof fn law_encrypted_means_a_key(lines: Seq<Seq<char>>)
    ensures
        outline_of(lines).encrypted <==> exists|i: int|
            0 <= i < lines.len() && line_kind(#[trigger] lines[i]) is Key,
    decreases lines.len(),
{
    if lines.len() > 0 {
        let rest = lines.drop_last();
        law_encrypted_means_a_key(rest);
        if outline_of(rest).encrypted {
            let i = choose|i: int|
                0 <= i < rest.len() && line_kind(#[trigger] rest[i]) is Key;
            assert(line_kind(lines[i]) is Key);
        }
        if line_kind(lines.last()) is Key {
            assert(line_kind(lines[lines.len() - 1]) is Key);
        }
        if exists|i: int| 0 <= i < lines.len() && line_kind(#[trigger] lines[i]) is Key {
            let i = choose|i: int|
                0 <= i < lines.len() && line_kind(#[trigger] lines[i]) is Key;
            if i < rest.len() {
                assert(line_kind(rest[i]) is Key);
            }
        }
    }
}

proof fn lemma_entries_are_address_lines(lines: Seq<Seq<char>>, bad: spec_fn(Seq<char>) -> bool)
    ensures
        (exists|i: int|
            0 <= i < outline_of(lines).entries.len() && bad(
                (#[trigger] outline_of(lines).entries[i]).address,
            )) <==> (exists|i: int|
            0 <= i < lines.len() && (line_kind(#[trigger] lines[i]) matches Line::Address(address)
                && bad(address))),
    decreases lines.len(),
{
    if lines.len() > 0 {
        let rest = lines.drop_last();
        lemma_entries_are_address_lines(rest, bad);
        let entries = outline_of(lines).entries;
        let fewer = outline_of(rest).entries;
        if exists|i: int| 0 <= i < entries.len() && bad((#[trigger] entries[i]).address) {
            let i = choose|i: int| 0 <= i < entries.len() && bad((#[trigger] entries[i]).address);
            if i < fewer.len() {
                assert(bad(fewer[i].address));
                let k = choose|k: int|
                    0 <= k < rest.len() && (line_kind(#[trigger] rest[k]) matches Line::Address(
                        address,
                    ) && bad(address));
                assert(lines[k] == rest[k]);
            } else {
                assert(lines[lines.len() - 1] == lines.last());
            }
        }
        if exists|i: int|
            0 <= i < lines.len() && (line_kind(#[trigger] lines[i]) matches Line::Address(address)
                && bad(address)) {
            let i = choose|i: int|
                0 <= i < lines.len() && (line_kind(#[trigger] lines[i]) matches Line::Address(
                    address,
                ) && bad(address));
            if i < rest.len() {
                assert(rest[i] == lines[i]);
                let k = choose|k: int|
                    0 <= k < fewer.len() && bad((#[trigger] fewer[k]).address);
                assert(entries[k] == fewer[k]);
            } else {
                assert(bad(entries[entries.len() - 1].address));
            }
        }
    }
}

proof fn lemma_resolved(base: Seq<char>, entries: Seq<HlsEntryView>)
    ensures
        resolved(base, entries) is Err <==> exists|i: int|
            0 <= i < entries.len() && joined_url(base, (#[trigger] entries[i]).address) is Err,
    decreases entries.len(),
{
    if entries.len() > 0 {
        let rest = entries.drop_last();
        lemma_resolved(base, rest);
        if resolved(base, rest) is Err {
            let i = choose|i: int|
                0 <= i < rest.len() && joined_url(base, (#[trigger] rest[i]).address) is Err;
            assert(entries[i] == rest[i]);
        }
        if joined_url(base, entries.last().address) is Err {
            assert(joined_url(base, entries[entries.len() - 1].address) is Err);
        }
        if exists|i: int|
            0 <= i < entries.len() && joined_url(base, (#[trigger] entries[i]).address) is Err {
            let i = choose|i: int|
                0 <= i < entries.len() && joined_url(base, (#[trigger] entries[i]).address) is Err;
            if i < rest.len() {
                assert(rest[i] == entries[i]);
            }
        }
    }
}

/// A text is no playlist if and only if its own address is none, or one of its address lines
/// cannot be joined to it.
pub proof fn law_only_bad_addresses_are_errors(base: Seq<char>, text: Seq<char>)
    ensures
        playlist_of(base, text) is Err <==> {
            ||| parsed_url(base) is Err
            ||| exists|i: int|
                0 <= i < split(text, '\n').len() && (line_kind(#[trigger] split(text, '\n')[i])
                    matches Line::Address(address) && joined_url(base, address) is Err)
        },
{
    let bad = |address: Seq<char>| joined_url(base, address) is Err;
    let lines = split(text, '\n');
    let entries = outline_of(lines).entries;
    lemma_resolved(base, entries);
    lemma_entries_are_address_lines(lines, bad);
    if exists|i: int| 0 <= i < entries.len() && joined_url(base, (#[trigger] entries[i]).address) is Err {
        let i = choose|i: int|
            0 <= i < entries.len() && joined_url(base, (#[trigger] entries[i]).address) is Err;
        assert(bad(entries[i].address));
        let k = choose|k: int|
            0 <= k < lines.len() && (line_kind(#[trigger] lines[k]) matches Line::Address(address)
                && bad(address));
        assert(joined_url(base, line_kind(lines[k])->Address_0) is Err);
    }
    if exists|i: int|
        0 <= i < lines.len() && (line_kind(#[trigger] lines[i]) matches Line::Address(address)
            && joined_url(base, address) is Err) {
        let i = choose|i: int|
            0 <= i < lines.len() && (line_kind(#[trigger] lines[i]) matches Line::Address(address)
                && joined_url(base, address) is Err);
        assert(bad(line_kind(lines[i])->Address_0));
        let k = choose|k: int| 0 <= k < entries.len() && bad((#[trigger] entries[k]).address);
        assert(joined_url(base, entries[k].address) is Err);
    }
}

/// A segment whose key has no address that can be joined to the playlist's is refused.
pub proof fn law_a_key_without_an_address_is_refused(
    base: Seq<char>,
    entry: HlsEntryView,
    number: nat,
)
    requires
        entry.info is None,
        entry.key is Aes,
        joined_url(base, entry.address) is Ok,
        joined_url(base, entry.key->uri) is Err,
    ensures
        place_of(base, entry) is Ok,
        cipher_of(entry.key, place_of(base, entry)->Ok_0.key_url, number) == HlsCipherView::Refused,
{
}

proof fn lemma_counts(entries: Seq<HlsEntryView>, places: Seq<HlsPlaceView>)
    ensures
        segments_of(entries, places).len() + variants_of(entries, places).len() == entries.len(),
    decreases entries.len(),
{
    if entries.len() > 0 {
        lemma_counts(entries.drop_last(), places);
    }
}

/// Every address of a playlist is that of one segment or of one quality.
pub proof fn law_every_address_counts(outline: HlsOutlineView, places: Seq<HlsPlaceView>)
    ensures
        assembled(outline, places).segments.len() + assembled(outline, places).variants.len()
            == outline.entries.len(),
{
    lemma_counts(outline.entries, places);
}

/// The addresses of the entries themselves.
pub open spec fn urls_of(places: Seq<HlsPlaceView>) -> Seq<Seq<char>> {
    Seq::new(places.len(), |i: int| places[i].url)
}

proof fn lemma_plain(entries: Seq<HlsEntryView>, places: Seq<HlsPlaceView>, sequence: u64)
    requires
        forall|i: int| 0 <= i < entries.len() ==> (#[trigger] entries[i]).info is None,
        entries.len() <= places.len(),
    ensures
        segments_of(entries, places) == urls_of(places).take(entries.len() as int),
        variants_of(entries, places).len() == 0,
        ciphers_of(entries, places, sequence).len() == entries.len(),
        forall|i: int|
            0 <= i < entries.len() ==> #[trigger] ciphers_of(entries, places, sequence)[i]
                == cipher_of(entries[i].key, places[i].key_url, (sequence + i) as nat),
    decreases entries.len(),
{
    let urls = urls_of(places);
    if entries.len() == 0 {
        assert(urls.take(0) =~= Seq::<Seq<char>>::empty());
    } else {
        lemma_plain(entries.drop_last(), places, sequence);
        assert(entries.last() == entries[entries.len() - 1]);
        assert(urls.take(entries.len() as int) =~= urls.take(entries.len() - 1).push(
            urls[entries.len() - 1],
        ));
    }
}

pub proof fn lemma_no_quality(lines: Seq<Seq<char>>)
    requires
        forall|i: int| 0 <= i < lines.len() ==> !(line_kind(#[trigger] lines[i]) is Quality),
    ensures
        outline_of(lines).pending is None,
        forall|i: int|
            0 <= i < outline_of(lines).entries.len() ==> (
            #[trigger] outline_of(lines).entries[i]).info is None,
    decreases lines.len(),
{
    if lines.len() > 0 {
        let rest = lines.drop_last();
        assert forall|i: int| 0 <= i < rest.len() implies !(line_kind(
            #[trigger] rest[i],
        ) is Quality) by {
            assert(rest[i] == lines[i]);
        }
        lemma_no_quality(rest);
        assert(!(line_kind(lines[lines.len() - 1]) is Quality));
    }
}

/// A playlist that names no quality lists all its addresses as segments, in their order,
/// each encrypted as the key line before it says; the numbers of the segments count up from
/// the one stated.
pub proof fn law_media_playlist_lists_segments_in_order(
    lines: Seq<Seq<char>>,
    places: Seq<HlsPlaceView>,
    at: int,
)
    requires
        forall|i: int| 0 <= i < lines.len() ==> !(line_kind(#[trigger] lines[i]) is Quality),
        places.len() == outline_of(lines).entries.len(),
        0 <= at < places.len(),
    ensures
        ({
            let outline = outline_of(lines);
            let playlist = assembled(outline, places);
            &&& playlist.segments == urls_of(places)
            &&& playlist.variants.len() == 0
            &&& playlist.ciphers.len() == playlist.segments.len()
            &&& playlist.ciphers[at] == cipher_of(
                outline.entries[at].key,
                places[at].key_url,
                (outline.sequence + at) as nat,
            )
        }),
{
    lemma_no_quality(lines);
    lemma_plain(outline_of(lines).entries, places, outline_of(lines).sequence);
    assert(urls_of(places).take(places.len() as int) =~= urls_of(places));
}

proof fn lemma_ciphers_len(entries: Seq<HlsEntryView>, places: Seq<HlsPlaceView>, sequence: u64)
    ensures
        ciphers_of(entries, places, sequence).len() == segments_of(entries, places).len(),
    decreases entries.len(),
{
    if entries.len() > 0 {
        lemma_ciphers_len(entries.drop_last(), places, sequence);
    }
}

/// It is known of every segment how it is encrypted.
pub proof fn law_every_segment_has_its_cipher(outline: HlsOutlineView, places: Seq<HlsPlaceView>)
    ensures
        assembled(outline, places).ciphers.len() == assembled(outline, places).segments.len(),
{
    lemma_ciphers_len(outline.entries, places, outline.sequence);
}

/// A key line holds for the addresses that follow it, until the next key line.
pub proof fn law_key_holds_until_the_next(outline: HlsOutlineView, line: Seq<char>)
    ensures
        !(line_kind(line) is Key) ==> outlined(outline, line).key == outline.key,
        line_kind(line) is Key ==> outlined(outline, line).key == key_in(line_kind(line)->Key_0),
        line_kind(line) is Address ==> outlined(outline, line).entries.last().key == outline.key,
{
}

proof fn lemma_trailing_space(text: Seq<char>, c: char)
    requires
        is_space(c),
    ensures
        trimmed(text.push(c)) == trimmed(text),
    decreases text.len(),
{
    if text.len() == 0 {
        let one = text.push(c);
        assert(one.drop_first() =~= Seq::<char>::empty());
        assert(one.drop_first() =~= text);
        reveal_with_fuel(without_leading_space, 2);
    } else if is_space(text[0]) {
        assert(text.push(c).drop_first() =~= text.drop_first().push(c));
        lemma_trailing_space(text.drop_first(), c);
    } else {
        assert(text.push(c).drop_last() =~= text);
    }
}

/// White space at the end of a line, such as a carriage return, changes nothing.
pub proof fn law_line_ends_do_not_matter(outline: HlsOutlineView, line: Seq<char>, c: char)
    requires
        is_space(c),
    ensures
        outlined(outline, line.push(c)) == outlined(outline, line),
{
    lemma_trailing_space(line, c);
}

proof fn lemma_quotes_after_comma(a: Seq<char>, b: Seq<char>)
    requires
        !in_quotes(a),
    ensures
        in_quotes(a.push(',') + b) == in_quotes(b),
    decreases b.len(),
{
    let whole = a.push(',') + b;
    if b.len() == 0 {
        assert(whole =~= a.push(','));
        assert(whole.drop_last() =~= a);
    } else {
        assert(whole.drop_last() =~= a.push(',') + b.drop_last());
        lemma_quotes_after_comma(a, b.drop_last());
    }
}

proof fn lemma_fields_nonempty(text: Seq<char>)
    ensures
        fields(text).len() >= 1,
    decreases text.len(),
{
    if text.len() > 0 {
        lemma_fields_nonempty(text.drop_last());
    }
}

proof fn lemma_fields_after_comma(a: Seq<char>, b: Seq<char>)
    requires
        !in_quotes(a),
    ensures
        fields(a.push(',') + b) == fields(a) + fields(b),
    decreases b.len(),
{
    let whole = a.push(',') + b;
    if b.len() == 0 {
        assert(whole =~= a.push(','));
        assert(whole.drop_last() =~= a);
        assert(fields(whole) =~= fields(a) + fields(b));
    } else {
        let shorter = b.drop_last();
        assert(whole.drop_last() =~= a.push(',') + shorter);
        lemma_quotes_after_comma(a, shorter);
        lemma_fields_after_comma(a, shorter);
        lemma_fields_nonempty(shorter);
        let before = fields(a) + fields(shorter);
        assert(before.drop_last() =~= fields(a) + fields(shorter).drop_last());
        assert(before.last() == fields(shorter).last());
        assert(fields(whole) =~= fields(a) + fields(b));
    }
}

proof fn lemma_attributes_of_both(a: Seq<Seq<char>>, b: Seq<Seq<char>>)
    ensures
        attributes_of(a + b) == attributes_of(a) + attributes_of(b),
    decreases b.len(),
{
    if b.len() == 0 {
        assert(a + b =~= a);
        assert(attributes_of(a) + attributes_of(b) =~= attributes_of(a));
    } else {
        assert((a + b).drop_last() =~= a + b.drop_last());
        lemma_attributes_of_both(a, b.drop_last());
        assert(attributes_of(a + b) =~= attributes_of(a) + attributes_of(b));
    }
}

/// Two attribute lists with a comma between them set what the one and then the other
/// sets, as long as the first closes its quotation marks.
pub proof fn law_attribute_lists_join(a: Seq<char>, b: Seq<char>)
    requires
        !in_quotes(a),
    ensures
        attributes_of(fields(a.push(',') + b)) == attributes_of(fields(a)) + attributes_of(
            fields(b),
        ),
{
    lemma_fields_after_comma(a, b);
    lemma_attributes_of_both(fields(a), fields(b));
}

} // verus!
