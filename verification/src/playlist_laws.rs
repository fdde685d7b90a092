//! What a playlist says, line by line and attribute by attribute: what is written in one is
//! what is read.

use crate::hls::{
    attribute, attributes_of, ciphers_of, cleaned, error_text, fields, hex_number, hex_value,
    in_quotes, info_of, initial_number, is_highest, key_in, key_of, line_kind, outline_of,
    place_of, playlist_of, ranked, resolved, segments_of, unquoted, variant_info, variants_of,
    HlsCipherView, HlsEntryView, HlsErrorView, HlsKeyView, HlsPlaceView, Line,
};
use crate::hls_laws::{law_media_playlist_lists_segments_in_order, law_ranked_is_in_order};
use crate::outside::joined_url;
use crate::state::HlsVariantView;
use crate::text::{after, before, first_at, lemma_first_at, split, text_le, trimmed, unsigned};
use crate::text_laws::law_before_and_after_make_up_the_text;
use vstd::prelude::*;

verus! {

/// Whether a line begins with a tag, white space at its ends aside.
pub open spec fn begins(line: Seq<char>, tag: Seq<char>) -> bool {
    trimmed(line).len() >= tag.len() && trimmed(line).take(tag.len() as int) == tag
}

/// Whether a line is an address: it is not blank, and does not begin with a number sign.
pub open spec fn is_address_line(line: Seq<char>) -> bool {
    trimmed(line).len() > 0 && trimmed(line)[0] != '#'
}

/// The address lines among some lines, in their order and without white space at their ends.
pub open spec fn address_lines(lines: Seq<Seq<char>>) -> Seq<Seq<char>>
    decreases lines.len(),
{
    if lines.len() == 0 {
        Seq::empty()
    } else if is_address_line(lines.last()) {
        address_lines(lines.drop_last()).push(trimmed(lines.last()))
    } else {
        address_lines(lines.drop_last())
    }
}

proof fn lemma_begins(line: Seq<char>, tag: Seq<char>)
    ensures
        begins(line, tag) <==> tag.is_prefix_of(trimmed(line)),
{
    let text = trimmed(line);
    if tag.len() <= text.len() {
        assert(text.take(tag.len() as int) =~= text.subrange(0, tag.len() as int));
    }
}

proof fn lemma_kinds(line: Seq<char>)
    ensures
        is_address_line(line) ==> line_kind(line) == Line::Address(trimmed(line)),
        begins(line, "#EXT-X-KEY"@) ==> line_kind(line) == Line::Key(trimmed(line).skip(10)),
        begins(line, "#EXT-X-STREAM-INF:"@) ==> line_kind(line) == Line::Quality(
            trimmed(line).skip(18),
        ),
        begins(line, "#EXT-X-MEDIA-SEQUENCE:"@) ==> line_kind(line) == Line::Sequence(
            trimmed(line).skip(22),
        ),
        !is_address_line(line) && !begins(line, "#EXT-X-KEY"@) && !begins(
            line,
            "#EXT-X-STREAM-INF:"@,
        ) && !begins(line, "#EXT-X-MEDIA-SEQUENCE:"@) ==> line_kind(line) is Other,
{
    reveal_strlit("#EXT-X-KEY");
    reveal_strlit("#EXT-X-STREAM-INF:");
    reveal_strlit("#EXT-X-MEDIA-SEQUENCE:");
    let text = trimmed(line);
    lemma_begins(line, "#EXT-X-KEY"@);
    lemma_begins(line, "#EXT-X-STREAM-INF:"@);
    lemma_begins(line, "#EXT-X-MEDIA-SEQUENCE:"@);
    if begins(line, "#EXT-X-KEY"@) {
        assert(text.take(10)[0] == '#' && text.take(10)[7] == 'K');
        if begins(line, "#EXT-X-STREAM-INF:"@) {
            assert(text.take(18)[7] == 'S');
        }
        if begins(line, "#EXT-X-MEDIA-SEQUENCE:"@) {
            assert(text.take(22)[7] == 'M');
        }
    }
    if begins(line, "#EXT-X-STREAM-INF:"@) {
        assert(text.take(18)[0] == '#' && text.take(18)[7] == 'S');
        if begins(line, "#EXT-X-MEDIA-SEQUENCE:"@) {
            assert(text.take(22)[7] == 'M');
        }
    }
    if begins(line, "#EXT-X-MEDIA-SEQUENCE:"@) {
        assert(text.take(22)[0] == '#');
    }
}

/// An address line adds one entry, whose address is the whole line: it is a quality if one was
/// announced since the last address, else a segment under the key that holds. Nothing else is
/// changed by it.
pub proof fn law_an_address_line_is_taken_whole(lines: Seq<Seq<char>>, line: Seq<char>)
    requires
        is_address_line(line),
    ensures
        ({
            let old = outline_of(lines);
            let new = outline_of(lines.push(line));
            &&& new.entries.len() == old.entries.len() + 1
            &&& new.entries.drop_last() == old.entries
            &&& new.entries.last().address == trimmed(line)
            &&& new.entries.last().info == old.pending
            &&& new.entries.last().key == old.key
            &&& new.pending is None
            &&& new.key == old.key && new.sequence == old.sequence && new.encrypted == old.encrypted
        }),
{
    lemma_kinds(line);
    assert(lines.push(line).drop_last() =~= lines);
    assert(outline_of(lines.push(line)).entries.drop_last() =~= outline_of(lines).entries);
}

/// A blank line, a comment and a tag of another name change nothing.
pub proof fn law_other_lines_change_nothing(lines: Seq<Seq<char>>, line: Seq<char>)
    requires
        !is_address_line(line),
        !begins(line, "#EXT-X-KEY"@),
        !begins(line, "#EXT-X-STREAM-INF:"@),
        !begins(line, "#EXT-X-MEDIA-SEQUENCE:"@),
    ensures
        outline_of(lines.push(line)) == outline_of(lines),
{
    lemma_kinds(line);
    assert(lines.push(line).drop_last() =~= lines);
}

/// A key line holds from there on, and changes no entry that was listed before it.
pub proof fn law_a_key_line_changes_the_key(lines: Seq<Seq<char>>, line: Seq<char>)
    requires
        begins(line, "#EXT-X-KEY"@),
    ensures
        ({
            let old = outline_of(lines);
            let new = outline_of(lines.push(line));
            &&& new.encrypted
            &&& new.key == key_in(trimmed(line).skip(10))
            &&& new.entries == old.entries && new.pending == old.pending && new.sequence
                == old.sequence
        }),
{
    lemma_kinds(line);
    assert(lines.push(line).drop_last() =~= lines);
}

/// A quality line announces the quality whose address comes next, and changes nothing else.
pub proof fn law_a_quality_line_announces_a_quality(lines: Seq<Seq<char>>, line: Seq<char>)
    requires
        begins(line, "#EXT-X-STREAM-INF:"@),
    ensures
        ({
            let old = outline_of(lines);
            let new = outline_of(lines.push(line));
            &&& new.pending == Some(variant_info(trimmed(line).skip(18)))
            &&& new.entries == old.entries && new.key == old.key && new.sequence == old.sequence
            &&& new.encrypted == old.encrypted
        }),
{
    lemma_kinds(line);
    assert(lines.push(line).drop_last() =~= lines);
}

/// A sequence line states the number of the first segment, and changes nothing else.
pub proof fn law_a_sequence_line_states_the_first_number(lines: Seq<Seq<char>>, line: Seq<char>)
    requires
        begins(line, "#EXT-X-MEDIA-SEQUENCE:"@),
    ensures
        ({
            let old = outline_of(lines);
            let new = outline_of(lines.push(line));
            let stated = unsigned(trimmed(trimmed(line).skip(22)));
            &&& new.sequence == (if stated is Some {
                stated->0
            } else {
                old.sequence
            })
            &&& new.entries == old.entries && new.key == old.key && new.pending == old.pending
            &&& new.encrypted == old.encrypted
        }),
{
    lemma_kinds(line);
    assert(lines.push(line).drop_last() =~= lines);
}

/// A playlist without lines lists nothing, is not encrypted, and counts from zero.
pub proof fn law_nothing_is_listed_at_first()
    ensures
        outline_of(Seq::empty()).entries.len() == 0,
        outline_of(Seq::empty()).pending is None,
        outline_of(Seq::empty()).key == HlsKeyView::Plain,
        outline_of(Seq::empty()).sequence == 0,
        !outline_of(Seq::empty()).encrypted,
{
}

proof fn lemma_addresses(lines: Seq<Seq<char>>)
    ensures
        outline_of(lines).entries.len() == address_lines(lines).len(),
        forall|i: int|
            0 <= i < address_lines(lines).len() ==> (#[trigger] outline_of(lines).entries[i]).address
                == address_lines(lines)[i],
    decreases lines.len(),
{
    if lines.len() > 0 {
        lemma_addresses(lines.drop_last());
        lemma_kinds(lines.last());
    }
}

proof fn lemma_places(base: Seq<char>, entries: Seq<HlsEntryView>)
    requires
        resolved(base, entries) is Ok,
    ensures
        resolved(base, entries)->Ok_0.len() == entries.len(),
        forall|i: int|
            0 <= i < entries.len() ==> place_of(base, entries[i]) == Ok::<_, Seq<char>>(
                #[trigger] resolved(base, entries)->Ok_0[i],
            ),
    decreases entries.len(),
{
    if entries.len() > 0 {
        lemma_places(base, entries.drop_last());
    }
}

/// A playlist that announces no quality lists its address lines as segments, each in full, in
/// their order, and joined to the address of the playlist.
pub proof fn law_segments_are_the_address_lines(base: Seq<char>, text: Seq<char>, i: int)
    requires
        playlist_of(base, text) is Ok,
        forall|k: int|
            0 <= k < split(text, '\n').len() ==> !begins(
                #[trigger] split(text, '\n')[k],
                "#EXT-X-STREAM-INF:"@,
            ),
        0 <= i < address_lines(split(text, '\n')).len(),
    ensures
        playlist_of(base, text)->Ok_0.segments.len() == address_lines(split(text, '\n')).len(),
        playlist_of(base, text)->Ok_0.variants.len() == 0,
        joined_url(base, address_lines(split(text, '\n'))[i]) == Ok::<_, Seq<char>>(
            playlist_of(base, text)->Ok_0.segments[i],
        ),
{
    let lines = split(text, '\n');
    let outline = outline_of(lines);
    lemma_addresses(lines);
    lemma_places(base, outline.entries);
    let places = resolved(base, outline.entries)->Ok_0;
    assert forall|k: int| 0 <= k < lines.len() implies !(line_kind(#[trigger] lines[k]) is Quality) by {
        assert(!begins(lines[k], "#EXT-X-STREAM-INF:"@));
        lemma_kinds(lines[k]);
    }
    law_media_playlist_lists_segments_in_order(lines, places, i);
    assert(place_of(base, outline.entries[i]) == Ok::<_, Seq<char>>(places[i]));
    assert(outline.entries[i].address == address_lines(lines)[i]);
    assert(playlist_of(base, text)->Ok_0.segments[i] == places[i].url);
}

/// Each segment is encrypted under the key that holds at its line: not at all, or with AES-128
/// under the key at the key's address, joined to that of the playlist, and with the initial
/// number that is given, else with the number of the segment.
pub proof fn law_segments_are_encrypted_as_their_keys_say(base: Seq<char>, text: Seq<char>, i: int)
    requires
        playlist_of(base, text) is Ok,
        forall|k: int|
            0 <= k < split(text, '\n').len() ==> !begins(
                #[trigger] split(text, '\n')[k],
                "#EXT-X-STREAM-INF:"@,
            ),
        0 <= i < address_lines(split(text, '\n')).len(),
        i <= u64::MAX,
    ensures
        ({
            let outline = outline_of(split(text, '\n'));
            let cipher = playlist_of(base, text)->Ok_0.ciphers[i];
            match outline.entries[i].key {
                HlsKeyView::Plain => cipher is Plain,
                HlsKeyView::Refused => cipher is Refused,
                HlsKeyView::Aes { uri, iv } => match joined_url(base, uri) {
                    Err(_) => cipher is Refused,
                    Ok(url) => {
                        &&& cipher is Aes
                        &&& cipher->url == url
                        &&& iv is Some ==> cipher->iv == iv->0
                        &&& iv is None ==> cipher->iv == outline.sequence + i
                    },
                },
            }
        }),
{
    let lines = split(text, '\n');
    let outline = outline_of(lines);
    lemma_addresses(lines);
    lemma_places(base, outline.entries);
    let places = resolved(base, outline.entries)->Ok_0;
    assert forall|k: int| 0 <= k < lines.len() implies !(line_kind(#[trigger] lines[k]) is Quality) by {
        assert(!begins(lines[k], "#EXT-X-STREAM-INF:"@));
        lemma_kinds(lines[k]);
    }
    law_media_playlist_lists_segments_in_order(lines, places, i);
    crate::hls_laws::lemma_no_quality(lines);
    assert(place_of(base, outline.entries[i]) == Ok::<_, Seq<char>>(places[i]));
    assert(outline.entries[i].info is None);
}

proof fn lemma_variants(entries: Seq<HlsEntryView>, places: Seq<HlsPlaceView>)
    requires
        entries.len() <= places.len(),
        forall|i: int| 0 <= i < entries.len() ==> (#[trigger] entries[i]).info is Some,
    ensures
        variants_of(entries, places).len() == entries.len(),
        segments_of(entries, places).len() == 0,
        forall|i: int|
            0 <= i < entries.len() ==> {
                &&& (#[trigger] variants_of(entries, places)[i]).url == places[i].url
                &&& variants_of(entries, places)[i].bandwidth == entries[i].info->0.bandwidth
                &&& variants_of(entries, places)[i].resolution == entries[i].info->0.resolution
                &&& variants_of(entries, places)[i].codecs == entries[i].info->0.codecs
            },
    decreases entries.len(),
{
    if entries.len() > 0 {
        let rest = entries.drop_last();
        assert forall|i: int| 0 <= i < rest.len() implies (#[trigger] rest[i]).info is Some by {
            assert(entries[i] == rest[i]);
        }
        lemma_variants(rest, places);
        assert(entries[entries.len() - 1].info is Some);
    }
}

/// A playlist that announces a quality before each of its addresses offers them all, in their
/// order, each at its address line joined to the address of the playlist and as announced.
pub proof fn law_qualities_are_as_announced(base: Seq<char>, text: Seq<char>, i: int)
    requires
        playlist_of(base, text) is Ok,
        forall|k: int|
            0 <= k < outline_of(split(text, '\n')).entries.len() ==> (
            #[trigger] outline_of(split(text, '\n')).entries[k]).info is Some,
        0 <= i < address_lines(split(text, '\n')).len(),
    ensures
        ({
            let playlist = playlist_of(base, text)->Ok_0;
            let info = outline_of(split(text, '\n')).entries[i].info->0;
            &&& playlist.segments.len() == 0
            &&& playlist.variants.len() == address_lines(split(text, '\n')).len()
            &&& joined_url(base, address_lines(split(text, '\n'))[i]) == Ok::<_, Seq<char>>(
                playlist.variants[i].url,
            )
            &&& playlist.variants[i].bandwidth == info.bandwidth
            &&& playlist.variants[i].resolution == info.resolution
            &&& playlist.variants[i].codecs == info.codecs
        }),
{
    let lines = split(text, '\n');
    let outline = outline_of(lines);
    lemma_addresses(lines);
    lemma_places(base, outline.entries);
    let places = resolved(base, outline.entries)->Ok_0;
    lemma_variants(outline.entries, places);
    assert(place_of(base, outline.entries[i]) == Ok::<_, Seq<char>>(places[i]));
    assert(outline.entries[i].address == address_lines(lines)[i]);
    assert(playlist_of(base, text)->Ok_0.variants[i].url == places[i].url);
}

/// Whether a text has none of the characters that an attribute list is written with.
pub open spec fn is_plain_word(text: Seq<char>) -> bool {
    &&& trimmed(text) == text
    &&& !text.contains('"')
    &&& !text.contains(',')
    &&& !text.contains('=')
}

proof fn lemma_no_quotes(text: Seq<char>)
    requires
        !text.contains('"'),
    ensures
        !in_quotes(text),
        unquoted(text) == text,
    decreases text.len(),
{
    reveal_with_fuel(Seq::filter, 1);
    if text.len() > 0 {
        let rest = text.drop_last();
        assert(!rest.contains('"')) by {
            if rest.contains('"') {
                let k = choose|k: int| 0 <= k < rest.len() && rest[k] == '"';
                assert(text[k] == '"');
            }
        }
        lemma_no_quotes(rest);
        assert(text[text.len() - 1] != '"');
        assert(unquoted(text) =~= text);
    } else {
        assert(unquoted(text) =~= text);
    }
}

proof fn lemma_one_field(text: Seq<char>)
    requires
        forall|i: int| 0 <= i < text.len() && text[i] == ',' ==> in_quotes(#[trigger] text.take(i)),
    ensures
        fields(text) == seq![text],
    decreases text.len(),
{
    if text.len() > 0 {
        let rest = text.drop_last();
        assert forall|i: int| 0 <= i < rest.len() && rest[i] == ',' implies in_quotes(
            #[trigger] rest.take(i),
        ) by {
            assert(rest.take(i) =~= text.take(i));
            assert(text[i] == ',');
        }
        lemma_one_field(rest);
        assert(text.take(text.len() - 1) =~= rest);
        assert(text.last() == ',' ==> in_quotes(rest));
        assert(rest.push(text.last()) =~= text);
        assert(fields(text) =~= seq![text]);
    } else {
        assert(text =~= Seq::<char>::empty());
        assert(fields(text) =~= seq![text]);
    }
}

proof fn lemma_clean(value: Seq<char>)
    requires
        trimmed(value) == value,
        !value.contains('"'),
    ensures
        cleaned(value) == value,
{
    if value.len() > 0 {
        assert(value.contains(value[0]));
        assert(value.contains(value.last()));
    }
}

proof fn lemma_name_and_value(name: Seq<char>, written: Seq<char>)
    requires
        !name.contains('='),
    ensures
        before(name + seq!['='] + written, '=') == name,
        after(name + seq!['='] + written, '=') == Some(written),
{
    let text = name + seq!['='] + written;
    lemma_first_at(text, '=');
    let at = first_at(text, '=');
    assert(text[name.len() as int] == '=');
    if at < name.len() {
        assert(name.contains(name[at]));
    }
    assert(at == name.len());
    assert(before(text, '=') =~= name);
    assert(after(text, '=')->0 =~= written);
}

/// An attribute that is written as a name, an equals sign and a value is read so.
pub proof fn law_attributes_read_back(name: Seq<char>, value: Seq<char>)
    requires
        is_plain_word(name),
        name.len() > 0,
        is_plain_word(value),
    ensures
        attributes_of(fields(name + seq!['='] + value)) == seq![(name, value)],
        !in_quotes(name + seq!['='] + value),
{
    let text = name + seq!['='] + value;
    lemma_name_and_value(name, value);
    assert forall|i: int| 0 <= i < text.len() implies text[i] != ',' && text[i] != '"' by {
        if i < name.len() {
            assert(name.contains(name[i]));
        } else if i > name.len() {
            assert(value.contains(value[i - name.len() - 1]));
        }
    }
    lemma_one_field(text);
    lemma_no_quotes(text);
    lemma_no_quotes(name);
    lemma_no_quotes(value);
    lemma_clean(value);
    assert(attributes_of(Seq::<Seq<char>>::empty()) =~= Seq::<(Seq<char>, Seq<char>)>::empty());
    assert(seq![text].drop_last() =~= Seq::<Seq<char>>::empty());
    assert(attributes_of(seq![text]) =~= seq![(name, value)]);
}

proof fn lemma_quoted(value: Seq<char>, head: Seq<char>)
    requires
        !head.contains('"'),
        !value.contains('"'),
    ensures
        in_quotes(head + seq!['"'] + value),
    decreases value.len(),
{
    let text = head + seq!['"'] + value;
    if value.len() == 0 {
        lemma_no_quotes(head);
        assert(text.drop_last() =~= head);
    } else {
        let rest = value.drop_last();
        assert(!rest.contains('"')) by {
            if rest.contains('"') {
                let k = choose|k: int| 0 <= k < rest.len() && rest[k] == '"';
                assert(value[k] == '"');
            }
        }
        lemma_quoted(rest, head);
        assert(text.drop_last() =~= head + seq!['"'] + rest);
        assert(value.contains(value.last()));
    }
}

proof fn lemma_filter_around(value: Seq<char>)
    requires
        !value.contains('"'),
    ensures
        unquoted(seq!['"'] + value + seq!['"']) == value,
{
    let mark = seq!['"'];
    let keep = |c: char| c != '"';
    lemma_no_quotes(value);
    reveal_with_fuel(Seq::filter, 2);
    assert(mark.drop_last() =~= Seq::<char>::empty());
    assert(mark.filter(keep) =~= Seq::<char>::empty());
    Seq::filter_distributes_over_add(mark, value, keep);
    Seq::filter_distributes_over_add(mark + value, mark, keep);
    assert(unquoted(mark + value + mark) =~= value);
}

/// An attribute whose value stands in quotation marks is read with what stands between them,
/// commas and equals signs too.
#[verifier::rlimit(60)]
#[verifier::spinoff_prover]
pub proof fn law_quoted_attributes_read_back(name: Seq<char>, value: Seq<char>)
    requires
        is_plain_word(name),
        name.len() > 0,
        trimmed(value) == value,
        !value.contains('"'),
    ensures
        attributes_of(fields(name + seq!['='] + (seq!['"'] + value + seq!['"']))) == seq![
            (name, value),
        ],
        !in_quotes(name + seq!['='] + (seq!['"'] + value + seq!['"'])),
{
    let written = seq!['"'] + value + seq!['"'];
    let text = name + seq!['='] + written;
    let head = name + seq!['='];
    assert(!head.contains('"')) by {
        if head.contains('"') {
            let k = choose|k: int| 0 <= k < head.len() && head[k] == '"';
            assert(name.contains(name[k]));
        }
    }
    lemma_name_and_value(name, written);
    assert forall|i: int| 0 <= i < text.len() && text[i] == ',' implies in_quotes(
        #[trigger] text.take(i),
    ) by {
        if i < name.len() {
            assert(name.contains(name[i]));
        }
        let from = head.len() as int;
        assert(i > from && i < text.len() - 1);
        let piece = value.take(i - from - 1);
        assert(!piece.contains('"')) by {
            if piece.contains('"') {
                let k = choose|k: int| 0 <= k < piece.len() && piece[k] == '"';
                assert(value[k] == '"');
            }
        }
        lemma_quoted(piece, head);
        assert(text.take(i) =~= head + seq!['"'] + piece);
    }
    lemma_one_field(text);
    lemma_quoted(value, head);
    assert(text.drop_last() =~= head + seq!['"'] + value);
    lemma_no_quotes(name);
    lemma_filter_around(value);
    lemma_clean(value);
    assert(attributes_of(Seq::<Seq<char>>::empty()) =~= Seq::<(Seq<char>, Seq<char>)>::empty());
    assert(seq![text].drop_last() =~= Seq::<Seq<char>>::empty());
    assert(attributes_of(seq![text]) =~= seq![(name, value)]);
}

/// What a quality's attributes say: its resolution and codecs are the last of those names, and
/// its bandwidth is that of the last attribute of that name, or the average while none is known.
/// Any other attribute says nothing.
pub proof fn law_attributes_describe_the_quality(
    list: Seq<(Seq<char>, Seq<char>)>,
    name: Seq<char>,
    value: Seq<char>,
)
    ensures
        ({
            let old = info_of(list);
            let new = info_of(list.push((name, value)));
            &&& new.resolution == (if name == "RESOLUTION"@ {
                Some(value)
            } else {
                old.resolution
            })
            &&& new.codecs == (if name == "CODECS"@ {
                Some(value)
            } else {
                old.codecs
            })
            &&& new.bandwidth == (if name == "BANDWIDTH"@ || (name == "AVERAGE-BANDWIDTH"@
                && old.bandwidth is None) {
                unsigned(value)
            } else {
                old.bandwidth
            })
        }),
        info_of(Seq::empty()).bandwidth is None,
        info_of(Seq::empty()).resolution is None,
        info_of(Seq::empty()).codecs is None,
{
    reveal_strlit("RESOLUTION");
    reveal_strlit("CODECS");
    reveal_strlit("BANDWIDTH");
    reveal_strlit("AVERAGE-BANDWIDTH");
    assert("RESOLUTION"@.len() == 10 && "CODECS"@.len() == 6 && "BANDWIDTH"@.len() == 9
        && "AVERAGE-BANDWIDTH"@.len() == 17);
    assert(list.push((name, value)).drop_last() =~= list);
}

/// What an attribute list gives a name is the value of the last attribute of that name.
pub proof fn law_the_last_attribute_of_a_name_counts(
    list: Seq<(Seq<char>, Seq<char>)>,
    wanted: Seq<char>,
    name: Seq<char>,
    value: Seq<char>,
)
    ensures
        attribute(list.push((name, value)), wanted) == (if name == wanted {
            Some(value)
        } else {
            attribute(list, wanted)
        }),
        attribute(Seq::empty(), wanted) is None,
{
    assert(list.push((name, value)).drop_last() =~= list);
}

/// The hexadecimal digits are 0 to 9 and the letters a to f in both cases.
pub proof fn law_hexadecimal_digits_have_their_values(c: char)
    ensures
        48 <= c as int <= 57 ==> hex_value(c) == Some((c as int - 48) as u128),
        97 <= c as int <= 102 ==> hex_value(c) == Some((c as int - 87) as u128),
        65 <= c as int <= 70 ==> hex_value(c) == Some((c as int - 55) as u128),
        !(48 <= c as int <= 57) && !(97 <= c as int <= 102) && !(65 <= c as int <= 70)
            ==> hex_value(c) is None,
{
}

#[verifier::rlimit(60)]
#[verifier::spinoff_prover]
proof fn lemma_sixteen_to_all()
    ensures
        crate::hls::sixteen_to(32) == 0x1_0000_0000_0000_0000_0000_0000_0000_0000nat,
{
    reveal_with_fuel(crate::hls::sixteen_to, 33);
}

/// An initial number is read digit by digit: with one more digit behind it, it counts sixteen
/// times as much and that digit; it has at most thirty-two digits.
#[verifier::rlimit(60)]
#[verifier::spinoff_prover]
pub proof fn law_initial_numbers_are_read_in_sixteens(text: Seq<char>, n: u128, c: char)
    requires
        initial_number(text) == Some(n),
    ensures
        text.len() < 34 ==> match hex_value(c) {
            Some(digit) => initial_number(text.push(c)) == Some((16 * n + digit) as u128),
            None => initial_number(text.push(c)) is None,
        },
        text.len() >= 34 ==> initial_number(text.push(c)) is None,
        text.len() >= 3 && text[0] == '0' && (text[1] == 'x' || text[1] == 'X'),
{
    let longer = text.push(c).skip(2);
    assert(longer.drop_last() =~= text.skip(2));
    assert(longer.last() == c);
    let m = hex_number(text.skip(2))->0;
    lemma_hex_bound(text.skip(2));
    lemma_sixteen_to_all();
    crate::hls::lemma_sixteen_grows(text.skip(2).len(), 32);
    assert(m == n);
}

proof fn lemma_hex_bound(digits: Seq<char>)
    ensures
        hex_number(digits) matches Some(n) ==> n < crate::hls::sixteen_to(digits.len()),
    decreases digits.len(),
{
    if digits.len() > 0 {
        lemma_hex_bound(digits.drop_last());
    }
}

/// An initial number of one digit.
pub proof fn law_initial_numbers_begin_with_a_mark(text: Seq<char>)
    requires
        text.len() == 3,
    ensures
        initial_number(text) == (if text[0] == '0' && (text[1] == 'x' || text[1] == 'X') {
            hex_value(text[2])
        } else {
            None
        }),
{
    reveal_with_fuel(hex_number, 2);
    assert(text.skip(2) =~= seq![text[2]]);
    assert(seq![text[2]].drop_last() =~= Seq::<char>::empty());
}

/// A key line with the method `NONE` ends encryption; one with AES-128, an address and no other
/// key format than the plain one encrypts with the key there, and every other is refused.
pub proof fn law_keys_are_plain_or_aes_or_refused(list: Seq<(Seq<char>, Seq<char>)>)
    ensures
        ({
            let method = attribute(list, "METHOD"@);
            let plain_format = attribute(list, "KEYFORMAT"@) is None || attribute(
                list,
                "KEYFORMAT"@,
            )->0 == "identity"@;
            let number = attribute(list, "IV"@);
            match key_of(list) {
                HlsKeyView::Plain => method is Some && method->0 == "NONE"@,
                HlsKeyView::Aes { uri, iv } => {
                    &&& method is Some && method->0 == "AES-128"@
                    &&& attribute(list, "URI"@) == Some(uri)
                    &&& plain_format
                    &&& number is None <==> iv is None
                    &&& number is Some ==> initial_number(number->0) == iv
                },
                HlsKeyView::Refused => {
                    ||| method is None
                    ||| method->0 != "NONE"@ && method->0 != "AES-128"@
                    ||| method->0 == "AES-128"@ && (attribute(list, "URI"@) is None || !plain_format
                        || number is Some && initial_number(number->0) is None)
                },
            }
        }),
{
    reveal_strlit("NONE");
    reveal_strlit("AES-128");
    assert("NONE"@.len() == 4 && "AES-128"@.len() == 7);
}

/// What follows the name of a key line is its attributes, after a colon.
pub proof fn law_a_key_line_has_a_colon(text: Seq<char>)
    ensures
        key_in(seq![':'] + text) == key_of(attributes_of(fields(text))),
        text.len() == 0 || text[0] != ':' ==> key_in(text) is Refused,
{
    assert((seq![':'] + text).skip(1) =~= text);
}

/// Of two ranked qualities the first has more bandwidth, or as much and a resolution whose text
/// comes no earlier; a quality without a bandwidth counts as one with none, and one without a
/// resolution comes last among its equals.
pub proof fn law_ranked_qualities_go_down(list: Seq<HlsVariantView>, i: int, j: int)
    requires
        0 <= i < j < ranked(list).len(),
    ensures
        ({
            let a = ranked(list)[i];
            let b = ranked(list)[j];
            let more = if a.bandwidth is Some {
                a.bandwidth->0 as int
            } else {
                0
            };
            let less = if b.bandwidth is Some {
                b.bandwidth->0 as int
            } else {
                0
            };
            &&& more >= less
            &&& more == less && b.resolution is Some ==> a.resolution is Some && text_le(
                b.resolution->0,
                a.resolution->0,
            )
        }),
{
    law_ranked_is_in_order(list);
}

/// The quality that is chosen has more bandwidth than every one after it, and no less than any.
pub proof fn law_the_chosen_quality_has_the_most_bandwidth(
    list: Seq<HlsVariantView>,
    at: int,
    other: int,
)
    requires
        is_highest(list, at),
        0 <= other < list.len(),
    ensures
        0 <= at < list.len(),
        list[other].bandwidth is Some ==> {
            &&& list[other].bandwidth->0 > 0 ==> list[at].bandwidth is Some
            &&& list[at].bandwidth is Some ==> list[at].bandwidth->0 >= list[other].bandwidth->0
            &&& list[at].bandwidth is Some && other > at ==> list[at].bandwidth->0
                > list[other].bandwidth->0
        },
        other > at ==> list[at].bandwidth is Some && list[at].bandwidth->0 > 0,
{
}

/// The quality that is taken is one that none exceeds, and the last of these.
pub proof fn law_the_last_of_the_highest_is_taken(list: Seq<HlsVariantView>, at: int)
    requires
        0 <= at < list.len(),
        list[at].bandwidth is Some,
        list[at].bandwidth->0 > 0,
        forall|k: int|
            0 <= k <= at && (#[trigger] list[k]).bandwidth is Some ==> list[k].bandwidth->0
                <= list[at].bandwidth->0,
        forall|k: int|
            at < k < list.len() && (#[trigger] list[k]).bandwidth is Some ==> list[k].bandwidth->0
                < list[at].bandwidth->0,
    ensures
        is_highest(list, at),
{
}

/// What is said of a playlist that cannot be used: the trouble with its address, or that it
/// offers no quality.
pub proof fn law_unusable_playlists_are_explained(reason: Seq<char>)
    ensures
        error_text(HlsErrorView::BadAddress(reason)) == reason,
        error_text(HlsErrorView::NoVariant) == "HLS master playlist 没有可用清晰度"@,
{
}

proof fn lemma_as_many_ciphers(
    entries: Seq<HlsEntryView>,
    places: Seq<HlsPlaceView>,
    sequence: u64,
)
    ensures
        ciphers_of(entries, places, sequence).len() == segments_of(entries, places).len(),
    decreases entries.len(),
{
    if entries.len() > 0 {
        lemma_as_many_ciphers(entries.drop_last(), places, sequence);
    }
}

/// Each address without a quality is one segment more, and one with a quality is one quality
/// more. The segments are numbered one by one from the number that is stated, qualities aside, and
/// that number serves where a key gives no other.
pub proof fn law_segments_are_numbered_one_by_one(
    entries: Seq<HlsEntryView>,
    entry: HlsEntryView,
    places: Seq<HlsPlaceView>,
    sequence: u64,
)
    requires
        places.len() == entries.len() + 1,
    ensures
        ({
            let all = entries.push(entry);
            let place = places[entries.len() as int];
            let segments = segments_of(entries, places);
            let ciphers = ciphers_of(entries, places, sequence);
            let variants = variants_of(entries, places);
            &&& entry.info is None ==> {
                &&& segments_of(all, places) == segments.push(place.url)
                &&& variants_of(all, places) == variants
                &&& ciphers_of(all, places, sequence).len() == segments.len() + 1
                &&& ciphers_of(all, places, sequence).drop_last() == ciphers
                &&& entry.key is Aes && entry.key->iv is None && place.key_url is Some
                    ==> ciphers_of(all, places, sequence).last() == (HlsCipherView::Aes {
                    url: place.key_url->0,
                    iv: (sequence + segments.len()) as u128,
                })
            }
            &&& entry.info is Some ==> {
                &&& segments_of(all, places) == segments
                &&& ciphers_of(all, places, sequence) == ciphers
                &&& variants_of(all, places).len() == variants.len() + 1
                &&& variants_of(all, places).drop_last() == variants
                &&& variants_of(all, places).last().url == place.url
            }
        }),
{
    let all = entries.push(entry);
    assert(all.drop_last() =~= entries);
    lemma_as_many_ciphers(entries, places, sequence);
    if entry.info is None {
        assert(ciphers_of(all, places, sequence).drop_last() =~= ciphers_of(
            entries,
            places,
            sequence,
        ));
    } else {
        assert(variants_of(all, places).drop_last() =~= variants_of(entries, places));
    }
}

} // verus!
