//! What holds of every text: how its characters, pieces, order and numbers relate.

use crate::text::{
    after, before, decimal, first_at, is_space, joined, last_piece, lemma_first_at,
    lemma_split_len, lemma_text_order, lower, lower_char, sorted, split, text_le, trimmed,
    unsigned, digits_value, all_digits, without_plus, is_digit, holds, occurs_at,
    without_leading_space, without_trailing_space,
};
use vstd::prelude::*;

verus! {

/// Whether two characters are the same, or the two cases of one ASCII letter.
pub open spec fn same_letter(a: char, b: char) -> bool {
    ||| a == b
    ||| 65 <= a as int <= 90 && b as int == a as int + 32
    ||| 65 <= b as int <= 90 && a as int == b as int + 32
}

/// Whether two texts are the same but for the case of ASCII letters.
pub open spec fn same_but_case(a: Seq<char>, b: Seq<char>) -> bool {
    &&& a.len() == b.len()
    &&& forall|i: int| 0 <= i < a.len() ==> same_letter(#[trigger] a[i], b[i])
}

/// Whether a part stands somewhere in a text, ASCII case aside.
pub open spec fn mentions(text: Seq<char>, part: Seq<char>) -> bool {
    exists|at: int|
        0 <= at && at + part.len() <= text.len() && #[trigger] same_but_case(
            text.subrange(at, at + part.len()),
            part,
        )
}

/// Lower case changes the 26 capitals of ASCII to their small letters, and nothing else.
pub proof fn law_lower_case_changes_capitals_alone(text: Seq<char>, i: int)
    requires
        0 <= i < text.len(),
    ensures
        lower(text).len() == text.len(),
        65 <= text[i] as int <= 90 ==> lower(text)[i] as int == text[i] as int + 32,
        !(65 <= text[i] as int <= 90) ==> lower(text)[i] == text[i],
{
}

proof fn lemma_lower_letters(a: char, b: char)
    ensures
        lower_char(a) == lower_char(b) <==> same_letter(a, b),
{
}

/// Two texts have one lower case form if and only if they are the same but for ASCII case.
pub proof fn law_lower_case_tells_texts_apart(a: Seq<char>, b: Seq<char>)
    ensures
        lower(a) == lower(b) <==> same_but_case(a, b),
{
    if lower(a) == lower(b) {
        assert(lower(a).len() == lower(b).len());
        assert forall|i: int| 0 <= i < a.len() implies same_letter(#[trigger] a[i], b[i]) by {
            assert(lower(a)[i] == lower(b)[i]);
            lemma_lower_letters(a[i], b[i]);
        }
    }
    if same_but_case(a, b) {
        assert forall|i: int| 0 <= i < a.len() implies #[trigger] lower(a)[i] == lower(b)[i] by {
            assert(same_letter(a[i], b[i]));
            lemma_lower_letters(a[i], b[i]);
        }
        assert(lower(a) =~= lower(b));
    }
}

/// A text in lower case holds a part in lower case if and only if the text mentions it.
pub proof fn law_parts_are_found_in_any_case(text: Seq<char>, part: Seq<char>)
    ensures
        holds(lower(text), lower(part)) <==> mentions(text, part),
{
    let low = lower(text);
    if holds(low, lower(part)) {
        let at = choose|at: int| occurs_at(low, lower(part), at);
        let piece = text.subrange(at, at + part.len());
        assert(low.subrange(at, at + part.len()) =~= lower(piece));
        law_lower_case_tells_texts_apart(piece, part);
        assert(same_but_case(piece, part));
    }
    if mentions(text, part) {
        let at = choose|at: int|
            0 <= at && at + part.len() <= text.len() && #[trigger] same_but_case(
                text.subrange(at, at + part.len()),
                part,
            );
        let piece = text.subrange(at, at + part.len());
        law_lower_case_tells_texts_apart(piece, part);
        assert(low.subrange(at, at + part.len()) =~= lower(piece));
        assert(occurs_at(low, lower(part), at));
    }
}

/// A text holds a part if and only if it is some text, the part and some text.
pub proof fn law_a_held_part_has_something_around_it(text: Seq<char>, part: Seq<char>)
    ensures
        holds(text, part) <==> exists|head: Seq<char>, tail: Seq<char>|
            text == #[trigger] (head + part + tail),
{
    if holds(text, part) {
        let at = choose|at: int| occurs_at(text, part, at);
        let head = text.take(at);
        let tail = text.skip(at + part.len());
        assert(text =~= head + part + tail);
    }
    if exists|head: Seq<char>, tail: Seq<char>| text == #[trigger] (head + part + tail) {
        let (head, tail) = choose|head: Seq<char>, tail: Seq<char>|
            text == #[trigger] (head + part + tail);
        assert(text.subrange(head.len() as int, (head.len() + part.len()) as int) =~= part);
        assert(occurs_at(text, part, head.len() as int));
    }
}

/// The characters that count as white space.
pub proof fn law_white_space_is_that_of_unicode(c: char)
    ensures
        is_space(c) <==> seq![
            0x9int, 0xa, 0xb, 0xc, 0xd, 0x20, 0x85, 0xa0, 0x1680, 0x2000, 0x2001, 0x2002, 0x2003,
            0x2004, 0x2005, 0x2006, 0x2007, 0x2008, 0x2009, 0x200a, 0x2028, 0x2029, 0x202f, 0x205f,
            0x3000,
        ].contains(c as int),
{
    let list = seq![
        0x9int, 0xa, 0xb, 0xc, 0xd, 0x20, 0x85, 0xa0, 0x1680, 0x2000, 0x2001, 0x2002, 0x2003,
        0x2004, 0x2005, 0x2006, 0x2007, 0x2008, 0x2009, 0x200a, 0x2028, 0x2029, 0x202f, 0x205f,
        0x3000,
    ];
    let n = c as int;
    if 0x9 <= n <= 0xd {
        assert(list[n - 9] == n);
    } else if n == 0x20 {
        assert(list[5] == n);
    } else if n == 0x85 {
        assert(list[6] == n);
    } else if n == 0xa0 {
        assert(list[7] == n);
    } else if n == 0x1680 {
        assert(list[8] == n);
    } else if 0x2000 <= n <= 0x200a {
        assert(list[9 + n - 0x2000] == n);
    } else if 0x2028 <= n <= 0x2029 {
        assert(list[20 + n - 0x2028] == n);
    } else if n == 0x202f {
        assert(list[22] == n);
    } else if n == 0x205f {
        assert(list[23] == n);
    } else if n == 0x3000 {
        assert(list[24] == n);
    }
}

spec fn all_space(text: Seq<char>) -> bool {
    forall|i: int| 0 <= i < text.len() ==> is_space(#[trigger] text[i])
}

proof fn lemma_leading(text: Seq<char>) -> (gone: Seq<char>)
    ensures
        text == gone + without_leading_space(text),
        all_space(gone),
        without_leading_space(text).len() > 0 ==> !is_space(without_leading_space(text)[0]),
    decreases text.len(),
{
    if text.len() > 0 && is_space(text[0]) {
        let rest = lemma_leading(text.drop_first());
        let gone = seq![text[0]] + rest;
        let kept = without_leading_space(text.drop_first());
        assert(text =~= seq![text[0]] + text.drop_first());
        assert(seq![text[0]] + (rest + kept) =~= gone + kept);
        gone
    } else {
        assert(text =~= Seq::<char>::empty() + text);
        Seq::empty()
    }
}

proof fn lemma_trailing(text: Seq<char>) -> (gone: Seq<char>)
    ensures
        text == without_trailing_space(text) + gone,
        all_space(gone),
        without_trailing_space(text).len() > 0 ==> !is_space(without_trailing_space(text).last()),
        without_trailing_space(text).len() > 0 ==> without_trailing_space(text)[0] == text[0],
    decreases text.len(),
{
    if text.len() > 0 && is_space(text.last()) {
        let rest = lemma_trailing(text.drop_last());
        let gone = rest.push(text.last());
        let kept = without_trailing_space(text.drop_last());
        assert(text =~= text.drop_last().push(text.last()));
        assert((kept + rest).push(text.last()) =~= kept + gone);
        gone
    } else {
        assert(text =~= text + Seq::<char>::empty());
        Seq::empty()
    }
}

/// Trimming takes away white space at both ends, all of it, and nothing else.
pub proof fn law_trimming_takes_white_space_at_the_ends(text: Seq<char>)
    ensures
        exists|head: Seq<char>, tail: Seq<char>|
            {
                &&& text == #[trigger] (head + trimmed(text) + tail)
                &&& forall|i: int| 0 <= i < head.len() ==> is_space(#[trigger] head[i])
                &&& forall|i: int| 0 <= i < tail.len() ==> is_space(#[trigger] tail[i])
            },
        trimmed(text).len() > 0 ==> !is_space(trimmed(text)[0]) && !is_space(trimmed(text).last()),
{
    let head = lemma_leading(text);
    let tail = lemma_trailing(without_leading_space(text));
    assert(text =~= head + trimmed(text) + tail);
}

/// What stands before and after the first of some character, with it between them, is the text.
pub proof fn law_before_and_after_make_up_the_text(text: Seq<char>, c: char)
    ensures
        !before(text, c).contains(c),
        text.contains(c) ==> after(text, c) is Some && text == before(text, c) + seq![c] + after(
            text,
            c,
        )->0,
        !text.contains(c) ==> after(text, c) is None && before(text, c) == text,
{
    lemma_first_at(text, c);
    let at = first_at(text, c);
    if text.contains(c) {
        let k = choose|k: int| 0 <= k < text.len() && text[k] == c;
        assert(at <= k);
        assert(text =~= before(text, c) + seq![c] + after(text, c)->0);
    } else {
        if at < text.len() {
            assert(text.contains(text[at]));
        }
        assert(before(text, c) =~= text);
    }
}

/// The last piece of a text has no separator in it, and one before it unless it is the whole.
pub proof fn law_the_last_piece_follows_the_last_separator(text: Seq<char>, c: char)
    ensures
        !last_piece(text, c).contains(c),
        exists|head: Seq<char>|
            text == #[trigger] (head + last_piece(text, c)) && (head.len() == 0 || head.last() == c),
    decreases text.len(),
{
    if text.len() == 0 || text.last() == c {
        assert(text =~= text + Seq::<char>::empty());
        assert(text == text + last_piece(text, c));
    } else {
        let rest = text.drop_last();
        law_the_last_piece_follows_the_last_separator(rest, c);
        let head = choose|head: Seq<char>|
            rest == #[trigger] (head + last_piece(rest, c)) && (head.len() == 0 || head.last() == c);
        assert(text =~= rest.push(text.last()));
        assert((head + last_piece(rest, c)).push(text.last()) =~= head + last_piece(text, c));
        if last_piece(text, c).contains(c) {
            let k = choose|k: int|
                0 <= k < last_piece(text, c).len() && last_piece(text, c)[k] == c;
            if k < last_piece(rest, c).len() {
                assert(last_piece(rest, c).contains(c));
            }
        }
    }
}

/// The pieces of a text, with the separator between them again, are the text; and no piece has
/// a separator in it.
pub proof fn law_pieces_make_up_the_text(text: Seq<char>, sep: char)
    ensures
        joined(split(text, sep), seq![sep]) == text,
        split(text, sep).len() >= 1,
        forall|i: int| 0 <= i < split(text, sep).len() ==> !(#[trigger] split(text, sep)[i]).contains(sep),
    decreases text.len(),
{
    let pieces = split(text, sep);
    if text.len() == 0 {
        assert(text =~= Seq::<char>::empty());
    } else {
        let rest = text.drop_last();
        let fewer = split(rest, sep);
        law_pieces_make_up_the_text(rest, sep);
        lemma_split_len(rest, sep);
        if text.last() == sep {
            assert(pieces.drop_last() =~= fewer);
            assert(joined(pieces, seq![sep]) =~= text);
        } else {
            let last = fewer.last();
            assert(pieces.drop_last() =~= fewer.drop_last());
            if fewer.len() == 1 {
                assert(joined(fewer, seq![sep]) == fewer[0]);
            }
            assert(joined(pieces, seq![sep]) =~= joined(fewer, seq![sep]).push(text.last()));
            assert(joined(pieces, seq![sep]) =~= text);
            assert forall|i: int| 0 <= i < pieces.len() implies !(#[trigger] pieces[i]).contains(
                sep,
            ) by {
                if i < fewer.len() - 1 {
                    assert(pieces[i] == fewer[i]);
                } else {
                    assert(!fewer[i].contains(sep));
                    if pieces[i].contains(sep) {
                        let k = choose|k: int| 0 <= k < pieces[i].len() && pieces[i][k] == sep;
                        assert(fewer[i][k] == sep);
                    }
                }
            }
        }
    }
}

/// Texts put together stand one after the other, with the separator between two of them.
pub proof fn law_texts_are_joined_in_order(list: Seq<Seq<char>>, text: Seq<char>, sep: Seq<char>)
    ensures
        joined(Seq::empty(), sep) == Seq::<char>::empty(),
        joined(seq![text], sep) == text,
        list.len() > 0 ==> joined(list.push(text), sep) == joined(list, sep) + sep + text,
{
    assert(list.push(text).drop_last() =~= list);
}

/// A text comes before another if and only if it is its beginning, or at the first place where
/// they differ its character has the lower number.
pub proof fn law_texts_are_ordered_by_their_first_difference(a: Seq<char>, b: Seq<char>)
    ensures
        text_le(a, b) <==> {
            ||| a.is_prefix_of(b)
            ||| exists|i: int|
                {
                    &&& 0 <= i < a.len() && i < b.len()
                    &&& #[trigger] a.take(i) == b.take(i)
                    &&& (a[i] as int) < b[i] as int
                }
        },
    decreases a.len(),
{
    if a.len() == 0 {
        assert(a.is_prefix_of(b)) by {
            assert(b.subrange(0, 0) =~= a);
        }
    } else if b.len() > 0 {
        if a[0] == b[0] {
            let x = a.drop_first();
            let y = b.drop_first();
            law_texts_are_ordered_by_their_first_difference(x, y);
            if x.is_prefix_of(y) {
                assert(b.subrange(0, a.len() as int) =~= seq![b[0]] + y.subrange(0, x.len() as int));
                assert(a =~= seq![a[0]] + x);
                assert(a.is_prefix_of(b));
            }
            if a.is_prefix_of(b) {
                assert(y.subrange(0, x.len() as int) =~= b.subrange(0, a.len() as int).drop_first());
                assert(x.is_prefix_of(y));
            }
            if exists|i: int|
                0 <= i < x.len() && i < y.len() && #[trigger] x.take(i) == y.take(i) && (x[i] as int)
                    < y[i] as int {
                let i = choose|i: int|
                    0 <= i < x.len() && i < y.len() && #[trigger] x.take(i) == y.take(i) && (
                    x[i] as int) < y[i] as int;
                assert(a.take(i + 1) =~= seq![a[0]] + x.take(i));
                assert(b.take(i + 1) =~= seq![b[0]] + y.take(i));
                assert(a.take(i + 1) == b.take(i + 1));
            }
            if exists|i: int|
                0 <= i < a.len() && i < b.len() && #[trigger] a.take(i) == b.take(i) && (a[i] as int)
                    < b[i] as int {
                let i = choose|i: int|
                    0 <= i < a.len() && i < b.len() && #[trigger] a.take(i) == b.take(i) && (
                    a[i] as int) < b[i] as int;
                assert(i > 0);
                assert(x.take(i - 1) =~= a.take(i).drop_first());
                assert(y.take(i - 1) =~= b.take(i).drop_first());
                assert(x.take(i - 1) == y.take(i - 1));
            }
        } else {
            if a.is_prefix_of(b) {
                assert(b.subrange(0, a.len() as int)[0] == a[0]);
            }
            assert(a.take(0) =~= b.take(0));
            if exists|i: int|
                0 <= i < a.len() && i < b.len() && #[trigger] a.take(i) == b.take(i) && (a[i] as int)
                    < b[i] as int {
                let i = choose|i: int|
                    0 <= i < a.len() && i < b.len() && #[trigger] a.take(i) == b.take(i) && (
                    a[i] as int) < b[i] as int;
                if i > 0 {
                    assert(a.take(i)[0] == b.take(i)[0]);
                }
            }
        }
    } else {
        if a.is_prefix_of(b) {
            assert(a.len() <= b.len());
        }
    }
}

/// Sorting keeps every text as often as it is there, and puts none before one that comes first.
pub proof fn law_sorting_orders_and_keeps_all(list: Seq<Seq<char>>)
    ensures
        sorted(list).to_multiset() == list.to_multiset(),
        forall|i: int, j: int|
            0 <= i < j < sorted(list).len() ==> text_le(
                #[trigger] sorted(list)[i],
                #[trigger] sorted(list)[j],
            ),
{
    let le = |a: Seq<char>, b: Seq<char>| text_le(a, b);
    lemma_text_order();
    list.lemma_sort_by_ensures(le);
    assert forall|i: int, j: int| 0 <= i < j < sorted(list).len() implies text_le(
        #[trigger] sorted(list)[i],
        #[trigger] sorted(list)[j],
    ) by {
        assert(le(sorted(list)[i], sorted(list)[j]));
    }
}

/// A number is written digit by digit, the last one for the units, and never begins with a zero
/// but for zero itself.
pub proof fn law_numbers_are_written_in_tens(tens: nat, units: nat)
    requires
        units < 10,
    ensures
        decimal(units).len() == 1 && decimal(units)[0] as int == 48 + units,
        tens > 0 ==> decimal(10 * tens + units) == decimal(tens) + decimal(units),
{
    if tens > 0 {
        let n = 10 * tens + units;
        assert(n / 10 == tens && n % 10 == units);
        assert(decimal(n) =~= decimal(tens) + decimal(units));
    }
}

/// A number is read digit by digit: with one more digit behind it, it counts ten times as much
/// and that digit, as far as 64 bits hold it.
pub proof fn law_numbers_are_read_in_tens(text: Seq<char>, tens: u64, c: char)
    requires
        unsigned(text) == Some(tens),
    ensures
        unsigned(text.push(c)) == (if 48 <= c as int <= 57 && 10 * tens + (c as int - 48)
            <= u64::MAX {
            Some((10 * tens + (c as int - 48)) as u64)
        } else {
            None
        }),
{
    let digits = without_plus(text);
    let longer = without_plus(text.push(c));
    assert(longer =~= digits.push(c));
    assert(longer.drop_last() =~= digits);
    if 48 <= c as int <= 57 {
        assert forall|i: int| 0 <= i < longer.len() implies is_digit(#[trigger] longer[i]) by {
            if i < digits.len() {
                assert(is_digit(digits[i]));
            }
        }
    } else {
        assert(!is_digit(longer[digits.len() as int]));
    }
}

/// Only texts of digits are numbers; a plus sign before them is let through, and nothing else.
pub proof fn law_only_digits_are_numbers(text: Seq<char>)
    ensures
        text.len() == 0 ==> unsigned(text) is None,
        text.len() == 1 ==> unsigned(text) == (if 48 <= text[0] as int <= 57 {
            Some((text[0] as int - 48) as u64)
        } else {
            None
        }),
        text.len() > 1 && text[0] == '+' && text[1] != '+' ==> unsigned(text) == unsigned(
            text.drop_first(),
        ),
        (exists|i: int| 0 < i < text.len() && !(48 <= (#[trigger] text[i]) as int <= 57))
            ==> unsigned(text) is None,
        text.len() > 0 && text[0] != '+' && !(48 <= text[0] as int <= 57) ==> unsigned(text) is None,
{
    let digits = without_plus(text);
    if text.len() == 1 {
        reveal_with_fuel(digits_value, 2);
        if text[0] == '+' {
            assert(digits.len() == 0);
        } else {
            assert(digits == text);
            assert(!is_digit(text[0]) ==> !all_digits(digits));
        }
    }
    if text.len() > 1 && text[0] == '+' && text[1] != '+' {
        assert(without_plus(text.drop_first()) =~= text.drop_first());
    }
    if exists|i: int| 0 < i < text.len() && !(48 <= (#[trigger] text[i]) as int <= 57) {
        let i = choose|i: int| 0 < i < text.len() && !(48 <= (#[trigger] text[i]) as int <= 57);
        if text[0] == '+' {
            assert(!is_digit(digits[i - 1]));
        } else {
            assert(!is_digit(digits[i]));
        }
    }
    if text.len() > 0 && text[0] != '+' && !(48 <= text[0] as int <= 57) {
        assert(!is_digit(digits[0]));
    }
}

} // verus!
