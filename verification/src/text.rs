//! Operations on text, stated over sequences of characters.

use crate::lists::each;
use vstd::prelude::*;

verus! {

/// `String::push`: the character is appended to the end of the string.
pub assume_specification[ String::push ](text: &mut String, c: char)
    ensures
        final(text)@ == old(text)@.push(c),
;

/// The ASCII lower case form of a character; every other character is kept.
pub open spec fn lower_char(c: char) -> char {
    if 'A' <= c <= 'Z' {
        ((c as u32) + 32) as char
    } else {
        c
    }
}

/// The text with its ASCII capitals in lower case.
pub open spec fn lower(text: Seq<char>) -> Seq<char> {
    Seq::new(text.len(), |i: int| lower_char(text[i]))
}

/// The ASCII lower case form of a character.
pub fn to_lower_char(c: char) -> (r: char)
    ensures
        r == lower_char(c),
{
    if c >= 'A' && c <= 'Z' {
        (c as u8 + 32) as char
    } else {
        c
    }
}

/// The characters of a text.
pub fn chars_of(text: &str) -> (r: Vec<char>)
    ensures
        r@ == text@,
{
    let mut out: Vec<char> = Vec::new();
    for c in it: text.chars()
        invariant
            it.seq() == text@,
            out@ == text@.take(it.index() as int),
    {
        out.push(c);
    }
    out
}

/// The text in ASCII lower case.
pub fn to_lower(text: &str) -> (r: String)
    ensures
        r@ == lower(text@),
{
    let mut out = String::new();
    for c in it: text.chars()
        invariant
            it.seq() == text@,
            out@ == lower(text@.take(it.index() as int)),
    {
        out.push(to_lower_char(c));
    }
    proof {
        assert(text@.take(text@.len() as int) == text@);
    }
    out
}

/// The characters of the Unicode `White_Space` property.
pub open spec fn is_space(c: char) -> bool {
    let n = c as u32;
    ||| 0x9 <= n <= 0xd
    ||| n == 0x20
    ||| n == 0x85
    ||| n == 0xa0
    ||| n == 0x1680
    ||| 0x2000 <= n <= 0x200a
    ||| 0x2028 <= n <= 0x2029
    ||| n == 0x202f
    ||| n == 0x205f
    ||| n == 0x3000
}

/// Whether a character is white space.
pub fn is_white_space(c: char) -> (r: bool)
    ensures
        r == is_space(c),
{
    let n: u32 = c as u32;
    (n >= 0x9 && n <= 0xd) || n == 0x20 || n == 0x85 || n == 0xa0 || n == 0x1680 || (n >= 0x2000
        && n <= 0x200a) || n == 0x2028 || n == 0x2029 || n == 0x202f || n == 0x205f || n == 0x3000
}

/// The text without its leading white space.
pub open spec fn without_leading_space(text: Seq<char>) -> Seq<char>
    decreases text.len(),
{
    if text.len() > 0 && is_space(text[0]) {
        without_leading_space(text.drop_first())
    } else {
        text
    }
}

/// The text without its trailing white space.
pub open spec fn without_trailing_space(text: Seq<char>) -> Seq<char>
    decreases text.len(),
{
    if text.len() > 0 && is_space(text.last()) {
        without_trailing_space(text.drop_last())
    } else {
        text
    }
}

/// The text without white space at either end.
pub open spec fn trimmed(text: Seq<char>) -> Seq<char> {
    without_trailing_space(without_leading_space(text))
}

/// The text without white space at either end.
pub fn trim<'a>(text: &'a str) -> (r: &'a str)
    ensures
        r@ == trimmed(text@),
{
    let chars = chars_of(text);
    let mut from: usize = 0;
    proof {
        assert(text@.skip(0) == text@);
    }
    while from < chars.len() && is_white_space(chars[from])
        invariant
            chars@ == text@,
            from <= chars.len(),
            without_leading_space(text@.skip(from as int)) == without_leading_space(text@),
        decreases chars.len() - from,
    {
        proof {
            assert(text@.skip(from as int).drop_first() == text@.skip(from + 1));
        }
        from = from + 1;
    }
    let ghost body = text@.skip(from as int);
    assert(without_leading_space(text@) == body);
    let mut to: usize = chars.len();
    proof {
        assert(text@.subrange(from as int, to as int) == body);
    }
    while to > from && is_white_space(chars[to - 1])
        invariant
            chars@ == text@,
            from <= to <= chars.len(),
            without_trailing_space(text@.subrange(from as int, to as int))
                == without_trailing_space(body),
        decreases to - from,
    {
        proof {
            let cut = text@.subrange(from as int, to as int);
            assert(cut.last() == text@[to - 1]);
            assert(cut.drop_last() == text@.subrange(from as int, to - 1));
        }
        to = to - 1;
    }
    proof {
        let cut = text@.subrange(from as int, to as int);
        if to > from {
            assert(cut.last() == text@[to - 1]);
        }
    }
    text.substring_char(from, to)
}

/// Whether the text is empty or all white space.
pub fn is_blank(text: &str) -> (r: bool)
    ensures
        r == (trimmed(text@).len() == 0),
{
    trim(text).is_empty()
}

/// Whether two texts hold the same characters.
pub fn same_text(a: &str, b: &str) -> (r: bool)
    ensures
        r == (a@ == b@),
{
    let left = chars_of(a);
    let right = chars_of(b);
    if left.len() != right.len() {
        return false;
    }
    let mut i: usize = 0;
    while i < left.len()
        invariant
            left@ == a@,
            right@ == b@,
            left.len() == right.len(),
            i <= left.len(),
            forall|k: int| 0 <= k < i ==> left@[k] == right@[k],
        decreases left.len() - i,
    {
        if left[i] != right[i] {
            return false;
        }
        i = i + 1;
    }
    proof {
        assert(a@ =~= b@);
    }
    true
}

/// Whether two texts agree up to ASCII case.
pub fn same_text_ignoring_case(a: &str, b: &str) -> (r: bool)
    ensures
        r == (lower(a@) == lower(b@)),
{
    same_text(to_lower(a).as_str(), to_lower(b).as_str())
}

/// Whether `part` occurs in `text` at position `at`.
pub open spec fn occurs_at(text: Seq<char>, part: Seq<char>, at: int) -> bool {
    &&& 0 <= at
    &&& at + part.len() <= text.len()
    &&& text.subrange(at, at + part.len()) == part
}

/// Whether `part` occurs somewhere in `text`.
pub open spec fn holds(text: Seq<char>, part: Seq<char>) -> bool {
    exists|at: int| occurs_at(text, part, at)
}

fn occurs_here(text: &Vec<char>, part: &Vec<char>, at: usize) -> (r: bool)
    requires
        at + part.len() <= text.len(),
    ensures
        r == occurs_at(text@, part@, at as int),
{
    let mut i: usize = 0;
    while i < part.len()
        invariant
            at + part.len() <= text.len(),
            i <= part.len(),
            forall|k: int| 0 <= k < i ==> text@[at + k] == part@[k],
        decreases part.len() - i,
    {
        if text[at + i] != part[i] {
            proof {
                assert(text@.subrange(at as int, at + part@.len())[i as int] == text@[at + i]);
            }
            return false;
        }
        i = i + 1;
    }
    proof {
        assert(text@.subrange(at as int, at + part@.len()) =~= part@);
    }
    true
}

/// Whether `part` occurs somewhere in `text`.
pub fn has_part(text: &str, part: &str) -> (r: bool)
    ensures
        r == holds(text@, part@),
{
    let t = chars_of(text);
    let p = chars_of(part);
    if p.len() > t.len() {
        return false;
    }
    let last: usize = t.len() - p.len();
    let mut at: usize = 0;
    loop
        invariant
            t@ == text@,
            p@ == part@,
            p.len() <= t.len(),
            last == t.len() - p.len(),
            at <= last,
            forall|k: int| 0 <= k < at ==> !occurs_at(text@, part@, k),
        decreases last - at,
    {
        if occurs_here(&t, &p, at) {
            return true;
        }
        if at == last {
            proof {
                assert forall|k: int| !occurs_at(text@, part@, k) by {
                    if k < at {
                    }
                }
            }
            return false;
        }
        at = at + 1;
    }
}

/// Whether `text` begins with `part`.
pub fn begins_with(text: &str, part: &str) -> (r: bool)
    ensures
        r == part@.is_prefix_of(text@),
{
    let t = chars_of(text);
    let p = chars_of(part);
    p.len() <= t.len() && occurs_here(&t, &p, 0)
}

/// Whether `text` ends with `part`.
pub fn finishes_with(text: &str, part: &str) -> (r: bool)
    ensures
        r == part@.is_suffix_of(text@),
{
    let t = chars_of(text);
    let p = chars_of(part);
    p.len() <= t.len() && occurs_here(&t, &p, t.len() - p.len())
}

/// The position of the first `c` in the text, or the text's length if it holds none.
pub open spec fn first_at(text: Seq<char>, c: char) -> int
    decreases text.len(),
{
    if text.len() == 0 || text[0] == c {
        0
    } else {
        1 + first_at(text.drop_first(), c)
    }
}

/// What stands before the first `c`: the whole text if there is none.
pub open spec fn before(text: Seq<char>, c: char) -> Seq<char> {
    text.take(first_at(text, c))
}

/// What stands after the first `c`, if there is one.
pub open spec fn after(text: Seq<char>, c: char) -> Option<Seq<char>> {
    if first_at(text, c) < text.len() {
        Some(text.skip(first_at(text, c) + 1))
    } else {
        None
    }
}

/// What stands after the last `c`: the whole text if there is none.
pub open spec fn last_piece(text: Seq<char>, c: char) -> Seq<char>
    decreases text.len(),
{
    if text.len() == 0 || text.last() == c {
        Seq::empty()
    } else {
        last_piece(text.drop_last(), c).push(text.last())
    }
}

/// `first_at` is where the first `c` stands.
pub proof fn lemma_first_at(text: Seq<char>, c: char)
    ensures
        0 <= first_at(text, c) <= text.len(),
        forall|k: int| 0 <= k < first_at(text, c) ==> text[k] != c,
        first_at(text, c) < text.len() ==> text[first_at(text, c)] == c,
    decreases text.len(),
{
    if text.len() > 0 && text[0] != c {
        let rest = text.drop_first();
        lemma_first_at(rest, c);
        assert forall|k: int| 0 <= k < first_at(text, c) implies text[k] != c by {
            if k > 0 {
                assert(text[k] == rest[k - 1]);
            }
        }
    }
}

fn position_of(text: &Vec<char>, c: char) -> (r: usize)
    ensures
        r == first_at(text@, c),
        r <= text@.len(),
{
    let mut i: usize = 0;
    proof {
        lemma_first_at(text@, c);
    }
    while i < text.len() && text[i] != c
        invariant
            i <= text.len(),
            0 <= first_at(text@, c) <= text@.len(),
            first_at(text@, c) < text@.len() ==> text@[first_at(text@, c)] == c,
            forall|k: int| 0 <= k < first_at(text@, c) ==> text@[k] != c,
            forall|k: int| 0 <= k < i ==> text@[k] != c,
        decreases text.len() - i,
    {
        i = i + 1;
    }
    i
}

/// What stands before the first `c`: the whole text if there is none.
pub fn piece_before<'a>(text: &'a str, c: char) -> (r: &'a str)
    ensures
        r@ == before(text@, c),
{
    let chars = chars_of(text);
    let at = position_of(&chars, c);
    text.substring_char(0, at)
}

/// What stands after the first `c`, if there is one.
pub fn piece_after<'a>(text: &'a str, c: char) -> (r: Option<&'a str>)
    ensures
        r is Some <==> after(text@, c) is Some,
        r matches Some(rest) ==> after(text@, c) == Some(rest@),
{
    let chars = chars_of(text);
    let at = position_of(&chars, c);
    if at < chars.len() {
        Some(text.substring_char(at + 1, chars.len()))
    } else {
        None
    }
}

/// What stands after the last `c`: the whole text if there is none.
pub fn final_piece<'a>(text: &'a str, c: char) -> (r: &'a str)
    ensures
        r@ == last_piece(text@, c),
{
    let chars = chars_of(text);
    let mut from: usize = chars.len();
    proof {
        assert(text@.take(text@.len() as int) == text@);
        assert(text@.skip(text@.len() as int) == Seq::<char>::empty());
    }
    while from > 0 && chars[from - 1] != c
        invariant
            chars@ == text@,
            from <= chars.len(),
            last_piece(text@, c) == last_piece(text@.take(from as int), c) + text@.skip(
                from as int,
            ),
        decreases from,
    {
        proof {
            let head = text@.take(from as int);
            assert(head.drop_last() == text@.take(from - 1));
            assert(last_piece(head.drop_last(), c).push(head.last()) + text@.skip(from as int)
                =~= last_piece(head.drop_last(), c) + text@.skip(from - 1));
        }
        from = from - 1;
    }
    proof {
        assert(last_piece(text@.take(from as int), c) == Seq::<char>::empty());
    }
    text.substring_char(from, chars.len())
}

/// The pieces of a text between the occurrences of a separator: one more than
/// there are separators.
pub open spec fn split(text: Seq<char>, sep: char) -> Seq<Seq<char>>
    decreases text.len(),
{
    if text.len() == 0 {
        seq![Seq::empty()]
    } else {
        let pieces = split(text.drop_last(), sep);
        if text.last() == sep {
            pieces.push(Seq::empty())
        } else {
            pieces.drop_last().push(pieces.last().push(text.last()))
        }
    }
}

/// A split has at least one piece.
pub proof fn lemma_split_len(text: Seq<char>, sep: char)
    ensures
        split(text, sep).len() >= 1,
    decreases text.len(),
{
    if text.len() > 0 {
        lemma_split_len(text.drop_last(), sep);
    }
}

/// The pieces of a text between the occurrences of a separator.
pub fn split_at_each(text: &str, sep: char) -> (r: Vec<String>)
    ensures
        each(r@) == split(text@, sep),
{
    let mut pieces: Vec<String> = Vec::new();
    let mut piece = String::new();
    for c in it: text.chars()
        invariant
            it.seq() == text@,
            each(pieces@).push(piece@) == split(text@.take(it.index() as int), sep),
    {
        let ghost read = text@.take(it.index() as int);
        let ghost next = text@.take(it.index() + 1);
        proof {
            assert(next.drop_last() == read);
            assert(next.last() == c);
            assert(each(pieces@).push(piece@).drop_last() == each(pieces@));
        }
        if c == sep {
            let ghost was = pieces@;
            pieces.push(piece);
            proof {
                assert(each(pieces@) == each(was).push(piece@));
            }
            piece = String::new();
        } else {
            piece.push(c);
        }
    }
    let ghost was = pieces@;
    pieces.push(piece);
    proof {
        assert(text@.take(text@.len() as int) == text@);
        assert(each(pieces@) == each(was).push(piece@));
    }
    pieces
}

/// The texts one after the other, with `sep` between them.
pub open spec fn joined(list: Seq<Seq<char>>, sep: Seq<char>) -> Seq<char>
    decreases list.len(),
{
    if list.len() == 0 {
        Seq::empty()
    } else if list.len() == 1 {
        list[0]
    } else {
        joined(list.drop_last(), sep) + sep + list.last()
    }
}

/// The strings one after the other, with `sep` between them.
pub fn join(list: &Vec<String>, sep: &str) -> (r: String)
    ensures
        r@ == joined(each(list@), sep@),
{
    let mut out = String::new();
    let mut i: usize = 0;
    proof {
        assert(each(list@).take(0) == Seq::<Seq<char>>::empty());
    }
    while i < list.len()
        invariant
            i <= list.len(),
            out@ == joined(each(list@).take(i as int), sep@),
        decreases list.len() - i,
    {
        proof {
            let next = each(list@).take(i + 1);
            assert(next.drop_last() == each(list@).take(i as int));
        }
        if i > 0 {
            out.append(sep);
        }
        out.append(list[i].as_str());
        i = i + 1;
    }
    proof {
        assert(each(list@).take(list.len() as int) == each(list@));
    }
    out
}

/// The order of texts by their characters, first difference first; a prefix comes
/// before what it begins.
pub open spec fn text_le(a: Seq<char>, b: Seq<char>) -> bool
    decreases a.len(),
{
    if a.len() == 0 {
        true
    } else if b.len() == 0 {
        false
    } else if a[0] != b[0] {
        a[0] < b[0]
    } else {
        text_le(a.drop_first(), b.drop_first())
    }
}

proof fn lemma_text_le_total(a: Seq<char>, b: Seq<char>)
    ensures
        text_le(a, a),
        text_le(a, b) || text_le(b, a),
        text_le(a, b) && text_le(b, a) ==> a == b,
    decreases a.len(),
{
    if a.len() == 0 {
        if b.len() == 0 {
            assert(a =~= b);
        }
    } else {
        if b.len() > 0 {
            lemma_text_le_total(a.drop_first(), b.drop_first());
            if text_le(a, b) && text_le(b, a) {
                assert(a =~= seq![a[0]] + a.drop_first());
                assert(b =~= seq![b[0]] + b.drop_first());
            }
        } else {
            lemma_text_le_total(a.drop_first(), a.drop_first());
        }
    }
}

proof fn lemma_text_le_transitive(a: Seq<char>, b: Seq<char>, c: Seq<char>)
    requires
        text_le(a, b),
        text_le(b, c),
    ensures
        text_le(a, c),
    decreases a.len(),
{
    if a.len() > 0 && a[0] == b[0] && b[0] == c[0] {
        lemma_text_le_transitive(a.drop_first(), b.drop_first(), c.drop_first());
    }
}

/// `text_le` is a total order.
pub proof fn lemma_text_order()
    ensures
        vstd::relations::total_ordering(|a: Seq<char>, b: Seq<char>| text_le(a, b)),
{
    let le = |a: Seq<char>, b: Seq<char>| text_le(a, b);
    assert forall|x: Seq<char>| #[trigger] le(x, x) by {
        lemma_text_le_total(x, x);
    }
    assert forall|x: Seq<char>, y: Seq<char>| #[trigger] le(x, y) && #[trigger] le(y, x) implies x
        == y by {
        lemma_text_le_total(x, y);
    }
    assert forall|x: Seq<char>, y: Seq<char>, z: Seq<char>| #[trigger]
        le(x, y) && #[trigger] le(y, z) implies le(x, z) by {
        lemma_text_le_transitive(x, y, z);
    }
    assert forall|x: Seq<char>, y: Seq<char>| #[trigger] le(x, y) || #[trigger] le(y, x) by {
        lemma_text_le_total(x, y);
    }
}

/// Whether `a` comes before `b`, or is the same.
pub fn comes_first(a: &str, b: &str) -> (r: bool)
    ensures
        r == text_le(a@, b@),
{
    let left = chars_of(a);
    let right = chars_of(b);
    let mut i: usize = 0;
    proof {
        assert(a@.skip(0) == a@);
        assert(b@.skip(0) == b@);
    }
    loop
        invariant
            left@ == a@,
            right@ == b@,
            i <= left.len(),
            i <= right.len(),
            text_le(a@.skip(i as int), b@.skip(i as int)) == text_le(a@, b@),
        decreases left.len() - i,
    {
        if i == left.len() {
            return true;
        }
        if i == right.len() {
            return false;
        }
        if left[i] != right[i] {
            return left[i] < right[i];
        }
        proof {
            assert(a@.skip(i as int).drop_first() == a@.skip(i + 1));
            assert(b@.skip(i as int).drop_first() == b@.skip(i + 1));
        }
        i = i + 1;
    }
}

/// The texts in ascending order.
pub open spec fn sorted(list: Seq<Seq<char>>) -> Seq<Seq<char>> {
    list.sort_by(|a: Seq<char>, b: Seq<char>| text_le(a, b))
}

/// Puts the strings in ascending order.
pub fn sort_strings(list: Vec<String>) -> (r: Vec<String>)
    ensures
        each(r@) == sorted(each(list@)),
{
    let ghost le = |a: Seq<char>, b: Seq<char>| text_le(a, b);
    let mut out: Vec<String> = Vec::new();
    let mut i: usize = 0;
    proof {
        lemma_text_order();
        assert(each(out@) =~= each(list@).take(0));
    }
    while i < list.len()
        invariant
            i <= list.len(),
            le == (|a: Seq<char>, b: Seq<char>| text_le(a, b)),
            vstd::relations::total_ordering(le),
            vstd::relations::sorted_by(each(out@), le),
            each(out@).to_multiset() == each(list@).take(i as int).to_multiset(),
        decreases list.len() - i,
    {
        let mut at: usize = out.len();
        let ghost was = each(out@);
        let ghost x = list@[i as int]@;
        while at > 0 && !comes_first(out[at - 1].as_str(), list[i].as_str())
            invariant
                i < list.len(),
                at <= out.len(),
                was == each(out@),
                x == list@[i as int]@,
                le == (|a: Seq<char>, b: Seq<char>| text_le(a, b)),
                vstd::relations::total_ordering(le),
                vstd::relations::sorted_by(was, le),
                forall|k: int| at <= k < was.len() ==> #[trigger] le(x, was[k]),
            decreases at,
        {
            proof {
                assert(le(was[at - 1], x) || le(x, was[at - 1]));
            }
            at = at - 1;
        }
        proof {
            assert forall|k: int| 0 <= k < at implies #[trigger] le(was[k], x) by {
                if k < at - 1 {
                    assert(le(was[k], was[at - 1]));
                }
                assert(le(was[at - 1], x));
            }
        }
        out.insert(at, list[i].clone());
        proof {
            broadcast use vstd::seq_lib::group_to_multiset_ensures;

            assert(each(out@) =~= was.insert(at as int, x));
            assert(was.insert(at as int, x) =~= was.take(at as int).push(x) + was.skip(at as int));
            lemma_insert_multiset(was, at as int, x);
            assert(each(list@).take(i + 1) =~= each(list@).take(i as int).push(x));
        }
        i = i + 1;
    }
    proof {
        assert(each(list@).take(list.len() as int) == each(list@));
        each(list@).lemma_sort_by_ensures(le);
        vstd::seq_lib::lemma_sorted_unique(each(out@), each(list@).sort_by(le), le);
    }
    out
}

proof fn lemma_insert_multiset<A>(s: Seq<A>, at: int, x: A)
    requires
        0 <= at <= s.len(),
    ensures
        s.insert(at, x).to_multiset() == s.to_multiset().insert(x),
{
    broadcast use vstd::seq_lib::group_to_multiset_ensures;

    let head = s.take(at);
    let tail = s.skip(at);
    assert(s =~= head + tail);
    assert(s.insert(at, x) =~= head.push(x) + tail);
    vstd::seq_lib::lemma_multiset_commutative(head, tail);
    vstd::seq_lib::lemma_multiset_commutative(head.push(x), tail);
    assert(s.insert(at, x).to_multiset() =~= s.to_multiset().insert(x));
}

/// The decimal digit of a number below ten.
pub open spec fn digit(n: nat) -> char {
    (('0' as u32) + n) as char
}

/// A natural number in decimal, without leading zeros.
pub open spec fn decimal(n: nat) -> Seq<char>
    decreases n,
{
    if n < 10 {
        seq![digit(n)]
    } else {
        decimal(n / 10).push(digit(n % 10))
    }
}

/// A number in decimal.
pub fn number(n: u64) -> (r: String)
    ensures
        r@ == decimal(n as nat),
    decreases n,
{
    if n < 10 {
        let mut out = String::new();
        out.push((48 + n as u8) as char);
        out
    } else {
        let mut out = number(n / 10);
        out.push((48 + (n % 10) as u8) as char);
        out
    }
}

/// Whether a character is an ASCII digit.
pub open spec fn is_digit(c: char) -> bool {
    '0' <= c <= '9'
}

/// The number that a row of decimal digits stands for.
pub open spec fn digits_value(digits: Seq<char>) -> nat
    decreases digits.len(),
{
    if digits.len() == 0 {
        0
    } else {
        digits_value(digits.drop_last()) * 10 + (digits.last() as u32 - '0' as u32) as nat
    }
}

/// Whether a text holds nothing but digits.
pub open spec fn all_digits(text: Seq<char>) -> bool {
    forall|i: int| 0 <= i < text.len() ==> is_digit(#[trigger] text[i])
}

/// The text without one leading plus sign.
pub open spec fn without_plus(text: Seq<char>) -> Seq<char> {
    if text.len() > 0 && text[0] == '+' {
        text.drop_first()
    } else {
        text
    }
}

/// The number that a text stands for: decimal digits, one plus sign allowed before
/// them, and no more than 64 bits hold.
pub open spec fn unsigned(text: Seq<char>) -> Option<u64> {
    let digits = without_plus(text);
    if digits.len() > 0 && all_digits(digits) && digits_value(digits) <= u64::MAX {
        Some(digits_value(digits) as u64)
    } else {
        None
    }
}

/// The number that a text stands for, if it stands for one.
pub fn parse_unsigned(text: &str) -> (r: Option<u64>)
    ensures
        r == unsigned(text@),
{
    let chars = chars_of(text);
    let start: usize = if chars.len() > 0 && chars[0] == '+' {
        1
    } else {
        0
    };
    let ghost digits = text@.skip(start as int);
    proof {
        if start == 1 {
            assert(digits == text@.drop_first());
        } else {
            assert(digits == text@);
        }
    }
    if start == chars.len() {
        return None;
    }
    let mut i: usize = start;
    let mut value: u64 = 0;
    let mut fits = true;
    while i < chars.len()
        invariant
            chars@ == text@,
            start <= i <= chars.len(),
            digits == chars@.skip(start as int),
            digits == without_plus(text@),
            forall|k: int| 0 <= k < i - start ==> is_digit(#[trigger] digits[k]),
            fits ==> value == digits_value(digits.take(i - start)),
            !fits ==> digits_value(digits.take(i - start)) > u64::MAX,
        decreases chars.len() - i,
    {
        let c = chars[i];
        proof {
            assert(digits[i - start] == c);
            assert(digits.take(i + 1 - start).drop_last() == digits.take(i - start));
        }
        if c < '0' || c > '9' {
            proof {
                assert(!is_digit(digits[i - start]));
            }
            return None;
        }
        let d: u64 = (c as u32 - 48) as u64;
        if fits {
            if value > (u64::MAX - d) / 10 {
                fits = false;
            } else {
                value = value * 10 + d;
            }
        }
        i = i + 1;
    }
    proof {
        assert(digits.take(chars.len() - start) == digits);
    }
    if fits {
        Some(value)
    } else {
        None
    }
}

} // verus!
