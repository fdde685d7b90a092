//! HLS playlists: what they list, and which of their qualities is the highest.

use crate::lists::{each, maybe};
use crate::outside::{join_url, joined_url, parse_url, parsed_url};
use crate::state::{or_empty, HlsVariant, HlsVariantView};
use crate::text::{
    after, before, begins_with, chars_of, comes_first, first_at, is_blank, lemma_first_at,
    parse_unsigned, same_text, split, split_at_each, text_le, trim, trimmed, unsigned,
};
use vstd::prelude::*;

verus! {

/// Exchanges two neighbours.
fn swap_with_previous<T>(list: &mut [T], at: usize)
    requires
        1 <= at < old(list)@.len(),
    ensures
        final(list)@ == old(list)@.update(at as int, old(list)@[at - 1]).update(
            at - 1,
            old(list)@[at as int],
        ),
{
    let (left, right) = list.split_at_mut(at);
    if let Some(a) = left.last_mut() {
        if let Some(b) = right.first_mut() {
            std::mem::swap(a, b);
        }
    }
}

/// The bandwidth of a quality; none counts as 0.
pub open spec fn bandwidth_of(variant: HlsVariantView) -> u64 {
    match variant.bandwidth {
        Some(bandwidth) => bandwidth,
        None => 0,
    }
}

/// The order of resolutions by their text; none comes before any.
pub open spec fn resolution_le(a: Option<Seq<char>>, b: Option<Seq<char>>) -> bool {
    match (a, b) {
        (None, _) => true,
        (Some(_), None) => false,
        (Some(a), Some(b)) => text_le(a, b),
    }
}

/// Whether a quality is as high as another: its bandwidth is higher, or it is the same
/// and the resolution comes no earlier.
pub open spec fn as_high(a: HlsVariantView, b: HlsVariantView) -> bool {
    ||| bandwidth_of(a) > bandwidth_of(b)
    ||| bandwidth_of(a) == bandwidth_of(b) && resolution_le(b.resolution, a.resolution)
}

/// A list of qualities, highest first, with one more put in behind those as high.
pub open spec fn placed(list: Seq<HlsVariantView>, variant: HlsVariantView) -> Seq<HlsVariantView>
    decreases list.len(),
{
    if list.len() == 0 || as_high(list.last(), variant) {
        list.push(variant)
    } else {
        placed(list.drop_last(), variant).push(list.last())
    }
}

/// The qualities, highest first, equally high ones in their order.
pub open spec fn ranked(list: Seq<HlsVariantView>) -> Seq<HlsVariantView>
    decreases list.len(),
{
    if list.len() == 0 {
        list
    } else {
        placed(ranked(list.drop_last()), list.last())
    }
}

fn is_as_high(a: &HlsVariant, b: &HlsVariant) -> (r: bool)
    ensures
        r == as_high(a@, b@),
{
    let left = a.bandwidth.unwrap_or(0);
    let right = b.bandwidth.unwrap_or(0);
    if left != right {
        return left > right;
    }
    match (&b.resolution, &a.resolution) {
        (None, _) => true,
        (Some(_), None) => false,
        (Some(lower), Some(higher)) => comes_first(lower.as_str(), higher.as_str()),
    }
}

/// Ranking keeps the number of qualities.
pub proof fn lemma_ranked_len(list: Seq<HlsVariantView>)
    ensures
        ranked(list).len() == list.len(),
    decreases list.len(),
{
    if list.len() > 0 {
        lemma_ranked_len(list.drop_last());
        lemma_placed_len(ranked(list.drop_last()), list.last());
    }
}

proof fn lemma_placed_len(list: Seq<HlsVariantView>, variant: HlsVariantView)
    ensures
        placed(list, variant).len() == list.len() + 1,
    decreases list.len(),
{
    if list.len() > 0 && !as_high(list.last(), variant) {
        lemma_placed_len(list.drop_last(), variant);
    }
}

/// Puts the qualities in order, highest first.
pub fn sort_variants_highest_first(variants: &mut [HlsVariant])
    ensures
        each(final(variants)@) == ranked(each(old(variants)@)),
{
    let ghost all = each(variants@);
    let mut i: usize = 0;
    proof {
        assert(all.take(0) =~= Seq::<HlsVariantView>::empty());
        assert(ranked(all.take(0)) + all.skip(0) =~= all);
    }
    while i < variants.len()
        invariant
            i <= variants@.len(),
            variants@.len() == all.len(),
            each(variants@) == ranked(all.take(i as int)) + all.skip(i as int),
        decreases variants@.len() - i,
    {
        let ghost sorted = ranked(all.take(i as int));
        let ghost x = all[i as int];
        let ghost rest = all.skip(i + 1);
        let mut j: usize = i;
        proof {
            lemma_ranked_len(all.take(i as int));
            assert(each(variants@) =~= sorted.push(x) + rest);
            assert(sorted.take(i as int) =~= sorted);
            assert(sorted.skip(i as int) =~= Seq::<HlsVariantView>::empty());
            assert(placed(sorted, x) =~= placed(sorted.take(j as int), x) + sorted.skip(j as int));
            assert(each(variants@) =~= sorted.take(j as int).push(x) + sorted.skip(j as int) + rest);
            assert(each(variants@)[j as int] == x);
            if j > 0 {
                assert(each(variants@)[j - 1] == sorted[j - 1]);
            }
        }
        while j > 0 && !is_as_high(&variants[j - 1], &variants[j])
            invariant
                j <= i < variants@.len(),
                variants@.len() == all.len(),
                sorted.len() == i,
                rest == all.skip(i + 1),
                placed(sorted, x) == placed(sorted.take(j as int), x) + sorted.skip(j as int),
                each(variants@) == sorted.take(j as int).push(x) + sorted.skip(j as int) + rest,
                variants@[j as int]@ == x,
                j > 0 ==> variants@[j - 1]@ == sorted[j - 1],
            decreases j,
        {
            let ghost was = variants@;
            proof {
                assert(sorted.take(j as int).drop_last() =~= sorted.take(j - 1));
                assert(sorted.take(j as int).last() == sorted[j - 1]);
                assert(placed(sorted, x) =~= placed(sorted.take(j - 1), x) + sorted.skip(j - 1));
            }
            swap_with_previous(variants, j);
            j = j - 1;
            proof {
                assert(each(variants@) =~= each(was).update(j + 1, sorted[j as int]).update(
                    j as int,
                    x,
                ));
                assert(each(variants@) =~= sorted.take(j as int).push(x) + sorted.skip(j as int)
                    + rest);
                if j > 0 {
                    assert(each(variants@)[j - 1] == sorted[j - 1]);
                }
            }
        }
        proof {
            assert(all.take(i + 1).drop_last() =~= all.take(i as int));
            assert(ranked(all.take(i + 1)) == placed(sorted, x));
            if j > 0 {
                assert(sorted.take(j as int).last() == sorted[j - 1]);
            }
            assert(placed(sorted.take(j as int), x) == sorted.take(j as int).push(x));
            assert(each(variants@) =~= ranked(all.take(i + 1)) + all.skip(i + 1));
        }
        i = i + 1;
    }
    proof {
        assert(all.take(all.len() as int) =~= all);
        assert(all.skip(all.len() as int) =~= Seq::<HlsVariantView>::empty());
        assert(each(variants@) =~= ranked(all));
    }
}

/// Whether a quality is the last of those with the highest bandwidth.
pub open spec fn is_highest(list: Seq<HlsVariantView>, at: int) -> bool {
    &&& 0 <= at < list.len()
    &&& forall|k: int|
        0 <= k < list.len() ==> bandwidth_of(#[trigger] list[k]) <= bandwidth_of(list[at])
    &&& forall|k: int|
        at < k < list.len() ==> bandwidth_of(#[trigger] list[k]) < bandwidth_of(list[at])
}

/// Why a playlist cannot be used.
#[derive(Debug)]
pub enum HlsError {
    /// An address is none; the text says why.
    BadAddress(String),
    /// A master playlist offers no quality.
    NoVariant,
}

#[verifier::ext_equal]
pub enum HlsErrorView {
    BadAddress(Seq<char>),
    NoVariant,
}

impl View for HlsError {
    type V = HlsErrorView;

    open spec fn view(&self) -> HlsErrorView {
        match self {
            HlsError::BadAddress(reason) => HlsErrorView::BadAddress(reason@),
            HlsError::NoVariant => HlsErrorView::NoVariant,
        }
    }
}

/// An error in words.
pub open spec fn error_text(err: HlsErrorView) -> Seq<char> {
    match err {
        HlsErrorView::BadAddress(reason) => reason,
        HlsErrorView::NoVariant => "HLS master playlist 没有可用清晰度"@,
    }
}

impl HlsError {
    /// The error in words.
    pub fn message(&self) -> (r: String)
        ensures
            r@ == error_text(self@),
    {
        match self {
            HlsError::BadAddress(reason) => reason.clone(),
            HlsError::NoVariant => "HLS master playlist 没有可用清晰度".to_string(),
        }
    }
}

/// The quality with the highest bandwidth, the last one of several.
pub fn choose_highest_variant(variants: &[HlsVariant]) -> (r: Result<&HlsVariant, HlsError>)
    ensures
        r is Err <==> variants@.len() == 0,
        r matches Err(err) ==> err == HlsError::NoVariant,
        r matches Ok(variant) ==> exists|at: int|
            is_highest(each(variants@), at) && *variant == #[trigger] variants@[at],
{
    if variants.len() == 0 {
        return Err(HlsError::NoVariant);
    }
    let mut best: usize = 0;
    let mut i: usize = 1;
    while i < variants.len()
        invariant
            best < i <= variants@.len(),
            forall|k: int|
                0 <= k < i ==> bandwidth_of(#[trigger] each(variants@)[k]) <= bandwidth_of(
                    each(variants@)[best as int],
                ),
            forall|k: int|
                best < k < i ==> bandwidth_of(#[trigger] each(variants@)[k]) < bandwidth_of(
                    each(variants@)[best as int],
                ),
        decreases variants@.len() - i,
    {
        if variants[i].bandwidth.unwrap_or(0) >= variants[best].bandwidth.unwrap_or(0) {
            best = i;
        }
        i = i + 1;
    }
    assert(is_highest(each(variants@), best as int));
    Ok(&variants[best])
}

/// Whether the end of a text stands inside quotation marks.
pub open spec fn in_quotes(text: Seq<char>) -> bool
    decreases text.len(),
{
    if text.len() == 0 {
        false
    } else if text.last() == '"' {
        !in_quotes(text.drop_last())
    } else {
        in_quotes(text.drop_last())
    }
}

/// The pieces of a text between the commas outside quotation marks.
pub open spec fn fields(text: Seq<char>) -> Seq<Seq<char>>
    decreases text.len(),
{
    if text.len() == 0 {
        seq![Seq::empty()]
    } else {
        let pieces = fields(text.drop_last());
        if text.last() == ',' && !in_quotes(text.drop_last()) {
            pieces.push(Seq::empty())
        } else {
            pieces.drop_last().push(pieces.last().push(text.last()))
        }
    }
}

/// A text without its quotation marks.
pub open spec fn unquoted(text: Seq<char>) -> Seq<char> {
    text.filter(|c: char| c != '"')
}

/// A text without quotation marks at its start.
pub open spec fn without_leading_quotes(text: Seq<char>) -> Seq<char>
    decreases text.len(),
{
    if text.len() > 0 && text[0] == '"' {
        without_leading_quotes(text.drop_first())
    } else {
        text
    }
}

/// A text without quotation marks at its end.
pub open spec fn without_trailing_quotes(text: Seq<char>) -> Seq<char>
    decreases text.len(),
{
    if text.len() > 0 && text.last() == '"' {
        without_trailing_quotes(text.drop_last())
    } else {
        text
    }
}

/// The value of an attribute without white space and then without quotation marks at
/// its ends.
pub open spec fn cleaned(value: Seq<char>) -> Seq<char> {
    without_trailing_quotes(without_leading_quotes(trimmed(value)))
}

/// The value of an attribute without white space and then without quotation marks at
/// its ends.
pub fn clean_attr_value(value: &str) -> (r: String)
    ensures
        r@ == cleaned(value@),
{
    let text = trim(value);
    let chars = chars_of(text);
    let mut from: usize = 0;
    proof {
        assert(text@.skip(0) == text@);
    }
    while from < chars.len() && chars[from] == '"'
        invariant
            chars@ == text@,
            from <= chars.len(),
            without_leading_quotes(text@.skip(from as int)) == without_leading_quotes(text@),
        decreases chars.len() - from,
    {
        proof {
            assert(text@.skip(from as int).drop_first() == text@.skip(from + 1));
        }
        from = from + 1;
    }
    let ghost body = text@.skip(from as int);
    assert(without_leading_quotes(text@) == body);
    let mut to: usize = chars.len();
    proof {
        assert(text@.subrange(from as int, to as int) == body);
    }
    while to > from && chars[to - 1] == '"'
        invariant
            chars@ == text@,
            from <= to <= chars.len(),
            without_trailing_quotes(text@.subrange(from as int, to as int))
                == without_trailing_quotes(body),
        decreases to - from,
    {
        proof {
            let cut = text@.subrange(from as int, to as int);
            assert(cut.last() == text@[to - 1]);
            assert(cut.drop_last() == text@.subrange(from as int, to - 1));
        }
        to = to - 1;
    }
    proof {
        let cut = text@.subrange(from as int, to as int);
        if to > from {
            assert(cut.last() == text@[to - 1]);
        }
    }
    text.substring_char(from, to).to_string()
}

/// The name of the attribute that a field sets.
pub open spec fn field_name(field: Seq<char>) -> Seq<char> {
    trimmed(unquoted(before(field, '=')))
}

/// The attribute that a field sets: its name and its value.
pub open spec fn field_attribute(field: Seq<char>) -> (Seq<char>, Seq<char>) {
    (field_name(field), cleaned(unquoted(or_empty(after(field, '=')))))
}

/// The attributes that fields set, in their order; a field without a name sets none.
pub open spec fn attributes_of(list: Seq<Seq<char>>) -> Seq<(Seq<char>, Seq<char>)>
    decreases list.len(),
{
    if list.len() == 0 {
        Seq::empty()
    } else if field_name(list.last()).len() == 0 {
        attributes_of(list.drop_last())
    } else {
        attributes_of(list.drop_last()).push(field_attribute(list.last()))
    }
}

/// The texts of a list of pairs.
pub open spec fn pairs(list: Seq<(String, String)>) -> Seq<(Seq<char>, Seq<char>)> {
    Seq::new(list.len(), |i: int| (list[i].0@, list[i].1@))
}

proof fn lemma_unquoted_push(text: Seq<char>, c: char)
    ensures
        unquoted(text.push(c)) == (if c != '"' {
            unquoted(text).push(c)
        } else {
            unquoted(text)
        }),
{
    reveal_with_fuel(Seq::filter, 1);
    assert(text.push(c).drop_last() =~= text);
}

proof fn lemma_push_to_field(field: Seq<char>, c: char)
    ensures
        after(field, '=') is None ==> before(field, '=') == field,
        after(field, '=') is None && c == '=' ==> {
            &&& before(field.push(c), '=') == field
            &&& after(field.push(c), '=') == Some(Seq::<char>::empty())
        },
        after(field, '=') is None && c != '=' ==> {
            &&& before(field.push(c), '=') == field.push(c)
            &&& after(field.push(c), '=') is None
        },
        after(field, '=') is Some ==> {
            &&& before(field.push(c), '=') == before(field, '=')
            &&& after(field.push(c), '=') == Some(after(field, '=')->0.push(c))
        },
{
    let longer = field.push(c);
    lemma_first_at(field, '=');
    lemma_first_at(longer, '=');
    let here = first_at(field, '=');
    let there = first_at(longer, '=');
    if here < field.len() {
        assert(longer[here] == '=');
        if there < here {
            assert(longer[there] == field[there]);
        }
        assert(there == here);
        assert(before(longer, '=') =~= before(field, '='));
        assert(after(longer, '=')->0 =~= after(field, '=')->0.push(c));
    } else {
        assert(before(field, '=') =~= field);
        if there < field.len() {
            assert(longer[there] == field[there]);
        }
        if c == '=' {
            assert(longer[field.len() as int] == '=');
            assert(there == field.len());
            assert(before(longer, '=') =~= field);
            assert(after(longer, '=')->0 =~= Seq::<char>::empty());
        } else {
            if there == field.len() {
                assert(longer[there] == c);
            }
            assert(there == longer.len());
            assert(before(longer, '=') =~= longer);
        }
    }
}

/// Adds the attribute with the given name and value, if the name is one.
fn push_attribute(attrs: &mut Vec<(String, String)>, name: &str, value: &str)
    ensures
        pairs(final(attrs)@) == (if trimmed(name@).len() == 0 {
            pairs(old(attrs)@)
        } else {
            pairs(old(attrs)@).push((trimmed(name@), cleaned(value@)))
        }),
{
    if !is_blank(name) {
        let ghost was = pairs(attrs@);
        attrs.push((trim(name).to_string(), clean_attr_value(value)));
        proof {
            assert(pairs(attrs@) =~= was.push((trimmed(name@), cleaned(value@))));
        }
    }
}

/// The attributes that an attribute list sets.
pub fn parse_attribute_list(input: &str) -> (r: Vec<(String, String)>)
    ensures
        pairs(r@) == attributes_of(fields(input@)),
{
    let mut attrs: Vec<(String, String)> = Vec::new();
    let mut key = String::new();
    let mut value = String::new();
    let mut reading_key = true;
    let mut quoted = false;
    let ghost mut done: Seq<Seq<char>> = Seq::empty();
    let ghost mut field: Seq<char> = Seq::empty();
    proof {
        assert(pairs(attrs@) =~= attributes_of(done));
        assert(fields(input@.take(0)) =~= done.push(field));
        assert(unquoted(field) =~= Seq::<char>::empty()) by {
            reveal_with_fuel(Seq::filter, 1);
        }
        assert(before(field, '=') =~= field);
    }
    for ch in it: input.chars()
        invariant
            it.seq() == input@,
            fields(input@.take(it.index() as int)) == done.push(field),
            quoted == in_quotes(input@.take(it.index() as int)),
            pairs(attrs@) == attributes_of(done),
            reading_key == (after(field, '=') is None),
            key@ == unquoted(before(field, '=')),
            value@ == unquoted(or_empty(after(field, '='))),
    {
        let ghost read = input@.take(it.index() as int);
        let ghost next = input@.take(it.index() + 1);
        proof {
            assert(next.drop_last() =~= read);
            assert(next.last() == ch);
            assert(done.push(field).drop_last() =~= done);
            lemma_push_to_field(field, ch);
            lemma_unquoted_push(field, ch);
            lemma_unquoted_push(or_empty(after(field, '=')), ch);
            assert(unquoted(Seq::<char>::empty()) =~= Seq::<char>::empty()) by {
                reveal_with_fuel(Seq::filter, 1);
            }
        }
        if ch == '=' && reading_key {
            reading_key = false;
            proof {
                field = field.push(ch);
            }
        } else if ch == '"' {
            quoted = !quoted;
            proof {
                field = field.push(ch);
            }
        } else if ch == ',' && !quoted {
            push_attribute(&mut attrs, key.as_str(), value.as_str());
            key = String::new();
            value = String::new();
            reading_key = true;
            proof {
                assert(done.push(field).drop_last() =~= done);
                done = done.push(field);
                field = Seq::empty();
                assert(before(field, '=') =~= field);
            }
        } else {
            if reading_key {
                key.push(ch);
            } else {
                value.push(ch);
            }
            proof {
                field = field.push(ch);
            }
        }
    }
    push_attribute(&mut attrs, key.as_str(), value.as_str());
    proof {
        assert(input@.take(input@.len() as int) =~= input@);
        assert(done.push(field).drop_last() =~= done);
    }
    attrs
}

/// What an attribute list says of a quality.
#[derive(Debug)]
pub struct HlsVariantInfo {
    pub bandwidth: Option<u64>,
    pub resolution: Option<String>,
    pub codecs: Option<String>,
}

#[verifier::ext_equal]
pub struct HlsVariantInfoView {
    pub bandwidth: Option<u64>,
    pub resolution: Option<Seq<char>>,
    pub codecs: Option<Seq<char>>,
}

impl View for HlsVariantInfo {
    type V = HlsVariantInfoView;

    open spec fn view(&self) -> HlsVariantInfoView {
        HlsVariantInfoView {
            bandwidth: self.bandwidth,
            resolution: maybe(self.resolution),
            codecs: maybe(self.codecs),
        }
    }
}

/// What is known of a quality after one more attribute: the bandwidth, or the average
/// where no bandwidth is known, the resolution and the codecs are taken over.
pub open spec fn informed(
    info: HlsVariantInfoView,
    attribute: (Seq<char>, Seq<char>),
) -> HlsVariantInfoView {
    let (name, value) = attribute;
    if name == "BANDWIDTH"@ || name == "AVERAGE-BANDWIDTH"@ && info.bandwidth is None {
        HlsVariantInfoView { bandwidth: unsigned(value), ..info }
    } else if name == "RESOLUTION"@ {
        HlsVariantInfoView { resolution: Some(value), ..info }
    } else if name == "CODECS"@ {
        HlsVariantInfoView { codecs: Some(value), ..info }
    } else {
        info
    }
}

/// What attributes say of a quality, one after the other.
pub open spec fn info_of(attributes: Seq<(Seq<char>, Seq<char>)>) -> HlsVariantInfoView
    decreases attributes.len(),
{
    if attributes.len() == 0 {
        HlsVariantInfoView { bandwidth: None, resolution: None, codecs: None }
    } else {
        informed(info_of(attributes.drop_last()), attributes.last())
    }
}

/// What an attribute list says of a quality.
pub open spec fn variant_info(text: Seq<char>) -> HlsVariantInfoView {
    info_of(attributes_of(fields(text)))
}

/// What an attribute list says of a quality.
pub fn parse_variant_info(attrs: &str) -> (r: HlsVariantInfo)
    ensures
        r@ == variant_info(attrs@),
{
    let list = parse_attribute_list(attrs);
    let mut info = HlsVariantInfo { bandwidth: None, resolution: None, codecs: None };
    let mut i: usize = 0;
    proof {
        assert(pairs(list@).take(0) =~= Seq::<(Seq<char>, Seq<char>)>::empty());
    }
    while i < list.len()
        invariant
            i <= list.len(),
            info@ == info_of(pairs(list@).take(i as int)),
        decreases list.len() - i,
    {
        let name = list[i].0.as_str();
        let value = list[i].1.as_str();
        proof {
            let next = pairs(list@).take(i + 1);
            assert(next.drop_last() =~= pairs(list@).take(i as int));
            assert(next.last() == (name@, value@));
        }
        if same_text(name, "BANDWIDTH") {
            info.bandwidth = parse_unsigned(value);
        } else if same_text(name, "AVERAGE-BANDWIDTH") && info.bandwidth.is_none() {
            info.bandwidth = parse_unsigned(value);
        } else if same_text(name, "RESOLUTION") {
            info.resolution = Some(value.to_string());
        } else if same_text(name, "CODECS") {
            info.codecs = Some(value.to_string());
        }
        i = i + 1;
    }
    proof {
        assert(pairs(list@).take(list.len() as int) =~= pairs(list@));
    }
    info
}

/// The value that an attribute list gives a name: the last one, if there are several.
pub open spec fn attribute(list: Seq<(Seq<char>, Seq<char>)>, name: Seq<char>) -> Option<Seq<char>>
    decreases list.len(),
{
    if list.len() == 0 {
        None
    } else if list.last().0 == name {
        Some(list.last().1)
    } else {
        attribute(list.drop_last(), name)
    }
}

fn attribute_of(list: &Vec<(String, String)>, name: &str) -> (r: Option<String>)
    ensures
        maybe(r) == attribute(pairs(list@), name@),
{
    let mut i: usize = list.len();
    proof {
        assert(pairs(list@).take(list.len() as int) =~= pairs(list@));
    }
    while i > 0
        invariant
            i <= list.len(),
            attribute(pairs(list@), name@) == attribute(pairs(list@).take(i as int), name@),
        decreases i,
    {
        proof {
            let read = pairs(list@).take(i as int);
            assert(read.drop_last() =~= pairs(list@).take(i - 1));
            assert(read.last() == (list@[i - 1].0@, list@[i - 1].1@));
        }
        if same_text(list[i - 1].0.as_str(), name) {
            return Some(list[i - 1].1.clone());
        }
        i = i - 1;
    }
    None
}

/// The number that a hexadecimal digit stands for.
pub open spec fn hex_value(c: char) -> Option<u128> {
    if '0' <= c <= '9' {
        Some((c as u32 - '0' as u32) as u128)
    } else if 'a' <= c <= 'f' {
        Some((c as u32 - 'a' as u32 + 10) as u128)
    } else if 'A' <= c <= 'F' {
        Some((c as u32 - 'A' as u32 + 10) as u128)
    } else {
        None
    }
}

/// The number that a row of hexadecimal digits stands for.
pub open spec fn hex_number(digits: Seq<char>) -> Option<nat>
    decreases digits.len(),
{
    if digits.len() == 0 {
        Some(0)
    } else {
        match (hex_number(digits.drop_last()), hex_value(digits.last())) {
            (Some(n), Some(d)) => Some(n * 16 + d as nat),
            _ => None,
        }
    }
}

/// The number of 128 bits that a text stands for: `0x` or `0X`, then one to thirty-two
/// hexadecimal digits.
pub open spec fn initial_number(text: Seq<char>) -> Option<u128> {
    if 3 <= text.len() <= 34 && text[0] == '0' && (text[1] == 'x' || text[1] == 'X') {
        match hex_number(text.skip(2)) {
            Some(n) => Some(n as u128),
            None => None,
        }
    } else {
        None
    }
}

pub(crate) fn hex_digit_value(c: char) -> (r: Option<u128>)
    ensures
        r == hex_value(c),
        r matches Some(d) ==> d < 16,
{
    if c >= '0' && c <= '9' {
        Some((c as u32 - 48) as u128)
    } else if c >= 'a' && c <= 'f' {
        Some((c as u32 - 97 + 10) as u128)
    } else if c >= 'A' && c <= 'F' {
        Some((c as u32 - 65 + 10) as u128)
    } else {
        None
    }
}

proof fn lemma_bad_digit(digits: Seq<char>, upto: int)
    requires
        0 <= upto <= digits.len(),
        hex_number(digits.take(upto)) is None,
    ensures
        hex_number(digits) is None,
    decreases digits.len() - upto,
{
    if upto < digits.len() {
        assert(digits.take(upto + 1).drop_last() =~= digits.take(upto));
        lemma_bad_digit(digits, upto + 1);
    } else {
        assert(digits.take(upto) =~= digits);
    }
}

/// Sixteen to the power `n`.
pub open spec fn sixteen_to(n: nat) -> nat
    decreases n,
{
    if n == 0 {
        1
    } else {
        16 * sixteen_to((n - 1) as nat)
    }
}

pub proof fn lemma_sixteen_grows(a: nat, b: nat)
    requires
        a <= b,
    ensures
        sixteen_to(a) <= sixteen_to(b),
    decreases b,
{
    if a < b {
        lemma_sixteen_grows(a, (b - 1) as nat);
    }
}

fn parse_initial_number(text: &str) -> (r: Option<u128>)
    ensures
        r == initial_number(text@),
{
    let chars = chars_of(text);
    if chars.len() < 3 || chars.len() > 34 || chars[0] != '0' || (chars[1] != 'x' && chars[1]
        != 'X') {
        return None;
    }
    let ghost digits = text@.skip(2);
    let mut value: u128 = 0;
    let mut i: usize = 2;
    proof {
        assert(digits.take(0) =~= Seq::<char>::empty());
    }
    while i < chars.len()
        invariant
            chars@ == text@,
            2 <= i <= chars.len() <= 34,
            digits == text@.skip(2),
            hex_number(digits.take(i - 2)) == Some(value as nat),
            value < sixteen_to((i - 2) as nat),
        decreases chars.len() - i,
    {
        proof {
            assert(digits.take(i - 1).drop_last() =~= digits.take(i - 2));
            assert(digits.take(i - 1).last() == text@[i as int]);
            lemma_sixteen_grows((i - 1) as nat, 32);
            assert(sixteen_to(32) == 0x1_0000_0000_0000_0000_0000_0000_0000_0000nat) by {
                reveal_with_fuel(sixteen_to, 33);
            }
        }
        match hex_digit_value(chars[i]) {
            Some(d) => {
                value = value * 16 + d;
            },
            None => {
                proof {
                    lemma_bad_digit(digits, i - 1);
                }
                return None;
            },
        }
        i = i + 1;
    }
    proof {
        assert(digits.take(chars.len() - 2) =~= digits);
    }
    Some(value)
}

/// How the segments that follow a key line are encrypted.
#[derive(Debug)]
pub enum HlsKey {
    /// They are not.
    Plain,
    /// With AES-128; the key is at the given address, and the initial number may be given.
    Aes { uri: String, iv: Option<u128> },
    /// In another way, or for a digital rights system.
    Refused,
}

#[verifier::ext_equal]
pub enum HlsKeyView {
    Plain,
    Aes { uri: Seq<char>, iv: Option<u128> },
    Refused,
}

impl View for HlsKey {
    type V = HlsKeyView;

    open spec fn view(&self) -> HlsKeyView {
        match self {
            HlsKey::Plain => HlsKeyView::Plain,
            HlsKey::Aes { uri, iv } => HlsKeyView::Aes { uri: uri@, iv: *iv },
            HlsKey::Refused => HlsKeyView::Refused,
        }
    }
}

impl Clone for HlsKey {
    fn clone(&self) -> (r: Self)
        ensures
            r@ == self@,
    {
        match self {
            HlsKey::Plain => HlsKey::Plain,
            HlsKey::Aes { uri, iv } => HlsKey::Aes { uri: uri.clone(), iv: *iv },
            HlsKey::Refused => HlsKey::Refused,
        }
    }
}

/// How the segments are encrypted that follow a key line with the given attributes: not at
/// all, or with AES-128 and a key that is there for all to fetch.
pub open spec fn key_of(list: Seq<(Seq<char>, Seq<char>)>) -> HlsKeyView {
    let method = attribute(list, "METHOD"@);
    let uri = attribute(list, "URI"@);
    let iv = attribute(list, "IV"@);
    let format = attribute(list, "KEYFORMAT"@);
    if method == Some("NONE"@) {
        HlsKeyView::Plain
    } else if method != Some("AES-128"@) || uri is None || !(format is None || format == Some(
        "identity"@,
    )) {
        HlsKeyView::Refused
    } else {
        match iv {
            None => HlsKeyView::Aes { uri: uri->0, iv: None },
            Some(text) => match initial_number(text) {
                Some(n) => HlsKeyView::Aes { uri: uri->0, iv: Some(n) },
                None => HlsKeyView::Refused,
            },
        }
    }
}

/// What a key line says, given what follows its name.
pub open spec fn key_in(text: Seq<char>) -> HlsKeyView {
    if text.len() > 0 && text[0] == ':' {
        key_of(attributes_of(fields(text.skip(1))))
    } else {
        HlsKeyView::Refused
    }
}

fn is_text(value: &Option<String>, text: &str) -> (r: bool)
    ensures
        r == (maybe(*value) == Some(text@)),
{
    match value {
        Some(found) => same_text(found.as_str(), text),
        None => false,
    }
}

/// What a key line says, given what follows its name.
pub fn parse_key(text: &str) -> (r: HlsKey)
    ensures
        r@ == key_in(text@),
{
    let chars = chars_of(text);
    if chars.len() == 0 || chars[0] != ':' {
        return HlsKey::Refused;
    }
    let attributes = text.substring_char(1, chars.len());
    proof {
        assert(attributes@ =~= text@.skip(1));
    }
    let list = parse_attribute_list(attributes);
    let method = attribute_of(&list, "METHOD");
    if is_text(&method, "NONE") {
        return HlsKey::Plain;
    }
    let format = attribute_of(&list, "KEYFORMAT");
    if !is_text(&method, "AES-128") || (format.is_some() && !is_text(&format, "identity")) {
        return HlsKey::Refused;
    }
    let iv = attribute_of(&list, "IV");
    match attribute_of(&list, "URI") {
        None => HlsKey::Refused,
        Some(uri) => match iv {
            None => HlsKey::Aes { uri, iv: None },
            Some(text) => match parse_initial_number(text.as_str()) {
                Some(n) => HlsKey::Aes { uri, iv: Some(n) },
                None => HlsKey::Refused,
            },
        },
    }
}

/// What a line of a playlist is.
pub enum Line {
    /// Nothing that matters.
    Other,
    /// A key that the segments are encrypted with: what follows the name of the line.
    Key(Seq<char>),
    /// The attributes of the quality that comes next.
    Quality(Seq<char>),
    /// The number of the first segment.
    Sequence(Seq<char>),
    /// The address of a segment or of a quality.
    Address(Seq<char>),
}

/// What a line of a playlist is, by its beginning, white space at its ends aside.
pub open spec fn line_kind(text: Seq<char>) -> Line {
    let line = trimmed(text);
    if line.len() == 0 {
        Line::Other
    } else if "#EXT-X-KEY"@.is_prefix_of(line) {
        Line::Key(line.skip("#EXT-X-KEY"@.len() as int))
    } else if "#EXT-X-STREAM-INF:"@.is_prefix_of(line) {
        Line::Quality(line.skip("#EXT-X-STREAM-INF:"@.len() as int))
    } else if "#EXT-X-MEDIA-SEQUENCE:"@.is_prefix_of(line) {
        Line::Sequence(line.skip("#EXT-X-MEDIA-SEQUENCE:"@.len() as int))
    } else if line[0] == '#' {
        Line::Other
    } else {
        Line::Address(line)
    }
}

/// An address in a playlist, with what is known of the quality if it is one's address, and
/// how it is encrypted if it is a segment's.
#[derive(Debug)]
pub struct HlsEntry {
    pub address: String,
    pub info: Option<HlsVariantInfo>,
    pub key: HlsKey,
}

#[verifier::ext_equal]
pub struct HlsEntryView {
    pub address: Seq<char>,
    pub info: Option<HlsVariantInfoView>,
    pub key: HlsKeyView,
}

impl View for HlsEntry {
    type V = HlsEntryView;

    open spec fn view(&self) -> HlsEntryView {
        HlsEntryView { address: self.address@, info: maybe(self.info), key: self.key@ }
    }
}

/// What a playlist lists, its addresses as they stand in the text.
#[derive(Debug)]
pub struct HlsOutline {
    pub entries: Vec<HlsEntry>,
    /// What is known of the quality whose address comes next.
    pub pending: Option<HlsVariantInfo>,
    /// How the segments that come next are encrypted.
    pub key: HlsKey,
    /// The number of the first segment.
    pub sequence: u64,
    /// Whether there is a key line.
    pub encrypted: bool,
}

#[verifier::ext_equal]
pub struct HlsOutlineView {
    pub entries: Seq<HlsEntryView>,
    pub pending: Option<HlsVariantInfoView>,
    pub key: HlsKeyView,
    pub sequence: u64,
    pub encrypted: bool,
}

impl View for HlsOutline {
    type V = HlsOutlineView;

    open spec fn view(&self) -> HlsOutlineView {
        HlsOutlineView {
            entries: each(self.entries@),
            pending: maybe(self.pending),
            key: self.key@,
            sequence: self.sequence,
            encrypted: self.encrypted,
        }
    }
}

/// The outline after one more line.
pub open spec fn outlined(outline: HlsOutlineView, line: Seq<char>) -> HlsOutlineView {
    match line_kind(line) {
        Line::Other => outline,
        Line::Key(text) => HlsOutlineView { key: key_in(text), encrypted: true, ..outline },
        Line::Quality(attributes) => HlsOutlineView {
            pending: Some(variant_info(attributes)),
            ..outline
        },
        Line::Sequence(text) => match unsigned(trimmed(text)) {
            Some(n) => HlsOutlineView { sequence: n, ..outline },
            None => outline,
        },
        Line::Address(address) => HlsOutlineView {
            entries: outline.entries.push(
                HlsEntryView { address, info: outline.pending, key: outline.key },
            ),
            pending: None,
            ..outline
        },
    }
}

/// What the lines of a playlist list.
pub open spec fn outline_of(lines: Seq<Seq<char>>) -> HlsOutlineView
    decreases lines.len(),
{
    if lines.len() == 0 {
        HlsOutlineView {
            entries: Seq::empty(),
            pending: None,
            key: HlsKeyView::Plain,
            sequence: 0,
            encrypted: false,
        }
    } else {
        outlined(outline_of(lines.drop_last()), lines.last())
    }
}

/// How a segment is encrypted.
#[derive(Debug)]
pub enum HlsCipher {
    /// It is not.
    Plain,
    /// With AES-128, the key at the given address and the initial number.
    Aes { url: String, iv: u128 },
    /// In another way, or for a digital rights system.
    Refused,
}

#[verifier::ext_equal]
pub enum HlsCipherView {
    Plain,
    Aes { url: Seq<char>, iv: u128 },
    Refused,
}

impl View for HlsCipher {
    type V = HlsCipherView;

    open spec fn view(&self) -> HlsCipherView {
        match self {
            HlsCipher::Plain => HlsCipherView::Plain,
            HlsCipher::Aes { url, iv } => HlsCipherView::Aes { url: url@, iv: *iv },
            HlsCipher::Refused => HlsCipherView::Refused,
        }
    }
}

/// A playlist: the segments of one stream, or the qualities that a master playlist offers.
#[derive(Debug)]
pub struct HlsPlaylist {
    pub segments: Vec<String>,
    /// How each segment is encrypted.
    pub ciphers: Vec<HlsCipher>,
    pub variants: Vec<HlsVariant>,
    /// Whether there is a key line.
    pub encrypted: bool,
}

#[verifier::ext_equal]
pub struct HlsPlaylistView {
    pub segments: Seq<Seq<char>>,
    pub ciphers: Seq<HlsCipherView>,
    pub variants: Seq<HlsVariantView>,
    pub encrypted: bool,
}

impl View for HlsPlaylist {
    type V = HlsPlaylistView;

    open spec fn view(&self) -> HlsPlaylistView {
        HlsPlaylistView {
            segments: each(self.segments@),
            ciphers: each(self.ciphers@),
            variants: each(self.variants@),
            encrypted: self.encrypted,
        }
    }
}

impl HlsPlaylist {
    /// Whether it is a master playlist.
    pub fn is_master(&self) -> (r: bool)
        ensures
            r == (self@.variants.len() > 0),
    {
        self.variants.len() > 0
    }
}

/// The full addresses of an entry: its own, and that of its key if one is to be fetched.
#[derive(Debug)]
pub struct HlsPlace {
    pub url: String,
    pub key_url: Option<String>,
}

#[verifier::ext_equal]
pub struct HlsPlaceView {
    pub url: Seq<char>,
    pub key_url: Option<Seq<char>>,
}

impl View for HlsPlace {
    type V = HlsPlaceView;

    open spec fn view(&self) -> HlsPlaceView {
        HlsPlaceView { url: self.url@, key_url: maybe(self.key_url) }
    }
}

/// A quality at an address.
pub open spec fn variant_at(url: Seq<char>, info: HlsVariantInfoView) -> HlsVariantView {
    HlsVariantView {
        url,
        bandwidth: info.bandwidth,
        resolution: info.resolution,
        codecs: info.codecs,
    }
}

/// The addresses of the segments among the entries of an outline, given the full addresses
/// of each entry.
pub open spec fn segments_of(entries: Seq<HlsEntryView>, places: Seq<HlsPlaceView>) -> Seq<
    Seq<char>,
>
    decreases entries.len(),
{
    if entries.len() == 0 {
        Seq::empty()
    } else {
        let rest = segments_of(entries.drop_last(), places);
        match entries.last().info {
            None => rest.push(places[entries.len() - 1].url),
            Some(_) => rest,
        }
    }
}

/// How a segment is encrypted: the initial number is the one given, else the number of the
/// segment.
pub open spec fn cipher_of(key: HlsKeyView, key_url: Option<Seq<char>>, number: nat) -> HlsCipherView {
    match key {
        HlsKeyView::Plain => HlsCipherView::Plain,
        HlsKeyView::Refused => HlsCipherView::Refused,
        HlsKeyView::Aes { uri, iv } => match key_url {
            Some(url) => HlsCipherView::Aes {
                url,
                iv: match iv {
                    Some(n) => n,
                    None => number as u128,
                },
            },
            None => HlsCipherView::Refused,
        },
    }
}

/// How the segments among the entries of an outline are encrypted; the first has the
/// number `sequence`.
pub open spec fn ciphers_of(
    entries: Seq<HlsEntryView>,
    places: Seq<HlsPlaceView>,
    sequence: u64,
) -> Seq<HlsCipherView>
    decreases entries.len(),
{
    if entries.len() == 0 {
        Seq::empty()
    } else {
        let rest = ciphers_of(entries.drop_last(), places, sequence);
        match entries.last().info {
            None => rest.push(
                cipher_of(
                    entries.last().key,
                    places[entries.len() - 1].key_url,
                    (sequence + rest.len()) as nat,
                ),
            ),
            Some(_) => rest,
        }
    }
}

/// The qualities among the entries of an outline, given the full addresses of each entry.
pub open spec fn variants_of(entries: Seq<HlsEntryView>, places: Seq<HlsPlaceView>) -> Seq<
    HlsVariantView,
>
    decreases entries.len(),
{
    if entries.len() == 0 {
        Seq::empty()
    } else {
        let rest = variants_of(entries.drop_last(), places);
        match entries.last().info {
            None => rest,
            Some(info) => rest.push(variant_at(places[entries.len() - 1].url, info)),
        }
    }
}

/// The playlist with the given outline, given the full addresses of each entry.
pub open spec fn assembled(outline: HlsOutlineView, places: Seq<HlsPlaceView>) -> HlsPlaylistView {
    HlsPlaylistView {
        segments: segments_of(outline.entries, places),
        ciphers: ciphers_of(outline.entries, places, outline.sequence),
        variants: variants_of(outline.entries, places),
        encrypted: outline.encrypted,
    }
}

/// The address of the key that an entry is encrypted with, if there is one to be fetched.
pub open spec fn key_to_fetch(entry: HlsEntryView) -> Option<Seq<char>> {
    match (entry.info, entry.key) {
        (None, HlsKeyView::Aes { uri, .. }) => Some(uri),
        _ => None,
    }
}

/// The full addresses of an entry of a playlist at `base`, or the error of its own that is
/// none; a key whose address is none has none.
pub open spec fn place_of(base: Seq<char>, entry: HlsEntryView) -> Result<HlsPlaceView, Seq<char>> {
    match joined_url(base, entry.address) {
        Err(reason) => Err(reason),
        Ok(url) => match key_to_fetch(entry) {
            None => Ok(HlsPlaceView { url, key_url: None }),
            Some(uri) => match joined_url(base, uri) {
                Err(_) => Ok(HlsPlaceView { url, key_url: None }),
                Ok(key_url) => Ok(HlsPlaceView { url, key_url: Some(key_url) }),
            },
        },
    }
}

/// The full addresses of the entries of a playlist at `base`, or the error of the first
/// address that is none.
pub open spec fn resolved(base: Seq<char>, entries: Seq<HlsEntryView>) -> Result<
    Seq<HlsPlaceView>,
    Seq<char>,
>
    decreases entries.len(),
{
    if entries.len() == 0 {
        Ok(Seq::empty())
    } else {
        match resolved(base, entries.drop_last()) {
            Err(reason) => Err(reason),
            Ok(places) => match place_of(base, entries.last()) {
                Err(reason) => Err(reason),
                Ok(place) => Ok(places.push(place)),
            },
        }
    }
}

/// The playlist that a text at the address `base` stands for, or why it is none.
pub open spec fn playlist_of(base: Seq<char>, text: Seq<char>) -> Result<
    HlsPlaylistView,
    HlsErrorView,
> {
    let outline = outline_of(split(text, '\n'));
    match parsed_url(base) {
        Err(reason) => Err(HlsErrorView::BadAddress(reason)),
        Ok(_) => match resolved(base, outline.entries) {
            Err(reason) => Err(HlsErrorView::BadAddress(reason)),
            Ok(places) => Ok(assembled(outline, places)),
        },
    }
}

/// What follows a mark that a text begins with.
fn rest_after<'a>(text: &'a str, mark: &str) -> (r: Option<&'a str>)
    ensures
        r is Some <==> mark@.is_prefix_of(text@),
        r matches Some(rest) ==> rest@ == text@.skip(mark@.len() as int),
{
    if begins_with(text, mark) {
        let chars = chars_of(text);
        let skipped = chars_of(mark);
        let rest = text.substring_char(skipped.len(), chars.len());
        proof {
            assert(rest@ =~= text@.skip(mark@.len() as int));
        }
        Some(rest)
    } else {
        None
    }
}

/// Takes in one line of a playlist.
fn read_line(outline: HlsOutline, text: &str) -> (r: HlsOutline)
    ensures
        r@ == outlined(outline@, text@),
{
    let mut outline = outline;
    let line = trim(text);
    if line.is_empty() {
        return outline;
    }
    if let Some(rest) = rest_after(line, "#EXT-X-KEY") {
        outline.key = parse_key(rest);
        outline.encrypted = true;
        return outline;
    }
    if let Some(attributes) = rest_after(line, "#EXT-X-STREAM-INF:") {
        outline.pending = Some(parse_variant_info(attributes));
        return outline;
    }
    if let Some(rest) = rest_after(line, "#EXT-X-MEDIA-SEQUENCE:") {
        if let Some(n) = parse_unsigned(trim(rest)) {
            outline.sequence = n;
        }
        return outline;
    }
    let chars = chars_of(line);
    if chars[0] == '#' {
        return outline;
    }
    let entry = HlsEntry {
        address: line.to_string(),
        info: outline.pending,
        key: outline.key.clone(),
    };
    let ghost was = each(outline.entries@);
    outline.entries.push(entry);
    outline.pending = None;
    proof {
        assert(each(outline.entries@) =~= was.push(entry@));
    }
    outline
}

/// What a playlist lists, its addresses as they stand in the text.
pub fn read_outline(text: &str) -> (r: HlsOutline)
    ensures
        r@ == outline_of(split(text@, '\n')),
{
    let lines = split_at_each(text, '\n');
    let mut outline = HlsOutline {
        entries: Vec::new(),
        pending: None,
        key: HlsKey::Plain,
        sequence: 0,
        encrypted: false,
    };
    let mut i: usize = 0;
    proof {
        assert(each(lines@).take(0) =~= Seq::<Seq<char>>::empty());
        assert(each(outline.entries@) =~= Seq::<HlsEntryView>::empty());
    }
    while i < lines.len()
        invariant
            i <= lines.len(),
            outline@ == outline_of(each(lines@).take(i as int)),
        decreases lines.len() - i,
    {
        proof {
            let next = each(lines@).take(i + 1);
            assert(next.drop_last() =~= each(lines@).take(i as int));
        }
        outline = read_line(outline, lines[i].as_str());
        i = i + 1;
    }
    proof {
        assert(each(lines@).take(lines.len() as int) =~= each(lines@));
    }
    outline
}

fn resolve_entry(base: &str, entry: &HlsEntry) -> (r: Result<HlsPlace, String>)
    ensures
        place_of(base@, entry@) == (match r {
            Ok(place) => Ok(place@),
            Err(reason) => Err(reason@),
        }),
{
    let url = match join_url(base, entry.address.as_str()) {
        Ok(url) => url,
        Err(reason) => return Err(reason),
    };
    match (&entry.info, &entry.key) {
        (None, HlsKey::Aes { uri, .. }) => match join_url(base, uri.as_str()) {
            Ok(key_url) => Ok(HlsPlace { url, key_url: Some(key_url) }),
            Err(_) => Ok(HlsPlace { url, key_url: None }),
        },
        _ => Ok(HlsPlace { url, key_url: None }),
    }
}

fn resolve(base: &str, entries: &Vec<HlsEntry>) -> (r: Result<Vec<HlsPlace>, String>)
    ensures
        resolved(base@, each(entries@)) == (match r {
            Ok(places) => Ok(each(places@)),
            Err(reason) => Err(reason@),
        }),
        r matches Ok(places) ==> places@.len() == entries@.len(),
{
    let mut places: Vec<HlsPlace> = Vec::new();
    let mut i: usize = 0;
    proof {
        assert(each(entries@).take(0) =~= Seq::<HlsEntryView>::empty());
        assert(each(places@) =~= Seq::<HlsPlaceView>::empty());
    }
    while i < entries.len()
        invariant
            i <= entries.len(),
            places@.len() == i,
            resolved(base@, each(entries@).take(i as int)) == Ok::<_, Seq<char>>(each(places@)),
        decreases entries.len() - i,
    {
        proof {
            let next = each(entries@).take(i + 1);
            assert(next.drop_last() =~= each(entries@).take(i as int));
        }
        match resolve_entry(base, &entries[i]) {
            Ok(place) => {
                let ghost was = each(places@);
                places.push(place);
                proof {
                    assert(each(places@) =~= was.push(place@));
                }
            },
            Err(reason) => {
                proof {
                    lemma_first_error(base@, each(entries@), i + 1);
                }
                return Err(reason);
            },
        }
        i = i + 1;
    }
    proof {
        assert(each(entries@).take(entries.len() as int) =~= each(entries@));
    }
    Ok(places)
}

proof fn lemma_first_error(base: Seq<char>, entries: Seq<HlsEntryView>, upto: int)
    requires
        0 <= upto <= entries.len(),
        resolved(base, entries.take(upto)) is Err,
    ensures
        resolved(base, entries) == resolved(base, entries.take(upto)),
    decreases entries.len() - upto,
{
    if upto == entries.len() {
        assert(entries.take(upto) =~= entries);
    } else {
        assert(entries.take(upto + 1).drop_last() =~= entries.take(upto));
        lemma_first_error(base, entries, upto + 1);
    }
}

fn encryption(key: &HlsKey, key_url: &Option<String>, sequence: u64, index: usize) -> (r: HlsCipher)
    ensures
        r@ == cipher_of(key@, maybe(*key_url), (sequence + index) as nat),
{
    match key {
        HlsKey::Plain => HlsCipher::Plain,
        HlsKey::Refused => HlsCipher::Refused,
        HlsKey::Aes { uri, iv } => match key_url {
            Some(url) => HlsCipher::Aes {
                url: url.clone(),
                iv: match iv {
                    Some(n) => *n,
                    None => sequence as u128 + index as u128,
                },
            },
            None => HlsCipher::Refused,
        },
    }
}

/// The playlist with the given outline, given the full addresses of each entry.
pub fn assemble(outline: HlsOutline, places: Vec<HlsPlace>) -> (r: HlsPlaylist)
    requires
        places@.len() == outline@.entries.len(),
    ensures
        r@ == assembled(outline@, each(places@)),
{
    let entries = outline.entries;
    let sequence: u64 = outline.sequence;
    let mut segments: Vec<String> = Vec::new();
    let mut ciphers: Vec<HlsCipher> = Vec::new();
    let mut variants: Vec<HlsVariant> = Vec::new();
    let mut i: usize = 0;
    proof {
        assert(each(entries@).take(0) =~= Seq::<HlsEntryView>::empty());
        assert(each(ciphers@) =~= Seq::<HlsCipherView>::empty());
    }
    while i < entries.len()
        invariant
            i <= entries.len(),
            places@.len() == entries@.len(),
            each(segments@) == segments_of(each(entries@).take(i as int), each(places@)),
            each(ciphers@) == ciphers_of(each(entries@).take(i as int), each(places@), sequence),
            each(variants@) == variants_of(each(entries@).take(i as int), each(places@)),
        decreases entries.len() - i,
    {
        let ghost segs = each(segments@);
        let ghost ciphs = each(ciphers@);
        let ghost vars = each(variants@);
        proof {
            let next = each(entries@).take(i + 1);
            assert(next.drop_last() =~= each(entries@).take(i as int));
            assert(next.last() == entries@[i as int]@);
            assert(each(places@)[i as int] == places@[i as int]@);
        }
        let url = places[i].url.clone();
        match &entries[i].info {
            Some(info) => {
                let variant = HlsVariant {
                    url,
                    bandwidth: info.bandwidth,
                    resolution: info.resolution.clone(),
                    codecs: info.codecs.clone(),
                };
                variants.push(variant);
                proof {
                    assert(each(variants@) =~= vars.push(variant@));
                }
            },
            None => {
                let cipher = encryption(
                    &entries[i].key,
                    &places[i].key_url,
                    sequence,
                    ciphers.len(),
                );
                segments.push(url);
                ciphers.push(cipher);
                proof {
                    assert(each(segments@) =~= segs.push(url@));
                    assert(each(ciphers@) =~= ciphs.push(cipher@));
                }
            },
        }
        i = i + 1;
    }
    proof {
        assert(each(entries@).take(entries.len() as int) =~= each(entries@));
    }
    HlsPlaylist { segments, ciphers, variants, encrypted: outline.encrypted }
}

/// The playlist that a text at the address `base_url` stands for.
pub fn parse_hls_playlist(base_url: &str, text: &str) -> (r: Result<HlsPlaylist, HlsError>)
    ensures
        playlist_of(base_url@, text@) == (match r {
            Ok(playlist) => Ok(playlist@),
            Err(err) => Err(err@),
        }),
{
    match parse_url(base_url) {
        Err(reason) => return Err(HlsError::BadAddress(reason)),
        Ok(_) => {},
    }
    let outline = read_outline(text);
    match resolve(base_url, &outline.entries) {
        Err(reason) => Err(HlsError::BadAddress(reason)),
        Ok(places) => Ok(assemble(outline, places)),
    }
}

} // verus!
