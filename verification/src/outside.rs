//! What the library takes from other crates: each item states what it relies on.

use crate::text::{is_digit, lower};
use reqwest::header::{HeaderMap, HeaderName, HeaderValue};
use std::str::FromStr;
use vstd::arithmetic::power::pow;
use vstd::prelude::*;
use vstd::utf8::encode_utf8;

verus! {

/// What `reqwest::Url::parse` makes of a text: the address as it is written out, or
/// the text of the error.
pub uninterp spec fn parsed_url(text: Seq<char>) -> Result<Seq<char>, Seq<char>>;

/// `reqwest::Url::parse`: the result depends on the text alone.
#[verifier::external_body]
pub(crate) fn parse_url(text: &str) -> (r: Result<String, String>)
    ensures
        parsed_url(text@) == (match r {
            Ok(url) => Ok(url@),
            Err(message) => Err(message@),
        }),
{
    reqwest::Url::parse(text).map(String::from).map_err(|err| err.to_string())
}

/// What `reqwest::Url::join` makes of a reference against the address that a base text
/// stands for: the address as it is written out, or the text of the error.
pub uninterp spec fn joined_url(base: Seq<char>, reference: Seq<char>) -> Result<
    Seq<char>,
    Seq<char>,
>;

/// `reqwest::Url::join` on the address that `base` stands for: the result depends on the
/// two texts alone.
#[verifier::external_body]
pub(crate) fn join_url(base: &str, reference: &str) -> (r: Result<String, String>)
    ensures
        joined_url(base@, reference@) == (match r {
            Ok(url) => Ok(url@),
            Err(message) => Err(message@),
        }),
{
    reqwest::Url::parse(base).and_then(|base| base.join(reference)).map(String::from).map_err(
        |err| err.to_string(),
    )
}

/// Whether a character may stand in the name of an HTTP header.
pub open spec fn is_token_char(c: char) -> bool {
    ||| is_digit(c)
    ||| 'a' <= c <= 'z'
    ||| 'A' <= c <= 'Z'
    ||| c == '!' || c == '#' || c == '$' || c == '%' || c == '&' || c == '\''
    ||| c == '*' || c == '+' || c == '-' || c == '.' || c == '^' || c == '_'
    ||| c == '`' || c == '|' || c == '~'
}

/// Whether a text is the name of an HTTP header.
pub open spec fn is_header_name(text: Seq<char>) -> bool {
    &&& 1 <= text.len() <= 65535
    &&& forall|i: int| 0 <= i < text.len() ==> is_token_char(#[trigger] text[i])
}

/// Whether a text can be the value of an HTTP header: no control characters but the tab.
pub open spec fn is_header_value(text: Seq<char>) -> bool {
    forall|i: int|
        0 <= i < text.len() ==> ((#[trigger] text[i]) as u32 >= 32 && text[i] as u32 != 127)
            || text[i] == '\t'
}

/// `HeaderName::from_str`: it succeeds on tokens of one to 65535 characters and on
/// nothing else.
#[verifier::external_body]
pub(crate) fn accepts_header_name(text: &str) -> (r: bool)
    ensures
        r == is_header_name(text@),
{
    HeaderName::from_str(text).is_ok()
}

/// `HeaderValue::from_str`: it refuses control characters other than the tab and
/// nothing else.
#[verifier::external_body]
pub(crate) fn accepts_header_value(text: &str) -> (r: bool)
    ensures
        r == is_header_value(text@),
{
    HeaderValue::from_str(text).is_ok()
}

/// The header map of the HTTP client.
#[verifier::external_type_specification]
#[verifier::external_body]
#[verifier::reject_recursive_types(T)]
pub struct ExHeaderMap<T>(HeaderMap<T>);

/// The value of one HTTP header.
#[verifier::external_type_specification]
#[verifier::external_body]
pub struct ExHeaderValue(HeaderValue);

/// What a header map holds: for each name, in lower case, the bytes of its values.
pub uninterp spec fn header_entries(map: HeaderMap) -> Map<Seq<char>, Seq<Seq<u8>>>;

/// The number of headers that a header map holds without fail.
pub const HEADER_LIMIT: usize = 6554;

/// `HeaderMap::new`: the map holds nothing.
#[verifier::external_body]
pub(crate) fn empty_header_map() -> (r: HeaderMap)
    ensures
        (header_entries(r) == Map::<Seq<char>, Seq<Seq<u8>>>::empty()),
{
    HeaderMap::new()
}

/// `HeaderMap::insert`: the name, in lower case, gets the one value, in place of those
/// that it had. Below the limit the map always finds room.
#[verifier::external_body]
pub(crate) fn insert_header(map: &mut HeaderMap, name: &str, value: &str)
    requires
        is_header_name(name@),
        is_header_value(value@),
        header_entries(*old(map)).len() < HEADER_LIMIT,
    ensures
        header_entries(*final(map)) == header_entries(*old(map)).insert(
            lower(name@),
            seq![encode_utf8(value@)],
        ),
{
    map.insert(HeaderName::from_str(name).unwrap(), HeaderValue::from_str(value).unwrap());
}

/// How `reqwest::StatusCode` writes out a status code, with its reason phrase.
pub uninterp spec fn status_line(code: u16) -> Seq<char>;

/// The `Display` form of `reqwest::StatusCode`: the result depends on the code alone.
#[verifier::external_body]
pub(crate) fn status_text(code: u16) -> (r: String)
    requires
        100 <= code <= 999,
    ensures
        r@ == status_line(code),
{
    reqwest::StatusCode::from_u16(code).unwrap().to_string()
}

/// What `sanitize_filename::sanitize_with_options` makes of a text under the rules of
/// Windows or of other systems, with nothing put in place of what it takes out and
/// long names cut short.
pub uninterp spec fn sanitized(text: Seq<char>, windows: bool) -> Seq<char>;

/// Whether a character may stand in a file name: no separators, no wildcards, no
/// control characters.
pub open spec fn is_file_name_char(c: char) -> bool {
    &&& c != '/' && c != '\\' && c != '?' && c != '<' && c != '>'
    &&& c != ':' && c != '*' && c != '|' && c != '"'
    &&& c as u32 >= 0x20
    &&& !(0x80 <= c as u32 <= 0x9f)
}

/// `sanitize_filename::sanitize_with_options`: the result depends on the text and the
/// rules alone, holds none of the characters that file names must not hold, and takes
/// at most 255 bytes.
#[verifier::external_body]
pub(crate) fn sanitize(text: &str, windows: bool) -> (r: String)
    ensures
        r@ == sanitized(text@, windows),
        forall|i: int| 0 <= i < r@.len() ==> is_file_name_char(#[trigger] r@[i]),
        encode_utf8(r@).len() <= 255,
{
    sanitize_filename::sanitize_with_options(
        text,
        sanitize_filename::Options { windows, truncate: true, replacement: "" },
    )
}

/// Whether a number has the marks of a random UUID: version 4, variant 2.
pub open spec fn is_random_uuid(id: u128) -> bool {
    &&& (id / 0x1000_0000_0000_0000_0000) % 16 == 4
    &&& (id / 0x4000_0000_0000_0000) % 4 == 2
}

/// `uuid::Uuid::new_v4`: a random number with the marks of a random UUID.
#[verifier::external_body]
pub(crate) fn fresh_id() -> (id: u128)
    ensures
        is_random_uuid(id),
{
    uuid::Uuid::new_v4().as_u128()
}

/// The lower case hexadecimal digit of a number below sixteen.
pub open spec fn hex_digit(n: int) -> char {
    if n < 10 {
        (('0' as u32) + n) as char
    } else {
        (('a' as u32) + n - 10) as char
    }
}

/// A UUID in hexadecimal, highest digit first, with hyphens after 8, 12, 16 and 20 digits.
pub open spec fn uuid_text(id: u128) -> Seq<char> {
    Seq::new(
        36,
        |i: int|
            if i == 8 || i == 13 || i == 18 || i == 23 {
                '-'
            } else {
                let hyphens: int = if i < 8 {
                    0
                } else if i < 13 {
                    1
                } else if i < 18 {
                    2
                } else if i < 23 {
                    3
                } else {
                    4
                };
                hex_digit((id as int / pow(16, (31 - (i - hyphens)) as nat)) % 16)
            },
    )
}

/// The `Display` form of `uuid::Uuid`: lower case hexadecimal with hyphens.
#[verifier::external_body]
pub(crate) fn write_uuid(id: u128) -> (r: String)
    ensures
        r@ == uuid_text(id),
{
    uuid::Uuid::from_u128(id).to_string()
}

/// `chrono::Utc::now`: the milliseconds since the start of 1970; nothing is promised of
/// the clock.
#[verifier::external_body]
pub(crate) fn now_millis() -> i64 {
    chrono::Utc::now().timestamp_millis()
}

/// A parsed JSON text.
pub enum Json {
    Null,
    Bool(bool),
    /// A whole number from 0 to the largest of 64 bits.
    Unsigned(u64),
    /// Any other number.
    OtherNumber,
    Text(Seq<char>),
    List(Seq<Json>),
    Object(Map<Seq<char>, Json>),
}

/// A JSON value of `serde_json`.
#[verifier::external_type_specification]
#[verifier::external_body]
pub struct ExValue(serde_json::Value);

/// What a JSON value holds.
pub uninterp spec fn json_content(value: serde_json::Value) -> Json;

/// What `serde_json::from_str` makes of a text: nothing if the text is not JSON.
pub uninterp spec fn json_of_text(text: Seq<char>) -> Option<Json>;

/// `serde_json::from_str`: the result depends on the text alone.
#[verifier::external_body]
pub(crate) fn parse_json(text: &str) -> (r: Option<serde_json::Value>)
    ensures
        json_of_text(text@) == (match r {
            Some(value) => Some(json_content(value)),
            None => None,
        }),
{
    serde_json::from_str(text).ok()
}

/// The member of a JSON object with the given name.
pub open spec fn json_member(json: Json, name: Seq<char>) -> Option<Json> {
    match json {
        Json::Object(members) => if members.contains_key(name) {
            Some(members[name])
        } else {
            None
        },
        _ => None,
    }
}

/// `serde_json::Value::get` with a name: the member of that name, if the value is an
/// object that has one.
#[verifier::external_body]
pub(crate) fn member<'a>(value: &'a serde_json::Value, name: &str) -> (r: Option<
    &'a serde_json::Value,
>)
    ensures
        json_member(json_content(*value), name@) == (match r {
            Some(found) => Some(json_content(*found)),
            None => None,
        }),
{
    value.get(name)
}

/// The number that a JSON value is, if it is a whole number of 64 bits.
pub open spec fn json_unsigned(json: Json) -> Option<u64> {
    match json {
        Json::Unsigned(n) => Some(n),
        _ => None,
    }
}

/// `serde_json::Value::as_u64`: the number, if the value is a whole number of 64 bits.
pub assume_specification[ serde_json::Value::as_u64 ](value: &serde_json::Value) -> (r: Option<u64>)
    ensures
        r == json_unsigned(json_content(*value)),
;

/// The truth value that a JSON value is.
pub open spec fn json_bool(json: Json) -> Option<bool> {
    match json {
        Json::Bool(b) => Some(b),
        _ => None,
    }
}

/// `serde_json::Value::as_bool`: the truth value, if the value is one.
pub assume_specification[ serde_json::Value::as_bool ](value: &serde_json::Value) -> (r: Option<
    bool,
>)
    ensures
        r == json_bool(json_content(*value)),
;

/// The text that a JSON value is.
pub open spec fn json_text(json: Json) -> Option<Seq<char>> {
    match json {
        Json::Text(text) => Some(text),
        _ => None,
    }
}

/// `serde_json::Value::as_str`: the text, if the value is one.
pub assume_specification[ serde_json::Value::as_str ](value: &serde_json::Value) -> (r: Option<&str>)
    ensures
        json_text(json_content(*value)) == (match r {
            Some(text) => Some(text@),
            None => None,
        }),
;

/// The items of a JSON list.
pub open spec fn json_items(json: Json) -> Option<Seq<Json>> {
    match json {
        Json::List(items) => Some(items),
        _ => None,
    }
}

/// `serde_json::Value::as_array`: the items, if the value is a list.
pub assume_specification[ serde_json::Value::as_array ](value: &serde_json::Value) -> (r: Option<
    &Vec<serde_json::Value>,
>)
    ensures
        json_items(json_content(*value)) == (match r {
            Some(items) => Some(Seq::new(items@.len(), |i: int| json_content(items@[i]))),
            None => None,
        }),
;

/// Whether the name of a member is one that `serde_json` may keep for itself: those begin
/// with a dollar sign.
pub open spec fn is_reserved(name: Seq<char>) -> bool {
    name.len() > 0 && name[0] == '$'
}

/// Whether the numbers in a JSON value are whole ones of 64 bits, no name of a member is
/// reserved, and lists and objects stand in each other no more than so many levels deep.
pub open spec fn is_plain(json: Json, levels: nat) -> bool
    decreases levels,
{
    match json {
        Json::List(items) => levels > 0 && forall|i: int|
            0 <= i < items.len() ==> is_plain(#[trigger] items[i], (levels - 1) as nat),
        Json::Object(members) => levels > 0 && forall|name: Seq<char>| #[trigger]
            members.contains_key(name) ==> !is_reserved(name) && is_plain(
            members[name],
            (levels - 1) as nat,
        ),
        Json::OtherNumber => false,
        _ => true,
    }
}

/// The `Display` form of `serde_json::Value`: a text that reads back as what the value
/// holds. That is claimed of values up to a hundred levels deep, where the parser refuses
/// more than about a hundred and twenty, without fractions, which it may round, and without
/// names that begin with a dollar sign: under one of those it takes an object for a text of
/// JSON.
#[verifier::external_body]
pub(crate) fn write_json(value: &serde_json::Value) -> (r: String)
    ensures
        is_plain(json_content(*value), 100) ==> json_of_text(r@) == Some(json_content(*value)),
{
    value.to_string()
}

/// `serde_json::Value::from` on a number: a whole number.
#[verifier::external_body]
pub(crate) fn number_value(n: u64) -> (r: serde_json::Value)
    ensures
        json_content(r) == Json::Unsigned(n),
{
    serde_json::Value::from(n)
}

/// `serde_json::Value::from` on a truth value: the truth value.
#[verifier::external_body]
pub(crate) fn flag_value(b: bool) -> (r: serde_json::Value)
    ensures
        json_content(r) == Json::Bool(b),
{
    serde_json::Value::from(b)
}

/// `serde_json::Value::from` on a text: the text.
#[verifier::external_body]
pub(crate) fn text_value(text: &str) -> (r: serde_json::Value)
    ensures
        json_content(r) == Json::Text(text@),
{
    serde_json::Value::from(text)
}

/// `serde_json::Value::from` on a list of values: the list of what they hold.
#[verifier::external_body]
pub(crate) fn list_value(items: Vec<serde_json::Value>) -> (r: serde_json::Value)
    ensures
        json_content(r) == Json::List(Seq::new(items@.len(), |i: int| json_content(items@[i]))),
{
    serde_json::Value::from(items)
}

/// `serde_json::Map::new`: an object without members.
#[verifier::external_body]
pub(crate) fn empty_object() -> (r: serde_json::Value)
    ensures
        (json_content(r) == Json::Object(Map::<Seq<char>, Json>::empty())),
{
    serde_json::Value::Object(serde_json::Map::new())
}

/// The index operator of `serde_json::Value` with a name, assigned to: the object gets the
/// member, in place of the one that it had under that name.
#[verifier::external_body]
pub(crate) fn set_member(value: &mut serde_json::Value, name: &str, content: serde_json::Value)
    requires
        json_content(*old(value)) is Object,
    ensures
        json_content(*final(value)) == Json::Object(
            json_content(*old(value))->Object_0.insert(name@, json_content(content)),
        ),
{
    value[name] = content;
}

} // verus!
