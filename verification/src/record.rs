//! The record that a download in parts leaves on disk: what of it is finished, and what is
//! needed to take it up again.

use crate::lists::{copy_list, each, maybe};
use crate::manifest::{contents, flag_in, items_in, kind_of, number_in};
use crate::outside::{
    empty_object, flag_value, is_plain, is_reserved, json_content, json_member, json_of_text,
    json_text, list_value, member, number_value, parse_json, set_member, text_value, write_json,
    Json,
};
use crate::state::{copy_headers, media_label, HeaderPair, HeaderPairView, MediaType};
use crate::text::same_text;
use vstd::prelude::*;

verus! {

/// A range of bytes of a file, and whether it has come.
#[derive(Clone, Copy, Debug, PartialEq, Eq, Structural)]
pub struct RangePart {
    pub start: u64,
    pub end: u64,
    pub completed: bool,
}

/// A segment: whether it has come, and how many bytes it was.
#[derive(Clone, Copy, Debug, PartialEq, Eq, Structural)]
pub struct SegmentPart {
    pub bytes: u64,
    pub completed: bool,
}

/// The record of a download in parts.
#[derive(Debug)]
pub struct Record {
    pub title: String,
    pub url: String,
    pub media_type: MediaType,
    pub media_id: u128,
    pub headers: Vec<HeaderPair>,
    /// Whether the parts are segments; else they are ranges.
    pub segmented: bool,
    pub total_bytes: u64,
    pub segments: Vec<SegmentPart>,
    pub ranges: Vec<RangePart>,
}

#[verifier::ext_equal]
pub struct RecordView {
    pub title: Seq<char>,
    pub url: Seq<char>,
    pub media_type: MediaType,
    pub media_id: u128,
    pub headers: Seq<HeaderPairView>,
    pub segmented: bool,
    pub total_bytes: u64,
    pub segments: Seq<SegmentPart>,
    pub ranges: Seq<RangePart>,
}

impl View for Record {
    type V = RecordView;

    open spec fn view(&self) -> RecordView {
        RecordView {
            title: self.title@,
            url: self.url@,
            media_type: self.media_type,
            media_id: self.media_id,
            headers: each(self.headers@),
            segmented: self.segmented,
            total_bytes: self.total_bytes,
            segments: self.segments@,
            ranges: self.ranges@,
        }
    }
}

impl Clone for Record {
    fn clone(&self) -> (r: Self)
        ensures
            r@ == self@,
    {
        Record {
            title: self.title.clone(),
            url: self.url.clone(),
            media_type: self.media_type,
            media_id: self.media_id,
            headers: copy_headers(&self.headers),
            segmented: self.segmented,
            total_bytes: self.total_bytes,
            segments: copy_list(&self.segments),
            ranges: copy_list(&self.ranges),
        }
    }
}

/// The record after the segment at `index` has come with so many bytes.
pub open spec fn with_segment(record: RecordView, index: int, bytes: u64) -> RecordView {
    if 0 <= index < record.segments.len() {
        RecordView {
            segments: record.segments.update(index, SegmentPart { bytes, completed: true }),
            ..record
        }
    } else {
        record
    }
}

/// The record after the range at `index` has come.
pub open spec fn with_range(record: RecordView, index: int) -> RecordView {
    if 0 <= index < record.ranges.len() {
        RecordView {
            ranges: record.ranges.update(
                index,
                RangePart { completed: true, ..record.ranges[index] },
            ),
            ..record
        }
    } else {
        record
    }
}

impl Record {
    /// Notes that a segment has come.
    pub fn finish_segment(&mut self, index: usize, bytes: u64)
        ensures
            final(self)@ == with_segment(old(self)@, index as int, bytes),
    {
        if index < self.segments.len() {
            self.segments.set(index, SegmentPart { bytes, completed: true });
        }
    }

    /// Notes that a range has come.
    pub fn finish_range(&mut self, index: usize)
        ensures
            final(self)@ == with_range(old(self)@, index as int),
    {
        if index < self.ranges.len() {
            let part = self.ranges[index];
            self.ranges.set(
                index,
                RangePart { start: part.start, end: part.end, completed: true },
            );
        }
    }
}

/// A segment as JSON.
pub open spec fn segment_json(index: int, part: SegmentPart) -> Json {
    Json::Object(
        Map::<Seq<char>, Json>::empty().insert("index"@, Json::Unsigned(index as u64)).insert(
            "bytes"@,
            Json::Unsigned(part.bytes),
        ).insert("completed"@, Json::Bool(part.completed)),
    )
}

/// A range as JSON.
pub open spec fn range_json(part: RangePart) -> Json {
    Json::Object(
        Map::<Seq<char>, Json>::empty().insert("start"@, Json::Unsigned(part.start)).insert(
            "end"@,
            Json::Unsigned(part.end),
        ).insert("completed"@, Json::Bool(part.completed)),
    )
}

/// A header as JSON.
pub open spec fn header_json(pair: HeaderPairView) -> Json {
    Json::Object(
        Map::<Seq<char>, Json>::empty().insert("name"@, Json::Text(pair.name)).insert(
            "value"@,
            Json::Text(pair.value),
        ),
    )
}

/// The number of parts of a record.
pub open spec fn parts_in(record: RecordView) -> nat {
    if record.segmented {
        record.segments.len()
    } else {
        record.ranges.len()
    }
}

/// What a record says, as the members of a JSON object.
pub open spec fn record_members(record: RecordView) -> Map<Seq<char>, Json> {
    Map::<Seq<char>, Json>::empty().insert(
        "kind"@,
        Json::Text(
            if record.segmented {
                "Hls"@
            } else {
                "Range"@
            },
        ),
    ).insert("total_parts"@, Json::Unsigned(parts_in(record) as u64)).insert(
        "total_bytes"@,
        Json::Unsigned(record.total_bytes),
    ).insert(
        "hls_parts"@,
        Json::List(
            Seq::new(record.segments.len(), |i: int| segment_json(i, record.segments[i])),
        ),
    ).insert(
        "range_parts"@,
        Json::List(Seq::new(record.ranges.len(), |i: int| range_json(record.ranges[i]))),
    ).insert("title"@, Json::Text(record.title)).insert("url"@, Json::Text(record.url)).insert(
        "media_type"@,
        Json::Text(media_label(record.media_type)),
    ).insert("media_high"@, Json::Unsigned((record.media_id / 0x1_0000_0000_0000_0000) as u64)).insert(
        "media_low"@,
        Json::Unsigned((record.media_id % 0x1_0000_0000_0000_0000) as u64),
    ).insert(
        "headers"@,
        Json::List(Seq::new(record.headers.len(), |i: int| header_json(record.headers[i]))),
    )
}

/// A record as JSON.
pub open spec fn record_json(record: RecordView) -> Json {
    Json::Object(record_members(record))
}

fn segment_value(index: usize, part: &SegmentPart) -> (r: serde_json::Value)
    ensures
        json_content(r) == segment_json(index as int, *part),
{
    let mut value = empty_object();
    set_member(&mut value, "index", number_value(index as u64));
    set_member(&mut value, "bytes", number_value(part.bytes));
    set_member(&mut value, "completed", flag_value(part.completed));
    value
}

fn range_value(part: &RangePart) -> (r: serde_json::Value)
    ensures
        json_content(r) == range_json(*part),
{
    let mut value = empty_object();
    set_member(&mut value, "start", number_value(part.start));
    set_member(&mut value, "end", number_value(part.end));
    set_member(&mut value, "completed", flag_value(part.completed));
    value
}

fn header_value(pair: &HeaderPair) -> (r: serde_json::Value)
    ensures
        json_content(r) == header_json(pair@),
{
    let mut value = empty_object();
    set_member(&mut value, "name", text_value(pair.name.as_str()));
    set_member(&mut value, "value", text_value(pair.value.as_str()));
    value
}

fn segment_list(parts: &Vec<SegmentPart>) -> (r: serde_json::Value)
    ensures
        json_content(r) == Json::List(
            Seq::new(parts@.len(), |i: int| segment_json(i, parts@[i])),
        ),
{
    let mut list: Vec<serde_json::Value> = Vec::new();
    let mut i: usize = 0;
    while i < parts.len()
        invariant
            i <= parts.len(),
            contents(list@) == Seq::new(i as nat, |k: int| segment_json(k, parts@[k])),
        decreases parts.len() - i,
    {
        let ghost was = contents(list@);
        let value = segment_value(i, &parts[i]);
        list.push(value);
        i = i + 1;
        proof {
            assert(contents(list@) =~= was.push(json_content(value)));
            assert(contents(list@) =~= Seq::new(i as nat, |k: int| segment_json(k, parts@[k])));
        }
    }
    list_value(list)
}

fn range_list(parts: &Vec<RangePart>) -> (r: serde_json::Value)
    ensures
        json_content(r) == Json::List(Seq::new(parts@.len(), |i: int| range_json(parts@[i]))),
{
    let mut list: Vec<serde_json::Value> = Vec::new();
    let mut i: usize = 0;
    while i < parts.len()
        invariant
            i <= parts.len(),
            contents(list@) == Seq::new(i as nat, |k: int| range_json(parts@[k])),
        decreases parts.len() - i,
    {
        let ghost was = contents(list@);
        let value = range_value(&parts[i]);
        list.push(value);
        i = i + 1;
        proof {
            assert(contents(list@) =~= was.push(json_content(value)));
            assert(contents(list@) =~= Seq::new(i as nat, |k: int| range_json(parts@[k])));
        }
    }
    list_value(list)
}

fn header_list(headers: &Vec<HeaderPair>) -> (r: serde_json::Value)
    ensures
        json_content(r) == Json::List(
            Seq::new(headers@.len(), |i: int| header_json(each(headers@)[i])),
        ),
{
    let mut list: Vec<serde_json::Value> = Vec::new();
    let mut i: usize = 0;
    while i < headers.len()
        invariant
            i <= headers.len(),
            contents(list@) == Seq::new(i as nat, |k: int| header_json(each(headers@)[k])),
        decreases headers.len() - i,
    {
        let ghost was = contents(list@);
        let value = header_value(&headers[i]);
        list.push(value);
        i = i + 1;
        proof {
            assert(each(headers@)[i - 1] == headers@[i - 1]@);
            assert(contents(list@) =~= was.push(json_content(value)));
            assert(contents(list@) =~= Seq::new(
                i as nat,
                |k: int| header_json(each(headers@)[k]),
            ));
        }
    }
    list_value(list)
}

/// A record as a JSON value.
pub fn record_value(record: &Record) -> (r: serde_json::Value)
    ensures
        json_content(r) == record_json(record@),
{
    let mut value = empty_object();
    let kind = if record.segmented {
        "Hls"
    } else {
        "Range"
    };
    let count: u64 = if record.segmented {
        record.segments.len() as u64
    } else {
        record.ranges.len() as u64
    };
    let high: u64 = (record.media_id / 0x1_0000_0000_0000_0000) as u64;
    let low: u64 = (record.media_id % 0x1_0000_0000_0000_0000) as u64;
    set_member(&mut value, "kind", text_value(kind));
    set_member(&mut value, "total_parts", number_value(count));
    set_member(&mut value, "total_bytes", number_value(record.total_bytes));
    set_member(&mut value, "hls_parts", segment_list(&record.segments));
    set_member(&mut value, "range_parts", range_list(&record.ranges));
    set_member(&mut value, "title", text_value(record.title.as_str()));
    set_member(&mut value, "url", text_value(record.url.as_str()));
    set_member(&mut value, "media_type", text_value(record.media_type.label()));
    set_member(&mut value, "media_high", number_value(high));
    set_member(&mut value, "media_low", number_value(low));
    set_member(&mut value, "headers", header_list(&record.headers));
    value
}

proof fn lemma_more_members(members: Map<Seq<char>, Json>, name: Seq<char>, value: Json, levels: nat)
    requires
        forall|key: Seq<char>| #[trigger]
            members.contains_key(key) ==> !is_reserved(key) && is_plain(members[key], levels),
        !is_reserved(name),
        is_plain(value, levels),
    ensures
        forall|key: Seq<char>| #[trigger]
            members.insert(name, value).contains_key(key) ==> !is_reserved(key) && is_plain(
                members.insert(name, value)[key],
                levels,
            ),
{
}

proof fn lemma_names_are_free()
    ensures
        !is_reserved("kind"@),
        !is_reserved("total_parts"@),
        !is_reserved("total_bytes"@),
        !is_reserved("hls_parts"@),
        !is_reserved("range_parts"@),
        !is_reserved("title"@),
        !is_reserved("url"@),
        !is_reserved("media_type"@),
        !is_reserved("media_high"@),
        !is_reserved("media_low"@),
        !is_reserved("headers"@),
{
    reveal_strlit("kind");
    reveal_strlit("total_parts");
    reveal_strlit("total_bytes");
    reveal_strlit("hls_parts");
    reveal_strlit("range_parts");
    reveal_strlit("title");
    reveal_strlit("url");
    reveal_strlit("media_type");
    reveal_strlit("media_high");
    reveal_strlit("media_low");
    reveal_strlit("headers");
}

proof fn lemma_record_levels(record: RecordView)
    ensures
        is_plain(record_json(record), 100),
{
    reveal_with_fuel(is_plain, 4);
    lemma_part_levels();
    lemma_names_are_free();
    let m0 = Map::<Seq<char>, Json>::empty();
    let kind = Json::Text(
        if record.segmented {
            "Hls"@
        } else {
            "Range"@
        },
    );
    let count = Json::Unsigned(parts_in(record) as u64);
    let total = Json::Unsigned(record.total_bytes);
    let segments = Json::List(
        Seq::new(record.segments.len(), |i: int| segment_json(i, record.segments[i])),
    );
    let ranges = Json::List(
        Seq::new(record.ranges.len(), |i: int| range_json(record.ranges[i])),
    );
    let title = Json::Text(record.title);
    let url = Json::Text(record.url);
    let media = Json::Text(media_label(record.media_type));
    let high = Json::Unsigned((record.media_id / 0x1_0000_0000_0000_0000) as u64);
    let low = Json::Unsigned((record.media_id % 0x1_0000_0000_0000_0000) as u64);
    let headers = Json::List(
        Seq::new(record.headers.len(), |i: int| header_json(record.headers[i])),
    );
    let m1 = m0.insert("kind"@, kind);
    let m2 = m1.insert("total_parts"@, count);
    let m3 = m2.insert("total_bytes"@, total);
    let m4 = m3.insert("hls_parts"@, segments);
    let m5 = m4.insert("range_parts"@, ranges);
    let m6 = m5.insert("title"@, title);
    let m7 = m6.insert("url"@, url);
    let m8 = m7.insert("media_type"@, media);
    let m9 = m8.insert("media_high"@, high);
    let m10 = m9.insert("media_low"@, low);
    lemma_more_members(m0, "kind"@, kind, 99);
    lemma_more_members(m1, "total_parts"@, count, 99);
    lemma_more_members(m2, "total_bytes"@, total, 99);
    lemma_more_members(m3, "hls_parts"@, segments, 99);
    lemma_more_members(m4, "range_parts"@, ranges, 99);
    lemma_more_members(m5, "title"@, title, 99);
    lemma_more_members(m6, "url"@, url, 99);
    lemma_more_members(m7, "media_type"@, media, 99);
    lemma_more_members(m8, "media_high"@, high, 99);
    lemma_more_members(m9, "media_low"@, low, 99);
    lemma_more_members(m10, "headers"@, headers, 99);
    assert(record_members(record) == m10.insert("headers"@, headers));
}

proof fn lemma_part_levels()
    ensures
        forall|i: int, part: SegmentPart| is_plain(#[trigger] segment_json(i, part), 98),
        forall|part: RangePart| is_plain(#[trigger] range_json(part), 98),
        forall|pair: HeaderPairView| is_plain(#[trigger] header_json(pair), 98),
{
    reveal_with_fuel(is_plain, 2);
    reveal_strlit("index");
    reveal_strlit("bytes");
    reveal_strlit("completed");
    reveal_strlit("start");
    reveal_strlit("end");
    reveal_strlit("name");
    reveal_strlit("value");
}

/// A record as it is written to disk: the text reads back as the record.
pub fn write_record(record: &Record) -> (r: String)
    ensures
        json_of_text(r@) == Some(record_json(record@)),
{
    proof {
        lemma_record_levels(record@);
    }
    write_json(&record_value(record))
}

/// The text that a member is, or the empty one.
pub open spec fn text_in(json: Json, name: Seq<char>) -> Seq<char> {
    match json_member(json, name) {
        Some(value) => match json_text(value) {
            Some(text) => text,
            None => Seq::empty(),
        },
        None => Seq::empty(),
    }
}

/// The kind of media with the given name.
pub open spec fn media_named(name: Seq<char>) -> Option<MediaType> {
    if name == media_label(MediaType::Hls) {
        Some(MediaType::Hls)
    } else if name == media_label(MediaType::Dash) {
        Some(MediaType::Dash)
    } else if name == media_label(MediaType::Mp4) {
        Some(MediaType::Mp4)
    } else if name == media_label(MediaType::Webm) {
        Some(MediaType::Webm)
    } else if name == media_label(MediaType::Unknown) {
        Some(MediaType::Unknown)
    } else {
        None
    }
}

/// What is recorded of the segment at `index`.
pub open spec fn segment_in(json: Json, index: int) -> SegmentPart {
    SegmentPart {
        bytes: number_in(json, "bytes"@),
        completed: flag_in(json, "completed"@) && number_in(json, "index"@) == index,
    }
}

/// What is recorded of a range.
pub open spec fn range_in(json: Json) -> RangePart {
    RangePart {
        start: number_in(json, "start"@),
        end: number_in(json, "end"@),
        completed: flag_in(json, "completed"@),
    }
}

/// What is recorded of a header.
pub open spec fn header_in(json: Json) -> HeaderPairView {
    HeaderPairView { name: text_in(json, "name"@), value: text_in(json, "value"@) }
}

/// The record that a JSON value is, if it is one.
pub open spec fn record_of(json: Json) -> Option<RecordView> {
    let segments = items_in(json, "hls_parts"@);
    let ranges = items_in(json, "range_parts"@);
    let headers = items_in(json, "headers"@);
    match media_named(text_in(json, "media_type"@)) {
        Some(media_type) if kind_of(json) == "Hls"@ || kind_of(json) == "Range"@ => Some(
            RecordView {
                title: text_in(json, "title"@),
                url: text_in(json, "url"@),
                media_type,
                media_id: (number_in(json, "media_high"@) * 0x1_0000_0000_0000_0000 + number_in(
                    json,
                    "media_low"@,
                )) as u128,
                headers: Seq::new(headers.len(), |i: int| header_in(headers[i])),
                segmented: kind_of(json) == "Hls"@,
                total_bytes: number_in(json, "total_bytes"@),
                segments: Seq::new(segments.len(), |i: int| segment_in(segments[i], i)),
                ranges: Seq::new(ranges.len(), |i: int| range_in(ranges[i])),
            },
        ),
        _ => None,
    }
}

fn number_of(value: &serde_json::Value, name: &str) -> (r: u64)
    ensures
        r == number_in(json_content(*value), name@),
{
    match member(value, name) {
        Some(found) => match found.as_u64() {
            Some(n) => n,
            None => 0,
        },
        None => 0,
    }
}

fn flag_of(value: &serde_json::Value, name: &str) -> (r: bool)
    ensures
        r == flag_in(json_content(*value), name@),
{
    match member(value, name) {
        Some(found) => match found.as_bool() {
            Some(flag) => flag,
            None => false,
        },
        None => false,
    }
}

fn text_of(value: &serde_json::Value, name: &str) -> (r: String)
    ensures
        r@ == text_in(json_content(*value), name@),
{
    match member(value, name) {
        Some(found) => match found.as_str() {
            Some(text) => text.to_string(),
            None => String::new(),
        },
        None => String::new(),
    }
}

fn media_of(name: &str) -> (r: Option<MediaType>)
    ensures
        r == media_named(name@),
{
    if same_text(name, MediaType::Hls.label()) {
        Some(MediaType::Hls)
    } else if same_text(name, MediaType::Dash.label()) {
        Some(MediaType::Dash)
    } else if same_text(name, MediaType::Mp4.label()) {
        Some(MediaType::Mp4)
    } else if same_text(name, MediaType::Webm.label()) {
        Some(MediaType::Webm)
    } else if same_text(name, MediaType::Unknown.label()) {
        Some(MediaType::Unknown)
    } else {
        None
    }
}

fn read_segments(list: &Vec<serde_json::Value>) -> (r: Vec<SegmentPart>)
    ensures
        r@ == Seq::new(list@.len(), |i: int| segment_in(contents(list@)[i], i)),
{
    let mut out: Vec<SegmentPart> = Vec::new();
    let mut i: usize = 0;
    while i < list.len()
        invariant
            i <= list.len(),
            out@ == Seq::new(i as nat, |k: int| segment_in(contents(list@)[k], k)),
        decreases list.len() - i,
    {
        let one = &list[i];
        out.push(
            SegmentPart {
                bytes: number_of(one, "bytes"),
                completed: flag_of(one, "completed") && number_of(one, "index") == i as u64,
            },
        );
        i = i + 1;
        proof {
            assert(contents(list@)[i - 1] == json_content(list@[i - 1]));
            assert(out@ =~= Seq::new(i as nat, |k: int| segment_in(contents(list@)[k], k)));
        }
    }
    out
}

fn read_ranges(list: &Vec<serde_json::Value>) -> (r: Vec<RangePart>)
    ensures
        r@ == Seq::new(list@.len(), |i: int| range_in(contents(list@)[i])),
{
    let mut out: Vec<RangePart> = Vec::new();
    let mut i: usize = 0;
    while i < list.len()
        invariant
            i <= list.len(),
            out@ == Seq::new(i as nat, |k: int| range_in(contents(list@)[k])),
        decreases list.len() - i,
    {
        let one = &list[i];
        out.push(
            RangePart {
                start: number_of(one, "start"),
                end: number_of(one, "end"),
                completed: flag_of(one, "completed"),
            },
        );
        i = i + 1;
        proof {
            assert(contents(list@)[i - 1] == json_content(list@[i - 1]));
            assert(out@ =~= Seq::new(i as nat, |k: int| range_in(contents(list@)[k])));
        }
    }
    out
}

fn read_headers(list: &Vec<serde_json::Value>) -> (r: Vec<HeaderPair>)
    ensures
        each(r@) == Seq::new(list@.len(), |i: int| header_in(contents(list@)[i])),
{
    let mut out: Vec<HeaderPair> = Vec::new();
    let mut i: usize = 0;
    while i < list.len()
        invariant
            i <= list.len(),
            each(out@) == Seq::new(i as nat, |k: int| header_in(contents(list@)[k])),
        decreases list.len() - i,
    {
        let one = &list[i];
        let ghost was = each(out@);
        let pair = HeaderPair { name: text_of(one, "name"), value: text_of(one, "value") };
        out.push(pair);
        i = i + 1;
        proof {
            assert(contents(list@)[i - 1] == json_content(list@[i - 1]));
            assert(each(out@) =~= was.push(pair@));
            assert(each(out@) =~= Seq::new(i as nat, |k: int| header_in(contents(list@)[k])));
        }
    }
    out
}

fn list_of<'a>(
    value: &'a serde_json::Value,
    name: &str,
    none: &'a Vec<serde_json::Value>,
) -> (r: &'a Vec<serde_json::Value>)
    requires
        none@.len() == 0,
    ensures
        contents(r@) == items_in(json_content(*value), name@),
{
    proof {
        assert(contents(none@) =~= Seq::<Json>::empty());
    }
    match member(value, name) {
        Some(found) => match found.as_array() {
            Some(items) => items,
            None => none,
        },
        None => none,
    }
}

fn kind_text(value: &serde_json::Value) -> (r: String)
    ensures
        r@ == kind_of(json_content(*value)),
{
    match member(value, "kind") {
        Some(found) => match found.as_str() {
            Some(text) => text.to_string(),
            None => "Unknown".to_string(),
        },
        None => "Unknown".to_string(),
    }
}

/// The record that a JSON value is, if it is one.
pub fn record_from(value: &serde_json::Value) -> (r: Option<Record>)
    ensures
        maybe(r) == record_of(json_content(*value)),
{
    let kind = kind_text(value);
    let segmented = same_text(kind.as_str(), "Hls");
    if !segmented && !same_text(kind.as_str(), "Range") {
        return None;
    }
    let media_type = match media_of(text_of(value, "media_type").as_str()) {
        Some(media_type) => media_type,
        None => return None,
    };
    let none: Vec<serde_json::Value> = Vec::new();
    let high: u128 = number_of(value, "media_high") as u128;
    let low: u128 = number_of(value, "media_low") as u128;
    let record = Record {
        title: text_of(value, "title"),
        url: text_of(value, "url"),
        media_type,
        media_id: high * 0x1_0000_0000_0000_0000 + low,
        headers: read_headers(list_of(value, "headers", &none)),
        segmented,
        total_bytes: number_of(value, "total_bytes"),
        segments: read_segments(list_of(value, "hls_parts", &none)),
        ranges: read_ranges(list_of(value, "range_parts", &none)),
    };
    Some(record)
}

/// The record that a text is, if it is one.
pub fn read_record(text: &str) -> (r: Option<Record>)
    ensures
        maybe(r) == (match json_of_text(text@) {
            Some(json) => record_of(json),
            None => None,
        }),
{
    match parse_json(text) {
        Some(value) => record_from(&value),
        None => None,
    }
}

} // verus!
