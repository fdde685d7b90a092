//! The record that a download in parts leaves on disk, in short.

use crate::display::{human_bytes, size_text};
use crate::lists::{each, maybe};
use crate::outside::{
    json_bool, json_content, json_items, json_member, json_of_text, json_text, json_unsigned,
    member, parse_json, Json,
};
use crate::text::{decimal, number, same_text};
use vstd::prelude::*;

verus! {

/// The truth value of a member.
pub open spec fn flag_in(json: Json, name: Seq<char>) -> bool {
    match json_member(json, name) {
        Some(value) => json_bool(value) == Some(true),
        None => false,
    }
}

/// The number that a member is, or 0.
pub open spec fn number_in(json: Json, name: Seq<char>) -> u64 {
    match json_member(json, name) {
        Some(value) => match json_unsigned(value) {
            Some(n) => n,
            None => 0,
        },
        None => 0,
    }
}

/// The items of a member that is a list; none if it is no list.
pub open spec fn items_in(json: Json, name: Seq<char>) -> Seq<Json> {
    match json_member(json, name) {
        Some(value) => match json_items(value) {
            Some(items) => items,
            None => Seq::empty(),
        },
        None => Seq::empty(),
    }
}

/// Whether a part is recorded as done.
pub open spec fn is_done(part: Json) -> bool {
    flag_in(part, "completed"@)
}

/// The parts recorded as done, in their order.
pub open spec fn done_parts(parts: Seq<Json>) -> Seq<Json>
    decreases parts.len(),
{
    if parts.len() == 0 {
        parts
    } else if is_done(parts.last()) {
        done_parts(parts.drop_last()).push(parts.last())
    } else {
        done_parts(parts.drop_last())
    }
}

/// The bytes of all segments together.
pub open spec fn segment_bytes(parts: Seq<Json>) -> nat
    decreases parts.len(),
{
    if parts.len() == 0 {
        0
    } else {
        segment_bytes(parts.drop_last()) + number_in(parts.last(), "bytes"@) as nat
    }
}

/// The first and the last byte of a range.
pub open spec fn bounds(part: Json) -> (u64, u64) {
    (number_in(part, "start"@), number_in(part, "end"@))
}

/// The number of bytes from the first to the last, as far as 64 bits hold it; one if the
/// last comes no later than the first.
pub open spec fn range_size(start: u64, end: u64) -> u64 {
    if end <= start {
        1
    } else if end - start == u64::MAX {
        u64::MAX
    } else {
        (end - start + 1) as u64
    }
}

/// The bytes of all ranges together.
pub open spec fn range_bytes(parts: Seq<Json>) -> nat
    decreases parts.len(),
{
    if parts.len() == 0 {
        0
    } else {
        let (start, end) = bounds(parts.last());
        range_bytes(parts.drop_last()) + range_size(start, end) as nat
    }
}

/// The most lines shown.
pub const SHOWN: usize = 80;

/// The first parts, as many as are shown.
pub open spec fn shown(parts: Seq<Json>) -> Seq<Json> {
    if parts.len() > SHOWN {
        parts.take(SHOWN as int)
    } else {
        parts
    }
}

/// What is said of a segment.
pub open spec fn segment_line(part: Json) -> Seq<char> {
    "#"@ + decimal(number_in(part, "index"@) as nat) + ": "@ + (if is_done(part) {
        "完成"@
    } else {
        "待下载"@
    }) + " · "@ + size_text(number_in(part, "bytes"@))
}

/// What is said of a range.
pub open spec fn range_line(part: Json) -> Seq<char> {
    let (start, end) = bounds(part);
    decimal(start as nat) + "-"@ + decimal(end as nat) + ": 完成 · "@ + size_text(
        range_size(start, end),
    )
}

/// What is said of segments.
pub open spec fn segment_lines(parts: Seq<Json>) -> Seq<Seq<char>> {
    Seq::new(parts.len(), |i: int| segment_line(parts[i]))
}

/// What is said of ranges.
pub open spec fn range_lines(parts: Seq<Json>) -> Seq<Seq<char>> {
    Seq::new(parts.len(), |i: int| range_line(parts[i]))
}

/// The different ranges among the parts.
pub open spec fn different_ranges(parts: Seq<Json>) -> Set<(u64, u64)> {
    Seq::new(parts.len(), |i: int| bounds(parts[i])).to_set()
}

/// The record of a download in short.
#[derive(Debug)]
pub struct ManifestSummary {
    pub kind: String,
    pub total_parts: Option<usize>,
    pub completed_parts: usize,
    pub pending_parts: Option<usize>,
    pub downloaded_bytes: u64,
    pub preview_lines: Vec<String>,
}

#[verifier::ext_equal]
pub struct ManifestSummaryView {
    pub kind: Seq<char>,
    pub total_parts: Option<usize>,
    pub completed_parts: nat,
    pub pending_parts: Option<usize>,
    pub downloaded_bytes: nat,
    pub preview_lines: Seq<Seq<char>>,
}

impl View for ManifestSummary {
    type V = ManifestSummaryView;

    open spec fn view(&self) -> ManifestSummaryView {
        ManifestSummaryView {
            kind: self.kind@,
            total_parts: self.total_parts,
            completed_parts: self.completed_parts as nat,
            pending_parts: self.pending_parts,
            downloaded_bytes: self.downloaded_bytes as nat,
            preview_lines: each(self.preview_lines@),
        }
    }
}

/// The kind of parts that a record is of.
pub open spec fn kind_of(json: Json) -> Seq<char> {
    match json_member(json, "kind"@) {
        Some(value) => match json_text(value) {
            Some(text) => text,
            None => "Unknown"@,
        },
        None => "Unknown"@,
    }
}

/// The number of parts, if the record states one other than 0.
pub open spec fn part_total(json: Json) -> Option<usize> {
    match json_member(json, "total_parts"@) {
        Some(value) => match json_unsigned(value) {
            Some(n) if n as usize > 0 => Some(n as usize),
            _ => None,
        },
        None => None,
    }
}

/// How many parts are left when so many are done.
pub open spec fn left_of(total: usize, done: nat) -> usize {
    if done >= total {
        0
    } else {
        (total - done) as usize
    }
}

/// The record of a download in short: of segments, those done are counted and all shown;
/// of ranges, those done are counted, each once, and shown.
pub open spec fn summary_of(json: Json) -> ManifestSummaryView {
    let kind = kind_of(json);
    let total = part_total(json);
    if kind == "Hls"@ {
        let parts = items_in(json, "hls_parts"@);
        let done = done_parts(parts);
        ManifestSummaryView {
            kind,
            total_parts: total,
            completed_parts: done.len(),
            pending_parts: match total {
                Some(total) => Some(left_of(total, done.len())),
                None => None,
            },
            downloaded_bytes: segment_bytes(done),
            preview_lines: segment_lines(shown(parts)),
        }
    } else {
        let done = done_parts(items_in(json, "range_parts"@));
        ManifestSummaryView {
            kind,
            total_parts: total,
            completed_parts: different_ranges(done).len(),
            pending_parts: None,
            downloaded_bytes: range_bytes(done),
            preview_lines: range_lines(shown(done)),
        }
    }
}

fn number_of(value: &serde_json::Value, name: &str) -> (r: u64)
    ensures
        r == number_in(json_content(*value), name@),
{
    match member(value, name) {
        Some(found) => match found.as_u64() {
            Some(n) => n,
            None => 0,
        },
        None => 0,
    }
}

fn done(value: &serde_json::Value) -> (r: bool)
    ensures
        r == is_done(json_content(*value)),
{
    match member(value, "completed") {
        Some(found) => match found.as_bool() {
            Some(flag) => flag,
            None => false,
        },
        None => false,
    }
}

/// What JSON values hold.
pub open spec fn contents(list: Seq<serde_json::Value>) -> Seq<Json> {
    Seq::new(list.len(), |i: int| json_content(list[i]))
}

fn size_of_range(start: u64, end: u64) -> (r: u64)
    ensures
        r == range_size(start, end),
{
    end.saturating_sub(start).saturating_add(1)
}

fn write_segment(part: &serde_json::Value) -> (r: String)
    ensures
        r@ == segment_line(json_content(*part)),
{
    let mut line = "#".to_string();
    line.append(number(number_of(part, "index")).as_str());
    line.append(": ");
    if done(part) {
        line.append("完成");
    } else {
        line.append("待下载");
    }
    line.append(" · ");
    line.append(human_bytes(number_of(part, "bytes")).as_str());
    line
}

fn write_range(part: &serde_json::Value) -> (r: String)
    ensures
        r@ == range_line(json_content(*part)),
{
    let start = number_of(part, "start");
    let end = number_of(part, "end");
    let mut line = number(start);
    line.append("-");
    line.append(number(end).as_str());
    line.append(": 完成 · ");
    line.append(human_bytes(size_of_range(start, end)).as_str());
    line
}

/// A number of bytes, if 64 bits hold it.
pub open spec fn held(bytes: nat) -> Option<u64> {
    if bytes <= u64::MAX {
        Some(bytes as u64)
    } else {
        None
    }
}

fn plus(sum: Option<u64>, bytes: u64, Ghost(before): Ghost<nat>) -> (r: Option<u64>)
    requires
        sum == held(before),
    ensures
        r == held((before + bytes) as nat),
{
    match sum {
        Some(sum) => sum.checked_add(bytes),
        None => None,
    }
}

/// What JSON values hold, given by reference.
pub open spec fn contents_at(list: Seq<&serde_json::Value>) -> Seq<Json> {
    Seq::new(list.len(), |i: int| json_content(*list[i]))
}

fn completed<'a>(parts: &'a Vec<serde_json::Value>) -> (r: Vec<&'a serde_json::Value>)
    ensures
        contents_at(r@) == done_parts(contents(parts@)),
{
    let mut out: Vec<&'a serde_json::Value> = Vec::new();
    let mut i: usize = 0;
    let ghost all = contents(parts@);
    proof {
        assert(contents_at(out@) =~= done_parts(all.take(0)));
    }
    while i < parts.len()
        invariant
            i <= parts.len(),
            all == contents(parts@),
            contents_at(out@) == done_parts(all.take(i as int)),
        decreases parts.len() - i,
    {
        let part = &parts[i];
        proof {
            assert(all.take(i + 1).drop_last() =~= all.take(i as int));
            assert(all.take(i + 1).last() == json_content(*part));
        }
        if done(part) {
            let ghost was = contents_at(out@);
            out.push(part);
            proof {
                assert(contents_at(out@) =~= was.push(json_content(*part)));
            }
        }
        i = i + 1;
    }
    proof {
        assert(all.take(parts.len() as int) =~= all);
    }
    out
}

fn sum_of_segments(parts: &Vec<&serde_json::Value>) -> (r: Option<u64>)
    ensures
        r == held(segment_bytes(contents_at(parts@))),
{
    let mut sum: Option<u64> = Some(0);
    let mut i: usize = 0;
    let ghost all = contents_at(parts@);
    proof {
        assert(all.take(0).len() == 0);
    }
    while i < parts.len()
        invariant
            i <= parts.len(),
            all == contents_at(parts@),
            sum == held(segment_bytes(all.take(i as int))),
        decreases parts.len() - i,
    {
        let part = parts[i];
        proof {
            assert(all.take(i + 1).drop_last() =~= all.take(i as int));
            assert(all.take(i + 1).last() == json_content(*part));
        }
        sum = plus(sum, number_of(part, "bytes"), Ghost(segment_bytes(all.take(i as int))));
        i = i + 1;
    }
    proof {
        assert(all.take(parts.len() as int) =~= all);
    }
    sum
}

fn sum_of_ranges(parts: &Vec<&serde_json::Value>) -> (r: Option<u64>)
    ensures
        r == held(range_bytes(contents_at(parts@))),
{
    let mut sum: Option<u64> = Some(0);
    let mut i: usize = 0;
    let ghost all = contents_at(parts@);
    proof {
        assert(all.take(0).len() == 0);
    }
    while i < parts.len()
        invariant
            i <= parts.len(),
            all == contents_at(parts@),
            sum == held(range_bytes(all.take(i as int))),
        decreases parts.len() - i,
    {
        let part = parts[i];
        proof {
            assert(all.take(i + 1).drop_last() =~= all.take(i as int));
            assert(all.take(i + 1).last() == json_content(*part));
        }
        let size = size_of_range(number_of(part, "start"), number_of(part, "end"));
        sum = plus(sum, size, Ghost(range_bytes(all.take(i as int))));
        i = i + 1;
    }
    proof {
        assert(all.take(parts.len() as int) =~= all);
    }
    sum
}

fn preview_segments(parts: &Vec<serde_json::Value>) -> (r: Vec<String>)
    ensures
        each(r@) == segment_lines(shown(contents(parts@))),
{
    let mut lines: Vec<String> = Vec::new();
    let mut i: usize = 0;
    let ghost all = contents(parts@);
    while i < parts.len() && i < SHOWN
        invariant
            i <= parts.len(),
            i <= SHOWN,
            all == contents(parts@),
            each(lines@) == segment_lines(all.take(i as int)),
        decreases parts.len() - i,
    {
        let ghost was = each(lines@);
        let line = write_segment(&parts[i]);
        lines.push(line);
        proof {
            assert(each(lines@) =~= was.push(line@));
            assert(all[i as int] == json_content(parts@[i as int]));
            assert(each(lines@) =~= segment_lines(all.take(i + 1)));
        }
        i = i + 1;
    }
    proof {
        assert(all.take(i as int) =~= shown(all));
    }
    lines
}

fn preview_ranges(parts: &Vec<&serde_json::Value>) -> (r: Vec<String>)
    ensures
        each(r@) == range_lines(shown(contents_at(parts@))),
{
    let mut lines: Vec<String> = Vec::new();
    let mut i: usize = 0;
    let ghost all = contents_at(parts@);
    while i < parts.len() && i < SHOWN
        invariant
            i <= parts.len(),
            i <= SHOWN,
            all == contents_at(parts@),
            each(lines@) == range_lines(all.take(i as int)),
        decreases parts.len() - i,
    {
        let ghost was = each(lines@);
        let line = write_range(parts[i]);
        lines.push(line);
        proof {
            assert(each(lines@) =~= was.push(line@));
            assert(all[i as int] == json_content(*parts@[i as int]));
            assert(each(lines@) =~= range_lines(all.take(i + 1)));
        }
        i = i + 1;
    }
    proof {
        assert(all.take(i as int) =~= shown(all));
    }
    lines
}

fn holds_pair(list: &Vec<(u64, u64)>, start: u64, end: u64) -> (r: bool)
    ensures
        r == list@.contains((start, end)),
{
    let mut i: usize = 0;
    while i < list.len()
        invariant
            i <= list.len(),
            forall|k: int| 0 <= k < i ==> list@[k] != (start, end),
        decreases list.len() - i,
    {
        if list[i].0 == start && list[i].1 == end {
            proof {
                assert(list@[i as int] == (start, end));
            }
            return true;
        }
        i = i + 1;
    }
    false
}

fn add_pair(list: &mut Vec<(u64, u64)>, start: u64, end: u64)
    requires
        old(list)@.no_duplicates(),
    ensures
        final(list)@.no_duplicates(),
        final(list)@.to_set() == old(list)@.to_set().insert((start, end)),
{
    let ghost was = list@;
    if !holds_pair(list, start, end) {
        list.push((start, end));
        proof {
            was.lemma_push_to_set_commute((start, end));
        }
    } else {
        proof {
            assert(was.to_set().contains((start, end)));
            assert(was.to_set().insert((start, end)) =~= was.to_set());
        }
    }
}

proof fn lemma_more_ranges(parts: Seq<Json>, part: Json)
    ensures
        different_ranges(parts.push(part)) == different_ranges(parts).insert(bounds(part)),
{
    let pairs = Seq::new(parts.len(), |i: int| bounds(parts[i]));
    let more = Seq::new(parts.push(part).len(), |i: int| bounds(parts.push(part)[i]));
    assert(more =~= pairs.push(bounds(part)));
    assert forall|pair: (u64, u64)|
        more.to_set().contains(pair) == pairs.to_set().insert(bounds(part)).contains(pair) by {
        if more.contains(pair) {
            let i = choose|i: int| 0 <= i < more.len() && more[i] == pair;
            if i < pairs.len() {
                assert(pairs[i] == pair);
            }
        }
        if pairs.contains(pair) {
            let i = choose|i: int| 0 <= i < pairs.len() && pairs[i] == pair;
            assert(more[i] == pair);
        }
        if pair == bounds(part) {
            assert(more[pairs.len() as int] == pair);
        }
    }
    assert(more.to_set() =~= pairs.to_set().insert(bounds(part)));
}

fn count_ranges(parts: &Vec<&serde_json::Value>) -> (r: usize)
    ensures
        r == different_ranges(contents_at(parts@)).len(),
{
    let mut found: Vec<(u64, u64)> = Vec::new();
    let mut i: usize = 0;
    let ghost all = contents_at(parts@);
    proof {
        assert(different_ranges(all.take(0)) =~= Set::<(u64, u64)>::empty());
        assert(found@.to_set() =~= different_ranges(all.take(0)));
    }
    while i < parts.len()
        invariant
            i <= parts.len(),
            all == contents_at(parts@),
            found@.no_duplicates(),
            found@.to_set() == different_ranges(all.take(i as int)),
        decreases parts.len() - i,
    {
        let part = parts[i];
        proof {
            assert(all.take(i + 1) =~= all.take(i as int).push(json_content(*part)));
            lemma_more_ranges(all.take(i as int), json_content(*part));
        }
        add_pair(&mut found, number_of(part, "start"), number_of(part, "end"));
        i = i + 1;
    }
    proof {
        assert(all.take(parts.len() as int) =~= all);
        found@.unique_seq_to_set();
    }
    found.len()
}

fn list_of<'a>(value: &'a serde_json::Value, name: &str) -> (r: Option<&'a Vec<serde_json::Value>>)
    ensures
        items_in(json_content(*value), name@) == (match r {
            Some(items) => contents(items@),
            None => Seq::empty(),
        }),
{
    match member(value, name) {
        Some(found) => found.as_array(),
        None => None,
    }
}

/// The record of a download in short, unless 64 bits do not hold its bytes.
pub fn summarize(value: &serde_json::Value) -> (r: Option<ManifestSummary>)
    ensures
        match r {
            Some(summary) => summary@ == summary_of(json_content(*value)),
            None => summary_of(json_content(*value)).downloaded_bytes > u64::MAX,
        },
{
    let kind = match member(value, "kind") {
        Some(found) => match found.as_str() {
            Some(text) => text.to_string(),
            None => "Unknown".to_string(),
        },
        None => "Unknown".to_string(),
    };
    let total_parts: Option<usize> = match member(value, "total_parts") {
        Some(found) => match found.as_u64() {
            Some(n) => {
                let total: usize = #[verifier::truncate]
                (n as usize);
                if total > 0 {
                    Some(total)
                } else {
                    None
                }
            },
            None => None,
        },
        None => None,
    };
    let none: Vec<serde_json::Value> = Vec::new();
    proof {
        assert(contents(none@) =~= Seq::<Json>::empty());
    }
    if same_text(kind.as_str(), "Hls") {
        let parts = match list_of(value, "hls_parts") {
            Some(parts) => parts,
            None => &none,
        };
        let done = completed(parts);
        proof {
            assert(contents_at(done@).len() == done@.len());
        }
        let downloaded_bytes = match sum_of_segments(&done) {
            Some(bytes) => bytes,
            None => return None,
        };
        let pending_parts = match total_parts {
            Some(total) => Some(total.saturating_sub(done.len())),
            None => None,
        };
        Some(
            ManifestSummary {
                kind,
                total_parts,
                completed_parts: done.len(),
                pending_parts,
                downloaded_bytes,
                preview_lines: preview_segments(parts),
            },
        )
    } else {
        let parts = match list_of(value, "range_parts") {
            Some(parts) => parts,
            None => &none,
        };
        let done = completed(parts);
        let downloaded_bytes = match sum_of_ranges(&done) {
            Some(bytes) => bytes,
            None => return None,
        };
        Some(
            ManifestSummary {
                kind,
                total_parts,
                completed_parts: count_ranges(&done),
                pending_parts: None,
                downloaded_bytes,
                preview_lines: preview_ranges(&done),
            },
        )
    }
}

/// Whether the bytes of a record, if the text is one, are no more than 64 bits hold.
pub open spec fn is_bounded(json: Option<Json>) -> bool {
    json is Some ==> summary_of(json->0).downloaded_bytes <= u64::MAX
}

/// The record of a download in short, if the text is JSON.
pub fn read_manifest_summary(json: &str) -> (r: Option<ManifestSummary>)
    requires
        is_bounded(json_of_text(json@)),
    ensures
        maybe(r) == (match json_of_text(json@) {
            Some(value) => Some(summary_of(value)),
            None => None,
        }),
{
    match parse_json(json) {
        Some(value) => summarize(&value),
        None => None,
    }
}

/// What a text is as the record of a download.
#[derive(Debug)]
pub enum ManifestReading {
    /// It is not JSON.
    NotJson,
    /// 64 bits do not hold its bytes.
    TooLarge,
    Summary(ManifestSummary),
}

/// Reads the record of a download.
pub fn read_manifest(json: &str) -> (r: ManifestReading)
    ensures
        match r {
            ManifestReading::NotJson => json_of_text(json@) is None,
            ManifestReading::TooLarge => {
                &&& json_of_text(json@) is Some
                &&& summary_of(json_of_text(json@)->0).downloaded_bytes > u64::MAX
            },
            ManifestReading::Summary(summary) => {
                &&& json_of_text(json@) is Some
                &&& summary@ == summary_of(json_of_text(json@)->0)
            },
        },
{
    match parse_json(json) {
        None => ManifestReading::NotJson,
        Some(value) => match summarize(&value) {
            None => ManifestReading::TooLarge,
            Some(_) => match read_manifest_summary(json) {
                Some(summary) => ManifestReading::Summary(summary),
                None => ManifestReading::NotJson,
            },
        },
    }
}

} // verus!
