//! The grammar of the probe tool's compact output.
//!
//! A stream line has the form `stream|key=value|key=value|...`. The
//! segments are separated by `|`; the first must be the word `stream`; each
//! further one is cut at its first `=` into a key and a value, so a value
//! may itself hold `=`.

use crate::ffprobe::streams::{codec_of, from, Stream, StreamView};
use crate::utils::text::{
    chars_of, find_char, first_index, lemma_clipped_within, lemma_first_index, range_is, same_text,
    substring,
};
use vstd::prelude::*;

verus! {

/// The stretches of `s` between the occurrences of `separator`. There is
/// always at least one; the empty text has one empty segment.
pub open spec fn split(s: Seq<char>, separator: char) -> Seq<Seq<char>>
    decreases s.len(),
{
    let at = first_index(s, separator);
    if 0 <= at < s.len() {
        seq![s.take(at)] + split(s.skip(at + 1), separator)
    } else {
        seq![s]
    }
}

/// The key of a segment: what stands before its first `=`, or all of it.
pub open spec fn key_of(segment: Seq<char>) -> Seq<char> {
    segment.take(first_index(segment, '='))
}

/// Whether a segment has a value, that is, holds a `=`.
pub open spec fn has_value(segment: Seq<char>) -> bool {
    first_index(segment, '=') < segment.len()
}

/// The value of a segment: what stands behind its first `=`.
pub open spec fn value_of(segment: Seq<char>) -> Seq<char> {
    segment.skip(first_index(segment, '=') + 1)
}

/// The four spellings of the language tag's key.
pub open spec fn is_language_key(key: Seq<char>) -> bool {
    key == "tag:language"@ || key == "TAG:language"@ || key == "tag:LANGUAGE"@ || key
        == "TAG:LANGUAGE"@
}

/// What one segment does to the record that is being read.
pub enum Applied {
    /// The scan goes on with this record.
    Next(StreamView),
    /// The codec type is not one of the three kinds: the line gives nothing.
    Unsupported,
    /// A key that needs a value stands without `=`.
    Malformed,
}

/// Applies one segment to the record `record`.
pub open spec fn apply_segment(record: StreamView, segment: Seq<char>) -> Applied {
    let key = key_of(segment);
    if key == "codec_type"@ {
        if !has_value(segment) {
            Applied::Malformed
        } else {
            match codec_of(value_of(segment)) {
                Some(codec) => Applied::Next(StreamView { codec: Some(codec), ..record }),
                None => Applied::Unsupported,
            }
        }
    } else if key == "codec_name"@ {
        if !has_value(segment) {
            Applied::Malformed
        } else {
            Applied::Next(StreamView { name: Some(value_of(segment)), ..record })
        }
    } else if is_language_key(key) {
        if !has_value(segment) {
            Applied::Malformed
        } else {
            Applied::Next(StreamView { language: Some(value_of(segment)), ..record })
        }
    } else {
        Applied::Next(record)
    }
}

/// What a line yields.
pub enum Outcome {
    /// A filled record.
    Record(StreamView),
    /// No record: not a stream line, a stream of another kind, or a line
    /// that ends before the record is filled.
    Nothing,
    /// The segment that holds a key of interest without a value.
    Malformed(Seq<char>),
}

/// Scans the segments from left to right, starting with `record`, and stops
/// at the first segment after which the record is filled.
pub open spec fn scan(record: StreamView, segments: Seq<Seq<char>>) -> Outcome
    decreases segments.len(),
{
    if segments.len() == 0 {
        Outcome::Nothing
    } else {
        match apply_segment(record, segments[0]) {
            Applied::Malformed => Outcome::Malformed(segments[0]),
            Applied::Unsupported => Outcome::Nothing,
            Applied::Next(next) => if next.is_filled() {
                Outcome::Record(next)
            } else {
                scan(next, segments.drop_first())
            },
        }
    }
}

/// What the line `line` yields.
pub open spec fn parse_line(line: Seq<char>) -> Outcome {
    let segments = split(line, '|');
    if segments[0] == "stream"@ {
        scan(StreamView::empty(), segments.drop_first())
    } else {
        Outcome::Nothing
    }
}

/// What scanning a line gave.
pub enum Scanned {
    /// A filled record.
    Record(Stream),
    /// No record.
    Nothing,
    /// The segment that holds a key of interest without a value.
    Malformed(String),
}

impl View for Scanned {
    type V = Outcome;

    open spec fn view(&self) -> Outcome {
        match self {
            Scanned::Record(stream) => Outcome::Record(stream@),
            Scanned::Nothing => Outcome::Nothing,
            Scanned::Malformed(segment) => Outcome::Malformed(segment@),
        }
    }
}

/// Whether `codec` is one of the three kinds of stream that are read.
pub fn is_valid(codec: &str) -> (valid: bool)
    ensures
        valid == codec_of(codec@) is Some,
{
    same_text(codec, "video") || same_text(codec, "audio") || same_text(codec, "subtitle")
}

/// Cutting `s` at its first separator: the first segment is what stands
/// before it, the other segments are those of what stands behind it.
proof fn lemma_split_at(s: Seq<char>, from: int, at: int)
    requires
        0 <= from <= at <= s.len(),
        at == from + first_index(s.skip(from), '|'),
    ensures
        at < s.len() ==> split(s.skip(from), '|') == seq![s.subrange(from, at)] + split(
            s.skip(at + 1),
            '|',
        ),
        at == s.len() ==> split(s.skip(from), '|') == seq![s.subrange(from, at)],
{
    let rest = s.skip(from);
    assert(rest.take(at - from) == s.subrange(from, at));
    if at < s.len() {
        assert(rest.skip(at - from + 1) == s.skip(at + 1));
    } else {
        assert(rest == s.subrange(from, at));
    }
}

/// The value of the segment of `line` that ends at `end` and has its first
/// `=` at `eq`; none where `eq` is `end`, that is, where the segment holds
/// no `=`.
fn next_value<'a>(line: &'a str, eq: usize, end: usize) -> (value: Option<&'a str>)
    requires
        eq <= end <= line@.len(),
    ensures
        match value {
            Some(value) => eq < end && value@ == line@.subrange(eq + 1, end as int),
            None => eq == end,
        },
{
    if eq == end {
        None
    } else {
        proof {
            lemma_clipped_within(line@, eq + 1, end as int);
        }
        Some(substring(line, eq + 1, end))
    }
}

/// Reads the segments of `line` that start at position `start`; `chars`
/// holds the characters of `line`.
fn build_stream_from(line: &str, chars: &Vec<char>, start: usize) -> (scanned: Scanned)
    requires
        chars@ == line@,
        start <= chars.len(),
    ensures
        scanned@ == scan(StreamView::empty(), split(line@.skip(start as int), '|')),
{
    let len = chars.len();
    let mut stream = Stream::new();
    let mut begin: usize = start;
    loop
        invariant
            chars@ == line@,
            len == chars.len(),
            begin <= len,
            scan(StreamView::empty(), split(line@.skip(start as int), '|')) == scan(
                stream@,
                split(line@.skip(begin as int), '|'),
            ),
        decreases len - begin,
    {
        let end = find_char(chars, begin, len, '|');
        let eq = find_char(chars, begin, end, '=');
        let ghost segment = line@.subrange(begin as int, end as int);
        let ghost before = stream@;
        proof {
            assert(chars@.subrange(begin as int, len as int) == line@.skip(begin as int));
            lemma_split_at(line@, begin as int, end as int);
            let segments = split(line@.skip(begin as int), '|');
            assert(segments[0] == segment);
            if end < len {
                assert(segments.drop_first() == split(line@.skip(end + 1), '|'));
            } else {
                assert(segments.drop_first() == Seq::<Seq<char>>::empty());
            }
            lemma_first_index(segment, '=');
            assert(key_of(segment) == line@.subrange(begin as int, eq as int));
            if eq < end {
                assert(value_of(segment) == line@.subrange(eq + 1, end as int));
            }
            lemma_clipped_within(line@, begin as int, end as int);
        }
        if range_is(chars, begin, eq, "codec_type") {
            match next_value(line, eq, end) {
                Some(codec) => {
                    if is_valid(codec) {
                        stream.set_codec(from(codec));
                    } else {
                        return Scanned::Nothing;
                    }
                },
                None => {
                    return Scanned::Malformed(substring(line, begin, end).to_owned());
                },
            }
        } else if range_is(chars, begin, eq, "codec_name") {
            match next_value(line, eq, end) {
                Some(name) => stream.set_name(name),
                None => {
                    return Scanned::Malformed(substring(line, begin, end).to_owned());
                },
            }
        } else if range_is(chars, begin, eq, "tag:language") || range_is(
            chars,
            begin,
            eq,
            "TAG:language",
        ) || range_is(chars, begin, eq, "tag:LANGUAGE") || range_is(
            chars,
            begin,
            eq,
            "TAG:LANGUAGE",
        ) {
            match next_value(line, eq, end) {
                Some(language) => stream.set_language(language),
                None => {
                    return Scanned::Malformed(substring(line, begin, end).to_owned());
                },
            }
        }
        assert(apply_segment(before, segment) == Applied::Next(stream@));
        if stream.is_filled() {
            return Scanned::Record(stream);
        }
        if end == len {
            assert(scan(stream@, Seq::<Seq<char>>::empty()) == Outcome::Nothing);
            return Scanned::Nothing;
        }
        begin = end + 1;
    }
}

/// Reads one line of the probe's output, whatever it holds.
pub fn scan_line(line: &str) -> (scanned: Scanned)
    ensures
        scanned@ == parse_line(line@),
{
    let chars = chars_of(line);
    let end = find_char(&chars, 0, chars.len(), '|');
    proof {
        assert(chars@.subrange(0, chars.len() as int) == line@.skip(0));
        assert(line@.skip(0) == line@);
        lemma_split_at(line@, 0, end as int);
        if end < chars.len() {
            assert(split(line@, '|').drop_first() == split(line@.skip(end + 1), '|'));
        } else {
            assert(split(line@, '|').drop_first() == Seq::<Seq<char>>::empty());
        }
    }
    if !range_is(&chars, 0, end, "stream") || end == chars.len() {
        return Scanned::Nothing;
    }
    build_stream_from(line, &chars, end + 1)
}

/// The record that a line of the probe's output yields, if it yields one.
///
/// The line must not be malformed: up to the segment at which the scan
/// stops, each of the keys `codec_type`, `codec_name` and the language tag
/// must come with a value. `scan_line` tells.
pub fn to_stream(line: String) -> (stream: Option<Stream>)
    requires
        !(parse_line(line@) is Malformed),
    ensures
        match parse_line(line@) {
            Outcome::Record(record) => stream matches Some(s) && s@ == record,
            _ => stream is None,
        },
        split(line@, '|')[0] != "stream"@ ==> stream is None,
        stream matches Some(s) ==> s@.is_filled(),
{
    proof {
        lemma_record_is_filled_line(line@);
    }
    match scan_line(line.as_str()) {
        Scanned::Record(stream) => Some(stream),
        _ => None,
    }
}

/// A line whose first segment is not the word `stream` yields no record.
pub proof fn lemma_other_line_yields_nothing(line: Seq<char>)
    requires
        split(line, '|')[0] != "stream"@,
    ensures
        parse_line(line) == Outcome::Nothing,
{
}

/// While no codec is set, a scan yields no record if the first segment with
/// the key `codec_type` names no supported codec, whatever follows it.
pub proof fn lemma_scan_unsupported_codec(record: StreamView, segments: Seq<Seq<char>>, at: int)
    requires
        record.codec is None,
        0 <= at < segments.len(),
        key_of(segments[at]) == "codec_type"@,
        has_value(segments[at]),
        codec_of(value_of(segments[at])) is None,
        forall|j: int| 0 <= j < at ==> key_of(#[trigger] segments[j]) != "codec_type"@,
    ensures
        !(scan(record, segments) is Record),
    decreases segments.len(),
{
    if at > 0 {
        if let Applied::Next(next) = apply_segment(record, segments[0]) {
            assert(key_of(segments[0]) != "codec_type"@);
            assert(next.codec is None);
            let rest = segments.drop_first();
            assert forall|j: int| 0 <= j < at - 1 implies key_of(#[trigger] rest[j])
                != "codec_type"@ by {
                assert(rest[j] == segments[j + 1]);
            }
            lemma_scan_unsupported_codec(next, rest, at - 1);
        }
    }
}

/// A stream line whose codec type is not one of `video`, `audio` and
/// `subtitle` yields no record, whatever follows the codec type. The codec
/// type of a line is the value of its first segment with that key.
pub proof fn lemma_unsupported_codec_yields_no_record(line: Seq<char>, at: int)
    requires
        1 <= at < split(line, '|').len(),
        key_of(split(line, '|')[at]) == "codec_type"@,
        has_value(split(line, '|')[at]),
        codec_of(value_of(split(line, '|')[at])) is None,
        forall|j: int| 1 <= j < at ==> key_of(#[trigger] split(line, '|')[j]) != "codec_type"@,
    ensures
        !(parse_line(line) is Record),
{
    let segments = split(line, '|');
    let rest = segments.drop_first();
    assert forall|j: int| 0 <= j < at - 1 implies key_of(#[trigger] rest[j]) != "codec_type"@ by {
        assert(rest[j] == segments[j + 1]);
    }
    lemma_scan_unsupported_codec(StreamView::empty(), rest, at - 1);
}

/// A record that a line yields is filled.
pub proof fn lemma_record_is_filled_line(line: Seq<char>)
    ensures
        parse_line(line) matches Outcome::Record(found) ==> found.is_filled(),
{
    lemma_record_is_filled(StreamView::empty(), split(line, '|').drop_first());
}

/// A record that a scan yields is filled.
pub proof fn lemma_record_is_filled(record: StreamView, segments: Seq<Seq<char>>)
    ensures
        scan(record, segments) matches Outcome::Record(found) ==> found.is_filled(),
    decreases segments.len(),
{
    if segments.len() > 0 {
        if let Applied::Next(next) = apply_segment(record, segments[0]) {
            if !next.is_filled() {
                lemma_record_is_filled(next, segments.drop_first());
            }
        }
    }
}

} // verus!
