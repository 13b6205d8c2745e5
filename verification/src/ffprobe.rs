//! What the probe tool reports about a media file: its stream lines, the
//! records read from them, and the records of a whole probe run.

pub mod parsers;
pub mod streams;

use crate::ffprobe::parsers::{parse_line, to_stream, Outcome};
use crate::ffprobe::streams::{Stream, StreamView};
use crate::utils::text::texts;
use vstd::prelude::*;

verus! {

/// What a sequence of stream records holds.
pub open spec fn records(streams: Seq<Stream>) -> Seq<StreamView> {
    Seq::new(streams.len(), |i: int| streams[i]@)
}

/// The records that the lines of a probe run yield, in the order of the
/// lines; a line that yields none leaves no trace.
pub open spec fn records_of(lines: Seq<Seq<char>>) -> Seq<StreamView>
    decreases lines.len(),
{
    if lines.len() == 0 {
        Seq::empty()
    } else {
        let before = records_of(lines.drop_last());
        match parse_line(lines.last()) {
            Outcome::Record(record) => before.push(record),
            _ => before,
        }
    }
}

/// The record that one line yields, as a sequence of one record or none.
pub open spec fn record_of(line: Seq<char>) -> Seq<StreamView> {
    match parse_line(line) {
        Outcome::Record(record) => seq![record],
        _ => Seq::empty(),
    }
}

/// The records of some lines are the record of the first line, if it
/// yields one, followed by the records of the other lines.
pub proof fn lemma_records_of_first(lines: Seq<Seq<char>>)
    requires
        lines.len() > 0,
    ensures
        records_of(lines) == record_of(lines[0]) + records_of(lines.drop_first()),
    decreases lines.len(),
{
    let front = lines.drop_last();
    if lines.len() == 1 {
        assert(records_of(front) == Seq::<StreamView>::empty());
        assert(records_of(lines.drop_first()) == Seq::<StreamView>::empty());
        assert(records_of(lines) == record_of(lines[0]));
    } else {
        lemma_records_of_first(front);
        assert(front[0] == lines[0]);
        assert(front.drop_first() == lines.drop_first().drop_last());
        assert(lines.drop_first().last() == lines.last());
        let middle = records_of(front.drop_first());
        match parse_line(lines.last()) {
            Outcome::Record(record) => {
                assert(records_of(lines) == (record_of(lines[0]) + middle).push(record));
                assert(records_of(lines.drop_first()) == middle.push(record));
            },
            _ => {},
        }
    }
}

/// The record in `option`, which must hold one.
pub fn get_stream(option: Option<Stream>) -> (stream: Stream)
    requires
        option is Some,
    ensures
        option == Some(stream),
{
    option.unwrap()
}

/// The stream records of a probe run, from the lines of its output. None of
/// the lines may be malformed.
pub fn stdout_streams(lines: Vec<String>) -> (streams: Vec<Stream>)
    requires
        forall|i: int| 0 <= i < lines.len() ==> !(parse_line(#[trigger] lines[i]@) is Malformed),
    ensures
        records(streams@) == records_of(texts(lines@)),
        forall|i: int| 0 <= i < streams.len() ==> (#[trigger] streams[i]@).is_filled(),
{
    let mut streams: Vec<Stream> = Vec::new();
    let mut at: usize = 0;
    while at < lines.len()
        invariant
            at <= lines.len(),
            forall|i: int|
                0 <= i < lines.len() ==> !(parse_line(#[trigger] lines[i]@) is Malformed),
            records(streams@) == records_of(texts(lines@).take(at as int)),
            forall|i: int| 0 <= i < streams.len() ==> (#[trigger] streams[i]@).is_filled(),
        decreases lines.len() - at,
    {
        let ghost before = streams@;
        proof {
            let upto = texts(lines@).take(at + 1);
            assert(upto.drop_last() == texts(lines@).take(at as int));
            assert(upto.last() == lines[at as int]@);
        }
        let found = to_stream(lines[at].clone());
        if found.is_some() {
            streams.push(get_stream(found));
            assert(records(streams@) == records(before).push(streams[before.len() as int]@));
        }
        at = at + 1;
    }
    proof {
        assert(texts(lines@).take(at as int) == texts(lines@));
    }
    streams
}

} // verus!
