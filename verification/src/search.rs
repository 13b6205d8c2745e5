//! Finding the media files that need transcoding.
//!
//! A file needs transcoding when one of its streams does not satisfy the
//! codec policy. The search itself is a state machine: `Search::on` takes
//! what the caller has just done and says what it has to do next.

pub mod listing;

use crate::ffprobe::parsers::{
    lemma_record_is_filled_line, parse_line, scan_line, Outcome, Scanned,
};
use crate::ffprobe::streams::{Codec, Stream, StreamView};
use crate::ffprobe::{lemma_records_of_first, record_of, records_of};
use crate::utils::media::{is_avi, is_avi_file, is_non_avi_video, is_non_avi_video_file};
use crate::utils::text::texts;
use crate::walker::{entry_views, Entry, EntryView, WalkStep, Walker};
use vstd::prelude::*;

verus! {

/// Whether a stream fails the codec policy.
fn is_invalid(stream: &Stream) -> (invalid: bool)
    requires
        stream@.codec is Some,
    ensures
        invalid == !stream@.is_acceptable(),
{
    match *stream.get_codec().unwrap() {
        Codec::Video => !stream.is_valid_video_stream(),
        Codec::Audio => !stream.is_valid_audio_stream(),
        Codec::Subtitle => !stream.is_valid_subtitle_stream(),
    }
}

/// Whether a stream fails the codec policy. Its codec must be set.
pub fn is_invalid_media_stream(stream: Stream) -> (invalid: bool)
    requires
        stream@.codec is Some,
    ensures
        invalid == !stream@.is_acceptable(),
{
    is_invalid(&stream)
}

/// Whether a file with these streams needs transcoding: whether one of
/// them fails the codec policy. The codec of each must be set.
pub fn need_transcoding(streams: Vec<Stream>) -> (needed: bool)
    requires
        forall|i: int| 0 <= i < streams.len() ==> (#[trigger] streams[i]@).codec is Some,
    ensures
        needed == exists|i: int| 0 <= i < streams.len() && !(#[trigger] streams[i]@).is_acceptable(),
{
    let mut at: usize = 0;
    while at < streams.len()
        invariant
            at <= streams.len(),
            forall|i: int| 0 <= i < streams.len() ==> (#[trigger] streams[i]@).codec is Some,
            forall|i: int| 0 <= i < at ==> (#[trigger] streams[i]@).is_acceptable(),
        decreases streams.len() - at,
    {
        if is_invalid(&streams[at]) {
            return true;
        }
        at = at + 1;
    }
    false
}

/// What the output of a probe run says of a file.
pub enum Verdict {
    /// A stream fails the codec policy.
    Transcode,
    /// Every stream satisfies the codec policy.
    Keep,
    /// The output does not follow the grammar: the segment that holds a key
    /// without its value.
    Malformed(String),
}

/// A verdict as plain values.
pub enum VerdictView {
    Transcode,
    Keep,
    Malformed(Seq<char>),
}

impl View for Verdict {
    type V = VerdictView;

    open spec fn view(&self) -> VerdictView {
        match self {
            Verdict::Transcode => VerdictView::Transcode,
            Verdict::Keep => VerdictView::Keep,
            Verdict::Malformed(segment) => VerdictView::Malformed(segment@),
        }
    }
}

/// The verdict on the lines of a probe run, read in order up to the first
/// record that fails the codec policy.
pub open spec fn verdict_of(lines: Seq<Seq<char>>) -> VerdictView
    decreases lines.len(),
{
    if lines.len() == 0 {
        VerdictView::Keep
    } else {
        match parse_line(lines[0]) {
            Outcome::Malformed(segment) => VerdictView::Malformed(segment),
            Outcome::Record(record) => if record.is_acceptable() {
                verdict_of(lines.drop_first())
            } else {
                VerdictView::Transcode
            },
            Outcome::Nothing => verdict_of(lines.drop_first()),
        }
    }
}

/// Where no line is malformed, the verdict is to transcode exactly when one
/// of the records that the lines yield fails the codec policy.
pub proof fn lemma_verdict_of_records(lines: Seq<Seq<char>>)
    requires
        forall|i: int| 0 <= i < lines.len() ==> !(parse_line(#[trigger] lines[i]) is Malformed),
    ensures
        !(verdict_of(lines) is Malformed),
        verdict_of(lines) is Transcode <==> exists|j: int|
            0 <= j < records_of(lines).len() && !(#[trigger] records_of(lines)[j]).is_acceptable(),
    decreases lines.len(),
{
    if lines.len() > 0 {
        let rest = lines.drop_first();
        let first = record_of(lines[0]);
        let others = records_of(rest);
        assert forall|i: int| 0 <= i < rest.len() implies !(parse_line(#[trigger] rest[i])
            is Malformed) by {
            assert(rest[i] == lines[i + 1]);
        }
        lemma_verdict_of_records(rest);
        lemma_records_of_first(lines);
        assert(!(parse_line(lines[0]) is Malformed));
        if exists|j: int| 0 <= j < others.len() && !(#[trigger] others[j]).is_acceptable() {
            let j = choose|j: int| 0 <= j < others.len() && !(#[trigger] others[j]).is_acceptable();
            assert(records_of(lines)[first.len() + j] == others[j]);
        }
        if first.len() > 0 && !first[0].is_acceptable() {
            assert(records_of(lines)[0] == first[0]);
        }
        if exists|j: int|
            0 <= j < records_of(lines).len() && !(#[trigger] records_of(lines)[j]).is_acceptable() {
            let j = choose|j: int|
                0 <= j < records_of(lines).len() && !(#[trigger] records_of(
                    lines,
                )[j]).is_acceptable();
            if j >= first.len() {
                assert(others[j - first.len()] == records_of(lines)[j]);
            } else {
                assert(first[j] == records_of(lines)[j]);
            }
        }
    } else {
        assert(records_of(lines) == Seq::<StreamView>::empty());
    }
}

/// Reads the lines of a probe run up to the first record that fails the
/// codec policy.
pub fn probe_verdict(lines: &Vec<String>) -> (verdict: Verdict)
    ensures
        verdict@ == verdict_of(texts(lines@)),
{
    let mut at: usize = 0;
    assert(texts(lines@).skip(0) == texts(lines@));
    while at < lines.len()
        invariant
            at <= lines.len(),
            verdict_of(texts(lines@)) == verdict_of(texts(lines@).skip(at as int)),
        decreases lines.len() - at,
    {
        proof {
            let rest = texts(lines@).skip(at as int);
            assert(rest[0] == lines[at as int]@);
            assert(rest.drop_first() == texts(lines@).skip(at + 1));
        }
        match scan_line(lines[at].as_str()) {
            Scanned::Malformed(segment) => {
                return Verdict::Malformed(segment);
            },
            Scanned::Record(stream) => {
                proof {
                    lemma_record_is_filled_line(lines[at as int]@);
                }
                if is_invalid(&stream) {
                    return Verdict::Transcode;
                }
            },
            Scanned::Nothing => {},
        }
        at = at + 1;
    }
    Verdict::Keep
}

/// Whether a file is to be recorded, given the output of its probe run: a
/// file that ends in `.avi` always, one that ends in `.mp4` or `.mkv` when a
/// stream of it fails the codec policy, any other never.
pub open spec fn should_record(location: Seq<char>, lines: Seq<Seq<char>>) -> bool {
    is_avi(location) || (is_non_avi_video(location) && verdict_of(lines) is Transcode)
}

/// What the caller of a search has just done.
pub enum SearchEvent {
    /// Nothing that the search has to hear of: it starts, or it goes on
    /// after a file was recorded.
    Continue,
    /// It has listed the directory that it was told to read.
    Listed(Vec<Entry>),
    /// It has probed the file at this location and got these lines.
    Probed(String, Vec<String>),
}

/// A search event as plain values.
pub enum SearchEventView {
    Continue,
    Listed(Seq<EntryView>),
    Probed(Seq<char>, Seq<Seq<char>>),
}

impl View for SearchEvent {
    type V = SearchEventView;

    open spec fn view(&self) -> SearchEventView {
        match self {
            SearchEvent::Continue => SearchEventView::Continue,
            SearchEvent::Listed(entries) => SearchEventView::Listed(entry_views(entries@)),
            SearchEvent::Probed(location, lines) => SearchEventView::Probed(
                location@,
                texts(lines@),
            ),
        }
    }
}

/// What the caller of a search has to do next.
pub enum SearchAction {
    /// List this directory and answer with `Listed`.
    ReadDirectory(String),
    /// Probe this file and answer with `Probed`.
    Probe(String),
    /// Write this location to the listing and answer with `Continue`.
    Record(String),
    /// Give up: the probe's output holds this segment, a key without its
    /// value.
    Malformed(String),
    /// Stop: the tree has been walked.
    Finished,
}

/// A search action as plain values.
pub enum SearchActionView {
    ReadDirectory(Seq<char>),
    Probe(Seq<char>),
    Record(Seq<char>),
    Malformed(Seq<char>),
    Finished,
}

impl View for SearchAction {
    type V = SearchActionView;

    open spec fn view(&self) -> SearchActionView {
        match self {
            SearchAction::ReadDirectory(location) => SearchActionView::ReadDirectory(location@),
            SearchAction::Probe(location) => SearchActionView::Probe(location@),
            SearchAction::Record(location) => SearchActionView::Record(location@),
            SearchAction::Malformed(segment) => SearchActionView::Malformed(segment@),
            SearchAction::Finished => SearchActionView::Finished,
        }
    }
}

/// Goes through the entries that are still to be visited up to the first
/// that asks something of the caller: a directory is to be read, a file that
/// ends in `.avi` is to be recorded, one that ends in `.mp4` or `.mkv` is to
/// be probed, any other file is passed over. Gives what is then still to be
/// visited, and the action.
pub open spec fn advance(pending: Seq<EntryView>) -> (Seq<EntryView>, SearchActionView)
    decreases pending.len(),
{
    if pending.len() == 0 {
        (pending, SearchActionView::Finished)
    } else {
        let entry = pending[0];
        let rest = pending.drop_first();
        if entry.is_dir {
            (rest, SearchActionView::ReadDirectory(entry.location))
        } else if is_avi(entry.location) {
            (rest, SearchActionView::Record(entry.location))
        } else if is_non_avi_video(entry.location) {
            (rest, SearchActionView::Probe(entry.location))
        } else {
            advance(rest)
        }
    }
}

/// The transition of a search: from what is still to be visited and what
/// the caller has done to what is then still to be visited and what the
/// caller has to do.
pub open spec fn react(pending: Seq<EntryView>, event: SearchEventView) -> (
    Seq<EntryView>,
    SearchActionView,
) {
    match event {
        SearchEventView::Continue => advance(pending),
        SearchEventView::Listed(entries) => advance(entries + pending),
        SearchEventView::Probed(location, lines) => match verdict_of(lines) {
            VerdictView::Transcode => (pending, SearchActionView::Record(location)),
            VerdictView::Keep => advance(pending),
            VerdictView::Malformed(segment) => (pending, SearchActionView::Malformed(segment)),
        },
    }
}

/// A search in progress.
pub struct Search {
    walker: Walker,
}

impl Search {
    /// The entries that are still to be visited, the next one first.
    pub closed spec fn pending(&self) -> Seq<EntryView> {
        self.walker.pending()
    }

    /// A search that has the directory at `directory_location` before it.
    pub fn new(directory_location: String) -> (search: Search)
        ensures
            search.pending() == seq![EntryView { location: directory_location@, is_dir: true }],
    {
        Search { walker: Walker::new(directory_location) }
    }

    /// Takes note of what the caller has done and says what it has to do
    /// next.
    pub fn on(&mut self, event: SearchEvent) -> (action: SearchAction)
        ensures
            (final(self).pending(), action@) == react(old(self).pending(), event@),
    {
        match event {
            SearchEvent::Continue => self.advance(),
            SearchEvent::Listed(entries) => {
                self.walker.descend(entries);
                self.advance()
            },
            SearchEvent::Probed(location, lines) => match probe_verdict(&lines) {
                Verdict::Transcode => SearchAction::Record(location),
                Verdict::Keep => self.advance(),
                Verdict::Malformed(segment) => SearchAction::Malformed(segment),
            },
        }
    }

    /// Walks on to the next entry that asks something of the caller.
    fn advance(&mut self) -> (action: SearchAction)
        ensures
            (final(self).pending(), action@) == advance(old(self).pending()),
    {
        loop
            invariant
                advance(self.pending()) == advance(old(self).pending()),
            decreases self.pending().len(),
        {
            match self.walker.next() {
                WalkStep::Finished => {
                    return SearchAction::Finished;
                },
                WalkStep::Directory(location) => {
                    return SearchAction::ReadDirectory(location);
                },
                WalkStep::File(location) => {
                    if is_avi_file(location.as_str()) {
                        return SearchAction::Record(location);
                    }
                    if is_non_avi_video_file(location.as_str()) {
                        return SearchAction::Probe(location);
                    }
                },
            }
        }
    }
}

} // verus!
