//! Matching archived media files back into a target tree.
//!
//! The media files of the archive are kept by base name, that is, by file
//! name without its final extension. The target tree is then walked; each
//! media file in it whose base name is among them is to be replaced by its
//! archived copy, which is thereby matched. The walk ends as soon as every
//! archived file is matched; whatever is unmatched when the tree has been
//! walked makes the import fail.
//!
//! The import itself is a state machine: `Import::on` takes what the caller
//! has just done and says what it has to do next.

pub mod matches;
pub mod run;

use crate::import::matches::{
    distinct_keys, has_key, lemma_with_pair, lemma_without_key, value_at, values_of, with_pair,
    without_key, PendingMatches,
};
use crate::utils::file::{base_name, directory_of, file_directory, file_name, name_of, without_ext};
use crate::utils::media::{is_media, is_media_location};
use crate::utils::text::texts;
use crate::walker::{entry_views, Entry, EntryView, WalkStep, Walker};
use itertools::Itertools;
use vstd::prelude::*;

verus! {

/// The pending matches that the files at `locations` give, taken in order:
/// each media file stands under its base name, a later one in the place of
/// an earlier one with the same base name.
pub open spec fn pending_of(locations: Seq<Seq<char>>) -> Seq<(Seq<char>, Seq<char>)>
    decreases locations.len(),
{
    if locations.len() == 0 {
        Seq::empty()
    } else {
        let before = pending_of(locations.drop_last());
        let location = locations.last();
        if is_media_location(location) {
            with_pair(before, base_name(name_of(location)), location)
        } else {
            before
        }
    }
}

/// Whether the file at `location` is a media file with the base name
/// `media`.
pub open spec fn is_media_named(location: Seq<char>, media: Seq<char>) -> bool {
    is_media_location(location) && base_name(name_of(location)) == media
}

/// The base names among the pending matches of an archive are exactly those
/// of its media files, none stands twice, and each stands for the last of
/// the files that have it.
pub proof fn lemma_pending_of(locations: Seq<Seq<char>>, media: Seq<char>)
    ensures
        distinct_keys(pending_of(locations)),
        has_key(pending_of(locations), media) <==> exists|i: int|
            0 <= i < locations.len() && #[trigger] is_media_named(locations[i], media),
        forall|i: int|
            0 <= i < locations.len() && #[trigger] is_media_named(locations[i], media) && (forall|
                j: int,
            |
                i < j < locations.len() ==> !#[trigger] is_media_named(locations[j], media))
                ==> value_at(pending_of(locations), media) == locations[i],
    decreases locations.len(),
{
    if locations.len() > 0 {
        let front = locations.drop_last();
        let location = locations.last();
        let before = pending_of(front);
        lemma_pending_of(front, media);
        assert forall|i: int| 0 <= i < front.len() implies front[i] == locations[i] by {}
        if is_media_location(location) {
            lemma_with_pair(before, base_name(name_of(location)), location, media);
        }
        if exists|i: int| 0 <= i < front.len() && #[trigger] is_media_named(front[i], media) {
            let i = choose|i: int| 0 <= i < front.len() && #[trigger] is_media_named(front[i], media);
            assert(is_media_named(locations[i], media));
        }
        if is_media_named(location, media) {
            assert(is_media_named(locations[locations.len() - 1], media));
        }
        if exists|i: int| 0 <= i < locations.len() && #[trigger] is_media_named(locations[i], media) {
            let i = choose|i: int|
                0 <= i < locations.len() && #[trigger] is_media_named(locations[i], media);
            if i < front.len() {
                assert(is_media_named(front[i], media));
            }
        }
        assert forall|i: int|
            0 <= i < locations.len() && #[trigger] is_media_named(locations[i], media) && (forall|
                j: int,
            |
                i < j < locations.len() ==> !#[trigger] is_media_named(locations[j], media))
                implies value_at(pending_of(locations), media) == locations[i] by {
            if i < front.len() {
                assert(is_media_named(front[i], media));
                assert(!is_media_named(locations[locations.len() - 1], media));
                assert forall|j: int| i < j < front.len() implies !#[trigger] is_media_named(
                    front[j],
                    media,
                ) by {
                    assert(!is_media_named(locations[j], media));
                }
            }
        }
    }
}

/// The pending matches of an archive, from the locations of the entries of
/// its directory.
pub fn get_medias_map(locations: &Vec<String>) -> (medias_map: PendingMatches)
    ensures
        medias_map@ == pending_of(texts(locations@)),
        medias_map.well_formed(),
{
    let mut medias_map = PendingMatches::new();
    let mut at: usize = 0;
    assert(texts(locations@).take(0) =~= Seq::<Seq<char>>::empty());
    while at < locations.len()
        invariant
            at <= locations.len(),
            medias_map.well_formed(),
            medias_map@ == pending_of(texts(locations@).take(at as int)),
        decreases locations.len() - at,
    {
        proof {
            let upto = texts(locations@).take(at + 1);
            assert(upto.drop_last() == texts(locations@).take(at as int));
            assert(upto.last() == locations[at as int]@);
        }
        let media_location = locations[at].as_str();
        if is_media(media_location) {
            let media = without_ext(file_name(media_location)).to_owned();
            medias_map.insert(media, locations[at].clone());
        }
        at = at + 1;
    }
    assert(texts(locations@).take(at as int) == texts(locations@));
    medias_map
}

/// The location of the archived file that stands under the base name
/// `media`, which must be there.
pub fn origin(media: &String, medias_map: &PendingMatches) -> (location: String)
    requires
        has_key(medias_map@, media@),
    ensures
        location@ == value_at(medias_map@, media@),
{
    medias_map.get(media.as_str()).unwrap().clone()
}

/// Where the archived file `origin` goes when it replaces `target`: into the
/// directory of `target`, under its own name.
pub open spec fn destination_of(origin: Seq<char>, target: Seq<char>) -> Seq<char> {
    directory_of(target) + "/"@ + name_of(origin)
}

/// The location to copy the archived file `origin` to when it replaces
/// `target`.
pub fn destination(origin: &str, target: &str) -> (destination: String)
    ensures
        destination@ == destination_of(origin@, target@),
{
    let target_directory = file_directory(target);
    let origin_media_name = file_name(origin);
    target_directory.to_owned().concat("/").concat(origin_media_name)
}

/// A target file that is to be replaced by its archived copy.
pub struct Replacement {
    /// The archived file.
    pub origin: String,
    /// The file in the target tree that it matches.
    pub target: String,
    /// Where the archived file is to be copied.
    pub destination: String,
}

/// A replacement as plain values.
pub struct ReplacementView {
    pub origin: Seq<char>,
    pub target: Seq<char>,
    pub destination: Seq<char>,
}

impl View for Replacement {
    type V = ReplacementView;

    open spec fn view(&self) -> ReplacementView {
        ReplacementView {
            origin: self.origin@,
            target: self.target@,
            destination: self.destination@,
        }
    }
}

/// The replacement that the media file at `target` calls for, if its base
/// name is among the pending matches.
pub open spec fn replacement_of(
    pairs: Seq<(Seq<char>, Seq<char>)>,
    target: Seq<char>,
) -> Option<ReplacementView> {
    let media = base_name(name_of(target));
    if has_key(pairs, media) {
        let origin = value_at(pairs, media);
        Some(ReplacementView { origin, target, destination: destination_of(origin, target) })
    } else {
        None
    }
}

/// Looks the media file at `existing_media_location` up among the pending
/// matches. Where its base name is there, the match is taken out and the
/// replacement is returned; else nothing changes.
pub fn process_media(existing_media_location: &str, medias_map: &mut PendingMatches) -> (replacement:
    Option<Replacement>)
    requires
        old(medias_map).well_formed(),
    ensures
        final(medias_map).well_formed(),
        final(medias_map)@ == without_key(
            old(medias_map)@,
            base_name(name_of(existing_media_location@)),
        ),
        match replacement {
            Some(replacement) => Some(replacement@) == replacement_of(
                old(medias_map)@,
                existing_media_location@,
            ),
            None => replacement_of(old(medias_map)@, existing_media_location@) is None,
        },
{
    let existing_media_name = file_name(existing_media_location);
    let existing_media = without_ext(existing_media_name).to_owned();
    if medias_map.contains_key(existing_media.as_str()) {
        let origin = origin(&existing_media, medias_map);
        let destination = destination(origin.as_str(), existing_media_location);
        medias_map.remove(existing_media.as_str());
        Some(Replacement { origin, target: existing_media_location.to_owned(), destination })
    } else {
        None
    }
}

/// The texts `items` put one behind the other with `separator` between each
/// two of them.
pub open spec fn joined_with(items: Seq<Seq<char>>, separator: Seq<char>) -> Seq<char>
    decreases items.len(),
{
    if items.len() == 0 {
        Seq::empty()
    } else if items.len() == 1 {
        items[0]
    } else {
        items[0] + separator + joined_with(items.drop_first(), separator)
    }
}

/// Puts the strings one behind the other with `separator` between them.
///
/// Calls `Itertools::join` of the `itertools` crate on the strings in order.
/// Believed of it: the result is empty for no string at all; otherwise it is
/// the first string as it is, followed, for each further string, by the
/// separator and that string as it is.
#[verifier::external_body]
fn join(items: &Vec<String>, separator: &str) -> (joined: String)
    ensures
        joined@ == joined_with(texts(items@), separator@),
{
    items.iter().join(separator)
}

/// What an import that ends with unmatched files reports: a heading, then
/// the location of each unmatched archived file on a line of its own.
pub open spec fn failure_message(pairs: Seq<(Seq<char>, Seq<char>)>) -> Seq<char> {
    "Import failed!\nRemaining medias not imported :\n"@ + joined_with(values_of(pairs), "\n"@)
}

/// The report on the archived files that are left unmatched.
pub fn fail_import(medias_map: &PendingMatches) -> (message: String)
    ensures
        message@ == failure_message(medias_map@),
{
    let non_imported_medias = join(&medias_map.values(), "\n");
    "Import failed!\nRemaining medias not imported :\n".to_owned().concat(
        non_imported_medias.as_str(),
    )
}

/// Whether `part` stands somewhere in `text`, character for character.
pub open spec fn holds_text(text: Seq<char>, part: Seq<char>) -> bool {
    exists|at: int| 0 <= at && at + part.len() <= text.len() && #[trigger] text.subrange(
        at,
        at + part.len(),
    ) == part
}

/// Each of the joined texts stands in the result.
pub proof fn lemma_joined_holds_each(items: Seq<Seq<char>>, separator: Seq<char>, i: int)
    requires
        0 <= i < items.len(),
    ensures
        holds_text(joined_with(items, separator), items[i]),
    decreases items.len(),
{
    let joined = joined_with(items, separator);
    if items.len() == 1 {
        assert(joined.subrange(0int, 0int + items[0].len()) == items[0]);
    } else if i == 0 {
        assert(joined.subrange(0int, 0int + items[0].len()) == items[0]);
    } else {
        let rest = items.drop_first();
        let tail = joined_with(rest, separator);
        lemma_joined_holds_each(rest, separator, i - 1);
        assert(rest[i - 1] == items[i]);
        let at = choose|at: int|
            0 <= at && at + items[i].len() <= tail.len() && #[trigger] tail.subrange(
                at,
                at + items[i].len(),
            ) == items[i];
        let shift = items[0].len() + separator.len();
        assert(joined.subrange(shift + at, shift + at + items[i].len()) == tail.subrange(
            at,
            at + items[i].len(),
        ));
    }
}

/// The report of a failed import holds the location of every archived file
/// that is left unmatched, as it was given.
pub proof fn lemma_failure_names_every_location(pairs: Seq<(Seq<char>, Seq<char>)>, i: int)
    requires
        0 <= i < pairs.len(),
    ensures
        holds_text(failure_message(pairs), pairs[i].1),
{
    let heading = "Import failed!\nRemaining medias not imported :\n"@;
    let lines = joined_with(values_of(pairs), "\n"@);
    let location = pairs[i].1;
    lemma_joined_holds_each(values_of(pairs), "\n"@, i);
    assert(values_of(pairs)[i] == location);
    let at = choose|at: int|
        0 <= at && at + location.len() <= lines.len() && #[trigger] lines.subrange(
            at,
            at + location.len(),
        ) == location;
    assert((heading + lines).subrange(heading.len() + at, heading.len() + at + location.len())
        == lines.subrange(at, at + location.len()));
}

/// What the caller of an import has just done.
pub enum ImportEvent {
    /// Nothing that the import has to hear of: it starts, or it goes on
    /// after a file was replaced.
    Continue,
    /// It has listed the directory that it was told to read.
    Listed(Vec<Entry>),
}

/// An import event as plain values.
pub enum ImportEventView {
    Continue,
    Listed(Seq<EntryView>),
}

impl View for ImportEvent {
    type V = ImportEventView;

    open spec fn view(&self) -> ImportEventView {
        match self {
            ImportEvent::Continue => ImportEventView::Continue,
            ImportEvent::Listed(entries) => ImportEventView::Listed(entry_views(entries@)),
        }
    }
}

/// What the caller of an import has to do next.
pub enum ImportAction {
    /// List this directory and answer with `Listed`.
    ReadDirectory(String),
    /// Back the target up, copy the archived file to the destination, drop
    /// the backup, and answer with `Continue`.
    Replace(Replacement),
    /// Stop: every archived file is matched.
    Finished,
    /// Give up with this report: the tree has been walked and archived
    /// files are left unmatched.
    Failed(String),
}

/// An import action as plain values.
pub enum ImportActionView {
    ReadDirectory(Seq<char>),
    Replace(ReplacementView),
    Finished,
    Failed(Seq<char>),
}

impl View for ImportAction {
    type V = ImportActionView;

    open spec fn view(&self) -> ImportActionView {
        match self {
            ImportAction::ReadDirectory(location) => ImportActionView::ReadDirectory(location@),
            ImportAction::Replace(replacement) => ImportActionView::Replace(replacement@),
            ImportAction::Finished => ImportActionView::Finished,
            ImportAction::Failed(message) => ImportActionView::Failed(message@),
        }
    }
}

/// The state of an import.
pub struct ImportView {
    /// Whether the walk has begun. The directory that it begins with is
    /// read even when nothing is there to match.
    pub started: bool,
    /// The entries that are still to be visited, the next one first.
    pub pending: Seq<EntryView>,
    /// The archived files that are not yet matched.
    pub unmatched: Seq<(Seq<char>, Seq<char>)>,
}

/// Goes through the entries that are still to be visited up to the first
/// that asks something of the caller: a directory is to be read; a media
/// file whose base name is among the unmatched is to be replaced, and is
/// thereby matched; any other file is passed over. Once the walk has begun
/// it ends as soon as nothing is unmatched. When nothing is left to visit,
/// the import has succeeded if nothing is unmatched, and failed otherwise.
pub open spec fn proceed(state: ImportView) -> (ImportView, ImportActionView)
    decreases state.pending.len(),
{
    if state.started && state.unmatched.len() == 0 {
        (ImportView { pending: Seq::empty(), ..state }, ImportActionView::Finished)
    } else if state.pending.len() == 0 {
        if state.unmatched.len() == 0 {
            (state, ImportActionView::Finished)
        } else {
            (state, ImportActionView::Failed(failure_message(state.unmatched)))
        }
    } else {
        let entry = state.pending[0];
        let rest = state.pending.drop_first();
        if entry.is_dir {
            (
                ImportView { started: true, pending: rest, ..state },
                ImportActionView::ReadDirectory(entry.location),
            )
        } else if is_media_location(entry.location) && replacement_of(
            state.unmatched,
            entry.location,
        ) is Some {
            (
                ImportView {
                    started: true,
                    pending: rest,
                    unmatched: without_key(state.unmatched, base_name(name_of(entry.location))),
                },
                ImportActionView::Replace(
                    replacement_of(state.unmatched, entry.location)->Some_0,
                ),
            )
        } else {
            proceed(ImportView { started: true, pending: rest, ..state })
        }
    }
}

/// The transition of an import: from its state and what the caller has
/// done to its next state and what the caller has to do.
pub open spec fn react(state: ImportView, event: ImportEventView) -> (ImportView, ImportActionView) {
    match event {
        ImportEventView::Continue => proceed(state),
        ImportEventView::Listed(entries) => proceed(
            ImportView { pending: entries + state.pending, ..state },
        ),
    }
}

/// However an import goes on from a state, it ends well only when nothing
/// is unmatched, and it ends badly only when the tree has been walked and
/// something is unmatched, with the report on just that. A replacement is
/// that of a media file in the tree whose base name was among the unmatched,
/// by the archived file that stood under it; that base name is then matched
/// and all others are unmatched as before.
pub proof fn lemma_import_step(state: ImportView)
    requires
        distinct_keys(state.unmatched),
    ensures
        ({
            let (after, action) = proceed(state);
            &&& distinct_keys(after.unmatched)
            &&& match action {
                ImportActionView::Finished => after.unmatched.len() == 0,
                ImportActionView::Failed(message) => {
                    &&& after.pending.len() == 0
                    &&& after.unmatched == state.unmatched
                    &&& after.unmatched.len() > 0
                    &&& message == failure_message(after.unmatched)
                },
                ImportActionView::ReadDirectory(_) => after.unmatched == state.unmatched,
                ImportActionView::Replace(replacement) => {
                    let media = base_name(name_of(replacement.target));
                    &&& is_media_location(replacement.target)
                    &&& has_key(state.unmatched, media)
                    &&& replacement.origin == value_at(state.unmatched, media)
                    &&& replacement.destination == destination_of(
                        replacement.origin,
                        replacement.target,
                    )
                    &&& after.unmatched == without_key(state.unmatched, media)
                    &&& !has_key(after.unmatched, media)
                    &&& after.unmatched.len() == state.unmatched.len() - 1
                },
            }
        }),
    decreases state.pending.len(),
{
    if state.started && state.unmatched.len() == 0 {
    } else if state.pending.len() == 0 {
    } else {
        let entry = state.pending[0];
        let rest = state.pending.drop_first();
        if entry.is_dir {
        } else if is_media_location(entry.location) && replacement_of(
            state.unmatched,
            entry.location,
        ) is Some {
            let media = base_name(name_of(entry.location));
            lemma_without_key(state.unmatched, media, media);
        } else {
            lemma_import_step(ImportView { started: true, pending: rest, ..state });
        }
    }
}

/// An import that has walked the whole tree and is left with unmatched
/// files fails, and its report holds the location of each of them as it
/// was given.
pub proof fn lemma_unmatched_after_walk(state: ImportView, i: int)
    requires
        state.pending.len() == 0,
        0 <= i < state.unmatched.len(),
    ensures
        proceed(state) == (state, ImportActionView::Failed(failure_message(state.unmatched))),
        holds_text(failure_message(state.unmatched), state.unmatched[i].1),
{
    lemma_failure_names_every_location(state.unmatched, i);
}

/// An import in progress.
pub struct Import {
    walker: Walker,
    unmatched: PendingMatches,
    started: bool,
}

impl View for Import {
    type V = ImportView;

    closed spec fn view(&self) -> ImportView {
        ImportView {
            started: self.started,
            pending: self.walker.pending(),
            unmatched: self.unmatched@,
        }
    }
}

impl Import {
    /// No base name stands twice among the unmatched.
    pub open spec fn well_formed(&self) -> bool {
        distinct_keys(self@.unmatched)
    }

    /// An import of the archived files `medias_map` that has the directory
    /// at `target_directory_location` before it.
    pub fn new(medias_map: PendingMatches, target_directory_location: String) -> (import: Import)
        requires
            medias_map.well_formed(),
        ensures
            import.well_formed(),
            import@ == (ImportView {
                started: false,
                pending: seq![EntryView { location: target_directory_location@, is_dir: true }],
                unmatched: medias_map@,
            }),
    {
        Import {
            walker: Walker::new(target_directory_location),
            unmatched: medias_map,
            started: false,
        }
    }

    /// Takes note of what the caller has done and says what it has to do
    /// next.
    pub fn on(&mut self, event: ImportEvent) -> (action: ImportAction)
        requires
            old(self).well_formed(),
        ensures
            final(self).well_formed(),
            (final(self)@, action@) == react(old(self)@, event@),
    {
        match event {
            ImportEvent::Continue => {},
            ImportEvent::Listed(entries) => {
                self.walker.descend(entries);
            },
        }
        self.proceed()
    }

    /// Walks on to the next entry that asks something of the caller.
    fn proceed(&mut self) -> (action: ImportAction)
        requires
            old(self).well_formed(),
        ensures
            final(self).well_formed(),
            (final(self)@, action@) == proceed(old(self)@),
    {
        loop
            invariant
                self.well_formed(),
                proceed(self@) == proceed(old(self)@),
            decreases self@.pending.len(),
        {
            if self.started && self.unmatched.is_empty() {
                self.walker.stop();
                return ImportAction::Finished;
            }
            match self.walker.next() {
                WalkStep::Finished => {
                    if self.unmatched.is_empty() {
                        return ImportAction::Finished;
                    }
                    return ImportAction::Failed(fail_import(&self.unmatched));
                },
                WalkStep::Directory(location) => {
                    self.started = true;
                    return ImportAction::ReadDirectory(location);
                },
                WalkStep::File(location) => {
                    self.started = true;
                    if is_media(location.as_str()) {
                        if let Some(replacement) = process_media(
                            location.as_str(),
                            &mut self.unmatched,
                        ) {
                            return ImportAction::Replace(replacement);
                        }
                    }
                },
            }
        }
    }
}

} // verus!
