//! What a whole import does to a tree.

use crate::import::matches::{distinct_keys, has_key, lemma_without_key, value_at, without_key};
use crate::import::{
    failure_message, is_media_named, proceed, replacement_of, ImportActionView, ImportView,
    ReplacementView,
};
use crate::utils::file::{base_name, name_of};
use crate::utils::media::is_media_location;
use crate::walker::{
    children_of, entries_of, entry_of, files_of, lemma_files_of_first, lemma_size_of_descent,
    size_of, EntryView, Node,
};
use vstd::prelude::*;

verus! {

/// What is unmatched once the file at `location` was visited.
pub open spec fn after_file(
    unmatched: Seq<(Seq<char>, Seq<char>)>,
    location: Seq<char>,
) -> Seq<(Seq<char>, Seq<char>)> {
    if is_media_location(location) {
        without_key(unmatched, base_name(name_of(location)))
    } else {
        unmatched
    }
}

/// What is unmatched once the files at `locations` were visited in order.
pub open spec fn drained(
    unmatched: Seq<(Seq<char>, Seq<char>)>,
    locations: Seq<Seq<char>>,
) -> Seq<(Seq<char>, Seq<char>)>
    decreases locations.len(),
{
    if locations.len() == 0 {
        unmatched
    } else {
        drained(after_file(unmatched, locations[0]), locations.drop_first())
    }
}

/// The replacements that visiting the files at `locations` in order calls
/// for: one for each media file whose base name is unmatched when it is
/// visited.
pub open spec fn replaced(
    unmatched: Seq<(Seq<char>, Seq<char>)>,
    locations: Seq<Seq<char>>,
) -> Seq<ReplacementView>
    decreases locations.len(),
{
    if locations.len() == 0 {
        Seq::empty()
    } else {
        let location = locations[0];
        let more = replaced(after_file(unmatched, location), locations.drop_first());
        if is_media_location(location) && replacement_of(unmatched, location) is Some {
            seq![replacement_of(unmatched, location)->Some_0] + more
        } else {
            more
        }
    }
}

/// How an import ends when `unmatched` is left: well if nothing is, else
/// with the report on it.
pub open spec fn ending(unmatched: Seq<(Seq<char>, Seq<char>)>) -> ImportActionView {
    if unmatched.len() == 0 {
        ImportActionView::Finished
    } else {
        ImportActionView::Failed(failure_message(unmatched))
    }
}

/// When nothing is unmatched, visiting files changes nothing and calls for
/// no replacement.
pub proof fn lemma_visit_with_nothing_unmatched(locations: Seq<Seq<char>>)
    ensures
        drained(Seq::empty(), locations) == Seq::<(Seq<char>, Seq<char>)>::empty(),
        replaced(Seq::empty(), locations) == Seq::<ReplacementView>::empty(),
    decreases locations.len(),
{
    if locations.len() > 0 {
        let nothing = Seq::<(Seq<char>, Seq<char>)>::empty();
        assert(after_file(nothing, locations[0]) == nothing);
        lemma_visit_with_nothing_unmatched(locations.drop_first());
    }
}

/// What visiting files leaves unmatched: the base names that were
/// unmatched and that none of the visited media files has, each with the
/// location that it stood for. No base name stands twice.
pub proof fn lemma_drained(
    unmatched: Seq<(Seq<char>, Seq<char>)>,
    locations: Seq<Seq<char>>,
    media: Seq<char>,
)
    requires
        distinct_keys(unmatched),
    ensures
        distinct_keys(drained(unmatched, locations)),
        has_key(drained(unmatched, locations), media) <==> has_key(unmatched, media) && forall|
            i: int,
        |
            0 <= i < locations.len() ==> !#[trigger] is_media_named(locations[i], media),
        has_key(drained(unmatched, locations), media) ==> value_at(
            drained(unmatched, locations),
            media,
        ) == value_at(unmatched, media),
    decreases locations.len(),
{
    if locations.len() > 0 {
        let first = locations[0];
        let rest = locations.drop_first();
        let next = after_file(unmatched, first);
        lemma_without_key(unmatched, base_name(name_of(first)), media);
        lemma_drained(next, rest, media);
        assert forall|i: int| 0 <= i < rest.len() implies rest[i] == locations[i + 1] by {}
        if has_key(drained(unmatched, locations), media) {
            assert(!is_media_named(first, media));
            assert forall|i: int| 0 <= i < locations.len() implies !#[trigger] is_media_named(
                locations[i],
                media,
            ) by {
                if i > 0 {
                    assert(!is_media_named(rest[i - 1], media));
                }
            }
        }
        if has_key(unmatched, media) && forall|i: int|
            0 <= i < locations.len() ==> !#[trigger] is_media_named(locations[i], media) {
            assert(!is_media_named(locations[0], media));
            assert forall|i: int| 0 <= i < rest.len() implies !#[trigger] is_media_named(
                rest[i],
                media,
            ) by {
                assert(!is_media_named(locations[i + 1], media));
            }
        }
    }
}

/// Every action of an import accounts for the files that it stands for.
/// When the trees `forest` are still to be visited, the import passes over
/// the files that match nothing and goes on to a directory or to a file to
/// replace, or it ends. What visiting the files of `forest` leaves
/// unmatched, and the replacements that it calls for, are then: for a
/// directory, those of visiting its children and the trees behind it; for a
/// replacement, that replacement and then those of visiting the trees behind
/// the file, with its base name matched. When the import ends, no
/// replacement was left to make, and what was unmatched stays so.
pub proof fn lemma_import_walk_step(forest: Seq<Node>, state: ImportView)
    requires
        distinct_keys(state.unmatched),
    ensures
        ({
            let (after, action) = proceed(ImportView { pending: entries_of(forest), ..state });
            let at = forest.len() - after.pending.len() - 1;
            let behind = forest.skip(at + 1);
            let files = files_of(forest);
            &&& distinct_keys(after.unmatched)
            &&& match action {
                ImportActionView::ReadDirectory(location) => {
                    let inside = files_of(children_of(forest[at]) + behind);
                    &&& 0 <= at
                    &&& forest[at] is Directory
                    &&& entry_of(forest[at]).location == location
                    &&& after.started
                    &&& after.pending == entries_of(behind)
                    &&& drained(state.unmatched, files) == drained(after.unmatched, inside)
                    &&& replaced(state.unmatched, files) == replaced(after.unmatched, inside)
                },
                ImportActionView::Replace(replacement) => {
                    &&& 0 <= at
                    &&& forest[at] == Node::File(replacement.target)
                    &&& after.started
                    &&& after.pending == entries_of(behind)
                    &&& drained(state.unmatched, files) == drained(
                        after.unmatched,
                        files_of(behind),
                    )
                    &&& replaced(state.unmatched, files) == seq![replacement] + replaced(
                        after.unmatched,
                        files_of(behind),
                    )
                },
                _ => {
                    &&& action == ending(drained(state.unmatched, files))
                    &&& replaced(state.unmatched, files) == Seq::<ReplacementView>::empty()
                },
            }
        }),
    decreases forest.len(),
{
    let begun = ImportView { pending: entries_of(forest), ..state };
    let files = files_of(forest);
    if begun.started && begun.unmatched.len() == 0 {
        assert(state.unmatched == Seq::<(Seq<char>, Seq<char>)>::empty());
        lemma_visit_with_nothing_unmatched(files);
    } else if forest.len() == 0 {
        assert(entries_of(forest) == Seq::<EntryView>::empty());
    } else {
        let tail = forest.drop_first();
        assert(entries_of(forest).drop_first() == entries_of(tail));
        assert(forest.skip(1) == tail);
        lemma_files_of_first(forest);
        match forest[0] {
            Node::Directory(_, _) => {},
            Node::File(location) => {
                assert(files == seq![location] + files_of(tail));
                assert(files[0] == location);
                assert(files.drop_first() == files_of(tail));
                if is_media_location(location) && replacement_of(state.unmatched, location)
                    is Some {
                    let media = base_name(name_of(location));
                    lemma_without_key(state.unmatched, media, media);
                } else {
                    let next = ImportView { started: true, ..state };
                    assert(after_file(state.unmatched, location) == state.unmatched);
                    lemma_import_walk_step(tail, next);
                    let (after, action) = proceed(
                        ImportView { pending: entries_of(tail), ..next },
                    );
                    assert(proceed(begun) == (after, action));
                    let at = tail.len() - after.pending.len() - 1;
                    if action is ReadDirectory || action is Replace {
                        assert(tail.skip(at + 1) == forest.skip(at + 2));
                        assert(tail[at] == forest[at + 1]);
                    }
                }
            },
        }
    }
}

/// What a whole import does from the state `state`, when the trees `forest`
/// are still to be visited and the caller answers each action as the tree
/// has it: a directory with the listing of its children, a replacement by
/// going on. Gives the replacements in order, and the action that the
/// import ends with.
pub open spec fn imported(forest: Seq<Node>, state: ImportView) -> (
    Seq<ReplacementView>,
    ImportActionView,
)
    decreases size_of(forest),
    via imported_decreases
{
    let (after, action) = proceed(ImportView { pending: entries_of(forest), ..state });
    let at = forest.len() - after.pending.len() - 1;
    let behind = forest.skip(at + 1);
    match action {
        ImportActionView::ReadDirectory(_) => imported(children_of(forest[at]) + behind, after),
        ImportActionView::Replace(replacement) => {
            let (more, end) = imported(behind, after);
            (seq![replacement] + more, end)
        },
        _ => (Seq::empty(), action),
    }
}

#[via_fn]
proof fn imported_decreases(forest: Seq<Node>, state: ImportView) {
    let begun = ImportView { pending: entries_of(forest), ..state };
    lemma_proceed_takes_entries(begun);
    let (after, action) = proceed(begun);
    let at = forest.len() - after.pending.len() - 1;
    if action is ReadDirectory || action is Replace {
        lemma_size_of_descent(forest, at);
    }
}

/// An import that goes on to a directory or to a replacement has taken at
/// least one entry off those that are still to be visited.
proof fn lemma_proceed_takes_entries(state: ImportView)
    ensures
        ({
            let (after, action) = proceed(state);
            action is ReadDirectory || action is Replace ==> after.pending.len()
                < state.pending.len()
        }),
    decreases state.pending.len(),
{
    if !(state.started && state.unmatched.len() == 0) && state.pending.len() > 0 {
        let entry = state.pending[0];
        let rest = state.pending.drop_first();
        if !entry.is_dir && !(is_media_location(entry.location) && replacement_of(
            state.unmatched,
            entry.location,
        ) is Some) {
            lemma_proceed_takes_entries(ImportView { started: true, pending: rest, ..state });
        }
    }
}

/// A whole import makes the replacements that visiting the files of the
/// tree calls for, depth first and in the order of the directories'
/// listings: one for each media file whose base name is unmatched when the
/// walk comes to it. It ends well if that leaves nothing unmatched, and
/// else with the report on what it leaves.
pub proof fn lemma_import_run(forest: Seq<Node>, state: ImportView)
    requires
        distinct_keys(state.unmatched),
    ensures
        imported(forest, state) == (
            replaced(state.unmatched, files_of(forest)),
            ending(drained(state.unmatched, files_of(forest))),
        ),
    decreases size_of(forest),
{
    lemma_import_walk_step(forest, state);
    let (after, action) = proceed(ImportView { pending: entries_of(forest), ..state });
    let at = forest.len() - after.pending.len() - 1;
    let behind = forest.skip(at + 1);
    match action {
        ImportActionView::ReadDirectory(_) => {
            lemma_size_of_descent(forest, at);
            lemma_import_run(children_of(forest[at]) + behind, after);
        },
        ImportActionView::Replace(_) => {
            lemma_size_of_descent(forest, at);
            lemma_import_run(behind, after);
        },
        _ => {},
    }
}

} // verus!
