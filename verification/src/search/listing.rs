//! What a whole search records of a tree.

use crate::search::{advance, should_record, verdict_of, SearchActionView, VerdictView};
use crate::utils::media::{is_avi, is_non_avi_video};
use crate::walker::{
    children_of, entries_of, entry_of, files_in, files_of, lemma_files_of_concat,
    lemma_size_of_descent, size_of, EntryView, Node,
};
use vstd::prelude::*;

verus! {

/// The listing of a search over the trees `forest`, when the probe of the
/// file at a location prints `probe(location)`: the files that are to be
/// recorded, depth first and in the order of the directories' listings.
pub open spec fn listing(
    forest: Seq<Node>,
    probe: spec_fn(Seq<char>) -> Seq<Seq<char>>,
) -> Seq<Seq<char>> {
    files_of(forest).filter(|location: Seq<char>| should_record(location, probe(location)))
}

/// The listing of trees put one behind the other is the listing of the
/// first followed by that of the second.
pub proof fn lemma_listing_concat(
    first: Seq<Node>,
    second: Seq<Node>,
    probe: spec_fn(Seq<char>) -> Seq<Seq<char>>,
)
    ensures
        listing(first + second, probe) == listing(first, probe) + listing(second, probe),
{
    lemma_files_of_concat(first, second);
    Seq::filter_distributes_over_add(
        files_of(first),
        files_of(second),
        |location: Seq<char>| should_record(location, probe(location)),
    );
}

/// Every action of a search accounts for the part of the listing that it
/// stands for. When the trees `forest` are still to be visited, the search
/// goes on to a directory, to a file to record or to a file to probe, and
/// passes over files that add nothing to the listing. The listing of
/// `forest` is then: for a directory, the listing of its children followed
/// by that of the trees behind it; for a file to record, the file followed by
/// the listing of the trees behind it; for a file to probe, the same if its
/// verdict is to transcode, and else the listing of the trees behind it.
/// When the search is finished, nothing more was to be listed.
pub proof fn lemma_search_step(forest: Seq<Node>, probe: spec_fn(Seq<char>) -> Seq<Seq<char>>)
    ensures
        ({
            let (rest, action) = advance(entries_of(forest));
            let at = forest.len() - rest.len() - 1;
            let behind = forest.skip(at + 1);
            &&& rest == entries_of(behind)
            &&& match action {
                SearchActionView::Finished => {
                    &&& rest.len() == 0
                    &&& listing(forest, probe) == Seq::<Seq<char>>::empty()
                },
                SearchActionView::ReadDirectory(location) => {
                    &&& 0 <= at
                    &&& forest[at] is Directory
                    &&& entry_of(forest[at]).location == location
                    &&& listing(forest, probe) == listing(children_of(forest[at]) + behind, probe)
                },
                SearchActionView::Record(location) => {
                    &&& 0 <= at
                    &&& forest[at] == Node::File(location)
                    &&& listing(forest, probe) == seq![location] + listing(behind, probe)
                },
                SearchActionView::Probe(location) => {
                    &&& 0 <= at
                    &&& forest[at] == Node::File(location)
                    &&& listing(forest, probe) == if verdict_of(probe(location)) is Transcode {
                        seq![location] + listing(behind, probe)
                    } else {
                        listing(behind, probe)
                    }
                },
                SearchActionView::Malformed(_) => false,
            }
        }),
    decreases forest.len(),
{
    let keep = |location: Seq<char>| should_record(location, probe(location));
    if forest.len() == 0 {
        assert(forest.skip(0) == forest);
        assert(entries_of(forest) == Seq::<EntryView>::empty());
    } else {
        let tail = forest.drop_first();
        assert(entries_of(forest).drop_first() == entries_of(tail));
        assert(forest == seq![forest[0]] + tail);
        lemma_listing_concat(seq![forest[0]], tail, probe);
        assert(files_of(seq![forest[0]]) == files_in(forest[0])) by {
            assert(seq![forest[0]].drop_first() == Seq::<Node>::empty());
            assert(files_of(Seq::<Node>::empty()) == Seq::<Seq<char>>::empty());
        }
        match forest[0] {
            Node::Directory(_, children) => {
                assert(files_in(forest[0]) == files_of(children));
                lemma_listing_concat(children, tail, probe);
            },
            Node::File(location) => {
                let one = seq![location];
                assert(files_in(forest[0]) == one);
                assert(one.filter(keep) == if keep(location) {
                    one
                } else {
                    Seq::<Seq<char>>::empty()
                }) by {
                    reveal_with_fuel(Seq::filter, 2);
                    assert(one.drop_last() == Seq::<Seq<char>>::empty());
                }
                if !is_avi(location) && !is_non_avi_video(location) {
                    lemma_search_step(tail, probe);
                    let (rest, action) = advance(entries_of(tail));
                    let at = tail.len() - rest.len() - 1;
                    assert(tail.skip(at + 1) == forest.skip(at + 2));
                    if 0 <= at {
                        assert(tail[at] == forest[at + 1]);
                    }
                }
            },
        }
    }
}

/// What a whole search records, in order, from the state in which the trees
/// `forest` are still to be visited, when the caller answers each action as
/// the tree has it: a directory with the listing of its children, a probe
/// with `probe(location)`, a record by going on. The search ends when it is
/// finished or when a probe's output is malformed.
pub open spec fn recorded(
    forest: Seq<Node>,
    probe: spec_fn(Seq<char>) -> Seq<Seq<char>>,
) -> Seq<Seq<char>>
    decreases size_of(forest),
    via recorded_decreases
{
    let (rest, action) = advance(entries_of(forest));
    let at = forest.len() - rest.len() - 1;
    let behind = forest.skip(at + 1);
    match action {
        SearchActionView::ReadDirectory(_) => recorded(children_of(forest[at]) + behind, probe),
        SearchActionView::Record(location) => seq![location] + recorded(behind, probe),
        SearchActionView::Probe(location) => match verdict_of(probe(location)) {
            VerdictView::Transcode => seq![location] + recorded(behind, probe),
            VerdictView::Keep => recorded(behind, probe),
            VerdictView::Malformed(_) => Seq::empty(),
        },
        SearchActionView::Finished => Seq::empty(),
        SearchActionView::Malformed(_) => Seq::empty(),
    }
}

#[via_fn]
proof fn recorded_decreases(forest: Seq<Node>, probe: spec_fn(Seq<char>) -> Seq<Seq<char>>) {
    lemma_search_step(forest, probe);
    let (rest, action) = advance(entries_of(forest));
    let at = forest.len() - rest.len() - 1;
    if !(action is Finished) {
        lemma_size_of_descent(forest, at);
    }
}

/// A search records the listing of the tree: the files that are to be
/// recorded, depth first and in the order of the directories' listings. So
/// what it records is fixed by the tree and by what the probes print, and
/// two searches over an unchanged tree record the same.
pub proof fn lemma_search_records_the_listing(
    forest: Seq<Node>,
    probe: spec_fn(Seq<char>) -> Seq<Seq<char>>,
)
    requires
        forall|location: Seq<char>| !(#[trigger] verdict_of(probe(location)) is Malformed),
    ensures
        recorded(forest, probe) == listing(forest, probe),
    decreases size_of(forest),
{
    lemma_search_step(forest, probe);
    let (rest, action) = advance(entries_of(forest));
    let at = forest.len() - rest.len() - 1;
    let behind = forest.skip(at + 1);
    if !(action is Finished) {
        lemma_size_of_descent(forest, at);
        match action {
            SearchActionView::ReadDirectory(_) => {
                lemma_search_records_the_listing(children_of(forest[at]) + behind, probe);
            },
            _ => {
                lemma_search_records_the_listing(behind, probe);
            },
        }
    }
}

} // verus!
