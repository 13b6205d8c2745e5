//! Walking a directory tree, depth first and in the order of the listings.
//!
//! The walker never reads a directory itself. It hands out one entry at a
//! time; when the entry is a directory, the caller lists it and hands the
//! listing back with `descend`. A caller that wants to end the walk early
//! calls `stop`.

use vstd::prelude::*;

verus! {

/// What a directory listing tells of one entry.
pub struct Entry {
    pub location: String,
    pub is_dir: bool,
}

/// An entry as plain values.
pub struct EntryView {
    pub location: Seq<char>,
    pub is_dir: bool,
}

impl View for Entry {
    type V = EntryView;

    open spec fn view(&self) -> EntryView {
        EntryView { location: self.location@, is_dir: self.is_dir }
    }
}

/// The entries of a listing as plain values.
pub open spec fn entry_views(entries: Seq<Entry>) -> Seq<EntryView> {
    Seq::new(entries.len(), |i: int| entries[i]@)
}

/// The next thing that a walk has come to.
pub enum WalkStep {
    /// A directory: list it and call `descend`, or go on to leave it out.
    Directory(String),
    /// A file.
    File(String),
    /// Nothing is left to visit.
    Finished,
}

/// A walk step as plain values.
pub enum WalkStepView {
    Directory(Seq<char>),
    File(Seq<char>),
    Finished,
}

impl View for WalkStep {
    type V = WalkStepView;

    open spec fn view(&self) -> WalkStepView {
        match self {
            WalkStep::Directory(location) => WalkStepView::Directory(location@),
            WalkStep::File(location) => WalkStepView::File(location@),
            WalkStep::Finished => WalkStepView::Finished,
        }
    }
}

/// The step that an entry gives rise to.
pub open spec fn step_of(entry: EntryView) -> WalkStepView {
    if entry.is_dir {
        WalkStepView::Directory(entry.location)
    } else {
        WalkStepView::File(entry.location)
    }
}

/// A walk in progress: the entries that are still to be visited.
pub struct Walker {
    /// The entries to visit, the next one last.
    stack: Vec<Entry>,
}

impl Walker {
    /// The entries that are still to be visited, the next one first.
    pub closed spec fn pending(&self) -> Seq<EntryView> {
        entry_views(self.stack@).reverse()
    }

    /// A walk that has the directory `root` before it.
    pub fn new(root: String) -> (walker: Walker)
        ensures
            walker.pending() == seq![EntryView { location: root@, is_dir: true }],
    {
        let mut stack: Vec<Entry> = Vec::new();
        stack.push(Entry { location: root, is_dir: true });
        let walker = Walker { stack };
        assert(walker.pending() =~= seq![EntryView { location: root@, is_dir: true }]);
        walker
    }

    /// Whether nothing is left to visit.
    pub fn is_finished(&self) -> (finished: bool)
        ensures
            finished == (self.pending().len() == 0),
    {
        self.stack.len() == 0
    }

    /// Takes the next entry off the walk.
    pub fn next(&mut self) -> (step: WalkStep)
        ensures
            old(self).pending().len() == 0 ==> step@ == WalkStepView::Finished
                && final(self).pending() == old(self).pending(),
            old(self).pending().len() > 0 ==> step@ == step_of(old(self).pending()[0])
                && final(self).pending() == old(self).pending().drop_first(),
    {
        let ghost before = self.stack@;
        match self.stack.pop() {
            Some(entry) => {
                assert(entry_views(self.stack@).reverse() =~= entry_views(
                    before,
                ).reverse().drop_first());
                if entry.is_dir {
                    WalkStep::Directory(entry.location)
                } else {
                    WalkStep::File(entry.location)
                }
            },
            None => WalkStep::Finished,
        }
    }

    /// Puts the listing of the directory that was handed out last before
    /// everything else that is still to be visited.
    pub fn descend(&mut self, entries: Vec<Entry>)
        ensures
            final(self).pending() == entry_views(entries@) + old(self).pending(),
    {
        let mut entries = entries;
        let ghost listing = entries@;
        let ghost before = self.stack@;
        while entries.len() > 0
            invariant
                entries@ == listing.take(entries.len() as int),
                entries.len() <= listing.len(),
                self.stack@ == before + listing.skip(entries.len() as int).reverse(),
            decreases entries.len(),
        {
            let ghost n = entries.len() as int;
            let entry = entries.pop().unwrap();
            self.stack.push(entry);
            assert(self.stack@ =~= before + listing.skip(n - 1).reverse());
            assert(entries@ =~= listing.take(n - 1));
        }
        assert(entry_views(self.stack@).reverse() =~= entry_views(listing) + entry_views(
            before,
        ).reverse());
    }

    /// Ends the walk: nothing is left to visit.
    pub fn stop(&mut self)
        ensures
            final(self).pending() == Seq::<EntryView>::empty(),
    {
        self.stack.clear();
        assert(entry_views(self.stack@).reverse() =~= Seq::<EntryView>::empty());
    }
}

/// A directory tree as a walk finds it.
pub enum Node {
    File(Seq<char>),
    Directory(Seq<char>, Seq<Node>),
}

/// What the listing of its parent tells of a node.
pub open spec fn entry_of(node: Node) -> EntryView {
    match node {
        Node::File(location) => EntryView { location, is_dir: false },
        Node::Directory(location, _) => EntryView { location, is_dir: true },
    }
}

/// What the listing of their directory tells of some trees.
pub open spec fn entries_of(forest: Seq<Node>) -> Seq<EntryView> {
    Seq::new(forest.len(), |i: int| entry_of(forest[i]))
}

/// The trees that a directory holds; none for a file.
pub open spec fn children_of(node: Node) -> Seq<Node> {
    match node {
        Node::File(_) => Seq::empty(),
        Node::Directory(_, children) => children,
    }
}

/// The files below a node, depth first, in the order of the listings.
pub open spec fn files_in(node: Node) -> Seq<Seq<char>>
    decreases node,
{
    match node {
        Node::File(location) => seq![location],
        Node::Directory(_, children) => files_of(children),
    }
}

/// The files of some trees, tree after tree.
pub open spec fn files_of(forest: Seq<Node>) -> Seq<Seq<char>>
    decreases forest,
{
    if forest.len() == 0 {
        Seq::empty()
    } else {
        files_in(forest[0]) + files_of(forest.drop_first())
    }
}

/// The number of nodes in some trees.
pub open spec fn size_of(forest: Seq<Node>) -> nat
    decreases forest,
{
    if forest.len() == 0 {
        0
    } else {
        1 + match forest[0] {
            Node::File(_) => 0,
            Node::Directory(_, children) => size_of(children),
        } + size_of(forest.drop_first())
    }
}

/// The files that a walk comes to, in order, when the trees `pending` are
/// still to be visited and each directory is descended into: a file is
/// visited and taken off; a directory is taken off and its children are put
/// before the rest.
pub open spec fn visited(pending: Seq<Node>) -> Seq<Seq<char>>
    decreases size_of(pending),
    via visited_decreases
{
    if pending.len() == 0 {
        Seq::empty()
    } else {
        match pending[0] {
            Node::File(location) => seq![location] + visited(pending.drop_first()),
            Node::Directory(_, children) => visited(children + pending.drop_first()),
        }
    }
}

#[via_fn]
proof fn visited_decreases(pending: Seq<Node>) {
    if pending.len() > 0 {
        if let Node::Directory(_, children) = pending[0] {
            lemma_size_of_concat(children, pending.drop_first());
        }
    }
}

/// The size of trees put one behind the other is the sum of their sizes.
pub proof fn lemma_size_of_concat(first: Seq<Node>, second: Seq<Node>)
    ensures
        size_of(first + second) == size_of(first) + size_of(second),
    decreases first.len(),
{
    if first.len() == 0 {
        assert(first + second == second);
    } else {
        assert((first + second)[0] == first[0]);
        assert((first + second).drop_first() == first.drop_first() + second);
        lemma_size_of_concat(first.drop_first(), second);
    }
}

/// The files of trees put one behind the other are the files of the first
/// followed by those of the second.
pub proof fn lemma_files_of_concat(first: Seq<Node>, second: Seq<Node>)
    ensures
        files_of(first + second) == files_of(first) + files_of(second),
    decreases first.len(),
{
    if first.len() == 0 {
        assert(first + second == second);
    } else {
        assert((first + second)[0] == first[0]);
        assert((first + second).drop_first() == first.drop_first() + second);
        lemma_files_of_concat(first.drop_first(), second);
    }
}

/// The files of some trees are those below the first followed by those of
/// the others; where the first is a directory, they are the files of its
/// children put before the others.
pub proof fn lemma_files_of_first(forest: Seq<Node>)
    requires
        forest.len() > 0,
    ensures
        files_of(forest) == files_in(forest[0]) + files_of(forest.drop_first()),
        forest[0] is Directory ==> files_of(forest) == files_of(
            children_of(forest[0]) + forest.drop_first(),
        ),
{
    if forest[0] is Directory {
        lemma_files_of_concat(children_of(forest[0]), forest.drop_first());
    }
}

/// Going on from one of some trees leaves less to visit: its children
/// together with the trees behind it are smaller than all the trees, and so
/// are the trees behind it alone.
pub proof fn lemma_size_of_descent(forest: Seq<Node>, at: int)
    requires
        0 <= at < forest.len(),
    ensures
        size_of(children_of(forest[at]) + forest.skip(at + 1)) < size_of(forest),
        size_of(forest.skip(at + 1)) < size_of(forest),
{
    let one = forest.subrange(at, at + 1);
    assert(forest == forest.take(at) + (one + forest.skip(at + 1)));
    lemma_size_of_concat(forest.take(at), one + forest.skip(at + 1));
    lemma_size_of_concat(one, forest.skip(at + 1));
    lemma_size_of_concat(children_of(forest[at]), forest.skip(at + 1));
    assert(size_of(one) == 1 + size_of(children_of(forest[at]))) by {
        assert(one[0] == forest[at]);
        assert(one.drop_first() == Seq::<Node>::empty());
        assert(size_of(Seq::<Node>::empty()) == 0);
    }
}

/// A walk visits the files depth first and in the order of the listings:
/// what it comes to is what the trees hold, each directory's files standing
/// where the directory stands in its listing.
pub proof fn lemma_walk_is_depth_first(pending: Seq<Node>)
    ensures
        visited(pending) == files_of(pending),
    decreases size_of(pending),
{
    if pending.len() > 0 {
        let rest = pending.drop_first();
        match pending[0] {
            Node::File(location) => {
                lemma_walk_is_depth_first(rest);
                assert(files_in(pending[0]) == seq![location]);
            },
            Node::Directory(_, children) => {
                lemma_size_of_concat(children, rest);
                lemma_files_of_concat(children, rest);
                lemma_walk_is_depth_first(children + rest);
                assert(files_in(pending[0]) == files_of(children));
            },
        }
    }
}

} // verus!
