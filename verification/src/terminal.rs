//! Counting the items of a run for its progress display.

use vstd::prelude::*;

verus! {

/// A position between two limits.
pub struct Counter {
    start: usize,
    end: usize,
    index: usize,
}

/// A counter as plain values.
pub struct CounterView {
    pub start: nat,
    pub end: nat,
    pub index: nat,
}

impl View for Counter {
    type V = CounterView;

    closed spec fn view(&self) -> CounterView {
        CounterView { start: self.start as nat, end: self.end as nat, index: self.index as nat }
    }
}

impl Counter {
    /// A counter that stands at `start`.
    pub fn new(start: usize, end: usize) -> (counter: Counter)
        ensures
            counter@ == (CounterView { start: start as nat, end: end as nat, index: start as nat }),
    {
        Counter { start, end, index: start }
    }

    /// The lower limit.
    pub fn start(&self) -> (start: usize)
        ensures
            start == self@.start,
    {
        self.start
    }

    /// The upper limit.
    pub fn end(&self) -> (end: usize)
        ensures
            end == self@.end,
    {
        self.end
    }

    /// Where the counter stands.
    pub fn index(&self) -> (index: usize)
        ensures
            index == self@.index,
    {
        self.index
    }

    /// Moves one up, which must not lead past the end, and gives the new
    /// position.
    pub fn incr(&mut self) -> (index: usize)
        requires
            old(self)@.index + 1 <= old(self)@.end,
        ensures
            index == old(self)@.index + 1,
            final(self)@ == (CounterView { index: index as nat, ..old(self)@ }),
    {
        self.index += 1;
        self.index
    }

    /// Moves one down, which must not lead below the start, and gives the
    /// new position.
    pub fn decr(&mut self) -> (index: usize)
        requires
            old(self)@.index - 1 >= old(self)@.start,
        ensures
            index == old(self)@.index - 1,
            final(self)@ == (CounterView { index: index as nat, ..old(self)@ }),
    {
        self.index -= 1;
        self.index
    }
}

} // verus!
