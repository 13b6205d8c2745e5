//! The archived media files that are not yet matched, kept by base name.
//!
//! In contracts they are a sequence of pairs of a base name and a location,
//! in the order in which the base names came in.

use crate::utils::text::{same_text, texts};
use vstd::prelude::*;

verus! {

/// Position of the first pair with the key `key`, or `pairs.len()` when
/// there is none.
pub open spec fn position_of(pairs: Seq<(Seq<char>, Seq<char>)>, key: Seq<char>) -> int
    decreases pairs.len(),
{
    if pairs.len() == 0 || pairs[0].0 == key {
        0
    } else {
        1 + position_of(pairs.drop_first(), key)
    }
}

/// Whether a pair has the key `key`.
pub open spec fn has_key(pairs: Seq<(Seq<char>, Seq<char>)>, key: Seq<char>) -> bool {
    position_of(pairs, key) < pairs.len()
}

/// The value that stands with the key `key`.
pub open spec fn value_at(pairs: Seq<(Seq<char>, Seq<char>)>, key: Seq<char>) -> Seq<char> {
    pairs[position_of(pairs, key)].1
}

/// The pairs after `value` was put in under `key`: in the place of the value
/// that stood there, or behind all others.
pub open spec fn with_pair(
    pairs: Seq<(Seq<char>, Seq<char>)>,
    key: Seq<char>,
    value: Seq<char>,
) -> Seq<(Seq<char>, Seq<char>)> {
    if has_key(pairs, key) {
        pairs.update(position_of(pairs, key), (key, value))
    } else {
        pairs.push((key, value))
    }
}

/// The pairs without the one that has the key `key`.
pub open spec fn without_key(pairs: Seq<(Seq<char>, Seq<char>)>, key: Seq<char>) -> Seq<
    (Seq<char>, Seq<char>),
> {
    if has_key(pairs, key) {
        pairs.remove(position_of(pairs, key))
    } else {
        pairs
    }
}

/// No key stands twice.
pub open spec fn distinct_keys(pairs: Seq<(Seq<char>, Seq<char>)>) -> bool {
    forall|i: int, j: int| 0 <= i < j < pairs.len() ==> pairs[i].0 != pairs[j].0
}

/// The values of the pairs, in order.
pub open spec fn values_of(pairs: Seq<(Seq<char>, Seq<char>)>) -> Seq<Seq<char>> {
    Seq::new(pairs.len(), |i: int| pairs[i].1)
}

/// `position_of` is the least position whose pair has the key.
pub proof fn lemma_position_of(pairs: Seq<(Seq<char>, Seq<char>)>, key: Seq<char>)
    ensures
        0 <= position_of(pairs, key) <= pairs.len(),
        has_key(pairs, key) ==> pairs[position_of(pairs, key)].0 == key,
        forall|j: int| 0 <= j < position_of(pairs, key) ==> pairs[j].0 != key,
    decreases pairs.len(),
{
    if pairs.len() == 0 || pairs[0].0 == key {
    } else {
        let rest = pairs.drop_first();
        lemma_position_of(rest, key);
        assert forall|j: int| 0 <= j < position_of(pairs, key) implies pairs[j].0 != key by {
            if j > 0 {
                assert(pairs[j] == rest[j - 1]);
            }
        }
    }
}

/// A position whose pair has the key, with no such pair before it, is the
/// position of the key.
pub proof fn lemma_position_is(pairs: Seq<(Seq<char>, Seq<char>)>, key: Seq<char>, at: int)
    requires
        0 <= at <= pairs.len(),
        at < pairs.len() ==> pairs[at].0 == key,
        forall|j: int| 0 <= j < at ==> pairs[j].0 != key,
    ensures
        position_of(pairs, key) == at,
{
    lemma_position_of(pairs, key);
}

/// Putting a value in under a key: the key is then there with that value,
/// every other key stands as before, and no key stands twice.
pub proof fn lemma_with_pair(
    pairs: Seq<(Seq<char>, Seq<char>)>,
    key: Seq<char>,
    value: Seq<char>,
    other: Seq<char>,
)
    requires
        distinct_keys(pairs),
    ensures
        distinct_keys(with_pair(pairs, key, value)),
        has_key(with_pair(pairs, key, value), key),
        value_at(with_pair(pairs, key, value), key) == value,
        other != key ==> has_key(with_pair(pairs, key, value), other) == has_key(pairs, other),
        other != key && has_key(pairs, other) ==> value_at(with_pair(pairs, key, value), other)
            == value_at(pairs, other),
{
    let after = with_pair(pairs, key, value);
    let at = position_of(pairs, key);
    lemma_position_of(pairs, key);
    lemma_position_of(pairs, other);
    lemma_position_is(after, key, at);
    if other != key {
        let there = position_of(pairs, other);
        if there < pairs.len() {
            lemma_position_is(after, other, there);
        } else {
            lemma_position_is(after, other, after.len() as int);
        }
    }
}

/// Taking a key out: the key is then gone, every other key stands as
/// before, and no key stands twice.
pub proof fn lemma_without_key(pairs: Seq<(Seq<char>, Seq<char>)>, key: Seq<char>, other: Seq<char>)
    requires
        distinct_keys(pairs),
    ensures
        distinct_keys(without_key(pairs, key)),
        !has_key(without_key(pairs, key), key),
        other != key ==> has_key(without_key(pairs, key), other) == has_key(pairs, other),
        other != key && has_key(pairs, other) ==> value_at(without_key(pairs, key), other)
            == value_at(pairs, other),
        has_key(pairs, key) ==> without_key(pairs, key).len() == pairs.len() - 1,
{
    let after = without_key(pairs, key);
    let at = position_of(pairs, key);
    lemma_position_of(pairs, key);
    lemma_position_of(pairs, other);
    if has_key(pairs, key) {
        assert forall|j: int| 0 <= j < after.len() implies after[j].0 != key by {
            if j < at {
                assert(after[j] == pairs[j]);
            } else {
                assert(after[j] == pairs[j + 1]);
            }
        }
        lemma_position_is(after, key, after.len() as int);
        if other != key {
            let there = position_of(pairs, other);
            if there < at {
                lemma_position_is(after, other, there);
            } else if there < pairs.len() {
                lemma_position_is(after, other, there - 1);
            } else {
                lemma_position_is(after, other, after.len() as int);
            }
        }
    }
}

/// The archived media files that are not yet matched: pairs of a base name
/// and the location of the file that it stands for, in the order in which
/// the base names came in. No base name stands twice.
pub struct PendingMatches {
    entries: Vec<(String, String)>,
}

impl View for PendingMatches {
    type V = Seq<(Seq<char>, Seq<char>)>;

    closed spec fn view(&self) -> Seq<(Seq<char>, Seq<char>)> {
        Seq::new(self.entries.len() as nat, |i: int| (self.entries[i].0@, self.entries[i].1@))
    }
}

impl PendingMatches {
    /// No base name stands twice.
    pub open spec fn well_formed(&self) -> bool {
        distinct_keys(self@)
    }

    /// No pending matches.
    pub fn new() -> (matches: PendingMatches)
        ensures
            matches@ == Seq::<(Seq<char>, Seq<char>)>::empty(),
            matches.well_formed(),
    {
        let matches = PendingMatches { entries: Vec::new() };
        assert(matches@ =~= Seq::<(Seq<char>, Seq<char>)>::empty());
        matches
    }

    /// How many archived files are unmatched.
    pub fn len(&self) -> (len: usize)
        ensures
            len == self@.len(),
    {
        self.entries.len()
    }

    /// Whether every archived file is matched.
    pub fn is_empty(&self) -> (empty: bool)
        ensures
            empty == (self@.len() == 0),
    {
        self.entries.len() == 0
    }

    /// Where the pair with the key `key` stands.
    fn position(&self, key: &str) -> (at: usize)
        ensures
            at == position_of(self@, key@),
            at <= self@.len(),
    {
        let mut at: usize = 0;
        while at < self.entries.len() && !same_text(self.entries[at].0.as_str(), key)
            invariant
                at <= self.entries.len(),
                forall|j: int| 0 <= j < at ==> self@[j].0 != key@,
            decreases self.entries.len() - at,
        {
            at = at + 1;
        }
        proof {
            lemma_position_is(self@, key@, at as int);
        }
        at
    }

    /// Whether an archived file stands under the base name `key`.
    pub fn contains_key(&self, key: &str) -> (found: bool)
        ensures
            found == has_key(self@, key@),
    {
        self.position(key) < self.entries.len()
    }

    /// The location of the archived file that stands under the base name
    /// `key`, if there is one.
    pub fn get(&self, key: &str) -> (value: Option<&String>)
        ensures
            match value {
                Some(value) => has_key(self@, key@) && value@ == value_at(self@, key@),
                None => !has_key(self@, key@),
            },
    {
        let at = self.position(key);
        if at < self.entries.len() {
            Some(&self.entries[at].1)
        } else {
            None
        }
    }

    /// Puts `value` in under `key`; a value that stood there is lost.
    pub fn insert(&mut self, key: String, value: String)
        requires
            old(self).well_formed(),
        ensures
            final(self)@ == with_pair(old(self)@, key@, value@),
            final(self).well_formed(),
    {
        proof {
            lemma_with_pair(self@, key@, value@, key@);
        }
        let at = self.position(key.as_str());
        if at < self.entries.len() {
            self.entries.set(at, (key, value));
        } else {
            self.entries.push((key, value));
        }
        assert(self@ =~= with_pair(old(self)@, key@, value@));
    }

    /// Takes the pair with the key `key` out, if there is one.
    pub fn remove(&mut self, key: &str)
        requires
            old(self).well_formed(),
        ensures
            final(self)@ == without_key(old(self)@, key@),
            final(self).well_formed(),
    {
        proof {
            lemma_without_key(self@, key@, key@);
        }
        let at = self.position(key);
        if at < self.entries.len() {
            self.entries.remove(at);
        }
        assert(self@ =~= without_key(old(self)@, key@));
    }

    /// The locations, in order.
    pub fn values(&self) -> (values: Vec<String>)
        ensures
            texts(values@) == values_of(self@),
    {
        let mut values: Vec<String> = Vec::new();
        let mut at: usize = 0;
        while at < self.entries.len()
            invariant
                at <= self.entries.len(),
                texts(values@) == values_of(self@).take(at as int),
            decreases self.entries.len() - at,
        {
            let ghost before = values@;
            let value = self.entries[at].1.clone();
            assert(value@ == values_of(self@)[at as int]);
            values.push(value);
            at = at + 1;
            assert(texts(values@) =~= texts(before).push(value@));
            assert(texts(values@) =~= values_of(self@).take(at as int));
        }
        assert(values_of(self@).take(at as int) =~= values_of(self@));
        values
    }
}

} // verus!
