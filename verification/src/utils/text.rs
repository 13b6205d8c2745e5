//! Character-level operations on string slices.
//!
//! A string is seen as the sequence of its characters; every position in a
//! contract counts characters, never bytes.

use substring::Substring;
use vstd::prelude::*;
use vstd::std_specs::iter::IteratorSpec;

verus! {

/// The texts that a sequence of strings holds.
pub open spec fn texts(strings: Seq<String>) -> Seq<Seq<char>> {
    Seq::new(strings.len(), |i: int| strings[i]@)
}

/// Position of the first `c` in `s`, or `s.len()` when `s` holds none.
pub open spec fn first_index(s: Seq<char>, c: char) -> int
    decreases s.len(),
{
    if s.len() == 0 || s[0] == c {
        0
    } else {
        1 + first_index(s.drop_first(), c)
    }
}

/// Position of the last `c` in `s`, or `-1` when `s` holds none.
pub open spec fn last_index(s: Seq<char>, c: char) -> int
    decreases s.len(),
{
    if s.len() == 0 {
        -1
    } else if s.last() == c {
        s.len() - 1
    } else {
        last_index(s.drop_last(), c)
    }
}

/// `first_index` is the least position that holds `c`.
pub proof fn lemma_first_index(s: Seq<char>, c: char)
    ensures
        0 <= first_index(s, c) <= s.len(),
        first_index(s, c) < s.len() ==> s[first_index(s, c)] == c,
        forall|j: int| 0 <= j < first_index(s, c) ==> s[j] != c,
    decreases s.len(),
{
    if s.len() == 0 || s[0] == c {
    } else {
        let rest = s.drop_first();
        lemma_first_index(rest, c);
        assert forall|j: int| 0 <= j < first_index(s, c) implies s[j] != c by {
            if j > 0 {
                assert(s[j] == rest[j - 1]);
            }
        }
    }
}

/// A position that holds `c` and has no `c` before it is the first index.
pub proof fn lemma_first_index_is(s: Seq<char>, c: char, i: int)
    requires
        0 <= i <= s.len(),
        i < s.len() ==> s[i] == c,
        forall|j: int| 0 <= j < i ==> s[j] != c,
    ensures
        first_index(s, c) == i,
{
    lemma_first_index(s, c);
}

/// `last_index` is the greatest position that holds `c`.
pub proof fn lemma_last_index(s: Seq<char>, c: char)
    ensures
        -1 <= last_index(s, c) < s.len(),
        0 <= last_index(s, c) ==> s[last_index(s, c)] == c,
        forall|j: int| last_index(s, c) < j < s.len() ==> s[j] != c,
    decreases s.len(),
{
    if s.len() == 0 || s.last() == c {
    } else {
        let rest = s.drop_last();
        lemma_last_index(rest, c);
        assert forall|j: int| last_index(s, c) < j < s.len() implies s[j] != c by {
            if j < s.len() - 1 {
                assert(s[j] == rest[j]);
            }
        }
    }
}

/// A position that holds `c` and has no `c` after it is the last index.
pub proof fn lemma_last_index_is(s: Seq<char>, c: char, i: int)
    requires
        -1 <= i < s.len(),
        0 <= i ==> s[i] == c,
        forall|j: int| i < j < s.len() ==> s[j] != c,
    ensures
        last_index(s, c) == i,
{
    lemma_last_index(s, c);
}

/// The characters of `s` from position `from` up to position `to`, where a
/// position past the end counts as the end; nothing when `to <= from`.
pub open spec fn clipped(s: Seq<char>, from: int, to: int) -> Seq<char> {
    if from < to {
        s.subrange(
            if from < s.len() { from } else { s.len() as int },
            if to < s.len() { to } else { s.len() as int },
        )
    } else {
        Seq::empty()
    }
}

/// Between two positions that lie in `s`, in order, nothing is cut off.
pub proof fn lemma_clipped_within(s: Seq<char>, from: int, to: int)
    requires
        0 <= from <= to <= s.len(),
    ensures
        clipped(s, from, to) == s.subrange(from, to),
{
}

/// The part of `s` between two character positions.
///
/// Calls `Substring::substring` of the `substring` crate. Believed of it:
/// it counts characters, not bytes; it returns the empty slice when
/// `to <= from`; otherwise it returns the characters from `from` up to `to`,
/// each of the two taken as the length of `s` where it lies past the end.
#[verifier::external_body]
pub(crate) fn substring<'a>(s: &'a str, from: usize, to: usize) -> (part: &'a str)
    ensures
        part@ == clipped(s@, from as int, to as int),
{
    s.substring(from, to)
}

/// The characters of `s`, in order.
pub fn chars_of(s: &str) -> (chars: Vec<char>)
    ensures
        chars@ == s@,
{
    let mut chars: Vec<char> = Vec::new();
    for c in it: s.chars()
        invariant
            it.seq() == s@,
            chars@ == s@.take(it.index() as int),
    {
        chars.push(c);
    }
    chars
}

/// Whether two slices hold the same characters.
pub fn same_text(a: &str, b: &str) -> (same: bool)
    ensures
        same == (a@ == b@),
{
    let mut rest_a = a.chars();
    let mut rest_b = b.chars();
    let ghost mut n: int = 0;
    loop
        invariant
            0 <= n <= a@.len(),
            n <= b@.len(),
            a@.take(n) == b@.take(n),
            rest_a.remaining() == a@.skip(n),
            rest_b.remaining() == b@.skip(n),
        decreases a@.len() - n,
    {
        match (rest_a.next(), rest_b.next()) {
            (Some(x), Some(y)) => {
                if x != y {
                    assert(a@[n] != b@[n]);
                    return false;
                }
                proof {
                    assert(a@.take(n + 1) == a@.take(n).push(x));
                    assert(b@.take(n + 1) == b@.take(n).push(y));
                    n = n + 1;
                }
            },
            (None, None) => {
                assert(a@ == a@.take(n) && b@ == b@.take(n));
                return true;
            },
            _ => {
                return false;
            },
        }
    }
}

/// Whether the characters of `chars` from `from` up to `to` spell `word`.
pub fn range_is(chars: &Vec<char>, from: usize, to: usize, word: &str) -> (same: bool)
    requires
        from <= to <= chars.len(),
    ensures
        same == (chars@.subrange(from as int, to as int) == word@),
{
    let ghost part = chars@.subrange(from as int, to as int);
    let mut at: usize = from;
    for c in it: word.chars()
        invariant
            it.seq() == word@,
            from <= to <= chars.len(),
            part == chars@.subrange(from as int, to as int),
            at == from + it.index(),
            at <= to,
            part.take(it.index() as int) == word@.take(it.index() as int),
    {
        if at == to || chars[at] != c {
            assert(part.len() <= it.index() || part[it.index() as int] != word@[it.index() as int]);
            return false;
        }
        proof {
            let k = it.index() as int;
            assert(part.take(k + 1) == part.take(k).push(c));
            assert(word@.take(k + 1) == word@.take(k).push(c));
        }
        at = at + 1;
    }
    proof {
        assert(word@ == word@.take(word@.len() as int));
        if at == to {
            assert(part == part.take(part.len() as int));
        }
    }
    at == to
}

/// Position, between `from` and `to`, of the first `c` in that range of
/// `chars`; `to` when the range holds none.
pub fn find_char(chars: &Vec<char>, from: usize, to: usize, c: char) -> (at: usize)
    requires
        from <= to <= chars.len(),
    ensures
        at == from + first_index(chars@.subrange(from as int, to as int), c),
        from <= at <= to,
{
    let ghost part = chars@.subrange(from as int, to as int);
    let mut at: usize = from;
    while at < to && chars[at] != c
        invariant
            from <= at <= to <= chars.len(),
            part == chars@.subrange(from as int, to as int),
            forall|j: int| 0 <= j < at - from ==> part[j] != c,
        decreases to - at,
    {
        at = at + 1;
    }
    proof {
        lemma_first_index_is(part, c, at - from);
    }
    at
}

/// Position of the last `c` in `chars`, if it holds one.
pub fn find_last_char(chars: &Vec<char>, c: char) -> (at: Option<usize>)
    ensures
        match at {
            Some(i) => i == last_index(chars@, c),
            None => last_index(chars@, c) == -1,
        },
{
    let mut at: usize = chars.len();
    while at > 0 && chars[at - 1] != c
        invariant
            at <= chars.len(),
            forall|j: int| at <= j < chars.len() ==> chars@[j] != c,
        decreases at,
    {
        at = at - 1;
    }
    proof {
        lemma_last_index_is(chars@, c, at - 1);
    }
    if at == 0 {
        None
    } else {
        Some(at - 1)
    }
}

/// Whether `s` ends with the characters of `suffix`.
pub fn ends_with(s: &str, suffix: &str) -> (ends: bool)
    ensures
        ends == suffix@.is_suffix_of(s@),
{
    let chars = chars_of(s);
    let tail = suffix.unicode_len();
    if tail > chars.len() {
        return false;
    }
    range_is(&chars, chars.len() - tail, chars.len(), suffix)
}

} // verus!
