//! The parts of a file location.
//!
//! A location is a text in which `/` separates the directories from one
//! another and from the file's name.

use crate::utils::text::{chars_of, find_last_char, last_index, lemma_last_index, substring};
use vstd::prelude::*;

verus! {

/// The name in a location: what stands behind its last `/`, or all of it.
pub open spec fn name_of(location: Seq<char>) -> Seq<char> {
    location.skip(last_index(location, '/') + 1)
}

/// The directory in a location: what stands before its last `/`; empty
/// where it holds none.
pub open spec fn directory_of(location: Seq<char>) -> Seq<char> {
    let at = last_index(location, '/');
    if at < 0 {
        Seq::empty()
    } else {
        location.take(at)
    }
}

/// A file name without its final extension: what stands before its last
/// `.`, or all of it.
pub open spec fn base_name(file_name: Seq<char>) -> Seq<char> {
    let at = last_index(file_name, '.');
    if at < 0 {
        file_name
    } else {
        file_name.take(at)
    }
}

/// The name of the file at `location`: what stands behind the last `/`.
pub fn file_name(location: &str) -> (name: &str)
    ensures
        name@ == name_of(location@),
{
    let chars = chars_of(location);
    proof {
        lemma_last_index(location@, '/');
    }
    match find_last_char(&chars, '/') {
        Some(at) => substring(location, at + 1, chars.len()),
        None => location,
    }
}

/// The directory of the file at `file_location`: what stands before the
/// last `/`.
pub fn file_directory(file_location: &str) -> (directory: &str)
    ensures
        directory@ == directory_of(file_location@),
{
    let chars = chars_of(file_location);
    proof {
        lemma_last_index(file_location@, '/');
        reveal_strlit("");
    }
    match find_last_char(&chars, '/') {
        Some(at) => substring(file_location, 0, at),
        None => "",
    }
}

/// The base name of a file: its name without the final extension.
pub fn without_ext(file_name: &str) -> (base: &str)
    ensures
        base@ == base_name(file_name@),
{
    let chars = chars_of(file_name);
    proof {
        lemma_last_index(file_name@, '.');
    }
    match find_last_char(&chars, '.') {
        Some(at) => substring(file_name, 0, at),
        None => file_name,
    }
}

} // verus!
