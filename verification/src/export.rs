//! Copying listed media files into one directory.

use crate::utils::file::{file_name, name_of};
use vstd::prelude::*;

verus! {

/// Where the media file at `media_location` goes in the export directory:
/// into it, under its own name.
pub open spec fn destination_of(media_location: Seq<char>, export_directory_location: Seq<char>) -> Seq<
    char,
> {
    export_directory_location + "/"@ + name_of(media_location)
}

/// The location to copy the media file at `media_location` to.
pub fn destination(media_location: &str, export_directory_location: &str) -> (destination: String)
    ensures
        destination@ == destination_of(media_location@, export_directory_location@),
{
    let media_name = file_name(media_location);
    export_directory_location.to_owned().concat("/").concat(media_name)
}

} // verus!
