//! Which files count as media, judged by the end of their location.

use crate::utils::text::ends_with;
use vstd::prelude::*;

verus! {

/// A location that ends in `.avi`.
pub open spec fn is_avi(location: Seq<char>) -> bool {
    ".avi"@.is_suffix_of(location)
}

/// A location that ends in `.mp4` or `.mkv`.
pub open spec fn is_non_avi_video(location: Seq<char>) -> bool {
    ".mp4"@.is_suffix_of(location) || ".mkv"@.is_suffix_of(location)
}

/// A location that ends in one of the three media extensions.
pub open spec fn is_media_location(location: Seq<char>) -> bool {
    is_avi(location) || is_non_avi_video(location)
}

/// Whether the location is that of a media file.
pub fn is_media(media_location: &str) -> (media: bool)
    ensures
        media == is_media_location(media_location@),
{
    ends_with(media_location, ".avi") || ends_with(media_location, ".mp4") || ends_with(
        media_location,
        ".mkv",
    )
}

/// Whether the location is that of an `.avi` file.
pub fn is_avi_file(media_location: &str) -> (avi: bool)
    ensures
        avi == is_avi(media_location@),
{
    ends_with(media_location, ".avi")
}

/// Whether the location is that of an `.mp4` or `.mkv` file.
pub fn is_non_avi_video_file(media_location: &str) -> (video: bool)
    ensures
        video == is_non_avi_video(media_location@),
{
    ends_with(media_location, ".mp4") || ends_with(media_location, ".mkv")
}

} // verus!
