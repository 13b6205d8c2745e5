//! Helpers on text, on file locations and on media file names.

pub mod file;
pub mod media;
pub mod text;
