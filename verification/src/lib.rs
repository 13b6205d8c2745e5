//! Inventory of a media library: reading the probe tool's stream lines,
//! judging tracks against the codec policy, walking directory trees and
//! matching archived files back into a target tree.
//!
//! Everything here computes on plain values. Reading directories, running
//! the probe and copying files is left to the caller, which is told what
//! to do next by the state machines in [`search`] and [`import`].

pub mod export;
pub mod ffprobe;
pub mod import;
pub mod search;
pub mod terminal;
pub mod utils;
pub mod walker;
