//! Extraction of recently played track names from DJ-session log files.
//!
//! The library holds the pure logic of the scan: picking the newest `.log`
//! file out of a directory listing, parsing the log text for audio-file
//! mentions, collapsing consecutive repeats and keeping the last ten names.
//! All filesystem access stays with the caller, which hands in plain values.

pub mod lines;
pub mod parse;
pub mod props;
pub mod scan;
pub mod select;
pub mod text;
