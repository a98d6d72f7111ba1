//! The scan's outcome: the chosen log file's name with the extracted track
//! names, or one of the three terminal errors.

use vstd::prelude::*;
use crate::parse::{tracks_of, extract_tracks};
use crate::select::{LogEntry, best_log, is_log_name, lemma_best_log, select_latest_log};

verus! {

/// What one scan reports: the name of the log file that was read and the
/// up to ten track names it mentions, most recent last.
pub struct ScanResult {
    pub file_name: String,
    pub tracks: Vec<String>,
}

/// The errors a scan can end in. All are terminal: no partial result is
/// ever reported beside them.
pub enum ErrorKind {
    /// The platform's audio directory, or the log directory beneath it,
    /// does not exist.
    DirectoryNotFound,
    /// The log directory exists but holds no qualifying `.log` file.
    NoLogFileFound,
    /// Reading the directory or the chosen file failed; carries the
    /// reported reason.
    IoError(String),
}

impl ErrorKind {
    /// The human-readable description of the error.
    pub open spec fn spec_message(&self) -> Seq<char> {
        match self {
            ErrorKind::DirectoryNotFound => "music or log directory not found"@,
            ErrorKind::NoLogFileFound => "no log file found"@,
            ErrorKind::IoError(m) => m@,
        }
    }

    /// Renders the error as text for the caller to show.
    pub fn message(&self) -> (r: String)
        ensures
            r@ == self.spec_message(),
    {
        match self {
            ErrorKind::DirectoryNotFound => String::from_str("music or log directory not found"),
            ErrorKind::NoLogFileFound => String::from_str("no log file found"),
            ErrorKind::IoError(m) => m.clone(),
        }
    }
}

/// Chooses the log file to read out of the directory listing, or reports
/// that none qualifies: the listing fails, with `NoLogFileFound` and with
/// nothing else, exactly when it holds no `.log` file at all.
pub fn choose_latest_log(entries: &Vec<LogEntry>) -> (r: Result<usize, ErrorKind>)
    ensures
        match r {
            Ok(i) => best_log(entries@) is Some && best_log(entries@)->Some_0.1 == i as int,
            Err(e) => best_log(entries@) is None && e is NoLogFileFound,
        },
        r is Err <==> (forall|j: int|
            0 <= j < entries@.len() ==> !is_log_name((#[trigger] entries@[j]).name@)),
{
    proof {
        lemma_best_log(entries@);
    }
    match select_latest_log(entries) {
        Some(i) => Ok(i),
        None => Err(ErrorKind::NoLogFileFound),
    }
}

/// Builds the scan's report for the chosen log file: the file's name as
/// given, and the last ten track names its text mentions.
pub fn build_scan_result(file_name: String, content: &str) -> (r: ScanResult)
    ensures
        r.file_name@ == file_name@,
        r.tracks.deep_view() == tracks_of(content@),
        r.tracks@.len() <= 10,
{
    let tracks = extract_tracks(content);
    ScanResult { file_name, tracks }
}

} // verus!
