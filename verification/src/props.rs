//! Properties of the scan, stated and proved over its specification: which
//! file the selection keeps, that the scan is deterministic, how extension
//! priority resolves, and that a line without a slash yields nothing.

use vstd::prelude::*;
use crate::text::{find_pat, match_at, lemma_find_from, lemma_rfind_before};
use crate::parse::{ext_list, first_ext, first_ext_from, line_title, push_title, tracks_of};
use crate::select::{LogEntry, is_log_name, best_log, lemma_best_log};
use crate::scan::ScanResult;

verus! {

/// Law: over a listing whose log files carry pairwise distinct modification
/// times, the selection keeps exactly the log file with the greatest
/// modification time.
pub proof fn lemma_selects_unique_max(entries: Seq<LogEntry>)
    requires
        exists|j: int| 0 <= j < entries.len() && is_log_name((#[trigger] entries[j]).name@),
        forall|j: int, k: int|
            0 <= j < k < entries.len() && is_log_name((#[trigger] entries[j]).name@)
                && is_log_name((#[trigger] entries[k]).name@) ==> entries[j].modified
                != entries[k].modified,
    ensures
        best_log(entries) is Some,
        ({
            let i = best_log(entries)->Some_0.1;
            &&& 0 <= i < entries.len()
            &&& is_log_name(entries[i].name@)
            &&& forall|j: int|
                0 <= j < entries.len() && j != i && is_log_name((#[trigger] entries[j]).name@)
                    ==> entries[j].modified < entries[i].modified
        }),
{
    lemma_best_log(entries);
    if best_log(entries) is None {
        let j = choose|j: int|
            0 <= j < entries.len() && is_log_name((#[trigger] entries[j]).name@);
        assert(!is_log_name(entries[j].name@));
    }
    let i = best_log(entries)->Some_0.1;
    assert forall|j: int|
        0 <= j < entries.len() && j != i && is_log_name(
            (#[trigger] entries[j]).name@,
        ) implies entries[j].modified < entries[i].modified by {
        if entries[j].modified == entries[i].modified {
            if j < i {
                assert(entries[j].modified != entries[i].modified);
            } else {
                assert(entries[i].modified != entries[j].modified);
            }
        }
    }
}

/// Law: an empty directory listing never yields a candidate, so the
/// selection over it fails.
pub proof fn lemma_empty_listing_selects_none(entries: Seq<LogEntry>)
    requires
        entries.len() == 0,
    ensures
        best_log(entries) is None,
{
}

/// Law: the scan is a function of the chosen file's name and text alone,
/// so two scans over an unchanged filesystem report the same result.
pub proof fn lemma_scan_idempotent(
    a: ScanResult,
    b: ScanResult,
    file_name: Seq<char>,
    content: Seq<char>,
)
    requires
        a.file_name@ == file_name,
        a.tracks.deep_view() == tracks_of(content),
        b.file_name@ == file_name,
        b.tracks.deep_view() == tracks_of(content),
    ensures
        a.file_name@ == b.file_name@,
        a.tracks.deep_view() == b.tracks.deep_view(),
{
}

/// Law: a line that mentions `.mp3` anywhere is parsed at the leftmost
/// `.mp3` occurrence, whatever other extensions the line also mentions
/// and wherever they stand: `.mp3` comes first in the priority list.
pub proof fn lemma_extension_priority(line: Seq<char>)
    requires
        find_pat(line, seq!['.', 'm', 'p', '3']) is Some,
    ensures
        ({
            let e = find_pat(line, seq!['.', 'm', 'p', '3'])->Some_0;
            &&& first_ext(line) == Some((0int, e))
            &&& match_at(line, seq!['.', 'm', 'p', '3'], e)
            &&& forall|m: int| 0 <= m < e ==> !match_at(line, seq!['.', 'm', 'p', '3'], m)
        }),
{
    lemma_find_from(line, seq!['.', 'm', 'p', '3'], 0);
    assert(ext_list()[0] =~= seq!['.', 'm', 'p', '3']);
}

/// A found extension lies in the list and at its reported position.
proof fn lemma_first_ext_from_props(line: Seq<char>, k: int)
    requires
        0 <= k,
    ensures
        first_ext_from(line, k) is Some ==> ({
            let pair = first_ext_from(line, k)->Some_0;
            &&& k <= pair.0 < ext_list().len()
            &&& find_pat(line, ext_list()[pair.0]) == Some(pair.1)
        }),
    decreases ext_list().len() - k,
{
    if k < ext_list().len() {
        if find_pat(line, ext_list()[k]) is None {
            lemma_first_ext_from_props(line, k + 1);
        }
    }
}

/// Law: a line in which no slash stands yields no track name, whatever
/// extensions it mentions, and leaves the running title list unchanged.
pub proof fn lemma_no_slash_no_track(line: Seq<char>, acc: Seq<Seq<char>>)
    requires
        forall|m: int| 0 <= m < line.len() ==> line[m] != '/',
    ensures
        line_title(line) is None,
        push_title(acc, line_title(line)) == acc,
{
    if first_ext(line) is Some {
        lemma_first_ext_from_props(line, 0);
        let pair = first_ext(line)->Some_0;
        lemma_find_from(line, ext_list()[pair.0], 0);
        lemma_rfind_before(line, '/', pair.1);
    }
}

} // verus!

