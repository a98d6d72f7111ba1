//! Choosing the log file to read: out of a directory listing, the `.log`
//! file whose modification time is the greatest, where only a strictly
//! greater time displaces the candidate kept so far.

use vstd::prelude::*;
use crate::text::{rfind_before, lemma_rfind_before, rfind_in, to_chars};

verus! {

/// One directory entry handed in by the caller: a regular file's name and
/// its modification time as signed nanoseconds relative to the Unix epoch,
/// so that times before the epoch keep their order.
pub struct LogEntry {
    pub name: String,
    pub modified: i128,
}

/// Whether a file name carries the extension exactly `log`, read as
/// `Path::extension` reads names: the part after the last dot, which must
/// not be the name's first character.
pub open spec fn is_log_name(name: Seq<char>) -> bool {
    match rfind_before(name, '.', name.len() as int) {
        None => false,
        Some(p) => p >= 1 && name.skip(p + 1) == seq!['l', 'o', 'g'],
    }
}

/// Checks a file name for the `log` extension.
pub fn is_log_file(name: &str) -> (r: bool)
    ensures
        r == is_log_name(name@),
{
    let cs = to_chars(name);
    let n: usize = cs.len();
    let dot = rfind_in(&cs, '.', n);
    proof {
        lemma_rfind_before(cs@, '.', n as int);
    }
    match dot {
        None => false,
        Some(p) => {
            if p < 1 {
                return false;
            }
            if n - p != 4 {
                assert(cs@.skip(p + 1).len() != 3);
                return false;
            }
            let ok = cs[p + 1] == 'l' && cs[p + 2] == 'o' && cs[p + 3] == 'g';
            proof {
                if ok {
                    assert(cs@.skip(p + 1) =~= seq!['l', 'o', 'g']);
                } else {
                    assert(cs@.skip(p + 1)[0] == cs@[p + 1]);
                    assert(cs@.skip(p + 1)[1] == cs@[p + 2]);
                    assert(cs@.skip(p + 1)[2] == cs@[p + 3]);
                }
            }
            ok
        },
    }
}

/// The candidate after scanning the given entries in their order: the
/// first log file becomes the candidate, and a later one displaces it only
/// with a strictly greater modification time, so ties keep the earlier
/// entry. The pair holds the kept time and the kept position.
pub open spec fn best_log(entries: Seq<LogEntry>) -> Option<(i128, int)>
    decreases entries.len(),
{
    if entries.len() == 0 {
        None
    } else {
        let prior = best_log(entries.drop_last());
        let i = entries.len() - 1;
        if is_log_name(entries[i].name@) && (match prior {
            None => true,
            Some(p) => entries[i].modified > p.0,
        }) {
            Some((entries[i].modified, i))
        } else {
            prior
        }
    }
}

/// What the candidate means: the kept entry is a log file holding the
/// greatest time, no log file before it reaches that time, and nothing is
/// kept exactly when the listing holds no log file at all.
pub proof fn lemma_best_log(entries: Seq<LogEntry>)
    ensures
        best_log(entries) is Some ==> ({
            let kept = best_log(entries)->Some_0;
            &&& 0 <= kept.1 < entries.len()
            &&& is_log_name(entries[kept.1].name@)
            &&& entries[kept.1].modified == kept.0
            &&& forall|j: int|
                0 <= j < entries.len() && is_log_name((#[trigger] entries[j]).name@)
                    ==> entries[j].modified <= kept.0
            &&& forall|j: int|
                0 <= j < kept.1 && is_log_name((#[trigger] entries[j]).name@)
                    ==> entries[j].modified < kept.0
        }),
        best_log(entries) is None ==> forall|j: int|
            0 <= j < entries.len() ==> !is_log_name((#[trigger] entries[j]).name@),
    decreases entries.len(),
{
    if entries.len() > 0 {
        lemma_best_log(entries.drop_last());
        assert(forall|j: int|
            0 <= j < entries.len() - 1 ==> #[trigger] entries[j] == entries.drop_last()[j]);
    }
}

/// Scans the directory listing for the most recently modified `.log` file,
/// keeping the earlier entry when a later one does not strictly exceed it.
pub fn select_latest_log(entries: &Vec<LogEntry>) -> (r: Option<usize>)
    ensures
        match r {
            Some(i) => best_log(entries@) is Some && best_log(entries@)->Some_0.1 == i as int,
            None => best_log(entries@) is None,
        },
{
    let n: usize = entries.len();
    let mut best_time: i128 = 0;
    let mut best: Option<usize> = None;
    proof {
        assert(entries@.take(0) =~= Seq::<LogEntry>::empty());
    }
    let mut i: usize = 0;
    while i < n
        invariant
            n == entries@.len(),
            i <= n,
            match best {
                Some(b) => best_log(entries@.take(i as int)) == Some((best_time, b as int)),
                None => best_log(entries@.take(i as int)) is None,
            },
        decreases n - i,
    {
        proof {
            assert(entries@.take(i + 1).drop_last() =~= entries@.take(i as int));
            assert(entries@.take(i + 1).last() == entries@[i as int]);
        }
        let e = &entries[i];
        if is_log_file(e.name.as_str()) {
            let displaces = match best {
                None => true,
                Some(_) => e.modified > best_time,
            };
            if displaces {
                best_time = e.modified;
                best = Some(i);
            }
        }
        i = i + 1;
    }
    proof {
        assert(entries@.take(n as int) =~= entries@);
    }
    best
}

} // verus!
