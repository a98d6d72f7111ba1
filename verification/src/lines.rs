//! Splitting log text into lines, the way `str::lines` does it: lines end at
//! `\n` or `\r\n`, the terminator is not part of the line, and a final line
//! without a terminator keeps any trailing `\r`.

use vstd::prelude::*;
use crate::text::copy_range;

verus! {

/// `line` without one trailing carriage return, if it has one.
pub open spec fn strip_cr(line: Seq<char>) -> Seq<char> {
    if line.len() > 0 && line[line.len() - 1] == '\r' {
        line.drop_last()
    } else {
        line
    }
}

/// The number of characters of `s` before its first newline; all of them
/// when `s` holds no newline.
pub open spec fn first_nl(s: Seq<char>) -> nat
    decreases s.len(),
{
    if s.len() == 0 {
        0
    } else if s[0] == '\n' {
        0
    } else {
        1 + first_nl(s.skip(1))
    }
}

/// The lines of `s`: segments between newlines, each without a trailing
/// carriage return; a last segment without a newline is kept whole, and a
/// trailing newline adds no empty line.
pub open spec fn split_lines(s: Seq<char>) -> Seq<Seq<char>>
    decreases s.len(),
{
    if s.len() == 0 {
        Seq::empty()
    } else if first_nl(s) < s.len() {
        seq![strip_cr(s.subrange(0, first_nl(s) as int))] + split_lines(
            s.skip(first_nl(s) as int + 1),
        )
    } else {
        seq![s]
    }
}

/// A position with no newline before it and a newline (or the end) at it is
/// exactly `first_nl`.
proof fn lemma_first_nl_at(s: Seq<char>, k: int)
    requires
        0 <= k <= s.len(),
        forall|j: int| 0 <= j < k ==> s[j] != '\n',
        k == s.len() || s[k] == '\n',
    ensures
        first_nl(s) == k,
    decreases k,
{
    if k > 0 {
        lemma_first_nl_at(s.skip(1), k - 1);
    }
}

/// Splits the text into its lines.
pub fn split_lines_vec(s: &Vec<char>) -> (r: Vec<Vec<char>>)
    ensures
        r.deep_view() == split_lines(s@),
{
    let slen: usize = s.len();
    let mut out: Vec<Vec<char>> = Vec::new();
    proof {
        assert(s@.skip(0) =~= s@);
        assert(out.deep_view() + split_lines(s@) =~= split_lines(s@));
    }
    let mut pos: usize = 0;
    while pos < slen
        invariant
            slen == s@.len(),
            pos <= slen,
            out.deep_view() + split_lines(s@.skip(pos as int)) == split_lines(s@),
        decreases slen - pos,
    {
        let ghost prev = out.deep_view();
        let ghost t = s@.skip(pos as int);
        let mut j: usize = pos;
        while j < slen && s[j] != '\n'
            invariant
                slen == s@.len(),
                pos <= j <= slen,
                forall|k: int| pos <= k < j ==> s@[k] != '\n',
            decreases slen - j,
        {
            j = j + 1;
        }
        proof {
            assert(forall|m: int| 0 <= m < t.len() ==> t[m] == s@[pos + m]);
            lemma_first_nl_at(t, j - pos);
        }
        if j == slen {
            let line = copy_range(s, pos, slen);
            proof {
                assert(line@ =~= t);
            }
            out.push(line);
            pos = slen;
            proof {
                assert(out.deep_view() =~~= prev.push(t));
                assert(prev.push(t) + split_lines(s@.skip(pos as int)) =~= prev + split_lines(t));
            }
        } else {
            let end: usize = if j > pos && s[j - 1] == '\r' {
                j - 1
            } else {
                j
            };
            let line = copy_range(s, pos, end);
            proof {
                assert(t.subrange(0, first_nl(t) as int) =~= s@.subrange(pos as int, j as int));
                if j > pos && s@[j - 1] == '\r' {
                    assert(line@ =~= strip_cr(t.subrange(0, first_nl(t) as int)));
                } else {
                    assert(line@ =~= strip_cr(t.subrange(0, first_nl(t) as int)));
                }
            }
            out.push(line);
            pos = j + 1;
            proof {
                assert(t.skip(first_nl(t) as int + 1) =~= s@.skip(pos as int));
                assert(out.deep_view() =~~= prev.push(line@));
                assert(prev.push(line@) + split_lines(s@.skip(pos as int)) =~= prev + (seq![line@]
                    + split_lines(s@.skip(pos as int))));
            }
        }
    }
    proof {
        assert(s@.skip(slen as int) =~= Seq::<char>::empty());
        assert(out.deep_view() + split_lines(Seq::<char>::empty()) =~= out.deep_view());
    }
    out
}

} // verus!
