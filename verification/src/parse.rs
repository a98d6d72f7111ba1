//! Extraction of track names from log lines: extension search in priority
//! order, the slash rule, `%20` decoding and trimming, collapsing of
//! consecutive repeats, and the cut to the last ten names.

use vstd::prelude::*;
use crate::text::{
    find_pat, rfind_before, decode_pct, trim_spaces, lemma_find_from, lemma_rfind_before,
    find_in, rfind_in, copy_range, decode_percent20, trim_in, chars_eq, chars_to_string,
    to_chars,
};
use crate::lines::{split_lines, split_lines_vec};

verus! {

/// The recognised audio-file extensions, in priority order.
pub open spec fn ext_list() -> Seq<Seq<char>> {
    seq![
        seq!['.', 'm', 'p', '3'],
        seq!['.', 'w', 'a', 'v'],
        seq!['.', 'f', 'l', 'a', 'c'],
        seq!['.', 'a', 'i', 'f', 'f'],
        seq!['.', 'm', '4', 'a'],
    ]
}

/// The first extension of the priority list, from position `k` of the list
/// on, that occurs anywhere in `line`, paired with the position of its
/// leftmost occurrence.
pub open spec fn first_ext_from(line: Seq<char>, k: int) -> Option<(int, int)>
    decreases ext_list().len() - k,
{
    if k < 0 || k >= ext_list().len() {
        None
    } else {
        match find_pat(line, ext_list()[k]) {
            Some(e) => Some((k, e)),
            None => first_ext_from(line, k + 1),
        }
    }
}

/// The first extension of the priority list that occurs in `line`.
pub open spec fn first_ext(line: Seq<char>) -> Option<(int, int)> {
    first_ext_from(line, 0)
}

/// The track name a line yields: the text strictly between the last `/`
/// before the extension match and the match itself, with `%20` decoded to
/// spaces and white space trimmed. `None` when no extension of the list
/// occurs in the line, or when no `/` precedes the match; the name that
/// comes back may still be empty.
pub open spec fn line_title(line: Seq<char>) -> Option<Seq<char>> {
    match first_ext(line) {
        None => None,
        Some((k, e)) => match rfind_before(line, '/', e) {
            None => None,
            Some(sl) => Some(trim_spaces(decode_pct(line.subrange(sl + 1, e)))),
        },
    }
}

/// Appends a candidate name to the running title list: an empty name, and a
/// name equal to the one accepted immediately before it, are dropped.
pub open spec fn push_title(acc: Seq<Seq<char>>, t: Option<Seq<char>>) -> Seq<Seq<char>> {
    match t {
        None => acc,
        Some(name) => {
            if name.len() == 0 || (acc.len() > 0 && acc.last() == name) {
                acc
            } else {
                acc.push(name)
            }
        },
    }
}

/// The accepted titles of a sequence of lines, in order of appearance.
pub open spec fn titles_of(lns: Seq<Seq<char>>) -> Seq<Seq<char>>
    decreases lns.len(),
{
    if lns.len() == 0 {
        Seq::empty()
    } else {
        push_title(titles_of(lns.drop_last()), line_title(lns.last()))
    }
}

/// The last `n` elements of `s`, or all of them when there are fewer.
pub open spec fn last_n(s: Seq<Seq<char>>, n: int) -> Seq<Seq<char>> {
    if s.len() > n {
        s.skip(s.len() - n)
    } else {
        s
    }
}

/// The track names the whole log text yields: the last ten accepted titles
/// of its lines.
pub open spec fn tracks_of(content: Seq<char>) -> Seq<Seq<char>> {
    last_n(titles_of(split_lines(content)), 10)
}

/// Builds the extension list as executable vectors.
pub fn ext_vecs() -> (r: Vec<Vec<char>>)
    ensures
        r.deep_view() == ext_list(),
        r@.len() == 5,
        forall|k: int| 0 <= k < 5 ==> r@[k]@.len() >= 1,
{
    let mut mp3: Vec<char> = Vec::new();
    mp3.push('.');
    mp3.push('m');
    mp3.push('p');
    mp3.push('3');
    let mut wav: Vec<char> = Vec::new();
    wav.push('.');
    wav.push('w');
    wav.push('a');
    wav.push('v');
    let mut flac: Vec<char> = Vec::new();
    flac.push('.');
    flac.push('f');
    flac.push('l');
    flac.push('a');
    flac.push('c');
    let mut aiff: Vec<char> = Vec::new();
    aiff.push('.');
    aiff.push('a');
    aiff.push('i');
    aiff.push('f');
    aiff.push('f');
    let mut m4a: Vec<char> = Vec::new();
    m4a.push('.');
    m4a.push('m');
    m4a.push('4');
    m4a.push('a');
    let mut r: Vec<Vec<char>> = Vec::new();
    r.push(mp3);
    r.push(wav);
    r.push(flac);
    r.push(aiff);
    r.push(m4a);
    proof {
        assert(r.deep_view() =~~= ext_list());
    }
    r
}

/// Extracts the track name a single line yields, if any.
pub fn extract_line_title(line: &Vec<char>, exts: &Vec<Vec<char>>) -> (r: Option<Vec<char>>)
    requires
        exts.deep_view() == ext_list(),
    ensures
        match r {
            Some(v) => line_title(line@) == Some(v@),
            None => line_title(line@) is None,
        },
{
    let n: usize = exts.len();
    proof {
        assert(exts@.len() == exts.deep_view().len());
    }
    let mut k: usize = 0;
    while k < n
        invariant
            exts.deep_view() == ext_list(),
            n == 5,
            n == exts@.len(),
            k <= n,
            first_ext(line@) == first_ext_from(line@, k as int),
        decreases n - k,
    {
        proof {
            assert(exts@[k as int]@ =~= exts.deep_view()[k as int]);
            assert(exts@[k as int]@.len() >= 1);
        }
        let found = find_in(line, &exts[k]);
        match found {
            Some(e) => {
                proof {
                    lemma_find_from(line@, exts@[k as int]@, 0);
                    assert(first_ext(line@) == Some((k as int, e as int)));
                }
                let sl = rfind_in(line, '/', e);
                match sl {
                    None => {
                        return None;
                    },
                    Some(slash) => {
                        proof {
                            lemma_rfind_before(line@, '/', e as int);
                        }
                        let raw = copy_range(line, slash + 1, e);
                        let dec = decode_percent20(&raw);
                        let t = trim_in(&dec);
                        return Some(t);
                    },
                }
            },
            None => {},
        }
        k = k + 1;
    }
    None
}

/// Collects the accepted titles of the given lines, collapsing consecutive
/// repeats and dropping empty names.
pub fn collect_titles(lns: &Vec<Vec<char>>) -> (r: Vec<Vec<char>>)
    ensures
        r.deep_view() == titles_of(lns.deep_view()),
{
    let exts = ext_vecs();
    let n: usize = lns.len();
    let mut out: Vec<Vec<char>> = Vec::new();
    proof {
        assert(lns.deep_view().take(0) =~= Seq::<Seq<char>>::empty());
        assert(out.deep_view() =~= titles_of(lns.deep_view().take(0)));
    }
    let mut i: usize = 0;
    while i < n
        invariant
            exts.deep_view() == ext_list(),
            n == lns@.len(),
            i <= n,
            out.deep_view() == titles_of(lns.deep_view().take(i as int)),
        decreases n - i,
    {
        let ghost lv = lns.deep_view();
        let ghost prev = out.deep_view();
        proof {
            assert(lv.take(i + 1).drop_last() =~= lv.take(i as int));
            assert(lv.take(i + 1).last() == lv[i as int]);
            assert(lns@[i as int]@ =~= lv[i as int]);
        }
        let t = extract_line_title(&lns[i], &exts);
        match t {
            None => {
                assert(titles_of(lv.take(i + 1)) == prev);
            },
            Some(name) => {
                if name.len() == 0 {
                    assert(titles_of(lv.take(i + 1)) == prev);
                } else {
                    let mut dup = false;
                    if out.len() > 0 {
                        proof {
                            assert(out@[out@.len() - 1]@ =~= prev.last());
                        }
                        dup = chars_eq(&out[out.len() - 1], &name);
                    }
                    if dup {
                        assert(titles_of(lv.take(i + 1)) == prev);
                    } else {
                        out.push(name);
                        proof {
                            assert(out.deep_view() =~~= prev.push(name@));
                        }
                    }
                }
            },
        }
        i = i + 1;
    }
    proof {
        assert(lns.deep_view().take(n as int) =~= lns.deep_view());
    }
    out
}

/// Every accepted title is non-empty, and no title equals the one directly
/// before it.
pub proof fn lemma_titles_wf(lns: Seq<Seq<char>>)
    ensures
        forall|i: int| 0 <= i < titles_of(lns).len() ==> titles_of(lns)[i].len() > 0,
        forall|i: int|
            1 <= i < titles_of(lns).len() ==> (#[trigger] titles_of(lns)[i]) != titles_of(lns)[i
                - 1],
    decreases lns.len(),
{
    if lns.len() > 0 {
        lemma_titles_wf(lns.drop_last());
        let prev = titles_of(lns.drop_last());
        let cur = titles_of(lns);
        if cur.len() == prev.len() + 1 {
            assert(forall|i: int| 0 <= i < prev.len() ==> #[trigger] cur[i] == prev[i]);
            assert(cur[cur.len() - 1] == line_title(lns.last())->Some_0);
        }
    }
}

/// The reported tracks are at most ten, non-empty, and free of consecutive
/// repeats.
pub proof fn lemma_tracks_wf(content: Seq<char>)
    ensures
        tracks_of(content).len() <= 10,
        forall|i: int| 0 <= i < tracks_of(content).len() ==> tracks_of(content)[i].len() > 0,
        forall|i: int|
            1 <= i < tracks_of(content).len() ==> (#[trigger] tracks_of(content)[i])
                != tracks_of(content)[i - 1],
{
    let all = titles_of(split_lines(content));
    lemma_titles_wf(split_lines(content));
    if all.len() > 10 {
        assert(forall|i: int|
            0 <= i < tracks_of(content).len() ==> tracks_of(content)[i] == all[all.len() - 10 + i]);
    }
}

/// Extracts the track names from the whole log text: the last ten accepted
/// titles of its lines, oldest first.
pub fn extract_tracks(content: &str) -> (r: Vec<String>)
    ensures
        r.deep_view() == tracks_of(content@),
        r@.len() <= 10,
        forall|i: int| 0 <= i < r@.len() ==> r@[i]@.len() > 0,
        forall|i: int| 1 <= i < r@.len() ==> (#[trigger] r@[i])@ != r@[i - 1]@,
{
    let cs = to_chars(content);
    let lns = split_lines_vec(&cs);
    let titles = collect_titles(&lns);
    let tlen: usize = titles.len();
    proof {
        assert(titles@.len() == titles.deep_view().len());
    }
    let start: usize = if tlen > 10 {
        tlen - 10
    } else {
        0
    };
    let mut out: Vec<String> = Vec::new();
    let mut i: usize = start;
    while i < tlen
        invariant
            tlen == titles@.len(),
            start <= i <= tlen,
            tlen > 10 ==> start == tlen - 10,
            tlen <= 10 ==> start == 0,
            out.deep_view() == titles.deep_view().subrange(start as int, i as int),
        decreases tlen - i,
    {
        let ghost prev = out.deep_view();
        proof {
            assert(titles@[i as int]@ =~= titles.deep_view()[i as int]);
        }
        let s = chars_to_string(&titles[i]);
        out.push(s);
        proof {
            assert(out.deep_view() =~~= prev.push(titles.deep_view()[i as int]));
            assert(out.deep_view() =~= titles.deep_view().subrange(start as int, i + 1));
        }
        i = i + 1;
    }
    proof {
        let tv = titles.deep_view();
        if tlen > 10 {
            assert(tv.subrange(start as int, tlen as int) =~= tv.skip(tv.len() - 10));
        } else {
            assert(tv.subrange(start as int, tlen as int) =~= tv);
        }
        lemma_tracks_wf(content@);
        assert forall|j: int| 0 <= j < out@.len() implies (#[trigger] out@[j])@.len() > 0 by {
            assert(out@[j]@ == out.deep_view()[j]);
            assert(tracks_of(content@)[j].len() > 0);
        }
        assert forall|j: int| 1 <= j < out@.len() implies (#[trigger] out@[j])@ != out@[j - 1]@ by {
            assert(out@[j]@ == out.deep_view()[j]);
            assert(out@[j - 1]@ == out.deep_view()[j - 1]);
            assert(tracks_of(content@)[j] != tracks_of(content@)[j - 1]);
        }
    }
    out
}

} // verus!
