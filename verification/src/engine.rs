//! The verified line-search engine: line splitting, substring matching,
//! and the two public search variants.

use crate::model::{
    contains_substr, exact_pred, fold_pred, lemma_filter_push, lines_from, lines_of, lower_char,
    lower_seq, matching_lines, matching_lines_ci, strip_cr,
};
use crate::params::Params;
use vstd::prelude::*;
use vstd::string::StrSliceExecFns;

verus! {

/// `s`, case folded or not, as the matching loops see it.
spec fn folded(s: Seq<char>, fold: bool) -> Seq<char> {
    if fold {
        lower_seq(s)
    } else {
        s
    }
}

/// Simple (ASCII) case folding of one character.
fn lower_char_exec(c: char) -> (r: char)
    ensures
        r == lower_char(c),
{
    match c {
        'A' => 'a',
        'B' => 'b',
        'C' => 'c',
        'D' => 'd',
        'E' => 'e',
        'F' => 'f',
        'G' => 'g',
        'H' => 'h',
        'I' => 'i',
        'J' => 'j',
        'K' => 'k',
        'L' => 'l',
        'M' => 'm',
        'N' => 'n',
        'O' => 'o',
        'P' => 'p',
        'Q' => 'q',
        'R' => 'r',
        'S' => 's',
        'T' => 't',
        'U' => 'u',
        'V' => 'v',
        'W' => 'w',
        'X' => 'x',
        'Y' => 'y',
        'Z' => 'z',
        _ => c,
    }
}

/// Whether `query` occurs in `line` starting at position `i`, after case
/// folding both when `fold` is set.
fn match_at(line: &str, query: &str, i: usize, qn: usize, fold: bool) -> (b: bool)
    requires
        qn == query@.len(),
        i + qn <= line@.len(),
        line@.len() <= usize::MAX,
    ensures
        b == (folded(line@, fold).subrange(i as int, i + qn) == folded(query@, fold)),
{
    let ghost fline = folded(line@, fold);
    let ghost fquery = folded(query@, fold);
    assert(fline.len() == line@.len() && fquery.len() == query@.len());
    let mut j: usize = 0;
    while j < qn
        invariant
            qn == query@.len(),
            i + qn <= line@.len(),
            line@.len() <= usize::MAX,
            j <= qn,
            fline == folded(line@, fold),
            fquery == folded(query@, fold),
            fline.len() == line@.len(),
            fquery.len() == qn,
            forall|t: int| 0 <= t < j ==> fline[i + t] == fquery[t],
        decreases qn - j,
    {
        let lc = line.get_char(i + j);
        let qc = query.get_char(j);
        let flc = if fold {
            lower_char_exec(lc)
        } else {
            lc
        };
        let fqc = if fold {
            lower_char_exec(qc)
        } else {
            qc
        };
        assert(flc == fline[i + j] && fqc == fquery[j as int]);
        if flc != fqc {
            assert(fline.subrange(i as int, i + qn) != fquery) by {
                assert(fline.subrange(i as int, i + qn)[j as int] == fline[i + j]);
            }
            return false;
        }
        j = j + 1;
    }
    assert(fline.subrange(i as int, i + qn) =~= fquery);
    true
}

/// Whether `query` occurs anywhere in `line`, after case folding both when
/// `fold` is set.
fn line_contains(line: &str, query: &str, fold: bool) -> (b: bool)
    ensures
        b == contains_substr(folded(line@, fold), folded(query@, fold)),
{
    let ghost fline = folded(line@, fold);
    let ghost fquery = folded(query@, fold);
    assert(fline.len() == line@.len() && fquery.len() == query@.len());
    let ln = line.unicode_len();
    let qn = query.unicode_len();
    if qn > ln {
        assert(!contains_substr(fline, fquery));
        return false;
    }
    let mut i: usize = 0;
    loop
        invariant
            qn == query@.len(),
            ln == line@.len(),
            qn <= ln,
            i <= ln - qn + 1,
            fline == folded(line@, fold),
            fquery == folded(query@, fold),
            fline.len() == ln,
            fquery.len() == qn,
            forall|t: int| 0 <= t < i ==> #[trigger] fline.subrange(t, t + qn as int) != fquery,
        decreases ln - qn - i + 1,
    {
        if i > ln - qn {
            assert(!contains_substr(fline, fquery));
            return false;
        }
        if match_at(line, query, i, qn, fold) {
            assert(contains_substr(fline, fquery));
            return true;
        }
        proof {
            if qn == 0 {
                assert(fline.subrange(i as int, i as int) =~= fquery);
                assert(false);
            }
        }
        i = i + 1;
    }
}

/// Splits a text into its lines.  A `'\n'` ends a line (a `'\r'` directly
/// before it is not part of the line); a final fragment without a
/// terminator counts as a line; the empty text has no lines.  Each
/// returned slice borrows from `contents`.
pub fn split_lines<'a>(contents: &'a str) -> (lines: Vec<&'a str>)
    ensures
        lines.deep_view() == lines_of(contents@),
{
    let n = contents.unicode_len();
    let mut lines: Vec<&'a str> = Vec::new();
    let mut start: usize = 0;
    let mut i: usize = 0;
    proof {
        assert(lines.deep_view() =~= Seq::<Seq<char>>::empty());
        assert(contents@.subrange(0, 0) =~= Seq::<char>::empty());
        assert(contents@.subrange(0, n as int) =~= contents@);
        assert(lines.deep_view() + lines_from(
            contents@.subrange(0, 0),
            contents@.subrange(0, n as int),
        ) =~= lines_of(contents@));
    }
    while i < n
        invariant
            n == contents@.len(),
            start <= i <= n,
            forall|j: int| start <= j < i ==> contents@[j] != '\n',
            lines.deep_view() + lines_from(
                contents@.subrange(start as int, i as int),
                contents@.subrange(i as int, n as int),
            ) == lines_of(contents@),
        decreases n - i,
    {
        let ghost cur = contents@.subrange(start as int, i as int);
        let ghost rest = contents@.subrange(i as int, n as int);
        let c = contents.get_char(i);
        assert(rest[0] == c);
        if c == '\n' {
            let end = if i > start && contents.get_char(i - 1) == '\r' {
                i - 1
            } else {
                i
            };
            let line = contents.substring_char(start, end);
            assert(line@ == strip_cr(cur)) by {
                if i > start && contents@[i - 1] == '\r' {
                    assert(cur.len() > 0 && cur[cur.len() - 1] == '\r');
                    assert(line@ =~= cur.drop_last());
                } else {
                    if cur.len() > 0 {
                        assert(cur[cur.len() - 1] == contents@[i - 1]);
                    }
                    assert(line@ =~= cur);
                }
            }
            let ghost pre = lines.deep_view();
            lines.push(line);
            assert(lines.deep_view() =~= pre.push(line@));
            start = i + 1;
            proof {
                assert(rest.drop_first() =~= contents@.subrange(i + 1, n as int));
                assert(contents@.subrange(start as int, i + 1) =~= Seq::<char>::empty());
                assert(lines.deep_view() + lines_from(
                    Seq::empty(),
                    contents@.subrange(i + 1, n as int),
                ) =~= lines_of(contents@));
            }
        } else {
            proof {
                assert(rest.drop_first() =~= contents@.subrange(i + 1, n as int));
                assert(cur.push(c) =~= contents@.subrange(start as int, i + 1));
            }
        }
        i = i + 1;
    }
    proof {
        assert(contents@.subrange(i as int, n as int) =~= Seq::<char>::empty());
    }
    if start < n {
        let line = contents.substring_char(start, n);
        let ghost pre = lines.deep_view();
        lines.push(line);
        assert(lines.deep_view() =~= pre.push(line@));
    }
    lines
}

/// Returns, in their original order, the lines of `contents` that contain
/// `query` as an exact substring.  The empty query matches every line; no
/// match yields an empty vector.  Each returned slice borrows the original
/// line text from `contents`.
pub fn search<'a>(query: &str, contents: &'a str) -> (r: Vec<&'a str>)
    ensures
        r.deep_view() == matching_lines(query@, contents@),
{
    let lines = split_lines(contents);
    let ghost ls = lines_of(contents@);
    let mut r: Vec<&'a str> = Vec::new();
    proof {
        reveal(Seq::filter);
        assert(ls.take(0) =~= Seq::<Seq<char>>::empty());
        assert(r.deep_view() =~= ls.take(0).filter(exact_pred(query@)));
    }
    let mut k: usize = 0;
    while k < lines.len()
        invariant
            lines.deep_view() == ls,
            ls == lines_of(contents@),
            k <= lines.len(),
            r.deep_view() == ls.take(k as int).filter(exact_pred(query@)),
        decreases lines.len() - k,
    {
        let line = lines[k];
        assert(line@ == ls[k as int]);
        let b = line_contains(line, query, false);
        proof {
            assert(b == exact_pred(query@)(ls[k as int]));
            lemma_filter_push(ls.take(k as int), exact_pred(query@), ls[k as int]);
            assert(ls.take(k + 1) =~= ls.take(k as int).push(ls[k as int]));
        }
        if b {
            let ghost pre = r.deep_view();
            r.push(line);
            assert(r.deep_view() =~= pre.push(line@));
        }
        k = k + 1;
    }
    proof {
        assert(ls.take(lines.len() as int) =~= ls);
    }
    r
}

/// Returns, in their original order and with their original casing, the
/// lines of `contents` that contain `query` after both are case folded.
/// The empty query matches every line; no match yields an empty vector.
pub fn search_case_insensitive<'a>(query: &str, contents: &'a str) -> (r: Vec<&'a str>)
    ensures
        r.deep_view() == matching_lines_ci(query@, contents@),
{
    let lines = split_lines(contents);
    let ghost ls = lines_of(contents@);
    let mut r: Vec<&'a str> = Vec::new();
    proof {
        reveal(Seq::filter);
        assert(ls.take(0) =~= Seq::<Seq<char>>::empty());
        assert(r.deep_view() =~= ls.take(0).filter(fold_pred(query@)));
    }
    let mut k: usize = 0;
    while k < lines.len()
        invariant
            lines.deep_view() == ls,
            ls == lines_of(contents@),
            k <= lines.len(),
            r.deep_view() == ls.take(k as int).filter(fold_pred(query@)),
        decreases lines.len() - k,
    {
        let line = lines[k];
        assert(line@ == ls[k as int]);
        let b = line_contains(line, query, true);
        proof {
            assert(b == fold_pred(query@)(ls[k as int]));
            lemma_filter_push(ls.take(k as int), fold_pred(query@), ls[k as int]);
            assert(ls.take(k + 1) =~= ls.take(k as int).push(ls[k as int]));
        }
        if b {
            let ghost pre = r.deep_view();
            r.push(line);
            assert(r.deep_view() =~= pre.push(line@));
        }
        k = k + 1;
    }
    proof {
        assert(ls.take(lines.len() as int) =~= ls);
    }
    r
}

/// Runs the search a resolved request asks for over the given file
/// contents: the case-insensitive variant when `params.ignore_case` is
/// set, the exact variant otherwise.
pub fn run<'a>(params: &Params, contents: &'a str) -> (r: Vec<&'a str>)
    ensures
        params.ignore_case ==> r.deep_view() == matching_lines_ci(params.query@, contents@),
        !params.ignore_case ==> r.deep_view() == matching_lines(params.query@, contents@),
{
    if params.ignore_case {
        search_case_insensitive(params.query.as_str(), contents)
    } else {
        search(params.query.as_str(), contents)
    }
}

} // verus!
