//! The mathematical model of the search: simple case folding, substring
//! containment, and line splitting, all over `Seq<char>`.

use vstd::prelude::*;

verus! {

/// Simple (ASCII) case folding of one character: `'A'..='Z'` map to
/// `'a'..='z'`, every other character is left unchanged.
pub open spec fn lower_char(c: char) -> char {
    if 'A' <= c && c <= 'Z' {
        ((c as u32) + 32) as char
    } else {
        c
    }
}

/// Simple case folding of a whole character sequence.
pub open spec fn lower_seq(s: Seq<char>) -> Seq<char> {
    s.map_values(|c: char| lower_char(c))
}

/// `needle` occurs in `hay` as a contiguous substring.  The empty needle
/// occurs in every sequence.
pub open spec fn contains_substr(hay: Seq<char>, needle: Seq<char>) -> bool {
    exists|i: int|
        0 <= i && i + needle.len() <= hay.len() && #[trigger] hay.subrange(i, i + needle.len())
            == needle
}

/// Drops one trailing carriage return, if present: the tail of a line that
/// was terminated by `"\r\n"`.
pub open spec fn strip_cr(line: Seq<char>) -> Seq<char> {
    if line.len() > 0 && line[line.len() - 1] == '\r' {
        line.drop_last()
    } else {
        line
    }
}

/// The lines of `cur + rest`, where `cur` is an already-read partial line
/// in which no newline occurs.  A `'\n'` ends the current line (stripping a
/// preceding `'\r'`); a final unterminated fragment counts as a line; text
/// that ends at a newline yields no extra empty line.
pub open spec fn lines_from(cur: Seq<char>, rest: Seq<char>) -> Seq<Seq<char>>
    decreases rest.len(),
{
    if rest.len() == 0 {
        if cur.len() == 0 {
            Seq::empty()
        } else {
            seq![cur]
        }
    } else if rest[0] == '\n' {
        seq![strip_cr(cur)] + lines_from(Seq::empty(), rest.drop_first())
    } else {
        lines_from(cur.push(rest[0]), rest.drop_first())
    }
}

/// The lines of a text: maximal spans between line terminators, with
/// `"\r\n"` treated as one terminator and a trailing unterminated fragment
/// counting as a line.  The empty text has no lines.
pub open spec fn lines_of(s: Seq<char>) -> Seq<Seq<char>> {
    lines_from(Seq::empty(), s)
}

/// The predicate an exact search applies to each line.
pub open spec fn exact_pred(query: Seq<char>) -> spec_fn(Seq<char>) -> bool {
    |line: Seq<char>| contains_substr(line, query)
}

/// The predicate a case-insensitive search applies to each line: both the
/// line and the query are case folded before the containment check.
pub open spec fn fold_pred(query: Seq<char>) -> spec_fn(Seq<char>) -> bool {
    |line: Seq<char>| contains_substr(lower_seq(line), lower_seq(query))
}

/// The lines of `contents` that contain `query` exactly, in their original
/// order.
pub open spec fn matching_lines(query: Seq<char>, contents: Seq<char>) -> Seq<Seq<char>> {
    lines_of(contents).filter(exact_pred(query))
}

/// The lines of `contents` whose case-folded form contains the case-folded
/// `query`, in their original order and with their original casing.
pub open spec fn matching_lines_ci(query: Seq<char>, contents: Seq<char>) -> Seq<Seq<char>> {
    lines_of(contents).filter(fold_pred(query))
}

/// Case folding applied to each line of a line sequence.
pub open spec fn lower_lines(lines: Seq<Seq<char>>) -> Seq<Seq<char>> {
    lines.map_values(|line: Seq<char>| lower_seq(line))
}

/// Filtering a sequence extended by one element keeps the element exactly
/// when the predicate holds of it.
pub proof fn lemma_filter_push<A>(s: Seq<A>, p: spec_fn(A) -> bool, x: A)
    ensures
        s.push(x).filter(p) == if p(x) {
            s.filter(p).push(x)
        } else {
            s.filter(p)
        },
{
    reveal(Seq::filter);
    assert(s.push(x).drop_last() =~= s);
    assert(s.push(x).last() == x);
}

} // verus!
