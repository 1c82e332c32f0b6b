//! The laws the search engine obeys, stated and proved over the model.

use crate::model::{
    contains_substr, exact_pred, fold_pred, lines_from, lines_of, lower_char, lower_lines,
    lower_seq, matching_lines, matching_lines_ci, strip_cr,
};
use vstd::prelude::*;

verus! {

/// `a` is a subsequence of `b`: `a` can be obtained from `b` by deleting
/// elements, keeping the remaining ones in their original order.
pub open spec fn is_subsequence_of<A>(a: Seq<A>, b: Seq<A>) -> bool
    decreases b.len(),
{
    if a.len() == 0 {
        true
    } else if b.len() == 0 {
        false
    } else if a.last() == b.last() {
        is_subsequence_of(a.drop_last(), b.drop_last()) || is_subsequence_of(a, b.drop_last())
    } else {
        is_subsequence_of(a, b.drop_last())
    }
}

/// Filtering a sequence yields one of its subsequences.
proof fn lemma_filter_is_subsequence<A>(s: Seq<A>, p: spec_fn(A) -> bool)
    ensures
        is_subsequence_of(s.filter(p), s),
    decreases s.len(),
{
    reveal(Seq::filter);
    if s.len() > 0 {
        let dl = s.drop_last();
        lemma_filter_is_subsequence(dl, p);
        if p(s.last()) {
            assert(s.filter(p).drop_last() =~= dl.filter(p));
        }
    }
}

/// Filtering by a predicate that holds of every element keeps the whole
/// sequence.
proof fn lemma_filter_all_true<A>(s: Seq<A>, p: spec_fn(A) -> bool)
    requires
        forall|i: int| 0 <= i < s.len() ==> p(#[trigger] s[i]),
    ensures
        s.filter(p) == s,
    decreases s.len(),
{
    reveal(Seq::filter);
    if s.len() > 0 {
        lemma_filter_all_true(s.drop_last(), p);
        assert(p(s[s.len() - 1]));
        assert(s.filter(p) =~= s);
    }
}

/// Case folding never produces or removes a line terminator character.
proof fn lemma_lower_char_terminators(c: char)
    ensures
        lower_char(c) == '\n' <==> c == '\n',
        lower_char(c) == '\r' <==> c == '\r',
{
    if 'A' <= c && c <= 'Z' {
        assert(65 <= c as u32 <= 90);
        assert(97 <= ((c as u32) + 32) as char as u32 <= 122);
    }
}

/// Case folding a character sequence folds each character in place.
proof fn lemma_lower_seq_index(s: Seq<char>)
    ensures
        lower_seq(s).len() == s.len(),
        forall|i: int| 0 <= i < s.len() ==> lower_seq(s)[i] == lower_char(#[trigger] s[i]),
{
}

/// Line splitting commutes with case folding: the lines of the folded
/// text are the folded lines of the text.
proof fn lemma_lines_from_lower(cur: Seq<char>, rest: Seq<char>)
    ensures
        lines_from(lower_seq(cur), lower_seq(rest)) == lower_lines(lines_from(cur, rest)),
    decreases rest.len(),
{
    lemma_lower_seq_index(cur);
    lemma_lower_seq_index(rest);
    if rest.len() == 0 {
        assert(lower_seq(rest).len() == 0);
        if cur.len() == 0 {
            assert(lower_lines(Seq::<Seq<char>>::empty()) =~= Seq::<Seq<char>>::empty());
        } else {
            assert(seq![lower_seq(cur)] =~= lower_lines(seq![cur]));
        }
    } else if rest[0] == '\n' {
        lemma_lower_char_terminators(rest[0]);
        assert(lower_seq(rest)[0] == '\n');
        assert(lower_seq(rest).drop_first() =~= lower_seq(rest.drop_first()));
        assert(lower_seq(Seq::<char>::empty()) =~= Seq::<char>::empty());
        lemma_lines_from_lower(Seq::empty(), rest.drop_first());
        assert(strip_cr(lower_seq(cur)) == lower_seq(strip_cr(cur))) by {
            if cur.len() > 0 {
                lemma_lower_char_terminators(cur[cur.len() - 1]);
                if cur[cur.len() - 1] == '\r' {
                    assert(lower_seq(cur).drop_last() =~= lower_seq(cur.drop_last()));
                }
            }
        }
        assert(seq![strip_cr(lower_seq(cur))] + lower_lines(
            lines_from(Seq::empty(), rest.drop_first()),
        ) =~= lower_lines(seq![strip_cr(cur)] + lines_from(Seq::empty(), rest.drop_first())));
    } else {
        lemma_lower_char_terminators(rest[0]);
        assert(lower_seq(rest)[0] != '\n');
        assert(lower_seq(rest).drop_first() =~= lower_seq(rest.drop_first()));
        assert(lower_seq(cur).push(lower_seq(rest)[0]) =~= lower_seq(cur.push(rest[0])));
        lemma_lines_from_lower(cur.push(rest[0]), rest.drop_first());
    }
}

/// Filtering the folded lines by exact containment of the folded query
/// keeps exactly the folded forms of the lines a case-insensitive search
/// keeps.
proof fn lemma_filter_lower(ls: Seq<Seq<char>>, query: Seq<char>)
    ensures
        lower_lines(ls).filter(exact_pred(lower_seq(query))) == lower_lines(
            ls.filter(fold_pred(query)),
        ),
    decreases ls.len(),
{
    reveal(Seq::filter);
    if ls.len() == 0 {
        assert(lower_lines(ls).len() == 0);
        assert(lower_lines(Seq::<Seq<char>>::empty()) =~= Seq::<Seq<char>>::empty());
    } else {
        let dl = ls.drop_last();
        lemma_filter_lower(dl, query);
        assert(lower_lines(ls).drop_last() =~= lower_lines(dl));
        assert(lower_lines(ls).last() == lower_seq(ls.last()));
        if fold_pred(query)(ls.last()) {
            assert(lower_lines(dl.filter(fold_pred(query))).push(lower_seq(ls.last()))
                =~= lower_lines(dl.filter(fold_pred(query)).push(ls.last())));
        }
    }
}

/// Case-fold equivalence: an exact search for the folded query over the
/// folded text flags exactly the folded forms of the lines that a
/// case-insensitive search returns; the case-insensitive search itself
/// returns those lines with their original casing.
pub proof fn lemma_case_fold_equivalence(query: Seq<char>, contents: Seq<char>)
    ensures
        matching_lines(lower_seq(query), lower_seq(contents)) == lower_lines(
            matching_lines_ci(query, contents),
        ),
{
    assert(lower_seq(Seq::<char>::empty()) =~= Seq::<char>::empty());
    lemma_lines_from_lower(Seq::empty(), contents);
    lemma_filter_lower(lines_of(contents), query);
}

/// Containment property: every line an exact search returns contains the
/// query as a substring, and every line of the text that it does not
/// return does not.
pub proof fn lemma_search_containment(query: Seq<char>, contents: Seq<char>)
    requires
        query.len() > 0,
    ensures
        forall|i: int|
            0 <= i < matching_lines(query, contents).len() ==> contains_substr(
                #[trigger] matching_lines(query, contents)[i],
                query,
            ),
        forall|i: int|
            0 <= i < lines_of(contents).len() && !matching_lines(query, contents).contains(
                #[trigger] lines_of(contents)[i],
            ) ==> !contains_substr(lines_of(contents)[i], query),
{
    let ls = lines_of(contents);
    let p = exact_pred(query);
    assert forall|i: int| 0 <= i < ls.filter(p).len() implies contains_substr(
        ls.filter(p)[i],
        query,
    ) by {
        ls.lemma_filter_pred(p, i);
    }
    assert forall|i: int|
        0 <= i < ls.len() && !ls.filter(p).contains(ls[i]) implies !contains_substr(
        ls[i],
        query,
    ) by {
        if contains_substr(ls[i], query) {
            ls.lemma_filter_contains(p, i);
        }
    }
}

/// Order preservation: both search variants return a subsequence of the
/// text's lines, in their original order.
pub proof fn lemma_search_order(query: Seq<char>, contents: Seq<char>)
    ensures
        is_subsequence_of(matching_lines(query, contents), lines_of(contents)),
        is_subsequence_of(matching_lines_ci(query, contents), lines_of(contents)),
{
    lemma_filter_is_subsequence(lines_of(contents), exact_pred(query));
    lemma_filter_is_subsequence(lines_of(contents), fold_pred(query));
}

/// Empty-query law: an exact search for the empty query returns every
/// line of the text, unchanged.
pub proof fn lemma_empty_query(contents: Seq<char>)
    ensures
        matching_lines(Seq::empty(), contents) == lines_of(contents),
{
    let ls = lines_of(contents);
    let p = exact_pred(Seq::<char>::empty());
    assert forall|i: int| 0 <= i < ls.len() implies p(#[trigger] ls[i]) by {
        let empty = Seq::<char>::empty();
        assert(0 <= 0 && 0 + empty.len() <= ls[i].len() && ls[i].subrange(0, 0 + empty.len() as int)
            =~= empty);
    }
    lemma_filter_all_true(ls, p);
}

/// No-match law: if no line of the text contains the query, the result is
/// the empty sequence.  (The executable search then returns an empty
/// vector; no error is involved.)
pub proof fn lemma_no_match(query: Seq<char>, contents: Seq<char>)
    requires
        forall|i: int|
            0 <= i < lines_of(contents).len() ==> !contains_substr(
                #[trigger] lines_of(contents)[i],
                query,
            ),
    ensures
        matching_lines(query, contents) == Seq::<Seq<char>>::empty(),
{
    let ls = lines_of(contents);
    let p = exact_pred(query);
    assert(ls.all(|l: Seq<char>| !p(l)));
    ls.lemma_all_neg_filter_empty(p);
    assert(ls.filter(p) =~= Seq::<Seq<char>>::empty());
}

} // verus!


