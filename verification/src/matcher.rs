//! The line matcher: given a query and a body of text, the ordered
//! subsequence of lines that contain the query, compared either exactly or
//! after lowercasing both sides.

use vstd::prelude::*;
use crate::text::{
    contains_substr, has_substr, lemma_empty_pat_matches, lines_of, split_lines,
};

verus! {

/// What `str::to_lowercase` returns on a string with these characters.
pub uninterp spec fn lower_of(s: Seq<char>) -> Seq<char>;

/// Relies on `str::to_lowercase`: the lowercase equivalent of a string
/// depends on its characters alone, and an empty string lowercases to an
/// empty string.
#[verifier::external_body]
fn lowercase(s: &str) -> (lowered: String)
    ensures
        lowered@ == lower_of(s@),
        s@.len() == 0 ==> lowered@.len() == 0,
{
    s.to_lowercase()
}

/// The lines among `ls` that contain `query` exactly, in order.
pub open spec fn sensitive_filter(query: Seq<char>, ls: Seq<Seq<char>>) -> Seq<Seq<char>> {
    ls.filter(|l: Seq<char>| contains_substr(l, query))
}

/// The lines of `contents` that contain `query` exactly, in order.
pub open spec fn sensitive_matches(query: Seq<char>, contents: Seq<char>) -> Seq<Seq<char>> {
    sensitive_filter(query, lines_of(contents))
}

/// The lines among `ls` whose lowered text contains the lowered `query`, in
/// order.
pub open spec fn insensitive_filter(query: Seq<char>, ls: Seq<Seq<char>>) -> Seq<Seq<char>> {
    ls.filter(|l: Seq<char>| contains_substr(lower_of(l), lower_of(query)))
}

/// The lines of `contents` whose lowered text contains the lowered `query`,
/// in order.
pub open spec fn insensitive_matches(query: Seq<char>, contents: Seq<char>) -> Seq<Seq<char>> {
    insensitive_filter(query, lines_of(contents))
}

proof fn lemma_sensitive_filter_empty(query: Seq<char>)
    ensures
        sensitive_filter(query, Seq::<Seq<char>>::empty()) == Seq::<Seq<char>>::empty(),
{
    reveal(Seq::filter);
}

proof fn lemma_insensitive_filter_empty(query: Seq<char>)
    ensures
        insensitive_filter(query, Seq::<Seq<char>>::empty()) == Seq::<Seq<char>>::empty(),
{
    reveal(Seq::filter);
}

proof fn lemma_sensitive_filter_push(query: Seq<char>, ls: Seq<Seq<char>>, x: Seq<char>)
    ensures
        sensitive_filter(query, ls.push(x)) == sensitive_filter(query, ls) + (
        if contains_substr(x, query) {
            seq![x]
        } else {
            Seq::<Seq<char>>::empty()
        }),
{
    reveal(Seq::filter);
    let whole = ls.push(x);
    assert(whole.drop_last() =~= ls);
    assert(whole.last() == x);
    if contains_substr(x, query) {
        assert(sensitive_filter(query, whole) =~= sensitive_filter(query, ls) + seq![x]);
    } else {
        assert(sensitive_filter(query, whole) =~= sensitive_filter(query, ls));
    }
}

proof fn lemma_insensitive_filter_push(query: Seq<char>, ls: Seq<Seq<char>>, x: Seq<char>)
    ensures
        insensitive_filter(query, ls.push(x)) == insensitive_filter(query, ls) + (
        if contains_substr(lower_of(x), lower_of(query)) {
            seq![x]
        } else {
            Seq::<Seq<char>>::empty()
        }),
{
    reveal(Seq::filter);
    let whole = ls.push(x);
    assert(whole.drop_last() =~= ls);
    assert(whole.last() == x);
    if contains_substr(lower_of(x), lower_of(query)) {
        assert(insensitive_filter(query, whole) =~= insensitive_filter(query, ls) + seq![x]);
    } else {
        assert(insensitive_filter(query, whole) =~= insensitive_filter(query, ls));
    }
}

proof fn lemma_sensitive_filter_all(query: Seq<char>, ls: Seq<Seq<char>>)
    requires
        query.len() == 0,
    ensures
        sensitive_filter(query, ls) == ls,
    decreases ls.len(),
{
    reveal(Seq::filter);
    if ls.len() > 0 {
        lemma_sensitive_filter_all(query, ls.drop_last());
        lemma_empty_pat_matches(ls.last(), query);
        assert(sensitive_filter(query, ls) =~= ls);
    }
}

proof fn lemma_insensitive_filter_all(query: Seq<char>, ls: Seq<Seq<char>>)
    requires
        lower_of(query).len() == 0,
    ensures
        insensitive_filter(query, ls) == ls,
    decreases ls.len(),
{
    reveal(Seq::filter);
    if ls.len() > 0 {
        lemma_insensitive_filter_all(query, ls.drop_last());
        lemma_empty_pat_matches(lower_of(ls.last()), lower_of(query));
        assert(insensitive_filter(query, ls) =~= ls);
    }
}

/// Case-sensitive matching is sound and complete on the lines of the text:
/// every line it returns contains the query as an exact substring, it returns
/// no more lines than the text has, and every line of the text that contains
/// the query is among the returned lines.  (Being a restriction of the lines
/// of `contents`, in their order, is the definition of `sensitive_matches`.)
pub proof fn lemma_sensitive_matches_exact(query: Seq<char>, contents: Seq<char>)
    ensures
        forall|i: int|
            0 <= i < sensitive_matches(query, contents).len() ==> contains_substr(
                #[trigger] sensitive_matches(query, contents)[i],
                query,
            ),
        sensitive_matches(query, contents).len() <= lines_of(contents).len(),
        forall|j: int|
            0 <= j < lines_of(contents).len() && contains_substr(
                #[trigger] lines_of(contents)[j],
                query,
            ) ==> sensitive_matches(query, contents).contains(lines_of(contents)[j]),
{
    broadcast use vstd::seq_lib::group_filter_ensures;

}

/// Every line among `ls` that contains `query` still contains it after both
/// sides are lowercased.  Lowercasing preserves containment for all but a few
/// exceptional characters whose lowered form depends on their surroundings.
pub open spec fn lowering_keeps_query(query: Seq<char>, ls: Seq<Seq<char>>) -> bool {
    forall|j: int|
        0 <= j < ls.len() && contains_substr(#[trigger] ls[j], query) ==> contains_substr(
            lower_of(ls[j]),
            lower_of(query),
        )
}

proof fn lemma_filter_count_le(query: Seq<char>, ls: Seq<Seq<char>>)
    requires
        lowering_keeps_query(query, ls),
    ensures
        insensitive_filter(query, ls).len() >= sensitive_filter(query, ls).len(),
    decreases ls.len(),
{
    reveal(Seq::filter);
    if ls.len() > 0 {
        let pre = ls.drop_last();
        assert forall|j: int|
            0 <= j < pre.len() && contains_substr(#[trigger] pre[j], query) implies contains_substr(
            lower_of(pre[j]),
            lower_of(query),
        ) by {
            assert(pre[j] == ls[j]);
        }
        lemma_filter_count_le(query, pre);
        assert(ls.last() == ls[ls.len() - 1]);
    }
}

/// On any text whose lines keep the lowered query inside their lowered text
/// whenever they contain the query itself, case-insensitive matching returns
/// at least as many lines as case-sensitive matching.
pub proof fn lemma_insensitive_superset(query: Seq<char>, contents: Seq<char>)
    ensures
        lowering_keeps_query(query, lines_of(contents)) ==> insensitive_matches(
            query,
            contents,
        ).len() >= sensitive_matches(query, contents).len(),
{
    if lowering_keeps_query(query, lines_of(contents)) {
        lemma_filter_count_le(query, lines_of(contents));
    }
}

/// An empty query matches every line: case-sensitive matching returns all of
/// the text's lines, unchanged and in order.  (Case-insensitive matching does
/// the same; that clause stands on `search_case_insensitive` itself, where
/// the lowered form of the empty query is at hand.)
pub proof fn lemma_empty_query_returns_all(query: Seq<char>, contents: Seq<char>)
    requires
        query.len() == 0,
    ensures
        sensitive_matches(query, contents) == lines_of(contents),
{
    lemma_sensitive_filter_all(query, lines_of(contents));
}

/// The lines of `contents` that contain `query` as an exact contiguous
/// substring, as slices of the original text, in the order the lines appear.
/// An empty query matches every line.
pub fn search<'a>(query: &str, contents: &'a str) -> (matches: Vec<&'a str>)
    ensures
        matches.deep_view() == sensitive_matches(query@, contents@),
        query@.len() == 0 ==> matches.deep_view() == lines_of(contents@),
{
    let lines = split_lines(contents);
    let mut matches: Vec<&'a str> = Vec::new();
    let ghost all = lines_of(contents@);
    let mut i: usize = 0;
    proof {
        assert(all.subrange(0, 0) =~= Seq::<Seq<char>>::empty());
        lemma_sensitive_filter_empty(query@);
        assert(matches.deep_view() =~= sensitive_filter(query@, all.subrange(0, 0)));
    }
    while i < lines.len()
        invariant
            lines.deep_view() == all,
            lines@.len() == all.len(),
            0 <= i <= lines@.len(),
            matches.deep_view() == sensitive_filter(query@, all.subrange(0, i as int)),
        decreases lines@.len() - i,
    {
        let line = lines[i];
        let ghost prev = matches.deep_view();
        proof {
            assert(line.deep_view() == all[i as int]);
        }
        if has_substr(line, query) {
            matches.push(line);
            proof {
                assert(matches.deep_view() =~= prev.push(line@));
            }
        }
        proof {
            lemma_sensitive_filter_push(query@, all.subrange(0, i as int), all[i as int]);
            assert(all.subrange(0, i + 1) =~= all.subrange(0, i as int).push(all[i as int]));
            if contains_substr(all[i as int], query@) {
                assert(matches.deep_view() =~= prev + seq![all[i as int]]);
            }
        }
        i = i + 1;
    }
    proof {
        assert(all.subrange(0, all.len() as int) =~= all);
        if query@.len() == 0 {
            lemma_sensitive_filter_all(query@, all);
        }
    }
    matches
}

/// The lines of `contents` that contain `query` after both the line and the
/// query are lowercased, as slices of the original (unlowered) text, in the
/// order the lines appear.  An empty query matches every line.
pub fn search_case_insensitive<'a>(query: &str, contents: &'a str) -> (matches: Vec<&'a str>)
    ensures
        matches.deep_view() == insensitive_matches(query@, contents@),
        query@.len() == 0 ==> matches.deep_view() == lines_of(contents@),
{
    let lowered_query = lowercase(query);
    let lines = split_lines(contents);
    let mut matches: Vec<&'a str> = Vec::new();
    let ghost all = lines_of(contents@);
    let mut i: usize = 0;
    proof {
        assert(all.subrange(0, 0) =~= Seq::<Seq<char>>::empty());
        lemma_insensitive_filter_empty(query@);
        assert(matches.deep_view() =~= insensitive_filter(query@, all.subrange(0, 0)));
    }
    while i < lines.len()
        invariant
            lines.deep_view() == all,
            lines@.len() == all.len(),
            0 <= i <= lines@.len(),
            lowered_query@ == lower_of(query@),
            matches.deep_view() == insensitive_filter(query@, all.subrange(0, i as int)),
        decreases lines@.len() - i,
    {
        let line = lines[i];
        let ghost prev = matches.deep_view();
        proof {
            assert(line.deep_view() == all[i as int]);
        }
        let lowered_line = lowercase(line);
        if has_substr(lowered_line.as_str(), lowered_query.as_str()) {
            matches.push(line);
            proof {
                assert(matches.deep_view() =~= prev.push(line@));
            }
        }
        proof {
            lemma_insensitive_filter_push(query@, all.subrange(0, i as int), all[i as int]);
            assert(all.subrange(0, i + 1) =~= all.subrange(0, i as int).push(all[i as int]));
            if contains_substr(lower_of(all[i as int]), lower_of(query@)) {
                assert(matches.deep_view() =~= prev + seq![all[i as int]]);
            }
        }
        i = i + 1;
    }
    proof {
        assert(all.subrange(0, all.len() as int) =~= all);
        if query@.len() == 0 {
            lemma_insensitive_filter_all(query@, all);
        }
    }
    matches
}

} // verus!
