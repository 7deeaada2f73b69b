//! The mathematical model of the searched text: substring occurrence and the
//! decomposition of a text into lines, together with verified executable
//! routines for both.

use vstd::prelude::*;
use vstd::string::StrSliceExecFns;

verus! {

/// True when `pat` occurs in `text` starting at position `at`.
pub open spec fn match_at(text: Seq<char>, pat: Seq<char>, at: int) -> bool {
    &&& 0 <= at
    &&& at + pat.len() <= text.len()
    &&& text.subrange(at, at + pat.len() as int) == pat
}

/// True when `pat` occurs somewhere in `text` as a contiguous run of
/// characters.
pub open spec fn contains_substr(text: Seq<char>, pat: Seq<char>) -> bool {
    exists|at: int| match_at(text, pat, at)
}

/// An empty pattern occurs in every text.
pub proof fn lemma_empty_pat_matches(text: Seq<char>, pat: Seq<char>)
    requires
        pat.len() == 0,
    ensures
        contains_substr(text, pat),
{
    assert(text.subrange(0, 0) =~= pat);
    assert(match_at(text, pat, 0));
}

/// Position of the first newline in `s`, or `s.len()` when there is none.
pub open spec fn first_nl(s: Seq<char>) -> nat
    decreases s.len(),
{
    if s.len() == 0 {
        0
    } else if s[0] == '\n' {
        0
    } else {
        1 + first_nl(s.subrange(1, s.len() as int))
    }
}

/// `first_nl` is pinned down by its characterisation: no newline before `k`,
/// and either a newline at `k` or `k` at the end of the text.
pub proof fn lemma_first_nl_is(s: Seq<char>, k: int)
    requires
        0 <= k <= s.len(),
        forall|j: int| 0 <= j < k ==> s[j] != '\n',
        k < s.len() ==> s[k] == '\n',
    ensures
        first_nl(s) == k,
    decreases s.len(),
{
    if s.len() == 0 {
    } else if s[0] == '\n' {
        assert(k == 0);
    } else {
        let t = s.subrange(1, s.len() as int);
        assert forall|j: int| 0 <= j < k - 1 implies t[j] != '\n' by {
            assert(t[j] == s[j + 1]);
        }
        lemma_first_nl_is(t, k - 1);
    }
}

/// `line` with one trailing carriage return removed, if it carries one.
pub open spec fn strip_cr(line: Seq<char>) -> Seq<char> {
    if line.len() > 0 && line[line.len() - 1] == '\r' {
        line.subrange(0, line.len() - 1)
    } else {
        line
    }
}

/// The lines of `s`: newline-delimited segments, each with its terminator
/// (and a carriage return directly before the newline) stripped.  A trailing
/// newline closes the last line rather than opening an empty one, and a final
/// segment without a newline keeps its characters as they stand.
pub open spec fn lines_of(s: Seq<char>) -> Seq<Seq<char>>
    decreases s.len(),
{
    if s.len() == 0 {
        Seq::empty()
    } else {
        let cut = first_nl(s) as int;
        if cut >= s.len() {
            seq![s]
        } else {
            seq![strip_cr(s.subrange(0, cut))] + lines_of(s.subrange(cut + 1, s.len() as int))
        }
    }
}

/// The characters of `s`, collected into a vector.
fn chars_of(s: &str) -> (chars: Vec<char>)
    ensures
        chars@ == s@,
{
    let n = s.unicode_len();
    let mut chars: Vec<char> = Vec::new();
    let mut i: usize = 0;
    while i < n
        invariant
            n == s@.len(),
            0 <= i <= n,
            chars@ == s@.subrange(0, i as int),
        decreases n - i,
    {
        chars.push(s.get_char(i));
        i = i + 1;
        proof {
            assert(chars@ =~= s@.subrange(0, i as int));
        }
    }
    proof {
        assert(chars@ =~= s@);
    }
    chars
}

/// Whether `pat` occurs in `text` starting exactly at position `at`.
fn match_at_exec(text: &Vec<char>, pat: &Vec<char>, at: usize) -> (found: bool)
    requires
        at + pat@.len() <= text@.len(),
    ensures
        found == match_at(text@, pat@, at as int),
{
    let n = text.len();
    let m = pat.len();
    let mut j: usize = 0;
    while j < m
        invariant
            n == text@.len(),
            m == pat@.len(),
            at + m <= n,
            0 <= j <= m,
            forall|k: int| 0 <= k < j ==> text@[at + k] == pat@[k],
        decreases m - j,
    {
        if text[at + j] != pat[j] {
            proof {
                let sub = text@.subrange(at as int, at + m as int);
                assert(sub[j as int] == text@[at + j]);
            }
            return false;
        }
        j = j + 1;
    }
    proof {
        assert(text@.subrange(at as int, at + m as int) =~= pat@);
    }
    true
}

/// Whether `pat` occurs somewhere in `text`, by characters.
fn has_substr_chars(text: &Vec<char>, pat: &Vec<char>) -> (found: bool)
    ensures
        found == contains_substr(text@, pat@),
{
    let n = text.len();
    let m = pat.len();
    if m == 0 {
        proof {
            lemma_empty_pat_matches(text@, pat@);
        }
        return true;
    }
    if m > n {
        proof {
            assert forall|at: int| !match_at(text@, pat@, at) by {}
        }
        return false;
    }
    let mut i: usize = 0;
    while i <= n - m
        invariant
            n == text@.len(),
            m == pat@.len(),
            1 <= m <= n,
            0 <= i <= n - m + 1,
            forall|k: int| 0 <= k < i ==> !match_at(text@, pat@, k),
        decreases n - m + 1 - i,
    {
        if match_at_exec(text, pat, i) {
            proof {
                assert(match_at(text@, pat@, i as int));
            }
            return true;
        }
        i = i + 1;
    }
    proof {
        assert forall|at: int| !match_at(text@, pat@, at) by {
            if 0 <= at <= n - m {
                assert(!match_at(text@, pat@, at));
            }
        }
    }
    false
}

/// Whether `pat` occurs in `text` as a contiguous run of characters.
pub fn has_substr(text: &str, pat: &str) -> (found: bool)
    ensures
        found == contains_substr(text@, pat@),
{
    let text_chars = chars_of(text);
    let pat_chars = chars_of(pat);
    has_substr_chars(&text_chars, &pat_chars)
}

/// Split `contents` into its lines, as slices of the original text: segments
/// delimited by newlines, with the terminator (and a carriage return directly
/// before it) stripped, and no empty line opened by a trailing newline.
pub fn split_lines<'a>(contents: &'a str) -> (lines: Vec<&'a str>)
    ensures
        lines.deep_view() == lines_of(contents@),
{
    let n = contents.unicode_len();
    let mut lines: Vec<&'a str> = Vec::new();
    let mut start: usize = 0;
    let mut i: usize = 0;
    proof {
        assert(contents@.subrange(0, n as int) =~= contents@);
        assert(lines.deep_view() + lines_of(contents@) =~= lines_of(contents@));
    }
    while i < n
        invariant
            n == contents@.len(),
            0 <= start <= i <= n,
            forall|j: int| start <= j < i ==> contents@[j] != '\n',
            lines.deep_view() + lines_of(contents@.subrange(start as int, n as int))
                =~= lines_of(contents@),
        decreases n - i,
    {
        let c = contents.get_char(i);
        if c == '\n' {
            let ghost prev = lines.deep_view();
            let ghost rem = contents@.subrange(start as int, n as int);
            let line: &'a str;
            if i > start && contents.get_char(i - 1) == '\r' {
                line = contents.substring_char(start, i - 1);
            } else {
                line = contents.substring_char(start, i);
            }
            proof {
                let cut = i - start as int;
                assert forall|j: int| 0 <= j < cut implies rem[j] != '\n' by {
                    assert(rem[j] == contents@[start + j]);
                }
                assert(rem[cut] == contents@[i as int]);
                lemma_first_nl_is(rem, cut);
                assert(rem.subrange(0, cut) =~= contents@.subrange(start as int, i as int));
                assert(rem.subrange(cut + 1, rem.len() as int) =~= contents@.subrange(
                    i + 1,
                    n as int,
                ));
                assert(lines_of(rem) == seq![strip_cr(rem.subrange(0, cut))] + lines_of(
                    contents@.subrange(i + 1, n as int),
                ));
                assert(line@ =~= strip_cr(rem.subrange(0, cut)));
            }
            lines.push(line);
            proof {
                assert(lines.deep_view() =~= prev.push(line@));
                assert(prev.push(line@) + lines_of(contents@.subrange(i + 1, n as int)) =~= prev
                    + lines_of(rem));
            }
            start = i + 1;
        }
        i = i + 1;
    }
    let ghost rem = contents@.subrange(start as int, n as int);
    proof {
        assert forall|j: int| 0 <= j < rem.len() implies rem[j] != '\n' by {
            assert(rem[j] == contents@[start + j]);
        }
        lemma_first_nl_is(rem, rem.len() as int);
    }
    if start < n {
        let ghost prev = lines.deep_view();
        let line = contents.substring_char(start, n);
        lines.push(line);
        proof {
            assert(lines_of(rem) == seq![rem]);
            assert(lines.deep_view() =~= prev.push(line@));
            assert(prev.push(line@) =~= prev + seq![rem]);
        }
    } else {
        proof {
            assert(rem.len() == 0);
            assert(lines.deep_view() + lines_of(rem) =~= lines.deep_view());
        }
    }
    lines
}

} // verus!
