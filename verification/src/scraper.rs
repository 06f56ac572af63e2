//! Title extraction.
//!
//! The title of an HTML document is the text standing between the first
//! `<title>` tag and the `</title>` tag that follows it, with leading and
//! trailing ASCII whitespace removed.  A document without such a pair of
//! tags has no title.

use crate::parser::{char_seq, is_match_at, occurs_at};
use vstd::prelude::*;
use vstd::string::StrSliceExecFns;

verus! {

/// ASCII whitespace, as removed from the ends of a title.
pub open spec fn is_space(c: char) -> bool {
    c == ' ' || c == '\t' || c == '\n' || c == '\r'
}

/// The position of the first occurrence of `pat` in `t` at or after `from`.
pub open spec fn find_at(t: Seq<char>, pat: Seq<char>, from: int) -> Option<int>
    decreases t.len() - from
        when pat.len() > 0
{
    if from + pat.len() > t.len() {
        None
    } else if occurs_at(t, pat, from) {
        Some(from)
    } else {
        find_at(t, pat, from + 1)
    }
}

/// `s` without its leading whitespace.
pub open spec fn trim_start_spec(s: Seq<char>) -> Seq<char>
    decreases s.len(),
{
    if s.len() > 0 && is_space(s[0]) {
        trim_start_spec(s.drop_first())
    } else {
        s
    }
}

/// `s` without its trailing whitespace.
pub open spec fn trim_end_spec(s: Seq<char>) -> Seq<char>
    decreases s.len(),
{
    if s.len() > 0 && is_space(s.last()) {
        trim_end_spec(s.drop_last())
    } else {
        s
    }
}

/// `s` without leading and trailing whitespace.
pub open spec fn trim_spec(s: Seq<char>) -> Seq<char> {
    trim_end_spec(trim_start_spec(s))
}

/// The title of the document `t`: the trimmed text between the first
/// `<title>` and the `</title>` that follows it, if both are present.
pub open spec fn title_spec(t: Seq<char>) -> Option<Seq<char>> {
    match find_at(t, "<title>"@, 0) {
        Some(i) => match find_at(t, "</title>"@, i + 7) {
            Some(j) => Some(trim_spec(t.subrange(i + 7, j))),
            None => None,
        },
        None => None,
    }
}

/// Whether `c` is ASCII whitespace.
fn is_space_exec(c: char) -> (r: bool)
    ensures
        r == is_space(c),
{
    c == ' ' || c == '\t' || c == '\n' || c == '\r'
}

/// The first occurrence of `pat` in `t` at or after `from`.
fn find_first(t: &Vec<char>, pat: &Vec<char>, from: usize) -> (r: Option<usize>)
    requires
        pat@.len() > 0,
        from <= t@.len(),
    ensures
        match r {
            Some(idx) => {
                &&& from <= idx
                &&& occurs_at(t@, pat@, idx as int)
                &&& find_at(t@, pat@, from as int) == Some(idx as int)
            },
            None => find_at(t@, pat@, from as int) is None,
        },
{
    let tl = t.len();
    let pl = pat.len();
    if tl < pl || from > tl - pl {
        return None;
    }
    let mut k: usize = from;
    while k <= tl - pl
        invariant
            from <= k <= tl,
            tl == t@.len(),
            pl == pat@.len(),
            pl > 0,
            pl <= tl,
            find_at(t@, pat@, from as int) == find_at(t@, pat@, k as int),
        decreases tl - k,
    {
        if is_match_at(t, pat, k) {
            return Some(k);
        }
        k = k + 1;
    }
    None
}

proof fn lemma_trim_start_step(t: Seq<char>, a: int, b: int)
    requires
        0 <= a < b <= t.len(),
        is_space(t[a]),
    ensures
        trim_start_spec(t.subrange(a, b)) == trim_start_spec(t.subrange(a + 1, b)),
{
    assert(t.subrange(a, b).drop_first() =~= t.subrange(a + 1, b));
}

proof fn lemma_trim_end_step(t: Seq<char>, a: int, b: int)
    requires
        0 <= a < b <= t.len(),
        is_space(t[b - 1]),
    ensures
        trim_end_spec(t.subrange(a, b)) == trim_end_spec(t.subrange(a, b - 1)),
{
    assert(t.subrange(a, b).drop_last() =~= t.subrange(a, b - 1));
}

/// The sub-slice `[lo, hi)` of `t` with whitespace stripped from both ends,
/// as a pair of bounds.
fn trim_range(t: &Vec<char>, lo: usize, hi: usize) -> (r: (usize, usize))
    requires
        lo <= hi <= t@.len(),
    ensures
        lo <= r.0 <= r.1 <= hi,
        t@.subrange(r.0 as int, r.1 as int) == trim_spec(t@.subrange(lo as int, hi as int)),
{
    let mut a: usize = lo;
    while a < hi && is_space_exec(t[a])
        invariant
            lo <= a <= hi <= t@.len(),
            trim_start_spec(t@.subrange(lo as int, hi as int)) == trim_start_spec(
                t@.subrange(a as int, hi as int),
            ),
        decreases hi - a,
    {
        proof {
            lemma_trim_start_step(t@, a as int, hi as int);
        }
        a = a + 1;
    }
    assert(trim_start_spec(t@.subrange(a as int, hi as int)) == t@.subrange(a as int, hi as int));
    let mut b: usize = hi;
    while b > a && is_space_exec(t[b - 1])
        invariant
            lo <= a <= b <= hi <= t@.len(),
            trim_end_spec(t@.subrange(a as int, hi as int)) == trim_end_spec(
                t@.subrange(a as int, b as int),
            ),
        decreases b,
    {
        proof {
            lemma_trim_end_step(t@, a as int, b as int);
        }
        b = b - 1;
    }
    assert(trim_end_spec(t@.subrange(a as int, b as int)) == t@.subrange(a as int, b as int));
    (a, b)
}

/// Extracts the `<title>` text from an HTML document.
///
/// The returned string is trimmed.  If the document has no `<title>` tag, or
/// no `</title>` tag after it, this returns `None`.
pub fn extract_title(html: &str) -> (r: Option<String>)
    ensures
        match r {
            Some(s) => title_spec(html@) == Some(s@),
            None => title_spec(html@) is None,
        },
{
    let t = char_seq(html);
    let open_pat = char_seq("<title>");
    let close_pat = char_seq("</title>");
    proof {
        reveal_strlit("<title>");
        reveal_strlit("</title>");
    }
    let tl = t.len();
    match find_first(&t, &open_pat, 0) {
        None => None,
        Some(i) => {
            assert(i + 7 <= tl);
            match find_first(&t, &close_pat, i + 7) {
                None => None,
                Some(j) => {
                    let (a, b) = trim_range(&t, i + 7, j);
                    let s = html.substring_char(a, b);
                    Some(s.to_owned())
                },
            }
        },
    }
}

} // verus!
