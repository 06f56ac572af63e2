//! URL extraction.
//!
//! A URL token starts with the scheme `http://` or `https://` and extends
//! over the maximal non-empty run of URL characters that follows the scheme;
//! a URL character is anything but ASCII whitespace, `)` or `]`.  The
//! extractor collects the tokens left to right (non-overlapping, leftmost
//! first) and then drops every repetition, keeping first-seen order.

use vstd::prelude::*;
use vstd::string::StrSliceExecFns;

verus! {

/// A character that may stand inside a URL token: anything but ASCII
/// whitespace, `)` or `]`.
pub open spec fn is_url_char(c: char) -> bool {
    !(c == ' ' || c == '\t' || c == '\n' || c == '\r' || c == '\u{b}' || c == '\u{c}' || c == ')'
        || c == ']')
}

/// `pat` occurs in `t` at position `i`.
pub open spec fn occurs_at(t: Seq<char>, pat: Seq<char>, i: int) -> bool {
    0 <= i && i + pat.len() <= t.len() && t.subrange(i, i + pat.len()) == pat
}

/// Length of the URL scheme standing at `i`: 8 for `https://`, 7 for
/// `http://`, nothing otherwise.  The two prefixes differ at their fifth
/// character, so at most one of them stands at any position.
pub open spec fn scheme_len_at(t: Seq<char>, i: int) -> Option<int> {
    if occurs_at(t, "https://"@, i) {
        Some(8)
    } else if occurs_at(t, "http://"@, i) {
        Some(7)
    } else {
        None
    }
}

/// End of the maximal run of URL characters starting at `j`.
pub open spec fn run_end(t: Seq<char>, j: int) -> int
    decreases t.len() - j
        when 0 <= j <= t.len()
{
    if j >= t.len() || !is_url_char(t[j]) {
        j
    } else {
        run_end(t, j + 1)
    }
}

pub proof fn lemma_run_end_bounds(t: Seq<char>, j: int)
    requires
        0 <= j <= t.len(),
    ensures
        j <= run_end(t, j) <= t.len(),
    decreases t.len() - j,
{
    if !(j >= t.len() || !is_url_char(t[j])) {
        lemma_run_end_bounds(t, j + 1);
    }
}

/// The URL tokens of `t` from position `i` on: leftmost first,
/// non-overlapping, each the maximal run from its scheme, and each with at
/// least one character after the scheme.
pub open spec fn matches_from(t: Seq<char>, i: int) -> Seq<Seq<char>>
    decreases t.len() - i
        when 0 <= i <= t.len()
{
    if i >= t.len() {
        Seq::empty()
    } else {
        match scheme_len_at(t, i) {
            Some(sl) => {
                proof {
                    reveal_strlit("https://");
                    reveal_strlit("http://");
                    lemma_run_end_bounds(t, i + sl);
                }
                let e = run_end(t, i + sl);
                if e > i + sl {
                    seq![t.subrange(i, e)] + matches_from(t, e)
                } else {
                    matches_from(t, i + 1)
                }
            },
            None => matches_from(t, i + 1),
        }
    }
}

/// `s` with every repetition dropped, keeping the first occurrence of each
/// element in its original position.
pub open spec fn dedup_first(s: Seq<Seq<char>>) -> Seq<Seq<char>>
    decreases s.len(),
{
    if s.len() == 0 {
        Seq::empty()
    } else {
        let d = dedup_first(s.drop_last());
        if d.contains(s.last()) {
            d
        } else {
            d.push(s.last())
        }
    }
}

/// The ordered, deduplicated URL list of a text.
pub open spec fn url_list_spec(t: Seq<char>) -> Seq<Seq<char>> {
    dedup_first(matches_from(t, 0))
}

/// The characters of `s`, one by one.
pub(crate) fn char_seq(s: &str) -> (r: Vec<char>)
    ensures
        r@ == s@,
{
    let n = s.unicode_len();
    let mut r: Vec<char> = Vec::new();
    let mut i: usize = 0;
    while i < n
        invariant
            i <= n,
            n == s@.len(),
            r@ == s@.take(i as int),
        decreases n - i,
    {
        let c = s.get_char(i);
        r.push(c);
        i = i + 1;
        assert(r@ =~= s@.take(i as int));
    }
    assert(r@ =~= s@);
    r
}

/// Whether `pat` stands in `t` at position `i`.
pub(crate) fn is_match_at(t: &Vec<char>, pat: &Vec<char>, i: usize) -> (r: bool)
    requires
        i <= t@.len(),
    ensures
        r == occurs_at(t@, pat@, i as int),
{
    let tl = t.len();
    let pl = pat.len();
    if tl - i < pl {
        return false;
    }
    let mut k: usize = 0;
    while k < pl
        invariant
            k <= pl,
            tl == t@.len(),
            pl == pat@.len(),
            i + pl <= tl,
            forall|m: int| 0 <= m < k ==> t@[i + m] == pat@[m],
        decreases pl - k,
    {
        if t[i + k] != pat[k] {
            assert(t@.subrange(i as int, i + pat@.len()) != pat@) by {
                assert(t@.subrange(i as int, i + pat@.len())[k as int] == t@[i + k]);
            }
            return false;
        }
        k = k + 1;
    }
    assert(t@.subrange(i as int, i + pat@.len()) =~= pat@);
    true
}

/// Whether `c` may stand inside a URL token.
fn is_url_char_exec(c: char) -> (r: bool)
    ensures
        r == is_url_char(c),
{
    !(c == ' ' || c == '\t' || c == '\n' || c == '\r' || c == '\u{b}' || c == '\u{c}' || c == ')'
        || c == ']')
}

/// End of the maximal run of URL characters starting at `j`.
fn run_end_exec(t: &Vec<char>, j: usize) -> (e: usize)
    requires
        j <= t@.len(),
    ensures
        e == run_end(t@, j as int),
        j <= e <= t@.len(),
{
    let mut k: usize = j;
    while k < t.len() && is_url_char_exec(t[k])
        invariant
            j <= k <= t@.len(),
            run_end(t@, j as int) == run_end(t@, k as int),
        decreases t@.len() - k,
    {
        k = k + 1;
    }
    k
}

/// All URL tokens of the text, leftmost first, repetitions included.
fn find_url_tokens(text: &str) -> (urls: Vec<String>)
    ensures
        urls.deep_view() == matches_from(text@, 0),
{
    let t = char_seq(text);
    let https_pat = char_seq("https://");
    let http_pat = char_seq("http://");
    proof {
        reveal_strlit("https://");
        reveal_strlit("http://");
    }
    let n = t.len();
    let mut out: Vec<String> = Vec::new();
    let mut i: usize = 0;
    while i < n
        invariant
            i <= n,
            n == text@.len(),
            t@ == text@,
            https_pat@ == "https://"@,
            http_pat@ == "http://"@,
            "https://"@.len() == 8,
            "http://"@.len() == 7,
            matches_from(text@, 0) == out.deep_view() + matches_from(text@, i as int),
        decreases n - i,
    {
        let ghost prev = out.deep_view();
        let sl: usize = if is_match_at(&t, &https_pat, i) {
            8
        } else if is_match_at(&t, &http_pat, i) {
            7
        } else {
            0
        };
        if sl > 0 {
            assert(scheme_len_at(text@, i as int) == Some(sl as int));
            proof {
                lemma_run_end_bounds(text@, i + sl);
            }
            let e = run_end_exec(&t, i + sl);
            if e > i + sl {
                let u = text.substring_char(i, e);
                out.push(u.to_owned());
                assert(out.deep_view() =~= prev.push(text@.subrange(i as int, e as int)));
                assert(prev.push(text@.subrange(i as int, e as int)) + matches_from(text@, e as int)
                    =~= prev + (seq![text@.subrange(i as int, e as int)] + matches_from(
                    text@,
                    e as int,
                )));
                i = e;
            } else {
                i = i + 1;
            }
        } else {
            assert(scheme_len_at(text@, i as int) is None);
            i = i + 1;
        }
    }
    out
}

/// Whether some element of `v` has the characters of `x`.
fn contains_string(v: &Vec<String>, x: &String) -> (r: bool)
    ensures
        r == v.deep_view().contains(x@),
{
    let mut k: usize = 0;
    while k < v.len()
        invariant
            k <= v@.len(),
            forall|m: int| 0 <= m < k ==> v.deep_view()[m] != x@,
        decreases v@.len() - k,
    {
        if v[k] == *x {
            assert(v.deep_view()[k as int] == x@);
            return true;
        }
        k = k + 1;
    }
    false
}

/// `v` with every repetition dropped, keeping first-seen order.
fn dedup_urls(v: &Vec<String>) -> (out: Vec<String>)
    ensures
        out.deep_view() == dedup_first(v.deep_view()),
{
    let mut out: Vec<String> = Vec::new();
    let mut k: usize = 0;
    while k < v.len()
        invariant
            k <= v@.len(),
            out.deep_view() == dedup_first(v.deep_view().take(k as int)),
        decreases v@.len() - k,
    {
        let ghost prev = out.deep_view();
        let s = v[k].clone();
        assert(s@ == v.deep_view()[k as int]);
        if !contains_string(&out, &s) {
            out.push(s);
            assert(out.deep_view() =~= prev.push(v.deep_view()[k as int]));
        }
        k = k + 1;
        assert(v.deep_view().take(k as int).drop_last() =~= v.deep_view().take(k - 1));
        assert(v.deep_view().take(k as int).last() == v.deep_view()[k - 1]);
    }
    assert(v.deep_view().take(v@.len() as int) =~= v.deep_view());
    out
}

/// Extracts the ordered, deduplicated list of URLs from the input text:
/// every maximal `http://` or `https://` token, leftmost first, each URL
/// listed once at its first occurrence.
pub fn extract_urls_from_input(text: &str) -> (urls: Vec<String>)
    ensures
        urls.deep_view() == url_list_spec(text@),
        urls.deep_view().no_duplicates(),
{
    let raw = find_url_tokens(text);
    proof {
        lemma_dedup_first_no_duplicates(raw.deep_view());
    }
    dedup_urls(&raw)
}

proof fn lemma_run_end_chars(t: Seq<char>, j: int)
    requires
        0 <= j <= t.len(),
    ensures
        forall|m: int| j <= m < run_end(t, j) ==> is_url_char(#[trigger] t[m]),
    decreases t.len() - j,
{
    if !(j >= t.len() || !is_url_char(t[j])) {
        lemma_run_end_chars(t, j + 1);
        lemma_run_end_bounds(t, j + 1);
    }
}

/// Every token the scan yields is a URL token of the grammar: it starts
/// with `http://` or `https://`, carries at least one character after the
/// scheme, and holds URL characters only.
pub proof fn lemma_tokens_are_urls(t: Seq<char>, i: int, u: Seq<char>)
    requires
        0 <= i <= t.len(),
        matches_from(t, i).contains(u),
    ensures
        occurs_at(u, "https://"@, 0) || occurs_at(u, "http://"@, 0),
        occurs_at(u, "https://"@, 0) ==> u.len() > 8,
        occurs_at(u, "http://"@, 0) ==> u.len() > 7,
        forall|m: int| 0 <= m < u.len() ==> is_url_char(#[trigger] u[m]),
    decreases t.len() - i,
{
    reveal_strlit("https://");
    reveal_strlit("http://");
    if i >= t.len() {
        assert(false);
    } else {
        match scheme_len_at(t, i) {
            Some(sl) => {
                lemma_run_end_bounds(t, i + sl);
                let e = run_end(t, i + sl);
                if e > i + sl {
                    let s = matches_from(t, i);
                    let k = choose|k: int| 0 <= k < s.len() && s[k] == u;
                    if k == 0 {
                        assert(u == t.subrange(i, e));
                        if occurs_at(t, "https://"@, i) {
                            assert(u.subrange(0, 8) =~= t.subrange(i, i + 8));
                            assert(occurs_at(u, "https://"@, 0));
                        } else {
                            assert(u.subrange(0, 7) =~= t.subrange(i, i + 7));
                            assert(occurs_at(u, "http://"@, 0));
                            assert(!occurs_at(u, "https://"@, 0)) by {
                                if occurs_at(u, "https://"@, 0) {
                                    assert(u.subrange(0, 8)[4] == u[4]);
                                    assert(u.subrange(0, 7)[4] == u[4]);
                                }
                            }
                        }
                        lemma_run_end_chars(t, i + sl);
                        assert forall|m: int| 0 <= m < u.len() implies is_url_char(
                            #[trigger] u[m],
                        ) by {
                            assert(u[m] == t[i + m]);
                            if m < sl {
                                if sl == 8 {
                                    assert(t.subrange(i, i + 8)[m] == t[i + m]);
                                    assert(t[i + m] == "https://"@[m]);
                                } else {
                                    assert(t.subrange(i, i + 7)[m] == t[i + m]);
                                    assert(t[i + m] == "http://"@[m]);
                                }
                            } else {
                                assert(i + sl <= i + m < e);
                            }
                        }
                    } else {
                        assert(matches_from(t, e)[k - 1] == u);
                        assert(matches_from(t, e).contains(u));
                        lemma_tokens_are_urls(t, e, u);
                    }
                } else {
                    lemma_tokens_are_urls(t, i + 1, u);
                }
            },
            None => {
                lemma_tokens_are_urls(t, i + 1, u);
            },
        }
    }
}

/// Every URL the extractor returns is a URL token of the grammar.
pub proof fn lemma_extract_yields_url_tokens(t: Seq<char>, u: Seq<char>)
    requires
        url_list_spec(t).contains(u),
    ensures
        occurs_at(u, "https://"@, 0) || occurs_at(u, "http://"@, 0),
        forall|m: int| 0 <= m < u.len() ==> is_url_char(#[trigger] u[m]),
{
    lemma_dedup_first_same_members(matches_from(t, 0), u);
    lemma_tokens_are_urls(t, 0, u);
}

/// The deduplicated list never holds the same URL twice.
pub proof fn lemma_dedup_first_no_duplicates(s: Seq<Seq<char>>)
    ensures
        dedup_first(s).no_duplicates(),
    decreases s.len(),
{
    if s.len() > 0 {
        lemma_dedup_first_no_duplicates(s.drop_last());
    }
}

/// Deduplication keeps exactly the members of the original list: no URL is
/// silently added and none is silently lost.
pub proof fn lemma_dedup_first_same_members(s: Seq<Seq<char>>, x: Seq<char>)
    ensures
        dedup_first(s).contains(x) <==> s.contains(x),
    decreases s.len(),
{
    if s.len() > 0 {
        let d = dedup_first(s.drop_last());
        lemma_dedup_first_same_members(s.drop_last(), x);
        if s.contains(x) {
            let i = choose|i: int| 0 <= i < s.len() && s[i] == x;
            if i < s.len() - 1 {
                assert(s.drop_last()[i] == x);
                assert(s.drop_last().contains(x));
                let j = choose|j: int| 0 <= j < d.len() && d[j] == x;
                assert(dedup_first(s)[j] == x);
            } else {
                if d.contains(x) {
                    let j = choose|j: int| 0 <= j < d.len() && d[j] == x;
                    assert(dedup_first(s)[j] == x);
                } else {
                    assert(dedup_first(s)[d.len() as int] == x);
                }
            }
            assert(dedup_first(s).contains(x));
        }
        if dedup_first(s).contains(x) {
            let j = choose|j: int| 0 <= j < dedup_first(s).len() && dedup_first(s)[j] == x;
            if j < d.len() {
                assert(d[j] == x);
                assert(d.contains(x));
                let i = choose|i: int| 0 <= i < s.drop_last().len() && s.drop_last()[i] == x;
                assert(s[i] == x);
            } else {
                assert(x == s.last());
                assert(s[s.len() - 1] == x);
            }
            assert(s.contains(x));
        }
    }
}

/// A list without repetitions passes through deduplication unchanged.
pub proof fn lemma_dedup_first_of_unique(s: Seq<Seq<char>>)
    requires
        s.no_duplicates(),
    ensures
        dedup_first(s) == s,
    decreases s.len(),
{
    if s.len() > 0 {
        lemma_dedup_first_of_unique(s.drop_last());
        lemma_dedup_first_same_members(s.drop_last(), s.last());
        assert(!s.drop_last().contains(s.last())) by {
            if s.drop_last().contains(s.last()) {
                let i = choose|i: int|
                    0 <= i < s.drop_last().len() && s.drop_last()[i] == s.last();
                assert(s[i] == s[s.len() - 1]);
            }
        }
        assert(dedup_first(s) =~= s);
    }
}

/// Deduplicating twice is the same as deduplicating once.
pub proof fn lemma_dedup_first_idempotent(s: Seq<Seq<char>>)
    ensures
        dedup_first(dedup_first(s)) == dedup_first(s),
{
    lemma_dedup_first_no_duplicates(s);
    lemma_dedup_first_of_unique(dedup_first(s));
}

/// The extractor is a function of the input text alone: two runs on the
/// same text yield the same deduplicated, ordered URL list.
pub proof fn lemma_extract_deterministic(t: Seq<char>, a: Seq<Seq<char>>, b: Seq<Seq<char>>)
    requires
        a == url_list_spec(t),
        b == url_list_spec(t),
    ensures
        a == b,
{
}

} // verus!
