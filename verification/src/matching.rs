//! The token matching engine.
//!
//! Given a haystack and a needle — two sequences of [`Token`]s — the engine
//! scans every contiguous window of the haystack that is as long as the
//! needle, left to right, and reports the first window that matches, either
//! exactly (position-wise text equality, optionally case-permissive) or
//! fuzzily (the mean pairwise similarity reaches a threshold).
//! [`find_all_matches`] repeats the search over shrinking suffixes to report
//! every non-identical match.

use vstd::prelude::*;

use crate::similarity::SIMILARITY_SCALE;
use crate::similarity::similarity;
use crate::text::lower_of;
use crate::text::upper_count;
use crate::token::Token;
use crate::token::TokenView;
use crate::token::token_seq_wf;
use crate::token::token_views;

verus! {

/// How [`find_match`] compares the needle against each haystack window.
///
/// Thresholds are fixed-point fractions of
/// [`SIMILARITY_SCALE`](crate::similarity::SIMILARITY_SCALE): a window is
/// accepted when its mean pairwise similarity, on the same scale, reaches
/// the threshold.  A threshold above the scale makes fuzzy matching always
/// fail; a threshold of zero makes it always succeed on the score alone.
#[derive(Debug, Clone, Copy)]
pub enum MatchMode {
    /// Tokens are compared for equality only.
    Exact,
    /// Tokens are compared by mean pairwise similarity against the threshold.
    Fuzzy(u64),
    /// Exact matching is tried first; fuzzy matching is the fallback.
    Both(u64),
}

/// The score of a fuzzy match: the arithmetic mean of the pairwise
/// similarities across the matched window, kept as an exact fraction
/// `total / (pairs * SIMILARITY_SCALE)` of 1.
#[derive(Debug, Clone, Copy, PartialEq, Eq, Structural)]
pub struct Score {
    /// The sum of the pairwise fixed-point similarities.
    pub total: u128,
    /// The number of aligned token pairs the sum ranges over.
    pub pairs: usize,
}

/// A reported match.  `offset` is the `start` of the first matched haystack
/// token; `length` is the sum of the matched window tokens' `len`, that is,
/// the character span covered in the original input.
#[derive(Debug, Clone, Copy, PartialEq, Eq, Structural)]
pub enum MatchResult {
    /// An exact match: the offset and the length.
    Exact(usize, usize),
    /// A fuzzy match: the offset, the length, and the window's score.
    Fuzzy(usize, usize, Score),
}

/// The offset a match reports.
pub open spec fn match_offset(m: MatchResult) -> int {
    match m {
        MatchResult::Exact(o, _) => o as int,
        MatchResult::Fuzzy(o, _, _) => o as int,
    }
}

/// Whether a haystack token `a` satisfies a needle token `b` under exact
/// matching.  Permissive matching compares the lowercase forms and lets the
/// haystack token carry at least as many uppercase characters as the
/// needle's; strict matching is plain text equality.
pub open spec fn exact_pair_ok(a: TokenView, b: TokenView, permissive: bool) -> bool {
    if permissive {
        lower_of(a.text) == lower_of(b.text) && upper_count(a.text) >= upper_count(b.text)
    } else {
        a.text == b.text
    }
}

/// Whether the window of `h` starting at `w` matches `n` exactly,
/// position by position.
pub open spec fn exact_window_ok(
    h: Seq<TokenView>,
    n: Seq<TokenView>,
    w: int,
    permissive: bool,
) -> bool {
    forall|i: int| 0 <= i < n.len() ==> exact_pair_ok(#[trigger] h[w + i], n[i], permissive)
}

/// Whether every haystack token of the window carries at least as many
/// uppercase characters as the aligned needle token.
pub open spec fn upper_window_ok(h: Seq<TokenView>, n: Seq<TokenView>, w: int) -> bool {
    forall|i: int|
        0 <= i < n.len() ==> upper_count(#[trigger] h[w + i].text) >= upper_count(n[i].text)
}

/// The similarity of an aligned token pair; permissive matching scores the
/// lowercase forms.
pub open spec fn pair_similarity(a: TokenView, b: TokenView, permissive: bool) -> int {
    if permissive {
        similarity(lower_of(a.text), lower_of(b.text))
    } else {
        similarity(a.text, b.text)
    }
}

/// The sum of the pairwise similarities over the first `k` aligned pairs of
/// the window of `h` starting at `w`.
pub open spec fn window_similarity_sum(
    h: Seq<TokenView>,
    n: Seq<TokenView>,
    w: int,
    permissive: bool,
    k: int,
) -> int
    decreases k,
{
    if k <= 0 {
        0
    } else {
        window_similarity_sum(h, n, w, permissive, k - 1) + pair_similarity(
            h[w + k - 1],
            n[k - 1],
            permissive,
        )
    }
}

/// Whether the window of `h` starting at `w` is accepted by fuzzy matching:
/// its mean similarity reaches the threshold (a closed lower bound), and,
/// under permissive matching, the uppercase-count rule holds for every pair.
pub open spec fn fuzzy_window_ok(
    h: Seq<TokenView>,
    n: Seq<TokenView>,
    w: int,
    permissive: bool,
    threshold: u64,
) -> bool {
    &&& window_similarity_sum(h, n, w, permissive, n.len() as int) >= (n.len() as int) * (
    threshold as int)
    &&& (permissive ==> upper_window_ok(h, n, w))
}

/// The sum of the window tokens' `len` over `h[w..w + k]`: the character
/// span a match of that window reports.
pub open spec fn window_span(h: Seq<TokenView>, w: int, k: int) -> nat
    decreases k,
{
    if k <= 0 {
        0
    } else {
        window_span(h, w, k - 1) + h[w + k - 1].len
    }
}

/// The first position in `[lo, hi]` that satisfies `ok`, if any.
pub open spec fn first_from(ok: spec_fn(int) -> bool, lo: int, hi: int) -> Option<int>
    decreases hi + 1 - lo,
{
    if lo > hi {
        None
    } else if ok(lo) {
        Some(lo)
    } else {
        first_from(ok, lo + 1, hi)
    }
}

/// What [`first_from`] returns: the least satisfying position, or a witness
/// that none exists.
pub proof fn lemma_first_from_props(ok: spec_fn(int) -> bool, lo: int, hi: int)
    requires
        lo <= hi + 1,
    ensures
        match first_from(ok, lo, hi) {
            Some(w) => lo <= w <= hi && ok(w) && (forall|v: int|
                lo <= v < w ==> !(#[trigger] ok(v))),
            None => forall|v: int| lo <= v <= hi ==> !(#[trigger] ok(v)),
        },
    decreases hi + 1 - lo,
{
    if lo <= hi && !ok(lo) {
        lemma_first_from_props(ok, lo + 1, hi);
    }
}

/// If `w` is a satisfying position and nothing before it satisfies `ok`,
/// then `w` is what [`first_from`] finds.
pub proof fn lemma_first_from_at(ok: spec_fn(int) -> bool, lo: int, hi: int, w: int)
    requires
        lo <= w <= hi,
        ok(w),
        forall|v: int| lo <= v < w ==> !(#[trigger] ok(v)),
    ensures
        first_from(ok, lo, hi) == Some(w),
{
    lemma_first_from_props(ok, lo, hi);
    match first_from(ok, lo, hi) {
        Some(u) => {
            if u < w {
                assert(!ok(u));
            } else if w < u {
                assert(!ok(w));
            }
        },
        None => {
            assert(!ok(w));
        },
    }
}

/// If nothing in `[lo, hi]` satisfies `ok`, [`first_from`] finds nothing.
pub proof fn lemma_first_from_none(ok: spec_fn(int) -> bool, lo: int, hi: int)
    requires
        lo <= hi + 1,
        forall|v: int| lo <= v <= hi ==> !(#[trigger] ok(v)),
    ensures
        first_from(ok, lo, hi) is None,
{
    lemma_first_from_props(ok, lo, hi);
    if let Some(u) = first_from(ok, lo, hi) {
        assert(!ok(u));
    }
}

/// The exact-window predicate as a function of the window position.
pub open spec fn exact_ok_fn(h: Seq<TokenView>, n: Seq<TokenView>, permissive: bool) -> spec_fn(
    int,
) -> bool {
    |w: int| exact_window_ok(h, n, w, permissive)
}

/// The fuzzy-window predicate as a function of the window position.
pub open spec fn fuzzy_ok_fn(
    h: Seq<TokenView>,
    n: Seq<TokenView>,
    permissive: bool,
    threshold: u64,
) -> spec_fn(int) -> bool {
    |w: int| fuzzy_window_ok(h, n, w, permissive, threshold)
}

/// The first exactly-matching window at or after `lo`, if any.
pub open spec fn first_exact_window(
    h: Seq<TokenView>,
    n: Seq<TokenView>,
    permissive: bool,
    lo: int,
) -> Option<int> {
    first_from(exact_ok_fn(h, n, permissive), lo, h.len() - n.len())
}

/// The first fuzzily-accepted window at or after `lo`, if any.
pub open spec fn first_fuzzy_window(
    h: Seq<TokenView>,
    n: Seq<TokenView>,
    permissive: bool,
    threshold: u64,
    lo: int,
) -> Option<int> {
    first_from(fuzzy_ok_fn(h, n, permissive, threshold), lo, h.len() - n.len())
}

/// The match reported for an exactly-matching window at `w`.
pub open spec fn exact_result_at(h: Seq<TokenView>, n: Seq<TokenView>, w: int) -> MatchResult {
    MatchResult::Exact(h[w].start as usize, window_span(h, w, n.len() as int) as usize)
}

/// The match reported for a fuzzily-accepted window at `w`.
pub open spec fn fuzzy_result_at(
    h: Seq<TokenView>,
    n: Seq<TokenView>,
    w: int,
    permissive: bool,
) -> MatchResult {
    MatchResult::Fuzzy(
        h[w].start as usize,
        window_span(h, w, n.len() as int) as usize,
        Score {
            total: window_similarity_sum(h, n, w, permissive, n.len() as int) as u128,
            pairs: n.len() as usize,
        },
    )
}

/// What exact search over the suffix starting at `lo` returns.
pub open spec fn exact_search(
    h: Seq<TokenView>,
    n: Seq<TokenView>,
    permissive: bool,
    lo: int,
) -> Option<MatchResult> {
    match first_exact_window(h, n, permissive, lo) {
        Some(w) => Some(exact_result_at(h, n, w)),
        None => None,
    }
}

/// What fuzzy search over the suffix starting at `lo` returns.
pub open spec fn fuzzy_search(
    h: Seq<TokenView>,
    n: Seq<TokenView>,
    permissive: bool,
    threshold: u64,
    lo: int,
) -> Option<MatchResult> {
    match first_fuzzy_window(h, n, permissive, threshold, lo) {
        Some(w) => Some(fuzzy_result_at(h, n, w, permissive)),
        None => None,
    }
}

/// What [`find_match`] returns when it searches the haystack suffix whose
/// first window position is `lo`: nothing when the needle is empty or longer
/// than the suffix; otherwise the first match under the mode, with `Both`
/// preferring any exact match over any fuzzy one.
pub open spec fn dispatch(
    h: Seq<TokenView>,
    n: Seq<TokenView>,
    mode: MatchMode,
    permissive: bool,
    lo: int,
) -> Option<MatchResult> {
    if n.len() == 0 || h.len() - lo < n.len() {
        None
    } else {
        match mode {
            MatchMode::Exact => exact_search(h, n, permissive, lo),
            MatchMode::Fuzzy(t) => fuzzy_search(h, n, permissive, t, lo),
            MatchMode::Both(t) => match exact_search(h, n, permissive, lo) {
                Some(m) => Some(m),
                None => fuzzy_search(h, n, permissive, t, lo),
            },
        }
    }
}


/// The accumulated span of a window never reaches past the end of its last
/// token's span, so it fits in a `usize`.
proof fn lemma_window_span_bound(h: Seq<TokenView>, w: int, k: int)
    requires
        token_seq_wf(h),
        0 <= w,
        1 <= k,
        w + k <= h.len(),
    ensures
        window_span(h, w, k) + h[w].start <= h[w + k - 1].start + h[w + k - 1].len,
    decreases k,
{
    if k == 1 {
        assert(window_span(h, w, 0) == 0);
        assert(window_span(h, w, 1) == h[w].len);
    } else {
        lemma_window_span_bound(h, w, k - 1);
        assert(h[w + k - 2].start + h[w + k - 2].len <= h[w + k - 1].start);
    }
}

/// Sums the `len` fields of the window `haystack[w..w + k]`.
fn window_span_len(haystack: &[Token], w: usize, k: usize) -> (r: usize)
    requires
        token_seq_wf(token_views(haystack@)),
        1 <= k,
        w + k <= haystack@.len(),
    ensures
        r == window_span(token_views(haystack@), w as int, k as int),
{
    let ghost h = token_views(haystack@);
    let h_len = haystack.len();
    let mut r: usize = 0;
    let mut i: usize = 0;
    while i < k
        invariant
            token_seq_wf(h),
            h == token_views(haystack@),
            h_len == haystack@.len(),
            1 <= k,
            w + k <= h_len,
            i <= k,
            r == window_span(h, w as int, i as int),
        decreases k - i,
    {
        proof {
            lemma_window_span_bound(h, w as int, i + 1 as int);
            assert(h[w + i].start + h[w + i].len <= usize::MAX);
        }
        let t = &haystack[w + i];
        r = r + t.len;
        i = i + 1;
    }
    r
}

/// Decides whether the window of the haystack starting at `w` matches the
/// needle exactly, position by position.
fn window_matches_exact(haystack: &[Token], needle: &[Token], w: usize, permissive: bool) -> (b:
    bool)
    requires
        w + needle@.len() <= haystack@.len(),
    ensures
        b == exact_window_ok(token_views(haystack@), token_views(needle@), w as int, permissive),
{
    let ghost h = token_views(haystack@);
    let ghost n = token_views(needle@);
    let h_len = haystack.len();
    let n_len = needle.len();
    let mut i: usize = 0;
    while i < n_len
        invariant
            h == token_views(haystack@),
            n == token_views(needle@),
            h_len == haystack@.len(),
            n_len == needle@.len(),
            w + n_len <= h_len,
            i <= n_len,
            forall|j: int| 0 <= j < i ==> exact_pair_ok(#[trigger] h[w + j], n[j], permissive),
        decreases n_len - i,
    {
        let ha = &haystack[w + i];
        let ne = &needle[i];
        let pair = if permissive {
            let la = crate::text::lowercase(ha.text.as_str());
            let lb = crate::text::lowercase(ne.text.as_str());
            if la == lb {
                crate::text::count_uppercase(ha.text.as_str()) >= crate::text::count_uppercase(
                    ne.text.as_str(),
                )
            } else {
                false
            }
        } else {
            ha.text == ne.text
        };
        if !pair {
            assert(!exact_pair_ok(h[w + i], n[i as int], permissive));
            return false;
        }
        i = i + 1;
    }
    true
}

/// Decides whether every haystack token of the window carries at least as
/// many uppercase characters as the aligned needle token.
fn window_matches_upper(haystack: &[Token], needle: &[Token], w: usize) -> (b: bool)
    requires
        w + needle@.len() <= haystack@.len(),
    ensures
        b == upper_window_ok(token_views(haystack@), token_views(needle@), w as int),
{
    let ghost h = token_views(haystack@);
    let ghost n = token_views(needle@);
    let h_len = haystack.len();
    let n_len = needle.len();
    let mut i: usize = 0;
    while i < n_len
        invariant
            h == token_views(haystack@),
            n == token_views(needle@),
            h_len == haystack@.len(),
            n_len == needle@.len(),
            w + n_len <= h_len,
            i <= n_len,
            forall|j: int|
                0 <= j < i ==> upper_count(#[trigger] h[w + j].text) >= upper_count(n[j].text),
        decreases n_len - i,
    {
        let ha = &haystack[w + i];
        let ne = &needle[i];
        if crate::text::count_uppercase(ha.text.as_str()) < crate::text::count_uppercase(
            ne.text.as_str(),
        ) {
            assert(upper_count(h[w + i].text) < upper_count(n[i as int].text));
            return false;
        }
        i = i + 1;
    }
    true
}

/// Sums the pairwise similarities of the window of the haystack starting at
/// `w` against the needle.
fn window_score(haystack: &[Token], needle: &[Token], w: usize, permissive: bool) -> (total: u128)
    requires
        w + needle@.len() <= haystack@.len(),
    ensures
        total == window_similarity_sum(
            token_views(haystack@),
            token_views(needle@),
            w as int,
            permissive,
            needle@.len() as int,
        ),
        total <= (needle@.len() as int) * (SIMILARITY_SCALE as int),
{
    let ghost h = token_views(haystack@);
    let ghost n = token_views(needle@);
    let h_len = haystack.len();
    let n_len = needle.len();
    let mut total: u128 = 0;
    let mut i: usize = 0;
    while i < n_len
        invariant
            h == token_views(haystack@),
            n == token_views(needle@),
            h_len == haystack@.len(),
            n_len == needle@.len(),
            w + n_len <= h_len,
            i <= n_len,
            total == window_similarity_sum(h, n, w as int, permissive, i as int),
            total <= (i as int) * (SIMILARITY_SCALE as int),
        decreases n_len - i,
    {
        let ha = &haystack[w + i];
        let ne = &needle[i];
        let s: u64 = if permissive {
            let la = crate::text::lowercase(ha.text.as_str());
            let lb = crate::text::lowercase(ne.text.as_str());
            crate::similarity::similarity_score(la.as_str(), lb.as_str())
        } else {
            crate::similarity::similarity_score(ha.text.as_str(), ne.text.as_str())
        };
        proof {
            assert(s == pair_similarity(h[w + i], n[i as int], permissive));
            vstd::arithmetic::mul::lemma_mul_inequality(
                i + 1 as int,
                n_len as int,
                SIMILARITY_SCALE as int,
            );
            vstd::arithmetic::mul::lemma_mul_inequality(
                n_len as int,
                usize::MAX as int,
                SIMILARITY_SCALE as int,
            );
        }
        total = total + (s as u128);
        i = i + 1;
    }
    total
}

/// Scans the windows at or after `lo` for the first exact match.
fn find_exact_at(haystack: &[Token], needle: &[Token], permissive: bool, lo: usize) -> (r: Option<
    MatchResult,
>)
    requires
        token_seq_wf(token_views(haystack@)),
        1 <= needle@.len(),
        lo + needle@.len() <= haystack@.len(),
    ensures
        r == exact_search(token_views(haystack@), token_views(needle@), permissive, lo as int),
{
    let ghost h = token_views(haystack@);
    let ghost n = token_views(needle@);
    let h_len = haystack.len();
    let n_len = needle.len();
    let hi = h_len - n_len;
    let mut w = lo;
    while w <= hi
        invariant
            h == token_views(haystack@),
            n == token_views(needle@),
            token_seq_wf(h),
            h_len == haystack@.len(),
            n_len == needle@.len(),
            1 <= n_len,
            lo + n_len <= h_len,
            hi == h_len - n_len,
            lo <= w <= hi + 1,
            forall|v: int| lo <= v < w ==> !exact_window_ok(h, n, v, permissive),
        decreases hi + 1 - w,
    {
        if window_matches_exact(haystack, needle, w, permissive) {
            let start = haystack[w].start;
            let length = window_span_len(haystack, w, n_len);
            proof {
                assert forall|v: int| lo <= v < w implies !(#[trigger] exact_ok_fn(
                    h,
                    n,
                    permissive,
                )(v)) by {
                    assert(!exact_window_ok(h, n, v, permissive));
                }
                assert(exact_ok_fn(h, n, permissive)(w as int));
                lemma_first_from_at(exact_ok_fn(h, n, permissive), lo as int, hi as int, w as int);
            }
            return Some(MatchResult::Exact(start, length));
        }
        w = w + 1;
    }
    proof {
        assert forall|v: int| lo <= v <= hi implies !(#[trigger] exact_ok_fn(h, n, permissive)(
            v,
        )) by {
            assert(!exact_window_ok(h, n, v, permissive));
        }
        lemma_first_from_none(exact_ok_fn(h, n, permissive), lo as int, hi as int);
    }
    None
}

/// Scans the windows at or after `lo` for the first fuzzily-accepted match.
fn find_fuzzy_at(
    haystack: &[Token],
    needle: &[Token],
    threshold: u64,
    permissive: bool,
    lo: usize,
) -> (r: Option<MatchResult>)
    requires
        token_seq_wf(token_views(haystack@)),
        1 <= needle@.len(),
        lo + needle@.len() <= haystack@.len(),
    ensures
        r == fuzzy_search(
            token_views(haystack@),
            token_views(needle@),
            permissive,
            threshold,
            lo as int,
        ),
{
    let ghost h = token_views(haystack@);
    let ghost n = token_views(needle@);
    let h_len = haystack.len();
    let n_len = needle.len();
    let hi = h_len - n_len;
    let mut w = lo;
    while w <= hi
        invariant
            h == token_views(haystack@),
            n == token_views(needle@),
            token_seq_wf(h),
            h_len == haystack@.len(),
            n_len == needle@.len(),
            1 <= n_len,
            lo + n_len <= h_len,
            hi == h_len - n_len,
            lo <= w <= hi + 1,
            forall|v: int| lo <= v < w ==> !fuzzy_window_ok(h, n, v, permissive, threshold),
        decreases hi + 1 - w,
    {
        let total = window_score(haystack, needle, w, permissive);
        proof {
            vstd::arithmetic::mul::lemma_mul_upper_bound(
                n_len as int,
                u64::MAX as int,
                threshold as int,
                u64::MAX as int,
            );
        }
        let over_threshold = total >= (n_len as u128) * (threshold as u128);
        let passes = if over_threshold && permissive {
            window_matches_upper(haystack, needle, w)
        } else {
            over_threshold
        };
        proof {
            assert(passes == fuzzy_window_ok(h, n, w as int, permissive, threshold));
        }
        if passes {
            let start = haystack[w].start;
            let length = window_span_len(haystack, w, n_len);
            proof {
                assert forall|v: int| lo <= v < w implies !(#[trigger] fuzzy_ok_fn(
                    h,
                    n,
                    permissive,
                    threshold,
                )(v)) by {
                    assert(!fuzzy_window_ok(h, n, v, permissive, threshold));
                }
                assert(fuzzy_ok_fn(h, n, permissive, threshold)(w as int));
                lemma_first_from_at(
                    fuzzy_ok_fn(h, n, permissive, threshold),
                    lo as int,
                    hi as int,
                    w as int,
                );
            }
            return Some(MatchResult::Fuzzy(start, length, Score { total, pairs: n_len }));
        }
        w = w + 1;
    }
    proof {
        assert forall|v: int| lo <= v <= hi implies !(#[trigger] fuzzy_ok_fn(
            h,
            n,
            permissive,
            threshold,
        )(v)) by {
            assert(!fuzzy_window_ok(h, n, v, permissive, threshold));
        }
        lemma_first_from_none(fuzzy_ok_fn(h, n, permissive, threshold), lo as int, hi as int);
    }
    None
}

/// Searches the haystack suffix whose first window position is `lo`.
fn find_match_at(
    haystack: &[Token],
    needle: &[Token],
    mode: MatchMode,
    permissive: bool,
    lo: usize,
) -> (r: Option<MatchResult>)
    requires
        token_seq_wf(token_views(haystack@)),
        lo <= haystack@.len(),
    ensures
        r == dispatch(token_views(haystack@), token_views(needle@), mode, permissive, lo as int),
{
    let h_len = haystack.len();
    let n_len = needle.len();
    if n_len == 0 || n_len > h_len - lo {
        return None;
    }
    match mode {
        MatchMode::Exact => find_exact_at(haystack, needle, permissive, lo),
        MatchMode::Fuzzy(t) => find_fuzzy_at(haystack, needle, t, permissive, lo),
        MatchMode::Both(t) => {
            let e = find_exact_at(haystack, needle, permissive, lo);
            match e {
                Some(m) => Some(m),
                None => find_fuzzy_at(haystack, needle, t, permissive, lo),
            }
        },
    }
}

/// Matches two token sequences and returns the first match under `mode`.
///
/// Scans every contiguous haystack window of the needle's length, left to
/// right, and returns the first window accepted by the mode; `Both` always
/// prefers an exact match anywhere over a fuzzy match anywhere.  An empty
/// needle, or a needle longer than the haystack, yields no match.
pub fn find_match(
    haystack: &[Token],
    needle: &[Token],
    mode: MatchMode,
    permissive: bool,
) -> (r: Option<MatchResult>)
    requires
        token_seq_wf(token_views(haystack@)),
    ensures
        r == dispatch(token_views(haystack@), token_views(needle@), mode, permissive, 0),
        needle@.len() == 0 || needle@.len() > haystack@.len() ==> r is None,
{
    find_match_at(haystack, needle, mode, permissive, 0)
}



/// Where the repeated search resumes after reporting `m` from the suffix at
/// `cursor`: one token past the sum of the cursor and the match's offset,
/// capped at the end of the haystack.
pub open spec fn next_cursor(h: Seq<TokenView>, cursor: int, m: MatchResult) -> int {
    if cursor + match_offset(m) + 1 > h.len() {
        h.len() as int
    } else {
        cursor + match_offset(m) + 1
    }
}

/// Every match [`find_all_matches`] reports when its cursor starts at
/// `cursor`: the dispatcher's match on the current suffix, followed by the
/// matches of the suffix the cursor advances to; the search stops at the
/// first suffix with no match.
pub open spec fn matches_from(
    h: Seq<TokenView>,
    n: Seq<TokenView>,
    mode: MatchMode,
    permissive: bool,
    cursor: int,
) -> Seq<MatchResult>
    decreases h.len() - cursor
    when 0 <= cursor <= h.len()
{
    match dispatch(h, n, mode, permissive, cursor) {
        Some(m) => seq![m] + matches_from(h, n, mode, permissive, next_cursor(h, cursor, m)),
        None => Seq::empty(),
    }
}

/// Matches two token sequences repeatedly and returns every match, in order
/// of discovery.
///
/// After each match the search resumes one position past the match's start,
/// so staggered overlapping matches are found, but the identical window is
/// never reported twice; the search stops at the first suffix that has no
/// match, which cannot cut further matches off because the dispatcher
/// already searched that whole suffix.
pub fn find_all_matches(
    haystack: &[Token],
    needle: &[Token],
    mode: MatchMode,
    permissive: bool,
) -> (r: Vec<MatchResult>)
    requires
        token_seq_wf(token_views(haystack@)),
    ensures
        r@ == matches_from(token_views(haystack@), token_views(needle@), mode, permissive, 0),
        needle@.len() == 0 || needle@.len() > haystack@.len() ==> r@.len() == 0,
{
    let ghost h = token_views(haystack@);
    let ghost n = token_views(needle@);
    let h_len = haystack.len();
    let n_len = needle.len();
    let mut results: Vec<MatchResult> = Vec::new();
    if n_len == 0 || n_len > h_len {
        proof {
            assert(matches_from(h, n, mode, permissive, 0) =~= Seq::<MatchResult>::empty());
        }
        return results;
    }
    let mut offset: usize = 0;
    while offset < h_len
        invariant
            h == token_views(haystack@),
            n == token_views(needle@),
            token_seq_wf(h),
            h_len == haystack@.len(),
            n_len == needle@.len(),
            1 <= n_len <= h_len,
            offset <= h_len,
            matches_from(h, n, mode, permissive, 0) == results@ + matches_from(
                h,
                n,
                mode,
                permissive,
                offset as int,
            ),
        ensures
            offset <= h_len,
            matches_from(h, n, mode, permissive, 0) == results@ + matches_from(
                h,
                n,
                mode,
                permissive,
                offset as int,
            ),
            offset == h_len || dispatch(h, n, mode, permissive, offset as int) is None,
        decreases h_len - offset,
    {
        let found = find_match_at(haystack, needle, mode, permissive, offset);
        match found {
            Some(m) => {
                let ghost results_before = results@;
                let ghost rest = matches_from(h, n, mode, permissive, next_cursor(h, offset as int, m));
                let start = match m {
                    MatchResult::Exact(s, _) => s,
                    MatchResult::Fuzzy(s, _, _) => s,
                };
                results.push(m);
                proof {
                    assert(matches_from(h, n, mode, permissive, offset as int) == seq![m] + rest);
                    assert((results_before + seq![m]) + rest =~= results_before + (seq![m] + rest));
                }
                if start >= h_len - offset - 1 {
                    proof {
                        assert(next_cursor(h, offset as int, m) == h_len as int);
                    }
                    offset = h_len;
                } else {
                    proof {
                        assert(next_cursor(h, offset as int, m) == offset + start + 1);
                    }
                    offset = offset + start + 1;
                }
            },
            None => {
                proof {
                    assert(matches_from(h, n, mode, permissive, offset as int)
                        =~= Seq::<MatchResult>::empty());
                }
                break;
            },
        }
    }
    proof {
        if offset == h_len {
            assert(matches_from(h, n, mode, permissive, offset as int)
                =~= Seq::<MatchResult>::empty());
        } else {
            assert(matches_from(h, n, mode, permissive, offset as int)
                =~= Seq::<MatchResult>::empty());
        }
        assert(results@ + Seq::<MatchResult>::empty() =~= results@);
    }
    results
}



/// For a non-empty needle no longer than the haystack, strict exact matching
/// reports a match precisely when some contiguous haystack window has
/// identical text to the needle, position by position.
pub proof fn lemma_exact_match_iff(h: Seq<TokenView>, n: Seq<TokenView>)
    requires
        1 <= n.len() <= h.len(),
    ensures
        (dispatch(h, n, MatchMode::Exact, false, 0) is Some) <==> (exists|w: int|
            0 <= w <= h.len() - n.len() && #[trigger] exact_window_ok(h, n, w, false)),
        forall|w: int|
            #[trigger] exact_window_ok(h, n, w, false) <==> (forall|i: int|
                0 <= i < n.len() ==> (#[trigger] h[w + i]).text == n[i].text),
{
    let hi = h.len() - n.len();
    lemma_first_from_props(exact_ok_fn(h, n, false), 0, hi);
    match first_from(exact_ok_fn(h, n, false), 0, hi) {
        Some(w) => {
            assert(exact_window_ok(h, n, w, false));
        },
        None => {
            assert forall|w: int|
                0 <= w <= hi implies !(#[trigger] exact_window_ok(h, n, w, false)) by {
                assert(!exact_ok_fn(h, n, false)(w));
            }
        },
    }
    assert forall|w: int|
        #[trigger] exact_window_ok(h, n, w, false) <==> (forall|i: int|
            0 <= i < n.len() ==> (#[trigger] h[w + i]).text == n[i].text) by {
        if exact_window_ok(h, n, w, false) {
            assert forall|i: int| 0 <= i < n.len() implies (#[trigger] h[w + i]).text
                == n[i].text by {
                assert(exact_pair_ok(h[w + i], n[i], false));
            }
        } else {
            if forall|i: int| 0 <= i < n.len() ==> (#[trigger] h[w + i]).text == n[i].text {
                assert forall|i: int| 0 <= i < n.len() implies exact_pair_ok(
                    #[trigger] h[w + i],
                    n[i],
                    false,
                ) by {
                    assert(h[w + i].text == n[i].text);
                }
            }
        }
    }
}

/// Permissive exact matching is not symmetric in casing: when a haystack
/// token carries strictly fewer uppercase characters than the needle token
/// aligned with it, the window never matches, even if the lowercase forms
/// are equal.
pub proof fn lemma_permissive_casing_asymmetry(
    h: Seq<TokenView>,
    n: Seq<TokenView>,
    w: int,
    i: int,
)
    requires
        0 <= i < n.len(),
        upper_count(h[w + i].text) < upper_count(n[i].text),
    ensures
        !exact_window_ok(h, n, w, true),
{
    if exact_window_ok(h, n, w, true) {
        assert(exact_pair_ok(h[w + i], n[i], true));
    }
}

/// A window's similarity sum over `k` pairs lies between `0` and
/// `k * SIMILARITY_SCALE`.
pub proof fn lemma_window_sum_bounds(
    h: Seq<TokenView>,
    n: Seq<TokenView>,
    w: int,
    permissive: bool,
    k: int,
)
    requires
        0 <= k,
    ensures
        0 <= window_similarity_sum(h, n, w, permissive, k) <= k * (SIMILARITY_SCALE as int),
    decreases k,
{
    if k > 0 {
        lemma_window_sum_bounds(h, n, w, permissive, k - 1);
        if permissive {
            crate::similarity::lemma_similarity_bounds(
                lower_of(h[w + k - 1].text),
                lower_of(n[k - 1].text),
            );
        } else {
            crate::similarity::lemma_similarity_bounds(h[w + k - 1].text, n[k - 1].text);
        }
    }
}

/// Every fuzzy match carries as its score the exact arithmetic mean of the
/// pairwise similarities across its window — the sum over the window paired
/// with the number of pairs — and it is accepted by the closed bound
/// `total >= pairs * threshold`.
pub proof fn lemma_fuzzy_score_is_mean(
    h: Seq<TokenView>,
    n: Seq<TokenView>,
    permissive: bool,
    threshold: u64,
    lo: int,
)
    requires
        0 <= lo,
        1 <= n.len(),
        n.len() <= usize::MAX,
        lo + n.len() <= h.len(),
    ensures
        match dispatch(h, n, MatchMode::Fuzzy(threshold), permissive, lo) {
            Some(m) => exists|w: int|
                {
                    &&& lo <= w <= h.len() - n.len()
                    &&& #[trigger] fuzzy_window_ok(h, n, w, permissive, threshold)
                    &&& m == fuzzy_result_at(h, n, w, permissive)
                    &&& m matches MatchResult::Fuzzy(o, l, sc) && sc.total
                        == window_similarity_sum(h, n, w, permissive, n.len() as int) && sc.pairs
                        == n.len() && sc.total >= (sc.pairs as int) * (threshold as int)
                },
            None => forall|w: int|
                lo <= w <= h.len() - n.len() ==> !(#[trigger] fuzzy_window_ok(
                    h,
                    n,
                    w,
                    permissive,
                    threshold,
                )),
        },
{
    let hi = h.len() - n.len();
    lemma_first_from_props(fuzzy_ok_fn(h, n, permissive, threshold), lo, hi);
    match first_from(fuzzy_ok_fn(h, n, permissive, threshold), lo, hi) {
        Some(w) => {
            assert(fuzzy_window_ok(h, n, w, permissive, threshold));
            lemma_window_sum_bounds(h, n, w, permissive, n.len() as int);
            vstd::arithmetic::mul::lemma_mul_inequality(
                n.len() as int,
                usize::MAX as int,
                SIMILARITY_SCALE as int,
            );
            let m = fuzzy_result_at(h, n, w, permissive);
            assert(m matches MatchResult::Fuzzy(o, l, sc) && sc.total == window_similarity_sum(
                h,
                n,
                w,
                permissive,
                n.len() as int,
            ) && sc.pairs == n.len());
        },
        None => {
            assert forall|w: int|
                lo <= w <= hi implies !(#[trigger] fuzzy_window_ok(
                h,
                n,
                w,
                permissive,
                threshold,
            )) by {
                assert(!fuzzy_ok_fn(h, n, permissive, threshold)(w));
            }
        },
    }
}

/// A score exactly equal to the threshold is accepted: the bound is closed.
pub proof fn lemma_threshold_is_closed(
    h: Seq<TokenView>,
    n: Seq<TokenView>,
    w: int,
    permissive: bool,
    threshold: u64,
)
    requires
        window_similarity_sum(h, n, w, permissive, n.len() as int) == (n.len() as int) * (
        threshold as int),
        permissive ==> upper_window_ok(h, n, w),
    ensures
        fuzzy_window_ok(h, n, w, permissive, threshold),
{
}

/// `Both` mode never reports a fuzzy result when an exact result exists for
/// the same needle and haystack: whenever any window matches exactly, the
/// dispatcher's answer is the exact search's answer.
pub proof fn lemma_both_prefers_exact(
    h: Seq<TokenView>,
    n: Seq<TokenView>,
    permissive: bool,
    threshold: u64,
)
    requires
        1 <= n.len() <= h.len(),
        exists|w: int| 0 <= w <= h.len() - n.len() && #[trigger] exact_window_ok(h, n, w, permissive),
    ensures
        dispatch(h, n, MatchMode::Both(threshold), permissive, 0) == exact_search(
            h,
            n,
            permissive,
            0,
        ),
        dispatch(h, n, MatchMode::Both(threshold), permissive, 0) matches Some(m) && m matches
            MatchResult::Exact(o, l),
{
    let hi = h.len() - n.len();
    lemma_first_from_props(exact_ok_fn(h, n, permissive), 0, hi);
    match first_from(exact_ok_fn(h, n, permissive), 0, hi) {
        Some(w) => {
        },
        None => {
            let w0 = choose|w: int|
                0 <= w <= h.len() - n.len() && #[trigger] exact_window_ok(h, n, w, permissive);
            assert(!exact_ok_fn(h, n, permissive)(w0));
        },
    }
}

/// In a well-formed token sequence, a token's `start` is at least its index:
/// starts begin at or above zero and each is strictly above the one before.
proof fn lemma_wf_start_ge_index(h: Seq<TokenView>, i: int)
    requires
        token_seq_wf(h),
        0 <= i < h.len(),
    ensures
        h[i].start >= i,
    decreases i,
{
    if i > 0 {
        lemma_wf_start_ge_index(h, i - 1);
        assert(h[i - 1].start + h[i - 1].len <= h[i].start);
        assert(h[i - 1].len >= 1);
    }
}

/// Any match the dispatcher reports sits at some window position in range,
/// and its offset is that window's first token's `start`.
proof fn lemma_dispatch_match_window(
    h: Seq<TokenView>,
    n: Seq<TokenView>,
    mode: MatchMode,
    permissive: bool,
    lo: int,
)
    requires
        token_seq_wf(h),
        0 <= lo,
    ensures
        match dispatch(h, n, mode, permissive, lo) {
            Some(m) => exists|w: int|
                lo <= w <= h.len() - n.len() && match_offset(m) == (#[trigger] h[w]).start,
            None => true,
        },
{
    if dispatch(h, n, mode, permissive, lo) is Some {
        let hi = h.len() - n.len();
        assert(n.len() >= 1 && lo <= hi);
        match mode {
            MatchMode::Exact => {
                lemma_first_from_props(exact_ok_fn(h, n, permissive), lo, hi);
                let w = first_from(exact_ok_fn(h, n, permissive), lo, hi)->Some_0;
                assert(h[w].start + h[w].len <= usize::MAX);
                assert(match_offset(exact_result_at(h, n, w)) == h[w].start);
            },
            MatchMode::Fuzzy(t) => {
                lemma_first_from_props(fuzzy_ok_fn(h, n, permissive, t), lo, hi);
                let w = first_from(fuzzy_ok_fn(h, n, permissive, t), lo, hi)->Some_0;
                assert(h[w].start + h[w].len <= usize::MAX);
                assert(match_offset(fuzzy_result_at(h, n, w, permissive)) == h[w].start);
            },
            MatchMode::Both(t) => {
                lemma_first_from_props(exact_ok_fn(h, n, permissive), lo, hi);
                lemma_first_from_props(fuzzy_ok_fn(h, n, permissive, t), lo, hi);
                match first_from(exact_ok_fn(h, n, permissive), lo, hi) {
                    Some(w) => {
                        assert(h[w].start + h[w].len <= usize::MAX);
                        assert(match_offset(exact_result_at(h, n, w)) == h[w].start);
                    },
                    None => {
                        let w = first_from(fuzzy_ok_fn(h, n, permissive, t), lo, hi)->Some_0;
                        assert(h[w].start + h[w].len <= usize::MAX);
                        assert(match_offset(fuzzy_result_at(h, n, w, permissive)) == h[w].start);
                    },
                }
            },
        }
    }
}

proof fn lemma_matches_from_increasing(
    h: Seq<TokenView>,
    n: Seq<TokenView>,
    mode: MatchMode,
    permissive: bool,
    cursor: int,
)
    requires
        token_seq_wf(h),
        0 <= cursor <= h.len(),
    ensures
        ({
            let ms = matches_from(h, n, mode, permissive, cursor);
            &&& forall|i: int, j: int|
                0 <= i < j < ms.len() ==> match_offset(#[trigger] ms[i]) < match_offset(
                    #[trigger] ms[j],
                )
            &&& cursor < h.len() ==> forall|i: int|
                0 <= i < ms.len() ==> match_offset(#[trigger] ms[i]) >= h[cursor].start
        }),
    decreases h.len() - cursor,
{
    let ms = matches_from(h, n, mode, permissive, cursor);
    match dispatch(h, n, mode, permissive, cursor) {
        None => {
            assert(ms =~= Seq::<MatchResult>::empty());
        },
        Some(m) => {
            assert(n.len() >= 1 && cursor + n.len() <= h.len());
            lemma_dispatch_match_window(h, n, mode, permissive, cursor);
            let w = choose|w: int|
                cursor <= w <= h.len() - n.len() && match_offset(m) == (#[trigger] h[w]).start;
            lemma_wf_start_ge_index(h, w);
            if cursor < w {
                crate::token::lemma_wf_starts_increase(h, cursor, w);
            }
            let c2 = next_cursor(h, cursor, m);
            assert(cursor < c2 <= h.len());
            lemma_matches_from_increasing(h, n, mode, permissive, c2);
            let ms2 = matches_from(h, n, mode, permissive, c2);
            assert(ms == seq![m] + ms2);
            assert(ms[0] == m);
            assert(forall|i: int| 0 <= i < ms2.len() ==> ms[i + 1] == ms2[i]);
            if ms2.len() > 0 {
                assert(dispatch(h, n, mode, permissive, c2) is Some);
                assert(c2 + n.len() <= h.len());
                assert(c2 < h.len());
                assert(c2 == cursor + match_offset(m) + 1);
                assert(c2 > w);
                crate::token::lemma_wf_starts_increase(h, w, c2);
                assert(h[c2].start > h[w].start);
                assert(forall|i: int|
                    0 <= i < ms2.len() ==> match_offset(#[trigger] ms2[i]) >= h[c2].start);
            }
        },
    }
}

/// The matches of [`find_all_matches`] come in strictly increasing offset
/// order: each later match starts past the start of the one before it,
/// because the cursor advances past the previous match's start.
pub proof fn lemma_matches_strictly_increase(
    h: Seq<TokenView>,
    n: Seq<TokenView>,
    mode: MatchMode,
    permissive: bool,
)
    requires
        token_seq_wf(h),
    ensures
        ({
            let ms = matches_from(h, n, mode, permissive, 0);
            forall|i: int, j: int|
                0 <= i < j < ms.len() ==> match_offset(#[trigger] ms[i]) < match_offset(
                    #[trigger] ms[j],
                )
        }),
{
    lemma_matches_from_increasing(h, n, mode, permissive, 0);
}


} // verus!
