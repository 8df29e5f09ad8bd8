use language_tokenizer::{
    find_all_matches, find_match, MatchMode, MatchResult, Score, Token, SIMILARITY_SCALE,
};

fn tok(text: &str, start: usize, len: usize) -> Token {
    Token {
        text: text.to_string(),
        start,
        len,
    }
}

#[test]
fn empty_needle_no_match() {
    let haystack = vec![tok("alpha", 0, 5), tok("beta", 6, 4)];
    let needle: Vec<Token> = Vec::new();
    assert_eq!(find_match(&haystack, &needle, MatchMode::Exact, false), None);
    assert_eq!(
        find_match(&haystack, &needle, MatchMode::Fuzzy(0), false),
        None
    );
    assert!(find_all_matches(&haystack, &needle, MatchMode::Both(0), false).is_empty());
}

#[test]
fn needle_longer_than_haystack_no_match() {
    let haystack = vec![tok("alpha", 0, 5)];
    let needle = vec![tok("alpha", 0, 5), tok("beta", 6, 4)];
    assert_eq!(find_match(&haystack, &needle, MatchMode::Exact, false), None);
    assert_eq!(
        find_match(&haystack, &needle, MatchMode::Both(0), false),
        None
    );
    assert!(find_all_matches(&haystack, &needle, MatchMode::Exact, false).is_empty());
}

#[test]
fn exact_match_first_window_reported() {
    let haystack = vec![
        tok("the", 0, 3),
        tok("cat", 4, 3),
        tok("sat", 8, 3),
        tok("cat", 12, 3),
    ];
    let needle = vec![tok("cat", 0, 3)];
    assert_eq!(
        find_match(&haystack, &needle, MatchMode::Exact, false),
        Some(MatchResult::Exact(4, 3))
    );
}

#[test]
fn exact_match_length_sums_window_spans() {
    // The reported length sums the window tokens' original spans, not the
    // needle's.
    let haystack = vec![tok("run", 0, 7), tok("fast", 8, 4)];
    let needle = vec![tok("run", 0, 3), tok("fast", 4, 4)];
    assert_eq!(
        find_match(&haystack, &needle, MatchMode::Exact, false),
        Some(MatchResult::Exact(0, 11))
    );
}

#[test]
fn exact_case_sensitive_no_match() {
    let haystack = vec![tok("downtown", 0, 8)];
    let needle = vec![tok("Downtown", 0, 8)];
    assert_eq!(find_match(&haystack, &needle, MatchMode::Exact, false), None);
}

#[test]
fn permissive_rejects_less_uppercased_haystack() {
    // The lowercase forms agree, but the haystack token carries strictly
    // fewer uppercase characters than the needle token: never a match.
    let haystack = vec![tok("downtown", 0, 8)];
    let needle = vec![tok("Downtown", 0, 8)];
    assert_eq!(find_match(&haystack, &needle, MatchMode::Exact, true), None);
}

#[test]
fn permissive_accepts_more_uppercased_haystack() {
    let haystack = vec![tok("DOWNTOWN", 0, 8)];
    let needle = vec![tok("Downtown", 0, 8)];
    assert_eq!(
        find_match(&haystack, &needle, MatchMode::Exact, true),
        Some(MatchResult::Exact(0, 8))
    );
}

#[test]
fn fuzzy_permissive_uppercase_rule() {
    // "THE DOWNTOWN" as haystack tokens against needle "Downtown" at a 0.85
    // threshold: the DOWNTOWN window scores 1.0 and the haystack token is at
    // least as uppercased as the needle's, so the match succeeds.
    let haystack = vec![tok("THE", 0, 3), tok("DOWNTOWN", 4, 8)];
    let needle = vec![tok("Downtown", 0, 8)];
    assert_eq!(
        find_match(&haystack, &needle, MatchMode::Fuzzy(850_000), true),
        Some(MatchResult::Fuzzy(
            4,
            8,
            Score {
                total: SIMILARITY_SCALE as u128,
                pairs: 1
            }
        ))
    );
}

#[test]
fn fuzzy_permissive_rejects_less_uppercased_haystack() {
    let haystack = vec![tok("downtown", 0, 8)];
    let needle = vec![tok("DOWNTOWN", 0, 8)];
    assert_eq!(
        find_match(&haystack, &needle, MatchMode::Fuzzy(850_000), true),
        None
    );
}

#[test]
fn fuzzy_score_is_exact_similarity() {
    // levenshtein("color", "colour") = 1 over a longer length of 6:
    // the similarity is floor(1_000_000 * 5 / 6) = 833_333.
    let haystack = vec![tok("color", 0, 5)];
    let needle = vec![tok("colour", 0, 6)];
    assert_eq!(
        find_match(&haystack, &needle, MatchMode::Fuzzy(800_000), false),
        Some(MatchResult::Fuzzy(
            0,
            5,
            Score {
                total: 833_333,
                pairs: 1
            }
        ))
    );
}

#[test]
fn fuzzy_threshold_is_closed_bound() {
    let haystack = vec![tok("color", 0, 5)];
    let needle = vec![tok("colour", 0, 6)];
    // A score exactly equal to the threshold is accepted.
    assert!(find_match(&haystack, &needle, MatchMode::Fuzzy(833_333), false).is_some());
    // One unit above it is not.
    assert!(find_match(&haystack, &needle, MatchMode::Fuzzy(833_334), false).is_none());
}

#[test]
fn fuzzy_score_is_mean_over_pairs() {
    // Pairwise similarities 833_333 and 1_000_000; the score is their exact
    // mean, kept as the pair (sum, count).
    let haystack = vec![tok("color", 0, 5), tok("theory", 6, 6)];
    let needle = vec![tok("colour", 0, 6), tok("theory", 7, 6)];
    assert_eq!(
        find_match(&haystack, &needle, MatchMode::Fuzzy(900_000), false),
        Some(MatchResult::Fuzzy(
            0,
            11,
            Score {
                total: 1_833_333,
                pairs: 2
            }
        ))
    );
    // Acceptance compares total against pairs * threshold, closed below:
    // 1_833_333 >= 2 * 916_666 holds, 1_833_333 >= 2 * 916_667 does not.
    assert!(find_match(&haystack, &needle, MatchMode::Fuzzy(916_666), false).is_some());
    assert!(find_match(&haystack, &needle, MatchMode::Fuzzy(916_667), false).is_none());
}

#[test]
fn both_prefers_exact_over_earlier_fuzzy() {
    // With a zero threshold the very first window would match fuzzily, but
    // an exact match exists later: Both reports the exact one.
    let haystack = vec![tok("abc", 0, 3), tok("abd", 4, 3)];
    let needle = vec![tok("abd", 0, 3)];
    assert_eq!(
        find_match(&haystack, &needle, MatchMode::Both(0), false),
        Some(MatchResult::Exact(4, 3))
    );
}

#[test]
fn both_falls_back_to_fuzzy() {
    let haystack = vec![tok("color", 0, 5)];
    let needle = vec![tok("colour", 0, 6)];
    assert_eq!(
        find_match(&haystack, &needle, MatchMode::Both(800_000), false),
        Some(MatchResult::Fuzzy(
            0,
            5,
            Score {
                total: 833_333,
                pairs: 1
            }
        ))
    );
}

#[test]
fn threshold_above_scale_never_matches() {
    let haystack = vec![tok("same", 0, 4)];
    let needle = vec![tok("same", 0, 4)];
    assert_eq!(
        find_match(&haystack, &needle, MatchMode::Fuzzy(SIMILARITY_SCALE + 1), false),
        None
    );
}

#[test]
fn zero_threshold_always_matches_on_score() {
    let haystack = vec![tok("aaa", 0, 3)];
    let needle = vec![tok("zzz", 0, 3)];
    assert_eq!(
        find_match(&haystack, &needle, MatchMode::Fuzzy(0), false),
        Some(MatchResult::Fuzzy(0, 3, Score { total: 0, pairs: 1 }))
    );
}

#[test]
fn find_all_matches_offsets_strictly_increase() {
    let haystack = vec![
        tok("a", 0, 1),
        tok("b", 2, 1),
        tok("a", 4, 1),
        tok("b", 6, 1),
        tok("a", 8, 1),
    ];
    let needle = vec![tok("a", 0, 1)];
    let all = find_all_matches(&haystack, &needle, MatchMode::Exact, false);
    assert_eq!(
        all,
        vec![MatchResult::Exact(0, 1), MatchResult::Exact(4, 1)]
    );
    let mut prev: Option<usize> = None;
    for m in &all {
        let offset = match *m {
            MatchResult::Exact(o, _) => o,
            MatchResult::Fuzzy(o, _, _) => o,
        };
        if let Some(p) = prev {
            assert!(offset > p);
        }
        prev = Some(offset);
    }
}

#[test]
fn find_all_matches_staggered_windows() {
    let haystack = vec![
        tok("a", 0, 1),
        tok("b", 2, 1),
        tok("a", 4, 1),
        tok("b", 6, 1),
    ];
    let needle = vec![tok("a", 0, 1), tok("b", 2, 1)];
    let all = find_all_matches(&haystack, &needle, MatchMode::Exact, false);
    assert_eq!(
        all,
        vec![MatchResult::Exact(0, 2), MatchResult::Exact(4, 2)]
    );
}

#[test]
fn find_all_matches_fuzzy_mode() {
    let haystack = vec![
        tok("color", 0, 5),
        tok("and", 6, 3),
        tok("colour", 10, 6),
    ];
    let needle = vec![tok("colour", 0, 6)];
    let all = find_all_matches(&haystack, &needle, MatchMode::Fuzzy(800_000), false);
    assert_eq!(
        all,
        vec![
            MatchResult::Fuzzy(
                0,
                5,
                Score {
                    total: 833_333,
                    pairs: 1
                }
            ),
            MatchResult::Fuzzy(
                10,
                6,
                Score {
                    total: SIMILARITY_SCALE as u128,
                    pairs: 1
                }
            ),
        ]
    );
}

#[test]
fn find_all_matches_none_found() {
    let haystack = vec![tok("x", 0, 1), tok("y", 2, 1)];
    let needle = vec![tok("z", 0, 1)];
    assert!(find_all_matches(&haystack, &needle, MatchMode::Exact, false).is_empty());
}

#[test]
fn token_equality_ignores_position() {
    assert_eq!(tok("same", 0, 4), tok("same", 10, 4));
    assert_ne!(tok("one", 0, 3), tok("two", 0, 3));
}
