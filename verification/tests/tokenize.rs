use language_tokenizer::{
    char_count, count_uppercase, find_all_matches, find_match, similarity_score, tokenize,
    Algorithm, Error, MatchMode, MatchResult, SIMILARITY_SCALE,
};

#[test]
fn algorithm_families() {
    assert!(Algorithm::English.is_snowball());
    assert!(Algorithm::Russian.is_snowball());
    assert!(Algorithm::Unspecified.is_snowball());
    assert!(!Algorithm::Japanese.is_snowball());
    assert!(Algorithm::Japanese.is_cjk());
    assert!(Algorithm::Chinese.is_cjk());
    assert!(Algorithm::Korean.is_cjk());
    assert!(!Algorithm::Thai.is_cjk());
    assert!(Algorithm::Thai.is_southeast_asian());
    assert!(Algorithm::Burmese.is_southeast_asian());
    assert!(Algorithm::Lao.is_southeast_asian());
    assert!(Algorithm::Khmer.is_southeast_asian());
    assert!(!Algorithm::English.is_southeast_asian());
}

#[test]
fn tokenize_english_stems_and_offsets() {
    let text = "that's someone who can rizz just like a skibidi! zoomer slang rocks, 67";
    let tokens = tokenize(text, Algorithm::English, false).unwrap();
    let texts: Vec<&str> = tokens.iter().map(|t| t.text.as_str()).collect();
    assert_eq!(
        texts,
        vec![
            "that", "someon", "who", "can", "rizz", "just", "like", "a", "skibidi", "zoomer",
            "slang", "rock", "67"
        ]
    );
    // Offsets and lengths are measured in characters of the original input.
    assert_eq!(tokens[0].start, 0);
    assert_eq!(tokens[0].len, 6);
    assert_eq!(tokens[6].start, 33);
    assert_eq!(tokens[6].len, 4);
}

#[test]
fn tokenize_no_backend_errors() {
    assert_eq!(
        tokenize("text", Algorithm::Unspecified, false),
        Err(Error::NoTokenizer(Algorithm::Unspecified))
    );
    assert_eq!(
        tokenize("텍스트", Algorithm::Korean, false),
        Err(Error::NoTokenizer(Algorithm::Korean))
    );
}

#[test]
fn tokenize_empty_text() {
    let tokens = tokenize("", Algorithm::English, false).unwrap();
    assert!(tokens.is_empty());
}

#[test]
fn tokenize_case_sensitive_keeps_case() {
    let tokens = tokenize("The Downtown", Algorithm::English, true).unwrap();
    let texts: Vec<&str> = tokens.iter().map(|t| t.text.as_str()).collect();
    assert_eq!(texts, vec!["The", "Downtown"]);
    let lowered = tokenize("The Downtown", Algorithm::English, false).unwrap();
    let lowered_texts: Vec<&str> = lowered.iter().map(|t| t.text.as_str()).collect();
    assert_eq!(lowered_texts, vec!["the", "downtown"]);
}

#[test]
fn exact_match_on_tokenized_text() {
    let haystack = "that's someone who can rizz just like a skibidi";
    let needle = "like a skibidi";
    let haystack = tokenize(haystack, Algorithm::English, false).unwrap();
    let needle = tokenize(needle, Algorithm::English, false).unwrap();
    let found = find_match(&haystack, &needle, MatchMode::Exact, false);
    // One match, at the character position of "like", spanning the three
    // matched tokens' original spans.
    assert_eq!(found, Some(MatchResult::Exact(33, 12)));
    let all = find_all_matches(&haystack, &needle, MatchMode::Exact, false);
    assert_eq!(all, vec![MatchResult::Exact(33, 12)]);
}

#[test]
fn stemmed_match_across_inflection() {
    let needle = tokenize("run fast", Algorithm::English, false).unwrap();
    let haystack = tokenize(
        "She was running fast to catch the bus.",
        Algorithm::English,
        false,
    )
    .unwrap();
    assert!(find_match(&haystack, &needle, MatchMode::Exact, false).is_some());
}

#[test]
fn fuzzy_match_on_tokenized_text() {
    let needle = tokenize("color theory", Algorithm::English, false).unwrap();
    let haystack = tokenize(
        "This course focuses on colour theory fundamentals.",
        Algorithm::English,
        false,
    )
    .unwrap();
    assert!(find_match(&haystack, &needle, MatchMode::Fuzzy(800_000), false).is_some());
    let missing = tokenize("quantum computing", Algorithm::English, false).unwrap();
    assert!(find_match(&haystack, &missing, MatchMode::Fuzzy(800_000), false).is_none());
}

#[test]
fn tokenize_japanese_segments() {
    let tokens = tokenize("こんにちは世界", Algorithm::Japanese, false).unwrap();
    let texts: Vec<&str> = tokens.iter().map(|t| t.text.as_str()).collect();
    assert_eq!(texts, vec!["こんにちは", "世界"]);
    assert_eq!(tokens[0].start, 0);
    assert_eq!(tokens[0].len, 5);
    assert_eq!(tokens[1].start, 5);
    assert_eq!(tokens[1].len, 2);
}

#[test]
fn japanese_match() {
    let haystack = tokenize("人工知能は多くの分野で使われています。", Algorithm::Japanese, false).unwrap();
    let needle = tokenize("人工知能", Algorithm::Japanese, false).unwrap();
    assert!(find_match(&haystack, &needle, MatchMode::Exact, false).is_some());
}

#[test]
fn tokenize_thai_segments() {
    let tokens = tokenize("ทุกสองสัปดาห์", Algorithm::Thai, false).unwrap();
    assert_eq!(tokens.len(), 3);
    assert_eq!(tokens[0].start, 0);
    assert_eq!(tokens[0].len, 3);
    assert_eq!(tokens[1].start, 3);
    assert_eq!(tokens[1].len, 3);
    assert_eq!(tokens[2].start, 6);
    assert_eq!(tokens[2].len, 7);
}

#[test]
fn tokenize_applies_nfkc() {
    // The ligature in the original text is three characters; its NFKC form
    // "file" is what gets stemmed.
    let tokens = tokenize("\u{fb01}le cabinet", Algorithm::English, false).unwrap();
    assert_eq!(tokens[0].text, "file");
    assert_eq!(tokens[0].start, 0);
    assert_eq!(tokens[0].len, 3);
    assert_eq!(tokens[1].start, 4);
}

#[test]
fn similarity_exact_values() {
    assert_eq!(similarity_score("kitten", "sitting"), 571_428);
    assert_eq!(similarity_score("same", "same"), SIMILARITY_SCALE);
    assert_eq!(similarity_score("", ""), SIMILARITY_SCALE);
    assert_eq!(similarity_score("abc", ""), 0);
}

#[test]
fn algorithm_wire_codes() {
    assert_eq!(Algorithm::Unspecified.code(), -1);
    assert_eq!(Algorithm::Arabic.code(), 0);
    assert_eq!(Algorithm::English.code(), 7);
    assert_eq!(Algorithm::Khmer.code(), 39);
    assert_eq!(Algorithm::from_code(7), Algorithm::English);
    assert_eq!(Algorithm::from_code(-1), Algorithm::Unspecified);
    assert_eq!(Algorithm::from_code(40), Algorithm::Unspecified);
    assert_eq!(Algorithm::from_code(-5), Algorithm::Unspecified);
    for code in -1..40 {
        let a = Algorithm::from_code(code);
        assert_eq!(a.code(), code);
    }
}

#[test]
fn character_counts() {
    assert_eq!(count_uppercase("AbC"), 2);
    assert_eq!(count_uppercase("downtown"), 0);
    assert_eq!(count_uppercase("DOWNTOWN"), 8);
    assert_eq!(char_count("héllo"), 5);
    assert_eq!(char_count("世界"), 2);
    assert_eq!(char_count(""), 0);
}
