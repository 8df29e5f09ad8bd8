//! Tokenizes natural-language text into normalized tokens and locates
//! occurrences of a short token sequence (the needle) inside a longer one
//! (the haystack), with exact, fuzzy, and case-permissive matching.

mod algorithm;
mod matching;
mod similarity;
mod text;
mod token;
mod tokenize;

pub use algorithm::Algorithm;
pub use algorithm::Error;
pub use algorithm::lemma_code_round_trip;
pub use matching::MatchMode;
pub use matching::MatchResult;
pub use matching::Score;
pub use matching::dispatch;
pub use matching::exact_pair_ok;
pub use matching::exact_window_ok;
pub use matching::find_all_matches;
pub use matching::find_match;
pub use matching::fuzzy_window_ok;
pub use matching::lemma_both_prefers_exact;
pub use matching::lemma_exact_match_iff;
pub use matching::lemma_fuzzy_score_is_mean;
pub use matching::lemma_matches_strictly_increase;
pub use matching::lemma_permissive_casing_asymmetry;
pub use matching::lemma_threshold_is_closed;
pub use matching::match_offset;
pub use matching::matches_from;
pub use matching::upper_window_ok;
pub use matching::window_similarity_sum;
pub use matching::window_span;
pub use similarity::SIMILARITY_SCALE;
pub use similarity::edit_distance;
pub use similarity::similarity;
pub use similarity::similarity_score;
pub use similarity::lemma_edit_distance_zero_iff;
pub use similarity::lemma_similarity_bounds;
pub use similarity::lemma_similarity_identical;
pub use text::char_count;
pub use text::char_is_upper;
pub use text::count_uppercase;
pub use text::lower_of;
pub use text::upper_count;
pub use token::Token;
pub use token::TokenView;
pub use token::token_seq_wf;
pub use token::token_views;
pub use tokenize::auto_breaks_of;
pub use tokenize::breaks_wf;
pub use tokenize::has_alnum;
pub use tokenize::has_snowball_stemmer;
pub use tokenize::lstm_breaks_of;
pub use tokenize::nfkc_of;
pub use tokenize::punct_char;
pub use tokenize::snowball_name_spec;
pub use tokenize::stem_of;
pub use tokenize::trim_quotes;
pub use tokenize::words_of;
pub use tokenize::words_wf;
pub use tokenize::segment_model;
pub use tokenize::snowball_model;
pub use tokenize::spec_has_backend;
pub use tokenize::stemmed_text;
pub use tokenize::tokenize;
pub use tokenize::tokenize_cjk;
pub use tokenize::tokenize_model;
