//! Tokenization: turning raw text into well-formed [`Token`] sequences.
//!
//! Three families of backends produce tokens.  Snowball languages are split
//! into words, normalized, and stemmed; the CJK and Southeast Asian
//! languages are segmented by dictionary- or model-based word-boundary
//! analysis.  Whatever the backend, every token records the character offset
//! and character length of the original span it was derived from, and the
//! resulting sequence is ordered and non-overlapping, which is what the
//! matching engine requires of a haystack.

use vstd::prelude::*;

use unicode_normalization::UnicodeNormalization;
use unicode_segmentation::UnicodeSegmentation;

use crate::algorithm::Algorithm;
use crate::algorithm::Error;
use crate::text::byte_to_char;
use crate::text::char_is_alpha;
use crate::text::char_is_num;
use crate::text::lower_of;
use crate::token::Token;
use crate::token::TokenView;
use crate::token::token_seq_wf;
use crate::token::token_views;

verus! {

use vstd::utf8::encode_utf8;

/// The words of a text as `unicode_word_indices` yields them: each word's
/// byte offset in the text, and its characters.  A function of the text
/// alone.
pub uninterp spec fn words_of(s: Seq<char>) -> Seq<(nat, Seq<char>)>;

/// The NFKC normalization of a character sequence, as produced by
/// `unicode_normalization`.  A function of the characters alone.
pub uninterp spec fn nfkc_of(s: Seq<char>) -> Seq<char>;

/// The Snowball stem of `word` under the algorithm named `name`.  A function
/// of its arguments alone.
pub uninterp spec fn stem_of(name: Seq<char>, word: Seq<char>) -> Seq<char>;

/// The word-boundary byte positions that the automatic ICU segmenter yields
/// for a text.  A function of the text alone.
pub uninterp spec fn auto_breaks_of(s: Seq<char>) -> Seq<nat>;

/// The word-boundary byte positions that the LSTM-based ICU segmenter
/// yields for a text.  A function of the text alone.
pub uninterp spec fn lstm_breaks_of(s: Seq<char>) -> Seq<nat>;

/// A word of `w` characters stands in `s` at byte offset `b`: some
/// character position `c` lies on that byte boundary and the word's
/// characters appear there.
pub open spec fn word_at(s: Seq<char>, b: nat, w: Seq<char>) -> bool {
    exists|c: int|
        0 <= c && c + w.len() <= s.len() && (#[trigger] encode_utf8(s.take(c))).len() == b
            && s.subrange(c, c + w.len()) == w
}

/// What word segmentation guarantees: every word is a substring at its byte
/// offset, and words appear in order without overlapping.
pub open spec fn words_wf(s: Seq<char>, ws: Seq<(nat, Seq<char>)>) -> bool {
    &&& forall|i: int| 0 <= i < ws.len() ==> word_at(s, (#[trigger] ws[i]).0, ws[i].1)
    &&& forall|i: int, j: int|
        0 <= i < j < ws.len() ==> (#[trigger] ws[i]).0 + encode_utf8(ws[i].1).len() <= (
        #[trigger] ws[j]).0
}

/// What boundary segmentation guarantees: byte positions strictly increase
/// and each lies on a character boundary of the text.
pub open spec fn breaks_wf(s: Seq<char>, bs: Seq<nat>) -> bool {
    &&& forall|i: int, j: int| 0 <= i < j < bs.len() ==> (#[trigger] bs[i]) < (#[trigger] bs[j])
    &&& forall|i: int|
        0 <= i < bs.len() ==> exists|c: int|
            0 <= c <= s.len() && (#[trigger] encode_utf8(s.take(c))).len() == (#[trigger] bs[i])
}

/// Relies on unicode_segmentation::UnicodeSegmentation::unicode_word_indices:
/// yields the words of the text and their byte offsets, in order, each word
/// being a substring of the text at its offset.
#[verifier::external_body]
fn word_indices(text: &str) -> (r: Vec<(usize, String)>)
    ensures
        r@.map_values(|p: (usize, String)| (p.0 as nat, p.1@)) == words_of(text@),
        words_wf(text@, r@.map_values(|p: (usize, String)| (p.0 as nat, p.1@))),
{
    text.unicode_word_indices().map(|(i, w)| (i, w.to_string())).collect()
}

/// Relies on unicode_normalization::UnicodeNormalization::nfkc: the NFKC
/// normalization of the string; the result depends on the characters alone.
#[verifier::external_body]
fn normalize_nfkc(s: &str) -> (r: String)
    ensures
        r@ == nfkc_of(s@),
{
    s.nfkc().collect()
}

/// Whether the language is stemmed by a concrete Snowball algorithm (every
/// Snowball-family language except [`Algorithm::Unspecified`], which names
/// no algorithm).
pub open spec fn has_snowball_stemmer(a: Algorithm) -> bool {
    a.spec_is_snowball() && a != Algorithm::Unspecified
}

/// The name under which the Snowball crate knows each stemming algorithm.
pub open spec fn snowball_name_spec(a: Algorithm) -> Seq<char> {
    match a {
        Algorithm::Arabic => "arabic"@,
        Algorithm::Armenian => "armenian"@,
        Algorithm::Basque => "basque"@,
        Algorithm::Catalan => "catalan"@,
        Algorithm::Danish => "danish"@,
        Algorithm::Dutch => "dutch"@,
        Algorithm::DutchPorter => "dutch_porter"@,
        Algorithm::English => "english"@,
        Algorithm::Esperanto => "esperanto"@,
        Algorithm::Estonian => "estonian"@,
        Algorithm::Finnish => "finnish"@,
        Algorithm::French => "french"@,
        Algorithm::German => "german"@,
        Algorithm::Greek => "greek"@,
        Algorithm::Hindi => "hindi"@,
        Algorithm::Hungarian => "hungarian"@,
        Algorithm::Indonesian => "indonesian"@,
        Algorithm::Irish => "irish"@,
        Algorithm::Italian => "italian"@,
        Algorithm::Lithuanian => "lithuanian"@,
        Algorithm::Lovins => "lovins"@,
        Algorithm::Nepali => "nepali"@,
        Algorithm::Norwegian => "norwegian"@,
        Algorithm::Porter => "porter"@,
        Algorithm::Portuguese => "portuguese"@,
        Algorithm::Romanian => "romanian"@,
        Algorithm::Russian => "russian"@,
        Algorithm::Serbian => "serbian"@,
        Algorithm::Spanish => "spanish"@,
        Algorithm::Swedish => "swedish"@,
        Algorithm::Tamil => "tamil"@,
        Algorithm::Turkish => "turkish"@,
        Algorithm::Yiddish => "yiddish"@,
        _ => Seq::empty(),
    }
}

/// The Snowball crate's name for a stemming algorithm.
fn snowball_name(a: Algorithm) -> (r: &'static str)
    requires
        has_snowball_stemmer(a),
    ensures
        r@ == snowball_name_spec(a),
{
    match a {
        Algorithm::Arabic => "arabic",
        Algorithm::Armenian => "armenian",
        Algorithm::Basque => "basque",
        Algorithm::Catalan => "catalan",
        Algorithm::Danish => "danish",
        Algorithm::Dutch => "dutch",
        Algorithm::DutchPorter => "dutch_porter",
        Algorithm::English => "english",
        Algorithm::Esperanto => "esperanto",
        Algorithm::Estonian => "estonian",
        Algorithm::Finnish => "finnish",
        Algorithm::French => "french",
        Algorithm::German => "german",
        Algorithm::Greek => "greek",
        Algorithm::Hindi => "hindi",
        Algorithm::Hungarian => "hungarian",
        Algorithm::Indonesian => "indonesian",
        Algorithm::Irish => "irish",
        Algorithm::Italian => "italian",
        Algorithm::Lithuanian => "lithuanian",
        Algorithm::Lovins => "lovins",
        Algorithm::Nepali => "nepali",
        Algorithm::Norwegian => "norwegian",
        Algorithm::Porter => "porter",
        Algorithm::Portuguese => "portuguese",
        Algorithm::Romanian => "romanian",
        Algorithm::Russian => "russian",
        Algorithm::Serbian => "serbian",
        Algorithm::Spanish => "spanish",
        Algorithm::Swedish => "swedish",
        Algorithm::Tamil => "tamil",
        Algorithm::Turkish => "turkish",
        Algorithm::Yiddish => "yiddish",
        _ => "porter",
    }
}

/// Relies on waken_snowball::Algorithm::from_str and waken_snowball::stem:
/// looks the algorithm up under its name and stems the word with it; the
/// result depends on the arguments alone.
#[verifier::external_body]
fn stem_word(name: &str, word: &str) -> (r: String)
    requires
        exists|a: Algorithm| has_snowball_stemmer(a) && name@ == snowball_name_spec(a),
    ensures
        r@ == stem_of(name@, word@),
{
    match waken_snowball::Algorithm::from_str(name) {
        Some(a) => waken_snowball::stem(a, word).into_owned(),
        None => word.to_string(),
    }
}

/// Relies on icu_segmenter::WordSegmenter::new_auto and
/// WordSegmenterBorrowed::segment_str: yields the word-boundary byte
/// positions of the text, in strictly increasing order, each on a character
/// boundary.
#[verifier::external_body]
fn segment_auto(text: &str) -> (r: Vec<usize>)
    ensures
        r@.map_values(|b: usize| b as nat) == auto_breaks_of(text@),
        breaks_wf(text@, r@.map_values(|b: usize| b as nat)),
{
    let segmenter = icu_segmenter::WordSegmenter::new_auto(
        icu_segmenter::options::WordBreakInvariantOptions::default(),
    );
    segmenter.segment_str(text).collect()
}

/// Relies on icu_segmenter::WordSegmenter::new_lstm and
/// WordSegmenterBorrowed::segment_str: yields the word-boundary byte
/// positions of the text, in strictly increasing order, each on a character
/// boundary.
#[verifier::external_body]
fn segment_lstm(text: &str) -> (r: Vec<usize>)
    ensures
        r@.map_values(|b: usize| b as nat) == lstm_breaks_of(text@),
        breaks_wf(text@, r@.map_values(|b: usize| b as nat)),
{
    let segmenter = icu_segmenter::WordSegmenter::new_lstm(
        icu_segmenter::options::WordBreakInvariantOptions::default(),
    );
    segmenter.segment_str(text).collect()
}

/// A character sequence with its leading apostrophes removed.
pub open spec fn trim_leading(w: Seq<char>) -> Seq<char>
    decreases w.len(),
{
    if w.len() > 0 && w[0] == '\'' {
        trim_leading(w.drop_first())
    } else {
        w
    }
}

/// A character sequence with its trailing apostrophes removed.
pub open spec fn trim_trailing(w: Seq<char>) -> Seq<char>
    decreases w.len(),
{
    if w.len() > 0 && w.last() == '\'' {
        trim_trailing(w.drop_last())
    } else {
        w
    }
}

/// A character sequence with apostrophes removed from both ends, the way
/// `str::trim_matches('\\'')` trims a word.
pub open spec fn trim_quotes(w: Seq<char>) -> Seq<char> {
    trim_trailing(trim_leading(w))
}

/// Whether any character of the sequence is alphabetic or numeric; words
/// without such a character are dropped by the Snowball tokenizer.
pub open spec fn has_alnum(w: Seq<char>) -> bool {
    exists|i: int| 0 <= i < w.len() && (char_is_alpha(#[trigger] w[i]) || char_is_num(w[i]))
}

proof fn lemma_trim_leading_at(w: Seq<char>, k: int)
    requires
        0 <= k <= w.len(),
        forall|j: int| 0 <= j < k ==> w[j] == '\'',
        k < w.len() ==> w[k] != '\'',
    ensures
        trim_leading(w) == w.subrange(k, w.len() as int),
    decreases k,
{
    if k == 0 {
        assert(w.subrange(0, w.len() as int) =~= w);
    } else {
        assert(w[0] == '\'');
        lemma_trim_leading_at(w.drop_first(), k - 1);
        assert(w.drop_first().subrange(k - 1, w.drop_first().len() as int) =~= w.subrange(
            k,
            w.len() as int,
        ));
    }
}

proof fn lemma_trim_trailing_at(w: Seq<char>, m: int)
    requires
        0 <= m <= w.len(),
        forall|j: int| m <= j < w.len() ==> w[j] == '\'',
        m > 0 ==> w[m - 1] != '\'',
    ensures
        trim_trailing(w) == w.subrange(0, m),
    decreases w.len() - m,
{
    if m == w.len() {
        assert(w.len() > 0 ==> w.last() != '\'');
        assert(w.subrange(0, m) =~= w);
    } else {
        assert(w[w.len() - 1] == '\'');
        lemma_trim_trailing_at(w.drop_last(), m);
        assert(w.drop_last().subrange(0, m) =~= w.subrange(0, m));
    }
}

/// Computes the character range `[lo, hi)` that remains of a word after
/// apostrophes are trimmed from both ends.
fn trim_bounds(w: &Vec<char>) -> (r: (usize, usize))
    ensures
        r.0 <= r.1 <= w@.len(),
        trim_quotes(w@) == w@.subrange(r.0 as int, r.1 as int),
{
    let len = w.len();
    let mut lo: usize = 0;
    while lo < len && w[lo] == '\''
        invariant
            len == w@.len(),
            0 <= lo <= len,
            forall|j: int| 0 <= j < lo ==> w@[j] == '\'',
        decreases len - lo,
    {
        lo = lo + 1;
    }
    proof {
        lemma_trim_leading_at(w@, lo as int);
    }
    if lo == len {
        proof {
            assert(trim_leading(w@) =~= w@.subrange(lo as int, len as int));
            assert(w@.subrange(lo as int, len as int).len() == 0);
            assert(trim_quotes(w@) =~= w@.subrange(lo as int, lo as int));
        }
        return (lo, lo);
    }
    let mut hi: usize = len;
    while hi > lo && w[hi - 1] == '\''
        invariant
            len == w@.len(),
            0 <= lo <= hi <= len,
            forall|j: int| hi <= j < len ==> w@[j] == '\'',
        decreases hi,
    {
        hi = hi - 1;
    }
    proof {
        let t = trim_leading(w@);
        assert(t == w@.subrange(lo as int, len as int));
        assert(t.len() == len - lo);
        assert(forall|j: int| (hi - lo) <= j < t.len() ==> t[j] == '\'');
        assert(hi > lo);
        assert(w@[hi - 1] != '\'' || hi == lo);
        assert(t[hi - lo - 1] == w@[hi - 1]);
        lemma_trim_trailing_at(t, hi - lo);
        assert(t.subrange(0, hi - lo) =~= w@.subrange(lo as int, hi as int));
    }
    (lo, hi)
}

/// Decides whether any character in `w[lo..hi]` is alphabetic or numeric.
fn range_has_alnum(w: &Vec<char>, lo: usize, hi: usize) -> (b: bool)
    requires
        lo <= hi <= w@.len(),
    ensures
        b == has_alnum(w@.subrange(lo as int, hi as int)),
{
    let ghost t = w@.subrange(lo as int, hi as int);
    let mut i = lo;
    while i < hi
        invariant
            lo <= i <= hi <= w@.len(),
            t == w@.subrange(lo as int, hi as int),
            forall|j: int| 0 <= j < i - lo ==> !(char_is_alpha(#[trigger] t[j]) || char_is_num(t[j])),
        decreases hi - i,
    {
        let c = w[i];
        if c.is_alphabetic() || c.is_numeric() {
            proof {
                assert(t[i - lo] == w@[i as int]);
                assert(char_is_alpha(t[i - lo]) || char_is_num(t[i - lo]));
            }
            return true;
        }
        i = i + 1;
    }
    false
}

/// The substitutions the Snowball pipeline applies to normalized
/// punctuation: dash-like characters, double-quote-like characters and
/// single-quote-like characters are each mapped to one plain form.
pub open spec fn punct_char(c: char) -> char {
    let u = c as u32;
    if 0x2010 <= u <= 0x2015 {
        '\''
    } else if 0x201C <= u <= 0x201F {
        '"'
    } else if 0x2018 <= u <= 0x201B {
        '-'
    } else {
        c
    }
}

fn map_punct_char(c: char) -> (r: char)
    ensures
        r == punct_char(c),
{
    let u = c as u32;
    if 0x2010 <= u && u <= 0x2015 {
        '\''
    } else if 0x201C <= u && u <= 0x201F {
        '"'
    } else if 0x2018 <= u && u <= 0x201B {
        '-'
    } else {
        c
    }
}

/// Replaces punctuation variants by their plain forms, character by
/// character.
fn normalize_punctuation(s: &str) -> (r: String)
    ensures
        r@ == s@.map_values(|c: char| punct_char(c)),
{
    let bytes = s.as_bytes();
    proof {
        crate::text::lemma_char_count_fits(s, bytes);
    }
    let mut r = String::new();
    for c in it: s.chars()
        invariant
            it.seq() == s@,
            r@ == s@.take(it.index() as int).map_values(|c: char| punct_char(c)),
    {
        crate::text::push_char(&mut r, map_punct_char(c));
        proof {
            assert(s@.take(it.index() + 1).map_values(|c: char| punct_char(c)) =~= s@.take(
                it.index() as int,
            ).map_values(|c: char| punct_char(c)).push(punct_char(s@[it.index() as int])));
        }
    }
    proof {
        assert(s@.take(s@.len() as int) =~= s@);
    }
    r
}


/// The character position of the boundary at a word's byte offset is
/// exactly where the word's characters stand in the text.
proof fn lemma_word_char_at(s: Seq<char>, ws: Seq<(nat, Seq<char>)>, i: int)
    requires
        words_wf(s, ws),
        0 <= i < ws.len(),
    ensures
        ({
            let c = byte_to_char(s, ws[i].0 as int);
            &&& 0 <= c
            &&& c + ws[i].1.len() <= s.len()
            &&& encode_utf8(s.take(c)).len() == ws[i].0
            &&& s.subrange(c, c + ws[i].1.len() as int) == ws[i].1
        }),
{
    assert(word_at(s, ws[i].0, ws[i].1));
    let c0 = choose|c: int|
        0 <= c && c + ws[i].1.len() <= s.len() && (#[trigger] encode_utf8(s.take(c))).len()
            == ws[i].0 && s.subrange(c, c + ws[i].1.len() as int) == ws[i].1;
    let c = byte_to_char(s, ws[i].0 as int);
    assert(0 <= c <= s.len() && encode_utf8(s.take(c)).len() == ws[i].0 as int) by {
        assert(0 <= c0 <= s.len() && encode_utf8(s.take(c0)).len() == ws[i].0 as int);
    }
    crate::text::lemma_boundary_unique(s, c, c0);
}

/// Words later in the text stand at or after the end of earlier words, in
/// character positions as well as in byte positions.
proof fn lemma_word_char_order(s: Seq<char>, ws: Seq<(nat, Seq<char>)>, i: int, j: int)
    requires
        words_wf(s, ws),
        0 <= i < j < ws.len(),
    ensures
        byte_to_char(s, ws[i].0 as int) + ws[i].1.len() <= byte_to_char(s, ws[j].0 as int),
{
    lemma_word_char_at(s, ws, i);
    lemma_word_char_at(s, ws, j);
    let ci = byte_to_char(s, ws[i].0 as int);
    let cj = byte_to_char(s, ws[j].0 as int);
    let li = ws[i].1.len() as int;
    assert(s.take(ci + li) =~= s.take(ci) + s.subrange(ci, ci + li));
    crate::text::lemma_encode_concat(s.take(ci), s.subrange(ci, ci + li));
    assert(encode_utf8(s.take(ci + li)).len() == ws[i].0 + encode_utf8(ws[i].1).len());
    assert(ws[i].0 + encode_utf8(ws[i].1).len() <= ws[j].0);
    if cj < ci + li {
        crate::text::lemma_encode_take_mono(s, cj, ci + li);
        assert(false);
    }
}

/// The text a Snowball token carries for a word: the word is trimmed of
/// apostrophes, NFKC-normalized, its punctuation variants are replaced by
/// plain forms, it is lowercased unless matching case-sensitively, and the
/// result is stemmed under the named algorithm.
pub open spec fn stemmed_text(name: Seq<char>, w: Seq<char>, case_sensitive: bool) -> Seq<char> {
    let p = nfkc_of(trim_quotes(w)).map_values(|c: char| punct_char(c));
    if case_sensitive {
        stem_of(name, p)
    } else {
        stem_of(name, lower_of(p))
    }
}

/// The token the Snowball tokenizer produces for one word: the stemmed text,
/// with the character position of the untrimmed word as `start` and the
/// trimmed word's character count as `len`.
pub open spec fn snowball_token(
    s: Seq<char>,
    name: Seq<char>,
    case_sensitive: bool,
    word: (nat, Seq<char>),
) -> TokenView {
    TokenView {
        text: stemmed_text(name, word.1, case_sensitive),
        start: byte_to_char(s, word.0 as int) as nat,
        len: trim_quotes(word.1).len(),
    }
}

/// The Snowball tokens for the words of `s` from word index `i` on: each
/// word whose trimmed form contains an alphabetic or numeric character
/// becomes one token; the rest are dropped.
pub open spec fn snowball_model_from(
    s: Seq<char>,
    name: Seq<char>,
    case_sensitive: bool,
    i: int,
) -> Seq<TokenView>
    decreases words_of(s).len() - i,
{
    if i < 0 || i >= words_of(s).len() {
        Seq::empty()
    } else {
        let rest = snowball_model_from(s, name, case_sensitive, i + 1);
        if has_alnum(trim_quotes(words_of(s)[i].1)) {
            seq![snowball_token(s, name, case_sensitive, words_of(s)[i])] + rest
        } else {
            rest
        }
    }
}

/// Every token the Snowball tokenizer produces for a text.
pub open spec fn snowball_model(s: Seq<char>, name: Seq<char>, case_sensitive: bool) -> Seq<
    TokenView,
> {
    snowball_model_from(s, name, case_sensitive, 0)
}

/// Splits a text into words, normalizes and stems each, and records every
/// word's original span in character units.
fn tokenize_snowball(text: &str, algorithm: Algorithm, case_sensitive: bool) -> (r: Vec<Token>)
    requires
        has_snowball_stemmer(algorithm),
    ensures
        token_views(r@) == snowball_model(text@, snowball_name_spec(algorithm), case_sensitive),
        token_seq_wf(token_views(r@)),
{
    let ghost s = text@;
    let name = snowball_name(algorithm);
    let tv = crate::text::chars_of(text);
    let bytes = text.as_bytes();
    proof {
        crate::text::lemma_char_count_fits(text, bytes);
    }
    let words = word_indices(text);
    let ghost ws = words_of(s);
    let n_words = words.len();
    let mut tokens: Vec<Token> = Vec::new();
    let mut i: usize = 0;
    while i < n_words
        invariant
            s == text@,
            tv@ == s,
            s.len() <= usize::MAX,
            ws == words_of(s),
            ws == words@.map_values(|p: (usize, String)| (p.0 as nat, p.1@)),
            words_wf(s, ws),
            n_words == words@.len(),
            i <= n_words,
            has_snowball_stemmer(algorithm),
            name@ == snowball_name_spec(algorithm),
            snowball_model(s, name@, case_sensitive) == token_views(tokens@)
                + snowball_model_from(s, name@, case_sensitive, i as int),
            token_seq_wf(token_views(tokens@)),
            tokens@.len() > 0 && i < n_words ==> token_views(tokens@).last().start + token_views(
                tokens@,
            ).last().len <= byte_to_char(s, ws[i as int].0 as int),
        decreases n_words - i,
    {
        let word_start = words[i].0;
        let wchars = crate::text::chars_of(words[i].1.as_str());
        let bounds = trim_bounds(&wchars);
        let lo = bounds.0;
        let hi = bounds.1;
        let keep = range_has_alnum(&wchars, lo, hi);
        proof {
            assert(ws[i as int] == (words@[i as int].0 as nat, words@[i as int].1@));
            assert(ws[i as int].1 == wchars@);
            assert(trim_quotes(ws[i as int].1) == wchars@.subrange(lo as int, hi as int));
            lemma_word_char_at(s, ws, i as int);
        }
        if keep {
            let trimmed = crate::text::string_of_range(&wchars, lo, hi);
            let normalized = normalize_nfkc(trimmed.as_str());
            let punct = normalize_punctuation(normalized.as_str());
            let stem_input = if case_sensitive {
                punct
            } else {
                crate::text::lowercase(punct.as_str())
            };
            proof {
                assert(exists|a: Algorithm|
                    has_snowball_stemmer(a) && name@ == snowball_name_spec(a)) by {
                    assert(has_snowball_stemmer(algorithm) && name@ == snowball_name_spec(
                        algorithm,
                    ));
                }
            }
            let stemmed = stem_word(name, stem_input.as_str());
            proof {
                let c = byte_to_char(s, ws[i as int].0 as int);
                assert(exists|cx: int|
                    0 <= cx <= tv@.len() && (#[trigger] encode_utf8(tv@.take(cx))).len()
                        == word_start) by {
                    assert(0 <= c <= tv@.len() && encode_utf8(tv@.take(c)).len() == word_start);
                }
            }
            let start = crate::text::char_index_at_byte(&tv, word_start);
            let ghost old_views = token_views(tokens@);
            let tok = Token { text: stemmed, start, len: hi - lo };
            proof {
                assert(tok@ == snowball_token(s, name@, case_sensitive, ws[i as int]));
            }
            tokens.push(tok);
            proof {
                assert(token_views(tokens@) =~= old_views.push(
                    snowball_token(s, name@, case_sensitive, ws[i as int]),
                ));
                assert(snowball_model_from(s, name@, case_sensitive, i as int) == seq![
                    snowball_token(s, name@, case_sensitive, ws[i as int]),
                ] + snowball_model_from(s, name@, case_sensitive, i + 1));
                assert((old_views + seq![snowball_token(s, name@, case_sensitive, ws[i as int])])
                    + snowball_model_from(s, name@, case_sensitive, i + 1) =~= old_views + (seq![
                    snowball_token(s, name@, case_sensitive, ws[i as int]),
                ] + snowball_model_from(s, name@, case_sensitive, i + 1)));
                assert(old_views.push(snowball_token(s, name@, case_sensitive, ws[i as int]))
                    =~= old_views + seq![snowball_token(s, name@, case_sensitive, ws[i as int])]);
                crate::token::lemma_wf_push(
                    old_views,
                    snowball_token(s, name@, case_sensitive, ws[i as int]),
                );
                if i + 1 < n_words {
                    lemma_word_char_order(s, ws, i as int, i + 1);
                }
            }
        } else {
            proof {
                assert(snowball_model_from(s, name@, case_sensitive, i as int)
                    == snowball_model_from(s, name@, case_sensitive, i + 1));
                if tokens@.len() > 0 && i + 1 < n_words {
                    lemma_word_char_order(s, ws, i as int, i + 1);
                }
            }
        }
        i = i + 1;
    }
    proof {
        assert(snowball_model_from(s, name@, case_sensitive, n_words as int)
            =~= Seq::<TokenView>::empty());
        assert(token_views(tokens@) + Seq::<TokenView>::empty() =~= token_views(tokens@));
    }
    tokens
}



/// The tokens of a segmented text: one token per pair of adjacent
/// boundaries, holding the characters between them, with its character
/// position and character length.
pub open spec fn segment_model(s: Seq<char>, bs: Seq<nat>) -> Seq<TokenView> {
    if bs.len() == 0 {
        Seq::empty()
    } else {
        Seq::new(
            (bs.len() - 1) as nat,
            |i: int|
                TokenView {
                    text: s.subrange(
                        byte_to_char(s, bs[i] as int),
                        byte_to_char(s, bs[i + 1] as int),
                    ),
                    start: byte_to_char(s, bs[i] as int) as nat,
                    len: (byte_to_char(s, bs[i + 1] as int) - byte_to_char(s, bs[i] as int)) as nat,
                },
        )
    }
}

/// Builds one token per pair of adjacent break positions.
fn tokens_from_breaks(text: &str, breaks: &Vec<usize>) -> (r: Vec<Token>)
    requires
        breaks_wf(text@, breaks@.map_values(|b: usize| b as nat)),
    ensures
        token_views(r@) == segment_model(text@, breaks@.map_values(|b: usize| b as nat)),
        token_seq_wf(token_views(r@)),
{
    let ghost s = text@;
    let ghost bs = breaks@.map_values(|b: usize| b as nat);
    let tv = crate::text::chars_of(text);
    let bytes = text.as_bytes();
    proof {
        crate::text::lemma_char_count_fits(text, bytes);
    }
    let m = breaks.len();
    let mut tokens: Vec<Token> = Vec::new();
    if m == 0 {
        proof {
            assert(segment_model(s, bs) =~= Seq::<TokenView>::empty());
            assert(token_views(tokens@) =~= Seq::<TokenView>::empty());
        }
        return tokens;
    }
    let mut i: usize = 0;
    while i < m - 1
        invariant
            s == text@,
            tv@ == s,
            s.len() <= usize::MAX,
            bs == breaks@.map_values(|b: usize| b as nat),
            breaks_wf(s, bs),
            m == breaks@.len(),
            1 <= m,
            i <= m - 1,
            tokens@.len() == i,
            token_views(tokens@) == segment_model(s, bs).take(i as int),
            token_seq_wf(token_views(tokens@)),
            i > 0 ==> token_views(tokens@).last().start + token_views(tokens@).last().len
                == byte_to_char(s, bs[i as int] as int),
        decreases m - 1 - i,
    {
        let b_lo = breaks[i];
        let b_hi = breaks[i + 1];
        proof {
            assert(bs[i as int] == b_lo as nat);
            assert(bs[i + 1] == b_hi as nat);
            assert(bs[i as int] < bs[i + 1]);
        }
        let c_lo = crate::text::char_index_at_byte(&tv, b_lo);
        let c_hi = crate::text::char_index_at_byte(&tv, b_hi);
        proof {
            if c_hi < c_lo {
                crate::text::lemma_encode_take_mono(s, c_hi as int, c_lo as int);
            }
            if c_hi == c_lo {
                assert(encode_utf8(s.take(c_lo as int)).len() == b_lo);
                assert(encode_utf8(s.take(c_hi as int)).len() == b_hi);
                assert(false);
            }
        }
        let token_text = crate::text::string_of_range(&tv, c_lo, c_hi);
        let ghost old_views = token_views(tokens@);
        let tok = Token { text: token_text, start: c_lo, len: c_hi - c_lo };
        proof {
            assert(tok@ == segment_model(s, bs)[i as int]);
        }
        tokens.push(tok);
        proof {
            assert(token_views(tokens@) =~= old_views.push(segment_model(s, bs)[i as int]));
            assert(segment_model(s, bs).take(i + 1) =~= segment_model(s, bs).take(
                i as int,
            ).push(segment_model(s, bs)[i as int]));
            crate::token::lemma_wf_push(old_views, segment_model(s, bs)[i as int]);
        }
        i = i + 1;
    }
    proof {
        assert(segment_model(s, bs).take((m - 1) as int) =~= segment_model(s, bs));
    }
    tokens
}

/// Tokenizes a CJK text by dictionary- and model-based word segmentation.
///
/// Each segment between adjacent word boundaries becomes one token whose
/// text is the original characters of the segment.
pub fn tokenize_cjk(text: &str, algorithm: Algorithm) -> (r: Vec<Token>)
    requires
        algorithm == Algorithm::Japanese || algorithm == Algorithm::Chinese,
    ensures
        token_views(r@) == segment_model(text@, auto_breaks_of(text@)),
        token_seq_wf(token_views(r@)),
{
    let breaks = segment_auto(text);
    tokens_from_breaks(text, &breaks)
}

/// Tokenizes a Southeast Asian text by statistical word-boundary
/// segmentation.
fn tokenize_southeast_asian(text: &str, _algorithm: Algorithm) -> (r: Vec<Token>)
    ensures
        token_views(r@) == segment_model(text@, lstm_breaks_of(text@)),
        token_seq_wf(token_views(r@)),
{
    let breaks = segment_lstm(text);
    tokens_from_breaks(text, &breaks)
}

/// Whether a tokenizer backend exists for the language: every concrete
/// Snowball algorithm, Japanese and Chinese by ICU segmentation, and the
/// Southeast Asian languages by LSTM segmentation.  [`Algorithm::Korean`]
/// needs a dictionary backend that is not linked in, and
/// [`Algorithm::Unspecified`] names no language.
pub open spec fn spec_has_backend(a: Algorithm) -> bool {
    ||| has_snowball_stemmer(a)
    ||| a == Algorithm::Japanese
    ||| a == Algorithm::Chinese
    ||| a.spec_is_southeast_asian()
}

/// The tokens [`tokenize`] produces for a text under a language with a
/// backend.
pub open spec fn tokenize_model(s: Seq<char>, a: Algorithm, case_sensitive: bool) -> Seq<
    TokenView,
> {
    if has_snowball_stemmer(a) {
        snowball_model(s, snowball_name_spec(a), case_sensitive)
    } else if a == Algorithm::Japanese || a == Algorithm::Chinese {
        segment_model(s, auto_breaks_of(s))
    } else if a.spec_is_southeast_asian() {
        segment_model(s, lstm_breaks_of(s))
    } else {
        Seq::empty()
    }
}

/// Tokenizes text into a well-formed sequence of [`Token`]s.
///
/// The language decides the backend: Snowball languages are split into
/// words, normalized and stemmed (lowercased first unless `case_sensitive`);
/// Japanese and Chinese are segmented by dictionary-based analysis; the
/// Southeast Asian languages by a statistical word-boundary model.  For a
/// language with no backend the engine is never reached:
/// [`Error::NoTokenizer`] names the rejected language.
pub fn tokenize(text: &str, algorithm: Algorithm, case_sensitive: bool) -> (r: Result<
    Vec<Token>,
    Error,
>)
    ensures
        r is Ok <==> spec_has_backend(algorithm),
        !spec_has_backend(algorithm) ==> r == Err::<Vec<Token>, Error>(
            Error::NoTokenizer(algorithm),
        ),
        r matches Ok(t) ==> token_views(t@) == tokenize_model(text@, algorithm, case_sensitive)
            && token_seq_wf(token_views(t@)),
{
    if algorithm.is_snowball() {
        if !matches!(algorithm, Algorithm::Unspecified) {
            return Ok(tokenize_snowball(text, algorithm, case_sensitive));
        }
    } else if algorithm.is_cjk() {
        if !matches!(algorithm, Algorithm::Korean) {
            return Ok(tokenize_cjk(text, algorithm));
        }
    } else {
        return Ok(tokenize_southeast_asian(text, algorithm));
    }
    Err(Error::NoTokenizer(algorithm))
}


} // verus!
