//! The token data model.
//!
//! A [`Token`] is a normalized unit of text together with the position of the
//! span it was derived from, measured in characters of the original input
//! (not bytes, and not positions in the normalized text).

use vstd::prelude::*;

verus! {

/// A normalized unit of text produced by a tokenizer.
///
/// `start` is the 0-based character offset of the token's first character in
/// the original input, and `len` is the character length of the original span
/// the token was derived from.  `text` holds the normalized surface form, so
/// `len` may differ from the character count of `text` after stemming.
#[derive(Debug, Clone)]
pub struct Token {
    pub text: String,
    pub start: usize,
    pub len: usize,
}

/// The mathematical model of a [`Token`]: its text as a character sequence
/// and its span in character units.
pub struct TokenView {
    pub text: Seq<char>,
    pub start: nat,
    pub len: nat,
}

impl View for Token {
    type V = TokenView;

    open spec fn view(&self) -> TokenView {
        TokenView { text: self.text@, start: self.start as nat, len: self.len as nat }
    }
}

/// Two tokens are equal when their normalized texts are equal; the spans
/// they were derived from play no part in equality.
impl PartialEq for Token {
    fn eq(&self, other: &Token) -> (r: bool) {
        self.text == other.text
    }
}

impl Eq for Token {

}

impl vstd::std_specs::cmp::PartialEqSpecImpl for Token {
    open spec fn obeys_eq_spec() -> bool {
        true
    }

    open spec fn eq_spec(&self, other: &Token) -> bool {
        self.text@ == other.text@
    }
}

/// The models of a sequence of tokens.
pub open spec fn token_views(s: Seq<Token>) -> Seq<TokenView> {
    s.map_values(|t: Token| t@)
}

/// The invariant of a token sequence produced from one input: spans are
/// non-empty, lie within the addressable character range, do not overlap,
/// and appear in ascending order of `start`.
pub open spec fn token_seq_wf(s: Seq<TokenView>) -> bool {
    &&& forall|i: int|
        0 <= i < s.len() ==> (#[trigger] s[i].start) + s[i].len <= usize::MAX && s[i].len >= 1
    &&& forall|i: int, j: int|
        0 <= i < j < s.len() ==> (#[trigger] s[i].start) + s[i].len <= #[trigger] s[j].start
}

/// In a well-formed token sequence, `start` values are strictly increasing.
pub proof fn lemma_wf_starts_increase(s: Seq<TokenView>, i: int, j: int)
    requires
        token_seq_wf(s),
        0 <= i < j < s.len(),
    ensures
        s[i].start < s[j].start,
{
}


/// Appending a non-empty, in-range token that starts at or after the end of
/// the last token's span preserves well-formedness.
pub proof fn lemma_wf_push(ts: Seq<TokenView>, t: TokenView)
    requires
        token_seq_wf(ts),
        t.len >= 1,
        t.start + t.len <= usize::MAX,
        ts.len() > 0 ==> ts[ts.len() - 1].start + ts[ts.len() - 1].len <= t.start,
    ensures
        token_seq_wf(ts.push(t)),
{
    let s2 = ts.push(t);
    assert forall|i: int, j: int|
        0 <= i < j < s2.len() implies (#[trigger] s2[i].start) + s2[i].len
        <= #[trigger] s2[j].start by {
        if j < ts.len() {
            assert(s2[i] == ts[i]);
            assert(s2[j] == ts[j]);
        } else {
            assert(s2[j] == t);
            assert(s2[i] == ts[i]);
            if i < ts.len() - 1 {
                assert(ts[i].start + ts[i].len <= ts[ts.len() - 1].start);
            }
        }
    }
    assert forall|i: int|
        0 <= i < s2.len() implies (#[trigger] s2[i].start) + s2[i].len <= usize::MAX && s2[i].len
        >= 1 by {
        if i < ts.len() {
            assert(s2[i] == ts[i]);
        } else {
            assert(s2[i] == t);
        }
    }
}


} // verus!
