//! Normalized edit-distance similarity between token texts.
//!
//! The similarity of two strings is the Levenshtein edit distance between
//! their character sequences, normalized by the longer length and expressed
//! as a fixed-point fraction of [`SIMILARITY_SCALE`]: `SIMILARITY_SCALE`
//! means identical, `0` means nothing in common.  Thresholds for fuzzy
//! matching are expressed on the same scale.

use vstd::prelude::*;

verus! {

/// The denominator of all fixed-point similarity values: a similarity of
/// `SIMILARITY_SCALE` is 1.0 (identical strings).
pub const SIMILARITY_SCALE: u64 = 1_000_000;

/// The Levenshtein edit distance between two character sequences: the least
/// number of single-character insertions, deletions and substitutions that
/// turns one into the other.
pub open spec fn edit_distance(a: Seq<char>, b: Seq<char>) -> nat
    decreases a.len(), b.len(),
{
    if a.len() == 0 {
        b.len()
    } else if b.len() == 0 {
        a.len()
    } else {
        let delete = edit_distance(a.drop_last(), b) + 1;
        let insert = edit_distance(a, b.drop_last()) + 1;
        let substitute = edit_distance(a.drop_last(), b.drop_last()) + if a.last() == b.last() {
            0nat
        } else {
            1nat
        };
        min3(delete, insert, substitute)
    }
}

/// The least of three naturals.
pub open spec fn min3(x: nat, y: nat, z: nat) -> nat {
    if x <= y && x <= z {
        x
    } else if y <= z {
        y
    } else {
        z
    }
}

/// Relies on strsim::levenshtein: the Levenshtein edit distance between the
/// two strings' character sequences.
pub assume_specification[ strsim::levenshtein ](a: &str, b: &str) -> (r: usize)
    ensures
        r == edit_distance(a@, b@),
;

/// The edit distance never exceeds the longer length: one can always
/// substitute every character of the shorter string and insert the rest.
pub proof fn lemma_edit_distance_le_max(a: Seq<char>, b: Seq<char>)
    ensures
        edit_distance(a, b) <= vstd::math::max(a.len() as int, b.len() as int),
    decreases a.len(), b.len(),
{
    if a.len() != 0 && b.len() != 0 {
        lemma_edit_distance_le_max(a.drop_last(), b.drop_last());
    }
}

/// The fixed-point similarity of two character sequences:
/// `SIMILARITY_SCALE * (L - d) / L` rounded down, where `d` is the edit
/// distance and `L` the longer length; two empty sequences are identical.
pub open spec fn similarity(a: Seq<char>, b: Seq<char>) -> int {
    let l = vstd::math::max(a.len() as int, b.len() as int);
    if l == 0 {
        SIMILARITY_SCALE as int
    } else {
        SIMILARITY_SCALE * (l - edit_distance(a, b)) / l
    }
}

/// A similarity never exceeds the scale.
pub proof fn lemma_similarity_bounds(a: Seq<char>, b: Seq<char>)
    ensures
        0 <= similarity(a, b) <= SIMILARITY_SCALE,
{
    let l = vstd::math::max(a.len() as int, b.len() as int);
    lemma_edit_distance_le_max(a, b);
    if l != 0 {
        let d = edit_distance(a, b);
        vstd::arithmetic::mul::lemma_mul_inequality(l - d, l, SIMILARITY_SCALE as int);
        assert(SIMILARITY_SCALE * (l - d) == (l - d) * SIMILARITY_SCALE) by {
            vstd::arithmetic::mul::lemma_mul_is_commutative(SIMILARITY_SCALE as int, l - d);
        }
        assert(SIMILARITY_SCALE * l == l * SIMILARITY_SCALE) by {
            vstd::arithmetic::mul::lemma_mul_is_commutative(SIMILARITY_SCALE as int, l);
        }
        vstd::arithmetic::div_mod::lemma_div_is_ordered(
            SIMILARITY_SCALE * (l - d),
            SIMILARITY_SCALE * l,
            l,
        );
        vstd::arithmetic::div_mod::lemma_div_by_multiple(SIMILARITY_SCALE as int, l);
        vstd::arithmetic::div_mod::lemma_div_pos_is_pos(SIMILARITY_SCALE * (l - d), l);
    }
}

/// Computes the fixed-point similarity of two strings.
pub fn similarity_score(a: &str, b: &str) -> (r: u64)
    ensures
        r == similarity(a@, b@),
        r <= SIMILARITY_SCALE,
{
    let d = strsim::levenshtein(a, b);
    let la = crate::text::char_count(a);
    let lb = crate::text::char_count(b);
    let l = if la >= lb {
        la
    } else {
        lb
    };
    proof {
        lemma_edit_distance_le_max(a@, b@);
        lemma_similarity_bounds(a@, b@);
    }
    if l == 0 {
        SIMILARITY_SCALE
    } else {
        let scaled = (SIMILARITY_SCALE as u128) * ((l - d) as u128) / (l as u128);
        proof {
            assert(scaled == similarity(a@, b@));
        }
        scaled as u64
    }
}


/// The edit distance is zero exactly for equal sequences.
pub proof fn lemma_edit_distance_zero_iff(a: Seq<char>, b: Seq<char>)
    ensures
        (edit_distance(a, b) == 0) <==> (a == b),
    decreases a.len(), b.len(),
{
    if a.len() == 0 {
        if b.len() == 0 {
            assert(a =~= b);
        }
    } else if b.len() == 0 {
    } else {
        lemma_edit_distance_zero_iff(a.drop_last(), b.drop_last());
        if a == b {
            assert(a.drop_last() =~= b.drop_last());
            assert(a.last() == b.last());
        } else {
            if a.last() == b.last() && a.drop_last() == b.drop_last() {
                assert(a.len() == b.len());
                assert forall|i: int| 0 <= i < a.len() implies a[i] == b[i] by {
                    if i < a.len() - 1 {
                        assert(a[i] == a.drop_last()[i]);
                        assert(b[i] == b.drop_last()[i]);
                    } else {
                        assert(a[i] == a.last());
                        assert(b[i] == b.last());
                    }
                }
                assert(a =~= b);
            }
        }
    }
}

/// A similarity of the full scale means identical strings, and identical
/// strings score the full scale.
pub proof fn lemma_similarity_identical(a: Seq<char>, b: Seq<char>)
    ensures
        (similarity(a, b) == SIMILARITY_SCALE) <==> (a == b),
{
    let l = vstd::math::max(a.len() as int, b.len() as int);
    let d = edit_distance(a, b);
    lemma_edit_distance_zero_iff(a, b);
    lemma_edit_distance_le_max(a, b);
    if l == 0 {
        assert(a =~= b);
    } else {
        if a == b {
            assert(d == 0);
            vstd::arithmetic::div_mod::lemma_div_by_multiple(SIMILARITY_SCALE as int, l);
            assert(SIMILARITY_SCALE * l == l * SIMILARITY_SCALE) by {
                vstd::arithmetic::mul::lemma_mul_is_commutative(SIMILARITY_SCALE as int, l);
            }
        } else {
            assert(d >= 1);
            let x = SIMILARITY_SCALE * (l - d);
            assert(x <= SIMILARITY_SCALE * (l - 1)) by {
                vstd::arithmetic::mul::lemma_mul_inequality(l - d, l - 1, SIMILARITY_SCALE as int);
                vstd::arithmetic::mul::lemma_mul_is_commutative(SIMILARITY_SCALE as int, l - d);
                vstd::arithmetic::mul::lemma_mul_is_commutative(SIMILARITY_SCALE as int, l - 1);
            }
            assert(SIMILARITY_SCALE * (l - 1) == SIMILARITY_SCALE * l - SIMILARITY_SCALE) by {
                vstd::arithmetic::mul::lemma_mul_is_distributive_sub(
                    SIMILARITY_SCALE as int,
                    l,
                    1,
                );
            }
            assert(x < SIMILARITY_SCALE * l);
            if x / l >= SIMILARITY_SCALE {
                vstd::arithmetic::div_mod::lemma_fundamental_div_mod(x, l);
                assert(x == l * (x / l) + x % l);
                assert(l * (x / l) >= l * SIMILARITY_SCALE) by {
                    vstd::arithmetic::mul::lemma_mul_inequality(
                        SIMILARITY_SCALE as int,
                        x / l,
                        l,
                    );
                    vstd::arithmetic::mul::lemma_mul_is_commutative(l, x / l);
                    vstd::arithmetic::mul::lemma_mul_is_commutative(l, SIMILARITY_SCALE as int);
                }
                assert(SIMILARITY_SCALE * l == l * SIMILARITY_SCALE) by {
                    vstd::arithmetic::mul::lemma_mul_is_commutative(SIMILARITY_SCALE as int, l);
                }
                vstd::arithmetic::div_mod::lemma_mod_bound(x, l);
                assert(false);
            }
        }
    }
}


} // verus!
