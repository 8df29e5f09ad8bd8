//! Character-level text primitives: lowercasing, uppercase counting, and
//! character counting.
//!
//! Unicode case mapping and the uppercase character class are taken from the
//! standard library; their results are named by uninterpreted spec functions
//! and everything built on top of them is verified against those names.

use vstd::prelude::*;

verus! {

use vstd::string::StringSliceAdditionalSpecFns;

/// The result of Unicode-lowercasing a character sequence, as produced by
/// `str::to_lowercase`.  It depends on the characters alone.
pub uninterp spec fn lower_of(s: Seq<char>) -> Seq<char>;

/// Whether a character is uppercase, as decided by `char::is_uppercase`.
pub uninterp spec fn char_is_upper(c: char) -> bool;

/// Relies on char::is_uppercase: whether the character has the Unicode
/// uppercase property; a function of the character alone.
pub assume_specification[ char::is_uppercase ](c: char) -> (r: bool)
    ensures
        r == char_is_upper(c),
;

/// Relies on str::to_lowercase: the Unicode lowercase mapping of the string;
/// the result depends on the characters alone, and an empty string stays
/// empty.
#[verifier::external_body]
pub(crate) fn lowercase(s: &str) -> (r: String)
    ensures
        r@ == lower_of(s@),
        s@.len() == 0 ==> r@.len() == 0,
{
    s.to_lowercase()
}

/// The number of uppercase characters in a character sequence.
pub open spec fn upper_count(s: Seq<char>) -> nat
    decreases s.len(),
{
    if s.len() == 0 {
        0
    } else {
        upper_count(s.drop_last()) + if char_is_upper(s.last()) {
            1nat
        } else {
            0nat
        }
    }
}

proof fn lemma_upper_count_take_step(s: Seq<char>, i: int)
    requires
        0 <= i < s.len(),
    ensures
        upper_count(s.take(i + 1)) == upper_count(s.take(i)) + if char_is_upper(s[i]) {
            1nat
        } else {
            0nat
        },
{
    assert(s.take(i + 1).drop_last() =~= s.take(i));
    assert(s.take(i + 1).last() == s[i]);
}

proof fn lemma_upper_count_le_len(s: Seq<char>)
    ensures
        upper_count(s) <= s.len(),
    decreases s.len(),
{
    if s.len() > 0 {
        lemma_upper_count_le_len(s.drop_last());
    }
}

/// Each character encodes to at least one UTF-8 byte.
proof fn lemma_encoding_at_least_chars(s: Seq<char>)
    ensures
        vstd::utf8::encode_utf8(s).len() >= s.len(),
    decreases s.len(),
{
    if s.len() > 0 {
        lemma_encoding_at_least_chars(s.drop_first());
    }
}

/// A string holds no more characters than it has bytes, so its character
/// count fits in a `usize`.
pub proof fn lemma_char_count_fits(s: &str, bytes: &[u8])
    requires
        bytes@ == s.spec_bytes(),
    ensures
        s@.len() <= bytes@.len() <= usize::MAX,
{
    broadcast use vstd::slice::axiom_spec_len;

    lemma_encoding_at_least_chars(s@);
    assert(vstd::slice::spec_slice_len(bytes) == bytes@.len());
}

/// Counts the uppercase characters of a string.
pub fn count_uppercase(s: &str) -> (r: usize)
    ensures
        r == upper_count(s@),
{
    let bytes = s.as_bytes();
    proof {
        lemma_char_count_fits(s, bytes);
    }
    let mut r: usize = 0;
    for c in it: s.chars()
        invariant
            it.seq() == s@,
            s@.len() <= usize::MAX,
            r == upper_count(s@.take(it.index() as int)),
            r <= it.index(),
    {
        proof {
            lemma_upper_count_take_step(s@, it.index() as int);
            lemma_upper_count_le_len(s@.take(it.index() as int));
        }
        if c.is_uppercase() {
            r = r + 1;
        }
    }
    proof {
        assert(s@.take(s@.len() as int) =~= s@);
    }
    r
}

/// Counts the characters of a string.
pub fn char_count(s: &str) -> (r: usize)
    ensures
        r == s@.len(),
{
    let bytes = s.as_bytes();
    proof {
        lemma_char_count_fits(s, bytes);
    }
    let mut r: usize = 0;
    for _c in it: s.chars()
        invariant
            it.seq() == s@,
            s@.len() <= usize::MAX,
            r == it.index(),
    {
        r = r + 1;
    }
    r
}


/// Whether a character is alphabetic, as decided by `char::is_alphabetic`.
pub uninterp spec fn char_is_alpha(c: char) -> bool;

/// Whether a character is numeric, as decided by `char::is_numeric`.
pub uninterp spec fn char_is_num(c: char) -> bool;

/// Relies on char::is_alphabetic: whether the character has the Unicode
/// alphabetic property; a function of the character alone.
pub assume_specification[ char::is_alphabetic ](c: char) -> (r: bool)
    ensures
        r == char_is_alpha(c),
;

/// Relies on char::is_numeric: whether the character belongs to a Unicode
/// numeric category; a function of the character alone.
pub assume_specification[ char::is_numeric ](c: char) -> (r: bool)
    ensures
        r == char_is_num(c),
;

/// Relies on String::push: appends one character.
#[verifier::external_body]
pub(crate) fn push_char(s: &mut String, c: char)
    ensures
        final(s)@ == old(s)@.push(c),
{
    s.push(c)
}

/// Collects the characters of a string.
pub fn chars_of(s: &str) -> (r: Vec<char>)
    ensures
        r@ == s@,
{
    let bytes = s.as_bytes();
    proof {
        lemma_char_count_fits(s, bytes);
    }
    let mut r: Vec<char> = Vec::new();
    for c in it: s.chars()
        invariant
            it.seq() == s@,
            r@ == s@.take(it.index() as int),
    {
        r.push(c);
        proof {
            assert(s@.take(it.index() + 1) =~= s@.take(it.index() as int).push(c));
        }
    }
    proof {
        assert(s@.take(s@.len() as int) =~= s@);
    }
    r
}

/// Builds a string from a range of a character vector.
pub fn string_of_range(v: &Vec<char>, lo: usize, hi: usize) -> (r: String)
    requires
        lo <= hi <= v@.len(),
    ensures
        r@ == v@.subrange(lo as int, hi as int),
{
    let mut r = String::new();
    let mut i = lo;
    while i < hi
        invariant
            lo <= i <= hi <= v@.len(),
            r@ == v@.subrange(lo as int, i as int),
        decreases hi - i,
    {
        push_char(&mut r, v[i]);
        proof {
            assert(v@.subrange(lo as int, i + 1) =~= v@.subrange(lo as int, i as int).push(
                v@[i as int],
            ));
        }
        i = i + 1;
    }
    r
}

/// UTF-8 encoding distributes over concatenation.
pub proof fn lemma_encode_concat(a: Seq<char>, b: Seq<char>)
    ensures
        vstd::utf8::encode_utf8(a + b) == vstd::utf8::encode_utf8(a) + vstd::utf8::encode_utf8(b),
    decreases a.len(),
{
    if a.len() == 0 {
        assert(a + b =~= b);
        assert(vstd::utf8::encode_utf8(a) + vstd::utf8::encode_utf8(b) =~= vstd::utf8::encode_utf8(
            b,
        ));
    } else {
        lemma_encode_concat(a.drop_first(), b);
        assert((a + b).drop_first() =~= a.drop_first() + b);
        assert((a + b)[0] == a[0]);
        assert(vstd::utf8::encode_utf8(a + b) == vstd::utf8::encode_scalar((a + b)[0] as u32)
            + vstd::utf8::encode_utf8((a + b).drop_first()));
        assert(vstd::utf8::encode_scalar(a[0] as u32) + (vstd::utf8::encode_utf8(a.drop_first())
            + vstd::utf8::encode_utf8(b)) =~= (vstd::utf8::encode_scalar(a[0] as u32)
            + vstd::utf8::encode_utf8(a.drop_first())) + vstd::utf8::encode_utf8(b));
    }
}

/// Appending one character to a prefix lengthens its encoding by that
/// character's encoded width.
pub proof fn lemma_encode_take_step(s: Seq<char>, i: int)
    requires
        0 <= i < s.len(),
    ensures
        vstd::utf8::encode_utf8(s.take(i + 1)).len() == vstd::utf8::encode_utf8(s.take(i)).len()
            + vstd::utf8::encode_scalar(s[i] as u32).len(),
{
    assert(s.take(i + 1) =~= s.take(i) + seq![s[i]]);
    lemma_encode_concat(s.take(i), seq![s[i]]);
    assert(vstd::utf8::encode_utf8(seq![s[i]]).len() == vstd::utf8::encode_scalar(
        s[i] as u32,
    ).len()) by {
        let w = seq![s[i]];
        assert(w[0] == s[i]);
        assert(w.drop_first() =~= Seq::<char>::empty());
        assert(vstd::utf8::encode_utf8(Seq::<char>::empty()).len() == 0);
    }
}

/// Longer character prefixes have strictly longer encodings.
pub proof fn lemma_encode_take_mono(s: Seq<char>, x: int, y: int)
    requires
        0 <= x < y <= s.len(),
    ensures
        vstd::utf8::encode_utf8(s.take(x)).len() < vstd::utf8::encode_utf8(s.take(y)).len(),
{
    assert(s.take(y) =~= s.take(x) + s.subrange(x, y));
    lemma_encode_concat(s.take(x), s.subrange(x, y));
    lemma_encoding_at_least_chars(s.subrange(x, y));
}

/// A byte position determines at most one character prefix whose encoding
/// reaches it.
pub proof fn lemma_boundary_unique(s: Seq<char>, x: int, y: int)
    requires
        0 <= x <= s.len(),
        0 <= y <= s.len(),
        vstd::utf8::encode_utf8(s.take(x)).len() == vstd::utf8::encode_utf8(s.take(y)).len(),
    ensures
        x == y,
{
    if x < y {
        lemma_encode_take_mono(s, x, y);
    } else if y < x {
        lemma_encode_take_mono(s, y, x);
    }
}

/// The character position of the character boundary at byte position `b`:
/// the length of the character prefix whose UTF-8 encoding is `b` bytes.
pub open spec fn byte_to_char(s: Seq<char>, b: int) -> int {
    choose|c: int|
        0 <= c <= s.len() && (#[trigger] vstd::utf8::encode_utf8(s.take(c)).len()) == b
}

/// The width of a character's UTF-8 encoding.
fn utf8_char_len(c: char) -> (r: usize)
    ensures
        r == vstd::utf8::encode_scalar(c as u32).len(),
        1 <= r <= 4,
{
    proof {
        vstd::utf8::char_is_scalar(c);
    }
    let u = c as u32;
    if u < 0x80 {
        1
    } else if u < 0x800 {
        2
    } else if u < 0x10000 {
        3
    } else {
        4
    }
}

/// Converts a byte position that lies on a character boundary to the
/// character position of that boundary.
pub fn char_index_at_byte(chars: &Vec<char>, b: usize) -> (r: usize)
    requires
        exists|c: int|
            0 <= c <= chars@.len() && (#[trigger] vstd::utf8::encode_utf8(chars@.take(c)).len())
                == b,
    ensures
        0 <= r <= chars@.len(),
        vstd::utf8::encode_utf8(chars@.take(r as int)).len() == b,
        r == byte_to_char(chars@, b as int),
{
    let ghost c0 = choose|c: int|
        0 <= c <= chars@.len() && (#[trigger] vstd::utf8::encode_utf8(chars@.take(c)).len()) == b;
    let n = chars.len();
    let mut i: usize = 0;
    let mut acc: usize = 0;
    proof {
        assert(chars@.take(0) =~= Seq::<char>::empty());
    }
    while acc < b
        invariant
            n == chars@.len(),
            0 <= i <= c0 <= chars@.len(),
            acc == vstd::utf8::encode_utf8(chars@.take(i as int)).len(),
            vstd::utf8::encode_utf8(chars@.take(c0)).len() == b,
            acc <= b,
        decreases c0 - i,
    {
        proof {
            if i as int == c0 {
                assert(false);
            }
        }
        let c = chars[i];
        let clen = utf8_char_len(c);
        proof {
            lemma_encode_take_step(chars@, i as int);
            if i + 1 < c0 {
                lemma_encode_take_mono(chars@, i + 1, c0);
            }
        }
        acc = acc + clen;
        i = i + 1;
    }
    proof {
        lemma_boundary_unique(chars@, i as int, c0);
        let cc = byte_to_char(chars@, b as int);
        assert(0 <= cc <= chars@.len() && vstd::utf8::encode_utf8(chars@.take(cc)).len()
            == b as int);
        lemma_boundary_unique(chars@, i as int, cc);
    }
    i
}


} // verus!
