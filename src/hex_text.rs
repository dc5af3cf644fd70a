//! Hexadecimal text: the `hex` crate's encoder and decoder, with contracts.
use vstd::prelude::*;

use crate::text_bytes;

verus! {

/// The lowercase hex digit of a value in `0..16`.
pub open spec fn hex_digit(n: int) -> char
    recommends
        0 <= n < 16,
{
    if n < 10 {
        ((48 + n) as u8) as char
    } else {
        ((87 + n) as u8) as char
    }
}

/// Lowercase hex text of `b`: two digits per byte, high nibble first.
pub open spec fn hex_text(b: Seq<u8>) -> Seq<char>
    decreases b.len(),
{
    if b.len() == 0 {
        Seq::empty()
    } else {
        seq![hex_digit(b[0] as int / 16), hex_digit(b[0] as int % 16)] + hex_text(
            b.subrange(1, b.len() as int),
        )
    }
}

/// The value of a hex digit in either case, if `c` is one.
pub open spec fn hex_value(c: u8) -> Option<int> {
    if 48 <= c <= 57 {
        Some(c - 48)
    } else if 97 <= c <= 102 {
        Some(c - 87)
    } else if 65 <= c <= 70 {
        Some(c - 55)
    } else {
        None
    }
}

pub open spec fn is_hex_digit(c: u8) -> bool {
    hex_value(c) is Some
}

#[verifier::external_type_specification]
pub struct ExFromHexError(hex::FromHexError);

/// Decoding of the pairs of digits in `t`, which stands at `offset` in the whole
/// text, as `hex::decode` walks them: the first byte that is no hex digit stops it.
pub open spec fn hex_pairs(t: Seq<u8>, offset: int) -> Result<Seq<u8>, hex::FromHexError>
    decreases t.len(),
{
    if t.len() < 2 {
        Ok(Seq::empty())
    } else if !is_hex_digit(t[0]) {
        Err(hex::FromHexError::InvalidHexCharacter { c: t[0] as char, index: offset as usize })
    } else if !is_hex_digit(t[1]) {
        Err(
            hex::FromHexError::InvalidHexCharacter {
                c: t[1] as char,
                index: (offset + 1) as usize,
            },
        )
    } else {
        match hex_pairs(t.subrange(2, t.len() as int), offset + 2) {
            Ok(rest) => Ok(seq![(hex_value(t[0])->0 * 16 + hex_value(t[1])->0) as u8] + rest),
            Err(e) => Err(e),
        }
    }
}

/// What `hex::decode` gives for the text `t`.
pub open spec fn hex_decoding(t: Seq<u8>) -> Result<Seq<u8>, hex::FromHexError> {
    if t.len() % 2 == 1 {
        Err(hex::FromHexError::OddLength)
    } else {
        hex_pairs(t, 0)
    }
}

/// Relies on `hex::encode`: two lowercase digits for each byte, high nibble first.
/// The length bound keeps the text within what can be allocated.
#[verifier::external_body]
pub(crate) fn hex_encode(b: &[u8]) -> (r: String)
    requires
        2 * b@.len() <= isize::MAX,
    ensures
        r@ == hex_text(b@),
{
    hex::encode(b)
}

/// Relies on `hex::decode`: an odd length fails first; then the pairs are read in
/// order, and the first byte that is no hex digit (either case) fails with its index.
#[verifier::external_body]
pub(crate) fn hex_decode(t: &[u8]) -> (r: Result<Vec<u8>, hex::FromHexError>)
    ensures
        match r {
            Ok(v) => hex_decoding(t@) == Ok::<Seq<u8>, hex::FromHexError>(v@),
            Err(e) => hex_decoding(t@) == Err::<Seq<u8>, hex::FromHexError>(e),
        },
{
    hex::decode(t)
}


proof fn lemma_digit_value(n: int)
    requires
        0 <= n < 16,
    ensures
        hex_value(hex_digit(n) as u8) == Some(n),
{
}

/// Reading back the text of `b` gives `b`.
pub proof fn lemma_hex_round_trip(b: Seq<u8>)
    ensures
        hex_decoding(text_bytes(hex_text(b))) == Ok::<Seq<u8>, hex::FromHexError>(b),
{
    lemma_hex_text_len(b);
    lemma_pairs_of_text(b, 0);
}

pub proof fn lemma_hex_text_len(b: Seq<u8>)
    ensures
        hex_text(b).len() == 2 * b.len(),
    decreases b.len(),
{
    if b.len() > 0 {
        lemma_hex_text_len(b.subrange(1, b.len() as int));
    }
}

proof fn lemma_pairs_of_text(b: Seq<u8>, offset: int)
    ensures
        hex_pairs(text_bytes(hex_text(b)), offset) == Ok::<Seq<u8>, hex::FromHexError>(b),
    decreases b.len(),
{
    if b.len() > 0 {
        let rest = b.subrange(1, b.len() as int);
        let t = text_bytes(hex_text(b));
        lemma_hex_text_len(b);
        lemma_digit_value(b[0] as int / 16);
        lemma_digit_value(b[0] as int % 16);
        assert(t[0] == hex_digit(b[0] as int / 16) as u8);
        assert(t[1] == hex_digit(b[0] as int % 16) as u8);
        assert(t.subrange(2, t.len() as int) =~= text_bytes(hex_text(rest)));
        lemma_pairs_of_text(rest, offset + 2);
        assert(seq![(hex_value(t[0])->0 * 16 + hex_value(t[1])->0) as u8] + rest =~= b);
    } else {
        assert(b =~= Seq::<u8>::empty());
    }
}

/// The first byte that is no hex digit stops the walk, reported with its index.
pub proof fn lemma_hex_first_bad(t: Seq<u8>, offset: int, i: int)
    requires
        t.len() % 2 == 0,
        0 <= i < t.len(),
        offset >= 0,
        forall|j: int| 0 <= j < i ==> is_hex_digit(#[trigger] t[j]),
        !is_hex_digit(t[i]),
    ensures
        hex_pairs(t, offset) == Err::<Seq<u8>, hex::FromHexError>(
            hex::FromHexError::InvalidHexCharacter { c: t[i] as char, index: (offset + i) as usize },
        ),
    decreases t.len(),
{
    if i >= 2 {
        let rest = t.subrange(2, t.len() as int);
        assert(is_hex_digit(t[0]) && is_hex_digit(t[1]));
        assert forall|j: int| 0 <= j < i - 2 implies is_hex_digit(#[trigger] rest[j]) by {
            assert(rest[j] == t[j + 2]);
        }
        lemma_hex_first_bad(rest, offset + 2, i - 2);
    } else if i == 1 {
        assert(is_hex_digit(t[0]));
    }
}


/// Hex text is ASCII.
pub proof fn lemma_hex_ascii(b: Seq<u8>)
    ensures
        vstd::utf8::is_ascii_chars(hex_text(b)),
    decreases b.len(),
{
    if b.len() > 0 {
        let rest = b.subrange(1, b.len() as int);
        lemma_hex_ascii(rest);
        let t = hex_text(b);
        let u = hex_text(rest);
        assert forall|i: int| 0 <= i < t.len() implies '\0' <= #[trigger] t[i] <= '\u{7f}' by {
            if i >= 2 {
                assert(t[i] == u[i - 2]);
            }
        }
    }
}

} // verus!
