//! The format policy: which text a byte blob becomes, how that text is read
//! back, and how a failure to read it is reported.
use vstd::prelude::*;

use crate::base64_text::{
    pad_byte,
    base64_decode, base64_decoding, base64_encode, base64_text, foreign_at,
    lemma_base64_ascii, lemma_padded_text, lemma_symbol_bytes, lemma_unpadded_text, misplaced_pad,
    padded_at, pads, reads_own_padding, reported_first, trailing_bits_set, symbols_up_to, valid_alphabet, Base64Alphabet, Base64Config,
};
use crate::hex_text::{
    hex_decode, hex_decoding, hex_encode, hex_text, is_hex_digit, lemma_hex_ascii,
    lemma_hex_first_bad, lemma_hex_round_trip,
};
use crate::text_bytes;

verus! {

/// The codec that a decoding failure comes from.
#[derive(Clone, Copy, Debug, PartialEq, Eq, Structural)]
pub enum Codec {
    Base64,
    Hex,
}

/// Why a text could not be read back as bytes.
#[derive(Clone, Copy, Debug, PartialEq, Eq, Structural)]
pub enum DecodeFailure {
    /// The text's length breaks the codec's rule on lengths; `length` is the
    /// length of the whole text.
    InvalidLength { length: usize, codec: Codec },
    /// The byte at `index` is no symbol of the codec.
    InvalidCharacter { byte: u8, index: usize, codec: Codec },
    /// The last symbol before the padding carries bits that a canonical text
    /// leaves zero.
    InvalidLastSymbol { byte: u8 },
    /// The padding is not what the configuration asks for.
    InvalidPadding,
}

/// How a failure of the Base64 engine is reported, for a text of `length` bytes.
pub open spec fn base64_failure(e: base64::DecodeError, length: usize) -> DecodeFailure {
    match e {
        base64::DecodeError::InvalidByte(index, byte) => DecodeFailure::InvalidCharacter {
            byte,
            index,
            codec: Codec::Base64,
        },
        base64::DecodeError::InvalidLength(_) => DecodeFailure::InvalidLength {
            length,
            codec: Codec::Base64,
        },
        base64::DecodeError::InvalidLastSymbol(_, byte) => DecodeFailure::InvalidLastSymbol {
            byte,
        },
        base64::DecodeError::InvalidPadding => DecodeFailure::InvalidPadding,
    }
}

/// How a failure of the hex decoder is reported, for a text of `length` bytes.
pub open spec fn hex_failure(e: hex::FromHexError, length: usize) -> DecodeFailure {
    match e {
        hex::FromHexError::InvalidHexCharacter { c, index } => DecodeFailure::InvalidCharacter {
            byte: c as u8,
            index,
            codec: Codec::Hex,
        },
        _ => DecodeFailure::InvalidLength { length, codec: Codec::Hex },
    }
}

/// Reports a failure of the Base64 engine on a text of `length` bytes.
pub fn from_base64_error(e: base64::DecodeError, length: usize) -> (r: DecodeFailure)
    ensures
        r == base64_failure(e, length),
{
    match e {
        base64::DecodeError::InvalidByte(index, byte) => DecodeFailure::InvalidCharacter {
            byte,
            index,
            codec: Codec::Base64,
        },
        base64::DecodeError::InvalidLength(_) => DecodeFailure::InvalidLength {
            length,
            codec: Codec::Base64,
        },
        base64::DecodeError::InvalidLastSymbol(_, byte) => DecodeFailure::InvalidLastSymbol {
            byte,
        },
        base64::DecodeError::InvalidPadding => DecodeFailure::InvalidPadding,
    }
}

/// Reports a failure of the hex decoder on a text of `length` bytes.
pub fn from_hex_error(e: hex::FromHexError, length: usize) -> (r: DecodeFailure)
    ensures
        r == hex_failure(e, length),
{
    match e {
        hex::FromHexError::InvalidHexCharacter { c, index } => DecodeFailure::InvalidCharacter {
            byte: c as u8,
            index,
            codec: Codec::Hex,
        },
        hex::FromHexError::OddLength => DecodeFailure::InvalidLength {
            length,
            codec: Codec::Hex,
        },
        hex::FromHexError::InvalidStringLength => DecodeFailure::InvalidLength {
            length,
            codec: Codec::Hex,
        },
    }
}

/// The decimal digit of a value in `0..10`.
pub open spec fn decimal_digit(n: int) -> char {
    ((48 + n) as u8) as char
}

/// The decimal digits of `n`, without sign or leading zeros.
pub open spec fn decimal_text(n: nat) -> Seq<char>
    decreases n,
{
    if n < 10 {
        seq![decimal_digit(n as int)]
    } else {
        decimal_text(n / 10) + seq![decimal_digit((n % 10) as int)]
    }
}

/// The one-digit text of `d`.
fn digit_text(d: usize) -> (r: &'static str)
    requires
        d < 10,
    ensures
        r@ == seq![decimal_digit(d as int)],
{
    proof {
        reveal_strlit("0");
        reveal_strlit("1");
        reveal_strlit("2");
        reveal_strlit("3");
        reveal_strlit("4");
        reveal_strlit("5");
        reveal_strlit("6");
        reveal_strlit("7");
        reveal_strlit("8");
        reveal_strlit("9");
    }
    match d {
        0 => "0",
        1 => "1",
        2 => "2",
        3 => "3",
        4 => "4",
        5 => "5",
        6 => "6",
        7 => "7",
        8 => "8",
        _ => "9",
    }
}

/// The decimal digits of `n`.
fn decimal(n: usize) -> (r: String)
    ensures
        r@ == decimal_text(n as nat),
    decreases n,
{
    if n < 10 {
        String::from_str(digit_text(n))
    } else {
        decimal(n / 10).concat(digit_text(n % 10))
    }
}

/// What a reader of the failure was expecting to find.
pub open spec fn expected_text(f: DecodeFailure) -> Seq<char> {
    match f {
        DecodeFailure::InvalidLength { codec: Codec::Base64, .. } => "valid base64 length"@,
        DecodeFailure::InvalidLength { codec: Codec::Hex, .. } => "even length"@,
        DecodeFailure::InvalidCharacter { index, codec: Codec::Base64, .. } =>
            "valid base64 character at index "@ + decimal_text(index as nat),
        DecodeFailure::InvalidCharacter { index, codec: Codec::Hex, .. } =>
            "valid hex character at index "@ + decimal_text(index as nat),
        DecodeFailure::InvalidLastSymbol { .. } => "valid character ending base64 string"@,
        DecodeFailure::InvalidPadding => "valid padding"@,
    }
}

impl DecodeFailure {
    /// What was expected in place of what was found, in words.
    pub fn expected(&self) -> (r: String)
        ensures
            r@ == expected_text(*self),
    {
        match self {
            DecodeFailure::InvalidLength { codec: Codec::Base64, .. } => String::from_str(
                "valid base64 length",
            ),
            DecodeFailure::InvalidLength { codec: Codec::Hex, .. } => String::from_str(
                "even length",
            ),
            DecodeFailure::InvalidCharacter { index, codec: Codec::Base64, .. } => String::from_str(
                "valid base64 character at index ",
            ).concat(decimal(*index).as_str()),
            DecodeFailure::InvalidCharacter { index, codec: Codec::Hex, .. } => String::from_str(
                "valid hex character at index ",
            ).concat(decimal(*index).as_str()),
            DecodeFailure::InvalidLastSymbol { .. } => String::from_str(
                "valid character ending base64 string",
            ),
            DecodeFailure::InvalidPadding => String::from_str("valid padding"),
        }
    }
}

/// The model of a format policy: Base64 over an alphabet with a configuration,
/// or lowercase hexadecimal.
pub enum FormatPolicy {
    Base64 { alphabet: Seq<char>, config: Base64Config },
    Hex,
}

impl FormatPolicy {
    pub open spec fn valid(self) -> bool {
        match self {
            FormatPolicy::Base64 { alphabet, .. } => valid_alphabet(alphabet),
            FormatPolicy::Hex => true,
        }
    }

    pub open spec fn codec(self) -> Codec {
        match self {
            FormatPolicy::Base64 { .. } => Codec::Base64,
            FormatPolicy::Hex => Codec::Hex,
        }
    }

    /// The text that a blob `b` becomes.
    pub open spec fn encoded(self, b: Seq<u8>) -> Seq<char> {
        match self {
            FormatPolicy::Base64 { alphabet, config } => base64_text(
                alphabet,
                config.encode_padding,
                b,
            ),
            FormatPolicy::Hex => hex_text(b),
        }
    }

    /// What reading the text `t` back gives.
    pub open spec fn decoded(self, t: Seq<u8>) -> Result<Seq<u8>, DecodeFailure> {
        match self {
            FormatPolicy::Base64 { alphabet, config } => match base64_decoding(
                alphabet,
                config,
                t,
            ) {
                Ok(v) => Ok(v),
                Err(e) => Err(base64_failure(e, t.len() as usize)),
            },
            FormatPolicy::Hex => match hex_decoding(t) {
                Ok(v) => Ok(v),
                Err(e) => Err(hex_failure(e, t.len() as usize)),
            },
        }
    }

    /// Text written under this policy is accepted when read under it.
    pub open spec fn reads_own_text(self) -> bool {
        match self {
            FormatPolicy::Base64 { config, .. } => reads_own_padding(config),
            FormatPolicy::Hex => true,
        }
    }

    /// The text of a blob of `n` bytes fits in memory: its length, and for Base64
    /// the engine's room for padding, stay within `isize::MAX`.
    pub open spec fn encodable(self, n: nat) -> bool {
        match self {
            FormatPolicy::Base64 { .. } => n / 3 * 4 + 4 <= isize::MAX,
            FormatPolicy::Hex => 2 * n <= isize::MAX,
        }
    }

    /// The byte at `i` is the first one of `t` that is no symbol of the codec (nor,
    /// for Base64, padding), and the decoder's earlier checks do not stop it first:
    /// hex checks for an odd length; Base64 looks at the last byte first when one
    /// byte is left over whole quads.
    pub open spec fn first_foreign(self, t: Seq<u8>, i: int) -> bool {
        match self {
            FormatPolicy::Base64 { alphabet, .. } => foreign_at(alphabet, t, i) && reported_first(
                alphabet,
                t,
                i,
            ),
            FormatPolicy::Hex => {
                &&& t.len() % 2 == 0
                &&& 0 <= i < t.len()
                &&& forall|j: int| 0 <= j < i ==> is_hex_digit(#[trigger] t[j])
                &&& !is_hex_digit(t[i])
            },
        }
    }

    /// The length of `t` breaks the codec's rule: odd for hex; for Base64, symbols
    /// alone, one past whole quads.
    pub open spec fn bad_length(self, t: Seq<u8>) -> bool {
        match self {
            FormatPolicy::Base64 { alphabet, .. } => symbols_up_to(alphabet, t, t.len() as int)
                && t.len() % 4 == 1,
            FormatPolicy::Hex => t.len() % 2 == 1,
        }
    }

    /// Base64 in canonical mode, and `t` is symbols alone that end in a partial
    /// quad without the padding that would complete it.
    pub open spec fn missing_padding(self, t: Seq<u8>) -> bool {
        match self {
            FormatPolicy::Base64 { alphabet, config } => {
                &&& config.decode_padding_mode
                    == base64::engine::DecodePaddingMode::RequireCanonical
                &&& symbols_up_to(alphabet, t, t.len() as int)
                &&& (t.len() % 4 == 2 || t.len() % 4 == 3)
            },
            FormatPolicy::Hex => false,
        }
    }
}

impl FormatPolicy {
    /// Base64 with the decoding padding mode `mode`.
    pub open spec fn base64_in_mode(self, mode: base64::engine::DecodePaddingMode) -> bool {
        self matches FormatPolicy::Base64 { config, .. } && config.decode_padding_mode == mode
    }

    /// Base64, and padding `=` stands at `i` after symbols alone, where the
    /// decoder does not allow it (see `misplaced_pad`), and no earlier check of
    /// the decoder stops it first.
    pub open spec fn misplaced_padding(self, t: Seq<u8>, i: int) -> bool {
        match self {
            FormatPolicy::Base64 { alphabet, .. } => misplaced_pad(alphabet, t, i)
                && reported_first(alphabet, t, i),
            FormatPolicy::Hex => false,
        }
    }

    /// Base64 that allows no padding, and `t` is `n` symbols followed by padding
    /// that would complete its last quad.
    pub open spec fn unwanted_padding(self, t: Seq<u8>, n: int) -> bool {
        match self {
            FormatPolicy::Base64 { alphabet, config } => config.decode_padding_mode
                == base64::engine::DecodePaddingMode::RequireNone && padded_at(alphabet, t, n),
            FormatPolicy::Hex => false,
        }
    }

    /// Base64 that neither requires padding nor allows trailing bits, and the
    /// last symbol of unpadded `t` has a discarded bit set.
    pub open spec fn stray_trailing_bits(self, t: Seq<u8>) -> bool {
        match self {
            FormatPolicy::Base64 { alphabet, config } => {
                &&& trailing_bits_set(alphabet, t)
                &&& !config.decode_allow_trailing_bits
                &&& config.decode_padding_mode
                    != base64::engine::DecodePaddingMode::RequireCanonical
            },
            FormatPolicy::Hex => false,
        }
    }

    /// Under Base64, the bytes of the text of `b` written with padding.
    pub open spec fn padded_text(self, b: Seq<u8>) -> Seq<u8> {
        match self {
            FormatPolicy::Base64 { alphabet, .. } => text_bytes(base64_text(alphabet, true, b)),
            FormatPolicy::Hex => text_bytes(hex_text(b)),
        }
    }

    /// Under Base64, the bytes of the text of `b` written without padding.
    pub open spec fn unpadded_text(self, b: Seq<u8>) -> Seq<u8> {
        match self {
            FormatPolicy::Base64 { alphabet, .. } => text_bytes(base64_text(alphabet, false, b)),
            FormatPolicy::Hex => text_bytes(hex_text(b)),
        }
    }
}

/// A decoding outcome with the bytes taken as a sequence.
pub open spec fn outcome(r: Result<Vec<u8>, DecodeFailure>) -> Result<Seq<u8>, DecodeFailure> {
    match r {
        Ok(v) => Ok(v@),
        Err(e) => Err(e),
    }
}

/// Decoding gave the bytes `b`.
pub open spec fn gives(r: Result<Vec<u8>, DecodeFailure>, b: Seq<u8>) -> bool {
    outcome(r) == Result::<Seq<u8>, DecodeFailure>::Ok(b)
}

/// Decoding failed with `f`.
pub open spec fn fails_with(r: Result<Vec<u8>, DecodeFailure>, f: DecodeFailure) -> bool {
    r == Result::<Vec<u8>, DecodeFailure>::Err(f)
}

#[derive(Debug)]
enum Repr {
    Base64(String, Base64Config),
    Hex,
}

/// A format policy: how byte blobs are written as text and read back.
#[derive(Debug)]
pub struct ByteFormat {
    repr: Repr,
}

impl View for ByteFormat {
    type V = FormatPolicy;

    closed spec fn view(&self) -> FormatPolicy {
        match self.repr {
            Repr::Base64(alphabet, config) => FormatPolicy::Base64 { alphabet: alphabet@, config },
            Repr::Hex => FormatPolicy::Hex,
        }
    }
}

impl Clone for ByteFormat {
    fn clone(&self) -> (r: Self)
        ensures
            r@ == self@,
    {
        proof {
            use_type_invariant(self);
        }
        match &self.repr {
            Repr::Base64(alphabet, config) => ByteFormat {
                repr: Repr::Base64(alphabet.clone(), *config),
            },
            Repr::Hex => ByteFormat { repr: Repr::Hex },
        }
    }
}

impl ByteFormat {
    #[verifier::type_invariant]
    closed spec fn inv(self) -> bool {
        self@.valid()
    }

    /// Base64 over the symbols of `alphabet`, with `config`.
    pub fn base64(alphabet: &Base64Alphabet, config: Base64Config) -> (r: ByteFormat)
        ensures
            r@ == (FormatPolicy::Base64 { alphabet: alphabet@, config }),
    {
        ByteFormat { repr: Repr::Base64(String::from_str(alphabet.as_str()), config) }
    }

    /// Lowercase hexadecimal.
    pub fn hex() -> (r: ByteFormat)
        ensures
            r@ == FormatPolicy::Hex,
    {
        ByteFormat { repr: Repr::Hex }
    }

    /// The text that the blob `b` becomes. It is ASCII, so its UTF-8 bytes are
    /// its characters one for one.
    pub fn encode(&self, b: &[u8]) -> (r: String)
        requires
            self@.encodable(b@.len()),
        ensures
            r@ == self@.encoded(b@),
            vstd::utf8::encode_utf8(r@) == text_bytes(r@),
    {
        proof {
            use_type_invariant(self);
        }
        let r = match &self.repr {
            Repr::Base64(alphabet, config) => {
                proof {
                    lemma_base64_ascii(alphabet@, config.encode_padding, b@);
                }
                base64_encode(alphabet.as_str(), *config, b)
            },
            Repr::Hex => {
                proof {
                    lemma_hex_ascii(b@);
                }
                hex_encode(b)
            },
        };
        proof {
            vstd::utf8::is_ascii_chars_encode_utf8(r@);
            assert(vstd::utf8::encode_utf8(r@) =~= text_bytes(r@));
        }
        r
    }

    /// Reads the text `t` back as bytes. Text that this policy wrote for a blob
    /// gives that blob back; a foreign byte, a length that breaks the codec's rule,
    /// and padding missing in canonical mode each fail as the contract says.
    pub fn decode(&self, t: &[u8]) -> (r: Result<Vec<u8>, DecodeFailure>)
        ensures
            outcome(r) == self@.decoded(t@),
            forall|b: Seq<u8>|
                self@.reads_own_text() && #[trigger] text_bytes(self@.encoded(b)) == t@ ==> gives(
                    r,
                    b,
                ),
            forall|i: int|
                self@.first_foreign(t@, i) ==> fails_with(
                    r,
                    DecodeFailure::InvalidCharacter {
                        byte: #[trigger] t@[i],
                        index: i as usize,
                        codec: self@.codec(),
                    },
                ),
            self@.bad_length(t@) ==> fails_with(
                r,
                DecodeFailure::InvalidLength { length: t@.len() as usize, codec: self@.codec() },
            ),
            self@.missing_padding(t@) ==> fails_with(r, DecodeFailure::InvalidPadding),
            forall|b: Seq<u8>|
                self@ is Base64 && b.len() % 3 != 0 && #[trigger] self@.unpadded_text(b) == t@
                    ==> (self@.base64_in_mode(base64::engine::DecodePaddingMode::Indifferent)
                    ==> gives(r, b)) && (self@.base64_in_mode(
                    base64::engine::DecodePaddingMode::RequireCanonical,
                ) ==> fails_with(r, DecodeFailure::InvalidPadding)),
            forall|b: Seq<u8>|
                self@ is Base64 && b.len() % 3 != 0 && #[trigger] self@.padded_text(b) == t@
                    ==> (self@.base64_in_mode(base64::engine::DecodePaddingMode::Indifferent)
                    ==> gives(r, b)) && (self@.base64_in_mode(
                    base64::engine::DecodePaddingMode::RequireNone,
                ) ==> fails_with(r, DecodeFailure::InvalidPadding)),
            forall|i: int|
                #[trigger] self@.misplaced_padding(t@, i) ==> fails_with(
                    r,
                    DecodeFailure::InvalidCharacter {
                        byte: 61,
                        index: i as usize,
                        codec: Codec::Base64,
                    },
                ),
            forall|n: int|
                #[trigger] self@.unwanted_padding(t@, n) ==> fails_with(
                    r,
                    DecodeFailure::InvalidPadding,
                ),
            self@.stray_trailing_bits(t@) ==> fails_with(
                r,
                DecodeFailure::InvalidLastSymbol { byte: t@.last() },
            ),
    {
        proof {
            use_type_invariant(self);
        }
        match &self.repr {
            Repr::Base64(alphabet, config) => {
                let res = base64_decode(alphabet.as_str(), *config, t);
                proof {
                    assert forall|b: Seq<u8>|
                        self@.reads_own_text() && #[trigger] text_bytes(self@.encoded(b))
                            == t@ implies base64_decoding(alphabet@, *config, t@) == Ok::<
                        Seq<u8>,
                        base64::DecodeError,
                    >(b) by {
                        assert(text_bytes(base64_text(alphabet@, config.encode_padding, b)) == t@);
                    }
                    assert forall|b: Seq<u8>|
                        b.len() % 3 != 0 && #[trigger] self@.unpadded_text(b) == t@ implies ((
                    self@.base64_in_mode(base64::engine::DecodePaddingMode::Indifferent)
                        ==> base64_decoding(alphabet@, *config, t@) == Ok::<
                        Seq<u8>,
                        base64::DecodeError,
                    >(b)) && (self@.base64_in_mode(
                        base64::engine::DecodePaddingMode::RequireCanonical,
                    ) ==> self@.missing_padding(t@))) by {
                        let text = base64_text(alphabet@, false, b);
                        assert(text_bytes(text) == t@);
                        lemma_unpadded_text(alphabet@, b);
                        lemma_symbol_bytes(alphabet@, text);
                    }
                    assert forall|b: Seq<u8>|
                        b.len() % 3 != 0 && #[trigger] self@.padded_text(b) == t@ implies ((
                    self@.base64_in_mode(base64::engine::DecodePaddingMode::Indifferent)
                        ==> base64_decoding(alphabet@, *config, t@) == Ok::<
                        Seq<u8>,
                        base64::DecodeError,
                    >(b)) && (self@.base64_in_mode(base64::engine::DecodePaddingMode::RequireNone)
                        ==> self@.unwanted_padding(t@, base64_text(alphabet@, false, b).len() as int)))
                        by {
                        let a = alphabet@;
                        let unpadded = base64_text(a, false, b);
                        let n = unpadded.len() as int;
                        lemma_padded_text(a, b);
                        lemma_unpadded_text(a, b);
                        lemma_symbol_bytes(a, unpadded);
                        let p = 3 - b.len() % 3;
                        assert(base64_text(a, true, b) == unpadded + pads(p));
                        assert(t@.len() == n + p);
                        assert forall|j: int| 0 <= j < n implies #[trigger] t@[j]
                            == text_bytes(unpadded)[j] by {
                            assert(base64_text(a, true, b)[j] == unpadded[j]);
                        }
                        assert forall|j: int| n <= j < t@.len() implies #[trigger] t@[j]
                            == pad_byte() by {
                            assert(base64_text(a, true, b)[j] == '=');
                        }
                        assert(symbols_up_to(a, t@, n));
                        assert(padded_at(a, t@, n));
                    }
                }
                match res {
                    Ok(v) => Ok(v),
                    Err(e) => Err(from_base64_error(e, t.len())),
                }
            },
            Repr::Hex => {
                let res = hex_decode(t);
                proof {
                    assert forall|b: Seq<u8>| #[trigger]
                        text_bytes(self@.encoded(b)) == t@ implies hex_decoding(t@) == Ok::<
                        Seq<u8>,
                        hex::FromHexError,
                    >(b) by {
                        lemma_hex_round_trip(b);
                    }
                    assert forall|i: int| self@.first_foreign(t@, i) implies hex_decoding(t@)
                        == Err::<Seq<u8>, hex::FromHexError>(
                        hex::FromHexError::InvalidHexCharacter {
                            c: t@[i] as char,
                            index: i as usize,
                        },
                    ) by {
                        lemma_hex_first_bad(t@, 0, i);
                    }
                }
                match res {
                    Ok(v) => Ok(v),
                    Err(e) => Err(from_hex_error(e, t.len())),
                }
            },
        }
    }
}

} // verus!
