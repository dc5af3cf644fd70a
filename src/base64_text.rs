//! Base64 text: the `base64` crate's general-purpose engine, with contracts.
use vstd::prelude::*;

use crate::text_bytes;

verus! {

#[verifier::external_type_specification]
pub struct ExParseAlphabetError(base64::alphabet::ParseAlphabetError);

#[verifier::external_type_specification]
pub struct ExDecodePaddingMode(base64::engine::DecodePaddingMode);

#[verifier::external_type_specification]
pub struct ExDecodeError(base64::DecodeError);

/// The padding byte `=`.
pub open spec fn pad_byte() -> u8 {
    61
}

/// What `base64::alphabet::Alphabet::new` accepts: 64 distinct printable ASCII
/// symbols, none of them the padding byte.
pub open spec fn valid_alphabet(a: Seq<char>) -> bool {
    &&& a.len() == 64
    &&& forall|i: int| 0 <= i < 64 ==> 32 <= #[trigger] (a[i] as u32) <= 126 && a[i] != '='
    &&& forall|i: int, j: int| 0 <= i < j < 64 ==> #[trigger] a[i] != #[trigger] a[j]
}

/// The settings of a Base64 engine, as plain values; `new` gives the engine's
/// defaults (padding written, canonical padding required, no trailing bits).
#[derive(Clone, Copy, Debug)]
pub struct Base64Config {
    pub encode_padding: bool,
    pub decode_allow_trailing_bits: bool,
    pub decode_padding_mode: base64::engine::DecodePaddingMode,
}

impl Base64Config {
    pub fn new() -> (r: Base64Config)
        ensures
            r == (Base64Config {
                encode_padding: true,
                decode_allow_trailing_bits: false,
                decode_padding_mode: base64::engine::DecodePaddingMode::RequireCanonical,
            }),
    {
        Base64Config {
            encode_padding: true,
            decode_allow_trailing_bits: false,
            decode_padding_mode: base64::engine::DecodePaddingMode::RequireCanonical,
        }
    }

    pub fn with_encode_padding(self, padding: bool) -> (r: Base64Config)
        ensures
            r == (Base64Config { encode_padding: padding, ..self }),
    {
        Base64Config { encode_padding: padding, ..self }
    }

    pub fn with_decode_allow_trailing_bits(self, allow: bool) -> (r: Base64Config)
        ensures
            r == (Base64Config { decode_allow_trailing_bits: allow, ..self }),
    {
        Base64Config { decode_allow_trailing_bits: allow, ..self }
    }

    pub fn with_decode_padding_mode(self, mode: base64::engine::DecodePaddingMode) -> (r:
        Base64Config)
        ensures
            r == (Base64Config { decode_padding_mode: mode, ..self }),
    {
        Base64Config { decode_padding_mode: mode, ..self }
    }
}

/// Whether a decoder in `mode` accepts text written with padding (`pad`) or
/// without it.
pub open spec fn padding_accepted(mode: base64::engine::DecodePaddingMode, pad: bool) -> bool {
    ||| mode == base64::engine::DecodePaddingMode::Indifferent
    ||| pad && mode == base64::engine::DecodePaddingMode::RequireCanonical
    ||| !pad && mode == base64::engine::DecodePaddingMode::RequireNone
}

/// Whether text that this configuration writes is accepted by its own decoder.
pub open spec fn reads_own_padding(c: Base64Config) -> bool {
    padding_accepted(c.decode_padding_mode, c.encode_padding)
}

/// Base64 text of `b` over the alphabet `a` (RFC 4648): each three bytes give
/// four symbols of six bits each; a last group of one or two bytes gives two or
/// three symbols, followed by `=` up to four when `pad` holds.
pub open spec fn base64_text(a: Seq<char>, pad: bool, b: Seq<u8>) -> Seq<char>
    decreases b.len(),
{
    if b.len() == 0 {
        Seq::empty()
    } else {
        let x = b[0] as int;
        let y = if b.len() > 1 { b[1] as int } else { 0 };
        let z = if b.len() > 2 { b[2] as int } else { 0 };
        let first_two = seq![a[x / 4], a[(x % 4) * 16 + y / 16]];
        if b.len() >= 3 {
            first_two + seq![a[(y % 16) * 4 + z / 64], a[z % 64]] + base64_text(
                a,
                pad,
                b.subrange(3, b.len() as int),
            )
        } else if b.len() == 2 {
            first_two + seq![a[(y % 16) * 4]] + if pad {
                seq!['=']
            } else {
                Seq::empty()
            }
        } else {
            first_two + if pad {
                seq!['=', '=']
            } else {
                Seq::empty()
            }
        }
    }
}

pub open spec fn is_symbol(a: Seq<char>, x: u8) -> bool {
    a.contains(x as char)
}

/// The first `n` bytes of `t` are all symbols of `a`.
pub open spec fn symbols_up_to(a: Seq<char>, t: Seq<u8>, n: int) -> bool {
    forall|j: int| 0 <= j < n ==> is_symbol(a, #[trigger] t[j])
}

/// The byte at `i` is neither a symbol nor padding, and only symbols stand before it.
pub open spec fn foreign_at(a: Seq<char>, t: Seq<u8>, i: int) -> bool {
    &&& 0 <= i < t.len()
    &&& symbols_up_to(a, t, i)
    &&& !is_symbol(a, t[i])
    &&& t[i] != pad_byte()
}

/// The decoder looks at the last byte first when the length leaves one byte over
/// whole quads; that check does not pre-empt the one at `i`.
pub open spec fn reported_first(a: Seq<char>, t: Seq<u8>, i: int) -> bool {
    ||| t.len() % 4 != 1
    ||| i == t.len() - 1
    ||| is_symbol(a, t.last())
    ||| t.last() == pad_byte()
}

/// Padding `=` stands at `i`, with only symbols before it, where the decoder
/// does not allow it: in the first half of a quad, or before some other byte.
pub open spec fn misplaced_pad(a: Seq<char>, t: Seq<u8>, i: int) -> bool {
    &&& 0 <= i < t.len()
    &&& symbols_up_to(a, t, i)
    &&& t[i] == pad_byte()
    &&& (i % 4 < 2 || exists|j: int| i < j < t.len() && t[j] != pad_byte())
}

/// The first `n` bytes of `t` are symbols, two or three past whole quads, and
/// the one or two bytes after them are padding that keeps the last quad within
/// four bytes.
pub open spec fn padded_at(a: Seq<char>, t: Seq<u8>, n: int) -> bool {
    &&& 0 <= n
    &&& (t.len() - n == 1 || t.len() - n == 2)
    &&& symbols_up_to(a, t, n)
    &&& forall|j: int| n <= j < t.len() ==> #[trigger] t[j] == pad_byte()
    &&& (n % 4 == 2 || n % 4 == 3)
    &&& n % 4 + (t.len() - n) <= 4
}

/// `t` is symbols alone, two or three past whole quads, and its last symbol
/// carries bits that the partial quad discards (the low four bits of its value
/// after two symbols, the low two after three) with one of them set.
pub open spec fn trailing_bits_set(a: Seq<char>, t: Seq<u8>) -> bool {
    &&& symbols_up_to(a, t, t.len() as int)
    &&& (t.len() % 4 == 2 || t.len() % 4 == 3)
    &&& exists|k: int|
        0 <= k < a.len() && a[k] == t.last() as char && (if t.len() % 4 == 2 {
            k % 16 != 0
        } else {
            k % 4 != 0
        })
}

/// What the engine's decoder returns.
pub type Base64Result = Result<Vec<u8>, base64::DecodeError>;

/// A decoding outcome with the bytes taken as a sequence.
pub open spec fn result_view(r: Base64Result) -> Result<Seq<u8>, base64::DecodeError> {
    match r {
        Ok(v) => Ok(v@),
        Err(e) => Err(e),
    }
}

/// The decoder returned the bytes `b`.
pub open spec fn gives_bytes(r: Base64Result, b: Seq<u8>) -> bool {
    result_view(r) == Result::<Seq<u8>, base64::DecodeError>::Ok(b)
}

/// The decoder failed with `e`.
pub open spec fn fails_with(r: Base64Result, e: base64::DecodeError) -> bool {
    r == Base64Result::Err(e)
}

/// What the general-purpose engine of `base64` gives when it decodes `text` with
/// the alphabet `alphabet` and the decoding settings of `config`.
pub uninterp spec fn base64_decoding(
    alphabet: Seq<char>,
    config: Base64Config,
    text: Seq<u8>,
) -> Result<Seq<u8>, base64::DecodeError>;

/// Relies on `Alphabet::new`: it accepts exactly 64 distinct printable ASCII
/// bytes (32 to 126) other than `=`, and the bytes of such text are its
/// characters.
#[verifier::external_body]
fn check_alphabet(symbols: &str) -> (r: Result<(), base64::alphabet::ParseAlphabetError>)
    ensures
        r is Ok <==> valid_alphabet(symbols@),
{
    base64::alphabet::Alphabet::new(symbols).map(|_alphabet| ())
}

/// The 64 symbols of a Base64 alphabet, in the order of the values they stand for.
#[derive(Debug)]
pub struct Base64Alphabet {
    symbols: String,
}

impl View for Base64Alphabet {
    type V = Seq<char>;

    closed spec fn view(&self) -> Seq<char> {
        self.symbols@
    }
}

impl Base64Alphabet {
    #[verifier::type_invariant]
    closed spec fn inv(self) -> bool {
        valid_alphabet(self.symbols@)
    }

    /// The alphabet whose symbols are `symbols`, if they make one: 64 distinct
    /// printable ASCII characters other than `=`.
    pub fn new(symbols: &str) -> (r: Result<Base64Alphabet, base64::alphabet::ParseAlphabetError>)
        ensures
            r is Ok <==> valid_alphabet(symbols@),
            r matches Ok(a) ==> a@ == symbols@,
    {
        match check_alphabet(symbols) {
            Ok(()) => Ok(Base64Alphabet { symbols: String::from_str(symbols) }),
            Err(e) => Err(e),
        }
    }

    /// The symbols, in order.
    pub fn as_str(&self) -> (r: &str)
        ensures
            r@ == self@,
            valid_alphabet(r@),
    {
        proof {
            use_type_invariant(self);
        }
        self.symbols.as_str()
    }
}

impl Clone for Base64Alphabet {
    fn clone(&self) -> (r: Self)
        ensures
            r@ == self@,
    {
        proof {
            use_type_invariant(self);
        }
        Base64Alphabet { symbols: self.symbols.clone() }
    }
}

/// Relies on `Engine::encode` of `GeneralPurpose`: RFC 4648 text over the given
/// alphabet, padded when the configuration says so. `Alphabet::new`
/// accepts every valid alphabet, and the length bound keeps the engine's size
/// computation from overflowing and its buffer within what can be allocated.
#[verifier::external_body]
pub(crate) fn base64_encode(a: &str, c: Base64Config, b: &[u8]) -> (r: String)
    requires
        valid_alphabet(a@),
        b@.len() / 3 * 4 + 4 <= isize::MAX,
    ensures
        r@ == base64_text(a@, c.encode_padding, b@),
{
    let alphabet = base64::alphabet::Alphabet::new(a).unwrap();
    let config = base64::engine::GeneralPurposeConfig::new().with_encode_padding(
        c.encode_padding,
    ).with_decode_allow_trailing_bits(c.decode_allow_trailing_bits).with_decode_padding_mode(
        c.decode_padding_mode,
    );
    base64::Engine::encode(&base64::engine::GeneralPurpose::new(&alphabet, config), b)
}

/// Relies on `Engine::decode` of `GeneralPurpose`. Canonical text of a blob, with
/// or without padding as the padding mode accepts, gives the blob back. Of its
/// checks, as its source makes them: a byte that is neither a symbol nor padding,
/// or padding out of place, is reported with its index; symbols alone, one past
/// whole quads, are an invalid length; symbols alone, two or three past whole
/// quads, lack the padding that canonical mode asks for, and padding after them
/// is refused where none is allowed; discarded bits that are set in the last
/// symbol are refused unless the configuration allows them.
#[verifier::external_body]
pub(crate) fn base64_decode(a: &str, c: Base64Config, t: &[u8]) -> (r: Base64Result)
    requires
        valid_alphabet(a@),
    ensures
        result_view(r) == base64_decoding(a@, c, t@),
        forall|b: Seq<u8>, pad: bool|
            padding_accepted(c.decode_padding_mode, pad) && #[trigger] text_bytes(
                base64_text(a@, pad, b),
            ) == t@ ==> gives_bytes(r, b),
        forall|i: int|
            foreign_at(a@, t@, i) && reported_first(a@, t@, i) ==> fails_with(
                r,
                base64::DecodeError::InvalidByte(i as usize, #[trigger] t@[i]),
            ),
        symbols_up_to(a@, t@, t@.len() as int) && t@.len() % 4 == 1 ==> fails_with(
            r,
            base64::DecodeError::InvalidLength(t@.len() as usize),
        ),
        symbols_up_to(a@, t@, t@.len() as int) && (t@.len() % 4 == 2 || t@.len() % 4 == 3)
            && c.decode_padding_mode == base64::engine::DecodePaddingMode::RequireCanonical
            ==> fails_with(r, base64::DecodeError::InvalidPadding),
        forall|i: int|
            #[trigger] misplaced_pad(a@, t@, i) && reported_first(a@, t@, i) ==> fails_with(
                r,
                base64::DecodeError::InvalidByte(i as usize, pad_byte()),
            ),
        forall|n: int|
            #[trigger] padded_at(a@, t@, n) && c.decode_padding_mode
                == base64::engine::DecodePaddingMode::RequireNone ==> fails_with(
                r,
                base64::DecodeError::InvalidPadding,
            ),
        trailing_bits_set(a@, t@) && !c.decode_allow_trailing_bits && c.decode_padding_mode
            != base64::engine::DecodePaddingMode::RequireCanonical ==> fails_with(
            r,
            base64::DecodeError::InvalidLastSymbol((t@.len() - 1) as usize, t@.last()),
        ),
{
    let alphabet = base64::alphabet::Alphabet::new(a).unwrap();
    let config = base64::engine::GeneralPurposeConfig::new().with_encode_padding(
        c.encode_padding,
    ).with_decode_allow_trailing_bits(c.decode_allow_trailing_bits).with_decode_padding_mode(
        c.decode_padding_mode,
    );
    base64::Engine::decode(&base64::engine::GeneralPurpose::new(&alphabet, config), t)
}


/// Every character of `t` is a symbol of `a`.
pub open spec fn over_alphabet(a: Seq<char>, t: Seq<char>) -> bool {
    forall|i: int| 0 <= i < t.len() ==> a.contains(#[trigger] t[i])
}

/// The number of characters in the text of `n` bytes: four for each whole group,
/// then two or three for a partial group, and padding up to four when `pad` holds.
pub open spec fn base64_len(pad: bool, n: nat) -> nat {
    if n % 3 == 0 {
        n / 3 * 4
    } else if pad {
        n / 3 * 4 + 4
    } else {
        n / 3 * 4 + n % 3 + 1
    }
}

/// Unpadded text is made of symbols alone, and its length is what `base64_len` says.
pub proof fn lemma_unpadded_text(a: Seq<char>, b: Seq<u8>)
    requires
        valid_alphabet(a),
    ensures
        over_alphabet(a, base64_text(a, false, b)),
        base64_text(a, false, b).len() == base64_len(false, b.len()),
    decreases b.len(),
{
    let t = base64_text(a, false, b);
    if b.len() > 0 {
        let x = b[0] as int;
        let y = if b.len() > 1 { b[1] as int } else { 0 };
        let z = if b.len() > 2 { b[2] as int } else { 0 };
        assert(a.contains(a[x / 4]));
        assert(a.contains(a[(x % 4) * 16 + y / 16]));
        assert(a.contains(a[(y % 16) * 4 + z / 64]));
        assert(a.contains(a[(y % 16) * 4]));
        assert(a.contains(a[z % 64]));
        if b.len() >= 3 {
            let rest = b.subrange(3, b.len() as int);
            lemma_unpadded_text(a, rest);
            let u = base64_text(a, false, rest);
            assert forall|i: int| 0 <= i < t.len() implies a.contains(#[trigger] t[i]) by {
                if i >= 4 {
                    assert(t[i] == u[i - 4]);
                }
            }
        }
    }
}

proof fn lemma_ascii_byte(c: char)
    requires
        c as u32 <= 127,
    ensures
        (c as u8) as char == c,
{
}

/// Text made of symbols gives bytes that are all symbols.
pub proof fn lemma_symbol_bytes(a: Seq<char>, t: Seq<char>)
    requires
        valid_alphabet(a),
        over_alphabet(a, t),
    ensures
        symbols_up_to(a, text_bytes(t), t.len() as int),
{
    assert forall|j: int| 0 <= j < t.len() implies is_symbol(a, #[trigger] text_bytes(t)[j]) by {
        assert(a.contains(t[j]));
        let k = choose|k: int| 0 <= k < a.len() && a[k] == t[j];
        assert(32 <= a[k] as u32 <= 126);
        lemma_ascii_byte(t[j]);
    }
}


/// Base64 text is ASCII: its characters are symbols or padding.
pub proof fn lemma_base64_ascii(a: Seq<char>, pad: bool, b: Seq<u8>)
    requires
        valid_alphabet(a),
    ensures
        vstd::utf8::is_ascii_chars(base64_text(a, pad, b)),
    decreases b.len(),
{
    let t = base64_text(a, pad, b);
    if b.len() > 0 {
        let x = b[0] as int;
        let y = if b.len() > 1 { b[1] as int } else { 0 };
        let z = if b.len() > 2 { b[2] as int } else { 0 };
        let rest = b.subrange(3, b.len() as int);
        if b.len() >= 3 {
            lemma_base64_ascii(a, pad, rest);
        }
        assert forall|i: int| 0 <= i < t.len() implies '\0' <= #[trigger] t[i] <= '\u{7f}' by {
            let k = if i == 0 {
                x / 4
            } else if i == 1 {
                (x % 4) * 16 + y / 16
            } else if i == 2 && b.len() >= 3 {
                (y % 16) * 4 + z / 64
            } else if i == 2 && b.len() == 2 {
                (y % 16) * 4
            } else {
                z % 64
            };
            if i < 2 || (i == 2 && b.len() >= 2) || (i == 3 && b.len() >= 3) {
                assert(t[i] == a[k]);
                assert(32 <= a[k] as u32 <= 126);
                lemma_ascii_byte(a[k]);
            } else if b.len() >= 3 {
                assert(t[i] == base64_text(a, pad, rest)[i - 4]);
            } else {
                assert(t[i] == '=');
            }
        }
    }
}

/// `n` padding characters.
pub open spec fn pads(n: int) -> Seq<char> {
    Seq::new(n as nat, |i: int| '=')
}

/// Padded text is the unpadded text followed by `=` up to a whole quad.
pub proof fn lemma_padded_text(a: Seq<char>, b: Seq<u8>)
    ensures
        base64_text(a, true, b) == base64_text(a, false, b) + pads(
            if b.len() % 3 == 0 {
                0
            } else {
                3 - b.len() % 3
            },
        ),
    decreases b.len(),
{
    if b.len() >= 3 {
        let rest = b.subrange(3, b.len() as int);
        lemma_padded_text(a, rest);
        assert(rest.len() % 3 == b.len() % 3);
        let x = b[0] as int;
        let y = b[1] as int;
        let z = b[2] as int;
        let quad = seq![a[x / 4], a[(x % 4) * 16 + y / 16]] + seq![
            a[(y % 16) * 4 + z / 64],
            a[z % 64],
        ];
        assert(base64_text(a, true, b) == quad + base64_text(a, true, rest));
        assert(base64_text(a, false, b) == quad + base64_text(a, false, rest));
        vstd::seq_lib::lemma_concat_associative(
            quad,
            base64_text(a, false, rest),
            pads(if b.len() % 3 == 0 { 0 } else { 3 - b.len() % 3 }),
        );
    } else if b.len() == 2 {
        assert(seq!['='] =~= pads(1));
    } else if b.len() == 1 {
        assert(seq!['=', '='] =~= pads(2));
    } else {
        assert(base64_text(a, true, b) =~= base64_text(a, false, b) + pads(0));
    }
}

} // verus!
