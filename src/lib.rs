//! Serde adapters that write byte blobs as text (Base64 or hexadecimal) and read
//! them back, leaving every other shape of data untouched.
use vstd::prelude::*;

pub mod base64_text;
pub mod format;
pub mod hex_text;
pub mod proxy;

pub use base64_text::{Base64Alphabet, Base64Config};
pub use format::{ByteFormat, Codec, DecodeFailure};
pub use proxy::{ByteFmtDeserializer, ByteFmtSerializer};

verus! {

/// The bytes of ASCII text.
pub open spec fn text_bytes(t: Seq<char>) -> Seq<u8> {
    Seq::new(t.len(), |i: int| t[i] as u8)
}

} // verus!
