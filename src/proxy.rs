//! The two proxies: one wraps an output sink and writes blobs as text, the other
//! wraps an input source and reads blobs back from text. Each nested proxy that
//! they hand out carries the same format policy.
use vstd::prelude::*;

use crate::base64_text::{Base64Alphabet, Base64Config};
use crate::format::{ByteFormat, FormatPolicy};

verus! {

/// Serializer adapter that writes byte blobs as text in a chosen encoding, through
/// the string representation of the wrapped serializer.
pub struct ByteFmtSerializer<S> {
    inner: S,
    encode_kind: ByteFormat,
}

impl<S> ByteFmtSerializer<S> {
    /// The wrapped serializer.
    pub closed spec fn sink(&self) -> S {
        self.inner
    }

    /// The format policy that blobs are written with.
    pub closed spec fn policy(&self) -> FormatPolicy {
        self.encode_kind@
    }

    /// An adapter that writes blobs as Base64 over the symbols of `alphabet`, with
    /// `config`.
    pub fn base64(ser: S, alphabet: Base64Alphabet, config: Base64Config) -> (r: Self)
        ensures
            r.sink() == ser,
            r.policy() == (FormatPolicy::Base64 { alphabet: alphabet@, config }),
    {
        ByteFmtSerializer { inner: ser, encode_kind: ByteFormat::base64(&alphabet, config) }
    }

    /// An adapter that writes blobs as lowercase hexadecimal.
    pub fn hex(ser: S) -> (r: Self)
        ensures
            r.sink() == ser,
            r.policy() == FormatPolicy::Hex,
    {
        ByteFmtSerializer { inner: ser, encode_kind: ByteFormat::hex() }
    }

    /// An adapter over `ser` with a given format policy.
    pub fn with_format(ser: S, format: ByteFormat) -> (r: Self)
        ensures
            r.sink() == ser,
            r.policy() == format@,
    {
        ByteFmtSerializer { inner: ser, encode_kind: format }
    }

    /// The text that the blob `v` is written as.
    pub fn encode(&self, v: &[u8]) -> (r: String)
        requires
            self.policy().encodable(v@.len()),
        ensures
            r@ == self.policy().encoded(v@),
    {
        self.encode_kind.encode(v)
    }

    /// The format policy, to hand on to nested values.
    pub fn format(&self) -> (r: &ByteFormat)
        ensures
            r@ == self.policy(),
    {
        &self.encode_kind
    }

    /// The wrapped serializer, borrowed.
    pub fn get_ref(&self) -> (r: &S)
        ensures
            *r == self.sink(),
    {
        &self.inner
    }

    /// An adapter over `child`, a sink for a value nested in this one, with this
    /// adapter's policy.
    pub fn nested<T>(&self, child: T) -> (r: ByteFmtSerializer<T>)
        ensures
            r.sink() == child,
            r.policy() == self.policy(),
    {
        ByteFmtSerializer { inner: child, encode_kind: self.encode_kind.clone() }
    }

    /// The wrapped serializer and the policy.
    pub fn into_parts(self) -> (r: (S, ByteFormat))
        ensures
            r.0 == self.sink(),
            r.1@ == self.policy(),
    {
        (self.inner, self.encode_kind)
    }
}

/// Deserializer adapter that reads byte blobs back from text in a chosen encoding.
pub struct ByteFmtDeserializer<D> {
    pub inner: D,
    fmt: ByteFormat,
}

impl<D> ByteFmtDeserializer<D> {
    /// The wrapped deserializer.
    pub closed spec fn source(&self) -> D {
        self.inner
    }

    /// The format policy that blobs are read with.
    pub closed spec fn policy(&self) -> FormatPolicy {
        self.fmt@
    }

    /// An adapter that reads blobs as Base64 over the symbols of `alphabet`, with
    /// `config`.
    pub fn new_base64(
        deserializer: D,
        alphabet: Base64Alphabet,
        config: Base64Config,
    ) -> (r: Self)
        ensures
            r.source() == deserializer,
            r.policy() == (FormatPolicy::Base64 { alphabet: alphabet@, config }),
    {
        ByteFmtDeserializer { inner: deserializer, fmt: ByteFormat::base64(&alphabet, config) }
    }

    /// An adapter that reads blobs as hexadecimal.
    pub fn new_hex(deserializer: D) -> (r: Self)
        ensures
            r.source() == deserializer,
            r.policy() == FormatPolicy::Hex,
    {
        ByteFmtDeserializer { inner: deserializer, fmt: ByteFormat::hex() }
    }

    /// An adapter over `deserializer` with a given format policy.
    pub fn with_format(deserializer: D, format: ByteFormat) -> (r: Self)
        ensures
            r.source() == deserializer,
            r.policy() == format@,
    {
        ByteFmtDeserializer { inner: deserializer, fmt: format }
    }

    /// The format policy, to hand on to nested values.
    pub fn format(&self) -> (r: &ByteFormat)
        ensures
            r@ == self.policy(),
    {
        &self.fmt
    }

    /// An adapter over `child`, a source for a value nested in this one, with this
    /// adapter's policy.
    pub fn nested<T>(&self, child: T) -> (r: ByteFmtDeserializer<T>)
        ensures
            r.source() == child,
            r.policy() == self.policy(),
    {
        ByteFmtDeserializer { inner: child, fmt: self.fmt.clone() }
    }

    /// The wrapped deserializer and the policy.
    pub fn into_parts(self) -> (r: (D, ByteFormat))
        ensures
            r.0 == self.source(),
            r.1@ == self.policy(),
    {
        (self.inner, self.fmt)
    }
}

/// A blob is written and read the same at every depth: when each proxy in
/// `chain` carries the policy of the one before it, as `nested` gives, the
/// proxy at any depth encodes and decodes as the outermost one does.
pub proof fn lemma_depth_independence(chain: Seq<FormatPolicy>, b: Seq<u8>, t: Seq<u8>)
    requires
        chain.len() > 0,
        forall|d: int| 0 < d < chain.len() ==> #[trigger] chain[d] == chain[d - 1],
    ensures
        forall|d: int|
            0 <= d < chain.len() ==> (#[trigger] chain[d]).encoded(b) == chain[0].encoded(b)
                && chain[d].decoded(t) == chain[0].decoded(t),
    decreases chain.len(),
{
    if chain.len() > 1 {
        let shorter = chain.subrange(0, chain.len() - 1);
        assert forall|d: int| 0 < d < shorter.len() implies #[trigger] shorter[d] == shorter[d
            - 1] by {
            assert(shorter[d] == chain[d] && shorter[d - 1] == chain[d - 1]);
        }
        lemma_depth_independence(shorter, b, t);
        assert forall|d: int| 0 <= d < chain.len() implies (#[trigger] chain[d]).encoded(b)
            == chain[0].encoded(b) && chain[d].decoded(t) == chain[0].decoded(t) by {
            if d < chain.len() - 1 {
                assert(shorter[d] == chain[d]);
            } else {
                assert(shorter[d - 1] == chain[d - 1]);
            }
        }
    }
}

} // verus!
