use base64::alphabet::URL_SAFE;
use serde_bytes_repr::base64_text::{Base64Alphabet, Base64Config};
use serde_bytes_repr::format::ByteFormat;

fn url_safe() -> Base64Alphabet {
    Base64Alphabet::new(URL_SAFE.as_str()).unwrap()
}
use serde_bytes_repr::proxy::{ByteFmtDeserializer, ByteFmtSerializer};

#[test]
fn serializer_base64_encodes_blob() {
    let ser = ByteFmtSerializer::base64(7u32, url_safe(), Base64Config::new());
    assert_eq!(ser.encode(b"testing"), "dGVzdGluZw==");
    let (inner, _) = ser.into_parts();
    assert_eq!(inner, 7);
}

#[test]
fn serializer_hex_encodes_blob() {
    let ser = ByteFmtSerializer::hex("sink");
    assert_eq!(ser.encode(b"testing"), "74657374696e67");
}

#[test]
fn nested_serializers_encode_alike_at_every_depth() {
    let outer = ByteFmtSerializer::base64((), url_safe(), Base64Config::new());
    let mut depth = outer.nested(1u8);
    for level in 2..=6u8 {
        assert_eq!(depth.encode(b"testing"), outer.encode(b"testing"));
        depth = depth.nested(level);
    }
    let (inner, format) = depth.into_parts();
    assert_eq!(inner, 6);
    assert_eq!(format.encode(b"testing"), "dGVzdGluZw==");
}

#[test]
fn nested_deserializers_decode_alike_at_every_depth() {
    let outer = ByteFmtDeserializer::new_hex(());
    let mut depth = outer.nested(vec![1u8]);
    for _ in 0..5 {
        assert_eq!(
            depth.format().decode(b"74657374696e67"),
            outer.format().decode(b"74657374696e67")
        );
        depth = depth.nested(vec![0u8]);
    }
    assert_eq!(depth.format().decode(b"74657374696e67"), Ok(b"testing".to_vec()));
}

#[test]
fn deserializer_base64_decodes_blob() {
    let de = ByteFmtDeserializer::new_base64("source", url_safe(), Base64Config::new());
    assert_eq!(de.inner, "source");
    assert_eq!(de.format().decode(b"dGVzdGluZw=="), Ok(b"testing".to_vec()));
    let (inner, format) = de.into_parts();
    assert_eq!(inner, "source");
    assert_eq!(format.encode(b"testing"), "dGVzdGluZw==");
}

#[test]
fn adapters_take_a_given_format() {
    let ser = ByteFmtSerializer::with_format((), ByteFormat::hex());
    assert_eq!(ser.format().encode(&[0xab]), "ab");
    let de = ByteFmtDeserializer::with_format((), ser.format().clone());
    assert_eq!(de.format().decode(b"ab"), Ok(vec![0xab]));
}

#[test]
fn serializer_lends_its_sink() {
    let ser = ByteFmtSerializer::hex(vec![1u8, 2]);
    assert_eq!(ser.get_ref(), &vec![1u8, 2]);
}
