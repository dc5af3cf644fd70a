use base64::alphabet::{Alphabet, STANDARD, URL_SAFE};
use base64::engine::DecodePaddingMode;
use serde_bytes_repr::base64_text::{Base64Alphabet, Base64Config};
use serde_bytes_repr::format::{
    from_base64_error, from_hex_error, ByteFormat, Codec, DecodeFailure,
};

fn alphabet(a: &Alphabet) -> Base64Alphabet {
    Base64Alphabet::new(a.as_str()).unwrap()
}

fn url_safe() -> ByteFormat {
    ByteFormat::base64(&alphabet(&URL_SAFE), Base64Config::new())
}

fn url_safe_in(mode: DecodePaddingMode) -> ByteFormat {
    ByteFormat::base64(&alphabet(&URL_SAFE), Base64Config::new().with_decode_padding_mode(mode))
}

#[test]
fn base64_encodes_testing() {
    assert_eq!(url_safe().encode(b"testing"), "dGVzdGluZw==");
}

#[test]
fn base64_decodes_testing() {
    assert_eq!(url_safe().decode(b"dGVzdGluZw=="), Ok(b"testing".to_vec()));
}

#[test]
fn hex_encodes_testing() {
    assert_eq!(ByteFormat::hex().encode(b"testing"), "74657374696e67");
}

#[test]
fn hex_decodes_testing() {
    assert_eq!(ByteFormat::hex().decode(b"74657374696e67"), Ok(b"testing".to_vec()));
}

#[test]
fn hex_decodes_upper_case_digits() {
    assert_eq!(ByteFormat::hex().decode(b"0aFF"), Ok(vec![10, 255]));
}

#[test]
fn hex_odd_length_is_invalid_length() {
    let failure = ByteFormat::hex().decode(b"74657374696e6").unwrap_err();
    assert_eq!(failure, DecodeFailure::InvalidLength { length: 13, codec: Codec::Hex });
    assert_eq!(failure.expected(), "even length");
}

#[test]
fn hex_foreign_character_is_named_with_its_index() {
    let failure = ByteFormat::hex().decode(b"746g7374696e67").unwrap_err();
    assert_eq!(
        failure,
        DecodeFailure::InvalidCharacter { byte: b'g', index: 3, codec: Codec::Hex }
    );
    assert_eq!(failure.expected(), "valid hex character at index 3");
}

#[test]
fn hex_reports_the_first_foreign_character() {
    let failure = ByteFormat::hex().decode(b"00zz").unwrap_err();
    assert_eq!(
        failure,
        DecodeFailure::InvalidCharacter { byte: b'z', index: 2, codec: Codec::Hex }
    );
}

#[test]
fn base64_one_symbol_over_quads_is_invalid_length() {
    let failure = url_safe().decode(b"12345").unwrap_err();
    assert_eq!(failure, DecodeFailure::InvalidLength { length: 5, codec: Codec::Base64 });
    assert_eq!(failure.expected(), "valid base64 length");
}

#[test]
fn base64_foreign_character_is_named_with_its_index() {
    let failure = url_safe().decode(b"12345%").unwrap_err();
    assert_eq!(
        failure,
        DecodeFailure::InvalidCharacter { byte: b'%', index: 5, codec: Codec::Base64 }
    );
    assert_eq!(failure.expected(), "valid base64 character at index 5");
}

#[test]
fn base64_standard_symbol_is_foreign_to_url_safe() {
    let failure = url_safe().decode(b"ab+d").unwrap_err();
    assert_eq!(
        failure,
        DecodeFailure::InvalidCharacter { byte: b'+', index: 2, codec: Codec::Base64 }
    );
}

#[test]
fn base64_trailing_bits_are_an_invalid_last_symbol() {
    let failure = url_safe_in(DecodePaddingMode::Indifferent).decode(b"123456").unwrap_err();
    assert_eq!(failure, DecodeFailure::InvalidLastSymbol { byte: b'6' });
    assert_eq!(failure.expected(), "valid character ending base64 string");
}

#[test]
fn base64_trailing_bits_pass_when_allowed() {
    let config = Base64Config::new()
        .with_decode_padding_mode(DecodePaddingMode::Indifferent)
        .with_decode_allow_trailing_bits(true);
    let format = ByteFormat::base64(&alphabet(&URL_SAFE), config);
    assert!(format.decode(b"123456").is_ok());
}

#[test]
fn padding_mode_decides_on_unpadded_text() {
    assert_eq!(
        url_safe_in(DecodePaddingMode::Indifferent).decode(b"dGVzdGluZw"),
        Ok(b"testing".to_vec())
    );
    let failure = url_safe_in(DecodePaddingMode::RequireCanonical)
        .decode(b"dGVzdGluZw")
        .unwrap_err();
    assert_eq!(failure, DecodeFailure::InvalidPadding);
    assert_eq!(failure.expected(), "valid padding");
}

#[test]
fn padding_mode_decides_on_padded_text() {
    assert_eq!(
        url_safe_in(DecodePaddingMode::RequireNone).decode(b"dGVzdGluZw=="),
        Err(DecodeFailure::InvalidPadding)
    );
    assert_eq!(
        url_safe_in(DecodePaddingMode::Indifferent).decode(b"dGVzdGluZw=="),
        Ok(b"testing".to_vec())
    );
}

#[test]
fn unpadded_encoding_drops_the_padding() {
    let config = Base64Config::new()
        .with_encode_padding(false)
        .with_decode_padding_mode(DecodePaddingMode::RequireNone);
    let format = ByteFormat::base64(&alphabet(&URL_SAFE), config);
    assert_eq!(format.encode(b"testing"), "dGVzdGluZw");
    assert_eq!(format.decode(b"dGVzdGluZw"), Ok(b"testing".to_vec()));
}

#[test]
fn standard_and_url_safe_alphabets_differ() {
    let bytes = [0xfbu8, 0xff];
    let standard = ByteFormat::base64(&alphabet(&STANDARD), Base64Config::new());
    assert_eq!(standard.encode(&bytes), "+/8=");
    assert_eq!(url_safe().encode(&bytes), "-_8=");
}

#[test]
fn custom_alphabet_is_used() {
    let reversed =
        Base64Alphabet::new("/+9876543210zyxwvutsrqponmlkjihgfedcbaZYXWVUTSRQPONMLKJIHGFEDCBA")
            .unwrap();
    assert_eq!(
        reversed.as_str(),
        "/+9876543210zyxwvutsrqponmlkjihgfedcbaZYXWVUTSRQPONMLKJIHGFEDCBA"
    );
    let format = ByteFormat::base64(&reversed, Base64Config::new());
    assert_eq!(format.encode(&[0, 0, 0]), "////");
    assert_eq!(format.decode(b"////"), Ok(vec![0, 0, 0]));
}

#[test]
fn empty_blob_round_trips() {
    for format in [url_safe(), ByteFormat::hex()] {
        assert_eq!(format.encode(b""), "");
        assert_eq!(format.decode(b""), Ok(Vec::new()));
    }
}

#[test]
fn every_byte_value_round_trips() {
    let all: Vec<u8> = (0..=255u8).collect();
    let formats = [
        url_safe(),
        ByteFormat::base64(&alphabet(&STANDARD), Base64Config::new()),
        url_safe_in(DecodePaddingMode::Indifferent),
        ByteFormat::base64(
            &alphabet(&STANDARD),
            Base64Config::new()
                .with_encode_padding(false)
                .with_decode_padding_mode(DecodePaddingMode::RequireNone),
        ),
        ByteFormat::hex(),
    ];
    for format in formats {
        for len in 0..all.len() {
            let blob = &all[..len];
            let text = format.encode(blob);
            assert_eq!(format.decode(text.as_bytes()), Ok(blob.to_vec()));
        }
    }
}

#[test]
fn expected_text_spells_out_large_indexes() {
    let failure = DecodeFailure::InvalidCharacter { byte: b'!', index: 1204, codec: Codec::Base64 };
    assert_eq!(failure.expected(), "valid base64 character at index 1204");
    let failure = DecodeFailure::InvalidCharacter { byte: b'!', index: 0, codec: Codec::Hex };
    assert_eq!(failure.expected(), "valid hex character at index 0");
}

#[test]
fn base64_errors_map_to_failures() {
    assert_eq!(
        from_base64_error(base64::DecodeError::InvalidByte(7, b'*'), 9),
        DecodeFailure::InvalidCharacter { byte: b'*', index: 7, codec: Codec::Base64 }
    );
    assert_eq!(
        from_base64_error(base64::DecodeError::InvalidLength(4), 9),
        DecodeFailure::InvalidLength { length: 9, codec: Codec::Base64 }
    );
    assert_eq!(
        from_base64_error(base64::DecodeError::InvalidLastSymbol(3, b'x'), 9),
        DecodeFailure::InvalidLastSymbol { byte: b'x' }
    );
    assert_eq!(
        from_base64_error(base64::DecodeError::InvalidPadding, 9),
        DecodeFailure::InvalidPadding
    );
}

#[test]
fn hex_errors_map_to_failures() {
    assert_eq!(
        from_hex_error(hex::FromHexError::InvalidHexCharacter { c: 'q', index: 6 }, 8),
        DecodeFailure::InvalidCharacter { byte: b'q', index: 6, codec: Codec::Hex }
    );
    assert_eq!(
        from_hex_error(hex::FromHexError::OddLength, 7),
        DecodeFailure::InvalidLength { length: 7, codec: Codec::Hex }
    );
    assert_eq!(
        from_hex_error(hex::FromHexError::InvalidStringLength, 8),
        DecodeFailure::InvalidLength { length: 8, codec: Codec::Hex }
    );
}

#[test]
fn config_builders_set_each_field() {
    let config = Base64Config::new();
    assert!(config.encode_padding);
    assert!(!config.decode_allow_trailing_bits);
    assert_eq!(config.decode_padding_mode, DecodePaddingMode::RequireCanonical);
    let config = config
        .with_encode_padding(false)
        .with_decode_allow_trailing_bits(true)
        .with_decode_padding_mode(DecodePaddingMode::RequireNone);
    assert!(!config.encode_padding);
    assert!(config.decode_allow_trailing_bits);
    assert_eq!(config.decode_padding_mode, DecodePaddingMode::RequireNone);
}

#[test]
fn cloned_format_behaves_alike() {
    let format = url_safe_in(DecodePaddingMode::Indifferent);
    let copy = format.clone();
    assert_eq!(copy.encode(b"testing"), "dGVzdGluZw==");
    assert_eq!(copy.decode(b"dGVzdGluZw"), Ok(b"testing".to_vec()));
}

#[test]
fn hex_non_ascii_byte_is_named_as_its_byte() {
    let failure = ByteFormat::hex().decode(&[b'0', 0xc3]).unwrap_err();
    assert_eq!(
        failure,
        DecodeFailure::InvalidCharacter { byte: 0xc3, index: 1, codec: Codec::Hex }
    );
}

#[test]
fn base64_misplaced_padding_is_a_foreign_character() {
    let failure = url_safe().decode(b"a=bc").unwrap_err();
    assert_eq!(
        failure,
        DecodeFailure::InvalidCharacter { byte: b'=', index: 1, codec: Codec::Base64 }
    );
}

#[test]
fn alphabet_takes_the_symbols_of_a_base64_alphabet() {
    assert_eq!(alphabet(&URL_SAFE).as_str(), URL_SAFE.as_str());
    assert_eq!(alphabet(&STANDARD).clone().as_str(), STANDARD.as_str());
}

#[test]
fn alphabet_refuses_what_the_engine_refuses() {
    let good = URL_SAFE.as_str();
    assert!(Base64Alphabet::new(&good[1..]).is_err());
    assert!(Base64Alphabet::new(&format!("{}A", good)).is_err());
    assert!(Base64Alphabet::new(&format!("A{}", &good[1..].replace('B', "A"))).is_err());
    assert!(Base64Alphabet::new(&good.replace('_', "=")).is_err());
    assert!(Base64Alphabet::new(&good.replace('_', "\t")).is_err());
    assert!(Base64Alphabet::new(&good.replace('_', "\u{e9}")).is_err());
    assert!(Base64Alphabet::new(good).is_ok());
}

#[test]
fn base64_padding_before_a_symbol_is_a_foreign_character() {
    let failure = url_safe().decode(b"ab=c").unwrap_err();
    assert_eq!(
        failure,
        DecodeFailure::InvalidCharacter { byte: b'=', index: 2, codec: Codec::Base64 }
    );
}

#[test]
fn padding_mode_decides_on_padded_text_of_one_byte() {
    let padded = url_safe().encode(b"t");
    assert_eq!(padded, "dA==");
    assert_eq!(
        url_safe_in(DecodePaddingMode::RequireNone).decode(padded.as_bytes()),
        Err(DecodeFailure::InvalidPadding)
    );
    assert_eq!(
        url_safe_in(DecodePaddingMode::Indifferent).decode(padded.as_bytes()),
        Ok(b"t".to_vec())
    );
}

#[test]
fn trailing_bits_refused_without_padding_requirement() {
    let failure = url_safe_in(DecodePaddingMode::RequireNone).decode(b"dB").unwrap_err();
    assert_eq!(failure, DecodeFailure::InvalidLastSymbol { byte: b'B' });
}
