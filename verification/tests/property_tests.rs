use base32_codec::decode;
use base32_codec::encode;
use base32_codec::resolve_variant;
use base32_codec::Alphabet;
use base32_codec::CodecError;
use base32_codec::VariantTag;

#[test]
fn test_round_trip_all_lengths() {
    let sample: Vec<u8> = (0..=255u8).chain(vec![0, 255, 7, 31, 32, 33]).collect();
    for variant in ["rfc4648", "crockford"] {
        for padding in [false, true] {
            for len in 0..sample.len() {
                let data = &sample[..len];
                let text = encode(data, variant, padding).unwrap();
                let back = decode(&text, variant, padding).unwrap();
                assert_eq!(data.to_vec(), back);
            }
        }
    }
}

#[test]
fn test_decode_padding_flag_irrelevant() {
    for s in ["", "MY", "MY======", "MZXW6===", "MZXW6YTBOI======", "not valid", "MY=X"] {
        assert_eq!(decode(s, "rfc4648", true), decode(s, "rfc4648", false));
    }
}

#[test]
fn test_decode_accepts_any_amount_of_padding() {
    assert_eq!(vec![102], decode("MY=", "rfc4648", false).unwrap());
    assert_eq!(vec![102], decode("MY==========", "rfc4648", false).unwrap());
    assert_eq!(Vec::<u8>::new(), decode("========", "rfc4648", false).unwrap());
}

#[test]
fn test_empty_input() {
    for variant in ["rfc4648", "crockford"] {
        for padding in [false, true] {
            assert_eq!("", encode(b"", variant, padding).unwrap());
            assert_eq!(Vec::<u8>::new(), decode("", variant, padding).unwrap());
        }
    }
}

#[test]
fn test_crockford_case_insensitive() {
    assert_eq!(
        decode("csqpy", "crockford", false).unwrap(),
        decode("CSQPY", "crockford", false).unwrap()
    );
    assert_eq!(
        decode("csqpyrk1e8", "crockford", false).unwrap(),
        decode("CSQPYRK1E8", "crockford", false).unwrap()
    );
}

#[test]
fn test_crockford_aliases() {
    // O reads as 0; I and L read as 1.
    assert_eq!(
        decode("OIL", "crockford", false).unwrap(),
        decode("011", "crockford", false).unwrap()
    );
    assert_eq!(
        decode("oil", "crockford", false).unwrap(),
        decode("011", "crockford", false).unwrap()
    );
    assert_eq!(
        decode("CSQPYRK1E8", "crockford", false).unwrap(),
        decode("CSQPYRKLE8", "crockford", false).unwrap()
    );
    assert_eq!(
        decode("CSQPYRK1E8", "crockford", false).unwrap(),
        decode("csqpyrkie8", "crockford", false).unwrap()
    );
}

#[test]
fn test_crockford_rejects_padding_and_u() {
    assert_eq!(Err(CodecError::DecodeError), decode("CR==", "crockford", false));
    assert_eq!(Err(CodecError::DecodeError), decode("U", "crockford", false));
    assert_eq!(Err(CodecError::DecodeError), decode("u", "crockford", false));
}

#[test]
fn test_rfc4648_is_case_sensitive() {
    assert_eq!(Err(CodecError::DecodeError), decode("mzxw6ytboi", "rfc4648", false));
}

#[test]
fn test_invalid_variant_literals() {
    assert_eq!(Err(CodecError::InvalidVariant), encode(b"x", "base64", false));
    assert_eq!(Err(CodecError::InvalidVariant), decode("x", "base64", false));
    assert_eq!(Err(CodecError::InvalidVariant), encode(b"x", "rfc4648 ", false));
    assert_eq!(Err(CodecError::InvalidVariant), encode(b"x", "rfc", false));
    assert_eq!(Err(CodecError::InvalidVariant), encode(b"x", "", false));
}

#[test]
fn test_variant_names_case_insensitive() {
    assert_eq!("MY", encode(b"f", "RFC4648", false).unwrap());
    assert_eq!("MY", encode(b"f", "Rfc4648", false).unwrap());
    assert_eq!("CR", encode(b"f", "CROCKFORD", false).unwrap());
    assert_eq!("CR", encode(b"f", "Crockford", false).unwrap());
    assert_eq!(vec![102], decode("MY", "RFC4648", false).unwrap());
    assert_eq!(vec![102], decode("CR", "Crockford", false).unwrap());
}

#[test]
fn test_resolve_variant() {
    assert_eq!(
        Ok(Alphabet { tag: VariantTag::Rfc4648, padding_enabled: true }),
        resolve_variant("rfc4648", true)
    );
    assert_eq!(
        Ok(Alphabet { tag: VariantTag::Rfc4648, padding_enabled: false }),
        resolve_variant("RFC4648", false)
    );
    // The padding flag is ignored for Crockford.
    assert_eq!(
        Ok(Alphabet { tag: VariantTag::Crockford, padding_enabled: false }),
        resolve_variant("crockford", true)
    );
    assert_eq!(Err(CodecError::InvalidVariant), resolve_variant("base32", false));
}

#[test]
fn test_non_ascii_input_is_rejected() {
    assert_eq!(Err(CodecError::DecodeError), decode("M\u{00C4}", "rfc4648", false));
    assert_eq!(Err(CodecError::DecodeError), decode("\u{00C4}", "crockford", false));
}

#[test]
fn test_decoder_discards_leftover_bits() {
    // "MZ" carries 10 bits: one full byte comes back, two bits are dropped.
    assert_eq!(vec![102], decode("MZ", "rfc4648", false).unwrap());
}

#[test]
fn test_error_messages() {
    assert_eq!(
        "Invalid variant. Supported variants are 'rfc4648' and 'crockford'.",
        CodecError::InvalidVariant.message()
    );
    assert_eq!(
        "Invalid input. Input must be a valid string for the selected base32 alphabet.",
        CodecError::DecodeError.message()
    );
}

#[test]
fn test_output_length_formula() {
    // ceil(8 n / 5) symbols before padding, a multiple of 8 with it.
    for n in 0..40usize {
        let data = vec![0xABu8; n];
        let unpadded = encode(&data, "rfc4648", false).unwrap();
        assert_eq!((8 * n + 4) / 5, unpadded.len());
        let padded = encode(&data, "rfc4648", true).unwrap();
        assert_eq!(0, padded.len() % 8);
        assert!(padded.starts_with(&unpadded));
        assert!(padded[unpadded.len()..].chars().all(|c| c == '='));
    }
}
