use base32_codec::decode;
use base32_codec::encode;
use base32_codec::CodecError;

#[test]
fn test_encode_invalid_variant() {
    assert_eq!(Err(CodecError::InvalidVariant), encode(b"foobar", "invalid", false));
}

#[test]
fn test_encode_rfc4648_padded() {
    assert_eq!("MY======", encode(b"f", "rfc4648", true).unwrap());
    assert_eq!("MZXQ====", encode(b"fo", "rfc4648", true).unwrap());
    assert_eq!("MZXW6===", encode(b"foo", "rfc4648", true).unwrap());
    assert_eq!("MZXW6YQ=", encode(b"foob", "rfc4648", true).unwrap());
    assert_eq!("MZXW6YTB", encode(b"fooba", "rfc4648", true).unwrap());
    assert_eq!("MZXW6YTBOI======", encode(b"foobar", "rfc4648", true).unwrap());
}

#[test]
fn test_encode_rfc4648_unpadded() {
    assert_eq!("MY", encode(b"f", "rfc4648", false).unwrap());
    assert_eq!("MZXQ", encode(b"fo", "rfc4648", false).unwrap());
    assert_eq!("MZXW6", encode(b"foo", "rfc4648", false).unwrap());
    assert_eq!("MZXW6YQ", encode(b"foob", "rfc4648", false).unwrap());
    assert_eq!("MZXW6YTB", encode(b"fooba", "rfc4648", false).unwrap());
    assert_eq!("MZXW6YTBOI", encode(b"foobar", "rfc4648", false).unwrap());
}

#[test]
fn test_encode_crockford_padded() {
    // The padding flag is accepted and ignored for Crockford.
    assert_eq!("CR", encode(b"f", "crockford", true).unwrap());
    assert_eq!("CSQG", encode(b"fo", "crockford", true).unwrap());
    assert_eq!("CSQPY", encode(b"foo", "crockford", true).unwrap());
    assert_eq!("CSQPYRK1E8", encode(b"foobar", "crockford", true).unwrap());
}

#[test]
fn test_encode_crockford_unpadded() {
    assert_eq!("CR", encode(b"f", "crockford", false).unwrap());
    assert_eq!("CSQG", encode(b"fo", "crockford", false).unwrap());
    assert_eq!("CSQPY", encode(b"foo", "crockford", false).unwrap());
    assert_eq!("CSQPYRK1E8", encode(b"foobar", "crockford", false).unwrap());
}

#[test]
fn test_decode_invalid_variant() {
    assert_eq!(Err(CodecError::InvalidVariant), decode("foobar", "invalid", false));
}

#[test]
fn test_decode_rfc4648_padded() {
    assert_eq!(vec![102], decode("MY======", "rfc4648", true).unwrap());
    assert_eq!(vec![102, 111], decode("MZXQ====", "rfc4648", true).unwrap());
    assert_eq!(vec![102, 111, 111], decode("MZXW6===", "rfc4648", true).unwrap());
    assert_eq!(vec![102, 111, 111, 98], decode("MZXW6YQ=", "rfc4648", true).unwrap());
    assert_eq!(vec![102, 111, 111, 98, 97], decode("MZXW6YTB", "rfc4648", true).unwrap());
    assert_eq!(
        vec![102, 111, 111, 98, 97, 114],
        decode("MZXW6YTBOI======", "rfc4648", true).unwrap()
    );
}

#[test]
fn test_decode_rfc4648_unpadded() {
    assert_eq!(vec![102], decode("MY", "rfc4648", false).unwrap());
    assert_eq!(vec![102, 111], decode("MZXQ", "rfc4648", false).unwrap());
    assert_eq!(vec![102, 111, 111], decode("MZXW6", "rfc4648", false).unwrap());
    assert_eq!(vec![102, 111, 111, 98], decode("MZXW6YQ", "rfc4648", false).unwrap());
    assert_eq!(vec![102, 111, 111, 98, 97], decode("MZXW6YTB", "rfc4648", false).unwrap());
    assert_eq!(vec![102, 111, 111, 98, 97, 114], decode("MZXW6YTBOI", "rfc4648", false).unwrap());
}

#[test]
fn test_decode_invalid_data() {
    assert_eq!(Err(CodecError::DecodeError), decode("not_base32", "rfc4648", false));
}

#[test]
fn test_decode_crockford_padded() {
    // The padding flag is accepted and ignored for Crockford.
    assert_eq!(vec![102], decode("CR", "crockford", true).unwrap());
    assert_eq!(vec![102, 111], decode("CSQG", "crockford", true).unwrap());
    assert_eq!(vec![102, 111, 111], decode("CSQPY", "crockford", true).unwrap());
    assert_eq!(vec![102, 111, 111, 98, 97, 114], decode("CSQPYRK1E8", "crockford", true).unwrap());
}

#[test]
fn test_decode_crockford_unpadded() {
    assert_eq!(vec![102], decode("CR", "crockford", false).unwrap());
    assert_eq!(vec![102, 111], decode("CSQG", "crockford", false).unwrap());
    assert_eq!(vec![102, 111, 111], decode("CSQPY", "crockford", false).unwrap());
    assert_eq!(vec![102, 111, 111, 98, 97, 114], decode("CSQPYRK1E8", "crockford", false).unwrap());
}
