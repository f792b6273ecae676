//! A verified base32 codec.
//!
//! The library converts arbitrary byte sequences to printable ASCII text and
//! back, with no data loss, over two alphabets: the RFC 4648 standard
//! alphabet (optionally `=`-padded) and the Crockford alphabet (never
//! padded, case-insensitive on decode, with aliases for visually ambiguous
//! characters).

pub mod alphabet;
pub mod bits;
pub mod decoder;
pub mod encoder;
pub mod error;
pub mod laws;

pub use alphabet::Alphabet;
pub use alphabet::VariantTag;
pub use alphabet::resolve_variant;
pub use decoder::decode;
pub use decoder::decode_with;
pub use encoder::encode;
pub use encoder::encode_with;
pub use error::CodecError;
