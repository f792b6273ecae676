use vstd::prelude::*;

verus! {

/// The two ways a call into the codec can fail.
///
/// Both indicate a caller error, never a transient condition, and neither is
/// ever accompanied by a partial result.
#[derive(Clone, Copy, Debug, PartialEq, Eq)]
pub enum CodecError {
    /// The variant name is neither `"rfc4648"` nor `"crockford"`
    /// (case-insensitively).
    InvalidVariant,
    /// The input text contains a character that is not a valid symbol (or is
    /// stray padding) for the resolved alphabet.
    DecodeError,
}

impl CodecError {
    /// A human-readable description of the error.
    pub fn message(&self) -> (r: String)
        ensures
            r@ == self.spec_message(),
    {
        match self {
            CodecError::InvalidVariant => String::from_str(
                "Invalid variant. Supported variants are 'rfc4648' and 'crockford'.",
            ),
            CodecError::DecodeError => String::from_str(
                "Invalid input. Input must be a valid string for the selected base32 alphabet.",
            ),
        }
    }

    /// What `message` returns for each error kind.
    pub open spec fn spec_message(&self) -> Seq<char> {
        match self {
            CodecError::InvalidVariant => "Invalid variant. Supported variants are 'rfc4648' and 'crockford'."@,
            CodecError::DecodeError => "Invalid input. Input must be a valid string for the selected base32 alphabet."@,
        }
    }
}

} // verus!
