//! The two ways a token can be rejected.

use vstd::prelude::*;

verus! {

/// Why an identifier could not be recovered from a token.
///
/// Both values stand for permanent rejection of the input, never for a
/// transient failure.
#[derive(Debug, Clone, Copy, PartialEq, Eq, Structural)]
pub enum Error {
    /// The token parsed, but the block's embedded tag is not the expected
    /// one: the token was minted for another tag, encrypted under another
    /// key, or forged. The three causes are indistinguishable by design.
    TagMismatch,
    /// The token's text does not match the expected format.
    InvalidFormat,
}

impl Error {
    /// A human-readable description of the error.
    pub fn message(&self) -> (r: String)
        ensures
            *self is TagMismatch ==> r@ == "id has an unexpected tag"@,
            *self is InvalidFormat ==> r@ == "id did not match the expected format"@,
    {
        match self {
            Error::TagMismatch => String::from_str("id has an unexpected tag"),
            Error::InvalidFormat => String::from_str("id did not match the expected format"),
        }
    }
}

} // verus!
