//! A reversible, tagged, opaque identifier codec.
//!
//! An internal signed 64-bit identifier is combined with a 64-bit tag into a
//! 128-bit block, encrypted under a caller-supplied AES-128 cipher, and
//! rendered as a base-58 token string. Parsing runs the pipeline backwards;
//! the embedded tag is checked only when the identifier is revealed, so a
//! token minted for one entity kind is rejected when read as another.

pub mod encoding;
pub mod encryption;
pub mod error;
pub mod id;
pub mod tag;

pub use error::Error;
pub use id::Id;
