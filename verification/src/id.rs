//! The typed identifier handle.
//!
//! An [`Id`] wraps exactly one ciphertext block. Its type parameter is the
//! 64-bit tag of the entity kind, so handles of distinct kinds are distinct
//! types. Creation packs and encrypts; revealing decrypts, splits, and
//! checks the embedded tag; rendering and parsing go through the radix
//! codec and perform no tag check at all.

use vstd::prelude::*;

use crate::encoding::{parse, parse_spec, stringify, token_chars};
use crate::encryption::{
    bisect_spec, concat_spec, decrypt, decrypted_block, encrypt, encrypted_block,
    lemma_concat_bisect,
};
use crate::error::Error;

verus! {

/// A typed, immutable identifier handle: one ciphertext block, bound at the
/// type level to the tag `TAG`.
#[derive(Clone, Copy, PartialEq, Eq)]
pub struct Id<const TAG: u64> {
    block: u128,
}

impl<const TAG: u64> View for Id<TAG> {
    type V = u128;

    /// The ciphertext block the handle wraps.
    closed spec fn view(&self) -> u128 {
        self.block
    }
}

impl<const TAG: u64> Id<TAG> {
    /// Mints the handle for an identifier: packs `TAG` and the identifier
    /// into a block and encrypts it under the given cipher. Decrypting the
    /// stored block under the same cipher yields the packed block again.
    pub fn new(id: i64, cipher: &aes::Aes128) -> (r: Self)
        ensures
            r@ == encrypted_block(*cipher, concat_spec(TAG, id)),
            decrypted_block(*cipher, r@) == concat_spec(TAG, id),
    {
        Id { block: encrypt(TAG, id, cipher) }
    }

    /// Recovers the identifier: decrypts the stored block, splits it, and
    /// compares the recovered tag to `TAG`. Returns the identifier half
    /// exactly when the tag half matches, and `TagMismatch` otherwise.
    pub fn to_raw(self, cipher: &aes::Aes128) -> (r: Result<i64, Error>)
        ensures
            ({
                let (t, i) = bisect_spec(decrypted_block(*cipher, self@));
                if t == TAG {
                    r == Ok::<i64, Error>(i)
                } else {
                    r == Err::<i64, Error>(Error::TagMismatch)
                }
            }),
    {
        let (t, i) = decrypt(self.block, cipher);
        if t == TAG {
            Ok(i)
        } else {
            Err(Error::TagMismatch)
        }
    }

    /// Renders the handle as its token: the radix encoding of the stored
    /// ciphertext block.
    pub fn to_string(&self) -> (r: String)
        ensures
            r@ == token_chars(self@),
            r@.len() == 23,
    {
        stringify(self.block)
    }

    /// Parses a token into a handle of this tag. This is purely syntactic:
    /// no tag check happens here, so any well-formed token parses under any
    /// tag; only [`Id::to_raw`] establishes authenticity. Fails with
    /// `InvalidFormat` exactly on the strings the codec rejects.
    pub fn from_str(s: &str) -> (r: Result<Self, Error>)
        ensures
            ({
                match r {
                    Ok(id) => parse_spec(s@) == Some(id@),
                    Err(e) => parse_spec(s@) is None && e == Error::InvalidFormat,
                }
            }),
    {
        match parse(s) {
            Some(block) => Ok(Id { block }),
            None => Err(Error::InvalidFormat),
        }
    }
}

/// The full pipeline is the identity: minting a handle for any identifier
/// under any cipher, rendering it, parsing the token back, and revealing it
/// under the same cipher returns exactly that identifier.
pub fn id_to_string_and_back<const TAG: u64>(id: i64, cipher: &aes::Aes128) -> (r: Result<
    i64,
    Error,
>)
    ensures
        r == Ok::<i64, Error>(id),
{
    let minted = Id::<TAG>::new(id, cipher);
    let token = minted.to_string();
    proof {
        crate::encoding::lemma_parse_token(minted@);
    }
    match Id::<TAG>::from_str(token.as_str()) {
        Ok(parsed) => {
            proof {
                lemma_concat_bisect(TAG, id);
            }
            parsed.to_raw(cipher)
        },
        Err(e) => Err(e),
    }
}

/// Tags isolate kinds: a token minted under one tag, parsed as a handle of
/// any other tag, is rejected with `TagMismatch` when revealed under the
/// same cipher.
pub fn reveal_under_other_tag<const T1: u64, const T2: u64>(id: i64, cipher: &aes::Aes128) -> (r:
    Result<i64, Error>)
    requires
        T1 != T2,
    ensures
        r == Err::<i64, Error>(Error::TagMismatch),
{
    let minted = Id::<T1>::new(id, cipher);
    let token = minted.to_string();
    proof {
        crate::encoding::lemma_parse_token(minted@);
    }
    match Id::<T2>::from_str(token.as_str()) {
        Ok(parsed) => {
            proof {
                lemma_concat_bisect(T1, id);
            }
            parsed.to_raw(cipher)
        },
        Err(e) => Err(e),
    }
}

} // verus!
