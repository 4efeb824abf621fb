//! The bit packer and the cipher step.
//!
//! A 64-bit tag and a signed 64-bit identifier are packed into the two
//! disjoint halves of a 128-bit block: the identifier's two's-complement bit
//! pattern fills the low 64 bits, the tag the high 64 bits. The block is then
//! encrypted (or decrypted) as a single AES-128 block under a caller-supplied
//! cipher; no mode, no IV, no chaining.

use aes::cipher::{BlockDecrypt, BlockEncrypt};
use vstd::prelude::*;

verus! {

#[verifier::external_type_specification]
#[verifier::external_body]
pub struct ExAes128(aes::Aes128);

/// The block that `aes::Aes128` encrypts a given block to, read as a
/// little-endian 128-bit integer. AES-128 is deterministic, so the result is
/// a function of the cipher value and the block alone.
pub uninterp spec fn encrypted_block(cipher: aes::Aes128, block: u128) -> u128;

/// The block that `aes::Aes128` decrypts a given block to, read as a
/// little-endian 128-bit integer.
pub uninterp spec fn decrypted_block(cipher: aes::Aes128, block: u128) -> u128;

/// Relies on `aes::Aes128`'s `encrypt_block` (its `cipher::BlockEncrypt`
/// impl): single-block AES-128 encryption, deterministic in the cipher value
/// and the block; `decrypt_block` is documented as its exact inverse under
/// the same cipher, so decrypting the result yields the block again.
#[verifier::external_body]
fn encrypt_block_u128(cipher: &aes::Aes128, block: u128) -> (r: u128)
    ensures
        r == encrypted_block(*cipher, block),
        decrypted_block(*cipher, r) == block,
{
    let mut bytes = block.to_le_bytes().into();
    cipher.encrypt_block(&mut bytes);
    u128::from_le_bytes(bytes.into())
}

/// Relies on `aes::Aes128`'s `decrypt_block` (its `cipher::BlockDecrypt`
/// impl): single-block AES-128 decryption, deterministic in the cipher value
/// and the block.
#[verifier::external_body]
fn decrypt_block_u128(cipher: &aes::Aes128, block: u128) -> (r: u128)
    ensures
        r == decrypted_block(*cipher, block),
{
    let mut bytes = block.to_le_bytes().into();
    cipher.decrypt_block(&mut bytes);
    u128::from_le_bytes(bytes.into())
}

/// The packed plaintext block: the identifier's bit pattern in the low half,
/// the tag in the high half.
pub open spec fn concat_spec(tag: u64, id: i64) -> u128 {
    ((tag as u128) << 64) | (id as u64 as u128)
}

/// The two halves of a block: the tag from the high half, the identifier
/// re-read as a signed integer from the low half.
pub open spec fn bisect_spec(block: u128) -> (u64, i64) {
    ((block >> 64) as u64, block as u64 as i64)
}

/// Packs a tag and an identifier into the two disjoint halves of a block.
pub fn concat(tag: u64, id: i64) -> (r: u128)
    ensures
        r == concat_spec(tag, id),
{
    ((tag as u128) << 64) | (id as u64 as u128)
}

/// Splits a block back into its tag and identifier halves.
pub fn bisect(block: u128) -> (r: (u64, i64))
    ensures
        r == bisect_spec(block),
{
    ((block >> 64) as u64, #[verifier::truncate] (block as u64 as i64))
}

/// The packer is a bijection: splitting a packed block recovers exactly the
/// tag and the identifier it was built from, for every tag and identifier.
pub proof fn lemma_concat_bisect(tag: u64, id: i64)
    ensures
        bisect_spec(concat_spec(tag, id)) == (tag, id),
{
    assert(((((tag as u128) << 64) | (id as u64 as u128)) >> 64) as u64 == tag) by (bit_vector);
    assert((((tag as u128) << 64) | (id as u64 as u128)) as u64 as i64 == id) by (bit_vector);
}

/// Packs and encrypts: the plaintext block `concat(tag, id)` under the given
/// cipher. Decrypting the result under the same cipher yields that block
/// again.
pub fn encrypt(tag: u64, id: i64, cipher: &aes::Aes128) -> (r: u128)
    ensures
        r == encrypted_block(*cipher, concat_spec(tag, id)),
        decrypted_block(*cipher, r) == concat_spec(tag, id),
{
    encrypt_block_u128(cipher, concat(tag, id))
}

/// Decrypts and splits: the tag and identifier halves of the block's
/// decryption under the given cipher.
pub fn decrypt(block: u128, cipher: &aes::Aes128) -> (r: (u64, i64))
    ensures
        r == bisect_spec(decrypted_block(*cipher, block)),
{
    bisect(decrypt_block_u128(cipher, block))
}

} // verus!
