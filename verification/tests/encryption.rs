use core::fmt::Binary;
use core::mem::size_of;

use aes::cipher::KeyInit;
use aes::Aes128;

use squint::encryption::{bisect, decrypt, encrypt};

fn concat(tag: u64, id: i64) -> u128 {
    squint::encryption::concat(tag, id)
}

fn test_pairs() -> Vec<(u64, i64)> {
    vec![
        (0, 0),
        (0, 1),
        (0, -1),
        (1, 0),
        (42, 42),
        (0x72657375, 7),
        (u64::MAX, i64::MIN),
        (u64::MAX, i64::MAX),
        (0x0102030405060708, -42),
        (1 << 63, 1 << 32),
    ]
}

fn test_keys() -> Vec<[u8; 16]> {
    vec![
        [0; 16],
        [0xff; 16],
        [1, 2, 3, 4, 5, 6, 7, 8, 9, 10, 11, 12, 13, 14, 15, 16],
        *b"very secret key!",
    ]
}

fn padded_binary<T: Binary>(x: T) -> String {
    format!("{x:0size$b}", size = size_of::<T>() * 8)
}

#[test]
fn binary_of_concat_is_concat_of_binaries() {
    for (tag, id) in test_pairs() {
        let concatenated_binaries = [padded_binary(tag), padded_binary(id)].concat();
        let block = concat(tag, id);
        let block_binary = padded_binary(block);
        assert_eq!(concatenated_binaries, block_binary);
    }
}

#[test]
fn concat_bisect_is_identity() {
    let concat_bisect = |(tag, id): (u64, i64)| {
        let block = concat(tag, id);
        bisect(block)
    };
    for x in test_pairs() {
        assert_eq!(x, concat_bisect(x));
    }
}

#[test]
fn encrypt_decrypt_is_identity() {
    let encrypt_decrypt = |(tag, id): (u64, i64), cipher: &Aes128| {
        let block = encrypt(tag, id, cipher);
        decrypt(block, cipher)
    };
    for key in test_keys() {
        let cipher = Aes128::new(&key.into());
        for x in test_pairs() {
            assert_eq!(x, encrypt_decrypt(x, &cipher));
        }
    }
}

#[test]
fn concat_exact_placement() {
    // The identifier's bit pattern fills the low half, the tag the high one.
    assert_eq!(concat(0x0102030405060708, -1), 0x0102030405060708_ffffffffffffffff);
    assert_eq!(bisect(0x0102030405060708_ffffffffffffffff), (0x0102030405060708, -1));
    assert_eq!(concat(0, 0), 0);
    assert_eq!(bisect(1 << 64), (1, 0));
}

#[test]
fn encryption_known_answer() {
    // AES-128 of the all-zero block under the all-zero key, little-endian.
    let expected = u128::from_le_bytes([
        0x66, 0xe9, 0x4b, 0xd4, 0xef, 0x8a, 0x2c, 0x3b, 0x88, 0x4c, 0xfa, 0x59, 0xca, 0x34, 0x2b,
        0x2e,
    ]);
    let cipher = Aes128::new(&[0; 16].into());
    assert_eq!(encrypt(0, 0, &cipher), expected);
    assert_eq!(decrypt(expected, &cipher), (0, 0));
}
