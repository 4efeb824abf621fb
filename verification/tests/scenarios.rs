use aes::cipher::KeyInit;
use aes::Aes128;

use squint::encoding::parse_digit;
use squint::tag::tag;
use squint::Id;

#[test]
fn user_tag_scenario() {
    // Deriving the tag from the 4-byte string "user" puts the bytes
    // 'u', 's', 'e', 'r' in the low four bytes and zeroes above.
    let user = tag("user");
    assert_eq!(user, 0x72657375);
    assert_eq!(user.to_le_bytes()[..4], *b"user");
    assert_eq!(user >> 32, 0);

    // Minting 42 under a zero key renders as a token over the alphabet,
    // and parsing plus revealing under the same key returns 42.
    let cipher = Aes128::new(&[0; 16].into());
    let id = Id::<0x72657375>::new(42, &cipher);
    let token = id.to_string();
    assert_eq!(token.len(), 23);
    assert!(token.bytes().all(|b| parse_digit(b).is_some()));
    let reread = Id::<0x72657375>::from_str(&token).unwrap();
    assert_eq!(reread.to_raw(&cipher), Ok(42));
}

#[test]
fn tag_packs_little_endian() {
    assert_eq!(tag(""), 0);
    assert_eq!(tag("a"), 0x61);
    assert_eq!(tag("ab"), 0x6261);
    assert_eq!(tag("abcdefgh"), 0x6867666564636261);
}
