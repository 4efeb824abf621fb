use squint::encoding::{
    digits_of, last_digit_of, parse, parse_digit, parse_number, ENCODING_LENGTH, MAX_UNPADDED_LEN,
    PADDING_SIZE_LEN, RADIX,
};

fn stringify(n: u128) -> String {
    squint::encoding::stringify(n)
}

fn test_values() -> Vec<u128> {
    vec![
        0,
        1,
        41,
        42,
        57,
        58,
        59,
        255,
        3363,
        3364,
        65536,
        0xdead_beef,
        1 << 63,
        u64::MAX as u128,
        (u64::MAX as u128) + 1,
        1 << 127,
        u128::MAX - 1,
        u128::MAX,
    ]
}

#[test]
fn length_assumptions_are_met() {
    assert_eq!(MAX_UNPADDED_LEN, digits_of(u128::MAX).len());
    let max_padding_size = ENCODING_LENGTH - digits_of(u128::MIN).len();
    assert_eq!(PADDING_SIZE_LEN, digits_of(max_padding_size as u128).len());
}

#[test]
fn alphabet_is_base58() {
    let blacklist = ['I', 'O', 'l', '0'];
    let base58 = ('0'..='9')
        .chain('A'..='Z')
        .chain('a'..='z')
        .filter(|c| !blacklist.contains(c))
        .collect::<String>();
    let alphabet = (0..RADIX).map(last_digit_of).collect::<Vec<u8>>();
    assert_eq!(alphabet.as_slice(), base58.as_bytes());
}

#[test]
fn digits_parse_back() {
    let digits = (0..RADIX).collect::<Vec<_>>();
    let parsed = digits
        .iter()
        .copied()
        .map(last_digit_of)
        .map(parse_digit)
        .collect::<Option<Vec<_>>>();
    assert!(parsed.is_some());
    assert_eq!(digits, parsed.unwrap());
}

#[test]
fn parse_last_digit_gives_mod_radix() {
    for n in test_values() {
        let ascii_digit = last_digit_of(n);
        let parsed_digit = parse_digit(ascii_digit);
        assert!(parsed_digit.is_some());
        assert_eq!(n % RADIX, parsed_digit.unwrap());
    }
}

#[test]
fn block_decodes_back() {
    for n in test_values() {
        let encoded = stringify(n);
        let decoded = parse(&encoded);
        assert!(decoded.is_some());
        assert_eq!(n, decoded.unwrap());
    }
}

#[test]
fn known_tokens() {
    assert_eq!(stringify(0), "1vLNt2Fk5kqzRJ6bQkxfVcP");
    assert_eq!(stringify(1), "2uLNt2Fk5kqzRJ6bQkxfVcP");
    assert_eq!(stringify(u128::MAX), "vLNt2Fk5kqzRJ6bQkxfVcY2");
    assert_eq!(parse("1vLNt2Fk5kqzRJ6bQkxfVcP"), Some(0));
    assert_eq!(parse("vLNt2Fk5kqzRJ6bQkxfVcY2"), Some(u128::MAX));
}

#[test]
fn zero_encodes_to_the_zero_symbol() {
    assert_eq!(digits_of(0), vec![b'1']);
    assert_eq!(parse_digit(b'1'), Some(0));
    assert_eq!(parse_number(&[b'1']), Some(0));
}

#[test]
fn punctuation_is_not_parsed() {
    assert_eq!(parse_digit(b'!'), None);
    assert_eq!(parse_digit(b'@'), None);
    assert_eq!(parse_digit(b'#'), None);
    assert_eq!(parse("!@#"), None);
    assert_eq!(parse_number(b"!@#"), None);
}

#[test]
fn parse_rejects_malformed_tokens() {
    // Too short, too long.
    assert_eq!(parse(""), None);
    assert_eq!(parse("1vLNt2Fk5kqzRJ6bQkxfVc"), None);
    assert_eq!(parse("1vLNt2Fk5kqzRJ6bQkxfVcPP"), None);
    // A zero padding length.
    assert_eq!(parse("11111111111111111111111"), None);
    // A symbol outside the alphabet.
    assert_eq!(parse("1vLNt2Fk5kqzRJ6bQkxfV0P"), None);
    // Filler that the seed would not generate.
    assert_eq!(parse("1wLNt2Fk5kqzRJ6bQkxfVcP"), None);
    // Non-ASCII text of the right byte length.
    assert_eq!(parse("1vLNt2Fk5kqzRJ6bQkxfV\u{e9}"), None);
}

#[test]
fn parse_accepts_non_canonical_second_preimages() {
    // 22 zero digits plus a padding length of one: a token no rendering
    // produces, but one the codec accepts as another spelling of zero.
    assert_eq!(parse("11111111111111111111112"), Some(0));
    // A padding length of 23 leaves no digits at all, which also reads as
    // zero when the filler matches zero's seed.
    assert_eq!(parse("vLNt2Fk5kqzRJ6bQkxfVcYQ"), Some(0));
}

#[test]
fn overflowing_digit_runs_are_rejected() {
    // 22 digits of the maximum symbol encode a value past 128 bits.
    assert_eq!(parse_number(&[b'z'; 22]), None);
    assert_eq!(parse_number(&[b'z'; 23]), None);
    assert_eq!(parse_number(&[b'1'; 23]), None);
    assert!(parse_number(&[b'z'; 21]).is_some());
}
