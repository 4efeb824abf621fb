//! The radix codec: a bijection between 128-bit integers and fixed-length
//! base-58 token strings.
//!
//! A number's digits are written least-significant first over the 58-symbol
//! alphabet `123456789ABCDEFGHJKLMNPQRSTUVWXYZabcdefghijkmnopqrstuvwxyz`
//! (base-58: digits and letters without `0`, `I`, `O`, `l`). Every token is
//! padded to exactly 23 symbols: after the digits comes deterministic filler
//! drawn from the digits of a seed derived from the number, and the last
//! symbol encodes the padding's own length, so parsing can undo it.

use vstd::prelude::*;
use vstd::utf8::is_ascii_chars;

verus! {

/// Number of base-58 digits of the largest 128-bit value.
pub const MAX_UNPADDED_LEN: usize = 22;

/// Number of trailing symbols that encode the padding's length.
pub const PADDING_SIZE_LEN: usize = 1;

/// Every token is exactly this long.
pub const ENCODING_LENGTH: usize = 23;

/// The alphabet size.
pub const RADIX: u128 = 58;

/// The alphabet symbol for a digit value below 58, as a byte.
///
/// Value 0 maps to `1`; the six ranges mirror the gaps in the base-58
/// alphabet (no `0`, `I`, `O`, `l`).
pub open spec fn digit_byte(d: int) -> u8 {
    if 0 <= d < 9 {
        (d + 49) as u8  // b'1'
    } else if 9 <= d < 17 {
        (d - 9 + 65) as u8  // b'A'
    } else if 17 <= d < 22 {
        (d - 17 + 74) as u8  // b'J'
    } else if 22 <= d < 33 {
        (d - 22 + 80) as u8  // b'P'
    } else if 33 <= d < 44 {
        (d - 33 + 97) as u8  // b'a'
    } else if 44 <= d < 58 {
        (d - 44 + 109) as u8  // b'm'
    } else {
        0
    }
}

/// Whether a byte is one of the 58 alphabet symbols.
pub open spec fn is_digit_byte(b: u8) -> bool {
    ||| 49 <= b <= 57  // b'1' ..= b'9'
    ||| 65 <= b <= 72  // b'A' ..= b'H'
    ||| 74 <= b <= 78  // b'J' ..= b'N'
    ||| 80 <= b <= 90  // b'P' ..= b'Z'
    ||| 97 <= b <= 107  // b'a' ..= b'k'
    ||| 109 <= b <= 122  // b'm' ..= b'z'
}

/// The digit value of an alphabet byte; 0 for any other byte.
pub open spec fn digit_val(b: u8) -> int {
    if 49 <= b <= 57 {
        b - 49
    } else if 65 <= b <= 72 {
        b - 65 + 9
    } else if 74 <= b <= 78 {
        b - 74 + 17
    } else if 80 <= b <= 90 {
        b - 80 + 22
    } else if 97 <= b <= 107 {
        b - 97 + 33
    } else if 109 <= b <= 122 {
        b - 109 + 44
    } else {
        0
    }
}

/// Each digit value below 58 has exactly one alphabet symbol, and reading
/// the symbol back yields the value.
pub proof fn lemma_digit_byte(d: int)
    requires
        0 <= d < 58,
    ensures
        is_digit_byte(digit_byte(d)),
        digit_val(digit_byte(d)) == d,
{
}

/// The alphabet symbol of `n`'s least-significant base-58 digit.
pub fn last_digit_of(n: u128) -> (r: u8)
    ensures
        r == digit_byte((n % 58) as int),
{
    let d = (n % RADIX) as u8;
    if d < 9 {
        d + 49
    } else if d < 17 {
        d - 9 + 65
    } else if d < 22 {
        d - 17 + 74
    } else if d < 33 {
        d - 22 + 80
    } else if d < 44 {
        d - 33 + 97
    } else {
        d - 44 + 109
    }
}

/// 58 to the power `k`.
pub open spec fn pow58(k: nat) -> int
    decreases k,
{
    if k == 0 {
        1
    } else {
        58 * pow58((k - 1) as nat)
    }
}

pub proof fn lemma_pow58_le(j: nat, k: nat)
    requires
        j <= k,
    ensures
        1 <= pow58(j) <= pow58(k),
    decreases k,
{
    if k > 0 {
        if j < k {
            lemma_pow58_le(j, (k - 1) as nat);
        } else {
            lemma_pow58_le((k - 1) as nat, (k - 1) as nat);
        }
    }
}

/// The numeric bracket that makes every token the same length: 21 digits are
/// not enough for the largest seed and 22 are enough for every value.
pub proof fn lemma_pow58_bounds()
    ensures
        pow58(21) <= 0x8000_0000_0000_0000_0000_0000_0000_0000,
        pow58(22) > u128::MAX,
{
    assert(pow58(21) == 10764351351569111513009094806216900608
        && pow58(22) == 624332378391008467754527498760580235264) by {
        reveal_with_fuel(pow58, 23);
    }
}

/// Whether every byte of `s` is an alphabet symbol.
pub open spec fn digits_valid(s: Seq<u8>) -> bool {
    forall|i: int| 0 <= i < s.len() ==> is_digit_byte(#[trigger] s[i])
}

/// The base-58 digits of `n` as alphabet bytes, least-significant first;
/// zero is the single digit `1`, never the empty sequence.
pub open spec fn digits_of_spec(n: nat) -> Seq<u8>
    decreases n,
{
    if n < 58 {
        seq![digit_byte(n as int)]
    } else {
        seq![digit_byte((n % 58) as int)] + digits_of_spec((n / 58) as nat)
    }
}

/// The number encoded by the digits of `s` from position `i` on, read
/// least-significant first; bytes outside the alphabet count as zero.
pub open spec fn digits_value_from(s: Seq<u8>, i: int) -> int
    decreases s.len() - i,
{
    if i < 0 || i >= s.len() {
        0
    } else {
        digit_val(s[i]) + 58 * digits_value_from(s, i + 1)
    }
}

/// The number encoded by the whole of `s`, least-significant digit first.
pub open spec fn digits_value(s: Seq<u8>) -> int {
    digits_value_from(s, 0)
}

proof fn lemma_digits_value_from_nonneg(s: Seq<u8>, i: int)
    ensures
        0 <= digits_value_from(s, i),
    decreases s.len() - i,
{
    if 0 <= i < s.len() {
        lemma_digits_value_from_nonneg(s, i + 1);
    }
}

proof fn lemma_digits_value_from_cons(x: u8, rest: Seq<u8>, i: int)
    requires
        1 <= i <= rest.len() + 1,
    ensures
        digits_value_from(seq![x] + rest, i) == digits_value_from(rest, i - 1),
    decreases rest.len() + 1 - i,
{
    if i <= rest.len() {
        assert((seq![x] + rest)[i] == rest[i - 1]);
        lemma_digits_value_from_cons(x, rest, i + 1);
    }
}

/// The digit expansion is faithful: the digits of `n` are alphabet symbols
/// and encode exactly `n`.
pub proof fn lemma_digits_of_spec(n: nat)
    ensures
        digits_of_spec(n).len() >= 1,
        digits_valid(digits_of_spec(n)),
        digits_value(digits_of_spec(n)) == n,
    decreases n,
{
    lemma_digit_byte((n % 58) as int);
    if n < 58 {
        assert(digits_value_from(seq![digit_byte(n as int)], 1) == 0);
    } else {
        let rest = digits_of_spec((n / 58) as nat);
        lemma_digits_of_spec((n / 58) as nat);
        lemma_digits_value_from_cons(digit_byte((n % 58) as int), rest, 1);
        assert((seq![digit_byte((n % 58) as int)] + rest)[0] == digit_byte((n % 58) as int));
    }
}

/// Digit counts follow the powers of 58, from above: below `58^k` at most
/// `k` digits are used.
pub proof fn lemma_digits_of_spec_len(n: nat, k: nat)
    requires
        n < pow58(k),
        k >= 1,
    ensures
        digits_of_spec(n).len() <= k,
    decreases n,
{
    if n >= 58 {
        assert(pow58(k) == 58 * pow58((k - 1) as nat));
        assert(n / 58 < pow58((k - 1) as nat)) by (nonlinear_arith)
            requires
                n < 58 * pow58((k - 1) as nat),
                n >= 58,
        ;
        assert(k >= 2) by {
            if k == 1 {
                assert(pow58(1int as nat) == 58) by {
                    reveal_with_fuel(pow58, 2);
                }
            }
        }
        lemma_digits_of_spec_len((n / 58) as nat, (k - 1) as nat);
        assert(n / 58 < n) by (nonlinear_arith)
            requires
                n >= 58,
        ;
    }
}

/// Digit counts follow the powers of 58, from below: from `58^k` on, more
/// than `k` digits are needed.
pub proof fn lemma_digits_of_spec_len_lower(n: nat, k: nat)
    requires
        pow58(k) <= n,
    ensures
        digits_of_spec(n).len() >= k + 1,
    decreases k,
{
    if k >= 1 {
        lemma_pow58_le(1, k);
        assert(pow58(1int as nat) == 58) by {
            reveal_with_fuel(pow58, 2);
        }
        assert(pow58(k) == 58 * pow58((k - 1) as nat));
        assert(n / 58 >= pow58((k - 1) as nat)) by (nonlinear_arith)
            requires
                n >= 58 * pow58((k - 1) as nat),
        ;
        lemma_digits_of_spec_len_lower((n / 58) as nat, (k - 1) as nat);
    }
}

/// The base-58 digits of `n`, least-significant first, as alphabet bytes.
pub fn digits_of(n: u128) -> (r: Vec<u8>)
    ensures
        r@ == digits_of_spec(n as nat),
        1 <= r@.len() <= 22,
{
    let mut digits: Vec<u8> = Vec::new();
    digits.push(last_digit_of(n));
    let mut m: u128 = n / RADIX;
    proof {
        if n < 58 {
            assert(digits@ =~= digits_of_spec(n as nat));
        } else {
            assert(digits@ + digits_of_spec(m as nat) =~= digits_of_spec(n as nat));
        }
    }
    while m != 0
        invariant
            digits@.len() >= 1,
            if m == 0 {
                digits@ == digits_of_spec(n as nat)
            } else {
                digits@ + digits_of_spec(m as nat) == digits_of_spec(n as nat)
            },
        decreases m,
    {
        let ghost pre = digits@;
        digits.push(last_digit_of(m));
        let next = m / RADIX;
        proof {
            if m < 58 {
                assert(pre + digits_of_spec(m as nat) =~= digits@);
            } else {
                assert(pre + digits_of_spec(m as nat) =~= digits@ + digits_of_spec(
                    next as nat,
                ));
            }
        }
        m = next;
    }
    proof {
        lemma_pow58_bounds();
        lemma_digits_of_spec_len(n as nat, 22);
    }
    digits
}

/// The digit value of an alphabet byte, or `None` for any byte outside the
/// alphabet.
pub fn parse_digit(digit: u8) -> (r: Option<u128>)
    ensures
        is_digit_byte(digit) ==> r == Some(digit_val(digit) as u128),
        !is_digit_byte(digit) ==> r is None,
{
    if 49 <= digit && digit <= 57 {
        Some((digit - 49) as u128)
    } else if 65 <= digit && digit <= 72 {
        Some((digit - 65 + 9) as u128)
    } else if 74 <= digit && digit <= 78 {
        Some((digit - 74 + 17) as u128)
    } else if 80 <= digit && digit <= 90 {
        Some((digit - 80 + 22) as u128)
    } else if 97 <= digit && digit <= 107 {
        Some((digit - 97 + 33) as u128)
    } else if 109 <= digit && digit <= 122 {
        Some((digit - 109 + 44) as u128)
    } else {
        None
    }
}

/// The number a digit string encodes, least-significant digit first:
/// `Some` exactly when every byte is an alphabet symbol, at most 22 digits
/// are given, and the encoded value fits in 128 bits. (A 23rd digit position
/// would weigh `58^22`, past the 128-bit range, and is rejected even when
/// its digit is zero.)
pub fn parse_number(digits: &[u8]) -> (r: Option<u128>)
    ensures
        ({
            if digits_valid(digits@) && digits@.len() <= 22 && digits_value(digits@) <= u128::MAX {
                r == Some(digits_value(digits@) as u128)
            } else {
                r is None
            }
        }),
{
    let n = digits.len();
    let mut acc: u128 = 0;
    let mut power: u128 = 1;
    let mut i: usize = 0;
    while i < n
        invariant
            n == digits@.len(),
            0 <= i <= n,
            i <= 22,
            i < n ==> power == pow58(i as nat),
            forall|j: int| 0 <= j < i ==> is_digit_byte(#[trigger] digits@[j]),
            digits_value(digits@) == acc + pow58(i as nat) * digits_value_from(digits@, i as int),
        decreases n - i,
    {
        proof {
            lemma_pow58_bounds();
            if i >= 22 {
                lemma_pow58_le(22, i as nat);
            }
            lemma_digits_value_from_nonneg(digits@, i + 1);
        }
        let d = match parse_digit(digits[i]) {
            Some(d) => d,
            None => {
                return None;
            },
        };
        let term = match power.checked_mul(d) {
            Some(t) => t,
            None => {
                proof {
                    lemma_no_room(digits@, i as int, acc);
                }
                return None;
            },
        };
        let next_acc = match acc.checked_add(term) {
            Some(a) => a,
            None => {
                proof {
                    lemma_no_room(digits@, i as int, acc);
                }
                return None;
            },
        };
        proof {
            let s = digits@;
            let ii = i as int;
            assert(pow58(ii as nat) * digits_value_from(s, ii) == pow58(ii as nat) * digit_val(
                s[ii],
            ) + pow58((ii + 1) as nat) * digits_value_from(s, ii + 1)) by (nonlinear_arith)
                requires
                    digits_value_from(s, ii) == digit_val(s[ii]) + 58 * digits_value_from(
                        s,
                        ii + 1,
                    ),
                    pow58((ii + 1) as nat) == 58 * pow58(ii as nat),
            ;
        }
        acc = next_acc;
        i = i + 1;
        if i < n {
            power = match power.checked_mul(RADIX) {
                Some(p) => p,
                None => {
                    proof {
                        lemma_pow58_bounds();
                        if i <= 21 {
                            lemma_pow58_le(i as nat, 21);
                        }
                    }
                    return None;
                },
            };
        }
    }
    proof {
        assert(pow58(i as nat) * digits_value_from(digits@, i as int) == 0);
    }
    Some(acc)
}

/// When the next term alone outgrows 128 bits, so does the whole value: used
/// to justify rejecting the digit string.
proof fn lemma_no_room(s: Seq<u8>, i: int, acc: u128)
    requires
        0 <= i < s.len(),
        digits_value(s) == acc + pow58(i as nat) * digits_value_from(s, i),
        is_digit_byte(s[i]),
        acc + pow58(i as nat) * digit_val(s[i]) > u128::MAX,
    ensures
        digits_value(s) > u128::MAX,
{
    lemma_digits_value_from_nonneg(s, i + 1);
    lemma_pow58_le(0, i as nat);
    assert(pow58(i as nat) * digits_value_from(s, i) >= pow58(i as nat) * digit_val(s[i]))
        by (nonlinear_arith)
        requires
            digits_value_from(s, i) == digit_val(s[i]) + 58 * digits_value_from(s, i + 1),
            digits_value_from(s, i + 1) >= 0,
            pow58(i as nat) >= 1,
    ;
}

/// The seed whose base-58 digits supply a token's filler: the larger of `n`
/// and `u128::MAX - n`. It is always at least `2^127`, so it always has
/// exactly 22 digits, enough filler for any token.
pub open spec fn pad_seed(n: u128) -> u128 {
    if n >= u128::MAX - n {
        n
    } else {
        (u128::MAX - n) as u128
    }
}

/// The filler seed always expands to exactly 22 alphabet digits.
pub proof fn lemma_pad_seed_digits(n: u128)
    ensures
        digits_of_spec(pad_seed(n) as nat).len() == 22,
        digits_valid(digits_of_spec(pad_seed(n) as nat)),
{
    let p = pad_seed(n);
    assert(p >= 0x8000_0000_0000_0000_0000_0000_0000_0000);
    lemma_pow58_bounds();
    lemma_digits_of_spec(p as nat);
    lemma_digits_of_spec_len(p as nat, 22);
    lemma_digits_of_spec_len_lower(p as nat, 21);
}

/// The padding appended to a token: `size - 1` filler digits drawn from the
/// digit expansion of the filler seed, then one symbol encoding `size`
/// itself.
pub open spec fn padding_spec(n: u128, size: nat) -> Seq<u8> {
    digits_of_spec(pad_seed(n) as nat).take(size - 1) + seq![digit_byte(size as int)]
}

/// The alphabet symbol encoding a padding length (always a single digit,
/// since no padding is longer than the token).
pub fn encode_padding_size(size: u128) -> (r: u8)
    requires
        size < 58,
    ensures
        r == digit_byte(size as int),
{
    last_digit_of(size)
}

/// The padding of a token for the number `seed` whose digits leave `size`
/// free positions.
pub fn gen_padding(seed: u128, size: usize) -> (r: Vec<u8>)
    requires
        1 <= size <= 23,
    ensures
        r@ == padding_spec(seed, size as nat),
        r@.len() == size,
{
    proof {
        lemma_pad_seed_digits(seed);
    }
    let filler_seed = if seed >= u128::MAX - seed {
        seed
    } else {
        u128::MAX - seed
    };
    let ds = digits_of(filler_seed);
    let mut out: Vec<u8> = Vec::new();
    let mut i: usize = 0;
    while i < size - 1
        invariant
            ds@ == digits_of_spec(pad_seed(seed) as nat),
            ds@.len() == 22,
            i <= size - 1 <= 22,
            out@ == ds@.take(i as int),
        decreases size - 1 - i,
    {
        let ghost pre = out@;
        out.push(ds[i]);
        i = i + 1;
        proof {
            assert(pre.push(ds@[i - 1]) =~= ds@.take(i as int));
        }
    }
    out.push(encode_padding_size(size as u128));
    proof {
        assert(out@ =~= padding_spec(seed, size as nat));
    }
    out
}

/// The 23 bytes of the token for `n`: its digits, then filler, then the one
/// symbol giving the padding's length.
pub open spec fn token_bytes(n: u128) -> Seq<u8> {
    let ds = digits_of_spec(n as nat);
    ds + padding_spec(n, (23 - ds.len()) as nat)
}

/// The token for `n` as characters.
pub open spec fn token_chars(n: u128) -> Seq<char> {
    token_bytes(n).map(|i: int, b: u8| b as char)
}

/// Relies on `String::push`: appends exactly the one character.
#[verifier::external_body]
fn push_char(s: &mut String, c: char)
    ensures
        final(s)@ == old(s)@.push(c),
{
    s.push(c);
}

/// Renders `n` as its 23-symbol token: digits least-significant first, then
/// deterministic filler, then the padding-length symbol.
pub fn stringify(n: u128) -> (r: String)
    ensures
        r@ == token_chars(n),
        r@.len() == 23,
{
    let mut bytes = digits_of(n);
    let mut pad = gen_padding(n, ENCODING_LENGTH - bytes.len());
    bytes.append(&mut pad);
    proof {
        assert(bytes@ =~= token_bytes(n));
    }
    let mut s = String::new();
    let mut i: usize = 0;
    while i < bytes.len()
        invariant
            bytes@ == token_bytes(n),
            bytes@.len() == 23,
            i <= 23,
            s@.len() == i,
            forall|j: int| 0 <= j < i ==> s@[j] == (bytes@[j] as char),
        decreases 23 - i,
    {
        push_char(&mut s, bytes[i] as char);
        i = i + 1;
    }
    proof {
        assert(s@ =~= token_chars(n));
    }
    s
}

/// What a 23-byte candidate token means, if anything: the trailing symbol
/// must encode a padding length between 1 and 23, the leading digits must
/// encode a 128-bit number, and the filler in between must be exactly the
/// filler that number generates.
pub open spec fn parse_bytes(b: Seq<u8>) -> Option<u128> {
    if b.len() != 23 {
        None
    } else if !is_digit_byte(b[22]) {
        None
    } else {
        let ps = digit_val(b[22]);
        if ps == 0 {
            None
        } else if ps > 23 {
            None
        } else {
            let es = 23 - ps;
            let num = b.take(es);
            if !digits_valid(num) {
                None
            } else if digits_value(num) > u128::MAX {
                None
            } else {
                let n = digits_value(num) as u128;
                if b.subrange(es, 22) == digits_of_spec(pad_seed(n) as nat).take(ps - 1) {
                    Some(n)
                } else {
                    None
                }
            }
        }
    }
}

/// What a candidate token string means: only ASCII strings can be tokens,
/// and their bytes are read as by [`parse_bytes`].
pub open spec fn parse_spec(s: Seq<char>) -> Option<u128> {
    if !is_ascii_chars(s) {
        None
    } else {
        parse_bytes(s.map(|i: int, c: char| c as u8))
    }
}

/// Parses a token back into the number it renders, or `None` for any string
/// that no number's token equals. Total over all strings: any length other
/// than 23, any symbol outside the alphabet, a zero or oversized padding
/// length, an overflowing digit run, and any filler mismatch are rejected.
pub fn parse(digits: &str) -> (r: Option<u128>)
    ensures
        r == parse_spec(digits@),
{
    if !digits.is_ascii() {
        return None;
    }
    proof {
        vstd::string::is_ascii_spec_bytes(digits);
    }
    let ghost bs = digits@.map(|i: int, c: char| c as u8);
    let bytes = digits.as_bytes();
    proof {
        assert(bytes@ =~= bs);
    }
    if bytes.len() != ENCODING_LENGTH {
        return None;
    }
    let pd = match parse_digit(bytes[22]) {
        Some(d) => d,
        None => {
            return None;
        },
    };
    if pd == 0 {
        return None;
    }
    if pd > 23 {
        return None;
    }
    let padding_size: usize = pd as usize;
    let encoding_size: usize = ENCODING_LENGTH - padding_size;
    let num = match parse_number(&bytes[0..encoding_size]) {
        Some(v) => v,
        None => {
            proof {
                assert(bytes@.subrange(0, encoding_size as int) =~= bs.take(encoding_size as int));
            }
            return None;
        },
    };
    proof {
        assert(bytes@.subrange(0, encoding_size as int) =~= bs.take(encoding_size as int));
        lemma_digits_value_from_nonneg(bs.take(encoding_size as int), 0);
    }
    let pad = gen_padding(num, padding_size);
    let ghost fill = digits_of_spec(pad_seed(num) as nat).take(padding_size - 1);
    let mut i: usize = encoding_size;
    while i < ENCODING_LENGTH - 1
        invariant
            bytes@ == bs,
            bs == digits@.map(|k: int, c: char| c as u8),
            is_ascii_chars(digits@),
            bs.len() == 23,
            encoding_size <= i <= 22,
            encoding_size == 23 - padding_size,
            1 <= padding_size <= 23,
            is_digit_byte(bs[22]),
            digit_val(bs[22]) == padding_size,
            digits_valid(bs.take(encoding_size as int)),
            0 <= digits_value(bs.take(encoding_size as int)) <= u128::MAX,
            num == digits_value(bs.take(encoding_size as int)) as u128,
            pad@ == padding_spec(num, padding_size as nat),
            pad@.len() == padding_size,
            fill == digits_of_spec(pad_seed(num) as nat).take(padding_size - 1),
            forall|j: int| encoding_size <= j < i ==> bs[j] == fill[j - encoding_size],
        decreases 22 - i,
    {
        proof {
            lemma_pad_seed_digits(num);
            assert(pad@[i - encoding_size] == fill[i - encoding_size]);
        }
        if bytes[i] != pad[i - encoding_size] {
            proof {
                let sub = bs.subrange(encoding_size as int, 22);
                assert(sub[i - encoding_size] == bs[i as int]);
                if sub == fill {
                    assert(sub[i - encoding_size] == fill[i - encoding_size]);
                }
            }
            return None;
        }
        i = i + 1;
    }
    proof {
        lemma_pad_seed_digits(num);
        assert(bs.subrange(encoding_size as int, 22) =~= fill);
    }
    Some(num)
}

/// The codec is a bijection onto its tokens: parsing the rendering of any
/// 128-bit value yields exactly that value, at the byte and at the
/// character level.
pub proof fn lemma_parse_token(n: u128)
    ensures
        parse_bytes(token_bytes(n)) == Some(n),
        parse_spec(token_chars(n)) == Some(n),
{
    lemma_digits_of_spec(n as nat);
    lemma_pow58_bounds();
    lemma_digits_of_spec_len(n as nat, 22);
    lemma_pad_seed_digits(n);
    let ds = digits_of_spec(n as nat);
    let dlen = ds.len() as int;
    let ps = 23 - dlen;
    let pads = digits_of_spec(pad_seed(n) as nat);
    let tb = token_bytes(n);
    assert(tb.len() == 23);
    assert(tb[22] == digit_byte(ps));
    lemma_digit_byte(ps);
    assert(digit_val(tb[22]) == ps);
    assert(tb.take(dlen) =~= ds);
    assert(digits_value(tb.take(dlen)) == n);
    assert(tb.subrange(dlen, 22) =~= pads.take(ps - 1));
    assert(parse_bytes(tb) == Some(n));
    // Character level: every token byte is an alphabet symbol, so the token
    // string is ASCII and its bytes are recovered unchanged.
    let tc = token_chars(n);
    assert(forall|j: int| 0 <= j < 23 ==> is_digit_byte(#[trigger] tb[j])) by {
        assert(forall|j: int| 0 <= j < dlen ==> is_digit_byte(#[trigger] tb[j]));
        assert(forall|j: int|
            dlen <= j < 22 ==> is_digit_byte(#[trigger] tb[j]) && tb[j] == pads.take(ps - 1)[j
                - dlen]);
    }
    assert(forall|j: int| 0 <= j < 23 ==> (#[trigger] tc[j]) == ((tb[j] as u8) as char));
    assert(vstd::utf8::is_ascii_chars(tc)) by {
        assert(forall|j: int|
            0 <= j < tc.len() ==> '\0' <= #[trigger] tc[j] <= '\u{7f}' && (tc[j] as u8) == tb[j])
            by {
            assert(forall|j: int| 0 <= j < 23 ==> tb[j] < 128) by {
                assert(forall|j: int| 0 <= j < 23 ==> is_digit_byte(#[trigger] tb[j]));
            }
        }
    }
    assert(tc.map(|i: int, c: char| c as u8) =~= tb);
}

} // verus!
