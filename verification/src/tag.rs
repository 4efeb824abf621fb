//! Tag derivation: a short ASCII name packed into a 64-bit constant.

use vstd::prelude::*;
use vstd::utf8::is_ascii_chars;

verus! {

/// The tag value of a character sequence: byte `i` occupies bits
/// `[8 * i, 8 * i + 8)`, i.e. the bytes are packed little-endian; unused high
/// bytes are zero, and the empty sequence yields zero.
pub open spec fn tag_value(s: Seq<char>) -> int
    decreases s.len(),
{
    if s.len() == 0 {
        0
    } else {
        (s[0] as u8) + 256 * tag_value(s.skip(1))
    }
}

/// 256 to the power `k`.
spec fn pow256(k: nat) -> int
    decreases k,
{
    if k == 0 {
        1
    } else {
        256 * pow256((k - 1) as nat)
    }
}

proof fn lemma_pow256_le(j: nat, k: nat)
    requires
        j <= k,
    ensures
        1 <= pow256(j) <= pow256(k),
    decreases k,
{
    if k > 0 {
        if j < k {
            lemma_pow256_le(j, (k - 1) as nat);
        } else {
            lemma_pow256_le((k - 1) as nat, (k - 1) as nat);
        }
    }
}

proof fn lemma_tag_value_bound(s: Seq<char>)
    ensures
        0 <= tag_value(s) < pow256(s.len()),
    decreases s.len(),
{
    if s.len() != 0 {
        lemma_tag_value_bound(s.skip(1));
    }
}

/// Derives the 64-bit tag of an entity kind from its name: an ASCII string
/// of at most 8 bytes, packed little-endian. Longer or non-ASCII names are a
/// definition-time error and are excluded here rather than handled.
pub fn tag(s: &str) -> (r: u64)
    requires
        s@.len() <= 8,
        is_ascii_chars(s@),
    ensures
        r == tag_value(s@),
{
    proof {
        vstd::string::is_ascii_spec_bytes(s);
    }
    let bytes = s.as_bytes();
    let mut acc: u64 = 0;
    let mut i: usize = bytes.len();
    proof {
        lemma_tag_value_bound(s@.skip(i as int));
    }
    while i > 0
        invariant
            i <= bytes@.len() == s@.len() <= 8,
            forall|j: int| 0 <= j < s@.len() ==> bytes@[j] == s@[j] as u8,
            acc == tag_value(s@.skip(i as int)),
        decreases i,
    {
        i = i - 1;
        proof {
            lemma_tag_value_bound(s@.skip(i as int));
            lemma_pow256_le(s@.skip(i as int).len(), 8);
            assert(pow256(8) == 0x1_0000_0000_0000_0000) by {
                reveal_with_fuel(pow256, 9);
            }
            assert(s@.skip(i as int)[0] == s@[i as int]);
            assert(s@.skip(i as int).skip(1) =~= s@.skip(i + 1));
        }
        acc = acc * 256 + bytes[i] as u64;
    }
    proof {
        assert(s@.skip(0) =~= s@);
    }
    acc
}

} // verus!
