//! The keys that stand for numbers.
//!
//! A key is an `i64` that orders as the number it encodes. The keys that the
//! library itself names are those of IEEE doubles: for a double with bit
//! pattern `b`, the key is `b` where the sign bit is clear, and `b` with all
//! bits but the sign bit flipped where it is set. Keys made this way order
//! as the doubles do, with negative zero just below positive zero.
use vstd::prelude::*;

verus! {

/// The key of zero.
pub const ZERO: i64 = 0;

/// The key of one.
pub const ONE: i64 = 0x3FF0_0000_0000_0000;

/// The bit pattern with only the sign bit set.
pub const SIGN_BIT: u64 = 0x8000_0000_0000_0000;

/// The key of the double with the bit pattern `bits`: the pattern itself
/// where the sign bit is clear; else, with `m` for the pattern without its
/// sign bit, the number `-m - 1`, so that a larger magnitude gives a smaller key.
pub open spec fn spec_key_of_bits(bits: u64) -> int {
    if bits < SIGN_BIT {
        bits as int
    } else {
        -(bits - SIGN_BIT) - 1
    }
}

/// The bit pattern of the double that the key `k` stands for.
pub open spec fn spec_bits_of_key(k: i64) -> int {
    if k >= 0 {
        k as int
    } else {
        -(k + 1) + SIGN_BIT
    }
}

/// The key of the double with the bit pattern `bits`.
pub fn key_of_bits(bits: u64) -> (k: i64)
    ensures
        k == spec_key_of_bits(bits),
{
    if bits < SIGN_BIT {
        bits as i64
    } else {
        let magnitude: u64 = bits - SIGN_BIT;
        -(magnitude as i64) - 1
    }
}

/// The bit pattern of the double that the key `k` stands for.
pub fn bits_of_key(k: i64) -> (bits: u64)
    ensures
        bits == spec_bits_of_key(k),
{
    if k >= 0 {
        k as u64
    } else {
        let magnitude: u64 = (-(k + 1)) as u64;
        magnitude + SIGN_BIT
    }
}

/// Keys and bit patterns stand for each other: the pattern of a pattern's
/// key is the pattern, and the key of a key's pattern is the key.
pub proof fn lemma_key_round_trip(bits: u64, k: i64)
    ensures
        i64::MIN <= spec_key_of_bits(bits) <= i64::MAX,
        0 <= spec_bits_of_key(k) <= u64::MAX,
        spec_bits_of_key(spec_key_of_bits(bits) as i64) == bits,
        spec_key_of_bits(spec_bits_of_key(k) as u64) == k,
{
}

/// Keys order as sign and magnitude do. Of two patterns with a clear sign
/// bit the larger has the larger key; of two with the sign bit set the
/// larger has the smaller key; and every pattern with the sign bit set has
/// a key below that of every pattern with a clear one.
pub proof fn lemma_key_order(a: u64, b: u64)
    ensures
        a < SIGN_BIT && b < SIGN_BIT ==> (spec_key_of_bits(a) < spec_key_of_bits(b) <==> a < b),
        a >= SIGN_BIT && b >= SIGN_BIT ==> (spec_key_of_bits(a) < spec_key_of_bits(b) <==> a > b),
        a >= SIGN_BIT && b < SIGN_BIT ==> spec_key_of_bits(a) < spec_key_of_bits(b),
        spec_key_of_bits(a) == spec_key_of_bits(b) <==> a == b,
{
}

/// The keys that the library names are the keys of zero and of one: the
/// patterns of the doubles 0 and 1 are 0 and 3FF0 0000 0000 0000.
pub proof fn lemma_named_keys()
    ensures
        spec_key_of_bits(0) == ZERO,
        spec_key_of_bits(0x3FF0_0000_0000_0000) == ONE,
        spec_key_of_bits(SIGN_BIT) == -1,
{
}

} // verus!
