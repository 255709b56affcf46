use vstd::prelude::*;
use crate::error::XorError;

verus! {

/// The number of one bits of a byte.
pub open spec fn bit_count(b: u8) -> nat {
    ((b & 1) + ((b >> 1) & 1) + ((b >> 2) & 1) + ((b >> 3) & 1) + ((b >> 4) & 1) + ((b >> 5) & 1)
        + ((b >> 6) & 1) + ((b >> 7) & 1)) as nat
}

/// The number of bits in which the first `n` positions of `a` and `b` differ.
pub open spec fn bit_distance_upto(a: Seq<u8>, b: Seq<u8>, n: nat) -> nat
    recommends
        n <= a.len(),
        n <= b.len(),
    decreases n,
{
    if n == 0 {
        0
    } else {
        bit_distance_upto(a, b, (n - 1) as nat) + bit_count(a[n - 1] ^ b[n - 1])
    }
}

/// The Hamming distance of two byte sequences of one length: the number of
/// bit positions in which they differ.
pub open spec fn bit_distance(a: Seq<u8>, b: Seq<u8>) -> nat
    recommends
        a.len() == b.len(),
{
    bit_distance_upto(a, b, a.len())
}

/// The distance over a prefix does not depend on the order of the two
/// sequences.
pub proof fn lemma_bit_distance_upto_symmetric(a: Seq<u8>, b: Seq<u8>, n: nat)
    ensures
        bit_distance_upto(a, b, n) == bit_distance_upto(b, a, n),
    decreases n,
{
    if n > 0 {
        lemma_bit_distance_upto_symmetric(a, b, (n - 1) as nat);
        let x = a[n - 1];
        let y = b[n - 1];
        assert(x ^ y == y ^ x) by (bit_vector);
    }
}

/// Hamming distance is symmetric: for sequences of one length, the distance
/// from `a` to `b` is the distance from `b` to `a`.
pub proof fn lemma_bit_distance_symmetric(a: Seq<u8>, b: Seq<u8>)
    requires
        a.len() == b.len(),
    ensures
        bit_distance(a, b) == bit_distance(b, a),
{
    lemma_bit_distance_upto_symmetric(a, b, a.len());
}

/// A prefix of a sequence has distance zero to itself.
pub proof fn lemma_bit_distance_upto_self(a: Seq<u8>, n: nat)
    ensures
        bit_distance_upto(a, a, n) == 0,
    decreases n,
{
    if n > 0 {
        lemma_bit_distance_upto_self(a, (n - 1) as nat);
        let x = a[n - 1];
        assert(x ^ x == 0) by (bit_vector);
        assert(bit_count(0u8) == 0) by (bit_vector);
    }
}

/// Every sequence has Hamming distance zero to itself.
pub proof fn lemma_bit_distance_self(a: Seq<u8>)
    ensures
        bit_distance(a, a) == 0,
{
    lemma_bit_distance_upto_self(a, a.len());
}

/// Counts the one bits of a byte.
pub fn count_bits(b: u8) -> (n: u8)
    ensures
        n == bit_count(b),
        n <= 8,
{
    assert((b & 1) <= 1 && ((b >> 1) & 1) <= 1 && ((b >> 2) & 1) <= 1 && ((b >> 3) & 1) <= 1 && ((b
        >> 4) & 1) <= 1 && ((b >> 5) & 1) <= 1 && ((b >> 6) & 1) <= 1 && ((b >> 7) & 1) <= 1)
        by (bit_vector);
    (b & 1) + ((b >> 1) & 1) + ((b >> 2) & 1) + ((b >> 3) & 1) + ((b >> 4) & 1) + ((b >> 5) & 1)
        + ((b >> 6) & 1) + ((b >> 7) & 1)
}

/// Counts the bits in which two slices of one length differ.
pub fn count_differing_bits(string1: &[u8], string2: &[u8]) -> (total: u128)
    requires
        string1@.len() == string2@.len(),
    ensures
        total == bit_distance(string1@, string2@),
        total <= 8 * string1@.len(),
{
    let mut total: u128 = 0;
    let mut i: usize = 0;
    while i < string1.len()
        invariant
            string1@.len() == string2@.len(),
            i <= string1@.len(),
            total == bit_distance_upto(string1@, string2@, i as nat),
            total <= 8 * i,
        decreases string1@.len() - i,
    {
        let ones: u8 = count_bits(string1[i] ^ string2[i]);
        total = total + ones as u128;
        i = i + 1;
    }
    total
}

/// The Hamming distance of two byte slices.
///
/// Slices of different lengths are refused with `LengthMismatch`; nothing is
/// truncated or padded.
pub fn hamming_distance(string1: &[u8], string2: &[u8]) -> (result: Result<u128, XorError>)
    ensures
        string1@.len() != string2@.len() ==> result == Err::<u128, XorError>(
            XorError::LengthMismatch,
        ),
        string1@.len() == string2@.len() ==> result == Ok::<u128, XorError>(
            bit_distance(string1@, string2@) as u128,
        ),
{
    if string1.len() != string2.len() {
        return Err(XorError::LengthMismatch);
    }
    Ok(count_differing_bits(string1, string2))
}

} // verus!
