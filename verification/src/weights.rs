use vstd::prelude::*;
use crate::xor::{xor_by_single_byte, xor_with_byte};

verus! {

/// The largest weight of a letter.
pub const MAX_LETTER_WEIGHT: u32 = 111607;

/// How common a lower-case letter is among the words of a dictionary, in
/// ten-thousandths of a per cent (Concise Oxford Dictionary, 9th edition).
/// Every other byte, upper-case letters among them, weighs nothing.
pub open spec fn letter_weight(byte: u8) -> nat {
    match byte {
        0x61u8 => 84966,
        0x62u8 => 20720,
        0x63u8 => 45388,
        0x64u8 => 33844,
        0x65u8 => 111607,
        0x66u8 => 18121,
        0x67u8 => 24705,
        0x68u8 => 30034,
        0x69u8 => 75448,
        0x6Au8 => 1965,
        0x6Bu8 => 11016,
        0x6Cu8 => 54893,
        0x6Du8 => 30129,
        0x6Eu8 => 66544,
        0x6Fu8 => 71635,
        0x70u8 => 31671,
        0x71u8 => 1962,
        0x72u8 => 75809,
        0x73u8 => 57351,
        0x74u8 => 69509,
        0x75u8 => 36308,
        0x76u8 => 10074,
        0x77u8 => 12899,
        0x78u8 => 2902,
        0x79u8 => 17779,
        0x7Au8 => 2722,
        _ => 0,
    }
}

/// The sum of the weights of the first `upto` bytes.
pub open spec fn stream_weight_upto(stream: Seq<u8>, upto: nat) -> nat
    decreases upto,
{
    if upto == 0 {
        0
    } else {
        stream_weight_upto(stream, (upto - 1) as nat) + letter_weight(stream[upto - 1])
    }
}

/// The sum of the weights of all bytes of a stream.
pub open spec fn stream_weight(stream: Seq<u8>) -> nat {
    stream_weight_upto(stream, stream.len())
}

/// The weight of `stream` decrypted with the single byte `key`.
pub open spec fn candidate_weight(stream: Seq<u8>, key: u8) -> nat {
    stream_weight(xor_with_byte(stream, key))
}

/// The heaviest of the keys below `bound`, the smallest of them if several
/// weigh the same. Zero when there is no key below `bound`.
pub open spec fn heaviest_key_below(stream: Seq<u8>, bound: nat) -> u8
    recommends
        bound <= 256,
    decreases bound,
{
    if bound <= 1 {
        0
    } else {
        let earlier = heaviest_key_below(stream, (bound - 1) as nat);
        let key = (bound - 1) as u8;
        if candidate_weight(stream, key) > candidate_weight(stream, earlier) {
            key
        } else {
            earlier
        }
    }
}

/// `key` is the answer for `stream`: no key weighs more, and every smaller
/// key weighs less.
pub open spec fn is_heaviest_key(stream: Seq<u8>, key: u8) -> bool {
    &&& forall|other: u8| #[trigger] candidate_weight(stream, other) <= candidate_weight(stream, key)
    &&& forall|other: u8|
        other < key ==> #[trigger] candidate_weight(stream, other) < candidate_weight(stream, key)
}

/// Among the keys below `bound`, the chosen one weighs at least as much as
/// any and more than every smaller one.
pub proof fn lemma_heaviest_key_below(stream: Seq<u8>, bound: nat)
    requires
        1 <= bound <= 256,
    ensures
        heaviest_key_below(stream, bound) < bound,
        forall|other: u8|
            other < bound ==> #[trigger] candidate_weight(stream, other) <= candidate_weight(
                stream,
                heaviest_key_below(stream, bound),
            ),
        forall|other: u8|
            other < heaviest_key_below(stream, bound) ==> #[trigger] candidate_weight(stream, other)
                < candidate_weight(stream, heaviest_key_below(stream, bound)),
    decreases bound,
{
    if bound > 1 {
        lemma_heaviest_key_below(stream, (bound - 1) as nat);
    }
}

/// The weight of one byte.
pub fn score_byte(byte: u8) -> (weight: u32)
    ensures
        weight == letter_weight(byte),
        weight <= MAX_LETTER_WEIGHT,
{
    match byte {
        0x61u8 => 84966,
        0x62u8 => 20720,
        0x63u8 => 45388,
        0x64u8 => 33844,
        0x65u8 => 111607,
        0x66u8 => 18121,
        0x67u8 => 24705,
        0x68u8 => 30034,
        0x69u8 => 75448,
        0x6Au8 => 1965,
        0x6Bu8 => 11016,
        0x6Cu8 => 54893,
        0x6Du8 => 30129,
        0x6Eu8 => 66544,
        0x6Fu8 => 71635,
        0x70u8 => 31671,
        0x71u8 => 1962,
        0x72u8 => 75809,
        0x73u8 => 57351,
        0x74u8 => 69509,
        0x75u8 => 36308,
        0x76u8 => 10074,
        0x77u8 => 12899,
        0x78u8 => 2902,
        0x79u8 => 17779,
        0x7Au8 => 2722,
        _ => 0,
    }
}

/// The sum of the weights of the bytes of `stream`.
pub fn score_stream(stream: &[u8]) -> (total: u128)
    ensures
        total == stream_weight(stream@),
{
    let mut total: u128 = 0;
    let mut i: usize = 0;
    while i < stream.len()
        invariant
            i <= stream@.len(),
            total == stream_weight_upto(stream@, i as nat),
            total <= i * MAX_LETTER_WEIGHT,
        decreases stream@.len() - i,
    {
        proof {
            assert((i + 1) * MAX_LETTER_WEIGHT == i * MAX_LETTER_WEIGHT + MAX_LETTER_WEIGHT
                && i * MAX_LETTER_WEIGHT <= 0xFFFF_FFFF_FFFF_FFFF * MAX_LETTER_WEIGHT)
                by (nonlinear_arith)
                requires
                    0 <= i <= 0xFFFF_FFFF_FFFF_FFFF,
            ;
        }
        total = total + score_byte(stream[i]) as u128;
        i = i + 1;
    }
    total
}

/// Finds the single-byte key by letter weights alone: the key whose
/// decryption weighs most, the smallest such key if several weigh the same.
///
/// This rewards common letters and punishes nothing, so it is fooled more
/// easily than `break_single_char_xor`, which is the one to prefer.
pub fn break_by_letter_weight(stream: &[u8]) -> (key: u8)
    ensures
        key == heaviest_key_below(stream@, 256),
        is_heaviest_key(stream@, key),
{
    let first: Vec<u8> = xor_by_single_byte(stream, 0);
    let mut cipher_key: u8 = 0;
    let mut highest_score: u128 = score_stream(first.as_slice());
    let mut key: u8 = 0;
    while key < 255
        invariant
            cipher_key == heaviest_key_below(stream@, (key + 1) as nat),
            highest_score == candidate_weight(stream@, cipher_key),
        decreases 255 - key,
    {
        key = key + 1;
        let decipher_attempt: Vec<u8> = xor_by_single_byte(stream, key);
        let total_score: u128 = score_stream(decipher_attempt.as_slice());
        if total_score > highest_score {
            cipher_key = key;
            highest_score = total_score;
        }
    }
    proof {
        lemma_heaviest_key_below(stream@, 256);
    }
    cipher_key
}

} // verus!
