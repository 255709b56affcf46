use vstd::prelude::*;
use vstd::arithmetic::div_mod::{lemma_fundamental_div_mod, lemma_mod_bound};
use crate::frequency::MAX_STREAM_LEN;
use crate::single::{best_key, break_single_char_xor};
use crate::transpose::{column, column_len, lemma_column_positions, transpose};
use crate::xor::{xor_with_byte, xor_with_key};

verus! {

/// The key of length `keysize` recovered from `message`: at each position
/// the best single-byte key of that position's column.
pub open spec fn recovered_key(message: Seq<u8>, keysize: nat) -> Seq<u8> {
    Seq::new(keysize, |index: int| best_key(column(message, keysize, index as nat)))
}

/// A column is never longer than the message it is taken from.
pub proof fn lemma_column_len_bound(length: nat, keysize: nat, index: nat)
    ensures
        column_len(length, keysize, index) <= length,
{
    if keysize > 0 && index < length {
        let rest = length - 1 - index;
        let k = keysize as int;
        lemma_fundamental_div_mod(rest, k);
        lemma_mod_bound(rest, k);
        assert(rest / k <= rest) by (nonlinear_arith)
            requires
                rest == k * (rest / k) + rest % k,
                0 <= rest % k,
                1 <= k,
                0 <= rest,
        ;
    }
}

/// Under a repeating key, every byte of a column was combined with the same
/// key byte: column `index` of the ciphertext is column `index` of the
/// plaintext combined with `key[index]`.
pub proof fn lemma_column_of_ciphertext(plaintext: Seq<u8>, key: Seq<u8>, index: nat)
    requires
        index < key.len(),
    ensures
        column(xor_with_key(plaintext, key), key.len(), index) == xor_with_byte(
            column(plaintext, key.len(), index),
            key[index as int],
        ),
{
    let keysize = key.len();
    let ciphertext = xor_with_key(plaintext, key);
    let left = column(ciphertext, keysize, index);
    let right = xor_with_byte(column(plaintext, keysize, index), key[index as int]);
    assert forall|row: int| 0 <= row < left.len() implies left[row] == right[row] by {
        lemma_column_positions(plaintext.len(), keysize, index, row as nat);
    }
}

/// Recovers the repeating key of length `keysize` from `encoded_message`.
///
/// The message is split into one column per key position, and each key byte
/// is the best single-byte key of its column.
pub fn break_repeating_xor(encoded_message: &[u8], keysize: &u8) -> (encryption_key: Vec<u8>)
    requires
        encoded_message@.len() <= MAX_STREAM_LEN,
    ensures
        encryption_key@ == recovered_key(encoded_message@, *keysize as nat),
{
    let chunked_message: Vec<Vec<u8>> = transpose(encoded_message, keysize);
    let mut encryption_key: Vec<u8> = Vec::new();
    let mut i: usize = 0;
    while i < chunked_message.len()
        invariant
            i <= chunked_message@.len(),
            chunked_message@.len() == *keysize,
            encoded_message@.len() <= MAX_STREAM_LEN,
            forall|index: int|
                0 <= index < *keysize ==> (#[trigger] chunked_message@[index])@ == column(
                    encoded_message@,
                    *keysize as nat,
                    index as nat,
                ),
            encryption_key@.len() == i,
            forall|index: int|
                0 <= index < i ==> encryption_key@[index] == best_key(
                    column(encoded_message@, *keysize as nat, index as nat),
                ),
        decreases chunked_message@.len() - i,
    {
        proof {
            lemma_column_len_bound(encoded_message@.len(), *keysize as nat, i as nat);
            assert(chunked_message@[i as int]@ == column(
                encoded_message@,
                *keysize as nat,
                i as nat,
            ));
        }
        let key: u8 = break_single_char_xor(chunked_message[i].as_slice());
        encryption_key.push(key);
        i = i + 1;
    }
    encryption_key
}

} // verus!
