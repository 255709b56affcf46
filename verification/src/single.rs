use vstd::prelude::*;
use crate::frequency::{
    calculate_score, closer_fit, lemma_closer_reading_same_length, model_of, score_of, ChiSquared,
    MAX_STREAM_LEN,
};
use crate::xor::{xor_by_single_byte, xor_with_byte};

verus! {

/// The score of `stream` decrypted with the single byte `key`.
pub open spec fn candidate_score(stream: Seq<u8>, key: u8) -> Option<nat> {
    score_of(xor_with_byte(stream, key))
}

/// The best of the keys below `bound`: the lowest-scoring one, and of
/// several with the lowest score the smallest. Zero when there is no key
/// below `bound`.
pub open spec fn best_key_below(stream: Seq<u8>, bound: nat) -> u8
    recommends
        bound <= 256,
    decreases bound,
{
    if bound <= 1 {
        0
    } else {
        let earlier = best_key_below(stream, (bound - 1) as nat);
        let key = (bound - 1) as u8;
        if closer_fit(candidate_score(stream, key), candidate_score(stream, earlier)) {
            key
        } else {
            earlier
        }
    }
}

/// The single-byte key under which `stream` reads most like English.
pub open spec fn best_key(stream: Seq<u8>) -> u8 {
    best_key_below(stream, 256)
}

/// `key` is the answer for `stream`: no key scores strictly better, and
/// every smaller key scores strictly worse.
pub open spec fn is_best_key(stream: Seq<u8>, key: u8) -> bool {
    &&& forall|other: u8|
        !closer_fit(#[trigger] candidate_score(stream, other), candidate_score(stream, key))
    &&& forall|other: u8|
        other < key ==> closer_fit(
            candidate_score(stream, key),
            #[trigger] candidate_score(stream, other),
        )
}

/// Among the keys below `bound`, the chosen one is not beaten by any and
/// beats every smaller one.
pub proof fn lemma_best_key_below(stream: Seq<u8>, bound: nat)
    requires
        1 <= bound <= 256,
    ensures
        best_key_below(stream, bound) < bound,
        forall|other: u8|
            other < bound ==> !closer_fit(
                #[trigger] candidate_score(stream, other),
                candidate_score(stream, best_key_below(stream, bound)),
            ),
        forall|other: u8|
            other < best_key_below(stream, bound) ==> closer_fit(
                candidate_score(stream, best_key_below(stream, bound)),
                #[trigger] candidate_score(stream, other),
            ),
    decreases bound,
{
    if bound > 1 {
        lemma_best_key_below(stream, (bound - 1) as nat);
    }
}

/// The selection minimises the score, and of equal scores takes the smallest
/// key; when no decryption is text it is key zero.
pub proof fn lemma_best_key_is_best(stream: Seq<u8>)
    ensures
        is_best_key(stream, best_key(stream)),
        (forall|key: u8| candidate_score(stream, key).is_none()) ==> best_key(stream) == 0,
{
    lemma_best_key_below(stream, 256);
    if forall|key: u8| candidate_score(stream, key).is_none() {
        if best_key(stream) != 0 {
            assert(closer_fit(
                candidate_score(stream, best_key(stream)),
                candidate_score(stream, 0u8),
            ));
        }
    }
}

/// Only one key is the answer for a stream.
pub proof fn lemma_best_key_unique(stream: Seq<u8>, key: u8)
    requires
        is_best_key(stream, key),
    ensures
        key == best_key(stream),
{
    lemma_best_key_is_best(stream);
}

/// Whether a computed score is a strictly closer fit than another, for the
/// scores of two streams of one length.
pub fn is_closer_fit(a: Option<ChiSquared>, b: Option<ChiSquared>) -> (yes: bool)
    requires
        a.is_some() && b.is_some() ==> a.unwrap().length() == b.unwrap().length(),
    ensures
        yes == closer_fit(model_of(a), model_of(b)),
{
    match (a, b) {
        (Some(x), Some(y)) => {
            proof {
                lemma_closer_reading_same_length(model_of(a), model_of(b), x.length());
            }
            x.is_below(&y)
        },
        (Some(_), None) => true,
        (None, _) => false,
    }
}

/// Finds the byte with which `message_chunk` was most likely XORed.
///
/// Each of the 256 keys is tried; the decryption is scored as English text,
/// and the key with the lowest score wins, the smallest such key if several
/// share it. When no decryption is text, the answer is zero.
pub fn break_single_char_xor(message_chunk: &[u8]) -> (key: u8)
    requires
        message_chunk@.len() <= MAX_STREAM_LEN,
    ensures
        key == best_key(message_chunk@),
        is_best_key(message_chunk@, key),
{
    let ghost stream = message_chunk@;
    let first: Vec<u8> = xor_by_single_byte(message_chunk, 0);
    let mut cipher_key: u8 = 0;
    let mut lowest_score: Option<ChiSquared> = calculate_score(first.as_slice());
    let mut key: u8 = 0;
    while key < 255
        invariant
            stream == message_chunk@,
            stream.len() <= MAX_STREAM_LEN,
            cipher_key == best_key_below(stream, (key + 1) as nat),
            model_of(lowest_score) == candidate_score(stream, cipher_key),
            lowest_score.is_some() ==> lowest_score.unwrap().length() == stream.len(),
        decreases 255 - key,
    {
        key = key + 1;
        let decipher_attempt: Vec<u8> = xor_by_single_byte(message_chunk, key);
        let score: Option<ChiSquared> = calculate_score(decipher_attempt.as_slice());
        if is_closer_fit(score, lowest_score) {
            lowest_score = score;
            cipher_key = key;
        }
    }
    proof {
        lemma_best_key_is_best(stream);
    }
    cipher_key
}

} // verus!
