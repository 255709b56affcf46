use vstd::prelude::*;
use vstd::slice::slice_subrange;
use crate::bits::{bit_distance, count_differing_bits};
use crate::error::XorError;
use crate::ratio::{fraction_below, lemma_fraction_below_chain};

verus! {

/// The smallest key length tried by default.
pub const DEFAULT_MIN_KEYSIZE: u8 = 2;

/// The largest key length tried by default.
pub const DEFAULT_MAX_KEYSIZE: u8 = 40;

/// The number of leading blocks that are compared with each other.
pub const BLOCKS_COMPARED: usize = 4;

/// Block `index` of `message` for key length `keysize`: `keysize`
/// consecutive bytes, the blocks following each other without overlap.
pub open spec fn block(message: Seq<u8>, keysize: nat, index: nat) -> Seq<u8> {
    message.subrange((index * keysize) as int, ((index + 1) * keysize) as int)
}

/// A key length can be scored when it is positive and the message holds four
/// whole blocks of that length.
pub open spec fn viable_keysize(message: Seq<u8>, keysize: nat) -> bool {
    1 <= keysize && BLOCKS_COMPARED * keysize <= message.len()
}

/// The sum of the bit distances of the six pairs among the first four
/// blocks.
pub open spec fn block_distances(message: Seq<u8>, keysize: nat) -> nat {
    bit_distance(block(message, keysize, 0), block(message, keysize, 1)) + bit_distance(
        block(message, keysize, 0),
        block(message, keysize, 2),
    ) + bit_distance(block(message, keysize, 0), block(message, keysize, 3)) + bit_distance(
        block(message, keysize, 1),
        block(message, keysize, 2),
    ) + bit_distance(block(message, keysize, 1), block(message, keysize, 3)) + bit_distance(
        block(message, keysize, 2),
        block(message, keysize, 3),
    )
}

/// Whether key length `a` has a strictly lower normalized distance than key
/// length `b`. The normalized distance of a key length is the average of
/// its six distances divided by the key length, `distances / (6 * keysize)`;
/// two of them compare as `distances / keysize` does.
pub open spec fn closer_blocks(message: Seq<u8>, a: nat, b: nat) -> bool {
    fraction_below(block_distances(message, a), a, block_distances(message, b), b)
}

/// `keysize` is the answer for the range `low..=high`: it lies in the range
/// and can be scored, no key length of the range that can be scored has a
/// lower normalized distance, and every smaller one has a higher.
pub open spec fn is_likeliest_keysize(message: Seq<u8>, low: nat, high: nat, keysize: nat) -> bool {
    &&& low <= keysize <= high
    &&& viable_keysize(message, keysize)
    &&& forall|other: nat|
        low <= other <= high && viable_keysize(message, other) ==> !#[trigger] closer_blocks(
            message,
            other,
            keysize,
        )
    &&& forall|other: nat|
        low <= other < keysize && viable_keysize(message, other) ==> #[trigger] closer_blocks(
            message,
            keysize,
            other,
        )
}

/// No key length of the range `low..=high` can be scored.
pub open spec fn no_viable_keysize(message: Seq<u8>, low: nat, high: nat) -> bool {
    forall|keysize: nat| low <= keysize <= high ==> !#[trigger] viable_keysize(message, keysize)
}

/// Only one key length is the answer for a range.
pub proof fn lemma_likeliest_keysize_unique(
    message: Seq<u8>,
    low: nat,
    high: nat,
    first: nat,
    second: nat,
)
    requires
        is_likeliest_keysize(message, low, high, first),
        is_likeliest_keysize(message, low, high, second),
    ensures
        first == second,
{
    if first < second {
        assert(closer_blocks(message, second, first));
    } else if second < first {
        assert(closer_blocks(message, first, second));
    }
}

/// A key length with the sum of the bit distances measured for it.
#[derive(Clone, Copy, Debug, PartialEq, Eq, Structural)]
pub struct KeysizeScore {
    /// The key length, at least one.
    pub keysize: u8,
    /// The sum of the six pairwise bit distances of the first four blocks.
    pub distances: u32,
}

impl KeysizeScore {
    /// Whether this key length has a strictly lower normalized distance than
    /// `other`.
    pub fn fits_better(&self, other: &KeysizeScore) -> (yes: bool)
        ensures
            yes == fraction_below(
                self.distances as nat,
                self.keysize as nat,
                other.distances as nat,
                other.keysize as nat,
            ),
    {
        proof {
            assert(self.distances * other.keysize <= 0xFFFF_FFFF * 0xFF) by (nonlinear_arith)
                requires
                    self.distances <= 0xFFFF_FFFF,
                    other.keysize <= 0xFF,
            ;
            assert(other.distances * self.keysize <= 0xFFFF_FFFF * 0xFF) by (nonlinear_arith)
                requires
                    other.distances <= 0xFFFF_FFFF,
                    self.keysize <= 0xFF,
            ;
        }
        let left: u64 = (self.distances as u64) * (other.keysize as u64);
        let right: u64 = (other.distances as u64) * (self.keysize as u64);
        left < right
    }
}

/// The bit distance between two blocks of `message`.
fn block_distance(message: &[u8], keysize: usize, first: usize, second: usize) -> (distance: u32)
    requires
        1 <= keysize <= 255,
        first < BLOCKS_COMPARED,
        second < BLOCKS_COMPARED,
        BLOCKS_COMPARED * keysize <= message@.len(),
    ensures
        distance == bit_distance(
            block(message@, keysize as nat, first as nat),
            block(message@, keysize as nat, second as nat),
        ),
        distance <= 8 * keysize,
{
    proof {
        assert((first + 1) * keysize <= 4 * keysize && (second + 1) * keysize <= 4 * keysize
            && first * keysize + keysize == (first + 1) * keysize && second * keysize + keysize
            == (second + 1) * keysize) by (nonlinear_arith)
            requires
                first < 4,
                second < 4,
                1 <= keysize,
        ;
    }
    let a: &[u8] = slice_subrange(message, first * keysize, first * keysize + keysize);
    let b: &[u8] = slice_subrange(message, second * keysize, second * keysize + keysize);
    let total: u128 = count_differing_bits(a, b);
    total as u32
}

/// Measures `keysize` on `encoded_message`: the bit distances of the six
/// pairs among the first four blocks, summed. A key length of zero, or one
/// of which the message does not hold four blocks, is refused with
/// `KeysizeRangeInvalid`.
pub fn score_keysize(encoded_message: &[u8], keysize: u8) -> (score: Result<KeysizeScore, XorError>)
    ensures
        score.is_ok() <==> viable_keysize(encoded_message@, keysize as nat),
        score.is_err() ==> score.unwrap_err() == XorError::KeysizeRangeInvalid,
        score.is_ok() ==> score.unwrap().keysize == keysize && score.unwrap().distances
            == block_distances(encoded_message@, keysize as nat),
{
    let size: usize = keysize as usize;
    if size == 0 || encoded_message.len() / BLOCKS_COMPARED < size {
        return Err(XorError::KeysizeRangeInvalid);
    }
    let d01: u32 = block_distance(encoded_message, size, 0, 1);
    let d02: u32 = block_distance(encoded_message, size, 0, 2);
    let d03: u32 = block_distance(encoded_message, size, 0, 3);
    let d12: u32 = block_distance(encoded_message, size, 1, 2);
    let d13: u32 = block_distance(encoded_message, size, 1, 3);
    let d23: u32 = block_distance(encoded_message, size, 2, 3);
    Ok(KeysizeScore { keysize, distances: d01 + d02 + d03 + d12 + d13 + d23 })
}

/// Picks the most probable key length among `key_min..=key_max`.
///
/// Every key length of the range for which the message holds four whole
/// blocks is measured; the others are skipped. The answer is the one with the
/// lowest normalized distance, the smallest of them if several share it. When
/// every key length was skipped the answer is `NoViableKeysize`.
pub fn find_keysize_in_range(encoded_message: &[u8], key_min: u8, key_max: u8) -> (result: Result<
    u8,
    XorError,
>)
    ensures
        no_viable_keysize(encoded_message@, key_min as nat, key_max as nat) ==> result == Err::<
            u8,
            XorError,
        >(XorError::NoViableKeysize),
        !no_viable_keysize(encoded_message@, key_min as nat, key_max as nat) ==> result.is_ok()
            && is_likeliest_keysize(
            encoded_message@,
            key_min as nat,
            key_max as nat,
            result.unwrap() as nat,
        ),
{
    let ghost message = encoded_message@;
    let mut best: Option<KeysizeScore> = None;
    let mut next: u16 = key_min as u16;
    while next <= key_max as u16
        invariant
            message == encoded_message@,
            key_min <= next,
            next <= key_max + 1 || next == key_min,
            best.is_none() ==> forall|keysize: nat|
                key_min <= keysize < next ==> !#[trigger] viable_keysize(message, keysize),
            best.is_some() ==> key_min < next && is_likeliest_keysize(
                message,
                key_min as nat,
                (next - 1) as nat,
                best.unwrap().keysize as nat,
            ) && best.unwrap().distances == block_distances(message, best.unwrap().keysize as nat),
        decreases key_max + 1 - next,
    {
        let keysize: u8 = next as u8;
        match score_keysize(encoded_message, keysize) {
            Ok(score) => {
                match best {
                    Some(held) => {
                        if score.fits_better(&held) {
                            proof {
                                lemma_new_likeliest(
                                    message,
                                    key_min as nat,
                                    keysize as nat,
                                    held.keysize as nat,
                                );
                            }
                            best = Some(score);
                        } else {
                            proof {
                                lemma_kept_likeliest(
                                    message,
                                    key_min as nat,
                                    keysize as nat,
                                    held.keysize as nat,
                                );
                            }
                        }
                    },
                    None => {
                        best = Some(score);
                    },
                }
            },
            Err(_) => {
                proof {
                    if best.is_some() {
                        lemma_skipped_keysize(
                            message,
                            key_min as nat,
                            keysize as nat,
                            best.unwrap().keysize as nat,
                        );
                    }
                }
            },
        }
        next = next + 1;
    }
    match best {
        Some(score) => Ok(score.keysize),
        None => Err(XorError::NoViableKeysize),
    }
}

/// A key length that beats the answer for `low..keysize` is the answer for
/// `low..=keysize`.
proof fn lemma_new_likeliest(message: Seq<u8>, low: nat, keysize: nat, held: nat)
    requires
        low < keysize,
        viable_keysize(message, keysize),
        is_likeliest_keysize(message, low, (keysize - 1) as nat, held),
        closer_blocks(message, keysize, held),
    ensures
        is_likeliest_keysize(message, low, keysize, keysize),
{
    assert forall|other: nat|
        low <= other <= keysize && viable_keysize(message, other) implies !#[trigger] closer_blocks(
        message,
        other,
        keysize,
    ) by {
        if other < keysize {
            assert(!closer_blocks(message, other, held));
            lemma_fraction_below_chain(
                block_distances(message, keysize),
                keysize,
                block_distances(message, held),
                held,
                block_distances(message, other),
                other,
            );
            assert(block_distances(message, keysize) * other <= block_distances(message, other)
                * keysize);
        }
    }
    assert forall|other: nat|
        low <= other < keysize && viable_keysize(message, other) implies #[trigger] closer_blocks(
        message,
        keysize,
        other,
    ) by {
        assert(!closer_blocks(message, other, held));
        lemma_fraction_below_chain(
            block_distances(message, keysize),
            keysize,
            block_distances(message, held),
            held,
            block_distances(message, other),
            other,
        );
    }
}

/// A key length that does not beat the answer for `low..keysize` leaves it
/// the answer for `low..=keysize`.
proof fn lemma_kept_likeliest(message: Seq<u8>, low: nat, keysize: nat, held: nat)
    requires
        low < keysize,
        viable_keysize(message, keysize),
        is_likeliest_keysize(message, low, (keysize - 1) as nat, held),
        !closer_blocks(message, keysize, held),
    ensures
        is_likeliest_keysize(message, low, keysize, held),
{
}

/// A key length that cannot be scored changes nothing.
proof fn lemma_skipped_keysize(message: Seq<u8>, low: nat, keysize: nat, held: nat)
    requires
        low < keysize,
        !viable_keysize(message, keysize),
        is_likeliest_keysize(message, low, (keysize - 1) as nat, held),
    ensures
        is_likeliest_keysize(message, low, keysize, held),
{
}

/// Picks the most probable key length among 2 to 40.
pub fn find_likeliest_keysize(encoded_message: &[u8]) -> (result: Result<u8, XorError>)
    ensures
        encoded_message@.len() < 8 ==> result == Err::<u8, XorError>(XorError::NoViableKeysize),
        encoded_message@.len() >= 8 ==> result.is_ok() && is_likeliest_keysize(
            encoded_message@,
            DEFAULT_MIN_KEYSIZE as nat,
            DEFAULT_MAX_KEYSIZE as nat,
            result.unwrap() as nat,
        ),
{
    proof {
        if encoded_message@.len() >= 8 {
            assert(viable_keysize(encoded_message@, 2));
        }
    }
    find_keysize_in_range(encoded_message, DEFAULT_MIN_KEYSIZE, DEFAULT_MAX_KEYSIZE)
}

} // verus!
