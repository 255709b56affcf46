use vstd::prelude::*;
use crate::error::XorError;

verus! {

/// Every byte of `stream` combined with the one byte `key`.
pub open spec fn xor_with_byte(stream: Seq<u8>, key: u8) -> Seq<u8> {
    Seq::new(stream.len(), |i: int| stream[i] ^ key)
}

/// Each byte of `message` combined with the key byte at its position modulo
/// the key's length.
pub open spec fn xor_with_key(message: Seq<u8>, key: Seq<u8>) -> Seq<u8>
    recommends
        key.len() > 0,
{
    Seq::new(message.len(), |i: int| message[i] ^ key[i % (key.len() as int)])
}

/// Combining with a single byte twice gives the stream back.
pub proof fn lemma_xor_with_byte_involutive(stream: Seq<u8>, key: u8)
    ensures
        xor_with_byte(xor_with_byte(stream, key), key) == stream,
{
    assert forall|i: int| 0 <= i < stream.len() implies #[trigger] xor_with_byte(
        xor_with_byte(stream, key),
        key,
    )[i] == stream[i] by {
        let x = stream[i];
        assert((x ^ key) ^ key == x) by (bit_vector);
    }
}

/// Repeating-key XOR is its own inverse: applying it twice with the same
/// non-empty key gives the message back.
pub proof fn lemma_xor_with_key_involutive(message: Seq<u8>, key: Seq<u8>)
    requires
        key.len() > 0,
    ensures
        xor_with_key(xor_with_key(message, key), key) == message,
{
    assert forall|i: int| 0 <= i < message.len() implies #[trigger] xor_with_key(
        xor_with_key(message, key),
        key,
    )[i] == message[i] by {
        let x = message[i];
        let k = key[i % (key.len() as int)];
        assert((x ^ k) ^ k == x) by (bit_vector);
    }
}

/// A key of one byte acts as that byte on every position.
pub proof fn lemma_xor_with_one_byte_key(message: Seq<u8>, key: u8)
    ensures
        xor_with_key(message, seq![key]) == xor_with_byte(message, key),
{
    assert forall|i: int| 0 <= i < message.len() implies #[trigger] xor_with_key(
        message,
        seq![key],
    )[i] == xor_with_byte(message, key)[i] by {}
}

/// XORs every byte of `stream` with `byte`.
pub fn xor_by_single_byte(stream: &[u8], byte: u8) -> (out: Vec<u8>)
    ensures
        out@ == xor_with_byte(stream@, byte),
{
    let mut out: Vec<u8> = Vec::new();
    let mut i: usize = 0;
    while i < stream.len()
        invariant
            i <= stream@.len(),
            out@.len() == i,
            forall|j: int| 0 <= j < i ==> out@[j] == stream@[j] ^ byte,
        decreases stream@.len() - i,
    {
        out.push(stream[i] ^ byte);
        i = i + 1;
    }
    out
}

/// Encrypts or decrypts `message` by XOR with `key`, repeated as often as the
/// message needs. An empty key is refused with `EmptyKey`.
pub fn repeating_xor(message: &[u8], key: &[u8]) -> (result: Result<Vec<u8>, XorError>)
    ensures
        key@.len() == 0 ==> result == Err::<Vec<u8>, XorError>(XorError::EmptyKey),
        key@.len() > 0 ==> result.is_ok() && result.unwrap()@ == xor_with_key(message@, key@),
{
    if key.len() == 0 {
        return Err(XorError::EmptyKey);
    }
    let mut out: Vec<u8> = Vec::new();
    let mut i: usize = 0;
    let mut k: usize = 0;
    while i < message.len()
        invariant
            key@.len() > 0,
            i <= message@.len(),
            k < key@.len(),
            k == (i as int) % (key@.len() as int),
            out@.len() == i,
            forall|j: int|
                0 <= j < i ==> out@[j] == message@[j] ^ key@[j % (key@.len() as int)],
        decreases message@.len() - i,
    {
        out.push(message[i] ^ key[k]);
        proof {
            lemma_next_residue(i as int, key@.len() as int);
        }
        i = i + 1;
        k = if k + 1 == key.len() {
            0
        } else {
            k + 1
        };
    }
    Ok(out)
}

/// The residue of `i + 1` is the residue of `i` plus one, wrapped at `n`.
proof fn lemma_next_residue(i: int, n: int)
    requires
        0 <= i,
        0 < n,
    ensures
        (i + 1) % n == (if i % n + 1 == n {
            0
        } else {
            i % n + 1
        }),
{
    vstd::arithmetic::div_mod::lemma_fundamental_div_mod(i, n);
    vstd::arithmetic::div_mod::lemma_fundamental_div_mod(i + 1, n);
    vstd::arithmetic::div_mod::lemma_mod_bound(i, n);
    vstd::arithmetic::div_mod::lemma_mod_bound(i + 1, n);
    let q = i / n;
    let r = i % n;
    assert(q * n == n * q && (q + 1) * n == n * q + n) by (nonlinear_arith);
    if r + 1 == n {
        vstd::arithmetic::div_mod::lemma_fundamental_div_mod_converse(i + 1, n, q + 1, 0);
    } else {
        vstd::arithmetic::div_mod::lemma_fundamental_div_mod_converse(i + 1, n, q, r + 1);
    }
}

} // verus!
