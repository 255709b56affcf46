use vstd::prelude::*;
use vstd::string::StringSliceAdditionalSpecFns;
use crate::codec::{
    base64_crate_encode, decode_hex, hex_crate_decode, hex_crate_encode, hex_decoded,
    hex_encoded, is_first_bad_pair, is_hex, unpadded_base64_encoded, DecodeError, DecodeHexError,
};
use crate::error::XorError;
use crate::frequency::MAX_STREAM_LEN;
use crate::keysize::{
    find_likeliest_keysize, is_likeliest_keysize, DEFAULT_MAX_KEYSIZE, DEFAULT_MIN_KEYSIZE,
};
use crate::recover::{break_repeating_xor, recovered_key};
use crate::weights::{break_by_letter_weight, heaviest_key_below};
use crate::xor::{repeating_xor, xor_by_single_byte, xor_with_byte, xor_with_key};

verus! {

/// What was recovered from a ciphertext under a repeating key.
#[derive(Clone, Debug)]
pub struct Recovery {
    /// The length of the key.
    pub keysize: u8,
    /// The key.
    pub key: Vec<u8>,
    /// The ciphertext decrypted with the key.
    pub plaintext: Vec<u8>,
}

/// A single-byte key with the decryption under it.
#[derive(Clone, Debug)]
pub struct Guess {
    /// The key byte.
    pub key: u8,
    /// The ciphertext decrypted with the key byte.
    pub plaintext: Vec<u8>,
}

/// Breaks a repeating-key XOR: estimates the key length among 2 to 40,
/// recovers the key column by column and decrypts the message with it.
///
/// The answer is always a best guess; the one failure is a message of less
/// than eight bytes, for which no key length can be scored.
pub fn break_ciphertext(encoded_message: &[u8]) -> (result: Result<Recovery, XorError>)
    requires
        encoded_message@.len() <= MAX_STREAM_LEN,
    ensures
        encoded_message@.len() < 8 <==> result.is_err(),
        result.is_err() ==> result.unwrap_err() == XorError::NoViableKeysize,
        result.is_ok() ==> {
            let found = result.unwrap();
            &&& is_likeliest_keysize(
                encoded_message@,
                DEFAULT_MIN_KEYSIZE as nat,
                DEFAULT_MAX_KEYSIZE as nat,
                found.keysize as nat,
            )
            &&& found.key@ == recovered_key(encoded_message@, found.keysize as nat)
            &&& found.plaintext@ == xor_with_key(encoded_message@, found.key@)
        },
{
    let keysize: u8 = match find_likeliest_keysize(encoded_message) {
        Ok(keysize) => keysize,
        Err(e) => {
            return Err(e);
        },
    };
    let key: Vec<u8> = break_repeating_xor(encoded_message, &keysize);
    match repeating_xor(encoded_message, key.as_slice()) {
        Ok(plaintext) => Ok(Recovery { keysize, key, plaintext }),
        Err(e) => Err(e),
    }
}

/// Decodes a line of hexadecimal text and breaks its single-byte XOR by
/// letter weights. A line that is not hexadecimal is refused.
pub fn break_hex_by_letter_weight(encrypted_hex: &[u8]) -> (result: Result<Guess, DecodeError>)
    ensures
        is_hex(encrypted_hex@) <==> result.is_ok(),
        result.is_err() ==> result.unwrap_err() == (DecodeError::Hex { line: 0 }),
        result.is_ok() ==> {
            let guess = result.unwrap();
            &&& guess.key == heaviest_key_below(hex_decoded(encrypted_hex@), 256)
            &&& guess.plaintext@ == xor_with_byte(hex_decoded(encrypted_hex@), guess.key)
        },
{
    let encrypted_bytes: Vec<u8> = match hex_crate_decode(encrypted_hex) {
        Some(byte_stream) => byte_stream,
        None => {
            return Err(DecodeError::Hex { line: 0 });
        },
    };
    let key: u8 = break_by_letter_weight(encrypted_bytes.as_slice());
    let plaintext: Vec<u8> = xor_by_single_byte(encrypted_bytes.as_slice(), key);
    Ok(Guess { key, plaintext })
}

/// Encrypts `message` with the repeating `key` and writes the result as
/// lower-case hexadecimal digits. An empty key is refused with `EmptyKey`.
pub fn encrypt_to_hex(message: &[u8], key: &[u8]) -> (result: Result<String, XorError>)
    ensures
        key@.len() == 0 <==> result.is_err(),
        result.is_err() ==> result.unwrap_err() == XorError::EmptyKey,
        result.is_ok() ==> result.unwrap()@ == hex_encoded(xor_with_key(message@, key@)),
{
    match repeating_xor(message, key) {
        Ok(encrypted) => Ok(hex_crate_encode(encrypted.as_slice())),
        Err(e) => Err(e),
    }
}

/// Turns a string of hexadecimal digit pairs into standard base64 without
/// padding. It fails as `decode_hex` does.
pub fn hex_to_base64(hex_string: &str) -> (result: Result<String, DecodeHexError>)
    ensures
        is_hex(hex_string.spec_bytes()) <==> result.is_ok(),
        result.is_ok() ==> result.unwrap()@ == unpadded_base64_encoded(
            hex_decoded(hex_string.spec_bytes()),
        ),
        hex_string.spec_bytes().len() % 2 != 0 ==> result == Err::<String, DecodeHexError>(
            DecodeHexError::OddLength,
        ),
        hex_string.spec_bytes().len() % 2 == 0 && !is_hex(hex_string.spec_bytes()) ==> (match result {
            Err(DecodeHexError::ParseInt { index }) => is_first_bad_pair(
                hex_string.spec_bytes(),
                index as int,
            ),
            _ => false,
        }),
{
    match decode_hex(hex_string) {
        Ok(bytes) => {
            Ok(base64_crate_encode(bytes.as_slice()))
        },
        Err(e) => Err(e),
    }
}

} // verus!
