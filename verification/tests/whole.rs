use xorbreak::codec::{DecodeError, DecodeHexError};
use xorbreak::error::XorError;
use xorbreak::pipeline::{
    break_ciphertext, break_hex_by_letter_weight, encrypt_to_hex, hex_to_base64,
};
use xorbreak::xor::repeating_xor;

const ISHMAEL: &[u8] = b"Call me Ishmael. Some years ago, never mind how long precisely, having little or no money in my purse, and nothing particular to interest me on shore, I thought I would sail about a little and see the watery part of the world. It is a way I have of driving off the spleen and regulating the circulation.";

#[test]
fn break_ciphertext_recovers_key_and_text() {
    for key in [&b"ICE"[..], &b"Key"[..], &b"lime"[..], &b"RUST"[..]] {
        let ciphertext = repeating_xor(ISHMAEL, key).unwrap();
        let found = break_ciphertext(&ciphertext).unwrap();
        assert_eq!(usize::from(found.keysize), key.len());
        assert_eq!(found.key, key.to_vec());
        assert_eq!(found.plaintext, ISHMAEL.to_vec());
    }
}

#[test]
fn break_ciphertext_always_guesses() {
    let found = break_ciphertext(&[0x80, 0x01, 0xFF, 0x7F, 0x80, 0x01, 0xFF, 0x7F]).unwrap();
    assert_eq!(found.keysize, 2);
    assert_eq!(found.key.len(), 2);
    assert_eq!(
        repeating_xor(&found.plaintext, &found.key),
        Ok(vec![0x80, 0x01, 0xFF, 0x7F, 0x80, 0x01, 0xFF, 0x7F])
    );
}

#[test]
fn break_ciphertext_needs_eight_bytes() {
    assert_eq!(break_ciphertext(b"").err(), Some(XorError::NoViableKeysize));
    assert_eq!(break_ciphertext(b"1234567").err(), Some(XorError::NoViableKeysize));
    assert!(break_ciphertext(b"12345678").is_ok());
}

#[test]
fn break_hex_by_letter_weight_reference_vector() {
    let guess = break_hex_by_letter_weight(
        b"1b37373331363f78151b7f2b783431333d78397828372d363c78373e783a393b3736",
    )
    .unwrap();
    assert_eq!(guess.key, b'X');
    assert_eq!(guess.plaintext, b"Cooking MC's like a pound of bacon".to_vec());
}

#[test]
fn break_hex_by_letter_weight_refuses_what_is_not_hex() {
    assert_eq!(break_hex_by_letter_weight(b"1b3").err(), Some(DecodeError::Hex { line: 0 }));
    assert_eq!(break_hex_by_letter_weight(b"1g").err(), Some(DecodeError::Hex { line: 0 }));
}

#[test]
fn encrypt_to_hex_reference_vector() {
    let message = b"Burning 'em, if you ain't quick and nimble\nI go crazy when I hear a cymbal";
    assert_eq!(
        encrypt_to_hex(message, b"ICE"),
        Ok(String::from(
            "0b3637272a2b2e63622c2e69692a23693a2a3c6324202d623d63343c\
             2a26226324272765272a282b2f20430a652e2c652a3124333a653e2b\
             2027630c692b20283165286326302e27282f"
        ))
    );
}

#[test]
fn encrypt_to_hex_writes_two_digits_for_each_byte() {
    assert_eq!(encrypt_to_hex(&[0x00, 0x0F, 0xF0, 0xAB], &[0x00]), Ok(String::from("000ff0ab")));
    assert_eq!(encrypt_to_hex(b"", b"key"), Ok(String::new()));
}

#[test]
fn encrypt_to_hex_refuses_an_empty_key() {
    assert_eq!(encrypt_to_hex(b"message", b""), Err(XorError::EmptyKey));
}

#[test]
fn hex_to_base64_of_the_mushroom() {
    assert_eq!(
        hex_to_base64(
            "49276d206b696c6c696e6720796f757220627261696e206c696b65206120706f69736f6e6f7573206d757368726f6f6d"
        ),
        Ok(String::from("SSdtIGtpbGxpbmcgeW91ciBicmFpbiBsaWtlIGEgcG9pc29ub3VzIG11c2hyb29t"))
    );
    assert_eq!(hex_to_base64(""), Ok(String::new()));
    assert_eq!(hex_to_base64("6869"), Ok(String::from("aGk")));
}

#[test]
fn hex_to_base64_fails_as_decode_hex() {
    assert_eq!(hex_to_base64("123"), Err(DecodeHexError::OddLength));
    assert_eq!(hex_to_base64("12zz"), Err(DecodeHexError::ParseInt { index: 2 }));
}
