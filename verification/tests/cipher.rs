use xorbreak::error::XorError;
use xorbreak::xor::{repeating_xor, xor_by_single_byte};

#[test]
fn repeating_xor_reference_vector() {
    let message = b"Burning 'em, if you ain't quick and nimble\nI go crazy when I hear a cymbal";
    let encrypted = repeating_xor(message, b"ICE").unwrap();
    assert_eq!(
        hex::encode(encrypted),
        "0b3637272a2b2e63622c2e69692a23693a2a3c6324202d623d63343c\
         2a26226324272765272a282b2f20430a652e2c652a3124333a653e2b\
         2027630c692b20283165286326302e27282f"
    );
}

#[test]
fn repeating_xor_twice_gives_the_message_back() {
    let message: Vec<u8> = (0..=255u8).chain(0..100u8).collect();
    for key in [&b"K"[..], &b"ICE"[..], &b"a longer key than most"[..], &[0u8, 255, 7][..]] {
        let once = repeating_xor(&message, key).unwrap();
        assert_eq!(once.len(), message.len());
        let twice = repeating_xor(&once, key).unwrap();
        assert_eq!(twice, message);
    }
}

#[test]
fn repeating_xor_refuses_an_empty_key() {
    assert_eq!(repeating_xor(b"message", b""), Err(XorError::EmptyKey));
    assert_eq!(repeating_xor(b"", b""), Err(XorError::EmptyKey));
}

#[test]
fn repeating_xor_of_an_empty_message() {
    assert_eq!(repeating_xor(b"", b"ICE"), Ok(vec![]));
}

#[test]
fn repeating_xor_with_a_key_longer_than_the_message() {
    assert_eq!(repeating_xor(&[0x0F, 0xF0], &[0xFF, 0xFF, 0x12, 0x34]), Ok(vec![0xF0, 0x0F]));
}

#[test]
fn repeating_xor_cycles_through_the_key() {
    assert_eq!(
        repeating_xor(&[0, 0, 0, 0, 0, 0, 0], &[1, 2, 3]),
        Ok(vec![1, 2, 3, 1, 2, 3, 1])
    );
}

#[test]
fn xor_by_single_byte_changes_every_byte() {
    assert_eq!(xor_by_single_byte(&[0x00, 0xFF, 0x58], 0x58), vec![0x58, 0xA7, 0x00]);
    assert_eq!(xor_by_single_byte(b"", 0x58), Vec::<u8>::new());
}

#[test]
fn xor_by_single_byte_twice_gives_the_stream_back() {
    let stream: Vec<u8> = (0..=255u8).collect();
    for key in [0u8, 1, 0x58, 0xFF] {
        assert_eq!(xor_by_single_byte(&xor_by_single_byte(&stream, key), key), stream);
    }
}

#[test]
fn xor_by_single_byte_is_a_one_byte_key() {
    let stream = b"Cooking MC's like a pound of bacon";
    assert_eq!(Ok(xor_by_single_byte(stream, 0x58)), repeating_xor(stream, &[0x58]));
}
