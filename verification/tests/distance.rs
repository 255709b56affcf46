use xorbreak::bits::{count_bits, count_differing_bits, hamming_distance};
use xorbreak::error::XorError;

#[test]
fn hamming_distance_reference_vector() {
    assert_eq!(hamming_distance(b"this is a test", b"wokka wokka!!!"), Ok(37));
}

#[test]
fn hamming_distance_is_symmetric() {
    let a: &[u8] = b"Burning 'em, if you ain't quick";
    let b: &[u8] = b"I go crazy when I hear a cymbal";
    assert_eq!(a.len(), b.len());
    assert_eq!(hamming_distance(a, b), hamming_distance(b, a));
    assert_eq!(hamming_distance(b"wokka wokka!!!", b"this is a test"), Ok(37));
}

#[test]
fn hamming_distance_to_itself_is_zero() {
    assert_eq!(hamming_distance(b"this is a test", b"this is a test"), Ok(0));
    assert_eq!(hamming_distance(&[0xFF, 0x00, 0x5A], &[0xFF, 0x00, 0x5A]), Ok(0));
}

#[test]
fn hamming_distance_of_empty_slices() {
    assert_eq!(hamming_distance(b"", b""), Ok(0));
}

#[test]
fn hamming_distance_refuses_unequal_lengths() {
    assert_eq!(hamming_distance(b"abc", b"ab"), Err(XorError::LengthMismatch));
    assert_eq!(hamming_distance(b"", b"a"), Err(XorError::LengthMismatch));
}

#[test]
fn hamming_distance_counts_every_bit() {
    assert_eq!(hamming_distance(&[0x00, 0x00], &[0xFF, 0xFF]), Ok(16));
    assert_eq!(hamming_distance(&[0b1010_1010], &[0b0101_0101]), Ok(8));
    assert_eq!(hamming_distance(&[0b1000_0000], &[0b0000_0000]), Ok(1));
}

#[test]
fn count_bits_of_bytes() {
    assert_eq!(count_bits(0x00), 0);
    assert_eq!(count_bits(0x01), 1);
    assert_eq!(count_bits(0x80), 1);
    assert_eq!(count_bits(0x5A), 4);
    assert_eq!(count_bits(0xFF), 8);
    for b in 0..=255u8 {
        assert_eq!(u32::from(count_bits(b)), b.count_ones());
    }
}

#[test]
fn count_differing_bits_of_equal_lengths() {
    assert_eq!(count_differing_bits(b"this is a test", b"wokka wokka!!!"), 37);
}

#[test]
fn xor_error_messages() {
    assert_eq!(XorError::LengthMismatch.message(), "byte sequences differ in length");
    assert_eq!(XorError::EmptyKey.message(), "the key is empty");
    assert_eq!(
        XorError::KeysizeRangeInvalid.message(),
        "the ciphertext is too short for this key length"
    );
    assert_eq!(
        XorError::NoViableKeysize.message(),
        "the ciphertext is too short for every key length tried"
    );
}
