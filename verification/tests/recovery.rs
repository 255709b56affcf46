use xorbreak::keysize::find_likeliest_keysize;
use xorbreak::recover::break_repeating_xor;
use xorbreak::single::break_single_char_xor;
use xorbreak::transpose::transpose;
use xorbreak::xor::repeating_xor;

const ISHMAEL: &[u8] = b"Call me Ishmael. Some years ago, never mind how long precisely, having little or no money in my purse, and nothing particular to interest me on shore, I thought I would sail about a little and see the watery part of the world. It is a way I have of driving off the spleen and regulating the circulation.";

const TIMES: &[u8] = b"It was the best of times, it was the worst of times, it was the age of wisdom, it was the age of foolishness, it was the epoch of belief, it was the epoch of incredulity, it was the season of Light, it was the season of Darkness, it was the spring of hope, it was the winter of despair.";

#[test]
fn end_to_end_recovers_key_and_plaintext() {
    assert!(ISHMAEL.len() >= 200);
    for key in [&b"ICE"[..], &b"Key"[..], &b"lime"[..], &b"RUST"[..]] {
        let ciphertext = repeating_xor(ISHMAEL, key).unwrap();
        let keysize = find_likeliest_keysize(&ciphertext).unwrap();
        let recovered = break_repeating_xor(&ciphertext, &keysize);
        assert_eq!(recovered, key.to_vec());
        assert_eq!(repeating_xor(&ciphertext, &recovered), Ok(ISHMAEL.to_vec()));
    }
}

#[test]
fn end_to_end_with_a_six_byte_key() {
    assert!(TIMES.len() >= 200);
    let ciphertext = repeating_xor(TIMES, b"secret").unwrap();
    let keysize = find_likeliest_keysize(&ciphertext).unwrap();
    assert_eq!(keysize, 6);
    let recovered = break_repeating_xor(&ciphertext, &keysize);
    assert_eq!(recovered, b"secret".to_vec());
    assert_eq!(repeating_xor(&ciphertext, &recovered), Ok(TIMES.to_vec()));
}

#[test]
fn break_repeating_xor_with_a_known_keysize() {
    for key in [&b"xorit"[..], &b"Verus"[..], &b"BANANA"[..], &b"Tiger"[..]] {
        let ciphertext = repeating_xor(TIMES, key).unwrap();
        assert_eq!(break_repeating_xor(&ciphertext, &(key.len() as u8)), key.to_vec());
    }
}

#[test]
fn break_repeating_xor_takes_each_column_on_its_own() {
    let ciphertext = repeating_xor(ISHMAEL, b"lime").unwrap();
    let key = break_repeating_xor(&ciphertext, &7);
    let columns = transpose(&ciphertext, &7);
    assert_eq!(key.len(), 7);
    for (i, column) in columns.iter().enumerate() {
        assert_eq!(key[i], break_single_char_xor(column));
    }
}

#[test]
fn break_repeating_xor_without_columns() {
    assert_eq!(break_repeating_xor(b"anything", &0), Vec::<u8>::new());
}

#[test]
fn break_repeating_xor_of_an_empty_message() {
    assert_eq!(break_repeating_xor(b"", &3), vec![0, 0, 0]);
}
