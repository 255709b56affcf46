use xorbreak::error::XorError;
use xorbreak::keysize::{
    find_keysize_in_range, find_likeliest_keysize, score_keysize, KeysizeScore,
};
use xorbreak::xor::repeating_xor;

const ISHMAEL: &[u8] = b"Call me Ishmael. Some years ago, never mind how long precisely, having little or no money in my purse, and nothing particular to interest me on shore, I thought I would sail about a little and see the watery part of the world. It is a way I have of driving off the spleen and regulating the circulation.";

const TIMES: &[u8] = b"It was the best of times, it was the worst of times, it was the age of wisdom, it was the age of foolishness, it was the epoch of belief, it was the epoch of incredulity, it was the season of Light, it was the season of Darkness, it was the spring of hope, it was the winter of despair.";

fn rank_of(ciphertext: &[u8], keysize: u8) -> usize {
    let own = score_keysize(ciphertext, keysize).unwrap();
    (2..=40u8)
        .filter_map(|k| score_keysize(ciphertext, k).ok())
        .filter(|other| other.fits_better(&own))
        .count()
}

#[test]
fn find_likeliest_keysize_of_known_keys() {
    for key in [&b"ICE"[..], &b"Key"[..], &b"lime"[..], &b"RUST"[..]] {
        let ciphertext = repeating_xor(ISHMAEL, key).unwrap();
        assert_eq!(find_likeliest_keysize(&ciphertext), Ok(key.len() as u8));
    }
    let ciphertext = repeating_xor(TIMES, b"secret").unwrap();
    assert_eq!(find_likeliest_keysize(&ciphertext), Ok(6));
}

#[test]
fn true_keysize_ranks_among_the_lowest() {
    for key in [&b"ICE"[..], &b"Key"[..], &b"lime"[..], &b"RUST"[..]] {
        let ciphertext = repeating_xor(ISHMAEL, key).unwrap();
        assert_eq!(rank_of(&ciphertext, key.len() as u8), 0);
    }
    for key in [&b"lime"[..], &b"RUST"[..]] {
        let ciphertext = repeating_xor(TIMES, key).unwrap();
        assert_eq!(rank_of(&ciphertext, key.len() as u8), 1);
    }
    let ciphertext = repeating_xor(TIMES, b"secret").unwrap();
    assert_eq!(rank_of(&ciphertext, 6), 0);
}

#[test]
fn find_likeliest_keysize_has_the_lowest_normalized_distance() {
    let ciphertext = repeating_xor(ISHMAEL, b"ICE").unwrap();
    let found = find_likeliest_keysize(&ciphertext).unwrap();
    let best = score_keysize(&ciphertext, found).unwrap();
    for k in 2..=40u8 {
        let other = score_keysize(&ciphertext, k).unwrap();
        assert!(!other.fits_better(&best));
        if k < found {
            assert!(best.fits_better(&other));
        }
    }
}

#[test]
fn find_likeliest_keysize_needs_four_blocks() {
    assert_eq!(find_likeliest_keysize(b""), Err(XorError::NoViableKeysize));
    assert_eq!(find_likeliest_keysize(&[0; 7]), Err(XorError::NoViableKeysize));
    assert_eq!(find_likeliest_keysize(&[0; 8]), Ok(2));
}

#[test]
fn find_likeliest_keysize_skips_what_is_too_long() {
    // twenty bytes hold four blocks of up to five bytes
    assert_eq!(find_likeliest_keysize(b"abcdefghijklmnopqrst"), Ok(4));
}

#[test]
fn find_likeliest_keysize_takes_the_smallest_of_equals() {
    assert_eq!(find_likeliest_keysize(&[0; 200]), Ok(2));
    let message: Vec<u8> = (0..16u8).collect();
    assert_eq!(score_keysize(&message, 2), Ok(KeysizeScore { keysize: 2, distances: 16 }));
    assert_eq!(score_keysize(&message, 4), Ok(KeysizeScore { keysize: 4, distances: 32 }));
    assert_eq!(find_likeliest_keysize(&message), Ok(2));
}

#[test]
fn find_keysize_in_range_keeps_to_the_range() {
    let ciphertext = repeating_xor(TIMES, b"secret").unwrap();
    assert_eq!(find_keysize_in_range(&ciphertext, 2, 40), Ok(6));
    assert_eq!(find_keysize_in_range(&ciphertext, 2, 5), Ok(4));
    assert_eq!(find_keysize_in_range(&ciphertext, 7, 40), Ok(9));
    assert_eq!(find_keysize_in_range(&ciphertext, 0, 1), Ok(1));
    assert_eq!(find_keysize_in_range(&ciphertext, 1, 1), Ok(1));
    assert_eq!(find_keysize_in_range(&ciphertext, 0, 255), Ok(6));
}

#[test]
fn find_keysize_in_range_without_a_candidate() {
    let ciphertext = repeating_xor(TIMES, b"secret").unwrap();
    assert_eq!(find_keysize_in_range(&ciphertext, 0, 0), Err(XorError::NoViableKeysize));
    assert_eq!(find_keysize_in_range(&ciphertext, 5, 4), Err(XorError::NoViableKeysize));
    assert_eq!(find_keysize_in_range(&ciphertext, 72, 255), Err(XorError::NoViableKeysize));
    assert_eq!(find_keysize_in_range(&ciphertext, 71, 255), Ok(71));
    assert_eq!(find_keysize_in_range(&[0; 11], 3, 40), Err(XorError::NoViableKeysize));
}

#[test]
fn score_keysize_sums_six_distances() {
    let ciphertext = repeating_xor(ISHMAEL, b"ICE").unwrap();
    assert_eq!(ciphertext.len(), 303);
    assert_eq!(score_keysize(&ciphertext, 3), Ok(KeysizeScore { keysize: 3, distances: 39 }));
    assert_eq!(score_keysize(&ciphertext, 5), Ok(KeysizeScore { keysize: 5, distances: 92 }));
    assert_eq!(score_keysize(&ciphertext, 40), Ok(KeysizeScore { keysize: 40, distances: 656 }));
    assert!(score_keysize(&ciphertext, 75).is_ok());
    assert_eq!(score_keysize(&ciphertext, 76), Err(XorError::KeysizeRangeInvalid));
    assert_eq!(score_keysize(&ciphertext, 0), Err(XorError::KeysizeRangeInvalid));
    // blocks 00 01 | 02 03 | 04 05 | 06 07
    assert_eq!(
        score_keysize(&[0, 1, 2, 3, 4, 5, 6, 7], 2),
        Ok(KeysizeScore { keysize: 2, distances: 2 + 2 + 4 + 4 + 2 + 2 })
    );
}

#[test]
fn fits_better_compares_normalized_distances() {
    let three = KeysizeScore { keysize: 3, distances: 39 };
    let four = KeysizeScore { keysize: 4, distances: 60 };
    let six = KeysizeScore { keysize: 6, distances: 78 };
    assert!(three.fits_better(&four));
    assert!(!four.fits_better(&three));
    assert!(!three.fits_better(&six));
    assert!(!six.fits_better(&three));
    assert!(!three.fits_better(&three));
}
