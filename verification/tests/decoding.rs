use xorbreak::codec::{
    decode_base64_text, decode_hex, encode_base64, hex_digit, strip_newlines, vec_to_string,
    DecodeError, DecodeHexError,
};
use xorbreak::detect::detect_single_byte_xor;

#[test]
fn decode_hex_of_digit_pairs() {
    assert_eq!(decode_hex("00ff10"), Ok(vec![0x00, 0xFF, 0x10]));
    assert_eq!(decode_hex("DeadBEEF"), Ok(vec![0xDE, 0xAD, 0xBE, 0xEF]));
    assert_eq!(decode_hex(""), Ok(vec![]));
    assert_eq!(decode_hex("6b697769"), Ok(b"kiwi".to_vec()));
}

#[test]
fn decode_hex_refuses_an_odd_length() {
    assert_eq!(decode_hex("123"), Err(DecodeHexError::OddLength));
    assert_eq!(decode_hex("f"), Err(DecodeHexError::OddLength));
    assert_eq!(decode_hex("zzz"), Err(DecodeHexError::OddLength));
}

#[test]
fn decode_hex_reports_the_first_bad_pair() {
    assert_eq!(decode_hex("zz"), Err(DecodeHexError::ParseInt { index: 0 }));
    assert_eq!(decode_hex("00g0"), Err(DecodeHexError::ParseInt { index: 2 }));
    assert_eq!(decode_hex("000g"), Err(DecodeHexError::ParseInt { index: 2 }));
    assert_eq!(decode_hex("0011xx22yy"), Err(DecodeHexError::ParseInt { index: 4 }));
    assert_eq!(decode_hex("0 "), Err(DecodeHexError::ParseInt { index: 0 }));
    assert_eq!(decode_hex("\u{e9}"), Err(DecodeHexError::ParseInt { index: 0 }));
}

#[test]
fn decode_hex_error_messages() {
    assert_eq!(DecodeHexError::OddLength.message(), "input string has an odd number of bytes");
    assert_eq!(DecodeHexError::ParseInt { index: 4 }.message(), "invalid digit found in string");
    assert_eq!(DecodeError::Base64.message(), "the input is not valid base64");
    assert_eq!(
        DecodeError::Hex { line: 1 }.message(),
        "a line of the input is not valid hexadecimal"
    );
}

#[test]
fn decode_hex_agrees_with_the_hex_crate() {
    for text in ["", "00", "0a1B2c3D", "ffFF", "0g", "abc", "+f", "1 ", "7f80"] {
        assert_eq!(decode_hex(text).ok(), hex::decode(text).ok());
    }
}

#[test]
fn hex_digit_values() {
    assert_eq!(hex_digit(b'0'), Some(0));
    assert_eq!(hex_digit(b'9'), Some(9));
    assert_eq!(hex_digit(b'a'), Some(10));
    assert_eq!(hex_digit(b'f'), Some(15));
    assert_eq!(hex_digit(b'A'), Some(10));
    assert_eq!(hex_digit(b'F'), Some(15));
    assert_eq!(hex_digit(b'g'), None);
    assert_eq!(hex_digit(b'G'), None);
    assert_eq!(hex_digit(b'/'), None);
    assert_eq!(hex_digit(b':'), None);
    assert_eq!(hex_digit(b'@'), None);
    assert_eq!(hex_digit(b'`'), None);
    assert_eq!(hex_digit(b'+'), None);
}

#[test]
fn hex_to_base64_reference_vector() {
    let bytes = decode_hex(
        "49276d206b696c6c696e6720796f757220627261696e206c696b65206120706f69736f6e6f7573206d757368726f6f6d",
    )
    .unwrap();
    assert_eq!(
        encode_base64(&bytes),
        Some(String::from("SSdtIGtpbGxpbmcgeW91ciBicmFpbiBsaWtlIGEgcG9pc29ub3VzIG11c2hyb29t"))
    );
}

#[test]
fn encode_base64_leaves_out_the_padding() {
    assert_eq!(encode_base64(b"hi"), Some(String::from("aGk")));
    assert_eq!(encode_base64(b""), Some(String::new()));
    assert_eq!(encode_base64(b"hello world~\n"), Some(String::from("aGVsbG8gd29ybGR+Cg")));
}

#[test]
fn decode_base64_text_joins_the_lines() {
    assert_eq!(decode_base64_text(b"aGVsbG8g\nd29ybGR+\nCg==\n"), Ok(b"hello world~\n".to_vec()));
    assert_eq!(decode_base64_text(b"aGVsbG8gd29ybGR+Cg=="), Ok(b"hello world~\n".to_vec()));
    assert_eq!(decode_base64_text(b""), Ok(vec![]));
    assert_eq!(decode_base64_text(b"\n\n"), Ok(vec![]));
}

#[test]
fn decode_base64_text_refuses_what_is_not_base64() {
    assert_eq!(decode_base64_text(b"aGk"), Err(DecodeError::Base64));
    assert_eq!(decode_base64_text(b"a GVsbG8="), Err(DecodeError::Base64));
    assert_eq!(decode_base64_text(b"aGVs\r\nbG8="), Err(DecodeError::Base64));
    assert_eq!(decode_base64_text(b"!!!!"), Err(DecodeError::Base64));
}

#[test]
fn strip_newlines_keeps_the_rest() {
    assert_eq!(strip_newlines(b"a\nb\n\nc\n"), b"abc".to_vec());
    assert_eq!(strip_newlines(b"a\r\nb"), b"a\rb".to_vec());
    assert_eq!(strip_newlines(b"\n"), Vec::<u8>::new());
    assert_eq!(strip_newlines(b""), Vec::<u8>::new());
}

#[test]
fn vec_to_string_reads_utf8() {
    assert_eq!(vec_to_string(&b"ICE".to_vec()), "ICE");
    assert_eq!(vec_to_string(&vec![]), "");
    assert_eq!(vec_to_string(&vec![0xC3, 0xA9]), "\u{e9}");
}

#[test]
fn vec_to_string_replaces_what_is_not_utf8() {
    assert_eq!(vec_to_string(&vec![b'a', 0xFF, b'b']), "a\u{fffd}b");
    assert_eq!(vec_to_string(&vec![0x80]), "\u{fffd}");
}

#[test]
fn detect_single_byte_xor_finds_the_line() {
    let lines: Vec<Vec<u8>> = vec![
        b"0e3647e8592d35514a081243582536ed3de6734059001e3f535ce6271032".to_vec(),
        b"1b37373331363f78151b7f2b783431333d78397828372d363c78373e783a393b3736".to_vec(),
        b"334b041de124f73c18011a50e608097ac308ecee501337ec3e100854201d".to_vec(),
    ];
    let found = detect_single_byte_xor(&lines).unwrap().unwrap();
    assert_eq!(found.line, 1);
    assert_eq!(found.key, b'X');
    assert_eq!(found.score.millionths(), 40457279);
    assert_eq!(found.plaintext, b"Cooking MC's like a pound of bacon".to_vec());
}

#[test]
fn detect_single_byte_xor_prefers_the_earliest_of_equals() {
    let line = b"1b37373331363f78151b7f2b783431333d78397828372d363c78373e783a393b3736".to_vec();
    let found = detect_single_byte_xor(&vec![line.clone(), line]).unwrap().unwrap();
    assert_eq!(found.line, 0);
    assert_eq!(found.key, b'X');
}

#[test]
fn detect_single_byte_xor_compares_lines_of_different_lengths() {
    let lines: Vec<Vec<u8>> = vec![
        b"400142405501524055".to_vec(),
        b"55494401444f45".to_vec(),
        b"0e3647e8592d35514a081243582536ed3de6734059001e3f535ce6271032".to_vec(),
    ];
    let found = detect_single_byte_xor(&lines).unwrap().unwrap();
    assert_eq!(found.line, 1);
    assert_eq!(found.key, 0x21);
    assert_eq!(found.plaintext, b"the end".to_vec());
    assert_eq!(found.score.millionths(), 8723948);

    let lines: Vec<Vec<u8>> = vec![
        b"1b37373331363f78151b7f2b783431333d78397828372d363c78373e783a393b3736".to_vec(),
        b"04396d243e6d2c6d3a2c346d046d252c3b286d222b6d293f243b24232a6d222b2b6d3925286d3e3d212828236d2c23296d3f282a38212c3924232a6d3925286d2e243f2e38212c3924222363".to_vec(),
    ];
    let found = detect_single_byte_xor(&lines).unwrap().unwrap();
    assert_eq!(found.line, 1);
    assert_eq!(found.key, 0x4D);
    assert_eq!(
        found.plaintext,
        b"It is a way I have of driving off the spleen and regulating the circulation.".to_vec()
    );
    assert_eq!(found.score.millionths(), 21083250);
}

#[test]
fn detect_single_byte_xor_when_nothing_is_text() {
    let lines: Vec<Vec<u8>> = vec![b"8001".to_vec(), b"ff7f00".to_vec()];
    assert!(detect_single_byte_xor(&lines).unwrap().is_none());
    assert!(detect_single_byte_xor(&vec![]).unwrap().is_none());
}

#[test]
fn detect_single_byte_xor_of_an_empty_line() {
    let found = detect_single_byte_xor(&vec![vec![]]).unwrap().unwrap();
    assert_eq!(found.line, 0);
    assert_eq!(found.key, 0);
    assert_eq!(found.score.millionths(), 0);
    assert_eq!(found.plaintext, Vec::<u8>::new());
}

#[test]
fn detect_single_byte_xor_refuses_what_is_not_hex() {
    let lines: Vec<Vec<u8>> = vec![b"00ff".to_vec(), b"0g".to_vec(), b"abc".to_vec()];
    assert_eq!(detect_single_byte_xor(&lines).err(), Some(DecodeError::Hex { line: 1 }));
    let lines: Vec<Vec<u8>> = vec![b"abc".to_vec()];
    assert_eq!(detect_single_byte_xor(&lines).err(), Some(DecodeError::Hex { line: 0 }));
}
