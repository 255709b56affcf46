use vstd::prelude::*;
use vstd::string::StringSliceAdditionalSpecFns;
use base64::Engine;

verus! {

/// The newline byte.
pub const LINE_FEED: u8 = 0x0A;

/// Why a text could not be turned into bytes.
#[derive(Clone, Copy, Debug, PartialEq, Eq, Structural)]
pub enum DecodeError {
    /// The text, without its newlines, is not standard base64.
    Base64,
    /// The line with this index is not a string of hexadecimal digit pairs.
    Hex { line: usize },
}

impl DecodeError {
    /// A sentence for a human reader.
    pub fn message(&self) -> (text: &'static str)
        ensures
            text@ == (match *self {
                DecodeError::Base64 => "the input is not valid base64"@,
                DecodeError::Hex { .. } => "a line of the input is not valid hexadecimal"@,
            }),
    {
        match self {
            DecodeError::Base64 => "the input is not valid base64",
            DecodeError::Hex { .. } => "a line of the input is not valid hexadecimal",
        }
    }
}

/// Why a string of hexadecimal digits could not be decoded.
#[derive(Clone, Copy, Debug, PartialEq, Eq, Structural)]
pub enum DecodeHexError {
    /// The string has an odd number of bytes.
    OddLength,
    /// The two bytes that start at `index` are not two hexadecimal digits.
    ParseInt { index: usize },
}

impl DecodeHexError {
    /// A sentence for a human reader.
    pub fn message(&self) -> (text: &'static str)
        ensures
            text@ == (match *self {
                DecodeHexError::OddLength => "input string has an odd number of bytes"@,
                DecodeHexError::ParseInt { .. } => "invalid digit found in string"@,
            }),
    {
        match self {
            DecodeHexError::OddLength => "input string has an odd number of bytes",
            DecodeHexError::ParseInt { .. } => "invalid digit found in string",
        }
    }
}

/// The value of a hexadecimal digit of either case.
pub open spec fn hex_value(digit: u8) -> Option<u8> {
    if 0x30 <= digit && digit <= 0x39 {
        Some((digit - 0x30) as u8)
    } else if 0x41 <= digit && digit <= 0x46 {
        Some((digit - 0x41 + 10) as u8)
    } else if 0x61 <= digit && digit <= 0x66 {
        Some((digit - 0x61 + 10) as u8)
    } else {
        None
    }
}

/// The two bytes that start at `index` are hexadecimal digits.
pub open spec fn is_hex_pair(text: Seq<u8>, index: int) -> bool {
    hex_value(text[index]).is_some() && hex_value(text[index + 1]).is_some()
}

/// The byte that the two digits starting at `index` stand for.
pub open spec fn hex_pair_value(text: Seq<u8>, index: int) -> u8 {
    (16 * hex_value(text[index]).unwrap() + hex_value(text[index + 1]).unwrap()) as u8
}

/// The text is a string of hexadecimal digit pairs.
pub open spec fn is_hex(text: Seq<u8>) -> bool {
    text.len() % 2 == 0 && forall|pair: int|
        0 <= pair < text.len() / 2 ==> #[trigger] is_hex_pair(text, 2 * pair)
}

/// The first pair that is not two hexadecimal digits starts at `index`.
pub open spec fn is_first_bad_pair(text: Seq<u8>, index: int) -> bool {
    &&& 0 <= index && index + 1 < text.len()
    &&& index % 2 == 0
    &&& !is_hex_pair(text, index)
    &&& forall|pair: int| 0 <= pair < index / 2 ==> #[trigger] is_hex_pair(text, 2 * pair)
}

/// The bytes that a string of hexadecimal digit pairs stands for.
pub open spec fn hex_decoded(text: Seq<u8>) -> Seq<u8> {
    Seq::new(text.len() / 2, |pair: int| hex_pair_value(text, 2 * pair))
}

/// The lower-case hexadecimal digit for a value below sixteen.
pub open spec fn hex_char(value: u8) -> char {
    if value < 10 {
        ((0x30 + value) as u8) as char
    } else {
        ((0x57 + value) as u8) as char
    }
}

/// The bytes written as lower-case hexadecimal digits, two for each byte,
/// the high half first.
pub open spec fn hex_encoded(bytes: Seq<u8>) -> Seq<char> {
    Seq::new(
        2 * bytes.len(),
        |i: int|
            if i % 2 == 0 {
                hex_char(bytes[i / 2] / 16)
            } else {
                hex_char(bytes[i / 2] % 16)
            },
    )
}

/// The text without its newline bytes.
pub open spec fn without_newlines(text: Seq<u8>) -> Seq<u8>
    decreases text.len(),
{
    if text.len() == 0 {
        Seq::empty()
    } else if text.last() == LINE_FEED {
        without_newlines(text.drop_last())
    } else {
        without_newlines(text.drop_last()).push(text.last())
    }
}

/// What standard base64 text with padding decodes to; `None` for text that
/// is not valid.
pub uninterp spec fn standard_base64_decoded(text: Seq<u8>) -> Option<Seq<u8>>;

/// The standard base64 text without padding that stands for the bytes.
pub uninterp spec fn unpadded_base64_encoded(bytes: Seq<u8>) -> Seq<char>;

/// The text that bytes read as when every invalid UTF-8 sequence is
/// replaced by U+FFFD.
pub uninterp spec fn lossy_utf8_text(bytes: Seq<u8>) -> Seq<char>;

/// The bytes are so many that their base64 text has a length.
pub open spec fn can_be_encoded(length: nat) -> bool {
    (length / 3) * 4 + 3 <= usize::MAX
}

/// Calls `hex::decode`. It accepts exactly the strings of an even number of
/// digits `0-9`, `a-f`, `A-F`, and gives for each pair the byte with the
/// first digit in the high half; the reason of a refusal is dropped.
#[verifier::external_body]
pub(crate) fn hex_crate_decode(text: &[u8]) -> (bytes: Option<Vec<u8>>)
    ensures
        bytes.is_some() <==> is_hex(text@),
        bytes.is_some() ==> bytes.unwrap()@ == hex_decoded(text@),
{
    hex::decode(text).ok()
}

/// Calls `hex::encode`. It writes each byte as two digits of
/// `0123456789abcdef`, the one for the high half first.
#[verifier::external_body]
pub(crate) fn hex_crate_encode(bytes: &[u8]) -> (text: String)
    ensures
        text@ == hex_encoded(bytes@),
{
    hex::encode(bytes)
}

/// Calls `decode` of base64's `STANDARD` engine. The result depends on the
/// text alone and is named `standard_base64_decoded`; the reason of a
/// refusal is dropped.
#[verifier::external_body]
fn base64_crate_decode(text: &[u8]) -> (bytes: Option<Vec<u8>>)
    ensures
        bytes.is_some() <==> standard_base64_decoded(text@).is_some(),
        bytes.is_some() ==> bytes.unwrap()@ == standard_base64_decoded(text@).unwrap(),
{
    base64::engine::general_purpose::STANDARD.decode(text).ok()
}

/// Calls `encode` of base64's `STANDARD_NO_PAD` engine, which panics when the
/// length of the text does not fit in `usize`. The result depends on the
/// bytes alone and is named `unpadded_base64_encoded`.
#[verifier::external_body]
pub(crate) fn base64_crate_encode(bytes: &[u8]) -> (text: String)
    requires
        can_be_encoded(bytes@.len()),
    ensures
        text@ == unpadded_base64_encoded(bytes@),
{
    base64::engine::general_purpose::STANDARD_NO_PAD.encode(bytes)
}

/// Calls `String::from_utf8_lossy`. The result depends on the bytes alone
/// and is named `lossy_utf8_text`.
#[verifier::external_body]
fn utf8_lossy(bytes: &[u8]) -> (text: String)
    ensures
        text@ == lossy_utf8_text(bytes@),
{
    String::from_utf8_lossy(bytes).into_owned()
}

/// The value of a hexadecimal digit.
pub fn hex_digit(digit: u8) -> (value: Option<u8>)
    ensures
        value == hex_value(digit),
        value.is_some() ==> value.unwrap() < 16,
{
    if 0x30 <= digit && digit <= 0x39 {
        Some(digit - 0x30)
    } else if 0x41 <= digit && digit <= 0x46 {
        Some(digit - 0x41 + 10)
    } else if 0x61 <= digit && digit <= 0x66 {
        Some(digit - 0x61 + 10)
    } else {
        None
    }
}

/// Decodes a string of hexadecimal digit pairs into bytes.
///
/// A string with an odd number of bytes is refused with `OddLength`. Else
/// the first pair that is not two digits `0-9`, `a-f`, `A-F` is reported
/// with the index at which it starts.
pub fn decode_hex(s: &str) -> (result: Result<Vec<u8>, DecodeHexError>)
    ensures
        s.spec_bytes().len() % 2 != 0 ==> result == Err::<Vec<u8>, DecodeHexError>(
            DecodeHexError::OddLength,
        ),
        is_hex(s.spec_bytes()) <==> result.is_ok(),
        result.is_ok() ==> result.unwrap()@ == hex_decoded(s.spec_bytes()),
        result.is_ok() ==> 2 * result.unwrap()@.len() <= usize::MAX,
        s.spec_bytes().len() % 2 == 0 && !is_hex(s.spec_bytes()) ==> (match result {
            Err(DecodeHexError::ParseInt { index }) => is_first_bad_pair(s.spec_bytes(), index as int),
            _ => false,
        }),
{
    let text: &[u8] = s.as_bytes();
    if text.len() % 2 != 0 {
        return Err(DecodeHexError::OddLength);
    }
    let mut bytes: Vec<u8> = Vec::new();
    let mut i: usize = 0;
    while i < text.len()
        invariant
            text@ == s.spec_bytes(),
            text@.len() % 2 == 0,
            i <= text@.len(),
            i % 2 == 0,
            bytes@.len() == i / 2,
            forall|pair: int| 0 <= pair < i / 2 ==> #[trigger] is_hex_pair(text@, 2 * pair),
            forall|pair: int|
                0 <= pair < i / 2 ==> bytes@[pair] == hex_pair_value(text@, 2 * pair),
        decreases text@.len() - i,
    {
        let ghost pair: int = i as int / 2;
        let high: Option<u8> = hex_digit(text[i]);
        let low: Option<u8> = hex_digit(text[i + 1]);
        match (high, low) {
            (Some(h), Some(l)) => {
                bytes.push(16 * h + l);
            },
            _ => {
                assert(!is_hex_pair(text@, 2 * pair));
                return Err(DecodeHexError::ParseInt { index: i });
            },
        }
        i = i + 2;
    }
    Ok(bytes)
}

/// Removes every newline byte.
pub fn strip_newlines(text: &[u8]) -> (kept: Vec<u8>)
    ensures
        kept@ == without_newlines(text@),
{
    let mut kept: Vec<u8> = Vec::new();
    let mut i: usize = 0;
    while i < text.len()
        invariant
            i <= text@.len(),
            kept@ == without_newlines(text@.take(i as int)),
        decreases text@.len() - i,
    {
        assert(text@.take(i + 1).drop_last() =~= text@.take(i as int));
        if text[i] != LINE_FEED {
            kept.push(text[i]);
        }
        i = i + 1;
    }
    assert(text@.take(text@.len() as int) =~= text@);
    kept
}

/// Decodes base64 text that may be broken into lines: the newline bytes are
/// removed, and what is left is decoded as standard base64 with padding.
pub fn decode_base64_text(text: &[u8]) -> (result: Result<Vec<u8>, DecodeError>)
    ensures
        standard_base64_decoded(without_newlines(text@)).is_none() ==> result == Err::<
            Vec<u8>,
            DecodeError,
        >(DecodeError::Base64),
        standard_base64_decoded(without_newlines(text@)).is_some() ==> result.is_ok()
            && result.unwrap()@ == standard_base64_decoded(without_newlines(text@)).unwrap(),
{
    let joined: Vec<u8> = strip_newlines(text);
    match base64_crate_decode(joined.as_slice()) {
        Some(bytes) => Ok(bytes),
        None => Err(DecodeError::Base64),
    }
}

/// Encodes bytes as standard base64 without padding. `None` when the bytes
/// are so many that the length of the text does not fit in `usize`.
pub fn encode_base64(bytes: &[u8]) -> (text: Option<String>)
    ensures
        text.is_some() <==> can_be_encoded(bytes@.len()),
        text.is_some() ==> text.unwrap()@ == unpadded_base64_encoded(bytes@),
{
    if bytes.len() / 3 > (usize::MAX - 3) / 4 {
        return None;
    }
    Some(base64_crate_encode(bytes))
}

/// Reads bytes as text, with U+FFFD in place of whatever is not UTF-8.
pub fn vec_to_string(vec: &Vec<u8>) -> (text: String)
    ensures
        text@ == lossy_utf8_text(vec@),
{
    utf8_lossy(vec.as_slice())
}

} // verus!
