use vstd::prelude::*;

verus! {

/// Why an operation on byte streams was refused.
#[derive(Clone, Copy, Debug, PartialEq, Eq, Structural)]
pub enum XorError {
    /// Two byte sequences that must have the same length do not.
    LengthMismatch,
    /// A repeating key of length zero was given.
    EmptyKey,
    /// A key length is zero, or the ciphertext is shorter than four blocks of
    /// that length. Such a key length is passed over.
    KeysizeRangeInvalid,
    /// No key length of the search range leaves four whole blocks of ciphertext.
    NoViableKeysize,
}

impl XorError {
    /// A sentence for a human reader.
    pub fn message(&self) -> (text: &'static str)
        ensures
            text@ == (match *self {
                XorError::LengthMismatch => "byte sequences differ in length"@,
                XorError::EmptyKey => "the key is empty"@,
                XorError::KeysizeRangeInvalid => "the ciphertext is too short for this key length"@,
                XorError::NoViableKeysize => "the ciphertext is too short for every key length tried"@,
            }),
    {
        match self {
            XorError::LengthMismatch => "byte sequences differ in length",
            XorError::EmptyKey => "the key is empty",
            XorError::KeysizeRangeInvalid => "the ciphertext is too short for this key length",
            XorError::NoViableKeysize => "the ciphertext is too short for every key length tried",
        }
    }
}

} // verus!
