//! Recovery of a repeating-key XOR key from ciphertext alone.
//!
//! The pipeline estimates the key length from bit distances between
//! ciphertext blocks, splits the ciphertext into one column per key
//! position, and finds each key byte by scoring the 256 possible
//! single-byte decryptions of its column against English letter
//! frequencies. All arithmetic is exact: scores are whole numbers and
//! fractions are compared by their cross products.
//!
//! - [`bits`]: Hamming distance of byte sequences.
//! - [`xor`]: single-byte and repeating-key XOR.
//! - [`text`]: classes of characters and their counts in a stream.
//! - [`frequency`]: expected frequencies and the chi-squared statistic.
//! - [`single`]: the best single-byte key of a stream.
//! - [`weights`]: a weaker scorer that only adds up letter weights.
//! - [`keysize`]: the most probable key length.
//! - [`transpose`]: columns of a ciphertext, and their re-interleaving.
//! - [`recover`]: the key, column by column.
//! - [`detect`]: the one line among many that is single-byte XOR.
//! - [`codec`]: hexadecimal, base64 and lossy UTF-8.
//! - [`pipeline`]: the steps put together.
//! - [`ratio`], [`error`]: exact comparison of fractions, and the errors.

pub mod error;
pub mod ratio;
pub mod bits;
pub mod xor;
pub mod text;
pub mod frequency;
pub mod single;
pub mod weights;
pub mod transpose;
pub mod keysize;
pub mod recover;
pub mod codec;
pub mod detect;
pub mod pipeline;
