use vstd::prelude::*;
use crate::codec::{hex_crate_decode, hex_decoded, is_hex, DecodeError};
use crate::frequency::{
    calculate_score, closer_fit, closer_reading, divisor_of, lemma_closer_reading_same_length,
    ChiSquared, MAX_STREAM_LEN,
};
use crate::ratio::{lemma_fraction_below_chain, lemma_fraction_not_below_chain};
use crate::single::{best_key, break_single_char_xor, candidate_score, is_best_key};
use crate::transpose::rows_of;
use crate::xor::{xor_by_single_byte, xor_with_byte};

verus! {

/// The one line among many that reads as English under a single-byte key.
#[derive(Clone, Debug)]
pub struct Detection {
    /// The index of the line.
    pub line: usize,
    /// The key byte.
    pub key: u8,
    /// The chi-squared statistic of the decrypted line.
    pub score: ChiSquared,
    /// The decrypted line.
    pub plaintext: Vec<u8>,
}

/// The score of the bytes that line `line` stands for, decrypted with `key`.
pub open spec fn line_score(lines: Seq<Seq<u8>>, line: int, key: u8) -> Option<nat> {
    candidate_score(hex_decoded(lines[line]), key)
}

/// The number of bytes that line `line` stands for.
pub open spec fn line_len(lines: Seq<Seq<u8>>, line: int) -> nat {
    hex_decoded(lines[line]).len()
}

/// Each of the first `upto` lines is a string of hexadecimal digit pairs.
pub open spec fn all_hex(lines: Seq<Seq<u8>>, upto: int) -> bool {
    forall|line: int| 0 <= line < upto ==> is_hex(#[trigger] lines[line])
}

/// Among the first `upto` lines, no decryption with any key is text.
pub open spec fn nothing_readable(lines: Seq<Seq<u8>>, upto: int) -> bool {
    forall|line: int, key: u8| 0 <= line < upto ==> (#[trigger] line_score(lines, line, key)).is_none()
}

/// Among the first `upto` lines, decrypting line `line` with `key` gives the
/// lowest chi-squared statistic, whose scaled value is `score`: no line and
/// key have a strictly lower one, every earlier line has a strictly higher
/// one under every key, and `key` is the best key of its line.
pub open spec fn is_best_reading(
    lines: Seq<Seq<u8>>,
    upto: int,
    line: int,
    key: u8,
    score: nat,
) -> bool {
    &&& 0 <= line < upto
    &&& line_score(lines, line, key) == Some(score)
    &&& key == best_key(hex_decoded(lines[line]))
    &&& forall|other: int, other_key: u8|
        0 <= other < upto ==> !closer_reading(
            #[trigger] line_score(lines, other, other_key),
            line_len(lines, other),
            Some(score),
            line_len(lines, line),
        )
    &&& forall|other: int, other_key: u8|
        0 <= other < line ==> closer_reading(
            Some(score),
            line_len(lines, line),
            #[trigger] line_score(lines, other, other_key),
            line_len(lines, other),
        )
}

/// What `found` says is true of the first `upto` lines.
pub open spec fn describes(found: Option<Detection>, lines: Seq<Seq<u8>>, upto: int) -> bool {
    match found {
        None => nothing_readable(lines, upto),
        Some(detection) => {
            &&& is_best_reading(
                lines,
                upto,
                detection.line as int,
                detection.key,
                detection.score.scaled(),
            )
            &&& detection.score.length() == line_len(lines, detection.line as int)
            &&& detection.plaintext@ == xor_with_byte(
                hex_decoded(lines[detection.line as int]),
                detection.key,
            )
        },
    }
}

/// The best key of a line gives the best reading of that line alone, as far
/// as the lines before it are concerned: none of its keys reads closer.
proof fn lemma_best_of_line(lines: Seq<Seq<u8>>, line: int, key: u8, score: Option<nat>)
    requires
        is_best_key(hex_decoded(lines[line]), key),
        line_score(lines, line, key) == score,
    ensures
        forall|other_key: u8|
            !closer_reading(
                #[trigger] line_score(lines, line, other_key),
                line_len(lines, line),
                score,
                line_len(lines, line),
            ),
{
    assert forall|other_key: u8|
        !closer_reading(
            #[trigger] line_score(lines, line, other_key),
            line_len(lines, line),
            score,
            line_len(lines, line),
        ) by {
        lemma_closer_reading_same_length(
            line_score(lines, line, other_key),
            score,
            line_len(lines, line),
        );
    }
}

/// A line whose best reading beats the best of the lines before it holds
/// the best reading of all lines up to itself.
proof fn lemma_new_reading(
    lines: Seq<Seq<u8>>,
    line: int,
    key: u8,
    score: nat,
    held_line: int,
    held_key: u8,
    held_score: nat,
)
    requires
        0 <= line,
        is_best_key(hex_decoded(lines[line]), key),
        key == best_key(hex_decoded(lines[line])),
        line_score(lines, line, key) == Some(score),
        is_best_reading(lines, line, held_line, held_key, held_score),
        closer_reading(
            Some(score),
            line_len(lines, line),
            Some(held_score),
            line_len(lines, held_line),
        ),
    ensures
        is_best_reading(lines, line + 1, line, key, score),
{
    lemma_best_of_line(lines, line, key, Some(score));
    assert forall|other: int, other_key: u8| 0 <= other < line implies closer_reading(
        Some(score),
        line_len(lines, line),
        #[trigger] line_score(lines, other, other_key),
        line_len(lines, other),
    ) by {
        let theirs = line_score(lines, other, other_key);
        if theirs.is_some() {
            assert(!closer_reading(
                theirs,
                line_len(lines, other),
                Some(held_score),
                line_len(lines, held_line),
            ));
            lemma_fraction_below_chain(
                score,
                divisor_of(line_len(lines, line)),
                held_score,
                divisor_of(line_len(lines, held_line)),
                theirs.unwrap(),
                divisor_of(line_len(lines, other)),
            );
        }
    }
    assert forall|other: int, other_key: u8| 0 <= other < line + 1 implies !closer_reading(
        #[trigger] line_score(lines, other, other_key),
        line_len(lines, other),
        Some(score),
        line_len(lines, line),
    ) by {
        if other < line {
            assert(closer_reading(
                Some(score),
                line_len(lines, line),
                line_score(lines, other, other_key),
                line_len(lines, other),
            ));
        }
    }
}

/// A line whose best reading does not beat the best of the lines before it
/// leaves that one the best.
proof fn lemma_kept_reading(
    lines: Seq<Seq<u8>>,
    line: int,
    key: u8,
    score: Option<nat>,
    held_line: int,
    held_key: u8,
    held_score: nat,
)
    requires
        0 <= line,
        is_best_key(hex_decoded(lines[line]), key),
        line_score(lines, line, key) == score,
        is_best_reading(lines, line, held_line, held_key, held_score),
        !closer_reading(score, line_len(lines, line), Some(held_score), line_len(lines, held_line)),
    ensures
        is_best_reading(lines, line + 1, held_line, held_key, held_score),
{
    lemma_best_of_line(lines, line, key, score);
    assert forall|other: int, other_key: u8| 0 <= other < line + 1 implies !closer_reading(
        #[trigger] line_score(lines, other, other_key),
        line_len(lines, other),
        Some(held_score),
        line_len(lines, held_line),
    ) by {
        if other == line {
            let theirs = line_score(lines, line, other_key);
            if theirs.is_some() {
                lemma_fraction_not_below_chain(
                    theirs.unwrap(),
                    divisor_of(line_len(lines, line)),
                    score.unwrap(),
                    divisor_of(line_len(lines, line)),
                    held_score,
                    divisor_of(line_len(lines, held_line)),
                );
            }
        }
    }
}

/// The first reading that is text is the best of all lines up to its own.
proof fn lemma_first_reading(lines: Seq<Seq<u8>>, line: int, key: u8, score: nat)
    requires
        0 <= line,
        is_best_key(hex_decoded(lines[line]), key),
        key == best_key(hex_decoded(lines[line])),
        line_score(lines, line, key) == Some(score),
        nothing_readable(lines, line),
    ensures
        is_best_reading(lines, line + 1, line, key, score),
{
    lemma_best_of_line(lines, line, key, Some(score));
}

/// A line of which no reading is text leaves nothing readable.
proof fn lemma_no_reading(lines: Seq<Seq<u8>>, line: int, key: u8)
    requires
        0 <= line,
        is_best_key(hex_decoded(lines[line]), key),
        line_score(lines, line, key).is_none(),
        nothing_readable(lines, line),
    ensures
        nothing_readable(lines, line + 1),
{
    assert forall|other: int, other_key: u8| 0 <= other < line + 1 implies (#[trigger] line_score(
        lines,
        other,
        other_key,
    )).is_none() by {
        if other == line {
            assert(!closer_fit(
                candidate_score(hex_decoded(lines[line]), other_key),
                candidate_score(hex_decoded(lines[line]), key),
            ));
        }
    }
}

/// Finds, among lines of hexadecimal text, the line and the single-byte key
/// whose decryption reads most like English.
///
/// Every line is decoded and tried with all 256 keys. The answer is the
/// decryption with the lowest chi-squared statistic; of several with the
/// lowest, the one of the earliest line and, within it, of the smallest key.
/// It is `None` when no decryption of any line is text. A line that is not
/// hexadecimal stops the search with an error that names the first such
/// line.
pub fn detect_single_byte_xor(lines: &Vec<Vec<u8>>) -> (result: Result<
    Option<Detection>,
    DecodeError,
>)
    requires
        forall|line: int| 0 <= line < lines@.len() ==> (#[trigger] lines@[line])@.len()
            <= MAX_STREAM_LEN,
    ensures
        all_hex(rows_of(lines@), lines@.len() as int) <==> result.is_ok(),
        result.is_ok() ==> describes(result.unwrap(), rows_of(lines@), lines@.len() as int),
        !all_hex(rows_of(lines@), lines@.len() as int) ==> (match result {
            Err(DecodeError::Hex { line }) => line < lines@.len() && !is_hex(lines@[line as int]@)
                && all_hex(rows_of(lines@), line as int),
            _ => false,
        }),
{
    let ghost rows = rows_of(lines@);
    let mut found: Option<Detection> = None;
    let mut i: usize = 0;
    while i < lines.len()
        invariant
            i <= lines@.len(),
            rows == rows_of(lines@),
            forall|line: int| 0 <= line < lines@.len() ==> (#[trigger] lines@[line])@.len()
                <= MAX_STREAM_LEN,
            all_hex(rows, i as int),
            describes(found, rows, i as int),
        decreases lines@.len() - i,
    {
        assert(rows[i as int] == lines@[i as int]@);
        let raw_bytes: Vec<u8> = match hex_crate_decode(lines[i].as_slice()) {
            Some(decoded) => decoded,
            None => {
                return Err(DecodeError::Hex { line: i });
            },
        };
        let key: u8 = break_single_char_xor(raw_bytes.as_slice());
        let decipher_attempt: Vec<u8> = xor_by_single_byte(raw_bytes.as_slice(), key);
        let score: Option<ChiSquared> = calculate_score(decipher_attempt.as_slice());
        match score {
            Some(statistic) => {
                let better: bool = match &found {
                    Some(held) => statistic.is_below(&held.score),
                    None => true,
                };
                if better {
                    proof {
                        if found.is_some() {
                            let held = found.unwrap();
                            lemma_new_reading(
                                rows,
                                i as int,
                                key,
                                statistic.scaled(),
                                held.line as int,
                                held.key,
                                held.score.scaled(),
                            );
                        } else {
                            lemma_first_reading(rows, i as int, key, statistic.scaled());
                        }
                    }
                    found = Some(
                        Detection { line: i, key, score: statistic, plaintext: decipher_attempt },
                    );
                } else {
                    proof {
                        let held = found.unwrap();
                        lemma_kept_reading(
                            rows,
                            i as int,
                            key,
                            Some(statistic.scaled()),
                            held.line as int,
                            held.key,
                            held.score.scaled(),
                        );
                    }
                }
            },
            None => {
                proof {
                    if found.is_some() {
                        let held = found.unwrap();
                        lemma_kept_reading(
                            rows,
                            i as int,
                            key,
                            None,
                            held.line as int,
                            held.key,
                            held.score.scaled(),
                        );
                    } else {
                        lemma_no_reading(rows, i as int, key);
                    }
                }
            },
        }
        i = i + 1;
    }
    Ok(found)
}

} // verus!
