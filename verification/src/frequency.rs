use vstd::prelude::*;
use vstd::arithmetic::div_mod::{
    lemma_div_denominator, lemma_div_multiples_vanish_fancy, lemma_fundamental_div_mod,
    lemma_mod_bound,
};
use crate::ratio::fraction_below;
use crate::text::{
    get_character_counts, is_control, is_control_byte, is_symbol, lemma_symbol_count_bound,
    symbol_at, symbol_count, CharacterCounts, OTHER_SYMBOL, SPACE_SYMBOL, SYMBOL_COUNT,
};

verus! {

/// Expected frequencies are given in parts of this many.
pub const FREQUENCY_PARTS: u32 = 10000;

/// The least common multiple of the expected frequencies of all symbols.
pub const FREQUENCY_LCM: u128 = 307147649555698222896424800;

/// The longest stream that is scored.
pub const MAX_STREAM_LEN: usize = 0xFFFF_FFFF;

/// The newline byte, the one control byte that text may hold.
pub const NEWLINE: u8 = 0x0A;

/// How often a symbol is expected in English text, in parts of ten thousand
/// (Lee, "Essays about Computer Security", p. 181). Zero for a byte that is
/// no symbol.
pub open spec fn frequency_of(symbol: u8) -> nat {
    match symbol {
        0x20u8 => 1217,
        0x2Eu8 => 657,
        0x61u8 => 609,
        0x62u8 => 105,
        0x63u8 => 284,
        0x64u8 => 292,
        0x65u8 => 1136,
        0x66u8 => 179,
        0x67u8 => 138,
        0x68u8 => 341,
        0x69u8 => 544,
        0x6Au8 => 24,
        0x6Bu8 => 41,
        0x6Cu8 => 292,
        0x6Du8 => 276,
        0x6Eu8 => 544,
        0x6Fu8 => 600,
        0x70u8 => 195,
        0x71u8 => 24,
        0x72u8 => 495,
        0x73u8 => 568,
        0x74u8 => 803,
        0x75u8 => 243,
        0x76u8 => 97,
        0x77u8 => 138,
        0x78u8 => 24,
        0x79u8 => 130,
        0x7Au8 => 3,
        _ => 0,
    }
}

/// The contribution of one symbol to the scaled chi-squared statistic.
///
/// With `expected = frequency / 10000 * length`, a symbol contributes
/// `(observed - expected)^2 / expected` to the statistic, which is
/// `deviation^2 / (10000 * frequency * length)` for
/// `deviation = 10000 * observed - frequency * length`. Multiplied by
/// `10000 * FREQUENCY_LCM * length` this is the whole number
/// `deviation^2 * (FREQUENCY_LCM / frequency)`. A symbol that does not occur
/// contributes nothing.
pub open spec fn chi_term(observed: nat, frequency: nat, length: nat) -> nat {
    if observed == 0 || frequency == 0 {
        0
    } else {
        let deviation: int = FREQUENCY_PARTS * observed - frequency * length;
        ((deviation * deviation) * (FREQUENCY_LCM as int / frequency as int)) as nat
    }
}

/// The contributions of the first `upto` symbols of the fixed order.
pub open spec fn chi_squared_upto(stream: Seq<u8>, upto: nat) -> nat
    decreases upto,
{
    if upto == 0 {
        0
    } else {
        let symbol = symbol_at(upto - 1);
        chi_squared_upto(stream, (upto - 1) as nat) + chi_term(
            symbol_count(stream, symbol),
            frequency_of(symbol),
            stream.len(),
        )
    }
}

/// The chi-squared statistic of a stream against the expected frequencies,
/// multiplied by `10000 * FREQUENCY_LCM` and by the length of the stream:
/// the sum of `chi_term` over the symbols that occur in it. The factor makes
/// the statistic a whole number, so that nothing is rounded.
pub open spec fn chi_squared_scaled(stream: Seq<u8>) -> nat {
    chi_squared_upto(stream, SYMBOL_COUNT as nat)
}

/// A length as a divisor: the length itself, and one for the empty stream,
/// whose statistic is zero.
pub open spec fn divisor_of(length: nat) -> nat {
    if length == 0 {
        1
    } else {
        length
    }
}

/// Whether a stream of length `length` with scaled statistic `scaled` has a
/// strictly lower chi-squared statistic than another stream.
pub open spec fn statistic_below(
    scaled: nat,
    length: nat,
    other_scaled: nat,
    other_length: nat,
) -> bool {
    fraction_below(scaled, divisor_of(length), other_scaled, divisor_of(other_length))
}

/// The chi-squared statistic in millionths, rounded down.
pub open spec fn millionths_of(scaled: nat, length: nat) -> nat {
    ((100 * scaled) as int / ((FREQUENCY_LCM * divisor_of(length)) as int)) as nat
}

/// A byte that text may hold: ASCII, and no control byte but the newline.
pub open spec fn is_text_byte(byte: u8) -> bool {
    byte < 0x80 && (!is_control_byte(byte) || byte == NEWLINE)
}

/// Every byte of the stream is one that text may hold.
pub open spec fn is_text(stream: Seq<u8>) -> bool {
    forall|i: int| 0 <= i < stream.len() ==> is_text_byte(#[trigger] stream[i])
}

/// The fitness of a stream as English text. `None` is the worst score and
/// stands for a stream that is no text at all; the others have their scaled
/// chi-squared statistic, and among streams of one length a lower one is a
/// closer fit.
pub open spec fn score_of(stream: Seq<u8>) -> Option<nat> {
    if is_text(stream) {
        Some(chi_squared_scaled(stream))
    } else {
        None
    }
}

/// Whether score `a` is a strictly closer fit than score `b`, for the scores
/// of two streams of one length.
pub open spec fn closer_fit(a: Option<nat>, b: Option<nat>) -> bool {
    a.is_some() && (b.is_none() || a.unwrap() < b.unwrap())
}

/// Whether score `a`, of a stream of length `length`, is a strictly closer
/// fit than score `b`, of a stream of length `other_length`.
pub open spec fn closer_reading(
    a: Option<nat>,
    length: nat,
    b: Option<nat>,
    other_length: nat,
) -> bool {
    a.is_some() && (b.is_none() || statistic_below(a.unwrap(), length, b.unwrap(), other_length))
}

/// The largest square of a deviation in a stream that is short enough to
/// be scored.
pub open spec fn deviation_limit() -> nat {
    ((FREQUENCY_PARTS * MAX_STREAM_LEN) * (FREQUENCY_PARTS * MAX_STREAM_LEN)) as nat
}

/// The expected frequency of every symbol is positive, at most ten thousand
/// parts, and divides `FREQUENCY_LCM`.
pub proof fn lemma_frequency_range(symbol: u8)
    ensures
        frequency_of(symbol) <= FREQUENCY_PARTS,
        is_symbol(symbol) <==> frequency_of(symbol) > 0,
        frequency_of(symbol) > 0 ==> frequency_of(symbol) * (FREQUENCY_LCM as int / frequency_of(
            symbol,
        ) as int) == FREQUENCY_LCM,
{
}

/// Scores of streams of one length compare as their scaled statistics do.
pub proof fn lemma_closer_reading_same_length(a: Option<nat>, b: Option<nat>, length: nat)
    ensures
        closer_reading(a, length, b, length) <==> closer_fit(a, b),
{
    if a.is_some() && b.is_some() {
        crate::ratio::lemma_fraction_below_same_denominator(
            a.unwrap(),
            b.unwrap(),
            divisor_of(length),
        );
    }
}

/// An exact chi-squared statistic of a stream of bytes.
#[derive(Clone, Copy, Debug, PartialEq, Eq)]
pub struct ChiSquared {
    whole: u128,
    part: u128,
    length: usize,
}

impl ChiSquared {
    #[verifier::type_invariant]
    spec fn well_formed(&self) -> bool {
        &&& self.part < FREQUENCY_LCM
        &&& self.length <= MAX_STREAM_LEN
        &&& self.whole <= SYMBOL_COUNT * (deviation_limit() + 1)
    }

    /// The statistic multiplied by `10000 * FREQUENCY_LCM` and by the length
    /// of the stream.
    pub closed spec fn scaled(&self) -> nat {
        (self.whole * FREQUENCY_LCM + self.part) as nat
    }

    /// The length of the stream.
    pub closed spec fn length(&self) -> nat {
        self.length as nat
    }

    /// Whether this statistic is strictly lower than `other`. The two are
    /// compared exactly, whatever the lengths of their streams.
    pub fn is_below(&self, other: &ChiSquared) -> (yes: bool)
        ensures
            yes == statistic_below(self.scaled(), self.length(), other.scaled(), other.length()),
    {
        proof {
            use_type_invariant(self);
            use_type_invariant(other);
        }
        let own: u128 = if self.length == 0 {
            1
        } else {
            self.length as u128
        };
        let their: u128 = if other.length == 0 {
            1
        } else {
            other.length as u128
        };
        let ghost lcm: int = FREQUENCY_LCM as int;
        proof {
            lemma_cross_product_fits(self.whole as int, self.part as int, their as int);
            lemma_cross_product_fits(other.whole as int, other.part as int, own as int);
        }
        let left_spill: u128 = self.part * their;
        let right_spill: u128 = other.part * own;
        let left_whole: u128 = self.whole * their + left_spill / FREQUENCY_LCM;
        let left_part: u128 = left_spill % FREQUENCY_LCM;
        let right_whole: u128 = other.whole * own + right_spill / FREQUENCY_LCM;
        let right_part: u128 = right_spill % FREQUENCY_LCM;
        proof {
            let left: int = self.scaled() * their;
            let right: int = other.scaled() * own;
            lemma_fundamental_div_mod(left_spill as int, lcm);
            lemma_fundamental_div_mod(right_spill as int, lcm);
            lemma_mod_bound(left_spill as int, lcm);
            lemma_mod_bound(right_spill as int, lcm);
            let left_carry: int = left_spill as int / lcm;
            let right_carry: int = right_spill as int / lcm;
            assert(left == left_whole * lcm + left_part) by (nonlinear_arith)
                requires
                    left == (self.whole * lcm + self.part) * their,
                    left_spill == self.part * their,
                    left_whole == self.whole * their + left_carry,
                    left_spill == lcm * left_carry + left_part,
            ;
            assert(right == right_whole * lcm + right_part) by (nonlinear_arith)
                requires
                    right == (other.whole * lcm + other.part) * own,
                    right_spill == other.part * own,
                    right_whole == other.whole * own + right_carry,
                    right_spill == lcm * right_carry + right_part,
            ;
            lemma_two_part_order(
                left_whole as int,
                left_part as int,
                right_whole as int,
                right_part as int,
                lcm,
            );
        }
        left_whole < right_whole || (left_whole == right_whole && left_part < right_part)
    }

    /// The statistic in millionths, rounded down.
    pub fn millionths(&self) -> (value: u128)
        ensures
            value == millionths_of(self.scaled(), self.length()),
    {
        proof {
            use_type_invariant(self);
        }
        let divisor: u128 = if self.length == 0 {
            1
        } else {
            self.length as u128
        };
        let ghost lcm: int = FREQUENCY_LCM as int;
        proof {
            lemma_cross_product_fits(self.whole as int, self.part as int, 100);
            let spill: int = 100 * self.part;
            lemma_fundamental_div_mod(spill, lcm);
            lemma_mod_bound(spill, lcm);
            let carried: int = 100 * self.whole + spill / lcm;
            assert(100 * self.scaled() == lcm * carried + spill % lcm) by (nonlinear_arith)
                requires
                    self.scaled() == self.whole * lcm + self.part,
                    spill == 100 * self.part,
                    spill == lcm * (spill / lcm) + spill % lcm,
                    carried == 100 * self.whole + spill / lcm,
            ;
            lemma_div_multiples_vanish_fancy(carried, spill % lcm, lcm);
            lemma_div_denominator((100 * self.scaled()) as int, lcm, divisor as int);
        }
        (100 * self.whole + (100 * self.part) / FREQUENCY_LCM) / divisor
    }
}

/// The two parts of a statistic, each multiplied by a factor of at most
/// `MAX_STREAM_LEN`, fit into 128 bits, and so does what the lower part
/// carries into the higher.
proof fn lemma_cross_product_fits(whole: int, part: int, factor: int)
    requires
        0 <= whole <= SYMBOL_COUNT * (deviation_limit() + 1),
        0 <= part < FREQUENCY_LCM,
        0 <= factor <= MAX_STREAM_LEN,
    ensures
        0 <= part * factor <= 0xFFFF_FFFF * FREQUENCY_LCM,
        0 <= whole * factor <= 0xFFFF_FFFF * (28 * (deviation_limit() + 1)),
        part * factor / (FREQUENCY_LCM as int) <= 0xFFFF_FFFF,
        0xFFFF_FFFF * (28 * (deviation_limit() + 1)) + 0xFFFF_FFFF < u128::MAX,
        0xFFFF_FFFF * FREQUENCY_LCM < u128::MAX,
{
    let lcm: int = FREQUENCY_LCM as int;
    let limit: int = 28 * (deviation_limit() + 1) as int;
    assert((10000 * 0xFFFF_FFFF) * (10000 * 0xFFFF_FFFF) == 1844674406511961702500000000int)
        by (nonlinear_arith);
    assert(0 <= part * factor <= 0xFFFF_FFFF * lcm) by (nonlinear_arith)
        requires
            0 <= part < lcm,
            0 <= factor <= 0xFFFF_FFFF,
    ;
    assert(0 <= whole * factor <= 0xFFFF_FFFF * limit) by (nonlinear_arith)
        requires
            0 <= whole <= limit,
            0 <= factor <= 0xFFFF_FFFF,
    ;
    let spill = part * factor;
    lemma_fundamental_div_mod(spill, lcm);
    lemma_mod_bound(spill, lcm);
    assert(spill / lcm <= 0xFFFF_FFFF) by (nonlinear_arith)
        requires
            spill == lcm * (spill / lcm) + spill % lcm,
            0 <= spill % lcm,
            spill <= 0xFFFF_FFFF * lcm,
            lcm > 0,
    ;
}

/// Numbers of two parts, the lower ones below `unit`, compare part by part.
proof fn lemma_two_part_order(whole: int, part: int, other_whole: int, other_part: int, unit: int)
    requires
        0 <= part < unit,
        0 <= other_part < unit,
    ensures
        whole * unit + part < other_whole * unit + other_part <==> (whole < other_whole || (whole
            == other_whole && part < other_part)),
{
    if whole < other_whole {
        assert(whole * unit + unit <= other_whole * unit) by (nonlinear_arith)
            requires
                whole + 1 <= other_whole,
                unit > 0,
        ;
    } else if whole > other_whole {
        assert(other_whole * unit + unit <= whole * unit) by (nonlinear_arith)
            requires
                other_whole + 1 <= whole,
                unit > 0,
        ;
    }
}

/// The expected frequency of `symbol`, in parts of ten thousand.
pub fn expected_frequency(symbol: u8) -> (parts: u32)
    ensures
        parts == frequency_of(symbol),
        parts <= FREQUENCY_PARTS,
{
    match symbol {
        0x20u8 => 1217,
        0x2Eu8 => 657,
        0x61u8 => 609,
        0x62u8 => 105,
        0x63u8 => 284,
        0x64u8 => 292,
        0x65u8 => 1136,
        0x66u8 => 179,
        0x67u8 => 138,
        0x68u8 => 341,
        0x69u8 => 544,
        0x6Au8 => 24,
        0x6Bu8 => 41,
        0x6Cu8 => 292,
        0x6Du8 => 276,
        0x6Eu8 => 544,
        0x6Fu8 => 600,
        0x70u8 => 195,
        0x71u8 => 24,
        0x72u8 => 495,
        0x73u8 => 568,
        0x74u8 => 803,
        0x75u8 => 243,
        0x76u8 => 97,
        0x77u8 => 138,
        0x78u8 => 24,
        0x79u8 => 130,
        0x7Au8 => 3,
        _ => 0,
    }
}

/// One symbol's contribution to the scaled statistic, as the number of
/// whole `FREQUENCY_LCM` in it and the rest.
fn scaled_term(observed: usize, symbol: u8, length: usize) -> (term: (u128, u128))
    requires
        observed <= length,
        length <= MAX_STREAM_LEN,
    ensures
        term.0 * FREQUENCY_LCM + term.1 == chi_term(
            observed as nat,
            frequency_of(symbol),
            length as nat,
        ),
        term.0 <= deviation_limit(),
        term.1 < FREQUENCY_LCM,
{
    let frequency: u32 = expected_frequency(symbol);
    if observed == 0 || frequency == 0 {
        return (0, 0);
    }
    let ghost limit: int = FREQUENCY_PARTS * MAX_STREAM_LEN;
    let ghost lcm: int = FREQUENCY_LCM as int;
    proof {
        lemma_frequency_range(symbol);
        assert(0 <= frequency * length <= limit) by (nonlinear_arith)
            requires
                1 <= frequency <= 10000,
                0 <= length <= 0xFFFF_FFFF,
                limit == 10000 * 0xFFFF_FFFF,
        ;
    }
    let seen: u128 = 10000 * (observed as u128);
    let expected: u128 = (frequency as u128) * (length as u128);
    let gap: u128 = if seen >= expected {
        seen - expected
    } else {
        expected - seen
    };
    let ghost deviation: int = FREQUENCY_PARTS * observed - frequency * length;
    proof {
        assert(gap * gap == deviation * deviation) by (nonlinear_arith)
            requires
                gap == deviation || gap == -deviation,
        ;
        assert(0 <= gap * gap <= limit * limit) by (nonlinear_arith)
            requires
                0 <= gap <= limit,
        ;
        assert(limit * limit == 1844674406511961702500000000int) by (nonlinear_arith)
            requires
                limit == 10000 * 0xFFFF_FFFF,
        ;
    }
    let square: u128 = gap * gap;
    let share: u128 = FREQUENCY_LCM / (frequency as u128);
    let whole: u128 = square / (frequency as u128);
    let rest: u128 = square % (frequency as u128);
    proof {
        let f: int = frequency as int;
        lemma_fundamental_div_mod(square as int, f);
        lemma_mod_bound(square as int, f);
        assert(share > 0) by (nonlinear_arith)
            requires
                f * share == lcm,
                lcm > 0,
                f > 0,
        ;
        assert(rest * share < lcm && rest * share >= 0) by (nonlinear_arith)
            requires
                0 <= rest,
                rest + 1 <= f,
                f * share == lcm,
                share > 0,
        ;
        assert(square * share == whole * lcm + rest * share) by (nonlinear_arith)
            requires
                square == f * whole + rest,
                f * share == lcm,
        ;
        assert(whole <= square) by (nonlinear_arith)
            requires
                square == f * whole + rest,
                f >= 1,
                rest >= 0,
                whole >= 0,
        ;
    }
    (whole, rest * share)
}

/// The chi-squared statistic of `ciphertext` against the expected
/// frequencies, exactly.
pub fn chi_squared_test(ciphertext: &[u8]) -> (statistic: ChiSquared)
    requires
        ciphertext@.len() <= MAX_STREAM_LEN,
    ensures
        statistic.scaled() == chi_squared_scaled(ciphertext@),
        statistic.length() == ciphertext@.len(),
{
    let counts: CharacterCounts = get_character_counts(ciphertext);
    let length: usize = ciphertext.len();
    let mut whole: u128 = 0;
    let mut part: u128 = 0;
    let mut index: usize = 0;
    let ghost lcm: int = FREQUENCY_LCM as int;
    while index < SYMBOL_COUNT
        invariant
            index <= SYMBOL_COUNT,
            length == ciphertext@.len(),
            length <= MAX_STREAM_LEN,
            lcm == FREQUENCY_LCM,
            forall|symbol: u8| counts.count(symbol) == symbol_count(ciphertext@, symbol),
            whole * lcm + part == chi_squared_upto(ciphertext@, index as nat),
            part < lcm,
            whole <= index * (deviation_limit() + 1),
        decreases SYMBOL_COUNT - index,
    {
        let symbol: u8 = symbol_for(index);
        let observed: usize = counts.get(symbol);
        proof {
            lemma_symbol_count_bound(ciphertext@, symbol);
        }
        let term: (u128, u128) = scaled_term(observed, symbol, length);
        proof {
            let limit: int = (deviation_limit() + 1) as int;
            assert((10000 * 0xFFFF_FFFF) * (10000 * 0xFFFF_FFFF) == 1844674406511961702500000000int)
                by (nonlinear_arith);
            assert((index + 1) * limit == index * limit + limit && index * limit <= 27 * limit)
                by (nonlinear_arith)
                requires
                    0 <= index <= 27,
                    0 <= limit,
            ;
            assert((whole + term.0) * lcm + (part + term.1) == (whole * lcm + part) + (term.0 * lcm
                + term.1) && (whole + term.0 + 1) * lcm + (part + term.1 - lcm) == (whole * lcm
                + part) + (term.0 * lcm + term.1)) by (nonlinear_arith);
        }
        let sum: u128 = part + term.1;
        if sum >= FREQUENCY_LCM {
            whole = whole + term.0 + 1;
            part = sum - FREQUENCY_LCM;
        } else {
            whole = whole + term.0;
            part = sum;
        }
        index = index + 1;
    }
    ChiSquared { whole, part, length }
}

/// The symbol at a position of the fixed order.
pub fn symbol_for(index: usize) -> (symbol: u8)
    requires
        index < SYMBOL_COUNT,
    ensures
        symbol == symbol_at(index as int),
        is_symbol(symbol),
{
    if index == 26 {
        SPACE_SYMBOL
    } else if index == 27 {
        OTHER_SYMBOL
    } else {
        0x61 + (index as u8)
    }
}

/// The score of a stream as it is computed, in the terms of the model.
pub open spec fn model_of(score: Option<ChiSquared>) -> Option<nat> {
    match score {
        Some(statistic) => Some(statistic.scaled()),
        None => None,
    }
}

/// Scores `ciphertext` as English text.
///
/// A stream that holds a byte outside ASCII, or a control byte other than
/// the newline, is no text and gets `None`, the worst score. Any other
/// stream gets its chi-squared statistic; lower is better.
pub fn calculate_score(ciphertext: &[u8]) -> (score: Option<ChiSquared>)
    requires
        ciphertext@.len() <= MAX_STREAM_LEN,
    ensures
        model_of(score) == score_of(ciphertext@),
        score.is_some() ==> score.unwrap().length() == ciphertext@.len(),
{
    let mut i: usize = 0;
    while i < ciphertext.len()
        invariant
            i <= ciphertext@.len(),
            forall|j: int| 0 <= j < i ==> is_text_byte(#[trigger] ciphertext@[j]),
        decreases ciphertext@.len() - i,
    {
        let byte: u8 = ciphertext[i];
        if byte >= 0x80 || (is_control(byte) && byte != NEWLINE) {
            return None;
        }
        i = i + 1;
    }
    Some(chi_squared_test(ciphertext))
}

} // verus!
