use vstd::prelude::*;

verus! {

/// The symbol under which blanks and tabs are counted.
pub const SPACE_SYMBOL: u8 = 0x20;

/// The tab byte, which is counted as a blank.
pub const TAB: u8 = 0x09;

/// The symbol under which bytes that are neither letters, blanks, tabs nor
/// control bytes are counted.
pub const OTHER_SYMBOL: u8 = 0x2E;

/// The number of symbols: twenty-six letters, the blank with the tab, and
/// the rest.
pub const SYMBOL_COUNT: usize = 28;

/// An ASCII letter of either case.
pub open spec fn is_letter(byte: u8) -> bool {
    (0x41 <= byte && byte <= 0x5A) || (0x61 <= byte && byte <= 0x7A)
}

/// An ASCII control byte: below the blank, or DEL.
pub open spec fn is_control_byte(byte: u8) -> bool {
    byte < 0x20 || byte == 0x7F
}

/// The lower-case form of an ASCII letter; every other byte is unchanged.
pub open spec fn folded(byte: u8) -> u8 {
    if 0x41 <= byte && byte <= 0x5A {
        (byte + 0x20) as u8
    } else {
        byte
    }
}

/// The symbol a byte is counted under. A blank and a tab count as
/// `SPACE_SYMBOL`. Every other control byte, the newline among them, carries
/// none. A letter counts as its lower-case form and every byte that is left
/// as `OTHER_SYMBOL`.
pub open spec fn symbol_of(byte: u8) -> Option<u8> {
    if byte == SPACE_SYMBOL || byte == TAB {
        Some(SPACE_SYMBOL)
    } else if is_control_byte(byte) {
        None
    } else if is_letter(byte) {
        Some(folded(byte))
    } else {
        Some(OTHER_SYMBOL)
    }
}

/// Blank and tab are one class: a tab is counted under the blank's symbol,
/// although it is a control byte.
pub proof fn lemma_tab_counts_as_blank()
    ensures
        is_control_byte(TAB),
        symbol_of(TAB) == Some(SPACE_SYMBOL),
        symbol_of(SPACE_SYMBOL) == Some(SPACE_SYMBOL),
        forall|byte: u8| is_control_byte(byte) && byte != TAB ==> symbol_of(byte).is_none(),
{
}

/// The bytes that stand for a class of characters.
pub open spec fn is_symbol(symbol: u8) -> bool {
    (0x61 <= symbol && symbol <= 0x7A) || symbol == SPACE_SYMBOL || symbol == OTHER_SYMBOL
}

/// The position of a symbol in the fixed order: letters first, then the
/// blank, then the rest.
pub open spec fn symbol_index(symbol: u8) -> int {
    if symbol == SPACE_SYMBOL {
        26
    } else if symbol == OTHER_SYMBOL {
        27
    } else {
        symbol - 0x61
    }
}

/// The symbol at a position of the fixed order.
pub open spec fn symbol_at(index: int) -> u8 {
    if index == 26 {
        SPACE_SYMBOL
    } else if index == 27 {
        OTHER_SYMBOL
    } else {
        (0x61 + index) as u8
    }
}

/// How many bytes of `stream` are counted under `symbol`.
pub open spec fn symbol_count(stream: Seq<u8>, symbol: u8) -> nat
    decreases stream.len(),
{
    if stream.len() == 0 {
        0
    } else {
        symbol_count(stream.drop_last(), symbol) + (if symbol_of(stream.last()) == Some(symbol) {
            1nat
        } else {
            0nat
        })
    }
}

/// The symbols that occur in `stream`, each with the number of bytes counted
/// under it.
pub open spec fn observed_counts(stream: Seq<u8>) -> Map<u8, nat> {
    Map::new(|symbol: u8| symbol_count(stream, symbol) > 0, |symbol: u8| symbol_count(stream, symbol))
}

/// No symbol is counted more often than the stream has bytes, and only
/// symbols are counted at all.
pub proof fn lemma_symbol_count_bound(stream: Seq<u8>, symbol: u8)
    ensures
        symbol_count(stream, symbol) <= stream.len(),
        !is_symbol(symbol) ==> symbol_count(stream, symbol) == 0,
    decreases stream.len(),
{
    if stream.len() > 0 {
        lemma_symbol_count_bound(stream.drop_last(), symbol);
    }
}

/// Whether `byte` is an ASCII letter.
pub fn is_alphabetic(byte: u8) -> (yes: bool)
    ensures
        yes == is_letter(byte),
{
    (byte >= 0x41 && byte <= 0x5A) || (byte >= 0x61 && byte <= 0x7A)
}

/// Whether `u` is an ASCII control byte.
pub fn is_control(u: u8) -> (yes: bool)
    ensures
        yes == is_control_byte(u),
{
    u < 0x20 || u == 0x7F
}

/// The symbol that `byte` is counted under, if it is counted.
pub fn classify(byte: u8) -> (symbol: Option<u8>)
    ensures
        symbol == symbol_of(byte),
        symbol.is_some() ==> is_symbol(symbol.unwrap()),
{
    if byte == SPACE_SYMBOL || byte == TAB {
        Some(SPACE_SYMBOL)
    } else if is_control(byte) {
        None
    } else if is_alphabetic(byte) {
        if byte <= 0x5A {
            Some(byte + 0x20)
        } else {
            Some(byte)
        }
    } else {
        Some(OTHER_SYMBOL)
    }
}

/// How often each symbol occurs in a stream of bytes.
pub struct CharacterCounts {
    table: Vec<usize>,
}

impl CharacterCounts {
    #[verifier::type_invariant]
    spec fn well_formed(&self) -> bool {
        self.table@.len() == SYMBOL_COUNT
    }

    /// The number recorded for `symbol`; zero for a byte that is no symbol.
    pub closed spec fn count(&self, symbol: u8) -> nat {
        if is_symbol(symbol) && self.table@.len() == SYMBOL_COUNT {
            self.table@[symbol_index(symbol)] as nat
        } else {
            0
        }
    }

    /// The number of bytes counted under `symbol`.
    pub fn get(&self, symbol: u8) -> (n: usize)
        ensures
            n == self.count(symbol),
            n == (if self@.contains_key(symbol) {
                self@[symbol]
            } else {
                0
            }),
    {
        proof {
            use_type_invariant(self);
        }
        if symbol == SPACE_SYMBOL {
            self.table[26]
        } else if symbol == OTHER_SYMBOL {
            self.table[27]
        } else if symbol >= 0x61 && symbol <= 0x7A {
            self.table[(symbol - 0x61) as usize]
        } else {
            0
        }
    }
}

impl View for CharacterCounts {
    type V = Map<u8, nat>;

    /// The symbols that were seen at least once, with their counts.
    closed spec fn view(&self) -> Map<u8, nat> {
        Map::new(|symbol: u8| self.count(symbol) > 0, |symbol: u8| self.count(symbol))
    }
}

/// Counts the symbols of `ciphertext`. A tab is counted as a blank; every
/// other control byte is passed over.
pub fn get_character_counts(ciphertext: &[u8]) -> (counts: CharacterCounts)
    ensures
        counts@ == observed_counts(ciphertext@),
        forall|symbol: u8| counts.count(symbol) == symbol_count(ciphertext@, symbol),
{
    let mut table: Vec<usize> = Vec::new();
    let mut n: usize = 0;
    while n < SYMBOL_COUNT
        invariant
            n <= SYMBOL_COUNT,
            table@.len() == n,
            forall|j: int| 0 <= j < n ==> table@[j] == 0,
        decreases SYMBOL_COUNT - n,
    {
        table.push(0);
        n = n + 1;
    }
    let mut i: usize = 0;
    while i < ciphertext.len()
        invariant
            i <= ciphertext@.len(),
            table@.len() == SYMBOL_COUNT,
            forall|j: int|
                0 <= j < SYMBOL_COUNT ==> table@[j] == #[trigger] symbol_count(
                    ciphertext@.take(i as int),
                    symbol_at(j),
                ),
        decreases ciphertext@.len() - i,
    {
        let byte: u8 = ciphertext[i];
        let ghost before = ciphertext@.take(i as int);
        let ghost after = ciphertext@.take(i + 1);
        proof {
            assert(after.drop_last() =~= before);
        }
        match classify(byte) {
            Some(symbol) => {
                let index: usize = if symbol == SPACE_SYMBOL {
                    26
                } else if symbol == OTHER_SYMBOL {
                    27
                } else {
                    (symbol - 0x61) as usize
                };
                proof {
                    assert(symbol_at(index as int) == symbol);
                    lemma_symbol_count_bound(before, symbol);
                }
                let seen: usize = table[index];
                table.set(index, seen + 1);
                proof {
                    assert forall|j: int| 0 <= j < SYMBOL_COUNT implies table@[j]
                        == #[trigger] symbol_count(after, symbol_at(j)) by {
                        assert(symbol_count(before, symbol_at(j)) == symbol_count(
                            ciphertext@.take(i as int),
                            symbol_at(j),
                        ));
                    }
                }
            },
            None => {
                proof {
                    assert forall|j: int| 0 <= j < SYMBOL_COUNT implies table@[j]
                        == #[trigger] symbol_count(after, symbol_at(j)) by {
                        assert(symbol_count(before, symbol_at(j)) == symbol_count(
                            ciphertext@.take(i as int),
                            symbol_at(j),
                        ));
                    }
                }
            },
        }
        i = i + 1;
    }
    let counts = CharacterCounts { table };
    proof {
        assert(ciphertext@.take(ciphertext@.len() as int) =~= ciphertext@);
        assert forall|symbol: u8| counts.count(symbol) == symbol_count(ciphertext@, symbol) by {
            lemma_symbol_count_bound(ciphertext@, symbol);
            if is_symbol(symbol) {
                assert(symbol_at(symbol_index(symbol)) == symbol);
            }
        }
    }
    counts
}

} // verus!
