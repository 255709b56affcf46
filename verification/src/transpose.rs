use vstd::prelude::*;
use vstd::arithmetic::div_mod::{
    lemma_fundamental_div_mod, lemma_fundamental_div_mod_converse, lemma_mod_bound,
};

verus! {

/// The number of positions `index, index + keysize, index + 2 * keysize, ..`
/// that lie below `length`.
pub open spec fn column_len(length: nat, keysize: nat, index: nat) -> nat {
    if keysize == 0 || index >= length {
        0
    } else {
        ((length - 1 - index) / (keysize as int) + 1) as nat
    }
}

/// Column `index` of `message` for key length `keysize`: the bytes at the
/// positions `index, index + keysize, index + 2 * keysize, ..`, in order.
pub open spec fn column(message: Seq<u8>, keysize: nat, index: nat) -> Seq<u8> {
    Seq::new(
        column_len(message.len(), keysize, index),
        |row: int| message[index + row * keysize],
    )
}

/// The `keysize` columns of `message`, in position order.
pub open spec fn transposed(message: Seq<u8>, keysize: nat) -> Seq<Seq<u8>> {
    Seq::new(keysize, |index: int| column(message, keysize, index as nat))
}

/// The first position, from `position` on, at which the columns read row
/// by row have no byte.
pub open spec fn first_gap(columns: Seq<Seq<u8>>, position: nat) -> nat
    recommends
        columns.len() > 0,
    decreases columns.len() * columns[0].len() - position,
{
    let width = columns.len() as int;
    if width == 0 || position >= columns.len() * columns[0].len() || (position as int) / width
        >= columns[(position as int) % width].len() {
        position
    } else {
        first_gap(columns, position + 1)
    }
}

/// The columns read row by row, one byte of each column in turn, up to the
/// first byte that is missing.
pub open spec fn interleaved(columns: Seq<Seq<u8>>) -> Seq<u8> {
    Seq::new(
        first_gap(columns, 0),
        |position: int|
            columns[position % (columns.len() as int)][position / (columns.len() as int)],
    )
}

/// The view of a vector of byte vectors as a sequence of sequences.
pub open spec fn rows_of(columns: Seq<Vec<u8>>) -> Seq<Seq<u8>> {
    Seq::new(columns.len(), |index: int| columns[index]@)
}

/// Position `position` of a message lies in column `position % keysize`, at
/// row `position / keysize`, and the column holds that byte there.
pub proof fn lemma_position_in_column(message: Seq<u8>, keysize: nat, position: nat)
    requires
        keysize > 0,
        position < message.len(),
    ensures
        position / keysize < column_len(message.len(), keysize, position % keysize),
        column(message, keysize, position % keysize)[(position / keysize) as int]
            == message[position as int],
{
    let k = keysize as int;
    let p = position as int;
    let n = message.len() as int;
    lemma_fundamental_div_mod(p, k);
    lemma_mod_bound(p, k);
    let row = p / k;
    let index = p % k;
    assert(k * row == row * k) by (nonlinear_arith);
    assert(0 <= row) by (nonlinear_arith)
        requires
            0 <= p,
            0 < k,
            row == p / k,
    ;
    // row * k <= n - 1 - index, so row <= (n - 1 - index) / k
    let rest = n - 1 - index;
    lemma_fundamental_div_mod(rest, k);
    lemma_mod_bound(rest, k);
    assert(row <= rest / k) by (nonlinear_arith)
        requires
            row * k <= rest,
            rest == k * (rest / k) + rest % k,
            0 <= rest % k < k,
            0 < k,
    ;
}

/// Every byte of a message lies in exactly one column: a position of a
/// column is a position of the message, and two different places in the
/// columns are two different positions.
pub proof fn lemma_column_positions(length: nat, keysize: nat, index: nat, row: nat)
    requires
        keysize > 0,
        index < keysize,
        row < column_len(length, keysize, index),
    ensures
        index + row * keysize < length,
        ((index + row * keysize) as int) % (keysize as int) == index,
        ((index + row * keysize) as int) / (keysize as int) == row,
{
    let k = keysize as int;
    let rest = length - 1 - index;
    lemma_fundamental_div_mod(rest, k);
    lemma_mod_bound(rest, k);
    assert(row * k <= rest) by (nonlinear_arith)
        requires
            row <= rest / k,
            rest == k * (rest / k) + rest % k,
            0 <= rest % k,
            0 < k,
            0 <= row,
    ;
    lemma_fundamental_div_mod_converse(index + row * k, k, row as int, index as int);
}

/// The first `length % keysize` columns are one byte longer than the rest.
pub proof fn lemma_column_len(length: nat, keysize: nat, index: nat)
    requires
        keysize > 0,
        index < keysize,
    ensures
        column_len(length, keysize, index) == length / keysize + (if index < length % keysize {
            1nat
        } else {
            0nat
        }),
{
    let k = keysize as int;
    let n = length as int;
    lemma_fundamental_div_mod(n, k);
    lemma_mod_bound(n, k);
    let q = n / k;
    let r = n % k;
    assert(k * q == q * k) by (nonlinear_arith);
    assert(0 <= q) by (nonlinear_arith)
        requires
            0 <= n,
            0 < k,
            q == n / k,
    ;
    if index < n {
        if index < r {
            // n - 1 - index == q * k + (r - 1 - index)
            lemma_fundamental_div_mod_converse(n - 1 - index, k, q, r - 1 - index);
        } else {
            // n - 1 - index == (q - 1) * k + (k + r - 1 - index)
            assert((q - 1) * k == q * k - k) by (nonlinear_arith);
            assert(q >= 1);
            lemma_fundamental_div_mod_converse(n - 1 - index, k, q - 1, k + r - 1 - index);
        }
    } else {
        assert(q == 0) by {
            if q >= 1 {
                assert(q * k >= k) by (nonlinear_arith)
                    requires
                        q >= 1,
                        k > 0,
                ;
            }
        }
    }
}

/// Reading the columns of a message row by row stops exactly at the end of
/// the message.
proof fn lemma_first_gap_of_transposed(message: Seq<u8>, keysize: nat, position: nat)
    requires
        keysize > 0,
        position <= message.len(),
    ensures
        first_gap(transposed(message, keysize), position) == message.len(),
    decreases message.len() - position,
{
    let columns = transposed(message, keysize);
    let k = keysize as int;
    let n = message.len();
    let p = position as int;
    lemma_mod_bound(p, k);
    lemma_fundamental_div_mod(p, k);
    lemma_column_len(n, keysize, 0);
    lemma_column_len(n, keysize, (p % k) as nat);
    lemma_fundamental_div_mod(n as int, k);
    lemma_mod_bound(n as int, k);
    if position < n {
        lemma_position_in_column(message, keysize, position);
        assert(columns[0].len() >= 1) by {
            lemma_position_in_column(message, keysize, 0);
        }
        // the first column is the longest
        assert(p < k * columns[0].len()) by (nonlinear_arith)
            requires
                p < n,
                n == k * (n as int / k) + n as int % k,
                0 <= n as int % k < k,
                columns[0].len() == n as int / k + (if 0 < n as int % k {
                    1int
                } else {
                    0int
                }),
                0 < k,
        ;
        lemma_first_gap_of_transposed(message, keysize, position + 1);
    }
}

/// Re-interleaving the columns of a message, in position order, gives the
/// message back.
pub proof fn lemma_interleave_transposed(message: Seq<u8>, keysize: nat)
    requires
        keysize > 0,
    ensures
        interleaved(transposed(message, keysize)) == message,
{
    let columns = transposed(message, keysize);
    lemma_first_gap_of_transposed(message, keysize, 0);
    assert forall|position: int| 0 <= position < message.len() implies #[trigger] interleaved(
        columns,
    )[position] == message[position] by {
        lemma_position_in_column(message, keysize, position as nat);
        lemma_mod_bound(position, keysize as int);
    }
}

/// Splits `encoded_message` into `keysize` columns: column `i` holds the
/// bytes at the positions `i, i + keysize, i + 2 * keysize, ..`.
pub fn transpose(encoded_message: &[u8], keysize: &u8) -> (columns: Vec<Vec<u8>>)
    ensures
        columns@.len() == *keysize,
        forall|index: int|
            0 <= index < *keysize ==> (#[trigger] columns@[index])@ == column(
                encoded_message@,
                *keysize as nat,
                index as nat,
            ),
        rows_of(columns@) == transposed(encoded_message@, *keysize as nat),
{
    let block: usize = *keysize as usize;
    let length: usize = encoded_message.len();
    let ghost message = encoded_message@;
    let mut columns: Vec<Vec<u8>> = Vec::new();
    let mut index: usize = 0;
    while index < block
        invariant
            index <= block,
            block == *keysize,
            length == message.len(),
            message == encoded_message@,
            columns@.len() == index,
            forall|c: int|
                0 <= c < index ==> (#[trigger] columns@[c])@ == column(
                    message,
                    block as nat,
                    c as nat,
                ),
        decreases block - index,
    {
        let mut one: Vec<u8> = Vec::new();
        if index < length {
            let mut position: usize = index;
            let mut more: bool = true;
            while more
                invariant
                    0 < block,
                    index < block,
                    length == message.len(),
                    message == encoded_message@,
                    more ==> position < length,
                    more ==> position == index + one@.len() * block,
                    one@.len() <= column_len(length as nat, block as nat, index as nat),
                    !more ==> one@.len() == column_len(length as nat, block as nat, index as nat),
                    forall|row: int|
                        0 <= row < one@.len() ==> one@[row] == message[index + row * block],
                decreases length - position + (if more { 1int } else { 0int }),
            {
                proof {
                    let rows = one@.len() as int;
                    lemma_rows_in_column(
                        length as int,
                        block as int,
                        index as int,
                        rows,
                    );
                }
                one.push(encoded_message[position]);
                if length - position > block {
                    proof {
                        assert((one@.len() as int) * block == (one@.len() - 1) * block + block)
                            by (nonlinear_arith);
                    }
                    position = position + block;
                } else {
                    more = false;
                }
            }
        }
        proof {
            assert(one@ =~= column(message, block as nat, index as nat));
        }
        columns.push(one);
        index = index + 1;
    }
    columns
}

/// With `rows` whole steps of `keysize` from `index` still inside `length`,
/// the column has more than `rows` bytes; it has exactly `rows + 1` when one
/// more step leaves the message.
proof fn lemma_rows_in_column(length: int, keysize: int, index: int, rows: int)
    requires
        0 < keysize,
        0 <= index < keysize,
        0 <= rows,
        index + rows * keysize < length,
    ensures
        rows < column_len(length as nat, keysize as nat, index as nat),
        length - (index + rows * keysize) <= keysize ==> column_len(
            length as nat,
            keysize as nat,
            index as nat,
        ) == rows + 1,
{
    let rest = length - 1 - index;
    lemma_fundamental_div_mod(rest, keysize);
    lemma_mod_bound(rest, keysize);
    assert(rows * keysize >= 0) by (nonlinear_arith)
        requires
            0 <= rows,
            0 < keysize,
    ;
    assert(rows <= rest / keysize) by (nonlinear_arith)
        requires
            rows * keysize <= rest,
            rest == keysize * (rest / keysize) + rest % keysize,
            0 <= rest % keysize < keysize,
            0 < keysize,
    ;
    if length - (index + rows * keysize) <= keysize {
        lemma_fundamental_div_mod_converse(rest, keysize, rows, rest - rows * keysize);
    }
}

/// Reads the columns row by row, one byte of each column in turn, and stops
/// at the first byte that is missing. This undoes `transpose`.
pub fn interleave(columns: &Vec<Vec<u8>>) -> (message: Vec<u8>)
    ensures
        message@ == interleaved(rows_of(columns@)),
{
    let width: usize = columns.len();
    let mut message: Vec<u8> = Vec::new();
    let ghost rows = rows_of(columns@);
    if width == 0 {
        return message;
    }
    let mut position: usize = 0;
    let mut row: usize = 0;
    let mut index: usize = 0;
    loop
        invariant
            rows == rows_of(columns@),
            width == columns@.len(),
            0 < width,
            position == message@.len(),
            index < width,
            position == row * width + index,
            index == position as int % width as int,
            row == position as int / width as int,
            first_gap(rows, 0) == first_gap(rows, position as nat),
            forall|p: int|
                0 <= p < position ==> message@[p] == rows[p % (width as int)][p / (width as int)],
        ensures
            first_gap(rows, position as nat) == position,
        decreases columns@.len() * columns@[0]@.len() - position,
    {
        if row >= columns[index].len() {
            break ;
        }
        if row >= columns[0].len() {
            proof {
                assert(position >= width * columns@[0]@.len()) by (nonlinear_arith)
                    requires
                        position == row * width + index,
                        row >= columns@[0]@.len(),
                        0 <= index,
                        0 < width,
                ;
            }
            break ;
        }
        proof {
            assert(position < width * columns@[0]@.len()) by (nonlinear_arith)
                requires
                    position == row * width + index,
                    row < columns@[0]@.len(),
                    index < width,
            ;
            assert((row + 1) * width == row * width + width) by (nonlinear_arith);
            if index + 1 == width {
                lemma_fundamental_div_mod_converse(position + 1, width as int, row + 1, 0);
            } else {
                lemma_fundamental_div_mod_converse(
                    position + 1,
                    width as int,
                    row as int,
                    index + 1,
                );
            }
        }
        message.push(columns[index][row]);
        position = message.len();
        if index + 1 == width {
            index = 0;
            row = row + 1;
        } else {
            index = index + 1;
        }
    }
    message
}

} // verus!
