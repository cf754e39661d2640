//! Transposition of a panel: rows become columns and columns become rows.

use vstd::prelude::*;
use crate::grid::SingleDisplayData;
use crate::grid::bit_of;
use crate::grid::lit;
use crate::grid::lemma_bit_of_range;
use crate::grid::lemma_byte_from_bits;

verus! {

/// Column `col` of the grid `g` as a byte, the top row in the most significant bit.
pub open spec fn column_byte(g: Seq<u8>, col: int) -> u8 {
    bit_of(g[0], col) << 7 | bit_of(g[1], col) << 6 | bit_of(g[2], col) << 5 | bit_of(g[3], col) << 4
        | bit_of(g[4], col) << 3 | bit_of(g[5], col) << 2 | bit_of(g[6], col) << 1 | bit_of(g[7], col)
}

/// The grid whose rows are the columns of `g`.
pub open spec fn transposed(g: Seq<u8>) -> Seq<u8> {
    Seq::new(8, |c: int| column_byte(g, c))
}

/// The top `n` rows of column `col`, packed into the low bits of a byte.
pub open spec fn column_prefix(g: Seq<u8>, col: int, n: nat) -> u8
    decreases n,
{
    if n == 0 {
        0
    } else {
        (column_prefix(g, col, (n - 1) as nat) << 1) | bit_of(g[n - 1], col)
    }
}

/// All eight rows of a column, packed one after the other, are the column's
/// byte.
proof fn lemma_column_prefix_full(g: Seq<u8>, col: int)
    ensures
        column_prefix(g, col, 8) == column_byte(g, col),
{
    reveal_with_fuel(column_prefix, 9);
    let b0 = bit_of(g[0], col);
    let b1 = bit_of(g[1], col);
    let b2 = bit_of(g[2], col);
    let b3 = bit_of(g[3], col);
    let b4 = bit_of(g[4], col);
    let b5 = bit_of(g[5], col);
    let b6 = bit_of(g[6], col);
    let b7 = bit_of(g[7], col);
    let acc1 = column_prefix(g, col, 1);
    let acc2 = column_prefix(g, col, 2);
    let acc3 = column_prefix(g, col, 3);
    let acc4 = column_prefix(g, col, 4);
    let acc5 = column_prefix(g, col, 5);
    let acc6 = column_prefix(g, col, 6);
    let acc7 = column_prefix(g, col, 7);
    let acc8 = column_prefix(g, col, 8);
    assert(acc8 == (b0 << 7 | b1 << 6 | b2 << 5 | b3 << 4 | b4 << 3 | b5 << 2 | b6 << 1 | b7)) by (bit_vector)
        requires
            acc1 == (0u8 << 1) | b0,
            acc2 == (acc1 << 1) | b1,
            acc3 == (acc2 << 1) | b2,
            acc4 == (acc3 << 1) | b3,
            acc5 == (acc4 << 1) | b4,
            acc6 == (acc5 << 1) | b5,
            acc7 == (acc6 << 1) | b6,
            acc8 == (acc7 << 1) | b7,
    ;
}

/// Eight bits packed into a byte can be read back from it.
proof fn lemma_unpack(b0: u8, b1: u8, b2: u8, b3: u8, b4: u8, b5: u8, b6: u8, b7: u8)
    by (bit_vector)
    requires
        b0 <= 1,
        b1 <= 1,
        b2 <= 1,
        b3 <= 1,
        b4 <= 1,
        b5 <= 1,
        b6 <= 1,
        b7 <= 1,
    ensures
        ({
            let p = b0 << 7 | b1 << 6 | b2 << 5 | b3 << 4 | b4 << 3 | b5 << 2 | b6 << 1 | b7;
            &&& (p >> 7u8) & 1 == b0
            &&& (p >> 6u8) & 1 == b1
            &&& (p >> 5u8) & 1 == b2
            &&& (p >> 4u8) & 1 == b3
            &&& (p >> 3u8) & 1 == b4
            &&& (p >> 2u8) & 1 == b5
            &&& (p >> 1u8) & 1 == b6
            &&& (p >> 0u8) & 1 == b7
        }),
{
}

/// Bit `r` of column `c` of a grid is bit `c` of its row `r`.
pub proof fn lemma_column_byte_bits(g: Seq<u8>, r: int, c: int)
    requires
        g.len() == 8,
        0 <= r < 8,
        0 <= c < 8,
    ensures
        bit_of(column_byte(g, c), r) == bit_of(g[r], c),
{
    lemma_bit_of_range(g[0], c);
    lemma_bit_of_range(g[1], c);
    lemma_bit_of_range(g[2], c);
    lemma_bit_of_range(g[3], c);
    lemma_bit_of_range(g[4], c);
    lemma_bit_of_range(g[5], c);
    lemma_bit_of_range(g[6], c);
    lemma_bit_of_range(g[7], c);
    lemma_unpack(
        bit_of(g[0], c),
        bit_of(g[1], c),
        bit_of(g[2], c),
        bit_of(g[3], c),
        bit_of(g[4], c),
        bit_of(g[5], c),
        bit_of(g[6], c),
        bit_of(g[7], c),
    );
}

/// Transposition swaps the two coordinates of every pixel: the pixel in row
/// `c` and column `r` of the transposed grid is the pixel in row `r` and
/// column `c` of the grid.
pub proof fn lemma_transposed_swaps_pixels(g: Seq<u8>, r: int, c: int)
    requires
        g.len() == 8,
        0 <= r < 8,
        0 <= c < 8,
    ensures
        lit(transposed(g)[c], r) == lit(g[r], c),
{
    lemma_column_byte_bits(g, r, c);
}

/// Transposing a grid twice gives the grid back.
pub proof fn lemma_transpose_involution(g: Seq<u8>)
    requires
        g.len() == 8,
    ensures
        transposed(transposed(g)) == g,
{
    let t = transposed(g);
    assert forall|r: int| 0 <= r < 8 implies column_byte(t, r) == g[r] by {
        lemma_column_byte_bits(g, r, 0);
        lemma_column_byte_bits(g, r, 1);
        lemma_column_byte_bits(g, r, 2);
        lemma_column_byte_bits(g, r, 3);
        lemma_column_byte_bits(g, r, 4);
        lemma_column_byte_bits(g, r, 5);
        lemma_column_byte_bits(g, r, 6);
        lemma_column_byte_bits(g, r, 7);
        lemma_byte_from_bits(g[r]);
    }
    assert(transposed(t) =~= g);
}

/// Transposes a panel: row `c` of the result is column `c` of `data`, read from
/// top to bottom. The pixel in row `c` and column `r` of the result is the
/// pixel in row `r` and column `c` of `data`.
pub fn transpose_single_display_data(data: SingleDisplayData) -> (transposed_data: SingleDisplayData)
    ensures
        transposed_data@ == transposed(data@),
        forall|r: int, c: int|
            0 <= r < 8 && 0 <= c < 8 ==> lit(#[trigger] transposed_data@[c], r) == lit(#[trigger] data@[r], c),
{
    let mut transposed_data: SingleDisplayData = [0; 8];
    for col_i in 0..8usize
        invariant
            forall|c: int| 0 <= c < col_i ==> transposed_data@[c] == column_byte(data@, c),
    {
        let mut col: u8 = 0;
        for row_i in 0..8usize
            invariant
                col_i < 8,
                col == column_prefix(data@, col_i as int, row_i as nat),
        {
            let col_bit: u8 = (data[row_i] >> (7 - col_i)) & 1;
            col = (col << 1) | col_bit;
        }
        proof {
            lemma_column_prefix_full(data@, col_i as int);
        }
        transposed_data[col_i] = col;
    }
    proof {
        assert forall|r: int, c: int| 0 <= r < 8 && 0 <= c < 8 implies lit(#[trigger] transposed_data@[c], r) == lit(
            #[trigger] data@[r],
            c,
        ) by {
            lemma_transposed_swaps_pixels(data@, r, c);
        }
    }
    transposed_data
}

} // verus!
