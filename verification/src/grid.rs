//! The pixel model of a panel and of a chain of panels.

use vstd::prelude::*;

verus! {

/// The bits of one 8x8 panel: eight rows from top to bottom, each a byte whose
/// most significant bit is the leftmost column.
pub type SingleDisplayData = [u8; 8];

/// Side length of a panel, in pixels.
pub const LED_SQUARE_MATRIX_DIM: usize = 8;

/// The largest number of panels that one controller chain can address.
pub const MAX_DISPLAYS: usize = 16;

/// The bit of `row` that stands for column `col`, as 0 or 1. Column 0 is the
/// leftmost one and lives in the most significant bit.
pub open spec fn bit_of(row: u8, col: int) -> u8 {
    (row >> ((7 - col) as u8)) & 1
}

/// Whether column `col` of `row` is lit.
pub open spec fn lit(row: u8, col: int) -> bool {
    0 <= col < 8 && bit_of(row, col) == 1
}

/// The rows of every panel of a chain, panel by panel.
pub open spec fn rows_of(chain: Seq<SingleDisplayData>) -> Seq<Seq<u8>> {
    Seq::new(chain.len(), |i: int| chain[i]@)
}

/// A chain is well formed when each of its panels has exactly eight rows.
pub open spec fn is_chain(chain: Seq<Seq<u8>>) -> bool {
    forall|i: int| 0 <= i < chain.len() ==> (#[trigger] chain[i]).len() == 8
}

/// The number of columns of a chain.
pub open spec fn width(chain: Seq<Seq<u8>>) -> int {
    8 * (chain.len() as int)
}

/// Whether the pixel in row `r` and column `x` of the whole chain is lit, the
/// panels standing side by side from left to right.
pub open spec fn pixel(chain: Seq<Seq<u8>>, r: int, x: int) -> bool {
    lit(chain[x / 8][r], x % 8)
}

/// A bit is 0 or 1.
pub proof fn lemma_bit_of_range(row: u8, col: int)
    requires
        0 <= col < 8,
    ensures
        bit_of(row, col) <= 1,
{
    let s = (7 - col) as u8;
    assert((row >> s) & 1 <= 1) by (bit_vector);
}

/// A byte is the sum of its bits.
pub proof fn lemma_byte_from_bits(a: u8)
    ensures
        a == (bit_of(a, 0) << 7 | bit_of(a, 1) << 6 | bit_of(a, 2) << 5 | bit_of(a, 3) << 4 | bit_of(a, 4) << 3
            | bit_of(a, 5) << 2 | bit_of(a, 6) << 1 | bit_of(a, 7)),
{
    assert(a == (((a >> 7u8) & 1) << 7 | ((a >> 6u8) & 1) << 6 | ((a >> 5u8) & 1) << 5 | ((a >> 4u8) & 1) << 4
        | ((a >> 3u8) & 1) << 3 | ((a >> 2u8) & 1) << 2 | ((a >> 1u8) & 1) << 1 | ((a >> 0u8) & 1))) by (bit_vector);
}

/// Two rows that agree in every column are the same byte.
pub proof fn lemma_row_from_pixels(a: u8, b: u8)
    requires
        forall|c: int| 0 <= c < 8 ==> lit(a, c) == lit(b, c),
    ensures
        a == b,
{
    assert forall|c: int| 0 <= c < 8 implies bit_of(a, c) == bit_of(b, c) by {
        lemma_bit_of_range(a, c);
        lemma_bit_of_range(b, c);
        assert(lit(a, c) == lit(b, c));
    }
    lemma_byte_from_bits(a);
    lemma_byte_from_bits(b);
}

/// The rows of a chain of panels form a well-formed chain.
pub proof fn lemma_rows_of_is_chain(chain: Seq<SingleDisplayData>)
    ensures
        is_chain(rows_of(chain)),
        rows_of(chain).len() == chain.len(),
{
}

/// Two well-formed chains of one length that agree in every pixel are equal.
pub proof fn lemma_chain_from_pixels(a: Seq<Seq<u8>>, b: Seq<Seq<u8>>)
    requires
        is_chain(a),
        is_chain(b),
        a.len() == b.len(),
        forall|r: int, x: int| 0 <= r < 8 && 0 <= x < width(a) ==> pixel(a, r, x) == pixel(b, r, x),
    ensures
        a == b,
{
    assert forall|i: int| 0 <= i < a.len() implies a[i] == b[i] by {
        assert forall|r: int| 0 <= r < 8 implies a[i][r] == b[i][r] by {
            assert forall|c: int| 0 <= c < 8 implies lit(a[i][r], c) == lit(b[i][r], c) by {
                let x = 8 * i + c;
                assert(x / 8 == i && x % 8 == c);
                assert(pixel(a, r, x) == pixel(b, r, x));
            }
            lemma_row_from_pixels(a[i][r], b[i][r]);
        }
        assert(a[i] =~= b[i]);
    }
    assert(a =~= b);
}

} // verus!
