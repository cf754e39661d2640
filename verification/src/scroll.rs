//! Scrolling: every row of a chain moves one column to the left, and what
//! leaves a panel on its left enters the panel before it on its right.

use vstd::prelude::*;
use crate::grid::SingleDisplayData;
use crate::grid::rows_of;
use crate::grid::is_chain;
use crate::grid::pixel;
use crate::grid::width;
use crate::grid::bit_of;
use crate::grid::lit;
use crate::grid::lemma_row_from_pixels;
use crate::grid::lemma_chain_from_pixels;
use vstd::arithmetic::div_mod::lemma_add_mod_noop_right;
use vstd::arithmetic::div_mod::lemma_small_mod;
use vstd::arithmetic::div_mod::lemma_mod_add_multiples_vanish;

verus! {

/// The bit that enters row `r` of panel `i` from the right when the chain
/// moves left by one column: the leftmost bit of the same row of the next
/// panel. Behind the last panel stands the first one when `repeat` is set, and
/// nothing otherwise.
pub open spec fn carry_in(chain: Seq<Seq<u8>>, i: int, r: int, repeat: bool) -> u8 {
    if i + 1 < chain.len() {
        chain[i + 1][r] >> 7
    } else if repeat {
        chain[0][r] >> 7
    } else {
        0
    }
}

/// The chain moved left by one column.
pub open spec fn shifted(chain: Seq<Seq<u8>>, repeat: bool) -> Seq<Seq<u8>> {
    Seq::new(chain.len(), |i: int| Seq::new(8, |r: int| (chain[i][r] << 1) | carry_in(chain, i, r, repeat)))
}

/// The chain moved left by `k` columns, one column at a time.
pub open spec fn shifted_times(chain: Seq<Seq<u8>>, repeat: bool, k: nat) -> Seq<Seq<u8>>
    decreases k,
{
    if k == 0 {
        chain
    } else {
        shifted(shifted_times(chain, repeat, (k - 1) as nat), repeat)
    }
}

/// Whether all panels of the chain show the same picture.
pub open spec fn is_uniform(chain: Seq<Seq<u8>>) -> bool {
    forall|i: int, j: int| 0 <= i < chain.len() && 0 <= j < chain.len() ==> chain[i] == chain[j]
}

/// Whether no pixel of the chain is lit.
pub open spec fn is_blank(chain: Seq<Seq<u8>>) -> bool {
    forall|i: int, r: int| 0 <= i < chain.len() && 0 <= r < 8 ==> (#[trigger] chain[i][r]) == 0
}

/// A place on a ring of `m` places is its own remainder, and one full turn
/// further on is the same place.
proof fn lemma_ring_index(x: int, m: int)
    requires
        0 <= x < m,
    ensures
        x % m == x,
        (x + m) % m == x,
{
    lemma_small_mod(x as nat, m as nat);
    lemma_mod_add_multiples_vanish(x, m);
    assert(x + m == m + x);
}

/// The bits of a row after a shift: each is the bit that stood to its right,
/// and the rightmost one is the carry.
proof fn lemma_shifted_row_bits(a: u8, b: u8, col: int)
    requires
        0 <= col < 8,
    ensures
        col < 7 ==> bit_of((a << 1) | (b >> 7), col) == bit_of(a, col + 1),
        col == 7 ==> bit_of((a << 1) | (b >> 7), col) == bit_of(b, 0),
        col < 7 ==> bit_of((a << 1) | 0, col) == bit_of(a, col + 1),
        col == 7 ==> bit_of((a << 1) | 0, col) == 0,
{
    let s = (7 - col) as u8;
    if col < 7 {
        let t = (7 - (col + 1)) as u8;
        assert((((a << 1) | (b >> 7)) >> s) & 1 == (a >> t) & 1) by (bit_vector)
            requires
                1 <= s <= 7,
                t == s - 1,
        ;
        assert((((a << 1) | 0) >> s) & 1 == (a >> t) & 1) by (bit_vector)
            requires
                1 <= s <= 7,
                t == s - 1,
        ;
    } else {
        assert((((a << 1) | (b >> 7)) >> 0u8) & 1 == (b >> 7u8) & 1) by (bit_vector);
        assert((((a << 1) | 0) >> 0u8) & 1 == 0) by (bit_vector);
    }
}

/// A shift keeps the shape of the chain.
pub proof fn lemma_shifted_is_chain(chain: Seq<Seq<u8>>, repeat: bool)
    ensures
        is_chain(shifted(chain, repeat)),
        shifted(chain, repeat).len() == chain.len(),
{
}

/// Any number of shifts keeps the shape of the chain.
pub proof fn lemma_shifted_times_is_chain(chain: Seq<Seq<u8>>, repeat: bool, k: nat)
    requires
        is_chain(chain),
    ensures
        is_chain(shifted_times(chain, repeat, k)),
        shifted_times(chain, repeat, k).len() == chain.len(),
    decreases k,
{
    if k > 0 {
        lemma_shifted_times_is_chain(chain, repeat, (k - 1) as nat);
        lemma_shifted_is_chain(shifted_times(chain, repeat, (k - 1) as nat), repeat);
    }
}

/// One shift moves every pixel one column to the left. With wrap-around each
/// row of the chain is a ring of pixels that turns by one place; without it
/// the rightmost column turns dark.
pub proof fn lemma_shift_moves_pixels(chain: Seq<Seq<u8>>, repeat: bool, r: int, x: int)
    requires
        is_chain(chain),
        0 <= r < 8,
        0 <= x < width(chain),
    ensures
        repeat ==> pixel(shifted(chain, repeat), r, x) == pixel(chain, r, (x + 1) % width(chain)),
        !repeat ==> pixel(shifted(chain, repeat), r, x) == (x + 1 < width(chain) && pixel(chain, r, x + 1)),
{
    let i = x / 8;
    let col = x % 8;
    let a = chain[i][r];
    let b = carry_in(chain, i, r, repeat);
    assert(shifted(chain, repeat)[i][r] == (a << 1) | b);
    if col < 7 {
        assert((x + 1) / 8 == i && (x + 1) % 8 == col + 1);
        lemma_ring_index(x + 1, width(chain));
        if i + 1 < chain.len() {
            lemma_shifted_row_bits(a, chain[i + 1][r], col);
        } else if repeat {
            lemma_shifted_row_bits(a, chain[0][r], col);
        } else {
            lemma_shifted_row_bits(a, 0, col);
        }
    } else {
        if i + 1 < chain.len() {
            assert((x + 1) / 8 == i + 1 && (x + 1) % 8 == 0);
            lemma_ring_index(x + 1, width(chain));
            lemma_shifted_row_bits(a, chain[i + 1][r], col);
        } else {
            assert(x + 1 == 0 + width(chain));
            lemma_ring_index(0, width(chain));
            if repeat {
                lemma_shifted_row_bits(a, chain[0][r], col);
            } else {
                lemma_shifted_row_bits(a, 0, col);
            }
        }
    }
}

/// `k` shifts move every pixel `k` columns to the left.
pub proof fn lemma_shifts_move_pixels(chain: Seq<Seq<u8>>, repeat: bool, k: nat, r: int, x: int)
    requires
        is_chain(chain),
        0 <= r < 8,
        0 <= x < width(chain),
    ensures
        repeat ==> pixel(shifted_times(chain, repeat, k), r, x) == pixel(chain, r, (x + k) % width(chain)),
        !repeat ==> pixel(shifted_times(chain, repeat, k), r, x) == (x + k < width(chain) && pixel(
            chain,
            r,
            x + k,
        )),
    decreases k,
{
    let m = width(chain);
    if k == 0 {
        lemma_ring_index(x, m);
    } else {
        let before = shifted_times(chain, repeat, (k - 1) as nat);
        lemma_shifted_times_is_chain(chain, repeat, (k - 1) as nat);
        lemma_shift_moves_pixels(before, repeat, r, x);
        if repeat {
            let y = (x + 1) % m;
            lemma_shifts_move_pixels(chain, repeat, (k - 1) as nat, r, y);
            lemma_add_mod_noop_right(k - 1, x + 1, m);
        } else if x + 1 < m {
            lemma_shifts_move_pixels(chain, repeat, (k - 1) as nat, r, x + 1);
        }
    }
}

/// With wrap-around, as many shifts as the chain has columns bring every row
/// back to where it was.
pub proof fn lemma_full_turn_restores(chain: Seq<Seq<u8>>)
    requires
        is_chain(chain),
    ensures
        shifted_times(chain, true, width(chain) as nat) == chain,
{
    let m = width(chain);
    let turned = shifted_times(chain, true, m as nat);
    lemma_shifted_times_is_chain(chain, true, m as nat);
    assert forall|r: int, x: int| 0 <= r < 8 && 0 <= x < width(turned) implies pixel(turned, r, x) == pixel(
        chain,
        r,
        x,
    ) by {
        lemma_shifts_move_pixels(chain, true, m as nat, r, x);
        lemma_ring_index(x, m);
    }
    lemma_chain_from_pixels(turned, chain);
}

/// With wrap-around, eight shifts hand every panel the picture of the panel
/// behind it, and the last panel that of the first.
pub proof fn lemma_eight_shifts_rotate_panels(chain: Seq<Seq<u8>>, i: int)
    requires
        is_chain(chain),
        0 <= i < chain.len(),
    ensures
        shifted_times(chain, true, 8)[i] == chain[(i + 1) % (chain.len() as int)],
{
    let n = chain.len() as int;
    let m = width(chain);
    let turned = shifted_times(chain, true, 8);
    let next = (i + 1) % n;
    lemma_shifted_times_is_chain(chain, true, 8);
    assert forall|r: int| 0 <= r < 8 implies turned[i][r] == chain[next][r] by {
        assert forall|c: int| 0 <= c < 8 implies lit(turned[i][r], c) == lit(chain[next][r], c) by {
            let x = 8 * i + c;
            assert(x / 8 == i && x % 8 == c);
            lemma_shifts_move_pixels(chain, true, 8, r, x);
            let y = (x + 8) % m;
            if i + 1 < n {
                lemma_ring_index(i + 1, n);
                lemma_ring_index(x + 8, m);
            } else {
                lemma_ring_index(0, n);
                assert(i + 1 == 0 + n);
                lemma_ring_index(c, m);
                assert(x + 8 == c + m);
            }
            assert(y / 8 == next && y % 8 == c);
        }
        lemma_row_from_pixels(turned[i][r], chain[next][r]);
    }
    assert(turned[i] =~= chain[next]);
}

/// With wrap-around, eight shifts bring every row of a chain back to where it
/// was, provided that all of its panels show the same picture; a chain of one
/// panel is such a chain.
pub proof fn lemma_eight_shifts_restore(chain: Seq<Seq<u8>>)
    requires
        is_chain(chain),
        is_uniform(chain),
    ensures
        shifted_times(chain, true, 8) == chain,
{
    let turned = shifted_times(chain, true, 8);
    lemma_shifted_times_is_chain(chain, true, 8);
    assert forall|i: int| 0 <= i < chain.len() implies turned[i] == chain[i] by {
        lemma_eight_shifts_rotate_panels(chain, i);
        let next = (i + 1) % (chain.len() as int);
        assert(0 <= next < chain.len());
    }
    assert(turned =~= chain);
}

/// Eight shifts with wrap-around restore no other chains: a chain that comes
/// back after eight shifts shows the same picture on all of its panels.
pub proof fn lemma_eight_shifts_restore_only_uniform(chain: Seq<Seq<u8>>)
    requires
        is_chain(chain),
        shifted_times(chain, true, 8) == chain,
    ensures
        is_uniform(chain),
{
    assert forall|i: int, j: int| 0 <= i < chain.len() && 0 <= j < chain.len() implies chain[i] == chain[j] by {
        lemma_all_panels_like_first(chain, i);
        lemma_all_panels_like_first(chain, j);
    }
}

/// In a chain that comes back after eight shifts every panel shows what the
/// first one shows.
proof fn lemma_all_panels_like_first(chain: Seq<Seq<u8>>, i: int)
    requires
        is_chain(chain),
        shifted_times(chain, true, 8) == chain,
        0 <= i < chain.len(),
    ensures
        chain[i] == chain[0],
    decreases i,
{
    if i > 0 {
        lemma_all_panels_like_first(chain, i - 1);
        lemma_eight_shifts_rotate_panels(chain, i - 1);
        lemma_ring_index(i, chain.len() as int);
    }
}

/// Without wrap-around, a chain is blank after as many shifts as it has
/// columns, and stays so.
pub proof fn lemma_shifts_without_repeat_clear(chain: Seq<Seq<u8>>, k: nat)
    requires
        is_chain(chain),
        k >= width(chain),
    ensures
        is_blank(shifted_times(chain, false, k)),
{
    let moved = shifted_times(chain, false, k);
    lemma_shifted_times_is_chain(chain, false, k);
    assert forall|i: int, r: int| 0 <= i < moved.len() && 0 <= r < 8 implies (#[trigger] moved[i][r]) == 0 by {
        assert forall|c: int| 0 <= c < 8 implies lit(moved[i][r], c) == lit(0u8, c) by {
            let x = 8 * i + c;
            assert(x / 8 == i && x % 8 == c);
            lemma_shifts_move_pixels(chain, false, k, r, x);
            let s = (7 - c) as u8;
            assert((0u8 >> s) & 1 == 0) by (bit_vector);
        }
        lemma_row_from_pixels(moved[i][r], 0u8);
    }
}

/// Moves every row of the chain one column to the left. The leftmost column of
/// each panel becomes the rightmost column of the panel before it. The
/// leftmost column of the first panel becomes the rightmost column of the last
/// panel when `repeat` is set, and is dropped otherwise. Every bit that moves
/// is read before anything is written over it.
pub fn shift_left(chain: &mut [SingleDisplayData], repeat: bool)
    ensures
        final(chain)@.len() == old(chain)@.len(),
        rows_of(final(chain)@) == shifted(rows_of(old(chain)@), repeat),
{
    let len = chain.len();
    if len == 0 {
        return ;
    }
    let first: SingleDisplayData = chain[0];
    for i in 0..len
        invariant
            0 < len == chain@.len() == old(chain)@.len(),
            first == old(chain)@[0],
            forall|p: int| 0 <= p < i ==> (#[trigger] chain@[p])@ == shifted(rows_of(old(chain)@), repeat)[p],
            forall|p: int| i <= p < len ==> chain@[p] == old(chain)@[p],
    {
        let next: SingleDisplayData = if i + 1 < len {
            chain[i + 1]
        } else if repeat {
            first
        } else {
            [0; 8]
        };
        let current: SingleDisplayData = chain[i];
        let ghost before = chain@;
        for r in 0..8usize
            invariant
                i < len == chain@.len() == before.len(),
                forall|q: int| 0 <= q < r ==> chain@[i as int]@[q] == (current@[q] << 1) | (next@[q] >> 7),
                forall|q: int| r <= q < 8 ==> chain@[i as int]@[q] == current@[q],
                forall|p: int| 0 <= p < len && p != i ==> chain@[p] == before[p],
        {
            chain[i][r] = (current[r] << 1) | (next[r] >> 7);
        }
        proof {
            let target = shifted(rows_of(old(chain)@), repeat);
            assert forall|q: int| 0 <= q < 8 implies chain@[i as int]@[q] == target[i as int][q] by {
                if i + 1 >= len && !repeat {
                    assert(next@[q] == 0);
                    assert(0u8 >> 7 == 0) by (bit_vector);
                }
            }
            assert(chain@[i as int]@ =~= target[i as int]);
            assert forall|p: int| 0 <= p < i implies (#[trigger] chain@[p])@ == target[p] by {
                assert(chain@[p] == before[p]);
                assert(before[p]@ == target[p]);
            }
        }
    }
}

/// Moves every row of the chain one column to the left, with wrap-around: what
/// leaves the first panel on its left enters the last panel on its right.
pub fn shift_all_rows_one_bit_left(moving_bits: &mut [SingleDisplayData])
    ensures
        final(moving_bits)@.len() == old(moving_bits)@.len(),
        rows_of(final(moving_bits)@) == shifted(rows_of(old(moving_bits)@), true),
{
    shift_left(moving_bits, true);
}

} // verus!
