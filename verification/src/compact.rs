//! Gap compaction: long runs of blank columns between glyphs are cut down to a
//! given width, while the blank margins of the text stay as they are.

use vstd::prelude::*;
use crate::grid::SingleDisplayData;
use crate::grid::rows_of;
use crate::grid::is_chain;
use crate::transpose::column_byte;
use crate::transpose::transposed;
use crate::transpose::transpose_single_display_data;
use crate::transpose::lemma_transpose_involution;

verus! {

/// The number of blank columns at the start of `s`.
pub open spec fn leading_blanks(s: Seq<u8>) -> nat
    decreases s.len(),
{
    if s.len() > 0 && s.first() == 0 {
        1 + leading_blanks(s.drop_first())
    } else {
        0
    }
}

/// The number of blank columns at the end of `s`.
pub open spec fn trailing_blanks(s: Seq<u8>) -> nat
    decreases s.len(),
{
    if s.len() > 0 && s.last() == 0 {
        1 + trailing_blanks(s.drop_last())
    } else {
        0
    }
}

/// `n` blank columns.
pub open spec fn blank_columns(n: nat) -> Seq<u8> {
    Seq::new(n, |i: int| 0u8)
}

/// The width of the left margin that compaction leaves alone.
pub open spec fn left_margin(s: Seq<u8>) -> nat {
    leading_blanks(s)
}

/// The width of the right margin that compaction leaves alone. A buffer that
/// is blank throughout is all left margin.
pub open spec fn right_margin(s: Seq<u8>) -> nat {
    if leading_blanks(s) == s.len() {
        0
    } else {
        trailing_blanks(s)
    }
}

/// The columns between the two margins.
pub open spec fn interior(s: Seq<u8>) -> Seq<u8> {
    s.subrange(left_margin(s) as int, s.len() - right_margin(s))
}

/// The columns of `s` that survive when every run of blank columns is cut
/// down to `max_gap`: a column stays exactly when the run of blank columns
/// that ends with it is at most `max_gap` long.
pub open spec fn capped(s: Seq<u8>, max_gap: nat) -> Seq<u8>
    decreases s.len(),
{
    if s.len() == 0 {
        s
    } else if trailing_blanks(s) <= max_gap {
        capped(s.drop_last(), max_gap).push(s.last())
    } else {
        capped(s.drop_last(), max_gap)
    }
}

/// The compaction of a column buffer: both margins as they were, and between
/// them the interior with its blank runs capped.
pub open spec fn compacted(s: Seq<u8>, max_gap: nat) -> Seq<u8> {
    blank_columns(left_margin(s)) + capped(interior(s), max_gap) + blank_columns(right_margin(s))
}

/// The columns of a chain from left to right, each as a byte with the top row
/// in its most significant bit.
pub open spec fn columns_of(chain: Seq<Seq<u8>>) -> Seq<u8> {
    Seq::new((8 * chain.len()) as nat, |x: int| column_byte(chain[x / 8], x % 8))
}

/// The chain that shows the given columns, eight to a panel. Columns beyond
/// the last whole panel are left out.
pub open spec fn panels_of(columns: Seq<u8>) -> Seq<Seq<u8>> {
    Seq::new((columns.len() / 8) as nat, |i: int| transposed(columns.subrange(8 * i, 8 * i + 8)))
}

/// The number of blank columns that fill a buffer of `n` columns up to whole
/// panels.
pub open spec fn padding(n: nat) -> nat {
    if n % 8 == 0 {
        0
    } else {
        (8 - n % 8) as nat
    }
}

/// The buffer filled up with blank columns to whole panels.
pub open spec fn padded(s: Seq<u8>) -> Seq<u8> {
    s + blank_columns(padding(s.len()))
}

/// What `leading_blanks` counts: the columns before the first lit one.
pub proof fn lemma_leading_blanks(s: Seq<u8>)
    ensures
        leading_blanks(s) <= s.len(),
        forall|i: int| 0 <= i < leading_blanks(s) ==> s[i] == 0,
        leading_blanks(s) < s.len() ==> s[leading_blanks(s) as int] != 0,
    decreases s.len(),
{
    if s.len() > 0 && s.first() == 0 {
        let t = s.drop_first();
        lemma_leading_blanks(t);
        assert forall|i: int| 0 <= i < leading_blanks(s) implies s[i] == 0 by {
            if i > 0 {
                assert(s[i] == t[i - 1]);
            }
        }
        if leading_blanks(s) < s.len() {
            assert(s[leading_blanks(s) as int] == t[leading_blanks(t) as int]);
        }
    }
}

/// A count with the properties of `leading_blanks` is `leading_blanks`.
pub proof fn lemma_leading_blanks_is(s: Seq<u8>, n: nat)
    requires
        n <= s.len(),
        forall|i: int| 0 <= i < n ==> s[i] == 0,
        n < s.len() ==> s[n as int] != 0,
    ensures
        leading_blanks(s) == n,
{
    lemma_leading_blanks(s);
    let m = leading_blanks(s);
    if m < n {
        assert(s[m as int] == 0);
    } else if n < m {
        assert(s[n as int] == 0);
    }
}

/// What `trailing_blanks` counts: the columns after the last lit one.
pub proof fn lemma_trailing_blanks(s: Seq<u8>)
    ensures
        trailing_blanks(s) <= s.len(),
        forall|i: int| s.len() - trailing_blanks(s) <= i < s.len() ==> s[i] == 0,
        trailing_blanks(s) < s.len() ==> s[s.len() - 1 - trailing_blanks(s)] != 0,
    decreases s.len(),
{
    if s.len() > 0 && s.last() == 0 {
        let t = s.drop_last();
        lemma_trailing_blanks(t);
        assert forall|i: int| s.len() - trailing_blanks(s) <= i < s.len() implies s[i] == 0 by {
            if i < s.len() - 1 {
                assert(s[i] == t[i]);
            }
        }
        if trailing_blanks(s) < s.len() {
            assert(s[s.len() - 1 - trailing_blanks(s)] == t[t.len() - 1 - trailing_blanks(t)]);
        }
    }
}

/// A count with the properties of `trailing_blanks` is `trailing_blanks`.
pub proof fn lemma_trailing_blanks_is(s: Seq<u8>, n: nat)
    requires
        n <= s.len(),
        forall|i: int| s.len() - n <= i < s.len() ==> s[i] == 0,
        n < s.len() ==> s[s.len() - 1 - n] != 0,
    ensures
        trailing_blanks(s) == n,
{
    lemma_trailing_blanks(s);
    let m = trailing_blanks(s);
    if m < n {
        assert(s[s.len() - 1 - m] == 0);
    } else if n < m {
        assert(s[s.len() - 1 - n] == 0);
    }
}

/// The two margins of a buffer do not overlap.
pub proof fn lemma_margins_fit(s: Seq<u8>)
    ensures
        left_margin(s) + right_margin(s) <= s.len(),
        left_margin(s) + right_margin(s) < s.len() ==> interior(s).first() != 0 && interior(s).last() != 0,
        left_margin(s) + right_margin(s) == s.len() ==> left_margin(s) == s.len(),
{
    lemma_leading_blanks(s);
    lemma_trailing_blanks(s);
    let lead = leading_blanks(s);
    let trail = trailing_blanks(s);
    if lead < s.len() {
        if lead + trail >= s.len() {
            assert(s[lead as int] == 0);
        }
    }
}

/// Capping removes columns and adds none.
pub proof fn lemma_capped_len(s: Seq<u8>, max_gap: nat)
    ensures
        capped(s, max_gap).len() <= s.len(),
    decreases s.len(),
{
    if s.len() > 0 {
        lemma_capped_len(s.drop_last(), max_gap);
    }
}

/// Capping keeps a lit column at either end of the buffer.
pub proof fn lemma_capped_keeps_ends(s: Seq<u8>, max_gap: nat)
    requires
        s.len() > 0,
    ensures
        s.first() != 0 ==> capped(s, max_gap).len() > 0 && capped(s, max_gap).first() == s.first(),
        s.last() != 0 ==> capped(s, max_gap).len() > 0 && capped(s, max_gap).last() == s.last(),
    decreases s.len(),
{
    let rest = s.drop_last();
    if s.first() != 0 {
        if rest.len() > 0 {
            lemma_capped_keeps_ends(rest, max_gap);
            assert(rest.first() == s.first());
        } else {
            assert(s.last() == s.first());
            assert(capped(rest, max_gap).len() == 0);
            assert(capped(s, max_gap) == capped(rest, max_gap).push(s.last()));
        }
    }
}

/// After capping, the run of blank columns that ends at any column is at most
/// `max_gap` long.
pub proof fn lemma_capped_runs(s: Seq<u8>, max_gap: nat)
    ensures
        trailing_blanks(capped(s, max_gap)) == if trailing_blanks(s) <= max_gap {
            trailing_blanks(s)
        } else {
            max_gap
        },
        forall|i: int|
            0 <= i < capped(s, max_gap).len() ==> trailing_blanks(#[trigger] capped(s, max_gap).take(i + 1))
                <= max_gap,
    decreases s.len(),
{
    let c = capped(s, max_gap);
    if s.len() > 0 {
        let rest = capped(s.drop_last(), max_gap);
        lemma_capped_runs(s.drop_last(), max_gap);
        if trailing_blanks(s) <= max_gap {
            assert(c == rest.push(s.last()));
            assert(c.drop_last() == rest);
            assert forall|i: int| 0 <= i < c.len() implies trailing_blanks(#[trigger] c.take(i + 1)) <= max_gap by {
                if i < rest.len() {
                    assert(c.take(i + 1) == rest.take(i + 1));
                } else {
                    assert(c.take(i + 1) == c);
                }
            }
        }
    }
}

/// Whether one of the `span + 1` columns of `s` from column `i` on is lit.
pub open spec fn window_lit(s: Seq<u8>, i: int, span: nat) -> bool {
    exists|j: int| i <= j <= i + span && 0 <= j < s.len() && s[j] != 0
}

/// Whether no run of blank columns between the margins of `s` is longer than
/// `max_gap`: any `max_gap + 1` neighbouring columns there hold a lit one.
pub open spec fn gaps_within(s: Seq<u8>, max_gap: nat) -> bool {
    forall|i: int|
        leading_blanks(s) <= i && i + max_gap < s.len() - trailing_blanks(s) ==> #[trigger] window_lit(
            s,
            i,
            max_gap,
        )
}

/// Compaction removes columns and adds none, and it leaves something of every
/// buffer that holds a column.
pub proof fn lemma_compacted_len(s: Seq<u8>, max_gap: nat)
    ensures
        compacted(s, max_gap).len() <= s.len(),
        s.len() > 0 ==> compacted(s, max_gap).len() > 0,
{
    lemma_margins_fit(s);
    lemma_capped_len(interior(s), max_gap);
    if left_margin(s) + right_margin(s) < s.len() {
        lemma_capped_keeps_ends(interior(s), max_gap);
    }
}

/// Compaction leaves both margins as wide as they were: the result starts and
/// ends with as many blank columns as the buffer did.
pub proof fn lemma_compaction_keeps_margins(s: Seq<u8>, max_gap: nat)
    ensures
        leading_blanks(compacted(s, max_gap)) == leading_blanks(s),
        trailing_blanks(compacted(s, max_gap)) == trailing_blanks(s),
{
    let out = compacted(s, max_gap);
    let lead = left_margin(s);
    let trail = right_margin(s);
    let body = capped(interior(s), max_gap);
    lemma_margins_fit(s);
    lemma_leading_blanks(s);
    lemma_trailing_blanks(s);
    if lead == s.len() {
        assert(interior(s).len() == 0);
        assert(out =~= blank_columns(lead));
        lemma_leading_blanks_is(out, lead);
        lemma_trailing_blanks_is(out, lead);
        lemma_trailing_blanks_is(s, lead);
    } else {
        lemma_capped_keeps_ends(interior(s), max_gap);
        assert(out[lead as int] == body.first());
        assert(out[out.len() - 1 - trail] == body.last());
        lemma_leading_blanks_is(out, lead);
        lemma_trailing_blanks_is(out, trail);
    }
}

/// After compaction no run of blank columns between the margins is longer
/// than `max_gap`.
pub proof fn lemma_compaction_bounds_gaps(s: Seq<u8>, max_gap: nat)
    ensures
        gaps_within(compacted(s, max_gap), max_gap),
{
    let out = compacted(s, max_gap);
    let lead = left_margin(s);
    let trail = right_margin(s);
    let body = capped(interior(s), max_gap);
    lemma_compaction_keeps_margins(s, max_gap);
    lemma_margins_fit(s);
    lemma_trailing_blanks(s);
    assert forall|i: int| leading_blanks(out) <= i && i + max_gap < out.len() - trailing_blanks(out) implies window_lit(
        out,
        i,
        max_gap,
    ) by {
        assert(lead < s.len());
        assert(trail == trailing_blanks(s));
        let first = i - lead;
        lemma_capped_runs(interior(s), max_gap);
        let prefix = body.take(first + max_gap + 1);
        assert(trailing_blanks(prefix) <= max_gap);
        lemma_trailing_blanks(prefix);
        let j = first + max_gap - trailing_blanks(prefix);
        assert(prefix[j] != 0);
        assert(out[lead + j] == body[j]);
    }
}

/// What tells a lit column from a blank one.
pub open spec fn is_lit_column() -> spec_fn(u8) -> bool {
    |column: u8| column != 0
}

/// The lit columns of a buffer, in their order.
pub open spec fn lit_columns(s: Seq<u8>) -> Seq<u8> {
    s.filter(is_lit_column())
}

/// Blank columns hold no lit column.
pub proof fn lemma_blank_columns_not_lit(n: nat)
    ensures
        lit_columns(blank_columns(n)) == Seq::<u8>::empty(),
    decreases n,
{
    reveal(Seq::filter);
    if n > 0 {
        lemma_blank_columns_not_lit((n - 1) as nat);
        assert(blank_columns(n).drop_last() == blank_columns((n - 1) as nat));
    } else {
        assert(blank_columns(n) == Seq::<u8>::empty());
    }
}

/// Capping removes blank columns only: the lit columns stay, in their order.
pub proof fn lemma_capped_keeps_lit_columns(s: Seq<u8>, max_gap: nat)
    ensures
        lit_columns(capped(s, max_gap)) == lit_columns(s),
    decreases s.len(),
{
    reveal(Seq::filter);
    if s.len() > 0 {
        let rest = s.drop_last();
        lemma_capped_keeps_lit_columns(rest, max_gap);
        capped(rest, max_gap).lemma_filter_push(s.last(), is_lit_column());
    }
}

/// Compaction removes blank columns only: the lit columns stay, in their
/// order.
pub proof fn lemma_compaction_keeps_lit_columns(s: Seq<u8>, max_gap: nat)
    ensures
        lit_columns(compacted(s, max_gap)) == lit_columns(s),
{
    let lead = blank_columns(left_margin(s));
    let trail = blank_columns(right_margin(s));
    lemma_margins_fit(s);
    lemma_leading_blanks(s);
    lemma_trailing_blanks(s);
    assert(s =~= lead + interior(s) + trail);
    lemma_blank_columns_not_lit(left_margin(s));
    lemma_blank_columns_not_lit(right_margin(s));
    lemma_capped_keeps_lit_columns(interior(s), max_gap);
    Seq::filter_distributes_over_add(lead, interior(s), is_lit_column());
    Seq::filter_distributes_over_add(lead + interior(s), trail, is_lit_column());
    Seq::filter_distributes_over_add(lead, capped(interior(s), max_gap), is_lit_column());
    Seq::filter_distributes_over_add(lead + capped(interior(s), max_gap), trail, is_lit_column());
}

/// Padding fills the buffer up to whole panels with fewer than eight columns,
/// and leaves a buffer of whole panels as it is.
pub proof fn lemma_padded_len(s: Seq<u8>)
    ensures
        padded(s).len() % 8 == 0,
        s.len() <= padded(s).len() < s.len() + 8,
        s.len() % 8 == 0 ==> padded(s) == s,
{
    if s.len() % 8 == 0 {
        assert(padded(s) =~= s);
    }
}

/// Padding widens the right margin by the columns it appends and leaves the
/// left margin of a buffer with a lit column as it is.
pub proof fn lemma_padded_margins(s: Seq<u8>)
    ensures
        trailing_blanks(padded(s)) == trailing_blanks(s) + padding(s.len()),
        leading_blanks(s) < s.len() ==> leading_blanks(padded(s)) == leading_blanks(s),
{
    lemma_leading_blanks(s);
    lemma_trailing_blanks(s);
    let out = padded(s);
    lemma_trailing_blanks_is(out, trailing_blanks(s) + padding(s.len()));
    if leading_blanks(s) < s.len() {
        lemma_leading_blanks_is(out, leading_blanks(s));
    }
}

/// The columns of the chain that `remove_gaps_in_display_text` returns for a
/// chain: its columns compacted, then filled up to whole panels.
pub open spec fn compacted_columns(chain: Seq<Seq<u8>>, max_gap: nat) -> Seq<u8> {
    padded(compacted(columns_of(chain), max_gap))
}

/// The compacted chain has whole panels only, no more of them than the chain
/// had, and at least one unless the chain had none.
pub proof fn lemma_compacted_chain_len(chain: Seq<Seq<u8>>, max_gap: nat)
    ensures
        compacted_columns(chain, max_gap).len() % 8 == 0,
        compacted_columns(chain, max_gap).len() <= 8 * chain.len(),
        chain.len() > 0 ==> compacted_columns(chain, max_gap).len() > 0,
{
    let s = columns_of(chain);
    let c = compacted(s, max_gap);
    lemma_compacted_len(s, max_gap);
    lemma_padded_len(c);
}

/// The compacted chain shows the lit columns of the chain, all of them and in
/// their order.
pub proof fn lemma_lit_columns_preserved(chain: Seq<Seq<u8>>, max_gap: nat)
    ensures
        lit_columns(compacted_columns(chain, max_gap)) == lit_columns(columns_of(chain)),
{
    let c = compacted(columns_of(chain), max_gap);
    lemma_compaction_keeps_lit_columns(columns_of(chain), max_gap);
    lemma_blank_columns_not_lit(padding(c.len()));
    Seq::filter_distributes_over_add(c, blank_columns(padding(c.len())), is_lit_column());
}

/// In the compacted chain no run of blank columns between the margins is
/// longer than `max_gap`.
pub proof fn lemma_gap_bound(chain: Seq<Seq<u8>>, max_gap: nat)
    ensures
        gaps_within(compacted_columns(chain, max_gap), max_gap),
{
    let s = columns_of(chain);
    let c = compacted(s, max_gap);
    let out = padded(c);
    lemma_compaction_bounds_gaps(s, max_gap);
    lemma_padded_margins(c);
    lemma_leading_blanks(c);
    assert forall|i: int| leading_blanks(out) <= i && i + max_gap < out.len() - trailing_blanks(out) implies window_lit(
        out,
        i,
        max_gap,
    ) by {
        if leading_blanks(c) < c.len() {
            assert(window_lit(c, i, max_gap));
            let j = choose|j: int| i <= j <= i + max_gap && 0 <= j < c.len() && c[j] != 0;
            assert(out[j] == c[j]);
        } else {
            lemma_trailing_blanks_is(c, c.len());
        }
    }
}

/// The compacted chain keeps the margins of the chain: it starts with as many
/// blank columns as the chain did, and it ends with as many as the chain did
/// and the columns that fill its last panel.
pub proof fn lemma_margins_preserved(chain: Seq<Seq<u8>>, max_gap: nat)
    ensures
        leading_blanks(compacted_columns(chain, max_gap)) == leading_blanks(columns_of(chain)),
        trailing_blanks(compacted_columns(chain, max_gap)) == trailing_blanks(columns_of(chain)) + padding(
            compacted(columns_of(chain), max_gap).len(),
        ),
{
    let s = columns_of(chain);
    let c = compacted(s, max_gap);
    lemma_compaction_keeps_margins(s, max_gap);
    lemma_padded_margins(c);
    lemma_leading_blanks(s);
    lemma_leading_blanks(c);
    if leading_blanks(c) == c.len() {
        lemma_margins_fit(s);
        if left_margin(s) < s.len() {
            lemma_capped_keeps_ends(interior(s), max_gap);
            assert(c[left_margin(s) as int] == capped(interior(s), max_gap).first());
        }
        assert(c =~= s);
        lemma_padded_len(c);
    }
}

/// Cutting columns into panels and reading the columns of those panels gives
/// the columns back.
pub proof fn lemma_columns_of_panels(columns: Seq<u8>)
    requires
        columns.len() % 8 == 0,
    ensures
        columns_of(panels_of(columns)) == columns,
{
    let chain = panels_of(columns);
    assert forall|x: int| 0 <= x < columns.len() implies columns_of(chain)[x] == columns[x] by {
        let i = x / 8;
        let part = columns.subrange(8 * i, 8 * i + 8);
        lemma_transpose_involution(part);
        assert(transposed(transposed(part))[x % 8] == column_byte(chain[i], x % 8));
    }
    assert(columns_of(chain) =~= columns);
}

/// Reading the columns of a chain and cutting them into panels gives the
/// chain back.
pub proof fn lemma_panels_of_columns(chain: Seq<Seq<u8>>)
    requires
        is_chain(chain),
    ensures
        panels_of(columns_of(chain)) == chain,
{
    let columns = columns_of(chain);
    assert forall|i: int| 0 <= i < chain.len() implies panels_of(columns)[i] == chain[i] by {
        let part = columns.subrange(8 * i, 8 * i + 8);
        assert forall|c: int| 0 <= c < 8 implies part[c] == transposed(chain[i])[c] by {
            let x = 8 * i + c;
            assert(x / 8 == i && x % 8 == c);
        }
        assert(part =~= transposed(chain[i]));
        lemma_transpose_involution(chain[i]);
    }
    assert(panels_of(columns) =~= chain);
}

/// Counts the blank columns at the start of `columns`.
pub fn count_leading_blanks(columns: &[u8]) -> (n: usize)
    ensures
        n == leading_blanks(columns@),
{
    let mut n: usize = 0;
    while n < columns.len() && columns[n] == 0
        invariant
            n <= columns@.len(),
            forall|i: int| 0 <= i < n ==> columns@[i] == 0,
        decreases columns@.len() - n,
    {
        n += 1;
    }
    proof {
        lemma_leading_blanks_is(columns@, n as nat);
    }
    n
}

/// Counts the blank columns at the end of `columns`.
pub fn count_trailing_blanks(columns: &[u8]) -> (n: usize)
    ensures
        n == trailing_blanks(columns@),
{
    let len = columns.len();
    let mut n: usize = 0;
    while n < len && columns[len - 1 - n] == 0
        invariant
            len == columns@.len(),
            n <= len,
            forall|i: int| len - n <= i < len ==> columns@[i] == 0,
        decreases len - n,
    {
        n += 1;
    }
    proof {
        lemma_trailing_blanks_is(columns@, n as nat);
    }
    n
}

/// Compacts a buffer of columns: the blank columns at its start and at its end
/// stay, and between them each run of blank columns longer than `max_gap` is
/// cut down to `max_gap` columns. A buffer that is blank throughout comes back
/// unchanged.
pub fn compact_columns(columns: &[u8], max_gap: usize) -> (out: Vec<u8>)
    ensures
        out@ == compacted(columns@, max_gap as nat),
{
    let len = columns.len();
    let lead = count_leading_blanks(columns);
    let trail = if lead == len {
        0
    } else {
        count_trailing_blanks(columns)
    };
    proof {
        lemma_margins_fit(columns@);
    }
    let end = len - trail;
    let mut out: Vec<u8> = Vec::new();
    for k in 0..lead
        invariant
            out@ == blank_columns(k as nat),
    {
        out.push(0);
    }
    let mut run: usize = 0;
    for i in lead..end
        invariant
            lead <= end <= columns@.len(),
            run == trailing_blanks(columns@.subrange(lead as int, i as int)),
            run <= i - lead,
            out@ == blank_columns(lead as nat) + capped(columns@.subrange(lead as int, i as int), max_gap as nat),
    {
        let ghost before = columns@.subrange(lead as int, i as int);
        let ghost now = columns@.subrange(lead as int, i + 1);
        assert(now.drop_last() == before);
        assert(now.last() == columns@[i as int]);
        if columns[i] == 0 {
            run += 1;
        } else {
            run = 0;
        }
        if run <= max_gap {
            out.push(columns[i]);
        }
    }
    assert(columns@.subrange(lead as int, end as int) == interior(columns@));
    let ghost body = out@;
    for k in 0..trail
        invariant
            out@ == body + blank_columns(k as nat),
    {
        out.push(0);
    }
    out
}

/// Lays the columns of a chain out in one buffer, from the leftmost column of
/// the first panel to the rightmost column of the last.
pub fn flatten_columns(display_data: &[SingleDisplayData]) -> (columns: Vec<u8>)
    ensures
        columns@ == columns_of(rows_of(display_data@)),
{
    let mut columns: Vec<u8> = Vec::new();
    for i in 0..display_data.len()
        invariant
            columns@.len() == 8 * i,
            forall|x: int| 0 <= x < 8 * i ==> columns@[x] == column_byte(display_data@[x / 8]@, x % 8),
    {
        let panel = transpose_single_display_data(display_data[i]);
        for j in 0..8usize
            invariant
                i < display_data@.len(),
                panel@ == transposed(display_data@[i as int]@),
                columns@.len() == 8 * i + j,
                forall|x: int| 0 <= x < 8 * i + j ==> columns@[x] == column_byte(display_data@[x / 8]@, x % 8),
        {
            columns.push(panel[j]);
        }
    }
    columns
}

/// Appends blank columns until the buffer holds whole panels only.
pub fn pad_columns(columns: &mut Vec<u8>)
    ensures
        final(columns)@ == padded(old(columns)@),
{
    let ghost start = columns@;
    let rest = columns.len() % 8;
    if rest != 0 {
        for k in 0..8 - rest
            invariant
                columns@ == start + blank_columns(k as nat),
        {
            columns.push(0);
        }
    } else {
        assert(columns@ == start + blank_columns(0));
    }
}

/// Cuts a buffer of columns into panels of eight columns each and turns each
/// panel back into rows. Columns beyond the last whole panel are left out.
pub fn chunk_columns(columns: &[u8]) -> (chain: Vec<SingleDisplayData>)
    ensures
        rows_of(chain@) == panels_of(columns@),
{
    let count = columns.len() / 8;
    let mut chain: Vec<SingleDisplayData> = Vec::new();
    for i in 0..count
        invariant
            8 * count <= columns@.len() <= usize::MAX,
            chain@.len() == i,
            forall|p: int| 0 <= p < i ==> (#[trigger] chain@[p])@ == transposed(columns@.subrange(8 * p, 8 * p + 8)),
    {
        let mut slice: SingleDisplayData = [0; 8];
        for j in 0..8usize
            invariant
                i < count,
                8 * count <= columns@.len() <= usize::MAX,
                forall|c: int| 0 <= c < j ==> slice@[c] == columns@[8 * i + c],
        {
            slice[j] = columns[i * 8 + j];
        }
        assert(slice@ == columns@.subrange(8 * i, 8 * i + 8));
        chain.push(transpose_single_display_data(slice));
    }
    chain
}

/// Removes the excess blank columns between the glyphs of a chain. The blank
/// columns at the start and at the end of the chain stay; between them every
/// run of blank columns longer than `max_gap_size` is cut down to
/// `max_gap_size` columns. The result is filled up with blank columns to whole
/// panels.
pub fn remove_gaps_in_display_text(display_data: &[SingleDisplayData], max_gap_size: usize) -> (shrinked: Vec<
    SingleDisplayData,
>)
    ensures
        rows_of(shrinked@) == panels_of(compacted_columns(rows_of(display_data@), max_gap_size as nat)),
        columns_of(rows_of(shrinked@)) == compacted_columns(rows_of(display_data@), max_gap_size as nat),
        shrinked@.len() <= display_data@.len(),
        display_data@.len() > 0 ==> shrinked@.len() > 0,
{
    let expanded = flatten_columns(display_data);
    let mut columns = compact_columns(expanded.as_slice(), max_gap_size);
    pad_columns(&mut columns);
    proof {
        lemma_compacted_chain_len(rows_of(display_data@), max_gap_size as nat);
        lemma_columns_of_panels(columns@);
    }
    chunk_columns(columns.as_slice())
}

} // verus!
