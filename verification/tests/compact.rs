use led_matrix_util::compact::chunk_columns;
use led_matrix_util::compact::compact_columns;
use led_matrix_util::compact::count_leading_blanks;
use led_matrix_util::compact::count_trailing_blanks;
use led_matrix_util::compact::flatten_columns;
use led_matrix_util::compact::pad_columns;
use led_matrix_util::remove_gaps_in_display_text;
use led_matrix_util::transpose_single_display_data;
use led_matrix_util::SingleDisplayData;

fn sample_columns(seed: u32, len: usize) -> Vec<u8> {
    let mut state = seed;
    let mut columns = Vec::new();
    for _ in 0..len {
        state = state.wrapping_mul(1664525).wrapping_add(1013904223);
        let lit = (state >> 28) < 5;
        columns.push(if lit { (state >> 16) as u8 | 1 } else { 0 });
    }
    columns
}

fn longest_inner_gap(columns: &[u8]) -> usize {
    let lead = count_leading_blanks(columns);
    let trail = count_trailing_blanks(columns);
    let mut longest = 0;
    let mut run = 0;
    if lead + trail >= columns.len() {
        return 0;
    }
    for column in &columns[lead..columns.len() - trail] {
        if *column == 0 {
            run += 1;
            if run > longest {
                longest = run;
            }
        } else {
            run = 0;
        }
    }
    longest
}

#[test]
fn long_gap_is_cut_down_and_margins_stay() {
    let columns = [0u8, 0, 0, 1, 0, 0, 0, 0, 0, 1, 0, 0];
    assert_eq!(compact_columns(&columns, 2), vec![0u8, 0, 0, 1, 0, 0, 1, 0, 0]);
}

#[test]
fn gap_width_one_and_zero() {
    let columns = [0u8, 0, 0, 1, 0, 0, 0, 0, 0, 1, 0, 0];
    assert_eq!(compact_columns(&columns, 1), vec![0u8, 0, 0, 1, 0, 1, 0, 0]);
    assert_eq!(compact_columns(&columns, 0), vec![0u8, 0, 0, 1, 1, 0, 0]);
}

#[test]
fn short_gaps_and_lit_columns_stay() {
    let columns = [7u8, 0, 0, 9, 0, 3, 3, 0, 0, 0, 5];
    assert_eq!(compact_columns(&columns, 3), columns.to_vec());
    assert_eq!(compact_columns(&columns, 2), vec![7u8, 0, 0, 9, 0, 3, 3, 0, 0, 5]);
    assert_eq!(compact_columns(&columns, 100), columns.to_vec());
}

#[test]
fn blank_buffer_comes_back_unchanged() {
    assert_eq!(compact_columns(&[0u8; 11], 2), vec![0u8; 11]);
    assert_eq!(compact_columns(&[0u8; 1], 1), vec![0u8; 1]);
    assert_eq!(compact_columns(&[], 2), Vec::<u8>::new());
}

#[test]
fn single_lit_column_keeps_both_margins() {
    let columns = [0u8, 0, 0, 0, 0x81, 0, 0, 0, 0, 0];
    assert_eq!(compact_columns(&columns, 1), columns.to_vec());
}

#[test]
fn margins_are_counted() {
    assert_eq!(count_leading_blanks(&[0, 0, 0, 1, 0, 0]), 3);
    assert_eq!(count_trailing_blanks(&[0, 0, 0, 1, 0, 0]), 2);
    assert_eq!(count_leading_blanks(&[1, 0]), 0);
    assert_eq!(count_trailing_blanks(&[0, 1]), 0);
    assert_eq!(count_leading_blanks(&[0, 0, 0]), 3);
    assert_eq!(count_trailing_blanks(&[0, 0, 0]), 3);
    assert_eq!(count_leading_blanks(&[]), 0);
    assert_eq!(count_trailing_blanks(&[]), 0);
}

#[test]
fn padding_fills_the_last_panel() {
    let mut columns = vec![1u8; 9];
    pad_columns(&mut columns);
    assert_eq!(columns, vec![1u8, 1, 1, 1, 1, 1, 1, 1, 1, 0, 0, 0, 0, 0, 0, 0]);
    let mut columns = vec![1u8; 8];
    pad_columns(&mut columns);
    assert_eq!(columns, vec![1u8; 8]);
    let mut columns = vec![1u8; 15];
    pad_columns(&mut columns);
    assert_eq!(columns.len(), 16);
    assert_eq!(columns[15], 0);
    let mut columns: Vec<u8> = Vec::new();
    pad_columns(&mut columns);
    assert!(columns.is_empty());
}

#[test]
fn columns_of_a_chain_run_from_left_to_right() {
    let chain: Vec<SingleDisplayData> = vec![[0b10000000; 8], [0b00000001, 0, 0, 0, 0, 0, 0, 0b00000010]];
    assert_eq!(
        flatten_columns(&chain),
        vec![0xffu8, 0, 0, 0, 0, 0, 0, 0, 0, 0, 0, 0, 0, 0, 0b00000001, 0b10000000]
    );
    assert_eq!(flatten_columns(&[]), Vec::<u8>::new());
}

#[test]
fn chunking_turns_columns_back_into_rows() {
    let columns = vec![0xffu8, 0, 0, 0, 0, 0, 0, 0, 0, 0, 0, 0, 0, 0, 0b00000001, 0b10000000];
    let chain: Vec<SingleDisplayData> = vec![[0b10000000; 8], [0b00000001, 0, 0, 0, 0, 0, 0, 0b00000010]];
    assert_eq!(chunk_columns(&columns), chain);
}

#[test]
fn chunking_leaves_out_an_unfinished_panel() {
    let mut columns = vec![0xffu8, 0, 0, 0, 0, 0, 0, 0];
    columns.extend_from_slice(&[1, 2, 3]);
    assert_eq!(chunk_columns(&columns), vec![[0b10000000u8; 8]]);
    assert_eq!(chunk_columns(&[1, 2, 3]), Vec::<SingleDisplayData>::new());
}

#[test]
fn flatten_and_chunk_undo_each_other() {
    for seed in 0..20u32 {
        let columns = sample_columns(seed, 8 * (seed as usize % 5));
        let chain = chunk_columns(&columns);
        assert_eq!(chain.len(), columns.len() / 8);
        assert_eq!(flatten_columns(&chain), columns);
        assert_eq!(chunk_columns(&flatten_columns(&chain)), chain);
    }
}

#[test]
fn chain_with_one_long_gap_shrinks_to_one_panel() {
    let mut columns = vec![0u8; 24];
    columns[0] = 0b11110000;
    columns[23] = 0b00001111;
    let chain = chunk_columns(&columns);
    assert_eq!(chain.len(), 3);
    let shrinked = remove_gaps_in_display_text(&chain, 1);
    assert_eq!(shrinked.len(), 1);
    assert_eq!(flatten_columns(&shrinked), vec![0b11110000u8, 0, 0b00001111, 0, 0, 0, 0, 0]);
    let expected: SingleDisplayData = transpose_single_display_data([0b11110000, 0, 0b00001111, 0, 0, 0, 0, 0]);
    assert_eq!(shrinked[0], expected);
    assert_eq!(shrinked[0], [0b10000000, 0b10000000, 0b10000000, 0b10000000, 0b00100000, 0b00100000, 0b00100000, 0b00100000]);
}

#[test]
fn chain_of_whole_panels_gets_no_padding() {
    let columns = vec![0u8, 0, 0, 1, 0, 0, 0, 0, 0, 1, 0, 0, 0, 0, 0, 0, 0, 0, 0, 3, 0, 0, 0, 0];
    let chain = chunk_columns(&columns);
    let shrinked = remove_gaps_in_display_text(&chain, 2);
    assert_eq!(flatten_columns(&shrinked), vec![0u8, 0, 0, 1, 0, 0, 1, 0, 0, 3, 0, 0, 0, 0, 0, 0]);
    assert_eq!(shrinked.len(), 2);
}

#[test]
fn chain_without_long_gaps_stays() {
    for seed in 0..10u32 {
        let columns = sample_columns(seed, 32);
        let chain = chunk_columns(&columns);
        assert_eq!(remove_gaps_in_display_text(&chain, 32), chain);
    }
}

#[test]
fn blank_chain_stays() {
    let chain: Vec<SingleDisplayData> = vec![[0; 8]; 3];
    assert_eq!(remove_gaps_in_display_text(&chain, 2), chain);
}

#[test]
fn empty_chain_gives_empty_chain() {
    let chain: Vec<SingleDisplayData> = Vec::new();
    assert_eq!(remove_gaps_in_display_text(&chain, 2), Vec::<SingleDisplayData>::new());
}

#[test]
fn no_inner_gap_is_longer_than_allowed() {
    for seed in 0..60u32 {
        let max_gap = 1 + (seed as usize % 4);
        let columns = sample_columns(seed, 8 * (1 + seed as usize % 6));
        let compact = compact_columns(&columns, max_gap);
        assert!(longest_inner_gap(&compact) <= max_gap);
        let chain = chunk_columns(&columns);
        let shrinked = flatten_columns(&remove_gaps_in_display_text(&chain, max_gap));
        assert!(longest_inner_gap(&shrinked) <= max_gap);
    }
}

#[test]
fn margins_keep_their_width() {
    for seed in 0..60u32 {
        let max_gap = 1 + (seed as usize % 3);
        let columns = sample_columns(seed, 8 * (1 + seed as usize % 6));
        let compact = compact_columns(&columns, max_gap);
        assert_eq!(count_leading_blanks(&compact), count_leading_blanks(&columns));
        assert_eq!(count_trailing_blanks(&compact), count_trailing_blanks(&columns));
        let chain = chunk_columns(&columns);
        let shrinked = flatten_columns(&remove_gaps_in_display_text(&chain, max_gap));
        let padding = shrinked.len() - compact.len();
        assert!(padding < 8);
        assert_eq!(count_leading_blanks(&shrinked), count_leading_blanks(&columns));
        assert_eq!(count_trailing_blanks(&shrinked), count_trailing_blanks(&columns) + padding);
    }
}

#[test]
fn result_has_whole_panels_and_at_least_one() {
    for seed in 0..60u32 {
        let max_gap = 1 + (seed as usize % 3);
        let panels = 1 + seed as usize % 6;
        let columns = sample_columns(seed, 8 * panels);
        let chain = chunk_columns(&columns);
        let shrinked = remove_gaps_in_display_text(&chain, max_gap);
        let width = flatten_columns(&shrinked).len();
        assert_eq!(width % 8, 0);
        assert!(width > 0);
        assert!(shrinked.len() <= panels);
    }
}

#[test]
fn lit_columns_keep_their_order() {
    for seed in 0..30u32 {
        let columns = sample_columns(seed, 40);
        let lit: Vec<u8> = columns.iter().copied().filter(|c| *c != 0).collect();
        let chain = chunk_columns(&columns);
        let shrinked = flatten_columns(&remove_gaps_in_display_text(&chain, 1));
        let kept: Vec<u8> = shrinked.iter().copied().filter(|c| *c != 0).collect();
        assert_eq!(kept, lit);
    }
}
