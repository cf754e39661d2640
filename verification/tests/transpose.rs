use led_matrix_util::transpose_single_display_data;
use led_matrix_util::SingleDisplayData;

fn sample(seed: u32) -> SingleDisplayData {
    let mut state = seed;
    let mut grid: SingleDisplayData = [0; 8];
    for row in grid.iter_mut() {
        state = state.wrapping_mul(1664525).wrapping_add(1013904223);
        *row = (state >> 24) as u8;
    }
    grid
}

#[test]
fn left_column_becomes_top_row() {
    let grid: SingleDisplayData = [0b10000000; 8];
    assert_eq!(transpose_single_display_data(grid), [0b11111111, 0, 0, 0, 0, 0, 0, 0]);
}

#[test]
fn top_row_becomes_left_column() {
    let grid: SingleDisplayData = [0b11111111, 0, 0, 0, 0, 0, 0, 0];
    assert_eq!(transpose_single_display_data(grid), [0b10000000; 8]);
}

#[test]
fn top_right_pixel_moves_to_bottom_left() {
    let grid: SingleDisplayData = [0b00000001, 0, 0, 0, 0, 0, 0, 0];
    assert_eq!(transpose_single_display_data(grid), [0, 0, 0, 0, 0, 0, 0, 0b10000000]);
}

#[test]
fn diagonal_stays() {
    let grid: SingleDisplayData = [0x80, 0x40, 0x20, 0x10, 0x08, 0x04, 0x02, 0x01];
    assert_eq!(transpose_single_display_data(grid), grid);
}

#[test]
fn blank_and_full_stay() {
    assert_eq!(transpose_single_display_data([0; 8]), [0; 8]);
    assert_eq!(transpose_single_display_data([0xff; 8]), [0xff; 8]);
}

#[test]
fn exact_value_of_an_uneven_grid() {
    let grid: SingleDisplayData = [
        0b11000000, 0b00100000, 0b00010000, 0b00001111, 0b00000000, 0b10000001, 0b01111110, 0b00000011,
    ];
    let expected: SingleDisplayData = [
        0b10000100, 0b10000010, 0b01000010, 0b00100010, 0b00010010, 0b00010010, 0b00010011, 0b00010101,
    ];
    assert_eq!(transpose_single_display_data(grid), expected);
}

#[test]
fn every_pixel_swaps_its_coordinates() {
    for seed in 0..50u32 {
        let grid = sample(seed);
        let turned = transpose_single_display_data(grid);
        for r in 0..8 {
            for c in 0..8 {
                let before = (grid[r] >> (7 - c)) & 1;
                let after = (turned[c] >> (7 - r)) & 1;
                assert_eq!(before, after);
            }
        }
    }
}

#[test]
fn transposing_twice_gives_the_grid_back() {
    for seed in 0..200u32 {
        let grid = sample(seed);
        assert_eq!(transpose_single_display_data(transpose_single_display_data(grid)), grid);
    }
}
