use led_matrix_util::clear_with_state;
use led_matrix_util::display::wrap_display_index;
use led_matrix_util::draw_point;
use led_matrix_util::prepare_display;
use led_matrix_util::remove_gaps_in_display_text;
use led_matrix_util::DecodeMode;
use led_matrix_util::DisplayCommand;
use led_matrix_util::MovingText;
use led_matrix_util::SingleDisplayData;
use led_matrix_util::LED_SQUARE_MATRIX_DIM;
use led_matrix_util::MAX_DISPLAYS;

#[test]
fn limits_of_the_hardware() {
    assert_eq!(LED_SQUARE_MATRIX_DIM, 8);
    assert_eq!(MAX_DISPLAYS, 16);
}

#[test]
fn display_index_wraps_at_the_chain_limit() {
    assert_eq!(wrap_display_index(0), 0);
    assert_eq!(wrap_display_index(3), 3);
    assert_eq!(wrap_display_index(15), 15);
    assert_eq!(wrap_display_index(16), 0);
    assert_eq!(wrap_display_index(17), 1);
    assert_eq!(wrap_display_index(usize::MAX), usize::MAX % 16);
}

#[test]
fn setup_of_two_displays() {
    assert_eq!(
        prepare_display(2, 0x0f),
        vec![
            DisplayCommand::PowerOn,
            DisplayCommand::SetDecodeMode { addr: 0, mode: DecodeMode::RawMatrix },
            DisplayCommand::ClearDisplay { addr: 0 },
            DisplayCommand::SetIntensity { addr: 0, intensity: 0x0f },
            DisplayCommand::SetDecodeMode { addr: 1, mode: DecodeMode::RawMatrix },
            DisplayCommand::ClearDisplay { addr: 1 },
            DisplayCommand::SetIntensity { addr: 1, intensity: 0x0f },
        ]
    );
}

#[test]
fn setup_of_no_display_only_powers_on() {
    assert_eq!(prepare_display(0, 3), vec![DisplayCommand::PowerOn]);
    assert_eq!(prepare_display(16, 3), vec![DisplayCommand::PowerOn]);
}

#[test]
fn setup_wraps_the_number_of_displays() {
    assert_eq!(prepare_display(18, 7), prepare_display(2, 7));
    let commands = prepare_display(15, 1);
    assert_eq!(commands.len(), 1 + 3 * 15);
    assert_eq!(commands[45], DisplayCommand::SetIntensity { addr: 14, intensity: 1 });
    assert_eq!(commands[43], DisplayCommand::SetDecodeMode { addr: 14, mode: DecodeMode::RawMatrix });
}

#[test]
fn point_at_top_left_and_bottom_right() {
    let mut state: SingleDisplayData = [0; 8];
    let command = draw_point(0, &mut state, 1, 1);
    assert_eq!(state, [0b10000000, 0, 0, 0, 0, 0, 0, 0]);
    assert_eq!(command, Some(DisplayCommand::WriteRaw { addr: 0, raw: [0b10000000, 0, 0, 0, 0, 0, 0, 0] }));
    let command = draw_point(3, &mut state, 8, 8);
    assert_eq!(state, [0b10000000, 0, 0, 0, 0, 0, 0, 0b00000001]);
    assert_eq!(command, Some(DisplayCommand::WriteRaw { addr: 3, raw: state }));
}

#[test]
fn point_keeps_what_is_lit() {
    let mut state: SingleDisplayData = [0, 0, 0b01000010, 0, 0, 0, 0, 0];
    let command = draw_point(1, &mut state, 3, 3);
    assert_eq!(state, [0, 0, 0b01100010, 0, 0, 0, 0, 0]);
    assert_eq!(command, Some(DisplayCommand::WriteRaw { addr: 1, raw: state }));
    let command = draw_point(1, &mut state, 3, 3);
    assert_eq!(state, [0, 0, 0b01100010, 0, 0, 0, 0, 0]);
    assert_eq!(command, Some(DisplayCommand::WriteRaw { addr: 1, raw: state }));
}

#[test]
fn point_outside_the_display_changes_nothing() {
    let before: SingleDisplayData = [1, 2, 3, 4, 5, 6, 7, 8];
    for (x, y) in [(0, 1), (1, 0), (9, 1), (1, 9), (0, 0), (9, 9), (usize::MAX, 4), (4, usize::MAX)] {
        let mut state = before;
        assert_eq!(draw_point(0, &mut state, x, y), None);
        assert_eq!(state, before);
    }
}

#[test]
fn point_address_wraps_at_the_chain_limit() {
    let mut state: SingleDisplayData = [0; 8];
    let command = draw_point(17, &mut state, 2, 1);
    assert_eq!(command, Some(DisplayCommand::WriteRaw { addr: 1, raw: [0b01000000, 0, 0, 0, 0, 0, 0, 0] }));
}

#[test]
fn every_point_lights_its_own_pixel() {
    for y in 1..=8usize {
        for x in 1..=8usize {
            let mut state: SingleDisplayData = [0; 8];
            assert!(draw_point(0, &mut state, x, y).is_some());
            for r in 0..8 {
                for c in 0..8 {
                    let lit = (state[r] >> (7 - c)) & 1 == 1;
                    assert_eq!(lit, r == y - 1 && c == x - 1);
                }
            }
        }
    }
}

#[test]
fn clearing_blanks_the_state() {
    let mut state: SingleDisplayData = [1, 2, 3, 4, 5, 6, 7, 0xff];
    let command = clear_with_state(2, &mut state);
    assert_eq!(state, [0; 8]);
    assert_eq!(command, DisplayCommand::ClearDisplay { addr: 2 });
    assert_eq!(clear_with_state(16 + 5, &mut state), DisplayCommand::ClearDisplay { addr: 5 });
}

#[test]
fn tick_shows_the_frame_and_moves_the_text() {
    let first: SingleDisplayData = [0b01000000, 0, 0, 0, 0, 0, 0, 0];
    let second: SingleDisplayData = [0b11000000, 0, 0, 0, 0, 0, 0, 0];
    let third: SingleDisplayData = [0xff; 8];
    let mut text = MovingText::new(vec![first, second, third], 2, 0, true).unwrap();
    assert_eq!(text.display_bits(), &vec![first, second, third]);
    let commands = text.tick();
    assert_eq!(
        commands,
        vec![DisplayCommand::WriteRaw { addr: 0, raw: first }, DisplayCommand::WriteRaw { addr: 1, raw: second }]
    );
    let moved_first: SingleDisplayData = [0b10000001, 0, 0, 0, 0, 0, 0, 0];
    let moved_second: SingleDisplayData = [0b10000001, 1, 1, 1, 1, 1, 1, 1];
    let moved_third: SingleDisplayData = [0xfe; 8];
    assert_eq!(text.display_bits(), &vec![moved_first, moved_second, moved_third]);
    let commands = text.tick();
    assert_eq!(
        commands,
        vec![
            DisplayCommand::WriteRaw { addr: 0, raw: moved_first },
            DisplayCommand::WriteRaw { addr: 1, raw: moved_second },
        ]
    );
}

#[test]
fn tick_without_repeat_drops_what_leaves() {
    let mut text = MovingText::new(vec![[0b10000001; 8]], 1, 0, false).unwrap();
    assert_eq!(text.tick(), vec![DisplayCommand::WriteRaw { addr: 0, raw: [0b10000001; 8] }]);
    assert_eq!(text.display_bits(), &vec![[0b00000010u8; 8]]);
}

#[test]
fn text_shorter_than_the_displays_cannot_be_shown() {
    assert!(MovingText::new(vec![[1; 8]], 2, 0, true).is_none());
    assert!(MovingText::new(Vec::new(), 1, 0, true).is_none());
    assert!(MovingText::new(vec![[1; 8]], 1, 0, true).is_some());
    assert!(MovingText::new(Vec::new(), 0, 0, true).is_some());
}

#[test]
fn number_of_displays_wraps_at_the_chain_limit() {
    let mut text = MovingText::new(vec![[1; 8], [2; 8]], 17, 0, true).unwrap();
    assert_eq!(text.tick(), vec![DisplayCommand::WriteRaw { addr: 0, raw: [1; 8] }]);
    let mut text = MovingText::new(vec![[1; 8], [2; 8]], 16, 0, true).unwrap();
    assert_eq!(text.tick(), Vec::new());
}

#[test]
fn gaps_are_removed_unless_the_width_is_zero() {
    let mut wide: SingleDisplayData = [0; 8];
    wide[0] = 0b10000001;
    let raw = vec![wide, wide, wide];
    let kept = MovingText::new(raw.clone(), 1, 0, true).unwrap();
    assert_eq!(kept.display_bits(), &raw);
    let shrinked = MovingText::new(raw.clone(), 1, 2, true).unwrap();
    assert_eq!(shrinked.display_bits(), &remove_gaps_in_display_text(&raw, 2));
    assert_eq!(shrinked.display_bits().len(), 2);
    assert!(MovingText::new(raw, 3, 2, true).is_none());
}
