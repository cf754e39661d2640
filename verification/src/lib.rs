//! Framebuffer transforms for text on a chain of 8x8 LED matrix panels.
//!
//! A chain of panels is a sequence of [`SingleDisplayData`]. The crate encodes
//! text into such a chain, cuts down the gaps between the glyphs, scrolls the
//! chain column by column, and says which commands show it on the displays.

pub mod grid;
pub mod transpose;
pub mod compact;
pub mod scroll;
pub mod encoding;
pub mod display;

pub use crate::compact::remove_gaps_in_display_text;
pub use crate::display::clear_with_state;
pub use crate::display::draw_point;
pub use crate::display::prepare_display;
pub use crate::display::DecodeMode;
pub use crate::display::DisplayCommand;
pub use crate::display::MovingText;
pub use crate::encoding::encode_char;
pub use crate::encoding::encode_string;
pub use crate::encoding::Glyph;
pub use crate::encoding::UnsupportedGlyph;
pub use crate::grid::SingleDisplayData;
pub use crate::grid::LED_SQUARE_MATRIX_DIM;
pub use crate::grid::MAX_DISPLAYS;
pub use crate::scroll::shift_all_rows_one_bit_left;
pub use crate::scroll::shift_left;
pub use crate::transpose::transpose_single_display_data;
