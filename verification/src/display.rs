//! What the display driver is asked to do: the commands that set a chain of
//! displays up, draw on one of them, and show a frame of moving text.

use vstd::prelude::*;
use crate::grid::SingleDisplayData;
use crate::grid::MAX_DISPLAYS;
use crate::grid::rows_of;
use crate::grid::lit;
use crate::compact::compacted_columns;
use crate::compact::panels_of;
use crate::compact::remove_gaps_in_display_text;
use crate::scroll::shifted;
use crate::scroll::shift_left;

verus! {

/// How a display reads the bytes that it is sent.
#[derive(Clone, Copy, Debug, PartialEq, Eq)]
pub enum DecodeMode {
    /// Every bit is one pixel of the matrix.
    RawMatrix,
    /// Every byte is the code of a seven-segment digit.
    SevenSegmentDecode,
}

/// One request to the display driver.
#[derive(Clone, Copy, Debug, PartialEq, Eq)]
pub enum DisplayCommand {
    /// Switch all displays on.
    PowerOn,
    /// Set how the display at `addr` reads its bytes.
    SetDecodeMode { addr: usize, mode: DecodeMode },
    /// Turn every pixel of the display at `addr` off.
    ClearDisplay { addr: usize },
    /// Set the brightness of the display at `addr`.
    SetIntensity { addr: usize, intensity: u8 },
    /// Show the panel `raw` on the display at `addr`.
    WriteRaw { addr: usize, raw: SingleDisplayData },
}

/// Brings a display index, or a number of displays, into the range that one
/// controller chain can address.
pub fn wrap_display_index(index: usize) -> (wrapped: usize)
    ensures
        wrapped == index % MAX_DISPLAYS,
{
    index % MAX_DISPLAYS
}

/// The command at place `k` of the setup of a chain of displays.
pub open spec fn setup_step(k: int, intensity: u8) -> DisplayCommand {
    if k == 0 {
        DisplayCommand::PowerOn
    } else if (k - 1) % 3 == 0 {
        DisplayCommand::SetDecodeMode { addr: ((k - 1) / 3) as usize, mode: DecodeMode::RawMatrix }
    } else if (k - 1) % 3 == 1 {
        DisplayCommand::ClearDisplay { addr: ((k - 1) / 3) as usize }
    } else {
        DisplayCommand::SetIntensity { addr: ((k - 1) / 3) as usize, intensity }
    }
}

/// The setup of `count` displays: power on, then for each display in turn
/// raw matrix mode, a clear, and the brightness.
pub open spec fn setup_script(count: nat, intensity: u8) -> Seq<DisplayCommand> {
    Seq::new(1 + 3 * count, |k: int| setup_step(k, intensity))
}

/// The commands that prepare a chain of displays for matrix content: all
/// displays are switched on, and each of the first `display_count` modulo
/// `MAX_DISPLAYS` displays is put into raw matrix mode, cleared, and set to
/// the brightness `intensity`.
pub fn prepare_display(display_count: usize, intensity: u8) -> (commands: Vec<DisplayCommand>)
    ensures
        commands@ == setup_script((display_count % MAX_DISPLAYS) as nat, intensity),
{
    let display_count = wrap_display_index(display_count);
    let mut commands: Vec<DisplayCommand> = Vec::new();
    commands.push(DisplayCommand::PowerOn);
    for i in 0..display_count
        invariant
            display_count < MAX_DISPLAYS,
            commands@ == setup_script(i as nat, intensity),
    {
        commands.push(DisplayCommand::SetDecodeMode { addr: i, mode: DecodeMode::RawMatrix });
        commands.push(DisplayCommand::ClearDisplay { addr: i });
        commands.push(DisplayCommand::SetIntensity { addr: i, intensity });
    }
    commands
}

/// The byte with only the pixel of column `x` lit, columns counted from 1 at
/// the left.
pub open spec fn point_mask(x: int) -> u8 {
    1u8 << ((8 - x) as u8)
}

/// Lighting a point lights the pixel of its column and changes no other.
pub proof fn lemma_point_mask_pixels(row: u8, x: int, col: int)
    requires
        1 <= x <= 8,
        0 <= col < 8,
    ensures
        lit(row | point_mask(x), col) == (col == x - 1 || lit(row, col)),
{
    let s = (8 - x) as u8;
    let t = (7 - col) as u8;
    assert((((row | (1u8 << s)) >> t) & 1 == 1) == (t == s || (row >> t) & 1 == 1)) by (bit_vector)
        requires
            s < 8,
            t < 8,
    ;
}

/// Lights the point in column `x` and row `y` of a display, both counted from
/// 1 at the top left, in the caller's record of what the display shows, and
/// gives the command that shows the new state on the display at `addr` modulo
/// `MAX_DISPLAYS`. A point outside the display changes nothing and gives no
/// command.
pub fn draw_point(addr: usize, display_actual_state: &mut SingleDisplayData, x: usize, y: usize) -> (command: Option<
    DisplayCommand,
>)
    ensures
        1 <= x <= 8 && 1 <= y <= 8 ==> {
            &&& final(display_actual_state)@ == old(display_actual_state)@.update(
                y - 1,
                old(display_actual_state)@[y - 1] | point_mask(x as int),
            )
            &&& command == Some(
                DisplayCommand::WriteRaw { addr: addr % MAX_DISPLAYS, raw: *final(display_actual_state) },
            )
        },
        !(1 <= x <= 8 && 1 <= y <= 8) ==> {
            &&& *final(display_actual_state) == *old(display_actual_state)
            &&& command is None
        },
{
    if (x < 1 || x > 8) || (y < 1 || y > 8) {
        return None;
    }
    let row = display_actual_state[y - 1];
    display_actual_state[y - 1] = row | (1u8 << (8 - x));
    Some(DisplayCommand::WriteRaw { addr: wrap_display_index(addr), raw: *display_actual_state })
}

/// Turns every pixel off in the caller's record of what a display shows, and
/// gives the command that clears the display at `addr` modulo `MAX_DISPLAYS`.
pub fn clear_with_state(addr: usize, display_actual_state: &mut SingleDisplayData) -> (command: DisplayCommand)
    ensures
        forall|i: int| 0 <= i < 8 ==> final(display_actual_state)@[i] == 0,
        command == (DisplayCommand::ClearDisplay { addr: addr % MAX_DISPLAYS }),
{
    for i in 0..8usize
        invariant
            forall|j: int| 0 <= j < i ==> display_actual_state@[j] == 0,
    {
        display_actual_state[i] = 0;
    }
    DisplayCommand::ClearDisplay { addr: wrap_display_index(addr) }
}

/// The chain that a moving text starts with: the encoded text, with the gaps
/// between its glyphs cut down to `max_gap_width` columns unless that is 0.
pub open spec fn prepared_text(raw_bits: Seq<Seq<u8>>, max_gap_width: nat) -> Seq<Seq<u8>> {
    if max_gap_width > 0 {
        panels_of(compacted_columns(raw_bits, max_gap_width))
    } else {
        raw_bits
    }
}

/// One frame of an animation: every display gets its panel, the first display
/// first.
pub open spec fn frame_script(bits: Seq<SingleDisplayData>, display_count: nat) -> Seq<DisplayCommand> {
    Seq::new(display_count, |k: int| DisplayCommand::WriteRaw { addr: k as usize, raw: bits[k] })
}

/// A text that moves over a chain of displays, one column to the left with
/// every tick.
pub struct MovingText {
    display_bits: Vec<SingleDisplayData>,
    display_count: usize,
    repeat: bool,
}

impl MovingText {
    /// The state is well formed when the text has a panel for every display.
    pub closed spec fn well_formed(&self) -> bool {
        self.display_count <= self.display_bits@.len()
    }

    /// The panels of the text as they stand now.
    pub closed spec fn bits(&self) -> Seq<SingleDisplayData> {
        self.display_bits@
    }

    /// The number of displays that show the text.
    pub closed spec fn count(&self) -> nat {
        self.display_count as nat
    }

    /// Whether what leaves the text on the left comes back on the right.
    pub closed spec fn repeats(&self) -> bool {
        self.repeat
    }

    /// Sets a text up for `display_count` modulo `MAX_DISPLAYS` displays.
    /// The gaps between the glyphs of `raw_bits` are cut down to
    /// `max_gap_width` columns, unless that is 0. There is no such animation
    /// when the text then has fewer panels than there are displays.
    pub fn new(
        raw_bits: Vec<SingleDisplayData>,
        display_count: usize,
        max_gap_width: usize,
        repeat: bool,
    ) -> (text: Option<MovingText>)
        ensures
            text is Some <==> display_count % MAX_DISPLAYS <= prepared_text(
                rows_of(raw_bits@),
                max_gap_width as nat,
            ).len(),
            text matches Some(t) ==> {
                &&& t.well_formed()
                &&& rows_of(t.bits()) == prepared_text(rows_of(raw_bits@), max_gap_width as nat)
                &&& t.count() == display_count % MAX_DISPLAYS
                &&& t.count() <= t.bits().len()
                &&& t.repeats() == repeat
            },
    {
        let display_count = wrap_display_index(display_count);
        let display_bits = if max_gap_width > 0 {
            remove_gaps_in_display_text(raw_bits.as_slice(), max_gap_width)
        } else {
            raw_bits
        };
        if display_count <= display_bits.len() {
            Some(MovingText { display_bits, display_count, repeat })
        } else {
            None
        }
    }

    /// One tick of the animation: gives the commands of the frame that shows
    /// the text as it stands, then moves the text one column to the left for
    /// the next frame.
    pub fn tick(&mut self) -> (commands: Vec<DisplayCommand>)
        requires
            old(self).well_formed(),
        ensures
            final(self).well_formed(),
            commands@ == frame_script(old(self).bits(), old(self).count()),
            rows_of(final(self).bits()) == shifted(rows_of(old(self).bits()), old(self).repeats()),
            final(self).count() == old(self).count(),
            final(self).repeats() == old(self).repeats(),
    {
        let mut commands: Vec<DisplayCommand> = Vec::new();
        for i in 0..self.display_count
            invariant
                self.display_count <= self.display_bits@.len(),
                commands@.len() == i,
                forall|k: int|
                    0 <= k < i ==> commands@[k] == (DisplayCommand::WriteRaw {
                        addr: k as usize,
                        raw: self.display_bits@[k],
                    }),
        {
            commands.push(DisplayCommand::WriteRaw { addr: i, raw: self.display_bits[i] });
        }
        shift_left(self.display_bits.as_mut_slice(), self.repeat);
        commands
    }

    /// The panels of the text as they stand now.
    pub fn display_bits(&self) -> (bits: &Vec<SingleDisplayData>)
        ensures
            bits@ == self.bits(),
    {
        &self.display_bits
    }
}

} // verus!
