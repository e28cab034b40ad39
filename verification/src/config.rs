use vstd::prelude::*;

verus! {

/// Terminal colors, with the same variants as the terminal backend's color type.
#[derive(Debug, Clone, Copy, PartialEq, Eq, Structural, Hash)]
pub enum Color {
    Reset,
    Black,
    DarkGrey,
    Red,
    DarkRed,
    Green,
    DarkGreen,
    Yellow,
    DarkYellow,
    Blue,
    DarkBlue,
    Magenta,
    DarkMagenta,
    Cyan,
    DarkCyan,
    White,
    Grey,
    Rgb { r: u8, g: u8, b: u8 },
    AnsiValue(u8),
}

pub const COLOR_1: Color = Color::Green;
pub const COLOR_2: Color = Color::Red;
pub const COLOR_3: Color = Color::Blue;

pub const CARD_BG: Color = Color::White;
pub const QUESTION_BG: Color = Color::White;
pub const PENDING_BG: Color = Color::Yellow;
pub const ACTIVE_BG: Color = Color::Yellow;
pub const TERM_BG: Color = Color::Reset;

pub const CARD_BORDER: Color = Color::White;
pub const SHADOW: Color = Color::White;
pub const GOOD_SET: Color = Color::Green;
pub const BAD_SET: Color = Color::Red;

pub const WIN_MARGIN_VERT: i16 = 1;
pub const WIN_MARGIN_HORIZ: i16 = 1;

pub const CARD_INTERNAL_MARGIN_VERT: i16 = 1;
pub const CARD_SPACING_VERT: i16 = 2;
pub const CARD_SPACING_HORIZ: i16 = 2;
pub const SHAPE_SPACING: i16 = 1;

pub const LAST_FOUND_OFFSET: i16 = 20;

/// Smallest playable terminal: four rows and four columns of the 7x7 card scale
/// (card height 9, card width 25) with card spacing around them.
pub const MIN_HEIGHT: i16 = 46;
pub const MIN_WIDTH: i16 = 110;

/// Card geometry for one size of shapes. `CARD_HEIGHT` and `CARD_WIDTH` are
/// computed from the shape size; `CARD_HEIGHT` is the height without the offset
/// outline.
#[derive(Copy, Clone)]
#[allow(non_snake_case)]
pub struct Scale {
    pub SHAPE_HEIGHT: i16,
    pub SHAPE_WIDTH: i16,
    pub RAW_OVAL: &'static str,
    pub RAW_DIAMOND: &'static str,
    pub RAW_SQUIGGLE: &'static str,
    pub RAW_QUESTION: &'static str,
    pub CARD_HEIGHT: i16,
    pub CARD_WIDTH: i16,
}

/// Card height for a shape height: the shape plus the internal margin above and below.
pub open spec fn card_height_for(shape_height: int) -> int {
    shape_height + CARD_INTERNAL_MARGIN_VERT * 2
}

/// Card width for a shape height: room for three shapes (measured by the shape
/// height) and four shape spacings.
pub open spec fn card_width_for(shape_height: int) -> int {
    shape_height * 3 + SHAPE_SPACING * 4
}

impl Scale {
    #[allow(non_snake_case)]
    pub fn new(
        SHAPE_HEIGHT: i16,
        SHAPE_WIDTH: i16,
        RAW_OVAL: &'static str,
        RAW_DIAMOND: &'static str,
        RAW_SQUIGGLE: &'static str,
        RAW_QUESTION: &'static str,
    ) -> (s: Self)
        requires
            i16::MIN <= card_height_for(SHAPE_HEIGHT as int) <= i16::MAX,
            i16::MIN <= SHAPE_HEIGHT * 3 <= i16::MAX,
            i16::MIN <= card_width_for(SHAPE_HEIGHT as int) <= i16::MAX,
        ensures
            s.SHAPE_HEIGHT == SHAPE_HEIGHT,
            s.SHAPE_WIDTH == SHAPE_WIDTH,
            s.RAW_OVAL == RAW_OVAL,
            s.RAW_DIAMOND == RAW_DIAMOND,
            s.RAW_SQUIGGLE == RAW_SQUIGGLE,
            s.RAW_QUESTION == RAW_QUESTION,
            s.CARD_HEIGHT == card_height_for(SHAPE_HEIGHT as int),
            s.CARD_WIDTH == card_width_for(SHAPE_HEIGHT as int),
    {
        Self {
            SHAPE_HEIGHT,
            SHAPE_WIDTH,
            RAW_OVAL,
            RAW_DIAMOND,
            RAW_SQUIGGLE,
            RAW_QUESTION,
            CARD_HEIGHT: SHAPE_HEIGHT + CARD_INTERNAL_MARGIN_VERT * 2,
            CARD_WIDTH: (SHAPE_HEIGHT * 3) + (SHAPE_SPACING * 4),
        }
    }
}

} // verus!
