use vstd::prelude::*;

use crate::config::Color;

verus! {

/// One terminal cell: a blank cell showing only a background color, or a printed
/// character with its foreground and background colors.
#[derive(Clone, Copy, Debug, PartialEq, Eq, Structural)]
pub enum TermChar {
    Bg(Color),
    Fg { c: char, fg: Color, bg: Color },
}

impl TermChar {
    /// A blank cell on the default background.
    pub fn default() -> (t: Self)
        ensures
            t == TermChar::Bg(Color::Reset),
    {
        TermChar::Bg(Color::Reset)
    }

    /// The cell showing `c`; a space becomes a blank cell on `bg`.
    pub fn new(c: char, fg: Color, bg: Color) -> (t: Self)
        ensures
            t == if c == ' ' {
                TermChar::Bg(bg)
            } else {
                TermChar::Fg { c, fg, bg }
            },
    {
        if c == ' ' {
            TermChar::Bg(bg)
        } else {
            TermChar::Fg { c, fg, bg }
        }
    }

    /// A blank cell of color `c`.
    pub fn solid(c: Color) -> (t: Self)
        ensures
            t == TermChar::Bg(c),
    {
        TermChar::Bg(c)
    }

    /// The foreground color (if any) and the background color.
    pub fn get_fg_bg(&self) -> (r: (Option<Color>, Color))
        ensures
            r == match *self {
                TermChar::Bg(bg) => (None, bg),
                TermChar::Fg { fg, bg, .. } => (Some(fg), bg),
            },
    {
        match self {
            TermChar::Bg(bg) => (None, *bg),
            TermChar::Fg { fg, bg, .. } => (Some(*fg), *bg),
        }
    }

    pub open spec fn spec_c(self) -> char {
        match self {
            TermChar::Bg(_) => ' ',
            TermChar::Fg { c, .. } => c,
        }
    }

    /// The character shown: a space for a blank cell.
    pub fn get_c(&self) -> (c: char)
        ensures
            c == self.spec_c(),
    {
        match self {
            TermChar::Bg(_) => ' ',
            TermChar::Fg { c, .. } => *c,
        }
    }

    pub fn is_space(&self) -> (b: bool)
        ensures
            b == (*self is Bg),
    {
        match self {
            TermChar::Bg(_) => true,
            TermChar::Fg { .. } => false,
        }
    }

    pub fn is_printable(&self) -> (b: bool)
        ensures
            b == (*self is Fg),
    {
        match self {
            TermChar::Bg(_) => false,
            TermChar::Fg { .. } => true,
        }
    }

    /// The foreground and background colors to set before printing the cell.
    pub fn style_cmd(&self) -> (r: (Option<Color>, Option<Color>))
        ensures
            r == match *self {
                TermChar::Bg(bg) => (None, Some(bg)),
                TermChar::Fg { fg, bg, .. } => (Some(fg), Some(bg)),
            },
    {
        match self {
            TermChar::Bg(bg) => (None, Some(*bg)),
            TermChar::Fg { fg, bg, .. } => (Some(*fg), Some(*bg)),
        }
    }

    /// Whether the cell is drawn with these colors: the background alone for a blank
    /// cell, both colors for a printed character.
    pub fn matches(&self, fg0: Color, bg0: Color) -> (b: bool)
        ensures
            b == match *self {
                TermChar::Bg(bg) => bg0 == bg,
                TermChar::Fg { fg, bg, .. } => fg0 == fg && bg0 == bg,
            },
    {
        match self {
            TermChar::Bg(bg) => bg0 == *bg,
            TermChar::Fg { fg, bg, .. } => (fg0 == *fg) && (bg0 == *bg),
        }
    }
}

} // verus!
