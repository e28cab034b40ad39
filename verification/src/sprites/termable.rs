use vstd::prelude::*;

use crate::config::Color;
use crate::termchar::TermChar;

verus! {

/// A run of terminal cells that can be printed with one command: blank cells sharing a
/// background, or characters sharing foreground and background.
#[derive(Clone, Debug)]
pub enum Termable {
    /// `n` blank cells on `bg`
    Bg { n: usize, bg: Color },
    /// the characters of `s` in `fg` on `bg`
    Fg { s: String, fg: Color, bg: Color },
    Empty,
}

/// A run with the colors to print it in.
#[derive(Clone, Debug)]
pub struct StyledTermable {
    pub content: Termable,
    pub fg: Option<Color>,
    pub bg: Option<Color>,
}

/// Appends a character to a string.
///
/// Calls `String::push` of std, which appends the character at the end of the string.
#[verifier::external_body]
fn string_push(s: &mut String, c: char)
    ensures
        final(s)@ == old(s)@.push(c),
{
    s.push(c);
}

/// `n` spaces.
fn spaces(n: usize) -> (s: String)
    ensures
        s@ == Seq::new(n as nat, |i: int| ' '),
{
    let mut s = String::new();
    let mut i: usize = 0;
    while i < n
        invariant
            i <= n,
            s@ == Seq::new(i as nat, |k: int| ' '),
        decreases n - i,
    {
        string_push(&mut s, ' ');
        i = i + 1;
        proof {
            assert(s@ =~= Seq::new(i as nat, |k: int| ' '));
        }
    }
    s
}

/// Whether a cell can join a run (and so be printed by the same command).
pub open spec fn fits(t: Termable, tc: TermChar) -> bool {
    match (t, tc) {
        (Termable::Fg { bg: bg0, .. }, TermChar::Bg(bg)) => bg0 == bg,
        (Termable::Fg { fg: fg0, bg: bg0, .. }, TermChar::Fg { fg, bg, .. }) => bg0 == bg && fg0
            == fg,
        (Termable::Bg { bg: bg0, .. }, TermChar::Bg(bg)) => bg0 == bg,
        (Termable::Bg { bg: bg0, .. }, TermChar::Fg { bg, .. }) => bg0 == bg,
        (Termable::Empty, _) => true,
    }
}

impl Termable {
    /// The characters the run prints.
    pub open spec fn text(self) -> Seq<char> {
        match self {
            Termable::Bg { n, .. } => Seq::new(n as nat, |i: int| ' '),
            Termable::Fg { s, .. } => s@,
            Termable::Empty => Seq::empty(),
        }
    }

    /// The colors the run is printed in: (foreground, background).
    pub open spec fn colors(self) -> (Option<Color>, Option<Color>) {
        match self {
            Termable::Bg { bg, .. } => (None, Some(bg)),
            Termable::Fg { fg, bg, .. } => (Some(fg), Some(bg)),
            Termable::Empty => (None, None),
        }
    }

    /// A run of nothing.
    pub fn default() -> (t: Self)
        ensures
            t is Empty,
    {
        Termable::Empty
    }

    /// The run of one cell.
    pub fn new(c: TermChar) -> (t: Self)
        ensures
            t.text() == seq![c.spec_c()],
            t.colors() == match c {
                TermChar::Bg(bg) => (None::<Color>, Some(bg)),
                TermChar::Fg { fg, bg, .. } => (Some(fg), Some(bg)),
            },
            c is Bg ==> t is Bg,
            c is Fg ==> t is Fg,
    {
        match c {
            TermChar::Bg(bg) => {
                let t = Termable::Bg { n: 1, bg };
                proof {
                    assert(t.text() =~= seq![' ']);
                }
                t
            },
            TermChar::Fg { c, fg, bg } => {
                let mut s = String::new();
                string_push(&mut s, c);
                proof {
                    assert(s@ =~= seq![c]);
                }
                Termable::Fg { s, fg, bg }
            },
        }
    }

    /// The number of cells of the run.
    pub fn len(&self) -> (n: i16)
        requires
            self.text().len() <= i16::MAX,
        ensures
            n == self.text().len(),
    {
        let i = match self {
            Termable::Bg { n, .. } => *n,
            Termable::Fg { s, .. } => s.as_str().unicode_len(),
            Termable::Empty => 0,
        };
        i as i16
    }

    /// Adds a visible cell at the end of the run if it fits (same colors as the run, or
    /// the run is empty) and returns true; returns false and leaves the run alone
    /// otherwise. A blank run that takes a character becomes a character run.
    pub fn push(&mut self, tc: TermChar) -> (ok: bool)
        requires
            *old(self) is Bg ==> old(self)->n < usize::MAX,
        ensures
            ok == fits(*old(self), tc),
            ok ==> final(self).text() == old(self).text().push(tc.spec_c()),
            ok ==> final(self).colors() == match (*old(self), tc) {
                (Termable::Empty, TermChar::Bg(bg)) => (None, Some(bg)),
                (Termable::Empty, TermChar::Fg { fg, bg, .. }) => (Some(fg), Some(bg)),
                (Termable::Bg { .. }, TermChar::Fg { fg, bg, .. }) => (Some(fg), Some(bg)),
                _ => old(self).colors(),
            },
            !ok ==> *final(self) == *old(self),
    {
        match self {
            Termable::Fg { s, fg: fg0, bg: bg0 } => {
                match tc {
                    TermChar::Bg(bg) => {
                        if *bg0 == bg {
                            string_push(s, ' ');
                            true
                        } else {
                            false
                        }
                    },
                    TermChar::Fg { c, fg, bg } => {
                        if (*bg0 == bg) && (*fg0 == fg) {
                            string_push(s, c);
                            true
                        } else {
                            false
                        }
                    },
                }
            },
            Termable::Bg { n, bg: bg0 } => {
                match tc {
                    TermChar::Bg(bg) => {
                        if *bg0 == bg {
                            *n = *n + 1;
                            proof {
                                assert(Seq::new((*n) as nat, |i: int| ' ') =~= Seq::new(
                                    (*n - 1) as nat,
                                    |i: int| ' ',
                                ).push(' '));
                            }
                            true
                        } else {
                            false
                        }
                    },
                    TermChar::Fg { c, fg, bg } => {
                        if *bg0 == bg {
                            let mut s = spaces(*n);
                            string_push(&mut s, c);
                            *self = Termable::Fg { s, fg, bg };
                            true
                        } else {
                            false
                        }
                    },
                }
            },
            Termable::Empty => {
                *self = Termable::new(tc);
                proof {
                    assert(Seq::<char>::empty().push(tc.spec_c()) =~= seq![tc.spec_c()]);
                }
                true
            },
        }
    }

    /// The run with the colors to print it in: the run's foreground color (for a
    /// character run) and background color.
    pub fn finalize(self) -> (st: StyledTermable)
        ensures
            (st.fg, st.bg) == self.colors(),
            st.content == self,
    {
        let (fg0, bg0) = match &self {
            Termable::Bg { bg, .. } => (None, Some(*bg)),
            Termable::Fg { fg, bg, .. } => (Some(*fg), Some(*bg)),
            Termable::Empty => (None, None),
        };
        StyledTermable { content: self, fg: fg0, bg: bg0 }
    }

    /// The characters the run prints.
    pub fn to_text(&self) -> (s: String)
        ensures
            s@ == self.text(),
    {
        match self {
            Termable::Bg { n, .. } => spaces(*n),
            Termable::Fg { s, .. } => s.clone(),
            Termable::Empty => String::new(),
        }
    }
}

} // verus!
