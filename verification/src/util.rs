use vstd::prelude::*;

pub mod err;

pub use err::{SetError, SetErrorKind};
use crate::config::{MIN_HEIGHT, MIN_WIDTH};

verus! {

pub type Result<T> = std::result::Result<T, SetError>;

/// Whether a sprite is drawn.
#[derive(Debug, Clone, Copy, PartialEq, Eq, Structural)]
pub enum Visibility {
    Visible,
    Invisible,
}

/// Whether a sprite reacts to clicks.
#[derive(Debug, Clone, Copy, PartialEq, Eq, Structural)]
pub enum Clickability {
    Clickable,
    Unclickable,
}

/// Takes the value out of a result that is known to hold one.
pub trait Unwrap<R, E>: Sized {
    /// The result holds a value.
    spec fn holds_value(&self) -> bool;

    /// The value the result holds.
    spec fn value(&self) -> R;

    fn unwrap(self) -> (r: R)
        requires
            self.holds_value(),
        ensures
            r == self.value(),
    ;
}

impl<R, E> Unwrap<R, E> for std::result::Result<R, E> {
    open spec fn holds_value(&self) -> bool {
        *self is Ok
    }

    open spec fn value(&self) -> R {
        self->Ok_0
    }

    fn unwrap(self) -> (r: R) {
        match self {
            Ok(r) => r,
            Err(_) => {
                proof {
                    assert(false);
                }
                self.ok().unwrap()
            },
        }
    }
}

/// The size held after the terminal reported `reported` as (columns, rows), if it could
/// report one: the report, row-major, when it is at least the minimal playable size;
/// else the size held before.
pub open spec fn next_size(held: (i16, i16), reported: Option<(u16, u16)>) -> (i16, i16) {
    match reported {
        Some((x, y)) => if y >= MIN_HEIGHT && x >= MIN_WIDTH {
            (y as i16, x as i16)
        } else {
            held
        },
        None => held,
    }
}

/// The size held after a new `TermSize` took the reports `reports` in turn.
pub open spec fn size_after(reports: Seq<Option<(u16, u16)>>) -> (i16, i16)
    decreases reports.len(),
{
    if reports.len() == 0 {
        (0i16, 0i16)
    } else {
        next_size(size_after(reports.drop_last()), reports.last())
    }
}

/// A report that a `TermSize` keeps.
pub open spec fn accepted(reported: Option<(u16, u16)>) -> bool {
    reported matches Some((x, y)) && y >= MIN_HEIGHT && x >= MIN_WIDTH
}

/// The last report among `reports` that is kept, row-major, or (0, 0) if none is.
pub open spec fn last_accepted(reports: Seq<Option<(u16, u16)>>) -> (i16, i16)
    decreases reports.len(),
{
    if reports.len() == 0 {
        (0i16, 0i16)
    } else if accepted(reports.last()) {
        let (x, y) = reports.last()->Some_0;
        (y as i16, x as i16)
    } else {
        last_accepted(reports.drop_last())
    }
}

/// A new `TermSize` that took any run of reports (each within `i16`) holds, and reads
/// back, the last report that was at least the minimal playable size, or (0, 0) if
/// there was none.
pub proof fn lemma_size_is_last_accepted(reports: Seq<Option<(u16, u16)>>)
    ensures
        size_after(reports) == last_accepted(reports),
    decreases reports.len(),
{
    if reports.len() > 0 {
        lemma_size_is_last_accepted(reports.drop_last());
    }
}

/// The last valid terminal size, row-major: (height, width).
pub struct TermSize {
    size: (i16, i16),
}

impl TermSize {
    pub closed spec fn spec_dims(&self) -> (i16, i16) {
        self.size
    }

    /// A terminal size that has not been measured yet: (0, 0).
    pub fn new() -> (ts: Self)
        ensures
            ts.spec_dims() == (0i16, 0i16),
    {
        Self { size: (0, 0) }
    }

    /// Takes the size that the terminal reported as (columns, rows), if it could
    /// report one, and keeps it when it is at least the minimal playable size.
    /// Returns the size now held.
    pub fn update(&mut self, reported: Option<(u16, u16)>) -> (dims: (i16, i16))
        requires
            reported matches Some((x, y)) ==> x <= i16::MAX && y <= i16::MAX,
        ensures
            dims == final(self).spec_dims(),
            dims == next_size(old(self).spec_dims(), reported),
    {
        if let Some((x, y)) = reported {
            let y = y as i16;
            let x = x as i16;
            if y >= MIN_HEIGHT && x >= MIN_WIDTH {
                self.size = (y, x);
            }
        }
        self.size
    }

    pub fn dims(&self) -> (d: (i16, i16))
        ensures
            d == self.spec_dims(),
    {
        self.size
    }

    pub fn get(&self) -> (d: (i16, i16))
        ensures
            d == self.spec_dims(),
    {
        self.size
    }

    /// The second component of the stored size, the same as `width`.
    pub fn height(&self) -> (h: i16)
        ensures
            h == self.spec_dims().1,
    {
        self.dims().1
    }

    pub fn width(&self) -> (w: i16)
        ensures
            w == self.spec_dims().1,
    {
        self.dims().1
    }
}

} // verus!
