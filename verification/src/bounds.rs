use vstd::prelude::*;
use std::ops::Range;

verus! {

/// A rectangle of cells: rows `y_min..y_max` and columns `x_min..x_max`, upper bounds
/// exclusive.
#[derive(Copy, Clone, Debug)]
pub struct Bounds<T> {
    pub y_min: T,
    pub y_max: T,
    pub x_min: T,
    pub x_max: T,
}

/// A walk over the cells of a `Bounds`, row by row. `next` holds the cell to hand out
/// next, if any.
#[derive(Copy, Clone)]
pub struct BoundsIter<T> {
    pub rng: Bounds<T>,
    pub next: Option<(T, T)>,
}

/// The smaller of two integers.
pub open spec fn min_i(a: int, b: int) -> int {
    if a <= b {
        a
    } else {
        b
    }
}

/// The larger of two integers.
pub open spec fn max_i(a: int, b: int) -> int {
    if a >= b {
        a
    } else {
        b
    }
}

impl Bounds<i16> {
    /// The rectangle with top-left corner `tl` (inclusive) and bottom-right corner `br`
    /// (exclusive), each given as (row, column).
    pub fn mk(tl: (i16, i16), br: (i16, i16)) -> (b: Self)
        ensures
            b.y_min == tl.0,
            b.x_min == tl.1,
            b.y_max == br.0,
            b.x_max == br.1,
    {
        Self { y_min: tl.0, y_max: br.0, x_min: tl.1, x_max: br.1 }
    }

    pub open spec fn spec_is_empty(self) -> bool {
        self.y_max <= self.y_min || self.x_max <= self.x_min
    }

    pub open spec fn spec_contains(self, p: (i16, i16)) -> bool {
        self.y_min <= p.0 < self.y_max && self.x_min <= p.1 < self.x_max
    }

    /// The rectangle holds no cell.
    pub fn is_empty(self) -> (b: bool)
        ensures
            b == self.spec_is_empty(),
    {
        self.y_max <= self.y_min || self.x_max <= self.x_min
    }

    /// The rectangle moved by `shift` (rows, columns).
    pub fn shift(self, shift: (i16, i16)) -> (b: Self)
        requires
            i16::MIN <= self.y_min + shift.0 <= i16::MAX,
            i16::MIN <= self.y_max + shift.0 <= i16::MAX,
            i16::MIN <= self.x_min + shift.1 <= i16::MAX,
            i16::MIN <= self.x_max + shift.1 <= i16::MAX,
        ensures
            b.y_min == self.y_min + shift.0,
            b.y_max == self.y_max + shift.0,
            b.x_min == self.x_min + shift.1,
            b.x_max == self.x_max + shift.1,
    {
        Self {
            y_min: self.y_min + shift.0,
            y_max: self.y_max + shift.0,
            x_min: self.x_min + shift.1,
            x_max: self.x_max + shift.1,
        }
    }

    /// The smallest rectangle around both.
    pub fn merge(self, oth: Self) -> (b: Self)
        ensures
            b.y_min == min_i(self.y_min as int, oth.y_min as int),
            b.y_max == max_i(self.y_max as int, oth.y_max as int),
            b.x_min == min_i(self.x_min as int, oth.x_min as int),
            b.x_max == max_i(self.x_max as int, oth.x_max as int),
    {
        Self {
            y_min: if self.y_min <= oth.y_min { self.y_min } else { oth.y_min },
            y_max: if self.y_max >= oth.y_max { self.y_max } else { oth.y_max },
            x_min: if self.x_min <= oth.x_min { self.x_min } else { oth.x_min },
            x_max: if self.x_max >= oth.x_max { self.x_max } else { oth.x_max },
        }
    }

    pub fn y_range(self) -> (r: Range<i16>)
        ensures
            r.start == self.y_min,
            r.end == self.y_max,
    {
        self.y_min..self.y_max
    }

    pub fn x_range(self) -> (r: Range<i16>)
        ensures
            r.start == self.x_min,
            r.end == self.x_max,
    {
        self.x_min..self.x_max
    }

    /// Whether the cell `p` (row, column) lies in the rectangle.
    pub fn contains(self, p: (i16, i16)) -> (b: bool)
        ensures
            b == self.spec_contains(p),
    {
        self.y_min <= p.0 && p.0 < self.y_max && self.x_min <= p.1 && p.1 < self.x_max
    }

    /// A walk over the rectangle. It starts at the pair (`x_min`, `y_min`), or is
    /// finished at once when the rectangle is empty.
    pub fn into_iter(self) -> (it: BoundsIter<i16>)
        ensures
            it.rng == self,
            it.next == if self.spec_is_empty() {
                None
            } else {
                Some((self.x_min, self.y_min))
            },
    {
        let next = if self.is_empty() {
            None
        } else {
            Some((self.x_min, self.y_min))
        };
        BoundsIter { rng: self, next }
    }
}

impl Bounds<usize> {
    /// The rectangle with top-left corner `tl` (inclusive) and bottom-right corner `br`
    /// (exclusive), each given as (row, column).
    pub fn mk(tl: (usize, usize), br: (usize, usize)) -> (b: Self)
        ensures
            b.y_min == tl.0,
            b.x_min == tl.1,
            b.y_max == br.0,
            b.x_max == br.1,
    {
        Self { y_min: tl.0, y_max: br.0, x_min: tl.1, x_max: br.1 }
    }

    pub open spec fn spec_is_empty(self) -> bool {
        self.y_max <= self.y_min || self.x_max <= self.x_min
    }

    /// The rectangle holds no cell.
    pub fn is_empty(self) -> (b: bool)
        ensures
            b == self.spec_is_empty(),
    {
        self.y_max <= self.y_min || self.x_max <= self.x_min
    }

    /// The rectangle moved by `shift` (rows, columns).
    pub fn shift(self, shift: (usize, usize)) -> (b: Self)
        requires
            self.y_min + shift.0 <= usize::MAX,
            self.y_max + shift.0 <= usize::MAX,
            self.x_min + shift.1 <= usize::MAX,
            self.x_max + shift.1 <= usize::MAX,
        ensures
            b.y_min == self.y_min + shift.0,
            b.y_max == self.y_max + shift.0,
            b.x_min == self.x_min + shift.1,
            b.x_max == self.x_max + shift.1,
    {
        Self {
            y_min: self.y_min + shift.0,
            y_max: self.y_max + shift.0,
            x_min: self.x_min + shift.1,
            x_max: self.x_max + shift.1,
        }
    }

    /// The smallest rectangle around both.
    pub fn merge(self, oth: Self) -> (b: Self)
        ensures
            b.y_min == min_i(self.y_min as int, oth.y_min as int),
            b.y_max == max_i(self.y_max as int, oth.y_max as int),
            b.x_min == min_i(self.x_min as int, oth.x_min as int),
            b.x_max == max_i(self.x_max as int, oth.x_max as int),
    {
        Self {
            y_min: if self.y_min <= oth.y_min { self.y_min } else { oth.y_min },
            y_max: if self.y_max >= oth.y_max { self.y_max } else { oth.y_max },
            x_min: if self.x_min <= oth.x_min { self.x_min } else { oth.x_min },
            x_max: if self.x_max >= oth.x_max { self.x_max } else { oth.x_max },
        }
    }

    pub fn y_range(self) -> (r: Range<usize>)
        ensures
            r.start == self.y_min,
            r.end == self.y_max,
    {
        self.y_min..self.y_max
    }

    pub fn x_range(self) -> (r: Range<usize>)
        ensures
            r.start == self.x_min,
            r.end == self.x_max,
    {
        self.x_min..self.x_max
    }

    /// Whether the cell `p` (row, column) lies in the rectangle.
    pub fn contains(self, p: (usize, usize)) -> (b: bool)
        ensures
            b == (self.y_min <= p.0 < self.y_max && self.x_min <= p.1 < self.x_max),
    {
        self.y_min <= p.0 && p.0 < self.y_max && self.x_min <= p.1 && p.1 < self.x_max
    }

    /// A walk over the rectangle. It starts at the pair (`x_min`, `y_min`), or is
    /// finished at once when the rectangle is empty.
    pub fn into_iter(self) -> (it: BoundsIter<usize>)
        ensures
            it.rng == self,
            it.next == if self.spec_is_empty() {
                None
            } else {
                Some((self.x_min, self.y_min))
            },
    {
        let next = if self.is_empty() {
            None
        } else {
            Some((self.x_min, self.y_min))
        };
        BoundsIter { rng: self, next }
    }
}

impl BoundsIter<usize> {
    /// Hands out the pending cell and moves on: one column to the right, or to the first
    /// column of the next row past the last column, or to the end past the last row.
    pub fn next(&mut self) -> (r: Option<(usize, usize)>)
        requires
            old(self).next matches Some((y, x)) ==> y < usize::MAX && x < usize::MAX,
        ensures
            r == old(self).next,
            final(self).rng == old(self).rng,
            match old(self).next {
                None => final(self).next is None,
                Some((y, x)) => final(self).next == if x + 1 >= old(self).rng.x_max {
                    if y + 1 >= old(self).rng.y_max {
                        None
                    } else {
                        Some(((y + 1) as usize, old(self).rng.x_min))
                    }
                } else {
                    Some((y, (x + 1) as usize))
                },
            },
    {
        if let Some((y, x)) = self.next {
            if x + 1 >= self.rng.x_max {
                if y + 1 >= self.rng.y_max {
                    self.next = None;
                } else {
                    self.next = Some((y + 1, self.rng.x_min));
                }
            } else {
                self.next = Some((y, x + 1));
            }
            Some((y, x))
        } else {
            None
        }
    }
}

impl BoundsIter<i16> {
    /// Hands out the pending cell and moves on: one column to the right, or to the first
    /// column of the next row past the last column, or to the end past the last row.
    pub fn next(&mut self) -> (r: Option<(i16, i16)>)
        requires
            old(self).next matches Some((y, x)) ==> y < i16::MAX && x < i16::MAX,
        ensures
            r == old(self).next,
            final(self).rng == old(self).rng,
            match old(self).next {
                None => final(self).next is None,
                Some((y, x)) => final(self).next == if x + 1 >= old(self).rng.x_max {
                    if y + 1 >= old(self).rng.y_max {
                        None
                    } else {
                        Some(((y + 1) as i16, old(self).rng.x_min))
                    }
                } else {
                    Some((y, (x + 1) as i16))
                },
            },
    {
        if let Some((y, x)) = self.next {
            if x + 1 >= self.rng.x_max {
                if y + 1 >= self.rng.y_max {
                    self.next = None;
                } else {
                    self.next = Some((y + 1, self.rng.x_min));
                }
            } else {
                self.next = Some((y, x + 1));
            }
            Some((y, x))
        } else {
            None
        }
    }
}

/// Merging is symmetric, and the merge of two rectangles contains every cell of each.
pub proof fn lemma_merge_covers(a: Bounds<i16>, b: Bounds<i16>, m: Bounds<i16>, p: (i16, i16))
    requires
        m.y_min == min_i(a.y_min as int, b.y_min as int),
        m.y_max == max_i(a.y_max as int, b.y_max as int),
        m.x_min == min_i(a.x_min as int, b.x_min as int),
        m.x_max == max_i(a.x_max as int, b.x_max as int),
    ensures
        a.spec_contains(p) ==> m.spec_contains(p),
        b.spec_contains(p) ==> m.spec_contains(p),
        m.y_min == min_i(b.y_min as int, a.y_min as int),
        m.y_max == max_i(b.y_max as int, a.y_max as int),
        m.x_min == min_i(b.x_min as int, a.x_min as int),
        m.x_max == max_i(b.x_max as int, a.x_max as int),
{
}

/// A cell lies in a shifted rectangle exactly when the cell shifted back lies in the
/// unshifted one.
pub proof fn lemma_shift_contains(a: Bounds<i16>, s: (i16, i16), b: Bounds<i16>, p: (i16, i16))
    requires
        b.y_min == a.y_min + s.0,
        b.y_max == a.y_max + s.0,
        b.x_min == a.x_min + s.1,
        b.x_max == a.x_max + s.1,
        i16::MIN <= p.0 - s.0 <= i16::MAX,
        i16::MIN <= p.1 - s.1 <= i16::MAX,
    ensures
        b.spec_contains(p) == a.spec_contains(((p.0 - s.0) as i16, (p.1 - s.1) as i16)),
{
}

} // verus!
