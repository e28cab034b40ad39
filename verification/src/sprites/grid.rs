use vstd::prelude::*;

use crate::bounds::{Bounds, BoundsIter};
use crate::util::{Result, SetError, SetErrorKind};

verus! {

/// A rectangular grid of cells addressed by (row, column), row-major.
#[derive(Debug)]
pub struct Grid<T: Copy> {
    grid: Vec<Vec<T>>,
    height: usize,
    width: usize,
}

/// A walk over the cells of a grid with their positions, row by row.
pub struct GridEnumerator<'a, T: Copy> {
    pub grid: &'a Grid<T>,
    pub iter: BoundsIter<usize>,
}

/// The rectangle of a `height` by `width` grid.
pub open spec fn full_bounds(height: usize, width: usize) -> Bounds<usize> {
    Bounds::<usize> { y_min: 0, y_max: height, x_min: 0, x_max: width }
}

/// The cells of a `height` by `width` grid that all hold `fill`.
pub open spec fn filled<T>(height: nat, width: nat, fill: T) -> Seq<Seq<T>> {
    Seq::new(height, |r: int| Seq::new(width, |c: int| fill))
}

/// The cells `v` of a `height` by `width` grid after one `set` of `cel` at `pos`:
/// a position inside the grid gets `cel`, one outside changes nothing.
pub open spec fn set_cells<T>(v: Seq<Seq<T>>, height: nat, width: nat, pos: (usize, usize), cel: T) -> Seq<Seq<T>> {
    if pos.0 < height && pos.1 < width {
        v.update(pos.0 as int, v[pos.0 as int].update(pos.1 as int, cel))
    } else {
        v
    }
}

/// The cells `v` after the writes `ops` (position and value), in order.
pub open spec fn set_all<T>(v: Seq<Seq<T>>, height: nat, width: nat, ops: Seq<((usize, usize), T)>) -> Seq<Seq<T>>
    decreases ops.len(),
{
    if ops.len() == 0 {
        v
    } else {
        set_cells(set_all(v, height, width, ops.drop_last()), height, width, ops.last().0, ops.last().1)
    }
}

/// The value of the last write to (`r`, `c`) among `ops`, or `fill` if none wrote there.
pub open spec fn last_set<T>(ops: Seq<((usize, usize), T)>, r: usize, c: usize, fill: T) -> T
    decreases ops.len(),
{
    if ops.len() == 0 {
        fill
    } else if ops.last().0 == (r, c) {
        ops.last().1
    } else {
        last_set(ops.drop_last(), r, c, fill)
    }
}

/// A grid made by `new` and then written by any run of `set` calls keeps its size, and
/// reads back at each position inside it the value of the last write there, or the fill
/// value where nothing was written.
pub proof fn lemma_reads_after_writes<T>(height: nat, width: nat, fill: T, ops: Seq<((usize, usize), T)>)
    ensures
        set_all(filled(height, width, fill), height, width, ops).len() == height,
        forall|r: int| 0 <= r < height ==> (#[trigger] set_all(filled(height, width, fill), height, width, ops)[r]).len() == width,
        forall|r: usize, c: usize| r < height && c < width ==>
            #[trigger] set_all(filled(height, width, fill), height, width, ops)[r as int][c as int]
                == last_set(ops, r, c, fill),
    decreases ops.len(),
{
    let v = set_all(filled(height, width, fill), height, width, ops);
    if ops.len() == 0 {
    } else {
        let prev = ops.drop_last();
        lemma_reads_after_writes(height, width, fill, prev);
        let u = set_all(filled(height, width, fill), height, width, prev);
        let (pos, cel) = ops.last();
        assert forall|r: int| 0 <= r < height implies (#[trigger] v[r]).len() == width by {
            assert(u[r].len() == width);
        }
        assert forall|r: usize, c: usize| r < height && c < width implies #[trigger] v[r as int][c as int]
            == last_set(ops, r, c, fill) by {
            assert(u[r as int].len() == width);
            assert(u[r as int][c as int] == last_set(prev, r, c, fill));
        }
    }
}

impl<T: Copy> View for Grid<T> {
    type V = Seq<Seq<T>>;

    /// The rows of the grid.
    closed spec fn view(&self) -> Seq<Seq<T>> {
        self.grid@.map_values(|r: Vec<T>| r@)
    }
}

impl<T: Copy> Grid<T> {
    pub closed spec fn spec_height(&self) -> usize {
        self.height
    }

    pub closed spec fn spec_width(&self) -> usize {
        self.width
    }

    /// The grid holds `height` rows of `width` cells.
    pub open spec fn wf(&self) -> bool {
        &&& self@.len() == self.spec_height()
        &&& forall|r: int| 0 <= r < self@.len() ==> (#[trigger] self@[r]).len() == self.spec_width()
    }

    /// The position lies in the grid.
    pub open spec fn holds(&self, p: (usize, usize)) -> bool {
        p.0 < self.spec_height() && p.1 < self.spec_width()
    }

    /// A `height` by `width` grid with every cell `fill`.
    pub fn new(height: usize, width: usize, fill: T) -> (g: Self)
        ensures
            g.wf(),
            g.spec_height() == height,
            g.spec_width() == width,
            g@ == filled(height as nat, width as nat, fill),
    {
        let mut grid: Vec<Vec<T>> = Vec::new();
        let mut r: usize = 0;
        while r < height
            invariant
                r <= height,
                grid@.len() == r,
                forall|i: int|
                    0 <= i < r ==> (#[trigger] grid@[i])@ == Seq::new(width as nat, |c: int| fill),
            decreases height - r,
        {
            let mut row: Vec<T> = Vec::new();
            let mut c: usize = 0;
            while c < width
                invariant
                    c <= width,
                    row@ == Seq::new(c as nat, |j: int| fill),
                decreases width - c,
            {
                row.push(fill);
                c = c + 1;
                proof {
                    assert(row@ =~= Seq::new(c as nat, |j: int| fill));
                }
            }
            grid.push(row);
            r = r + 1;
        }
        let g = Self { grid, height, width };
        proof {
            assert(g@ =~= filled(height as nat, width as nat, fill));
        }
        g
    }

    /// A copy of the grid.
    pub fn copy(&self) -> (g: Self)
        ensures
            g@ == self@,
            g.spec_height() == self.spec_height(),
            g.spec_width() == self.spec_width(),
    {
        let mut grid: Vec<Vec<T>> = Vec::new();
        let mut r: usize = 0;
        while r < self.grid.len()
            invariant
                r <= self.grid.len(),
                grid@.len() == r,
                forall|i: int| 0 <= i < r ==> (#[trigger] grid@[i])@ == self.grid@[i]@,
            decreases self.grid.len() - r,
        {
            let src = &self.grid[r];
            let mut row: Vec<T> = Vec::new();
            let mut c: usize = 0;
            while c < src.len()
                invariant
                    c <= src.len(),
                    row@ == src@.take(c as int),
                decreases src.len() - c,
            {
                row.push(src[c]);
                c = c + 1;
                proof {
                    assert(row@ =~= src@.take(c as int));
                }
            }
            proof {
                assert(row@ =~= src@);
            }
            grid.push(row);
            r = r + 1;
        }
        let g = Self { grid, height: self.height, width: self.width };
        proof {
            assert(g@ =~= self@);
        }
        g
    }

    /// Whether the grid holds `height` rows of `width` cells.
    pub fn is_wf(&self) -> (b: bool)
        ensures
            b == self.wf(),
    {
        assert(self.grid@.len() == self@.len());
        if self.grid.len() != self.height {
            return false;
        }
        let mut r: usize = 0;
        while r < self.grid.len()
            invariant
                r <= self.grid@.len(),
                self.grid@.len() == self@.len(),
                forall|i: int| 0 <= i < r ==> (#[trigger] self@[i]).len() == self.spec_width(),
            decreases self.grid.len() - r,
        {
            assert(self@[r as int] == self.grid@[r as int]@);
            if self.grid[r].len() != self.width {
                return false;
            }
            r = r + 1;
        }
        true
    }

    pub fn height(&self) -> (h: usize)
        ensures
            h == self.spec_height(),
    {
        self.height
    }

    pub fn width(&self) -> (w: usize)
        ensures
            w == self.spec_width(),
    {
        self.width
    }

    /// A walk over every cell with its position, row by row.
    pub fn enumerate(&self) -> (e: GridEnumerator<T>)
        ensures
            e.grid == self,
            e.iter.rng == full_bounds(self.spec_height(), self.spec_width()),
            e.iter.next == if self.spec_height() == 0 || self.spec_width() == 0 {
                None
            } else {
                Some((0usize, 0usize))
            },
    {
        GridEnumerator { grid: self, iter: Bounds::<usize>::mk((0, 0), (self.height, self.width)).into_iter() }
    }

    /// The cell at (row, column); fails with `OutOfBounds` outside the grid.
    pub fn get(&self, pos: (usize, usize)) -> (r: Result<T>)
        requires
            self.wf(),
        ensures
            self.holds(pos) ==> r == Ok::<T, crate::util::SetError>(self@[pos.0 as int][pos.1 as int]),
            !self.holds(pos) ==> (r matches Err(e) && e.kind == SetErrorKind::OutOfBounds),
    {
        let (row_i, col_i) = pos;
        if row_i < self.grid.len() {
            let row = &self.grid[row_i];
            proof {
                assert(self@[row_i as int] == row@);
            }
            if col_i < row.len() {
                Ok(row[col_i])
            } else {
                Err(SetError::new(SetErrorKind::OutOfBounds, "column index too big"))
            }
        } else {
            Err(SetError::new(SetErrorKind::OutOfBounds, "row index too big"))
        }
    }

    /// Sets the cell at (row, column) and returns its old value; fails with
    /// `OutOfBounds` outside the grid, leaving it unchanged.
    pub fn set(&mut self, pos: (usize, usize), cel: T) -> (r: Result<T>)
        requires
            old(self).wf(),
        ensures
            final(self).wf(),
            final(self).spec_height() == old(self).spec_height(),
            final(self).spec_width() == old(self).spec_width(),
            final(self)@ == set_cells(
                old(self)@,
                old(self).spec_height() as nat,
                old(self).spec_width() as nat,
                pos,
                cel,
            ),
            old(self).holds(pos) ==> r == Ok::<T, crate::util::SetError>(old(self)@[pos.0 as int][pos.1 as int]),
            !old(self).holds(pos) ==> (r matches Err(e) && e.kind == SetErrorKind::OutOfBounds),
    {
        let (row_i, col_i) = pos;
        if row_i < self.grid.len() {
            if col_i < self.grid[row_i].len() {
                let ghost before = self@;
                let ret = self.grid[row_i][col_i];
                proof {
                    assert(before[row_i as int] == self.grid@[row_i as int]@);
                }
                self.grid[row_i].set(col_i, cel);
                proof {
                    assert(self@ =~= before.update(
                        pos.0 as int,
                        before[pos.0 as int].update(pos.1 as int, cel),
                    ));
                }
                Ok(ret)
            } else {
                Err(SetError::new(SetErrorKind::OutOfBounds, "column index too big"))
            }
        } else {
            Err(SetError::new(SetErrorKind::OutOfBounds, "row index out too big"))
        }
    }
}

impl<'a, T: Copy> GridEnumerator<'a, T> {
    /// The walk stays inside its grid: it walks the grid's full rectangle from the top
    /// row, and its pending cell (if any) lies in the grid.
    pub open spec fn valid(&self) -> bool {
        &&& self.grid.wf()
        &&& self.iter.rng == full_bounds(self.grid.spec_height(), self.grid.spec_width())
        &&& self.iter.next matches Some((y, x)) ==> self.grid.holds((y, x))
    }

    /// Hands out the pending cell with its position and moves on to the next cell.
    pub fn next(&mut self) -> (r: Option<((usize, usize), T)>)
        requires
            old(self).valid(),
        ensures
            final(self).valid(),
            final(self).grid == old(self).grid,
            match old(self).iter.next {
                None => r is None && final(self).iter.next is None,
                Some((y, x)) => r == Some(((y, x), old(self).grid@[y as int][x as int]))
                    && final(self).iter.next == if x + 1 >= old(self).grid.spec_width() {
                    if y + 1 >= old(self).grid.spec_height() {
                        None
                    } else {
                        Some(((y + 1) as usize, 0usize))
                    }
                } else {
                    Some((y, (x + 1) as usize))
                },
            },
    {
        if let Some((y, x)) = self.iter.next() {
            let cell = self.grid.get((y, x));
            match cell {
                Ok(c) => Some(((y, x), c)),
                Err(_) => None,
            }
        } else {
            None
        }
    }
}

impl<T: Copy> Clone for Grid<T> {
    fn clone(&self) -> (g: Self)
        ensures
            g@ == self@,
            g.spec_height() == self.spec_height(),
            g.spec_width() == self.spec_width(),
    {
        self.copy()
    }
}

} // verus!
