use vstd::prelude::*;

use crate::pos::{TermPos, rect_cell};
use crate::util::{Result, SetError, SetErrorKind};

verus! {

/// A rectangular grid of cells addressed by terminal positions, row-major.
#[derive(Clone, Debug)]
pub struct Grid<T: Copy> {
    grid: Vec<Vec<T>>,
    height: usize,
    width: usize,
}

impl<T: Copy> View for Grid<T> {
    type V = Seq<Seq<T>>;

    /// The rows of the grid.
    closed spec fn view(&self) -> Seq<Seq<T>> {
        self.grid@.map_values(|r: Vec<T>| r@)
    }
}

impl<T: Copy> Grid<T> {
    pub closed spec fn spec_height(&self) -> usize {
        self.height
    }

    pub closed spec fn spec_width(&self) -> usize {
        self.width
    }

    /// The grid holds `height` rows of `width` cells.
    pub open spec fn wf(&self) -> bool {
        &&& self@.len() == self.spec_height()
        &&& forall|r: int| 0 <= r < self@.len() ==> (#[trigger] self@[r]).len() == self.spec_width()
    }

    /// The cell at (row, column), if the position lies in the grid.
    pub open spec fn cell(&self, p: TermPos) -> Option<T> {
        if 0 <= p.y < self.spec_height() && 0 <= p.x < self.spec_width() {
            Some(self@[p.y as int][p.x as int])
        } else {
            None
        }
    }

    /// A `height` by `width` grid with every cell `fill`; both sizes must be at least 1.
    pub fn new(height: usize, width: usize, fill: T) -> (g: Self)
        requires
            height >= 1,
            width >= 1,
        ensures
            g.wf(),
            g.spec_height() == height,
            g.spec_width() == width,
            forall|r: int, c: int| 0 <= r < height && 0 <= c < width ==> #[trigger] g@[r][c] == fill,
    {
        let mut grid: Vec<Vec<T>> = Vec::new();
        let mut r: usize = 0;
        while r < height
            invariant
                r <= height,
                grid@.len() == r,
                forall|i: int|
                    0 <= i < r ==> (#[trigger] grid@[i])@ == Seq::new(width as nat, |c: int| fill),
            decreases height - r,
        {
            let mut row: Vec<T> = Vec::new();
            let mut c: usize = 0;
            while c < width
                invariant
                    c <= width,
                    row@ == Seq::new(c as nat, |j: int| fill),
                decreases width - c,
            {
                row.push(fill);
                c = c + 1;
                proof {
                    assert(row@ =~= Seq::new(c as nat, |j: int| fill));
                }
            }
            grid.push(row);
            r = r + 1;
        }
        Self { grid, height, width }
    }

    /// Every position of the grid with its cell, row-major, leaving out the first one
    /// (row 0, column 0).
    pub fn enumerate(&self) -> (v: Vec<(TermPos, T)>)
        requires
            self.wf(),
            self.spec_height() <= i16::MAX,
            self.spec_width() <= i16::MAX,
            self.spec_height() >= 1,
            self.spec_width() >= 1,
        ensures
            v.len() == self.spec_height() * self.spec_width() - 1,
            forall|k: int|
                0 <= k < v.len() ==> {
                    let (y, x) = rect_cell(TermPos { y: 0, x: 0 }, self.spec_width() as int, k + 1);
                    &&& (#[trigger] v[k]).0 == TermPos { y: y as i16, x: x as i16 }
                    &&& self.cell(v[k].0) == Some(v[k].1)
                },
    {
        let br = TermPos::new((self.height - 1) as i16, (self.width - 1) as i16);
        let under = TermPos::new(0, 0).range_to(br);
        let ghost w = self.spec_width() as int;
        let mut v: Vec<(TermPos, T)> = Vec::new();
        let mut i: usize = 0;
        while i < under.len()
            invariant
                self.wf(),
                w == self.spec_width(),
                1 <= self.spec_height() <= i16::MAX,
                1 <= self.spec_width() <= i16::MAX,
                under.len() == self.spec_height() * self.spec_width() - 1,
                forall|k: int|
                    0 <= k < under.len() ==> (#[trigger] under[k])@ == rect_cell(
                        TermPos { y: 0, x: 0 },
                        w,
                        k + 1,
                    ),
                i <= under.len(),
                v.len() == i,
                forall|k: int|
                    0 <= k < i ==> {
                        let (y, x) = rect_cell(TermPos { y: 0, x: 0 }, w, k + 1);
                        &&& (#[trigger] v[k]).0 == TermPos { y: y as i16, x: x as i16 }
                        &&& self.cell(v[k].0) == Some(v[k].1)
                    },
            decreases under.len() - i,
        {
            let p = under[i];
            proof {
                let k = i as int + 1;
                let h = self.spec_height() as int;
                assert(0 <= k / w < h && 0 <= k % w < w) by (nonlinear_arith)
                    requires
                        0 < k < h * w,
                        w >= 1,
                ;
            }
            let c = self.get(p);
            v.push((p, c.unwrap()));
            i = i + 1;
        }
        v
    }

    pub fn height(&self) -> (h: usize)
        ensures
            h == self.spec_height(),
    {
        self.height
    }

    pub fn width(&self) -> (w: usize)
        ensures
            w == self.spec_width(),
    {
        self.width
    }

    /// The cell at a position, if the position lies in the grid.
    pub fn get(&self, pos: TermPos) -> (r: Option<T>)
        requires
            self.wf(),
        ensures
            r == self.cell(pos),
    {
        let pos_tup = crate::pos::try_from(pos);
        if let Ok((row_i, col_i)) = pos_tup {
            if row_i < self.grid.len() {
                let row = &self.grid[row_i];
                proof {
                    assert(self@[row_i as int] == row@);
                }
                if col_i < row.len() {
                    Some(row[col_i])
                } else {
                    None
                }
            } else {
                None
            }
        } else {
            None
        }
    }

    /// Sets the cell at a position; fails with `PanelOob` if the position lies outside
    /// the grid.
    pub fn set(&mut self, pos: TermPos, cel: T) -> (r: Result<()>)
        requires
            old(self).wf(),
        ensures
            final(self).wf(),
            final(self).spec_height() == old(self).spec_height(),
            final(self).spec_width() == old(self).spec_width(),
            old(self).cell(pos) is Some ==> r is Ok && final(self)@ == old(self)@.update(
                pos.y as int,
                old(self)@[pos.y as int].update(pos.x as int, cel),
            ),
            old(self).cell(pos) is None ==> (r matches Err(e) && e.kind == SetErrorKind::PanelOob)
                && final(self)@ == old(self)@,
    {
        let pos_tup = crate::pos::try_from(pos);
        if let Ok((row_i, col_i)) = pos_tup {
            if row_i < self.grid.len() {
                if col_i < self.grid[row_i].len() {
                    let ghost before = self@;
                    self.grid[row_i].set(col_i, cel);
                    proof {
                        assert(self@ =~= before.update(
                            pos.y as int,
                            before[pos.y as int].update(pos.x as int, cel),
                        ));
                    }
                    Ok(())
                } else {
                    Err(SetError::new(SetErrorKind::PanelOob, "column index out of bounds in Grid::get"))
                }
            } else {
                Err(SetError::new(SetErrorKind::PanelOob, "row index out of bounds in Grid::get"))
            }
        } else {
            Err(SetError::new(SetErrorKind::PanelOob, "TermPos has negative components in Grid::get"))
        }
    }
}

/// Setting a cell and reading it back gives the value set; other cells keep theirs.
pub proof fn lemma_set_get<T: Copy>(before: Seq<Seq<T>>, after: Seq<Seq<T>>, p: TermPos, q: TermPos, cel: T)
    requires
        0 <= p.y < before.len(),
        0 <= p.x < before[p.y as int].len(),
        after == before.update(p.y as int, before[p.y as int].update(p.x as int, cel)),
        0 <= q.y < before.len(),
        0 <= q.x < before[q.y as int].len(),
    ensures
        after[p.y as int][p.x as int] == cel,
        q != p ==> after[q.y as int][q.x as int] == before[q.y as int][q.x as int],
{
}

} // verus!
