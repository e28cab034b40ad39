use vstd::prelude::*;

use super::grid::{Grid, GridEnumerator};
use super::SpriteCell;
use crate::pos::TermPos;
use crate::util::Result;

verus! {

/// A picture: a grid of sprite cells.
#[derive(Debug)]
pub struct Img(Grid<SpriteCell>);

impl View for Img {
    type V = Seq<Seq<SpriteCell>>;

    /// The rows of the picture.
    closed spec fn view(&self) -> Seq<Seq<SpriteCell>> {
        self.0@
    }
}

impl Img {
    pub closed spec fn spec_height(&self) -> usize {
        self.0.spec_height()
    }

    pub closed spec fn spec_width(&self) -> usize {
        self.0.spec_width()
    }

    /// The picture holds `height` rows of `width` cells.
    pub open spec fn wf(&self) -> bool {
        &&& self@.len() == self.spec_height()
        &&& forall|r: int| 0 <= r < self@.len() ==> (#[trigger] self@[r]).len() == self.spec_width()
    }

    proof fn lemma_wf(&self)
        ensures
            self.wf() == self.0.wf(),
    {
    }

    /// Whether the picture holds `height` rows of `width` cells.
    pub fn is_wf(&self) -> (b: bool)
        ensures
            b == self.wf(),
    {
        proof {
            self.lemma_wf();
        }
        self.0.is_wf()
    }

    /// A picture of `height` rows and `width` columns, every cell `px`.
    pub fn rect(height: usize, width: usize, px: SpriteCell) -> (img: Self)
        ensures
            img.wf(),
            img.spec_height() == height,
            img.spec_width() == width,
            forall|r: int, c: int| 0 <= r < height && 0 <= c < width ==> #[trigger] img@[r][c] == px,
    {
        Img(Grid::new(height, width, px))
    }

    /// One row of `len` cells `px`.
    pub fn horiz(len: usize, px: SpriteCell) -> (img: Self)
        ensures
            img.wf(),
            img.spec_height() == 1,
            img.spec_width() == len,
            forall|c: int| 0 <= c < len ==> #[trigger] img@[0][c] == px,
    {
        Img(Grid::new(1, len, px))
    }

    /// One column of `len` cells `px`.
    pub fn vert(len: usize, px: SpriteCell) -> (img: Self)
        ensures
            img.wf(),
            img.spec_height() == len,
            img.spec_width() == 1,
            forall|r: int| 0 <= r < len ==> #[trigger] img@[r][0] == px,
    {
        Img(Grid::new(len, 1, px))
    }

    /// A square of side `side_len`, every cell `px`.
    pub fn square(side_len: usize, px: SpriteCell) -> (img: Self)
        ensures
            img.wf(),
            img.spec_height() == side_len,
            img.spec_width() == side_len,
            forall|r: int, c: int|
                0 <= r < side_len && 0 <= c < side_len ==> #[trigger] img@[r][c] == px,
    {
        Img(Grid::new(side_len, side_len, px))
    }

    /// A copy of the picture.
    pub fn copy(&self) -> (img: Self)
        ensures
            img@ == self@,
            img.spec_height() == self.spec_height(),
            img.spec_width() == self.spec_width(),
    {
        Img(self.0.copy())
    }

    /// The cell at (row, column); fails with `OutOfBounds` outside the picture.
    pub fn get(&self, pos: (usize, usize)) -> (r: Result<SpriteCell>)
        requires
            self.wf(),
        ensures
            pos.0 < self.spec_height() && pos.1 < self.spec_width() ==> r == Ok::<
                SpriteCell,
                crate::util::SetError,
            >(self@[pos.0 as int][pos.1 as int]),
            !(pos.0 < self.spec_height() && pos.1 < self.spec_width()) ==> (r matches Err(e)
                && e.kind == crate::util::SetErrorKind::OutOfBounds),
    {
        self.0.get(pos)
    }

    /// Sets the cell at (row, column) and returns its old value; fails with
    /// `OutOfBounds` outside the picture, leaving it unchanged.
    pub fn set(&mut self, pos: (usize, usize), cel: SpriteCell) -> (r: Result<SpriteCell>)
        requires
            old(self).wf(),
        ensures
            final(self).wf(),
            final(self).spec_height() == old(self).spec_height(),
            final(self).spec_width() == old(self).spec_width(),
            pos.0 < old(self).spec_height() && pos.1 < old(self).spec_width() ==> r == Ok::<
                SpriteCell,
                crate::util::SetError,
            >(old(self)@[pos.0 as int][pos.1 as int]) && final(self)@ == old(self)@.update(
                pos.0 as int,
                old(self)@[pos.0 as int].update(pos.1 as int, cel),
            ),
            !(pos.0 < old(self).spec_height() && pos.1 < old(self).spec_width()) ==> (r matches Err(
                e,
            ) && e.kind == crate::util::SetErrorKind::OutOfBounds) && final(self)@ == old(self)@,
    {
        self.0.set(pos, cel)
    }

    /// A walk over every cell with its position, row by row.
    pub fn enumerate(&self) -> (e: GridEnumerator<SpriteCell>)
        ensures
            e.grid@ == self@,
            e.grid.spec_height() == self.spec_height(),
            e.grid.spec_width() == self.spec_width(),
            e.iter.rng == super::grid::full_bounds(self.spec_height(), self.spec_width()),
            self.wf() ==> e.valid(),
            e.iter.next == if self.spec_height() == 0 || self.spec_width() == 0 {
                None
            } else {
                Some((0usize, 0usize))
            },
    {
        self.0.enumerate()
    }

    pub fn width(&self) -> (w: usize)
        ensures
            w == self.spec_width(),
    {
        self.0.width()
    }

    pub fn height(&self) -> (h: usize)
        ensures
            h == self.spec_height(),
    {
        self.0.height()
    }

    pub fn top_left(&self) -> (p: TermPos)
        ensures
            p == (TermPos { y: 0, x: 0 }),
    {
        TermPos::new(0, 0)
    }

    pub fn top_right(&self) -> (p: TermPos)
        requires
            1 <= self.spec_width() <= i16::MAX + 1,
        ensures
            p.y == 0,
            p.x == self.spec_width() - 1,
    {
        TermPos::new(0, (self.0.width() - 1) as i16)
    }

    pub fn bottom_left(&self) -> (p: TermPos)
        requires
            1 <= self.spec_height() <= i16::MAX + 1,
        ensures
            p.y == self.spec_height() - 1,
            p.x == 0,
    {
        TermPos::new((self.0.height() - 1) as i16, 0)
    }

    pub fn bottom_right(&self) -> (p: TermPos)
        requires
            1 <= self.spec_height() <= i16::MAX + 1,
            1 <= self.spec_width() <= i16::MAX + 1,
        ensures
            p.y == self.spec_height() - 1,
            p.x == self.spec_width() - 1,
    {
        TermPos::new((self.0.height() - 1) as i16, (self.0.width() - 1) as i16)
    }
}

impl Clone for Img {
    fn clone(&self) -> (img: Self)
        ensures
            img@ == self@,
            img.spec_height() == self.spec_height(),
            img.spec_width() == self.spec_width(),
    {
        self.copy()
    }
}

} // verus!
