use vstd::prelude::*;

use crate::config::{
    Scale, WIN_MARGIN_VERT, WIN_MARGIN_HORIZ, CARD_SPACING_VERT, CARD_SPACING_HORIZ,
    LAST_FOUND_OFFSET,
};
use crate::util::{Result, SetError, SetErrorKind, TermSize};

verus! {

/// A slot on the dealt part of the board: row 0..=2, column 0..=5.
/// Columns 0..=3 are the main section, columns 4..=5 the extra section.
#[derive(PartialEq, Eq, Structural, Hash, Copy, Clone, Debug)]
pub struct DealtPos {
    pub row: u8,
    pub col: u8,
}

impl DealtPos {
    /// The slot lies on the board.
    pub open spec fn wf(self) -> bool {
        self.row <= 2 && self.col <= 5
    }

    pub fn new(row: u8, col: u8) -> (p: Self)
        requires
            row <= 2,
            col <= 5,
        ensures
            p.row == row,
            p.col == col,
            p.wf(),
    {
        Self { row, col }
    }

    pub fn row(self) -> (r: u8)
        ensures
            r == self.row,
    {
        self.row
    }

    pub fn col(self) -> (c: u8)
        ensures
            c == self.col,
    {
        self.col
    }
}

#[derive(PartialEq, Eq, Structural, Hash, Copy, Clone, Debug)]
pub enum GamePos {
    Deck,
    LastFound0,
    LastFound1,
    LastFound2,
    Dealt(DealtPos),
}

impl GamePos {
    pub fn new_dealt(row: u8, col: u8) -> (p: Self)
        requires
            row <= 2,
            col <= 5,
        ensures
            p == GamePos::Dealt(DealtPos { row, col }),
    {
        Self::Dealt(DealtPos::new(row, col))
    }

    pub fn from(pos: DealtPos) -> (p: Self)
        ensures
            p == GamePos::Dealt(pos),
    {
        Self::Dealt(pos)
    }
}

/// A terminal cell, row-major: `y` is the row, `x` the column.
#[derive(PartialEq, Eq, Structural, Hash, Copy, Clone, Debug, Default)]
pub struct TermPos {
    pub y: i16,
    pub x: i16,
}

impl View for TermPos {
    type V = (int, int);

    open spec fn view(&self) -> (int, int) {
        (self.y as int, self.x as int)
    }
}

/// The cell lies inside a terminal of the given (height, width).
pub open spec fn on_screen(p: TermPos, dims: (i16, i16)) -> bool {
    0 <= p.y < dims.0 && 0 <= p.x < dims.1
}

/// The `k`-th cell of the row-major walk over the rectangle whose top-left corner is
/// `tl` and whose rows are `w` cells wide.
pub open spec fn rect_cell(tl: TermPos, w: int, k: int) -> (int, int) {
    (tl.y + k / w, tl.x + k % w)
}

impl TermPos {
    /// Returns the position unchanged; the position must lie on the screen whose size
    /// `ts` holds.
    pub fn chk(self, ts: &TermSize) -> (p: Self)
        requires
            on_screen(self, ts.spec_dims()),
        ensures
            p == self,
    {
        self
    }

    pub fn onscreen(self, ts: &TermSize) -> (b: bool)
        ensures
            b == on_screen(self, ts.spec_dims()),
    {
        let (h, w) = ts.dims();
        0 <= self.y && self.y < h && 0 <= self.x && self.x < w
    }

    pub fn new(y: i16, x: i16) -> (p: Self)
        ensures
            p == (TermPos { y, x }),
    {
        Self { y, x }
    }

    pub fn set_x(self, x: i16) -> (p: Self)
        ensures
            p == (TermPos { y: self.y, x }),
    {
        Self::new(self.y, x)
    }

    pub fn set_y(self, y: i16) -> (p: Self)
        ensures
            p == (TermPos { y, x: self.x }),
    {
        Self::new(y, self.x)
    }

    pub fn x(self) -> (x: i16)
        ensures
            x == self.x,
    {
        self.x
    }

    pub fn y(self) -> (y: i16)
        ensures
            y == self.y,
    {
        self.y
    }

    /// Componentwise sum.
    pub fn add(self, t: TermPos) -> (p: Self)
        requires
            i16::MIN <= self.y + t.y <= i16::MAX,
            i16::MIN <= self.x + t.x <= i16::MAX,
        ensures
            p.y == self.y + t.y,
            p.x == self.x + t.x,
    {
        Self::new(self.y + t.y, self.x + t.x)
    }

    /// Componentwise difference.
    pub fn sub(self, t: TermPos) -> (p: Self)
        requires
            i16::MIN <= self.y - t.y <= i16::MAX,
            i16::MIN <= self.x - t.x <= i16::MAX,
        ensures
            p.y == self.y - t.y,
            p.x == self.x - t.x,
    {
        Self::new(self.y - t.y, self.x - t.x)
    }

    /// The upper-leftmost point (smallest row, smallest column) and the lower-rightmost
    /// point (largest row, largest column) over all positions in `v`. For an empty `v`
    /// the corners are (MAX, MAX) and (MIN, MIN).
    pub fn bounding_box(v: Vec<TermPos>) -> (r: (Self, Self))
        ensures
            forall|i: int|
                0 <= i < v.len() ==> {
                    &&& r.0.y <= #[trigger] v[i].y
                    &&& r.0.x <= v[i].x
                    &&& v[i].y <= r.1.y
                    &&& v[i].x <= r.1.x
                },
            v.len() == 0 ==> r == (TermPos { y: i16::MAX, x: i16::MAX }, TermPos {
                y: i16::MIN,
                x: i16::MIN,
            }),
            v.len() > 0 ==> {
                &&& exists|i: int| 0 <= i < v.len() && r.0.y == #[trigger] v[i].y
                &&& exists|i: int| 0 <= i < v.len() && r.0.x == #[trigger] v[i].x
                &&& exists|i: int| 0 <= i < v.len() && r.1.y == #[trigger] v[i].y
                &&& exists|i: int| 0 <= i < v.len() && r.1.x == #[trigger] v[i].x
            },
    {
        let (mut min_y, mut min_x): (i16, i16) = (i16::MAX, i16::MAX);
        let (mut max_y, mut max_x): (i16, i16) = (i16::MIN, i16::MIN);
        let mut i: usize = 0;
        while i < v.len()
            invariant
                i <= v.len(),
                forall|j: int|
                    0 <= j < i ==> {
                        &&& min_y <= #[trigger] v[j].y
                        &&& min_x <= v[j].x
                        &&& v[j].y <= max_y
                        &&& v[j].x <= max_x
                    },
                i == 0 ==> min_y == i16::MAX && min_x == i16::MAX && max_y == i16::MIN
                    && max_x == i16::MIN,
                i > 0 ==> {
                    &&& exists|j: int| 0 <= j < i && min_y == #[trigger] v[j].y
                    &&& exists|j: int| 0 <= j < i && min_x == #[trigger] v[j].x
                    &&& exists|j: int| 0 <= j < i && max_y == #[trigger] v[j].y
                    &&& exists|j: int| 0 <= j < i && max_x == #[trigger] v[j].x
                },
            decreases v.len() - i,
        {
            let tp = v[i];
            let (y, x) = (tp.y, tp.x);
            if i == 0 || y < min_y {
                min_y = y;
            }
            if i == 0 || y > max_y {
                max_y = y;
            }
            if i == 0 || x < min_x {
                min_x = x;
            }
            if i == 0 || x > max_x {
                max_x = x;
            }
            i = i + 1;
        }
        (Self::new(min_y, min_x), Self::new(max_y, max_x))
    }

    /// Every position of the rectangle with top-left corner `self` and bottom-right corner
    /// `bottomright` (both inclusive), in row-major order, leaving out the first one
    /// (`self` itself).
    fn pos_range(self, bottomright: Self) -> (v: Vec<TermPos>)
        requires
            self.x <= bottomright.x,
            self.y <= bottomright.y,
            bottomright.x < i16::MAX,
            bottomright.y < i16::MAX,
        ensures
            ({
                let w = bottomright.x - self.x + 1;
                let h = bottomright.y - self.y + 1;
                &&& v.len() == h * w - 1
                &&& forall|k: int|
                    0 <= k < v.len() ==> (#[trigger] v[k]@) == rect_cell(self, w, k + 1)
            }),
    {
        let ghost w: int = bottomright.x - self.x + 1;
        let ghost h: int = bottomright.y - self.y + 1;
        let mut v: Vec<TermPos> = Vec::new();
        let mut y: i16 = self.y;
        let mut x: i16 = self.x + 1;
        // cells already emitted, counting the skipped first one
        let ghost mut k: int = 1;
        proof {
            assert(h * w >= 1) by (nonlinear_arith)
                requires
                    h >= 1,
                    w >= 1,
            ;
        }
        loop
            invariant
                w == bottomright.x - self.x + 1,
                h == bottomright.y - self.y + 1,
                w >= 1,
                h >= 1,
                self.y <= y <= bottomright.y,
                self.x <= x <= bottomright.x + 1,
                k == (y - self.y) * w + (x - self.x),
                v.len() == k - 1,
                1 <= k <= h * w,
                forall|j: int|
                    0 <= j < v.len() ==> (#[trigger] v[j]@) == rect_cell(self, w, j + 1),
                bottomright.x < i16::MAX,
                bottomright.y < i16::MAX,
            ensures
                v.len() == h * w - 1,
                forall|j: int|
                    0 <= j < v.len() ==> (#[trigger] v[j]@) == rect_cell(self, w, j + 1),
            decreases h * w - k,
        {
            if x > bottomright.x {
                if y >= bottomright.y {
                    proof {
                        assert(x == bottomright.x + 1);
                        assert(y == bottomright.y);
                        assert(k == h * w) by (nonlinear_arith)
                            requires
                                k == (y - self.y) * w + (x - self.x),
                                y - self.y == h - 1,
                                x - self.x == w,
                        ;
                    }
                    break;
                }
                y = y + 1;
                x = self.x;
                proof {
                    assert((y - self.y) * w == (y - 1 - self.y) * w + w) by (nonlinear_arith);
                }
            }
            proof {
                let ry = y - self.y;
                let rx = x - self.x;
                assert(k == ry * w + rx);
                assert(0 <= rx < w);
                assert(k / w == ry && k % w == rx) by (nonlinear_arith)
                    requires
                        k == ry * w + rx,
                        0 <= rx < w,
                        0 <= ry,
                ;
                assert(k < h * w) by (nonlinear_arith)
                    requires
                        k == ry * w + rx,
                        0 <= rx < w,
                        0 <= ry < h,
                ;
            }
            v.push(Self::new(y, x));
            x = x + 1;
            proof {
                k = k + 1;
            }
        }
        v
    }

    /// Every position of the rectangle from `self` to `bottomright`, inclusive, in
    /// row-major order, after the first one (`self` itself is not visited).
    pub fn range_to(self, bottomright: Self) -> (v: Vec<TermPos>)
        requires
            self.x <= bottomright.x,
            self.y <= bottomright.y,
            bottomright.x < i16::MAX,
            bottomright.y < i16::MAX,
        ensures
            ({
                let w = bottomright.x - self.x + 1;
                let h = bottomright.y - self.y + 1;
                &&& v.len() == h * w - 1
                &&& forall|k: int|
                    0 <= k < v.len() ==> (#[trigger] v[k]@) == rect_cell(self, w, k + 1)
            }),
    {
        self.pos_range(bottomright)
    }

    /// The position of a pair of unsigned indices, if both fit in an `i16`.
    pub fn try_from(pair: (usize, usize)) -> (r: Result<Self>)
        ensures
            pair.0 <= i16::MAX && pair.1 <= i16::MAX ==> (r matches Ok(p) && p.y == pair.0
                && p.x == pair.1),
            !(pair.0 <= i16::MAX && pair.1 <= i16::MAX) ==> (r matches Err(e) && e.kind
                == SetErrorKind::Conversion),
    {
        if pair.0 <= 32767 && pair.1 <= 32767 {
            Ok(Self::new(pair.0 as i16, pair.1 as i16))
        } else {
            Err(SetError::new(SetErrorKind::Conversion, "conversion error!"))
        }
    }

    /// The position of the top-left corner of an inactive card dealt at `lp`.
    pub fn from(args: (&DealtPos, &Scale)) -> (p: Self)
        requires
            dealt_pos_fits(*args.0, *args.1),
        ensures
            p.y == WIN_MARGIN_VERT + args.0.row * (args.1.CARD_HEIGHT + 1 + CARD_SPACING_VERT),
            p.x == WIN_MARGIN_HORIZ + args.0.col * (args.1.CARD_WIDTH + CARD_SPACING_HORIZ),
    {
        let (lp, s) = args;
        let (row, col): (i16, i16) = (lp.row as i16, lp.col as i16);
        let y = WIN_MARGIN_VERT + (row * (s.CARD_HEIGHT + 1 + CARD_SPACING_VERT));
        let x = WIN_MARGIN_HORIZ + (col * (s.CARD_WIDTH + CARD_SPACING_HORIZ));
        Self::new(y, x)
    }

    /// The position of the top-left corner of an inactive card at `sp` on a terminal of
    /// size `dims` (height, width).
    pub fn from_game_pos(sp: &GamePos, s: &Scale, dims: (i16, i16)) -> (p: Self)
        requires
            game_pos_fits(*sp, *s, dims),
        ensures
            p == game_pos_spec(*sp, *s, dims),
    {
        let (height, width) = dims;
        let bottom = height - s.CARD_HEIGHT - WIN_MARGIN_VERT;
        let right = width - s.CARD_WIDTH - WIN_MARGIN_HORIZ;
        let left = WIN_MARGIN_HORIZ;

        let pos = match sp {
            GamePos::Deck => TermPos::new(bottom - CARD_SPACING_VERT, left),
            GamePos::LastFound0 => TermPos::new(bottom, right - LAST_FOUND_OFFSET * 2),
            GamePos::LastFound1 => TermPos::new(
                bottom - CARD_SPACING_VERT,
                right - LAST_FOUND_OFFSET,
            ),
            GamePos::LastFound2 => TermPos::new(bottom - CARD_SPACING_VERT * 2, right),
            GamePos::Dealt(pos) => TermPos::from((pos, s)).add(TermPos::new(1, 0)),
        };
        pos.add(TermPos::new(-1, 0))
    }
}

/// The arithmetic of `TermPos::from` on a dealt slot stays within `i16`.
pub open spec fn dealt_pos_fits(lp: DealtPos, s: Scale) -> bool {
    let hstep = s.CARD_HEIGHT + 1 + CARD_SPACING_VERT;
    let wstep = s.CARD_WIDTH + CARD_SPACING_HORIZ;
    &&& i16::MIN <= hstep <= i16::MAX
    &&& i16::MIN <= s.CARD_HEIGHT + 1 <= i16::MAX
    &&& i16::MIN <= wstep <= i16::MAX
    &&& i16::MIN <= lp.row * hstep <= i16::MAX
    &&& i16::MIN <= lp.col * wstep <= i16::MAX
    &&& i16::MIN <= WIN_MARGIN_VERT + lp.row * hstep <= i16::MAX
    &&& i16::MIN <= WIN_MARGIN_HORIZ + lp.col * wstep <= i16::MAX
}

/// The arithmetic of `TermPos::from_game_pos` stays within `i16`.
pub open spec fn game_pos_fits(sp: GamePos, s: Scale, dims: (i16, i16)) -> bool {
    let hc = dims.0 - s.CARD_HEIGHT;
    let bottom = dims.0 - s.CARD_HEIGHT - WIN_MARGIN_VERT;
    let wc = dims.1 - s.CARD_WIDTH;
    let right = dims.1 - s.CARD_WIDTH - WIN_MARGIN_HORIZ;
    &&& i16::MIN <= hc <= i16::MAX
    &&& i16::MIN <= bottom <= i16::MAX
    &&& i16::MIN <= wc <= i16::MAX
    &&& i16::MIN <= right <= i16::MAX
    &&& match sp {
        GamePos::Deck => i16::MIN <= bottom - CARD_SPACING_VERT - 1,
        GamePos::LastFound0 => i16::MIN <= right - LAST_FOUND_OFFSET * 2 && i16::MIN
            <= bottom - 1,
        GamePos::LastFound1 => i16::MIN <= right - LAST_FOUND_OFFSET && i16::MIN <= bottom
            - CARD_SPACING_VERT - 1,
        GamePos::LastFound2 => i16::MIN <= bottom - CARD_SPACING_VERT * 2 - 1,
        GamePos::Dealt(lp) => dealt_pos_fits(lp, s) && WIN_MARGIN_VERT + lp.row * (
        s.CARD_HEIGHT + 1 + CARD_SPACING_VERT) + 1 <= i16::MAX,
    }
}

/// Where `TermPos::from_game_pos` places a card.
pub open spec fn game_pos_spec(sp: GamePos, s: Scale, dims: (i16, i16)) -> TermPos {
    let bottom = dims.0 - s.CARD_HEIGHT - WIN_MARGIN_VERT;
    let right = dims.1 - s.CARD_WIDTH - WIN_MARGIN_HORIZ;
    let left = WIN_MARGIN_HORIZ;
    match sp {
        GamePos::Deck => TermPos { y: (bottom - CARD_SPACING_VERT - 1) as i16, x: left },
        GamePos::LastFound0 => TermPos {
            y: (bottom - 1) as i16,
            x: (right - LAST_FOUND_OFFSET * 2) as i16,
        },
        GamePos::LastFound1 => TermPos {
            y: (bottom - CARD_SPACING_VERT - 1) as i16,
            x: (right - LAST_FOUND_OFFSET) as i16,
        },
        GamePos::LastFound2 => TermPos {
            y: (bottom - CARD_SPACING_VERT * 2 - 1) as i16,
            x: right as i16,
        },
        GamePos::Dealt(lp) => TermPos {
            y: (WIN_MARGIN_VERT + lp.row * (s.CARD_HEIGHT + 1 + CARD_SPACING_VERT)) as i16,
            x: (WIN_MARGIN_HORIZ + lp.col * (s.CARD_WIDTH + CARD_SPACING_HORIZ)) as i16,
        },
    }
}

/// The pair of unsigned indices of a position, if both of its components are
/// non-negative.
pub fn try_from(pos: TermPos) -> (r: Result<(usize, usize)>)
    ensures
        pos.y >= 0 && pos.x >= 0 ==> (r matches Ok(pair) && pair.0 == pos.y && pair.1 == pos.x),
        !(pos.y >= 0 && pos.x >= 0) ==> (r matches Err(e) && e.kind == SetErrorKind::Conversion),
{
    if pos.y >= 0 && pos.x >= 0 {
        Ok((pos.y as usize, pos.x as usize))
    } else {
        Err(SetError::new(SetErrorKind::Conversion, "conversion error!"))
    }
}

/// Subtracting what was added gives back the position: if `q` is `p.add(t)` and `r` is
/// `q.sub(t)` (as their contracts say), then `r` is `p`.
pub proof fn lemma_add_sub_inverse(p: TermPos, t: TermPos, q: TermPos, r: TermPos)
    requires
        q.y == p.y + t.y,
        q.x == p.x + t.x,
        r.y == q.y - t.y,
        r.x == q.x - t.x,
    ensures
        r == p,
{
}

} // verus!
