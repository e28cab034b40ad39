use vstd::prelude::*;

use super::Stn;
use super::SpriteCell;
use super::sprite::Sprite;
use super::termable::{Termable, fits};
use super::sprite_tree::{SpriteTree, flatten, dedup_ids, copies};
use super::dirt::Dirt;
use crate::util::TermSize;
use crate::config::Color;
use crate::pos::TermPos;
use crate::termchar::TermChar;

verus! {

/// What a sprite shows at the screen cell (`y`, `x`): its cell there, or nothing
/// (transparent) where it has none.
pub open spec fn cell_of(sp: Sprite, y: i16, x: i16) -> SpriteCell {
    match sp.rel_cell(
        TermPos { y: (y - sp.spec_anchor().y) as i16, x: (x - sp.spec_anchor().x) as i16 },
    ) {
        Some(c) => c,
        None => SpriteCell::Transparent,
    }
}

/// The screen cell (`y`, `x`) can be looked up in the sprite: its position relative to
/// the sprite's anchor fits in `i16`.
pub open spec fn reachable(sp: Sprite, y: i16, x: i16) -> bool {
    &&& i16::MIN <= y - sp.spec_anchor().y <= i16::MAX
    &&& i16::MIN <= x - sp.spec_anchor().x <= i16::MAX
}

/// What the screen shows at (`y`, `x`): the cell of the first sprite, in order, that is
/// opaque there, or the terminal's background where none is.
pub open spec fn top_char(sprites: Seq<Stn>, y: i16, x: i16) -> TermChar
    decreases sprites.len(),
{
    if sprites.len() == 0 {
        TermChar::Bg(Color::Reset)
    } else {
        match cell_of(*sprites[0], y, x) {
            SpriteCell::Opaque(tc) => tc,
            SpriteCell::Transparent => top_char(sprites.drop_first(), y, x),
        }
    }
}

/// The character shown at (`y`, `x`), looked up in `sprites` from first to last.
pub fn char_at(sprites: &Vec<Stn>, y: i16, x: i16) -> (c: TermChar)
    requires
        forall|i: int|
            0 <= i < sprites@.len() ==> (*#[trigger] sprites@[i]).wf() && reachable(*sprites@[i], y, x),
    ensures
        c == top_char(sprites@, y, x),
{
    let mut i: usize = 0;
    proof {
        assert(sprites@.subrange(0, sprites@.len() as int) =~= sprites@);
    }
    while i < sprites.len()
        invariant
            i <= sprites@.len(),
            forall|j: int|
                0 <= j < sprites@.len() ==> (*#[trigger] sprites@[j]).wf() && reachable(*sprites@[j], y, x),
            top_char(sprites@, y, x) == top_char(sprites@.subrange(i as int, sprites@.len() as int), y, x),
        decreases sprites.len() - i,
    {
        let ghost rest = sprites@.subrange(i as int, sprites@.len() as int);
        proof {
            assert(rest[0] == sprites@[i as int]);
            assert(rest.drop_first() =~= sprites@.subrange(i + 1, sprites@.len() as int));
        }
        let cel = match sprites[i].get(TermPos::new(y, x)) {
            Ok(c) => c,
            Err(_) => SpriteCell::Transparent,
        };
        if let SpriteCell::Opaque(tc) = cel {
            return tc;
        }
        i = i + 1;
    }
    TermChar::default()
}

/// The colors, (foreground, background), of a run of the one cell `c`.
pub open spec fn char_colors(c: TermChar) -> (Option<Color>, Option<Color>) {
    match c {
        TermChar::Bg(bg) => (None, Some(bg)),
        TermChar::Fg { fg, bg, .. } => (Some(fg), Some(bg)),
    }
}

/// Whether the cell `c` can join a run printed in `col`: a run without colors is empty
/// and takes anything; a blank run takes a cell of its background; a character run
/// takes a cell of its background and, if not blank, of its foreground.
pub open spec fn joins(col: (Option<Color>, Option<Color>), c: TermChar) -> bool {
    match col {
        (None, None) => true,
        (None, Some(bg)) => match c {
            TermChar::Bg(b) => b == bg,
            TermChar::Fg { bg: b, .. } => b == bg,
        },
        (Some(fg), Some(bg)) => match c {
            TermChar::Bg(b) => b == bg,
            TermChar::Fg { fg: f, bg: b, .. } => f == fg && b == bg,
        },
        (Some(_), None) => false,
    }
}

/// The colors of a run printed in `col` after the cell `c` joined it.
pub open spec fn joined_colors(col: (Option<Color>, Option<Color>), c: TermChar) -> (
    Option<Color>,
    Option<Color>,
) {
    match col {
        (None, None) => char_colors(c),
        (None, Some(_)) => if c is Fg {
            char_colors(c)
        } else {
            col
        },
        _ => col,
    }
}

/// The runs of cells printed for line `y` when the columns `xs` are drawn, in order,
/// from the characters that `sprites` show there: the runs finished so far, the run
/// being built (start column, characters, colors), and the last column drawn. A cell
/// joins the run being built when it comes right after the last column and its colors
/// allow; otherwise that run is finished (even when it is still empty) and the cell
/// starts a new one.
pub open spec fn line_state(sprites: Seq<Stn>, y: i16, xs: Seq<i16>) -> (
    Seq<(i16, Seq<char>, (Option<Color>, Option<Color>))>,
    (i16, Seq<char>, (Option<Color>, Option<Color>)),
    int,
)
    decreases xs.len(),
{
    if xs.len() == 0 {
        (Seq::empty(), (0i16, Seq::empty(), (None, None)), -1)
    } else {
        let prev = line_state(sprites, y, xs.drop_last());
        let x = xs.last();
        let c = top_char(sprites, y, x);
        if x == prev.2 + 1 && joins(prev.1.2, c) {
            (prev.0, (prev.1.0, prev.1.1.push(c.spec_c()), joined_colors(prev.1.2, c)), x as int)
        } else {
            (prev.0.push(prev.1), (x, seq![c.spec_c()], char_colors(c)), x as int)
        }
    }
}

/// The runs printed for line `y` when the columns `xs` are drawn: every run, the last
/// one included; nothing when no column is drawn.
pub open spec fn line_runs(sprites: Seq<Stn>, y: i16, xs: Seq<i16>) -> Seq<
    (i16, Seq<char>, (Option<Color>, Option<Color>)),
> {
    if xs.len() == 0 {
        Seq::empty()
    } else {
        let st = line_state(sprites, y, xs);
        st.0.push(st.1)
    }
}

/// The position of the first column of `line` that is not negative and not before
/// `width`, or the length of `line` when there is none.
pub open spec fn cut(line: Seq<i16>, width: i16) -> int
    decreases line.len(),
{
    if line.len() == 0 {
        0
    } else if line[0] >= 0 && line[0] >= width {
        0
    } else {
        1 + cut(line.drop_first(), width)
    }
}

/// The columns of a dirty line that are drawn: the non-negative ones before the first
/// non-negative column at or beyond `width`.
pub open spec fn drawn(line: Seq<i16>, width: i16) -> Seq<i16> {
    line.subrange(0, cut(line, width)).filter(|x: i16| x >= 0)
}

/// `cut` is the first position at or beyond `width`.
proof fn lemma_cut(line: Seq<i16>, width: i16, i: int)
    requires
        0 <= i <= line.len(),
        forall|j: int| 0 <= j < i ==> #[trigger] line[j] < 0 || line[j] < width,
        i == line.len() || (line[i] >= 0 && line[i] >= width),
    ensures
        cut(line, width) == i,
    decreases i,
{
    if i > 0 {
        let rest = line.drop_first();
        assert forall|j: int| 0 <= j < i - 1 implies #[trigger] rest[j] < 0 || rest[j] < width by {
            assert(rest[j] == line[j + 1]);
        }
        if i < line.len() {
            assert(rest[i - 1] == line[i]);
        }
        lemma_cut(rest, width, i - 1);
    }
}

/// Whether a cell can join a run depends only on the run's colors.
proof fn lemma_fits_joins(t: Termable, c: TermChar)
    ensures
        fits(t, c) == joins(t.colors(), c),
        t is Empty <==> t.colors() == (None::<Color>, None::<Color>),
        t is Bg <==> t.colors().0 is None && t.colors().1 is Some,
{
}

/// What is printed for line `y`: runs of cells, each with its start column, covering the
/// columns of `line` that are drawn (see `drawn`), each showing the character that
/// `sprites` show there (see `top_char`). The runs are split as `line_runs` says.
pub fn write_line(sprites: &Vec<Stn>, y: i16, line: &Vec<i16>, width: i16) -> (runs: Vec<
    (i16, Termable),
>)
    requires
        forall|i: int, k: int|
            0 <= i < sprites@.len() && 0 <= k < line@.len() && 0 <= line@[k] < width ==> (*#[trigger] sprites@[i]).wf()
                && reachable(*sprites@[i], y, #[trigger] line@[k]),
    ensures
        runs@.len() == line_runs(sprites@, y, drawn(line@, width)).len(),
        forall|k: int|
            0 <= k < runs@.len() ==> {
                let r = line_runs(sprites@, y, drawn(line@, width))[k];
                &&& (#[trigger] runs@[k]).0 == r.0
                &&& runs@[k].1.text() == r.1
                &&& runs@[k].1.colors() == r.2
            },
        printed_true(sprites@, y, runs@),
{
    let ghost f = |x: i16| x >= 0;
    let mut runs: Vec<(i16, Termable)> = Vec::new();
    let mut term = Termable::default();
    let mut start: i16 = 0;
    let mut last: i16 = -1;
    let mut at_least_one = false;
    let mut i: usize = 0;
    proof {
        reveal(Seq::filter);
        assert(line@.subrange(0, 0).filter(f) =~= Seq::<i16>::empty());
    }
    while i < line.len()
        invariant_except_break
            forall|j: int| 0 <= j < i ==> #[trigger] line@[j] < 0 || line@[j] < width,
        invariant
            i <= line@.len(),
            f == (|x: i16| x >= 0),
            last == -1 || last < width,
            forall|a: int, k: int|
                0 <= a < sprites@.len() && 0 <= k < line@.len() && 0 <= line@[k] < width ==> (*#[trigger] sprites@[a]).wf()
                    && reachable(*sprites@[a], y, #[trigger] line@[k]),
            ({
                let xs = line@.subrange(0, i as int).filter(f);
                let st = line_state(sprites@, y, xs);
                &&& runs@.len() == st.0.len()
                &&& forall|k: int|
                    0 <= k < runs@.len() ==> {
                        &&& (#[trigger] runs@[k]).0 == st.0[k].0
                        &&& runs@[k].1.text() == st.0[k].1
                        &&& runs@[k].1.colors() == st.0[k].2
                    }
                &&& start == st.1.0
                &&& term.text() == st.1.1
                &&& term.colors() == st.1.2
                &&& last == st.2
                &&& at_least_one == (xs.len() > 0)
                &&& st.1.1.len() <= xs.len()
                &&& xs.len() <= i
            }),
        ensures
            i <= line@.len(),
            i == line@.len() || (line@[i as int] >= 0 && line@[i as int] >= width),
            forall|j: int| 0 <= j < i ==> #[trigger] line@[j] < 0 || line@[j] < width,
            ({
                let xs = line@.subrange(0, i as int).filter(f);
                let st = line_state(sprites@, y, xs);
                &&& runs@.len() == st.0.len()
                &&& forall|k: int|
                    0 <= k < runs@.len() ==> {
                        &&& (#[trigger] runs@[k]).0 == st.0[k].0
                        &&& runs@[k].1.text() == st.0[k].1
                        &&& runs@[k].1.colors() == st.0[k].2
                    }
                &&& start == st.1.0
                &&& term.text() == st.1.1
                &&& term.colors() == st.1.2
                &&& at_least_one == (xs.len() > 0)
            }),
        decreases line.len() - i,
    {
        let x = line[i];
        let ghost xs0 = line@.subrange(0, i as int).filter(f);
        let ghost st0 = line_state(sprites@, y, xs0);
        proof {
            assert(line@.subrange(0, i + 1).drop_last() =~= line@.subrange(0, i as int));
            assert(line@.subrange(0, i + 1).last() == x);
        }
        if x < 0 {
            proof {
                reveal(Seq::filter);
                assert(line@.subrange(0, i + 1).filter(f) == xs0);
            }
            i = i + 1;
            continue;
        }
        if width <= x {
            break;
        }
        proof {
            reveal(Seq::filter);
            let xs1 = line@.subrange(0, i + 1).filter(f);
            assert(xs1 == xs0.push(x));
            assert(xs1.drop_last() =~= xs0);
            assert(forall|a: int|
                0 <= a < sprites@.len() ==> (*#[trigger] sprites@[a]).wf() && reachable(
                    *sprites@[a],
                    y,
                    line@[i as int],
                ));
            lemma_fits_joins(term, TermChar::Bg(Color::Reset));
        }
        at_least_one = true;
        let c = char_at(sprites, y, x);
        proof {
            lemma_fits_joins(term, c);
        }
        let mut joined = false;
        if x == last + 1 {
            joined = term.push(c);
        }
        if !joined {
            let mut done = Termable::default();
            std::mem::swap(&mut term, &mut done);
            runs.push((start, done));
            term.push(c);
            proof {
                assert(Seq::<char>::empty().push(c.spec_c()) =~= seq![c.spec_c()]);
            }
            start = x;
        }
        last = x;
        i = i + 1;
        proof {
            let xs1 = line@.subrange(0, i as int).filter(f);
            let st1 = line_state(sprites@, y, xs1);
            assert(xs1.drop_last() =~= xs0);
            assert(xs1.last() == x);
            if !joined {
                assert forall|k: int| 0 <= k < runs@.len() implies {
                    &&& (#[trigger] runs@[k]).0 == st1.0[k].0
                    &&& runs@[k].1.text() == st1.0[k].1
                    &&& runs@[k].1.colors() == st1.0[k].2
                } by {
                    if k < runs@.len() - 1 {
                        assert(st1.0[k] == st0.0[k]);
                    }
                }
            }
        }
    }
    if at_least_one {
        runs.push((start, term));
    }
    proof {
        lemma_cut(line@, width, i as int);
        let xs = line@.subrange(0, i as int).filter(f);
        assert(xs == drawn(line@, width));
        lemma_runs_keep_colors(sprites@, y, xs);
        assert forall|k: int, j: int|
            0 <= k < runs@.len() && 0 <= j < runs@[k].1.text().len() implies {
                &&& #[trigger] runs@[k].1.text()[j] == top_char(sprites@, y, (runs@[k].0 + j) as i16).spec_c()
                &&& shown_in(runs@[k].1.colors(), top_char(sprites@, y, (runs@[k].0 + j) as i16))
            } by {
            let r = line_runs(sprites@, y, xs)[k];
            assert(runs@.len() == line_runs(sprites@, y, xs).len());
            assert(runs@[k].0 == r.0);
            assert(runs@[k].1.text() == r.1);
            assert(runs@[k].1.colors() == r.2);
            assert(run_true(sprites@, y, r));
            assert(r.1[j] == runs@[k].1.text()[j]);
        }
        assert(printed_true(sprites@, y, runs@));
    }
    runs
}

/// Each printed run (start column, run) prints at each column it covers the character
/// that `sprites` show there on line `y`, in that character's own colors.
pub open spec fn printed_true(sprites: Seq<Stn>, y: i16, runs: Seq<(i16, Termable)>) -> bool {
    forall|k: int, j: int|
        0 <= k < runs.len() && 0 <= j < runs[k].1.text().len() ==> {
            &&& #[trigger] runs[k].1.text()[j] == top_char(sprites, y, (runs[k].0 + j) as i16).spec_c()
            &&& shown_in(runs[k].1.colors(), top_char(sprites, y, (runs[k].0 + j) as i16))
        }
}

/// The characters of the runs, run after run.
pub open spec fn run_text(runs: Seq<(i16, Seq<char>, (Option<Color>, Option<Color>))>) -> Seq<char>
    decreases runs.len(),
{
    if runs.len() == 0 {
        Seq::empty()
    } else {
        run_text(runs.drop_last()) + runs.last().1
    }
}

/// The characters that `sprites` show on line `y` at the columns `xs`, in order.
pub open spec fn shown(sprites: Seq<Stn>, y: i16, xs: Seq<i16>) -> Seq<char>
    decreases xs.len(),
{
    if xs.len() == 0 {
        Seq::empty()
    } else {
        shown(sprites, y, xs.drop_last()).push(top_char(sprites, y, xs.last()).spec_c())
    }
}

proof fn lemma_state_text(sprites: Seq<Stn>, y: i16, xs: Seq<i16>)
    ensures
        run_text(line_state(sprites, y, xs).0) + line_state(sprites, y, xs).1.1 == shown(sprites, y, xs),
    decreases xs.len(),
{
    if xs.len() == 0 {
        assert(Seq::<char>::empty() + Seq::<char>::empty() =~= Seq::<char>::empty());
    } else {
        lemma_state_text(sprites, y, xs.drop_last());
        let prev = line_state(sprites, y, xs.drop_last());
        let c = top_char(sprites, y, xs.last());
        if xs.last() == prev.2 + 1 && joins(prev.1.2, c) {
            assert(run_text(prev.0) + prev.1.1.push(c.spec_c()) =~= (run_text(prev.0) + prev.1.1).push(
                c.spec_c(),
            ));
        } else {
            let d = prev.0.push(prev.1);
            assert(d.drop_last() =~= prev.0);
            assert(run_text(d) + seq![c.spec_c()] =~= (run_text(prev.0) + prev.1.1).push(c.spec_c()));
        }
    }
}

/// What a line prints is what the sprites show: the characters of the runs, run after
/// run, are those shown at the drawn columns, in order.
pub proof fn lemma_runs_show_the_line(sprites: Seq<Stn>, y: i16, xs: Seq<i16>)
    ensures
        run_text(line_runs(sprites, y, xs)) == shown(sprites, y, xs),
{
    if xs.len() > 0 {
        lemma_state_text(sprites, y, xs);
        let st = line_state(sprites, y, xs);
        assert(st.0.push(st.1).drop_last() =~= st.0);
    }
}

/// A run printed in the colors `col` shows the cell `c` in `c`'s own colors: its
/// background is `c`'s background and, when `c` is a printed character, its foreground
/// is `c`'s foreground.
pub open spec fn shown_in(col: (Option<Color>, Option<Color>), c: TermChar) -> bool {
    match c {
        TermChar::Bg(b) => col.1 == Some(b),
        TermChar::Fg { fg, bg, .. } => col.1 == Some(bg) && col.0 == Some(fg),
    }
}

/// The run `r` (start column, characters, colors) prints at each column it covers the
/// character that `sprites` show there on line `y`, in that character's colors.
pub open spec fn run_true(sprites: Seq<Stn>, y: i16, r: (i16, Seq<char>, (Option<Color>, Option<Color>))) -> bool {
    forall|j: int|
        0 <= j < r.1.len() ==> {
            &&& #[trigger] r.1[j] == top_char(sprites, y, (r.0 + j) as i16).spec_c()
            &&& shown_in(r.2, top_char(sprites, y, (r.0 + j) as i16))
        }
}

proof fn lemma_state_true(sprites: Seq<Stn>, y: i16, xs: Seq<i16>)
    ensures
        line_state(sprites, y, xs).2 == line_state(sprites, y, xs).1.0 + line_state(sprites, y, xs).1.1.len() - 1,
        run_true(sprites, y, line_state(sprites, y, xs).1),
        forall|k: int|
            0 <= k < line_state(sprites, y, xs).0.len() ==> run_true(sprites, y, #[trigger] line_state(sprites, y, xs).0[k]),
    decreases xs.len(),
{
    if xs.len() > 0 {
        lemma_state_true(sprites, y, xs.drop_last());
        let prev = line_state(sprites, y, xs.drop_last());
        let x = xs.last();
        let c = top_char(sprites, y, x);
        let st = line_state(sprites, y, xs);
        if x == prev.2 + 1 && joins(prev.1.2, c) {
            let (s0, cs, col) = prev.1;
            let n = cs.len() as int;
            assert(st.1 == (s0, cs.push(c.spec_c()), joined_colors(col, c)));
            assert(st.2 == x);
            assert forall|j: int| 0 <= j < st.1.1.len() implies {
                &&& #[trigger] st.1.1[j] == top_char(sprites, y, (st.1.0 + j) as i16).spec_c()
                &&& shown_in(st.1.2, top_char(sprites, y, (st.1.0 + j) as i16))
            } by {
                if j < n {
                    assert(st.1.1[j] == cs[j]);
                    assert(prev.1.1[j] == top_char(sprites, y, (s0 + j) as i16).spec_c());
                    assert(shown_in(col, top_char(sprites, y, (s0 + j) as i16)));
                } else {
                    assert((s0 + j) as i16 == x);
                }
            }
            assert(st.0 == prev.0);
        } else {
            assert(st.0 == prev.0.push(prev.1));
            assert(st.1 == (x, seq![c.spec_c()], char_colors(c)));
            assert forall|j: int| 0 <= j < st.1.1.len() implies {
                &&& #[trigger] st.1.1[j] == top_char(sprites, y, (st.1.0 + j) as i16).spec_c()
                &&& shown_in(st.1.2, top_char(sprites, y, (st.1.0 + j) as i16))
            } by {
                assert(j == 0);
                assert((x + j) as i16 == x);
            }
            assert forall|k: int| 0 <= k < st.0.len() implies run_true(sprites, y, #[trigger] st.0[k]) by {
                if k < prev.0.len() {
                    assert(st.0[k] == prev.0[k]);
                }
            }
        }
    }
}

/// Every printed run shows its cells in their own colors: at each column it covers, a
/// run of `line_runs` prints the character the sprites show there, and is printed in
/// that character's background and, for a printed character, its foreground.
pub proof fn lemma_runs_keep_colors(sprites: Seq<Stn>, y: i16, xs: Seq<i16>)
    ensures
        forall|k: int|
            0 <= k < line_runs(sprites, y, xs).len() ==> run_true(sprites, y, #[trigger] line_runs(sprites, y, xs)[k]),
{
    if xs.len() > 0 {
        lemma_state_true(sprites, y, xs);
        let st = line_state(sprites, y, xs);
        assert forall|k: int|
            0 <= k < line_runs(sprites, y, xs).len() implies run_true(sprites, y, #[trigger] line_runs(sprites, y, xs)[k]) by {
            if k < st.0.len() {
                assert(line_runs(sprites, y, xs)[k] == st.0[k]);
            }
        }
    }
}

/// The sprites of `s` with drawing order `o`, in their order in `s`.
pub open spec fn of_order(s: Seq<Stn>, o: i16) -> Seq<Stn>
    decreases s.len(),
{
    if s.len() == 0 {
        Seq::empty()
    } else if s.last().spec_order() == o {
        of_order(s.drop_last(), o).push(s.last())
    } else {
        of_order(s.drop_last(), o)
    }
}

/// The drawing orders of `s` never decrease.
pub open spec fn order_sorted(s: Seq<Stn>) -> bool {
    forall|i: int, j: int| 0 <= i <= j < s.len() ==> s[i].spec_order() <= s[j].spec_order()
}

proof fn lemma_of_order_add(a: Seq<Stn>, b: Seq<Stn>, o: i16)
    ensures
        of_order(a + b, o) == of_order(a, o) + of_order(b, o),
    decreases b.len(),
{
    if b.len() == 0 {
        assert(a + b =~= a);
        assert(of_order(a, o) + of_order(b, o) =~= of_order(a, o));
    } else {
        lemma_of_order_add(a, b.drop_last(), o);
        assert((a + b).drop_last() =~= a + b.drop_last());
        assert((a + b).last() == b.last());
    }
}

proof fn lemma_of_order_none(a: Seq<Stn>, o: i16)
    requires
        forall|i: int| 0 <= i < a.len() ==> (#[trigger] a[i]).spec_order() != o,
    ensures
        of_order(a, o) == Seq::<Stn>::empty(),
    decreases a.len(),
{
    if a.len() > 0 {
        assert(forall|i: int| 0 <= i < a.len() - 1 ==> #[trigger] a.drop_last()[i] == a[i]);
        lemma_of_order_none(a.drop_last(), o);
    }
}

/// A sprite of `s` with drawing order `o` makes `of_order(s, o)` non-empty.
proof fn lemma_of_order_nonempty(s: Seq<Stn>, o: i16, k: int)
    requires
        0 <= k < s.len(),
        s[k].spec_order() == o,
    ensures
        of_order(s, o).len() > 0,
    decreases s.len(),
{
    if k < s.len() - 1 {
        assert(s.drop_last()[k] == s[k]);
        lemma_of_order_nonempty(s.drop_last(), o, k);
    }
}

/// A sorted sequence is fixed by what it holds of each drawing order: two sequences
/// sorted by drawing order that hold the same sprites of each order, in the same order,
/// are the same. So the outcome of `sort` is determined, and sorting twice changes
/// nothing more.
pub proof fn lemma_sorted_unique(a: Seq<Stn>, b: Seq<Stn>)
    requires
        order_sorted(a),
        order_sorted(b),
        forall|o: i16| #[trigger] of_order(a, o) == of_order(b, o),
    ensures
        a == b,
    decreases a.len() + b.len(),
{
    if a.len() == 0 && b.len() == 0 {
        assert(a =~= b);
    } else if a.len() == 0 {
        lemma_of_order_nonempty(b, b.last().spec_order(), b.len() - 1);
        assert(of_order(a, b.last().spec_order()) == of_order(b, b.last().spec_order()));
    } else if b.len() == 0 {
        lemma_of_order_nonempty(a, a.last().spec_order(), a.len() - 1);
        assert(of_order(a, a.last().spec_order()) == of_order(b, a.last().spec_order()));
    } else {
        let ma = a.last().spec_order();
        let mb = b.last().spec_order();
        assert(ma == mb) by {
            if ma < mb {
                // b's last order shows up in a, so a holds a larger order than its last one
                assert(of_order(b, mb).len() > 0);
                assert(of_order(a, mb) == of_order(b, mb));
                lemma_of_order_has(a, mb);
            } else if mb < ma {
                assert(of_order(a, ma).len() > 0);
                assert(of_order(a, ma) == of_order(b, ma));
                lemma_of_order_has(b, ma);
            }
        }
        assert(of_order(a, ma) == of_order(b, ma));
        assert(a.last() == of_order(a, ma).last());
        assert(b.last() == of_order(b, ma).last());
        let a1 = a.drop_last();
        let b1 = b.drop_last();
        assert forall|o: i16| #[trigger] of_order(a1, o) == of_order(b1, o) by {
            if o == ma {
                assert(of_order(a1, o) =~= of_order(a, o).drop_last());
                assert(of_order(b1, o) =~= of_order(b, o).drop_last());
            } else {
                assert(of_order(a1, o) == of_order(a, o));
                assert(of_order(b1, o) == of_order(b, o));
            }
        }
        lemma_sorted_unique(a1, b1);
        assert(a =~= a1.push(a.last()));
        assert(b =~= b1.push(b.last()));
    }
}

/// A sprite of order `o` lies in `s` when `of_order(s, o)` is not empty; in a sorted
/// sequence its order is then at most that of the last sprite.
proof fn lemma_of_order_has(s: Seq<Stn>, o: i16)
    requires
        of_order(s, o).len() > 0,
        order_sorted(s),
    ensures
        s.len() > 0,
        o <= s.last().spec_order(),
    decreases s.len(),
{
    if s.len() > 0 && s.last().spec_order() != o {
        assert(forall|i: int, j: int|
            0 <= i <= j < s.drop_last().len() ==> #[trigger] s.drop_last()[i] == s[i] && #[trigger] s.drop_last()[j]
                == s[j]);
        lemma_of_order_has(s.drop_last(), o);
        assert(s.drop_last().last() == s[s.len() - 2]);
    }
}

/// The sprites to draw (in drawing order once sorted), with the tree they come from and
/// the cells to redraw.
#[derive(Debug)]
pub struct SpriteManager {
    pub tree: SpriteTree,
    pub sprites: Vec<Stn>,
    pub dirt: Dirt,
}

/// Every sprite's picture is a proper grid, and every cell of an `h` by `w` screen lies
/// within `i16` of every sprite's anchor.
pub open spec fn screen_ready(sprites: Seq<Stn>, h: i16, w: i16) -> bool {
    forall|i: int|
        0 <= i < sprites.len() ==> {
            &&& (*#[trigger] sprites[i]).wf()
            &&& h > 0 ==> sprites[i].spec_anchor().y + i16::MAX >= h - 1
            &&& w > 0 ==> sprites[i].spec_anchor().x + i16::MAX >= w - 1
        }
}

/// The printed runs `rs` are the runs `spec`: same start columns, characters and
/// colors.
pub open spec fn runs_match(
    rs: Seq<(i16, Termable)>,
    spec: Seq<(i16, Seq<char>, (Option<Color>, Option<Color>))>,
) -> bool {
    &&& rs.len() == spec.len()
    &&& forall|k: int|
        0 <= k < rs.len() ==> {
            &&& (#[trigger] rs[k]).0 == spec[k].0
            &&& rs[k].1.text() == spec[k].1
            &&& rs[k].1.colors() == spec[k].2
        }
}

impl SpriteManager {
    /// Takes the sprites afresh from the tree (see `SpriteTree::all_sprites`).
    pub fn refresh_sprites(&mut self)
        ensures
            copies(final(self).sprites@, dedup_ids(flatten(old(self).tree))),
            final(self).tree == old(self).tree,
            final(self).dirt == old(self).dirt,
    {
        self.sprites = self.tree.all_sprites();
    }

    /// Sorts the sprites by drawing order, keeping the order of sprites with the same
    /// drawing order.
    pub fn sort(&mut self)
        ensures
            order_sorted(final(self).sprites@),
            final(self).sprites@.len() == old(self).sprites@.len(),
            forall|o: i16| #[trigger] of_order(final(self).sprites@, o) == of_order(old(self).sprites@, o),
            final(self).tree == old(self).tree,
            final(self).dirt == old(self).dirt,
    {
        let ghost input = self.sprites@;
        assert(input.len() == self.sprites.len());
        let mut rest: Vec<Stn> = Vec::new();
        std::mem::swap(&mut rest, &mut self.sprites);
        let mut out: Vec<Stn> = Vec::new();
        let ghost n = input.len();
        let mut i: usize = 0;
        proof {
            assert(input.subrange(0, 0) =~= Seq::<Stn>::empty());
            assert(rest@ =~= input.subrange(0, n as int));
        }
        while rest.len() > 0
            invariant
                i <= n,
                n == input.len(),
                n <= usize::MAX,
                rest@ == input.subrange(i as int, n as int),
                order_sorted(out@),
                out@.len() == i,
                forall|o: i16| #[trigger] of_order(out@, o) == of_order(input.subrange(0, i as int), o),
            decreases rest.len(),
        {
            let x = rest.remove(0);
            let xo = x.order();
            let mut p: usize = 0;
            while p < out.len() && out[p].order() <= xo
                invariant
                    p <= out@.len(),
                    forall|j: int| 0 <= j < p ==> (#[trigger] out@[j]).spec_order() <= xo,
                decreases out.len() - p,
            {
                p = p + 1;
            }
            let ghost before = out@;
            out.insert(p, x);
            proof {
                let a = before.subrange(0, p as int);
                let b = before.subrange(p as int, before.len() as int);
                assert(before =~= a + b);
                assert(out@ =~= a + seq![x] + b);
                assert forall|j: int| 0 <= j < b.len() implies (#[trigger] b[j]).spec_order() > xo by {
                    assert(b[0] == before[p as int]);
                    assert(b[j] == before[p + j]);
                }
                assert(input.subrange(0, i + 1) =~= input.subrange(0, i as int).push(x));
                assert(input.subrange(0, i + 1).drop_last() =~= input.subrange(0, i as int));
                assert forall|o: i16| #[trigger] of_order(out@, o) == of_order(input.subrange(0, i + 1), o) by {
                    lemma_of_order_add(a + seq![x], b, o);
                    lemma_of_order_add(a, seq![x], o);
                    lemma_of_order_add(a, b, o);
                    assert(seq![x].drop_last() =~= Seq::<Stn>::empty());
                    assert(seq![x].last() == x);
                    assert(of_order(Seq::<Stn>::empty(), o) =~= Seq::<Stn>::empty());
                    if o == xo {
                        assert(of_order(seq![x], o) =~= seq![x]);
                        lemma_of_order_none(b, o);
                        assert(of_order(a, o) + of_order(seq![x], o) + of_order(b, o) =~= of_order(a, o)
                            + of_order(b, o) + seq![x]);
                    } else {
                        assert(of_order(seq![x], o) =~= Seq::<Stn>::empty());
                        assert(of_order(a, o) + of_order(seq![x], o) + of_order(b, o) =~= of_order(a, o)
                            + of_order(b, o));
                    }
                }
                assert forall|u: int, v: int| 0 <= u <= v < out@.len() implies out@[u].spec_order()
                    <= out@[v].spec_order() by {
                    if u < p && v > p {
                        assert(out@[u] == before[u]);
                        assert(out@[v] == before[v - 1]);
                    } else if u < p && v == p {
                        assert(out@[u] == before[u]);
                    } else if u == p && v > p {
                        assert(out@[v] == b[v - p - 1]);
                    } else if u > p {
                        assert(out@[u] == before[u - 1]);
                        assert(out@[v] == before[v - 1]);
                    } else if v < p {
                        assert(out@[u] == before[u]);
                        assert(out@[v] == before[v]);
                    }
                }
            }
            i = i + 1;
        }
        proof {
            assert(input.subrange(0, i as int) =~= input);
        }
        self.sprites = out;
    }

    /// Whether `write` may run on a screen of the size `ts` gives.
    pub fn can_write(&self, ts: &TermSize) -> (b: bool)
        ensures
            b == screen_ready(self.sprites@, ts.spec_dims().1, ts.spec_dims().1),
    {
        let h = ts.height();
        let w = ts.width();
        let mut i: usize = 0;
        while i < self.sprites.len()
            invariant
                i <= self.sprites@.len(),
                h == ts.spec_dims().1,
                w == ts.spec_dims().1,
                screen_ready(self.sprites@.subrange(0, i as int), h, w),
            decreases self.sprites.len() - i,
        {
            let sp = &self.sprites[i];
            let a = sp.anchor();
            let ok_y = h <= 0 || (a.y as i32) + 32767 >= (h as i32) - 1;
            let ok_x = w <= 0 || (a.x as i32) + 32767 >= (w as i32) - 1;
            let wf = sp.is_wf();
            if !(ok_y && ok_x && wf) {
                proof {
                    assert(self.sprites@.subrange(0, self.sprites@.len() as int)[i as int] == self.sprites@[i as int]);
                    assert(self.sprites@.subrange(0, self.sprites@.len() as int) =~= self.sprites@);
                }
                return false;
            }
            proof {
                let s1 = self.sprites@.subrange(0, i + 1);
                assert forall|k: int| 0 <= k < s1.len() implies {
                    &&& (*#[trigger] s1[k]).wf()
                    &&& h > 0 ==> s1[k].spec_anchor().y + i16::MAX >= h - 1
                    &&& w > 0 ==> s1[k].spec_anchor().x + i16::MAX >= w - 1
                } by {
                    if k < i {
                        assert(s1[k] == self.sprites@.subrange(0, i as int)[k]);
                    }
                }
            }
            i = i + 1;
        }
        proof {
            assert(self.sprites@.subrange(0, i as int) =~= self.sprites@);
        }
        true
    }

    /// What to print for the dirty cells: for each dirty line on screen (row from 0 to the
    /// height `ts` gives), once each and in no set order, the runs that `write_line`
    /// gives for it (columns up to the width `ts` gives). Nothing is dirty afterwards.
    pub fn write(&mut self, ts: &TermSize) -> (out: Vec<(i16, Vec<(i16, Termable)>)>)
        requires
            old(self).dirt.wf(),
            screen_ready(old(self).sprites@, ts.spec_dims().1, ts.spec_dims().1),
        ensures
            forall|k: int|
                0 <= k < out@.len() ==> {
                    let y = (#[trigger] out@[k]).0;
                    &&& 0 <= y < ts.spec_dims().1
                    &&& old(self).dirt.lines().contains_key(y)
                    &&& runs_match(
                        out@[k].1@,
                        line_runs(old(self).sprites@, y, drawn(old(self).dirt.lines()[y], ts.spec_dims().1)),
                    )
                },
            forall|y: i16|
                #[trigger] old(self).dirt.lines().contains_key(y) && 0 <= y < ts.spec_dims().1 ==> exists|k: int|
                    0 <= k < out@.len() && (#[trigger] out@[k]).0 == y,
            forall|k1: int, k2: int|
                0 <= k1 < k2 < out@.len() ==> (#[trigger] out@[k1]).0 != (#[trigger] out@[k2]).0,
            final(self).dirt.wf(),
            final(self).dirt.lines() == Map::<i16, Seq<i16>>::empty(),
            final(self).sprites == old(self).sprites,
            final(self).tree == old(self).tree,
    {
        let h = ts.height();
        let w = ts.width();
        let rows = self.dirt.rows();
        let mut out: Vec<(i16, Vec<(i16, Termable)>)> = Vec::new();
        let mut i: usize = 0;
        while i < rows.len()
            invariant
                i <= rows@.len(),
                h == ts.spec_dims().1,
                w == ts.spec_dims().1,
                rows@.to_set() == self.dirt.lines().dom(),
                rows@.no_duplicates(),
                screen_ready(self.sprites@, h, w),
                forall|k: int|
                    0 <= k < out@.len() ==> {
                        let y = (#[trigger] out@[k]).0;
                        &&& 0 <= y < h
                        &&& self.dirt.lines().contains_key(y)
                        &&& runs_match(
                            out@[k].1@,
                            line_runs(self.sprites@, y, drawn(self.dirt.lines()[y], w)),
                        )
                        &&& exists|j: int| 0 <= j < i && rows@[j] == y
                    },
                forall|j: int|
                    0 <= j < i && 0 <= #[trigger] rows@[j] < h ==> exists|k: int|
                        0 <= k < out@.len() && (#[trigger] out@[k]).0 == rows@[j],
                forall|k1: int, k2: int|
                    0 <= k1 < k2 < out@.len() ==> (#[trigger] out@[k1]).0 != (#[trigger] out@[k2]).0,
            decreases rows.len() - i,
        {
            let y = rows[i];
            proof {
                assert(rows@.to_set().contains(y));
            }
            if 0 <= y && y < h {
                match self.dirt.line(y) {
                    Some(line) => {
                        proof {
                            assert forall|a: int, k: int|
                                0 <= a < self.sprites@.len() && 0 <= k < line@.len() && 0 <= line@[k] < w
                                    implies (*#[trigger] self.sprites@[a]).wf() && reachable(
                                    *self.sprites@[a],
                                    y,
                                    #[trigger] line@[k],
                                ) by {
                                assert((*self.sprites@[a]).wf());
                            }
                        }
                        let runs = write_line(&self.sprites, y, line, w);
                        let ghost before = out@;
                        out.push((y, runs));
                        proof {
                            assert forall|k1: int, k2: int|
                                0 <= k1 < k2 < out@.len() implies (#[trigger] out@[k1]).0 != (
                                #[trigger] out@[k2]).0 by {
                                if k2 == out@.len() - 1 {
                                    assert(out@[k1] == before[k1]);
                                    let j = choose|j: int| 0 <= j < i && rows@[j] == out@[k1].0;
                                    assert(rows@[j] != rows@[i as int]);
                                } else {
                                    assert(out@[k1] == before[k1]);
                                    assert(out@[k2] == before[k2]);
                                }
                            }
                            assert forall|k: int| 0 <= k < out@.len() implies {
                                let yy = (#[trigger] out@[k]).0;
                                &&& 0 <= yy < h
                                &&& self.dirt.lines().contains_key(yy)
                                &&& runs_match(
                                    out@[k].1@,
                                    line_runs(self.sprites@, yy, drawn(self.dirt.lines()[yy], w)),
                                )
                                &&& exists|j: int| 0 <= j < i + 1 && rows@[j] == yy
                            } by {
                                if k < out@.len() - 1 {
                                    assert(out@[k] == before[k]);
                                    let j = choose|j: int| 0 <= j < i && rows@[j] == out@[k].0;
                                    assert(0 <= j < i + 1 && rows@[j] == out@[k].0);
                                } else {
                                    assert(rows@[i as int] == y);
                                }
                            }
                            assert forall|j: int|
                                0 <= j < i + 1 && 0 <= #[trigger] rows@[j] < h implies exists|k: int|
                                    0 <= k < out@.len() && (#[trigger] out@[k]).0 == rows@[j] by {
                                if j < i {
                                    let k = choose|k: int| 0 <= k < before.len() && (#[trigger] before[k]).0 == rows@[j];
                                    assert(out@[k] == before[k]);
                                } else {
                                    assert(out@[out@.len() - 1].0 == rows@[j]);
                                }
                            }
                        }
                    },
                    None => {},
                }
            }
            i = i + 1;
        }
        proof {
            assert forall|yy: i16|
                #[trigger] self.dirt.lines().contains_key(yy) && 0 <= yy < h implies exists|k: int|
                    0 <= k < out@.len() && (#[trigger] out@[k]).0 == yy by {
                assert(self.dirt.lines().dom().contains(yy));
                assert(rows@.to_set().contains(yy));
                let j = choose|j: int| 0 <= j < rows@.len() && rows@[j] == yy;
                assert(0 <= rows@[j] < h);
            }
        }
        self.dirt.clear();
        out
    }
}

} // verus!
