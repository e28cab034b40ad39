use russet::bounds::Bounds;
use russet::config::{Color, Scale};
use russet::framebuf::stain::{Stain, StainSet};
use russet::pos::{try_from, DealtPos, GamePos, TermPos};
use russet::sprite::grid::Grid;
use russet::sprites::dirt::Dirt;
use russet::sprites::termable::Termable;
use russet::termchar::TermChar;
use russet::util::err::SetErrorKind;
use russet::util::TermSize;

#[test]
fn term_pos_add_then_sub_gives_back_the_position() {
    let p = TermPos::new(3, -4);
    let t = TermPos::new(10, 20);
    let q = p.add(t);
    assert_eq!(q, TermPos::new(13, 16));
    assert_eq!(q.sub(t), p);
    assert_eq!(p.set_x(7), TermPos::new(3, 7));
    assert_eq!(p.set_y(7), TermPos::new(7, -4));
}

#[test]
fn term_pos_conversions() {
    assert_eq!(TermPos::try_from((5, 6)).unwrap(), TermPos::new(5, 6));
    assert_eq!(TermPos::try_from((40000, 6)).unwrap_err().kind, SetErrorKind::Conversion);
    assert_eq!(try_from(TermPos::new(2, 9)).unwrap(), (2, 9));
    assert_eq!(try_from(TermPos::new(-1, 9)).unwrap_err().kind, SetErrorKind::Conversion);
}

#[test]
fn bounding_box_of_positions() {
    let v = vec![TermPos::new(3, 1), TermPos::new(-2, 8), TermPos::new(5, 0)];
    let (tl, br) = TermPos::bounding_box(v);
    assert_eq!(tl, TermPos::new(-2, 0));
    assert_eq!(br, TermPos::new(5, 8));
    let (tl, br) = TermPos::bounding_box(vec![]);
    assert_eq!(tl, TermPos::new(i16::MAX, i16::MAX));
    assert_eq!(br, TermPos::new(i16::MIN, i16::MIN));
}

#[test]
fn range_to_skips_the_first_cell() {
    let v = TermPos::new(1, 1).range_to(TermPos::new(2, 3));
    assert_eq!(
        v,
        vec![
            TermPos::new(1, 2),
            TermPos::new(1, 3),
            TermPos::new(2, 1),
            TermPos::new(2, 2),
            TermPos::new(2, 3),
        ]
    );
}

fn scale7() -> Scale {
    Scale::new(7, 13, "", "", "", "")
}

#[test]
fn card_positions_on_screen() {
    let s = scale7();
    assert_eq!(s.CARD_HEIGHT, 9);
    assert_eq!(s.CARD_WIDTH, 25);
    let p = TermPos::from((&DealtPos::new(1, 2), &s));
    // 1 + 1 * (9 + 1 + 2), 1 + 2 * (25 + 2)
    assert_eq!(p, TermPos::new(13, 55));
    let dims = (60, 200);
    let deck = TermPos::from_game_pos(&GamePos::Deck, &s, dims);
    // bottom = 60 - 9 - 1 = 50, minus the vertical spacing and one row
    assert_eq!(deck, TermPos::new(47, 1));
}

#[test]
fn term_size_keeps_only_large_enough_sizes() {
    let mut ts = TermSize::new();
    assert_eq!(ts.dims(), (0, 0));
    assert_eq!(ts.update(Some((120, 50))), (50, 120));
    assert_eq!(ts.update(Some((20, 10))), (50, 120));
    assert_eq!(ts.update(None), (50, 120));
    assert_eq!(ts.height(), 120);
    assert_eq!(ts.width(), 120);
    assert!(TermPos::new(49, 100).onscreen(&ts));
    assert!(!TermPos::new(50, 100).onscreen(&ts));
}

#[test]
fn bounds_merge_shift_contains() {
    let a = Bounds::<i16>::mk((0, 0), (2, 3));
    let b = Bounds::<i16>::mk((5, -1), (6, 1));
    let m = a.merge(b);
    assert_eq!((m.y_min, m.x_min, m.y_max, m.x_max), (0, -1, 6, 3));
    assert!(m.contains((5, 2)));
    assert!(!m.contains((6, 0)));
    let s = a.shift((1, 1));
    assert_eq!((s.y_min, s.x_min, s.y_max, s.x_max), (1, 1, 3, 4));
    assert!(Bounds::<i16>::mk((2, 2), (2, 5)).is_empty());
    assert_eq!(a.y_range(), 0..2);
    assert_eq!(a.x_range(), 0..3);
}

fn walk(b: Bounds<usize>) -> Vec<(usize, usize)> {
    let mut it = b.into_iter();
    let mut seen = Vec::new();
    while let Some(p) = it.next() {
        seen.push(p);
    }
    seen
}

#[test]
fn bounds_walk_starts_at_the_pair_of_minima() {
    assert_eq!(walk(Bounds::<usize>::mk((1, 1), (3, 3))), vec![(1, 1), (1, 2), (2, 1), (2, 2)]);
    // the walk starts at (x_min, y_min), read as (row, column)
    let b = Bounds::<usize>::mk((1, 2), (3, 4));
    assert_eq!(walk(b), vec![(2, 1), (2, 2), (2, 3)]);
    assert!(walk(Bounds::<usize>::mk((1, 1), (1, 3))).is_empty());
    assert!(b.contains((2, 3)));
    assert!(!b.contains((3, 3)));
}

#[test]
fn stains_union_and_intersect() {
    let a = Stain::new(2, 8);
    let b = Stain::new(5, 12);
    assert_eq!(a.union(&b), Stain::new(2, 12));
    assert_eq!(a.intersect(&b), Some(Stain::new(5, 8)));
    assert_eq!(a.intersect(&Stain::new(8, 9)), None);
    assert_eq!(b.len(), 7);
    assert_eq!(b.start_end(), (5, 12));
    let mut set = StainSet::new();
    set.union(&StainSet::new());
    assert!(set.keys().is_empty());
    assert_eq!(set.get_stain(3), None);
}

#[test]
fn grid_set_then_get() {
    let mut g = Grid::new(2, 3, 0u8);
    assert_eq!(g.height(), 2);
    assert_eq!(g.width(), 3);
    assert!(g.set(TermPos::new(1, 2), 7).is_ok());
    assert_eq!(g.get(TermPos::new(1, 2)), Some(7));
    assert_eq!(g.get(TermPos::new(0, 2)), Some(0));
    assert_eq!(g.set(TermPos::new(2, 0), 1).unwrap_err().kind, SetErrorKind::PanelOob);
    assert_eq!(g.get(TermPos::new(-1, 0)), None);
    let cells = g.enumerate();
    assert_eq!(cells.len(), 5);
    assert_eq!(cells[0], (TermPos::new(0, 1), 0));
    assert_eq!(cells[4], (TermPos::new(1, 2), 7));
}

#[test]
fn dirt_marks_cells_and_rectangles() {
    let mut d = Dirt::new();
    d.set_dirty(TermPos::new(2, 5));
    d.set_dirty(TermPos::new(2, 1));
    d.set_dirty(TermPos::new(2, 5));
    assert_eq!(d.line(2).unwrap(), &vec![1, 5]);
    d.dirty_all(Bounds::<i16>::mk((1, 3), (3, 5)));
    assert_eq!(d.line(1).unwrap(), &vec![3, 4]);
    assert_eq!(d.line(2).unwrap(), &vec![1, 3, 4, 5]);
    let mut rows = d.rows();
    rows.sort();
    assert_eq!(rows, vec![1, 2]);
    d.clear();
    assert!(d.rows().is_empty());
    assert!(d.line(2).is_none());
}

#[test]
fn termables_join_cells_of_the_same_colors() {
    let mut t = Termable::default();
    assert!(t.push(TermChar::Bg(Color::Blue)));
    assert!(t.push(TermChar::Bg(Color::Blue)));
    assert!(t.push(TermChar::new('a', Color::Red, Color::Blue)));
    assert!(!t.push(TermChar::new('b', Color::Green, Color::Blue)));
    assert!(!t.push(TermChar::Bg(Color::Red)));
    assert_eq!(t.to_text(), "  a");
    assert_eq!(t.len(), 3);
    let st = t.finalize();
    assert_eq!(st.fg, Some(Color::Red));
    assert_eq!(st.bg, Some(Color::Blue));
    let blank = Termable::new(TermChar::Bg(Color::Yellow)).finalize();
    assert_eq!(blank.fg, None);
    assert_eq!(blank.bg, Some(Color::Yellow));
}

#[test]
fn term_chars() {
    let c = TermChar::new(' ', Color::Red, Color::Blue);
    assert_eq!(c, TermChar::Bg(Color::Blue));
    assert!(c.is_space());
    let d = TermChar::new('x', Color::Red, Color::Blue);
    assert_eq!(d.get_c(), 'x');
    assert!(d.is_printable());
    assert_eq!(d.get_fg_bg(), (Some(Color::Red), Color::Blue));
    assert_eq!(d.style_cmd(), (Some(Color::Red), Some(Color::Blue)));
    assert!(d.matches(Color::Red, Color::Blue));
    assert!(c.matches(Color::Green, Color::Blue));
    assert_eq!(TermChar::default(), TermChar::Bg(Color::Reset));
}

#[test]
fn unwrapping_a_result_that_holds_a_value() {
    let r: Result<u8, ()> = Ok(5);
    assert_eq!(<Result<u8, ()> as russet::util::Unwrap<u8, ()>>::unwrap(r), 5);
}
