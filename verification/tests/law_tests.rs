use russet::animation::card_repo::{card_base, card_tree};
use russet::animation::{can_place_dealt, place_dealt};
use russet::bounds::Bounds;
use russet::config::{Color, Scale};
use russet::deck::{all_cards, Card, Deck};
use russet::game::{is_a_set, ChangeAtom, GameState};
use russet::pos::{DealtPos, TermPos};
use russet::sprites::dirt::Dirt;
use russet::sprites::grid::Grid;
use russet::sprites::img::Img;
use russet::sprites::sprite::Sprite;
use russet::sprites::sprite_manager::SpriteManager;
use russet::sprites::sprite_tree::SpriteTree;
use russet::sprites::{new_stn, SpriteCell};
use russet::termchar::TermChar;
use russet::util::err::SetErrorKind;
use russet::util::{Clickability, TermSize, Visibility};

fn scale() -> Scale {
    Scale::new(2, 3, "XoX\n o ", "XXX\nXXX", "o o\nooo", " ?\n? ")
}

fn board_root(order: i16) -> SpriteTree {
    SpriteTree::new(new_stn(Sprite::mk(
        Img::rect(0, 0, SpriteCell::Transparent),
        TermPos::new(0, 0),
        order,
        Visibility::Visible,
        Clickability::Unclickable,
    )))
}

#[test]
fn grid_reads_back_the_last_write() {
    let mut g = Grid::new(2, 3, 0u8);
    assert_eq!(g.set((0, 1), 5).ok(), Some(0));
    assert_eq!(g.set((0, 1), 7).ok(), Some(5));
    assert_eq!(g.set((1, 2), 9).ok(), Some(0));
    match g.set((2, 0), 4) {
        Err(e) => assert_eq!(e.kind, SetErrorKind::OutOfBounds),
        Ok(_) => panic!("a write outside the grid succeeded"),
    }
    assert_eq!(g.get((0, 1)).ok(), Some(7));
    assert_eq!(g.get((1, 2)).ok(), Some(9));
    assert_eq!(g.get((1, 0)).ok(), Some(0));
    assert_eq!(g.get((0, 0)).ok(), Some(0));
    match g.get((0, 3)) {
        Err(e) => assert_eq!(e.kind, SetErrorKind::OutOfBounds),
        Ok(_) => panic!("a read outside the grid succeeded"),
    }
    assert_eq!((g.height(), g.width()), (2, 3));
}

#[test]
fn term_size_reads_back_the_last_kept_report() {
    let mut ts = TermSize::new();
    assert_eq!(ts.dims(), (0, 0));
    assert_eq!(ts.update(Some((120, 50))), (50, 120));
    assert_eq!(ts.update(Some((100, 60))), (50, 120));
    assert_eq!(ts.update(None), (50, 120));
    assert_eq!(ts.dims(), (50, 120));
    assert_eq!(ts.update(Some((200, 46))), (46, 200));
    assert_eq!(ts.dims(), (46, 200));
    assert_eq!(ts.get(), (46, 200));
    assert_eq!(ts.height(), 200);
}

fn no_repeated_atoms(atoms: &[ChangeAtom]) -> bool {
    for i in 0..atoms.len() {
        for j in (i + 1)..atoms.len() {
            if atoms[i] == atoms[j] {
                return false;
            }
        }
    }
    true
}

#[test]
fn the_last_found_set_is_off_the_board() {
    let mut g = GameState::deal_from(Deck::from_cards(all_cards()));
    let cards = all_cards();
    assert_eq!(g.last_set_found(), None);
    g.select(cards[80]);
    g.select(cards[79]);
    g.select(cards[78]);
    assert_eq!(g.last_set_found(), Some((cards[78], cards[79], cards[80])));
    // the refill put cards 68, 67 and 66 in the first three slots: another set
    assert!(is_a_set(cards[66], cards[67], cards[68]));
    g.select(cards[68]);
    g.select(cards[67]);
    g.select(cards[66]);
    assert_eq!(g.last_set_found(), Some((cards[66], cards[67], cards[68])));
    let on_board: Vec<Card> = g.enumerate_cards().iter().filter_map(|(_, c)| *c).collect();
    for k in [66, 67, 68, 78, 79, 80] {
        assert!(!on_board.contains(&cards[k]));
    }
    assert_eq!(on_board.len(), 12);
    // a choice that completes no set leaves the last found set alone
    g.select(cards[65]);
    g.select(cards[65]);
    assert_eq!(g.last_set_found(), Some((cards[66], cards[67], cards[68])));
    for set in g.changes() {
        assert!(no_repeated_atoms(&set.changes));
    }
}

#[test]
fn usize_bounds_shift_merge_and_ranges() {
    let b = Bounds::<usize>::mk((1, 2), (3, 5));
    let s = b.shift((2, 1));
    assert_eq!((s.y_min, s.y_max, s.x_min, s.x_max), (3, 5, 3, 6));
    let m = b.merge(Bounds::<usize>::mk((0, 4), (2, 9)));
    assert_eq!((m.y_min, m.y_max, m.x_min, m.x_max), (0, 3, 2, 9));
    assert_eq!(b.y_range(), 1..3);
    assert_eq!(b.x_range(), 2..5);
}

#[test]
fn i16_bounds_walk_starts_at_the_swapped_corner() {
    let b = Bounds::<i16>::mk((1, 5), (3, 7));
    let mut it = b.into_iter();
    let mut seen = Vec::new();
    while let Some(p) = it.next() {
        seen.push(p);
    }
    assert_eq!(seen, vec![(5, 1), (5, 2), (5, 3), (5, 4), (5, 5), (5, 6)]);
    let mut empty = Bounds::<i16>::mk((2, 2), (2, 5)).into_iter();
    assert_eq!(empty.next(), None);
}

#[test]
fn card_outline_edges_and_corners() {
    // shape height 4: cards of 6 rows and 16 columns
    let s = Scale::new(4, 3, "", "", "", "");
    assert_eq!((s.CARD_HEIGHT, s.CARD_WIDTH), (6, 16));
    let img = card_base(s, Color::Red, Color::Blue, Some(Color::Green));
    assert_eq!((img.height(), img.width()), (6, 16));
    let vert = SpriteCell::Opaque(TermChar::Fg { c: '┃', fg: Color::Red, bg: Color::Blue });
    let horiz = SpriteCell::Opaque(TermChar::Fg { c: '━', fg: Color::Red, bg: Color::Blue });
    let fill = SpriteCell::Opaque(TermChar::Bg(Color::Green));
    for (r, c) in [(0, 0), (0, 15), (5, 0), (5, 15)] {
        assert_eq!(img.get((r, c)).ok(), Some(SpriteCell::Transparent));
    }
    assert_eq!(img.get((2, 0)).ok(), Some(vert));
    assert_eq!(img.get((3, 15)).ok(), Some(vert));
    assert_eq!(img.get((1, 0)).ok(), Some(fill));
    assert_eq!(img.get((4, 15)).ok(), Some(fill));
    assert_eq!(img.get((0, 2)).ok(), Some(horiz));
    assert_eq!(img.get((5, 13)).ok(), Some(horiz));
    assert_eq!(img.get((0, 1)).ok(), Some(fill));
    assert_eq!(img.get((0, 14)).ok(), Some(fill));
    assert_eq!(img.get((2, 7)).ok(), Some(fill));
    let clear = card_base(s, Color::Red, Color::Blue, None);
    assert_eq!(clear.get((2, 7)).ok(), Some(SpriteCell::Transparent));
}

#[test]
fn a_card_tree_is_its_face_over_its_outline() {
    let s = scale();
    let card = all_cards()[40];
    let t = card_tree(card, s);
    let face = t.node();
    assert_eq!(face.anchor(), TermPos::new(-1, 1));
    assert_eq!(face.order(), 1);
    assert_eq!(face.get_rel(TermPos::new(0, 0)).ok(), Some(SpriteCell::Transparent));
    assert_eq!(
        face.get_rel(TermPos::new(0, 2)).ok(),
        Some(SpriteCell::Opaque(TermChar::Fg { c: '━', fg: Color::White, bg: Color::White }))
    );
    assert_eq!(face.get_rel(TermPos::new(1, 0)).ok(), Some(SpriteCell::Opaque(TermChar::Bg(Color::White))));
    assert_eq!(t.children().len(), 1);
    let outline = t.children()[0].node();
    assert_eq!(outline.anchor(), TermPos::new(0, 0));
    assert_eq!(outline.order(), 0);
    assert_eq!(outline.get_rel(TermPos::new(1, 0)).ok(), Some(SpriteCell::Transparent));
    assert_eq!(
        outline.get_rel(TermPos::new(3, 4)).ok(),
        Some(SpriteCell::Opaque(TermChar::Fg { c: '━', fg: Color::White, bg: Color::Reset }))
    );
    assert!(t.children()[0].children().is_empty());
}

#[test]
fn dealt_card_trees_are_checked_before_placing() {
    let s = scale();
    let card = all_cards()[40];
    let t = card_tree(card, s);
    let board = board_root(0);
    assert!(can_place_dealt(&board, &t, DealtPos::new(1, 2), s));
    let far = SpriteTree::new(new_stn(Sprite::mk(
        Img::rect(1, 1, SpriteCell::Transparent),
        TermPos::new(-32768, 0),
        0,
        Visibility::Visible,
        Clickability::Clickable,
    )));
    assert!(!can_place_dealt(&board, &far, DealtPos::new(1, 2), s));
    let high = SpriteTree::new(new_stn(Sprite::mk(
        Img::rect(1, 1, SpriteCell::Transparent),
        TermPos::new(0, 0),
        32767,
        Visibility::Visible,
        Clickability::Clickable,
    )));
    assert!(can_place_dealt(&board, &high, DealtPos::new(1, 2), s));
    assert!(!can_place_dealt(&board_root(1), &high, DealtPos::new(1, 2), s));

    let face_id = t.node().id();
    let outline_id = t.children()[0].node().id();
    let mut man = SpriteManager { tree: board, sprites: Vec::new(), dirt: Dirt::new() };
    place_dealt(&mut man, t, DealtPos::new(1, 2), s);
    // the face goes to row 1 + (4 + 1 + 2), column 1 + 2 * (10 + 2)
    assert_eq!(man.tree.find_node(face_id).unwrap().anchor(), TermPos::new(8, 25));
    assert_eq!(man.tree.find_node(outline_id).unwrap().anchor(), TermPos::new(9, 24));
    assert_eq!(man.sprites.len(), 3);
}
