use russet::deck::{all_cards, Card, CardColor, CardFill, CardNumber, CardShape, Deck};
use russet::game::{is_a_set, ChangeAtom, GameState};
use russet::layout::Layout;
use russet::pos::{DealtPos, GamePos};

fn card(color: CardColor, shape: CardShape, number: CardNumber, fill: CardFill) -> Card {
    Card { color, shape, number, fill }
}

fn ordered_game() -> GameState {
    GameState::deal_from(Deck::from_cards(all_cards()))
}

#[test]
fn all_cards_has_81_distinct_cards_in_order() {
    let cards = all_cards();
    assert_eq!(cards.len(), 81);
    assert_eq!(cards[0], card(CardColor::Color1, CardShape::Oval, CardNumber::One, CardFill::Solid));
    assert_eq!(cards[80], card(CardColor::Color3, CardShape::Squiggle, CardNumber::Three, CardFill::Empty));
    assert_eq!(cards[13], card(CardColor::Color1, CardShape::Diamond, CardNumber::Two, CardFill::Striped));
    for i in 0..81 {
        for j in (i + 1)..81 {
            assert_ne!(cards[i], cards[j]);
        }
    }
}

#[test]
fn shuffled_deck_holds_every_card_once() {
    let deck = Deck::new();
    assert_eq!(deck.len(), 81);
    let mut d = deck;
    let mut seen: Vec<Card> = Vec::new();
    while let Some(c) = d.pop() {
        assert!(!seen.contains(&c));
        seen.push(c);
    }
    assert_eq!(seen.len(), 81);
    assert!(d.is_empty());
}

#[test]
fn take3_draws_from_the_top() {
    let cards = all_cards();
    let mut d = Deck::from_cards(cards.clone());
    let r = d.take3();
    assert_eq!(r, Some((cards[80], cards[79], cards[78])));
    assert_eq!(d.len(), 78);
    let mut small = Deck::from_cards(vec![cards[0], cards[1]]);
    assert_eq!(small.take3(), None);
    assert_eq!(small.len(), 2);
}

#[test]
fn set_rule() {
    let a = card(CardColor::Color1, CardShape::Oval, CardNumber::One, CardFill::Solid);
    let b = card(CardColor::Color2, CardShape::Oval, CardNumber::Two, CardFill::Solid);
    let c = card(CardColor::Color3, CardShape::Oval, CardNumber::Three, CardFill::Solid);
    let d = card(CardColor::Color3, CardShape::Diamond, CardNumber::Three, CardFill::Solid);
    assert!(is_a_set(a, b, c));
    assert!(is_a_set(c, a, b));
    assert!(is_a_set(b, c, a));
    assert!(!is_a_set(a, b, d));
    assert!(!is_a_set(d, a, b));
    assert!(is_a_set(a, a, a));
    assert!(!is_a_set(a, a, b));
}

#[test]
fn opening_deal_fills_main_section() {
    let mut g = ordered_game();
    let cards = all_cards();
    let cells = g.enumerate_cards();
    assert_eq!(cells.len(), 18);
    for (k, (pos, c)) in cells.iter().enumerate() {
        let row = k / 6;
        let col = k % 6;
        assert_eq!(*pos, DealtPos::new(row as u8, col as u8));
        if col <= 3 {
            assert_eq!(*c, Some(cards[80 - (row * 4 + col)]));
        } else {
            assert_eq!(*c, None);
        }
    }
    assert!(g.has_changes());
    let sets = g.changes();
    assert_eq!(sets.len(), 1);
    assert_eq!(sets[0].stamp, 0);
    assert_eq!(sets[0].changes.len(), 12);
    assert_eq!(sets[0].changes[0], ChangeAtom::Deal(cards[80], DealtPos::new(0, 0)));
    assert_eq!(sets[0].changes[5], ChangeAtom::Deal(cards[75], DealtPos::new(1, 1)));
    assert!(!g.has_changes());
    assert_eq!(g.last_set_found(), None);
}

#[test]
fn select_then_deselect() {
    let mut g = ordered_game();
    let _ = g.changes();
    let cards = all_cards();
    g.select(cards[80]);
    g.select(cards[80]);
    let sets = g.changes();
    assert_eq!(sets.len(), 2);
    assert_eq!(sets[0].stamp, 1);
    assert_eq!(sets[0].changes, vec![ChangeAtom::Select(cards[80], DealtPos::new(0, 0))]);
    assert_eq!(sets[1].stamp, 2);
    assert_eq!(sets[1].changes, vec![ChangeAtom::Deselect(cards[80], DealtPos::new(0, 0))]);
}

#[test]
fn finding_a_set_moves_it_away_and_refills() {
    let mut g = ordered_game();
    let _ = g.changes();
    let cards = all_cards();
    // the first three slots hold cards 80, 79 and 78, which differ only in fill
    assert!(g.can_select(cards[80]));
    g.select(cards[80]);
    g.select(cards[79]);
    g.select(cards[78]);
    assert_eq!(g.last_set_found(), Some((cards[78], cards[79], cards[80])));
    let sets = g.changes();
    assert_eq!(sets.len(), 3);
    let last = &sets[2];
    assert_eq!(last.stamp, 3);
    assert_eq!(
        last.changes,
        vec![
            ChangeAtom::GoodMove(cards[78], DealtPos::new(0, 2), GamePos::LastFound0),
            ChangeAtom::GoodMove(cards[79], DealtPos::new(0, 1), GamePos::LastFound1),
            ChangeAtom::GoodMove(cards[80], DealtPos::new(0, 0), GamePos::LastFound2),
            ChangeAtom::Deal(cards[68], DealtPos::new(0, 0)),
            ChangeAtom::Deal(cards[67], DealtPos::new(0, 1)),
            ChangeAtom::Deal(cards[66], DealtPos::new(0, 2)),
        ]
    );
    let cells = g.enumerate_cards();
    assert_eq!(cells[0].1, Some(cards[68]));
    assert_eq!(cells[1].1, Some(cards[67]));
    assert_eq!(cells[2].1, Some(cards[66]));
    assert_eq!(cells[3].1, Some(cards[77]));
    assert!(!g.can_select(cards[80]));
}

#[test]
fn three_cards_that_are_no_set_get_a_bad_outline() {
    let mut g = ordered_game();
    let _ = g.changes();
    let cards = all_cards();
    // slots (0,0), (0,1) and (0,3) hold cards 80, 79 and 77
    g.select(cards[80]);
    g.select(cards[79]);
    g.select(cards[77]);
    let sets = g.changes();
    assert_eq!(
        sets[2].changes,
        vec![
            ChangeAtom::BadOutline(cards[77], DealtPos::new(0, 3)),
            ChangeAtom::BadOutline(cards[79], DealtPos::new(0, 1)),
            ChangeAtom::BadOutline(cards[80], DealtPos::new(0, 0)),
        ]
    );
    assert_eq!(g.last_set_found(), None);
    assert_eq!(g.enumerate_cards()[0].1, Some(cards[80]));
}

#[test]
fn layout_redistribute_and_refill() {
    let cards = all_cards();
    let mut grid: [[Option<Card>; 6]; 3] = [[None; 6]; 3];
    grid[0][0] = Some(cards[0]);
    grid[0][4] = Some(cards[1]);
    grid[1][5] = Some(cards[2]);
    let mut lay = Layout::new(grid);
    let moved = lay.redistribute();
    assert_eq!(
        moved,
        vec![
            (cards[1], DealtPos::new(0, 4), DealtPos::new(0, 1)),
            (cards[2], DealtPos::new(1, 5), DealtPos::new(0, 2)),
        ]
    );
    assert_eq!(lay.index(DealtPos::new(0, 1)), Some(cards[1]));
    assert_eq!(lay.index(DealtPos::new(0, 4)), None);
    let mut deck = Deck::from_cards(vec![cards[10], cards[11]]);
    let dealt = lay.refill(&mut deck);
    assert_eq!(dealt, vec![(cards[11], DealtPos::new(0, 3)), (cards[10], DealtPos::new(1, 0))]);
    assert!(deck.is_empty());
    assert_eq!(lay.index(DealtPos::new(1, 0)), Some(cards[10]));
}

#[test]
fn a_found_set_keeps_every_card_somewhere() {
    let mut g = ordered_game();
    let _ = g.changes();
    let cards = all_cards();
    g.select(cards[80]);
    g.select(cards[79]);
    g.select(cards[78]);
    let mut seen: Vec<Card> = g.enumerate_cards().iter().filter_map(|(_, c)| *c).collect();
    let (a, b, c) = g.last_set_found().unwrap();
    seen.push(a);
    seen.push(b);
    seen.push(c);
    // the deck holds cards 0 to 65 after dealing 12 and then 3 more
    for i in 0..66 {
        seen.push(cards[i]);
    }
    seen.sort();
    let mut all = all_cards();
    all.sort();
    assert_eq!(seen, all);
}

#[test]
fn two_cards_are_completed_by_one_third_card() {
    let cards = all_cards();
    for i in [0usize, 17, 40] {
        for j in [3usize, 26, 80] {
            let completing: Vec<Card> = cards.iter().copied().filter(|c| is_a_set(cards[i], cards[j], *c)).collect();
            assert_eq!(completing.len(), 1);
        }
    }
}
