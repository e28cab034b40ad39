use russet::animation::card_repo::{
    get_bg, get_raw_char, get_raw_color, get_raw_shape, set_s, set_s_clear, set_shape, stamp_question,
    stamp_shape, stamp_shapes,
};
use russet::animation::{clicked_cards, deals, game_step, place_dealt, BackMsg, GameStep, Msg};
use russet::config::{Color, Scale, COLOR_1, COLOR_2};
use russet::deck::{all_cards, Card, CardColor, CardFill, CardNumber, CardShape, Deck};
use russet::game::{ChangeAtom, ChangeSet, GameState};
use russet::id::{Id, IdKey, IdManager, Overwritten};
use russet::input::{
    handle_back_msg, handle_input_frame, handle_key_event, BackMsgResult, InputEvent, InputResult,
    KeyCode, MouseKind, Received,
};
use russet::pos::{DealtPos, TermPos};
use russet::sprites::dirt::Dirt;
use russet::sprites::img::Img;
use russet::sprites::sprite::{Sprite, SpriteTag};
use russet::sprites::sprite_manager::SpriteManager;
use russet::sprites::sprite_tree::SpriteTree;
use russet::sprites::{new_stn, SpriteCell};
use russet::termchar::TermChar;
use russet::util::{Clickability, Visibility};

fn blank(h: usize, w: usize) -> Img {
    Img::rect(h, w, SpriteCell::Transparent)
}

fn row_text(img: &Img, r: usize) -> String {
    let mut s = String::new();
    for c in 0..img.width() {
        s.push(match img.get((r, c)).unwrap() {
            SpriteCell::Transparent => '.',
            SpriteCell::Opaque(TermChar::Bg(_)) => '_',
            SpriteCell::Opaque(TermChar::Fg { c, .. }) => c,
        });
    }
    s
}

#[test]
fn text_is_painted_with_newlines_back_at_the_start_column() {
    let mut img = blank(3, 5);
    set_s(&mut img, TermPos::new(0, 1), "ab\nc d".to_string(), Color::Red, Color::Blue);
    assert_eq!(row_text(&img, 0), ".ab..");
    assert_eq!(row_text(&img, 1), ".c_d.");
    let mut img = blank(2, 4);
    set_s_clear(&mut img, TermPos::new(0, 0), "x y zzz".to_string(), Color::Red, Color::Blue);
    assert_eq!(row_text(&img, 0), "x.y.");
}

fn scale() -> Scale {
    Scale::new(2, 3, "XoX\n o ", "XXX\nXXX", "o o\nooo", " ?\n? ")
}

#[test]
fn shape_parts_follow_the_fill() {
    let striped = Card { color: CardColor::Color1, shape: CardShape::Oval, number: CardNumber::One, fill: CardFill::Striped };
    let solid = Card { fill: CardFill::Solid, ..striped };
    let empty = Card { fill: CardFill::Empty, ..striped };
    assert_eq!(get_raw_color(striped), COLOR_1);
    assert_eq!(get_bg(striped, Color::White), Color::White);
    assert_eq!(get_bg(solid, Color::White), COLOR_1);
    assert_eq!(get_raw_shape(striped, scale()), "XoX\n o ");
    assert_eq!(get_raw_char(striped, 'o', COLOR_2, Color::White), SpriteCell::Opaque(TermChar::Fg { c: '╳', fg: COLOR_2, bg: Color::White }));
    assert_eq!(get_raw_char(empty, 'o', COLOR_2, Color::White), SpriteCell::Opaque(TermChar::Bg(Color::White)));
    assert_eq!(get_raw_char(empty, 'X', COLOR_2, Color::White), SpriteCell::Opaque(TermChar::Bg(COLOR_2)));
    assert_eq!(get_raw_char(solid, 'o', COLOR_2, Color::White), SpriteCell::Opaque(TermChar::Bg(COLOR_2)));
    let mut img = blank(2, 4);
    set_shape(scale(), &mut img, striped, TermPos::new(0, 1), Color::White);
    assert_eq!(row_text(&img, 0), "._╳_");
    assert_eq!(row_text(&img, 1), "..╳.");
}

#[test]
fn shapes_are_centered_on_the_card() {
    let s = scale();
    // card: 2 + 2 = 4 rows, 2 * 3 + 4 = 10 columns
    assert_eq!((s.CARD_HEIGHT, s.CARD_WIDTH), (4, 10));
    let two = Card { color: CardColor::Color2, shape: CardShape::Diamond, number: CardNumber::Two, fill: CardFill::Empty };
    let mut img = blank(4, 10);
    stamp_shape(s, &mut img, two, Color::White);
    // (10 - 3 * 2 - 1) / 2 = 1: shapes at columns 1 and 5, one row down
    assert_eq!(row_text(&img, 0), "..........");
    assert_eq!(row_text(&img, 1), ".___.___..");
    assert_eq!(row_text(&img, 2), ".___.___..");
    let mut q = blank(4, 10);
    stamp_question(s, &mut q, Color::Red, Color::Blue);
    // (10 - 3) / 2 = 3, (4 - 2) / 2 = 1
    assert_eq!(row_text(&q, 1), "....?.....");
    assert_eq!(row_text(&q, 2), "...?......");
    let all = stamp_shapes(s, &blank(4, 10), Color::White);
    assert_eq!(all.len(), 81);
    assert_eq!(all[0].0, all_cards()[0]);
}

#[test]
fn id_manager_pairs_keys_with_ids_one_to_one() {
    let mut m: IdManager<SpriteTag> = IdManager::default();
    let a: Id<SpriteTag> = Id::default();
    let b: Id<SpriteTag> = Id::default();
    let card = all_cards()[5];
    assert!(matches!(m.insert(IdKey::from_card(card), a), Overwritten::Neither));
    assert!(m.by_idkey(IdKey::from_card(card)).unwrap().eq(&a));
    assert_eq!(m.by_id(a).unwrap().card, Some(card));
    assert!(m.by_id(b).is_none());
    assert!(matches!(m.insert(IdKey::from_str("name"), a), Overwritten::Right(_, _)));
    assert!(m.by_idkey(IdKey::from_card(card)).is_none());
    assert!(matches!(m.insert(IdKey::from_str("name"), a), Overwritten::Pair(_, _)));
    let mut other: IdManager<SpriteTag> = IdManager::default();
    other.insert(IdKey::from_card(card), b);
    m.absorb(other);
    assert!(m.by_idkey(IdKey::from_card(card)).unwrap().eq(&b));
    assert!(m.by_idkey(IdKey::from_str("name")).unwrap().eq(&a));
}

#[test]
fn keys_and_input_events() {
    assert!(matches!(handle_key_event(KeyCode::Backspace), InputResult::Quit));
    assert!(matches!(handle_key_event(KeyCode::Delete), InputResult::Quit));
    assert!(matches!(handle_key_event(KeyCode::Char('q')), InputResult::Nop));
    let mut g = GameState::default();
    assert!(matches!(handle_input_frame(&mut g, None), InputResult::Quit));
    let click = InputEvent::Mouse { kind: MouseKind::LeftDown, column: 7, row: 3, plain: true };
    match handle_input_frame(&mut g, Some(click)) {
        InputResult::Click(p) => assert_eq!(p, TermPos::new(3, 7)),
        _ => panic!("a left click is a click"),
    }
    let shifted = InputEvent::Mouse { kind: MouseKind::LeftDown, column: 7, row: 3, plain: false };
    assert!(matches!(handle_input_frame(&mut g, Some(shifted)), InputResult::Nop));
    let key = InputEvent::Key { code: KeyCode::Delete, plain: true, press: true };
    assert!(matches!(handle_input_frame(&mut g, Some(key)), InputResult::Quit));
    let release = InputEvent::Key { code: KeyCode::Delete, plain: true, press: false };
    assert!(matches!(handle_input_frame(&mut g, Some(release)), InputResult::Nop));
    assert!(matches!(handle_input_frame(&mut g, Some(InputEvent::Resize(80, 20))), InputResult::Quit));
}

#[test]
fn messages_from_the_drawing_side() {
    let mut g = GameState::deal_from(Deck::from_cards(all_cards()));
    let _ = g.changes();
    assert!(matches!(handle_back_msg(&mut g, Received::Disconnected), BackMsgResult::Quit));
    assert!(matches!(handle_back_msg(&mut g, Received::Got(BackMsg::QuitMsg)), BackMsgResult::Quit));
    assert!(matches!(handle_back_msg(&mut g, Received::Empty), BackMsgResult::Nop));
    assert!(matches!(handle_back_msg(&mut g, Received::Got(BackMsg::Collisions(vec![]))), BackMsgResult::Nop));
    let cards = all_cards();
    match handle_back_msg(&mut g, Received::Got(BackMsg::Collisions(vec![cards[0], cards[80]]))) {
        BackMsgResult::Msgs(msgs) => {
            assert_eq!(msgs.len(), 1);
            match &msgs[0] {
                Msg::ChangeMsg(cs) => {
                    assert_eq!(cs.changes, vec![ChangeAtom::Select(cards[80], DealtPos::new(0, 0))])
                }
                _ => panic!("a change message was expected"),
            }
        }
        _ => panic!("messages were expected"),
    }
    assert!(!g.has_changes());
}

#[test]
fn drawing_side_steps() {
    assert!(matches!(game_step(Received::Disconnected), GameStep::Stop));
    assert!(matches!(game_step(Received::Got(Msg::QuitMsg)), GameStep::Stop));
    assert!(matches!(game_step(Received::Got(Msg::Nop)), GameStep::Skip));
    assert!(matches!(game_step(Received::Empty), GameStep::Draw));
    let cards = all_cards();
    let cs = ChangeSet::new(
        vec![
            ChangeAtom::Select(cards[1], DealtPos::new(0, 0)),
            ChangeAtom::Deal(cards[2], DealtPos::new(1, 1)),
            ChangeAtom::Deal(cards[3], DealtPos::new(2, 3)),
        ],
        4,
    );
    match game_step(Received::Got(Msg::ChangeMsg(cs))) {
        GameStep::Changes(ch) => {
            assert_eq!(ch.len(), 3);
            assert_eq!(deals(&ch), vec![(cards[2], DealtPos::new(1, 1)), (cards[3], DealtPos::new(2, 3))]);
        }
        _ => panic!("changes were expected"),
    }
}

fn card_sprite(h: i16, w: i16) -> Sprite {
    Sprite::mk(
        Img::rect(h as usize, w as usize, SpriteCell::Opaque(TermChar::Bg(Color::White))),
        TermPos::new(0, 0),
        1,
        Visibility::Visible,
        Clickability::Clickable,
    )
}

#[test]
fn dealt_cards_are_placed_and_clicks_find_them() {
    let s = Scale::new(7, 13, "", "", "", "");
    let board = SpriteTree::new(new_stn(Sprite::mk(Img::rect(0, 0, SpriteCell::Transparent), TermPos::new(0, 0), 0, Visibility::Visible, Clickability::Unclickable)));
    let mut man = SpriteManager { tree: board, sprites: Vec::new(), dirt: Dirt::new() };
    let cards = all_cards();
    let sp = card_sprite(s.CARD_HEIGHT, s.CARD_WIDTH);
    let sid = sp.id();
    let tree = SpriteTree::new(new_stn(sp));
    place_dealt(&mut man, tree, DealtPos::new(0, 1), s);
    assert_eq!(man.sprites.len(), 2);
    let placed = man.tree.find_node(sid).unwrap();
    assert_eq!(placed.anchor(), TermPos::new(1, 28));
    assert_eq!(man.dirt.line(1).unwrap().len(), 25);
    let mut ids: IdManager<SpriteTag> = IdManager::default();
    ids.insert(IdKey::from_card(cards[9]), sid);
    assert_eq!(clicked_cards(&man.tree, &ids, TermPos::new(2, 30)), vec![cards[9]]);
    assert!(clicked_cards(&man.tree, &ids, TermPos::new(20, 30)).is_empty());
}
