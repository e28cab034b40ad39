use russet::bounds::Bounds;
use russet::config::Color;
use russet::pos::TermPos;
use russet::sprites::dirt::Dirt;
use russet::sprites::img::Img;
use russet::sprites::sprite::Sprite;
use russet::sprites::sprite_tree::{InheritanceType, Inheritances, SpriteTree};
use russet::sprites::{new_stn, SpriteCell};
use russet::termchar::TermChar;
use russet::util::err::SetErrorKind;
use russet::util::{Clickability, Visibility};

fn cell(c: char) -> SpriteCell {
    SpriteCell::Opaque(TermChar::new(c, Color::White, Color::Black))
}

fn sprite_at(h: i16, w: i16, y: i16, x: i16, c: char) -> Sprite {
    let img = Img::rect(h as usize, w as usize, cell(c));
    Sprite::mk(img, TermPos::new(y, x), 0, Visibility::Visible, Clickability::Clickable)
}

#[test]
fn sprite_cells_by_screen_position() {
    let mut sp = sprite_at(2, 3, 5, 10, 'a');
    assert_eq!(sp.get(TermPos::new(5, 10)).unwrap(), cell('a'));
    assert_eq!(sp.get(TermPos::new(6, 12)).unwrap(), cell('a'));
    assert_eq!(sp.get(TermPos::new(7, 12)).unwrap_err().kind, SetErrorKind::OutOfBounds);
    assert_eq!(sp.set(TermPos::new(6, 11), cell('b')).unwrap(), cell('a'));
    assert_eq!(sp.get_rel(TermPos::new(1, 1)).unwrap(), cell('b'));
    sp.set_visible(Visibility::Invisible);
    assert_eq!(sp.get(TermPos::new(6, 11)).unwrap(), SpriteCell::Transparent);
    assert_eq!(sp.get(TermPos::new(50, 50)).unwrap(), SpriteCell::Transparent);
    let b = sp.bounds();
    assert_eq!((b.y_min, b.x_min, b.y_max, b.x_max), (5, 10, 7, 13));
}

#[test]
fn shared_sprites_keep_their_identifier_and_clones_get_a_new_one() {
    let sp = sprite_at(1, 1, 0, 0, 'a');
    let shared = sp.share();
    assert!(shared.id().eq(&sp.id()));
    let cloned = sp.clone();
    assert!(!cloned.id().eq(&sp.id()));
    assert_eq!(cloned.anchor(), sp.anchor());
}

#[test]
fn sprite_dirties_its_cells() {
    let sp = sprite_at(2, 2, 1, 1, 'a');
    let mut d = Dirt::new();
    sp.dirty_all(&mut d);
    assert_eq!(d.line(1).unwrap(), &vec![1, 2]);
    assert_eq!(d.line(2).unwrap(), &vec![1, 2]);
    assert!(d.line(3).is_none());
}

fn sample_tree() -> (SpriteTree, Vec<i16>) {
    // root at (0, 0), a child at (2, 2), a grandchild at (4, 4)
    let mut root = SpriteTree::new(new_stn(sprite_at(1, 1, 0, 0, 'r')));
    let child_id = root.push_sprite(new_stn(sprite_at(1, 1, 2, 2, 'c')), Inheritances::none());
    let r = root.insert_sprite(new_stn(sprite_at(1, 1, 4, 4, 'g')), Some(child_id), Inheritances::none());
    assert!(r.is_some());
    (root, vec![0, 2, 4])
}

#[test]
fn sprites_of_a_tree_come_in_preorder() {
    let (root, rows) = sample_tree();
    let all = root.all_sprites();
    assert_eq!(all.len(), 3);
    for (sp, y) in all.iter().zip(rows.iter()) {
        assert_eq!(sp.anchor().y, *y);
    }
    let b = root.bounds();
    assert_eq!((b.y_min, b.x_min, b.y_max, b.x_max), (0, 0, 5, 5));
}

#[test]
fn shifting_with_children_moves_the_whole_tree_and_back() {
    let (mut root, _) = sample_tree();
    root.shift(TermPos::new(10, 20), InheritanceType::Children);
    let ys: Vec<i16> = root.all_sprites().iter().map(|s| s.anchor().y).collect();
    assert_eq!(ys, vec![10, 12, 14]);
    root.shift(TermPos::new(-10, -20), InheritanceType::Children);
    let xs: Vec<i16> = root.all_sprites().iter().map(|s| s.anchor().x).collect();
    assert_eq!(xs, vec![0, 2, 4]);
    root.shift(TermPos::new(1, 1), InheritanceType::Dont);
    let xs: Vec<i16> = root.all_sprites().iter().map(|s| s.anchor().x).collect();
    assert_eq!(xs, vec![1, 2, 4]);
    root.reanchor(TermPos::new(0, 0), InheritanceType::Children);
    let xs: Vec<i16> = root.all_sprites().iter().map(|s| s.anchor().x).collect();
    assert_eq!(xs, vec![0, 1, 3]);
}

#[test]
fn orders_visibility_and_clickability_spread_down() {
    let (mut root, _) = sample_tree();
    root.shift_order(3, InheritanceType::Children);
    root.reorder(10, InheritanceType::Dont);
    let orders: Vec<i16> = root.all_sprites().iter().map(|s| s.order()).collect();
    assert_eq!(orders, vec![10, 3, 3]);
    root.set_visible(Visibility::Invisible, InheritanceType::Children);
    assert!(root.all_sprites().iter().all(|s| s.visible() == Visibility::Invisible));
    root.set_clickable(Clickability::Unclickable, InheritanceType::Dont);
    let cl: Vec<Clickability> = root.all_sprites().iter().map(|s| s.clickable()).collect();
    assert_eq!(cl, vec![Clickability::Unclickable, Clickability::Clickable, Clickability::Clickable]);
}

#[test]
fn subtrees_inherit_from_their_new_parent() {
    let mut root = SpriteTree::new(new_stn(sprite_at(1, 1, 5, 7, 'r')));
    let ins = Inheritances {
        anchor: InheritanceType::Children,
        order: InheritanceType::Dont,
        visibility: InheritanceType::Dont,
        clickability: InheritanceType::Dont,
    };
    root.push_sprite(new_stn(sprite_at(1, 1, 1, 1, 'c')), ins);
    let anchors: Vec<TermPos> = root.all_sprites().iter().map(|s| s.anchor()).collect();
    assert_eq!(anchors, vec![TermPos::new(5, 7), TermPos::new(6, 8)]);
    let mut t = SpriteTree::new(new_stn(sprite_at(1, 1, 0, 0, 'x')));
    t.inherit(&root, Inheritances::all());
    assert_eq!(t.node().anchor(), TermPos::new(5, 7));
}

#[test]
fn finding_trees_and_sprites() {
    let mut root = SpriteTree::new(new_stn(sprite_at(1, 1, 0, 0, 'r')));
    let sp = sprite_at(1, 1, 3, 3, 'c');
    let sid = sp.id();
    let tid = root.push_sprite(new_stn(sp), Inheritances::none());
    assert!(root.find_tree(tid).unwrap().id().eq(&tid));
    assert!(root.find_tree(root.id()).unwrap().id().eq(&root.id()));
    assert_eq!(root.find_node(sid).unwrap().anchor(), TermPos::new(3, 3));
    let other = SpriteTree::new(new_stn(sprite_at(1, 1, 0, 0, 'o')));
    assert!(root.find_tree(other.id()).is_none());
    assert!(root.find_node(other.node().id()).is_none());
    let r = root.insert_tree(other, Some(SpriteTree::new(new_stn(sprite_at(1, 1, 0, 0, 'z'))).id()), Inheritances::none());
    assert_eq!(r.unwrap_err().kind, SetErrorKind::IdNotFound);
    assert_eq!(root.children().len(), 1);
}

#[test]
fn clicks_hit_clickable_sprites_in_preorder() {
    let mut root = SpriteTree::new(new_stn(sprite_at(4, 4, 0, 0, 'r')));
    let a = sprite_at(2, 2, 1, 1, 'a');
    let aid = a.id();
    root.push_sprite(new_stn(a), Inheritances::none());
    let mut b = sprite_at(2, 2, 1, 1, 'b');
    b.set_clickable(Clickability::Unclickable);
    root.push_sprite(new_stn(b), Inheritances::none());
    let hits = root.collide(TermPos::new(2, 2));
    assert_eq!(hits.len(), 2);
    assert!(hits[0].eq(&root.node().id()));
    assert!(hits[1].eq(&aid));
    assert_eq!(root.collide(TermPos::new(3, 3)).len(), 1);
    assert!(root.collide(TermPos::new(9, 9)).is_empty());
}

#[test]
fn registering_dirt_marks_every_sprite() {
    let (root, _) = sample_tree();
    let mut d = Dirt::new();
    root.register_dirt(&mut d);
    let mut rows = d.rows();
    rows.sort();
    assert_eq!(rows, vec![0, 2, 4]);
    assert_eq!(d.line(4).unwrap(), &vec![4]);
    let _ = Bounds::<i16>::mk((0, 0), (0, 0));
}

#[test]
fn a_subtree_can_be_changed_in_place() {
    let mut root = SpriteTree::new(new_stn(sprite_at(1, 1, 0, 0, 'r')));
    let tid = root.push_sprite(new_stn(sprite_at(1, 1, 2, 2, 'c')), Inheritances::none());
    match root.tree_mut(tid) {
        Some(t) => t.shift(TermPos::new(5, 5), InheritanceType::Children),
        None => panic!("the subtree was just added"),
    }
    let anchors: Vec<TermPos> = root.all_sprites().iter().map(|s| s.anchor()).collect();
    assert_eq!(anchors, vec![TermPos::new(0, 0), TermPos::new(7, 7)]);
    let other = SpriteTree::new(new_stn(sprite_at(1, 1, 0, 0, 'o')));
    assert!(root.tree_mut(other.id()).is_none());
    let mut boxed = new_stn(sprite_at(1, 1, 0, 0, 'b'));
    russet::sprites::borrow_stn_mut(&mut boxed).reanchor(TermPos::new(3, 4));
    assert_eq!(boxed.anchor(), TermPos::new(3, 4));
}
