use russet::config::Color;
use russet::pos::TermPos;
use russet::sprites::dirt::Dirt;
use russet::sprites::img::Img;
use russet::sprites::sprite::Sprite;
use russet::sprites::sprite_manager::{char_at, write_line, SpriteManager};
use russet::sprites::sprite_tree::{Inheritances, SpriteTree};
use russet::sprites::termable::Termable;
use russet::sprites::{new_stn, SpriteCell, Stn};
use russet::termchar::TermChar;
use russet::util::{Clickability, TermSize, Visibility};

fn text(c: char) -> SpriteCell {
    SpriteCell::Opaque(TermChar::new(c, Color::White, Color::Black))
}

fn boxed(h: i16, w: i16, y: i16, x: i16, order: i16, px: SpriteCell) -> Stn {
    let img = Img::rect(h as usize, w as usize, px);
    new_stn(Sprite::mk(img, TermPos::new(y, x), order, Visibility::Visible, Clickability::Clickable))
}

#[test]
fn the_first_opaque_sprite_shows() {
    let sprites = vec![
        boxed(1, 2, 0, 0, 0, SpriteCell::Transparent),
        boxed(1, 1, 0, 1, 0, text('a')),
        boxed(1, 3, 0, 0, 0, text('b')),
    ];
    assert_eq!(char_at(&sprites, 0, 0), TermChar::new('b', Color::White, Color::Black));
    assert_eq!(char_at(&sprites, 0, 1), TermChar::new('a', Color::White, Color::Black));
    assert_eq!(char_at(&sprites, 0, 5), TermChar::Bg(Color::Reset));
}

fn texts(runs: &Vec<(i16, Termable)>) -> Vec<(i16, String)> {
    runs.iter().map(|(x, t)| (*x, t.to_text())).collect()
}

#[test]
fn a_line_is_printed_in_runs() {
    let sprites = vec![boxed(1, 3, 0, 0, 0, text('a')), boxed(1, 10, 0, 0, 0, SpriteCell::Opaque(TermChar::Bg(Color::Blue)))];
    // columns 0..=2 show 'a', 3..=9 blue blanks; a gap between 4 and 7
    let line = vec![-3, 0, 1, 2, 3, 4, 7, 8, 20, 9];
    let runs = write_line(&sprites, 0, &line, 10);
    assert_eq!(
        texts(&runs),
        vec![(0, "aaa".to_string()), (3, "  ".to_string()), (7, "  ".to_string())]
    );
    assert_eq!(runs[0].1.clone().finalize().fg, Some(Color::White));
    assert_eq!(runs[1].1.clone().finalize().bg, Some(Color::Blue));
}

#[test]
fn a_line_not_starting_at_column_zero_starts_with_an_empty_run() {
    let sprites = vec![boxed(1, 10, 0, 0, 0, text('z'))];
    let runs = write_line(&sprites, 0, &vec![4, 5], 10);
    assert_eq!(texts(&runs), vec![(0, "".to_string()), (4, "zz".to_string())]);
    assert!(write_line(&sprites, 0, &vec![12, 13], 10).is_empty());
    assert!(write_line(&sprites, 0, &vec![], 10).is_empty());
}

#[test]
fn sorting_is_stable_by_order() {
    let tree = SpriteTree::new(boxed(1, 1, 0, 0, 5, text('r')));
    let mut man = SpriteManager { tree, sprites: Vec::new(), dirt: Dirt::new() };
    man.tree.push_sprite(boxed(1, 1, 1, 0, 2, text('a')), Inheritances::none());
    man.tree.push_sprite(boxed(1, 1, 2, 0, 5, text('b')), Inheritances::none());
    man.tree.push_sprite(boxed(1, 1, 3, 0, -1, text('c')), Inheritances::none());
    man.refresh_sprites();
    assert_eq!(man.sprites.len(), 4);
    man.sort();
    let order: Vec<(i16, i16)> = man.sprites.iter().map(|s| (s.order(), s.anchor().y)).collect();
    assert_eq!(order, vec![(-1, 3), (2, 1), (5, 0), (5, 2)]);
}

#[test]
fn writing_prints_dirty_lines_and_cleans_them() {
    let tree = SpriteTree::new(boxed(2, 3, 0, 0, 0, text('q')));
    let mut man = SpriteManager { tree, sprites: Vec::new(), dirt: Dirt::new() };
    man.refresh_sprites();
    man.tree.register_dirt(&mut man.dirt);
    man.dirt.set_dirty(TermPos::new(-1, 0));
    let mut ts = TermSize::new();
    ts.update(Some((120, 50)));
    assert!(man.can_write(&ts));
    let mut out = man.write(&ts);
    out.sort_by_key(|r| r.0);
    assert_eq!(out.len(), 2);
    assert_eq!(out[0].0, 0);
    assert_eq!(texts(&out[0].1), vec![(0, "qqq".to_string())]);
    assert_eq!(out[1].0, 1);
    assert!(man.dirt.rows().is_empty());
    assert!(man.write(&ts).is_empty());
}

#[test]
fn the_runs_of_a_line_print_what_is_shown() {
    let sprites = vec![
        boxed(1, 2, 0, 1, 0, text('x')),
        boxed(1, 6, 0, 0, 0, SpriteCell::Opaque(TermChar::Bg(Color::Green))),
    ];
    let line = vec![0, 1, 2, 3, 5];
    let runs = write_line(&sprites, 0, &line, 6);
    let printed: String = runs.iter().map(|(_, t)| t.to_text()).collect();
    let shown: String = line.iter().map(|x| char_at(&sprites, 0, *x).get_c()).collect();
    assert_eq!(printed, shown);
    assert_eq!(printed, " xx  ");
}
