use vstd::prelude::*;

use crate::config::{Scale, WIN_MARGIN_VERT, WIN_MARGIN_HORIZ, CARD_SPACING_VERT, CARD_SPACING_HORIZ};
use crate::deck::Card;
use crate::game::{ChangeAtom, ChangeSet};
use crate::id::{IdManager, has_value};
use crate::input::Received;
use crate::pos::{DealtPos, TermPos, dealt_pos_fits};
use crate::sprites::sprite::SpriteTag;
use crate::sprites::sprite_manager::SpriteManager;
use crate::sprites::sprite_tree::{
    SpriteTree, InheritanceType, Inheritances, flatten, hit_ids, all_fit, mapped, moving,
    pos_diff, adopted, inherited, covers, covers_row, dedup_ids, copies, apply_delta, delta_fits,
    lemma_mapped_flatten, lemma_all_fit_iff, lemma_tree_fits_iff, Delta,
};

pub mod card_repo;

verus! {

/// A message from the game to the drawing side.
#[derive(Debug)]
pub enum Msg {
    QuitMsg,
    Nop,
    ChangeMsg(ChangeSet),
}

/// A message from the drawing side back to the game.
#[derive(Debug)]
pub enum BackMsg {
    QuitMsg,
    /// the cards under a click, as the drawing side found them
    Collisions(Vec<Card>),
}

/// What the drawing loop does with one try at reading the game's messages.
#[derive(Debug)]
pub enum GameStep {
    /// the game is gone or asked to quit: leave the loop
    Stop,
    /// nothing to do, and no drawing this turn
    Skip,
    /// nothing came: just draw
    Draw,
    /// apply these changes, then draw
    Changes(Vec<ChangeAtom>),
}

/// Decides what the drawing loop does with a message from the game (`Empty` when none
/// came in time).
pub fn game_step(msg: Received<Msg>) -> (s: GameStep)
    ensures
        match msg {
            Received::Disconnected => s is Stop,
            Received::Got(Msg::QuitMsg) => s is Stop,
            Received::Empty => s is Draw,
            Received::Got(Msg::Nop) => s is Skip,
            Received::Got(Msg::ChangeMsg(cs)) => s matches GameStep::Changes(ch) && ch@ == cs.changes@,
        },
{
    match msg {
        Received::Disconnected => GameStep::Stop,
        Received::Got(Msg::QuitMsg) => GameStep::Stop,
        Received::Empty => GameStep::Draw,
        Received::Got(Msg::Nop) => GameStep::Skip,
        Received::Got(Msg::ChangeMsg(cs)) => GameStep::Changes(cs.changes),
    }
}

/// The deals among `changes`, in order.
pub open spec fn dealt(changes: Seq<ChangeAtom>) -> Seq<(Card, DealtPos)>
    decreases changes.len(),
{
    if changes.len() == 0 {
        Seq::empty()
    } else {
        match changes.last() {
            ChangeAtom::Deal(c, p) => dealt(changes.drop_last()).push((c, p)),
            _ => dealt(changes.drop_last()),
        }
    }
}

/// Whether a change is a deal.
pub open spec fn is_deal(a: ChangeAtom) -> bool {
    a is Deal
}

/// The card and slot of a deal.
pub open spec fn deal_of(a: ChangeAtom) -> (Card, DealtPos) {
    (a->Deal_0, a->Deal_1)
}

/// The deals handed to the drawing side are exactly the `Deal` changes of the change
/// set, in order: as many as there are, each with its card and slot; and every `Deal`
/// change is among them.
pub proof fn lemma_deals_are_the_deal_changes(changes: Seq<ChangeAtom>)
    ensures
        dealt(changes) == changes.filter(|a: ChangeAtom| is_deal(a)).map_values(|a: ChangeAtom| deal_of(a)),
        dealt(changes).len() == changes.filter(|a: ChangeAtom| is_deal(a)).len(),
        forall|i: int|
            0 <= i < changes.len() && is_deal(#[trigger] changes[i]) ==> dealt(changes).contains(
                deal_of(changes[i]),
            ),
    decreases changes.len(),
{
    reveal(Seq::filter);
    let p = |a: ChangeAtom| is_deal(a);
    let g = |a: ChangeAtom| deal_of(a);
    if changes.len() == 0 {
        assert(changes.filter(p) =~= Seq::<ChangeAtom>::empty());
        assert(changes.filter(p).map_values(g) =~= Seq::<(Card, DealtPos)>::empty());
    } else {
        let rest = changes.drop_last();
        lemma_deals_are_the_deal_changes(rest);
        let l = changes.last();
        assert(changes.filter(p) == if p(l) { rest.filter(p).push(l) } else { rest.filter(p) });
        if is_deal(l) {
            assert(rest.filter(p).push(l).map_values(g) =~= rest.filter(p).map_values(g).push(g(l)));
            assert(dealt(changes) == dealt(rest).push(deal_of(l)));
        } else {
            assert(dealt(changes) == dealt(rest));
        }
        assert forall|i: int|
            0 <= i < changes.len() && is_deal(#[trigger] changes[i]) implies dealt(changes).contains(
                deal_of(changes[i]),
            ) by {
            if i < changes.len() - 1 {
                assert(rest[i] == changes[i]);
                let j = choose|j: int| 0 <= j < dealt(rest).len() && dealt(rest)[j] == deal_of(rest[i]);
                assert(dealt(changes)[j] == dealt(rest)[j]);
            } else {
                assert(dealt(changes).last() == deal_of(l));
            }
        }
    }
}

/// The deals among `changes`, in order: the only changes the drawing side acts on.
pub fn deals(changes: &Vec<ChangeAtom>) -> (v: Vec<(Card, DealtPos)>)
    ensures
        v@ == dealt(changes@),
{
    let mut v: Vec<(Card, DealtPos)> = Vec::new();
    let mut i: usize = 0;
    while i < changes.len()
        invariant
            i <= changes@.len(),
            v@ == dealt(changes@.take(i as int)),
        decreases changes.len() - i,
    {
        proof {
            assert(changes@.take(i + 1).drop_last() =~= changes@.take(i as int));
            assert(changes@.take(i + 1).last() == changes@[i as int]);
        }
        match changes[i] {
            ChangeAtom::Deal(c, p) => v.push((c, p)),
            _ => {},
        }
        i = i + 1;
    }
    proof {
        assert(changes@.take(i as int) =~= changes@);
    }
    v
}

/// The card of the key paired with the identifier value `v` in `m`, if that key names a
/// card.
pub open spec fn card_of(m: Map<(Option<Card>, Option<Seq<char>>), u128>, v: u128) -> Option<Card> {
    if has_value(m, v) {
        (choose|k: (Option<Card>, Option<Seq<char>>)| #[trigger] m.contains_key(k) && m[k] == v).0
    } else {
        None
    }
}

/// The cards of the sprites `ids`, in order, leaving out those without one.
pub open spec fn cards_of(m: Map<(Option<Card>, Option<Seq<char>>), u128>, ids: Seq<crate::sprites::sprite::SpriteId>) -> Seq<Card>
    decreases ids.len(),
{
    if ids.len() == 0 {
        Seq::empty()
    } else {
        match card_of(m, ids.last()@) {
            Some(c) => cards_of(m, ids.drop_last()).push(c),
            None => cards_of(m, ids.drop_last()),
        }
    }
}

/// `s` with every card dropped that equals the card just before it.
pub open spec fn dedup_cards(s: Seq<Card>) -> Seq<Card>
    decreases s.len(),
{
    if s.len() == 0 {
        Seq::empty()
    } else if s.len() >= 2 && s[s.len() - 1] == s[s.len() - 2] {
        dedup_cards(s.drop_last())
    } else {
        dedup_cards(s.drop_last()).push(s.last())
    }
}

/// The cards under a click at `pos`: the cards of the clickable sprites of `tree` that
/// cover it, in preorder, with repeats in a row dropped.
pub fn clicked_cards(tree: &SpriteTree, sprite_ids: &IdManager<SpriteTag>, pos: TermPos) -> (v: Vec<
    Card,
>)
    requires
        all_fit(*tree),
        sprite_ids.wf(),
    ensures
        v@ == dedup_cards(cards_of(sprite_ids@, hit_ids(flatten(*tree), pos))),
{
    let ids = tree.collide(pos);
    let mut cards: Vec<Card> = Vec::new();
    let mut i: usize = 0;
    while i < ids.len()
        invariant
            i <= ids@.len(),
            sprite_ids.wf(),
            cards@ == cards_of(sprite_ids@, ids@.take(i as int)),
        decreases ids.len() - i,
    {
        proof {
            assert(ids@.take(i + 1).drop_last() =~= ids@.take(i as int));
            assert(ids@.take(i + 1).last() == ids@[i as int]);
        }
        match sprite_ids.by_id(ids[i]) {
            Some(k) => {
                proof {
                    let w = choose|w: (Option<Card>, Option<Seq<char>>)|
                        #[trigger] sprite_ids@.contains_key(w) && sprite_ids@[w] == ids@[i as int]@;
                    sprite_ids.lemma_wf_injective(w, k@);
                }
                if let Some(c) = k.card {
                    cards.push(c);
                }
            },
            None => {},
        }
        i = i + 1;
    }
    proof {
        assert(ids@.take(i as int) =~= ids@);
    }
    let ghost all = cards@;
    let mut out: Vec<Card> = Vec::new();
    let mut j: usize = 0;
    proof {
        assert(all.take(0) =~= Seq::<Card>::empty());
    }
    while j < cards.len()
        invariant
            j <= cards@.len(),
            cards@ == all,
            out@ == dedup_cards(all.take(j as int)),
        decreases cards.len() - j,
    {
        proof {
            assert(all.take(j + 1).drop_last() =~= all.take(j as int));
            assert(all.take(j + 1).last() == all[j as int]);
        }
        if j == 0 || cards[j] != cards[j - 1] {
            out.push(cards[j]);
        }
        j = j + 1;
    }
    proof {
        assert(all.take(j as int) =~= all);
    }
    out
}

/// What a dealt card's tree takes over from the board's root: its anchor and its order.
pub open spec fn deal_inheritance() -> Inheritances {
    Inheritances {
        anchor: InheritanceType::Children,
        order: InheritanceType::Children,
        visibility: InheritanceType::Dont,
        clickability: InheritanceType::Dont,
    }
}

/// Where the card dealt at `pos` is anchored (see `TermPos::from`).
pub open spec fn dealt_anchor(pos: DealtPos, scale: Scale) -> TermPos {
    TermPos {
        y: (WIN_MARGIN_VERT + pos.row * (scale.CARD_HEIGHT + 1 + CARD_SPACING_VERT)) as i16,
        x: (WIN_MARGIN_HORIZ + pos.col * (scale.CARD_WIDTH + CARD_SPACING_HORIZ)) as i16,
    }
}

/// The move that brings `tree`'s root to where the card dealt at `pos` goes.
pub open spec fn deal_move(tree: SpriteTree, pos: DealtPos, scale: Scale) -> crate::sprites::sprite_tree::Delta {
    moving(pos_diff(dealt_anchor(pos, scale), tree.spec_node().spec_anchor()))
}

/// The card tree `tree` can be placed for a deal at `pos` under `board`: moving it
/// keeps it within `i16`, and so does what it then takes over from the board's root.
pub open spec fn deal_fits(board: SpriteTree, tree: SpriteTree, pos: DealtPos, scale: Scale) -> bool {
    let a = dealt_anchor(pos, scale);
    let b = tree.spec_node().spec_anchor();
    &&& dealt_pos_fits(pos, scale)
    &&& i16::MIN <= a.y - b.y <= i16::MAX
    &&& i16::MIN <= a.x - b.x <= i16::MAX
    &&& forall|k: int|
        0 <= k < flatten(tree).len() ==> {
            let sp = #[trigger] flatten(tree)[k];
            let moved = apply_delta(sp, deal_move(tree, pos, scale));
            &&& delta_fits(sp, deal_move(tree, pos, scale))
            &&& moved.bounds_fit()
            &&& delta_fits(moved, inherited(board.spec_node(), deal_inheritance()))
        }
}

/// Whether `v` is within `i16`.
fn in_i16(v: i64) -> (b: bool)
    ensures
        b == (i16::MIN <= v <= i16::MAX),
{
    -32768 <= v && v <= 32767
}

/// Whether the arithmetic that places the slot `pos` at the card size of `scale` stays
/// within `i16`.
fn dealt_pos_in_range(pos: DealtPos, scale: Scale) -> (b: bool)
    ensures
        b == dealt_pos_fits(pos, scale),
{
    let hstep: i64 = scale.CARD_HEIGHT as i64 + 1 + CARD_SPACING_VERT as i64;
    let wstep: i64 = scale.CARD_WIDTH as i64 + CARD_SPACING_HORIZ as i64;
    let h1: i64 = scale.CARD_HEIGHT as i64 + 1;
    let row: i64 = pos.row as i64;
    let col: i64 = pos.col as i64;
    assert(-100000000 <= row * hstep <= 100000000) by (nonlinear_arith)
        requires
            0 <= row <= 255,
            -40000 <= hstep <= 40000,
    ;
    assert(-100000000 <= col * wstep <= 100000000) by (nonlinear_arith)
        requires
            0 <= col <= 255,
            -40000 <= wstep <= 40000,
    ;
    let ry: i64 = row * hstep;
    let rx: i64 = col * wstep;
    let y: i64 = WIN_MARGIN_VERT as i64 + ry;
    let x: i64 = WIN_MARGIN_HORIZ as i64 + rx;
    in_i16(hstep) && in_i16(h1) && in_i16(wstep) && in_i16(ry) && in_i16(rx) && in_i16(y) && in_i16(x)
}

/// Whether the card tree `tree` can be placed for a deal at `pos` under `board`, as
/// `place_dealt` needs.
pub fn can_place_dealt(board: &SpriteTree, tree: &SpriteTree, pos: DealtPos, scale: Scale) -> (b: bool)
    ensures
        b == deal_fits(*board, *tree, pos, scale),
{
    if !dealt_pos_in_range(pos, scale) {
        return false;
    }
    let a = TermPos::from((&pos, &scale));
    let b = tree.node().anchor();
    let dy: i32 = a.y as i32 - b.y as i32;
    let dx: i32 = a.x as i32 - b.x as i32;
    if dy < -32768 || dy > 32767 || dx < -32768 || dx > 32767 {
        return false;
    }
    let delta = TermPos { y: dy as i16, x: dx as i16 };
    proof {
        assert(a == dealt_anchor(pos, scale));
        assert(deal_move(*tree, pos, scale) == moving(delta));
        assert(inherited(board.spec_node(), deal_inheritance()) == Delta {
            anchor: Some(board.spec_node().spec_anchor()),
            order: Some(board.spec_node().spec_order()),
            visible: None,
            clickable: None,
        });
    }
    tree.fits_moved_under(delta, board.node())
}

/// Puts the tree of a card dealt at `pos` on screen: the tree is moved to the deal's
/// place (see `TermPos::from`), every cell it covers is marked dirty, it joins the
/// board's tree as the root's last child taking over the root's anchor and order, and
/// the sprites are taken afresh.
pub fn place_dealt(man: &mut SpriteManager, tree: SpriteTree, pos: DealtPos, scale: Scale)
    requires
        old(man).dirt.wf(),
        deal_fits(old(man).tree, tree, pos, scale),
    ensures
        exists|moved: SpriteTree|
            {
                &&& mapped(moved, tree, deal_move(tree, pos, scale), true)
                &&& adopted(final(man).tree, old(man).tree, moved, deal_inheritance())
                &&& forall|y: i16, x: i16| #[trigger] final(man).dirt.is_dirty(y, x) <==> old(man).dirt.is_dirty(y, x)
                    || covers(flatten(moved), y, x)
                &&& forall|y: i16| #[trigger] final(man).dirt.lines().contains_key(y) <==> old(man).dirt.lines().contains_key(y)
                    || covers_row(flatten(moved), y)
            },
        final(man).dirt.wf(),
        copies(final(man).sprites@, dedup_ids(flatten(final(man).tree))),
{
    let ghost t0 = tree;
    let ghost d = deal_move(tree, pos, scale);
    let target = TermPos::from((&pos, &scale));
    let mut tree = tree;
    proof {
        lemma_tree_fits_iff(t0, d);
    }
    tree.reanchor(target, InheritanceType::Children);
    let ghost t1 = tree;
    proof {
        lemma_mapped_flatten(t1, t0, d);
        lemma_all_fit_iff(t1);
        lemma_tree_fits_iff(t1, inherited(man.tree.spec_node(), deal_inheritance()));
    }
    tree.register_dirt(&mut man.dirt);
    let ins = Inheritances {
        anchor: InheritanceType::Children,
        order: InheritanceType::Children,
        visibility: InheritanceType::Dont,
        clickability: InheritanceType::Dont,
    };
    let ghost before = man.tree;
    man.tree.push_tree(tree, ins);
    man.refresh_sprites();
    proof {
        assert(mapped(t1, t0, d, true));
        assert(adopted(man.tree, before, t1, deal_inheritance()));
    }
}

} // verus!
