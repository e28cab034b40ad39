use vstd::prelude::*;

use crate::deck::{
    Card, Deck, color_index, shape_index, number_index, fill_index, color_of, shape_of, number_of,
    fill_of, full_deck, lemma_full_deck_distinct,
};
use crate::layout::{
    Layout, SlotKind, slot, slot_index, listed, redistributed, redistribute_moves, refilled,
    refill_deals, refill_count, lemma_slot_of_index, lemma_listed, cards_on, cell_cards,
    lemma_cards_on_update, lemma_redistributed_keeps_cards, lemma_refilled_adds_cards,
};
use vstd::multiset::Multiset;
use crate::pos::{DealtPos, GamePos};

verus! {

/// Three attribute values are all equal or pairwise different.
pub open spec fn same_or_distinct(a: int, b: int, c: int) -> bool {
    (a == b && b == c && a == c) || (a != b && b != c && a != c)
}

/// Three cards form a set: on every attribute they agree or pairwise differ.
pub open spec fn spec_is_set(c0: Card, c1: Card, c2: Card) -> bool {
    &&& same_or_distinct(color_index(c0.color), color_index(c1.color), color_index(c2.color))
    &&& same_or_distinct(shape_index(c0.shape), shape_index(c1.shape), shape_index(c2.shape))
    &&& same_or_distinct(
        number_index(c0.number),
        number_index(c1.number),
        number_index(c2.number),
    )
    &&& same_or_distinct(fill_index(c0.fill), fill_index(c1.fill), fill_index(c2.fill))
}

/// Whether three attribute values (given by their positions) are all equal or all
/// different.
fn all_diff_or_all_same(a: u8, b: u8, c: u8) -> (r: bool)
    ensures
        r == same_or_distinct(a as int, b as int, c as int),
{
    ((a == b) && (b == c) && (a == c)) || ((a != b) && (b != c) && (a != c))
}

/// Whether three cards form a set.
pub fn is_a_set(c0: Card, c1: Card, c2: Card) -> (r: bool)
    ensures
        r == spec_is_set(c0, c1, c2),
{
    all_diff_or_all_same(c0.color.index(), c1.color.index(), c2.color.index())
        && all_diff_or_all_same(c0.shape.index(), c1.shape.index(), c2.shape.index())
        && all_diff_or_all_same(c0.number.index(), c1.number.index(), c2.number.index())
        && all_diff_or_all_same(c0.fill.index(), c1.fill.index(), c2.fill.index())
}

/// Looks for a set on the board. The search stops at its first candidate, which takes
/// the first card three times; so it answers with the first occupied slot (row-major)
/// three times, or with nothing on an empty board.
pub fn find_set(lay: Layout) -> (r: Option<[DealtPos; 3]>)
    ensures
        ({
            let occ = listed(lay@, SlotKind::Occupied);
            &&& occ.len() == 0 ==> r is None
            &&& occ.len() > 0 ==> (r matches Some(a) && a[0] == occ[0] && a[1] == occ[0] && a[2]
                == occ[0])
        }),
{
    let all = lay.enumerate_2d();
    let mut cards: Vec<(DealtPos, Option<Card>)> = Vec::new();
    let mut m: usize = 0;
    proof {
        lay.lemma_view_len();
    }
    while m < all.len()
        invariant
            all.len() == 18,
            lay@.len() == 18,
            forall|k: int| 0 <= k < 18 ==> #[trigger] all[k] == (slot(k), lay@[k]),
            m <= 18,
            cards@.map_values(|e: (DealtPos, Option<Card>)| e.0) == crate::layout::collect(
                lay@,
                SlotKind::Occupied,
                m as int,
            ),
            forall|i: int| 0 <= i < cards.len() ==> (#[trigger] cards[i]).1 is Some,
        decreases 18 - m,
    {
        let (p, c) = all[m];
        if c.is_some() {
            cards.push((p, c));
        }
        m = m + 1;
        proof {
            assert(cards@.map_values(|e: (DealtPos, Option<Card>)| e.0) =~= crate::layout::collect(
                lay@,
                SlotKind::Occupied,
                m as int,
            ));
        }
    }
    let ghost occ = listed(lay@, SlotKind::Occupied);
    proof {
        assert(cards.len() == occ.len());
        if cards.len() > 0 {
            assert(cards[0].0 == occ[0]);
        }
    }
    let mut i: usize = 0;
    while i < cards.len()
        invariant
            i == 0,
            cards.len() == occ.len(),
                occ == listed(lay@, SlotKind::Occupied),
            occ.len() > 0 ==> cards[0].0 == occ[0],
            forall|q: int| 0 <= q < cards.len() ==> (#[trigger] cards[q]).1 is Some,
        decreases cards.len() - i,
    {
        let mut j: usize = i;
        while j < cards.len()
            invariant
                i == 0,
                j == i,
                i < cards.len(),
                cards.len() == occ.len(),
                occ == listed(lay@, SlotKind::Occupied),
                occ.len() > 0 ==> cards[0].0 == occ[0],
                forall|q: int| 0 <= q < cards.len() ==> (#[trigger] cards[q]).1 is Some,
            decreases cards.len() - j,
        {
            let mut k: usize = j;
            while k < cards.len()
                invariant
                    i == 0,
                    j == i,
                    k == j,
                    j < cards.len(),
                    cards.len() == occ.len(),
                occ == listed(lay@, SlotKind::Occupied),
                    occ.len() > 0 ==> cards[0].0 == occ[0],
                    forall|q: int| 0 <= q < cards.len() ==> (#[trigger] cards[q]).1 is Some,
                decreases cards.len() - k,
            {
                let (pos0, c0) = cards[i];
                let (pos1, c1) = cards[j];
                let (pos2, c2) = cards[k];
                let found = is_a_set(c0.unwrap(), c1.unwrap(), c2.unwrap());
                proof {
                    broadcast use vstd::array::group_array_axioms;
                    assert(found);
                    assert(pos0 == occ[0] && pos1 == occ[0] && pos2 == occ[0]);
                }
                let r = if found {
                    Some([pos0, pos1, pos2])
                } else {
                    None
                };
                proof {
                    broadcast use vstd::array::group_array_axioms;
                    let a = r->0;
                    assert(a[0] == pos0);
                    assert(a[1] == pos1);
                    assert(a[2] == pos2);
                    assert(occ == listed(lay@, SlotKind::Occupied));
                    assert(occ.len() > 0);
                }
                return r;
            }
            j = j + 1;
        }
        i = i + 1;
    }
    None
}

/// A change of the game state with visible consequences.
#[derive(Copy, Clone, Debug, Hash, PartialEq, Eq, Structural)]
pub enum ChangeAtom {
    Reflow(Card, DealtPos, DealtPos),
    GoodMove(Card, DealtPos, GamePos),
    BadOutline(Card, DealtPos),
    Select(Card, DealtPos),
    Deselect(Card, DealtPos),
    Fade(Card, DealtPos),
    Deal(Card, DealtPos),
}

/// The changes caused by one step of the game, stamped with the step's number (later
/// steps have larger stamps).
#[derive(Clone, Debug)]
pub struct ChangeSet {
    pub changes: Vec<ChangeAtom>,
    pub stamp: u32,
}

impl ChangeSet {
    pub fn new(changes: Vec<ChangeAtom>, stamp: u32) -> (cs: Self)
        ensures
            cs.changes@ == changes@,
            cs.stamp == stamp,
    {
        Self { changes, stamp }
    }

    /// No changes, stamp 0.
    pub fn default() -> (cs: Self)
        ensures
            cs.changes@ == Seq::<ChangeAtom>::empty(),
            cs.stamp == 0,
    {
        Self { changes: Vec::new(), stamp: 0 }
    }
}

/// The first row-major index at or after `k` whose slot holds `card` (18 when there is
/// none).
pub open spec fn first_from(cells: Seq<Option<Card>>, card: Card, k: int) -> int
    decreases 18 - k,
{
    if k >= 18 {
        18
    } else if cells[k] == Some(card) {
        k
    } else {
        first_from(cells, card, k + 1)
    }
}

/// The first slot (row-major) holding `card`.
pub open spec fn slot_of(cells: Seq<Option<Card>>, card: Card) -> DealtPos {
    slot(first_from(cells, card, 0))
}

/// The card lies on the board.
pub open spec fn on_board(cells: Seq<Option<Card>>, card: Card) -> bool {
    exists|k: int| 0 <= k < 18 && cells[k] == Some(card)
}

/// `s` without the elements equal to `c`, in order.
pub open spec fn without(s: Seq<Card>, c: Card) -> Seq<Card>
    decreases s.len(),
{
    if s.len() == 0 {
        s
    } else {
        let r = without(s.drop_last(), c);
        if s.last() == c {
            r
        } else {
            r.push(s.last())
        }
    }
}

proof fn lemma_first_from(cells: Seq<Option<Card>>, card: Card, k: int)
    requires
        0 <= k <= 18,
    ensures
        k <= first_from(cells, card, k) <= 18,
        first_from(cells, card, k) < 18 ==> cells[first_from(cells, card, k)] == Some(card),
        forall|j: int| k <= j < first_from(cells, card, k) ==> cells[j] != Some(card),
        (exists|j: int| k <= j < 18 && cells[j] == Some(card)) ==> first_from(cells, card, k)
            < 18,
    decreases 18 - k,
{
    if k < 18 {
        lemma_first_from(cells, card, k + 1);
        if exists|j: int| k <= j < 18 && cells[j] == Some(card) {
            let j = choose|j: int| k <= j < 18 && cells[j] == Some(card);
            if j > k {
                assert(k + 1 <= j < 18 && cells[j] == Some(card));
            }
        }
    }
}

proof fn lemma_without(s: Seq<Card>, c: Card)
    ensures
        without(s, c).len() <= s.len(),
        forall|x: Card| #[trigger] without(s, c).contains(x) <==> s.contains(x) && x != c,
        s.no_duplicates() ==> without(s, c).no_duplicates(),
        s.no_duplicates() && s.contains(c) ==> without(s, c).len() == s.len() - 1,
    decreases s.len(),
{
    if s.len() > 0 {
        lemma_without(s.drop_last(), c);
        let r = without(s.drop_last(), c);
        assert forall|x: Card| #[trigger] without(s, c).contains(x) <==> s.contains(x) && x
            != c by {
            let w = without(s, c);
            if s.contains(x) && x != c {
                let i = choose|i: int| 0 <= i < s.len() && s[i] == x;
                if i < s.len() - 1 {
                    assert(s.drop_last()[i] == x);
                    assert(s.drop_last().contains(x));
                    assert(r.contains(x));
                    let j = choose|j: int| 0 <= j < r.len() && r[j] == x;
                    if s.last() != c {
                        assert(w[j] == x);
                    } else {
                        assert(w[j] == x);
                    }
                    assert(w.contains(x));
                } else {
                    assert(w == r.push(x));
                    assert(w[w.len() - 1] == x);
                }
            }
            if w.contains(x) {
                let j = choose|j: int| 0 <= j < w.len() && w[j] == x;
                if j < r.len() {
                    assert(r[j] == x);
                    assert(r.contains(x));
                    assert(s.drop_last().contains(x) && x != c);
                    let i2 = choose|i2: int| 0 <= i2 < s.drop_last().len() && s.drop_last()[i2] == x;
                    assert(s[i2] == x);
                } else {
                    assert(s.last() != c);
                    assert(x == s.last());
                    assert(s[s.len() - 1] == x);
                }
            }
        }
        if s.no_duplicates() {
            assert(s.drop_last().no_duplicates());
            if s.last() != c {
                assert(!r.contains(s.last())) by {
                    if r.contains(s.last()) {
                        let i2 = choose|i2: int|
                            0 <= i2 < s.drop_last().len() && s.drop_last()[i2] == s.last();
                        assert(s[i2] == s[s.len() - 1]);
                    }
                }
                assert forall|a: int, b: int|
                    0 <= a < b < r.push(s.last()).len() implies r.push(s.last())[a] != r.push(
                    s.last(),
                )[b] by {
                    if b == r.len() {
                        assert(r.contains(r[a]));
                    }
                }
            }
            if s.contains(c) {
                if s.last() != c {
                    let i = choose|i: int| 0 <= i < s.len() && s[i] == c;
                    assert(s.drop_last()[i] == c);
                } else {
                    assert(!s.drop_last().contains(c)) by {
                        if s.drop_last().contains(c) {
                            let i2 = choose|i2: int|
                                0 <= i2 < s.drop_last().len() && s.drop_last()[i2] == c;
                            assert(s[i2] == s[s.len() - 1]);
                        }
                    }
                    assert(without(s.drop_last(), c).len() == s.drop_last().len()) by {
                        lemma_without_absent(s.drop_last(), c);
                    }
                }
            }
        }
    }
}

proof fn lemma_without_absent(s: Seq<Card>, c: Card)
    requires
        !s.contains(c),
    ensures
        without(s, c) == s,
    decreases s.len(),
{
    if s.len() > 0 {
        assert(!s.drop_last().contains(c)) by {
            if s.drop_last().contains(c) {
                let i = choose|i: int| 0 <= i < s.drop_last().len() && s.drop_last()[i] == c;
                assert(s[i] == c);
            }
        }
        lemma_without_absent(s.drop_last(), c);
        assert(s.last() != c);
        assert(s.drop_last().push(s.last()) =~= s);
    }
}

/// Whether `card` is among the cards of `v`.
fn contains_card(v: &Vec<Card>, card: Card) -> (b: bool)
    ensures
        b == v@.contains(card),
{
    let mut i: usize = 0;
    while i < v.len()
        invariant
            i <= v.len(),
            forall|j: int| 0 <= j < i ==> v@[j] != card,
        decreases v.len() - i,
    {
        if v[i] == card {
            return true;
        }
        i = i + 1;
    }
    false
}

/// The cards of `v` other than `card`, in order.
fn without_card(v: &Vec<Card>, card: Card) -> (r: Vec<Card>)
    ensures
        r@ == without(v@, card),
{
    let mut r: Vec<Card> = Vec::new();
    let mut i: usize = 0;
    while i < v.len()
        invariant
            i <= v.len(),
            r@ == without(v@.take(i as int), card),
        decreases v.len() - i,
    {
        proof {
            assert(v@.take(i as int + 1).drop_last() =~= v@.take(i as int));
        }
        if v[i] != card {
            r.push(v[i]);
        }
        i = i + 1;
    }
    proof {
        assert(v@.take(v.len() as int) =~= v@);
    }
    r
}

/// The changes reported for the cards moved by `redistribute`.
pub open spec fn reflow_atoms(moves: Seq<(Card, DealtPos, DealtPos)>) -> Seq<ChangeAtom> {
    moves.map_values(|m: (Card, DealtPos, DealtPos)| ChangeAtom::Reflow(m.0, m.1, m.2))
}

/// The changes reported for the cards dealt by `refill`.
pub open spec fn deal_atoms(deals: Seq<(Card, DealtPos)>) -> Seq<ChangeAtom> {
    deals.map_values(|d: (Card, DealtPos)| ChangeAtom::Deal(d.0, d.1))
}

/// The board after taking three cards off it.
pub open spec fn remove3(
    cells: Seq<Option<Card>>,
    p0: DealtPos,
    p1: DealtPos,
    p2: DealtPos,
) -> Seq<Option<Card>> {
    cells.update(slot_index(p0), None).update(slot_index(p1), None).update(slot_index(p2), None)
}

/// The board after a found set at `p0`, `p1`, `p2` is taken away, the extra section is
/// moved into the gaps, and the remaining gaps are refilled from the deck `d`.
pub open spec fn board_after_set(
    cells: Seq<Option<Card>>,
    d: Seq<Card>,
    p0: DealtPos,
    p1: DealtPos,
    p2: DealtPos,
) -> Seq<Option<Card>> {
    refilled(redistributed(remove3(cells, p0, p1, p2)), d)
}

/// The deck after the refill that follows a found set.
pub open spec fn deck_after_set(
    cells: Seq<Option<Card>>,
    d: Seq<Card>,
    p0: DealtPos,
    p1: DealtPos,
    p2: DealtPos,
) -> Seq<Card> {
    d.take(d.len() - refill_count(redistributed(remove3(cells, p0, p1, p2)), d))
}

/// The changes reported when the cards `c0`, `c1`, `c2` at `p0`, `p1`, `p2` form a set.
pub open spec fn set_found_atoms(
    cells: Seq<Option<Card>>,
    d: Seq<Card>,
    c0: Card,
    c1: Card,
    c2: Card,
    p0: DealtPos,
    p1: DealtPos,
    p2: DealtPos,
) -> Seq<ChangeAtom> {
    let b1 = remove3(cells, p0, p1, p2);
    seq![
        ChangeAtom::GoodMove(c0, p0, GamePos::LastFound0),
        ChangeAtom::GoodMove(c1, p1, GamePos::LastFound1),
        ChangeAtom::GoodMove(c2, p2, GamePos::LastFound2),
    ] + reflow_atoms(redistribute_moves(b1)) + deal_atoms(refill_deals(redistributed(b1), d))
}

/// A found set reports each change once: the three cards go to three different places,
/// each moved card leaves its own slot of the extra section, and each dealt card fills
/// its own gap.
proof fn lemma_set_found_atoms_distinct(
    cells: Seq<Option<Card>>,
    d: Seq<Card>,
    c0: Card,
    c1: Card,
    c2: Card,
    p0: DealtPos,
    p1: DealtPos,
    p2: DealtPos,
)
    ensures
        set_found_atoms(cells, d, c0, c1, c2, p0, p1, p2).no_duplicates(),
{
    let b1 = remove3(cells, p0, p1, p2);
    let b2 = redistributed(b1);
    let x = listed(b1, SlotKind::Extra);
    let e = listed(b2, SlotKind::MainEmpty);
    lemma_listed(b1, SlotKind::Extra);
    lemma_listed(b2, SlotKind::MainEmpty);
    let a = seq![
        ChangeAtom::GoodMove(c0, p0, GamePos::LastFound0),
        ChangeAtom::GoodMove(c1, p1, GamePos::LastFound1),
        ChangeAtom::GoodMove(c2, p2, GamePos::LastFound2),
    ];
    let r = reflow_atoms(redistribute_moves(b1));
    let dl = deal_atoms(refill_deals(b2, d));
    let all = set_found_atoms(cells, d, c0, c1, c2, p0, p1, p2);
    assert(all == a + r + dl);
    assert(r.len() <= x.len());
    assert(dl.len() <= e.len());
    assert forall|i: int| 0 <= i < r.len() implies #[trigger] r[i] matches ChangeAtom::Reflow(_, q, _) && q == x[i] by {}
    assert forall|i: int| 0 <= i < dl.len() implies #[trigger] dl[i] matches ChangeAtom::Deal(_, q) && q == e[i] by {}
    assert forall|i: int, j: int| 0 <= i < all.len() && 0 <= j < all.len() && i != j implies all[i] != all[j] by {
        if i >= 3 && j >= 3 && i < 3 + r.len() && j < 3 + r.len() {
            assert(r[i - 3] == all[i] && r[j - 3] == all[j]);
            assert(x[i - 3] != x[j - 3]);
        } else if i >= 3 + r.len() && j >= 3 + r.len() {
            assert(dl[i - 3 - r.len()] == all[i] && dl[j - 3 - r.len()] == all[j]);
            assert(e[i - 3 - r.len()] != e[j - 3 - r.len()]);
        } else if i >= 3 && i < 3 + r.len() {
            assert(r[i - 3] == all[i]);
        } else if i >= 3 + r.len() {
            assert(dl[i - 3 - r.len()] == all[i]);
        } else if j >= 3 && j < 3 + r.len() {
            assert(r[j - 3] == all[j]);
        } else if j >= 3 + r.len() {
            assert(dl[j - 3 - r.len()] == all[j]);
        }
    }
}

/// The cards and slots of the opening deal from a deck `d`: the `m`-th card drawn goes
/// to row `m / 4`, column `m % 4`.
pub open spec fn opening_slot(m: int) -> DealtPos {
    DealtPos { row: (m / 4) as u8, col: (m % 4) as u8 }
}

/// The opening board from a deck `d`: the main section filled row by row with the cards
/// drawn from the top of the deck, the extra section empty.
pub open spec fn opening_board(d: Seq<Card>) -> Seq<Option<Card>> {
    Seq::new(
        18,
        |k: int|
            if k % 6 <= 3 {
                Some(d[d.len() - 1 - ((k / 6) * 4 + k % 6)])
            } else {
                None
            },
    )
}

/// The changes of the opening deal from a deck `d`.
pub open spec fn opening_atoms(d: Seq<Card>) -> Seq<ChangeAtom> {
    Seq::new(12, |m: int| ChangeAtom::Deal(d[d.len() - 1 - m], opening_slot(m)))
}

#[derive(Clone, Debug)]
pub struct GameState {
    deck: Deck,
    layout: Layout,
    last_set_found: Option<(Card, Card, Card)>,
    selects: Vec<Card>,
    changesets: Vec<ChangeSet>,
    id_counter: u32,
}

impl GameState {
    /// The cards left in the deck, the top one last.
    pub closed spec fn deck_cards(self) -> Seq<Card> {
        self.deck@
    }

    /// The board's cards in row-major order.
    pub closed spec fn board(self) -> Seq<Option<Card>> {
        self.layout@
    }

    /// The cards currently selected, oldest first.
    pub closed spec fn selected(self) -> Seq<Card> {
        self.selects@
    }

    /// The last set the player found.
    pub closed spec fn last_found(self) -> Option<(Card, Card, Card)> {
        self.last_set_found
    }

    /// The change sets not yet handed out, oldest first.
    pub closed spec fn pending(self) -> Seq<ChangeSet> {
        self.changesets@
    }

    /// The stamp that the next step's changes will carry.
    pub closed spec fn next_stamp(self) -> u32 {
        self.id_counter
    }

    /// The state's invariant: at most two cards are selected, none twice, and each
    /// selected card lies on the board.
    pub open spec fn wf(self) -> bool {
        &&& self.board().len() == 18
        &&& self.selected().len() <= 2
        &&& self.selected().no_duplicates()
        &&& forall|i: int|
            0 <= i < self.selected().len() ==> on_board(self.board(), #[trigger] self.selected()[i])
    }

    /// A new game: the main section of the board is dealt from a shuffled deck of all
    /// 81 cards.
    pub fn default() -> (g: Self)
        ensures
            g.wf(),
            exists|d: Seq<Card>|
                {
                    &&& d.len() == 81
                    &&& d.to_multiset() == crate::deck::full_deck().to_multiset()
                    &&& g.board() == opening_board(d)
                    &&& g.deck_cards() == d.take(69)
                    &&& g.pending().len() == 1
                    &&& g.pending()[0].changes@ == opening_atoms(d)
                },
            g.pending()[0].stamp == 0,
            g.selected().len() == 0,
            g.last_found() is None,
            g.next_stamp() == 1,
    {
        let deck = Deck::new();
        let ghost d = deck@;
        let g = Self::deal_from(deck);
        proof {
            assert(d.len() == 81 && g.board() == opening_board(d));
        }
        g
    }

    /// A new game dealt from `deck`: the main section (columns 0 to 3) is filled row by
    /// row with the cards drawn from the top of the deck, and the deal is recorded as
    /// the first change set, with stamp 0.
    pub fn deal_from(deck: Deck) -> (g: Self)
        requires
            deck@.len() >= 12,
        ensures
            g.wf(),
            g.board() == opening_board(deck@),
            g.deck_cards() == deck@.take(deck@.len() - 12),
            g.pending().len() == 1,
            g.pending()[0].changes@ == opening_atoms(deck@),
            g.pending()[0].stamp == 0,
            g.selected().len() == 0,
            g.last_found() is None,
            g.next_stamp() == 1,
    {
        let mut deck = deck;
        let ghost d = deck@;
        let mut cards: [[Option<Card>; 6]; 3] = [[None;6];3];
        let mut cs: Vec<ChangeAtom> = Vec::new();
        let mut row: usize = 0;
        while row < 3
            invariant
                row <= 3,
                d.len() >= 12,
                deck@ == d.take(d.len() - (row as int) * 4),
                cs@ == opening_atoms(d).take((row as int) * 4),
                forall|r: int, c: int|
                    0 <= r < row && 0 <= c < 6 ==> #[trigger] cards[r][c] == if c <= 3 {
                        Some(d[d.len() - 1 - (r * 4 + c)])
                    } else {
                        None
                    },
                forall|r: int, c: int|
                    row <= r < 3 && 0 <= c < 6 ==> #[trigger] cards[r][c] is None,
            decreases 3 - row,
        {
            let mut col: usize = 0;
            while col < 6
                invariant
                    row < 3,
                    col <= 6,
                    d.len() >= 12,
                    deck@ == d.take(d.len() - (row as int) * 4 - (if col <= 4 { col as int } else { 4 })),
                    cs@ == opening_atoms(d).take((row as int) * 4 + (if col <= 4 { col as int } else { 4 })),
                    forall|r: int, c: int|
                        0 <= r < row && 0 <= c < 6 ==> #[trigger] cards[r][c] == if c <= 3 {
                            Some(d[d.len() - 1 - (r * 4 + c)])
                        } else {
                            None
                        },
                    forall|c: int|
                        0 <= c < col ==> #[trigger] cards[row as int][c] == if c <= 3 {
                            Some(d[d.len() - 1 - (row * 4 + c)])
                        } else {
                            None
                        },
                    forall|c: int| col <= c < 6 ==> #[trigger] cards[row as int][c] is None,
                    forall|r: int, c: int|
                        row < r < 3 && 0 <= c < 6 ==> #[trigger] cards[r][c] is None,
                decreases 6 - col,
            {
                if col <= 3 {
                    let cel = deck.pop();
                    proof {
                        assert(deck@ =~= d.take(d.len() - (row as int) * 4 - (col as int) - 1));
                    }
                    cards[row][col] = cel;
                    cs.push(ChangeAtom::Deal(cel.unwrap(), DealtPos::new(row as u8, col as u8)));
                    proof {
                        assert(cs@ =~= opening_atoms(d).take((row as int) * 4 + col as int + 1));
                    }
                }
                col = col + 1;
            }
            row = row + 1;
        }
        let layout = Layout::new(cards);
        proof {
            assert(layout@ =~= opening_board(d));
            assert(cs@ =~= opening_atoms(d));
        }
        let mut changesets: Vec<ChangeSet> = Vec::new();
        changesets.push(ChangeSet::new(cs, 0));
        GameState {
            deck,
            layout,
            last_set_found: None,
            selects: Vec::new(),
            changesets,
            id_counter: 1,
        }
    }

    /// Hands out the pending change sets, oldest first, and leaves none pending.
    pub fn changes(&mut self) -> (v: Vec<ChangeSet>)
        ensures
            v@ == old(self).pending(),
            final(self).pending() == Seq::<ChangeSet>::empty(),
            final(self).board() == old(self).board(),
            final(self).deck_cards() == old(self).deck_cards(),
            final(self).selected() == old(self).selected(),
            final(self).last_found() == old(self).last_found(),
            final(self).next_stamp() == old(self).next_stamp(),
    {
        let mut out: Vec<ChangeSet> = Vec::new();
        std::mem::swap(&mut out, &mut self.changesets);
        out
    }

    pub fn has_changes(&self) -> (b: bool)
        ensures
            b == (self.pending().len() > 0),
    {
        !self.changesets.is_empty()
    }

    /// The first slot (row-major) holding `card`; the card must lie on the board.
    fn find(&self, card: Card) -> (p: DealtPos)
        requires
            self.board().len() == 18,
            on_board(self.board(), card),
        ensures
            p == slot_of(self.board(), card),
            p.wf(),
            self.board()[slot_index(p)] == Some(card),
    {
        let cells = self.enumerate_cards();
        proof {
            lemma_first_from(self.board(), card, 0);
        }
        let mut k: usize = 0;
        while k < 18
            invariant
                cells.len() == 18,
                forall|j: int| 0 <= j < 18 ==> #[trigger] cells[j] == (slot(j), self.board()[j]),
                k <= first_from(self.board(), card, 0),
                first_from(self.board(), card, 0) < 18,
                self.board()[first_from(self.board(), card, 0)] == Some(card),
                forall|j: int| 0 <= j < first_from(self.board(), card, 0) ==> self.board()[j]
                    != Some(card),
            decreases 18 - k,
        {
            let (pos, c) = cells[k];
            if c.is_some() && c.unwrap() == card {
                proof {
                    assert(k as int == first_from(self.board(), card, 0));
                    lemma_slot_of_index(pos);
                    assert(slot_index(slot(k as int)) == k) by {
                        assert(slot(k as int).row == k / 6);
                    }
                }
                return pos;
            }
            k = k + 1;
        }
        proof {
            assert(false);
        }
        cells[0].0
    }

    /// Handles the player's choice of `card`, which must lie on the board, and records
    /// the visible consequences as a new change set stamped with the next stamp.
    ///
    /// A selected card is deselected. Otherwise, with fewer than two cards selected, the
    /// card is selected. Otherwise the card completes a triple (the card, then the two
    /// earlier choices, newest first): every selection is dropped, and if the three form
    /// a set they leave the board, become the last found set, the extra section moves
    /// into the gaps and the deck refills the rest; if not, the three are outlined as a
    /// bad choice.
    pub fn select(&mut self, card: Card)
        requires
            old(self).wf(),
            on_board(old(self).board(), card),
            old(self).next_stamp() < u32::MAX,
        ensures
            after_select(*old(self), *final(self), card),
    {
        let ghost b = self.board();
        let ghost d = self.deck_cards();
        let ghost s = self.selected();
        proof {
            self.layout.lemma_view_len();
            lemma_without(s, card);
        }
        let mut chs: Vec<ChangeAtom> = Vec::new();
        if contains_card(&self.selects, card) {
            self.selects = without_card(&self.selects, card);
            let p = self.find(card);
            chs.push(ChangeAtom::Deselect(card, p));
            proof {
                assert(chs@ =~= seq![ChangeAtom::Deselect(card, slot_of(b, card))]);
                assert forall|i: int|
                    0 <= i < self.selected().len() implies on_board(
                    self.board(),
                    #[trigger] self.selected()[i],
                ) by {
                    assert(self.selected().contains(self.selected()[i]));
                    assert(s.contains(self.selected()[i]));
                    let j = choose|j: int| 0 <= j < s.len() && s[j] == self.selected()[i];
                    assert(on_board(b, s[j]));
                }
            }
        } else if self.selects.len() <= 1 {
            self.selects.push(card);
            let p = self.find(card);
            chs.push(ChangeAtom::Select(card, p));
            proof {
                assert(chs@ =~= seq![ChangeAtom::Select(card, slot_of(b, card))]);
                assert forall|i: int|
                    0 <= i < self.selected().len() implies on_board(
                    self.board(),
                    #[trigger] self.selected()[i],
                ) by {
                    if i < s.len() {
                        assert(self.selected()[i] == s[i]);
                    }
                }
                assert(self.selected().no_duplicates()) by {
                    assert forall|a: int, c: int|
                        0 <= a < c < self.selected().len() implies self.selected()[a]
                        != self.selected()[c] by {
                        if c == s.len() {
                            assert(s.contains(s[a]));
                        }
                    }
                }
            }
        } else {
            self.selects.push(card);
            let c0 = self.selects.pop().unwrap();
            let c1 = self.selects.pop().unwrap();
            let c2 = self.selects.pop().unwrap();
            proof {
                assert(c0 == card);
                assert(c1 == s[1]);
                assert(c2 == s[0]);
                assert(on_board(b, s[1]));
                assert(on_board(b, s[0]));
            }
            let p0 = self.find(c0);
            let p1 = self.find(c1);
            let p2 = self.find(c2);
            if is_a_set(c0, c1, c2) {
                self.layout.remove(p0);
                self.layout.remove(p1);
                self.layout.remove(p2);
                self.selects.clear();
                self.last_set_found = Some((c0, c1, c2));

                chs.push(ChangeAtom::GoodMove(c0, p0, GamePos::LastFound0));
                chs.push(ChangeAtom::GoodMove(c1, p1, GamePos::LastFound1));
                chs.push(ChangeAtom::GoodMove(c2, p2, GamePos::LastFound2));

                let ghost b1 = self.layout@;
                proof {
                    assert(b1 == remove3(b, p0, p1, p2));
                }
                let moved = self.layout.redistribute();
                let ghost head = chs@;
                let mut i: usize = 0;
                while i < moved.len()
                    invariant
                        i <= moved.len(),
                        moved@ == redistribute_moves(b1),
                        chs@ == head + reflow_atoms(moved@).take(i as int),
                    decreases moved.len() - i,
                {
                    let (c, l0, l1) = moved[i];
                    chs.push(ChangeAtom::Reflow(c, l0, l1));
                    i = i + 1;
                    proof {
                        assert(chs@ =~= head + reflow_atoms(moved@).take(i as int));
                    }
                }
                let ghost b2 = self.layout@;
                let dealt = self.layout.refill(&mut self.deck);
                let ghost head2 = chs@;
                let mut k: usize = 0;
                while k < dealt.len()
                    invariant
                        k <= dealt.len(),
                        dealt@ == refill_deals(b2, d),
                        chs@ == head2 + deal_atoms(dealt@).take(k as int),
                    decreases dealt.len() - k,
                {
                    let (c, l) = dealt[k];
                    chs.push(ChangeAtom::Deal(c, l));
                    k = k + 1;
                    proof {
                        assert(chs@ =~= head2 + deal_atoms(dealt@).take(k as int));
                    }
                }
                proof {
                    self.layout.lemma_view_len();
                    assert(reflow_atoms(moved@).take(moved@.len() as int) =~= reflow_atoms(moved@));
                    assert(deal_atoms(dealt@).take(dealt@.len() as int) =~= deal_atoms(dealt@));
                    assert(chs@ =~= set_found_atoms(b, d, c0, c1, c2, p0, p1, p2));
                    lemma_set_found_atoms_distinct(b, d, c0, c1, c2, p0, p1, p2);
                }
            } else {
                self.selects.clear();
                chs.push(ChangeAtom::BadOutline(c0, p0));
                chs.push(ChangeAtom::BadOutline(c1, p1));
                chs.push(ChangeAtom::BadOutline(c2, p2));
                proof {
                    assert(chs@ =~= seq![
                        ChangeAtom::BadOutline(c0, p0),
                        ChangeAtom::BadOutline(c1, p1),
                        ChangeAtom::BadOutline(c2, p2),
                    ]);
                    assert(c1 != c2);
                    assert(c0 != c1 && c0 != c2) by {
                        assert(s.contains(s[0]) && s.contains(s[1]));
                    }
                }
            }
        }
        proof {
            assert(chs@.no_duplicates());
        }
        let ghost before = self.changesets@;
        self.changesets.push(ChangeSet::new(chs, self.id_counter));
        self.id_counter = self.id_counter + 1;
        proof {
            assert(self.changesets@.take(before.len() as int) =~= before);
        }
    }

    /// Every slot with its card, in row-major order.
    pub fn enumerate_cards(&self) -> (v: Vec<(DealtPos, Option<Card>)>)
        ensures
            v.len() == 18,
            forall|k: int| 0 <= k < 18 ==> #[trigger] v[k] == (slot(k), self.board()[k]),
    {
        self.layout.enumerate_2d()
    }

    /// Whether `card` may be chosen now: it lies on the board and a stamp is left for the
    /// change set the choice records.
    pub fn can_select(&self, card: Card) -> (b: bool)
        requires
            self.wf(),
        ensures
            b == (on_board(self.board(), card) && self.next_stamp() < u32::MAX),
    {
        if self.id_counter == u32::MAX {
            return false;
        }
        let cells = self.enumerate_cards();
        let mut k: usize = 0;
        while k < 18
            invariant
                k <= 18,
                self.next_stamp() < u32::MAX,
                cells.len() == 18,
                self.board().len() == 18,
                forall|j: int| 0 <= j < 18 ==> #[trigger] cells[j] == (slot(j), self.board()[j]),
                forall|j: int| 0 <= j < k ==> self.board()[j] != Some(card),
            decreases 18 - k,
        {
            let (_, c) = cells[k];
            if c.is_some() && c.unwrap() == card {
                proof {
                    assert(self.board()[k as int] == Some(card));
                }
                return true;
            }
            k = k + 1;
        }
        false
    }

    pub fn last_set_found(&self) -> (r: Option<(Card, Card, Card)>)
        ensures
            r == self.last_found(),
    {
        self.last_set_found
    }
}

/// What a choice of `card` does (see `GameState::select`): `new` is `old` after it.
pub open spec fn after_select(old: GameState, new: GameState, card: Card) -> bool {
    &&& new.wf()
    &&& new.next_stamp() == old.next_stamp() + 1
    &&& new.pending().len() == old.pending().len() + 1
    &&& new.pending().take(old.pending().len() as int) == old.pending()
    &&& new.pending().last().stamp == old.next_stamp()
    &&& new.pending().last().changes@.no_duplicates()
    &&& ({
        let b = old.board();
        let d = old.deck_cards();
        let s = old.selected();
        let atoms = new.pending().last().changes@;
        if s.contains(card) {
            &&& new.selected() == without(s, card)
            &&& new.board() == b
            &&& new.deck_cards() == d
            &&& new.last_found() == old.last_found()
            &&& atoms == seq![ChangeAtom::Deselect(card, slot_of(b, card))]
        } else if s.len() <= 1 {
            &&& new.selected() == s.push(card)
            &&& new.board() == b
            &&& new.deck_cards() == d
            &&& new.last_found() == old.last_found()
            &&& atoms == seq![ChangeAtom::Select(card, slot_of(b, card))]
        } else {
            let c0 = card;
            let c1 = s[1];
            let c2 = s[0];
            let p0 = slot_of(b, c0);
            let p1 = slot_of(b, c1);
            let p2 = slot_of(b, c2);
            &&& new.selected().len() == 0
            &&& if spec_is_set(c0, c1, c2) {
                &&& new.board() == board_after_set(b, d, p0, p1, p2)
                &&& new.deck_cards() == deck_after_set(b, d, p0, p1, p2)
                &&& new.last_found() == Some((c0, c1, c2))
                &&& atoms == set_found_atoms(b, d, c0, c1, c2, p0, p1, p2)
            } else {
                &&& new.board() == b
                &&& new.deck_cards() == d
                &&& new.last_found() == old.last_found()
                &&& atoms == seq![
                    ChangeAtom::BadOutline(c0, p0),
                    ChangeAtom::BadOutline(c1, p1),
                    ChangeAtom::BadOutline(c2, p2),
                ]
            }
        }
    })
}

/// Choosing a card that is selected removes exactly that card from the selection: every
/// other selected card stays selected, in its order, and nothing else changes.
pub proof fn lemma_deselect_removes_only_it(old: GameState, new: GameState, card: Card)
    requires
        old.wf(),
        after_select(old, new, card),
        old.selected().contains(card),
    ensures
        exists|i: int|
            0 <= i < old.selected().len() && old.selected()[i] == card && new.selected()
                == old.selected().remove(i),
        new.board() == old.board(),
        new.deck_cards() == old.deck_cards(),
        new.last_found() == old.last_found(),
{
    let s = old.selected();
    let i = choose|i: int| 0 <= i < s.len() && s[i] == card;
    reveal_with_fuel(without, 3);
    assert(s.len() == 1 || s.len() == 2);
    if s.len() == 1 {
        assert(s.drop_last() =~= Seq::<Card>::empty());
        assert(without(s, card) =~= s.remove(i));
    } else {
        assert(s[0] != s[1]);
        assert(s.drop_last() =~= seq![s[0]]);
        assert(s.drop_last().drop_last() =~= Seq::<Card>::empty());
        assert(without(s, card) =~= s.remove(i));
    }
}

/// Choosing a card while fewer than two others are selected and it is not one of them
/// adds it at the end of the selection and changes nothing else.
pub proof fn lemma_select_adds_it(old: GameState, new: GameState, card: Card)
    requires
        old.wf(),
        after_select(old, new, card),
        !old.selected().contains(card),
        old.selected().len() < 2,
    ensures
        new.selected().len() == old.selected().len() + 1,
        new.selected().last() == card,
        forall|j: int| 0 <= j < old.selected().len() ==> #[trigger] new.selected()[j] == old.selected()[j],
        new.board() == old.board(),
        new.deck_cards() == old.deck_cards(),
        new.last_found() == old.last_found(),
{
}

/// Whether three cards form a set does not depend on their order.
pub proof fn lemma_set_any_order(a: Card, b: Card, c: Card)
    ensures
        spec_is_set(a, b, c) == spec_is_set(b, a, c),
        spec_is_set(a, b, c) == spec_is_set(a, c, b),
        spec_is_set(a, b, c) == spec_is_set(c, b, a),
{
}

/// The attribute value that completes `a` and `b`: `a` itself when they agree, the
/// third value otherwise.
pub open spec fn third_value(a: int, b: int) -> int {
    if a == b {
        a
    } else {
        3 - a - b
    }
}

/// The one card that makes a set with `a` and `b`.
pub open spec fn third_card(a: Card, b: Card) -> Card {
    Card {
        color: color_of(third_value(color_index(a.color), color_index(b.color))),
        shape: shape_of(third_value(shape_index(a.shape), shape_index(b.shape))),
        number: number_of(third_value(number_index(a.number), number_index(b.number))),
        fill: fill_of(third_value(fill_index(a.fill), fill_index(b.fill))),
    }
}

/// Any two cards are completed to a set by exactly one card: `third_card(a, b)`.
pub proof fn lemma_set_completion(a: Card, b: Card, c: Card)
    ensures
        spec_is_set(a, b, third_card(a, b)),
        spec_is_set(a, b, c) ==> c == third_card(a, b),
{
    let t = third_card(a, b);
    assert(color_index(t.color) == third_value(color_index(a.color), color_index(b.color)));
    assert(shape_index(t.shape) == third_value(shape_index(a.shape), shape_index(b.shape)));
    assert(number_index(t.number) == third_value(number_index(a.number), number_index(b.number)));
    assert(fill_index(t.fill) == third_value(fill_index(a.fill), fill_index(b.fill)));
    if spec_is_set(a, b, c) {
        assert(color_index(c.color) == color_index(t.color));
        assert(shape_index(c.shape) == shape_index(t.shape));
        assert(number_index(c.number) == number_index(t.number));
        assert(fill_index(c.fill) == fill_index(t.fill));
        assert(c.color == t.color);
        assert(c.shape == t.shape);
        assert(c.number == t.number);
        assert(c.fill == t.fill);
    }
}

/// The cards a choice of `card` takes off the board for good: the three cards of the
/// set it completes, if it completes one; none otherwise.
pub open spec fn taken_by(old: GameState, card: Card) -> Multiset<Card> {
    let s = old.selected();
    if !s.contains(card) && s.len() > 1 && spec_is_set(card, s[1], s[0]) {
        Multiset::singleton(card).add(Multiset::singleton(s[1])).add(Multiset::singleton(s[0]))
    } else {
        Multiset::empty()
    }
}

/// A slot found for a card on the board holds that card.
proof fn lemma_slot_of_holds(b: Seq<Option<Card>>, c: Card)
    requires
        b.len() == 18,
        on_board(b, c),
    ensures
        slot_of(b, c).wf(),
        slot_index(slot_of(b, c)) == first_from(b, c, 0),
        b[slot_index(slot_of(b, c))] == Some(c),
{
    lemma_first_from(b, c, 0);
    let k = first_from(b, c, 0);
    assert(slot(k).row == k / 6);
    lemma_slot_of_index(slot(k));
}

/// No card is made or lost by a choice: the cards on the board and in the deck, together
/// with those a completed set takes away, are the same before and after.
pub proof fn lemma_select_keeps_cards(old: GameState, new: GameState, card: Card)
    requires
        old.wf(),
        on_board(old.board(), card),
        after_select(old, new, card),
    ensures
        cards_on(new.board()).add(new.deck_cards().to_multiset()).add(taken_by(old, card)) == cards_on(
            old.board(),
        ).add(old.deck_cards().to_multiset()),
{
    broadcast use vstd::multiset::group_multiset_axioms;

    let b = old.board();
    let d = old.deck_cards();
    let s = old.selected();
    if !s.contains(card) && s.len() > 1 && spec_is_set(card, s[1], s[0]) {
        let c0 = card;
        let c1 = s[1];
        let c2 = s[0];
        assert(on_board(b, c1));
        assert(on_board(b, c2));
        lemma_slot_of_holds(b, c0);
        lemma_slot_of_holds(b, c1);
        lemma_slot_of_holds(b, c2);
        let p0 = slot_of(b, c0);
        let p1 = slot_of(b, c1);
        let p2 = slot_of(b, c2);
        let i0 = slot_index(p0);
        let i1 = slot_index(p1);
        let i2 = slot_index(p2);
        assert(c1 != c2);
        assert(c0 != c1);
        assert(c0 != c2);
        assert(i0 != i1 && i0 != i2 && i1 != i2);
        let t0 = b.update(i0, None);
        let t1 = t0.update(i1, None);
        let t2 = t1.update(i2, None);
        lemma_cards_on_update(b, i0, None);
        lemma_cards_on_update(t0, i1, None);
        lemma_cards_on_update(t1, i2, None);
        assert(t0[i1] == b[i1]);
        assert(t1[i2] == b[i2]);
        assert(t2 == crate::game::remove3(b, p0, p1, p2));
        let three = Multiset::singleton(c0).add(Multiset::singleton(c1)).add(Multiset::singleton(c2));
        assert(cell_cards(None) =~= Multiset::<Card>::empty());
        assert(cell_cards(b[i0]) == Multiset::singleton(c0));
        assert(cell_cards(t0[i1]) == Multiset::singleton(c1));
        assert(cell_cards(t1[i2]) == Multiset::singleton(c2));
        assert(cards_on(t0).add(Multiset::singleton(c0)) =~= cards_on(b));
        assert(cards_on(t1).add(Multiset::singleton(c1)) =~= cards_on(t0));
        assert(cards_on(t2).add(Multiset::singleton(c2)) =~= cards_on(t1));
        assert(cards_on(t2).add(three) =~= cards_on(b));
        let r = redistributed(t2);
        crate::layout::lemma_redistributed(t2);
        lemma_redistributed_keeps_cards(t2);
        lemma_refilled_adds_cards(r, d);
        let n = refill_count(r, d);
        let top = d.subrange(d.len() - n, d.len() as int);
        let rest = d.take(d.len() - n);
        assert(d =~= rest + top);
        vstd::seq_lib::lemma_multiset_commutative(rest, top);
        assert(new.board() == refilled(r, d));
        assert(new.deck_cards() == rest);
        assert(taken_by(old, card) == three);
        assert(cards_on(new.board()).add(new.deck_cards().to_multiset()).add(taken_by(old, card))
            =~= cards_on(old.board()).add(old.deck_cards().to_multiset()));
    } else {
        assert(new.board() == b);
        assert(new.deck_cards() == d);
        assert(taken_by(old, card) =~= Multiset::<Card>::empty());
        assert(cards_on(new.board()).add(new.deck_cards().to_multiset()).add(taken_by(old, card))
            =~= cards_on(old.board()).add(old.deck_cards().to_multiset()));
    }
}

/// What holds of every game reached from a new game by choices, where `found` are the
/// cards of the sets found so far: the cards on the board, in the deck and found are
/// together the full deck, each card once; no set was found exactly when there is no
/// last found set; and the cards of the last found set are among those found.
pub open spec fn reached_with(g: GameState, found: Multiset<Card>) -> bool {
    &&& g.wf()
    &&& cards_on(g.board()).add(g.deck_cards().to_multiset()).add(found) == full_deck().to_multiset()
    &&& (g.last_found() is None <==> found.len() == 0)
    &&& (g.last_found() matches Some((a, b, c)) ==> found.count(a) > 0 && found.count(b) > 0
        && found.count(c) > 0)
}

/// The number of cards the opening deal has drawn by the time it reaches row-major
/// index `n` of the board.
spec fn drawn_before(n: int) -> int {
    (n / 6) * 4 + if n % 6 <= 4 { n % 6 } else { 4 }
}

proof fn lemma_opening_prefix(d: Seq<Card>, n: int)
    requires
        d.len() == 81,
        0 <= n <= 18,
    ensures
        0 <= drawn_before(n) <= 12,
        cards_on(opening_board(d).take(n)) == d.subrange(81 - drawn_before(n), 81).to_multiset(),
    decreases n,
{
    broadcast use vstd::multiset::group_multiset_axioms;

    let b = opening_board(d);
    if n == 0 {
        assert(b.take(0) =~= Seq::<Option<Card>>::empty());
        assert(d.subrange(81, 81) =~= Seq::<Card>::empty());
        assert(cards_on(b.take(0)) =~= Multiset::<Card>::empty());
        let e = d.subrange(81, 81);
        e.to_multiset_ensures();
        vstd::multiset::lemma_multiset_empty_len(e.to_multiset());
        assert(e.to_multiset() =~= Multiset::<Card>::empty());
    } else {
        let m = n - 1;
        lemma_opening_prefix(d, m);
        assert(b.take(n).drop_last() =~= b.take(m));
        assert(b.take(n).last() == b[m]);
        let k = drawn_before(m);
        let prev = d.subrange(81 - k, 81);
        if m % 6 <= 3 {
            assert(drawn_before(n) == k + 1);
            assert(b[m] == Some(d[80 - k]));
            let cur = d.subrange(80 - k, 81);
            assert(cur =~= seq![d[80 - k]] + prev);
            vstd::seq_lib::lemma_multiset_commutative(seq![d[80 - k]], prev);
            assert(seq![d[80 - k]].to_multiset() =~= Multiset::singleton(d[80 - k])) by {
                broadcast use vstd::seq_lib::group_seq_properties;
                assert(seq![d[80 - k]] =~= Seq::<Card>::empty().push(d[80 - k]));
            }
            assert(cards_on(b.take(n)) =~= cur.to_multiset());
        } else {
            assert(drawn_before(n) == k);
            assert(b[m] is None);
            assert(cards_on(b.take(n)) =~= prev.to_multiset());
        }
    }
}

/// A new game, dealt from a deck `d` that holds the 81 cards (as `GameState::default`
/// promises), has found nothing yet.
pub proof fn lemma_new_game_reached(g: GameState, d: Seq<Card>)
    requires
        g.wf(),
        d.len() == 81,
        d.to_multiset() == full_deck().to_multiset(),
        g.board() == opening_board(d),
        g.deck_cards() == d.take(69),
        g.last_found() is None,
    ensures
        reached_with(g, Multiset::empty()),
{
    broadcast use vstd::multiset::group_multiset_axioms;

    lemma_opening_prefix(d, 18);
    assert(opening_board(d).take(18) =~= opening_board(d));
    assert(drawn_before(18) == 12);
    assert(d =~= d.take(69) + d.subrange(69, 81));
    vstd::seq_lib::lemma_multiset_commutative(d.take(69), d.subrange(69, 81));
    assert(cards_on(g.board()).add(g.deck_cards().to_multiset()).add(Multiset::empty())
        =~= full_deck().to_multiset());
}

/// Each choice keeps what holds of a reached game, with the cards of a set it completes
/// added to those found.
pub proof fn lemma_select_keeps_reached(old: GameState, new: GameState, card: Card, found: Multiset<Card>)
    requires
        reached_with(old, found),
        on_board(old.board(), card),
        after_select(old, new, card),
    ensures
        reached_with(new, found.add(taken_by(old, card))),
{
    broadcast use vstd::multiset::group_multiset_axioms;

    lemma_select_keeps_cards(old, new, card);
    let t = taken_by(old, card);
    assert(cards_on(new.board()).add(new.deck_cards().to_multiset()).add(found.add(t))
        =~= cards_on(new.board()).add(new.deck_cards().to_multiset()).add(t).add(found));
    let s = old.selected();
    if !s.contains(card) && s.len() > 1 && spec_is_set(card, s[1], s[0]) {
        assert(new.last_found() == Some((card, s[1], s[0])));
        assert(t.count(card) > 0);
        assert(found.add(t).len() > 0);
    } else {
        assert(t =~= Multiset::<Card>::empty());
        assert(found.add(t) =~= found);
    }
}

/// The board counts a card it lies on.
proof fn lemma_on_board_counted(b: Seq<Option<Card>>, k: int, c: Card)
    requires
        0 <= k < b.len(),
        b[k] == Some(c),
    ensures
        cards_on(b).count(c) > 0,
    decreases b.len(),
{
    broadcast use vstd::multiset::group_multiset_axioms;

    if k < b.len() - 1 {
        lemma_on_board_counted(b.drop_last(), k, c);
    }
}

/// In a reached game the cards of the last found set lie neither on the board nor in
/// the deck.
pub proof fn lemma_last_found_off_table(g: GameState, found: Multiset<Card>)
    requires
        reached_with(g, found),
    ensures
        g.last_found() matches Some((a, b, c)) ==> {
            &&& !on_board(g.board(), a) && !on_board(g.board(), b) && !on_board(g.board(), c)
            &&& !g.deck_cards().contains(a) && !g.deck_cards().contains(b)
                && !g.deck_cards().contains(c)
        },
{
    broadcast use vstd::multiset::group_multiset_axioms;
    broadcast use vstd::seq_lib::group_seq_properties;

    lemma_full_deck_distinct();
    full_deck().lemma_multiset_has_no_duplicates();
    let full = full_deck().to_multiset();
    let on = cards_on(g.board());
    let dk = g.deck_cards().to_multiset();
    assert forall|x: Card| found.count(x) > 0 implies on.count(x) == 0 && dk.count(x) == 0 by {
        assert(on.add(dk).add(found).count(x) == full.count(x));
        assert(full.count(x) <= 1) by {
            if full.count(x) > 0 {
                assert(full.contains(x));
            }
        }
    }
    assert forall|x: Card| found.count(x) > 0 implies !on_board(g.board(), x) by {
        if on_board(g.board(), x) {
            let k = choose|k: int| 0 <= k < 18 && g.board()[k] == Some(x);
            lemma_on_board_counted(g.board(), k, x);
        }
    }
    assert forall|x: Card| found.count(x) > 0 implies !g.deck_cards().contains(x) by {
        assert(dk.count(x) == 0);
    }
}

} // verus!
