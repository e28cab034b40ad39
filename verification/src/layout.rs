use vstd::prelude::*;
use vstd::multiset::Multiset;

use crate::deck::{Card, Deck};
use crate::pos::{DealtPos, GamePos};

verus! {

/// The `k`-th slot of the board in row-major order (`0 <= k < 18`).
pub open spec fn slot(k: int) -> DealtPos {
    DealtPos { row: (k / 6) as u8, col: (k % 6) as u8 }
}

/// Row-major index of a slot.
pub open spec fn slot_index(p: DealtPos) -> int {
    p.row * 6 + p.col
}

/// Kinds of slots that the board lists.
#[derive(PartialEq, Eq, Structural, Copy, Clone, Debug)]
pub enum SlotKind {
    /// a slot without a card
    Empty,
    /// a slot of the main section (columns 0 to 3) without a card
    MainEmpty,
    /// a slot of the extra section (columns 4 and 5) holding a card
    Extra,
    /// a slot holding a card
    Occupied,
}

#[derive(Copy, Clone, Debug)]
pub struct Layout {
    // Columns 0-3 are the main section, which should stay filled during normal play;
    // columns 4-5 are the extra section, filled only when the player asks for more cards.
    cards: [[Option<Card>; 6]; 3],
}

proof fn lemma_slot_basics(k: int)
    requires
        0 <= k < 18,
    ensures
        slot(k).wf(),
        slot_index(slot(k)) == k,
        slot(k).row == k / 6,
        slot(k).col == k % 6,
{
}

/// A slot of the board sits at its row-major index.
pub proof fn lemma_slot_of_index(p: DealtPos)
    requires
        p.wf(),
    ensures
        0 <= slot_index(p) < 18,
        slot(slot_index(p)) == p,
{
    let k = slot_index(p);
    assert(k / 6 == p.row);
    assert(k % 6 == p.col);
}

/// Different slots of the board have different row-major indices.
pub proof fn lemma_slot_index_injective(p: DealtPos, q: DealtPos)
    requires
        p.wf(),
        q.wf(),
        p != q,
    ensures
        slot_index(p) != slot_index(q),
{
    lemma_slot_of_index(p);
    lemma_slot_of_index(q);
}

/// Whether slot `p` is of the given kind on a board whose row-major cells are `cells`.
pub open spec fn selects(cells: Seq<Option<Card>>, kind: SlotKind, p: DealtPos) -> bool {
    let c = cells[slot_index(p)];
    match kind {
        SlotKind::Empty => c is None,
        SlotKind::MainEmpty => c is None && p.col <= 3,
        SlotKind::Extra => c is Some && p.col >= 4,
        SlotKind::Occupied => c is Some,
    }
}

/// The slots of the given kind among the first `k` slots, in row-major order.
pub open spec fn collect(cells: Seq<Option<Card>>, kind: SlotKind, k: int) -> Seq<DealtPos>
    decreases k,
{
    if k <= 0 {
        Seq::empty()
    } else {
        let s = collect(cells, kind, k - 1);
        if selects(cells, kind, slot(k - 1)) {
            s.push(slot(k - 1))
        } else {
            s
        }
    }
}

/// All slots of the given kind, in row-major order.
pub open spec fn listed(cells: Seq<Option<Card>>, kind: SlotKind) -> Seq<DealtPos> {
    collect(cells, kind, 18)
}

/// The smaller of two lengths.
pub open spec fn min_len(a: int, b: int) -> int {
    if a < b {
        a
    } else {
        b
    }
}

/// The board after moving, for each `j < n` in turn, the card at `x[j]` to `e[j]`.
pub open spec fn apply_moves(
    cells: Seq<Option<Card>>,
    e: Seq<DealtPos>,
    x: Seq<DealtPos>,
    n: int,
) -> Seq<Option<Card>>
    decreases n,
{
    if n <= 0 {
        cells
    } else {
        let c = apply_moves(cells, e, x, n - 1);
        c.update(slot_index(e[n - 1]), c[slot_index(x[n - 1])]).update(slot_index(x[n - 1]), None)
    }
}

/// Gaps of the main section filled by `redistribute`.
pub open spec fn redistribute_count(cells: Seq<Option<Card>>) -> int {
    min_len(listed(cells, SlotKind::MainEmpty).len() as int, listed(cells, SlotKind::Extra).len() as int)
}

/// The board after `redistribute`.
pub open spec fn redistributed(cells: Seq<Option<Card>>) -> Seq<Option<Card>> {
    apply_moves(
        cells,
        listed(cells, SlotKind::MainEmpty),
        listed(cells, SlotKind::Extra),
        redistribute_count(cells),
    )
}

/// The moves that `redistribute` reports: card, old slot, new slot.
pub open spec fn redistribute_moves(cells: Seq<Option<Card>>) -> Seq<(Card, DealtPos, DealtPos)> {
    let e = listed(cells, SlotKind::MainEmpty);
    let x = listed(cells, SlotKind::Extra);
    Seq::new(
        redistribute_count(cells) as nat,
        |i: int| (cells[slot_index(x[i])].unwrap(), x[i], e[i]),
    )
}

/// The board after dealing, for each `j < n` in turn, the card `d[d.len() - 1 - j]` to
/// slot `e[j]`.
pub open spec fn apply_deals(
    cells: Seq<Option<Card>>,
    e: Seq<DealtPos>,
    d: Seq<Card>,
    n: int,
) -> Seq<Option<Card>>
    decreases n,
{
    if n <= 0 {
        cells
    } else {
        apply_deals(cells, e, d, n - 1).update(slot_index(e[n - 1]), Some(d[d.len() - n]))
    }
}

/// Gaps of the main section filled by `refill` from a deck `d`.
pub open spec fn refill_count(cells: Seq<Option<Card>>, d: Seq<Card>) -> int {
    min_len(listed(cells, SlotKind::MainEmpty).len() as int, d.len() as int)
}

/// The board after `refill` from a deck `d`.
pub open spec fn refilled(cells: Seq<Option<Card>>, d: Seq<Card>) -> Seq<Option<Card>> {
    apply_deals(cells, listed(cells, SlotKind::MainEmpty), d, refill_count(cells, d))
}

/// The cards that `refill` deals from a deck `d`, with their slots.
pub open spec fn refill_deals(cells: Seq<Option<Card>>, d: Seq<Card>) -> Seq<(Card, DealtPos)> {
    let e = listed(cells, SlotKind::MainEmpty);
    Seq::new(refill_count(cells, d) as nat, |i: int| (d[d.len() - 1 - i], e[i]))
}

/// The slots listed for a kind are slots of that kind, in strictly increasing row-major
/// order, and every slot of that kind is listed.
pub proof fn lemma_collect(cells: Seq<Option<Card>>, kind: SlotKind, k: int)
    requires
        0 <= k <= 18,
    ensures
        forall|i: int|
            0 <= i < collect(cells, kind, k).len() ==> {
                &&& (#[trigger] collect(cells, kind, k)[i]).wf()
                &&& selects(cells, kind, collect(cells, kind, k)[i])
                &&& slot_index(collect(cells, kind, k)[i]) < k
            },
        forall|i: int, j: int|
            0 <= i < j < collect(cells, kind, k).len() ==> slot_index(
                #[trigger] collect(cells, kind, k)[i],
            ) < slot_index(#[trigger] collect(cells, kind, k)[j]),
        forall|p: DealtPos|
            p.wf() && selects(cells, kind, p) && slot_index(p) < k ==> collect(
                cells,
                kind,
                k,
            ).contains(p),
        collect(cells, kind, k).len() <= k,
    decreases k,
{
    if k > 0 {
        lemma_collect(cells, kind, k - 1);
        lemma_slot_basics(k - 1);
        let s = collect(cells, kind, k - 1);
        assert forall|p: DealtPos|
            p.wf() && selects(cells, kind, p) && slot_index(p) < k implies collect(
                cells,
                kind,
                k,
            ).contains(p) by {
            if slot_index(p) < k - 1 {
                let i = choose|i: int| 0 <= i < s.len() && s[i] == p;
                assert(collect(cells, kind, k)[i] == p);
            } else {
                lemma_slot_of_index(p);
                assert(collect(cells, kind, k)[collect(cells, kind, k).len() - 1] == p);
            }
        }
    }
}

/// Facts about the listed slots of a kind: they are of that kind, pairwise different,
/// and every slot of that kind is listed.
pub proof fn lemma_listed(cells: Seq<Option<Card>>, kind: SlotKind)
    ensures
        listed(cells, kind).len() <= 18,
        forall|i: int|
            0 <= i < listed(cells, kind).len() ==> (#[trigger] listed(cells, kind)[i]).wf()
                && selects(cells, kind, listed(cells, kind)[i]),
        forall|i: int, j: int|
            0 <= i < listed(cells, kind).len() && 0 <= j < listed(cells, kind).len() && i != j
                ==> #[trigger] listed(cells, kind)[i] != #[trigger] listed(cells, kind)[j],
        forall|p: DealtPos|
            p.wf() && selects(cells, kind, p) ==> #[trigger] listed(cells, kind).contains(p),
{
    lemma_collect(cells, kind, 18);
    assert forall|p: DealtPos|
        p.wf() && selects(cells, kind, p) implies #[trigger] listed(cells, kind).contains(p) by {
        lemma_slot_of_index(p);
    }
}

/// Moving cards from occupied slots `x` to empty slots `e`, all different, leaves every
/// moved card at its target, empties its source, and leaves other slots alone.
pub proof fn lemma_apply_moves(
    cells: Seq<Option<Card>>,
    e: Seq<DealtPos>,
    x: Seq<DealtPos>,
    n: int,
)
    requires
        cells.len() == 18,
        0 <= n <= e.len(),
        n <= x.len(),
        forall|j: int| 0 <= j < e.len() ==> (#[trigger] e[j]).wf() && cells[slot_index(e[j])] is None,
        forall|j: int| 0 <= j < x.len() ==> (#[trigger] x[j]).wf() && cells[slot_index(x[j])] is Some,
        forall|a: int, b: int|
            0 <= a < e.len() && 0 <= b < e.len() && a != b ==> #[trigger] e[a] != #[trigger] e[b],
        forall|a: int, b: int|
            0 <= a < x.len() && 0 <= b < x.len() && a != b ==> #[trigger] x[a] != #[trigger] x[b],
    ensures
        apply_moves(cells, e, x, n).len() == 18,
        forall|j: int|
            0 <= j < n ==> apply_moves(cells, e, x, n)[slot_index(#[trigger] e[j])]
                == cells[slot_index(x[j])] && apply_moves(cells, e, x, n)[slot_index(x[j])] is None,
        forall|k: int|
            0 <= k < 18 && (forall|j: int| 0 <= j < n ==> k != slot_index(#[trigger] e[j]) && k
                != slot_index(x[j])) ==> #[trigger] apply_moves(cells, e, x, n)[k] == cells[k],
    decreases n,
{
    if n > 0 {
        lemma_apply_moves(cells, e, x, n - 1);
        let c = apply_moves(cells, e, x, n - 1);
        let ie = slot_index(e[n - 1]);
        let ix = slot_index(x[n - 1]);
        lemma_slot_of_index(e[n - 1]);
        lemma_slot_of_index(x[n - 1]);
        assert(ie != ix) by {
            if e[n - 1] == x[n - 1] {
                assert(cells[ie] is None);
            }
            if e[n - 1] != x[n - 1] {
                lemma_slot_index_injective(e[n - 1], x[n - 1]);
            }
        }
        assert forall|j: int| 0 <= j < n - 1 implies ix != slot_index(#[trigger] e[j]) && ix
            != slot_index(x[j]) by {
            if x[n - 1] == e[j] {
                assert(cells[slot_index(e[j])] is None);
            } else {
                lemma_slot_index_injective(x[n - 1], e[j]);
            }
            lemma_slot_index_injective(x[n - 1], x[j]);
        }
        assert forall|j: int| 0 <= j < n - 1 implies ie != slot_index(#[trigger] e[j]) && ie
            != slot_index(x[j]) by {
            lemma_slot_index_injective(e[n - 1], e[j]);
            if e[n - 1] == x[j] {
                assert(cells[slot_index(x[j])] is Some);
            } else {
                lemma_slot_index_injective(e[n - 1], x[j]);
            }
        }
        assert(c[ix] == cells[ix]);
    }
}

/// Dealing to different slots `e` puts each dealt card at its slot and leaves other
/// slots alone.
pub proof fn lemma_apply_deals(cells: Seq<Option<Card>>, e: Seq<DealtPos>, d: Seq<Card>, n: int)
    requires
        cells.len() == 18,
        0 <= n <= e.len(),
        n <= d.len(),
        forall|j: int| 0 <= j < e.len() ==> (#[trigger] e[j]).wf(),
        forall|a: int, b: int|
            0 <= a < e.len() && 0 <= b < e.len() && a != b ==> #[trigger] e[a] != #[trigger] e[b],
    ensures
        apply_deals(cells, e, d, n).len() == 18,
        forall|j: int|
            0 <= j < n ==> apply_deals(cells, e, d, n)[slot_index(#[trigger] e[j])] == Some(
                d[d.len() - 1 - j],
            ),
        forall|k: int|
            0 <= k < 18 && (forall|j: int| 0 <= j < n ==> k != slot_index(#[trigger] e[j]))
                ==> #[trigger] apply_deals(cells, e, d, n)[k] == cells[k],
    decreases n,
{
    if n > 0 {
        lemma_apply_deals(cells, e, d, n - 1);
        lemma_slot_of_index(e[n - 1]);
        assert forall|j: int| 0 <= j < n - 1 implies slot_index(e[n - 1]) != slot_index(
            #[trigger] e[j],
        ) by {
            lemma_slot_index_injective(e[n - 1], e[j]);
        }
    }
}

impl View for Layout {
    type V = Seq<Option<Card>>;

    /// The board's cards in row-major order (18 cells).
    closed spec fn view(&self) -> Seq<Option<Card>> {
        Seq::new(18, |k: int| self.cards[k / 6][k % 6])
    }
}

impl Layout {
    /// The card at a slot of the board.
    pub open spec fn at(self, p: DealtPos) -> Option<Card> {
        self@[slot_index(p)]
    }

    pub proof fn lemma_view_len(self)
        ensures
            self@.len() == 18,
    {
    }

    pub fn new(cards: [[Option<Card>; 6]; 3]) -> (l: Self)
        ensures
            l@.len() == 18,
            forall|k: int| 0 <= k < 18 ==> #[trigger] l@[k] == cards[k / 6][k % 6],
    {
        Self { cards }
    }

    /// The card at a slot.
    pub fn index(&self, p: DealtPos) -> (c: Option<Card>)
        requires
            p.wf(),
        ensures
            c == self.at(p),
    {
        proof {
            lemma_slot_of_index(p);
        }
        self.cards[p.row as usize][p.col as usize]
    }

    /// Puts `c` (or nothing) at a slot.
    pub fn index_mut(&mut self, p: DealtPos, c: Option<Card>)
        requires
            p.wf(),
        ensures
            final(self)@ == old(self)@.update(slot_index(p), c),
    {
        proof {
            lemma_slot_of_index(p);
        }
        self.cards[p.row as usize][p.col as usize] = c;
        proof {
            assert(self@ =~= old(self)@.update(slot_index(p), c));
        }
    }

    /// The board's cards in row-major order.
    fn iter(&self) -> (v: Vec<Option<Card>>)
        ensures
            v@ == self@,
    {
        let mut v: Vec<Option<Card>> = Vec::new();
        let mut k: u8 = 0;
        while k < 18
            invariant
                k <= 18,
                v@ == self@.take(k as int),
            decreases 18 - k,
        {
            proof {
                lemma_slot_basics(k as int);
            }
            let p = DealtPos::new(k / 6, k % 6);
            v.push(self.index(p));
            k = k + 1;
            proof {
                assert(v@ =~= self@.take(k as int));
            }
        }
        proof {
            assert(self@.take(18) =~= self@);
        }
        v
    }

    /// Every slot with its card, in row-major order.
    pub fn enumerate_2d(self) -> (v: Vec<(DealtPos, Option<Card>)>)
        ensures
            v.len() == 18,
            forall|k: int| 0 <= k < 18 ==> #[trigger] v[k] == (slot(k), self@[k]),
    {
        let mut v: Vec<(DealtPos, Option<Card>)> = Vec::new();
        let mut k: u8 = 0;
        while k < 18
            invariant
                k <= 18,
                v.len() == k,
                forall|j: int| 0 <= j < k ==> #[trigger] v[j] == (slot(j), self@[j]),
            decreases 18 - k,
        {
            proof {
                lemma_slot_basics(k as int);
            }
            let p = DealtPos::new(k / 6, k % 6);
            v.push((p, self.index(p)));
            k = k + 1;
        }
        v
    }

    /// Takes the card off a slot.
    pub fn remove(&mut self, p: DealtPos)
        requires
            p.wf(),
        ensures
            final(self)@ == old(self)@.update(slot_index(p), None),
    {
        self.index_mut(p, None);
    }

    /// The slots of a kind, in row-major order.
    fn list(&self, kind: SlotKind) -> (v: Vec<DealtPos>)
        ensures
            v@ == listed(self@, kind),
    {
        let mut v: Vec<DealtPos> = Vec::new();
        let mut k: u8 = 0;
        while k < 18
            invariant
                k <= 18,
                v@ == collect(self@, kind, k as int),
            decreases 18 - k,
        {
            proof {
                lemma_slot_basics(k as int);
            }
            let p = DealtPos::new(k / 6, k % 6);
            let c = self.index(p);
            let keep = match kind {
                SlotKind::Empty => c.is_none(),
                SlotKind::MainEmpty => c.is_none() && p.col() <= 3,
                SlotKind::Extra => c.is_some() && p.col() >= 4,
                SlotKind::Occupied => c.is_some(),
            };
            if keep {
                v.push(p);
            }
            k = k + 1;
        }
        v
    }

    /// The number of cards on the board.
    fn count(&self) -> (n: u16)
        ensures
            n == listed(self@, SlotKind::Occupied).len(),
    {
        let v = self.list(SlotKind::Occupied);
        proof {
            lemma_listed(self@, SlotKind::Occupied);
        }
        v.len() as u16
    }

    /// The slots without a card, in row-major order.
    fn empties(&self) -> (v: Vec<DealtPos>)
        ensures
            v@ == listed(self@, SlotKind::Empty),
    {
        self.list(SlotKind::Empty)
    }

    /// The slots of the extra section that hold a card, in row-major order.
    fn extras(&self) -> (v: Vec<DealtPos>)
        ensures
            v@ == listed(self@, SlotKind::Extra),
    {
        self.list(SlotKind::Extra)
    }

    /// Fills gaps of the main section with cards of the extra section: the i-th card of
    /// the extra section (row-major) goes to the i-th gap of the main section, for as
    /// many as there are of both. Cards of the main section never move; with an empty
    /// extra section no gap is filled. Returns each moved card with its old and its new
    /// slot.
    pub fn redistribute(&mut self) -> (moved: Vec<(Card, DealtPos, DealtPos)>)
        ensures
            final(self)@ == redistributed(old(self)@),
            moved@ == redistribute_moves(old(self)@),
    {
        let empties = self.list(SlotKind::MainEmpty);
        let extras = self.extras();
        let ghost e = empties@;
        let ghost x = extras@;
        let ghost start = self@;
        proof {
            lemma_listed(start, SlotKind::MainEmpty);
            lemma_listed(start, SlotKind::Extra);
        }
        let mut moved: Vec<(Card, DealtPos, DealtPos)> = Vec::new();
        let to_fill = if empties.len() < extras.len() {
            empties.len()
        } else {
            extras.len()
        };
        let mut i: usize = 0;
        while i < to_fill
            invariant
                e == empties@,
                x == extras@,
                e == listed(start, SlotKind::MainEmpty),
                x == listed(start, SlotKind::Extra),
                start.len() == 18,
                forall|j: int|
                    0 <= j < e.len() ==> (#[trigger] e[j]).wf() && start[slot_index(e[j])] is None,
                forall|j: int|
                    0 <= j < x.len() ==> (#[trigger] x[j]).wf() && start[slot_index(x[j])] is Some,
                forall|a: int, b: int|
                    0 <= a < e.len() && 0 <= b < e.len() && a != b ==> #[trigger] e[a]
                        != #[trigger] e[b],
                forall|a: int, b: int|
                    0 <= a < x.len() && 0 <= b < x.len() && a != b ==> #[trigger] x[a]
                        != #[trigger] x[b],
                to_fill == redistribute_count(start),
                to_fill <= e.len(),
                to_fill <= x.len(),
                i <= to_fill,
                self@ == apply_moves(start, e, x, i as int),
                moved@ == redistribute_moves(start).take(i as int),
            decreases to_fill - i,
        {
            let src = extras[i];
            let dst = empties[i];
            proof {
                lemma_apply_moves(start, e, x, i as int);
                lemma_slot_of_index(src);
                assert forall|j: int| 0 <= j < i implies slot_index(src) != slot_index(
                    #[trigger] e[j],
                ) && slot_index(src) != slot_index(x[j]) by {
                    if src == e[j] {
                        assert(start[slot_index(e[j])] is None);
                    } else {
                        lemma_slot_index_injective(src, e[j]);
                    }
                    lemma_slot_index_injective(src, x[j]);
                }
            }
            let c = self.index(src);
            moved.push((c.unwrap(), src, dst));
            self.index_mut(dst, c);
            self.index_mut(src, None);
            i = i + 1;
            proof {
                assert(moved@ =~= redistribute_moves(start).take(i as int));
            }
        }
        proof {
            assert(redistribute_moves(start).take(to_fill as int) =~= redistribute_moves(start));
        }
        moved
    }

    /// Fills gaps of the main section from the deck: the i-th card drawn goes to the
    /// i-th gap (row-major), for as many gaps as there are cards. Returns each dealt card
    /// with its slot.
    pub fn refill(&mut self, deck: &mut Deck) -> (dealt: Vec<(Card, DealtPos)>)
        ensures
            final(self)@ == refilled(old(self)@, old(deck)@),
            dealt@ == refill_deals(old(self)@, old(deck)@),
            final(deck)@ == old(deck)@.take(old(deck)@.len() - refill_count(old(self)@, old(deck)@)),
    {
        let empties = self.list(SlotKind::MainEmpty);
        let ghost e = empties@;
        let ghost d = deck@;
        let ghost start = self@;
        proof {
            lemma_listed(start, SlotKind::MainEmpty);
        }
        let to_fill = if empties.len() < deck.len() {
            empties.len()
        } else {
            deck.len()
        };
        let mut dealt: Vec<(Card, DealtPos)> = Vec::new();
        let mut i: usize = 0;
        while i < to_fill
            invariant
                e == empties@,
                e == listed(start, SlotKind::MainEmpty),
                forall|j: int| 0 <= j < e.len() ==> (#[trigger] e[j]).wf(),
                to_fill == refill_count(start, d),
                to_fill <= e.len(),
                to_fill <= d.len(),
                i <= to_fill,
                deck@ == d.take(d.len() - i),
                self@ == apply_deals(start, e, d, i as int),
                dealt@ == refill_deals(start, d).take(i as int),
            decreases to_fill - i,
        {
            let c = deck.pop().unwrap();
            proof {
                assert(deck@ =~= d.take(d.len() - (i + 1)));
            }
            let dst = empties[i];
            dealt.push((c, dst));
            self.index_mut(dst, Some(c));
            i = i + 1;
            proof {
                assert(dealt@ =~= refill_deals(start, d).take(i as int));
            }
        }
        proof {
            assert(refill_deals(start, d).take(to_fill as int) =~= refill_deals(start, d));
        }
        dealt
    }

    /// Deals up to three cards from the deck into the first empty slots (row-major, main
    /// or extra section). The board must have between three and six empty slots.
    /// Returns each dealt card as a move from the deck to its slot.
    fn extra3(&mut self, deck: &mut Deck) -> (dealt: Vec<(GamePos, GamePos, Card)>)
        requires
            3 <= listed(old(self)@, SlotKind::Empty).len() <= 6,
        ensures
            ({
                let e = listed(old(self)@, SlotKind::Empty);
                let d = old(deck)@;
                let n = min_len(3, d.len() as int);
                &&& dealt.len() == n
                &&& final(deck)@ == d.take(d.len() - n)
                &&& forall|i: int|
                    0 <= i < n ==> #[trigger] dealt[i] == (
                        GamePos::Deck,
                        GamePos::Dealt(e[i]),
                        d[d.len() - 1 - i],
                    )
                &&& final(self)@ == apply_deals(old(self)@, e, d, n)
            }),
    {
        let empties = self.empties();
        let ghost e = empties@;
        let ghost d = deck@;
        let ghost start = self@;
        proof {
            lemma_listed(start, SlotKind::Empty);
        }
        let to_fill = if 3 < deck.len() {
            3
        } else {
            deck.len()
        };
        let mut dealt: Vec<(GamePos, GamePos, Card)> = Vec::new();
        let mut i: usize = 0;
        while i < to_fill
            invariant
                e == empties@,
                forall|j: int| 0 <= j < e.len() ==> (#[trigger] e[j]).wf(),
                3 <= e.len(),
                to_fill == min_len(3, d.len() as int),
                i <= to_fill,
                deck@ == d.take(d.len() - i),
                dealt.len() == i,
                forall|j: int|
                    0 <= j < i ==> #[trigger] dealt[j] == (
                        GamePos::Deck,
                        GamePos::Dealt(e[j]),
                        d[d.len() - 1 - j],
                    ),
                self@ == apply_deals(start, e, d, i as int),
            decreases to_fill - i,
        {
            let c = deck.pop().unwrap();
            proof {
                assert(deck@ =~= d.take(d.len() - (i + 1)));
            }
            let dst = empties[i];
            dealt.push((GamePos::Deck, GamePos::from(dst), c));
            self.index_mut(dst, Some(c));
            i = i + 1;
        }
        dealt
    }
}

/// `redistribute` moves the i-th card of the extra section to the i-th gap of the main
/// section and empties its old slot; every other slot keeps its card.
pub proof fn lemma_redistributed(cells: Seq<Option<Card>>)
    requires
        cells.len() == 18,
    ensures
        ({
            let e = listed(cells, SlotKind::MainEmpty);
            let x = listed(cells, SlotKind::Extra);
            let n = redistribute_count(cells);
            let r = redistributed(cells);
            &&& r.len() == 18
            &&& forall|j: int|
                0 <= j < n ==> r[slot_index(#[trigger] e[j])] == cells[slot_index(x[j])]
                    && r[slot_index(x[j])] is None
            &&& forall|k: int|
                0 <= k < 18 && (forall|j: int| 0 <= j < n ==> k != slot_index(#[trigger] e[j]) && k
                    != slot_index(x[j])) ==> #[trigger] r[k] == cells[k]
        }),
{
    lemma_listed(cells, SlotKind::MainEmpty);
    lemma_listed(cells, SlotKind::Extra);
    lemma_apply_moves(
        cells,
        listed(cells, SlotKind::MainEmpty),
        listed(cells, SlotKind::Extra),
        redistribute_count(cells),
    );
}

/// `refill` deals the i-th card drawn to the i-th gap of the main section; every other
/// slot keeps its card.
pub proof fn lemma_refilled(cells: Seq<Option<Card>>, d: Seq<Card>)
    requires
        cells.len() == 18,
    ensures
        ({
            let e = listed(cells, SlotKind::MainEmpty);
            let n = refill_count(cells, d);
            let r = refilled(cells, d);
            &&& r.len() == 18
            &&& forall|j: int|
                0 <= j < n ==> r[slot_index(#[trigger] e[j])] == Some(d[d.len() - 1 - j])
            &&& forall|k: int|
                0 <= k < 18 && (forall|j: int| 0 <= j < n ==> k != slot_index(#[trigger] e[j]))
                    ==> #[trigger] r[k] == cells[k]
        }),
{
    lemma_listed(cells, SlotKind::MainEmpty);
    lemma_apply_deals(cells, listed(cells, SlotKind::MainEmpty), d, refill_count(cells, d));
}

/// The card in a cell, as a multiset: one card or none.
pub open spec fn cell_cards(c: Option<Card>) -> Multiset<Card> {
    match c {
        Some(x) => Multiset::singleton(x),
        None => Multiset::empty(),
    }
}

/// The cards lying in `cells`, each counted as often as it lies there.
pub open spec fn cards_on(cells: Seq<Option<Card>>) -> Multiset<Card>
    decreases cells.len(),
{
    if cells.len() == 0 {
        Multiset::empty()
    } else {
        cards_on(cells.drop_last()).add(cell_cards(cells.last()))
    }
}

/// Replacing the content of one cell swaps its card for the new one.
pub proof fn lemma_cards_on_update(s: Seq<Option<Card>>, i: int, v: Option<Card>)
    requires
        0 <= i < s.len(),
    ensures
        cards_on(s.update(i, v)).add(cell_cards(s[i])) == cards_on(s).add(cell_cards(v)),
    decreases s.len(),
{
    broadcast use vstd::multiset::group_multiset_axioms;

    let t = s.update(i, v);
    if i == s.len() - 1 {
        assert(t.drop_last() =~= s.drop_last());
        assert(t.last() == v);
        assert(s.last() == s[i]);
        let r = cards_on(s.drop_last());
        assert(cards_on(t) == r.add(cell_cards(v)));
        assert(cards_on(s) == r.add(cell_cards(s[i])));
        assert(r.add(cell_cards(v)).add(cell_cards(s[i])) =~= r.add(cell_cards(s[i])).add(cell_cards(v)));
    } else {
        lemma_cards_on_update(s.drop_last(), i, v);
        assert(t.drop_last() =~= s.drop_last().update(i, v));
        assert(t.last() == s.last());
        assert(s.drop_last()[i] == s[i]);
        let a = cards_on(s.drop_last().update(i, v));
        let b = cards_on(s.drop_last());
        assert(a.add(cell_cards(s[i])) == b.add(cell_cards(v)));
        assert(cards_on(t) == a.add(cell_cards(s.last())));
        assert(cards_on(s) == b.add(cell_cards(s.last())));
        assert(a.add(cell_cards(s.last())).add(cell_cards(s[i])) =~= a.add(cell_cards(s[i])).add(
            cell_cards(s.last()),
        ));
        assert(b.add(cell_cards(s.last())).add(cell_cards(v)) =~= b.add(cell_cards(v)).add(
            cell_cards(s.last()),
        ));
    }
}

/// Moving cards from occupied slots `x` to empty slots `e`, all different, keeps the
/// cards on the board.
pub proof fn lemma_moves_keep_cards(cells: Seq<Option<Card>>, e: Seq<DealtPos>, x: Seq<DealtPos>, n: int)
    requires
        cells.len() == 18,
        0 <= n <= e.len(),
        n <= x.len(),
        forall|j: int| 0 <= j < e.len() ==> (#[trigger] e[j]).wf() && cells[slot_index(e[j])] is None,
        forall|j: int| 0 <= j < x.len() ==> (#[trigger] x[j]).wf() && cells[slot_index(x[j])] is Some,
        forall|a: int, b: int|
            0 <= a < e.len() && 0 <= b < e.len() && a != b ==> #[trigger] e[a] != #[trigger] e[b],
        forall|a: int, b: int|
            0 <= a < x.len() && 0 <= b < x.len() && a != b ==> #[trigger] x[a] != #[trigger] x[b],
    ensures
        cards_on(apply_moves(cells, e, x, n)) == cards_on(cells),
    decreases n,
{
    broadcast use vstd::multiset::group_multiset_axioms;

    if n > 0 {
        lemma_moves_keep_cards(cells, e, x, n - 1);
        lemma_apply_moves(cells, e, x, n - 1);
        let c = apply_moves(cells, e, x, n - 1);
        let ie = slot_index(e[n - 1]);
        let ix = slot_index(x[n - 1]);
        lemma_slot_of_index(e[n - 1]);
        lemma_slot_of_index(x[n - 1]);
        assert(ie != ix) by {
            if e[n - 1] == x[n - 1] {
                assert(cells[ie] is None);
            } else {
                lemma_slot_index_injective(e[n - 1], x[n - 1]);
            }
        }
        assert forall|j: int| 0 <= j < n - 1 implies ie != slot_index(#[trigger] e[j]) && ie
            != slot_index(x[j]) by {
            lemma_slot_index_injective(e[n - 1], e[j]);
            if e[n - 1] == x[j] {
                assert(cells[slot_index(x[j])] is Some);
            } else {
                lemma_slot_index_injective(e[n - 1], x[j]);
            }
        }
        assert(c[ie] == cells[ie]);
        let c1 = c.update(ie, c[ix]);
        lemma_cards_on_update(c, ie, c[ix]);
        lemma_cards_on_update(c1, ix, None);
        assert(c1[ix] == c[ix]);
        let c2 = c1.update(ix, None);
        assert(c2 == apply_moves(cells, e, x, n));
        assert(cell_cards(c[ie]) =~= Multiset::<Card>::empty());
        assert(cell_cards(None) =~= Multiset::<Card>::empty());
        assert(cards_on(c1) =~= cards_on(c).add(cell_cards(c[ix])));
        assert(cards_on(c2).add(cell_cards(c[ix])) =~= cards_on(c1));
        assert forall|k: Card| #[trigger] cards_on(c2).count(k) == cards_on(c).count(k) by {
            assert(cards_on(c2).add(cell_cards(c[ix])).count(k) == cards_on(c).add(cell_cards(c[ix])).count(k));
        }
        assert(cards_on(c2) =~= cards_on(c));
    }
}

/// Dealing the top `n` cards of `d` to empty slots `e`, all different, adds those cards
/// to the board.
pub proof fn lemma_deals_add_cards(cells: Seq<Option<Card>>, e: Seq<DealtPos>, d: Seq<Card>, n: int)
    requires
        cells.len() == 18,
        0 <= n <= e.len(),
        n <= d.len(),
        forall|j: int| 0 <= j < e.len() ==> (#[trigger] e[j]).wf() && cells[slot_index(e[j])] is None,
        forall|a: int, b: int|
            0 <= a < e.len() && 0 <= b < e.len() && a != b ==> #[trigger] e[a] != #[trigger] e[b],
    ensures
        cards_on(apply_deals(cells, e, d, n)) == cards_on(cells).add(
            d.subrange(d.len() - n, d.len() as int).to_multiset(),
        ),
    decreases n,
{
    broadcast use vstd::multiset::group_multiset_axioms;
    broadcast use vstd::seq_lib::group_to_multiset_ensures;

    if n == 0 {
        assert(d.subrange(d.len() as int, d.len() as int) =~= Seq::<Card>::empty());
        assert(cards_on(cells).add(Seq::<Card>::empty().to_multiset()) =~= cards_on(cells));
    } else {
        lemma_deals_add_cards(cells, e, d, n - 1);
        lemma_apply_deals(cells, e, d, n - 1);
        let c = apply_deals(cells, e, d, n - 1);
        let ie = slot_index(e[n - 1]);
        lemma_slot_of_index(e[n - 1]);
        assert forall|j: int| 0 <= j < n - 1 implies ie != slot_index(#[trigger] e[j]) by {
            lemma_slot_index_injective(e[n - 1], e[j]);
        }
        assert(c[ie] == cells[ie]);
        let card = d[d.len() - n];
        lemma_cards_on_update(c, ie, Some(card));
        let top = d.subrange(d.len() - n, d.len() as int);
        let top1 = d.subrange(d.len() - (n - 1), d.len() as int);
        assert(top =~= seq![card] + top1);
        vstd::seq_lib::lemma_multiset_commutative(seq![card], top1);
        assert(seq![card].to_multiset() =~= Multiset::singleton(card)) by {
            assert(seq![card] =~= Seq::<Card>::empty().push(card));
        }
        assert(cell_cards(c[ie]) =~= Multiset::<Card>::empty());
        assert(apply_deals(cells, e, d, n) == c.update(ie, Some(card)));
        assert(cards_on(apply_deals(cells, e, d, n)) =~= cards_on(c).add(Multiset::singleton(card)));
        assert(top.to_multiset() =~= Multiset::singleton(card).add(top1.to_multiset()));
        assert(cards_on(apply_deals(cells, e, d, n)) =~= cards_on(cells).add(top.to_multiset()));
    }
}

/// `redistribute` keeps the cards on the board.
pub proof fn lemma_redistributed_keeps_cards(cells: Seq<Option<Card>>)
    requires
        cells.len() == 18,
    ensures
        cards_on(redistributed(cells)) == cards_on(cells),
{
    lemma_listed(cells, SlotKind::MainEmpty);
    lemma_listed(cells, SlotKind::Extra);
    lemma_moves_keep_cards(
        cells,
        listed(cells, SlotKind::MainEmpty),
        listed(cells, SlotKind::Extra),
        redistribute_count(cells),
    );
}

/// `refill` adds the cards it draws (the top of the deck) to the board.
pub proof fn lemma_refilled_adds_cards(cells: Seq<Option<Card>>, d: Seq<Card>)
    requires
        cells.len() == 18,
    ensures
        cards_on(refilled(cells, d)) == cards_on(cells).add(
            d.subrange(d.len() - refill_count(cells, d), d.len() as int).to_multiset(),
        ),
{
    lemma_listed(cells, SlotKind::MainEmpty);
    lemma_deals_add_cards(cells, listed(cells, SlotKind::MainEmpty), d, refill_count(cells, d));
}

} // verus!
