use vstd::prelude::*;
use rand::seq::SliceRandom;

verus! {

#[derive(PartialEq, Eq, Structural, PartialOrd, Ord, Copy, Clone, Debug, Hash)]
pub enum CardColor {
    Color1,
    Color2,
    Color3,
}

#[derive(PartialEq, Eq, Structural, PartialOrd, Ord, Copy, Clone, Debug, Hash)]
pub enum CardShape {
    Oval,
    Diamond,
    Squiggle,
}

#[derive(PartialEq, Eq, Structural, PartialOrd, Ord, Copy, Clone, Debug, Hash)]
pub enum CardNumber {
    One,
    Two,
    Three,
}

#[derive(PartialEq, Eq, Structural, PartialOrd, Ord, Copy, Clone, Debug, Hash)]
pub enum CardFill {
    Solid,
    Striped,
    Empty,
}

#[derive(PartialEq, Eq, Structural, PartialOrd, Ord, Copy, Clone, Debug, Hash)]
pub struct Card {
    pub color: CardColor,
    pub shape: CardShape,
    pub number: CardNumber,
    pub fill: CardFill,
}

pub open spec fn color_index(c: CardColor) -> int {
    match c {
        CardColor::Color1 => 0,
        CardColor::Color2 => 1,
        CardColor::Color3 => 2,
    }
}

pub open spec fn shape_index(s: CardShape) -> int {
    match s {
        CardShape::Oval => 0,
        CardShape::Diamond => 1,
        CardShape::Squiggle => 2,
    }
}

pub open spec fn number_index(n: CardNumber) -> int {
    match n {
        CardNumber::One => 0,
        CardNumber::Two => 1,
        CardNumber::Three => 2,
    }
}

pub open spec fn fill_index(f: CardFill) -> int {
    match f {
        CardFill::Solid => 0,
        CardFill::Striped => 1,
        CardFill::Empty => 2,
    }
}

pub open spec fn color_of(i: int) -> CardColor {
    if i == 0 {
        CardColor::Color1
    } else if i == 1 {
        CardColor::Color2
    } else {
        CardColor::Color3
    }
}

pub open spec fn shape_of(i: int) -> CardShape {
    if i == 0 {
        CardShape::Oval
    } else if i == 1 {
        CardShape::Diamond
    } else {
        CardShape::Squiggle
    }
}

pub open spec fn number_of(i: int) -> CardNumber {
    if i == 0 {
        CardNumber::One
    } else if i == 1 {
        CardNumber::Two
    } else {
        CardNumber::Three
    }
}

pub open spec fn fill_of(i: int) -> CardFill {
    if i == 0 {
        CardFill::Solid
    } else if i == 1 {
        CardFill::Striped
    } else {
        CardFill::Empty
    }
}

/// Position of a card in the full deck: color, then shape, then number, then fill,
/// each in declaration order.
pub open spec fn card_index(c: Card) -> int {
    27 * color_index(c.color) + 9 * shape_index(c.shape) + 3 * number_index(c.number)
        + fill_index(c.fill)
}

/// The card at position `i` of the full deck.
pub open spec fn card_at(i: int) -> Card {
    Card {
        color: color_of(i / 27),
        shape: shape_of((i / 9) % 3),
        number: number_of((i / 3) % 3),
        fill: fill_of(i % 3),
    }
}

/// The 81 cards, every combination of the four attributes once, in order.
pub open spec fn full_deck() -> Seq<Card> {
    Seq::new(81, |i: int| card_at(i))
}

/// The numeric value of a card number: 1, 2 or 3.
pub open spec fn number_value(n: CardNumber) -> int {
    number_index(n) + 1
}

pub fn color_from(i: u8) -> (c: CardColor)
    requires
        i < 3,
    ensures
        c == color_of(i as int),
{
    if i == 0 {
        CardColor::Color1
    } else if i == 1 {
        CardColor::Color2
    } else {
        CardColor::Color3
    }
}

pub fn shape_from(i: u8) -> (s: CardShape)
    requires
        i < 3,
    ensures
        s == shape_of(i as int),
{
    if i == 0 {
        CardShape::Oval
    } else if i == 1 {
        CardShape::Diamond
    } else {
        CardShape::Squiggle
    }
}

pub fn number_from(i: u8) -> (n: CardNumber)
    requires
        i < 3,
    ensures
        n == number_of(i as int),
{
    if i == 0 {
        CardNumber::One
    } else if i == 1 {
        CardNumber::Two
    } else {
        CardNumber::Three
    }
}

pub fn fill_from(i: u8) -> (f: CardFill)
    requires
        i < 3,
    ensures
        f == fill_of(i as int),
{
    if i == 0 {
        CardFill::Solid
    } else if i == 1 {
        CardFill::Striped
    } else {
        CardFill::Empty
    }
}

impl CardColor {
    /// Position of the color in declaration order.
    pub fn index(self) -> (i: u8)
        ensures
            i == color_index(self),
    {
        match self {
            CardColor::Color1 => 0,
            CardColor::Color2 => 1,
            CardColor::Color3 => 2,
        }
    }

    /// The name the color is printed with.
    pub fn name(&self) -> (s: &'static str)
        ensures
            s@ == match *self {
                CardColor::Color1 => "Color1"@,
                CardColor::Color2 => "Color2"@,
                CardColor::Color3 => "Color3"@,
            },
    {
        match self {
            CardColor::Color1 => "Color1",
            CardColor::Color2 => "Color2",
            CardColor::Color3 => "Color3",
        }
    }
}

impl CardShape {
    /// Position of the shape in declaration order.
    pub fn index(self) -> (i: u8)
        ensures
            i == shape_index(self),
    {
        match self {
            CardShape::Oval => 0,
            CardShape::Diamond => 1,
            CardShape::Squiggle => 2,
        }
    }

    /// The name the shape is printed with.
    pub fn name(&self) -> (s: &'static str)
        ensures
            s@ == match *self {
                CardShape::Oval => "Oval"@,
                CardShape::Diamond => "Diamond"@,
                CardShape::Squiggle => "Squiggle"@,
            },
    {
        match self {
            CardShape::Oval => "Oval",
            CardShape::Diamond => "Diamond",
            CardShape::Squiggle => "Squiggle",
        }
    }
}

impl CardNumber {
    /// Position of the number in declaration order.
    pub fn index(self) -> (i: u8)
        ensures
            i == number_index(self),
    {
        match self {
            CardNumber::One => 0,
            CardNumber::Two => 1,
            CardNumber::Three => 2,
        }
    }

    /// The name the number is printed with.
    pub fn name(&self) -> (s: &'static str)
        ensures
            s@ == match *self {
                CardNumber::One => "One"@,
                CardNumber::Two => "Two"@,
                CardNumber::Three => "Three"@,
            },
    {
        match self {
            CardNumber::One => "One",
            CardNumber::Two => "Two",
            CardNumber::Three => "Three",
        }
    }

    /// The numeric value of the number: 1, 2 or 3.
    pub fn value(self) -> (v: i16)
        ensures
            v == number_value(self),
    {
        match self {
            CardNumber::One => 1,
            CardNumber::Two => 2,
            CardNumber::Three => 3,
        }
    }
}

impl CardFill {
    /// Position of the fill in declaration order.
    pub fn index(self) -> (i: u8)
        ensures
            i == fill_index(self),
    {
        match self {
            CardFill::Solid => 0,
            CardFill::Striped => 1,
            CardFill::Empty => 2,
        }
    }

    /// The name the fill is printed with.
    pub fn name(&self) -> (s: &'static str)
        ensures
            s@ == match *self {
                CardFill::Solid => "Solid"@,
                CardFill::Striped => "Striped"@,
                CardFill::Empty => "Empty"@,
            },
    {
        match self {
            CardFill::Solid => "Solid",
            CardFill::Striped => "Striped",
            CardFill::Empty => "Empty",
        }
    }
}

impl Card {
    /// The printed form of a card: `Card{` followed by the names of its color, shape,
    /// number and fill, and `}`.
    pub fn to_text(&self) -> (s: String)
        ensures
            s@ == "Card{"@ + self.color.name_spec() + self.shape.name_spec()
                + self.number.name_spec() + self.fill.name_spec() + "}"@,
    {
        let mut s = String::from_str("Card{");
        s.append(self.color.name());
        s.append(self.shape.name());
        s.append(self.number.name());
        s.append(self.fill.name());
        s.append("}");
        s
    }
}

impl CardColor {
    pub open spec fn name_spec(self) -> Seq<char> {
        match self {
            CardColor::Color1 => "Color1"@,
            CardColor::Color2 => "Color2"@,
            CardColor::Color3 => "Color3"@,
        }
    }
}

impl CardShape {
    pub open spec fn name_spec(self) -> Seq<char> {
        match self {
            CardShape::Oval => "Oval"@,
            CardShape::Diamond => "Diamond"@,
            CardShape::Squiggle => "Squiggle"@,
        }
    }
}

impl CardNumber {
    pub open spec fn name_spec(self) -> Seq<char> {
        match self {
            CardNumber::One => "One"@,
            CardNumber::Two => "Two"@,
            CardNumber::Three => "Three"@,
        }
    }
}

impl CardFill {
    pub open spec fn name_spec(self) -> Seq<char> {
        match self {
            CardFill::Solid => "Solid"@,
            CardFill::Striped => "Striped"@,
            CardFill::Empty => "Empty"@,
        }
    }
}

/// Every combination of the four attributes exactly once: colors outermost, fills
/// innermost, each in declaration order.
pub fn all_cards() -> (cards: Vec<Card>)
    ensures
        cards@ == full_deck(),
{
    let mut cards: Vec<Card> = Vec::with_capacity(81);
    let mut i: u8 = 0;
    while i < 81
        invariant
            i <= 81,
            cards@ == full_deck().take(i as int),
        decreases 81 - i,
    {
        let c = Card {
            color: color_from(i / 27),
            shape: shape_from((i / 9) % 3),
            number: number_from((i / 3) % 3),
            fill: fill_from(i % 3),
        };
        cards.push(c);
        i = i + 1;
        proof {
            assert(cards@ =~= full_deck().take(i as int));
        }
    }
    proof {
        assert(full_deck().take(81) =~= full_deck());
    }
    cards
}

/// Puts the cards in an order chosen at random.
///
/// Calls `SliceRandom::shuffle` of `rand` with the thread-local generator. Its source
/// only swaps elements, so the cards that come back are the ones that went in, in some
/// order; which order depends on chance and is not stated.
#[verifier::external_body]
fn shuffle_cards(cards: &mut Vec<Card>)
    ensures
        final(cards)@.len() == old(cards)@.len(),
        final(cards)@.to_multiset() == old(cards)@.to_multiset(),
{
    cards.shuffle(&mut rand::thread_rng());
}

#[derive(Clone, Debug)]
pub struct Deck {
    cards: Vec<Card>,
}

impl View for Deck {
    type V = Seq<Card>;

    /// The cards of the deck, bottom first: the last one is drawn next.
    closed spec fn view(&self) -> Seq<Card> {
        self.cards@
    }
}

impl Deck {
    /// A freshly shuffled deck of all 81 cards.
    pub fn new() -> (d: Deck)
        ensures
            d@.len() == 81,
            d@.to_multiset() == full_deck().to_multiset(),
    {
        let mut cards = all_cards();
        shuffle_cards(&mut cards);
        Deck { cards }
    }

    /// A deck holding the given cards, the last one on top.
    pub fn from_cards(cards: Vec<Card>) -> (d: Deck)
        ensures
            d@ == cards@,
    {
        Deck { cards }
    }

    pub fn len(&self) -> (n: usize)
        ensures
            n == self@.len(),
    {
        self.cards.len()
    }

    /// Draws the top card, if there is one.
    pub fn pop(&mut self) -> (c: Option<Card>)
        ensures
            old(self)@.len() == 0 ==> c is None && final(self)@ == old(self)@,
            old(self)@.len() > 0 ==> c == Some(old(self)@.last()) && final(self)@
                == old(self)@.drop_last(),
    {
        self.cards.pop()
    }

    pub fn is_empty(&self) -> (b: bool)
        ensures
            b == (self@.len() == 0),
    {
        self.cards.is_empty()
    }

    /// The top three cards, bottom-most first. The deck must hold more than `n` cards
    /// and at least three.
    pub fn peek_n(&self, n: usize) -> (top: &[Card])
        requires
            n < self@.len(),
            self@.len() >= 3,
        ensures
            top@ == self@.subrange(self@.len() - 3, self@.len() as int),
    {
        let len = self.cards.len();
        vstd::slice::slice_subrange(self.cards.as_slice(), len - 3, len)
    }

    /// Draws the top three cards, top first, if the deck holds at least three.
    pub fn take3(&mut self) -> (r: Option<(Card, Card, Card)>)
        ensures
            old(self)@.len() < 3 ==> r is None && final(self)@ == old(self)@,
            old(self)@.len() >= 3 ==> {
                let n = old(self)@.len();
                &&& r == Some((old(self)@[n - 1], old(self)@[n - 2], old(self)@[n - 3]))
                &&& final(self)@ == old(self)@.take(n - 3)
            },
    {
        if self.cards.len() >= 3 {
            let a = self.pop().unwrap();
            let b = self.pop().unwrap();
            let c = self.pop().unwrap();
            proof {
                assert(self@ =~= old(self)@.take(old(self)@.len() - 3));
            }
            Some((a, b, c))
        } else {
            None
        }
    }
}

/// Each card of the full deck sits at its own index, so the full deck holds every card
/// exactly once.
pub proof fn lemma_full_deck_index(c: Card)
    ensures
        0 <= card_index(c) < 81,
        card_at(card_index(c)) == c,
        full_deck()[card_index(c)] == c,
        full_deck().contains(c),
{
    let i = card_index(c);
    assert(i / 27 == color_index(c.color));
    assert((i / 9) % 3 == shape_index(c.shape));
    assert((i / 3) % 3 == number_index(c.number));
    assert(i % 3 == fill_index(c.fill));
    assert(full_deck()[i] == c);
}

/// The full deck holds 81 different cards.
pub proof fn lemma_full_deck_distinct()
    ensures
        full_deck().len() == 81,
        full_deck().no_duplicates(),
{
    assert forall|i: int, j: int|
        0 <= i < 81 && 0 <= j < 81 && i != j implies full_deck()[i] != full_deck()[j] by {
        lemma_card_index_of_at(i);
        lemma_card_index_of_at(j);
    }
}

proof fn lemma_card_index_of_at(i: int)
    requires
        0 <= i < 81,
    ensures
        card_index(card_at(i)) == i,
{
    assert(0 <= i / 27 < 3);
    assert(0 <= (i / 9) % 3 < 3);
    assert(0 <= (i / 3) % 3 < 3);
    assert(0 <= i % 3 < 3);
    assert(color_index(color_of(i / 27)) == i / 27);
    assert(shape_index(shape_of((i / 9) % 3)) == (i / 9) % 3);
    assert(number_index(number_of((i / 3) % 3)) == (i / 3) % 3);
    assert(fill_index(fill_of(i % 3)) == i % 3);
    assert(27 * (i / 27) + 9 * ((i / 9) % 3) + 3 * ((i / 3) % 3) + i % 3 == i);
}

} // verus!
