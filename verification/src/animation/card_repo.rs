use vstd::prelude::*;
use vstd::string::StrSliceExecFns;

use crate::config::{Color, Scale, COLOR_1, COLOR_2, COLOR_3, SHAPE_SPACING, CARD_BG, CARD_BORDER, TERM_BG};
use crate::deck::{Card, CardColor, CardFill, CardNumber, CardShape, all_cards, full_deck, number_value};
use crate::pos::TermPos;
use crate::sprites::SpriteCell;
use crate::sprites::img::Img;
use crate::termchar::TermChar;
use crate::sprites::{Stn, new_stn};
use crate::sprites::sprite::Sprite;
use crate::sprites::sprite_tree::SpriteTree;
use crate::util::{Visibility, Clickability};

verus! {

/// The color a card's shapes are drawn in.
pub open spec fn raw_color(c: Card) -> Color {
    match c.color {
        CardColor::Color1 => COLOR_1,
        CardColor::Color2 => COLOR_2,
        CardColor::Color3 => COLOR_3,
    }
}

/// The color a card's shapes are drawn in.
/// Cards of different colors are drawn in different colors, and cards of one color in
/// one color: the drawing color tells the three card colors apart.
pub proof fn lemma_colors_told_apart(a: Card, b: Card)
    ensures
        (raw_color(a) == raw_color(b)) <==> (a.color == b.color),
{
}

pub fn get_raw_color(c: Card) -> (col: Color)
    ensures
        col == raw_color(c),
{
    match c.color {
        CardColor::Color1 => COLOR_1,
        CardColor::Color2 => COLOR_2,
        CardColor::Color3 => COLOR_3,
    }
}

/// The background inside a card's shapes: the shape color for a solid card, `bg`
/// otherwise.
pub fn get_bg(c: Card, bg: Color) -> (col: Color)
    ensures
        col == if c.fill == CardFill::Solid {
            raw_color(c)
        } else {
            bg
        },
{
    let col = get_raw_color(c);
    match c.fill {
        CardFill::Solid => col,
        _ => bg,
    }
}

/// The drawing of a card's shape at the given scale.
pub fn get_raw_shape(c: Card, s: Scale) -> (r: &'static str)
    ensures
        r == match c.shape {
            CardShape::Oval => s.RAW_OVAL,
            CardShape::Diamond => s.RAW_DIAMOND,
            CardShape::Squiggle => s.RAW_SQUIGGLE,
        },
{
    match c.shape {
        CardShape::Oval => s.RAW_OVAL,
        CardShape::Diamond => s.RAW_DIAMOND,
        CardShape::Squiggle => s.RAW_SQUIGGLE,
    }
}

/// The characters a shape drawing may hold for a card: anything on a solid card;
/// otherwise a space, `X` (drawn solid) or `o` (the card's fill).
pub open spec fn raw_char_ok(card: Card, ch: char) -> bool {
    ch == ' ' || card.fill == CardFill::Solid || ch == 'X' || ch == 'o'
}

/// The cell for the character `ch` of a shape drawing on `card`: a space is the card's
/// background; on a solid card, and for `X`, a cell of the shape color; for `o`, a
/// cross in the shape color on a striped card and the card's background on an empty
/// one.
pub open spec fn raw_char(card: Card, ch: char, colr: Color, card_bg: Color) -> SpriteCell {
    if ch == ' ' {
        SpriteCell::Opaque(TermChar::Bg(card_bg))
    } else if card.fill == CardFill::Solid || ch == 'X' {
        SpriteCell::Opaque(TermChar::Bg(colr))
    } else if card.fill == CardFill::Striped {
        SpriteCell::Opaque(TermChar::Fg { c: '╳', fg: colr, bg: card_bg })
    } else {
        SpriteCell::Opaque(TermChar::Bg(card_bg))
    }
}

/// The cell for the character `ch` of a shape drawing on `card` (see `raw_char`).
pub fn get_raw_char(card: Card, ch: char, colr: Color, card_bg: Color) -> (cell: SpriteCell)
    requires
        raw_char_ok(card, ch),
    ensures
        cell == raw_char(card, ch, colr, card_bg),
{
    if ch == ' ' {
        SpriteCell::Opaque(TermChar::new(' ', card_bg, card_bg))
    } else if card.fill == CardFill::Solid {
        SpriteCell::Opaque(TermChar::new(' ', colr, colr))
    } else if ch == 'X' {
        SpriteCell::Opaque(TermChar::new(' ', colr, colr))
    } else if card.fill == CardFill::Striped {
        SpriteCell::Opaque(TermChar::new('╳', colr, card_bg))
    } else {
        SpriteCell::Opaque(TermChar::new(' ', card_bg, card_bg))
    }
}

/// How the characters of a text become cells: as themselves in `fg` on `bg` (a space
/// as a blank cell of `bg`), or as the parts of a card's shape (see `raw_char`).
#[derive(Clone, Copy, Debug)]
pub enum Brush {
    Text(Color, Color),
    Shape(Card, Color, Color),
}

/// The cell a brush paints for the character `ch`.
pub open spec fn brush_cell(b: Brush, ch: char) -> SpriteCell {
    match b {
        Brush::Text(fg, bg) => SpriteCell::Opaque(
            if ch == ' ' {
                TermChar::Bg(bg)
            } else {
                TermChar::Fg { c: ch, fg, bg }
            },
        ),
        Brush::Shape(card, colr, bg) => raw_char(card, ch, colr, bg),
    }
}

/// Where a walk over a text from `start` stands after the characters `cs`, as (row,
/// column): a newline goes one row down, back to `start`'s column; any other character
/// goes one column right.
pub open spec fn walk_pos(start: TermPos, cs: Seq<char>) -> (int, int)
    decreases cs.len(),
{
    if cs.len() == 0 {
        (start.y as int, start.x as int)
    } else {
        let p = walk_pos(start, cs.drop_last());
        if cs.last() == '\n' {
            (p.0 + 1, start.x as int)
        } else {
            (p.0, p.1 + 1)
        }
    }
}

/// The picture `v` with the cell at (`y`, `x`) set to `c` where that lies in it.
pub open spec fn put(v: Seq<Seq<SpriteCell>>, y: int, x: int, c: SpriteCell) -> Seq<Seq<SpriteCell>> {
    if 0 <= y < v.len() && 0 <= x < v[y].len() {
        v.update(y, v[y].update(x, c))
    } else {
        v
    }
}

/// The character is painted (rather than only stepped over): it is not a newline, and
/// not a space when spaces are `clear`.
pub open spec fn paints(ch: char, clear: bool) -> bool {
    ch != '\n' && !(clear && ch == ' ')
}

/// The picture `v` after the text `cs` is painted on it from `start` with `b`: each
/// painted character (see `paints`) sets the cell where the walk stands.
pub open spec fn painted(v: Seq<Seq<SpriteCell>>, start: TermPos, cs: Seq<char>, b: Brush, clear: bool) -> Seq<
    Seq<SpriteCell>,
>
    decreases cs.len(),
{
    if cs.len() == 0 {
        v
    } else {
        let prev = painted(v, start, cs.drop_last(), b, clear);
        let p = walk_pos(start, cs.drop_last());
        if paints(cs.last(), clear) {
            put(prev, p.0, p.1, brush_cell(b, cs.last()))
        } else {
            prev
        }
    }
}

/// The walk over `cs` from `start` stays within `i16`, every painted character lands
/// on a position with no negative coordinate, and a shape brush meets only characters
/// it knows.
pub open spec fn paint_ok(start: TermPos, cs: Seq<char>, b: Brush, clear: bool) -> bool {
    &&& forall|k: int|
        0 <= k <= cs.len() ==> #[trigger] walk_pos(start, cs.take(k)).0 <= i16::MAX && walk_pos(
            start,
            cs.take(k),
        ).1 <= i16::MAX
    &&& forall|k: int|
        0 <= k < cs.len() && paints(#[trigger] cs[k], clear) ==> walk_pos(start, cs.take(k)).0 >= 0
            && walk_pos(start, cs.take(k)).1 >= 0
    &&& b matches Brush::Shape(card, _, _) ==> forall|k: int|
        0 <= k < cs.len() && paints(#[trigger] cs[k], clear) ==> raw_char_ok(card, cs[k])
}

/// Paints the text `s` on `img` from `pos` with `b`, skipping spaces when `clear`.
fn paint(img: &mut Img, pos: TermPos, s: &str, b: Brush, clear: bool)
    requires
        old(img).wf(),
        paint_ok(pos, s@, b, clear),
    ensures
        final(img).wf(),
        final(img).spec_height() == old(img).spec_height(),
        final(img).spec_width() == old(img).spec_width(),
        final(img)@ == painted(old(img)@, pos, s@, b, clear),
{
    let ghost v0 = img@;
    let ghost cs = s@;
    let n = s.unicode_len();
    let start_x = pos.x();
    let mut p = pos;
    let mut i: usize = 0;
    proof {
        assert(cs.take(0) =~= Seq::<char>::empty());
    }
    while i < n
        invariant
            i <= n,
            n == cs.len(),
            cs == s@,
            start_x == pos.x,
            paint_ok(pos, cs, b, clear),
            img.wf(),
            img.spec_height() == old(img).spec_height(),
            img.spec_width() == old(img).spec_width(),
            (p.y as int, p.x as int) == walk_pos(pos, cs.take(i as int)),
            img@ == painted(v0, pos, cs.take(i as int), b, clear),
        decreases n - i,
    {
        let ch = s.get_char(i);
        let ghost pre = cs.take(i as int);
        proof {
            assert(cs.take(i + 1).drop_last() =~= pre);
            assert(cs.take(i + 1).last() == ch);
            assert(walk_pos(pos, cs.take(i + 1)).0 <= i16::MAX);
        }
        if ch == '\n' {
            p = TermPos::new(p.y + 1, start_x);
        } else {
            if !(clear && ch == ' ') {
                proof {
                    assert(paints(cs[i as int], clear));
                }
                let cell = match b {
                    Brush::Text(fg, bg) => SpriteCell::Opaque(TermChar::new(ch, fg, bg)),
                    Brush::Shape(card, colr, bg) => get_raw_char(card, ch, colr, bg),
                };
                let _ = img.set((p.y as usize, p.x as usize), cell);
            }
            p = TermPos::new(p.y, p.x + 1);
        }
        i = i + 1;
    }
    proof {
        assert(cs.take(n as int) =~= cs);
    }
}

/// Writes the text `s` on `img` from `pos` in `fg` on `bg`; a newline goes one row down,
/// back to `pos`'s column.
pub fn set_s(img: &mut Img, pos: TermPos, s: String, fg: Color, bg: Color)
    requires
        old(img).wf(),
        paint_ok(pos, s@, Brush::Text(fg, bg), false),
    ensures
        final(img).wf(),
        final(img).spec_height() == old(img).spec_height(),
        final(img).spec_width() == old(img).spec_width(),
        final(img)@ == painted(old(img)@, pos, s@, Brush::Text(fg, bg), false),
{
    paint(img, pos, s.as_str(), Brush::Text(fg, bg), false);
}

/// Like `set_s`, except that spaces leave the picture as it is.
pub fn set_s_clear(img: &mut Img, pos: TermPos, s: String, fg: Color, bg: Color)
    requires
        old(img).wf(),
        paint_ok(pos, s@, Brush::Text(fg, bg), true),
    ensures
        final(img).wf(),
        final(img).spec_height() == old(img).spec_height(),
        final(img).spec_width() == old(img).spec_width(),
        final(img)@ == painted(old(img)@, pos, s@, Brush::Text(fg, bg), true),
{
    paint(img, pos, s.as_str(), Brush::Text(fg, bg), true);
}

/// The drawing of a card's shape.
pub open spec fn shape_of(c: Card, s: Scale) -> Seq<char> {
    match c.shape {
        CardShape::Oval => s.RAW_OVAL@,
        CardShape::Diamond => s.RAW_DIAMOND@,
        CardShape::Squiggle => s.RAW_SQUIGGLE@,
    }
}

/// Draws one of `card`'s shapes on `img` from `pos`: spaces leave the picture as it is,
/// other characters become the parts of the shape (see `raw_char`) on background `bg`.
pub fn set_shape(scale: Scale, img: &mut Img, card: Card, pos: TermPos, bg: Color)
    requires
        old(img).wf(),
        paint_ok(pos, shape_of(card, scale), Brush::Shape(card, raw_color(card), bg), true),
    ensures
        final(img).wf(),
        final(img).spec_height() == old(img).spec_height(),
        final(img).spec_width() == old(img).spec_width(),
        final(img)@ == painted(
            old(img)@,
            pos,
            shape_of(card, scale),
            Brush::Shape(card, raw_color(card), bg),
            true,
        ),
{
    let shape = get_raw_shape(card, scale);
    let colr = get_raw_color(card);
    paint(img, pos, shape, Brush::Shape(card, colr, bg), true);
}

/// `n / 2`, rounded toward zero.
pub open spec fn half(n: int) -> int {
    if n >= 0 {
        n / 2
    } else {
        -((-n) / 2)
    }
}

fn half_i16(n: i16) -> (h: i16)
    ensures
        h == half(n as int),
{
    if n >= 0 {
        n / 2
    } else {
        let m = -(n as i32);
        -(m / 2) as i16
    }
}

/// Where a picture of `inner` rows or columns is placed to be centered in `outer`:
/// half the difference, rounded toward zero.
pub open spec fn centered(outer: int, inner: int) -> int {
    half(outer - inner)
}

/// Writes the question mark of the scale in the middle of `img`, in `fg` on `bg`,
/// leaving it as it is under spaces.
pub fn stamp_question(scale: Scale, img: &mut Img, fg: Color, bg: Color)
    requires
        old(img).wf(),
        i16::MIN <= scale.CARD_WIDTH - scale.SHAPE_WIDTH <= i16::MAX,
        i16::MIN <= scale.CARD_HEIGHT - scale.SHAPE_HEIGHT <= i16::MAX,
        paint_ok(
            TermPos {
                y: centered(scale.CARD_HEIGHT as int, scale.SHAPE_HEIGHT as int) as i16,
                x: centered(scale.CARD_WIDTH as int, scale.SHAPE_WIDTH as int) as i16,
            },
            scale.RAW_QUESTION@,
            Brush::Text(fg, bg),
            true,
        ),
    ensures
        final(img).wf(),
        final(img).spec_height() == old(img).spec_height(),
        final(img).spec_width() == old(img).spec_width(),
        final(img)@ == painted(
            old(img)@,
            TermPos {
                y: centered(scale.CARD_HEIGHT as int, scale.SHAPE_HEIGHT as int) as i16,
                x: centered(scale.CARD_WIDTH as int, scale.SHAPE_WIDTH as int) as i16,
            },
            scale.RAW_QUESTION@,
            Brush::Text(fg, bg),
            true,
        ),
{
    let offset = half_i16(scale.CARD_WIDTH - scale.SHAPE_WIDTH);
    let drop = half_i16(scale.CARD_HEIGHT - scale.SHAPE_HEIGHT);
    paint(img, TermPos::new(drop, offset), scale.RAW_QUESTION, Brush::Text(fg, bg), true);
}

/// The space between two of a card's shapes: one less than usual between three
/// squiggles.
pub open spec fn spacing_of(card: Card) -> int {
    if card.shape == CardShape::Squiggle && card.number == CardNumber::Three {
        SHAPE_SPACING - 1
    } else {
        SHAPE_SPACING as int
    }
}

/// Where the `i`-th shape of `card` is drawn: the shapes, with their spaces, are
/// centered across the card, and each is centered vertically.
pub open spec fn shape_pos(scale: Scale, card: Card, i: int) -> TermPos {
    let num = number_value(card.number);
    let offset = centered(
        scale.CARD_WIDTH as int,
        scale.SHAPE_WIDTH * num + spacing_of(card) * (num - 1),
    );
    TermPos {
        y: centered(scale.CARD_HEIGHT as int, scale.SHAPE_HEIGHT as int) as i16,
        x: (offset + i * scale.SHAPE_WIDTH + i * spacing_of(card)) as i16,
    }
}

/// Every step of placing the shapes stays within `i16`.
pub open spec fn stamp_fits(scale: Scale, card: Card) -> bool {
    let num = number_value(card.number);
    let w = scale.SHAPE_WIDTH as int;
    let offset = centered(scale.CARD_WIDTH as int, w * num + spacing_of(card) * (num - 1));
    &&& i16::MIN <= scale.CARD_HEIGHT - scale.SHAPE_HEIGHT <= i16::MAX
    &&& forall|k: int|
        0 <= k <= num ==> i16::MIN <= #[trigger] (w * k) <= i16::MAX && i16::MIN <= scale.CARD_WIDTH
            - w * k <= i16::MAX && i16::MIN <= spacing_of(card) * k <= i16::MAX
    &&& i16::MIN <= scale.CARD_WIDTH - w * num - spacing_of(card) * (num - 1) <= i16::MAX
    &&& forall|k: int|
        0 <= k < num ==> i16::MIN <= offset + #[trigger] (w * k) <= i16::MAX && i16::MIN <= offset + w
            * k + spacing_of(card) * k <= i16::MAX
}

/// The picture `v` after the first `n` shapes of `card` are drawn on it.
pub open spec fn shapes_painted(v: Seq<Seq<SpriteCell>>, scale: Scale, card: Card, bg: Color, n: int) -> Seq<
    Seq<SpriteCell>,
>
    decreases n,
{
    if n <= 0 {
        v
    } else {
        painted(
            shapes_painted(v, scale, card, bg, n - 1),
            shape_pos(scale, card, n - 1),
            shape_of(card, scale),
            Brush::Shape(card, raw_color(card), bg),
            true,
        )
    }
}

/// Draws `card`'s shapes on `img` (as many as its number), side by side and centered
/// (see `shape_pos`), on background `bg`.
pub fn stamp_shape(scale: Scale, img: &mut Img, card: Card, bg: Color)
    requires
        old(img).wf(),
        stamp_fits(scale, card),
        forall|i: int|
            0 <= i < number_value(card.number) ==> paint_ok(
                #[trigger] shape_pos(scale, card, i),
                shape_of(card, scale),
                Brush::Shape(card, raw_color(card), bg),
                true,
            ),
    ensures
        final(img).wf(),
        final(img).spec_height() == old(img).spec_height(),
        final(img).spec_width() == old(img).spec_width(),
        final(img)@ == shapes_painted(old(img)@, scale, card, bg, number_value(card.number)),
{
    let num: i16 = card.number.value();
    let shape_spacing: i16 = if card.shape == CardShape::Squiggle && card.number == CardNumber::Three {
        SHAPE_SPACING - 1
    } else {
        SHAPE_SPACING
    };
    proof {
        assert(0 <= num <= num);
        assert(i16::MIN <= scale.SHAPE_WIDTH * num <= i16::MAX);
        assert(0 <= spacing_of(card) * (num - 1) <= 2) by (nonlinear_arith)
            requires
                0 <= spacing_of(card) <= 1,
                0 <= num - 1 <= 2,
        ;
    }
    let mut offset = scale.CARD_WIDTH;
    offset = offset - scale.SHAPE_WIDTH * num;
    offset = offset - shape_spacing * (num - 1);
    offset = half_i16(offset);
    let drop = half_i16(scale.CARD_HEIGHT - scale.SHAPE_HEIGHT);
    let mut i: i16 = 0;
    while i < num
        invariant
            0 <= i <= num,
            num == number_value(card.number),
            shape_spacing == spacing_of(card),
            stamp_fits(scale, card),
            offset == centered(
                scale.CARD_WIDTH as int,
                scale.SHAPE_WIDTH * num + spacing_of(card) * (num - 1),
            ),
            drop == centered(scale.CARD_HEIGHT as int, scale.SHAPE_HEIGHT as int),
            forall|k: int|
                0 <= k < num ==> paint_ok(
                    #[trigger] shape_pos(scale, card, k),
                    shape_of(card, scale),
                    Brush::Shape(card, raw_color(card), bg),
                    true,
                ),
            img.wf(),
            img.spec_height() == old(img).spec_height(),
            img.spec_width() == old(img).spec_width(),
            img@ == shapes_painted(old(img)@, scale, card, bg, i as int),
        decreases num - i,
    {
        proof {
            assert(i16::MIN <= offset + scale.SHAPE_WIDTH * i <= i16::MAX);
            assert(0 <= i <= num);
            assert(i16::MIN <= scale.SHAPE_WIDTH * i <= i16::MAX);
            assert(i16::MIN <= spacing_of(card) * i <= i16::MAX);
            assert(i16::MIN <= offset + scale.SHAPE_WIDTH * i + spacing_of(card) * i <= i16::MAX);
            assert((i as int) * (scale.SHAPE_WIDTH as int) == (scale.SHAPE_WIDTH as int) * (i as int)) by (nonlinear_arith);
            assert((i as int) * (shape_spacing as int) == spacing_of(card) * (i as int)) by (nonlinear_arith)
                requires
                    shape_spacing == spacing_of(card),
            ;
        }
        let shape_x = i * scale.SHAPE_WIDTH;
        let spacing = i * shape_spacing;
        let p = TermPos::new(drop, offset + shape_x + spacing);
        proof {
            assert(p == shape_pos(scale, card, i as int));
        }
        set_shape(scale, img, card, p, bg);
        i = i + 1;
    }
}

/// For every card, in the order of `all_cards`, a copy of `img` with the card's shapes
/// drawn on it (see `stamp_shape`).
pub fn stamp_shapes(scale: Scale, img: &Img, bg: Color) -> (v: Vec<(Card, Img)>)
    requires
        img.wf(),
        forall|k: int| 0 <= k < 81 ==> #[trigger] stamp_ok(scale, full_deck()[k], bg),
    ensures
        v@.len() == 81,
        forall|k: int|
            0 <= k < 81 ==> {
                &&& (#[trigger] v@[k]).0 == full_deck()[k]
                &&& v@[k].1.wf()
                &&& v@[k].1@ == shapes_painted(img@, scale, full_deck()[k], bg, number_value(full_deck()[k].number))
            },
{
    let cards = all_cards();
    let mut v: Vec<(Card, Img)> = Vec::new();
    let mut i: usize = 0;
    while i < cards.len()
        invariant
            i <= cards@.len(),
            cards@ == full_deck(),
            img.wf(),
            forall|k: int| 0 <= k < 81 ==> #[trigger] stamp_ok(scale, full_deck()[k], bg),
            v@.len() == i,
            forall|k: int|
                0 <= k < i ==> {
                    &&& (#[trigger] v@[k]).0 == full_deck()[k]
                    &&& v@[k].1.wf()
                    &&& v@[k].1@ == shapes_painted(img@, scale, full_deck()[k], bg, number_value(full_deck()[k].number))
                },
        decreases cards.len() - i,
    {
        let card = cards[i];
        let mut clon = img.copy();
        proof {
            assert(stamp_ok(scale, full_deck()[i as int], bg));
        }
        stamp_shape(scale, &mut clon, card, bg);
        v.push((card, clon));
        i = i + 1;
    }
    v
}

/// `stamp_shape` may run for `card` with background `bg`.
pub open spec fn stamp_ok(scale: Scale, card: Card, bg: Color) -> bool {
    &&& stamp_fits(scale, card)
    &&& forall|i: int|
        0 <= i < number_value(card.number) ==> paint_ok(
            #[trigger] shape_pos(scale, card, i),
            shape_of(card, scale),
            Brush::Shape(card, raw_color(card), bg),
            true,
        )
}

/// The cell at (`r`, `c`) of a card outline `h` rows by `w` columns: the four corner
/// cells are clear, the left and right edges (but for two cells at each end) are drawn
/// with '┃' and the top and bottom edges (likewise) with '━', in `edge_fg` on
/// `edge_bg`; every other cell is `bg`, or clear when there is none.
pub open spec fn base_cell(h: int, w: int, r: int, c: int, edge_fg: Color, edge_bg: Color, bg: Option<Color>) -> SpriteCell {
    if (r == 0 || r == h - 1) && (c == 0 || c == w - 1) {
        SpriteCell::Transparent
    } else if (c == 0 || c == w - 1) && 2 <= r < h - 2 {
        SpriteCell::Opaque(TermChar::Fg { c: '┃', fg: edge_fg, bg: edge_bg })
    } else if (r == 0 || r == h - 1) && 2 <= c < w - 2 {
        SpriteCell::Opaque(TermChar::Fg { c: '━', fg: edge_fg, bg: edge_bg })
    } else {
        match bg {
            Some(b) => SpriteCell::Opaque(TermChar::Bg(b)),
            None => SpriteCell::Transparent,
        }
    }
}

/// The cells of a card outline of the card size of `scale` (see `base_cell`).
pub open spec fn base_img(scale: Scale, edge_fg: Color, edge_bg: Color, bg: Option<Color>) -> Seq<Seq<SpriteCell>> {
    let h = scale.CARD_HEIGHT as int;
    let w = scale.CARD_WIDTH as int;
    Seq::new(h as nat, |r: int| Seq::new(w as nat, |c: int| base_cell(h, w, r, c, edge_fg, edge_bg, bg)))
}

/// A card outline of the card size of `scale` (see `base_cell`).
pub fn card_base(scale: Scale, edge_fg: Color, edge_bg: Color, bg: Option<Color>) -> (img: Img)
    requires
        1 <= scale.CARD_HEIGHT,
        1 <= scale.CARD_WIDTH,
    ensures
        img.wf(),
        img.spec_height() == scale.CARD_HEIGHT,
        img.spec_width() == scale.CARD_WIDTH,
        img@ == base_img(scale, edge_fg, edge_bg, bg),
{
    let h: usize = scale.CARD_HEIGHT as usize;
    let w: usize = scale.CARD_WIDTH as usize;
    let ghost hi = h as int;
    let ghost wi = w as int;
    let fill = match bg {
        Some(c) => SpriteCell::Opaque(TermChar::Bg(c)),
        None => SpriteCell::Transparent,
    };
    let mut img = Img::rect(h, w, fill);
    let _ = img.set((0, 0), SpriteCell::Transparent);
    let _ = img.set((0, w - 1), SpriteCell::Transparent);
    let _ = img.set((h - 1, 0), SpriteCell::Transparent);
    let _ = img.set((h - 1, w - 1), SpriteCell::Transparent);
    let vert = SpriteCell::Opaque(TermChar::new('┃', edge_fg, edge_bg));
    let horiz = SpriteCell::Opaque(TermChar::new('━', edge_fg, edge_bg));
    // The picture so far: corners clear, edges drawn on the rows before `row`.
    let mut row: usize = 2;
    while row + 2 < h
        invariant
            2 <= row < 40000,
            h <= 32767,
            w <= 32767,
            h == hi,
            w == wi,
            1 <= hi,
            1 <= wi,
            img.wf(),
            img.spec_height() == h,
            img.spec_width() == w,
            vert == SpriteCell::Opaque(TermChar::Fg { c: '┃', fg: edge_fg, bg: edge_bg }),
            fill == (match bg {
                Some(b) => SpriteCell::Opaque(TermChar::Bg(b)),
                None => SpriteCell::Transparent,
            }),
            forall|r: int, c: int|
                0 <= r < hi && 0 <= c < wi ==> #[trigger] img@[r][c] == if (r == 0 || r == hi - 1) && (c == 0
                    || c == wi - 1) {
                    SpriteCell::Transparent
                } else if (c == 0 || c == wi - 1) && 2 <= r < row && r < hi - 2 {
                    vert
                } else {
                    fill
                },
        decreases h - row,
    {
        let _ = img.set((row, 0), vert);
        let _ = img.set((row, w - 1), vert);
        row = row + 1;
    }
    let mut col: usize = 2;
    while col + 2 < w
        invariant
            2 <= col < 40000,
            h <= 32767,
            w <= 32767,
            fill == (match bg {
                Some(b) => SpriteCell::Opaque(TermChar::Bg(b)),
                None => SpriteCell::Transparent,
            }),
            h == hi,
            w == wi,
            1 <= hi,
            1 <= wi,
            img.wf(),
            img.spec_height() == h,
            img.spec_width() == w,
            horiz == SpriteCell::Opaque(TermChar::Fg { c: '━', fg: edge_fg, bg: edge_bg }),
            forall|r: int, c: int|
                0 <= r < hi && 0 <= c < wi ==> #[trigger] img@[r][c] == if (r == 0 || r == hi - 1) && col <= c
                    < wi - 2 {
                    fill
                } else {
                    base_cell(hi, wi, r, c, edge_fg, edge_bg, bg)
                },
        decreases w - col,
    {
        let _ = img.set((0, col), horiz);
        let _ = img.set((h - 1, col), horiz);
        col = col + 1;
    }
    proof {
        assert(img@ =~= base_img(scale, edge_fg, edge_bg, bg)) by {
            assert forall|r: int| 0 <= r < hi implies #[trigger] img@[r] =~= base_img(scale, edge_fg, edge_bg, bg)[r] by {
                assert forall|c: int| 0 <= c < wi implies #[trigger] img@[r][c] == base_img(scale, edge_fg, edge_bg, bg)[r][c] by {
                    assert(img@[r][c] == base_cell(hi, wi, r, c, edge_fg, edge_bg, bg));
                }
            }
        }
    }
    img
}

/// The sprite tree of a dealt card: its face, the card's shapes (see `stamp_shape`)
/// drawn on a card of color `CARD_BG`, anchored one row up and one column right of the
/// tree's corner and drawn over its outline; under it, as its one child, the thin
/// outline in `CARD_BORDER`, anchored at the corner. Both are visible and clickable.
pub fn card_tree(card: Card, scale: Scale) -> (t: SpriteTree)
    requires
        1 <= scale.CARD_HEIGHT,
        1 <= scale.CARD_WIDTH,
        stamp_ok(scale, card, CARD_BG),
    ensures
        t.spec_node().spec_img() == shapes_painted(
            base_img(scale, CARD_BG, CARD_BG, Some(CARD_BG)),
            scale,
            card,
            CARD_BG,
            number_value(card.number),
        ),
        t.spec_node().spec_height() == scale.CARD_HEIGHT,
        t.spec_node().spec_width() == scale.CARD_WIDTH,
        t.spec_node().wf(),
        t.spec_node().spec_anchor() == (TermPos { y: -1i16, x: 1i16 }),
        t.spec_node().spec_order() == 1,
        t.spec_node().spec_visible() == Visibility::Visible,
        t.spec_node().spec_clickable() == Clickability::Clickable,
        t.spec_children().len() == 1,
        t.spec_children()[0].spec_children().len() == 0,
        t.spec_children()[0].spec_node().spec_img() == base_img(scale, CARD_BORDER, TERM_BG, None),
        t.spec_children()[0].spec_node().spec_height() == scale.CARD_HEIGHT,
        t.spec_children()[0].spec_node().spec_width() == scale.CARD_WIDTH,
        t.spec_children()[0].spec_node().wf(),
        t.spec_children()[0].spec_node().spec_anchor() == (TermPos { y: 0, x: 0 }),
        t.spec_children()[0].spec_node().spec_order() == 0,
        t.spec_children()[0].spec_node().spec_visible() == Visibility::Visible,
        t.spec_children()[0].spec_node().spec_clickable() == Clickability::Clickable,
{
    let mut face = card_base(scale, CARD_BG, CARD_BG, Some(CARD_BG));
    stamp_shape(scale, &mut face, card, CARD_BG);
    let outline = card_base(scale, CARD_BORDER, TERM_BG, None);
    let border = SpriteTree::new(new_stn(Sprite::from(outline)));
    let mut children: Vec<SpriteTree> = Vec::new();
    children.push(border);
    let top = Sprite::mk(face, TermPos::new(-1, 1), 1, Visibility::Visible, Clickability::Clickable);
    SpriteTree::mk(new_stn(top), children)
}

} // verus!
