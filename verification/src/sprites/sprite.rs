use vstd::prelude::*;

use super::SpriteCell;
use super::dirt::Dirt;
use super::img::Img;
use crate::bounds::Bounds;
use crate::id::Id;
use crate::pos::TermPos;
use crate::util::{Result, SetError, SetErrorKind, Visibility, Clickability};

verus! {

/// Marks identifiers of sprites. (An identifier's type parameter names what it
/// identifies; a sprite cannot hold an identifier typed by `Sprite` itself, because the
/// type would then contain itself.)
#[derive(Debug, Clone, Copy)]
pub struct SpriteTag;

/// The identifier of a sprite.
pub type SpriteId = Id<SpriteTag>;

/// A picture placed on the screen: its top-left corner is `anchor`; sprites of higher
/// `order` are drawn over those of lower order.
#[derive(Debug)]
pub struct Sprite {
    img: Img,
    anchor: TermPos,
    id: SpriteId,
    order: i16,
    visible: Visibility,
    clickable: Clickability,
}

impl Sprite {
    pub closed spec fn spec_img(self) -> Seq<Seq<SpriteCell>> {
        self.img@
    }

    pub closed spec fn spec_height(self) -> usize {
        self.img.spec_height()
    }

    pub closed spec fn spec_width(self) -> usize {
        self.img.spec_width()
    }

    pub closed spec fn spec_anchor(self) -> TermPos {
        self.anchor
    }

    pub closed spec fn spec_id(self) -> SpriteId {
        self.id
    }

    pub closed spec fn spec_order(self) -> i16 {
        self.order
    }

    pub closed spec fn spec_visible(self) -> Visibility {
        self.visible
    }

    pub closed spec fn spec_clickable(self) -> Clickability {
        self.clickable
    }

    /// The sprite's picture is a proper grid.
    pub closed spec fn wf(self) -> bool {
        self.img.wf()
    }

    /// The same sprite with another anchor.
    pub closed spec fn with_anchor(self, a: TermPos) -> Sprite {
        Sprite { anchor: a, ..self }
    }

    /// The same sprite with another order.
    pub closed spec fn with_order(self, o: i16) -> Sprite {
        Sprite { order: o, ..self }
    }

    /// The same sprite with another visibility.
    pub closed spec fn with_visible(self, v: Visibility) -> Sprite {
        Sprite { visible: v, ..self }
    }

    /// The same sprite with another clickability.
    pub closed spec fn with_clickable(self, c: Clickability) -> Sprite {
        Sprite { clickable: c, ..self }
    }

    /// What the `with_` updates change and keep.
    pub proof fn lemma_with(self, a: TermPos, o: i16, v: Visibility, c: Clickability)
        ensures
            self.with_anchor(a).spec_anchor() == a,
            self.with_anchor(a).spec_id() == self.spec_id(),
            self.with_anchor(a).spec_order() == self.spec_order(),
            self.with_anchor(a).spec_visible() == self.spec_visible(),
            self.with_anchor(a).spec_clickable() == self.spec_clickable(),
            self.with_anchor(a).spec_img() == self.spec_img(),
            self.with_anchor(a).wf() == self.wf(),
            self.with_anchor(a).spec_height() == self.spec_height(),
            self.with_anchor(a).spec_width() == self.spec_width(),
            self.with_anchor(self.spec_anchor()) == self,
            self.with_anchor(a).with_anchor(self.spec_anchor()) == self,
            self.with_order(o).spec_order() == o,
            self.with_order(o).spec_anchor() == self.spec_anchor(),
            self.with_order(o).spec_id() == self.spec_id(),
            self.with_order(o).spec_visible() == self.spec_visible(),
            self.with_order(o).spec_clickable() == self.spec_clickable(),
            self.with_order(o).wf() == self.wf(),
            self.with_order(o).spec_img() == self.spec_img(),
            self.with_visible(v).spec_img() == self.spec_img(),
            self.with_clickable(c).spec_img() == self.spec_img(),
            self.with_visible(v).spec_visible() == v,
            self.with_visible(v).spec_id() == self.spec_id(),
            self.with_visible(v).spec_anchor() == self.spec_anchor(),
            self.with_visible(v).spec_order() == self.spec_order(),
            self.with_visible(v).spec_clickable() == self.spec_clickable(),
            self.with_visible(v).wf() == self.wf(),
            self.with_clickable(c).spec_clickable() == c,
            self.with_clickable(c).spec_id() == self.spec_id(),
            self.with_clickable(c).spec_anchor() == self.spec_anchor(),
            self.with_clickable(c).spec_order() == self.spec_order(),
            self.with_clickable(c).spec_visible() == self.spec_visible(),
            self.with_clickable(c).wf() == self.wf(),
    {
    }

    /// The bounds of the sprite stay within `i16`.
    pub open spec fn bounds_fit(self) -> bool {
        &&& self.spec_height() <= i16::MAX
        &&& self.spec_width() <= i16::MAX
        &&& self.spec_anchor().y + self.spec_height() <= i16::MAX
        &&& self.spec_anchor().x + self.spec_width() <= i16::MAX
    }

    /// The cells the sprite covers.
    pub open spec fn spec_bounds(self) -> Bounds<i16> {
        Bounds {
            y_min: self.spec_anchor().y,
            x_min: self.spec_anchor().x,
            y_max: (self.spec_anchor().y + self.spec_height()) as i16,
            x_max: (self.spec_anchor().x + self.spec_width()) as i16,
        }
    }

    /// What the sprite shows at a position relative to its anchor: nothing when it is
    /// invisible, its cell inside its picture, and an error elsewhere.
    pub open spec fn rel_cell(self, pos: TermPos) -> Option<SpriteCell> {
        if pos.y >= 0 && pos.x >= 0 && pos.y < self.spec_height() && pos.x < self.spec_width() {
            if self.spec_visible() == Visibility::Visible {
                Some(self.spec_img()[pos.y as int][pos.x as int])
            } else {
                Some(SpriteCell::Transparent)
            }
        } else if pos.y >= 0 && pos.x >= 0 && self.spec_visible() != Visibility::Visible {
            Some(SpriteCell::Transparent)
        } else {
            None
        }
    }

    /// A visible, clickable sprite of `height` rows and `width` columns of blank cells,
    /// anchored at (0, 0), with order 0 and a fresh identifier.
    pub fn new(height: i16, width: i16) -> (sp: Self)
        requires
            height >= 0,
            width >= 0,
        ensures
            sp.wf(),
            sp.spec_height() == height,
            sp.spec_width() == width,
            forall|r: int, c: int|
                0 <= r < height && 0 <= c < width ==> #[trigger] sp.spec_img()[r][c]
                    == SpriteCell::default_spec(),
            sp.spec_anchor() == (TermPos { y: 0, x: 0 }),
            sp.spec_order() == 0,
            sp.spec_visible() == Visibility::Visible,
            sp.spec_clickable() == Clickability::Clickable,
    {
        Sprite {
            img: Img::rect(height as usize, width as usize, SpriteCell::default()),
            anchor: TermPos::new(0, 0),
            id: Id::default(),
            order: 0,
            visible: Visibility::Visible,
            clickable: Clickability::Clickable,
        }
    }

    /// A sprite of the given parts with a fresh identifier.
    pub fn mk(
        img: Img,
        anchor: TermPos,
        order: i16,
        visible: Visibility,
        clickable: Clickability,
    ) -> (sp: Self)
        ensures
            sp.spec_img() == img@,
            sp.spec_height() == img.spec_height(),
            sp.spec_width() == img.spec_width(),
            sp.wf() == img.wf(),
            sp.spec_anchor() == anchor,
            sp.spec_order() == order,
            sp.spec_visible() == visible,
            sp.spec_clickable() == clickable,
    {
        Sprite { img, anchor, id: Id::default(), order, visible, clickable }
    }

    /// A visible, clickable sprite of a picture, anchored at (0, 0), with order 0 and a
    /// fresh identifier.
    pub fn from(img: Img) -> (sp: Self)
        ensures
            sp.spec_img() == img@,
            sp.spec_height() == img.spec_height(),
            sp.spec_width() == img.spec_width(),
            sp.wf() == img.wf(),
            sp.spec_anchor() == (TermPos { y: 0, x: 0 }),
            sp.spec_order() == 0,
            sp.spec_visible() == Visibility::Visible,
            sp.spec_clickable() == Clickability::Clickable,
    {
        Sprite {
            img,
            anchor: TermPos::new(0, 0),
            id: Id::default(),
            order: 0,
            visible: Visibility::Visible,
            clickable: Clickability::Clickable,
        }
    }

    /// Two sprites agree on everything: picture, size, anchor, identifier, order,
    /// visibility and clickability.
    pub open spec fn same_as(self, o: Sprite) -> bool {
        &&& self.spec_img() == o.spec_img()
        &&& self.spec_height() == o.spec_height()
        &&& self.spec_width() == o.spec_width()
        &&& self.wf() == o.wf()
        &&& self.spec_anchor() == o.spec_anchor()
        &&& self.spec_id() == o.spec_id()
        &&& self.spec_order() == o.spec_order()
        &&& self.spec_visible() == o.spec_visible()
        &&& self.spec_clickable() == o.spec_clickable()
    }

    /// The same sprite, identifier included.
    pub fn share(&self) -> (sp: Self)
        ensures
            sp.same_as(*self),
    {
        let img = self.img.copy();
        let sp = Sprite {
            img,
            anchor: self.anchor,
            id: self.id,
            order: self.order,
            visible: self.visible,
            clickable: self.clickable,
        };
        sp
    }

    /// The cells the sprite covers: from its anchor, as many rows and columns as its
    /// picture has.
    pub fn bounds(&self) -> (b: Bounds<i16>)
        requires
            self.bounds_fit(),
        ensures
            b == self.spec_bounds(),
    {
        let h = self.img.height() as i16;
        let w = self.img.width() as i16;
        Bounds::<i16>::mk((self.anchor.y, self.anchor.x), (self.anchor.y + h, self.anchor.x + w))
    }

    /// Marks every cell the sprite covers dirty.
    pub fn dirty_all(&self, dirt: &mut Dirt)
        requires
            self.bounds_fit(),
            old(dirt).wf(),
        ensures
            final(dirt).wf(),
            forall|y: i16| #[trigger] final(dirt).lines().contains_key(y) <==> old(dirt).lines().contains_key(y)
                || self.spec_bounds().y_min <= y < self.spec_bounds().y_max,
            forall|y: i16, x: i16| #[trigger] final(dirt).is_dirty(y, x) <==> old(dirt).is_dirty(y, x)
                || self.spec_bounds().spec_contains((y, x)),
    {
        dirt.dirty_all(self.bounds());
    }

    /// The cell at a position relative to the anchor: transparent when the sprite is
    /// invisible (for non-negative positions), its picture's cell otherwise; fails with
    /// `OutOfBounds` for a negative position or one outside a visible sprite's picture.
    pub fn get_rel(&self, pos: TermPos) -> (r: Result<SpriteCell>)
        requires
            self.wf(),
        ensures
            self.rel_cell(pos) matches Some(c) ==> r == Ok::<SpriteCell, SetError>(c),
            self.rel_cell(pos) is None ==> (r matches Err(e) && e.kind == SetErrorKind::OutOfBounds),
    {
        if pos.y >= 0 && pos.x >= 0 {
            if self.visible == Visibility::Visible {
                self.img.get((pos.y as usize, pos.x as usize))
            } else {
                Ok(SpriteCell::Transparent)
            }
        } else {
            Err(SetError::new(SetErrorKind::OutOfBounds, "negative coordinates for sprite pixel access"))
        }
    }

    /// Sets the picture's cell at a position relative to the anchor and returns the old
    /// cell; fails with `OutOfBounds` for a negative position or one outside the picture.
    pub fn set_rel(&mut self, pos: TermPos, cel: SpriteCell) -> (r: Result<SpriteCell>)
        requires
            old(self).wf(),
        ensures
            final(self).wf(),
            final(self).spec_height() == old(self).spec_height(),
            final(self).spec_width() == old(self).spec_width(),
            final(self).spec_anchor() == old(self).spec_anchor(),
            final(self).spec_id() == old(self).spec_id(),
            final(self).spec_order() == old(self).spec_order(),
            final(self).spec_visible() == old(self).spec_visible(),
            final(self).spec_clickable() == old(self).spec_clickable(),
            ({
                let inside = 0 <= pos.y < old(self).spec_height() && 0 <= pos.x < old(self).spec_width();
                &&& inside ==> r == Ok::<SpriteCell, SetError>(
                    old(self).spec_img()[pos.y as int][pos.x as int],
                ) && final(self).spec_img() == old(self).spec_img().update(
                    pos.y as int,
                    old(self).spec_img()[pos.y as int].update(pos.x as int, cel),
                )
                &&& !inside ==> (r matches Err(e) && e.kind == SetErrorKind::OutOfBounds)
                    && final(self).spec_img() == old(self).spec_img()
            }),
    {
        if pos.y >= 0 && pos.x >= 0 {
            self.img.set((pos.y as usize, pos.x as usize), cel)
        } else {
            Err(SetError::new(SetErrorKind::OutOfBounds, "negative coordinates for sprite pixel access"))
        }
    }

    /// The cell at a screen position (see `get_rel`).
    pub fn get(&self, pos: TermPos) -> (r: Result<SpriteCell>)
        requires
            self.wf(),
            i16::MIN <= pos.y - self.spec_anchor().y <= i16::MAX,
            i16::MIN <= pos.x - self.spec_anchor().x <= i16::MAX,
        ensures
            ({
                let rel = TermPos {
                    y: (pos.y - self.spec_anchor().y) as i16,
                    x: (pos.x - self.spec_anchor().x) as i16,
                };
                &&& self.rel_cell(rel) matches Some(c) ==> r == Ok::<SpriteCell, SetError>(c)
                &&& self.rel_cell(rel) is None ==> (r matches Err(e) && e.kind
                    == SetErrorKind::OutOfBounds)
            }),
    {
        self.get_rel(pos.sub(self.anchor))
    }

    /// Sets the cell at a screen position (see `set_rel`).
    pub fn set(&mut self, pos: TermPos, cel: SpriteCell) -> (r: Result<SpriteCell>)
        requires
            old(self).wf(),
            i16::MIN <= pos.y - old(self).spec_anchor().y <= i16::MAX,
            i16::MIN <= pos.x - old(self).spec_anchor().x <= i16::MAX,
        ensures
            final(self).wf(),
            final(self).spec_height() == old(self).spec_height(),
            final(self).spec_width() == old(self).spec_width(),
            final(self).spec_anchor() == old(self).spec_anchor(),
            final(self).spec_id() == old(self).spec_id(),
            final(self).spec_order() == old(self).spec_order(),
            final(self).spec_visible() == old(self).spec_visible(),
            final(self).spec_clickable() == old(self).spec_clickable(),
            ({
                let y = pos.y - old(self).spec_anchor().y;
                let x = pos.x - old(self).spec_anchor().x;
                let inside = 0 <= y < old(self).spec_height() && 0 <= x < old(self).spec_width();
                &&& inside ==> r == Ok::<SpriteCell, SetError>(old(self).spec_img()[y][x])
                    && final(self).spec_img() == old(self).spec_img().update(
                    y,
                    old(self).spec_img()[y].update(x, cel),
                )
                &&& !inside ==> (r matches Err(e) && e.kind == SetErrorKind::OutOfBounds)
                    && final(self).spec_img() == old(self).spec_img()
            }),
    {
        let rel = pos.sub(self.anchor);
        self.set_rel(rel, cel)
    }

    /// Whether the cells the sprite covers have coordinates that fit in `i16`.
    pub fn fits(&self) -> (b: bool)
        ensures
            b == self.bounds_fit(),
    {
        let h = self.img.height();
        let w = self.img.width();
        h <= 32767 && w <= 32767 && (self.anchor.y as i64) + (h as i64) <= 32767 && (self.anchor.x as i64)
            + (w as i64) <= 32767
    }

    /// Whether the sprite, anchored at `a`, would cover cells whose coordinates fit in
    /// `i16`.
    pub fn fits_at(&self, a: TermPos) -> (b: bool)
        ensures
            b == self.with_anchor(a).bounds_fit(),
    {
        let h = self.img.height();
        let w = self.img.width();
        h <= 32767 && w <= 32767 && (a.y as i64) + (h as i64) <= 32767 && (a.x as i64) + (w as i64) <= 32767
    }

    /// Whether the sprite's picture is a proper grid.
    pub fn is_wf(&self) -> (b: bool)
        ensures
            b == self.wf(),
    {
        self.img.is_wf()
    }

    pub fn anchor(&self) -> (a: TermPos)
        ensures
            a == self.spec_anchor(),
    {
        self.anchor
    }

    pub fn reanchor(&mut self, pos: TermPos)
        ensures
            *final(self) == old(self).with_anchor(pos),
    {
        self.anchor = pos;
    }

    pub fn order(&self) -> (o: i16)
        ensures
            o == self.spec_order(),
    {
        self.order
    }

    pub fn reorder(&mut self, order: i16)
        ensures
            *final(self) == old(self).with_order(order),
    {
        self.order = order;
    }

    pub fn id(&self) -> (id: SpriteId)
        ensures
            id == self.spec_id(),
    {
        self.id
    }

    pub fn visible(&self) -> (v: Visibility)
        ensures
            v == self.spec_visible(),
    {
        self.visible
    }

    pub fn set_visible(&mut self, v: Visibility)
        ensures
            *final(self) == old(self).with_visible(v),
    {
        self.visible = v;
    }

    pub fn clickable(&self) -> (c: Clickability)
        ensures
            c == self.spec_clickable(),
    {
        self.clickable
    }

    pub fn set_clickable(&mut self, c: Clickability)
        ensures
            *final(self) == old(self).with_clickable(c),
    {
        self.clickable = c;
    }
}

impl Clone for Sprite {
    /// A copy of the sprite with a fresh identifier.
    fn clone(&self) -> (sp: Self)
        ensures
            sp.spec_img() == self.spec_img(),
            sp.spec_height() == self.spec_height(),
            sp.spec_width() == self.spec_width(),
            sp.wf() == self.wf(),
            sp.spec_anchor() == self.spec_anchor(),
            sp.spec_order() == self.spec_order(),
            sp.spec_visible() == self.spec_visible(),
            sp.spec_clickable() == self.spec_clickable(),
    {
        Sprite {
            img: self.img.copy(),
            anchor: self.anchor,
            id: Id::default(),
            order: self.order,
            visible: self.visible,
            clickable: self.clickable,
        }
    }
}

} // verus!
