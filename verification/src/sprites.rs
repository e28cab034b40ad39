use vstd::prelude::*;

use crate::config::{Color, TERM_BG};
use crate::termchar::TermChar;

pub mod termable;
pub mod dirt;
pub mod grid;
pub mod img;
pub mod sprite;
pub mod sprite_tree;
pub mod sprite_manager;

verus! {

/// A sprite held by a sprite tree.
pub type Stn = Box<sprite::Sprite>;

/// Boxes a sprite for a tree.
pub fn new_stn(sp: sprite::Sprite) -> (n: Stn)
    ensures
        *n == sp,
{
    Box::new(sp)
}

/// The boxed sprite.
pub fn borrow_stn(sp: &Stn) -> (r: &sprite::Sprite)
    ensures
        *r == **sp,
{
    &**sp
}

/// The boxed sprite, to change in place.
pub fn borrow_stn_mut(sp: &mut Stn) -> (r: &mut sprite::Sprite)
    ensures
        *r == **old(sp),
        **final(sp) == *final(r),
{
    &mut **sp
}

/// A sprite cell: something to draw, or nothing (what lies below shows through).
#[derive(Debug, Clone, Copy, PartialEq, Eq, Structural)]
pub enum SpriteCell {
    Opaque(TermChar),
    Transparent,
}

impl SpriteCell {
    pub open spec fn default_spec() -> SpriteCell {
        SpriteCell::Opaque(TermChar::Bg(Color::Reset))
    }

    /// A blank cell on the default background.
    pub fn default() -> (c: Self)
        ensures
            c == SpriteCell::Opaque(TermChar::Bg(Color::Reset)),
    {
        SpriteCell::Opaque(TermChar::Bg(Color::Reset))
    }

    pub fn is_opaque(&self) -> (b: bool)
        ensures
            b == (*self is Opaque),
    {
        !(*self == SpriteCell::Transparent)
    }

    pub fn is_transparent(&self) -> (b: bool)
        ensures
            b == (*self is Transparent),
    {
        *self == SpriteCell::Transparent
    }

    /// A blank cell of the terminal's background color.
    pub fn bg() -> (c: Self)
        ensures
            c == SpriteCell::Opaque(TermChar::Bg(TERM_BG)),
    {
        SpriteCell::Opaque(TermChar::new(' ', TERM_BG, TERM_BG))
    }
}

} // verus!
