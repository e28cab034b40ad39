use vstd::prelude::*;

use super::Stn;
use super::sprite::{Sprite, SpriteId};
use crate::id::Id;
use crate::pos::TermPos;
use crate::bounds::{Bounds, min_i, max_i};
use super::dirt::Dirt;
use crate::util::Result;
use crate::util::err::{SetError, SetErrorKind};
use crate::util::{Visibility, Clickability};

verus! {

/// Marks identifiers of sprite trees.
#[derive(Debug, Clone, Copy)]
pub struct TreeTag;

/// The identifier of a sprite tree.
pub type TreeId = Id<TreeTag>;

/// Whether a change to a tree's root also applies to its descendants.
#[derive(Debug, Copy, Clone, Eq, PartialEq, Structural)]
pub enum InheritanceType {
    Dont,
    Children,
}

/// Which properties a subtree takes over from the node it is attached to.
#[derive(Debug, Copy, Clone, Eq, PartialEq, Structural)]
pub struct Inheritances {
    pub anchor: InheritanceType,
    pub order: InheritanceType,
    pub visibility: InheritanceType,
    pub clickability: InheritanceType,
}

impl Inheritances {
    /// Inherits nothing.
    pub fn none() -> (i: Self)
        ensures
            i == (Inheritances {
                anchor: InheritanceType::Dont,
                order: InheritanceType::Dont,
                visibility: InheritanceType::Dont,
                clickability: InheritanceType::Dont,
            }),
    {
        Inheritances {
            anchor: InheritanceType::Dont,
            order: InheritanceType::Dont,
            visibility: InheritanceType::Dont,
            clickability: InheritanceType::Dont,
        }
    }

    /// Inherits every property.
    pub fn all() -> (i: Self)
        ensures
            i == (Inheritances {
                anchor: InheritanceType::Children,
                order: InheritanceType::Children,
                visibility: InheritanceType::Children,
                clickability: InheritanceType::Children,
            }),
    {
        Inheritances {
            anchor: InheritanceType::Children,
            order: InheritanceType::Children,
            visibility: InheritanceType::Children,
            clickability: InheritanceType::Children,
        }
    }
}

/// A change applied to sprites: an anchor shift, an order shift, a new visibility, a
/// new clickability (each optional).
#[derive(Debug, Copy, Clone)]
pub struct Delta {
    pub anchor: Option<TermPos>,
    pub order: Option<i16>,
    pub visible: Option<Visibility>,
    pub clickable: Option<Clickability>,
}

/// A sprite after a change.
pub open spec fn apply_delta(s: Sprite, d: Delta) -> Sprite {
    let s1 = match d.anchor {
        Some(a) => s.with_anchor(
            TermPos { y: (s.spec_anchor().y + a.y) as i16, x: (s.spec_anchor().x + a.x) as i16 },
        ),
        None => s,
    };
    let s2 = match d.order {
        Some(o) => s1.with_order((s1.spec_order() + o) as i16),
        None => s1,
    };
    let s3 = match d.visible {
        Some(v) => s2.with_visible(v),
        None => s2,
    };
    match d.clickable {
        Some(c) => s3.with_clickable(c),
        None => s3,
    }
}

/// The change keeps the sprite's anchor and order within `i16`.
pub open spec fn delta_fits(s: Sprite, d: Delta) -> bool {
    &&& d.anchor matches Some(a) ==> {
        &&& i16::MIN <= s.spec_anchor().y + a.y <= i16::MAX
        &&& i16::MIN <= s.spec_anchor().x + a.x <= i16::MAX
    }
    &&& d.order matches Some(o) ==> i16::MIN <= s.spec_order() + o <= i16::MAX
}

/// A tree of sprites; each node holds one sprite and is known by an identifier.
#[derive(Debug)]
pub struct SpriteTree {
    node: Stn,
    children: Vec<SpriteTree>,
    id: TreeId,
}

/// Every sprite of the tree in preorder: the root's sprite, then each child's sprites,
/// child after child.
pub closed spec fn flatten(t: SpriteTree) -> Seq<Sprite>
    decreases t,
{
    seq![*t.node] + flatten_all(t.children@)
}

/// The sprites of a sequence of trees, tree after tree.
pub open spec fn flatten_all(s: Seq<SpriteTree>) -> Seq<Sprite>
    decreases s,
{
    if s.len() == 0 {
        Seq::empty()
    } else {
        flatten_all(s.drop_last()) + flatten(s[s.len() - 1])
    }
}

/// Every sprite of the tree satisfies `f`.
pub closed spec fn all_nodes(t: SpriteTree, f: spec_fn(Sprite) -> bool) -> bool
    decreases t,
{
    &&& f(*t.node)
    &&& forall|i: int| 0 <= i < t.children@.len() ==> all_nodes(#[trigger] t.children@[i], f)
}

/// Every subtree of `t` in preorder: `t` itself, then each child's subtrees, child after
/// child.
pub closed spec fn subtrees(t: SpriteTree) -> Seq<SpriteTree>
    decreases t,
{
    seq![t] + subtrees_all(t.children@)
}

/// The subtrees of a sequence of trees, tree after tree.
pub open spec fn subtrees_all(s: Seq<SpriteTree>) -> Seq<SpriteTree>
    decreases s,
{
    if s.len() == 0 {
        Seq::empty()
    } else {
        subtrees_all(s.drop_last()) + subtrees(s[s.len() - 1])
    }
}

/// Every sprite of the tree covers cells whose coordinates fit in `i16`.
pub open spec fn all_fit(t: SpriteTree) -> bool {
    all_nodes(t, |sp: Sprite| sp.bounds_fit())
}

/// The sprite is clickable and covers the cell `p`.
pub open spec fn hit(sp: Sprite, p: TermPos) -> bool {
    &&& sp.spec_clickable() == Clickability::Clickable
    &&& sp.spec_bounds().spec_contains((p.y, p.x))
}

/// The identifiers of the sprites of `s` that `p` hits, in order.
pub open spec fn hit_ids(s: Seq<Sprite>, p: TermPos) -> Seq<SpriteId>
    decreases s.len(),
{
    if s.len() == 0 {
        Seq::empty()
    } else {
        hit_ids(s.drop_last(), p) + if hit(s.last(), p) {
            seq![s.last().spec_id()]
        } else {
            Seq::empty()
        }
    }
}

/// The first sprite of `s` with identifier `id`, if any.
pub open spec fn first_sprite(s: Seq<Sprite>, id: SpriteId) -> Option<Sprite>
    decreases s.len(),
{
    if s.len() == 0 {
        None
    } else {
        match first_sprite(s.drop_last(), id) {
            Some(sp) => Some(sp),
            None => if s.last().spec_id() == id {
                Some(s.last())
            } else {
                None
            },
        }
    }
}

/// The first tree of `s` with identifier `id`, if any.
pub open spec fn first_tree(s: Seq<SpriteTree>, id: TreeId) -> Option<SpriteTree>
    decreases s.len(),
{
    if s.len() == 0 {
        None
    } else {
        match first_tree(s.drop_last(), id) {
            Some(t) => Some(t),
            None => if s.last().spec_id() == id {
                Some(s.last())
            } else {
                None
            },
        }
    }
}

/// The smallest rectangle around both.
pub open spec fn merged(a: Bounds<i16>, b: Bounds<i16>) -> Bounds<i16> {
    Bounds {
        y_min: min_i(a.y_min as int, b.y_min as int) as i16,
        y_max: max_i(a.y_max as int, b.y_max as int) as i16,
        x_min: min_i(a.x_min as int, b.x_min as int) as i16,
        x_max: max_i(a.x_max as int, b.x_max as int) as i16,
    }
}

/// The smallest rectangle around the bounds of every sprite of a non-empty `s`.
pub open spec fn span(s: Seq<Sprite>) -> Bounds<i16>
    decreases s.len(),
{
    if s.len() <= 1 {
        s[0].spec_bounds()
    } else {
        merged(span(s.drop_last()), s.last().spec_bounds())
    }
}

/// `s` with every sprite dropped whose identifier equals that of the sprite before it.
pub open spec fn dedup_ids(s: Seq<Sprite>) -> Seq<Sprite>
    decreases s.len(),
{
    if s.len() == 0 {
        Seq::empty()
    } else if s.len() >= 2 && s[s.len() - 1].spec_id() == s[s.len() - 2].spec_id() {
        dedup_ids(s.drop_last())
    } else {
        dedup_ids(s.drop_last()).push(s.last())
    }
}

/// Each box of `a` holds a sprite that agrees on everything with the sprite at the same
/// place in `b`.
pub open spec fn copies(a: Seq<Stn>, b: Seq<Sprite>) -> bool {
    &&& a.len() == b.len()
    &&& forall|k: int| 0 <= k < a.len() ==> (*#[trigger] a[k]).same_as(b[k])
}

/// Some sprite of `s` covers the cell (`y`, `x`).
pub open spec fn covers(s: Seq<Sprite>, y: i16, x: i16) -> bool {
    exists|k: int| 0 <= k < s.len() && (#[trigger] s[k]).spec_bounds().spec_contains((y, x))
}

/// Some sprite of `s` spans the row `y`.
pub open spec fn covers_row(s: Seq<Sprite>, y: i16) -> bool {
    exists|k: int|
        0 <= k < s.len() && (#[trigger] s[k]).spec_bounds().y_min <= y < s[k].spec_bounds().y_max
}

/// `new` is `old` with the change applied to its root, and to every descendant when
/// `deep`; identifiers and the shape of the tree are kept.
pub closed spec fn mapped(new: SpriteTree, old: SpriteTree, d: Delta, deep: bool) -> bool
    decreases old,
{
    &&& new.id == old.id
    &&& *new.node == apply_delta(*old.node, d)
    &&& if deep {
        &&& new.children@.len() == old.children@.len()
        &&& forall|i: int|
            0 <= i < old.children@.len() ==> mapped(#[trigger] new.children@[i], old.children@[i], d, true)
    } else {
        new.children@ == old.children@
    }
}

/// The change keeps every affected sprite's anchor and order within `i16`.
pub closed spec fn tree_fits(t: SpriteTree, d: Delta, deep: bool) -> bool
    decreases t,
{
    &&& delta_fits(*t.node, d)
    &&& deep ==> forall|i: int|
        0 <= i < t.children@.len() ==> tree_fits(#[trigger] t.children@[i], d, true)
}

/// Applies a change to one sprite.
fn apply_to_sprite(s: &mut Stn, d: Delta)
    requires
        delta_fits(**old(s), d),
    ensures
        **final(s) == apply_delta(**old(s), d),
{
    let ghost s0 = **s;
    if let Some(a) = d.anchor {
        let anchor = s.anchor();
        let moved = anchor.add(a);
        s.reanchor(moved);
        proof {
            s0.lemma_with(moved, 0, s0.spec_visible(), s0.spec_clickable());
        }
    }
    let ghost s1 = **s;
    if let Some(o) = d.order {
        let order = s.order();
        let shifted = order + o;
        s.reorder(shifted);
        proof {
            s1.lemma_with(s1.spec_anchor(), shifted, s1.spec_visible(), s1.spec_clickable());
        }
    }
    let ghost s2 = **s;
    if let Some(v) = d.visible {
        s.set_visible(v);
        proof {
            s2.lemma_with(s2.spec_anchor(), 0, v, s2.spec_clickable());
        }
    }
    let ghost s3 = **s;
    if let Some(c) = d.clickable {
        s.set_clickable(c);
        proof {
            s3.lemma_with(s3.spec_anchor(), 0, s3.spec_visible(), c);
        }
    }
}

impl SpriteTree {
    pub closed spec fn spec_node(self) -> Sprite {
        *self.node
    }

    pub closed spec fn spec_children(self) -> Seq<SpriteTree> {
        self.children@
    }

    pub closed spec fn spec_id(self) -> TreeId {
        self.id
    }

    /// A tree of a sprite and children, with a fresh identifier.
    pub fn mk(sp: Stn, children: Vec<Self>) -> (t: Self)
        ensures
            t.spec_node() == *sp,
            t.spec_children() == children@,
    {
        Self { node: sp, children, id: Id::default() }
    }

    /// A tree of one sprite, with a fresh identifier.
    pub fn new(sp: Stn) -> (t: Self)
        ensures
            t.spec_node() == *sp,
            t.spec_children() == Seq::<SpriteTree>::empty(),
    {
        Self::mk(sp, Vec::new())
    }

    pub fn node(&self) -> (n: &Stn)
        ensures
            **n == self.spec_node(),
    {
        &self.node
    }

    pub fn set_node(&mut self, node: Stn)
        ensures
            final(self).spec_node() == *node,
            final(self).spec_children() == old(self).spec_children(),
            final(self).spec_id() == old(self).spec_id(),
    {
        self.node = node;
    }

    pub fn children(&self) -> (c: &Vec<Self>)
        ensures
            c@ == self.spec_children(),
    {
        &self.children
    }

    pub fn id(&self) -> (id: TreeId)
        ensures
            id == self.spec_id(),
    {
        self.id
    }

    /// Applies a change to the root, and to every descendant when `deep`.
    fn apply(&mut self, d: Delta, deep: bool)
        requires
            tree_fits(*old(self), d, deep),
        ensures
            mapped(*final(self), *old(self), d, deep),
        decreases *old(self),
    {
        let ghost start = *self;
        apply_to_sprite(&mut self.node, d);
        if deep {
            let mut olds: Vec<SpriteTree> = Vec::new();
            std::mem::swap(&mut olds, &mut self.children);
            let ghost oc = olds@;
            assert(oc.len() == olds.len());
            let mut news: Vec<SpriteTree> = Vec::new();
            let mut i: usize = 0;

            let mut rest = olds;
            while rest.len() > 0
                invariant
                    start == *old(self),
                    deep,
                    oc == start.children@,
                    rest.len() + i == oc.len(),
                    oc.len() <= usize::MAX,
                    rest@ == oc.subrange(i as int, oc.len() as int),
                    news.len() == i,
                    forall|j: int| 0 <= j < i ==> #[trigger] mapped(news@[j], oc[j], d, true),
                    forall|j: int| 0 <= j < oc.len() ==> #[trigger] tree_fits(oc[j], d, true),
                decreases rest.len(),
            {
                let mut c = rest.remove(0);
                proof {
                    assert(c == oc[i as int]);
                    assert(decreases_to!(start => start.children));
                    assert(decreases_to!(start.children => start.children@));
                    assert(decreases_to!(start.children@ => start.children@[i as int]));
                }
                c.apply(d, true);
                let ghost prev = news@;
                news.push(c);
                proof {
                    assert forall|j: int| 0 <= j < i + 1 implies #[trigger] mapped(news@[j], oc[j], d, true) by {
                        if j < i {
                            assert(news@[j] == prev[j]);
                        }
                    }
                }
                i = i + 1;
            }
            self.children = news;
            proof {
                assert(self.children@.len() == start.children@.len());
                assert(forall|j: int| 0 <= j < oc.len() ==> mapped(#[trigger] self.children@[j], oc[j], d, true));
            }
        }
    }
}

impl SpriteTree {
    /// Moves the root's sprite by `delta`, and every descendant's too when `ins` is
    /// `Children`.
    pub fn shift(&mut self, delta: TermPos, ins: InheritanceType)
        requires
            tree_fits(*old(self), moving(delta), ins == InheritanceType::Children),
        ensures
            mapped(*final(self), *old(self), moving(delta), ins == InheritanceType::Children),
    {
        let d = Delta { anchor: Some(delta), order: None, visible: None, clickable: None };
        self.apply(d, ins == InheritanceType::Children);
    }

    /// Moves the root's sprite to `pos`, and every descendant by the same amount when
    /// `ins` is `Children`.
    pub fn reanchor(&mut self, pos: TermPos, ins: InheritanceType)
        requires
            i16::MIN <= pos.y - old(self).spec_node().spec_anchor().y <= i16::MAX,
            i16::MIN <= pos.x - old(self).spec_node().spec_anchor().x <= i16::MAX,
            tree_fits(
                *old(self),
                moving(pos_diff(pos, old(self).spec_node().spec_anchor())),
                ins == InheritanceType::Children,
            ),
        ensures
            mapped(
                *final(self),
                *old(self),
                moving(pos_diff(pos, old(self).spec_node().spec_anchor())),
                ins == InheritanceType::Children,
            ),
    {
        let delta = pos.sub(self.node.anchor());
        self.shift(delta, ins);
    }

    /// Raises the root's sprite by `delta` in the drawing order, and every
    /// descendant's too when `ins` is `Children`.
    pub fn shift_order(&mut self, delta: i16, ins: InheritanceType)
        requires
            tree_fits(*old(self), reordering(delta), ins == InheritanceType::Children),
        ensures
            mapped(*final(self), *old(self), reordering(delta), ins == InheritanceType::Children),
    {
        let d = Delta { anchor: None, order: Some(delta), visible: None, clickable: None };
        self.apply(d, ins == InheritanceType::Children);
    }

    /// Gives the root's sprite the drawing order `order`, and raises every descendant by
    /// the same amount when `ins` is `Children`.
    pub fn reorder(&mut self, order: i16, ins: InheritanceType)
        requires
            i16::MIN <= order - old(self).spec_node().spec_order() <= i16::MAX,
            tree_fits(
                *old(self),
                reordering((order - old(self).spec_node().spec_order()) as i16),
                ins == InheritanceType::Children,
            ),
        ensures
            mapped(
                *final(self),
                *old(self),
                reordering((order - old(self).spec_node().spec_order()) as i16),
                ins == InheritanceType::Children,
            ),
    {
        let delta = order - self.node.order();
        self.shift_order(delta, ins);
    }

    /// Sets the root's visibility, and every descendant's when `ins` is `Children`.
    pub fn set_visible(&mut self, v: Visibility, ins: InheritanceType)
        ensures
            mapped(*final(self), *old(self), showing(v), ins == InheritanceType::Children),
    {
        let d = Delta { anchor: None, order: None, visible: Some(v), clickable: None };
        proof {
            lemma_fits_without_moves(*self, d);
        }
        self.apply(d, ins == InheritanceType::Children);
    }

    /// Sets the root's clickability, and every descendant's when `ins` is `Children`.
    pub fn set_clickable(&mut self, c: Clickability, ins: InheritanceType)
        ensures
            mapped(*final(self), *old(self), clicking(c), ins == InheritanceType::Children),
    {
        let d = Delta { anchor: None, order: None, visible: None, clickable: Some(c) };
        proof {
            lemma_fits_without_moves(*self, d);
        }
        self.apply(d, ins == InheritanceType::Children);
    }

    /// Takes over from `other`'s sprite, throughout the tree, each property that `ins`
    /// marks `Children`: its anchor and order as shifts, its visibility and
    /// clickability as values.
    pub fn inherit(&mut self, other: &Self, ins: Inheritances)
        requires
            tree_fits(*old(self), inherited(other.spec_node(), ins), true),
        ensures
            mapped(*final(self), *old(self), inherited(other.spec_node(), ins), true),
    {
        let n = &other.node;
        let d = Delta {
            anchor: if ins.anchor == InheritanceType::Children { Some(n.anchor()) } else { None },
            order: if ins.order == InheritanceType::Children { Some(n.order()) } else { None },
            visible: if ins.visibility == InheritanceType::Children { Some(n.visible()) } else { None },
            clickable: if ins.clickability == InheritanceType::Children {
                Some(n.clickable())
            } else {
                None
            },
        };
        self.apply(d, true);
    }
}

/// A change that moves anchors by `delta`.
pub open spec fn moving(delta: TermPos) -> Delta {
    Delta { anchor: Some(delta), order: None, visible: None, clickable: None }
}

/// A change that raises drawing orders by `delta`.
pub open spec fn reordering(delta: i16) -> Delta {
    Delta { anchor: None, order: Some(delta), visible: None, clickable: None }
}

/// A change that sets visibility.
pub open spec fn showing(v: Visibility) -> Delta {
    Delta { anchor: None, order: None, visible: Some(v), clickable: None }
}

/// A change that sets clickability.
pub open spec fn clicking(c: Clickability) -> Delta {
    Delta { anchor: None, order: None, visible: None, clickable: Some(c) }
}

/// The difference `p - q`, componentwise.
pub open spec fn pos_diff(p: TermPos, q: TermPos) -> TermPos {
    TermPos { y: (p.y - q.y) as i16, x: (p.x - q.x) as i16 }
}

/// The change a subtree takes over from the sprite `parent` it is attached under.
pub open spec fn inherited(parent: Sprite, ins: Inheritances) -> Delta {
    Delta {
        anchor: if ins.anchor == InheritanceType::Children {
            Some(parent.spec_anchor())
        } else {
            None
        },
        order: if ins.order == InheritanceType::Children {
            Some(parent.spec_order())
        } else {
            None
        },
        visible: if ins.visibility == InheritanceType::Children {
            Some(parent.spec_visible())
        } else {
            None
        },
        clickable: if ins.clickability == InheritanceType::Children {
            Some(parent.spec_clickable())
        } else {
            None
        },
    }
}

/// A change that moves nothing fits every tree.
pub proof fn lemma_fits_without_moves(t: SpriteTree, d: Delta)
    requires
        d.anchor is None,
        d.order is None,
    ensures
        tree_fits(t, d, true),
        tree_fits(t, d, false),
    decreases t,
{
    assert forall|i: int| 0 <= i < t.children@.len() implies tree_fits(
        #[trigger] t.children@[i],
        d,
        true,
    ) by {
        assert(decreases_to!(t => t.children));
        assert(decreases_to!(t.children => t.children@));
        assert(decreases_to!(t.children@ => t.children@[i]));
        lemma_fits_without_moves(t.children@[i], d);
    }
}

/// One step of a walk over the children: the first `i + 1` trees give the sprites of the
/// first `i` and then those of the `i`-th.
pub proof fn lemma_flatten_prefix(s: Seq<SpriteTree>, i: int)
    requires
        0 <= i < s.len(),
    ensures
        flatten_all(s.subrange(0, i + 1)) == flatten_all(s.subrange(0, i)) + flatten(s[i]),
        subtrees_all(s.subrange(0, i + 1)) == subtrees_all(s.subrange(0, i)) + subtrees(s[i]),
{
    assert(s.subrange(0, i + 1).drop_last() =~= s.subrange(0, i));
}

/// The sprites of a tree: its root's, then its children's.
pub proof fn lemma_flatten(t: SpriteTree)
    ensures
        flatten(t) == seq![t.spec_node()] + flatten_all(t.spec_children()),
        subtrees(t) == seq![t] + subtrees_all(t.spec_children()),
        flatten(t).len() >= 1,
        subtrees(t).len() >= 1,
{
}

proof fn lemma_hit_ids_add(a: Seq<Sprite>, b: Seq<Sprite>, p: TermPos)
    ensures
        hit_ids(a + b, p) == hit_ids(a, p) + hit_ids(b, p),
    decreases b.len(),
{
    if b.len() == 0 {
        assert(a + b =~= a);
    } else {
        lemma_hit_ids_add(a, b.drop_last(), p);
        assert((a + b).drop_last() =~= a + b.drop_last());
    }
}

proof fn lemma_first_sprite_add(a: Seq<Sprite>, b: Seq<Sprite>, id: SpriteId)
    ensures
        first_sprite(a + b, id) == match first_sprite(a, id) {
            Some(sp) => Some(sp),
            None => first_sprite(b, id),
        },
    decreases b.len(),
{
    if b.len() == 0 {
        assert(a + b =~= a);
    } else {
        lemma_first_sprite_add(a, b.drop_last(), id);
        assert((a + b).drop_last() =~= a + b.drop_last());
    }
}

proof fn lemma_first_tree_add(a: Seq<SpriteTree>, b: Seq<SpriteTree>, id: TreeId)
    ensures
        first_tree(a + b, id) == match first_tree(a, id) {
            Some(t) => Some(t),
            None => first_tree(b, id),
        },
    decreases b.len(),
{
    if b.len() == 0 {
        assert(a + b =~= a);
    } else {
        lemma_first_tree_add(a, b.drop_last(), id);
        assert((a + b).drop_last() =~= a + b.drop_last());
    }
}

proof fn lemma_merged_comm(a: Bounds<i16>, b: Bounds<i16>)
    ensures
        merged(a, b) == merged(b, a),
{
}

proof fn lemma_span_add(a: Seq<Sprite>, b: Seq<Sprite>)
    requires
        a.len() >= 1,
        b.len() >= 1,
    ensures
        span(a + b) == merged(span(a), span(b)),
    decreases b.len(),
{
    if b.len() == 1 {
        assert((a + b).drop_last() =~= a);
    } else {
        lemma_span_add(a, b.drop_last());
        assert((a + b).drop_last() =~= a + b.drop_last());
    }
}

proof fn lemma_covers_add(a: Seq<Sprite>, b: Seq<Sprite>, y: i16, x: i16)
    ensures
        covers(a + b, y, x) <==> covers(a, y, x) || covers(b, y, x),
        covers_row(a + b, y) <==> covers_row(a, y) || covers_row(b, y),
{
    let c = a + b;
    if covers(c, y, x) {
        let k = choose|k: int| 0 <= k < c.len() && (#[trigger] c[k]).spec_bounds().spec_contains((y, x));
        if k < a.len() {
            assert(a[k] == c[k]);
        } else {
            assert(b[k - a.len()] == c[k]);
        }
    }
    if covers(a, y, x) {
        let k = choose|k: int| 0 <= k < a.len() && (#[trigger] a[k]).spec_bounds().spec_contains((y, x));
        assert(c[k] == a[k]);
    }
    if covers(b, y, x) {
        let k = choose|k: int| 0 <= k < b.len() && (#[trigger] b[k]).spec_bounds().spec_contains((y, x));
        assert(c[k + a.len()] == b[k]);
    }
    if covers_row(c, y) {
        let k = choose|k: int|
            0 <= k < c.len() && (#[trigger] c[k]).spec_bounds().y_min <= y < c[k].spec_bounds().y_max;
        if k < a.len() {
            assert(a[k] == c[k]);
        } else {
            assert(b[k - a.len()] == c[k]);
        }
    }
    if covers_row(a, y) {
        let k = choose|k: int|
            0 <= k < a.len() && (#[trigger] a[k]).spec_bounds().y_min <= y < a[k].spec_bounds().y_max;
        assert(c[k] == a[k]);
    }
    if covers_row(b, y) {
        let k = choose|k: int|
            0 <= k < b.len() && (#[trigger] b[k]).spec_bounds().y_min <= y < b[k].spec_bounds().y_max;
        assert(c[k + a.len()] == b[k]);
    }
}

impl SpriteTree {
    proof fn lemma_child(&self, i: int)
        requires
            0 <= i < self.children@.len(),
        ensures
            decreases_to!(*self => self.children@[i]),
            all_fit(*self) ==> all_fit(self.children@[i]),
    {
        assert(decreases_to!(*self => self.children));
        assert(decreases_to!(self.children => self.children@));
        assert(decreases_to!(self.children@ => self.children@[i]));
    }

    /// The identifiers of the clickable sprites that cover the cell `p`, in preorder.
    pub fn collide(&self, p: TermPos) -> (v: Vec<SpriteId>)
        requires
            all_fit(*self),
        ensures
            v@ == hit_ids(flatten(*self), p),
    {
        let mut out: Vec<SpriteId> = Vec::new();
        self.collide_into(p, &mut out);
        assert(out@ =~= Seq::<SpriteId>::empty() + hit_ids(flatten(*self), p));
        out
    }

    fn collide_into(&self, p: TermPos, out: &mut Vec<SpriteId>)
        requires
            all_fit(*self),
        ensures
            final(out)@ == old(out)@ + hit_ids(flatten(*self), p),
        decreases *self,
    {
        let ghost o0 = out@;
        let ghost root = seq![*self.node];
        let n = &self.node;
        if n.clickable() == Clickability::Clickable && n.bounds().contains((p.y, p.x)) {
            out.push(n.id());
        }
        proof {
            assert(root.drop_last() =~= Seq::<Sprite>::empty());
            assert(root.last() == *self.node);
            assert(hit_ids(Seq::<Sprite>::empty(), p) =~= Seq::<SpriteId>::empty());
            assert(self.children@.subrange(0, 0) =~= Seq::<SpriteTree>::empty());
            assert(root + flatten_all(self.children@.subrange(0, 0)) =~= root);
            assert(out@ =~= o0 + hit_ids(root, p));
        }
        let mut i: usize = 0;
        while i < self.children.len()
            invariant
                i <= self.children.len(),
                all_fit(*self),
                root == seq![*self.node],
                out@ == o0 + hit_ids(root + flatten_all(self.children@.subrange(0, i as int)), p),
            decreases self.children.len() - i,
        {
            proof {
                self.lemma_child(i as int);
                lemma_flatten_prefix(self.children@, i as int);
                lemma_hit_ids_add(
                    root + flatten_all(self.children@.subrange(0, i as int)),
                    flatten(self.children@[i as int]),
                    p,
                );
                assert(root + flatten_all(self.children@.subrange(0, i + 1)) =~= root
                    + flatten_all(self.children@.subrange(0, i as int)) + flatten(self.children@[i as int]));
            }
            self.children[i].collide_into(p, out);
            i = i + 1;
        }
        proof {
            assert(self.children@.subrange(0, i as int) =~= self.children@);
            lemma_flatten(*self);
        }
    }

    /// The first sprite, in preorder, with identifier `id`.
    pub fn find_node(&self, id: SpriteId) -> (r: Option<&Stn>)
        ensures
            r matches Some(x) ==> first_sprite(flatten(*self), id) == Some(**x),
            r is None <==> first_sprite(flatten(*self), id) is None,
        decreases *self,
    {
        let ghost root = seq![*self.node];
        proof {
            assert(root.drop_last() =~= Seq::<Sprite>::empty());
            assert(root.last() == *self.node);
            assert(first_sprite(root.drop_last(), id) is None);
            assert(first_sprite(root, id) == if self.node.spec_id() == id {
                Some(*self.node)
            } else {
                None
            });
            SpriteId::lemma_view_eq(self.node.spec_id(), id);
            lemma_flatten(*self);
            lemma_first_sprite_add(root, flatten_all(self.children@), id);
        }
        if self.node.id().eq(&id) {
            return Some(&self.node);
        }
        proof {
            assert(self.children@.subrange(0, 0) =~= Seq::<SpriteTree>::empty());
            assert(root + flatten_all(self.children@.subrange(0, 0)) =~= root);
        }
        let mut i: usize = 0;
        while i < self.children.len()
            invariant
                i <= self.children.len(),
                root == seq![*self.node],
                first_sprite(root + flatten_all(self.children@.subrange(0, i as int)), id) is None,
            decreases self.children.len() - i,
        {
            proof {
                self.lemma_child(i as int);
                lemma_flatten_prefix(self.children@, i as int);
                lemma_first_sprite_add(
                    root + flatten_all(self.children@.subrange(0, i as int)),
                    flatten(self.children@[i as int]),
                    id,
                );
                assert(root + flatten_all(self.children@.subrange(0, i + 1)) =~= root
                    + flatten_all(self.children@.subrange(0, i as int)) + flatten(self.children@[i as int]));
            }
            let found = self.children[i].find_node(id);
            if found.is_some() {
                proof {
                    lemma_first_sprite_add(
                        root + flatten_all(self.children@.subrange(0, i + 1)),
                        flatten_all(self.children@.subrange(i + 1, self.children@.len() as int)),
                        id,
                    );
                    lemma_flatten_all_split(self.children@, i + 1);
                    assert(root + flatten_all(self.children@) =~= root
                        + flatten_all(self.children@.subrange(0, i + 1))
                        + flatten_all(self.children@.subrange(i + 1, self.children@.len() as int)));
                }
                return found;
            }
            i = i + 1;
        }
        proof {
            assert(self.children@.subrange(0, i as int) =~= self.children@);
        }
        None
    }
}

/// The trees of `s` split at `i`: those before, then those from `i` on.
pub proof fn lemma_flatten_all_split(s: Seq<SpriteTree>, i: int)
    requires
        0 <= i <= s.len(),
    ensures
        flatten_all(s) == flatten_all(s.subrange(0, i)) + flatten_all(s.subrange(i, s.len() as int)),
        subtrees_all(s) == subtrees_all(s.subrange(0, i)) + subtrees_all(s.subrange(i, s.len() as int)),
    decreases s.len() - i,
{
    if i == s.len() {
        assert(s.subrange(0, i) =~= s);
        assert(s.subrange(i, s.len() as int) =~= Seq::<SpriteTree>::empty());
    } else {
        lemma_flatten_all_split(s, i + 1);
        lemma_flatten_prefix(s, i);
        let rest = s.subrange(i, s.len() as int);
        let rest1 = s.subrange(i + 1, s.len() as int);
        lemma_flatten_all_cons(s[i], rest1);
        assert(rest =~= seq![s[i]] + rest1);
    }
}

/// The trees `seq![t] + s`: first `t`'s, then the rest.
pub proof fn lemma_flatten_all_cons(t: SpriteTree, s: Seq<SpriteTree>)
    ensures
        flatten_all(seq![t] + s) == flatten(t) + flatten_all(s),
        subtrees_all(seq![t] + s) == subtrees(t) + subtrees_all(s),
    decreases s.len(),
{
    if s.len() == 0 {
        assert(seq![t] + s =~= seq![t]);
        assert(seq![t].drop_last() =~= Seq::<SpriteTree>::empty());
        assert(seq![t][0] == t);
        assert(flatten_all(seq![t]) == flatten_all(Seq::<SpriteTree>::empty()) + flatten(t));
        assert(subtrees_all(seq![t]) == subtrees_all(Seq::<SpriteTree>::empty()) + subtrees(t));
        assert(flatten(t) + flatten_all(s) =~= flatten(t));
        assert(subtrees(t) + subtrees_all(s) =~= subtrees(t));
        assert(Seq::<Sprite>::empty() + flatten(t) =~= flatten(t));
        assert(Seq::<SpriteTree>::empty() + subtrees(t) =~= subtrees(t));
    } else {
        lemma_flatten_all_cons(t, s.drop_last());
        assert((seq![t] + s).drop_last() =~= seq![t] + s.drop_last());
        assert((seq![t] + s)[s.len() as int] == s[s.len() - 1]);
        assert(flatten(t) + flatten_all(s.drop_last()) + flatten(s[s.len() - 1]) =~= flatten(t) + (
        flatten_all(s.drop_last()) + flatten(s[s.len() - 1])));
        assert(subtrees(t) + subtrees_all(s.drop_last()) + subtrees(s[s.len() - 1]) =~= subtrees(t) + (
        subtrees_all(s.drop_last()) + subtrees(s[s.len() - 1])));
    }
}

impl SpriteTree {
    /// The first subtree, in preorder, with identifier `id` (the tree itself included).
    pub fn find_tree(&self, id: TreeId) -> (r: Option<&Self>)
        ensures
            r matches Some(x) ==> first_tree(subtrees(*self), id) == Some(*x),
            r is None <==> first_tree(subtrees(*self), id) is None,
        decreases *self,
    {
        let ghost root = seq![*self];
        proof {
            assert(root.drop_last() =~= Seq::<SpriteTree>::empty());
            assert(root.last() == *self);
            assert(first_tree(root.drop_last(), id) is None);
            assert(first_tree(root, id) == if self.id == id {
                Some(*self)
            } else {
                None
            });
            TreeId::lemma_view_eq(self.id, id);
            lemma_flatten(*self);
            lemma_first_tree_add(root, subtrees_all(self.children@), id);
        }
        if self.id.eq(&id) {
            return Some(self);
        }
        proof {
            assert(self.children@.subrange(0, 0) =~= Seq::<SpriteTree>::empty());
            assert(root + subtrees_all(self.children@.subrange(0, 0)) =~= root);
        }
        let mut i: usize = 0;
        while i < self.children.len()
            invariant
                i <= self.children.len(),
                root == seq![*self],
                first_tree(root + subtrees_all(self.children@.subrange(0, i as int)), id) is None,
            decreases self.children.len() - i,
        {
            proof {
                self.lemma_child(i as int);
                lemma_flatten_prefix(self.children@, i as int);
                lemma_first_tree_add(
                    root + subtrees_all(self.children@.subrange(0, i as int)),
                    subtrees(self.children@[i as int]),
                    id,
                );
                assert(root + subtrees_all(self.children@.subrange(0, i + 1)) =~= root
                    + subtrees_all(self.children@.subrange(0, i as int)) + subtrees(self.children@[i as int]));
            }
            let found = self.children[i].find_tree(id);
            if found.is_some() {
                proof {
                    lemma_first_tree_add(
                        root + subtrees_all(self.children@.subrange(0, i + 1)),
                        subtrees_all(self.children@.subrange(i + 1, self.children@.len() as int)),
                        id,
                    );
                    lemma_flatten_all_split(self.children@, i + 1);
                    assert(root + subtrees_all(self.children@) =~= root
                        + subtrees_all(self.children@.subrange(0, i + 1))
                        + subtrees_all(self.children@.subrange(i + 1, self.children@.len() as int)));
                }
                return found;
            }
            i = i + 1;
        }
        proof {
            assert(self.children@.subrange(0, i as int) =~= self.children@);
        }
        None
    }

    /// The smallest rectangle around every sprite of the tree.
    pub fn bounds(&self) -> (b: Bounds<i16>)
        requires
            all_fit(*self),
        ensures
            b == span(flatten(*self)),
        decreases *self,
    {
        let ghost root = seq![*self.node];
        let mut bounds = self.node.bounds();
        proof {
            assert(self.children@.subrange(0, 0) =~= Seq::<SpriteTree>::empty());
            assert(root + flatten_all(self.children@.subrange(0, 0)) =~= root);
        }
        let mut i: usize = 0;
        while i < self.children.len()
            invariant
                i <= self.children.len(),
                all_fit(*self),
                root == seq![*self.node],
                bounds == span(root + flatten_all(self.children@.subrange(0, i as int))),
            decreases self.children.len() - i,
        {
            proof {
                self.lemma_child(i as int);
                lemma_flatten_prefix(self.children@, i as int);
                lemma_flatten(self.children@[i as int]);
                lemma_span_add(
                    root + flatten_all(self.children@.subrange(0, i as int)),
                    flatten(self.children@[i as int]),
                );
                assert(root + flatten_all(self.children@.subrange(0, i + 1)) =~= root
                    + flatten_all(self.children@.subrange(0, i as int)) + flatten(self.children@[i as int]));
            }
            let cb = self.children[i].bounds();
            proof {
                lemma_merged_comm(cb, bounds);
            }
            bounds = cb.merge(bounds);
            i = i + 1;
        }
        proof {
            assert(self.children@.subrange(0, i as int) =~= self.children@);
            lemma_flatten(*self);
        }
        bounds
    }

    /// Marks dirty every cell that some sprite of the tree covers.
    pub fn register_dirt(&self, dirt: &mut Dirt)
        requires
            all_fit(*self),
            old(dirt).wf(),
        ensures
            final(dirt).wf(),
            forall|y: i16| #[trigger] final(dirt).lines().contains_key(y) <==> old(dirt).lines().contains_key(y)
                || covers_row(flatten(*self), y),
            forall|y: i16, x: i16| #[trigger] final(dirt).is_dirty(y, x) <==> old(dirt).is_dirty(y, x)
                || covers(flatten(*self), y, x),
        decreases *self,
    {
        let ghost d0 = *dirt;
        let ghost root = seq![*self.node];
        proof {
            assert(self.children@.subrange(0, 0) =~= Seq::<SpriteTree>::empty());
        }
        let mut i: usize = 0;
        while i < self.children.len()
            invariant
                i <= self.children.len(),
                all_fit(*self),
                root == seq![*self.node],
                dirt.wf(),
                forall|y: i16| #[trigger] dirt.lines().contains_key(y) <==> d0.lines().contains_key(y)
                    || covers_row(flatten_all(self.children@.subrange(0, i as int)), y),
                forall|y: i16, x: i16| #[trigger] dirt.is_dirty(y, x) <==> d0.is_dirty(y, x)
                    || covers(flatten_all(self.children@.subrange(0, i as int)), y, x),
            decreases self.children.len() - i,
        {
            proof {
                self.lemma_child(i as int);
                lemma_flatten_prefix(self.children@, i as int);
            }
            let ghost before = *dirt;
            self.children[i].register_dirt(dirt);
            proof {
                let a = flatten_all(self.children@.subrange(0, i as int));
                let b = flatten(self.children@[i as int]);
                assert forall|y: i16| #[trigger] dirt.lines().contains_key(y) <==> d0.lines().contains_key(y)
                    || covers_row(flatten_all(self.children@.subrange(0, i + 1)), y) by {
                    lemma_covers_add(a, b, y, 0);
                }
                assert forall|y: i16, x: i16| #[trigger] dirt.is_dirty(y, x) <==> d0.is_dirty(y, x)
                    || covers(flatten_all(self.children@.subrange(0, i + 1)), y, x) by {
                    lemma_covers_add(a, b, y, x);
                }
            }
            i = i + 1;
        }
        self.node.dirty_all(dirt);
        proof {
            assert(self.children@.subrange(0, i as int) =~= self.children@);
            lemma_flatten(*self);
            let a = root;
            let b = flatten_all(self.children@);
            assert(root[0] == *self.node);
            assert forall|y: i16| #[trigger] dirt.lines().contains_key(y) <==> d0.lines().contains_key(y)
                || covers_row(flatten(*self), y) by {
                lemma_covers_add(a, b, y, 0);
                if self.node.spec_bounds().y_min <= y < self.node.spec_bounds().y_max {
                    assert(covers_row(a, y));
                }
            }
            assert forall|y: i16, x: i16| #[trigger] dirt.is_dirty(y, x) <==> d0.is_dirty(y, x)
                || covers(flatten(*self), y, x) by {
                lemma_covers_add(a, b, y, x);
                if self.node.spec_bounds().spec_contains((y, x)) {
                    assert(covers(a, y, x));
                }
            }
        }
    }
}

impl SpriteTree {
    /// A copy of every sprite of the tree in preorder, leaving out each sprite whose
    /// identifier equals that of the sprite just before it.
    pub fn all_sprites(&self) -> (v: Vec<Stn>)
        ensures
            copies(v@, dedup_ids(flatten(*self))),
    {
        let mut flat: Vec<Stn> = Vec::new();
        self.flatten_into(&mut flat);
        let ghost f = flatten(*self);
        let mut out: Vec<Stn> = Vec::new();
        let mut i: usize = 0;
        proof {
            assert(f.subrange(0, 0) =~= Seq::<Sprite>::empty());
        }
        while i < flat.len()
            invariant
                i <= flat.len(),
                flat@.len() == f.len(),
                forall|k: int| 0 <= k < f.len() ==> (*flat@[0 + k]).same_as(#[trigger] f[k]),
                copies(out@, dedup_ids(f.subrange(0, i as int))),
            decreases flat.len() - i,
        {
            let keep = if i == 0 {
                true
            } else {
                !flat[i].id().eq(&flat[i - 1].id())
            };
            proof {
                assert(f.subrange(0, i + 1).drop_last() =~= f.subrange(0, i as int));
                assert((*flat@[0 + i]).same_as(f[i as int]));
                if i > 0 {
                    assert((*flat@[0 + (i - 1)]).same_as(f[i - 1]));
                    SpriteId::lemma_view_eq(f[i as int].spec_id(), f[i - 1].spec_id());
                }
            }
            if keep {
                let sp = flat[i].share();
                out.push(Box::new(sp));
            }
            i = i + 1;
        }
        proof {
            assert(f.subrange(0, i as int) =~= f);
        }
        out
    }

    /// Appends a copy of every sprite of the tree, in preorder.
    fn flatten_into(&self, out: &mut Vec<Stn>)
        ensures
            final(out)@.len() == old(out)@.len() + flatten(*self).len(),
            forall|k: int| 0 <= k < old(out)@.len() ==> #[trigger] final(out)@[k] == old(out)@[k],
            forall|k: int|
                0 <= k < flatten(*self).len() ==> (*final(out)@[old(out)@.len() + k]).same_as(
                    #[trigger] flatten(*self)[k],
                ),
        decreases *self,
    {
        let ghost o0 = out@;
        let ghost root = seq![*self.node];
        let sp = self.node.share();
        out.push(Box::new(sp));
        proof {
            assert(self.children@.subrange(0, 0) =~= Seq::<SpriteTree>::empty());
            assert(root + flatten_all(self.children@.subrange(0, 0)) =~= root);
        }
        let mut i: usize = 0;
        while i < self.children.len()
            invariant
                i <= self.children.len(),
                root == seq![*self.node],
                out@.len() == o0.len() + (root + flatten_all(self.children@.subrange(0, i as int))).len(),
                forall|k: int| 0 <= k < o0.len() ==> #[trigger] out@[k] == o0[k],
                forall|k: int|
                    0 <= k < (root + flatten_all(self.children@.subrange(0, i as int))).len() ==> (*out@[o0.len()
                        + k]).same_as(#[trigger] (root + flatten_all(self.children@.subrange(0, i as int)))[k]),
            decreases self.children.len() - i,
        {
            proof {
                self.lemma_child(i as int);
                lemma_flatten_prefix(self.children@, i as int);
                assert(root + flatten_all(self.children@.subrange(0, i + 1)) =~= root
                    + flatten_all(self.children@.subrange(0, i as int)) + flatten(self.children@[i as int]));
            }
            let ghost before = out@;
            let ghost pre = root + flatten_all(self.children@.subrange(0, i as int));
            let ghost c = flatten(self.children@[i as int]);
            self.children[i].flatten_into(out);
            proof {
                let post = root + flatten_all(self.children@.subrange(0, i + 1));
                assert(post =~= pre + c);
                assert forall|k: int| 0 <= k < post.len() implies (*out@[o0.len() + k]).same_as(
                    #[trigger] post[k],
                ) by {
                    if k < pre.len() {
                        assert(out@[o0.len() + k] == before[o0.len() + k]);
                        assert(post[k] == pre[k]);
                    } else {
                        assert(post[k] == c[k - pre.len()]);
                        assert(o0.len() + k == before.len() + (k - pre.len()));
                    }
                }
                assert forall|k: int| 0 <= k < o0.len() implies #[trigger] out@[k] == o0[k] by {
                    assert(out@[k] == before[k]);
                }
            }
            i = i + 1;
        }
        proof {
            assert(self.children@.subrange(0, i as int) =~= self.children@);
            lemma_flatten(*self);
        }
    }
}

/// `new` is `old` with one more child at the end: `tr`, changed throughout by what it
/// takes over from `old`'s sprite under `ins`.
pub closed spec fn adopted(new: SpriteTree, old: SpriteTree, tr: SpriteTree, ins: Inheritances) -> bool {
    &&& new.node == old.node
    &&& new.id == old.id
    &&& new.children@.len() == old.children@.len() + 1
    &&& new.children@.subrange(0, old.children@.len() as int) == old.children@
    &&& mapped(new.children@[old.children@.len() as int], tr, inherited(*old.node, ins), true)
}

/// Among the trees of `s`, the `i`-th is the first that holds a subtree with identifier
/// `id`.
pub open spec fn first_holder(s: Seq<SpriteTree>, id: TreeId, i: int) -> bool {
    &&& 0 <= i < s.len()
    &&& first_tree(subtrees(s[i]), id) is Some
    &&& forall|j: int| 0 <= j < i ==> first_tree(subtrees(#[trigger] s[j]), id) is None
}

/// `new` is `old` with `tr` adopted (see `adopted`) by the first subtree of `old`, in
/// preorder, whose identifier is `id`; every other part of the tree is kept.
pub closed spec fn attached(new: SpriteTree, old: SpriteTree, id: TreeId, tr: SpriteTree, ins: Inheritances) -> bool
    decreases old,
{
    if old.id == id {
        adopted(new, old, tr, ins)
    } else {
        &&& new.node == old.node
        &&& new.id == old.id
        &&& new.children@.len() == old.children@.len()
        &&& forall|i: int|
            0 <= i < old.children@.len() ==> if first_holder(old.children@, id, i) {
                attached(#[trigger] new.children@[i], old.children@[i], id, tr, ins)
            } else {
                new.children@[i] == old.children@[i]
            }
    }
}

/// Where the first subtree with identifier `id` is, in terms of the children.
proof fn lemma_first_tree_children(t: SpriteTree, id: TreeId)
    requires
        t.id != id,
    ensures
        first_tree(subtrees(t), id) == first_tree(subtrees_all(t.children@), id),
        forall|i: int| #[trigger] first_holder(t.children@, id, i) ==> first_tree(subtrees(t), id)
            == first_tree(subtrees(t.children@[i]), id),
        first_tree(subtrees(t), id) is Some ==> exists|i: int| #[trigger] first_holder(t.children@, id, i),
{
    let root = seq![t];
    assert(root.drop_last() =~= Seq::<SpriteTree>::empty());
    assert(root.last() == t);
    assert(first_tree(root.drop_last(), id) is None);
    assert(first_tree(root, id) is None);
    lemma_flatten(t);
    lemma_first_tree_add(root, subtrees_all(t.children@), id);
    assert forall|i: int| #[trigger] first_holder(t.children@, id, i) implies first_tree(subtrees(t), id)
        == first_tree(subtrees(t.children@[i]), id) by {
        lemma_first_holder(t.children@, id, i);
    }
    if first_tree(subtrees(t), id) is Some {
        lemma_some_holder(t.children@, id);
    }
}

proof fn lemma_first_holder(s: Seq<SpriteTree>, id: TreeId, i: int)
    requires
        first_holder(s, id, i),
    ensures
        first_tree(subtrees_all(s), id) == first_tree(subtrees(s[i]), id),
{
    lemma_none_before(s, id, i);
    lemma_flatten_all_split(s, i);
    let rest = s.subrange(i, s.len() as int);
    lemma_flatten_all_cons(s[i], rest.drop_first());
    assert(rest =~= seq![s[i]] + rest.drop_first());
    lemma_first_tree_add(subtrees_all(s.subrange(0, i)), subtrees_all(rest), id);
    lemma_first_tree_add(subtrees(s[i]), subtrees_all(rest.drop_first()), id);
}

proof fn lemma_none_before(s: Seq<SpriteTree>, id: TreeId, i: int)
    requires
        0 <= i <= s.len(),
        forall|j: int| 0 <= j < i ==> first_tree(subtrees(#[trigger] s[j]), id) is None,
    ensures
        first_tree(subtrees_all(s.subrange(0, i)), id) is None,
    decreases i,
{
    if i == 0 {
        assert(s.subrange(0, 0) =~= Seq::<SpriteTree>::empty());
    } else {
        lemma_none_before(s, id, i - 1);
        lemma_flatten_prefix(s, i - 1);
        lemma_first_tree_add(subtrees_all(s.subrange(0, i - 1)), subtrees(s[i - 1]), id);
    }
}

proof fn lemma_some_holder(s: Seq<SpriteTree>, id: TreeId)
    requires
        first_tree(subtrees_all(s), id) is Some,
    ensures
        exists|i: int| #[trigger] first_holder(s, id, i),
    decreases s.len(),
{
    if s.len() == 0 {
    } else {
        let p = s.drop_last();
        lemma_first_tree_add(subtrees_all(p), subtrees(s[s.len() - 1]), id);
        if first_tree(subtrees_all(p), id) is Some {
            lemma_some_holder(p, id);
            let i = choose|i: int| #[trigger] first_holder(p, id, i);
            assert(s[i] == p[i]);
            assert forall|j: int| 0 <= j < i implies first_tree(subtrees(#[trigger] s[j]), id) is None by {
                assert(s[j] == p[j]);
            }
            assert(first_holder(s, id, i));
        } else {
            assert forall|j: int| 0 <= j < s.len() - 1 implies first_tree(subtrees(#[trigger] s[j]), id) is None by {
                if first_tree(subtrees(s[j]), id) is Some {
                    lemma_first_before(p, id, j);
                }
            }
            assert(first_holder(s, id, s.len() - 1));
        }
    }
}

/// A tree of `s` that holds `id` makes the whole sequence hold it.
proof fn lemma_first_before(s: Seq<SpriteTree>, id: TreeId, j: int)
    requires
        0 <= j < s.len(),
        first_tree(subtrees(s[j]), id) is Some,
    ensures
        first_tree(subtrees_all(s), id) is Some,
{
    lemma_flatten_all_split(s, j);
    let rest = s.subrange(j, s.len() as int);
    lemma_flatten_all_cons(s[j], rest.drop_first());
    assert(rest =~= seq![s[j]] + rest.drop_first());
    lemma_first_tree_add(subtrees_all(s.subrange(0, j)), subtrees_all(rest), id);
    lemma_first_tree_add(subtrees(s[j]), subtrees_all(rest.drop_first()), id);
}

impl SpriteTree {
    /// Adds `tr` as the last child, after it has taken over what `ins` marks from this
    /// tree's sprite.
    fn adopt(&mut self, tr: Self, ins: Inheritances)
        requires
            tree_fits(tr, inherited(old(self).spec_node(), ins), true),
        ensures
            adopted(*final(self), *old(self), tr, ins),
    {
        let mut tr = tr;
        tr.inherit(self, ins);
        self.children.push(tr);
        proof {
            assert(self.children@.subrange(0, self.children@.len() - 1) =~= old(self).children@);
        }
    }

    /// Adds `tr` under the first subtree, in preorder, with identifier `id`.
    fn attach(&mut self, tr: Self, id: TreeId, ins: Inheritances)
        requires
            first_tree(subtrees(*old(self)), id) matches Some(p) && tree_fits(
                tr,
                inherited(p.spec_node(), ins),
                true,
            ),
        ensures
            attached(*final(self), *old(self), id, tr, ins),
        decreases *old(self),
    {
        let ghost t = *self;
        proof {
            TreeId::lemma_view_eq(self.id, id);
        }
        if self.id.eq(&id) {
            proof {
                let root = seq![t];
                assert(root.drop_last() =~= Seq::<SpriteTree>::empty());
                assert(root.last() == t);
                assert(first_tree(root.drop_last(), id) is None);
                assert(first_tree(root, id) == Some(t));
                lemma_flatten(t);
                lemma_first_tree_add(root, subtrees_all(t.children@), id);
            }
            self.adopt(tr, ins);
            return;
        }
        proof {
            lemma_first_tree_children(t, id);
        }
        let mut i: usize = 0;
        while i < self.children.len() && self.children[i].find_tree(id).is_none()
            invariant
                *self == t,
                t.id != id,
                i <= self.children.len(),
                exists|k: int| #[trigger] first_holder(t.children@, id, k),
                forall|j: int| 0 <= j < i ==> first_tree(subtrees(#[trigger] t.children@[j]), id) is None,
            decreases self.children.len() - i,
        {
            i = i + 1;
        }
        proof {
            let k = choose|k: int| #[trigger] first_holder(t.children@, id, k);
            if i as int == t.children@.len() {
                assert(first_tree(subtrees(t.children@[k]), id) is None);
            }
            assert(first_holder(t.children@, id, i as int));
            self.lemma_child(i as int);
        }
        let mut c = self.children.remove(i);
        c.attach(tr, id, ins);
        self.children.insert(i, c);
        proof {
            assert forall|j: int| 0 <= j < t.children@.len() implies if first_holder(t.children@, id, j) {
                attached(#[trigger] self.children@[j], t.children@[j], id, tr, ins)
            } else {
                self.children@[j] == t.children@[j]
            } by {
                if first_holder(t.children@, id, j) && j != i {
                    if j < i {
                        assert(first_tree(subtrees(t.children@[j]), id) is None);
                    } else {
                        assert(first_tree(subtrees(t.children@[i as int]), id) is None);
                    }
                }
            }
        }
    }

    /// Adds `tr` as a child of the first subtree, in preorder, whose identifier is the
    /// `parent` given, or of the root when none is given. `tr` first takes over from its
    /// new parent's sprite what `ins` marks. Fails with `IdNotFound`, changing nothing,
    /// when no subtree has that identifier.
    pub fn insert_tree(&mut self, tr: Self, parent: Option<TreeId>, ins: Inheritances) -> (r: Result<()>)
        requires
            match parent {
                Some(id) => first_tree(subtrees(*old(self)), id) matches Some(p) ==> tree_fits(
                    tr,
                    inherited(p.spec_node(), ins),
                    true,
                ),
                None => tree_fits(tr, inherited(old(self).spec_node(), ins), true),
            },
        ensures
            match parent {
                Some(id) => {
                    &&& r is Ok <==> first_tree(subtrees(*old(self)), id) is Some
                    &&& r is Ok ==> attached(*final(self), *old(self), id, tr, ins)
                    &&& r matches Err(e) ==> e.kind == SetErrorKind::IdNotFound && *final(self) == *old(self)
                },
                None => r is Ok && adopted(*final(self), *old(self), tr, ins),
            },
    {
        match parent {
            Some(id) => {
                if self.find_tree(id).is_some() {
                    self.attach(tr, id, ins);
                    Ok(())
                } else {
                    Err(SetError::new(SetErrorKind::IdNotFound, "no tree has this id"))
                }
            },
            None => {
                self.adopt(tr, ins);
                Ok(())
            },
        }
    }

    /// Adds `tr` as the last child of the root, after it has taken over what `ins` marks
    /// from the root's sprite.
    pub fn push_tree(&mut self, tr: Self, ins: Inheritances)
        requires
            tree_fits(tr, inherited(old(self).spec_node(), ins), true),
        ensures
            adopted(*final(self), *old(self), tr, ins),
    {
        let _ = self.insert_tree(tr, None, ins);
    }
}

/// `t` is a tree of the one sprite `sp`, with identifier `id`.
pub open spec fn single(t: SpriteTree, sp: Sprite, id: TreeId) -> bool {
    &&& t.spec_node() == sp
    &&& t.spec_id() == id
    &&& t.spec_children().len() == 0
}

/// A tree without children fits a change when its sprite does.
proof fn lemma_single_fits(t: SpriteTree, d: Delta)
    requires
        t.children@.len() == 0,
    ensures
        tree_fits(t, d, true) <==> delta_fits(*t.node, d),
{
}

impl SpriteTree {
    /// Adds a new tree of the one sprite `sp`, with a fresh identifier, as a child of the
    /// first subtree whose identifier is `parent` (of the root when none is given), and
    /// returns the new identifier; `None`, changing nothing, when no subtree has that
    /// identifier.
    pub fn insert_sprite(&mut self, sp: Stn, parent: Option<TreeId>, ins: Inheritances) -> (r: Option<TreeId>)
        requires
            match parent {
                Some(id) => first_tree(subtrees(*old(self)), id) matches Some(p) ==> delta_fits(
                    *sp,
                    inherited(p.spec_node(), ins),
                ),
                None => delta_fits(*sp, inherited(old(self).spec_node(), ins)),
            },
        ensures
            parent matches Some(id) ==> (r is Some <==> first_tree(subtrees(*old(self)), id) is Some),
            parent is Some && r is Some ==> exists|t: SpriteTree|
                single(t, *sp, r->0) && attached(*final(self), *old(self), parent->0, t, ins),
            parent is Some && r is None ==> *final(self) == *old(self),
            parent is None ==> r is Some,
            parent is None ==> exists|t: SpriteTree|
                single(t, *sp, r->0) && adopted(*final(self), *old(self), t, ins),
    {
        let new_tr = Self::new(sp);
        let new_id = new_tr.id();
        let ghost t = new_tr;
        proof {
            lemma_single_fits(t, inherited(old(self).spec_node(), ins));
            if let Some(id) = parent {
                if let Some(p) = first_tree(subtrees(*old(self)), id) {
                    lemma_single_fits(t, inherited(p.spec_node(), ins));
                }
            }
        }
        let res = self.insert_tree(new_tr, parent, ins);
        let r = match res {
            Ok(_) => Some(new_id),
            Err(_) => None,
        };
        proof {
            assert(single(t, *sp, new_id));
            if r is Some {
                assert(r->0 == new_id);
            }
            if let Some(id) = parent {
                if res is Ok {
                    assert(single(t, *sp, new_id) && attached(*self, *old(self), id, t, ins));
                }
            } else {
                assert(single(t, *sp, new_id) && adopted(*self, *old(self), t, ins));
            }
        }
        r
    }

    /// Adds a new tree of the one sprite `sp`, with a fresh identifier, as the last child
    /// of the root, and returns the new identifier.
    pub fn push_sprite(&mut self, sp: Stn, ins: Inheritances) -> (nid: TreeId)
        requires
            delta_fits(*sp, inherited(old(self).spec_node(), ins)),
        ensures
            exists|t: SpriteTree| single(t, *sp, nid) && adopted(*final(self), *old(self), t, ins),
    {
        let new_tr = Self::new(sp);
        let new_id = new_tr.id();
        proof {
            lemma_single_fits(new_tr, inherited(old(self).spec_node(), ins));
        }
        let ghost t = new_tr;
        self.push_tree(new_tr, ins);
        proof {
            assert(single(t, *sp, new_id) && adopted(*self, *old(self), t, ins));
        }
        new_id
    }
}

impl SpriteTree {
    /// The children, to change in place; the root's sprite and identifier stay.
    pub fn children_mut(&mut self) -> (c: &mut Vec<Self>)
        ensures
            c@ == old(self).spec_children(),
            final(self).spec_children() == final(c)@,
            final(self).spec_node() == old(self).spec_node(),
            final(self).spec_id() == old(self).spec_id(),
    {
        &mut self.children
    }
}

/// A change applied throughout a tree (`deep`) reaches every sprite and keeps their
/// order: the new tree's sprites, in preorder, are the old ones, each changed.
pub proof fn lemma_mapped_flatten(new: SpriteTree, old: SpriteTree, d: Delta)
    requires
        mapped(new, old, d, true),
    ensures
        flatten(new) == flatten(old).map_values(|s: Sprite| apply_delta(s, d)),
    decreases old,
{
    assert(decreases_to!(old => old.children));
    assert(decreases_to!(old.children => old.children@));
    lemma_mapped_flatten_all(new.children@, old.children@, d);
    let f = |s: Sprite| apply_delta(s, d);
    assert((seq![*old.node] + flatten_all(old.children@)).map_values(f) =~= seq![*old.node].map_values(f)
        + flatten_all(old.children@).map_values(f));
    assert(seq![*old.node].map_values(f) =~= seq![*new.node]);
}

/// The sprite `n` is `o` after taking over from the sprite `parent` under `ins`: it
/// keeps its picture and identifier; it gets `parent`'s visibility when `ins` marks
/// visibility `Children` and keeps its own otherwise; likewise for clickability; its
/// order and anchor are shifted by `parent`'s when `ins` marks them `Children`, and kept
/// otherwise.
pub open spec fn took_over(n: Sprite, o: Sprite, parent: Sprite, ins: Inheritances) -> bool {
    &&& n.spec_img() == o.spec_img()
    &&& n.spec_id() == o.spec_id()
    &&& n.spec_visible() == if ins.visibility == InheritanceType::Children {
        parent.spec_visible()
    } else {
        o.spec_visible()
    }
    &&& n.spec_clickable() == if ins.clickability == InheritanceType::Children {
        parent.spec_clickable()
    } else {
        o.spec_clickable()
    }
    &&& n.spec_order() == if ins.order == InheritanceType::Children {
        (o.spec_order() + parent.spec_order()) as i16
    } else {
        o.spec_order()
    }
    &&& n.spec_anchor() == if ins.anchor == InheritanceType::Children {
        TermPos {
            y: (o.spec_anchor().y + parent.spec_anchor().y) as i16,
            x: (o.spec_anchor().x + parent.spec_anchor().x) as i16,
        }
    } else {
        o.spec_anchor()
    }
}

/// What a subtree takes over from the sprite `parent` it is attached under (`inherit`):
/// every sprite of it, in preorder, is the old one after taking over (see `took_over`).
pub proof fn lemma_inherit_takes_over(new: SpriteTree, old: SpriteTree, parent: Sprite, ins: Inheritances)
    requires
        mapped(new, old, inherited(parent, ins), true),
    ensures
        flatten(new).len() == flatten(old).len(),
        forall|k: int|
            0 <= k < flatten(new).len() ==> took_over(#[trigger] flatten(new)[k], flatten(old)[k], parent, ins),
{
    let d = inherited(parent, ins);
    lemma_mapped_flatten(new, old, d);
    assert forall|k: int| 0 <= k < flatten(new).len() implies took_over(
        #[trigger] flatten(new)[k],
        flatten(old)[k],
        parent,
        ins,
    ) by {
        let o = flatten(old)[k];
        let a = TermPos {
            y: (o.spec_anchor().y + parent.spec_anchor().y) as i16,
            x: (o.spec_anchor().x + parent.spec_anchor().x) as i16,
        };
        let s1 = if ins.anchor == InheritanceType::Children { o.with_anchor(a) } else { o };
        o.lemma_with(a, 0, o.spec_visible(), o.spec_clickable());
        let ord = (s1.spec_order() + parent.spec_order()) as i16;
        let s2 = if ins.order == InheritanceType::Children { s1.with_order(ord) } else { s1 };
        s1.lemma_with(a, ord, parent.spec_visible(), parent.spec_clickable());
        let s3 = if ins.visibility == InheritanceType::Children { s2.with_visible(parent.spec_visible()) } else { s2 };
        s2.lemma_with(a, ord, parent.spec_visible(), parent.spec_clickable());
        s3.lemma_with(a, ord, parent.spec_visible(), parent.spec_clickable());
        assert(flatten(new)[k] == apply_delta(o, d));
    }
}

/// Attaching a subtree (`push_tree`, `insert_tree`, `push_sprite`, `insert_sprite`)
/// makes it take over from its new parent's sprite throughout: the attached subtree is
/// the last child, and each of its sprites is the old one after taking over from the
/// parent (see `took_over`); so with visibility marked `Children` every sprite of it
/// shows or hides with the parent.
pub proof fn lemma_adopted_takes_over(new: SpriteTree, old: SpriteTree, tr: SpriteTree, ins: Inheritances)
    requires
        adopted(new, old, tr, ins),
    ensures
        new.spec_children().len() == old.spec_children().len() + 1,
        flatten(new.spec_children().last()).len() == flatten(tr).len(),
        forall|k: int|
            0 <= k < flatten(tr).len() ==> took_over(
                #[trigger] flatten(new.spec_children().last())[k],
                flatten(tr)[k],
                old.spec_node(),
                ins,
            ),
{
    let c = new.children@[old.children@.len() as int];
    assert(new.spec_children().last() == c);
    lemma_inherit_takes_over(c, tr, *old.node, ins);
}

/// Sequences of trees, each changed throughout: their sprites are the old ones, each
/// changed.
pub proof fn lemma_mapped_flatten_all(news: Seq<SpriteTree>, olds: Seq<SpriteTree>, d: Delta)
    requires
        news.len() == olds.len(),
        forall|i: int| 0 <= i < olds.len() ==> mapped(#[trigger] news[i], olds[i], d, true),
    ensures
        flatten_all(news) == flatten_all(olds).map_values(|s: Sprite| apply_delta(s, d)),
    decreases olds,
{
    let f = |s: Sprite| apply_delta(s, d);
    if olds.len() == 0 {
        assert(flatten_all(olds).map_values(f) =~= Seq::<Sprite>::empty());
    } else {
        let n = olds.len() - 1;
        assert(forall|i: int| 0 <= i < n ==> #[trigger] news.drop_last()[i] == news[i]);
        assert(forall|i: int| 0 <= i < n ==> #[trigger] olds.drop_last()[i] == olds[i]);
        assert(mapped(news[n], olds[n], d, true));
        lemma_mapped_flatten_all(news.drop_last(), olds.drop_last(), d);
        lemma_mapped_flatten(news[n], olds[n], d);
        assert((flatten_all(olds.drop_last()) + flatten(olds[n])).map_values(f) =~= flatten_all(
            olds.drop_last(),
        ).map_values(f) + flatten(olds[n]).map_values(f));
    }
}

/// Shifting a tree throughout by `v` and then by `-v` gives back every sprite as it
/// was.
pub proof fn lemma_shift_back(t0: SpriteTree, t1: SpriteTree, t2: SpriteTree, v: TermPos)
    requires
        v.y != i16::MIN,
        v.x != i16::MIN,
        tree_fits(t0, moving(v), true),
        mapped(t1, t0, moving(v), true),
        mapped(t2, t1, moving(TermPos { y: (-v.y) as i16, x: (-v.x) as i16 }), true),
    ensures
        flatten(t2) == flatten(t0),
{
    let w = TermPos { y: (-v.y) as i16, x: (-v.x) as i16 };
    lemma_mapped_flatten(t1, t0, moving(v));
    lemma_mapped_flatten(t2, t1, moving(w));
    lemma_fits_flatten(t0, moving(v));
    let f0 = flatten(t0);
    assert forall|k: int| 0 <= k < f0.len() implies #[trigger] apply_delta(
        apply_delta(f0[k], moving(v)),
        moving(w),
    ) == f0[k] by {
        let s = f0[k];
        let a = TermPos { y: (s.spec_anchor().y + v.y) as i16, x: (s.spec_anchor().x + v.x) as i16 };
        s.lemma_with(a, 0, s.spec_visible(), s.spec_clickable());
        let s1 = s.with_anchor(a);
        assert(s1.spec_anchor() == a);
        assert(TermPos { y: (a.y + w.y) as i16, x: (a.x + w.x) as i16 } == s.spec_anchor());
    }
    assert(flatten(t2) =~= f0);
}

/// Every sprite of a tree that fits a change fits it.
pub proof fn lemma_fits_flatten(t: SpriteTree, d: Delta)
    requires
        tree_fits(t, d, true),
    ensures
        forall|k: int| 0 <= k < flatten(t).len() ==> delta_fits(#[trigger] flatten(t)[k], d),
    decreases t,
{
    assert(decreases_to!(t => t.children));
    assert(decreases_to!(t.children => t.children@));
    lemma_fits_flatten_all(t.children@, d);
    let a = seq![*t.node];
    let b = flatten_all(t.children@);
    assert forall|k: int| 0 <= k < flatten(t).len() implies delta_fits(#[trigger] flatten(t)[k], d) by {
        if k == 0 {
            assert(flatten(t)[k] == *t.node);
        } else {
            assert(b[k - 1] == (a + b)[k]);
        }
    }
}

proof fn lemma_fits_flatten_all(s: Seq<SpriteTree>, d: Delta)
    requires
        forall|i: int| 0 <= i < s.len() ==> tree_fits(#[trigger] s[i], d, true),
    ensures
        forall|k: int| 0 <= k < flatten_all(s).len() ==> delta_fits(#[trigger] flatten_all(s)[k], d),
    decreases s,
{
    if s.len() > 0 {
        let n = s.len() - 1;
        assert(forall|i: int| 0 <= i < n ==> #[trigger] s.drop_last()[i] == s[i]);
        lemma_fits_flatten_all(s.drop_last(), d);
        assert(tree_fits(s[n], d, true));
        lemma_fits_flatten(s[n], d);
        let a = flatten_all(s.drop_last());
        let b = flatten(s[n]);
        assert forall|k: int| 0 <= k < (a + b).len() implies delta_fits(#[trigger] (a + b)[k], d) by {
            if k < a.len() {
                assert(a[k] == (a + b)[k]);
            } else {
                assert(b[k - a.len()] == (a + b)[k]);
            }
        }
    }
}

/// Inheriting nothing changes no sprite.
pub proof fn lemma_inherit_none(new: SpriteTree, old: SpriteTree, parent: Sprite)
    requires
        mapped(
            new,
            old,
            inherited(
                parent,
                Inheritances {
                    anchor: InheritanceType::Dont,
                    order: InheritanceType::Dont,
                    visibility: InheritanceType::Dont,
                    clickability: InheritanceType::Dont,
                },
            ),
            true,
        ),
    ensures
        flatten(new) == flatten(old),
{
    let ins = Inheritances {
        anchor: InheritanceType::Dont,
        order: InheritanceType::Dont,
        visibility: InheritanceType::Dont,
        clickability: InheritanceType::Dont,
    };
    let d = inherited(parent, ins);
    lemma_mapped_flatten(new, old, d);
    assert(flatten(new) =~= flatten(old));
}

/// A tree fits a change throughout exactly when each of its sprites does.
pub proof fn lemma_tree_fits_iff(t: SpriteTree, d: Delta)
    ensures
        tree_fits(t, d, true) <==> forall|k: int| 0 <= k < flatten(t).len() ==> delta_fits(#[trigger] flatten(t)[k], d),
    decreases t,
{
    if tree_fits(t, d, true) {
        lemma_fits_flatten(t, d);
    }
    if forall|k: int| 0 <= k < flatten(t).len() ==> delta_fits(#[trigger] flatten(t)[k], d) {
        assert(flatten(t)[0] == *t.node);
        assert forall|i: int| 0 <= i < t.children@.len() implies tree_fits(#[trigger] t.children@[i], d, true) by {
            t.lemma_child(i);
            lemma_flatten_all_member(t.children@, i);
            let c = t.children@[i];
            assert forall|k: int| 0 <= k < flatten(c).len() implies delta_fits(#[trigger] flatten(c)[k], d) by {
                let off = flatten_all(t.children@.subrange(0, i)).len();
                assert(flatten(t)[1 + off + k] == flatten(c)[k]);
            }
            lemma_tree_fits_iff(c, d);
        }
    }
}

/// Every sprite of a tree satisfies `f` exactly when each of the sprites in its
/// preorder does.
pub proof fn lemma_all_nodes_iff(t: SpriteTree, f: spec_fn(Sprite) -> bool)
    ensures
        all_nodes(t, f) <==> forall|k: int| 0 <= k < flatten(t).len() ==> f(#[trigger] flatten(t)[k]),
    decreases t,
{
    assert(flatten(t)[0] == *t.node);
    assert forall|i: int| 0 <= i < t.children@.len() implies (all_nodes(#[trigger] t.children@[i], f) <==> forall|
        k: int,
    | 0 <= k < flatten(t.children@[i]).len() ==> f(#[trigger] flatten(t.children@[i])[k])) by {
        t.lemma_child(i);
        lemma_all_nodes_iff(t.children@[i], f);
    }
    if all_nodes(t, f) {
        assert forall|k: int| 0 <= k < flatten(t).len() implies f(#[trigger] flatten(t)[k]) by {
            if k > 0 {
                let (i, j) = lemma_flatten_all_locate(t.children@, k - 1);
                assert(flatten(t)[k] == flatten_all(t.children@)[k - 1]);
            }
        }
    }
    if forall|k: int| 0 <= k < flatten(t).len() ==> f(#[trigger] flatten(t)[k]) {
        assert forall|i: int| 0 <= i < t.children@.len() implies all_nodes(#[trigger] t.children@[i], f) by {
            lemma_flatten_all_member(t.children@, i);
            let c = t.children@[i];
            assert forall|k: int| 0 <= k < flatten(c).len() implies f(#[trigger] flatten(c)[k]) by {
                let off = flatten_all(t.children@.subrange(0, i)).len();
                assert(flatten(t)[1 + off + k] == flatten(c)[k]);
            }
        }
    }
}

/// The sprites of the `i`-th tree sit in the sprites of the sequence after those of the
/// trees before it.
pub proof fn lemma_flatten_all_member(s: Seq<SpriteTree>, i: int)
    requires
        0 <= i < s.len(),
    ensures
        forall|k: int|
            0 <= k < flatten(s[i]).len() ==> flatten_all(s)[flatten_all(s.subrange(0, i)).len() + k]
                == #[trigger] flatten(s[i])[k],
        flatten_all(s.subrange(0, i)).len() + flatten(s[i]).len() <= flatten_all(s).len(),
{
    lemma_flatten_all_split(s, i);
    let rest = s.subrange(i, s.len() as int);
    lemma_flatten_all_cons(s[i], rest.drop_first());
    assert(rest =~= seq![s[i]] + rest.drop_first());
}

/// Each sprite of a sequence of trees belongs to one of the trees.
pub proof fn lemma_flatten_all_locate(s: Seq<SpriteTree>, k: int) -> (r: (int, int))
    requires
        0 <= k < flatten_all(s).len(),
    ensures
        0 <= r.0 < s.len(),
        0 <= r.1 < flatten(s[r.0]).len(),
        flatten_all(s)[k] == flatten(s[r.0])[r.1],
    decreases s.len(),
{
    let p = s.drop_last();
    let n = s.len() - 1;
    if k < flatten_all(p).len() {
        let r = lemma_flatten_all_locate(p, k);
        assert(p[r.0] == s[r.0]);
        r
    } else {
        (n, k - flatten_all(p).len())
    }
}

/// Every sprite of a tree fits `i16` exactly when each sprite of its preorder does.
pub proof fn lemma_all_fit_iff(t: SpriteTree)
    ensures
        all_fit(t) <==> forall|k: int| 0 <= k < flatten(t).len() ==> (#[trigger] flatten(t)[k]).bounds_fit(),
{
    let f = |sp: Sprite| sp.bounds_fit();
    lemma_all_nodes_iff(t, f);
    assert(all_fit(t) == all_nodes(t, f));
}

/// `sp` moved by `delta` stays within `i16`, covers cells that do too, and can then take
/// over the anchor and order of `parent`.
pub open spec fn fits_moved_under(sp: Sprite, delta: TermPos, parent: Sprite) -> bool {
    let moved = apply_delta(sp, moving(delta));
    &&& delta_fits(sp, moving(delta))
    &&& moved.bounds_fit()
    &&& delta_fits(
        moved,
        Delta { anchor: Some(parent.spec_anchor()), order: Some(parent.spec_order()), visible: None, clickable: None },
    )
}

/// Whether the sprite `sp` passes `fits_moved_under`.
fn sprite_fits_moved_under(sp: &Stn, delta: TermPos, parent: &Stn) -> (b: bool)
    ensures
        b == fits_moved_under(**sp, delta, **parent),
{
    let a = sp.anchor();
    let y = a.y as i32 + delta.y as i32;
    let x = a.x as i32 + delta.x as i32;
    if y < -32768 || y > 32767 || x < -32768 || x > 32767 {
        return false;
    }
    let moved = TermPos { y: y as i16, x: x as i16 };
    proof {
        (**sp).lemma_with(moved, 0, sp.spec_visible(), sp.spec_clickable());
        assert(apply_delta(**sp, moving(delta)) == (**sp).with_anchor(moved));
    }
    if !sp.fits_at(moved) {
        return false;
    }
    let p = parent.anchor();
    let py = moved.y as i32 + p.y as i32;
    let px = moved.x as i32 + p.x as i32;
    let po = sp.order() as i32 + parent.order() as i32;
    -32768 <= py && py <= 32767 && -32768 <= px && px <= 32767 && -32768 <= po && po <= 32767
}

impl SpriteTree {
    /// Whether every sprite of the tree passes `fits_moved_under`.
    pub fn fits_moved_under(&self, delta: TermPos, parent: &Stn) -> (b: bool)
        ensures
            b == forall|k: int|
                0 <= k < flatten(*self).len() ==> fits_moved_under(#[trigger] flatten(*self)[k], delta, **parent),
        decreases *self,
    {
        let ghost f = |sp: Sprite| fits_moved_under(sp, delta, **parent);
        proof {
            lemma_all_nodes_iff(*self, f);
        }
        if !sprite_fits_moved_under(&self.node, delta, parent) {
            return false;
        }
        let mut i: usize = 0;
        while i < self.children.len()
            invariant
                i <= self.children@.len(),
                f == (|sp: Sprite| fits_moved_under(sp, delta, **parent)),
                f(*self.node),
                forall|j: int| 0 <= j < i ==> all_nodes(#[trigger] self.children@[j], f),
            decreases self.children.len() - i,
        {
            proof {
                self.lemma_child(i as int);
            }
            let ok = self.children[i].fits_moved_under(delta, parent);
            proof {
                lemma_all_nodes_iff(self.children@[i as int], f);
            }
            if !ok {
                proof {
                    assert(!all_nodes(self.children@[i as int], f));
                    lemma_all_nodes_iff(*self, f);
                }
                return false;
            }
            i = i + 1;
        }
        true
    }

    /// Whether every sprite of the tree covers cells whose coordinates fit in `i16`.
    pub fn fits(&self) -> (b: bool)
        ensures
            b == all_fit(*self),
        decreases *self,
    {
        if !self.node.fits() {
            return false;
        }
        let mut i: usize = 0;
        while i < self.children.len()
            invariant
                i <= self.children@.len(),
                self.node.bounds_fit(),
                forall|j: int| 0 <= j < i ==> all_fit(#[trigger] self.children@[j]),
            decreases self.children.len() - i,
        {
            proof {
                self.lemma_child(i as int);
            }
            if !self.children[i].fits() {
                return false;
            }
            i = i + 1;
        }
        true
    }
}

/// `new` is `old` with the first subtree, in preorder, whose identifier is `id` replaced
/// by `sub`; every other part of the tree is kept.
pub closed spec fn replaced(new: SpriteTree, old: SpriteTree, id: TreeId, sub: SpriteTree) -> bool
    decreases old,
{
    if old.id == id {
        new == sub
    } else {
        &&& new.node == old.node
        &&& new.id == old.id
        &&& new.children@.len() == old.children@.len()
        &&& forall|i: int|
            0 <= i < old.children@.len() ==> if first_holder(old.children@, id, i) {
                replaced(#[trigger] new.children@[i], old.children@[i], id, sub)
            } else {
                new.children@[i] == old.children@[i]
            }
    }
}

impl SpriteTree {
    /// The first subtree, in preorder, with identifier `id` (the tree itself included),
    /// to change in place; what it becomes takes its place in the tree.
    pub fn tree_mut(&mut self, id: TreeId) -> (r: Option<&mut Self>)
        ensures
            r is Some <==> first_tree(subtrees(*old(self)), id) is Some,
            r matches Some(t) ==> first_tree(subtrees(*old(self)), id) == Some(*t),
            r matches Some(t) ==> replaced(*final(self), *old(self), id, *final(t)),
            r is None ==> *final(self) == *old(self),
        decreases *old(self),
    {
        let ghost t = *self;
        proof {
            TreeId::lemma_view_eq(self.id, id);
            let root = seq![t];
            assert(root.drop_last() =~= Seq::<SpriteTree>::empty());
            assert(root.last() == t);
            assert(first_tree(root.drop_last(), id) is None);
            lemma_flatten(t);
            lemma_first_tree_add(root, subtrees_all(t.children@), id);
        }
        if self.id.eq(&id) {
            return Some(self);
        }
        proof {
            lemma_first_tree_children(t, id);
        }
        let mut i: usize = 0;
        while i < self.children.len() && self.children[i].find_tree(id).is_none()
            invariant
                *self == t,
                t.id != id,
                i <= self.children.len(),
                forall|j: int| 0 <= j < i ==> first_tree(subtrees(#[trigger] t.children@[j]), id) is None,
            decreases self.children.len() - i,
        {
            i = i + 1;
        }
        if i == self.children.len() {
            proof {
                if first_tree(subtrees(t), id) is Some {
                    let k = choose|k: int| #[trigger] first_holder(t.children@, id, k);
                    assert(first_tree(subtrees(t.children@[k]), id) is None);
                }
            }
            return None;
        }
        proof {
            assert(first_holder(t.children@, id, i as int));
            self.lemma_child(i as int);
        }
        let c = &mut self.children[i];
        c.tree_mut(id)
    }
}

} // verus!
