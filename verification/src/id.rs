use vstd::prelude::*;
use std::marker::PhantomData;

use crate::deck::Card;

verus! {

/// A random identifier for values of type `T`.
#[derive(Debug)]
pub struct Id<T>(u128, PhantomData<T>);

/// A fresh random 128-bit identifier.
///
/// Calls `Uuid::new_v4` of `uuid` and reads the result with `Uuid::as_u128`. The value is
/// random; its source fixes only the version bits (4) and the variant bits (binary 10),
/// which is what the contract states.
#[verifier::external_body]
fn fresh_uuid() -> (v: u128)
    ensures
        (v >> 76u128) & 0xfu128 == 4,
        (v >> 62u128) & 0x3u128 == 2,
{
    uuid::Uuid::new_v4().as_u128()
}

impl<T> View for Id<T> {
    type V = u128;

    /// The identifier's value.
    closed spec fn view(&self) -> u128 {
        self.0
    }
}

impl<T> Copy for Id<T> {}

impl<T> Clone for Id<T> {
    fn clone(&self) -> (r: Self)
        ensures
            r == *self,
    {
        *self
    }
}

impl<T> Id<T> {
    /// A fresh random identifier.
    pub fn default() -> (id: Self)
        ensures
            (id@ >> 76u128) & 0xfu128 == 4,
            (id@ >> 62u128) & 0x3u128 == 2,
    {
        Id(fresh_uuid(), PhantomData)
    }

    /// Two identifiers are equal exactly when their values are.
    pub proof fn lemma_view_eq(a: Self, b: Self)
        ensures
            a@ == b@ <==> a == b,
    {
    }

    /// Whether two identifiers are the same.
    pub fn eq(&self, oth: &Self) -> (b: bool)
        ensures
            b == (self@ == oth@),
    {
        self.0 == oth.0
    }

    /// The identifier with the same value, for another type.
    pub fn from<S>(oth: Id<S>) -> (id: Self)
        ensures
            id@ == oth@,
    {
        Id(oth.0, PhantomData)
    }

    /// The identifier with the same value, for another type.
    pub fn into<S>(self) -> (id: Id<S>)
        ensures
            id@ == self@,
    {
        Id(self.0, PhantomData)
    }
}

/// A key naming a thing: a card, a name, or both.
#[derive(Debug, Clone, PartialEq, Eq, Hash)]
pub struct IdKey {
    pub card: Option<Card>,
    pub name: Option<String>,
}

impl View for IdKey {
    type V = (Option<Card>, Option<Seq<char>>);

    /// The card and the name's characters.
    open spec fn view(&self) -> (Option<Card>, Option<Seq<char>>) {
        (
            self.card,
            match self.name {
                Some(n) => Some(n@),
                None => None,
            },
        )
    }
}

impl IdKey {
    /// The key of a name alone.
    pub fn from_string(s: String) -> (k: Self)
        ensures
            k.card is None,
            k.name == Some(s),
    {
        Self { card: None, name: Some(s) }
    }

    /// The key of a name alone.
    pub fn from_str(s: &str) -> (k: Self)
        ensures
            k.card is None,
            k.name matches Some(n) && n@ == s@,
    {
        Self { card: None, name: Some(String::from_str(s)) }
    }

    /// The key of a card alone.
    pub fn from_card(c: Card) -> (k: Self)
        ensures
            k.card == Some(c),
            k.name is None,
    {
        Self { card: Some(c), name: None }
    }

    /// The key of a card with a name.
    pub fn from_card_name(c: Card, s: String) -> (k: Self)
        ensures
            k.card == Some(c),
            k.name == Some(s),
    {
        Self { card: Some(c), name: Some(s) }
    }

    /// The key of a card with a name.
    pub fn from_card_str(c: Card, s: &str) -> (k: Self)
        ensures
            k.card == Some(c),
            k.name matches Some(n) && n@ == s@,
    {
        Self { card: Some(c), name: Some(String::from_str(s)) }
    }
}

#[verifier::external_type_specification]
#[verifier::external_body]
#[verifier::reject_recursive_types(L)]
#[verifier::reject_recursive_types(R)]
#[verifier::reject_recursive_types(LS)]
#[verifier::reject_recursive_types(RS)]
pub struct ExBiHashMap<L, R, LS, RS>(bimap::BiHashMap<L, R, LS, RS>);

/// The pairs a bimap of keys and identifier values holds: each key (by its view) with
/// its value.
pub uninterp spec fn id_pairs(m: bimap::BiHashMap<IdKey, u128>) -> Map<(Option<Card>, Option<Seq<char>>), u128>;

/// No two keys of `m` share a value.
pub open spec fn injective(m: Map<(Option<Card>, Option<Seq<char>>), u128>) -> bool {
    forall|a: (Option<Card>, Option<Seq<char>>), b: (Option<Card>, Option<Seq<char>>)|
        #[trigger] m.contains_key(a) && #[trigger] m.contains_key(b) && m[a] == m[b] ==> a == b
}

/// Some key of `m` has the value `v`.
pub open spec fn has_value(m: Map<(Option<Card>, Option<Seq<char>>), u128>, v: u128) -> bool {
    exists|k: (Option<Card>, Option<Seq<char>>)| #[trigger] m.contains_key(k) && m[k] == v
}

/// `m` after the pair (`k`, `v`) is put in: the pairs with key `k` or value `v` leave,
/// then the pair joins.
pub open spec fn put_pair(
    m: Map<(Option<Card>, Option<Seq<char>>), u128>,
    k: (Option<Card>, Option<Seq<char>>),
    v: u128,
) -> Map<(Option<Card>, Option<Seq<char>>), u128> {
    Map::new(
        |kk: (Option<Card>, Option<Seq<char>>)| kk == k || (m.contains_key(kk) && m[kk] != v),
        |kk: (Option<Card>, Option<Seq<char>>)| if kk == k {
            v
        } else {
            m[kk]
        },
    )
}

/// An empty bimap.
///
/// Calls `BiHashMap::new` of `bimap`, which makes a bimap without pairs.
#[verifier::external_body]
fn bimap_new() -> (m: bimap::BiHashMap<IdKey, u128>)
    ensures
        forall|k: (Option<Card>, Option<Seq<char>>)| !(#[trigger] id_pairs(m).contains_key(k)),
{
    bimap::BiHashMap::new()
}

/// Puts a pair in a bimap.
///
/// Calls `BiHashMap::insert` of `bimap`, which first removes the pair whose left value
/// equals `k` and the pair whose right value equals `v` (keys compare by their card and
/// the characters of their name), then adds (`k`, `v`); no two keys ever share a
/// value. What it reports is told apart as its source does: nothing removed; the old
/// pair of `k` (`Left`, with another value, or `Pair`, with `v` itself); the old pair of
/// `v` (`Right`); or both old pairs (`Both`).
#[verifier::external_body]
fn bimap_insert<T>(m: &mut bimap::BiHashMap<IdKey, u128>, k: IdKey, v: u128) -> (r: Overwritten<T>)
    ensures
        id_pairs(*final(m)) == put_pair(id_pairs(*old(m)), k@, v),
        injective(id_pairs(*old(m))) ==> injective(id_pairs(*final(m))),
        ({
            let om = id_pairs(*old(m));
            let other_v = has_value(om.remove(k@), v);
            match r {
                Overwritten::Neither => !om.contains_key(k@) && !has_value(om, v),
                Overwritten::Left(lk, lv) => om.contains_key(k@) && om[k@] != v && !other_v && lk@
                    == k@ && lv@ == om[k@],
                Overwritten::Right(rk, rv) => !om.contains_key(k@) && om.contains_key(rk@) && om[rk@]
                    == v && rv@ == v,
                Overwritten::Pair(pk, pv) => om.contains_key(k@) && om[k@] == v && pk@ == k@ && pv@
                    == v,
                Overwritten::Both((lk, lv), (rk, rv)) => om.contains_key(k@) && om[k@] != v && lk@
                    == k@ && lv@ == om[k@] && rk@ != k@ && om.contains_key(rk@) && om[rk@] == v && rv@
                    == v,
            }
        }),
{
    match m.insert(k, v) {
        bimap::Overwritten::Neither => Overwritten::Neither,
        bimap::Overwritten::Left(a, b) => Overwritten::Left(a, Id(b, PhantomData)),
        bimap::Overwritten::Right(a, b) => Overwritten::Right(a, Id(b, PhantomData)),
        bimap::Overwritten::Pair(a, b) => Overwritten::Pair(a, Id(b, PhantomData)),
        bimap::Overwritten::Both((a, b), (c, d)) => Overwritten::Both(
            (a, Id(b, PhantomData)),
            (c, Id(d, PhantomData)),
        ),
    }
}

/// The key paired with a value, if any.
///
/// Calls `BiHashMap::get_by_right` of `bimap`, which finds the pair whose right value
/// equals `v`.
#[verifier::external_body]
fn bimap_get_by_right<'a>(m: &'a bimap::BiHashMap<IdKey, u128>, v: u128) -> (r: Option<&'a IdKey>)
    ensures
        r is Some <==> has_value(id_pairs(*m), v),
        r matches Some(k) ==> id_pairs(*m).contains_key(k@) && id_pairs(*m)[k@] == v,
{
    m.get_by_right(&v)
}

/// The value paired with a key, if any.
///
/// Calls `BiHashMap::get_by_left` of `bimap`, which finds the pair whose left value
/// equals `k` (by card and name), and copies its value.
#[verifier::external_body]
fn bimap_get_by_left(m: &bimap::BiHashMap<IdKey, u128>, k: &IdKey) -> (r: Option<u128>)
    ensures
        r == if id_pairs(*m).contains_key(k@) {
            Some(id_pairs(*m)[k@])
        } else {
            None
        },
{
    m.get_by_left(k).copied()
}

/// The pairs of a bimap, in the order it walks them.
///
/// Calls `into_iter` of `bimap`'s `BiHashMap`, which hands out every pair once, and
/// collects them; the order depends on the hashing and is left open.
#[verifier::external_body]
fn bimap_pairs(m: bimap::BiHashMap<IdKey, u128>) -> (v: Vec<(IdKey, u128)>)
    ensures
        forall|i: int|
            0 <= i < v@.len() ==> id_pairs(m).contains_key((#[trigger] v@[i]).0@) && id_pairs(m)[v@[i].0@]
                == v@[i].1,
        forall|i: int, j: int| 0 <= i < j < v@.len() ==> (#[trigger] v@[i]).0@ != (#[trigger] v@[j]).0@,
        forall|k: (Option<Card>, Option<Seq<char>>)|
            #[trigger] id_pairs(m).contains_key(k) ==> exists|i: int| 0 <= i < v@.len() && (#[trigger] v@[i]).0@ == k,
{
    m.into_iter().collect()
}

/// What putting a pair in an `IdManager` replaced.
#[derive(Debug)]
pub enum Overwritten<T> {
    /// nothing
    Neither,
    /// the old pair of the key, which had another identifier
    Left(IdKey, Id<T>),
    /// the old pair of the identifier
    Right(IdKey, Id<T>),
    /// the same pair
    Pair(IdKey, Id<T>),
    /// the old pair of the key, then the old pair of the identifier
    Both((IdKey, Id<T>), (IdKey, Id<T>)),
}

/// A one-to-one pairing of keys with identifiers.
pub struct IdManager<T> {
    map: bimap::BiHashMap<IdKey, u128>,
    tag: PhantomData<T>,
}

impl<T> View for IdManager<T> {
    type V = Map<(Option<Card>, Option<Seq<char>>), u128>;

    /// Each key (by its view) with the value of its identifier.
    closed spec fn view(&self) -> Map<(Option<Card>, Option<Seq<char>>), u128> {
        id_pairs(self.map)
    }
}

impl<T> IdManager<T> {
    /// No two keys share an identifier.
    pub closed spec fn wf(&self) -> bool {
        injective(self@)
    }

    /// Two keys with the same identifier are the same key.
    pub proof fn lemma_wf_injective(&self, a: (Option<Card>, Option<Seq<char>>), b: (Option<Card>, Option<Seq<char>>))
        requires
            self.wf(),
            self@.contains_key(a),
            self@.contains_key(b),
            self@[a] == self@[b],
        ensures
            a == b,
    {
    }

    /// No pairs.
    pub fn default() -> (m: Self)
        ensures
            m@ == Map::<(Option<Card>, Option<Seq<char>>), u128>::empty(),
            m.wf(),
    {
        let m = IdManager { map: bimap_new(), tag: PhantomData };
        proof {
            assert(injective(m@));
            assert(m@ =~= Map::<(Option<Card>, Option<Seq<char>>), u128>::empty());
        }
        m
    }

    /// Pairs `idkey` with `id`, after removing the pair of `idkey` and the pair of `id`;
    /// reports what was removed.
    pub fn insert(&mut self, idkey: IdKey, id: Id<T>) -> (r: Overwritten<T>)
        ensures
            final(self)@ == put_pair(old(self)@, idkey@, id@),
            old(self).wf() ==> final(self).wf(),
            ({
                let om = old(self)@;
                let other_v = has_value(om.remove(idkey@), id@);
                match r {
                    Overwritten::Neither => !om.contains_key(idkey@) && !has_value(om, id@),
                    Overwritten::Left(lk, lv) => om.contains_key(idkey@) && om[idkey@] != id@ && !other_v
                        && lk@ == idkey@ && lv@ == om[idkey@],
                    Overwritten::Right(rk, rv) => !om.contains_key(idkey@) && om.contains_key(rk@)
                        && om[rk@] == id@ && rv@ == id@,
                    Overwritten::Pair(pk, pv) => om.contains_key(idkey@) && om[idkey@] == id@ && pk@
                        == idkey@ && pv@ == id@,
                    Overwritten::Both((lk, lv), (rk, rv)) => om.contains_key(idkey@) && om[idkey@]
                        != id@ && lk@ == idkey@ && lv@ == om[idkey@] && rk@ != idkey@ && om.contains_key(
                        rk@,
                    ) && om[rk@] == id@ && rv@ == id@,
                }
            }),
    {
        bimap_insert(&mut self.map, idkey, id.0)
    }

    /// The key paired with `id`, if any.
    pub fn by_id(&self, id: Id<T>) -> (r: Option<&IdKey>)
        ensures
            r is Some <==> has_value(self@, id@),
            r matches Some(k) ==> self@.contains_key(k@) && self@[k@] == id@,
    {
        bimap_get_by_right(&self.map, id.0)
    }

    /// The identifier paired with `idkey`, if any.
    pub fn by_idkey(&self, idkey: IdKey) -> (r: Option<Id<T>>)
        ensures
            r matches Some(id) ==> self@.contains_key(idkey@) && self@[idkey@] == id@,
            r is None <==> !self@.contains_key(idkey@),
    {
        match bimap_get_by_left(&self.map, &idkey) {
            Some(v) => Some(Id(v, PhantomData)),
            None => None,
        }
    }

    /// Puts every pair of `other` in (see `insert`): `other`'s pairs all stay, and of the
    /// old pairs those whose key or identifier `other` also has leave.
    pub fn absorb(&mut self, other: IdManager<T>)
        requires
            other.wf(),
        ensures
            final(self)@ == absorbed(old(self)@, other@),
            old(self).wf() ==> final(self).wf(),
    {
        let ghost om = other@;
        let ghost s0 = self@;
        let pairs = bimap_pairs(other.map);
        let ghost ps = pairs@;
        assert(ps.len() == pairs.len());
        let mut rest = pairs;
        let mut i: usize = 0;
        while rest.len() > 0
            invariant
                i <= ps.len(),
                ps.len() <= usize::MAX,
                rest@ == ps.subrange(i as int, ps.len() as int),
                injective(om),
                forall|a: int|
                    0 <= a < ps.len() ==> om.contains_key((#[trigger] ps[a]).0@) && om[ps[a].0@] == ps[a].1,
                forall|a: int, b: int| 0 <= a < b < ps.len() ==> (#[trigger] ps[a]).0@ != (#[trigger] ps[b]).0@,
                self@ == absorbed(s0, pairs_map(ps.take(i as int))),
                old(self).wf() ==> self.wf(),
                s0 == old(self)@,
            decreases rest.len(),
        {
            let (k, v) = rest.remove(0);
            proof {
                assert(ps[i as int] == (k, v));
                lemma_absorb_step(s0, ps, i as int, om);
            }
            let _ = bimap_insert::<T>(&mut self.map, k, v);
            i = i + 1;
        }
        proof {
            lemma_pairs_map_all(ps, om);
            assert(ps.take(i as int) =~= ps);
        }
    }
}

/// The map of a sequence of pairs.
pub open spec fn pairs_map(s: Seq<(IdKey, u128)>) -> Map<(Option<Card>, Option<Seq<char>>), u128>
    decreases s.len(),
{
    if s.len() == 0 {
        Map::empty()
    } else {
        pairs_map(s.drop_last()).insert(s.last().0@, s.last().1)
    }
}

/// `m` with the pairs of `o` put in: `o`'s pairs, and those of `m` whose key and value
/// `o` does not have.
pub open spec fn absorbed(
    m: Map<(Option<Card>, Option<Seq<char>>), u128>,
    o: Map<(Option<Card>, Option<Seq<char>>), u128>,
) -> Map<(Option<Card>, Option<Seq<char>>), u128> {
    Map::new(
        |kk: (Option<Card>, Option<Seq<char>>)| o.contains_key(kk) || (m.contains_key(kk) && !o.contains_key(
            kk,
        ) && !has_value(o, m[kk])),
        |kk: (Option<Card>, Option<Seq<char>>)| if o.contains_key(kk) {
            o[kk]
        } else {
            m[kk]
        },
    )
}

proof fn lemma_absorb_step(
    s0: Map<(Option<Card>, Option<Seq<char>>), u128>,
    pairs: Seq<(IdKey, u128)>,
    i: int,
    om: Map<(Option<Card>, Option<Seq<char>>), u128>,
)
    requires
        0 <= i < pairs.len(),
        injective(om),
        forall|a: int|
            0 <= a < pairs.len() ==> om.contains_key((#[trigger] pairs[a]).0@) && om[pairs[a].0@] == pairs[a].1,
        forall|a: int, b: int| 0 <= a < b < pairs.len() ==> (#[trigger] pairs[a]).0@ != (#[trigger] pairs[b]).0@,
    ensures
        put_pair(absorbed(s0, pairs_map(pairs.take(i))), pairs[i].0@, pairs[i].1) == absorbed(
            s0,
            pairs_map(pairs.take(i + 1)),
        ),
{
    let p = pairs_map(pairs.take(i));
    let k = pairs[i].0@;
    let v = pairs[i].1;
    assert(pairs.take(i + 1).drop_last() =~= pairs.take(i));
    assert(pairs.take(i + 1).last() == pairs[i]);
    let p1 = pairs_map(pairs.take(i + 1));
    assert(p1 == p.insert(k, v));
    lemma_pairs_map_facts(pairs, i, om);
    let lhs = put_pair(absorbed(s0, p), k, v);
    let rhs = absorbed(s0, p1);
    assert forall|kk: (Option<Card>, Option<Seq<char>>)| #[trigger] lhs.contains_key(kk) <==> rhs.contains_key(kk) by {
        if kk != k && !p.contains_key(kk) && s0.contains_key(kk) {
            if has_value(p1, s0[kk]) && !has_value(p, s0[kk]) {
                assert(s0[kk] == v);
            }
            if has_value(p, s0[kk]) {
                let w = choose|w: (Option<Card>, Option<Seq<char>>)| #[trigger] p.contains_key(w) && p[w] == s0[kk];
                assert(p1.contains_key(w) && p1[w] == s0[kk]);
            }
            if s0[kk] == v {
                assert(p1.contains_key(k) && p1[k] == s0[kk]);
            }
        }
        if p.contains_key(kk) {
            assert(om[kk] == p[kk]);
            if kk != k {
                assert(p[kk] != v);
            }
        }
    }
    assert(lhs =~= rhs);
}

/// What the pairs taken so far hold: keys and values of `om`.
proof fn lemma_pairs_map_facts(
    pairs: Seq<(IdKey, u128)>,
    i: int,
    om: Map<(Option<Card>, Option<Seq<char>>), u128>,
)
    requires
        0 <= i <= pairs.len(),
        injective(om),
        forall|a: int|
            0 <= a < pairs.len() ==> om.contains_key((#[trigger] pairs[a]).0@) && om[pairs[a].0@] == pairs[a].1,
        forall|a: int, b: int| 0 <= a < b < pairs.len() ==> (#[trigger] pairs[a]).0@ != (#[trigger] pairs[b]).0@,
    ensures
        forall|kk: (Option<Card>, Option<Seq<char>>)|
            #[trigger] pairs_map(pairs.take(i)).contains_key(kk) ==> om.contains_key(kk) && pairs_map(
                pairs.take(i),
            )[kk] == om[kk] && exists|a: int| 0 <= a < i && (#[trigger] pairs[a]).0@ == kk,
        forall|kk: (Option<Card>, Option<Seq<char>>)|
            (exists|a: int| 0 <= a < i && (#[trigger] pairs[a]).0@ == kk) ==> #[trigger] pairs_map(
                pairs.take(i),
            ).contains_key(kk),
        i < pairs.len() ==> !pairs_map(pairs.take(i)).contains_key(pairs[i].0@),
        i < pairs.len() ==> !has_value(pairs_map(pairs.take(i)), pairs[i].1),
    decreases i,
{
    if i > 0 {
        lemma_pairs_map_facts(pairs, i - 1, om);
        assert(pairs.take(i).drop_last() =~= pairs.take(i - 1));
        assert(pairs.take(i).last() == pairs[i - 1]);
    } else {
        assert(pairs.take(0) =~= Seq::<(IdKey, u128)>::empty());
    }
    let p = pairs_map(pairs.take(i));
    if i < pairs.len() {
        if p.contains_key(pairs[i].0@) {
            let a = choose|a: int| 0 <= a < i && (#[trigger] pairs[a]).0@ == pairs[i].0@;
            assert(pairs[a].0@ != pairs[i].0@);
        }
        if has_value(p, pairs[i].1) {
            let w = choose|w: (Option<Card>, Option<Seq<char>>)| #[trigger] p.contains_key(w) && p[w] == pairs[i].1;
            let a = choose|a: int| 0 <= a < i && (#[trigger] pairs[a]).0@ == w;
            assert(om[w] == om[pairs[i].0@]);
            assert(pairs[a].0@ != pairs[i].0@);
        }
    }
}

/// All the pairs make the whole map.
proof fn lemma_pairs_map_all(pairs: Seq<(IdKey, u128)>, om: Map<(Option<Card>, Option<Seq<char>>), u128>)
    requires
        injective(om),
        forall|a: int|
            0 <= a < pairs.len() ==> om.contains_key((#[trigger] pairs[a]).0@) && om[pairs[a].0@] == pairs[a].1,
        forall|a: int, b: int| 0 <= a < b < pairs.len() ==> (#[trigger] pairs[a]).0@ != (#[trigger] pairs[b]).0@,
        forall|k: (Option<Card>, Option<Seq<char>>)|
            #[trigger] om.contains_key(k) ==> exists|i: int| 0 <= i < pairs.len() && (#[trigger] pairs[i]).0@ == k,
    ensures
        pairs_map(pairs) == om,
{
    lemma_pairs_map_facts(pairs, pairs.len() as int, om);
    assert(pairs.take(pairs.len() as int) =~= pairs);
    assert(pairs_map(pairs) =~= om);
}

/// After a pair is put in, its key gives its value, its value gives back its key, and
/// the pairing stays one-to-one.
pub proof fn lemma_put_pair_get(
    m: Map<(Option<Card>, Option<Seq<char>>), u128>,
    k: (Option<Card>, Option<Seq<char>>),
    v: u128,
)
    ensures
        put_pair(m, k, v).contains_key(k),
        put_pair(m, k, v)[k] == v,
        has_value(put_pair(m, k, v), v),
        forall|w: (Option<Card>, Option<Seq<char>>)|
            #[trigger] put_pair(m, k, v).contains_key(w) && put_pair(m, k, v)[w] == v ==> w == k,
        injective(m) ==> injective(put_pair(m, k, v)),
{
    assert(put_pair(m, k, v).contains_key(k) && put_pair(m, k, v)[k] == v);
}

} // verus!
