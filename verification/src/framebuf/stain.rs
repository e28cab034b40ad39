use vstd::prelude::*;
use std::collections::HashMap;
use vstd::std_specs::iter::IteratorSpec;

verus! {

broadcast use vstd::std_specs::hash::group_hash_axioms;

/// The keys of a map, each once, in the order the map walks them.
fn keys_of(m: &HashMap<i16, Stain>) -> (v: Vec<i16>)
    ensures
        v@.to_set() == m@.dom(),
        v@.no_duplicates(),
{
    let mut v: Vec<i16> = Vec::new();
    let ghost keys = vstd::std_specs::hash::spec_keys_iter(m).remaining().unref();
    proof {
        assert(keys.to_set() == m@.dom());
    }
    for k in it: m.keys()
        invariant
            it.seq().unref() == keys,
            v@ == keys.take(it.index() as int),
    {
        v.push(*k);
        proof {
            assert(v@ =~= keys.take(it.index() as int + 1));
        }
    }
    proof {
        assert(v@ =~= keys);
    }
    v
}

/// A dirty run of cells on one line: from column `start` (inclusive) to `end`
/// (exclusive).
#[derive(Copy, Clone, Debug, PartialEq, Eq, Structural, Hash)]
pub struct Stain {
    pub start: i16,
    pub end: i16,
}

/// The run covering both runs (and everything between them).
pub open spec fn stain_union(a: Stain, b: Stain) -> Stain {
    Stain {
        start: if a.start <= b.start { a.start } else { b.start },
        end: if a.end >= b.end { a.end } else { b.end },
    }
}

/// The overlap of two runs, if it holds a cell.
pub open spec fn stain_intersect(a: Stain, b: Stain) -> Option<Stain> {
    let start = if a.start >= b.start { a.start } else { b.start };
    let end = if a.end <= b.end { a.end } else { b.end };
    if start >= end {
        None
    } else {
        Some(Stain { start, end })
    }
}

impl Stain {
    pub fn new(start: i16, end: i16) -> (s: Self)
        ensures
            s == (Stain { start, end }),
    {
        Self { start, end }
    }

    pub fn start(&self) -> (r: i16)
        ensures
            r == self.start,
    {
        self.start
    }

    pub fn end(&self) -> (r: i16)
        ensures
            r == self.end,
    {
        self.end
    }

    /// The number of cells of the run, `end - start`.
    pub fn len(&self) -> (r: i16)
        requires
            i16::MIN <= self.end - self.start <= i16::MAX,
        ensures
            r == self.end - self.start,
    {
        self.end - self.start
    }

    pub fn start_end(&self) -> (r: (i16, i16))
        ensures
            r == (self.start, self.end),
    {
        (self.start, self.end)
    }

    /// The run covering both runs of the same line.
    pub fn union(&self, oth: &Self) -> (r: Self)
        ensures
            r == stain_union(*self, *oth),
    {
        Self::new(
            if self.start <= oth.start { self.start } else { oth.start },
            if self.end >= oth.end { self.end } else { oth.end },
        )
    }

    /// The overlap of two runs of the same line, if it holds a cell.
    pub fn intersect(&self, oth: &Self) -> (r: Option<Self>)
        ensures
            r == stain_intersect(*self, *oth),
    {
        let start = if self.start >= oth.start { self.start } else { oth.start };
        let end = if self.end <= oth.end { self.end } else { oth.end };
        if start >= end {
            None
        } else {
            Some(Self::new(start, end))
        }
    }
}

/// Runs are symmetric in union and intersection, a run's union with itself is itself,
/// and an overlap lies inside both runs.
pub proof fn lemma_stain_laws(a: Stain, b: Stain)
    ensures
        stain_union(a, b) == stain_union(b, a),
        stain_intersect(a, b) == stain_intersect(b, a),
        stain_union(a, a) == a,
        stain_union(stain_union(a, b), b) == stain_union(a, b),
        stain_intersect(a, b) matches Some(i) ==> a.start <= i.start && i.end <= a.end && b.start
            <= i.start && i.end <= b.end && i.start < i.end,
{
}

/// Dirty runs per line, keyed by absolute line number.
#[derive(Clone, Debug)]
pub struct StainSet {
    stains: HashMap<i16, Stain>,
    sorted: bool,
}

/// The stains after `union`: every line of either set, with the union of both runs
/// where both have one.
pub open spec fn stains_union(m0: Map<i16, Stain>, m1: Map<i16, Stain>) -> Map<i16, Stain> {
    Map::new(
        |k: i16| m0.contains_key(k) || m1.contains_key(k),
        |k: i16|
            if m0.contains_key(k) && m1.contains_key(k) {
                stain_union(m0[k], m1[k])
            } else if m0.contains_key(k) {
                m0[k]
            } else {
                m1[k]
            },
    )
}

/// The stains after `intersect`: every line of either set. Where both have a run, the
/// overlap if there is one, else the other set's run; elsewhere the run that is there.
pub open spec fn stains_intersect(m0: Map<i16, Stain>, m1: Map<i16, Stain>) -> Map<i16, Stain> {
    Map::new(
        |k: i16| m0.contains_key(k) || m1.contains_key(k),
        |k: i16|
            if m0.contains_key(k) && m1.contains_key(k) {
                match stain_intersect(m0[k], m1[k]) {
                    Some(i) => i,
                    None => m1[k],
                }
            } else if m0.contains_key(k) {
                m0[k]
            } else {
                m1[k]
            },
    )
}

impl View for StainSet {
    type V = Map<i16, Stain>;

    closed spec fn view(&self) -> Map<i16, Stain> {
        self.stains@
    }
}

impl StainSet {
    pub fn new() -> (s: Self)
        ensures
            s@ == Map::<i16, Stain>::empty(),
    {
        Self { stains: HashMap::new(), sorted: true }
    }

    /// The lines that have a run, each once, in the order the map walks them.
    pub fn keys(&self) -> (v: Vec<i16>)
        ensures
            v@.to_set() == self@.dom(),
            v@.no_duplicates(),
    {
        keys_of(&self.stains)
    }

    /// The run of a line, if it has one.
    pub fn get_stain(&self, row: i16) -> (r: Option<Stain>)
        ensures
            r == if self@.contains_key(row) {
                Some(self@[row])
            } else {
                None
            },
    {
        match self.stains.get(&row) {
            Some(s) => Some(*s),
            None => None,
        }
    }

    /// Widens the run of line `ln`, if it has one, to cover `s` too.
    fn union_one(&mut self, ln: i16, s: &Stain)
        ensures
            final(self)@ == if old(self)@.contains_key(ln) {
                old(self)@.insert(ln, stain_union(old(self)@[ln], *s))
            } else {
                old(self)@
            },
    {
        if let Some(v) = self.stains.get(&ln) {
            let u = v.union(s);
            self.stains.insert(ln, u);
        }
    }

    /// Narrows the run of line `ln`, if it has one, to its overlap with `s`, dropping the
    /// line when they do not overlap.
    fn intersect_one(&mut self, ln: i16, s: &Stain)
        ensures
            final(self)@ == if old(self)@.contains_key(ln) {
                match stain_intersect(old(self)@[ln], *s) {
                    Some(i) => old(self)@.insert(ln, i),
                    None => old(self)@.remove(ln),
                }
            } else {
                old(self)@
            },
    {
        if let Some(v) = self.stains.get(&ln) {
            if let Some(i) = v.intersect(s) {
                self.stains.insert(ln, i);
            } else {
                self.stains.remove(&ln);
            }
        }
    }

    /// Adds the runs of `oth`, line by line.
    pub fn union(&mut self, oth: &Self)
        ensures
            final(self)@ == stains_union(old(self)@, oth@),
    {
        let keys = oth.keys();
        let ghost m0 = self@;
        let ghost m1 = oth@;
        let mut i: usize = 0;
        while i < keys.len()
            invariant
                i <= keys.len(),
                keys@.to_set() == m1.dom(),
                keys@.no_duplicates(),
                m1 == oth@,
                forall|k: i16|
                    #[trigger] self@.contains_key(k) <==> m0.contains_key(k) || keys@.take(
                        i as int,
                    ).contains(k),
                forall|k: i16|
                    #[trigger] self@.contains_key(k) ==> self@[k] == if keys@.take(
                        i as int,
                    ).contains(k) {
                        stains_union(m0, m1)[k]
                    } else {
                        m0[k]
                    },
            decreases keys.len() - i,
        {
            let k = keys[i];
            proof {
                assert(keys@.contains(k));
                assert(m1.contains_key(k));
                assert(!keys@.take(i as int).contains(k)) by {
                    if keys@.take(i as int).contains(k) {
                        let j = choose|j: int| 0 <= j < i && #[trigger] keys@.take(i as int)[j] == k;
                        assert(keys@[j] == keys@[i as int]);
                    }
                }
                assert forall|x: i16| #[trigger] keys@.take(i as int + 1).contains(x) <==> keys@.take(
                    i as int,
                ).contains(x) || x == k by {
                    if keys@.take(i as int + 1).contains(x) {
                        let j = choose|j: int| 0 <= j < i + 1 && #[trigger] keys@.take(i as int + 1)[j] == x;
                        if j < i {
                            assert(keys@.take(i as int)[j] == x);
                        }
                    }
                    if keys@.take(i as int).contains(x) {
                        let j = choose|j: int| 0 <= j < i && #[trigger] keys@.take(i as int)[j] == x;
                        assert(keys@.take(i as int + 1)[j] == x);
                    }
                    if x == k {
                        assert(keys@.take(i as int + 1)[i as int] == x);
                    }
                }
            }
            let v1 = *oth.stains.get(&k).unwrap();
            let ghost old_view = self@;
            match self.stains.get(&k) {
                Some(v0) => {
                    let u = v0.union(&v1);
                    self.stains.insert(k, u);
                },
                None => {
                    self.stains.insert(k, v1);
                },
            }
            proof {
                assert forall|x: i16|
                    #[trigger] self@.contains_key(x) <==> m0.contains_key(x) || keys@.take(
                        i as int + 1,
                    ).contains(x) by {
                    if x != k {
                        assert(self@.contains_key(x) == old_view.contains_key(x));
                    }
                }
                assert forall|x: i16|
                    #[trigger] self@.contains_key(x) implies self@[x] == if keys@.take(
                        i as int + 1,
                    ).contains(x) {
                        stains_union(m0, m1)[x]
                    } else {
                        m0[x]
                    } by {
                    if x != k {
                        assert(self@[x] == old_view[x]);
                    } else {
                        assert(m1.contains_key(k));
                    }
                }
            }
            i = i + 1;
        }
        proof {
            assert(keys@.take(keys.len() as int) =~= keys@);
            assert forall|k: i16| keys@.contains(k) <==> m1.contains_key(k) by {
                assert(keys@.to_set().contains(k) == keys@.contains(k));
            }
            assert(self@ =~= stains_union(m0, m1));
        }
    }

    /// Narrows the runs by those of `oth`, line by line: where both have a run it becomes
    /// the overlap, or the run of `oth` when they do not overlap; lines only `oth` has
    /// are taken from `oth`.
    pub fn intersect(&mut self, oth: &Self)
        ensures
            final(self)@ == stains_intersect(old(self)@, oth@),
    {
        let keys = oth.keys();
        let ghost m0 = self@;
        let ghost m1 = oth@;
        let mut i: usize = 0;
        while i < keys.len()
            invariant
                i <= keys.len(),
                keys@.to_set() == m1.dom(),
                keys@.no_duplicates(),
                m1 == oth@,
                forall|k: i16|
                    #[trigger] self@.contains_key(k) <==> m0.contains_key(k) || keys@.take(
                        i as int,
                    ).contains(k),
                forall|k: i16|
                    #[trigger] self@.contains_key(k) ==> self@[k] == if keys@.take(
                        i as int,
                    ).contains(k) {
                        stains_intersect(m0, m1)[k]
                    } else {
                        m0[k]
                    },
            decreases keys.len() - i,
        {
            let k = keys[i];
            proof {
                assert(keys@.contains(k));
                assert(m1.contains_key(k));
                assert(!keys@.take(i as int).contains(k)) by {
                    if keys@.take(i as int).contains(k) {
                        let j = choose|j: int| 0 <= j < i && #[trigger] keys@.take(i as int)[j] == k;
                        assert(keys@[j] == keys@[i as int]);
                    }
                }
                assert forall|x: i16| #[trigger] keys@.take(i as int + 1).contains(x) <==> keys@.take(
                    i as int,
                ).contains(x) || x == k by {
                    if keys@.take(i as int + 1).contains(x) {
                        let j = choose|j: int| 0 <= j < i + 1 && #[trigger] keys@.take(i as int + 1)[j] == x;
                        if j < i {
                            assert(keys@.take(i as int)[j] == x);
                        }
                    }
                    if keys@.take(i as int).contains(x) {
                        let j = choose|j: int| 0 <= j < i && #[trigger] keys@.take(i as int)[j] == x;
                        assert(keys@.take(i as int + 1)[j] == x);
                    }
                    if x == k {
                        assert(keys@.take(i as int + 1)[i as int] == x);
                    }
                }
            }
            let v1 = *oth.stains.get(&k).unwrap();
            let ghost old_view = self@;
            match self.stains.get(&k) {
                Some(v0) => {
                    match v0.intersect(&v1) {
                        Some(x) => {
                            self.stains.insert(k, x);
                        },
                        None => {
                            self.stains.insert(k, v1);
                        },
                    }
                },
                None => {
                    self.stains.insert(k, v1);
                },
            }
            proof {
                assert forall|x: i16|
                    #[trigger] self@.contains_key(x) <==> m0.contains_key(x) || keys@.take(
                        i as int + 1,
                    ).contains(x) by {
                    if x != k {
                        assert(self@.contains_key(x) == old_view.contains_key(x));
                    }
                }
                assert forall|x: i16|
                    #[trigger] self@.contains_key(x) implies self@[x] == if keys@.take(
                        i as int + 1,
                    ).contains(x) {
                        stains_intersect(m0, m1)[x]
                    } else {
                        m0[x]
                    } by {
                    if x != k {
                        assert(self@[x] == old_view[x]);
                    } else {
                        assert(m1.contains_key(k));
                    }
                }
            }
            i = i + 1;
        }
        proof {
            assert(keys@.take(keys.len() as int) =~= keys@);
            assert forall|k: i16| keys@.contains(k) <==> m1.contains_key(k) by {
                assert(keys@.to_set().contains(k) == keys@.contains(k));
            }
            assert(self@ =~= stains_intersect(m0, m1));
        }
    }
}

} // verus!
