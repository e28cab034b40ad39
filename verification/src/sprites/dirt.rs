use vstd::prelude::*;
use std::collections::HashMap;

use crate::bounds::Bounds;
use crate::pos::TermPos;
use vstd::std_specs::iter::IteratorSpec;

verus! {

broadcast use vstd::std_specs::hash::group_hash_axioms;

/// Strictly increasing.
pub open spec fn strictly_sorted(s: Seq<i16>) -> bool {
    forall|i: int, j: int| 0 <= i < j < s.len() ==> s[i] < s[j]
}

/// The cells that need redrawing, by line: each line maps to its dirty columns in
/// increasing order. There is one record per screen; the sprites that mark cells dirty
/// are handed it by `&mut`, so every mark lands in it.
#[derive(Debug)]
pub struct Dirt {
    rows: HashMap<i16, Vec<i16>>,
}

/// Where `x` belongs in a strictly increasing sequence: `Ok` with its index if it is
/// there, else `Err` with the index at which inserting it keeps the order.
fn search(v: &Vec<i16>, x: i16) -> (r: core::result::Result<usize, usize>)
    requires
        strictly_sorted(v@),
    ensures
        r matches Ok(i) ==> i < v.len() && v@[i as int] == x,
        r matches Err(i) ==> i <= v.len() && (forall|j: int| 0 <= j < i ==> v@[j] < x) && (forall|
            j: int,
        |
            i <= j < v.len() ==> v@[j] > x),
{
    let mut lo: usize = 0;
    let mut hi: usize = v.len();
    while lo < hi
        invariant
            strictly_sorted(v@),
            lo <= hi <= v.len(),
            forall|j: int| 0 <= j < lo ==> v@[j] < x,
            forall|j: int| hi <= j < v.len() ==> v@[j] > x,
        decreases hi - lo,
    {
        let mid = lo + (hi - lo) / 2;
        if v[mid] == x {
            return Ok(mid);
        } else if v[mid] < x {
            lo = mid + 1;
        } else {
            hi = mid;
        }
    }
    Err(lo)
}

/// Adds `x` to a strictly increasing vector, keeping it strictly increasing.
fn insert_sorted(v: &mut Vec<i16>, x: i16)
    requires
        strictly_sorted(old(v)@),
    ensures
        strictly_sorted(final(v)@),
        forall|z: i16| #[trigger] final(v)@.contains(z) <==> old(v)@.contains(z) || z == x,
{
    match search(v, x) {
        Ok(_) => {
            proof {
                assert forall|z: i16| #[trigger] v@.contains(z) <==> v@.contains(z) || z == x by {
                    if z == x {
                        let i = choose|i: int| 0 <= i < v@.len() && v@[i] == x;
                        assert(v@.contains(z)) by {
                            assert(v@[i] == z);
                        }
                    }
                }
            }
        },
        Err(i) => {
            let ghost before = v@;
            v.insert(i, x);
            proof {
                assert forall|z: i16| #[trigger] v@.contains(z) <==> before.contains(z) || z == x by {
                    if v@.contains(z) {
                        let k = choose|k: int| 0 <= k < v@.len() && v@[k] == z;
                        if k < i {
                            assert(before[k] == z);
                        } else if k > i {
                            assert(before[k - 1] == z);
                        }
                    }
                    if before.contains(z) {
                        let k = choose|k: int| 0 <= k < before.len() && before[k] == z;
                        if k < i {
                            assert(v@[k] == z);
                        } else {
                            assert(v@[k + 1] == z);
                        }
                    }
                    if z == x {
                        assert(v@[i as int] == x);
                    }
                }
            }
        },
    }
}

impl Dirt {
    /// The dirty columns of each line that has an entry.
    pub closed spec fn lines(&self) -> Map<i16, Seq<i16>> {
        Map::new(|k: i16| self.rows@.contains_key(k), |k: i16| self.rows@[k]@)
    }

    /// Every line's columns are strictly increasing.
    pub open spec fn wf(&self) -> bool {
        forall|k: i16| #[trigger] self.lines().contains_key(k) ==> strictly_sorted(self.lines()[k])
    }

    /// The cell (row `y`, column `x`) is dirty.
    pub open spec fn is_dirty(&self, y: i16, x: i16) -> bool {
        self.lines().contains_key(y) && self.lines()[y].contains(x)
    }

    /// Nothing dirty.
    pub fn new() -> (d: Self)
        ensures
            d.wf(),
            d.lines() == Map::<i16, Seq<i16>>::empty(),
    {
        let d = Dirt { rows: HashMap::new() };
        proof {
            assert(d.lines() =~= Map::<i16, Seq<i16>>::empty());
        }
        d
    }

    /// The dirty columns by line.
    pub fn borrow(&self) -> (m: &HashMap<i16, Vec<i16>>)
        ensures
            forall|k: i16| #[trigger] m@.contains_key(k) == self.lines().contains_key(k),
            forall|k: i16| #[trigger] m@.contains_key(k) ==> m@[k]@ == self.lines()[k],
    {
        &self.rows
    }

    /// The dirty columns by line, to change in place; the lines afterwards are what the
    /// map then holds.
    pub fn borrow_mut(&mut self) -> (m: &mut HashMap<i16, Vec<i16>>)
        ensures
            forall|k: i16| #[trigger] m@.contains_key(k) == old(self).lines().contains_key(k),
            forall|k: i16| #[trigger] m@.contains_key(k) ==> m@[k]@ == old(self).lines()[k],
            forall|k: i16| #[trigger] final(m)@.contains_key(k) == final(self).lines().contains_key(k),
            forall|k: i16| #[trigger] final(m)@.contains_key(k) ==> final(m)@[k]@ == final(self).lines()[k],
    {
        &mut self.rows
    }

    /// Marks the cell at `p` dirty.
    pub fn set_dirty(&mut self, p: TermPos)
        requires
            old(self).wf(),
        ensures
            final(self).wf(),
            final(self).lines().dom() == old(self).lines().dom().insert(p.y),
            forall|y: i16, x: i16| #[trigger] final(self).is_dirty(y, x) <==> old(self).is_dirty(y, x)
                || (y == p.y && x == p.x),
    {
        let ghost old_lines = self.lines();
        let mut v = match self.rows.remove(&p.y) {
            Some(v) => v,
            None => Vec::new(),
        };
        proof {
            if old_lines.contains_key(p.y) {
                assert(v@ == old_lines[p.y]);
            }
        }
        insert_sorted(&mut v, p.x);
        self.rows.insert(p.y, v);
        proof {
            assert(self.lines().dom() =~= old_lines.dom().insert(p.y));
            assert forall|k: i16| #[trigger] self.lines().contains_key(k) implies strictly_sorted(
                self.lines()[k],
            ) by {
                if k != p.y {
                    assert(self.lines()[k] == old_lines[k]);
                }
            }
            assert forall|y: i16, x: i16| #[trigger] self.is_dirty(y, x) <==> (old_lines.contains_key(y)
                && old_lines[y].contains(x)) || (y == p.y && x == p.x) by {
                if y != p.y {
                    assert(self.lines().contains_key(y) == old_lines.contains_key(y));
                    if old_lines.contains_key(y) {
                        assert(self.lines()[y] == old_lines[y]);
                    }
                }
            }
        }
    }

    /// Marks every cell of the rectangle dirty; every line of the rectangle gets an
    /// entry, even when the rectangle has no columns.
    pub fn dirty_all(&mut self, bnd: Bounds<i16>)
        requires
            old(self).wf(),
        ensures
            final(self).wf(),
            forall|y: i16| #[trigger] final(self).lines().contains_key(y) <==> old(self).lines().contains_key(y)
                || bnd.y_min <= y < bnd.y_max,
            forall|y: i16, x: i16| #[trigger] final(self).is_dirty(y, x) <==> old(self).is_dirty(y, x)
                || bnd.spec_contains((y, x)),
    {
        let ghost start = self.lines();
        let yr = bnd.y_range();
        let xr = bnd.x_range();
        let mut y = yr.start;
        while y < yr.end
            invariant
                yr.start == bnd.y_min,
                yr.end == bnd.y_max,
                xr.start == bnd.x_min,
                xr.end == bnd.x_max,
                bnd.y_min <= y,
                y <= bnd.y_max || y == bnd.y_min,
                self.wf(),
                forall|k: i16| #[trigger] self.lines().contains_key(k) <==> start.contains_key(k)
                    || bnd.y_min <= k < y,
                forall|a: i16, b: i16|
                    #[trigger] self.is_dirty(a, b) <==> (start.contains_key(a) && start[a].contains(b))
                        || (bnd.y_min <= a < y && bnd.x_min <= b < bnd.x_max),
            decreases bnd.y_max - y,
        {
            let ghost before = self.lines();
            let ghost before_rows = self.rows@;
            proof {
                assert forall|a: i16, b: i16| (before.contains_key(a) && #[trigger] before[a].contains(b))
                    <==> (start.contains_key(a) && start[a].contains(b)) || (bnd.y_min <= a < y
                    && bnd.x_min <= b < bnd.x_max) by {
                    assert(self.is_dirty(a, b) == (before.contains_key(a) && before[a].contains(b)));
                }
            }
            let mut v = match self.rows.remove(&y) {
                Some(v) => v,
                None => Vec::new(),
            };
            let ghost v0 = v@;
            proof {
                if before.contains_key(y) {
                    assert(v@ == before[y]);
                } else {
                    assert(v@ == Seq::<i16>::empty());
                }
            }
            let ghost removed = self.rows@;
            proof {
                assert(removed == before_rows.remove(y));
            }
            let mut x = xr.start;
            while x < xr.end
                invariant
                    xr.start == bnd.x_min,
                    xr.end == bnd.x_max,
                    bnd.x_min <= x,
                    x <= bnd.x_max || x == bnd.x_min,
                    strictly_sorted(v@),
                    forall|z: i16| #[trigger] v@.contains(z) <==> v0.contains(z) || (bnd.x_min <= z
                        < x),
                decreases bnd.x_max - x,
            {
                insert_sorted(&mut v, x);
                x = x + 1;
            }
            self.rows.insert(y, v);
            proof {
                assert(self.rows@ == removed.insert(y, v));
                assert forall|k: i16| k != y implies (#[trigger] self.rows@.contains_key(k)
                    == before_rows.contains_key(k)) && (self.rows@.contains_key(k) ==> self.rows@[k]
                    == before_rows[k]) by {}
                assert forall|k: i16| #[trigger] self.lines().contains_key(k) implies strictly_sorted(
                    self.lines()[k],
                ) by {
                    if k != y {
                        assert(self.lines()[k] == before[k]);
                    } else {
                        assert(self.lines()[k] == v@);
                    }
                }
                assert forall|k: i16| #[trigger] self.lines().contains_key(k) <==> start.contains_key(k)
                    || bnd.y_min <= k < y + 1 by {
                    assert(self.lines().contains_key(k) == self.rows@.contains_key(k));
                    assert(before.contains_key(k) == before_rows.contains_key(k));
                }
                assert forall|a: i16, b: i16|
                    #[trigger] self.is_dirty(a, b) <==> (start.contains_key(a) && start[a].contains(b))
                        || (bnd.y_min <= a < y + 1 && bnd.x_min <= b < bnd.x_max) by {
                    assert(self.lines().contains_key(a) == self.rows@.contains_key(a));
                    assert(before.contains_key(a) == before_rows.contains_key(a));
                    assert(before.contains_key(a) ==> before[a] == before_rows[a]@);
                    if a != y {
                        assert(self.lines().contains_key(a) == before.contains_key(a));
                        if before.contains_key(a) {
                            assert(self.lines()[a] == before[a]);
                        }
                        assert(self.is_dirty(a, b) == (before.contains_key(a) && before[a].contains(
                            b,
                        )));
                    } else {
                        assert(self.lines()[a] == v@);
                        assert(before.contains_key(a) ==> before[a] == v0);
                        if before.contains_key(a) {
                            assert(v0.contains(b) == (start.contains_key(a) && start[a].contains(b)));
                        } else {
                            assert(!v0.contains(b));
                            assert(!(start.contains_key(a) && start[a].contains(b)));
                        }
                    }
                }
            }
            y = y + 1;
        }
    }

    /// The lines that have an entry, each once, in the order the map walks them.
    pub fn rows(&self) -> (v: Vec<i16>)
        ensures
            v@.to_set() == self.lines().dom(),
            v@.no_duplicates(),
    {
        let mut v: Vec<i16> = Vec::new();
        let ghost keys = vstd::std_specs::hash::spec_keys_iter(&self.rows).remaining().unref();
        proof {
            assert(keys.to_set() == self.rows@.dom());
        }
        for k in it: self.rows.keys()
            invariant
                it.seq().unref() == keys,
                v@ == keys.take(it.index() as int),
        {
            v.push(*k);
            proof {
                assert(v@ =~= keys.take(it.index() as int + 1));
            }
        }
        proof {
            assert(v@ =~= keys);
            assert(self.lines().dom() =~= self.rows@.dom());
        }
        v
    }

    /// The dirty columns of line `y`, if it has an entry.
    pub fn line(&self, y: i16) -> (r: Option<&Vec<i16>>)
        ensures
            r is Some <==> self.lines().contains_key(y),
            r matches Some(v) ==> v@ == self.lines()[y],
    {
        self.rows.get(&y)
    }

    /// Nothing dirty any more.
    pub fn clear(&mut self)
        ensures
            final(self).wf(),
            final(self).lines() == Map::<i16, Seq<i16>>::empty(),
    {
        self.rows.clear();
        proof {
            assert(self.lines() =~= Map::<i16, Seq<i16>>::empty());
        }
    }
}

} // verus!
