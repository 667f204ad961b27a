//! A finite map from integer keys to integer values, stored as rows in
//! ascending key order. It stands for a relational table with a unique key
//! column and one value column.

use vstd::prelude::*;
use crate::ordered::{enumerates, strictly_ascending};

verus! {

/// The keys that `m` maps to `v`.
pub open spec fn keys_of(m: Map<i64, i64>, v: i64) -> Set<i64> {
    Set::new(|k: i64| m.contains_key(k) && m[k] == v)
}

/// `m` with every value `from` replaced by `to`.
pub open spec fn retargeted(m: Map<i64, i64>, from: i64, to: i64) -> Map<i64, i64> {
    Map::new(
        |k: i64| m.contains_key(k),
        |k: i64|
            if m[k] == from {
                to
            } else {
                m[k]
            },
    )
}

/// `m` without the keys that it maps to `v`.
pub open spec fn without_value(m: Map<i64, i64>, v: i64) -> Map<i64, i64> {
    Map::new(|k: i64| m.contains_key(k) && m[k] != v, |k: i64| m[k])
}

/// The rows say what the map holds: each row is an entry of the map, each
/// entry of the map is a row, and the keys of the rows ascend.
pub open spec fn rows_of_map(rows: Seq<(i64, i64)>, m: Map<i64, i64>) -> bool {
    &&& forall|i: int|
        0 <= i < rows.len() ==> m.contains_key((#[trigger] rows[i]).0) && m[rows[i].0]
            == rows[i].1
    &&& forall|k: i64| #[trigger]
        m.contains_key(k) ==> exists|i: int| 0 <= i < rows.len() && rows[i].0 == k
    &&& ascending_keys(rows)
}

/// The keys of the rows ascend.
pub open spec fn ascending_keys(rows: Seq<(i64, i64)>) -> bool {
    forall|i: int, j: int| 0 <= i < j < rows.len() ==> rows[i].0 < rows[j].0
}

/// A table with a unique integer key column and an integer value column.
pub struct IdTable {
    rows: Vec<(i64, i64)>,
}

impl View for IdTable {
    type V = Map<i64, i64>;

    closed spec fn view(&self) -> Map<i64, i64> {
        Map::new(
            |k: i64| exists|i: int| self.has_row(k, i),
            |k: i64| self.rows@[choose|i: int| self.has_row(k, i)].1,
        )
    }
}

impl IdTable {
    /// Row `i` holds key `k`.
    pub closed spec fn has_row(&self, k: i64, i: int) -> bool {
        0 <= i < self.rows@.len() && self.rows@[i].0 == k
    }

    /// One of the first `bound` rows is `(k, v)`.
    pub closed spec fn has_pair(&self, k: i64, v: i64, bound: int) -> bool {
        exists|j: int| 0 <= j < bound && j < self.rows@.len() && #[trigger] self.rows@[j] == (k, v)
    }

    /// The rows are in strictly ascending key order.
    pub closed spec fn wf(&self) -> bool {
        forall|i: int, j: int| 0 <= i < j < self.rows@.len() ==> self.rows@[i].0 < self.rows@[j].0
    }

    proof fn lemma_row(&self, i: int)
        requires
            self.wf(),
            0 <= i < self.rows@.len(),
        ensures
            self@.contains_key(self.rows@[i].0),
            self@[self.rows@[i].0] == self.rows@[i].1,
    {
        let k = self.rows@[i].0;
        assert(self.has_row(k, i));
        let c = choose|c: int| self.has_row(k, c);
        assert(self.has_row(k, c));
        if c < i {
        } else if i < c {
        }
    }

    proof fn lemma_absent(&self, k: i64)
        requires
            forall|i: int| 0 <= i < self.rows@.len() ==> self.rows@[i].0 != k,
        ensures
            !self@.contains_key(k),
    {
        if self@.contains_key(k) {
            let c = choose|c: int| self.has_row(k, c);
            assert(self.has_row(k, c));
        }
    }

    /// A table has finitely many entries.
    pub proof fn lemma_finite(&self)
        ensures
            self@.dom().finite(),
    {
        let keys = Seq::new(self.rows@.len(), |i: int| self.rows@[i].0);
        vstd::seq_lib::seq_to_set_is_finite(keys);
        assert forall|k: i64| self@.dom().contains(k) implies keys.to_set().contains(k) by {
            let c = choose|c: int| self.has_row(k, c);
            assert(self.has_row(k, c));
            assert(keys[c] == k);
        }
        assert(self@.dom().subset_of(keys.to_set()));
        vstd::set_lib::lemma_set_subset_finite(keys.to_set(), self@.dom());
    }

    /// The empty table.
    pub fn new() -> (r: IdTable)
        ensures
            r.wf(),
            r@ == Map::<i64, i64>::empty(),
    {
        let r = IdTable { rows: Vec::new() };
        proof {
            assert forall|k: i64| !r@.contains_key(k) by {
                r.lemma_absent(k);
            }
            assert(r@ =~= Map::<i64, i64>::empty());
        }
        r
    }

    /// The value stored under `k`, if any.
    pub fn get(&self, k: i64) -> (r: Option<i64>)
        requires
            self.wf(),
        ensures
            r == (if self@.contains_key(k) {
                Some(self@[k])
            } else {
                None
            }),
    {
        let mut i: usize = 0;
        while i < self.rows.len()
            invariant
                self.wf(),
                i <= self.rows@.len(),
                forall|j: int| 0 <= j < i ==> self.rows@[j].0 != k,
            decreases self.rows@.len() - i,
        {
            if self.rows[i].0 == k {
                proof {
                    self.lemma_row(i as int);
                }
                return Some(self.rows[i].1);
            }
            i += 1;
        }
        proof {
            self.lemma_absent(k);
        }
        None
    }

    /// Adds the entry `k -> v`; `k` must not be present yet.
    pub fn insert(&mut self, k: i64, v: i64)
        requires
            old(self).wf(),
            !old(self)@.contains_key(k),
        ensures
            final(self).wf(),
            final(self)@ == old(self)@.insert(k, v),
    {
        let mut p: usize = 0;
        while p < self.rows.len() && self.rows[p].0 < k
            invariant
                *self == *old(self),
                self.wf(),
                p <= self.rows@.len(),
                forall|j: int| 0 <= j < p ==> self.rows@[j].0 < k,
            decreases self.rows@.len() - p,
        {
            p += 1;
        }
        proof {
            if p < self.rows@.len() {
                self.lemma_row(p as int);
            }
            assert forall|j: int| p <= j < self.rows@.len() implies k < self.rows@[j].0 by {
                self.lemma_row(j);
            }
        }
        self.rows.insert(p, (k, v));
        proof {
            let old_rows = old(self).rows@;
            let new_rows = self.rows@;
            assert(self.wf());
            assert forall|x: i64| #[trigger]
                self@.contains_key(x) == old(self)@.insert(k, v).contains_key(x) && (
                self@.contains_key(x) ==> self@[x] == old(self)@.insert(k, v)[x]) by {
                if x == k {
                    assert(new_rows[p as int] == (k, v));
                    self.lemma_row(p as int);
                } else if old(self)@.contains_key(x) {
                    let c = choose|c: int| old(self).has_row(x, c);
                    assert(old(self).has_row(x, c));
                    old(self).lemma_row(c);
                    let d = if c < p {
                        c
                    } else {
                        c + 1
                    };
                    assert(new_rows[d] == old_rows[c]);
                    self.lemma_row(d);
                } else {
                    assert forall|i: int| 0 <= i < new_rows.len() implies new_rows[i].0 != x by {
                        if i < p {
                            assert(new_rows[i] == old_rows[i]);
                            assert(!old(self).has_row(x, i));
                        } else if i > p {
                            assert(new_rows[i] == old_rows[i - 1]);
                            assert(!old(self).has_row(x, i - 1));
                        }
                    }
                    self.lemma_absent(x);
                }
            }
            assert(self@ =~= old(self)@.insert(k, v));
        }
    }

    /// Removes the entry of `k`, if there is one.
    pub fn remove(&mut self, k: i64)
        requires
            old(self).wf(),
        ensures
            final(self).wf(),
            final(self)@ == old(self)@.remove(k),
    {
        let mut p: usize = 0;
        while p < self.rows.len() && self.rows[p].0 != k
            invariant
                *self == *old(self),
                self.wf(),
                p <= self.rows@.len(),
                forall|j: int| 0 <= j < p ==> self.rows@[j].0 != k,
            decreases self.rows@.len() - p,
        {
            p += 1;
        }
        if p < self.rows.len() {
            self.rows.remove(p);
            proof {
                let old_rows = old(self).rows@;
                let new_rows = self.rows@;
                assert(self.wf());
                assert forall|x: i64| #[trigger]
                    self@.contains_key(x) == old(self)@.remove(k).contains_key(x) && (
                    self@.contains_key(x) ==> self@[x] == old(self)@.remove(k)[x]) by {
                    if x != k && old(self)@.contains_key(x) {
                        let c = choose|c: int| old(self).has_row(x, c);
                        assert(old(self).has_row(x, c));
                        old(self).lemma_row(c);
                        let d = if c < p {
                            c
                        } else {
                            c - 1
                        };
                        assert(new_rows[d] == old_rows[c]);
                        self.lemma_row(d);
                    } else {
                        assert forall|i: int| 0 <= i < new_rows.len() implies new_rows[i].0
                            != x by {
                            let c = if i < p {
                                i
                            } else {
                                i + 1
                            };
                            assert(new_rows[i] == old_rows[c]);
                            if x == k {
                                assert(old_rows[p as int].0 == k);
                            } else {
                                assert(!old(self).has_row(x, c));
                            }
                        }
                        self.lemma_absent(x);
                    }
                }
                assert(self@ =~= old(self)@.remove(k));
            }
        } else {
            proof {
                self.lemma_absent(k);
                assert(self@ =~= old(self)@.remove(k));
            }
        }
    }

    /// The keys stored with value `v`, in ascending order.
    pub fn keys_with(&self, v: i64) -> (r: Vec<i64>)
        requires
            self.wf(),
        ensures
            enumerates(r@, keys_of(self@, v)),
    {
        let mut out: Vec<i64> = Vec::new();
        let mut i: usize = 0;
        while i < self.rows.len()
            invariant
                self.wf(),
                i <= self.rows@.len(),
                strictly_ascending(out@),
                forall|a: int| 0 <= a < out@.len() ==> self.has_pair(#[trigger] out@[a], v, i as int),
                forall|j: int|
                    0 <= j < i && (#[trigger] self.rows@[j]).1 == v ==> out@.contains(
                        self.rows@[j].0,
                    ),
            decreases self.rows@.len() - i,
        {
            if self.rows[i].1 == v {
                let ghost before = out@;
                let key: i64 = self.rows[i].0;
                out.push(key);
                proof {
                    assert forall|a: int, b: int| 0 <= a < b < out@.len() implies out@[a]
                        < out@[b] by {
                        if b == before.len() {
                            assert(self.has_pair(before[a], v, i as int));
                            let j = choose|j: int|
                                0 <= j < i && #[trigger] self.rows@[j] == (before[a], v);
                            assert(self.rows@[j].0 < self.rows@[i as int].0);
                        }
                    }
                    assert forall|a: int| 0 <= a < out@.len() implies self.has_pair(
                        #[trigger] out@[a],
                        v,
                        i + 1,
                    ) by {
                        if a == before.len() {
                            assert(self.rows@[i as int] == (out@[a], v));
                        } else {
                            assert(self.has_pair(before[a], v, i as int));
                            let j = choose|j: int|
                                0 <= j < i && #[trigger] self.rows@[j] == (before[a], v);
                            assert(self.rows@[j] == (out@[a], v));
                        }
                    }
                    assert forall|j: int|
                        0 <= j < i + 1 && (#[trigger] self.rows@[j]).1 == v implies out@.contains(
                        self.rows@[j].0,
                    ) by {
                        if j == i {
                            assert(out@[before.len() as int] == key);
                        } else {
                            assert(before.contains(self.rows@[j].0));
                            let a = choose|a: int|
                                0 <= a < before.len() && before[a] == self.rows@[j].0;
                            assert(out@[a] == self.rows@[j].0);
                        }
                    }
                }
            }
            i += 1;
        }
        proof {
            assert forall|x: i64| out@.contains(x) <==> keys_of(self@, v).contains(x) by {
                if out@.contains(x) {
                    let a = choose|a: int| 0 <= a < out@.len() && out@[a] == x;
                    assert(self.has_pair(out@[a], v, i as int));
                    let j = choose|j: int|
                        0 <= j < i && #[trigger] self.rows@[j] == (out@[a], v);
                    self.lemma_row(j);
                }
                if keys_of(self@, v).contains(x) {
                    let c = choose|c: int| self.has_row(x, c);
                    assert(self.has_row(x, c));
                    self.lemma_row(c);
                    assert(self.rows@[c].1 == v);
                }
            }
        }
        out
    }

    /// Replaces every value `from` by `to`.
    pub fn retarget(&mut self, from: i64, to: i64)
        requires
            old(self).wf(),
        ensures
            final(self).wf(),
            final(self)@ == retargeted(old(self)@, from, to),
    {
        let mut i: usize = 0;
        while i < self.rows.len()
            invariant
                i <= self.rows@.len(),
                self.rows@.len() == old(self).rows@.len(),
                forall|j: int|
                    0 <= j < self.rows@.len() ==> (#[trigger] self.rows@[j]).0 == old(
                        self,
                    ).rows@[j].0,
                forall|j: int|
                    0 <= j < i ==> (#[trigger] self.rows@[j]).1 == (if old(self).rows@[j].1
                        == from {
                        to
                    } else {
                        old(self).rows@[j].1
                    }),
                forall|j: int|
                    i <= j < self.rows@.len() ==> (#[trigger] self.rows@[j]).1 == old(
                        self,
                    ).rows@[j].1,
            decreases self.rows@.len() - i,
        {
            let row: (i64, i64) = self.rows[i];
            if row.1 == from {
                self.rows.set(i, (row.0, to));
            }
            i += 1;
        }
        proof {
            assert(self.wf()) by {
                assert forall|a: int, b: int| 0 <= a < b < self.rows@.len() implies self.rows@[a].0
                    < self.rows@[b].0 by {
                    assert(self.rows@[a].0 == old(self).rows@[a].0);
                    assert(self.rows@[b].0 == old(self).rows@[b].0);
                }
            }
            let goal = retargeted(old(self)@, from, to);
            assert forall|x: i64| #[trigger]
                self@.contains_key(x) == goal.contains_key(x) && (self@.contains_key(x)
                    ==> self@[x] == goal[x]) by {
                if old(self)@.contains_key(x) {
                    let c = choose|c: int| old(self).has_row(x, c);
                    assert(old(self).has_row(x, c));
                    old(self).lemma_row(c);
                    assert(self.rows@[c].0 == x);
                    self.lemma_row(c);
                } else {
                    assert forall|j: int| 0 <= j < self.rows@.len() implies self.rows@[j].0
                        != x by {
                        assert(self.rows@[j].0 == old(self).rows@[j].0);
                        assert(!old(self).has_row(x, j));
                    }
                    self.lemma_absent(x);
                }
            }
            assert(self@ =~= goal);
        }
    }

    /// Removes every entry whose value is `v`.
    pub fn remove_value(&mut self, v: i64)
        requires
            old(self).wf(),
        ensures
            final(self).wf(),
            final(self)@ == without_value(old(self)@, v),
    {
        let mut kept: Vec<(i64, i64)> = Vec::new();
        let mut i: usize = 0;
        while i < self.rows.len()
            invariant
                *self == *old(self),
                self.wf(),
                i <= self.rows@.len(),
                forall|a: int, b: int| 0 <= a < b < kept@.len() ==> kept@[a].0 < kept@[b].0,
                forall|a: int|
                    0 <= a < kept@.len() ==> (#[trigger] kept@[a]).1 != v && self.has_pair(
                        kept@[a].0,
                        kept@[a].1,
                        i as int,
                    ),
                forall|j: int|
                    0 <= j < i && (#[trigger] self.rows@[j]).1 != v ==> kept@.contains(
                        self.rows@[j],
                    ),
            decreases self.rows@.len() - i,
        {
            let row: (i64, i64) = self.rows[i];
            if row.1 != v {
                let ghost before = kept@;
                kept.push(row);
                proof {
                    assert forall|a: int, b: int| 0 <= a < b < kept@.len() implies kept@[a].0
                        < kept@[b].0 by {
                        if b == before.len() {
                            assert(self.has_pair(before[a].0, before[a].1, i as int));
                            let j = choose|j: int|
                                0 <= j < i && #[trigger] self.rows@[j] == before[a];
                            assert(self.rows@[j].0 < self.rows@[i as int].0);
                        }
                    }
                    assert forall|a: int| 0 <= a < kept@.len() implies (#[trigger] kept@[a]).1
                        != v && self.has_pair(kept@[a].0, kept@[a].1, i + 1) by {
                        if a == before.len() {
                            assert(self.rows@[i as int] == kept@[a]);
                        } else {
                            assert(self.has_pair(before[a].0, before[a].1, i as int));
                            let j = choose|j: int|
                                0 <= j < i && #[trigger] self.rows@[j] == before[a];
                            assert(self.rows@[j] == kept@[a]);
                        }
                    }
                    assert forall|j: int|
                        0 <= j < i + 1 && (#[trigger] self.rows@[j]).1 != v implies kept@.contains(
                        self.rows@[j],
                    ) by {
                        if j == i {
                            assert(kept@[before.len() as int] == row);
                        } else {
                            assert(before.contains(self.rows@[j]));
                            let a = choose|a: int|
                                0 <= a < before.len() && before[a] == self.rows@[j];
                            assert(kept@[a] == self.rows@[j]);
                        }
                    }
                }
            }
            i += 1;
        }
        let ghost scanned = i as int;
        self.rows = kept;
        proof {
            assert(self.wf());
            let goal = without_value(old(self)@, v);
            assert forall|x: i64| #[trigger]
                self@.contains_key(x) == goal.contains_key(x) && (self@.contains_key(x)
                    ==> self@[x] == goal[x]) by {
                if goal.contains_key(x) {
                    let c = choose|c: int| old(self).has_row(x, c);
                    assert(old(self).has_row(x, c));
                    old(self).lemma_row(c);
                    assert(self.rows@.contains(old(self).rows@[c]));
                    let a = choose|a: int|
                        0 <= a < self.rows@.len() && self.rows@[a] == old(self).rows@[c];
                    self.lemma_row(a);
                } else {
                    assert forall|a: int| 0 <= a < self.rows@.len() implies self.rows@[a].0
                        != x by {
                        assert(old(self).has_pair(self.rows@[a].0, self.rows@[a].1, scanned));
                        let j = choose|j: int|
                            0 <= j < old(self).rows@.len() && #[trigger] old(self).rows@[j]
                                == self.rows@[a];
                        old(self).lemma_row(j);
                    }
                    self.lemma_absent(x);
                }
            }
            assert(self@ =~= goal);
        }
    }

    proof fn lemma_rows(&self)
        requires
            self.wf(),
        ensures
            rows_of_map(self.rows@, self@),
    {
        assert forall|i: int| 0 <= i < self.rows@.len() implies self@.contains_key(
            (#[trigger] self.rows@[i]).0,
        ) && self@[self.rows@[i].0] == self.rows@[i].1 by {
            self.lemma_row(i);
        }
        assert forall|k: i64| #[trigger] self@.contains_key(k) implies exists|i: int|
            0 <= i < self.rows@.len() && self.rows@[i].0 == k by {
            let c = choose|c: int| self.has_row(k, c);
            assert(self.has_row(k, c));
        }
    }

    /// The table that holds the given rows, if their keys ascend.
    pub fn from_rows(rows: Vec<(i64, i64)>) -> (r: Option<IdTable>)
        ensures
            match r {
                Some(table) => table.wf() && rows_of_map(rows@, table@),
                None => !ascending_keys(rows@),
            },
    {
        let mut j: usize = 0;
        while j < rows.len()
            invariant
                j <= rows@.len(),
                ascending_keys(rows@.take(j as int)),
            decreases rows@.len() - j,
        {
            if j > 0 && rows[j - 1].0 >= rows[j].0 {
                return None;
            }
            proof {
                let before = rows@.take(j as int);
                let after = rows@.take(j + 1);
                assert forall|a: int, b: int| 0 <= a < b < after.len() implies after[a].0
                    < after[b].0 by {
                    if b < j {
                        assert(before[a] == after[a] && before[b] == after[b]);
                    } else if a < j - 1 {
                        assert(before[a].0 < before[j - 1].0);
                    }
                }
            }
            j += 1;
        }
        proof {
            assert(rows@.take(rows@.len() as int) =~= rows@);
        }
        let table = IdTable { rows };
        proof {
            table.lemma_rows();
        }
        Some(table)
    }

    /// All rows, by ascending key.
    pub fn rows(&self) -> (r: Vec<(i64, i64)>)
        requires
            self.wf(),
        ensures
            rows_of_map(r@, self@),
    {
        let mut out: Vec<(i64, i64)> = Vec::new();
        let mut i: usize = 0;
        while i < self.rows.len()
            invariant
                i <= self.rows@.len(),
                out@ == self.rows@.take(i as int),
            decreases self.rows@.len() - i,
        {
            out.push(self.rows[i]);
            proof {
                assert(out@ =~= self.rows@.take(i + 1));
            }
            i += 1;
        }
        proof {
            assert(self.rows@.take(self.rows@.len() as int) =~= self.rows@);
            self.lemma_rows();
        }
        out
    }
}

} // verus!
