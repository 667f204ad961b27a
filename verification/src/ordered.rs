//! Canonical enumerations: the members of a finite set of integers listed in
//! ascending order. Query results are stated as such enumerations, which
//! fixes their order.

use vstd::prelude::*;
use crate::text::{lemma_lex_irreflexive, lemma_lex_transitive, lex_lt, rank_strings, views, Rank};

verus! {

/// Each element is smaller than every later one.
pub open spec fn strictly_ascending(q: Seq<i64>) -> bool {
    forall|i: int, j: int| 0 <= i < j < q.len() ==> q[i] < q[j]
}

/// `q` lists exactly the members of `s`, smallest first.
pub open spec fn enumerates(q: Seq<i64>, s: Set<i64>) -> bool {
    &&& strictly_ascending(q)
    &&& forall|x: i64| q.contains(x) <==> s.contains(x)
}

/// The members of `s` in ascending order (meaningful when `s` is finite).
pub open spec fn ascending(s: Set<i64>) -> Seq<i64> {
    choose|q: Seq<i64>| enumerates(q, s)
}

/// A set has at most one ascending enumeration.
pub proof fn lemma_enumeration_unique(a: Seq<i64>, b: Seq<i64>, s: Set<i64>)
    requires
        enumerates(a, s),
        enumerates(b, s),
    ensures
        a == b,
    decreases a.len(),
{
    if a.len() == 0 {
        if b.len() > 0 {
            assert(b.contains(b[0]));
            assert(a.contains(b[0]));
        }
        assert(a =~= b);
    } else {
        let x = a.last();
        assert(a.contains(x));
        assert(b.contains(x));
        let k = choose|k: int| 0 <= k < b.len() && b[k] == x;
        if k != b.len() - 1 {
            let y = b.last();
            assert(b.contains(y));
            assert(a.contains(y));
            let m = choose|m: int| 0 <= m < a.len() && a[m] == y;
            assert(y > x);
            assert(a[m] <= a.last());
        }
        let s2 = s.remove(x);
        let a2 = a.drop_last();
        let b2 = b.drop_last();
        assert forall|v: i64| a2.contains(v) <==> s2.contains(v) by {
            if a2.contains(v) {
                let i = choose|i: int| 0 <= i < a2.len() && a2[i] == v;
                assert(a[i] == v);
                assert(a.contains(v));
            }
            if s2.contains(v) {
                assert(a.contains(v));
                let i = choose|i: int| 0 <= i < a.len() && a[i] == v;
                assert(a2[i] == v);
            }
        }
        assert forall|v: i64| b2.contains(v) <==> s2.contains(v) by {
            if b2.contains(v) {
                let i = choose|i: int| 0 <= i < b2.len() && b2[i] == v;
                assert(b[i] == v);
                assert(b.contains(v));
            }
            if s2.contains(v) {
                assert(b.contains(v));
                let i = choose|i: int| 0 <= i < b.len() && b[i] == v;
                assert(b2[i] == v);
            }
        }
        lemma_enumeration_unique(a2, b2, s2);
        assert(a =~= a2.push(x));
        assert(b =~= b2.push(x));
    }
}

/// An ascending enumeration of a set is the set's canonical one.
pub proof fn lemma_ascending_is(q: Seq<i64>, s: Set<i64>)
    requires
        enumerates(q, s),
    ensures
        ascending(s) == q,
{
    lemma_enumeration_unique(ascending(s), q, s);
}

/// A finite set of integers that is not empty has a greatest member.
pub proof fn lemma_has_greatest(s: Set<i64>)
    requires
        s.finite(),
        s.len() > 0,
    ensures
        exists|m: i64| s.contains(m) && forall|x: i64| s.contains(x) ==> x <= m,
    decreases s.len(),
{
    let x = s.choose();
    let rest = s.remove(x);
    if rest.len() == 0 {
        assert forall|y: i64| s.contains(y) implies y <= x by {
            if y != x {
                assert(rest.contains(y));
            }
        }
    } else {
        lemma_has_greatest(rest);
        let m = choose|m: i64| rest.contains(m) && forall|y: i64| rest.contains(y) ==> y <= m;
        let top = if x <= m {
            m
        } else {
            x
        };
        assert forall|y: i64| s.contains(y) implies y <= top by {
            if y != x {
                assert(rest.contains(y));
            }
        }
        assert(s.contains(top));
    }
}

/// Every finite set of integers has an ascending enumeration, so its
/// canonical one is one.
pub proof fn lemma_ascending_enumerates(s: Set<i64>)
    requires
        s.finite(),
    ensures
        enumerates(ascending(s), s),
    decreases s.len(),
{
    if s.len() == 0 {
        let q = Seq::<i64>::empty();
        assert forall|x: i64| q.contains(x) <==> s.contains(x) by {
            if s.contains(x) {
                assert(s.remove(x).len() >= 0);
            }
        }
        assert(enumerates(q, s));
    } else {
        lemma_has_greatest(s);
        let m = choose|m: i64| s.contains(m) && forall|x: i64| s.contains(x) ==> x <= m;
        let rest = s.remove(m);
        lemma_ascending_enumerates(rest);
        let q0 = ascending(rest);
        let q = q0.push(m);
        assert forall|i: int, j: int| 0 <= i < j < q.len() implies q[i] < q[j] by {
            if j == q0.len() {
                assert(q0.contains(q0[i]));
                assert(rest.contains(q0[i]));
            }
        }
        assert forall|x: i64| q.contains(x) <==> s.contains(x) by {
            if q.contains(x) {
                let i = choose|i: int| 0 <= i < q.len() && q[i] == x;
                if i < q0.len() {
                    assert(q0.contains(x));
                }
            }
            if s.contains(x) {
                if x == m {
                    assert(q[q0.len() as int] == x);
                } else {
                    assert(rest.contains(x));
                    assert(q0.contains(x));
                    let i = choose|i: int| 0 <= i < q0.len() && q0[i] == x;
                    assert(q[i] == x);
                }
            }
        }
        assert(enumerates(q, s));
    }
}

/// Entry `a` comes before entry `b`: it has the earlier time, or the same
/// time and the text that comes first in dictionary order.
pub open spec fn entry_lt(a: (i64, Seq<char>), b: (i64, Seq<char>)) -> bool {
    a.0 < b.0 || (a.0 == b.0 && lex_lt(a.1, b.1))
}

/// Each entry comes before every later one.
pub open spec fn entries_ascending(q: Seq<(i64, Seq<char>)>) -> bool {
    forall|i: int, j: int| 0 <= i < j < q.len() ==> entry_lt(q[i], q[j])
}

/// `q` lists exactly the members of `s`, in ascending order.
pub open spec fn lists(q: Seq<(i64, Seq<char>)>, s: Set<(i64, Seq<char>)>) -> bool {
    &&& entries_ascending(q)
    &&& forall|e: (i64, Seq<char>)| q.contains(e) <==> s.contains(e)
}

/// The members of `s` in ascending order (meaningful when `s` is finite).
pub open spec fn sorted_entries(s: Set<(i64, Seq<char>)>) -> Seq<(i64, Seq<char>)> {
    choose|q: Seq<(i64, Seq<char>)>| lists(q, s)
}

/// The texts of a list of entries.
pub open spec fn texts_of(q: Seq<(i64, Seq<char>)>) -> Seq<Seq<char>> {
    Seq::new(q.len(), |i: int| q[i].1)
}

/// The entries that a list of pairs of a time and a string stands for.
pub open spec fn entry_views(v: Seq<(i64, String)>) -> Seq<(i64, Seq<char>)> {
    Seq::new(v.len(), |i: int| (v[i].0, v[i].1@))
}

/// The order of entries is transitive.
pub proof fn lemma_entry_lt_transitive(
    a: (i64, Seq<char>),
    b: (i64, Seq<char>),
    c: (i64, Seq<char>),
)
    requires
        entry_lt(a, b),
        entry_lt(b, c),
    ensures
        entry_lt(a, c),
{
    if a.0 == b.0 && b.0 == c.0 {
        lemma_lex_transitive(a.1, b.1, c.1);
    }
}

/// No entry comes before itself.
pub proof fn lemma_entry_lt_irreflexive(a: (i64, Seq<char>))
    ensures
        !entry_lt(a, a),
{
    lemma_lex_irreflexive(a.1);
}

/// A set has at most one ascending list of its entries.
pub proof fn lemma_listing_unique(
    a: Seq<(i64, Seq<char>)>,
    b: Seq<(i64, Seq<char>)>,
    s: Set<(i64, Seq<char>)>,
)
    requires
        lists(a, s),
        lists(b, s),
    ensures
        a == b,
    decreases a.len(),
{
    if a.len() == 0 {
        if b.len() > 0 {
            assert(b.contains(b[0]));
            assert(a.contains(b[0]));
        }
        assert(a =~= b);
    } else {
        let x = a.last();
        assert(a.contains(x));
        assert(b.contains(x));
        let k = choose|k: int| 0 <= k < b.len() && b[k] == x;
        if k != b.len() - 1 {
            let y = b.last();
            assert(b.contains(y));
            assert(a.contains(y));
            let m = choose|m: int| 0 <= m < a.len() && a[m] == y;
            assert(entry_lt(x, y));
            if m < a.len() - 1 {
                assert(entry_lt(y, x));
                lemma_entry_lt_transitive(x, y, x);
            }
            lemma_entry_lt_irreflexive(x);
        }
        let s2 = s.remove(x);
        let a2 = a.drop_last();
        let b2 = b.drop_last();
        assert forall|v: (i64, Seq<char>)| a2.contains(v) <==> s2.contains(v) by {
            if a2.contains(v) {
                let i = choose|i: int| 0 <= i < a2.len() && a2[i] == v;
                assert(a[i] == v);
                assert(a.contains(v));
                assert(entry_lt(a[i], a.last()));
                lemma_entry_lt_irreflexive(x);
            }
            if s2.contains(v) {
                assert(a.contains(v));
                let i = choose|i: int| 0 <= i < a.len() && a[i] == v;
                assert(a2[i] == v);
            }
        }
        assert forall|v: (i64, Seq<char>)| b2.contains(v) <==> s2.contains(v) by {
            if b2.contains(v) {
                let i = choose|i: int| 0 <= i < b2.len() && b2[i] == v;
                assert(b[i] == v);
                assert(b.contains(v));
                assert(entry_lt(b[i], b.last()));
                lemma_entry_lt_irreflexive(x);
            }
            if s2.contains(v) {
                assert(b.contains(v));
                let i = choose|i: int| 0 <= i < b.len() && b[i] == v;
                assert(b2[i] == v);
            }
        }
        lemma_listing_unique(a2, b2, s2);
        assert(a =~= a2.push(x));
        assert(b =~= b2.push(x));
    }
}

/// An ascending list of a set's entries is the set's canonical one.
pub proof fn lemma_sorted_is(q: Seq<(i64, Seq<char>)>, s: Set<(i64, Seq<char>)>)
    requires
        lists(q, s),
    ensures
        sorted_entries(s) == q,
{
    lemma_listing_unique(sorted_entries(s), q, s);
}

/// Ranks the entry `(a_time, a_text)` against `(b_time, b_text)`.
pub fn rank_entries(a_time: i64, a_text: &str, b_time: i64, b_text: &str) -> (r: Rank)
    ensures
        match r {
            Rank::Before => entry_lt((a_time, a_text@), (b_time, b_text@)),
            Rank::Same => a_time == b_time && a_text@ == b_text@,
            Rank::After => entry_lt((b_time, b_text@), (a_time, a_text@)),
        },
{
    if a_time < b_time {
        Rank::Before
    } else if b_time < a_time {
        Rank::After
    } else {
        rank_strings(a_text, b_text)
    }
}

/// Puts an entry at its place in an ascending list, unless the list holds
/// it already.
pub fn insert_entry(out: &mut Vec<(i64, String)>, time: i64, text: String)
    requires
        entries_ascending(entry_views(old(out)@)),
    ensures
        entries_ascending(entry_views(final(out)@)),
        forall|e: (i64, Seq<char>)|
            entry_views(final(out)@).contains(e) <==> entry_views(old(out)@).contains(e) || e == (
                time,
                text@,
            ),
{
    let ghost before = entry_views(out@);
    let ghost new = (time, text@);
    let mut p: usize = 0;
    let mut found: bool = false;
    while p < out.len() && !found
        invariant
            out@ == old(out)@,
            before == entry_views(out@),
            new == (time, text@),
            entries_ascending(before),
            p <= out@.len(),
            forall|j: int| 0 <= j < p ==> entry_lt(before[j], new),
            found ==> p < out@.len() && entry_lt(new, before[p as int]),
        decreases out@.len() - p + (if found { 0int } else { 1int }),
    {
        proof {
            assert(entry_views(out@)[p as int] == (out@[p as int].0, out@[p as int].1@));
        }
        match rank_entries(out[p].0, out[p].1.as_str(), time, text.as_str()) {
            Rank::Before => {
                p += 1;
            },
            Rank::Same => {
                proof {
                    assert(before[p as int] == new);
                    assert(before.contains(new));
                }
                return ;
            },
            Rank::After => {
                found = true;
            },
        }
    }
    out.insert(p, (time, text));
    proof {
        let after = entry_views(out@);
        assert(after =~= before.insert(p as int, new));
        assert forall|i: int, j: int| 0 <= i < j < after.len() implies entry_lt(
            after[i],
            after[j],
        ) by {
            if j == p {
            } else if i == p {
                if j - 1 > p {
                    lemma_entry_lt_transitive(new, before[p as int], before[j - 1]);
                }
            } else {
                let a = if i < p {
                    i
                } else {
                    i - 1
                };
                let b = if j < p {
                    j
                } else {
                    j - 1
                };
                assert(entry_lt(before[a], before[b]));
            }
        }
        assert forall|e: (i64, Seq<char>)| after.contains(e) <==> before.contains(e) || e
            == new by {
            if after.contains(e) {
                let i = choose|i: int| 0 <= i < after.len() && after[i] == e;
                if i < p {
                    assert(before[i] == e);
                } else if i > p {
                    assert(before[i - 1] == e);
                }
            }
            if before.contains(e) {
                let i = choose|i: int| 0 <= i < before.len() && before[i] == e;
                let j = if i < p {
                    i
                } else {
                    i + 1
                };
                assert(after[j] == e);
            }
            if e == new {
                assert(after[p as int] == e);
            }
        }
    }
}

/// The strings of a list of entries.
pub fn strip_times(entries: &Vec<(i64, String)>) -> (r: Vec<String>)
    ensures
        views(r@) == texts_of(entry_views(entries@)),
{
    let mut out: Vec<String> = Vec::new();
    let mut i: usize = 0;
    while i < entries.len()
        invariant
            i <= entries@.len(),
            out@.len() == i,
            forall|j: int| 0 <= j < i ==> (#[trigger] out@[j])@ == entries@[j].1@,
        decreases entries@.len() - i,
    {
        out.push(entries[i].1.clone());
        i += 1;
    }
    proof {
        assert(views(out@) =~= texts_of(entry_views(entries@)));
    }
    out
}

} // verus!
