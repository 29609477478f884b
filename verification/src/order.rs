//! Stable ordering by a key, and search by name.
//!
//! Versions are listed by the start of their window and then by version
//! number, items by identifier. Both orders are computed here once, as an
//! arrangement of positions.

use vstd::prelude::*;
use crate::text;

verus! {

/// A sort key: a number, then a text.
pub type Key = (int, Seq<char>);

/// Whether key `a` sorts strictly before key `b`.
pub open spec fn key_before(a: Key, b: Key) -> bool {
    a.0 < b.0 || (a.0 == b.0 && text::before(a.1, b.1))
}

/// `s` with position `v` put in after every position whose key does not
/// sort after its own.
pub open spec fn insert_ordered(keys: Seq<Key>, s: Seq<int>, v: int) -> Seq<int>
    decreases s.len(),
{
    if s.len() > 0 && key_before(keys[v], keys[s.last()]) {
        insert_ordered(keys, s.drop_last(), v).push(s.last())
    } else {
        s.push(v)
    }
}

/// The first `n` positions in ascending order of their keys; positions
/// with equal keys stay in order.
pub open spec fn arranged(keys: Seq<Key>, n: int) -> Seq<int>
    decreases n,
{
    if n <= 0 {
        Seq::empty()
    } else {
        insert_ordered(keys, arranged(keys, n - 1), n - 1)
    }
}

/// The positions of `keys` in ascending order of the keys.
pub open spec fn arrangement(keys: Seq<Key>) -> Seq<int> {
    arranged(keys, keys.len() as int)
}

/// Where a position is put in.
proof fn insert_ordered_at(keys: Seq<Key>, s: Seq<int>, v: int, i: int)
    requires
        0 <= i <= s.len(),
        forall|j: int| i <= j < s.len() ==> key_before(keys[v], keys[#[trigger] s[j]]),
        i > 0 ==> !key_before(keys[v], keys[s[i - 1]]),
    ensures
        insert_ordered(keys, s, v) == s.insert(i, v),
    decreases s.len(),
{
    if i < s.len() {
        assert(key_before(keys[v], keys[s[s.len() - 1]]));
        insert_ordered_at(keys, s.drop_last(), v, i);
        assert(s.drop_last().insert(i, v).push(s.last()) =~= s.insert(i, v));
    } else {
        assert(s.push(v) =~= s.insert(i, v));
    }
}

/// Whether the keys at the positions `s` ascend.
pub open spec fn in_order(keys: Seq<Key>, s: Seq<int>) -> bool {
    forall|i: int, j: int|
        0 <= i < j < s.len() ==> !key_before(keys[#[trigger] s[j]], keys[#[trigger] s[i]])
}

/// Putting in a position adds it and keeps the rest.
proof fn insert_ordered_keeps(keys: Seq<Key>, s: Seq<int>, v: int)
    requires
        in_order(keys, s),
    ensures
        in_order(keys, insert_ordered(keys, s, v)),
        insert_ordered(keys, s, v).len() == s.len() + 1,
        forall|x: int| #[trigger]
            insert_ordered(keys, s, v).contains(x) <==> s.contains(x) || x == v,
    decreases s.len(),
{
    let r = insert_ordered(keys, s, v);
    if s.len() > 0 && key_before(keys[v], keys[s.last()]) {
        let t = s.drop_last();
        assert forall|i: int, j: int| 0 <= i < j < t.len() implies !key_before(
            keys[#[trigger] t[j]],
            keys[#[trigger] t[i]],
        ) by {
            assert(!key_before(keys[s[j]], keys[s[i]]));
        }
        insert_ordered_keeps(keys, t, v);
        let q = insert_ordered(keys, t, v);
        assert(r =~= q.push(s.last()));
        assert forall|i: int, j: int| 0 <= i < j < r.len() implies !key_before(
            keys[#[trigger] r[j]],
            keys[#[trigger] r[i]],
        ) by {
            if j < q.len() {
                assert(!key_before(keys[q[j]], keys[q[i]]));
            } else {
                assert(q.contains(q[i]));
                if q[i] == v {
                    key_before_asymmetric(keys[v], keys[s.last()]);
                } else {
                    assert(t.contains(q[i]));
                    let k = t.index_of(q[i]);
                    assert(!key_before(keys[s[s.len() - 1]], keys[s[k]]));
                }
            }
        }
        assert forall|x: int| #[trigger] r.contains(x) <==> s.contains(x) || x == v by {
            if r.contains(x) {
                let k = r.index_of(x);
                if k < q.len() {
                    assert(q[k] == x);
                    assert(q.contains(x));
                    if t.contains(x) {
                        assert(s[t.index_of(x)] == x);
                    }
                } else {
                    assert(s[s.len() - 1] == x);
                }
            }
            if s.contains(x) || x == v {
                if x == s.last() && x != v {
                    assert(r[r.len() - 1] == x);
                } else {
                    if x != v {
                        let k = s.index_of(x);
                        if k < t.len() {
                            assert(t[k] == x);
                            assert(t.contains(x));
                        } else {
                            assert(r[r.len() - 1] == x);
                        }
                    }
                    if x == v || t.contains(x) {
                        assert(q.contains(x));
                        assert(r[q.index_of(x)] == x);
                    }
                }
            }
        }
    } else {
        assert(r =~= s.push(v));
        assert forall|i: int, j: int| 0 <= i < j < r.len() implies !key_before(
            keys[#[trigger] r[j]],
            keys[#[trigger] r[i]],
        ) by {
            if j < s.len() {
                assert(!key_before(keys[s[j]], keys[s[i]]));
            } else if i < s.len() - 1 {
                assert(!key_before(keys[s[s.len() - 1]], keys[s[i]]));
                if key_before(keys[v], keys[s[i]]) {
                    key_before_trans(keys[v], keys[s[i]], keys[s.last()]);
                }
            }
        }
        assert forall|x: int| #[trigger] r.contains(x) <==> s.contains(x) || x == v by {
            if r.contains(x) {
                let k = r.index_of(x);
                if k < s.len() {
                    assert(s[k] == x);
                }
            }
            if s.contains(x) {
                assert(r[s.index_of(x)] == x);
            }
            if x == v {
                assert(r[s.len() as int] == x);
            }
        }
    }
}

/// `a` sorts before `b`, and `c` does not sort before `b`, so `a` sorts
/// before `c`.
proof fn key_before_trans(a: Key, b: Key, c: Key)
    requires
        key_before(a, b),
        !key_before(c, b),
    ensures
        key_before(a, c),
{
    if a.0 == b.0 && b.0 == c.0 {
        text::before_total(c.1, b.1);
        if text::before(b.1, c.1) {
            text::before_transitive(a.1, b.1, c.1);
        }
    }
}

/// Of two keys at most one sorts before the other.
proof fn key_before_asymmetric(a: Key, b: Key)
    requires
        key_before(a, b),
    ensures
        !key_before(b, a),
{
    if a.0 == b.0 {
        text::before_asymmetric(a.1, b.1);
    }
}

/// An arrangement lists every position once, in ascending order of keys.
pub proof fn arranged_sorts(keys: Seq<Key>, n: int)
    requires
        0 <= n <= keys.len(),
    ensures
        arranged(keys, n).len() == n,
        in_order(keys, arranged(keys, n)),
        forall|x: int| #[trigger] arranged(keys, n).contains(x) <==> 0 <= x < n,
        forall|i: int| 0 <= i < n ==> 0 <= #[trigger] arranged(keys, n)[i] < n,
        arranged(keys, n).no_duplicates(),
    decreases n,
{
    let r = arranged(keys, n);
    if n > 0 {
        let s = arranged(keys, n - 1);
        arranged_sorts(keys, n - 1);
        insert_ordered_keeps(keys, s, n - 1);
        assert forall|x: int| #[trigger] r.contains(x) <==> 0 <= x < n by {
            assert(r.contains(x) <==> s.contains(x) || x == n - 1);
            assert(s.contains(x) <==> 0 <= x < n - 1);
        }
        assert forall|i: int| 0 <= i < n implies 0 <= #[trigger] r[i] < n by {
            assert(r.contains(r[i]));
        }
        assert(r.to_set() =~= vstd::set_lib::set_int_range(0, n)) by {
            assert forall|x: int| #[trigger] r.to_set().contains(x) <==> 0 <= x < n by {
                assert(r.to_set().contains(x) <==> r.contains(x));
            }
        }
        vstd::set_lib::lemma_int_range(0, n);
        r.lemma_no_dup_set_cardinality();
    } else {
        assert forall|x: int| #[trigger] r.contains(x) <==> 0 <= x < n by {}
    }
}

/// The contents of sort keys.
pub open spec fn key_views(v: Seq<(i128, String)>) -> Seq<Key> {
    v.map_values(|k: (i128, String)| (k.0 as int, k.1@))
}

/// The contents of positions.
pub open spec fn positions(v: Seq<usize>) -> Seq<int> {
    v.map_values(|p: usize| p as int)
}

/// Whether the key at `a` sorts before the key at `b`.
fn sorts_before(keys: &Vec<(i128, String)>, a: usize, b: usize) -> (r: bool)
    requires
        a < keys@.len(),
        b < keys@.len(),
    ensures
        r == key_before(key_views(keys@)[a as int], key_views(keys@)[b as int]),
{
    if keys[a].0 != keys[b].0 {
        keys[a].0 < keys[b].0
    } else {
        text::precedes(keys[a].1.as_str(), keys[b].1.as_str())
    }
}

/// Arranges the positions of `keys` in ascending order of the keys.
pub fn arrange(keys: &Vec<(i128, String)>) -> (r: Vec<usize>)
    ensures
        positions(r@) == arrangement(key_views(keys@)),
        r@.len() == keys@.len(),
        forall|i: int| 0 <= i < r@.len() ==> (#[trigger] r@[i]) < keys@.len(),
{
    let ghost ks = key_views(keys@);
    let mut out: Vec<usize> = Vec::new();
    let mut n: usize = 0;
    assert(positions(out@) =~= Seq::<int>::empty());
    while n < keys.len()
        invariant
            ks == key_views(keys@),
            n <= keys@.len(),
            positions(out@) == arranged(ks, n as int),
            out@.len() == n,
            forall|i: int| 0 <= i < out@.len() ==> (#[trigger] out@[i]) < n,
        decreases keys@.len() - n,
    {
        let mut i: usize = out.len();
        while i > 0 && sorts_before(keys, n, out[i - 1])
            invariant
                ks == key_views(keys@),
                n < keys@.len(),
                out@.len() == n,
                forall|j: int| 0 <= j < out@.len() ==> (#[trigger] out@[j]) < n,
                i <= out@.len(),
                forall|j: int|
                    i <= j < out@.len() ==> key_before(ks[n as int], ks[#[trigger] positions(out@)[j]]),
            decreases i,
        {
            i = i - 1;
        }
        let ghost before = positions(out@);
        proof {
            insert_ordered_at(ks, before, n as int, i as int);
        }
        out.insert(i, n);
        assert(positions(out@) =~= before.insert(i as int, n as int));
        n = n + 1;
    }
    out
}

/// The position of the first `n` among `names`, or their number.
pub open spec fn index_of(names: Seq<Seq<char>>, n: Seq<char>) -> int
    decreases names.len(),
{
    if names.len() == 0 {
        0
    } else if names[0] == n {
        0
    } else {
        1 + index_of(names.skip(1), n)
    }
}

/// `i` is where the first `n` stands, or the end when there is none.
pub proof fn index_of_is(names: Seq<Seq<char>>, n: Seq<char>, i: int)
    requires
        0 <= i <= names.len(),
        forall|j: int| 0 <= j < i ==> #[trigger] names[j] != n,
        i < names.len() ==> names[i] == n,
    ensures
        index_of(names, n) == i,
    decreases names.len(),
{
    if names.len() > 0 && names[0] != n {
        assert forall|j: int| 0 <= j < i - 1 implies #[trigger] names.skip(1)[j] != n by {
            assert(names.skip(1)[j] == names[j + 1]);
        }
        index_of_is(names.skip(1), n, i - 1);
    }
}

/// What `index_of` finds.
pub proof fn index_of_found(names: Seq<Seq<char>>, n: Seq<char>)
    ensures
        0 <= index_of(names, n) <= names.len(),
        forall|j: int| 0 <= j < index_of(names, n) ==> #[trigger] names[j] != n,
        index_of(names, n) < names.len() ==> names[index_of(names, n)] == n,
        names.contains(n) <==> index_of(names, n) < names.len(),
    decreases names.len(),
{
    if names.len() > 0 && names[0] != n {
        let t = names.skip(1);
        index_of_found(t, n);
        assert forall|j: int| 0 <= j < index_of(names, n) implies #[trigger] names[j] != n by {
            if j > 0 {
                assert(names[j] == t[j - 1]);
            }
        }
        if names.contains(n) {
            let k = choose|k: int| 0 <= k < names.len() && names[k] == n;
            assert(t[k - 1] == n);
        }
    } else if names.len() > 0 {
        assert(names[0] == n);
    }
}

} // verus!
