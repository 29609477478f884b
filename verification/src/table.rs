//! Tables keyed by name.
//!
//! A [`Table`] keeps its entries sorted by name, each name once, so that
//! walking it is deterministic. Its content is a map from names to the
//! contents of the values.

use vstd::prelude::*;
use crate::json;
use crate::text;

verus! {

/// A table keyed by name.
pub struct Table<V> {
    entries: Vec<(String, V)>,
}

/// `ks` lists the names `d`.
pub open spec fn lists(ks: Seq<Seq<char>>, d: Set<Seq<char>>) -> bool {
    forall|k: Seq<char>| #[trigger] ks.contains(k) <==> d.contains(k)
}

/// The names `d` in ascending order.
pub open spec fn listing(d: Set<Seq<char>>) -> Seq<Seq<char>> {
    choose|ks: Seq<Seq<char>>| #[trigger] json::ascending(ks) && lists(ks, d)
}

/// Where a name belongs in an ascending list that does not hold it.
proof fn slot_for(ks: Seq<Seq<char>>, k: Seq<char>) -> (p: int)
    requires
        json::ascending(ks),
        !ks.contains(k),
    ensures
        0 <= p <= ks.len(),
        forall|j: int| 0 <= j < p ==> text::before(#[trigger] ks[j], k),
        forall|j: int| p <= j < ks.len() ==> text::before(k, #[trigger] ks[j]),
    decreases ks.len(),
{
    if ks.len() == 0 {
        0
    } else {
        let last = ks.last();
        assert(ks.contains(last));
        text::before_total(last, k);
        if text::before(last, k) {
            assert forall|j: int| 0 <= j < ks.len() implies text::before(#[trigger] ks[j], k) by {
                if j < ks.len() - 1 {
                    text::before_transitive(ks[j], last, k);
                }
            }
            ks.len() as int
        } else {
            let rest = ks.drop_last();
            assert forall|x: int, y: int| 0 <= x < y < rest.len() implies text::before(
                #[trigger] rest[x],
                #[trigger] rest[y],
            ) by {
                assert(text::before(ks[x], ks[y]));
            }
            assert(!rest.contains(k)) by {
                if rest.contains(k) {
                    assert(ks[rest.index_of(k)] == k);
                }
            }
            let p = slot_for(rest, k);
            assert forall|j: int| 0 <= j < p implies text::before(#[trigger] ks[j], k) by {
                assert(ks[j] == rest[j]);
            }
            assert forall|j: int| p <= j < ks.len() implies text::before(k, #[trigger] ks[j]) by {
                if j < rest.len() {
                    assert(ks[j] == rest[j]);
                }
            }
            p
        }
    }
}

/// Finitely many names can be listed in ascending order.
proof fn ascending_list(d: Set<Seq<char>>) -> (ks: Seq<Seq<char>>)
    requires
        d.finite(),
    ensures
        json::ascending(ks),
        lists(ks, d),
    decreases d.len(),
{
    if d.len() == 0 {
        let ks = Seq::<Seq<char>>::empty();
        assert(d =~= Set::empty());
        assert forall|k: Seq<char>| #[trigger] ks.contains(k) <==> d.contains(k) by {}
        ks
    } else {
        let k = d.choose();
        let rest = ascending_list(d.remove(k));
        assert(!rest.contains(k));
        let p = slot_for(rest, k);
        let ks = rest.insert(p, k);
        assert forall|x: int, y: int| 0 <= x < y < ks.len() implies text::before(
            #[trigger] ks[x],
            #[trigger] ks[y],
        ) by {
            let a = if x < p {
                x
            } else {
                x - 1
            };
            let b = if y < p {
                y
            } else {
                y - 1
            };
            if x != p && y != p {
                assert(text::before(rest[a], rest[b]));
            } else if x == p {
                assert(ks[y] == rest[b]);
            } else {
                assert(ks[x] == rest[a]);
            }
        }
        assert forall|q: Seq<char>| #[trigger] ks.contains(q) <==> d.contains(q) by {
            if ks.contains(q) {
                let i = ks.index_of(q);
                if i < p {
                    assert(rest[i] == q);
                    assert(rest.contains(q));
                } else if i > p {
                    assert(rest[i - 1] == q);
                    assert(rest.contains(q));
                }
            }
            if d.contains(q) {
                if q == k {
                    assert(ks[p] == k);
                } else {
                    assert(d.remove(k).contains(q));
                    assert(rest.contains(q));
                    let i = rest.index_of(q);
                    if i < p {
                        assert(ks[i] == q);
                    } else {
                        assert(ks[i + 1] == q);
                    }
                }
            }
        }
        ks
    }
}

/// The listing of finitely many names holds exactly them, in ascending
/// order.
pub proof fn listing_lists(d: Set<Seq<char>>)
    requires
        d.finite(),
    ensures
        json::ascending(listing(d)),
        lists(listing(d), d),
{
    let ks = ascending_list(d);
    assert(json::ascending(ks) && lists(ks, d));
}

/// A list of names in ascending order with `k` at its place in it; the list
/// itself when it holds `k`.
pub open spec fn merged(ks: Seq<Seq<char>>, k: Seq<char>) -> Seq<Seq<char>>
    decreases ks.len(),
{
    if ks.len() == 0 {
        seq![k]
    } else if ks.last() == k {
        ks
    } else if text::before(ks.last(), k) {
        ks.push(k)
    } else {
        merged(ks.drop_last(), k).push(ks.last())
    }
}

/// What a list with one more name at its place holds.
proof fn merged_holds(ks: Seq<Seq<char>>, k: Seq<char>)
    requires
        json::ascending(ks),
    ensures
        json::ascending(merged(ks, k)),
        forall|q: Seq<char>| #[trigger] merged(ks, k).contains(q) <==> q == k || ks.contains(q),
    decreases ks.len(),
{
    let r = merged(ks, k);
    if ks.len() == 0 {
        assert(r[0] == k);
    } else {
        let last = ks.last();
        assert(ks[ks.len() - 1] == last);
        if last == k {
        } else if text::before(last, k) {
            assert forall|x: int, y: int| 0 <= x < y < r.len() implies text::before(
                #[trigger] r[x],
                #[trigger] r[y],
            ) by {
                if y < ks.len() {
                    assert(text::before(ks[x], ks[y]));
                } else if x < ks.len() - 1 {
                    assert(text::before(ks[x], ks[ks.len() - 1]));
                    text::before_transitive(ks[x], last, k);
                }
            }
            assert forall|q: Seq<char>| #[trigger] r.contains(q) <==> q == k || ks.contains(q) by {
                if ks.contains(q) {
                    assert(r[ks.index_of(q)] == q);
                }
                assert(r[ks.len() as int] == k);
                if r.contains(q) {
                    let i = r.index_of(q);
                    if i < ks.len() {
                        assert(ks[i] == q);
                    }
                }
            }
        } else {
            let t = ks.drop_last();
            assert forall|x: int, y: int| 0 <= x < y < t.len() implies text::before(
                #[trigger] t[x],
                #[trigger] t[y],
            ) by {
                assert(text::before(ks[x], ks[y]));
            }
            merged_holds(t, k);
            let h = merged(t, k);
            text::before_total(last, k);
            assert forall|x: int, y: int| 0 <= x < y < r.len() implies text::before(
                #[trigger] r[x],
                #[trigger] r[y],
            ) by {
                if y < h.len() {
                    assert(text::before(h[x], h[y]));
                } else {
                    assert(h.contains(h[x]));
                    if h[x] != k {
                        let i = t.index_of(h[x]);
                        assert(text::before(ks[i], ks[ks.len() - 1]));
                    }
                }
            }
            assert forall|q: Seq<char>| #[trigger] r.contains(q) <==> q == k || ks.contains(q) by {
                assert(h.contains(q) <==> q == k || t.contains(q));
                if h.contains(q) {
                    assert(r[h.index_of(q)] == q);
                }
                if t.contains(q) {
                    assert(ks[t.index_of(q)] == q);
                }
                if ks.contains(q) && q != last {
                    assert(t[ks.index_of(q)] == q);
                }
                assert(r[h.len() as int] == last);
                if r.contains(q) && q != last {
                    assert(h[r.index_of(q)] == q);
                }
            }
        }
    }
}

/// One more name goes to its place in the listing, and one that is there
/// changes nothing.
pub proof fn listing_merges(d: Set<Seq<char>>, k: Seq<char>)
    requires
        d.finite(),
    ensures
        listing(d.insert(k)) == merged(listing(d), k),
        d.contains(k) ==> listing(d.insert(k)) == listing(d),
{
    listing_lists(d);
    listing_lists(d.insert(k));
    let (ks, all) = (listing(d), listing(d.insert(k)));
    merged_holds(ks, k);
    assert forall|q: Seq<char>| #[trigger] all.contains(q) <==> merged(ks, k).contains(q) by {
        assert(all.contains(q) <==> d.insert(k).contains(q));
        assert(ks.contains(q) <==> d.contains(q));
    }
    json::ascending_unique(all, merged(ks, k));
    if d.contains(k) {
        assert(d.insert(k) =~= d);
    }
}

/// The values under the first `n` names of `ks` that have a property, in
/// order.
pub open spec fn picked<T>(m: Map<Seq<char>, T>, ks: Seq<Seq<char>>, p: spec_fn(T) -> bool, n: int) -> Seq<T>
    decreases n,
{
    if n <= 0 {
        Seq::empty()
    } else if p(m[ks[n - 1]]) {
        picked(m, ks, p, n - 1).push(m[ks[n - 1]])
    } else {
        picked(m, ks, p, n - 1)
    }
}

/// Whether `ks` are the names of the values of `m` that have a property, in
/// ascending order.
pub open spec fn names_where<T>(m: Map<Seq<char>, T>, p: spec_fn(T) -> bool, ks: Seq<Seq<char>>) -> bool {
    &&& json::ascending(ks)
    &&& forall|k: Seq<char>| #[trigger] ks.contains(k) <==> m.dom().contains(k) && p(m[k])
}

/// Whether `vs` are exactly the values of `m` that have a property, each
/// once, in the ascending order of their names.
pub open spec fn selection<T>(m: Map<Seq<char>, T>, p: spec_fn(T) -> bool, vs: Seq<T>) -> bool {
    exists|ks: Seq<Seq<char>>| #[trigger]
        names_where(m, p, ks) && vs == ks.map_values(|k: Seq<char>| m[k])
}

/// The names of what is picked among the first `n` names.
proof fn picked_names<T>(m: Map<Seq<char>, T>, ks: Seq<Seq<char>>, p: spec_fn(T) -> bool, n: int) -> (r: Seq<
    Seq<char>,
>)
    requires
        json::ascending(ks),
        0 <= n <= ks.len(),
    ensures
        json::ascending(r),
        forall|k: Seq<char>| #[trigger] r.contains(k) <==> ks.take(n).contains(k) && p(m[k]),
        picked(m, ks, p, n) == r.map_values(|k: Seq<char>| m[k]),
    decreases n,
{
    if n == 0 {
        let r = Seq::<Seq<char>>::empty();
        assert(picked(m, ks, p, n) =~= r.map_values(|k: Seq<char>| m[k]));
        r
    } else {
        let t = picked_names(m, ks, p, n - 1);
        let k = ks[n - 1];
        let (a, b) = (ks.take(n - 1), ks.take(n));
        assert forall|q: Seq<char>| #[trigger] b.contains(q) <==> q == k || a.contains(q) by {
            assert(b[n - 1] == k);
            if a.contains(q) {
                assert(b[a.index_of(q)] == q);
            }
            if b.contains(q) && q != k {
                assert(a[b.index_of(q)] == q);
            }
        }
        if p(m[k]) {
            let r = t.push(k);
            assert forall|x: int, y: int| 0 <= x < y < r.len() implies text::before(
                #[trigger] r[x],
                #[trigger] r[y],
            ) by {
                if y < t.len() {
                    assert(text::before(t[x], t[y]));
                } else {
                    assert(t.contains(t[x]));
                    let i = a.index_of(t[x]);
                    assert(text::before(ks[i], ks[n - 1]));
                }
            }
            assert forall|q: Seq<char>| #[trigger] r.contains(q) <==> b.contains(q) && p(m[q]) by {
                assert(r[t.len() as int] == k);
                if t.contains(q) {
                    assert(r[t.index_of(q)] == q);
                }
                if r.contains(q) && q != k {
                    assert(t[r.index_of(q)] == q);
                    assert(t.contains(q));
                }
                assert(t.contains(q) <==> a.contains(q) && p(m[q]));
            }
            assert(picked(m, ks, p, n) =~= r.map_values(|k: Seq<char>| m[k]));
            r
        } else {
            assert forall|q: Seq<char>| #[trigger] t.contains(q) <==> b.contains(q) && p(m[q]) by {
                assert(t.contains(q) <==> a.contains(q) && p(m[q]));
            }
            t
        }
    }
}

/// Picking along the listing of a table's names selects.
pub proof fn picked_selects<T>(m: Map<Seq<char>, T>, p: spec_fn(T) -> bool)
    requires
        m.dom().finite(),
    ensures
        selection(m, p, picked(m, listing(m.dom()), p, listing(m.dom()).len() as int)),
{
    listing_lists(m.dom());
    let ks = listing(m.dom());
    let r = picked_names(m, ks, p, ks.len() as int);
    assert(ks.take(ks.len() as int) =~= ks);
    assert forall|k: Seq<char>| #[trigger] r.contains(k) <==> m.dom().contains(k) && p(m[k]) by {
        assert(ks.contains(k) <==> m.dom().contains(k));
    }
    assert(names_where(m, p, r));
}

/// The names of a sequence of entries.
spec fn names<V>(s: Seq<(String, V)>) -> Seq<Seq<char>> {
    s.map_values(|e: (String, V)| e.0@)
}

/// The map that a sequence of entries makes up.
spec fn entry_map<V: View>(s: Seq<(String, V)>) -> Map<Seq<char>, V::V>
    decreases s.len(),
{
    if s.len() == 0 {
        Map::empty()
    } else {
        entry_map(s.drop_last()).insert(s.last().0@, s.last().1@)
    }
}

impl<V: View> View for Table<V> {
    type V = Map<Seq<char>, V::V>;

    closed spec fn view(&self) -> Map<Seq<char>, V::V> {
        entry_map(self.entries@)
    }
}

/// What the map of a sequence of entries holds.
proof fn entry_map_dom<V: View>(s: Seq<(String, V)>)
    ensures
        lists(names(s), entry_map(s).dom()),
    decreases s.len(),
{
    let m = entry_map(s);
    if s.len() == 0 {
        assert forall|k: Seq<char>| #[trigger] names(s).contains(k) <==> m.dom().contains(k) by {}
    } else {
        let t = s.drop_last();
        entry_map_dom(t);
        assert forall|k: Seq<char>| #[trigger] names(s).contains(k) <==> m.dom().contains(k) by {
            if names(s).contains(k) {
                let i = names(s).index_of(k);
                if i < t.len() {
                    assert(names(t)[i] == k);
                    assert(names(t).contains(k));
                }
            }
            if m.dom().contains(k) {
                if k == s.last().0@ {
                    assert(names(s)[s.len() - 1] == k);
                } else {
                    assert(names(t).contains(k));
                    let i = names(t).index_of(k);
                    assert(names(s)[i] == k);
                }
            }
        }
    }
}

/// An entry of pairwise differently named entries is found in their map.
proof fn entry_map_at<V: View>(s: Seq<(String, V)>, i: int)
    requires
        0 <= i < s.len(),
        json::ascending(names(s)),
    ensures
        entry_map(s).dom().contains(s[i].0@),
        entry_map(s)[s[i].0@] == s[i].1@,
    decreases s.len(),
{
    let t = s.drop_last();
    if i < t.len() {
        assert(names(t) =~= names(s).drop_last());
        assert forall|x: int, y: int| 0 <= x < y < names(t).len() implies text::before(
            #[trigger] names(t)[x],
            #[trigger] names(t)[y],
        ) by {
            assert(text::before(names(s)[x], names(s)[y]));
        }
        entry_map_at(t, i);
        assert(text::before(names(s)[i], names(s)[s.len() - 1]));
        text::before_asymmetric(s[i].0@, s.last().0@);
    }
}

/// The names of entries in ascending order are the listing of their map.
proof fn names_in_order<V: View>(s: Seq<(String, V)>)
    requires
        json::ascending(names(s)),
    ensures
        names(s) == listing(entry_map(s).dom()),
{
    entry_map_dom(s);
    let d = entry_map(s).dom();
    let ks = listing(d);
    assert(json::ascending(names(s)) && lists(names(s), d));
    assert(json::ascending(ks) && lists(ks, d));
    assert forall|k: Seq<char>| #[trigger] names(s).contains(k) <==> ks.contains(k) by {
        assert(ks.contains(k) <==> d.contains(k));
    }
    json::ascending_unique(names(s), ks);
}

/// The map of a sequence of entries is finite.
proof fn entry_map_finite<V: View>(s: Seq<(String, V)>)
    ensures
        entry_map(s).dom().finite(),
    decreases s.len(),
{
    if s.len() > 0 {
        entry_map_finite(s.drop_last());
    }
}

/// Entries make up the map that holds the same names with the same
/// contents.
proof fn same_map<V: View>(s: Seq<(String, V)>, m: Map<Seq<char>, V::V>)
    requires
        json::ascending(names(s)),
        forall|k: Seq<char>| #[trigger] m.dom().contains(k) ==> names(s).contains(k),
        forall|i: int|
            0 <= i < s.len() ==> m.dom().contains((#[trigger] s[i]).0@) && m[s[i].0@] == s[i].1@,
    ensures
        entry_map(s) == m,
{
    entry_map_dom(s);
    assert forall|k: Seq<char>| entry_map(s).dom().contains(k) <==> m.dom().contains(k) by {
        assert(names(s).contains(k) <==> entry_map(s).dom().contains(k));
        if names(s).contains(k) {
            let i = names(s).index_of(k);
            assert(m.dom().contains(s[i].0@));
        }
    }
    assert forall|k: Seq<char>| #[trigger] entry_map(s).dom().contains(k) implies entry_map(s)[k] == m[k] by {
        assert(names(s).contains(k));
        let i = names(s).index_of(k);
        entry_map_at(s, i);
        assert(m.dom().contains(s[i].0@));
    }
    assert(entry_map(s) =~= m);
}

impl<V> Table<V> {
    #[verifier::type_invariant]
    spec fn sorted(self) -> bool {
        json::ascending(names(self.entries@))
    }
}

impl<V: View> Table<V> {
    /// An empty table.
    pub fn new() -> (r: Table<V>)
        ensures
            r@ == Map::<Seq<char>, V::V>::empty(),
    {
        Table { entries: Vec::new() }
    }

    /// How many entries there are.
    pub fn len(&self) -> (r: usize)
        ensures
            r == listing(self@.dom()).len(),
            self@.dom().finite(),
    {
        proof {
            use_type_invariant(self);
            names_in_order(self.entries@);
            entry_map_finite(self.entries@);
        }
        self.entries.len()
    }

    /// The name of the entry at `i`, in name order.
    pub fn key_at(&self, i: usize) -> (r: &str)
        requires
            i < listing(self@.dom()).len(),
        ensures
            r@ == listing(self@.dom())[i as int],
    {
        proof {
            use_type_invariant(self);
            names_in_order(self.entries@);
        }
        assert(names(self.entries@)[i as int] == self.entries@[i as int].0@);
        self.entries[i].0.as_str()
    }

    /// The value of the entry at `i`, in name order.
    pub fn value_at(&self, i: usize) -> (r: &V)
        requires
            i < listing(self@.dom()).len(),
        ensures
            self@.dom().contains(listing(self@.dom())[i as int]),
            r@ == self@[listing(self@.dom())[i as int]],
    {
        proof {
            use_type_invariant(self);
            names_in_order(self.entries@);
            entry_map_at(self.entries@, i as int);
        }
        assert(names(self.entries@)[i as int] == self.entries@[i as int].0@);
        &self.entries[i].1
    }

    /// Where `key` stands or would stand.
    fn slot(&self, key: &str) -> (r: usize)
        ensures
            r <= self.entries@.len(),
            forall|j: int| 0 <= j < r ==> text::before(#[trigger] names(self.entries@)[j], key@),
            r < self.entries@.len() ==> !text::before(names(self.entries@)[r as int], key@),
    {
        let mut i: usize = 0;
        while i < self.entries.len() && text::precedes(self.entries[i].0.as_str(), key)
            invariant
                i <= self.entries@.len(),
                forall|j: int| 0 <= j < i ==> text::before(#[trigger] names(self.entries@)[j], key@),
            decreases self.entries@.len() - i,
        {
            i = i + 1;
        }
        i
    }

    /// The names from the slot of `key` on, past `key` itself, follow it.
    proof fn slot_rest(s: Seq<(String, V)>, r: int, key: Seq<char>)
        requires
            json::ascending(names(s)),
            0 <= r <= s.len(),
            forall|j: int| 0 <= j < r ==> text::before(#[trigger] names(s)[j], key),
            r < s.len() ==> !text::before(names(s)[r], key),
        ensures
            forall|j: int| r < j < s.len() ==> text::before(key, #[trigger] names(s)[j]),
            r < s.len() && names(s)[r] != key ==> text::before(key, names(s)[r]),
            names(s).contains(key) <==> r < s.len() && names(s)[r] == key,
    {
        if r < s.len() {
            text::before_total(names(s)[r], key);
            assert forall|j: int| r < j < s.len() implies text::before(key, #[trigger] names(s)[j]) by {
                assert(text::before(names(s)[r], names(s)[j]));
                if names(s)[r] != key {
                    text::before_transitive(key, names(s)[r], names(s)[j]);
                }
            }
        }
        if names(s).contains(key) {
            let x = names(s).index_of(key);
            text::before_irreflexive(key);
            assert(x >= r);
            if x > r {
                text::before_irreflexive(key);
            }
        }
    }

    /// The entry `key`.
    pub fn get(&self, key: &str) -> (r: Option<&V>)
        ensures
            match r {
                Some(v) => self@.dom().contains(key@) && self@[key@] == v@,
                None => !self@.dom().contains(key@),
            },
    {
        let i = self.slot(key);
        proof {
            use_type_invariant(self);
            Table::<V>::slot_rest(self.entries@, i as int, key@);
            entry_map_dom(self.entries@);
            assert(names(self.entries@).contains(key@) <==> self@.dom().contains(key@));
        }
        if i < self.entries.len() && text::same(self.entries[i].0.as_str(), key) {
            proof {
                entry_map_at(self.entries@, i as int);
            }
            Some(&self.entries[i].1)
        } else {
            None
        }
    }

    /// Sets the entry `key`.
    pub fn insert(&mut self, key: String, value: V)
        ensures
            final(self)@ == old(self)@.insert(key@, value@),
    {
        let i = self.slot(key.as_str());
        let ghost before = self.entries@;
        let ghost k = key@;
        proof {
            use_type_invariant(&*self);
            Table::<V>::slot_rest(before, i as int, k);
            entry_map_dom(before);
        }
        let mut es: Vec<(String, V)> = Vec::new();
        std::mem::swap(&mut es, &mut self.entries);
        let ghost m = old(self)@.insert(k, value@);
        if i < es.len() && text::same(es[i].0.as_str(), key.as_str()) {
            es.remove(i);
            assert(es@ =~= before.remove(i as int));
        }
        let ghost rest = es@;
        es.insert(i, (key, value));
        let ghost after = es@;
        proof {
            assert forall|x: int, y: int| 0 <= x < y < after.len() implies text::before(
                #[trigger] names(after)[x],
                #[trigger] names(after)[y],
            ) by {
                let shift: int = before.len() - rest.len();
                let x0 = if x < i { x } else { x - 1 + shift };
                let y0 = if y < i { y } else { y - 1 + shift };
                if x != i {
                    assert(after[x] == before[x0]);
                    assert(names(before)[x0] == names(after)[x]);
                }
                if y != i {
                    assert(after[y] == before[y0]);
                    assert(names(before)[y0] == names(after)[y]);
                }
                if x != i && y != i {
                    assert(text::before(names(before)[x0], names(before)[y0]));
                }
            }
            assert forall|j: int| 0 <= j < after.len() implies m.dom().contains((#[trigger] after[j]).0@)
                && m[after[j].0@] == after[j].1@ by {
                assert(names(after)[j] == after[j].0@);
                if j != i {
                    let shift: int = before.len() - rest.len();
                    let j0 = if j < i { j } else { j - 1 + shift };
                    assert(after[j] == before[j0]);
                    entry_map_at(before, j0);
                    assert(names(after)[j] == before[j0].0@);
                    if j < i {
                        assert(text::before(names(after)[j], names(after)[i as int]));
                        text::before_asymmetric(names(after)[j], k);
                    } else {
                        assert(text::before(names(after)[i as int], names(after)[j]));
                        text::before_asymmetric(k, names(after)[j]);
                    }
                } else {
                    assert(names(after)[j] == k);
                }
            }
            assert forall|q: Seq<char>| #[trigger] m.dom().contains(q) implies names(after).contains(q) by {
                if q == k {
                    assert(names(after)[i as int] == q);
                } else {
                    assert(names(before).contains(q));
                    let j0 = names(before).index_of(q);
                    let shift: int = before.len() - rest.len();
                    let j = if j0 < i { j0 } else { j0 + 1 - shift };
                    assert(after[j] == before[j0]);
                    assert(names(after)[j] == q);
                }
            }
            same_map(after, m);
        }
        self.entries = es;
    }

    /// Takes the entry `key` out, if there is one.
    pub fn take(&mut self, key: &str) -> (r: Option<V>)
        ensures
            final(self)@ == old(self)@.remove(key@),
            match r {
                Some(v) => old(self)@.dom().contains(key@) && old(self)@[key@] == v@,
                None => !old(self)@.dom().contains(key@),
            },
    {
        let i = self.slot(key);
        let ghost before = self.entries@;
        proof {
            use_type_invariant(&*self);
            Table::<V>::slot_rest(before, i as int, key@);
            entry_map_dom(before);
            assert(names(before).contains(key@) <==> entry_map(before).dom().contains(key@));
        }
        if i < self.entries.len() && text::same(self.entries[i].0.as_str(), key) {
            proof {
                entry_map_at(before, i as int);
            }
            let mut es: Vec<(String, V)> = Vec::new();
            std::mem::swap(&mut es, &mut self.entries);
            let taken = es.remove(i);
            let ghost after = es@;
            let ghost m = old(self)@.remove(key@);
            proof {
                assert(after =~= before.remove(i as int));
                assert forall|x: int, y: int| 0 <= x < y < after.len() implies text::before(
                    #[trigger] names(after)[x],
                    #[trigger] names(after)[y],
                ) by {
                    let x0 = if x < i { x } else { x + 1 };
                    let y0 = if y < i { y } else { y + 1 };
                    assert(text::before(names(before)[x0], names(before)[y0]));
                }
                assert forall|j: int| 0 <= j < after.len() implies m.dom().contains(
                    (#[trigger] after[j]).0@,
                ) && m[after[j].0@] == after[j].1@ by {
                    assert(names(after)[j] == after[j].0@);
                    let j0 = if j < i { j } else { j + 1 };
                    assert(after[j] == before[j0]);
                    entry_map_at(before, j0);
                    assert(names(after)[j] == names(before)[j0]);
                    if j < i {
                        assert(text::before(names(before)[j0], names(before)[i as int]));
                        text::before_asymmetric(names(before)[j0], key@);
                    } else {
                        assert(text::before(names(before)[i as int], names(before)[j0]));
                        text::before_asymmetric(key@, names(before)[j0]);
                    }
                }
                assert forall|q: Seq<char>| #[trigger] m.dom().contains(q) implies names(after).contains(q) by {
                    assert(names(before).contains(q));
                    let j0 = names(before).index_of(q);
                    let j = if j0 < i { j0 } else { j0 - 1 };
                    assert(after[j] == before[j0]);
                    assert(names(after)[j] == q);
                }
                same_map(after, m);
            }
            self.entries = es;
            Some(taken.1)
        } else {
            assert(self@ =~= old(self)@.remove(key@));
            None
        }
    }
}

} // verus!
