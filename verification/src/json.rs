//! JSON values.
//!
//! [`Json`] is an ordinary value that owns its text; [`Tree`] is its
//! mathematical content, in which an object is a map from names to values.
//! Objects keep their members sorted by name, so walking one is
//! deterministic.

use vstd::prelude::*;
use crate::bridge;
use crate::text;

verus! {

/// A JSON number: an integer, or a number that is none, kept as
/// `serde_json` holds it.
#[derive(Debug, PartialEq, Eq)]
pub enum Num {
    PosInt(u64),
    NegInt(i64),
    Float(serde_json::Number),
}

/// A JSON value.
#[derive(Debug, PartialEq, Eq)]
pub enum Json {
    Null,
    Bool(bool),
    Num(Num),
    Str(String),
    Arr(Vec<Json>),
    Obj(Object),
}

/// The members of a JSON object, sorted by name.
#[derive(Debug, PartialEq, Eq)]
pub struct Object {
    entries: Vec<(String, Json)>,
}

/// The content of a JSON value. A number is an integer, or the notation
/// of a number that is none.
#[verifier::ext_equal]
pub enum Tree {
    Null,
    Bool(bool),
    Int(int),
    Float(Seq<char>),
    Str(Seq<char>),
    Arr(Seq<Tree>),
    Obj(Map<Seq<char>, Tree>),
}

/// The content of a number.
pub open spec fn num(n: Num) -> Tree {
    match n {
        Num::PosInt(u) => Tree::Int(u as int),
        Num::NegInt(i) => Tree::Int(i as int),
        Num::Float(f) => bridge::number_tree(f),
    }
}

/// The content of a value.
pub open spec fn tree(v: Json) -> Tree
    decreases v,
{
    match v {
        Json::Null => Tree::Null,
        Json::Bool(b) => Tree::Bool(b),
        Json::Num(n) => num(n),
        Json::Str(s) => Tree::Str(s@),
        Json::Arr(a) => Tree::Arr(trees(a@)),
        Json::Obj(o) => Tree::Obj(members(o)),
    }
}

/// The contents of a sequence of values.
pub open spec fn trees(s: Seq<Json>) -> Seq<Tree>
    decreases s,
{
    Seq::new(
        s.len(),
        |i: int|
            if 0 <= i < s.len() {
                tree(s[i])
            } else {
                Tree::Null
            },
    )
}

/// The content of an object.
pub closed spec fn members(o: Object) -> Map<Seq<char>, Tree>
    decreases o,
{
    entry_map(o.entries@)
}

/// The map that a sequence of members makes up, a later member replacing
/// an earlier one of the same name.
spec fn entry_map(s: Seq<(String, Json)>) -> Map<Seq<char>, Tree>
    decreases s,
{
    if s.len() == 0 {
        Map::empty()
    } else {
        entry_map(s.drop_last()).insert(s.last().0@, tree(s.last().1))
    }
}

impl View for Json {
    type V = Tree;

    open spec fn view(&self) -> Tree {
        tree(*self)
    }
}

impl View for Object {
    type V = Map<Seq<char>, Tree>;

    open spec fn view(&self) -> Map<Seq<char>, Tree> {
        members(*self)
    }
}

/// The member `key` of an object; nothing of any other value.
pub open spec fn lookup(t: Tree, key: Seq<char>) -> Option<Tree> {
    match t {
        Tree::Obj(m) => member(m, key),
        _ => None,
    }
}

/// The member `key` of an object.
pub open spec fn member(m: Map<Seq<char>, Tree>, key: Seq<char>) -> Option<Tree> {
    if m.dom().contains(key) {
        Some(m[key])
    } else {
        None
    }
}

/// Names in strictly ascending order.
pub open spec fn ascending(ks: Seq<Seq<char>>) -> bool {
    forall|i: int, j: int| 0 <= i < j < ks.len() ==> text::before(#[trigger] ks[i], #[trigger] ks[j])
}

/// `ks` lists the names of `m`.
pub open spec fn lists(ks: Seq<Seq<char>>, m: Map<Seq<char>, Tree>) -> bool {
    forall|k: Seq<char>| #[trigger] ks.contains(k) <==> m.dom().contains(k)
}

/// The names of an object's members in ascending order.
pub open spec fn key_order(m: Map<Seq<char>, Tree>) -> Seq<Seq<char>> {
    choose|ks: Seq<Seq<char>>| #[trigger] ascending(ks) && lists(ks, m)
}

/// There is one way to list names in ascending order.
pub(crate) proof fn ascending_unique(a: Seq<Seq<char>>, b: Seq<Seq<char>>)
    requires
        ascending(a),
        ascending(b),
        forall|k: Seq<char>| #[trigger] a.contains(k) <==> b.contains(k),
    ensures
        a == b,
    decreases a.len(),
{
    if a.len() == 0 {
        if b.len() > 0 {
            assert(b.contains(b[0]));
            assert(a.contains(b[0]));
        }
        assert(a =~= b);
    } else if b.len() == 0 {
        assert(a.contains(a[0]));
        assert(b.contains(a[0]));
    } else {
        assert(a.contains(a[0]) && b.contains(b[0]));
        assert(b.contains(a[0]) && a.contains(b[0]));
        let i = b.index_of(a[0]);
        let j = a.index_of(b[0]);
        assert(0 <= i < b.len() && b[i] == a[0]);
        assert(0 <= j < a.len() && a[j] == b[0]);
        if i > 0 && j > 0 {
            text::before_asymmetric(b[0], b[i]);
            assert(text::before(a[0], a[j]));
        }
        assert(a[0] == b[0]);
        let a2 = a.skip(1);
        let b2 = b.skip(1);
        assert forall|k: Seq<char>| #[trigger] a2.contains(k) <==> b2.contains(k) by {
            if a2.contains(k) {
                let x = a2.index_of(k);
                assert(a[x + 1] == k);
                assert(a.contains(k));
                let y = b.index_of(k);
                text::before_asymmetric(a[0], a[x + 1]);
                assert(b2[y - 1] == k);
            }
            if b2.contains(k) {
                let x = b2.index_of(k);
                assert(b[x + 1] == k);
                assert(b.contains(k));
                assert(a.contains(k));
                let y = a.index_of(k);
                text::before_asymmetric(b[0], b[x + 1]);
                assert(a2[y - 1] == k);
            }
        }
        assert forall|x: int, y: int| 0 <= x < y < a2.len() implies text::before(
            #[trigger] a2[x],
            #[trigger] a2[y],
        ) by {
            assert(text::before(a[x + 1], a[y + 1]));
        }
        assert forall|x: int, y: int| 0 <= x < y < b2.len() implies text::before(
            #[trigger] b2[x],
            #[trigger] b2[y],
        ) by {
            assert(text::before(b[x + 1], b[y + 1]));
        }
        ascending_unique(a2, b2);
        assert(a =~= seq![a[0]] + a2);
        assert(b =~= seq![b[0]] + b2);
    }
}

/// The names of a sequence of members.
spec fn names(s: Seq<(String, Json)>) -> Seq<Seq<char>> {
    s.map_values(|e: (String, Json)| e.0@)
}

/// What the map of a sequence of members holds.
proof fn entry_map_dom(s: Seq<(String, Json)>)
    ensures
        lists(names(s), entry_map(s)),
    decreases s.len(),
{
    let m = entry_map(s);
    if s.len() == 0 {
        assert forall|k: Seq<char>| #[trigger] names(s).contains(k) <==> m.dom().contains(k) by {}
    } else {
        let t = s.drop_last();
        entry_map_dom(t);
        assert forall|k: Seq<char>| #[trigger] names(s).contains(k) <==> m.dom().contains(k) by {
            if names(s).contains(k) {
                let i = names(s).index_of(k);
                if i < t.len() {
                    assert(names(t)[i] == k);
                    assert(names(t).contains(k));
                }
            }
            if m.dom().contains(k) {
                if k == s.last().0@ {
                    assert(names(s)[s.len() - 1] == k);
                } else {
                    assert(names(t).contains(k));
                    let i = names(t).index_of(k);
                    assert(names(s)[i] == k);
                }
            }
        }
    }
}

/// A member of pairwise differently named members is found in their map.
proof fn entry_map_at(s: Seq<(String, Json)>, i: int)
    requires
        0 <= i < s.len(),
        ascending(names(s)),
    ensures
        entry_map(s).dom().contains(s[i].0@),
        entry_map(s)[s[i].0@] == tree(s[i].1),
    decreases s.len(),
{
    let t = s.drop_last();
    if i < t.len() {
        assert(names(t) =~= names(s).drop_last());
        assert forall|x: int, y: int| 0 <= x < y < names(t).len() implies text::before(
            #[trigger] names(t)[x],
            #[trigger] names(t)[y],
        ) by {
            assert(text::before(names(s)[x], names(s)[y]));
        }
        entry_map_at(t, i);
        assert(text::before(names(s)[i], names(s)[s.len() - 1]));
        text::before_asymmetric(s[i].0@, s.last().0@);
    }
}

/// The names of members in ascending order are the name order of their map.
proof fn names_in_order(s: Seq<(String, Json)>)
    requires
        ascending(names(s)),
    ensures
        names(s) == key_order(entry_map(s)),
{
    entry_map_dom(s);
    let ks = key_order(entry_map(s));
    assert(ascending(names(s)) && lists(names(s), entry_map(s)));
    assert(ascending(ks) && lists(ks, entry_map(s)));
    assert forall|k: Seq<char>| #[trigger] names(s).contains(k) <==> ks.contains(k) by {
        assert(ks.contains(k) <==> entry_map(s).dom().contains(k));
    }
    ascending_unique(names(s), ks);
}

/// Two sequences of members make up the same map when they hold the same
/// names with the same contents.
proof fn same_map(s: Seq<(String, Json)>, m: Map<Seq<char>, Tree>)
    requires
        ascending(names(s)),
        forall|k: Seq<char>| #[trigger] m.dom().contains(k) ==> names(s).contains(k),
        forall|i: int|
            0 <= i < s.len() ==> m.dom().contains((#[trigger] s[i]).0@) && m[s[i].0@] == tree(s[i].1),
    ensures
        entry_map(s) == m,
{
    entry_map_dom(s);
    assert forall|k: Seq<char>| entry_map(s).dom().contains(k) <==> m.dom().contains(k) by {
        assert(names(s).contains(k) <==> entry_map(s).dom().contains(k));
        if names(s).contains(k) {
            let i = names(s).index_of(k);
            assert(m.dom().contains(s[i].0@));
        }
    }
    assert forall|k: Seq<char>| #[trigger] entry_map(s).dom().contains(k) implies entry_map(s)[k] == m[k] by {
        assert(names(s).contains(k));
        let i = names(s).index_of(k);
        entry_map_at(s, i);
        assert(m.dom().contains(s[i].0@));
    }
    assert(entry_map(s) =~= m);
}

impl Object {
    #[verifier::type_invariant]
    spec fn sorted(self) -> bool {
        ascending(names(self.entries@))
    }

    /// An object without members.
    pub fn new() -> (r: Object)
        ensures
            r@ == Map::<Seq<char>, Tree>::empty(),
    {
        Object { entries: Vec::new() }
    }

    /// How many members there are.
    pub fn len(&self) -> (r: usize)
        ensures
            r == key_order(self@).len(),
    {
        proof {
            use_type_invariant(self);
            names_in_order(self.entries@);
        }
        self.entries.len()
    }

    /// The name of the member at `i`, in name order.
    pub fn key_at(&self, i: usize) -> (r: &str)
        requires
            i < key_order(self@).len(),
        ensures
            r@ == key_order(self@)[i as int],
    {
        proof {
            use_type_invariant(self);
            names_in_order(self.entries@);
        }
        assert(names(self.entries@)[i as int] == self.entries@[i as int].0@);
        self.entries[i].0.as_str()
    }

    /// The value of the member at `i`, in name order.
    pub fn value_at(&self, i: usize) -> (r: &Json)
        requires
            i < key_order(self@).len(),
        ensures
            self@.dom().contains(key_order(self@)[i as int]),
            r@ == self@[key_order(self@)[i as int]],
    {
        proof {
            use_type_invariant(self);
            names_in_order(self.entries@);
            entry_map_at(self.entries@, i as int);
        }
        assert(names(self.entries@)[i as int] == self.entries@[i as int].0@);
        &self.entries[i].1
    }

    /// Where `key` stands or would stand.
    fn slot(&self, key: &str) -> (r: usize)
        ensures
            r <= self.entries@.len(),
            forall|j: int| 0 <= j < r ==> text::before(#[trigger] names(self.entries@)[j], key@),
            r < self.entries@.len() ==> !text::before(names(self.entries@)[r as int], key@),
    {
        let mut i: usize = 0;
        while i < self.entries.len() && text::precedes(self.entries[i].0.as_str(), key)
            invariant
                i <= self.entries@.len(),
                forall|j: int| 0 <= j < i ==> text::before(#[trigger] names(self.entries@)[j], key@),
            decreases self.entries@.len() - i,
        {
            i = i + 1;
        }
        i
    }

    /// The names from the slot of `key` on, past `key` itself, follow it.
    proof fn slot_rest(s: Seq<(String, Json)>, r: int, key: Seq<char>)
        requires
            ascending(names(s)),
            0 <= r <= s.len(),
            forall|j: int| 0 <= j < r ==> text::before(#[trigger] names(s)[j], key),
            r < s.len() ==> !text::before(names(s)[r], key),
        ensures
            forall|j: int| r < j < s.len() ==> text::before(key, #[trigger] names(s)[j]),
            r < s.len() && names(s)[r] != key ==> text::before(key, names(s)[r]),
            names(s).contains(key) <==> r < s.len() && names(s)[r] == key,
    {
        if r < s.len() {
            text::before_total(names(s)[r], key);
            assert forall|j: int| r < j < s.len() implies text::before(key, #[trigger] names(s)[j]) by {
                assert(text::before(names(s)[r], names(s)[j]));
                if names(s)[r] != key {
                    text::before_transitive(key, names(s)[r], names(s)[j]);
                }
            }
        }
        if names(s).contains(key) {
            let x = names(s).index_of(key);
            text::before_irreflexive(key);
            assert(x >= r);
            if x > r {
                text::before_irreflexive(key);
            }
        }
    }

    /// The member `key`.
    pub fn get(&self, key: &str) -> (r: Option<&Json>)
        ensures
            match r {
                Some(v) => self@.dom().contains(key@) && self@[key@] == v@,
                None => !self@.dom().contains(key@),
            },
    {
        let i = self.slot(key);
        proof {
            use_type_invariant(self);
            Object::slot_rest(self.entries@, i as int, key@);
            entry_map_dom(self.entries@);
            assert(names(self.entries@).contains(key@) <==> self@.dom().contains(key@));
        }
        if i < self.entries.len() && text::same(self.entries[i].0.as_str(), key) {
            proof {
                entry_map_at(self.entries@, i as int);
            }
            Some(&self.entries[i].1)
        } else {
            None
        }
    }

    /// Sets the member `key`.
    pub fn insert(&mut self, key: String, value: Json)
        ensures
            final(self)@ == old(self)@.insert(key@, value@),
    {
        let i = self.slot(key.as_str());
        let ghost before = self.entries@;
        let ghost k = key@;
        proof {
            use_type_invariant(&*self);
            Object::slot_rest(before, i as int, k);
            entry_map_dom(before);
        }
        let mut es: Vec<(String, Json)> = Vec::new();
        std::mem::swap(&mut es, &mut self.entries);
        let ghost m = old(self)@.insert(k, value@);
        if i < es.len() && text::same(es[i].0.as_str(), key.as_str()) {
            es.remove(i);
            assert(es@ =~= before.remove(i as int));
        }
        let ghost rest = es@;
        es.insert(i, (key, value));
        let ghost after = es@;
        proof {
            assert forall|x: int, y: int| 0 <= x < y < after.len() implies text::before(
                #[trigger] names(after)[x],
                #[trigger] names(after)[y],
            ) by {
                let shift: int = before.len() - rest.len();
                let x0 = if x < i { x } else { x - 1 + shift };
                let y0 = if y < i { y } else { y - 1 + shift };
                if x != i {
                    assert(after[x] == before[x0]);
                    assert(names(before)[x0] == names(after)[x]);
                }
                if y != i {
                    assert(after[y] == before[y0]);
                    assert(names(before)[y0] == names(after)[y]);
                }
                if x != i && y != i {
                    assert(text::before(names(before)[x0], names(before)[y0]));
                }
            }
            assert forall|j: int| 0 <= j < after.len() implies m.dom().contains((#[trigger] after[j]).0@)
                && m[after[j].0@] == tree(after[j].1) by {
                assert(names(after)[j] == after[j].0@);
                if j != i {
                    let shift: int = before.len() - rest.len();
                    let j0 = if j < i { j } else { j - 1 + shift };
                    assert(after[j] == before[j0]);
                    entry_map_at(before, j0);
                    assert(names(after)[j] == before[j0].0@);
                    if j < i {
                        assert(text::before(names(after)[j], names(after)[i as int]));
                        text::before_asymmetric(names(after)[j], k);
                    } else {
                        assert(text::before(names(after)[i as int], names(after)[j]));
                        text::before_asymmetric(k, names(after)[j]);
                    }
                } else {
                    assert(names(after)[j] == k);
                }
            }
            assert forall|q: Seq<char>| #[trigger] m.dom().contains(q) implies names(after).contains(q) by {
                if q == k {
                    assert(names(after)[i as int] == q);
                } else {
                    assert(names(before).contains(q));
                    let j0 = names(before).index_of(q);
                    let shift: int = before.len() - rest.len();
                    let j = if j0 < i { j0 } else { j0 + 1 - shift };
                    assert(after[j] == before[j0]);
                    assert(names(after)[j] == q);
                }
            }
            same_map(after, m);
        }
        self.entries = es;
    }

    /// Drops the member `key`, if there is one.
    pub fn remove(&mut self, key: &str)
        ensures
            final(self)@ == old(self)@.remove(key@),
    {
        let i = self.slot(key);
        let ghost before = self.entries@;
        proof {
            use_type_invariant(&*self);
            Object::slot_rest(before, i as int, key@);
            entry_map_dom(before);
            assert(names(before).contains(key@) <==> entry_map(before).dom().contains(key@));
        }
        if i < self.entries.len() && text::same(self.entries[i].0.as_str(), key) {
            let mut es: Vec<(String, Json)> = Vec::new();
            std::mem::swap(&mut es, &mut self.entries);
            es.remove(i);
            let ghost after = es@;
            let ghost m = old(self)@.remove(key@);
            proof {
                assert(after =~= before.remove(i as int));
                assert forall|x: int, y: int| 0 <= x < y < after.len() implies text::before(
                    #[trigger] names(after)[x],
                    #[trigger] names(after)[y],
                ) by {
                    let x0 = if x < i { x } else { x + 1 };
                    let y0 = if y < i { y } else { y + 1 };
                    assert(text::before(names(before)[x0], names(before)[y0]));
                }
                assert forall|j: int| 0 <= j < after.len() implies m.dom().contains(
                    (#[trigger] after[j]).0@,
                ) && m[after[j].0@] == tree(after[j].1) by {
                    assert(names(after)[j] == after[j].0@);
                    let j0 = if j < i { j } else { j + 1 };
                    assert(after[j] == before[j0]);
                    entry_map_at(before, j0);
                    assert(names(after)[j] == names(before)[j0]);
                    if j < i {
                        assert(text::before(names(before)[j0], names(before)[i as int]));
                        text::before_asymmetric(names(before)[j0], key@);
                    } else {
                        assert(text::before(names(before)[i as int], names(before)[j0]));
                        text::before_asymmetric(key@, names(before)[j0]);
                    }
                }
                assert forall|q: Seq<char>| #[trigger] m.dom().contains(q) implies names(after).contains(q) by {
                    assert(names(before).contains(q));
                    let j0 = names(before).index_of(q);
                    let j = if j0 < i { j0 } else { j0 - 1 };
                    assert(after[j] == before[j0]);
                    assert(names(after)[j] == q);
                }
                same_map(after, m);
            }
            self.entries = es;
        } else {
            assert(self@ =~= old(self)@.remove(key@));
        }
    }
}

/// The number of distinct names is finite.
proof fn entry_map_finite(s: Seq<(String, Json)>)
    ensures
        entry_map(s).dom().finite(),
    decreases s.len(),
{
    if s.len() > 0 {
        entry_map_finite(s.drop_last());
    }
}

impl Clone for Num {
    fn clone(&self) -> (r: Num)
        ensures
            r == *self,
    {
        match self {
            Num::PosInt(u) => Num::PosInt(*u),
            Num::NegInt(i) => Num::NegInt(*i),
            Num::Float(f) => Num::Float(f.clone()),
        }
    }
}

impl Clone for Object {
    fn clone(&self) -> (r: Object)
        ensures
            r@ == self@,
        decreases self,
    {
        let mut out: Vec<(String, Json)> = Vec::new();
        let mut i: usize = 0;
        while i < self.entries.len()
            invariant
                i <= self.entries@.len(),
                out@.len() == i,
                forall|j: int|
                    0 <= j < i ==> (#[trigger] out@[j]).0@ == self.entries@[j].0@ && tree(out@[j].1) == tree(
                        self.entries@[j].1,
                    ),
            decreases self.entries@.len() - i,
        {
            proof {
                vstd::std_specs::vec::axiom_vec_index_decreases(self.entries, i as int);
            }
            let k = self.entries[i].0.clone();
            let v = self.entries[i].1.clone();
            out.push((k, v));
            i = i + 1;
        }
        proof {
            use_type_invariant(self);
            assert(names(out@) =~= names(self.entries@));
            entry_map_same(out@, self.entries@);
        }
        Object { entries: out }
    }
}

/// Members with the same names and contents make up the same map.
proof fn entry_map_same(a: Seq<(String, Json)>, b: Seq<(String, Json)>)
    requires
        a.len() == b.len(),
        forall|j: int|
            0 <= j < a.len() ==> (#[trigger] a[j]).0@ == b[j].0@ && tree(a[j].1) == tree(b[j].1),
    ensures
        entry_map(a) == entry_map(b),
    decreases a.len(),
{
    if a.len() > 0 {
        let n = a.len() - 1;
        assert(a[n].0@ == b[n].0@);
        assert forall|j: int| 0 <= j < n implies (#[trigger] a.drop_last()[j]).0@ == b.drop_last()[j].0@ && tree(
            a.drop_last()[j].1,
        ) == tree(b.drop_last()[j].1) by {
            assert(a[j].0@ == b[j].0@);
        }
        entry_map_same(a.drop_last(), b.drop_last());
    }
}

impl Clone for Json {
    fn clone(&self) -> (r: Json)
        ensures
            r@ == self@,
        decreases self,
    {
        match self {
            Json::Null => Json::Null,
            Json::Bool(b) => Json::Bool(*b),
            Json::Num(n) => Json::Num(n.clone()),
            Json::Str(s) => Json::Str(s.clone()),
            Json::Obj(o) => Json::Obj(o.clone()),
            Json::Arr(a) => {
                let mut out: Vec<Json> = Vec::new();
                let mut i: usize = 0;
                while i < a.len()
                    invariant
                        *self is Arr && self->Arr_0 == *a,
                        i <= a@.len(),
                        out@.len() == i,
                        forall|j: int| 0 <= j < i ==> tree(#[trigger] out@[j]) == tree(a@[j]),
                    decreases a@.len() - i,
                {
                    assert(decreases_to!(*self => self->Arr_0));
                    out.push(a[i].clone());
                    i = i + 1;
                }
                assert(trees(out@) =~= trees(a@));
                Json::Arr(out)
            },
        }
    }
}

/// The text of a string; nothing of any other value.
pub open spec fn str_of(t: Tree) -> Option<Seq<char>> {
    match t {
        Tree::Str(s) => Some(s),
        _ => None,
    }
}

/// The items of an array; nothing of any other value.
pub open spec fn arr_of(t: Tree) -> Option<Seq<Tree>> {
    match t {
        Tree::Arr(s) => Some(s),
        _ => None,
    }
}

/// The members of an object; nothing of any other value.
pub open spec fn obj_of(t: Tree) -> Option<Map<Seq<char>, Tree>> {
    match t {
        Tree::Obj(m) => Some(m),
        _ => None,
    }
}

/// The number, where it is one of `u64`.
pub open spec fn u64_of(t: Tree) -> Option<u64> {
    match t {
        Tree::Int(i) => if 0 <= i <= u64::MAX {
            Some(i as u64)
        } else {
            None
        },
        _ => None,
    }
}

/// The truth value; nothing of any other value.
pub open spec fn bool_of(t: Tree) -> Option<bool> {
    match t {
        Tree::Bool(b) => Some(b),
        _ => None,
    }
}

/// The text of the member `key`, where it is a string.
pub open spec fn get_str(t: Tree, key: Seq<char>) -> Option<Seq<char>> {
    match lookup(t, key) {
        Some(v) => str_of(v),
        None => None,
    }
}

/// The items of the member `key`, where it is an array.
pub open spec fn get_arr(t: Tree, key: Seq<char>) -> Option<Seq<Tree>> {
    match lookup(t, key) {
        Some(v) => arr_of(v),
        None => None,
    }
}

impl Json {
    /// The text of a string.
    pub fn as_str(&self) -> (r: Option<&str>)
        ensures
            match r {
                Some(s) => str_of(self@) == Some(s@),
                None => str_of(self@) is None,
            },
    {
        match self {
            Json::Str(s) => Some(s.as_str()),
            _ => None,
        }
    }

    /// The items of an array.
    pub fn as_array(&self) -> (r: Option<&Vec<Json>>)
        ensures
            match r {
                Some(a) => arr_of(self@) == Some(trees(a@)),
                None => arr_of(self@) is None,
            },
    {
        match self {
            Json::Arr(a) => Some(a),
            _ => None,
        }
    }

    /// The members of an object.
    pub fn as_object(&self) -> (r: Option<&Object>)
        ensures
            match r {
                Some(o) => obj_of(self@) == Some(o@),
                None => obj_of(self@) is None,
            },
    {
        match self {
            Json::Obj(o) => Some(o),
            _ => None,
        }
    }

    /// The number, where it is one of `u64`.
    pub fn as_u64(&self) -> (r: Option<u64>)
        ensures
            r == u64_of(self@),
    {
        match self {
            Json::Num(Num::PosInt(u)) => Some(*u),
            Json::Num(Num::NegInt(i)) => if *i >= 0 {
                Some(*i as u64)
            } else {
                None
            },
            Json::Num(Num::Float(f)) => f.as_u64(),
            _ => None,
        }
    }

    /// The truth value.
    pub fn as_bool(&self) -> (r: Option<bool>)
        ensures
            r == bool_of(self@),
    {
        match self {
            Json::Bool(b) => Some(*b),
            _ => None,
        }
    }

    /// Whether this is `null`.
    pub fn is_null(&self) -> (r: bool)
        ensures
            r == (self@ == Tree::Null),
    {
        match self {
            Json::Null => true,
            _ => false,
        }
    }

    /// The member `key` of an object.
    pub fn get(&self, key: &str) -> (r: Option<&Json>)
        ensures
            match r {
                Some(v) => lookup(self@, key@) == Some(v@),
                None => lookup(self@, key@) is None,
            },
    {
        match self {
            Json::Obj(o) => o.get(key),
            _ => None,
        }
    }

    /// The text of the member `key`, where it is a string.
    pub fn get_str(&self, key: &str) -> (r: Option<&str>)
        ensures
            match r {
                Some(s) => get_str(self@, key@) == Some(s@),
                None => get_str(self@, key@) is None,
            },
    {
        match self.get(key) {
            Some(v) => v.as_str(),
            None => None,
        }
    }

    /// The items of the member `key`, where it is an array.
    pub fn get_arr(&self, key: &str) -> (r: Option<&Vec<Json>>)
        ensures
            match r {
                Some(a) => get_arr(self@, key@) == Some(trees(a@)),
                None => get_arr(self@, key@) is None,
            },
    {
        match self.get(key) {
            Some(v) => v.as_array(),
            None => None,
        }
    }

    /// A string.
    pub fn str(s: &str) -> (r: Json)
        ensures
            r@ == Tree::Str(s@),
    {
        Json::Str(s.to_owned())
    }

    /// A number.
    pub fn uint(n: u64) -> (r: Json)
        ensures
            r@ == Tree::Int(n as int),
    {
        Json::Num(Num::PosInt(n))
    }
}

/// `m` with the member `key`, if there is a value for it.
pub open spec fn put_opt(
    m: Map<Seq<char>, Tree>,
    key: Seq<char>,
    v: Option<Tree>,
) -> Map<Seq<char>, Tree> {
    match v {
        Some(t) => m.insert(key, t),
        None => m,
    }
}

/// A member looked up after another one was set.
pub broadcast proof fn member_insert(m: Map<Seq<char>, Tree>, key: Seq<char>, t: Tree, q: Seq<char>)
    ensures
        #[trigger] member(m.insert(key, t), q) == if q == key {
            Some(t)
        } else {
            member(m, q)
        },
{
}

/// A member looked up after another one was perhaps set.
pub broadcast proof fn member_put_opt(
    m: Map<Seq<char>, Tree>,
    key: Seq<char>,
    v: Option<Tree>,
    q: Seq<char>,
)
    ensures
        #[trigger] member(put_opt(m, key, v), q) == if q == key && v is Some {
            v
        } else {
            member(m, q)
        },
{
}

/// No member is found in an empty object.
pub broadcast proof fn member_empty(q: Seq<char>)
    ensures
        #[trigger] member(Map::<Seq<char>, Tree>::empty(), q) == None::<Tree>,
{
}

/// Looking up members.
pub broadcast group group_members {
    member_insert,
    member_put_opt,
    member_empty,
}

/// A text as a JSON string.
pub open spec fn opt_str(s: Option<Seq<char>>) -> Option<Tree> {
    match s {
        Some(x) => Some(Tree::Str(x)),
        None => None,
    }
}

impl Object {
    /// Sets the member `key`.
    pub fn put(&mut self, key: &str, value: Json)
        ensures
            final(self)@ == old(self)@.insert(key@, value@),
    {
        self.insert(key.to_owned(), value);
    }

    /// Sets the member `key` to a text.
    pub fn put_str(&mut self, key: &str, value: &str)
        ensures
            final(self)@ == old(self)@.insert(key@, Tree::Str(value@)),
    {
        self.insert(key.to_owned(), Json::str(value));
    }

    /// Sets the member `key` to a text, if there is one.
    pub fn put_opt_str(&mut self, key: &str, value: &Option<String>)
        ensures
            final(self)@ == put_opt(old(self)@, key@, opt_str(text::opt_view(*value))),
    {
        if let Some(s) = value {
            self.insert(key.to_owned(), Json::str(s.as_str()));
        }
    }

    /// Sets the member `key` to a number.
    pub fn put_uint(&mut self, key: &str, value: u64)
        ensures
            final(self)@ == old(self)@.insert(key@, Tree::Int(value as int)),
    {
        self.insert(key.to_owned(), Json::uint(value));
    }

    /// Sets the member `key` to a truth value.
    pub fn put_bool(&mut self, key: &str, value: bool)
        ensures
            final(self)@ == old(self)@.insert(key@, Tree::Bool(value)),
    {
        self.insert(key.to_owned(), Json::Bool(value));
    }

    /// The text of the member `key`, where it is a string.
    pub fn get_str(&self, key: &str) -> (r: Option<&str>)
        ensures
            match r {
                Some(s) => get_str(Tree::Obj(self@), key@) == Some(s@),
                None => get_str(Tree::Obj(self@), key@) is None,
            },
    {
        match self.get(key) {
            Some(v) => v.as_str(),
            None => None,
        }
    }
}

/// The texts as JSON strings.
pub open spec fn str_trees(s: Seq<Seq<char>>) -> Seq<Tree> {
    s.map_values(|x: Seq<char>| Tree::Str(x))
}

/// An array of texts.
pub fn str_array(v: &Vec<String>) -> (r: Json)
    ensures
        r@ == Tree::Arr(str_trees(text::views(v@))),
{
    let mut out: Vec<Json> = Vec::new();
    let mut i: usize = 0;
    while i < v.len()
        invariant
            i <= v@.len(),
            out@.len() == i,
            forall|j: int| 0 <= j < i ==> tree(#[trigger] out@[j]) == Tree::Str(v@[j]@),
        decreases v@.len() - i,
    {
        out.push(Json::str(v[i].as_str()));
        i = i + 1;
    }
    assert(trees(out@) =~= str_trees(text::views(v@)));
    Json::Arr(out)
}

/// Whether the notation of a float is that of a zero, of either sign.
pub open spec fn zero_notation(s: Seq<char>) -> bool {
    s == "0.0"@ || s == "-0.0"@
}

/// Whether two values are equal as JSON values: floats by what they stand
/// for, so that the two zeros are one value, and all else by content.
pub open spec fn same_value(a: Tree, b: Tree) -> bool
    decreases a,
{
    match (a, b) {
        (Tree::Float(x), Tree::Float(y)) => x == y || (zero_notation(x) && zero_notation(y)),
        (Tree::Arr(x), Tree::Arr(y)) => x.len() == y.len() && forall|i: int|
            0 <= i < x.len() ==> same_value(#[trigger] x[i], y[i]),
        (Tree::Obj(x), Tree::Obj(y)) => x.dom() == y.dom() && forall|k: Seq<char>| #[trigger]
            x.dom().contains(k) ==> same_value(x[k], y[k]),
        _ => a == b,
    }
}

/// Equal contents are equal values.
pub proof fn same_value_of_itself(a: Tree)
    ensures
        same_value(a, a),
    decreases a,
{
    match a {
        Tree::Arr(x) => {
            assert forall|i: int| 0 <= i < x.len() implies same_value(#[trigger] x[i], x[i]) by {
                same_value_of_itself(x[i]);
            }
        },
        Tree::Obj(x) => {
            assert forall|k: Seq<char>| #[trigger] x.dom().contains(k) implies same_value(x[k], x[k]) by {
                same_value_of_itself(x[k]);
            }
        },
        _ => {},
    }
}

/// Whether two values are equal as JSON values.
pub fn same_json(a: &Json, b: &Json) -> (r: bool)
    ensures
        r == same_value(a@, b@),
    decreases a,
{
    match (a, b) {
        (Json::Null, Json::Null) => true,
        (Json::Bool(x), Json::Bool(y)) => *x == *y,
        (Json::Str(x), Json::Str(y)) => text::same(x.as_str(), y.as_str()),
        (Json::Num(x), Json::Num(y)) => {
            assert(a@ == num(*x) && b@ == num(*y));
            same_num(x, y)
        },
        (Json::Obj(x), Json::Obj(y)) => {
            assert(decreases_to!(*a => a->Obj_0));
            assert(a@ == Tree::Obj(x@) && b@ == Tree::Obj(y@));
            same_object(x, y)
        },
        (Json::Arr(x), Json::Arr(y)) => {
            if x.len() != y.len() {
                assert(trees(x@).len() != trees(y@).len());
                return false;
            }
            let mut i: usize = 0;
            while i < x.len()
                invariant
                    *a is Arr && a->Arr_0 == *x,
                    *b is Arr && b->Arr_0 == *y,
                    x@.len() == y@.len(),
                    i <= x@.len(),
                    forall|j: int|
                        0 <= j < i ==> same_value(#[trigger] trees(x@)[j], trees(y@)[j]),
                decreases x@.len() - i,
            {
                assert(decreases_to!(*a => a->Arr_0));
                assert(trees(x@)[i as int] == x@[i as int]@ && trees(y@)[i as int] == y@[i as int]@);
                if !same_json(&x[i], &y[i]) {
                    return false;
                }
                i = i + 1;
            }
            assert(a@ == Tree::Arr(trees(x@)) && b@ == Tree::Arr(trees(y@)));
            assert(same_value(Tree::Arr(trees(x@)), Tree::Arr(trees(y@))));
            true
        },
        _ => false,
    }
}

/// Whether `s` is the notation of a zero.
fn is_zero(s: &str) -> (r: bool)
    ensures
        r == zero_notation(s@),
{
    text::same(s, "0.0") || text::same(s, "-0.0")
}

/// Whether two numbers are equal.
fn same_num(a: &Num, b: &Num) -> (r: bool)
    ensures
        r == same_value(num(*a), num(*b)),
{
    let (x, y) = (whole(a), whole(b));
    match (x, y) {
        (Some(i), Some(j)) => i == j,
        (None, None) => match (a, b) {
            (Num::Float(f), Num::Float(g)) => {
                let s = bridge::number_notation(f);
                let t = bridge::number_notation(g);
                text::same(s.as_str(), t.as_str()) || (is_zero(s.as_str()) && is_zero(t.as_str()))
            },
            _ => false,
        },
        _ => false,
    }
}

/// The integer that a number is, if it is one.
fn whole(a: &Num) -> (r: Option<i128>)
    ensures
        match r {
            Some(i) => num(*a) == Tree::Int(i as int),
            None => num(*a) is Float && *a is Float,
        },
{
    match a {
        Num::PosInt(u) => Some(*u as i128),
        Num::NegInt(i) => Some(*i as i128),
        Num::Float(f) => match f.as_u64() {
            Some(u) => Some(u as i128),
            None => match f.as_i64() {
                Some(i) => Some(i as i128),
                None => None,
            },
        },
    }
}

/// Whether two objects are equal.
fn same_object(a: &Object, b: &Object) -> (r: bool)
    ensures
        r == same_value(Tree::Obj(a@), Tree::Obj(b@)),
    decreases a,
{
    proof {
        use_type_invariant(a);
        use_type_invariant(b);
        if a@.dom() == b@.dom() {
            same_names(a.entries@, b.entries@);
        }
    }
    if a.entries.len() != b.entries.len() {
        assert(names(a.entries@).len() != names(b.entries@).len());
        return false;
    }
    let mut i: usize = 0;
    while i < a.entries.len()
        invariant
            a.sorted(),
            b.sorted(),
            a@.dom() == b@.dom() ==> names(a.entries@) == names(b.entries@),
            a.entries@.len() == b.entries@.len(),
            i <= a.entries@.len(),
            forall|j: int|
                0 <= j < i ==> (#[trigger] a.entries@[j]).0@ == b.entries@[j].0@ && same_value(
                    tree(a.entries@[j].1),
                    tree(b.entries@[j].1),
                ),
        decreases a.entries@.len() - i,
    {
        if !text::same(a.entries[i].0.as_str(), b.entries[i].0.as_str()) {
            assert(names(a.entries@)[i as int] != names(b.entries@)[i as int]);
            return false;
        }
        proof {
            vstd::std_specs::vec::axiom_vec_index_decreases(a.entries, i as int);
        }
        if !same_json(&a.entries[i].1, &b.entries[i].1) {
            proof {
                entry_map_at(a.entries@, i as int);
                entry_map_at(b.entries@, i as int);
            }
            return false;
        }
        i = i + 1;
    }
    proof {
        same_entries(a.entries@, b.entries@);
    }
    true
}

/// Members of maps with one domain have the same names.
proof fn same_names(a: Seq<(String, Json)>, b: Seq<(String, Json)>)
    requires
        ascending(names(a)),
        ascending(names(b)),
        entry_map(a).dom() == entry_map(b).dom(),
    ensures
        names(a) == names(b),
{
    entry_map_dom(a);
    entry_map_dom(b);
    assert forall|k: Seq<char>| #[trigger] names(a).contains(k) <==> names(b).contains(k) by {
        assert(names(a).contains(k) <==> entry_map(a).dom().contains(k));
        assert(names(b).contains(k) <==> entry_map(b).dom().contains(k));
    }
    ascending_unique(names(a), names(b));
}

/// Members with the same names and equal values make up equal objects.
proof fn same_entries(a: Seq<(String, Json)>, b: Seq<(String, Json)>)
    requires
        a.len() == b.len(),
        ascending(names(a)),
        ascending(names(b)),
        forall|j: int|
            0 <= j < a.len() ==> (#[trigger] a[j]).0@ == b[j].0@ && same_value(tree(a[j].1), tree(b[j].1)),
    ensures
        same_value(Tree::Obj(entry_map(a)), Tree::Obj(entry_map(b))),
{
    let (x, y) = (entry_map(a), entry_map(b));
    assert forall|j: int| 0 <= j < a.len() implies names(a)[j] == names(b)[j] by {
        assert(a[j].0@ == b[j].0@);
    }
    assert(names(a) =~= names(b));
    entry_map_dom(a);
    entry_map_dom(b);
    assert forall|k: Seq<char>| #[trigger] x.dom().contains(k) <==> y.dom().contains(k) by {
        assert(names(a).contains(k) <==> x.dom().contains(k));
        assert(names(b).contains(k) <==> y.dom().contains(k));
    }
    assert(x.dom() =~= y.dom());
    assert forall|k: Seq<char>| #[trigger] x.dom().contains(k) implies same_value(x[k], y[k]) by {
        assert(names(a).contains(k));
        let j = names(a).index_of(k);
        assert(a[j].0@ == k);
        entry_map_at(a, j);
        entry_map_at(b, j);
    }
}

impl Num {
    /// Whether the number is an integer.
    pub fn is_integer(&self) -> (r: bool)
        ensures
            r == (num(*self) is Int),
    {
        whole(self).is_some()
    }

    /// The number as `serde_json` holds it.
    fn to_number(&self) -> (r: serde_json::Number)
        ensures
            bridge::number_tree(r) == num(*self),
    {
        match self {
            Num::PosInt(u) => bridge::number_of_u64(*u),
            Num::NegInt(i) => bridge::number_of_i64(*i),
            Num::Float(f) => f.clone(),
        }
    }

    /// The number that `serde_json` holds.
    fn from_number(n: serde_json::Number) -> (r: Num)
        ensures
            num(r) == bridge::number_tree(n),
    {
        match n.as_u64() {
            Some(u) => Num::PosInt(u),
            None => match n.as_i64() {
                Some(i) => Num::NegInt(i),
                None => Num::Float(n),
            },
        }
    }
}

impl Json {
    /// The value as `serde_json` holds it.
    pub fn to_value(&self) -> (r: serde_json::Value)
        ensures
            bridge::value_tree(r) == self@,
        decreases self,
    {
        match self {
            Json::Null => bridge::close_value(bridge::Parts::Null),
            Json::Bool(b) => bridge::close_value(bridge::Parts::Bool(*b)),
            Json::Num(n) => bridge::close_value(bridge::Parts::Number(n.to_number())),
            Json::Str(s) => bridge::close_value(bridge::Parts::Text(s.clone())),
            Json::Arr(a) => {
                let mut out: Vec<serde_json::Value> = Vec::new();
                let mut i: usize = 0;
                while i < a.len()
                    invariant
                        *self is Arr && self->Arr_0 == *a,
                        i <= a@.len(),
                        out@.len() == i,
                        forall|j: int| 0 <= j < i ==> bridge::value_tree(#[trigger] out@[j]) == tree(a@[j]),
                    decreases a@.len() - i,
                {
                    assert(decreases_to!(*self => self->Arr_0));
                    out.push(a[i].to_value());
                    i = i + 1;
                }
                let r = bridge::close_value(bridge::Parts::Array(out));
                assert(bridge::value_tree(r)->Arr_0 =~= trees(a@));
                r
            },
            Json::Obj(o) => {
                let mut out: Vec<(String, serde_json::Value)> = Vec::new();
                let mut i: usize = 0;
                proof {
                    use_type_invariant(o);
                }
                while i < o.entries.len()
                    invariant
                        *self is Obj && self->Obj_0 == *o,
                        i <= o.entries@.len(),
                        out@.len() == i,
                        forall|j: int|
                            0 <= j < i ==> (#[trigger] out@[j]).0@ == o.entries@[j].0@ && bridge::value_tree(out@[j].1)
                                == tree(o.entries@[j].1),
                    decreases o.entries@.len() - i,
                {
                    assert(decreases_to!(*self => self->Obj_0));
                    proof {
                        vstd::std_specs::vec::axiom_vec_index_decreases(o.entries, i as int);
                    }
                    let k = o.entries[i].0.clone();
                    let v = o.entries[i].1.to_value();
                    out.push((k, v));
                    i = i + 1;
                }
                let ghost es = out@;
                proof {
                    assert forall|x: int, y: int| 0 <= x < y < es.len() implies text::before(
                        (#[trigger] es[x]).0@,
                        (#[trigger] es[y]).0@,
                    ) by {
                        assert(text::before(names(o.entries@)[x], names(o.entries@)[y]));
                    }
                }
                let r = bridge::close_value(bridge::Parts::Object(out));
                proof {
                    let m = bridge::value_tree(r)->Obj_0;
                    assert forall|k: Seq<char>| #[trigger] m.dom().contains(k) implies names(
                        o.entries@,
                    ).contains(k) by {
                        let x = choose|x: int| 0 <= x < es.len() && (#[trigger] es[x]).0@ == k;
                        assert(names(o.entries@)[x] == k);
                    }
                    assert forall|x: int| 0 <= x < o.entries@.len() implies m.dom().contains(
                        (#[trigger] o.entries@[x]).0@,
                    ) && m[o.entries@[x].0@] == tree(o.entries@[x].1) by {
                        assert(es[x].0@ == o.entries@[x].0@);
                    }
                    same_map(o.entries@, m);
                }
                r
            },
        }
    }

    /// The value that `serde_json` holds.
    pub fn from_value(v: serde_json::Value) -> (r: Json)
        ensures
            r@ == bridge::value_tree(v),
        decreases bridge::value_tree(v),
    {
        let ghost t = bridge::value_tree(v);
        match bridge::open_value(v) {
            bridge::Parts::Null => Json::Null,
            bridge::Parts::Bool(b) => Json::Bool(b),
            bridge::Parts::Number(n) => Json::Num(Num::from_number(n)),
            bridge::Parts::Text(s) => Json::Str(s),
            bridge::Parts::Array(a) => {
                let mut a = a;
                let ghost all = a@;
                let mut back: Vec<Json> = Vec::new();
                while a.len() > 0
                    invariant
                        t == bridge::value_tree(v),
                        t is Arr,
                        t->Arr_0.len() == all.len(),
                        forall|i: int|
                            0 <= i < all.len() ==> #[trigger] t->Arr_0[i] == bridge::value_tree(all[i]),
                        a@.len() + back@.len() == all.len(),
                        a@ == all.take(a@.len() as int),
                        forall|j: int|
                            0 <= j < back@.len() ==> tree(#[trigger] back@[j]) == t->Arr_0[all.len() - 1 - j],
                    decreases a@.len(),
                {
                    let ghost n = a@.len();
                    match a.pop() {
                        Some(x) => {
                            assert(x == all[n - 1]);
                            assert(decreases_to!(t => t->Arr_0));
                            assert(decreases_to!(t->Arr_0 => t->Arr_0[n - 1]));
                            back.push(Json::from_value(x));
                            assert(a@ =~= all.take(n - 1));
                        },
                        None => {},
                    }
                }
                let mut out: Vec<Json> = Vec::new();
                let ghost done = back@;
                while back.len() > 0
                    invariant
                        t is Arr,
                        t->Arr_0.len() == done.len(),
                        back@.len() + out@.len() == done.len(),
                        back@ == done.take(back@.len() as int),
                        forall|j: int|
                            0 <= j < done.len() ==> tree(#[trigger] done[j]) == t->Arr_0[done.len() - 1 - j],
                        forall|j: int| 0 <= j < out@.len() ==> tree(#[trigger] out@[j]) == t->Arr_0[j],
                    decreases back@.len(),
                {
                    let ghost n = back@.len();
                    match back.pop() {
                        Some(x) => {
                            assert(x == done[n - 1]);
                            out.push(x);
                            assert(back@ =~= done.take(n - 1));
                        },
                        None => {},
                    }
                }
                assert(trees(out@) =~= t->Arr_0);
                Json::Arr(out)
            },
            bridge::Parts::Object(es) => {
                let mut es = es;
                let ghost all = es@;
                let ghost m = t->Obj_0;
                let mut out = Object::new();
                let ghost mut got = Map::<Seq<char>, Tree>::empty();
                proof {
                    holds_finite(m, all);
                }
                while es.len() > 0
                    invariant
                        t == bridge::value_tree(v),
                        t is Obj,
                        m == t->Obj_0,
                        m.dom().finite(),
                        bridge::holds_entries(m, all),
                        es@.len() <= all.len(),
                        es@ == all.take(es@.len() as int),
                        forall|k: Seq<char>|
                            #[trigger] out@.dom().contains(k) ==> m.dom().contains(k) && out@[k] == m[k],
                        forall|j: int|
                            es@.len() <= j < all.len() ==> out@.dom().contains((#[trigger] all[j]).0@),
                    decreases es@.len(),
                {
                    let ghost n = es@.len();
                    match es.pop() {
                        Some(e) => {
                            assert(e == all[n - 1]);
                            let (k, x) = e;
                            proof {
                                assert(m.dom().contains(all[n - 1].0@));
                                assert(decreases_to!(t => t->Obj_0));
                                vstd::map::axiom_map_index_decreases_finite(m, k@);
                            }
                            let y = Json::from_value(x);
                            out.insert(k, y);
                            assert(es@ =~= all.take(n - 1));
                        },
                        None => {},
                    }
                }
                assert forall|k: Seq<char>| m.dom().contains(k) implies out@.dom().contains(k) by {
                    let x = choose|x: int| 0 <= x < all.len() && (#[trigger] all[x]).0@ == k;
                    assert(out@.dom().contains(all[x].0@));
                }
                assert(out@ =~= m);
                Json::Obj(out)
            },
        }
    }

    /// Reads a JSON text.
    pub fn parse(s: &str) -> (r: Result<Json, String>)
        ensures
            match r {
                Ok(v) => bridge::json_read(s@) == bridge::denotes(v@),
                Err(e) => bridge::json_read(s@) == bridge::faulty(e@),
            },
    {
        match bridge::read_value(s) {
            Ok(v) => Ok(Json::from_value(v)),
            Err(e) => Err(e),
        }
    }

    /// The compact JSON text, a single line. Read again it gives the same
    /// value, unless that holds a number that is no integer, nests too deep
    /// or has a member of the name by which `serde_json` marks raw JSON.
    pub fn to_text(&self) -> (r: String)
        ensures
            r@ == bridge::json_text(self@),
            bridge::plain(self@, bridge::max_nesting()) ==> bridge::json_read(r@) == bridge::denotes(
                self@,
            ),
            self@ is Obj ==> bridge::braced(r@),
            bridge::one_line(r@),
    {
        bridge::write_value(&self.to_value())
    }
}

/// A map with a listing of its members is finite.
proof fn holds_finite(m: Map<Seq<char>, Tree>, es: Seq<(String, serde_json::Value)>)
    requires
        bridge::holds_entries(m, es),
    ensures
        m.dom().finite(),
{
    let ks = es.map_values(|e: (String, serde_json::Value)| e.0@);
    assert forall|k: Seq<char>| m.dom().contains(k) implies ks.to_set().contains(k) by {
        let x = choose|x: int| 0 <= x < es.len() && (#[trigger] es[x]).0@ == k;
        assert(ks[x] == k);
    }
    vstd::seq_lib::seq_to_set_is_finite(ks);
    vstd::set_lib::lemma_set_subset_finite(ks.to_set(), m.dom());
}

/// Whether every object in a tree is finite.
pub open spec fn sound(t: Tree) -> bool
    decreases t,
{
    match t {
        Tree::Arr(s) => forall|i: int| 0 <= i < s.len() ==> sound(#[trigger] s[i]),
        Tree::Obj(m) => m.dom().finite() && forall|k: Seq<char>| #[trigger]
            m.dom().contains(k) ==> sound(m[k]),
        _ => true,
    }
}

/// The content of every value is sound.
pub proof fn tree_sound(v: Json)
    ensures
        sound(v@),
    decreases v,
{
    match v {
        Json::Arr(a) => {
            assert forall|i: int| 0 <= i < trees(a@).len() implies sound(#[trigger] trees(a@)[i]) by {
                assert(decreases_to!(v => v->Arr_0));
                vstd::std_specs::vec::axiom_vec_index_decreases(a, i);
                tree_sound(a@[i]);
            }
            assert(v@ == Tree::Arr(trees(a@)));
            assert(sound(Tree::Arr(trees(a@))));
        },
        Json::Obj(o) => {
            let es = o.entries@;
            entry_map_finite(es);
            assert forall|k: Seq<char>| #[trigger] entry_map(es).dom().contains(k) implies sound(
                entry_map(es)[k],
            ) by {
                let i = entry_map_from(es, k);
                assert(decreases_to!(v => v->Obj_0));
                vstd::std_specs::vec::axiom_vec_index_decreases(o.entries, i);
                tree_sound(es[i].1);
            }
        },
        _ => {},
    }
}

/// Every member of the map of a sequence of members comes from one of them.
proof fn entry_map_from(s: Seq<(String, Json)>, k: Seq<char>) -> (i: int)
    requires
        entry_map(s).dom().contains(k),
    ensures
        0 <= i < s.len(),
        s[i].0@ == k,
        entry_map(s)[k] == tree(s[i].1),
    decreases s.len(),
{
    if s.last().0@ == k {
        s.len() - 1
    } else {
        entry_map_from(s.drop_last(), k)
    }
}

/// Whether `a` is `b` or a part of it.
pub open spec fn within(a: Tree, b: Tree) -> bool {
    a == b || decreases_to!(b => a)
}

/// A member of an object is a part of it.
pub proof fn member_within(t: Tree, key: Seq<char>, root: Tree)
    requires
        sound(t),
        lookup(t, key) is Some,
        within(t, root),
    ensures
        decreases_to!(t => lookup(t, key)->Some_0),
        decreases_to!(root => lookup(t, key)->Some_0),
        within(lookup(t, key)->Some_0, root),
        sound(lookup(t, key)->Some_0),
{
    let m = t->Obj_0;
    assert(decreases_to!(t => t->Obj_0));
    vstd::map::axiom_map_index_decreases_finite(m, key);
}

/// An item of an array is a part of it.
pub proof fn item_within(t: Tree, i: int, root: Tree)
    requires
        sound(t),
        t is Arr,
        0 <= i < t->Arr_0.len(),
        within(t, root),
    ensures
        decreases_to!(root => t->Arr_0[i]),
        within(t->Arr_0[i], root),
        sound(t->Arr_0[i]),
{
    assert(decreases_to!(t => t->Arr_0));
    assert(decreases_to!(t->Arr_0 => t->Arr_0[i]));
}

} // verus!
