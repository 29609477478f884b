//! The boundary with `serde_json`.
//!
//! `serde_json::Value` and `serde_json::Number` are opaque here. What they
//! hold is named by [`value_tree`], [`number_int`] and [`number_digits`],
//! and every function below states, over those names, what one call into
//! `serde_json` does. Nothing else in the library touches the outside types.

use vstd::prelude::*;
use crate::json::Tree;
use crate::text;

verus! {

/// `serde_json::Value`, opaque.
#[verifier::external_type_specification]
#[verifier::external_body]
pub struct ExValue(serde_json::Value);

/// `serde_json::Number`, opaque.
#[verifier::external_type_specification]
#[verifier::external_body]
pub struct ExNumber(serde_json::Number);

/// What a `serde_json::Value` holds.
pub uninterp spec fn value_tree(v: serde_json::Value) -> Tree;

/// The integer that a `serde_json::Number` holds, if it holds one.
pub uninterp spec fn number_int(n: serde_json::Number) -> Option<int>;

/// The notation of a `serde_json::Number`.
pub uninterp spec fn number_digits(n: serde_json::Number) -> Seq<char>;

/// The compact notation of a JSON value.
pub uninterp spec fn json_text(t: Tree) -> Seq<char>;

/// The value that a JSON text denotes, or the description of its fault.
pub uninterp spec fn json_read(s: Seq<char>) -> Result<Tree, Seq<char>>;

/// Whether the first number is below the second, both taken as doubles.
pub uninterp spec fn double_below(a: Tree, b: Tree) -> bool;

/// The notation of a number taken as a double.
pub uninterp spec fn double_text(a: Tree) -> Seq<char>;

/// What a number holds: its integer, or its notation.
pub open spec fn number_tree(n: serde_json::Number) -> Tree {
    match number_int(n) {
        Some(i) => Tree::Int(i),
        None => Tree::Float(number_digits(n)),
    }
}

/// Whether `m` holds the members `es`, listed in ascending order of name.
pub open spec fn holds_entries(
    m: Map<Seq<char>, Tree>,
    es: Seq<(String, serde_json::Value)>,
) -> bool {
    &&& forall|i: int, j: int|
        0 <= i < j < es.len() ==> text::before((#[trigger] es[i]).0@, (#[trigger] es[j]).0@)
    &&& forall|k: Seq<char>| #[trigger]
        m.dom().contains(k) ==> exists|i: int| 0 <= i < es.len() && (#[trigger] es[i]).0@ == k
    &&& forall|i: int|
        0 <= i < es.len() ==> m.dom().contains((#[trigger] es[i]).0@) && m[es[i].0@] == value_tree(
            es[i].1,
        )
}

/// The member name by which `serde_json` can mark a text of raw JSON. Read
/// as the first name of an object, it may stand for what the text denotes.
pub open spec fn raw_marker() -> Seq<char> {
    "$serde_json::private::RawValue"@
}

/// Whether a value holds no numbers but integers, nests at most `depth` deep
/// and has no member that bears the raw marker's name.
pub open spec fn plain(t: Tree, depth: nat) -> bool
    decreases depth,
{
    match t {
        Tree::Float(_) => false,
        Tree::Arr(s) => depth > 0 && forall|i: int|
            0 <= i < s.len() ==> plain(#[trigger] s[i], (depth - 1) as nat),
        Tree::Obj(m) => depth > 0 && !m.dom().contains(raw_marker()) && forall|k: Seq<char>| #[trigger]
            m.dom().contains(k) ==> plain(m[k], (depth - 1) as nat),
        _ => true,
    }
}

/// How deep `serde_json` reads.
pub open spec fn max_nesting() -> nat {
    127
}

/// A text that denotes `t`.
pub open spec fn denotes(t: Tree) -> Result<Tree, Seq<char>> {
    Ok(t)
}

/// A text with the fault `e`.
pub open spec fn faulty(e: Seq<char>) -> Result<Tree, Seq<char>> {
    Err(e)
}

/// Whether a text stands in braces.
pub open spec fn braced(s: Seq<char>) -> bool {
    s.len() > 0 && s[0] == '{' && s.last() == '}'
}

/// Whether a text holds no line feed.
pub open spec fn one_line(s: Seq<char>) -> bool {
    forall|i: int| 0 <= i < s.len() ==> #[trigger] s[i] != '\n'
}

/// A `serde_json::Value` taken apart.
pub enum Parts {
    Null,
    Bool(bool),
    Number(serde_json::Number),
    Text(String),
    Array(Vec<serde_json::Value>),
    Object(Vec<(String, serde_json::Value)>),
}

/// What the parts hold together.
pub open spec fn parts_hold(p: Parts, t: Tree) -> bool {
    match p {
        Parts::Null => t == Tree::Null,
        Parts::Bool(b) => t == Tree::Bool(b),
        Parts::Number(n) => t == number_tree(n),
        Parts::Text(s) => t == Tree::Str(s@),
        Parts::Array(a) => t matches Tree::Arr(s) && s.len() == a@.len() && forall|i: int|
            0 <= i < s.len() ==> #[trigger] s[i] == value_tree(a@[i]),
        Parts::Object(es) => t matches Tree::Obj(m) && holds_entries(m, es@),
    }
}

/// Tells the variants of `serde_json::Value` apart. The members of a
/// `serde_json::Map` (a `BTreeMap`) come out in ascending order of name.
#[verifier::external_body]
pub(crate) fn open_value(v: serde_json::Value) -> (r: Parts)
    ensures
        parts_hold(r, value_tree(v)),
{
    match v {
        serde_json::Value::Null => Parts::Null,
        serde_json::Value::Bool(b) => Parts::Bool(b),
        serde_json::Value::Number(n) => Parts::Number(n),
        serde_json::Value::String(s) => Parts::Text(s),
        serde_json::Value::Array(a) => Parts::Array(a),
        serde_json::Value::Object(m) => Parts::Object(m.into_iter().collect()),
    }
}

/// Puts a `serde_json::Value` together from its parts. A `serde_json::Map`
/// collected from members with different names holds exactly those.
#[verifier::external_body]
pub(crate) fn close_value(p: Parts) -> (r: serde_json::Value)
    requires
        p matches Parts::Object(es) ==> forall|i: int, j: int|
            0 <= i < j < es@.len() ==> text::before(
                (#[trigger] es@[i]).0@,
                (#[trigger] es@[j]).0@,
            ),
    ensures
        parts_hold(p, value_tree(r)),
{
    match p {
        Parts::Null => serde_json::Value::Null,
        Parts::Bool(b) => serde_json::Value::Bool(b),
        Parts::Number(n) => serde_json::Value::Number(n),
        Parts::Text(s) => serde_json::Value::String(s),
        Parts::Array(a) => serde_json::Value::Array(a),
        Parts::Object(es) => serde_json::Value::Object(es.into_iter().collect()),
    }
}

/// `serde_json::Number::as_u64`: the integer, where it is one of `u64`.
pub assume_specification[ serde_json::Number::as_u64 ](n: &serde_json::Number) -> (r: Option<u64>)
    ensures
        match number_int(*n) {
            Some(i) => if 0 <= i <= u64::MAX {
                r == Some(i as u64)
            } else {
                r is None
            },
            None => r is None,
        },
;

/// `serde_json::Number::as_i64`: the integer, where it is one of `i64`; no
/// number holds an integer beyond `u64` and `i64`.
pub assume_specification[ serde_json::Number::as_i64 ](n: &serde_json::Number) -> (r: Option<i64>)
    ensures
        match number_int(*n) {
            Some(i) => i64::MIN <= i <= u64::MAX && if i <= i64::MAX {
                r == Some(i as i64)
            } else {
                r is None
            },
            None => r is None,
        },
;

/// `serde_json::Number::clone`.
pub assume_specification[ <serde_json::Number as Clone>::clone ](n: &serde_json::Number) -> (r:
    serde_json::Number)
    ensures
        r == *n,
;

/// `serde_json::Number::from`, of a `u64`.
#[verifier::external_body]
pub(crate) fn number_of_u64(u: u64) -> (r: serde_json::Number)
    ensures
        number_int(r) == Some(u as int),
{
    serde_json::Number::from(u)
}

/// `serde_json::Number::from`, of an `i64`.
#[verifier::external_body]
pub(crate) fn number_of_i64(i: i64) -> (r: serde_json::Number)
    ensures
        number_int(r) == Some(i as int),
{
    serde_json::Number::from(i)
}

/// The `Display` notation of a `serde_json::Number`.
#[verifier::external_body]
pub(crate) fn number_notation(n: &serde_json::Number) -> (r: String)
    ensures
        r@ == number_digits(*n),
{
    n.to_string()
}

/// `serde_json::from_str` into a `serde_json::Value`; a fault is described
/// by the `Display` of the error.
#[verifier::external_body]
pub(crate) fn read_value(s: &str) -> (r: Result<serde_json::Value, String>)
    ensures
        match r {
            Ok(v) => json_read(s@) == denotes(value_tree(v)),
            Err(e) => json_read(s@) == faulty(e@),
        },
{
    serde_json::from_str(s).map_err(|e| e.to_string())
}

/// The compact `Display` of a `serde_json::Value`, which is what
/// `serde_json::to_vec` writes too. What it writes of integers, strings,
/// arrays and objects `serde_json` reads back, up to its nesting limit and
/// as long as no object has a member of the name by which `serde_json` marks
/// raw JSON. An object stands in braces, and no text holds a line feed:
/// those of strings are escaped. Nothing is said of what is read back of
/// numbers that are no integers.
#[verifier::external_body]
pub(crate) fn write_value(v: &serde_json::Value) -> (r: String)
    ensures
        r@ == json_text(value_tree(*v)),
        plain(value_tree(*v), max_nesting()) ==> json_read(r@) == denotes(value_tree(*v)),
        value_tree(*v) is Obj ==> braced(r@),
        one_line(r@),
{
    v.to_string()
}

/// Whether two values are integers that a double holds exactly, the first
/// below the second.
pub open spec fn exact_below(a: Tree, b: Tree) -> Option<bool> {
    match (a, b) {
        (Tree::Int(i), Tree::Int(j)) => if -0x20_0000_0000_0000 <= i <= 0x20_0000_0000_0000
            && -0x20_0000_0000_0000 <= j <= 0x20_0000_0000_0000 {
            Some(i < j)
        } else {
            None
        },
        _ => None,
    }
}

/// `serde_json::Value::as_f64` of both, compared. A double holds every
/// integer of up to 53 bits exactly, so those compare as integers.
#[verifier::external_body]
pub(crate) fn value_below(a: &serde_json::Value, b: &serde_json::Value) -> (r: bool)
    ensures
        r == double_below(value_tree(*a), value_tree(*b)),
        exact_below(value_tree(*a), value_tree(*b)) matches Some(x) ==> r == x,
{
    a.as_f64() < b.as_f64()
}

/// The `Display` of what `serde_json::Value::as_f64` gives, empty where it
/// gives nothing.
#[verifier::external_body]
pub(crate) fn value_double_text(a: &serde_json::Value) -> (r: String)
    ensures
        r@ == double_text(value_tree(*a)),
{
    a.as_f64().map(|x| x.to_string()).unwrap_or_default()
}

} // verus!
