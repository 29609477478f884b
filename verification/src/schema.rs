//! Minimal JSON Schema (draft 2020-12 subset) validation.
//!
//! Supported keywords: `type`, `enum`, `const`, `required`, `properties`,
//! `additionalProperties` (boolean), `items`, `minItems`, `minLength`,
//! `minimum`, `pattern`, `if`/`then`, `allOf`, `$ref` (`#/$defs/…` only).
//! Any other keyword is ignored.
//!
//! Errors carry a field path in dotted-with-index notation
//! (`data_points[2].min_capability`), the empty string denoting the
//! document root.

use vstd::prelude::*;
use crate::bridge;
use crate::clock;
use crate::json;
use crate::json::{Json, Num, Object, Tree};
use crate::table;
use crate::text;

verus! {

/// `cardinality` form: `"1"`, `"0..1"`, `"1..n"`, `"2..n"`, …
pub const CARDINALITY_PATTERN: &'static str = "^[0-9]+(\\.\\.([0-9]+|n))?$";

/// ISO 8601 duration form: `P40Y`, `P1Y6M3D`, `P2W`, `PT6H30M`, …
pub const DURATION_PATTERN: &'static str =
    "^P(?!$)([0-9]+Y)?([0-9]+M)?([0-9]+W)?([0-9]+D)?(T(?=[0-9])([0-9]+H)?([0-9]+M)?([0-9]+S)?)?$";

/// How deep references and nesting are followed.
pub const MAX_DEPTH: usize = 32;

/// One schema violation: where (field path) and why.
#[derive(Debug, PartialEq, Eq)]
pub struct SchemaError {
    pub path: String,
    pub message: String,
}

/// The content of a schema violation.
pub struct SchemaErrorView {
    pub path: Seq<char>,
    pub message: Seq<char>,
}

impl View for SchemaError {
    type V = SchemaErrorView;

    open spec fn view(&self) -> SchemaErrorView {
        SchemaErrorView { path: self.path@, message: self.message@ }
    }
}

/// The contents of a sequence of violations.
pub open spec fn error_views(s: Seq<SchemaError>) -> Seq<SchemaErrorView> {
    s.map_values(|e: SchemaError| e@)
}

impl SchemaError {
    /// A violation at `path`.
    pub fn new(path: &str, message: String) -> (r: SchemaError)
        ensures
            r@ == (SchemaErrorView { path: path@, message: message@ }),
    {
        SchemaError { path: path.to_owned(), message }
    }
}

/// One violation.
pub open spec fn one(path: Seq<char>, message: Seq<char>) -> Seq<SchemaErrorView> {
    seq![SchemaErrorView { path, message }]
}

/// No violation.
pub open spec fn none() -> Seq<SchemaErrorView> {
    Seq::empty()
}

/// The violations of several checks, one after the other.
pub open spec fn flat(s: Seq<Seq<SchemaErrorView>>) -> Seq<SchemaErrorView>
    decreases s.len(),
{
    if s.len() == 0 {
        Seq::empty()
    } else {
        flat(s.drop_last()) + s.last()
    }
}

/// One more check adds its violations.
proof fn flat_step(s: Seq<Seq<SchemaErrorView>>, n: int)
    requires
        0 <= n < s.len(),
    ensures
        flat(s.take(n + 1)) == flat(s.take(n)) + s[n],
{
    assert(s.take(n + 1).drop_last() =~= s.take(n));
}

/// The texts among `ts`, in order.
pub open spec fn texts_in(ts: Seq<Tree>) -> Seq<Seq<char>>
    decreases ts.len(),
{
    if ts.len() == 0 {
        Seq::empty()
    } else {
        match ts.last() {
            Tree::Str(s) => texts_in(ts.drop_last()).push(s),
            _ => texts_in(ts.drop_last()),
        }
    }
}

/// The type name of a value.
pub open spec fn kind_name(t: Tree) -> Seq<char> {
    match t {
        Tree::Null => "null"@,
        Tree::Bool(_) => "boolean"@,
        Tree::Int(_) => "integer"@,
        Tree::Float(_) => "number"@,
        Tree::Str(_) => "string"@,
        Tree::Arr(_) => "array"@,
        Tree::Obj(_) => "object"@,
    }
}

/// The types that a schema admits; none when it does not say.
pub open spec fn expected_types(m: Map<Seq<char>, Tree>) -> Seq<Seq<char>> {
    match json::member(m, "type"@) {
        Some(Tree::Str(s)) => seq![s],
        Some(Tree::Arr(a)) => texts_in(a),
        _ => Seq::empty(),
    }
}

/// Whether the type names `want` admit a value: its own is among them, or
/// `number` is and the value is an integer.
pub open spec fn admits(want: Seq<Seq<char>>, doc: Tree) -> bool {
    want.contains(kind_name(doc)) || (doc is Int && want.contains("number"@))
}

/// Violations of `type`.
pub open spec fn type_errors(m: Map<Seq<char>, Tree>, doc: Tree, path: Seq<char>) -> Seq<
    SchemaErrorView,
> {
    let want = expected_types(m);
    if want.len() == 0 || admits(want, doc) {
        none()
    } else {
        one(path, "expected "@ + text::joined(want, " | "@) + " but found "@ + kind_name(doc))
    }
}

/// The notations of values.
pub open spec fn notations(ts: Seq<Tree>) -> Seq<Seq<char>> {
    ts.map_values(|t: Tree| bridge::json_text(t))
}

/// Whether one of `list` equals a value.
pub open spec fn holds_value(list: Seq<Tree>, doc: Tree) -> bool {
    exists|i: int| 0 <= i < list.len() && json::same_value(#[trigger] list[i], doc)
}

/// Violations of `enum`.
pub open spec fn enum_errors(m: Map<Seq<char>, Tree>, doc: Tree, path: Seq<char>) -> Seq<
    SchemaErrorView,
> {
    match json::member(m, "enum"@) {
        Some(Tree::Arr(list)) => if holds_value(list, doc) {
            none()
        } else {
            one(
                path,
                "value "@ + bridge::json_text(doc) + " is not one of "@ + text::joined(
                    notations(list),
                    ", "@,
                ),
            )
        },
        _ => none(),
    }
}

/// Violations of `const`.
pub open spec fn const_errors(m: Map<Seq<char>, Tree>, doc: Tree, path: Seq<char>) -> Seq<
    SchemaErrorView,
> {
    match json::member(m, "const"@) {
        Some(c) => if json::same_value(c, doc) {
            none()
        } else {
            one(
                path,
                "value "@ + bridge::json_text(doc) + " is not the constant "@ + bridge::json_text(c),
            )
        },
        None => none(),
    }
}

/// The properties that a schema requires.
pub open spec fn required_names(m: Map<Seq<char>, Tree>) -> Seq<Seq<char>> {
    match json::member(m, "required"@) {
        Some(Tree::Arr(a)) => texts_in(a),
        _ => Seq::empty(),
    }
}

/// Violations of `required`.
pub open spec fn required_errors(
    m: Map<Seq<char>, Tree>,
    f: Map<Seq<char>, Tree>,
    path: Seq<char>,
) -> Seq<SchemaErrorView> {
    let names = required_names(m);
    flat(
        Seq::new(
            names.len(),
            |i: int|
                if f.dom().contains(names[i]) {
                    none()
                } else {
                    one(path, "required property `"@ + names[i] + "` is missing"@)
                },
        ),
    )
}

/// The property schemas of a schema.
pub open spec fn properties(m: Map<Seq<char>, Tree>) -> Option<Map<Seq<char>, Tree>> {
    match json::member(m, "properties"@) {
        Some(Tree::Obj(p)) => Some(p),
        _ => None,
    }
}

/// Violations of `additionalProperties: false`.
pub open spec fn extra_errors(
    m: Map<Seq<char>, Tree>,
    f: Map<Seq<char>, Tree>,
    path: Seq<char>,
) -> Seq<SchemaErrorView> {
    if json::member(m, "additionalProperties"@) == Some(Tree::Bool(false)) {
        match properties(m) {
            Some(p) => {
                let names = json::key_order(f);
                flat(
                    Seq::new(
                        names.len(),
                        |i: int|
                            if p.dom().contains(names[i]) {
                                none()
                            } else {
                                one(path, "property `"@ + names[i] + "` is not allowed here"@)
                            },
                    ),
                )
            },
            None => none(),
        }
    } else {
        none()
    }
}

/// Violations of `minItems`.
pub open spec fn min_items_errors(m: Map<Seq<char>, Tree>, len: nat, path: Seq<char>) -> Seq<
    SchemaErrorView,
> {
    match json::member(m, "minItems"@) {
        Some(t) => match json::u64_of(t) {
            Some(min) => if len < min {
                one(
                    path,
                    "array has "@ + text::decimal(len) + " items, fewer than "@ + text::decimal(
                        min as nat,
                    ),
                )
            } else {
                none()
            },
            None => none(),
        },
        None => none(),
    }
}

/// Violations of `minLength`.
pub open spec fn min_length_errors(m: Map<Seq<char>, Tree>, s: Seq<char>, path: Seq<char>) -> Seq<
    SchemaErrorView,
> {
    match json::member(m, "minLength"@) {
        Some(t) => match json::u64_of(t) {
            Some(min) => if s.len() < min {
                one(path, "string is shorter than "@ + text::decimal(min as nat) + " characters"@)
            } else {
                none()
            },
            None => none(),
        },
        None => none(),
    }
}

/// Whether `s` is one or more digits.
pub open spec fn digits(s: Seq<char>) -> bool {
    s.len() > 0 && text::all_digits(s)
}

/// Whether `s` is a cardinality: a number, or two numbers with two dots
/// between them, the second perhaps `n`.
pub open spec fn cardinality(s: Seq<char>) -> bool {
    digits(s) || exists|i: int|
        0 <= i && i + 2 <= s.len() && #[trigger] s[i] == '.' && s[i + 1] == '.' && digits(s.take(i)) && (
        s.skip(i + 2) == "n"@ || digits(s.skip(i + 2)))
}

/// Whether `s` matches one of the two patterns known here; any other
/// pattern admits everything.
pub open spec fn matches_pattern(p: Seq<char>, s: Seq<char>) -> bool {
    if p == CARDINALITY_PATTERN@ {
        cardinality(s)
    } else if p == DURATION_PATTERN@ {
        clock::parsed_duration(s) is Ok
    } else {
        true
    }
}

/// Violations of `pattern`.
pub open spec fn pattern_errors(m: Map<Seq<char>, Tree>, s: Seq<char>, path: Seq<char>) -> Seq<
    SchemaErrorView,
> {
    match json::member(m, "pattern"@) {
        Some(Tree::Str(p)) => if matches_pattern(p, s) {
            none()
        } else {
            one(path, "string `"@ + s + "` does not match the required pattern"@)
        },
        _ => none(),
    }
}

/// Whether a value is a number.
pub open spec fn is_number(t: Tree) -> bool {
    t is Int || t is Float
}

/// Violations of `minimum`.
pub open spec fn minimum_errors(m: Map<Seq<char>, Tree>, doc: Tree, path: Seq<char>) -> Seq<
    SchemaErrorView,
> {
    match json::member(m, "minimum"@) {
        Some(min) => if is_number(doc) && is_number(min) && bridge::double_below(doc, min) {
            one(
                path,
                "value "@ + bridge::double_text(doc) + " is below the minimum "@ + bridge::double_text(
                    min,
                ),
            )
        } else {
            none()
        },
        None => none(),
    }
}

/// Violations of the keywords on texts and numbers.
pub open spec fn scalar_errors(m: Map<Seq<char>, Tree>, doc: Tree, path: Seq<char>) -> Seq<
    SchemaErrorView,
> {
    match doc {
        Tree::Str(s) => min_length_errors(m, s, path) + pattern_errors(m, s, path),
        _ => minimum_errors(m, doc, path),
    }
}

/// The path of a property.
pub open spec fn child(parent: Seq<char>, key: Seq<char>) -> Seq<char> {
    if parent.len() == 0 {
        key
    } else {
        parent + "."@ + key
    }
}

/// The path of an item.
pub open spec fn element(parent: Seq<char>, i: nat) -> Seq<char> {
    parent + "["@ + text::decimal(i) + "]"@
}

/// The definition that a schema refers to.
pub open spec fn ref_target(schema: Tree, root: Tree) -> Option<Tree> {
    match json::get_str(schema, "$ref"@) {
        Some(r) => match text::after(r, "#/$defs/"@) {
            Some(name) => match json::lookup(root, "$defs"@) {
                Some(defs) => json::lookup(defs, name),
                None => None,
            },
            None => None,
        },
        None => None,
    }
}

/// The schemas of `allOf`.
pub open spec fn all_of(m: Map<Seq<char>, Tree>) -> Seq<Tree> {
    match json::member(m, "allOf"@) {
        Some(Tree::Arr(a)) => a,
        _ => Seq::empty(),
    }
}

/// The violations of `schema` by `doc`, in the order they are found.
/// References are looked up in `root`; nothing is followed deeper than
/// [`MAX_DEPTH`].
pub open spec fn errors_at(schema: Tree, doc: Tree, path: Seq<char>, root: Tree, depth: nat) -> Seq<
    SchemaErrorView,
>
    decreases root, 33 - depth, 0int,
    when json::sound(root) && json::sound(schema) && json::within(schema, root)
    via errors_at_terminates
{
    if depth > MAX_DEPTH {
        one(path, "schema nesting too deep"@)
    } else {
        let referred = match ref_target(schema, root) {
            Some(t) => errors_at(t, doc, path, root, depth + 1),
            None => none(),
        };
        match schema {
            Tree::Obj(m) => {
                let inner = match doc {
                    Tree::Obj(f) => required_errors(m, f, path) + (match properties(m) {
                        Some(p) => property_errors(
                            p,
                            f,
                            path,
                            root,
                            depth + 1,
                            json::key_order(p).len() as int,
                        ),
                        None => none(),
                    }) + extra_errors(m, f, path),
                    Tree::Arr(a) => min_items_errors(m, a.len(), path) + (match json::member(
                        m,
                        "items"@,
                    ) {
                        Some(sub) => item_errors(sub, a, path, root, depth + 1, a.len() as int),
                        None => none(),
                    }),
                    _ => none(),
                };
                let conditional = match (json::member(m, "if"@), json::member(m, "then"@)) {
                    (Some(c), Some(t)) => if errors_at(c, doc, ""@, c, 0).len() == 0 {
                        errors_at(t, doc, path, root, depth + 1)
                    } else {
                        none()
                    },
                    _ => none(),
                };
                referred + type_errors(m, doc, path) + enum_errors(m, doc, path) + const_errors(
                    m,
                    doc,
                    path,
                ) + inner + scalar_errors(m, doc, path) + every_errors(
                    all_of(m),
                    doc,
                    path,
                    root,
                    depth + 1,
                    all_of(m).len() as int,
                ) + conditional
            },
            _ => referred,
        }
    }
}

/// The violations of the first `n` property schemas, in name order, by the
/// properties that are there.
pub open spec fn property_errors(
    p: Map<Seq<char>, Tree>,
    f: Map<Seq<char>, Tree>,
    path: Seq<char>,
    root: Tree,
    depth: nat,
    n: int,
) -> Seq<SchemaErrorView>
    decreases root, 33 - depth, n,
{
    if n <= 0 {
        none()
    } else {
        let key = json::key_order(p)[n - 1];
        property_errors(p, f, path, root, depth, n - 1) + (if f.dom().contains(key) {
            errors_at(p[key], f[key], child(path, key), root, depth)
        } else {
            none()
        })
    }
}

/// The violations of a schema by the first `n` items of an array.
pub open spec fn item_errors(
    sub: Tree,
    a: Seq<Tree>,
    path: Seq<char>,
    root: Tree,
    depth: nat,
    n: int,
) -> Seq<SchemaErrorView>
    decreases root, 33 - depth, n,
{
    if n <= 0 {
        none()
    } else {
        item_errors(sub, a, path, root, depth, n - 1) + errors_at(
            sub,
            a[n - 1],
            element(path, (n - 1) as nat),
            root,
            depth,
        )
    }
}

/// The violations of the first `n` of several schemas.
pub open spec fn every_errors(
    subs: Seq<Tree>,
    doc: Tree,
    path: Seq<char>,
    root: Tree,
    depth: nat,
    n: int,
) -> Seq<SchemaErrorView>
    decreases root, 33 - depth, n,
{
    if n <= 0 {
        none()
    } else {
        every_errors(subs, doc, path, root, depth, n - 1) + errors_at(
            subs[n - 1],
            doc,
            path,
            root,
            depth,
        )
    }
}

#[via_fn]
proof fn errors_at_terminates(schema: Tree, doc: Tree, path: Seq<char>, root: Tree, depth: nat) {
    if depth <= MAX_DEPTH {
        if let Tree::Obj(m) = schema {
            if json::member(m, "if"@) is Some {
                json::member_within(schema, "if"@, root);
            }
        }
    }
}

/// The violations of a schema by a document.
pub open spec fn violations(schema: Tree, doc: Tree) -> Seq<SchemaErrorView> {
    errors_at(schema, doc, ""@, schema, 0)
}

/// Adds a violation.
fn report(errors: &mut Vec<SchemaError>, path: &str, message: String)
    ensures
        error_views(final(errors)@) == error_views(old(errors)@) + one(path@, message@),
{
    let ghost m = message@;
    errors.push(SchemaError::new(path, message));
    assert(error_views(errors@) =~= error_views(old(errors)@) + one(path@, m));
}

/// The texts among the items of an array.
pub(crate) fn read_texts(a: &Vec<Json>) -> (r: Vec<String>)
    ensures
        text::views(r@) == texts_in(json::trees(a@)),
{
    let ghost ts = json::trees(a@);
    let mut out: Vec<String> = Vec::new();
    let mut i: usize = 0;
    assert(text::views(out@) =~= texts_in(ts.take(0)));
    while i < a.len()
        invariant
            i <= a@.len(),
            ts == json::trees(a@),
            text::views(out@) == texts_in(ts.take(i as int)),
        decreases a@.len() - i,
    {
        assert(ts.take(i + 1).drop_last() =~= ts.take(i as int));
        assert(ts.take(i + 1).last() == a@[i as int]@);
        let ghost before = text::views(out@);
        if let Some(s) = a[i].as_str() {
            out.push(s.to_owned());
            assert(text::views(out@) =~= before.push(s@));
        }
        i = i + 1;
    }
    assert(ts.take(i as int) =~= ts);
    out
}

/// The type name of a value.
fn json_type(v: &Json) -> (r: &'static str)
    ensures
        r@ == kind_name(v@),
{
    match v {
        Json::Null => "null",
        Json::Bool(_) => "boolean",
        Json::Num(n) => if n.is_integer() {
            "integer"
        } else {
            "number"
        },
        Json::Str(_) => "string",
        Json::Arr(_) => "array",
        Json::Obj(_) => "object",
    }
}

/// Whether `list` holds `s`.
fn has_text(list: &Vec<String>, s: &str) -> (r: bool)
    ensures
        r == text::views(list@).contains(s@),
{
    let ghost all = text::views(list@);
    let mut i: usize = 0;
    while i < list.len()
        invariant
            i <= list@.len(),
            all == text::views(list@),
            forall|j: int| 0 <= j < i ==> #[trigger] all[j] != s@,
        decreases list@.len() - i,
    {
        assert(all[i as int] == list@[i as int]@);
        if text::same(list[i].as_str(), s) {
            return true;
        }
        i = i + 1;
    }
    false
}

/// Checks `type`.
fn check_type(obj: &Object, doc: &Json, path: &str, errors: &mut Vec<SchemaError>)
    ensures
        error_views(final(errors)@) == error_views(old(errors)@) + type_errors(obj@, doc@, path@),
{
    let ghost before = error_views(errors@);
    assert(before + none() =~= before);
    let expected = match obj.get("type") {
        Some(Json::Str(s)) => {
            let mut v: Vec<String> = Vec::new();
            v.push(s.clone());
            assert(text::views(v@) =~= seq![s@]);
            v
        },
        Some(Json::Arr(a)) => read_texts(a),
        _ => return,
    };
    assert(text::views(expected@) == expected_types(obj@));
    if expected.len() == 0 {
        return;
    }
    let actual = json_type(doc);
    let integer = match doc {
        Json::Num(n) => n.is_integer(),
        _ => false,
    };
    if !has_text(&expected, actual) && !(integer && has_text(&expected, "number")) {
        let list = text::join(&expected, " | ");
        report(errors, path, text::cat4("expected ", list.as_str(), " but found ", actual));
    }
}

/// The notations of the items of an array.
fn read_notations(a: &Vec<Json>) -> (r: Vec<String>)
    ensures
        text::views(r@) == notations(json::trees(a@)),
{
    let mut out: Vec<String> = Vec::new();
    let mut i: usize = 0;
    while i < a.len()
        invariant
            i <= a@.len(),
            out@.len() == i,
            forall|j: int| 0 <= j < i ==> (#[trigger] out@[j])@ == bridge::json_text(a@[j]@),
        decreases a@.len() - i,
    {
        out.push(a[i].to_text());
        i = i + 1;
    }
    assert(text::views(out@) =~= notations(json::trees(a@)));
    out
}

/// Whether an array holds a value.
fn has_value(a: &Vec<Json>, v: &Json) -> (r: bool)
    ensures
        r == holds_value(json::trees(a@), v@),
{
    let ghost ts = json::trees(a@);
    let mut i: usize = 0;
    while i < a.len()
        invariant
            i <= a@.len(),
            ts == json::trees(a@),
            forall|j: int| 0 <= j < i ==> !json::same_value(#[trigger] ts[j], v@),
        decreases a@.len() - i,
    {
        assert(ts[i as int] == a@[i as int]@);
        if json::same_json(&a[i], v) {
            return true;
        }
        i = i + 1;
    }
    false
}

/// Checks `enum` and `const`.
fn check_enum(obj: &Object, doc: &Json, path: &str, errors: &mut Vec<SchemaError>)
    ensures
        error_views(final(errors)@) == error_views(old(errors)@) + enum_errors(obj@, doc@, path@)
            + const_errors(obj@, doc@, path@),
{
    let ghost before = error_views(errors@);
    assert(before + none() =~= before);
    if let Some(Json::Arr(list)) = obj.get("enum") {
        if !has_value(list, doc) {
            let n = doc.to_text();
            let all = text::join(&read_notations(list), ", ");
            report(errors, path, text::cat4("value ", n.as_str(), " is not one of ", all.as_str()));
        }
    }
    assert(error_views(errors@) == before + enum_errors(obj@, doc@, path@));
    let ghost mid = error_views(errors@);
    assert(mid + none() =~= mid);
    if let Some(c) = obj.get("const") {
        if !json::same_json(c, doc) {
            let n = doc.to_text();
            let m = c.to_text();
            report(errors, path, text::cat4("value ", n.as_str(), " is not the constant ", m.as_str()));
        }
    }
}

/// Checks `required`.
fn check_required(obj: &Object, fields: &Object, path: &str, errors: &mut Vec<SchemaError>)
    ensures
        error_views(final(errors)@) == error_views(old(errors)@) + required_errors(obj@, fields@, path@),
{
    let ghost before = error_views(errors@);
    let names = match obj.get("required") {
        Some(Json::Arr(a)) => read_texts(a),
        _ => Vec::new(),
    };
    let ghost ns = required_names(obj@);
    assert(text::views(names@) =~= ns);
    let ghost plan = Seq::new(
        ns.len(),
        |i: int|
            if fields@.dom().contains(ns[i]) {
                none()
            } else {
                one(path@, "required property `"@ + ns[i] + "` is missing"@)
            },
    );
    assert(required_errors(obj@, fields@, path@) == flat(plan));
    let mut i: usize = 0;
    assert(before + flat(plan.take(0)) =~= before);
    while i < names.len()
        invariant
            i <= names@.len(),
            text::views(names@) == ns,
            plan.len() == ns.len(),
            forall|j: int|
                0 <= j < ns.len() ==> #[trigger] plan[j] == if fields@.dom().contains(ns[j]) {
                    none()
                } else {
                    one(path@, "required property `"@ + ns[j] + "` is missing"@)
                },
            error_views(errors@) == before + flat(plan.take(i as int)),
        decreases names@.len() - i,
    {
        assert(ns[i as int] == names@[i as int]@);
        let ghost now = error_views(errors@);
        assert(now + none() =~= now);
        let key = names[i].as_str();
        if fields.get(key).is_none() {
            report(errors, path, text::cat3("required property `", key, "` is missing"));
        }
        proof {
            flat_step(plan, i as int);
            assert(before + flat(plan.take(i as int)) + plan[i as int] =~= before + (flat(
                plan.take(i as int),
            ) + plan[i as int]));
        }
        i = i + 1;
    }
    assert(plan.take(i as int) =~= plan);
}

/// Checks `additionalProperties`.
fn check_extra(obj: &Object, fields: &Object, path: &str, errors: &mut Vec<SchemaError>)
    ensures
        error_views(final(errors)@) == error_views(old(errors)@) + extra_errors(obj@, fields@, path@),
{
    let ghost before = error_views(errors@);
    assert(before + none() =~= before);
    let closed: bool = match obj.get("additionalProperties") {
        Some(Json::Bool(b)) => !*b,
        _ => false,
    };
    if !closed {
        return;
    }
    let props = match obj.get("properties") {
        Some(Json::Obj(p)) => p,
        _ => return,
    };
    let ghost ns = json::key_order(fields@);
    let ghost plan = Seq::new(
        ns.len(),
        |i: int|
            if props@.dom().contains(ns[i]) {
                none()
            } else {
                one(path@, "property `"@ + ns[i] + "` is not allowed here"@)
            },
    );
    assert(extra_errors(obj@, fields@, path@) == flat(plan));
    let n = fields.len();
    let mut i: usize = 0;
    assert(before + flat(plan.take(0)) =~= before);
    while i < n
        invariant
            i <= n,
            n == ns.len(),
            ns == json::key_order(fields@),
            plan.len() == ns.len(),
            forall|j: int|
                0 <= j < ns.len() ==> #[trigger] plan[j] == if props@.dom().contains(ns[j]) {
                    none()
                } else {
                    one(path@, "property `"@ + ns[j] + "` is not allowed here"@)
                },
            error_views(errors@) == before + flat(plan.take(i as int)),
        decreases n - i,
    {
        let ghost now = error_views(errors@);
        assert(now + none() =~= now);
        let key = fields.key_at(i);
        if props.get(key).is_none() {
            report(errors, path, text::cat3("property `", key, "` is not allowed here"));
        }
        proof {
            flat_step(plan, i as int);
            assert(before + flat(plan.take(i as int)) + plan[i as int] =~= before + (flat(
                plan.take(i as int),
            ) + plan[i as int]));
        }
        i = i + 1;
    }
    assert(plan.take(i as int) =~= plan);
}

/// Whether `s` is one or more digits.
fn is_digits(s: &str) -> (r: bool)
    ensures
        r == digits(s@),
{
    let v = text::chars(s);
    let end = text::digits_from(&v, 0);
    assert(v@.skip(0) =~= s@);
    assert(v@.subrange(0, v@.len() as int) =~= s@);
    if end < v.len() {
        assert(!text::is_digit(s@[end as int]));
        return false;
    }
    v.len() > 0
}

/// Whether `s` is a cardinality: `<n>` or `<n>..<n|n>`.
pub fn is_cardinality(s: &str) -> (r: bool)
    ensures
        r == cardinality(s@),
{
    let v = text::chars(s);
    let end = text::digits_from(&v, 0);
    let ghost head = v@.subrange(0, end as int);
    assert(head =~= s@.take(end as int));
    assert(v@.subrange(0, v@.len() as int) =~= s@);
    proof {
        assert forall|i: int|
            0 <= i && i + 2 <= s@.len() && #[trigger] s@[i] == '.' && digits(s@.take(i)) implies i
            == end by {
            if i < end {
                assert(text::is_digit(head[i]));
            }
            if i > end {
                assert(text::is_digit(s@.take(i)[end as int]));
            }
        }
    }
    if end == 0 {
        if v.len() > 0 {
            assert(!text::is_digit(s@[0]));
        }
        return false;
    }
    if end == v.len() {
        return true;
    }
    assert(!text::is_digit(s@[end as int]));
    if v.len() - end < 2 || v[end] != '.' || v[end + 1] != '.' {
        return false;
    }
    let upper = text::text_of(&v, end + 2, v.len());
    assert(upper@ =~= s@.skip(end + 2));
    let r: bool = text::same(upper.as_str(), "n") || is_digits(upper.as_str());
    assert(s@[end as int] == '.');
    r
}

/// Whether `s` matches one of the two patterns known here.
fn pattern_matches(pattern: &str, s: &str) -> (r: bool)
    ensures
        r == matches_pattern(pattern@, s@),
{
    if text::same(pattern, CARDINALITY_PATTERN) {
        is_cardinality(s)
    } else if text::same(pattern, DURATION_PATTERN) {
        clock::parse_duration(s).is_ok()
    } else {
        true
    }
}

/// The path of a property.
fn child_path(parent: &str, key: &str) -> (r: String)
    ensures
        r@ == child(parent@, key@),
{
    if parent.is_empty() {
        key.to_owned()
    } else {
        text::cat3(parent, ".", key)
    }
}

/// Checks `minItems`.
fn check_min_items(obj: &Object, len: usize, path: &str, errors: &mut Vec<SchemaError>)
    ensures
        error_views(final(errors)@) == error_views(old(errors)@) + min_items_errors(
            obj@,
            len as nat,
            path@,
        ),
{
    let ghost before = error_views(errors@);
    assert(before + none() =~= before);
    if let Some(v) = obj.get("minItems") {
        if let Some(min) = v.as_u64() {
            if (len as u64) < min {
                let a = text::decimal_of_usize(len);
                let b = text::decimal_of(min);
                report(
                    errors,
                    path,
                    text::cat4("array has ", a.as_str(), " items, fewer than ", b.as_str()),
                );
            }
        }
    }
}

/// Checks the keywords on texts and numbers.
fn check_scalar(obj: &Object, doc: &Json, path: &str, errors: &mut Vec<SchemaError>)
    ensures
        error_views(final(errors)@) == error_views(old(errors)@) + scalar_errors(obj@, doc@, path@),
{
    let ghost before = error_views(errors@);
    assert(before + none() =~= before);
    match doc {
        Json::Str(s) => {
            if let Some(v) = obj.get("minLength") {
                if let Some(min) = v.as_u64() {
                    let n = text::chars(s.as_str()).len();
                    if (n as u64) < min {
                        let m = text::decimal_of(min);
                        report(
                            errors,
                            path,
                            text::cat3("string is shorter than ", m.as_str(), " characters"),
                        );
                    }
                }
            }
            assert(error_views(errors@) == before + min_length_errors(obj@, s@, path@));
            let ghost mid = error_views(errors@);
            assert(mid + none() =~= mid);
            if let Some(Json::Str(p)) = obj.get("pattern") {
                if !pattern_matches(p.as_str(), s.as_str()) {
                    report(
                        errors,
                        path,
                        text::cat3("string `", s.as_str(), "` does not match the required pattern"),
                    );
                }
            }
            assert(error_views(errors@) == mid + pattern_errors(obj@, s@, path@));
            assert(before + min_length_errors(obj@, s@, path@) + pattern_errors(obj@, s@, path@) =~= before + (
            min_length_errors(obj@, s@, path@) + pattern_errors(obj@, s@, path@)));
        },
        Json::Num(_) => {
            if let Some(min) = obj.get("minimum") {
                if let Json::Num(_) = min {
                    let a = doc.to_value();
                    let b = min.to_value();
                    if bridge::value_below(&a, &b) {
                        let x = bridge::value_double_text(&a);
                        let y = bridge::value_double_text(&b);
                        report(
                            errors,
                            path,
                            text::cat4("value ", x.as_str(), " is below the minimum ", y.as_str()),
                        );
                    }
                }
            }
        },
        _ => {},
    }
}

/// The definition that a schema refers to.
fn resolve_ref<'a>(schema: &Json, root: &'a Json) -> (r: Option<&'a Json>)
    ensures
        match r {
            Some(t) => ref_target(schema@, root@) == Some(t@),
            None => ref_target(schema@, root@) is None,
        },
{
    let r = match schema.get_str("$ref") {
        Some(r) => r,
        None => return None,
    };
    let name = match text::strip(r, "#/$defs/") {
        Some(n) => n,
        None => return None,
    };
    match root.get("$defs") {
        Some(defs) => defs.get(name.as_str()),
        None => None,
    }
}

/// A definition is a part of the schema it stands in.
pub(crate) proof fn ref_within(schema: Tree, root: Tree)
    requires
        json::sound(root),
        ref_target(schema, root) is Some,
    ensures
        json::within(ref_target(schema, root)->Some_0, root),
        json::sound(ref_target(schema, root)->Some_0),
{
    let r = json::get_str(schema, "$ref"@)->Some_0;
    let name = text::after(r, "#/$defs/"@)->Some_0;
    json::member_within(root, "$defs"@, root);
    json::member_within(json::lookup(root, "$defs"@)->Some_0, name, root);
}

/// Checks the properties of an object.
fn check_properties(
    props: &Object,
    fields: &Object,
    path: &str,
    root: &Json,
    depth: usize,
    errors: &mut Vec<SchemaError>,
)
    requires
        depth <= MAX_DEPTH,
        json::sound(root@),
        json::sound(Tree::Obj(props@)),
        json::within(Tree::Obj(props@), root@),
    ensures
        error_views(final(errors)@) == error_views(old(errors)@) + property_errors(
            props@,
            fields@,
            path@,
            root@,
            depth as nat + 1,
            json::key_order(props@).len() as int,
        ),
    decreases root@, 33 - depth, 0int,
{
    let ghost before = error_views(errors@);
    let ghost d = depth as nat + 1;
    let n = props.len();
    let mut i: usize = 0;
    assert(before + none() =~= before);
    while i < n
        invariant
            i <= n,
            n == json::key_order(props@).len(),
            d == depth as nat + 1,
            depth <= MAX_DEPTH,
            json::sound(root@),
            json::sound(Tree::Obj(props@)),
            json::within(Tree::Obj(props@), root@),
            error_views(errors@) == before + property_errors(props@, fields@, path@, root@, d, i as int),
        decreases n - i,
    {
        let ghost now = error_views(errors@);
        let ghost done = property_errors(props@, fields@, path@, root@, d, i as int);
        let ghost mut more = none();
        assert(now + none() =~= now);
        let key = props.key_at(i);
        let sub = props.value_at(i);
        if let Some(value) = fields.get(key) {
            proof {
                json::member_within(Tree::Obj(props@), key@, root@);
                more = errors_at(sub@, value@, child(path@, key@), root@, d);
            }
            let inner = child_path(path, key);
            check(sub, value, inner.as_str(), root, depth + 1, errors);
        }
        assert(property_errors(props@, fields@, path@, root@, d, i + 1) == done + more);
        assert(before + done + more =~= before + (done + more));
        i = i + 1;
    }
}

/// Checks the items of an array.
fn check_items(
    sub: &Json,
    items: &Vec<Json>,
    path: &str,
    root: &Json,
    depth: usize,
    errors: &mut Vec<SchemaError>,
)
    requires
        depth <= MAX_DEPTH,
        json::sound(root@),
        json::sound(sub@),
        json::within(sub@, root@),
    ensures
        error_views(final(errors)@) == error_views(old(errors)@) + item_errors(
            sub@,
            json::trees(items@),
            path@,
            root@,
            depth as nat + 1,
            items@.len() as int,
        ),
    decreases root@, 33 - depth, 0int,
{
    let ghost before = error_views(errors@);
    let ghost d = depth as nat + 1;
    let ghost a = json::trees(items@);
    let mut i: usize = 0;
    assert(before + none() =~= before);
    while i < items.len()
        invariant
            i <= items@.len(),
            d == depth as nat + 1,
            a == json::trees(items@),
            depth <= MAX_DEPTH,
            json::sound(root@),
            json::sound(sub@),
            json::within(sub@, root@),
            error_views(errors@) == before + item_errors(sub@, a, path@, root@, d, i as int),
        decreases items@.len() - i,
    {
        let ghost done = item_errors(sub@, a, path@, root@, d, i as int);
        let n = text::decimal_of_usize(i);
        let inner = text::cat4(path, "[", n.as_str(), "]");
        assert(a[i as int] == items@[i as int]@);
        check(sub, &items[i], inner.as_str(), root, depth + 1, errors);
        let ghost more = errors_at(sub@, a[i as int], element(path@, i as nat), root@, d);
        assert(item_errors(sub@, a, path@, root@, d, i + 1) == done + more);
        assert(before + done + more =~= before + (done + more));
        i = i + 1;
    }
}

/// Checks every schema of `allOf`.
fn check_all(
    subs: &Vec<Json>,
    doc: &Json,
    path: &str,
    root: &Json,
    depth: usize,
    errors: &mut Vec<SchemaError>,
)
    requires
        depth <= MAX_DEPTH,
        json::sound(root@),
        json::sound(Tree::Arr(json::trees(subs@))),
        json::within(Tree::Arr(json::trees(subs@)), root@),
    ensures
        error_views(final(errors)@) == error_views(old(errors)@) + every_errors(
            json::trees(subs@),
            doc@,
            path@,
            root@,
            depth as nat + 1,
            subs@.len() as int,
        ),
    decreases root@, 33 - depth, 0int,
{
    let ghost before = error_views(errors@);
    let ghost d = depth as nat + 1;
    let ghost ss = json::trees(subs@);
    let mut i: usize = 0;
    assert(before + none() =~= before);
    while i < subs.len()
        invariant
            i <= subs@.len(),
            d == depth as nat + 1,
            ss == json::trees(subs@),
            depth <= MAX_DEPTH,
            json::sound(root@),
            json::sound(Tree::Arr(ss)),
            json::within(Tree::Arr(ss), root@),
            error_views(errors@) == before + every_errors(ss, doc@, path@, root@, d, i as int),
        decreases subs@.len() - i,
    {
        let ghost done = every_errors(ss, doc@, path@, root@, d, i as int);
        proof {
            json::item_within(Tree::Arr(ss), i as int, root@);
        }
        assert(ss[i as int] == subs@[i as int]@);
        check(&subs[i], doc, path, root, depth + 1, errors);
        let ghost more = errors_at(ss[i as int], doc@, path@, root@, d);
        assert(every_errors(ss, doc@, path@, root@, d, i + 1) == done + more);
        assert(before + done + more =~= before + (done + more));
        i = i + 1;
    }
}

/// Checks the keywords on objects and arrays.
fn check_inner(
    schema: &Json,
    obj: &Object,
    doc: &Json,
    path: &str,
    root: &Json,
    depth: usize,
    errors: &mut Vec<SchemaError>,
) -> (r: Ghost<Seq<SchemaErrorView>>)
    requires
        depth <= MAX_DEPTH,
        json::sound(root@),
        json::sound(schema@),
        json::within(schema@, root@),
        schema@ == Tree::Obj(obj@),
    ensures
        error_views(final(errors)@) == error_views(old(errors)@) + r@,
        r@ == match doc@ {
            Tree::Obj(f) => required_errors(obj@, f, path@) + (match properties(obj@) {
                Some(p) => property_errors(
                    p,
                    f,
                    path@,
                    root@,
                    depth as nat + 1,
                    json::key_order(p).len() as int,
                ),
                None => none(),
            }) + extra_errors(obj@, f, path@),
            Tree::Arr(a) => min_items_errors(obj@, a.len(), path@) + (match json::member(
                obj@,
                "items"@,
            ) {
                Some(sub) => item_errors(sub, a, path@, root@, depth as nat + 1, a.len() as int),
                None => none(),
            }),
            _ => none(),
        },
    decreases root@, 33 - depth, 1int,
{
    let ghost before = error_views(errors@);
    assert(before + none() =~= before);
    match doc {
        Json::Obj(fields) => {
            let ghost f = fields@;
            let ghost mut props = none();
            check_required(obj, fields, path, errors);
            let ghost mid = error_views(errors@);
            assert(mid + none() =~= mid);
            if let Some(Json::Obj(p)) = obj.get("properties") {
                proof {
                    json::member_within(schema@, "properties"@, root@);
                    props = property_errors(
                        p@,
                        f,
                        path@,
                        root@,
                        depth as nat + 1,
                        json::key_order(p@).len() as int,
                    );
                }
                check_properties(p, fields, path, root, depth, errors);
            }
            assert(error_views(errors@) == mid + props);
            check_extra(obj, fields, path, errors);
            let ghost all = required_errors(obj@, f, path@) + props + extra_errors(obj@, f, path@);
            assert(error_views(errors@) =~= before + all);
            Ghost(all)
        },
        Json::Arr(items) => {
            let ghost a = json::trees(items@);
            let ghost mut each = none();
            check_min_items(obj, items.len(), path, errors);
            let ghost mid = error_views(errors@);
            assert(mid + none() =~= mid);
            if let Some(sub) = obj.get("items") {
                proof {
                    json::member_within(schema@, "items"@, root@);
                    each = item_errors(sub@, a, path@, root@, depth as nat + 1, a.len() as int);
                }
                check_items(sub, items, path, root, depth, errors);
            }
            let ghost all = min_items_errors(obj@, a.len(), path@) + each;
            assert(error_views(errors@) =~= before + all);
            Ghost(all)
        },
        _ => Ghost(none()),
    }
}

/// Checks `doc` against `schema`, adding every violation.
#[verifier::spinoff_prover]
#[verifier::rlimit(80)]
fn check(
    schema: &Json,
    doc: &Json,
    path: &str,
    root: &Json,
    depth: usize,
    errors: &mut Vec<SchemaError>,
)
    requires
        depth <= MAX_DEPTH + 1,
        json::sound(root@),
        json::sound(schema@),
        json::within(schema@, root@),
    ensures
        error_views(final(errors)@) == error_views(old(errors)@) + errors_at(
            schema@,
            doc@,
            path@,
            root@,
            depth as nat,
        ),
    decreases root@, 33 - depth, 2int,
{
    let ghost before = error_views(errors@);
    assert(before + none() =~= before);
    if depth > MAX_DEPTH {
        report(errors, path, "schema nesting too deep".to_owned());
        return;
    }
    let ghost mut referred = none();
    if let Some(target) = resolve_ref(schema, root) {
        proof {
            ref_within(schema@, root@);
            referred = errors_at(target@, doc@, path@, root@, depth as nat + 1);
        }
        check(target, doc, path, root, depth + 1, errors);
    }
    assert(error_views(errors@) == before + referred);
    let obj = match schema {
        Json::Obj(o) => o,
        _ => return,
    };
    check_type(obj, doc, path, errors);
    check_enum(obj, doc, path, errors);
    let inner = check_inner(schema, obj, doc, path, root, depth, errors);
    check_scalar(obj, doc, path, errors);
    let ghost mid = error_views(errors@);
    assert(mid =~= before + (referred + type_errors(obj@, doc@, path@) + enum_errors(obj@, doc@, path@)
        + const_errors(obj@, doc@, path@) + inner@ + scalar_errors(obj@, doc@, path@)));
    assert(mid + none() =~= mid);
    let ghost every = every_errors(
        all_of(obj@),
        doc@,
        path@,
        root@,
        depth as nat + 1,
        all_of(obj@).len() as int,
    );
    if let Some(Json::Arr(list)) = obj.get("allOf") {
        proof {
            json::member_within(schema@, "allOf"@, root@);
        }
        check_all(list, doc, path, root, depth, errors);
    }
    let ghost late = error_views(errors@);
    assert(late == mid + every);
    assert(late + none() =~= late);
    let ghost mut conditional = none();
    if let (Some(cond), Some(then)) = (obj.get("if"), obj.get("then")) {
        proof {
            json::member_within(schema@, "if"@, root@);
            json::member_within(schema@, "then"@, root@);
        }
        if validate(cond, doc).is_ok() {
            proof {
                conditional = errors_at(then@, doc@, path@, root@, depth as nat + 1);
            }
            check(then, doc, path, root, depth + 1, errors);
        }
    }
    assert(error_views(errors@) == late + conditional);
    assert(error_views(errors@) =~= before + (referred + type_errors(obj@, doc@, path@) + enum_errors(
        obj@,
        doc@,
        path@,
    ) + const_errors(obj@, doc@, path@) + inner@ + scalar_errors(obj@, doc@, path@) + every
        + conditional));
}

/// Validates `doc` against `schema`, collecting every violation.
pub fn validate(schema: &Json, doc: &Json) -> (r: Result<(), Vec<SchemaError>>)
    ensures
        match r {
            Ok(_) => violations(schema@, doc@).len() == 0,
            Err(e) => violations(schema@, doc@).len() > 0 && error_views(e@) == violations(
                schema@,
                doc@,
            ),
        },
    decreases schema@, 34int, 0int,
{
    let mut errors: Vec<SchemaError> = Vec::new();
    proof {
        json::tree_sound(*schema);
    }
    assert(error_views(errors@) =~= none());
    check(schema, doc, "", schema, 0, &mut errors);
    assert(none() + violations(schema@, doc@) =~= violations(schema@, doc@));
    if errors.len() == 0 {
        assert(error_views(errors@).len() == 0);
        Ok(())
    } else {
        assert(error_views(errors@).len() > 0);
        Err(errors)
    }
}

/// The texts among values are those that are texts.
proof fn texts_are_found(ts: Seq<Tree>, s: Seq<char>)
    ensures
        texts_in(ts).contains(s) <==> exists|i: int| 0 <= i < ts.len() && #[trigger] ts[i] == Tree::Str(s),
    decreases ts.len(),
{
    if ts.len() > 0 {
        let t = ts.drop_last();
        texts_are_found(t, s);
        let n = ts.len() - 1;
        if texts_in(ts).contains(s) {
            let k = texts_in(ts).index_of(s);
            if k < texts_in(t).len() {
                assert(texts_in(t)[k] == s);
                let i = choose|i: int| 0 <= i < t.len() && #[trigger] t[i] == Tree::Str(s);
                assert(ts[i] == Tree::Str(s));
            } else {
                assert(ts[n] == Tree::Str(s));
            }
        }
        if exists|i: int| 0 <= i < ts.len() && #[trigger] ts[i] == Tree::Str(s) {
            let i = choose|i: int| 0 <= i < ts.len() && #[trigger] ts[i] == Tree::Str(s);
            if i < n {
                assert(t[i] == Tree::Str(s));
                let k = texts_in(t).index_of(s);
                assert(texts_in(ts)[k] == s);
            } else {
                assert(texts_in(ts)[texts_in(t).len() as int] == s);
            }
        }
    }
}

/// Several checks find nothing exactly when each finds nothing.
proof fn flat_is_empty(s: Seq<Seq<SchemaErrorView>>)
    ensures
        flat(s).len() == 0 <==> forall|i: int| 0 <= i < s.len() ==> (#[trigger] s[i]).len() == 0,
    decreases s.len(),
{
    if s.len() > 0 {
        let t = s.drop_last();
        flat_is_empty(t);
        assert forall|i: int| 0 <= i < t.len() implies t[i] == #[trigger] s[i] by {}
        if flat(s).len() == 0 {
            assert forall|i: int| 0 <= i < s.len() implies (#[trigger] s[i]).len() == 0 by {
                if i < t.len() {
                    assert(t[i].len() == 0);
                }
            }
        } else if forall|i: int| 0 <= i < s.len() ==> (#[trigger] s[i]).len() == 0 {
            assert forall|i: int| 0 <= i < t.len() implies (#[trigger] t[i]).len() == 0 by {
                assert(s[i].len() == 0);
            }
            assert(s[s.len() - 1].len() == 0);
        }
    }
}

/// The name order of a finite object lists its names.
proof fn names_are_listed(m: Map<Seq<char>, Tree>)
    requires
        m.dom().finite(),
    ensures
        json::lists(json::key_order(m), m),
{
    table::listing_lists(m.dom());
    let ks = table::listing(m.dom());
    assert(json::ascending(ks) && json::lists(ks, m));
}

/// The type names have different spellings.
proof fn type_names_differ()
    ensures
        "null"@ != "boolean"@ && "null"@ != "integer"@ && "null"@ != "number"@ && "null"@ != "string"@
            && "null"@ != "array"@ && "null"@ != "object"@,
        "boolean"@ != "integer"@ && "boolean"@ != "number"@ && "boolean"@ != "string"@ && "boolean"@
            != "array"@ && "boolean"@ != "object"@,
        "integer"@ != "number"@ && "integer"@ != "string"@ && "integer"@ != "array"@ && "integer"@
            != "object"@,
        "number"@ != "string"@ && "number"@ != "array"@ && "number"@ != "object"@,
        "string"@ != "array"@ && "string"@ != "object"@ && "array"@ != "object"@,
{
    reveal_strlit("null");
    reveal_strlit("boolean");
    reveal_strlit("integer");
    reveal_strlit("number");
    reveal_strlit("string");
    reveal_strlit("array");
    reveal_strlit("object");
    assert("null"@.len() == 4 && "boolean"@.len() == 7 && "integer"@.len() == 7 && "number"@.len() == 6
        && "string"@.len() == 6 && "array"@.len() == 5 && "object"@.len() == 6);
    assert("boolean"@[0] != "integer"@[0]);
    assert("number"@[0] != "string"@[0] && "number"@[0] != "object"@[0] && "string"@[0] != "object"@[0]);
}

/// The keyword `type` admits values of the type that it names, and no
/// others; a whole number is a number.
pub proof fn types_admit_their_values(m: Map<Seq<char>, Tree>, doc: Tree, path: Seq<char>, want: Seq<char>)
    requires
        m.dom().contains("type"@),
        m["type"@] == Tree::Str(want),
    ensures
        want == "null"@ ==> (type_errors(m, doc, path).len() == 0 <==> doc is Null),
        want == "boolean"@ ==> (type_errors(m, doc, path).len() == 0 <==> doc is Bool),
        want == "integer"@ ==> (type_errors(m, doc, path).len() == 0 <==> doc is Int),
        want == "number"@ ==> (type_errors(m, doc, path).len() == 0 <==> doc is Int || doc is Float),
        want == "string"@ ==> (type_errors(m, doc, path).len() == 0 <==> doc is Str),
        want == "array"@ ==> (type_errors(m, doc, path).len() == 0 <==> doc is Arr),
        want == "object"@ ==> (type_errors(m, doc, path).len() == 0 <==> doc is Obj),
{
    type_names_differ();
    let list = seq![want];
    assert(list[0] == want);
    assert(list.contains(want));
    assert(forall|x: Seq<char>| #[trigger] list.contains(x) ==> x == want);
}

/// The keyword `required` finds each property that it names and the object
/// lacks, and nothing else.
pub proof fn required_properties_are_demanded(
    m: Map<Seq<char>, Tree>,
    f: Map<Seq<char>, Tree>,
    path: Seq<char>,
    names: Seq<Tree>,
)
    requires
        m.dom().contains("required"@),
        m["required"@] == Tree::Arr(names),
    ensures
        required_errors(m, f, path).len() == 0 <==> forall|i: int|
            0 <= i < names.len() ==> (#[trigger] names[i] matches Tree::Str(n) ==> f.dom().contains(n)),
{
    let wanted = texts_in(names);
    let parts = Seq::new(
        wanted.len(),
        |i: int|
            if f.dom().contains(wanted[i]) {
                none()
            } else {
                one(path, "required property `"@ + wanted[i] + "` is missing"@)
            },
    );
    flat_is_empty(parts);
    if required_errors(m, f, path).len() == 0 {
        assert forall|i: int| 0 <= i < names.len() implies (#[trigger] names[i] matches Tree::Str(n)
            ==> f.dom().contains(n)) by {
            if let Tree::Str(n) = names[i] {
                texts_are_found(names, n);
                let k = wanted.index_of(n);
                assert(wanted.contains(n));
                assert(parts[k].len() == 0);
            }
        }
    } else {
        let k = choose|k: int| 0 <= k < parts.len() && (#[trigger] parts[k]).len() != 0;
        let n = wanted[k];
        assert(wanted.contains(n));
        texts_are_found(names, n);
        let i = choose|i: int| 0 <= i < names.len() && #[trigger] names[i] == Tree::Str(n);
        assert(!f.dom().contains(n));
        assert(names[i] == Tree::Str(n));
    }
}

/// Where a schema closes its object, a property that it does not describe
/// is a violation, and only such a property.
pub proof fn closed_objects_hold_described_properties(
    m: Map<Seq<char>, Tree>,
    f: Map<Seq<char>, Tree>,
    path: Seq<char>,
    p: Map<Seq<char>, Tree>,
)
    requires
        f.dom().finite(),
        m.dom().contains("properties"@),
        m["properties"@] == Tree::Obj(p),
    ensures
        m.dom().contains("additionalProperties"@) && m["additionalProperties"@] == Tree::Bool(false) ==> (
        extra_errors(m, f, path).len() == 0 <==> forall|k: Seq<char>| #[trigger]
            f.dom().contains(k) ==> p.dom().contains(k)),
        !(m.dom().contains("additionalProperties"@) && m["additionalProperties"@] == Tree::Bool(false))
            ==> extra_errors(m, f, path).len() == 0,
{
    names_are_listed(f);
    let names = json::key_order(f);
    let parts = Seq::new(
        names.len(),
        |i: int|
            if p.dom().contains(names[i]) {
                none()
            } else {
                one(path, "property `"@ + names[i] + "` is not allowed here"@)
            },
    );
    flat_is_empty(parts);
    if m.dom().contains("additionalProperties"@) && m["additionalProperties"@] == Tree::Bool(false) {
        if extra_errors(m, f, path).len() == 0 {
            assert forall|k: Seq<char>| #[trigger] f.dom().contains(k) implies p.dom().contains(k) by {
                assert(names.contains(k));
                let i = names.index_of(k);
                assert(parts[i].len() == 0);
            }
        } else {
            let i = choose|i: int| 0 <= i < parts.len() && (#[trigger] parts[i]).len() != 0;
            assert(names.contains(names[i]));
            assert(f.dom().contains(names[i]));
        }
    }
}

/// The keywords on sizes, choices and constants find exactly the values
/// that fall short of them.
pub proof fn bounds_and_choices_are_kept(
    m: Map<Seq<char>, Tree>,
    doc: Tree,
    s: Seq<char>,
    len: nat,
    path: Seq<char>,
    n: u64,
    list: Seq<Tree>,
    c: Tree,
)
    ensures
        m.dom().contains("minItems"@) && m["minItems"@] == Tree::Int(n as int) ==> (min_items_errors(
            m,
            len,
            path,
        ).len() == 0 <==> n <= len),
        m.dom().contains("minLength"@) && m["minLength"@] == Tree::Int(n as int) ==> (min_length_errors(
            m,
            s,
            path,
        ).len() == 0 <==> n <= s.len()),
        m.dom().contains("enum"@) && m["enum"@] == Tree::Arr(list) ==> (enum_errors(m, doc, path).len()
            == 0 <==> exists|i: int| 0 <= i < list.len() && json::same_value(#[trigger] list[i], doc)),
        m.dom().contains("const"@) && m["const"@] == c ==> (const_errors(m, doc, path).len() == 0
            <==> json::same_value(c, doc)),
        !m.dom().contains("type"@) ==> type_errors(m, doc, path).len() == 0,
        !m.dom().contains("minItems"@) ==> min_items_errors(m, len, path).len() == 0,
        !m.dom().contains("minLength"@) ==> min_length_errors(m, s, path).len() == 0,
        !m.dom().contains("enum"@) ==> enum_errors(m, doc, path).len() == 0,
        !m.dom().contains("const"@) ==> const_errors(m, doc, path).len() == 0,
        !m.dom().contains("pattern"@) ==> pattern_errors(m, s, path).len() == 0,
{
}

} // verus!
