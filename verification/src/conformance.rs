//! What the schemas accept, the typed parsers read.
//!
//! The JSON Schemas and the typed models of profile manifests and of
//! cross-register mappings are two renders of one vocabulary. The laws here
//! state the side that intake relies on: a document without a schema
//! violation parses.

use vstd::prelude::*;
use crate::clock;
use crate::intake;
use crate::json;
use crate::json::Tree;
use crate::manifest;
use crate::mapping;
use crate::model::{ItemClass, ItemView};
use crate::satisfiability;
use crate::schema;
use crate::store::StoreView;
use crate::table;
use crate::text;

verus! {

/// The names of a finite object can be listed in ascending order.
proof fn listing(m: Map<Seq<char>, Tree>) -> (ks: Seq<Seq<char>>)
    requires
        m.dom().finite(),
    ensures
        json::ascending(ks),
        json::lists(ks, m),
{
    table::listing_lists(m.dom());
    table::listing(m.dom())
}

/// The name order of a finite object lists its names.
proof fn order_lists(m: Map<Seq<char>, Tree>)
    requires
        m.dom().finite(),
    ensures
        json::lists(json::key_order(m), m),
{
    let ks = listing(m);
    assert(json::ascending(ks) && json::lists(ks, m));
}

/// Whether a document has no violation of a part of a schema.
#[verifier::opaque]
pub open spec fn clean(part: Tree, doc: Tree, path: Seq<char>, root: Tree, depth: nat) -> bool {
    schema::errors_at(part, doc, path, root, depth).len() == 0
}

/// Whether a part of a schema can be held against a document.
pub open spec fn usable(part: Tree, root: Tree) -> bool {
    json::sound(root) && json::sound(part) && json::within(part, root)
}

/// What a part of a schema without violations says keyword by keyword.
proof fn keyword_by_keyword(m: Map<Seq<char>, Tree>, doc: Tree, path: Seq<char>, root: Tree, depth: nat)
    requires
        usable(Tree::Obj(m), root),
        depth <= schema::MAX_DEPTH,
        clean(Tree::Obj(m), doc, path, root, depth),
    ensures
        schema::type_errors(m, doc, path).len() == 0,
        schema::enum_errors(m, doc, path).len() == 0,
        schema::scalar_errors(m, doc, path).len() == 0,
        schema::ref_target(Tree::Obj(m), root) matches Some(t) ==> clean(t, doc, path, root, depth + 1),
        doc matches Tree::Obj(f) ==> schema::required_errors(m, f, path).len() == 0 && (
        schema::properties(m) matches Some(p) ==> schema::property_errors(
            p,
            f,
            path,
            root,
            depth + 1,
            json::key_order(p).len() as int,
        ).len() == 0),
        doc matches Tree::Arr(a) ==> (json::member(m, "items"@) matches Some(sub) ==> schema::item_errors(
            sub,
            a,
            path,
            root,
            depth + 1,
            a.len() as int,
        ).len() == 0),
        schema::every_errors(
            schema::all_of(m),
            doc,
            path,
            root,
            depth + 1,
            schema::all_of(m).len() as int,
        ).len() == 0,
        json::member(m, "if"@) matches Some(c) ==> (json::member(m, "then"@) matches Some(t) ==> (clean(
            c,
            doc,
            ""@,
            c,
            0,
        ) ==> clean(t, doc, path, root, depth + 1))),
{
    reveal(clean);
    let part = Tree::Obj(m);
    if schema::ref_target(part, root) is Some {
        schema::ref_within(part, root);
    }
    if json::member(m, "if"@) is Some {
        json::member_within(part, "if"@, root);
    }
    if json::member(m, "then"@) is Some {
        json::member_within(part, "then"@, root);
    }
    let referred = match schema::ref_target(part, root) {
        Some(t) => schema::errors_at(t, doc, path, root, depth + 1),
        None => schema::none(),
    };
    let inner = match doc {
        Tree::Obj(f) => schema::required_errors(m, f, path) + (match schema::properties(m) {
            Some(p) => schema::property_errors(
                p,
                f,
                path,
                root,
                depth + 1,
                json::key_order(p).len() as int,
            ),
            None => schema::none(),
        }) + schema::extra_errors(m, f, path),
        Tree::Arr(a) => schema::min_items_errors(m, a.len(), path) + (match json::member(m, "items"@) {
            Some(sub) => schema::item_errors(sub, a, path, root, depth + 1, a.len() as int),
            None => schema::none(),
        }),
        _ => schema::none(),
    };
    let conditional = match (json::member(m, "if"@), json::member(m, "then"@)) {
        (Some(c), Some(t)) => if schema::errors_at(c, doc, ""@, c, 0).len() == 0 {
            schema::errors_at(t, doc, path, root, depth + 1)
        } else {
            schema::none()
        },
        _ => schema::none(),
    };
    let every = schema::every_errors(
        schema::all_of(m),
        doc,
        path,
        root,
        depth + 1,
        schema::all_of(m).len() as int,
    );
    assert(schema::errors_at(part, doc, path, root, depth) == referred + schema::type_errors(m, doc, path)
        + schema::enum_errors(m, doc, path) + schema::const_errors(m, doc, path) + inner
        + schema::scalar_errors(m, doc, path) + every + conditional);
}

proof fn property_clean_at(
    p: Map<Seq<char>, Tree>,
    f: Map<Seq<char>, Tree>,
    path: Seq<char>,
    root: Tree,
    depth: nat,
    n: int,
    i: int,
)
    requires
        0 <= i < n <= json::key_order(p).len(),
        usable(Tree::Obj(p), root),
        depth <= schema::MAX_DEPTH,
        schema::property_errors(p, f, path, root, depth, n).len() == 0,
        f.dom().contains(json::key_order(p)[i]),
    ensures
        ({
            let key = json::key_order(p)[i];
            clean(p[key], f[key], schema::child(path, key), root, depth)
        }),
    decreases n,
{
    reveal(clean);
    let key = json::key_order(p)[n - 1];
    order_lists(p);
    assert(json::key_order(p).contains(key));
    json::member_within(Tree::Obj(p), key, root);
    let done = schema::property_errors(p, f, path, root, depth, n - 1);
    let more = schema::errors_at(p[key], f[key], schema::child(path, key), root, depth);
    if i < n - 1 {
        assert(f.dom().contains(key) ==> schema::property_errors(p, f, path, root, depth, n) == done + more);
        property_clean_at(p, f, path, root, depth, n - 1, i);
    } else {
        assert(schema::property_errors(p, f, path, root, depth, n) == done + more);
    }
}

/// A property of a clean object is clean.
proof fn property_clean(
    m: Map<Seq<char>, Tree>,
    f: Map<Seq<char>, Tree>,
    key: Seq<char>,
    path: Seq<char>,
    root: Tree,
    depth: nat,
)
    requires
        usable(Tree::Obj(m), root),
        depth < schema::MAX_DEPTH,
        clean(Tree::Obj(m), Tree::Obj(f), path, root, depth),
        schema::properties(m) is Some,
        schema::properties(m)->Some_0.dom().contains(key),
        f.dom().contains(key),
    ensures
        usable(schema::properties(m)->Some_0[key], root),
        clean(
            schema::properties(m)->Some_0[key],
            f[key],
            schema::child(path, key),
            root,
            depth + 1,
        ),
{
    let p = schema::properties(m)->Some_0;
    json::member_within(Tree::Obj(m), "properties"@, root);
    json::member_within(Tree::Obj(p), key, root);
    keyword_by_keyword(m, Tree::Obj(f), path, root, depth);
    order_lists(p);
    assert(json::key_order(p).contains(key));
    let i = json::key_order(p).index_of(key);
    property_clean_at(p, f, path, root, depth + 1, json::key_order(p).len() as int, i);
}

proof fn item_clean_at(sub: Tree, a: Seq<Tree>, path: Seq<char>, root: Tree, depth: nat, n: int, i: int)
    requires
        0 <= i < n,
        usable(sub, root),
        depth <= schema::MAX_DEPTH,
        schema::item_errors(sub, a, path, root, depth, n).len() == 0,
    ensures
        clean(sub, a[i], schema::element(path, i as nat), root, depth),
    decreases n,
{
    reveal(clean);
    let done = schema::item_errors(sub, a, path, root, depth, n - 1);
    let more = schema::errors_at(sub, a[n - 1], schema::element(path, (n - 1) as nat), root, depth);
    assert(schema::item_errors(sub, a, path, root, depth, n) == done + more);
    if i < n - 1 {
        item_clean_at(sub, a, path, root, depth, n - 1, i);
    }
}

/// An item of a clean array is clean.
proof fn item_clean(
    m: Map<Seq<char>, Tree>,
    a: Seq<Tree>,
    i: int,
    path: Seq<char>,
    root: Tree,
    depth: nat,
)
    requires
        usable(Tree::Obj(m), root),
        depth < schema::MAX_DEPTH,
        clean(Tree::Obj(m), Tree::Arr(a), path, root, depth),
        json::member(m, "items"@) is Some,
        0 <= i < a.len(),
    ensures
        usable(json::member(m, "items"@)->Some_0, root),
        clean(
            json::member(m, "items"@)->Some_0,
            a[i],
            schema::element(path, i as nat),
            root,
            depth + 1,
        ),
{
    json::member_within(Tree::Obj(m), "items"@, root);
    keyword_by_keyword(m, Tree::Arr(a), path, root, depth);
    item_clean_at(
        json::member(m, "items"@)->Some_0,
        a,
        path,
        root,
        depth + 1,
        a.len() as int,
        i,
    );
}

proof fn every_clean_at(subs: Seq<Tree>, doc: Tree, path: Seq<char>, root: Tree, depth: nat, n: int, i: int)
    requires
        0 <= i < n <= subs.len(),
        usable(Tree::Arr(subs), root),
        depth <= schema::MAX_DEPTH,
        schema::every_errors(subs, doc, path, root, depth, n).len() == 0,
    ensures
        clean(subs[i], doc, path, root, depth),
    decreases n,
{
    reveal(clean);
    json::item_within(Tree::Arr(subs), n - 1, root);
    let done = schema::every_errors(subs, doc, path, root, depth, n - 1);
    let more = schema::errors_at(subs[n - 1], doc, path, root, depth);
    assert(schema::every_errors(subs, doc, path, root, depth, n) == done + more);
    if i < n - 1 {
        every_clean_at(subs, doc, path, root, depth, n - 1, i);
    }
}

/// Each schema of `allOf` is clean.
proof fn every_clean(
    m: Map<Seq<char>, Tree>,
    doc: Tree,
    i: int,
    path: Seq<char>,
    root: Tree,
    depth: nat,
)
    requires
        usable(Tree::Obj(m), root),
        depth < schema::MAX_DEPTH,
        clean(Tree::Obj(m), doc, path, root, depth),
        0 <= i < schema::all_of(m).len(),
    ensures
        usable(schema::all_of(m)[i], root),
        clean(schema::all_of(m)[i], doc, path, root, depth + 1),
{
    json::member_within(Tree::Obj(m), "allOf"@, root);
    json::item_within(json::member(m, "allOf"@)->Some_0, i, root);
    keyword_by_keyword(m, doc, path, root, depth);
    every_clean_at(
        schema::all_of(m),
        doc,
        path,
        root,
        depth + 1,
        schema::all_of(m).len() as int,
        i,
    );
}

proof fn flat_empty(s: Seq<Seq<schema::SchemaErrorView>>, i: int)
    requires
        schema::flat(s).len() == 0,
        0 <= i < s.len(),
    ensures
        s[i].len() == 0,
    decreases s.len(),
{
    if i < s.len() - 1 {
        flat_empty(s.drop_last(), i);
        assert(s.drop_last()[i] == s[i]);
    }
}

/// What a clean object is required to have, it has.
proof fn required_there(
    m: Map<Seq<char>, Tree>,
    f: Map<Seq<char>, Tree>,
    key: Seq<char>,
    path: Seq<char>,
    root: Tree,
    depth: nat,
)
    requires
        usable(Tree::Obj(m), root),
        depth <= schema::MAX_DEPTH,
        clean(Tree::Obj(m), Tree::Obj(f), path, root, depth),
        schema::required_names(m).contains(key),
    ensures
        f.dom().contains(key),
{
    keyword_by_keyword(m, Tree::Obj(f), path, root, depth);
    let names = schema::required_names(m);
    let i = names.index_of(key);
    flat_empty(
        Seq::new(
            names.len(),
            |j: int|
                if f.dom().contains(names[j]) {
                    schema::none()
                } else {
                    schema::one(path, "required property `"@ + names[j] + "` is missing"@)
                },
        ),
        i,
    );
}

/// The names of the types of values differ.
proof fn kinds_differ(doc: Tree)
    ensures
        schema::kind_name(doc) == "string"@ ==> doc is Str,
        schema::kind_name(doc) == "array"@ ==> doc is Arr,
        schema::kind_name(doc) == "object"@ ==> doc is Obj,
        schema::kind_name(doc) == "null"@ ==> doc is Null,
        "string"@ != "number"@,
        "array"@ != "number"@,
        "object"@ != "number"@,
        "null"@ != "number"@,
{
    reveal_strlit("null");
    reveal_strlit("boolean");
    reveal_strlit("integer");
    reveal_strlit("number");
    reveal_strlit("string");
    reveal_strlit("array");
    reveal_strlit("object");
    assert("string"@[0] == 's' && "number"@[0] == 'n' && "object"@[0] == 'o');
    assert("array"@.len() == 5 && "null"@.len() == 4);
    assert(schema::kind_name(doc).len() == 5 ==> doc is Arr);
    assert(schema::kind_name(doc).len() == 4 ==> doc is Null);
}

/// A clean value has the type that its schema names.
proof fn type_named(m: Map<Seq<char>, Tree>, name: Seq<char>, doc: Tree, path: Seq<char>, root: Tree, depth: nat)
    requires
        usable(Tree::Obj(m), root),
        depth <= schema::MAX_DEPTH,
        clean(Tree::Obj(m), doc, path, root, depth),
        json::member(m, "type"@) == Some(Tree::Str(name)),
        name != "number"@,
    ensures
        schema::kind_name(doc) == name,
{
    keyword_by_keyword(m, doc, path, root, depth);
    assert(schema::expected_types(m) == seq![name]);
    assert(schema::admits(seq![name], doc));
}

/// A clean text is not empty.
proof fn text_leaf(doc: Tree, path: Seq<char>, root: Tree, depth: nat)
    requires
        usable(manifest::text_schema(), root),
        depth <= schema::MAX_DEPTH,
        clean(manifest::text_schema(), doc, path, root, depth),
    ensures
        doc is Str,
        doc->Str_0.len() > 0,
{
    let m = manifest::text_schema()->Obj_0;
    reveal_strlit("type");
    reveal_strlit("minLength");
    assert("type"@.len() == 4 && "minLength"@.len() == 9);
    kinds_differ(doc);
    type_named(m, "string"@, doc, path, root, depth);
    keyword_by_keyword(m, doc, path, root, depth);
    assert(schema::min_length_errors(m, doc->Str_0, path).len() == 0);
}

/// A clean choice is out of its list.
proof fn choice_leaf(list: Seq<&'static str>, doc: Tree, path: Seq<char>, root: Tree, depth: nat)
    requires
        usable(manifest::choice_schema(list), root),
        depth <= schema::MAX_DEPTH,
        clean(manifest::choice_schema(list), doc, path, root, depth),
    ensures
        doc is Str,
        text::is_listed(list, doc->Str_0),
{
    let m = manifest::choice_schema(list)->Obj_0;
    reveal_strlit("type");
    reveal_strlit("enum");
    assert("type"@[0] == 't' && "enum"@[0] == 'e');
    kinds_differ(doc);
    type_named(m, "string"@, doc, path, root, depth);
    keyword_by_keyword(m, doc, path, root, depth);
    let all = json::str_trees(text::list_views(list));
    assert(json::member(m, "enum"@) == Some(Tree::Arr(all)));
    assert(schema::holds_value(all, doc));
    let i = choose|i: int| 0 <= i < all.len() && json::same_value(#[trigger] all[i], doc);
    assert(all[i] == Tree::Str(list[i]@));
}

/// A clean text matches its pattern.
proof fn pattern_leaf(p: Seq<char>, doc: Tree, path: Seq<char>, root: Tree, depth: nat)
    requires
        usable(manifest::pattern_schema(p), root),
        depth <= schema::MAX_DEPTH,
        clean(manifest::pattern_schema(p), doc, path, root, depth),
    ensures
        doc is Str,
        schema::matches_pattern(p, doc->Str_0),
{
    let m = manifest::pattern_schema(p)->Obj_0;
    reveal_strlit("type");
    reveal_strlit("pattern");
    assert("type"@.len() == 4 && "pattern"@.len() == 7);
    kinds_differ(doc);
    type_named(m, "string"@, doc, path, root, depth);
    keyword_by_keyword(m, doc, path, root, depth);
    assert(schema::pattern_errors(m, doc->Str_0, path).len() == 0);
}

/// A clean array has clean items.
proof fn array_leaf(items: Tree, doc: Tree, path: Seq<char>, root: Tree, depth: nat)
    requires
        usable(manifest::array_schema(items), root),
        depth < schema::MAX_DEPTH,
        clean(manifest::array_schema(items), doc, path, root, depth),
    ensures
        doc is Arr,
        usable(items, root),
        forall|i: int|
            0 <= i < doc->Arr_0.len() ==> clean(
                items,
                #[trigger] doc->Arr_0[i],
                schema::element(path, i as nat),
                root,
                depth + 1,
            ),
{
    let m = manifest::array_schema(items)->Obj_0;
    reveal_strlit("type");
    reveal_strlit("items");
    assert("type"@.len() == 4 && "items"@.len() == 5);
    kinds_differ(doc);
    type_named(m, "array"@, doc, path, root, depth);
    json::member_within(Tree::Obj(m), "items"@, root);
    let a = doc->Arr_0;
    assert forall|i: int| 0 <= i < a.len() implies clean(
        items,
        #[trigger] a[i],
        schema::element(path, i as nat),
        root,
        depth + 1,
    ) by {
        item_clean(m, a, i, path, root, depth);
    }
}

/// What a reference leads to is clean.
proof fn reference_leaf(target: Seq<char>, name: Seq<char>, doc: Tree, path: Seq<char>, root: Tree, depth: nat)
    requires
        usable(manifest::ref_schema(target), root),
        depth < schema::MAX_DEPTH,
        clean(manifest::ref_schema(target), doc, path, root, depth),
        text::after(target, "#/$defs/"@) == Some(name),
        json::lookup(root, "$defs"@) is Some,
        json::lookup(json::lookup(root, "$defs"@)->Some_0, name) is Some,
    ensures
        ({
            let found = json::lookup(json::lookup(root, "$defs"@)->Some_0, name)->Some_0;
            usable(found, root) && clean(found, doc, path, root, depth + 1)
        }),
{
    let part = manifest::ref_schema(target);
    assert(json::get_str(part, "$ref"@) == Some(target));
    schema::ref_within(part, root);
    keyword_by_keyword(part->Obj_0, doc, path, root, depth);
}

/// The texts among the values of a list of texts are the list.
proof fn texts_in_list(list: Seq<&'static str>)
    ensures
        schema::texts_in(json::str_trees(text::list_views(list))) == text::list_views(list),
    decreases list.len(),
{
    let all = json::str_trees(text::list_views(list));
    if list.len() == 0 {
        assert(text::list_views(list) =~= Seq::<Seq<char>>::empty());
    } else {
        texts_in_list(list.drop_last());
        assert(json::str_trees(text::list_views(list.drop_last())) =~= all.drop_last());
        assert(text::list_views(list) =~= text::list_views(list.drop_last()).push(list.last()@));
    }
}

/// The members of an object schema that the laws rest on.
proof fn object_members(required: Seq<&'static str>, p: Map<Seq<char>, Tree>)
    ensures
        json::member(manifest::object_schema(required, p), "type"@) == Some(Tree::Str("object"@)),
        json::member(manifest::object_schema(required, p), "required"@) == Some(
            manifest::list_tree(required),
        ),
        json::member(manifest::object_schema(required, p), "properties"@) == Some(Tree::Obj(p)),
{
    reveal_strlit("type");
    reveal_strlit("required");
    reveal_strlit("properties");
    reveal_strlit("additionalProperties");
    assert("type"@.len() == 4 && "required"@.len() == 8 && "properties"@.len() == 10
        && "additionalProperties"@.len() == 20);
}

/// A clean object has what its schema requires, each property clean.
proof fn object_leaf(
    m: Map<Seq<char>, Tree>,
    required: Seq<&'static str>,
    p: Map<Seq<char>, Tree>,
    doc: Tree,
    path: Seq<char>,
    root: Tree,
    depth: nat,
)
    requires
        usable(Tree::Obj(m), root),
        depth < schema::MAX_DEPTH,
        clean(Tree::Obj(m), doc, path, root, depth),
        json::member(m, "type"@) == Some(Tree::Str("object"@)),
        json::member(m, "required"@) == Some(manifest::list_tree(required)),
        json::member(m, "properties"@) == Some(Tree::Obj(p)),
    ensures
        doc is Obj,
        forall|i: int| 0 <= i < required.len() ==> doc->Obj_0.dom().contains(#[trigger] required[i]@),
        forall|key: Seq<char>|
            #![trigger p.dom().contains(key)]
            p.dom().contains(key) && doc->Obj_0.dom().contains(key) ==> usable(p[key], root) && clean(
                p[key],
                doc->Obj_0[key],
                schema::child(path, key),
                root,
                depth + 1,
            ),
{
    kinds_differ(doc);
    type_named(m, "object"@, doc, path, root, depth);
    let f = doc->Obj_0;
    texts_in_list(required);
    assert forall|i: int| 0 <= i < required.len() implies f.dom().contains(#[trigger] required[i]@) by {
        assert(text::list_views(required)[i] == required[i]@);
        assert(schema::required_names(m).contains(required[i]@));
        required_there(m, f, required[i]@, path, root, depth);
    }
    assert forall|key: Seq<char>|
        #![trigger p.dom().contains(key)]
        p.dom().contains(key) && f.dom().contains(key) implies usable(p[key], root) && clean(
        p[key],
        f[key],
        schema::child(path, key),
        root,
        depth + 1,
    ) by {
        property_clean(m, f, key, path, root, depth);
    }
}

/// One more sound member keeps an object sound.
broadcast proof fn sound_insert(m: Map<Seq<char>, Tree>, key: Seq<char>, t: Tree)
    requires
        json::sound(Tree::Obj(m)),
        json::sound(t),
    ensures
        #[trigger] json::sound(Tree::Obj(m.insert(key, t))),
{
}

/// A list of texts is sound.
broadcast proof fn sound_list(list: Seq<&'static str>)
    ensures
        #[trigger] json::sound(manifest::list_tree(list)),
{
    let all = json::str_trees(text::list_views(list));
    assert forall|i: int| 0 <= i < all.len() implies json::sound(#[trigger] all[i]) by {
        assert(all[i] is Str);
    }
}

/// The profile schema is finite at every level.
proof fn profile_schema_sound()
    ensures
        json::sound(manifest::profile_schema()),
{
    broadcast use {sound_insert, sound_list};

    assert(json::sound(Tree::Obj(manifest::no_members())));
    assert(json::sound(manifest::text_schema()));
    assert(json::sound(manifest::legal_basis_schema()));
    assert(json::sound(manifest::data_point_schema()));
    assert(json::sound(manifest::transform_schema()));
    let fact = manifest::case_schema("fact_predicate"@, ["predicate_ref"]@);
    let time = manifest::case_schema("time"@, ["basis", "operator", "duration"]@);
    assert(json::sound(fact));
    assert(json::sound(time));
    assert(json::sound(Tree::Arr(seq![fact, time])));
    assert(json::sound(manifest::trigger_schema()));
    assert(json::sound(Tree::Obj(manifest::profile_defs())));
    assert(json::sound(Tree::Obj(manifest::profile_properties())));
}

/// An object of one member lists that member's name alone.
proof fn single_order(key: Seq<char>, t: Tree)
    ensures
        json::key_order(manifest::no_members().insert(key, t)) == seq![key],
{
    let m = manifest::no_members().insert(key, t);
    let ks = listing(m);
    assert(json::ascending(ks) && json::lists(ks, m));
    let order = json::key_order(m);
    let want = seq![key];
    assert(want[0] == key);
    assert forall|k: Seq<char>| #[trigger] order.contains(k) <==> want.contains(k) by {
        if order.contains(k) {
            assert(m.dom().contains(k));
        }
        if want.contains(k) {
            assert(m.dom().contains(k));
        }
    }
    json::ascending_unique(order, want);
}

/// A trigger of a class meets the condition of that class.
proof fn condition_met(class: Seq<char>, f: Map<Seq<char>, Tree>)
    requires
        json::member(f, "predicate_class"@) == Some(Tree::Str(class)),
    ensures
        ({
            let case = manifest::case_schema(class, Seq::empty());
            let cond = json::lookup(case, "if"@)->Some_0;
            clean(cond, Tree::Obj(f), ""@, cond, 0)
        }),
{
    reveal(clean);
    broadcast use {sound_insert, sound_list, json::group_members};

    reveal_strlit("if");
    reveal_strlit("then");
    reveal_strlit("$ref");
    reveal_strlit("type");
    reveal_strlit("enum");
    reveal_strlit("const");
    reveal_strlit("required");
    reveal_strlit("properties");
    reveal_strlit("additionalProperties");
    reveal_strlit("minimum");
    reveal_strlit("allOf");
    reveal_strlit("minLength");
    reveal_strlit("pattern");
    assert("const"@[0] == 'c' && "allOf"@[0] == 'a');
    assert("if"@.len() == 2 && "then"@.len() == 4 && "$ref"@.len() == 4 && "type"@.len() == 4
        && "enum"@.len() == 4 && "const"@.len() == 5 && "required"@.len() == 8 && "properties"@.len() == 10
        && "additionalProperties"@.len() == 20 && "minimum"@.len() == 7 && "minLength"@.len() == 9
        && "pattern"@.len() == 7);
    let k = "predicate_class"@;
    let doc = Tree::Obj(f);
    let same = manifest::no_members().insert("const"@, Tree::Str(class));
    let p = manifest::no_members().insert(k, Tree::Obj(same));
    let m = manifest::no_members().insert("properties"@, Tree::Obj(p)).insert(
        "required"@,
        manifest::list_tree(["predicate_class"]@),
    );
    let cond = Tree::Obj(m);
    assert(json::lookup(manifest::case_schema(class, Seq::empty()), "if"@) == Some(cond));
    assert(json::sound(Tree::Obj(manifest::no_members())));
    assert(json::sound(cond));
    // the class itself
    json::member_within(cond, "properties"@, cond);
    json::member_within(Tree::Obj(p), k, cond);
    let inner_path = schema::child(""@, k);
    assert(clean(Tree::Obj(same), f[k], inner_path, cond, 1)) by {
        assert(schema::ref_target(Tree::Obj(same), cond) is None);
        assert(schema::all_of(same).len() == 0);
        assert(schema::every_errors(schema::all_of(same), f[k], inner_path, cond, 2, 0).len() == 0);
        assert(schema::const_errors(same, f[k], inner_path).len() == 0);
    }
    // the class is there
    single_order(k, Tree::Obj(same));
    let one = schema::property_errors(p, f, ""@, cond, 1, 1);
    let zero = schema::property_errors(p, f, ""@, cond, 1, 0);
    assert(zero.len() == 0);
    assert(one == zero + schema::errors_at(p[k], f[k], inner_path, cond, 1));
    texts_in_list(["predicate_class"]@);
    assert(schema::required_names(m) =~= seq![k]) by {
        assert(text::list_views(["predicate_class"]@) =~= seq![k]);
    }
    assert(schema::required_errors(m, f, ""@).len() == 0) by {
        let s = Seq::new(
            1,
            |j: int|
                if f.dom().contains(seq![k][j]) {
                    schema::none()
                } else {
                    schema::one(""@, "required property `"@ + seq![k][j] + "` is missing"@)
                },
        );
        assert(s.drop_last() =~= Seq::empty());
        assert(schema::flat(s.drop_last()).len() == 0);
        assert(s.last().len() == 0);
        assert(schema::flat(s).len() == 0);
        let names = schema::required_names(m);
        assert(Seq::new(
            names.len(),
            |i: int|
                if f.dom().contains(names[i]) {
                    schema::none()
                } else {
                    schema::one(""@, "required property `"@ + names[i] + "` is missing"@)
                },
        ) =~= s);
    }
    assert(schema::ref_target(cond, cond) is None);
    assert(schema::all_of(m).len() == 0);
    assert(schema::every_errors(schema::all_of(m), doc, ""@, cond, 1, 0).len() == 0);
    assert(schema::properties(m) == Some(p));
    assert(schema::extra_errors(m, f, ""@).len() == 0);
}

/// The two patterns differ.
proof fn patterns_differ()
    ensures
        schema::DURATION_PATTERN@ != schema::CARDINALITY_PATTERN@,
{
    reveal_strlit("^[0-9]+(\\.\\.([0-9]+|n))?$");
    reveal_strlit(
        "^P(?!$)([0-9]+Y)?([0-9]+M)?([0-9]+W)?([0-9]+D)?(T(?=[0-9])([0-9]+H)?([0-9]+M)?([0-9]+S)?)?$",
    );
    assert(schema::DURATION_PATTERN@[1] == 'P');
    assert(schema::CARDINALITY_PATTERN@[1] == '[');
}

/// A clean duration parses.
proof fn duration_leaf(doc: Tree, path: Seq<char>, root: Tree, depth: nat)
    requires
        usable(manifest::pattern_schema(schema::DURATION_PATTERN@), root),
        depth <= schema::MAX_DEPTH,
        clean(manifest::pattern_schema(schema::DURATION_PATTERN@), doc, path, root, depth),
    ensures
        doc is Str,
        doc->Str_0.len() > 0,
        clock::parsed_duration(doc->Str_0) is Ok,
{
    pattern_leaf(schema::DURATION_PATTERN@, doc, path, root, depth);
    patterns_differ();
}

/// The fixed choices are not empty.
proof fn choices_not_empty(s: Seq<char>)
    ensures
        text::is_listed(manifest::AXES@, s) ==> s.len() > 0,
        text::is_listed(satisfiability::CAPABILITY_CLASSES@, s) ==> s.len() > 0,
        text::is_listed(clock::BASES@, s) ==> s.len() > 0,
        text::is_listed(clock::OPERATORS@, s) ==> s.len() > 0,
        text::is_listed(mapping::MAPPING_TYPES@, s) ==> s.len() > 0,
{
    reveal_strlit("jurisdiction");
    reveal_strlit("sector");
    reveal_strlit("characteristic");
    reveal_strlit("S0");
    reveal_strlit("S1");
    reveal_strlit("S2");
    reveal_strlit("S3");
    reveal_strlit("manufactured_at");
    reveal_strlit("first_registered_at");
    reveal_strlit(">=");
    reveal_strlit(">");
    reveal_strlit("<=");
    reveal_strlit("<");
    reveal_strlit("equivalent");
    reveal_strlit("narrower");
    reveal_strlit("broader");
    reveal_strlit("related");
}

/// A class's requirements hold of a clean trigger of that class.
proof fn case_holds(
    class: Seq<char>,
    required: Seq<&'static str>,
    f: Map<Seq<char>, Tree>,
    path: Seq<char>,
    root: Tree,
    depth: nat,
)
    requires
        usable(manifest::case_schema(class, required), root),
        depth < schema::MAX_DEPTH,
        clean(manifest::case_schema(class, required), Tree::Obj(f), path, root, depth),
        json::member(f, "predicate_class"@) == Some(Tree::Str(class)),
    ensures
        forall|i: int| 0 <= i < required.len() ==> f.dom().contains(#[trigger] required[i]@),
{
    reveal_strlit("if");
    reveal_strlit("then");
    assert("if"@.len() == 2 && "then"@.len() == 4);
    let case = manifest::case_schema(class, required);
    let m = case->Obj_0;
    condition_met(class, f);
    let cond = json::member(m, "if"@)->Some_0;
    assert(json::lookup(manifest::case_schema(class, Seq::empty()), "if"@) == Some(cond));
    keyword_by_keyword(m, Tree::Obj(f), path, root, depth);
    json::member_within(case, "then"@, root);
    let need = manifest::no_members().insert("required"@, manifest::list_tree(required));
    assert(json::member(m, "then"@) == Some(Tree::Obj(need)));
    texts_in_list(required);
    assert forall|i: int| 0 <= i < required.len() implies f.dom().contains(#[trigger] required[i]@) by {
        assert(text::list_views(required)[i] == required[i]@);
        assert(schema::required_names(need).contains(required[i]@));
        required_there(need, f, required[i]@, path, root, depth + 1);
    }
}

/// The properties of a trigger that its parser reads.
proof fn trigger_members()
    ensures
        ({
            let p = manifest::trigger_properties();
            &&& json::member(p, "predicate_class"@) == Some(
                manifest::choice_schema(manifest::PREDICATE_CLASSES@),
            )
            &&& json::member(p, "predicate_ref"@) == Some(manifest::text_schema())
            &&& json::member(p, "basis"@) == Some(manifest::choice_schema(clock::BASES@))
            &&& json::member(p, "operator"@) == Some(manifest::choice_schema(clock::OPERATORS@))
            &&& json::member(p, "duration"@) == Some(
                manifest::pattern_schema(schema::DURATION_PATTERN@),
            )
        }),
{
    reveal_strlit("predicate_class");
    reveal_strlit("predicate_ref");
    reveal_strlit("evaluation_mode");
    reveal_strlit("description");
    reveal_strlit("basis");
    reveal_strlit("operator");
    reveal_strlit("duration");
    assert("predicate_class"@.len() == 15 && "predicate_ref"@.len() == 13 && "evaluation_mode"@.len() == 15
        && "description"@.len() == 11 && "basis"@.len() == 5 && "operator"@.len() == 8 && "duration"@.len()
        == 8);
    assert("predicate_class"@[0] == 'p' && "evaluation_mode"@[0] == 'e' && "operator"@[0] == 'o'
        && "duration"@[0] == 'd');
}

/// The schema of a trigger as an object schema with two cases.
proof fn trigger_schema_members(m: Map<Seq<char>, Tree>)
    requires
        manifest::trigger_schema() == Tree::Obj(m),
    ensures
        json::member(m, "type"@) == Some(Tree::Str("object"@)),
        json::member(m, "required"@) == Some(manifest::list_tree(["predicate_class"]@)),
        json::member(m, "properties"@) == Some(Tree::Obj(manifest::trigger_properties())),
        schema::all_of(m) == seq![
            manifest::case_schema("fact_predicate"@, ["predicate_ref"]@),
            manifest::case_schema("time"@, ["basis", "operator", "duration"]@),
        ],
{
    object_members(["predicate_class"]@, manifest::trigger_properties());
    reveal_strlit("allOf");
    reveal_strlit("type");
    reveal_strlit("required");
    reveal_strlit("properties");
    assert("allOf"@.len() == 5 && "type"@.len() == 4 && "required"@.len() == 8 && "properties"@.len() == 10);
}

/// A fact trigger with its reference parses.
proof fn fact_reads(f: Map<Seq<char>, Tree>)
    requires
        json::member(f, "predicate_class"@) == Some(Tree::Str("fact_predicate"@)),
        json::member(f, "predicate_ref"@) matches Some(Tree::Str(r)) && r.len() > 0,
    ensures
        manifest::parsed_predicate(Tree::Obj(f)) is Ok,
{
}

/// A time trigger with its basis, operator and duration parses.
proof fn time_reads(f: Map<Seq<char>, Tree>, basis: Seq<char>, operator: Seq<char>, duration: Seq<char>)
    requires
        json::member(f, "predicate_class"@) == Some(Tree::Str("time"@)),
        json::member(f, "basis"@) == Some(Tree::Str(basis)),
        json::member(f, "operator"@) == Some(Tree::Str(operator)),
        json::member(f, "duration"@) == Some(Tree::Str(duration)),
        text::is_listed(clock::BASES@, basis),
        text::is_listed(clock::OPERATORS@, operator),
        duration.len() > 0,
        clock::parsed_duration(duration) is Ok,
    ensures
        manifest::parsed_predicate(Tree::Obj(f)) is Ok,
{
    choices_not_empty(basis);
    choices_not_empty(operator);
    assert(clock::parsed_trigger(Tree::Obj(f)) is Ok);
    assert("fact_predicate"@ != "time"@) by {
        reveal_strlit("fact_predicate");
        reveal_strlit("time");
        assert("fact_predicate"@.len() == 14 && "time"@.len() == 4);
    }
}

/// A clean trigger parses.
proof fn trigger_reads(t: Tree, path: Seq<char>, root: Tree, depth: nat)
    requires
        usable(manifest::trigger_schema(), root),
        depth + 2 < schema::MAX_DEPTH,
        clean(manifest::trigger_schema(), t, path, root, depth),
    ensures
        manifest::parsed_predicate(t) is Ok,
{
    let m = manifest::trigger_schema()->Obj_0;
    let p = manifest::trigger_properties();
    trigger_schema_members(m);
    trigger_members();
    object_leaf(m, ["predicate_class"]@, p, t, path, root, depth);
    let f = t->Obj_0;
    assert(f.dom().contains(["predicate_class"]@[0]@));
    assert(p.dom().contains("predicate_class"@));
    let class = f["predicate_class"@];
    choice_leaf(
        manifest::PREDICATE_CLASSES@,
        class,
        schema::child(path, "predicate_class"@),
        root,
        depth + 1,
    );
    every_clean(m, t, 0, path, root, depth);
    every_clean(m, t, 1, path, root, depth);
    let s = class->Str_0;
    assert(s == "fact_predicate"@ || s == "time"@) by {
        let i = choose|i: int|
            0 <= i < manifest::PREDICATE_CLASSES@.len() && #[trigger] manifest::PREDICATE_CLASSES@[i]@ == s;
        assert(i == 0 || i == 1);
    }
    if s == "fact_predicate"@ {
        case_holds(s, ["predicate_ref"]@, f, path, root, depth + 1);
        assert(f.dom().contains(["predicate_ref"]@[0]@));
        assert(p.dom().contains("predicate_ref"@));
        text_leaf(f["predicate_ref"@], schema::child(path, "predicate_ref"@), root, depth + 1);
        fact_reads(f);
    } else {
        let need = ["basis", "operator", "duration"]@;
        case_holds(s, need, f, path, root, depth + 1);
        assert(f.dom().contains(need[0]@) && f.dom().contains(need[1]@) && f.dom().contains(need[2]@));
        assert(p.dom().contains("basis"@) && p.dom().contains("operator"@) && p.dom().contains("duration"@));
        choice_leaf(clock::BASES@, f["basis"@], schema::child(path, "basis"@), root, depth + 1);
        choice_leaf(clock::OPERATORS@, f["operator"@], schema::child(path, "operator"@), root, depth + 1);
        duration_leaf(f["duration"@], schema::child(path, "duration"@), root, depth + 1);
        time_reads(f, f["basis"@]->Str_0, f["operator"@]->Str_0, f["duration"@]->Str_0);
    }
}

/// The properties of a data point that its parser reads.
proof fn point_members()
    ensures
        ({
            let p = manifest::point_properties();
            &&& json::member(p, "element"@) == Some(manifest::text_schema())
            &&& json::member(p, "min_capability"@) == Some(
                manifest::choice_schema(satisfiability::CAPABILITY_CLASSES@),
            )
            &&& json::member(p, "fresh_within"@) == Some(
                manifest::pattern_schema(schema::DURATION_PATTERN@),
            )
        }),
{
    broadcast use json::group_members;

    reveal_strlit("element");
    reveal_strlit("min_capability");
    reveal_strlit("cardinality");
    reveal_strlit("required_provenance");
    reveal_strlit("required_unit");
    reveal_strlit("subject_granularity");
    reveal_strlit("tier_a");
    reveal_strlit("traversal_depth");
    reveal_strlit("trust_floor");
    reveal_strlit("fresh_within");
    reveal_strlit("visibility");
    assert("element"@.len() == 7 && "min_capability"@.len() == 14 && "cardinality"@.len() == 11
        && "required_provenance"@.len() == 19 && "required_unit"@.len() == 13 && "subject_granularity"@.len()
        == 19 && "tier_a"@.len() == 6 && "traversal_depth"@.len() == 15 && "trust_floor"@.len() == 11
        && "fresh_within"@.len() == 12 && "visibility"@.len() == 10);
}

/// A clean data point parses.
proof fn point_reads(t: Tree, path: Seq<char>, root: Tree, depth: nat)
    requires
        usable(manifest::data_point_schema(), root),
        depth + 2 < schema::MAX_DEPTH,
        clean(manifest::data_point_schema(), t, path, root, depth),
    ensures
        manifest::parsed_point(t) is Ok,
{
    let m = manifest::data_point_schema()->Obj_0;
    let p = manifest::point_properties();
    let need = ["element", "min_capability"]@;
    point_members();
    object_members(need, p);
    object_leaf(m, need, p, t, path, root, depth);
    let f = t->Obj_0;
    assert(f.dom().contains(need[0]@) && f.dom().contains(need[1]@));
    assert(p.dom().contains("element"@) && p.dom().contains("min_capability"@) && p.dom().contains(
        "fresh_within"@,
    ));
    text_leaf(f["element"@], schema::child(path, "element"@), root, depth + 1);
    let class = f["min_capability"@];
    choice_leaf(
        satisfiability::CAPABILITY_CLASSES@,
        class,
        schema::child(path, "min_capability"@),
        root,
        depth + 1,
    );
    choices_not_empty(class->Str_0);
    if f.dom().contains("fresh_within"@) {
        duration_leaf(f["fresh_within"@], schema::child(path, "fresh_within"@), root, depth + 1);
    }
}

proof fn points_read(ts: Seq<Tree>, n: int)
    requires
        0 <= n <= ts.len(),
        forall|i: int| 0 <= i < ts.len() ==> manifest::parsed_point(#[trigger] ts[i]) is Ok,
    ensures
        manifest::parsed_points(ts, n) is Ok,
    decreases n,
{
    if n > 0 {
        points_read(ts, n - 1);
        assert(manifest::parsed_point(ts[n - 1]) is Ok);
    }
}

proof fn triggers_read(ts: Seq<Tree>, n: int)
    requires
        0 <= n <= ts.len(),
        forall|i: int| 0 <= i < ts.len() ==> manifest::parsed_predicate(#[trigger] ts[i]) is Ok,
    ensures
        manifest::parsed_predicates(ts, n) is Ok,
    decreases n,
{
    if n > 0 {
        triggers_read(ts, n - 1);
        assert(manifest::parsed_predicate(ts[n - 1]) is Ok);
    }
}

proof fn axes_read(ts: Seq<Tree>, key: Seq<char>, n: int)
    requires
        0 <= n <= ts.len(),
        forall|i: int| 0 <= i < ts.len() ==> (#[trigger] ts[i]) is Str && ts[i]->Str_0.len() > 0,
    ensures
        manifest::texts_of(ts, key, n) is Ok,
    decreases n,
{
    if n > 0 {
        axes_read(ts, key, n - 1);
        assert(ts[n - 1] is Str);
    }
}

/// The properties and definitions of the profile schema.
proof fn profile_members()
    ensures
        ({
            let m = manifest::profile_schema()->Obj_0;
            let p = manifest::profile_properties();
            let d = manifest::profile_defs();
            &&& json::member(m, "type"@) == Some(Tree::Str("object"@))
            &&& json::member(m, "required"@) == Some(manifest::list_tree(["version"]@))
            &&& json::member(m, "properties"@) == Some(Tree::Obj(p))
            &&& json::member(m, "$defs"@) == Some(Tree::Obj(d))
            &&& json::member(p, "version"@) == Some(manifest::text_schema())
            &&& json::member(p, "subject_capability"@) == Some(
                manifest::choice_schema(satisfiability::CAPABILITY_CLASSES@),
            )
            &&& json::member(p, "axes"@) == Some(
                manifest::array_schema(manifest::choice_schema(manifest::AXES@)),
            )
            &&& json::member(p, "legal_basis"@) == Some(
                manifest::array_schema(manifest::ref_schema("#/$defs/legal_basis"@)),
            )
            &&& json::member(p, "data_points"@) == Some(
                manifest::array_schema(manifest::ref_schema("#/$defs/data_point"@)),
            )
            &&& json::member(p, "transforms"@) == Some(
                manifest::array_schema(manifest::ref_schema("#/$defs/transform"@)),
            )
            &&& json::member(p, "triggers"@) == Some(
                manifest::array_schema(manifest::ref_schema("#/$defs/trigger"@)),
            )
            &&& json::member(d, "data_point"@) == Some(manifest::data_point_schema())
            &&& json::member(d, "trigger"@) == Some(manifest::trigger_schema())
        }),
{
    broadcast use json::group_members;

    object_members(["version"]@, manifest::profile_properties());
    reveal_strlit("type");
    reveal_strlit("required");
    reveal_strlit("properties");
    reveal_strlit("$schema");
    reveal_strlit("$id");
    reveal_strlit("title");
    reveal_strlit("description");
    reveal_strlit("$defs");
    assert("type"@.len() == 4 && "required"@.len() == 8 && "properties"@.len() == 10 && "$schema"@.len() == 7
        && "$id"@.len() == 3 && "title"@.len() == 5 && "description"@.len() == 11 && "$defs"@.len() == 5);
    reveal_strlit("version");
    reveal_strlit("subject_capability");
    reveal_strlit("axes");
    reveal_strlit("legal_basis");
    reveal_strlit("data_points");
    reveal_strlit("transforms");
    reveal_strlit("triggers");
    assert("version"@.len() == 7 && "subject_capability"@.len() == 18 && "axes"@.len() == 4
        && "legal_basis"@.len() == 11 && "data_points"@.len() == 11 && "transforms"@.len() == 10
        && "triggers"@.len() == 8);
    assert("legal_basis"@[0] == 'l' && "data_points"@[0] == 'd');
    reveal_strlit("data_point");
    reveal_strlit("transform");
    reveal_strlit("trigger");
    assert("data_point"@.len() == 10 && "transform"@.len() == 9 && "trigger"@.len() == 7);
}

/// Where the references of the profile schema lead.
proof fn profile_references()
    ensures
        text::after("#/$defs/data_point"@, "#/$defs/"@) == Some("data_point"@),
        text::after("#/$defs/trigger"@, "#/$defs/"@) == Some("trigger"@),
{
    reveal_strlit("#/$defs/");
    reveal_strlit("#/$defs/data_point");
    reveal_strlit("#/$defs/trigger");
    reveal_strlit("data_point");
    reveal_strlit("trigger");
    assert("#/$defs/"@ + "data_point"@ =~= "#/$defs/data_point"@);
    assert("#/$defs/"@ + "trigger"@ =~= "#/$defs/trigger"@);
    text::after_prefix("#/$defs/"@, "data_point"@);
    text::after_prefix("#/$defs/"@, "trigger"@);
}

/// The triggers of a clean manifest parse.
proof fn trigger_list_reads(doc: Tree, path: Seq<char>)
    requires
        usable(
            manifest::array_schema(manifest::ref_schema("#/$defs/trigger"@)),
            manifest::profile_schema(),
        ),
        clean(
            manifest::array_schema(manifest::ref_schema("#/$defs/trigger"@)),
            doc,
            path,
            manifest::profile_schema(),
            1,
        ),
    ensures
        doc is Arr,
        manifest::parsed_predicates(doc->Arr_0, doc->Arr_0.len() as int) is Ok,
{
    let root = manifest::profile_schema();
    array_leaf(manifest::ref_schema("#/$defs/trigger"@), doc, path, root, 1);
    let a = doc->Arr_0;
    assert forall|i: int| 0 <= i < a.len() implies manifest::parsed_predicate(#[trigger] a[i]) is Ok by {
        let here = schema::element(path, i as nat);
        profile_members();
        profile_references();
        reference_leaf("#/$defs/trigger"@, "trigger"@, a[i], here, root, 2);
        trigger_reads(a[i], here, root, 3);
    }
    triggers_read(a, a.len() as int);
}

/// The data points of a clean manifest parse.
proof fn point_list_reads(doc: Tree, path: Seq<char>)
    requires
        usable(
            manifest::array_schema(manifest::ref_schema("#/$defs/data_point"@)),
            manifest::profile_schema(),
        ),
        clean(
            manifest::array_schema(manifest::ref_schema("#/$defs/data_point"@)),
            doc,
            path,
            manifest::profile_schema(),
            1,
        ),
    ensures
        doc is Arr,
        manifest::parsed_points(doc->Arr_0, doc->Arr_0.len() as int) is Ok,
{
    let root = manifest::profile_schema();
    array_leaf(manifest::ref_schema("#/$defs/data_point"@), doc, path, root, 1);
    let a = doc->Arr_0;
    assert forall|i: int| 0 <= i < a.len() implies manifest::parsed_point(#[trigger] a[i]) is Ok by {
        let here = schema::element(path, i as nat);
        profile_members();
        profile_references();
        reference_leaf("#/$defs/data_point"@, "data_point"@, a[i], here, root, 2);
        point_reads(a[i], here, root, 3);
    }
    points_read(a, a.len() as int);
}

/// The axes of a clean manifest parse.
proof fn axis_list_reads(doc: Tree, path: Seq<char>, root: Tree)
    requires
        usable(manifest::array_schema(manifest::choice_schema(manifest::AXES@)), root),
        clean(manifest::array_schema(manifest::choice_schema(manifest::AXES@)), doc, path, root, 1),
    ensures
        doc is Arr,
        manifest::texts_of(doc->Arr_0, "axes"@, doc->Arr_0.len() as int) is Ok,
{
    array_leaf(manifest::choice_schema(manifest::AXES@), doc, path, root, 1);
    let a = doc->Arr_0;
    assert forall|i: int| 0 <= i < a.len() implies (#[trigger] a[i]) is Str && a[i]->Str_0.len() > 0 by {
        choice_leaf(manifest::AXES@, a[i], schema::element(path, i as nat), root, 2);
        choices_not_empty(a[i]->Str_0);
    }
    axes_read(a, "axes"@, a.len() as int);
}

/// What a clean manifest has, part by part.
proof fn profile_parts(t: Tree)
    requires
        schema::violations(manifest::profile_schema(), t).len() == 0,
    ensures
        t is Obj,
        json::member(t->Obj_0, "version"@) matches Some(Tree::Str(v)) && v.len() > 0,
        manifest::declared_class(t->Obj_0) is Ok,
        json::member(t->Obj_0, "triggers"@) matches Some(x) ==> x is Arr && manifest::parsed_predicates(
            x->Arr_0,
            x->Arr_0.len() as int,
        ) is Ok,
        json::member(t->Obj_0, "data_points"@) matches Some(x) ==> x is Arr && manifest::parsed_points(
            x->Arr_0,
            x->Arr_0.len() as int,
        ) is Ok,
        json::member(t->Obj_0, "axes"@) matches Some(x) ==> x is Arr && manifest::texts_of(
            x->Arr_0,
            "axes"@,
            x->Arr_0.len() as int,
        ) is Ok,
        json::member(t->Obj_0, "legal_basis"@) matches Some(x) ==> x is Arr,
        json::member(t->Obj_0, "transforms"@) matches Some(x) ==> x is Arr,
{
    let root = manifest::profile_schema();
    let p = manifest::profile_properties();
    let top = ""@;
    profile_schema_sound();
    profile_members();
    assert(usable(root, root));
    assert(clean(root, t, top, root, 0)) by {
        reveal(clean);
    }
    object_leaf(root->Obj_0, ["version"]@, p, t, top, root, 0);
    let f = t->Obj_0;
    assert(f.dom().contains(["version"]@[0]@));
    assert(p.dom().contains("version"@) && p.dom().contains("subject_capability"@) && p.dom().contains(
        "triggers"@,
    ) && p.dom().contains("data_points"@) && p.dom().contains("axes"@) && p.dom().contains(
        "legal_basis"@,
    ) && p.dom().contains("transforms"@));
    text_leaf(f["version"@], schema::child(top, "version"@), root, 1);
    if f.dom().contains("subject_capability"@) {
        let c = f["subject_capability"@];
        choice_leaf(
            satisfiability::CAPABILITY_CLASSES@,
            c,
            schema::child(top, "subject_capability"@),
            root,
            1,
        );
        choices_not_empty(c->Str_0);
    }
    if f.dom().contains("triggers"@) {
        trigger_list_reads(f["triggers"@], schema::child(top, "triggers"@));
    }
    if f.dom().contains("data_points"@) {
        point_list_reads(f["data_points"@], schema::child(top, "data_points"@));
    }
    if f.dom().contains("axes"@) {
        axis_list_reads(f["axes"@], schema::child(top, "axes"@), root);
    }
    if f.dom().contains("legal_basis"@) {
        array_leaf(
            manifest::ref_schema("#/$defs/legal_basis"@),
            f["legal_basis"@],
            schema::child(top, "legal_basis"@),
            root,
            1,
        );
    }
    if f.dom().contains("transforms"@) {
        array_leaf(
            manifest::ref_schema("#/$defs/transform"@),
            f["transforms"@],
            schema::child(top, "transforms"@),
            root,
            1,
        );
    }
}

/// A profile manifest that the schema accepts parses into the typed model.
pub proof fn valid_profiles_parse(t: Tree)
    requires
        schema::violations(manifest::profile_schema(), t).len() == 0,
    ensures
        manifest::parsed_manifest(t) is Ok,
{
    profile_parts(t);
    assert(manifest::parsed_points(Seq::empty(), 0) is Ok);
    assert(manifest::parsed_predicates(Seq::empty(), 0) is Ok);
    assert(manifest::texts_of(Seq::empty(), "axes"@, 0) is Ok);
}

/// Where every trigger parses, the time triggers can be collected.
proof fn parsed_triggers_collect(ts: Seq<Tree>, n: int)
    requires
        0 <= n <= ts.len(),
        manifest::parsed_predicates(ts, n) is Ok,
    ensures
        clock::collected(ts, n) is Ok,
    decreases n,
{
    if n > 0 {
        parsed_triggers_collect(ts, n - 1);
        assert(manifest::parsed_predicate(ts[n - 1]) is Ok);
        assert("fact_predicate"@ != "time"@) by {
            reveal_strlit("fact_predicate");
            reveal_strlit("time");
            assert("fact_predicate"@.len() == 14 && "time"@.len() == 4);
        }
    }
}

/// The time triggers of a manifest that the schema accepts can be
/// evaluated: none of them is malformed.
pub proof fn valid_profiles_can_be_evaluated(t: Tree)
    requires
        schema::violations(manifest::profile_schema(), t).len() == 0,
    ensures
        clock::manifest_triggers(t) is Ok,
{
    profile_parts(t);
    let f = t->Obj_0;
    if f.dom().contains("triggers"@) {
        let a = f["triggers"@]->Arr_0;
        parsed_triggers_collect(a, a.len() as int);
    }
}

/// The mapping schema is finite at every level.
proof fn mapping_schema_sound()
    ensures
        json::sound(mapping::mapping_schema()),
{
    broadcast use {sound_insert, sound_list};

    assert(json::sound(Tree::Obj(manifest::no_members())));
    assert(json::sound(manifest::text_schema()));
    assert(json::sound(mapping::item_ref_schema()));
    assert(json::sound(Tree::Obj(mapping::mapping_properties())));
}

/// A clean version pin is a text that is not empty, or `null`.
proof fn pin_leaf(doc: Tree, path: Seq<char>, root: Tree, depth: nat)
    requires
        usable(mapping::pin_schema(), root),
        depth <= schema::MAX_DEPTH,
        clean(mapping::pin_schema(), doc, path, root, depth),
    ensures
        doc is Null || (doc is Str && doc->Str_0.len() > 0),
{
    let m = mapping::pin_schema()->Obj_0;
    let kinds = ["string", "null"]@;
    reveal_strlit("type");
    reveal_strlit("minLength");
    assert("type"@.len() == 4 && "minLength"@.len() == 9);
    keyword_by_keyword(m, doc, path, root, depth);
    texts_in_list(kinds);
    assert(schema::expected_types(m) == text::list_views(kinds));
    kinds_differ(doc);
    assert(text::list_views(kinds) =~= seq!["string"@, "null"@]);
    assert(schema::admits(text::list_views(kinds), doc));
    let i = text::list_views(kinds).index_of(schema::kind_name(doc));
    assert(i == 0 || i == 1);
    if doc is Str {
        assert(schema::min_length_errors(m, doc->Str_0, path).len() == 0);
    }
}

/// The properties of one end of a mapping.
proof fn end_members(p: Map<Seq<char>, Tree>)
    requires
        p == manifest::no_members().insert("register"@, manifest::text_schema()).insert(
            "item"@,
            manifest::text_schema(),
        ).insert("version"@, mapping::pin_schema()),
    ensures
        json::member(p, "register"@) == Some(manifest::text_schema()),
        json::member(p, "item"@) == Some(manifest::text_schema()),
        json::member(p, "version"@) == Some(mapping::pin_schema()),
{
    reveal_strlit("register");
    reveal_strlit("item");
    reveal_strlit("version");
    assert("register"@.len() == 8 && "item"@.len() == 4 && "version"@.len() == 7);
}

/// A clean end of a mapping parses.
proof fn end_reads(f: Map<Seq<char>, Tree>, side: Seq<char>, path: Seq<char>, root: Tree, depth: nat)
    requires
        usable(mapping::item_ref_schema(), root),
        depth + 2 < schema::MAX_DEPTH,
        f.dom().contains(side),
        clean(mapping::item_ref_schema(), f[side], path, root, depth),
    ensures
        mapping::parsed_end(f, side) is Ok,
{
    let m = mapping::item_ref_schema()->Obj_0;
    let p = manifest::no_members().insert("register"@, manifest::text_schema()).insert(
        "item"@,
        manifest::text_schema(),
    ).insert("version"@, mapping::pin_schema());
    object_members(["item"]@, p);
    end_members(p);
    object_leaf(m, ["item"]@, p, f[side], path, root, depth);
    let o = f[side]->Obj_0;
    assert(o.dom().contains(["item"]@[0]@));
    assert(p.dom().contains("item"@) && p.dom().contains("register"@) && p.dom().contains("version"@));
    text_leaf(o["item"@], schema::child(path, "item"@), root, depth + 1);
    if o.dom().contains("register"@) {
        text_leaf(o["register"@], schema::child(path, "register"@), root, depth + 1);
    }
    if o.dom().contains("version"@) {
        pin_leaf(o["version"@], schema::child(path, "version"@), root, depth + 1);
    }
}

/// The properties and definitions of the mapping schema.
proof fn mapping_members()
    ensures
        ({
            let m = mapping::mapping_schema()->Obj_0;
            let p = mapping::mapping_properties();
            let d = manifest::no_members().insert("item_ref"@, mapping::item_ref_schema());
            &&& json::member(m, "type"@) == Some(Tree::Str("object"@))
            &&& json::member(m, "required"@) == Some(
                manifest::list_tree(["version", "source", "target", "mapping_type"]@),
            )
            &&& json::member(m, "properties"@) == Some(Tree::Obj(p))
            &&& json::member(m, "$defs"@) == Some(Tree::Obj(d))
            &&& json::member(p, "source"@) == Some(manifest::ref_schema("#/$defs/item_ref"@))
            &&& json::member(p, "target"@) == Some(manifest::ref_schema("#/$defs/item_ref"@))
            &&& json::member(p, "mapping_type"@) == Some(
                manifest::choice_schema(mapping::MAPPING_TYPES@),
            )
            &&& json::member(p, "attester"@) == Some(manifest::text_schema())
            &&& json::member(p, "evidence_ref"@) == Some(manifest::text_schema())
            &&& text::after("#/$defs/item_ref"@, "#/$defs/"@) == Some("item_ref"@)
        }),
{
    broadcast use json::group_members;

    object_members(["version", "source", "target", "mapping_type"]@, mapping::mapping_properties());
    reveal_strlit("type");
    reveal_strlit("required");
    reveal_strlit("properties");
    reveal_strlit("$schema");
    reveal_strlit("$id");
    reveal_strlit("title");
    reveal_strlit("description");
    reveal_strlit("$defs");
    assert("type"@.len() == 4 && "required"@.len() == 8 && "properties"@.len() == 10 && "$schema"@.len() == 7
        && "$id"@.len() == 3 && "title"@.len() == 5 && "description"@.len() == 11 && "$defs"@.len() == 5);
    reveal_strlit("version");
    reveal_strlit("source");
    reveal_strlit("target");
    reveal_strlit("mapping_type");
    reveal_strlit("attester");
    reveal_strlit("evidence_ref");
    assert("version"@.len() == 7 && "source"@.len() == 6 && "target"@.len() == 6 && "mapping_type"@.len() == 12
        && "attester"@.len() == 8 && "evidence_ref"@.len() == 12);
    assert("source"@[0] == 's' && "target"@[0] == 't' && "mapping_type"@[0] == 'm' && "evidence_ref"@[0] == 'e');
    reveal_strlit("#/$defs/");
    reveal_strlit("#/$defs/item_ref");
    reveal_strlit("item_ref");
    assert("#/$defs/"@ + "item_ref"@ =~= "#/$defs/item_ref"@);
    text::after_prefix("#/$defs/"@, "item_ref"@);
}

/// A mapping manifest that the schema accepts parses into the typed model.
pub proof fn valid_mappings_parse(t: Tree)
    requires
        schema::violations(mapping::mapping_schema(), t).len() == 0,
    ensures
        mapping::parsed_mapping(t) is Ok,
{
    let root = mapping::mapping_schema();
    let m = root->Obj_0;
    let p = mapping::mapping_properties();
    let need = ["version", "source", "target", "mapping_type"]@;
    let top = ""@;
    mapping_schema_sound();
    mapping_members();
    assert(usable(root, root));
    assert(clean(root, t, top, root, 0)) by {
        reveal(clean);
    }
    object_leaf(m, need, p, t, top, root, 0);
    let f = t->Obj_0;
    assert(f.dom().contains(need[1]@) && f.dom().contains(need[2]@) && f.dom().contains(need[3]@));
    assert(p.dom().contains("source"@) && p.dom().contains("target"@) && p.dom().contains("mapping_type"@)
        && p.dom().contains("attester"@) && p.dom().contains("evidence_ref"@));
    let from = schema::child(top, "source"@);
    reference_leaf("#/$defs/item_ref"@, "item_ref"@, f["source"@], from, root, 1);
    end_reads(f, "source"@, from, root, 2);
    let to = schema::child(top, "target"@);
    reference_leaf("#/$defs/item_ref"@, "item_ref"@, f["target"@], to, root, 1);
    end_reads(f, "target"@, to, root, 2);
    choice_leaf(
        mapping::MAPPING_TYPES@,
        f["mapping_type"@],
        schema::child(top, "mapping_type"@),
        root,
        1,
    );
    choices_not_empty(f["mapping_type"@]->Str_0);
    if f.dom().contains("attester"@) {
        text_leaf(f["attester"@], schema::child(top, "attester"@), root, 1);
    }
    if f.dom().contains("evidence_ref"@) {
        text_leaf(f["evidence_ref"@], schema::child(top, "evidence_ref"@), root, 1);
    }
}

/// The schema alone decides whether a profile manifest can enter: leniently
/// it is accepted exactly when the schema accepts it, strictly when also
/// every demand of its data points can be served.
pub proof fn profile_accepted_iff_valid(item: ItemView, s: StoreView)
    requires
        item.item_class == ItemClass::Profile,
        item.manifest is Some,
    ensures
        ({
            let m = item.manifest->Some_0;
            let valid = schema::violations(manifest::profile_schema(), m).len() == 0;
            let demands = satisfiability::violations(manifest::parsed_manifest(m)->Ok_0);
            &&& intake::intake_verdict(item, s, false) is Ok <==> valid
            &&& intake::intake_verdict(item, s, true) is Ok <==> valid && demands.len() == 0
        }),
{
    let m = item.manifest->Some_0;
    if schema::violations(manifest::profile_schema(), m).len() == 0 {
        valid_profiles_parse(m);
    }
}

/// A conforming document conforms to every part of its schema: to the
/// definition it refers to, its type, choices and constant, its bounds and
/// pattern, its required and its described properties, the schemas of its
/// properties and items, every schema of `allOf`, and the consequence where
/// the condition holds.
#[verifier::spinoff_prover]
#[verifier::rlimit(40)]
pub proof fn conforming_documents_conform_in_every_part(
    m: Map<Seq<char>, Tree>,
    doc: Tree,
    path: Seq<char>,
    root: Tree,
    depth: nat,
    k: Seq<char>,
    i: int,
)
    requires
        usable(Tree::Obj(m), root),
        depth < schema::MAX_DEPTH,
        schema::errors_at(Tree::Obj(m), doc, path, root, depth).len() == 0,
    ensures
        schema::type_errors(m, doc, path).len() == 0,
        schema::enum_errors(m, doc, path).len() == 0,
        schema::const_errors(m, doc, path).len() == 0,
        doc matches Tree::Str(s) ==> schema::min_length_errors(m, s, path).len() == 0
            && schema::pattern_errors(m, s, path).len() == 0,
        doc is Int || doc is Float ==> schema::minimum_errors(m, doc, path).len() == 0,
        doc matches Tree::Arr(a) ==> {
            &&& schema::min_items_errors(m, a.len(), path).len() == 0
            &&& m.dom().contains("items"@) && 0 <= i < a.len() ==> schema::errors_at(
                m["items"@],
                a[i],
                path + "["@ + text::decimal(i as nat) + "]"@,
                root,
                depth + 1,
            ).len() == 0
        },
        doc matches Tree::Obj(f) ==> {
            &&& schema::required_errors(m, f, path).len() == 0
            &&& schema::extra_errors(m, f, path).len() == 0
            &&& m.dom().contains("properties"@) ==> (m["properties"@] matches Tree::Obj(p) ==> (
            p.dom().contains(k) && f.dom().contains(k) ==> schema::errors_at(
                p[k],
                f[k],
                if path.len() == 0 {
                    k
                } else {
                    path + "."@ + k
                },
                root,
                depth + 1,
            ).len() == 0))
        },
        m.dom().contains("allOf"@) ==> (m["allOf"@] matches Tree::Arr(subs) ==> (0 <= i < subs.len()
            ==> schema::errors_at(subs[i], doc, path, root, depth + 1).len() == 0)),
        m.dom().contains("if"@) && m.dom().contains("then"@) && schema::errors_at(
            m["if"@],
            doc,
            ""@,
            m["if"@],
            0,
        ).len() == 0 ==> schema::errors_at(m["then"@], doc, path, root, depth + 1).len() == 0,
{
    reveal(clean);
    keyword_by_keyword(m, doc, path, root, depth);
    every_keyword_counts(m, doc, path, root, depth);
    if let Tree::Obj(f) = doc {
        if m.dom().contains("properties"@) {
            if let Tree::Obj(p) = m["properties"@] {
                if p.dom().contains(k) && f.dom().contains(k) {
                    property_clean(m, f, k, path, root, depth);
                }
            }
        }
    }
    if let Tree::Arr(a) = doc {
        if m.dom().contains("items"@) && 0 <= i < a.len() {
            item_clean(m, a, i, path, root, depth);
        }
    }
    if m.dom().contains("allOf"@) {
        if let Tree::Arr(subs) = m["allOf"@] {
            if 0 <= i < subs.len() {
                every_clean(m, doc, i, path, root, depth);
            }
        }
    }
}

/// The keywords on constants, closed objects and sizes of arrays count among
/// the violations too.
#[verifier::spinoff_prover]
proof fn every_keyword_counts(m: Map<Seq<char>, Tree>, doc: Tree, path: Seq<char>, root: Tree, depth: nat)
    requires
        usable(Tree::Obj(m), root),
        depth <= schema::MAX_DEPTH,
        schema::errors_at(Tree::Obj(m), doc, path, root, depth).len() == 0,
    ensures
        schema::const_errors(m, doc, path).len() == 0,
        doc matches Tree::Obj(f) ==> schema::extra_errors(m, f, path).len() == 0,
        doc matches Tree::Arr(a) ==> schema::min_items_errors(m, a.len(), path).len() == 0,
{
}

/// The properties of a data point have different names.
proof fn point_names_differ()
    ensures
        "element"@ != "min_capability"@,
        "element"@ != "cardinality"@,
        "element"@ != "required_provenance"@,
        "element"@ != "required_unit"@,
        "element"@ != "subject_granularity"@,
        "element"@ != "tier_a"@,
        "element"@ != "traversal_depth"@,
        "element"@ != "trust_floor"@,
        "element"@ != "fresh_within"@,
        "element"@ != "visibility"@,
        "min_capability"@ != "cardinality"@,
        "min_capability"@ != "required_provenance"@,
        "min_capability"@ != "required_unit"@,
        "min_capability"@ != "subject_granularity"@,
        "min_capability"@ != "tier_a"@,
        "min_capability"@ != "traversal_depth"@,
        "min_capability"@ != "trust_floor"@,
        "min_capability"@ != "fresh_within"@,
        "min_capability"@ != "visibility"@,
        "cardinality"@ != "required_provenance"@,
        "cardinality"@ != "required_unit"@,
        "cardinality"@ != "subject_granularity"@,
        "cardinality"@ != "tier_a"@,
        "cardinality"@ != "traversal_depth"@,
        "cardinality"@ != "trust_floor"@,
        "cardinality"@ != "fresh_within"@,
        "cardinality"@ != "visibility"@,
        "required_provenance"@ != "required_unit"@,
        "required_provenance"@ != "subject_granularity"@,
        "required_provenance"@ != "tier_a"@,
        "required_provenance"@ != "traversal_depth"@,
        "required_provenance"@ != "trust_floor"@,
        "required_provenance"@ != "fresh_within"@,
        "required_provenance"@ != "visibility"@,
        "required_unit"@ != "subject_granularity"@,
        "required_unit"@ != "tier_a"@,
        "required_unit"@ != "traversal_depth"@,
        "required_unit"@ != "trust_floor"@,
        "required_unit"@ != "fresh_within"@,
        "required_unit"@ != "visibility"@,
        "subject_granularity"@ != "tier_a"@,
        "subject_granularity"@ != "traversal_depth"@,
        "subject_granularity"@ != "trust_floor"@,
        "subject_granularity"@ != "fresh_within"@,
        "subject_granularity"@ != "visibility"@,
        "tier_a"@ != "traversal_depth"@,
        "tier_a"@ != "trust_floor"@,
        "tier_a"@ != "fresh_within"@,
        "tier_a"@ != "visibility"@,
        "traversal_depth"@ != "trust_floor"@,
        "traversal_depth"@ != "fresh_within"@,
        "traversal_depth"@ != "visibility"@,
        "trust_floor"@ != "fresh_within"@,
        "trust_floor"@ != "visibility"@,
        "fresh_within"@ != "visibility"@,
{
    reveal_strlit("element");
    reveal_strlit("min_capability");
    reveal_strlit("cardinality");
    reveal_strlit("required_provenance");
    reveal_strlit("required_unit");
    reveal_strlit("subject_granularity");
    reveal_strlit("tier_a");
    reveal_strlit("traversal_depth");
    reveal_strlit("trust_floor");
    reveal_strlit("fresh_within");
    reveal_strlit("visibility");
    assert("element"@.len() != "min_capability"@.len());
    assert("element"@.len() != "cardinality"@.len());
    assert("element"@.len() != "required_provenance"@.len());
    assert("element"@.len() != "required_unit"@.len());
    assert("element"@.len() != "subject_granularity"@.len());
    assert("element"@.len() != "tier_a"@.len());
    assert("element"@.len() != "traversal_depth"@.len());
    assert("element"@.len() != "trust_floor"@.len());
    assert("element"@.len() != "fresh_within"@.len());
    assert("element"@.len() != "visibility"@.len());
    assert("min_capability"@.len() != "cardinality"@.len());
    assert("min_capability"@.len() != "required_provenance"@.len());
    assert("min_capability"@.len() != "required_unit"@.len());
    assert("min_capability"@.len() != "subject_granularity"@.len());
    assert("min_capability"@.len() != "tier_a"@.len());
    assert("min_capability"@.len() != "traversal_depth"@.len());
    assert("min_capability"@.len() != "trust_floor"@.len());
    assert("min_capability"@.len() != "fresh_within"@.len());
    assert("min_capability"@.len() != "visibility"@.len());
    assert("cardinality"@.len() != "required_provenance"@.len());
    assert("cardinality"@.len() != "required_unit"@.len());
    assert("cardinality"@.len() != "subject_granularity"@.len());
    assert("cardinality"@.len() != "tier_a"@.len());
    assert("cardinality"@.len() != "traversal_depth"@.len());
    assert("cardinality"@[0] != "trust_floor"@[0]);
    assert("cardinality"@.len() != "fresh_within"@.len());
    assert("cardinality"@.len() != "visibility"@.len());
    assert("required_provenance"@.len() != "required_unit"@.len());
    assert("required_provenance"@[0] != "subject_granularity"@[0]);
    assert("required_provenance"@.len() != "tier_a"@.len());
    assert("required_provenance"@.len() != "traversal_depth"@.len());
    assert("required_provenance"@.len() != "trust_floor"@.len());
    assert("required_provenance"@.len() != "fresh_within"@.len());
    assert("required_provenance"@.len() != "visibility"@.len());
    assert("required_unit"@.len() != "subject_granularity"@.len());
    assert("required_unit"@.len() != "tier_a"@.len());
    assert("required_unit"@.len() != "traversal_depth"@.len());
    assert("required_unit"@.len() != "trust_floor"@.len());
    assert("required_unit"@.len() != "fresh_within"@.len());
    assert("required_unit"@.len() != "visibility"@.len());
    assert("subject_granularity"@.len() != "tier_a"@.len());
    assert("subject_granularity"@.len() != "traversal_depth"@.len());
    assert("subject_granularity"@.len() != "trust_floor"@.len());
    assert("subject_granularity"@.len() != "fresh_within"@.len());
    assert("subject_granularity"@.len() != "visibility"@.len());
    assert("tier_a"@.len() != "traversal_depth"@.len());
    assert("tier_a"@.len() != "trust_floor"@.len());
    assert("tier_a"@.len() != "fresh_within"@.len());
    assert("tier_a"@.len() != "visibility"@.len());
    assert("traversal_depth"@.len() != "trust_floor"@.len());
    assert("traversal_depth"@.len() != "fresh_within"@.len());
    assert("traversal_depth"@.len() != "visibility"@.len());
    assert("trust_floor"@.len() != "fresh_within"@.len());
    assert("trust_floor"@.len() != "visibility"@.len());
    assert("fresh_within"@.len() != "visibility"@.len());
}


/// The properties of a data point, each with its schema.
proof fn all_point_members()
    ensures
        ({
            let p = manifest::point_properties();
            &&& p.dom().contains("element"@) && p["element"@] == manifest::text_schema()
            &&& p.dom().contains("min_capability"@) && p["min_capability"@] == manifest::choice_schema(
                satisfiability::CAPABILITY_CLASSES@,
            )
            &&& p.dom().contains("cardinality"@) && p["cardinality"@] == manifest::pattern_schema(
                schema::CARDINALITY_PATTERN@,
            )
            &&& p.dom().contains("required_provenance"@) && p["required_provenance"@]
                == manifest::text_schema()
            &&& p.dom().contains("required_unit"@) && p["required_unit"@] == manifest::text_schema()
            &&& p.dom().contains("subject_granularity"@) && p["subject_granularity"@]
                == manifest::choice_schema(manifest::GRANULARITIES@)
            &&& p.dom().contains("trust_floor"@) && p["trust_floor"@] == manifest::text_schema()
            &&& p.dom().contains("fresh_within"@) && p["fresh_within"@] == manifest::pattern_schema(
                schema::DURATION_PATTERN@,
            )
            &&& p.dom().contains("visibility"@) && p["visibility"@] == manifest::text_schema()
        }),
{
    point_names_differ();
}

/// Whether a property is absent or a text that is not empty.
pub open spec fn blank_or_text(f: Map<Seq<char>, Tree>, key: Seq<char>) -> bool {
    f.dom().contains(key) ==> (f[key] matches Tree::Str(s) && s.len() > 0)
}

/// The shape of a data point: its element, a class of the ladder, and every
/// further property, where it is there, of its own form.
pub open spec fn point_shape(t: Tree) -> bool {
    &&& t matches Tree::Obj(f)
    &&& f.dom().contains("element"@) && (f["element"@] matches Tree::Str(s) && s.len() > 0)
    &&& f.dom().contains("min_capability"@) && (f["min_capability"@] matches Tree::Str(c) && (c == "S0"@
        || c == "S1"@ || c == "S2"@ || c == "S3"@))
    &&& f.dom().contains("cardinality"@) ==> (f["cardinality"@] matches Tree::Str(s)
        && schema::cardinality(s))
    &&& blank_or_text(f, "required_provenance"@)
    &&& blank_or_text(f, "required_unit"@)
    &&& f.dom().contains("subject_granularity"@) ==> (f["subject_granularity"@] matches Tree::Str(g) && (g
        == "type"@ || g == "lot"@ || g == "instance"@))
    &&& blank_or_text(f, "trust_floor"@)
    &&& f.dom().contains("fresh_within"@) ==> (f["fresh_within"@] matches Tree::Str(s)
        && clock::parsed_duration(s) is Ok)
    &&& blank_or_text(f, "visibility"@)
}

/// A clean data point has its shape.
#[verifier::spinoff_prover]
proof fn point_has_its_shape(t: Tree, path: Seq<char>, root: Tree, depth: nat)
    requires
        usable(manifest::data_point_schema(), root),
        depth + 2 < schema::MAX_DEPTH,
        clean(manifest::data_point_schema(), t, path, root, depth),
    ensures
        point_shape(t),
{
    let m = manifest::data_point_schema()->Obj_0;
    let p = manifest::point_properties();
    let need = ["element", "min_capability"]@;
    all_point_members();
    object_members(need, p);
    object_leaf(m, need, p, t, path, root, depth);
    let f = t->Obj_0;
    assert(f.dom().contains(need[0]@) && f.dom().contains(need[1]@));
    text_leaf(f["element"@], schema::child(path, "element"@), root, depth + 1);
    choice_leaf(
        satisfiability::CAPABILITY_CLASSES@,
        f["min_capability"@],
        schema::child(path, "min_capability"@),
        root,
        depth + 1,
    );
    if f.dom().contains("cardinality"@) {
        pattern_leaf(
            schema::CARDINALITY_PATTERN@,
            f["cardinality"@],
            schema::child(path, "cardinality"@),
            root,
            depth + 1,
        );
    }
    if f.dom().contains("required_provenance"@) {
        text_leaf(
            f["required_provenance"@],
            schema::child(path, "required_provenance"@),
            root,
            depth + 1,
        );
    }
    if f.dom().contains("required_unit"@) {
        text_leaf(f["required_unit"@], schema::child(path, "required_unit"@), root, depth + 1);
    }
    if f.dom().contains("subject_granularity"@) {
        choice_leaf(
            manifest::GRANULARITIES@,
            f["subject_granularity"@],
            schema::child(path, "subject_granularity"@),
            root,
            depth + 1,
        );
    }
    if f.dom().contains("trust_floor"@) {
        text_leaf(f["trust_floor"@], schema::child(path, "trust_floor"@), root, depth + 1);
    }
    if f.dom().contains("fresh_within"@) {
        duration_leaf(f["fresh_within"@], schema::child(path, "fresh_within"@), root, depth + 1);
    }
    if f.dom().contains("visibility"@) {
        text_leaf(f["visibility"@], schema::child(path, "visibility"@), root, depth + 1);
    }
}

/// A profile manifest that the schema accepts has a version that is not
/// empty, declares a class of the ladder or none, lists known axes only, and
/// every one of its data points has its shape.
#[verifier::spinoff_prover]
pub proof fn valid_profiles_have_their_shape(t: Tree, i: int)
    requires
        schema::violations(manifest::profile_schema(), t).len() == 0,
    ensures
        t matches Tree::Obj(f) && {
            &&& f.dom().contains("version"@) && (f["version"@] matches Tree::Str(v) && v.len() > 0)
            &&& f.dom().contains("subject_capability"@) ==> (f["subject_capability"@] matches Tree::Str(c)
                && (c == "S0"@ || c == "S1"@ || c == "S2"@ || c == "S3"@))
            &&& f.dom().contains("data_points"@) ==> (f["data_points"@] matches Tree::Arr(a) && (0 <= i
                < a.len() ==> point_shape(a[i])))
            &&& f.dom().contains("axes"@) ==> (f["axes"@] matches Tree::Arr(a) && (0 <= i < a.len() ==> (
            a[i] matches Tree::Str(x) && (x == "jurisdiction"@ || x == "sector"@ || x
                == "characteristic"@))))
        },
{
    let root = manifest::profile_schema();
    let p = manifest::profile_properties();
    let top = ""@;
    profile_parts(t);
    profile_schema_sound();
    profile_members();
    profile_references();
    assert(usable(root, root));
    assert(clean(root, t, top, root, 0)) by {
        reveal(clean);
    }
    object_leaf(root->Obj_0, ["version"]@, p, t, top, root, 0);
    let f = t->Obj_0;
    assert(p.dom().contains("subject_capability"@) && p.dom().contains("data_points"@)
        && p.dom().contains("axes"@));
    if f.dom().contains("subject_capability"@) {
        choice_leaf(
            satisfiability::CAPABILITY_CLASSES@,
            f["subject_capability"@],
            schema::child(top, "subject_capability"@),
            root,
            1,
        );
    }
    if f.dom().contains("data_points"@) {
        let here = schema::child(top, "data_points"@);
        let items = manifest::ref_schema("#/$defs/data_point"@);
        array_leaf(items, f["data_points"@], here, root, 1);
        let a = f["data_points"@]->Arr_0;
        if 0 <= i < a.len() {
            let at = schema::element(here, i as nat);
            reference_leaf("#/$defs/data_point"@, "data_point"@, a[i], at, root, 2);
            point_has_its_shape(a[i], at, root, 3);
        }
    }
    if f.dom().contains("axes"@) {
        let here = schema::child(top, "axes"@);
        array_leaf(manifest::choice_schema(manifest::AXES@), f["axes"@], here, root, 1);
        let a = f["axes"@]->Arr_0;
        if 0 <= i < a.len() {
            choice_leaf(manifest::AXES@, a[i], schema::element(here, i as nat), root, 2);
        }
    }
}

} // verus!
