//! Cross-register mappings as registered items.
//!
//! A mapping between items of two registers is itself an item. Its manifest
//! names both ends, the harmonization relation between them and, where
//! given, who attests it. Both ends have to exist when it is registered.

use vstd::prelude::*;
use crate::fields;
use crate::json;
use crate::json::{Json, Object, Tree};
use crate::manifest;
use crate::model;
use crate::model::{Item, ItemClass, ItemView};
use crate::schema;
use crate::schema::{SchemaError, SchemaErrorView};
use crate::store;
use crate::store::{Store, StoreView};
use crate::text;

verus! {

/// Harmonization relations.
pub const MAPPING_TYPES: [&'static str; 4] = ["equivalent", "narrower", "broader", "related"];

/// The item class of mappings.
pub const ITEM_CLASS: ItemClass = ItemClass::CrossRegisterMapping;

/// One end of a mapping. The register and the version are optional
/// qualifiers.
#[derive(Debug, PartialEq, Eq)]
pub struct ItemRef {
    pub register: Option<String>,
    pub item: String,
    pub version: Option<String>,
}

/// The content of one end of a mapping.
pub struct RefView {
    pub register: Option<Seq<char>>,
    pub item: Seq<char>,
    pub version: Option<Seq<char>>,
}

impl View for ItemRef {
    type V = RefView;

    open spec fn view(&self) -> RefView {
        RefView {
            register: text::opt_view(self.register),
            item: self.item@,
            version: text::opt_view(self.version),
        }
    }
}

/// A mapping manifest.
#[derive(Debug, PartialEq, Eq)]
pub struct CrossRegisterMapping {
    pub source: ItemRef,
    pub target: ItemRef,
    pub mapping_type: String,
    pub attester: Option<String>,
    pub evidence_ref: Option<String>,
}

/// The content of a mapping manifest.
pub struct MappingView {
    pub source: RefView,
    pub target: RefView,
    pub mapping_type: Seq<char>,
    pub attester: Option<Seq<char>>,
    pub evidence_ref: Option<Seq<char>>,
}

impl View for CrossRegisterMapping {
    type V = MappingView;

    open spec fn view(&self) -> MappingView {
        MappingView {
            source: self.source@,
            target: self.target@,
            mapping_type: self.mapping_type@,
            attester: text::opt_view(self.attester),
            evidence_ref: text::opt_view(self.evidence_ref),
        }
    }
}

/// The description of the mapping schema.
pub const MAPPING_SCHEMA_DESCRIPTION: &'static str =
    "A mapping between items of two registers, itself a registered item (ISO 19135 harmonization). Both ends are validated for referential integrity at intake.";

/// The schema of a version pin: a text that is not empty, or `null` where
/// no version is pinned.
pub open spec fn pin_schema() -> Tree {
    Tree::Obj(
        manifest::no_members().insert("type"@, manifest::list_tree(["string", "null"]@)).insert(
            "minLength"@,
            Tree::Int(1),
        ),
    )
}

/// The schema of a version pin.
fn pin_json() -> (r: Json)
    ensures
        r@ == pin_schema(),
{
    let mut m = Object::new();
    m.put("type", manifest::list_json(&["string", "null"]));
    m.put_uint("minLength", 1);
    Json::Obj(m)
}

/// The definition of one end of a mapping.
pub open spec fn item_ref_schema() -> Tree {
    Tree::Obj(
        manifest::object_schema(
            ["item"]@,
            manifest::no_members().insert("register"@, manifest::text_schema()).insert(
                "item"@,
                manifest::text_schema(),
            ).insert("version"@, pin_schema()),
        ),
    )
}

/// The properties of a mapping manifest.
pub open spec fn mapping_properties() -> Map<Seq<char>, Tree> {
    manifest::no_members().insert("version"@, manifest::text_schema()).insert(
        "source"@,
        manifest::ref_schema("#/$defs/item_ref"@),
    ).insert("target"@, manifest::ref_schema("#/$defs/item_ref"@)).insert(
        "mapping_type"@,
        manifest::choice_schema(MAPPING_TYPES@),
    ).insert("attester"@, manifest::text_schema()).insert("evidence_ref"@, manifest::text_schema())
}

/// The schema of a mapping manifest.
pub open spec fn mapping_schema() -> Tree {
    Tree::Obj(
        manifest::object_schema(
            ["version", "source", "target", "mapping_type"]@,
            mapping_properties(),
        ).insert("$schema"@, Tree::Str("https://json-schema.org/draft/2020-12/schema"@)).insert(
            "$id"@,
            Tree::Str("https://unidpp.org/schemas/cross-register-mapping/v1"@),
        ).insert("title"@, Tree::Str("UniDPP cross-register mapping"@)).insert(
            "description"@,
            Tree::Str(MAPPING_SCHEMA_DESCRIPTION@),
        ).insert("$defs"@, Tree::Obj(manifest::no_members().insert("item_ref"@, item_ref_schema()))),
    )
}

/// The generated JSON Schema (draft 2020-12) for a mapping manifest.
pub fn cross_register_mapping_schema() -> (r: Json)
    ensures
        r@ == mapping_schema(),
{
    let mut e = Object::new();
    e.put("register", manifest::text_json());
    e.put("item", manifest::text_json());
    e.put("version", pin_json());
    let mut d = Object::new();
    d.put("item_ref", Json::Obj(manifest::object_json(&["item"], e)));
    let mut p = Object::new();
    p.put("version", manifest::text_json());
    p.put("source", manifest::ref_json("#/$defs/item_ref"));
    p.put("target", manifest::ref_json("#/$defs/item_ref"));
    p.put("mapping_type", manifest::choice_json(&MAPPING_TYPES));
    p.put("attester", manifest::text_json());
    p.put("evidence_ref", manifest::text_json());
    let mut m = manifest::object_json(&["version", "source", "target", "mapping_type"], p);
    m.put_str("$schema", "https://json-schema.org/draft/2020-12/schema");
    m.put_str("$id", "https://unidpp.org/schemas/cross-register-mapping/v1");
    m.put_str("title", "UniDPP cross-register mapping");
    m.put_str("description", MAPPING_SCHEMA_DESCRIPTION);
    m.put("$defs", Json::Obj(d));
    Json::Obj(m)
}

/// Validates a mapping manifest against the generated schema.
pub fn validate_manifest(manifest: &Json) -> (r: Result<(), Vec<SchemaError>>)
    ensures
        match r {
            Ok(_) => schema::violations(mapping_schema(), manifest@).len() == 0,
            Err(e) => schema::violations(mapping_schema(), manifest@).len() > 0
                && schema::error_views(e@) == schema::violations(mapping_schema(), manifest@),
        },
{
    schema::validate(&cross_register_mapping_schema(), manifest)
}

/// The optional text `key` of an object called `name`.
pub open spec fn qualifier(m: Map<Seq<char>, Tree>, name: Seq<char>, key: Seq<char>) -> Result<
    Option<Seq<char>>,
    Seq<char>,
> {
    match fields::present(m, key) {
        None => Ok(None),
        Some(Tree::Str(s)) => if s.len() > 0 {
            Ok(Some(s))
        } else {
            Err("`"@ + name + "` must be a non-empty string"@)
        },
        Some(_) => Err("`"@ + name + "` must be a non-empty string"@),
    }
}

/// Reads an optional text of an object.
fn read_qualifier(o: &Object, name: &str, key: &str) -> (r: Result<Option<String>, String>)
    ensures
        match r {
            Ok(s) => qualifier(o@, name@, key@) == Ok::<Option<Seq<char>>, Seq<char>>(
                text::opt_view(s),
            ),
            Err(e) => qualifier(o@, name@, key@) == Err::<Option<Seq<char>>, Seq<char>>(e@),
        },
{
    match fields::read_present(o, key) {
        None => Ok(None),
        Some(v) => {
            if let Some(s) = v.as_str() {
                if !s.is_empty() {
                    return Ok(Some(s.to_owned()));
                }
            }
            Err(text::cat3("`", name, "` must be a non-empty string"))
        },
    }
}

/// What one end of a mapping parses to.
pub open spec fn parsed_end(m: Map<Seq<char>, Tree>, side: Seq<char>) -> Result<RefView, Seq<char>> {
    match json::member(m, side) {
        None => Err("mapping manifest missing `"@ + side + "`"@),
        Some(t) => match json::obj_of(t) {
            None => Err("`"@ + side + "` must be an object"@),
            Some(o) => {
                let item = match json::member(o, "item"@) {
                    Some(Tree::Str(s)) => if s.len() > 0 {
                        Some(s)
                    } else {
                        None
                    },
                    _ => None,
                };
                let register = qualifier(o, side + "."@ + "register"@, "register"@);
                let version = qualifier(o, side + "."@ + "version"@, "version"@);
                if item is None {
                    Err("`"@ + side + ".item` is required"@)
                } else if register is Err {
                    Err(register->Err_0)
                } else if version is Err {
                    Err(version->Err_0)
                } else {
                    Ok(
                        RefView {
                            register: register->Ok_0,
                            item: item->Some_0,
                            version: version->Ok_0,
                        },
                    )
                }
            },
        },
    }
}

/// Reads one end of a mapping.
fn read_end(o: &Object, side: &str) -> (r: Result<ItemRef, String>)
    ensures
        match r {
            Ok(x) => parsed_end(o@, side@) == Ok::<RefView, Seq<char>>(x@),
            Err(e) => parsed_end(o@, side@) == Err::<RefView, Seq<char>>(e@),
        },
{
    let end = match o.get(side) {
        Some(v) => match v.as_object() {
            Some(e) => e,
            None => return Err(text::cat3("`", side, "` must be an object")),
        },
        None => return Err(text::cat3("mapping manifest missing `", side, "`")),
    };
    let mut item: Option<String> = None;
    if let Some(s) = end.get_str("item") {
        if !s.is_empty() {
            item = Some(s.to_owned());
        }
    }
    let item = match item {
        Some(s) => s,
        None => return Err(text::cat3("`", side, ".item` is required")),
    };
    let register_name = text::cat3(side, ".", "register");
    let register = match read_qualifier(end, register_name.as_str(), "register") {
        Ok(x) => x,
        Err(e) => return Err(e),
    };
    let version_name = text::cat3(side, ".", "version");
    let version = match read_qualifier(end, version_name.as_str(), "version") {
        Ok(x) => x,
        Err(e) => return Err(e),
    };
    Ok(ItemRef { register, item, version })
}

/// What a mapping manifest parses to.
pub open spec fn parsed_mapping(t: Tree) -> Result<MappingView, Seq<char>> {
    match json::obj_of(t) {
        None => Err("mapping manifest must be an object"@),
        Some(m) => {
            let source = parsed_end(m, "source"@);
            let target = parsed_end(m, "target"@);
            let kind = match json::member(m, "mapping_type"@) {
                Some(Tree::Str(s)) => if s.len() > 0 {
                    Some(s)
                } else {
                    None
                },
                _ => None,
            };
            let attester = qualifier(m, "attester"@, "attester"@);
            let evidence = qualifier(m, "evidence_ref"@, "evidence_ref"@);
            if source is Err {
                Err(source->Err_0)
            } else if target is Err {
                Err(target->Err_0)
            } else if kind is None {
                Err("mapping manifest missing `mapping_type`"@)
            } else if attester is Err {
                Err(attester->Err_0)
            } else if evidence is Err {
                Err(evidence->Err_0)
            } else {
                Ok(
                    MappingView {
                        source: source->Ok_0,
                        target: target->Ok_0,
                        mapping_type: kind->Some_0,
                        attester: attester->Ok_0,
                        evidence_ref: evidence->Ok_0,
                    },
                )
            }
        },
    }
}

/// Parses a mapping manifest.
pub fn parse(manifest: &Json) -> (r: Result<CrossRegisterMapping, String>)
    ensures
        match r {
            Ok(x) => parsed_mapping(manifest@) == Ok::<MappingView, Seq<char>>(x@),
            Err(e) => parsed_mapping(manifest@) == Err::<MappingView, Seq<char>>(e@),
        },
{
    let o = match manifest.as_object() {
        Some(o) => o,
        None => return Err("mapping manifest must be an object".to_owned()),
    };
    let source = match read_end(o, "source") {
        Ok(x) => x,
        Err(e) => return Err(e),
    };
    let target = match read_end(o, "target") {
        Ok(x) => x,
        Err(e) => return Err(e),
    };
    let mut kind: Option<String> = None;
    if let Some(s) = o.get_str("mapping_type") {
        if !s.is_empty() {
            kind = Some(s.to_owned());
        }
    }
    let mapping_type = match kind {
        Some(s) => s,
        None => return Err("mapping manifest missing `mapping_type`".to_owned()),
    };
    let attester = match read_qualifier(o, "attester", "attester") {
        Ok(x) => x,
        Err(e) => return Err(e),
    };
    let evidence_ref = match read_qualifier(o, "evidence_ref", "evidence_ref") {
        Ok(x) => x,
        Err(e) => return Err(e),
    };
    Ok(CrossRegisterMapping { source, target, mapping_type, attester, evidence_ref })
}

/// Whether one end of a mapping resolves: the item is registered, in the
/// register claimed and with the version pinned, where there is one.
pub open spec fn resolves(s: StoreView, r: RefView) -> bool {
    &&& s.items.dom().contains(r.item)
    &&& r.register matches Some(c) ==> s.items[r.item].register == c
    &&& r.version matches Some(v) ==> model::find_version(s.items[r.item].versions, v) is Some
}

/// What is wrong with one end of a mapping.
pub open spec fn end_errors(s: StoreView, side: Seq<char>, r: RefView) -> Seq<SchemaErrorView> {
    if !s.items.dom().contains(r.item) {
        schema::one(
            side + ".item"@,
            "dangling reference: no registry item `"@ + r.item
                + "` (cross-register mappings must reference items that exist)"@,
        )
    } else {
        let found = s.items[r.item];
        let register = match r.register {
            Some(c) => if c != found.register {
                schema::one(
                    side + ".register"@,
                    "item `"@ + r.item + "` belongs to register `"@ + found.register + "`, not `"@
                        + c + "`"@,
                )
            } else {
                schema::none()
            },
            None => schema::none(),
        };
        let version = match r.version {
            Some(v) => if model::find_version(found.versions, v) is None {
                schema::one(
                    side + ".version"@,
                    "item `"@ + r.item + "` has no version `"@ + v + "`"@,
                )
            } else {
                schema::none()
            },
            None => schema::none(),
        };
        register + version
    }
}

/// What is wrong with a mapping.
pub open spec fn mapping_errors(s: StoreView, m: MappingView) -> Seq<SchemaErrorView> {
    end_errors(s, "source"@, m.source) + end_errors(s, "target"@, m.target)
}

/// Finds what is wrong with one end of a mapping.
fn check_end(store: &Store, side: &str, r: &ItemRef, errors: &mut Vec<SchemaError>)
    ensures
        schema::error_views(final(errors)@) == schema::error_views(old(errors)@) + end_errors(
            store@,
            side@,
            r@,
        ),
{
    let ghost before = schema::error_views(errors@);
    let found = match store.item(r.item.as_str()) {
        Some(i) => i,
        None => {
            let path = text::cat2(side, ".item");
            let message = text::cat3(
                "dangling reference: no registry item `",
                r.item.as_str(),
                "` (cross-register mappings must reference items that exist)",
            );
            errors.push(SchemaError::new(path.as_str(), message));
            assert(schema::error_views(errors@) =~= before + end_errors(store@, side@, r@));
            return ;
        },
    };
    if let Some(claimed) = &r.register {
        if !text::same(claimed.as_str(), found.register.as_str()) {
            let path = text::cat2(side, ".register");
            let message = text::cat7(
                "item `",
                r.item.as_str(),
                "` belongs to register `",
                found.register.as_str(),
                "`, not `",
                claimed.as_str(),
                "`",
            );
            errors.push(SchemaError::new(path.as_str(), message));
        }
    }
    if let Some(v) = &r.version {
        if found.version(v.as_str()).is_none() {
            let path = text::cat2(side, ".version");
            let message = text::cat5(
                "item `",
                r.item.as_str(),
                "` has no version `",
                v.as_str(),
                "`",
            );
            errors.push(SchemaError::new(path.as_str(), message));
        }
    }
    assert(schema::error_views(errors@) =~= before + end_errors(store@, side@, r@));
}

/// Referential integrity: both ends of a mapping have to resolve.
pub fn integrity_errors(mapping: &CrossRegisterMapping, store: &Store) -> (r: Vec<SchemaError>)
    ensures
        schema::error_views(r@) == mapping_errors(store@, mapping@),
{
    let mut errors: Vec<SchemaError> = Vec::new();
    assert(schema::error_views(errors@) =~= schema::none());
    check_end(store, "source", &mapping.source, &mut errors);
    check_end(store, "target", &mapping.target, &mut errors);
    assert(schema::error_views(errors@) =~= mapping_errors(store@, mapping@));
    errors
}

/// A mapping has no integrity errors exactly when both its ends resolve.
pub proof fn sound_iff_both_ends_resolve(s: StoreView, m: MappingView)
    ensures
        mapping_errors(s, m).len() == 0 <==> resolves(s, m.source) && resolves(s, m.target),
{
}

/// The item that one side of a manifest names.
pub open spec fn side_item(manifest: Tree, side: Seq<char>) -> Option<Seq<char>> {
    match json::lookup(manifest, side) {
        Some(t) => match t {
            Tree::Obj(_) => json::get_str(t, "item"@),
            _ => None,
        },
        None => None,
    }
}

/// Whether a mapping item matches a lookup: `lookup` on either side,
/// `source` and `target` on the side they name.
pub open spec fn matched(
    item: ItemView,
    lookup: Option<Seq<char>>,
    source: Option<Seq<char>>,
    target: Option<Seq<char>>,
) -> bool {
    &&& item.item_class == ItemClass::CrossRegisterMapping
    &&& item.manifest is Some
    &&& lookup is Some ==> side_item(item.manifest->Some_0, "source"@) == lookup || side_item(
        item.manifest->Some_0,
        "target"@,
    ) == lookup
    &&& source is Some ==> side_item(item.manifest->Some_0, "source"@) == source
    &&& target is Some ==> side_item(item.manifest->Some_0, "target"@) == target
}

/// Whether one side of a manifest names the item `want`.
fn names(manifest: &Json, side: &str, want: &str) -> (r: bool)
    ensures
        r == (side_item(manifest@, side@) == Some(want@)),
{
    match manifest.get(side) {
        Some(v) => match v.as_object() {
            Some(o) => match o.get_str("item") {
                Some(s) => text::same(s, want),
                None => false,
            },
            None => false,
        },
        None => false,
    }
}

/// Whether an item is a mapping that matches a lookup.
pub fn matches_query(
    item: &Item,
    lookup_item: Option<&str>,
    source: Option<&str>,
    target: Option<&str>,
) -> (r: bool)
    ensures
        r == matched(
            item@,
            store::opt_str_view(lookup_item),
            store::opt_str_view(source),
            store::opt_str_view(target),
        ),
{
    if item.item_class != ITEM_CLASS {
        return false;
    }
    let manifest = match &item.manifest {
        Some(m) => m,
        None => return false,
    };
    if let Some(want) = lookup_item {
        if !names(manifest, "source", want) && !names(manifest, "target", want) {
            return false;
        }
    }
    if let Some(want) = source {
        if !names(manifest, "source", want) {
            return false;
        }
    }
    if let Some(want) = target {
        if !names(manifest, "target", want) {
            return false;
        }
    }
    true
}

} // verus!
