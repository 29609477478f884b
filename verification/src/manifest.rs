//! The canonical profile-manifest model.
//!
//! One formalization, two renders: the typed model below and the JSON
//! Schema ([`profile_manifest_schema`]) share one field vocabulary. Unknown
//! fields are allowed at every level.
//!
//! | field                | shape                                          |
//! |----------------------|------------------------------------------------|
//! | `version`            | required string: the item-version pin          |
//! | `subject_capability` | optional S0..S3: the declared subject class    |
//! | `axes`               | optional array: jurisdiction / sector / characteristic |
//! | `legal_basis`        | optional array of {instrument, citation, force} |
//! | `data_points`        | optional array of bindings                     |
//! | `transforms`         | optional array of transform bindings           |
//! | `triggers`           | optional array of predicates                   |

use vstd::prelude::*;
use crate::clock;
use crate::clock::{TimeTrigger, TimeTriggerView};
use crate::fields;
use crate::json;
use crate::json::{Json, Object, Tree};
use crate::satisfiability::CAPABILITY_CLASSES;
use crate::schema;
use crate::schema::{SchemaError, CARDINALITY_PATTERN, DURATION_PATTERN};
use crate::text;
use crate::time;
use crate::time::Timestamp;

verus! {

/// Applicability axes of a profile.
pub const AXES: [&'static str; 3] = ["jurisdiction", "sector", "characteristic"];

/// Trigger predicate classes.
pub const PREDICATE_CLASSES: [&'static str; 2] = ["fact_predicate", "time"];

/// Subject-fact keys a time trigger may be based on.
pub const TIME_BASES: [&'static str; 2] = clock::BASES;

/// Comparison operators a time trigger may use.
pub const TIME_OPERATORS: [&'static str; 4] = clock::OPERATORS;

/// Granularities of a data-point binding.
pub const GRANULARITIES: [&'static str; 3] = ["type", "lot", "instance"];

/// No members.
pub open spec fn no_members() -> Map<Seq<char>, Tree> {
    Map::empty()
}

/// An array of fixed texts.
pub open spec fn list_tree(list: Seq<&'static str>) -> Tree {
    Tree::Arr(json::str_trees(text::list_views(list)))
}

/// An array of fixed texts.
pub(crate) fn list_json(list: &[&'static str]) -> (r: Json)
    ensures
        r@ == list_tree(list@),
{
    json::str_array(&text::strings(list))
}

/// The schema of a text that is not empty.
pub open spec fn text_schema() -> Tree {
    Tree::Obj(
        no_members().insert("type"@, Tree::Str("string"@)).insert("minLength"@, Tree::Int(1)),
    )
}

/// The schema of a text that is not empty.
pub(crate) fn text_json() -> (r: Json)
    ensures
        r@ == text_schema(),
{
    let mut m = Object::new();
    m.put_str("type", "string");
    m.put_uint("minLength", 1);
    Json::Obj(m)
}

/// The schema of a text out of a list.
pub open spec fn choice_schema(list: Seq<&'static str>) -> Tree {
    Tree::Obj(no_members().insert("type"@, Tree::Str("string"@)).insert("enum"@, list_tree(list)))
}

/// The schema of a text out of a list.
pub(crate) fn choice_json(list: &[&'static str]) -> (r: Json)
    ensures
        r@ == choice_schema(list@),
{
    let mut m = Object::new();
    m.put_str("type", "string");
    m.put("enum", list_json(list));
    Json::Obj(m)
}

/// The schema of a text with a pattern.
pub open spec fn pattern_schema(p: Seq<char>) -> Tree {
    Tree::Obj(no_members().insert("type"@, Tree::Str("string"@)).insert("pattern"@, Tree::Str(p)))
}

/// The schema of a text with a pattern.
fn pattern_json(p: &str) -> (r: Json)
    ensures
        r@ == pattern_schema(p@),
{
    let mut m = Object::new();
    m.put_str("type", "string");
    m.put_str("pattern", p);
    Json::Obj(m)
}

/// The schema of an array.
pub open spec fn array_schema(items: Tree) -> Tree {
    Tree::Obj(no_members().insert("type"@, Tree::Str("array"@)).insert("items"@, items))
}

/// The schema of an array.
fn array_json(items: Json) -> (r: Json)
    ensures
        r@ == array_schema(items@),
{
    let mut m = Object::new();
    m.put_str("type", "array");
    m.put("items", items);
    Json::Obj(m)
}

/// A reference to a definition.
pub open spec fn ref_schema(target: Seq<char>) -> Tree {
    Tree::Obj(no_members().insert("$ref"@, Tree::Str(target)))
}

/// A reference to a definition.
pub(crate) fn ref_json(target: &str) -> (r: Json)
    ensures
        r@ == ref_schema(target@),
{
    let mut m = Object::new();
    m.put_str("$ref", target);
    Json::Obj(m)
}

/// The schema of an open object.
pub open spec fn object_schema(required: Seq<&'static str>, properties: Map<Seq<char>, Tree>) -> Map<
    Seq<char>,
    Tree,
> {
    no_members().insert("type"@, Tree::Str("object"@)).insert("required"@, list_tree(required)).insert(
        "properties"@,
        Tree::Obj(properties),
    ).insert("additionalProperties"@, Tree::Bool(true))
}

/// The schema of an open object.
pub(crate) fn object_json(required: &[&'static str], properties: Object) -> (r: Object)
    ensures
        r@ == object_schema(required@, properties@),
{
    let mut m = Object::new();
    m.put_str("type", "object");
    m.put("required", list_json(required));
    m.put("properties", Json::Obj(properties));
    m.put_bool("additionalProperties", true);
    m
}

/// The definition of a legal basis.
pub open spec fn legal_basis_schema() -> Tree {
    Tree::Obj(
        object_schema(
            ["instrument", "citation", "force"]@,
            no_members().insert("instrument"@, text_schema()).insert("citation"@, text_schema()).insert(
                "force"@,
                text_schema(),
            ),
        ),
    )
}

/// The definition of a legal basis.
fn legal_basis_json() -> (r: Json)
    ensures
        r@ == legal_basis_schema(),
{
    let mut p = Object::new();
    p.put("instrument", text_json());
    p.put("citation", text_json());
    p.put("force", text_json());
    Json::Obj(object_json(&["instrument", "citation", "force"], p))
}

/// The properties of a data point.
pub open spec fn point_properties() -> Map<Seq<char>, Tree> {
    no_members().insert("element"@, text_schema()).insert(
        "min_capability"@,
        choice_schema(CAPABILITY_CLASSES@),
    ).insert("cardinality"@, pattern_schema(CARDINALITY_PATTERN@)).insert(
        "required_provenance"@,
        text_schema(),
    ).insert("required_unit"@, text_schema()).insert(
        "subject_granularity"@,
        choice_schema(GRANULARITIES@),
    ).insert("tier_a"@, Tree::Obj(no_members().insert("type"@, Tree::Str("boolean"@)))).insert(
        "traversal_depth"@,
        Tree::Obj(
            no_members().insert("type"@, Tree::Str("integer"@)).insert(
                "minimum"@,
                Tree::Int(0),
            ),
        ),
    ).insert("trust_floor"@, text_schema()).insert(
        "fresh_within"@,
        pattern_schema(DURATION_PATTERN@),
    ).insert("visibility"@, text_schema())
}

/// The definition of a data point.
pub open spec fn data_point_schema() -> Tree {
    Tree::Obj(object_schema(["element", "min_capability"]@, point_properties()))
}

/// The definition of a data point.
fn data_point_json() -> (r: Json)
    ensures
        r@ == data_point_schema(),
{
    let mut p = Object::new();
    p.put("element", text_json());
    p.put("min_capability", choice_json(&CAPABILITY_CLASSES));
    p.put("cardinality", pattern_json(CARDINALITY_PATTERN));
    p.put("required_provenance", text_json());
    p.put("required_unit", text_json());
    p.put("subject_granularity", choice_json(&GRANULARITIES));
    let mut flag = Object::new();
    flag.put_str("type", "boolean");
    p.put("tier_a", Json::Obj(flag));
    let mut depth = Object::new();
    depth.put_str("type", "integer");
    depth.put_uint("minimum", 0);
    p.put("traversal_depth", Json::Obj(depth));
    p.put("trust_floor", text_json());
    p.put("fresh_within", pattern_json(DURATION_PATTERN));
    p.put("visibility", text_json());
    Json::Obj(object_json(&["element", "min_capability"], p))
}

/// The definition of a transform binding.
pub open spec fn transform_schema() -> Tree {
    Tree::Obj(
        no_members().insert("type"@, Tree::Str("object"@)).insert(
            "properties"@,
            Tree::Obj(
                no_members().insert("transform_ref"@, text_schema()).insert(
                    "transform_class"@,
                    text_schema(),
                ).insert("method_citation"@, text_schema()).insert("decision_rule"@, text_schema()).insert(
                    "uncertainty_ref"@,
                    text_schema(),
                ),
            ),
        ).insert("additionalProperties"@, Tree::Bool(true)),
    )
}

/// The definition of a transform binding.
fn transform_json() -> (r: Json)
    ensures
        r@ == transform_schema(),
{
    let mut p = Object::new();
    p.put("transform_ref", text_json());
    p.put("transform_class", text_json());
    p.put("method_citation", text_json());
    p.put("decision_rule", text_json());
    p.put("uncertainty_ref", text_json());
    let mut m = Object::new();
    m.put_str("type", "object");
    m.put("properties", Json::Obj(p));
    m.put_bool("additionalProperties", true);
    Json::Obj(m)
}

/// What a trigger of the given predicate class requires.
pub open spec fn case_schema(class: Seq<char>, required: Seq<&'static str>) -> Tree {
    Tree::Obj(
        no_members().insert(
            "if"@,
            Tree::Obj(
                no_members().insert(
                    "properties"@,
                    Tree::Obj(
                        no_members().insert(
                            "predicate_class"@,
                            Tree::Obj(no_members().insert("const"@, Tree::Str(class))),
                        ),
                    ),
                ).insert("required"@, list_tree(["predicate_class"]@)),
            ),
        ).insert("then"@, Tree::Obj(no_members().insert("required"@, list_tree(required)))),
    )
}

/// What a trigger of the given predicate class requires.
fn case_json(class: &str, required: &[&'static str]) -> (r: Json)
    ensures
        r@ == case_schema(class@, required@),
{
    let mut c = Object::new();
    c.put_str("const", class);
    let mut p = Object::new();
    p.put("predicate_class", Json::Obj(c));
    let mut cond = Object::new();
    cond.put("properties", Json::Obj(p));
    cond.put("required", list_json(&["predicate_class"]));
    let mut need = Object::new();
    need.put("required", list_json(required));
    let mut m = Object::new();
    m.put("if", Json::Obj(cond));
    m.put("then", Json::Obj(need));
    Json::Obj(m)
}

/// The properties of a trigger.
pub open spec fn trigger_properties() -> Map<Seq<char>, Tree> {
    no_members().insert("predicate_class"@, choice_schema(PREDICATE_CLASSES@)).insert(
        "predicate_ref"@,
        text_schema(),
    ).insert("evaluation_mode"@, text_schema()).insert("description"@, text_schema()).insert(
        "basis"@,
        choice_schema(TIME_BASES@),
    ).insert("operator"@, choice_schema(TIME_OPERATORS@)).insert(
        "duration"@,
        pattern_schema(DURATION_PATTERN@),
    )
}

/// The definition of a trigger.
pub open spec fn trigger_schema() -> Tree {
    Tree::Obj(
        object_schema(["predicate_class"]@, trigger_properties()).insert(
            "allOf"@,
            Tree::Arr(
                seq![
                    case_schema("fact_predicate"@, ["predicate_ref"]@),
                    case_schema("time"@, ["basis", "operator", "duration"]@),
                ],
            ),
        ),
    )
}

/// The definition of a trigger.
fn trigger_json() -> (r: Json)
    ensures
        r@ == trigger_schema(),
{
    let mut p = Object::new();
    p.put("predicate_class", choice_json(&PREDICATE_CLASSES));
    p.put("predicate_ref", text_json());
    p.put("evaluation_mode", text_json());
    p.put("description", text_json());
    p.put("basis", choice_json(&TIME_BASES));
    p.put("operator", choice_json(&TIME_OPERATORS));
    p.put("duration", pattern_json(DURATION_PATTERN));
    let mut m = object_json(&["predicate_class"], p);
    let mut cases: Vec<Json> = Vec::new();
    cases.push(case_json("fact_predicate", &["predicate_ref"]));
    cases.push(case_json("time", &["basis", "operator", "duration"]));
    assert(json::trees(cases@) =~= seq![
        case_schema("fact_predicate"@, ["predicate_ref"]@),
        case_schema("time"@, ["basis", "operator", "duration"]@),
    ]);
    m.put("allOf", Json::Arr(cases));
    Json::Obj(m)
}

/// The description of the profile schema.
pub const PROFILE_SCHEMA_DESCRIPTION: &'static str =
    "A profile is a registered, versioned lens on the neutral core. The manifest binds axes, trigger predicates, the declared subject capability class, legal basis, and the data points the profile requires. Generated from the canonical Rust model (unidpp-registry src/manifest.rs); unknown fields are allowed.";

/// The properties of a profile manifest.
pub open spec fn profile_properties() -> Map<Seq<char>, Tree> {
    no_members().insert("version"@, text_schema()).insert(
        "subject_capability"@,
        choice_schema(CAPABILITY_CLASSES@),
    ).insert("axes"@, array_schema(choice_schema(AXES@))).insert(
        "legal_basis"@,
        array_schema(ref_schema("#/$defs/legal_basis"@)),
    ).insert("data_points"@, array_schema(ref_schema("#/$defs/data_point"@))).insert(
        "transforms"@,
        array_schema(ref_schema("#/$defs/transform"@)),
    ).insert("triggers"@, array_schema(ref_schema("#/$defs/trigger"@)))
}

/// The definitions of the profile schema.
pub open spec fn profile_defs() -> Map<Seq<char>, Tree> {
    no_members().insert("legal_basis"@, legal_basis_schema()).insert(
        "data_point"@,
        data_point_schema(),
    ).insert("transform"@, transform_schema()).insert("trigger"@, trigger_schema())
}

/// The schema of a profile manifest.
pub open spec fn profile_schema() -> Tree {
    Tree::Obj(
        object_schema(["version"]@, profile_properties()).insert(
            "$schema"@,
            Tree::Str("https://json-schema.org/draft/2020-12/schema"@),
        ).insert("$id"@, Tree::Str("https://unidpp.org/schemas/profile-manifest/v1"@)).insert(
            "title"@,
            Tree::Str("UniDPP profile manifest"@),
        ).insert("description"@, Tree::Str(PROFILE_SCHEMA_DESCRIPTION@)).insert(
            "$defs"@,
            Tree::Obj(profile_defs()),
        ),
    )
}

/// The generated JSON Schema (draft 2020-12) for a profile manifest.
pub fn profile_manifest_schema() -> (r: Json)
    ensures
        r@ == profile_schema(),
{
    let mut p = Object::new();
    p.put("version", text_json());
    p.put("subject_capability", choice_json(&CAPABILITY_CLASSES));
    p.put("axes", array_json(choice_json(&AXES)));
    p.put("legal_basis", array_json(ref_json("#/$defs/legal_basis")));
    p.put("data_points", array_json(ref_json("#/$defs/data_point")));
    p.put("transforms", array_json(ref_json("#/$defs/transform")));
    p.put("triggers", array_json(ref_json("#/$defs/trigger")));
    let mut d = Object::new();
    d.put("legal_basis", legal_basis_json());
    d.put("data_point", data_point_json());
    d.put("transform", transform_json());
    d.put("trigger", trigger_json());
    let mut m = object_json(&["version"], p);
    m.put_str("$schema", "https://json-schema.org/draft/2020-12/schema");
    m.put_str("$id", "https://unidpp.org/schemas/profile-manifest/v1");
    m.put_str("title", "UniDPP profile manifest");
    m.put_str("description", PROFILE_SCHEMA_DESCRIPTION);
    m.put("$defs", Json::Obj(d));
    Json::Obj(m)
}

/// Validates a manifest against the generated schema.
pub fn validate_manifest(manifest: &Json) -> (r: Result<(), Vec<SchemaError>>)
    ensures
        match r {
            Ok(_) => schema::violations(profile_schema(), manifest@).len() == 0,
            Err(e) => schema::violations(profile_schema(), manifest@).len() > 0 && schema::error_views(
                e@,
            ) == schema::violations(profile_schema(), manifest@),
        },
{
    schema::validate(&profile_manifest_schema(), manifest)
}

/// A schema document with the instant it is served at.
pub open spec fn stamped(t: Tree, as_of: Timestamp) -> Tree {
    match t {
        Tree::Obj(m) => Tree::Obj(m.insert("as_of"@, Tree::Str(time::stamp_text(as_of.secs as int)))),
        _ => t,
    }
}

/// Stamps a schema document for serving; `as_of` is no validation keyword.
pub fn stamped_schema(schema: Json, as_of: Timestamp) -> (r: Json)
    ensures
        r@ == stamped(schema@, as_of),
{
    match schema {
        Json::Obj(o) => {
            let mut m = o;
            m.put("as_of", Json::Str(as_of.to_string()));
            Json::Obj(m)
        },
        other => other,
    }
}

/// One required data point of a profile.
#[derive(Debug, PartialEq, Eq)]
pub struct DataPoint {
    pub element: String,
    pub min_capability: String,
    /// Bounded freshness demand (ISO 8601 duration), if any.
    pub fresh_within: Option<String>,
}

/// The content of a data point.
pub struct DataPointView {
    pub element: Seq<char>,
    pub min_capability: Seq<char>,
    pub fresh_within: Option<Seq<char>>,
}

impl View for DataPoint {
    type V = DataPointView;

    open spec fn view(&self) -> DataPointView {
        DataPointView {
            element: self.element@,
            min_capability: self.min_capability@,
            fresh_within: text::opt_view(self.fresh_within),
        }
    }
}

/// A text that a data point has to carry.
pub open spec fn point_text(m: Map<Seq<char>, Tree>, key: Seq<char>) -> Result<Seq<char>, Seq<char>> {
    match json::member(m, key) {
        Some(Tree::Str(s)) => if s.len() > 0 {
            Ok(s)
        } else {
            Err("data point missing `"@ + key + "`"@)
        },
        _ => Err("data point missing `"@ + key + "`"@),
    }
}

/// Reads a text that a data point has to carry.
fn read_point_text(o: &Object, key: &str) -> (r: Result<String, String>)
    ensures
        match r {
            Ok(s) => point_text(o@, key@) == Ok::<Seq<char>, Seq<char>>(s@),
            Err(e) => point_text(o@, key@) == Err::<Seq<char>, Seq<char>>(e@),
        },
{
    if let Some(s) = o.get_str(key) {
        if !s.is_empty() {
            return Ok(s.to_owned());
        }
    }
    Err(text::cat3("data point missing `", key, "`"))
}

/// What a data point parses to.
pub open spec fn parsed_point(t: Tree) -> Result<DataPointView, Seq<char>> {
    match json::obj_of(t) {
        None => Err("data point must be an object"@),
        Some(m) => {
            let element = point_text(m, "element"@);
            let capability = point_text(m, "min_capability"@);
            let fresh = fields::present(m, "fresh_within"@);
            if fresh is Some && json::str_of(fresh->Some_0) is None {
                Err("`fresh_within` must be a string"@)
            } else if element is Err {
                Err(element->Err_0)
            } else if capability is Err {
                Err(capability->Err_0)
            } else {
                Ok(
                    DataPointView {
                        element: element->Ok_0,
                        min_capability: capability->Ok_0,
                        fresh_within: match fresh {
                            Some(Tree::Str(s)) => if s.len() > 0 {
                                Some(s)
                            } else {
                                None
                            },
                            _ => None,
                        },
                    },
                )
            }
        },
    }
}

impl DataPoint {
    /// Parses a data point.
    fn from_json(v: &Json) -> (r: Result<DataPoint, String>)
        ensures
            match r {
                Ok(d) => parsed_point(v@) == Ok::<DataPointView, Seq<char>>(d@),
                Err(e) => parsed_point(v@) == Err::<DataPointView, Seq<char>>(e@),
            },
    {
        let o = match v.as_object() {
            Some(o) => o,
            None => return Err("data point must be an object".to_owned()),
        };
        let fresh_within = match fields::read_present(o, "fresh_within") {
            None => None,
            Some(x) => match x.as_str() {
                Some(s) => if s.is_empty() {
                    None
                } else {
                    Some(s.to_owned())
                },
                None => return Err("`fresh_within` must be a string".to_owned()),
            },
        };
        let element = match read_point_text(o, "element") {
            Ok(s) => s,
            Err(e) => return Err(e),
        };
        let min_capability = match read_point_text(o, "min_capability") {
            Ok(s) => s,
            Err(e) => return Err(e),
        };
        Ok(DataPoint { element, min_capability, fresh_within })
    }
}

/// A trigger predicate in typed form.
#[derive(Debug, PartialEq, Eq)]
pub enum Trigger {
    /// Evaluated by the subject's custodian, never by the registry.
    Fact { predicate_ref: String },
    /// Clock-fired.
    Time(TimeTrigger),
}

/// The content of a trigger.
pub enum TriggerView {
    Fact { predicate_ref: Seq<char> },
    Time(TimeTriggerView),
}

impl View for Trigger {
    type V = TriggerView;

    open spec fn view(&self) -> TriggerView {
        match *self {
            Trigger::Fact { predicate_ref } => TriggerView::Fact { predicate_ref: predicate_ref@ },
            Trigger::Time(t) => TriggerView::Time(t@),
        }
    }
}

/// What a trigger parses to.
pub open spec fn parsed_predicate(t: Tree) -> Result<TriggerView, Seq<char>> {
    let class = json::get_str(t, "predicate_class"@);
    if class == Some("fact_predicate"@) {
        match json::get_str(t, "predicate_ref"@) {
            Some(s) => if s.len() > 0 {
                Ok(TriggerView::Fact { predicate_ref: s })
            } else {
                Err("fact predicate missing `predicate_ref`"@)
            },
            None => Err("fact predicate missing `predicate_ref`"@),
        }
    } else if class == Some("time"@) {
        match clock::parsed_trigger(t) {
            Ok(x) => Ok(TriggerView::Time(x)),
            Err(e) => Err(e),
        }
    } else {
        Err("trigger missing a valid `predicate_class`"@)
    }
}

impl Trigger {
    /// Parses a trigger.
    fn from_json(t: &Json) -> (r: Result<Trigger, String>)
        ensures
            match r {
                Ok(x) => parsed_predicate(t@) == Ok::<TriggerView, Seq<char>>(x@),
                Err(e) => parsed_predicate(t@) == Err::<TriggerView, Seq<char>>(e@),
            },
    {
        let (fact, time) = match t.get_str("predicate_class") {
            Some(c) => (text::same(c, "fact_predicate"), text::same(c, "time")),
            None => (false, false),
        };
        if fact {
            if let Some(s) = t.get_str("predicate_ref") {
                if !s.is_empty() {
                    return Ok(Trigger::Fact { predicate_ref: s.to_owned() });
                }
            }
            Err("fact predicate missing `predicate_ref`".to_owned())
        } else if time {
            match clock::parse_time_trigger(t) {
                Ok(x) => Ok(Trigger::Time(x)),
                Err(e) => Err(e),
            }
        } else {
            Err("trigger missing a valid `predicate_class`".to_owned())
        }
    }
}

/// The typed profile manifest.
#[derive(Debug, PartialEq, Eq)]
pub struct ProfileManifest {
    pub version: String,
    pub subject_capability: Option<String>,
    pub axes: Vec<String>,
    /// Legal-basis entries as they stand.
    pub legal_basis: Vec<Json>,
    /// Transform bindings as they stand.
    pub transforms: Vec<Json>,
    pub triggers: Vec<Trigger>,
    pub data_points: Vec<DataPoint>,
}

/// The content of a profile manifest.
pub struct ManifestView {
    pub version: Seq<char>,
    pub subject_capability: Option<Seq<char>>,
    pub axes: Seq<Seq<char>>,
    pub legal_basis: Seq<Tree>,
    pub transforms: Seq<Tree>,
    pub triggers: Seq<TriggerView>,
    pub data_points: Seq<DataPointView>,
}

/// The contents of a sequence of triggers.
pub open spec fn predicate_views(s: Seq<Trigger>) -> Seq<TriggerView> {
    s.map_values(|t: Trigger| t@)
}

/// The contents of a sequence of data points.
pub open spec fn point_views(s: Seq<DataPoint>) -> Seq<DataPointView> {
    s.map_values(|d: DataPoint| d@)
}

impl View for ProfileManifest {
    type V = ManifestView;

    open spec fn view(&self) -> ManifestView {
        ManifestView {
            version: self.version@,
            subject_capability: text::opt_view(self.subject_capability),
            axes: text::views(self.axes@),
            legal_basis: json::trees(self.legal_basis@),
            transforms: json::trees(self.transforms@),
            triggers: predicate_views(self.triggers@),
            data_points: point_views(self.data_points@),
        }
    }
}

/// The items of the member `key`, which may be absent.
pub open spec fn raw_list(m: Map<Seq<char>, Tree>, key: Seq<char>) -> Result<Seq<Tree>, Seq<char>> {
    match fields::present(m, key) {
        None => Ok(Seq::empty()),
        Some(Tree::Arr(a)) => Ok(a),
        Some(_) => Err("`"@ + key + "` must be an array"@),
    }
}

/// Reads the items of the member `key`.
fn read_raw_list(o: &Object, key: &str) -> (r: Result<Vec<Json>, String>)
    ensures
        match r {
            Ok(v) => raw_list(o@, key@) == Ok::<Seq<Tree>, Seq<char>>(json::trees(v@)),
            Err(e) => raw_list(o@, key@) == Err::<Seq<Tree>, Seq<char>>(e@),
        },
{
    match fields::read_present(o, key) {
        None => {
            let v: Vec<Json> = Vec::new();
            assert(json::trees(v@) =~= Seq::<Tree>::empty());
            Ok(v)
        },
        Some(Json::Arr(a)) => Ok(fields::clone_list(a)),
        Some(_) => Err(text::cat3("`", key, "` must be an array")),
    }
}

/// The first `n` items as texts that are not empty.
pub open spec fn texts_of(ts: Seq<Tree>, key: Seq<char>, n: int) -> Result<Seq<Seq<char>>, Seq<char>>
    decreases n,
{
    if n <= 0 {
        Ok(Seq::empty())
    } else {
        match texts_of(ts, key, n - 1) {
            Err(e) => Err(e),
            Ok(got) => match ts[n - 1] {
                Tree::Str(s) => if s.len() > 0 {
                    Ok(got.push(s))
                } else {
                    Err("`"@ + key + "` entries must be non-empty strings"@)
                },
                _ => Err("`"@ + key + "` entries must be non-empty strings"@),
            },
        }
    }
}

/// The texts of the member `key`, which may be absent.
pub open spec fn text_list(m: Map<Seq<char>, Tree>, key: Seq<char>) -> Result<
    Seq<Seq<char>>,
    Seq<char>,
> {
    match raw_list(m, key) {
        Ok(a) => texts_of(a, key, a.len() as int),
        Err(e) => Err(e),
    }
}

proof fn texts_of_fail(ts: Seq<Tree>, key: Seq<char>, n: int, k: int)
    requires
        0 <= n <= k,
        texts_of(ts, key, n) is Err,
    ensures
        texts_of(ts, key, k) == texts_of(ts, key, n),
    decreases k - n,
{
    if n < k {
        texts_of_fail(ts, key, n, k - 1);
    }
}

/// Reads the texts of the member `key`.
fn read_text_list(o: &Object, key: &str) -> (r: Result<Vec<String>, String>)
    ensures
        match r {
            Ok(v) => text_list(o@, key@) == Ok::<Seq<Seq<char>>, Seq<char>>(text::views(v@)),
            Err(e) => text_list(o@, key@) == Err::<Seq<Seq<char>>, Seq<char>>(e@),
        },
{
    let a = match read_raw_list(o, key) {
        Ok(a) => a,
        Err(e) => return Err(e),
    };
    let ghost ts = json::trees(a@);
    let mut out: Vec<String> = Vec::new();
    let mut i: usize = 0;
    assert(text::views(out@) =~= Seq::<Seq<char>>::empty());
    while i < a.len()
        invariant
            i <= a@.len(),
            ts == json::trees(a@),
            text_list(o@, key@) == texts_of(ts, key@, ts.len() as int),
            texts_of(ts, key@, i as int) == Ok::<Seq<Seq<char>>, Seq<char>>(text::views(out@)),
        decreases a@.len() - i,
    {
        assert(ts[i as int] == a@[i as int]@);
        let s: &str = match a[i].as_str() {
            Some(s) => s,
            None => "",
        };
        if a[i].as_str().is_none() || s.is_empty() {
            proof {
                texts_of_fail(ts, key@, i + 1, ts.len() as int);
            }
            return Err(text::cat3("`", key, "` entries must be non-empty strings"));
        }
        let ghost before = text::views(out@);
        out.push(s.to_owned());
        assert(text::views(out@) =~= before.push(s@));
        i = i + 1;
    }
    Ok(out)
}

/// What the first `n` triggers parse to.
pub open spec fn parsed_predicates(ts: Seq<Tree>, n: int) -> Result<Seq<TriggerView>, Seq<char>>
    decreases n,
{
    if n <= 0 {
        Ok(Seq::empty())
    } else {
        match parsed_predicates(ts, n - 1) {
            Err(e) => Err(e),
            Ok(got) => match parsed_predicate(ts[n - 1]) {
                Ok(t) => Ok(got.push(t)),
                Err(e) => Err(e),
            },
        }
    }
}

proof fn parsed_predicates_fail(ts: Seq<Tree>, n: int, k: int)
    requires
        0 <= n <= k,
        parsed_predicates(ts, n) is Err,
    ensures
        parsed_predicates(ts, k) == parsed_predicates(ts, n),
    decreases k - n,
{
    if n < k {
        parsed_predicates_fail(ts, n, k - 1);
    }
}

/// Parses the triggers.
fn read_predicates(a: &Vec<Json>) -> (r: Result<Vec<Trigger>, String>)
    ensures
        match r {
            Ok(v) => parsed_predicates(json::trees(a@), a@.len() as int) == Ok::<
                Seq<TriggerView>,
                Seq<char>,
            >(predicate_views(v@)),
            Err(e) => parsed_predicates(json::trees(a@), a@.len() as int) == Err::<
                Seq<TriggerView>,
                Seq<char>,
            >(e@),
        },
{
    let ghost ts = json::trees(a@);
    let mut out: Vec<Trigger> = Vec::new();
    let mut i: usize = 0;
    assert(predicate_views(out@) =~= Seq::<TriggerView>::empty());
    while i < a.len()
        invariant
            i <= a@.len(),
            ts == json::trees(a@),
            parsed_predicates(ts, i as int) == Ok::<Seq<TriggerView>, Seq<char>>(
                predicate_views(out@),
            ),
        decreases a@.len() - i,
    {
        assert(ts[i as int] == a@[i as int]@);
        match Trigger::from_json(&a[i]) {
            Ok(t) => {
                let ghost before = predicate_views(out@);
                out.push(t);
                assert(predicate_views(out@) =~= before.push(t@));
            },
            Err(e) => {
                proof {
                    parsed_predicates_fail(ts, i + 1, a@.len() as int);
                }
                return Err(e);
            },
        }
        i = i + 1;
    }
    Ok(out)
}

/// What the first `n` data points parse to.
pub open spec fn parsed_points(ts: Seq<Tree>, n: int) -> Result<Seq<DataPointView>, Seq<char>>
    decreases n,
{
    if n <= 0 {
        Ok(Seq::empty())
    } else {
        match parsed_points(ts, n - 1) {
            Err(e) => Err(e),
            Ok(got) => match parsed_point(ts[n - 1]) {
                Ok(d) => Ok(got.push(d)),
                Err(e) => Err(e),
            },
        }
    }
}

proof fn parsed_points_fail(ts: Seq<Tree>, n: int, k: int)
    requires
        0 <= n <= k,
        parsed_points(ts, n) is Err,
    ensures
        parsed_points(ts, k) == parsed_points(ts, n),
    decreases k - n,
{
    if n < k {
        parsed_points_fail(ts, n, k - 1);
    }
}

/// Parses the data points.
fn read_points(a: &Vec<Json>) -> (r: Result<Vec<DataPoint>, String>)
    ensures
        match r {
            Ok(v) => parsed_points(json::trees(a@), a@.len() as int) == Ok::<
                Seq<DataPointView>,
                Seq<char>,
            >(point_views(v@)),
            Err(e) => parsed_points(json::trees(a@), a@.len() as int) == Err::<
                Seq<DataPointView>,
                Seq<char>,
            >(e@),
        },
{
    let ghost ts = json::trees(a@);
    let mut out: Vec<DataPoint> = Vec::new();
    let mut i: usize = 0;
    assert(point_views(out@) =~= Seq::<DataPointView>::empty());
    while i < a.len()
        invariant
            i <= a@.len(),
            ts == json::trees(a@),
            parsed_points(ts, i as int) == Ok::<Seq<DataPointView>, Seq<char>>(point_views(out@)),
        decreases a@.len() - i,
    {
        assert(ts[i as int] == a@[i as int]@);
        match DataPoint::from_json(&a[i]) {
            Ok(d) => {
                let ghost before = point_views(out@);
                out.push(d);
                assert(point_views(out@) =~= before.push(d@));
            },
            Err(e) => {
                proof {
                    parsed_points_fail(ts, i + 1, a@.len() as int);
                }
                return Err(e);
            },
        }
        i = i + 1;
    }
    Ok(out)
}

/// The declared subject class.
pub open spec fn declared_class(m: Map<Seq<char>, Tree>) -> Result<Option<Seq<char>>, Seq<char>> {
    match fields::present(m, "subject_capability"@) {
        None => Ok(None),
        Some(Tree::Str(s)) => if s.len() > 0 {
            Ok(Some(s))
        } else {
            Err("`subject_capability` must be a string"@)
        },
        Some(_) => Err("`subject_capability` must be a string"@),
    }
}

/// What a manifest parses to.
pub open spec fn parsed_manifest(t: Tree) -> Result<ManifestView, Seq<char>> {
    match json::obj_of(t) {
        None => Err("manifest must be an object"@),
        Some(m) => {
            let version = json::get_str(t, "version"@);
            let class = declared_class(m);
            let raw_triggers = raw_list(m, "triggers"@);
            let triggers = parsed_predicates(
                raw_triggers->Ok_0,
                raw_triggers->Ok_0.len() as int,
            );
            let raw_points = raw_list(m, "data_points"@);
            let points = parsed_points(raw_points->Ok_0, raw_points->Ok_0.len() as int);
            let axes = text_list(m, "axes"@);
            let basis = raw_list(m, "legal_basis"@);
            let transforms = raw_list(m, "transforms"@);
            if version is None || version->Some_0.len() == 0 {
                Err("manifest missing `version`"@)
            } else if class is Err {
                Err(class->Err_0)
            } else if raw_triggers is Err {
                Err(raw_triggers->Err_0)
            } else if triggers is Err {
                Err(triggers->Err_0)
            } else if raw_points is Err {
                Err(raw_points->Err_0)
            } else if points is Err {
                Err(points->Err_0)
            } else if axes is Err {
                Err(axes->Err_0)
            } else if basis is Err {
                Err(basis->Err_0)
            } else if transforms is Err {
                Err(transforms->Err_0)
            } else {
                Ok(
                    ManifestView {
                        version: version->Some_0,
                        subject_capability: class->Ok_0,
                        axes: axes->Ok_0,
                        legal_basis: basis->Ok_0,
                        transforms: transforms->Ok_0,
                        triggers: triggers->Ok_0,
                        data_points: points->Ok_0,
                    },
                )
            }
        },
    }
}

impl ProfileManifest {
    /// Parses the typed model from a manifest document.
    pub fn from_json(v: &Json) -> (r: Result<ProfileManifest, String>)
        ensures
            match r {
                Ok(x) => parsed_manifest(v@) == Ok::<ManifestView, Seq<char>>(x@),
                Err(e) => parsed_manifest(v@) == Err::<ManifestView, Seq<char>>(e@),
            },
    {
        let o = match v.as_object() {
            Some(o) => o,
            None => return Err("manifest must be an object".to_owned()),
        };
        let version = match o.get_str("version") {
            Some(s) => if s.is_empty() {
                return Err("manifest missing `version`".to_owned());
            } else {
                s.to_owned()
            },
            None => return Err("manifest missing `version`".to_owned()),
        };
        let subject_capability = match fields::read_present(o, "subject_capability") {
            None => None,
            Some(x) => match x.as_str() {
                Some(s) => if s.is_empty() {
                    return Err("`subject_capability` must be a string".to_owned());
                } else {
                    Some(s.to_owned())
                },
                None => return Err("`subject_capability` must be a string".to_owned()),
            },
        };
        let raw_triggers = match read_raw_list(o, "triggers") {
            Ok(a) => a,
            Err(e) => return Err(e),
        };
        let triggers = match read_predicates(&raw_triggers) {
            Ok(x) => x,
            Err(e) => return Err(e),
        };
        let raw_points = match read_raw_list(o, "data_points") {
            Ok(a) => a,
            Err(e) => return Err(e),
        };
        let data_points = match read_points(&raw_points) {
            Ok(x) => x,
            Err(e) => return Err(e),
        };
        let axes = match read_text_list(o, "axes") {
            Ok(x) => x,
            Err(e) => return Err(e),
        };
        let legal_basis = match read_raw_list(o, "legal_basis") {
            Ok(a) => a,
            Err(e) => return Err(e),
        };
        let transforms = match read_raw_list(o, "transforms") {
            Ok(a) => a,
            Err(e) => return Err(e),
        };
        Ok(
            ProfileManifest {
                version,
                subject_capability,
                axes,
                legal_basis,
                transforms,
                triggers,
                data_points,
            },
        )
    }
}

/// Data points are read one by one, each from the members of its object.
pub proof fn points_are_read_from_their_members(ts: Seq<Tree>, n: int)
    requires
        0 <= n <= ts.len(),
    ensures
        parsed_points(ts, n) matches Ok(ds) ==> ds.len() == n && forall|i: int|
            0 <= i < n ==> (ts[i] matches Tree::Obj(m) && {
                let d = #[trigger] ds[i];
                &&& m.dom().contains("element"@) && m["element"@] == Tree::Str(d.element)
                &&& m.dom().contains("min_capability"@) && m["min_capability"@] == Tree::Str(
                    d.min_capability,
                )
                &&& match d.fresh_within {
                    Some(f) => f.len() > 0 && m.dom().contains("fresh_within"@) && m["fresh_within"@]
                        == Tree::Str(f),
                    None => !m.dom().contains("fresh_within"@) || m["fresh_within"@] == Tree::Null
                        || (m["fresh_within"@] matches Tree::Str(f) && f.len() == 0),
                }
            }),
    decreases n,
{
    if n > 0 {
        points_are_read_from_their_members(ts, n - 1);
        if let Ok(ds) = parsed_points(ts, n) {
            let got = parsed_points(ts, n - 1)->Ok_0;
            assert forall|i: int| 0 <= i < n implies (ts[i] matches Tree::Obj(m) && {
                let d = #[trigger] ds[i];
                &&& m.dom().contains("element"@) && m["element"@] == Tree::Str(d.element)
                &&& m.dom().contains("min_capability"@) && m["min_capability"@] == Tree::Str(
                    d.min_capability,
                )
                &&& match d.fresh_within {
                    Some(f) => f.len() > 0 && m.dom().contains("fresh_within"@) && m["fresh_within"@]
                        == Tree::Str(f),
                    None => !m.dom().contains("fresh_within"@) || m["fresh_within"@] == Tree::Null
                        || (m["fresh_within"@] matches Tree::Str(f) && f.len() == 0),
                }
            }) by {
                if i < n - 1 {
                    assert(ds[i] == got[i]);
                } else {
                    assert(ds[i] == parsed_point(ts[i])->Ok_0);
                }
            }
        }
    }
}

/// A manifest is read from its members: its version, the declared class
/// where there is one, and every data point of its list.
pub proof fn manifests_are_read_from_their_members(t: Tree, i: int)
    ensures
        parsed_manifest(t) matches Ok(p) ==> {
            &&& t matches Tree::Obj(m)
            &&& m.dom().contains("version"@) && m["version"@] == Tree::Str(p.version)
            &&& p.version.len() > 0
            &&& match p.subject_capability {
                Some(c) => m.dom().contains("subject_capability"@) && m["subject_capability"@]
                    == Tree::Str(c),
                None => !m.dom().contains("subject_capability"@) || m["subject_capability"@]
                    == Tree::Null,
            }
            &&& m.dom().contains("data_points"@) ==> (m["data_points"@] matches Tree::Arr(a) ==> {
                &&& p.data_points.len() == a.len()
                &&& 0 <= i < a.len() ==> (a[i] matches Tree::Obj(o) && o.dom().contains(
                    "min_capability"@,
                ) && o["min_capability"@] == Tree::Str(p.data_points[i].min_capability)
                    && o.dom().contains("element"@) && o["element"@] == Tree::Str(
                    p.data_points[i].element,
                ))
            })
        },
{
    if let Ok(p) = parsed_manifest(t) {
        let m = t->Obj_0;
        if m.dom().contains("data_points"@) {
            if let Tree::Arr(a) = m["data_points"@] {
                points_are_read_from_their_members(a, a.len() as int);
                if 0 <= i < a.len() {
                    assert(p.data_points[i].element == p.data_points[i].element);
                }
            }
        }
    }
}

} // verus!
