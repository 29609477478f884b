//! The entry document of the service: its endpoints, the classes and
//! statuses it knows, its subregisters and its conventions.

use vstd::prelude::*;
use crate::discovery::ServiceClass;
use crate::discovery;
use crate::items_api::STATUS_NAMES;
use crate::json::{Json, Object, Tree};
use crate::manifest;
use crate::model;
use crate::model::ItemClass;
use crate::text;

verus! {

/// The names of the endpoints.
pub const ENDPOINT_NAMES: [&'static str; 28] = [
    "register_item",
    "list_items",
    "item_as_of",
    "supersede",
    "supersession_chain",
    "bind_applicability",
    "applicability_as_of",
    "register_service",
    "list_services",
    "service_as_of",
    "supersede_service",
    "service_supersession",
    "register_protocol_binding",
    "list_protocol_bindings",
    "protocol_binding",
    "register_verification_mechanism",
    "list_verification_mechanisms",
    "verification_mechanism",
    "profile_manifest_schema",
    "deposit_model",
    "list_models",
    "model_as_of",
    "validate_model",
    "list_cross_register_mappings",
    "applicability_subject_facts",
    "audit_log",
    "seed",
    "health",
];

/// How the endpoints are called.
pub const ENDPOINT_CALLS: [&'static str; 28] = [
    "POST /items",
    "GET /items?class=&register=&at=",
    "GET /items/{id}?at=",
    "POST /items/{id}/versions",
    "GET /items/{id}/supersession?from=",
    "POST /applicability",
    "GET /applicability?product_type=&at=",
    "POST /services",
    "GET /services?class=&jurisdiction=&at=",
    "GET /services/{id}?at=",
    "POST /services/{id}/versions",
    "GET /services/{id}/supersession?from=",
    "POST /protocol-bindings",
    "GET /protocol-bindings",
    "GET /protocol-bindings/{id}",
    "POST /verification-mechanisms",
    "GET /verification-mechanisms",
    "GET /verification-mechanisms/{id}",
    "GET /schemas/profile-manifest",
    "POST /models (EXPRESS source + metadata; content hash + expressir validation)",
    "GET /models?register=&at=",
    "GET /models/{id}?at=&hash= (hash-pinned retrieval)",
    "POST /models/{id}/validate",
    "GET /cross-register-mappings?item=&source=&target=&register=&at=",
    "GET /applicability?product_type=&at=&subject_facts=<json> (or POST with {product_type, at, subject_facts}) — evaluates clock predicates",
    "GET /admin/log?limit=&offset=",
    "POST /admin/seed",
    "GET /healthz",
];

/// The statuses of service versions, by name.
pub const SERVICE_STATUS_NAMES: [&'static str; 4] = [
    "active",
    "superseded",
    "suspended",
    "succeeded",
];

/// The names of the registered intake checks.
pub const CHECK_NAMES: [&'static str; 3] = [
    "profile-manifest-schema",
    "profile-satisfiability",
    "cross-register-mapping-integrity",
];

/// What the service is.
pub const DESCRIPTION: &'static str =
    "UniDPP ISO 19135 register service: item registration, version supersession, point-in-time resolution, applicability bindings, and the discovery registry (C3 services, C4 protocol bindings, C5 verification mechanisms)";

/// What a descriptor's signature covers.
pub const SIGNATURE_CONVENTION: &'static str =
    "Ed25519 over canonical-JSON of body (signature block excluded); operator id is content-derived from the public key";

/// What the operator keyring holds.
pub const KEYRING_CONVENTION: &'static str =
    "seeded dev keyring: unidpp-{registry,issuer,resolver,trust,log,archive,cli-verifier,edge}; loaded at startup; signatures are verified at intake only (replay re-applies the stored record)";

/// How models are validated.
pub const MODEL_CONVENTION: &'static str =
    "expressir (gem install expressir; `expressir validate load` run as a subprocess); deposits without expressir on PATH are stored with validation.status = pending";

/// Who may change the register.
pub const AUTH_CONVENTION: &'static str =
    "mutations require a Bearer token when UNIDPP_REGISTRY_ADMIN_TOKEN is set";

/// The first `n` pairs of a name and a text as members.
pub open spec fn paired(names: Seq<&'static str>, values: Seq<&'static str>, n: int) -> Map<
    Seq<char>,
    Tree,
>
    decreases n,
{
    if n <= 0 {
        Map::empty()
    } else {
        paired(names, values, n - 1).insert(names[n - 1]@, Tree::Str(values[n - 1]@))
    }
}

/// Members from pairs of a name and a text.
fn pair(names: &[&'static str], values: &[&'static str]) -> (r: Object)
    requires
        names@.len() == values@.len(),
    ensures
        r@ == paired(names@, values@, names@.len() as int),
{
    let mut m = Object::new();
    let mut i: usize = 0;
    while i < names.len()
        invariant
            i <= names@.len(),
            names@.len() == values@.len(),
            m@ == paired(names@, values@, i as int),
        decreases names@.len() - i,
    {
        m.put_str(names[i], values[i]);
        i = i + 1;
    }
    m
}

/// The entry of a subregister.
pub open spec fn subregister_tree(c: ItemClass) -> Tree {
    Tree::Obj(
        Map::<Seq<char>, Tree>::empty().insert("class"@, Tree::Str(model::class_name(c))).insert(
            "path"@,
            Tree::Str("/"@ + model::class_plural(c)),
        ),
    )
}

/// The first `n` subregisters, by plural name.
pub open spec fn subregisters(cs: Seq<ItemClass>, n: int) -> Map<Seq<char>, Tree>
    decreases n,
{
    if n <= 0 {
        Map::empty()
    } else {
        subregisters(cs, n - 1).insert(
            model::class_plural(cs[n - 1]),
            subregister_tree(cs[n - 1]),
        )
    }
}

/// The subregisters, by plural name.
fn list_subregisters() -> (r: Object)
    ensures
        r@ == subregisters(ItemClass::ALL@, 8),
{
    let mut m = Object::new();
    let mut i: usize = 0;
    while i < 8
        invariant
            i <= 8,
            m@ == subregisters(ItemClass::ALL@, i as int),
        decreases 8 - i,
    {
        let c = ItemClass::ALL[i];
        let path = text::cat2("/", c.plural());
        let mut e = Object::new();
        e.put_str("class", c.as_str());
        e.put_str("path", path.as_str());
        m.put(c.plural(), Json::Obj(e));
        i = i + 1;
    }
    m
}

/// The entry document.
pub open spec fn entry_tree() -> Tree {
    Tree::Obj(
        Map::<Seq<char>, Tree>::empty().insert("service"@, Tree::Str("unidpp-registry"@)).insert(
            "description"@,
            Tree::Str(DESCRIPTION@),
        ).insert("endpoints"@, Tree::Obj(paired(ENDPOINT_NAMES@, ENDPOINT_CALLS@, 28))).insert(
            "item_classes"@,
            manifest::list_tree(model::CLASS_NAMES@),
        ).insert("statuses"@, manifest::list_tree(STATUS_NAMES@)).insert(
            "service_classes"@,
            manifest::list_tree(discovery::SERVICE_CLASS_NAMES@),
        ).insert("service_statuses"@, manifest::list_tree(SERVICE_STATUS_NAMES@)).insert(
            "subregisters"@,
            Tree::Obj(subregisters(ItemClass::ALL@, 8)),
        ).insert(
            "as_of"@,
            Tree::Obj(
                Map::<Seq<char>, Tree>::empty().insert(
                    "query_parameter"@,
                    Tree::Str("at (alias: asof)"@),
                ).insert("response_header"@, Tree::Str("x-as-of"@)),
            ),
        ).insert(
            "discovery"@,
            Tree::Obj(
                Map::<Seq<char>, Tree>::empty().insert(
                    "service_descriptor_signature"@,
                    Tree::Str(SIGNATURE_CONVENTION@),
                ).insert("operator_keyring"@, Tree::Str(KEYRING_CONVENTION@)),
            ),
        ).insert("intake_checks"@, manifest::list_tree(CHECK_NAMES@)).insert(
            "model_validation"@,
            Tree::Str(MODEL_CONVENTION@),
        ).insert("auth"@, Tree::Str(AUTH_CONVENTION@)),
    )
}

/// `GET /`: the entry document.
pub fn entry_document() -> (r: Json)
    ensures
        r@ == entry_tree(),
{
    let mut stamps = Object::new();
    stamps.put_str("query_parameter", "at (alias: asof)");
    stamps.put_str("response_header", "x-as-of");
    let mut conventions = Object::new();
    conventions.put_str("service_descriptor_signature", SIGNATURE_CONVENTION);
    conventions.put_str("operator_keyring", KEYRING_CONVENTION);
    let mut m = Object::new();
    m.put_str("service", "unidpp-registry");
    m.put_str("description", DESCRIPTION);
    m.put("endpoints", Json::Obj(pair(&ENDPOINT_NAMES, &ENDPOINT_CALLS)));
    m.put("item_classes", manifest::list_json(&model::CLASS_NAMES));
    m.put("statuses", manifest::list_json(&STATUS_NAMES));
    m.put("service_classes", manifest::list_json(&discovery::SERVICE_CLASS_NAMES));
    m.put("service_statuses", manifest::list_json(&SERVICE_STATUS_NAMES));
    m.put("subregisters", Json::Obj(list_subregisters()));
    m.put("as_of", Json::Obj(stamps));
    m.put("discovery", Json::Obj(conventions));
    m.put("intake_checks", manifest::list_json(&CHECK_NAMES));
    m.put_str("model_validation", MODEL_CONVENTION);
    m.put_str("auth", AUTH_CONVENTION);
    Json::Obj(m)
}

/// The settings that switch something off.
pub const OFF_WORDS: [&'static str; 4] = ["0", "false", "no", "off"];

/// Whether a setting leaves a feature on: anything but a word for off.
pub fn setting_is_on(value: &str) -> (r: bool)
    ensures
        r == !text::is_listed(OFF_WORDS@, text::lowered(text::trimmed(value@))),
{
    let trimmed = text::trim(value);
    let word = text::lower(trimmed.as_str());
    !text::listed(&OFF_WORDS, word.as_str())
}

/// The names of the classes, statuses and service classes in the entry
/// document are those that the service knows.
pub proof fn listed_names_are_known(i: int)
    ensures
        0 <= i < 8 ==> model::CLASS_NAMES@[i]@ == model::class_name(ItemClass::ALL@[i]),
        0 <= i < 3 ==> STATUS_NAMES@[i]@ == model::status_name(model::Status::VALUES@[i]),
        0 <= i < 9 ==> discovery::SERVICE_CLASS_NAMES@[i]@ == discovery::service_class_name(
            ServiceClass::ALL@[i],
        ),
{
}

} // verus!
