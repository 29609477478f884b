//! The seed dataset: units with their ISO 80000 citations, protocol
//! bindings, verification mechanisms and the project's own services, each
//! descriptor signed by its operator.
//!
//! Seeding goes through the audit log like any other mutation, and it is
//! all or nothing: where one entry is already registered, nothing is.

use vstd::prelude::*;
use crate::discovery;
use crate::discovery::{
    MechanismView, ProtocolBinding, ProtocolView, ServiceClass, ServiceDescriptor, ServiceStatus,
    ServiceVersion, ServiceVersionView, ServiceView, VerificationMechanism,
};
use crate::discovery_api;
use crate::express;
use crate::express::{RunView, ValidatorRun};
use crate::items_api;
use crate::json;
use crate::json::{Json, Object, Tree};
use crate::model::{Item, ItemClass, ItemView};
use crate::models_api;
use crate::models_api::{ModelRequest, ModelRequestView};
use crate::request;
use crate::request::{Refusal, RefusalView, Reply, ReplyView};
use crate::store;
use crate::store::{AuditRecord, Op, OpView, Store, StoreError, StoreErrorView, StoreView};
use crate::text;
use crate::time::Timestamp;

verus! {

/// The register of the seed dataset.
pub const SEED_REGISTER: &'static str = "unidpp-seed";

/// 2026-01-01T00:00:00Z, from when the units are in force.
pub const UNITS_FROM: i64 = 1767225600;

/// 2026-09-01T00:00:00Z, from when the services are in force.
pub const SERVICES_FROM: i64 = 1788220800;

/// The identifiers of the seed units: the SI base units and three units of
/// energy.
pub const UNIT_IDS: [&'static str; 10] = [
    "unit-m",
    "unit-kg",
    "unit-s",
    "unit-a",
    "unit-k",
    "unit-mol",
    "unit-cd",
    "unit-kwh",
    "unit-mj",
    "unit-j",
];

/// The names of the seed units.
pub const UNIT_NAMES: [&'static str; 10] = [
    "metre",
    "kilogram",
    "second",
    "ampere",
    "kelvin",
    "mole",
    "candela",
    "kilowatt hour",
    "megajoule",
    "joule",
];

/// The citations of the seed units.
pub const UNIT_CITATIONS: [&'static str; 10] = [
    "ISO 80000-3:2006",
    "ISO 80000-4:2006",
    "ISO 80000-3:2006",
    "ISO 80000-6:2006",
    "ISO 80000-5:2007",
    "ISO 80000-9:2009",
    "ISO 80000-7:2008",
    "ISO 80000-4:2006 (energy); 1 kWh = 3.6 MJ exactly",
    "ISO 80000-4:2006 (energy)",
    "ISO 80000-4:2006 (energy)",
];

/// The seed unit `i`.
pub open spec fn seed_unit(i: int, now: Timestamp) -> ItemView {
    ItemView {
        identifier: UNIT_IDS@[i]@,
        register: SEED_REGISTER@,
        item_class: ItemClass::Unit,
        title: UNIT_NAMES@[i]@,
        submitting_organization: Some("ISO/TC 12"@),
        versions: seq![
            items_api::new_version(
                "1.0.0"@,
                (Timestamp { secs: UNITS_FROM }, None),
                now,
                Some(UNIT_CITATIONS@[i]@),
            ),
        ],
        manifest: Some(
            Tree::Obj(
                Map::<Seq<char>, Tree>::empty().insert("version"@, Tree::Str("1.0.0"@)).insert(
                    "name"@,
                    Tree::Str(UNIT_NAMES@[i]@),
                ).insert("iso_80000_citation"@, Tree::Str(UNIT_CITATIONS@[i]@)),
            ),
        ),
    }
}

/// Makes the seed unit `i`.
fn make_unit(i: usize, now: Timestamp) -> (r: Item)
    requires
        i < 10,
    ensures
        r@ == seed_unit(i as int, now),
{
    let mut m = Object::new();
    m.put_str("version", "1.0.0");
    m.put_str("name", UNIT_NAMES[i]);
    m.put_str("iso_80000_citation", UNIT_CITATIONS[i]);
    let version = items_api::make_version(
        "1.0.0".to_owned(),
        (Timestamp { secs: UNITS_FROM }, None),
        now,
        Some(UNIT_CITATIONS[i].to_owned()),
    );
    Item {
        identifier: UNIT_IDS[i].to_owned(),
        register: SEED_REGISTER.to_owned(),
        item_class: ItemClass::Unit,
        title: UNIT_NAMES[i].to_owned(),
        submitting_organization: Some("ISO/TC 12".to_owned()),
        versions: items_api::one_version(version),
        manifest: Some(Json::Obj(m)),
    }
}

/// The seed units.
pub open spec fn unit_ops(now: Timestamp) -> Seq<OpView> {
    Seq::new(10, |i: int| OpView::RegisterItem { item: seed_unit(i, now) })
}

/// The operator that signs the seed bindings and mechanisms.
pub const SEED_SIGNER: &'static str = "unidpp-registry";

/// The identifiers of the seed protocol bindings.
pub const PROTOCOL_IDS: [&'static str; 5] = [
    "pb-en18222-rest",
    "pb-gs1-digital-link",
    "pb-gbt-33993",
    "pb-untp-vc",
    "pb-tier-a-binary",
];

/// The descriptions of the seed protocol bindings.
pub const PROTOCOL_DESCRIPTIONS: [&'static str; 5] = [
    "EN 18222:2026 REST resource model",
    "GS1 Digital Link URI grammar (v1.2)",
    "GB/T 33993 DPP wrapper envelope",
    "UN Transparency Protocol Verifiable Credential profile",
    "UniDPP Tier-A signed binary pack",
];

/// The grammars of the seed protocol bindings.
pub const PROTOCOL_GRAMMARS: [&'static str; 5] = [
    "https://standards.cen-cenelec.eu/EN-18222",
    "https://www.gs1.org/standards/gs1-digital-link",
    "https://openstd.samr.gov.cn/GB/T-33993",
    "https://uncefact.unece.org/untp",
    "https://unidpp.org/spec/tier-a-binary",
];

/// The media types of the seed protocol bindings, separated by spaces.
pub const PROTOCOL_MEDIA: [&'static str; 5] = [
    "application/vnd.en18222+json",
    "application/gs1dl+json",
    "application/vnd.gbt33993+json",
    "application/vc+json application/vp+json",
    "application/vnd.unidpp.tier-a",
];

/// The conformance suites of the seed protocol bindings.
pub const PROTOCOL_SUITES: [&'static str; 5] = [
    "https://standards.cen-cenelec.eu/EN-18222/conformance",
    "https://www.gs1.org/standards/gs1-digital-link/conformance",
    "https://openstd.samr.gov.cn/GB/T-33993/conformance",
    "https://uncefact.unece.org/untp/conformance",
    "https://unidpp.org/spec/tier-a-binary/conformance",
];

/// The members of the seed protocol binding `i`, before it is signed.
pub open spec fn seed_protocol_members(i: int) -> Map<Seq<char>, Tree> {
    Map::<Seq<char>, Tree>::empty().insert("identifier"@, Tree::Str(PROTOCOL_IDS@[i]@)).insert(
        "description"@,
        Tree::Str(PROTOCOL_DESCRIPTIONS@[i]@),
    ).insert("version"@, Tree::Str("1.0.0"@)).insert(
        "grammar_ref"@,
        Tree::Str(PROTOCOL_GRAMMARS@[i]@),
    ).insert(
        "media_types"@,
        Tree::Arr(json::str_trees(text::split_on(PROTOCOL_MEDIA@[i]@, ' '))),
    ).insert("conformance_suite_ref"@, Tree::Str(PROTOCOL_SUITES@[i]@)).insert(
        "operator"@,
        discovery::operator_block(SEED_SIGNER@),
    )
}

/// The seed protocol binding `i`.
pub open spec fn seed_protocol(i: int) -> ProtocolView {
    let t = Tree::Obj(seed_protocol_members(i));
    let kid = discovery::label_key_id(SEED_SIGNER@);
    ProtocolView {
        identifier: PROTOCOL_IDS@[i]@,
        grammar_ref: PROTOCOL_GRAMMARS@[i]@,
        media_types: text::split_on(PROTOCOL_MEDIA@[i]@, ' '),
        version: "1.0.0"@,
        conformance_suite_ref: Some(PROTOCOL_SUITES@[i]@),
        body: discovery::signed_body(t, SEED_SIGNER@, kid),
        signature: discovery::signature_by(t, SEED_SIGNER@, kid),
    }
}

/// Makes the seed protocol binding `i`.
fn make_protocol(i: usize) -> (r: ProtocolBinding)
    requires
        i < 5,
    ensures
        r@ == seed_protocol(i as int),
{
    let media_types = text::split(PROTOCOL_MEDIA[i], ' ');
    let mut m = Object::new();
    m.put_str("identifier", PROTOCOL_IDS[i]);
    m.put_str("description", PROTOCOL_DESCRIPTIONS[i]);
    m.put_str("version", "1.0.0");
    m.put_str("grammar_ref", PROTOCOL_GRAMMARS[i]);
    m.put("media_types", json::str_array(&media_types));
    m.put_str("conformance_suite_ref", PROTOCOL_SUITES[i]);
    m.put("operator", discovery::operator_record(SEED_SIGNER));
    let (body, signature) = discovery::self_signed(m, SEED_SIGNER);
    ProtocolBinding {
        identifier: PROTOCOL_IDS[i].to_owned(),
        grammar_ref: PROTOCOL_GRAMMARS[i].to_owned(),
        media_types,
        version: "1.0.0".to_owned(),
        conformance_suite_ref: Some(PROTOCOL_SUITES[i].to_owned()),
        body,
        signature,
    }
}

/// The seed protocol bindings.
pub open spec fn protocol_ops() -> Seq<OpView> {
    Seq::new(5, |i: int| OpView::RegisterProtocolBinding { binding: seed_protocol(i) })
}

/// The identifiers of the seed verification mechanisms.
pub const MECHANISM_IDS: [&'static str; 3] = ["vm-sm2-sm3-sm4", "vm-fips", "vm-ml-dsa"];

/// The suites of the seed verification mechanisms.
pub const MECHANISM_SUITES: [&'static str; 3] = [
    "SM2-SM3-SM4",
    "FIPS 186-4 (ECDSA-P256 + RSA-PSS)",
    "FIPS 204 ML-DSA-65 (migration phase)",
];

/// The agility statuses of the seed verification mechanisms.
pub const MECHANISM_STATUSES: [&'static str; 3] = ["active", "active", "migration"];

/// The trust lists of the seed verification mechanisms.
pub const MECHANISM_LISTS: [&'static str; 3] = [
    "https://trust.unidpp.org/sm2-list",
    "https://trust.unidpp.org/fips-list",
    "https://trust.unidpp.org/pq-list",
];

/// The trust framework of the seed verification mechanisms.
pub const TRUST_FRAMEWORK: &'static str = "SIGNATIF";

/// The master list of the seed verification mechanisms.
pub const MASTER_LIST: &'static str = "https://unidpp.org/spec/signatif/master-list";

/// The members of the seed verification mechanism `i`, before it is signed.
pub open spec fn seed_mechanism_members(i: int) -> Map<Seq<char>, Tree> {
    Map::<Seq<char>, Tree>::empty().insert("identifier"@, Tree::Str(MECHANISM_IDS@[i]@)).insert(
        "suite"@,
        Tree::Str(MECHANISM_SUITES@[i]@),
    ).insert("agility_status"@, Tree::Str(MECHANISM_STATUSES@[i]@)).insert(
        "trust_framework"@,
        Tree::Str(TRUST_FRAMEWORK@),
    ).insert("trust_list_endpoint"@, Tree::Str(MECHANISM_LISTS@[i]@)).insert(
        "master_list_ref"@,
        Tree::Str(MASTER_LIST@),
    ).insert("operator"@, discovery::operator_block(SEED_SIGNER@))
}

/// The seed verification mechanism `i`.
pub open spec fn seed_mechanism(i: int) -> MechanismView {
    let t = Tree::Obj(seed_mechanism_members(i));
    let kid = discovery::label_key_id(SEED_SIGNER@);
    MechanismView {
        identifier: MECHANISM_IDS@[i]@,
        suite: MECHANISM_SUITES@[i]@,
        agility_status: MECHANISM_STATUSES@[i]@,
        trust_framework: Some(TRUST_FRAMEWORK@),
        trust_list_endpoint: Some(MECHANISM_LISTS@[i]@),
        master_list_ref: Some(MASTER_LIST@),
        verdict_grammar_ref: None,
        body: discovery::signed_body(t, SEED_SIGNER@, kid),
        signature: discovery::signature_by(t, SEED_SIGNER@, kid),
    }
}

/// Makes the seed verification mechanism `i`.
fn make_mechanism(i: usize) -> (r: VerificationMechanism)
    requires
        i < 3,
    ensures
        r@ == seed_mechanism(i as int),
{
    let mut m = Object::new();
    m.put_str("identifier", MECHANISM_IDS[i]);
    m.put_str("suite", MECHANISM_SUITES[i]);
    m.put_str("agility_status", MECHANISM_STATUSES[i]);
    m.put_str("trust_framework", TRUST_FRAMEWORK);
    m.put_str("trust_list_endpoint", MECHANISM_LISTS[i]);
    m.put_str("master_list_ref", MASTER_LIST);
    m.put("operator", discovery::operator_record(SEED_SIGNER));
    let (body, signature) = discovery::self_signed(m, SEED_SIGNER);
    VerificationMechanism {
        identifier: MECHANISM_IDS[i].to_owned(),
        suite: MECHANISM_SUITES[i].to_owned(),
        agility_status: MECHANISM_STATUSES[i].to_owned(),
        trust_framework: Some(TRUST_FRAMEWORK.to_owned()),
        trust_list_endpoint: Some(MECHANISM_LISTS[i].to_owned()),
        master_list_ref: Some(MASTER_LIST.to_owned()),
        verdict_grammar_ref: None,
        body,
        signature,
    }
}

/// The seed verification mechanisms.
pub open spec fn mechanism_ops() -> Seq<OpView> {
    Seq::new(3, |i: int| OpView::RegisterVerificationMechanism { mechanism: seed_mechanism(i) })
}

/// The operators that run the seed services.
pub const SERVICE_LABELS: [&'static str; 8] = [
    "unidpp-registry",
    "unidpp-issuer",
    "unidpp-resolver",
    "unidpp-trust",
    "unidpp-log",
    "unidpp-archive",
    "unidpp-cli-verifier",
    "unidpp-edge",
];

/// The classes of the seed services.
pub const SERVICE_CLASSES: [ServiceClass; 8] = [
    ServiceClass::Registry,
    ServiceClass::Issuer,
    ServiceClass::Resolver,
    ServiceClass::Trust,
    ServiceClass::Log,
    ServiceClass::Archive,
    ServiceClass::Edge,
    ServiceClass::Edge,
];

/// The protocol binding of the seed services.
pub const SERVICE_PROTOCOL: &'static str = "pb-tier-a-binary";

/// The identifier of the seed service `i`.
pub open spec fn seed_service_id(i: int) -> Seq<char> {
    SERVICE_LABELS@[i]@ + "-v1"@
}

/// The endpoints of the seed service `i`.
pub open spec fn seed_endpoints(i: int) -> Tree {
    Tree::Arr(
        seq![
            Tree::Obj(
                Map::<Seq<char>, Tree>::empty().insert(
                    "uri"@,
                    Tree::Str("https://"@ + SERVICE_LABELS@[i]@ + ".unidpp.org/"@),
                ).insert("protocol_binding_ref"@, Tree::Str(SERVICE_PROTOCOL@)),
            ),
        ],
    )
}

/// The members of the seed service `i`, before it is signed.
pub open spec fn seed_service_members(i: int) -> Map<Seq<char>, Tree> {
    Map::<Seq<char>, Tree>::empty().insert("identifier"@, Tree::Str(seed_service_id(i))).insert(
        "operator"@,
        discovery::operator_block(SERVICE_LABELS@[i]@),
    ).insert(
        "class"@,
        Tree::Str(discovery::service_class_name(SERVICE_CLASSES@[i])),
    ).insert("endpoints"@, seed_endpoints(i)).insert(
        "protocol_binding_ref"@,
        Tree::Str(SERVICE_PROTOCOL@),
    ).insert("jurisdiction"@, Tree::Str("ZZ"@)).insert(
        "residency_class"@,
        Tree::Str("anywhere"@),
    ).insert("status"@, Tree::Str("active"@)).insert("version"@, Tree::Str("1.0.0"@)).insert(
        "effective_from"@,
        discovery::stamp(Timestamp { secs: SERVICES_FROM }),
    )
}

/// The seed service `i`.
pub open spec fn seed_service(i: int, now: Timestamp) -> ServiceView {
    let t = Tree::Obj(seed_service_members(i));
    let label = SERVICE_LABELS@[i]@;
    let kid = discovery::label_key_id(label);
    discovery_api::first_version(
        seed_service_id(i),
        ServiceVersionView {
            version: "1.0.0"@,
            status: ServiceStatus::Active,
            effective_from: Timestamp { secs: SERVICES_FROM },
            effective_until: None,
            registered_at: now,
            superseded_by_version: None,
            body: discovery::signed_body(t, label, kid),
            signature: discovery::signature_by(t, label, kid),
        },
    )
}

/// Makes the endpoints of a seed service.
fn make_endpoints(i: usize) -> (r: Json)
    requires
        i < 8,
    ensures
        r@ == seed_endpoints(i as int),
{
    let uri = text::cat3("https://", SERVICE_LABELS[i], ".unidpp.org/");
    let mut m = Object::new();
    m.put_str("uri", uri.as_str());
    m.put_str("protocol_binding_ref", SERVICE_PROTOCOL);
    let entry = Json::Obj(m);
    let mut list: Vec<Json> = Vec::new();
    list.push(entry);
    assert(json::trees(list@) =~= seq![entry@]);
    Json::Arr(list)
}

/// Makes the seed service `i`.
fn make_service(i: usize, now: Timestamp) -> (r: ServiceDescriptor)
    requires
        i < 8,
    ensures
        r@ == seed_service(i as int, now),
{
    let label = SERVICE_LABELS[i];
    let identifier = text::cat2(label, "-v1");
    let from = Timestamp { secs: SERVICES_FROM };
    let mut m = Object::new();
    m.put_str("identifier", identifier.as_str());
    m.put("operator", discovery::operator_record(label));
    m.put_str("class", SERVICE_CLASSES[i].as_str());
    m.put("endpoints", make_endpoints(i));
    m.put_str("protocol_binding_ref", SERVICE_PROTOCOL);
    m.put_str("jurisdiction", "ZZ");
    m.put_str("residency_class", "anywhere");
    m.put_str("status", "active");
    m.put_str("version", "1.0.0");
    m.put("effective_from", Json::Str(from.to_string()));
    let (body, signature) = discovery::self_signed(m, label);
    discovery_api::with_first_version(
        identifier,
        ServiceVersion {
            version: "1.0.0".to_owned(),
            status: ServiceStatus::Active,
            effective_from: from,
            effective_until: None,
            registered_at: now,
            superseded_by_version: None,
            body,
            signature,
        },
    )
}

/// The seed services.
pub open spec fn service_ops(now: Timestamp) -> Seq<OpView> {
    Seq::new(8, |i: int| OpView::RegisterService { service: seed_service(i, now) })
}

/// The seed dataset, in the order it is registered.
pub open spec fn seed_ops(now: Timestamp) -> Seq<OpView> {
    unit_ops(now) + protocol_ops() + mechanism_ops() + service_ops(now)
}

/// The contents of a sequence of mutations.
pub open spec fn op_views(s: Seq<Op>) -> Seq<OpView> {
    s.map_values(|o: Op| o@)
}

/// The seed units.
fn seed_units(now: Timestamp, out: &mut Vec<Op>)
    ensures
        op_views(final(out)@) == op_views(old(out)@) + unit_ops(now),
{
    let ghost start = op_views(out@);
    let mut i: usize = 0;
    assert(start + unit_ops(now).take(0) =~= start);
    while i < 10
        invariant
            i <= 10,
            op_views(out@) == start + unit_ops(now).take(i as int),
        decreases 10 - i,
    {
        let ghost before = op_views(out@);
        let op = Op::RegisterItem { item: make_unit(i, now) };
        out.push(op);
        assert(op_views(out@) =~= before.push(op@));
        assert(start + unit_ops(now).take(i + 1) =~= (start + unit_ops(now).take(i as int)).push(
            unit_ops(now)[i as int],
        ));
        i = i + 1;
    }
    assert(unit_ops(now).take(10) =~= unit_ops(now));
}

/// The seed protocol bindings.
fn seed_protocol_bindings(out: &mut Vec<Op>)
    ensures
        op_views(final(out)@) == op_views(old(out)@) + protocol_ops(),
{
    let ghost start = op_views(out@);
    let mut i: usize = 0;
    assert(start + protocol_ops().take(0) =~= start);
    while i < 5
        invariant
            i <= 5,
            op_views(out@) == start + protocol_ops().take(i as int),
        decreases 5 - i,
    {
        let ghost before = op_views(out@);
        let op = Op::RegisterProtocolBinding { binding: make_protocol(i) };
        out.push(op);
        assert(op_views(out@) =~= before.push(op@));
        assert(start + protocol_ops().take(i + 1) =~= (start + protocol_ops().take(i as int)).push(
            protocol_ops()[i as int],
        ));
        i = i + 1;
    }
    assert(protocol_ops().take(5) =~= protocol_ops());
}

/// The seed verification mechanisms.
fn seed_verification_mechanisms(out: &mut Vec<Op>)
    ensures
        op_views(final(out)@) == op_views(old(out)@) + mechanism_ops(),
{
    let ghost start = op_views(out@);
    let mut i: usize = 0;
    assert(start + mechanism_ops().take(0) =~= start);
    while i < 3
        invariant
            i <= 3,
            op_views(out@) == start + mechanism_ops().take(i as int),
        decreases 3 - i,
    {
        let ghost before = op_views(out@);
        let op = Op::RegisterVerificationMechanism { mechanism: make_mechanism(i) };
        out.push(op);
        assert(op_views(out@) =~= before.push(op@));
        assert(start + mechanism_ops().take(i + 1) =~= (start + mechanism_ops().take(
            i as int,
        )).push(mechanism_ops()[i as int]));
        i = i + 1;
    }
    assert(mechanism_ops().take(3) =~= mechanism_ops());
}

/// The seed services.
fn seed_services(now: Timestamp, out: &mut Vec<Op>)
    ensures
        op_views(final(out)@) == op_views(old(out)@) + service_ops(now),
{
    let ghost start = op_views(out@);
    let mut i: usize = 0;
    assert(start + service_ops(now).take(0) =~= start);
    while i < 8
        invariant
            i <= 8,
            op_views(out@) == start + service_ops(now).take(i as int),
        decreases 8 - i,
    {
        let ghost before = op_views(out@);
        let op = Op::RegisterService { service: make_service(i, now) };
        out.push(op);
        assert(op_views(out@) =~= before.push(op@));
        assert(start + service_ops(now).take(i + 1) =~= (start + service_ops(now).take(
            i as int,
        )).push(service_ops(now)[i as int]));
        i = i + 1;
    }
    assert(service_ops(now).take(8) =~= service_ops(now));
}

/// The seed dataset, in the order it is registered.
pub fn seed_dataset(now: Timestamp) -> (r: Vec<Op>)
    ensures
        op_views(r@) == seed_ops(now),
{
    let mut out: Vec<Op> = Vec::new();
    assert(op_views(out@) =~= Seq::<OpView>::empty());
    seed_units(now, &mut out);
    seed_protocol_bindings(&mut out);
    seed_verification_mechanisms(&mut out);
    seed_services(now, &mut out);
    assert(Seq::<OpView>::empty() + unit_ops(now) =~= unit_ops(now));
    out
}

/// What a seed entry is called, with its identifier.
pub open spec fn entry_name(op: OpView) -> Seq<char> {
    match op {
        OpView::RegisterItem { item } => "seed unit `"@ + item.identifier + "`: "@,
        OpView::RegisterProtocolBinding { binding } => "seed protocol binding `"@
            + binding.identifier + "`: "@,
        OpView::RegisterVerificationMechanism { mechanism } => "seed verification mechanism `"@
            + mechanism.identifier + "`: "@,
        OpView::RegisterService { service } => "seed service `"@ + service.identifier + "`: "@,
        _ => ""@,
    }
}

/// A refusal of the store, shown with its variant.
pub open spec fn shown_refusal(e: StoreErrorView) -> Seq<char> {
    match e {
        StoreErrorView::Conflict(m) => "Conflict(\""@ + m + "\")"@,
        StoreErrorView::Invalid(m) => "Invalid(\""@ + m + "\")"@,
    }
}

/// Why the first `n` entries cannot all be registered.
pub open spec fn obstacle(s: StoreView, ops: Seq<OpView>, n: int) -> Option<Seq<char>>
    decreases n,
{
    if n <= 0 {
        None
    } else {
        match obstacle(s, ops, n - 1) {
            Some(e) => Some(e),
            None => match store::conflict_of(s, ops[n - 1]) {
                Some(e) => Some(entry_name(ops[n - 1]) + shown_refusal(e)),
                None => None,
            },
        }
    }
}

proof fn obstacle_stays(s: StoreView, ops: Seq<OpView>, n: int, k: int)
    requires
        0 <= n <= k,
        obstacle(s, ops, n) is Some,
    ensures
        obstacle(s, ops, k) == obstacle(s, ops, n),
    decreases k - n,
{
    if n < k {
        obstacle_stays(s, ops, n, k - 1);
    }
}

/// The store after the first `n` mutations are logged.
pub open spec fn after_ops(s: StoreView, ops: Seq<OpView>, n: int, now: Timestamp) -> StoreView
    decreases n,
{
    if n <= 0 {
        s
    } else {
        let before = after_ops(s, ops, n - 1, now);
        store::logged(before, store::next_record(before, ops[n - 1], now))
    }
}

/// What a seed entry is called, with its identifier.
fn name_entry(op: &Op) -> (r: String)
    ensures
        r@ == entry_name(op@),
{
    match op {
        Op::RegisterItem { item } => text::cat3("seed unit `", item.identifier.as_str(), "`: "),
        Op::RegisterProtocolBinding { binding } => text::cat3(
            "seed protocol binding `",
            binding.identifier.as_str(),
            "`: ",
        ),
        Op::RegisterVerificationMechanism { mechanism } => text::cat3(
            "seed verification mechanism `",
            mechanism.identifier.as_str(),
            "`: ",
        ),
        Op::RegisterService { service } => text::cat3(
            "seed service `",
            service.identifier.as_str(),
            "`: ",
        ),
        _ => "".to_owned(),
    }
}

/// Shows a refusal of the store with its variant.
fn show_refusal(e: &StoreError) -> (r: String)
    ensures
        r@ == shown_refusal(e@),
{
    match e {
        StoreError::Conflict(m) => text::cat3("Conflict(\"", m.as_str(), "\")"),
        StoreError::Invalid(m) => text::cat3("Invalid(\"", m.as_str(), "\")"),
    }
}

/// Finds why the entries cannot all be registered.
fn find_obstacle(store: &Store, ops: &Vec<Op>) -> (r: Option<String>)
    ensures
        text::opt_view(r) == obstacle(store@, op_views(ops@), ops@.len() as int),
{
    let ghost all = op_views(ops@);
    let mut i: usize = 0;
    while i < ops.len()
        invariant
            i <= ops@.len(),
            all == op_views(ops@),
            obstacle(store@, all, i as int) is None,
        decreases ops@.len() - i,
    {
        assert(all[i as int] == ops@[i as int]@);
        if let Some(e) = store.conflict(&ops[i]) {
            let name = name_entry(&ops[i]);
            let shown = show_refusal(&e);
            proof {
                obstacle_stays(store@, all, i + 1, ops@.len() as int);
            }
            return Some(text::cat2(name.as_str(), shown.as_str()));
        }
        i = i + 1;
    }
    None
}

/// The report of a seeding.
pub open spec fn seed_report() -> Tree {
    Tree::Obj(
        Map::<Seq<char>, Tree>::empty().insert("status"@, Tree::Str("seeded"@)).insert(
            "counts"@,
            Tree::Obj(
                Map::<Seq<char>, Tree>::empty().insert("services"@, Tree::Int(8)).insert(
                    "protocol_bindings"@,
                    Tree::Int(5),
                ).insert("verification_mechanisms"@, Tree::Int(3)).insert("units"@, Tree::Int(10)),
            ),
        ),
    )
}

/// Registers the seed dataset and reports the counts. Where one entry is
/// already registered, the first such is named and nothing is registered.
pub fn run_seed(store: &mut Store, now: Timestamp) -> (r: Result<Json, String>)
    ensures
        match obstacle(old(store)@, seed_ops(now), 26) {
            Some(e) => (r matches Err(x) && x@ == e) && final(store)@ == old(store)@,
            None => (r matches Ok(v) && v@ == seed_report()) && final(store)@ == after_ops(
                old(store)@,
                seed_ops(now),
                26,
                now,
            ),
        },
        store::faithful(old(store)@) ==> store::faithful(final(store)@),
{
    let ghost start = store@;
    let ops = seed_dataset(now);
    let ghost all = seed_ops(now);
    assert(all.len() == 26);
    assert(op_views(ops@).len() == ops@.len());
    if let Some(e) = find_obstacle(store, &ops) {
        return Err(e);
    }
    let mut i: usize = 0;
    while i < ops.len()
        invariant
            i <= ops@.len(),
            ops@.len() == 26,
            all == op_views(ops@),
            all == seed_ops(now),
            store@ == after_ops(start, all, i as int, now),
            store::faithful(start) ==> store::faithful(store@),
        decreases ops@.len() - i,
    {
        assert(all[i as int] == ops@[i as int]@);
        assert(!(all[i as int] is BindApplicability)) by {
            let k = i as int;
            if k < 10 {
                assert(all[k] == unit_ops(now)[k]);
            } else if k < 15 {
                assert(all[k] == protocol_ops()[k - 10]);
            } else if k < 18 {
                assert(all[k] == mechanism_ops()[k - 15]);
            } else {
                assert(all[k] == service_ops(now)[k - 18]);
            }
        }
        store.record(ops[i].clone(), now);
        i = i + 1;
    }
    let mut counts = Object::new();
    counts.put_uint("services", 8);
    counts.put_uint("protocol_bindings", 5);
    counts.put_uint("verification_mechanisms", 3);
    counts.put_uint("units", 10);
    let mut m = Object::new();
    m.put_str("status", "seeded");
    m.put("counts", Json::Obj(counts));
    Ok(Json::Obj(m))
}

/// How a seeding request comes out, the store after it, and whether the
/// dataset is seeded then.
pub open spec fn seeded(s: StoreView, enabled: bool, already: bool, now: Timestamp) -> (
    Result<ReplyView, RefusalView>,
    StoreView,
    bool,
) {
    if !enabled {
        (
            request::bad("seeding is disabled (UNIDPP_REGISTRY_SEED_ON_DEMAND=0)"@),
            s,
            already,
        )
    } else if already {
        (
            Ok(
                ReplyView {
                    status: 200,
                    as_of: now,
                    body: Tree::Obj(
                        Map::<Seq<char>, Tree>::empty().insert(
                            "status"@,
                            Tree::Str("already-seeded"@),
                        ),
                    ),
                },
            ),
            s,
            already,
        )
    } else {
        match obstacle(s, seed_ops(now), 26) {
            Some(e) => (request::bad("seed failed: "@ + e), s, already),
            None => (
                Ok(ReplyView { status: 200, as_of: now, body: seed_report() }),
                after_ops(s, seed_ops(now), 26, now),
                true,
            ),
        }
    }
}

/// `POST /admin/seed`: populates the seed dataset, once.
pub fn admin_seed(store: &mut Store, enabled: bool, already: &mut bool, now: Timestamp) -> (r: Result<
    Reply,
    Refusal,
>)
    ensures
        request::answers(r, seeded(old(store)@, enabled, *old(already), now).0),
        final(store)@ == seeded(old(store)@, enabled, *old(already), now).1,
        *final(already) == seeded(old(store)@, enabled, *old(already), now).2,
        store::faithful(old(store)@) ==> store::faithful(final(store)@),
{
    if !enabled {
        return request::bad_request(
            "seeding is disabled (UNIDPP_REGISTRY_SEED_ON_DEMAND=0)".to_owned(),
        );
    }
    if *already {
        let mut m = Object::new();
        m.put_str("status", "already-seeded");
        return Ok(Reply { status: 200, as_of: now, body: Json::Obj(m) });
    }
    match run_seed(store, now) {
        Err(e) => request::bad_request(text::cat2("seed failed: ", e.as_str())),
        Ok(body) => {
            *already = true;
            Ok(Reply { status: 200, as_of: now, body })
        },
    }
}

/// A second seeding changes nothing and says so.
pub proof fn seeding_is_idempotent(s: StoreView, now: Timestamp, later: Timestamp)
    requires
        seeded(s, true, false, now).0 is Ok,
    ensures
        ({
            let first = seeded(s, true, false, now);
            let second = seeded(first.1, true, first.2, later);
            &&& first.2
            &&& second.0 is Ok
            &&& second.1 == first.1
            &&& second.2
        }),
{
}

/// The identifier of the first model deposit.
pub const CORE_MODEL: &'static str = "unidpp-core-express";

/// The version of the first model deposit.
pub const CORE_VERSION: &'static str = "0.1.0";

/// What the first model deposit asks for.
pub open spec fn core_request(source: Seq<char>, now: Timestamp) -> ModelRequestView {
    ModelRequestView {
        register: SEED_REGISTER@,
        identifier: CORE_MODEL@,
        title: "UniDPP EXPRESS core model (UNIDPP_CORE)"@,
        submitting_organization: Some("UniDPP"@),
        version: CORE_VERSION@,
        source,
        effective_from: now,
        effective_until: None,
    }
}

/// The item of the first model deposit. Its validation is whatever the
/// validator made of the source.
pub open spec fn core_item(source: Seq<char>, run: RunView, now: Timestamp) -> ItemView {
    models_api::model_item(
        core_request(source, now),
        express::outcome(run),
        now,
        Some("the registry's first EXPRESS deposit (T-08)"@),
    )
}

/// Whether the first model deposit is still to be made.
pub fn express_deposit_due(store: &Store, enabled: bool) -> (r: bool)
    ensures
        r == (enabled && !store@.items.dom().contains(CORE_MODEL@)),
{
    enabled && store.item(CORE_MODEL).is_none()
}

/// Deposits the core model as the first model item, given how the validator
/// ran on it.
pub fn seed_express_deposit(store: &mut Store, source: &str, run: &ValidatorRun, now: Timestamp) -> (r:
    Result<AuditRecord, StoreError>)
    ensures
        store::settles(
            old(store)@,
            final(store)@,
            r,
            store::register_refusal(old(store)@, core_item(source@, run@, now)),
            OpView::RegisterItem { item: core_item(source@, run@, now) },
            now,
        ),
        store::faithful(old(store)@) ==> store::faithful(final(store)@),
{
    let validation = express::validation_outcome(run);
    let req = ModelRequest {
        register: SEED_REGISTER.to_owned(),
        identifier: CORE_MODEL.to_owned(),
        title: "UniDPP EXPRESS core model (UNIDPP_CORE)".to_owned(),
        submitting_organization: Some("UniDPP".to_owned()),
        version: CORE_VERSION.to_owned(),
        source: source.to_owned(),
        effective_from: now,
        effective_until: None,
    };
    let item = models_api::make_model_item(
        &req,
        &validation,
        now,
        Some("the registry's first EXPRESS deposit (T-08)".to_owned()),
    );
    store.register_item(item, now)
}

} // verus!
