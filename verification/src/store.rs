//! The registry store: items, applicability bindings, discovery
//! descriptors and the append-only audit log.
//!
//! The log is the storage. Every mutation is one appended [`AuditRecord`]
//! that carries its full payload, the state is what applying the records in
//! order makes of an empty store ([`rebuilt`]), and replaying a journal of
//! the log rebuilds that state. Nothing is edited in place: lifecycle
//! transitions are appended operations.

use vstd::prelude::*;
use crate::bridge;
use crate::discovery;
use crate::discovery::{
    MechanismView, ProtocolBinding, ProtocolView, ServiceClass, ServiceDescriptor, ServiceStatus,
    ServiceVersion, ServiceVersionView, ServiceView, VerificationMechanism,
};
use crate::express;
use crate::express::{ValidationRecord, ValidationView};
use crate::fields;
use crate::journal;
use crate::json;
use crate::json::{Json, Object, Tree};
use crate::model;
use crate::model::{
    ApplicabilityBinding, BindingView, Item, ItemClass, ItemVersion, ItemView, Status, VersionView,
};
use crate::order;
use crate::table;
use crate::table::Table;
use crate::text;
use crate::time;
use crate::time::Timestamp;

verus! {

/// An append-only registry mutation.
#[derive(Debug, PartialEq, Eq)]
#[allow(inconsistent_fields)]
pub enum Op {
    /// Initial registration of an item, with its first version.
    RegisterItem { item: Item },
    /// A new version of an item: the superseded version is linked to its
    /// successor, and `manifest`, when given, replaces the item's manifest.
    SupersedeVersion {
        identifier: String,
        superseded_version: String,
        prior_status: Status,
        successor: ItemVersion,
        manifest: Option<Json>,
    },
    /// A dated applicability binding of a profile item to a subject.
    BindApplicability { binding: ApplicabilityBinding },
    /// Registration of a service descriptor.
    RegisterService { service: ServiceDescriptor },
    /// A new version of a service descriptor.
    SupersedeService {
        identifier: String,
        superseded_version: String,
        prior_status: ServiceStatus,
        successor: ServiceVersion,
    },
    /// Registration of a protocol binding.
    RegisterProtocolBinding { binding: ProtocolBinding },
    /// Registration of a verification mechanism.
    RegisterVerificationMechanism { mechanism: VerificationMechanism },
    /// A new validation outcome of a deposited model.
    UpdateModelValidation { identifier: String, version: String, validation: ValidationRecord },
}

/// The content of a mutation.
#[allow(inconsistent_fields)]
pub enum OpView {
    RegisterItem { item: ItemView },
    SupersedeVersion {
        identifier: Seq<char>,
        superseded_version: Seq<char>,
        prior_status: Status,
        successor: VersionView,
        manifest: Option<Tree>,
    },
    BindApplicability { binding: BindingView },
    RegisterService { service: ServiceView },
    SupersedeService {
        identifier: Seq<char>,
        superseded_version: Seq<char>,
        prior_status: ServiceStatus,
        successor: ServiceVersionView,
    },
    RegisterProtocolBinding { binding: ProtocolView },
    RegisterVerificationMechanism { mechanism: MechanismView },
    UpdateModelValidation { identifier: Seq<char>, version: Seq<char>, validation: ValidationView },
}

impl View for Op {
    type V = OpView;

    open spec fn view(&self) -> OpView {
        match *self {
            Op::RegisterItem { item } => OpView::RegisterItem { item: item@ },
            Op::SupersedeVersion {
                identifier,
                superseded_version,
                prior_status,
                successor,
                manifest,
            } => OpView::SupersedeVersion {
                identifier: identifier@,
                superseded_version: superseded_version@,
                prior_status,
                successor: successor@,
                manifest: fields::opt_tree(manifest),
            },
            Op::BindApplicability { binding } => OpView::BindApplicability { binding: binding@ },
            Op::RegisterService { service } => OpView::RegisterService { service: service@ },
            Op::SupersedeService {
                identifier,
                superseded_version,
                prior_status,
                successor,
            } => OpView::SupersedeService {
                identifier: identifier@,
                superseded_version: superseded_version@,
                prior_status,
                successor: successor@,
            },
            Op::RegisterProtocolBinding { binding } => OpView::RegisterProtocolBinding {
                binding: binding@,
            },
            Op::RegisterVerificationMechanism { mechanism } => OpView::RegisterVerificationMechanism {
                mechanism: mechanism@,
            },
            Op::UpdateModelValidation {
                identifier,
                version,
                validation,
            } => OpView::UpdateModelValidation {
                identifier: identifier@,
                version: version@,
                validation: validation@,
            },
        }
    }
}

impl Clone for Op {
    fn clone(&self) -> (r: Op)
        ensures
            r@ == self@,
    {
        match self {
            Op::RegisterItem { item } => Op::RegisterItem { item: item.clone() },
            Op::SupersedeVersion {
                identifier,
                superseded_version,
                prior_status,
                successor,
                manifest,
            } => Op::SupersedeVersion {
                identifier: identifier.clone(),
                superseded_version: superseded_version.clone(),
                prior_status: *prior_status,
                successor: successor.clone(),
                manifest: fields::clone_opt(manifest),
            },
            Op::BindApplicability { binding } => Op::BindApplicability { binding: binding.clone() },
            Op::RegisterService { service } => Op::RegisterService { service: service.clone() },
            Op::SupersedeService {
                identifier,
                superseded_version,
                prior_status,
                successor,
            } => Op::SupersedeService {
                identifier: identifier.clone(),
                superseded_version: superseded_version.clone(),
                prior_status: *prior_status,
                successor: successor.clone(),
            },
            Op::RegisterProtocolBinding { binding } => Op::RegisterProtocolBinding {
                binding: binding.clone(),
            },
            Op::RegisterVerificationMechanism { mechanism } => Op::RegisterVerificationMechanism {
                mechanism: mechanism.clone(),
            },
            Op::UpdateModelValidation {
                identifier,
                version,
                validation,
            } => Op::UpdateModelValidation {
                identifier: identifier.clone(),
                version: version.clone(),
                validation: validation.clone(),
            },
        }
    }
}

/// One record of the append-only audit log.
#[derive(Debug, PartialEq, Eq)]
pub struct AuditRecord {
    pub seq: u64,
    pub recorded_at: Timestamp,
    pub op: Op,
}

/// The content of an audit record.
pub struct RecordView {
    pub seq: u64,
    pub recorded_at: Timestamp,
    pub op: OpView,
}

impl View for AuditRecord {
    type V = RecordView;

    open spec fn view(&self) -> RecordView {
        RecordView { seq: self.seq, recorded_at: self.recorded_at, op: self.op@ }
    }
}

impl Clone for AuditRecord {
    fn clone(&self) -> (r: AuditRecord)
        ensures
            r@ == self@,
    {
        AuditRecord { seq: self.seq, recorded_at: self.recorded_at, op: self.op.clone() }
    }
}

/// The contents of a sequence of records.
pub open spec fn record_views(s: Seq<AuditRecord>) -> Seq<RecordView> {
    s.map_values(|r: AuditRecord| r@)
}

/// The name of a mutation on the wire.
pub open spec fn op_name(op: OpView) -> Seq<char> {
    match op {
        OpView::RegisterItem { .. } => "register-item"@,
        OpView::SupersedeVersion { .. } => "supersede-version"@,
        OpView::BindApplicability { .. } => "bind-applicability"@,
        OpView::RegisterService { .. } => "register-service"@,
        OpView::SupersedeService { .. } => "supersede-service"@,
        OpView::RegisterProtocolBinding { .. } => "register-protocol-binding"@,
        OpView::RegisterVerificationMechanism { .. } => "register-verification-mechanism"@,
        OpView::UpdateModelValidation { .. } => "update-model-validation"@,
    }
}

/// The members of a mutation on the wire.
pub open spec fn op_members(op: OpView) -> Map<Seq<char>, Tree> {
    let m = Map::<Seq<char>, Tree>::empty().insert("op"@, Tree::Str(op_name(op)));
    match op {
        OpView::RegisterItem { item } => m.insert("item"@, model::item_tree(item)),
        OpView::SupersedeVersion {
            identifier,
            superseded_version,
            prior_status,
            successor,
            manifest,
        } => {
            let m = m.insert("identifier"@, Tree::Str(identifier)).insert(
                "superseded_version"@,
                Tree::Str(superseded_version),
            ).insert("prior_status"@, Tree::Str(model::status_name(prior_status))).insert(
                "successor"@,
                model::version_tree(successor, None),
            );
            json::put_opt(m, "manifest"@, manifest)
        },
        OpView::BindApplicability { binding } => m.insert("binding"@, model::binding_tree(binding)),
        OpView::RegisterService { service } => m.insert(
            "service"@,
            discovery::service_stored(service),
        ),
        OpView::SupersedeService {
            identifier,
            superseded_version,
            prior_status,
            successor,
        } => m.insert("identifier"@, Tree::Str(identifier)).insert(
            "superseded_version"@,
            Tree::Str(superseded_version),
        ).insert("prior_status"@, Tree::Str(discovery::service_status_name(prior_status))).insert(
            "successor"@,
            discovery::service_version_tree(successor, None),
        ),
        OpView::RegisterProtocolBinding { binding } => m.insert(
            "binding"@,
            discovery::protocol_tree(binding),
        ),
        OpView::RegisterVerificationMechanism { mechanism } => m.insert(
            "mechanism"@,
            discovery::mechanism_tree(mechanism),
        ),
        OpView::UpdateModelValidation { identifier, version, validation } => m.insert(
            "identifier"@,
            Tree::Str(identifier),
        ).insert("version"@, Tree::Str(version)).insert(
            "validation"@,
            express::validation_tree(validation),
        ),
    }
}

/// The wire form of an audit record.
pub open spec fn record_tree(r: RecordView) -> Tree {
    Tree::Obj(
        op_members(r.op).insert("seq"@, Tree::Int(r.seq as int)).insert(
            "recorded_at"@,
            discovery::stamp(r.recorded_at),
        ),
    )
}

/// The member `key` of a record, or that it is missing.
pub open spec fn needed(m: Map<Seq<char>, Tree>, key: Seq<char>) -> Result<Tree, Seq<char>> {
    match json::member(m, key) {
        Some(t) => Ok(t),
        None => Err("missing `"@ + key + "`"@),
    }
}

/// The text member `key` of a record, or that it is missing.
pub open spec fn needed_text(m: Map<Seq<char>, Tree>, key: Seq<char>) -> Result<Seq<char>, Seq<char>> {
    match json::member(m, key) {
        Some(Tree::Str(s)) => Ok(s),
        _ => Err("missing `"@ + key + "`"@),
    }
}

/// What an item registration parses to.
#[verifier::opaque]
pub open spec fn parsed_register_item(m: Map<Seq<char>, Tree>) -> Result<OpView, Seq<char>> {
    match needed(m, "item"@) {
        Err(e) => Err(e),
        Ok(t) => match model::parsed_item(t) {
            Err(e) => Err(e),
            Ok(item) => Ok(OpView::RegisterItem { item }),
        },
    }
}

/// What an item supersession parses to.
#[verifier::opaque]
pub open spec fn parsed_supersede_version(m: Map<Seq<char>, Tree>) -> Result<OpView, Seq<char>> {
    let identifier = needed_text(m, "identifier"@);
    let superseded = needed_text(m, "superseded_version"@);
    let prior = needed_text(m, "prior_status"@);
    let successor = needed(m, "successor"@);
    if identifier is Err {
        Err(identifier->Err_0)
    } else if superseded is Err {
        Err(superseded->Err_0)
    } else if prior is Err {
        Err(prior->Err_0)
    } else if model::parsed_status(prior->Ok_0) is None {
        Err("invalid `prior_status`"@)
    } else if successor is Err {
        Err(successor->Err_0)
    } else {
        match model::parsed_version(successor->Ok_0) {
            Err(e) => Err(e),
            Ok(v) => Ok(
                OpView::SupersedeVersion {
                    identifier: identifier->Ok_0,
                    superseded_version: superseded->Ok_0,
                    prior_status: model::parsed_status(prior->Ok_0)->Some_0,
                    successor: v,
                    manifest: fields::present(m, "manifest"@),
                },
            ),
        }
    }
}

/// What an applicability binding parses to.
#[verifier::opaque]
pub open spec fn parsed_bind(m: Map<Seq<char>, Tree>) -> Result<OpView, Seq<char>> {
    match needed(m, "binding"@) {
        Err(e) => Err(e),
        Ok(t) => match model::parsed_binding(t) {
            Err(e) => Err(e),
            Ok(binding) => Ok(OpView::BindApplicability { binding }),
        },
    }
}

/// What a service registration parses to.
#[verifier::opaque]
pub open spec fn parsed_register_service(m: Map<Seq<char>, Tree>) -> Result<OpView, Seq<char>> {
    match needed(m, "service"@) {
        Err(e) => Err(e),
        Ok(t) => match discovery::parsed_service(t) {
            Err(e) => Err(e),
            Ok(service) => Ok(OpView::RegisterService { service }),
        },
    }
}

/// What a service supersession parses to.
#[verifier::opaque]
pub open spec fn parsed_supersede_service(m: Map<Seq<char>, Tree>) -> Result<OpView, Seq<char>> {
    let identifier = needed_text(m, "identifier"@);
    let superseded = needed_text(m, "superseded_version"@);
    let prior = needed_text(m, "prior_status"@);
    let successor = needed(m, "successor"@);
    if identifier is Err {
        Err(identifier->Err_0)
    } else if superseded is Err {
        Err(superseded->Err_0)
    } else if prior is Err {
        Err(prior->Err_0)
    } else if discovery::parsed_service_status(prior->Ok_0) is None {
        Err("invalid `prior_status`"@)
    } else if successor is Err {
        Err(successor->Err_0)
    } else {
        match discovery::parsed_service_version(successor->Ok_0) {
            Err(e) => Err(e),
            Ok(v) => Ok(
                OpView::SupersedeService {
                    identifier: identifier->Ok_0,
                    superseded_version: superseded->Ok_0,
                    prior_status: discovery::parsed_service_status(prior->Ok_0)->Some_0,
                    successor: v,
                },
            ),
        }
    }
}

/// What the registration of a protocol binding parses to.
#[verifier::opaque]
pub open spec fn parsed_register_protocol(m: Map<Seq<char>, Tree>) -> Result<OpView, Seq<char>> {
    match needed(m, "binding"@) {
        Err(e) => Err(e),
        Ok(t) => match discovery::parsed_protocol(t) {
            Err(e) => Err(e),
            Ok(binding) => Ok(OpView::RegisterProtocolBinding { binding }),
        },
    }
}

/// What the registration of a verification mechanism parses to.
#[verifier::opaque]
pub open spec fn parsed_register_mechanism(m: Map<Seq<char>, Tree>) -> Result<OpView, Seq<char>> {
    match needed(m, "mechanism"@) {
        Err(e) => Err(e),
        Ok(t) => match discovery::parsed_mechanism(t) {
            Err(e) => Err(e),
            Ok(mechanism) => Ok(OpView::RegisterVerificationMechanism { mechanism }),
        },
    }
}

/// What a validation update parses to.
#[verifier::opaque]
pub open spec fn parsed_update(m: Map<Seq<char>, Tree>) -> Result<OpView, Seq<char>> {
    let identifier = needed_text(m, "identifier"@);
    let version = needed_text(m, "version"@);
    let validation = needed(m, "validation"@);
    if identifier is Err {
        Err(identifier->Err_0)
    } else if version is Err {
        Err(version->Err_0)
    } else if validation is Err {
        Err(validation->Err_0)
    } else {
        match express::parsed_validation(validation->Ok_0) {
            Err(e) => Err(e),
            Ok(v) => Ok(
                OpView::UpdateModelValidation {
                    identifier: identifier->Ok_0,
                    version: version->Ok_0,
                    validation: v,
                },
            ),
        }
    }
}

/// What the mutation of a record parses to.
#[verifier::opaque]
pub open spec fn parsed_op(m: Map<Seq<char>, Tree>) -> Result<OpView, Seq<char>> {
    match needed_text(m, "op"@) {
        Err(_) => Err("unknown `op`"@),
        Ok(name) => if name == "register-item"@ {
            parsed_register_item(m)
        } else if name == "supersede-version"@ {
            parsed_supersede_version(m)
        } else if name == "bind-applicability"@ {
            parsed_bind(m)
        } else if name == "register-service"@ {
            parsed_register_service(m)
        } else if name == "supersede-service"@ {
            parsed_supersede_service(m)
        } else if name == "register-protocol-binding"@ {
            parsed_register_protocol(m)
        } else if name == "register-verification-mechanism"@ {
            parsed_register_mechanism(m)
        } else if name == "update-model-validation"@ {
            parsed_update(m)
        } else {
            Err("unknown `op`"@)
        },
    }
}

/// What the wire form of a record parses to.
pub open spec fn parsed_record(t: Tree) -> Result<RecordView, Seq<char>> {
    match json::obj_of(t) {
        None => Err("audit record must be an object"@),
        Some(m) => {
            let seq = match json::member(m, "seq"@) {
                Some(x) => json::u64_of(x),
                None => None,
            };
            let at = match json::member(m, "recorded_at"@) {
                Some(Tree::Str(s)) => time::parsed(s),
                _ => None,
            };
            if seq is None {
                Err("missing `seq`"@)
            } else if at is None {
                Err("missing/invalid `recorded_at`"@)
            } else {
                match parsed_op(m) {
                    Err(e) => Err(e),
                    Ok(op) => Ok(
                        RecordView {
                            seq: seq->Some_0,
                            recorded_at: Timestamp { secs: at->Some_0 as i64 },
                            op,
                        },
                    ),
                }
            }
        },
    }
}

/// Reads a member that a record needs.
fn read_needed<'a>(o: &'a Object, key: &str) -> (r: Result<&'a Json, String>)
    ensures
        match r {
            Ok(v) => needed(o@, key@) == Ok::<Tree, Seq<char>>(v@),
            Err(e) => needed(o@, key@) == Err::<Tree, Seq<char>>(e@),
        },
{
    match o.get(key) {
        Some(v) => Ok(v),
        None => Err(text::cat3("missing `", key, "`")),
    }
}

/// Reads a text that a record needs.
fn read_needed_text(o: &Object, key: &str) -> (r: Result<String, String>)
    ensures
        match r {
            Ok(v) => needed_text(o@, key@) == Ok::<Seq<char>, Seq<char>>(v@),
            Err(e) => needed_text(o@, key@) == Err::<Seq<char>, Seq<char>>(e@),
        },
{
    match o.get_str(key) {
        Some(v) => Ok(v.to_owned()),
        None => Err(text::cat3("missing `", key, "`")),
    }
}

/// Whether a reading of a mutation is the one stated.
pub open spec fn reads_as(r: Result<Op, String>, expected: Result<OpView, Seq<char>>) -> bool {
    match r {
        Ok(op) => expected == Ok::<OpView, Seq<char>>(op@),
        Err(e) => expected == Err::<OpView, Seq<char>>(e@),
    }
}

/// Reads an item registration.
fn read_register_item(o: &Object) -> (r: Result<Op, String>)
    ensures
        reads_as(r, parsed_register_item(o@)),
{
    proof {
        reveal(parsed_register_item);
    }
    match read_needed(o, "item") {
        Ok(v) => match Item::from_json(v) {
            Ok(item) => Ok(Op::RegisterItem { item }),
            Err(e) => Err(e),
        },
        Err(e) => Err(e),
    }
}

/// Reads an item supersession.
fn read_supersede_version(o: &Object) -> (r: Result<Op, String>)
    ensures
        reads_as(r, parsed_supersede_version(o@)),
{
    proof {
        reveal(parsed_supersede_version);
    }
    let identifier = match read_needed_text(o, "identifier") {
        Ok(s) => s,
        Err(e) => return Err(e),
    };
    let superseded_version = match read_needed_text(o, "superseded_version") {
        Ok(s) => s,
        Err(e) => return Err(e),
    };
    let prior = match read_needed_text(o, "prior_status") {
        Ok(s) => s,
        Err(e) => return Err(e),
    };
    let prior_status = match Status::parse(prior.as_str()) {
        Some(s) => s,
        None => return Err("invalid `prior_status`".to_owned()),
    };
    let successor = match read_needed(o, "successor") {
        Ok(v) => match ItemVersion::from_json(v) {
            Ok(x) => x,
            Err(e) => return Err(e),
        },
        Err(e) => return Err(e),
    };
    let manifest = match fields::read_present(o, "manifest") {
        Some(v) => Some(v.clone()),
        None => None,
    };
    Ok(Op::SupersedeVersion { identifier, superseded_version, prior_status, successor, manifest })
}

/// Reads an applicability binding.
fn read_bind(o: &Object) -> (r: Result<Op, String>)
    ensures
        reads_as(r, parsed_bind(o@)),
{
    proof {
        reveal(parsed_bind);
    }
    match read_needed(o, "binding") {
        Ok(v) => match ApplicabilityBinding::from_json(v) {
            Ok(binding) => Ok(Op::BindApplicability { binding }),
            Err(e) => Err(e),
        },
        Err(e) => Err(e),
    }
}

/// Reads a service registration.
fn read_register_service(o: &Object) -> (r: Result<Op, String>)
    ensures
        reads_as(r, parsed_register_service(o@)),
{
    proof {
        reveal(parsed_register_service);
    }
    match read_needed(o, "service") {
        Ok(v) => match ServiceDescriptor::from_json_value(v) {
            Ok(service) => Ok(Op::RegisterService { service }),
            Err(e) => Err(e),
        },
        Err(e) => Err(e),
    }
}

/// Reads a service supersession.
fn read_supersede_service(o: &Object) -> (r: Result<Op, String>)
    ensures
        reads_as(r, parsed_supersede_service(o@)),
{
    proof {
        reveal(parsed_supersede_service);
    }
    let identifier = match read_needed_text(o, "identifier") {
        Ok(s) => s,
        Err(e) => return Err(e),
    };
    let superseded_version = match read_needed_text(o, "superseded_version") {
        Ok(s) => s,
        Err(e) => return Err(e),
    };
    let prior = match read_needed_text(o, "prior_status") {
        Ok(s) => s,
        Err(e) => return Err(e),
    };
    let prior_status = match ServiceStatus::parse(prior.as_str()) {
        Some(s) => s,
        None => return Err("invalid `prior_status`".to_owned()),
    };
    let successor = match read_needed(o, "successor") {
        Ok(v) => match ServiceVersion::from_json_value(v) {
            Ok(x) => x,
            Err(e) => return Err(e),
        },
        Err(e) => return Err(e),
    };
    Ok(Op::SupersedeService { identifier, superseded_version, prior_status, successor })
}

/// Reads the registration of a protocol binding.
fn read_register_protocol(o: &Object) -> (r: Result<Op, String>)
    ensures
        reads_as(r, parsed_register_protocol(o@)),
{
    proof {
        reveal(parsed_register_protocol);
    }
    match read_needed(o, "binding") {
        Ok(v) => match ProtocolBinding::from_json_value(v) {
            Ok(binding) => Ok(Op::RegisterProtocolBinding { binding }),
            Err(e) => Err(e),
        },
        Err(e) => Err(e),
    }
}

/// Reads the registration of a verification mechanism.
fn read_register_mechanism(o: &Object) -> (r: Result<Op, String>)
    ensures
        reads_as(r, parsed_register_mechanism(o@)),
{
    proof {
        reveal(parsed_register_mechanism);
    }
    match read_needed(o, "mechanism") {
        Ok(v) => match VerificationMechanism::from_json_value(v) {
            Ok(mechanism) => Ok(Op::RegisterVerificationMechanism { mechanism }),
            Err(e) => Err(e),
        },
        Err(e) => Err(e),
    }
}

/// Reads a validation update.
fn read_update(o: &Object) -> (r: Result<Op, String>)
    ensures
        reads_as(r, parsed_update(o@)),
{
    proof {
        reveal(parsed_update);
    }
    let identifier = match read_needed_text(o, "identifier") {
        Ok(s) => s,
        Err(e) => return Err(e),
    };
    let version = match read_needed_text(o, "version") {
        Ok(s) => s,
        Err(e) => return Err(e),
    };
    match read_needed(o, "validation") {
        Ok(v) => match ValidationRecord::from_json(v) {
            Ok(validation) => Ok(Op::UpdateModelValidation { identifier, version, validation }),
            Err(e) => Err(e),
        },
        Err(e) => Err(e),
    }
}

/// Reads the mutation of a record.
fn read_op(o: &Object) -> (r: Result<Op, String>)
    ensures
        reads_as(r, parsed_op(o@)),
{
    proof {
        reveal(parsed_op);
    }
    let name = match read_needed_text(o, "op") {
        Ok(s) => s,
        Err(_) => return Err("unknown `op`".to_owned()),
    };
    let n = name.as_str();
    if text::same(n, "register-item") {
        read_register_item(o)
    } else if text::same(n, "supersede-version") {
        read_supersede_version(o)
    } else if text::same(n, "bind-applicability") {
        read_bind(o)
    } else if text::same(n, "register-service") {
        read_register_service(o)
    } else if text::same(n, "supersede-service") {
        read_supersede_service(o)
    } else if text::same(n, "register-protocol-binding") {
        read_register_protocol(o)
    } else if text::same(n, "register-verification-mechanism") {
        read_register_mechanism(o)
    } else if text::same(n, "update-model-validation") {
        read_update(o)
    } else {
        Err("unknown `op`".to_owned())
    }
}

impl Op {
    /// The name of the mutation on the wire.
    pub fn name(&self) -> (r: &'static str)
        ensures
            r@ == op_name(self@),
    {
        match self {
            Op::RegisterItem { .. } => "register-item",
            Op::SupersedeVersion { .. } => "supersede-version",
            Op::BindApplicability { .. } => "bind-applicability",
            Op::RegisterService { .. } => "register-service",
            Op::SupersedeService { .. } => "supersede-service",
            Op::RegisterProtocolBinding { .. } => "register-protocol-binding",
            Op::RegisterVerificationMechanism { .. } => "register-verification-mechanism",
            Op::UpdateModelValidation { .. } => "update-model-validation",
        }
    }

    /// The members of the mutation on the wire.
    fn write_members(&self) -> (r: Object)
        ensures
            r@ == op_members(self@),
    {
        let mut m = Object::new();
        m.put_str("op", self.name());
        match self {
            Op::RegisterItem { item } => {
                m.put("item", item.to_json());
            },
            Op::SupersedeVersion {
                identifier,
                superseded_version,
                prior_status,
                successor,
                manifest,
            } => {
                m.put_str("identifier", identifier.as_str());
                m.put_str("superseded_version", superseded_version.as_str());
                m.put_str("prior_status", prior_status.as_str());
                m.put("successor", successor.to_json(None));
                fields::put_json(&mut m, "manifest", manifest);
            },
            Op::BindApplicability { binding } => {
                m.put("binding", binding.to_json());
            },
            Op::RegisterService { service } => {
                m.put("service", service.to_json_value());
            },
            Op::SupersedeService { identifier, superseded_version, prior_status, successor } => {
                m.put_str("identifier", identifier.as_str());
                m.put_str("superseded_version", superseded_version.as_str());
                m.put_str("prior_status", prior_status.as_str());
                m.put("successor", successor.to_json(None));
            },
            Op::RegisterProtocolBinding { binding } => {
                m.put("binding", binding.to_json());
            },
            Op::RegisterVerificationMechanism { mechanism } => {
                m.put("mechanism", mechanism.to_json());
            },
            Op::UpdateModelValidation { identifier, version, validation } => {
                m.put_str("identifier", identifier.as_str());
                m.put_str("version", version.as_str());
                m.put("validation", validation.to_json());
            },
        }
        m
    }
}

impl AuditRecord {
    /// The journal line of the record.
    pub fn journal_line(&self) -> (r: String)
        ensures
            r@ == journal_line(self@),
            journal::can_be_line(r@),
            record_plain(self@) ==> record_ok(self@),
            record_ok(self@) ==> line_record(r@) == Some(
                Ok::<RecordView, Seq<char>>(settled_record(self@)),
            ),
    {
        let line = self.to_json().to_text();
        proof {
            if record_ok(self@) {
                line_holds(line@, self@);
            }
        }
        line
    }

    /// Wire form.
    pub fn to_json(&self) -> (r: Json)
        ensures
            r@ == record_tree(self@),
    {
        let mut m = self.op.write_members();
        m.put_uint("seq", self.seq);
        m.put("recorded_at", Json::Str(self.recorded_at.to_string()));
        Json::Obj(m)
    }

    /// Parses the wire form.
    pub fn from_json(v: &Json) -> (r: Result<AuditRecord, String>)
        ensures
            match r {
                Ok(x) => parsed_record(v@) == Ok::<RecordView, Seq<char>>(x@),
                Err(e) => parsed_record(v@) == Err::<RecordView, Seq<char>>(e@),
            },
    {
        let o = match v.as_object() {
            Some(o) => o,
            None => return Err("audit record must be an object".to_owned()),
        };
        let seq: u64 = match o.get("seq") {
            Some(x) => match x.as_u64() {
                Some(n) => n,
                None => return Err("missing `seq`".to_owned()),
            },
            None => return Err("missing `seq`".to_owned()),
        };
        let recorded_at = match o.get_str("recorded_at") {
            Some(s) => match Timestamp::parse(s) {
                Ok(t) => t,
                Err(_) => return Err("missing/invalid `recorded_at`".to_owned()),
            },
            None => return Err("missing/invalid `recorded_at`".to_owned()),
        };
        match read_op(o) {
            Ok(op) => Ok(AuditRecord { seq, recorded_at, op }),
            Err(e) => Err(e),
        }
    }
}

/// A refused mutation: `Conflict` where something is already there,
/// `Invalid` where the request makes no sense.
#[derive(Debug, PartialEq, Eq)]
pub enum StoreError {
    Conflict(String),
    Invalid(String),
}

/// The content of a refusal.
pub enum StoreErrorView {
    Conflict(Seq<char>),
    Invalid(Seq<char>),
}

impl View for StoreError {
    type V = StoreErrorView;

    open spec fn view(&self) -> StoreErrorView {
        match *self {
            StoreError::Conflict(s) => StoreErrorView::Conflict(s@),
            StoreError::Invalid(s) => StoreErrorView::Invalid(s@),
        }
    }
}

/// The registry store: items, services, protocol bindings and verification
/// mechanisms, each keyed by its identifier, the applicability bindings,
/// and the audit log. The register is an attribute of an item, not a key.
pub struct Store {
    items: Table<Item>,
    bindings: Vec<ApplicabilityBinding>,
    log: Vec<AuditRecord>,
    next_binding_id: u64,
    services: Table<ServiceDescriptor>,
    protocols: Table<ProtocolBinding>,
    mechanisms: Table<VerificationMechanism>,
}

/// The content of the store.
pub struct StoreView {
    pub items: Map<Seq<char>, ItemView>,
    pub bindings: Seq<BindingView>,
    pub log: Seq<RecordView>,
    pub next_binding_id: u64,
    pub services: Map<Seq<char>, ServiceView>,
    pub protocols: Map<Seq<char>, ProtocolView>,
    pub mechanisms: Map<Seq<char>, MechanismView>,
}

/// The contents of a sequence of bindings.
pub open spec fn binding_views(s: Seq<ApplicabilityBinding>) -> Seq<BindingView> {
    s.map_values(|b: ApplicabilityBinding| b@)
}

impl View for Store {
    type V = StoreView;

    closed spec fn view(&self) -> StoreView {
        StoreView {
            items: self.items@,
            bindings: binding_views(self.bindings@),
            log: record_views(self.log@),
            next_binding_id: self.next_binding_id,
            services: self.services@,
            protocols: self.protocols@,
            mechanisms: self.mechanisms@,
        }
    }
}

/// The empty store.
pub open spec fn no_state() -> StoreView {
    StoreView {
        items: Map::empty(),
        bindings: Seq::empty(),
        log: Seq::empty(),
        next_binding_id: 1,
        services: Map::empty(),
        protocols: Map::empty(),
        mechanisms: Map::empty(),
    }
}

/// The versions of an item once `old` is superseded by `successor`: `old`
/// is linked to it, every other version stays as it was.
pub open spec fn superseded_versions(
    vs: Seq<VersionView>,
    old: Seq<char>,
    successor: VersionView,
) -> Seq<VersionView> {
    let linked = if model::find_version(vs, old) is Some {
        let i = model::version_index(vs, old);
        vs.update(
            i,
            VersionView {
                status: Status::Superseded,
                superseded_by_version: Some(successor.version),
                ..vs[i]
            },
        )
    } else {
        vs
    };
    linked.push(successor)
}

/// An item once `old` is superseded by `successor`.
pub open spec fn superseded_item(
    item: ItemView,
    old: Seq<char>,
    successor: VersionView,
    manifest: Option<Tree>,
) -> ItemView {
    ItemView {
        versions: superseded_versions(item.versions, old, successor),
        manifest: match manifest {
            Some(m) => Some(m),
            None => item.manifest,
        },
        ..item
    }
}

/// A service once `old` is superseded by `successor`.
pub open spec fn superseded_service(
    service: ServiceView,
    old: Seq<char>,
    successor: ServiceVersionView,
) -> ServiceView {
    let vs = service.versions;
    let linked = if discovery::find_service_version(vs, old) is Some {
        let i = discovery::service_version_index(vs, old);
        vs.update(
            i,
            ServiceVersionView {
                status: ServiceStatus::Superseded,
                superseded_by_version: Some(successor.version),
                ..vs[i]
            },
        )
    } else {
        vs
    };
    ServiceView { versions: linked.push(successor), ..service }
}

/// A deposit manifest with a new validation outcome.
pub open spec fn revalidated(manifest: Tree, validation: ValidationView) -> Tree {
    match manifest {
        Tree::Obj(m) => match json::member(m, "express"@) {
            Some(Tree::Obj(x)) => Tree::Obj(
                m.insert(
                    "express"@,
                    Tree::Obj(x.insert("validation"@, express::validation_tree(validation))),
                ),
            ),
            _ => manifest,
        },
        _ => manifest,
    }
}

/// Writes a new validation outcome into a deposit manifest.
fn revalidate(manifest: Json, validation: &ValidationRecord) -> (r: Json)
    ensures
        r@ == revalidated(manifest@, validation@),
{
    match manifest {
        Json::Obj(o) => {
            let section = match o.get("express") {
                Some(Json::Obj(x)) => Some(x.clone()),
                _ => None,
            };
            match section {
                Some(x) => {
                    let mut inner = x;
                    inner.put("validation", validation.to_json());
                    let mut m = o;
                    m.put("express", Json::Obj(inner));
                    Json::Obj(m)
                },
                None => Json::Obj(o),
            }
        },
        other => other,
    }
}

/// An item with a new validation outcome in its deposit manifest.
pub open spec fn revalidated_item(item: ItemView, validation: ValidationView) -> ItemView {
    ItemView {
        manifest: match item.manifest {
            Some(m) => Some(revalidated(m, validation)),
            None => None,
        },
        ..item
    }
}

/// The state that a mutation leads to, apart from the log.
pub open spec fn applied(s: StoreView, op: OpView) -> StoreView {
    match op {
        OpView::RegisterItem { item } => StoreView {
            items: s.items.insert(item.identifier, item),
            ..s
        },
        OpView::SupersedeVersion {
            identifier,
            superseded_version,
            prior_status,
            successor,
            manifest,
        } => if s.items.dom().contains(identifier) {
            StoreView {
                items: s.items.insert(
                    identifier,
                    superseded_item(s.items[identifier], superseded_version, successor, manifest),
                ),
                ..s
            }
        } else {
            s
        },
        OpView::BindApplicability { binding } => StoreView {
            next_binding_id: if s.next_binding_id <= binding.id {
                (binding.id + 1) as u64
            } else {
                s.next_binding_id
            },
            bindings: s.bindings.push(binding),
            ..s
        },
        OpView::RegisterService { service } => StoreView {
            services: s.services.insert(service.identifier, service),
            ..s
        },
        OpView::SupersedeService { identifier, superseded_version, prior_status, successor } => if s.services.dom().contains(
        identifier) {
            StoreView {
                services: s.services.insert(
                    identifier,
                    superseded_service(s.services[identifier], superseded_version, successor),
                ),
                ..s
            }
        } else {
            s
        },
        OpView::RegisterProtocolBinding { binding } => StoreView {
            protocols: s.protocols.insert(binding.identifier, binding),
            ..s
        },
        OpView::RegisterVerificationMechanism { mechanism } => StoreView {
            mechanisms: s.mechanisms.insert(mechanism.identifier, mechanism),
            ..s
        },
        OpView::UpdateModelValidation { identifier, version, validation } => if s.items.dom().contains(
        identifier) {
            StoreView {
                items: s.items.insert(
                    identifier,
                    revalidated_item(s.items[identifier], validation),
                ),
                ..s
            }
        } else {
            s
        },
    }
}

/// The state once a record is appended and applied.
pub open spec fn logged(s: StoreView, r: RecordView) -> StoreView {
    StoreView { log: s.log.push(r), ..applied(s, r.op) }
}

/// The state that a log makes up, starting from an empty store.
pub open spec fn rebuilt(log: Seq<RecordView>) -> StoreView
    decreases log.len(),
{
    if log.len() == 0 {
        no_state()
    } else {
        logged(rebuilt(log.drop_last()), log.last())
    }
}

/// Whether the state is what the log makes up.
pub open spec fn faithful(s: StoreView) -> bool {
    s == rebuilt(s.log)
}

/// The sequence number after `n` records. Numbers are 64 bits wide; a log
/// that long keeps the last one.
pub open spec fn seq_after(n: nat) -> u64 {
    if n < u64::MAX {
        (n + 1) as u64
    } else {
        u64::MAX
    }
}

/// The record that a mutation is logged as.
pub open spec fn next_record(s: StoreView, op: OpView, now: Timestamp) -> RecordView {
    RecordView { seq: seq_after(s.log.len()), recorded_at: now, op }
}

/// Whether a mutation can be applied: the id after a binding's has to be a
/// number of 64 bits.
pub open spec fn admissible(op: OpView) -> bool {
    op matches OpView::BindApplicability { binding } ==> binding.id < u64::MAX
}

/// Whether a mutation came out as it should: refused with the stated error
/// and nothing changed, or logged and applied.
pub open spec fn settles(
    before: StoreView,
    after: StoreView,
    r: Result<AuditRecord, StoreError>,
    refusal: Option<StoreErrorView>,
    op: OpView,
    now: Timestamp,
) -> bool {
    match refusal {
        Some(e) => (r matches Err(x) && x@ == e) && after == before,
        None => (r matches Ok(rec) && rec@ == next_record(before, op, now)) && after == logged(
            before,
            next_record(before, op, now),
        ),
    }
}

/// Why the registration of an item is refused.
pub open spec fn register_refusal(s: StoreView, item: ItemView) -> Option<StoreErrorView> {
    if s.items.dom().contains(item.identifier) {
        Some(
            StoreErrorView::Conflict(
                "item `"@ + item.identifier
                    + "` is already registered; add versions through POST /items/"@
                    + item.identifier + "/versions"@,
            ),
        )
    } else {
        None
    }
}

/// An instant in canonical notation.
pub open spec fn shown(t: Timestamp) -> Seq<char> {
    time::stamp_text(t.secs as int)
}

/// Why a window that starts before the superseded one is refused.
pub open spec fn early_start(new: Timestamp, old: Timestamp) -> StoreErrorView {
    StoreErrorView::Invalid(
        "`effective_from` "@ + shown(new) + " precedes the superseded version's window start "@
            + shown(old),
    )
}

/// Why the supersession of an item version is refused.
pub open spec fn supersede_refusal(
    s: StoreView,
    identifier: Seq<char>,
    target: Seq<char>,
    successor: VersionView,
) -> Option<StoreErrorView> {
    if !s.items.dom().contains(identifier) {
        Some(StoreErrorView::Invalid("no registry item `"@ + identifier + "`"@))
    } else {
        let vs = s.items[identifier].versions;
        let old = model::find_version(vs, target);
        if model::find_version(vs, successor.version) is Some {
            Some(
                StoreErrorView::Conflict(
                    "item `"@ + identifier + "` already has a version `"@ + successor.version
                        + "`"@,
                ),
            )
        } else if old is None {
            Some(
                StoreErrorView::Invalid(
                    "item `"@ + identifier + "` has no version `"@ + target + "`"@,
                ),
            )
        } else if old->Some_0.status != Status::Valid {
            Some(
                StoreErrorView::Invalid(
                    "version `"@ + target + "` of `"@ + identifier + "` is "@ + model::status_name(
                        old->Some_0.status,
                    ) + " — only the valid version can be superseded"@,
                ),
            )
        } else {
            match (successor.effective_from, old->Some_0.effective_from) {
                (Some(new), Some(start)) => if new.secs < start.secs {
                    Some(early_start(new, start))
                } else {
                    None
                },
                _ => None,
            }
        }
    }
}

/// The mutation that supersedes an item version.
pub open spec fn supersede_op(
    s: StoreView,
    identifier: Seq<char>,
    target: Seq<char>,
    successor: VersionView,
    manifest: Option<Tree>,
) -> OpView {
    OpView::SupersedeVersion {
        identifier,
        superseded_version: target,
        prior_status: model::find_version(s.items[identifier].versions, target)->Some_0.status,
        successor,
        manifest,
    }
}

/// Why an applicability binding is refused.
pub open spec fn bind_refusal(s: StoreView, b: BindingView) -> Option<StoreErrorView> {
    if !s.items.dom().contains(b.profile_item) {
        Some(
            StoreErrorView::Invalid("profile item `"@ + b.profile_item + "` is not registered"@),
        )
    } else if s.items[b.profile_item].item_class != ItemClass::Profile {
        Some(
            StoreErrorView::Invalid(
                "item `"@ + b.profile_item + "` has class `"@ + model::class_name(
                    s.items[b.profile_item].item_class,
                ) + "`, not `profile`"@,
            ),
        )
    } else if b.profile_version is Some && model::find_version(
        s.items[b.profile_item].versions,
        b.profile_version->Some_0,
    ) is None {
        Some(
            StoreErrorView::Invalid(
                "item `"@ + b.profile_item + "` has no version `"@ + b.profile_version->Some_0
                    + "`"@,
            ),
        )
    } else if s.next_binding_id == u64::MAX {
        Some(StoreErrorView::Invalid("binding ids are exhausted"@))
    } else {
        None
    }
}

/// The mutation that adds a binding, under the next id.
pub open spec fn bind_op(s: StoreView, b: BindingView) -> OpView {
    OpView::BindApplicability { binding: BindingView { id: s.next_binding_id, ..b } }
}

/// Why the registration of a service is refused.
pub open spec fn service_refusal(s: StoreView, service: ServiceView) -> Option<StoreErrorView> {
    if s.services.dom().contains(service.identifier) {
        Some(
            StoreErrorView::Conflict(
                "service `"@ + service.identifier
                    + "` is already registered; add versions through POST /services/"@
                    + service.identifier + "/versions"@,
            ),
        )
    } else {
        None
    }
}

/// Why the supersession of a service version is refused.
pub open spec fn supersede_service_refusal(
    s: StoreView,
    identifier: Seq<char>,
    target: Seq<char>,
    successor: ServiceVersionView,
) -> Option<StoreErrorView> {
    if !s.services.dom().contains(identifier) {
        Some(StoreErrorView::Invalid("no service descriptor `"@ + identifier + "`"@))
    } else {
        let vs = s.services[identifier].versions;
        let old = discovery::find_service_version(vs, target);
        if discovery::find_service_version(vs, successor.version) is Some {
            Some(
                StoreErrorView::Conflict(
                    "service `"@ + identifier + "` already has a version `"@ + successor.version
                        + "`"@,
                ),
            )
        } else if old is None {
            Some(
                StoreErrorView::Invalid(
                    "service `"@ + identifier + "` has no version `"@ + target + "`"@,
                ),
            )
        } else if old->Some_0.status != ServiceStatus::Active {
            Some(
                StoreErrorView::Invalid(
                    "version `"@ + target + "` of `"@ + identifier + "` is "@
                        + discovery::service_status_name(old->Some_0.status)
                        + " — only the active version can be superseded"@,
                ),
            )
        } else if successor.effective_from.secs < old->Some_0.effective_from.secs {
            Some(early_start(successor.effective_from, old->Some_0.effective_from))
        } else {
            None
        }
    }
}

/// The mutation that supersedes a service version.
pub open spec fn supersede_service_op(
    s: StoreView,
    identifier: Seq<char>,
    target: Seq<char>,
    successor: ServiceVersionView,
) -> OpView {
    OpView::SupersedeService {
        identifier,
        superseded_version: target,
        prior_status: discovery::find_service_version(
            s.services[identifier].versions,
            target,
        )->Some_0.status,
        successor,
    }
}

/// Why the registration of a protocol binding is refused.
pub open spec fn protocol_refusal(s: StoreView, b: ProtocolView) -> Option<StoreErrorView> {
    if s.protocols.dom().contains(b.identifier) {
        Some(
            StoreErrorView::Conflict(
                "protocol binding `"@ + b.identifier + "` is already registered"@,
            ),
        )
    } else {
        None
    }
}

/// Why the registration of a verification mechanism is refused.
pub open spec fn mechanism_refusal(s: StoreView, m: MechanismView) -> Option<StoreErrorView> {
    if s.mechanisms.dom().contains(m.identifier) {
        Some(
            StoreErrorView::Conflict(
                "verification mechanism `"@ + m.identifier + "` is already registered"@,
            ),
        )
    } else {
        None
    }
}

/// Why a registration is refused; other mutations are not asked here.
pub open spec fn conflict_of(s: StoreView, op: OpView) -> Option<StoreErrorView> {
    match op {
        OpView::RegisterItem { item } => register_refusal(s, item),
        OpView::RegisterService { service } => service_refusal(s, service),
        OpView::RegisterProtocolBinding { binding } => protocol_refusal(s, binding),
        OpView::RegisterVerificationMechanism { mechanism } => mechanism_refusal(s, mechanism),
        _ => None,
    }
}

/// The content of an optional refusal.
pub open spec fn refusal_view(e: Option<StoreError>) -> Option<StoreErrorView> {
    match e {
        Some(x) => Some(x@),
        None => None,
    }
}

/// Why a new validation outcome is refused.
pub open spec fn validation_refusal(s: StoreView, identifier: Seq<char>, version: Seq<char>) -> Option<
    StoreErrorView,
> {
    if !s.items.dom().contains(identifier) {
        Some(StoreErrorView::Invalid("no registry item `"@ + identifier + "`"@))
    } else if s.items[identifier].item_class != ItemClass::Model {
        Some(
            StoreErrorView::Invalid(
                "item `"@ + identifier + "` has class `"@ + model::class_name(
                    s.items[identifier].item_class,
                ) + "`, not `model`"@,
            ),
        )
    } else if model::find_version(s.items[identifier].versions, version) is None {
        Some(
            StoreErrorView::Invalid(
                "item `"@ + identifier + "` has no version `"@ + version + "`"@,
            ),
        )
    } else {
        None
    }
}

/// Whether an item is of the class and in the register asked for.
pub open spec fn item_matches(i: ItemView, class: Option<ItemClass>, register: Option<Seq<char>>) -> bool {
    &&& class matches Some(c) ==> i.item_class == c
    &&& register matches Some(r) ==> i.register == r
}

/// The items under the first `n` names that match, in name order.
pub open spec fn items_among(
    m: Map<Seq<char>, ItemView>,
    ks: Seq<Seq<char>>,
    class: Option<ItemClass>,
    register: Option<Seq<char>>,
    n: int,
) -> Seq<ItemView>
    decreases n,
{
    if n <= 0 {
        Seq::empty()
    } else {
        let got = items_among(m, ks, class, register, n - 1);
        if item_matches(m[ks[n - 1]], class, register) {
            got.push(m[ks[n - 1]])
        } else {
            got
        }
    }
}

/// The items of a class and a register, in identifier order.
pub open spec fn items_matching(s: StoreView, class: Option<ItemClass>, register: Option<Seq<char>>) -> Seq<
    ItemView,
> {
    let ks = table::listing(s.items.dom());
    items_among(s.items, ks, class, register, ks.len() as int)
}

/// The bindings among the first `n` that bind `subject`, in order.
pub open spec fn bindings_among(bs: Seq<BindingView>, subject: Seq<char>, n: int) -> Seq<BindingView>
    decreases n,
{
    if n <= 0 {
        Seq::empty()
    } else {
        let got = bindings_among(bs, subject, n - 1);
        if bs[n - 1].subject == subject {
            got.push(bs[n - 1])
        } else {
            got
        }
    }
}

/// Whether the current version of a service advertises the class and the
/// jurisdiction asked for.
pub open spec fn service_matches(
    s: ServiceView,
    class: Option<ServiceClass>,
    jurisdiction: Option<Seq<char>>,
) -> bool {
    match discovery::service_current(s.versions) {
        None => class is None && jurisdiction is None,
        Some(v) => {
            &&& class matches Some(c) ==> match json::get_str(v.body, "class"@) {
                Some(x) => discovery::parsed_service_class(x) == Some(c),
                None => false,
            }
            &&& jurisdiction matches Some(j) ==> json::get_str(v.body, "jurisdiction"@) == Some(j)
        },
    }
}

/// The services under the first `n` names that match, in name order.
pub open spec fn services_among(
    m: Map<Seq<char>, ServiceView>,
    ks: Seq<Seq<char>>,
    class: Option<ServiceClass>,
    jurisdiction: Option<Seq<char>>,
    n: int,
) -> Seq<ServiceView>
    decreases n,
{
    if n <= 0 {
        Seq::empty()
    } else {
        let got = services_among(m, ks, class, jurisdiction, n - 1);
        if service_matches(m[ks[n - 1]], class, jurisdiction) {
            got.push(m[ks[n - 1]])
        } else {
            got
        }
    }
}

/// The services of a class and a jurisdiction, in identifier order.
pub open spec fn services_matching(
    s: StoreView,
    class: Option<ServiceClass>,
    jurisdiction: Option<Seq<char>>,
) -> Seq<ServiceView> {
    let ks = table::listing(s.services.dom());
    services_among(s.services, ks, class, jurisdiction, ks.len() as int)
}

/// The values of a map in name order.
pub open spec fn in_name_order<V>(m: Map<Seq<char>, V>) -> Seq<V> {
    table::listing(m.dom()).map_values(|k: Seq<char>| m[k])
}

/// The values of a finite map in name order are all of them, each once, in
/// the ascending order of their names.
pub proof fn name_order_selects<V>(m: Map<Seq<char>, V>)
    requires
        m.dom().finite(),
    ensures
        table::selection(m, |v: V| true, in_name_order(m)),
{
    table::listing_lists(m.dom());
    let ks = table::listing(m.dom());
    let p = |v: V| true;
    assert forall|k: Seq<char>| #[trigger] ks.contains(k) <==> m.dom().contains(k) && p(m[k]) by {
        assert(ks.contains(k) <==> m.dom().contains(k));
    }
    assert(table::names_where(m, p, ks));
}

/// A listing of items holds exactly the matching ones, each once, in the
/// ascending order of their identifiers.
pub proof fn items_matching_selects(s: StoreView, class: Option<ItemClass>, register: Option<Seq<char>>)
    requires
        s.items.dom().finite(),
    ensures
        table::selection(
            s.items,
            |i: ItemView| item_matches(i, class, register),
            items_matching(s, class, register),
        ),
{
    let ks = table::listing(s.items.dom());
    let p = |i: ItemView| item_matches(i, class, register);
    table::picked_selects(s.items, p);
    items_among_picks(s.items, ks, class, register, ks.len() as int);
}

/// The matching items are what is picked among the names.
proof fn items_among_picks(
    m: Map<Seq<char>, ItemView>,
    ks: Seq<Seq<char>>,
    class: Option<ItemClass>,
    register: Option<Seq<char>>,
    n: int,
)
    ensures
        items_among(m, ks, class, register, n) == table::picked(
            m,
            ks,
            |i: ItemView| item_matches(i, class, register),
            n,
        ),
    decreases n,
{
    if n > 0 {
        items_among_picks(m, ks, class, register, n - 1);
    }
}

/// A listing of services holds exactly the matching ones, each once, in the
/// ascending order of their identifiers.
pub proof fn services_matching_selects(
    s: StoreView,
    class: Option<ServiceClass>,
    jurisdiction: Option<Seq<char>>,
)
    requires
        s.services.dom().finite(),
    ensures
        table::selection(
            s.services,
            |v: ServiceView| service_matches(v, class, jurisdiction),
            services_matching(s, class, jurisdiction),
        ),
{
    let ks = table::listing(s.services.dom());
    let p = |v: ServiceView| service_matches(v, class, jurisdiction);
    table::picked_selects(s.services, p);
    services_among_picks(s.services, ks, class, jurisdiction, ks.len() as int);
}

/// The matching services are what is picked among the names.
proof fn services_among_picks(
    m: Map<Seq<char>, ServiceView>,
    ks: Seq<Seq<char>>,
    class: Option<ServiceClass>,
    jurisdiction: Option<Seq<char>>,
    n: int,
)
    ensures
        services_among(m, ks, class, jurisdiction, n) == table::picked(
            m,
            ks,
            |v: ServiceView| service_matches(v, class, jurisdiction),
            n,
        ),
    decreases n,
{
    if n > 0 {
        services_among_picks(m, ks, class, jurisdiction, n - 1);
    }
}

/// A page of the log.
pub open spec fn log_page(log: Seq<RecordView>, limit: int, offset: int) -> Seq<RecordView> {
    let from = if offset <= log.len() {
        offset
    } else {
        log.len() as int
    };
    let to = if from + limit <= log.len() {
        from + limit
    } else {
        log.len() as int
    };
    log.subrange(from, to)
}

/// The wire forms of records.
pub open spec fn record_trees(s: Seq<RecordView>) -> Seq<Tree> {
    s.map_values(|r: RecordView| record_tree(r))
}

/// The view of a page of the log.
pub open spec fn log_tree(log: Seq<RecordView>, limit: int, offset: int) -> Tree {
    Tree::Obj(
        Map::<Seq<char>, Tree>::empty().insert("total"@, Tree::Int(log.len() as int)).insert(
            "offset"@,
            Tree::Int(offset),
        ).insert("records"@, Tree::Arr(record_trees(log_page(log, limit, offset)))),
    )
}

/// The journal line of a record.
pub open spec fn journal_line(r: RecordView) -> Seq<char> {
    bridge::json_text(record_tree(r))
}

/// What a journal line holds: nothing, a record, or a fault.
pub open spec fn line_record(line: Seq<char>) -> Option<Result<RecordView, Seq<char>>> {
    if text::trimmed(line).len() == 0 {
        None
    } else {
        Some(
            match bridge::json_read(line) {
                Err(e) => Err(e),
                Ok(t) => match parsed_record(t) {
                    Err(e) => Err(e),
                    Ok(r) => if admissible(r.op) {
                        Ok(r)
                    } else {
                        Err("binding id out of range"@)
                    },
                },
            },
        )
    }
}

/// The state after replaying the first `n` lines of a journal, and a report
/// of each line that was skipped for a fault.
pub open spec fn replayed(s: StoreView, lines: Seq<Seq<char>>, n: int) -> (StoreView, Seq<Seq<char>>)
    decreases n,
{
    if n <= 0 {
        (s, Seq::empty())
    } else {
        let (got, faults) = replayed(s, lines, n - 1);
        match line_record(lines[n - 1]) {
            None => (got, faults),
            Some(Ok(r)) => (logged(got, r), faults),
            Some(Err(e)) => (
                got,
                faults.push("journal line "@ + text::decimal(n as nat) + ": "@ + e),
            ),
        }
    }
}

/// The records of a log from position `from` on.
pub open spec fn log_from(log: Seq<RecordView>, from: int) -> Seq<RecordView> {
    if from <= log.len() {
        log.skip(from)
    } else {
        Seq::empty()
    }
}

/// The state after records that follow `s`.
pub open spec fn followed(s: StoreView, records: Seq<RecordView>) -> StoreView
    decreases records.len(),
{
    if records.len() == 0 {
        s
    } else {
        logged(followed(s, records.drop_last()), records.last())
    }
}

/// Whether a line holds the settled record of `r`, if `r` can be journaled.
#[verifier::opaque]
spec fn reads_back(line: Seq<char>, r: RecordView) -> bool {
    &&& journal::can_be_line(line)
    &&& record_plain(r) ==> record_ok(r)
    &&& record_ok(r) ==> line_record(line) == Some(
        Ok::<RecordView, Seq<char>>(settled_record(r)),
    )
}

/// Whether all records of a log can be journaled and read back.
pub open spec fn log_ok(log: Seq<RecordView>) -> bool {
    forall|j: int| 0 <= j < log.len() ==> record_ok(#[trigger] log[j])
}

/// Whether all records of a log are plain.
pub open spec fn log_plain(log: Seq<RecordView>) -> bool {
    forall|j: int| 0 <= j < log.len() ==> record_plain(#[trigger] log[j])
}

/// What the text of a journal makes up, and a report of each line that was
/// skipped for a fault.
pub open spec fn recovered(s: Seq<char>) -> (StoreView, Seq<Seq<char>>) {
    replayed(no_state(), text::lines_of(s), text::lines_of(s).len() as int)
}

/// The contents of a sequence of borrowed items.
pub open spec fn item_ref_views(s: Seq<&Item>) -> Seq<ItemView> {
    s.map_values(|i: &Item| i@)
}

/// The contents of a sequence of borrowed bindings.
pub open spec fn binding_ref_views(s: Seq<&ApplicabilityBinding>) -> Seq<BindingView> {
    s.map_values(|b: &ApplicabilityBinding| b@)
}

/// The contents of a sequence of borrowed services.
pub open spec fn service_descriptor_refs(s: Seq<&ServiceDescriptor>) -> Seq<ServiceView> {
    s.map_values(|x: &ServiceDescriptor| x@)
}

/// The contents of a sequence of borrowed protocol bindings.
pub open spec fn protocol_refs(s: Seq<&ProtocolBinding>) -> Seq<ProtocolView> {
    s.map_values(|x: &ProtocolBinding| x@)
}

/// The contents of a sequence of borrowed verification mechanisms.
pub open spec fn mechanism_refs(s: Seq<&VerificationMechanism>) -> Seq<MechanismView> {
    s.map_values(|x: &VerificationMechanism| x@)
}

impl Store {
    /// An empty store.
    pub fn new() -> (r: Store)
        ensures
            r@ == no_state(),
            faithful(r@),
    {
        let r = Store {
            items: Table::new(),
            bindings: Vec::new(),
            log: Vec::new(),
            next_binding_id: 1,
            services: Table::new(),
            protocols: Table::new(),
            mechanisms: Table::new(),
        };
        assert(r@.bindings =~= no_state().bindings);
        assert(r@.log =~= no_state().log);
        r
    }

    /// A store rebuilt from the lines of a journal, with a report of each
    /// line that was skipped for a fault.
    pub fn open(lines: &Vec<String>) -> (r: (Store, Vec<String>))
        ensures
            r.0@ == replayed(no_state(), text::views(lines@), lines@.len() as int).0,
            text::views(r.1@) == replayed(no_state(), text::views(lines@), lines@.len() as int).1,
            faithful(r.0@),
    {
        let mut store = Store::new();
        let faults = store.replay(lines);
        (store, faults)
    }

    /// A store rebuilt from the text of a journal, with a report of each
    /// line that was skipped for a fault.
    pub fn recover(journal: &str) -> (r: (Store, Vec<String>))
        ensures
            r.0@ == recovered(journal@).0,
            text::views(r.1@) == recovered(journal@).1,
            faithful(r.0@),
    {
        let lines = text::lines(journal);
        assert(text::views(lines@).len() == lines@.len());
        Store::open(&lines)
    }

    /// Replays the lines of a journal. Blank lines are skipped; a line that
    /// holds no record (torn by a crash) is reported and skipped.
    pub fn replay(&mut self, lines: &Vec<String>) -> (r: Vec<String>)
        ensures
            final(self)@ == replayed(old(self)@, text::views(lines@), lines@.len() as int).0,
            text::views(r@) == replayed(old(self)@, text::views(lines@), lines@.len() as int).1,
            faithful(old(self)@) ==> faithful(final(self)@),
    {
        let ghost all = text::views(lines@);
        let ghost start = self@;
        let mut faults: Vec<String> = Vec::new();
        let mut i: usize = 0;
        assert(text::views(faults@) =~= Seq::<Seq<char>>::empty());
        while i < lines.len()
            invariant
                i <= lines@.len(),
                all == text::views(lines@),
                start == old(self)@,
                self@ == replayed(start, all, i as int).0,
                text::views(faults@) == replayed(start, all, i as int).1,
                faithful(start) ==> faithful(self@),
            decreases lines@.len() - i,
        {
            let line = lines[i].as_str();
            assert(all[i as int] == line@);
            let blank = text::trim(line);
            let ghost before = text::views(faults@);
            let ghost state = self@;
            if !blank.as_str().is_empty() {
                match Store::read_line(line) {
                    Ok(rec) => {
                        self.apply(&rec);
                        self.log.push(rec);
                        assert(self@.log =~= state.log.push(rec@));
                        assert(self@ == logged(state, rec@));
                        proof {
                            logged_keeps_faith(state, rec@);
                        }
                    },
                    Err(e) => {
                        let number = text::decimal_of_usize(i + 1);
                        let fault = text::cat4("journal line ", number.as_str(), ": ", e.as_str());
                        faults.push(fault);
                        assert(text::views(faults@) =~= before.push(fault@));
                    },
                }
            }
            i = i + 1;
        }
        faults
    }

    /// Reads a journal line that is not blank.
    fn read_line(line: &str) -> (r: Result<AuditRecord, String>)
        requires
            text::trimmed(line@).len() > 0,
        ensures
            match r {
                Ok(rec) => line_record(line@) == Some(Ok::<RecordView, Seq<char>>(rec@)) && admissible(
                    rec@.op,
                ),
                Err(e) => line_record(line@) == Some(Err::<RecordView, Seq<char>>(e@)),
            },
    {
        let v = match Json::parse(line) {
            Ok(v) => v,
            Err(e) => return Err(e),
        };
        match AuditRecord::from_json(&v) {
            Ok(rec) => {
                if let Op::BindApplicability { binding } = &rec.op {
                    if binding.id == u64::MAX {
                        return Err("binding id out of range".to_owned());
                    }
                }
                Ok(rec)
            },
            Err(e) => Err(e),
        }
    }

    /// The journal lines of the records from position `start` on.
    fn lines_from(&self, start: usize) -> (r: Vec<String>)
        requires
            start <= self@.log.len(),
        ensures
            text::views(r@) == self@.log.skip(start as int).map_values(|x: RecordView| journal_line(x)),
            forall|j: int|
                start <= j < self@.log.len() ==> reads_back(
                    text::views(r@)[j - start],
                    #[trigger] self@.log[j],
                ),
    {
        let mut out: Vec<String> = Vec::new();
        let mut i: usize = start;
        while i < self.log.len()
            invariant
                start <= i <= self.log@.len(),
                out@.len() == i - start,
                forall|j: int|
                    0 <= j < out@.len() ==> (#[trigger] out@[j])@ == journal_line(
                        self.log@[start + j]@,
                    ) && reads_back(out@[j]@, self.log@[start + j]@),
            decreases self.log@.len() - i,
        {
            let line = self.log[i].journal_line();
            assert(reads_back(line@, self.log@[i as int]@)) by {
                reveal(reads_back);
            }
            out.push(line);
            i = i + 1;
        }
        let ghost lines = text::views(out@);
        assert(lines =~= self@.log.skip(start as int).map_values(|x: RecordView| journal_line(x)));
        assert forall|j: int| start <= j < self@.log.len() implies reads_back(
            lines[j - start],
            #[trigger] self@.log[j],
        ) by {
            assert(lines[j - start] == out@[j - start]@);
            assert(self@.log[j] == self.log@[j]@);
        }
        out
    }

    /// The journal lines of the records from position `from` on. Whatever
    /// lines a journal holds before them, torn ones included, these lines
    /// are replayed on top without a report. A journal of the whole log
    /// rebuilds the settled log, and this very state where the log is tidy.
    pub fn journal_from(&self, from: usize) -> (r: Vec<String>)
        ensures
            text::views(r@) == log_from(self@.log, from as int).map_values(
                |x: RecordView| journal_line(x),
            ),
            log_plain(log_from(self@.log, from as int)) ==> log_ok(log_from(self@.log, from as int)),
            forall|i: int| 0 <= i < r@.len() ==> journal::can_be_line(#[trigger] text::views(r@)[i]),
            forall|lines: Seq<Seq<char>>|
                log_ok(log_from(self@.log, from as int)) ==> replayed(
                    no_state(),
                    #[trigger] (lines + text::views(r@)),
                    (lines.len() + r@.len()) as int,
                ) == (
                    followed(
                        replayed(no_state(), lines, lines.len() as int).0,
                        settled_log(log_from(self@.log, from as int)),
                    ),
                    replayed(no_state(), lines, lines.len() as int).1,
                ),
            from == 0 && log_ok(self@.log) ==> replayed(
                no_state(),
                text::views(r@),
                r@.len() as int,
            ) == (rebuilt(settled_log(self@.log)), Seq::<Seq<char>>::empty()),
            from == 0 && faithful(self@) && tidy(self@.log) && log_ok(self@.log) ==> replayed(
                no_state(),
                text::views(r@),
                r@.len() as int,
            ) == (self@, Seq::<Seq<char>>::empty()),
    {
        let start: usize = if from <= self.log.len() {
            from
        } else {
            self.log.len()
        };
        let out = self.lines_from(start);
        proof {
            let new = text::views(out@);
            let log = log_from(self@.log, from as int);
            assert(log == self@.log.skip(start as int));
            assert(new.len() == log.len());
            assert forall|j: int| 0 <= j < log.len() implies reads_back(new[j], #[trigger] log[j]) by {
                assert(log[j] == self@.log[start + j]);
            }
            lines_read_back(new, log);
            if log_ok(log) {
                assert forall|lines: Seq<Seq<char>>| replayed(
                    no_state(),
                    #[trigger] (lines + new),
                    (lines.len() + new.len()) as int,
                ) == (
                    followed(replayed(no_state(), lines, lines.len() as int).0, settled_log(log)),
                    replayed(no_state(), lines, lines.len() as int).1,
                ) by {
                    journal_follows(no_state(), lines, new, log, log.len() as int);
                    assert(settled_log(log).take(log.len() as int) =~= settled_log(log));
                }
            }
            if from == 0 {
                assert(log =~= self@.log);
                let none = Seq::<Seq<char>>::empty();
                assert(none + new =~= new);
                assert(replayed(no_state(), none, 0) == (no_state(), none));
                followed_from_nothing(settled_log(log));
                if tidy(log) {
                    tidy_log_is_settled(log);
                }
            }
        }
        out
    }

    /// The text that journals the records from position `from` on. Behind
    /// any journal whose last line is ended, torn as it may have been, it is
    /// replayed in full and nothing is reported of it. The text of the whole
    /// log brings this very state back where the log is tidy.
    pub fn journal_text(&self, from: usize) -> (r: String)
        ensures
            r@ == journal::entries(
                log_from(self@.log, from as int).map_values(|x: RecordView| journal_line(x)),
            ),
            log_plain(log_from(self@.log, from as int)) ==> log_ok(log_from(self@.log, from as int)),
            log_ok(log_from(self@.log, from as int)) ==> forall|s: Seq<char>|
                recovered(#[trigger] (journal::ended(s) + r@)) == (
                    followed(
                        recovered(journal::ended(s)).0,
                        settled_log(log_from(self@.log, from as int)),
                    ),
                    recovered(journal::ended(s)).1,
                ),
            from == 0 && faithful(self@) && tidy(self@.log) && log_ok(self@.log) ==> recovered(r@) == (
                self@,
                Seq::<Seq<char>>::empty(),
            ),
    {
        let lines = self.journal_from(from);
        let out = journal::entries_of(&lines);
        proof {
            let new = text::views(lines@);
            let log = log_from(self@.log, from as int);
            let none = Seq::<char>::empty();
            if log_ok(log) {
                assert forall|s: Seq<char>| recovered(#[trigger] (journal::ended(s) + out@)) == (
                    followed(recovered(journal::ended(s)).0, settled_log(log)),
                    recovered(journal::ended(s)).1,
                ) by {
                    journal::entries_are_lines(journal::ended(s), new);
                    let before = text::lines_of(journal::ended(s));
                    assert((before + new).len() == before.len() + lines@.len());
                }
            }
            if from == 0 {
                journal::entries_are_lines(none, new);
                assert(none + out@ =~= out@);
                journal::ending_keeps_lines(none);
                assert(text::split_on(none, '\n') =~= seq![none]);
                assert(text::lines_of(none) =~= Seq::<Seq<char>>::empty());
                assert(text::lines_of(none) + new =~= new);
            }
        }
        out
    }

    /// Appends a mutation to the log and applies it.
    pub fn record(&mut self, op: Op, now: Timestamp) -> (r: AuditRecord)
        requires
            admissible(op@),
        ensures
            r@ == next_record(old(self)@, op@, now),
            final(self)@ == logged(old(self)@, r@),
            faithful(old(self)@) ==> faithful(final(self)@),
    {
        let ghost before = self@;
        let n = self.log.len() as u64;
        let seq: u64 = if n < u64::MAX {
            n + 1
        } else {
            n
        };
        let rec = AuditRecord { seq, recorded_at: now, op };
        self.apply(&rec);
        self.log.push(rec.clone());
        assert(self@.log =~= before.log.push(rec@));
        proof {
            logged_keeps_faith(before, rec@);
        }
        rec
    }

    /// The state transition of a record, for both live recording and
    /// replay.
    fn apply(&mut self, rec: &AuditRecord)
        requires
            admissible(rec@.op),
        ensures
            final(self)@ == applied(old(self)@, rec@.op),
            final(self).log == old(self).log,
    {
        let ghost before = self@;
        match &rec.op {
            Op::RegisterItem { item } => {
                self.items.insert(item.identifier.clone(), item.clone());
            },
            Op::SupersedeVersion {
                identifier,
                superseded_version,
                prior_status,
                successor,
                manifest,
            } => {
                if let Some(found) = self.items.take(identifier.as_str()) {
                    let mut item = found;
                    let ghost vs = item@.versions;
                    if let Some(old) = item.version_mut(superseded_version.as_str()) {
                        old.status = Status::Superseded;
                        old.superseded_by_version = Some(successor.version.clone());
                    }
                    let ghost linked = item@.versions;
                    item.versions.push(successor.clone());
                    assert(item@.versions =~= linked.push(successor@));
                    if let Some(m) = manifest {
                        item.manifest = Some(m.clone());
                    }
                    assert(item@ == superseded_item(
                        before.items[identifier@],
                        superseded_version@,
                        successor@,
                        fields::opt_tree(*manifest),
                    ));
                    let ghost content = item@;
                    self.items.insert(identifier.clone(), item);
                    assert(self.items@ =~= before.items.insert(identifier@, content));
                } else {
                    assert(self.items@ =~= before.items);
                }
            },
            Op::BindApplicability { binding } => {
                if self.next_binding_id <= binding.id {
                    self.next_binding_id = binding.id + 1;
                }
                self.bindings.push(binding.clone());
                assert(self@.bindings =~= before.bindings.push(binding@));
            },
            Op::RegisterService { service } => {
                self.services.insert(service.identifier.clone(), service.clone());
            },
            Op::SupersedeService { identifier, superseded_version, prior_status, successor } => {
                if let Some(found) = self.services.take(identifier.as_str()) {
                    let mut service = found;
                    if let Some(old) = service.version_mut(superseded_version.as_str()) {
                        old.status = ServiceStatus::Superseded;
                        old.superseded_by_version = Some(successor.version.clone());
                    }
                    let ghost linked = service@.versions;
                    service.versions.push(successor.clone());
                    assert(service@.versions =~= linked.push(successor@));
                    assert(service@ == superseded_service(
                        before.services[identifier@],
                        superseded_version@,
                        successor@,
                    ));
                    let ghost content = service@;
                    self.services.insert(identifier.clone(), service);
                    assert(self.services@ =~= before.services.insert(identifier@, content));
                } else {
                    assert(self.services@ =~= before.services);
                }
            },
            Op::RegisterProtocolBinding { binding } => {
                self.protocols.insert(binding.identifier.clone(), binding.clone());
            },
            Op::RegisterVerificationMechanism { mechanism } => {
                self.mechanisms.insert(mechanism.identifier.clone(), mechanism.clone());
            },
            Op::UpdateModelValidation { identifier, version, validation } => {
                if let Some(found) = self.items.take(identifier.as_str()) {
                    let mut item = found;
                    let mut manifest: Option<Json> = None;
                    std::mem::swap(&mut manifest, &mut item.manifest);
                    item.manifest = match manifest {
                        Some(m) => Some(revalidate(m, validation)),
                        None => None,
                    };
                    assert(item@ == revalidated_item(before.items[identifier@], validation@));
                    let ghost content = item@;
                    self.items.insert(identifier.clone(), item);
                    assert(self.items@ =~= before.items.insert(identifier@, content));
                } else {
                    assert(self.items@ =~= before.items);
                }
            },
        }
    }

    /// The item `identifier`.
    pub fn item(&self, identifier: &str) -> (r: Option<&Item>)
        ensures
            match r {
                Some(i) => self@.items.dom().contains(identifier@) && self@.items[identifier@] == i@,
                None => !self@.items.dom().contains(identifier@),
            },
    {
        self.items.get(identifier)
    }

    /// The items of a class and a register, in identifier order.
    pub fn items_filtered(&self, class: Option<ItemClass>, register: Option<&str>) -> (r: Vec<&Item>)
        ensures
            item_ref_views(r@) == items_matching(self@, class, opt_str_view(register)),
            table::selection(
                self@.items,
                |i: ItemView| item_matches(i, class, opt_str_view(register)),
                item_ref_views(r@),
            ),
    {
        let ghost m = self@.items;
        let ghost ks = table::listing(m.dom());
        let ghost reg = opt_str_view(register);
        let mut out: Vec<&Item> = Vec::new();
        let n = self.items.len();
        let mut i: usize = 0;
        assert(item_ref_views(out@) =~= Seq::<ItemView>::empty());
        while i < n
            invariant
                i <= n,
                n == ks.len(),
                m == self.items@,
                ks == table::listing(m.dom()),
                reg == opt_str_view(register),
                item_ref_views(out@) == items_among(m, ks, class, reg, i as int),
            decreases n - i,
        {
            let item = self.items.value_at(i);
            let in_class = match class {
                Some(c) => item.item_class == c,
                None => true,
            };
            let in_register = match register {
                Some(r) => text::same(item.register.as_str(), r),
                None => true,
            };
            if in_class && in_register {
                let ghost before = item_ref_views(out@);
                out.push(item);
                assert(item_ref_views(out@) =~= before.push(item@));
            }
            i = i + 1;
        }
        proof {
            items_matching_selects(self@, class, reg);
        }
        out
    }

    /// The bindings of a subject, in the order of their registration.
    pub fn bindings_for(&self, subject: &str) -> (r: Vec<&ApplicabilityBinding>)
        ensures
            binding_ref_views(r@) == bindings_among(
                self@.bindings,
                subject@,
                self@.bindings.len() as int,
            ),
    {
        let ghost bs = self@.bindings;
        let mut out: Vec<&ApplicabilityBinding> = Vec::new();
        let mut i: usize = 0;
        assert(binding_ref_views(out@) =~= Seq::<BindingView>::empty());
        while i < self.bindings.len()
            invariant
                i <= self.bindings@.len(),
                bs == binding_views(self.bindings@),
                binding_ref_views(out@) == bindings_among(bs, subject@, i as int),
            decreases self.bindings@.len() - i,
        {
            let b = &self.bindings[i];
            assert(bs[i as int] == b@);
            if text::same(b.subject.as_str(), subject) {
                let ghost before = binding_ref_views(out@);
                out.push(b);
                assert(binding_ref_views(out@) =~= before.push(b@));
            }
            i = i + 1;
        }
        out
    }

    /// The service descriptor `identifier`.
    pub fn service(&self, identifier: &str) -> (r: Option<&ServiceDescriptor>)
        ensures
            match r {
                Some(x) => self@.services.dom().contains(identifier@) && self@.services[identifier@]
                    == x@,
                None => !self@.services.dom().contains(identifier@),
            },
    {
        self.services.get(identifier)
    }

    /// The services of a class and a jurisdiction, in identifier order.
    pub fn services_filtered(&self, class: Option<ServiceClass>, jurisdiction: Option<&str>) -> (r:
        Vec<&ServiceDescriptor>)
        ensures
            service_descriptor_refs(r@) == services_matching(
                self@,
                class,
                opt_str_view(jurisdiction),
            ),
            table::selection(
                self@.services,
                |s: ServiceView| service_matches(s, class, opt_str_view(jurisdiction)),
                service_descriptor_refs(r@),
            ),
    {
        let ghost m = self@.services;
        let ghost ks = table::listing(m.dom());
        let ghost juris = opt_str_view(jurisdiction);
        let mut out: Vec<&ServiceDescriptor> = Vec::new();
        let n = self.services.len();
        let mut i: usize = 0;
        assert(service_descriptor_refs(out@) =~= Seq::<ServiceView>::empty());
        while i < n
            invariant
                i <= n,
                n == ks.len(),
                m == self.services@,
                ks == table::listing(m.dom()),
                juris == opt_str_view(jurisdiction),
                service_descriptor_refs(out@) == services_among(m, ks, class, juris, i as int),
            decreases n - i,
        {
            let service = self.services.value_at(i);
            if advertises(service, class, jurisdiction) {
                let ghost before = service_descriptor_refs(out@);
                out.push(service);
                assert(service_descriptor_refs(out@) =~= before.push(service@));
            }
            i = i + 1;
        }
        proof {
            services_matching_selects(self@, class, juris);
        }
        out
    }

    /// The protocol binding `identifier`.
    pub fn protocol_binding(&self, identifier: &str) -> (r: Option<&ProtocolBinding>)
        ensures
            match r {
                Some(x) => self@.protocols.dom().contains(identifier@)
                    && self@.protocols[identifier@] == x@,
                None => !self@.protocols.dom().contains(identifier@),
            },
    {
        self.protocols.get(identifier)
    }

    /// All protocol bindings, in identifier order.
    pub fn protocol_bindings_all(&self) -> (r: Vec<&ProtocolBinding>)
        ensures
            protocol_refs(r@) == in_name_order(self@.protocols),
            table::selection(self@.protocols, |p: ProtocolView| true, protocol_refs(r@)),
    {
        let ghost m = self@.protocols;
        let ghost ks = table::listing(m.dom());
        let mut out: Vec<&ProtocolBinding> = Vec::new();
        let n = self.protocols.len();
        let mut i: usize = 0;
        while i < n
            invariant
                i <= n,
                n == ks.len(),
                m == self.protocols@,
                ks == table::listing(m.dom()),
                out@.len() == i,
                forall|j: int| 0 <= j < i ==> (#[trigger] out@[j])@ == m[ks[j]],
            decreases n - i,
        {
            out.push(self.protocols.value_at(i));
            i = i + 1;
        }
        assert(protocol_refs(out@) =~= in_name_order(m));
        proof {
            name_order_selects(m);
        }
        out
    }

    /// The verification mechanism `identifier`.
    pub fn verification_mechanism(&self, identifier: &str) -> (r: Option<&VerificationMechanism>)
        ensures
            match r {
                Some(x) => self@.mechanisms.dom().contains(identifier@)
                    && self@.mechanisms[identifier@] == x@,
                None => !self@.mechanisms.dom().contains(identifier@),
            },
    {
        self.mechanisms.get(identifier)
    }

    /// All verification mechanisms, in identifier order.
    pub fn verification_mechanisms_all(&self) -> (r: Vec<&VerificationMechanism>)
        ensures
            mechanism_refs(r@) == in_name_order(self@.mechanisms),
            table::selection(self@.mechanisms, |m: MechanismView| true, mechanism_refs(r@)),
    {
        let ghost m = self@.mechanisms;
        let ghost ks = table::listing(m.dom());
        let mut out: Vec<&VerificationMechanism> = Vec::new();
        let n = self.mechanisms.len();
        let mut i: usize = 0;
        while i < n
            invariant
                i <= n,
                n == ks.len(),
                m == self.mechanisms@,
                ks == table::listing(m.dom()),
                out@.len() == i,
                forall|j: int| 0 <= j < i ==> (#[trigger] out@[j])@ == m[ks[j]],
            decreases n - i,
        {
            out.push(self.mechanisms.value_at(i));
            i = i + 1;
        }
        assert(mechanism_refs(out@) =~= in_name_order(m));
        proof {
            name_order_selects(m);
        }
        out
    }

    /// Why the registration of an item is refused.
    fn item_conflict(&self, item: &Item) -> (r: Option<StoreError>)
        ensures
            refusal_view(r) == register_refusal(self@, item@),
    {
        if self.item(item.identifier.as_str()).is_none() {
            return None;
        }
        Some(
            StoreError::Conflict(
                text::cat5(
                    "item `",
                    item.identifier.as_str(),
                    "` is already registered; add versions through POST /items/",
                    item.identifier.as_str(),
                    "/versions",
                ),
            ),
        )
    }

    /// Why the registration of a service is refused.
    fn service_conflict(&self, service: &ServiceDescriptor) -> (r: Option<StoreError>)
        ensures
            refusal_view(r) == service_refusal(self@, service@),
    {
        if self.service(service.identifier.as_str()).is_none() {
            return None;
        }
        Some(
            StoreError::Conflict(
                text::cat5(
                    "service `",
                    service.identifier.as_str(),
                    "` is already registered; add versions through POST /services/",
                    service.identifier.as_str(),
                    "/versions",
                ),
            ),
        )
    }

    /// Why the registration of a protocol binding is refused.
    fn protocol_conflict(&self, binding: &ProtocolBinding) -> (r: Option<StoreError>)
        ensures
            refusal_view(r) == protocol_refusal(self@, binding@),
    {
        if self.protocol_binding(binding.identifier.as_str()).is_none() {
            return None;
        }
        Some(
            StoreError::Conflict(
                text::cat3(
                    "protocol binding `",
                    binding.identifier.as_str(),
                    "` is already registered",
                ),
            ),
        )
    }

    /// Why the registration of a verification mechanism is refused.
    fn mechanism_conflict(&self, mechanism: &VerificationMechanism) -> (r: Option<StoreError>)
        ensures
            refusal_view(r) == mechanism_refusal(self@, mechanism@),
    {
        if self.verification_mechanism(mechanism.identifier.as_str()).is_none() {
            return None;
        }
        Some(
            StoreError::Conflict(
                text::cat3(
                    "verification mechanism `",
                    mechanism.identifier.as_str(),
                    "` is already registered",
                ),
            ),
        )
    }

    /// Why a registration is refused; other mutations are not asked here.
    pub fn conflict(&self, op: &Op) -> (r: Option<StoreError>)
        ensures
            refusal_view(r) == conflict_of(self@, op@),
    {
        match op {
            Op::RegisterItem { item } => self.item_conflict(item),
            Op::RegisterService { service } => self.service_conflict(service),
            Op::RegisterProtocolBinding { binding } => self.protocol_conflict(binding),
            Op::RegisterVerificationMechanism { mechanism } => self.mechanism_conflict(mechanism),
            _ => None,
        }
    }

    /// Registers a new item with its first version.
    pub fn register_item(&mut self, item: Item, now: Timestamp) -> (r: Result<AuditRecord, StoreError>)
        ensures
            settles(
                old(self)@,
                final(self)@,
                r,
                register_refusal(old(self)@, item@),
                OpView::RegisterItem { item: item@ },
                now,
            ),
            faithful(old(self)@) ==> faithful(final(self)@),
    {
        if let Some(e) = self.item_conflict(&item) {
            return Err(e);
        }
        Ok(self.record(Op::RegisterItem { item }, now))
    }

    /// Adds `successor` to an item and links `target_version` to it, which
    /// derives the window end of the latter. `manifest`, when given,
    /// replaces the manifest of the item.
    pub fn supersede(
        &mut self,
        identifier: &str,
        target_version: &str,
        successor: ItemVersion,
        manifest: Option<Json>,
        now: Timestamp,
    ) -> (r: Result<AuditRecord, StoreError>)
        ensures
            settles(
                old(self)@,
                final(self)@,
                r,
                supersede_refusal(old(self)@, identifier@, target_version@, successor@),
                supersede_op(
                    old(self)@,
                    identifier@,
                    target_version@,
                    successor@,
                    fields::opt_tree(manifest),
                ),
                now,
            ),
            faithful(old(self)@) ==> faithful(final(self)@),
    {
        let item = match self.items.get(identifier) {
            Some(i) => i,
            None => return Err(
                StoreError::Invalid(text::cat3("no registry item `", identifier, "`")),
            ),
        };
        if item.version(successor.version.as_str()).is_some() {
            return Err(
                StoreError::Conflict(
                    text::cat5(
                        "item `",
                        identifier,
                        "` already has a version `",
                        successor.version.as_str(),
                        "`",
                    ),
                ),
            );
        }
        let target = match item.version(target_version) {
            Some(v) => v,
            None => return Err(
                StoreError::Invalid(
                    text::cat5("item `", identifier, "` has no version `", target_version, "`"),
                ),
            ),
        };
        if target.status != Status::Valid {
            return Err(
                StoreError::Invalid(
                    text::cat7(
                        "version `",
                        target_version,
                        "` of `",
                        identifier,
                        "` is ",
                        target.status.as_str(),
                        " — only the valid version can be superseded",
                    ),
                ),
            );
        }
        if let (Some(new), Some(start)) = (successor.effective_from, target.effective_from) {
            if new.secs < start.secs {
                return Err(starts_early(new, start));
            }
        }
        let prior_status = target.status;
        Ok(
            self.record(
                Op::SupersedeVersion {
                    identifier: identifier.to_owned(),
                    superseded_version: target_version.to_owned(),
                    prior_status,
                    successor,
                    manifest,
                },
                now,
            ),
        )
    }

    /// Adds a dated applicability binding under the next id. The profile
    /// item has to exist and be a profile; a pinned version has to be one
    /// of its versions.
    pub fn bind(&mut self, binding: ApplicabilityBinding, now: Timestamp) -> (r: Result<
        AuditRecord,
        StoreError,
    >)
        ensures
            settles(
                old(self)@,
                final(self)@,
                r,
                bind_refusal(old(self)@, binding@),
                bind_op(old(self)@, binding@),
                now,
            ),
            faithful(old(self)@) ==> faithful(final(self)@),
    {
        let profile = match self.items.get(binding.profile_item.as_str()) {
            Some(i) => i,
            None => return Err(
                StoreError::Invalid(
                    text::cat3(
                        "profile item `",
                        binding.profile_item.as_str(),
                        "` is not registered",
                    ),
                ),
            ),
        };
        if profile.item_class != ItemClass::Profile {
            return Err(
                StoreError::Invalid(
                    text::cat5(
                        "item `",
                        binding.profile_item.as_str(),
                        "` has class `",
                        profile.item_class.as_str(),
                        "`, not `profile`",
                    ),
                ),
            );
        }
        if let Some(pv) = &binding.profile_version {
            if profile.version(pv.as_str()).is_none() {
                return Err(
                    StoreError::Invalid(
                        text::cat5(
                            "item `",
                            binding.profile_item.as_str(),
                            "` has no version `",
                            pv.as_str(),
                            "`",
                        ),
                    ),
                );
            }
        }
        if self.next_binding_id == u64::MAX {
            return Err(StoreError::Invalid("binding ids are exhausted".to_owned()));
        }
        let mut numbered = binding;
        numbered.id = self.next_binding_id;
        Ok(self.record(Op::BindApplicability { binding: numbered }, now))
    }

    /// Registers a service descriptor.
    pub fn register_service(&mut self, service: ServiceDescriptor, now: Timestamp) -> (r: Result<
        AuditRecord,
        StoreError,
    >)
        ensures
            settles(
                old(self)@,
                final(self)@,
                r,
                service_refusal(old(self)@, service@),
                OpView::RegisterService { service: service@ },
                now,
            ),
            faithful(old(self)@) ==> faithful(final(self)@),
    {
        if let Some(e) = self.service_conflict(&service) {
            return Err(e);
        }
        Ok(self.record(Op::RegisterService { service }, now))
    }

    /// Adds `successor` to a service and links `target_version` to it.
    pub fn supersede_service(
        &mut self,
        identifier: &str,
        target_version: &str,
        successor: ServiceVersion,
        now: Timestamp,
    ) -> (r: Result<AuditRecord, StoreError>)
        ensures
            settles(
                old(self)@,
                final(self)@,
                r,
                supersede_service_refusal(old(self)@, identifier@, target_version@, successor@),
                supersede_service_op(old(self)@, identifier@, target_version@, successor@),
                now,
            ),
            faithful(old(self)@) ==> faithful(final(self)@),
    {
        let service = match self.services.get(identifier) {
            Some(s) => s,
            None => return Err(
                StoreError::Invalid(text::cat3("no service descriptor `", identifier, "`")),
            ),
        };
        if service.version(successor.version.as_str()).is_some() {
            return Err(
                StoreError::Conflict(
                    text::cat5(
                        "service `",
                        identifier,
                        "` already has a version `",
                        successor.version.as_str(),
                        "`",
                    ),
                ),
            );
        }
        let target = match service.version(target_version) {
            Some(v) => v,
            None => return Err(
                StoreError::Invalid(
                    text::cat5("service `", identifier, "` has no version `", target_version, "`"),
                ),
            ),
        };
        if target.status != ServiceStatus::Active {
            return Err(
                StoreError::Invalid(
                    text::cat7(
                        "version `",
                        target_version,
                        "` of `",
                        identifier,
                        "` is ",
                        target.status.as_str(),
                        " — only the active version can be superseded",
                    ),
                ),
            );
        }
        if successor.effective_from.secs < target.effective_from.secs {
            return Err(starts_early(successor.effective_from, target.effective_from));
        }
        let prior_status = target.status;
        Ok(
            self.record(
                Op::SupersedeService {
                    identifier: identifier.to_owned(),
                    superseded_version: target_version.to_owned(),
                    prior_status,
                    successor,
                },
                now,
            ),
        )
    }

    /// Registers a protocol binding.
    pub fn register_protocol_binding(&mut self, binding: ProtocolBinding, now: Timestamp) -> (r: Result<
        AuditRecord,
        StoreError,
    >)
        ensures
            settles(
                old(self)@,
                final(self)@,
                r,
                protocol_refusal(old(self)@, binding@),
                OpView::RegisterProtocolBinding { binding: binding@ },
                now,
            ),
            faithful(old(self)@) ==> faithful(final(self)@),
    {
        if let Some(e) = self.protocol_conflict(&binding) {
            return Err(e);
        }
        Ok(self.record(Op::RegisterProtocolBinding { binding }, now))
    }

    /// Registers a verification mechanism.
    pub fn register_verification_mechanism(
        &mut self,
        mechanism: VerificationMechanism,
        now: Timestamp,
    ) -> (r: Result<AuditRecord, StoreError>)
        ensures
            settles(
                old(self)@,
                final(self)@,
                r,
                mechanism_refusal(old(self)@, mechanism@),
                OpView::RegisterVerificationMechanism { mechanism: mechanism@ },
                now,
            ),
            faithful(old(self)@) ==> faithful(final(self)@),
    {
        if let Some(e) = self.mechanism_conflict(&mechanism) {
            return Err(e);
        }
        Ok(self.record(Op::RegisterVerificationMechanism { mechanism }, now))
    }

    /// Records a new validation outcome of a deposited model.
    pub fn update_model_validation(
        &mut self,
        identifier: &str,
        version: &str,
        validation: &ValidationRecord,
        now: Timestamp,
    ) -> (r: Result<AuditRecord, StoreError>)
        ensures
            settles(
                old(self)@,
                final(self)@,
                r,
                validation_refusal(old(self)@, identifier@, version@),
                OpView::UpdateModelValidation {
                    identifier: identifier@,
                    version: version@,
                    validation: validation@,
                },
                now,
            ),
            faithful(old(self)@) ==> faithful(final(self)@),
    {
        let item = match self.items.get(identifier) {
            Some(i) => i,
            None => return Err(
                StoreError::Invalid(text::cat3("no registry item `", identifier, "`")),
            ),
        };
        if item.item_class != ItemClass::Model {
            return Err(
                StoreError::Invalid(
                    text::cat5(
                        "item `",
                        identifier,
                        "` has class `",
                        item.item_class.as_str(),
                        "`, not `model`",
                    ),
                ),
            );
        }
        if item.version(version).is_none() {
            return Err(
                StoreError::Invalid(
                    text::cat5("item `", identifier, "` has no version `", version, "`"),
                ),
            );
        }
        Ok(
            self.record(
                Op::UpdateModelValidation {
                    identifier: identifier.to_owned(),
                    version: version.to_owned(),
                    validation: validation.clone(),
                },
                now,
            ),
        )
    }

    /// A page of the audit log.
    pub fn log_json(&self, limit: usize, offset: usize) -> (r: Json)
        ensures
            r@ == log_tree(self@.log, limit as int, offset as int),
    {
        let n = self.log.len();
        let from: usize = if offset <= n {
            offset
        } else {
            n
        };
        let to: usize = if limit <= n - from {
            from + limit
        } else {
            n
        };
        let mut list: Vec<Json> = Vec::new();
        let mut i: usize = from;
        while i < to
            invariant
                from <= i <= to <= self.log@.len(),
                list@.len() == i - from,
                forall|j: int|
                    0 <= j < list@.len() ==> json::tree(#[trigger] list@[j]) == record_tree(
                        self.log@[from + j]@,
                    ),
            decreases to - i,
        {
            list.push(self.log[i].to_json());
            i = i + 1;
        }
        assert(json::trees(list@) =~= record_trees(
            log_page(self@.log, limit as int, offset as int),
        ));
        let mut m = Object::new();
        m.put_uint("total", n as u64);
        m.put_uint("offset", offset as u64);
        m.put("records", Json::Arr(list));
        Json::Obj(m)
    }

    /// Number of records in the audit log.
    pub fn log_len(&self) -> (r: usize)
        ensures
            r == self@.log.len(),
    {
        self.log.len()
    }
}

impl Default for Store {
    fn default() -> (r: Store)
        ensures
            r@ == no_state(),
    {
        Store::new()
    }
}

/// The content of an optional borrowed text.
pub open spec fn opt_str_view(s: Option<&str>) -> Option<Seq<char>> {
    match s {
        Some(x) => Some(x@),
        None => None,
    }
}

/// Whether the current version of a service advertises the class and the
/// jurisdiction asked for.
fn advertises(s: &ServiceDescriptor, class: Option<ServiceClass>, jurisdiction: Option<&str>) -> (r:
    bool)
    ensures
        r == service_matches(s@, class, opt_str_view(jurisdiction)),
{
    let v = match s.current_version() {
        Some(v) => v,
        None => return class.is_none() && jurisdiction.is_none(),
    };
    if let Some(c) = class {
        let found = match v.body.get_str("class") {
            Some(x) => ServiceClass::parse(x),
            None => None,
        };
        let same = match found {
            Some(x) => x == c,
            None => false,
        };
        if !same {
            return false;
        }
    }
    if let Some(j) = jurisdiction {
        let same = match v.body.get_str("jurisdiction") {
            Some(x) => text::same(x, j),
            None => false,
        };
        if !same {
            return false;
        }
    }
    true
}

/// The error for a window that starts before the superseded one.
fn starts_early(new: Timestamp, old: Timestamp) -> (r: StoreError)
    ensures
        r@ == early_start(new, old),
{
    let a = new.to_string();
    let b = old.to_string();
    StoreError::Invalid(
        text::cat4(
            "`effective_from` ",
            a.as_str(),
            " precedes the superseded version's window start ",
            b.as_str(),
        ),
    )
}

/// Appending a record to a store that its log makes up leaves one that its
/// log makes up.
pub proof fn logged_keeps_faith(s: StoreView, r: RecordView)
    ensures
        faithful(s) ==> faithful(logged(s, r)),
{
    let log = s.log.push(r);
    assert(log.drop_last() =~= s.log);
}
/// The members of a record have different names.
proof fn record_keys_distinct()
    ensures
        "op"@ != "seq"@,
        "op"@ != "recorded_at"@,
        "op"@ != "item"@,
        "op"@ != "identifier"@,
        "op"@ != "superseded_version"@,
        "op"@ != "prior_status"@,
        "op"@ != "successor"@,
        "op"@ != "manifest"@,
        "op"@ != "binding"@,
        "op"@ != "service"@,
        "op"@ != "mechanism"@,
        "op"@ != "version"@,
        "op"@ != "validation"@,
        "seq"@ != "recorded_at"@,
        "seq"@ != "item"@,
        "seq"@ != "identifier"@,
        "seq"@ != "superseded_version"@,
        "seq"@ != "prior_status"@,
        "seq"@ != "successor"@,
        "seq"@ != "manifest"@,
        "seq"@ != "binding"@,
        "seq"@ != "service"@,
        "seq"@ != "mechanism"@,
        "seq"@ != "version"@,
        "seq"@ != "validation"@,
        "recorded_at"@ != "item"@,
        "recorded_at"@ != "identifier"@,
        "recorded_at"@ != "superseded_version"@,
        "recorded_at"@ != "prior_status"@,
        "recorded_at"@ != "successor"@,
        "recorded_at"@ != "manifest"@,
        "recorded_at"@ != "binding"@,
        "recorded_at"@ != "service"@,
        "recorded_at"@ != "mechanism"@,
        "recorded_at"@ != "version"@,
        "recorded_at"@ != "validation"@,
        "item"@ != "identifier"@,
        "item"@ != "superseded_version"@,
        "item"@ != "prior_status"@,
        "item"@ != "successor"@,
        "item"@ != "manifest"@,
        "item"@ != "binding"@,
        "item"@ != "service"@,
        "item"@ != "mechanism"@,
        "item"@ != "version"@,
        "item"@ != "validation"@,
        "identifier"@ != "superseded_version"@,
        "identifier"@ != "prior_status"@,
        "identifier"@ != "successor"@,
        "identifier"@ != "manifest"@,
        "identifier"@ != "binding"@,
        "identifier"@ != "service"@,
        "identifier"@ != "mechanism"@,
        "identifier"@ != "version"@,
        "identifier"@ != "validation"@,
        "superseded_version"@ != "prior_status"@,
        "superseded_version"@ != "successor"@,
        "superseded_version"@ != "manifest"@,
        "superseded_version"@ != "binding"@,
        "superseded_version"@ != "service"@,
        "superseded_version"@ != "mechanism"@,
        "superseded_version"@ != "version"@,
        "superseded_version"@ != "validation"@,
        "prior_status"@ != "successor"@,
        "prior_status"@ != "manifest"@,
        "prior_status"@ != "binding"@,
        "prior_status"@ != "service"@,
        "prior_status"@ != "mechanism"@,
        "prior_status"@ != "version"@,
        "prior_status"@ != "validation"@,
        "successor"@ != "manifest"@,
        "successor"@ != "binding"@,
        "successor"@ != "service"@,
        "successor"@ != "mechanism"@,
        "successor"@ != "version"@,
        "successor"@ != "validation"@,
        "manifest"@ != "binding"@,
        "manifest"@ != "service"@,
        "manifest"@ != "mechanism"@,
        "manifest"@ != "version"@,
        "manifest"@ != "validation"@,
        "binding"@ != "service"@,
        "binding"@ != "mechanism"@,
        "binding"@ != "version"@,
        "binding"@ != "validation"@,
        "service"@ != "mechanism"@,
        "service"@ != "version"@,
        "service"@ != "validation"@,
        "mechanism"@ != "version"@,
        "mechanism"@ != "validation"@,
        "version"@ != "validation"@,
{
    reveal_strlit("op");
    reveal_strlit("seq");
    reveal_strlit("recorded_at");
    reveal_strlit("item");
    reveal_strlit("identifier");
    reveal_strlit("superseded_version");
    reveal_strlit("prior_status");
    reveal_strlit("successor");
    reveal_strlit("manifest");
    reveal_strlit("binding");
    reveal_strlit("service");
    reveal_strlit("mechanism");
    reveal_strlit("version");
    reveal_strlit("validation");
    assert("op"@.len() != "seq"@.len());
    assert("op"@.len() != "recorded_at"@.len());
    assert("op"@.len() != "item"@.len());
    assert("op"@.len() != "identifier"@.len());
    assert("op"@.len() != "superseded_version"@.len());
    assert("op"@.len() != "prior_status"@.len());
    assert("op"@.len() != "successor"@.len());
    assert("op"@.len() != "manifest"@.len());
    assert("op"@.len() != "binding"@.len());
    assert("op"@.len() != "service"@.len());
    assert("op"@.len() != "mechanism"@.len());
    assert("op"@.len() != "version"@.len());
    assert("op"@.len() != "validation"@.len());
    assert("seq"@.len() != "recorded_at"@.len());
    assert("seq"@.len() != "item"@.len());
    assert("seq"@.len() != "identifier"@.len());
    assert("seq"@.len() != "superseded_version"@.len());
    assert("seq"@.len() != "prior_status"@.len());
    assert("seq"@.len() != "successor"@.len());
    assert("seq"@.len() != "manifest"@.len());
    assert("seq"@.len() != "binding"@.len());
    assert("seq"@.len() != "service"@.len());
    assert("seq"@.len() != "mechanism"@.len());
    assert("seq"@.len() != "version"@.len());
    assert("seq"@.len() != "validation"@.len());
    assert("recorded_at"@.len() != "item"@.len());
    assert("recorded_at"@.len() != "identifier"@.len());
    assert("recorded_at"@.len() != "superseded_version"@.len());
    assert("recorded_at"@.len() != "prior_status"@.len());
    assert("recorded_at"@.len() != "successor"@.len());
    assert("recorded_at"@.len() != "manifest"@.len());
    assert("recorded_at"@.len() != "binding"@.len());
    assert("recorded_at"@.len() != "service"@.len());
    assert("recorded_at"@.len() != "mechanism"@.len());
    assert("recorded_at"@.len() != "version"@.len());
    assert("recorded_at"@.len() != "validation"@.len());
    assert("item"@.len() != "identifier"@.len());
    assert("item"@.len() != "superseded_version"@.len());
    assert("item"@.len() != "prior_status"@.len());
    assert("item"@.len() != "successor"@.len());
    assert("item"@.len() != "manifest"@.len());
    assert("item"@.len() != "binding"@.len());
    assert("item"@.len() != "service"@.len());
    assert("item"@.len() != "mechanism"@.len());
    assert("item"@.len() != "version"@.len());
    assert("item"@.len() != "validation"@.len());
    assert("identifier"@.len() != "superseded_version"@.len());
    assert("identifier"@.len() != "prior_status"@.len());
    assert("identifier"@.len() != "successor"@.len());
    assert("identifier"@.len() != "manifest"@.len());
    assert("identifier"@.len() != "binding"@.len());
    assert("identifier"@.len() != "service"@.len());
    assert("identifier"@.len() != "mechanism"@.len());
    assert("identifier"@.len() != "version"@.len());
    assert("identifier"@[0] != "validation"@[0]);
    assert("superseded_version"@.len() != "prior_status"@.len());
    assert("superseded_version"@.len() != "successor"@.len());
    assert("superseded_version"@.len() != "manifest"@.len());
    assert("superseded_version"@.len() != "binding"@.len());
    assert("superseded_version"@.len() != "service"@.len());
    assert("superseded_version"@.len() != "mechanism"@.len());
    assert("superseded_version"@.len() != "version"@.len());
    assert("superseded_version"@.len() != "validation"@.len());
    assert("prior_status"@.len() != "successor"@.len());
    assert("prior_status"@.len() != "manifest"@.len());
    assert("prior_status"@.len() != "binding"@.len());
    assert("prior_status"@.len() != "service"@.len());
    assert("prior_status"@.len() != "mechanism"@.len());
    assert("prior_status"@.len() != "version"@.len());
    assert("prior_status"@.len() != "validation"@.len());
    assert("successor"@.len() != "manifest"@.len());
    assert("successor"@.len() != "binding"@.len());
    assert("successor"@.len() != "service"@.len());
    assert("successor"@[0] != "mechanism"@[0]);
    assert("successor"@.len() != "version"@.len());
    assert("successor"@.len() != "validation"@.len());
    assert("manifest"@.len() != "binding"@.len());
    assert("manifest"@.len() != "service"@.len());
    assert("manifest"@.len() != "mechanism"@.len());
    assert("manifest"@.len() != "version"@.len());
    assert("manifest"@.len() != "validation"@.len());
    assert("binding"@[0] != "service"@[0]);
    assert("binding"@.len() != "mechanism"@.len());
    assert("binding"@[0] != "version"@[0]);
    assert("binding"@.len() != "validation"@.len());
    assert("service"@.len() != "mechanism"@.len());
    assert("service"@[0] != "version"@[0]);
    assert("service"@.len() != "validation"@.len());
    assert("mechanism"@.len() != "version"@.len());
    assert("mechanism"@.len() != "validation"@.len());
    assert("version"@.len() != "validation"@.len());
}

/// The mutations have different names.
proof fn op_names_distinct()
    ensures
        "register-item"@ != "supersede-version"@,
        "register-item"@ != "bind-applicability"@,
        "register-item"@ != "register-service"@,
        "register-item"@ != "supersede-service"@,
        "register-item"@ != "register-protocol-binding"@,
        "register-item"@ != "register-verification-mechanism"@,
        "register-item"@ != "update-model-validation"@,
        "supersede-version"@ != "bind-applicability"@,
        "supersede-version"@ != "register-service"@,
        "supersede-version"@ != "supersede-service"@,
        "supersede-version"@ != "register-protocol-binding"@,
        "supersede-version"@ != "register-verification-mechanism"@,
        "supersede-version"@ != "update-model-validation"@,
        "bind-applicability"@ != "register-service"@,
        "bind-applicability"@ != "supersede-service"@,
        "bind-applicability"@ != "register-protocol-binding"@,
        "bind-applicability"@ != "register-verification-mechanism"@,
        "bind-applicability"@ != "update-model-validation"@,
        "register-service"@ != "supersede-service"@,
        "register-service"@ != "register-protocol-binding"@,
        "register-service"@ != "register-verification-mechanism"@,
        "register-service"@ != "update-model-validation"@,
        "supersede-service"@ != "register-protocol-binding"@,
        "supersede-service"@ != "register-verification-mechanism"@,
        "supersede-service"@ != "update-model-validation"@,
        "register-protocol-binding"@ != "register-verification-mechanism"@,
        "register-protocol-binding"@ != "update-model-validation"@,
        "register-verification-mechanism"@ != "update-model-validation"@,
{
    reveal_strlit("register-item");
    reveal_strlit("supersede-version");
    reveal_strlit("bind-applicability");
    reveal_strlit("register-service");
    reveal_strlit("supersede-service");
    reveal_strlit("register-protocol-binding");
    reveal_strlit("register-verification-mechanism");
    reveal_strlit("update-model-validation");
    assert("register-item"@.len() != "supersede-version"@.len());
    assert("register-item"@.len() != "bind-applicability"@.len());
    assert("register-item"@.len() != "register-service"@.len());
    assert("register-item"@.len() != "supersede-service"@.len());
    assert("register-item"@.len() != "register-protocol-binding"@.len());
    assert("register-item"@.len() != "register-verification-mechanism"@.len());
    assert("register-item"@.len() != "update-model-validation"@.len());
    assert("supersede-version"@.len() != "bind-applicability"@.len());
    assert("supersede-version"@.len() != "register-service"@.len());
    assert("supersede-version"@[10] != "supersede-service"@[10]);
    assert("supersede-version"@.len() != "register-protocol-binding"@.len());
    assert("supersede-version"@.len() != "register-verification-mechanism"@.len());
    assert("supersede-version"@.len() != "update-model-validation"@.len());
    assert("bind-applicability"@.len() != "register-service"@.len());
    assert("bind-applicability"@.len() != "supersede-service"@.len());
    assert("bind-applicability"@.len() != "register-protocol-binding"@.len());
    assert("bind-applicability"@.len() != "register-verification-mechanism"@.len());
    assert("bind-applicability"@.len() != "update-model-validation"@.len());
    assert("register-service"@.len() != "supersede-service"@.len());
    assert("register-service"@.len() != "register-protocol-binding"@.len());
    assert("register-service"@.len() != "register-verification-mechanism"@.len());
    assert("register-service"@.len() != "update-model-validation"@.len());
    assert("supersede-service"@.len() != "register-protocol-binding"@.len());
    assert("supersede-service"@.len() != "register-verification-mechanism"@.len());
    assert("supersede-service"@.len() != "update-model-validation"@.len());
    assert("register-protocol-binding"@.len() != "register-verification-mechanism"@.len());
    assert("register-protocol-binding"@.len() != "update-model-validation"@.len());
    assert("register-verification-mechanism"@.len() != "update-model-validation"@.len());
}

/// Whether a mutation can be journaled and read back.
pub open spec fn op_ok(op: OpView) -> bool {
    match op {
        OpView::RegisterItem { item } => model::item_ok(item),
        OpView::SupersedeVersion { successor, manifest, .. } => model::version_ok(successor)
            && manifest != Some(Tree::Null),
        OpView::BindApplicability { binding } => model::binding_ok(binding) && binding.id
            < u64::MAX,
        OpView::RegisterService { service } => forall|k: int|
            0 <= k < service.versions.len() ==> discovery::service_version_ok(
                #[trigger] service.versions[k],
            ),
        OpView::SupersedeService { successor, .. } => discovery::service_version_ok(successor),
        OpView::RegisterProtocolBinding { binding } => discovery::protocol_ok(binding),
        OpView::RegisterVerificationMechanism { mechanism } => discovery::mechanism_ok(mechanism),
        OpView::UpdateModelValidation { .. } => true,
    }
}

/// A mutation as it is read back: the versions in order, the bodies
/// settled.
pub open spec fn settled_op(op: OpView) -> OpView {
    match op {
        OpView::RegisterItem { item } => OpView::RegisterItem {
            item: ItemView { versions: model::ordered(item.versions), ..item },
        },
        OpView::RegisterService { service } => OpView::RegisterService {
            service: ServiceView {
                versions: discovery::service_ordered(service.versions),
                ..service
            },
        },
        OpView::RegisterProtocolBinding { binding } => OpView::RegisterProtocolBinding {
            binding: discovery::settled_protocol(binding),
        },
        OpView::RegisterVerificationMechanism { mechanism } => OpView::RegisterVerificationMechanism {
            mechanism: discovery::settled_mechanism(mechanism),
        },
        other => other,
    }
}

/// A record as it is read back.
pub open spec fn settled_record(r: RecordView) -> RecordView {
    RecordView { op: settled_op(r.op), ..r }
}

/// A log as it is read back.
pub open spec fn settled_log(log: Seq<RecordView>) -> Seq<RecordView> {
    log.map_values(|r: RecordView| settled_record(r))
}

/// Whether a record can be journaled and read back: it can be stored, and
/// its line denotes its wire form.
pub open spec fn record_ok(r: RecordView) -> bool {
    &&& time::four_digit_year(r.recorded_at.secs as int)
    &&& op_ok(r.op)
    &&& bridge::json_read(journal_line(r)) == bridge::denotes(record_tree(r))
}

/// Whether a record can be stored and is plain: it holds no numbers but
/// integers, nests no deeper than a reader goes and has no member of the
/// name by which `serde_json` marks raw JSON. Such a record can be journaled
/// and read back.
pub open spec fn record_plain(r: RecordView) -> bool {
    &&& time::four_digit_year(r.recorded_at.secs as int)
    &&& op_ok(r.op)
    &&& bridge::plain(record_tree(r), bridge::max_nesting())
}

/// The members of a record: those of its mutation, and two of its own.
proof fn record_members(r: RecordView, key: Seq<char>)
    requires
        key != "seq"@,
        key != "recorded_at"@,
    ensures
        json::member(record_tree(r)->Obj_0, key) == json::member(op_members(r.op), key),
        json::member(record_tree(r)->Obj_0, "seq"@) == Some(Tree::Int(r.seq as int)),
        json::member(record_tree(r)->Obj_0, "recorded_at"@) == Some(
            discovery::stamp(r.recorded_at),
        ),
{
    broadcast use json::group_members;
    record_keys_distinct();
}

/// The members of a supersession.
proof fn supersede_members(
    m: Map<Seq<char>, Tree>,
    name: Seq<char>,
    identifier: Seq<char>,
    old: Seq<char>,
    prior: Seq<char>,
    successor: Tree,
    manifest: Option<Tree>,
)
    requires
        m == json::put_opt(
            Map::<Seq<char>, Tree>::empty().insert("op"@, Tree::Str(name)).insert(
                "identifier"@,
                Tree::Str(identifier),
            ).insert("superseded_version"@, Tree::Str(old)).insert(
                "prior_status"@,
                Tree::Str(prior),
            ).insert("successor"@, successor),
            "manifest"@,
            manifest,
        ),
    ensures
        json::member(m, "op"@) == Some(Tree::Str(name)),
        json::member(m, "identifier"@) == Some(Tree::Str(identifier)),
        json::member(m, "superseded_version"@) == Some(Tree::Str(old)),
        json::member(m, "prior_status"@) == Some(Tree::Str(prior)),
        json::member(m, "successor"@) == Some(successor),
        json::member(m, "manifest"@) == manifest,
{
    broadcast use json::group_members;
    record_keys_distinct();
}

/// The members of a mutation that carries one payload.
proof fn payload_members(m: Map<Seq<char>, Tree>, name: Seq<char>, key: Seq<char>, payload: Tree)
    requires
        key != "op"@,
        m == Map::<Seq<char>, Tree>::empty().insert("op"@, Tree::Str(name)).insert(key, payload),
    ensures
        json::member(m, "op"@) == Some(Tree::Str(name)),
        json::member(m, key) == Some(payload),
{
    broadcast use json::group_members;
}

/// The members of a validation update.
proof fn update_members(
    m: Map<Seq<char>, Tree>,
    name: Seq<char>,
    identifier: Seq<char>,
    version: Seq<char>,
    validation: Tree,
)
    requires
        m == Map::<Seq<char>, Tree>::empty().insert("op"@, Tree::Str(name)).insert(
            "identifier"@,
            Tree::Str(identifier),
        ).insert("version"@, Tree::Str(version)).insert("validation"@, validation),
    ensures
        json::member(m, "op"@) == Some(Tree::Str(name)),
        json::member(m, "identifier"@) == Some(Tree::Str(identifier)),
        json::member(m, "version"@) == Some(Tree::Str(version)),
        json::member(m, "validation"@) == Some(validation),
{
    broadcast use json::group_members;
    record_keys_distinct();
}

/// What the mutation of a kind is parsed by.
spec fn parsed_kind(op: OpView, m: Map<Seq<char>, Tree>) -> Result<OpView, Seq<char>> {
    match op {
        OpView::RegisterItem { .. } => parsed_register_item(m),
        OpView::SupersedeVersion { .. } => parsed_supersede_version(m),
        OpView::BindApplicability { .. } => parsed_bind(m),
        OpView::RegisterService { .. } => parsed_register_service(m),
        OpView::SupersedeService { .. } => parsed_supersede_service(m),
        OpView::RegisterProtocolBinding { .. } => parsed_register_protocol(m),
        OpView::RegisterVerificationMechanism { .. } => parsed_register_mechanism(m),
        OpView::UpdateModelValidation { .. } => parsed_update(m),
    }
}

/// The name of a mutation tells how it is parsed.
proof fn name_decides(op: OpView, m: Map<Seq<char>, Tree>)
    requires
        json::member(m, "op"@) == Some(Tree::Str(op_name(op))),
    ensures
        parsed_op(m) == parsed_kind(op, m),
{
    reveal(parsed_op);
    op_names_distinct();
    assert(needed_text(m, "op"@) == Ok::<Seq<char>, Seq<char>>(op_name(op)));
}

/// Whether `m` holds the members of a mutation, and perhaps two of its
/// record.
spec fn carries(m: Map<Seq<char>, Tree>, op: OpView) -> bool {
    forall|key: Seq<char>|
        key != "seq"@ && key != "recorded_at"@ ==> #[trigger] json::member(m, key) == json::member(
            op_members(op),
            key,
        )
}

proof fn item_read(m: Map<Seq<char>, Tree>, t: Tree, item: ItemView)
    requires
        json::member(m, "item"@) == Some(t),
        model::parsed_item(t) == Ok::<ItemView, Seq<char>>(item),
    ensures
        parsed_register_item(m) == Ok::<OpView, Seq<char>>(OpView::RegisterItem { item }),
{
    reveal(parsed_register_item);
}

/// An item registration is read back.
proof fn item_reads_back(item: ItemView, m: Map<Seq<char>, Tree>)
    requires
        op_ok(OpView::RegisterItem { item }),
        carries(m, OpView::RegisterItem { item }),
    ensures
        parsed_op(m) == Ok::<OpView, Seq<char>>(settled_op(OpView::RegisterItem { item })),
{
    let op = OpView::RegisterItem { item };
    record_keys_distinct();
    payload_members(op_members(op), op_name(op), "item"@, model::item_tree(item));
    name_decides(op, m);
    model::item_wire_round_trip(item);
    item_read(m, model::item_tree(item), settled_op(op)->RegisterItem_item);
}

proof fn binding_read(m: Map<Seq<char>, Tree>, t: Tree, binding: BindingView)
    requires
        json::member(m, "binding"@) == Some(t),
        model::parsed_binding(t) == Ok::<BindingView, Seq<char>>(binding),
    ensures
        parsed_bind(m) == Ok::<OpView, Seq<char>>(OpView::BindApplicability { binding }),
{
    reveal(parsed_bind);
}

/// A binding is read back.
proof fn binding_reads_back(binding: BindingView, m: Map<Seq<char>, Tree>)
    requires
        op_ok(OpView::BindApplicability { binding }),
        carries(m, OpView::BindApplicability { binding }),
    ensures
        parsed_op(m) == Ok::<OpView, Seq<char>>(settled_op(OpView::BindApplicability { binding })),
{
    let op = OpView::BindApplicability { binding };
    record_keys_distinct();
    payload_members(op_members(op), op_name(op), "binding"@, model::binding_tree(binding));
    name_decides(op, m);
    model::binding_wire_round_trip(binding);
    binding_read(m, model::binding_tree(binding), settled_op(op)->BindApplicability_binding);
}

proof fn service_read(m: Map<Seq<char>, Tree>, t: Tree, service: ServiceView)
    requires
        json::member(m, "service"@) == Some(t),
        discovery::parsed_service(t) == Ok::<ServiceView, Seq<char>>(service),
    ensures
        parsed_register_service(m) == Ok::<OpView, Seq<char>>(OpView::RegisterService { service }),
{
    reveal(parsed_register_service);
}

/// A service registration is read back.
proof fn service_reads_back(service: ServiceView, m: Map<Seq<char>, Tree>)
    requires
        op_ok(OpView::RegisterService { service }),
        carries(m, OpView::RegisterService { service }),
    ensures
        parsed_op(m) == Ok::<OpView, Seq<char>>(settled_op(OpView::RegisterService { service })),
{
    let op = OpView::RegisterService { service };
    record_keys_distinct();
    payload_members(op_members(op), op_name(op), "service"@, discovery::service_stored(service));
    name_decides(op, m);
    discovery::service_wire_round_trip(service);
    service_read(m, discovery::service_stored(service), settled_op(op)->RegisterService_service);
}

proof fn protocol_read(m: Map<Seq<char>, Tree>, t: Tree, binding: ProtocolView)
    requires
        json::member(m, "binding"@) == Some(t),
        discovery::parsed_protocol(t) == Ok::<ProtocolView, Seq<char>>(binding),
    ensures
        parsed_register_protocol(m) == Ok::<OpView, Seq<char>>(OpView::RegisterProtocolBinding { binding }),
{
    reveal(parsed_register_protocol);
}

/// A protocol registration is read back.
proof fn protocol_reads_back(binding: ProtocolView, m: Map<Seq<char>, Tree>)
    requires
        op_ok(OpView::RegisterProtocolBinding { binding }),
        carries(m, OpView::RegisterProtocolBinding { binding }),
    ensures
        parsed_op(m) == Ok::<OpView, Seq<char>>(settled_op(OpView::RegisterProtocolBinding { binding })),
{
    let op = OpView::RegisterProtocolBinding { binding };
    record_keys_distinct();
    payload_members(op_members(op), op_name(op), "binding"@, discovery::protocol_tree(binding));
    name_decides(op, m);
    discovery::protocol_wire_round_trip(binding);
    protocol_read(m, discovery::protocol_tree(binding), settled_op(op)->RegisterProtocolBinding_binding);
}

proof fn mechanism_read(m: Map<Seq<char>, Tree>, t: Tree, mechanism: MechanismView)
    requires
        json::member(m, "mechanism"@) == Some(t),
        discovery::parsed_mechanism(t) == Ok::<MechanismView, Seq<char>>(mechanism),
    ensures
        parsed_register_mechanism(m) == Ok::<OpView, Seq<char>>(OpView::RegisterVerificationMechanism { mechanism }),
{
    reveal(parsed_register_mechanism);
}

/// A mechanism registration is read back.
proof fn mechanism_reads_back(mechanism: MechanismView, m: Map<Seq<char>, Tree>)
    requires
        op_ok(OpView::RegisterVerificationMechanism { mechanism }),
        carries(m, OpView::RegisterVerificationMechanism { mechanism }),
    ensures
        parsed_op(m) == Ok::<OpView, Seq<char>>(settled_op(OpView::RegisterVerificationMechanism { mechanism })),
{
    let op = OpView::RegisterVerificationMechanism { mechanism };
    record_keys_distinct();
    payload_members(op_members(op), op_name(op), "mechanism"@, discovery::mechanism_tree(mechanism));
    name_decides(op, m);
    discovery::mechanism_wire_round_trip(mechanism);
    mechanism_read(m, discovery::mechanism_tree(mechanism), settled_op(op)->RegisterVerificationMechanism_mechanism);
}

proof fn version_read(
    m: Map<Seq<char>, Tree>,
    t: Tree,
    identifier: Seq<char>,
    superseded_version: Seq<char>,
    prior_status: Status,
    successor: VersionView,
    manifest: Option<Tree>,
)
    requires
        json::member(m, "identifier"@) == Some(Tree::Str(identifier)),
        json::member(m, "superseded_version"@) == Some(Tree::Str(superseded_version)),
        json::member(m, "prior_status"@) == Some(Tree::Str(model::status_name(prior_status))),
        json::member(m, "successor"@) == Some(t),
        json::member(m, "manifest"@) == manifest,
        manifest != Some(Tree::Null),
        model::parsed_version(t) == Ok::<VersionView, Seq<char>>(successor),
    ensures
        parsed_supersede_version(m) == Ok::<OpView, Seq<char>>(
            OpView::SupersedeVersion {
                identifier,
                superseded_version,
                prior_status,
                successor,
                manifest,
            },
        ),
{
    reveal(parsed_supersede_version);
    model::status_round_trip(prior_status);
}

/// A supersession is read back.
proof fn version_reads_back(
    identifier: Seq<char>,
    superseded_version: Seq<char>,
    prior_status: Status,
    successor: VersionView,
    manifest: Option<Tree>,
    m: Map<Seq<char>, Tree>,
)
    requires
        model::version_ok(successor),
        manifest != Some(Tree::Null),
        carries(
            m,
            OpView::SupersedeVersion {
                identifier,
                superseded_version,
                prior_status,
                successor,
                manifest,
            },
        ),
    ensures
        parsed_op(m) == Ok::<OpView, Seq<char>>(
            OpView::SupersedeVersion {
                identifier,
                superseded_version,
                prior_status,
                successor,
                manifest,
            },
        ),
{
    let op = OpView::SupersedeVersion {
        identifier,
        superseded_version,
        prior_status,
        successor,
        manifest,
    };
    let t = model::version_tree(successor, None);
    record_keys_distinct();
    supersede_members(
        op_members(op),
        op_name(op),
        identifier,
        superseded_version,
        model::status_name(prior_status),
        t,
        manifest,
    );
    name_decides(op, m);
    model::version_wire_round_trip(successor, None);
    version_read(m, t, identifier, superseded_version, prior_status, successor, manifest);
}

proof fn service_version_read(
    m: Map<Seq<char>, Tree>,
    t: Tree,
    identifier: Seq<char>,
    superseded_version: Seq<char>,
    prior_status: ServiceStatus,
    successor: ServiceVersionView,
)
    requires
        json::member(m, "identifier"@) == Some(Tree::Str(identifier)),
        json::member(m, "superseded_version"@) == Some(Tree::Str(superseded_version)),
        json::member(m, "prior_status"@) == Some(
            Tree::Str(discovery::service_status_name(prior_status)),
        ),
        json::member(m, "successor"@) == Some(t),
        discovery::parsed_service_version(t) == Ok::<ServiceVersionView, Seq<char>>(successor),
    ensures
        parsed_supersede_service(m) == Ok::<OpView, Seq<char>>(
            OpView::SupersedeService { identifier, superseded_version, prior_status, successor },
        ),
{
    reveal(parsed_supersede_service);
    discovery::service_status_round_trip(prior_status);
}

/// A supersession of a service is read back.
proof fn service_version_reads_back(
    identifier: Seq<char>,
    superseded_version: Seq<char>,
    prior_status: ServiceStatus,
    successor: ServiceVersionView,
    m: Map<Seq<char>, Tree>,
)
    requires
        discovery::service_version_ok(successor),
        carries(
            m,
            OpView::SupersedeService { identifier, superseded_version, prior_status, successor },
        ),
    ensures
        parsed_op(m) == Ok::<OpView, Seq<char>>(
            OpView::SupersedeService { identifier, superseded_version, prior_status, successor },
        ),
{
    let op = OpView::SupersedeService { identifier, superseded_version, prior_status, successor };
    let t = discovery::service_version_tree(successor, None);
    record_keys_distinct();
    supersede_members(
        op_members(op),
        op_name(op),
        identifier,
        superseded_version,
        discovery::service_status_name(prior_status),
        t,
        None,
    );
    name_decides(op, m);
    discovery::service_version_wire_round_trip(successor, None);
    service_version_read(m, t, identifier, superseded_version, prior_status, successor);
}

/// A validation update is read back.
proof fn update_reads_back(
    identifier: Seq<char>,
    version: Seq<char>,
    validation: ValidationView,
    m: Map<Seq<char>, Tree>,
)
    requires
        carries(m, OpView::UpdateModelValidation { identifier, version, validation }),
    ensures
        parsed_op(m) == Ok::<OpView, Seq<char>>(
            OpView::UpdateModelValidation { identifier, version, validation },
        ),
{
    let op = OpView::UpdateModelValidation { identifier, version, validation };
    reveal(parsed_update);
    record_keys_distinct();
    update_members(
        op_members(op),
        op_name(op),
        identifier,
        version,
        express::validation_tree(validation),
    );
    name_decides(op, m);
    express::validation_wire_round_trip(validation);
}

/// A mutation is read back.
proof fn op_reads_back(op: OpView, m: Map<Seq<char>, Tree>)
    requires
        op_ok(op),
        carries(m, op),
    ensures
        parsed_op(m) == Ok::<OpView, Seq<char>>(settled_op(op)),
{
    match op {
        OpView::RegisterItem { item } => item_reads_back(item, m),
        OpView::SupersedeVersion {
            identifier,
            superseded_version,
            prior_status,
            successor,
            manifest,
        } => version_reads_back(
            identifier,
            superseded_version,
            prior_status,
            successor,
            manifest,
            m,
        ),
        OpView::BindApplicability { binding } => binding_reads_back(binding, m),
        OpView::RegisterService { service } => service_reads_back(service, m),
        OpView::SupersedeService {
            identifier,
            superseded_version,
            prior_status,
            successor,
        } => service_version_reads_back(identifier, superseded_version, prior_status, successor, m),
        OpView::RegisterProtocolBinding { binding } => protocol_reads_back(binding, m),
        OpView::RegisterVerificationMechanism { mechanism } => mechanism_reads_back(mechanism, m),
        OpView::UpdateModelValidation { identifier, version, validation } => update_reads_back(
            identifier,
            version,
            validation,
            m,
        ),
    }
}

/// The wire form of a record is read back as that record, settled.
pub proof fn record_wire_round_trip(r: RecordView)
    requires
        time::four_digit_year(r.recorded_at.secs as int),
        op_ok(r.op),
    ensures
        parsed_record(record_tree(r)) == Ok::<RecordView, Seq<char>>(settled_record(r)),
        admissible(settled_record(r).op),
{
    record_keys_distinct();
    let t = record_tree(r);
    let m = t->Obj_0;
    assert forall|key: Seq<char>| key != "seq"@ && key != "recorded_at"@ implies #[trigger]
        json::member(m, key) == json::member(op_members(r.op), key) by {
        record_members(r, key);
    }
    record_members(r, "op"@);
    op_reads_back(r.op, m);
    record_from_members(t, m, r.seq, r.recorded_at, settled_op(r.op));
}

/// An object with the members of a record parses to it.
proof fn record_from_members(
    t: Tree,
    m: Map<Seq<char>, Tree>,
    seq: u64,
    at: Timestamp,
    op: OpView,
)
    requires
        t == Tree::Obj(m),
        json::member(m, "seq"@) == Some(Tree::Int(seq as int)),
        json::member(m, "recorded_at"@) == Some(discovery::stamp(at)),
        time::four_digit_year(at.secs as int),
        parsed_op(m) == Ok::<OpView, Seq<char>>(op),
    ensures
        parsed_record(t) == Ok::<RecordView, Seq<char>>(RecordView { seq, recorded_at: at, op }),
{
    time::stamp_round_trip(at.secs as int);
}

/// A text that denotes the wire form of a record is a journal line that
/// holds it.
proof fn line_holds(line: Seq<char>, r: RecordView)
    requires
        record_ok(r),
        bridge::braced(line),
        bridge::json_read(line) == bridge::denotes(record_tree(r)),
    ensures
        line_record(line) == Some(Ok::<RecordView, Seq<char>>(settled_record(r))),
{
    record_wire_round_trip(r);
    text::trimmed_tight(line);
}

/// What lines that read back say together.
proof fn lines_read_back(lines: Seq<Seq<char>>, log: Seq<RecordView>)
    requires
        lines.len() == log.len(),
        forall|j: int| 0 <= j < log.len() ==> reads_back(lines[j], #[trigger] log[j]),
    ensures
        forall|j: int| 0 <= j < lines.len() ==> journal::can_be_line(#[trigger] lines[j]),
        log_plain(log) ==> log_ok(log),
        log_ok(log) ==> forall|j: int|
            0 <= j < log.len() ==> line_record(#[trigger] lines[j]) == Some(
                Ok::<RecordView, Seq<char>>(settled_record(log[j])),
            ),
{
    reveal(reads_back);
    assert forall|j: int| 0 <= j < lines.len() implies journal::can_be_line(#[trigger] lines[j]) by {
        assert(reads_back(lines[j], log[j]));
    }
    if log_plain(log) {
        assert forall|j: int| 0 <= j < log.len() implies record_ok(#[trigger] log[j]) by {
            assert(record_plain(log[j]) && reads_back(lines[j], log[j]));
        }
    }
    if log_ok(log) {
        assert forall|j: int| 0 <= j < log.len() implies line_record(#[trigger] lines[j]) == Some(
            Ok::<RecordView, Seq<char>>(settled_record(log[j])),
        ) by {
            assert(record_ok(log[j]) && reads_back(lines[j], log[j]));
        }
    }
}

/// The lines before others are replayed as without them.
proof fn replayed_before(s: StoreView, lines: Seq<Seq<char>>, more: Seq<Seq<char>>, n: int)
    requires
        0 <= n <= lines.len(),
    ensures
        replayed(s, lines + more, n) == replayed(s, lines, n),
    decreases n,
{
    if n > 0 {
        replayed_before(s, lines, more, n - 1);
        assert((lines + more)[n - 1] == lines[n - 1]);
    }
}

/// Lines that hold the settled records of a log are replayed on top of
/// whatever stands before them, and nothing is reported of them.
proof fn journal_follows(s: StoreView, lines: Seq<Seq<char>>, new: Seq<Seq<char>>, log: Seq<RecordView>, n: int)
    requires
        new.len() == log.len(),
        0 <= n <= log.len(),
        forall|j: int|
            0 <= j < log.len() ==> line_record(#[trigger] new[j]) == Some(
                Ok::<RecordView, Seq<char>>(settled_record(log[j])),
            ),
    ensures
        replayed(s, lines + new, lines.len() + n) == (
            followed(replayed(s, lines, lines.len() as int).0, settled_log(log).take(n)),
            replayed(s, lines, lines.len() as int).1,
        ),
    decreases n,
{
    let all = settled_log(log);
    if n > 0 {
        journal_follows(s, lines, new, log, n - 1);
        assert((lines + new)[lines.len() + n - 1] == new[n - 1]);
        assert(line_record(new[n - 1]) == Some(
            Ok::<RecordView, Seq<char>>(settled_record(log[n - 1])),
        ));
        assert(all.take(n).drop_last() =~= all.take(n - 1));
        assert(all.take(n).last() == settled_record(log[n - 1]));
    } else {
        replayed_before(s, lines, new, lines.len() as int);
        assert(all.take(0) =~= Seq::<RecordView>::empty());
    }
}

/// Records that follow nothing make up what their log does.
proof fn followed_from_nothing(log: Seq<RecordView>)
    ensures
        followed(no_state(), log) == rebuilt(log),
    decreases log.len(),
{
    if log.len() > 0 {
        followed_from_nothing(log.drop_last());
    }
}

/// A torn line costs only itself: it is reported under its number and
/// leaves the state as it was, and a line that holds a record is replayed
/// behind it.
pub proof fn torn_line_costs_only_itself(
    s: StoreView,
    lines: Seq<Seq<char>>,
    torn: Seq<char>,
    line: Seq<char>,
)
    ensures
        line_record(torn) matches Some(Err(e)) ==> ({
            let (state, faults) = replayed(s, lines, lines.len() as int);
            let report = "journal line "@ + text::decimal(lines.len() + 1) + ": "@ + e;
            &&& replayed(s, lines.push(torn), lines.len() + 1int) == (state, faults.push(report))
            &&& line_record(line) matches Some(Ok(r)) ==> replayed(
                s,
                lines.push(torn).push(line),
                lines.len() + 2int,
            ) == (logged(state, r), faults.push(report))
        }),
{
    let first = lines.push(torn);
    let both = first.push(line);
    assert(first =~= lines + seq![torn]);
    assert(both =~= first + seq![line]);
    replayed_before(s, lines, seq![torn], lines.len() as int);
    replayed_before(s, first, seq![line], first.len() as int);
    assert(first[lines.len() as int] == torn);
    assert(both[first.len() as int] == line);
}

/// A registration that is replayed last leaves its item registered, as it
/// was when its versions came in order.
pub proof fn replayed_registration_is_found(s: StoreView, r: RecordView)
    ensures
        r.op matches OpView::RegisterItem { item } ==> ({
            let after = followed(s, settled_log(seq![r]));
            &&& after.items.dom().contains(item.identifier)
            &&& settled_op(r.op) == r.op ==> after.items[item.identifier] == item
        }),
{
    let log = settled_log(seq![r]);
    assert(log =~= seq![settled_record(r)]);
    assert(log.drop_last() =~= Seq::<RecordView>::empty());
    assert(followed(s, log.drop_last()) == s);
}

/// Whether a log is read back as it was written: every item and service was
/// registered with its versions in order, and every body is settled.
pub open spec fn tidy(log: Seq<RecordView>) -> bool {
    forall|j: int| 0 <= j < log.len() ==> settled_op((#[trigger] log[j]).op) == log[j].op
}

/// Records of registrations with one version, of supersessions and of
/// applicability bindings are read back as they were written.
pub proof fn ordinary_records_are_tidy(op: OpView)
    requires
        op matches OpView::RegisterItem { item } ==> item.versions.len() == 1,
        op matches OpView::RegisterService { service } ==> service.versions.len() == 1,
        !(op is RegisterProtocolBinding) && !(op is RegisterVerificationMechanism),
    ensures
        settled_op(op) == op,
{
    match op {
        OpView::RegisterItem { item } => {
            model::ordered_holds(item.versions);
            let o = model::ordered(item.versions);
            assert(item.versions.contains(o[0]));
            assert(o =~= item.versions);
        },
        OpView::RegisterService { service } => {
            discovery::service_ordered_holds(service.versions);
            let o = discovery::service_ordered(service.versions);
            assert(service.versions.contains(o[0]));
            assert(o =~= service.versions);
        },
        _ => {},
    }
}

/// A tidy log is what it settles to.
pub proof fn tidy_log_is_settled(log: Seq<RecordView>)
    requires
        tidy(log),
    ensures
        settled_log(log) == log,
{
    assert(settled_log(log) =~= log);
}

/// A new validation outcome is what is then read of a deposit; its source
/// and its content hash stay.
pub proof fn revalidation_is_read_back(manifest: Tree, validation: ValidationView)
    requires
        express::parsed_deposit(manifest) is Ok,
    ensures
        express::parsed_deposit(revalidated(manifest, validation)) == Ok::<
            express::DepositView,
            Seq<char>,
        >(express::DepositView { validation, ..express::parsed_deposit(manifest)->Ok_0 }),
{
    broadcast use json::group_members;
    let x = json::lookup(manifest, "express"@)->Some_0;
    let inner = x->Obj_0.insert("validation"@, express::validation_tree(validation));
    assert(json::lookup(revalidated(manifest, validation), "express"@) == Some(Tree::Obj(inner)));
    assert("validation"@ != "source"@ && "validation"@ != "content_hash"@) by {
        reveal_strlit("validation");
        reveal_strlit("source");
        reveal_strlit("content_hash");
        assert("validation"@.len() != "source"@.len());
        assert("validation"@.len() != "content_hash"@.len());
    }
    assert(json::member(inner, "source"@) == json::member(x->Obj_0, "source"@));
    assert(json::member(inner, "content_hash"@) == json::member(x->Obj_0, "content_hash"@));
    assert(json::member(inner, "validation"@) == Some(express::validation_tree(validation)));
    express::validation_wire_round_trip(validation);
}

/// Every entry of a state that a log makes up is kept under its own
/// identifier, so that identifiers are unique.
pub open spec fn keyed(s: StoreView) -> bool {
    &&& forall|k: Seq<char>| #[trigger] s.items.dom().contains(k) ==> s.items[k].identifier == k
    &&& forall|k: Seq<char>| #[trigger]
        s.services.dom().contains(k) ==> s.services[k].identifier == k
    &&& forall|k: Seq<char>| #[trigger]
        s.protocols.dom().contains(k) ==> s.protocols[k].identifier == k
    &&& forall|k: Seq<char>| #[trigger]
        s.mechanisms.dom().contains(k) ==> s.mechanisms[k].identifier == k
}

/// The state that a log makes up keeps every entry under its own
/// identifier.
pub proof fn rebuilt_is_keyed(log: Seq<RecordView>)
    ensures
        keyed(rebuilt(log)),
    decreases log.len(),
{
    if log.len() > 0 {
        rebuilt_is_keyed(log.drop_last());
    }
}

/// Every binding of a state that a log of admissible mutations makes up has
/// an id below the next one, so that a new binding gets a fresh id.
pub proof fn binding_ids_are_fresh(log: Seq<RecordView>)
    requires
        forall|j: int| 0 <= j < log.len() ==> admissible((#[trigger] log[j]).op),
    ensures
        forall|k: int|
            0 <= k < rebuilt(log).bindings.len() ==> (#[trigger] rebuilt(log).bindings[k]).id
                < rebuilt(log).next_binding_id,
    decreases log.len(),
{
    if log.len() > 0 {
        let rest = log.drop_last();
        assert forall|j: int| 0 <= j < rest.len() implies admissible((#[trigger] rest[j]).op) by {
            assert(rest[j] == log[j]);
        }
        binding_ids_are_fresh(rest);
        assert(admissible(log[log.len() - 1].op));
        let s = rebuilt(rest);
        let after = rebuilt(log);
        assert forall|k: int| 0 <= k < after.bindings.len() implies (#[trigger]
        after.bindings[k]).id < after.next_binding_id by {
            if k < s.bindings.len() {
                assert(after.bindings[k] == s.bindings[k]);
            }
        }
    }
}

/// The records of a log bear the numbers from one on.
pub open spec fn numbered(log: Seq<RecordView>) -> bool {
    forall|j: int| 0 <= j < log.len() ==> (#[trigger] log[j]).seq == j + 1
}

/// The log only grows: a mutation appends one record, keeps every earlier
/// one, and the numbers stay consecutive.
pub proof fn log_is_append_only(s: StoreView, op: OpView, now: Timestamp)
    ensures
        logged(s, next_record(s, op, now)).log.len() == s.log.len() + 1,
        logged(s, next_record(s, op, now)).log.take(s.log.len() as int) == s.log,
        numbered(s.log) && s.log.len() < u64::MAX ==> numbered(
            logged(s, next_record(s, op, now)).log,
        ),
{
    let after = logged(s, next_record(s, op, now)).log;
    assert(after.take(s.log.len() as int) =~= s.log);
}

/// Superseding a version keeps every other version as it was, keeps the
/// superseded one apart from its status and its link, and adds the
/// successor. An open window of the superseded version now ends where the
/// successor's starts.
pub proof fn supersession_keeps_versions(vs: Seq<VersionView>, old: Seq<char>, successor: VersionView)
    requires
        model::find_version(vs, old) is Some,
        model::find_version(vs, successor.version) is None,
    ensures
        ({
            let after = superseded_versions(vs, old, successor);
            let i = model::version_index(vs, old);
            &&& after.len() == vs.len() + 1
            &&& after.last() == successor
            &&& forall|k: int| 0 <= k < vs.len() && k != i ==> #[trigger] after[k] == vs[k]
            &&& after[i] == (VersionView {
                status: Status::Superseded,
                superseded_by_version: Some(successor.version),
                ..vs[i]
            })
            &&& model::find_version(after, successor.version) == Some(successor)
            &&& model::find_version(after, old) == Some(after[i])
            &&& vs[i].effective_until is None ==> model::window_end(after, after[i])
                == successor.effective_from
        }),
{
    let after = superseded_versions(vs, old, successor);
    let i = model::version_index(vs, old);
    let names = model::version_names(vs);
    let now = model::version_names(after);
    order::index_of_found(names, old);
    order::index_of_found(names, successor.version);
    assert forall|k: int| 0 <= k < vs.len() implies #[trigger] now[k] == names[k] by {}
    assert forall|k: int| 0 <= k < vs.len() implies #[trigger] now[k] != successor.version by {
        assert(names[k] != successor.version);
    }
    order::index_of_is(now, successor.version, vs.len() as int);
    assert forall|k: int| 0 <= k < i implies #[trigger] now[k] != old by {
        assert(names[k] != old);
    }
    order::index_of_is(now, old, i);
}

/// The bindings of a subject are those that name it, all of them and in
/// the order of their registration.
pub proof fn bindings_of_a_subject(bs: Seq<BindingView>, subject: Seq<char>, n: int)
    requires
        0 <= n <= bs.len(),
    ensures
        forall|i: int|
            0 <= i < n && (#[trigger] bs[i]).subject == subject ==> bindings_among(bs, subject, n).contains(
                bs[i],
            ),
        forall|j: int|
            0 <= j < bindings_among(bs, subject, n).len() ==> (#[trigger] bindings_among(
                bs,
                subject,
                n,
            )[j]).subject == subject && bs.contains(bindings_among(bs, subject, n)[j]),
        bindings_among(bs, subject, n).len() <= n,
    decreases n,
{
    if n > 0 {
        bindings_of_a_subject(bs, subject, n - 1);
        let got = bindings_among(bs, subject, n - 1);
        let all = bindings_among(bs, subject, n);
        assert forall|i: int| 0 <= i < n && (#[trigger] bs[i]).subject == subject implies all.contains(
            bs[i],
        ) by {
            if i < n - 1 {
                let k = got.index_of(bs[i]);
                assert(got.contains(bs[i]));
                assert(all[k] == bs[i]);
            } else {
                assert(all[got.len() as int] == bs[i]);
            }
        }
        assert forall|j: int| 0 <= j < all.len() implies (#[trigger] all[j]).subject == subject
            && bs.contains(all[j]) by {
            if j < got.len() {
                assert(all[j] == got[j]);
            } else {
                assert(all[j] == bs[n - 1]);
            }
        }
    }
}

/// A page of the log holds the records from the offset on, no more than the
/// limit and no fewer than there are.
pub proof fn pages_cut_the_log(log: Seq<RecordView>, limit: int, offset: int, i: int)
    requires
        0 <= limit,
        0 <= offset,
    ensures
        offset >= log.len() ==> log_page(log, limit, offset).len() == 0,
        offset < log.len() && log.len() - offset <= limit ==> log_page(log, limit, offset).len() == log.len()
            - offset,
        offset < log.len() && log.len() - offset > limit ==> log_page(log, limit, offset).len() == limit,
        0 <= i < log_page(log, limit, offset).len() ==> log_page(log, limit, offset)[i] == log[offset + i],
{
}

/// The operations go by these names in the log.
pub proof fn operations_go_by_their_names(op: OpView)
    ensures
        op is RegisterItem ==> op_name(op) == "register-item"@,
        op is SupersedeVersion ==> op_name(op) == "supersede-version"@,
        op is BindApplicability ==> op_name(op) == "bind-applicability"@,
        op is RegisterService ==> op_name(op) == "register-service"@,
        op is SupersedeService ==> op_name(op) == "supersede-service"@,
        op is RegisterProtocolBinding ==> op_name(op) == "register-protocol-binding"@,
        op is RegisterVerificationMechanism ==> op_name(op) == "register-verification-mechanism"@,
        op is UpdateModelValidation ==> op_name(op) == "update-model-validation"@,
{
}

} // verus!
