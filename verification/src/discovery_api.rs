//! The discovery endpoints: signed service descriptors, protocol bindings
//! and verification mechanisms.
//!
//! A descriptor enters the register only where its signature verifies
//! against the operator keyring and bears the key id of that operator.
//! Replaying a journal does not verify signatures again.

use vstd::prelude::*;
use crate::discovery;
use crate::discovery::{
    MechanismView, OperatorKeyring, OperatorRef, OperatorView, ProtocolBinding, ProtocolView,
    ServiceClass, ServiceDescriptor, ServiceVersion, ServiceVersionView, ServiceView,
    SignatureValue, SignatureView, VerificationMechanism,
};
use crate::items_api;
use crate::json;
use crate::json::{Json, Object, Tree};
use crate::request;
use crate::request::{Params, ParamsView, Refusal, RefusalView, Reply, ReplyView};
use crate::store;
use crate::store::{OpView, Store, StoreView};
use crate::text;
use crate::time::Timestamp;

verus! {

/// The keys of the known operators, by id.
pub type Keys = Map<Seq<char>, Seq<u8>>;

/// How a fault of a descriptor is answered.
pub open spec fn descriptor_refusal(e: discovery::DiscoveryErrorView) -> RefusalView {
    RefusalView::BadRequest(discovery::discovery_text(e))
}

/// How a fault of a descriptor is answered.
fn discovery_error(e: discovery::DiscoveryError) -> (r: Refusal)
    ensures
        r@ == descriptor_refusal(e@),
{
    Refusal::BadRequest(e.to_string())
}

/// The signed part of a request: the body and its signature.
pub open spec fn signed_part(t: Tree) -> Result<(Tree, SignatureView), RefusalView> {
    match json::lookup(t, "body"@) {
        None => request::bad("missing `body`"@),
        Some(body) => match json::lookup(t, "signature"@) {
            None => request::bad("missing `signature`"@),
            Some(block) => match discovery::parsed_signature(block) {
                Err(e) => request::bad("`signature`: "@ + e),
                Ok(signature) => Ok((body, signature)),
            },
        },
    }
}

/// Reads the signed part of a request.
fn read_signed_part(v: &Json) -> (r: Result<(Json, SignatureValue), Refusal>)
    ensures
        match r {
            Ok(x) => signed_part(v@) == Ok::<(Tree, SignatureView), RefusalView>((x.0@, x.1@)),
            Err(e) => signed_part(v@) == Err::<(Tree, SignatureView), RefusalView>(e@),
        },
{
    let body = match v.get("body") {
        Some(b) => b.clone(),
        None => return request::bad_request("missing `body`".to_owned()),
    };
    match v.get("signature") {
        None => request::bad_request("missing `signature`".to_owned()),
        Some(block) => match SignatureValue::from_json(block) {
            Ok(signature) => Ok((body, signature)),
            Err(e) => request::bad_request(text::cat2("`signature`: ", e.as_str())),
        },
    }
}

/// Whether a signed body is admitted: the signature holds under the key
/// that the keyring has for the operator, and bears the id of that
/// operator's key. Where it bears another one, the refusal is `named` after
/// the operator or not.
pub open spec fn admission(
    keys: Keys,
    operator: OperatorView,
    body: Tree,
    signature: SignatureView,
    named: bool,
) -> Result<(), RefusalView> {
    match discovery::verification(
        keys,
        operator.id,
        discovery::payload_of(body),
        signature.value,
    ) {
        Err(e) => Err(descriptor_refusal(e)),
        Ok(_) => if signature.key_id != discovery::key_id_of(operator.public_key) {
            if named {
                request::bad(
                    "signature `key_id` `"@ + signature.key_id
                        + "` does not match the content-derived key id `"@ + discovery::key_id_of(
                        operator.public_key,
                    ) + "` for operator `"@ + operator.id + "`"@,
                )
            } else {
                request::bad(
                    "signature `key_id` `"@ + signature.key_id
                        + "` does not match the content-derived key id `"@ + discovery::key_id_of(
                        operator.public_key,
                    ) + "`"@,
                )
            }
        } else {
            Ok(())
        },
    }
}

/// Decides whether a signed body is admitted.
fn check_signature(
    keyring: &OperatorKeyring,
    operator: &OperatorRef,
    body: &Json,
    signature: &SignatureValue,
    named: bool,
) -> (r: Result<(), Refusal>)
    ensures
        match r {
            Ok(_) => admission(keyring@, operator@, body@, signature@, named) is Ok,
            Err(e) => admission(keyring@, operator@, body@, signature@, named) == Err::<
                (),
                RefusalView,
            >(e@),
        },
{
    let payload = discovery::payload(body);
    if let Err(e) = keyring.verify(
        operator.id.as_str(),
        payload.as_slice(),
        signature.value.as_slice(),
    ) {
        return Err(discovery_error(e));
    }
    let expected = discovery::key_id(&operator.public_key);
    if !text::same(signature.key_id.as_str(), expected.as_str()) {
        if !named {
            return request::bad_request(
                text::cat5(
                    "signature `key_id` `",
                    signature.key_id.as_str(),
                    "` does not match the content-derived key id `",
                    expected.as_str(),
                    "`",
                ),
            );
        }
        return request::bad_request(
            text::cat7(
                "signature `key_id` `",
                signature.key_id.as_str(),
                "` does not match the content-derived key id `",
                expected.as_str(),
                "` for operator `",
                operator.id.as_str(),
                "`",
            ),
        );
    }
    Ok(())
}

/// What a service request asks for: the version to be registered, once its
/// signature is admitted.
pub open spec fn service_request(
    keys: Keys,
    t: Tree,
    identifier: Seq<char>,
    now: Timestamp,
    named: bool,
) -> Result<ServiceVersionView, RefusalView> {
    let version = request::required_token(t, "version"@);
    let part = signed_part(t);
    let window = request::window_of(t, now);
    let body = part->Ok_0.0;
    let signature = part->Ok_0.1;
    let parsed = discovery::parsed_service_body(body, identifier);
    let admitted = admission(keys, parsed->Ok_0.operator, body, signature, named);
    if version is Err {
        Err(version->Err_0)
    } else if part is Err {
        Err(part->Err_0)
    } else if window is Err {
        Err(window->Err_0)
    } else if parsed is Err {
        Err(descriptor_refusal(parsed->Err_0))
    } else if admitted is Err {
        Err(admitted->Err_0)
    } else {
        Ok(
            ServiceVersionView {
                version: version->Ok_0,
                status: parsed->Ok_0.status,
                effective_from: window->Ok_0.0,
                effective_until: window->Ok_0.1,
                registered_at: now,
                superseded_by_version: None,
                body,
                signature,
            },
        )
    }
}

/// Reads what a service request asks for.
pub fn read_service_request(
    keyring: &OperatorKeyring,
    v: &Json,
    identifier: &str,
    now: Timestamp,
    named: bool,
) -> (r: Result<ServiceVersion, Refusal>)
    ensures
        match r {
            Ok(x) => service_request(keyring@, v@, identifier@, now, named) == Ok::<
                ServiceVersionView,
                RefusalView,
            >(x@),
            Err(e) => service_request(keyring@, v@, identifier@, now, named) == Err::<
                ServiceVersionView,
                RefusalView,
            >(e@),
        },
{
    let version = match request::req_token(v, "version") {
        Ok(s) => s,
        Err(e) => return Err(e),
    };
    let (body, signature) = match read_signed_part(v) {
        Ok(x) => x,
        Err(e) => return Err(e),
    };
    let window = match request::read_window(v, now) {
        Ok(w) => w,
        Err(e) => return Err(e),
    };
    let parsed = match discovery::parse_service_body(&body, identifier) {
        Ok(p) => p,
        Err(e) => return Err(discovery_error(e)),
    };
    if let Err(e) = check_signature(keyring, &parsed.operator, &body, &signature, named) {
        return Err(e);
    }
    Ok(
        ServiceVersion {
            version,
            status: parsed.status,
            effective_from: window.0,
            effective_until: window.1,
            registered_at: now,
            superseded_by_version: None,
            body,
            signature,
        },
    )
}

/// A registered descriptor: its identifier, what was registered, the number
/// of the record and the instant.
pub open spec fn entered_tree(
    identifier: Seq<char>,
    name: Seq<char>,
    content: Tree,
    seq: u64,
    now: Timestamp,
) -> Tree {
    Tree::Obj(
        Map::<Seq<char>, Tree>::empty().insert("identifier"@, Tree::Str(identifier)).insert(
            name,
            content,
        ).insert("audit_seq"@, Tree::Int(seq as int)).insert("as_of"@, discovery::stamp(now)),
    )
}

/// Writes the answer to a registered descriptor.
fn entered_json(identifier: &str, name: &str, content: Json, seq: u64, now: Timestamp) -> (r: Json)
    ensures
        r@ == entered_tree(identifier@, name@, content@, seq, now),
{
    let mut m = Object::new();
    m.put_str("identifier", identifier);
    m.put(name, content);
    m.put_uint("audit_seq", seq);
    m.put("as_of", Json::Str(now.to_string()));
    Json::Obj(m)
}

/// A descriptor with one version.
pub open spec fn first_version(identifier: Seq<char>, v: ServiceVersionView) -> ServiceView {
    ServiceView { identifier, versions: seq![v] }
}

/// A descriptor with one version.
pub(crate) fn with_first_version(identifier: String, v: ServiceVersion) -> (r: ServiceDescriptor)
    ensures
        r@ == first_version(identifier@, v@),
{
    let mut versions: Vec<ServiceVersion> = Vec::new();
    versions.push(v);
    let r = ServiceDescriptor { identifier, versions };
    assert(r@.versions =~= seq![v@]);
    r
}

/// How the registration of a service comes out, and the store after it.
pub open spec fn service_registered(s: StoreView, keys: Keys, t: Tree, now: Timestamp) -> (
    Result<ReplyView, RefusalView>,
    StoreView,
) {
    match request::required_token(t, "identifier"@) {
        Err(e) => (Err(e), s),
        Ok(identifier) => match service_request(keys, t, identifier, now, true) {
            Err(e) => (Err(e), s),
            Ok(v) => {
                let service = first_version(identifier, v);
                match store::service_refusal(s, service) {
                    Some(e) => (Err(request::store_refusal(e)), s),
                    None => {
                        let rec = store::next_record(s, OpView::RegisterService { service }, now);
                        (
                            Ok(
                                ReplyView {
                                    status: 201,
                                    as_of: now,
                                    body: entered_tree(
                                        identifier,
                                        "version"@,
                                        discovery::service_version_tree(v, None),
                                        rec.seq,
                                        now,
                                    ),
                                },
                            ),
                            store::logged(s, rec),
                        )
                    },
                }
            },
        },
    }
}

/// Registers a signed service descriptor, as a parsed body asks.
pub fn register_service(store: &mut Store, keyring: &OperatorKeyring, v: &Json, now: Timestamp) -> (r:
    Result<Reply, Refusal>)
    ensures
        request::answers(r, service_registered(old(store)@, keyring@, v@, now).0),
        final(store)@ == service_registered(old(store)@, keyring@, v@, now).1,
        store::faithful(old(store)@) ==> store::faithful(final(store)@),
{
    let identifier = match request::req_token(v, "identifier") {
        Ok(s) => s,
        Err(e) => return Err(e),
    };
    let version = match read_service_request(keyring, v, identifier.as_str(), now, true) {
        Ok(x) => x,
        Err(e) => return Err(e),
    };
    let content = version.to_json(None);
    let service = with_first_version(identifier.clone(), version);
    match store.register_service(service, now) {
        Ok(rec) => Ok(
            Reply {
                status: 201,
                as_of: now,
                body: entered_json(identifier.as_str(), "version", content, rec.seq, now),
            },
        ),
        Err(e) => Err(request::store_error(e)),
    }
}

/// `POST /services`: registers a signed service descriptor.
pub fn create_service(store: &mut Store, keyring: &OperatorKeyring, body: &str, now: Timestamp) -> (r:
    Result<Reply, Refusal>)
    ensures
        match request::body_of(body@) {
            Err(e) => request::answers(r, Err(e)) && final(store)@ == old(store)@,
            Ok(t) => request::answers(
                r,
                service_registered(old(store)@, keyring@, t, now).0,
            ) && final(store)@ == service_registered(old(store)@, keyring@, t, now).1,
        },
        store::faithful(old(store)@) ==> store::faithful(final(store)@),
{
    match request::parse_body(body) {
        Ok(v) => register_service(store, keyring, &v, now),
        Err(e) => Err(e),
    }
}

/// Only descriptors with a signature that verifies, by an operator that the
/// keyring knows and under the id of its key, enter the register.
pub proof fn only_verified_services_enter(s: StoreView, keys: Keys, t: Tree, now: Timestamp)
    requires
        service_registered(s, keys, t, now).0 is Ok,
    ensures
        ({
            let identifier = request::required_token(t, "identifier"@)->Ok_0;
            let part = signed_part(t)->Ok_0;
            let parsed = discovery::parsed_service_body(part.0, identifier);
            &&& parsed is Ok
            &&& keys.dom().contains(parsed->Ok_0.operator.id)
            &&& discovery::verification(
                keys,
                parsed->Ok_0.operator.id,
                discovery::payload_of(part.0),
                part.1.value,
            ) is Ok
            &&& part.1.key_id == discovery::key_id_of(parsed->Ok_0.operator.public_key)
            &&& service_registered(s, keys, t, now).1.services.dom().contains(identifier)
        }),
{
}

/// A refused registration leaves the store as it was.
pub proof fn refused_service_changes_nothing(s: StoreView, keys: Keys, t: Tree, now: Timestamp)
    requires
        service_registered(s, keys, t, now).0 is Err,
    ensures
        service_registered(s, keys, t, now).1 == s,
{
}

/// The views of services.
pub open spec fn service_trees(ss: Seq<ServiceView>, as_of: Timestamp, at: Option<Timestamp>) -> Seq<Tree> {
    ss.map_values(|x: ServiceView| discovery::service_tree(x, as_of, at))
}

/// How a listing of services comes out.
pub open spec fn services_listed(s: StoreView, q: ParamsView, now: Timestamp) -> Result<
    ReplyView,
    RefusalView,
> {
    let at = request::instant_of(q);
    let class = match request::parameter(q, "class"@) {
        None => Ok::<Option<ServiceClass>, RefusalView>(None),
        Some(n) => match discovery::parsed_service_class(n) {
            Some(c) => Ok(Some(c)),
            None => request::bad(
                "unknown service class `"@ + n + "` (expected one of "@
                    + discovery::service_class_help() + ")"@,
            ),
        },
    };
    if at is Err {
        Err(at->Err_0)
    } else if class is Err {
        Err(class->Err_0)
    } else {
        let as_of = request::stamp_of(at->Ok_0, now);
        let found = store::services_matching(
            s,
            class->Ok_0,
            request::parameter(q, "jurisdiction"@),
        );
        Ok(
            ReplyView {
                status: 200,
                as_of,
                body: items_api::list_tree(
                    as_of,
                    "services"@,
                    service_trees(found, as_of, at->Ok_0),
                ),
            },
        )
    }
}

/// `GET /services`: the services of a class and a jurisdiction, each with
/// its resolved version.
pub fn list_services(store: &Store, q: &Params, now: Timestamp) -> (r: Result<Reply, Refusal>)
    ensures
        request::answers(r, services_listed(store@, q@, now)),
{
    let at = match request::parse_at(q) {
        Ok(x) => x,
        Err(e) => return Err(e),
    };
    let as_of = request::stamp_or(at, now);
    let class = match request::opt_query(q, "class") {
        None => None,
        Some(n) => match ServiceClass::parse(n.as_str()) {
            Some(c) => Some(c),
            None => {
                let help = ServiceClass::help();
                return request::bad_request(
                    text::cat5(
                        "unknown service class `",
                        n.as_str(),
                        "` (expected one of ",
                        help.as_str(),
                        ")",
                    ),
                );
            },
        },
    };
    let jurisdiction = request::opt_query(q, "jurisdiction");
    let found = store.services_filtered(class, request::borrowed(&jurisdiction));
    let mut list: Vec<Json> = Vec::new();
    let mut i: usize = 0;
    while i < found.len()
        invariant
            i <= found@.len(),
            list@.len() == i,
            forall|j: int|
                0 <= j < i ==> json::tree(#[trigger] list@[j]) == discovery::service_tree(
                    found@[j]@,
                    as_of,
                    at,
                ),
        decreases found@.len() - i,
    {
        list.push(found[i].to_json(as_of, at));
        i = i + 1;
    }
    assert(json::trees(list@) =~= service_trees(
        store::service_descriptor_refs(found@),
        as_of,
        at,
    ));
    Ok(Reply { status: 200, as_of, body: items_api::list_json(as_of, "services", list) })
}

/// That there is no such service.
pub open spec fn no_service(identifier: Seq<char>) -> RefusalView {
    RefusalView::NotFound("no service descriptor `"@ + identifier + "`"@)
}

/// That there is no such service.
fn service_missing(identifier: &str) -> (r: Refusal)
    ensures
        r@ == no_service(identifier@),
{
    Refusal::NotFound(text::cat3("no service descriptor `", identifier, "`"))
}

/// How the reading of a service comes out.
pub open spec fn service_read(s: StoreView, q: ParamsView, identifier: Seq<char>, now: Timestamp) -> Result<
    ReplyView,
    RefusalView,
> {
    match request::instant_of(q) {
        Err(e) => Err(e),
        Ok(at) => if !s.services.dom().contains(identifier) {
            Err(no_service(identifier))
        } else {
            let as_of = request::stamp_of(at, now);
            Ok(
                ReplyView {
                    status: 200,
                    as_of,
                    body: discovery::service_tree(s.services[identifier], as_of, at),
                },
            )
        },
    }
}

/// `GET /services/{id}`: one descriptor with its resolved version.
pub fn get_service(store: &Store, q: &Params, identifier: &str, now: Timestamp) -> (r: Result<
    Reply,
    Refusal,
>)
    ensures
        request::answers(r, service_read(store@, q@, identifier@, now)),
{
    let at = match request::parse_at(q) {
        Ok(x) => x,
        Err(e) => return Err(e),
    };
    let as_of = request::stamp_or(at, now);
    match store.service(identifier) {
        None => Err(service_missing(identifier)),
        Some(s) => Ok(Reply { status: 200, as_of, body: s.to_json(as_of, at) }),
    }
}

/// The version that is to be superseded: the one named, or the current one.
pub open spec fn service_target(t: Tree, service: ServiceView, identifier: Seq<char>) -> Result<
    Seq<char>,
    RefusalView,
> {
    match request::optional_text(t, "supersede_version"@) {
        Err(e) => Err(e),
        Ok(Some(n)) => Ok(n),
        Ok(None) => match discovery::service_current(service.versions) {
            Some(v) => Ok(v.version),
            None => request::bad(
                "service `"@ + identifier + "` has no active version to supersede"@,
            ),
        },
    }
}

/// The wire form of a version of a service, `null` where there is none.
pub open spec fn service_version_at(service: ServiceView, version: Seq<char>) -> Tree {
    match discovery::find_service_version(service.versions, version) {
        Some(v) => discovery::service_version_tree(
            v,
            discovery::service_window_end(service.versions, v),
        ),
        None => Tree::Null,
    }
}

/// Writes a version of a service.
fn service_version_json(service: &ServiceDescriptor, version: &str) -> (r: Json)
    ensures
        r@ == service_version_at(service@, version@),
{
    match service.version(version) {
        Some(v) => {
            let until = service.window_until(v);
            v.to_json(until)
        },
        None => Json::Null,
    }
}

/// How the supersession of a service comes out, and the store after it.
pub open spec fn service_superseded(
    s: StoreView,
    keys: Keys,
    identifier: Seq<char>,
    t: Tree,
    now: Timestamp,
) -> (Result<ReplyView, RefusalView>, StoreView) {
    if !s.services.dom().contains(identifier) {
        (Err(no_service(identifier)), s)
    } else {
        let service = s.services[identifier];
        let successor = service_request(keys, t, identifier, now, false);
        let target = service_target(t, service, identifier);
        if successor is Err {
            (Err(successor->Err_0), s)
        } else if target is Err {
            (Err(target->Err_0), s)
        } else {
            match store::supersede_service_refusal(
                s,
                identifier,
                target->Ok_0,
                successor->Ok_0,
            ) {
                Some(e) => (Err(request::store_refusal(e)), s),
                None => {
                    let rec = store::next_record(
                        s,
                        store::supersede_service_op(
                            s,
                            identifier,
                            target->Ok_0,
                            successor->Ok_0,
                        ),
                        now,
                    );
                    let after = store::superseded_service(
                        service,
                        target->Ok_0,
                        successor->Ok_0,
                    );
                    (
                        Ok(
                            ReplyView {
                                status: 201,
                                as_of: now,
                                body: Tree::Obj(
                                    Map::<Seq<char>, Tree>::empty().insert(
                                        "identifier"@,
                                        Tree::Str(identifier),
                                    ).insert(
                                        "new_version"@,
                                        service_version_at(after, successor->Ok_0.version),
                                    ).insert(
                                        "superseded_version"@,
                                        service_version_at(after, target->Ok_0),
                                    ).insert("audit_seq"@, Tree::Int(rec.seq as int)).insert(
                                        "as_of"@,
                                        discovery::stamp(now),
                                    ),
                                ),
                            },
                        ),
                        store::logged(s, rec),
                    )
                },
            }
        }
    }
}

/// Supersedes a version of a service, as a parsed body asks.
pub fn supersede(
    store: &mut Store,
    keyring: &OperatorKeyring,
    identifier: &str,
    v: &Json,
    now: Timestamp,
) -> (r: Result<Reply, Refusal>)
    ensures
        request::answers(r, service_superseded(old(store)@, keyring@, identifier@, v@, now).0),
        final(store)@ == service_superseded(old(store)@, keyring@, identifier@, v@, now).1,
        store::faithful(old(store)@) ==> store::faithful(final(store)@),
{
    let service = match store.service(identifier) {
        Some(s) => s,
        None => return Err(service_missing(identifier)),
    };
    let successor = match read_service_request(keyring, v, identifier, now, false) {
        Ok(x) => x,
        Err(e) => return Err(e),
    };
    let target = match request::opt_str(v, "supersede_version") {
        Err(e) => return Err(e),
        Ok(Some(n)) => n,
        Ok(None) => match service.current_version() {
            Some(c) => c.version.clone(),
            None => return request::bad_request(
                text::cat3("service `", identifier, "` has no active version to supersede"),
            ),
        },
    };
    let version = successor.version.clone();
    let rec = match store.supersede_service(identifier, target.as_str(), successor, now) {
        Ok(r) => r,
        Err(e) => return Err(request::store_error(e)),
    };
    let mut m = Object::new();
    m.put_str("identifier", identifier);
    if let Some(after) = store.service(identifier) {
        m.put("new_version", service_version_json(after, version.as_str()));
        m.put("superseded_version", service_version_json(after, target.as_str()));
    }
    m.put_uint("audit_seq", rec.seq);
    m.put("as_of", Json::Str(now.to_string()));
    Ok(Reply { status: 201, as_of: now, body: Json::Obj(m) })
}

/// `POST /services/{id}/versions`: supersedes a descriptor with a new
/// signed version. An unknown service is not found, whatever the body says.
pub fn supersede_service(
    store: &mut Store,
    keyring: &OperatorKeyring,
    identifier: &str,
    body: &str,
    now: Timestamp,
) -> (r: Result<Reply, Refusal>)
    ensures
        if !old(store)@.services.dom().contains(identifier@) {
            request::answers(r, Err(no_service(identifier@))) && final(store)@ == old(store)@
        } else {
            match request::body_of(body@) {
                Err(e) => request::answers(r, Err(e)) && final(store)@ == old(store)@,
                Ok(t) => request::answers(
                    r,
                    service_superseded(old(store)@, keyring@, identifier@, t, now).0,
                ) && final(store)@ == service_superseded(
                    old(store)@,
                    keyring@,
                    identifier@,
                    t,
                    now,
                ).1,
            }
        },
        store::faithful(old(store)@) ==> store::faithful(final(store)@),
{
    if store.service(identifier).is_none() {
        return Err(service_missing(identifier));
    }
    match request::parse_body(body) {
        Ok(v) => supersede(store, keyring, identifier, &v, now),
        Err(e) => Err(e),
    }
}

/// The wire forms of the versions of a chain, each with its window end.
pub open spec fn service_chain_trees(service: ServiceView, chain: Seq<ServiceVersionView>) -> Seq<Tree> {
    chain.map_values(
        |v: ServiceVersionView|
            discovery::service_version_tree(
                v,
                discovery::service_window_end(service.versions, v),
            ),
    )
}

/// How the reading of a service's supersession chain comes out.
pub open spec fn service_chain_read(
    s: StoreView,
    q: ParamsView,
    identifier: Seq<char>,
    now: Timestamp,
) -> Result<ReplyView, RefusalView> {
    match request::instant_of(q) {
        Err(e) => Err(e),
        Ok(at) => if !s.services.dom().contains(identifier) {
            Err(no_service(identifier))
        } else {
            let service = s.services[identifier];
            match discovery::service_chain_of(service, request::parameter(q, "from"@)) {
                Err(e) => request::bad(e),
                Ok(chain) => {
                    let as_of = request::stamp_of(at, now);
                    Ok(
                        ReplyView {
                            status: 200,
                            as_of,
                            body: items_api::chain_tree(
                                identifier,
                                service_chain_trees(service, chain),
                                as_of,
                            ),
                        },
                    )
                },
            }
        },
    }
}

/// `GET /services/{id}/supersession`: the supersession chain of a service.
pub fn service_chain(store: &Store, q: &Params, identifier: &str, now: Timestamp) -> (r: Result<
    Reply,
    Refusal,
>)
    ensures
        request::answers(r, service_chain_read(store@, q@, identifier@, now)),
{
    let at = match request::parse_at(q) {
        Ok(x) => x,
        Err(e) => return Err(e),
    };
    let as_of = request::stamp_or(at, now);
    let from = request::opt_query(q, "from");
    let service = match store.service(identifier) {
        Some(s) => s,
        None => return Err(service_missing(identifier)),
    };
    let chain = match service.supersession_chain(request::borrowed(&from)) {
        Ok(c) => c,
        Err(e) => return request::bad_request(e),
    };
    let mut list: Vec<Json> = Vec::new();
    let mut i: usize = 0;
    while i < chain.len()
        invariant
            i <= chain@.len(),
            list@.len() == i,
            forall|j: int|
                0 <= j < i ==> json::tree(#[trigger] list@[j]) == discovery::service_version_tree(
                    chain@[j]@,
                    discovery::service_window_end(service@.versions, chain@[j]@),
                ),
        decreases chain@.len() - i,
    {
        let until = service.window_until(chain[i]);
        list.push(chain[i].to_json(until));
        i = i + 1;
    }
    assert(json::trees(list@) =~= service_chain_trees(
        service@,
        discovery::service_ref_views(chain@),
    ));
    Ok(Reply { status: 200, as_of, body: items_api::chain_json(identifier, list, as_of) })
}

/// The operator block of a body.
pub open spec fn operator_part(body: Tree) -> Result<OperatorView, RefusalView> {
    match json::lookup(body, "operator"@) {
        None => request::bad("body missing `operator`"@),
        Some(o) => match discovery::parsed_operator(o) {
            Err(e) => request::bad("`operator`: "@ + e),
            Ok(x) => Ok(x),
        },
    }
}

/// Reads the operator block of a body.
fn read_operator_part(body: &Json) -> (r: Result<OperatorRef, Refusal>)
    ensures
        match r {
            Ok(x) => operator_part(body@) == Ok::<OperatorView, RefusalView>(x@),
            Err(e) => operator_part(body@) == Err::<OperatorView, RefusalView>(e@),
        },
{
    match body.get("operator") {
        None => request::bad_request("body missing `operator`".to_owned()),
        Some(o) => match OperatorRef::from_json(o) {
            Ok(x) => Ok(x),
            Err(e) => request::bad_request(text::cat2("`operator`: ", e.as_str())),
        },
    }
}

/// What the registration of a protocol binding asks for, once its signature
/// is admitted.
pub open spec fn protocol_request(keys: Keys, t: Tree) -> Result<ProtocolView, RefusalView> {
    let identifier = request::required_token(t, "identifier"@);
    let version = request::required_token(t, "version"@);
    let part = signed_part(t);
    let body = part->Ok_0.0;
    let signature = part->Ok_0.1;
    let parsed = discovery::parsed_protocol_body(body);
    let operator = operator_part(body);
    let admitted = admission(keys, operator->Ok_0, body, signature, true);
    if identifier is Err {
        Err(identifier->Err_0)
    } else if version is Err {
        Err(version->Err_0)
    } else if part is Err {
        Err(part->Err_0)
    } else if parsed is Err {
        Err(descriptor_refusal(parsed->Err_0))
    } else if operator is Err {
        Err(operator->Err_0)
    } else if admitted is Err {
        Err(admitted->Err_0)
    } else {
        Ok(
            ProtocolView {
                identifier: identifier->Ok_0,
                grammar_ref: parsed->Ok_0.grammar_ref,
                media_types: parsed->Ok_0.media_types,
                conformance_suite_ref: parsed->Ok_0.conformance_suite_ref,
                version: version->Ok_0,
                body,
                signature,
            },
        )
    }
}

/// Reads what the registration of a protocol binding asks for.
pub fn read_protocol_request(keyring: &OperatorKeyring, v: &Json) -> (r: Result<
    ProtocolBinding,
    Refusal,
>)
    ensures
        match r {
            Ok(x) => protocol_request(keyring@, v@) == Ok::<ProtocolView, RefusalView>(x@),
            Err(e) => protocol_request(keyring@, v@) == Err::<ProtocolView, RefusalView>(e@),
        },
{
    let identifier = match request::req_token(v, "identifier") {
        Ok(s) => s,
        Err(e) => return Err(e),
    };
    let version = match request::req_token(v, "version") {
        Ok(s) => s,
        Err(e) => return Err(e),
    };
    let (body, signature) = match read_signed_part(v) {
        Ok(x) => x,
        Err(e) => return Err(e),
    };
    let parsed = match discovery::parse_protocol_body(&body) {
        Ok(p) => p,
        Err(e) => return Err(discovery_error(e)),
    };
    let operator = match read_operator_part(&body) {
        Ok(o) => o,
        Err(e) => return Err(e),
    };
    if let Err(e) = check_signature(keyring, &operator, &body, &signature, true) {
        return Err(e);
    }
    Ok(
        ProtocolBinding {
            identifier,
            grammar_ref: parsed.grammar_ref,
            media_types: parsed.media_types,
            conformance_suite_ref: parsed.conformance_suite_ref,
            version,
            body,
            signature,
        },
    )
}

/// How the registration of a protocol binding comes out, and the store after
/// it.
pub open spec fn protocol_registered(s: StoreView, keys: Keys, t: Tree, now: Timestamp) -> (
    Result<ReplyView, RefusalView>,
    StoreView,
) {
    match protocol_request(keys, t) {
        Err(e) => (Err(e), s),
        Ok(binding) => match store::protocol_refusal(s, binding) {
            Some(e) => (Err(request::store_refusal(e)), s),
            None => {
                let rec = store::next_record(s, OpView::RegisterProtocolBinding { binding }, now);
                (
                    Ok(
                        ReplyView {
                            status: 201,
                            as_of: now,
                            body: entered_tree(
                                binding.identifier,
                                "binding"@,
                                discovery::protocol_tree(binding),
                                rec.seq,
                                now,
                            ),
                        },
                    ),
                    store::logged(s, rec),
                )
            },
        },
    }
}

/// Registers a signed protocol binding, as a parsed body asks.
pub fn register_protocol_binding(store: &mut Store, keyring: &OperatorKeyring, v: &Json, now: Timestamp) -> (r:
    Result<Reply, Refusal>)
    ensures
        request::answers(r, protocol_registered(old(store)@, keyring@, v@, now).0),
        final(store)@ == protocol_registered(old(store)@, keyring@, v@, now).1,
        store::faithful(old(store)@) ==> store::faithful(final(store)@),
{
    let binding = match read_protocol_request(keyring, v) {
        Ok(x) => x,
        Err(e) => return Err(e),
    };
    let identifier = binding.identifier.clone();
    let content = binding.to_json();
    match store.register_protocol_binding(binding, now) {
        Ok(rec) => Ok(
            Reply {
                status: 201,
                as_of: now,
                body: entered_json(identifier.as_str(), "binding", content, rec.seq, now),
            },
        ),
        Err(e) => Err(request::store_error(e)),
    }
}

/// `POST /protocol-bindings`: registers a signed protocol binding.
pub fn create_protocol_binding(store: &mut Store, keyring: &OperatorKeyring, body: &str, now: Timestamp) -> (r:
    Result<Reply, Refusal>)
    ensures
        match request::body_of(body@) {
            Err(e) => request::answers(r, Err(e)) && final(store)@ == old(store)@,
            Ok(t) => request::answers(
                r,
                protocol_registered(old(store)@, keyring@, t, now).0,
            ) && final(store)@ == protocol_registered(old(store)@, keyring@, t, now).1,
        },
        store::faithful(old(store)@) ==> store::faithful(final(store)@),
{
    match request::parse_body(body) {
        Ok(v) => register_protocol_binding(store, keyring, &v, now),
        Err(e) => Err(e),
    }
}

/// The wire forms of protocol bindings.
pub open spec fn protocol_trees(bs: Seq<ProtocolView>) -> Seq<Tree> {
    bs.map_values(|b: ProtocolView| discovery::protocol_tree(b))
}

/// `GET /protocol-bindings`: all protocol bindings, in identifier order.
pub fn list_protocol_bindings(store: &Store, now: Timestamp) -> (r: Reply)
    ensures
        r@ == (ReplyView {
            status: 200,
            as_of: now,
            body: items_api::list_tree(
                now,
                "protocol_bindings"@,
                protocol_trees(store::in_name_order(store@.protocols)),
            ),
        }),
{
    let all = store.protocol_bindings_all();
    let mut list: Vec<Json> = Vec::new();
    let mut i: usize = 0;
    while i < all.len()
        invariant
            i <= all@.len(),
            list@.len() == i,
            forall|j: int|
                0 <= j < i ==> json::tree(#[trigger] list@[j]) == discovery::protocol_tree(all@[j]@),
        decreases all@.len() - i,
    {
        list.push(all[i].to_json());
        i = i + 1;
    }
    assert(json::trees(list@) =~= protocol_trees(store::protocol_refs(all@)));
    Reply {
        status: 200,
        as_of: now,
        body: items_api::list_json(now, "protocol_bindings", list),
    }
}

/// `GET /protocol-bindings/{id}`: one protocol binding.
pub fn get_protocol_binding(store: &Store, identifier: &str, now: Timestamp) -> (r: Result<
    Reply,
    Refusal,
>)
    ensures
        request::answers(
            r,
            if store@.protocols.dom().contains(identifier@) {
                Ok(
                    ReplyView {
                        status: 200,
                        as_of: now,
                        body: discovery::protocol_tree(store@.protocols[identifier@]),
                    },
                )
            } else {
                Err(RefusalView::NotFound("no protocol binding `"@ + identifier@ + "`"@))
            },
        ),
{
    match store.protocol_binding(identifier) {
        Some(b) => Ok(Reply { status: 200, as_of: now, body: b.to_json() }),
        None => Err(Refusal::NotFound(text::cat3("no protocol binding `", identifier, "`"))),
    }
}

/// What the registration of a verification mechanism asks for, once its signature
/// is admitted.
pub open spec fn mechanism_request(keys: Keys, t: Tree) -> Result<MechanismView, RefusalView> {
    let identifier = request::required_token(t, "identifier"@);
    let part = signed_part(t);
    let body = part->Ok_0.0;
    let signature = part->Ok_0.1;
    let parsed = discovery::parsed_verification_body(body);
    let operator = operator_part(body);
    let admitted = admission(keys, operator->Ok_0, body, signature, true);
    if identifier is Err {
        Err(identifier->Err_0)
    } else if part is Err {
        Err(part->Err_0)
    } else if parsed is Err {
        Err(descriptor_refusal(parsed->Err_0))
    } else if operator is Err {
        Err(operator->Err_0)
    } else if admitted is Err {
        Err(admitted->Err_0)
    } else {
        Ok(
            MechanismView {
                identifier: identifier->Ok_0,
                suite: parsed->Ok_0.suite,
                agility_status: parsed->Ok_0.agility_status,
                trust_framework: parsed->Ok_0.trust_framework,
                trust_list_endpoint: parsed->Ok_0.trust_list_endpoint,
                master_list_ref: parsed->Ok_0.master_list_ref,
                verdict_grammar_ref: parsed->Ok_0.verdict_grammar_ref,
                body,
                signature,
            },
        )
    }
}

/// Reads what the registration of a verification mechanism asks for.
pub fn read_mechanism_request(keyring: &OperatorKeyring, v: &Json) -> (r: Result<
    VerificationMechanism,
    Refusal,
>)
    ensures
        match r {
            Ok(x) => mechanism_request(keyring@, v@) == Ok::<MechanismView, RefusalView>(x@),
            Err(e) => mechanism_request(keyring@, v@) == Err::<MechanismView, RefusalView>(e@),
        },
{
    let identifier = match request::req_token(v, "identifier") {
        Ok(s) => s,
        Err(e) => return Err(e),
    };
    let (body, signature) = match read_signed_part(v) {
        Ok(x) => x,
        Err(e) => return Err(e),
    };
    let parsed = match discovery::parse_verification_body(&body) {
        Ok(p) => p,
        Err(e) => return Err(discovery_error(e)),
    };
    let operator = match read_operator_part(&body) {
        Ok(o) => o,
        Err(e) => return Err(e),
    };
    if let Err(e) = check_signature(keyring, &operator, &body, &signature, true) {
        return Err(e);
    }
    Ok(
        VerificationMechanism {
            identifier,
            suite: parsed.suite,
            agility_status: parsed.agility_status,
            trust_framework: parsed.trust_framework,
            trust_list_endpoint: parsed.trust_list_endpoint,
            master_list_ref: parsed.master_list_ref,
            verdict_grammar_ref: parsed.verdict_grammar_ref,
            body,
            signature,
        },
    )
}

/// How the registration of a verification mechanism comes out, and the store after
/// it.
pub open spec fn mechanism_registered(s: StoreView, keys: Keys, t: Tree, now: Timestamp) -> (
    Result<ReplyView, RefusalView>,
    StoreView,
) {
    match mechanism_request(keys, t) {
        Err(e) => (Err(e), s),
        Ok(mechanism) => match store::mechanism_refusal(s, mechanism) {
            Some(e) => (Err(request::store_refusal(e)), s),
            None => {
                let rec = store::next_record(s, OpView::RegisterVerificationMechanism { mechanism }, now);
                (
                    Ok(
                        ReplyView {
                            status: 201,
                            as_of: now,
                            body: entered_tree(
                                mechanism.identifier,
                                "mechanism"@,
                                discovery::mechanism_tree(mechanism),
                                rec.seq,
                                now,
                            ),
                        },
                    ),
                    store::logged(s, rec),
                )
            },
        },
    }
}

/// Registers a signed verification mechanism, as a parsed body asks.
pub fn register_verification_mechanism(store: &mut Store, keyring: &OperatorKeyring, v: &Json, now: Timestamp) -> (r:
    Result<Reply, Refusal>)
    ensures
        request::answers(r, mechanism_registered(old(store)@, keyring@, v@, now).0),
        final(store)@ == mechanism_registered(old(store)@, keyring@, v@, now).1,
        store::faithful(old(store)@) ==> store::faithful(final(store)@),
{
    let mechanism = match read_mechanism_request(keyring, v) {
        Ok(x) => x,
        Err(e) => return Err(e),
    };
    let identifier = mechanism.identifier.clone();
    let content = mechanism.to_json();
    match store.register_verification_mechanism(mechanism, now) {
        Ok(rec) => Ok(
            Reply {
                status: 201,
                as_of: now,
                body: entered_json(identifier.as_str(), "mechanism", content, rec.seq, now),
            },
        ),
        Err(e) => Err(request::store_error(e)),
    }
}

/// `POST /verification-mechanisms`: registers a signed verification mechanism.
pub fn create_verification_mechanism(store: &mut Store, keyring: &OperatorKeyring, body: &str, now: Timestamp) -> (r:
    Result<Reply, Refusal>)
    ensures
        match request::body_of(body@) {
            Err(e) => request::answers(r, Err(e)) && final(store)@ == old(store)@,
            Ok(t) => request::answers(
                r,
                mechanism_registered(old(store)@, keyring@, t, now).0,
            ) && final(store)@ == mechanism_registered(old(store)@, keyring@, t, now).1,
        },
        store::faithful(old(store)@) ==> store::faithful(final(store)@),
{
    match request::parse_body(body) {
        Ok(v) => register_verification_mechanism(store, keyring, &v, now),
        Err(e) => Err(e),
    }
}

/// The wire forms of verification mechanisms.
pub open spec fn mechanism_trees(bs: Seq<MechanismView>) -> Seq<Tree> {
    bs.map_values(|b: MechanismView| discovery::mechanism_tree(b))
}

/// `GET /verification-mechanisms`: all verification mechanisms, in identifier order.
pub fn list_verification_mechanisms(store: &Store, now: Timestamp) -> (r: Reply)
    ensures
        r@ == (ReplyView {
            status: 200,
            as_of: now,
            body: items_api::list_tree(
                now,
                "verification_mechanisms"@,
                mechanism_trees(store::in_name_order(store@.mechanisms)),
            ),
        }),
{
    let all = store.verification_mechanisms_all();
    let mut list: Vec<Json> = Vec::new();
    let mut i: usize = 0;
    while i < all.len()
        invariant
            i <= all@.len(),
            list@.len() == i,
            forall|j: int|
                0 <= j < i ==> json::tree(#[trigger] list@[j]) == discovery::mechanism_tree(all@[j]@),
        decreases all@.len() - i,
    {
        list.push(all[i].to_json());
        i = i + 1;
    }
    assert(json::trees(list@) =~= mechanism_trees(store::mechanism_refs(all@)));
    Reply {
        status: 200,
        as_of: now,
        body: items_api::list_json(now, "verification_mechanisms", list),
    }
}

/// `GET /verification-mechanisms/{id}`: one verification mechanism.
pub fn get_verification_mechanism(store: &Store, identifier: &str, now: Timestamp) -> (r: Result<
    Reply,
    Refusal,
>)
    ensures
        request::answers(
            r,
            if store@.mechanisms.dom().contains(identifier@) {
                Ok(
                    ReplyView {
                        status: 200,
                        as_of: now,
                        body: discovery::mechanism_tree(store@.mechanisms[identifier@]),
                    },
                )
            } else {
                Err(RefusalView::NotFound("no verification mechanism `"@ + identifier@ + "`"@))
            },
        ),
{
    match store.verification_mechanism(identifier) {
        Some(b) => Ok(Reply { status: 200, as_of: now, body: b.to_json() }),
        None => Err(Refusal::NotFound(text::cat3("no verification mechanism `", identifier, "`"))),
    }
}

} // verus!
