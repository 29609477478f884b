//! What holds of every request, whichever handler answers it.

use vstd::prelude::*;
use crate::applicability_api;
use crate::discovery;
use crate::discovery::ServiceVersionView;
use crate::discovery_api;
use crate::discovery_api::Keys;
use crate::express::RunView;
use crate::items_api;
use crate::items_api::ListingView;
use crate::json;
use crate::json::Tree;
use crate::model;
use crate::model::{ItemClass, VersionView};
use crate::models_api;
use crate::models_api::ModelRequestView;
use crate::order;
use crate::request;
use crate::request::{ParamsView, RefusalView, ReplyView};
use crate::store;
use crate::store::{OpView, StoreView};
use crate::time::Timestamp;

verus! {

/// Whether a request left the state alone, or appended one numbered record
/// of the instant `now` and kept every earlier one.
pub open spec fn steps(before: StoreView, after: StoreView, now: Timestamp) -> bool {
    after == before || {
        &&& after.log.len() == before.log.len() + 1
        &&& after.log.drop_last() == before.log
        &&& after.log.last().recorded_at == now
    }
}

/// Whether a mutation is all or nothing: refused, it changes nothing; done,
/// it is in the log.
pub open spec fn atomic(
    before: StoreView,
    outcome: (Result<ReplyView, RefusalView>, StoreView),
    now: Timestamp,
) -> bool {
    &&& outcome.0 is Err ==> outcome.1 == before
    &&& steps(before, outcome.1, now)
    &&& (outcome.0 matches Ok(r) && r.status == 201) ==> outcome.1.log.len() == before.log.len() + 1
}

/// A registration, a supersession and a binding of items are all or
/// nothing, and each is one record of the audit log.
pub proof fn item_mutations_are_atomic(
    s: StoreView,
    q: ParamsView,
    identifier: Seq<char>,
    t: Tree,
    scope: Option<ItemClass>,
    now: Timestamp,
)
    ensures
        atomic(s, items_api::registered(s, t, scope, now), now),
        atomic(s, items_api::superseded(s, q, identifier, t, scope, now), now),
        atomic(s, applicability_api::bound(s, t, now), now),
{
    let a = items_api::registered(s, t, scope, now).1;
    assert(a.log.len() == s.log.len() + 1 ==> a.log.drop_last() =~= s.log);
    let b = items_api::superseded(s, q, identifier, t, scope, now).1;
    assert(b.log.len() == s.log.len() + 1 ==> b.log.drop_last() =~= s.log);
    let c = applicability_api::bound(s, t, now).1;
    assert(c.log.len() == s.log.len() + 1 ==> c.log.drop_last() =~= s.log);
}

/// The registrations of the discovery registry are all or nothing, and each
/// is one record of the audit log.
pub proof fn descriptor_mutations_are_atomic(
    s: StoreView,
    keys: Keys,
    identifier: Seq<char>,
    t: Tree,
    now: Timestamp,
)
    ensures
        atomic(s, discovery_api::service_registered(s, keys, t, now), now),
        atomic(s, discovery_api::service_superseded(s, keys, identifier, t, now), now),
        atomic(s, discovery_api::protocol_registered(s, keys, t, now), now),
        atomic(s, discovery_api::mechanism_registered(s, keys, t, now), now),
{
    let a = discovery_api::service_registered(s, keys, t, now).1;
    assert(a.log.len() == s.log.len() + 1 ==> a.log.drop_last() =~= s.log);
    let b = discovery_api::service_superseded(s, keys, identifier, t, now).1;
    assert(b.log.len() == s.log.len() + 1 ==> b.log.drop_last() =~= s.log);
    let c = discovery_api::protocol_registered(s, keys, t, now).1;
    assert(c.log.len() == s.log.len() + 1 ==> c.log.drop_last() =~= s.log);
    let d = discovery_api::mechanism_registered(s, keys, t, now).1;
    assert(d.log.len() == s.log.len() + 1 ==> d.log.drop_last() =~= s.log);
}

/// A deposit and a validation are all or nothing, and each is one record of
/// the audit log.
pub proof fn model_mutations_are_atomic(
    s: StoreView,
    req: ModelRequestView,
    identifier: Seq<char>,
    version: Seq<char>,
    run: RunView,
    now: Timestamp,
)
    ensures
        atomic(s, models_api::deposited(s, req, run, now), now),
        atomic(s, models_api::validated(s, identifier, version, run, now), now),
{
    let a = models_api::deposited(s, req, run, now).1;
    assert(a.log.len() == s.log.len() + 1 ==> a.log.drop_last() =~= s.log);
    let b = models_api::validated(s, identifier, version, run, now).1;
    assert(b.log.len() == s.log.len() + 1 ==> b.log.drop_last() =~= s.log);
}

/// Whether a version is defined as another one is: all but the status and
/// the link to the successor, which express the lifecycle.
pub open spec fn same_definition(a: VersionView, b: VersionView) -> bool {
    &&& a.version == b.version
    &&& a.effective_from == b.effective_from
    &&& a.effective_until == b.effective_until
    &&& a.registered_at == b.registered_at
    &&& a.notes == b.notes
}

/// Versions are immutable once registered, and items stay what they are:
/// no mutation that the store accepts removes one, edits a version's
/// definition or moves an item to another register or class.
pub proof fn registered_versions_are_immutable(s: StoreView, op: OpView, now: Timestamp, id: Seq<char>, i: int)
    requires
        store::conflict_of(s, op) is None,
        s.items.dom().contains(id),
        0 <= i < s.items[id].versions.len(),
    ensures
        ({
            let before = s.items[id];
            let items = store::logged(s, store::next_record(s, op, now)).items;
            let after = items[id];
            &&& items.dom().contains(id)
            &&& after.identifier == before.identifier
            &&& after.register == before.register
            &&& after.item_class == before.item_class
            &&& after.title == before.title
            &&& after.submitting_organization == before.submitting_organization
            &&& i < after.versions.len()
            &&& same_definition(after.versions[i], before.versions[i])
        }),
{
    if let OpView::SupersedeVersion { identifier, superseded_version, .. } = op {
        order::index_of_found(
            model::version_names(s.items[identifier].versions),
            superseded_version,
        );
    }
}

/// Whether a service version is signed and dated as another one is: all but
/// the status and the link to the successor.
pub open spec fn same_descriptor(a: ServiceVersionView, b: ServiceVersionView) -> bool {
    &&& a.version == b.version
    &&& a.effective_from == b.effective_from
    &&& a.effective_until == b.effective_until
    &&& a.registered_at == b.registered_at
    &&& a.body == b.body
    &&& a.signature == b.signature
}

/// Signed descriptors are immutable once registered: no mutation that the
/// store accepts removes one or edits what its operator signed.
pub proof fn registered_descriptors_are_immutable(
    s: StoreView,
    op: OpView,
    now: Timestamp,
    id: Seq<char>,
    i: int,
)
    requires
        store::conflict_of(s, op) is None,
    ensures
        ({
            let after = store::logged(s, store::next_record(s, op, now));
            &&& s.services.dom().contains(id) && 0 <= i < s.services[id].versions.len() ==> {
                &&& after.services.dom().contains(id)
                &&& i < after.services[id].versions.len()
                &&& same_descriptor(after.services[id].versions[i], s.services[id].versions[i])
            }
            &&& s.protocols.dom().contains(id) ==> after.protocols.dom().contains(id)
                && after.protocols[id] == s.protocols[id]
            &&& s.mechanisms.dom().contains(id) ==> after.mechanisms.dom().contains(id)
                && after.mechanisms[id] == s.mechanisms[id]
        }),
{
    if let OpView::SupersedeService { identifier, superseded_version, .. } = op {
        order::index_of_found(
            discovery::service_version_names(s.services[identifier].versions),
            superseded_version,
        );
    }
}

/// Bindings are kept as they are.
pub proof fn registered_bindings_are_immutable(s: StoreView, op: OpView, now: Timestamp, i: int)
    requires
        0 <= i < s.bindings.len(),
    ensures
        ({
            let after = store::logged(s, store::next_record(s, op, now));
            i < after.bindings.len() && after.bindings[i] == s.bindings[i]
        }),
{
}

/// The instant of registration is the one of the request: nothing in a body
/// can set it.
pub proof fn registration_is_stamped_by_the_server(t: Tree, scope: Option<ItemClass>, now: Timestamp)
    ensures
        items_api::item_request(t, scope, now) matches Ok(x) ==> x.0.versions.len() == 1
            && x.0.versions[0].registered_at == Some(now),
        items_api::supersede_request(t, now) matches Ok(x) ==> x.successor.registered_at == Some(now),
        applicability_api::bind_request(t, now) matches Ok(b) ==> b.registered_at == Some(now),
{
}

/// A subregister registers and serves the items of its class alone: there
/// is no item of another class in it.
pub proof fn subregisters_are_class_scoped(
    s: StoreView,
    q: ParamsView,
    identifier: Seq<char>,
    t: Tree,
    class: ItemClass,
    now: Timestamp,
)
    ensures
        items_api::item_request(t, Some(class), now) matches Ok(x) ==> x.0.item_class == class,
        s.items.dom().contains(identifier) && s.items[identifier].item_class != class ==> {
            &&& items_api::read_item(s, q, identifier, Some(class), now) is Err
            &&& request::instant_of(q) is Ok ==> items_api::read_item(
                s,
                q,
                identifier,
                Some(class),
                now,
            ) == Err::<ReplyView, RefusalView>(items_api::no_item(identifier))
            &&& items_api::superseded(s, q, identifier, t, Some(class), now).0 is Err
            &&& items_api::superseded(s, q, identifier, t, Some(class), now).1 == s
        },
{
}

/// Two mirrors of the same items serve the same dictionary text, whenever
/// they are asked: no serving metadata is in it.
pub proof fn mirrors_serve_the_same_text(
    a: StoreView,
    b: StoreView,
    q: ParamsView,
    scope: Option<ItemClass>,
    accept: Option<Seq<char>>,
    now: Timestamp,
    later: Timestamp,
)
    requires
        a.items == b.items,
    ensures
        match (
            items_api::listed(a, q, scope, accept, now),
            items_api::listed(b, q, scope, accept, later),
        ) {
            (Ok(ListingView::Cddal { text: x, .. }), Ok(ListingView::Cddal { text: y, .. })) => x == y,
            (Ok(ListingView::Json { .. }), Ok(ListingView::Json { .. })) => true,
            (Err(x), Err(y)) => x == y,
            _ => false,
        },
{
}

/// Whether a document carries the instant it is served for.
pub open spec fn stamped(r: Result<ReplyView, RefusalView>) -> bool {
    r matches Ok(x) ==> json::lookup(x.body, "as_of"@) == Some(discovery::stamp(x.as_of))
}

proof fn stamp_key_stands_apart()
    ensures
        "as_of"@ != "audit_seq"@,
        "as_of"@ != "warnings"@,
        "as_of"@ != "count"@,
        "as_of"@ != "items"@,
        "as_of"@ != "services"@,
        "as_of"@ != "models"@,
        "as_of"@ != "mappings"@,
        "as_of"@ != "query"@,
        "as_of"@ != "source"@,
        "as_of"@ != "content_hash"@,
        "as_of"@ != "validation"@,
        "as_of"@ != "product_type"@,
        "as_of"@ != "applicability"@,
        "as_of"@ != "unresolved"@,
{
    reveal_strlit("as_of");
    reveal_strlit("audit_seq");
    reveal_strlit("warnings");
    reveal_strlit("count");
    reveal_strlit("items");
    reveal_strlit("services");
    reveal_strlit("models");
    reveal_strlit("mappings");
    reveal_strlit("query");
    reveal_strlit("source");
    reveal_strlit("content_hash");
    reveal_strlit("validation");
    reveal_strlit("product_type");
    reveal_strlit("applicability");
    reveal_strlit("unresolved");
    assert("as_of"@[1] == 's' && "count"@[1] == 'o' && "items"@[1] == 't' && "query"@[1] == 'u');
}

/// The documents of the item register carry the instant they are served
/// for.
pub proof fn item_documents_are_stamped(
    s: StoreView,
    q: ParamsView,
    identifier: Seq<char>,
    t: Tree,
    scope: Option<ItemClass>,
    accept: Option<Seq<char>>,
    now: Timestamp,
)
    ensures
        stamped(items_api::registered(s, t, scope, now).0),
        stamped(items_api::read_item(s, q, identifier, scope, now)),
        stamped(items_api::superseded(s, q, identifier, t, scope, now).0),
        stamped(items_api::read_chain(s, q, identifier, scope, now)),
        items_api::listed(s, q, scope, accept, now) matches Ok(ListingView::Json { reply, .. }) ==> stamped(
            Ok(reply),
        ),
{
    stamp_key_stands_apart();
}

/// The documents of the applicability register carry the instant they are
/// served for.
pub proof fn applicability_documents_are_stamped(
    s: StoreView,
    q: ParamsView,
    facts: Option<Result<Tree, RefusalView>>,
    t: Tree,
    now: Timestamp,
)
    requires
        json::lookup(t, "subject_facts"@) is None,
    ensures
        stamped(applicability_api::queried(s, q, facts, now)),
        stamped(applicability_api::bound(s, t, now).0),
{
    stamp_key_stands_apart();
}

/// The documents of the discovery registry carry the instant they are
/// served for.
pub proof fn descriptor_documents_are_stamped(
    s: StoreView,
    keys: Keys,
    q: ParamsView,
    identifier: Seq<char>,
    t: Tree,
    now: Timestamp,
)
    ensures
        stamped(discovery_api::service_registered(s, keys, t, now).0),
        stamped(discovery_api::services_listed(s, q, now)),
        stamped(discovery_api::service_read(s, q, identifier, now)),
        stamped(discovery_api::service_superseded(s, keys, identifier, t, now).0),
        stamped(discovery_api::service_chain_read(s, q, identifier, now)),
        stamped(discovery_api::protocol_registered(s, keys, t, now).0),
        stamped(discovery_api::mechanism_registered(s, keys, t, now).0),
{
    stamp_key_stands_apart();
}

/// The documents on models and mappings carry the instant they are served
/// for.
pub proof fn model_documents_are_stamped(
    s: StoreView,
    q: ParamsView,
    req: ModelRequestView,
    identifier: Seq<char>,
    version: Seq<char>,
    run: RunView,
    now: Timestamp,
)
    ensures
        stamped(models_api::deposited(s, req, run, now).0),
        stamped(models_api::models_listed(s, q, now)),
        stamped(models_api::model_read(s, q, identifier, now)),
        stamped(models_api::validated(s, identifier, version, run, now).0),
        stamped(models_api::mappings_found(s, q, now)),
{
    stamp_key_stands_apart();
}

} // verus!
