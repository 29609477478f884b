//! What a request's own words bring about.
//!
//! Each rule reads the members of a request body one by one, and says what
//! the register holds afterwards.

use vstd::prelude::*;
use crate::applicability_api;
use crate::applicability_api::FindingView;
use crate::bridge;
use crate::clock;
use crate::clock::TimeTriggerView;
use crate::crypto;
use crate::discovery;
use crate::discovery::{ServiceClass, ServiceStatus, ServiceVersionView, ServiceView, SignatureView};
use crate::discovery_api;
use crate::discovery_api::Keys;
use crate::express;
use crate::express::{RunView, ValidationStatus};
use crate::intake;
use crate::items_api;
use crate::items_api::ListingView;
use crate::json;
use crate::json::Tree;
use crate::manifest;
use crate::mapping;
use crate::model;
use crate::model::{BindingView, ItemClass, ItemView, Status, VersionView};
use crate::models_api;
use crate::models_api::ModelRequestView;
use crate::order;
use crate::request;
use crate::request::{ParamsView, RefusalView};
use crate::satisfiability;
use crate::schema;
use crate::store;
use crate::store::{OpView, StoreView};
use crate::table;
use crate::text;
use crate::time;
use crate::time::Timestamp;

verus! {

/// The body holds the value under the name.
pub open spec fn holds(t: Tree, key: Seq<char>, value: Tree) -> bool {
    t matches Tree::Obj(m) && m.dom().contains(key) && m[key] == value
}

/// The body holds nothing under the name, or `null`.
pub open spec fn omits(t: Tree, key: Seq<char>) -> bool {
    t matches Tree::Obj(m) ==> !m.dom().contains(key) || m[key] == Tree::Null
}

/// The body holds the word under the name, with or without white space
/// around it, and the word is not blank.
pub open spec fn words(t: Tree, key: Seq<char>, word: Seq<char>) -> bool {
    &&& t matches Tree::Obj(m)
    &&& m.dom().contains(key)
    &&& m[key] matches Tree::Str(raw)
    &&& text::trimmed(raw) == word
    &&& word.len() > 0
}

/// The body gives the instant under the name.
pub open spec fn dates(t: Tree, key: Seq<char>, at: Timestamp) -> bool {
    &&& t matches Tree::Obj(m)
    &&& m.dom().contains(key)
    &&& m[key] matches Tree::Str(raw)
    &&& time::parsed(raw) == Some(at.secs as int)
}

/// A word that may stand in a path: at most 256 characters, no slash and no
/// white space.
pub open spec fn fits_a_path(word: Seq<char>) -> bool {
    &&& word.len() <= 256
    &&& forall|i: int| 0 <= i < word.len() ==> #[trigger] word[i] != '/' && word[i] != ' '
}

/// A version as a body words it: its number, valid, from the instant given
/// or now on, until the one given or open, and registered now.
pub open spec fn worded_version(v: VersionView, t: Tree, now: Timestamp) -> bool {
    &&& words(t, "version"@, v.version)
    &&& fits_a_path(v.version)
    &&& v.status == Status::Valid
    &&& match v.effective_from {
        Some(from) => dates(t, "effective_from"@, from) || (omits(t, "effective_from"@) && from == now),
        None => false,
    }
    &&& match v.effective_until {
        Some(until) => dates(t, "effective_until"@, until) && v.effective_from->Some_0.secs < until.secs,
        None => omits(t, "effective_until"@),
    }
    &&& v.registered_at == Some(now)
    &&& v.superseded_by_version is None
}

/// Nothing but the items differs, and one numbered record is added.
pub open spec fn only_items_change(before: StoreView, after: StoreView, now: Timestamp) -> bool {
    &&& after.bindings == before.bindings
    &&& after.next_binding_id == before.next_binding_id
    &&& after.services == before.services
    &&& after.protocols == before.protocols
    &&& after.mechanisms == before.mechanisms
    &&& after.log.len() == before.log.len() + 1
    &&& after.log.last().recorded_at == now
    &&& before.log.len() < u64::MAX ==> after.log.last().seq == before.log.len() + 1
}

/// A registration adds the item that its body words, under a name that was
/// free, and nothing else: every other item stays as it was.
#[verifier::spinoff_prover]
pub proof fn registration_takes_the_body_at_its_word(
    s: StoreView,
    t: Tree,
    scope: Option<ItemClass>,
    now: Timestamp,
)
    ensures
        items_api::registered(s, t, scope, now).0 is Ok ==> {
            let after = items_api::registered(s, t, scope, now).1;
            &&& only_items_change(s, after, now)
            &&& after.log.last().op matches OpView::RegisterItem { item }
            &&& words(t, "item_id"@, item.identifier)
            &&& fits_a_path(item.identifier)
            &&& !s.items.dom().contains(item.identifier)
            &&& after.items == s.items.insert(item.identifier, item)
            &&& words(t, "register_id"@, item.register)
            &&& item.item_class != ItemClass::Model
            &&& scope matches Some(c) ==> item.item_class == c
            &&& scope is None ==> !omits(t, "class"@)
            &&& !omits(t, "class"@) ==> (t->Obj_0["class"@] matches Tree::Str(c)
                && model::parsed_class(c) == Some(item.item_class))
            &&& words(
                t,
                if t->Obj_0.dom().contains("definition"@) {
                    "definition"@
                } else {
                    "title"@
                },
                item.title,
            )
            &&& match item.submitting_organization {
                Some(o) => words(t, "submitting_organization"@, o),
                None => omits(t, "submitting_organization"@),
            }
            &&& item.versions.len() == 1
            &&& worded_version(item.versions[0], t, now)
            &&& item.versions[0].notes is None
            &&& omits(t, "status"@) || words(t, "status"@, "valid"@)
            &&& match item.manifest {
                Some(x) => x is Obj && holds(t, "manifest"@, x) && holds(
                    x,
                    "version"@,
                    Tree::Str(item.versions[0].version),
                ),
                None => omits(t, "manifest"@),
            }
        },
{
    reveal_strlit("valid");
    if let Ok((item, _)) = items_api::item_request(t, scope, now) {
        if let Tree::Obj(m) = t {
            if m.dom().contains("effective_from"@) {
                if let Tree::Str(raw) = m["effective_from"@] {
                    time::parsed_instants_fit(raw);
                }
            }
            if m.dom().contains("effective_until"@) {
                if let Tree::Str(raw) = m["effective_until"@] {
                    time::parsed_instants_fit(raw);
                }
            }
        }
        if let Some(x) = item.manifest {
            if let Some(n) = json::get_str(x, "version"@) {
                model::found_version(item.versions, n);
                let names = model::version_names(item.versions);
                assert(names.contains(n));
                assert(names[0] == item.versions[0].version);
            }
        }
    }
}

/// The dates of a body: it starts at the instant given, or now where none is
/// given, and ends later or stays open.
pub open spec fn timely(t: Tree, from: Timestamp, until: Option<Timestamp>, now: Timestamp) -> bool {
    &&& dates(t, "effective_from"@, from) || (omits(t, "effective_from"@) && from == now)
    &&& match until {
        Some(u) => dates(t, "effective_until"@, u) && from.secs < u.secs,
        None => omits(t, "effective_until"@),
    }
}

/// A word without a slash or white space, of at most 256 characters.
pub open spec fn segment(word: Seq<char>) -> bool {
    &&& word.len() <= 256
    &&& forall|i: int| 0 <= i < word.len() ==> #[trigger] word[i] != '/' && !text::is_space(word[i])
}

/// A body that dates its version has a window.
proof fn timely_bodies_have_a_window(t: Tree, from: Timestamp, until: Option<Timestamp>, now: Timestamp)
    requires
        timely(t, from, until, now),
    ensures
        request::window_of(t, now) == Ok::<(Timestamp, Option<Timestamp>), RefusalView>((from, until)),
{
}

/// A registration that fills every required member with words that fit,
/// dates nothing backwards, pins its manifest to its version and names a
/// free identifier is accepted: no member that it leaves out is missed, and
/// none that it gives in due form is held against it. Of the checks only
/// those on profiles and mappings can refuse it.
#[verifier::spinoff_prover]
#[verifier::rlimit(40)]
pub proof fn due_registrations_are_accepted(
    s: StoreView,
    t: Tree,
    scope: Option<ItemClass>,
    c: ItemClass,
    identifier: Seq<char>,
    register: Seq<char>,
    title: Seq<char>,
    organization: Seq<char>,
    version: Seq<char>,
    strict: bool,
    from: Timestamp,
    until: Option<Timestamp>,
    x: Tree,
    now: Timestamp,
)
    requires
        c != ItemClass::Model && c != ItemClass::CrossRegisterMapping,
        (scope == Some(c) && omits(t, "class"@)) || ((scope == Some(c) || scope is None) && (
        t matches Tree::Obj(m) && m.dom().contains("class"@) && (m["class"@] matches Tree::Str(n)
            && model::parsed_class(n) == Some(c)))),
        words(t, "item_id"@, identifier) && segment(identifier),
        words(t, "register_id"@, register),
        words(t, "definition"@, title) || (words(t, "title"@, title) && !t->Obj_0.dom().contains(
            "definition"@,
        )),
        words(t, "version"@, version) && segment(version),
        omits(t, "submitting_organization"@) || words(t, "submitting_organization"@, organization),
        omits(t, "status"@) || words(t, "status"@, "valid"@),
        omits(t, "strict"@) || holds(t, "strict"@, Tree::Bool(strict)),
        timely(t, from, until, now),
        omits(t, "manifest"@) || (holds(t, "manifest"@, x) && x is Obj && holds(
            x,
            "version"@,
            Tree::Str(version),
        )),
        c == ItemClass::Profile ==> omits(t, "manifest"@) || (schema::violations(
            manifest::profile_schema(),
            x,
        ).len() == 0 && (manifest::parsed_manifest(x) matches Ok(p) && satisfiability::violations(p).len()
            == 0)),
    ensures
        match items_api::registered(s, t, scope, now).0 {
            Ok(r) => r.status == 201 && !s.items.dom().contains(identifier),
            Err(e) => e is Conflict && s.items.dom().contains(identifier),
        },
{
    timely_bodies_have_a_window(t, from, until, now);
    let v = items_api::new_version(version, (from, until), now, None);
    let vs = seq![v];
    model::first_version_of_a_number(vs, 0);
    assert(vs[0].version == version);
    assert(model::find_version(vs, version) is Some);
    assert(request::is_token(identifier) && request::is_token(version));
    assert(items_api::item_request(t, scope, now) is Ok);
}

/// A supersession that names a free number and a reason, starts no earlier
/// than the valid version it supersedes and dates nothing backwards is
/// accepted, where no check governs the class and the manifest stays.
#[verifier::spinoff_prover]
#[verifier::rlimit(40)]
pub proof fn due_supersessions_are_accepted(
    s: StoreView,
    q: ParamsView,
    identifier: Seq<char>,
    t: Tree,
    now: Timestamp,
    version: Seq<char>,
    reason: Seq<char>,
    from: Timestamp,
    until: Option<Timestamp>,
    strict: bool,
    i: int,
)
    requires
        s.items.dom().contains(identifier),
        narrows(q, s.items[identifier]),
        s.items[identifier].item_class != ItemClass::Profile,
        s.items[identifier].item_class != ItemClass::CrossRegisterMapping,
        words(t, "version"@, version) && segment(version),
        words(t, "reason"@, reason),
        timely(t, from, until, now),
        omits(t, "strict"@) || holds(t, "strict"@, Tree::Bool(strict)),
        omits(t, "manifest"@),
        forall|k: int|
            0 <= k < s.items[identifier].versions.len() ==> (
            #[trigger] s.items[identifier].versions[k]).version != version,
        0 <= i < s.items[identifier].versions.len(),
        forall|k: int|
            0 <= k < i ==> (#[trigger] s.items[identifier].versions[k]).version
                != s.items[identifier].versions[i].version,
        s.items[identifier].versions[i].status == Status::Valid,
        s.items[identifier].versions[i].effective_from matches Some(f) ==> f.secs <= from.secs,
        words(t, "supersede_version"@, s.items[identifier].versions[i].version) || (omits(
            t,
            "supersede_version"@,
        ) && model::current(s.items[identifier].versions) == Some(s.items[identifier].versions[i])),
    ensures
        items_api::superseded(s, q, identifier, t, None, now).0 matches Ok(r) && r.status == 201,
        items_api::superseded(
            s,
            q,
            identifier,
            t,
            Some(s.items[identifier].item_class),
            now,
        ).0 is Ok,
{
    let vs = s.items[identifier].versions;
    timely_bodies_have_a_window(t, from, until, now);
    model::unknown_number_finds_nothing(vs, version);
    model::first_version_of_a_number(vs, i);
    assert(request::is_token(version));
    assert(items_api::supersede_request(t, now) is Ok);
}

/// A binding of a product type to a registered profile, with dates that run
/// forward and a version that the profile has, is accepted as long as there
/// are numbers left.
#[verifier::spinoff_prover]
pub proof fn due_bindings_are_accepted(
    s: StoreView,
    t: Tree,
    now: Timestamp,
    profile: Seq<char>,
    subject: Seq<char>,
    register: Seq<char>,
    version: Seq<char>,
    from: Timestamp,
    until: Option<Timestamp>,
    retroactive: bool,
    i: int,
)
    requires
        t matches Tree::Obj(m) && !m.dom().contains("subject_facts"@),
        words(t, "profile_id"@, profile) && segment(profile),
        s.items.dom().contains(profile),
        s.items[profile].item_class == ItemClass::Profile,
        words(t, "product_type"@, subject) || (words(t, "subject"@, subject) && !t->Obj_0.dom().contains(
            "product_type"@,
        )),
        omits(t, "register"@) || words(t, "register"@, register),
        omits(t, "profile_version"@) || (words(t, "profile_version"@, version) && 0 <= i
            < s.items[profile].versions.len() && s.items[profile].versions[i].version == version),
        timely(t, from, until, now),
        omits(t, "retroactive"@) || holds(t, "retroactive"@, Tree::Bool(retroactive)),
        s.next_binding_id < u64::MAX,
    ensures
        applicability_api::bound(s, t, now).0 matches Ok(r) && r.status == 201,
{
    timely_bodies_have_a_window(t, from, until, now);
    let vs = s.items[profile].versions;
    if !omits(t, "profile_version"@) {
        let names = model::version_names(vs);
        order::index_of_found(names, version);
        assert(names[i] == version);
        assert(names.contains(version));
    }
    assert(request::is_token(profile));
    assert(applicability_api::bind_request(t, now) is Ok);
}

/// A deposit that fills every required member is read.
pub proof fn due_deposits_are_read(
    t: Tree,
    now: Timestamp,
    identifier: Seq<char>,
    register: Seq<char>,
    title: Seq<char>,
    organization: Seq<char>,
    version: Seq<char>,
    source: Seq<char>,
    from: Timestamp,
    until: Option<Timestamp>,
)
    requires
        words(t, "item_id"@, identifier) && segment(identifier),
        words(t, "register_id"@, register),
        words(t, "definition"@, title) || (words(t, "title"@, title) && !t->Obj_0.dom().contains(
            "definition"@,
        )),
        omits(t, "submitting_organization"@) || words(t, "submitting_organization"@, organization),
        words(t, "version"@, version) && segment(version),
        holds(t, "source"@, Tree::Str(source)) && text::trimmed(source).len() > 0,
        timely(t, from, until, now),
    ensures
        models_api::model_request(t, now) is Ok,
{
    timely_bodies_have_a_window(t, from, until, now);
    assert(request::is_token(identifier) && request::is_token(version));
}

/// A supersession appends the version that its body words as the last one,
/// marks the version it supersedes and links it to the new one, and keeps
/// every other version, item and date.
#[verifier::spinoff_prover]
#[verifier::rlimit(40)]
pub proof fn supersession_takes_the_body_at_its_word(
    s: StoreView,
    q: ParamsView,
    identifier: Seq<char>,
    t: Tree,
    scope: Option<ItemClass>,
    now: Timestamp,
)
    ensures
        items_api::superseded(s, q, identifier, t, scope, now).0 is Ok ==> {
            let after = items_api::superseded(s, q, identifier, t, scope, now).1;
            let old = s.items[identifier];
            let item = after.items[identifier];
            let new = item.versions.last();
            let n = old.versions.len();
            &&& only_items_change(s, after, now)
            &&& s.items.dom().contains(identifier)
            &&& after.items == s.items.insert(identifier, item)
            &&& scope matches Some(c) ==> old.item_class == c
            &&& item.versions.len() == n + 1
            &&& worded_version(new, t, now)
            &&& new.notes matches Some(reason) && words(t, "reason"@, reason)
            &&& forall|k: int|
                0 <= k < n ==> (#[trigger] old.versions[k]).version != new.version
            &&& ItemView { versions: old.versions, manifest: old.manifest, ..item } == old
            &&& match item.manifest {
                Some(x) => holds(t, "manifest"@, x) || (omits(t, "manifest"@) && old.manifest == Some(x)),
                None => omits(t, "manifest"@) && old.manifest is None,
            }
            &&& exists|i: int|
                {
                    &&& 0 <= i < n
                    &&& #[trigger] old.versions[i].status == Status::Valid
                    &&& (words(t, "supersede_version"@, old.versions[i].version) || (omits(
                        t,
                        "supersede_version"@,
                    ) && (model::current(old.versions) matches Some(c) && c.version
                        == old.versions[i].version)))
                    &&& item.versions[i] == VersionView {
                        status: Status::Superseded,
                        superseded_by_version: Some(new.version),
                        ..old.versions[i]
                    }
                    &&& old.versions[i].effective_from matches Some(f) ==> f.secs
                        <= new.effective_from->Some_0.secs
                    &&& forall|k: int|
                        0 <= k < n && k != i ==> #[trigger] item.versions[k] == old.versions[k]
                }
        },
{
    if items_api::superseded(s, q, identifier, t, scope, now).0 is Ok {
        let m = t->Obj_0;
        if m.dom().contains("effective_from"@) {
            if let Tree::Str(raw) = m["effective_from"@] {
                time::parsed_instants_fit(raw);
            }
        }
        if m.dom().contains("effective_until"@) {
            if let Tree::Str(raw) = m["effective_until"@] {
                time::parsed_instants_fit(raw);
            }
        }
        let after = items_api::superseded(s, q, identifier, t, scope, now).1;
        let req = items_api::supersede_request(t, now)->Ok_0;
        let old = s.items[identifier];
        let target = items_api::supersede_target(t, old, identifier)->Ok_0;
        let i = model::version_index(old.versions, target);
        order::index_of_found(model::version_names(old.versions), target);
        order::index_of_found(model::version_names(old.versions), req.successor.version);
        store::supersession_keeps_versions(old.versions, target, req.successor);
        let item = after.items[identifier];
        assert(item.versions == store::superseded_versions(old.versions, target, req.successor));
        assert(old.versions[i].version == target);
        assert forall|k: int| 0 <= k < old.versions.len() implies (
        #[trigger] old.versions[k]).version != item.versions.last().version by {
            assert(model::version_names(old.versions)[k] == old.versions[k].version);
        }
        assert(old.versions[i].status == Status::Valid);
    }
}

/// The members of a view have different names.
proof fn view_names_differ()
    ensures
        "identifier"@ != "register"@,
        "identifier"@ != "item_class"@,
        "identifier"@ != "title"@,
        "identifier"@ != "submitting_organization"@,
        "identifier"@ != "versions"@,
        "identifier"@ != "manifest"@,
        "identifier"@ != "version"@,
        "identifier"@ != "as_of"@,
        "identifier"@ != "audit_seq"@,
        "identifier"@ != "warnings"@,
        "register"@ != "item_class"@,
        "register"@ != "title"@,
        "register"@ != "submitting_organization"@,
        "register"@ != "versions"@,
        "register"@ != "manifest"@,
        "register"@ != "version"@,
        "register"@ != "as_of"@,
        "register"@ != "audit_seq"@,
        "register"@ != "warnings"@,
        "item_class"@ != "title"@,
        "item_class"@ != "submitting_organization"@,
        "item_class"@ != "versions"@,
        "item_class"@ != "manifest"@,
        "item_class"@ != "version"@,
        "item_class"@ != "as_of"@,
        "item_class"@ != "audit_seq"@,
        "item_class"@ != "warnings"@,
        "title"@ != "submitting_organization"@,
        "title"@ != "versions"@,
        "title"@ != "manifest"@,
        "title"@ != "version"@,
        "title"@ != "as_of"@,
        "title"@ != "audit_seq"@,
        "title"@ != "warnings"@,
        "submitting_organization"@ != "versions"@,
        "submitting_organization"@ != "manifest"@,
        "submitting_organization"@ != "version"@,
        "submitting_organization"@ != "as_of"@,
        "submitting_organization"@ != "audit_seq"@,
        "submitting_organization"@ != "warnings"@,
        "versions"@ != "manifest"@,
        "versions"@ != "version"@,
        "versions"@ != "as_of"@,
        "versions"@ != "audit_seq"@,
        "versions"@ != "warnings"@,
        "manifest"@ != "version"@,
        "manifest"@ != "as_of"@,
        "manifest"@ != "audit_seq"@,
        "manifest"@ != "warnings"@,
        "version"@ != "as_of"@,
        "version"@ != "audit_seq"@,
        "version"@ != "warnings"@,
        "as_of"@ != "audit_seq"@,
        "as_of"@ != "warnings"@,
        "audit_seq"@ != "warnings"@,
{
    reveal_strlit("identifier");
    reveal_strlit("register");
    reveal_strlit("item_class");
    reveal_strlit("title");
    reveal_strlit("submitting_organization");
    reveal_strlit("versions");
    reveal_strlit("manifest");
    reveal_strlit("version");
    reveal_strlit("as_of");
    reveal_strlit("audit_seq");
    reveal_strlit("warnings");
    assert("identifier"@.len() != "register"@.len());
    assert("identifier"@[1] != "item_class"@[1]);
    assert("identifier"@.len() != "title"@.len());
    assert("identifier"@.len() != "submitting_organization"@.len());
    assert("identifier"@.len() != "versions"@.len());
    assert("identifier"@.len() != "manifest"@.len());
    assert("identifier"@.len() != "version"@.len());
    assert("identifier"@.len() != "as_of"@.len());
    assert("identifier"@.len() != "audit_seq"@.len());
    assert("identifier"@.len() != "warnings"@.len());
    assert("register"@.len() != "item_class"@.len());
    assert("register"@.len() != "title"@.len());
    assert("register"@.len() != "submitting_organization"@.len());
    assert("register"@[0] != "versions"@[0]);
    assert("register"@[0] != "manifest"@[0]);
    assert("register"@.len() != "version"@.len());
    assert("register"@.len() != "as_of"@.len());
    assert("register"@.len() != "audit_seq"@.len());
    assert("register"@[0] != "warnings"@[0]);
    assert("item_class"@.len() != "title"@.len());
    assert("item_class"@.len() != "submitting_organization"@.len());
    assert("item_class"@.len() != "versions"@.len());
    assert("item_class"@.len() != "manifest"@.len());
    assert("item_class"@.len() != "version"@.len());
    assert("item_class"@.len() != "as_of"@.len());
    assert("item_class"@.len() != "audit_seq"@.len());
    assert("item_class"@.len() != "warnings"@.len());
    assert("title"@.len() != "submitting_organization"@.len());
    assert("title"@.len() != "versions"@.len());
    assert("title"@.len() != "manifest"@.len());
    assert("title"@.len() != "version"@.len());
    assert("title"@[0] != "as_of"@[0]);
    assert("title"@.len() != "audit_seq"@.len());
    assert("title"@.len() != "warnings"@.len());
    assert("submitting_organization"@.len() != "versions"@.len());
    assert("submitting_organization"@.len() != "manifest"@.len());
    assert("submitting_organization"@.len() != "version"@.len());
    assert("submitting_organization"@.len() != "as_of"@.len());
    assert("submitting_organization"@.len() != "audit_seq"@.len());
    assert("submitting_organization"@.len() != "warnings"@.len());
    assert("versions"@[0] != "manifest"@[0]);
    assert("versions"@.len() != "version"@.len());
    assert("versions"@.len() != "as_of"@.len());
    assert("versions"@.len() != "audit_seq"@.len());
    assert("versions"@[0] != "warnings"@[0]);
    assert("manifest"@.len() != "version"@.len());
    assert("manifest"@.len() != "as_of"@.len());
    assert("manifest"@.len() != "audit_seq"@.len());
    assert("manifest"@[0] != "warnings"@[0]);
    assert("version"@.len() != "as_of"@.len());
    assert("version"@.len() != "audit_seq"@.len());
    assert("version"@.len() != "warnings"@.len());
    assert("as_of"@.len() != "audit_seq"@.len());
    assert("as_of"@.len() != "warnings"@.len());
    assert("audit_seq"@.len() != "warnings"@.len());
}


/// The instant that a request asks for: the text of `at`, or of `asof`
/// where there is no `at`; an empty text asks for none.
pub open spec fn asks(q: ParamsView) -> Option<Seq<char>> {
    let raw = if q.dom().contains("at"@) {
        q["at"@]
    } else if q.dom().contains("asof"@) {
        q["asof"@]
    } else {
        Seq::empty()
    };
    if raw.len() > 0 {
        Some(raw)
    } else {
        None
    }
}

/// The version served: the one in force at the instant asked for, or, where
/// none is asked for, the current one.
pub open spec fn served(item: ItemView, q: ParamsView, as_of: Timestamp) -> Tree {
    let v = if asks(q) is Some {
        model::in_force(item.versions, as_of)
    } else {
        model::current(item.versions)
    };
    match v {
        Some(x) => model::version_tree(x, model::window_end(item.versions, x)),
        None => Tree::Null,
    }
}

/// An answer is dated with the instant asked for, or now.
pub open spec fn dated(q: ParamsView, as_of: Timestamp, now: Timestamp) -> bool {
    match asks(q) {
        Some(raw) => time::parsed(raw) == Some(as_of.secs as int),
        None => as_of == now,
    }
}

/// The register that a request narrows its search to.
pub open spec fn narrows(q: ParamsView, item: ItemView) -> bool {
    q.dom().contains("register"@) && text::trimmed(q["register"@]).len() > 0 ==> item.register
        == text::trimmed(q["register"@])
}

/// The reading of an item serves that item, from the subregister and the
/// register asked for, dated with the instant asked for and with the
/// version in force then. Nothing else is served, and nothing that is
/// there is withheld.
#[verifier::spinoff_prover]
pub proof fn readings_serve_the_instant_asked_for(
    s: StoreView,
    q: ParamsView,
    identifier: Seq<char>,
    scope: Option<ItemClass>,
    now: Timestamp,
)
    ensures
        ({
            let item = s.items[identifier];
            let there = s.items.dom().contains(identifier) && (scope matches Some(c)
                ==> item.item_class == c) && narrows(q, item);
            let sound = asks(q) matches Some(raw) ==> time::parsed(raw) is Some;
            match items_api::read_item(s, q, identifier, scope, now) {
                Ok(r) => {
                    &&& there && sound
                    &&& r.status == 200
                    &&& dated(q, r.as_of, now)
                    &&& holds(r.body, "identifier"@, Tree::Str(item.identifier))
                    &&& holds(r.body, "register"@, Tree::Str(item.register))
                    &&& holds(r.body, "item_class"@, Tree::Str(model::class_name(item.item_class)))
                    &&& holds(r.body, "title"@, Tree::Str(item.title))
                    &&& item.manifest matches Some(x) ==> holds(r.body, "manifest"@, x)
                    &&& holds(r.body, "version"@, served(item, q, r.as_of))
                    &&& holds(r.body, "as_of"@, Tree::Str(time::stamp_text(r.as_of.secs as int)))
                },
                Err(RefusalView::NotFound(_)) => sound && !there,
                Err(RefusalView::BadRequest(_)) => !sound,
                Err(_) => false,
            }
        }),
{
    if let Some(raw) = asks(q) {
        time::parsed_instants_fit(raw);
    }
    view_names_differ();
    if let Ok(r) = items_api::read_item(s, q, identifier, scope, now) {
        model::items_are_shown_by_name(s.items[identifier]);
    }
}

/// A listing holds the items of the class and the register asked for, all
/// of them and no others, and counts them.
#[verifier::spinoff_prover]
pub proof fn listings_hold_what_is_asked_for(
    s: StoreView,
    q: ParamsView,
    scope: Option<ItemClass>,
    accept: Option<Seq<char>>,
    now: Timestamp,
    k: Seq<char>,
)
    requires
        s.items.dom().finite(),
    ensures
        ({
            let wanted = |i: ItemView|
                {
                    &&& scope matches Some(c) ==> i.item_class == c
                    &&& scope is None && q.dom().contains("class"@) && text::trimmed(q["class"@]).len()
                        > 0 ==> model::parsed_class(text::trimmed(q["class"@])) == Some(i.item_class)
                    &&& narrows(q, i)
                };
            match items_api::listing_request(s, q, scope) {
                Ok((at, items)) => {
                    &&& match at {
                        Some(t) => asks(q) matches Some(raw) && time::parsed(raw) == Some(t.secs as int),
                        None => asks(q) is None,
                    }
                    &&& forall|j: int|
                        0 <= j < items.len() ==> wanted(#[trigger] items[j]) && exists|n: Seq<char>|
                            s.items.dom().contains(n) && s.items[n] == items[j]
                    &&& s.items.dom().contains(k) && wanted(s.items[k]) ==> items.contains(s.items[k])
                },
                Err(_) => true,
            }
        }),
        items_api::listed(s, q, scope, accept, now) matches Ok(ListingView::Json { reply, fallback })
            ==> reply.status == 200 && dated(q, reply.as_of, now) && holds(
            reply.body,
            "as_of"@,
            Tree::Str(time::stamp_text(reply.as_of.secs as int)),
        ) && (reply.body matches Tree::Obj(m) && m.dom().contains("items"@) && (
        m["items"@] matches Tree::Arr(a) && m.dom().contains("count"@) && m["count"@] == Tree::Int(
            a.len() as int,
        ))),
{
    if let Some(raw) = asks(q) {
        time::parsed_instants_fit(raw);
    }
    if let Ok((at, items)) = items_api::listing_request(s, q, scope) {
        let class = match scope {
            Some(c) => Some(c),
            None => match request::parameter(q, "class"@) {
                None => None,
                Some(n) => model::parsed_class(n),
            },
        };
        let register = request::parameter(q, "register"@);
        store::items_matching_selects(s, class, register);
        let p = |i: ItemView| store::item_matches(i, class, register);
        let names = choose|names: Seq<Seq<char>>| #[trigger] table::names_where(s.items, p, names) && items
            == names.map_values(|n: Seq<char>| s.items[n]);
        assert forall|j: int| 0 <= j < items.len() implies (exists|n: Seq<char>|
            s.items.dom().contains(n) && s.items[n] == #[trigger] items[j]) && p(items[j]) by {
            assert(names.contains(names[j]));
            assert(s.items.dom().contains(names[j]) && s.items[names[j]] == items[j]);
        }
        if s.items.dom().contains(k) && p(s.items[k]) {
            assert(names.contains(k));
            let j = names.index_of(k);
            assert(items[j] == s.items[k]);
        }
    }
    reveal_strlit("items");
    reveal_strlit("count");
    reveal_strlit("as_of");
    assert("items"@[0] == 'i' && "count"@[0] == 'c' && "as_of"@[0] == 'a');
}

/// A binding that is accepted is the one its body words: its subject is a
/// product type, its profile a registered profile, its dates the ones given
/// or now on, and it looks back only where it says so. It takes the next
/// number, and nothing else changes.
#[verifier::spinoff_prover]
pub proof fn bindings_take_the_body_at_its_word(s: StoreView, t: Tree, now: Timestamp)
    requires
        !(t matches Tree::Obj(m) && m.dom().contains("subject_facts"@)),
    ensures
        applicability_api::bound(s, t, now).0 is Ok ==> {
            let after = applicability_api::bound(s, t, now).1;
            let b = after.bindings.last();
            &&& after.bindings == s.bindings.push(b)
            &&& after.items == s.items && after.services == s.services && after.protocols == s.protocols
                && after.mechanisms == s.mechanisms
            &&& after.log.len() == s.log.len() + 1
            &&& after.log.last().op == OpView::BindApplicability { binding: b }
            &&& after.log.last().recorded_at == now
            &&& b.id == s.next_binding_id
            &&& after.next_binding_id == s.next_binding_id + 1
            &&& words(t, "profile_id"@, b.profile_item)
            &&& s.items.dom().contains(b.profile_item)
            &&& s.items[b.profile_item].item_class == ItemClass::Profile
            &&& words(
                t,
                if t->Obj_0.dom().contains("product_type"@) {
                    "product_type"@
                } else {
                    "subject"@
                },
                b.subject,
            )
            &&& match b.register {
                Some(r) => words(t, "register"@, r),
                None => omits(t, "register"@),
            }
            &&& match b.profile_version {
                Some(n) => words(t, "profile_version"@, n) && exists|i: int|
                    0 <= i < s.items[b.profile_item].versions.len() && (
                    #[trigger] s.items[b.profile_item].versions[i]).version == n,
                None => omits(t, "profile_version"@),
            }
            &&& match b.effective_from {
                Some(from) => dates(t, "effective_from"@, from) || (omits(t, "effective_from"@) && from
                    == now),
                None => false,
            }
            &&& match b.effective_until {
                Some(until) => dates(t, "effective_until"@, until) && b.effective_from->Some_0.secs
                    < until.secs,
                None => omits(t, "effective_until"@),
            }
            &&& b.registered_at == Some(now)
            &&& b.retroactive <==> holds(t, "retroactive"@, Tree::Bool(true))
            &&& !b.retroactive ==> omits(t, "retroactive"@) || holds(
                t,
                "retroactive"@,
                Tree::Bool(false),
            )
        },
{
    if applicability_api::bound(s, t, now).0 is Ok {
        let m = t->Obj_0;
        if m.dom().contains("effective_from"@) {
            if let Tree::Str(raw) = m["effective_from"@] {
                time::parsed_instants_fit(raw);
            }
        }
        if m.dom().contains("effective_until"@) {
            if let Tree::Str(raw) = m["effective_until"@] {
                time::parsed_instants_fit(raw);
            }
        }
        let b = applicability_api::bind_request(t, now)->Ok_0;
        let after = applicability_api::bound(s, t, now).1;
        assert(after.bindings.last() == (BindingView { id: s.next_binding_id, ..b }));
        if let Some(n) = b.profile_version {
            let vs = s.items[b.profile_item].versions;
            order::index_of_found(model::version_names(vs), n);
            let i = model::version_index(vs, n);
            assert(vs[i].version == n);
        }
    }
}

/// A body that carries facts is an evaluation: it never changes the
/// register.
pub proof fn evaluations_change_nothing(s: StoreView, t: Tree, now: Timestamp)
    requires
        t matches Tree::Obj(m) && m.dom().contains("subject_facts"@),
    ensures
        applicability_api::bound(s, t, now).1 == s,
        applicability_api::bound(s, t, now).0 matches Ok(r) ==> r.status == 200 && !(
        t->Obj_0.dom().contains("profile_id"@)) && t->Obj_0["subject_facts"@] is Obj,
{
}

/// What one binding adds: nothing outside its dates; its profile, where the
/// profile waits for nothing; its profile on given facts exactly when every
/// trigger is satisfied on them; and without facts it stays unresolved.
#[verifier::spinoff_prover]
pub proof fn bindings_add_what_their_triggers_allow(
    s: StoreView,
    b: BindingView,
    at: Option<Timestamp>,
    as_of: Timestamp,
    facts: Option<Tree>,
    ts: Seq<(int, TimeTriggerView)>,
)
    requires
        s.items.dom().contains(b.profile_item),
        ts == (match s.items[b.profile_item].manifest {
            Some(m) => clock::manifest_triggers(m)->Ok_0,
            None => Seq::empty(),
        }),
    ensures
        ({
            let running = (b.effective_from matches Some(f) ==> f.secs <= as_of.secs) && (
            b.effective_until matches Some(u) ==> as_of.secs < u.secs) && (b.retroactive || (
            b.registered_at matches Some(r) ==> r.secs <= as_of.secs));
            let sound = s.items[b.profile_item].manifest matches Some(m) ==> clock::manifest_triggers(
                m,
            ) is Ok;
            let met = |f: Tree|
                forall|k: int|
                    0 <= k < ts.len() ==> (clock::evaluated(
                        (#[trigger] ts[k]).1,
                        f,
                        as_of.secs as int,
                    ) matches Ok(e) && e.satisfied);
            match applicability_api::finding(s, b, at, as_of, facts) {
                Ok(FindingView::Applies(t)) => {
                    &&& running && sound
                    &&& ts.len() > 0 ==> (facts matches Some(f) && met(f))
                    &&& holds(t, "binding"@, model::binding_tree(b))
                    &&& holds(
                        t,
                        "profile"@,
                        Tree::Obj(items_api::summary_members(s.items[b.profile_item], at)),
                    )
                },
                Ok(FindingView::Unresolved(t)) => {
                    &&& running && sound
                    &&& ts.len() > 0 && facts is None
                    &&& holds(t, "binding"@, model::binding_tree(b))
                    &&& holds(t, "profile_item"@, Tree::Str(b.profile_item))
                },
                Ok(FindingView::Silent) => !running || (sound && ts.len() > 0 && (
                facts matches Some(f) && !met(f))),
                Err(_) => running && !sound,
            }
        }),
{
    reveal(applicability_api::finding);
    reveal_strlit("binding");
    reveal_strlit("profile");
    reveal_strlit("profile_item");
    reveal_strlit("reason");
    reveal_strlit("time_triggers");
    assert("binding"@.len() == 7 && "profile"@.len() == 7 && "profile_item"@.len() == 12);
    assert("reason"@.len() == 6 && "time_triggers"@.len() == 13);
    assert("binding"@[0] != "profile"@[0]);
}

/// Whether one of the first `n` bindings adds the finding.
pub open spec fn added(
    f: FindingView,
    s: StoreView,
    bs: Seq<BindingView>,
    at: Option<Timestamp>,
    as_of: Timestamp,
    facts: Option<Tree>,
    n: int,
) -> bool {
    exists|i: int|
        0 <= i < n && applicability_api::finding(s, #[trigger] bs[i], at, as_of, facts) == Ok::<
            FindingView,
            RefusalView,
        >(f)
}

/// Whether what a binding adds has its place among what applies or what is
/// unresolved.
pub open spec fn placed(
    r: Result<FindingView, RefusalView>,
    applies: Seq<Tree>,
    open: Seq<Tree>,
) -> bool {
    match r {
        Ok(FindingView::Applies(t)) => applies.contains(t),
        Ok(FindingView::Unresolved(t)) => open.contains(t),
        Ok(FindingView::Silent) => true,
        Err(_) => false,
    }
}

/// The findings of a subject's bindings are kept apart and none is lost:
/// what applies and what is unresolved is what the bindings add, one by
/// one.
#[verifier::spinoff_prover]
pub proof fn findings_are_what_the_bindings_add(
    s: StoreView,
    bs: Seq<BindingView>,
    at: Option<Timestamp>,
    as_of: Timestamp,
    facts: Option<Tree>,
    n: int,
)
    requires
        0 <= n <= bs.len(),
    ensures
        applicability_api::findings(s, bs, at, as_of, facts, n) matches Ok((applies, open)) ==> {
            &&& applies.len() + open.len() <= n
            &&& forall|i: int|
                0 <= i < n ==> placed(
                    applicability_api::finding(s, #[trigger] bs[i], at, as_of, facts),
                    applies,
                    open,
                )
            &&& forall|x: Tree| #[trigger]
                applies.contains(x) ==> added(FindingView::Applies(x), s, bs, at, as_of, facts, n)
            &&& forall|x: Tree| #[trigger]
                open.contains(x) ==> added(FindingView::Unresolved(x), s, bs, at, as_of, facts, n)
        },
    decreases n,
{
    if n > 0 {
        findings_are_what_the_bindings_add(s, bs, at, as_of, facts, n - 1);
        if let Ok((applies, open)) = applicability_api::findings(s, bs, at, as_of, facts, n) {
            let (a, u) = applicability_api::findings(s, bs, at, as_of, facts, n - 1)->Ok_0;
            let last = applicability_api::finding(s, bs[n - 1], at, as_of, facts);
            assert forall|i: int| 0 <= i < n implies placed(
                applicability_api::finding(s, #[trigger] bs[i], at, as_of, facts),
                applies,
                open,
            ) by {
                let r = applicability_api::finding(s, bs[i], at, as_of, facts);
                if i < n - 1 {
                    assert(placed(r, a, u));
                }
                match r {
                    Ok(FindingView::Applies(t)) => {
                        if i < n - 1 {
                            assert(applies[a.index_of(t)] == t);
                        } else {
                            assert(applies[a.len() as int] == t);
                        }
                    },
                    Ok(FindingView::Unresolved(t)) => {
                        if i < n - 1 {
                            assert(open[u.index_of(t)] == t);
                        } else {
                            assert(open[u.len() as int] == t);
                        }
                    },
                    _ => {},
                }
            }
            assert forall|x: Tree| #[trigger] applies.contains(x) implies added(
                FindingView::Applies(x),
                s,
                bs,
                at,
                as_of,
                facts,
                n,
            ) by {
                let j = applies.index_of(x);
                if j < a.len() {
                    assert(a[j] == x);
                    assert(a.contains(x));
                    assert(added(FindingView::Applies(x), s, bs, at, as_of, facts, n - 1));
                } else {
                    assert(last == Ok::<FindingView, RefusalView>(FindingView::Applies(x)));
                }
            }
            assert forall|x: Tree| #[trigger] open.contains(x) implies added(
                FindingView::Unresolved(x),
                s,
                bs,
                at,
                as_of,
                facts,
                n,
            ) by {
                let j = open.index_of(x);
                if j < u.len() {
                    assert(u[j] == x);
                    assert(u.contains(x));
                    assert(added(FindingView::Unresolved(x), s, bs, at, as_of, facts, n - 1));
                } else {
                    assert(last == Ok::<FindingView, RefusalView>(FindingView::Unresolved(x)));
                }
            }
        }
    }
}

/// An applicability answer is about the subject asked for at the instant
/// asked for, and every binding of that subject has been looked at.
#[verifier::spinoff_prover]
pub proof fn applicability_answers_for_the_subject(
    s: StoreView,
    subject: Seq<char>,
    at: Option<Timestamp>,
    facts: Option<Tree>,
    now: Timestamp,
    i: int,
)
    requires
        0 <= i < s.bindings.len(),
        s.bindings[i].subject == subject,
    ensures
        applicability_api::applicability(s, subject, at, facts, now) matches Ok(t) ==> {
            let as_of = match at {
                Some(x) => x,
                None => now,
            };
            &&& holds(t, "product_type"@, Tree::Str(subject))
            &&& holds(t, "as_of"@, Tree::Str(time::stamp_text(as_of.secs as int)))
            &&& t matches Tree::Obj(m)
            &&& m.dom().contains("applicability"@) && m.dom().contains("unresolved"@)
            &&& m["applicability"@] matches Tree::Arr(applies)
            &&& m["unresolved"@] matches Tree::Arr(open)
            &&& placed(
                applicability_api::finding(s, s.bindings[i], at, as_of, facts),
                applies,
                open,
            )
        },
{
    let as_of = match at {
        Some(x) => x,
        None => now,
    };
    let bs = store::bindings_among(s.bindings, subject, s.bindings.len() as int);
    store::bindings_of_a_subject(s.bindings, subject, s.bindings.len() as int);
    let k = bs.index_of(s.bindings[i]);
    assert(bs.contains(s.bindings[i]));
    findings_are_what_the_bindings_add(s, bs, at, as_of, facts, bs.len() as int);
    assert(bs[k] == s.bindings[i]);
    reveal_strlit("product_type");
    reveal_strlit("as_of");
    reveal_strlit("applicability");
    reveal_strlit("unresolved");
    assert("product_type"@.len() == 12 && "as_of"@.len() == 5 && "applicability"@.len() == 13
        && "unresolved"@.len() == 10);
}

/// A descriptor as its request gives it: the body under `body`, and under
/// `signature` an Ed25519 signature with its key id and its value in
/// hexadecimal digits.
pub open spec fn signed_as_given(t: Tree, body: Tree, signature: SignatureView) -> bool {
    &&& holds(t, "body"@, body)
    &&& t->Obj_0.dom().contains("signature"@)
    &&& t->Obj_0["signature"@] matches Tree::Obj(block)
    &&& block.dom().contains("key_id"@) && block["key_id"@] == Tree::Str(signature.key_id)
    &&& block.dom().contains("algorithm"@) && block["algorithm"@] == Tree::Str("ed25519"@)
    &&& block.dom().contains("value"@)
    &&& block["value"@] matches Tree::Str(hex)
    &&& crypto::hex_bytes(hex) == Some(signature.value)
    &&& signature.algorithm == "ed25519"@
    &&& signature.value.len() == 64
}

/// A signature is vouched for: the keyring has a key under the operator id
/// that the body names, the signature holds under that key for the body
/// without its own signature, the id is the one derived from the key that
/// the body shows, and so is the id of the signing key.
pub open spec fn vouched(keys: Keys, body: Tree, signature: SignatureView) -> bool {
    &&& body matches Tree::Obj(m)
    &&& m.dom().contains("operator"@)
    &&& m["operator"@] matches Tree::Obj(o)
    &&& o.dom().contains("id"@)
    &&& o["id"@] matches Tree::Str(id)
    &&& keys.dom().contains(id)
    &&& crypto::ed25519_holds(
        keys[id],
        vstd::utf8::encode_utf8(bridge::json_text(Tree::Obj(m.remove("signature"@)))),
        signature.value,
    )
    &&& o.dom().contains("public_key"@)
    &&& o["public_key"@] matches Tree::Str(hex)
    &&& crypto::hex_bytes(hex) matches Some(key)
    &&& key.len() == 32
    &&& id == "op-"@ + crypto::hex_text(
        crypto::sha256_of(vstd::utf8::encode_utf8("op"@) + key).take(8),
    )
    &&& signature.key_id == "k-"@ + crypto::hex_text(
        crypto::sha256_of(vstd::utf8::encode_utf8("key"@) + key).take(8),
    )
}

/// A service version as its request words it.
pub open spec fn worded_service(
    v: ServiceVersionView,
    keys: Keys,
    identifier: Seq<char>,
    t: Tree,
    now: Timestamp,
) -> bool {
    &&& words(t, "version"@, v.version)
    &&& fits_a_path(v.version)
    &&& dates(t, "effective_from"@, v.effective_from) || (omits(t, "effective_from"@) && v.effective_from
        == now)
    &&& match v.effective_until {
        Some(until) => dates(t, "effective_until"@, until) && v.effective_from.secs < until.secs,
        None => omits(t, "effective_until"@),
    }
    &&& v.registered_at == now
    &&& v.superseded_by_version is None
    &&& signed_as_given(t, v.body, v.signature)
    &&& vouched(keys, v.body, v.signature)
    &&& v.body matches Tree::Obj(m)
    &&& m.dom().contains("identifier"@) && m["identifier"@] is Str ==> m["identifier"@] == Tree::Str(
        identifier,
    )
    &&& m.dom().contains("class"@) && (m["class"@] matches Tree::Str(c)
        && discovery::parsed_service_class(c) is Some)
    &&& m.dom().contains("endpoints"@) && (m["endpoints"@] matches Tree::Arr(a) && a.len() > 0)
    &&& omits(v.body, "status"@) ==> v.status == ServiceStatus::Active
    &&& !omits(v.body, "status"@) ==> (m["status"@] matches Tree::Str(x)
        && discovery::parsed_service_status(x) == Some(v.status))
}

/// Reading a service request takes its members at their word.
#[verifier::spinoff_prover]
#[verifier::rlimit(40)]
proof fn service_requests_are_read(
    keys: Keys,
    t: Tree,
    identifier: Seq<char>,
    now: Timestamp,
    named: bool,
)
    ensures
        discovery_api::service_request(keys, t, identifier, now, named) matches Ok(v) ==> worded_service(
            v,
            keys,
            identifier,
            t,
            now,
        ),
{
    if discovery_api::service_request(keys, t, identifier, now, named) is Ok {
        let m = t->Obj_0;
        if m.dom().contains("effective_from"@) {
            if let Tree::Str(raw) = m["effective_from"@] {
                time::parsed_instants_fit(raw);
            }
        }
        if m.dom().contains("effective_until"@) {
            if let Tree::Str(raw) = m["effective_until"@] {
                time::parsed_instants_fit(raw);
            }
        }
        let body = discovery_api::signed_part(t)->Ok_0.0;
        let raw = json::arr_of(json::member(body->Obj_0, "endpoints"@)->Some_0)->Some_0;
        discovery::endpoints_are_read_one_by_one(raw, raw.len() as int);
    }
}

/// Nothing but the services differs, and one numbered record is added.
pub open spec fn only_services_change(before: StoreView, after: StoreView, now: Timestamp) -> bool {
    &&& after.items == before.items
    &&& after.bindings == before.bindings
    &&& after.next_binding_id == before.next_binding_id
    &&& after.protocols == before.protocols
    &&& after.mechanisms == before.mechanisms
    &&& after.log.len() == before.log.len() + 1
    &&& after.log.last().recorded_at == now
    &&& before.log.len() < u64::MAX ==> after.log.last().seq == before.log.len() + 1
}

/// A service enters under a free identifier, as its request words it and
/// only with a signature that is vouched for.
#[verifier::spinoff_prover]
pub proof fn services_enter_as_worded(s: StoreView, keys: Keys, t: Tree, now: Timestamp)
    ensures
        discovery_api::service_registered(s, keys, t, now).0 matches Ok(r) ==> {
            let after = discovery_api::service_registered(s, keys, t, now).1;
            &&& r.status == 201 && r.as_of == now
            &&& only_services_change(s, after, now)
            &&& after.log.last().op matches OpView::RegisterService { service }
            &&& words(t, "identifier"@, service.identifier)
            &&& fits_a_path(service.identifier)
            &&& !s.services.dom().contains(service.identifier)
            &&& after.services == s.services.insert(service.identifier, service)
            &&& service.versions.len() == 1
            &&& worded_service(service.versions[0], keys, service.identifier, t, now)
        },
        discovery_api::service_registered(s, keys, t, now).0 is Err
            ==> discovery_api::service_registered(s, keys, t, now).1 == s,
{
    if let Ok(identifier) = request::required_token(t, "identifier"@) {
        service_requests_are_read(keys, t, identifier, now, true);
    }
}

/// A supersession of a service appends the version that its request words,
/// marks and links the active version that it supersedes, and keeps all
/// else.
#[verifier::spinoff_prover]
#[verifier::rlimit(40)]
pub proof fn services_are_superseded_as_worded(
    s: StoreView,
    keys: Keys,
    identifier: Seq<char>,
    t: Tree,
    now: Timestamp,
)
    ensures
        discovery_api::service_superseded(s, keys, identifier, t, now).0 is Ok ==> {
            let after = discovery_api::service_superseded(s, keys, identifier, t, now).1;
            let old = s.services[identifier];
            let service = after.services[identifier];
            let new = service.versions.last();
            let n = old.versions.len();
            &&& only_services_change(s, after, now)
            &&& s.services.dom().contains(identifier)
            &&& after.services == s.services.insert(identifier, service)
            &&& service.identifier == old.identifier
            &&& service.versions.len() == n + 1
            &&& worded_service(new, keys, identifier, t, now)
            &&& forall|k: int|
                0 <= k < n ==> (#[trigger] old.versions[k]).version != new.version
            &&& exists|i: int|
                {
                    &&& 0 <= i < n
                    &&& #[trigger] old.versions[i].status == ServiceStatus::Active
                    &&& (words(t, "supersede_version"@, old.versions[i].version) || (omits(
                        t,
                        "supersede_version"@,
                    ) && (discovery::service_current(old.versions) matches Some(c) && c.version
                        == old.versions[i].version)))
                    &&& service.versions[i] == ServiceVersionView {
                        status: ServiceStatus::Superseded,
                        superseded_by_version: Some(new.version),
                        ..old.versions[i]
                    }
                    &&& old.versions[i].effective_from.secs <= new.effective_from.secs
                    &&& forall|k: int|
                        0 <= k < n && k != i ==> #[trigger] service.versions[k] == old.versions[k]
                }
        },
{
    if discovery_api::service_superseded(s, keys, identifier, t, now).0 is Ok {
        service_requests_are_read(keys, t, identifier, now, false);
        let after = discovery_api::service_superseded(s, keys, identifier, t, now).1;
        let old = s.services[identifier];
        let successor = discovery_api::service_request(keys, t, identifier, now, false)->Ok_0;
        let target = discovery_api::service_target(t, old, identifier)->Ok_0;
        let names = discovery::service_version_names(old.versions);
        order::index_of_found(names, target);
        order::index_of_found(names, successor.version);
        let i = discovery::service_version_index(old.versions, target);
        let service = after.services[identifier];
        assert(service == store::superseded_service(old, target, successor));
        assert(service.versions.last() == successor);
        assert(old.versions[i].version == target);
        assert forall|k: int| 0 <= k < old.versions.len() implies (
        #[trigger] old.versions[k]).version != successor.version by {
            assert(names[k] == old.versions[k].version);
        }
        assert(old.versions[i].status == ServiceStatus::Active);
    }
}

/// A protocol binding and a verification mechanism enter under a free
/// identifier, as their request words them and only with a signature that
/// is vouched for.
#[verifier::spinoff_prover]
pub proof fn descriptors_enter_as_worded(s: StoreView, keys: Keys, t: Tree, now: Timestamp)
    ensures
        discovery_api::protocol_registered(s, keys, t, now).0 matches Ok(r) ==> {
            let after = discovery_api::protocol_registered(s, keys, t, now).1;
            &&& r.status == 201 && r.as_of == now
            &&& after.log.len() == s.log.len() + 1
            &&& after.log.last().op matches OpView::RegisterProtocolBinding { binding }
            &&& words(t, "identifier"@, binding.identifier)
            &&& words(t, "version"@, binding.version)
            &&& !s.protocols.dom().contains(binding.identifier)
            &&& after.protocols == s.protocols.insert(binding.identifier, binding)
            &&& after.items == s.items && after.services == s.services && after.mechanisms
                == s.mechanisms && after.bindings == s.bindings
            &&& signed_as_given(t, binding.body, binding.signature)
            &&& vouched(keys, binding.body, binding.signature)
            &&& holds(binding.body, "grammar_ref"@, Tree::Str(binding.grammar_ref))
            &&& binding.grammar_ref.len() > 0
            &&& binding.media_types.len() > 0
            &&& binding.conformance_suite_ref matches Some(x) ==> holds(
                binding.body,
                "conformance_suite_ref"@,
                Tree::Str(x),
            )
        },
        discovery_api::mechanism_registered(s, keys, t, now).0 matches Ok(r) ==> {
            let after = discovery_api::mechanism_registered(s, keys, t, now).1;
            &&& r.status == 201 && r.as_of == now
            &&& after.log.len() == s.log.len() + 1
            &&& after.log.last().op matches OpView::RegisterVerificationMechanism { mechanism }
            &&& words(t, "identifier"@, mechanism.identifier)
            &&& !s.mechanisms.dom().contains(mechanism.identifier)
            &&& after.mechanisms == s.mechanisms.insert(mechanism.identifier, mechanism)
            &&& after.items == s.items && after.services == s.services && after.protocols
                == s.protocols && after.bindings == s.bindings
            &&& signed_as_given(t, mechanism.body, mechanism.signature)
            &&& vouched(keys, mechanism.body, mechanism.signature)
            &&& holds(mechanism.body, "suite"@, Tree::Str(mechanism.suite))
            &&& mechanism.suite.len() > 0
            &&& holds(mechanism.body, "agility_status"@, Tree::Str(mechanism.agility_status))
            &&& mechanism.agility_status.len() > 0
            &&& mechanism.trust_framework matches Some(x) ==> holds(
                mechanism.body,
                "trust_framework"@,
                Tree::Str(x),
            )
            &&& mechanism.trust_list_endpoint matches Some(x) ==> holds(
                mechanism.body,
                "trust_list_endpoint"@,
                Tree::Str(x),
            )
            &&& mechanism.master_list_ref matches Some(x) ==> holds(
                mechanism.body,
                "master_list_ref"@,
                Tree::Str(x),
            )
            &&& mechanism.verdict_grammar_ref matches Some(x) ==> holds(
                mechanism.body,
                "verdict_grammar_ref"@,
                Tree::Str(x),
            )
        },
{
}

/// The members of an answer to a deposit have different names.
proof fn deposit_names_differ()
    ensures
        "identifier"@ != "item_class"@,
        "identifier"@ != "version"@,
        "identifier"@ != "content_hash"@,
        "identifier"@ != "validation"@,
        "identifier"@ != "audit_seq"@,
        "identifier"@ != "as_of"@,
        "item_class"@ != "version"@,
        "item_class"@ != "content_hash"@,
        "item_class"@ != "validation"@,
        "item_class"@ != "audit_seq"@,
        "item_class"@ != "as_of"@,
        "version"@ != "content_hash"@,
        "version"@ != "validation"@,
        "version"@ != "audit_seq"@,
        "version"@ != "as_of"@,
        "content_hash"@ != "validation"@,
        "content_hash"@ != "audit_seq"@,
        "content_hash"@ != "as_of"@,
        "validation"@ != "audit_seq"@,
        "validation"@ != "as_of"@,
        "audit_seq"@ != "as_of"@,
{
    reveal_strlit("identifier");
    reveal_strlit("item_class");
    reveal_strlit("version");
    reveal_strlit("content_hash");
    reveal_strlit("validation");
    reveal_strlit("audit_seq");
    reveal_strlit("as_of");
    assert("identifier"@[1] != "item_class"@[1]);
    assert("identifier"@.len() != "version"@.len());
    assert("identifier"@.len() != "content_hash"@.len());
    assert("identifier"@[0] != "validation"@[0]);
    assert("identifier"@.len() != "audit_seq"@.len());
    assert("identifier"@.len() != "as_of"@.len());
    assert("item_class"@.len() != "version"@.len());
    assert("item_class"@.len() != "content_hash"@.len());
    assert("item_class"@[0] != "validation"@[0]);
    assert("item_class"@.len() != "audit_seq"@.len());
    assert("item_class"@.len() != "as_of"@.len());
    assert("version"@.len() != "content_hash"@.len());
    assert("version"@.len() != "validation"@.len());
    assert("version"@.len() != "audit_seq"@.len());
    assert("version"@.len() != "as_of"@.len());
    assert("content_hash"@.len() != "validation"@.len());
    assert("content_hash"@.len() != "audit_seq"@.len());
    assert("content_hash"@.len() != "as_of"@.len());
    assert("validation"@.len() != "audit_seq"@.len());
    assert("validation"@.len() != "as_of"@.len());
    assert("audit_seq"@.len() != "as_of"@.len());
}

/// The members of the reading of a model have different names.
proof fn reading_names_differ()
    ensures
        "source"@ != "content_hash"@,
        "source"@ != "validation"@,
        "source"@ != "as_of"@,
        "source"@ != "version"@,
        "source"@ != "identifier"@,
        "source"@ != "register"@,
        "source"@ != "item_class"@,
        "source"@ != "title"@,
        "source"@ != "manifest"@,
        "source"@ != "versions"@,
        "source"@ != "submitting_organization"@,
        "content_hash"@ != "validation"@,
        "content_hash"@ != "as_of"@,
        "content_hash"@ != "version"@,
        "content_hash"@ != "identifier"@,
        "content_hash"@ != "register"@,
        "content_hash"@ != "item_class"@,
        "content_hash"@ != "title"@,
        "content_hash"@ != "manifest"@,
        "content_hash"@ != "versions"@,
        "content_hash"@ != "submitting_organization"@,
        "validation"@ != "as_of"@,
        "validation"@ != "version"@,
        "validation"@ != "identifier"@,
        "validation"@ != "register"@,
        "validation"@ != "item_class"@,
        "validation"@ != "title"@,
        "validation"@ != "manifest"@,
        "validation"@ != "versions"@,
        "validation"@ != "submitting_organization"@,
        "as_of"@ != "version"@,
        "as_of"@ != "identifier"@,
        "as_of"@ != "register"@,
        "as_of"@ != "item_class"@,
        "as_of"@ != "title"@,
        "as_of"@ != "manifest"@,
        "as_of"@ != "versions"@,
        "as_of"@ != "submitting_organization"@,
        "version"@ != "identifier"@,
        "version"@ != "register"@,
        "version"@ != "item_class"@,
        "version"@ != "title"@,
        "version"@ != "manifest"@,
        "version"@ != "versions"@,
        "version"@ != "submitting_organization"@,
        "identifier"@ != "register"@,
        "identifier"@ != "item_class"@,
        "identifier"@ != "title"@,
        "identifier"@ != "manifest"@,
        "identifier"@ != "versions"@,
        "identifier"@ != "submitting_organization"@,
        "register"@ != "item_class"@,
        "register"@ != "title"@,
        "register"@ != "manifest"@,
        "register"@ != "versions"@,
        "register"@ != "submitting_organization"@,
        "item_class"@ != "title"@,
        "item_class"@ != "manifest"@,
        "item_class"@ != "versions"@,
        "item_class"@ != "submitting_organization"@,
        "title"@ != "manifest"@,
        "title"@ != "versions"@,
        "title"@ != "submitting_organization"@,
        "manifest"@ != "versions"@,
        "manifest"@ != "submitting_organization"@,
        "versions"@ != "submitting_organization"@,
{
    reveal_strlit("source");
    reveal_strlit("content_hash");
    reveal_strlit("validation");
    reveal_strlit("as_of");
    reveal_strlit("version");
    reveal_strlit("identifier");
    reveal_strlit("register");
    reveal_strlit("item_class");
    reveal_strlit("title");
    reveal_strlit("manifest");
    reveal_strlit("versions");
    reveal_strlit("submitting_organization");
    assert("source"@.len() != "content_hash"@.len());
    assert("source"@.len() != "validation"@.len());
    assert("source"@.len() != "as_of"@.len());
    assert("source"@.len() != "version"@.len());
    assert("source"@.len() != "identifier"@.len());
    assert("source"@.len() != "register"@.len());
    assert("source"@.len() != "item_class"@.len());
    assert("source"@.len() != "title"@.len());
    assert("source"@.len() != "manifest"@.len());
    assert("source"@.len() != "versions"@.len());
    assert("source"@.len() != "submitting_organization"@.len());
    assert("content_hash"@.len() != "validation"@.len());
    assert("content_hash"@.len() != "as_of"@.len());
    assert("content_hash"@.len() != "version"@.len());
    assert("content_hash"@.len() != "identifier"@.len());
    assert("content_hash"@.len() != "register"@.len());
    assert("content_hash"@.len() != "item_class"@.len());
    assert("content_hash"@.len() != "title"@.len());
    assert("content_hash"@.len() != "manifest"@.len());
    assert("content_hash"@.len() != "versions"@.len());
    assert("content_hash"@.len() != "submitting_organization"@.len());
    assert("validation"@.len() != "as_of"@.len());
    assert("validation"@.len() != "version"@.len());
    assert("validation"@[0] != "identifier"@[0]);
    assert("validation"@.len() != "register"@.len());
    assert("validation"@[0] != "item_class"@[0]);
    assert("validation"@.len() != "title"@.len());
    assert("validation"@.len() != "manifest"@.len());
    assert("validation"@.len() != "versions"@.len());
    assert("validation"@.len() != "submitting_organization"@.len());
    assert("as_of"@.len() != "version"@.len());
    assert("as_of"@.len() != "identifier"@.len());
    assert("as_of"@.len() != "register"@.len());
    assert("as_of"@.len() != "item_class"@.len());
    assert("as_of"@[0] != "title"@[0]);
    assert("as_of"@.len() != "manifest"@.len());
    assert("as_of"@.len() != "versions"@.len());
    assert("as_of"@.len() != "submitting_organization"@.len());
    assert("version"@.len() != "identifier"@.len());
    assert("version"@.len() != "register"@.len());
    assert("version"@.len() != "item_class"@.len());
    assert("version"@.len() != "title"@.len());
    assert("version"@.len() != "manifest"@.len());
    assert("version"@.len() != "versions"@.len());
    assert("version"@.len() != "submitting_organization"@.len());
    assert("identifier"@.len() != "register"@.len());
    assert("identifier"@[1] != "item_class"@[1]);
    assert("identifier"@.len() != "title"@.len());
    assert("identifier"@.len() != "manifest"@.len());
    assert("identifier"@.len() != "versions"@.len());
    assert("identifier"@.len() != "submitting_organization"@.len());
    assert("register"@.len() != "item_class"@.len());
    assert("register"@.len() != "title"@.len());
    assert("register"@[0] != "manifest"@[0]);
    assert("register"@[0] != "versions"@[0]);
    assert("register"@.len() != "submitting_organization"@.len());
    assert("item_class"@.len() != "title"@.len());
    assert("item_class"@.len() != "manifest"@.len());
    assert("item_class"@.len() != "versions"@.len());
    assert("item_class"@.len() != "submitting_organization"@.len());
    assert("title"@.len() != "manifest"@.len());
    assert("title"@.len() != "versions"@.len());
    assert("title"@.len() != "submitting_organization"@.len());
    assert("manifest"@[0] != "versions"@[0]);
    assert("manifest"@.len() != "submitting_organization"@.len());
    assert("versions"@.len() != "submitting_organization"@.len());
}

/// The members of the view of a service have different names.
proof fn service_names_differ()
    ensures
        "identifier"@ != "kind"@,
        "identifier"@ != "versions"@,
        "identifier"@ != "version"@,
        "identifier"@ != "as_of"@,
        "kind"@ != "versions"@,
        "kind"@ != "version"@,
        "kind"@ != "as_of"@,
        "versions"@ != "version"@,
        "versions"@ != "as_of"@,
        "version"@ != "as_of"@,
{
    reveal_strlit("identifier");
    reveal_strlit("kind");
    reveal_strlit("versions");
    reveal_strlit("version");
    reveal_strlit("as_of");
    assert("identifier"@.len() != "kind"@.len());
    assert("identifier"@.len() != "versions"@.len());
    assert("identifier"@.len() != "version"@.len());
    assert("identifier"@.len() != "as_of"@.len());
    assert("kind"@.len() != "versions"@.len());
    assert("kind"@.len() != "version"@.len());
    assert("kind"@.len() != "as_of"@.len());
    assert("versions"@.len() != "version"@.len());
    assert("versions"@.len() != "as_of"@.len());
    assert("version"@.len() != "as_of"@.len());
}


/// A deposit is the one that its body words; the source is kept exactly as
/// it is given.
#[verifier::spinoff_prover]
pub proof fn deposits_take_the_body_at_its_word(t: Tree, now: Timestamp)
    ensures
        models_api::model_request(t, now) matches Ok(r) ==> {
            &&& words(t, "register_id"@, r.register)
            &&& words(t, "item_id"@, r.identifier)
            &&& fits_a_path(r.identifier)
            &&& words(
                t,
                if t->Obj_0.dom().contains("definition"@) {
                    "definition"@
                } else {
                    "title"@
                },
                r.title,
            )
            &&& match r.submitting_organization {
                Some(o) => words(t, "submitting_organization"@, o),
                None => omits(t, "submitting_organization"@),
            }
            &&& words(t, "version"@, r.version)
            &&& fits_a_path(r.version)
            &&& holds(t, "source"@, Tree::Str(r.source))
            &&& text::trimmed(r.source).len() > 0
            &&& dates(t, "effective_from"@, r.effective_from) || (omits(t, "effective_from"@)
                && r.effective_from == now)
            &&& match r.effective_until {
                Some(until) => dates(t, "effective_until"@, until) && r.effective_from.secs < until.secs,
                None => omits(t, "effective_until"@),
            }
        },
{
    if models_api::model_request(t, now) is Ok {
        let m = t->Obj_0;
        if m.dom().contains("effective_from"@) {
            if let Tree::Str(raw) = m["effective_from"@] {
                time::parsed_instants_fit(raw);
            }
        }
        if m.dom().contains("effective_until"@) {
            if let Tree::Str(raw) = m["effective_until"@] {
                time::parsed_instants_fit(raw);
            }
        }
    }
}

/// A source that the validator rejects is never deposited; one that it
/// accepts is deposited as valid, and one that it could not be run on as
/// pending. The deposit is the source with the SHA-256 digest of its bytes.
#[verifier::spinoff_prover]
pub proof fn deposits_follow_the_validator(
    s: StoreView,
    req: ModelRequestView,
    run: RunView,
    now: Timestamp,
)
    ensures
        ({
            let (r, after) = models_api::deposited(s, req, run, now);
            let hash = "sha256:"@ + crypto::hex_text(
                crypto::sha256_of(vstd::utf8::encode_utf8(req.source)),
            );
            &&& run is Rejected ==> r is Err && after == s
            &&& s.items.dom().contains(req.identifier) ==> r is Err && after == s
            &&& !(run is Rejected) && !s.items.dom().contains(req.identifier) ==> {
                let item = after.items[req.identifier];
                let status = if run is Accepted {
                    "valid"@
                } else {
                    "pending"@
                };
                &&& r matches Ok(reply) && reply.status == 201 && reply.as_of == now && holds(
                    reply.body,
                    "identifier"@,
                    Tree::Str(req.identifier),
                ) && holds(reply.body, "content_hash"@, Tree::Str(hash)) && holds(
                    reply.body,
                    "version"@,
                    Tree::Str(req.version),
                )
                &&& only_items_change(s, after, now)
                &&& after.items == s.items.insert(req.identifier, item)
                &&& item.identifier == req.identifier && item.register == req.register && item.title
                    == req.title && item.submitting_organization == req.submitting_organization
                &&& item.item_class == ItemClass::Model
                &&& item.versions.len() == 1
                &&& item.versions[0] == (VersionView {
                    version: req.version,
                    status: Status::Valid,
                    effective_from: Some(req.effective_from),
                    effective_until: req.effective_until,
                    registered_at: Some(now),
                    superseded_by_version: None,
                    notes: None,
                })
                &&& item.manifest matches Some(x)
                &&& holds(x, "version"@, Tree::Str(req.version))
                &&& x->Obj_0.dom().contains("express"@)
                &&& holds(x->Obj_0["express"@], "source"@, Tree::Str(req.source))
                &&& holds(x->Obj_0["express"@], "content_hash"@, Tree::Str(hash))
                &&& x->Obj_0["express"@]->Obj_0.dom().contains("validation"@)
                &&& holds(x->Obj_0["express"@]->Obj_0["validation"@], "status"@, Tree::Str(status))
            }
        }),
{
    deposit_names_differ();
    reveal_strlit("express");
    reveal_strlit("version");
    reveal_strlit("source");
    reveal_strlit("status");
    reveal_strlit("tool");
    reveal_strlit("detail");
    assert("express"@[0] != "version"@[0]);
    assert("source"@.len() == 6 && "content_hash"@.len() == 12 && "validation"@.len() == 10) by {
        reveal_strlit("content_hash");
        reveal_strlit("validation");
    }
    assert("status"@.len() == 6 && "tool"@.len() == 4 && "detail"@.len() == 6);
    assert("status"@[0] != "detail"@[0]);
}

/// The reading of a model that is pinned to a digest is served only where
/// the deposit has that digest, and is a conflict otherwise; it serves the
/// source and the digest of the deposit, dated with the instant asked for.
#[verifier::spinoff_prover]
pub proof fn pinned_readings_serve_that_content(
    s: StoreView,
    q: ParamsView,
    identifier: Seq<char>,
    now: Timestamp,
    source: Seq<char>,
    hash: Seq<char>,
)
    requires
        s.items.dom().contains(identifier),
        s.items[identifier].item_class == ItemClass::Model,
        s.items[identifier].manifest matches Some(x) && x is Obj && x->Obj_0.dom().contains("express"@)
            && holds(x->Obj_0["express"@], "source"@, Tree::Str(source)) && holds(
            x->Obj_0["express"@],
            "content_hash"@,
            Tree::Str(hash),
        ),
        asks(q) matches Some(raw) ==> time::parsed(raw) is Some,
    ensures
        ({
            let pin = if q.dom().contains("hash"@) {
                text::trimmed(q["hash"@])
            } else {
                Seq::empty()
            };
            match models_api::model_read(s, q, identifier, now) {
                Ok(r) => {
                    &&& pin.len() == 0 || pin == hash
                    &&& r.status == 200
                    &&& dated(q, r.as_of, now)
                    &&& holds(r.body, "source"@, Tree::Str(source))
                    &&& holds(r.body, "content_hash"@, Tree::Str(hash))
                    &&& holds(r.body, "version"@, served(s.items[identifier], q, r.as_of))
                    &&& holds(r.body, "as_of"@, Tree::Str(time::stamp_text(r.as_of.secs as int)))
                },
                Err(RefusalView::Conflict(_)) => pin.len() > 0 && pin != hash,
                Err(RefusalView::BadRequest(_)) => true,
                Err(_) => false,
            }
        }),
{
    if let Some(raw) = asks(q) {
        time::parsed_instants_fit(raw);
    }
    reading_names_differ();
}

/// A validation run is recorded on the deposit: its outcome takes the place
/// of the earlier one, and the source, the digest and the versions stay.
#[verifier::spinoff_prover]
pub proof fn validations_touch_only_the_outcome(
    s: StoreView,
    identifier: Seq<char>,
    version: Seq<char>,
    run: RunView,
    now: Timestamp,
)
    ensures
        models_api::validated(s, identifier, version, run, now).0 is Ok ==> {
            let after = models_api::validated(s, identifier, version, run, now).1;
            let old = s.items[identifier];
            let new = after.items[identifier];
            let status = if run is Accepted {
                "valid"@
            } else if run is Rejected {
                "invalid"@
            } else {
                "pending"@
            };
            &&& s.items.dom().contains(identifier)
            &&& old.item_class == ItemClass::Model
            &&& after.items == s.items.insert(identifier, new)
            &&& after.log.last().recorded_at == now && after.log.len() == s.log.len() + 1
            &&& ItemView { manifest: old.manifest, ..new } == old
            &&& (old.manifest matches Some(x) && x is Obj && x->Obj_0.dom().contains("express"@)
                && x->Obj_0["express"@] is Obj) ==> {
                let was = old.manifest->Some_0->Obj_0["express"@]->Obj_0;
                &&& new.manifest matches Some(x) && x is Obj && x->Obj_0.dom().contains("express"@)
                &&& new.manifest->Some_0->Obj_0["express"@] matches Tree::Obj(is)
                &&& is.dom().contains("validation"@) && holds(
                    is["validation"@],
                    "status"@,
                    Tree::Str(status),
                )
                &&& forall|k: Seq<char>|
                    k != "validation"@ ==> (#[trigger] is.dom().contains(k) <==> was.dom().contains(k)) && (
                    was.dom().contains(k) ==> is[k] == was[k])
            }
        },
        models_api::validated(s, identifier, version, run, now).0 is Err ==> models_api::validated(
            s,
            identifier,
            version,
            run,
            now,
        ).1 == s,
{
    reveal_strlit("status");
    reveal_strlit("tool");
    reveal_strlit("detail");
    assert("status"@.len() == 6 && "tool"@.len() == 4 && "detail"@.len() == 6);
    assert("status"@[0] != "detail"@[0]);
}

/// The reading of a service serves that service, dated with the instant
/// asked for and with the version in force then, or the current one.
#[verifier::spinoff_prover]
pub proof fn services_are_read_at_the_instant_asked_for(
    s: StoreView,
    q: ParamsView,
    identifier: Seq<char>,
    now: Timestamp,
)
    ensures
        ({
            let sound = asks(q) matches Some(raw) ==> time::parsed(raw) is Some;
            match discovery_api::service_read(s, q, identifier, now) {
                Ok(r) => {
                    let vs = s.services[identifier].versions;
                    let v = if asks(q) is Some {
                        discovery::service_in_force(vs, r.as_of)
                    } else {
                        discovery::service_current(vs)
                    };
                    &&& sound && s.services.dom().contains(identifier)
                    &&& r.status == 200
                    &&& dated(q, r.as_of, now)
                    &&& holds(
                        r.body,
                        "identifier"@,
                        Tree::Str(s.services[identifier].identifier),
                    )
                    &&& holds(r.body, "as_of"@, Tree::Str(time::stamp_text(r.as_of.secs as int)))
                    &&& holds(
                        r.body,
                        "version"@,
                        match v {
                            Some(x) => discovery::service_version_tree(
                                x,
                                discovery::service_window_end(vs, x),
                            ),
                            None => Tree::Null,
                        },
                    )
                },
                Err(RefusalView::NotFound(_)) => sound && !s.services.dom().contains(identifier),
                Err(RefusalView::BadRequest(_)) => !sound,
                Err(_) => false,
            }
        }),
{
    if let Some(raw) = asks(q) {
        time::parsed_instants_fit(raw);
    }
    service_names_differ();
}

/// A service is listed under a class and a jurisdiction exactly when its
/// current version's body names them.
pub proof fn services_are_listed_by_their_current_body(
    service: ServiceView,
    class: Option<ServiceClass>,
    jurisdiction: Option<Seq<char>>,
)
    ensures
        store::service_matches(service, class, jurisdiction) <==> {
            &&& class matches Some(c) ==> (discovery::service_current(service.versions) matches Some(v)
                && v.body is Obj && v.body->Obj_0.dom().contains("class"@)
                && (v.body->Obj_0["class"@] matches Tree::Str(x) && discovery::parsed_service_class(x)
                == Some(c)))
            &&& jurisdiction matches Some(j) ==> (discovery::service_current(
                service.versions,
            ) matches Some(v) && holds(v.body, "jurisdiction"@, Tree::Str(j)))
        },
{
}

/// A mapping answers a lookup exactly when its manifest names the item on
/// the side asked for, or on either side.
pub proof fn mappings_answer_for_their_sides(
    item: ItemView,
    lookup: Option<Seq<char>>,
    source: Option<Seq<char>>,
    target: Option<Seq<char>>,
)
    ensures
        mapping::matched(item, lookup, source, target) <==> {
            let names = |side: Seq<char>, x: Seq<char>|
                item.manifest matches Some(m) && m is Obj && m->Obj_0.dom().contains(side) && holds(
                    m->Obj_0[side],
                    "item"@,
                    Tree::Str(x),
                );
            &&& item.item_class == ItemClass::CrossRegisterMapping
            &&& item.manifest is Some
            &&& lookup matches Some(x) ==> names("source"@, x) || names("target"@, x)
            &&& source matches Some(x) ==> names("source"@, x)
            &&& target matches Some(x) ==> names("target"@, x)
        },
{
}

/// Whether a view is that of a matching mapping among the first `n` items.
pub open spec fn matches_among(
    view: Tree,
    items: Seq<ItemView>,
    lookup: Option<Seq<char>>,
    source: Option<Seq<char>>,
    target: Option<Seq<char>>,
    at: Option<Timestamp>,
    n: int,
) -> bool {
    exists|i: int|
        0 <= i < n && mapping::matched(#[trigger] items[i], lookup, source, target) && view
            == models_api::mapping_summary(items[i], at)
}

/// The mappings found are those among the items that match, all of them and
/// no others.
#[verifier::spinoff_prover]
pub proof fn mappings_found_are_the_matching_ones(
    items: Seq<ItemView>,
    lookup: Option<Seq<char>>,
    source: Option<Seq<char>>,
    target: Option<Seq<char>>,
    at: Option<Timestamp>,
    n: int,
)
    requires
        0 <= n <= items.len(),
    ensures
        models_api::mappings_among(items, lookup, source, target, at, n).len() <= n,
        forall|i: int|
            0 <= i < n && mapping::matched(#[trigger] items[i], lookup, source, target)
                ==> models_api::mappings_among(items, lookup, source, target, at, n).contains(
                models_api::mapping_summary(items[i], at),
            ),
        forall|x: Tree| #[trigger]
            models_api::mappings_among(items, lookup, source, target, at, n).contains(x)
                ==> matches_among(x, items, lookup, source, target, at, n),
    decreases n,
{
    if n > 0 {
        mappings_found_are_the_matching_ones(items, lookup, source, target, at, n - 1);
        let got = models_api::mappings_among(items, lookup, source, target, at, n - 1);
        let found = models_api::mappings_among(items, lookup, source, target, at, n);
        assert forall|i: int|
            0 <= i < n && mapping::matched(
                #[trigger] items[i],
                lookup,
                source,
                target,
            ) implies found.contains(models_api::mapping_summary(items[i], at)) by {
            let x = models_api::mapping_summary(items[i], at);
            if i < n - 1 {
                assert(got.contains(x));
                assert(found[got.index_of(x)] == x);
            } else {
                assert(found[got.len() as int] == x);
            }
        }
        assert forall|x: Tree| #[trigger] found.contains(x) implies matches_among(
            x,
            items,
            lookup,
            source,
            target,
            at,
            n,
        ) by {
            let j = found.index_of(x);
            if j < got.len() {
                assert(got[j] == x);
                assert(got.contains(x));
                assert(matches_among(x, items, lookup, source, target, at, n - 1));
            } else {
                assert(mapping::matched(items[n - 1], lookup, source, target));
            }
        }
    }
}

/// Both ends of a mapping are read from its manifest: the item of each, and
/// the register and the version where they are given.
pub proof fn mapping_ends_are_read_from_the_manifest(t: Tree)
    ensures
        mapping::parsed_mapping(t) matches Ok(x) ==> {
            let end = |side: Seq<char>, r: mapping::RefView|
                {
                    &&& t is Obj && t->Obj_0.dom().contains(side)
                    &&& holds(t->Obj_0[side], "item"@, Tree::Str(r.item)) && r.item.len() > 0
                    &&& match r.register {
                        Some(c) => holds(t->Obj_0[side], "register"@, Tree::Str(c)),
                        None => omits(t->Obj_0[side], "register"@),
                    }
                    &&& match r.version {
                        Some(v) => holds(t->Obj_0[side], "version"@, Tree::Str(v)),
                        None => omits(t->Obj_0[side], "version"@),
                    }
                };
            &&& end("source"@, x.source)
            &&& end("target"@, x.target)
            &&& holds(t, "mapping_type"@, Tree::Str(x.mapping_type))
        },
{
}

/// A mapping has no dangling end exactly when each end names a registered
/// item, of the register that it claims and with the version that it pins.
pub proof fn mappings_do_not_dangle(s: StoreView, m: mapping::MappingView)
    ensures
        mapping::mapping_errors(s, m).len() == 0 <==> {
            let sound = |r: mapping::RefView|
                {
                    &&& s.items.dom().contains(r.item)
                    &&& r.register matches Some(c) ==> s.items[r.item].register == c
                    &&& r.version matches Some(v) ==> exists|i: int|
                        0 <= i < s.items[r.item].versions.len() && (
                        #[trigger] s.items[r.item].versions[i]).version == v
                };
            sound(m.source) && sound(m.target)
        },
{
    mapping::sound_iff_both_ends_resolve(s, m);
    version_is_found_where_it_is(s, m.source);
    version_is_found_where_it_is(s, m.target);
}

/// A version is found exactly where one of the versions bears its number.
proof fn version_is_found_where_it_is(s: StoreView, r: mapping::RefView)
    ensures
        r.version matches Some(v) ==> (model::find_version(s.items[r.item].versions, v) is Some <==> exists|
            i: int,
        |
            0 <= i < s.items[r.item].versions.len() && (#[trigger] s.items[r.item].versions[i]).version
                == v),
{
    if let Some(v) = r.version {
        let vs = s.items[r.item].versions;
        let names = model::version_names(vs);
        order::index_of_found(names, v);
        if model::find_version(vs, v) is Some {
            assert(vs[order::index_of(names, v)].version == v);
        } else {
            assert forall|i: int| 0 <= i < vs.len() implies (#[trigger] vs[i]).version != v by {
                assert(names[i] == vs[i].version);
            }
        }
    }
}

/// A profile that is registered or superseded with a manifest demands
/// nothing that its declared class cannot serve, unless the body turns the
/// strictness off.
#[verifier::spinoff_prover]
pub proof fn profiles_enter_with_servable_demands(
    s: StoreView,
    q: ParamsView,
    identifier: Seq<char>,
    t: Tree,
    scope: Option<ItemClass>,
    now: Timestamp,
)
    ensures
        items_api::registered(s, t, scope, now).0 is Ok && !holds(t, "strict"@, Tree::Bool(false)) ==> (
        items_api::registered(s, t, scope, now).1.log.last().op matches OpView::RegisterItem { item } && (
        item.item_class == ItemClass::Profile ==> (item.manifest matches Some(x) ==> (
        manifest::parsed_manifest(x) matches Ok(p) && satisfiability::violations(p).len() == 0)))),
        items_api::superseded(s, q, identifier, t, scope, now).0 is Ok && !holds(
            t,
            "strict"@,
            Tree::Bool(false),
        ) ==> {
            let item = items_api::superseded(s, q, identifier, t, scope, now).1.items[identifier];
            item.item_class == ItemClass::Profile ==> (item.manifest matches Some(x) ==> (
            manifest::parsed_manifest(x) matches Ok(p) && satisfiability::violations(p).len() == 0))
        },
{
}

/// A mapping enters only with two ends that exist.
#[verifier::spinoff_prover]
pub proof fn mappings_enter_with_both_ends(
    s: StoreView,
    t: Tree,
    scope: Option<ItemClass>,
    now: Timestamp,
)
    ensures
        items_api::registered(s, t, scope, now).0 is Ok ==> (items_api::registered(
            s,
            t,
            scope,
            now,
        ).1.log.last().op matches OpView::RegisterItem { item } && (item.item_class
            == ItemClass::CrossRegisterMapping ==> (item.manifest matches Some(x) && (
        mapping::parsed_mapping(x) matches Ok(m) && s.items.dom().contains(m.source.item)
            && s.items.dom().contains(m.target.item))))),
{
    if let Ok((item, _)) = items_api::item_request(t, scope, now) {
        if let Some(x) = item.manifest {
            if let Ok(m) = mapping::parsed_mapping(x) {
                mapping::sound_iff_both_ends_resolve(s, m);
            }
        }
    }
}

/// Where a token is configured, a request is let through exactly when it
/// bears that token after `Bearer `; where none is, every request is.
pub proof fn only_bearers_of_the_token_pass(token: Seq<char>, header: Option<Seq<char>>)
    ensures
        request::authorized(None, header),
        request::authorized(Some(token), header) <==> header == Some("Bearer "@ + token),
{
    if let Some(h) = header {
        text::after_prefix("Bearer "@, token);
        if text::after(h, "Bearer "@) == Some(token) {
            assert(h =~= "Bearer "@ + token);
        }
    }
}

/// A refusal is answered with the status that its kind has.
pub proof fn refusals_have_their_status(r: RefusalView)
    ensures
        r is BadRequest || r is Rejected ==> request::refusal_status(r) == 400,
        r is Unauthorized ==> request::refusal_status(r) == 401,
        r is NotFound ==> request::refusal_status(r) == 404,
        r is Conflict ==> request::refusal_status(r) == 409,
{
}

/// A page of the audit log is as long as asked for, 100 records where
/// nothing is asked for and never more than 10 000, and starts where asked
/// for or at the front.
pub proof fn pages_are_as_long_as_asked_for(q: ParamsView, n: nat)
    requires
        n <= usize::MAX,
    ensures
        !q.dom().contains("limit"@) ==> models_api::page_limit(q) == 100,
        q.dom().contains("limit"@) && q["limit"@] == text::decimal(n) && n <= 10_000
            ==> models_api::page_limit(q) == n,
        models_api::page_limit(q) <= 10_000,
        !q.dom().contains("offset"@) ==> models_api::page_offset(q) == 0,
        q.dom().contains("offset"@) && q["offset"@] == text::decimal(n) ==> models_api::page_offset(q)
            == n,
{
    text::number_of_decimal(n);
    let d = text::decimal(n);
    assert(text::is_digit(d[0]));
}

/// What a run of the validator amounts to: valid where it accepts, invalid
/// where it rejects, and pending where it was not run.
pub proof fn runs_amount_to_an_outcome(run: RunView)
    ensures
        run is Accepted ==> express::outcome(run).status == ValidationStatus::Valid
            && express::outcome(run).detail is None,
        run is Rejected ==> express::outcome(run).status == ValidationStatus::Invalid
            && express::outcome(run).detail is Some,
        run is Unavailable || run is NotStaged ==> express::outcome(run).status
            == ValidationStatus::Pending && express::outcome(run).detail is Some,
        (run matches RunView::Rejected { stderr, stdout }) ==> express::outcome(
            run,
        ).detail->Some_0.len() <= 301,
{
    reveal_strlit("expressir rejected the source");
}

/// An applicability answer names no profile that is not bound to the
/// subject asked for.
#[verifier::spinoff_prover]
pub proof fn applicability_names_no_other_subject(
    s: StoreView,
    subject: Seq<char>,
    at: Option<Timestamp>,
    facts: Option<Tree>,
    now: Timestamp,
    x: Tree,
)
    ensures
        applicability_api::applicability(s, subject, at, facts, now) matches Ok(t) ==> {
            let as_of = match at {
                Some(y) => y,
                None => now,
            };
            (t->Obj_0["applicability"@] matches Tree::Arr(applies) && applies.contains(x)) ==> exists|i: int|
                0 <= i < s.bindings.len() && (#[trigger] s.bindings[i]).subject == subject
                    && applicability_api::finding(s, s.bindings[i], at, as_of, facts) == Ok::<
                    FindingView,
                    RefusalView,
                >(FindingView::Applies(x))
        },
{
    let as_of = match at {
        Some(y) => y,
        None => now,
    };
    let bs = store::bindings_among(s.bindings, subject, s.bindings.len() as int);
    store::bindings_of_a_subject(s.bindings, subject, s.bindings.len() as int);
    findings_are_what_the_bindings_add(s, bs, at, as_of, facts, bs.len() as int);
    reveal_strlit("applicability");
    reveal_strlit("unresolved");
    assert("applicability"@.len() == 13 && "unresolved"@.len() == 10);
    if let Ok((applies, open)) = applicability_api::findings(s, bs, at, as_of, facts, bs.len() as int) {
        if applies.contains(x) {
            assert(added(FindingView::Applies(x), s, bs, at, as_of, facts, bs.len() as int));
            let k = choose|k: int|
                0 <= k < bs.len() && applicability_api::finding(
                    s,
                    #[trigger] bs[k],
                    at,
                    as_of,
                    facts,
                ) == Ok::<FindingView, RefusalView>(FindingView::Applies(x));
            assert(s.bindings.contains(bs[k]));
            let i = s.bindings.index_of(bs[k]);
            assert(s.bindings[i].subject == subject);
        }
    }
}

/// The validation status of a model is the one that its deposit records,
/// and pending where it has no deposit.
pub proof fn models_have_the_status_of_their_deposit(item: ItemView)
    ensures
        item.manifest is None ==> intake::validation_status(item) == ValidationStatus::Pending,
        item.manifest matches Some(x) ==> (express::parsed_deposit(x) matches Ok(d)
            ==> intake::validation_status(item) == d.validation.status && holds(
            x->Obj_0["express"@],
            "source"@,
            Tree::Str(d.source),
        ) && holds(x->Obj_0["express"@], "content_hash"@, Tree::Str(d.content_hash)) && (
        x->Obj_0["express"@]->Obj_0["validation"@]->Obj_0["status"@] matches Tree::Str(n) && (match d.validation.status {
            ValidationStatus::Valid => text::trimmed(n) == "valid"@,
            ValidationStatus::Invalid => text::trimmed(n) == "invalid"@,
            ValidationStatus::Pending => text::trimmed(n) == "pending"@,
        }))),
{
}

/// A validation run works on the source of the deposit, for the current
/// version of the model.
pub proof fn validations_work_on_the_deposit(s: StoreView, identifier: Seq<char>)
    ensures
        models_api::validation_work(s, identifier) matches Ok((source, version)) ==> {
            let item = s.items[identifier];
            &&& s.items.dom().contains(identifier)
            &&& item.item_class == ItemClass::Model
            &&& item.manifest matches Some(x)
            &&& x->Obj_0.dom().contains("express"@)
            &&& holds(x->Obj_0["express"@], "source"@, Tree::Str(source))
            &&& model::current(item.versions) matches Some(v) && v.version == version
        },
{
}

/// A validation is recorded only for a version that the model has.
pub proof fn validations_are_of_a_known_version(
    s: StoreView,
    identifier: Seq<char>,
    version: Seq<char>,
    run: RunView,
    now: Timestamp,
)
    requires
        forall|i: int|
            0 <= i < s.items[identifier].versions.len() ==> (
            #[trigger] s.items[identifier].versions[i]).version != version,
    ensures
        models_api::validated(s, identifier, version, run, now).0 is Err,
{
    model::unknown_number_finds_nothing(s.items[identifier].versions, version);
}

/// A service body in due form: a known class, at least one endpoint, each
/// with an address, a known status or none, and no other identifier than
/// its own.
pub open spec fn due_service_body(body: Tree, identifier: Seq<char>) -> bool {
    &&& body matches Tree::Obj(m)
    &&& m.dom().contains("class"@) && (m["class"@] matches Tree::Str(c)
        && discovery::parsed_service_class(c) is Some)
    &&& m.dom().contains("endpoints"@)
    &&& m["endpoints"@] matches Tree::Arr(a)
    &&& a.len() > 0
    &&& forall|i: int|
        0 <= i < a.len() ==> (#[trigger] a[i] matches Tree::Obj(e) && e.dom().contains("uri"@) && (
        e["uri"@] matches Tree::Str(u) && u.len() > 0) && (e.dom().contains("protocol_binding_ref"@)
            ==> e["protocol_binding_ref"@] is Str || e["protocol_binding_ref"@] is Null))
    &&& omits(body, "status"@) || (m["status"@] matches Tree::Str(x)
        && discovery::parsed_service_status(x) is Some)
    &&& m.dom().contains("identifier"@) ==> m["identifier"@] == Tree::Str(identifier)
}

/// The operator that a vouched body shows is read.
proof fn vouched_operators_are_read(keys: Keys, body: Tree, signature: SignatureView)
    ensures
        vouched(keys, body, signature) ==> (discovery::parsed_operator(
            body->Obj_0["operator"@],
        ) matches Ok(o) && body->Obj_0["operator"@]->Obj_0["id"@] == Tree::Str(o.id)
            && signature.key_id == discovery::key_id_of(o.public_key)),
{
    reveal_strlit("op-");
    assert("op-"@.len() == 3);
}

/// A service in due form with a signature that is vouched for is let in
/// under a free identifier.
#[verifier::spinoff_prover]
#[verifier::rlimit(40)]
pub proof fn due_services_are_let_in(
    s: StoreView,
    keys: Keys,
    t: Tree,
    now: Timestamp,
    identifier: Seq<char>,
    version: Seq<char>,
    from: Timestamp,
    until: Option<Timestamp>,
    body: Tree,
    signature: SignatureView,
)
    requires
        words(t, "identifier"@, identifier) && segment(identifier),
        words(t, "version"@, version) && segment(version),
        timely(t, from, until, now),
        signed_as_given(t, body, signature),
        due_service_body(body, identifier),
    ensures
        vouched(keys, body, signature) && crypto::ed25519_key_fault(
            keys[body->Obj_0["operator"@]->Obj_0["id"@]->Str_0],
        ) is None ==> match discovery_api::service_registered(s, keys, t, now).0 {
            Ok(r) => r.status == 201 && !s.services.dom().contains(identifier),
            Err(e) => e is Conflict && s.services.dom().contains(identifier),
        },
{
    timely_bodies_have_a_window(t, from, until, now);
    vouched_operators_are_read(keys, body, signature);
    let a = body->Obj_0["endpoints"@]->Arr_0;
    discovery::due_endpoints_are_read(a, a.len() as int);
    assert(request::is_token(identifier) && request::is_token(version));
    assert(discovery_api::signed_part(t) == Ok::<(Tree, SignatureView), RefusalView>((body, signature)));
    if vouched(keys, body, signature) && crypto::ed25519_key_fault(
        keys[body->Obj_0["operator"@]->Obj_0["id"@]->Str_0],
    ) is None {
        assert(discovery::parsed_service_body(body, identifier) is Ok);
        let o = discovery::parsed_operator(body->Obj_0["operator"@])->Ok_0;
        assert(discovery_api::admission(keys, o, body, signature, true) is Ok);
        assert(discovery_api::service_request(keys, t, identifier, now, true) is Ok);
    }
}

/// A manifest that a supersession brings along is pinned to no version but
/// the new one or one that the item already has.
#[verifier::spinoff_prover]
pub proof fn superseding_manifests_are_pinned(
    s: StoreView,
    q: ParamsView,
    identifier: Seq<char>,
    t: Tree,
    scope: Option<ItemClass>,
    now: Timestamp,
    x: Tree,
    pin: Seq<char>,
)
    requires
        holds(t, "manifest"@, x),
        holds(x, "version"@, Tree::Str(pin)),
        !words(t, "version"@, pin),
        forall|k: int|
            0 <= k < s.items[identifier].versions.len() ==> (
            #[trigger] s.items[identifier].versions[k]).version != pin,
    ensures
        items_api::superseded(s, q, identifier, t, scope, now).0 is Err,
{
    model::unknown_number_finds_nothing(s.items[identifier].versions, pin);
}

} // verus!
