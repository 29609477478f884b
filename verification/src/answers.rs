//! What an answer shows.
//!
//! Each rule names the members of an answer and says what stands under
//! them.

use vstd::prelude::*;
use crate::applicability_api;
use crate::cddal;
use crate::clock;
use crate::clock::TimeTriggerView;
use crate::discovery;
use crate::discovery_api;
use crate::express::ValidationStatus;
use crate::intake;
use crate::items_api;
use crate::items_api::ListingView;
use crate::json::Tree;
use crate::model;
use crate::model::{ItemClass, ItemView};
use crate::models_api;
use crate::promises::{asks, dated, dates, holds, omits, words};
use crate::request;
use crate::request::{ParamsView, RefusalView};
use crate::seed;
use crate::store;
use crate::store::{OpView, RecordView, StoreView};
use crate::text;
use crate::time;
use crate::time::Timestamp;

verus! {

/// The members of a compact view have different names.
proof fn summary_names_differ()
    ensures
        "identifier"@ != "register"@,
        "identifier"@ != "item_class"@,
        "identifier"@ != "title"@,
        "identifier"@ != "submitting_organization"@,
        "identifier"@ != "version"@,
        "register"@ != "item_class"@,
        "register"@ != "title"@,
        "register"@ != "submitting_organization"@,
        "register"@ != "version"@,
        "item_class"@ != "title"@,
        "item_class"@ != "submitting_organization"@,
        "item_class"@ != "version"@,
        "title"@ != "submitting_organization"@,
        "title"@ != "version"@,
        "submitting_organization"@ != "version"@,
{
    reveal_strlit("identifier");
    reveal_strlit("register");
    reveal_strlit("item_class");
    reveal_strlit("title");
    reveal_strlit("submitting_organization");
    reveal_strlit("version");
    assert("identifier"@.len() != "register"@.len());
    assert("identifier"@[1] != "item_class"@[1]);
    assert("identifier"@.len() != "title"@.len());
    assert("identifier"@.len() != "submitting_organization"@.len());
    assert("identifier"@.len() != "version"@.len());
    assert("register"@.len() != "item_class"@.len());
    assert("register"@.len() != "title"@.len());
    assert("register"@.len() != "submitting_organization"@.len());
    assert("register"@.len() != "version"@.len());
    assert("item_class"@.len() != "title"@.len());
    assert("item_class"@.len() != "submitting_organization"@.len());
    assert("item_class"@.len() != "version"@.len());
    assert("title"@.len() != "submitting_organization"@.len());
    assert("title"@.len() != "version"@.len());
    assert("submitting_organization"@.len() != "version"@.len());
}

/// The members of an answer to a supersession have different names.
proof fn supersession_names_differ()
    ensures
        "identifier"@ != "new_version"@,
        "identifier"@ != "superseded_version"@,
        "identifier"@ != "item"@,
        "identifier"@ != "reason"@,
        "identifier"@ != "audit_seq"@,
        "identifier"@ != "as_of"@,
        "identifier"@ != "warnings"@,
        "new_version"@ != "superseded_version"@,
        "new_version"@ != "item"@,
        "new_version"@ != "reason"@,
        "new_version"@ != "audit_seq"@,
        "new_version"@ != "as_of"@,
        "new_version"@ != "warnings"@,
        "superseded_version"@ != "item"@,
        "superseded_version"@ != "reason"@,
        "superseded_version"@ != "audit_seq"@,
        "superseded_version"@ != "as_of"@,
        "superseded_version"@ != "warnings"@,
        "item"@ != "reason"@,
        "item"@ != "audit_seq"@,
        "item"@ != "as_of"@,
        "item"@ != "warnings"@,
        "reason"@ != "audit_seq"@,
        "reason"@ != "as_of"@,
        "reason"@ != "warnings"@,
        "audit_seq"@ != "as_of"@,
        "audit_seq"@ != "warnings"@,
        "as_of"@ != "warnings"@,
{
    reveal_strlit("identifier");
    reveal_strlit("new_version");
    reveal_strlit("superseded_version");
    reveal_strlit("item");
    reveal_strlit("reason");
    reveal_strlit("audit_seq");
    reveal_strlit("as_of");
    reveal_strlit("warnings");
    assert("identifier"@.len() != "new_version"@.len());
    assert("identifier"@.len() != "superseded_version"@.len());
    assert("identifier"@.len() != "item"@.len());
    assert("identifier"@.len() != "reason"@.len());
    assert("identifier"@.len() != "audit_seq"@.len());
    assert("identifier"@.len() != "as_of"@.len());
    assert("identifier"@.len() != "warnings"@.len());
    assert("new_version"@.len() != "superseded_version"@.len());
    assert("new_version"@.len() != "item"@.len());
    assert("new_version"@.len() != "reason"@.len());
    assert("new_version"@.len() != "audit_seq"@.len());
    assert("new_version"@.len() != "as_of"@.len());
    assert("new_version"@.len() != "warnings"@.len());
    assert("superseded_version"@.len() != "item"@.len());
    assert("superseded_version"@.len() != "reason"@.len());
    assert("superseded_version"@.len() != "audit_seq"@.len());
    assert("superseded_version"@.len() != "as_of"@.len());
    assert("superseded_version"@.len() != "warnings"@.len());
    assert("item"@.len() != "reason"@.len());
    assert("item"@.len() != "audit_seq"@.len());
    assert("item"@.len() != "as_of"@.len());
    assert("item"@.len() != "warnings"@.len());
    assert("reason"@.len() != "audit_seq"@.len());
    assert("reason"@.len() != "as_of"@.len());
    assert("reason"@.len() != "warnings"@.len());
    assert("audit_seq"@.len() != "as_of"@.len());
    assert("audit_seq"@.len() != "warnings"@.len());
    assert("as_of"@.len() != "warnings"@.len());
}

/// The members of an answer to a registration have different names.
proof fn registration_names_differ()
    ensures
        "identifier"@ != "register"@,
        "identifier"@ != "item_class"@,
        "identifier"@ != "title"@,
        "identifier"@ != "submitting_organization"@,
        "identifier"@ != "versions"@,
        "identifier"@ != "manifest"@,
        "identifier"@ != "version"@,
        "identifier"@ != "as_of"@,
        "identifier"@ != "audit_seq"@,
        "identifier"@ != "warnings"@,
        "register"@ != "item_class"@,
        "register"@ != "title"@,
        "register"@ != "submitting_organization"@,
        "register"@ != "versions"@,
        "register"@ != "manifest"@,
        "register"@ != "version"@,
        "register"@ != "as_of"@,
        "register"@ != "audit_seq"@,
        "register"@ != "warnings"@,
        "item_class"@ != "title"@,
        "item_class"@ != "submitting_organization"@,
        "item_class"@ != "versions"@,
        "item_class"@ != "manifest"@,
        "item_class"@ != "version"@,
        "item_class"@ != "as_of"@,
        "item_class"@ != "audit_seq"@,
        "item_class"@ != "warnings"@,
        "title"@ != "submitting_organization"@,
        "title"@ != "versions"@,
        "title"@ != "manifest"@,
        "title"@ != "version"@,
        "title"@ != "as_of"@,
        "title"@ != "audit_seq"@,
        "title"@ != "warnings"@,
        "submitting_organization"@ != "versions"@,
        "submitting_organization"@ != "manifest"@,
        "submitting_organization"@ != "version"@,
        "submitting_organization"@ != "as_of"@,
        "submitting_organization"@ != "audit_seq"@,
        "submitting_organization"@ != "warnings"@,
        "versions"@ != "manifest"@,
        "versions"@ != "version"@,
        "versions"@ != "as_of"@,
        "versions"@ != "audit_seq"@,
        "versions"@ != "warnings"@,
        "manifest"@ != "version"@,
        "manifest"@ != "as_of"@,
        "manifest"@ != "audit_seq"@,
        "manifest"@ != "warnings"@,
        "version"@ != "as_of"@,
        "version"@ != "audit_seq"@,
        "version"@ != "warnings"@,
        "as_of"@ != "audit_seq"@,
        "as_of"@ != "warnings"@,
        "audit_seq"@ != "warnings"@,
{
    reveal_strlit("identifier");
    reveal_strlit("register");
    reveal_strlit("item_class");
    reveal_strlit("title");
    reveal_strlit("submitting_organization");
    reveal_strlit("versions");
    reveal_strlit("manifest");
    reveal_strlit("version");
    reveal_strlit("as_of");
    reveal_strlit("audit_seq");
    reveal_strlit("warnings");
    assert("identifier"@.len() != "register"@.len());
    assert("identifier"@[1] != "item_class"@[1]);
    assert("identifier"@.len() != "title"@.len());
    assert("identifier"@.len() != "submitting_organization"@.len());
    assert("identifier"@.len() != "versions"@.len());
    assert("identifier"@.len() != "manifest"@.len());
    assert("identifier"@.len() != "version"@.len());
    assert("identifier"@.len() != "as_of"@.len());
    assert("identifier"@.len() != "audit_seq"@.len());
    assert("identifier"@.len() != "warnings"@.len());
    assert("register"@.len() != "item_class"@.len());
    assert("register"@.len() != "title"@.len());
    assert("register"@.len() != "submitting_organization"@.len());
    assert("register"@[0] != "versions"@[0]);
    assert("register"@[0] != "manifest"@[0]);
    assert("register"@.len() != "version"@.len());
    assert("register"@.len() != "as_of"@.len());
    assert("register"@.len() != "audit_seq"@.len());
    assert("register"@[0] != "warnings"@[0]);
    assert("item_class"@.len() != "title"@.len());
    assert("item_class"@.len() != "submitting_organization"@.len());
    assert("item_class"@.len() != "versions"@.len());
    assert("item_class"@.len() != "manifest"@.len());
    assert("item_class"@.len() != "version"@.len());
    assert("item_class"@.len() != "as_of"@.len());
    assert("item_class"@.len() != "audit_seq"@.len());
    assert("item_class"@.len() != "warnings"@.len());
    assert("title"@.len() != "submitting_organization"@.len());
    assert("title"@.len() != "versions"@.len());
    assert("title"@.len() != "manifest"@.len());
    assert("title"@.len() != "version"@.len());
    assert("title"@[0] != "as_of"@[0]);
    assert("title"@.len() != "audit_seq"@.len());
    assert("title"@.len() != "warnings"@.len());
    assert("submitting_organization"@.len() != "versions"@.len());
    assert("submitting_organization"@.len() != "manifest"@.len());
    assert("submitting_organization"@.len() != "version"@.len());
    assert("submitting_organization"@.len() != "as_of"@.len());
    assert("submitting_organization"@.len() != "audit_seq"@.len());
    assert("submitting_organization"@.len() != "warnings"@.len());
    assert("versions"@[0] != "manifest"@[0]);
    assert("versions"@.len() != "version"@.len());
    assert("versions"@.len() != "as_of"@.len());
    assert("versions"@.len() != "audit_seq"@.len());
    assert("versions"@[0] != "warnings"@[0]);
    assert("manifest"@.len() != "version"@.len());
    assert("manifest"@.len() != "as_of"@.len());
    assert("manifest"@.len() != "audit_seq"@.len());
    assert("manifest"@[0] != "warnings"@[0]);
    assert("version"@.len() != "as_of"@.len());
    assert("version"@.len() != "audit_seq"@.len());
    assert("version"@.len() != "warnings"@.len());
    assert("as_of"@.len() != "audit_seq"@.len());
    assert("as_of"@.len() != "warnings"@.len());
    assert("audit_seq"@.len() != "warnings"@.len());
}

/// The members of a chain have different names.
proof fn chain_names_differ()
    ensures
        "identifier"@ != "chain"@,
        "identifier"@ != "terminal"@,
        "identifier"@ != "as_of"@,
        "chain"@ != "terminal"@,
        "chain"@ != "as_of"@,
        "terminal"@ != "as_of"@,
{
    reveal_strlit("identifier");
    reveal_strlit("chain");
    reveal_strlit("terminal");
    reveal_strlit("as_of");
    assert("identifier"@.len() != "chain"@.len());
    assert("identifier"@.len() != "terminal"@.len());
    assert("identifier"@.len() != "as_of"@.len());
    assert("chain"@.len() != "terminal"@.len());
    assert("chain"@[0] != "as_of"@[0]);
    assert("terminal"@.len() != "as_of"@.len());
}

/// The members of an evaluation have different names.
proof fn evaluation_names_differ()
    ensures
        "index"@ != "basis"@,
        "index"@ != "operator"@,
        "index"@ != "duration"@,
        "index"@ != "threshold"@,
        "index"@ != "satisfied"@,
        "basis"@ != "operator"@,
        "basis"@ != "duration"@,
        "basis"@ != "threshold"@,
        "basis"@ != "satisfied"@,
        "operator"@ != "duration"@,
        "operator"@ != "threshold"@,
        "operator"@ != "satisfied"@,
        "duration"@ != "threshold"@,
        "duration"@ != "satisfied"@,
        "threshold"@ != "satisfied"@,
{
    reveal_strlit("index");
    reveal_strlit("basis");
    reveal_strlit("operator");
    reveal_strlit("duration");
    reveal_strlit("threshold");
    reveal_strlit("satisfied");
    assert("index"@[0] != "basis"@[0]);
    assert("index"@.len() != "operator"@.len());
    assert("index"@.len() != "duration"@.len());
    assert("index"@.len() != "threshold"@.len());
    assert("index"@.len() != "satisfied"@.len());
    assert("basis"@.len() != "operator"@.len());
    assert("basis"@.len() != "duration"@.len());
    assert("basis"@.len() != "threshold"@.len());
    assert("basis"@.len() != "satisfied"@.len());
    assert("operator"@[0] != "duration"@[0]);
    assert("operator"@.len() != "threshold"@.len());
    assert("operator"@.len() != "satisfied"@.len());
    assert("duration"@.len() != "threshold"@.len());
    assert("duration"@.len() != "satisfied"@.len());
    assert("threshold"@[0] != "satisfied"@[0]);
}

/// The members of a list have different names.
proof fn list_names_differ()
    ensures
        "as_of"@ != "count"@,
        "as_of"@ != "services"@,
        "as_of"@ != "models"@,
        "as_of"@ != "items"@,
        "as_of"@ != "mappings"@,
        "as_of"@ != "query"@,
        "count"@ != "services"@,
        "count"@ != "models"@,
        "count"@ != "items"@,
        "count"@ != "mappings"@,
        "count"@ != "query"@,
        "services"@ != "models"@,
        "services"@ != "items"@,
        "services"@ != "mappings"@,
        "services"@ != "query"@,
        "models"@ != "items"@,
        "models"@ != "mappings"@,
        "models"@ != "query"@,
        "items"@ != "mappings"@,
        "items"@ != "query"@,
        "mappings"@ != "query"@,
{
    reveal_strlit("as_of");
    reveal_strlit("count");
    reveal_strlit("services");
    reveal_strlit("models");
    reveal_strlit("items");
    reveal_strlit("mappings");
    reveal_strlit("query");
    assert("as_of"@[0] != "count"@[0]);
    assert("as_of"@.len() != "services"@.len());
    assert("as_of"@.len() != "models"@.len());
    assert("as_of"@[0] != "items"@[0]);
    assert("as_of"@.len() != "mappings"@.len());
    assert("as_of"@[0] != "query"@[0]);
    assert("count"@.len() != "services"@.len());
    assert("count"@.len() != "models"@.len());
    assert("count"@[0] != "items"@[0]);
    assert("count"@.len() != "mappings"@.len());
    assert("count"@[0] != "query"@[0]);
    assert("services"@.len() != "models"@.len());
    assert("services"@.len() != "items"@.len());
    assert("services"@[0] != "mappings"@[0]);
    assert("services"@.len() != "query"@.len());
    assert("models"@.len() != "items"@.len());
    assert("models"@.len() != "mappings"@.len());
    assert("models"@.len() != "query"@.len());
    assert("items"@.len() != "mappings"@.len());
    assert("items"@[0] != "query"@[0]);
    assert("mappings"@.len() != "query"@.len());
}

/// The members of an answer to a binding have different names.
proof fn binding_answer_names_differ()
    ensures
        "id"@ != "subject"@,
        "id"@ != "profile_item"@,
        "id"@ != "retroactive"@,
        "id"@ != "audit_seq"@,
        "id"@ != "as_of"@,
        "id"@ != "register"@,
        "id"@ != "profile_version"@,
        "id"@ != "effective_from"@,
        "id"@ != "effective_until"@,
        "id"@ != "registered_at"@,
        "subject"@ != "profile_item"@,
        "subject"@ != "retroactive"@,
        "subject"@ != "audit_seq"@,
        "subject"@ != "as_of"@,
        "subject"@ != "register"@,
        "subject"@ != "profile_version"@,
        "subject"@ != "effective_from"@,
        "subject"@ != "effective_until"@,
        "subject"@ != "registered_at"@,
        "profile_item"@ != "retroactive"@,
        "profile_item"@ != "audit_seq"@,
        "profile_item"@ != "as_of"@,
        "profile_item"@ != "register"@,
        "profile_item"@ != "profile_version"@,
        "profile_item"@ != "effective_from"@,
        "profile_item"@ != "effective_until"@,
        "profile_item"@ != "registered_at"@,
        "retroactive"@ != "audit_seq"@,
        "retroactive"@ != "as_of"@,
        "retroactive"@ != "register"@,
        "retroactive"@ != "profile_version"@,
        "retroactive"@ != "effective_from"@,
        "retroactive"@ != "effective_until"@,
        "retroactive"@ != "registered_at"@,
        "audit_seq"@ != "as_of"@,
        "audit_seq"@ != "register"@,
        "audit_seq"@ != "profile_version"@,
        "audit_seq"@ != "effective_from"@,
        "audit_seq"@ != "effective_until"@,
        "audit_seq"@ != "registered_at"@,
        "as_of"@ != "register"@,
        "as_of"@ != "profile_version"@,
        "as_of"@ != "effective_from"@,
        "as_of"@ != "effective_until"@,
        "as_of"@ != "registered_at"@,
        "register"@ != "profile_version"@,
        "register"@ != "effective_from"@,
        "register"@ != "effective_until"@,
        "register"@ != "registered_at"@,
        "profile_version"@ != "effective_from"@,
        "profile_version"@ != "effective_until"@,
        "profile_version"@ != "registered_at"@,
        "effective_from"@ != "effective_until"@,
        "effective_from"@ != "registered_at"@,
        "effective_until"@ != "registered_at"@,
{
    reveal_strlit("id");
    reveal_strlit("subject");
    reveal_strlit("profile_item");
    reveal_strlit("retroactive");
    reveal_strlit("audit_seq");
    reveal_strlit("as_of");
    reveal_strlit("register");
    reveal_strlit("profile_version");
    reveal_strlit("effective_from");
    reveal_strlit("effective_until");
    reveal_strlit("registered_at");
    assert("id"@.len() != "subject"@.len());
    assert("id"@.len() != "profile_item"@.len());
    assert("id"@.len() != "retroactive"@.len());
    assert("id"@.len() != "audit_seq"@.len());
    assert("id"@.len() != "as_of"@.len());
    assert("id"@.len() != "register"@.len());
    assert("id"@.len() != "profile_version"@.len());
    assert("id"@.len() != "effective_from"@.len());
    assert("id"@.len() != "effective_until"@.len());
    assert("id"@.len() != "registered_at"@.len());
    assert("subject"@.len() != "profile_item"@.len());
    assert("subject"@.len() != "retroactive"@.len());
    assert("subject"@.len() != "audit_seq"@.len());
    assert("subject"@.len() != "as_of"@.len());
    assert("subject"@.len() != "register"@.len());
    assert("subject"@.len() != "profile_version"@.len());
    assert("subject"@.len() != "effective_from"@.len());
    assert("subject"@.len() != "effective_until"@.len());
    assert("subject"@.len() != "registered_at"@.len());
    assert("profile_item"@.len() != "retroactive"@.len());
    assert("profile_item"@.len() != "audit_seq"@.len());
    assert("profile_item"@.len() != "as_of"@.len());
    assert("profile_item"@.len() != "register"@.len());
    assert("profile_item"@.len() != "profile_version"@.len());
    assert("profile_item"@.len() != "effective_from"@.len());
    assert("profile_item"@.len() != "effective_until"@.len());
    assert("profile_item"@.len() != "registered_at"@.len());
    assert("retroactive"@.len() != "audit_seq"@.len());
    assert("retroactive"@.len() != "as_of"@.len());
    assert("retroactive"@.len() != "register"@.len());
    assert("retroactive"@.len() != "profile_version"@.len());
    assert("retroactive"@.len() != "effective_from"@.len());
    assert("retroactive"@.len() != "effective_until"@.len());
    assert("retroactive"@.len() != "registered_at"@.len());
    assert("audit_seq"@.len() != "as_of"@.len());
    assert("audit_seq"@.len() != "register"@.len());
    assert("audit_seq"@.len() != "profile_version"@.len());
    assert("audit_seq"@.len() != "effective_from"@.len());
    assert("audit_seq"@.len() != "effective_until"@.len());
    assert("audit_seq"@.len() != "registered_at"@.len());
    assert("as_of"@.len() != "register"@.len());
    assert("as_of"@.len() != "profile_version"@.len());
    assert("as_of"@.len() != "effective_from"@.len());
    assert("as_of"@.len() != "effective_until"@.len());
    assert("as_of"@.len() != "registered_at"@.len());
    assert("register"@.len() != "profile_version"@.len());
    assert("register"@.len() != "effective_from"@.len());
    assert("register"@.len() != "effective_until"@.len());
    assert("register"@.len() != "registered_at"@.len());
    assert("profile_version"@.len() != "effective_from"@.len());
    assert("profile_version"@[0] != "effective_until"@[0]);
    assert("profile_version"@.len() != "registered_at"@.len());
    assert("effective_from"@.len() != "effective_until"@.len());
    assert("effective_from"@.len() != "registered_at"@.len());
    assert("effective_until"@.len() != "registered_at"@.len());
}


/// The compact view of an item bears its identifier, register, class, title
/// and organisation, and the version in force at the instant asked for, or
/// the current one.
pub proof fn summaries_bear_the_items_fields(item: ItemView, at: Option<Timestamp>)
    ensures
        ({
            let t = Tree::Obj(items_api::summary_members(item, at));
            let v = match at {
                Some(x) => model::in_force(item.versions, x),
                None => model::current(item.versions),
            };
            &&& holds(t, "identifier"@, Tree::Str(item.identifier))
            &&& holds(t, "register"@, Tree::Str(item.register))
            &&& holds(t, "item_class"@, Tree::Str(model::class_name(item.item_class)))
            &&& holds(t, "title"@, Tree::Str(item.title))
            &&& match item.submitting_organization {
                Some(o) => holds(t, "submitting_organization"@, Tree::Str(o)),
                None => omits(t, "submitting_organization"@),
            }
            &&& holds(
                t,
                "version"@,
                match v {
                    Some(x) => model::version_tree(x, model::window_end(item.versions, x)),
                    None => Tree::Null,
                },
            )
        }),
{
    summary_names_differ();
}

/// The view of a new item shows its members and its only version.
#[verifier::spinoff_prover]
proof fn new_items_are_shown(item: ItemView, now: Timestamp, seq: u64, w: Seq<intake::NoteView>)
    requires
        item.versions.len() == 1,
        item.versions[0].status == model::Status::Valid,
        item.versions[0].superseded_by_version is None,
    ensures
        ({
            let t = items_api::created_tree(item, now, seq, w);
            &&& holds(t, "identifier"@, Tree::Str(item.identifier))
            &&& holds(t, "register"@, Tree::Str(item.register))
            &&& holds(t, "title"@, Tree::Str(item.title))
            &&& item.manifest matches Some(x) ==> holds(t, "manifest"@, x)
            &&& holds(
                t,
                "version"@,
                model::version_tree(item.versions[0], item.versions[0].effective_until),
            )
            &&& holds(t, "audit_seq"@, Tree::Int(seq as int))
            &&& holds(t, "as_of"@, Tree::Str(time::stamp_text(now.secs as int)))
        }),
{
    registration_names_differ();
    model::items_are_shown_by_name(item);
    let v = item.versions[0];
    assert(item.versions.contains(v));
    model::current_version_rule(item.versions);
    let c = model::current(item.versions)->Some_0;
    assert(item.versions[item.versions.index_of(c)] == c);
    if v.effective_until is None {
        model::unlinked_version_stays_open(item.versions, v);
    }
}

/// The answer to a registration shows the item as it is registered, the
/// number of its record, the instant, and one warning for each note of the
/// intake.
#[verifier::spinoff_prover]
pub proof fn registrations_are_answered_with_the_item(
    s: StoreView,
    t: Tree,
    scope: Option<ItemClass>,
    now: Timestamp,
)
    ensures
        items_api::registered(s, t, scope, now).0 matches Ok(r) ==> {
            let after = items_api::registered(s, t, scope, now).1;
            &&& r.status == 201
            &&& r.as_of == now
            &&& after.log.last().op matches OpView::RegisterItem { item }
            &&& holds(r.body, "identifier"@, Tree::Str(item.identifier))
            &&& holds(r.body, "register"@, Tree::Str(item.register))
            &&& holds(r.body, "title"@, Tree::Str(item.title))
            &&& item.manifest matches Some(x) ==> holds(r.body, "manifest"@, x)
            &&& holds(
                r.body,
                "version"@,
                model::version_tree(item.versions[0], item.versions[0].effective_until),
            )
            &&& holds(r.body, "audit_seq"@, Tree::Int(after.log.last().seq as int))
            &&& holds(r.body, "as_of"@, Tree::Str(time::stamp_text(now.secs as int)))
        },
{
    if items_api::registered(s, t, scope, now).0 is Ok {
        let item = items_api::item_request(t, scope, now)->Ok_0.0;
        let strict = items_api::item_request(t, scope, now)->Ok_0.1;
        let w = intake::intake_verdict(item, s, strict)->Ok_0;
        let after = items_api::registered(s, t, scope, now).1;
        assert(after.log.last().op == OpView::RegisterItem { item });
        new_items_are_shown(item, now, after.log.last().seq, w);
    }
}

/// Leniently, what a profile demands too much of its subject is shown as
/// warnings, one for each, with its place and its reason.
#[verifier::spinoff_prover]
pub proof fn warnings_are_shown(item: ItemView, now: Timestamp, seq: u64, w: Seq<intake::NoteView>, k: int)
    requires
        0 <= k < w.len(),
    ensures
        items_api::created_tree(item, now, seq, w) matches Tree::Obj(m) && m.dom().contains("warnings"@)
            && (m["warnings"@] matches Tree::Arr(a) && a.len() == w.len() && holds(
            a[k],
            "check"@,
            Tree::Str(w[k].check),
        ) && holds(a[k], "path"@, Tree::Str(w[k].path)) && holds(
            a[k],
            "message"@,
            Tree::Str(w[k].message),
        )),
{
    reveal_strlit("check");
    reveal_strlit("path");
    reveal_strlit("message");
    assert("check"@.len() == 5 && "path"@.len() == 4 && "message"@.len() == 7);
}

/// The answer to a supersession shows the new version and the superseded
/// one as they now stand, the reason, the number of the record and the
/// instant.
#[verifier::spinoff_prover]
#[verifier::rlimit(40)]
pub proof fn supersessions_are_answered_with_both_versions(
    s: StoreView,
    q: ParamsView,
    identifier: Seq<char>,
    t: Tree,
    scope: Option<ItemClass>,
    now: Timestamp,
)
    ensures
        items_api::superseded(s, q, identifier, t, scope, now).0 matches Ok(r) ==> {
            let after = items_api::superseded(s, q, identifier, t, scope, now).1;
            let vs = after.items[identifier].versions;
            &&& r.status == 201
            &&& r.as_of == now
            &&& holds(r.body, "identifier"@, Tree::Str(identifier))
            &&& holds(r.body, "new_version"@, model::version_tree(vs.last(), vs.last().effective_until))
            &&& vs.last().notes matches Some(reason) && holds(r.body, "reason"@, Tree::Str(reason))
            &&& holds(r.body, "item"@, model::item_tree(after.items[identifier]))
            &&& holds(r.body, "audit_seq"@, Tree::Int(after.log.last().seq as int))
            &&& holds(r.body, "as_of"@, Tree::Str(time::stamp_text(now.secs as int)))
        },
{
    supersession_names_differ();
    if items_api::superseded(s, q, identifier, t, scope, now).0 is Ok {
        let req = items_api::supersede_request(t, now)->Ok_0;
        let old = s.items[identifier];
        let target = items_api::supersede_target(t, old, identifier)->Ok_0;
        store::supersession_keeps_versions(old.versions, target, req.successor);
        let vs = store::superseded_versions(old.versions, target, req.successor);
        if req.successor.effective_until is None {
            model::unlinked_version_stays_open(vs, req.successor);
        }
    }
}

/// The answer to a binding shows the binding as it is registered, with its
/// number, the number of its record and the instant.
#[verifier::spinoff_prover]
pub proof fn bindings_are_answered_with_the_binding(s: StoreView, t: Tree, now: Timestamp)
    requires
        !(t matches Tree::Obj(m) && m.dom().contains("subject_facts"@)),
    ensures
        applicability_api::bound(s, t, now).0 matches Ok(r) ==> {
            let after = applicability_api::bound(s, t, now).1;
            let b = after.bindings.last();
            &&& r.status == 201
            &&& r.as_of == now
            &&& holds(r.body, "id"@, Tree::Int(b.id as int))
            &&& holds(r.body, "subject"@, Tree::Str(b.subject))
            &&& holds(r.body, "profile_item"@, Tree::Str(b.profile_item))
            &&& holds(r.body, "retroactive"@, Tree::Bool(b.retroactive))
            &&& holds(r.body, "audit_seq"@, Tree::Int(after.log.last().seq as int))
            &&& holds(r.body, "as_of"@, Tree::Str(time::stamp_text(now.secs as int)))
        },
{
    binding_answer_names_differ();
    if applicability_api::bound(s, t, now).0 is Ok {
        let after = applicability_api::bound(s, t, now).1;
        model::bindings_are_shown_by_name(after.bindings.last());
    }
}

/// An evaluation by body is about the subject, the instant and the facts
/// that the body gives.
pub proof fn evaluations_take_the_body_at_its_word(t: Tree)
    ensures
        applicability_api::evaluation_request(t) matches Ok((subject, at, facts)) ==> {
            &&& words(
                t,
                if t->Obj_0.dom().contains("product_type"@) {
                    "product_type"@
                } else {
                    "subject"@
                },
                subject,
            )
            &&& match at {
                Some(x) => dates(t, "at"@, x),
                None => omits(t, "at"@),
            }
            &&& facts is Obj && holds(t, "subject_facts"@, facts)
            &&& !t->Obj_0.dom().contains("profile_id"@)
        },
{
    if let Tree::Obj(m) = t {
        if m.dom().contains("at"@) {
            if let Tree::Str(raw) = m["at"@] {
                time::parsed_instants_fit(raw);
            }
        }
    }
}

/// A query is about the subject that its parameters name, at the instant
/// they ask for, and answered on the facts that they give.
pub proof fn queries_take_the_parameters_at_their_word(
    s: StoreView,
    q: ParamsView,
    facts: Option<Result<Tree, RefusalView>>,
    now: Timestamp,
)
    ensures
        applicability_api::queried(s, q, facts, now) matches Ok(r) ==> {
            let subject = if q.dom().contains("product_type"@) && text::trimmed(
                q["product_type"@],
            ).len() > 0 {
                text::trimmed(q["product_type"@])
            } else {
                text::trimmed(q["subject"@])
            };
            let at = if asks(q) is Some {
                Some(r.as_of)
            } else {
                None
            };
            let known = match facts {
                Some(f) => Some(f->Ok_0),
                None => None,
            };
            &&& r.status == 200
            &&& dated(q, r.as_of, now)
            &&& subject.len() > 0
            &&& facts matches Some(f) ==> f is Ok
            &&& applicability_api::applicability(s, subject, at, known, now) == Ok::<Tree, RefusalView>(
                r.body,
            )
        },
{
    if let Some(raw) = asks(q) {
        time::parsed_instants_fit(raw);
    }
}

/// An evaluation shows the place of its trigger, what the trigger says, its
/// threshold and whether it is satisfied.
pub proof fn evaluations_are_shown_by_name(index: int, t: TimeTriggerView, e: clock::ClockEvaluation)
    ensures
        ({
            let x = applicability_api::evaluation_tree(index, t, e);
            &&& holds(x, "index"@, Tree::Int(index))
            &&& holds(x, "basis"@, Tree::Str(t.basis))
            &&& holds(x, "operator"@, Tree::Str(t.operator))
            &&& holds(x, "duration"@, Tree::Str(t.duration_raw))
            &&& holds(x, "threshold"@, Tree::Str(time::stamp_text(e.threshold.secs as int)))
            &&& holds(x, "satisfied"@, Tree::Bool(e.satisfied))
        }),
{
    evaluation_names_differ();
}

/// The reading of a chain shows its versions in order, each with the end of
/// its window, and the last of them as the terminal one.
#[verifier::spinoff_prover]
pub proof fn chains_are_read_in_order(
    s: StoreView,
    q: ParamsView,
    identifier: Seq<char>,
    scope: Option<ItemClass>,
    now: Timestamp,
    k: int,
)
    ensures
        items_api::read_chain(s, q, identifier, scope, now) matches Ok(r) ==> {
            let item = s.items[identifier];
            let from = if q.dom().contains("from"@) && text::trimmed(q["from"@]).len() > 0 {
                Some(text::trimmed(q["from"@]))
            } else {
                None
            };
            &&& s.items.dom().contains(identifier)
            &&& scope matches Some(c) ==> item.item_class == c
            &&& r.status == 200
            &&& dated(q, r.as_of, now)
            &&& holds(r.body, "identifier"@, Tree::Str(identifier))
            &&& holds(r.body, "as_of"@, Tree::Str(time::stamp_text(r.as_of.secs as int)))
            &&& model::chain_of(item, from) matches Ok(chain)
            &&& r.body->Obj_0.dom().contains("chain"@)
            &&& r.body->Obj_0["chain"@] matches Tree::Arr(a)
            &&& a.len() == chain.len()
            &&& 0 <= k < a.len() ==> a[k] == model::version_tree(
                chain[k],
                model::window_end(item.versions, chain[k]),
            )
            &&& a.len() > 0 ==> holds(r.body, "terminal"@, a.last())
        },
{
    if let Some(raw) = asks(q) {
        time::parsed_instants_fit(raw);
    }
    chain_names_differ();
}

/// A list of services shows the services of the class and the jurisdiction
/// asked for, each as its own reading would, and counts them.
#[verifier::spinoff_prover]
pub proof fn service_lists_show_what_is_asked_for(s: StoreView, q: ParamsView, now: Timestamp, k: int)
    ensures
        discovery_api::services_listed(s, q, now) matches Ok(r) ==> {
            let class = if q.dom().contains("class"@) && text::trimmed(q["class"@]).len() > 0 {
                discovery::parsed_service_class(text::trimmed(q["class"@]))
            } else {
                None
            };
            let jurisdiction = if q.dom().contains("jurisdiction"@) && text::trimmed(
                q["jurisdiction"@],
            ).len() > 0 {
                Some(text::trimmed(q["jurisdiction"@]))
            } else {
                None
            };
            let found = store::services_matching(s, class, jurisdiction);
            let at = if asks(q) is Some {
                Some(r.as_of)
            } else {
                None
            };
            &&& r.status == 200
            &&& dated(q, r.as_of, now)
            &&& q.dom().contains("class"@) && text::trimmed(q["class"@]).len() > 0 ==> class is Some
            &&& holds(r.body, "as_of"@, Tree::Str(time::stamp_text(r.as_of.secs as int)))
            &&& holds(r.body, "count"@, Tree::Int(found.len() as int))
            &&& r.body->Obj_0.dom().contains("services"@)
            &&& r.body->Obj_0["services"@] matches Tree::Arr(a)
            &&& a.len() == found.len()
            &&& 0 <= k < a.len() ==> a[k] == discovery::service_tree(found[k], r.as_of, at)
        },
{
    if let Some(raw) = asks(q) {
        time::parsed_instants_fit(raw);
    }
    list_names_differ();
}

/// A list of models shows the models of the register asked for and, of
/// each, how its validation came out.
#[verifier::spinoff_prover]
pub proof fn model_lists_show_the_validation(s: StoreView, q: ParamsView, now: Timestamp, k: int)
    ensures
        models_api::models_listed(s, q, now) matches Ok(r) ==> {
            let register = if q.dom().contains("register"@) && text::trimmed(q["register"@]).len() > 0 {
                Some(text::trimmed(q["register"@]))
            } else {
                None
            };
            let found = store::items_matching(s, Some(ItemClass::Model), register);
            &&& r.status == 200
            &&& dated(q, r.as_of, now)
            &&& holds(r.body, "count"@, Tree::Int(found.len() as int))
            &&& r.body->Obj_0.dom().contains("models"@)
            &&& r.body->Obj_0["models"@] matches Tree::Arr(a)
            &&& a.len() == found.len()
            &&& 0 <= k < a.len() ==> {
                let status = intake::validation_status(found[k]);
                &&& status == ValidationStatus::Valid ==> holds(a[k], "validation"@, Tree::Str("valid"@))
                &&& status == ValidationStatus::Invalid ==> holds(
                    a[k],
                    "validation"@,
                    Tree::Str("invalid"@),
                )
                &&& status == ValidationStatus::Pending ==> holds(
                    a[k],
                    "validation"@,
                    Tree::Str("pending"@),
                )
            }
        },
{
    if let Some(raw) = asks(q) {
        time::parsed_instants_fit(raw);
    }
    list_names_differ();
}

/// The plain-text listing is the document of the entries of the items that
/// the JSON listing would hold.
pub proof fn both_listings_hold_the_same_items(
    s: StoreView,
    q: ParamsView,
    scope: Option<ItemClass>,
    now: Timestamp,
    a: Option<Seq<char>>,
    b: Option<Seq<char>>,
)
    ensures
        match (items_api::listed(s, q, scope, a, now), items_api::listed(s, q, scope, b, now)) {
            (Ok(ListingView::Json { reply, fallback }), Ok(ListingView::Cddal { as_of, text })) => {
                &&& reply.as_of == as_of
                &&& items_api::listing_request(s, q, scope) matches Ok((at, items))
                &&& text == cddal::document(
                    Seq::new(items.len(), |i: int| cddal::term_of(items[i], at)),
                )
                &&& reply.body->Obj_0["items"@] == Tree::Arr(
                    Seq::new(
                        items.len(),
                        |i: int| Tree::Obj(items_api::summary_members(items[i], at)),
                    ),
                )
            },
            (Err(e), Err(f)) => e == f,
            (Ok(_), Ok(_)) => true,
            _ => false,
        },
{
    if let Ok((at, items)) = items_api::listing_request(s, q, scope) {
        assert(items_api::terms(items, at) =~= Seq::new(
            items.len(),
            |i: int| cddal::term_of(items[i], at),
        ));
        assert(items_api::summaries(items, at) =~= Seq::new(
            items.len(),
            |i: int| Tree::Obj(items_api::summary_members(items[i], at)),
        ));
    }
}

/// A page of the audit log shows how many records there are, where it
/// starts, and the records from there on, each with its number and instant.
pub proof fn log_pages_show_the_records(log: Seq<RecordView>, limit: int, offset: int, k: int)
    requires
        0 <= limit,
        0 <= offset,
    ensures
        ({
            let t = store::log_tree(log, limit, offset);
            &&& holds(t, "total"@, Tree::Int(log.len() as int))
            &&& holds(t, "offset"@, Tree::Int(offset))
            &&& t->Obj_0.dom().contains("records"@)
            &&& t->Obj_0["records"@] matches Tree::Arr(a)
            &&& a.len() <= limit
            &&& offset <= log.len() ==> a.len() == (if log.len() - offset <= limit {
                log.len() - offset
            } else {
                limit
            })
            &&& 0 <= k < a.len() ==> offset + k < log.len() && holds(
                a[k],
                "seq"@,
                Tree::Int(log[offset + k].seq as int),
            ) && holds(
                a[k],
                "recorded_at"@,
                Tree::Str(time::stamp_text(log[offset + k].recorded_at.secs as int)),
            )
        }),
{
    reveal_strlit("total");
    reveal_strlit("offset");
    reveal_strlit("records");
    reveal_strlit("seq");
    reveal_strlit("recorded_at");
    assert("total"@.len() == 5 && "offset"@.len() == 6 && "records"@.len() == 7 && "seq"@.len() == 3
        && "recorded_at"@.len() == 11);
    store::pages_cut_the_log(log, limit, offset, k);
}

/// A refusal is answered with its message under `error`; a rejection lists
/// its reasons besides.
pub proof fn refusals_say_why(r: RefusalView)
    ensures
        (r matches RefusalView::BadRequest(m) ==> holds(
            request::refusal_tree(r),
            "error"@,
            Tree::Str(m),
        )),
        (r matches RefusalView::NotFound(m) ==> holds(request::refusal_tree(r), "error"@, Tree::Str(m))),
        (r matches RefusalView::Conflict(m) ==> holds(request::refusal_tree(r), "error"@, Tree::Str(m))),
        r is Unauthorized ==> holds(request::refusal_tree(r), "error"@, Tree::Str("unauthorized"@)),
        (r matches RefusalView::Rejected(es) ==> {
            &&& request::refusal_tree(r)->Obj_0.dom().contains("errors"@)
            &&& request::refusal_tree(r)->Obj_0["errors"@] matches Tree::Arr(a)
            &&& a.len() == es.len()
            &&& es.len() > 0 ==> holds(
                request::refusal_tree(r),
                "error"@,
                Tree::Str(es[0].check + " rejected the item: "@ + es[0].message),
            )
        }),
{
    reveal_strlit("error");
    reveal_strlit("errors");
    assert("error"@.len() == 5 && "errors"@.len() == 6);
}

/// Seeding is refused where it is disabled, and done at most once: a
/// register that is already seeded stays as it is.
pub proof fn seeding_is_done_once(s: StoreView, enabled: bool, already: bool, now: Timestamp)
    ensures
        ({
            let (r, after, done) = seed::seeded(s, enabled, already, now);
            &&& !enabled ==> (r matches Err(e) && e is BadRequest) && after == s && done == already
            &&& enabled && already ==> (r matches Ok(x) && x.status == 200 && holds(
                x.body,
                "status"@,
                Tree::Str("already-seeded"@),
            )) && after == s && done
            &&& enabled && !already ==> match r {
                Ok(x) => x.status == 200 && x.as_of == now && done && holds(
                    x.body,
                    "status"@,
                    Tree::Str("seeded"@),
                ),
                Err(_) => after == s && !done,
            }
        }),
{
    reveal_strlit("status");
    reveal_strlit("counts");
    assert("status"@[0] != "counts"@[0]);
}

/// A lookup of mappings needs something to look for, and shows the matching
/// mappings of the register asked for, counts them and repeats the question.
#[verifier::spinoff_prover]
pub proof fn lookups_show_the_matching_mappings(s: StoreView, q: ParamsView, now: Timestamp)
    ensures
        ({
            let given = |key: Seq<char>|
                if q.dom().contains(key) && text::trimmed(q[key]).len() > 0 {
                    Some(text::trimmed(q[key]))
                } else {
                    None
                };
            let (item, source, target) = (given("item"@), given("source"@), given("target"@));
            match models_api::mappings_found(s, q, now) {
                Ok(r) => {
                    let among = store::items_matching(
                        s,
                        Some(ItemClass::CrossRegisterMapping),
                        given("register"@),
                    );
                    let at = if asks(q) is Some {
                        Some(r.as_of)
                    } else {
                        None
                    };
                    let found = models_api::mappings_among(
                        among,
                        item,
                        source,
                        target,
                        at,
                        among.len() as int,
                    );
                    &&& item is Some || source is Some || target is Some
                    &&& r.status == 200
                    &&& dated(q, r.as_of, now)
                    &&& holds(r.body, "count"@, Tree::Int(found.len() as int))
                    &&& holds(r.body, "mappings"@, Tree::Arr(found))
                    &&& holds(r.body, "as_of"@, Tree::Str(time::stamp_text(r.as_of.secs as int)))
                },
                Err(e) => e is BadRequest && ((item is None && source is None && target is None) || (
                asks(q) matches Some(raw) && time::parsed(raw) is None)),
            }
        }),
{
    if let Some(raw) = asks(q) {
        time::parsed_instants_fit(raw);
    }
    list_names_differ();
}

} // verus!
