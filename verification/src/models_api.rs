//! The model endpoints (deposits of EXPRESS sources), the lookup of
//! cross-register mappings, the served profile schema and the audit log.
//!
//! A deposit is decided in two steps around the run of the validator: what
//! the request asks for, and what becomes of it given how the run went.

use vstd::prelude::*;
use crate::discovery;
use crate::express;
use crate::express::{RunView, ValidationStatus, ValidationView, ValidatorRun};
use crate::fields;
use crate::intake;
use crate::items_api;
use crate::json;
use crate::json::{Json, Object, Tree};
use crate::manifest;
use crate::mapping;
use crate::model;
use crate::model::{Item, ItemClass, ItemView};
use crate::request;
use crate::request::{Params, ParamsView, Refusal, RefusalView, Reply, ReplyView};
use crate::store;
use crate::store::{OpView, Store, StoreView};
use crate::text;
use crate::time::Timestamp;

verus! {

/// What a deposit asks for.
#[derive(Debug, PartialEq, Eq)]
pub struct ModelRequest {
    pub register: String,
    pub identifier: String,
    pub title: String,
    pub submitting_organization: Option<String>,
    pub version: String,
    pub source: String,
    pub effective_from: Timestamp,
    pub effective_until: Option<Timestamp>,
}

/// The content of what a deposit asks for.
pub struct ModelRequestView {
    pub register: Seq<char>,
    pub identifier: Seq<char>,
    pub title: Seq<char>,
    pub submitting_organization: Option<Seq<char>>,
    pub version: Seq<char>,
    pub source: Seq<char>,
    pub effective_from: Timestamp,
    pub effective_until: Option<Timestamp>,
}

impl View for ModelRequest {
    type V = ModelRequestView;

    open spec fn view(&self) -> ModelRequestView {
        ModelRequestView {
            register: self.register@,
            identifier: self.identifier@,
            title: self.title@,
            submitting_organization: text::opt_view(self.submitting_organization),
            version: self.version@,
            source: self.source@,
            effective_from: self.effective_from,
            effective_until: self.effective_until,
        }
    }
}

/// What a deposit asks for. The source is taken exactly as it is.
pub open spec fn model_request(t: Tree, now: Timestamp) -> Result<ModelRequestView, RefusalView> {
    let register = request::required(t, "register_id"@);
    let identifier = request::required_token(t, "item_id"@);
    let title = request::title_of(t);
    let organization = request::optional_text(t, "submitting_organization"@);
    let version = request::required_token(t, "version"@);
    let source = request::required_raw(t, "source"@);
    let window = request::window_of(t, now);
    if register is Err {
        Err(register->Err_0)
    } else if identifier is Err {
        Err(identifier->Err_0)
    } else if title is Err {
        Err(title->Err_0)
    } else if organization is Err {
        Err(organization->Err_0)
    } else if version is Err {
        Err(version->Err_0)
    } else if source is Err {
        Err(source->Err_0)
    } else if window is Err {
        Err(window->Err_0)
    } else {
        Ok(
            ModelRequestView {
                register: register->Ok_0,
                identifier: identifier->Ok_0,
                title: title->Ok_0,
                submitting_organization: organization->Ok_0,
                version: version->Ok_0,
                source: source->Ok_0,
                effective_from: window->Ok_0.0,
                effective_until: window->Ok_0.1,
            },
        )
    }
}

/// Reads what a deposit asks for, from a parsed body.
pub fn read_model_request(v: &Json, now: Timestamp) -> (r: Result<ModelRequest, Refusal>)
    ensures
        match r {
            Ok(x) => model_request(v@, now) == Ok::<ModelRequestView, RefusalView>(x@),
            Err(e) => model_request(v@, now) == Err::<ModelRequestView, RefusalView>(e@),
        },
{
    let register = match request::req_str(v, "register_id") {
        Ok(s) => s,
        Err(e) => return Err(e),
    };
    let identifier = match request::req_token(v, "item_id") {
        Ok(s) => s,
        Err(e) => return Err(e),
    };
    let title = match request::body_title(v) {
        Ok(s) => s,
        Err(e) => return Err(e),
    };
    let submitting_organization = match request::opt_str(v, "submitting_organization") {
        Ok(s) => s,
        Err(e) => return Err(e),
    };
    let version = match request::req_token(v, "version") {
        Ok(s) => s,
        Err(e) => return Err(e),
    };
    let source = match request::req_str_raw(v, "source") {
        Ok(s) => s,
        Err(e) => return Err(e),
    };
    let window = match request::read_window(v, now) {
        Ok(w) => w,
        Err(e) => return Err(e),
    };
    Ok(
        ModelRequest {
            register,
            identifier,
            title,
            submitting_organization,
            version,
            source,
            effective_from: window.0,
            effective_until: window.1,
        },
    )
}

/// Reads what a deposit asks for, from the body of a request.
pub fn parse_model_request(body: &str, now: Timestamp) -> (r: Result<ModelRequest, Refusal>)
    ensures
        match request::body_of(body@) {
            Err(e) => r matches Err(x) && x@ == e,
            Ok(t) => match r {
                Ok(x) => model_request(t, now) == Ok::<ModelRequestView, RefusalView>(x@),
                Err(e) => model_request(t, now) == Err::<ModelRequestView, RefusalView>(e@),
            },
        },
{
    match request::parse_body(body) {
        Ok(v) => read_model_request(&v, now),
        Err(e) => Err(e),
    }
}

/// The item of a deposit.
pub open spec fn model_item(
    req: ModelRequestView,
    validation: ValidationView,
    now: Timestamp,
    notes: Option<Seq<char>>,
) -> ItemView {
    ItemView {
        identifier: req.identifier,
        register: req.register,
        item_class: ItemClass::Model,
        title: req.title,
        submitting_organization: req.submitting_organization,
        versions: seq![
            items_api::new_version(
                req.version,
                (req.effective_from, req.effective_until),
                now,
                notes,
            ),
        ],
        manifest: Some(express::model_tree(req.version, req.source, validation)),
    }
}

/// Makes the item of a deposit.
pub(crate) fn make_model_item(
    req: &ModelRequest,
    validation: &express::ValidationRecord,
    now: Timestamp,
    notes: Option<String>,
) -> (r: Item)
    ensures
        r@ == model_item(req@, validation@, now, text::opt_view(notes)),
{
    let version = items_api::make_version(
        req.version.clone(),
        (req.effective_from, req.effective_until),
        now,
        notes,
    );
    Item {
        identifier: req.identifier.clone(),
        register: req.register.clone(),
        item_class: ItemClass::Model,
        title: req.title.clone(),
        submitting_organization: fields::clone_text(&req.submitting_organization),
        versions: items_api::one_version(version),
        manifest: Some(
            express::model_manifest(req.version.as_str(), req.source.as_str(), validation),
        ),
    }
}

/// Why a source that the validator rejects is refused.
pub open spec fn source_rejected(v: ValidationView) -> RefusalView {
    RefusalView::BadRequest(
        "expressir rejected the EXPRESS source: "@ + match v.detail {
            Some(d) => d,
            None => "no detail available"@,
        },
    )
}

/// The answer to a deposit.
pub open spec fn deposited_tree(
    req: ModelRequestView,
    validation: ValidationView,
    seq: u64,
    now: Timestamp,
) -> Tree {
    Tree::Obj(
        Map::<Seq<char>, Tree>::empty().insert("identifier"@, Tree::Str(req.identifier)).insert(
            "item_class"@,
            Tree::Str("model"@),
        ).insert("version"@, Tree::Str(req.version)).insert(
            "content_hash"@,
            Tree::Str(express::hash_text(req.source)),
        ).insert("validation"@, express::validation_tree(validation)).insert(
            "audit_seq"@,
            Tree::Int(seq as int),
        ).insert("as_of"@, discovery::stamp(now)),
    )
}

/// How a deposit comes out given how the validator ran, and the store after
/// it.
pub open spec fn deposited(s: StoreView, req: ModelRequestView, run: RunView, now: Timestamp) -> (
    Result<ReplyView, RefusalView>,
    StoreView,
) {
    let validation = express::outcome(run);
    if validation.status == ValidationStatus::Invalid {
        (Err(source_rejected(validation)), s)
    } else {
        let item = model_item(req, validation, now, None);
        match store::register_refusal(s, item) {
            Some(e) => (Err(request::store_refusal(e)), s),
            None => {
                let rec = store::next_record(s, OpView::RegisterItem { item }, now);
                (
                    Ok(
                        ReplyView {
                            status: 201,
                            as_of: now,
                            body: deposited_tree(req, validation, rec.seq, now),
                        },
                    ),
                    store::logged(s, rec),
                )
            },
        }
    }
}

/// `POST /models`: deposits an EXPRESS model, given how the validator ran
/// on its source. A rejected source is refused; one that could not be
/// validated is stored as pending.
pub fn deposit_model(store: &mut Store, req: &ModelRequest, run: &ValidatorRun, now: Timestamp) -> (r:
    Result<Reply, Refusal>)
    ensures
        request::answers(r, deposited(old(store)@, req@, run@, now).0),
        final(store)@ == deposited(old(store)@, req@, run@, now).1,
        store::faithful(old(store)@) ==> store::faithful(final(store)@),
{
    let validation = express::validation_outcome(run);
    if validation.status == ValidationStatus::Invalid {
        let detail = match &validation.detail {
            Some(d) => d.as_str(),
            None => "no detail available",
        };
        return request::bad_request(
            text::cat2("expressir rejected the EXPRESS source: ", detail),
        );
    }
    let item = make_model_item(req, &validation, now, None);
    let rec = match store.register_item(item, now) {
        Ok(r) => r,
        Err(e) => return Err(request::store_error(e)),
    };
    let hash = express::content_hash(req.source.as_str());
    let mut m = Object::new();
    m.put_str("identifier", req.identifier.as_str());
    m.put_str("item_class", "model");
    m.put_str("version", req.version.as_str());
    m.put_str("content_hash", hash.as_str());
    m.put("validation", validation.to_json());
    m.put_uint("audit_seq", rec.seq);
    m.put("as_of", Json::Str(now.to_string()));
    Ok(Reply { status: 201, as_of: now, body: Json::Obj(m) })
}

/// The compact view of a model, with its validation status.
pub open spec fn model_summary(i: ItemView, at: Option<Timestamp>) -> Tree {
    Tree::Obj(
        items_api::summary_members(i, at).insert(
            "validation"@,
            Tree::Str(express::validation_name(intake::validation_status(i))),
        ),
    )
}

/// The compact views of models.
pub open spec fn model_summaries(items: Seq<ItemView>, at: Option<Timestamp>) -> Seq<Tree> {
    items.map_values(|i: ItemView| model_summary(i, at))
}

/// How a listing of models comes out.
pub open spec fn models_listed(s: StoreView, q: ParamsView, now: Timestamp) -> Result<
    ReplyView,
    RefusalView,
> {
    match request::instant_of(q) {
        Err(e) => Err(e),
        Ok(at) => {
            let as_of = request::stamp_of(at, now);
            let items = store::items_matching(
                s,
                Some(ItemClass::Model),
                request::parameter(q, "register"@),
            );
            Ok(
                ReplyView {
                    status: 200,
                    as_of,
                    body: items_api::list_tree(as_of, "models"@, model_summaries(items, at)),
                },
            )
        },
    }
}

/// `GET /models`: the deposited models with their validation status.
pub fn list_models(store: &Store, q: &Params, now: Timestamp) -> (r: Result<Reply, Refusal>)
    ensures
        request::answers(r, models_listed(store@, q@, now)),
{
    let at = match request::parse_at(q) {
        Ok(x) => x,
        Err(e) => return Err(e),
    };
    let as_of = request::stamp_or(at, now);
    let register = request::opt_query(q, "register");
    let items = store.items_filtered(Some(ItemClass::Model), request::borrowed(&register));
    let mut list: Vec<Json> = Vec::new();
    let mut i: usize = 0;
    while i < items.len()
        invariant
            i <= items@.len(),
            list@.len() == i,
            forall|j: int|
                0 <= j < i ==> json::tree(#[trigger] list@[j]) == model_summary(items@[j]@, at),
        decreases items@.len() - i,
    {
        let mut m = items_api::item_summary(items[i], at);
        let status = intake::model_validation_status(items[i]);
        m.put_str("validation", status.as_str());
        list.push(Json::Obj(m));
        i = i + 1;
    }
    assert(json::trees(list@) =~= model_summaries(store::item_ref_views(items@), at));
    Ok(Reply { status: 200, as_of, body: items_api::list_json(as_of, "models", list) })
}

/// The deposit of a model item.
pub open spec fn deposit_of(s: StoreView, identifier: Seq<char>) -> Result<
    (ItemView, express::DepositView),
    RefusalView,
> {
    match items_api::found_item(s, identifier, Some(ItemClass::Model), None) {
        None => Err(RefusalView::NotFound("no model item `"@ + identifier + "`"@)),
        Some(item) => match item.manifest {
            None => request::bad("model item carries no deposit manifest"@),
            Some(m) => match express::parsed_deposit(m) {
                Err(e) => request::bad("corrupt model manifest: "@ + e),
                Ok(d) => Ok((item, d)),
            },
        },
    }
}

/// Finds the deposit of a model item.
fn find_deposit<'a>(store: &'a Store, identifier: &str) -> (r: Result<
    (&'a Item, express::ModelDeposit),
    Refusal,
>)
    ensures
        match r {
            Ok(x) => deposit_of(store@, identifier@) == Ok::<
                (ItemView, express::DepositView),
                RefusalView,
            >((x.0@, x.1@)),
            Err(e) => deposit_of(store@, identifier@) == Err::<
                (ItemView, express::DepositView),
                RefusalView,
            >(e@),
        },
{
    let item = match items_api::find_item(store, identifier, Some(ItemClass::Model), None) {
        Some(i) => i,
        None => return Err(
            Refusal::NotFound(text::cat3("no model item `", identifier, "`")),
        ),
    };
    let m = match &item.manifest {
        Some(m) => m,
        None => return request::bad_request("model item carries no deposit manifest".to_owned()),
    };
    match express::deposit_from_manifest(m) {
        Ok(d) => Ok((item, d)),
        Err(e) => request::bad_request(text::cat2("corrupt model manifest: ", e.as_str())),
    }
}

/// How the reading of a model comes out. With a pinned hash, another
/// content hash is a conflict.
pub open spec fn model_read(s: StoreView, q: ParamsView, identifier: Seq<char>, now: Timestamp) -> Result<
    ReplyView,
    RefusalView,
> {
    let at = request::instant_of(q);
    let found = deposit_of(s, identifier);
    let hash = request::parameter(q, "hash"@);
    if at is Err {
        Err(at->Err_0)
    } else if found is Err {
        Err(found->Err_0)
    } else if hash is Some && hash->Some_0 != found->Ok_0.1.content_hash {
        Err(
            RefusalView::Conflict(
                "content hash mismatch: the deposit is `"@ + found->Ok_0.1.content_hash
                    + "` but `"@ + hash->Some_0 + "` was pinned"@,
            ),
        )
    } else {
        let as_of = request::stamp_of(at->Ok_0, now);
        let d = found->Ok_0.1;
        Ok(
            ReplyView {
                status: 200,
                as_of,
                body: Tree::Obj(
                    items_api::view_members(found->Ok_0.0, at->Ok_0, as_of).insert(
                        "source"@,
                        Tree::Str(d.source),
                    ).insert("content_hash"@, Tree::Str(d.content_hash)).insert(
                        "validation"@,
                        express::validation_tree(d.validation),
                    ),
                ),
            },
        )
    }
}

/// `GET /models/{id}`: the deposited source, its content hash and its
/// validation status.
pub fn get_model(store: &Store, q: &Params, identifier: &str, now: Timestamp) -> (r: Result<
    Reply,
    Refusal,
>)
    ensures
        request::answers(r, model_read(store@, q@, identifier@, now)),
{
    let at = match request::parse_at(q) {
        Ok(x) => x,
        Err(e) => return Err(e),
    };
    let as_of = request::stamp_or(at, now);
    let (item, deposit) = match find_deposit(store, identifier) {
        Ok(x) => x,
        Err(e) => return Err(e),
    };
    if let Some(pinned) = request::opt_query(q, "hash") {
        if !text::same(pinned.as_str(), deposit.content_hash.as_str()) {
            return Err(
                Refusal::Conflict(
                    text::cat5(
                        "content hash mismatch: the deposit is `",
                        deposit.content_hash.as_str(),
                        "` but `",
                        pinned.as_str(),
                        "` was pinned",
                    ),
                ),
            );
        }
    }
    let mut m = items_api::item_view(item, at, as_of);
    m.put_str("source", deposit.source.as_str());
    m.put_str("content_hash", deposit.content_hash.as_str());
    m.put("validation", deposit.validation.to_json());
    Ok(Reply { status: 200, as_of, body: Json::Obj(m) })
}

/// What a deposit gives is read back: the deposited source under its
/// content hash and with its validation outcome, for a reading that pins no
/// other hash.
pub proof fn deposit_is_read_back(
    s: StoreView,
    req: ModelRequestView,
    run: RunView,
    q: ParamsView,
    now: Timestamp,
    later: Timestamp,
)
    requires
        req.source.len() > 0,
        deposited(s, req, run, now).0 is Ok,
        request::instant_of(q) is Ok,
        request::parameter(q, "hash"@) matches Some(h) ==> h == express::hash_text(req.source),
    ensures
        deposit_of(deposited(s, req, run, now).1, req.identifier) == Ok::<
            (ItemView, express::DepositView),
            RefusalView,
        >(
            (
                model_item(req, express::outcome(run), now, None),
                express::DepositView {
                    source: req.source,
                    content_hash: express::hash_text(req.source),
                    validation: express::outcome(run),
                },
            ),
        ),
        model_read(deposited(s, req, run, now).1, q, req.identifier, later) is Ok,
{
    express::deposit_round_trip(req.version, req.source, express::outcome(run));
}

/// What a validation run works on: the stored source, and the version whose
/// validation it is.
pub open spec fn validation_work(s: StoreView, identifier: Seq<char>) -> Result<
    (Seq<char>, Seq<char>),
    RefusalView,
> {
    match deposit_of(s, identifier) {
        Err(e) => Err(e),
        Ok((item, d)) => match model::current(item.versions) {
            None => request::bad("model `"@ + identifier + "` has no current version"@),
            Some(v) => Ok((d.source, v.version)),
        },
    }
}

/// Finds what a validation run works on.
pub fn validation_target(store: &Store, identifier: &str) -> (r: Result<(String, String), Refusal>)
    ensures
        match r {
            Ok(x) => validation_work(store@, identifier@) == Ok::<
                (Seq<char>, Seq<char>),
                RefusalView,
            >((x.0@, x.1@)),
            Err(e) => validation_work(store@, identifier@) == Err::<
                (Seq<char>, Seq<char>),
                RefusalView,
            >(e@),
        },
{
    let (item, deposit) = match find_deposit(store, identifier) {
        Ok(x) => x,
        Err(e) => return Err(e),
    };
    match item.current_version() {
        Some(v) => Ok((deposit.source, v.version.clone())),
        None => request::bad_request(
            text::cat3("model `", identifier, "` has no current version"),
        ),
    }
}

/// How a validation run is recorded, and the store after it.
pub open spec fn validated(
    s: StoreView,
    identifier: Seq<char>,
    current: Seq<char>,
    run: RunView,
    now: Timestamp,
) -> (Result<ReplyView, RefusalView>, StoreView) {
    let validation = express::outcome(run);
    match store::validation_refusal(s, identifier, current) {
        Some(e) => (Err(request::store_refusal(e)), s),
        None => (
            Ok(
                ReplyView {
                    status: 200,
                    as_of: now,
                    body: Tree::Obj(
                        Map::<Seq<char>, Tree>::empty().insert(
                            "identifier"@,
                            Tree::Str(identifier),
                        ).insert("validation"@, express::validation_tree(validation)).insert(
                            "as_of"@,
                            discovery::stamp(now),
                        ),
                    ),
                },
            ),
            store::logged(
                s,
                store::next_record(
                    s,
                    OpView::UpdateModelValidation { identifier, version: current, validation },
                    now,
                ),
            ),
        ),
    }
}

/// `POST /models/{id}/validate`: records how the validator ran on the
/// stored source.
pub fn validate_model(
    store: &mut Store,
    identifier: &str,
    current: &str,
    run: &ValidatorRun,
    now: Timestamp,
) -> (r: Result<Reply, Refusal>)
    ensures
        request::answers(r, validated(old(store)@, identifier@, current@, run@, now).0),
        final(store)@ == validated(old(store)@, identifier@, current@, run@, now).1,
        store::faithful(old(store)@) ==> store::faithful(final(store)@),
{
    let validation = express::validation_outcome(run);
    if let Err(e) = store.update_model_validation(identifier, current, &validation, now) {
        return Err(request::store_error(e));
    }
    let mut m = Object::new();
    m.put_str("identifier", identifier);
    m.put("validation", validation.to_json());
    m.put("as_of", Json::Str(now.to_string()));
    Ok(Reply { status: 200, as_of: now, body: Json::Obj(m) })
}

/// The compact view of a mapping, with its manifest.
pub open spec fn mapping_summary(i: ItemView, at: Option<Timestamp>) -> Tree {
    Tree::Obj(json::put_opt(items_api::summary_members(i, at), "manifest"@, i.manifest))
}

/// The views of the mappings among the first `n` items that match.
pub open spec fn mappings_among(
    items: Seq<ItemView>,
    lookup: Option<Seq<char>>,
    source: Option<Seq<char>>,
    target: Option<Seq<char>>,
    at: Option<Timestamp>,
    n: int,
) -> Seq<Tree>
    decreases n,
{
    if n <= 0 {
        Seq::empty()
    } else {
        let got = mappings_among(items, lookup, source, target, at, n - 1);
        if mapping::matched(items[n - 1], lookup, source, target) {
            got.push(mapping_summary(items[n - 1], at))
        } else {
            got
        }
    }
}

/// An optional text on the wire, `null` where there is none.
pub open spec fn nullable(s: Option<Seq<char>>) -> Tree {
    match s {
        Some(x) => Tree::Str(x),
        None => Tree::Null,
    }
}

/// An optional text on the wire.
fn nullable_json(s: &Option<String>) -> (r: Json)
    ensures
        r@ == nullable(text::opt_view(*s)),
{
    match s {
        Some(x) => Json::Str(x.clone()),
        None => Json::Null,
    }
}

/// How a lookup of mappings comes out.
pub open spec fn mappings_found(s: StoreView, q: ParamsView, now: Timestamp) -> Result<
    ReplyView,
    RefusalView,
> {
    let at = request::instant_of(q);
    let lookup = request::parameter(q, "item"@);
    let source = request::parameter(q, "source"@);
    let target = request::parameter(q, "target"@);
    if at is Err {
        Err(at->Err_0)
    } else if lookup is None && source is None && target is None {
        request::bad("one of `item` (either direction), `source` or `target` is required"@)
    } else {
        let as_of = request::stamp_of(at->Ok_0, now);
        let items = store::items_matching(
            s,
            Some(ItemClass::CrossRegisterMapping),
            request::parameter(q, "register"@),
        );
        let found = mappings_among(
            items,
            lookup,
            source,
            target,
            at->Ok_0,
            items.len() as int,
        );
        Ok(
            ReplyView {
                status: 200,
                as_of,
                body: Tree::Obj(
                    discovery::body_members(
                        items_api::list_tree(as_of, "mappings"@, found),
                    ).insert(
                        "query"@,
                        Tree::Obj(
                            Map::<Seq<char>, Tree>::empty().insert("item"@, nullable(lookup)).insert(
                                "source"@,
                                nullable(source),
                            ).insert("target"@, nullable(target)),
                        ),
                    ),
                ),
            },
        )
    }
}

/// `GET /cross-register-mappings` with a filter: mappings by an item they
/// reference, on either end or on the named one.
pub fn list_cross_register_mappings(store: &Store, q: &Params, now: Timestamp) -> (r: Result<
    Reply,
    Refusal,
>)
    ensures
        request::answers(r, mappings_found(store@, q@, now)),
{
    let at = match request::parse_at(q) {
        Ok(x) => x,
        Err(e) => return Err(e),
    };
    let as_of = request::stamp_or(at, now);
    let register = request::opt_query(q, "register");
    let lookup = request::opt_query(q, "item");
    let source = request::opt_query(q, "source");
    let target = request::opt_query(q, "target");
    if lookup.is_none() && source.is_none() && target.is_none() {
        return request::bad_request(
            "one of `item` (either direction), `source` or `target` is required".to_owned(),
        );
    }
    let items = store.items_filtered(
        Some(ItemClass::CrossRegisterMapping),
        request::borrowed(&register),
    );
    let ghost all = store::item_ref_views(items@);
    let ghost l = text::opt_view(lookup);
    let ghost s = text::opt_view(source);
    let ghost t = text::opt_view(target);
    let mut list: Vec<Json> = Vec::new();
    let mut i: usize = 0;
    assert(json::trees(list@) =~= Seq::<Tree>::empty());
    while i < items.len()
        invariant
            i <= items@.len(),
            all == store::item_ref_views(items@),
            l == text::opt_view(lookup),
            s == text::opt_view(source),
            t == text::opt_view(target),
            json::trees(list@) == mappings_among(all, l, s, t, at, i as int),
        decreases items@.len() - i,
    {
        let item = items[i];
        assert(all[i as int] == item@);
        if mapping::matches_query(
            item,
            request::borrowed(&lookup),
            request::borrowed(&source),
            request::borrowed(&target),
        ) {
            let mut m = items_api::item_summary(item, at);
            fields::put_json(&mut m, "manifest", &item.manifest);
            let ghost before = json::trees(list@);
            let entry = Json::Obj(m);
            list.push(entry);
            assert(json::trees(list@) =~= before.push(entry@));
        }
        i = i + 1;
    }
    let mut filters = Object::new();
    filters.put("item", nullable_json(&lookup));
    filters.put("source", nullable_json(&source));
    filters.put("target", nullable_json(&target));
    let mut m = match items_api::list_json(as_of, "mappings", list) {
        Json::Obj(o) => o,
        _ => Object::new(),
    };
    m.put("query", Json::Obj(filters));
    Ok(Reply { status: 200, as_of, body: Json::Obj(m) })
}

/// Whether a reading of the mapping subregister is a lookup by item.
pub fn is_directional(q: &Params) -> (r: bool)
    ensures
        r == (request::parameter(q@, "item"@) is Some || request::parameter(q@, "source"@) is Some
            || request::parameter(q@, "target"@) is Some),
{
    request::opt_query(q, "item").is_some() || request::opt_query(q, "source").is_some()
        || request::opt_query(q, "target").is_some()
}

/// How the reading of the mapping subregister comes out.
pub open spec fn mappings_read(
    s: StoreView,
    q: ParamsView,
    accept: Option<Seq<char>>,
    now: Timestamp,
) -> Result<items_api::ListingView, RefusalView> {
    if request::parameter(q, "item"@) is Some || request::parameter(q, "source"@) is Some
        || request::parameter(q, "target"@) is Some {
        match mappings_found(s, q, now) {
            Ok(reply) => Ok(items_api::ListingView::Json { reply, fallback: false }),
            Err(e) => Err(e),
        }
    } else {
        items_api::listed(s, q, Some(ItemClass::CrossRegisterMapping), accept, now)
    }
}

/// `GET /cross-register-mappings`: the lookup by item where a filter is
/// given, the listing of the class where none is.
pub fn mappings_get_or_list(store: &Store, q: &Params, accept: Option<&str>, now: Timestamp) -> (r:
    Result<items_api::Listing, Refusal>)
    ensures
        match r {
            Ok(l) => mappings_read(store@, q@, store::opt_str_view(accept), now) == Ok::<
                items_api::ListingView,
                RefusalView,
            >(l@),
            Err(e) => mappings_read(store@, q@, store::opt_str_view(accept), now) == Err::<
                items_api::ListingView,
                RefusalView,
            >(e@),
        },
{
    if is_directional(q) {
        match list_cross_register_mappings(store, q, now) {
            Ok(reply) => Ok(items_api::Listing::Json { reply, fallback: false }),
            Err(e) => Err(e),
        }
    } else {
        items_api::list_items(store, q, Some(ItemClass::CrossRegisterMapping), accept, now)
    }
}

/// `GET /schemas/profile-manifest`: the generated schema, stamped with the
/// instant it is served at.
pub fn get_profile_manifest_schema(q: &Params, now: Timestamp) -> (r: Result<Reply, Refusal>)
    ensures
        request::answers(
            r,
            match request::instant_of(q@) {
                Err(e) => Err(e),
                Ok(at) => {
                    let as_of = request::stamp_of(at, now);
                    Ok(
                        ReplyView {
                            status: 200,
                            as_of,
                            body: manifest::stamped(manifest::profile_schema(), as_of),
                        },
                    )
                },
            },
        ),
{
    match request::parse_at(q) {
        Err(e) => Err(e),
        Ok(at) => {
            let as_of = request::stamp_or(at, now);
            let doc = manifest::stamped_schema(manifest::profile_manifest_schema(), as_of);
            Ok(Reply { status: 200, as_of, body: doc })
        },
    }
}

/// How many records a page of the audit log holds.
pub open spec fn page_limit(q: ParamsView) -> usize {
    let asked = if q.dom().contains("limit"@) {
        request::count_of(q["limit"@])
    } else {
        None
    };
    match asked {
        Some(n) => if n <= 10_000 {
            n
        } else {
            10_000
        },
        None => 100,
    }
}

/// Where a page of the audit log starts.
pub open spec fn page_offset(q: ParamsView) -> usize {
    let asked = if q.dom().contains("offset"@) {
        request::count_of(q["offset"@])
    } else {
        None
    };
    match asked {
        Some(n) => n,
        None => 0,
    }
}

/// Reads a number among the parameters.
fn count_parameter(q: &Params, key: &str) -> (r: Option<usize>)
    ensures
        r == (if q@.dom().contains(key@) {
            request::count_of(q@[key@])
        } else {
            None
        }),
{
    match q.get(key) {
        Some(s) => request::parse_count(s.as_str()),
        None => None,
    }
}

/// `GET /admin/log`: a page of the append-only audit log.
pub fn admin_log(store: &Store, q: &Params, now: Timestamp) -> (r: Reply)
    ensures
        r@ == (ReplyView {
            status: 200,
            as_of: now,
            body: store::log_tree(
                store@.log,
                page_limit(q@) as int,
                page_offset(q@) as int,
            ),
        }),
{
    let limit: usize = match count_parameter(q, "limit") {
        Some(n) => if n <= 10_000 {
            n
        } else {
            10_000
        },
        None => 100,
    };
    let offset: usize = match count_parameter(q, "offset") {
        Some(n) => n,
        None => 0,
    };
    Reply { status: 200, as_of: now, body: store.log_json(limit, offset) }
}

} // verus!
