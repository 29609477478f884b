//! The item endpoints: register, list, read, supersede, and the
//! supersession chain. Each subregister is the same surface with the class
//! fixed by its mount point.

use vstd::prelude::*;
use crate::cddal;
use crate::cddal::{Representation, TermEntry, TermView};
use crate::discovery;
use crate::fields;
use crate::intake;
use crate::intake::{IntakeContext, IntakeWarning, NoteView};
use crate::json;
use crate::json::{Json, Object, Tree};
use crate::model;
use crate::model::{Item, ItemClass, ItemVersion, ItemView, Status, VersionView};
use crate::request;
use crate::request::{Params, ParamsView, Refusal, RefusalView, Reply, ReplyView};
use crate::store;
use crate::store::{OpView, Store, StoreView};
use crate::text;
use crate::time::Timestamp;

verus! {

/// The statuses of item versions, by name.
pub const STATUS_NAMES: [&'static str; 3] = ["valid", "superseded", "retired"];

/// The wire form of the version that a reading resolves to: the one in
/// force at the instant asked for, or the current one.
pub open spec fn resolved_tree(item: ItemView, at: Option<Timestamp>) -> Tree {
    match cddal::resolved(item, at) {
        Some(v) => model::version_tree(v, model::window_end(item.versions, v)),
        None => Tree::Null,
    }
}

/// The compact view of an item.
pub open spec fn summary_members(item: ItemView, at: Option<Timestamp>) -> Map<Seq<char>, Tree> {
    let m = Map::<Seq<char>, Tree>::empty().insert("identifier"@, Tree::Str(item.identifier)).insert(
        "register"@,
        Tree::Str(item.register),
    ).insert("item_class"@, Tree::Str(model::class_name(item.item_class))).insert(
        "title"@,
        Tree::Str(item.title),
    );
    let m = json::put_opt(
        m,
        "submitting_organization"@,
        json::opt_str(item.submitting_organization),
    );
    m.insert("version"@, resolved_tree(item, at))
}

/// The full view of an item, with the resolved version and the stamp.
pub open spec fn view_members(item: ItemView, at: Option<Timestamp>, as_of: Timestamp) -> Map<
    Seq<char>,
    Tree,
> {
    discovery::body_members(model::item_tree(item)).insert("version"@, resolved_tree(item, at)).insert(
        "as_of"@,
        discovery::stamp(as_of),
    )
}

/// The wire form of the version that a reading resolves to.
pub fn version_json(item: &Item, at: Option<Timestamp>) -> (r: Json)
    ensures
        r@ == resolved_tree(item@, at),
{
    let found = match at {
        Some(t) => item.in_force_at(t),
        None => item.current_version(),
    };
    match found {
        Some(v) => {
            let until = item.window_until(v);
            v.to_json(until)
        },
        None => Json::Null,
    }
}

/// The compact view of an item.
pub fn item_summary(item: &Item, at: Option<Timestamp>) -> (r: Object)
    ensures
        r@ == summary_members(item@, at),
{
    let mut m = Object::new();
    m.put_str("identifier", item.identifier.as_str());
    m.put_str("register", item.register.as_str());
    m.put_str("item_class", item.item_class.as_str());
    m.put_str("title", item.title.as_str());
    m.put_opt_str("submitting_organization", &item.submitting_organization);
    m.put("version", version_json(item, at));
    m
}

/// The full view of an item.
pub fn item_view(item: &Item, at: Option<Timestamp>, as_of: Timestamp) -> (r: Object)
    ensures
        r@ == view_members(item@, at, as_of),
{
    let mut m = match item.to_json() {
        Json::Obj(o) => o,
        _ => Object::new(),
    };
    m.put("version", version_json(item, at));
    m.put("as_of", Json::Str(as_of.to_string()));
    m
}

/// The item `identifier`, where it is of the class and in the register
/// asked for.
pub open spec fn found_item(
    s: StoreView,
    identifier: Seq<char>,
    scope: Option<ItemClass>,
    register: Option<Seq<char>>,
) -> Option<ItemView> {
    if s.items.dom().contains(identifier) && store::item_matches(
        s.items[identifier],
        scope,
        register,
    ) {
        Some(s.items[identifier])
    } else {
        None
    }
}

/// That there is no such item.
pub open spec fn no_item(identifier: Seq<char>) -> RefusalView {
    RefusalView::NotFound("no registry item `"@ + identifier + "`"@)
}

/// Finds an item of a class and a register.
pub fn find_item<'a>(
    store: &'a Store,
    identifier: &str,
    scope: Option<ItemClass>,
    register: Option<&str>,
) -> (r: Option<&'a Item>)
    ensures
        match r {
            Some(i) => found_item(store@, identifier@, scope, store::opt_str_view(register)) == Some(
                i@,
            ),
            None => found_item(store@, identifier@, scope, store::opt_str_view(register)) is None,
        },
{
    match store.item(identifier) {
        Some(i) => {
            if let Some(c) = scope {
                if i.item_class != c {
                    return None;
                }
            }
            if let Some(r) = register {
                if !text::same(i.register.as_str(), r) {
                    return None;
                }
            }
            Some(i)
        },
        None => None,
    }
}

/// That there is no such item.
fn item_missing(identifier: &str) -> (r: Refusal)
    ensures
        r@ == no_item(identifier@),
{
    Refusal::NotFound(text::cat3("no registry item `", identifier, "`"))
}

/// Runs the registered checks on an item.
pub fn run_intake_checks(store: &Store, item: &Item, strict: bool) -> (r: Result<
    Vec<IntakeWarning>,
    Refusal,
>)
    ensures
        match r {
            Ok(w) => intake::intake_verdict(item@, store@, strict) == Ok::<
                Seq<NoteView>,
                Seq<NoteView>,
            >(intake::warning_notes(w@)),
            Err(e) => (intake::intake_verdict(item@, store@, strict) matches Err(es) && e@
                == RefusalView::Rejected(es)),
        },
{
    let ctx = IntakeContext { store, strict };
    let chain = intake::default_chain();
    assert(intake::chain_verdict(chain@, chain@.len() as int, item@, store@, strict)
        == intake::intake_verdict(item@, store@, strict));
    match intake::run(&chain, item, &ctx) {
        Ok(w) => Ok(w),
        Err(es) => Err(Refusal::Rejected(es)),
    }
}

/// Members with the warnings of an intake, if there are any.
pub open spec fn with_warnings(m: Map<Seq<char>, Tree>, w: Seq<NoteView>) -> Map<Seq<char>, Tree> {
    if w.len() > 0 {
        m.insert("warnings"@, Tree::Arr(intake::note_trees(w)))
    } else {
        m
    }
}

/// Adds the warnings of an intake, if there are any.
fn put_warnings(m: &mut Object, warnings: &Vec<IntakeWarning>)
    ensures
        final(m)@ == with_warnings(old(m)@, intake::warning_notes(warnings@)),
{
    assert(intake::warning_notes(warnings@).len() == warnings@.len());
    if warnings.len() > 0 {
        m.put("warnings", Json::Arr(intake::warnings_list(warnings)));
    }
}

/// The status that a new item is registered with, which has to be `valid`.
pub open spec fn initial_status(t: Tree) -> Result<(), RefusalView> {
    match request::given(t, "status"@) {
        None => Ok(()),
        Some(Tree::Str(s)) => match model::parsed_status(s) {
            None => request::bad(
                "invalid `status` `"@ + s + "` (expected one of "@ + text::joined(
                    text::list_views(STATUS_NAMES@),
                    ", "@,
                ) + ")"@,
            ),
            Some(Status::Valid) => Ok(()),
            Some(_) => request::bad(
                "a new item must be registered with status `valid`; supersession happens through POST /items/{id}/versions"@,
            ),
        },
        Some(_) => request::bad("`status` must be a string"@),
    }
}

/// Checks the status that a new item is registered with.
fn check_initial_status(v: &Json) -> (r: Result<(), Refusal>)
    ensures
        match r {
            Ok(_) => initial_status(v@) is Ok,
            Err(e) => initial_status(v@) == Err::<(), RefusalView>(e@),
        },
{
    let s = match request::read_given(v, "status") {
        None => return Ok(()),
        Some(x) => match x.as_str() {
            Some(s) => s,
            None => return request::bad_request("`status` must be a string".to_owned()),
        },
    };
    match Status::parse(s) {
        None => {
            let names = text::join_list(&STATUS_NAMES, ", ");
            request::bad_request(
                text::cat5("invalid `status` `", s, "` (expected one of ", names.as_str(), ")"),
            )
        },
        Some(Status::Valid) => Ok(()),
        Some(_) => request::bad_request(
            "a new item must be registered with status `valid`; supersession happens through POST /items/{id}/versions".to_owned(),
        ),
    }
}

/// A first or a superseding version.
pub open spec fn new_version(
    version: Seq<char>,
    window: (Timestamp, Option<Timestamp>),
    now: Timestamp,
    notes: Option<Seq<char>>,
) -> VersionView {
    VersionView {
        version,
        status: Status::Valid,
        effective_from: Some(window.0),
        effective_until: window.1,
        registered_at: Some(now),
        superseded_by_version: None,
        notes,
    }
}

/// A first or a superseding version.
pub(crate) fn make_version(
    version: String,
    window: (Timestamp, Option<Timestamp>),
    now: Timestamp,
    notes: Option<String>,
) -> (r: ItemVersion)
    ensures
        r@ == new_version(version@, window, now, text::opt_view(notes)),
{
    ItemVersion {
        version,
        status: Status::Valid,
        effective_from: Some(window.0),
        effective_until: window.1,
        registered_at: Some(now),
        superseded_by_version: None,
        notes,
    }
}

/// A list of one version.
pub(crate) fn one_version(v: ItemVersion) -> (r: Vec<ItemVersion>)
    ensures
        model::version_views(r@) == seq![v@],
{
    let mut out: Vec<ItemVersion> = Vec::new();
    out.push(v);
    assert(model::version_views(out@) =~= seq![v@]);
    out
}

/// What a registration asks for: the item, and whether its intake is
/// strict.
pub open spec fn item_request(t: Tree, scope: Option<ItemClass>, now: Timestamp) -> Result<
    (ItemView, bool),
    RefusalView,
> {
    let register = request::required(t, "register_id"@);
    let identifier = request::required_token(t, "item_id"@);
    let class = request::class_of(t, scope);
    let strict = request::optional_flag(t, "strict"@);
    let title = request::title_of(t);
    let organization = request::optional_text(t, "submitting_organization"@);
    let version = request::required_token(t, "version"@);
    let status = initial_status(t);
    let window = request::window_of(t, now);
    let manifest = request::optional_object(t, "manifest"@);
    if register is Err {
        Err(register->Err_0)
    } else if identifier is Err {
        Err(identifier->Err_0)
    } else if class is Err {
        Err(class->Err_0)
    } else if class->Ok_0 == ItemClass::Model {
        request::bad(
            "model items are deposited through POST /models (EXPRESS source + content hash + expressir validation)"@,
        )
    } else if strict is Err {
        Err(strict->Err_0)
    } else if title is Err {
        Err(title->Err_0)
    } else if organization is Err {
        Err(organization->Err_0)
    } else if version is Err {
        Err(version->Err_0)
    } else if status is Err {
        Err(status->Err_0)
    } else if window is Err {
        Err(window->Err_0)
    } else if manifest is Err {
        Err(manifest->Err_0)
    } else {
        let item = ItemView {
            identifier: identifier->Ok_0,
            register: register->Ok_0,
            item_class: class->Ok_0,
            title: title->Ok_0,
            submitting_organization: organization->Ok_0,
            versions: seq![new_version(version->Ok_0, window->Ok_0, now, None)],
            manifest: manifest->Ok_0,
        };
        if !model::pinned(item) {
            request::bad("manifest `version` must be pinned to a registered version of the item"@)
        } else {
            Ok(
                (
                    item,
                    match strict->Ok_0 {
                        Some(b) => b,
                        None => true,
                    },
                ),
            )
        }
    }
}

/// Reads what a registration asks for.
pub fn read_item_request(v: &Json, scope: Option<ItemClass>, now: Timestamp) -> (r: Result<
    (Item, bool),
    Refusal,
>)
    ensures
        match r {
            Ok(x) => item_request(v@, scope, now) == Ok::<(ItemView, bool), RefusalView>(
                (x.0@, x.1),
            ),
            Err(e) => item_request(v@, scope, now) == Err::<(ItemView, bool), RefusalView>(e@),
        },
{
    let register = match request::req_str(v, "register_id") {
        Ok(s) => s,
        Err(e) => return Err(e),
    };
    let identifier = match request::req_token(v, "item_id") {
        Ok(s) => s,
        Err(e) => return Err(e),
    };
    let item_class = match request::body_class(v, scope) {
        Ok(c) => c,
        Err(e) => return Err(e),
    };
    if item_class == ItemClass::Model {
        return request::bad_request(
            "model items are deposited through POST /models (EXPRESS source + content hash + expressir validation)".to_owned(),
        );
    }
    let strict = match request::opt_bool(v, "strict") {
        Ok(Some(b)) => b,
        Ok(None) => true,
        Err(e) => return Err(e),
    };
    let title = match request::body_title(v) {
        Ok(s) => s,
        Err(e) => return Err(e),
    };
    let submitting_organization = match request::opt_str(v, "submitting_organization") {
        Ok(s) => s,
        Err(e) => return Err(e),
    };
    let version = match request::req_token(v, "version") {
        Ok(s) => s,
        Err(e) => return Err(e),
    };
    if let Err(e) = check_initial_status(v) {
        return Err(e);
    }
    let window = match request::read_window(v, now) {
        Ok(w) => w,
        Err(e) => return Err(e),
    };
    let manifest = match request::opt_object(v, "manifest") {
        Ok(m) => m,
        Err(e) => return Err(e),
    };
    let versions = one_version(make_version(version, window, now, None));
    let item = Item {
        identifier,
        register,
        item_class,
        title,
        submitting_organization,
        versions,
        manifest,
    };
    if !item.manifest_version_pinned() {
        return request::bad_request(
            "manifest `version` must be pinned to a registered version of the item".to_owned(),
        );
    }
    Ok((item, strict))
}

/// The answer to a registration.
pub open spec fn created_tree(item: ItemView, now: Timestamp, seq: u64, w: Seq<NoteView>) -> Tree {
    Tree::Obj(
        with_warnings(
            view_members(item, None, now).insert("audit_seq"@, Tree::Int(seq as int)),
            w,
        ),
    )
}

/// How a registration comes out, and the store after it.
pub open spec fn registered(s: StoreView, t: Tree, scope: Option<ItemClass>, now: Timestamp) -> (
    Result<ReplyView, RefusalView>,
    StoreView,
) {
    match item_request(t, scope, now) {
        Err(e) => (Err(e), s),
        Ok((item, strict)) => match intake::intake_verdict(item, s, strict) {
            Err(es) => (Err(RefusalView::Rejected(es)), s),
            Ok(w) => match store::register_refusal(s, item) {
                Some(e) => (Err(request::store_refusal(e)), s),
                None => {
                    let rec = store::next_record(s, OpView::RegisterItem { item }, now);
                    (
                        Ok(
                            ReplyView {
                                status: 201,
                                as_of: now,
                                body: created_tree(item, now, rec.seq, w),
                            },
                        ),
                        store::logged(s, rec),
                    )
                },
            },
        },
    }
}

/// Registers a new item with its first version, as a parsed body asks.
pub fn register(store: &mut Store, v: &Json, scope: Option<ItemClass>, now: Timestamp) -> (r: Result<
    Reply,
    Refusal,
>)
    ensures
        request::answers(r, registered(old(store)@, v@, scope, now).0),
        final(store)@ == registered(old(store)@, v@, scope, now).1,
        store::faithful(old(store)@) ==> store::faithful(final(store)@),
{
    let (item, strict) = match read_item_request(v, scope, now) {
        Ok(x) => x,
        Err(e) => return Err(e),
    };
    let warnings = match run_intake_checks(store, &item, strict) {
        Ok(w) => w,
        Err(e) => return Err(e),
    };
    let rec = match store.register_item(item.clone(), now) {
        Ok(r) => r,
        Err(e) => return Err(request::store_error(e)),
    };
    let mut m = item_view(&item, None, now);
    m.put_uint("audit_seq", rec.seq);
    put_warnings(&mut m, &warnings);
    Ok(Reply { status: 201, as_of: now, body: Json::Obj(m) })
}

/// `POST /items`: registers a new item with its first version.
pub fn create_item(store: &mut Store, body: &str, scope: Option<ItemClass>, now: Timestamp) -> (r:
    Result<Reply, Refusal>)
    ensures
        match request::body_of(body@) {
            Err(e) => request::answers(r, Err(e)) && final(store)@ == old(store)@,
            Ok(t) => request::answers(r, registered(old(store)@, t, scope, now).0) && final(store)@
                == registered(old(store)@, t, scope, now).1,
        },
        store::faithful(old(store)@) ==> store::faithful(final(store)@),
{
    match request::parse_body(body) {
        Ok(v) => register(store, &v, scope, now),
        Err(e) => Err(e),
    }
}

/// What a listing asks for: the instant, and the items that match.
pub open spec fn listing_request(s: StoreView, q: ParamsView, scope: Option<ItemClass>) -> Result<
    (Option<Timestamp>, Seq<ItemView>),
    RefusalView,
> {
    let at = request::instant_of(q);
    let class = match scope {
        Some(c) => Ok::<Option<ItemClass>, RefusalView>(Some(c)),
        None => match request::parameter(q, "class"@) {
            None => Ok(None),
            Some(n) => match model::parsed_class(n) {
                Some(c) => Ok(Some(c)),
                None => request::bad(request::unknown_class(n)),
            },
        },
    };
    if at is Err {
        Err(at->Err_0)
    } else if class is Err {
        Err(class->Err_0)
    } else {
        Ok(
            (
                at->Ok_0,
                store::items_matching(s, class->Ok_0, request::parameter(q, "register"@)),
            ),
        )
    }
}

/// The compact views of items.
pub open spec fn summaries(items: Seq<ItemView>, at: Option<Timestamp>) -> Seq<Tree> {
    items.map_values(|i: ItemView| Tree::Obj(summary_members(i, at)))
}

/// A document that lists values under a name.
pub open spec fn list_tree(as_of: Timestamp, name: Seq<char>, items: Seq<Tree>) -> Tree {
    Tree::Obj(
        Map::<Seq<char>, Tree>::empty().insert("as_of"@, discovery::stamp(as_of)).insert(
            "count"@,
            Tree::Int(items.len() as int),
        ).insert(name, Tree::Arr(items)),
    )
}

/// A document that lists values under a name.
pub(crate) fn list_json(as_of: Timestamp, name: &str, items: Vec<Json>) -> (r: Json)
    ensures
        r@ == list_tree(as_of, name@, json::trees(items@)),
{
    let mut m = Object::new();
    assert(json::trees(items@).len() == items@.len());
    m.put("as_of", Json::Str(as_of.to_string()));
    m.put_uint("count", items.len() as u64);
    m.put(name, Json::Arr(items));
    Json::Obj(m)
}

/// The compact views of items.
pub fn summary_list(items: &Vec<&Item>, at: Option<Timestamp>) -> (r: Vec<Json>)
    ensures
        json::trees(r@) == summaries(store::item_ref_views(items@), at),
{
    let mut out: Vec<Json> = Vec::new();
    let mut i: usize = 0;
    while i < items.len()
        invariant
            i <= items@.len(),
            out@.len() == i,
            forall|j: int|
                0 <= j < i ==> json::tree(#[trigger] out@[j]) == Tree::Obj(
                    summary_members(items@[j]@, at),
                ),
        decreases items@.len() - i,
    {
        out.push(Json::Obj(item_summary(items[i], at)));
        i = i + 1;
    }
    assert(json::trees(out@) =~= summaries(store::item_ref_views(items@), at));
    out
}

/// The dictionary entries of items.
pub open spec fn terms(items: Seq<ItemView>, at: Option<Timestamp>) -> Seq<TermView> {
    items.map_values(|i: ItemView| cddal::term_of(i, at))
}

/// The dictionary entries of items.
fn term_list(items: &Vec<&Item>, at: Option<Timestamp>) -> (r: Vec<TermEntry>)
    ensures
        cddal::term_views(r@) == terms(store::item_ref_views(items@), at),
{
    let mut out: Vec<TermEntry> = Vec::new();
    let mut i: usize = 0;
    while i < items.len()
        invariant
            i <= items@.len(),
            out@.len() == i,
            forall|j: int| 0 <= j < i ==> (#[trigger] out@[j])@ == cddal::term_of(items@[j]@, at),
        decreases items@.len() - i,
    {
        out.push(TermEntry::of(items[i], at));
        i = i + 1;
    }
    assert(cddal::term_views(out@) =~= terms(store::item_ref_views(items@), at));
    out
}

/// A listing: JSON, with a warning where nothing servable was asked for, or
/// the plain-text dictionary form.
#[derive(Debug, PartialEq, Eq)]
pub enum Listing {
    Json { reply: Reply, fallback: bool },
    Cddal { as_of: Timestamp, text: String },
}

/// The content of a listing.
pub enum ListingView {
    Json { reply: ReplyView, fallback: bool },
    Cddal { as_of: Timestamp, text: Seq<char> },
}

impl View for Listing {
    type V = ListingView;

    open spec fn view(&self) -> ListingView {
        match *self {
            Listing::Json { reply, fallback } => ListingView::Json { reply: reply@, fallback },
            Listing::Cddal { as_of, text } => ListingView::Cddal { as_of, text: text@ },
        }
    }
}

/// How a listing comes out.
pub open spec fn listed(
    s: StoreView,
    q: ParamsView,
    scope: Option<ItemClass>,
    accept: Option<Seq<char>>,
    now: Timestamp,
) -> Result<ListingView, RefusalView> {
    match listing_request(s, q, scope) {
        Err(e) => Err(e),
        Ok((at, items)) => {
            let as_of = request::stamp_of(at, now);
            Ok(
                match cddal::negotiated(accept) {
                    (Representation::Cddal, _) => ListingView::Cddal {
                        as_of,
                        text: cddal::document(terms(items, at)),
                    },
                    (Representation::Json, fallback) => ListingView::Json {
                        reply: ReplyView {
                            status: 200,
                            as_of,
                            body: list_tree(as_of, "items"@, summaries(items, at)),
                        },
                        fallback,
                    },
                },
            )
        },
    }
}

/// `GET /items`: lists the items of a class and a register, each with its
/// resolved version, in the representation that was negotiated.
pub fn list_items(
    store: &Store,
    q: &Params,
    scope: Option<ItemClass>,
    accept: Option<&str>,
    now: Timestamp,
) -> (r: Result<Listing, Refusal>)
    ensures
        match r {
            Ok(l) => listed(store@, q@, scope, store::opt_str_view(accept), now) == Ok::<
                ListingView,
                RefusalView,
            >(l@),
            Err(e) => listed(store@, q@, scope, store::opt_str_view(accept), now) == Err::<
                ListingView,
                RefusalView,
            >(e@),
        },
{
    let at = match request::parse_at(q) {
        Ok(x) => x,
        Err(e) => return Err(e),
    };
    let as_of = request::stamp_or(at, now);
    let class = match scope {
        Some(c) => Some(c),
        None => match request::opt_query(q, "class") {
            None => None,
            Some(n) => match ItemClass::parse(n.as_str()) {
                Some(c) => Some(c),
                None => return request::bad_request(request::unknown_class_text(n.as_str())),
            },
        },
    };
    let register = request::opt_query(q, "register");
    let items = store.items_filtered(class, request::borrowed(&register));
    let (form, fallback) = cddal::negotiate(accept);
    match form {
        Representation::Cddal => {
            let entries = term_list(&items, at);
            Ok(Listing::Cddal { as_of, text: cddal::render(entries.as_slice()) })
        },
        Representation::Json => Ok(
            Listing::Json {
                reply: Reply {
                    status: 200,
                    as_of,
                    body: list_json(as_of, "items", summary_list(&items, at)),
                },
                fallback,
            },
        ),
    }
}

/// How the reading of an item comes out.
pub open spec fn read_item(
    s: StoreView,
    q: ParamsView,
    identifier: Seq<char>,
    scope: Option<ItemClass>,
    now: Timestamp,
) -> Result<ReplyView, RefusalView> {
    match request::instant_of(q) {
        Err(e) => Err(e),
        Ok(at) => match found_item(s, identifier, scope, request::parameter(q, "register"@)) {
            None => Err(no_item(identifier)),
            Some(item) => {
                let as_of = request::stamp_of(at, now);
                Ok(
                    ReplyView {
                        status: 200,
                        as_of,
                        body: Tree::Obj(view_members(item, at, as_of)),
                    },
                )
            },
        },
    }
}

/// `GET /items/{id}`: the item with the version in force at the instant
/// asked for, or with its current version.
pub fn get_item(
    store: &Store,
    q: &Params,
    identifier: &str,
    scope: Option<ItemClass>,
    now: Timestamp,
) -> (r: Result<Reply, Refusal>)
    ensures
        request::answers(r, read_item(store@, q@, identifier@, scope, now)),
{
    let at = match request::parse_at(q) {
        Ok(x) => x,
        Err(e) => return Err(e),
    };
    let as_of = request::stamp_or(at, now);
    let register = request::opt_query(q, "register");
    match find_item(store, identifier, scope, request::borrowed(&register)) {
        None => Err(item_missing(identifier)),
        Some(item) => Ok(
            Reply { status: 200, as_of, body: Json::Obj(item_view(item, at, as_of)) },
        ),
    }
}

/// What a supersession asks for.
#[derive(Debug, PartialEq, Eq)]
pub struct SupersedeRequest {
    pub successor: ItemVersion,
    pub reason: String,
    pub strict: bool,
    pub manifest: Option<Json>,
}

/// The content of what a supersession asks for.
pub struct SupersedeView {
    pub successor: VersionView,
    pub reason: Seq<char>,
    pub strict: bool,
    pub manifest: Option<Tree>,
}

impl View for SupersedeRequest {
    type V = SupersedeView;

    open spec fn view(&self) -> SupersedeView {
        SupersedeView {
            successor: self.successor@,
            reason: self.reason@,
            strict: self.strict,
            manifest: fields::opt_tree(self.manifest),
        }
    }
}

/// What a supersession asks for.
pub open spec fn supersede_request(t: Tree, now: Timestamp) -> Result<SupersedeView, RefusalView> {
    let version = request::required_token(t, "version"@);
    let reason = request::required(t, "reason"@);
    let window = request::window_of(t, now);
    let strict = request::optional_flag(t, "strict"@);
    let manifest = request::optional_object(t, "manifest"@);
    if version is Err {
        Err(version->Err_0)
    } else if reason is Err {
        Err(reason->Err_0)
    } else if window is Err {
        Err(window->Err_0)
    } else if strict is Err {
        Err(strict->Err_0)
    } else if manifest is Err {
        Err(manifest->Err_0)
    } else {
        Ok(
            SupersedeView {
                successor: new_version(version->Ok_0, window->Ok_0, now, Some(reason->Ok_0)),
                reason: reason->Ok_0,
                strict: match strict->Ok_0 {
                    Some(b) => b,
                    None => true,
                },
                manifest: manifest->Ok_0,
            },
        )
    }
}

/// Reads what a supersession asks for.
pub fn read_supersede_request(v: &Json, now: Timestamp) -> (r: Result<SupersedeRequest, Refusal>)
    ensures
        match r {
            Ok(x) => supersede_request(v@, now) == Ok::<SupersedeView, RefusalView>(x@),
            Err(e) => supersede_request(v@, now) == Err::<SupersedeView, RefusalView>(e@),
        },
{
    let version = match request::req_token(v, "version") {
        Ok(s) => s,
        Err(e) => return Err(e),
    };
    let reason = match request::req_str(v, "reason") {
        Ok(s) => s,
        Err(e) => return Err(e),
    };
    let window = match request::read_window(v, now) {
        Ok(w) => w,
        Err(e) => return Err(e),
    };
    let strict = match request::opt_bool(v, "strict") {
        Ok(Some(b)) => b,
        Ok(None) => true,
        Err(e) => return Err(e),
    };
    let manifest = match request::opt_object(v, "manifest") {
        Ok(m) => m,
        Err(e) => return Err(e),
    };
    let successor = make_version(version, window, now, Some(reason.clone()));
    Ok(SupersedeRequest { successor, reason, strict, manifest })
}

/// An item with the manifest that is to be in effect.
pub open spec fn candidate(item: ItemView, manifest: Option<Tree>) -> ItemView {
    ItemView {
        manifest: match manifest {
            Some(m) => Some(m),
            None => item.manifest,
        },
        ..item
    }
}

/// The version that a new manifest is pinned to, where it is no version of
/// the item and not the new one.
pub open spec fn stray_pin(item: ItemView, manifest: Option<Tree>, version: Seq<char>) -> Option<
    Seq<char>,
> {
    match manifest {
        None => None,
        Some(m) => match json::get_str(m, "version"@) {
            None => None,
            Some(p) => if p != version && model::find_version(item.versions, p) is None {
                Some(p)
            } else {
                None
            },
        },
    }
}

/// The version that is to be superseded: the one named, or the current one
/// where that is valid.
pub open spec fn supersede_target(t: Tree, item: ItemView, identifier: Seq<char>) -> Result<
    Seq<char>,
    RefusalView,
> {
    match request::optional_text(t, "supersede_version"@) {
        Err(e) => Err(e),
        Ok(Some(n)) => Ok(n),
        Ok(None) => match model::current(item.versions) {
            Some(v) => if v.status == Status::Valid {
                Ok(v.version)
            } else {
                request::bad("item `"@ + identifier + "` has no valid version to supersede"@)
            },
            None => request::bad("item `"@ + identifier + "` has no valid version to supersede"@),
        },
    }
}

/// Finds the version that is to be superseded.
fn find_target(v: &Json, item: &Item, identifier: &str) -> (r: Result<String, Refusal>)
    ensures
        request::text_read(r, supersede_target(v@, item@, identifier@)),
{
    match request::opt_str(v, "supersede_version") {
        Err(e) => Err(e),
        Ok(Some(n)) => Ok(n),
        Ok(None) => {
            if let Some(current) = item.current_version() {
                if current.status == Status::Valid {
                    return Ok(current.version.clone());
                }
            }
            request::bad_request(
                text::cat3("item `", identifier, "` has no valid version to supersede"),
            )
        },
    }
}

/// The answer to a supersession.
pub open spec fn superseded_tree(
    identifier: Seq<char>,
    after: ItemView,
    target: Seq<char>,
    req: SupersedeView,
    seq: u64,
    now: Timestamp,
    w: Seq<NoteView>,
) -> Tree {
    let new = model::find_version(after.versions, req.successor.version)->Some_0;
    let old = model::find_version(after.versions, target)->Some_0;
    Tree::Obj(
        with_warnings(
            Map::<Seq<char>, Tree>::empty().insert("identifier"@, Tree::Str(identifier)).insert(
                "new_version"@,
                model::version_tree(new, model::window_end(after.versions, new)),
            ).insert(
                "superseded_version"@,
                model::version_tree(old, model::window_end(after.versions, old)),
            ).insert("item"@, model::item_tree(after)).insert("reason"@, Tree::Str(req.reason)).insert(
                "audit_seq"@,
                Tree::Int(seq as int),
            ).insert("as_of"@, discovery::stamp(now)),
            w,
        ),
    )
}

/// How a supersession comes out, and the store after it.
pub open spec fn superseded(
    s: StoreView,
    q: ParamsView,
    identifier: Seq<char>,
    t: Tree,
    scope: Option<ItemClass>,
    now: Timestamp,
) -> (Result<ReplyView, RefusalView>, StoreView) {
    match supersede_request(t, now) {
        Err(e) => (Err(e), s),
        Ok(req) => match found_item(s, identifier, scope, request::parameter(q, "register"@)) {
            None => (Err(no_item(identifier)), s),
            Some(item) => {
                let verdict = intake::intake_verdict(
                    candidate(item, req.manifest),
                    s,
                    req.strict,
                );
                let stray = stray_pin(item, req.manifest, req.successor.version);
                let target = supersede_target(t, item, identifier);
                if verdict is Err {
                    (Err(RefusalView::Rejected(verdict->Err_0)), s)
                } else if stray is Some {
                    (
                        request::bad(
                            "manifest `version` `"@ + stray->Some_0
                                + "` is not a registered version of `"@ + identifier + "`"@,
                        ),
                        s,
                    )
                } else if target is Err {
                    (Err(target->Err_0), s)
                } else {
                    match store::supersede_refusal(s, identifier, target->Ok_0, req.successor) {
                        Some(e) => (Err(request::store_refusal(e)), s),
                        None => {
                            let rec = store::next_record(
                                s,
                                store::supersede_op(
                                    s,
                                    identifier,
                                    target->Ok_0,
                                    req.successor,
                                    req.manifest,
                                ),
                                now,
                            );
                            let after = store::superseded_item(
                                item,
                                target->Ok_0,
                                req.successor,
                                req.manifest,
                            );
                            (
                                Ok(
                                    ReplyView {
                                        status: 201,
                                        as_of: now,
                                        body: superseded_tree(
                                            identifier,
                                            after,
                                            target->Ok_0,
                                            req,
                                            rec.seq,
                                            now,
                                            verdict->Ok_0,
                                        ),
                                    },
                                ),
                                store::logged(s, rec),
                            )
                        },
                    }
                }
            },
        },
    }
}

/// Writes the answer to a supersession.
fn supersede_reply(
    identifier: &str,
    after: &Item,
    target: &str,
    version: &str,
    reason: &str,
    seq: u64,
    now: Timestamp,
    warnings: &Vec<IntakeWarning>,
    Ghost(req): Ghost<SupersedeView>,
) -> (r: Json)
    requires
        model::find_version(after@.versions, version@) is Some,
        model::find_version(after@.versions, target@) is Some,
        req.successor.version == version@,
        req.reason == reason@,
    ensures
        r@ == superseded_tree(
            identifier@,
            after@,
            target@,
            req,
            seq,
            now,
            intake::warning_notes(warnings@),
        ),
{
    let mut m = Object::new();
    m.put_str("identifier", identifier);
    if let Some(new) = after.version(version) {
        let until = after.window_until(new);
        m.put("new_version", new.to_json(until));
    }
    if let Some(old) = after.version(target) {
        let until = after.window_until(old);
        m.put("superseded_version", old.to_json(until));
    }
    m.put("item", after.to_json());
    m.put_str("reason", reason);
    m.put_uint("audit_seq", seq);
    m.put("as_of", Json::Str(now.to_string()));
    put_warnings(&mut m, warnings);
    Json::Obj(m)
}

/// Supersedes a version of an item, as a parsed body asks.
pub fn supersede(
    store: &mut Store,
    q: &Params,
    identifier: &str,
    v: &Json,
    scope: Option<ItemClass>,
    now: Timestamp,
) -> (r: Result<Reply, Refusal>)
    ensures
        request::answers(r, superseded(old(store)@, q@, identifier@, v@, scope, now).0),
        final(store)@ == superseded(old(store)@, q@, identifier@, v@, scope, now).1,
        store::faithful(old(store)@) ==> store::faithful(final(store)@),
{
    let ghost before = store@;
    let register = request::opt_query(q, "register");
    let req = match read_supersede_request(v, now) {
        Ok(x) => x,
        Err(e) => return Err(e),
    };
    let ghost asked = req@;
    let item = match find_item(store, identifier, scope, request::borrowed(&register)) {
        Some(i) => i.clone(),
        None => return Err(item_missing(identifier)),
    };
    let mut candidate = item.clone();
    if req.manifest.is_some() {
        candidate.manifest = fields::clone_opt(&req.manifest);
    }
    let warnings = match run_intake_checks(store, &candidate, req.strict) {
        Ok(w) => w,
        Err(e) => return Err(e),
    };
    if let Some(m) = &req.manifest {
        if let Some(pinned) = m.get_str("version") {
            if !text::same(pinned, req.successor.version.as_str()) && item.version(
                pinned,
            ).is_none() {
                return request::bad_request(
                    text::cat5(
                        "manifest `version` `",
                        pinned,
                        "` is not a registered version of `",
                        identifier,
                        "`",
                    ),
                );
            }
        }
    }
    let target = match find_target(v, &item, identifier) {
        Ok(t) => t,
        Err(e) => return Err(e),
    };
    let version = req.successor.version.clone();
    let rec = match store.supersede(identifier, target.as_str(), req.successor, req.manifest, now) {
        Ok(r) => r,
        Err(e) => return Err(request::store_error(e)),
    };
    let ghost after_view = store::superseded_item(
        item@,
        target@,
        asked.successor,
        asked.manifest,
    );
    proof {
        store::supersession_keeps_versions(item@.versions, target@, asked.successor);
        assert(store@.items[identifier@] == after_view);
        assert(store@.items.dom().contains(identifier@));
    }
    let body = match store.item(identifier) {
        Some(after) => supersede_reply(
            identifier,
            after,
            target.as_str(),
            version.as_str(),
            req.reason.as_str(),
            rec.seq,
            now,
            &warnings,
            Ghost(asked),
        ),
        None => Json::Null,
    };
    Ok(Reply { status: 201, as_of: now, body })
}

/// `POST /items/{id}/versions`: registers a new version with a reason; the
/// superseded one is linked to it, which derives its window end.
pub fn supersede_item(
    store: &mut Store,
    q: &Params,
    identifier: &str,
    body: &str,
    scope: Option<ItemClass>,
    now: Timestamp,
) -> (r: Result<Reply, Refusal>)
    ensures
        match request::body_of(body@) {
            Err(e) => request::answers(r, Err(e)) && final(store)@ == old(store)@,
            Ok(t) => request::answers(
                r,
                superseded(old(store)@, q@, identifier@, t, scope, now).0,
            ) && final(store)@ == superseded(old(store)@, q@, identifier@, t, scope, now).1,
        },
        store::faithful(old(store)@) ==> store::faithful(final(store)@),
{
    match request::parse_body(body) {
        Ok(v) => supersede(store, q, identifier, &v, scope, now),
        Err(e) => Err(e),
    }
}

/// The wire forms of the versions of a chain, each with its window end.
pub open spec fn chain_trees(item: ItemView, chain: Seq<VersionView>) -> Seq<Tree> {
    chain.map_values(
        |v: VersionView| model::version_tree(v, model::window_end(item.versions, v)),
    )
}

/// The answer to the reading of a chain.
pub open spec fn chain_tree(identifier: Seq<char>, chain: Seq<Tree>, as_of: Timestamp) -> Tree {
    Tree::Obj(
        Map::<Seq<char>, Tree>::empty().insert("identifier"@, Tree::Str(identifier)).insert(
            "chain"@,
            Tree::Arr(chain),
        ).insert(
            "terminal"@,
            if chain.len() > 0 {
                chain.last()
            } else {
                Tree::Null
            },
        ).insert("as_of"@, discovery::stamp(as_of)),
    )
}

/// Writes the answer to the reading of a chain.
pub(crate) fn chain_json(identifier: &str, chain: Vec<Json>, as_of: Timestamp) -> (r: Json)
    ensures
        r@ == chain_tree(identifier@, json::trees(chain@), as_of),
{
    let ghost ts = json::trees(chain@);
    assert(ts.len() == chain@.len());
    let terminal = if chain.len() > 0 {
        assert(ts.last() == chain@[chain@.len() - 1]@);
        chain[chain.len() - 1].clone()
    } else {
        Json::Null
    };
    let mut m = Object::new();
    m.put_str("identifier", identifier);
    m.put("chain", Json::Arr(chain));
    m.put("terminal", terminal);
    m.put("as_of", Json::Str(as_of.to_string()));
    Json::Obj(m)
}

/// How the reading of a supersession chain comes out.
pub open spec fn read_chain(
    s: StoreView,
    q: ParamsView,
    identifier: Seq<char>,
    scope: Option<ItemClass>,
    now: Timestamp,
) -> Result<ReplyView, RefusalView> {
    match request::instant_of(q) {
        Err(e) => Err(e),
        Ok(at) => match found_item(s, identifier, scope, request::parameter(q, "register"@)) {
            None => Err(no_item(identifier)),
            Some(item) => match model::chain_of(item, request::parameter(q, "from"@)) {
                Err(e) => request::bad(e),
                Ok(chain) => {
                    let as_of = request::stamp_of(at, now);
                    Ok(
                        ReplyView {
                            status: 200,
                            as_of,
                            body: chain_tree(identifier, chain_trees(item, chain), as_of),
                        },
                    )
                },
            },
        },
    }
}

/// `GET /items/{id}/supersession`: the supersession chain of an item.
pub fn item_chain(
    store: &Store,
    q: &Params,
    identifier: &str,
    scope: Option<ItemClass>,
    now: Timestamp,
) -> (r: Result<Reply, Refusal>)
    ensures
        request::answers(r, read_chain(store@, q@, identifier@, scope, now)),
{
    let at = match request::parse_at(q) {
        Ok(x) => x,
        Err(e) => return Err(e),
    };
    let as_of = request::stamp_or(at, now);
    let register = request::opt_query(q, "register");
    let from = request::opt_query(q, "from");
    let item = match find_item(store, identifier, scope, request::borrowed(&register)) {
        Some(i) => i,
        None => return Err(item_missing(identifier)),
    };
    let chain = match item.supersession_chain(request::borrowed(&from)) {
        Ok(c) => c,
        Err(e) => return request::bad_request(e),
    };
    let mut list: Vec<Json> = Vec::new();
    let mut i: usize = 0;
    while i < chain.len()
        invariant
            i <= chain@.len(),
            list@.len() == i,
            forall|j: int|
                0 <= j < i ==> json::tree(#[trigger] list@[j]) == model::version_tree(
                    chain@[j]@,
                    model::window_end(item@.versions, chain@[j]@),
                ),
        decreases chain@.len() - i,
    {
        let until = item.window_until(chain[i]);
        list.push(chain[i].to_json(until));
        i = i + 1;
    }
    assert(json::trees(list@) =~= chain_trees(item@, model::ref_views(chain@)));
    Ok(Reply { status: 200, as_of, body: chain_json(identifier, list, as_of) })
}

} // verus!
