//! The applicability endpoints: bind a profile to a product type with a
//! dated window, and tell which profiles applied at an instant.
//!
//! A time-triggered profile binds only once all its thresholds are crossed,
//! which takes the facts of the subject to decide. Without facts such a
//! binding is reported as unresolved.

use vstd::prelude::*;
use crate::bridge;
use crate::clock;
use crate::clock::{TimeTrigger, TimeTriggerView};
use crate::discovery;
use crate::items_api;
use crate::json;
use crate::json::{Json, Object, Tree};
use crate::model;
use crate::model::{ApplicabilityBinding, BindingView, Item, ItemView};
use crate::request;
use crate::request::{Params, ParamsView, Refusal, RefusalView, Reply, ReplyView};
use crate::store;
use crate::store::{Op, Store, StoreView};
use crate::text;
use crate::time::Timestamp;

verus! {

/// Why a time-triggered binding stays unresolved.
pub const NEEDS_FACTS: &'static str =
    "the profile's triggers are clock predicates; supply subject_facts to evaluate them";

/// The evaluation of one time trigger that could be evaluated.
pub open spec fn evaluation_tree(index: int, t: TimeTriggerView, e: clock::ClockEvaluation) -> Tree {
    Tree::Obj(
        Map::<Seq<char>, Tree>::empty().insert("index"@, Tree::Int(index)).insert(
            "basis"@,
            Tree::Str(t.basis),
        ).insert("operator"@, Tree::Str(t.operator)).insert(
            "duration"@,
            Tree::Str(t.duration_raw),
        ).insert("threshold"@, discovery::stamp(e.threshold)).insert(
            "satisfied"@,
            Tree::Bool(e.satisfied),
        ),
    )
}

/// The evaluations of the first `n` triggers that could be evaluated.
pub open spec fn evaluations(
    ts: Seq<(int, TimeTriggerView)>,
    facts: Tree,
    as_of: Timestamp,
    n: int,
) -> Seq<Tree>
    decreases n,
{
    if n <= 0 {
        Seq::empty()
    } else {
        let got = evaluations(ts, facts, as_of, n - 1);
        match clock::evaluated(ts[n - 1].1, facts, as_of.secs as int) {
            Ok(e) => got.push(evaluation_tree(ts[n - 1].0, ts[n - 1].1, e)),
            Err(_) => got,
        }
    }
}

/// Whether the subject carries the fact of a trigger and its threshold is
/// crossed.
pub open spec fn fires(t: TimeTriggerView, facts: Tree, as_of: Timestamp) -> bool {
    clock::evaluated(t, facts, as_of.secs as int) matches Ok(e) && e.satisfied
}

/// Whether the first `n` triggers all fire.
pub open spec fn all_fire(ts: Seq<(int, TimeTriggerView)>, facts: Tree, as_of: Timestamp, n: int) -> bool {
    forall|k: int| 0 <= k < n ==> fires((#[trigger] ts[k]).1, facts, as_of)
}

/// Evaluates the triggers of a profile: the evaluations, and whether all
/// fire.
fn evaluate_triggers(triggers: &Vec<(usize, TimeTrigger)>, facts: &Json, as_of: Timestamp) -> (r: (
    Vec<Json>,
    bool,
))
    ensures
        json::trees(r.0@) == evaluations(
            clock::trigger_views(triggers@),
            facts@,
            as_of,
            triggers@.len() as int,
        ),
        r.1 == all_fire(
            clock::trigger_views(triggers@),
            facts@,
            as_of,
            triggers@.len() as int,
        ),
{
    let ghost ts = clock::trigger_views(triggers@);
    let mut out: Vec<Json> = Vec::new();
    let mut binds: bool = true;
    let mut i: usize = 0;
    assert(json::trees(out@) =~= Seq::<Tree>::empty());
    while i < triggers.len()
        invariant
            i <= triggers@.len(),
            ts == clock::trigger_views(triggers@),
            json::trees(out@) == evaluations(ts, facts@, as_of, i as int),
            binds == all_fire(ts, facts@, as_of, i as int),
        decreases triggers@.len() - i,
    {
        let t = &triggers[i].1;
        assert(ts[i as int] == (triggers@[i as int].0 as int, t@));
        match clock::evaluate(t, facts, as_of) {
            Ok(e) => {
                let mut m = Object::new();
                m.put_uint("index", triggers[i].0 as u64);
                m.put_str("basis", t.basis.as_str());
                m.put_str("operator", t.operator.as_str());
                m.put_str("duration", t.duration_raw.as_str());
                m.put("threshold", Json::Str(e.threshold.to_string()));
                m.put_bool("satisfied", e.satisfied);
                let ghost before = json::trees(out@);
                let entry = Json::Obj(m);
                out.push(entry);
                assert(json::trees(out@) =~= before.push(entry@));
                if !e.satisfied {
                    assert(!fires(ts[i as int].1, facts@, as_of));
                    binds = false;
                }
            },
            Err(_) => {
                assert(!fires(ts[i as int].1, facts@, as_of));
                binds = false;
            },
        }
        i = i + 1;
    }
    (out, binds)
}

/// The item that a binding binds.
pub open spec fn bound_item(s: StoreView, b: BindingView) -> Option<ItemView> {
    if s.items.dom().contains(b.profile_item) {
        Some(s.items[b.profile_item])
    } else {
        None
    }
}

/// The time triggers of the profile that a binding binds.
pub open spec fn bound_triggers(profile: Option<ItemView>) -> Result<
    Seq<(int, TimeTriggerView)>,
    Seq<char>,
> {
    match profile {
        Some(p) => match p.manifest {
            Some(m) => clock::manifest_triggers(m),
            None => Ok(Seq::empty()),
        },
        None => Ok(Seq::empty()),
    }
}

/// The compact view of the profile that a binding binds.
pub open spec fn bound_summary(profile: Option<ItemView>, at: Option<Timestamp>) -> Tree {
    match profile {
        Some(p) => Tree::Obj(items_api::summary_members(p, at)),
        None => Tree::Null,
    }
}

/// The entry of a binding that applies.
pub open spec fn applying_members(b: BindingView, profile: Option<ItemView>, at: Option<Timestamp>) -> Map<
    Seq<char>,
    Tree,
> {
    Map::<Seq<char>, Tree>::empty().insert("binding"@, model::binding_tree(b)).insert(
        "profile"@,
        bound_summary(profile, at),
    )
}

/// The entry of a binding that cannot be decided without facts.
pub open spec fn unresolved_tree(b: BindingView) -> Tree {
    Tree::Obj(
        Map::<Seq<char>, Tree>::empty().insert("binding"@, model::binding_tree(b)).insert(
            "profile_item"@,
            Tree::Str(b.profile_item),
        ).insert("reason"@, Tree::Str(NEEDS_FACTS@)),
    )
}

/// What one binding adds.
pub enum FindingView {
    /// It applies.
    Applies(Tree),
    /// It cannot be decided without facts.
    Unresolved(Tree),
    /// It does not apply.
    Silent,
}

/// What one binding adds at an instant.
#[verifier::opaque]
pub open spec fn finding(
    s: StoreView,
    b: BindingView,
    at: Option<Timestamp>,
    as_of: Timestamp,
    facts: Option<Tree>,
) -> Result<FindingView, RefusalView> {
    if !model::binding_applies(b, as_of) {
        Ok(FindingView::Silent)
    } else {
        let profile = bound_item(s, b);
        match bound_triggers(profile) {
            Err(e) => request::bad(
                "profile `"@ + b.profile_item + "` carries a malformed time trigger: "@ + e,
            ),
            Ok(ts) => if ts.len() == 0 {
                Ok(FindingView::Applies(Tree::Obj(applying_members(b, profile, at))))
            } else {
                match facts {
                    None => Ok(FindingView::Unresolved(unresolved_tree(b))),
                    Some(f) => if all_fire(ts, f, as_of, ts.len() as int) {
                        Ok(
                            FindingView::Applies(
                                Tree::Obj(
                                    applying_members(b, profile, at).insert(
                                        "time_triggers"@,
                                        Tree::Arr(evaluations(ts, f, as_of, ts.len() as int)),
                                    ),
                                ),
                            ),
                        )
                    } else {
                        Ok(FindingView::Silent)
                    },
                }
            },
        }
    }
}

/// What one binding adds.
enum Finding {
    Applies(Json),
    Unresolved(Json),
    Silent,
}

impl View for Finding {
    type V = FindingView;

    closed spec fn view(&self) -> FindingView {
        match *self {
            Finding::Applies(j) => FindingView::Applies(j@),
            Finding::Unresolved(j) => FindingView::Unresolved(j@),
            Finding::Silent => FindingView::Silent,
        }
    }
}

/// Finds what one binding adds at an instant.
fn find(
    store: &Store,
    b: &ApplicabilityBinding,
    at: Option<Timestamp>,
    as_of: Timestamp,
    facts: Option<&Json>,
) -> (r: Result<Finding, Refusal>)
    ensures
        match r {
            Ok(x) => finding(store@, b@, at, as_of, ref_tree(facts)) == Ok::<
                FindingView,
                RefusalView,
            >(x@),
            Err(e) => finding(store@, b@, at, as_of, ref_tree(facts)) == Err::<
                FindingView,
                RefusalView,
            >(e@),
        },
{
    proof {
        reveal(finding);
    }
    if !b.applies_at(as_of) {
        return Ok(Finding::Silent);
    }
    let profile = store.item(b.profile_item.as_str());
    let triggers = match read_triggers(profile) {
        Ok(ts) => ts,
        Err(e) => return request::bad_request(
            text::cat4(
                "profile `",
                b.profile_item.as_str(),
                "` carries a malformed time trigger: ",
                e.as_str(),
            ),
        ),
    };
    assert(clock::trigger_views(triggers@).len() == triggers@.len());
    if triggers.len() == 0 {
        return Ok(Finding::Applies(Json::Obj(applying(b, profile, at))));
    }
    let f = match facts {
        Some(f) => f,
        None => {
            let mut m = Object::new();
            m.put("binding", b.to_json());
            m.put_str("profile_item", b.profile_item.as_str());
            m.put_str("reason", NEEDS_FACTS);
            return Ok(Finding::Unresolved(Json::Obj(m)));
        },
    };
    let (list, binds) = evaluate_triggers(&triggers, f, as_of);
    if binds {
        let mut m = applying(b, profile, at);
        m.put("time_triggers", Json::Arr(list));
        Ok(Finding::Applies(Json::Obj(m)))
    } else {
        Ok(Finding::Silent)
    }
}

/// The content of an optional borrowed item.
pub open spec fn ref_item(i: Option<&Item>) -> Option<ItemView> {
    match i {
        Some(x) => Some(x@),
        None => None,
    }
}

/// The content of an optional borrowed value.
pub open spec fn ref_tree(v: Option<&Json>) -> Option<Tree> {
    match v {
        Some(x) => Some(x@),
        None => None,
    }
}

/// Reads the time triggers of a profile.
fn read_triggers(profile: Option<&Item>) -> (r: Result<Vec<(usize, TimeTrigger)>, String>)
    ensures
        match r {
            Ok(v) => bound_triggers(ref_item(profile)) == Ok::<
                Seq<(int, TimeTriggerView)>,
                Seq<char>,
            >(clock::trigger_views(v@)),
            Err(e) => bound_triggers(ref_item(profile)) == Err::<
                Seq<(int, TimeTriggerView)>,
                Seq<char>,
            >(e@),
        },
{
    if let Some(p) = profile {
        if let Some(m) = &p.manifest {
            return clock::time_triggers(m);
        }
    }
    let none: Vec<(usize, TimeTrigger)> = Vec::new();
    assert(clock::trigger_views(none@) =~= Seq::<(int, TimeTriggerView)>::empty());
    Ok(none)
}

/// The entry of a binding that applies.
fn applying(b: &ApplicabilityBinding, profile: Option<&Item>, at: Option<Timestamp>) -> (r: Object)
    ensures
        r@ == applying_members(b@, ref_item(profile), at),
{
    let mut m = Object::new();
    m.put("binding", b.to_json());
    let summary = match profile {
        Some(p) => Json::Obj(items_api::item_summary(p, at)),
        None => Json::Null,
    };
    m.put("profile", summary);
    m
}

/// What the first `n` bindings add: those that apply, and those that stay
/// unresolved.
pub open spec fn findings(
    s: StoreView,
    bs: Seq<BindingView>,
    at: Option<Timestamp>,
    as_of: Timestamp,
    facts: Option<Tree>,
    n: int,
) -> Result<(Seq<Tree>, Seq<Tree>), RefusalView>
    decreases n,
{
    if n <= 0 {
        Ok((Seq::empty(), Seq::empty()))
    } else {
        match findings(s, bs, at, as_of, facts, n - 1) {
            Err(e) => Err(e),
            Ok(got) => match finding(s, bs[n - 1], at, as_of, facts) {
                Err(e) => Err(e),
                Ok(FindingView::Applies(t)) => Ok((got.0.push(t), got.1)),
                Ok(FindingView::Unresolved(t)) => Ok((got.0, got.1.push(t))),
                Ok(FindingView::Silent) => Ok(got),
            },
        }
    }
}

proof fn findings_fail(
    s: StoreView,
    bs: Seq<BindingView>,
    at: Option<Timestamp>,
    as_of: Timestamp,
    facts: Option<Tree>,
    n: int,
    k: int,
)
    requires
        0 <= n <= k,
        findings(s, bs, at, as_of, facts, n) is Err,
    ensures
        findings(s, bs, at, as_of, facts, k) == findings(s, bs, at, as_of, facts, n),
    decreases k - n,
{
    if n < k {
        findings_fail(s, bs, at, as_of, facts, n, k - 1);
    }
}

/// Which profiles apply to a subject at an instant.
pub open spec fn applicability(
    s: StoreView,
    subject: Seq<char>,
    at: Option<Timestamp>,
    facts: Option<Tree>,
    now: Timestamp,
) -> Result<Tree, RefusalView> {
    let as_of = request::stamp_of(at, now);
    let bs = store::bindings_among(s.bindings, subject, s.bindings.len() as int);
    match findings(s, bs, at, as_of, facts, bs.len() as int) {
        Err(e) => Err(e),
        Ok((applies, unresolved)) => Ok(
            Tree::Obj(
                Map::<Seq<char>, Tree>::empty().insert("as_of"@, discovery::stamp(as_of)).insert(
                    "product_type"@,
                    Tree::Str(subject),
                ).insert("applicability"@, Tree::Arr(applies)).insert(
                    "unresolved"@,
                    Tree::Arr(unresolved),
                ),
            ),
        ),
    }
}

/// Tells which profiles apply to a subject at an instant. Where facts are
/// given, the clock predicates of the bound profiles are evaluated at the
/// same instant.
pub fn evaluate_applicability(
    store: &Store,
    subject: &str,
    at: Option<Timestamp>,
    facts: Option<&Json>,
    now: Timestamp,
) -> (r: Result<Json, Refusal>)
    ensures
        match r {
            Ok(v) => applicability(store@, subject@, at, ref_tree(facts), now) == Ok::<
                Tree,
                RefusalView,
            >(v@),
            Err(e) => applicability(store@, subject@, at, ref_tree(facts), now) == Err::<
                Tree,
                RefusalView,
            >(e@),
        },
{
    let as_of = request::stamp_or(at, now);
    let bindings = store.bindings_for(subject);
    let ghost bs = store::binding_ref_views(bindings@);
    let mut applies: Vec<Json> = Vec::new();
    let mut unresolved: Vec<Json> = Vec::new();
    let mut i: usize = 0;
    assert(json::trees(applies@) =~= Seq::<Tree>::empty());
    assert(json::trees(unresolved@) =~= Seq::<Tree>::empty());
    while i < bindings.len()
        invariant
            i <= bindings@.len(),
            bs == store::binding_ref_views(bindings@),
            bs == store::bindings_among(
                store@.bindings,
                subject@,
                store@.bindings.len() as int,
            ),
            as_of == request::stamp_of(at, now),
            findings(store@, bs, at, as_of, ref_tree(facts), i as int) == Ok::<
                (Seq<Tree>, Seq<Tree>),
                RefusalView,
            >((json::trees(applies@), json::trees(unresolved@))),
        decreases bindings@.len() - i,
    {
        assert(bs[i as int] == bindings@[i as int]@);
        match find(store, bindings[i], at, as_of, facts) {
            Ok(Finding::Applies(j)) => {
                let ghost before = json::trees(applies@);
                applies.push(j);
                assert(json::trees(applies@) =~= before.push(j@));
            },
            Ok(Finding::Unresolved(j)) => {
                let ghost before = json::trees(unresolved@);
                unresolved.push(j);
                assert(json::trees(unresolved@) =~= before.push(j@));
            },
            Ok(Finding::Silent) => {},
            Err(e) => {
                proof {
                    findings_fail(
                        store@,
                        bs,
                        at,
                        as_of,
                        ref_tree(facts),
                        i + 1,
                        bindings@.len() as int,
                    );
                }
                return Err(e);
            },
        }
        i = i + 1;
    }
    let mut m = Object::new();
    m.put("as_of", Json::Str(as_of.to_string()));
    m.put_str("product_type", subject);
    m.put("applicability", Json::Arr(applies));
    m.put("unresolved", Json::Arr(unresolved));
    Ok(Json::Obj(m))
}

/// What a facts parameter denotes: a JSON object.
pub open spec fn facts_of(raw: Seq<char>) -> Result<Tree, RefusalView> {
    match bridge::json_read(raw) {
        Err(e) => request::bad("`subject_facts` must be a JSON object: "@ + e),
        Ok(t) => if json::obj_of(t) is None {
            request::bad("`subject_facts` must be a JSON object"@)
        } else {
            Ok(t)
        },
    }
}

/// Parses a facts parameter.
pub fn parse_subject_facts(raw: &str) -> (r: Result<Json, Refusal>)
    ensures
        match r {
            Ok(v) => facts_of(raw@) == Ok::<Tree, RefusalView>(v@),
            Err(e) => facts_of(raw@) == Err::<Tree, RefusalView>(e@),
        },
{
    match Json::parse(raw) {
        Err(e) => request::bad_request(
            text::cat2("`subject_facts` must be a JSON object: ", e.as_str()),
        ),
        Ok(v) => {
            if v.as_object().is_none() {
                return request::bad_request("`subject_facts` must be a JSON object".to_owned());
            }
            Ok(v)
        },
    }
}

/// The subject that the parameters name.
pub open spec fn query_subject(q: ParamsView) -> Option<Seq<char>> {
    match request::parameter(q, "product_type"@) {
        Some(s) => Some(s),
        None => request::parameter(q, "subject"@),
    }
}

/// How an applicability query comes out, given what its facts parameter
/// denotes.
pub open spec fn queried(
    s: StoreView,
    q: ParamsView,
    facts: Option<Result<Tree, RefusalView>>,
    now: Timestamp,
) -> Result<ReplyView, RefusalView> {
    let at = request::instant_of(q);
    let subject = query_subject(q);
    if at is Err {
        Err(at->Err_0)
    } else if subject is None {
        request::bad("`product_type` is required"@)
    } else if facts matches Some(f) && f is Err {
        Err(facts->Some_0->Err_0)
    } else {
        let known = match facts {
            Some(f) => Some(f->Ok_0),
            None => None,
        };
        match applicability(s, subject->Some_0, at->Ok_0, known, now) {
            Err(e) => Err(e),
            Ok(t) => Ok(
                ReplyView { status: 200, as_of: request::stamp_of(at->Ok_0, now), body: t },
            ),
        }
    }
}

/// `GET /applicability`: which profiles applied to a product type at an
/// instant, with the clock predicates evaluated where facts are given.
pub fn applicability_query(store: &Store, q: &Params, now: Timestamp) -> (r: Result<Reply, Refusal>)
    ensures
        request::answers(
            r,
            queried(
                store@,
                q@,
                match request::parameter(q@, "subject_facts"@) {
                    Some(raw) => Some(facts_of(raw)),
                    None => None,
                },
                now,
            ),
        ),
{
    let at = match request::parse_at(q) {
        Ok(x) => x,
        Err(e) => return Err(e),
    };
    let named = match request::opt_query(q, "product_type") {
        Some(s) => Some(s),
        None => request::opt_query(q, "subject"),
    };
    let subject = match named {
        Some(s) => s,
        None => return request::bad_request("`product_type` is required".to_owned()),
    };
    let facts = match request::opt_query(q, "subject_facts") {
        None => None,
        Some(raw) => match parse_subject_facts(raw.as_str()) {
            Ok(v) => Some(v),
            Err(e) => return Err(e),
        },
    };
    let known = match &facts {
        Some(v) => Some(v),
        None => None,
    };
    match evaluate_applicability(store, subject.as_str(), at, known, now) {
        Err(e) => Err(e),
        Ok(body) => Ok(Reply { status: 200, as_of: request::stamp_or(at, now), body }),
    }
}

/// What an evaluation by body asks for: the subject, the instant and the
/// facts.
pub open spec fn evaluation_request(t: Tree) -> Result<
    (Seq<char>, Option<Timestamp>, Tree),
    RefusalView,
> {
    let subject = match request::either(t, "product_type"@, "subject"@) {
        Some(Tree::Str(s)) => if text::trimmed(s).len() > 0 {
            Some(text::trimmed(s))
        } else {
            None
        },
        _ => None,
    };
    let facts = match json::lookup(t, "subject_facts"@) {
        Some(Tree::Obj(m)) => Some(Tree::Obj(m)),
        _ => None,
    };
    let at = request::optional_stamp(t, "at"@);
    if json::lookup(t, "profile_id"@) is Some {
        request::bad(
            "cannot bind with `subject_facts`: subject_facts marks an evaluation request (drop `profile_id`)"@,
        )
    } else if subject is None {
        request::bad("`product_type` is required"@)
    } else if facts is None {
        request::bad("`subject_facts` must be a JSON object"@)
    } else if at is Err {
        Err(at->Err_0)
    } else {
        Ok((subject->Some_0, at->Ok_0, facts->Some_0))
    }
}

/// Reads what an evaluation by body asks for.
fn read_evaluation_request(v: &Json) -> (r: Result<(String, Option<Timestamp>, Json), Refusal>)
    ensures
        match r {
            Ok(x) => evaluation_request(v@) == Ok::<
                (Seq<char>, Option<Timestamp>, Tree),
                RefusalView,
            >((x.0@, x.1, x.2@)),
            Err(e) => evaluation_request(v@) == Err::<
                (Seq<char>, Option<Timestamp>, Tree),
                RefusalView,
            >(e@),
        },
{
    if v.get("profile_id").is_some() {
        return request::bad_request(
            "cannot bind with `subject_facts`: subject_facts marks an evaluation request (drop `profile_id`)".to_owned(),
        );
    }
    let mut named: Option<String> = None;
    if let Some(x) = request::read_either(v, "product_type", "subject") {
        if let Some(s) = x.as_str() {
            let t = text::trim(s);
            if !t.as_str().is_empty() {
                named = Some(t);
            }
        }
    }
    let subject = match named {
        Some(s) => s,
        None => return request::bad_request("`product_type` is required".to_owned()),
    };
    let mut known: Option<Json> = None;
    if let Some(x) = v.get("subject_facts") {
        if x.as_object().is_some() {
            known = Some(x.clone());
        }
    }
    let facts = match known {
        Some(f) => f,
        None => return request::bad_request("`subject_facts` must be a JSON object".to_owned()),
    };
    match request::opt_ts(v, "at") {
        Ok(at) => Ok((subject, at, facts)),
        Err(e) => Err(e),
    }
}

/// The product type that a binding names.
pub open spec fn bind_subject(t: Tree) -> Result<Seq<char>, RefusalView> {
    match request::either(t, "product_type"@, "subject"@) {
        None => request::bad("`product_type` is required"@),
        Some(Tree::Str(s)) => if text::trimmed(s).len() > 0 {
            Ok(text::trimmed(s))
        } else {
            request::bad("`product_type` must be a non-empty string"@)
        },
        Some(_) => request::bad("`product_type` must be a non-empty string"@),
    }
}

/// Reads the product type that a binding names.
fn read_bind_subject(v: &Json) -> (r: Result<String, Refusal>)
    ensures
        request::text_read(r, bind_subject(v@)),
{
    match request::read_either(v, "product_type", "subject") {
        None => request::bad_request("`product_type` is required".to_owned()),
        Some(x) => {
            if let Some(s) = x.as_str() {
                let t = text::trim(s);
                if !t.as_str().is_empty() {
                    return Ok(t);
                }
            }
            request::bad_request("`product_type` must be a non-empty string".to_owned())
        },
    }
}

/// What a binding asks for. The instant of registration is always the
/// current one.
pub open spec fn bind_request(t: Tree, now: Timestamp) -> Result<BindingView, RefusalView> {
    let profile = request::required_token(t, "profile_id"@);
    let subject = bind_subject(t);
    let register = request::optional_text(t, "register"@);
    let version = request::optional_text(t, "profile_version"@);
    let window = request::window_of(t, now);
    let retroactive = request::optional_flag(t, "retroactive"@);
    if profile is Err {
        Err(profile->Err_0)
    } else if subject is Err {
        Err(subject->Err_0)
    } else if register is Err {
        Err(register->Err_0)
    } else if version is Err {
        Err(version->Err_0)
    } else if window is Err {
        Err(window->Err_0)
    } else if retroactive is Err {
        Err(retroactive->Err_0)
    } else {
        Ok(
            BindingView {
                id: 0,
                subject: subject->Ok_0,
                profile_item: profile->Ok_0,
                register: register->Ok_0,
                profile_version: version->Ok_0,
                effective_from: Some(window->Ok_0.0),
                effective_until: window->Ok_0.1,
                registered_at: Some(now),
                retroactive: match retroactive->Ok_0 {
                    Some(b) => b,
                    None => false,
                },
            },
        )
    }
}

/// Reads what a binding asks for.
pub fn read_bind_request(v: &Json, now: Timestamp) -> (r: Result<ApplicabilityBinding, Refusal>)
    ensures
        match r {
            Ok(x) => bind_request(v@, now) == Ok::<BindingView, RefusalView>(x@),
            Err(e) => bind_request(v@, now) == Err::<BindingView, RefusalView>(e@),
        },
{
    let profile_item = match request::req_token(v, "profile_id") {
        Ok(s) => s,
        Err(e) => return Err(e),
    };
    let subject = match read_bind_subject(v) {
        Ok(s) => s,
        Err(e) => return Err(e),
    };
    let register = match request::opt_str(v, "register") {
        Ok(s) => s,
        Err(e) => return Err(e),
    };
    let profile_version = match request::opt_str(v, "profile_version") {
        Ok(s) => s,
        Err(e) => return Err(e),
    };
    let window = match request::read_window(v, now) {
        Ok(w) => w,
        Err(e) => return Err(e),
    };
    let retroactive = match request::opt_bool(v, "retroactive") {
        Ok(Some(b)) => b,
        Ok(None) => false,
        Err(e) => return Err(e),
    };
    Ok(
        ApplicabilityBinding {
            id: 0,
            subject,
            profile_item,
            register,
            profile_version,
            effective_from: Some(window.0),
            effective_until: window.1,
            registered_at: Some(now),
            retroactive,
        },
    )
}

/// The answer to a binding.
pub open spec fn bound_tree(b: BindingView, seq: u64, now: Timestamp) -> Tree {
    Tree::Obj(
        discovery::body_members(model::binding_tree(b)).insert(
            "audit_seq"@,
            Tree::Int(seq as int),
        ).insert("as_of"@, discovery::stamp(now)),
    )
}

/// How a binding comes out, and the store after it. A body with
/// `subject_facts` is an evaluation and changes nothing.
pub open spec fn bound(s: StoreView, t: Tree, now: Timestamp) -> (
    Result<ReplyView, RefusalView>,
    StoreView,
) {
    if json::lookup(t, "subject_facts"@) is Some {
        (
            match evaluation_request(t) {
                Err(e) => Err(e),
                Ok((subject, at, facts)) => match applicability(s, subject, at, Some(facts), now) {
                    Err(e) => Err(e),
                    Ok(body) => Ok(ReplyView { status: 200, as_of: now, body }),
                },
            },
            s,
        )
    } else {
        match bind_request(t, now) {
            Err(e) => (Err(e), s),
            Ok(b) => match store::bind_refusal(s, b) {
                Some(e) => (Err(request::store_refusal(e)), s),
                None => {
                    let rec = store::next_record(s, store::bind_op(s, b), now);
                    (
                        Ok(
                            ReplyView {
                                status: 201,
                                as_of: now,
                                body: bound_tree(
                                    BindingView { id: s.next_binding_id, ..b },
                                    rec.seq,
                                    now,
                                ),
                            },
                        ),
                        store::logged(s, rec),
                    )
                },
            },
        }
    }
}

/// Binds a profile to a product type, or evaluates, as a parsed body asks.
pub fn bind(store: &mut Store, v: &Json, now: Timestamp) -> (r: Result<Reply, Refusal>)
    ensures
        request::answers(r, bound(old(store)@, v@, now).0),
        final(store)@ == bound(old(store)@, v@, now).1,
        store::faithful(old(store)@) ==> store::faithful(final(store)@),
{
    if v.get("subject_facts").is_some() {
        let (subject, at, facts) = match read_evaluation_request(v) {
            Ok(x) => x,
            Err(e) => return Err(e),
        };
        return match evaluate_applicability(store, subject.as_str(), at, Some(&facts), now) {
            Err(e) => Err(e),
            Ok(body) => Ok(Reply { status: 200, as_of: now, body }),
        };
    }
    let binding = match read_bind_request(v, now) {
        Ok(b) => b,
        Err(e) => return Err(e),
    };
    let rec = match store.bind(binding, now) {
        Ok(r) => r,
        Err(e) => return Err(request::store_error(e)),
    };
    let mut m = match &rec.op {
        Op::BindApplicability { binding } => match binding.to_json() {
            Json::Obj(o) => o,
            _ => Object::new(),
        },
        _ => Object::new(),
    };
    m.put_uint("audit_seq", rec.seq);
    m.put("as_of", Json::Str(now.to_string()));
    Ok(Reply { status: 201, as_of: now, body: Json::Obj(m) })
}

/// `POST /applicability`: binds a profile to a product type with an
/// effective window and a retroactivity flag.
pub fn bind_applicability(store: &mut Store, body: &str, now: Timestamp) -> (r: Result<
    Reply,
    Refusal,
>)
    ensures
        match request::body_of(body@) {
            Err(e) => request::answers(r, Err(e)) && final(store)@ == old(store)@,
            Ok(t) => request::answers(r, bound(old(store)@, t, now).0) && final(store)@ == bound(
                old(store)@,
                t,
                now,
            ).1,
        },
        store::faithful(old(store)@) ==> store::faithful(final(store)@),
{
    match request::parse_body(body) {
        Ok(v) => bind(store, &v, now),
        Err(e) => Err(e),
    }
}

} // verus!
