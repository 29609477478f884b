//! Requests and replies: what a handler reads of a request body and of the
//! query parameters, and what it answers.
//!
//! A handler takes the store, the parsed body or the parameters and the
//! current instant, and gives a [`Reply`] or a [`Refusal`]. The transport
//! stays outside.

use vstd::prelude::*;
use crate::bridge;
use crate::fields;
use crate::intake;
use crate::intake::{IntakeError, NoteView};
use crate::json;
use crate::json::{Json, Object, Tree};
use crate::model;
use crate::model::ItemClass;
use crate::store;
use crate::store::{StoreError, StoreErrorView};
use crate::table::Table;
use crate::text;
use crate::time;
use crate::time::Timestamp;

verus! {

/// An answer: the status code, the instant it is stamped with, and the
/// document.
#[derive(Debug, PartialEq, Eq)]
pub struct Reply {
    pub status: u16,
    pub as_of: Timestamp,
    pub body: Json,
}

/// The content of an answer.
pub struct ReplyView {
    pub status: u16,
    pub as_of: Timestamp,
    pub body: Tree,
}

impl View for Reply {
    type V = ReplyView;

    open spec fn view(&self) -> ReplyView {
        ReplyView { status: self.status, as_of: self.as_of, body: self.body@ }
    }
}

/// Why a request is turned down.
#[derive(Debug, PartialEq, Eq)]
pub enum Refusal {
    /// The request makes no sense.
    BadRequest(String),
    /// The bearer token is missing or wrong.
    Unauthorized,
    /// What the request names does not exist.
    NotFound(String),
    /// What the request adds is already there.
    Conflict(String),
    /// An intake check rejects the item.
    Rejected(Vec<IntakeError>),
}

/// The content of a refusal.
pub enum RefusalView {
    BadRequest(Seq<char>),
    Unauthorized,
    NotFound(Seq<char>),
    Conflict(Seq<char>),
    Rejected(Seq<NoteView>),
}

impl View for Refusal {
    type V = RefusalView;

    open spec fn view(&self) -> RefusalView {
        match *self {
            Refusal::BadRequest(m) => RefusalView::BadRequest(m@),
            Refusal::Unauthorized => RefusalView::Unauthorized,
            Refusal::NotFound(m) => RefusalView::NotFound(m@),
            Refusal::Conflict(m) => RefusalView::Conflict(m@),
            Refusal::Rejected(es) => RefusalView::Rejected(intake::error_notes(es@)),
        }
    }
}

/// The status code of a refusal.
pub open spec fn refusal_status(r: RefusalView) -> u16 {
    match r {
        RefusalView::BadRequest(_) => 400,
        RefusalView::Unauthorized => 401,
        RefusalView::NotFound(_) => 404,
        RefusalView::Conflict(_) => 409,
        RefusalView::Rejected(_) => 400,
    }
}

/// An error document.
pub open spec fn error_tree(message: Seq<char>) -> Tree {
    Tree::Obj(Map::<Seq<char>, Tree>::empty().insert("error"@, Tree::Str(message)))
}

/// The message of a rejection.
pub open spec fn rejection_text(es: Seq<NoteView>) -> Seq<char> {
    if es.len() > 0 {
        es[0].check + " rejected the item: "@ + es[0].message
    } else {
        "intake validation failed"@
    }
}

/// The document of a refusal.
pub open spec fn refusal_tree(r: RefusalView) -> Tree {
    match r {
        RefusalView::BadRequest(m) => error_tree(m),
        RefusalView::Unauthorized => error_tree("unauthorized"@),
        RefusalView::NotFound(m) => error_tree(m),
        RefusalView::Conflict(m) => error_tree(m),
        RefusalView::Rejected(es) => Tree::Obj(
            Map::<Seq<char>, Tree>::empty().insert("error"@, Tree::Str(rejection_text(es))).insert(
                "errors"@,
                Tree::Arr(intake::note_trees(es)),
            ),
        ),
    }
}

/// An error document.
fn error_json(message: &str) -> (r: Json)
    ensures
        r@ == error_tree(message@),
{
    let mut m = Object::new();
    m.put_str("error", message);
    Json::Obj(m)
}

impl Refusal {
    /// The status code.
    pub fn status(&self) -> (r: u16)
        ensures
            r == refusal_status(self@),
    {
        match self {
            Refusal::BadRequest(_) => 400,
            Refusal::Unauthorized => 401,
            Refusal::NotFound(_) => 404,
            Refusal::Conflict(_) => 409,
            Refusal::Rejected(_) => 400,
        }
    }

    /// The document: the message and, for a rejection, the failing check
    /// with the precise paths.
    pub fn to_json(&self) -> (r: Json)
        ensures
            r@ == refusal_tree(self@),
    {
        match self {
            Refusal::BadRequest(m) => error_json(m.as_str()),
            Refusal::Unauthorized => error_json("unauthorized"),
            Refusal::NotFound(m) => error_json(m.as_str()),
            Refusal::Conflict(m) => error_json(m.as_str()),
            Refusal::Rejected(es) => {
                let ghost notes = intake::error_notes(es@);
                assert(notes.len() == es@.len());
                let message = if es.len() > 0 {
                    assert(notes[0] == es@[0]@);
                    text::cat3(es[0].check, " rejected the item: ", es[0].message.as_str())
                } else {
                    "intake validation failed".to_owned()
                };
                let mut m = Object::new();
                m.put_str("error", message.as_str());
                m.put("errors", Json::Arr(intake::errors_list(es)));
                Json::Obj(m)
            },
        }
    }

    /// Turns a refusal into the answer that carries it.
    pub fn into_reply(self, now: Timestamp) -> (r: Reply)
        ensures
            r@ == (ReplyView {
                status: refusal_status(self@),
                as_of: now,
                body: refusal_tree(self@),
            }),
    {
        Reply { status: self.status(), as_of: now, body: self.to_json() }
    }
}

/// Whether a handler answered as stated.
pub open spec fn answers(r: Result<Reply, Refusal>, expected: Result<ReplyView, RefusalView>) -> bool {
    match r {
        Ok(x) => expected == Ok::<ReplyView, RefusalView>(x@),
        Err(e) => expected == Err::<ReplyView, RefusalView>(e@),
    }
}

/// A request that makes no sense.
pub open spec fn bad<T>(message: Seq<char>) -> Result<T, RefusalView> {
    Err(RefusalView::BadRequest(message))
}

/// A request that makes no sense.
pub(crate) fn bad_request<T>(message: String) -> (r: Result<T, Refusal>)
    ensures
        r matches Err(e) && e@ == RefusalView::BadRequest(message@),
{
    Err(Refusal::BadRequest(message))
}

/// How a refusal of the store is answered.
pub open spec fn store_refusal(e: StoreErrorView) -> RefusalView {
    match e {
        StoreErrorView::Conflict(m) => RefusalView::Conflict(m),
        StoreErrorView::Invalid(m) => RefusalView::BadRequest(m),
    }
}

/// How a refusal of the store is answered.
pub(crate) fn store_error(e: StoreError) -> (r: Refusal)
    ensures
        r@ == store_refusal(e@),
{
    match e {
        StoreError::Conflict(m) => Refusal::Conflict(m),
        StoreError::Invalid(m) => Refusal::BadRequest(m),
    }
}

/// What a request body denotes.
pub open spec fn body_of(body: Seq<char>) -> Result<Tree, RefusalView> {
    match bridge::json_read(body) {
        Ok(t) => Ok(t),
        Err(e) => bad("invalid JSON body: "@ + e),
    }
}

/// Parses a request body.
pub fn parse_body(body: &str) -> (r: Result<Json, Refusal>)
    ensures
        match r {
            Ok(v) => body_of(body@) == Ok::<Tree, RefusalView>(v@),
            Err(e) => body_of(body@) == Err::<Tree, RefusalView>(e@),
        },
{
    match Json::parse(body) {
        Ok(v) => Ok(v),
        Err(e) => bad_request(text::cat2("invalid JSON body: ", e.as_str())),
    }
}

/// A text that the body has to give.
pub open spec fn required_raw(t: Tree, key: Seq<char>) -> Result<Seq<char>, RefusalView> {
    match json::get_str(t, key) {
        Some(s) => if text::trimmed(s).len() > 0 {
            Ok(s)
        } else {
            bad("`"@ + key + "` is required"@)
        },
        None => bad("`"@ + key + "` is required"@),
    }
}

/// A text that the body has to give, trimmed.
pub open spec fn required(t: Tree, key: Seq<char>) -> Result<Seq<char>, RefusalView> {
    match required_raw(t, key) {
        Ok(s) => Ok(text::trimmed(s)),
        Err(e) => Err(e),
    }
}

/// Whether a reading of a text is the one stated.
pub open spec fn text_read(r: Result<String, Refusal>, expected: Result<Seq<char>, RefusalView>) -> bool {
    match r {
        Ok(s) => expected == Ok::<Seq<char>, RefusalView>(s@),
        Err(e) => expected == Err::<Seq<char>, RefusalView>(e@),
    }
}

/// Reads a text that the body has to give.
pub fn req_str_raw(v: &Json, key: &str) -> (r: Result<String, Refusal>)
    ensures
        text_read(r, required_raw(v@, key@)),
{
    if let Some(s) = v.get_str(key) {
        let t = text::trim(s);
        if !t.as_str().is_empty() {
            return Ok(s.to_owned());
        }
    }
    bad_request(text::cat3("`", key, "` is required"))
}

/// Reads a text that the body has to give, trimmed.
pub fn req_str(v: &Json, key: &str) -> (r: Result<String, Refusal>)
    ensures
        text_read(r, required(v@, key@)),
{
    match req_str_raw(v, key) {
        Ok(s) => Ok(text::trim(s.as_str())),
        Err(e) => Err(e),
    }
}

/// The member `key`, where it is there and not `null`.
pub open spec fn given(t: Tree, key: Seq<char>) -> Option<Tree> {
    match json::lookup(t, key) {
        Some(x) => if x == Tree::Null {
            None
        } else {
            Some(x)
        },
        None => None,
    }
}

/// Reads the member `key`, where it is there and not `null`.
pub(crate) fn read_given<'a>(v: &'a Json, key: &str) -> (r: Option<&'a Json>)
    ensures
        match r {
            Some(x) => given(v@, key@) == Some(x@),
            None => given(v@, key@) is None,
        },
{
    match v.get(key) {
        Some(x) => if x.is_null() {
            None
        } else {
            Some(x)
        },
        None => None,
    }
}

/// A text that the body may give, trimmed.
pub open spec fn optional_text(t: Tree, key: Seq<char>) -> Result<Option<Seq<char>>, RefusalView> {
    match given(t, key) {
        None => Ok(None),
        Some(Tree::Str(s)) => if text::trimmed(s).len() > 0 {
            Ok(Some(text::trimmed(s)))
        } else {
            bad("`"@ + key + "` must be a non-empty string"@)
        },
        Some(_) => bad("`"@ + key + "` must be a non-empty string"@),
    }
}

/// Reads a text that the body may give.
pub fn opt_str(v: &Json, key: &str) -> (r: Result<Option<String>, Refusal>)
    ensures
        match r {
            Ok(s) => optional_text(v@, key@) == Ok::<Option<Seq<char>>, RefusalView>(
                text::opt_view(s),
            ),
            Err(e) => optional_text(v@, key@) == Err::<Option<Seq<char>>, RefusalView>(e@),
        },
{
    match read_given(v, key) {
        None => Ok(None),
        Some(x) => {
            if let Some(s) = x.as_str() {
                let t = text::trim(s);
                if !t.as_str().is_empty() {
                    return Ok(Some(t));
                }
            }
            bad_request(text::cat3("`", key, "` must be a non-empty string"))
        },
    }
}

/// An instant that the body may give.
pub open spec fn optional_stamp(t: Tree, key: Seq<char>) -> Result<Option<Timestamp>, RefusalView> {
    match given(t, key) {
        None => Ok(None),
        Some(Tree::Str(s)) => match time::parsed(s) {
            Some(x) => Ok(Some(Timestamp { secs: x as i64 })),
            None => bad("`"@ + key + "`: "@ + time::parse_error(s)),
        },
        Some(_) => bad("`"@ + key + "` must be an RFC 3339 string"@),
    }
}

/// Reads an instant that the body may give.
pub fn opt_ts(v: &Json, key: &str) -> (r: Result<Option<Timestamp>, Refusal>)
    ensures
        match r {
            Ok(x) => optional_stamp(v@, key@) == Ok::<Option<Timestamp>, RefusalView>(x),
            Err(e) => optional_stamp(v@, key@) == Err::<Option<Timestamp>, RefusalView>(e@),
        },
{
    match read_given(v, key) {
        None => Ok(None),
        Some(x) => match x.as_str() {
            Some(s) => match Timestamp::parse(s) {
                Ok(t) => Ok(Some(t)),
                Err(e) => bad_request(text::cat4("`", key, "`: ", e.as_str())),
            },
            None => bad_request(text::cat3("`", key, "` must be an RFC 3339 string")),
        },
    }
}

/// A flag that the body may give.
pub open spec fn optional_flag(t: Tree, key: Seq<char>) -> Result<Option<bool>, RefusalView> {
    match given(t, key) {
        None => Ok(None),
        Some(Tree::Bool(b)) => Ok(Some(b)),
        Some(_) => bad("`"@ + key + "` must be a boolean"@),
    }
}

/// Reads a flag that the body may give.
pub fn opt_bool(v: &Json, key: &str) -> (r: Result<Option<bool>, Refusal>)
    ensures
        match r {
            Ok(x) => optional_flag(v@, key@) == Ok::<Option<bool>, RefusalView>(x),
            Err(e) => optional_flag(v@, key@) == Err::<Option<bool>, RefusalView>(e@),
        },
{
    match read_given(v, key) {
        None => Ok(None),
        Some(x) => match x.as_bool() {
            Some(b) => Ok(Some(b)),
            None => bad_request(text::cat3("`", key, "` must be a boolean")),
        },
    }
}

/// An object that the body may give.
pub open spec fn optional_object(t: Tree, key: Seq<char>) -> Result<Option<Tree>, RefusalView> {
    match given(t, key) {
        None => Ok(None),
        Some(Tree::Obj(m)) => Ok(Some(Tree::Obj(m))),
        Some(_) => bad("`"@ + key + "` must be an object"@),
    }
}

/// Reads an object that the body may give.
pub fn opt_object(v: &Json, key: &str) -> (r: Result<Option<Json>, Refusal>)
    ensures
        match r {
            Ok(x) => optional_object(v@, key@) == Ok::<Option<Tree>, RefusalView>(
                fields::opt_tree(x),
            ),
            Err(e) => optional_object(v@, key@) == Err::<Option<Tree>, RefusalView>(e@),
        },
{
    match read_given(v, key) {
        None => Ok(None),
        Some(x) => match x.as_object() {
            Some(_) => Ok(Some(x.clone())),
            None => bad_request(text::cat3("`", key, "` must be an object")),
        },
    }
}

/// The first of two members that is there.
pub open spec fn either(t: Tree, a: Seq<char>, b: Seq<char>) -> Option<Tree> {
    match json::lookup(t, a) {
        Some(x) => Some(x),
        None => json::lookup(t, b),
    }
}

/// Reads the first of two members that is there.
pub(crate) fn read_either<'a>(v: &'a Json, a: &str, b: &str) -> (r: Option<&'a Json>)
    ensures
        match r {
            Some(x) => either(v@, a@, b@) == Some(x@),
            None => either(v@, a@, b@) is None,
        },
{
    match v.get(a) {
        Some(x) => Some(x),
        None => v.get(b),
    }
}

/// The text of an item: requests name it `definition` or `title`.
pub open spec fn title_of(t: Tree) -> Result<Seq<char>, RefusalView> {
    match either(t, "definition"@, "title"@) {
        None => bad("`definition` is required"@),
        Some(Tree::Str(s)) => if text::trimmed(s).len() > 0 {
            Ok(text::trimmed(s))
        } else {
            bad("`definition` must be a non-empty string"@)
        },
        Some(_) => bad("`definition` must be a non-empty string"@),
    }
}

/// Reads the text of an item.
pub fn body_title(v: &Json) -> (r: Result<String, Refusal>)
    ensures
        text_read(r, title_of(v@)),
{
    match read_either(v, "definition", "title") {
        None => bad_request("`definition` is required".to_owned()),
        Some(x) => {
            if let Some(s) = x.as_str() {
                let t = text::trim(s);
                if !t.as_str().is_empty() {
                    return Ok(t);
                }
            }
            bad_request("`definition` must be a non-empty string".to_owned())
        },
    }
}

/// An unknown class, with the classes there are.
pub open spec fn unknown_class(s: Seq<char>) -> Seq<char> {
    "unknown item class `"@ + s + "` (expected one of "@ + model::class_help() + ")"@
}

/// The class of an item: the one that the mount point fixes, or the one
/// that the body gives.
pub open spec fn class_of(t: Tree, scope: Option<ItemClass>) -> Result<ItemClass, RefusalView> {
    match given(t, "class"@) {
        None => match scope {
            Some(fixed) => Ok(fixed),
            None => bad("`class` is required"@),
        },
        Some(Tree::Str(s)) => match scope {
            Some(fixed) => match model::parsed_class(s) {
                None => bad("unknown item class `"@ + s + "`"@),
                Some(c) => if c != fixed {
                    bad(
                        "class `"@ + s + "` does not match subregister `"@ + model::class_plural(
                            fixed,
                        ) + "`"@,
                    )
                } else {
                    Ok(fixed)
                },
            },
            None => match model::parsed_class(s) {
                None => bad(unknown_class(s)),
                Some(c) => Ok(c),
            },
        },
        Some(_) => bad("`class` must be a string"@),
    }
}

/// The message for an unknown class.
pub(crate) fn unknown_class_text(s: &str) -> (r: String)
    ensures
        r@ == unknown_class(s@),
{
    let help = ItemClass::help();
    text::cat5("unknown item class `", s, "` (expected one of ", help.as_str(), ")")
}

/// Reads the class of an item.
pub fn body_class(v: &Json, scope: Option<ItemClass>) -> (r: Result<ItemClass, Refusal>)
    ensures
        match r {
            Ok(c) => class_of(v@, scope) == Ok::<ItemClass, RefusalView>(c),
            Err(e) => class_of(v@, scope) == Err::<ItemClass, RefusalView>(e@),
        },
{
    let s = match read_given(v, "class") {
        None => match scope {
            Some(fixed) => return Ok(fixed),
            None => return bad_request("`class` is required".to_owned()),
        },
        Some(x) => match x.as_str() {
            Some(s) => s,
            None => return bad_request("`class` must be a string".to_owned()),
        },
    };
    match scope {
        Some(fixed) => match ItemClass::parse(s) {
            None => bad_request(text::cat3("unknown item class `", s, "`")),
            Some(c) => if c != fixed {
                bad_request(
                    text::cat5(
                        "class `",
                        s,
                        "` does not match subregister `",
                        fixed.plural(),
                        "`",
                    ),
                )
            } else {
                Ok(fixed)
            },
        },
        None => match ItemClass::parse(s) {
            None => bad_request(unknown_class_text(s)),
            Some(c) => Ok(c),
        },
    }
}

/// Whether a text can be a segment of a path: 1 to 256 characters without
/// `/` and without white space.
pub open spec fn is_token(s: Seq<char>) -> bool {
    &&& 0 < s.len() <= 256
    &&& forall|i: int| 0 <= i < s.len() ==> #[trigger] s[i] != '/' && !text::is_space(s[i])
}

/// Why a text cannot be a segment of a path.
pub open spec fn not_a_token(field: Seq<char>) -> RefusalView {
    RefusalView::BadRequest(
        "`"@ + field + "` must be 1-256 characters without `/` or whitespace"@,
    )
}

/// Checks that a text can be a segment of a path.
pub fn validate_token(s: &str, field: &str) -> (r: Result<(), Refusal>)
    ensures
        match r {
            Ok(_) => is_token(s@),
            Err(e) => !is_token(s@) && e@ == not_a_token(field@),
        },
{
    let v = text::chars(s);
    let mut fits: bool = v.len() > 0 && v.len() <= 256;
    let mut i: usize = 0;
    while i < v.len()
        invariant
            v@ == s@,
            i <= v@.len(),
            fits <==> (0 < v@.len() <= 256 && forall|j: int|
                0 <= j < i ==> #[trigger] v@[j] != '/' && !text::is_space(v@[j])),
        decreases v@.len() - i,
    {
        if v[i] == '/' || text::space(v[i]) {
            fits = false;
        }
        i = i + 1;
    }
    if fits {
        Ok(())
    } else {
        bad_request(
            text::cat3("`", field, "` must be 1-256 characters without `/` or whitespace"),
        )
    }
}

/// A required text that is a token.
pub open spec fn required_token(t: Tree, key: Seq<char>) -> Result<Seq<char>, RefusalView> {
    match required(t, key) {
        Err(e) => Err(e),
        Ok(s) => if is_token(s) {
            Ok(s)
        } else {
            Err(not_a_token(key))
        },
    }
}

/// Reads a required text that is a token.
pub(crate) fn req_token(v: &Json, key: &str) -> (r: Result<String, Refusal>)
    ensures
        text_read(r, required_token(v@, key@)),
{
    match req_str(v, key) {
        Err(e) => Err(e),
        Ok(s) => match validate_token(s.as_str(), key) {
            Ok(_) => Ok(s),
            Err(e) => Err(e),
        },
    }
}

/// The effective window of a version: from the given instant or now on,
/// until the given one, which has to be later.
pub open spec fn window_of(t: Tree, now: Timestamp) -> Result<(Timestamp, Option<Timestamp>), RefusalView> {
    let from = optional_stamp(t, "effective_from"@);
    let until = optional_stamp(t, "effective_until"@);
    if from is Err {
        Err(from->Err_0)
    } else if until is Err {
        Err(until->Err_0)
    } else {
        let start = match from->Ok_0 {
            Some(x) => x,
            None => now,
        };
        if until->Ok_0 is Some && until->Ok_0->Some_0.secs <= start.secs {
            bad("`effective_until` must be after `effective_from`"@)
        } else {
            Ok((start, until->Ok_0))
        }
    }
}

/// Reads the effective window of a version.
pub(crate) fn read_window(v: &Json, now: Timestamp) -> (r: Result<
    (Timestamp, Option<Timestamp>),
    Refusal,
>)
    ensures
        match r {
            Ok(w) => window_of(v@, now) == Ok::<(Timestamp, Option<Timestamp>), RefusalView>(w),
            Err(e) => window_of(v@, now) == Err::<(Timestamp, Option<Timestamp>), RefusalView>(e@),
        },
{
    let from = match opt_ts(v, "effective_from") {
        Ok(Some(x)) => x,
        Ok(None) => now,
        Err(e) => return Err(e),
    };
    let until = match opt_ts(v, "effective_until") {
        Ok(x) => x,
        Err(e) => return Err(e),
    };
    if let Some(u) = until {
        if u.secs <= from.secs {
            return bad_request("`effective_until` must be after `effective_from`".to_owned());
        }
    }
    Ok((from, until))
}

/// The query parameters of a request.
pub type Params = Table<String>;

/// The contents of the query parameters.
pub type ParamsView = Map<Seq<char>, Seq<char>>;

/// The instant that the parameter `at`, or its alias `asof`, asks for.
/// None means the current registered state.
pub open spec fn instant_of(q: ParamsView) -> Result<Option<Timestamp>, RefusalView> {
    let raw = if q.dom().contains("at"@) {
        Some(q["at"@])
    } else if q.dom().contains("asof"@) {
        Some(q["asof"@])
    } else {
        None
    };
    match raw {
        None => Ok(None),
        Some(s) => if s.len() == 0 {
            Ok(None)
        } else {
            match time::parsed(s) {
                Some(x) => Ok(Some(Timestamp { secs: x as i64 })),
                None => bad("invalid `at` parameter: "@ + time::parse_error(s)),
            }
        },
    }
}

/// Reads the instant that the parameters ask for.
pub fn parse_at(q: &Params) -> (r: Result<Option<Timestamp>, Refusal>)
    ensures
        match r {
            Ok(x) => instant_of(q@) == Ok::<Option<Timestamp>, RefusalView>(x),
            Err(e) => instant_of(q@) == Err::<Option<Timestamp>, RefusalView>(e@),
        },
{
    let raw = match q.get("at") {
        Some(s) => Some(s),
        None => q.get("asof"),
    };
    match raw {
        None => Ok(None),
        Some(s) => {
            if s.as_str().is_empty() {
                return Ok(None);
            }
            match Timestamp::parse(s.as_str()) {
                Ok(t) => Ok(Some(t)),
                Err(e) => bad_request(text::cat2("invalid `at` parameter: ", e.as_str())),
            }
        },
    }
}

/// The instant that an answer is stamped with.
pub open spec fn stamp_of(at: Option<Timestamp>, now: Timestamp) -> Timestamp {
    match at {
        Some(t) => t,
        None => now,
    }
}

/// The instant that an answer is stamped with.
pub(crate) fn stamp_or(at: Option<Timestamp>, now: Timestamp) -> (r: Timestamp)
    ensures
        r == stamp_of(at, now),
{
    match at {
        Some(t) => t,
        None => now,
    }
}

/// A parameter that is there and not blank, trimmed.
pub open spec fn parameter(q: ParamsView, key: Seq<char>) -> Option<Seq<char>> {
    if q.dom().contains(key) && text::trimmed(q[key]).len() > 0 {
        Some(text::trimmed(q[key]))
    } else {
        None
    }
}

/// Reads a parameter.
pub fn opt_query(q: &Params, key: &str) -> (r: Option<String>)
    ensures
        text::opt_view(r) == parameter(q@, key@),
{
    match q.get(key) {
        Some(s) => {
            let t = text::trim(s.as_str());
            if t.as_str().is_empty() {
                None
            } else {
                Some(t)
            }
        },
        None => None,
    }
}

/// A borrowed optional text.
pub(crate) fn borrowed(s: &Option<String>) -> (r: Option<&str>)
    ensures
        store::opt_str_view(r) == text::opt_view(*s),
{
    match s {
        Some(x) => Some(x.as_str()),
        None => None,
    }
}

/// Whether a request may change the register: no token is configured, or
/// the `Authorization` header bears it.
pub open spec fn authorized(token: Option<Seq<char>>, header: Option<Seq<char>>) -> bool {
    token matches Some(t) ==> (header matches Some(h) && text::after(h, "Bearer "@) == Some(t))
}

/// Checks the `Authorization` header of a request that changes the
/// register.
pub fn require_admin(token: Option<&str>, header: Option<&str>) -> (r: Result<(), Refusal>)
    ensures
        match r {
            Ok(_) => authorized(store::opt_str_view(token), store::opt_str_view(header)),
            Err(e) => !authorized(store::opt_str_view(token), store::opt_str_view(header)) && e@
                == RefusalView::Unauthorized,
        },
{
    let t = match token {
        Some(t) => t,
        None => return Ok(()),
    };
    if let Some(h) = header {
        if let Some(got) = text::strip(h, "Bearer ") {
            if text::same(got.as_str(), t) {
                return Ok(());
            }
        }
    }
    Err(Refusal::Unauthorized)
}

/// The number that a text denotes, in decimal and with an optional plus
/// sign, if a machine word holds it.
pub open spec fn count_of(s: Seq<char>) -> Option<usize> {
    let digits = if s.len() > 1 && s[0] == '+' {
        s.skip(1)
    } else {
        s
    };
    if digits.len() > 0 && text::all_digits(digits) && text::number(digits) <= usize::MAX {
        Some(text::number(digits) as usize)
    } else {
        None
    }
}

/// A longer number is no smaller.
proof fn number_grows(s: Seq<char>, n: int)
    requires
        0 <= n <= s.len(),
        text::all_digits(s),
    ensures
        text::number(s.take(n)) <= text::number(s),
    decreases s.len() - n,
{
    if n < s.len() {
        let longer = s.take(n + 1);
        assert(longer.drop_last() =~= s.take(n));
        assert(text::is_digit(s[n]));
        assert(longer.last() == s[n]);
        number_grows(s, n + 1);
    } else {
        assert(s.take(n) =~= s);
    }
}

/// Reads a number.
pub fn parse_count(s: &str) -> (r: Option<usize>)
    ensures
        r == count_of(s@),
{
    let v = text::chars(s);
    let start: usize = if v.len() > 1 && v[0] == '+' {
        1
    } else {
        0
    };
    let ghost digits = v@.skip(start as int);
    assert(start == 0 ==> digits =~= s@);
    if v.len() == start {
        return None;
    }
    let mut total: usize = 0;
    let mut i: usize = start;
    assert(digits.take(0) =~= Seq::<char>::empty());
    while i < v.len()
        invariant
            start <= i <= v@.len(),
            digits == v@.skip(start as int),
            text::all_digits(digits.take(i - start)),
            total == text::number(digits.take(i - start)),
            v@ == s@,
            digits.len() > 0,
            start == (if s@.len() > 1 && s@[0] == '+' {
                1int
            } else {
                0int
            }),
            start == 0 ==> digits == s@,
        decreases v@.len() - i,
    {
        let c = v[i];
        let ghost done = digits.take(i - start);
        let ghost next = digits.take(i - start + 1);
        assert(next.drop_last() =~= done);
        assert(next.last() == c);
        assert(digits[i - start] == c);
        if c < '0' || c > '9' {
            assert(!text::is_digit(digits[i - start]));
            return None;
        }
        let d: usize = (c as u32 - '0' as u32) as usize;
        assert(text::number(next) == 10 * text::number(done) + d);
        if total > usize::MAX / 10 || total * 10 > usize::MAX - d {
            proof {
                if text::all_digits(digits) {
                    number_grows(digits, i - start + 1);
                }
            }
            return None;
        }
        total = total * 10 + d;
        assert forall|j: int| 0 <= j < next.len() implies text::is_digit(#[trigger] next[j]) by {
            if j < done.len() {
                assert(next[j] == done[j]);
            }
        }
        i = i + 1;
    }
    assert(digits.take(i - start) =~= digits);
    Some(total)
}

} // verus!
