//! Model deposits: whole semantic models exchanged as registered,
//! checksummed artifacts.
//!
//! A model item's manifest:
//!
//! ```json
//! {
//!   "version": "1.0.0",
//!   "express": {
//!     "source": "SCHEMA m '1.0'; END_SCHEMA;",
//!     "content_hash": "sha256:<64 hex>",
//!     "validation": {"status": "valid", "tool": "expressir", "detail": null}
//!   }
//! }
//! ```
//!
//! The content hash is the SHA-256 over the exact deposited bytes. The
//! source is validated by an outside tool; what its run amounts to is
//! decided by [`validation_outcome`].

use vstd::prelude::*;
use crate::crypto;
use crate::fields;
use crate::json;
use crate::json::{Json, Object, Tree};
use crate::text;

verus! {

/// The external validator binary.
pub const EXPRESSIR_BIN: &'static str = "expressir";

/// Validation state of a deposited model.
#[derive(Debug, Clone, Copy, PartialEq, Eq, Structural)]
pub enum ValidationStatus {
    /// The validator was not available.
    Pending,
    /// The validator accepted the source.
    Valid,
    /// The validator rejected the source.
    Invalid,
}

/// The name of a validation status.
pub open spec fn validation_name(s: ValidationStatus) -> Seq<char> {
    match s {
        ValidationStatus::Pending => "pending"@,
        ValidationStatus::Valid => "valid"@,
        ValidationStatus::Invalid => "invalid"@,
    }
}

/// The validation status that a text names, surrounding white space
/// dropped.
pub open spec fn parsed_validation_status(s: Seq<char>) -> Option<ValidationStatus> {
    let t = text::trimmed(s);
    if t == "pending"@ {
        Some(ValidationStatus::Pending)
    } else if t == "valid"@ {
        Some(ValidationStatus::Valid)
    } else if t == "invalid"@ {
        Some(ValidationStatus::Invalid)
    } else {
        None
    }
}

impl ValidationStatus {
    /// The name of the status.
    pub fn as_str(self) -> (r: &'static str)
        ensures
            r@ == validation_name(self),
    {
        match self {
            ValidationStatus::Pending => "pending",
            ValidationStatus::Valid => "valid",
            ValidationStatus::Invalid => "invalid",
        }
    }

    /// Parses the name of a status.
    pub fn parse(s: &str) -> (r: Option<ValidationStatus>)
        ensures
            r == parsed_validation_status(s@),
    {
        let t = text::trim(s);
        if text::same(t.as_str(), "pending") {
            Some(ValidationStatus::Pending)
        } else if text::same(t.as_str(), "valid") {
            Some(ValidationStatus::Valid)
        } else if text::same(t.as_str(), "invalid") {
            Some(ValidationStatus::Invalid)
        } else {
            None
        }
    }
}

/// Every validation status is read back from its name.
pub proof fn validation_status_round_trip(s: ValidationStatus)
    ensures
        parsed_validation_status(validation_name(s)) == Some(s),
{
    reveal_strlit("pending");
    reveal_strlit("valid");
    reveal_strlit("invalid");
    text::trimmed_tight(validation_name(s));
    assert("pending"@[0] == 'p' && "valid"@[0] == 'v' && "invalid"@[0] == 'i');
}

/// The validation record stored on a model item.
#[derive(Debug, PartialEq, Eq)]
pub struct ValidationRecord {
    pub status: ValidationStatus,
    pub tool: String,
    pub detail: Option<String>,
}

/// The content of a validation record.
pub struct ValidationView {
    pub status: ValidationStatus,
    pub tool: Seq<char>,
    pub detail: Option<Seq<char>>,
}

impl View for ValidationRecord {
    type V = ValidationView;

    open spec fn view(&self) -> ValidationView {
        ValidationView {
            status: self.status,
            tool: self.tool@,
            detail: text::opt_view(self.detail),
        }
    }
}

impl Clone for ValidationRecord {
    fn clone(&self) -> (r: ValidationRecord)
        ensures
            r@ == self@,
    {
        ValidationRecord {
            status: self.status,
            tool: self.tool.clone(),
            detail: fields::clone_text(&self.detail),
        }
    }
}

/// The wire form of a validation record.
pub open spec fn validation_tree(v: ValidationView) -> Tree {
    let m = Map::<Seq<char>, Tree>::empty().insert(
        "status"@,
        Tree::Str(validation_name(v.status)),
    ).insert("tool"@, Tree::Str(v.tool));
    Tree::Obj(json::put_opt(m, "detail"@, json::opt_str(v.detail)))
}

/// What the wire form of a validation record parses to.
pub open spec fn parsed_validation(t: Tree) -> Result<ValidationView, Seq<char>> {
    if json::obj_of(t) is None {
        Err("validation record must be an object"@)
    } else {
        let status = match json::get_str(t, "status"@) {
            Some(s) => parsed_validation_status(s),
            None => None,
        };
        match status {
            None => Err("invalid `validation.status`"@),
            Some(x) => Ok(
                ValidationView {
                    status: x,
                    tool: match json::get_str(t, "tool"@) {
                        Some(s) => s,
                        None => Seq::empty(),
                    },
                    detail: json::get_str(t, "detail"@),
                },
            ),
        }
    }
}

impl ValidationRecord {
    /// Wire form.
    pub fn to_json(&self) -> (r: Json)
        ensures
            r@ == validation_tree(self@),
    {
        let mut m = Object::new();
        m.put_str("status", self.status.as_str());
        m.put_str("tool", self.tool.as_str());
        m.put_opt_str("detail", &self.detail);
        Json::Obj(m)
    }

    /// Parses the wire form.
    pub fn from_json(v: &Json) -> (r: Result<ValidationRecord, String>)
        ensures
            match r {
                Ok(x) => parsed_validation(v@) == Ok::<ValidationView, Seq<char>>(x@),
                Err(e) => parsed_validation(v@) == Err::<ValidationView, Seq<char>>(e@),
            },
    {
        if v.as_object().is_none() {
            return Err("validation record must be an object".to_owned());
        }
        let status = match v.get_str("status") {
            Some(s) => match ValidationStatus::parse(s) {
                Some(x) => x,
                None => return Err("invalid `validation.status`".to_owned()),
            },
            None => return Err("invalid `validation.status`".to_owned()),
        };
        let tool = match v.get_str("tool") {
            Some(s) => s.to_owned(),
            None => String::new(),
        };
        let detail = match v.get_str("detail") {
            Some(s) => Some(s.to_owned()),
            None => None,
        };
        Ok(ValidationRecord { status, tool, detail })
    }
}

/// The members of a validation record have different names.
proof fn validation_keys_distinct()
    ensures
        "status"@ != "tool"@,
        "status"@ != "detail"@,
        "tool"@ != "detail"@,
{
    reveal_strlit("status");
    reveal_strlit("tool");
    reveal_strlit("detail");
    assert("status"@.len() != "tool"@.len());
    assert("status"@[0] != "detail"@[0]);
    assert("tool"@.len() != "detail"@.len());
}

/// The wire form of a validation record is read back as that record.
pub proof fn validation_wire_round_trip(v: ValidationView)
    ensures
        parsed_validation(validation_tree(v)) == Ok::<ValidationView, Seq<char>>(v),
{
    broadcast use json::group_members;
    validation_keys_distinct();
    let m = validation_tree(v)->Obj_0;
    assert(json::member(m, "status"@) == Some(Tree::Str(validation_name(v.status))));
    assert(json::member(m, "tool"@) == Some(Tree::Str(v.tool)));
    assert(json::member(m, "detail"@) == json::opt_str(v.detail));
    validation_status_round_trip(v.status);
}

/// The content hash of a source.
pub open spec fn hash_text(source: Seq<char>) -> Seq<char> {
    "sha256:"@ + crypto::hex_text(crypto::sha256_of(vstd::utf8::encode_utf8(source)))
}

/// Content hash of a deposit: `sha256:` and the lower-case hexadecimal
/// digest of the exact deposited bytes.
pub fn content_hash(source: &str) -> (r: String)
    ensures
        r@ == hash_text(source@),
{
    let digest = crypto::sha256(source.as_bytes());
    let hex = crypto::hex_lower(digest.as_slice());
    text::cat2("sha256:", hex.as_str())
}

/// The manifest of a model item.
pub open spec fn model_tree(version: Seq<char>, source: Seq<char>, v: ValidationView) -> Tree {
    Tree::Obj(
        Map::<Seq<char>, Tree>::empty().insert("version"@, Tree::Str(version)).insert(
            "express"@,
            Tree::Obj(
                Map::<Seq<char>, Tree>::empty().insert("source"@, Tree::Str(source)).insert(
                    "content_hash"@,
                    Tree::Str(hash_text(source)),
                ).insert("validation"@, validation_tree(v)),
            ),
        ),
    )
}

/// Builds a model item's manifest, version pin included.
pub fn model_manifest(version: &str, source: &str, validation: &ValidationRecord) -> (r: Json)
    ensures
        r@ == model_tree(version@, source@, validation@),
{
    let hash = content_hash(source);
    let mut x = Object::new();
    x.put_str("source", source);
    x.put_str("content_hash", hash.as_str());
    x.put("validation", validation.to_json());
    let mut m = Object::new();
    m.put_str("version", version);
    m.put("express", Json::Obj(x));
    Json::Obj(m)
}

/// The express section of a model item's manifest.
#[derive(Debug, PartialEq, Eq)]
pub struct ModelDeposit {
    pub source: String,
    pub content_hash: String,
    pub validation: ValidationRecord,
}

/// The content of a deposit.
pub struct DepositView {
    pub source: Seq<char>,
    pub content_hash: Seq<char>,
    pub validation: ValidationView,
}

impl View for ModelDeposit {
    type V = DepositView;

    open spec fn view(&self) -> DepositView {
        DepositView {
            source: self.source@,
            content_hash: self.content_hash@,
            validation: self.validation@,
        }
    }
}

/// What a model item's manifest parses to.
pub open spec fn parsed_deposit(t: Tree) -> Result<DepositView, Seq<char>> {
    match json::lookup(t, "express"@) {
        None => Err("model manifest missing `express`"@),
        Some(x) => {
            let source = json::get_str(x, "source"@);
            let hash = json::get_str(x, "content_hash"@);
            if source is None || source->Some_0.len() == 0 {
                Err("model manifest missing `express.source`"@)
            } else if hash is None {
                Err("model manifest missing `express.content_hash`"@)
            } else {
                match json::lookup(x, "validation"@) {
                    None => Err("model manifest missing `express.validation`"@),
                    Some(v) => match parsed_validation(v) {
                        Ok(validation) => Ok(
                            DepositView {
                                source: source->Some_0,
                                content_hash: hash->Some_0,
                                validation,
                            },
                        ),
                        Err(e) => Err(e),
                    },
                }
            }
        },
    }
}

/// Reads the express section of a model item's manifest.
pub fn deposit_from_manifest(manifest: &Json) -> (r: Result<ModelDeposit, String>)
    ensures
        match r {
            Ok(d) => parsed_deposit(manifest@) == Ok::<DepositView, Seq<char>>(d@),
            Err(e) => parsed_deposit(manifest@) == Err::<DepositView, Seq<char>>(e@),
        },
{
    let x = match manifest.get("express") {
        Some(x) => x,
        None => return Err("model manifest missing `express`".to_owned()),
    };
    let source = match x.get_str("source") {
        Some(s) => if s.is_empty() {
            return Err("model manifest missing `express.source`".to_owned());
        } else {
            s.to_owned()
        },
        None => return Err("model manifest missing `express.source`".to_owned()),
    };
    let content_hash = match x.get_str("content_hash") {
        Some(s) => s.to_owned(),
        None => return Err("model manifest missing `express.content_hash`".to_owned()),
    };
    let validation = match x.get("validation") {
        Some(v) => match ValidationRecord::from_json(v) {
            Ok(r) => r,
            Err(e) => return Err(e),
        },
        None => return Err("model manifest missing `express.validation`".to_owned()),
    };
    Ok(ModelDeposit { source, content_hash, validation })
}

/// The members of a deposit have different names.
proof fn deposit_keys_distinct()
    ensures
        "version"@ != "express"@,
        "version"@ != "source"@,
        "version"@ != "content_hash"@,
        "version"@ != "validation"@,
        "express"@ != "source"@,
        "express"@ != "content_hash"@,
        "express"@ != "validation"@,
        "source"@ != "content_hash"@,
        "source"@ != "validation"@,
        "content_hash"@ != "validation"@,
{
    reveal_strlit("version");
    reveal_strlit("express");
    reveal_strlit("source");
    reveal_strlit("content_hash");
    reveal_strlit("validation");
    assert("version"@[0] != "express"@[0]);
    assert("version"@.len() != "source"@.len());
    assert("version"@.len() != "content_hash"@.len());
    assert("version"@.len() != "validation"@.len());
    assert("express"@.len() != "source"@.len());
    assert("express"@.len() != "content_hash"@.len());
    assert("express"@.len() != "validation"@.len());
    assert("source"@.len() != "content_hash"@.len());
    assert("source"@.len() != "validation"@.len());
    assert("content_hash"@.len() != "validation"@.len());
}

/// What was deposited is read back from the manifest, under its own hash.
pub proof fn deposit_round_trip(version: Seq<char>, source: Seq<char>, v: ValidationView)
    requires
        source.len() > 0,
    ensures
        parsed_deposit(model_tree(version, source, v)) == Ok::<DepositView, Seq<char>>(
            DepositView { source, content_hash: hash_text(source), validation: v },
        ),
        json::get_str(model_tree(version, source, v), "version"@) == Some(version),
{
    broadcast use json::group_members;
    deposit_keys_distinct();
    validation_wire_round_trip(v);
    let m = model_tree(version, source, v)->Obj_0;
    let x = json::member(m, "express"@)->Some_0;
    assert(json::member(m, "express"@) is Some);
    let i = x->Obj_0;
    assert(json::member(i, "source"@) == Some(Tree::Str(source)));
    assert(json::member(i, "content_hash"@) == Some(Tree::Str(hash_text(source))));
    assert(json::member(i, "validation"@) == Some(validation_tree(v)));
}

/// How a run of the validator went.
#[derive(Debug, PartialEq, Eq)]
pub enum ValidatorRun {
    /// The source could not be staged for the validator, for this reason.
    NotStaged(String),
    /// The validator could not be started.
    Unavailable,
    /// The validator accepted the source.
    Accepted,
    /// The validator rejected the source, with these outputs.
    Rejected { stderr: String, stdout: String },
}

/// The content of a run.
pub enum RunView {
    NotStaged(Seq<char>),
    Unavailable,
    Accepted,
    Rejected { stderr: Seq<char>, stdout: Seq<char> },
}

impl View for ValidatorRun {
    type V = RunView;

    open spec fn view(&self) -> RunView {
        match *self {
            ValidatorRun::NotStaged(e) => RunView::NotStaged(e@),
            ValidatorRun::Unavailable => RunView::Unavailable,
            ValidatorRun::Accepted => RunView::Accepted,
            ValidatorRun::Rejected { stderr, stdout } => RunView::Rejected {
                stderr: stderr@,
                stdout: stdout@,
            },
        }
    }
}

/// The last line of `ls` that holds more than white space.
pub open spec fn last_line(ls: Seq<Seq<char>>) -> Option<Seq<char>>
    decreases ls.len(),
{
    if ls.len() == 0 {
        None
    } else if text::trimmed(ls.last()).len() > 0 {
        Some(ls.last())
    } else {
        last_line(ls.drop_last())
    }
}

/// Whether an output holds more than white space.
pub open spec fn says_something(s: Seq<char>) -> bool {
    last_line(text::lines_of(s)) is Some
}

/// The output of a rejection that says why: the error output, or the
/// standard output where the error output says nothing.
pub open spec fn telling(stderr: Seq<char>, stdout: Seq<char>) -> Seq<char> {
    if says_something(stderr) {
        stderr
    } else {
        stdout
    }
}

/// The end of the validator's output: its last line that holds anything,
/// cut at 300 characters. An ellipsis marks the cut.
pub open spec fn output_tail(s: Seq<char>) -> Seq<char> {
    let line = match last_line(text::lines_of(s)) {
        Some(l) => l,
        None => "expressir rejected the source"@,
    };
    if line.len() > 300 {
        line.take(300).push('…')
    } else {
        line
    }
}

/// Finds the last line that holds more than white space.
fn find_last(lines: &Vec<String>) -> (r: Option<&str>)
    ensures
        match r {
            Some(l) => last_line(text::views(lines@)) == Some(l@),
            None => last_line(text::views(lines@)) is None,
        },
{
    let ghost ls = text::views(lines@);
    let mut i: usize = lines.len();
    assert(ls.take(i as int) =~= ls);
    while i > 0
        invariant
            i <= lines@.len(),
            ls == text::views(lines@),
            last_line(ls) == last_line(ls.take(i as int)),
        decreases i,
    {
        assert(ls[i - 1] == lines@[i - 1]@);
        assert(ls.take(i as int).drop_last() =~= ls.take(i - 1));
        assert(ls.take(i as int).last() == ls[i - 1]);
        let t = text::trim(lines[i - 1].as_str());
        if !t.as_str().is_empty() {
            return Some(lines[i - 1].as_str());
        }
        i = i - 1;
    }
    None
}

/// The tail of the validator output.
fn last_meaningful_line(stderr: &str, stdout: &str) -> (r: String)
    ensures
        r@ == output_tail(telling(stderr@, stdout@)),
{
    let errors = text::lines(stderr);
    let lines = if find_last(&errors).is_some() {
        errors
    } else {
        text::lines(stdout)
    };
    assert(text::views(lines@) == text::lines_of(telling(stderr@, stdout@)));
    let line: &str = match find_last(&lines) {
        Some(l) => l,
        None => "expressir rejected the source",
    };
    let v = text::chars(line);
    if v.len() > 300 {
        let mut detail = text::text_of(&v, 0, 300);
        assert(detail@ =~= line@.take(300));
        detail.push('…');
        detail
    } else {
        line.to_owned()
    }
}

/// What a run of the validator amounts to.
pub open spec fn outcome(run: RunView) -> ValidationView {
    match run {
        RunView::NotStaged(e) => ValidationView {
            status: ValidationStatus::Pending,
            tool: "filesystem"@,
            detail: Some("could not stage the source for validation: "@ + e),
        },
        RunView::Unavailable => ValidationView {
            status: ValidationStatus::Pending,
            tool: EXPRESSIR_BIN@,
            detail: Some("`"@ + EXPRESSIR_BIN@ + "` is not available (gem install expressir)"@),
        },
        RunView::Accepted => ValidationView {
            status: ValidationStatus::Valid,
            tool: EXPRESSIR_BIN@,
            detail: None,
        },
        RunView::Rejected { stderr, stdout } => ValidationView {
            status: ValidationStatus::Invalid,
            tool: EXPRESSIR_BIN@,
            detail: Some(output_tail(telling(stderr, stdout))),
        },
    }
}

/// Decides what a run of the validator amounts to: accepted is valid,
/// rejected is invalid with the tail of the error output, or of the standard
/// output where the error output is blank, anything else leaves the
/// validation pending.
pub fn validation_outcome(run: &ValidatorRun) -> (r: ValidationRecord)
    ensures
        r@ == outcome(run@),
{
    match run {
        ValidatorRun::NotStaged(e) => ValidationRecord {
            status: ValidationStatus::Pending,
            tool: "filesystem".to_owned(),
            detail: Some(text::cat2("could not stage the source for validation: ", e.as_str())),
        },
        ValidatorRun::Unavailable => ValidationRecord {
            status: ValidationStatus::Pending,
            tool: EXPRESSIR_BIN.to_owned(),
            detail: Some(
                text::cat3("`", EXPRESSIR_BIN, "` is not available (gem install expressir)"),
            ),
        },
        ValidatorRun::Accepted => ValidationRecord {
            status: ValidationStatus::Valid,
            tool: EXPRESSIR_BIN.to_owned(),
            detail: None,
        },
        ValidatorRun::Rejected { stderr, stdout } => ValidationRecord {
            status: ValidationStatus::Invalid,
            tool: EXPRESSIR_BIN.to_owned(),
            detail: Some(last_meaningful_line(stderr.as_str(), stdout.as_str())),
        },
    }
}

/// Whether one of the lines is not blank.
pub open spec fn speaks(ls: Seq<Seq<char>>) -> bool {
    exists|i: int| 0 <= i < ls.len() && text::trimmed(#[trigger] ls[i]).len() > 0
}

/// A validator that has something to say on its error output is quoted from
/// there, and from its standard output otherwise; what is quoted is the last
/// line that is not blank, cut to 300 characters with an ellipsis after
/// them.
pub proof fn rejections_quote_the_last_line(
    stderr: Seq<char>,
    stdout: Seq<char>,
    ls: Seq<Seq<char>>,
    k: int,
)
    requires
        ls == (if speaks(text::lines_of(stderr)) {
            text::lines_of(stderr)
        } else {
            text::lines_of(stdout)
        }),
        0 <= k < ls.len(),
        text::trimmed(ls[k]).len() > 0,
        forall|i: int| k < i < ls.len() ==> text::trimmed(#[trigger] ls[i]).len() == 0,
    ensures
        outcome(RunView::Rejected { stderr, stdout }).detail == Some(
            if ls[k].len() > 300 {
                ls[k].take(300).push('…')
            } else {
                ls[k]
            },
        ),
{
    last_line_is_found(text::lines_of(stderr));
    last_line_at(ls, k);
}

/// A line is found exactly when one is not blank.
proof fn last_line_is_found(ls: Seq<Seq<char>>)
    ensures
        last_line(ls) is Some <==> speaks(ls),
    decreases ls.len(),
{
    if ls.len() > 0 {
        let n = ls.len() - 1;
        assert(ls[n] == ls.last());
        if text::trimmed(ls.last()).len() == 0 {
            let t = ls.drop_last();
            last_line_is_found(t);
            if last_line(t) is Some {
                let i = choose|i: int| 0 <= i < t.len() && text::trimmed(#[trigger] t[i]).len() > 0;
                assert(ls[i] == t[i]);
            } else {
                assert forall|i: int| 0 <= i < ls.len() implies text::trimmed(
                    #[trigger] ls[i],
                ).len() == 0 by {
                    if i < n {
                        assert(t[i] == ls[i]);
                    }
                }
            }
        }
    }
}

/// The last line that is not blank is the one found.
proof fn last_line_at(ls: Seq<Seq<char>>, k: int)
    requires
        0 <= k < ls.len(),
    ensures
        text::trimmed(ls[k]).len() > 0 && (forall|i: int|
            k < i < ls.len() ==> text::trimmed(#[trigger] ls[i]).len() == 0) ==> last_line(ls) == Some(
            ls[k],
        ),
    decreases ls.len(),
{
    let n = ls.len() - 1;
    assert(ls[n] == ls.last());
    if k < n {
        let t = ls.drop_last();
        last_line_at(t, k);
        assert(t[k] == ls[k]);
        if forall|i: int| k < i < ls.len() ==> text::trimmed(#[trigger] ls[i]).len() == 0 {
            assert(text::trimmed(ls[n]).len() == 0);
            assert forall|i: int| k < i < t.len() implies text::trimmed(#[trigger] t[i]).len() == 0 by {
                assert(ls[i] == t[i]);
            }
        }
    }
}

} // verus!
