//! Registry model: ISO 19135 items, item versions and applicability
//! bindings.
//!
//! - One item is the single definition of a data element, profile, crypto
//!   suite, transform, trust anchor, unit, model or cross-register mapping.
//! - Versions are immutable once registered; status and supersession links
//!   express the lifecycle.
//! - An open `effective_until` is derived from the successor's
//!   `effective_from`.
//! - Applicability is dated binding: a retroactive binding applies from its
//!   `effective_from` even when registered later; any other one cannot
//!   impose obligations for times before `registered_at`.

use vstd::prelude::*;
use crate::fields;
use crate::json;
use crate::json::{Json, Object, Tree};
use crate::order;
use crate::text;
use crate::time;
use crate::time::Timestamp;

verus! {

/// The item classes (subregisters) a register holds.
#[derive(Debug, Clone, Copy, PartialEq, Eq, Hash, Structural)]
pub enum ItemClass {
    DataElement,
    Profile,
    CryptoSuite,
    Transform,
    TrustAnchor,
    Unit,
    /// A deposited semantic model: source text, content hash and
    /// validation status.
    Model,
    /// A mapping between items of two registers, itself a registered item.
    CrossRegisterMapping,
}

/// The canonical (singular) name of a class.
pub open spec fn class_name(c: ItemClass) -> Seq<char> {
    match c {
        ItemClass::DataElement => "data-element"@,
        ItemClass::Profile => "profile"@,
        ItemClass::CryptoSuite => "crypto-suite"@,
        ItemClass::Transform => "transform"@,
        ItemClass::TrustAnchor => "trust-anchor"@,
        ItemClass::Unit => "unit"@,
        ItemClass::Model => "model"@,
        ItemClass::CrossRegisterMapping => "cross-register-mapping"@,
    }
}

/// The plural name of a class.
pub open spec fn class_plural(c: ItemClass) -> Seq<char> {
    match c {
        ItemClass::DataElement => "data-elements"@,
        ItemClass::Profile => "profiles"@,
        ItemClass::CryptoSuite => "crypto-suites"@,
        ItemClass::Transform => "transforms"@,
        ItemClass::TrustAnchor => "trust-anchors"@,
        ItemClass::Unit => "units"@,
        ItemClass::Model => "models"@,
        ItemClass::CrossRegisterMapping => "cross-register-mappings"@,
    }
}

/// Whether `s` names the class, in singular or plural.
pub open spec fn names_class(s: Seq<char>, c: ItemClass) -> bool {
    s == class_name(c) || s == class_plural(c)
}

/// The class that a text names: surrounding white space is dropped and
/// underscores are read as hyphens.
pub open spec fn parsed_class(s: Seq<char>) -> Option<ItemClass> {
    let t = text::swapped(text::trimmed(s), '_', '-');
    if names_class(t, ItemClass::DataElement) {
        Some(ItemClass::DataElement)
    } else if names_class(t, ItemClass::Profile) {
        Some(ItemClass::Profile)
    } else if names_class(t, ItemClass::CryptoSuite) {
        Some(ItemClass::CryptoSuite)
    } else if names_class(t, ItemClass::Transform) {
        Some(ItemClass::Transform)
    } else if names_class(t, ItemClass::TrustAnchor) {
        Some(ItemClass::TrustAnchor)
    } else if names_class(t, ItemClass::Unit) {
        Some(ItemClass::Unit)
    } else if names_class(t, ItemClass::Model) {
        Some(ItemClass::Model)
    } else if names_class(t, ItemClass::CrossRegisterMapping) {
        Some(ItemClass::CrossRegisterMapping)
    } else {
        None
    }
}

/// The names of all classes.
pub const CLASS_NAMES: [&'static str; 8] = [
    "data-element",
    "profile",
    "crypto-suite",
    "transform",
    "trust-anchor",
    "unit",
    "model",
    "cross-register-mapping",
];

/// The canonical class names, separated by commas.
pub open spec fn class_help() -> Seq<char> {
    text::joined(text::list_views(CLASS_NAMES@), ", "@)
}

impl ItemClass {
    /// Every class.
    pub const ALL: [ItemClass; 8] = [
        ItemClass::DataElement,
        ItemClass::Profile,
        ItemClass::CryptoSuite,
        ItemClass::Transform,
        ItemClass::TrustAnchor,
        ItemClass::Unit,
        ItemClass::Model,
        ItemClass::CrossRegisterMapping,
    ];

    /// Canonical (singular) class name, as stored on the item.
    pub fn as_str(self) -> (r: &'static str)
        ensures
            r@ == class_name(self),
    {
        match self {
            ItemClass::DataElement => "data-element",
            ItemClass::Profile => "profile",
            ItemClass::CryptoSuite => "crypto-suite",
            ItemClass::Transform => "transform",
            ItemClass::TrustAnchor => "trust-anchor",
            ItemClass::Unit => "unit",
            ItemClass::Model => "model",
            ItemClass::CrossRegisterMapping => "cross-register-mapping",
        }
    }

    /// Plural class name: the subregister path segment.
    pub fn plural(self) -> (r: &'static str)
        ensures
            r@ == class_plural(self),
    {
        match self {
            ItemClass::DataElement => "data-elements",
            ItemClass::Profile => "profiles",
            ItemClass::CryptoSuite => "crypto-suites",
            ItemClass::Transform => "transforms",
            ItemClass::TrustAnchor => "trust-anchors",
            ItemClass::Unit => "units",
            ItemClass::Model => "models",
            ItemClass::CrossRegisterMapping => "cross-register-mappings",
        }
    }

    /// Parses a class name in singular or plural form. Underscore spellings
    /// read as the canonical hyphen form.
    pub fn parse(input: &str) -> (r: Option<ItemClass>)
        ensures
            r == parsed_class(input@),
    {
        let trimmed = text::trim(input);
        let t = text::swap(trimmed.as_str(), '_', '-');
        let mut i: usize = 0;
        while i < 8
            invariant
                i <= 8,
                t@ == text::swapped(text::trimmed(input@), '_', '-'),
                forall|j: int| 0 <= j < i ==> !names_class(t@, #[trigger] ItemClass::ALL@[j]),
            decreases 8 - i,
        {
            let c = ItemClass::ALL[i];
            if text::same(c.as_str(), t.as_str()) || text::same(c.plural(), t.as_str()) {
                return Some(c);
            }
            i = i + 1;
        }
        None
    }

    /// Comma-separated canonical class list, for error messages.
    pub fn help() -> (r: String)
        ensures
            r@ == class_help(),
    {
        text::join_list(&CLASS_NAMES, ", ")
    }
}

/// ISO 19135 item lifecycle status.
#[derive(Debug, Clone, Copy, PartialEq, Eq, Structural)]
pub enum Status {
    Valid,
    Superseded,
    Retired,
}

/// The name of a status.
pub open spec fn status_name(s: Status) -> Seq<char> {
    match s {
        Status::Valid => "valid"@,
        Status::Superseded => "superseded"@,
        Status::Retired => "retired"@,
    }
}

/// The status that a text names, surrounding white space dropped.
pub open spec fn parsed_status(s: Seq<char>) -> Option<Status> {
    let t = text::trimmed(s);
    if t == "valid"@ {
        Some(Status::Valid)
    } else if t == "superseded"@ {
        Some(Status::Superseded)
    } else if t == "retired"@ {
        Some(Status::Retired)
    } else {
        None
    }
}

impl Status {
    /// Every status.
    pub const VALUES: [Status; 3] = [Status::Valid, Status::Superseded, Status::Retired];

    /// The name of the status.
    pub fn as_str(self) -> (r: &'static str)
        ensures
            r@ == status_name(self),
    {
        match self {
            Status::Valid => "valid",
            Status::Superseded => "superseded",
            Status::Retired => "retired",
        }
    }

    /// Parses the name of a status.
    pub fn parse(input: &str) -> (r: Option<Status>)
        ensures
            r == parsed_status(input@),
    {
        let t = text::trim(input);
        if text::same(t.as_str(), "valid") {
            Some(Status::Valid)
        } else if text::same(t.as_str(), "superseded") {
            Some(Status::Superseded)
        } else if text::same(t.as_str(), "retired") {
            Some(Status::Retired)
        } else {
            None
        }
    }
}

/// Every class is read back from its own names.
pub proof fn class_round_trip(c: ItemClass)
    ensures
        parsed_class(class_name(c)) == Some(c),
        parsed_class(class_plural(c)) == Some(c),
{
    reveal_strlit("data-element");
    reveal_strlit("data-elements");
    reveal_strlit("profile");
    reveal_strlit("profiles");
    reveal_strlit("crypto-suite");
    reveal_strlit("crypto-suites");
    reveal_strlit("transform");
    reveal_strlit("transforms");
    reveal_strlit("trust-anchor");
    reveal_strlit("trust-anchors");
    reveal_strlit("unit");
    reveal_strlit("units");
    reveal_strlit("model");
    reveal_strlit("models");
    reveal_strlit("cross-register-mapping");
    reveal_strlit("cross-register-mappings");
    text::trimmed_tight(class_name(c));
    text::trimmed_tight(class_plural(c));
    assert(text::swapped(class_name(c), '_', '-') =~= class_name(c));
    assert(text::swapped(class_plural(c), '_', '-') =~= class_plural(c));
    let (a, b) = (class_name(c), class_plural(c));
    assert("data-element"@[0] == 'd' && "profile"@[0] == 'p' && "crypto-suite"@[1] == 'r' && "transform"@[
    3] == 'n' && "trust-anchor"@[3] == 's' && "unit"@[0] == 'u' && "model"@[0] == 'm'
        && "cross-register-mapping"@[2] == 'o' && "crypto-suite"@[2] == 'y');
    assert("data-elements"@[0] == 'd' && "profiles"@[0] == 'p' && "crypto-suites"@[1] == 'r'
        && "transforms"@[3] == 'n' && "trust-anchors"@[3] == 's' && "units"@[0] == 'u' && "models"@[0]
        == 'm' && "cross-register-mappings"@[2] == 'o' && "crypto-suites"@[2] == 'y');
    assert("transform"@[0] == 't' && "trust-anchor"@[0] == 't' && "transforms"@[0] == 't'
        && "trust-anchors"@[0] == 't' && "crypto-suite"@[0] == 'c' && "crypto-suites"@[0] == 'c'
        && "cross-register-mapping"@[0] == 'c' && "cross-register-mappings"@[0] == 'c');
}

/// Every status is read back from its name.
pub proof fn status_round_trip(s: Status)
    ensures
        parsed_status(status_name(s)) == Some(s),
{
    reveal_strlit("valid");
    reveal_strlit("superseded");
    reveal_strlit("retired");
    text::trimmed_tight(status_name(s));
    assert("valid"@[0] == 'v' && "superseded"@[0] == 's' && "retired"@[0] == 'r');
}

/// One version of a registry item with its lifecycle status.
#[derive(Debug, PartialEq, Eq)]
pub struct ItemVersion {
    pub version: String,
    pub status: Status,
    /// Effective window of this version. An open `effective_until` is
    /// derived from the successor's `effective_from`.
    pub effective_from: Option<Timestamp>,
    pub effective_until: Option<Timestamp>,
    pub registered_at: Option<Timestamp>,
    pub superseded_by_version: Option<String>,
    pub notes: Option<String>,
}

/// The content of an item version.
pub struct VersionView {
    pub version: Seq<char>,
    pub status: Status,
    pub effective_from: Option<Timestamp>,
    pub effective_until: Option<Timestamp>,
    pub registered_at: Option<Timestamp>,
    pub superseded_by_version: Option<Seq<char>>,
    pub notes: Option<Seq<char>>,
}

impl View for ItemVersion {
    type V = VersionView;

    open spec fn view(&self) -> VersionView {
        VersionView {
            version: self.version@,
            status: self.status,
            effective_from: self.effective_from,
            effective_until: self.effective_until,
            registered_at: self.registered_at,
            superseded_by_version: text::opt_view(self.superseded_by_version),
            notes: text::opt_view(self.notes),
        }
    }
}

impl Clone for ItemVersion {
    fn clone(&self) -> (r: ItemVersion)
        ensures
            r@ == self@,
    {
        ItemVersion {
            version: self.version.clone(),
            status: self.status,
            effective_from: self.effective_from,
            effective_until: self.effective_until,
            registered_at: self.registered_at,
            superseded_by_version: fields::clone_text(&self.superseded_by_version),
            notes: fields::clone_text(&self.notes),
        }
    }
}

/// Whether `t` lies in the half-open window `[from, until)`.
pub open spec fn in_window(from: Option<Timestamp>, until: Option<Timestamp>, t: Timestamp) -> bool {
    &&& from matches Some(f) ==> f.secs <= t.secs
    &&& until matches Some(u) ==> t.secs < u.secs
}

/// The wire form of a version, with its resolved window end.
pub open spec fn version_tree(v: VersionView, window_end: Option<Timestamp>) -> Tree {
    let m = Map::<Seq<char>, Tree>::empty().insert("version"@, Tree::Str(v.version)).insert(
        "status"@,
        Tree::Str(status_name(v.status)),
    );
    let m = json::put_opt(m, "effective_from"@, fields::stamp_tree(v.effective_from));
    let m = json::put_opt(m, "effective_until"@, fields::stamp_tree(v.effective_until));
    let m = json::put_opt(m, "registered_at"@, fields::stamp_tree(v.registered_at));
    let m = json::put_opt(m, "superseded_by_version"@, json::opt_str(v.superseded_by_version));
    let m = json::put_opt(m, "notes"@, json::opt_str(v.notes));
    Tree::Obj(json::put_opt(m, "window_end"@, fields::stamp_tree(window_end)))
}

/// What the wire form of a version parses to.
pub open spec fn parsed_version(t: Tree) -> Result<VersionView, Seq<char>> {
    match json::obj_of(t) {
        None => Err("item version must be an object"@),
        Some(m) => {
            let version = fields::text_opt(m, "version"@);
            let status = json::get_str(t, "status"@);
            let from = fields::stamp_opt(m, "effective_from"@);
            let until = fields::stamp_opt(m, "effective_until"@);
            let registered = fields::stamp_opt(m, "registered_at"@);
            let by = fields::text_opt(m, "superseded_by_version"@);
            let notes = fields::text_opt(m, "notes"@);
            if version is Err {
                Err(version->Err_0)
            } else if version->Ok_0 is None {
                Err("missing `version`"@)
            } else if status is None {
                Err("missing/invalid `status`"@)
            } else if parsed_status(status->Some_0) is None {
                Err("invalid `status`"@)
            } else if from is Err {
                Err(from->Err_0)
            } else if until is Err {
                Err(until->Err_0)
            } else if registered is Err {
                Err(registered->Err_0)
            } else if by is Err {
                Err(by->Err_0)
            } else if notes is Err {
                Err(notes->Err_0)
            } else {
                Ok(
                    VersionView {
                        version: version->Ok_0->Some_0,
                        status: parsed_status(status->Some_0)->Some_0,
                        effective_from: from->Ok_0,
                        effective_until: until->Ok_0,
                        registered_at: registered->Ok_0,
                        superseded_by_version: by->Ok_0,
                        notes: notes->Ok_0,
                    },
                )
            }
        },
    }
}

impl ItemVersion {
    /// Was this version in force at `t`, given the resolved window end?
    pub fn in_force_at(&self, t: Timestamp, until: Option<Timestamp>) -> (r: bool)
        ensures
            r == in_window(self.effective_from, until, t),
    {
        if let Some(from) = self.effective_from {
            if t.secs < from.secs {
                return false;
            }
        }
        if let Some(u) = until {
            if t.secs >= u.secs {
                return false;
            }
        }
        true
    }

    /// Wire form. `window_end` is derived at render time and ignored by
    /// [`ItemVersion::from_json`].
    pub fn to_json(&self, window_end: Option<Timestamp>) -> (r: Json)
        ensures
            r@ == version_tree(self@, window_end),
    {
        let mut m = Object::new();
        m.put_str("version", self.version.as_str());
        m.put_str("status", self.status.as_str());
        fields::put_stamp(&mut m, "effective_from", self.effective_from);
        fields::put_stamp(&mut m, "effective_until", self.effective_until);
        fields::put_stamp(&mut m, "registered_at", self.registered_at);
        m.put_opt_str("superseded_by_version", &self.superseded_by_version);
        m.put_opt_str("notes", &self.notes);
        fields::put_stamp(&mut m, "window_end", window_end);
        Json::Obj(m)
    }

    /// Parses the wire form.
    pub fn from_json(v: &Json) -> (r: Result<ItemVersion, String>)
        ensures
            match r {
                Ok(x) => parsed_version(v@) == Ok::<VersionView, Seq<char>>(x@),
                Err(e) => parsed_version(v@) == Err::<VersionView, Seq<char>>(e@),
            },
    {
        let o = match v.as_object() {
            Some(o) => o,
            None => return Err("item version must be an object".to_owned()),
        };
        let version = match fields::read_text_opt(o, "version") {
            Ok(Some(s)) => s,
            Ok(None) => return Err("missing `version`".to_owned()),
            Err(e) => return Err(e),
        };
        let status = match o.get_str("status") {
            Some(s) => match Status::parse(s) {
                Some(x) => x,
                None => return Err("invalid `status`".to_owned()),
            },
            None => return Err("missing/invalid `status`".to_owned()),
        };
        let effective_from = match fields::read_stamp_opt(o, "effective_from") {
            Ok(t) => t,
            Err(e) => return Err(e),
        };
        let effective_until = match fields::read_stamp_opt(o, "effective_until") {
            Ok(t) => t,
            Err(e) => return Err(e),
        };
        let registered_at = match fields::read_stamp_opt(o, "registered_at") {
            Ok(t) => t,
            Err(e) => return Err(e),
        };
        let superseded_by_version = match fields::read_text_opt(o, "superseded_by_version") {
            Ok(s) => s,
            Err(e) => return Err(e),
        };
        let notes = match fields::read_text_opt(o, "notes") {
            Ok(s) => s,
            Err(e) => return Err(e),
        };
        Ok(
            ItemVersion {
                version,
                status,
                effective_from,
                effective_until,
                registered_at,
                superseded_by_version,
                notes,
            },
        )
    }
}

/// Applicability binding: a dated binding of a profile to a subject.
#[derive(Debug, PartialEq, Eq)]
pub struct ApplicabilityBinding {
    /// Sequential binding id, assigned by the store.
    pub id: u64,
    /// Canonical product or type identity.
    pub subject: String,
    /// Registry item identifier of the profile.
    pub profile_item: String,
    /// Register holding the profile.
    pub register: Option<String>,
    /// Optional pin to one version of the profile item.
    pub profile_version: Option<String>,
    pub effective_from: Option<Timestamp>,
    pub effective_until: Option<Timestamp>,
    pub registered_at: Option<Timestamp>,
    pub retroactive: bool,
}

/// The content of a binding.
pub struct BindingView {
    pub id: u64,
    pub subject: Seq<char>,
    pub profile_item: Seq<char>,
    pub register: Option<Seq<char>>,
    pub profile_version: Option<Seq<char>>,
    pub effective_from: Option<Timestamp>,
    pub effective_until: Option<Timestamp>,
    pub registered_at: Option<Timestamp>,
    pub retroactive: bool,
}

impl View for ApplicabilityBinding {
    type V = BindingView;

    open spec fn view(&self) -> BindingView {
        BindingView {
            id: self.id,
            subject: self.subject@,
            profile_item: self.profile_item@,
            register: text::opt_view(self.register),
            profile_version: text::opt_view(self.profile_version),
            effective_from: self.effective_from,
            effective_until: self.effective_until,
            registered_at: self.registered_at,
            retroactive: self.retroactive,
        }
    }
}

impl Clone for ApplicabilityBinding {
    fn clone(&self) -> (r: ApplicabilityBinding)
        ensures
            r@ == self@,
    {
        ApplicabilityBinding {
            id: self.id,
            subject: self.subject.clone(),
            profile_item: self.profile_item.clone(),
            register: fields::clone_text(&self.register),
            profile_version: fields::clone_text(&self.profile_version),
            effective_from: self.effective_from,
            effective_until: self.effective_until,
            registered_at: self.registered_at,
            retroactive: self.retroactive,
        }
    }
}

/// Whether a binding applies at `t`: within its window, and, unless it is
/// retroactive, not before it was registered.
pub open spec fn binding_applies(b: BindingView, t: Timestamp) -> bool {
    &&& in_window(b.effective_from, b.effective_until, t)
    &&& !b.retroactive ==> (b.registered_at matches Some(r) ==> r.secs <= t.secs)
}

/// The wire form of a binding.
pub open spec fn binding_tree(b: BindingView) -> Tree {
    let m = Map::<Seq<char>, Tree>::empty().insert("id"@, Tree::Int(b.id as int)).insert(
        "subject"@,
        Tree::Str(b.subject),
    ).insert("profile_item"@, Tree::Str(b.profile_item));
    let m = json::put_opt(m, "register"@, json::opt_str(b.register));
    let m = json::put_opt(m, "profile_version"@, json::opt_str(b.profile_version));
    let m = json::put_opt(m, "effective_from"@, fields::stamp_tree(b.effective_from));
    let m = json::put_opt(m, "effective_until"@, fields::stamp_tree(b.effective_until));
    let m = json::put_opt(m, "registered_at"@, fields::stamp_tree(b.registered_at));
    Tree::Obj(m.insert("retroactive"@, Tree::Bool(b.retroactive)))
}

/// What the wire form of a binding parses to.
pub open spec fn parsed_binding(t: Tree) -> Result<BindingView, Seq<char>> {
    match json::obj_of(t) {
        None => Err("binding must be an object"@),
        Some(m) => {
            let id = match json::member(m, "id"@) {
                Some(x) => json::u64_of(x),
                None => None,
            };
            let subject = fields::text_req(m, "subject"@);
            let profile = fields::text_req(m, "profile_item"@);
            let register = fields::text_opt(m, "register"@);
            let version = fields::text_opt(m, "profile_version"@);
            let from = fields::stamp_opt(m, "effective_from"@);
            let until = fields::stamp_opt(m, "effective_until"@);
            let registered = fields::stamp_opt(m, "registered_at"@);
            let retroactive = match json::member(m, "retroactive"@) {
                Some(x) => json::bool_of(x),
                None => None,
            };
            if subject is Err {
                Err(subject->Err_0)
            } else if profile is Err {
                Err(profile->Err_0)
            } else if register is Err {
                Err(register->Err_0)
            } else if version is Err {
                Err(version->Err_0)
            } else if from is Err {
                Err(from->Err_0)
            } else if until is Err {
                Err(until->Err_0)
            } else if registered is Err {
                Err(registered->Err_0)
            } else {
                Ok(
                    BindingView {
                        id: match id {
                            Some(n) => n,
                            None => 0,
                        },
                        subject: subject->Ok_0,
                        profile_item: profile->Ok_0,
                        register: register->Ok_0,
                        profile_version: version->Ok_0,
                        effective_from: from->Ok_0,
                        effective_until: until->Ok_0,
                        registered_at: registered->Ok_0,
                        retroactive: retroactive == Some(true),
                    },
                )
            }
        },
    }
}

impl ApplicabilityBinding {
    /// Legal as-of semantics: retroactive bindings apply from their
    /// `effective_from` even when registered later; the others only from
    /// `registered_at`.
    pub fn applies_at(&self, t: Timestamp) -> (r: bool)
        ensures
            r == binding_applies(self@, t),
    {
        if let Some(from) = self.effective_from {
            if t.secs < from.secs {
                return false;
            }
        }
        if let Some(until) = self.effective_until {
            if t.secs >= until.secs {
                return false;
            }
        }
        if !self.retroactive {
            if let Some(r) = self.registered_at {
                if t.secs < r.secs {
                    return false;
                }
            }
        }
        true
    }

    /// Wire form.
    pub fn to_json(&self) -> (r: Json)
        ensures
            r@ == binding_tree(self@),
    {
        let mut m = Object::new();
        m.put_uint("id", self.id);
        m.put_str("subject", self.subject.as_str());
        m.put_str("profile_item", self.profile_item.as_str());
        m.put_opt_str("register", &self.register);
        m.put_opt_str("profile_version", &self.profile_version);
        fields::put_stamp(&mut m, "effective_from", self.effective_from);
        fields::put_stamp(&mut m, "effective_until", self.effective_until);
        fields::put_stamp(&mut m, "registered_at", self.registered_at);
        m.put_bool("retroactive", self.retroactive);
        Json::Obj(m)
    }

    /// Parses the wire form.
    pub fn from_json(v: &Json) -> (r: Result<ApplicabilityBinding, String>)
        ensures
            match r {
                Ok(x) => parsed_binding(v@) == Ok::<BindingView, Seq<char>>(x@),
                Err(e) => parsed_binding(v@) == Err::<BindingView, Seq<char>>(e@),
            },
    {
        let o = match v.as_object() {
            Some(o) => o,
            None => return Err("binding must be an object".to_owned()),
        };
        let id: u64 = match o.get("id") {
            Some(x) => match x.as_u64() {
                Some(n) => n,
                None => 0,
            },
            None => 0,
        };
        let subject = match fields::read_text_req(o, "subject") {
            Ok(s) => s,
            Err(e) => return Err(e),
        };
        let profile_item = match fields::read_text_req(o, "profile_item") {
            Ok(s) => s,
            Err(e) => return Err(e),
        };
        let register = match fields::read_text_opt(o, "register") {
            Ok(s) => s,
            Err(e) => return Err(e),
        };
        let profile_version = match fields::read_text_opt(o, "profile_version") {
            Ok(s) => s,
            Err(e) => return Err(e),
        };
        let effective_from = match fields::read_stamp_opt(o, "effective_from") {
            Ok(t) => t,
            Err(e) => return Err(e),
        };
        let effective_until = match fields::read_stamp_opt(o, "effective_until") {
            Ok(t) => t,
            Err(e) => return Err(e),
        };
        let registered_at = match fields::read_stamp_opt(o, "registered_at") {
            Ok(t) => t,
            Err(e) => return Err(e),
        };
        let retroactive: bool = match o.get("retroactive") {
            Some(x) => match x.as_bool() {
                Some(b) => b,
                None => false,
            },
            None => false,
        };
        Ok(
            ApplicabilityBinding {
                id,
                subject,
                profile_item,
                register,
                profile_version,
                effective_from,
                effective_until,
                registered_at,
                retroactive,
            },
        )
    }
}

/// A registry item: one definition, with its versions. A manifest is a
/// JSON object pinned by its `version` member to one of the versions.
#[derive(Debug, PartialEq, Eq)]
pub struct Item {
    pub identifier: String,
    pub register: String,
    pub item_class: ItemClass,
    pub title: String,
    /// ISO 19135 submitting organization.
    pub submitting_organization: Option<String>,
    pub versions: Vec<ItemVersion>,
    pub manifest: Option<Json>,
}

/// The content of an item.
#[verifier::ext_equal]
pub struct ItemView {
    pub identifier: Seq<char>,
    pub register: Seq<char>,
    pub item_class: ItemClass,
    pub title: Seq<char>,
    pub submitting_organization: Option<Seq<char>>,
    pub versions: Seq<VersionView>,
    pub manifest: Option<Tree>,
}

/// The contents of a sequence of versions.
pub open spec fn version_views(s: Seq<ItemVersion>) -> Seq<VersionView> {
    s.map_values(|v: ItemVersion| v@)
}

/// The contents of a selection of versions.
pub open spec fn ref_views(s: Seq<&ItemVersion>) -> Seq<VersionView> {
    s.map_values(|v: &ItemVersion| v@)
}

impl View for Item {
    type V = ItemView;

    open spec fn view(&self) -> ItemView {
        ItemView {
            identifier: self.identifier@,
            register: self.register@,
            item_class: self.item_class,
            title: self.title@,
            submitting_organization: text::opt_view(self.submitting_organization),
            versions: version_views(self.versions@),
            manifest: fields::opt_tree(self.manifest),
        }
    }
}

/// A copy of a list of versions.
pub fn clone_versions(v: &Vec<ItemVersion>) -> (r: Vec<ItemVersion>)
    ensures
        version_views(r@) == version_views(v@),
{
    let mut out: Vec<ItemVersion> = Vec::new();
    let mut i: usize = 0;
    while i < v.len()
        invariant
            i <= v@.len(),
            out@.len() == i,
            forall|j: int| 0 <= j < i ==> (#[trigger] out@[j])@ == v@[j]@,
        decreases v@.len() - i,
    {
        out.push(v[i].clone());
        i = i + 1;
    }
    assert(version_views(out@) =~= version_views(v@));
    out
}

impl Clone for Item {
    fn clone(&self) -> (r: Item)
        ensures
            r@ == self@,
    {
        Item {
            identifier: self.identifier.clone(),
            register: self.register.clone(),
            item_class: self.item_class,
            title: self.title.clone(),
            submitting_organization: fields::clone_text(&self.submitting_organization),
            versions: clone_versions(&self.versions),
            manifest: fields::clone_opt(&self.manifest),
        }
    }
}

/// The numbers of a sequence of versions.
pub open spec fn version_names(vs: Seq<VersionView>) -> Seq<Seq<char>> {
    vs.map_values(|v: VersionView| v.version)
}

/// The position of the version `n`, or the number of versions.
pub open spec fn version_index(vs: Seq<VersionView>, n: Seq<char>) -> int {
    order::index_of(version_names(vs), n)
}

/// The version `n`.
pub open spec fn find_version(vs: Seq<VersionView>, n: Seq<char>) -> Option<VersionView> {
    if version_index(vs, n) < vs.len() {
        Some(vs[version_index(vs, n)])
    } else {
        None
    }
}

/// A version's sort key: the start of its window, then its number. A version
/// without a start sorts before every other.
pub open spec fn version_key(v: VersionView) -> order::Key {
    (
        match v.effective_from {
            Some(t) => t.secs as int,
            None => i64::MIN - 1,
        },
        v.version,
    )
}

/// The sort keys of a sequence of versions.
pub open spec fn version_keys(vs: Seq<VersionView>) -> Seq<order::Key> {
    vs.map_values(|v: VersionView| version_key(v))
}

/// The versions by the start of their window, then by number.
pub open spec fn ordered(vs: Seq<VersionView>) -> Seq<VersionView> {
    let a = order::arrangement(version_keys(vs));
    Seq::new(a.len(), |i: int| vs[a[i]])
}

/// The last version of `s` with the given status property.
pub open spec fn last_where(s: Seq<VersionView>, p: spec_fn(VersionView) -> bool) -> Option<VersionView>
    decreases s.len(),
{
    if s.len() == 0 {
        None
    } else if p(s.last()) {
        Some(s.last())
    } else {
        last_where(s.drop_last(), p)
    }
}

/// The current version: the latest with status `valid`, else the latest
/// not retired.
pub open spec fn current(vs: Seq<VersionView>) -> Option<VersionView> {
    match last_where(ordered(vs), |v: VersionView| v.status == Status::Valid) {
        Some(v) => Some(v),
        None => last_where(ordered(vs), |v: VersionView| v.status != Status::Retired),
    }
}

/// The end of a version's window: its own, else the start of its
/// successor's, else open.
pub open spec fn window_end(vs: Seq<VersionView>, v: VersionView) -> Option<Timestamp> {
    match v.effective_until {
        Some(t) => Some(t),
        None => match v.superseded_by_version {
            Some(n) => match find_version(vs, n) {
                Some(s) => s.effective_from,
                None => None,
            },
            None => None,
        },
    }
}

/// Whether a version's resolved window holds `t`.
pub open spec fn version_in_force(vs: Seq<VersionView>, v: VersionView, t: Timestamp) -> bool {
    in_window(v.effective_from, window_end(vs, v), t)
}

/// The version in force at `t`: the latest whose window holds `t`.
pub open spec fn in_force(vs: Seq<VersionView>, t: Timestamp) -> Option<VersionView> {
    last_where(ordered(vs), |v: VersionView| version_in_force(vs, v, t))
}

impl Item {
    /// The version with the given number.
    pub fn version(&self, number: &str) -> (r: Option<&ItemVersion>)
        ensures
            match r {
                Some(v) => find_version(self@.versions, number@) == Some(v@),
                None => find_version(self@.versions, number@) is None,
            },
    {
        let ghost names = version_names(self@.versions);
        let mut i: usize = 0;
        while i < self.versions.len()
            invariant
                i <= self.versions@.len(),
                names == version_names(self@.versions),
                forall|j: int| 0 <= j < i ==> #[trigger] names[j] != number@,
            decreases self.versions@.len() - i,
        {
            assert(names[i as int] == self.versions@[i as int].version@);
            if text::same(self.versions[i].version.as_str(), number) {
                proof {
                    order::index_of_is(names, number@, i as int);
                }
                return Some(&self.versions[i]);
            }
            i = i + 1;
        }
        proof {
            order::index_of_is(names, number@, i as int);
        }
        None
    }

    /// The version with the given number, for lifecycle transitions.
    pub fn version_mut(&mut self, number: &str) -> (r: Option<&mut ItemVersion>)
        ensures
            match r {
                Some(v) => find_version(old(self)@.versions, number@) == Some(v@) && final(self)@ == (
                ItemView {
                    versions: old(self)@.versions.update(
                        version_index(old(self)@.versions, number@),
                        final(v)@,
                    ),
                    ..old(self)@
                }),
                None => find_version(old(self)@.versions, number@) is None && final(self)@ == old(self)@,
            },
    {
        let ghost before = self@.versions;
        let ghost names = version_names(before);
        let n = self.versions.len();
        let mut i: usize = 0;
        while i < n
            invariant
                n == self.versions@.len(),
                *self == *old(self),
                i <= n,
                before == self@.versions,
                names == version_names(before),
                forall|j: int| 0 <= j < i ==> #[trigger] names[j] != number@,
            decreases n - i,
        {
            assert(names[i as int] == self.versions@[i as int].version@);
            if text::same(self.versions[i].version.as_str(), number) {
                proof {
                    order::index_of_is(names, number@, i as int);
                }
                let v = &mut self.versions[i];
                proof {
                    assert(version_views(old(self).versions@.update(i as int, *final(v))) =~= before.update(
                        i as int,
                        final(v)@,
                    ));
                }
                return Some(v);
            }
            i = i + 1;
        }
        proof {
            order::index_of_is(names, number@, i as int);
        }
        None
    }

    /// Versions by `effective_from`, then by number.
    pub fn ordered_versions(&self) -> (r: Vec<&ItemVersion>)
        ensures
            ref_views(r@) == ordered(self@.versions),
    {
        let ghost vs = self@.versions;
        let mut keys: Vec<(i128, String)> = Vec::new();
        let mut i: usize = 0;
        while i < self.versions.len()
            invariant
                i <= self.versions@.len(),
                vs == self@.versions,
                keys@.len() == i,
                forall|j: int|
                    0 <= j < i ==> (((#[trigger] keys@[j]).0 as int, keys@[j].1@) == version_key(vs[j])),
            decreases self.versions@.len() - i,
        {
            let from: i128 = match self.versions[i].effective_from {
                Some(t) => t.secs as i128,
                None => i64::MIN as i128 - 1,
            };
            keys.push((from, self.versions[i].version.clone()));
            i = i + 1;
        }
        assert(order::key_views(keys@) =~= version_keys(vs));
        let a = order::arrange(&keys);
        let mut out: Vec<&ItemVersion> = Vec::new();
        let mut k: usize = 0;
        while k < a.len()
            invariant
                k <= a@.len(),
                vs == self@.versions,
                a@.len() == self.versions@.len(),
                forall|j: int| 0 <= j < a@.len() ==> (#[trigger] a@[j]) < self.versions@.len(),
                out@.len() == k,
                forall|j: int| 0 <= j < k ==> (#[trigger] out@[j])@ == vs[a@[j] as int],
            decreases a@.len() - k,
        {
            out.push(&self.versions[a[k]]);
            k = k + 1;
        }
        proof {
            let p = order::arrangement(version_keys(vs));
            assert(p == order::positions(a@));
            assert(ref_views(out@) =~= ordered(vs));
        }
        out
    }

    /// The current version: latest effective version with status `valid`,
    /// else the latest not retired.
    pub fn current_version(&self) -> (r: Option<&ItemVersion>)
        ensures
            match r {
                Some(v) => current(self@.versions) == Some(v@),
                None => current(self@.versions) is None,
            },
    {
        let o = self.ordered_versions();
        let ghost all = ordered(self@.versions);
        let ghost valid = |v: VersionView| v.status == Status::Valid;
        let ghost kept = |v: VersionView| v.status != Status::Retired;
        let mut i: usize = o.len();
        assert(all.take(i as int) =~= all);
        while i > 0
            invariant
                i <= o@.len(),
                ref_views(o@) == all,
                valid == (|v: VersionView| v.status == Status::Valid),
                last_where(all, valid) == last_where(all.take(i as int), valid),
                all == ordered(self@.versions),
            decreases i,
        {
            assert(all[i - 1] == o@[i - 1]@);
            assert(all.take(i as int).drop_last() =~= all.take(i - 1));
            assert(all.take(i as int).last() == all[i - 1]);
            if o[i - 1].status == Status::Valid {
                return Some(o[i - 1]);
            }
            i = i - 1;
        }
        let mut i: usize = o.len();
        assert(all.take(i as int) =~= all);
        while i > 0
            invariant
                i <= o@.len(),
                ref_views(o@) == all,
                valid == (|v: VersionView| v.status == Status::Valid),
                kept == (|v: VersionView| v.status != Status::Retired),
                last_where(all, valid) is None,
                last_where(all, kept) == last_where(all.take(i as int), kept),
                all == ordered(self@.versions),
            decreases i,
        {
            assert(all[i - 1] == o@[i - 1]@);
            assert(all.take(i as int).drop_last() =~= all.take(i - 1));
            assert(all.take(i as int).last() == all[i - 1]);
            if o[i - 1].status != Status::Retired {
                return Some(o[i - 1]);
            }
            i = i - 1;
        }
        None
    }

    /// Resolved end of a version's window.
    pub fn window_until(&self, v: &ItemVersion) -> (r: Option<Timestamp>)
        ensures
            r == window_end(self@.versions, v@),
    {
        if v.effective_until.is_some() {
            return v.effective_until;
        }
        match &v.superseded_by_version {
            Some(n) => match self.version(n.as_str()) {
                Some(s) => s.effective_from,
                None => None,
            },
            None => None,
        }
    }

    /// The version in force at `t`.
    pub fn in_force_at(&self, t: Timestamp) -> (r: Option<&ItemVersion>)
        ensures
            match r {
                Some(v) => in_force(self@.versions, t) == Some(v@),
                None => in_force(self@.versions, t) is None,
            },
    {
        let o = self.ordered_versions();
        let ghost vs = self@.versions;
        let ghost all = ordered(vs);
        let ghost holds = |v: VersionView| version_in_force(vs, v, t);
        let mut i: usize = o.len();
        assert(all.take(i as int) =~= all);
        while i > 0
            invariant
                i <= o@.len(),
                vs == self@.versions,
                all == ordered(vs),
                ref_views(o@) == all,
                holds == (|v: VersionView| version_in_force(vs, v, t)),
                last_where(all, holds) == last_where(all.take(i as int), holds),
            decreases i,
        {
            assert(all[i - 1] == o@[i - 1]@);
            assert(all.take(i as int).drop_last() =~= all.take(i - 1));
            assert(all.take(i as int).last() == all[i - 1]);
            let v = o[i - 1];
            let until = self.window_until(v);
            if v.in_force_at(t, until) {
                return Some(v);
            }
            i = i - 1;
        }
        None
    }

    /// Whether an embedded manifest is pinned to a version of this item.
    pub fn manifest_version_pinned(&self) -> (r: bool)
        ensures
            r == pinned(self@),
    {
        match &self.manifest {
            None => true,
            Some(m) => match m.get_str("version") {
                Some(n) => self.version(n).is_some(),
                None => false,
            },
        }
    }
}

/// Whether an item's manifest, if it has one, names one of its versions.
pub open spec fn pinned(i: ItemView) -> bool {
    match i.manifest {
        None => true,
        Some(m) => match json::get_str(m, "version"@) {
            Some(n) => find_version(i.versions, n) is Some,
            None => false,
        },
    }
}

/// Whether a chain of versions holds the number `n`.
pub open spec fn chain_has(chain: Seq<VersionView>, n: Seq<char>) -> bool {
    exists|i: int| 0 <= i < chain.len() && (#[trigger] chain[i]).version == n
}

/// Follows the supersession links from the end of `chain`, at most `fuel`
/// of them, to the version that has none. A link to no version and a link
/// back into the chain are errors.
pub open spec fn followed(
    vs: Seq<VersionView>,
    chain: Seq<VersionView>,
    id: Seq<char>,
    fuel: nat,
) -> Result<Seq<VersionView>, Seq<char>>
    decreases fuel,
{
    match chain.last().superseded_by_version {
        None => Ok(chain),
        Some(n) => match find_version(vs, n) {
            None => Err(
                "item `"@ + id + "` has no version `"@ + n + "` (broken supersession link)"@,
            ),
            Some(v) => if chain_has(chain, v.version) {
                Err("supersession cycle at version `"@ + v.version + "` of item `"@ + id + "`"@)
            } else if fuel == 0 {
                Ok(chain)
            } else {
                followed(vs, chain.push(v), id, (fuel - 1) as nat)
            },
        },
    }
}

/// The supersession chain from the version `from`, or from the earliest.
pub open spec fn chain_of(item: ItemView, from: Option<Seq<char>>) -> Result<
    Seq<VersionView>,
    Seq<char>,
> {
    match from {
        Some(n) => match find_version(item.versions, n) {
            Some(v) => followed(item.versions, seq![v], item.identifier, item.versions.len()),
            None => Err("item `"@ + item.identifier + "` has no version `"@ + n + "`"@),
        },
        None => if item.versions.len() == 0 {
            Err("item `"@ + item.identifier + "` has no versions"@)
        } else {
            followed(
                item.versions,
                seq![ordered(item.versions)[0]],
                item.identifier,
                item.versions.len(),
            )
        },
    }
}

/// Versions with pairwise different numbers, all among `vs`, are no more
/// than `vs`.
proof fn distinct_fit(vs: Seq<VersionView>, chain: Seq<VersionView>)
    requires
        version_names(chain).no_duplicates(),
        forall|i: int| 0 <= i < chain.len() ==> version_names(vs).contains((#[trigger] chain[i]).version),
    ensures
        chain.len() <= vs.len(),
{
    let (a, b) = (version_names(chain), version_names(vs));
    a.unique_seq_to_set();
    b.lemma_cardinality_of_set();
    vstd::seq_lib::seq_to_set_is_finite(b);
    assert forall|x: Seq<char>| #[trigger] a.to_set().contains(x) implies b.to_set().contains(x) by {
        let i = a.index_of(x);
        assert(a.contains(x));
        assert(chain[i].version == x);
    }
    vstd::set_lib::lemma_len_subset(a.to_set(), b.to_set());
}

/// A version that is found bears the number it was looked up by.
pub proof fn found_version(vs: Seq<VersionView>, n: Seq<char>)
    ensures
        find_version(vs, n) matches Some(v) ==> v.version == n && version_names(vs).contains(n),
{
    order::index_of_found(version_names(vs), n);
}

/// The ordered versions are the versions.
pub proof fn ordered_holds(vs: Seq<VersionView>)
    ensures
        ordered(vs).len() == vs.len(),
        forall|i: int| 0 <= i < vs.len() ==> vs.contains(#[trigger] ordered(vs)[i]),
        forall|v: VersionView| #[trigger] vs.contains(v) ==> ordered(vs).contains(v),
{
    let keys = version_keys(vs);
    let a = order::arrangement(keys);
    order::arranged_sorts(keys, keys.len() as int);
    assert forall|v: VersionView| #[trigger] vs.contains(v) implies ordered(vs).contains(v) by {
        let i = vs.index_of(v);
        assert(a.contains(i));
        let k = a.index_of(i);
        assert(ordered(vs)[k] == v);
    }
}

/// The ordered versions ascend by the start of their window, then by
/// number.
pub proof fn ordered_ascends(vs: Seq<VersionView>, i: int, j: int)
    requires
        0 <= i < j < vs.len(),
    ensures
        !order::key_before(version_key(ordered(vs)[j]), version_key(ordered(vs)[i])),
{
    let keys = version_keys(vs);
    let a = order::arrangement(keys);
    order::arranged_sorts(keys, keys.len() as int);
    assert(!order::key_before(keys[a[j]], keys[a[i]]));
}

impl Item {
    /// Follows supersession links from the earliest version (or from
    /// `from`) to the terminal version. Errors on unknown start versions
    /// and on broken or cyclic links.
    pub fn supersession_chain(&self, from: Option<&str>) -> (r: Result<Vec<&ItemVersion>, String>)
        ensures
            match r {
                Ok(c) => chain_of(
                    self@,
                    match from {
                        Some(n) => Some(n@),
                        None => None,
                    },
                ) == Ok::<Seq<VersionView>, Seq<char>>(ref_views(c@)),
                Err(e) => chain_of(
                    self@,
                    match from {
                        Some(n) => Some(n@),
                        None => None,
                    },
                ) == Err::<Seq<VersionView>, Seq<char>>(e@),
            },
    {
        let ghost vs = self@.versions;
        let start: &ItemVersion = match from {
            Some(n) => match self.version(n) {
                Some(v) => {
                    proof {
                        found_version(vs, n@);
                    }
                    v
                },
                None => return Err(
                    text::cat5("item `", self.identifier.as_str(), "` has no version `", n, "`"),
                ),
            },
            None => {
                let o = self.ordered_versions();
                proof {
                    ordered_holds(vs);
                }
                if o.len() == 0 {
                    assert(ref_views(o@).len() == 0);
                    return Err(text::cat3("item `", self.identifier.as_str(), "` has no versions"));
                }
                assert(ref_views(o@)[0] == o@[0]@);
                proof {
                    let v = ordered(vs)[0];
                    assert(vs.contains(v));
                    assert(version_names(vs)[vs.index_of(v)] == v.version);
                }
                o[0]
            },
        };
        let ghost goal = followed(vs, seq![start@], self@.identifier, vs.len());
        let mut chain: Vec<&ItemVersion> = Vec::new();
        chain.push(start);
        let ghost mut fuel: nat = vs.len();
        assert(ref_views(chain@) =~= seq![start@]);
        loop
            invariant
                vs == self@.versions,
                chain@.len() >= 1,
                goal == followed(vs, ref_views(chain@), self@.identifier, fuel),
                fuel + chain@.len() == vs.len() + 1,
                version_names(ref_views(chain@)).no_duplicates(),
                forall|i: int|
                    0 <= i < chain@.len() ==> version_names(vs).contains(
                        (#[trigger] ref_views(chain@)[i]).version,
                    ),
                goal == chain_of(
                    self@,
                    match from {
                        Some(n) => Some(n@),
                        None => None,
                    },
                ),
            decreases fuel,
        {
            let ghost cv = ref_views(chain@);
            let last = chain[chain.len() - 1];
            assert(cv.last() == last@);
            let next: &str = match &last.superseded_by_version {
                None => return Ok(chain),
                Some(n) => n.as_str(),
            };
            let nv = match self.version(next) {
                Some(v) => v,
                None => return Err(
                    text::cat5(
                        "item `",
                        self.identifier.as_str(),
                        "` has no version `",
                        next,
                        "` (broken supersession link)",
                    ),
                ),
            };
            let mut k: usize = 0;
            while k < chain.len()
                invariant
                    k <= chain@.len(),
                    cv == ref_views(chain@),
                    forall|j: int| 0 <= j < k ==> (#[trigger] cv[j]).version != nv@.version,
                    cv.last().superseded_by_version == Some(next@),
                    find_version(vs, next@) == Some(nv@),
                    goal == followed(vs, cv, self@.identifier, fuel),
                    goal == chain_of(
                        self@,
                        match from {
                            Some(n) => Some(n@),
                            None => None,
                        },
                    ),
                decreases chain@.len() - k,
            {
                assert(cv[k as int] == chain@[k as int]@);
                if text::same(chain[k].version.as_str(), nv.version.as_str()) {
                    assert(chain_has(cv, nv@.version));
                    return Err(
                        text::cat5(
                            "supersession cycle at version `",
                            nv.version.as_str(),
                            "` of item `",
                            self.identifier.as_str(),
                            "`",
                        ),
                    );
                }
                k = k + 1;
            }
            proof {
                found_version(vs, next@);
                let ncv = cv.push(nv@);
                assert forall|i: int, j: int|
                    0 <= i < version_names(ncv).len() && 0 <= j < version_names(ncv).len() && i
                        != j implies version_names(ncv)[i] != version_names(ncv)[j] by {
                    if i < cv.len() && j < cv.len() {
                        assert(version_names(cv)[i] != version_names(cv)[j]);
                    } else if i < cv.len() {
                        assert(cv[i].version != nv@.version);
                    } else {
                        assert(cv[j].version != nv@.version);
                    }
                }
                assert forall|i: int| 0 <= i < ncv.len() implies version_names(vs).contains(
                    (#[trigger] ncv[i]).version,
                ) by {
                    if i < cv.len() {
                        assert(version_names(vs).contains(cv[i].version));
                    }
                }
                distinct_fit(vs, ncv);
            }
            chain.push(nv);
            proof {
                assert(ref_views(chain@) =~= cv.push(nv@));
                assert(!chain_has(cv, nv@.version));
                fuel = (fuel - 1) as nat;
            }
        }
    }
}

/// The wire forms of the ordered versions, each with its window end.
pub open spec fn ordered_trees(vs: Seq<VersionView>) -> Seq<Tree> {
    ordered(vs).map_values(|v: VersionView| version_tree(v, window_end(vs, v)))
}

/// The wire form of an item.
pub open spec fn item_tree(i: ItemView) -> Tree {
    let m = Map::<Seq<char>, Tree>::empty().insert("identifier"@, Tree::Str(i.identifier)).insert(
        "register"@,
        Tree::Str(i.register),
    ).insert("item_class"@, Tree::Str(class_name(i.item_class))).insert("title"@, Tree::Str(i.title));
    let m = json::put_opt(m, "submitting_organization"@, json::opt_str(i.submitting_organization));
    let m = m.insert("versions"@, Tree::Arr(ordered_trees(i.versions)));
    Tree::Obj(json::put_opt(m, "manifest"@, i.manifest))
}

/// What the first `n` wire forms of versions parse to.
pub open spec fn parsed_versions(ts: Seq<Tree>, n: int) -> Result<Seq<VersionView>, Seq<char>>
    decreases n,
{
    if n <= 0 {
        Ok(Seq::empty())
    } else {
        match parsed_versions(ts, n - 1) {
            Err(e) => Err(e),
            Ok(got) => match parsed_version(ts[n - 1]) {
                Ok(v) => Ok(got.push(v)),
                Err(e) => Err(e),
            },
        }
    }
}

/// What the wire form of an item parses to.
pub open spec fn parsed_item(t: Tree) -> Result<ItemView, Seq<char>> {
    match json::obj_of(t) {
        None => Err("item must be an object"@),
        Some(m) => {
            let list = json::get_arr(t, "versions"@);
            let versions = parsed_versions(list->Some_0, list->Some_0.len() as int);
            let class = fields::text_req(m, "item_class"@);
            let identifier = fields::text_req(m, "identifier"@);
            let register = fields::text_req(m, "register"@);
            let title = fields::text_req(m, "title"@);
            if list is None {
                Err("missing `versions` array"@)
            } else if versions is Err {
                Err(versions->Err_0)
            } else if class is Err {
                Err(class->Err_0)
            } else if parsed_class(class->Ok_0) is None {
                Err("unknown `item_class` `"@ + class->Ok_0 + "`"@)
            } else if identifier is Err {
                Err(identifier->Err_0)
            } else if register is Err {
                Err(register->Err_0)
            } else if title is Err {
                Err(title->Err_0)
            } else {
                Ok(
                    ItemView {
                        identifier: identifier->Ok_0,
                        register: register->Ok_0,
                        item_class: parsed_class(class->Ok_0)->Some_0,
                        title: title->Ok_0,
                        submitting_organization: json::get_str(t, "submitting_organization"@),
                        versions: versions->Ok_0,
                        manifest: fields::present(m, "manifest"@),
                    },
                )
            }
        },
    }
}

/// A malformed version refuses every longer prefix.
proof fn parsed_versions_fail(ts: Seq<Tree>, n: int, k: int)
    requires
        0 <= n <= k,
        parsed_versions(ts, n) is Err,
    ensures
        parsed_versions(ts, k) == parsed_versions(ts, n),
    decreases k - n,
{
    if n < k {
        parsed_versions_fail(ts, n, k - 1);
    }
}

/// Parses a list of versions.
fn read_versions(a: &Vec<Json>) -> (r: Result<Vec<ItemVersion>, String>)
    ensures
        match r {
            Ok(v) => parsed_versions(json::trees(a@), a@.len() as int) == Ok::<
                Seq<VersionView>,
                Seq<char>,
            >(version_views(v@)),
            Err(e) => parsed_versions(json::trees(a@), a@.len() as int) == Err::<
                Seq<VersionView>,
                Seq<char>,
            >(e@),
        },
{
    let ghost ts = json::trees(a@);
    let mut out: Vec<ItemVersion> = Vec::new();
    let mut i: usize = 0;
    assert(version_views(out@) =~= Seq::<VersionView>::empty());
    while i < a.len()
        invariant
            i <= a@.len(),
            ts == json::trees(a@),
            parsed_versions(ts, i as int) == Ok::<Seq<VersionView>, Seq<char>>(version_views(out@)),
        decreases a@.len() - i,
    {
        assert(ts[i as int] == a@[i as int]@);
        match ItemVersion::from_json(&a[i]) {
            Ok(v) => {
                let ghost before = version_views(out@);
                out.push(v);
                assert(version_views(out@) =~= before.push(v@));
            },
            Err(e) => {
                proof {
                    parsed_versions_fail(ts, i + 1, a@.len() as int);
                }
                return Err(e);
            },
        }
        i = i + 1;
    }
    Ok(out)
}

impl Item {
    /// Wire form; versions carry their resolved window end.
    pub fn to_json(&self) -> (r: Json)
        ensures
            r@ == item_tree(self@),
    {
        let ghost vs = self@.versions;
        let o = self.ordered_versions();
        let mut list: Vec<Json> = Vec::new();
        let mut i: usize = 0;
        while i < o.len()
            invariant
                i <= o@.len(),
                vs == self@.versions,
                ref_views(o@) == ordered(vs),
                list@.len() == i,
                forall|j: int|
                    0 <= j < i ==> json::tree(#[trigger] list@[j]) == version_tree(
                        ordered(vs)[j],
                        window_end(vs, ordered(vs)[j]),
                    ),
            decreases o@.len() - i,
        {
            assert(ordered(vs)[i as int] == o@[i as int]@);
            let until = self.window_until(o[i]);
            list.push(o[i].to_json(until));
            i = i + 1;
        }
        assert(ref_views(o@).len() == o@.len());
        assert(json::trees(list@) =~= ordered_trees(vs));
        let mut m = Object::new();
        m.put_str("identifier", self.identifier.as_str());
        m.put_str("register", self.register.as_str());
        m.put_str("item_class", self.item_class.as_str());
        m.put_str("title", self.title.as_str());
        m.put_opt_str("submitting_organization", &self.submitting_organization);
        m.put("versions", Json::Arr(list));
        fields::put_json(&mut m, "manifest", &self.manifest);
        Json::Obj(m)
    }

    /// Parses the wire form.
    pub fn from_json(v: &Json) -> (r: Result<Item, String>)
        ensures
            match r {
                Ok(x) => parsed_item(v@) == Ok::<ItemView, Seq<char>>(x@),
                Err(e) => parsed_item(v@) == Err::<ItemView, Seq<char>>(e@),
            },
    {
        let o = match v.as_object() {
            Some(o) => o,
            None => return Err("item must be an object".to_owned()),
        };
        let versions = match v.get_arr("versions") {
            Some(a) => match read_versions(a) {
                Ok(vs) => vs,
                Err(e) => return Err(e),
            },
            None => return Err("missing `versions` array".to_owned()),
        };
        let class = match fields::read_text_req(o, "item_class") {
            Ok(s) => s,
            Err(e) => return Err(e),
        };
        let item_class = match ItemClass::parse(class.as_str()) {
            Some(c) => c,
            None => return Err(text::cat3("unknown `item_class` `", class.as_str(), "`")),
        };
        let identifier = match fields::read_text_req(o, "identifier") {
            Ok(s) => s,
            Err(e) => return Err(e),
        };
        let register = match fields::read_text_req(o, "register") {
            Ok(s) => s,
            Err(e) => return Err(e),
        };
        let title = match fields::read_text_req(o, "title") {
            Ok(s) => s,
            Err(e) => return Err(e),
        };
        let submitting_organization = match o.get_str("submitting_organization") {
            Some(s) => Some(s.to_owned()),
            None => None,
        };
        let manifest = match fields::read_present(o, "manifest") {
            Some(m) => Some(m.clone()),
            None => None,
        };
        Ok(
            Item {
                identifier,
                register,
                item_class,
                title,
                submitting_organization,
                versions,
                manifest,
            },
        )
    }
}

/// An optional text is absent or not empty.
pub open spec fn text_ok(s: Option<Seq<char>>) -> bool {
    s matches Some(x) ==> x.len() > 0
}

/// An optional instant is absent or in a four-digit year.
pub open spec fn stamp_ok(t: Option<Timestamp>) -> bool {
    t matches Some(x) ==> time::four_digit_year(x.secs as int)
}

/// Whether a version has a number and its texts and instants are sound.
pub open spec fn version_ok(v: VersionView) -> bool {
    &&& v.version.len() > 0
    &&& text_ok(v.superseded_by_version)
    &&& text_ok(v.notes)
    &&& stamp_ok(v.effective_from)
    &&& stamp_ok(v.effective_until)
    &&& stamp_ok(v.registered_at)
}

/// Whether a binding has its subject and profile and is otherwise sound.
pub open spec fn binding_ok(b: BindingView) -> bool {
    &&& b.subject.len() > 0
    &&& b.profile_item.len() > 0
    &&& text_ok(b.register)
    &&& text_ok(b.profile_version)
    &&& stamp_ok(b.effective_from)
    &&& stamp_ok(b.effective_until)
    &&& stamp_ok(b.registered_at)
}

/// Whether an item has its required texts and sound versions.
pub open spec fn item_ok(i: ItemView) -> bool {
    &&& i.identifier.len() > 0
    &&& i.register.len() > 0
    &&& i.title.len() > 0
    &&& i.manifest != Some(Tree::Null)
    &&& forall|k: int| 0 <= k < i.versions.len() ==> version_ok(#[trigger] i.versions[k])
}

/// An optional instant written under `key` is read back.
proof fn stamp_read_back(m: Map<Seq<char>, Tree>, key: Seq<char>, t: Option<Timestamp>)
    requires
        stamp_ok(t),
        json::member(m, key) == fields::stamp_tree(t),
    ensures
        fields::stamp_opt(m, key) == Ok::<Option<Timestamp>, Seq<char>>(t),
{
    if let Some(x) = t {
        time::stamp_round_trip(x.secs as int);
    }
}

/// The members of a version have different names.
proof fn version_keys_distinct()
    ensures
        "version"@ != "status"@,
        "version"@ != "effective_from"@,
        "version"@ != "effective_until"@,
        "version"@ != "registered_at"@,
        "version"@ != "superseded_by_version"@,
        "version"@ != "notes"@,
        "version"@ != "window_end"@,
        "status"@ != "effective_from"@,
        "status"@ != "effective_until"@,
        "status"@ != "registered_at"@,
        "status"@ != "superseded_by_version"@,
        "status"@ != "notes"@,
        "status"@ != "window_end"@,
        "effective_from"@ != "effective_until"@,
        "effective_from"@ != "registered_at"@,
        "effective_from"@ != "superseded_by_version"@,
        "effective_from"@ != "notes"@,
        "effective_from"@ != "window_end"@,
        "effective_until"@ != "registered_at"@,
        "effective_until"@ != "superseded_by_version"@,
        "effective_until"@ != "notes"@,
        "effective_until"@ != "window_end"@,
        "registered_at"@ != "superseded_by_version"@,
        "registered_at"@ != "notes"@,
        "registered_at"@ != "window_end"@,
        "superseded_by_version"@ != "notes"@,
        "superseded_by_version"@ != "window_end"@,
        "notes"@ != "window_end"@,
{
    reveal_strlit("version");
    reveal_strlit("status");
    reveal_strlit("effective_from");
    reveal_strlit("effective_until");
    reveal_strlit("registered_at");
    reveal_strlit("superseded_by_version");
    reveal_strlit("notes");
    reveal_strlit("window_end");
    assert("version"@.len() != "status"@.len());
    assert("version"@.len() != "effective_from"@.len());
    assert("version"@.len() != "effective_until"@.len());
    assert("version"@.len() != "registered_at"@.len());
    assert("version"@.len() != "superseded_by_version"@.len());
    assert("version"@.len() != "notes"@.len());
    assert("version"@.len() != "window_end"@.len());
    assert("status"@.len() != "effective_from"@.len());
    assert("status"@.len() != "effective_until"@.len());
    assert("status"@.len() != "registered_at"@.len());
    assert("status"@.len() != "superseded_by_version"@.len());
    assert("status"@.len() != "notes"@.len());
    assert("status"@.len() != "window_end"@.len());
    assert("effective_from"@.len() != "effective_until"@.len());
    assert("effective_from"@.len() != "registered_at"@.len());
    assert("effective_from"@.len() != "superseded_by_version"@.len());
    assert("effective_from"@.len() != "notes"@.len());
    assert("effective_from"@.len() != "window_end"@.len());
    assert("effective_until"@.len() != "registered_at"@.len());
    assert("effective_until"@.len() != "superseded_by_version"@.len());
    assert("effective_until"@.len() != "notes"@.len());
    assert("effective_until"@.len() != "window_end"@.len());
    assert("registered_at"@.len() != "superseded_by_version"@.len());
    assert("registered_at"@.len() != "notes"@.len());
    assert("registered_at"@.len() != "window_end"@.len());
    assert("superseded_by_version"@.len() != "notes"@.len());
    assert("superseded_by_version"@.len() != "window_end"@.len());
    assert("notes"@.len() != "window_end"@.len());
}

/// The members of a version's wire form.
proof fn version_members(v: VersionView, end: Option<Timestamp>, m: Map<Seq<char>, Tree>)
    requires
        version_tree(v, end) == Tree::Obj(m),
    ensures
        json::member(m, "version"@) == Some(Tree::Str(v.version)),
        json::member(m, "status"@) == Some(Tree::Str(status_name(v.status))),
        json::member(m, "effective_from"@) == fields::stamp_tree(v.effective_from),
        json::member(m, "effective_until"@) == fields::stamp_tree(v.effective_until),
        json::member(m, "registered_at"@) == fields::stamp_tree(v.registered_at),
        json::member(m, "superseded_by_version"@) == json::opt_str(v.superseded_by_version),
        json::member(m, "notes"@) == json::opt_str(v.notes),
{
    broadcast use json::group_members;
    version_keys_distinct();
}

/// The wire form of a version is read back as that version; the window
/// end is not part of it.
pub proof fn version_wire_round_trip(v: VersionView, end: Option<Timestamp>)
    requires
        version_ok(v),
    ensures
        parsed_version(version_tree(v, end)) == Ok::<VersionView, Seq<char>>(v),
{
    let m = version_tree(v, end)->Obj_0;
    version_members(v, end, m);
    status_round_trip(v.status);
    stamp_read_back(m, "effective_from"@, v.effective_from);
    stamp_read_back(m, "effective_until"@, v.effective_until);
    stamp_read_back(m, "registered_at"@, v.registered_at);
}

/// The members of a binding have different names.
proof fn binding_keys_distinct()
    ensures
        "id"@ != "subject"@,
        "id"@ != "profile_item"@,
        "id"@ != "register"@,
        "id"@ != "profile_version"@,
        "id"@ != "effective_from"@,
        "id"@ != "effective_until"@,
        "id"@ != "registered_at"@,
        "id"@ != "retroactive"@,
        "subject"@ != "profile_item"@,
        "subject"@ != "register"@,
        "subject"@ != "profile_version"@,
        "subject"@ != "effective_from"@,
        "subject"@ != "effective_until"@,
        "subject"@ != "registered_at"@,
        "subject"@ != "retroactive"@,
        "profile_item"@ != "register"@,
        "profile_item"@ != "profile_version"@,
        "profile_item"@ != "effective_from"@,
        "profile_item"@ != "effective_until"@,
        "profile_item"@ != "registered_at"@,
        "profile_item"@ != "retroactive"@,
        "register"@ != "profile_version"@,
        "register"@ != "effective_from"@,
        "register"@ != "effective_until"@,
        "register"@ != "registered_at"@,
        "register"@ != "retroactive"@,
        "profile_version"@ != "effective_from"@,
        "profile_version"@ != "effective_until"@,
        "profile_version"@ != "registered_at"@,
        "profile_version"@ != "retroactive"@,
        "effective_from"@ != "effective_until"@,
        "effective_from"@ != "registered_at"@,
        "effective_from"@ != "retroactive"@,
        "effective_until"@ != "registered_at"@,
        "effective_until"@ != "retroactive"@,
        "registered_at"@ != "retroactive"@,
{
    reveal_strlit("id");
    reveal_strlit("subject");
    reveal_strlit("profile_item");
    reveal_strlit("register");
    reveal_strlit("profile_version");
    reveal_strlit("effective_from");
    reveal_strlit("effective_until");
    reveal_strlit("registered_at");
    reveal_strlit("retroactive");
    assert("id"@.len() != "subject"@.len());
    assert("id"@.len() != "profile_item"@.len());
    assert("id"@.len() != "register"@.len());
    assert("id"@.len() != "profile_version"@.len());
    assert("id"@.len() != "effective_from"@.len());
    assert("id"@.len() != "effective_until"@.len());
    assert("id"@.len() != "registered_at"@.len());
    assert("id"@.len() != "retroactive"@.len());
    assert("subject"@.len() != "profile_item"@.len());
    assert("subject"@.len() != "register"@.len());
    assert("subject"@.len() != "profile_version"@.len());
    assert("subject"@.len() != "effective_from"@.len());
    assert("subject"@.len() != "effective_until"@.len());
    assert("subject"@.len() != "registered_at"@.len());
    assert("subject"@.len() != "retroactive"@.len());
    assert("profile_item"@.len() != "register"@.len());
    assert("profile_item"@.len() != "profile_version"@.len());
    assert("profile_item"@.len() != "effective_from"@.len());
    assert("profile_item"@.len() != "effective_until"@.len());
    assert("profile_item"@.len() != "registered_at"@.len());
    assert("profile_item"@.len() != "retroactive"@.len());
    assert("register"@.len() != "profile_version"@.len());
    assert("register"@.len() != "effective_from"@.len());
    assert("register"@.len() != "effective_until"@.len());
    assert("register"@.len() != "registered_at"@.len());
    assert("register"@.len() != "retroactive"@.len());
    assert("profile_version"@.len() != "effective_from"@.len());
    assert("profile_version"@[0] != "effective_until"@[0]);
    assert("profile_version"@.len() != "registered_at"@.len());
    assert("profile_version"@.len() != "retroactive"@.len());
    assert("effective_from"@.len() != "effective_until"@.len());
    assert("effective_from"@.len() != "registered_at"@.len());
    assert("effective_from"@.len() != "retroactive"@.len());
    assert("effective_until"@.len() != "registered_at"@.len());
    assert("effective_until"@.len() != "retroactive"@.len());
    assert("registered_at"@.len() != "retroactive"@.len());
}

/// The members of a binding's wire form.
proof fn binding_members(v: BindingView, m: Map<Seq<char>, Tree>)
    requires
        binding_tree(v) == Tree::Obj(m),
    ensures
        json::member(m, "id"@) == Some(Tree::Int(v.id as int)),
        json::member(m, "subject"@) == Some(Tree::Str(v.subject)),
        json::member(m, "profile_item"@) == Some(Tree::Str(v.profile_item)),
        json::member(m, "register"@) == json::opt_str(v.register),
        json::member(m, "profile_version"@) == json::opt_str(v.profile_version),
        json::member(m, "effective_from"@) == fields::stamp_tree(v.effective_from),
        json::member(m, "effective_until"@) == fields::stamp_tree(v.effective_until),
        json::member(m, "registered_at"@) == fields::stamp_tree(v.registered_at),
        json::member(m, "retroactive"@) == Some(Tree::Bool(v.retroactive)),
{
    broadcast use json::group_members;
    binding_keys_distinct();
}

/// The wire form of a binding is read back as that binding.
pub proof fn binding_wire_round_trip(b: BindingView)
    requires
        binding_ok(b),
    ensures
        parsed_binding(binding_tree(b)) == Ok::<BindingView, Seq<char>>(b),
{
    let m = binding_tree(b)->Obj_0;
    binding_members(b, m);
    stamp_read_back(m, "effective_from"@, b.effective_from);
    stamp_read_back(m, "effective_until"@, b.effective_until);
    stamp_read_back(m, "registered_at"@, b.registered_at);
}

/// The wire forms of sound versions are read back.
proof fn versions_read_back(vs: Seq<VersionView>, all: Seq<VersionView>, n: int)
    requires
        0 <= n <= all.len(),
        forall|k: int| 0 <= k < all.len() ==> version_ok(#[trigger] all[k]),
    ensures
        parsed_versions(
            all.map_values(|v: VersionView| version_tree(v, window_end(vs, v))),
            n,
        ) == Ok::<Seq<VersionView>, Seq<char>>(all.take(n)),
    decreases n,
{
    let ts = all.map_values(|v: VersionView| version_tree(v, window_end(vs, v)));
    if n > 0 {
        versions_read_back(vs, all, n - 1);
        version_wire_round_trip(all[n - 1], window_end(vs, all[n - 1]));
        assert(all.take(n) =~= all.take(n - 1).push(all[n - 1]));
    } else {
        assert(all.take(0) =~= Seq::<VersionView>::empty());
    }
}

/// The members of an item have different names.
proof fn item_keys_distinct()
    ensures
        "identifier"@ != "register"@,
        "identifier"@ != "item_class"@,
        "identifier"@ != "title"@,
        "identifier"@ != "submitting_organization"@,
        "identifier"@ != "versions"@,
        "identifier"@ != "manifest"@,
        "register"@ != "item_class"@,
        "register"@ != "title"@,
        "register"@ != "submitting_organization"@,
        "register"@ != "versions"@,
        "register"@ != "manifest"@,
        "item_class"@ != "title"@,
        "item_class"@ != "submitting_organization"@,
        "item_class"@ != "versions"@,
        "item_class"@ != "manifest"@,
        "title"@ != "submitting_organization"@,
        "title"@ != "versions"@,
        "title"@ != "manifest"@,
        "submitting_organization"@ != "versions"@,
        "submitting_organization"@ != "manifest"@,
        "versions"@ != "manifest"@,
{
    reveal_strlit("identifier");
    reveal_strlit("register");
    reveal_strlit("item_class");
    reveal_strlit("title");
    reveal_strlit("submitting_organization");
    reveal_strlit("versions");
    reveal_strlit("manifest");
    assert("identifier"@.len() != "register"@.len());
    assert("identifier"@[1] != "item_class"@[1]);
    assert("identifier"@.len() != "title"@.len());
    assert("identifier"@.len() != "submitting_organization"@.len());
    assert("identifier"@.len() != "versions"@.len());
    assert("identifier"@.len() != "manifest"@.len());
    assert("register"@.len() != "item_class"@.len());
    assert("register"@.len() != "title"@.len());
    assert("register"@.len() != "submitting_organization"@.len());
    assert("register"@[0] != "versions"@[0]);
    assert("register"@[0] != "manifest"@[0]);
    assert("item_class"@.len() != "title"@.len());
    assert("item_class"@.len() != "submitting_organization"@.len());
    assert("item_class"@.len() != "versions"@.len());
    assert("item_class"@.len() != "manifest"@.len());
    assert("title"@.len() != "submitting_organization"@.len());
    assert("title"@.len() != "versions"@.len());
    assert("title"@.len() != "manifest"@.len());
    assert("submitting_organization"@.len() != "versions"@.len());
    assert("submitting_organization"@.len() != "manifest"@.len());
    assert("versions"@[0] != "manifest"@[0]);
}

/// The members of an item's wire form.
proof fn item_members(v: ItemView, m: Map<Seq<char>, Tree>)
    requires
        item_tree(v) == Tree::Obj(m),
    ensures
        json::member(m, "identifier"@) == Some(Tree::Str(v.identifier)),
        json::member(m, "register"@) == Some(Tree::Str(v.register)),
        json::member(m, "item_class"@) == Some(Tree::Str(class_name(v.item_class))),
        json::member(m, "title"@) == Some(Tree::Str(v.title)),
        json::member(m, "submitting_organization"@) == json::opt_str(v.submitting_organization),
        json::member(m, "versions"@) == Some(Tree::Arr(ordered_trees(v.versions))),
        json::member(m, "manifest"@) == v.manifest,
{
    broadcast use json::group_members;
    item_keys_distinct();
}

/// A class name is not empty.
pub(crate) proof fn class_name_nonempty(c: ItemClass)
    ensures
        class_name(c).len() > 0,
{
    reveal_strlit("data-element");
    reveal_strlit("profile");
    reveal_strlit("crypto-suite");
    reveal_strlit("transform");
    reveal_strlit("trust-anchor");
    reveal_strlit("unit");
    reveal_strlit("model");
    reveal_strlit("cross-register-mapping");
}

/// The wire form of an item is read back as that item, its versions in
/// order.
pub proof fn item_wire_round_trip(i: ItemView)
    requires
        item_ok(i),
    ensures
        parsed_item(item_tree(i)) == Ok::<ItemView, Seq<char>>(
            ItemView { versions: ordered(i.versions), ..i },
        ),
{
    item_members(i, item_tree(i)->Obj_0);
    class_round_trip(i.item_class);
    class_name_nonempty(i.item_class);
    let all = ordered(i.versions);
    ordered_holds(i.versions);
    assert forall|k: int| 0 <= k < all.len() implies version_ok(#[trigger] all[k]) by {
        assert(i.versions.contains(all[k]));
    }
    versions_read_back(i.versions, all, all.len() as int);
    assert(all.take(all.len() as int) =~= all);
}

/// A version found by `last_where` is in the sequence and has the property.
proof fn last_where_found(s: Seq<VersionView>, p: spec_fn(VersionView) -> bool)
    ensures
        last_where(s, p) matches Some(v) ==> s.contains(v) && p(v),
        last_where(s, p) is None ==> forall|v: VersionView| #[trigger] s.contains(v) ==> !p(v),
    decreases s.len(),
{
    if s.len() > 0 {
        if p(s.last()) {
            assert(s[s.len() - 1] == s.last());
        } else {
            let t = s.drop_last();
            last_where_found(t, p);
            if let Some(v) = last_where(t, p) {
                let k = t.index_of(v);
                assert(s[k] == v);
            } else {
                assert forall|v: VersionView| #[trigger] s.contains(v) implies !p(v) by {
                    let k = s.index_of(v);
                    if k < t.len() {
                        assert(t[k] == v);
                        assert(t.contains(v));
                    }
                }
            }
        }
    }
}

/// The current version is one of the versions and never a retired one; it
/// is valid whenever any version is, and there is one whenever any version
/// is not retired.
pub proof fn current_version_rule(vs: Seq<VersionView>)
    ensures
        current(vs) matches Some(v) ==> vs.contains(v) && v.status != Status::Retired,
        forall|v: VersionView| #[trigger]
            vs.contains(v) && v.status == Status::Valid ==> (current(vs) matches Some(c) && c.status
                == Status::Valid),
        forall|v: VersionView| #[trigger]
            vs.contains(v) && v.status != Status::Retired ==> current(vs) is Some,
{
    ordered_holds(vs);
    let o = ordered(vs);
    last_where_found(o, |v: VersionView| v.status == Status::Valid);
    last_where_found(o, |v: VersionView| v.status != Status::Retired);
    if let Some(v) = current(vs) {
        let k = o.index_of(v);
        assert(vs.contains(o[k]));
    }
}

/// The version in force at an instant is one of the versions and its
/// window holds the instant; there is one whenever some window holds it.
pub proof fn in_force_rule(vs: Seq<VersionView>, t: Timestamp)
    ensures
        in_force(vs, t) matches Some(v) ==> vs.contains(v) && version_in_force(vs, v, t),
        forall|v: VersionView| #[trigger]
            vs.contains(v) && version_in_force(vs, v, t) ==> in_force(vs, t) is Some,
{
    ordered_holds(vs);
    let o = ordered(vs);
    last_where_found(o, |v: VersionView| version_in_force(vs, v, t));
    if let Some(v) = in_force(vs, t) {
        let k = o.index_of(v);
        assert(vs.contains(o[k]));
    }
}

/// At the instant a successor takes over, the superseded version is no
/// longer in force and the successor is, as long as its own window has not
/// closed by then.
pub proof fn successor_rules_at_the_boundary(
    vs: Seq<VersionView>,
    v: VersionView,
    s: VersionView,
    t: Timestamp,
)
    requires
        v.effective_until is None,
        v.superseded_by_version matches Some(n) && find_version(vs, n) == Some(s),
        s.effective_from == Some(t),
        window_end(vs, s) matches Some(u) ==> t.secs < u.secs,
    ensures
        !version_in_force(vs, v, t),
        version_in_force(vs, s, t),
{
}

/// Retroactivity only ever adds instants at which a binding applies, and
/// without it a binding never applies before it was registered.
pub proof fn retroactivity_rule(b: BindingView, t: Timestamp)
    ensures
        binding_applies(BindingView { retroactive: false, ..b }, t) ==> binding_applies(
            BindingView { retroactive: true, ..b },
            t,
        ),
        binding_applies(BindingView { retroactive: true, ..b }, t) == in_window(
            b.effective_from,
            b.effective_until,
            t,
        ),
        (b.registered_at matches Some(r) && t.secs < r.secs) ==> !binding_applies(
            BindingView { retroactive: false, ..b },
            t,
        ),
{
}

/// A version that has a property is not after the one that `last_where`
/// finds.
proof fn last_where_is_last(s: Seq<VersionView>, p: spec_fn(VersionView) -> bool, i: int)
    requires
        0 <= i < s.len(),
        p(s[i]),
    ensures
        last_where(s, p) is Some,
        exists|k: int| i <= k < s.len() && last_where(s, p) == Some(#[trigger] s[k]),
    decreases s.len(),
{
    let n = s.len() - 1;
    if p(s.last()) {
        assert(s[n] == s.last());
        assert(i <= n < s.len() && last_where(s, p) == Some(s[n]));
    } else {
        let t = s.drop_last();
        assert(t[i] == s[i]);
        last_where_is_last(t, p, i);
        let k = choose|k: int| i <= k < t.len() && last_where(t, p) == Some(#[trigger] t[k]);
        assert(i <= k < s.len() && last_where(s, p) == Some(s[k]));
    }
}

/// Of two versions with a property, the later one is picked from the
/// ordered versions.
proof fn latest_is_picked(vs: Seq<VersionView>, p: spec_fn(VersionView) -> bool, i: int)
    requires
        0 <= i < vs.len(),
        p(vs[i]),
    ensures
        last_where(ordered(vs), p) matches Some(v) && !order::key_before(
            version_key(v),
            version_key(vs[i]),
        ),
{
    ordered_holds(vs);
    let o = ordered(vs);
    assert(vs.contains(vs[i]));
    let at = o.index_of(vs[i]);
    assert(o.contains(vs[i]));
    last_where_is_last(o, p, at);
    let k = choose|k: int| at <= k < o.len() && last_where(o, p) == Some(#[trigger] o[k]);
    if at < k {
        ordered_ascends(vs, at, k);
    } else {
        text::before_irreflexive(vs[i].version);
    }
}

/// The number a link names is looked up from the front: the version found
/// is the first that bears it.
pub proof fn first_version_of_a_number(vs: Seq<VersionView>, k: int)
    requires
        0 <= k < vs.len(),
        forall|j: int| 0 <= j < k ==> (#[trigger] vs[j]).version != vs[k].version,
    ensures
        find_version(vs, vs[k].version) == Some(vs[k]),
{
    order::index_of_is(version_names(vs), vs[k].version, k);
}

/// A number that no version bears finds nothing.
pub proof fn unknown_number_finds_nothing(vs: Seq<VersionView>, n: Seq<char>)
    requires
        forall|j: int| 0 <= j < vs.len() ==> (#[trigger] vs[j]).version != n,
    ensures
        find_version(vs, n) is None,
{
    order::index_of_is(version_names(vs), n, vs.len() as int);
}

/// A version's own dates bound its service: the version served in force at
/// an instant is registered with the item, has begun by then, and has not
/// reached its own end, whatever it links to.
pub proof fn served_version_keeps_its_dates(vs: Seq<VersionView>, t: Timestamp)
    ensures
        in_force(vs, t) matches Some(v) ==> {
            &&& vs.contains(v)
            &&& v.effective_from matches Some(f) ==> f.secs <= t.secs
            &&& v.effective_until matches Some(u) ==> t.secs < u.secs
        },
{
    in_force_rule(vs, t);
}

/// A version with an explicit end is in force at no instant from that end
/// on, whatever its supersession link.
pub proof fn explicit_end_wins(vs: Seq<VersionView>, v: VersionView, u: Timestamp, t: Timestamp)
    requires
        v.effective_until == Some(u),
        u.secs <= t.secs,
    ensures
        in_force(vs, t) != Some(v),
        window_end(vs, v) == Some(u),
{
    in_force_rule(vs, t);
}

/// A version without an end of its own gives way when the version that it
/// links to begins.
pub proof fn link_ends_an_open_window(vs: Seq<VersionView>, v: VersionView, k: int, t: Timestamp)
    requires
        0 <= k < vs.len(),
        forall|j: int| 0 <= j < k ==> (#[trigger] vs[j]).version != vs[k].version,
        v.effective_until is None,
        v.superseded_by_version == Some(vs[k].version),
    ensures
        window_end(vs, v) == vs[k].effective_from,
        (vs[k].effective_from matches Some(g) && g.secs <= t.secs) ==> in_force(vs, t) != Some(v),
{
    first_version_of_a_number(vs, k);
    in_force_rule(vs, t);
}

/// A version that neither ends nor links to another stays open.
pub proof fn unlinked_version_stays_open(vs: Seq<VersionView>, v: VersionView)
    requires
        v.effective_until is None,
        v.superseded_by_version matches Some(n) ==> forall|j: int|
            0 <= j < vs.len() ==> (#[trigger] vs[j]).version != n,
    ensures
        window_end(vs, v) is None,
{
    if let Some(n) = v.superseded_by_version {
        unknown_number_finds_nothing(vs, n);
    }
}

/// Every version that has begun and not ended is a candidate, and the
/// latest candidate is served: the one that began last and, of two that
/// began together, the one whose number sorts last. A version without a
/// start counts as older than every dated one.
pub proof fn latest_open_version_is_served(vs: Seq<VersionView>, i: int, k: int, t: Timestamp)
    requires
        0 <= i < vs.len(),
        vs[i].effective_from matches Some(f) ==> f.secs <= t.secs,
        match (vs[i].effective_until, vs[i].superseded_by_version) {
            (Some(u), _) => t.secs < u.secs,
            (None, None) => true,
            (None, Some(n)) => {
                ||| forall|j: int| 0 <= j < vs.len() ==> (#[trigger] vs[j]).version != n
                ||| {
                    &&& 0 <= k < vs.len()
                    &&& vs[k].version == n
                    &&& forall|j: int| 0 <= j < k ==> (#[trigger] vs[j]).version != n
                    &&& vs[k].effective_from matches Some(g) ==> t.secs < g.secs
                }
            },
        },
    ensures
        in_force(vs, t) matches Some(v) && match (vs[i].effective_from, v.effective_from) {
            (Some(f), Some(g)) => f.secs < g.secs || (f.secs == g.secs && !text::before(
                v.version,
                vs[i].version,
            )),
            (Some(_), None) => false,
            (None, Some(_)) => true,
            (None, None) => !text::before(v.version, vs[i].version),
        },
{
    if let (None, Some(n)) = (vs[i].effective_until, vs[i].superseded_by_version) {
        if forall|j: int| 0 <= j < vs.len() ==> (#[trigger] vs[j]).version != n {
            unknown_number_finds_nothing(vs, n);
        } else {
            first_version_of_a_number(vs, k);
        }
    }
    assert(version_in_force(vs, vs[i], t));
    latest_is_picked(vs, |v: VersionView| version_in_force(vs, v, t), i);
}

/// The current version is the latest valid one: no valid version began
/// after it, nor with it under a later number.
pub proof fn current_is_the_latest_valid(vs: Seq<VersionView>, i: int)
    requires
        0 <= i < vs.len(),
        vs[i].status == Status::Valid,
    ensures
        current(vs) matches Some(c) && c.status == Status::Valid && vs.contains(c) && match (
            vs[i].effective_from,
            c.effective_from,
        ) {
            (Some(f), Some(g)) => f.secs < g.secs || (f.secs == g.secs && !text::before(
                c.version,
                vs[i].version,
            )),
            (Some(_), None) => false,
            (None, Some(_)) => true,
            (None, None) => !text::before(c.version, vs[i].version),
        },
{
    current_version_rule(vs);
    assert(vs.contains(vs[i]));
    latest_is_picked(vs, |v: VersionView| v.status == Status::Valid, i);
}

/// With no valid version left, the latest superseded one is current.
pub proof fn current_falls_back_to_superseded(vs: Seq<VersionView>, i: int)
    requires
        0 <= i < vs.len(),
        vs[i].status == Status::Superseded,
        forall|j: int| 0 <= j < vs.len() ==> (#[trigger] vs[j]).status != Status::Valid,
    ensures
        current(vs) matches Some(c) && c.status == Status::Superseded && vs.contains(c) && match (
            vs[i].effective_from,
            c.effective_from,
        ) {
            (Some(f), Some(g)) => f.secs < g.secs || (f.secs == g.secs && !text::before(
                c.version,
                vs[i].version,
            )),
            (Some(_), None) => false,
            (None, Some(_)) => true,
            (None, None) => !text::before(c.version, vs[i].version),
        },
{
    current_version_rule(vs);
    assert(vs.contains(vs[i]));
    ordered_holds(vs);
    let valid = |v: VersionView| v.status == Status::Valid;
    last_where_found(ordered(vs), valid);
    if let Some(v) = last_where(ordered(vs), valid) {
        let o = ordered(vs);
        assert(vs.contains(o[o.index_of(v)]));
        assert(vs[vs.index_of(v)] == v);
    }
    latest_is_picked(vs, |v: VersionView| v.status != Status::Retired, i);
    let c = current(vs)->Some_0;
    assert(vs[vs.index_of(c)] == c);
}

/// A binding applies from its start up to but not at its end, and unless
/// it is retroactive not before it was registered; a date that is absent
/// bounds nothing.
pub proof fn binding_keeps_its_dates(b: BindingView, t: Timestamp)
    ensures
        binding_applies(b, t) ==> {
            &&& b.effective_from matches Some(f) ==> f.secs <= t.secs
            &&& b.effective_until matches Some(u) ==> t.secs < u.secs
            &&& b.registered_at matches Some(r) ==> b.retroactive || r.secs <= t.secs
        },
        !binding_applies(b, t) ==> {
            ||| b.effective_from matches Some(f) && t.secs < f.secs
            ||| b.effective_until matches Some(u) && u.secs <= t.secs
            ||| !b.retroactive && (b.registered_at matches Some(r) && t.secs < r.secs)
        },
{
}

/// Each version of a chain links to the next one, none occurs twice, and
/// all are versions of the whole.
pub open spec fn linked(vs: Seq<VersionView>, chain: Seq<VersionView>) -> bool {
    &&& chain.len() > 0
    &&& forall|i: int| 0 <= i < chain.len() ==> vs.contains(#[trigger] chain[i])
    &&& forall|i: int, j: int|
        0 <= i && j == i + 1 && j < chain.len() ==> (#[trigger] chain[i]).superseded_by_version == Some(
            (#[trigger] chain[j]).version,
        )
    &&& forall|i: int, j: int|
        0 <= i < j < chain.len() ==> (#[trigger] chain[i]).version != (#[trigger] chain[j]).version
}

/// Following the links keeps a chain linked, and ends at a version that
/// links no further.
proof fn followed_is_linked(vs: Seq<VersionView>, chain: Seq<VersionView>, id: Seq<char>, fuel: nat)
    requires
        linked(vs, chain),
        chain.len() + fuel == vs.len() + 1,
    ensures
        followed(vs, chain, id, fuel) matches Ok(c) ==> {
            &&& linked(vs, c)
            &&& c[0] == chain[0]
            &&& c.last().superseded_by_version is None
        },
    decreases fuel,
{
    if let Some(n) = chain.last().superseded_by_version {
        if let Some(v) = find_version(vs, n) {
            found_version(vs, n);
            if !chain_has(chain, v.version) {
                let next = chain.push(v);
                order::index_of_found(version_names(vs), n);
                assert(vs.contains(v));
                assert forall|i: int, j: int| 0 <= i && j == i + 1 && j < next.len() implies (
                #[trigger] next[i]).superseded_by_version == Some((#[trigger] next[j]).version) by {
                    if j < chain.len() {
                        assert(next[i] == chain[i] && next[j] == chain[j]);
                    }
                }
                assert forall|i: int, j: int| 0 <= i < j < next.len() implies (
                #[trigger] next[i]).version != (#[trigger] next[j]).version by {
                    assert(next[i] == chain[i]);
                }
                assert(linked(vs, next));
                if fuel == 0 {
                    assert forall|i: int| 0 <= i < next.len() implies version_names(vs).contains(
                        (#[trigger] next[i]).version,
                    ) by {
                        let k = vs.index_of(next[i]);
                        assert(vs.contains(next[i]));
                        assert(version_names(vs)[k] == next[i].version);
                    }
                    let a = version_names(next);
                    assert forall|i: int, j: int| 0 <= i < a.len() && 0 <= j < a.len() && i != j implies a[i]
                        != a[j] by {
                        if i < j {
                            assert(next[i].version != next[j].version);
                        } else {
                            assert(next[j].version != next[i].version);
                        }
                    }
                    distinct_fit(vs, next);
                } else {
                    followed_is_linked(vs, next, id, (fuel - 1) as nat);
                }
            }
        }
    }
}

/// A chain runs from the version asked for, or from the earliest, along
/// the links to the version that links no further. Asked for a version
/// that is not there, it is refused.
pub proof fn chain_follows_the_links(item: ItemView, from: Option<Seq<char>>)
    ensures
        chain_of(item, from) matches Ok(c) ==> {
            &&& linked(item.versions, c)
            &&& c.last().superseded_by_version is None
            &&& from matches Some(n) ==> c[0].version == n
            &&& from is None ==> forall|i: int|
                0 <= i < item.versions.len() ==> match (
                    (#[trigger] item.versions[i]).effective_from,
                    c[0].effective_from,
                ) {
                    (Some(f), Some(g)) => g.secs < f.secs || (g.secs == f.secs && !text::before(
                        item.versions[i].version,
                        c[0].version,
                    )),
                    (Some(_), None) => true,
                    (None, Some(_)) => false,
                    (None, None) => !text::before(item.versions[i].version, c[0].version),
                }
        },
        (from matches Some(n) && forall|i: int|
            0 <= i < item.versions.len() ==> (#[trigger] item.versions[i]).version != n) ==> chain_of(
            item,
            from,
        ) is Err,
{
    let vs = item.versions;
    match from {
        Some(n) => {
            found_version(vs, n);
            order::index_of_found(version_names(vs), n);
            if let Some(v) = find_version(vs, n) {
                let k = order::index_of(version_names(vs), n);
                assert(vs[k] == v);
                followed_is_linked(vs, seq![v], item.identifier, vs.len());
            }
        },
        None => {
            if vs.len() > 0 {
                ordered_holds(vs);
                let v = ordered(vs)[0];
                assert(vs.contains(v));
                followed_is_linked(vs, seq![v], item.identifier, vs.len());
                assert forall|i: int| 0 <= i < vs.len() implies !order::key_before(
                    version_key(#[trigger] vs[i]),
                    version_key(v),
                ) by {
                    assert(vs.contains(vs[i]));
                    let o = ordered(vs);
                    assert(o.contains(vs[i]));
                    let k = o.index_of(vs[i]);
                    if k > 0 {
                        ordered_ascends(vs, 0, k);
                    } else {
                        text::before_irreflexive(v.version);
                    }
                }
            }
        },
    }
}

/// A chain without broken links and cycles is served: where each version of
/// a linked chain is the first of its number and the last links no further,
/// following it from its first version gives it back.
proof fn followed_to_the_end(vs: Seq<VersionView>, c: Seq<VersionView>, n: int, id: Seq<char>, fuel: nat)
    requires
        linked(vs, c),
        c.last().superseded_by_version is None,
        forall|i: int| 0 <= i < c.len() ==> find_version(vs, (#[trigger] c[i]).version) == Some(c[i]),
        0 < n <= c.len(),
        fuel >= c.len() - n,
    ensures
        followed(vs, c.take(n), id, fuel) == Ok::<Seq<VersionView>, Seq<char>>(c),
    decreases fuel,
{
    let head = c.take(n);
    assert(head.last() == c[n - 1]);
    if n == c.len() {
        assert(head =~= c);
    } else {
        assert(c[n - 1].superseded_by_version == Some(c[n].version));
        assert(!chain_has(head, c[n].version)) by {
            assert forall|i: int| 0 <= i < head.len() implies (#[trigger] head[i]).version
                != c[n].version by {
                assert(c[i].version != c[n].version);
            }
        }
        assert(head.push(c[n]) =~= c.take(n + 1));
        followed_to_the_end(vs, c, n + 1, id, (fuel - 1) as nat);
    }
}

/// A linked chain that ends is served whole from its first version on.
pub proof fn whole_chains_are_served(item: ItemView, c: Seq<VersionView>)
    requires
        linked(item.versions, c),
        c.last().superseded_by_version is None,
        forall|i: int, j: int|
            0 <= i < item.versions.len() && 0 <= j < item.versions.len() && (
            #[trigger] item.versions[i]).version == (#[trigger] item.versions[j]).version ==> i == j,
    ensures
        chain_of(item, Some(c[0].version)) == Ok::<Seq<VersionView>, Seq<char>>(c),
{
    let vs = item.versions;
    assert forall|i: int| 0 <= i < c.len() implies find_version(vs, (#[trigger] c[i]).version) == Some(
        c[i],
    ) by {
        assert(vs.contains(c[i]));
        let k = vs.index_of(c[i]);
        first_version_of_a_number(vs, k);
    }
    assert(c.take(1) =~= seq![c[0]]);
    assert forall|i: int| 0 <= i < c.len() implies version_names(vs).contains((#[trigger] c[i]).version) by {
        assert(vs.contains(c[i]));
        assert(version_names(vs)[vs.index_of(c[i])] == c[i].version);
    }
    let a = version_names(c);
    assert forall|i: int, j: int| 0 <= i < a.len() && 0 <= j < a.len() && i != j implies a[i] != a[j] by {
        if i < j {
            assert(c[i].version != c[j].version);
        } else {
            assert(c[j].version != c[i].version);
        }
    }
    distinct_fit(vs, c);
    followed_to_the_end(vs, c, 1, item.identifier, vs.len());
}

/// The members of a version's wire form bear its fields, each under its
/// name; a field that is absent has no member, and the resolved end of the
/// window stands beside the version's own.
pub proof fn versions_are_shown_by_name(v: VersionView, end: Option<Timestamp>)
    ensures
        version_tree(v, end) matches Tree::Obj(m) && {
            let shows = |key: Seq<char>, t: Option<Timestamp>|
                match t {
                    Some(x) => m.dom().contains(key) && m[key] == Tree::Str(
                        time::stamp_text(x.secs as int),
                    ),
                    None => !m.dom().contains(key),
                };
            let says = |key: Seq<char>, s: Option<Seq<char>>|
                match s {
                    Some(x) => m.dom().contains(key) && m[key] == Tree::Str(x),
                    None => !m.dom().contains(key),
                };
            &&& says("version"@, Some(v.version))
            &&& v.status == Status::Valid ==> says("status"@, Some("valid"@))
            &&& v.status == Status::Superseded ==> says("status"@, Some("superseded"@))
            &&& v.status == Status::Retired ==> says("status"@, Some("retired"@))
            &&& shows("effective_from"@, v.effective_from)
            &&& shows("effective_until"@, v.effective_until)
            &&& shows("registered_at"@, v.registered_at)
            &&& says("superseded_by_version"@, v.superseded_by_version)
            &&& says("notes"@, v.notes)
            &&& shows("window_end"@, end)
        },
{
    broadcast use json::group_members;

    version_keys_distinct();
    let m = version_tree(v, end)->Obj_0;
    version_members(v, end, m);
    window_end_differs();
    assert(json::member(m, "window_end"@) == fields::stamp_tree(end));
}

/// The window end has a name of its own.
proof fn window_end_differs()
    ensures
        "window_end"@ != "version"@,
        "window_end"@ != "status"@,
        "window_end"@ != "effective_from"@,
        "window_end"@ != "effective_until"@,
        "window_end"@ != "registered_at"@,
        "window_end"@ != "superseded_by_version"@,
        "window_end"@ != "notes"@,
{
    reveal_strlit("window_end");
    reveal_strlit("version");
    reveal_strlit("status");
    reveal_strlit("effective_from");
    reveal_strlit("effective_until");
    reveal_strlit("registered_at");
    reveal_strlit("superseded_by_version");
    reveal_strlit("notes");
    assert("window_end"@.len() != "version"@.len());
    assert("window_end"@.len() != "status"@.len());
    assert("window_end"@.len() != "effective_from"@.len());
    assert("window_end"@.len() != "effective_until"@.len());
    assert("window_end"@.len() != "registered_at"@.len());
    assert("window_end"@.len() != "superseded_by_version"@.len());
    assert("window_end"@.len() != "notes"@.len());
}

/// The members of a binding's wire form bear its fields, each under its
/// name.
pub proof fn bindings_are_shown_by_name(b: BindingView)
    ensures
        binding_tree(b) matches Tree::Obj(m) && {
            let shows = |key: Seq<char>, t: Option<Timestamp>|
                match t {
                    Some(x) => m.dom().contains(key) && m[key] == Tree::Str(
                        time::stamp_text(x.secs as int),
                    ),
                    None => !m.dom().contains(key),
                };
            let says = |key: Seq<char>, s: Option<Seq<char>>|
                match s {
                    Some(x) => m.dom().contains(key) && m[key] == Tree::Str(x),
                    None => !m.dom().contains(key),
                };
            &&& m.dom().contains("id"@) && m["id"@] == Tree::Int(b.id as int)
            &&& says("subject"@, Some(b.subject))
            &&& says("profile_item"@, Some(b.profile_item))
            &&& says("register"@, b.register)
            &&& says("profile_version"@, b.profile_version)
            &&& shows("effective_from"@, b.effective_from)
            &&& shows("effective_until"@, b.effective_until)
            &&& shows("registered_at"@, b.registered_at)
            &&& m.dom().contains("retroactive"@) && m["retroactive"@] == Tree::Bool(b.retroactive)
        },
{
    let m = binding_tree(b)->Obj_0;
    binding_members(b, m);
}

/// The members of an item's wire form bear its fields, each under its name,
/// and its versions in order of their start, each with the end of its
/// window.
pub proof fn items_are_shown_by_name(i: ItemView)
    ensures
        item_tree(i) matches Tree::Obj(m) && {
            let says = |key: Seq<char>, s: Option<Seq<char>>|
                match s {
                    Some(x) => m.dom().contains(key) && m[key] == Tree::Str(x),
                    None => !m.dom().contains(key),
                };
            &&& says("identifier"@, Some(i.identifier))
            &&& says("register"@, Some(i.register))
            &&& says("item_class"@, Some(class_name(i.item_class)))
            &&& says("title"@, Some(i.title))
            &&& says("submitting_organization"@, i.submitting_organization)
            &&& m.dom().contains("versions"@) && (m["versions"@] matches Tree::Arr(a) && a.len()
                == i.versions.len() && forall|k: int|
                0 <= k < a.len() ==> #[trigger] a[k] == version_tree(
                    ordered(i.versions)[k],
                    window_end(i.versions, ordered(i.versions)[k]),
                ))
            &&& match i.manifest {
                Some(x) => m.dom().contains("manifest"@) && m["manifest"@] == x,
                None => !m.dom().contains("manifest"@),
            }
        },
{
    let m = item_tree(i)->Obj_0;
    item_members(i, m);
    ordered_holds(i.versions);
}

/// Versions are listed once each, oldest first: those without a start, then
/// by start, and those that begin together by number.
pub proof fn versions_are_listed_oldest_first(vs: Seq<VersionView>, j: int, k: int)
    requires
        0 <= j < k < vs.len(),
    ensures
        ordered(vs).len() == vs.len(),
        forall|v: VersionView| #[trigger] vs.contains(v) <==> ordered(vs).contains(v),
        match (ordered(vs)[j].effective_from, ordered(vs)[k].effective_from) {
            (Some(f), Some(g)) => f.secs < g.secs || (f.secs == g.secs && !text::before(
                ordered(vs)[k].version,
                ordered(vs)[j].version,
            )),
            (None, Some(_)) => true,
            (Some(_), None) => false,
            (None, None) => !text::before(ordered(vs)[k].version, ordered(vs)[j].version),
        },
{
    ordered_holds(vs);
    ordered_ascends(vs, j, k);
    assert forall|v: VersionView| #[trigger] vs.contains(v) <==> ordered(vs).contains(v) by {
        if ordered(vs).contains(v) {
            let i = ordered(vs).index_of(v);
            assert(vs.contains(ordered(vs)[i]));
        }
    }
}

/// The classes go by these names, in singular and plural, and with
/// underscores for hyphens.
pub proof fn classes_go_by_their_names()
    ensures
        class_name(ItemClass::DataElement) == "data-element"@ && class_plural(ItemClass::DataElement)
            == "data-elements"@,
        class_name(ItemClass::Profile) == "profile"@ && class_plural(ItemClass::Profile)
            == "profiles"@,
        class_name(ItemClass::CryptoSuite) == "crypto-suite"@ && class_plural(ItemClass::CryptoSuite)
            == "crypto-suites"@,
        class_name(ItemClass::Transform) == "transform"@ && class_plural(ItemClass::Transform)
            == "transforms"@,
        class_name(ItemClass::TrustAnchor) == "trust-anchor"@ && class_plural(ItemClass::TrustAnchor)
            == "trust-anchors"@,
        class_name(ItemClass::Unit) == "unit"@ && class_plural(ItemClass::Unit) == "units"@,
        class_name(ItemClass::Model) == "model"@ && class_plural(ItemClass::Model) == "models"@,
        class_name(ItemClass::CrossRegisterMapping) == "cross-register-mapping"@ && class_plural(
            ItemClass::CrossRegisterMapping,
        ) == "cross-register-mappings"@,
{
}

/// A text names a class exactly when, trimmed and with underscores read as
/// hyphens, it is the class's name in singular or plural.
pub proof fn class_texts_are_names(s: Seq<char>)
    ensures
        ({
            let t = Seq::new(
                text::trimmed(s).len(),
                |i: int|
                    if text::trimmed(s)[i] == '_' {
                        '-'
                    } else {
                        text::trimmed(s)[i]
                    },
            );
            match parsed_class(s) {
                Some(ItemClass::DataElement) => t == "data-element"@ || t == "data-elements"@,
                Some(ItemClass::Profile) => t == "profile"@ || t == "profiles"@,
                Some(ItemClass::CryptoSuite) => t == "crypto-suite"@ || t == "crypto-suites"@,
                Some(ItemClass::Transform) => t == "transform"@ || t == "transforms"@,
                Some(ItemClass::TrustAnchor) => t == "trust-anchor"@ || t == "trust-anchors"@,
                Some(ItemClass::Unit) => t == "unit"@ || t == "units"@,
                Some(ItemClass::Model) => t == "model"@ || t == "models"@,
                Some(ItemClass::CrossRegisterMapping) => t == "cross-register-mapping"@ || t
                    == "cross-register-mappings"@,
                None => t != "data-element"@ && t != "data-elements"@ && t != "profile"@ && t
                    != "profiles"@ && t != "crypto-suite"@ && t != "crypto-suites"@ && t != "transform"@
                    && t != "transforms"@ && t != "trust-anchor"@ && t != "trust-anchors"@ && t != "unit"@
                    && t != "units"@ && t != "model"@ && t != "models"@ && t
                    != "cross-register-mapping"@ && t != "cross-register-mappings"@,
            }
        }),
        parsed_status(s) == Some(Status::Valid) ==> text::trimmed(s) == "valid"@,
        parsed_status(s) == Some(Status::Superseded) ==> text::trimmed(s) == "superseded"@,
        parsed_status(s) == Some(Status::Retired) ==> text::trimmed(s) == "retired"@,
        parsed_status(s) is None ==> text::trimmed(s) != "valid"@ && text::trimmed(s)
            != "superseded"@ && text::trimmed(s) != "retired"@,
{
    let t = Seq::new(
        text::trimmed(s).len(),
        |i: int|
            if text::trimmed(s)[i] == '_' {
                '-'
            } else {
                text::trimmed(s)[i]
            },
    );
    assert(t =~= text::swapped(text::trimmed(s), '_', '-'));
}

/// A manifest is pinned exactly when its `version` is the number of a
/// version of the item; an item without a manifest pins nothing.
pub proof fn pinned_to_a_version(i: ItemView)
    ensures
        i.manifest is None ==> pinned(i),
        i.manifest matches Some(x) ==> (pinned(i) <==> (x matches Tree::Obj(m) && m.dom().contains(
            "version"@,
        ) && exists|k: int|
            0 <= k < i.versions.len() && m["version"@] == Tree::Str(
                (#[trigger] i.versions[k]).version,
            ))),
{
    if let Some(x) = i.manifest {
        if let Some(n) = json::get_str(x, "version"@) {
            let names = version_names(i.versions);
            order::index_of_found(names, n);
            if pinned(i) {
                let k = order::index_of(names, n);
                assert(i.versions[k].version == n);
            } else {
                assert forall|k: int| 0 <= k < i.versions.len() implies (
                #[trigger] i.versions[k]).version != n by {
                    assert(names[k] == i.versions[k].version);
                }
            }
        }
    }
}

} // verus!
