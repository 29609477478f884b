//! The intake checks: what an item has to meet to enter the register.
//!
//! Each check is one implementation of [`IntakeCheck`], scoped to an item
//! class and registered once in [`default_chain`]. Errors reject the
//! intake; warnings, which only the satisfiability check gives and only
//! where the intake is not strict, ride along with the registration.

use vstd::prelude::*;
use crate::express;
use crate::express::ValidationStatus;
use crate::json;
use crate::json::{Json, Object, Tree};
use crate::manifest;
use crate::manifest::ProfileManifest;
use crate::mapping;
use crate::model::{Item, ItemClass, ItemView};
use crate::satisfiability;
use crate::satisfiability::{Violation, ViolationView};
use crate::schema;
use crate::schema::{SchemaError, SchemaErrorView};
use crate::store::{Store, StoreView};

verus! {

/// What a check may look at besides the item. Checks look, they never
/// change the store.
pub struct IntakeContext<'a> {
    pub store: &'a Store,
    /// Where this is false, an unsatisfiable demand is a warning.
    pub strict: bool,
}

/// A rejection: where in the item, and why.
#[derive(Debug, PartialEq, Eq)]
pub struct IntakeError {
    pub check: &'static str,
    pub path: String,
    pub message: String,
}

/// A warning: the item is registered, with this note attached.
#[derive(Debug, PartialEq, Eq)]
pub struct IntakeWarning {
    pub check: &'static str,
    pub path: String,
    pub message: String,
}

/// The content of a rejection or a warning.
pub struct NoteView {
    pub check: Seq<char>,
    pub path: Seq<char>,
    pub message: Seq<char>,
}

impl View for IntakeError {
    type V = NoteView;

    open spec fn view(&self) -> NoteView {
        NoteView { check: self.check@, path: self.path@, message: self.message@ }
    }
}

impl View for IntakeWarning {
    type V = NoteView;

    open spec fn view(&self) -> NoteView {
        NoteView { check: self.check@, path: self.path@, message: self.message@ }
    }
}

/// The contents of a sequence of rejections.
pub open spec fn error_notes(s: Seq<IntakeError>) -> Seq<NoteView> {
    s.map_values(|e: IntakeError| e@)
}

/// The contents of a sequence of warnings.
pub open spec fn warning_notes(s: Seq<IntakeWarning>) -> Seq<NoteView> {
    s.map_values(|w: IntakeWarning| w@)
}

/// The wire form of a rejection or a warning.
pub open spec fn note_tree(n: NoteView) -> Tree {
    Tree::Obj(
        Map::<Seq<char>, Tree>::empty().insert("check"@, Tree::Str(n.check)).insert(
            "path"@,
            Tree::Str(n.path),
        ).insert("message"@, Tree::Str(n.message)),
    )
}

/// The wire forms of rejections or warnings.
pub open spec fn note_trees(s: Seq<NoteView>) -> Seq<Tree> {
    s.map_values(|n: NoteView| note_tree(n))
}

/// The wire form of a note.
fn note_json(check: &str, path: &str, message: &str) -> (r: Json)
    ensures
        r@ == note_tree(NoteView { check: check@, path: path@, message: message@ }),
{
    let mut m = Object::new();
    m.put_str("check", check);
    m.put_str("path", path);
    m.put_str("message", message);
    Json::Obj(m)
}

impl IntakeError {
    /// Wire form.
    pub fn to_json(&self) -> (r: Json)
        ensures
            r@ == note_tree(self@),
    {
        note_json(self.check, self.path.as_str(), self.message.as_str())
    }
}

impl IntakeWarning {
    /// Wire form.
    pub fn to_json(&self) -> (r: Json)
        ensures
            r@ == note_tree(self@),
    {
        note_json(self.check, self.path.as_str(), self.message.as_str())
    }
}

/// The wire forms of warnings.
pub fn warnings_list(warnings: &Vec<IntakeWarning>) -> (r: Vec<Json>)
    ensures
        json::trees(r@) == note_trees(warning_notes(warnings@)),
{
    let mut out: Vec<Json> = Vec::new();
    let mut i: usize = 0;
    while i < warnings.len()
        invariant
            i <= warnings@.len(),
            out@.len() == i,
            forall|j: int| 0 <= j < i ==> json::tree(#[trigger] out@[j]) == note_tree(warnings@[j]@),
        decreases warnings@.len() - i,
    {
        out.push(warnings[i].to_json());
        i = i + 1;
    }
    assert(json::trees(out@) =~= note_trees(warning_notes(warnings@)));
    out
}

/// The wire forms of rejections.
pub fn errors_list(errors: &Vec<IntakeError>) -> (r: Vec<Json>)
    ensures
        json::trees(r@) == note_trees(error_notes(errors@)),
{
    let mut out: Vec<Json> = Vec::new();
    let mut i: usize = 0;
    while i < errors.len()
        invariant
            i <= errors@.len(),
            out@.len() == i,
            forall|j: int| 0 <= j < i ==> json::tree(#[trigger] out@[j]) == note_tree(errors@[j]@),
        decreases errors@.len() - i,
    {
        out.push(errors[i].to_json());
        i = i + 1;
    }
    assert(json::trees(out@) =~= note_trees(error_notes(errors@)));
    out
}

/// What a check comes to: warnings, or rejections.
pub open spec fn comes_to(
    r: Result<Vec<IntakeWarning>, Vec<IntakeError>>,
    expected: Result<Seq<NoteView>, Seq<NoteView>>,
) -> bool {
    match r {
        Ok(w) => expected == Ok::<Seq<NoteView>, Seq<NoteView>>(warning_notes(w@)),
        Err(e) => expected == Err::<Seq<NoteView>, Seq<NoteView>>(error_notes(e@)),
    }
}

/// One class-scoped intake check.
pub trait IntakeCheck: Sync {
    /// The name of the check.
    spec fn title(&self) -> Seq<char>;

    /// The class that the check governs.
    spec fn scope(&self) -> Option<ItemClass>;

    /// What the check comes to on an item.
    spec fn verdict(&self, item: ItemView, s: StoreView, strict: bool) -> Result<
        Seq<NoteView>,
        Seq<NoteView>,
    >;

    /// Stable name, given with every error and warning.
    fn name(&self) -> (r: &'static str)
        ensures
            r@ == self.title(),
    ;

    /// The item class this check governs; `None` runs for every class.
    fn class(&self) -> (r: Option<ItemClass>)
        ensures
            r == self.scope(),
    ;

    /// `Err` rejects the intake; `Ok` registers the item with the warnings.
    fn check(&self, item: &Item, ctx: &IntakeContext) -> (r: Result<
        Vec<IntakeWarning>,
        Vec<IntakeError>,
    >)
        ensures
            comes_to(r, self.verdict(item@, ctx.store@, ctx.strict)),
    ;
}

/// Whether a check of a scope runs on an item.
pub open spec fn in_scope(scope: Option<ItemClass>, item: ItemView) -> bool {
    scope matches Some(c) ==> item.item_class == c
}

/// What the first `n` checks of a chain come to: the warnings of those in
/// scope, or the rejections of the first that rejects.
pub open spec fn chain_verdict<C: IntakeCheck>(
    chain: Seq<C>,
    n: int,
    item: ItemView,
    s: StoreView,
    strict: bool,
) -> Result<Seq<NoteView>, Seq<NoteView>>
    decreases n,
{
    if n <= 0 {
        Ok(Seq::empty())
    } else {
        match chain_verdict(chain, n - 1, item, s, strict) {
            Err(e) => Err(e),
            Ok(got) => if !in_scope(chain[n - 1].scope(), item) {
                Ok(got)
            } else {
                match chain[n - 1].verdict(item, s, strict) {
                    Err(e) => Err(e),
                    Ok(more) => Ok(got + more),
                }
            },
        }
    }
}

proof fn chain_verdict_fails<C: IntakeCheck>(
    chain: Seq<C>,
    n: int,
    k: int,
    item: ItemView,
    s: StoreView,
    strict: bool,
)
    requires
        0 <= n <= k,
        chain_verdict(chain, n, item, s, strict) is Err,
    ensures
        chain_verdict(chain, k, item, s, strict) == chain_verdict(chain, n, item, s, strict),
    decreases k - n,
{
    if n < k {
        chain_verdict_fails(chain, n, k - 1, item, s, strict);
    }
}

/// Runs the checks for the class of the item, in the order of the chain.
/// The rejections of the first check that rejects are returned; later ones
/// do not run.
pub fn run<C: IntakeCheck>(chain: &Vec<C>, item: &Item, ctx: &IntakeContext) -> (r: Result<
    Vec<IntakeWarning>,
    Vec<IntakeError>,
>)
    ensures
        comes_to(
            r,
            chain_verdict(chain@, chain@.len() as int, item@, ctx.store@, ctx.strict),
        ),
{
    let mut warnings: Vec<IntakeWarning> = Vec::new();
    let mut i: usize = 0;
    assert(warning_notes(warnings@) =~= Seq::<NoteView>::empty());
    while i < chain.len()
        invariant
            i <= chain@.len(),
            chain_verdict(chain@, i as int, item@, ctx.store@, ctx.strict) == Ok::<
                Seq<NoteView>,
                Seq<NoteView>,
            >(warning_notes(warnings@)),
        decreases chain@.len() - i,
    {
        let c = &chain[i];
        let runs = match c.class() {
            Some(class) => item.item_class == class,
            None => true,
        };
        if runs {
            match c.check(item, ctx) {
                Ok(more) => {
                    let ghost before = warnings@;
                    let mut w = more;
                    let ghost added = w@;
                    warnings.append(&mut w);
                    assert(warning_notes(warnings@) =~= warning_notes(before) + warning_notes(
                        added,
                    ));
                },
                Err(e) => {
                    proof {
                        chain_verdict_fails(
                            chain@,
                            i + 1,
                            chain@.len() as int,
                            item@,
                            ctx.store@,
                            ctx.strict,
                        );
                    }
                    return Err(e);
                },
            }
        }
        i = i + 1;
    }
    Ok(warnings)
}

/// The notes that a check makes of violations of a schema.
pub open spec fn schema_notes(check: Seq<char>, es: Seq<SchemaErrorView>) -> Seq<NoteView> {
    es.map_values(|e: SchemaErrorView| NoteView { check, path: e.path, message: e.message })
}

/// The rejections that a check makes of violations of a schema.
fn reject(check: &'static str, errors: Vec<SchemaError>) -> (r: Vec<IntakeError>)
    ensures
        error_notes(r@) == schema_notes(check@, schema::error_views(errors@)),
{
    let mut out: Vec<IntakeError> = Vec::new();
    let mut i: usize = 0;
    while i < errors.len()
        invariant
            i <= errors@.len(),
            out@.len() == i,
            forall|j: int|
                0 <= j < i ==> (#[trigger] out@[j])@ == (NoteView {
                    check: check@,
                    path: errors@[j].path@,
                    message: errors@[j].message@,
                }),
        decreases errors@.len() - i,
    {
        out.push(
            IntakeError { check, path: errors[i].path.clone(), message: errors[i].message.clone() },
        );
        i = i + 1;
    }
    assert(error_notes(out@) =~= schema_notes(check@, schema::error_views(errors@)));
    out
}

/// The single note of a check about the whole item.
pub open spec fn whole(check: Seq<char>, message: Seq<char>) -> Seq<NoteView> {
    seq![NoteView { check, path: ""@, message }]
}

/// A rejection of the whole item.
fn reject_whole(check: &'static str, message: String) -> (r: Vec<IntakeError>)
    ensures
        error_notes(r@) == whole(check@, message@),
{
    let mut out: Vec<IntakeError> = Vec::new();
    out.push(IntakeError { check, path: "".to_owned(), message });
    assert(error_notes(out@) =~= whole(check@, message@));
    out
}

/// No warnings.
fn no_warnings() -> (r: Vec<IntakeWarning>)
    ensures
        warning_notes(r@) == Seq::<NoteView>::empty(),
{
    let none: Vec<IntakeWarning> = Vec::new();
    assert(warning_notes(none@) =~= Seq::<NoteView>::empty());
    none
}

/// A profile manifest conforms to the generated schema.
pub struct ProfileManifestSchemaCheck;

/// What the schema check comes to.
pub open spec fn schema_verdict(item: ItemView) -> Result<Seq<NoteView>, Seq<NoteView>> {
    match item.manifest {
        None => Ok(Seq::empty()),
        Some(m) => {
            let es = schema::violations(manifest::profile_schema(), m);
            if es.len() == 0 {
                Ok(Seq::empty())
            } else {
                Err(schema_notes("profile-manifest-schema"@, es))
            }
        },
    }
}

impl IntakeCheck for ProfileManifestSchemaCheck {
    open spec fn title(&self) -> Seq<char> {
        "profile-manifest-schema"@
    }

    open spec fn scope(&self) -> Option<ItemClass> {
        Some(ItemClass::Profile)
    }

    open spec fn verdict(&self, item: ItemView, s: StoreView, strict: bool) -> Result<
        Seq<NoteView>,
        Seq<NoteView>,
    > {
        schema_verdict(item)
    }

    fn name(&self) -> (r: &'static str) {
        "profile-manifest-schema"
    }

    fn class(&self) -> (r: Option<ItemClass>) {
        Some(ItemClass::Profile)
    }

    fn check(&self, item: &Item, ctx: &IntakeContext) -> (r: Result<
        Vec<IntakeWarning>,
        Vec<IntakeError>,
    >) {
        match &item.manifest {
            None => Ok(no_warnings()),
            Some(m) => match manifest::validate_manifest(m) {
                Ok(_) => Ok(no_warnings()),
                Err(es) => Err(reject("profile-manifest-schema", es)),
            },
        }
    }
}

/// The capability demands of a profile can be met by its subject class.
pub struct ProfileSatisfiabilityCheck;

/// The notes that the satisfiability check makes of violations.
pub open spec fn demand_notes(vs: Seq<ViolationView>) -> Seq<NoteView> {
    vs.map_values(
        |v: ViolationView|
            NoteView { check: "profile-satisfiability"@, path: v.path, message: v.message },
    )
}

/// What the satisfiability check comes to.
pub open spec fn satisfiability_verdict(item: ItemView, strict: bool) -> Result<
    Seq<NoteView>,
    Seq<NoteView>,
> {
    match item.manifest {
        None => Ok(Seq::empty()),
        Some(m) => match manifest::parsed_manifest(m) {
            Err(e) => Err(whole("profile-satisfiability"@, e)),
            Ok(p) => {
                let vs = satisfiability::violations(p);
                if vs.len() == 0 {
                    Ok(Seq::empty())
                } else if strict {
                    Err(demand_notes(vs))
                } else {
                    Ok(demand_notes(vs))
                }
            },
        },
    }
}

/// The rejections for unsatisfiable demands.
fn reject_demands(vs: &Vec<Violation>) -> (r: Vec<IntakeError>)
    ensures
        error_notes(r@) == demand_notes(satisfiability::violation_views(vs@)),
{
    let mut out: Vec<IntakeError> = Vec::new();
    let mut i: usize = 0;
    while i < vs.len()
        invariant
            i <= vs@.len(),
            out@.len() == i,
            forall|j: int|
                0 <= j < i ==> (#[trigger] out@[j])@ == (NoteView {
                    check: "profile-satisfiability"@,
                    path: vs@[j].path@,
                    message: vs@[j].message@,
                }),
        decreases vs@.len() - i,
    {
        out.push(
            IntakeError {
                check: "profile-satisfiability",
                path: vs[i].path.clone(),
                message: vs[i].message.clone(),
            },
        );
        i = i + 1;
    }
    assert(error_notes(out@) =~= demand_notes(satisfiability::violation_views(vs@)));
    out
}

/// The warnings for unsatisfiable demands.
fn warn_demands(vs: &Vec<Violation>) -> (r: Vec<IntakeWarning>)
    ensures
        warning_notes(r@) == demand_notes(satisfiability::violation_views(vs@)),
{
    let mut out: Vec<IntakeWarning> = Vec::new();
    let mut i: usize = 0;
    while i < vs.len()
        invariant
            i <= vs@.len(),
            out@.len() == i,
            forall|j: int|
                0 <= j < i ==> (#[trigger] out@[j])@ == (NoteView {
                    check: "profile-satisfiability"@,
                    path: vs@[j].path@,
                    message: vs@[j].message@,
                }),
        decreases vs@.len() - i,
    {
        out.push(
            IntakeWarning {
                check: "profile-satisfiability",
                path: vs[i].path.clone(),
                message: vs[i].message.clone(),
            },
        );
        i = i + 1;
    }
    assert(warning_notes(out@) =~= demand_notes(satisfiability::violation_views(vs@)));
    out
}

impl IntakeCheck for ProfileSatisfiabilityCheck {
    open spec fn title(&self) -> Seq<char> {
        "profile-satisfiability"@
    }

    open spec fn scope(&self) -> Option<ItemClass> {
        Some(ItemClass::Profile)
    }

    open spec fn verdict(&self, item: ItemView, s: StoreView, strict: bool) -> Result<
        Seq<NoteView>,
        Seq<NoteView>,
    > {
        satisfiability_verdict(item, strict)
    }

    fn name(&self) -> (r: &'static str) {
        "profile-satisfiability"
    }

    fn class(&self) -> (r: Option<ItemClass>) {
        Some(ItemClass::Profile)
    }

    fn check(&self, item: &Item, ctx: &IntakeContext) -> (r: Result<
        Vec<IntakeWarning>,
        Vec<IntakeError>,
    >) {
        let m = match &item.manifest {
            None => return Ok(no_warnings()),
            Some(m) => m,
        };
        let parsed = match ProfileManifest::from_json(m) {
            Ok(p) => p,
            Err(e) => return Err(reject_whole("profile-satisfiability", e)),
        };
        match satisfiability::check(&parsed) {
            Ok(_) => Ok(no_warnings()),
            Err(vs) => {
                if ctx.strict {
                    Err(reject_demands(&vs))
                } else {
                    Ok(warn_demands(&vs))
                }
            },
        }
    }
}

/// A mapping manifest has its shape, and both its ends resolve.
pub struct CrossRegisterMappingCheck;

/// The name of the mapping check.
pub open spec fn mapping_title() -> Seq<char> {
    "cross-register-mapping-integrity"@
}

/// What the mapping check comes to.
pub open spec fn mapping_verdict(item: ItemView, s: StoreView) -> Result<Seq<NoteView>, Seq<NoteView>> {
    match item.manifest {
        None => Err(
            whole(
                mapping_title(),
                "a cross-register mapping requires a manifest (source, target, mapping_type)"@,
            ),
        ),
        Some(m) => {
            let es = schema::violations(mapping::mapping_schema(), m);
            let parsed = mapping::parsed_mapping(m);
            let dangling = mapping::mapping_errors(s, parsed->Ok_0);
            if es.len() > 0 {
                Err(schema_notes(mapping_title(), es))
            } else if parsed is Err {
                Err(whole(mapping_title(), parsed->Err_0))
            } else if dangling.len() > 0 {
                Err(schema_notes(mapping_title(), dangling))
            } else {
                Ok(Seq::empty())
            }
        },
    }
}

impl IntakeCheck for CrossRegisterMappingCheck {
    open spec fn title(&self) -> Seq<char> {
        mapping_title()
    }

    open spec fn scope(&self) -> Option<ItemClass> {
        Some(ItemClass::CrossRegisterMapping)
    }

    open spec fn verdict(&self, item: ItemView, s: StoreView, strict: bool) -> Result<
        Seq<NoteView>,
        Seq<NoteView>,
    > {
        mapping_verdict(item, s)
    }

    fn name(&self) -> (r: &'static str) {
        "cross-register-mapping-integrity"
    }

    fn class(&self) -> (r: Option<ItemClass>) {
        Some(ItemClass::CrossRegisterMapping)
    }

    fn check(&self, item: &Item, ctx: &IntakeContext) -> (r: Result<
        Vec<IntakeWarning>,
        Vec<IntakeError>,
    >) {
        let m = match &item.manifest {
            Some(m) => m,
            None => return Err(
                reject_whole(
                    "cross-register-mapping-integrity",
                    "a cross-register mapping requires a manifest (source, target, mapping_type)".to_owned(),
                ),
            ),
        };
        if let Err(es) = mapping::validate_manifest(m) {
            return Err(reject("cross-register-mapping-integrity", es));
        }
        let parsed = match mapping::parse(m) {
            Ok(p) => p,
            Err(e) => return Err(reject_whole("cross-register-mapping-integrity", e)),
        };
        let errors = mapping::integrity_errors(&parsed, ctx.store);
        assert(schema::error_views(errors@).len() == errors@.len());
        if errors.len() == 0 {
            Ok(no_warnings())
        } else {
            Err(reject("cross-register-mapping-integrity", errors))
        }
    }
}

/// The registered checks, one variant each.
pub enum RegisteredCheck {
    Schema(ProfileManifestSchemaCheck),
    Satisfiability(ProfileSatisfiabilityCheck),
    Mapping(CrossRegisterMappingCheck),
}

impl IntakeCheck for RegisteredCheck {
    open spec fn title(&self) -> Seq<char> {
        match self {
            RegisteredCheck::Schema(c) => c.title(),
            RegisteredCheck::Satisfiability(c) => c.title(),
            RegisteredCheck::Mapping(c) => c.title(),
        }
    }

    open spec fn scope(&self) -> Option<ItemClass> {
        match self {
            RegisteredCheck::Schema(c) => c.scope(),
            RegisteredCheck::Satisfiability(c) => c.scope(),
            RegisteredCheck::Mapping(c) => c.scope(),
        }
    }

    open spec fn verdict(&self, item: ItemView, s: StoreView, strict: bool) -> Result<
        Seq<NoteView>,
        Seq<NoteView>,
    > {
        match self {
            RegisteredCheck::Schema(c) => c.verdict(item, s, strict),
            RegisteredCheck::Satisfiability(c) => c.verdict(item, s, strict),
            RegisteredCheck::Mapping(c) => c.verdict(item, s, strict),
        }
    }

    fn name(&self) -> (r: &'static str) {
        match self {
            RegisteredCheck::Schema(c) => c.name(),
            RegisteredCheck::Satisfiability(c) => c.name(),
            RegisteredCheck::Mapping(c) => c.name(),
        }
    }

    fn class(&self) -> (r: Option<ItemClass>) {
        match self {
            RegisteredCheck::Schema(c) => c.class(),
            RegisteredCheck::Satisfiability(c) => c.class(),
            RegisteredCheck::Mapping(c) => c.class(),
        }
    }

    fn check(&self, item: &Item, ctx: &IntakeContext) -> (r: Result<
        Vec<IntakeWarning>,
        Vec<IntakeError>,
    >) {
        match self {
            RegisteredCheck::Schema(c) => c.check(item, ctx),
            RegisteredCheck::Satisfiability(c) => c.check(item, ctx),
            RegisteredCheck::Mapping(c) => c.check(item, ctx),
        }
    }
}

/// What the registered checks come to on an item.
pub open spec fn intake_verdict(item: ItemView, s: StoreView, strict: bool) -> Result<
    Seq<NoteView>,
    Seq<NoteView>,
> {
    match item.item_class {
        ItemClass::Profile => match schema_verdict(item) {
            Err(e) => Err(e),
            Ok(_) => satisfiability_verdict(item, strict),
        },
        ItemClass::CrossRegisterMapping => mapping_verdict(item, s),
        _ => Ok(Seq::empty()),
    }
}

/// The registered checks. New ones are appended here.
pub fn default_chain() -> (r: Vec<RegisteredCheck>)
    ensures
        forall|item: ItemView, s: StoreView, strict: bool| #[trigger]
            chain_verdict(r@, r@.len() as int, item, s, strict) == intake_verdict(item, s, strict),
{
    let mut chain: Vec<RegisteredCheck> = Vec::new();
    chain.push(RegisteredCheck::Schema(ProfileManifestSchemaCheck));
    chain.push(RegisteredCheck::Satisfiability(ProfileSatisfiabilityCheck));
    chain.push(RegisteredCheck::Mapping(CrossRegisterMappingCheck));
    assert forall|item: ItemView, s: StoreView, strict: bool| #[trigger]
        chain_verdict(chain@, chain@.len() as int, item, s, strict) == intake_verdict(
            item,
            s,
            strict,
        ) by {
        assert(chain@[0].verdict(item, s, strict) == schema_verdict(item));
        assert(chain@[1].verdict(item, s, strict) == satisfiability_verdict(item, strict));
        assert(chain@[2].verdict(item, s, strict) == mapping_verdict(item, s));
        assert(chain@[0].scope() == Some(ItemClass::Profile));
        reveal_with_fuel(chain_verdict, 4);
        let none = Seq::<NoteView>::empty();
        assert(none + none =~= none);
        if let Ok(w) = satisfiability_verdict(item, strict) {
            assert(none + w =~= w);
        }
        if let Ok(w) = mapping_verdict(item, s) {
            assert(none + w =~= w);
        }
    }
    chain
}

/// Leniency turns rejections for unsatisfiable demands into warnings, and
/// changes nothing else: what is accepted strictly is accepted without a
/// warning, what is accepted with warnings is rejected for them strictly,
/// and what is rejected leniently is rejected the same way strictly.
pub proof fn leniency_turns_demands_into_warnings(item: ItemView, s: StoreView)
    ensures
        intake_verdict(item, s, true) matches Ok(w) ==> w.len() == 0 && intake_verdict(
            item,
            s,
            false,
        ) == intake_verdict(item, s, true),
        intake_verdict(item, s, false) matches Ok(w) ==> w.len() > 0 ==> intake_verdict(
            item,
            s,
            true,
        ) == Err::<Seq<NoteView>, Seq<NoteView>>(w),
        intake_verdict(item, s, false) is Err ==> intake_verdict(item, s, true) == intake_verdict(
            item,
            s,
            false,
        ),
{
}

/// An item of a class that no check governs is accepted as it is.
pub proof fn ungoverned_classes_pass(item: ItemView, s: StoreView, strict: bool)
    requires
        item.item_class != ItemClass::Profile,
        item.item_class != ItemClass::CrossRegisterMapping,
    ensures
        intake_verdict(item, s, strict) == Ok::<Seq<NoteView>, Seq<NoteView>>(Seq::empty()),
{
}

/// A mapping is accepted exactly when its manifest conforms to the schema,
/// parses, and names two items that exist.
pub proof fn mapping_accepted_iff_ends_exist(item: ItemView, s: StoreView, strict: bool)
    requires
        item.item_class == ItemClass::CrossRegisterMapping,
    ensures
        intake_verdict(item, s, strict) is Ok <==> (item.manifest matches Some(m)
            && schema::violations(mapping::mapping_schema(), m).len() == 0 && (
        mapping::parsed_mapping(m) matches Ok(p) && mapping::resolves(s, p.source)
            && mapping::resolves(s, p.target))),
{
    if let Some(m) = item.manifest {
        if let Ok(p) = mapping::parsed_mapping(m) {
            mapping::sound_iff_both_ends_resolve(s, p);
        }
    }
}

/// What the validation status of a model item is: the one its deposit
/// manifest bears, or pending.
pub open spec fn validation_status(item: ItemView) -> ValidationStatus {
    match item.manifest {
        None => ValidationStatus::Pending,
        Some(m) => match express::parsed_deposit(m) {
            Ok(d) => d.validation.status,
            Err(_) => ValidationStatus::Pending,
        },
    }
}

/// Reads the validation status of a model item from its manifest.
pub fn model_validation_status(item: &Item) -> (r: ValidationStatus)
    ensures
        r == validation_status(item@),
{
    match &item.manifest {
        None => ValidationStatus::Pending,
        Some(m) => match express::deposit_from_manifest(m) {
            Ok(d) => d.validation.status,
            Err(_) => ValidationStatus::Pending,
        },
    }
}

/// Each demand of a profile that its subject cannot serve is noted at its
/// place and with its reason: leniently as a warning, strictly as a
/// rejection.
pub proof fn every_excess_is_noted(item: ItemView, s: StoreView, m: Tree, p: manifest::ManifestView, k: int)
    requires
        item.item_class == ItemClass::Profile,
        item.manifest == Some(m),
        schema::violations(manifest::profile_schema(), m).len() == 0,
        manifest::parsed_manifest(m) == Ok::<manifest::ManifestView, Seq<char>>(p),
        0 <= k < satisfiability::violations(p).len(),
    ensures
        intake_verdict(item, s, false) matches Ok(w) && w.len() == satisfiability::violations(p).len()
            && w[k].check == "profile-satisfiability"@ && w[k].path == satisfiability::violations(
            p,
        )[k].path && w[k].message == satisfiability::violations(p)[k].message,
        intake_verdict(item, s, true) matches Err(e) && e.len() == satisfiability::violations(p).len()
            && e[k].check == "profile-satisfiability"@ && e[k].path == satisfiability::violations(
            p,
        )[k].path && e[k].message == satisfiability::violations(p)[k].message,
{
}

} // verus!
