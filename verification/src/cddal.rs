//! CDDAL: the canonical plain-text serialization of registry items.
//!
//! Two mirrors of the same item version produce byte-identical canonical
//! forms, so that comparing hosts reduces to hashing:
//!
//! - one `TERM` block per item, fields in a fixed order, LF line endings,
//!   two-space field indent;
//! - values are single logical lines; `\`, LF and CR are escaped;
//! - no serving metadata.
//!
//! [`parse`] reads the form back into [`TermEntry`]; what [`render`] wrote
//! of sound entries it reads back unchanged ([`document_round_trip`]).

use vstd::prelude::*;
use crate::fields;
use crate::json;
use crate::json::{Json, Tree};
use crate::model;
use crate::model::{Item, ItemClass, ItemView, Status, VersionView};
use crate::order;
use crate::text;
use crate::time;
use crate::time::Timestamp;

verus! {

/// The media type of the canonical plain-text form.
pub const MEDIA_TYPE: &'static str = "text/cddal";

/// The warning header set when an unknown `Accept` falls back to JSON.
pub const FALLBACK_HEADER: &'static str = "x-content-negotiation";

/// The warning value: nothing in `Accept` was servable.
pub const FALLBACK_VALUE: &'static str = "unknown-accept-fallback";

/// The field keys, in canonical order.
pub const FIELDS: [&'static str; 13] = [
    "irdi",
    "register",
    "class",
    "name",
    "definition",
    "submitting_organization",
    "representation",
    "unit",
    "unit_symbol",
    "version",
    "status",
    "effective_from",
    "registered_at",
];

/// The resolved version carried by a term block.
#[derive(Debug, PartialEq, Eq)]
pub struct VersionEntry {
    pub version: String,
    pub status: String,
    pub effective_from: Option<String>,
    pub registered_at: Option<String>,
}

/// One dictionary term block: the projection of a registry item.
#[derive(Debug, PartialEq, Eq)]
pub struct TermEntry {
    pub identifier: String,
    /// IRDI, when the item's manifest carries one.
    pub irdi: Option<String>,
    pub register: String,
    /// Canonical item-class name.
    pub item_class: String,
    /// The dictionary name: the manifest's `name`, else the title.
    pub name: String,
    /// The definition slot: the title.
    pub definition: String,
    pub submitting_organization: Option<String>,
    /// Data elements: the raw representation notation.
    pub representation: Option<String>,
    /// Data elements: the unit reference.
    pub unit: Option<String>,
    /// Units: the unit symbol.
    pub unit_symbol: Option<String>,
    /// The resolved version; `None` when nothing is in force.
    pub version: Option<VersionEntry>,
}

/// The content of a version entry.
pub struct VersionEntryView {
    pub version: Seq<char>,
    pub status: Seq<char>,
    pub effective_from: Option<Seq<char>>,
    pub registered_at: Option<Seq<char>>,
}

/// The content of a term entry.
pub struct TermView {
    pub identifier: Seq<char>,
    pub irdi: Option<Seq<char>>,
    pub register: Seq<char>,
    pub item_class: Seq<char>,
    pub name: Seq<char>,
    pub definition: Seq<char>,
    pub submitting_organization: Option<Seq<char>>,
    pub representation: Option<Seq<char>>,
    pub unit: Option<Seq<char>>,
    pub unit_symbol: Option<Seq<char>>,
    pub version: Option<VersionEntryView>,
}

impl View for VersionEntry {
    type V = VersionEntryView;

    open spec fn view(&self) -> VersionEntryView {
        VersionEntryView {
            version: self.version@,
            status: self.status@,
            effective_from: text::opt_view(self.effective_from),
            registered_at: text::opt_view(self.registered_at),
        }
    }
}

impl View for TermEntry {
    type V = TermView;

    open spec fn view(&self) -> TermView {
        TermView {
            identifier: self.identifier@,
            irdi: text::opt_view(self.irdi),
            register: self.register@,
            item_class: self.item_class@,
            name: self.name@,
            definition: self.definition@,
            submitting_organization: text::opt_view(self.submitting_organization),
            representation: text::opt_view(self.representation),
            unit: text::opt_view(self.unit),
            unit_symbol: text::opt_view(self.unit_symbol),
            version: match self.version {
                Some(v) => Some(v@),
                None => None,
            },
        }
    }
}

/// The contents of a sequence of entries.
pub open spec fn term_views(s: Seq<TermEntry>) -> Seq<TermView> {
    s.map_values(|e: TermEntry| e@)
}

/// The text of the manifest's member `key`, where it is not empty.
pub open spec fn slot(manifest: Option<Tree>, key: Seq<char>) -> Option<Seq<char>> {
    match manifest {
        Some(m) => match json::get_str(m, key) {
            Some(s) => if s.len() > 0 {
                Some(s)
            } else {
                None
            },
            None => None,
        },
        None => None,
    }
}

/// The first of two texts that is there.
pub open spec fn either(a: Option<Seq<char>>, b: Option<Seq<char>>) -> Option<Seq<char>> {
    match a {
        Some(x) => Some(x),
        None => b,
    }
}

/// An instant in canonical notation.
pub open spec fn stamp_of(t: Option<Timestamp>) -> Option<Seq<char>> {
    match t {
        Some(x) => Some(time::stamp_text(x.secs as int)),
        None => None,
    }
}

/// The projection of a version.
pub open spec fn version_entry(v: VersionView) -> VersionEntryView {
    VersionEntryView {
        version: v.version,
        status: model::status_name(v.status),
        effective_from: stamp_of(v.effective_from),
        registered_at: stamp_of(v.registered_at),
    }
}

/// The version that a reading resolves to: the one in force at `at`, or
/// without an instant the current one.
pub open spec fn resolved(item: ItemView, at: Option<Timestamp>) -> Option<VersionView> {
    match at {
        Some(t) => model::in_force(item.versions, t),
        None => model::current(item.versions),
    }
}

/// The projection of an item.
pub open spec fn term_of(item: ItemView, at: Option<Timestamp>) -> TermView {
    let element = item.item_class == ItemClass::DataElement;
    TermView {
        identifier: item.identifier,
        irdi: slot(item.manifest, "irdi"@),
        register: item.register,
        item_class: model::class_name(item.item_class),
        name: match slot(item.manifest, "name"@) {
            Some(s) => s,
            None => item.title,
        },
        definition: item.title,
        submitting_organization: item.submitting_organization,
        representation: if element {
            slot(item.manifest, "representation"@)
        } else {
            None
        },
        unit: if element {
            either(
                slot(item.manifest, "unit"@),
                either(slot(item.manifest, "required_unit"@), slot(item.manifest, "unit_ref"@)),
            )
        } else {
            None
        },
        unit_symbol: if item.item_class == ItemClass::Unit {
            slot(item.manifest, "symbol"@)
        } else {
            None
        },
        version: match resolved(item, at) {
            Some(v) => Some(version_entry(v)),
            None => None,
        },
    }
}

/// Reads a slot of a manifest.
fn read_slot(manifest: &Option<Json>, key: &str) -> (r: Option<String>)
    ensures
        text::opt_view(r) == slot(fields::opt_tree(*manifest), key@),
{
    if let Some(m) = manifest {
        if let Some(s) = m.get_str(key) {
            if !s.is_empty() {
                return Some(s.to_owned());
            }
        }
    }
    None
}

/// An instant in canonical notation.
fn stamp_text(t: Option<Timestamp>) -> (r: Option<String>)
    ensures
        text::opt_view(r) == stamp_of(t),
{
    match t {
        Some(x) => Some(x.to_string()),
        None => None,
    }
}

/// `v` with every `\`, LF and CR escaped.
pub open spec fn escaped(v: Seq<char>) -> Seq<char>
    decreases v.len(),
{
    if v.len() == 0 {
        Seq::empty()
    } else {
        escaped(v.drop_last()) + escaped_char(v.last())
    }
}

/// How a character is written in a value.
pub open spec fn escaped_char(c: char) -> Seq<char> {
    if c == '\\' {
        seq!['\\', '\\']
    } else if c == '\n' {
        seq!['\\', 'n']
    } else if c == '\r' {
        seq!['\\', 'r']
    } else {
        seq![c]
    }
}

/// A field line.
pub open spec fn field_line(key: Seq<char>, value: Seq<char>) -> Seq<char> {
    "  "@ + key + ": "@ + escaped(value)
}

/// `lines` with the line of a field, if the field is there.
pub open spec fn with_field(
    lines: Seq<(Seq<char>, Seq<char>)>,
    key: Seq<char>,
    value: Option<Seq<char>>,
) -> Seq<(Seq<char>, Seq<char>)> {
    match value {
        Some(v) => lines.push((key, v)),
        None => lines,
    }
}

/// The fields of an entry up to its version.
pub open spec fn head_fields(t: TermView) -> Seq<(Seq<char>, Seq<char>)> {
    let f = with_field(Seq::empty(), "irdi"@, t.irdi);
    let f = f.push(("register"@, t.register));
    let f = f.push(("class"@, t.item_class));
    let f = f.push(("name"@, t.name));
    let f = f.push(("definition"@, t.definition));
    let f = with_field(f, "submitting_organization"@, t.submitting_organization);
    let f = with_field(f, "representation"@, t.representation);
    let f = with_field(f, "unit"@, t.unit);
    with_field(f, "unit_symbol"@, t.unit_symbol)
}

/// The fields of an entry that are there, in canonical order.
pub open spec fn term_fields(t: TermView) -> Seq<(Seq<char>, Seq<char>)> {
    match t.version {
        Some(v) => {
            let f = head_fields(t).push(("version"@, v.version));
            let f = f.push(("status"@, v.status));
            let f = with_field(f, "effective_from"@, v.effective_from);
            with_field(f, "registered_at"@, v.registered_at)
        },
        None => head_fields(t),
    }
}

/// The lines of fields, each with its line end.
pub open spec fn field_text(f: Seq<(Seq<char>, Seq<char>)>) -> Seq<char>
    decreases f.len(),
{
    if f.len() == 0 {
        Seq::empty()
    } else {
        field_text(f.drop_last()) + field_line(f.last().0, f.last().1) + seq!['\n']
    }
}

/// The canonical block of an entry.
pub open spec fn term_text(t: TermView) -> Seq<char> {
    "TERM "@ + t.identifier + seq!['\n'] + field_text(term_fields(t)) + "END\n"@
}

/// The canonical document of a sequence of entries.
pub open spec fn document(ts: Seq<TermView>) -> Seq<char>
    decreases ts.len(),
{
    if ts.len() == 0 {
        Seq::empty()
    } else {
        document(ts.drop_last()) + term_text(ts.last())
    }
}

/// Appends a value with its escapes.
pub fn escape_value(s: &str, out: &mut String)
    ensures
        final(out)@ == old(out)@ + escaped(s@),
{
    let v = text::chars(s);
    let ghost before = out@;
    let mut i: usize = 0;
    assert(out@ =~= before + escaped(s@.take(0)));
    while i < v.len()
        invariant
            v@ == s@,
            i <= v@.len(),
            out@ == before + escaped(s@.take(i as int)),
        decreases v@.len() - i,
    {
        let c = v[i];
        let ghost now = out@;
        if c == '\\' {
            out.push('\\');
            out.push('\\');
        } else if c == '\n' {
            out.push('\\');
            out.push('n');
        } else if c == '\r' {
            out.push('\\');
            out.push('r');
        } else {
            out.push(c);
        }
        assert(out@ =~= now + escaped_char(c));
        i = i + 1;
        assert(s@.take(i as int).drop_last() =~= s@.take(i - 1));
        assert(before + (escaped(s@.take(i - 1)) + escaped_char(c)) =~= before + escaped(
            s@.take(i - 1),
        ) + escaped_char(c));
    }
    assert(s@.take(i as int) =~= s@);
}

/// Appends a field line.
fn write_field(out: &mut String, key: &str, value: &str)
    ensures
        final(out)@ == old(out)@ + (field_line(key@, value@) + seq!['\n']),
{
    out.append("  ");
    out.append(key);
    out.append(": ");
    escape_value(value, out);
    out.push('\n');
    assert(out@ =~= old(out)@ + (field_line(key@, value@) + seq!['\n']));
}

/// One more field adds its line.
proof fn field_text_push(f: Seq<(Seq<char>, Seq<char>)>, key: Seq<char>, value: Seq<char>)
    ensures
        field_text(f.push((key, value))) == field_text(f) + (field_line(key, value) + seq!['\n']),
{
    assert(f.push((key, value)).drop_last() =~= f);
    assert(field_text(f) + field_line(key, value) + seq!['\n'] =~= field_text(f) + (field_line(
        key,
        value,
    ) + seq!['\n']));
}

/// Writes a field that follows the fields `f`.
fn next_field(out: &mut String, key: &str, value: &str, Ghost(head): Ghost<Seq<char>>, Ghost(f): Ghost<Seq<(Seq<char>, Seq<char>)>>)
    requires
        old(out)@ == head + field_text(f),
    ensures
        final(out)@ == head + field_text(f.push((key@, value@))),
{
    write_field(out, key, value);
    proof {
        field_text_push(f, key@, value@);
        assert(head + field_text(f) + (field_line(key@, value@) + seq!['\n']) =~= head + (field_text(f) + (
        field_line(key@, value@) + seq!['\n'])));
    }
}

/// Writes a field that follows the fields `f`, if it is there.
fn next_field_opt(out: &mut String, key: &str, value: &Option<String>, Ghost(head): Ghost<Seq<char>>, Ghost(f): Ghost<Seq<(Seq<char>, Seq<char>)>>)
    requires
        old(out)@ == head + field_text(f),
    ensures
        final(out)@ == head + field_text(with_field(f, key@, text::opt_view(*value))),
{
    if let Some(v) = value {
        next_field(out, key, v.as_str(), Ghost(head), Ghost(f));
    }
}

impl TermEntry {
    /// Projects an item into its term entry, resolving the version: with
    /// `at` the one in force at that instant, without it the current one.
    pub fn of(item: &Item, at: Option<Timestamp>) -> (r: TermEntry)
        ensures
            r@ == term_of(item@, at),
    {
        let m = &item.manifest;
        let (representation, unit, unit_symbol) = match item.item_class {
            ItemClass::DataElement => {
                let unit = match read_slot(m, "unit") {
                    Some(s) => Some(s),
                    None => match read_slot(m, "required_unit") {
                        Some(s) => Some(s),
                        None => read_slot(m, "unit_ref"),
                    },
                };
                (read_slot(m, "representation"), unit, None)
            },
            ItemClass::Unit => (None, None, read_slot(m, "symbol")),
            _ => (None, None, None),
        };
        let found = match at {
            Some(t) => item.in_force_at(t),
            None => item.current_version(),
        };
        let version = match found {
            Some(v) => Some(
                VersionEntry {
                    version: v.version.clone(),
                    status: v.status.as_str().to_owned(),
                    effective_from: stamp_text(v.effective_from),
                    registered_at: stamp_text(v.registered_at),
                },
            ),
            None => None,
        };
        let name = match read_slot(m, "name") {
            Some(s) => s,
            None => item.title.clone(),
        };
        TermEntry {
            identifier: item.identifier.clone(),
            irdi: read_slot(m, "irdi"),
            register: item.register.clone(),
            item_class: item.item_class.as_str().to_owned(),
            name,
            definition: item.title.clone(),
            submitting_organization: fields::clone_text(&item.submitting_organization),
            representation,
            unit,
            unit_symbol,
            version,
        }
    }

    /// Appends the canonical block for this entry: the `TERM` line, the
    /// fields that are there in [`FIELDS`] order, the `END` line.
    pub fn render_into(&self, out: &mut String)
        ensures
            final(out)@ == old(out)@ + term_text(self@),
    {
        let ghost t = self@;
        out.append("TERM ");
        out.append(self.identifier.as_str());
        out.push('\n');
        let ghost head = out@;
        let ghost f = Seq::<(Seq<char>, Seq<char>)>::empty();
        assert(out@ =~= head + field_text(f));
        next_field_opt(out, "irdi", &self.irdi, Ghost(head), Ghost(f));
        let ghost f = with_field(f, "irdi"@, t.irdi);
        next_field(out, "register", self.register.as_str(), Ghost(head), Ghost(f));
        let ghost f = f.push(("register"@, t.register));
        next_field(out, "class", self.item_class.as_str(), Ghost(head), Ghost(f));
        let ghost f = f.push(("class"@, t.item_class));
        next_field(out, "name", self.name.as_str(), Ghost(head), Ghost(f));
        let ghost f = f.push(("name"@, t.name));
        next_field(out, "definition", self.definition.as_str(), Ghost(head), Ghost(f));
        let ghost f = f.push(("definition"@, t.definition));
        next_field_opt(out, "submitting_organization", &self.submitting_organization, Ghost(head), Ghost(f));
        let ghost f = with_field(f, "submitting_organization"@, t.submitting_organization);
        next_field_opt(out, "representation", &self.representation, Ghost(head), Ghost(f));
        let ghost f = with_field(f, "representation"@, t.representation);
        next_field_opt(out, "unit", &self.unit, Ghost(head), Ghost(f));
        let ghost f = with_field(f, "unit"@, t.unit);
        next_field_opt(out, "unit_symbol", &self.unit_symbol, Ghost(head), Ghost(f));
        let ghost f = with_field(f, "unit_symbol"@, t.unit_symbol);
        assert(f == head_fields(t));
        if let Some(v) = &self.version {
            next_field(out, "version", v.version.as_str(), Ghost(head), Ghost(f));
            let ghost f = f.push(("version"@, v.version@));
            next_field(out, "status", v.status.as_str(), Ghost(head), Ghost(f));
            let ghost f = f.push(("status"@, v.status@));
            next_field_opt(out, "effective_from", &v.effective_from, Ghost(head), Ghost(f));
            let ghost f = with_field(f, "effective_from"@, text::opt_view(v.effective_from));
            next_field_opt(out, "registered_at", &v.registered_at, Ghost(head), Ghost(f));
        }
        assert(out@ == head + field_text(term_fields(t)));
        out.append("END\n");
        assert(out@ =~= old(out)@ + term_text(t));
    }
}

/// Renders a whole document, blocks in the given order.
pub fn render(entries: &[TermEntry]) -> (r: String)
    ensures
        r@ == document(term_views(entries@)),
{
    let mut out = String::new();
    let ghost all = term_views(entries@);
    let mut i: usize = 0;
    while i < entries.len()
        invariant
            i <= entries@.len(),
            all == term_views(entries@),
            out@ == document(all.take(i as int)),
        decreases entries@.len() - i,
    {
        entries[i].render_into(&mut out);
        assert(all.take(i + 1).drop_last() =~= all.take(i as int));
        assert(all.take(i + 1).last() == entries@[i as int]@);
        i = i + 1;
    }
    assert(all.take(i as int) =~= all);
    out
}

/// `r` with `p` put before what it holds.
pub open spec fn preceded(p: Seq<char>, r: Result<Seq<char>, Seq<char>>) -> Result<
    Seq<char>,
    Seq<char>,
> {
    match r {
        Ok(s) => Ok(p + s),
        Err(e) => Err(e),
    }
}

/// A value without its escapes; the first escape that is none is an error.
pub open spec fn unescaped(s: Seq<char>) -> Result<Seq<char>, Seq<char>>
    decreases s.len(),
{
    if s.len() == 0 {
        Ok(Seq::empty())
    } else if s[0] != '\\' {
        preceded(seq![s[0]], unescaped(s.skip(1)))
    } else if s.len() == 1 {
        Err("trailing escape at end of value"@)
    } else if s[1] == '\\' {
        preceded(seq!['\\'], unescaped(s.skip(2)))
    } else if s[1] == 'n' {
        preceded(seq!['\n'], unescaped(s.skip(2)))
    } else if s[1] == 'r' {
        preceded(seq!['\r'], unescaped(s.skip(2)))
    } else {
        Err("invalid escape `\\"@ + seq![s[1]] + "`"@)
    }
}

/// Undoes the escapes of a value.
pub fn unescape_value(s: &str) -> (r: Result<String, String>)
    ensures
        match r {
            Ok(v) => unescaped(s@) == Ok::<Seq<char>, Seq<char>>(v@),
            Err(e) => unescaped(s@) == Err::<Seq<char>, Seq<char>>(e@),
        },
{
    let v = text::chars(s);
    let mut out = String::new();
    let mut i: usize = 0;
    assert(v@.skip(0) =~= s@);
    proof {
        preceded_nothing(unescaped(s@));
    }
    while i < v.len()
        invariant
            v@ == s@,
            i <= v@.len(),
            unescaped(s@) == preceded(out@, unescaped(v@.skip(i as int))),
        decreases v@.len() - i,
    {
        let ghost rest = v@.skip(i as int);
        let ghost done = out@;
        let c = v[i];
        assert(rest[0] == c);
        if c != '\\' {
            out.push(c);
            assert(rest.skip(1) =~= v@.skip(i + 1));
            proof {
                preceded_twice(done, seq![c], unescaped(v@.skip(i + 1)));
                assert(done + seq![c] =~= out@);
            }
            i = i + 1;
        } else {
            if i + 1 >= v.len() {
                return Err("trailing escape at end of value".to_owned());
            }
            let d = v[i + 1];
            assert(rest[1] == d);
            let plain = if d == '\\' {
                '\\'
            } else if d == 'n' {
                '\n'
            } else if d == 'r' {
                '\r'
            } else {
                let mut e = "invalid escape `\\".to_owned();
                e.push(d);
                e.append("`");
                assert(e@ =~= "invalid escape `\\"@ + seq![d] + "`"@);
                return Err(e);
            };
            out.push(plain);
            assert(rest.skip(2) =~= v@.skip(i + 2));
            proof {
                preceded_twice(done, seq![plain], unescaped(v@.skip(i + 2)));
                assert(done + seq![plain] =~= out@);
            }
            i = i + 2;
        }
    }
    assert(v@.skip(i as int) =~= Seq::<char>::empty());
    assert(out@ + Seq::<char>::empty() =~= out@);
    Ok(out)
}

/// Nothing put before a result leaves it.
proof fn preceded_nothing(r: Result<Seq<char>, Seq<char>>)
    ensures
        preceded(Seq::empty(), r) == r,
{
    if let Ok(s) = r {
        assert(Seq::<char>::empty() + s =~= s);
    }
}

/// Two pieces put before a result one after the other.
proof fn preceded_twice(p: Seq<char>, q: Seq<char>, r: Result<Seq<char>, Seq<char>>)
    ensures
        preceded(p, preceded(q, r)) == preceded(p + q, r),
{
    if let Ok(s) = r {
        assert(p + (q + s) =~= p + q + s);
    }
}

/// A block under construction: its identifier and the fields collected in
/// document order.
struct RawTerm {
    identifier: String,
    fields: Vec<(String, String)>,
}

/// The content of a block under construction.
pub struct RawView {
    pub identifier: Seq<char>,
    pub fields: Seq<(Seq<char>, Seq<char>)>,
}

/// The contents of collected fields.
spec fn pair_views(s: Seq<(String, String)>) -> Seq<(Seq<char>, Seq<char>)> {
    s.map_values(|p: (String, String)| (p.0@, p.1@))
}

impl RawTerm {
    spec fn raw_view(self) -> RawView {
        RawView { identifier: self.identifier@, fields: pair_views(self.fields@) }
    }
}

/// The keys of collected fields.
pub open spec fn keys_of(f: Seq<(Seq<char>, Seq<char>)>) -> Seq<Seq<char>> {
    f.map_values(|p: (Seq<char>, Seq<char>)| p.0)
}

/// The value of the field `key`.
pub open spec fn field(f: Seq<(Seq<char>, Seq<char>)>, key: Seq<char>) -> Option<Seq<char>> {
    let i = order::index_of(keys_of(f), key);
    if i < f.len() {
        Some(f[i].1)
    } else {
        None
    }
}

/// Reads the value of the field `key`.
fn take_field(fields: &Vec<(String, String)>, key: &str) -> (r: Option<String>)
    ensures
        text::opt_view(r) == field(pair_views(fields@), key@),
{
    let ghost names = keys_of(pair_views(fields@));
    let mut i: usize = 0;
    while i < fields.len()
        invariant
            i <= fields@.len(),
            names == keys_of(pair_views(fields@)),
            forall|j: int| 0 <= j < i ==> #[trigger] names[j] != key@,
        decreases fields@.len() - i,
    {
        assert(names[i as int] == fields@[i as int].0@);
        if text::same(fields[i].0.as_str(), key) {
            proof {
                order::index_of_is(names, key@, i as int);
            }
            return Some(fields[i].1.clone());
        }
        i = i + 1;
    }
    proof {
        order::index_of_is(names, key@, i as int);
    }
    None
}

/// `line n: term `id` ` — how a fault of a block begins.
pub open spec fn term_fault(n: nat, id: Seq<char>, what: Seq<char>) -> Seq<char> {
    "line "@ + text::decimal(n) + ": term `"@ + id + "` "@ + what
}

/// Builds the description of a fault of a block.
fn fault(line: usize, id: &str, what: &str) -> (r: String)
    ensures
        r@ == term_fault(line as nat, id@, what@),
{
    let n = text::decimal_of_usize(line);
    text::cat6("line ", n.as_str(), ": term `", id, "` ", what)
}

/// A field that has to be there.
pub open spec fn required(raw: RawView, key: Seq<char>, n: nat) -> Result<Seq<char>, Seq<char>> {
    match field(raw.fields, key) {
        Some(v) => Ok(v),
        None => Err(term_fault(n, raw.identifier, "is missing required field `"@ + key + "`"@)),
    }
}

/// Reads a field that has to be there.
fn required_field(fields: &Vec<(String, String)>, key: &str, identifier: &str, line: usize) -> (r:
    Result<String, String>)
    ensures
        match r {
            Ok(s) => required(
                RawView { identifier: identifier@, fields: pair_views(fields@) },
                key@,
                line as nat,
            ) == Ok::<Seq<char>, Seq<char>>(s@),
            Err(e) => required(
                RawView { identifier: identifier@, fields: pair_views(fields@) },
                key@,
                line as nat,
            ) == Err::<Seq<char>, Seq<char>>(e@),
        },
{
    match take_field(fields, key) {
        Some(s) => Ok(s),
        None => {
            let what = text::cat3("is missing required field `", key, "`");
            Err(fault(line, identifier, what.as_str()))
        },
    }
}

/// A field that holds an instant, in canonical notation.
pub open spec fn stamp_field(raw: RawView, key: Seq<char>, n: nat) -> Result<
    Option<Seq<char>>,
    Seq<char>,
> {
    match field(raw.fields, key) {
        None => Ok(None),
        Some(v) => match time::parsed(v) {
            Some(t) => Ok(Some(time::stamp_text(t))),
            None => Err(
                term_fault(
                    n,
                    raw.identifier,
                    "field `"@ + key + "` is not RFC 3339: `"@ + v + "`"@,
                ),
            ),
        },
    }
}

/// Reads a field that holds an instant.
fn optional_stamp(fields: &Vec<(String, String)>, key: &str, identifier: &str, line: usize) -> (r:
    Result<Option<String>, String>)
    ensures
        match r {
            Ok(s) => stamp_field(
                RawView { identifier: identifier@, fields: pair_views(fields@) },
                key@,
                line as nat,
            ) == Ok::<Option<Seq<char>>, Seq<char>>(text::opt_view(s)),
            Err(e) => stamp_field(
                RawView { identifier: identifier@, fields: pair_views(fields@) },
                key@,
                line as nat,
            ) == Err::<Option<Seq<char>>, Seq<char>>(e@),
        },
{
    match take_field(fields, key) {
        None => Ok(None),
        Some(raw) => match Timestamp::parse(raw.as_str()) {
            Ok(t) => Ok(Some(t.to_string())),
            Err(_) => {
                let what = text::cat5("field `", key, "` is not RFC 3339: `", raw.as_str(), "`");
                Err(fault(line, identifier, what.as_str()))
            },
        },
    }
}

/// The version of a block.
pub open spec fn block_version(raw: RawView, n: nat) -> Result<Option<VersionEntryView>, Seq<char>> {
    match field(raw.fields, "version"@) {
        None => if field(raw.fields, "status"@) is Some || field(raw.fields, "effective_from"@) is Some
            || field(raw.fields, "registered_at"@) is Some {
            Err(term_fault(n, raw.identifier, "has version fields without `version`"@))
        } else {
            Ok(None)
        },
        Some(version) => {
            let from = stamp_field(raw, "effective_from"@, n);
            let registered = stamp_field(raw, "registered_at"@, n);
            match field(raw.fields, "status"@) {
                None => Err(term_fault(n, raw.identifier, "has `version` without `status`"@)),
                Some(status) => if model::parsed_status(status) is None {
                    Err(term_fault(n, raw.identifier, "has unknown status `"@ + status + "`"@))
                } else if from is Err {
                    Err(from->Err_0)
                } else if registered is Err {
                    Err(registered->Err_0)
                } else {
                    Ok(
                        Some(
                            VersionEntryView {
                                version,
                                status,
                                effective_from: from->Ok_0,
                                registered_at: registered->Ok_0,
                            },
                        ),
                    )
                },
            }
        },
    }
}

/// The entry that a block makes up, closed at line `n`.
pub open spec fn block_entry(raw: RawView, n: nat) -> Result<TermView, Seq<char>> {
    let class = required(raw, "class"@, n);
    let version = block_version(raw, n);
    let register = required(raw, "register"@, n);
    let name = required(raw, "name"@, n);
    let definition = required(raw, "definition"@, n);
    if class is Err {
        Err(class->Err_0)
    } else if model::parsed_class(class->Ok_0) is None {
        Err(term_fault(n, raw.identifier, "has unknown item class `"@ + class->Ok_0 + "`"@))
    } else if version is Err {
        Err(version->Err_0)
    } else if register is Err {
        Err(register->Err_0)
    } else if name is Err {
        Err(name->Err_0)
    } else if definition is Err {
        Err(definition->Err_0)
    } else {
        Ok(
            TermView {
                identifier: raw.identifier,
                irdi: field(raw.fields, "irdi"@),
                register: register->Ok_0,
                item_class: class->Ok_0,
                name: name->Ok_0,
                definition: definition->Ok_0,
                submitting_organization: field(raw.fields, "submitting_organization"@),
                representation: field(raw.fields, "representation"@),
                unit: field(raw.fields, "unit"@),
                unit_symbol: field(raw.fields, "unit_symbol"@),
                version: version->Ok_0,
            },
        )
    }
}

impl RawTerm {
    /// Reads the version of the block.
    fn read_version(&self, line: usize) -> (r: Result<Option<VersionEntry>, String>)
        ensures
            match r {
                Ok(v) => block_version(self.raw_view(), line as nat) == Ok::<
                    Option<VersionEntryView>,
                    Seq<char>,
                >(
                    match v {
                        Some(x) => Some(x@),
                        None => None,
                    },
                ),
                Err(e) => block_version(self.raw_view(), line as nat) == Err::<
                    Option<VersionEntryView>,
                    Seq<char>,
                >(e@),
            },
    {
        let id = self.identifier.as_str();
        match take_field(&self.fields, "version") {
            Some(version) => {
                let status = match take_field(&self.fields, "status") {
                    Some(s) => s,
                    None => return Err(fault(line, id, "has `version` without `status`")),
                };
                if Status::parse(status.as_str()).is_none() {
                    let what = text::cat3("has unknown status `", status.as_str(), "`");
                    return Err(fault(line, id, what.as_str()));
                }
                let effective_from = match optional_stamp(&self.fields, "effective_from", id, line) {
                    Ok(s) => s,
                    Err(e) => return Err(e),
                };
                let registered_at = match optional_stamp(&self.fields, "registered_at", id, line) {
                    Ok(s) => s,
                    Err(e) => return Err(e),
                };
                Ok(Some(VersionEntry { version, status, effective_from, registered_at }))
            },
            None => {
                if take_field(&self.fields, "status").is_some() || take_field(
                    &self.fields,
                    "effective_from",
                ).is_some() || take_field(&self.fields, "registered_at").is_some() {
                    return Err(fault(line, id, "has version fields without `version`"));
                }
                Ok(None)
            },
        }
    }

    /// Validates and assembles the collected fields into an entry; `line`
    /// is the line that closes the block.
    fn into_entry(self, line: usize) -> (r: Result<TermEntry, String>)
        ensures
            match r {
                Ok(t) => block_entry(self.raw_view(), line as nat) == Ok::<TermView, Seq<char>>(t@),
                Err(e) => block_entry(self.raw_view(), line as nat) == Err::<TermView, Seq<char>>(e@),
            },
    {
        let id = self.identifier.as_str();
        let item_class = match required_field(&self.fields, "class", id, line) {
            Ok(s) => s,
            Err(e) => return Err(e),
        };
        if ItemClass::parse(item_class.as_str()).is_none() {
            let what = text::cat3("has unknown item class `", item_class.as_str(), "`");
            return Err(fault(line, id, what.as_str()));
        }
        let version = match self.read_version(line) {
            Ok(v) => v,
            Err(e) => return Err(e),
        };
        let register = match required_field(&self.fields, "register", id, line) {
            Ok(s) => s,
            Err(e) => return Err(e),
        };
        let name = match required_field(&self.fields, "name", id, line) {
            Ok(s) => s,
            Err(e) => return Err(e),
        };
        let definition = match required_field(&self.fields, "definition", id, line) {
            Ok(s) => s,
            Err(e) => return Err(e),
        };
        let irdi = take_field(&self.fields, "irdi");
        let submitting_organization = take_field(&self.fields, "submitting_organization");
        let representation = take_field(&self.fields, "representation");
        let unit = take_field(&self.fields, "unit");
        let unit_symbol = take_field(&self.fields, "unit_symbol");
        Ok(
            TermEntry {
                identifier: self.identifier,
                irdi,
                register,
                item_class,
                name,
                definition,
                submitting_organization,
                representation,
                unit,
                unit_symbol,
                version,
            },
        )
    }
}

/// A field body split at its first colon, which a space has to follow.
pub open spec fn split_body(s: Seq<char>) -> Option<(Seq<char>, Seq<char>)> {
    let i = text::first_of(s, ':');
    if i + 1 < s.len() && s[i + 1] == ' ' {
        Some((s.take(i), s.skip(i + 2)))
    } else {
        None
    }
}

/// Splits a field body (`key: value`) at its first colon. Values may
/// themselves contain colons.
fn split_field(body: &str) -> (r: Option<(String, String)>)
    ensures
        match r {
            Some((k, v)) => split_body(body@) == Some((k@, v@)),
            None => split_body(body@) is None,
        },
{
    let v = text::chars(body);
    let i = text::find_from(&v, 0, ':');
    assert(v@.skip(0) =~= body@);
    if i < v.len() && i + 1 < v.len() && v[i + 1] == ' ' {
        let key = text::text_of(&v, 0, i);
        let value = text::text_of(&v, i + 2, v.len());
        assert(key@ =~= body@.take(i as int));
        assert(value@ =~= body@.skip(i + 2));
        Some((key, value))
    } else {
        None
    }
}

/// How far a document has been read: the entries that are closed and the
/// block that is open.
pub struct Reading {
    pub entries: Seq<TermView>,
    pub open: Option<RawView>,
}

/// How a fault of a line is described.
pub open spec fn line_fault(n: nat, what: Seq<char>) -> Seq<char> {
    "line "@ + text::decimal(n) + ": "@ + what
}

/// Whether an identifier is a token: not empty and without white space.
pub open spec fn is_token(s: Seq<char>) -> bool {
    s.len() > 0 && forall|i: int| 0 <= i < s.len() ==> !text::is_space(#[trigger] s[i])
}

/// The place of a field in the canonical order.
pub open spec fn place(key: Seq<char>) -> int {
    order::index_of(text::list_views(FIELDS@), key)
}

/// Whether the field `key` may follow the fields `f`: it comes after the
/// last of them in the canonical order.
pub open spec fn may_follow(f: Seq<(Seq<char>, Seq<char>)>, key: Seq<char>) -> bool {
    f.len() == 0 || place(f.last().0) < place(key)
}

/// Finds the place of a field in the canonical order.
fn place_of(key: &str) -> (r: usize)
    ensures
        r == place(key@),
{
    let list = FIELDS;
    let ghost names = text::list_views(FIELDS@);
    let mut i: usize = 0;
    while i < list.len()
        invariant
            list@ == FIELDS@,
            names == text::list_views(FIELDS@),
            i <= list@.len(),
            forall|j: int| 0 <= j < i ==> #[trigger] names[j] != key@,
        decreases list@.len() - i,
    {
        assert(names[i as int] == list@[i as int]@);
        if text::same(list[i], key) {
            proof {
                order::index_of_is(names, key@, i as int);
            }
            return i;
        }
        i = i + 1;
    }
    proof {
        order::index_of_is(names, key@, i as int);
    }
    i
}

/// Reads a field line.
pub open spec fn read_field(st: Reading, body: Seq<char>, n: nat) -> Result<Reading, Seq<char>> {
    match split_body(body) {
        None => Err(line_fault(n, "field line has no `key: value`"@)),
        Some((key, raw)) => if !text::is_listed(FIELDS@, key) {
            Err(line_fault(n, "unknown field `"@ + key + "`"@))
        } else {
            match unescaped(raw) {
                Err(e) => Err(line_fault(n, e)),
                Ok(value) => if value.len() == 0 {
                    Err(line_fault(n, "field `"@ + key + "` has an empty value"@))
                } else {
                    match st.open {
                        None => Err(line_fault(n, "field outside a term block"@)),
                        Some(block) => if field(block.fields, key) is Some {
                            Err(line_fault(n, "duplicate field `"@ + key + "`"@))
                        } else if !may_follow(block.fields, key) {
                            Err(line_fault(n, "field `"@ + key + "` is out of order"@))
                        } else {
                            Ok(
                                Reading {
                                    open: Some(
                                        RawView { fields: block.fields.push((key, value)), ..block },
                                    ),
                                    ..st
                                },
                            )
                        },
                    }
                },
            }
        },
    }
}

/// Reads line `n`.
pub open spec fn read_line(st: Reading, line: Seq<char>, n: nat) -> Result<Reading, Seq<char>> {
    if line.len() == 0 {
        if st.open is Some {
            Err(line_fault(n, "blank line inside a term block"@))
        } else {
            Ok(st)
        }
    } else if let Some(id) = text::after(line, "TERM "@) {
        if st.open is Some {
            Err(line_fault(n, "TERM inside a term block (missing END?)"@))
        } else if !is_token(id) {
            Err(line_fault(n, "term identifier must be a non-empty token without whitespace"@))
        } else {
            Ok(Reading { open: Some(RawView { identifier: id, fields: Seq::empty() }), ..st })
        }
    } else if line == "END"@ {
        match st.open {
            None => Err(line_fault(n, "END without a term block"@)),
            Some(block) => match block_entry(block, n) {
                Ok(t) => Ok(Reading { entries: st.entries.push(t), open: None }),
                Err(e) => Err(e),
            },
        }
    } else {
        match text::after(line, "  "@) {
            Some(body) => read_field(st, body, n),
            None => Err(
                line_fault(
                    n,
                    "not a term-block line (expected `TERM <id>`, `  <field>: <value>` or `END`)"@,
                ),
            ),
        }
    }
}

/// Reads `lines` one after the other, the first one being line `n`.
pub open spec fn read_lines(st: Reading, lines: Seq<Seq<char>>, n: nat) -> Result<Reading, Seq<char>>
    decreases lines.len(),
{
    if lines.len() == 0 {
        Ok(st)
    } else {
        match read_line(st, lines[0], n) {
            Ok(next) => read_lines(next, lines.skip(1), n + 1),
            Err(e) => Err(e),
        }
    }
}

/// Nothing read yet.
pub open spec fn unread() -> Reading {
    Reading { entries: Seq::empty(), open: None }
}

/// The entries of a document.
pub open spec fn parsed(s: Seq<char>) -> Result<Seq<TermView>, Seq<char>> {
    match read_lines(unread(), text::split_on(s, '\n'), 1) {
        Err(e) => Err(e),
        Ok(st) => if st.open is Some {
            Err(
                line_fault(
                    text::split_on(s, '\n').len(),
                    "unterminated term block at end of document"@,
                ),
            )
        } else {
            Ok(st.entries)
        },
    }
}

/// Builds the description of a fault of a line.
fn at_line(n: usize, what: &str) -> (r: String)
    ensures
        r@ == line_fault(n as nat, what@),
{
    let d = text::decimal_of_usize(n);
    text::cat4("line ", d.as_str(), ": ", what)
}

/// Whether `s` is a token.
fn token(s: &str) -> (r: bool)
    ensures
        r == is_token(s@),
{
    let v = text::chars(s);
    let mut i: usize = 0;
    while i < v.len()
        invariant
            v@ == s@,
            i <= v@.len(),
            forall|j: int| 0 <= j < i ==> !text::is_space(#[trigger] v@[j]),
        decreases v@.len() - i,
    {
        if text::space(v[i]) {
            assert(text::is_space(s@[i as int]));
            return false;
        }
        i = i + 1;
    }
    v.len() > 0
}

/// The state of a reading.
spec fn reading(entries: Seq<TermEntry>, current: Option<RawTerm>) -> Reading {
    Reading {
        entries: term_views(entries),
        open: match current {
            Some(b) => Some(b.raw_view()),
            None => None,
        },
    }
}

/// Adds the field of a field line to the open block.
fn take_line(current: Option<RawTerm>, body: &str, n: usize, Ghost(entries): Ghost<Seq<TermEntry>>) -> (r: Result<RawTerm, String>)
    ensures
        match r {
            Ok(b) => read_field(reading(entries, current), body@, n as nat) == Ok::<Reading, Seq<char>>(
                reading(entries, Some(b)),
            ),
            Err(e) => read_field(reading(entries, current), body@, n as nat) == Err::<
                Reading,
                Seq<char>,
            >(e@),
        },
{
    let (key, raw_value) = match split_field(body) {
        Some(p) => p,
        None => return Err(at_line(n, "field line has no `key: value`")),
    };
    if !text::listed(&FIELDS, key.as_str()) {
        let what = text::cat3("unknown field `", key.as_str(), "`");
        return Err(at_line(n, what.as_str()));
    }
    let value = match unescape_value(raw_value.as_str()) {
        Ok(v) => v,
        Err(e) => return Err(at_line(n, e.as_str())),
    };
    if value.as_str().is_empty() {
        let what = text::cat3("field `", key.as_str(), "` has an empty value");
        return Err(at_line(n, what.as_str()));
    }
    match current {
        None => Err(at_line(n, "field outside a term block")),
        Some(b) => {
            let mut block = b;
            if take_field(&block.fields, key.as_str()).is_some() {
                let what = text::cat3("duplicate field `", key.as_str(), "`");
                return Err(at_line(n, what.as_str()));
            }
            let held = block.fields.len();
            if held > 0 && place_of(block.fields[held - 1].0.as_str()) >= place_of(key.as_str()) {
                let what = text::cat3("field `", key.as_str(), "` is out of order");
                return Err(at_line(n, what.as_str()));
            }
            let ghost before = pair_views(block.fields@);
            let ghost pair = (key@, value@);
            block.fields.push((key, value));
            assert(pair_views(block.fields@) =~= before.push(pair));
            Ok(block)
        },
    }
}

/// Parses a document back into term entries. Unknown or duplicate fields,
/// fields out of the canonical order, blank lines inside blocks, unterminated
/// blocks, empty values and invalid escapes are errors, each naming the line.
pub fn parse(text: &str) -> (r: Result<Vec<TermEntry>, String>)
    ensures
        match r {
            Ok(v) => parsed(text@) == Ok::<Seq<TermView>, Seq<char>>(term_views(v@)),
            Err(e) => parsed(text@) == Err::<Seq<TermView>, Seq<char>>(e@),
        },
{
    let lines = text::split(text, '\n');
    let ghost all = text::views(lines@);
    let mut entries: Vec<TermEntry> = Vec::new();
    let mut current: Option<RawTerm> = None;
    let mut i: usize = 0;
    assert(all.skip(0) =~= all);
    assert(term_views(entries@) =~= Seq::<TermView>::empty());
    while i < lines.len()
        invariant
            i <= lines@.len(),
            all == text::views(lines@),
            all == text::split_on(text@, '\n'),
            read_lines(unread(), all, 1) == read_lines(
                reading(entries@, current),
                all.skip(i as int),
                (i + 1) as nat,
            ),
        decreases lines@.len() - i,
    {
        let ghost st = reading(entries@, current);
        let ghost rest = all.skip(i as int);
        let line = lines[i].as_str();
        assert(rest[0] == line@);
        assert(rest.skip(1) =~= all.skip(i + 1));
        let n: usize = i + 1;
        if line.is_empty() {
            if current.is_some() {
                return Err(at_line(n, "blank line inside a term block"));
            }
        } else if let Some(id) = text::strip(line, "TERM ") {
            if current.is_some() {
                return Err(at_line(n, "TERM inside a term block (missing END?)"));
            }
            if !token(id.as_str()) {
                return Err(
                    at_line(n, "term identifier must be a non-empty token without whitespace"),
                );
            }
            let fields: Vec<(String, String)> = Vec::new();
            assert(pair_views(fields@) =~= Seq::<(Seq<char>, Seq<char>)>::empty());
            current = Some(RawTerm { identifier: id, fields });
        } else if text::same(line, "END") {
            match current {
                None => return Err(at_line(n, "END without a term block")),
                Some(block) => match block.into_entry(n) {
                    Ok(t) => {
                        let ghost before = term_views(entries@);
                        entries.push(t);
                        assert(term_views(entries@) =~= before.push(t@));
                        current = None;
                    },
                    Err(e) => return Err(e),
                },
            }
        } else {
            let body = match text::strip(line, "  ") {
                Some(b) => b,
                None => return Err(
                    at_line(
                        n,
                        "not a term-block line (expected `TERM <id>`, `  <field>: <value>` or `END`)",
                    ),
                ),
            };
            match take_line(current, body.as_str(), n, Ghost(entries@)) {
                Ok(b) => {
                    current = Some(b);
                },
                Err(e) => return Err(e),
            }
        }
        i = i + 1;
    }
    if current.is_some() {
        return Err(at_line(lines.len(), "unterminated term block at end of document"));
    }
    Ok(entries)
}

/// What a request's `Accept` header resolved to.
#[derive(Debug, Clone, Copy, PartialEq, Eq, Structural)]
pub enum Representation {
    Json,
    Cddal,
}

/// The media type of one entry of an `Accept` header.
pub open spec fn media_type(entry: Seq<char>) -> Seq<char> {
    text::lowered(text::trimmed(text::split_on(entry, ';')[0]))
}

/// Whether some entry of an `Accept` header has the media type `m`.
pub open spec fn accepts(header: Seq<char>, m: Seq<char>) -> bool {
    exists|i: int|
        0 <= i < text::split_on(header, ',').len() && media_type(
            #[trigger] text::split_on(header, ',')[i],
        ) == m
}

/// What an `Accept` header resolves to, and whether to warn.
pub open spec fn negotiated(accept: Option<Seq<char>>) -> (Representation, bool) {
    match accept {
        None => (Representation::Json, false),
        Some(raw) => {
            let header = text::trimmed(raw);
            if header.len() == 0 {
                (Representation::Json, false)
            } else if accepts(header, "text/cddal"@) {
                (Representation::Cddal, false)
            } else {
                (
                    Representation::Json,
                    !(accepts(header, "application/json"@) || accepts(header, "*/*"@)),
                )
            }
        },
    }
}

/// Negotiates the response representation from an `Accept` header value:
/// an absent or empty one gives JSON; an entry `text/cddal` wins; otherwise
/// JSON, with a warning when nothing that is listed is JSON.
pub fn negotiate(accept: Option<&str>) -> (r: (Representation, bool))
    ensures
        r == negotiated(
            match accept {
                Some(s) => Some(s@),
                None => None,
            },
        ),
{
    let raw = match accept {
        Some(s) => s,
        None => return (Representation::Json, false),
    };
    let header = text::trim(raw);
    if header.as_str().is_empty() {
        return (Representation::Json, false);
    }
    let parts = text::split(header.as_str(), ',');
    let ghost all = text::split_on(header@, ',');
    let mut json_satisfies: bool = false;
    let mut i: usize = 0;
    while i < parts.len()
        invariant
            i <= parts@.len(),
            all == text::views(parts@),
            all == text::split_on(header@, ','),
            header@ == text::trimmed(raw@),
            header@.len() > 0,
            accept == Some(raw),
            forall|j: int| 0 <= j < i ==> media_type(#[trigger] all[j]) != "text/cddal"@,
            json_satisfies <==> exists|j: int|
                0 <= j < i && (media_type(#[trigger] all[j]) == "application/json"@ || media_type(
                    all[j],
                ) == "*/*"@),
        decreases parts@.len() - i,
    {
        assert(all[i as int] == parts@[i as int]@);
        let pieces = text::split(parts[i].as_str(), ';');
        assert(text::split_on(parts@[i as int]@, ';').len() > 0);
        assert(text::views(pieces@)[0] == pieces@[0]@);
        let t = text::trim(pieces[0].as_str());
        let m = text::lower(t.as_str());
        assert(m@ == media_type(all[i as int]));
        if text::same(m.as_str(), "text/cddal") {
            return (Representation::Cddal, false);
        }
        if text::same(m.as_str(), "application/json") || text::same(m.as_str(), "*/*") {
            json_satisfies = true;
        }
        i = i + 1;
    }
    (Representation::Json, !json_satisfies)
}

/// Whether a text is an instant in canonical notation.
pub open spec fn canonical_stamp(s: Seq<char>) -> bool {
    s.len() > 0 && (time::parsed(s) matches Some(t) && time::stamp_text(t) == s)
}

/// Whether an optional text is an instant in canonical notation.
pub open spec fn stamp_ok(s: Option<Seq<char>>) -> bool {
    s matches Some(x) ==> canonical_stamp(x)
}

/// Whether an entry is sound: the identifier is a token, the class and the
/// status are known, instants are canonical and no value is empty.
pub open spec fn term_ok(t: TermView) -> bool {
    &&& is_token(t.identifier)
    &&& model::parsed_class(t.item_class) is Some
    &&& t.item_class.len() > 0
    &&& t.register.len() > 0
    &&& t.name.len() > 0
    &&& t.definition.len() > 0
    &&& model::text_ok(t.irdi)
    &&& model::text_ok(t.submitting_organization)
    &&& model::text_ok(t.representation)
    &&& model::text_ok(t.unit)
    &&& model::text_ok(t.unit_symbol)
    &&& t.version matches Some(v) ==> {
        &&& v.version.len() > 0
        &&& v.status.len() > 0
        &&& model::parsed_status(v.status) is Some
        &&& stamp_ok(v.effective_from)
        &&& stamp_ok(v.registered_at)
    }
}

/// Escaped values are single lines, free of line feeds and carriage returns,
/// and undoing the escapes gives the value back, whatever follows.
pub proof fn escape_round_trip(v: Seq<char>, rest: Seq<char>)
    ensures
        unescaped(escaped(v) + rest) == preceded(v, unescaped(rest)),
        forall|i: int|
            0 <= i < escaped(v).len() ==> #[trigger] escaped(v)[i] != '\n' && escaped(v)[i] != '\r',
    decreases v.len(),
{
    if v.len() == 0 {
        preceded_nothing(unescaped(rest));
        assert(escaped(v) + rest =~= rest);
        assert(v =~= Seq::<char>::empty());
    } else {
        let (w, c) = (v.drop_last(), v.last());
        let tail = escaped_char(c) + rest;
        escape_round_trip(w, tail);
        assert(escaped(v) + rest =~= escaped(w) + tail);
        if c == '\\' || c == '\n' || c == '\r' {
            assert(tail.skip(2) =~= rest);
        } else {
            assert(tail.skip(1) =~= rest);
        }
        assert(unescaped(tail) == preceded(seq![c], unescaped(rest)));
        preceded_twice(w, seq![c], unescaped(rest));
        assert(w + seq![c] =~= v);
    }
}

/// What [`escape_value`] writes of a value, [`unescape_value`] reads back as
/// that value, and it always stays on one line.
pub proof fn escaped_value_reads_back(v: Seq<char>)
    ensures
        unescaped(escaped(v)) == Ok::<Seq<char>, Seq<char>>(v),
        forall|i: int|
            0 <= i < escaped(v).len() ==> #[trigger] escaped(v)[i] != '\n' && escaped(v)[i] != '\r',
{
    let none = Seq::<char>::empty();
    escape_round_trip(v, none);
    assert(escaped(v) + none =~= escaped(v));
    assert(v + none =~= v);
}

/// The lines of fields.
spec fn field_lines(f: Seq<(Seq<char>, Seq<char>)>) -> Seq<Seq<char>> {
    f.map_values(|p: (Seq<char>, Seq<char>)| field_line(p.0, p.1))
}

/// The lines of a block.
spec fn term_lines(t: TermView) -> Seq<Seq<char>> {
    seq!["TERM "@ + t.identifier] + field_lines(term_fields(t)) + seq!["END"@]
}

/// The lines of a document.
spec fn document_lines(ts: Seq<TermView>) -> Seq<Seq<char>>
    decreases ts.len(),
{
    if ts.len() == 0 {
        Seq::empty()
    } else {
        document_lines(ts.drop_last()) + term_lines(ts.last())
    }
}

/// Whether a text holds no character `c`.
spec fn free_of(s: Seq<char>, c: char) -> bool {
    forall|i: int| 0 <= i < s.len() ==> #[trigger] s[i] != c
}

/// Whether fields have known keys in the canonical order and values that are
/// not empty.
spec fn fields_ok(f: Seq<(Seq<char>, Seq<char>)>) -> bool {
    &&& forall|i: int|
        0 <= i < f.len() ==> key_ok((#[trigger] f[i]).0) && f[i].1.len() > 0
    &&& forall|i: int, j: int|
        0 <= i < j < f.len() ==> place((#[trigger] f[i]).0) < place((#[trigger] f[j]).0)
}

/// Whether the places of all fields are less than `n`.
spec fn all_before(f: Seq<(Seq<char>, Seq<char>)>, n: int) -> bool {
    forall|i: int| 0 <= i < f.len() ==> place((#[trigger] f[i]).0) < n
}

/// Whether a key is one of the field keys, free of colons and line ends.
spec fn key_ok(k: Seq<char>) -> bool {
    text::is_listed(FIELDS@, k) && free_of(k, ':') && free_of(k, '\n')
}

/// A field line holds no line end.
proof fn field_line_is_one(k: Seq<char>, v: Seq<char>)
    requires
        key_ok(k),
    ensures
        free_of(field_line(k, v), '\n'),
{
    reveal_strlit("  ");
    reveal_strlit(": ");
    escape_round_trip(v, Seq::empty());
    let l = field_line(k, v);
    assert forall|i: int| 0 <= i < l.len() implies #[trigger] l[i] != '\n' by {
        if 2 <= i < 2 + k.len() {
            assert(l[i] == k[i - 2]);
        } else if i >= 4 + k.len() {
            assert(l[i] == escaped(v)[i - 4 - k.len()]);
        }
    }
}

/// The text of fields splits into their lines.
proof fn split_fields(f: Seq<(Seq<char>, Seq<char>)>, b: Seq<char>)
    requires
        fields_ok(f),
    ensures
        text::split_on(field_text(f) + b, '\n') == field_lines(f) + text::split_on(b, '\n'),
    decreases f.len(),
{
    if f.len() == 0 {
        assert(field_text(f) + b =~= b);
        assert(field_lines(f) + text::split_on(b, '\n') =~= text::split_on(b, '\n'));
    } else {
        let g = f.drop_last();
        let (k, v) = f.last();
        assert(key_ok(f[f.len() - 1].0));
        let line = field_line(k, v);
        let tail = line + seq!['\n'] + b;
        assert forall|i: int| 0 <= i < g.len() implies key_ok((#[trigger] g[i]).0) && g[i].1.len() > 0 by {
            assert(key_ok(f[i].0));
        }
        assert forall|i: int, j: int| 0 <= i < j < g.len() implies place((#[trigger] g[i]).0) < place(
            (#[trigger] g[j]).0,
        ) by {
            assert(place(f[i].0) < place(f[j].0));
        }
        split_fields(g, tail);
        assert(field_text(f) + b =~= field_text(g) + tail);
        field_line_is_one(k, v);
        text::split_on_piece(line, '\n', b);
        assert(field_lines(g) + (seq![line] + text::split_on(b, '\n')) =~= field_lines(f)
            + text::split_on(b, '\n'));
    }
}

/// The text of a block splits into its lines.
proof fn split_term(t: TermView, b: Seq<char>)
    requires
        is_token(t.identifier),
        fields_ok(term_fields(t)),
    ensures
        text::split_on(term_text(t) + b, '\n') == term_lines(t) + text::split_on(b, '\n'),
{
    reveal_strlit("TERM ");
    reveal_strlit("END");
    reveal_strlit("END\n");
    let head = "TERM "@ + t.identifier;
    let f = term_fields(t);
    let end = "END"@ + seq!['\n'] + b;
    assert("END\n"@ =~= "END"@ + seq!['\n']);
    assert(term_text(t) + b =~= head + seq!['\n'] + (field_text(f) + end));
    assert forall|i: int| 0 <= i < head.len() implies #[trigger] head[i] != '\n' by {
        if i >= 5 {
            assert(head[i] == t.identifier[i - 5]);
            assert(!text::is_space(t.identifier[i - 5]));
        }
    }
    text::split_on_piece(head, '\n', field_text(f) + end);
    split_fields(f, end);
    text::split_on_piece("END"@, '\n', b);
    assert(seq![head] + (field_lines(f) + (seq!["END"@] + text::split_on(b, '\n'))) =~= term_lines(t)
        + text::split_on(b, '\n'));
}

/// The text of a document splits into its lines.
proof fn split_document(ts: Seq<TermView>, b: Seq<char>)
    requires
        forall|i: int| 0 <= i < ts.len() ==> term_ok(#[trigger] ts[i]),
    ensures
        text::split_on(document(ts) + b, '\n') == document_lines(ts) + text::split_on(b, '\n'),
    decreases ts.len(),
{
    if ts.len() == 0 {
        assert(document(ts) + b =~= b);
        assert(document_lines(ts) + text::split_on(b, '\n') =~= text::split_on(b, '\n'));
    } else {
        let (h, t) = (ts.drop_last(), ts.last());
        assert(term_ok(ts[ts.len() - 1]));
        assert forall|i: int| 0 <= i < h.len() implies term_ok(#[trigger] h[i]) by {
            assert(term_ok(ts[i]));
        }
        term_fields_ok(t);
        split_document(h, term_text(t) + b);
        split_term(t, b);
        assert(document(ts) + b =~= document(h) + (term_text(t) + b));
        assert(document_lines(h) + (term_lines(t) + text::split_on(b, '\n')) =~= document_lines(ts)
            + text::split_on(b, '\n'));
    }
}

/// Reading lines in two parts.
proof fn read_lines_split(st: Reading, a: Seq<Seq<char>>, b: Seq<Seq<char>>, n: nat)
    ensures
        read_lines(st, a + b, n) == match read_lines(st, a, n) {
            Ok(next) => read_lines(next, b, n + a.len()),
            Err(e) => Err(e),
        },
    decreases a.len(),
{
    if a.len() == 0 {
        assert(a + b =~= b);
    } else {
        assert((a + b)[0] == a[0]);
        assert((a + b).skip(1) =~= a.skip(1) + b);
        if let Ok(next) = read_line(st, a[0], n) {
            read_lines_split(next, a.skip(1), b, n + 1);
        }
    }
}

/// The value of a field after one more field.
broadcast proof fn field_push(
    f: Seq<(Seq<char>, Seq<char>)>,
    k: Seq<char>,
    v: Seq<char>,
    q: Seq<char>,
)
    ensures
        #[trigger] field(f.push((k, v)), q) == match field(f, q) {
            Some(x) => Some(x),
            None => if q == k {
                Some(v)
            } else {
                None
            },
        },
{
    let g = f.push((k, v));
    order::index_of_found(keys_of(f), q);
    assert forall|j: int| 0 <= j < f.len() implies #[trigger] keys_of(g)[j] == keys_of(f)[j] by {}
    let i = order::index_of(keys_of(f), q);
    if i < f.len() {
        assert forall|j: int| 0 <= j < i implies #[trigger] keys_of(g)[j] != q by {
            assert(keys_of(f)[j] != q);
        }
        order::index_of_is(keys_of(g), q, i);
    } else if q == k {
        assert forall|j: int| 0 <= j < f.len() implies #[trigger] keys_of(g)[j] != q by {
            assert(keys_of(f)[j] != q);
        }
        order::index_of_is(keys_of(g), q, f.len() as int);
    } else {
        assert forall|j: int| 0 <= j < g.len() implies #[trigger] keys_of(g)[j] != q by {
            if j < f.len() {
                assert(keys_of(f)[j] != q);
            }
        }
        order::index_of_is(keys_of(g), q, g.len() as int);
    }
}

/// The value of a field after one more field that is perhaps there.
broadcast proof fn field_with(
    f: Seq<(Seq<char>, Seq<char>)>,
    k: Seq<char>,
    v: Option<Seq<char>>,
    q: Seq<char>,
)
    ensures
        #[trigger] field(with_field(f, k, v), q) == match field(f, q) {
            Some(x) => Some(x),
            None => if q == k {
                v
            } else {
                None
            },
        },
{
    if let Some(x) = v {
        field_push(f, k, x, q);
    }
}

/// No field is found among none.
broadcast proof fn field_none(q: Seq<char>)
    ensures
        #[trigger] field(Seq::<(Seq<char>, Seq<char>)>::empty(), q) == None::<Seq<char>>,
{
    order::index_of_found(keys_of(Seq::<(Seq<char>, Seq<char>)>::empty()), q);
}

/// Looking up fields.
broadcast group group_fields {
    field_push,
    field_with,
    field_none,
}

/// One more sound field, behind all others, keeps fields sound.
proof fn fields_ok_push(f: Seq<(Seq<char>, Seq<char>)>, k: Seq<char>, v: Seq<char>)
    requires
        fields_ok(f),
        key_ok(k),
        v.len() > 0,
        all_before(f, place(k)),
    ensures
        fields_ok(f.push((k, v))),
        all_before(f.push((k, v)), place(k) + 1),
{
    let g = f.push((k, v));
    assert forall|i: int| 0 <= i < g.len() implies key_ok((#[trigger] g[i]).0) && g[i].1.len() > 0 by {
        if i < f.len() {
            assert(key_ok(f[i].0));
        }
    }
    assert forall|i: int, j: int| 0 <= i < j < g.len() implies place((#[trigger] g[i]).0) < place(
        (#[trigger] g[j]).0,
    ) by {
        if j < f.len() {
            assert(place(f[i].0) < place(f[j].0));
        } else {
            assert(place(f[i].0) < place(k));
        }
    }
    assert forall|i: int| 0 <= i < g.len() implies place((#[trigger] g[i]).0) < place(k) + 1 by {
        if i < f.len() {
            assert(place(f[i].0) < place(k));
        }
    }
}

/// One more field that is perhaps there, behind all others, keeps fields
/// sound.
proof fn fields_ok_with(f: Seq<(Seq<char>, Seq<char>)>, k: Seq<char>, v: Option<Seq<char>>)
    requires
        fields_ok(f),
        key_ok(k),
        model::text_ok(v),
        all_before(f, place(k)),
    ensures
        fields_ok(with_field(f, k, v)),
        all_before(with_field(f, k, v), place(k) + 1),
{
    if let Some(x) = v {
        fields_ok_push(f, k, x);
    }
}

/// The field keys are pairwise different.
proof fn field_keys_distinct()
    ensures
        "irdi"@ != "register"@,
        "irdi"@ != "class"@,
        "irdi"@ != "name"@,
        "irdi"@ != "definition"@,
        "irdi"@ != "submitting_organization"@,
        "irdi"@ != "representation"@,
        "irdi"@ != "unit"@,
        "irdi"@ != "unit_symbol"@,
        "irdi"@ != "version"@,
        "irdi"@ != "status"@,
        "irdi"@ != "effective_from"@,
        "irdi"@ != "registered_at"@,
        "register"@ != "class"@,
        "register"@ != "name"@,
        "register"@ != "definition"@,
        "register"@ != "submitting_organization"@,
        "register"@ != "representation"@,
        "register"@ != "unit"@,
        "register"@ != "unit_symbol"@,
        "register"@ != "version"@,
        "register"@ != "status"@,
        "register"@ != "effective_from"@,
        "register"@ != "registered_at"@,
        "class"@ != "name"@,
        "class"@ != "definition"@,
        "class"@ != "submitting_organization"@,
        "class"@ != "representation"@,
        "class"@ != "unit"@,
        "class"@ != "unit_symbol"@,
        "class"@ != "version"@,
        "class"@ != "status"@,
        "class"@ != "effective_from"@,
        "class"@ != "registered_at"@,
        "name"@ != "definition"@,
        "name"@ != "submitting_organization"@,
        "name"@ != "representation"@,
        "name"@ != "unit"@,
        "name"@ != "unit_symbol"@,
        "name"@ != "version"@,
        "name"@ != "status"@,
        "name"@ != "effective_from"@,
        "name"@ != "registered_at"@,
        "definition"@ != "submitting_organization"@,
        "definition"@ != "representation"@,
        "definition"@ != "unit"@,
        "definition"@ != "unit_symbol"@,
        "definition"@ != "version"@,
        "definition"@ != "status"@,
        "definition"@ != "effective_from"@,
        "definition"@ != "registered_at"@,
        "submitting_organization"@ != "representation"@,
        "submitting_organization"@ != "unit"@,
        "submitting_organization"@ != "unit_symbol"@,
        "submitting_organization"@ != "version"@,
        "submitting_organization"@ != "status"@,
        "submitting_organization"@ != "effective_from"@,
        "submitting_organization"@ != "registered_at"@,
        "representation"@ != "unit"@,
        "representation"@ != "unit_symbol"@,
        "representation"@ != "version"@,
        "representation"@ != "status"@,
        "representation"@ != "effective_from"@,
        "representation"@ != "registered_at"@,
        "unit"@ != "unit_symbol"@,
        "unit"@ != "version"@,
        "unit"@ != "status"@,
        "unit"@ != "effective_from"@,
        "unit"@ != "registered_at"@,
        "unit_symbol"@ != "version"@,
        "unit_symbol"@ != "status"@,
        "unit_symbol"@ != "effective_from"@,
        "unit_symbol"@ != "registered_at"@,
        "version"@ != "status"@,
        "version"@ != "effective_from"@,
        "version"@ != "registered_at"@,
        "status"@ != "effective_from"@,
        "status"@ != "registered_at"@,
        "effective_from"@ != "registered_at"@,
{
    reveal_strlit("irdi");
    reveal_strlit("register");
    reveal_strlit("class");
    reveal_strlit("name");
    reveal_strlit("definition");
    reveal_strlit("submitting_organization");
    reveal_strlit("representation");
    reveal_strlit("unit");
    reveal_strlit("unit_symbol");
    reveal_strlit("version");
    reveal_strlit("status");
    reveal_strlit("effective_from");
    reveal_strlit("registered_at");
    assert("irdi"@.len() != "register"@.len());
    assert("irdi"@.len() != "class"@.len());
    assert("irdi"@[0] != "name"@[0]);
    assert("irdi"@.len() != "definition"@.len());
    assert("irdi"@.len() != "submitting_organization"@.len());
    assert("irdi"@.len() != "representation"@.len());
    assert("irdi"@[0] != "unit"@[0]);
    assert("irdi"@.len() != "unit_symbol"@.len());
    assert("irdi"@.len() != "version"@.len());
    assert("irdi"@.len() != "status"@.len());
    assert("irdi"@.len() != "effective_from"@.len());
    assert("irdi"@.len() != "registered_at"@.len());
    assert("register"@.len() != "class"@.len());
    assert("register"@.len() != "name"@.len());
    assert("register"@.len() != "definition"@.len());
    assert("register"@.len() != "submitting_organization"@.len());
    assert("register"@.len() != "representation"@.len());
    assert("register"@.len() != "unit"@.len());
    assert("register"@.len() != "unit_symbol"@.len());
    assert("register"@.len() != "version"@.len());
    assert("register"@.len() != "status"@.len());
    assert("register"@.len() != "effective_from"@.len());
    assert("register"@.len() != "registered_at"@.len());
    assert("class"@.len() != "name"@.len());
    assert("class"@.len() != "definition"@.len());
    assert("class"@.len() != "submitting_organization"@.len());
    assert("class"@.len() != "representation"@.len());
    assert("class"@.len() != "unit"@.len());
    assert("class"@.len() != "unit_symbol"@.len());
    assert("class"@.len() != "version"@.len());
    assert("class"@.len() != "status"@.len());
    assert("class"@.len() != "effective_from"@.len());
    assert("class"@.len() != "registered_at"@.len());
    assert("name"@.len() != "definition"@.len());
    assert("name"@.len() != "submitting_organization"@.len());
    assert("name"@.len() != "representation"@.len());
    assert("name"@[0] != "unit"@[0]);
    assert("name"@.len() != "unit_symbol"@.len());
    assert("name"@.len() != "version"@.len());
    assert("name"@.len() != "status"@.len());
    assert("name"@.len() != "effective_from"@.len());
    assert("name"@.len() != "registered_at"@.len());
    assert("definition"@.len() != "submitting_organization"@.len());
    assert("definition"@.len() != "representation"@.len());
    assert("definition"@.len() != "unit"@.len());
    assert("definition"@.len() != "unit_symbol"@.len());
    assert("definition"@.len() != "version"@.len());
    assert("definition"@.len() != "status"@.len());
    assert("definition"@.len() != "effective_from"@.len());
    assert("definition"@.len() != "registered_at"@.len());
    assert("submitting_organization"@.len() != "representation"@.len());
    assert("submitting_organization"@.len() != "unit"@.len());
    assert("submitting_organization"@.len() != "unit_symbol"@.len());
    assert("submitting_organization"@.len() != "version"@.len());
    assert("submitting_organization"@.len() != "status"@.len());
    assert("submitting_organization"@.len() != "effective_from"@.len());
    assert("submitting_organization"@.len() != "registered_at"@.len());
    assert("representation"@.len() != "unit"@.len());
    assert("representation"@.len() != "unit_symbol"@.len());
    assert("representation"@.len() != "version"@.len());
    assert("representation"@.len() != "status"@.len());
    assert("representation"@[0] != "effective_from"@[0]);
    assert("representation"@.len() != "registered_at"@.len());
    assert("unit"@.len() != "unit_symbol"@.len());
    assert("unit"@.len() != "version"@.len());
    assert("unit"@.len() != "status"@.len());
    assert("unit"@.len() != "effective_from"@.len());
    assert("unit"@.len() != "registered_at"@.len());
    assert("unit_symbol"@.len() != "version"@.len());
    assert("unit_symbol"@.len() != "status"@.len());
    assert("unit_symbol"@.len() != "effective_from"@.len());
    assert("unit_symbol"@.len() != "registered_at"@.len());
    assert("version"@.len() != "status"@.len());
    assert("version"@.len() != "effective_from"@.len());
    assert("version"@.len() != "registered_at"@.len());
    assert("status"@.len() != "effective_from"@.len());
    assert("status"@.len() != "registered_at"@.len());
    assert("effective_from"@.len() != "registered_at"@.len());
}

/// The field keys are free of colons and line ends.
proof fn field_keys_ok()
    ensures
        key_ok("irdi"@),
        key_ok("register"@),
        key_ok("class"@),
        key_ok("name"@),
        key_ok("definition"@),
        key_ok("submitting_organization"@),
        key_ok("representation"@),
        key_ok("unit"@),
        key_ok("unit_symbol"@),
        key_ok("version"@),
        key_ok("status"@),
        key_ok("effective_from"@),
        key_ok("registered_at"@),
{
    assert(key_ok("irdi"@)) by {
        reveal_strlit("irdi");
        assert(FIELDS@[0]@ == "irdi"@);
    }
    assert(key_ok("register"@)) by {
        reveal_strlit("register");
        assert(FIELDS@[1]@ == "register"@);
    }
    assert(key_ok("class"@)) by {
        reveal_strlit("class");
        assert(FIELDS@[2]@ == "class"@);
    }
    assert(key_ok("name"@)) by {
        reveal_strlit("name");
        assert(FIELDS@[3]@ == "name"@);
    }
    assert(key_ok("definition"@)) by {
        reveal_strlit("definition");
        assert(FIELDS@[4]@ == "definition"@);
    }
    assert(key_ok("submitting_organization"@)) by {
        reveal_strlit("submitting_organization");
        assert(FIELDS@[5]@ == "submitting_organization"@);
    }
    assert(key_ok("representation"@)) by {
        reveal_strlit("representation");
        assert(FIELDS@[6]@ == "representation"@);
    }
    assert(key_ok("unit"@)) by {
        reveal_strlit("unit");
        assert(FIELDS@[7]@ == "unit"@);
    }
    assert(key_ok("unit_symbol"@)) by {
        reveal_strlit("unit_symbol");
        assert(FIELDS@[8]@ == "unit_symbol"@);
    }
    assert(key_ok("version"@)) by {
        reveal_strlit("version");
        assert(FIELDS@[9]@ == "version"@);
    }
    assert(key_ok("status"@)) by {
        reveal_strlit("status");
        assert(FIELDS@[10]@ == "status"@);
    }
    assert(key_ok("effective_from"@)) by {
        reveal_strlit("effective_from");
        assert(FIELDS@[11]@ == "effective_from"@);
    }
    assert(key_ok("registered_at"@)) by {
        reveal_strlit("registered_at");
        assert(FIELDS@[12]@ == "registered_at"@);
    }
}

/// Each field key stands at its place.
proof fn field_places()
    ensures
        place("irdi"@) == 0,
        place("register"@) == 1,
        place("class"@) == 2,
        place("name"@) == 3,
        place("definition"@) == 4,
        place("submitting_organization"@) == 5,
        place("representation"@) == 6,
        place("unit"@) == 7,
        place("unit_symbol"@) == 8,
        place("version"@) == 9,
        place("status"@) == 10,
        place("effective_from"@) == 11,
        place("registered_at"@) == 12,
{
    let names = text::list_views(FIELDS@);
    field_keys_distinct();
    assert(names[0] == "irdi"@);
    assert(names[1] == "register"@);
    assert(names[2] == "class"@);
    assert(names[3] == "name"@);
    assert(names[4] == "definition"@);
    assert(names[5] == "submitting_organization"@);
    assert(names[6] == "representation"@);
    assert(names[7] == "unit"@);
    assert(names[8] == "unit_symbol"@);
    assert(names[9] == "version"@);
    assert(names[10] == "status"@);
    assert(names[11] == "effective_from"@);
    assert(names[12] == "registered_at"@);
    order::index_of_is(names, "irdi"@, 0);
    order::index_of_is(names, "register"@, 1);
    order::index_of_is(names, "class"@, 2);
    order::index_of_is(names, "name"@, 3);
    order::index_of_is(names, "definition"@, 4);
    order::index_of_is(names, "submitting_organization"@, 5);
    order::index_of_is(names, "representation"@, 6);
    order::index_of_is(names, "unit"@, 7);
    order::index_of_is(names, "unit_symbol"@, 8);
    order::index_of_is(names, "version"@, 9);
    order::index_of_is(names, "status"@, 10);
    order::index_of_is(names, "effective_from"@, 11);
    order::index_of_is(names, "registered_at"@, 12);
}

/// The fields of a sound entry are sound.
proof fn term_fields_ok(t: TermView)
    requires
        term_ok(t),
    ensures
        fields_ok(term_fields(t)),
{
    field_keys_ok();
    field_places();
    let f = Seq::<(Seq<char>, Seq<char>)>::empty();
    fields_ok_with(f, "irdi"@, t.irdi);
    let f = with_field(f, "irdi"@, t.irdi);
    fields_ok_push(f, "register"@, t.register);
    let f = f.push(("register"@, t.register));
    fields_ok_push(f, "class"@, t.item_class);
    let f = f.push(("class"@, t.item_class));
    fields_ok_push(f, "name"@, t.name);
    let f = f.push(("name"@, t.name));
    fields_ok_push(f, "definition"@, t.definition);
    let f = f.push(("definition"@, t.definition));
    fields_ok_with(f, "submitting_organization"@, t.submitting_organization);
    let f = with_field(f, "submitting_organization"@, t.submitting_organization);
    fields_ok_with(f, "representation"@, t.representation);
    let f = with_field(f, "representation"@, t.representation);
    fields_ok_with(f, "unit"@, t.unit);
    let f = with_field(f, "unit"@, t.unit);
    fields_ok_with(f, "unit_symbol"@, t.unit_symbol);
    let f = with_field(f, "unit_symbol"@, t.unit_symbol);
    assert(f == head_fields(t));
    if let Some(v) = t.version {
        fields_ok_push(f, "version"@, v.version);
        let f = f.push(("version"@, v.version));
        fields_ok_push(f, "status"@, v.status);
        let f = f.push(("status"@, v.status));
        fields_ok_with(f, "effective_from"@, v.effective_from);
        let f = with_field(f, "effective_from"@, v.effective_from);
        fields_ok_with(f, "registered_at"@, v.registered_at);
    }
}

/// The values of an entry's fields.
proof fn term_field_values(t: TermView)
    ensures
        field(term_fields(t), "irdi"@) == t.irdi,
        field(term_fields(t), "register"@) == Some(t.register),
        field(term_fields(t), "class"@) == Some(t.item_class),
        field(term_fields(t), "name"@) == Some(t.name),
        field(term_fields(t), "definition"@) == Some(t.definition),
        field(term_fields(t), "submitting_organization"@) == t.submitting_organization,
        field(term_fields(t), "representation"@) == t.representation,
        field(term_fields(t), "unit"@) == t.unit,
        field(term_fields(t), "unit_symbol"@) == t.unit_symbol,
        match t.version {
            Some(v) => field(term_fields(t), "version"@) == Some(v.version) && field(
                term_fields(t),
                "status"@,
            ) == Some(v.status) && field(term_fields(t), "effective_from"@) == v.effective_from && field(
                term_fields(t),
                "registered_at"@,
            ) == v.registered_at,
            None => field(term_fields(t), "version"@) is None && field(term_fields(t), "status"@) is None
                && field(term_fields(t), "effective_from"@) is None && field(
                term_fields(t),
                "registered_at"@,
            ) is None,
        },
{
    broadcast use group_fields;
    field_keys_distinct();
}

/// The fields of a sound entry make up that entry.
proof fn block_of_term(t: TermView, n: nat)
    requires
        term_ok(t),
    ensures
        block_entry(RawView { identifier: t.identifier, fields: term_fields(t) }, n) == Ok::<
            TermView,
            Seq<char>,
        >(t),
{
    term_field_values(t);
}

/// A field line adds its field to the open block.
proof fn read_field_line(
    entries: Seq<TermView>,
    id: Seq<char>,
    f: Seq<(Seq<char>, Seq<char>)>,
    k: Seq<char>,
    v: Seq<char>,
    n: nat,
)
    requires
        key_ok(k),
        v.len() > 0,
        field(f, k) is None,
        may_follow(f, k),
    ensures
        read_line(
            Reading { entries, open: Some(RawView { identifier: id, fields: f }) },
            field_line(k, v),
            n,
        ) == Ok::<Reading, Seq<char>>(
            Reading { entries, open: Some(RawView { identifier: id, fields: f.push((k, v)) }) },
        ),
{
    reveal_strlit("  ");
    reveal_strlit(": ");
    reveal_strlit("TERM ");
    reveal_strlit("END");
    let line = field_line(k, v);
    let body = k + ": "@ + escaped(v);
    assert(line =~= "  "@ + body);
    text::after_prefix("  "@, body);
    assert(line[0] == ' ');
    assert("TERM "@[0] == 'T' && "END"@[0] == 'E');
    assert(line.take(5)[0] == ' ');
    assert forall|j: int| 0 <= j < k.len() implies body[j] != ':' by {
        assert(body[j] == k[j]);
    }
    text::first_of_is(body, ':', k.len() as int);
    assert(body.take(k.len() as int) =~= k);
    assert(body.skip(k.len() as int + 2) =~= escaped(v));
    escape_round_trip(v, Seq::empty());
    assert(escaped(v) + Seq::<char>::empty() =~= escaped(v));
    assert(v + Seq::<char>::empty() =~= v);
}

/// The lines of sound fields add the fields to the open block.
proof fn read_field_lines(
    entries: Seq<TermView>,
    id: Seq<char>,
    all: Seq<(Seq<char>, Seq<char>)>,
    i: int,
    n: nat,
)
    requires
        fields_ok(all),
        0 <= i <= all.len(),
    ensures
        read_lines(
            Reading { entries, open: Some(RawView { identifier: id, fields: all.take(i) }) },
            field_lines(all.skip(i)),
            n,
        ) == Ok::<Reading, Seq<char>>(
            Reading { entries, open: Some(RawView { identifier: id, fields: all }) },
        ),
    decreases all.len() - i,
{
    if i == all.len() {
        assert(all.take(i) =~= all);
    } else {
        let (k, v) = all[i];
        assert(key_ok(all[i].0));
        order::index_of_found(keys_of(all.take(i)), k);
        if field(all.take(i), k) is Some {
            let j = order::index_of(keys_of(all.take(i)), k);
            assert(place(all[j].0) < place(all[i].0));
        }
        if i > 0 {
            assert(all.take(i).last() == all[i - 1]);
            assert(place(all[i - 1].0) < place(all[i].0));
        }
        read_field_line(entries, id, all.take(i), k, v, n);
        assert(all.take(i).push((k, v)) =~= all.take(i + 1));
        assert(field_lines(all.skip(i)).skip(1) =~= field_lines(all.skip(i + 1)));
        assert(field_lines(all.skip(i))[0] == field_line(k, v));
        read_field_lines(entries, id, all, i + 1, n + 1);
    }
}

/// The lines of a sound entry add the entry.
proof fn read_term_lines(entries: Seq<TermView>, t: TermView, n: nat)
    requires
        term_ok(t),
    ensures
        read_lines(Reading { entries, open: None }, term_lines(t), n) == Ok::<Reading, Seq<char>>(
            Reading { entries: entries.push(t), open: None },
        ),
{
    reveal_strlit("TERM ");
    reveal_strlit("END");
    let st = Reading { entries, open: None };
    let head = "TERM "@ + t.identifier;
    let f = term_fields(t);
    let none = Seq::<(Seq<char>, Seq<char>)>::empty();
    term_fields_ok(t);
    text::after_prefix("TERM "@, t.identifier);
    let opened = Reading { entries, open: Some(RawView { identifier: t.identifier, fields: none }) };
    assert(read_line(st, head, n) == Ok::<Reading, Seq<char>>(opened));
    let rest = field_lines(f) + seq!["END"@];
    assert(term_lines(t) =~= seq![head] + rest);
    assert(term_lines(t)[0] == head);
    assert(term_lines(t).skip(1) =~= rest);
    read_lines_split(opened, field_lines(f), seq!["END"@], n + 1);
    assert(f.take(0) =~= none);
    assert(f.skip(0) =~= f);
    read_field_lines(entries, t.identifier, f, 0, n + 1);
    let full = Reading { entries, open: Some(RawView { identifier: t.identifier, fields: f }) };
    let m = n + 1 + field_lines(f).len();
    block_of_term(t, m);
    assert("END"@[0] == 'E' && "TERM "@[0] == 'T');
    assert("END"@.len() == 3);
    let closed = Reading { entries: entries.push(t), open: None };
    assert(read_line(full, "END"@, m) == Ok::<Reading, Seq<char>>(closed));
    assert(seq!["END"@].skip(1) =~= Seq::<Seq<char>>::empty());
    assert(seq!["END"@][0] == "END"@);
    assert(read_lines(closed, Seq::<Seq<char>>::empty(), m + 1) == Ok::<Reading, Seq<char>>(closed));
}

/// The lines of a document of sound entries add the entries.
proof fn read_document_lines(ts: Seq<TermView>)
    requires
        forall|i: int| 0 <= i < ts.len() ==> term_ok(#[trigger] ts[i]),
    ensures
        read_lines(unread(), document_lines(ts), 1) == Ok::<Reading, Seq<char>>(
            Reading { entries: ts, open: None },
        ),
    decreases ts.len(),
{
    if ts.len() == 0 {
        assert(ts =~= Seq::<TermView>::empty());
    } else {
        let (h, t) = (ts.drop_last(), ts.last());
        assert(term_ok(ts[ts.len() - 1]));
        assert forall|i: int| 0 <= i < h.len() implies term_ok(#[trigger] h[i]) by {
            assert(term_ok(ts[i]));
        }
        read_document_lines(h);
        read_lines_split(unread(), document_lines(h), term_lines(t), 1);
        read_term_lines(h, t, 1 + document_lines(h).len());
        assert(h.push(t) =~= ts);
    }
}

/// What [`render`] writes of sound entries, [`parse`] reads back as those
/// entries, in their order.
pub proof fn document_round_trip(ts: Seq<TermView>)
    requires
        forall|i: int| 0 <= i < ts.len() ==> term_ok(#[trigger] ts[i]),
    ensures
        parsed(document(ts)) == Ok::<Seq<TermView>, Seq<char>>(ts),
{
    let none = Seq::<char>::empty();
    split_document(ts, none);
    assert(document(ts) + none =~= document(ts));
    assert(text::split_on(none, '\n') =~= seq![none]);
    read_document_lines(ts);
    let last = seq![none];
    read_lines_split(unread(), document_lines(ts), last, 1);
    let st = Reading { entries: ts, open: None };
    let m = 1 + document_lines(ts).len();
    assert(last[0] == none);
    assert(last.skip(1) =~= Seq::<Seq<char>>::empty());
    assert(read_line(st, none, m) == Ok::<Reading, Seq<char>>(st));
    assert(read_lines(st, Seq::<Seq<char>>::empty(), m + 1) == Ok::<Reading, Seq<char>>(st));
}

/// Whether a message names the line `n`.
pub open spec fn names_line(e: Seq<char>, n: nat) -> bool {
    exists|what: Seq<char>| e == #[trigger] line_fault(n, what)
}

/// Whether a message names one of `count` lines, the first of which is `n`.
pub open spec fn names_one_of(e: Seq<char>, n: nat, count: nat) -> bool {
    exists|k: nat| n <= k < n + count && #[trigger] names_line(e, k)
}

/// A fault of a block names its line.
proof fn block_fault_names_line(n: nat, id: Seq<char>, what: Seq<char>)
    ensures
        names_line(term_fault(n, id, what), n),
{
    reveal_strlit(": ");
    reveal_strlit("term `");
    reveal_strlit(": term `");
    assert(": term `"@ =~= ": "@ + "term `"@);
    assert(term_fault(n, id, what) =~= line_fault(n, "term `"@ + id + "` "@ + what));
}

/// What is wrong with a block names the line that closes it.
proof fn block_error_names_line(raw: RawView, n: nat)
    ensures
        block_entry(raw, n) matches Err(e) ==> names_line(e, n),
{
    assert forall|what: Seq<char>| names_line(#[trigger] term_fault(n, raw.identifier, what), n) by {
        block_fault_names_line(n, raw.identifier, what);
    }
}

/// What is wrong with a line names it.
proof fn line_error_names_line(st: Reading, line: Seq<char>, n: nat)
    ensures
        read_line(st, line, n) matches Err(e) ==> names_line(e, n),
{
    if let Some(block) = st.open {
        block_error_names_line(block, n);
    }
}

/// What is wrong with some lines names one of them.
proof fn lines_error_names_line(st: Reading, lines: Seq<Seq<char>>, n: nat)
    ensures
        read_lines(st, lines, n) matches Err(e) ==> names_one_of(e, n, lines.len()),
    decreases lines.len(),
{
    if lines.len() > 0 {
        line_error_names_line(st, lines[0], n);
        match read_line(st, lines[0], n) {
            Ok(next) => {
                lines_error_names_line(next, lines.skip(1), n + 1);
                if let Err(e) = read_lines(next, lines.skip(1), n + 1) {
                    let k = choose|k: nat| n + 1 <= k < n + lines.len() && #[trigger] names_line(e, k);
                    assert(names_line(e, k));
                    assert(names_one_of(e, n, lines.len()));
                }
            },
            Err(e) => {
                assert(names_line(e, n));
                assert(names_one_of(e, n, lines.len()));
            },
        }
    }
}

/// Every error of [`parse`] names a line of the document, counted from one.
pub proof fn errors_name_a_line(s: Seq<char>)
    ensures
        parsed(s) matches Err(e) ==> names_one_of(e, 1, text::split_on(s, '\n').len()),
{
    let lines = text::split_on(s, '\n');
    lines_error_names_line(unread(), lines, 1);
    match read_lines(unread(), lines, 1) {
        Ok(st) => if st.open is Some {
            let what = "unterminated term block at end of document"@;
            assert(lines.len() > 0);
            assert(names_line(line_fault(lines.len(), what), lines.len()));
            assert(names_one_of(line_fault(lines.len(), what), 1, lines.len()));
        },
        Err(e) => {},
    }
}

/// The projection of a sound item whose identifier is a token is sound,
/// whatever instant it is taken at.
pub proof fn projection_is_sound(item: ItemView, at: Option<Timestamp>)
    requires
        model::item_ok(item),
        is_token(item.identifier),
        model::text_ok(item.submitting_organization),
    ensures
        term_ok(term_of(item, at)),
{
    model::class_round_trip(item.item_class);
    model::class_name_nonempty(item.item_class);
    if let Some(v) = resolved(item, at) {
        match at {
            Some(t) => model::in_force_rule(item.versions, t),
            None => model::current_version_rule(item.versions),
        }
        let k = item.versions.index_of(v);
        assert(model::version_ok(item.versions[k]));
        model::status_round_trip(v.status);
        assert(model::status_name(v.status).len() > 0) by {
            reveal_strlit("valid");
            reveal_strlit("superseded");
            reveal_strlit("retired");
        }
        if let Some(t) = v.effective_from {
            time::stamp_round_trip(t.secs as int);
        }
        if let Some(t) = v.registered_at {
            time::stamp_round_trip(t.secs as int);
        }
    }
}

/// The canonical form of sound items is read back as their projections.
pub proof fn item_round_trip(item: ItemView, at: Option<Timestamp>)
    requires
        model::item_ok(item),
        is_token(item.identifier),
        model::text_ok(item.submitting_organization),
    ensures
        parsed(document(seq![term_of(item, at)])) == Ok::<Seq<TermView>, Seq<char>>(
            seq![term_of(item, at)],
        ),
{
    projection_is_sound(item, at);
    document_round_trip(seq![term_of(item, at)]);
}

/// The manifest gives the text under the name, and it is not empty.
pub open spec fn gives(manifest: Option<Tree>, key: Seq<char>, word: Seq<char>) -> bool {
    &&& manifest matches Some(t)
    &&& t matches Tree::Obj(m)
    &&& m.dom().contains(key)
    &&& m[key] == Tree::Str(word)
    &&& word.len() > 0
}

/// The manifest gives no text under the name, or an empty one.
pub open spec fn lacks(manifest: Option<Tree>, key: Seq<char>) -> bool {
    manifest matches Some(t) ==> (t matches Tree::Obj(m) ==> !m.dom().contains(key) || (
    m[key] matches Tree::Str(word) ==> word.len() == 0))
}

/// The unit of a data element is what its manifest gives as `unit`, else
/// as `required_unit`, else as `unit_ref`; nothing else has a unit.
pub proof fn units_are_taken_in_order(item: ItemView, at: Option<Timestamp>, u: Seq<char>)
    ensures
        item.item_class == ItemClass::DataElement ==> {
            &&& gives(item.manifest, "unit"@, u) ==> term_of(item, at).unit == Some(u)
            &&& lacks(item.manifest, "unit"@) && gives(item.manifest, "required_unit"@, u) ==> term_of(
                item,
                at,
            ).unit == Some(u)
            &&& lacks(item.manifest, "unit"@) && lacks(item.manifest, "required_unit"@) && gives(
                item.manifest,
                "unit_ref"@,
                u,
            ) ==> term_of(item, at).unit == Some(u)
            &&& lacks(item.manifest, "unit"@) && lacks(item.manifest, "required_unit"@) && lacks(
                item.manifest,
                "unit_ref"@,
            ) ==> term_of(item, at).unit is None
        },
        item.item_class != ItemClass::DataElement ==> term_of(item, at).unit is None,
{
}

/// An entry bears the item's own fields: its identifier, register, class,
/// definition and organisation as they are; the manifest's `irdi`; its
/// `name`, or the definition without one; of a data element its
/// `representation` and of a unit its `symbol`.
pub proof fn entries_bear_the_items_fields(item: ItemView, at: Option<Timestamp>, w: Seq<char>)
    ensures
        ({
            let t = term_of(item, at);
            &&& t.identifier == item.identifier
            &&& t.register == item.register
            &&& t.definition == item.title
            &&& t.submitting_organization == item.submitting_organization
            &&& gives(item.manifest, "irdi"@, w) ==> t.irdi == Some(w)
            &&& lacks(item.manifest, "irdi"@) ==> t.irdi is None
            &&& gives(item.manifest, "name"@, w) ==> t.name == w
            &&& lacks(item.manifest, "name"@) ==> t.name == item.title
            &&& item.item_class == ItemClass::DataElement && gives(
                item.manifest,
                "representation"@,
                w,
            ) ==> t.representation == Some(w)
            &&& item.item_class != ItemClass::DataElement || lacks(item.manifest, "representation"@)
                ==> t.representation is None
            &&& item.item_class == ItemClass::Unit && gives(item.manifest, "symbol"@, w)
                ==> t.unit_symbol == Some(w)
            &&& item.item_class != ItemClass::Unit || lacks(item.manifest, "symbol"@)
                ==> t.unit_symbol is None
            &&& item.item_class == ItemClass::DataElement ==> t.item_class == "data-element"@
            &&& item.item_class == ItemClass::Profile ==> t.item_class == "profile"@
            &&& item.item_class == ItemClass::CryptoSuite ==> t.item_class == "crypto-suite"@
            &&& item.item_class == ItemClass::Transform ==> t.item_class == "transform"@
            &&& item.item_class == ItemClass::TrustAnchor ==> t.item_class == "trust-anchor"@
            &&& item.item_class == ItemClass::Unit ==> t.item_class == "unit"@
            &&& item.item_class == ItemClass::Model ==> t.item_class == "model"@
            &&& item.item_class == ItemClass::CrossRegisterMapping ==> t.item_class
                == "cross-register-mapping"@
        }),
{
}

/// The version of an entry is the one in force at the instant asked for,
/// or the current one, with its number, status and dates.
pub proof fn entries_bear_the_resolved_version(item: ItemView, at: Option<Timestamp>)
    ensures
        ({
            let served = match at {
                Some(t) => model::in_force(item.versions, t),
                None => model::current(item.versions),
            };
            match (term_of(item, at).version, served) {
                (Some(e), Some(v)) => {
                    &&& e.version == v.version
                    &&& v.status == model::Status::Valid ==> e.status == "valid"@
                    &&& v.status == model::Status::Superseded ==> e.status == "superseded"@
                    &&& v.status == model::Status::Retired ==> e.status == "retired"@
                    &&& match (e.effective_from, v.effective_from) {
                        (Some(x), Some(f)) => x == time::stamp_text(f.secs as int),
                        (None, None) => true,
                        _ => false,
                    }
                    &&& match (e.registered_at, v.registered_at) {
                        (Some(x), Some(f)) => x == time::stamp_text(f.secs as int),
                        (None, None) => true,
                        _ => false,
                    }
                },
                (None, None) => true,
                _ => false,
            }
        }),
{
}

/// Whether the text has the line, between two line ends.
pub open spec fn has_line(s: Seq<char>, line: Seq<char>) -> bool {
    exists|a: Seq<char>, b: Seq<char>|
        s == #[trigger] (a + seq!['\n'] + line + seq!['\n'] + b)
}

/// A value without a backslash or a line end is written as it is.
pub proof fn plain_values_are_written_as_they_are(v: Seq<char>)
    requires
        forall|i: int|
            0 <= i < v.len() ==> #[trigger] v[i] != '\\' && v[i] != '\n' && v[i] != '\r',
    ensures
        escaped(v) == v,
    decreases v.len(),
{
    if v.len() > 0 {
        let t = v.drop_last();
        assert forall|i: int| 0 <= i < t.len() implies #[trigger] t[i] != '\\' && t[i] != '\n' && t[i]
            != '\r' by {
            assert(t[i] == v[i]);
        }
        plain_values_are_written_as_they_are(t);
        assert(v[v.len() - 1] == v.last());
        assert(t + seq![v.last()] =~= v);
    }
}

/// A field's text stands before and after a line break.
proof fn field_has_its_line(f: Seq<(Seq<char>, Seq<char>)>, k: int, head: Seq<char>, tail: Seq<char>)
    requires
        0 <= k < f.len(),
    ensures
        has_line(
            head + seq!['\n'] + field_text(f) + tail,
            "  "@ + f[k].0 + ": "@ + escaped(f[k].1),
        ),
    decreases f.len(),
{
    let line = "  "@ + f[k].0 + ": "@ + escaped(f[k].1);
    let all = head + seq!['\n'] + field_text(f) + tail;
    let front = f.drop_last();
    let last = field_line(f.last().0, f.last().1);
    assert(field_text(f) == field_text(front) + last + seq!['\n']);
    if k < f.len() - 1 {
        assert(front[k] == f[k]);
        let rest = last + seq!['\n'] + tail;
        field_has_its_line(front, k, head, rest);
        assert(head + seq!['\n'] + field_text(front) + rest =~= all);
    } else if front.len() == 0 {
        assert(field_text(front) =~= Seq::<char>::empty());
        assert(all =~= head + seq!['\n'] + line + seq!['\n'] + tail);
    } else {
        let n = front.len() - 1;
        let before = front.drop_last();
        let prior = field_line(front.last().0, front.last().1);
        let a = head + seq!['\n'] + field_text(before) + prior;
        assert(all =~= a + seq!['\n'] + line + seq!['\n'] + tail);
    }
}

/// A field that is given is among the fields.
proof fn given_fields_are_kept(f: Seq<(Seq<char>, Seq<char>)>, key: Seq<char>, value: Option<Seq<char>>)
    ensures
        value matches Some(v) ==> with_field(f, key, value).contains((key, v)),
        forall|x: (Seq<char>, Seq<char>)| #[trigger]
            f.contains(x) ==> with_field(f, key, value).contains(x),
{
    if let Some(v) = value {
        let g = f.push((key, v));
        assert(g[f.len() as int] == (key, v));
        assert forall|x: (Seq<char>, Seq<char>)| #[trigger] f.contains(x) implies g.contains(x) by {
            assert(g[f.index_of(x)] == x);
        }
    }
}

/// The head fields hold each field of an entry under its name.
proof fn head_fields_hold(t: TermView)
    ensures
        ({
            let f = head_fields(t);
            &&& t.irdi matches Some(v) ==> f.contains(("irdi"@, v))
            &&& f.contains(("register"@, t.register))
            &&& f.contains(("class"@, t.item_class))
            &&& f.contains(("name"@, t.name))
            &&& f.contains(("definition"@, t.definition))
            &&& t.submitting_organization matches Some(v) ==> f.contains(("submitting_organization"@, v))
            &&& t.representation matches Some(v) ==> f.contains(("representation"@, v))
            &&& t.unit matches Some(v) ==> f.contains(("unit"@, v))
            &&& t.unit_symbol matches Some(v) ==> f.contains(("unit_symbol"@, v))
        }),
{
    let f = Seq::<(Seq<char>, Seq<char>)>::empty();
    given_fields_are_kept(f, "irdi"@, t.irdi);
    let f = with_field(f, "irdi"@, t.irdi);
    given_fields_are_kept(f, "register"@, Some(t.register));
    let f = with_field(f, "register"@, Some(t.register));
    given_fields_are_kept(f, "class"@, Some(t.item_class));
    let f = with_field(f, "class"@, Some(t.item_class));
    given_fields_are_kept(f, "name"@, Some(t.name));
    let f = with_field(f, "name"@, Some(t.name));
    given_fields_are_kept(f, "definition"@, Some(t.definition));
    let f = with_field(f, "definition"@, Some(t.definition));
    given_fields_are_kept(f, "submitting_organization"@, t.submitting_organization);
    let f = with_field(f, "submitting_organization"@, t.submitting_organization);
    given_fields_are_kept(f, "representation"@, t.representation);
    let f = with_field(f, "representation"@, t.representation);
    given_fields_are_kept(f, "unit"@, t.unit);
    let f = with_field(f, "unit"@, t.unit);
    given_fields_are_kept(f, "unit_symbol"@, t.unit_symbol);
}

/// The fields of an entry hold the version's beside the head fields.
proof fn term_fields_hold(t: TermView)
    ensures
        ({
            let f = term_fields(t);
            &&& forall|x: (Seq<char>, Seq<char>)| #[trigger] head_fields(t).contains(x) ==> f.contains(x)
            &&& t.version matches Some(v) ==> {
                &&& f.contains(("version"@, v.version))
                &&& f.contains(("status"@, v.status))
                &&& v.effective_from matches Some(x) ==> f.contains(("effective_from"@, x))
                &&& v.registered_at matches Some(x) ==> f.contains(("registered_at"@, x))
            }
        }),
{
    if let Some(v) = t.version {
        let f = head_fields(t);
        given_fields_are_kept(f, "version"@, Some(v.version));
        let f = with_field(f, "version"@, Some(v.version));
        given_fields_are_kept(f, "status"@, Some(v.status));
        let f = with_field(f, "status"@, Some(v.status));
        given_fields_are_kept(f, "effective_from"@, v.effective_from);
        let f = with_field(f, "effective_from"@, v.effective_from);
        given_fields_are_kept(f, "registered_at"@, v.registered_at);
    }
}

/// A field of an entry stands on its line.
proof fn field_line_is_served(t: TermView, key: Seq<char>, value: Seq<char>)
    requires
        term_fields(t).contains((key, value)),
    ensures
        has_line(term_text(t), "  "@ + key + ": "@ + escaped(value)),
{
    let f = term_fields(t);
    let k = f.index_of((key, value));
    field_has_its_line(f, k, "TERM "@ + t.identifier, "END\n"@);
}

/// The served text of an entry opens with its identifier, closes with
/// `END`, and has a line of its own for each field that the entry bears,
/// under the field's name.
pub proof fn fields_stand_on_their_lines(t: TermView)
    ensures
        ({
            let s = term_text(t);
            let line = |key: Seq<char>, value: Seq<char>| "  "@ + key + ": "@ + escaped(value);
            &&& text::begins(s, "TERM "@ + t.identifier + seq!['\n'])
            &&& has_line(s, line("register"@, t.register))
            &&& has_line(s, line("class"@, t.item_class))
            &&& has_line(s, line("name"@, t.name))
            &&& has_line(s, line("definition"@, t.definition))
            &&& t.irdi matches Some(v) ==> has_line(s, line("irdi"@, v))
            &&& t.submitting_organization matches Some(v) ==> has_line(
                s,
                line("submitting_organization"@, v),
            )
            &&& t.representation matches Some(v) ==> has_line(s, line("representation"@, v))
            &&& t.unit matches Some(v) ==> has_line(s, line("unit"@, v))
            &&& t.unit_symbol matches Some(v) ==> has_line(s, line("unit_symbol"@, v))
            &&& t.version matches Some(v) ==> {
                &&& has_line(s, line("version"@, v.version))
                &&& has_line(s, line("status"@, v.status))
                &&& v.effective_from matches Some(x) ==> has_line(s, line("effective_from"@, x))
                &&& v.registered_at matches Some(x) ==> has_line(s, line("registered_at"@, x))
            }
            &&& s.skip(s.len() - 4) == "END\n"@
        }),
{
    let s = term_text(t);
    head_fields_hold(t);
    term_fields_hold(t);
    let open = "TERM "@ + t.identifier + seq!['\n'];
    assert(s.take(open.len() as int) =~= open);
    reveal_strlit("END\n");
    assert(s.skip(s.len() - 4) =~= "END\n"@);
    field_line_is_served(t, "register"@, t.register);
    field_line_is_served(t, "class"@, t.item_class);
    field_line_is_served(t, "name"@, t.name);
    field_line_is_served(t, "definition"@, t.definition);
    if let Some(v) = t.irdi {
        field_line_is_served(t, "irdi"@, v);
    }
    if let Some(v) = t.submitting_organization {
        field_line_is_served(t, "submitting_organization"@, v);
    }
    if let Some(v) = t.representation {
        field_line_is_served(t, "representation"@, v);
    }
    if let Some(v) = t.unit {
        field_line_is_served(t, "unit"@, v);
    }
    if let Some(v) = t.unit_symbol {
        field_line_is_served(t, "unit_symbol"@, v);
    }
    if let Some(v) = t.version {
        field_line_is_served(t, "version"@, v.version);
        field_line_is_served(t, "status"@, v.status);
        if let Some(x) = v.effective_from {
            field_line_is_served(t, "effective_from"@, x);
        }
        if let Some(x) = v.registered_at {
            field_line_is_served(t, "registered_at"@, x);
        }
    }
}

/// The unit that a data element's manifest gives is served on a line of
/// its own.
pub proof fn units_are_served(item: ItemView, at: Option<Timestamp>, u: Seq<char>)
    requires
        item.item_class == ItemClass::DataElement,
        gives(item.manifest, "unit"@, u) || (lacks(item.manifest, "unit"@) && gives(
            item.manifest,
            "required_unit"@,
            u,
        )) || (lacks(item.manifest, "unit"@) && lacks(item.manifest, "required_unit"@) && gives(
            item.manifest,
            "unit_ref"@,
            u,
        )),
        forall|i: int|
            0 <= i < u.len() ==> #[trigger] u[i] != '\\' && u[i] != '\n' && u[i] != '\r',
    ensures
        has_line(term_text(term_of(item, at)), "  unit: "@ + u),
{
    units_are_taken_in_order(item, at, u);
    plain_values_are_written_as_they_are(u);
    fields_stand_on_their_lines(term_of(item, at));
    reveal_strlit("  unit: ");
    reveal_strlit("  ");
    reveal_strlit("unit");
    reveal_strlit(": ");
    assert("  "@ + "unit"@ + ": "@ + escaped(u) =~= "  unit: "@ + u);
}

/// A document is its entries one after the other.
pub proof fn documents_concatenate(a: Seq<TermView>, t: TermView)
    ensures
        document(a.push(t)) == document(a) + term_text(t),
        document(Seq::<TermView>::empty()).len() == 0,
{
    assert(a.push(t).drop_last() =~= a);
}

/// A header that is absent or blank asks for JSON, without a warning.
pub proof fn no_preference_is_json(header: Seq<char>)
    requires
        forall|i: int| 0 <= i < header.len() ==> text::is_space(#[trigger] header[i]),
    ensures
        negotiated(None) == (Representation::Json, false),
        negotiated(Some(header)) == (Representation::Json, false),
{
    text::trimming_takes_only_white_space(header);
    let t = text::trimmed(header);
    if t.len() > 0 {
        let (i, j) = choose|i: int, j: int|
            0 <= i <= j <= header.len() && t == #[trigger] header.subrange(i, j);
        assert(t[0] == header[i]);
    }
}

/// A header with one entry is judged by the media type before its
/// parameters, white space around it and the case of its letters aside:
/// `text/cddal` gets the dictionary form, everything else JSON, with a
/// warning unless JSON or anything was asked for.
pub proof fn one_entry_is_judged_by_its_media_type(m: Seq<char>, parameters: Seq<char>)
    requires
        m.len() > 0,
        !text::is_space(m[0]),
        forall|i: int| 0 <= i < m.len() ==> #[trigger] m[i] != ',' && m[i] != ';',
        forall|i: int| 0 <= i < parameters.len() ==> #[trigger] parameters[i] != ',',
        parameters.len() > 0 ==> parameters[0] == ';' && !text::is_space(parameters.last()),
        parameters.len() == 0 ==> !text::is_space(m.last()),
    ensures
        ({
            let kind = text::lowered(text::trimmed(m));
            let r = negotiated(Some(m + parameters));
            &&& r.0 == Representation::Cddal <==> kind == "text/cddal"@
            &&& r.1 <==> kind != "text/cddal"@ && kind != "application/json"@ && kind != "*/*"@
        }),
{
    let h = m + parameters;
    assert(h[0] == m[0]);
    assert(h.last() == if parameters.len() > 0 { parameters.last() } else { m.last() });
    text::trimmed_tight(h);
    assert forall|j: int| 0 <= j < h.len() implies h[j] != ',' by {
        if j < m.len() {
            assert(h[j] == m[j]);
        } else {
            assert(h[j] == parameters[j - m.len()]);
        }
    }
    text::first_of_is(h, ',', h.len() as int);
    assert(text::split_on(h, ',') =~= seq![h]);
    assert forall|j: int| 0 <= j < m.len() implies h[j] != ';' by {
        assert(h[j] == m[j]);
    }
    text::first_of_is(h, ';', m.len() as int);
    assert(h.take(m.len() as int) =~= m);
    assert(text::split_on(h, ';')[0] == m);
    assert(media_type(h) == text::lowered(text::trimmed(m)));
    one_piece(h, "text/cddal"@);
    one_piece(h, "application/json"@);
    one_piece(h, "*/*"@);
}

/// A header of one entry accepts what that entry names.
proof fn one_piece(h: Seq<char>, m: Seq<char>)
    requires
        text::split_on(h, ',') == seq![h],
    ensures
        accepts(h, m) <==> media_type(h) == m,
{
    assert(seq![h][0] == h);
    if media_type(h) == m {
        assert(media_type(text::split_on(h, ',')[0]) == m);
    }
}

/// A header with more entries asks for whatever one of them asks for: it
/// gets the dictionary form where one does, and a warning only where each
/// alone would.
pub proof fn entries_add_up(a: Seq<char>, b: Seq<char>)
    requires
        a.len() > 0 && !text::is_space(a[0]) && !text::is_space(a.last()),
        b.len() > 0 && !text::is_space(b[0]) && !text::is_space(b.last()),
        forall|i: int| 0 <= i < a.len() ==> #[trigger] a[i] != ',',
    ensures
        ({
            let (ra, rb) = (negotiated(Some(a)), negotiated(Some(b)));
            let r = negotiated(Some(a + seq![','] + b));
            &&& r.0 == Representation::Cddal <==> ra.0 == Representation::Cddal || rb.0
                == Representation::Cddal
            &&& r.1 <==> r.0 == Representation::Json && ra.1 && rb.1
        }),
{
    let h = a + seq![','] + b;
    assert(h[0] == a[0] && h.last() == b.last());
    text::trimmed_tight(h);
    text::trimmed_tight(a);
    text::trimmed_tight(b);
    text::split_on_piece(a, ',', b);
    text::first_of_is(a, ',', a.len() as int);
    assert(text::split_on(a, ',') =~= seq![a]);
    first_piece_or_rest(a, b, h, "text/cddal"@);
    first_piece_or_rest(a, b, h, "application/json"@);
    first_piece_or_rest(a, b, h, "*/*"@);
    one_piece(a, "text/cddal"@);
    one_piece(a, "application/json"@);
    one_piece(a, "*/*"@);
}

/// A list accepts what its first entry or the rest of it accepts.
proof fn first_piece_or_rest(a: Seq<char>, b: Seq<char>, h: Seq<char>, m: Seq<char>)
    requires
        text::split_on(h, ',') == seq![a] + text::split_on(b, ','),
    ensures
        accepts(h, m) <==> media_type(a) == m || accepts(b, m),
{
    let (all, rest) = (text::split_on(h, ','), text::split_on(b, ','));
    assert(all[0] == a);
    assert forall|i: int| 0 < i < all.len() implies #[trigger] all[i] == rest[i - 1] by {}
    if accepts(h, m) {
        let i = choose|i: int| 0 <= i < all.len() && media_type(#[trigger] all[i]) == m;
        if i > 0 {
            assert(media_type(rest[i - 1]) == m);
        }
    }
    if accepts(b, m) {
        let i = choose|i: int| 0 <= i < rest.len() && media_type(#[trigger] rest[i]) == m;
        assert(all[i + 1] == rest[i]);
        assert(media_type(all[i + 1]) == m);
    }
    if media_type(a) == m {
        assert(media_type(all[0]) == m);
    }
}

} // verus!
