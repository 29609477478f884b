//! Discovery: signed service descriptors, protocol bindings and
//! verification mechanisms.
//!
//! - Each descriptor carries its content (the body) and an Ed25519
//!   signature over the compact JSON text of the body without its
//!   `signature` member.
//! - Verification is done against an operator keyring. An operator id is
//!   derived from the public key, so that an id pins exactly one key.
//! - Versions are immutable; supersession follows the discipline of items.

use vstd::prelude::*;
use crate::bridge;
use crate::crypto;
use crate::fields;
use crate::json;
use crate::json::{Json, Object, Tree};
use crate::model;
use crate::order;
use crate::schema;
use crate::table;
use crate::table::Table;
use crate::text;
use crate::time;
use crate::time::Timestamp;

verus! {

/// The operational role a service descriptor advertises.
#[derive(Debug, Clone, Copy, PartialEq, Eq, Hash, Structural)]
pub enum ServiceClass {
    Issuer,
    Registry,
    Resolver,
    Trust,
    Log,
    Archive,
    Gateway,
    MarketplaceGate,
    Edge,
}

/// The name of a service class.
pub open spec fn service_class_name(c: ServiceClass) -> Seq<char> {
    match c {
        ServiceClass::Issuer => "issuer"@,
        ServiceClass::Registry => "registry"@,
        ServiceClass::Resolver => "resolver"@,
        ServiceClass::Trust => "trust"@,
        ServiceClass::Log => "log"@,
        ServiceClass::Archive => "archive"@,
        ServiceClass::Gateway => "gateway"@,
        ServiceClass::MarketplaceGate => "marketplace-gate"@,
        ServiceClass::Edge => "edge"@,
    }
}

/// The service class that a text names, surrounding white space dropped.
pub open spec fn parsed_service_class(s: Seq<char>) -> Option<ServiceClass> {
    let t = text::trimmed(s);
    if t == "issuer"@ {
        Some(ServiceClass::Issuer)
    } else if t == "registry"@ {
        Some(ServiceClass::Registry)
    } else if t == "resolver"@ {
        Some(ServiceClass::Resolver)
    } else if t == "trust"@ {
        Some(ServiceClass::Trust)
    } else if t == "log"@ {
        Some(ServiceClass::Log)
    } else if t == "archive"@ {
        Some(ServiceClass::Archive)
    } else if t == "gateway"@ {
        Some(ServiceClass::Gateway)
    } else if t == "marketplace-gate"@ {
        Some(ServiceClass::MarketplaceGate)
    } else if t == "edge"@ {
        Some(ServiceClass::Edge)
    } else {
        None
    }
}

/// The names of all service classes.
pub const SERVICE_CLASS_NAMES: [&'static str; 9] = [
    "issuer",
    "registry",
    "resolver",
    "trust",
    "log",
    "archive",
    "gateway",
    "marketplace-gate",
    "edge",
];

/// The service class names, separated by commas.
pub open spec fn service_class_help() -> Seq<char> {
    text::joined(text::list_views(SERVICE_CLASS_NAMES@), ", "@)
}

impl ServiceClass {
    /// Every service class.
    pub const ALL: [ServiceClass; 9] = [
        ServiceClass::Issuer,
        ServiceClass::Registry,
        ServiceClass::Resolver,
        ServiceClass::Trust,
        ServiceClass::Log,
        ServiceClass::Archive,
        ServiceClass::Gateway,
        ServiceClass::MarketplaceGate,
        ServiceClass::Edge,
    ];

    /// The name of the class.
    pub fn as_str(self) -> (r: &'static str)
        ensures
            r@ == service_class_name(self),
    {
        match self {
            ServiceClass::Issuer => "issuer",
            ServiceClass::Registry => "registry",
            ServiceClass::Resolver => "resolver",
            ServiceClass::Trust => "trust",
            ServiceClass::Log => "log",
            ServiceClass::Archive => "archive",
            ServiceClass::Gateway => "gateway",
            ServiceClass::MarketplaceGate => "marketplace-gate",
            ServiceClass::Edge => "edge",
        }
    }

    /// Parses the name of a class.
    pub fn parse(s: &str) -> (r: Option<ServiceClass>)
        ensures
            r == parsed_service_class(s@),
    {
        let t = text::trim(s);
        let mut i: usize = 0;
        while i < 9
            invariant
                i <= 9,
                t@ == text::trimmed(s@),
                forall|j: int|
                    0 <= j < i ==> t@ != service_class_name(#[trigger] ServiceClass::ALL@[j]),
            decreases 9 - i,
        {
            let c = ServiceClass::ALL[i];
            if text::same(c.as_str(), t.as_str()) {
                return Some(c);
            }
            i = i + 1;
        }
        None
    }

    /// The class names, separated by commas.
    pub fn help() -> (r: String)
        ensures
            r@ == service_class_help(),
    {
        text::join_list(&SERVICE_CLASS_NAMES, ", ")
    }
}

/// Every service class is read back from its name.
pub proof fn service_class_round_trip(c: ServiceClass)
    ensures
        parsed_service_class(service_class_name(c)) == Some(c),
{
    reveal_strlit("issuer");
    reveal_strlit("registry");
    reveal_strlit("resolver");
    reveal_strlit("trust");
    reveal_strlit("log");
    reveal_strlit("archive");
    reveal_strlit("gateway");
    reveal_strlit("marketplace-gate");
    reveal_strlit("edge");
    text::trimmed_tight(service_class_name(c));
    assert("issuer"@[0] == 'i' && "registry"@[2] == 'g' && "resolver"@[2] == 's' && "trust"@[0] == 't'
        && "log"@[0] == 'l' && "archive"@[0] == 'a' && "gateway"@[0] == 'g' && "marketplace-gate"@[0]
        == 'm' && "edge"@[0] == 'e' && "registry"@[0] == 'r' && "resolver"@[0] == 'r');
}

/// Lifecycle status of a discovery descriptor.
#[derive(Debug, Clone, Copy, PartialEq, Eq, Hash, Structural)]
pub enum ServiceStatus {
    /// Operationally serving.
    Active,
    /// Replaced by a successor.
    Superseded,
    /// Operator-paused.
    Suspended,
    /// Replaced, with a succession pointer named.
    Succeeded,
}

/// The name of a service status.
pub open spec fn service_status_name(s: ServiceStatus) -> Seq<char> {
    match s {
        ServiceStatus::Active => "active"@,
        ServiceStatus::Superseded => "superseded"@,
        ServiceStatus::Suspended => "suspended"@,
        ServiceStatus::Succeeded => "succeeded"@,
    }
}

/// The service status that a text names, surrounding white space dropped.
pub open spec fn parsed_service_status(s: Seq<char>) -> Option<ServiceStatus> {
    let t = text::trimmed(s);
    if t == "active"@ {
        Some(ServiceStatus::Active)
    } else if t == "superseded"@ {
        Some(ServiceStatus::Superseded)
    } else if t == "suspended"@ {
        Some(ServiceStatus::Suspended)
    } else if t == "succeeded"@ {
        Some(ServiceStatus::Succeeded)
    } else {
        None
    }
}

impl ServiceStatus {
    /// The name of the status.
    pub fn as_str(self) -> (r: &'static str)
        ensures
            r@ == service_status_name(self),
    {
        match self {
            ServiceStatus::Active => "active",
            ServiceStatus::Superseded => "superseded",
            ServiceStatus::Suspended => "suspended",
            ServiceStatus::Succeeded => "succeeded",
        }
    }

    /// Parses the name of a status.
    pub fn parse(s: &str) -> (r: Option<ServiceStatus>)
        ensures
            r == parsed_service_status(s@),
    {
        let t = text::trim(s);
        if text::same(t.as_str(), "active") {
            Some(ServiceStatus::Active)
        } else if text::same(t.as_str(), "superseded") {
            Some(ServiceStatus::Superseded)
        } else if text::same(t.as_str(), "suspended") {
            Some(ServiceStatus::Suspended)
        } else if text::same(t.as_str(), "succeeded") {
            Some(ServiceStatus::Succeeded)
        } else {
            None
        }
    }
}

/// Every service status is read back from its name.
pub proof fn service_status_round_trip(s: ServiceStatus)
    ensures
        parsed_service_status(service_status_name(s)) == Some(s),
{
    reveal_strlit("active");
    reveal_strlit("superseded");
    reveal_strlit("suspended");
    reveal_strlit("succeeded");
    text::trimmed_tight(service_status_name(s));
    assert("active"@[0] == 'a' && "suspended"@[2] == 's' && "succeeded"@[2] == 'c' && "superseded"@.len()
        == 10 && "suspended"@.len() == 9 && "succeeded"@.len() == 9 && "active"@.len() == 6);
}

/// Errors raised by the discovery layer.
#[derive(Debug, PartialEq, Eq)]
pub enum DiscoveryError {
    UnknownOperator(String),
    BadKey(String),
    BadSignature(String),
    Invalid(String),
}

/// The content of a discovery error.
pub enum DiscoveryErrorView {
    UnknownOperator(Seq<char>),
    BadKey(Seq<char>),
    BadSignature(Seq<char>),
    Invalid(Seq<char>),
}

impl View for DiscoveryError {
    type V = DiscoveryErrorView;

    open spec fn view(&self) -> DiscoveryErrorView {
        match *self {
            DiscoveryError::UnknownOperator(s) => DiscoveryErrorView::UnknownOperator(s@),
            DiscoveryError::BadKey(s) => DiscoveryErrorView::BadKey(s@),
            DiscoveryError::BadSignature(s) => DiscoveryErrorView::BadSignature(s@),
            DiscoveryError::Invalid(s) => DiscoveryErrorView::Invalid(s@),
        }
    }
}

/// How a discovery error is described.
pub open spec fn discovery_text(e: DiscoveryErrorView) -> Seq<char> {
    match e {
        DiscoveryErrorView::UnknownOperator(id) => "unknown operator `"@ + id + "`"@,
        DiscoveryErrorView::BadKey(m) => "bad key: "@ + m,
        DiscoveryErrorView::BadSignature(m) => "signature verification failed: "@ + m,
        DiscoveryErrorView::Invalid(m) => m,
    }
}

impl DiscoveryError {
    /// The description of the error.
    pub fn to_string(&self) -> (r: String)
        ensures
            r@ == discovery_text(self@),
    {
        match self {
            DiscoveryError::UnknownOperator(id) => text::cat3("unknown operator `", id.as_str(), "`"),
            DiscoveryError::BadKey(m) => text::cat2("bad key: ", m.as_str()),
            DiscoveryError::BadSignature(m) => text::cat2(
                "signature verification failed: ",
                m.as_str(),
            ),
            DiscoveryError::Invalid(m) => m.clone(),
        }
    }
}

/// The bytes of a text.
pub open spec fn utf8(s: Seq<char>) -> Seq<u8> {
    vstd::utf8::encode_utf8(s)
}

/// The secret seed of an operator label.
pub open spec fn seed_of(label: Seq<char>) -> Seq<u8> {
    crypto::sha256_of(utf8("UNIDPP-DISCOVERY/OPERATOR-SEED"@) + utf8(label))
}

/// The public key of an operator label.
pub open spec fn public_of(label: Seq<char>) -> Seq<u8> {
    crypto::ed25519_public(seed_of(label))
}

/// The operator id of a public key: `op-` and 16 hexadecimal digits of a
/// digest of the key.
pub open spec fn operator_id_of(key: Seq<u8>) -> Seq<char> {
    "op-"@ + crypto::hex_text(crypto::sha256_of(utf8("op"@) + key).take(8))
}

/// The key id of a public key: `k-` and 16 hexadecimal digits of a digest
/// of the key.
pub open spec fn key_id_of(key: Seq<u8>) -> Seq<char> {
    "k-"@ + crypto::hex_text(crypto::sha256_of(utf8("key"@) + key).take(8))
}

/// One byte sequence after another.
fn append_bytes(a: &[u8], b: &[u8]) -> (r: Vec<u8>)
    ensures
        r@ == a@ + b@,
{
    let mut out: Vec<u8> = Vec::new();
    let mut i: usize = 0;
    while i < a.len()
        invariant
            i <= a@.len(),
            out@ == a@.take(i as int),
        decreases a@.len() - i,
    {
        out.push(a[i]);
        i = i + 1;
        assert(a@.take(i as int) =~= a@.take(i - 1).push(a@[i - 1]));
    }
    let mut j: usize = 0;
    assert(a@.take(i as int) =~= a@);
    assert(out@ =~= a@ + b@.take(0));
    while j < b.len()
        invariant
            j <= b@.len(),
            out@ == a@ + b@.take(j as int),
        decreases b@.len() - j,
    {
        out.push(b[j]);
        j = j + 1;
        assert(out@ =~= a@ + b@.take(j as int));
    }
    assert(b@.take(j as int) =~= b@);
    out
}

/// The secret seed of a label within a domain.
fn deterministic_seed(domain: &[u8], label: &[u8]) -> (r: [u8; 32])
    ensures
        r@ == crypto::sha256_of(domain@ + label@),
{
    let message = append_bytes(domain, label);
    crypto::sha256(message.as_slice())
}

/// The first eight bytes of a digest in hexadecimal notation.
fn short_digest(tag: &[u8], key: &[u8; 32]) -> (r: String)
    ensures
        r@ == crypto::hex_text(crypto::sha256_of(tag@ + key@).take(8)),
{
    let message = append_bytes(tag, key.as_slice());
    let digest = crypto::sha256(message.as_slice());
    let head = vstd::slice::slice_subrange(digest.as_slice(), 0, 8);
    assert(head@ =~= digest@.take(8));
    crypto::hex_lower(head)
}

/// Derives an operator id from a public key.
pub fn operator_id(public_key: &[u8; 32]) -> (r: String)
    ensures
        r@ == operator_id_of(public_key@),
{
    let hex = short_digest("op".as_bytes(), public_key);
    text::cat2("op-", hex.as_str())
}

/// Derives a key id from a public key.
pub fn key_id(public_key: &[u8; 32]) -> (r: String)
    ensures
        r@ == key_id_of(public_key@),
{
    let hex = short_digest("key".as_bytes(), public_key);
    text::cat2("k-", hex.as_str())
}

/// The secret seed of an operator label.
fn operator_seed(label: &str) -> (r: [u8; 32])
    ensures
        r@ == seed_of(label@),
{
    deterministic_seed("UNIDPP-DISCOVERY/OPERATOR-SEED".as_bytes(), label.as_bytes())
}

/// The public key of an operator label.
pub fn operator_public_key(label: &str) -> (r: [u8; 32])
    ensures
        r@ == public_of(label@),
        crypto::ed25519_key_fault(r@) is None,
{
    crypto::public_key_of(&operator_seed(label))
}

/// The operator identity block of a label.
pub open spec fn operator_block(label: Seq<char>) -> Tree {
    let key = public_of(label);
    Tree::Obj(
        Map::<Seq<char>, Tree>::empty().insert("id"@, Tree::Str(operator_id_of(key))).insert(
            "key_id"@,
            Tree::Str(key_id_of(key)),
        ).insert("public_key"@, Tree::Str(crypto::hex_text(key))).insert(
            "algorithm"@,
            Tree::Str("ed25519"@),
        ).insert("label"@, Tree::Str(label)),
    )
}

/// The operator identity block as it appears inside descriptor bodies.
pub fn operator_record(label: &str) -> (r: Json)
    ensures
        r@ == operator_block(label@),
{
    let key = operator_public_key(label);
    let id = operator_id(&key);
    let kid = key_id(&key);
    let hex = crypto::hex_lower(key.as_slice());
    let mut m = Object::new();
    m.put_str("id", id.as_str());
    m.put_str("key_id", kid.as_str());
    m.put_str("public_key", hex.as_str());
    m.put_str("algorithm", "ed25519");
    m.put_str("label", label);
    Json::Obj(m)
}

/// An operator identity: an id that pins one public key.
#[derive(Debug, PartialEq, Eq)]
pub struct OperatorId {
    pub id: String,
    pub public_key: [u8; 32],
}

impl Clone for OperatorId {
    fn clone(&self) -> (r: OperatorId)
        ensures
            r.id@ == self.id@,
            r.public_key == self.public_key,
    {
        OperatorId { id: self.id.clone(), public_key: self.public_key }
    }
}

/// The operators that the project itself runs.
pub const DEV_LABELS: [&'static str; 8] = [
    "unidpp-registry",
    "unidpp-issuer",
    "unidpp-resolver",
    "unidpp-trust",
    "unidpp-log",
    "unidpp-archive",
    "unidpp-cli-verifier",
    "unidpp-edge",
];

/// The public keys of known operators, by operator id.
pub struct OperatorKeyring {
    keys: Table<[u8; 32]>,
}

impl View for OperatorKeyring {
    type V = Map<Seq<char>, Seq<u8>>;

    closed spec fn view(&self) -> Map<Seq<char>, Seq<u8>> {
        self.keys@
    }
}

/// `m` with the operator of a label.
pub open spec fn with_operator(m: Map<Seq<char>, Seq<u8>>, label: Seq<char>) -> Map<
    Seq<char>,
    Seq<u8>,
> {
    m.insert(operator_id_of(public_of(label)), public_of(label))
}

/// The operators of the first `n` labels.
pub open spec fn operators_of(labels: Seq<&'static str>, n: int) -> Map<Seq<char>, Seq<u8>>
    decreases n,
{
    if n <= 0 {
        Map::empty()
    } else {
        with_operator(operators_of(labels, n - 1), labels[n - 1]@)
    }
}

/// Whether a signature of a payload by an operator holds.
pub open spec fn verification(
    keys: Map<Seq<char>, Seq<u8>>,
    id: Seq<char>,
    payload: Seq<u8>,
    signature: Seq<u8>,
) -> Result<(), DiscoveryErrorView> {
    if !keys.dom().contains(id) {
        Err(DiscoveryErrorView::UnknownOperator(id))
    } else if let Some(e) = crypto::ed25519_key_fault(keys[id]) {
        Err(DiscoveryErrorView::BadKey("`"@ + id + "`: "@ + e))
    } else if signature.len() != 64 {
        Err(DiscoveryErrorView::BadSignature("length: "@ + "signature error"@))
    } else if !crypto::ed25519_holds(keys[id], payload, signature) {
        Err(DiscoveryErrorView::BadSignature("signature does not verify for `"@ + id + "`"@))
    } else {
        Ok(())
    }
}

impl OperatorKeyring {
    /// A keyring without operators.
    pub fn new() -> (r: OperatorKeyring)
        ensures
            r@ == Map::<Seq<char>, Seq<u8>>::empty(),
    {
        OperatorKeyring { keys: Table::new() }
    }

    /// The keyring of the operators that the project itself runs.
    pub fn seeded_dev() -> (r: OperatorKeyring)
        ensures
            r@ == operators_of(DEV_LABELS@, 8),
            forall|id: Seq<char>| #[trigger]
                r@.dom().contains(id) <==> exists|i: int|
                    0 <= i < 8 && operator_id_of(public_of((#[trigger] DEV_LABELS@[i])@)) == id,
            forall|id: Seq<char>| #[trigger]
                r@.dom().contains(id) ==> operator_id_of(r@[id]) == id,
    {
        let mut k = OperatorKeyring::new();
        let mut i: usize = 0;
        while i < 8
            invariant
                i <= 8,
                k@ == operators_of(DEV_LABELS@, i as int),
            decreases 8 - i,
        {
            k.add(DEV_LABELS[i]);
            i = i + 1;
        }
        proof {
            seeded_ids_are_the_operators(DEV_LABELS@, 8);
        }
        k
    }

    /// Adds the operator of a label; its key and id follow from the label.
    pub fn add(&mut self, label: &str)
        ensures
            final(self)@ == with_operator(old(self)@, label@),
    {
        let public = operator_public_key(label);
        let id = operator_id(&public);
        self.keys.insert(id, public);
    }

    /// The public key of an operator.
    pub fn get(&self, operator_id: &str) -> (r: Option<&[u8; 32]>)
        ensures
            match r {
                Some(k) => self@.dom().contains(operator_id@) && self@[operator_id@] == k@,
                None => !self@.dom().contains(operator_id@),
            },
    {
        self.keys.get(operator_id)
    }

    /// Whether an operator is known.
    pub fn contains(&self, operator_id: &str) -> (r: bool)
        ensures
            r == self@.dom().contains(operator_id@),
    {
        self.keys.get(operator_id).is_some()
    }

    /// The ids of the known operators in ascending order.
    pub fn operator_ids(&self) -> (r: Vec<String>)
        ensures
            text::views(r@) == table::listing(self@.dom()),
            json::ascending(text::views(r@)),
            table::lists(text::views(r@), self@.dom()),
    {
        let n = self.keys.len();
        proof {
            table::listing_lists(self@.dom());
        }
        let mut out: Vec<String> = Vec::new();
        let mut i: usize = 0;
        while i < n
            invariant
                i <= n,
                n == table::listing(self@.dom()).len(),
                out@.len() == i,
                forall|j: int| 0 <= j < i ==> (#[trigger] out@[j])@ == table::listing(self@.dom())[j],
            decreases n - i,
        {
            out.push(self.keys.key_at(i).to_owned());
            i = i + 1;
        }
        assert(text::views(out@) =~= table::listing(self@.dom()));
        out
    }

    /// The public key of an operator, or the error that it is not known.
    pub fn public_key(&self, operator_id: &str) -> (r: Result<[u8; 32], DiscoveryError>)
        ensures
            match r {
                Ok(k) => self@.dom().contains(operator_id@) && self@[operator_id@] == k@,
                Err(e) => !self@.dom().contains(operator_id@) && e@
                    == DiscoveryErrorView::UnknownOperator(operator_id@),
            },
    {
        match self.keys.get(operator_id) {
            Some(k) => Ok(*k),
            None => Err(DiscoveryError::UnknownOperator(operator_id.to_owned())),
        }
    }

    /// Verifies a signature over `payload` against an operator's key.
    pub fn verify(&self, operator_id: &str, payload: &[u8], signature: &[u8]) -> (r: Result<
        (),
        DiscoveryError,
    >)
        ensures
            match r {
                Ok(_) => verification(self@, operator_id@, payload@, signature@) is Ok,
                Err(e) => verification(self@, operator_id@, payload@, signature@) == Err::<
                    (),
                    DiscoveryErrorView,
                >(e@),
            },
    {
        let key = match self.public_key(operator_id) {
            Ok(k) => k,
            Err(e) => return Err(e),
        };
        if let Some(e) = crypto::key_fault(&key) {
            return Err(DiscoveryError::BadKey(text::cat4("`", operator_id, "`: ", e.as_str())));
        }
        if let Some(e) = crypto::signature_fault(signature) {
            return Err(DiscoveryError::BadSignature(text::cat2("length: ", e.as_str())));
        }
        if crypto::holds(&key, payload, signature) {
            Ok(())
        } else {
            Err(
                DiscoveryError::BadSignature(
                    text::cat3("signature does not verify for `", operator_id, "`"),
                ),
            )
        }
    }
}

impl Default for OperatorKeyring {
    fn default() -> (r: Self)
        ensures
            r@ == operators_of(DEV_LABELS@, 8),
    {
        OperatorKeyring::seeded_dev()
    }
}

/// Wire representation of the signature block.
#[derive(Debug, PartialEq, Eq)]
pub struct SignatureValue {
    pub key_id: String,
    pub algorithm: String,
    pub value: Vec<u8>,
}

/// The content of a signature block.
pub struct SignatureView {
    pub key_id: Seq<char>,
    pub algorithm: Seq<char>,
    pub value: Seq<u8>,
}

impl View for SignatureValue {
    type V = SignatureView;

    open spec fn view(&self) -> SignatureView {
        SignatureView { key_id: self.key_id@, algorithm: self.algorithm@, value: self.value@ }
    }
}

impl Clone for SignatureValue {
    fn clone(&self) -> (r: SignatureValue)
        ensures
            r@ == self@,
    {
        let none: Vec<u8> = Vec::new();
        let value = append_bytes(self.value.as_slice(), none.as_slice());
        assert(value@ =~= self.value@);
        SignatureValue { key_id: self.key_id.clone(), algorithm: self.algorithm.clone(), value }
    }
}

/// The wire form of a signature block.
pub open spec fn signature_tree(s: SignatureView) -> Tree {
    Tree::Obj(
        Map::<Seq<char>, Tree>::empty().insert("key_id"@, Tree::Str(s.key_id)).insert(
            "algorithm"@,
            Tree::Str(s.algorithm),
        ).insert("value"@, Tree::Str(crypto::hex_text(s.value))),
    )
}

/// What the wire form of a signature block parses to.
pub open spec fn parsed_signature(t: Tree) -> Result<SignatureView, Seq<char>> {
    let key_id = json::get_str(t, "key_id"@);
    let algorithm = json::get_str(t, "algorithm"@);
    let hex = json::get_str(t, "value"@);
    if json::obj_of(t) is None {
        Err("signature must be an object"@)
    } else if key_id is None {
        Err("missing `key_id`"@)
    } else if algorithm is None {
        Err("missing `algorithm`"@)
    } else if algorithm->Some_0 != "ed25519"@ {
        Err(
            "unsupported signature algorithm `"@ + algorithm->Some_0
                + "` (only `ed25519` is accepted)"@,
        )
    } else if hex is None {
        Err("missing `value`"@)
    } else {
        match crypto::hex_bytes(hex->Some_0) {
            None => Err("`value` is not a hex string: `"@ + hex->Some_0 + "`"@),
            Some(value) => if value.len() != 64 {
                Err(
                    "Ed25519 signature must be 64 bytes (got "@ + text::decimal(value.len()) + ")"@,
                )
            } else {
                Ok(
                    SignatureView {
                        key_id: key_id->Some_0,
                        algorithm: algorithm->Some_0,
                        value,
                    },
                )
            },
        }
    }
}

impl SignatureValue {
    /// Wire form.
    pub fn to_json(&self) -> (r: Json)
        ensures
            r@ == signature_tree(self@),
    {
        let hex = crypto::hex_lower(self.value.as_slice());
        let mut m = Object::new();
        m.put_str("key_id", self.key_id.as_str());
        m.put_str("algorithm", self.algorithm.as_str());
        m.put_str("value", hex.as_str());
        Json::Obj(m)
    }

    /// Parses the wire form.
    pub fn from_json(v: &Json) -> (r: Result<SignatureValue, String>)
        ensures
            match r {
                Ok(x) => parsed_signature(v@) == Ok::<SignatureView, Seq<char>>(x@),
                Err(e) => parsed_signature(v@) == Err::<SignatureView, Seq<char>>(e@),
            },
    {
        if v.as_object().is_none() {
            return Err("signature must be an object".to_owned());
        }
        let key_id = match v.get_str("key_id") {
            Some(s) => s.to_owned(),
            None => return Err("missing `key_id`".to_owned()),
        };
        let algorithm = match v.get_str("algorithm") {
            Some(s) => s.to_owned(),
            None => return Err("missing `algorithm`".to_owned()),
        };
        if !text::same(algorithm.as_str(), "ed25519") {
            return Err(
                text::cat3(
                    "unsupported signature algorithm `",
                    algorithm.as_str(),
                    "` (only `ed25519` is accepted)",
                ),
            );
        }
        let hex = match v.get_str("value") {
            Some(s) => s,
            None => return Err("missing `value`".to_owned()),
        };
        let value = match crypto::hex_decode(hex) {
            Some(b) => b,
            None => return Err(text::cat3("`value` is not a hex string: `", hex, "`")),
        };
        if value.len() != 64 {
            let n = text::decimal_of_usize(value.len());
            return Err(text::cat3("Ed25519 signature must be 64 bytes (got ", n.as_str(), ")"));
        }
        Ok(SignatureValue { key_id, algorithm, value })
    }
}

/// One endpoint a service exposes.
#[derive(Debug, PartialEq, Eq)]
pub struct Endpoint {
    pub uri: String,
    pub protocol_binding_ref: Option<String>,
}

/// The content of an endpoint.
pub struct EndpointView {
    pub uri: Seq<char>,
    pub protocol_binding_ref: Option<Seq<char>>,
}

impl View for Endpoint {
    type V = EndpointView;

    open spec fn view(&self) -> EndpointView {
        EndpointView { uri: self.uri@, protocol_binding_ref: text::opt_view(self.protocol_binding_ref) }
    }
}

/// The wire form of an endpoint.
pub open spec fn endpoint_tree(e: EndpointView) -> Tree {
    Tree::Obj(
        json::put_opt(
            Map::<Seq<char>, Tree>::empty().insert("uri"@, Tree::Str(e.uri)),
            "protocol_binding_ref"@,
            json::opt_str(e.protocol_binding_ref),
        ),
    )
}

/// What the wire form of an endpoint parses to.
pub open spec fn parsed_endpoint(t: Tree) -> Result<EndpointView, Seq<char>> {
    match json::obj_of(t) {
        None => Err("endpoint must be an object"@),
        Some(m) => {
            let uri = json::get_str(t, "uri"@);
            let binding = fields::present(m, "protocol_binding_ref"@);
            if uri is None || uri->Some_0.len() == 0 {
                Err("missing `uri`"@)
            } else if binding is Some && json::str_of(binding->Some_0) is None {
                Err("`protocol_binding_ref` must be a string"@)
            } else {
                Ok(
                    EndpointView {
                        uri: uri->Some_0,
                        protocol_binding_ref: match binding {
                            Some(Tree::Str(s)) => if s.len() > 0 {
                                Some(s)
                            } else {
                                None
                            },
                            _ => None,
                        },
                    },
                )
            }
        },
    }
}

impl Endpoint {
    /// Wire form.
    pub fn to_json(&self) -> (r: Json)
        ensures
            r@ == endpoint_tree(self@),
    {
        let mut m = Object::new();
        m.put_str("uri", self.uri.as_str());
        m.put_opt_str("protocol_binding_ref", &self.protocol_binding_ref);
        Json::Obj(m)
    }

    /// Parses the wire form.
    pub fn from_json(v: &Json) -> (r: Result<Endpoint, String>)
        ensures
            match r {
                Ok(x) => parsed_endpoint(v@) == Ok::<EndpointView, Seq<char>>(x@),
                Err(e) => parsed_endpoint(v@) == Err::<EndpointView, Seq<char>>(e@),
            },
    {
        let o = match v.as_object() {
            Some(o) => o,
            None => return Err("endpoint must be an object".to_owned()),
        };
        let uri = match o.get_str("uri") {
            Some(s) => if s.is_empty() {
                return Err("missing `uri`".to_owned());
            } else {
                s.to_owned()
            },
            None => return Err("missing `uri`".to_owned()),
        };
        let protocol_binding_ref = match fields::read_present(o, "protocol_binding_ref") {
            None => None,
            Some(x) => match x.as_str() {
                Some(s) => if s.is_empty() {
                    None
                } else {
                    Some(s.to_owned())
                },
                None => return Err("`protocol_binding_ref` must be a string".to_owned()),
            },
        };
        Ok(Endpoint { uri, protocol_binding_ref })
    }
}

/// Operator identity block inside a descriptor body.
#[derive(Debug, PartialEq, Eq)]
pub struct OperatorRef {
    pub id: String,
    pub public_key: [u8; 32],
}

/// The content of an operator identity block.
pub struct OperatorView {
    pub id: Seq<char>,
    pub public_key: Seq<u8>,
}

impl View for OperatorRef {
    type V = OperatorView;

    open spec fn view(&self) -> OperatorView {
        OperatorView { id: self.id@, public_key: self.public_key@ }
    }
}

/// The wire form of an operator identity block.
pub open spec fn operator_tree(o: OperatorView) -> Tree {
    Tree::Obj(
        Map::<Seq<char>, Tree>::empty().insert("id"@, Tree::Str(o.id)).insert(
            "key_id"@,
            Tree::Str(key_id_of(o.public_key)),
        ).insert("public_key"@, Tree::Str(crypto::hex_text(o.public_key))).insert(
            "algorithm"@,
            Tree::Str("ed25519"@),
        ),
    )
}

/// What the wire form of an operator identity block parses to. The id has
/// to be the one derived from the key.
pub open spec fn parsed_operator(t: Tree) -> Result<OperatorView, Seq<char>> {
    let id = json::get_str(t, "id"@);
    let hex = json::get_str(t, "public_key"@);
    if json::obj_of(t) is None {
        Err("operator must be an object"@)
    } else if id is None || id->Some_0.len() == 0 {
        Err("missing `operator.id`"@)
    } else if hex is None {
        Err("missing `operator.public_key`"@)
    } else {
        match crypto::hex_bytes(hex->Some_0) {
            None => Err("`operator.public_key` is not a hex string: `"@ + hex->Some_0 + "`"@),
            Some(key) => if key.len() != 32 {
                Err("Ed25519 public key must be 32 bytes (got "@ + text::decimal(key.len()) + ")"@)
            } else if id->Some_0 != operator_id_of(key) {
                Err(
                    "operator id `"@ + id->Some_0 + "` does not match the content-derived id `"@
                        + operator_id_of(key) + "` for the public key"@,
                )
            } else {
                Ok(OperatorView { id: id->Some_0, public_key: key })
            },
        }
    }
}

/// An operator block that parses bears the id derived from its key.
pub proof fn operator_id_pins_the_key(t: Tree)
    ensures
        parsed_operator(t) matches Ok(o) ==> o.id == operator_id_of(o.public_key) && o.public_key.len()
            == 32,
{
}

/// Thirty-two bytes as an array.
fn to_key(v: &Vec<u8>) -> (r: [u8; 32])
    requires
        v@.len() == 32,
    ensures
        r@ == v@,
{
    let mut key: [u8; 32] = [0u8; 32];
    let mut i: usize = 0;
    while i < 32
        invariant
            i <= 32,
            v@.len() == 32,
            forall|j: int| 0 <= j < i ==> key@[j] == v@[j],
        decreases 32 - i,
    {
        key[i] = v[i];
        i = i + 1;
    }
    assert(key@ =~= v@);
    key
}

impl OperatorRef {
    /// Wire form.
    pub fn to_json(&self) -> (r: Json)
        ensures
            r@ == operator_tree(self@),
    {
        let kid = key_id(&self.public_key);
        let hex = crypto::hex_lower(self.public_key.as_slice());
        let mut m = Object::new();
        m.put_str("id", self.id.as_str());
        m.put_str("key_id", kid.as_str());
        m.put_str("public_key", hex.as_str());
        m.put_str("algorithm", "ed25519");
        Json::Obj(m)
    }

    /// Parses the wire form.
    pub fn from_json(v: &Json) -> (r: Result<OperatorRef, String>)
        ensures
            match r {
                Ok(x) => parsed_operator(v@) == Ok::<OperatorView, Seq<char>>(x@),
                Err(e) => parsed_operator(v@) == Err::<OperatorView, Seq<char>>(e@),
            },
    {
        if v.as_object().is_none() {
            return Err("operator must be an object".to_owned());
        }
        let id = match v.get_str("id") {
            Some(s) => if s.is_empty() {
                return Err("missing `operator.id`".to_owned());
            } else {
                s.to_owned()
            },
            None => return Err("missing `operator.id`".to_owned()),
        };
        let hex = match v.get_str("public_key") {
            Some(s) => s,
            None => return Err("missing `operator.public_key`".to_owned()),
        };
        let bytes = match crypto::hex_decode(hex) {
            Some(b) => b,
            None => return Err(
                text::cat3("`operator.public_key` is not a hex string: `", hex, "`"),
            ),
        };
        if bytes.len() != 32 {
            let n = text::decimal_of_usize(bytes.len());
            return Err(text::cat3("Ed25519 public key must be 32 bytes (got ", n.as_str(), ")"));
        }
        let public_key = to_key(&bytes);
        let expected = operator_id(&public_key);
        if !text::same(id.as_str(), expected.as_str()) {
            return Err(
                text::cat5(
                    "operator id `",
                    id.as_str(),
                    "` does not match the content-derived id `",
                    expected.as_str(),
                    "` for the public key",
                ),
            );
        }
        Ok(OperatorRef { id, public_key })
    }
}

/// A body without its `signature` member.
pub open spec fn unsigned(t: Tree) -> Tree {
    match t {
        Tree::Obj(m) => Tree::Obj(m.remove("signature"@)),
        _ => t,
    }
}

/// The bytes that a signature of a body covers.
pub open spec fn payload_of(t: Tree) -> Seq<u8> {
    utf8(bridge::json_text(unsigned(t)))
}

/// The bytes that a signature of a body covers.
pub fn payload(body: &Json) -> (r: Vec<u8>)
    ensures
        r@ == payload_of(body@),
{
    let bare = match body {
        Json::Obj(o) => {
            let mut m = o.clone();
            m.remove("signature");
            Json::Obj(m)
        },
        other => other.clone(),
    };
    let s = bare.to_text();
    s.as_str().as_bytes_vec()
}

/// The operator id that a body names, empty when it names none.
pub open spec fn body_operator(t: Tree) -> Seq<char> {
    match json::lookup(t, "operator"@) {
        Some(o) => match json::get_str(o, "id"@) {
            Some(s) => s,
            None => Seq::empty(),
        },
        None => Seq::empty(),
    }
}

/// The operator id that a body names.
fn read_body_operator(body: &Json) -> (r: String)
    ensures
        r@ == body_operator(body@),
{
    match body.get("operator") {
        Some(o) => match o.get_str("id") {
            Some(s) => s.to_owned(),
            None => String::new(),
        },
        None => String::new(),
    }
}

/// One version of a service descriptor.
#[derive(Debug, PartialEq, Eq)]
pub struct ServiceVersion {
    pub version: String,
    pub status: ServiceStatus,
    pub effective_from: Timestamp,
    pub effective_until: Option<Timestamp>,
    pub registered_at: Timestamp,
    pub superseded_by_version: Option<String>,
    pub body: Json,
    pub signature: SignatureValue,
}

/// The content of a service version.
pub struct ServiceVersionView {
    pub version: Seq<char>,
    pub status: ServiceStatus,
    pub effective_from: Timestamp,
    pub effective_until: Option<Timestamp>,
    pub registered_at: Timestamp,
    pub superseded_by_version: Option<Seq<char>>,
    pub body: Tree,
    pub signature: SignatureView,
}

impl View for ServiceVersion {
    type V = ServiceVersionView;

    open spec fn view(&self) -> ServiceVersionView {
        ServiceVersionView {
            version: self.version@,
            status: self.status,
            effective_from: self.effective_from,
            effective_until: self.effective_until,
            registered_at: self.registered_at,
            superseded_by_version: text::opt_view(self.superseded_by_version),
            body: self.body@,
            signature: self.signature@,
        }
    }
}

impl Clone for ServiceVersion {
    fn clone(&self) -> (r: ServiceVersion)
        ensures
            r@ == self@,
    {
        ServiceVersion {
            version: self.version.clone(),
            status: self.status,
            effective_from: self.effective_from,
            effective_until: self.effective_until,
            registered_at: self.registered_at,
            superseded_by_version: fields::clone_text(&self.superseded_by_version),
            body: self.body.clone(),
            signature: self.signature.clone(),
        }
    }
}

/// Whether the signature of a service version holds.
pub open spec fn version_verification(
    keys: Map<Seq<char>, Seq<u8>>,
    body: Tree,
    signature: Seq<u8>,
) -> Result<(), DiscoveryErrorView> {
    if json::obj_of(body) is None {
        Err(DiscoveryErrorView::Invalid("service descriptor body must be an object"@))
    } else {
        verification(keys, body_operator(body), payload_of(body), signature)
    }
}

/// An instant in canonical notation.
pub open spec fn stamp(t: Timestamp) -> Tree {
    Tree::Str(time::stamp_text(t.secs as int))
}

/// The wire form of a service version, with its resolved window end.
pub open spec fn service_version_tree(v: ServiceVersionView, window_end: Option<Timestamp>) -> Tree {
    let m = Map::<Seq<char>, Tree>::empty().insert("version"@, Tree::Str(v.version)).insert(
        "status"@,
        Tree::Str(service_status_name(v.status)),
    ).insert("effective_from"@, stamp(v.effective_from));
    let m = json::put_opt(m, "effective_until"@, fields::stamp_tree(v.effective_until));
    let m = m.insert("registered_at"@, stamp(v.registered_at));
    let m = json::put_opt(m, "superseded_by_version"@, json::opt_str(v.superseded_by_version));
    let m = m.insert("body"@, v.body).insert("signature"@, signature_tree(v.signature));
    Tree::Obj(json::put_opt(m, "window_end"@, fields::stamp_tree(window_end)))
}

/// A required instant.
pub open spec fn stamp_req(t: Tree, key: Seq<char>) -> Result<Timestamp, Seq<char>> {
    match json::get_str(t, key) {
        None => Err("missing `"@ + key + "`"@),
        Some(s) => match time::parsed(s) {
            Some(x) => Ok(Timestamp { secs: x as i64 }),
            None => Err(time::parse_error(s)),
        },
    }
}

/// Reads a required instant.
fn read_stamp_req(v: &Json, key: &str) -> (r: Result<Timestamp, String>)
    ensures
        match r {
            Ok(t) => stamp_req(v@, key@) == Ok::<Timestamp, Seq<char>>(t),
            Err(e) => stamp_req(v@, key@) == Err::<Timestamp, Seq<char>>(e@),
        },
{
    match v.get_str(key) {
        Some(s) => Timestamp::parse(s),
        None => Err(text::cat3("missing `", key, "`")),
    }
}

/// An optional instant, which has to be a string.
pub open spec fn stamp_str(m: Map<Seq<char>, Tree>, key: Seq<char>) -> Result<
    Option<Timestamp>,
    Seq<char>,
> {
    match fields::present(m, key) {
        None => Ok(None),
        Some(Tree::Str(s)) => match time::parsed(s) {
            Some(x) => Ok(Some(Timestamp { secs: x as i64 })),
            None => Err(time::parse_error(s)),
        },
        Some(_) => Err("`"@ + key + "` must be a string"@),
    }
}

/// What the wire form of a service version parses to.
pub open spec fn parsed_service_version(t: Tree) -> Result<ServiceVersionView, Seq<char>> {
    match json::obj_of(t) {
        None => Err("service version must be an object"@),
        Some(m) => {
            let version = json::get_str(t, "version"@);
            let status = match json::get_str(t, "status"@) {
                Some(s) => parsed_service_status(s),
                None => None,
            };
            let from = stamp_req(t, "effective_from"@);
            let until = stamp_str(m, "effective_until"@);
            let registered = stamp_req(t, "registered_at"@);
            let body = json::member(m, "body"@);
            let block = json::member(m, "signature"@);
            if version is None {
                Err("missing `version`"@)
            } else if status is None {
                Err("invalid `status`"@)
            } else if from is Err {
                Err(from->Err_0)
            } else if until is Err {
                Err(until->Err_0)
            } else if registered is Err {
                Err(registered->Err_0)
            } else if body is None {
                Err("missing `body`"@)
            } else if block is None {
                Err("missing `signature`"@)
            } else {
                match parsed_signature(block->Some_0) {
                    Err(e) => Err(e),
                    Ok(signature) => Ok(
                        ServiceVersionView {
                            version: version->Some_0,
                            status: status->Some_0,
                            effective_from: from->Ok_0,
                            effective_until: until->Ok_0,
                            registered_at: registered->Ok_0,
                            superseded_by_version: json::get_str(t, "superseded_by_version"@),
                            body: body->Some_0,
                            signature,
                        },
                    ),
                }
            }
        },
    }
}

impl ServiceVersion {
    /// The bytes that the signature covers: the body without its
    /// `signature` member.
    pub fn signed_payload(&self) -> (r: Result<Vec<u8>, String>)
        ensures
            match r {
                Ok(b) => json::obj_of(self@.body) is Some && b@ == payload_of(self@.body),
                Err(e) => json::obj_of(self@.body) is None && e@
                    == "service descriptor body must be an object"@,
            },
    {
        if self.body.as_object().is_none() {
            return Err("service descriptor body must be an object".to_owned());
        }
        Ok(payload(&self.body))
    }

    /// Verifies this version's signature against the operator keyring.
    pub fn verify(&self, keyring: &OperatorKeyring) -> (r: Result<(), DiscoveryError>)
        ensures
            match r {
                Ok(_) => version_verification(keyring@, self@.body, self@.signature.value) is Ok,
                Err(e) => version_verification(keyring@, self@.body, self@.signature.value) == Err::<
                    (),
                    DiscoveryErrorView,
                >(e@),
            },
    {
        let payload = match self.signed_payload() {
            Ok(p) => p,
            Err(e) => return Err(DiscoveryError::Invalid(e)),
        };
        let id = read_body_operator(&self.body);
        keyring.verify(id.as_str(), payload.as_slice(), self.signature.value.as_slice())
    }

    /// Wire form.
    pub fn to_json(&self, window_end: Option<Timestamp>) -> (r: Json)
        ensures
            r@ == service_version_tree(self@, window_end),
    {
        let mut m = Object::new();
        m.put_str("version", self.version.as_str());
        m.put_str("status", self.status.as_str());
        m.put("effective_from", Json::Str(self.effective_from.to_string()));
        fields::put_stamp(&mut m, "effective_until", self.effective_until);
        m.put("registered_at", Json::Str(self.registered_at.to_string()));
        m.put_opt_str("superseded_by_version", &self.superseded_by_version);
        m.put("body", self.body.clone());
        m.put("signature", self.signature.to_json());
        fields::put_stamp(&mut m, "window_end", window_end);
        Json::Obj(m)
    }

    /// Parses the wire form.
    pub fn from_json_value(v: &Json) -> (r: Result<ServiceVersion, String>)
        ensures
            match r {
                Ok(x) => parsed_service_version(v@) == Ok::<ServiceVersionView, Seq<char>>(x@),
                Err(e) => parsed_service_version(v@) == Err::<ServiceVersionView, Seq<char>>(e@),
            },
    {
        let o = match v.as_object() {
            Some(o) => o,
            None => return Err("service version must be an object".to_owned()),
        };
        let version = match v.get_str("version") {
            Some(s) => s.to_owned(),
            None => return Err("missing `version`".to_owned()),
        };
        let status = match v.get_str("status") {
            Some(s) => match ServiceStatus::parse(s) {
                Some(x) => x,
                None => return Err("invalid `status`".to_owned()),
            },
            None => return Err("invalid `status`".to_owned()),
        };
        let effective_from = match read_stamp_req(v, "effective_from") {
            Ok(t) => t,
            Err(e) => return Err(e),
        };
        let effective_until = match fields::read_present(o, "effective_until") {
            None => None,
            Some(x) => match x.as_str() {
                Some(s) => match Timestamp::parse(s) {
                    Ok(t) => Some(t),
                    Err(e) => return Err(e),
                },
                None => return Err(text::cat3("`", "effective_until", "` must be a string")),
            },
        };
        let registered_at = match read_stamp_req(v, "registered_at") {
            Ok(t) => t,
            Err(e) => return Err(e),
        };
        let superseded_by_version = match v.get_str("superseded_by_version") {
            Some(s) => Some(s.to_owned()),
            None => None,
        };
        let body = match o.get("body") {
            Some(b) => b.clone(),
            None => return Err("missing `body`".to_owned()),
        };
        let signature = match o.get("signature") {
            Some(s) => match SignatureValue::from_json(s) {
                Ok(x) => x,
                Err(e) => return Err(e),
            },
            None => return Err("missing `signature`".to_owned()),
        };
        Ok(
            ServiceVersion {
                version,
                status,
                effective_from,
                effective_until,
                registered_at,
                superseded_by_version,
                body,
                signature,
            },
        )
    }
}

/// A service descriptor: the operator-published description of one service,
/// with its versions.
#[derive(Debug, PartialEq, Eq)]
pub struct ServiceDescriptor {
    pub identifier: String,
    pub versions: Vec<ServiceVersion>,
}

/// The content of a service descriptor.
#[verifier::ext_equal]
pub struct ServiceView {
    pub identifier: Seq<char>,
    pub versions: Seq<ServiceVersionView>,
}

/// The contents of a sequence of service versions.
pub open spec fn service_version_views(s: Seq<ServiceVersion>) -> Seq<ServiceVersionView> {
    s.map_values(|v: ServiceVersion| v@)
}

/// The contents of a selection of service versions.
pub open spec fn service_ref_views(s: Seq<&ServiceVersion>) -> Seq<ServiceVersionView> {
    s.map_values(|v: &ServiceVersion| v@)
}

impl View for ServiceDescriptor {
    type V = ServiceView;

    open spec fn view(&self) -> ServiceView {
        ServiceView { identifier: self.identifier@, versions: service_version_views(self.versions@) }
    }
}

impl Clone for ServiceDescriptor {
    fn clone(&self) -> (r: ServiceDescriptor)
        ensures
            r@ == self@,
    {
        let mut out: Vec<ServiceVersion> = Vec::new();
        let mut i: usize = 0;
        while i < self.versions.len()
            invariant
                i <= self.versions@.len(),
                out@.len() == i,
                forall|j: int| 0 <= j < i ==> (#[trigger] out@[j])@ == self.versions@[j]@,
            decreases self.versions@.len() - i,
        {
            out.push(self.versions[i].clone());
            i = i + 1;
        }
        assert(service_version_views(out@) =~= service_version_views(self.versions@));
        ServiceDescriptor { identifier: self.identifier.clone(), versions: out }
    }
}

/// The numbers of a sequence of versions.
pub open spec fn service_version_names(vs: Seq<ServiceVersionView>) -> Seq<Seq<char>> {
    vs.map_values(|v: ServiceVersionView| v.version)
}

/// The position of the version `n`, or the number of versions.
pub open spec fn service_version_index(vs: Seq<ServiceVersionView>, n: Seq<char>) -> int {
    order::index_of(service_version_names(vs), n)
}

/// The version `n`.
pub open spec fn find_service_version(vs: Seq<ServiceVersionView>, n: Seq<char>) -> Option<ServiceVersionView> {
    if service_version_index(vs, n) < vs.len() {
        Some(vs[service_version_index(vs, n)])
    } else {
        None
    }
}

/// A service version's sort key: the start of its window, then its number.
pub open spec fn service_version_key(v: ServiceVersionView) -> order::Key {
    (v.effective_from.secs as int, v.version)
}

/// The sort keys of a sequence of versions.
pub open spec fn service_version_keys(vs: Seq<ServiceVersionView>) -> Seq<order::Key> {
    vs.map_values(|v: ServiceVersionView| service_version_key(v))
}

/// The versions by the start of their window, then by number.
pub open spec fn service_ordered(vs: Seq<ServiceVersionView>) -> Seq<ServiceVersionView> {
    let a = order::arrangement(service_version_keys(vs));
    Seq::new(a.len(), |i: int| vs[a[i]])
}

/// The last version of `s` with the given status property.
pub open spec fn service_last_where(s: Seq<ServiceVersionView>, p: spec_fn(ServiceVersionView) -> bool) -> Option<ServiceVersionView>
    decreases s.len(),
{
    if s.len() == 0 {
        None
    } else if p(s.last()) {
        Some(s.last())
    } else {
        service_last_where(s.drop_last(), p)
    }
}

/// The current version: the latest active one, else the latest that is not
/// superseded.
pub open spec fn service_current(vs: Seq<ServiceVersionView>) -> Option<ServiceVersionView> {
    match service_last_where(service_ordered(vs), |v: ServiceVersionView| v.status == ServiceStatus::Active) {
        Some(v) => Some(v),
        None => service_last_where(service_ordered(vs), |v: ServiceVersionView| v.status != ServiceStatus::Superseded),
    }
}

/// The end of a version's window: its own, else the start of its
/// successor's, else open.
pub open spec fn service_window_end(vs: Seq<ServiceVersionView>, v: ServiceVersionView) -> Option<Timestamp> {
    match v.effective_until {
        Some(t) => Some(t),
        None => match v.superseded_by_version {
            Some(n) => match find_service_version(vs, n) {
                Some(s) => Some(s.effective_from),
                None => None,
            },
            None => None,
        },
    }
}

/// Whether a service version's window holds `t`.
pub open spec fn service_version_in_force(vs: Seq<ServiceVersionView>, v: ServiceVersionView, t: Timestamp) -> bool {
    model::in_window(Some(v.effective_from), service_window_end(vs, v), t)
}

/// The version in force at `t`: the latest whose window holds `t`.
pub open spec fn service_in_force(vs: Seq<ServiceVersionView>, t: Timestamp) -> Option<ServiceVersionView> {
    service_last_where(service_ordered(vs), |v: ServiceVersionView| service_version_in_force(vs, v, t))
}

impl ServiceDescriptor {
    /// The version with the given number.
    pub fn version(&self, number: &str) -> (r: Option<&ServiceVersion>)
        ensures
            match r {
                Some(v) => find_service_version(self@.versions, number@) == Some(v@),
                None => find_service_version(self@.versions, number@) is None,
            },
    {
        let ghost names = service_version_names(self@.versions);
        let mut i: usize = 0;
        while i < self.versions.len()
            invariant
                i <= self.versions@.len(),
                names == service_version_names(self@.versions),
                forall|j: int| 0 <= j < i ==> #[trigger] names[j] != number@,
            decreases self.versions@.len() - i,
        {
            assert(names[i as int] == self.versions@[i as int].version@);
            if text::same(self.versions[i].version.as_str(), number) {
                proof {
                    order::index_of_is(names, number@, i as int);
                }
                return Some(&self.versions[i]);
            }
            i = i + 1;
        }
        proof {
            order::index_of_is(names, number@, i as int);
        }
        None
    }

    /// The version with the given number, for lifecycle transitions.
    pub fn version_mut(&mut self, number: &str) -> (r: Option<&mut ServiceVersion>)
        ensures
            match r {
                Some(v) => find_service_version(old(self)@.versions, number@) == Some(v@) && final(self)@ == (
                ServiceView {
                    versions: old(self)@.versions.update(
                        service_version_index(old(self)@.versions, number@),
                        final(v)@,
                    ),
                    ..old(self)@
                }),
                None => find_service_version(old(self)@.versions, number@) is None && final(self)@ == old(self)@,
            },
    {
        let ghost before = self@.versions;
        let ghost names = service_version_names(before);
        let n = self.versions.len();
        let mut i: usize = 0;
        while i < n
            invariant
                n == self.versions@.len(),
                *self == *old(self),
                i <= n,
                before == self@.versions,
                names == service_version_names(before),
                forall|j: int| 0 <= j < i ==> #[trigger] names[j] != number@,
            decreases n - i,
        {
            assert(names[i as int] == self.versions@[i as int].version@);
            if text::same(self.versions[i].version.as_str(), number) {
                proof {
                    order::index_of_is(names, number@, i as int);
                }
                let v = &mut self.versions[i];
                proof {
                    assert(service_version_views(old(self).versions@.update(i as int, *final(v))) =~= before.update(
                        i as int,
                        final(v)@,
                    ));
                }
                return Some(v);
            }
            i = i + 1;
        }
        proof {
            order::index_of_is(names, number@, i as int);
        }
        None
    }

    /// Versions by `effective_from`, then by number.
    pub fn ordered_versions(&self) -> (r: Vec<&ServiceVersion>)
        ensures
            service_ref_views(r@) == service_ordered(self@.versions),
    {
        let ghost vs = self@.versions;
        let mut keys: Vec<(i128, String)> = Vec::new();
        let mut i: usize = 0;
        while i < self.versions.len()
            invariant
                i <= self.versions@.len(),
                vs == self@.versions,
                keys@.len() == i,
                forall|j: int|
                    0 <= j < i ==> (((#[trigger] keys@[j]).0 as int, keys@[j].1@) == service_version_key(vs[j])),
            decreases self.versions@.len() - i,
        {
            keys.push((self.versions[i].effective_from.secs as i128, self.versions[i].version.clone()));
            i = i + 1;
        }
        assert(order::key_views(keys@) =~= service_version_keys(vs));
        let a = order::arrange(&keys);
        let mut out: Vec<&ServiceVersion> = Vec::new();
        let mut k: usize = 0;
        while k < a.len()
            invariant
                k <= a@.len(),
                vs == self@.versions,
                a@.len() == self.versions@.len(),
                forall|j: int| 0 <= j < a@.len() ==> (#[trigger] a@[j]) < self.versions@.len(),
                out@.len() == k,
                forall|j: int| 0 <= j < k ==> (#[trigger] out@[j])@ == vs[a@[j] as int],
            decreases a@.len() - k,
        {
            out.push(&self.versions[a[k]]);
            k = k + 1;
        }
        proof {
            let p = order::arrangement(service_version_keys(vs));
            assert(p == order::positions(a@));
            assert(service_ref_views(out@) =~= service_ordered(vs));
        }
        out
    }

    /// The current version: the latest active one, else the latest that is
    /// not superseded.
    pub fn current_version(&self) -> (r: Option<&ServiceVersion>)
        ensures
            match r {
                Some(v) => service_current(self@.versions) == Some(v@),
                None => service_current(self@.versions) is None,
            },
    {
        let o = self.ordered_versions();
        let ghost all = service_ordered(self@.versions);
        let ghost valid = |v: ServiceVersionView| v.status == ServiceStatus::Active;
        let ghost kept = |v: ServiceVersionView| v.status != ServiceStatus::Superseded;
        let mut i: usize = o.len();
        assert(all.take(i as int) =~= all);
        while i > 0
            invariant
                i <= o@.len(),
                service_ref_views(o@) == all,
                valid == (|v: ServiceVersionView| v.status == ServiceStatus::Active),
                service_last_where(all, valid) == service_last_where(all.take(i as int), valid),
                all == service_ordered(self@.versions),
            decreases i,
        {
            assert(all[i - 1] == o@[i - 1]@);
            assert(all.take(i as int).drop_last() =~= all.take(i - 1));
            assert(all.take(i as int).last() == all[i - 1]);
            if o[i - 1].status == ServiceStatus::Active {
                return Some(o[i - 1]);
            }
            i = i - 1;
        }
        let mut i: usize = o.len();
        assert(all.take(i as int) =~= all);
        while i > 0
            invariant
                i <= o@.len(),
                service_ref_views(o@) == all,
                valid == (|v: ServiceVersionView| v.status == ServiceStatus::Active),
                kept == (|v: ServiceVersionView| v.status != ServiceStatus::Superseded),
                service_last_where(all, valid) is None,
                service_last_where(all, kept) == service_last_where(all.take(i as int), kept),
                all == service_ordered(self@.versions),
            decreases i,
        {
            assert(all[i - 1] == o@[i - 1]@);
            assert(all.take(i as int).drop_last() =~= all.take(i - 1));
            assert(all.take(i as int).last() == all[i - 1]);
            if o[i - 1].status != ServiceStatus::Superseded {
                return Some(o[i - 1]);
            }
            i = i - 1;
        }
        None
    }

    /// Resolved end of a version's window.
    pub fn window_until(&self, v: &ServiceVersion) -> (r: Option<Timestamp>)
        ensures
            r == service_window_end(self@.versions, v@),
    {
        if v.effective_until.is_some() {
            return v.effective_until;
        }
        match &v.superseded_by_version {
            Some(n) => match self.version(n.as_str()) {
                Some(s) => Some(s.effective_from),
                None => None,
            },
            None => None,
        }
    }

    /// The version in force at `t`.
    pub fn in_force_at(&self, t: Timestamp) -> (r: Option<&ServiceVersion>)
        ensures
            match r {
                Some(v) => service_in_force(self@.versions, t) == Some(v@),
                None => service_in_force(self@.versions, t) is None,
            },
    {
        let o = self.ordered_versions();
        let ghost vs = self@.versions;
        let ghost all = service_ordered(vs);
        let ghost holds = |v: ServiceVersionView| service_version_in_force(vs, v, t);
        let mut i: usize = o.len();
        assert(all.take(i as int) =~= all);
        while i > 0
            invariant
                i <= o@.len(),
                vs == self@.versions,
                all == service_ordered(vs),
                service_ref_views(o@) == all,
                holds == (|v: ServiceVersionView| service_version_in_force(vs, v, t)),
                service_last_where(all, holds) == service_last_where(all.take(i as int), holds),
            decreases i,
        {
            assert(all[i - 1] == o@[i - 1]@);
            assert(all.take(i as int).drop_last() =~= all.take(i - 1));
            assert(all.take(i as int).last() == all[i - 1]);
            let v = o[i - 1];
            let open: bool = match self.window_until(v) {
                Some(u) => t.secs < u.secs,
                None => true,
            };
            if v.effective_from.secs <= t.secs && open {
                return Some(v);
            }
            i = i - 1;
        }
        None
    }
}

/// Whether a chain of versions holds the number `n`.
pub open spec fn service_chain_has(chain: Seq<ServiceVersionView>, n: Seq<char>) -> bool {
    exists|i: int| 0 <= i < chain.len() && (#[trigger] chain[i]).version == n
}

/// Follows the supersession links from the end of `chain`, at most `fuel`
/// of them, to the version that has none. A link to no version and a link
/// back into the chain are errors.
pub open spec fn service_followed(
    vs: Seq<ServiceVersionView>,
    chain: Seq<ServiceVersionView>,
    id: Seq<char>,
    fuel: nat,
) -> Result<Seq<ServiceVersionView>, Seq<char>>
    decreases fuel,
{
    match chain.last().superseded_by_version {
        None => Ok(chain),
        Some(n) => match find_service_version(vs, n) {
            None => Err(
                "service `"@ + id + "` has no version `"@ + n + "` (broken supersession link)"@,
            ),
            Some(v) => if service_chain_has(chain, v.version) {
                Err("supersession cycle at version `"@ + v.version + "` of service `"@ + id + "`"@)
            } else if fuel == 0 {
                Ok(chain)
            } else {
                service_followed(vs, chain.push(v), id, (fuel - 1) as nat)
            },
        },
    }
}

/// The supersession chain from the version `from`, or from the earliest.
pub open spec fn service_chain_of(service: ServiceView, from: Option<Seq<char>>) -> Result<
    Seq<ServiceVersionView>,
    Seq<char>,
> {
    match from {
        Some(n) => match find_service_version(service.versions, n) {
            Some(v) => service_followed(service.versions, seq![v], service.identifier, service.versions.len()),
            None => Err("service `"@ + service.identifier + "` has no version `"@ + n + "`"@),
        },
        None => if service.versions.len() == 0 {
            Err("service `"@ + service.identifier + "` has no versions"@)
        } else {
            service_followed(
                service.versions,
                seq![service_ordered(service.versions)[0]],
                service.identifier,
                service.versions.len(),
            )
        },
    }
}

/// Versions with pairwise different numbers, all among `vs`, are no more
/// than `vs`.
proof fn service_distinct_fit(vs: Seq<ServiceVersionView>, chain: Seq<ServiceVersionView>)
    requires
        service_version_names(chain).no_duplicates(),
        forall|i: int| 0 <= i < chain.len() ==> service_version_names(vs).contains((#[trigger] chain[i]).version),
    ensures
        chain.len() <= vs.len(),
{
    let (a, b) = (service_version_names(chain), service_version_names(vs));
    a.unique_seq_to_set();
    b.lemma_cardinality_of_set();
    vstd::seq_lib::seq_to_set_is_finite(b);
    assert forall|x: Seq<char>| #[trigger] a.to_set().contains(x) implies b.to_set().contains(x) by {
        let i = a.index_of(x);
        assert(a.contains(x));
        assert(chain[i].version == x);
    }
    vstd::set_lib::lemma_len_subset(a.to_set(), b.to_set());
}

/// A version that is found bears the number it was looked up by.
pub proof fn found_service_version(vs: Seq<ServiceVersionView>, n: Seq<char>)
    ensures
        find_service_version(vs, n) matches Some(v) ==> v.version == n && service_version_names(vs).contains(n),
{
    order::index_of_found(service_version_names(vs), n);
}

/// The ordered versions are the versions.
pub proof fn service_ordered_holds(vs: Seq<ServiceVersionView>)
    ensures
        service_ordered(vs).len() == vs.len(),
        forall|i: int| 0 <= i < vs.len() ==> vs.contains(#[trigger] service_ordered(vs)[i]),
        forall|v: ServiceVersionView| #[trigger] vs.contains(v) ==> service_ordered(vs).contains(v),
{
    let keys = service_version_keys(vs);
    let a = order::arrangement(keys);
    order::arranged_sorts(keys, keys.len() as int);
    assert forall|v: ServiceVersionView| #[trigger] vs.contains(v) implies service_ordered(vs).contains(v) by {
        let i = vs.index_of(v);
        assert(a.contains(i));
        let k = a.index_of(i);
        assert(service_ordered(vs)[k] == v);
    }
}

/// The ordered versions ascend by the start of their window, then by
/// number.
pub proof fn service_ordered_ascends(vs: Seq<ServiceVersionView>, i: int, j: int)
    requires
        0 <= i < j < vs.len(),
    ensures
        !order::key_before(service_version_key(service_ordered(vs)[j]), service_version_key(service_ordered(vs)[i])),
{
    let keys = service_version_keys(vs);
    let a = order::arrangement(keys);
    order::arranged_sorts(keys, keys.len() as int);
    assert(!order::key_before(keys[a[j]], keys[a[i]]));
}

/// Where `service_last_where` finds a version: the property holds there and
/// nowhere behind it.
proof fn service_last_where_found(s: Seq<ServiceVersionView>, p: spec_fn(ServiceVersionView) -> bool)
    ensures
        match service_last_where(s, p) {
            Some(v) => exists|k: int|
                0 <= k < s.len() && #[trigger] s[k] == v && p(v) && forall|j: int|
                    k < j < s.len() ==> !p(#[trigger] s[j]),
            None => forall|j: int| 0 <= j < s.len() ==> !p(#[trigger] s[j]),
        },
    decreases s.len(),
{
    if s.len() > 0 {
        let n = s.len() - 1;
        if p(s.last()) {
            assert(s[n] == s.last());
        } else {
            let t = s.drop_last();
            service_last_where_found(t, p);
            if let Some(v) = service_last_where(t, p) {
                let k = choose|k: int|
                    0 <= k < t.len() && #[trigger] t[k] == v && p(v) && forall|j: int|
                        k < j < t.len() ==> !p(#[trigger] t[j]);
                assert(s[k] == v);
                assert forall|j: int| k < j < s.len() implies !p(#[trigger] s[j]) by {
                    if j < n {
                        assert(s[j] == t[j]);
                    }
                }
            } else {
                assert forall|j: int| 0 <= j < s.len() implies !p(#[trigger] s[j]) by {
                    if j < n {
                        assert(s[j] == t[j]);
                    }
                }
            }
        }
    }
}

/// The service version in force at an instant is one of the versions, its
/// window holds the instant, and no other version whose window does is
/// ordered behind it; there is one whenever some window holds the instant.
pub proof fn service_in_force_rule(vs: Seq<ServiceVersionView>, t: Timestamp)
    ensures
        service_in_force(vs, t) matches Some(v) ==> vs.contains(v) && service_version_in_force(vs, v, t)
            && forall|w: ServiceVersionView| #[trigger]
            vs.contains(w) && service_version_in_force(vs, w, t) ==> !order::key_before(
                service_version_key(v),
                service_version_key(w),
            ),
        forall|w: ServiceVersionView| #[trigger]
            vs.contains(w) && service_version_in_force(vs, w, t) ==> service_in_force(vs, t) is Some,
{
    service_ordered_holds(vs);
    let o = service_ordered(vs);
    let p = |v: ServiceVersionView| service_version_in_force(vs, v, t);
    service_last_where_found(o, p);
    match service_in_force(vs, t) {
        Some(v) => {
            let k = choose|k: int|
                0 <= k < o.len() && #[trigger] o[k] == v && p(v) && forall|j: int|
                    k < j < o.len() ==> !p(#[trigger] o[j]);
            assert(vs.contains(o[k]));
            assert forall|w: ServiceVersionView| #[trigger]
                vs.contains(w) && service_version_in_force(vs, w, t) implies !order::key_before(
                service_version_key(v),
                service_version_key(w),
            ) by {
                let j = o.index_of(w);
                assert(o[j] == w && p(o[j]));
                assert(j <= k);
                if j < k {
                    service_ordered_ascends(vs, j, k);
                } else if text::before(v.version, w.version) {
                    text::before_asymmetric(v.version, w.version);
                }
            }
        },
        None => {
            assert forall|w: ServiceVersionView| #[trigger] vs.contains(w) implies !service_version_in_force(
                vs,
                w,
                t,
            ) by {
                let j = o.index_of(w);
                assert(!p(o[j]));
            }
        },
    }
}

/// At the instant a successor takes over, the superseded service version is
/// no longer in force and the successor is, as long as its own window has
/// not closed by then.
pub proof fn service_successor_rules_at_the_boundary(
    vs: Seq<ServiceVersionView>,
    v: ServiceVersionView,
    s: ServiceVersionView,
    t: Timestamp,
)
    requires
        v.effective_until is None,
        v.superseded_by_version matches Some(n) && find_service_version(vs, n) == Some(s),
        s.effective_from == t,
        service_window_end(vs, s) matches Some(u) ==> t.secs < u.secs,
    ensures
        !service_version_in_force(vs, v, t),
        service_version_in_force(vs, s, t),
{
}

impl ServiceDescriptor {
    /// Follows supersession links from the earliest version (or from
    /// `from`) to the terminal version. Errors on unknown start versions
    /// and on broken or cyclic links.
    pub fn supersession_chain(&self, from: Option<&str>) -> (r: Result<Vec<&ServiceVersion>, String>)
        ensures
            match r {
                Ok(c) => service_chain_of(
                    self@,
                    match from {
                        Some(n) => Some(n@),
                        None => None,
                    },
                ) == Ok::<Seq<ServiceVersionView>, Seq<char>>(service_ref_views(c@)),
                Err(e) => service_chain_of(
                    self@,
                    match from {
                        Some(n) => Some(n@),
                        None => None,
                    },
                ) == Err::<Seq<ServiceVersionView>, Seq<char>>(e@),
            },
    {
        let ghost vs = self@.versions;
        let start: &ServiceVersion = match from {
            Some(n) => match self.version(n) {
                Some(v) => {
                    proof {
                        found_service_version(vs, n@);
                    }
                    v
                },
                None => return Err(
                    text::cat5("service `", self.identifier.as_str(), "` has no version `", n, "`"),
                ),
            },
            None => {
                let o = self.ordered_versions();
                proof {
                    service_ordered_holds(vs);
                }
                if o.len() == 0 {
                    assert(service_ref_views(o@).len() == 0);
                    return Err(text::cat3("service `", self.identifier.as_str(), "` has no versions"));
                }
                assert(service_ref_views(o@)[0] == o@[0]@);
                proof {
                    let v = service_ordered(vs)[0];
                    assert(vs.contains(v));
                    assert(service_version_names(vs)[vs.index_of(v)] == v.version);
                }
                o[0]
            },
        };
        let ghost goal = service_followed(vs, seq![start@], self@.identifier, vs.len());
        let mut chain: Vec<&ServiceVersion> = Vec::new();
        chain.push(start);
        let ghost mut fuel: nat = vs.len();
        assert(service_ref_views(chain@) =~= seq![start@]);
        loop
            invariant
                vs == self@.versions,
                chain@.len() >= 1,
                goal == service_followed(vs, service_ref_views(chain@), self@.identifier, fuel),
                fuel + chain@.len() == vs.len() + 1,
                service_version_names(service_ref_views(chain@)).no_duplicates(),
                forall|i: int|
                    0 <= i < chain@.len() ==> service_version_names(vs).contains(
                        (#[trigger] service_ref_views(chain@)[i]).version,
                    ),
                goal == service_chain_of(
                    self@,
                    match from {
                        Some(n) => Some(n@),
                        None => None,
                    },
                ),
            decreases fuel,
        {
            let ghost cv = service_ref_views(chain@);
            let last = chain[chain.len() - 1];
            assert(cv.last() == last@);
            let next: &str = match &last.superseded_by_version {
                None => return Ok(chain),
                Some(n) => n.as_str(),
            };
            let nv = match self.version(next) {
                Some(v) => v,
                None => return Err(
                    text::cat5(
                        "service `",
                        self.identifier.as_str(),
                        "` has no version `",
                        next,
                        "` (broken supersession link)",
                    ),
                ),
            };
            let mut k: usize = 0;
            while k < chain.len()
                invariant
                    k <= chain@.len(),
                    cv == service_ref_views(chain@),
                    forall|j: int| 0 <= j < k ==> (#[trigger] cv[j]).version != nv@.version,
                    cv.last().superseded_by_version == Some(next@),
                    find_service_version(vs, next@) == Some(nv@),
                    goal == service_followed(vs, cv, self@.identifier, fuel),
                    goal == service_chain_of(
                        self@,
                        match from {
                            Some(n) => Some(n@),
                            None => None,
                        },
                    ),
                decreases chain@.len() - k,
            {
                assert(cv[k as int] == chain@[k as int]@);
                if text::same(chain[k].version.as_str(), nv.version.as_str()) {
                    assert(service_chain_has(cv, nv@.version));
                    return Err(
                        text::cat5(
                            "supersession cycle at version `",
                            nv.version.as_str(),
                            "` of service `",
                            self.identifier.as_str(),
                            "`",
                        ),
                    );
                }
                k = k + 1;
            }
            proof {
                found_service_version(vs, next@);
                let ncv = cv.push(nv@);
                assert forall|i: int, j: int|
                    0 <= i < service_version_names(ncv).len() && 0 <= j < service_version_names(ncv).len() && i
                        != j implies service_version_names(ncv)[i] != service_version_names(ncv)[j] by {
                    if i < cv.len() && j < cv.len() {
                        assert(service_version_names(cv)[i] != service_version_names(cv)[j]);
                    } else if i < cv.len() {
                        assert(cv[i].version != nv@.version);
                    } else {
                        assert(cv[j].version != nv@.version);
                    }
                }
                assert forall|i: int| 0 <= i < ncv.len() implies service_version_names(vs).contains(
                    (#[trigger] ncv[i]).version,
                ) by {
                    if i < cv.len() {
                        assert(service_version_names(vs).contains(cv[i].version));
                    }
                }
                service_distinct_fit(vs, ncv);
            }
            chain.push(nv);
            proof {
                assert(service_ref_views(chain@) =~= cv.push(nv@));
                assert(!service_chain_has(cv, nv@.version));
                fuel = (fuel - 1) as nat;
            }
        }
    }
}

/// The wire forms of the ordered versions, each with its window end.
pub open spec fn service_ordered_trees(vs: Seq<ServiceVersionView>) -> Seq<Tree> {
    service_ordered(vs).map_values(
        |v: ServiceVersionView| service_version_tree(v, service_window_end(vs, v)),
    )
}

/// The wire forms of the ordered versions, without window ends.
pub open spec fn service_stored_trees(vs: Seq<ServiceVersionView>) -> Seq<Tree> {
    service_ordered(vs).map_values(|v: ServiceVersionView| service_version_tree(v, None))
}

/// The version that a reading of a service resolves to.
pub open spec fn service_resolved(s: ServiceView, at: Option<Timestamp>) -> Option<ServiceVersionView> {
    match at {
        Some(t) => service_in_force(s.versions, t),
        None => service_current(s.versions),
    }
}

/// The view of a service served at `as_of`.
pub open spec fn service_tree(s: ServiceView, as_of: Timestamp, at: Option<Timestamp>) -> Tree {
    Tree::Obj(
        Map::<Seq<char>, Tree>::empty().insert("identifier"@, Tree::Str(s.identifier)).insert(
            "kind"@,
            Tree::Str("service"@),
        ).insert("versions"@, Tree::Arr(service_ordered_trees(s.versions))).insert(
            "version"@,
            match service_resolved(s, at) {
                Some(v) => service_version_tree(v, service_window_end(s.versions, v)),
                None => Tree::Null,
            },
        ).insert("as_of"@, stamp(as_of)),
    )
}

/// The stored form of a service.
pub open spec fn service_stored(s: ServiceView) -> Tree {
    Tree::Obj(
        Map::<Seq<char>, Tree>::empty().insert("identifier"@, Tree::Str(s.identifier)).insert(
            "versions"@,
            Tree::Arr(service_stored_trees(s.versions)),
        ),
    )
}

/// What the first `n` wire forms of service versions parse to.
pub open spec fn parsed_service_versions(ts: Seq<Tree>, n: int) -> Result<
    Seq<ServiceVersionView>,
    Seq<char>,
>
    decreases n,
{
    if n <= 0 {
        Ok(Seq::empty())
    } else {
        match parsed_service_versions(ts, n - 1) {
            Err(e) => Err(e),
            Ok(got) => match parsed_service_version(ts[n - 1]) {
                Ok(v) => Ok(got.push(v)),
                Err(e) => Err(e),
            },
        }
    }
}

/// What the stored form of a service parses to.
pub open spec fn parsed_service(t: Tree) -> Result<ServiceView, Seq<char>> {
    let identifier = json::get_str(t, "identifier"@);
    let list = json::get_arr(t, "versions"@);
    let versions = parsed_service_versions(list->Some_0, list->Some_0.len() as int);
    if json::obj_of(t) is None {
        Err("service descriptor must be an object"@)
    } else if identifier is None {
        Err("missing `identifier`"@)
    } else if list is None {
        Err("missing `versions` array"@)
    } else if versions is Err {
        Err(versions->Err_0)
    } else {
        Ok(ServiceView { identifier: identifier->Some_0, versions: versions->Ok_0 })
    }
}

proof fn parsed_service_versions_fail(ts: Seq<Tree>, n: int, k: int)
    requires
        0 <= n <= k,
        parsed_service_versions(ts, n) is Err,
    ensures
        parsed_service_versions(ts, k) == parsed_service_versions(ts, n),
    decreases k - n,
{
    if n < k {
        parsed_service_versions_fail(ts, n, k - 1);
    }
}

/// Parses a list of service versions.
fn read_service_versions(a: &Vec<Json>) -> (r: Result<Vec<ServiceVersion>, String>)
    ensures
        match r {
            Ok(v) => parsed_service_versions(json::trees(a@), a@.len() as int) == Ok::<
                Seq<ServiceVersionView>,
                Seq<char>,
            >(service_version_views(v@)),
            Err(e) => parsed_service_versions(json::trees(a@), a@.len() as int) == Err::<
                Seq<ServiceVersionView>,
                Seq<char>,
            >(e@),
        },
{
    let ghost ts = json::trees(a@);
    let mut out: Vec<ServiceVersion> = Vec::new();
    let mut i: usize = 0;
    assert(service_version_views(out@) =~= Seq::<ServiceVersionView>::empty());
    while i < a.len()
        invariant
            i <= a@.len(),
            ts == json::trees(a@),
            parsed_service_versions(ts, i as int) == Ok::<Seq<ServiceVersionView>, Seq<char>>(
                service_version_views(out@),
            ),
        decreases a@.len() - i,
    {
        assert(ts[i as int] == a@[i as int]@);
        match ServiceVersion::from_json_value(&a[i]) {
            Ok(v) => {
                let ghost before = service_version_views(out@);
                out.push(v);
                assert(service_version_views(out@) =~= before.push(v@));
            },
            Err(e) => {
                proof {
                    parsed_service_versions_fail(ts, i + 1, a@.len() as int);
                }
                return Err(e);
            },
        }
        i = i + 1;
    }
    Ok(out)
}

impl ServiceDescriptor {
    /// The view served at `as_of`, resolved to the instant `at`.
    pub fn to_json(&self, as_of: Timestamp, at: Option<Timestamp>) -> (r: Json)
        ensures
            r@ == service_tree(self@, as_of, at),
    {
        let ghost vs = self@.versions;
        let found = match at {
            Some(t) => self.in_force_at(t),
            None => self.current_version(),
        };
        let version = match found {
            Some(v) => {
                let until = self.window_until(v);
                v.to_json(until)
            },
            None => Json::Null,
        };
        let o = self.ordered_versions();
        let mut list: Vec<Json> = Vec::new();
        let mut i: usize = 0;
        while i < o.len()
            invariant
                i <= o@.len(),
                vs == self@.versions,
                service_ref_views(o@) == service_ordered(vs),
                list@.len() == i,
                forall|j: int|
                    0 <= j < i ==> json::tree(#[trigger] list@[j]) == service_version_tree(
                        service_ordered(vs)[j],
                        service_window_end(vs, service_ordered(vs)[j]),
                    ),
            decreases o@.len() - i,
        {
            assert(service_ordered(vs)[i as int] == o@[i as int]@);
            let until = self.window_until(o[i]);
            list.push(o[i].to_json(until));
            i = i + 1;
        }
        assert(service_ref_views(o@).len() == o@.len());
        assert(json::trees(list@) =~= service_ordered_trees(vs));
        let mut m = Object::new();
        m.put_str("identifier", self.identifier.as_str());
        m.put_str("kind", "service");
        m.put("versions", Json::Arr(list));
        m.put("version", version);
        m.put("as_of", Json::Str(as_of.to_string()));
        Json::Obj(m)
    }

    /// Parses the stored form.
    pub fn from_json_value(v: &Json) -> (r: Result<ServiceDescriptor, String>)
        ensures
            match r {
                Ok(x) => parsed_service(v@) == Ok::<ServiceView, Seq<char>>(x@),
                Err(e) => parsed_service(v@) == Err::<ServiceView, Seq<char>>(e@),
            },
    {
        if v.as_object().is_none() {
            return Err("service descriptor must be an object".to_owned());
        }
        let identifier = match v.get_str("identifier") {
            Some(s) => s.to_owned(),
            None => return Err("missing `identifier`".to_owned()),
        };
        let versions = match v.get_arr("versions") {
            Some(a) => match read_service_versions(a) {
                Ok(vs) => vs,
                Err(e) => return Err(e),
            },
            None => return Err("missing `versions` array".to_owned()),
        };
        Ok(ServiceDescriptor { identifier, versions })
    }

    /// The stored form: the versions without derived window ends.
    pub fn to_json_value(&self) -> (r: Json)
        ensures
            r@ == service_stored(self@),
    {
        let ghost vs = self@.versions;
        let o = self.ordered_versions();
        let mut list: Vec<Json> = Vec::new();
        let mut i: usize = 0;
        while i < o.len()
            invariant
                i <= o@.len(),
                service_ref_views(o@) == service_ordered(vs),
                list@.len() == i,
                forall|j: int|
                    0 <= j < i ==> json::tree(#[trigger] list@[j]) == service_version_tree(
                        service_ordered(vs)[j],
                        None,
                    ),
            decreases o@.len() - i,
        {
            assert(service_ordered(vs)[i as int] == o@[i as int]@);
            list.push(o[i].to_json(None));
            i = i + 1;
        }
        assert(service_ref_views(o@).len() == o@.len());
        assert(json::trees(list@) =~= service_stored_trees(vs));
        let mut m = Object::new();
        m.put_str("identifier", self.identifier.as_str());
        m.put("versions", Json::Arr(list));
        Json::Obj(m)
    }
}

/// The parsed content of a service-descriptor body.
#[derive(Debug, PartialEq, Eq)]
pub struct ServiceBody {
    pub class: ServiceClass,
    pub operator: OperatorRef,
    pub endpoints: Vec<Endpoint>,
    pub protocol_binding_ref: Option<String>,
    pub jurisdiction: Option<String>,
    pub residency_class: Option<String>,
    pub status: ServiceStatus,
    pub succession_pointer: Option<String>,
}

/// The content of a parsed service body.
pub struct ServiceBodyView {
    pub class: ServiceClass,
    pub operator: OperatorView,
    pub endpoints: Seq<EndpointView>,
    pub protocol_binding_ref: Option<Seq<char>>,
    pub jurisdiction: Option<Seq<char>>,
    pub residency_class: Option<Seq<char>>,
    pub status: ServiceStatus,
    pub succession_pointer: Option<Seq<char>>,
}

/// The contents of a sequence of endpoints.
pub open spec fn endpoint_views(s: Seq<Endpoint>) -> Seq<EndpointView> {
    s.map_values(|e: Endpoint| e@)
}

impl View for ServiceBody {
    type V = ServiceBodyView;

    open spec fn view(&self) -> ServiceBodyView {
        ServiceBodyView {
            class: self.class,
            operator: self.operator@,
            endpoints: endpoint_views(self.endpoints@),
            protocol_binding_ref: text::opt_view(self.protocol_binding_ref),
            jurisdiction: text::opt_view(self.jurisdiction),
            residency_class: text::opt_view(self.residency_class),
            status: self.status,
            succession_pointer: text::opt_view(self.succession_pointer),
        }
    }
}

/// A structural fault of a body.
pub open spec fn invalid<T>(message: Seq<char>) -> Result<T, DiscoveryErrorView> {
    Err(DiscoveryErrorView::Invalid(message))
}

/// What the first `n` endpoints parse to.
pub open spec fn parsed_endpoints(ts: Seq<Tree>, n: int) -> Result<Seq<EndpointView>, Seq<char>>
    decreases n,
{
    if n <= 0 {
        Ok(Seq::empty())
    } else {
        match parsed_endpoints(ts, n - 1) {
            Err(e) => Err(e),
            Ok(got) => match parsed_endpoint(ts[n - 1]) {
                Ok(v) => Ok(got.push(v)),
                Err(e) => Err(e),
            },
        }
    }
}

proof fn parsed_endpoints_fail(ts: Seq<Tree>, n: int, k: int)
    requires
        0 <= n <= k,
        parsed_endpoints(ts, n) is Err,
    ensures
        parsed_endpoints(ts, k) == parsed_endpoints(ts, n),
    decreases k - n,
{
    if n < k {
        parsed_endpoints_fail(ts, n, k - 1);
    }
}

/// As many endpoints parse as there are.
proof fn parsed_endpoints_len(ts: Seq<Tree>, n: int)
    requires
        0 <= n,
    ensures
        parsed_endpoints(ts, n) matches Ok(v) ==> v.len() == n,
    decreases n,
{
    if n > 0 {
        parsed_endpoints_len(ts, n - 1);
    }
}

/// Parses a list of endpoints.
fn read_endpoints(a: &Vec<Json>) -> (r: Result<Vec<Endpoint>, String>)
    ensures
        match r {
            Ok(v) => parsed_endpoints(json::trees(a@), a@.len() as int) == Ok::<
                Seq<EndpointView>,
                Seq<char>,
            >(endpoint_views(v@)),
            Err(e) => parsed_endpoints(json::trees(a@), a@.len() as int) == Err::<
                Seq<EndpointView>,
                Seq<char>,
            >(e@),
        },
{
    let ghost ts = json::trees(a@);
    let mut out: Vec<Endpoint> = Vec::new();
    let mut i: usize = 0;
    assert(endpoint_views(out@) =~= Seq::<EndpointView>::empty());
    while i < a.len()
        invariant
            i <= a@.len(),
            ts == json::trees(a@),
            parsed_endpoints(ts, i as int) == Ok::<Seq<EndpointView>, Seq<char>>(
                endpoint_views(out@),
            ),
        decreases a@.len() - i,
    {
        assert(ts[i as int] == a@[i as int]@);
        match Endpoint::from_json(&a[i]) {
            Ok(v) => {
                let ghost before = endpoint_views(out@);
                out.push(v);
                assert(endpoint_views(out@) =~= before.push(v@));
            },
            Err(e) => {
                proof {
                    parsed_endpoints_fail(ts, i + 1, a@.len() as int);
                }
                return Err(e);
            },
        }
        i = i + 1;
    }
    Ok(out)
}

/// What the body of a service descriptor parses to.
pub open spec fn parsed_service_body(t: Tree, identifier: Seq<char>) -> Result<
    ServiceBodyView,
    DiscoveryErrorView,
> {
    match json::obj_of(t) {
        None => invalid("body must be an object"@),
        Some(m) => {
            let class = json::get_str(t, "class"@);
            let operator = json::member(m, "operator"@);
            let list = json::member(m, "endpoints"@);
            let raw = json::arr_of(list->Some_0);
            let endpoints = parsed_endpoints(raw->Some_0, raw->Some_0.len() as int);
            let status = fields::present(m, "status"@);
            let body_id = match json::get_str(t, "identifier"@) {
                Some(s) => s,
                None => identifier,
            };
            if class is None {
                invalid("body missing `class`"@)
            } else if parsed_service_class(class->Some_0) is None {
                invalid(
                    "unknown service class `"@ + class->Some_0 + "` (expected one of "@
                        + service_class_help() + ")"@,
                )
            } else if operator is None {
                invalid("body missing `operator`"@)
            } else if parsed_operator(operator->Some_0) is Err {
                invalid(parsed_operator(operator->Some_0)->Err_0)
            } else if list is None {
                invalid("body missing `endpoints`"@)
            } else if raw is None {
                invalid("`endpoints` must be an array"@)
            } else if endpoints is Err {
                invalid(endpoints->Err_0)
            } else if endpoints->Ok_0.len() == 0 {
                invalid("`endpoints` must not be empty"@)
            } else if status is Some && json::str_of(status->Some_0) is None {
                invalid("`status` must be a string"@)
            } else if status is Some && parsed_service_status(json::str_of(status->Some_0)->Some_0) is None {
                invalid("unknown `status` value `"@ + json::str_of(status->Some_0)->Some_0 + "`"@)
            } else if body_id != identifier {
                invalid(
                    "body `identifier` `"@ + body_id + "` does not match the path identifier `"@
                        + identifier + "`"@,
                )
            } else {
                Ok(
                    ServiceBodyView {
                        class: parsed_service_class(class->Some_0)->Some_0,
                        operator: parsed_operator(operator->Some_0)->Ok_0,
                        endpoints: endpoints->Ok_0,
                        protocol_binding_ref: json::get_str(t, "protocol_binding_ref"@),
                        jurisdiction: json::get_str(t, "jurisdiction"@),
                        residency_class: json::get_str(t, "residency_class"@),
                        status: match status {
                            Some(s) => parsed_service_status(json::str_of(s)->Some_0)->Some_0,
                            None => ServiceStatus::Active,
                        },
                        succession_pointer: json::get_str(t, "succession_pointer"@),
                    },
                )
            }
        },
    }
}

/// A structural fault of a body.
fn fault<T>(message: &str) -> (r: Result<T, DiscoveryError>)
    ensures
        r matches Err(e) && e@ == DiscoveryErrorView::Invalid(message@),
{
    Err(DiscoveryError::Invalid(message.to_owned()))
}

/// The member `key` as a text, if it is one.
fn text_member(v: &Json, key: &str) -> (r: Option<String>)
    ensures
        text::opt_view(r) == json::get_str(v@, key@),
{
    match v.get_str(key) {
        Some(s) => Some(s.to_owned()),
        None => None,
    }
}

/// Parses the body of a service descriptor and validates its shape.
pub fn parse_service_body(body: &Json, identifier: &str) -> (r: Result<ServiceBody, DiscoveryError>)
    ensures
        match r {
            Ok(x) => parsed_service_body(body@, identifier@) == Ok::<
                ServiceBodyView,
                DiscoveryErrorView,
            >(x@),
            Err(e) => parsed_service_body(body@, identifier@) == Err::<
                ServiceBodyView,
                DiscoveryErrorView,
            >(e@),
        },
{
    let o = match body.as_object() {
        Some(o) => o,
        None => return fault("body must be an object"),
    };
    let class_text = match o.get_str("class") {
        Some(s) => s,
        None => return fault("body missing `class`"),
    };
    let class = match ServiceClass::parse(class_text) {
        Some(c) => c,
        None => {
            let help = ServiceClass::help();
            let message = text::cat5(
                "unknown service class `",
                class_text,
                "` (expected one of ",
                help.as_str(),
                ")",
            );
            return fault(message.as_str());
        },
    };
    let operator = match o.get("operator") {
        Some(x) => match OperatorRef::from_json(x) {
            Ok(r) => r,
            Err(e) => return Err(DiscoveryError::Invalid(e)),
        },
        None => return fault("body missing `operator`"),
    };
    let endpoints = match o.get("endpoints") {
        Some(x) => match x.as_array() {
            Some(a) => match read_endpoints(a) {
                Ok(v) => v,
                Err(e) => return Err(DiscoveryError::Invalid(e)),
            },
            None => return fault("`endpoints` must be an array"),
        },
        None => return fault("body missing `endpoints`"),
    };
    if endpoints.len() == 0 {
        assert(endpoint_views(endpoints@).len() == 0);
        return fault("`endpoints` must not be empty");
    }
    assert(endpoint_views(endpoints@).len() > 0);
    let status = match fields::read_present(o, "status") {
        None => ServiceStatus::Active,
        Some(x) => match x.as_str() {
            Some(s) => match ServiceStatus::parse(s) {
                Some(st) => st,
                None => {
                    let message = text::cat3("unknown `status` value `", s, "`");
                    return fault(message.as_str());
                },
            },
            None => return fault("`status` must be a string"),
        },
    };
    let body_id: &str = match o.get_str("identifier") {
        Some(s) => s,
        None => identifier,
    };
    if !text::same(body_id, identifier) {
        let message = text::cat5(
            "body `identifier` `",
            body_id,
            "` does not match the path identifier `",
            identifier,
            "`",
        );
        return fault(message.as_str());
    }
    Ok(
        ServiceBody {
            class,
            operator,
            endpoints,
            protocol_binding_ref: text_member(body, "protocol_binding_ref"),
            jurisdiction: text_member(body, "jurisdiction"),
            residency_class: text_member(body, "residency_class"),
            status,
            succession_pointer: text_member(body, "succession_pointer"),
        },
    )
}

/// The texts of the member `key`, where it is an array.
pub open spec fn texts_at(t: Tree, key: Seq<char>) -> Seq<Seq<char>> {
    match json::get_arr(t, key) {
        Some(a) => schema::texts_in(a),
        None => Seq::empty(),
    }
}

/// Reads the texts of the member `key`.
fn read_texts_at(v: &Json, key: &str) -> (r: Vec<String>)
    ensures
        text::views(r@) == texts_at(v@, key@),
{
    match v.get_arr(key) {
        Some(a) => schema::read_texts(a),
        None => {
            let none: Vec<String> = Vec::new();
            assert(text::views(none@) =~= Seq::<Seq<char>>::empty());
            none
        },
    }
}

/// The members of a body, none when it is no object.
pub open spec fn body_members(t: Tree) -> Map<Seq<char>, Tree> {
    match t {
        Tree::Obj(m) => m,
        _ => Map::empty(),
    }
}

/// The members of a body.
fn read_members(body: &Json) -> (r: Object)
    ensures
        r@ == body_members(body@),
{
    match body {
        Json::Obj(o) => o.clone(),
        _ => Object::new(),
    }
}

/// A copy of a list of texts.
pub(crate) fn clone_texts(v: &Vec<String>) -> (r: Vec<String>)
    ensures
        text::views(r@) == text::views(v@),
{
    let mut out: Vec<String> = Vec::new();
    let mut i: usize = 0;
    while i < v.len()
        invariant
            i <= v@.len(),
            out@.len() == i,
            forall|j: int| 0 <= j < i ==> (#[trigger] out@[j])@ == v@[j]@,
        decreases v@.len() - i,
    {
        out.push(v[i].clone());
        i = i + 1;
    }
    assert(text::views(out@) =~= text::views(v@));
    out
}

/// One protocol binding.
#[derive(Debug, PartialEq, Eq)]
pub struct ProtocolBinding {
    pub identifier: String,
    pub grammar_ref: String,
    pub media_types: Vec<String>,
    pub version: String,
    pub conformance_suite_ref: Option<String>,
    pub body: Json,
    pub signature: SignatureValue,
}

/// The content of a protocol binding.
pub struct ProtocolView {
    pub identifier: Seq<char>,
    pub grammar_ref: Seq<char>,
    pub media_types: Seq<Seq<char>>,
    pub version: Seq<char>,
    pub conformance_suite_ref: Option<Seq<char>>,
    pub body: Tree,
    pub signature: SignatureView,
}

impl View for ProtocolBinding {
    type V = ProtocolView;

    open spec fn view(&self) -> ProtocolView {
        ProtocolView {
            identifier: self.identifier@,
            grammar_ref: self.grammar_ref@,
            media_types: text::views(self.media_types@),
            version: self.version@,
            conformance_suite_ref: text::opt_view(self.conformance_suite_ref),
            body: self.body@,
            signature: self.signature@,
        }
    }
}

impl Clone for ProtocolBinding {
    fn clone(&self) -> (r: ProtocolBinding)
        ensures
            r@ == self@,
    {
        ProtocolBinding {
            identifier: self.identifier.clone(),
            grammar_ref: self.grammar_ref.clone(),
            media_types: clone_texts(&self.media_types),
            version: self.version.clone(),
            conformance_suite_ref: fields::clone_text(&self.conformance_suite_ref),
            body: self.body.clone(),
            signature: self.signature.clone(),
        }
    }
}

/// The wire form of a protocol binding: its body with the parsed members and the
/// signature.
pub open spec fn protocol_tree(b: ProtocolView) -> Tree {
    let m = body_members(b.body);
    let m = m.insert("identifier"@, Tree::Str(b.identifier));
    let m = m.insert("version"@, Tree::Str(b.version));
    let m = m.insert("grammar_ref"@, Tree::Str(b.grammar_ref));
    let m = m.insert("media_types"@, Tree::Arr(json::str_trees(b.media_types)));
    let m = json::put_opt(m, "conformance_suite_ref"@, json::opt_str(b.conformance_suite_ref));
    Tree::Obj(m.insert("signature"@, signature_tree(b.signature)))
}

/// What the wire form of a protocol binding parses to.
pub open spec fn parsed_protocol(t: Tree) -> Result<ProtocolView, Seq<char>> {
    let identifier = json::get_str(t, "identifier"@);
    let version = json::get_str(t, "version"@);
    let grammar_ref = json::get_str(t, "grammar_ref"@);
    match json::obj_of(t) {
        None => Err("protocol binding must be an object"@),
        Some(m) => {
            let block = json::member(m, "signature"@);
            if identifier is None {
                Err("missing `identifier`"@)
            } else if version is None {
                Err("missing `version`"@)
            } else if grammar_ref is None {
                Err("missing `grammar_ref`"@)
            } else if block is None {
                Err("missing `signature`"@)
            } else {
                match parsed_signature(block->Some_0) {
                    Err(e) => Err(e),
                    Ok(signature) => Ok(
                        ProtocolView {
                            identifier: identifier->Some_0,
                            grammar_ref: grammar_ref->Some_0,
                            media_types: texts_at(t, "media_types"@),
                            version: version->Some_0,
                            conformance_suite_ref: json::get_str(t, "conformance_suite_ref"@),
                            body: unsigned(t),
                            signature,
                        },
                    ),
                }
            }
        },
    }
}

impl ProtocolBinding {
    /// Wire form.
    pub fn to_json(&self) -> (r: Json)
        ensures
            r@ == protocol_tree(self@),
    {
        let mut m = read_members(&self.body);
        m.put_str("identifier", self.identifier.as_str());
        m.put_str("version", self.version.as_str());
        m.put_str("grammar_ref", self.grammar_ref.as_str());
        m.put("media_types", json::str_array(&self.media_types));
        m.put_opt_str("conformance_suite_ref", &self.conformance_suite_ref);
        m.put("signature", self.signature.to_json());
        Json::Obj(m)
    }

    /// The bytes that the signature covers: the wire form without its
    /// `signature` member.
    pub fn signed_payload(&self) -> (r: Result<Vec<u8>, String>)
        ensures
            r matches Ok(b) && b@ == payload_of(protocol_tree(self@)),
    {
        Ok(payload(&self.to_json()))
    }

    /// Verifies the signature against the operator keyring.
    pub fn verify(&self, keyring: &OperatorKeyring) -> (r: Result<(), DiscoveryError>)
        ensures
            match r {
                Ok(_) => verification(
                    keyring@,
                    body_operator(self@.body),
                    payload_of(protocol_tree(self@)),
                    self@.signature.value,
                ) is Ok,
                Err(e) => verification(
                    keyring@,
                    body_operator(self@.body),
                    payload_of(protocol_tree(self@)),
                    self@.signature.value,
                ) == Err::<(), DiscoveryErrorView>(e@),
            },
    {
        let payload = payload(&self.to_json());
        let id = read_body_operator(&self.body);
        keyring.verify(id.as_str(), payload.as_slice(), self.signature.value.as_slice())
    }

    /// Parses the wire form.
    pub fn from_json_value(v: &Json) -> (r: Result<ProtocolBinding, String>)
        ensures
            match r {
                Ok(x) => parsed_protocol(v@) == Ok::<ProtocolView, Seq<char>>(x@),
                Err(e) => parsed_protocol(v@) == Err::<ProtocolView, Seq<char>>(e@),
            },
    {
        let o = match v.as_object() {
            Some(o) => o,
            None => return Err("protocol binding must be an object".to_owned()),
        };
        let identifier = match v.get_str("identifier") {
            Some(s) => s.to_owned(),
            None => return Err("missing `identifier`".to_owned()),
        };
        let version = match v.get_str("version") {
            Some(s) => s.to_owned(),
            None => return Err("missing `version`".to_owned()),
        };
        let grammar_ref = match v.get_str("grammar_ref") {
            Some(s) => s.to_owned(),
            None => return Err("missing `grammar_ref`".to_owned()),
        };
        let signature = match o.get("signature") {
            Some(s) => match SignatureValue::from_json(s) {
                Ok(x) => x,
                Err(e) => return Err(e),
            },
            None => return Err("missing `signature`".to_owned()),
        };
        let mut bare = o.clone();
        bare.remove("signature");
        Ok(
            ProtocolBinding {
                identifier,
                grammar_ref,
                media_types: read_texts_at(v, "media_types"),
                version,
                conformance_suite_ref: text_member(v, "conformance_suite_ref"),
                body: Json::Obj(bare),
                signature,
            },
        )
    }
}

/// The parsed content of a protocol-binding body.
#[derive(Debug, PartialEq, Eq)]
pub struct ProtocolBody {
    pub grammar_ref: String,
    pub media_types: Vec<String>,
    pub conformance_suite_ref: Option<String>,
}

/// The content of a parsed protocol body.
pub struct ProtocolBodyView {
    pub grammar_ref: Seq<char>,
    pub media_types: Seq<Seq<char>>,
    pub conformance_suite_ref: Option<Seq<char>>,
}

impl View for ProtocolBody {
    type V = ProtocolBodyView;

    open spec fn view(&self) -> ProtocolBodyView {
        ProtocolBodyView {
            grammar_ref: self.grammar_ref@,
            media_types: text::views(self.media_types@),
            conformance_suite_ref: text::opt_view(self.conformance_suite_ref),
        }
    }
}

/// A text that a body has to carry.
pub open spec fn body_text(t: Tree, key: Seq<char>) -> Result<Seq<char>, DiscoveryErrorView> {
    match json::get_str(t, key) {
        Some(s) => if s.len() > 0 {
            Ok(s)
        } else {
            invalid("body missing `"@ + key + "`"@)
        },
        None => invalid("body missing `"@ + key + "`"@),
    }
}

/// Reads a text that a body has to carry.
fn read_body_text(v: &Json, key: &str) -> (r: Result<String, DiscoveryError>)
    ensures
        match r {
            Ok(s) => body_text(v@, key@) == Ok::<Seq<char>, DiscoveryErrorView>(s@),
            Err(e) => body_text(v@, key@) == Err::<Seq<char>, DiscoveryErrorView>(e@),
        },
{
    if let Some(s) = v.get_str(key) {
        if !s.is_empty() {
            return Ok(s.to_owned());
        }
    }
    Err(DiscoveryError::Invalid(text::cat3("body missing `", key, "`")))
}

/// What the body of a protocol binding parses to.
pub open spec fn parsed_protocol_body(t: Tree) -> Result<ProtocolBodyView, DiscoveryErrorView> {
    let grammar_ref = body_text(t, "grammar_ref"@);
    if json::obj_of(t) is None {
        invalid("body must be an object"@)
    } else if grammar_ref is Err {
        Err(grammar_ref->Err_0)
    } else if texts_at(t, "media_types"@).len() == 0 {
        invalid("body missing `media_types`"@)
    } else {
        Ok(
            ProtocolBodyView {
                grammar_ref: grammar_ref->Ok_0,
                media_types: texts_at(t, "media_types"@),
                conformance_suite_ref: json::get_str(t, "conformance_suite_ref"@),
            },
        )
    }
}

/// Parses the body of a protocol binding.
pub fn parse_protocol_body(body: &Json) -> (r: Result<ProtocolBody, DiscoveryError>)
    ensures
        match r {
            Ok(x) => parsed_protocol_body(body@) == Ok::<ProtocolBodyView, DiscoveryErrorView>(x@),
            Err(e) => parsed_protocol_body(body@) == Err::<ProtocolBodyView, DiscoveryErrorView>(e@),
        },
{
    if body.as_object().is_none() {
        return fault("body must be an object");
    }
    let grammar_ref = match read_body_text(body, "grammar_ref") {
        Ok(s) => s,
        Err(e) => return Err(e),
    };
    let media_types = read_texts_at(body, "media_types");
    assert(text::views(media_types@).len() == media_types@.len());
    if media_types.len() == 0 {
        return fault("body missing `media_types`");
    }
    Ok(
        ProtocolBody {
            grammar_ref,
            media_types,
            conformance_suite_ref: text_member(body, "conformance_suite_ref"),
        },
    )
}

/// One verification mechanism.
#[derive(Debug, PartialEq, Eq)]
pub struct VerificationMechanism {
    pub identifier: String,
    pub suite: String,
    pub agility_status: String,
    pub trust_framework: Option<String>,
    pub trust_list_endpoint: Option<String>,
    pub master_list_ref: Option<String>,
    pub verdict_grammar_ref: Option<String>,
    pub body: Json,
    pub signature: SignatureValue,
}

/// The content of a verification mechanism.
pub struct MechanismView {
    pub identifier: Seq<char>,
    pub suite: Seq<char>,
    pub agility_status: Seq<char>,
    pub trust_framework: Option<Seq<char>>,
    pub trust_list_endpoint: Option<Seq<char>>,
    pub master_list_ref: Option<Seq<char>>,
    pub verdict_grammar_ref: Option<Seq<char>>,
    pub body: Tree,
    pub signature: SignatureView,
}

impl View for VerificationMechanism {
    type V = MechanismView;

    open spec fn view(&self) -> MechanismView {
        MechanismView {
            identifier: self.identifier@,
            suite: self.suite@,
            agility_status: self.agility_status@,
            trust_framework: text::opt_view(self.trust_framework),
            trust_list_endpoint: text::opt_view(self.trust_list_endpoint),
            master_list_ref: text::opt_view(self.master_list_ref),
            verdict_grammar_ref: text::opt_view(self.verdict_grammar_ref),
            body: self.body@,
            signature: self.signature@,
        }
    }
}

impl Clone for VerificationMechanism {
    fn clone(&self) -> (r: VerificationMechanism)
        ensures
            r@ == self@,
    {
        VerificationMechanism {
            identifier: self.identifier.clone(),
            suite: self.suite.clone(),
            agility_status: self.agility_status.clone(),
            trust_framework: fields::clone_text(&self.trust_framework),
            trust_list_endpoint: fields::clone_text(&self.trust_list_endpoint),
            master_list_ref: fields::clone_text(&self.master_list_ref),
            verdict_grammar_ref: fields::clone_text(&self.verdict_grammar_ref),
            body: self.body.clone(),
            signature: self.signature.clone(),
        }
    }
}

/// The wire form of a verification mechanism: its body with the parsed members and the
/// signature.
pub open spec fn mechanism_tree(b: MechanismView) -> Tree {
    let m = body_members(b.body);
    let m = m.insert("identifier"@, Tree::Str(b.identifier));
    let m = m.insert("suite"@, Tree::Str(b.suite));
    let m = m.insert("agility_status"@, Tree::Str(b.agility_status));
    let m = json::put_opt(m, "trust_framework"@, json::opt_str(b.trust_framework));
    let m = json::put_opt(m, "trust_list_endpoint"@, json::opt_str(b.trust_list_endpoint));
    let m = json::put_opt(m, "master_list_ref"@, json::opt_str(b.master_list_ref));
    let m = json::put_opt(m, "verdict_grammar_ref"@, json::opt_str(b.verdict_grammar_ref));
    Tree::Obj(m.insert("signature"@, signature_tree(b.signature)))
}

/// What the wire form of a verification mechanism parses to.
pub open spec fn parsed_mechanism(t: Tree) -> Result<MechanismView, Seq<char>> {
    let identifier = json::get_str(t, "identifier"@);
    let suite = json::get_str(t, "suite"@);
    let agility_status = json::get_str(t, "agility_status"@);
    match json::obj_of(t) {
        None => Err("verification mechanism must be an object"@),
        Some(m) => {
            let block = json::member(m, "signature"@);
            if identifier is None {
                Err("missing `identifier`"@)
            } else if suite is None {
                Err("missing `suite`"@)
            } else if agility_status is None {
                Err("missing `agility_status`"@)
            } else if block is None {
                Err("missing `signature`"@)
            } else {
                match parsed_signature(block->Some_0) {
                    Err(e) => Err(e),
                    Ok(signature) => Ok(
                        MechanismView {
                            identifier: identifier->Some_0,
                            suite: suite->Some_0,
                            agility_status: agility_status->Some_0,
                            trust_framework: json::get_str(t, "trust_framework"@),
                            trust_list_endpoint: json::get_str(t, "trust_list_endpoint"@),
                            master_list_ref: json::get_str(t, "master_list_ref"@),
                            verdict_grammar_ref: json::get_str(t, "verdict_grammar_ref"@),
                            body: unsigned(t),
                            signature,
                        },
                    ),
                }
            }
        },
    }
}

impl VerificationMechanism {
    /// Wire form.
    pub fn to_json(&self) -> (r: Json)
        ensures
            r@ == mechanism_tree(self@),
    {
        let mut m = read_members(&self.body);
        m.put_str("identifier", self.identifier.as_str());
        m.put_str("suite", self.suite.as_str());
        m.put_str("agility_status", self.agility_status.as_str());
        m.put_opt_str("trust_framework", &self.trust_framework);
        m.put_opt_str("trust_list_endpoint", &self.trust_list_endpoint);
        m.put_opt_str("master_list_ref", &self.master_list_ref);
        m.put_opt_str("verdict_grammar_ref", &self.verdict_grammar_ref);
        m.put("signature", self.signature.to_json());
        Json::Obj(m)
    }

    /// The bytes that the signature covers: the wire form without its
    /// `signature` member.
    pub fn signed_payload(&self) -> (r: Result<Vec<u8>, String>)
        ensures
            r matches Ok(b) && b@ == payload_of(mechanism_tree(self@)),
    {
        Ok(payload(&self.to_json()))
    }

    /// Verifies the signature against the operator keyring.
    pub fn verify(&self, keyring: &OperatorKeyring) -> (r: Result<(), DiscoveryError>)
        ensures
            match r {
                Ok(_) => verification(
                    keyring@,
                    body_operator(self@.body),
                    payload_of(mechanism_tree(self@)),
                    self@.signature.value,
                ) is Ok,
                Err(e) => verification(
                    keyring@,
                    body_operator(self@.body),
                    payload_of(mechanism_tree(self@)),
                    self@.signature.value,
                ) == Err::<(), DiscoveryErrorView>(e@),
            },
    {
        let payload = payload(&self.to_json());
        let id = read_body_operator(&self.body);
        keyring.verify(id.as_str(), payload.as_slice(), self.signature.value.as_slice())
    }

    /// Parses the wire form.
    pub fn from_json_value(v: &Json) -> (r: Result<VerificationMechanism, String>)
        ensures
            match r {
                Ok(x) => parsed_mechanism(v@) == Ok::<MechanismView, Seq<char>>(x@),
                Err(e) => parsed_mechanism(v@) == Err::<MechanismView, Seq<char>>(e@),
            },
    {
        let o = match v.as_object() {
            Some(o) => o,
            None => return Err("verification mechanism must be an object".to_owned()),
        };
        let identifier = match v.get_str("identifier") {
            Some(s) => s.to_owned(),
            None => return Err("missing `identifier`".to_owned()),
        };
        let suite = match v.get_str("suite") {
            Some(s) => s.to_owned(),
            None => return Err("missing `suite`".to_owned()),
        };
        let agility_status = match v.get_str("agility_status") {
            Some(s) => s.to_owned(),
            None => return Err("missing `agility_status`".to_owned()),
        };
        let signature = match o.get("signature") {
            Some(s) => match SignatureValue::from_json(s) {
                Ok(x) => x,
                Err(e) => return Err(e),
            },
            None => return Err("missing `signature`".to_owned()),
        };
        let mut bare = o.clone();
        bare.remove("signature");
        Ok(
            VerificationMechanism {
                identifier,
                suite,
                agility_status,
                trust_framework: text_member(v, "trust_framework"),
                trust_list_endpoint: text_member(v, "trust_list_endpoint"),
                master_list_ref: text_member(v, "master_list_ref"),
                verdict_grammar_ref: text_member(v, "verdict_grammar_ref"),
                body: Json::Obj(bare),
                signature,
            },
        )
    }
}

/// The parsed content of a verification-mechanism body.
#[derive(Debug, PartialEq, Eq)]
pub struct VerificationBody {
    pub suite: String,
    pub agility_status: String,
    pub trust_framework: Option<String>,
    pub trust_list_endpoint: Option<String>,
    pub master_list_ref: Option<String>,
    pub verdict_grammar_ref: Option<String>,
}

/// The content of a parsed verification body.
pub struct VerificationBodyView {
    pub suite: Seq<char>,
    pub agility_status: Seq<char>,
    pub trust_framework: Option<Seq<char>>,
    pub trust_list_endpoint: Option<Seq<char>>,
    pub master_list_ref: Option<Seq<char>>,
    pub verdict_grammar_ref: Option<Seq<char>>,
}

impl View for VerificationBody {
    type V = VerificationBodyView;

    open spec fn view(&self) -> VerificationBodyView {
        VerificationBodyView {
            suite: self.suite@,
            agility_status: self.agility_status@,
            trust_framework: text::opt_view(self.trust_framework),
            trust_list_endpoint: text::opt_view(self.trust_list_endpoint),
            master_list_ref: text::opt_view(self.master_list_ref),
            verdict_grammar_ref: text::opt_view(self.verdict_grammar_ref),
        }
    }
}

/// What the body of a verification mechanism parses to.
pub open spec fn parsed_verification_body(t: Tree) -> Result<VerificationBodyView, DiscoveryErrorView> {
    let suite = body_text(t, "suite"@);
    let agility = body_text(t, "agility_status"@);
    if json::obj_of(t) is None {
        invalid("body must be an object"@)
    } else if suite is Err {
        Err(suite->Err_0)
    } else if agility is Err {
        Err(agility->Err_0)
    } else {
        Ok(
            VerificationBodyView {
                suite: suite->Ok_0,
                agility_status: agility->Ok_0,
                trust_framework: json::get_str(t, "trust_framework"@),
                trust_list_endpoint: json::get_str(t, "trust_list_endpoint"@),
                master_list_ref: json::get_str(t, "master_list_ref"@),
                verdict_grammar_ref: json::get_str(t, "verdict_grammar_ref"@),
            },
        )
    }
}

/// Parses the body of a verification mechanism.
pub fn parse_verification_body(body: &Json) -> (r: Result<VerificationBody, DiscoveryError>)
    ensures
        match r {
            Ok(x) => parsed_verification_body(body@) == Ok::<
                VerificationBodyView,
                DiscoveryErrorView,
            >(x@),
            Err(e) => parsed_verification_body(body@) == Err::<
                VerificationBodyView,
                DiscoveryErrorView,
            >(e@),
        },
{
    if body.as_object().is_none() {
        return fault("body must be an object");
    }
    let suite = match read_body_text(body, "suite") {
        Ok(s) => s,
        Err(e) => return Err(e),
    };
    let agility_status = match read_body_text(body, "agility_status") {
        Ok(s) => s,
        Err(e) => return Err(e),
    };
    Ok(
        VerificationBody {
            suite,
            agility_status,
            trust_framework: text_member(body, "trust_framework"),
            trust_list_endpoint: text_member(body, "trust_list_endpoint"),
            master_list_ref: text_member(body, "master_list_ref"),
            verdict_grammar_ref: text_member(body, "verdict_grammar_ref"),
        },
    )
}

/// The signature of a body by the operator of a label.
pub open spec fn signature_by(t: Tree, label: Seq<char>, kid: Seq<char>) -> SignatureView {
    SignatureView {
        key_id: kid,
        algorithm: "ed25519"@,
        value: crypto::ed25519_signature(seed_of(label), payload_of(t)),
    }
}

/// A body with the signature of the operator of a label.
pub open spec fn signed_body(t: Tree, label: Seq<char>, kid: Seq<char>) -> Tree {
    match t {
        Tree::Obj(m) => Tree::Obj(
            m.remove("signature"@).insert("signature"@, signature_tree(signature_by(t, label, kid))),
        ),
        _ => t,
    }
}

/// Whether what the operator of a label signed holds under the label's
/// public key.
pub open spec fn sound_signature(t: Tree, label: Seq<char>) -> bool {
    let value = crypto::ed25519_signature(seed_of(label), payload_of(t));
    &&& value.len() == 64
    &&& crypto::ed25519_holds(public_of(label), payload_of(t), value)
    &&& crypto::ed25519_key_fault(public_of(label)) is None
}

/// The signature of a body by the operator of a label.
pub(crate) fn signature_of(body: &Json, label: &str, kid: &str) -> (r: SignatureValue)
    ensures
        r@ == signature_by(body@, label@, kid@),
        crypto::ed25519_key_fault(public_of(label@)) is None ==> sound_signature(body@, label@),
{
    let bytes = payload(body);
    let value = crypto::sign(&operator_seed(label), bytes.as_slice());
    SignatureValue { key_id: kid.to_owned(), algorithm: "ed25519".to_owned(), value }
}

/// The id of the key of a label.
pub open spec fn label_key_id(label: Seq<char>) -> Seq<char> {
    key_id_of(public_of(label))
}

/// Signs the members of a body with the key of an operator label, under the
/// id of that key.
pub(crate) fn self_signed(members: Object, label: &str) -> (r: (Json, SignatureValue))
    ensures
        r.0@ == signed_body(Tree::Obj(members@), label@, label_key_id(label@)),
        r.1@ == signature_by(Tree::Obj(members@), label@, label_key_id(label@)),
        sound_signature(Tree::Obj(members@), label@),
{
    let kid = key_id(&operator_public_key(label));
    let body = Json::Obj(members.clone());
    let signature = signature_of(&body, label, kid.as_str());
    let mut m = members;
    m.remove("signature");
    m.put("signature", signature.to_json());
    (Json::Obj(m), signature)
}

/// Signs a descriptor body with the key of an operator label: the body gets
/// its `signature` block, whatever block it had. An operator id that is not
/// the one derived from the key is an error.
pub fn sign_body(body: &mut Json, operator_label: &str, operator_id_str: &str, key_id_str: &str) -> (r:
    Result<(), String>)
    ensures
        final(body)@ == signed_body(old(body)@, operator_label@, key_id_str@),
        sound_signature(old(body)@, operator_label@),
        match r {
            Ok(_) => operator_id_str@ == operator_id_of(public_of(operator_label@)),
            Err(e) => operator_id_str@ != operator_id_of(public_of(operator_label@)) && e@
                == "operator id `"@ + operator_id_str@ + "` does not match the content-derived id `"@
                + operator_id_of(public_of(operator_label@)) + "`"@,
        },
{
    let block = signature_of(body, operator_label, key_id_str);
    let mut old_body = Json::Null;
    std::mem::swap(&mut old_body, body);
    *body = match old_body {
        Json::Obj(o) => {
            let mut m = o;
            m.remove("signature");
            m.put("signature", block.to_json());
            Json::Obj(m)
        },
        other => other,
    };
    let public = operator_public_key(operator_label);
    let expected = operator_id(&public);
    if !text::same(operator_id_str, expected.as_str()) {
        return Err(
            text::cat5(
                "operator id `",
                operator_id_str,
                "` does not match the content-derived id `",
                expected.as_str(),
                "`",
            ),
        );
    }
    Ok(())
}

/// A body signed by a known operator that it names verifies.
pub proof fn signed_body_verifies(
    keys: Map<Seq<char>, Seq<u8>>,
    m: Map<Seq<char>, Tree>,
    label: Seq<char>,
    kid: Seq<char>,
)
    requires
        sound_signature(Tree::Obj(m), label),
        body_operator(Tree::Obj(m)) == operator_id_of(public_of(label)),
        keys.dom().contains(operator_id_of(public_of(label))),
        keys[operator_id_of(public_of(label))] == public_of(label),
    ensures
        parsed_signature(signature_tree(signature_by(Tree::Obj(m), label, kid))) == Ok::<
            SignatureView,
            Seq<char>,
        >(signature_by(Tree::Obj(m), label, kid)),
        version_verification(
            keys,
            signed_body(Tree::Obj(m), label, kid),
            signature_by(Tree::Obj(m), label, kid).value,
        ) is Ok,
{
    let t = Tree::Obj(m);
    let s = signed_body(t, label, kid);
    let sig = signature_by(t, label, kid);
    signature_wire_round_trip(sig);
    let n = s->Obj_0;
    assert(n.remove("signature"@) =~= m.remove("signature"@));
    assert(payload_of(s) == payload_of(t));
    assert(json::lookup(s, "operator"@) == json::lookup(t, "operator"@)) by {
        reveal_strlit("operator");
        reveal_strlit("signature");
        assert("operator"@.len() != "signature"@.len());
    }
}

/// The members of a signature block have different names.
proof fn signature_keys_distinct()
    ensures
        "key_id"@ != "algorithm"@,
        "key_id"@ != "value"@,
        "algorithm"@ != "value"@,
{
    reveal_strlit("key_id");
    reveal_strlit("algorithm");
    reveal_strlit("value");
    assert("key_id"@.len() != "algorithm"@.len());
    assert("key_id"@.len() != "value"@.len());
    assert("algorithm"@.len() != "value"@.len());
}

/// The wire form of a signature block is read back as that block.
pub proof fn signature_wire_round_trip(s: SignatureView)
    requires
        s.algorithm == "ed25519"@,
        s.value.len() == 64,
    ensures
        parsed_signature(signature_tree(s)) == Ok::<SignatureView, Seq<char>>(s),
{
    broadcast use json::group_members;
    signature_keys_distinct();
    crypto::hex_round_trip(s.value);
    let m = signature_tree(s)->Obj_0;
    assert(json::member(m, "key_id"@) == Some(Tree::Str(s.key_id)));
    assert(json::member(m, "algorithm"@) == Some(Tree::Str(s.algorithm)));
    assert(json::member(m, "value"@) == Some(Tree::Str(crypto::hex_text(s.value))));
}

/// Every operator of the project is in the seeded keyring under its own
/// id, or under an id that another label shares.
pub proof fn seeded_operator_is_known(labels: Seq<&'static str>, n: int, i: int)
    requires
        0 <= i < n <= labels.len(),
    ensures
        operators_of(labels, n).dom().contains(operator_id_of(public_of(labels[i]@))),
    decreases n,
{
    if i < n - 1 {
        seeded_operator_is_known(labels, n - 1, i);
    }
}

/// The seeded keyring holds exactly the ids of the operators of the project.
/// Each id is that of the key it maps to, which is the key of one of the
/// operators: the operator's own, when no later label has the same id.
pub proof fn seeded_ids_are_the_operators(labels: Seq<&'static str>, n: int)
    requires
        0 <= n <= labels.len(),
    ensures
        forall|id: Seq<char>| #[trigger]
            operators_of(labels, n).dom().contains(id) <==> exists|i: int|
                0 <= i < n && operator_id_of(public_of((#[trigger] labels[i])@)) == id,
        forall|id: Seq<char>| #[trigger]
            operators_of(labels, n).dom().contains(id) ==> operator_id_of(operators_of(labels, n)[id])
                == id && exists|i: int|
                0 <= i < n && public_of((#[trigger] labels[i])@) == operators_of(labels, n)[id],
        forall|i: int|
            0 <= i < n && (forall|j: int|
                i < j < n ==> operator_id_of(public_of((#[trigger] labels[j])@)) != operator_id_of(
                    public_of(labels[i]@),
                )) ==> operators_of(labels, n)[operator_id_of(public_of((#[trigger] labels[i])@))]
                == public_of(labels[i]@),
    decreases n,
{
    let m = operators_of(labels, n);
    if n > 0 {
        let h = operators_of(labels, n - 1);
        let last = operator_id_of(public_of(labels[n - 1]@));
        seeded_ids_are_the_operators(labels, n - 1);
        assert(m == h.insert(last, public_of(labels[n - 1]@)));
        assert forall|id: Seq<char>| #[trigger] m.dom().contains(id) implies operator_id_of(m[id]) == id
            && exists|i: int| 0 <= i < n && public_of((#[trigger] labels[i])@) == m[id] by {
            if id == last {
                assert(public_of(labels[n - 1]@) == m[id]);
            } else {
                assert(h.dom().contains(id));
            }
        }
        assert forall|id: Seq<char>| #[trigger] m.dom().contains(id) <==> exists|i: int|
            0 <= i < n && operator_id_of(public_of((#[trigger] labels[i])@)) == id by {
            if id != last && m.dom().contains(id) {
                assert(h.dom().contains(id));
            }
            if exists|i: int| 0 <= i < n && operator_id_of(public_of((#[trigger] labels[i])@)) == id {
                let i = choose|i: int|
                    0 <= i < n && operator_id_of(public_of((#[trigger] labels[i])@)) == id;
                seeded_operator_is_known(labels, n, i);
            }
        }
        assert forall|i: int|
            0 <= i < n && (forall|j: int|
                i < j < n ==> operator_id_of(public_of((#[trigger] labels[j])@)) != operator_id_of(
                    public_of(labels[i]@),
                )) implies m[operator_id_of(public_of((#[trigger] labels[i])@))] == public_of(
            labels[i]@,
        ) by {
            if i < n - 1 {
                assert(operator_id_of(public_of(labels[n - 1]@)) != operator_id_of(public_of(labels[i]@)));
                assert(h[operator_id_of(public_of(labels[i]@))] == public_of(labels[i]@));
            }
        }
    }
}

/// Adding an operator merges its id into the listing of the ids, and adding
/// it again changes nothing.
pub proof fn adding_an_operator(m: Map<Seq<char>, Seq<u8>>, label: Seq<char>)
    requires
        m.dom().finite(),
    ensures
        table::listing(with_operator(m, label).dom()) == table::merged(
            table::listing(m.dom()),
            operator_id_of(public_of(label)),
        ),
        with_operator(with_operator(m, label), label) == with_operator(m, label),
{
    let id = operator_id_of(public_of(label));
    table::listing_merges(m.dom(), id);
    assert(with_operator(m, label).dom() =~= m.dom().insert(id));
    assert(with_operator(with_operator(m, label), label) =~= with_operator(m, label));
}

/// Whether a service version can be stored: its instants are in four-digit
/// years and its signature is an Ed25519 one.
pub open spec fn service_version_ok(v: ServiceVersionView) -> bool {
    &&& time::four_digit_year(v.effective_from.secs as int)
    &&& model::stamp_ok(v.effective_until)
    &&& time::four_digit_year(v.registered_at.secs as int)
    &&& v.signature.algorithm == "ed25519"@
    &&& v.signature.value.len() == 64
}

/// The members of a service version have different names.
proof fn service_version_keys_distinct()
    ensures
        "version"@ != "status"@,
        "version"@ != "effective_from"@,
        "version"@ != "effective_until"@,
        "version"@ != "registered_at"@,
        "version"@ != "superseded_by_version"@,
        "version"@ != "body"@,
        "version"@ != "signature"@,
        "version"@ != "window_end"@,
        "status"@ != "effective_from"@,
        "status"@ != "effective_until"@,
        "status"@ != "registered_at"@,
        "status"@ != "superseded_by_version"@,
        "status"@ != "body"@,
        "status"@ != "signature"@,
        "status"@ != "window_end"@,
        "effective_from"@ != "effective_until"@,
        "effective_from"@ != "registered_at"@,
        "effective_from"@ != "superseded_by_version"@,
        "effective_from"@ != "body"@,
        "effective_from"@ != "signature"@,
        "effective_from"@ != "window_end"@,
        "effective_until"@ != "registered_at"@,
        "effective_until"@ != "superseded_by_version"@,
        "effective_until"@ != "body"@,
        "effective_until"@ != "signature"@,
        "effective_until"@ != "window_end"@,
        "registered_at"@ != "superseded_by_version"@,
        "registered_at"@ != "body"@,
        "registered_at"@ != "signature"@,
        "registered_at"@ != "window_end"@,
        "superseded_by_version"@ != "body"@,
        "superseded_by_version"@ != "signature"@,
        "superseded_by_version"@ != "window_end"@,
        "body"@ != "signature"@,
        "body"@ != "window_end"@,
        "signature"@ != "window_end"@,
{
    reveal_strlit("version");
    reveal_strlit("status");
    reveal_strlit("effective_from");
    reveal_strlit("effective_until");
    reveal_strlit("registered_at");
    reveal_strlit("superseded_by_version");
    reveal_strlit("body");
    reveal_strlit("signature");
    reveal_strlit("window_end");
    assert("version"@.len() != "status"@.len());
    assert("version"@.len() != "effective_from"@.len());
    assert("version"@.len() != "effective_until"@.len());
    assert("version"@.len() != "registered_at"@.len());
    assert("version"@.len() != "superseded_by_version"@.len());
    assert("version"@.len() != "body"@.len());
    assert("version"@.len() != "signature"@.len());
    assert("version"@.len() != "window_end"@.len());
    assert("status"@.len() != "effective_from"@.len());
    assert("status"@.len() != "effective_until"@.len());
    assert("status"@.len() != "registered_at"@.len());
    assert("status"@.len() != "superseded_by_version"@.len());
    assert("status"@.len() != "body"@.len());
    assert("status"@.len() != "signature"@.len());
    assert("status"@.len() != "window_end"@.len());
    assert("effective_from"@.len() != "effective_until"@.len());
    assert("effective_from"@.len() != "registered_at"@.len());
    assert("effective_from"@.len() != "superseded_by_version"@.len());
    assert("effective_from"@.len() != "body"@.len());
    assert("effective_from"@.len() != "signature"@.len());
    assert("effective_from"@.len() != "window_end"@.len());
    assert("effective_until"@.len() != "registered_at"@.len());
    assert("effective_until"@.len() != "superseded_by_version"@.len());
    assert("effective_until"@.len() != "body"@.len());
    assert("effective_until"@.len() != "signature"@.len());
    assert("effective_until"@.len() != "window_end"@.len());
    assert("registered_at"@.len() != "superseded_by_version"@.len());
    assert("registered_at"@.len() != "body"@.len());
    assert("registered_at"@.len() != "signature"@.len());
    assert("registered_at"@.len() != "window_end"@.len());
    assert("superseded_by_version"@.len() != "body"@.len());
    assert("superseded_by_version"@.len() != "signature"@.len());
    assert("superseded_by_version"@.len() != "window_end"@.len());
    assert("body"@.len() != "signature"@.len());
    assert("body"@.len() != "window_end"@.len());
    assert("signature"@.len() != "window_end"@.len());
}

/// The members of a service version's wire form.
proof fn service_version_members(v: ServiceVersionView, end: Option<Timestamp>, m: Map<Seq<char>, Tree>)
    requires
        service_version_tree(v, end) == Tree::Obj(m),
    ensures
        json::member(m, "version"@) == Some(Tree::Str(v.version)),
        json::member(m, "status"@) == Some(Tree::Str(service_status_name(v.status))),
        json::member(m, "effective_from"@) == Some(stamp(v.effective_from)),
        json::member(m, "effective_until"@) == fields::stamp_tree(v.effective_until),
        json::member(m, "registered_at"@) == Some(stamp(v.registered_at)),
        json::member(m, "superseded_by_version"@) == json::opt_str(v.superseded_by_version),
        json::member(m, "body"@) == Some(v.body),
        json::member(m, "signature"@) == Some(signature_tree(v.signature)),
{
    broadcast use json::group_members;
    service_version_keys_distinct();
}

/// A written instant is read back.
proof fn stamp_reads_back(t: Tree, m: Map<Seq<char>, Tree>, key: Seq<char>, x: Timestamp)
    requires
        t == Tree::Obj(m),
        json::member(m, key) == Some(stamp(x)),
        time::four_digit_year(x.secs as int),
    ensures
        stamp_req(t, key) == Ok::<Timestamp, Seq<char>>(x),
{
    time::stamp_round_trip(x.secs as int);
}

/// An instant that may be missing is read back.
proof fn opt_stamp_reads_back(m: Map<Seq<char>, Tree>, key: Seq<char>, x: Option<Timestamp>)
    requires
        json::member(m, key) == fields::stamp_tree(x),
        model::stamp_ok(x),
    ensures
        stamp_str(m, key) == Ok::<Option<Timestamp>, Seq<char>>(x),
{
    if let Some(t) = x {
        time::stamp_round_trip(t.secs as int);
    }
}

/// The wire form of a service version is read back as that version.
pub proof fn service_version_wire_round_trip(v: ServiceVersionView, end: Option<Timestamp>)
    requires
        service_version_ok(v),
    ensures
        parsed_service_version(service_version_tree(v, end)) == Ok::<ServiceVersionView, Seq<char>>(v),
{
    let t = service_version_tree(v, end);
    let m = t->Obj_0;
    service_version_members(v, end, m);
    service_version_reads_back(v, t, m);
}

/// An object with the members of a service version parses to it.
proof fn service_version_reads_back(v: ServiceVersionView, t: Tree, m: Map<Seq<char>, Tree>)
    requires
        service_version_ok(v),
        t == Tree::Obj(m),
        json::member(m, "version"@) == Some(Tree::Str(v.version)),
        json::member(m, "status"@) == Some(Tree::Str(service_status_name(v.status))),
        json::member(m, "effective_from"@) == Some(stamp(v.effective_from)),
        json::member(m, "effective_until"@) == fields::stamp_tree(v.effective_until),
        json::member(m, "registered_at"@) == Some(stamp(v.registered_at)),
        json::member(m, "superseded_by_version"@) == json::opt_str(v.superseded_by_version),
        json::member(m, "body"@) == Some(v.body),
        json::member(m, "signature"@) == Some(signature_tree(v.signature)),
    ensures
        parsed_service_version(t) == Ok::<ServiceVersionView, Seq<char>>(v),
{
    service_status_round_trip(v.status);
    signature_wire_round_trip(v.signature);
    stamp_reads_back(t, m, "effective_from"@, v.effective_from);
    stamp_reads_back(t, m, "registered_at"@, v.registered_at);
    opt_stamp_reads_back(m, "effective_until"@, v.effective_until);
    assert(json::get_str(t, "version"@) == Some(v.version));
    assert(json::get_str(t, "status"@) == Some(service_status_name(v.status)));
    assert(json::get_str(t, "superseded_by_version"@) == v.superseded_by_version);
}

/// Versions are read one by one.
proof fn service_versions_read(ts: Seq<Tree>, all: Seq<ServiceVersionView>, n: int)
    requires
        ts.len() == all.len(),
        0 <= n <= all.len(),
        forall|k: int|
            0 <= k < ts.len() ==> parsed_service_version(#[trigger] ts[k]) == Ok::<
                ServiceVersionView,
                Seq<char>,
            >(all[k]),
    ensures
        parsed_service_versions(ts, n) == Ok::<Seq<ServiceVersionView>, Seq<char>>(all.take(n)),
    decreases n,
{
    if n > 0 {
        service_versions_read(ts, all, n - 1);
        assert(all.take(n) =~= all.take(n - 1).push(all[n - 1]));
    } else {
        assert(all.take(0) =~= Seq::<ServiceVersionView>::empty());
    }
}

/// The stored forms of sound service versions are read back.
proof fn service_versions_read_back(all: Seq<ServiceVersionView>)
    requires
        forall|k: int| 0 <= k < all.len() ==> service_version_ok(#[trigger] all[k]),
    ensures
        parsed_service_versions(
            all.map_values(|v: ServiceVersionView| service_version_tree(v, None)),
            all.len() as int,
        ) == Ok::<Seq<ServiceVersionView>, Seq<char>>(all),
{
    let ts = all.map_values(|v: ServiceVersionView| service_version_tree(v, None));
    assert forall|k: int| 0 <= k < ts.len() implies parsed_service_version(#[trigger] ts[k]) == Ok::<
        ServiceVersionView,
        Seq<char>,
    >(all[k]) by {
        service_version_wire_round_trip(all[k], None);
    }
    service_versions_read(ts, all, all.len() as int);
    assert(all.take(all.len() as int) =~= all);
}

/// The members of the stored form of a service.
proof fn service_members(s: ServiceView, m: Map<Seq<char>, Tree>)
    requires
        service_stored(s) == Tree::Obj(m),
    ensures
        json::member(m, "identifier"@) == Some(Tree::Str(s.identifier)),
        json::member(m, "versions"@) == Some(Tree::Arr(service_stored_trees(s.versions))),
{
    broadcast use json::group_members;
    assert("identifier"@ != "versions"@) by {
        reveal_strlit("identifier");
        reveal_strlit("versions");
        assert("identifier"@.len() != "versions"@.len());
    }
}

/// The stored versions of a service are read back in order.
proof fn service_versions_ordered_back(vs: Seq<ServiceVersionView>)
    requires
        forall|k: int| 0 <= k < vs.len() ==> service_version_ok(#[trigger] vs[k]),
    ensures
        parsed_service_versions(
            service_stored_trees(vs),
            service_stored_trees(vs).len() as int,
        ) == Ok::<Seq<ServiceVersionView>, Seq<char>>(service_ordered(vs)),
{
    let all = service_ordered(vs);
    service_ordered_holds(vs);
    assert forall|k: int| 0 <= k < all.len() implies service_version_ok(#[trigger] all[k]) by {
        assert(vs.contains(all[k]));
    }
    service_versions_read_back(all);
}

/// An object with the members of a service parses to it.
proof fn service_from_members(
    t: Tree,
    m: Map<Seq<char>, Tree>,
    identifier: Seq<char>,
    list: Seq<Tree>,
    versions: Seq<ServiceVersionView>,
)
    requires
        t == Tree::Obj(m),
        json::member(m, "identifier"@) == Some(Tree::Str(identifier)),
        json::member(m, "versions"@) == Some(Tree::Arr(list)),
        parsed_service_versions(list, list.len() as int) == Ok::<
            Seq<ServiceVersionView>,
            Seq<char>,
        >(versions),
    ensures
        parsed_service(t) == Ok::<ServiceView, Seq<char>>(ServiceView { identifier, versions }),
{
    assert(json::get_str(t, "identifier"@) == Some(identifier));
    assert(json::get_arr(t, "versions"@) == Some(list));
}

/// The stored form of a service is read back as that service, its versions
/// in order.
pub proof fn service_wire_round_trip(s: ServiceView)
    requires
        forall|k: int| 0 <= k < s.versions.len() ==> service_version_ok(#[trigger] s.versions[k]),
    ensures
        parsed_service(service_stored(s)) == Ok::<ServiceView, Seq<char>>(
            ServiceView { versions: service_ordered(s.versions), ..s },
        ),
{
    let t = service_stored(s);
    let m = t->Obj_0;
    service_members(s, m);
    service_versions_ordered_back(s.versions);
    service_from_members(
        t,
        m,
        s.identifier,
        service_stored_trees(s.versions),
        service_ordered(s.versions),
    );
}

/// A list of texts is read back.
proof fn str_trees_read_back(s: Seq<Seq<char>>)
    ensures
        schema::texts_in(json::str_trees(s)) == s,
    decreases s.len(),
{
    let t = json::str_trees(s);
    if s.len() > 0 {
        str_trees_read_back(s.drop_last());
        assert(t.drop_last() =~= json::str_trees(s.drop_last()));
        assert(s.drop_last().push(s.last()) =~= s);
    } else {
        assert(s =~= Seq::<Seq<char>>::empty());
    }
}

/// The members of a protocol binding have different names.
proof fn protocol_keys_distinct()
    ensures
        "identifier"@ != "version"@,
        "identifier"@ != "grammar_ref"@,
        "identifier"@ != "media_types"@,
        "identifier"@ != "conformance_suite_ref"@,
        "identifier"@ != "signature"@,
        "version"@ != "grammar_ref"@,
        "version"@ != "media_types"@,
        "version"@ != "conformance_suite_ref"@,
        "version"@ != "signature"@,
        "grammar_ref"@ != "media_types"@,
        "grammar_ref"@ != "conformance_suite_ref"@,
        "grammar_ref"@ != "signature"@,
        "media_types"@ != "conformance_suite_ref"@,
        "media_types"@ != "signature"@,
        "conformance_suite_ref"@ != "signature"@,
{
    reveal_strlit("identifier");
    reveal_strlit("version");
    reveal_strlit("grammar_ref");
    reveal_strlit("media_types");
    reveal_strlit("conformance_suite_ref");
    reveal_strlit("signature");
    assert("identifier"@.len() != "version"@.len());
    assert("identifier"@.len() != "grammar_ref"@.len());
    assert("identifier"@.len() != "media_types"@.len());
    assert("identifier"@.len() != "conformance_suite_ref"@.len());
    assert("identifier"@.len() != "signature"@.len());
    assert("version"@.len() != "grammar_ref"@.len());
    assert("version"@.len() != "media_types"@.len());
    assert("version"@.len() != "conformance_suite_ref"@.len());
    assert("version"@.len() != "signature"@.len());
    assert("grammar_ref"@[0] != "media_types"@[0]);
    assert("grammar_ref"@.len() != "conformance_suite_ref"@.len());
    assert("grammar_ref"@.len() != "signature"@.len());
    assert("media_types"@.len() != "conformance_suite_ref"@.len());
    assert("media_types"@.len() != "signature"@.len());
    assert("conformance_suite_ref"@.len() != "signature"@.len());
}

/// Whether a protocol binding can be stored: its signature is an Ed25519 one,
/// and an optional member that it lacks is no text of its body.
pub open spec fn protocol_ok(b: ProtocolView) -> bool {
    &&& b.signature.algorithm == "ed25519"@
    &&& b.signature.value.len() == 64
    &&& b.conformance_suite_ref is None ==> json::get_str(b.body, "conformance_suite_ref"@) is None
}

/// A protocol binding as it is read back: the body has taken up the parsed
/// members.
pub open spec fn settled_protocol(b: ProtocolView) -> ProtocolView {
    ProtocolView { body: unsigned(protocol_tree(b)), ..b }
}

/// The members of the wire form of a protocol binding.
proof fn protocol_members(b: ProtocolView, m: Map<Seq<char>, Tree>)
    requires
        protocol_tree(b) == Tree::Obj(m),
    ensures
        json::member(m, "identifier"@) == Some(Tree::Str(b.identifier)),
        json::member(m, "version"@) == Some(Tree::Str(b.version)),
        json::member(m, "grammar_ref"@) == Some(Tree::Str(b.grammar_ref)),
        json::member(m, "media_types"@) == Some(Tree::Arr(json::str_trees(b.media_types))),
        json::member(m, "conformance_suite_ref"@) == (if b.conformance_suite_ref is Some {
            json::opt_str(b.conformance_suite_ref)
        } else {
            json::member(body_members(b.body), "conformance_suite_ref"@)
        }),
        json::member(m, "signature"@) == Some(signature_tree(b.signature)),
{
    broadcast use json::group_members;
    protocol_keys_distinct();
}

/// The wire form of a protocol binding is read back as that protocol binding, its
/// body settled.
pub proof fn protocol_wire_round_trip(b: ProtocolView)
    requires
        protocol_ok(b),
    ensures
        parsed_protocol(protocol_tree(b)) == Ok::<ProtocolView, Seq<char>>(settled_protocol(b)),
{
    let t = protocol_tree(b);
    let m = t->Obj_0;
    protocol_members(b, m);
    signature_wire_round_trip(b.signature);
    assert(json::get_str(t, "identifier"@) == Some(b.identifier));
    assert(json::get_str(t, "version"@) == Some(b.version));
    assert(json::get_str(t, "grammar_ref"@) == Some(b.grammar_ref));
    str_trees_read_back(b.media_types);
    assert(texts_at(t, "media_types"@) == b.media_types);
    assert(json::get_str(t, "conformance_suite_ref"@) == b.conformance_suite_ref);
}

/// What is served of a protocol binding stays the same when it is read back.
pub proof fn settled_protocol_serves_alike(b: ProtocolView)
    ensures
        protocol_tree(settled_protocol(b)) == protocol_tree(b),
{
    protocol_keys_distinct();
    let m = protocol_tree(b)->Obj_0;
    let n = protocol_tree(settled_protocol(b))->Obj_0;
    assert(n =~= m);
}

/// The members of a verification mechanism have different names.
proof fn mechanism_keys_distinct()
    ensures
        "identifier"@ != "suite"@,
        "identifier"@ != "agility_status"@,
        "identifier"@ != "trust_framework"@,
        "identifier"@ != "trust_list_endpoint"@,
        "identifier"@ != "master_list_ref"@,
        "identifier"@ != "verdict_grammar_ref"@,
        "identifier"@ != "signature"@,
        "suite"@ != "agility_status"@,
        "suite"@ != "trust_framework"@,
        "suite"@ != "trust_list_endpoint"@,
        "suite"@ != "master_list_ref"@,
        "suite"@ != "verdict_grammar_ref"@,
        "suite"@ != "signature"@,
        "agility_status"@ != "trust_framework"@,
        "agility_status"@ != "trust_list_endpoint"@,
        "agility_status"@ != "master_list_ref"@,
        "agility_status"@ != "verdict_grammar_ref"@,
        "agility_status"@ != "signature"@,
        "trust_framework"@ != "trust_list_endpoint"@,
        "trust_framework"@ != "master_list_ref"@,
        "trust_framework"@ != "verdict_grammar_ref"@,
        "trust_framework"@ != "signature"@,
        "trust_list_endpoint"@ != "master_list_ref"@,
        "trust_list_endpoint"@ != "verdict_grammar_ref"@,
        "trust_list_endpoint"@ != "signature"@,
        "master_list_ref"@ != "verdict_grammar_ref"@,
        "master_list_ref"@ != "signature"@,
        "verdict_grammar_ref"@ != "signature"@,
{
    reveal_strlit("identifier");
    reveal_strlit("suite");
    reveal_strlit("agility_status");
    reveal_strlit("trust_framework");
    reveal_strlit("trust_list_endpoint");
    reveal_strlit("master_list_ref");
    reveal_strlit("verdict_grammar_ref");
    reveal_strlit("signature");
    assert("identifier"@.len() != "suite"@.len());
    assert("identifier"@.len() != "agility_status"@.len());
    assert("identifier"@.len() != "trust_framework"@.len());
    assert("identifier"@.len() != "trust_list_endpoint"@.len());
    assert("identifier"@.len() != "master_list_ref"@.len());
    assert("identifier"@.len() != "verdict_grammar_ref"@.len());
    assert("identifier"@.len() != "signature"@.len());
    assert("suite"@.len() != "agility_status"@.len());
    assert("suite"@.len() != "trust_framework"@.len());
    assert("suite"@.len() != "trust_list_endpoint"@.len());
    assert("suite"@.len() != "master_list_ref"@.len());
    assert("suite"@.len() != "verdict_grammar_ref"@.len());
    assert("suite"@.len() != "signature"@.len());
    assert("agility_status"@.len() != "trust_framework"@.len());
    assert("agility_status"@.len() != "trust_list_endpoint"@.len());
    assert("agility_status"@.len() != "master_list_ref"@.len());
    assert("agility_status"@.len() != "verdict_grammar_ref"@.len());
    assert("agility_status"@.len() != "signature"@.len());
    assert("trust_framework"@.len() != "trust_list_endpoint"@.len());
    assert("trust_framework"@[0] != "master_list_ref"@[0]);
    assert("trust_framework"@.len() != "verdict_grammar_ref"@.len());
    assert("trust_framework"@.len() != "signature"@.len());
    assert("trust_list_endpoint"@.len() != "master_list_ref"@.len());
    assert("trust_list_endpoint"@[0] != "verdict_grammar_ref"@[0]);
    assert("trust_list_endpoint"@.len() != "signature"@.len());
    assert("master_list_ref"@.len() != "verdict_grammar_ref"@.len());
    assert("master_list_ref"@.len() != "signature"@.len());
    assert("verdict_grammar_ref"@.len() != "signature"@.len());
}

/// Whether a verification mechanism can be stored: its signature is an Ed25519 one,
/// and an optional member that it lacks is no text of its body.
pub open spec fn mechanism_ok(b: MechanismView) -> bool {
    &&& b.signature.algorithm == "ed25519"@
    &&& b.signature.value.len() == 64
    &&& b.trust_framework is None ==> json::get_str(b.body, "trust_framework"@) is None
    &&& b.trust_list_endpoint is None ==> json::get_str(b.body, "trust_list_endpoint"@) is None
    &&& b.master_list_ref is None ==> json::get_str(b.body, "master_list_ref"@) is None
    &&& b.verdict_grammar_ref is None ==> json::get_str(b.body, "verdict_grammar_ref"@) is None
}

/// A verification mechanism as it is read back: the body has taken up the parsed
/// members.
pub open spec fn settled_mechanism(b: MechanismView) -> MechanismView {
    MechanismView { body: unsigned(mechanism_tree(b)), ..b }
}

/// The members of the wire form of a verification mechanism.
proof fn mechanism_members(b: MechanismView, m: Map<Seq<char>, Tree>)
    requires
        mechanism_tree(b) == Tree::Obj(m),
    ensures
        json::member(m, "identifier"@) == Some(Tree::Str(b.identifier)),
        json::member(m, "suite"@) == Some(Tree::Str(b.suite)),
        json::member(m, "agility_status"@) == Some(Tree::Str(b.agility_status)),
        json::member(m, "trust_framework"@) == (if b.trust_framework is Some {
            json::opt_str(b.trust_framework)
        } else {
            json::member(body_members(b.body), "trust_framework"@)
        }),
        json::member(m, "trust_list_endpoint"@) == (if b.trust_list_endpoint is Some {
            json::opt_str(b.trust_list_endpoint)
        } else {
            json::member(body_members(b.body), "trust_list_endpoint"@)
        }),
        json::member(m, "master_list_ref"@) == (if b.master_list_ref is Some {
            json::opt_str(b.master_list_ref)
        } else {
            json::member(body_members(b.body), "master_list_ref"@)
        }),
        json::member(m, "verdict_grammar_ref"@) == (if b.verdict_grammar_ref is Some {
            json::opt_str(b.verdict_grammar_ref)
        } else {
            json::member(body_members(b.body), "verdict_grammar_ref"@)
        }),
        json::member(m, "signature"@) == Some(signature_tree(b.signature)),
{
    broadcast use json::group_members;
    mechanism_keys_distinct();
}

/// The wire form of a verification mechanism is read back as that verification mechanism, its
/// body settled.
pub proof fn mechanism_wire_round_trip(b: MechanismView)
    requires
        mechanism_ok(b),
    ensures
        parsed_mechanism(mechanism_tree(b)) == Ok::<MechanismView, Seq<char>>(settled_mechanism(b)),
{
    let t = mechanism_tree(b);
    let m = t->Obj_0;
    mechanism_members(b, m);
    signature_wire_round_trip(b.signature);
    assert(json::get_str(t, "identifier"@) == Some(b.identifier));
    assert(json::get_str(t, "suite"@) == Some(b.suite));
    assert(json::get_str(t, "agility_status"@) == Some(b.agility_status));
    assert(json::get_str(t, "trust_framework"@) == b.trust_framework);
    assert(json::get_str(t, "trust_list_endpoint"@) == b.trust_list_endpoint);
    assert(json::get_str(t, "master_list_ref"@) == b.master_list_ref);
    assert(json::get_str(t, "verdict_grammar_ref"@) == b.verdict_grammar_ref);
}

/// What is served of a verification mechanism stays the same when it is read back.
pub proof fn settled_mechanism_serves_alike(b: MechanismView)
    ensures
        mechanism_tree(settled_mechanism(b)) == mechanism_tree(b),
{
    mechanism_keys_distinct();
    let m = mechanism_tree(b)->Obj_0;
    let n = mechanism_tree(settled_mechanism(b))->Obj_0;
    assert(n =~= m);
}

/// Each version of a chain links to the next one, none occurs twice, and
/// all are versions of the whole.
pub open spec fn service_linked(vs: Seq<ServiceVersionView>, chain: Seq<ServiceVersionView>) -> bool {
    &&& chain.len() > 0
    &&& forall|i: int| 0 <= i < chain.len() ==> vs.contains(#[trigger] chain[i])
    &&& forall|i: int, j: int|
        0 <= i && j == i + 1 && j < chain.len() ==> (#[trigger] chain[i]).superseded_by_version == Some(
            (#[trigger] chain[j]).version,
        )
    &&& forall|i: int, j: int|
        0 <= i < j < chain.len() ==> (#[trigger] chain[i]).version != (#[trigger] chain[j]).version
}

/// Following the links keeps a chain linked, and ends at a version that
/// links no further.
proof fn service_followed_is_linked(vs: Seq<ServiceVersionView>, chain: Seq<ServiceVersionView>, id: Seq<char>, fuel: nat)
    requires
        service_linked(vs, chain),
        chain.len() + fuel == vs.len() + 1,
    ensures
        service_followed(vs, chain, id, fuel) matches Ok(c) ==> {
            &&& service_linked(vs, c)
            &&& c[0] == chain[0]
            &&& c.last().superseded_by_version is None
        },
    decreases fuel,
{
    if let Some(n) = chain.last().superseded_by_version {
        if let Some(v) = find_service_version(vs, n) {
            found_service_version(vs, n);
            if !service_chain_has(chain, v.version) {
                let next = chain.push(v);
                order::index_of_found(service_version_names(vs), n);
                assert(vs.contains(v));
                assert forall|i: int, j: int| 0 <= i && j == i + 1 && j < next.len() implies (
                #[trigger] next[i]).superseded_by_version == Some((#[trigger] next[j]).version) by {
                    if j < chain.len() {
                        assert(next[i] == chain[i] && next[j] == chain[j]);
                    }
                }
                assert forall|i: int, j: int| 0 <= i < j < next.len() implies (
                #[trigger] next[i]).version != (#[trigger] next[j]).version by {
                    assert(next[i] == chain[i]);
                }
                assert(service_linked(vs, next));
                if fuel == 0 {
                    assert forall|i: int| 0 <= i < next.len() implies service_version_names(vs).contains(
                        (#[trigger] next[i]).version,
                    ) by {
                        let k = vs.index_of(next[i]);
                        assert(vs.contains(next[i]));
                        assert(service_version_names(vs)[k] == next[i].version);
                    }
                    let a = service_version_names(next);
                    assert forall|i: int, j: int| 0 <= i < a.len() && 0 <= j < a.len() && i != j implies a[i]
                        != a[j] by {
                        if i < j {
                            assert(next[i].version != next[j].version);
                        } else {
                            assert(next[j].version != next[i].version);
                        }
                    }
                    service_distinct_fit(vs, next);
                } else {
                    service_followed_is_linked(vs, next, id, (fuel - 1) as nat);
                }
            }
        }
    }
}

/// A chain runs from the version asked for, or from the earliest, along
/// the links to the version that links no further. Asked for a version
/// that is not there, it is refused.
pub proof fn service_chain_follows_the_links(service: ServiceView, from: Option<Seq<char>>)
    ensures
        service_chain_of(service, from) matches Ok(c) ==> {
            &&& service_linked(service.versions, c)
            &&& c.last().superseded_by_version is None
            &&& from matches Some(n) ==> c[0].version == n
            &&& from is None ==> forall|i: int|
                0 <= i < service.versions.len() ==> (c[0].effective_from.secs
                    < (#[trigger] service.versions[i]).effective_from.secs || (c[0].effective_from.secs
                    == service.versions[i].effective_from.secs && !text::before(
                    service.versions[i].version,
                    c[0].version,
                )))
        },
        (from matches Some(n) && forall|i: int|
            0 <= i < service.versions.len() ==> (#[trigger] service.versions[i]).version != n) ==> service_chain_of(
            service,
            from,
        ) is Err,
{
    let vs = service.versions;
    match from {
        Some(n) => {
            found_service_version(vs, n);
            order::index_of_found(service_version_names(vs), n);
            if let Some(v) = find_service_version(vs, n) {
                let k = order::index_of(service_version_names(vs), n);
                assert(vs[k] == v);
                service_followed_is_linked(vs, seq![v], service.identifier, vs.len());
            }
        },
        None => {
            if vs.len() > 0 {
                service_ordered_holds(vs);
                let v = service_ordered(vs)[0];
                assert(vs.contains(v));
                service_followed_is_linked(vs, seq![v], service.identifier, vs.len());
                assert forall|i: int| 0 <= i < vs.len() implies !order::key_before(
                    service_version_key(#[trigger] vs[i]),
                    service_version_key(v),
                ) by {
                    assert(vs.contains(vs[i]));
                    let o = service_ordered(vs);
                    assert(o.contains(vs[i]));
                    let k = o.index_of(vs[i]);
                    if k > 0 {
                        service_ordered_ascends(vs, 0, k);
                    } else {
                        text::before_irreflexive(v.version);
                    }
                }
            }
        },
    }
}

/// A chain without broken links and cycles is served: where each version of
/// a linked chain is the first of its number and the last links no further,
/// following it from its first version gives it back.
proof fn service_followed_to_the_end(vs: Seq<ServiceVersionView>, c: Seq<ServiceVersionView>, n: int, id: Seq<char>, fuel: nat)
    requires
        service_linked(vs, c),
        c.last().superseded_by_version is None,
        forall|i: int| 0 <= i < c.len() ==> find_service_version(vs, (#[trigger] c[i]).version) == Some(c[i]),
        0 < n <= c.len(),
        fuel >= c.len() - n,
    ensures
        service_followed(vs, c.take(n), id, fuel) == Ok::<Seq<ServiceVersionView>, Seq<char>>(c),
    decreases fuel,
{
    let head = c.take(n);
    assert(head.last() == c[n - 1]);
    if n == c.len() {
        assert(head =~= c);
    } else {
        assert(c[n - 1].superseded_by_version == Some(c[n].version));
        assert(!service_chain_has(head, c[n].version)) by {
            assert forall|i: int| 0 <= i < head.len() implies (#[trigger] head[i]).version
                != c[n].version by {
                assert(c[i].version != c[n].version);
            }
        }
        assert(head.push(c[n]) =~= c.take(n + 1));
        service_followed_to_the_end(vs, c, n + 1, id, (fuel - 1) as nat);
    }
}

/// A linked chain that ends is served whole from its first version on.
pub proof fn service_whole_chains_are_served(service: ServiceView, c: Seq<ServiceVersionView>)
    requires
        service_linked(service.versions, c),
        c.last().superseded_by_version is None,
        forall|i: int, j: int|
            0 <= i < service.versions.len() && 0 <= j < service.versions.len() && (
            #[trigger] service.versions[i]).version == (#[trigger] service.versions[j]).version ==> i == j,
    ensures
        service_chain_of(service, Some(c[0].version)) == Ok::<Seq<ServiceVersionView>, Seq<char>>(c),
{
    let vs = service.versions;
    assert forall|i: int| 0 <= i < c.len() implies find_service_version(vs, (#[trigger] c[i]).version) == Some(
        c[i],
    ) by {
        assert(vs.contains(c[i]));
        let k = vs.index_of(c[i]);
        first_service_version_of_a_number(vs, k);
    }
    assert(c.take(1) =~= seq![c[0]]);
    assert forall|i: int| 0 <= i < c.len() implies service_version_names(vs).contains((#[trigger] c[i]).version) by {
        assert(vs.contains(c[i]));
        assert(service_version_names(vs)[vs.index_of(c[i])] == c[i].version);
    }
    let a = service_version_names(c);
    assert forall|i: int, j: int| 0 <= i < a.len() && 0 <= j < a.len() && i != j implies a[i] != a[j] by {
        if i < j {
            assert(c[i].version != c[j].version);
        } else {
            assert(c[j].version != c[i].version);
        }
    }
    service_distinct_fit(vs, c);
    service_followed_to_the_end(vs, c, 1, service.identifier, vs.len());
}

/// The last version with a property is not before any other with it.
proof fn service_last_where_is_last(
    s: Seq<ServiceVersionView>,
    p: spec_fn(ServiceVersionView) -> bool,
    i: int,
)
    requires
        0 <= i < s.len(),
        p(s[i]),
    ensures
        service_last_where(s, p) is Some,
        exists|k: int| i <= k < s.len() && service_last_where(s, p) == Some(#[trigger] s[k]),
    decreases s.len(),
{
    let n = s.len() - 1;
    if p(s.last()) {
        assert(s[n] == s.last());
        assert(i <= n < s.len() && service_last_where(s, p) == Some(s[n]));
    } else {
        let t = s.drop_last();
        assert(t[i] == s[i]);
        service_last_where_is_last(t, p, i);
        let k = choose|k: int| i <= k < t.len() && service_last_where(t, p) == Some(#[trigger] t[k]);
        assert(i <= k < s.len() && service_last_where(s, p) == Some(s[k]));
    }
}

/// Of two versions with a property, the later one is picked from the
/// ordered versions.
proof fn service_latest_is_picked(
    vs: Seq<ServiceVersionView>,
    p: spec_fn(ServiceVersionView) -> bool,
    i: int,
)
    requires
        0 <= i < vs.len(),
        p(vs[i]),
    ensures
        service_last_where(service_ordered(vs), p) matches Some(v) && vs.contains(v) && p(v)
            && !order::key_before(service_version_key(v), service_version_key(vs[i])),
{
    service_ordered_holds(vs);
    let o = service_ordered(vs);
    assert(vs.contains(vs[i]));
    let at = o.index_of(vs[i]);
    assert(o.contains(vs[i]));
    service_last_where_is_last(o, p, at);
    service_last_where_found(o, p);
    let k = choose|k: int| at <= k < o.len() && service_last_where(o, p) == Some(#[trigger] o[k]);
    if at < k {
        service_ordered_ascends(vs, at, k);
    } else {
        text::before_irreflexive(vs[i].version);
    }
}

/// The number a link names is looked up from the front.
pub proof fn first_service_version_of_a_number(vs: Seq<ServiceVersionView>, k: int)
    requires
        0 <= k < vs.len(),
        forall|j: int| 0 <= j < k ==> (#[trigger] vs[j]).version != vs[k].version,
    ensures
        find_service_version(vs, vs[k].version) == Some(vs[k]),
{
    order::index_of_is(service_version_names(vs), vs[k].version, k);
}

/// A number that no version bears finds nothing.
pub proof fn unknown_service_number_finds_nothing(vs: Seq<ServiceVersionView>, n: Seq<char>)
    requires
        forall|j: int| 0 <= j < vs.len() ==> (#[trigger] vs[j]).version != n,
    ensures
        find_service_version(vs, n) is None,
{
    order::index_of_is(service_version_names(vs), n, vs.len() as int);
}

/// The service version served in force has begun and has not reached its
/// own end, whatever it links to.
pub proof fn served_service_version_keeps_its_dates(vs: Seq<ServiceVersionView>, t: Timestamp)
    ensures
        service_in_force(vs, t) matches Some(v) ==> {
            &&& vs.contains(v)
            &&& v.effective_from.secs <= t.secs
            &&& v.effective_until matches Some(u) ==> t.secs < u.secs
        },
{
    service_in_force_rule(vs, t);
}

/// An explicit end wins over the link; without one, the version that is
/// linked to ends the window when it begins; without either it is open.
pub proof fn service_windows_end(
    vs: Seq<ServiceVersionView>,
    v: ServiceVersionView,
    k: int,
    t: Timestamp,
)
    requires
        v.effective_until is None && v.superseded_by_version is Some ==> {
            &&& 0 <= k < vs.len()
            &&& v.superseded_by_version == Some(vs[k].version)
            &&& forall|j: int| 0 <= j < k ==> (#[trigger] vs[j]).version != vs[k].version
        },
    ensures
        service_window_end(vs, v) == (match (v.effective_until, v.superseded_by_version) {
            (Some(u), _) => Some(u),
            (None, Some(_)) => Some(vs[k].effective_from),
            (None, None) => None,
        }),
        (v.effective_until matches Some(u) && u.secs <= t.secs) ==> service_in_force(vs, t) != Some(v),
        v.effective_until is None && v.superseded_by_version is Some && vs[k].effective_from.secs
            <= t.secs ==> service_in_force(vs, t) != Some(v),
{
    if v.effective_until is None && v.superseded_by_version is Some {
        first_service_version_of_a_number(vs, k);
    }
    service_in_force_rule(vs, t);
}

/// The latest service version that has begun and not ended is served.
pub proof fn latest_open_service_version_is_served(
    vs: Seq<ServiceVersionView>,
    i: int,
    k: int,
    t: Timestamp,
)
    requires
        0 <= i < vs.len(),
        vs[i].effective_from.secs <= t.secs,
        match (vs[i].effective_until, vs[i].superseded_by_version) {
            (Some(u), _) => t.secs < u.secs,
            (None, None) => true,
            (None, Some(n)) => {
                ||| forall|j: int| 0 <= j < vs.len() ==> (#[trigger] vs[j]).version != n
                ||| {
                    &&& 0 <= k < vs.len()
                    &&& vs[k].version == n
                    &&& forall|j: int| 0 <= j < k ==> (#[trigger] vs[j]).version != n
                    &&& t.secs < vs[k].effective_from.secs
                }
            },
        },
    ensures
        service_in_force(vs, t) matches Some(v) && (vs[i].effective_from.secs < v.effective_from.secs || (
        vs[i].effective_from.secs == v.effective_from.secs && !text::before(v.version, vs[i].version))),
{
    if let (None, Some(n)) = (vs[i].effective_until, vs[i].superseded_by_version) {
        if forall|j: int| 0 <= j < vs.len() ==> (#[trigger] vs[j]).version != n {
            unknown_service_number_finds_nothing(vs, n);
        } else {
            first_service_version_of_a_number(vs, k);
        }
    }
    assert(service_version_in_force(vs, vs[i], t));
    service_latest_is_picked(vs, |v: ServiceVersionView| service_version_in_force(vs, v, t), i);
}

/// The current version of a service is the latest active one; with none
/// active, the latest suspended or succeeded one; a superseded version
/// never is.
pub proof fn current_service_version_is_the_latest(vs: Seq<ServiceVersionView>, i: int)
    requires
        0 <= i < vs.len(),
    ensures
        service_current(vs) matches Some(c) ==> vs.contains(c) && c.status != ServiceStatus::Superseded,
        vs[i].status == ServiceStatus::Active ==> (service_current(vs) matches Some(c) && c.status
            == ServiceStatus::Active && (vs[i].effective_from.secs < c.effective_from.secs || (
        vs[i].effective_from.secs == c.effective_from.secs && !text::before(c.version, vs[i].version)))),
        vs[i].status != ServiceStatus::Active && vs[i].status != ServiceStatus::Superseded && (forall|j: int|
            0 <= j < vs.len() ==> (#[trigger] vs[j]).status != ServiceStatus::Active) ==> (service_current(
            vs,
        ) matches Some(c) && (vs[i].effective_from.secs < c.effective_from.secs || (
        vs[i].effective_from.secs == c.effective_from.secs && !text::before(c.version, vs[i].version)))),
{
    let o = service_ordered(vs);
    let active = |v: ServiceVersionView| v.status == ServiceStatus::Active;
    let live = |v: ServiceVersionView| v.status != ServiceStatus::Superseded;
    service_ordered_holds(vs);
    service_last_where_found(o, active);
    service_last_where_found(o, live);
    if let Some(v) = service_last_where(o, active) {
        assert(vs.contains(o[o.index_of(v)]));
        assert(vs[vs.index_of(v)] == v);
    }
    if let Some(v) = service_last_where(o, live) {
        assert(vs.contains(o[o.index_of(v)]));
    }
    if vs[i].status == ServiceStatus::Active {
        service_latest_is_picked(vs, active, i);
    } else if vs[i].status != ServiceStatus::Superseded {
        service_latest_is_picked(vs, live, i);
    }
}

/// Endpoints are read one by one: as many come out as there are, and each
/// has the address that it is given, which is not empty.
pub proof fn endpoints_are_read_one_by_one(ts: Seq<Tree>, n: int)
    requires
        0 <= n <= ts.len(),
    ensures
        parsed_endpoints(ts, n) matches Ok(es) ==> es.len() == n && forall|i: int|
            0 <= i < n ==> (ts[i] matches Tree::Obj(m) && m.dom().contains("uri"@) && m["uri"@]
                == Tree::Str((#[trigger] es[i]).uri) && es[i].uri.len() > 0),
    decreases n,
{
    if n > 0 {
        endpoints_are_read_one_by_one(ts, n - 1);
        if let Ok(es) = parsed_endpoints(ts, n) {
            let got = parsed_endpoints(ts, n - 1)->Ok_0;
            assert forall|i: int| 0 <= i < n implies (ts[i] matches Tree::Obj(m) && m.dom().contains(
                "uri"@,
            ) && m["uri"@] == Tree::Str((#[trigger] es[i]).uri) && es[i].uri.len() > 0) by {
                if i < n - 1 {
                    assert(es[i] == got[i]);
                }
            }
        }
    }
}

/// Service classes and statuses go by these names, and a text names one
/// exactly when, trimmed, it is its name.
pub proof fn services_go_by_their_names(s: Seq<char>)
    ensures
        ({
            let t = text::trimmed(s);
            match parsed_service_class(s) {
                Some(ServiceClass::Issuer) => t == "issuer"@,
                Some(ServiceClass::Registry) => t == "registry"@,
                Some(ServiceClass::Resolver) => t == "resolver"@,
                Some(ServiceClass::Trust) => t == "trust"@,
                Some(ServiceClass::Log) => t == "log"@,
                Some(ServiceClass::Archive) => t == "archive"@,
                Some(ServiceClass::Gateway) => t == "gateway"@,
                Some(ServiceClass::MarketplaceGate) => t == "marketplace-gate"@,
                Some(ServiceClass::Edge) => t == "edge"@,
                None => t != "issuer"@ && t != "registry"@ && t != "resolver"@ && t != "trust"@ && t
                    != "log"@ && t != "archive"@ && t != "gateway"@ && t != "marketplace-gate"@ && t
                    != "edge"@,
            }
        }),
        ({
            let t = text::trimmed(s);
            match parsed_service_status(s) {
                Some(ServiceStatus::Active) => t == "active"@,
                Some(ServiceStatus::Superseded) => t == "superseded"@,
                Some(ServiceStatus::Suspended) => t == "suspended"@,
                Some(ServiceStatus::Succeeded) => t == "succeeded"@,
                None => t != "active"@ && t != "superseded"@ && t != "suspended"@ && t != "succeeded"@,
            }
        }),
        service_status_name(ServiceStatus::Active) == "active"@,
        service_status_name(ServiceStatus::Superseded) == "superseded"@,
        service_status_name(ServiceStatus::Suspended) == "suspended"@,
        service_status_name(ServiceStatus::Succeeded) == "succeeded"@,
{
}

/// The members of a service version's wire form bear its fields, each under
/// its name.
pub proof fn service_versions_are_shown_by_name(v: ServiceVersionView, end: Option<Timestamp>)
    ensures
        service_version_tree(v, end) matches Tree::Obj(m) && {
            let says = |key: Seq<char>, s: Option<Seq<char>>|
                match s {
                    Some(x) => m.dom().contains(key) && m[key] == Tree::Str(x),
                    None => !m.dom().contains(key),
                };
            &&& says("version"@, Some(v.version))
            &&& says("status"@, Some(service_status_name(v.status)))
            &&& says("effective_from"@, Some(time::stamp_text(v.effective_from.secs as int)))
            &&& says(
                "effective_until"@,
                match v.effective_until {
                    Some(x) => Some(time::stamp_text(x.secs as int)),
                    None => None,
                },
            )
            &&& says("registered_at"@, Some(time::stamp_text(v.registered_at.secs as int)))
            &&& says("superseded_by_version"@, v.superseded_by_version)
            &&& m.dom().contains("body"@) && m["body"@] == v.body
            &&& m.dom().contains("signature"@) && (m["signature"@] matches Tree::Obj(g)
                && g.dom().contains("key_id"@) && g["key_id"@] == Tree::Str(v.signature.key_id)
                && g.dom().contains("value"@) && g["value"@] == Tree::Str(
                crypto::hex_text(v.signature.value),
            ))
        },
{
    let m = service_version_tree(v, end)->Obj_0;
    service_version_members(v, end, m);
    signature_keys_distinct();
}

/// A signature holds only where the keyring has the operator's key, the
/// signature has its length, and it verifies for the payload under that
/// key.
pub proof fn signatures_hold_only_under_the_known_key(
    keys: Map<Seq<char>, Seq<u8>>,
    id: Seq<char>,
    payload: Seq<u8>,
    signature: Seq<u8>,
)
    ensures
        verification(keys, id, payload, signature) is Ok <==> keys.dom().contains(id)
            && crypto::ed25519_key_fault(keys[id]) is None && signature.len() == 64
            && crypto::ed25519_holds(keys[id], payload, signature),
        !keys.dom().contains(id) ==> verification(keys, id, payload, signature) == Err::<
            (),
            DiscoveryErrorView,
        >(DiscoveryErrorView::UnknownOperator(id)),
{
}

/// What a signature covers is the body without its own signature: adding,
/// changing or dropping that member changes nothing.
pub proof fn the_signature_is_not_signed(m: Map<Seq<char>, Tree>, x: Tree)
    ensures
        payload_of(Tree::Obj(m.insert("signature"@, x))) == payload_of(Tree::Obj(m)),
        unsigned(Tree::Obj(m)) matches Tree::Obj(u) && !u.dom().contains("signature"@) && forall|
            k: Seq<char>,
        |
            k != "signature"@ ==> (#[trigger] u.dom().contains(k) <==> m.dom().contains(k)) && (
            m.dom().contains(k) ==> u[k] == m[k]),
{
    assert(m.insert("signature"@, x).remove("signature"@) =~= m.remove("signature"@));
}

/// The development operators are derived from their labels: the seed is the
/// SHA-256 digest of a fixed prefix and the label, the key is the Ed25519
/// key of the seed, and its ids are digests of the key.
pub proof fn operators_are_derived_from_their_labels(label: Seq<char>)
    ensures
        public_of(label) == crypto::ed25519_public(
            crypto::sha256_of(
                vstd::utf8::encode_utf8("UNIDPP-DISCOVERY/OPERATOR-SEED"@) + vstd::utf8::encode_utf8(
                    label,
                ),
            ),
        ),
        operator_id_of(public_of(label)) == "op-"@ + crypto::hex_text(
            crypto::sha256_of(vstd::utf8::encode_utf8("op"@) + public_of(label)).take(8),
        ),
        key_id_of(public_of(label)) == "k-"@ + crypto::hex_text(
            crypto::sha256_of(vstd::utf8::encode_utf8("key"@) + public_of(label)).take(8),
        ),
{
}

/// The wire form of a protocol binding bears what was registered, each under
/// its name.
pub proof fn protocols_are_shown_by_name(b: ProtocolView)
    ensures
        protocol_tree(b) matches Tree::Obj(m) && {
            &&& m.dom().contains("identifier"@) && m["identifier"@] == Tree::Str(b.identifier)
            &&& m.dom().contains("version"@) && m["version"@] == Tree::Str(b.version)
            &&& m.dom().contains("grammar_ref"@) && m["grammar_ref"@] == Tree::Str(b.grammar_ref)
            &&& m.dom().contains("media_types"@) && (m["media_types"@] matches Tree::Arr(a) && a.len()
                == b.media_types.len())
            &&& b.conformance_suite_ref matches Some(x) ==> m.dom().contains("conformance_suite_ref"@)
                && m["conformance_suite_ref"@] == Tree::Str(x)
        },
{
    let m = protocol_tree(b)->Obj_0;
    protocol_members(b, m);
}

/// The wire form of a verification mechanism bears what was registered, each
/// under its name.
pub proof fn mechanisms_are_shown_by_name(b: MechanismView)
    ensures
        mechanism_tree(b) matches Tree::Obj(m) && {
            &&& m.dom().contains("identifier"@) && m["identifier"@] == Tree::Str(b.identifier)
            &&& m.dom().contains("suite"@) && m["suite"@] == Tree::Str(b.suite)
            &&& m.dom().contains("agility_status"@) && m["agility_status"@] == Tree::Str(
                b.agility_status,
            )
            &&& b.trust_framework matches Some(x) ==> m.dom().contains("trust_framework"@)
                && m["trust_framework"@] == Tree::Str(x)
            &&& b.trust_list_endpoint matches Some(x) ==> m.dom().contains("trust_list_endpoint"@)
                && m["trust_list_endpoint"@] == Tree::Str(x)
            &&& b.master_list_ref matches Some(x) ==> m.dom().contains("master_list_ref"@)
                && m["master_list_ref"@] == Tree::Str(x)
            &&& b.verdict_grammar_ref matches Some(x) ==> m.dom().contains("verdict_grammar_ref"@)
                && m["verdict_grammar_ref"@] == Tree::Str(x)
        },
{
    let m = mechanism_tree(b)->Obj_0;
    mechanism_members(b, m);
}

/// Endpoints that each give an address, and a binding only as a text, are
/// read.
pub proof fn due_endpoints_are_read(ts: Seq<Tree>, n: int)
    requires
        0 <= n <= ts.len(),
        forall|i: int|
            0 <= i < n ==> (#[trigger] ts[i] matches Tree::Obj(m) && m.dom().contains("uri"@) && (
            m["uri"@] matches Tree::Str(u) && u.len() > 0) && (m.dom().contains(
                "protocol_binding_ref"@,
            ) ==> m["protocol_binding_ref"@] is Str || m["protocol_binding_ref"@] is Null)),
    ensures
        parsed_endpoints(ts, n) matches Ok(es) && es.len() == n,
    decreases n,
{
    if n > 0 {
        due_endpoints_are_read(ts, n - 1);
        assert(ts[n - 1] is Obj);
        assert(parsed_endpoint(ts[n - 1]) is Ok);
    }
}

} // verus!
