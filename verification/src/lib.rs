//! A registry of versioned items in the manner of ISO 19135, with a
//! discovery registry beside it.
//!
//! - Items (data elements, profiles, crypto suites, transforms, trust
//!   anchors, units, models, cross-register mappings) have versions with a
//!   lifecycle status; superseding a version links it to its successor and
//!   derives the end of its window.
//! - Readings are point-in-time: of the version in force at an instant, or
//!   of the current one.
//! - Applicability bindings date the profiles that apply to a product type;
//!   a retroactive binding backdates.
//! - Services, protocol bindings and verification mechanisms are signed by
//!   their operators, and enter only when the signature holds.
//! - Every mutation is a record of an append-only audit log, and the log
//!   rebuilds the state.
//!
//! The modules from [`text`] to [`discovery`] are the vocabulary: texts,
//! instants, JSON documents, the item model, its dictionary form, schemas
//! and manifests. [`store`] is the state and its log. The `*_api` modules,
//! [`seed`] and [`catalog`] answer requests: each handler takes the parsed
//! request and the current instant, and returns the answer. [`conformance`],
//! [`guarantees`], [`promises`] and [`answers`] state what holds across
//! them.
//!
//! What the outside crates compute is trusted in two places: [`bridge`]
//! (`serde_json`) and [`crypto`] (`sha2`, `ed25519_dalek`).

pub mod text;
pub mod time;
pub mod bridge;
pub mod json;
pub mod fields;
pub mod order;
pub mod table;
pub mod crypto;
pub mod clock;
pub mod model;
pub mod cddal;
pub mod schema;
pub mod satisfiability;
pub mod manifest;
pub mod express;
pub mod discovery;
pub mod journal;
pub mod store;
pub mod mapping;
pub mod intake;
pub mod request;
pub mod items_api;
pub mod applicability_api;
pub mod discovery_api;
pub mod models_api;
pub mod seed;
pub mod catalog;
pub mod conformance;
pub mod guarantees;
pub mod promises;
pub mod answers;

pub use crate::discovery::{
    key_id, operator_id, operator_public_key, operator_record, sign_body, DiscoveryError, Endpoint,
    OperatorKeyring, OperatorRef, ProtocolBinding, ServiceClass, ServiceDescriptor, ServiceStatus,
    ServiceVersion, SignatureValue, VerificationMechanism,
};
pub use crate::express::content_hash;
pub use crate::model::{ApplicabilityBinding, Item, ItemClass, ItemVersion, Status};
pub use crate::store::{AuditRecord, Op, Store, StoreError};
pub use crate::time::Timestamp;
