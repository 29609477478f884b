use unidpp_registry::catalog::{entry_document, setting_is_on};
use unidpp_registry::express::{content_hash, deposit_from_manifest, ValidationStatus, ValidatorRun};
use unidpp_registry::model::ItemClass;
use unidpp_registry::request::Refusal;
use unidpp_registry::seed::{
    admin_seed, express_deposit_due, run_seed, seed_dataset, seed_express_deposit, CORE_MODEL,
};
use unidpp_registry::store::{Store, StoreError};
use unidpp_registry::time::Timestamp;

const SOURCE: &str = "SCHEMA unidpp_core '0.1.0';\nEND_SCHEMA;\n";

fn now() -> Timestamp {
    Timestamp::parse("2026-09-03T00:00:00Z").unwrap()
}

#[test]
fn express_seed_deposits_once_with_hash_and_validation() {
    let mut store = Store::new();
    assert!(express_deposit_due(&store, true));
    seed_express_deposit(&mut store, SOURCE, &ValidatorRun::Unavailable, now()).unwrap();
    assert!(!express_deposit_due(&store, true));
    let item = store.item("unidpp-core-express").expect("seeded");
    assert_eq!(item.item_class, ItemClass::Model);
    assert_eq!(store.log_len(), 1, "one audit record, not two");
    let deposit = deposit_from_manifest(item.manifest.as_ref().unwrap()).expect("manifest");
    assert_eq!(deposit.source, SOURCE);
    assert_eq!(deposit.content_hash, content_hash(SOURCE));
    assert_ne!(deposit.validation.status, ValidationStatus::Invalid);
    // a second deposit conflicts
    let again = seed_express_deposit(&mut store, SOURCE, &ValidatorRun::Accepted, now());
    assert!(matches!(again, Err(StoreError::Conflict(_))));
    assert_eq!(store.log_len(), 1);
}

#[test]
fn express_seed_respects_the_config_flag() {
    let store = Store::new();
    assert!(!express_deposit_due(&store, false));
    assert!(store.item(CORE_MODEL).is_none());
}

#[test]
fn the_dataset_has_its_counts() {
    assert_eq!(seed_dataset(now()).len(), 26);
    let mut store = Store::new();
    let report = run_seed(&mut store, now()).unwrap();
    assert_eq!(store.log_len(), 26);
    assert_eq!(store.items_filtered(Some(ItemClass::Unit), None).len(), 10);
    assert_eq!(store.services_filtered(None, None).len(), 8);
    assert_eq!(store.protocol_bindings_all().len(), 5);
    assert_eq!(store.verification_mechanisms_all().len(), 3);
    assert!(report.as_object().is_some());
}

#[test]
fn seeding_twice_changes_nothing() {
    let mut store = Store::new();
    let mut seeded = false;
    assert_eq!(admin_seed(&mut store, true, &mut seeded, now()).unwrap().status, 200);
    assert!(seeded);
    let again = admin_seed(&mut store, true, &mut seeded, now()).unwrap();
    assert_eq!(again.body.get_str("status"), Some("already-seeded"));
    assert_eq!(store.log_len(), 26);
    // and a disabled endpoint refuses
    let mut empty = Store::new();
    let refused = admin_seed(&mut empty, false, &mut false, now());
    assert!(matches!(refused, Err(Refusal::BadRequest(_))));
    assert_eq!(empty.log_len(), 0);
}

#[test]
fn a_seed_in_conflict_commits_nothing() {
    let mut store = Store::new();
    run_seed(&mut store, now()).unwrap();
    assert!(run_seed(&mut store, now()).is_err());
    assert_eq!(store.log_len(), 26);
}

#[test]
fn settings_are_on_unless_switched_off() {
    for on in ["1", "true", "", "yes", "anything"] {
        assert!(setting_is_on(on), "{on}");
    }
    for off in ["0", "false", "no", "off", " OFF "] {
        assert!(!setting_is_on(off), "{off}");
    }
}

#[test]
fn the_entry_document_names_the_service() {
    let doc = entry_document();
    assert_eq!(doc.get_str("service"), Some("unidpp-registry"));
    assert_eq!(doc.get("endpoints").unwrap().get_str("register_item"), Some("POST /items"));
}
