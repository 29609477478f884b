use unidpp_registry::manifest::{DataPoint, ProfileManifest};
use unidpp_registry::satisfiability::{capability_rank, check, satisfies, CAPABILITY_CLASSES};

fn manifest(subject: Option<&str>, dps: Vec<DataPoint>) -> ProfileManifest {
    ProfileManifest {
        version: "1.0.0".into(),
        subject_capability: subject.map(str::to_string),
        axes: vec![],
        legal_basis: vec![],
        transforms: vec![],
        triggers: vec![],
        data_points: dps,
    }
}

fn dp(element: &str, min_capability: &str) -> DataPoint {
    DataPoint {
        element: element.into(),
        min_capability: min_capability.into(),
        fresh_within: None,
    }
}

#[test]
fn ladder_orders_and_satisfies() {
    assert!(satisfies("S0", "S3"));
    assert!(satisfies("S2", "S2"));
    assert!(!satisfies("S3", "S0"));
    assert!(!satisfies("S1", "S0"));
    assert_eq!(capability_rank("S3"), Some(3));
    assert_eq!(capability_rank("X"), None);
    assert_eq!(CAPABILITY_CLASSES.len(), 4);
}

#[test]
fn s3_demand_on_s0_is_rejected_with_the_field_path() {
    let m = manifest(Some("S0"), vec![dp("de/m/x", "S3")]);
    let v = check(&m).unwrap_err();
    assert_eq!(v.len(), 1);
    assert_eq!(v[0].path, "data_points[0].min_capability");
    assert!(v[0].message.contains("S3"));
    assert!(v[0].message.contains("S0"));
}

#[test]
fn s3_demand_on_s3_passes() {
    let m = manifest(Some("S3"), vec![dp("de/m/x", "S3")]);
    assert!(check(&m).is_ok());
    // and every weaker demand too
    let m = manifest(Some("S2"), vec![dp("de/m/x", "S0"), dp("de/m/y", "S2")]);
    assert!(check(&m).is_ok());
}

#[test]
fn bounded_freshness_is_unsatisfiable_below_s2() {
    let mut d = dp("de/m/co2", "S0");
    d.fresh_within = Some("P1D".into());
    let v = check(&manifest(Some("S0"), vec![d])).unwrap_err();
    assert_eq!(v[0].path, "data_points[0].fresh_within");
    assert!(v[0].message.contains("P1D"));
    // S1 also cannot serve bounded freshness
    let mut d = dp("de/m/co2", "S0");
    d.fresh_within = Some("PT12H".into());
    assert!(check(&manifest(Some("S1"), vec![d])).is_err());
    // S2 can (logged-contact dumps on read)
    let mut d = dp("de/m/co2", "S2");
    d.fresh_within = Some("P1D".into());
    assert!(check(&manifest(Some("S2"), vec![d])).is_ok());
}

#[test]
fn undeclared_subject_class_is_not_checkable() {
    let m = manifest(None, vec![dp("de/m/x", "S3")]);
    assert!(check(&m).is_ok());
}

#[test]
fn every_offending_data_point_is_reported() {
    let mut a = dp("de/m/a", "S2");
    a.fresh_within = Some("P1D".into());
    let m = manifest(Some("S0"), vec![dp("de/m/ok", "S0"), a, dp("de/m/c", "S3")]);
    let v = check(&m).unwrap_err();
    let paths: Vec<&str> = v.iter().map(|x| x.path.as_str()).collect();
    assert_eq!(
        paths,
        vec![
            // the S2 demand and the bounded freshness are both
            // unsatisfiable on the S0 subject
            "data_points[1].min_capability",
            "data_points[1].fresh_within",
            "data_points[2].min_capability"
        ]
    );
}
