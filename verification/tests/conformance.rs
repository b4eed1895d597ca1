use rlmesh::env::conformance::{
    inject_conformance_warnings, parse_validation_policy, ConformanceWarning, PolicyOutcome, ValidationPolicy,
    WarnedPaths,
};
use rlmesh::env::wire::WireErrorCode;
use rlmesh::spaces::{MetaMap, MetaValue};

fn warn(path: &str, detail: &str) -> PolicyOutcome {
    PolicyOutcome::Warn { path: path.to_string(), detail: detail.to_string() }
}

#[test]
fn validation_policy_setting_is_trimmed_and_case_folded() {
    assert_eq!(parse_validation_policy(None), ValidationPolicy::Warn);
    assert_eq!(parse_validation_policy(Some("strict")), ValidationPolicy::Strict);
    assert_eq!(parse_validation_policy(Some("  STRICT\n")), ValidationPolicy::Strict);
    assert_eq!(parse_validation_policy(Some("Off")), ValidationPolicy::Off);
    assert_eq!(parse_validation_policy(Some("warn")), ValidationPolicy::Warn);
    assert_eq!(parse_validation_policy(Some("strictly")), ValidationPolicy::Warn);
    assert_eq!(parse_validation_policy(Some("")), ValidationPolicy::Warn);
}

#[test]
fn rejections_fail_by_kind_and_warnings_are_reported_once() {
    let mut warned = WarnedPaths::new();
    let mut warnings = Vec::new();
    assert!(warned.enforce(PolicyOutcome::Accept, "observation", &mut warnings).is_ok());
    let action = warned.enforce(PolicyOutcome::Reject("bad shape".to_string()), "action", &mut warnings).unwrap_err();
    assert_eq!(action.code, WireErrorCode::InvalidAction);
    assert_eq!(action.message, "bad shape");
    let observation =
        warned.enforce(PolicyOutcome::Reject("bad dtype".to_string()), "observation", &mut warnings).unwrap_err();
    assert_eq!(observation.code, WireErrorCode::Internal);
    assert!(warnings.is_empty());

    assert!(warned.enforce(warn("[0]", "5 > 1"), "observation", &mut warnings).is_ok());
    assert!(warned.enforce(warn("[0]", "7 > 1"), "observation", &mut warnings).is_ok());
    assert!(warned.enforce(warn("[0]", "5 > 1"), "action", &mut warnings).is_ok());
    assert_eq!(
        warnings,
        vec![
            ConformanceWarning { kind: "observation".to_string(), path: "[0]".to_string(), detail: "5 > 1".to_string() },
            ConformanceWarning { kind: "action".to_string(), path: "[0]".to_string(), detail: "5 > 1".to_string() },
        ]
    );
}

#[test]
fn enforce_all_stops_at_the_first_rejection() {
    let mut warned = WarnedPaths::new();
    let mut warnings = Vec::new();
    let outcomes = vec![warn("a", "x"), PolicyOutcome::Reject("no".to_string()), warn("b", "y")];
    let error = warned.enforce_all(outcomes, "observation", &mut warnings).unwrap_err();
    assert_eq!(error.message, "no");
    assert_eq!(warnings.len(), 1);
    assert_eq!(warnings[0].path, "a");
    assert!(warned.enforce_all(vec![warn("a", "x"), warn("b", "y")], "observation", &mut warnings).is_ok());
    assert_eq!(warnings.len(), 2);
    assert_eq!(warnings[1].path, "b");
}

#[test]
fn conformance_warnings_land_under_the_given_key() {
    let mut info: Option<MetaMap> = None;
    inject_conformance_warnings("rlmesh.conformance.warning", &mut info, Vec::new());
    assert!(info.is_none());
    let warnings = vec![ConformanceWarning {
        kind: "observation".to_string(),
        path: "[1]".to_string(),
        detail: "5 outside [0, 1]".to_string(),
    }];
    inject_conformance_warnings("rlmesh.conformance.warning", &mut info, warnings);
    let map = info.expect("an info map is created");
    let mut report = MetaMap::new();
    report.insert("kind".to_string(), MetaValue::String("observation".to_string()));
    report.insert("path".to_string(), MetaValue::String("[1]".to_string()));
    report.insert("detail".to_string(), MetaValue::String("5 outside [0, 1]".to_string()));
    assert_eq!(map.get("rlmesh.conformance.warning"), Some(&MetaValue::List(vec![MetaValue::Dict(report)])));

    let mut existing = MetaMap::new();
    existing.insert("steps".to_string(), MetaValue::Int(3));
    let mut info = Some(existing);
    inject_conformance_warnings(
        "rlmesh.conformance.warning",
        &mut info,
        vec![ConformanceWarning { kind: "action".to_string(), path: "".to_string(), detail: "d".to_string() }],
    );
    let map = info.unwrap();
    assert_eq!(map.get("steps"), Some(&MetaValue::Int(3)));
    assert!(map.get("rlmesh.conformance.warning").is_some());
    assert_eq!(map.entries[0].0, "rlmesh.conformance.warning");
}

#[test]
fn conformance_warnings_land_under_the_pinned_editions_key() {
    let mut warned = WarnedPaths::new();
    let mut warnings = Vec::new();
    warned
        .enforce(warn("[0]", "5 outside [0, 1]"), "observation", &mut warnings)
        .expect("a range deviation warns under the warn policy");
    let mut info = None;
    inject_conformance_warnings("rlmesh.conformance.warning", &mut info, warnings);
    assert!(
        info.unwrap().get("rlmesh.conformance.warning").is_some(),
        "reports land under the session edition's reserved key"
    );
}
