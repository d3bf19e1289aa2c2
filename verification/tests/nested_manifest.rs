use maximus_checks::entrypoint_walk::{
    inspect_nested_directory_value_at_depth, inspect_package_manifest_outcome_at_depth,
    LeafFacts, MAX_NESTED_PACKAGE_DEPTH,
};
use maximus_checks::json::JsonValue;
use maximus_checks::package_entrypoints::FindingRef;
use maximus_checks::registry::Severity;

const NESTED: &str = "/p/lib/package.json";

fn text(t: &str) -> JsonValue {
    JsonValue::Text(t.to_string())
}

fn obj(members: Vec<(&str, JsonValue)>) -> JsonValue {
    JsonValue::Object(members.into_iter().map(|(k, v)| (k.to_string(), v)).collect())
}

fn path(parts: &[&str]) -> Vec<String> {
    parts.iter().map(|p| p.to_string()).collect()
}

fn summary(findings: &[FindingRef]) -> Vec<(String, String, Severity)> {
    findings.iter().map(|f| (f.id.clone(), f.title.clone(), f.severity)).collect()
}

fn missing(field: &str, target: &str, severity: Severity) -> (String, String, Severity) {
    (
        format!("package-entrypoints:{NESTED}:{field}:{target}"),
        "Package entrypoint target does not exist".to_string(),
        severity,
    )
}

#[test]
fn nothing_is_reported_past_the_depth_limit() {
    let r = inspect_nested_directory_value_at_depth(
        NESTED,
        path(&["main"]),
        &JsonValue::Bool(true),
        &Vec::new(),
        MAX_NESTED_PACKAGE_DEPTH,
    );
    assert!(!r.has_valid_target);
    assert!(r.findings.is_empty());
}

#[test]
fn a_value_of_the_wrong_kind_is_reported_within_the_limit() {
    let r = inspect_nested_directory_value_at_depth(
        NESTED,
        path(&["main"]),
        &JsonValue::Bool(true),
        &Vec::new(),
        1,
    );
    assert!(!r.has_valid_target);
    assert_eq!(
        summary(&r.findings),
        vec![(
            format!("package-entrypoints:{NESTED}:main:invalid-type:boolean"),
            "Package entrypoint target is invalid".to_string(),
            Severity::Error
        )]
    );
}

#[test]
fn failing_nested_fallbacks_keep_every_finding() {
    let value = JsonValue::Array(vec![text("./a.js"), text("./b.js")]);
    let r = inspect_nested_directory_value_at_depth(NESTED, path(&["exports"]), &value, &Vec::new(), 1);
    assert!(!r.has_valid_target);
    assert_eq!(
        summary(&r.findings),
        vec![
            missing("exports/[0]", "./a.js", Severity::Error),
            missing("exports/[1]", "./b.js", Severity::Error),
        ]
    );
}

#[test]
fn an_unreadable_manifest_reports_nothing() {
    let r = inspect_package_manifest_outcome_at_depth(NESTED, &path(&["main"]), None, true, &Vec::new(), 1);
    assert!(!r.has_valid_target);
    assert!(r.findings.is_empty());
}

#[test]
fn an_index_file_rescues_the_field_that_led_here() {
    let manifest = obj(vec![("main", text("./gone.js")), ("types", text("./gone.d.ts"))]);
    let r = inspect_package_manifest_outcome_at_depth(
        NESTED,
        &path(&["main"]),
        Some(&manifest),
        true,
        &Vec::new(),
        1,
    );
    assert!(r.has_valid_target);
    assert_eq!(summary(&r.findings), vec![missing("types", "./gone.d.ts", Severity::Warn)]);
}

#[test]
fn without_an_index_file_the_missing_target_stays() {
    let manifest = obj(vec![("main", text("./gone.js"))]);
    let r = inspect_package_manifest_outcome_at_depth(
        NESTED,
        &path(&["main"]),
        Some(&manifest),
        false,
        &Vec::new(),
        1,
    );
    assert!(!r.has_valid_target);
    assert_eq!(summary(&r.findings), vec![missing("main", "./gone.js", Severity::Error)]);
}

#[test]
fn an_existing_target_of_the_same_field_makes_the_manifest_valid() {
    let manifest = obj(vec![("module", text("./m.js"))]);
    let facts = vec![LeafFacts {
        field_path: path(&["module"]),
        facts: maximus_checks::entrypoint_paths::TargetFacts {
            wildcard: None,
            resolved_file: None,
            nested: Vec::new(),
            exists: true,
        },
    }];
    let r = inspect_package_manifest_outcome_at_depth(
        NESTED,
        &path(&["module"]),
        Some(&manifest),
        false,
        &facts,
        1,
    );
    assert!(r.has_valid_target);
    assert!(r.findings.is_empty());
}
