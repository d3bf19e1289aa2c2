use maximus_checks::json::JsonValue;
use maximus_checks::pattern_config::{
    effective_pattern_config, parse_effective_pattern_field, pattern_extends_issue,
    pattern_field_hint, pattern_issue_findings, PatternLayer,
};
use maximus_checks::project_references::ExtendsProblem;
use maximus_checks::registry::Severity;

fn text(t: &str) -> JsonValue {
    JsonValue::Text(t.to_string())
}

fn obj(members: Vec<(&str, JsonValue)>) -> JsonValue {
    JsonValue::Object(members.into_iter().map(|(k, v)| (k.to_string(), v)).collect())
}

fn layer(path: &str, config: JsonValue) -> PatternLayer {
    PatternLayer { config_path: path.to_string(), config }
}

#[test]
fn a_pattern_field_that_is_not_an_array_is_a_shape_issue() {
    let (field, issues) = parse_effective_pattern_field("include", &text("src"), "/r/tsconfig.json");
    assert!(field.values.is_empty());
    assert_eq!(field.base_dir, "/r");
    assert_eq!(issues.len(), 1);
    assert_eq!(issues[0].suffix, "shape");
    assert_eq!(issues[0].title, "\"include\" must be an array of strings");
    assert_eq!(
        issues[0].detail,
        "/r/tsconfig.json declares include, but TypeScript expects an array of string patterns."
    );
    assert_eq!(
        issues[0].hint,
        "Rewrite include as an array of string globs before relying on TypeScript input discovery."
    );
}

#[test]
fn non_string_entries_are_reported_by_index() {
    let value = JsonValue::Array(vec![text("src/**/*"), JsonValue::Bool(true), text("test")]);
    let (field, issues) = parse_effective_pattern_field("exclude", &value, "/r/app/tsconfig.json");
    assert_eq!(field.values, vec!["src/**/*".to_string(), "test".to_string()]);
    assert_eq!(field.base_dir, "/r/app");
    assert_eq!(field.config_path, "/r/app/tsconfig.json");
    assert_eq!(issues.len(), 1);
    assert_eq!(issues[0].suffix, "entry-1");
    assert_eq!(issues[0].title, "\"exclude\" contains a non-string pattern");
    assert_eq!(
        issues[0].detail,
        "/r/app/tsconfig.json declares exclude[1], but TypeScript expects string patterns."
    );
}

#[test]
fn pattern_hints_follow_the_field() {
    assert_eq!(
        pattern_field_hint("files"),
        "Rewrite files as an array of string paths before relying on explicit TypeScript inputs."
    );
    assert_eq!(pattern_field_hint("other"), "Rewrite tsconfig pattern fields as arrays of strings.");
}

#[test]
fn a_config_replaces_what_it_inherits() {
    let base = obj(vec![
        ("compilerOptions", obj(vec![("outDir", text(".\\dist"))])),
        ("include", text("src")),
        ("exclude", JsonValue::Array(vec![text("node_modules")])),
    ]);
    let child = obj(vec![
        ("compilerOptions", obj(vec![("allowJs", JsonValue::Bool(true)), ("rootDir", text("src"))])),
        ("include", JsonValue::Array(vec![text("lib")])),
    ]);
    let layers = vec![layer("/r/base/tsconfig.json", base), layer("/r/app/tsconfig.json", child)];
    let c = effective_pattern_config(&layers, None);
    assert!(c.options.allow_js);
    assert_eq!(c.options.out_dir.as_deref(), Some("/r/base/dist"));
    assert_eq!(c.options.root_dir.as_deref(), Some("/r/app/src"));
    let inc = c.inclusions.as_ref().unwrap();
    assert_eq!(inc.values, vec!["lib".to_string()]);
    assert_eq!(inc.base_dir, "/r/app");
    let exc = c.exclusions.as_ref().unwrap();
    assert_eq!(exc.values, vec!["node_modules".to_string()]);
    assert_eq!(exc.base_dir, "/r/base");
    assert!(c.files.is_none());
    assert!(c.issues.is_empty());
}

#[test]
fn an_extends_problem_starts_the_issue_list() {
    let issue = pattern_extends_issue(
        &ExtendsProblem::Missing,
        "/r/app/tsconfig.json",
        "../missing.json",
        "",
    );
    assert_eq!(issue.field_name, "extends");
    assert_eq!(issue.suffix, "missing");
    assert_eq!(
        issue.detail,
        "/r/app/tsconfig.json extends ../missing.json, but that config file could not be resolved."
    );
    let layers = vec![layer("/r/app/tsconfig.json", obj(vec![("files", text("a.ts"))]))];
    let c = effective_pattern_config(&layers, Some(issue));
    assert_eq!(c.issues.len(), 2);
    assert_eq!(c.issues[0].suffix, "missing");
    assert_eq!(c.issues[1].field_name, "files");
    assert_eq!(c.issues[1].suffix, "shape");
    let findings = pattern_issue_findings("/r/app/tsconfig.json", &c.issues);
    assert_eq!(
        findings[0].id,
        "tsconfig-patterns-shape:/r/app/tsconfig.json:extends:missing:/r/app/tsconfig.json"
    );
    assert_eq!(findings[1].file.as_deref(), Some("/r/app/tsconfig.json"));
    assert!(findings[1].severity == Severity::Error);
}

#[test]
fn redeclaring_a_field_drops_the_inherited_issues_about_it() {
    let base = obj(vec![("include", text("src"))]);
    let child = obj(vec![("include", JsonValue::Array(vec![text("src")]))]);
    let layers = vec![layer("/r/tsconfig.base.json", base), layer("/r/tsconfig.json", child)];
    let c = effective_pattern_config(&layers, None);
    assert!(c.issues.is_empty());
    assert_eq!(c.inclusions.unwrap().config_path, "/r/tsconfig.json");
}

#[test]
fn a_cycle_is_reported_against_the_parent() {
    let issue = pattern_extends_issue(&ExtendsProblem::Cycle, "/r/a.json", "./b.json", "/r/b.json");
    assert_eq!(issue.config_path, "/r/b.json");
    assert_eq!(issue.detail, "/r/b.json creates a cycle in the extends chain for pattern resolution.");
}
