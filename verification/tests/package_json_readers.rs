use maximus_checks::json::JsonValue;
use maximus_checks::node_matrix::node_engine_of;
use maximus_checks::npmignore_files::{
    npmignore_finding_detail, npmignore_finding_hint, npmignore_finding_id, npmignore_finding_title,
    package_files_entries,
};
use maximus_checks::tsconfig_rules::package_json_has_next_dependency;

fn obj(members: Vec<(&str, JsonValue)>) -> JsonValue {
    JsonValue::Object(members.into_iter().map(|(k, v)| (k.to_string(), v)).collect())
}

fn s(v: &str) -> JsonValue {
    JsonValue::Text(v.to_string())
}

#[test]
fn node_engines_are_read() {
    let pkg = obj(vec![("engines", obj(vec![("node", s(">=18"))]))]);
    assert_eq!(node_engine_of(&pkg), Some(">=18".to_string()));
    assert_eq!(node_engine_of(&obj(vec![("engines", s(">=18"))])), None);
    assert_eq!(node_engine_of(&obj(vec![("engines", obj(vec![("node", JsonValue::Null)]))])), None);
    assert_eq!(node_engine_of(&obj(vec![])), None);
}

#[test]
fn package_files_are_read() {
    let pkg = obj(vec![("files", JsonValue::Array(vec![s("dist"), JsonValue::Null, s("README.md")]))]);
    assert_eq!(package_files_entries(&pkg), Some(vec!["dist".to_string(), "README.md".to_string()]));
    assert_eq!(package_files_entries(&obj(vec![("files", s("dist"))])), None);
    assert_eq!(package_files_entries(&obj(vec![])), None);
}

#[test]
fn next_dependencies_are_found_in_any_map() {
    let dev = obj(vec![("devDependencies", obj(vec![("next", s("14"))]))]);
    assert!(package_json_has_next_dependency(&dev));
    let optional = obj(vec![("optionalDependencies", obj(vec![("next", s("14"))]))]);
    assert!(package_json_has_next_dependency(&optional));
    let other = obj(vec![("dependencies", obj(vec![("react", s("18"))]))]);
    assert!(!package_json_has_next_dependency(&other));
}

#[test]
fn npmignore_findings_are_worded() {
    assert_eq!(npmignore_finding_id("/p/package.json", "dist/a.js"), "npmignore-files:/p/package.json:dist/a.js");
    assert_eq!(npmignore_finding_title(), "package.json files entry is excluded by nested .npmignore");
    assert_eq!(
        npmignore_finding_detail("dist", "*.js", "dist/a\"b.js"),
        "package.json files includes \"dist\", but nested .npmignore pattern \"*.js\" excludes \"dist/a\\\"b.js\"."
    );
    assert!(npmignore_finding_hint().starts_with("Remove the nested .npmignore rule"));
}
