use maximus_checks::json::JsonValue;
use maximus_checks::paths_findings::{
    alias_target_findings, collect_path_alias_shadowing_findings, collect_paths_findings,
};
use maximus_checks::tsconfig_findings::TsFinding;

const FILE: &str = "/r/tsconfig.json";

fn text(t: &str) -> JsonValue {
    JsonValue::Text(t.to_string())
}

fn strings(v: &[&str]) -> Vec<String> {
    v.iter().map(|x| x.to_string()).collect()
}

fn ids(fs: &[TsFinding]) -> Vec<String> {
    fs.iter().map(|f| f.id.clone()).collect()
}

#[test]
fn aliases_without_targets_are_reported() {
    let out = alias_target_findings(FILE, "@app/*", &JsonValue::Array(vec![]), &Vec::new());
    assert_eq!(ids(&out), strings(&["tsconfig-paths-empty:/r/tsconfig.json:@app/*"]));
    let out = alias_target_findings(FILE, "@app/*", &text("src/*"), &Vec::new());
    assert_eq!(out[0].title, "Alias \"@app/*\" does not declare any targets");
}

#[test]
fn target_shapes_are_reported_in_order() {
    let targets = JsonValue::Array(vec![text("src"), JsonValue::Bool(true), text("lib/*")]);
    let existing = strings(&["lib/*"]);
    let out = alias_target_findings(FILE, "@app/*", &targets, &existing);
    assert_eq!(
        ids(&out),
        strings(&[
            "tsconfig-paths-wildcard:/r/tsconfig.json:@app/*:src",
            "tsconfig-paths-type:/r/tsconfig.json:@app/*",
        ])
    );
    assert_eq!(out[0].detail, "@app/* maps to src, but only one side uses \"*\".");
}

#[test]
fn targets_are_missing_only_when_none_exists() {
    let targets = JsonValue::Array(vec![text("src/*"), text("lib/*")]);
    let out = alias_target_findings(FILE, "@app/*", &targets, &Vec::new());
    assert_eq!(
        ids(&out),
        strings(&[
            "tsconfig-paths-missing:/r/tsconfig.json:@app/*:src/*",
            "tsconfig-paths-missing:/r/tsconfig.json:@app/*:lib/*",
        ])
    );
    let out = alias_target_findings(FILE, "@app/*", &targets, &strings(&["lib/*"]));
    assert!(out.is_empty());
}

#[test]
fn every_alias_of_paths_is_checked() {
    let paths = vec![
        ("@a/*".to_string(), JsonValue::Array(vec![text("a/*")])),
        ("@b".to_string(), JsonValue::Array(vec![])),
    ];
    let out = collect_paths_findings(FILE, &paths, &Vec::new());
    assert_eq!(
        ids(&out),
        strings(&[
            "tsconfig-paths-missing:/r/tsconfig.json:@a/*:a/*",
            "tsconfig-paths-empty:/r/tsconfig.json:@b",
        ])
    );
}

#[test]
fn package_like_and_overlapping_aliases_are_reported() {
    let aliases = strings(&["react", "@app/*", "@app/c*", "@app/core/*"]);
    let out = collect_path_alias_shadowing_findings(FILE, &aliases);
    assert_eq!(
        ids(&out),
        strings(&[
            "tsconfig-paths-shadow-package:/r/tsconfig.json:react",
            "tsconfig-paths-shadow-package:/r/tsconfig.json:@app/c*",
            "tsconfig-paths-shadow-package:/r/tsconfig.json:@app/core/*",
            "tsconfig-paths-shadow-alias:/r/tsconfig.json:@app/c*:@app/*",
        ])
    );
    let exact = strings(&["#lib/*", "#lib/core"]);
    assert!(collect_path_alias_shadowing_findings(FILE, &exact).is_empty());
}

fn obj(members: Vec<(&str, JsonValue)>) -> JsonValue {
    JsonValue::Object(members.into_iter().map(|(k, v)| (k.to_string(), v)).collect())
}

#[test]
fn deprecated_options_are_reported_in_table_order() {
    let co = obj(vec![("out", text("x.js")), ("charset", text("utf8")), ("strict", JsonValue::Bool(true))]);
    let out = maximus_checks::paths_findings::collect_deprecated_option_findings(FILE, Some(&co));
    assert_eq!(
        ids(&out),
        strings(&["tsconfig-deprecated:/r/tsconfig.json:charset", "tsconfig-deprecated:/r/tsconfig.json:out"])
    );
    assert_eq!(out[1].detail, "Use outFile if you truly need single-file emit.");
    assert!(maximus_checks::paths_findings::collect_deprecated_option_findings(FILE, None).is_empty());
}

#[test]
fn paths_resolve_against_base_url() {
    let dir = maximus_checks::paths::PathBase::from_path("/r/app");
    let co = obj(vec![("baseUrl", text("./src/.."))]);
    let base = maximus_checks::paths_findings::tsconfig_paths_base_dir(&dir, Some(&co));
    assert_eq!(base.render_resolved(), "/r/app");
    let co = obj(vec![("baseUrl", text("src"))]);
    let base = maximus_checks::paths_findings::tsconfig_paths_base_dir(&dir, Some(&co));
    assert_eq!(base.render_resolved(), "/r/app/src");
    let base = maximus_checks::paths_findings::tsconfig_paths_base_dir(&dir, None);
    assert_eq!(base.render_resolved(), "/r/app");
}

#[test]
fn the_paths_option_is_read_as_a_whole() {
    let none = obj(vec![("strict", JsonValue::Bool(true))]);
    assert!(maximus_checks::paths_findings::tsconfig_paths_findings(FILE, Some(&none), &Vec::new()).is_empty());
    let null = obj(vec![("paths", JsonValue::Null)]);
    assert!(maximus_checks::paths_findings::tsconfig_paths_findings(FILE, Some(&null), &Vec::new()).is_empty());
    let wrong = obj(vec![("paths", JsonValue::Array(vec![]))]);
    let out = maximus_checks::paths_findings::tsconfig_paths_findings(FILE, Some(&wrong), &Vec::new());
    assert_eq!(ids(&out), strings(&["tsconfig-paths-shape:/r/tsconfig.json"]));
    let good = obj(vec![(
        "paths",
        obj(vec![("react", JsonValue::Array(vec![text("./vendor/react")])), ("@a/*", JsonValue::Array(vec![text("a/*")]))]),
    )]);
    let out = maximus_checks::paths_findings::tsconfig_paths_findings(FILE, Some(&good), &strings(&["./vendor/react"]));
    assert_eq!(
        ids(&out),
        strings(&[
            "tsconfig-paths-missing:/r/tsconfig.json:@a/*:a/*",
            "tsconfig-paths-shadow-package:/r/tsconfig.json:react",
        ])
    );
}
