use maximus_checks::entrypoint_paths::TargetFacts;
use maximus_checks::entrypoint_walk::{collect_findings, inspect_entrypoint_value, LeafFacts};
use maximus_checks::json::{JsonNumber, JsonValue};
use maximus_checks::package_entrypoints::FindingRef;
use maximus_checks::registry::Severity;

const PKG: &str = "/p/package.json";

fn text(t: &str) -> JsonValue {
    JsonValue::Text(t.to_string())
}

fn obj(members: Vec<(&str, JsonValue)>) -> JsonValue {
    JsonValue::Object(members.into_iter().map(|(k, v)| (k.to_string(), v)).collect())
}

fn path(parts: &[&str]) -> Vec<String> {
    parts.iter().map(|p| p.to_string()).collect()
}

fn exists_at(parts: &[&str]) -> LeafFacts {
    LeafFacts {
        field_path: path(parts),
        facts: TargetFacts { wildcard: None, resolved_file: None, nested: Vec::new(), exists: true },
    }
}

fn summary(findings: &[FindingRef]) -> Vec<(String, String, Severity)> {
    findings.iter().map(|f| (f.id.clone(), f.title.clone(), f.severity)).collect()
}

#[test]
fn an_existing_main_target_is_valid() {
    let facts = vec![exists_at(&["main"])];
    let r = inspect_entrypoint_value(PKG, path(&["main"]), &text("./dist/index.js"), &facts);
    assert!(r.has_valid_target);
    assert!(r.findings.is_empty());
}

#[test]
fn a_target_without_facts_does_not_exist() {
    let r = inspect_entrypoint_value(PKG, path(&["main"]), &text("./missing.js"), &Vec::new());
    assert!(!r.has_valid_target);
    assert_eq!(
        summary(&r.findings),
        vec![(
            "package-entrypoints:/p/package.json:main:./missing.js".to_string(),
            "Package entrypoint target does not exist".to_string(),
            Severity::Error
        )]
    );
}

#[test]
fn each_condition_of_an_exports_map_is_checked() {
    let value = obj(vec![(".", obj(vec![("import", text("./a.mjs")), ("require", text("./a.cjs"))]))]);
    let facts = vec![exists_at(&["exports", ".", "import"])];
    let r = inspect_entrypoint_value(PKG, path(&["exports"]), &value, &facts);
    assert!(r.has_valid_target);
    assert_eq!(
        summary(&r.findings),
        vec![(
            "package-entrypoints:/p/package.json:exports/./require:./a.cjs".to_string(),
            "Package entrypoint target does not exist".to_string(),
            Severity::Error
        )]
    );
}

#[test]
fn a_working_fallback_hides_missing_earlier_branches() {
    let value = obj(vec![(".", JsonValue::Array(vec![text("./missing.js"), text("./ok.js")]))]);
    let facts = vec![exists_at(&["exports", ".", "[1]"])];
    let r = inspect_entrypoint_value(PKG, path(&["exports"]), &value, &facts);
    assert!(r.has_valid_target);
    assert!(r.findings.is_empty());
}

#[test]
fn failing_fallbacks_report_one_finding() {
    let value = JsonValue::Array(vec![text("./a.js"), text("./b.js")]);
    let r = inspect_entrypoint_value(PKG, path(&["exports", "."]), &value, &Vec::new());
    assert!(!r.has_valid_target);
    assert_eq!(
        summary(&r.findings),
        vec![(
            "package-entrypoints:/p/package.json:exports/./[0]:./a.js".to_string(),
            "Package entrypoint target does not exist".to_string(),
            Severity::Error
        )]
    );
}

#[test]
fn values_of_the_wrong_kind_are_invalid() {
    let five = JsonValue::Number(JsonNumber { text: "5".to_string(), is_zero: false });
    let r = inspect_entrypoint_value(PKG, path(&["bin"]), &five, &Vec::new());
    assert_eq!(
        summary(&r.findings),
        vec![(
            "package-entrypoints:/p/package.json:bin:invalid-type:number".to_string(),
            "Package entrypoint target is invalid".to_string(),
            Severity::Error
        )]
    );
    let r = inspect_entrypoint_value(PKG, path(&["types"]), &JsonValue::Null, &Vec::new());
    assert_eq!(
        summary(&r.findings),
        vec![(
            "package-entrypoints:/p/package.json:types:invalid-type:null".to_string(),
            "Package entrypoint target is invalid".to_string(),
            Severity::Warn
        )]
    );
    let r = inspect_entrypoint_value(PKG, path(&["main"]), &JsonValue::Array(vec![]), &Vec::new());
    assert_eq!(r.findings.len(), 1);
    assert_eq!(r.findings[0].id, "package-entrypoints:/p/package.json:main:invalid-type:array");
}

#[test]
fn null_is_allowed_under_exports() {
    let r = inspect_entrypoint_value(PKG, path(&["exports", "./private"]), &JsonValue::Null, &Vec::new());
    assert!(!r.has_valid_target);
    assert!(r.findings.is_empty());
}

#[test]
fn import_keys_must_start_with_a_hash() {
    let value = obj(vec![("bad", text("./x.js"))]);
    let r = inspect_entrypoint_value(PKG, path(&["imports"]), &value, &Vec::new());
    assert_eq!(
        summary(&r.findings),
        vec![(
            "package-entrypoints:/p/package.json:imports/bad:key".to_string(),
            "Package entrypoint key is invalid".to_string(),
            Severity::Error
        )]
    );
}

#[test]
fn mixed_exports_keys_are_reported_first() {
    let value = obj(vec![(".", text("./a.js")), ("import", text("./b.js"))]);
    let facts = vec![exists_at(&["exports", "."]), exists_at(&["exports", "import"])];
    let r = inspect_entrypoint_value(PKG, path(&["exports"]), &value, &facts);
    assert!(r.has_valid_target);
    assert_eq!(
        summary(&r.findings),
        vec![(
            "package-entrypoints:/p/package.json:exports:mixed-keys".to_string(),
            "Package exports object is invalid".to_string(),
            Severity::Error
        )]
    );
}

#[test]
fn findings_are_collected_field_by_field() {
    let json = obj(vec![
        ("name", text("x")),
        ("types", text("./index.d.ts")),
        ("main", text("./index.js")),
        ("bin", obj(vec![("tool", text("./bin/tool.js"))])),
    ]);
    let facts = vec![exists_at(&["main"])];
    let fields = ["main", "module", "types", "bin", "exports", "imports"];
    let out = collect_findings(PKG, &json, &fields, &facts);
    assert_eq!(
        summary(&out),
        vec![
            (
                "package-entrypoints:/p/package.json:types:./index.d.ts".to_string(),
                "Package entrypoint target does not exist".to_string(),
                Severity::Warn
            ),
            (
                "package-entrypoints:/p/package.json:bin/tool:./bin/tool.js".to_string(),
                "Package entrypoint target does not exist".to_string(),
                Severity::Error
            ),
        ]
    );
}

#[test]
fn findings_carry_their_detail_and_hint() {
    let r = inspect_entrypoint_value("/p/package.json", path(&["exports", "."]), &text("dist/index.js"), &Vec::new());
    assert!(!r.has_valid_target);
    assert_eq!(r.findings.len(), 1);
    assert_eq!(r.findings[0].title, "Package entrypoint target is invalid");
    assert_eq!(
        r.findings[0].detail,
        "package.json exports/. points to dist/index.js, but exports targets must stay within the package and start with ./."
    );
    assert_eq!(
        r.findings[0].hint,
        "Use a package-local target that stays under ./ and avoids ., .., or node_modules segments."
    );
    let missing = inspect_entrypoint_value(PKG, path(&["main"]), &text("./missing.js"), &Vec::new());
    assert_eq!(missing.findings[0].detail, "package.json main points to ./missing.js, but the resolved path was not found.");
    assert_eq!(
        missing.findings[0].hint,
        "Update the relative path or remove the stale entrypoint before publishing."
    );
}

#[test]
fn invalid_keys_explain_why() {
    let value = obj(vec![("x", text("./a.js")), ("#ok", text("./b.js"))]);
    let facts = vec![exists_at(&["imports", "#ok"])];
    let r = inspect_entrypoint_value(PKG, path(&["imports"]), &value, &facts);
    let key = r.findings.iter().find(|f| f.id.ends_with(":key")).unwrap();
    assert_eq!(key.id, "package-entrypoints:/p/package.json:imports/x:key");
    assert_eq!(key.detail, "package.json imports/x uses an invalid key. imports keys must start with #.");
    assert_eq!(key.hint, "Rename the imports entry to a # alias before publishing.");
    let mixed = obj(vec![(".", text("./a.js")), ("import", text("./b.mjs"))]);
    let facts = vec![exists_at(&["exports", "."]), exists_at(&["exports", "import"])];
    let r = inspect_entrypoint_value(PKG, path(&["exports"]), &mixed, &facts);
    assert_eq!(r.findings[0].id, "package-entrypoints:/p/package.json:exports:mixed-keys");
    assert_eq!(
        r.findings[0].detail,
        "package.json exports mixes subpath keys with condition keys at the same object level."
    );
}

#[test]
fn a_value_of_the_wrong_kind_explains_itself() {
    let r = inspect_entrypoint_value(PKG, path(&["main"]), &JsonValue::Bool(true), &Vec::new());
    assert_eq!(r.findings[0].detail, "package.json main must be a string target or nested fallback branches, but found boolean.");
    assert_eq!(
        r.findings[0].hint,
        "Use a string target or nested fallback branches composed of strings, arrays, and objects."
    );
}
