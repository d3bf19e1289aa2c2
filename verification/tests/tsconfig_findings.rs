use maximus_checks::json::JsonValue as J;
use maximus_checks::registry::Severity;
use maximus_checks::tsconfig_findings::{
    deprecated_option_finding, empty_include_finding, format_string_list, guidance_finding,
    missing_path_targets, parse_error_finding, paths_empty_finding, paths_missing_finding,
    paths_shape_finding, paths_type_finding, paths_wildcard_finding, pattern_shape_finding,
    shadow_alias_finding, shadow_package_finding, type_option_entry_finding,
    type_option_shape_finding, type_root_missing_finding, types_guidance, unused_exclude_finding,
    TypesGuidance, types_option_with_findings,
};

fn strings(v: &[&str]) -> Vec<String> {
    v.iter().map(|s| s.to_string()).collect()
}

#[test]
fn string_lists_are_written_as_json() {
    assert_eq!(format_string_list(&strings(&["node", "jest"])), "[\"node\",\"jest\"]");
    assert_eq!(format_string_list(&strings(&["a\"b"])), "[\"a\\\"b\"]");
    assert_eq!(format_string_list(&strings(&["t\tn\n\u{1}\u{1f}\\", "é"])), "[\"t\\tn\\n\\u0001\\u001f\\\\\",\"é\"]");
    assert_eq!(format_string_list(&Vec::new()), "[]");
}

#[test]
fn types_guidance_follows_which_lists_are_set() {
    let types = strings(&["node"]);
    let roots = strings(&["./types"]);
    let both = types_guidance("/r/tsconfig.json", Some(&types), Some(&roots)).unwrap();
    assert_eq!(both.id, "tsconfig-types-typeroots-guidance:/r/tsconfig.json");
    assert_eq!(
        both.detail,
        "compilerOptions.types only includes [\"node\"], and compilerOptions.typeRoots only searches [\"./types\"], so unlisted ambient packages outside those roots will be hidden from TypeScript."
    );
    assert_eq!(both.severity, Severity::Warn);
    let empty: Vec<String> = Vec::new();
    let none = types_guidance("/r/t.json", Some(&empty), None).unwrap();
    assert_eq!(none.title, "compilerOptions.types disables automatic @types inclusion");
    assert_eq!(none.severity, Severity::Warn);
    let limited = types_guidance("/r/t.json", Some(&types), None).unwrap();
    assert_eq!(limited.severity, Severity::Info);
    assert_eq!(
        limited.detail,
        "compilerOptions.types only includes [\"node\"], so unlisted ambient @types packages will not be injected automatically."
    );
    let roots_only = types_guidance("/r/t.json", None, Some(&roots)).unwrap();
    assert_eq!(roots_only.id, "tsconfig-typeroots-guidance:/r/t.json");
    assert!(types_guidance("/r/t.json", None, None).is_none());
    let given = guidance_finding("/r/t.json", TypesGuidance::RootsOnly, "", "[\"x\"]");
    assert_eq!(
        given.detail,
        "compilerOptions.typeRoots only searches [\"x\"], so TypeScript will stop using the default node_modules/@types lookup for this config."
    );
}

#[test]
fn paths_findings_are_worded() {
    let f = "/r/tsconfig.json";
    assert_eq!(parse_error_finding(f, "bad").id, "tsconfig-parse:/r/tsconfig.json");
    assert_eq!(paths_shape_finding(f).title, "compilerOptions.paths must be an object");
    let d = deprecated_option_finding(f, "importsNotUsedAsValues", "Use verbatimModuleSyntax.");
    assert_eq!(d.title, "Deprecated compiler option \"importsNotUsedAsValues\"");
    assert_eq!(d.detail, "Use verbatimModuleSyntax.");
    assert_eq!(paths_empty_finding(f, "@a/*").title, "Alias \"@a/*\" does not declare any targets");
    assert_eq!(paths_type_finding(f, "@a").id, "tsconfig-paths-type:/r/tsconfig.json:@a");
    let w = paths_wildcard_finding(f, "@a/*", "src/a");
    assert_eq!(w.detail, "@a/* maps to src/a, but only one side uses \"*\".");
    assert_eq!(w.severity, Severity::Warn);
    let m = paths_missing_finding(f, "@ui/*", "src/missing/*");
    assert_eq!(m.id, "tsconfig-paths-missing:/r/tsconfig.json:@ui/*:src/missing/*");
    assert_eq!(m.detail, "@ui/* points to src/missing/*");
    assert_eq!(m.hint, "Update or remove the stale alias target.");
    assert_eq!(m.file, "/r/tsconfig.json");
    assert_eq!(shadow_package_finding(f, "react").title, "Path alias \"react\" shadows a package import");
    let s = shadow_alias_finding(f, "@app/utils/*", "@app/*");
    assert_eq!(s.title, "Path alias \"@app/utils/*\" shadows \"@app/*\"");
}

#[test]
fn missing_targets_are_reported_only_when_none_exists() {
    assert_eq!(missing_path_targets(3, &[false, true, false]), Vec::<usize>::new());
    assert_eq!(missing_path_targets(3, &[false, false]), vec![0, 1, 2]);
    assert_eq!(missing_path_targets(0, &[]), Vec::<usize>::new());
}

#[test]
fn type_option_findings_are_worded() {
    let f = "/r/tsconfig.json";
    assert_eq!(type_option_shape_finding(f, false).id, "tsconfig-types-shape:/r/tsconfig.json");
    assert_eq!(type_option_shape_finding(f, true).id, "tsconfig-typeroots-shape:/r/tsconfig.json");
    let e = type_option_entry_finding(f, 2, true);
    assert_eq!(e.id, "tsconfig-typeroots-entry:/r/tsconfig.json:2");
    assert_eq!(
        e.detail,
        "/r/tsconfig.json declares compilerOptions.typeRoots[2], but TypeScript expects a non-empty string directory path."
    );
    let missing = type_root_missing_finding(f, "./types");
    assert_eq!(
        missing.detail,
        "compilerOptions.typeRoots includes \"./types\", but the resolved path was not found."
    );
}

#[test]
fn pattern_findings_are_worded() {
    let f = "/r/tsconfig.json";
    let next = empty_include_finding(f, ".next/types/**/*.ts", "/r", true);
    assert_eq!(next.severity, Severity::Info);
    assert_eq!(next.detail, "include pattern \".next/types/**/*.ts\" matched 0 files under base dir /r.");
    let plain = empty_include_finding(f, "src/**/*.ts", "/r", false);
    assert_eq!(plain.severity, Severity::Warn);
    assert_eq!(plain.id, "tsconfig-patterns:/r/tsconfig.json:include:src/**/*.ts");
    let unused = unused_exclude_finding(f, "dist", 12, "/r");
    assert_eq!(
        unused.detail,
        "exclude pattern \"dist\" removed 0 files from 12 included file(s) under base dir /r."
    );
    let shape = pattern_shape_finding(f, "include", "type", "/r/base.json", "T", "D", "H");
    assert_eq!(shape.id, "tsconfig-patterns-shape:/r/tsconfig.json:include:type:/r/base.json");
}

fn arr(items: Vec<maximus_checks::json::JsonValue>) -> maximus_checks::json::JsonValue {
    maximus_checks::json::JsonValue::Array(items)
}

fn txt(t: &str) -> maximus_checks::json::JsonValue {
    maximus_checks::json::JsonValue::Text(t.to_string())
}

fn opts(members: Vec<(&str, maximus_checks::json::JsonValue)>) -> maximus_checks::json::JsonValue {
    maximus_checks::json::JsonValue::Object(members.into_iter().map(|(k, v)| (k.to_string(), v)).collect())
}

fn finding_ids(fs: &[maximus_checks::tsconfig_findings::TsFinding]) -> Vec<String> {
    fs.iter().map(|f| f.id.clone()).collect()
}

#[test]
fn types_and_type_roots_are_checked_together() {
    let f = "/r/tsconfig.json";
    let co = opts(vec![
        ("types", arr(vec![txt("node"), txt("jest")])),
        ("typeRoots", arr(vec![txt("./types"), txt(" ./missing ")])),
    ]);
    let out = maximus_checks::tsconfig_findings::collect_types_and_type_roots_findings(
        f,
        Some(&co),
        &vec!["./types".to_string()],
    );
    assert_eq!(
        finding_ids(&out),
        vec![
            "tsconfig-typeroots-missing:/r/tsconfig.json:./missing".to_string(),
            "tsconfig-types-typeroots-guidance:/r/tsconfig.json".to_string(),
        ]
    );
    assert_eq!(
        out[1].detail,
        "compilerOptions.types only includes [\"node\",\"jest\"], and compilerOptions.typeRoots only searches [\"./types\",\"./missing\"], so unlisted ambient packages outside those roots will be hidden from TypeScript."
    );

    let bad = opts(vec![
        ("types", txt("node")),
        ("typeRoots", arr(vec![txt("a"), maximus_checks::json::JsonValue::Bool(true), txt("  ")])),
    ]);
    let out = maximus_checks::tsconfig_findings::collect_types_and_type_roots_findings(f, Some(&bad), &Vec::new());
    assert_eq!(
        finding_ids(&out),
        vec![
            "tsconfig-types-shape:/r/tsconfig.json".to_string(),
            "tsconfig-typeroots-entry:/r/tsconfig.json:1".to_string(),
            "tsconfig-typeroots-entry:/r/tsconfig.json:2".to_string(),
        ]
    );

    let empty = opts(vec![("types", arr(vec![]))]);
    let out = maximus_checks::tsconfig_findings::collect_types_and_type_roots_findings(f, Some(&empty), &Vec::new());
    assert_eq!(out.len(), 1);
    assert_eq!(out[0].title, "compilerOptions.types disables automatic @types inclusion");
    assert!(maximus_checks::tsconfig_findings::collect_types_and_type_roots_findings(f, None, &Vec::new()).is_empty());
}

#[test]
fn reading_types_reports_its_problems() {
    let obj = |k: &str, v: J| J::Object(vec![(k.to_string(), v)]);
    let text = |t: &str| J::Text(t.to_string());
    let f = "/p/tsconfig.json";
    let mut out = Vec::new();
    let ok = types_option_with_findings(&mut out, f, &obj("types", J::Array(vec![text(" node "), text("jest")])), false);
    assert_eq!(ok, Some(strings(&["node", "jest"])));
    assert!(out.is_empty());
    let bad = types_option_with_findings(
        &mut out,
        f,
        &obj("types", J::Array(vec![text("node"), J::Bool(true), text("  ")])),
        false,
    );
    assert_eq!(bad, None);
    let ids: Vec<String> = out.iter().map(|x| x.id.clone()).collect();
    assert_eq!(ids, strings(&["tsconfig-types-entry:/p/tsconfig.json:1", "tsconfig-types-entry:/p/tsconfig.json:2"]));
    let mut shape = Vec::new();
    assert_eq!(types_option_with_findings(&mut shape, f, &obj("types", text("node")), false), None);
    assert_eq!(shape[0].id, "tsconfig-types-shape:/p/tsconfig.json");
    let mut none = Vec::new();
    assert_eq!(types_option_with_findings(&mut none, f, &J::Object(Vec::new()), true), None);
    assert!(none.is_empty());
}
