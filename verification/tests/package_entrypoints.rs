use maximus_checks::package_entrypoints::{
    allows_array_target, allows_directory_target_resolution, allows_index_directory_fallback,
    allows_null_target, allows_object_target, exact_file_matches_field_path, exports_key_hint,
    has_invalid_package_key_segment, has_invalid_package_path_segment, has_url_like_scheme,
    hex_value, invalid_exports_key_reason, invalid_exports_target_reason,
    invalid_imports_key_reason, invalid_imports_target_reason, invalid_local_target_detail,
    invalid_main_like_target_reason, is_absolute_like_target, is_exports_local_target,
    is_imports_local_target, is_main_like_field, is_skippable_fallback_branch_finding,
    is_valid_external_import_target, mixes_exports_subpaths_and_conditions,
    percent_decode_path_like_node, retained_fallback_findings, retained_index_fallback_findings,
    select_best_finding, severity_for_field_path, should_compress_object_branches,
    unique_findings_by_id, uses_types_extensions, wildcard_pattern_matches,
    wildcard_search_prefix, invalid_object_key_findings, json_value_kind,
    invalid_entrypoint_value_detail, merge_array_branches, merge_object_branches, BranchOutcome,
    FindingRef,
};
use maximus_checks::json::{JsonNumber, JsonValue};
use maximus_checks::registry::Severity;

fn path(parts: &[&str]) -> Vec<String> {
    parts.iter().map(|p| p.to_string()).collect()
}

#[test]
fn hex_digits_decode_in_both_cases() {
    assert_eq!(hex_value(b'0'), Some(0));
    assert_eq!(hex_value(b'9'), Some(9));
    assert_eq!(hex_value(b'a'), Some(10));
    assert_eq!(hex_value(b'F'), Some(15));
    assert_eq!(hex_value(b'g'), None);
}

#[test]
fn percent_decoding_turns_escapes_into_characters() {
    assert_eq!(percent_decode_path_like_node("a%2fb"), "a/b");
    assert_eq!(percent_decode_path_like_node("%2e%2E"), "..");
    assert_eq!(percent_decode_path_like_node("ab%41"), "abA");
    // an escape without both digits is kept as it is
    assert_eq!(percent_decode_path_like_node("ab%4"), "ab%4");
    assert_eq!(percent_decode_path_like_node("%41%zz"), "A%zz");
}

#[test]
fn decoded_segments_are_checked() {
    assert!(has_invalid_package_path_segment("a/../b"));
    assert!(has_invalid_package_path_segment("a/%2e%2e/b"));
    assert!(has_invalid_package_path_segment("a\\node_modules\\b"));
    assert!(has_invalid_package_path_segment("a//b"));
    assert!(!has_invalid_package_path_segment("lib/index.js"));
    assert!(has_invalid_package_key_segment("features/./x"));
}

#[test]
fn url_like_schemes_are_recognized() {
    assert!(has_url_like_scheme("https://example.com"));
    assert!(has_url_like_scheme("NODE:fs"));
    assert!(!has_url_like_scheme("c:/path"));
    assert!(!has_url_like_scheme(":x"));
    assert!(!has_url_like_scheme("./dist/index.js"));
}

#[test]
fn absolute_targets_are_recognized() {
    assert!(is_absolute_like_target("/abs"));
    assert!(is_absolute_like_target("\\abs"));
    assert!(is_absolute_like_target("C:\\x"));
    assert!(!is_absolute_like_target("./x"));
    assert!(!is_absolute_like_target("1:/x"));
}

#[test]
fn local_targets_by_field() {
    assert!(is_exports_local_target("./dist/index.js"));
    assert!(is_exports_local_target(".\\dist\\index.js"));
    assert!(!is_exports_local_target("../dist/index.js"));
    assert!(is_imports_local_target("../shared.js"));
    assert!(!is_imports_local_target("#internal"));
    assert!(!is_imports_local_target(""));
}

#[test]
fn exports_target_reasons() {
    assert_eq!(
        invalid_exports_target_reason("dist/index.js"),
        Some("exports targets must stay within the package and start with ./")
    );
    assert_eq!(
        invalid_exports_target_reason("./"),
        Some("exports targets must point to a file or directory under ./")
    );
    assert_eq!(
        invalid_exports_target_reason("./node_modules/x.js"),
        Some("exports targets cannot contain empty, ., .., or node_modules path segments")
    );
    assert_eq!(invalid_exports_target_reason("./dist/index.js"), None);
}

#[test]
fn main_like_target_reasons() {
    assert_eq!(
        invalid_main_like_target_reason(""),
        Some("main/module/types/bin targets must not be empty")
    );
    assert_eq!(
        invalid_main_like_target_reason("./dist/*.js"),
        Some("main/module/types/bin targets must not use wildcard patterns")
    );
    assert_eq!(
        invalid_main_like_target_reason("https://cdn/x.js"),
        Some("main/module/types/bin targets must be package-local paths and cannot use URL-like schemes")
    );
    assert_eq!(
        invalid_main_like_target_reason("#main"),
        Some("main/module/types/bin targets must be package-local paths and cannot use # references")
    );
    assert_eq!(
        invalid_main_like_target_reason("/abs/index.js"),
        Some("main/module/types/bin targets must be package-local paths and cannot use absolute paths")
    );
    assert_eq!(
        invalid_main_like_target_reason("./"),
        Some("main/module/types/bin targets must point to a file or directory under ./")
    );
    assert_eq!(
        invalid_main_like_target_reason("../index.js"),
        Some("main/module/types/bin targets must stay within the package and cannot contain empty, ., .., or node_modules path segments")
    );
    assert_eq!(invalid_main_like_target_reason("index.js"), None);
    assert_eq!(invalid_main_like_target_reason("./lib/index.js"), None);
}

#[test]
fn external_import_specifiers() {
    assert!(is_valid_external_import_target("lodash"));
    assert!(is_valid_external_import_target("@scope/pkg/sub"));
    assert!(!is_valid_external_import_target("@scope"));
    assert!(!is_valid_external_import_target("@/x"));
    assert!(!is_valid_external_import_target("pkg/../x"));
    assert!(!is_valid_external_import_target("pkg//x"));
    assert!(!is_valid_external_import_target("node:fs"));
    assert!(!is_valid_external_import_target("./x"));
}

#[test]
fn imports_target_reasons() {
    assert_eq!(
        invalid_imports_target_reason(""),
        Some("imports targets must not be empty")
    );
    assert_eq!(
        invalid_imports_target_reason("../x.js"),
        Some("imports local targets must stay within the package and start with ./")
    );
    assert_eq!(invalid_imports_target_reason("lodash"), None);
    assert_eq!(
        invalid_imports_target_reason("pkg/../x"),
        Some("imports targets must be package-local paths under ./ or valid external package specifiers")
    );
    assert_eq!(
        invalid_imports_target_reason("./"),
        Some("imports local targets must point to a file or directory under ./")
    );
    assert_eq!(
        invalid_imports_target_reason("./a/../b"),
        Some("imports local targets cannot contain empty, ., .., or node_modules path segments")
    );
    assert_eq!(invalid_imports_target_reason("./src/x.js"), None);
}

#[test]
fn imports_and_exports_keys() {
    assert_eq!(
        invalid_imports_key_reason("#"),
        Some("imports keys must include a name after the # prefix")
    );
    assert_eq!(
        invalid_imports_key_reason("#/"),
        Some("imports keys must include a name after the #/ prefix")
    );
    assert_eq!(invalid_imports_key_reason("#/utils"), None);
    assert_eq!(invalid_imports_key_reason("#utils"), None);
    assert_eq!(
        invalid_imports_key_reason("#a/../b"),
        Some("imports keys must not contain empty, ., .., or node_modules path segments")
    );
    assert_eq!(
        invalid_imports_key_reason("utils"),
        Some("imports keys must start with #")
    );
    assert_eq!(
        invalid_exports_key_reason("#x"),
        Some("exports keys must not start with #")
    );
    assert_eq!(invalid_exports_key_reason("."), None);
    assert_eq!(invalid_exports_key_reason("import"), None);
    assert_eq!(
        invalid_exports_key_reason("./"),
        Some("exports subpath keys must not contain empty, ., .., or node_modules path segments")
    );
    assert_eq!(invalid_exports_key_reason("./feature"), None);
    assert_eq!(
        exports_key_hint("#x"),
        "Rename the exports entry to . or ./subpath, or use a condition key without a # prefix."
    );
    assert_eq!(
        exports_key_hint("x"),
        "Rename the exports entry to . or a ./subpath that stays within the package."
    );
}

#[test]
fn exports_maps_mixing_subpaths_and_conditions() {
    assert!(mixes_exports_subpaths_and_conditions(&path(&[".", "import"])));
    assert!(!mixes_exports_subpaths_and_conditions(&path(&[".", "./x"])));
    assert!(!mixes_exports_subpaths_and_conditions(&path(&["import", "require"])));
}

#[test]
fn field_path_predicates() {
    assert!(is_main_like_field("bin"));
    assert!(!is_main_like_field("exports"));
    assert!(uses_types_extensions(&path(&["types"])));
    assert!(uses_types_extensions(&path(&["exports", ".", "types"])));
    assert!(!uses_types_extensions(&path(&["main"])));
    assert!(!uses_types_extensions(&path(&["exports", "types-x"])));
    assert_eq!(severity_for_field_path(&path(&["types"])), Severity::Warn);
    assert_eq!(severity_for_field_path(&path(&["main"])), Severity::Error);
    assert!(allows_null_target(&path(&["exports", "."])));
    assert!(!allows_null_target(&path(&["main"])));
    assert!(allows_array_target(&path(&["imports"])));
    assert!(allows_object_target(&path(&["bin"])));
    assert!(!allows_object_target(&path(&["bin", "x"])));
    assert!(!allows_object_target(&path(&["main"])));
    assert!(allows_directory_target_resolution(&path(&["main"])));
    assert!(!allows_directory_target_resolution(&path(&["bin"])));
    assert!(!allows_directory_target_resolution(&path(&[])));
    assert!(allows_index_directory_fallback(&path(&["module"])));
    assert!(!allows_index_directory_fallback(&path(&["exports"])));
}

#[test]
fn declaration_files_match_types_fields() {
    assert!(exact_file_matches_field_path(&path(&["types"]), "dist/index.d.ts"));
    assert!(!exact_file_matches_field_path(&path(&["types"]), "dist/index.js"));
    assert!(exact_file_matches_field_path(&path(&["main"]), "dist/index.js"));
    assert!(!exact_file_matches_field_path(&path(&["main"]), "dist/index.d.mts"));
}

#[test]
fn object_branches_compress() {
    assert!(should_compress_object_branches(&path(&["exports", "."]), &path(&["import"])));
    assert!(should_compress_object_branches(&path(&["exports"]), &path(&["import", "require"])));
    assert!(!should_compress_object_branches(&path(&["exports"]), &path(&[".", "./x"])));
    assert!(should_compress_object_branches(&path(&["imports"]), &path(&["node"])));
    assert!(!should_compress_object_branches(&path(&["imports"]), &path(&["#a"])));
    assert!(!should_compress_object_branches(&path(&["bin"]), &path(&["cli"])));
}

#[test]
fn wildcard_stands_for_one_or_more_characters() {
    assert!(wildcard_pattern_matches("dist/a.js", "dist/*.js"));
    assert!(wildcard_pattern_matches("dist/sub/a.js", "dist/*.js"));
    assert!(!wildcard_pattern_matches("dist/.js", "dist/*.js"));
    assert!(!wildcard_pattern_matches("dist/a.ts", "dist/*.js"));
    assert!(wildcard_pattern_matches("x", "x"));
}

#[test]
fn wildcard_search_prefixes() {
    assert_eq!(wildcard_search_prefix(""), ".");
    assert_eq!(wildcard_search_prefix("./dist/"), "./dist/");
    assert_eq!(wildcard_search_prefix("./dist/feat-"), "./dist");
    assert_eq!(wildcard_search_prefix("/x"), "/");
    assert_eq!(wildcard_search_prefix("feat-"), ".");
}

#[test]
fn invalid_target_detail_text() {
    assert_eq!(
        invalid_local_target_detail(&path(&["exports", "."]), "dist/x.js"),
        Some(
            "package.json exports/. points to dist/x.js, but exports targets must stay within the package and start with ./."
                .to_string()
        )
    );
    assert_eq!(invalid_local_target_detail(&path(&["main"]), "./x.js"), None);
    assert_eq!(invalid_local_target_detail(&path(&["browser"]), "x"), None);
}

#[test]
fn best_finding_is_the_first_most_severe() {
    assert_eq!(select_best_finding(&[Severity::Warn, Severity::Error, Severity::Error]), 1);
    assert_eq!(select_best_finding(&[Severity::Info, Severity::Warn]), 1);
    assert_eq!(select_best_finding(&[Severity::Warn]), 0);
}

#[test]
fn findings_are_unique_by_id() {
    assert_eq!(unique_findings_by_id(&path(&["a", "b", "a", "c", "b"])), vec![0, 1, 3]);
}

#[test]
fn fallback_findings_are_filtered() {
    assert!(is_skippable_fallback_branch_finding("Package entrypoint target does not exist", "x"));
    assert!(is_skippable_fallback_branch_finding("Package entrypoint target is invalid", "p:main:x"));
    assert!(!is_skippable_fallback_branch_finding(
        "Package entrypoint target is invalid",
        "p:invalid-type:main"
    ));
    assert!(!is_skippable_fallback_branch_finding("Something else", "x"));
    let titles = path(&[
        "Package entrypoint target does not exist",
        "Package entrypoint key is invalid",
        "Package entrypoint target is invalid",
    ]);
    let ids = path(&["a", "b", "c:invalid-type:d"]);
    assert_eq!(retained_fallback_findings(&titles, &ids), vec![1, 2]);
    assert_eq!(retained_index_fallback_findings(&titles), vec![1, 2]);
}

fn finding(id: &str, title: &str, severity: Severity) -> FindingRef {
    FindingRef { id: id.to_string(), title: title.to_string(), detail: format!("{id} detail"), hint: String::new(), severity }
}

fn ids(outcome: &BranchOutcome) -> Vec<String> {
    outcome.findings.iter().map(|f| f.id.clone()).collect()
}

#[test]
fn value_kinds_are_named() {
    assert_eq!(json_value_kind(&JsonValue::Null), "null");
    assert_eq!(json_value_kind(&JsonValue::Bool(true)), "boolean");
    assert_eq!(
        json_value_kind(&JsonValue::Number(JsonNumber { text: "1".to_string(), is_zero: false })),
        "number"
    );
    assert_eq!(json_value_kind(&JsonValue::Text("x".to_string())), "string");
    assert_eq!(json_value_kind(&JsonValue::Array(vec![])), "array");
    assert_eq!(json_value_kind(&JsonValue::Object(vec![])), "object");
}

#[test]
fn invalid_value_detail_names_the_field_and_kind() {
    assert_eq!(
        invalid_entrypoint_value_detail(&path(&["exports", "."]), &JsonValue::Bool(false)),
        "package.json exports/. must be a string target or nested fallback branches, but found boolean."
    );
}

#[test]
fn object_keys_are_checked_per_map() {
    let keys = path(&[".", "import", "#x", "./a/../b"]);
    let r = invalid_object_key_findings(&path(&["exports"]), &keys);
    assert!(r.mixed_exports);
    assert_eq!(
        r.refused,
        vec![
            (2, "exports keys must not start with #"),
            (
                3,
                "exports subpath keys must not contain empty, ., .., or node_modules path segments"
            ),
        ]
    );
    let nested = invalid_object_key_findings(&path(&["exports", "."]), &keys);
    assert!(!nested.mixed_exports);
    assert_eq!(nested.refused.len(), 2);
    let imports = invalid_object_key_findings(&path(&["imports"]), &path(&["#", "#ok", "x"]));
    assert!(!imports.mixed_exports);
    assert_eq!(
        imports.refused,
        vec![
            (0, "imports keys must include a name after the # prefix"),
            (2, "imports keys must start with #"),
        ]
    );
    let other = invalid_object_key_findings(&path(&["main"]), &keys);
    assert!(!other.mixed_exports);
    assert!(other.refused.is_empty());
}

#[test]
fn array_branches_stop_at_the_first_valid_one() {
    let branches = vec![
        BranchOutcome {
            findings: vec![finding("a", "Package entrypoint target does not exist", Severity::Error)],
            has_valid_target: false,
        },
        BranchOutcome {
            findings: vec![finding("k", "Package entrypoint key is invalid", Severity::Warn)],
            has_valid_target: false,
        },
        BranchOutcome {
            findings: vec![
                finding("k", "Package entrypoint key is invalid", Severity::Warn),
                finding("n", "Nested directory", Severity::Info),
            ],
            has_valid_target: true,
        },
        BranchOutcome {
            findings: vec![finding("z", "Package entrypoint key is invalid", Severity::Error)],
            has_valid_target: false,
        },
    ];
    let r = merge_array_branches(&branches);
    assert!(r.has_valid_target);
    assert_eq!(ids(&r), vec!["k".to_string(), "n".to_string()]);
}

#[test]
fn array_branches_without_a_valid_one_keep_the_most_severe() {
    let branches = vec![
        BranchOutcome {
            findings: vec![finding("a", "t", Severity::Warn)],
            has_valid_target: false,
        },
        BranchOutcome {
            findings: vec![finding("b", "t", Severity::Error), finding("c", "t", Severity::Error)],
            has_valid_target: false,
        },
    ];
    let r = merge_array_branches(&branches);
    assert!(!r.has_valid_target);
    assert_eq!(ids(&r), vec!["b".to_string()]);
    let empty = merge_array_branches(&vec![]);
    assert!(!empty.has_valid_target);
    assert!(empty.findings.is_empty());
}

#[test]
fn object_branches_collect_every_finding() {
    let keys = vec![finding("key", "Package entrypoint key is invalid", Severity::Warn)];
    let branches = vec![
        BranchOutcome { findings: vec![finding("a", "t", Severity::Info)], has_valid_target: false },
        BranchOutcome { findings: vec![finding("b", "t", Severity::Error)], has_valid_target: true },
    ];
    let all = merge_object_branches(&keys, &branches, false);
    assert!(all.has_valid_target);
    assert_eq!(ids(&all), vec!["key".to_string(), "a".to_string(), "b".to_string()]);
    let one = merge_object_branches(&keys, &branches, true);
    assert!(one.has_valid_target);
    assert_eq!(ids(&one), vec!["b".to_string()]);
}
