use maximus_checks::json::{JsonNumber, JsonValue};
use maximus_checks::tsconfig_rules::{
    alias_shadowing_pairs, alias_specificity, aliases_overlap, classify_paths_entry,
    deprecated_options_present, determine_shadowing_alias_pair,
    is_default_excluded_directory_pattern, is_exact_specialization_of_wildcard_alias,
    is_next_generated_types_pattern, is_package_name_segment, is_package_style_alias,
    merge_prefixes, merge_suffixes, package_has_dependency, package_style_aliases,
    parse_effective_pattern_field, parse_type_roots_option, parse_types_option,
    pattern_contains_wildcard, pattern_field_hint, split_wildcard_alias,
    tsconfig_pattern_matches, wildcard_aliases_overlap, wildcard_overlap_samples,
    PathsEntryShape, PatternFieldValues, StringListOption,
};
use maximus_checks::workspace_config::{
    parse_inline_array_item, parse_inline_package_array, parse_inline_string_literal,
    parse_inline_unquoted_scalar, parse_pnpm_workspace_packages, pnpm_workspace_issue,
    skip_inline_ws, strip_inline_comment, turbo_workspace_is_substantial, turbo_workspace_issue,
    WorkspaceIssue,
};

fn chars(s: &str) -> Vec<char> {
    s.chars().collect()
}

fn text(v: &[char]) -> String {
    v.iter().collect()
}

fn s(v: &str) -> JsonValue {
    JsonValue::Text(v.to_string())
}

fn obj(members: Vec<(&str, JsonValue)>) -> JsonValue {
    JsonValue::Object(members.into_iter().map(|(k, v)| (k.to_string(), v)).collect())
}

fn strings(v: &[&str]) -> Vec<String> {
    v.iter().map(|x| x.to_string()).collect()
}

#[test]
fn inline_comments_respect_quotes() {
    assert_eq!(text(&strip_inline_comment(&chars("a: b # note"))), "a: b ");
    assert_eq!(text(&strip_inline_comment(&chars("a: 'b # c' # d"))), "a: 'b # c' ");
    assert_eq!(text(&strip_inline_comment(&chars("a: \"x\\\" # y\" # z"))), "a: \"x\\\" # y\" ");
    assert_eq!(text(&strip_inline_comment(&chars("plain"))), "plain");
    assert_eq!(skip_inline_ws(&chars("  x"), 0), 2);
}

#[test]
fn inline_items() {
    let (v, e) = parse_inline_string_literal(&chars("'a,b' x"), 0).unwrap();
    assert_eq!((text(&v), e), ("a,b".to_string(), 5));
    let (v, e) = parse_inline_unquoted_scalar(&chars(" apps/* , x"), 0).unwrap();
    assert_eq!((text(&v), e), ("apps/*".to_string(), 8));
    assert!(parse_inline_unquoted_scalar(&chars("  ]"), 0).is_err());
    assert!(parse_inline_array_item(&chars("[x]"), 0).is_err());
    assert!(parse_inline_array_item(&chars(""), 0).is_err());
}

#[test]
fn inline_package_arrays() {
    assert_eq!(
        parse_inline_package_array(&chars("[\"apps/*\", 'packages/*', tools]")).unwrap(),
        strings(&["apps/*", "packages/*", "tools"])
    );
    assert_eq!(parse_inline_package_array(&chars("[ ]")).unwrap(), Vec::<String>::new());
    assert!(parse_inline_package_array(&chars("[a b")).is_err());
    assert!(parse_inline_package_array(&chars("[a,")).is_err());
    assert!(parse_inline_package_array(&chars("x")).is_err());
}

#[test]
fn pnpm_workspace_block_lists() {
    let yaml = "# workspace\npackages:\n  - 'apps/*'\n\n  - packages/* # libs\nonlyBuiltDependencies:\n  - esbuild\n";
    assert_eq!(
        parse_pnpm_workspace_packages(yaml).unwrap(),
        strings(&["'apps/*'", "packages/*"])
    );
}

#[test]
fn pnpm_workspace_inline_and_errors() {
    assert_eq!(
        parse_pnpm_workspace_packages("packages: [apps/*, libs/*]").unwrap(),
        strings(&["apps/*", "libs/*"])
    );
    assert_eq!(parse_pnpm_workspace_packages("packages: []").unwrap(), Vec::<String>::new());
    assert_eq!(parse_pnpm_workspace_packages("catalog:\n  a: 1").unwrap(), Vec::<String>::new());
    assert!(parse_pnpm_workspace_packages("packages: apps/*").is_err());
    assert!(parse_pnpm_workspace_packages("packages:\n  apps: x").is_err());
    assert!(parse_pnpm_workspace_packages("packages:\n  - [a]").is_err());
    // the trailing space is trimmed away, so the item marker is a bare `-`
    assert!(parse_pnpm_workspace_packages("packages:\n  - \nfoo: 1").is_err());
}

#[test]
fn pnpm_workspace_findings() {
    assert_eq!(pnpm_workspace_issue(&Err(()), 3), Some(WorkspaceIssue::PnpmUnparsable));
    assert_eq!(pnpm_workspace_issue(&Ok(vec![]), 1), Some(WorkspaceIssue::PnpmPlaceholder));
    assert_eq!(pnpm_workspace_issue(&Ok(vec![]), 2), Some(WorkspaceIssue::PnpmNoPatterns));
    assert_eq!(pnpm_workspace_issue(&Ok(strings(&["a"])), 0), None);
    assert_eq!(
        WorkspaceIssue::PnpmPlaceholder.title(),
        "pnpm-workspace.yaml does not declare any package patterns"
    );
}

#[test]
fn turbo_tasks_make_a_workspace_substantial() {
    let tasks = obj(vec![("tasks", obj(vec![("build", obj(vec![]))]))]);
    assert!(turbo_workspace_is_substantial(&tasks));
    let pipeline = obj(vec![("tasks", obj(vec![])), ("pipeline", obj(vec![("lint", JsonValue::Null)]))]);
    assert!(turbo_workspace_is_substantial(&pipeline));
    let empty = obj(vec![("tasks", obj(vec![]))]);
    assert!(!turbo_workspace_is_substantial(&empty));
    assert!(!turbo_workspace_is_substantial(&JsonValue::Array(vec![])));
    assert_eq!(turbo_workspace_issue(Some(&empty)), Some(WorkspaceIssue::TurboNoTasks));
    assert_eq!(turbo_workspace_issue(None), Some(WorkspaceIssue::TurboUnparsable));
    assert_eq!(turbo_workspace_issue(Some(&tasks)), None);
}

#[test]
fn tsconfig_glob_patterns() {
    assert!(tsconfig_pattern_matches("src/a/b.ts", "src/**/*.ts"));
    assert!(tsconfig_pattern_matches("src/b.ts", "src/**/*.ts"));
    assert!(!tsconfig_pattern_matches("lib/b.ts", "src/**/*.ts"));
    assert!(tsconfig_pattern_matches("src/ab.ts", "src/a?.ts"));
    assert!(!tsconfig_pattern_matches("src/a/b.ts", "src/*.ts"));
    assert!(pattern_contains_wildcard("src/?"));
    assert!(!pattern_contains_wildcard("src"));
}

#[test]
fn tsconfig_pattern_classifications() {
    assert!(is_next_generated_types_pattern("./.next/types/**/*.ts"));
    assert!(!is_next_generated_types_pattern(".next/types/*.ts"));
    assert!(is_default_excluded_directory_pattern(" ./node_modules/ "));
    assert!(is_default_excluded_directory_pattern("bower_components"));
    assert!(!is_default_excluded_directory_pattern("node_modules/x"));
    assert_eq!(
        pattern_field_hint("files"),
        "Rewrite files as an array of string paths before relying on explicit TypeScript inputs."
    );
    assert_eq!(pattern_field_hint("other"), "Rewrite tsconfig pattern fields as arrays of strings.");
}

#[test]
fn dependencies_are_looked_up_by_field() {
    let pkg = obj(vec![("devDependencies", obj(vec![("next", s("14"))]))]);
    assert!(package_has_dependency(&pkg, "devDependencies", "next"));
    assert!(!package_has_dependency(&pkg, "dependencies", "next"));
}

#[test]
fn alias_overlap_rules() {
    assert!(aliases_overlap("@app/*", "@app/utils"));
    // a `*` stays within one path segment
    assert!(!aliases_overlap("@/*", "@/components/*"));
    assert!(aliases_overlap("a*", "ab*"));
    assert!(!aliases_overlap("@a/*", "@b/*"));
    assert!(aliases_overlap("x", "x"));
    assert!(!aliases_overlap("x", "y"));
    assert!(wildcard_aliases_overlap(&chars("a*"), &chars("ab*")));
    assert!(!wildcard_aliases_overlap(&chars("a/*/b"), &chars("a/*")));
    assert_eq!(
        wildcard_overlap_samples(&chars("a/*")).iter().map(|v| text(v)).collect::<Vec<_>>(),
        vec!["a/shadow".to_string(), "a/shadow/nested".to_string()]
    );
    let (p, q) = split_wildcard_alias(&chars("a/*.js"));
    assert_eq!((text(&p), text(&q)), ("a/".to_string(), ".js".to_string()));
    assert_eq!(merge_prefixes(&chars("@/c"), &chars("@/")).map(|v| text(&v)), Some("@/c".to_string()));
    assert_eq!(merge_prefixes(&chars("a"), &chars("b")), None);
    assert_eq!(merge_suffixes(&chars(""), &chars(".ts")).map(|v| text(&v)), Some(".ts".to_string()));
}

#[test]
fn alias_specificity_and_shadowing() {
    assert_eq!(alias_specificity("@app/utils"), (1, 11, 10));
    assert_eq!(alias_specificity("@app/*"), (0, 6, 6));
    assert_eq!(
        determine_shadowing_alias_pair("@app/*", "@app/utils"),
        Some(("@app/utils", "@app/*"))
    );
    assert_eq!(determine_shadowing_alias_pair("@a/*", "@b/*"), None);
    assert!(is_exact_specialization_of_wildcard_alias("@app/utils", "@app/*"));
    assert!(!is_exact_specialization_of_wildcard_alias("@/components/*", "@/*"));
    let aliases = strings(&["a*", "ab*", "@app/utils", "@app/*"]);
    assert_eq!(alias_shadowing_pairs(&aliases), vec![(1, 0)]);
}

#[test]
fn package_style_aliases_are_found() {
    assert!(is_package_name_segment("react-dom"));
    assert!(!is_package_name_segment("a b"));
    assert!(is_package_style_alias("lodash/*"));
    assert!(is_package_style_alias("@scope/pkg"));
    assert!(!is_package_style_alias("@scope"));
    assert!(!is_package_style_alias("#internal/*"));
    assert!(!is_package_style_alias("~/*"));
    assert!(!is_package_style_alias("http:x"));
    assert_eq!(package_style_aliases(&strings(&["@/*", "react", "#x"])), vec![1]);
}

#[test]
fn types_options_are_read() {
    let co = obj(vec![("types", JsonValue::Array(vec![s(" node "), s("  "), JsonValue::Bool(true), s("jest")]))]);
    match parse_types_option(&co) {
        StringListOption::Entries { values, invalid } => {
            assert_eq!(values, strings(&["node", "jest"]));
            assert_eq!(invalid, vec![1, 2]);
        }
        _ => panic!("expected entries"),
    }
    let bad = obj(vec![("typeRoots", s("./types"))]);
    assert!(matches!(parse_type_roots_option(&bad), StringListOption::NotArray));
    assert!(matches!(parse_types_option(&bad), StringListOption::Absent));
}

#[test]
fn deprecated_options_are_listed_in_table_order() {
    let co = obj(vec![("out", s("x")), ("charset", s("utf8")), ("strict", JsonValue::Bool(true))]);
    let found = deprecated_options_present(&co);
    assert_eq!(found.iter().map(|(n, _)| *n).collect::<Vec<_>>(), vec!["charset", "out"]);
    assert_eq!(found[1].1, "Use outFile if you truly need single-file emit.");
}

#[test]
fn paths_entries_are_classified() {
    let targets = JsonValue::Array(vec![s("src/*"), JsonValue::Number(JsonNumber { text: "1".to_string(), is_zero: false }), s("lib")]);
    match classify_paths_entry("@/*", &targets) {
        PathsEntryShape::Targets { non_string, strings: st, wildcard_mismatch } => {
            assert_eq!(non_string, vec![1]);
            assert_eq!(st, strings(&["src/*", "lib"]));
            assert_eq!(wildcard_mismatch, strings(&["lib"]));
        }
        PathsEntryShape::NoTargets => panic!("expected targets"),
    }
    assert!(matches!(classify_paths_entry("x", &JsonValue::Array(vec![])), PathsEntryShape::NoTargets));
    assert!(matches!(classify_paths_entry("x", &s("y")), PathsEntryShape::NoTargets));
}

#[test]
fn pattern_fields_are_read() {
    match parse_effective_pattern_field(&JsonValue::Array(vec![s("src"), JsonValue::Null])) {
        PatternFieldValues::Entries { values, invalid } => {
            assert_eq!(values, strings(&["src"]));
            assert_eq!(invalid, vec![1]);
        }
        PatternFieldValues::NotArray => panic!("expected entries"),
    }
    assert!(matches!(parse_effective_pattern_field(&s("src")), PatternFieldValues::NotArray));
}
