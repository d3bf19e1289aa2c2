use maximus_checks::editorconfig_prettier::{
    normalize_prettier_value, prettier_values_from_json,
    find_conflicts, find_js_property_value, get_setting, parse_editorconfig_values,
    parse_positive_number, parse_simple_js_value, prettier_values_from_text,
    strip_editorconfig_comment,
};
use maximus_checks::eslint_prettier::{
    contains_property_name, contains_word, eslint_prettier_relation, is_word_char,
    EslintPrettierRelation,
};
use maximus_checks::gitignore::{
    directory_ancestors, gitignore_pattern_matches, is_path_protected_by_exact_gitignore,
    normalize_gitignore_pattern, normalize_path, parse_exact_gitignore_patterns,
};
use maximus_checks::glob::{
    ancestor_directory_paths, contains_glob, files_entry_includes_file, glob_matches,
    path_component_matches, path_starts_with, segment_glob_matches,
};
use maximus_checks::json::{get, has_object_key, is_js_truthy_json_value, section_has_key, JsonNumber, JsonValue};
use maximus_checks::node_matrix::{
    comparator_major, engine_range_tokens, is_standalone_comparator, is_workflow_file,
    major_at_start, node_matrix_detail, parse_engine_range, parse_engine_requirement,
    parse_workflow_node_versions, render_node_majors, split_yaml_key_value, strip_yaml_comment,
};
use maximus_checks::npmignore_files::{
    final_ignoring_pattern, normalize_files_entry, parse_npmignore_patterns,
    pattern_matches_files_entry,
};
use maximus_checks::registry::{
    apply_config_suppressions, classify_env_ignore_pattern, env_rediscovery_gitignore_pattern,
    rediscovery_pattern_text,
    glob_pattern_can_match_env_file_name, is_env_specific_glob_pattern, normalize_file_prefix,
    path_matches_prefix, registered_check_ids, severity_override_for, should_run_check,
    suppression_matches, unique_planned_fixes, EnvIgnorePattern, Severity,
};
use maximus_checks::registry::{finding_file_candidates, is_suppressed_by_config, push_relative_candidate};
use maximus_checks::paths::{path_to_slash_string, strip_root_text};

fn strings(v: &[&str]) -> Vec<String> {
    v.iter().map(|x| x.to_string()).collect()
}

fn pairs(v: &[(&str, &str)]) -> Vec<(String, String)> {
    v.iter().map(|(a, b)| (a.to_string(), b.to_string())).collect()
}

#[test]
fn registry_lists_every_check_in_order() {
    let ids = registered_check_ids();
    assert_eq!(ids.len(), 16);
    assert_eq!(ids[15], "npmignore-files");
    assert_eq!(ids[0], "duplicates");
    assert_eq!(ids[1], "env");
    assert!(ids.contains(&"workspace-config"));
}

#[test]
fn check_filters() {
    assert!(should_run_check("env", &[], &[]));
    assert!(should_run_check("env", &strings(&["env"]), &[]));
    assert!(!should_run_check("tsconfig", &strings(&["env"]), &[]));
    assert!(!should_run_check("env", &[], &strings(&["env"])));
}

#[test]
fn the_longest_override_prefix_wins() {
    let overrides = vec![
        ("env".to_string(), Severity::Info),
        ("env-duplicate".to_string(), Severity::Error),
        ("  ".to_string(), Severity::Warn),
    ];
    assert_eq!(severity_override_for("env-duplicate:x", &overrides), Some(Severity::Error));
    assert_eq!(severity_override_for("env-invalid:x", &overrides), Some(Severity::Info));
    assert_eq!(severity_override_for("tsconfig:x", &overrides), None);
}

#[test]
fn file_prefixes_and_suppressions() {
    assert_eq!(normalize_file_prefix(" ./apps\\web/ "), Some("apps/web".to_string()));
    assert_eq!(normalize_file_prefix("./"), None);
    assert!(path_matches_prefix("apps/web/src/a.ts", "apps/web"));
    assert!(path_matches_prefix("apps/web", "apps/web"));
    assert!(!path_matches_prefix("apps/webapp/a.ts", "apps/web"));
    let cands = strings(&["/repo/apps/web/.env", "apps/web/.env"]);
    assert!(suppression_matches("env-gitignore", Some("apps/web".to_string()), "env-gitignore", Some(&cands)));
    assert!(!suppression_matches("env-gitignore", Some("apps/api".to_string()), "env-gitignore", Some(&cands)));
    assert!(suppression_matches("x", None, "x", None));
    assert!(!suppression_matches("x", Some("a".to_string()), "x", None));
    assert!(!suppression_matches("x", None, "y", None));
}

#[test]
fn suppressed_findings_take_their_fixes_with_them() {
    let hidden = vec![true, false];
    let fixes = vec![strings(&["fix-a"]), strings(&["fix-b"])];
    let r = apply_config_suppressions(&hidden, &fixes, &strings(&["fix-a", "fix-b"]), &strings(&["fix-b", "fix-c"]));
    assert_eq!(r.suppressed, 1);
    assert_eq!(r.kept_findings, vec![false, true]);
    assert_eq!(r.kept_fixes, vec![false, true]);
    assert_eq!(r.kept_planned, vec![true, false]);
    let none = apply_config_suppressions(&vec![false], &vec![vec![]], &strings(&["fix-z"]), &vec![]);
    assert_eq!(none.suppressed, 0);
    assert_eq!(none.kept_fixes, vec![true]);
    assert_eq!(unique_planned_fixes(&strings(&["p", "q", "p"])), vec![0, 1]);
}

#[test]
fn env_names_under_ignore_globs() {
    assert!(is_env_specific_glob_pattern(".env*"));
    assert!(is_env_specific_glob_pattern("*.env"));
    assert!(!is_env_specific_glob_pattern("*.log"));
    assert!(glob_pattern_can_match_env_file_name(".env*"));
    assert!(glob_pattern_can_match_env_file_name(".env.*.local"));
    assert!(!glob_pattern_can_match_env_file_name(".envrc*x"));
    assert!(matches!(classify_env_ignore_pattern("!.env"), EnvIgnorePattern::NotEnv));
    assert!(matches!(classify_env_ignore_pattern(".env/"), EnvIgnorePattern::NotEnv));
    assert!(matches!(classify_env_ignore_pattern("/apps/.env*"), EnvIgnorePattern::EnvGlob));
    assert!(matches!(classify_env_ignore_pattern("*.log"), EnvIgnorePattern::NotEnv));
    match classify_env_ignore_pattern("apps/web/.env.local  ") {
        EnvIgnorePattern::Literal(name) => assert_eq!(name, ".env.local"),
        _ => panic!("expected a literal name"),
    }
    assert_eq!(rediscovery_pattern_text(".env.local/ ", true), ".env.local/");
    assert_eq!(rediscovery_pattern_text("dist", false), "dist");
    assert_eq!(env_rediscovery_gitignore_pattern(".env*", false).as_deref(), Some(".env*/"));
    assert_eq!(env_rediscovery_gitignore_pattern("config/.env.*", false).as_deref(), Some("config/.env.*/"));
    assert_eq!(env_rediscovery_gitignore_pattern("*.log", false).as_deref(), Some("*.log"));
    assert_eq!(env_rediscovery_gitignore_pattern("!.env*", true).as_deref(), Some("!.env*"));
    assert_eq!(env_rediscovery_gitignore_pattern("apps/.env.local", true).as_deref(), Some("apps/.env.local/"));
    assert_eq!(env_rediscovery_gitignore_pattern("README.md", false).as_deref(), Some("README.md"));
}

#[test]
fn glob_segments() {
    assert!(contains_glob("a?"));
    assert!(segment_glob_matches("*.js", "index.js"));
    assert!(segment_glob_matches("?.js", "a.js"));
    assert!(!segment_glob_matches("?.js", "ab.js"));
    assert!(segment_glob_matches("lib", "lib"));
    assert!(glob_matches("src/**/*.ts", "src/a/b/c.ts"));
    assert!(glob_matches("src/**", "src"));
    assert!(glob_matches("/dist/", "dist"));
    assert!(!glob_matches("src/*.ts", "src/a/b.ts"));
    assert_eq!(ancestor_directory_paths("a/b/c.js"), strings(&["a", "a/b"]));
    assert_eq!(ancestor_directory_paths("c.js"), Vec::<String>::new());
    assert!(path_starts_with("dist/a.js", "dist"));
    assert!(!path_starts_with("distro/a.js", "dist"));
    assert!(path_component_matches("src/test/a.js", "te*"));
    assert!(files_entry_includes_file("dist", "dist/index.js"));
    assert!(files_entry_includes_file("lib/*", "lib/a/b.js"));
    assert!(!files_entry_includes_file("lib/*.d.ts", "lib/a.js"));
}

#[test]
fn npmignore_patterns_are_parsed_and_applied() {
    let patterns = parse_npmignore_patterns("# c\n/dist/\n*.map\n!keep.map\n\\!odd\n./src/\n");
    assert_eq!(patterns.len(), 5);
    assert!(patterns[0].directory_only && patterns[0].anchored);
    assert_eq!(patterns[0].normalized, "dist");
    assert!(patterns[2].negated);
    assert_eq!(patterns[2].normalized, "keep.map");
    assert!(!patterns[3].negated);
    assert_eq!(patterns[3].normalized, "!odd");
    assert_eq!(patterns[4].normalized, "src");
    assert!(pattern_matches_files_entry(&patterns[0], "dist/index.js"));
    assert!(!pattern_matches_files_entry(&patterns[0], "dist"));
    assert!(pattern_matches_files_entry(&patterns[1], "lib/a.map"));
    assert_eq!(final_ignoring_pattern("lib/a.map", &patterns).map(|p| p.raw.clone()), Some("*.map".to_string()));
    assert!(final_ignoring_pattern("keep.map", &patterns).is_none());
    assert!(final_ignoring_pattern("README.md", &patterns).is_none());
    assert_eq!(normalize_files_entry(" ./dist/ "), Some("dist".to_string()));
    assert_eq!(normalize_files_entry("!x"), None);
    assert_eq!(normalize_files_entry("/"), None);
}

#[test]
fn gitignore_rules() {
    assert!(gitignore_pattern_matches(".env*", ".env.local"));
    assert!(gitignore_pattern_matches("**/.env", "apps/web/.env"));
    assert!(gitignore_pattern_matches("a/**/b", "a/x/y/b"));
    assert!(!gitignore_pattern_matches("*.env", "a/b.env"));
    // brackets are literal characters
    assert!(!gitignore_pattern_matches("[ab].txt", "b.txt"));
    assert!(gitignore_pattern_matches("?.txt", "b.txt"));
    let n = normalize_gitignore_pattern("/apps/web/").unwrap();
    assert!(n.anchored && n.directory_only);
    assert_eq!(n.value, "apps/web");
    assert!(normalize_gitignore_pattern("/").is_none());
    let parsed = parse_exact_gitignore_patterns(".env\n!.env.example\n");
    assert_eq!(parsed.len(), 2);
    assert!(parsed[1].negated);
    assert_eq!(directory_ancestors("a/b/c"), strings(&["a", "a/b", "a/b/c"]));
    assert_eq!(normalize_path("a\\b"), "a/b");
    let ignored = pairs(&[(".env", ".env\n")]);
    assert!(is_path_protected_by_exact_gitignore(&ignored, ".env"));
    let sources = pairs(&[(".env", ".env\n"), (".env", "!.env\n")]);
    assert!(!is_path_protected_by_exact_gitignore(&sources, ".env"));
    let nested = pairs(&[("apps/web/.env", "**/.env\n")]);
    assert!(is_path_protected_by_exact_gitignore(&nested, ".env"));
    let protected = pairs(&[("", ".env*\n!.env.example\n")]);
    assert!(is_path_protected_by_exact_gitignore(&protected, ".env.local"));
}

#[test]
fn engine_requirements() {
    assert_eq!(major_at_start("18.2"), Some(18));
    assert_eq!(major_at_start("x"), None);
    assert_eq!(comparator_major(">=v20", ">="), Some(20));
    assert!(is_standalone_comparator("<="));
    assert_eq!(engine_range_tokens(">= 18, < 22"), strings(&[">=18", "<22"]));
    let r = parse_engine_range(">=18 <22").unwrap();
    assert_eq!((r.min_major, r.max_major), (Some(18), Some(21)));
    assert!(parse_engine_range(">=22 <18").is_none());
    assert!(parse_engine_range("latest").is_none());
    let caret = parse_engine_range("^20.1").unwrap();
    assert_eq!((caret.min_major, caret.max_major), (Some(20), Some(20)));
    let req = parse_engine_requirement("^18 || >=20").unwrap();
    assert!(req.supports(18));
    assert!(!req.supports(19));
    assert!(req.supports(22));
    assert_eq!(req.required_majors(), vec![18, 20]);
    assert!(parse_engine_requirement("*").is_none());
}

#[test]
fn node_matrix_details() {
    assert_eq!(render_node_majors(&[18, 20]), "Node 18, Node 20");
    assert_eq!(
        node_matrix_detail(">=18", &[16, 18, 20]),
        Some("package.json engines.node is \">=18\", while GitHub Actions declares Node 16, Node 18, Node 20: the Actions matrix includes unsupported Node 16.".to_string())
    );
    assert_eq!(
        node_matrix_detail("^18 || ^20", &[20]),
        Some("package.json engines.node is \"^18 || ^20\", while GitHub Actions declares Node 20: the Actions matrix does not include supported Node 18.".to_string())
    );
    assert_eq!(node_matrix_detail(">=18", &[18, 20]), None);
    assert_eq!(
        node_matrix_detail(">=18", &[]),
        Some("package.json engines.node is \">=18\", but no concrete GitHub Actions Node versions were found.".to_string())
    );
}

#[test]
fn workflow_versions() {
    let yaml = "jobs:\n  test:\n    strategy:\n      matrix:\n        node-version: [18.x, '20'] # lts\n    steps:\n      - uses: actions/setup-node@v4\n        with:\n          node-version: 22\n";
    assert_eq!(parse_workflow_node_versions(yaml), vec![18, 20, 22]);
    let seq = "matrix:\n  node:\n    - 16\n    - v18\n  os: [ubuntu]\n";
    assert_eq!(parse_workflow_node_versions(seq), vec![16, 18]);
    assert_eq!(strip_yaml_comment("a: '#x' # y"), "a: '#x' ");
    assert_eq!(split_yaml_key_value(" k : v "), Some(("k".to_string(), "v".to_string())));
    assert!(is_workflow_file(".github/workflows/ci.yml"));
    assert!(!is_workflow_file("ci.json"));
}

#[test]
fn editorconfig_and_prettier_values() {
    assert_eq!(strip_editorconfig_comment("indent_size = 2 ; x"), "indent_size = 2 ");
    let ec = parse_editorconfig_values("root = true\nIndent_Style = Space\nindent_size=2\n[*.md]\nindent_size=4\n");
    assert_eq!(get_setting(&ec, "indent_style"), Some("space".to_string()));
    assert_eq!(get_setting(&ec, "indent_size"), Some("2".to_string()));
    assert_eq!(parse_simple_js_value("'LF', x"), Some("lf".to_string()));
    assert_eq!(parse_simple_js_value("100,"), Some("100".to_string()));
    assert_eq!(parse_simple_js_value(",x"), None);
    assert_eq!(find_js_property_value("module.exports = { \"tabWidth\": 4 }", "tabWidth"), Some("4".to_string()));
    let pv = prettier_values_from_text("export default { useTabs: true, printWidth: 100 }");
    assert_eq!(get_setting(&pv, "useTabs"), Some("true".to_string()));
    assert_eq!(get_setting(&pv, "printWidth"), Some("100".to_string()));
    assert_eq!(parse_positive_number("+8"), Some(8));
    assert_eq!(parse_positive_number("-8"), None);
    assert_eq!(parse_positive_number("18446744073709551616"), None);
}

#[test]
fn editorconfig_prettier_conflicts() {
    let ec = pairs(&[("indent_style", "space"), ("indent_size", "2"), ("end_of_line", "lf"), ("max_line_length", "off")]);
    let pr = pairs(&[("useTabs", "true"), ("tabWidth", "2"), ("endOfLine", "crlf"), ("printWidth", "80")]);
    let c = find_conflicts(&ec, &pr);
    assert_eq!(c.len(), 2);
    assert_eq!(c[0].editorconfig_key, "indent_style");
    assert_eq!(c[0].prettier_value, "true");
    assert_eq!(c[1].prettier_key, "endOfLine");
}

#[test]
fn eslint_prettier_relations() {
    assert!(is_word_char(Some('é')));
    assert!(!is_word_char(Some('-')));
    assert!(!is_word_char(None));
    assert!(contains_property_name("{ \"semi\" : 1 }", "semi"));
    assert!(!contains_property_name("{ \"semi-style\": 1 }", "semi"));
    assert!(contains_word("extends: ['prettier']", "prettier"));
    assert!(!contains_word("eslint-plugin-prettierx", "prettier"));
    let conflict = eslint_prettier_relation(&strings(&["{ \"rules\": { \"quotes\": 1 } }"]), &strings(&["{}"]));
    assert_eq!(conflict, Some(EslintPrettierRelation::FormattingConflict));
    let separate = eslint_prettier_relation(&strings(&["{ \"rules\": {} }"]), &strings(&["{}"]));
    assert_eq!(separate, Some(EslintPrettierRelation::Separate));
    let bridged = eslint_prettier_relation(&strings(&["{ \"extends\": [\"prettier\"], \"rules\": { \"semi\": 1 } }"]), &strings(&["{}"]));
    assert_eq!(bridged, None);
    assert_eq!(eslint_prettier_relation(&strings(&["x"]), &vec![]), None);
}

#[test]
fn json_model_lookups() {
    let v = JsonValue::Object(vec![
        ("a".to_string(), JsonValue::Bool(false)),
        ("dependencies".to_string(), JsonValue::Object(vec![("react".to_string(), JsonValue::Null)])),
        ("a".to_string(), JsonValue::Bool(true)),
    ]);
    assert!(matches!(get(&v, "a"), Some(JsonValue::Bool(true))));
    assert!(has_object_key(&v, "dependencies"));
    assert!(section_has_key(&v, "dependencies", "react"));
    assert!(!section_has_key(&v, "a", "react"));
    assert!(!is_js_truthy_json_value(&JsonValue::Number(JsonNumber { text: "0".to_string(), is_zero: true })));
    assert!(is_js_truthy_json_value(&JsonValue::Array(vec![])));
    assert!(!is_js_truthy_json_value(&JsonValue::Text(String::new())));
}

#[test]
fn prettier_json_values_are_read() {
    let num = |t: &str| JsonValue::Number(JsonNumber { text: t.to_string(), is_zero: t == "0" });
    assert_eq!(normalize_prettier_value(&JsonValue::Bool(true)), Some("true".to_string()));
    assert_eq!(normalize_prettier_value(&num("2")), Some("2".to_string()));
    assert_eq!(normalize_prettier_value(&JsonValue::Text("CRLF".to_string())), Some("crlf".to_string()));
    assert_eq!(normalize_prettier_value(&JsonValue::Null), None);
    let config = JsonValue::Object(vec![
        ("semi".to_string(), JsonValue::Bool(false)),
        ("useTabs".to_string(), JsonValue::Bool(false)),
        ("endOfLine".to_string(), JsonValue::Text("LF".to_string())),
        ("tabWidth".to_string(), JsonValue::Array(vec![])),
        ("printWidth".to_string(), num("100")),
    ]);
    assert_eq!(
        prettier_values_from_json(&config),
        vec![
            ("useTabs".to_string(), "false".to_string()),
            ("endOfLine".to_string(), "lf".to_string()),
            ("printWidth".to_string(), "100".to_string()),
        ]
    );
    assert!(prettier_values_from_json(&JsonValue::Array(vec![])).is_empty());
}

#[test]
fn finding_files_are_spelled_every_way_a_prefix_may_name_them() {
    let roots = vec![
        ("/repo".to_string(), Some("/real/repo".to_string())),
        ("/repo/packages".to_string(), None),
    ];
    let cs = finding_file_candidates("/repo/packages/a/.env", Some("/real/repo/packages/a/.env".to_string()), &roots);
    assert_eq!(
        cs,
        strings(&[
            "/repo/packages/a/.env",
            "/real/repo/packages/a/.env",
            "packages/a/.env",
            "a/.env",
        ])
    );
    let cs = finding_file_candidates("/elsewhere/.env", None, &roots);
    assert_eq!(cs, strings(&["/elsewhere/.env"]));
    let cs = finding_file_candidates("C:\\repo\\.env", None, &[]);
    assert_eq!(cs, strings(&["C:/repo/.env"]));
}

#[test]
fn relative_candidates_are_added_once() {
    let mut cs = strings(&["a/.env"]);
    push_relative_candidate(&mut cs, "/repo/a/.env", Some("/repo/a/.env"), "/repo", Some("/repo"));
    assert_eq!(cs, strings(&["a/.env"]));
    push_relative_candidate(&mut cs, "/repo/a/.env", None, "/repo/a", Some("/repo/a"));
    assert_eq!(cs, strings(&["a/.env", ".env"]));
    push_relative_candidate(&mut cs, "/repo/a/.env", None, "/other", None);
    assert_eq!(cs, strings(&["a/.env", ".env"]));
}

#[test]
fn roots_are_stripped_by_whole_parts() {
    assert_eq!(strip_root_text("/repo/a/b.ts", "/repo"), Some("a/b.ts".to_string()));
    assert_eq!(strip_root_text("/repo", "/repo"), Some(String::new()));
    assert_eq!(strip_root_text("/repository/a", "/repo"), None);
    assert_eq!(strip_root_text("repo/a", "/repo"), None);
    assert_eq!(path_to_slash_string("a\\b/c"), "a/b/c");
}

#[test]
fn any_matching_suppression_hides_a_finding() {
    let sups = vec![
        ("env-example-missing".to_string(), Some("packages/b".to_string())),
        ("env-example-sync".to_string(), None),
    ];
    let files = strings(&["/repo/packages/a/.env", "packages/a/.env"]);
    assert!(is_suppressed_by_config(&sups, "env-example-sync", Some(&files)));
    assert!(!is_suppressed_by_config(&sups, "env-example-missing", Some(&files)));
    let other = strings(&["packages/b/.env"]);
    assert!(is_suppressed_by_config(&sups, "env-example-missing", Some(&other)));
    assert!(!is_suppressed_by_config(&sups, "env-example-missing", None));
    assert!(!is_suppressed_by_config(&[], "env-example-sync", Some(&files)));
}
