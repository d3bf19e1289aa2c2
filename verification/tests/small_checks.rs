use maximus_checks::config_duplicates::{
    config_source_count, duplicate_finding_text, has_mixed_eslint_modes, is_duplicated,
    ConfigFamily,
};
use maximus_checks::env_contract::{
    append_env_addition, collect_contract_groups, collect_contract_keys,
    collect_sync_target_keys, is_ambient_platform_env_key, keys_missing_from,
    local_override_keys, missing_concrete_keys, score_contract_record, sort_contract_records,
};
use maximus_checks::ignore_drift::{
    canonical_artifact_pattern, drift_detail, ignore_drift, normalize_ignore_line,
    parse_artifact_patterns,
};
use maximus_checks::json::JsonValue;
use maximus_checks::jsx_runtime::{
    detect_framework_runtime, jsx_import_source_finding, package_depends_on,
    uses_automatic_jsx_runtime, FrameworkRuntime,
};
use maximus_checks::lockfiles::{
    has_multiple_lockfiles, is_known_lockfile, lockfiles_detail, should_ignore_directory,
};
use maximus_checks::module_system::module_system_finding;
use maximus_checks::registry::Severity;
use maximus_checks::structure::{build_structure_report, count_distinct, StructureInputs};
use maximus_checks::test_runner::{
    declares_both_runners, is_vitest_config_name, package_has_jest_config,
    package_has_vitest_config, should_skip_directory, TestRunnerSources,
};

fn strings(v: &[&str]) -> Vec<String> {
    v.iter().map(|x| x.to_string()).collect()
}

fn obj(members: Vec<(&str, JsonValue)>) -> JsonValue {
    JsonValue::Object(members.into_iter().map(|(k, v)| (k.to_string(), v)).collect())
}

#[test]
fn ambient_keys_and_record_scores() {
    assert!(is_ambient_platform_env_key("VERCEL"));
    assert!(is_ambient_platform_env_key("VERCEL_ENV"));
    assert!(is_ambient_platform_env_key("TURBO_TOKEN"));
    assert!(is_ambient_platform_env_key("NX_DAEMON"));
    assert!(!is_ambient_platform_env_key("DATABASE_URL"));
    assert_eq!(score_contract_record(".env.example"), 0);
    assert_eq!(score_contract_record(".env.dist"), 3);
    assert_eq!(score_contract_record(".env.local.example"), 4);
}

#[test]
fn contract_keys_keep_first_occurrences() {
    let records = vec![strings(&["A", "B", "A"]), strings(&["C", "B", "VERCEL_URL"])];
    assert_eq!(collect_contract_keys(&records), strings(&["A", "B", "C", "VERCEL_URL"]));
    assert_eq!(collect_sync_target_keys(&records), strings(&["A", "B", "C"]));
}

#[test]
fn contract_groups_take_each_key_once() {
    let records = vec![strings(&["A", "B"]), strings(&["B", "C"]), strings(&["A"])];
    let groups = collect_contract_groups(&records, &strings(&["A", "B", "C"]));
    assert_eq!(groups, vec![(0, strings(&["A", "B"])), (1, strings(&["C"]))]);
    let only_c = collect_contract_groups(&records, &strings(&["C"]));
    assert_eq!(only_c, vec![(1, strings(&["C"]))]);
}

#[test]
fn example_files_are_ordered_by_preference_then_name() {
    let names = strings(&[".env.template", ".env.local.example", ".env.example", ".env.dev.example"]);
    assert_eq!(sort_contract_records(&names), vec![2, 0, 3, 1]);
}

#[test]
fn missing_keys_on_either_side() {
    assert_eq!(
        keys_missing_from(&strings(&["A", "B", "C"]), &strings(&["B"])),
        strings(&["A", "C"])
    );
    assert_eq!(
        missing_concrete_keys(&strings(&["A", "B", "C"]), &strings(&["A"]), &strings(&["C"])),
        strings(&["B"])
    );
}

#[test]
fn local_overrides_are_listed_in_base_order() {
    let base = vec![
        ("API".to_string(), "1".to_string()),
        ("DB".to_string(), "x".to_string()),
        ("ONLY_BASE".to_string(), "y".to_string()),
    ];
    let local = vec![("DB".to_string(), "z".to_string()), ("API".to_string(), "1".to_string())];
    assert_eq!(local_override_keys(&base, &local), strings(&["DB"]));
}

#[test]
fn additions_are_appended_on_a_new_line() {
    assert_eq!(append_env_addition("A=1", "B=\n"), "A=1\nB=\n");
    assert_eq!(append_env_addition("A=1\n", "B=\n"), "A=1\nB=\n");
    assert_eq!(append_env_addition("", "B=\n"), "B=\n");
}

#[test]
fn ignore_lines_are_normalized() {
    assert_eq!(normalize_ignore_line("/dist/"), Some("dist".to_string()));
    assert_eq!(normalize_ignore_line("./coverage  "), Some("coverage".to_string()));
    assert_eq!(normalize_ignore_line("\\#tmp"), Some("#tmp".to_string()));
    assert_eq!(normalize_ignore_line("# comment"), None);
    assert_eq!(normalize_ignore_line("!dist"), None);
    assert_eq!(normalize_ignore_line("a/b"), None);
    assert_eq!(canonical_artifact_pattern(".tmp"), Some("tmp"));
    assert_eq!(canonical_artifact_pattern("vendor"), None);
}

#[test]
fn artifact_sets_and_drift() {
    assert_eq!(
        parse_artifact_patterns("node_modules/\n.tmp\n*.tgz\nsrc/gen\n"),
        vec!["*.tgz", "node_modules", "tmp"]
    );
    let drift = ignore_drift("node_modules\ndist\n", "node_modules\ncoverage\n");
    assert_eq!(drift, vec![("coverage", false), ("dist", true)]);
    assert_eq!(
        drift_detail("dist", true, "packages/a"),
        "dist is ignored in .gitignore, but not in .maximusignore for packages/a. Maximus may still scan generated or packaged artifacts that git ignores."
    );
}

#[test]
fn lockfile_rules() {
    assert!(is_known_lockfile("pnpm-lock.yaml"));
    assert!(!is_known_lockfile("Cargo.lock"));
    assert!(should_ignore_directory(".svelte-kit"));
    assert!(!should_ignore_directory("src"));
    assert!(has_multiple_lockfiles(2));
    assert!(!has_multiple_lockfiles(1));
    assert_eq!(
        lockfiles_detail(&strings(&["package-lock.json", "yarn.lock"]), "."),
        "Found 2 known lockfiles in .: package-lock.json, yarn.lock."
    );
}

#[test]
fn test_runner_rules() {
    assert!(is_vitest_config_name("vitest.config.mts"));
    assert!(!is_vitest_config_name("vite.config.ts"));
    assert!(should_skip_directory("coverage"));
    assert!(!should_skip_directory("tests"));
    let pkg = obj(vec![("jest", obj(vec![]))]);
    assert!(package_has_jest_config(&pkg));
    assert!(!package_has_vitest_config(&pkg));
    let both = TestRunnerSources { jest_file: false, vitest_file: true, package_jest: true, package_vitest: false };
    assert!(declares_both_runners(&both));
    let one = TestRunnerSources { jest_file: true, vitest_file: false, package_jest: true, package_vitest: false };
    assert!(!declares_both_runners(&one));
}

#[test]
fn jsx_runtime_rules() {
    let preact = obj(vec![("peerDependencies", obj(vec![("preact", JsonValue::Null)]))]);
    assert!(package_depends_on(&preact, "preact"));
    assert_eq!(detect_framework_runtime(&preact), Some(FrameworkRuntime::Preact));
    let solid = obj(vec![("dependencies", obj(vec![("solid-js", JsonValue::Null)]))]);
    assert_eq!(detect_framework_runtime(&solid), Some(FrameworkRuntime::Solid));
    assert_eq!(detect_framework_runtime(&obj(vec![])), None);
    assert!(uses_automatic_jsx_runtime(Some("react-jsxdev")));
    assert!(!uses_automatic_jsx_runtime(Some("preserve")));
    assert!(!uses_automatic_jsx_runtime(None));
    assert!(jsx_import_source_finding("/r/tsconfig.json", FrameworkRuntime::Preact, Some("react-jsx"), Some("preact")).is_none());
    assert!(jsx_import_source_finding("/r/tsconfig.json", FrameworkRuntime::Preact, Some("preserve"), None).is_none());
    let f = jsx_import_source_finding("/r/tsconfig.json", FrameworkRuntime::Solid, Some("react-jsx"), Some("react")).unwrap();
    assert_eq!(f.id, "jsx-config:/r/tsconfig.json");
    assert_eq!(f.file, "/r/tsconfig.json");
    assert_eq!(f.severity, Severity::Info);
    assert_eq!(f.title, "solid-js JSX runtime should declare jsxImportSource");
    assert_eq!(
        f.detail,
        "package.json depends on solid-js, but compilerOptions.jsxImportSource is missing or different. It currently points at react."
    );
    assert_eq!(
        f.hint,
        "Set compilerOptions.jsxImportSource to \"solid-js\" so the JSX transform matches the framework runtime."
    );
}

#[test]
fn module_system_conflicts() {
    let f = module_system_finding("module", Some("commonjs")).unwrap();
    assert_eq!(f.severity, Severity::Error);
    assert_eq!(f.detail, "package.json type is \"module\", but compilerOptions.module is \"commonjs\".");
    let g = module_system_finding("commonjs", Some("esnext")).unwrap();
    assert_eq!(g.severity, Severity::Warn);
    assert_eq!(g.title, "Package CommonJS type conflicts with tsconfig module output");
    assert!(module_system_finding("module", Some("esnext")).is_none());
    assert!(module_system_finding("module", None).is_none());
}

#[test]
fn duplicate_config_rules() {
    assert_eq!(config_source_count(1, true), Some(2));
    assert_eq!(config_source_count(1, false), Some(1));
    assert!(is_duplicated(2));
    assert!(!is_duplicated(1));
    assert_eq!(ConfigFamily::Prettier.package_field(), "prettier");
    assert_eq!(ConfigFamily::Eslint.duplicate_severity(), Severity::Error);
    assert_eq!(ConfigFamily::Jest.duplicate_severity(), Severity::Warn);
    let t = duplicate_finding_text(ConfigFamily::Eslint, 3, "apps/web");
    assert_eq!(t.title, "ESLint config is declared in multiple places");
    assert_eq!(t.detail, "Found 3 ESLint config sources in apps/web.");
    assert_eq!(t.hint, "Keep a single ESLint entry point per directory to avoid drift.");
    assert!(has_mixed_eslint_modes(&strings(&[".eslintrc.json", "eslint.config.mjs"])));
    assert!(!has_mixed_eslint_modes(&strings(&[".eslintrc.json", ".eslintrc.js"])));
}

#[test]
fn structure_summary() {
    assert_eq!(count_distinct(&strings(&["a", "b", "a"])), 2);
    let inputs = StructureInputs {
        package_count: 3,
        env_directories: 2,
        config_files: 9,
        has_shared_tsconfig: false,
        has_root_env_example: false,
        eslint_config_count: 1,
        no_findings: true,
    };
    let r = build_structure_report(&inputs);
    assert!(r.is_monorepo);
    assert_eq!(r.config_files, 9);
    assert_eq!(
        r.recommendations,
        vec![
            "Introduce a shared tsconfig.base.json so packages inherit one source of truth.",
            "Use .env.example files consistently so onboarding does not depend on tribal knowledge.",
            "Current config surface looks healthy. Keep shared rules centralized as the repo grows.",
        ]
    );
}

#[test]
fn a_second_sync_adds_nothing() {
    let keys = strings(&["A", "B", "C"]);
    let mut example = strings(&["B"]);
    let missing = keys_missing_from(&keys, &example);
    assert_eq!(missing, strings(&["A", "C"]));
    example.extend(missing);
    assert!(keys_missing_from(&keys, &example).is_empty());
}
