use maximus_checks::import_paths::{
    collect_import_targets, import_conflict_detail, import_conflict_title, import_paths_conflict,
    import_target_text, normalize_comparable_target, normalize_import_targets,
    select_effective_tsconfig_target,
};
use maximus_checks::json::{JsonNumber, JsonValue};
use maximus_checks::paths::{file_name_of, file_stem_of, resolve_path, PathBase};
use maximus_checks::tsconfig_rules::{
    invalid_composite_type_issue, is_known_non_tsconfig_file, is_ts_pattern_candidate_file,
    looks_like_explicit_tsconfig_target_file, looks_like_tsconfig_document,
    looks_like_tsconfig_file_name, ts_pattern_extensions,
};

fn obj(members: Vec<(&str, JsonValue)>) -> JsonValue {
    JsonValue::Object(members.into_iter().map(|(k, v)| (k.to_string(), v)).collect())
}

fn s(v: &str) -> JsonValue {
    JsonValue::Text(v.to_string())
}

fn strings(v: &[&str]) -> Vec<String> {
    v.iter().map(|x| x.to_string()).collect()
}

#[test]
fn file_names_and_stems() {
    assert_eq!(file_name_of("/a/b/tsconfig.json"), Some("tsconfig.json".to_string()));
    assert_eq!(file_name_of("foo.txt/."), Some("foo.txt".to_string()));
    assert_eq!(file_name_of("a/.."), None);
    assert_eq!(file_name_of("/"), None);
    assert_eq!(file_stem_of("a/tsconfig.build.json"), Some("tsconfig.build".to_string()));
    assert_eq!(file_stem_of(".env"), Some(".env".to_string()));
    assert_eq!(file_stem_of("a."), Some("a".to_string()));
    assert_eq!(file_stem_of("noext"), Some("noext".to_string()));
    assert_eq!(file_stem_of(""), None);
}

#[test]
fn paths_resolve_against_a_directory() {
    assert_eq!(resolve_path(&PathBase::from_path("/repo"), "./src/../lib"), "/repo/lib");
    assert_eq!(resolve_path(&PathBase::from_path("/repo"), "/abs//x/"), "/abs/x");
    assert_eq!(resolve_path(&PathBase::from_path(""), "../../x"), "../x");
    assert_eq!(resolve_path(&PathBase::from_path("pkg"), "../.."), "..");
    assert_eq!(resolve_path(&PathBase::from_path("/"), "../x"), "/x");
    assert_eq!(resolve_path(&PathBase::from_path("/"), ".."), "/");
    assert_eq!(resolve_path(&PathBase::from_path("a"), "."), "a");
    assert_eq!(resolve_path(&PathBase::from_path(""), "."), ".");
}

#[test]
fn tsconfig_file_names_are_recognized() {
    assert!(looks_like_tsconfig_file_name("x/tsconfig.app.json"));
    assert!(looks_like_tsconfig_file_name("tsconfig.json"));
    assert!(!looks_like_tsconfig_file_name("x/tsconfig-base.json"));
    assert!(looks_like_explicit_tsconfig_target_file("build.json"));
    assert!(looks_like_explicit_tsconfig_target_file("configs/tsconfig-base.json"));
    assert!(!looks_like_explicit_tsconfig_target_file("package.json"));
    assert!(!looks_like_explicit_tsconfig_target_file("other.json"));
    assert!(is_known_non_tsconfig_file("a/npm-shrinkwrap.json"));
    assert!(!is_known_non_tsconfig_file("a/tsconfig.json"));
}

#[test]
fn tsconfig_documents_are_recognized() {
    let with_options = obj(vec![("compilerOptions", obj(vec![]))]);
    assert!(looks_like_tsconfig_document("a/x.json", &with_options));
    assert!(!looks_like_tsconfig_document("package.json", &with_options));
    assert!(!looks_like_tsconfig_document("x.json", &obj(vec![])));
    assert!(looks_like_tsconfig_document("tsconfig.json", &obj(vec![])));
    assert!(looks_like_tsconfig_document("tsconfig-lib.json", &obj(vec![])));
    assert!(!looks_like_tsconfig_document("x.json", &JsonValue::Array(vec![])));
    assert!(!looks_like_tsconfig_document("x.json", &obj(vec![("name", s("x"))])));
    assert!(looks_like_tsconfig_document("x.json", &obj(vec![("$schema", s("x"))])));
}

#[test]
fn pattern_candidates_match_extensions() {
    let ts = ts_pattern_extensions(false);
    assert_eq!(ts.len(), 7);
    let js = ts_pattern_extensions(true);
    assert_eq!(js.len(), 11);
    assert!(is_ts_pattern_candidate_file("src\\a.d.ts", &ts));
    assert!(!is_ts_pattern_candidate_file("src/a.js", &ts));
    assert!(is_ts_pattern_candidate_file("src/a.js", &js));
}

#[test]
fn composite_issues_name_the_file() {
    let direct = invalid_composite_type_issue("/r/tsconfig.json", true);
    assert_eq!(direct.suffix, "composite-type");
    assert_eq!(
        direct.detail,
        "/r/tsconfig.json declares compilerOptions.composite, but the value is not a boolean."
    );
    let inherited = invalid_composite_type_issue("/r/base.json", false);
    assert_eq!(inherited.suffix, "extends-composite-type");
    assert_eq!(
        inherited.title,
        "Inherited tsconfig must set compilerOptions.composite to a boolean"
    );
}

#[test]
fn import_targets_are_collected_in_order() {
    let nested = obj(vec![
        ("node", s("./a.js")),
        (
            "default",
            obj(vec![
                ("import", s("./b.mjs")),
                ("n", JsonValue::Number(JsonNumber { text: "5".to_string(), is_zero: false })),
            ]),
        ),
        ("again", s("a.js")),
    ]);
    assert_eq!(collect_import_targets(&nested), strings(&["./a.js", "./b.mjs", "a.js"]));
    assert_eq!(collect_import_targets(&s("./x")), strings(&["./x"]));
    assert!(collect_import_targets(&JsonValue::Null).is_empty());
    let pkg = PathBase::from_path("/pkg");
    assert_eq!(normalize_import_targets(&pkg, &nested), strings(&["/pkg/a.js", "/pkg/b.mjs"]));
    assert_eq!(normalize_comparable_target(&pkg, ""), None);
    assert_eq!(normalize_comparable_target(&pkg, "x\\y"), Some("/pkg/x/y".to_string()));
}

#[test]
fn the_first_existing_tsconfig_target_counts() {
    let targets = vec![JsonValue::Null, s("a"), s("b")];
    assert_eq!(
        select_effective_tsconfig_target(&targets, &[false, false, true]),
        Some("b".to_string())
    );
    assert_eq!(
        select_effective_tsconfig_target(&targets, &[false, false, false]),
        Some("a".to_string())
    );
    assert_eq!(select_effective_tsconfig_target(&targets, &[]), Some("a".to_string()));
    assert_eq!(select_effective_tsconfig_target(&[JsonValue::Null], &[true]), None);
}

#[test]
fn import_and_paths_conflicts() {
    let paths = obj(vec![
        ("#utils/*", JsonValue::Array(vec![s("./src/utils/*")])),
        ("#bad", s("./x")),
    ]);
    let dir = PathBase::from_path("/pkg");
    assert_eq!(
        import_paths_conflict("#utils/*", &s("./src/utils/*"), &paths, &[false], &dir, &dir),
        None
    );
    assert_eq!(
        import_paths_conflict("#utils/*", &s("./lib/utils/*"), &paths, &[false], &dir, &dir),
        Some("./src/utils/*".to_string())
    );
    let conditions = obj(vec![("node", s("./lib/x")), ("default", s("./src/utils/*"))]);
    assert_eq!(import_paths_conflict("#utils/*", &conditions, &paths, &[], &dir, &dir), None);
    assert_eq!(import_paths_conflict("#missing", &s("./a"), &paths, &[], &dir, &dir), None);
    assert_eq!(import_paths_conflict("#bad", &s("./a"), &paths, &[], &dir, &dir), None);
    assert_eq!(
        import_paths_conflict("#utils/*", &JsonValue::Null, &paths, &[false], &dir, &dir),
        None
    );
    assert_eq!(
        import_conflict_title("#utils/*"),
        "Alias \"#utils/*\" differs between tsconfig and package imports"
    );
    assert_eq!(
        import_conflict_detail("./src/utils/*", "./lib/utils/*"),
        "tsconfig resolves to ./src/utils/*, while package.json imports resolves to ./lib/utils/*."
    );
    assert_eq!(import_target_text(&s("./a")), Some("./a".to_string()));
    assert_eq!(import_target_text(&JsonValue::Null), None);
}

#[test]
fn resolving_twice_changes_nothing() {
    let here = PathBase::from_path("");
    for target in ["../../x/./y/..", "/a/../../b", "a/b/../../..", "./x//y/"] {
        let once = resolve_path(&here, target);
        assert_eq!(resolve_path(&here, &once), once);
    }
}

#[test]
fn directories_are_shown_below_the_root() {
    assert_eq!(maximus_checks::lockfiles::relative_display_dir("/repo", "/repo/packages/a"), "packages/a");
    assert_eq!(maximus_checks::lockfiles::relative_display_dir("/repo", "/repo"), ".");
    assert_eq!(maximus_checks::lockfiles::relative_display_dir("/repo", "/other\\x"), "/other\\x");
    assert_eq!(maximus_checks::lockfiles::relative_display_dir("/repo", "/repo/a\\b"), "a/b");
}

#[test]
fn env_paths_are_shown_below_the_root() {
    assert_eq!(maximus_checks::env_findings::relative_display_path("/repo", "/repo/apps/web/.env"), "apps/web/.env");
    assert_eq!(maximus_checks::env_findings::relative_display_path("/repo", "/repo"), ".");
    assert_eq!(maximus_checks::env_findings::relative_display_path("/repo", "/tmp/.env"), "/tmp/.env");
    assert_eq!(maximus_checks::env_findings::relative_display_path("/repo", "/repo/a\\b"), "a\\b");
}

#[test]
fn package_relative_paths_need_the_package_base() {
    assert_eq!(maximus_checks::npmignore_files::relative_path("/pkg", "/pkg/dist/index.js"), Some("dist/index.js".to_string()));
    assert_eq!(maximus_checks::npmignore_files::relative_path("/pkg", "/pkg"), Some(String::new()));
    assert_eq!(maximus_checks::npmignore_files::relative_path("/pkg", "/other/index.js"), None);
}

#[test]
fn entrypoint_paths_are_shown_with_a_leading_dot() {
    assert_eq!(maximus_checks::entrypoint_paths::display_relative_path("/pkg", "/pkg/dist/index.js"), "./dist/index.js");
    assert_eq!(maximus_checks::entrypoint_paths::display_relative_path("/pkg", "/pkg"), ".");
    assert_eq!(maximus_checks::entrypoint_paths::display_relative_path("/pkg", "/lib\\x.js"), "/lib/x.js");
}

#[test]
fn candidate_paths_match_any_pattern() {
    let pats = vec!["/pkg/dist/*.js".to_string(), "/pkg/lib/*".to_string()];
    assert!(maximus_checks::package_entrypoints::matches_path("/pkg/dist/index.js", &pats));
    assert!(maximus_checks::package_entrypoints::matches_path("/pkg\\lib\\a", &pats));
    assert!(!maximus_checks::package_entrypoints::matches_path("/pkg/dist/.js", &pats));
    assert!(!maximus_checks::package_entrypoints::matches_path("/pkg/src/a.js", &pats));
    let ts = vec!["/repo/src/**/*.ts".to_string()];
    assert!(maximus_checks::tsconfig_rules::matches_path("/repo/src/a/b.ts", &ts));
    assert!(maximus_checks::tsconfig_rules::matches_path("/repo\\src\\b.ts", &ts));
    assert!(!maximus_checks::tsconfig_rules::matches_path("/repo/lib/b.ts", &ts));
    assert!(!maximus_checks::tsconfig_rules::matches_path("/repo/src/a.ts", &[]));
}
