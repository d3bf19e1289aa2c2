use maximus_checks::entrypoint_paths::{
    build_extension_candidates, build_wildcard_patterns, extensions_for_field_path,
    has_supported_explicit_extension, incompatible_exact_file_detail, incompatible_exact_file_hint,
    incompatible_file_title, resolve_path, wildcard_incompatible_file_detail,
    wildcard_incompatible_file_hint, is_main_like_local_target, is_relative_target,
    missing_target_detail, string_target_outcome_exec, target_finding_id_text, TargetFacts,
};
use maximus_checks::package_entrypoints::{BranchOutcome, FindingRef};
use maximus_checks::registry::Severity;
use maximus_checks::paths::PathBase;

fn path(parts: &[&str]) -> Vec<String> {
    parts.iter().map(|p| p.to_string()).collect()
}

#[test]
fn field_extensions() {
    assert_eq!(extensions_for_field_path(&path(&["types"])), vec![".d.cts", ".d.mts", ".d.ts"]);
    assert_eq!(extensions_for_field_path(&path(&["main"])).len(), 10);
    assert_eq!(extensions_for_field_path(&path(&["exports", ".", "types"])).len(), 3);
}

#[test]
fn explicit_extensions_are_seen_after_the_last_star() {
    assert!(has_supported_explicit_extension(&path(&["main"]), "./dist/*.js"));
    assert!(!has_supported_explicit_extension(&path(&["main"]), "./dist/*"));
    assert!(has_supported_explicit_extension(&path(&["types"]), "./x.d.ts"));
    assert!(!has_supported_explicit_extension(&path(&["types"]), "./x.js"));
    assert!(!has_supported_explicit_extension(&path(&["main"]), "./lib/"));
}

#[test]
fn targets_resolve_inside_the_package() {
    let pkg = PathBase::from_path("/pkg");
    assert_eq!(resolve_path(&pkg, "./dist/index.js"), Some("/pkg/dist/index.js".to_string()));
    assert_eq!(resolve_path(&pkg, "dist\\a.js"), Some("/pkg/dist/a.js".to_string()));
    assert_eq!(resolve_path(&pkg, "."), Some("/pkg".to_string()));
    assert_eq!(resolve_path(&pkg, "../x"), None);
    assert_eq!(resolve_path(&pkg, "/elsewhere/x"), None);
    assert_eq!(resolve_path(&PathBase::from_path("/pkg/./a/.."), "b"), Some("/pkg/b".to_string()));
    // An empty relative package directory only contains itself.
    assert_eq!(resolve_path(&PathBase::from_path(""), "."), Some(".".to_string()));
    assert_eq!(resolve_path(&PathBase::from_path(""), "x"), None);
}

#[test]
fn extension_candidates_append_each_extension() {
    assert_eq!(
        build_extension_candidates(&path(&["types"]), "/p/x"),
        path(&["/p/x.d.cts", "/p/x.d.mts", "/p/x.d.ts"])
    );
}

#[test]
fn wildcard_patterns_cover_extensions_and_index_files() {
    let pkg = PathBase::from_path("/pkg");
    let main = build_wildcard_patterns(&pkg, &path(&["main"]), "./dist/index");
    assert_eq!(main.len(), 21);
    assert_eq!(main[0], "/pkg/dist/index");
    assert_eq!(main[1], "/pkg/dist/index.cjs");
    assert_eq!(main[11], "/pkg/dist/index/index.cjs");
    let explicit = build_wildcard_patterns(&pkg, &path(&["exports", "."]), "./dist/*.js");
    assert_eq!(explicit, path(&["/pkg/dist/*.js"]));
    let exports = build_wildcard_patterns(&pkg, &path(&["exports", "./x"]), "./dist/x");
    assert_eq!(exports.len(), 11);
    let types = build_wildcard_patterns(&pkg, &path(&["types"]), "./types/index");
    assert_eq!(
        types,
        path(&[
            "/pkg/types/index",
            "/pkg/types/index.d.cts",
            "/pkg/types/index.d.mts",
            "/pkg/types/index.d.ts",
            "/pkg/types/index/index.d.cts",
            "/pkg/types/index/index.d.mts",
            "/pkg/types/index/index.d.ts",
        ])
    );
    assert!(build_wildcard_patterns(&pkg, &path(&["main"]), "../escape").is_empty());
}

#[test]
fn incompatible_file_texts() {
    assert_eq!(incompatible_file_title(), "Package entrypoint target uses an incompatible file type");
    assert_eq!(
        incompatible_exact_file_detail(&path(&["types"]), "./index.js"),
        "package.json types points to ./index.js, but types targets must point to declaration files such as .d.ts, .d.mts, or .d.cts."
    );
    assert_eq!(
        incompatible_exact_file_detail(&path(&["exports", ".", "import"]), "./index.d.ts"),
        "package.json exports/./import points to ./index.d.ts, but runtime entrypoints must not point to declaration-only files such as .d.ts."
    );
    assert_eq!(
        incompatible_exact_file_hint(&path(&["main"])),
        "Point main/module/bin to a runtime file instead of a declaration-only file."
    );
    assert_eq!(
        wildcard_incompatible_file_detail(&path(&["exports", "./*"]), "./dist/*", "./dist/a.d.ts"),
        "package.json exports/./* points to ./dist/*, but wildcard match ./dist/a.d.ts is a declaration-only file."
    );
    assert_eq!(
        wildcard_incompatible_file_hint(&path(&["types"])),
        "Point types to a generated declaration file before publishing."
    );
}

fn facts(wildcard: Option<BranchOutcome>, file: Option<&str>, nested: Vec<FindingRef>, exists: bool) -> TargetFacts {
    TargetFacts { wildcard, resolved_file: file.map(|f| f.to_string()), nested, exists }
}

fn ids(o: &BranchOutcome) -> Vec<String> {
    o.findings.iter().map(|f| f.id.clone()).collect()
}

fn titles(o: &BranchOutcome) -> Vec<String> {
    o.findings.iter().map(|f| f.title.clone()).collect()
}

#[test]
fn main_like_targets_are_local_unless_refused() {
    assert!(is_main_like_local_target("./index.js"));
    assert!(is_main_like_local_target("dist/index.js"));
    assert!(is_main_like_local_target("index"));
    assert!(!is_main_like_local_target(""));
    assert!(!is_main_like_local_target("https://x"));
    assert!(!is_main_like_local_target("#x"));
    assert!(!is_main_like_local_target("/abs"));
    assert!(!is_main_like_local_target("\\abs"));
    assert!(is_relative_target(&path(&["exports", "."]), "./a.js"));
    assert!(!is_relative_target(&path(&["exports", "."]), "a.js"));
    assert!(is_relative_target(&path(&["imports", "#a"]), "../a.js"));
    assert!(is_relative_target(&path(&["main"]), "a.js"));
    assert!(!is_relative_target(&[], "a.js"));
}

#[test]
fn target_texts() {
    assert_eq!(
        target_finding_id_text("/p/package.json", &path(&["exports", "."]), "./a.js"),
        "package-entrypoints:/p/package.json:exports/.:./a.js"
    );
    assert_eq!(
        missing_target_detail(&path(&["main"]), "./a.js"),
        "package.json main points to ./a.js, but the resolved path was not found."
    );
}

#[test]
fn string_targets_combine_what_was_found() {
    let pkg = "/p/package.json";
    let main = path(&["main"]);
    let nested = || vec![FindingRef { id: "n".to_string(), title: "nested".to_string(), detail: String::new(), hint: String::new(), severity: Severity::Info }];
    let invalid = string_target_outcome_exec(pkg, &path(&["exports", "."]), "dist/a.js", facts(None, None, vec![], true));
    assert_eq!(titles(&invalid), vec!["Package entrypoint target is invalid".to_string()]);
    assert!(!invalid.has_valid_target);
    let external = string_target_outcome_exec(pkg, &path(&["imports", "#a"]), "lodash", facts(None, None, vec![], false));
    assert!(external.has_valid_target && external.findings.is_empty());
    let not_local = string_target_outcome_exec(pkg, &path(&["browser"]), "https://x", facts(None, None, vec![], false));
    assert!(!not_local.has_valid_target && not_local.findings.is_empty());
    let wildcard_missing = string_target_outcome_exec(pkg, &path(&["exports", "./*"]), "./dist/*.js", facts(None, None, vec![], false));
    assert_eq!(titles(&wildcard_missing), vec!["Package entrypoint target does not exist".to_string()]);
    let found = BranchOutcome { findings: vec![], has_valid_target: true };
    let wildcard_found = string_target_outcome_exec(pkg, &path(&["exports", "./*"]), "./dist/*.js", facts(Some(found), None, vec![], false));
    assert!(wildcard_found.has_valid_target);
    let wrong_type = string_target_outcome_exec(pkg, &main, "./a.d.ts", facts(None, Some("/p/a.d.ts"), nested(), true));
    assert_eq!(titles(&wrong_type), vec!["Package entrypoint target uses an incompatible file type".to_string()]);
    assert_eq!(wrong_type.findings[0].severity, Severity::Error);
    let exists = string_target_outcome_exec(pkg, &main, "./a.js", facts(None, Some("/p/a.js"), nested(), true));
    assert!(exists.has_valid_target);
    assert_eq!(ids(&exists), vec!["n".to_string()]);
    let missing = string_target_outcome_exec(pkg, &path(&["types"]), "./a.d.ts", facts(None, None, nested(), false));
    assert!(!missing.has_valid_target);
    assert_eq!(ids(&missing), vec!["n".to_string(), "package-entrypoints:/p/package.json:types:./a.d.ts".to_string()]);
    assert_eq!(missing.findings[1].severity, Severity::Warn);
}
