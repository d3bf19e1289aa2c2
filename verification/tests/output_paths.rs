use maximus_checks::output_paths::{
    classify_output_overlap, display_project_relative_path, overlap_detail, overlap_finding,
    is_within_default_excluded_dir, prune_nested_paths, resolve_pattern_search_root,
    should_skip_default_pattern_dir, resolve_pattern_source_root, OutputOverlap,
    PathState,
};
use maximus_checks::tsconfig_rules::has_explicit_extension;
use maximus_checks::paths::PathBase;
use maximus_checks::registry::Severity;

fn p(t: &str) -> PathBase {
    PathBase::from_path(t)
}

fn ps(ts: &[&str]) -> Vec<PathBase> {
    ts.iter().map(|t| p(t)).collect()
}

#[test]
fn paths_are_shown_relative_to_the_project() {
    let root = p("/repo");
    assert_eq!(display_project_relative_path(&root, &p("/repo/packages/a/dist")), "packages/a/dist");
    assert_eq!(display_project_relative_path(&root, &p("/repo")), ".");
    assert_eq!(display_project_relative_path(&root, &p("/other/x")), "/other/x");
    assert_eq!(display_project_relative_path(&p("/repo/"), &p("/repo/./x/../y")), "y");
    assert_eq!(display_project_relative_path(&p("/"), &p("/a")), "a");
}

#[test]
fn overlaps_are_checked_in_order() {
    let base = p("/repo");
    let none: Vec<PathBase> = Vec::new();
    assert_eq!(
        classify_output_overlap(&p("/repo/src"), &base, &ps(&["/repo/lib", "/repo/src"]), &none, &none),
        OutputOverlap::EqualsSource(1)
    );
    assert_eq!(
        classify_output_overlap(&p("/repo/src/dist"), &base, &ps(&["/repo/src"]), &none, &none),
        OutputOverlap::NestedInSource(0)
    );
    assert_eq!(
        classify_output_overlap(
            &p("/repo/dist"),
            &base,
            &ps(&["/repo/src"]),
            &ps(&["/repo/src/a.ts", "/repo/dist/b.ts"]),
            &none
        ),
        OutputOverlap::ContainsInput(1)
    );
    assert_eq!(
        classify_output_overlap(&p("/repo"), &base, &ps(&["/repo/src"]), &none, &ps(&["/repo/src/a.ts"])),
        OutputOverlap::ContainsRawInput(0)
    );
    assert_eq!(
        classify_output_overlap(
            &p("/repo"),
            &base,
            &ps(&["/repo/src"]),
            &ps(&["/elsewhere/a.ts"]),
            &ps(&["/repo/src/a.ts"])
        ),
        OutputOverlap::ContainsSource(0)
    );
    assert_eq!(
        classify_output_overlap(&p("/repo/out"), &base, &ps(&["/repo/src"]), &ps(&["/repo/src/a.ts"]), &none),
        OutputOverlap::Separate
    );
}

#[test]
fn overlap_findings_are_worded() {
    let f = overlap_finding(OutputOverlap::NestedInSource(0)).unwrap();
    assert_eq!(f.suffix, "outdir-nested-in-source");
    assert_eq!(f.title, "Output directory is nested inside the TypeScript source root");
    assert_eq!(f.severity, Severity::Error);
    let c = overlap_finding(OutputOverlap::ContainsSource(0)).unwrap();
    assert_eq!(c.severity, Severity::Warn);
    assert_eq!(
        c.hint,
        "Prefer an output directory that is completely separate from the TypeScript source root."
    );
    assert_eq!(overlap_finding(OutputOverlap::ContainsRawInput(0)).unwrap().suffix, "outdir-contains-input");
    assert!(overlap_finding(OutputOverlap::Separate).is_none());
    assert_eq!(
        overlap_detail(OutputOverlap::EqualsSource(0), "src", "src"),
        "outDir \"src\" overlaps source root \"src\"."
    );
    assert_eq!(
        overlap_detail(OutputOverlap::ContainsInput(0), "dist", "dist/a.ts"),
        "outDir \"dist\" contains TypeScript input \"dist/a.ts\"."
    );
}

fn texts(v: &[PathBase]) -> Vec<String> {
    v.iter().map(|x| x.render_resolved()).collect()
}

#[test]
fn nested_source_roots_are_pruned() {
    let kept = prune_nested_paths(&ps(&["/repo/src", "/repo/src/lib", "/repo/test", "/repo/src"]));
    assert_eq!(texts(&kept), vec!["/repo/src".to_string(), "/repo/test".to_string()]);
    let kept = prune_nested_paths(&ps(&["/repo/src/lib", "/repo/src"]));
    assert_eq!(texts(&kept), vec!["/repo/src".to_string()]);
    let kept = prune_nested_paths(&ps(&["/repo/src", "/repo/srcx"]));
    assert_eq!(texts(&kept), vec!["/repo/src".to_string(), "/repo/srcx".to_string()]);
    assert!(prune_nested_paths(&Vec::new()).is_empty());
}

#[test]
fn explicit_extensions_are_read_after_the_last_star() {
    assert!(!has_explicit_extension("src/*.ts"));
    assert!(has_explicit_extension("src/*.d.ts"));
    assert!(has_explicit_extension("src/index.d.ts"));
    assert!(has_explicit_extension("a."));
    assert!(!has_explicit_extension("src/**/*"));
    assert!(!has_explicit_extension("src/index"));
    assert!(!has_explicit_extension(".bashrc"));
    assert!(!has_explicit_extension("lib.d/*"));
}

#[test]
fn pattern_search_roots_stop_at_the_first_wildcard() {
    let base = p("/repo");
    assert_eq!(resolve_pattern_search_root(&base, "src/**/*.ts").render_resolved(), "/repo/src");
    assert_eq!(resolve_pattern_search_root(&base, "*.ts").render_resolved(), "/repo");
    assert_eq!(resolve_pattern_search_root(&base, "src/*").render_resolved(), "/repo/src");
    assert_eq!(resolve_pattern_search_root(&base, "../lib/?.ts").render_resolved(), "/lib");
    assert_eq!(resolve_pattern_search_root(&base, "src/index.ts").render_resolved(), "/repo/src");
}

fn root_text(r: Option<PathBase>) -> Option<String> {
    r.map(|x| x.render_resolved())
}

#[test]
fn include_patterns_name_source_roots() {
    let base = p("/repo");
    assert_eq!(root_text(resolve_pattern_source_root(&base, "", PathState::Directory)), None);
    assert_eq!(root_text(resolve_pattern_source_root(&base, "  ", PathState::Directory)), None);
    assert_eq!(
        root_text(resolve_pattern_source_root(&base, "src/**/*.ts", PathState::Missing)),
        Some("/repo/src".to_string())
    );
    assert_eq!(root_text(resolve_pattern_source_root(&base, "*.ts", PathState::Missing)), None);
    assert_eq!(
        root_text(resolve_pattern_source_root(&base, "src\\lib\\*.ts", PathState::Missing)),
        Some("/repo/src/lib".to_string())
    );
    assert_eq!(
        root_text(resolve_pattern_source_root(&base, "src", PathState::Directory)),
        Some("/repo/src".to_string())
    );
    assert_eq!(
        root_text(resolve_pattern_source_root(&base, "src/index.ts", PathState::File)),
        Some("/repo/src".to_string())
    );
    assert_eq!(
        root_text(resolve_pattern_source_root(&base, "src/index.ts", PathState::Missing)),
        Some("/repo/src".to_string())
    );
    assert_eq!(
        root_text(resolve_pattern_source_root(&base, "src/app", PathState::Missing)),
        Some("/repo/src/app".to_string())
    );
    assert_eq!(root_text(resolve_pattern_source_root(&base, "src", PathState::Unreadable)), None);
    assert_eq!(
        root_text(resolve_pattern_source_root(&base, "src\\lib", PathState::Directory)),
        Some("/repo/src/lib".to_string())
    );
    assert_eq!(root_text(resolve_pattern_source_root(&base, "/", PathState::File)), None);
    assert_eq!(
        root_text(resolve_pattern_source_root(&p("a"), "b.ts", PathState::File)),
        Some("a".to_string())
    );
    assert_eq!(
        root_text(resolve_pattern_source_root(&p("."), "b.ts", PathState::File)),
        Some(".".to_string())
    );
}

#[test]
fn default_pattern_searches_skip_package_stores_and_out_dirs() {
    let out = ps(&["/repo/dist"]);
    assert!(should_skip_default_pattern_dir(&p("/repo/node_modules"), &out));
    assert!(should_skip_default_pattern_dir(&p("/repo/a/bower_components/"), &out));
    assert!(should_skip_default_pattern_dir(&p("/repo/x/../jspm_packages"), &out));
    assert!(should_skip_default_pattern_dir(&p("/repo/dist/types"), &out));
    assert!(!should_skip_default_pattern_dir(&p("/repo/src"), &out));
    assert!(!should_skip_default_pattern_dir(&p("/repo/node_modules/x"), &out));
    assert!(is_within_default_excluded_dir(&p("/repo/dist"), &out));
    assert!(is_within_default_excluded_dir(&p("/repo/src/../dist/a"), &out));
    assert!(!is_within_default_excluded_dir(&p("/repo/distant"), &out));
    assert!(!is_within_default_excluded_dir(&p("/repo/dist"), &Vec::new()));
}

#[test]
fn a_config_gets_the_finding_of_its_overlap() {
    let root = p("/repo");
    let base = p("/repo/app");
    let roots = ps(&["/repo/app/src"]);
    let none: Vec<PathBase> = Vec::new();
    let f = maximus_checks::output_paths::collect_output_path_overlap_findings(
        &root,
        "/repo/app/tsconfig.json",
        Some(&p("/repo/app/src/../src/")),
        &base,
        &roots,
        &none,
        &none,
    )
    .unwrap();
    assert_eq!(f.id, "tsconfig-output-paths:/repo/app/tsconfig.json:outdir-equals-source:app/src");
    assert_eq!(f.title, "Output directory overlaps the TypeScript source root");
    assert_eq!(f.detail, "outDir \"app/src\" overlaps source root \"app/src\".");
    assert_eq!(f.severity, Severity::Error);

    let f = maximus_checks::output_paths::collect_output_path_overlap_findings(
        &root,
        "/repo/app/tsconfig.json",
        Some(&p("/repo/app")),
        &base,
        &roots,
        &ps(&["/repo/app/index.ts"]),
        &none,
    )
    .unwrap();
    assert_eq!(f.id, "tsconfig-output-paths:/repo/app/tsconfig.json:outdir-contains-input:app");
    assert_eq!(f.detail, "outDir \"app\" contains TypeScript input \"app/index.ts\".");

    assert!(maximus_checks::output_paths::collect_output_path_overlap_findings(
        &root, "/repo/app/tsconfig.json", Some(&p("/repo/app/dist")), &base, &roots, &none, &none
    )
    .is_none());
    assert!(maximus_checks::output_paths::collect_output_path_overlap_findings(
        &root, "/repo/app/tsconfig.json", None, &base, &roots, &none, &none
    )
    .is_none());
}
