use maximus_checks::input_patterns::{
    collect_empty_include_findings, collect_exclude_findings, collect_explicit_tsconfig_files,
    count_pattern_matches, include_pattern_counts, pattern_matches_file, FilesEntryState,
};
use maximus_checks::output_paths::PathState;
use maximus_checks::paths::PathBase;
use maximus_checks::registry::Severity;

const TS: [&str; 7] = [".cts", ".d.cts", ".d.mts", ".d.ts", ".mts", ".ts", ".tsx"];

fn p(t: &str) -> PathBase {
    PathBase::from_path(t)
}

fn takes(pattern: &str, candidate: &str, state: PathState) -> bool {
    pattern_matches_file(&p("/r"), pattern, &p(candidate), &TS, &[], state)
}

#[test]
fn directory_patterns_take_the_files_below_them() {
    assert!(takes("src", "/r/src/a.ts", PathState::Directory));
    assert!(takes("./src/", "/r/src/x/a.ts", PathState::Directory));
    assert!(!takes("src", "/r/srcx/a.ts", PathState::Directory));
    assert!(!takes("node_modules", "/r/node_modules/x.ts", PathState::Directory));
    let out = [p("/r/dist")];
    assert!(!pattern_matches_file(&p("/r"), "dist", &p("/r/dist/a.ts"), &TS, &out, PathState::Directory));
}

#[test]
fn file_and_missing_patterns_take_single_files() {
    assert!(takes("src/a.ts", "/r/src/a.ts", PathState::File));
    assert!(!takes("src/a.ts", "/r/src/b.ts", PathState::File));
    assert!(takes("src/a", "/r/src/a.ts", PathState::Missing));
    assert!(takes("src/a", "/r/src/a.d.ts", PathState::Missing));
    assert!(!takes("src/a.js", "/r/src/a.js", PathState::Missing));
    assert!(!takes("src", "/r/src/a.ts", PathState::Unreadable));
    assert!(!takes("  ", "/r/src/a.ts", PathState::Directory));
}

#[test]
fn wildcard_patterns_match_paths() {
    assert!(takes("src/**/*.ts", "/r/src/x/y.ts", PathState::Missing));
    assert!(takes("src/*.ts", "/r/src/y.ts", PathState::Missing));
    assert!(!takes("src/*.ts", "/r/src/x/y.ts", PathState::Missing));
    assert!(!takes("src/**/*.ts", "/r/lib/y.ts", PathState::Missing));
}

#[test]
fn exclude_patterns_that_remove_nothing_are_reported() {
    let eligible = vec![p("/r/src/a.ts"), p("/r/src/b.ts"), p("/r/test/c.ts")];
    let patterns = vec![
        ("test".to_string(), PathState::Directory),
        ("test".to_string(), PathState::Directory),
        ("node_modules".to_string(), PathState::Missing),
        ("dist".to_string(), PathState::Missing),
    ];
    let out = collect_exclude_findings("/r/tsconfig.json", &p("/r"), "/r", &patterns, eligible, 1, &TS, &[]);
    let ids: Vec<String> = out.iter().map(|f| f.id.clone()).collect();
    assert_eq!(
        ids,
        vec![
            "tsconfig-patterns:/r/tsconfig.json:exclude:test".to_string(),
            "tsconfig-patterns:/r/tsconfig.json:exclude:dist".to_string(),
        ]
    );
    assert_eq!(
        out[0].detail,
        "exclude pattern \"test\" removed 0 files from 3 included file(s) under base dir /r."
    );
    assert_eq!(out[0].severity, Severity::Info);
    let none = collect_exclude_findings("/r/tsconfig.json", &p("/r"), "/r", &patterns, Vec::new(), 0, &TS, &[]);
    assert!(none.is_empty());
}

#[test]
fn include_patterns_that_find_nothing_are_reported() {
    let patterns = vec![
        ("src/**/*.ts".to_string(), 3usize),
        (".next/types/**/*.ts".to_string(), 0usize),
        ("lib/*.ts".to_string(), 0usize),
    ];
    let out = collect_empty_include_findings("/r/tsconfig.json", "/r", &patterns, true);
    assert_eq!(out.len(), 2);
    assert_eq!(out[0].id, "tsconfig-patterns:/r/tsconfig.json:include:.next/types/**/*.ts");
    assert_eq!(out[0].severity, Severity::Info);
    assert_eq!(out[1].severity, Severity::Warn);
    assert_eq!(out[1].detail, "include pattern \"lib/*.ts\" matched 0 files under base dir /r.");
    let out = collect_empty_include_findings("/r/tsconfig.json", "/r", &patterns, false);
    assert_eq!(out[0].severity, Severity::Warn);
}

#[test]
fn files_entries_name_explicit_inputs() {
    let mut found = vec![false; 7];
    found[5] = true;
    let entries = vec![
        ("  ".to_string(), FilesEntryState::Missing, vec![]),
        ("src/*.ts".to_string(), FilesEntryState::Missing, vec![]),
        ("src/a.ts".to_string(), FilesEntryState::File, vec![]),
        ("src/dir".to_string(), FilesEntryState::Directory, vec![]),
        ("src/b".to_string(), FilesEntryState::Missing, found),
        ("src/c.ts".to_string(), FilesEntryState::Missing, vec![]),
        ("src/d".to_string(), FilesEntryState::Missing, vec![]),
        ("src/e.txt".to_string(), FilesEntryState::File, vec![]),
        ("src/f".to_string(), FilesEntryState::Denied("permission denied".to_string()), vec![]),
    ];
    let (files, issues) = collect_explicit_tsconfig_files(&p("/r"), "/r/tsconfig.json", &entries, &TS);
    let shown: Vec<String> = files.iter().map(|f| f.render_resolved()).collect();
    assert_eq!(shown, vec!["/r/src/a.ts".to_string(), "/r/src/b.ts".to_string()]);
    let suffixes: Vec<String> = issues.iter().map(|i| i.suffix.clone()).collect();
    assert_eq!(
        suffixes,
        vec![
            "entry-1-wildcard".to_string(),
            "entry-3-directory".to_string(),
            "entry-5-missing".to_string(),
            "entry-6-missing".to_string(),
            "entry-7-unsupported".to_string(),
            "entry-8-unreadable".to_string(),
        ]
    );
    assert_eq!(issues[0].title, "\"files\" entries must point to explicit files");
    assert_eq!(
        issues[5].detail,
        "/r/tsconfig.json declares files[8] as src/f, but reading that path failed: permission denied."
    );
}

#[test]
fn include_patterns_count_the_files_they_take() {
    let base = p("/r");
    let candidates = vec![p("/r/src/a.ts"), p("/r/src/b.ts"), p("/r/test/c.ts")];
    assert_eq!(count_pattern_matches(&base, "src", &candidates, &TS, &[], PathState::Directory), 2);
    assert_eq!(count_pattern_matches(&base, "src/*.ts", &candidates, &TS, &[], PathState::Missing), 2);
    assert_eq!(count_pattern_matches(&base, "lib", &candidates, &TS, &[], PathState::Missing), 0);
    let patterns = vec![
        ("src".to_string(), PathState::Directory),
        ("lib".to_string(), PathState::Missing),
        ("test/**/*".to_string(), PathState::Missing),
    ];
    let counts = include_pattern_counts(&base, &patterns, &candidates, &TS, &[]);
    assert_eq!(counts, vec![("src".to_string(), 2), ("lib".to_string(), 0), ("test/**/*".to_string(), 1)]);
    let out = collect_empty_include_findings("/r/tsconfig.json", ".", &counts, false);
    assert_eq!(out.len(), 1);
    assert_eq!(out[0].id, "tsconfig-patterns:/r/tsconfig.json:include:lib");
    assert_eq!(out[0].file, "/r/tsconfig.json");
}
