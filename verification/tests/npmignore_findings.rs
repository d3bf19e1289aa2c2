use maximus_checks::config_duplicates::ConfigFinding;
use maximus_checks::npmignore_files::collect_npmignore_findings_for_file;
use maximus_checks::registry::Severity;

fn run(out: &mut Vec<ConfigFinding>, seen: &mut Vec<String>, text: &str, file: &str) {
    collect_npmignore_findings_for_file(
        out,
        seen,
        "/r/pkg/package.json",
        "/r/pkg",
        "dist",
        "/r/pkg/dist",
        "/r/pkg/dist/.npmignore",
        text,
        file,
    );
}

#[test]
fn a_nested_npmignore_that_excludes_a_published_file_is_reported_once() {
    let mut out = Vec::new();
    let mut seen = Vec::new();
    run(&mut out, &mut seen, "*.map\n", "/r/pkg/dist/a.js.map");
    run(&mut out, &mut seen, "*.map\n", "/r/pkg/dist/a.js.map");
    assert_eq!(out.len(), 1);
    assert_eq!(seen, vec!["npmignore-files:/r/pkg/package.json:dist/a.js.map".to_string()]);
    assert_eq!(out[0].id, "npmignore-files:/r/pkg/package.json:dist/a.js.map");
    assert_eq!(out[0].title, "package.json files entry is excluded by nested .npmignore");
    assert_eq!(
        out[0].detail,
        "package.json files includes \"dist\", but nested .npmignore pattern \"*.map\" excludes \"dist/a.js.map\"."
    );
    assert!(out[0].severity == Severity::Warn);
    assert_eq!(out[0].file.as_deref(), Some("/r/pkg/dist/.npmignore"));
}

#[test]
fn negations_the_npmignore_itself_and_outside_files_are_not_reported() {
    let mut out = Vec::new();
    let mut seen = Vec::new();
    run(&mut out, &mut seen, "*.map\n!a.js.map\n", "/r/pkg/dist/a.js.map");
    run(&mut out, &mut seen, "*\n", "/r/pkg/dist/.npmignore");
    run(&mut out, &mut seen, "*\n", "/r/other/x.js");
    assert!(out.is_empty());
    assert!(seen.is_empty());
}

#[test]
fn ignore_files_that_disagree_are_reported_per_artifact() {
    let out = maximus_checks::ignore_drift::ignore_drift_findings(
        "/r",
        ".",
        "/r/.gitignore",
        "/r/.maximusignore",
        "node_modules\ndist\n",
        "node_modules\ncoverage/\n",
    );
    assert_eq!(out.len(), 2);
    assert_eq!(out[0].id, "ignore-drift:/r:coverage:.gitignore");
    assert_eq!(out[0].file.as_deref(), Some("/r/.maximusignore"));
    assert_eq!(
        out[0].detail,
        "coverage is ignored in .maximusignore, but not in .gitignore for .. Generated or packaged artifacts may still be committed because git does not ignore them."
    );
    assert_eq!(out[1].id, "ignore-drift:/r:dist:.maximusignore");
    assert_eq!(out[1].file.as_deref(), Some("/r/.gitignore"));
    assert_eq!(out[1].title, "Ignore files disagree on generated artifact coverage");
    assert!(out[1].severity == Severity::Warn);
}
