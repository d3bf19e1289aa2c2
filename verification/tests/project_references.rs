use maximus_checks::json::JsonValue;
use maximus_checks::project_references::{
    composite_step, extends_issue, read_reference_entry, reference_entry_finding,
    reference_problem_finding, references_shape_finding, CompositeStep, ExtendsProblem,
    ReferenceEntry, ReferenceProblem,
};
use maximus_checks::project_references::{collect_project_reference_findings, ReferenceFacts};

fn obj(members: Vec<(&str, JsonValue)>) -> JsonValue {
    JsonValue::Object(members.into_iter().map(|(k, v)| (k.to_string(), v)).collect())
}

fn s(v: &str) -> JsonValue {
    JsonValue::Text(v.to_string())
}

#[test]
fn reference_entries_are_read() {
    assert!(matches!(read_reference_entry(&s("../pkg")), ReferenceEntry::NotObject));
    assert!(matches!(read_reference_entry(&obj(vec![])), ReferenceEntry::NoPath));
    assert!(matches!(
        read_reference_entry(&obj(vec![("path", JsonValue::Bool(true))])),
        ReferenceEntry::NoPath
    ));
    assert!(matches!(read_reference_entry(&obj(vec![("path", s("  "))])), ReferenceEntry::NoPath));
    match read_reference_entry(&obj(vec![("path", s(" ../pkg"))])) {
        ReferenceEntry::Path(p) => assert_eq!(p, " ../pkg"),
        _ => panic!("expected a path"),
    }
}

#[test]
fn composite_steps() {
    let enabled = obj(vec![("compilerOptions", obj(vec![("composite", JsonValue::Bool(true))]))]);
    assert!(matches!(composite_step(&enabled, "/a/tsconfig.json", true), CompositeStep::Enabled));
    let disabled = obj(vec![
        ("compilerOptions", obj(vec![("composite", JsonValue::Bool(false))])),
        ("extends", s("./base.json")),
    ]);
    assert!(matches!(composite_step(&disabled, "/a/tsconfig.json", true), CompositeStep::Disabled));
    let wrong = obj(vec![("compilerOptions", obj(vec![("composite", s("yes"))]))]);
    match composite_step(&wrong, "/a/base.json", false) {
        CompositeStep::Issue(i) => {
            assert_eq!(i.suffix, "extends-composite-type");
            assert_eq!(
                i.detail,
                "/a/base.json declares compilerOptions.composite, but the value is not a boolean."
            );
        },
        _ => panic!("expected an issue"),
    }
    let follows = obj(vec![("compilerOptions", JsonValue::Null), ("extends", s("./base.json"))]);
    match composite_step(&follows, "/a/tsconfig.json", true) {
        CompositeStep::Extends(e) => assert_eq!(e, "./base.json"),
        _ => panic!("expected to follow extends"),
    }
    assert!(matches!(composite_step(&obj(vec![]), "/a/tsconfig.json", true), CompositeStep::Disabled));
}

#[test]
fn extends_issues_are_worded() {
    let missing = extends_issue(&ExtendsProblem::Missing, "@org/base", "");
    assert_eq!(missing.suffix, "missing");
    assert_eq!(
        missing.detail,
        "Referenced project extends @org/base, but that config file could not be resolved."
    );
    let failed = extends_issue(&ExtendsProblem::ReadFailed("denied".to_string()), "./b", "/r/b.json");
    assert_eq!(failed.suffix, "unreadable");
    assert_eq!(failed.detail, "Referenced project extends /r/b.json, but reading it failed: denied.");
    let cycle = extends_issue(&ExtendsProblem::Cycle, "./b", "/r/b.json");
    assert_eq!(cycle.title, "Inherited tsconfig extends cycle detected");
    let parse = extends_issue(&ExtendsProblem::ParseFailed("bad json".to_string()), "./b", "/r/b.json");
    assert_eq!(parse.detail, "bad json");
}

#[test]
fn reference_findings_are_worded() {
    let shape = references_shape_finding("/r/tsconfig.json");
    assert_eq!(shape.id, "tsconfig-references-shape:/r/tsconfig.json");
    let entry = reference_entry_finding("/r/tsconfig.json", 12, &ReferenceEntry::NotObject).unwrap();
    assert_eq!(entry.id, "tsconfig-references-entry:/r/tsconfig.json:12");
    assert_eq!(entry.detail, "references[12] must be an object like { \"path\": \"../pkg\" }.");
    let no_path = reference_entry_finding("/r/tsconfig.json", 0, &ReferenceEntry::NoPath).unwrap();
    assert_eq!(no_path.detail, "references[0] must declare a non-empty string path.");
    assert!(reference_entry_finding("/r/t.json", 0, &ReferenceEntry::Path("x".to_string())).is_none());
    let missing =
        reference_problem_finding("/r/tsconfig.json", "../pkg", "", &ReferenceProblem::Missing);
    assert_eq!(missing.id, "tsconfig-references:/r/tsconfig.json:../pkg:missing");
    assert_eq!(missing.detail, "../pkg does not resolve to an existing tsconfig file.");
    let not_composite = reference_problem_finding(
        "/r/tsconfig.json",
        "../pkg",
        "/pkg/tsconfig.json",
        &ReferenceProblem::NotComposite,
    );
    assert_eq!(not_composite.id, "tsconfig-references:/r/tsconfig.json:../pkg:composite");
    assert_eq!(
        not_composite.detail,
        "../pkg resolves to /pkg/tsconfig.json, but compilerOptions.composite is not true."
    );
    let issue = extends_issue(&ExtendsProblem::InvalidTarget, "./b", "/pkg/b.json");
    let via = reference_problem_finding(
        "/r/tsconfig.json",
        "../pkg",
        "/pkg/tsconfig.json",
        &ReferenceProblem::Composite(issue),
    );
    assert_eq!(via.id, "tsconfig-references:/r/tsconfig.json:../pkg:extends-invalid-target");
    assert_eq!(via.title, "Inherited config must point to a tsconfig file");
}

fn ids(fs: &[maximus_checks::project_references::ReferenceFinding]) -> Vec<String> {
    fs.iter().map(|f| f.id.clone()).collect()
}

#[test]
fn every_reference_of_a_config_is_followed() {
    let file = "/r/tsconfig.json";
    assert!(collect_project_reference_findings(file, None, &Vec::new()).is_empty());
    let shape = collect_project_reference_findings(file, Some(&obj(vec![])), &Vec::new());
    assert_eq!(ids(&shape), vec!["tsconfig-references-shape:/r/tsconfig.json".to_string()]);

    let refs = JsonValue::Array(vec![
        s("../a"),
        obj(vec![("path", s(" "))]),
        obj(vec![("path", s("../ok"))]),
        obj(vec![("path", s("../plain"))]),
        obj(vec![("path", s("../gone"))]),
    ]);
    let facts = vec![
        ReferenceFacts { reference_path: "../ok".to_string(), target_path: "/ok/tsconfig.json".to_string(), problem: None },
        ReferenceFacts {
            reference_path: "../plain".to_string(),
            target_path: "/plain/tsconfig.json".to_string(),
            problem: Some(ReferenceProblem::NotComposite),
        },
    ];
    let out = collect_project_reference_findings(file, Some(&refs), &facts);
    assert_eq!(
        ids(&out),
        vec![
            "tsconfig-references-entry:/r/tsconfig.json:0".to_string(),
            "tsconfig-references-entry:/r/tsconfig.json:1".to_string(),
            "tsconfig-references:/r/tsconfig.json:../plain:composite".to_string(),
            "tsconfig-references:/r/tsconfig.json:../gone:missing".to_string(),
        ]
    );
    assert_eq!(out[1].title, "Each project reference entry must declare a string path");
    assert_eq!(out[2].detail, "../plain resolves to /plain/tsconfig.json, but compilerOptions.composite is not true.");
    assert_eq!(out[3].detail, "../gone does not resolve to an existing tsconfig file.");
    for f in &out {
        assert_eq!(f.severity, maximus_checks::registry::Severity::Error);
        assert_eq!(f.file, "/r/tsconfig.json");
    }
}
