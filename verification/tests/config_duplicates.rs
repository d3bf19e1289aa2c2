use maximus_checks::eslint_prettier::eslint_prettier_finding;
use maximus_checks::config_duplicates::directory_duplicate_findings;
use maximus_checks::json::JsonValue;
use maximus_checks::registry::Severity;

fn files(entries: &[(&str, &str)]) -> Vec<(String, String)> {
    entries.iter().map(|(n, p)| (n.to_string(), p.to_string())).collect()
}

#[test]
fn duplicate_prettier_counts_package_field() {
    let package = "/repo/web/package.json".to_string();
    let json = JsonValue::Object(vec![("prettier".to_string(), JsonValue::Null)]);
    let prettier = files(&[(".prettierrc", "/repo/web/.prettierrc")]);
    let out = directory_duplicate_findings(
        "/repo/web",
        "web",
        Some(&package),
        Some(&json),
        &Vec::new(),
        &prettier,
        &Vec::new(),
    );
    assert_eq!(out.len(), 1);
    assert_eq!(out[0].id, "duplicate-config:Prettier:/repo/web");
    assert_eq!(out[0].title, "Prettier config is declared in multiple places");
    assert_eq!(out[0].detail, "Found 2 Prettier config sources in web.");
    assert_eq!(out[0].hint, "Keep a single Prettier entry point per directory to avoid drift.");
    assert!(out[0].severity == Severity::Warn);
    assert_eq!(out[0].file.as_deref(), Some("/repo/web/package.json"));
}

#[test]
fn single_sources_give_nothing() {
    let jest = files(&[("jest.config.js", "/r/jest.config.js")]);
    let out = directory_duplicate_findings("/r", ".", None, None, &Vec::new(), &Vec::new(), &jest);
    assert!(out.is_empty());
}

#[test]
fn mixed_eslint_modes_give_two_findings() {
    let eslint = files(&[
        (".eslintrc.json", "/r/.eslintrc.json"),
        ("eslint.config.js", "/r/eslint.config.js"),
    ]);
    let out = directory_duplicate_findings("/r", ".", None, None, &eslint, &Vec::new(), &Vec::new());
    assert_eq!(out.len(), 2);
    assert_eq!(out[0].id, "duplicate-config:ESLint:/r");
    assert!(out[0].severity == Severity::Error);
    assert_eq!(out[0].file.as_deref(), Some("/r/.eslintrc.json"));
    assert_eq!(out[1].id, "eslint-mixed-modes:/r");
    assert_eq!(out[1].title, "Legacy and flat ESLint configs coexist");
    assert_eq!(out[1].file.as_deref(), Some("/r/.eslintrc.json"));
}

#[test]
fn eslint_formatting_rules_without_a_bridge_conflict() {
    let eslint = vec!["{ \"rules\": { \"semi\": [\"error\", \"always\"] } }".to_string()];
    let prettier = vec!["{}".to_string()];
    let first = "/r/.eslintrc.json".to_string();
    let f = eslint_prettier_finding("/r", &eslint, &prettier, Some(&first), None).unwrap();
    assert_eq!(f.id, "eslint-prettier-conflict:/r");
    assert_eq!(f.title, "ESLint formatting rules may conflict with Prettier");
    assert!(f.severity == Severity::Warn);
    assert_eq!(f.file.as_deref(), Some("/r/.eslintrc.json"));
}

#[test]
fn eslint_and_prettier_side_by_side_point_at_package_json() {
    let eslint = vec!["{ \"extends\": [\"eslint:recommended\"] }".to_string()];
    let prettier = vec!["{ \"semi\": false }".to_string()];
    let package = "/r/package.json".to_string();
    let f = eslint_prettier_finding("/r", &eslint, &prettier, None, Some(&package)).unwrap();
    assert_eq!(f.id, "eslint-prettier-separate:/r");
    assert_eq!(f.hint, "Document which tool owns formatting and which tool owns code-quality rules.");
    assert!(f.severity == Severity::Info);
    assert_eq!(f.file.as_deref(), Some("/r/package.json"));
}

#[test]
fn a_prettier_bridge_or_a_missing_side_gives_nothing() {
    let bridged = vec!["{ \"extends\": [\"prettier\"], \"rules\": { \"semi\": 1 } }".to_string()];
    let prettier = vec!["{}".to_string()];
    assert!(eslint_prettier_finding("/r", &bridged, &prettier, None, None).is_none());
    let eslint = vec!["{ \"rules\": { \"semi\": 1 } }".to_string()];
    assert!(eslint_prettier_finding("/r", &eslint, &Vec::new(), None, None).is_none());
}
