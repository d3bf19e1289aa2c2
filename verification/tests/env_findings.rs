use maximus_checks::env_findings::{
    duplicate_key_finding, example_missing, example_missing_finding, example_secret_finding,
    example_sync_finding, gitignore_protection_hint, invalid_line_finding, local_override_finding,
    missing_concrete_finding, unprotected_env_finding,
};
use maximus_checks::registry::Severity;

fn strings(v: &[&str]) -> Vec<String> {
    v.iter().map(|s| s.to_string()).collect()
}

#[test]
fn line_findings_are_worded() {
    let d = duplicate_key_finding("/r/.env", "API_URL", 2, 10);
    assert_eq!(d.id, "env-duplicate:/r/.env:API_URL:10");
    assert_eq!(d.title, "Duplicate env key \"API_URL\"");
    assert_eq!(d.detail, "API_URL is declared on lines 2 and 10.");
    assert_eq!(d.severity, Severity::Error);
    let i = invalid_line_finding("/r/.env", 7);
    assert_eq!(i.id, "env-invalid:/r/.env:7");
    assert_eq!(i.detail, "Line 7 could not be parsed as KEY=value.");
}

#[test]
fn protection_hints_name_the_right_gitignore() {
    assert_eq!(
        gitignore_protection_hint(".env", ".gitignore", ".env", true),
        "Add \".env\" to .gitignore."
    );
    assert_eq!(
        gitignore_protection_hint(".env", "apps/web/.gitignore", "apps/web/.env", false),
        "Add \".env\" to apps/web/.gitignore or \"apps/web/.env\" to .gitignore."
    );
    assert_eq!(
        gitignore_protection_hint(".env", "apps/.gitignore", ".env", false),
        "Add \".env\" to apps/.gitignore."
    );
    let f = unprotected_env_finding("/r/.env", ".env", "Add \".env\" to .gitignore.");
    assert_eq!(f.title, "Concrete env file \".env\" is not protected by .gitignore");
    assert_eq!(f.detail, "Add \".env\" to .gitignore.");
}

#[test]
fn contract_findings_are_worded() {
    assert!(example_missing(2, false));
    assert!(!example_missing(0, false));
    assert!(!example_missing(2, true));
    assert_eq!(example_missing_finding("/r", None).id, "env-example-missing:/r");
    let sync = example_sync_finding("/r", ".env.example", "/r/.env.example", &strings(&["A", "B"]));
    assert_eq!(sync.title, ".env.example is missing keys");
    assert_eq!(sync.detail, "Missing keys: A, B.");
    assert_eq!(sync.hint, "Run \"maximus fix\" to append the missing keys to .env.example.");
    let secret = example_secret_finding("/r/.env.example", ".env.example", "TOKEN");
    assert_eq!(secret.title, ".env.example appears to contain a real value for \"TOKEN\"");
    let missing = missing_concrete_finding("/r", "/r/.env.example", &strings(&["DB_URL"]));
    assert_eq!(missing.detail, "No concrete value was found for: DB_URL.");
    let local = local_override_finding("/r", "/r/.env.local", &strings(&["A", "B", "C"]));
    assert_eq!(local.detail, ".env.local overrides 3 key(s): A, B, C.");
    assert_eq!(local.severity, Severity::Info);
}
