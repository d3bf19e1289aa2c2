use maximus_checks::env_directory::{env_directory_findings, format_gitignore_protection_hint, EnvRecord};

fn strings(v: &[&str]) -> Vec<String> {
    v.iter().map(|x| x.to_string()).collect()
}

fn record(name: &str, template: bool, concrete: bool, keys: &[&str], values: &[(&str, &str)]) -> EnvRecord {
    EnvRecord {
        name: name.to_string(),
        path: format!("/repo/app/{}", name),
        is_template: template,
        is_concrete: concrete,
        duplicates: Vec::new(),
        invalid_lines: Vec::new(),
        keys: strings(keys),
        values: values.iter().map(|(k, v)| (k.to_string(), v.to_string())).collect(),
        secret_keys: Vec::new(),
        protected: true,
    }
}

#[test]
fn protection_hints_name_both_gitignore_files() {
    assert_eq!(
        format_gitignore_protection_hint("/repo", "/repo/app", "/repo/app/.env"),
        "Add \".env\" to app/.gitignore or \"app/.env\" to .gitignore."
    );
    assert_eq!(
        format_gitignore_protection_hint("/repo", "/repo/", "/repo/.env.local"),
        "Add \".env.local\" to .gitignore."
    );
}

#[test]
fn a_directory_gets_its_env_findings_in_order() {
    let mut env = record(".env", false, true, &["API_URL", "SECRET"], &[("API_URL", "a"), ("SECRET", "s")]);
    env.duplicates = vec![("API_URL".to_string(), 1, 3)];
    env.invalid_lines = vec![5];
    env.protected = false;
    let local = record(".env.local", false, true, &["API_URL"], &[("API_URL", "b")]);
    let mut example = record(".env.example", true, false, &["API_URL", "TOKEN"], &[]);
    example.secret_keys = strings(&["TOKEN"]);
    let (out, fixes) = env_directory_findings("/repo", "/repo/app", &vec![env, local, example], &Vec::new());
    let ids: Vec<String> = out.iter().map(|f| f.id.clone()).collect();
    assert_eq!(
        ids,
        strings(&[
            "env-duplicate:/repo/app/.env:API_URL:3",
            "env-invalid:/repo/app/.env:5",
            "env-gitignore:/repo/app/.env",
            "env-example-sync:/repo/app",
            "env-example-secret:/repo/app/.env.example:TOKEN",
            "env-missing-concrete:/repo/app",
            "env-mismatch:/repo/app",
        ])
    );
    assert_eq!(out[2].detail, "Add \".env\" to app/.gitignore or \"app/.env\" to .gitignore.");
    assert_eq!(out[3].title, ".env.example is missing keys");
    assert_eq!(out[3].detail, "Missing keys: SECRET.");
    assert_eq!(out[5].detail, "No concrete value was found for: TOKEN.");
    assert_eq!(out[6].detail, ".env.local overrides 1 key(s): API_URL.");
    assert_eq!(out[6].file.as_deref(), Some("/repo/app/.env.local"));
    assert_eq!(out[0].file.as_deref(), Some("/repo/app/.env"));
    assert_eq!(out[3].file.as_deref(), Some("/repo/app/.env.example"));
    assert_eq!(out[3].fix_ids, strings(&["env-example:sync:/repo/app"]));
    assert!(out[3].fixable);
    assert!(!out[5].fixable);
    assert_eq!(fixes.len(), 1);
    assert_eq!(fixes[0].id, "env-example:sync:/repo/app");
    assert_eq!(fixes[0].title, "Append missing keys to app/.env.example");
    assert_eq!(fixes[0].files, strings(&["/repo/app/.env.example"]));
}

#[test]
fn the_preferred_contract_file_is_consulted_first() {
    let env = record(".env", false, true, &["A", "B"], &[]);
    let sample = record(".env.sample", true, false, &["A", "B"], &[]);
    let example = record(".env.example", true, false, &["A"], &[]);
    let (out, _) = env_directory_findings("/repo", "/repo/app", &vec![env, sample, example], &strings(&["B"]));
    let ids: Vec<String> = out.iter().map(|f| f.id.clone()).collect();
    assert_eq!(ids, strings(&["env-example-sync:/repo/app"]));
    assert_eq!(out[0].title, ".env.example is missing keys");
}

#[test]
fn a_missing_contract_is_reported_only_for_keys_worth_syncing() {
    let env = record(".env", false, true, &["A"], &[]);
    let (out, fixes) = env_directory_findings("/repo", "/repo/app", &vec![env], &Vec::new());
    let ids: Vec<String> = out.iter().map(|f| f.id.clone()).collect();
    assert_eq!(ids, strings(&["env-example-missing:/repo/app"]));
    assert_eq!(out[0].hint, "Run `maximus fix` to create a blank contract file.");
    assert_eq!(out[0].file.as_deref(), Some("/repo/app/.env"));
    assert_eq!(out[0].fix_ids, strings(&["env-example:create:/repo/app"]));
    assert!(out[0].fixable);
    assert_eq!(fixes.len(), 1);
    assert_eq!(fixes[0].id, "env-example:create:/repo/app");
    assert_eq!(fixes[0].title, "Create app/.env.example");
    assert_eq!(fixes[0].files, strings(&["/repo/app/.env.example"]));
    let ambient = record(".env", false, true, &["VERCEL_URL", "TURBO_TOKEN"], &[]);
    let (none, no_fixes) = env_directory_findings("/repo", "/repo/app", &vec![ambient], &Vec::new());
    assert!(none.is_empty());
    assert!(no_fixes.is_empty());
}
