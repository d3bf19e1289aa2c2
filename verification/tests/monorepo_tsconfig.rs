use maximus_checks::json::JsonValue;
use maximus_checks::monorepo_tsconfig::{
    chain_step, drift_detail, drift_hint, drift_id, drift_title, monorepo_check_applies, ChainStep,
};
use maximus_checks::paths::PathBase;

fn p(t: &str) -> PathBase {
    PathBase::from_path(t)
}

#[test]
fn the_check_applies_to_repositories_with_a_shared_base() {
    assert!(monorepo_check_applies(2, true));
    assert!(!monorepo_check_applies(1, true));
    assert!(!monorepo_check_applies(3, false));
}

#[test]
fn chain_steps() {
    let base = p("/repo/tsconfig.base.json");
    assert_eq!(chain_step(&p("/repo/tsconfig.base.json"), &base, &[]), ChainStep::ReachesBase);
    let seen = vec![p("/repo/packages/a/tsconfig.json")];
    assert_eq!(chain_step(&p("/repo/packages/a/tsconfig.json"), &base, &seen), ChainStep::AlreadySeen);
    assert_eq!(chain_step(&p("/repo/configs/base.json"), &base, &seen), ChainStep::Continue);
}

#[test]
fn drift_findings_are_worded() {
    assert_eq!(drift_title(), "Package tsconfig drifts from the shared base");
    assert_eq!(
        drift_hint(),
        "Point package-level tsconfig files at the repo root tsconfig.base.json before adding local overrides."
    );
    assert_eq!(drift_id("/r/p/tsconfig.json"), "monorepo-tsconfig-drift:/r/p/tsconfig.json");
    let extends = JsonValue::Object(vec![("extends".to_string(), JsonValue::Text("./base.json".to_string()))]);
    assert_eq!(
        drift_detail(&extends),
        "It currently extends ./base.json. package config should extend tsconfig.base.json so shared compiler settings stay aligned."
    );
    assert_eq!(
        drift_detail(&JsonValue::Object(vec![])),
        "It does not extend a shared base config. package config should extend tsconfig.base.json so shared compiler settings stay aligned."
    );
}
