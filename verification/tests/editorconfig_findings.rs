use maximus_checks::editorconfig_prettier::{editorconfig_prettier_findings, PrettierDocument};
use maximus_checks::registry::Severity;

fn entries(pairs: &[(&str, &str)]) -> Vec<(String, String)> {
    pairs.iter().map(|(k, v)| (k.to_string(), v.to_string())).collect()
}

#[test]
fn disagreeing_settings_are_listed_side_by_side() {
    let editorconfig = entries(&[("indent_style", "space"), ("indent_size", "2")]);
    let docs = vec![PrettierDocument {
        directory: "/r/web".to_string(),
        values: entries(&[("useTabs", "true"), ("tabWidth", "4")]),
    }];
    let out = editorconfig_prettier_findings("/r/.editorconfig", &editorconfig, &docs);
    assert_eq!(out.len(), 1);
    assert_eq!(out[0].id, "editorconfig-prettier-conflict:/r/web");
    assert_eq!(out[0].title, "EditorConfig and Prettier disagree");
    assert_eq!(
        out[0].detail,
        "EditorConfig sets indent_style=space, indent_size=2, but Prettier sets useTabs=true, tabWidth=4."
    );
    assert!(out[0].severity == Severity::Warn);
    assert_eq!(out[0].file.as_deref(), Some("/r/.editorconfig"));
}

#[test]
fn each_directory_is_reported_once_and_agreement_is_silent() {
    let editorconfig = entries(&[("end_of_line", "lf")]);
    let docs = vec![
        PrettierDocument { directory: "/r".to_string(), values: entries(&[("endOfLine", "lf")]) },
        PrettierDocument { directory: "/r/a".to_string(), values: entries(&[("endOfLine", "crlf")]) },
        PrettierDocument { directory: "/r/a".to_string(), values: entries(&[("endOfLine", "cr")]) },
    ];
    let out = editorconfig_prettier_findings("/r/.editorconfig", &editorconfig, &docs);
    assert_eq!(out.len(), 1);
    assert_eq!(out[0].id, "editorconfig-prettier-conflict:/r/a");
    assert_eq!(out[0].detail, "EditorConfig sets end_of_line=lf, but Prettier sets endOfLine=crlf.");
}
