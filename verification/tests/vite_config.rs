use maximus_checks::vite_config::{
    alias_sync_status, find_export_default_value_start, find_matching_brace,
    find_matching_delimiter, find_object_property_value_start, find_vite_config_object_start,
    has_url_like_prefix, is_identifier_char, is_identifier_start, is_path_like_target,
    normalize_alias_key, parse_dotted_identifier, parse_identifier, parse_string_literal,
    parse_string_or_identifier, skip_template_literal, skip_value, skip_ws_and_comments,
    starts_with_keyword, strip_trailing_slashes, AliasSync,
};

fn chars(s: &str) -> Vec<char> {
    s.chars().collect()
}

fn text(v: &[char]) -> String {
    v.iter().collect()
}

#[test]
fn identifier_characters() {
    assert!(is_identifier_start('$'));
    assert!(is_identifier_start('_'));
    assert!(!is_identifier_start('1'));
    assert!(is_identifier_char('1'));
    assert!(!is_identifier_char('-'));
}

#[test]
fn whitespace_and_comments_are_skipped() {
    let t = chars("  // note\n  /* block */ x");
    assert_eq!(skip_ws_and_comments(&t, 0), 24);
    let u = chars("/* open");
    assert_eq!(skip_ws_and_comments(&u, 0), 7);
    let w = chars("a");
    assert_eq!(skip_ws_and_comments(&w, 0), 0);
    assert_eq!(skip_ws_and_comments(&w, 5), 5);
}

#[test]
fn keywords_stand_alone() {
    let t = chars("export default x; exports");
    assert!(starts_with_keyword(&t, 0, "export"));
    assert!(starts_with_keyword(&t, 7, "default"));
    assert!(!starts_with_keyword(&t, 18, "export"));
    let u = chars("reexport");
    assert!(!starts_with_keyword(&u, 2, "export"));
}

#[test]
fn string_literals_unescape() {
    let t = chars(r#"'a\'b' rest"#);
    let (value, end) = parse_string_literal(&t, 0).unwrap();
    assert_eq!(text(&value), "a'b");
    assert_eq!(end, 6);
    assert!(parse_string_literal(&chars("'open"), 0).is_none());
    assert!(parse_string_literal(&chars("x"), 0).is_none());
}

#[test]
fn template_literals_are_skipped() {
    let t = chars("`a\\`b` c");
    assert_eq!(skip_template_literal(&t, 0), Some(6));
    assert_eq!(skip_template_literal(&chars("`open"), 0), None);
}

#[test]
fn identifiers_and_dotted_names() {
    let t = chars("path.resolve(__dirname)");
    let (id, end) = parse_identifier(&t, 0).unwrap();
    assert_eq!(text(&id), "path");
    assert_eq!(end, 4);
    let (dotted, end) = parse_dotted_identifier(&t, 0).unwrap();
    assert_eq!(text(&dotted), "path.resolve");
    assert_eq!(end, 12);
    let u = chars("a /* c */ .b");
    let (dotted, _) = parse_dotted_identifier(&u, 0).unwrap();
    assert_eq!(text(&dotted), "a.b");
    assert!(parse_dotted_identifier(&chars("a.1"), 0).is_none());
    assert!(parse_dotted_identifier(&chars("a. b"), 0).is_none());
    assert!(parse_identifier(&chars("1a"), 0).is_none());
    let (key, _) = parse_string_or_identifier(&chars("\"@\": x"), 0).unwrap();
    assert_eq!(text(&key), "@");
}

#[test]
fn matching_delimiters_skip_strings_and_comments() {
    let t = chars("{ a: '}', b: { c: 1 } // }\n }");
    assert_eq!(find_matching_delimiter(&t, 0, '{', '}'), Some(t.len() - 1));
    assert_eq!(find_matching_brace(&t, 0), Some(t.len() - 1));
    assert_eq!(find_matching_delimiter(&chars("{ a"), 0, '{', '}'), None);
    assert_eq!(find_matching_delimiter(&chars("[1, [2]]"), 0, '[', ']'), Some(7));
}

#[test]
fn values_are_skipped() {
    let t = chars("{ a: 1 }, b");
    assert_eq!(skip_value(&t, 0, t.len()), Some(8));
    let u = chars("abc, d");
    assert_eq!(skip_value(&u, 0, u.len()), Some(3));
    let w = chars(", d");
    assert_eq!(skip_value(&w, 0, w.len()), Some(1));
    assert_eq!(skip_value(&chars("'x' y"), 0, 5), Some(3));
    assert_eq!(skip_value(&chars(""), 0, 0), None);
}

#[test]
fn export_default_is_found() {
    let t = chars("const s = 'export default'; // export default\nexport default { a: 1 }");
    let start = find_export_default_value_start(&t).unwrap();
    assert_eq!(t[start], '{');
    assert_eq!(find_export_default_value_start(&chars("module.exports = {}")), None);
}

#[test]
fn config_object_is_found_through_define_config() {
    let t = chars("import x from 'y';\nexport default defineConfig({ resolve: {} })");
    let start = find_vite_config_object_start(&t).unwrap();
    assert_eq!(t[start], '{');
    assert_eq!(start, 47);
    assert_eq!(find_vite_config_object_start(&chars("export default defineConfig(() => ({}))")), None);
}

#[test]
fn object_properties_are_found() {
    let t = chars("{ plugins: [a(), b()], 'resolve': { alias: { '@': x } } }");
    let found = find_object_property_value_start(&t, 0, "resolve").unwrap().unwrap();
    assert_eq!(t[found], '{');
    assert_eq!(find_object_property_value_start(&t, 0, "server"), Some(None));
    assert_eq!(find_object_property_value_start(&chars("{ a 1 }"), 0, "b"), None);
}

#[test]
fn alias_keys_and_targets() {
    assert_eq!(normalize_alias_key(" @/* "), "@");
    assert_eq!(normalize_alias_key("~/*/*"), "~");
    assert_eq!(normalize_alias_key("src/"), "src");
    assert_eq!(strip_trailing_slashes("a/b//"), "a/b");
    assert!(is_path_like_target("./src"));
    assert!(is_path_like_target("src\\lib"));
    assert!(!is_path_like_target("lodash"));
    assert!(has_url_like_prefix("https://x"));
    assert!(!has_url_like_prefix("c1:/x"));
    assert!(!has_url_like_prefix("nocolon"));
}

#[test]
fn alias_tables_are_compared_per_key() {
    assert_eq!(alias_sync_status(Some("/src"), Some("/src")), AliasSync::Same);
    assert_eq!(alias_sync_status(Some("/src"), Some("/lib")), AliasSync::Differs);
    assert_eq!(alias_sync_status(Some("/src"), None), AliasSync::ViteOnly);
    assert_eq!(alias_sync_status(None, Some("/src")), AliasSync::TsconfigOnly);
    assert_eq!(alias_sync_status(None, None), AliasSync::Neither);
}
