use maximus_checks::alias_tables::alias_sync_findings;
use maximus_checks::alias_tables::{
    alias_differences, effective_tsconfig_aliases, normalize_base_url,
    normalize_comparable_alias_target, normalize_path_like_target, parse_alias_value,
    parse_path_resolve_value, parse_tsconfig_aliases, parse_vite_aliases, AliasTable,
};
use maximus_checks::paths::PathBase;
use maximus_checks::json::JsonValue;
use maximus_checks::registry::Severity;
use maximus_checks::vite_config::AliasSync;

fn chars(s: &str) -> Vec<char> {
    s.chars().collect()
}

fn text(v: &[char]) -> String {
    v.iter().collect()
}

fn entries(t: &AliasTable) -> Vec<(String, String)> {
    t.entries.clone()
}

fn pair(k: &str, v: &str) -> (String, String) {
    (k.to_string(), v.to_string())
}

fn obj(members: Vec<(&str, JsonValue)>) -> JsonValue {
    JsonValue::Object(members.into_iter().map(|(k, v)| (k.to_string(), v)).collect())
}

fn s(v: &str) -> JsonValue {
    JsonValue::Text(v.to_string())
}

#[test]
fn targets_are_normalized_against_the_config_directory() {
    let base = PathBase::parent_of("/repo/vite.config.ts");
    assert_eq!(normalize_comparable_alias_target(&base, "./src"), Some("/repo/src".to_string()));
    assert_eq!(normalize_comparable_alias_target(&base, " src/* "), Some("/repo/src".to_string()));
    assert_eq!(
        normalize_comparable_alias_target(&base, "../shared/./lib/"),
        Some("/shared/lib".to_string())
    );
    assert_eq!(normalize_comparable_alias_target(&base, "/abs\\dir"), Some("/abs/dir".to_string()));
    assert_eq!(normalize_comparable_alias_target(&base, "react"), Some("react".to_string()));
    assert_eq!(normalize_comparable_alias_target(&base, "https://cdn.example"), None);
    assert_eq!(normalize_comparable_alias_target(&base, "   "), None);
    assert_eq!(normalize_comparable_alias_target(&base, "/"), None);
}

#[test]
fn relative_config_paths_keep_relative_targets() {
    let base = PathBase::parent_of("vite.config.ts");
    assert_eq!(normalize_path_like_target(&base, "./src/"), "src");
    let nested = PathBase::parent_of("app/vite.config.ts");
    assert_eq!(normalize_path_like_target(&nested, "./x/../y"), "app/y");
    // A relative path never climbs above its first part.
    assert_eq!(normalize_path_like_target(&nested, "../../x"), "app/x");
    let root = PathBase::parent_of("/vite.config.ts");
    assert_eq!(normalize_path_like_target(&root, "../x"), "/x");
    assert_eq!(normalize_path_like_target(&root, "."), "");
}

#[test]
fn base_urls_are_joined_or_refused() {
    let dir = PathBase::parent_of("/repo/tsconfig.json");
    let b = normalize_base_url(&dir, " ./src ").unwrap();
    assert_eq!(normalize_path_like_target(&b, "x"), "/repo/src/x");
    let abs = normalize_base_url(&dir, "/other").unwrap();
    assert_eq!(normalize_path_like_target(&abs, "x"), "/other/x");
    assert!(normalize_base_url(&dir, "").is_none());
    assert!(normalize_base_url(&dir, "file:x").is_none());
}

#[test]
fn alias_values_are_strings_or_resolve_calls() {
    let t = chars("'./a' rest");
    let (v, e) = parse_alias_value(&t, 0).unwrap();
    assert_eq!(text(&v), "./a");
    assert_eq!(e, 5);
    let t = chars("path.resolve(__dirname, 'src', \"lib\")");
    let (v, e) = parse_path_resolve_value(&t, 0).unwrap();
    assert_eq!(text(&v), "src/lib");
    assert_eq!(e, t.len());
    let t = chars("resolve('a', '/b', 'c')");
    let (v, _) = parse_alias_value(&t, 0).unwrap();
    assert_eq!(text(&v), "/b/c");
    assert!(parse_alias_value(&chars("resolve(__dirname)"), 0).is_none());
    assert!(parse_alias_value(&chars("join('a')"), 0).is_none());
    assert!(parse_alias_value(&chars("path.resolve 'a'"), 0).is_none());
}

#[test]
fn vite_object_aliases_are_read() {
    let src = "import { defineConfig } from 'vite'\n\
               import path from 'path'\n\
               // export default nothing here\n\
               export default defineConfig({\n\
                 plugins: [react()],\n\
                 resolve: {\n\
                   alias: {\n\
                     '@': path.resolve(__dirname, './src'),\n\
                     '~utils/*': './src/utils/*',\n\
                     pkg: 'some-package',\n\
                   },\n\
                 },\n\
               })\n";
    let table = parse_vite_aliases(src, "/repo/vite.config.ts").unwrap();
    assert_eq!(
        entries(&table),
        vec![
            pair("@", "/repo/src"),
            pair("pkg", "some-package"),
            pair("~utils", "/repo/src/utils"),
        ]
    );
}

#[test]
fn other_object_values_make_the_object_unreadable() {
    let src = "export default { resolve: { alias: { a: './a', b: someValue, c: './c' } } }";
    assert!(parse_vite_aliases(src, "/r/vite.config.ts").is_none());
    let last = "export default { resolve: { alias: { a: './a', b: someValue } } }";
    let table = parse_vite_aliases(last, "/r/vite.config.ts").unwrap();
    assert_eq!(entries(&table), vec![pair("a", "/r/a")]);
}

#[test]
fn vite_array_aliases_are_read() {
    let src = "export default {\n\
                 resolve: {\n\
                   alias: [\n\
                     { find: '@', replacement: '/abs/src' },\n\
                     { find: 'x', replacement: resolve('/a', 'b') },\n\
                     { find: 'no-replacement' },\n\
                     'ignored',\n\
                     { find: '@', replacement: './again' },\n\
                   ],\n\
                 },\n\
               }\n";
    let table = parse_vite_aliases(src, "/repo/vite.config.ts").unwrap();
    assert_eq!(entries(&table), vec![pair("@", "/repo/again"), pair("x", "/a/b")]);
}

#[test]
fn vite_configs_without_aliases() {
    let none = parse_vite_aliases("export default { plugins: [] }", "/r/vite.config.ts").unwrap();
    assert_eq!(none.len(), 0);
    let no_alias =
        parse_vite_aliases("export default { resolve: { dedupe: [] } }", "/r/vite.config.ts").unwrap();
    assert_eq!(no_alias.len(), 0);
    assert!(parse_vite_aliases("export default { resolve: { alias: 42 } }", "/r/v.ts").is_none());
    assert!(parse_vite_aliases("export default { resolve: 42 }", "/r/v.ts").is_none());
    assert!(parse_vite_aliases("module.exports = { }", "/r/v.ts").is_none());
}

#[test]
fn tsconfig_paths_are_read() {
    let co = obj(vec![
        ("baseUrl", s(".")),
        (
            "paths",
            obj(vec![
                ("@/*", JsonValue::Array(vec![s("src/*")])),
                ("lib", JsonValue::Array(vec![JsonValue::Null, s("./lib/index.ts")])),
                ("none", JsonValue::Array(vec![])),
                ("url", JsonValue::Array(vec![s("http://x")])),
            ]),
        ),
    ]);
    let table = parse_tsconfig_aliases(&co, "/repo/tsconfig.json");
    assert_eq!(entries(&table), vec![pair("@", "/repo/src"), pair("lib", "/repo/lib/index.ts")]);
    let other_base = obj(vec![
        ("baseUrl", s("./web")),
        ("paths", obj(vec![("a", JsonValue::Array(vec![s("a")]))])),
    ]);
    assert_eq!(
        entries(&parse_tsconfig_aliases(&other_base, "/repo/tsconfig.json")),
        vec![pair("a", "a")]
    );
    let not_object = obj(vec![("paths", JsonValue::Array(vec![]))]);
    assert_eq!(parse_tsconfig_aliases(&not_object, "/repo/tsconfig.json").len(), 0);
}

#[test]
fn effective_aliases_replace_or_inherit() {
    let mut inherited = AliasTable::new();
    inherited.insert("base".to_string(), "/b".to_string());
    let without = obj(vec![("compilerOptions", obj(vec![("strict", JsonValue::Bool(true))]))]);
    let kept = effective_tsconfig_aliases(&without, "/r/tsconfig.json", inherited);
    assert_eq!(entries(&kept), vec![pair("base", "/b")]);
    let with = obj(vec![(
        "compilerOptions",
        obj(vec![("paths", obj(vec![("x", JsonValue::Array(vec![s("./x")]))]))]),
    )]);
    let replaced = effective_tsconfig_aliases(&with, "/r/tsconfig.json", kept);
    assert_eq!(entries(&replaced), vec![pair("x", "/r/x")]);
}

#[test]
fn table_reads_give_back_writes() {
    let mut t = AliasTable::new();
    t.insert("b".to_string(), "1".to_string());
    t.insert("a".to_string(), "2".to_string());
    t.insert("c".to_string(), "3".to_string());
    t.insert("b".to_string(), "4".to_string());
    assert_eq!(entries(&t), vec![pair("a", "2"), pair("b", "4"), pair("c", "3")]);
    assert_eq!(t.get("b"), Some("4".to_string()));
    assert_eq!(t.get("a"), Some("2".to_string()));
    assert_eq!(t.get("d"), None);
}

#[test]
fn differences_are_reported_in_key_order() {
    let mut vite = AliasTable::new();
    vite.insert("@".to_string(), "/r/src".to_string());
    vite.insert("same".to_string(), "/r/s".to_string());
    vite.insert("v".to_string(), "/r/v".to_string());
    let mut ts = AliasTable::new();
    ts.insert("@".to_string(), "/r/app".to_string());
    ts.insert("same".to_string(), "/r/s".to_string());
    ts.insert("t".to_string(), "/r/t".to_string());
    let d = alias_differences(&vite, &ts);
    assert_eq!(d.len(), 3);
    assert_eq!(d[0].key, "@");
    assert_eq!(d[0].status, AliasSync::Differs);
    assert_eq!(d[0].title(), "Vite alias \"@\" differs from tsconfig paths");
    assert_eq!(
        d[0].detail(),
        "Vite resolves \"@\" to /r/src, but tsconfig paths resolves it to /r/app."
    );
    assert_eq!(d[0].severity(), Severity::Warn);
    assert_eq!(d[1].key, "t");
    assert_eq!(d[1].status, AliasSync::TsconfigOnly);
    assert_eq!(d[1].title(), "tsconfig path alias \"t\" is missing from Vite");
    assert_eq!(
        d[1].detail(),
        "tsconfig paths resolves \"t\" to /r/t, but Vite does not declare the same key."
    );
    assert_eq!(d[1].severity(), Severity::Info);
    assert_eq!(d[2].key, "v");
    assert_eq!(d[2].status, AliasSync::ViteOnly);
    assert_eq!(d[2].title(), "Vite alias \"v\" is missing from tsconfig paths");
    assert_eq!(
        d[2].detail(),
        "Vite resolves \"v\" to /r/v, but tsconfig paths does not declare the same key."
    );
    assert_eq!(d[2].vite_target, Some("/r/v".to_string()));
    assert_eq!(d[2].tsconfig_target, None);
}

#[test]
fn normalizing_twice_changes_nothing() {
    let here = PathBase::parent_of("vite.config.ts");
    for target in ["../../x/./y/..", "/a/../../b", "a/b/../../..", "./x//y/"] {
        let once = normalize_path_like_target(&here, target);
        assert_eq!(normalize_path_like_target(&here, &once), once);
    }
}

#[test]
fn alias_sync_findings_report_each_disagreement() {
    let mut vite = AliasTable::new();
    vite.insert("@".to_string(), "/r/src".to_string());
    vite.insert("@lib".to_string(), "/r/lib".to_string());
    vite.insert("same".to_string(), "/r/same".to_string());
    let mut ts = AliasTable::new();
    ts.insert("@".to_string(), "/r/app".to_string());
    ts.insert("same".to_string(), "/r/same".to_string());
    ts.insert("~".to_string(), "/r/home".to_string());
    let ts_path = "/r/tsconfig.json".to_string();
    let out = alias_sync_findings("/r/vite.config.ts", Some(&ts_path), &vite, &ts);
    assert_eq!(out.len(), 3);
    assert_eq!(out[0].id, "vite-alias-sync:/r/vite.config.ts:@");
    assert_eq!(out[0].title, "Vite alias \"@\" differs from tsconfig paths");
    assert_eq!(
        out[0].detail,
        "Vite resolves \"@\" to /r/src, but tsconfig paths resolves it to /r/app."
    );
    assert!(out[0].severity == Severity::Warn);
    assert_eq!(out[0].file.as_deref(), Some("/r/vite.config.ts"));
    assert_eq!(out[1].id, "vite-alias-sync:/r/vite.config.ts:@lib:vite-only");
    assert!(out[1].severity == Severity::Info);
    assert_eq!(out[2].id, "vite-alias-sync:/r/tsconfig.json:~:tsconfig-only");
    assert_eq!(out[2].title, "tsconfig path alias \"~\" is missing from Vite");
    assert_eq!(out[2].file.as_deref(), Some("/r/tsconfig.json"));
}

#[test]
fn agreeing_alias_tables_give_no_findings() {
    let mut vite = AliasTable::new();
    vite.insert("@".to_string(), "/r/src".to_string());
    let mut ts = AliasTable::new();
    ts.insert("@".to_string(), "/r/src".to_string());
    assert!(alias_sync_findings("/r/vite.config.ts", None, &vite, &ts).is_empty());
}
