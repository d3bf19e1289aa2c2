//! The findings of the tsconfig check: how each is identified, titled,
//! explained and rated, and which guidance `types` and `typeRoots` call for.
use vstd::prelude::*;
use crate::json::JsonValue;
use crate::registry::Severity;
use crate::tsconfig_rules::{
    index_views, parse_type_roots_option, parse_types_option, string_list_option, StringListOption,
};
use crate::text::{append_chars, append_str, chars_of, decimal, join_with, string_from, string_views, u64_decimal};

verus! {

/// A finding of the tsconfig check.
pub struct TsFinding {
    pub id: String,
    pub title: String,
    pub detail: String,
    pub hint: &'static str,
    pub severity: Severity,
    /// The config the finding points at.
    pub file: String,
}

/// A finding as (id, title, detail, hint, severity, file).
pub type TsView = (Seq<char>, Seq<char>, Seq<char>, Seq<char>, Severity, Seq<char>);

pub open spec fn ts_view(f: TsFinding) -> TsView {
    (f.id@, f.title@, f.detail@, f.hint@, f.severity, f.file@)
}

pub open spec fn ts_views(v: Seq<TsFinding>) -> Seq<TsView> {
    v.map_values(|f: TsFinding| ts_view(f))
}

fn text_of(parts: &[&str]) -> (out: String)
    ensures
        out@ == concat_all(parts@),
{
    let mut out: Vec<char> = Vec::new();
    let mut i: usize = 0;
    while i < parts.len()
        invariant
            i <= parts@.len(),
            out@ == concat_all(parts@.take(i as int)),
        decreases parts@.len() - i,
    {
        assert(parts@.take(i + 1).drop_last() =~= parts@.take(i as int));
        append_str(&mut out, parts[i]);
        i += 1;
    }
    assert(parts@.take(parts@.len() as int) =~= parts@);
    string_from(out.as_slice())
}

/// The pieces joined.
pub open spec fn concat_all(parts: Seq<&str>) -> Seq<char>
    decreases parts.len(),
{
    if parts.len() == 0 {
        seq![]
    } else {
        concat_all(parts.drop_last()) + parts.last()@
    }
}

proof fn lemma_concat2(a: &str, b: &str)
    ensures
        concat_all(seq![a, b]) == a@ + b@,
{
    let one = seq![a];
    let two = seq![a, b];
    assert(one.drop_last() =~= Seq::<&str>::empty());
    assert(one.last() == a);
    assert(concat_all(one) == concat_all(Seq::<&str>::empty()) + a@);
    assert(concat_all(one) =~= a@);
    assert(two.drop_last() =~= one);
    assert(two.last() == b);
    assert(concat_all(two) == concat_all(one) + b@);
}

proof fn lemma_concat3(a: &str, b: &str, c: &str)
    ensures
        concat_all(seq![a, b, c]) == a@ + b@ + c@,
{
    assert(seq![a, b, c].drop_last() =~= seq![a, b]);
    lemma_concat2(a, b);
}

proof fn lemma_concat4(a: &str, b: &str, c: &str, d: &str)
    ensures
        concat_all(seq![a, b, c, d]) == a@ + b@ + c@ + d@,
{
    assert(seq![a, b, c, d].drop_last() =~= seq![a, b, c]);
    lemma_concat3(a, b, c);
}

proof fn lemma_concat5(a: &str, b: &str, c: &str, d: &str, e: &str)
    ensures
        concat_all(seq![a, b, c, d, e]) == a@ + b@ + c@ + d@ + e@,
{
    assert(seq![a, b, c, d, e].drop_last() =~= seq![a, b, c, d]);
    lemma_concat4(a, b, c, d);
}

proof fn lemma_concat6(a: &str, b: &str, c: &str, d: &str, e: &str, f: &str)
    ensures
        concat_all(seq![a, b, c, d, e, f]) == a@ + b@ + c@ + d@ + e@ + f@,
{
    assert(seq![a, b, c, d, e, f].drop_last() =~= seq![a, b, c, d, e]);
    lemma_concat5(a, b, c, d, e);
}

fn text2(a: &str, b: &str) -> (out: String)
    ensures
        out@ == a@ + b@,
{
    proof {
        lemma_concat2(a, b);
    }
    text_of(&[a, b])
}

fn text3(a: &str, b: &str, c: &str) -> (out: String)
    ensures
        out@ == a@ + b@ + c@,
{
    proof {
        lemma_concat3(a, b, c);
    }
    text_of(&[a, b, c])
}

fn text4(a: &str, b: &str, c: &str, d: &str) -> (out: String)
    ensures
        out@ == a@ + b@ + c@ + d@,
{
    proof {
        lemma_concat4(a, b, c, d);
    }
    text_of(&[a, b, c, d])
}

fn text5(a: &str, b: &str, c: &str, d: &str, e: &str) -> (out: String)
    ensures
        out@ == a@ + b@ + c@ + d@ + e@,
{
    proof {
        lemma_concat5(a, b, c, d, e);
    }
    text_of(&[a, b, c, d, e])
}

fn text6(a: &str, b: &str, c: &str, d: &str, e: &str, f: &str) -> (out: String)
    ensures
        out@ == a@ + b@ + c@ + d@ + e@ + f@,
{
    proof {
        lemma_concat6(a, b, c, d, e, f);
    }
    text_of(&[a, b, c, d, e, f])
}

fn lit(s: &str) -> (out: String)
    ensures
        out@ == s@,
{
    let c = crate::text::chars_of(s);
    string_from(c.as_slice())
}

// ---------------------------------------------------------------------
// The file and `paths`
// ---------------------------------------------------------------------

/// The finding for a tsconfig that is not valid JSONC; `error` is the
/// parser's message.
pub fn parse_error_finding(file_path: &str, error: &str) -> (r: TsFinding)
    ensures
        r.id@ == "tsconfig-parse:"@ + file_path@,
        r.title@ == "Config file could not be parsed"@,
        r.detail@ == error@,
        r.hint@ == "Fix invalid JSONC syntax before relying on this config."@,
        r.severity == Severity::Error,
        r.file@ == file_path@,
{
    TsFinding {
        id: text2("tsconfig-parse:", file_path),
        title: lit("Config file could not be parsed"),
        detail: lit(error),
        hint: "Fix invalid JSONC syntax before relying on this config.",
        severity: Severity::Error,
        file: lit(file_path),
    }
}

/// The finding for a `paths` value that is not an object.
pub fn paths_shape_finding(file_path: &str) -> (r: TsFinding)
    ensures
        r.id@ == "tsconfig-paths-shape:"@ + file_path@,
        r.title@ == "compilerOptions.paths must be an object"@,
        r.detail@ == "TypeScript expects alias keys mapped to arrays of target strings."@,
        r.hint@ == "Rewrite paths to the standard { alias: [targets] } shape."@,
        r.severity == Severity::Error,
        r.file@ == file_path@,
{
    TsFinding {
        id: text2("tsconfig-paths-shape:", file_path),
        title: lit("compilerOptions.paths must be an object"),
        detail: lit("TypeScript expects alias keys mapped to arrays of target strings."),
        hint: "Rewrite paths to the standard { alias: [targets] } shape.",
        severity: Severity::Error,
        file: lit(file_path),
    }
}

/// The finding for a deprecated compiler option, with its guidance.
pub fn deprecated_option_finding(file_path: &str, option: &str, guidance: &str) -> (r: TsFinding)
    ensures
        r.id@ == "tsconfig-deprecated:"@ + file_path@ + ":"@ + option@,
        r.title@ == "Deprecated compiler option \""@ + option@ + "\""@,
        r.detail@ == guidance@,
        r.hint@ == "Remove legacy flags before they become upgrade blockers."@,
        r.severity == Severity::Warn,
        r.file@ == file_path@,
{
    TsFinding {
        id: text4("tsconfig-deprecated:", file_path, ":", option),
        title: text3("Deprecated compiler option \"", option, "\""),
        detail: lit(guidance),
        hint: "Remove legacy flags before they become upgrade blockers.",
        severity: Severity::Warn,
        file: lit(file_path),
    }
}

/// The finding for an alias with no targets.
pub fn paths_empty_finding(file_path: &str, alias: &str) -> (r: TsFinding)
    ensures
        r.id@ == "tsconfig-paths-empty:"@ + file_path@ + ":"@ + alias@,
        r.title@ == "Alias \""@ + alias@ + "\" does not declare any targets"@,
        r.detail@ == "Each path alias should map to at least one target string."@,
        r.hint@ == "Add a valid target or remove the alias entry."@,
        r.severity == Severity::Error,
        r.file@ == file_path@,
{
    TsFinding {
        id: text4("tsconfig-paths-empty:", file_path, ":", alias),
        title: text3("Alias \"", alias, "\" does not declare any targets"),
        detail: lit("Each path alias should map to at least one target string."),
        hint: "Add a valid target or remove the alias entry.",
        severity: Severity::Error,
        file: lit(file_path),
    }
}

/// The finding for an alias with a target that is not a string.
pub fn paths_type_finding(file_path: &str, alias: &str) -> (r: TsFinding)
    ensures
        r.id@ == "tsconfig-paths-type:"@ + file_path@ + ":"@ + alias@,
        r.title@ == "Alias \""@ + alias@ + "\" contains a non-string target"@,
        r.detail@ == "TypeScript path targets must be strings."@,
        r.hint@ == "Replace non-string entries with valid path strings."@,
        r.severity == Severity::Error,
        r.file@ == file_path@,
{
    TsFinding {
        id: text4("tsconfig-paths-type:", file_path, ":", alias),
        title: text3("Alias \"", alias, "\" contains a non-string target"),
        detail: lit("TypeScript path targets must be strings."),
        hint: "Replace non-string entries with valid path strings.",
        severity: Severity::Error,
        file: lit(file_path),
    }
}

/// The finding for a target whose `*` use differs from its alias's.
pub fn paths_wildcard_finding(file_path: &str, alias: &str, target: &str) -> (r: TsFinding)
    ensures
        r.id@ == "tsconfig-paths-wildcard:"@ + file_path@ + ":"@ + alias@ + ":"@ + target@,
        r.title@ == "Wildcard shape does not match for alias \""@ + alias@ + "\""@,
        r.detail@ == alias@ + " maps to "@ + target@ + ", but only one side uses \"*\"."@,
        r.hint@ == "Keep wildcard placement aligned so imports resolve predictably."@,
        r.severity == Severity::Warn,
        r.file@ == file_path@,
{
    TsFinding {
        id: text6("tsconfig-paths-wildcard:", file_path, ":", alias, ":", target),
        title: text3("Wildcard shape does not match for alias \"", alias, "\""),
        detail: text4(alias, " maps to ", target, ", but only one side uses \"*\"."),
        hint: "Keep wildcard placement aligned so imports resolve predictably.",
        severity: Severity::Warn,
        file: lit(file_path),
    }
}

/// The finding for an alias target that does not exist.
pub fn paths_missing_finding(file_path: &str, alias: &str, target: &str) -> (r: TsFinding)
    ensures
        r.id@ == "tsconfig-paths-missing:"@ + file_path@ + ":"@ + alias@ + ":"@ + target@,
        r.title@ == "Path alias target does not exist"@,
        r.detail@ == alias@ + " points to "@ + target@,
        r.hint@ == "Update or remove the stale alias target."@,
        r.severity == Severity::Error,
        r.file@ == file_path@,
{
    TsFinding {
        id: text6("tsconfig-paths-missing:", file_path, ":", alias, ":", target),
        title: lit("Path alias target does not exist"),
        detail: text3(alias, " points to ", target),
        hint: "Update or remove the stale alias target.",
        severity: Severity::Error,
        file: lit(file_path),
    }
}

/// The targets of an alias that are reported missing: none when some
/// string target exists, else all of them. `exists[k]` says whether
/// target `k` exists; one past the end of `exists` counts as missing.
pub open spec fn missing_targets(n: int, exists: Seq<bool>) -> Seq<int> {
    if exists|k: int| 0 <= k < n && k < exists.len() && #[trigger] exists[k] {
        seq![]
    } else {
        Seq::new(n as nat, |k: int| k)
    }
}

pub fn missing_path_targets(target_count: usize, exists: &[bool]) -> (out: Vec<usize>)
    ensures
        out@.map_values(|k: usize| k as int) == missing_targets(target_count as int, exists@),
{
    let mut k: usize = 0;
    while k < target_count
        invariant
            k <= target_count,
            forall|j: int| 0 <= j < k ==> !(j < exists@.len() && exists@[j]),
        decreases target_count - k,
    {
        if k < exists.len() && exists[k] {
            let out: Vec<usize> = Vec::new();
            assert(out@.map_values(|k: usize| k as int) =~= Seq::<int>::empty());
            return out;
        }
        k += 1;
    }
    let mut out: Vec<usize> = Vec::new();
    let mut i: usize = 0;
    while i < target_count
        invariant
            i <= target_count,
            forall|j: int| 0 <= j < target_count ==> !(j < exists@.len() && exists@[j]),
            out@.map_values(|k: usize| k as int) =~= Seq::new(i as nat, |k: int| k),
        decreases target_count - i,
    {
        let ghost before = out@;
        out.push(i);
        assert(out@.map_values(|k: usize| k as int) =~= before.map_values(|k: usize| k as int).push(
            i as int,
        ));
        i += 1;
    }
    out
}

/// The finding for a package-style alias.
pub fn shadow_package_finding(file_path: &str, alias: &str) -> (r: TsFinding)
    ensures
        r.id@ == "tsconfig-paths-shadow-package:"@ + file_path@ + ":"@ + alias@,
        r.title@ == "Path alias \""@ + alias@ + "\" shadows a package import"@,
        r.detail@ == "\""@ + alias@
            + "\" is a bare package-style specifier, so this alias can override an installed package or workspace package with the same import path."@,
        r.hint@
            == "Prefer #internal/* or another dedicated namespace for app-local aliases so package imports stay unambiguous."@,
        r.severity == Severity::Warn,
        r.file@ == file_path@,
{
    TsFinding {
        id: text4("tsconfig-paths-shadow-package:", file_path, ":", alias),
        title: text3("Path alias \"", alias, "\" shadows a package import"),
        detail: text3(
            "\"",
            alias,
            "\" is a bare package-style specifier, so this alias can override an installed package or workspace package with the same import path.",
        ),
        hint: "Prefer #internal/* or another dedicated namespace for app-local aliases so package imports stay unambiguous.",
        severity: Severity::Warn,
        file: lit(file_path),
    }
}

/// The finding for an alias that shadows another.
pub fn shadow_alias_finding(file_path: &str, shadowing: &str, shadowed: &str) -> (r: TsFinding)
    ensures
        r.id@ == "tsconfig-paths-shadow-alias:"@ + file_path@ + ":"@ + shadowing@ + ":"@ + shadowed@,
        r.title@ == "Path alias \""@ + shadowing@ + "\" shadows \""@ + shadowed@ + "\""@,
        r.detail@ == "Both aliases can match the same import specifier, so TypeScript will prefer \""@
            + shadowing@ + "\" and hide \""@ + shadowed@ + "\" for those imports."@,
        r.hint@ == "Make overlapping aliases disjoint so imports keep a single obvious target."@,
        r.severity == Severity::Warn,
        r.file@ == file_path@,
{
    TsFinding {
        id: text6("tsconfig-paths-shadow-alias:", file_path, ":", shadowing, ":", shadowed),
        title: text5("Path alias \"", shadowing, "\" shadows \"", shadowed, "\""),
        detail: text5(
            "Both aliases can match the same import specifier, so TypeScript will prefer \"",
            shadowing,
            "\" and hide \"",
            shadowed,
            "\" for those imports.",
        ),
        hint: "Make overlapping aliases disjoint so imports keep a single obvious target.",
        severity: Severity::Warn,
        file: lit(file_path),
    }
}

// ---------------------------------------------------------------------
// `types` and `typeRoots`
// ---------------------------------------------------------------------

/// The finding for a `types` or `typeRoots` value that is not an array
/// (`roots` says which).
pub fn type_option_shape_finding(file_path: &str, roots: bool) -> (r: TsFinding)
    ensures
        !roots ==> r.id@ == "tsconfig-types-shape:"@ + file_path@ && r.title@
            == "\"compilerOptions.types\" must be an array of package names"@ && r.detail@
            == "TypeScript expects compilerOptions.types to be an array of string package names."@
            && r.hint@
            == "Rewrite compilerOptions.types as [\"node\", \"jest\"]-style package names or remove it."@,
        roots ==> r.id@ == "tsconfig-typeroots-shape:"@ + file_path@ && r.title@
            == "\"compilerOptions.typeRoots\" must be an array of directory paths"@ && r.detail@
            == "TypeScript expects compilerOptions.typeRoots to be an array of string directory paths."@
            && r.hint@
            == "Rewrite compilerOptions.typeRoots as [\"./types\", \"./node_modules/@types\"]-style paths or remove it."@,
        r.severity == Severity::Error,
        r.file@ == file_path@,
{
    if roots {
        TsFinding {
            id: text2("tsconfig-typeroots-shape:", file_path),
            title: lit("\"compilerOptions.typeRoots\" must be an array of directory paths"),
            detail: lit(
                "TypeScript expects compilerOptions.typeRoots to be an array of string directory paths.",
            ),
            hint: "Rewrite compilerOptions.typeRoots as [\"./types\", \"./node_modules/@types\"]-style paths or remove it.",
            severity: Severity::Error,
            file: lit(file_path),
        }
    } else {
        TsFinding {
            id: text2("tsconfig-types-shape:", file_path),
            title: lit("\"compilerOptions.types\" must be an array of package names"),
            detail: lit(
                "TypeScript expects compilerOptions.types to be an array of string package names.",
            ),
            hint: "Rewrite compilerOptions.types as [\"node\", \"jest\"]-style package names or remove it.",
            severity: Severity::Error,
            file: lit(file_path),
        }
    }
}

/// The finding for an entry of `types` or `typeRoots` that is not a
/// non-empty string, by its index.
pub fn type_option_entry_finding(file_path: &str, index: u64, roots: bool) -> (r: TsFinding)
    ensures
        !roots ==> r.id@ == "tsconfig-types-entry:"@ + file_path@ + ":"@ + decimal(index as nat)
            && r.title@ == "\"compilerOptions.types\" contains a non-string package name"@
            && r.detail@ == file_path@ + " declares compilerOptions.types["@ + decimal(index as nat)
            + "], but TypeScript expects a non-empty string package name."@ && r.hint@
            == "Rewrite compilerOptions.types as [\"node\", \"jest\"]-style package names or remove it."@,
        roots ==> r.id@ == "tsconfig-typeroots-entry:"@ + file_path@ + ":"@ + decimal(index as nat)
            && r.title@ == "\"compilerOptions.typeRoots\" contains a non-string path"@ && r.detail@
            == file_path@ + " declares compilerOptions.typeRoots["@ + decimal(index as nat)
            + "], but TypeScript expects a non-empty string directory path."@ && r.hint@
            == "Rewrite compilerOptions.typeRoots as [\"./types\", \"./node_modules/@types\"]-style paths or remove it."@,
        r.severity == Severity::Error,
        r.file@ == file_path@,
{
    let n = u64_decimal(index);
    let ns = string_from(n.as_slice());
    if roots {
        TsFinding {
            id: text4("tsconfig-typeroots-entry:", file_path, ":", ns.as_str()),
            title: lit("\"compilerOptions.typeRoots\" contains a non-string path"),
            detail: text4(
                file_path,
                " declares compilerOptions.typeRoots[",
                ns.as_str(),
                "], but TypeScript expects a non-empty string directory path.",
            ),
            hint: "Rewrite compilerOptions.typeRoots as [\"./types\", \"./node_modules/@types\"]-style paths or remove it.",
            severity: Severity::Error,
            file: lit(file_path),
        }
    } else {
        TsFinding {
            id: text4("tsconfig-types-entry:", file_path, ":", ns.as_str()),
            title: lit("\"compilerOptions.types\" contains a non-string package name"),
            detail: text4(
                file_path,
                " declares compilerOptions.types[",
                ns.as_str(),
                "], but TypeScript expects a non-empty string package name.",
            ),
            hint: "Rewrite compilerOptions.types as [\"node\", \"jest\"]-style package names or remove it.",
            severity: Severity::Error,
            file: lit(file_path),
        }
    }
}

/// The finding for a `typeRoots` entry that does not exist.
pub fn type_root_missing_finding(file_path: &str, type_root: &str) -> (r: TsFinding)
    ensures
        r.id@ == "tsconfig-typeroots-missing:"@ + file_path@ + ":"@ + type_root@,
        r.title@ == "Configured typeRoots entry does not exist"@,
        r.detail@ == "compilerOptions.typeRoots includes \""@ + type_root@
            + "\", but the resolved path was not found."@,
        r.hint@
            == "Create the missing types directory or remove stale typeRoots entries before TypeScript silently skips expected declarations."@,
        r.severity == Severity::Warn,
        r.file@ == file_path@,
{
    TsFinding {
        id: text4("tsconfig-typeroots-missing:", file_path, ":", type_root),
        title: lit("Configured typeRoots entry does not exist"),
        detail: text3(
            "compilerOptions.typeRoots includes \"",
            type_root,
            "\", but the resolved path was not found.",
        ),
        hint: "Create the missing types directory or remove stale typeRoots entries before TypeScript silently skips expected declarations.",
        severity: Severity::Warn,
        file: lit(file_path),
    }
}

/// A lowercase hexadecimal digit.
pub open spec fn hex_lower(n: int) -> char {
    if n < 10 {
        (('0' as int) + n) as char
    } else {
        (('a' as int) + n - 10) as char
    }
}

/// One character inside a JSON string: `"` and `\` and the control
/// characters backspace, tab, line feed, form feed and carriage return get
/// their short escapes, the other characters below 0x20 a `\u00XX` escape
/// in lowercase hex; every other character stays as it is.
pub open spec fn json_escape_char(c: char) -> Seq<char> {
    let n = c as u32;
    if c == '"' {
        seq!['\\', '"']
    } else if c == '\\' {
        seq!['\\', '\\']
    } else if n == 8 {
        seq!['\\', 'b']
    } else if n == 9 {
        seq!['\\', 't']
    } else if n == 10 {
        seq!['\\', 'n']
    } else if n == 12 {
        seq!['\\', 'f']
    } else if n == 13 {
        seq!['\\', 'r']
    } else if n < 32 {
        seq!['\\', 'u', '0', '0', hex_lower(n as int / 16), hex_lower(n as int % 16)]
    } else {
        seq![c]
    }
}

/// The characters of a string, each escaped.
pub open spec fn json_escaped(s: Seq<char>) -> Seq<char>
    decreases s.len(),
{
    if s.len() == 0 {
        seq![]
    } else {
        json_escaped(s.drop_last()) + json_escape_char(s.last())
    }
}

/// A JSON string literal.
pub open spec fn json_string(s: Seq<char>) -> Seq<char> {
    seq!['"'] + json_escaped(s) + seq!['"']
}

/// The compact JSON text of a list of strings: `[`, the string literals
/// joined by `,`, `]`.
pub open spec fn json_string_list(values: Seq<Seq<char>>) -> Seq<char> {
    seq!['['] + join_with(values.map_values(|v: Seq<char>| json_string(v)), seq![',']) + seq![']']
}

/// `serde_json::to_string` on a list of strings: the compact JSON array of
/// their string literals. Serializing strings into memory does not fail.
#[verifier::external_body]
fn json_list_text(values: &Vec<String>) -> (r: Option<String>)
    ensures
        r is Some,
        r.unwrap()@ == json_string_list(string_views(values@)),
{
    serde_json::to_string(values).ok()
}

/// The list as JSON text, as the `types` findings show it.
pub open spec fn list_text(values: Seq<Seq<char>>) -> Seq<char> {
    json_string_list(values)
}

pub fn format_string_list(values: &Vec<String>) -> (out: String)
    ensures
        out@ == list_text(string_views(values@)),
{
    match json_list_text(values) {
        Some(s) => s,
        None => lit("[]"),
    }
}

/// Which guidance `types` and `typeRoots` call for.
#[derive(PartialEq, Eq, Structural, Clone, Copy, Debug)]
pub enum TypesGuidance {
    /// Both lists are set.
    Both,
    /// Only `types` is set, to the empty list.
    TypesEmpty,
    /// Only `types` is set, to a non-empty list.
    TypesLimited,
    /// Only `typeRoots` is set.
    RootsOnly,
}

/// The guidance for usable `types` and `typeRoots` lists (`None` when the
/// option is absent or refused), by how many entries `types` has.
pub open spec fn types_guidance_kind(types_len: Option<nat>, roots_set: bool) -> Option<TypesGuidance> {
    match (types_len, roots_set) {
        (Some(_), true) => Some(TypesGuidance::Both),
        (Some(n), false) => Some(if n == 0 {
            TypesGuidance::TypesEmpty
        } else {
            TypesGuidance::TypesLimited
        }),
        (None, true) => Some(TypesGuidance::RootsOnly),
        (None, false) => None,
    }
}

/// The guidance finding, from the JSON texts of the two lists.
pub open spec fn guidance_detail(kind: TypesGuidance, types_text: Seq<char>, roots_text: Seq<char>) -> Seq<
    char,
> {
    match kind {
        TypesGuidance::Both => "compilerOptions.types only includes "@ + types_text
            + ", and compilerOptions.typeRoots only searches "@ + roots_text
            + ", so unlisted ambient packages outside those roots will be hidden from TypeScript."@,
        TypesGuidance::TypesEmpty => "compilerOptions.types is set to [], so TypeScript will not auto-include any ambient @types packages."@,
        TypesGuidance::TypesLimited => "compilerOptions.types only includes "@ + types_text
            + ", so unlisted ambient @types packages will not be injected automatically."@,
        TypesGuidance::RootsOnly => "compilerOptions.typeRoots only searches "@ + roots_text
            + ", so TypeScript will stop using the default node_modules/@types lookup for this config."@,
    }
}

/// The guidance finding.
pub open spec fn guidance_view(fp: Seq<char>, kind: TypesGuidance, types_text: Seq<char>, roots_text: Seq<char>) -> TsView {
    (
        match kind {
            TypesGuidance::Both => "tsconfig-types-typeroots-guidance:"@ + fp,
            TypesGuidance::RootsOnly => "tsconfig-typeroots-guidance:"@ + fp,
            _ => "tsconfig-types-guidance:"@ + fp,
        },
        match kind {
            TypesGuidance::Both => "compilerOptions.types and typeRoots both narrow ambient type resolution"@,
            TypesGuidance::TypesEmpty => "compilerOptions.types disables automatic @types inclusion"@,
            TypesGuidance::TypesLimited => "compilerOptions.types limits ambient type packages"@,
            TypesGuidance::RootsOnly => "compilerOptions.typeRoots disables default @types discovery"@,
        },
        guidance_detail(kind, types_text, roots_text),
        match kind {
            TypesGuidance::Both => "Keep both lists aligned with every global types package your runtime and tests rely on."@,
            TypesGuidance::RootsOnly => "Include every required ambient types directory or remove typeRoots to restore default discovery."@,
            _ => "Keep this list in sync with every test and runtime package that should contribute global types."@,
        },
        if kind == TypesGuidance::TypesLimited {
            Severity::Info
        } else {
            Severity::Warn
        },
        fp,
    )
}

pub fn guidance_finding(file_path: &str, kind: TypesGuidance, types_text: &str, roots_text: &str) -> (r:
    TsFinding)
    ensures
        ts_view(r) == guidance_view(file_path@, kind, types_text@, roots_text@),
{
    match kind {
        TypesGuidance::Both => TsFinding {
            id: text2("tsconfig-types-typeroots-guidance:", file_path),
            title: lit("compilerOptions.types and typeRoots both narrow ambient type resolution"),
            detail: text5(
                "compilerOptions.types only includes ",
                types_text,
                ", and compilerOptions.typeRoots only searches ",
                roots_text,
                ", so unlisted ambient packages outside those roots will be hidden from TypeScript.",
            ),
            hint: "Keep both lists aligned with every global types package your runtime and tests rely on.",
            severity: Severity::Warn,
            file: lit(file_path),
        },
        TypesGuidance::TypesEmpty => TsFinding {
            id: text2("tsconfig-types-guidance:", file_path),
            title: lit("compilerOptions.types disables automatic @types inclusion"),
            detail: lit(
                "compilerOptions.types is set to [], so TypeScript will not auto-include any ambient @types packages.",
            ),
            hint: "Keep this list in sync with every test and runtime package that should contribute global types.",
            severity: Severity::Warn,
            file: lit(file_path),
        },
        TypesGuidance::TypesLimited => TsFinding {
            id: text2("tsconfig-types-guidance:", file_path),
            title: lit("compilerOptions.types limits ambient type packages"),
            detail: text3(
                "compilerOptions.types only includes ",
                types_text,
                ", so unlisted ambient @types packages will not be injected automatically.",
            ),
            hint: "Keep this list in sync with every test and runtime package that should contribute global types.",
            severity: Severity::Info,
            file: lit(file_path),
        },
        TypesGuidance::RootsOnly => TsFinding {
            id: text2("tsconfig-typeroots-guidance:", file_path),
            title: lit("compilerOptions.typeRoots disables default @types discovery"),
            detail: text3(
                "compilerOptions.typeRoots only searches ",
                roots_text,
                ", so TypeScript will stop using the default node_modules/@types lookup for this config.",
            ),
            hint: "Include every required ambient types directory or remove typeRoots to restore default discovery.",
            severity: Severity::Warn,
            file: lit(file_path),
        },
    }
}

/// The guidance finding for usable `types` and `typeRoots` lists, with
/// the lists written as JSON text; none when neither is set.
pub fn types_guidance(file_path: &str, types: Option<&Vec<String>>, type_roots: Option<&Vec<String>>) -> (r:
    Option<TsFinding>)
    ensures
        match types_guidance_kind(
            match types {
                Some(t) => Some(t@.len()),
                None => None::<nat>,
            },
            type_roots is Some,
        ) {
            None => r is None,
            Some(kind) => r matches Some(f) && ts_view(f) == guidance_view(
                file_path@,
                kind,
                match types {
                    Some(t) => list_text(string_views(t@)),
                    None => "[]"@,
                },
                match type_roots {
                    Some(t) => list_text(string_views(t@)),
                    None => "[]"@,
                },
            ),
        },
{
    let kind = match (types, type_roots) {
        (Some(_), Some(_)) => TypesGuidance::Both,
        (Some(t), None) => if t.len() == 0 {
            TypesGuidance::TypesEmpty
        } else {
            TypesGuidance::TypesLimited
        },
        (None, Some(_)) => TypesGuidance::RootsOnly,
        (None, None) => {
            return None;
        },
    };
    let types_text = match types {
        Some(t) => format_string_list(t),
        None => lit("[]"),
    };
    let roots_text = match type_roots {
        Some(t) => format_string_list(t),
        None => lit("[]"),
    };
    Some(guidance_finding(file_path, kind, types_text.as_str(), roots_text.as_str()))
}

/// The shape finding of `types` or `typeRoots` (`roots` says which).
pub open spec fn type_shape_view(fp: Seq<char>, roots: bool) -> TsView {
    if roots {
        (
            "tsconfig-typeroots-shape:"@ + fp,
            "\"compilerOptions.typeRoots\" must be an array of directory paths"@,
            "TypeScript expects compilerOptions.typeRoots to be an array of string directory paths."@,
            "Rewrite compilerOptions.typeRoots as [\"./types\", \"./node_modules/@types\"]-style paths or remove it."@,
            Severity::Error,
            fp,
        )
    } else {
        (
            "tsconfig-types-shape:"@ + fp,
            "\"compilerOptions.types\" must be an array of package names"@,
            "TypeScript expects compilerOptions.types to be an array of string package names."@,
            "Rewrite compilerOptions.types as [\"node\", \"jest\"]-style package names or remove it."@,
            Severity::Error,
            fp,
        )
    }
}

/// The finding of a refused entry of `types` or `typeRoots`.
pub open spec fn type_entry_view(fp: Seq<char>, index: int, roots: bool) -> TsView {
    if roots {
        (
            "tsconfig-typeroots-entry:"@ + fp + ":"@ + decimal(index as nat),
            "\"compilerOptions.typeRoots\" contains a non-string path"@,
            fp + " declares compilerOptions.typeRoots["@ + decimal(index as nat)
                + "], but TypeScript expects a non-empty string directory path."@,
            "Rewrite compilerOptions.typeRoots as [\"./types\", \"./node_modules/@types\"]-style paths or remove it."@,
            Severity::Error,
            fp,
        )
    } else {
        (
            "tsconfig-types-entry:"@ + fp + ":"@ + decimal(index as nat),
            "\"compilerOptions.types\" contains a non-string package name"@,
            fp + " declares compilerOptions.types["@ + decimal(index as nat)
                + "], but TypeScript expects a non-empty string package name."@,
            "Rewrite compilerOptions.types as [\"node\", \"jest\"]-style package names or remove it."@,
            Severity::Error,
            fp,
        )
    }
}

/// The finding of a `typeRoots` entry that does not exist.
pub open spec fn root_missing_view(fp: Seq<char>, root: Seq<char>) -> TsView {
    (
        "tsconfig-typeroots-missing:"@ + fp + ":"@ + root,
        "Configured typeRoots entry does not exist"@,
        "compilerOptions.typeRoots includes \""@ + root + "\", but the resolved path was not found."@,
        "Create the missing types directory or remove stale typeRoots entries before TypeScript silently skips expected declarations."@,
        Severity::Warn,
        fp,
    )
}

/// What reading `types` or `typeRoots` reports: the shape finding, or a
/// finding for each refused entry.
pub open spec fn option_findings(fp: Seq<char>, opt: Option<(bool, Seq<Seq<char>>, Seq<int>)>, roots: bool) -> Seq<
    TsView,
> {
    match opt {
        None => seq![],
        Some((is_array, _, invalid)) => if !is_array {
            seq![type_shape_view(fp, roots)]
        } else {
            invalid.map_values(|i: int| type_entry_view(fp, i, roots))
        },
    }
}

/// The list an option gives when it is an array with no refused entry.
pub open spec fn usable_list(opt: Option<(bool, Seq<Seq<char>>, Seq<int>)>) -> Option<Seq<Seq<char>>> {
    match opt {
        Some((true, values, invalid)) => if invalid.len() == 0 {
            Some(values)
        } else {
            None
        },
        _ => None,
    }
}

/// The missing-root findings of the first `n` type roots.
pub open spec fn missing_roots(fp: Seq<char>, roots: Seq<Seq<char>>, existing: Seq<Seq<char>>, n: int) -> Seq<
    TsView,
>
    decreases n,
{
    if n <= 0 {
        seq![]
    } else {
        missing_roots(fp, roots, existing, n - 1) + if existing.contains(roots[n - 1]) {
            seq![]
        } else {
            seq![root_missing_view(fp, roots[n - 1])]
        }
    }
}

/// What reading `types` and
/// `typeRoots` reports, a finding for each usable type root that does not
/// exist (`existing` lists those that do), then the guidance finding.
pub open spec fn types_findings(fp: Seq<char>, co: JsonValue, existing: Seq<Seq<char>>) -> Seq<
    TsView,
> {
    let t = string_list_option(co, "types"@);
    let r = string_list_option(co, "typeRoots"@);
    let ut = usable_list(t);
    let ur = usable_list(r);
    option_findings(fp, t, false) + option_findings(fp, r, true) + (match ur {
        Some(roots) => missing_roots(fp, roots, existing, roots.len() as int),
        None => seq![],
    }) + match types_guidance_kind(
        match ut {
            Some(v) => Some(v.len()),
            None => None::<nat>,
        },
        ur is Some,
    ) {
        Some(kind) => seq![
            guidance_view(
                fp,
                kind,
                match ut {
                    Some(v) => list_text(v),
                    None => "[]"@,
                },
                match ur {
                    Some(v) => list_text(v),
                    None => "[]"@,
                },
            ),
        ],
        None => seq![],
    }
}

fn option_findings_exec(out: &mut Vec<TsFinding>, file_path: &str, opt: &StringListOption, roots: bool)
    ensures
        ts_views(final(out)@) == ts_views(old(out)@) + option_findings(
            file_path@,
            match *opt {
                StringListOption::Absent => None,
                StringListOption::NotArray => Some((false, Seq::<Seq<char>>::empty(), Seq::<int>::empty())),
                StringListOption::Entries { values, invalid } => Some(
                    (true, string_views(values@), index_views(invalid@)),
                ),
            },
            roots,
        ),
{
    match opt {
        StringListOption::Absent => {
            assert(ts_views(out@) + Seq::<TsView>::empty() =~= ts_views(out@));
        },
        StringListOption::NotArray => {
            let ghost before = out@;
            out.push(type_option_shape_finding(file_path, roots));
            assert(ts_views(out@) =~= ts_views(before) + seq![type_shape_view(file_path@, roots)]);
        },
        StringListOption::Entries { values: _, invalid } => {
            let ghost start = ts_views(out@);
            let ghost want = index_views(invalid@).map_values(|i: int| type_entry_view(file_path@, i, roots));
            let mut j: usize = 0;
            while j < invalid.len()
                invariant
                    j <= invalid@.len(),
                    want == index_views(invalid@).map_values(|i: int| type_entry_view(file_path@, i, roots)),
                    ts_views(out@) == start + want.take(j as int),
                decreases invalid@.len() - j,
            {
                let f = type_option_entry_finding(file_path, invalid[j] as u64, roots);
                assert(ts_view(f) == want[j as int]);
                let ghost before = out@;
                out.push(f);
                assert(ts_views(out@) =~= ts_views(before).push(ts_view(f)));
                assert(want.take(j + 1) =~= want.take(j as int).push(want[j as int]));
                j += 1;
            }
            assert(want.take(invalid@.len() as int) =~= want);
        },
    }
}

/// The key of the option that `roots` selects.
pub open spec fn option_key(roots: bool) -> Seq<char> {
    if roots {
        "typeRoots"@
    } else {
        "types"@
    }
}

/// Reads `types` (or `typeRoots`, when `roots`) and adds the findings of
/// its shape and of each refused entry; gives the list when it is usable:
/// an array whose entries are all non-empty strings, trimmed.
pub fn types_option_with_findings(
    out: &mut Vec<TsFinding>,
    file_path: &str,
    compiler_options: &JsonValue,
    roots: bool,
) -> (r: Option<Vec<String>>)
    ensures
        ts_views(final(out)@) == ts_views(old(out)@) + option_findings(
            file_path@,
            string_list_option(*compiler_options, option_key(roots)),
            roots,
        ),
        match r {
            Some(v) => usable_list(string_list_option(*compiler_options, option_key(roots))) == Some(
                string_views(v@),
            ),
            None => usable_list(string_list_option(*compiler_options, option_key(roots))) is None,
        },
{
    let opt = if roots {
        parse_type_roots_option(compiler_options)
    } else {
        parse_types_option(compiler_options)
    };
    option_findings_exec(out, file_path, &opt, roots);
    match opt {
        StringListOption::Entries { values, invalid } => {
            if invalid.len() == 0 {
                Some(values)
            } else {
                None
            }
        },
        _ => None,
    }
}

fn is_listed(list: &Vec<String>, t: &String) -> (r: bool)
    ensures
        r == string_views(list@).contains(t@),
{
    let tc = chars_of(t.as_str());
    let mut i: usize = 0;
    while i < list.len()
        invariant
            i <= list@.len(),
            tc@ == t@,
            forall|k: int| 0 <= k < i ==> (#[trigger] list@[k])@ != t@,
        decreases list@.len() - i,
    {
        let c = chars_of(list[i].as_str());
        if crate::text::chars_eq(c.as_slice(), tc.as_slice()) {
            assert(string_views(list@)[i as int] == t@);
            return true;
        }
        i += 1;
    }
    proof {
        if string_views(list@).contains(t@) {
            let k = choose|k: int| 0 <= k < string_views(list@).len() && string_views(list@)[k] == t@;
            assert(list@[k]@ == t@);
        }
    }
    false
}

pub fn collect_types_and_type_roots_findings(
    file_path: &str,
    compiler_options: Option<&JsonValue>,
    existing_roots: &Vec<String>,
) -> (out: Vec<TsFinding>)
    ensures
        ts_views(out@) == match compiler_options {
            None => Seq::empty(),
            Some(co) => types_findings(file_path@, *co, string_views(existing_roots@)),
        },
{
    let mut out: Vec<TsFinding> = Vec::new();
    let co = match compiler_options {
        None => {
            assert(ts_views(out@) =~= Seq::<TsView>::empty());
            return out;
        },
        Some(co) => co,
    };
    let ghost ex = string_views(existing_roots@);
    let types = parse_types_option(co);
    let roots = parse_type_roots_option(co);
    assert(ts_views(out@) =~= Seq::<TsView>::empty());
    option_findings_exec(&mut out, file_path, &types, false);
    option_findings_exec(&mut out, file_path, &roots, true);
    let usable_types: Option<&Vec<String>> = match &types {
        StringListOption::Entries { values, invalid } => if invalid.len() == 0 {
            Some(values)
        } else {
            None
        },
        _ => None,
    };
    let usable_roots: Option<&Vec<String>> = match &roots {
        StringListOption::Entries { values, invalid } => if invalid.len() == 0 {
            Some(values)
        } else {
            None
        },
        _ => None,
    };
    let ghost head = ts_views(out@);
    match usable_roots {
        Some(rs) => {
            let ghost rv = string_views(rs@);
            let mut k: usize = 0;
            while k < rs.len()
                invariant
                    k <= rs@.len(),
                    rv == string_views(rs@),
                    ex == string_views(existing_roots@),
                    ts_views(out@) == head + missing_roots(file_path@, rv, ex, k as int),
                decreases rs@.len() - k,
            {
                let ghost before = out@;
                if !is_listed(existing_roots, &rs[k]) {
                    out.push(type_root_missing_finding(file_path, rs[k].as_str()));
                    assert(ts_views(out@) =~= ts_views(before).push(root_missing_view(file_path@, rv[k as int])));
                } else {
                    assert(ex.contains(rv[k as int]));
                }
                assert(head + missing_roots(file_path@, rv, ex, k + 1) =~= ts_views(out@));
                k += 1;
            }
        },
        None => {
            assert(head + Seq::<TsView>::empty() =~= head);
        },
    }
    let ghost mid = ts_views(out@);
    match types_guidance(file_path, usable_types, usable_roots) {
        Some(g) => {
            out.push(g);
            assert(ts_views(out@) =~= mid.push(ts_view(g)));
        },
        None => {
            assert(mid + Seq::<TsView>::empty() =~= mid);
        },
    }
    out
}

// ---------------------------------------------------------------------
// `include`, `exclude` and `files`
// ---------------------------------------------------------------------

/// The finding for a pattern-field problem met while reading `include`,
/// `exclude`, `files` or `extends` along the chain.
pub fn pattern_shape_finding(
    file_path: &str,
    field_name: &str,
    suffix: &str,
    config_path: &str,
    title: &str,
    detail: &str,
    hint: &'static str,
) -> (r: TsFinding)
    ensures
        r.id@ == "tsconfig-patterns-shape:"@ + file_path@ + ":"@ + field_name@ + ":"@ + suffix@ + ":"@
            + config_path@,
        r.title@ == title@,
        r.detail@ == detail@,
        r.hint == hint,
        r.severity == Severity::Error,
        r.file@ == config_path@,
{
    let mut id: Vec<char> = Vec::new();
    append_str(&mut id, "tsconfig-patterns-shape:");
    append_str(&mut id, file_path);
    append_str(&mut id, ":");
    append_str(&mut id, field_name);
    append_str(&mut id, ":");
    append_str(&mut id, suffix);
    append_str(&mut id, ":");
    append_str(&mut id, config_path);
    TsFinding {
        id: string_from(id.as_slice()),
        title: lit(title),
        detail: lit(detail),
        hint,
        severity: Severity::Error,
        file: lit(config_path),
    }
}

/// The finding for an `include` pattern that matches no file. Next.js
/// creates `.next/types` itself, so for a package that depends on Next.js
/// such a pattern only informs.
pub fn empty_include_finding(
    file_path: &str,
    pattern: &str,
    base_dir: &str,
    next_generated: bool,
) -> (r: TsFinding)
    ensures
        r.id@ == "tsconfig-patterns:"@ + file_path@ + ":include:"@ + pattern@,
        r.title@ == "Include pattern does not match any files"@,
        r.detail@ == "include pattern \""@ + pattern@ + "\" matched 0 files under base dir "@
            + base_dir@ + "."@,
        next_generated ==> r.severity == Severity::Info && r.hint@
            == "Next.js generates .next/types during development or build, so this include can be empty before .next exists."@,
        !next_generated ==> r.severity == Severity::Warn && r.hint@
            == "Fix or remove empty include patterns before TypeScript silently skips expected inputs."@,
        r.file@ == file_path@,
{
    let (severity, hint) = if next_generated {
        (
            Severity::Info,
            "Next.js generates .next/types during development or build, so this include can be empty before .next exists.",
        )
    } else {
        (
            Severity::Warn,
            "Fix or remove empty include patterns before TypeScript silently skips expected inputs.",
        )
    };
    TsFinding {
        id: text4("tsconfig-patterns:", file_path, ":include:", pattern),
        title: lit("Include pattern does not match any files"),
        detail: text5("include pattern \"", pattern, "\" matched 0 files under base dir ", base_dir, "."),
        hint,
        severity,
        file: lit(file_path),
    }
}

/// The finding for an `exclude` pattern that removes nothing from the
/// `included_count` included files.
pub fn unused_exclude_finding(file_path: &str, pattern: &str, included_count: u64, base_dir: &str) -> (r:
    TsFinding)
    ensures
        r.id@ == "tsconfig-patterns:"@ + file_path@ + ":exclude:"@ + pattern@,
        r.title@ == "Exclude pattern does not filter any included files"@,
        r.detail@ == "exclude pattern \""@ + pattern@ + "\" removed 0 files from "@ + decimal(
            included_count as nat,
        ) + " included file(s) under base dir "@ + base_dir@ + "."@,
        r.hint@
            == "Remove or tighten exclude entries that do not change the effective TypeScript input set."@,
        r.severity == Severity::Info,
        r.file@ == file_path@,
{
    let n = u64_decimal(included_count);
    let mut d: Vec<char> = Vec::new();
    append_str(&mut d, "exclude pattern \"");
    append_str(&mut d, pattern);
    append_str(&mut d, "\" removed 0 files from ");
    append_chars(&mut d, n.as_slice());
    append_str(&mut d, " included file(s) under base dir ");
    append_str(&mut d, base_dir);
    append_str(&mut d, ".");
    TsFinding {
        id: text4("tsconfig-patterns:", file_path, ":exclude:", pattern),
        title: lit("Exclude pattern does not filter any included files"),
        detail: string_from(d.as_slice()),
        hint: "Remove or tighten exclude entries that do not change the effective TypeScript input set.",
        severity: Severity::Info,
        file: lit(file_path),
    }
}

} // verus!
