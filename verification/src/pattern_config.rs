//! The `include`, `exclude` and `files` patterns that apply to a tsconfig:
//! each config along its `extends` chain may replace them, and the shape
//! problems of the fields it declares are reported. Following `extends`
//! and reading files is the caller's part: it hands the chain over, oldest
//! ancestor first, with the problem it met on the way, if any.
use vstd::prelude::*;
use crate::config_duplicates::{config_view, config_views, ConfigFinding};
use crate::json::{as_str_spec, get, get_spec, get_str, JsonValue};
use crate::paths::{dir_of, resolve_path, resolved, PathBase};
use crate::project_references::ExtendsProblem;
use crate::registry::Severity;
use crate::text::{
    append_chars, append_str, chars_eq_str, chars_of, decimal, replace_char, replace_char_chars,
    string_from, string_views, u64_decimal,
};

verus! {

// ---------------------------------------------------------------------
// Issues and fields
// ---------------------------------------------------------------------

/// A problem with a pattern field, or with the `extends` chain that
/// supplies it.
pub struct PatternIssue {
    /// `include`, `exclude`, `files` or `extends`.
    pub field_name: String,
    /// The config the problem is in.
    pub config_path: String,
    pub suffix: String,
    pub title: String,
    pub detail: String,
    pub hint: String,
}

/// An issue as (field, config path, suffix, title, detail, hint).
pub open spec fn issue_view(i: PatternIssue) -> (Seq<char>, Seq<char>, Seq<char>, Seq<char>, Seq<char>, Seq<char>) {
    (i.field_name@, i.config_path@, i.suffix@, i.title@, i.detail@, i.hint@)
}

pub open spec fn issue_views(v: Seq<PatternIssue>) -> Seq<
    (Seq<char>, Seq<char>, Seq<char>, Seq<char>, Seq<char>, Seq<char>),
> {
    v.map_values(|i: PatternIssue| issue_view(i))
}

/// The string patterns of a field, with the directory they are relative to
/// and the config that declared them.
pub struct PatternField {
    pub values: Vec<String>,
    pub base_dir: String,
    pub config_path: String,
}

/// A field as (patterns, base directory, config path).
pub open spec fn field_view(f: PatternField) -> (Seq<Seq<char>>, Seq<char>, Seq<char>) {
    (string_views(f.values@), f.base_dir@, f.config_path@)
}

/// The directory of a config, normalized.
pub open spec fn config_dir(config_path: Seq<char>) -> Seq<char> {
    resolved(dir_of(config_path), ""@)
}

/// The hint that comes with an issue of a pattern field.
pub open spec fn field_hint(name: Seq<char>) -> Seq<char> {
    if name == "include"@ {
        "Rewrite include as an array of string globs before relying on TypeScript input discovery."@
    } else if name == "exclude"@ {
        "Rewrite exclude as an array of string globs before relying on TypeScript input filtering."@
    } else if name == "files"@ {
        "Rewrite files as an array of string paths before relying on explicit TypeScript inputs."@
    } else {
        "Rewrite tsconfig pattern fields as arrays of strings."@
    }
}

pub fn pattern_field_hint(name: &str) -> (r: String)
    ensures
        r@ == field_hint(name@),
{
    let n = chars_of(name);
    let text = if chars_eq_str(n.as_slice(), "include") {
        "Rewrite include as an array of string globs before relying on TypeScript input discovery."
    } else if chars_eq_str(n.as_slice(), "exclude") {
        "Rewrite exclude as an array of string globs before relying on TypeScript input filtering."
    } else if chars_eq_str(n.as_slice(), "files") {
        "Rewrite files as an array of string paths before relying on explicit TypeScript inputs."
    } else {
        "Rewrite tsconfig pattern fields as arrays of strings."
    };
    string_from(chars_of(text).as_slice())
}

/// The issue of a field that is not an array.
pub open spec fn shape_issue(name: Seq<char>, cp: Seq<char>) -> (Seq<char>, Seq<char>, Seq<char>, Seq<char>, Seq<char>, Seq<char>) {
    (
        name,
        cp,
        "shape"@,
        "\""@ + name + "\" must be an array of strings"@,
        cp + " declares "@ + name + ", but TypeScript expects an array of string patterns."@,
        field_hint(name),
    )
}

/// The issue of the entry at `index` that is not a string.
pub open spec fn entry_issue(name: Seq<char>, cp: Seq<char>, index: nat) -> (Seq<char>, Seq<char>, Seq<char>, Seq<char>, Seq<char>, Seq<char>) {
    (
        name,
        cp,
        "entry-"@ + decimal(index),
        "\""@ + name + "\" contains a non-string pattern"@,
        cp + " declares "@ + name + "["@ + decimal(index) + "], but TypeScript expects string patterns."@,
        field_hint(name),
    )
}

/// The strings among the first `n` entries, in order.
pub open spec fn entry_values(items: Seq<JsonValue>, n: nat) -> Seq<Seq<char>>
    decreases n,
{
    if n == 0 || n > items.len() {
        seq![]
    } else {
        let prev = entry_values(items, (n - 1) as nat);
        match items[n - 1] {
            JsonValue::Text(t) => prev.push(t@),
            _ => prev,
        }
    }
}

/// An issue for each of the first `n` entries that is not a string.
pub open spec fn entry_issues(name: Seq<char>, cp: Seq<char>, items: Seq<JsonValue>, n: nat) -> Seq<
    (Seq<char>, Seq<char>, Seq<char>, Seq<char>, Seq<char>, Seq<char>),
>
    decreases n,
{
    if n == 0 || n > items.len() {
        seq![]
    } else {
        let prev = entry_issues(name, cp, items, (n - 1) as nat);
        match items[n - 1] {
            JsonValue::Text(_) => prev,
            _ => prev.push(entry_issue(name, cp, (n - 1) as nat)),
        }
    }
}

/// An array gives its string entries and
/// an issue for each other entry; anything else gives no patterns and a
/// shape issue. The patterns are relative to the config's directory.
pub open spec fn parsed_field(name: Seq<char>, cp: Seq<char>, v: JsonValue) -> (
    (Seq<Seq<char>>, Seq<char>, Seq<char>),
    Seq<(Seq<char>, Seq<char>, Seq<char>, Seq<char>, Seq<char>, Seq<char>)>,
) {
    match v {
        JsonValue::Array(items) => (
            (entry_values(items@, items@.len()), config_dir(cp), cp),
            entry_issues(name, cp, items@, items@.len()),
        ),
        _ => ((seq![], config_dir(cp), cp), seq![shape_issue(name, cp)]),
    }
}

fn text_of(s: &str) -> (r: String)
    ensures
        r@ == s@,
{
    string_from(chars_of(s).as_slice())
}

pub fn parse_effective_pattern_field(field_name: &str, value: &JsonValue, config_path: &str) -> (r: (
    PatternField,
    Vec<PatternIssue>,
))
    ensures
        (field_view(r.0), issue_views(r.1@)) == parsed_field(field_name@, config_path@, *value),
{
    proof {
        reveal_strlit("");
    }
    let base_dir = resolve_path(&PathBase::parent_of(config_path), "");
    let mut issues: Vec<PatternIssue> = Vec::new();
    let items = match value {
        JsonValue::Array(items) => items,
        _ => {
            let mut title: Vec<char> = Vec::new();
            append_str(&mut title, "\"");
            append_str(&mut title, field_name);
            append_str(&mut title, "\" must be an array of strings");
            let mut detail: Vec<char> = Vec::new();
            append_str(&mut detail, config_path);
            append_str(&mut detail, " declares ");
            append_str(&mut detail, field_name);
            append_str(&mut detail, ", but TypeScript expects an array of string patterns.");
            let issue = PatternIssue {
                field_name: text_of(field_name),
                config_path: text_of(config_path),
                suffix: text_of("shape"),
                title: string_from(title.as_slice()),
                detail: string_from(detail.as_slice()),
                hint: pattern_field_hint(field_name),
            };
            assert(title@ =~= "\""@ + field_name@ + "\" must be an array of strings"@);
            issues.push(issue);
            assert(issue_views(issues@) =~= seq![issue_view(issue)]);
            let values: Vec<String> = Vec::new();
            assert(string_views(values@) =~= Seq::<Seq<char>>::empty());
            return (PatternField { values, base_dir, config_path: text_of(config_path) }, issues);
        },
    };
    let mut values: Vec<String> = Vec::new();
    let mut i: usize = 0;
    assert(string_views(values@) =~= Seq::<Seq<char>>::empty());
    assert(issue_views(issues@) =~= Seq::<(Seq<char>, Seq<char>, Seq<char>, Seq<char>, Seq<char>, Seq<char>)>::empty());
    while i < items.len()
        invariant
            i <= items@.len(),
            string_views(values@) == entry_values(items@, i as nat),
            issue_views(issues@) == entry_issues(field_name@, config_path@, items@, i as nat),
        decreases items@.len() - i,
    {
        match &items[i] {
            JsonValue::Text(t) => {
                let ghost before = values@;
                values.push(text_of(t.as_str()));
                assert(string_views(values@) =~= string_views(before).push(t@));
            },
            _ => {
                let n = u64_decimal(i as u64);
                let mut suffix: Vec<char> = Vec::new();
                append_str(&mut suffix, "entry-");
                append_chars(&mut suffix, n.as_slice());
                let mut title: Vec<char> = Vec::new();
            append_str(&mut title, "\"");
                append_str(&mut title, field_name);
                append_str(&mut title, "\" contains a non-string pattern");
                let mut detail: Vec<char> = Vec::new();
                append_str(&mut detail, config_path);
                append_str(&mut detail, " declares ");
                append_str(&mut detail, field_name);
                append_str(&mut detail, "[");
                append_chars(&mut detail, n.as_slice());
                append_str(&mut detail, "], but TypeScript expects string patterns.");
                let issue = PatternIssue {
                    field_name: text_of(field_name),
                    config_path: text_of(config_path),
                    suffix: string_from(suffix.as_slice()),
                    title: string_from(title.as_slice()),
                    detail: string_from(detail.as_slice()),
                    hint: pattern_field_hint(field_name),
                };
                assert(title@ =~= "\""@ + field_name@ + "\" contains a non-string pattern"@);
                assert(issue_view(issue) == entry_issue(field_name@, config_path@, i as nat));
                let ghost before = issues@;
                issues.push(issue);
                assert(issue_views(issues@) =~= issue_views(before).push(issue_view(issue)));
            },
        }
        i += 1;
    }
    (PatternField { values, base_dir, config_path: text_of(config_path) }, issues)
}


// ---------------------------------------------------------------------
// Problems along the extends chain
// ---------------------------------------------------------------------

/// The issue for a failure along the `extends` chain of a config whose
/// patterns are resolved: `config_path` is the config that extends,
/// `extends_path` the path as written, `parent_path` the file it resolved
/// to. A missing parent is reported against the config, every other
/// problem against the parent.
pub open spec fn extends_issue_view(
    problem: ExtendsProblem,
    cp: Seq<char>,
    extends_path: Seq<char>,
    parent: Seq<char>,
) -> (Seq<char>, Seq<char>, Seq<char>, Seq<char>, Seq<char>, Seq<char>) {
    match problem {
        ExtendsProblem::Missing => (
            "extends"@,
            cp,
            "missing"@,
            "Inherited tsconfig could not be found"@,
            cp + " extends "@ + extends_path + ", but that config file could not be resolved."@,
            "Fix missing extends targets before relying on inherited tsconfig pattern settings."@,
        ),
        ExtendsProblem::Cycle => (
            "extends"@,
            parent,
            "cycle"@,
            "Inherited tsconfig extends cycle detected"@,
            parent + " creates a cycle in the extends chain for pattern resolution."@,
            "Break extends cycles before relying on inherited tsconfig pattern settings."@,
        ),
        ExtendsProblem::Unreadable => (
            "extends"@,
            parent,
            "unreadable"@,
            "Inherited tsconfig could not be read"@,
            cp + " extends "@ + parent + ", but that config file could not be read."@,
            "Make sure extended tsconfig files are readable before relying on inherited pattern settings."@,
        ),
        ExtendsProblem::ReadFailed(e) => (
            "extends"@,
            parent,
            "unreadable"@,
            "Inherited tsconfig could not be read"@,
            cp + " extends "@ + parent + ", but reading it failed: "@ + e@ + "."@,
            "Make sure extended tsconfig files are readable before relying on inherited pattern settings."@,
        ),
        ExtendsProblem::ParseFailed(e) => (
            "extends"@,
            parent,
            "parse"@,
            "Inherited tsconfig could not be parsed"@,
            e@,
            "Fix invalid JSONC syntax in extended tsconfig files before relying on inherited pattern settings."@,
        ),
        ExtendsProblem::InvalidTarget => (
            "extends"@,
            parent,
            "invalid-target"@,
            "Inherited config must point to a tsconfig file"@,
            cp + " extends "@ + parent + ", but that file does not look like a tsconfig document."@,
            "Point extends at a real tsconfig-style file before relying on inherited pattern settings."@,
        ),
    }
}

fn issue_of(
    config_path: &str,
    suffix: &str,
    title: &str,
    detail: Vec<char>,
    hint: &str,
) -> (r: PatternIssue)
    ensures
        issue_view(r) == ("extends"@, config_path@, suffix@, title@, detail@, hint@),
{
    PatternIssue {
        field_name: text_of("extends"),
        config_path: text_of(config_path),
        suffix: text_of(suffix),
        title: text_of(title),
        detail: string_from(detail.as_slice()),
        hint: text_of(hint),
    }
}

pub fn pattern_extends_issue(
    problem: &ExtendsProblem,
    config_path: &str,
    extends_path: &str,
    parent_path: &str,
) -> (r: PatternIssue)
    ensures
        issue_view(r) == extends_issue_view(*problem, config_path@, extends_path@, parent_path@),
{
    let mut d: Vec<char> = Vec::new();
    match problem {
        ExtendsProblem::Missing => {
            append_str(&mut d, config_path);
            append_str(&mut d, " extends ");
            append_str(&mut d, extends_path);
            append_str(&mut d, ", but that config file could not be resolved.");
            issue_of(
                config_path,
                "missing",
                "Inherited tsconfig could not be found",
                d,
                "Fix missing extends targets before relying on inherited tsconfig pattern settings.",
            )
        },
        ExtendsProblem::Cycle => {
            append_str(&mut d, parent_path);
            append_str(&mut d, " creates a cycle in the extends chain for pattern resolution.");
            issue_of(
                parent_path,
                "cycle",
                "Inherited tsconfig extends cycle detected",
                d,
                "Break extends cycles before relying on inherited tsconfig pattern settings.",
            )
        },
        ExtendsProblem::Unreadable => {
            append_str(&mut d, config_path);
            append_str(&mut d, " extends ");
            append_str(&mut d, parent_path);
            append_str(&mut d, ", but that config file could not be read.");
            issue_of(
                parent_path,
                "unreadable",
                "Inherited tsconfig could not be read",
                d,
                "Make sure extended tsconfig files are readable before relying on inherited pattern settings.",
            )
        },
        ExtendsProblem::ReadFailed(e) => {
            append_str(&mut d, config_path);
            append_str(&mut d, " extends ");
            append_str(&mut d, parent_path);
            append_str(&mut d, ", but reading it failed: ");
            append_str(&mut d, e.as_str());
            append_str(&mut d, ".");
            issue_of(
                parent_path,
                "unreadable",
                "Inherited tsconfig could not be read",
                d,
                "Make sure extended tsconfig files are readable before relying on inherited pattern settings.",
            )
        },
        ExtendsProblem::ParseFailed(e) => {
            append_str(&mut d, e.as_str());
            issue_of(
                parent_path,
                "parse",
                "Inherited tsconfig could not be parsed",
                d,
                "Fix invalid JSONC syntax in extended tsconfig files before relying on inherited pattern settings.",
            )
        },
        ExtendsProblem::InvalidTarget => {
            append_str(&mut d, config_path);
            append_str(&mut d, " extends ");
            append_str(&mut d, parent_path);
            append_str(&mut d, ", but that file does not look like a tsconfig document.");
            issue_of(
                parent_path,
                "invalid-target",
                "Inherited config must point to a tsconfig file",
                d,
                "Point extends at a real tsconfig-style file before relying on inherited pattern settings.",
            )
        },
    }
}

// ---------------------------------------------------------------------
// The effective patterns of a chain
// ---------------------------------------------------------------------

/// The compiler options the pattern rules read: `allowJs`, and `rootDir`
/// and `outDir` resolved against the config that sets them.
pub struct PatternOptions {
    pub allow_js: bool,
    pub out_dir: Option<String>,
    pub root_dir: Option<String>,
}

/// What a chain of configs says about patterns.
pub struct PatternConfig {
    pub options: PatternOptions,
    pub inclusions: Option<PatternField>,
    pub exclusions: Option<PatternField>,
    pub files: Option<PatternField>,
    pub issues: Vec<PatternIssue>,
}

/// One config of the chain: its path and its parsed document.
pub struct PatternLayer {
    pub config_path: String,
    pub config: JsonValue,
}

pub open spec fn opt_text(o: Option<String>) -> Option<Seq<char>> {
    match o {
        Some(s) => Some(s@),
        None => None,
    }
}

pub open spec fn opt_field(o: Option<PatternField>) -> Option<(Seq<Seq<char>>, Seq<char>, Seq<char>)> {
    match o {
        Some(f) => Some(field_view(f)),
        None => None,
    }
}

/// A pattern config as (options, include, exclude, files, issues).
pub open spec fn pattern_config_view(c: PatternConfig) -> (
    (bool, Option<Seq<char>>, Option<Seq<char>>),
    Option<(Seq<Seq<char>>, Seq<char>, Seq<char>)>,
    Option<(Seq<Seq<char>>, Seq<char>, Seq<char>)>,
    Option<(Seq<Seq<char>>, Seq<char>, Seq<char>)>,
    Seq<(Seq<char>, Seq<char>, Seq<char>, Seq<char>, Seq<char>, Seq<char>)>,
) {
    (
        (c.options.allow_js, opt_text(c.options.out_dir), opt_text(c.options.root_dir)),
        opt_field(c.inclusions),
        opt_field(c.exclusions),
        opt_field(c.files),
        issue_views(c.issues@),
    )
}

/// A path option of a config: set when it is a string, resolved against
/// the config's directory with `/` for `\`.
pub open spec fn path_option(co: JsonValue, key: Seq<char>, cp: Seq<char>, prev: Option<Seq<char>>) -> Option<Seq<char>> {
    match as_str_spec(get_spec(co, key)) {
        Some(r) => Some(resolved(dir_of(cp), replace_char(r, '\\', '/'))),
        None => prev,
    }
}

/// The options after one config: an object `compilerOptions` may set
/// `allowJs` (a boolean), `outDir` and `rootDir` (strings).
pub open spec fn layer_options(
    opts: (bool, Option<Seq<char>>, Option<Seq<char>>),
    cp: Seq<char>,
    config: JsonValue,
) -> (bool, Option<Seq<char>>, Option<Seq<char>>) {
    match get_spec(config, "compilerOptions"@) {
        Some(co) => if co is Object {
            (
                match get_spec(co, "allowJs"@) {
                    Some(JsonValue::Bool(b)) => b,
                    _ => opts.0,
                },
                path_option(co, "outDir"@, cp, opts.1),
                path_option(co, "rootDir"@, cp, opts.2),
            )
        } else {
            opts
        },
        None => opts,
    }
}

/// The issues that are not about the named field.
pub open spec fn without_field(
    issues: Seq<(Seq<char>, Seq<char>, Seq<char>, Seq<char>, Seq<char>, Seq<char>)>,
    name: Seq<char>,
) -> Seq<(Seq<char>, Seq<char>, Seq<char>, Seq<char>, Seq<char>, Seq<char>)>
    decreases issues.len(),
{
    if issues.len() == 0 {
        seq![]
    } else if issues.last().0 == name {
        without_field(issues.drop_last(), name)
    } else {
        without_field(issues.drop_last(), name).push(issues.last())
    }
}

/// The pattern fields, in the order a config's fields are applied.
pub open spec fn field_names() -> Seq<Seq<char>> {
    seq!["include"@, "exclude"@, "files"@]
}

/// What a config does to the `k`th pattern field: when the config
/// declares it, it replaces what the chain said so far and its issues
/// replace the earlier issues about it.
pub open spec fn apply_field(
    c: (
        (bool, Option<Seq<char>>, Option<Seq<char>>),
        Option<(Seq<Seq<char>>, Seq<char>, Seq<char>)>,
        Option<(Seq<Seq<char>>, Seq<char>, Seq<char>)>,
        Option<(Seq<Seq<char>>, Seq<char>, Seq<char>)>,
        Seq<(Seq<char>, Seq<char>, Seq<char>, Seq<char>, Seq<char>, Seq<char>)>,
    ),
    k: int,
    cp: Seq<char>,
    config: JsonValue,
) -> (
    (bool, Option<Seq<char>>, Option<Seq<char>>),
    Option<(Seq<Seq<char>>, Seq<char>, Seq<char>)>,
    Option<(Seq<Seq<char>>, Seq<char>, Seq<char>)>,
    Option<(Seq<Seq<char>>, Seq<char>, Seq<char>)>,
    Seq<(Seq<char>, Seq<char>, Seq<char>, Seq<char>, Seq<char>, Seq<char>)>,
) {
    let name = field_names()[k];
    match get_spec(config, name) {
        None => c,
        Some(v) => {
            let p = parsed_field(name, cp, v);
            let issues = without_field(c.4, name) + p.1;
            if k == 0 {
                (c.0, Some(p.0), c.2, c.3, issues)
            } else if k == 1 {
                (c.0, c.1, Some(p.0), c.3, issues)
            } else {
                (c.0, c.1, c.2, Some(p.0), issues)
            }
        },
    }
}

/// What one config of the chain does to what its ancestors said.
pub open spec fn apply_layer(
    c: (
        (bool, Option<Seq<char>>, Option<Seq<char>>),
        Option<(Seq<Seq<char>>, Seq<char>, Seq<char>)>,
        Option<(Seq<Seq<char>>, Seq<char>, Seq<char>)>,
        Option<(Seq<Seq<char>>, Seq<char>, Seq<char>)>,
        Seq<(Seq<char>, Seq<char>, Seq<char>, Seq<char>, Seq<char>, Seq<char>)>,
    ),
    cp: Seq<char>,
    config: JsonValue,
) -> (
    (bool, Option<Seq<char>>, Option<Seq<char>>),
    Option<(Seq<Seq<char>>, Seq<char>, Seq<char>)>,
    Option<(Seq<Seq<char>>, Seq<char>, Seq<char>)>,
    Option<(Seq<Seq<char>>, Seq<char>, Seq<char>)>,
    Seq<(Seq<char>, Seq<char>, Seq<char>, Seq<char>, Seq<char>, Seq<char>)>,
) {
    let with_options = (layer_options(c.0, cp, config), c.1, c.2, c.3, c.4);
    if config is Object {
        apply_field(apply_field(apply_field(with_options, 0, cp, config), 1, cp, config), 2, cp, config)
    } else {
        with_options
    }
}

/// Starting from nothing (or from the
/// problem met along `extends`), the first `n` configs of the chain, oldest
/// first, each applied in turn.
pub open spec fn effective_upto(
    layers: Seq<(Seq<char>, JsonValue)>,
    start_issue: Option<(Seq<char>, Seq<char>, Seq<char>, Seq<char>, Seq<char>, Seq<char>)>,
    n: int,
) -> (
    (bool, Option<Seq<char>>, Option<Seq<char>>),
    Option<(Seq<Seq<char>>, Seq<char>, Seq<char>)>,
    Option<(Seq<Seq<char>>, Seq<char>, Seq<char>)>,
    Option<(Seq<Seq<char>>, Seq<char>, Seq<char>)>,
    Seq<(Seq<char>, Seq<char>, Seq<char>, Seq<char>, Seq<char>, Seq<char>)>,
)
    decreases n,
{
    if n <= 0 || n > layers.len() {
        (
            (false, None, None),
            None,
            None,
            None,
            match start_issue {
                Some(i) => seq![i],
                None => seq![],
            },
        )
    } else {
        apply_layer(effective_upto(layers, start_issue, n - 1), layers[n - 1].0, layers[n - 1].1)
    }
}

pub open spec fn layer_views(v: Seq<PatternLayer>) -> Seq<(Seq<char>, JsonValue)> {
    v.map_values(|l: PatternLayer| (l.config_path@, l.config))
}


fn copy_issue(i: &PatternIssue) -> (r: PatternIssue)
    ensures
        issue_view(r) == issue_view(*i),
{
    PatternIssue {
        field_name: text_of(i.field_name.as_str()),
        config_path: text_of(i.config_path.as_str()),
        suffix: text_of(i.suffix.as_str()),
        title: text_of(i.title.as_str()),
        detail: text_of(i.detail.as_str()),
        hint: text_of(i.hint.as_str()),
    }
}

fn without_field_exec(issues: &Vec<PatternIssue>, name: &str) -> (out: Vec<PatternIssue>)
    ensures
        issue_views(out@) == without_field(issue_views(issues@), name@),
{
    let ghost iv = issue_views(issues@);
    let mut out: Vec<PatternIssue> = Vec::new();
    let mut i: usize = 0;
    assert(issue_views(out@) =~= without_field(iv.take(0), name@));
    while i < issues.len()
        invariant
            i <= issues@.len(),
            iv == issue_views(issues@),
            issue_views(out@) == without_field(iv.take(i as int), name@),
        decreases issues@.len() - i,
    {
        assert(iv.take(i + 1).drop_last() =~= iv.take(i as int));
        assert(iv.take(i + 1).last() == issue_view(issues@[i as int]));
        if !chars_eq_str(chars_of(issues[i].field_name.as_str()).as_slice(), name) {
            let c = copy_issue(&issues[i]);
            let ghost before = out@;
            out.push(c);
            assert(issue_views(out@) =~= issue_views(before).push(issue_view(c)));
        }
        i += 1;
    }
    assert(iv.take(issues@.len() as int) =~= iv);
    out
}

fn path_option_exec(co: &JsonValue, key: &str, config_path: &str, prev: Option<String>) -> (r: Option<String>)
    ensures
        opt_text(r) == path_option(*co, key@, config_path@, opt_text(prev)),
{
    match get_str(co, key) {
        Some(raw) => {
            let t = replace_char_chars(chars_of(raw.as_str()).as_slice(), '\\', '/');
            let fixed = string_from(t.as_slice());
            Some(resolve_path(&PathBase::parent_of(config_path), fixed.as_str()))
        },
        None => prev,
    }
}

fn layer_options_exec(opts: PatternOptions, config_path: &str, config: &JsonValue) -> (r: PatternOptions)
    ensures
        (r.allow_js, opt_text(r.out_dir), opt_text(r.root_dir)) == layer_options(
            (opts.allow_js, opt_text(opts.out_dir), opt_text(opts.root_dir)),
            config_path@,
            *config,
        ),
{
    let co = match get(config, "compilerOptions") {
        Some(co) => co,
        None => {
            return opts;
        },
    };
    match co {
        JsonValue::Object(_) => {},
        _ => {
            return opts;
        },
    }
    let allow_js = match get(co, "allowJs") {
        Some(JsonValue::Bool(b)) => *b,
        _ => opts.allow_js,
    };
    let out_dir = path_option_exec(co, "outDir", config_path, opts.out_dir);
    let root_dir = path_option_exec(co, "rootDir", config_path, opts.root_dir);
    PatternOptions { allow_js, out_dir, root_dir }
}

fn field_name_at(k: usize) -> (r: &'static str)
    requires
        k < 3,
    ensures
        r@ == field_names()[k as int],
{
    match k {
        0 => "include",
        1 => "exclude",
        _ => "files",
    }
}

fn apply_field_exec(c: PatternConfig, k: usize, config_path: &str, config: &JsonValue) -> (r: PatternConfig)
    requires
        k < 3,
    ensures
        pattern_config_view(r) == apply_field(pattern_config_view(c), k as int, config_path@, *config),
{
    let name = field_name_at(k);
    let v = match get(config, name) {
        Some(v) => v,
        None => {
            return c;
        },
    };
    let (field, new_issues) = parse_effective_pattern_field(name, v, config_path);
    let mut issues = without_field_exec(&c.issues, name);
    let mut j: usize = 0;
    let ghost start = issue_views(issues@);
    while j < new_issues.len()
        invariant
            j <= new_issues@.len(),
            issue_views(issues@) == start + issue_views(new_issues@).take(j as int),
        decreases new_issues@.len() - j,
    {
        let x = copy_issue(&new_issues[j]);
        let ghost before = issues@;
        issues.push(x);
        assert(issue_views(issues@) =~= issue_views(before).push(issue_view(x)));
        assert(issue_views(new_issues@).take(j + 1) =~= issue_views(new_issues@).take(j as int).push(
            issue_view(new_issues@[j as int]),
        ));
        j += 1;
    }
    assert(issue_views(new_issues@).take(new_issues@.len() as int) =~= issue_views(new_issues@));
    if k == 0 {
        PatternConfig { options: c.options, inclusions: Some(field), exclusions: c.exclusions, files: c.files, issues }
    } else if k == 1 {
        PatternConfig { options: c.options, inclusions: c.inclusions, exclusions: Some(field), files: c.files, issues }
    } else {
        PatternConfig { options: c.options, inclusions: c.inclusions, exclusions: c.exclusions, files: Some(field), issues }
    }
}

/// The patterns that apply to the last config of a chain. `layers` runs
/// from the oldest ancestor to the config itself; `start_issue` is the
/// problem met where the chain stopped early, if any.
pub fn effective_pattern_config(layers: &Vec<PatternLayer>, start_issue: Option<PatternIssue>) -> (r: PatternConfig)
    ensures
        pattern_config_view(r) == effective_upto(
            layer_views(layers@),
            match start_issue {
                Some(i) => Some(issue_view(i)),
                None => None,
            },
            layers@.len() as int,
        ),
{
    let ghost lv = layer_views(layers@);
    let ghost si = match &start_issue {
        Some(i) => Some(issue_view(*i)),
        None => None,
    };
    let mut issues: Vec<PatternIssue> = Vec::new();
    match start_issue {
        Some(i) => {
            issues.push(i);
        },
        None => {},
    }
    let mut c = PatternConfig {
        options: PatternOptions { allow_js: false, out_dir: None, root_dir: None },
        inclusions: None,
        exclusions: None,
        files: None,
        issues,
    };
    assert(pattern_config_view(c) =~= effective_upto(lv, si, 0));
    let mut n: usize = 0;
    while n < layers.len()
        invariant
            n <= layers@.len(),
            lv == layer_views(layers@),
            pattern_config_view(c) == effective_upto(lv, si, n as int),
        decreases layers@.len() - n,
    {
        let layer = &layers[n];
        assert(lv[n as int] == (layer.config_path@, layer.config));
        let cp = layer.config_path.as_str();
        let options = layer_options_exec(c.options, cp, &layer.config);
        c = PatternConfig { options, inclusions: c.inclusions, exclusions: c.exclusions, files: c.files, issues: c.issues };
        match &layer.config {
            JsonValue::Object(_) => {
                c = apply_field_exec(c, 0, cp, &layer.config);
                c = apply_field_exec(c, 1, cp, &layer.config);
                c = apply_field_exec(c, 2, cp, &layer.config);
            },
            _ => {},
        }
        n += 1;
    }
    c
}


// ---------------------------------------------------------------------
// Findings
// ---------------------------------------------------------------------

/// The finding of an issue met while checking the tsconfig at `file_path`:
/// an error reported against the config the issue is in.
pub open spec fn issue_finding(
    file_path: Seq<char>,
    i: (Seq<char>, Seq<char>, Seq<char>, Seq<char>, Seq<char>, Seq<char>),
) -> (Seq<char>, Seq<char>, Seq<char>, Seq<char>, Severity, Option<Seq<char>>) {
    (
        "tsconfig-patterns-shape:"@ + file_path + ":"@ + i.0 + ":"@ + i.2 + ":"@ + i.1,
        i.3,
        i.4,
        i.5,
        Severity::Error,
        Some(i.1),
    )
}

/// One finding per issue, in order.
pub fn pattern_issue_findings(file_path: &str, issues: &Vec<PatternIssue>) -> (out: Vec<ConfigFinding>)
    ensures
        config_views(out@) == issue_views(issues@).map_values(
            |i: (Seq<char>, Seq<char>, Seq<char>, Seq<char>, Seq<char>, Seq<char>)| issue_finding(file_path@, i),
        ),
{
    let ghost want = issue_views(issues@).map_values(
        |i: (Seq<char>, Seq<char>, Seq<char>, Seq<char>, Seq<char>, Seq<char>)| issue_finding(file_path@, i),
    );
    let mut out: Vec<ConfigFinding> = Vec::new();
    let mut k: usize = 0;
    while k < issues.len()
        invariant
            k <= issues@.len(),
            want == issue_views(issues@).map_values(
                |i: (Seq<char>, Seq<char>, Seq<char>, Seq<char>, Seq<char>, Seq<char>)| issue_finding(file_path@, i),
            ),
            config_views(out@) == want.take(k as int),
        decreases issues@.len() - k,
    {
        let issue = &issues[k];
        let mut id: Vec<char> = Vec::new();
        append_str(&mut id, "tsconfig-patterns-shape:");
        append_str(&mut id, file_path);
        append_str(&mut id, ":");
        append_str(&mut id, issue.field_name.as_str());
        append_str(&mut id, ":");
        append_str(&mut id, issue.suffix.as_str());
        append_str(&mut id, ":");
        append_str(&mut id, issue.config_path.as_str());
        let f = ConfigFinding {
            id: string_from(id.as_slice()),
            title: text_of(issue.title.as_str()),
            detail: text_of(issue.detail.as_str()),
            hint: text_of(issue.hint.as_str()),
            severity: Severity::Error,
            file: Some(text_of(issue.config_path.as_str())),
        };
        assert(config_view(f) == want[k as int]);
        let ghost before = out@;
        out.push(f);
        assert(config_views(out@) =~= config_views(before).push(config_view(f)));
        assert(want.take(k + 1) =~= want.take(k as int).push(want[k as int]));
        k += 1;
    }
    assert(want.take(issues@.len() as int) =~= want);
    out
}


// ---------------------------------------------------------------------
// A config's own declaration wins
// ---------------------------------------------------------------------

/// The issues about the named field, in order.
pub open spec fn issues_about(
    issues: Seq<(Seq<char>, Seq<char>, Seq<char>, Seq<char>, Seq<char>, Seq<char>)>,
    name: Seq<char>,
) -> Seq<(Seq<char>, Seq<char>, Seq<char>, Seq<char>, Seq<char>, Seq<char>)>
    decreases issues.len(),
{
    if issues.len() == 0 {
        seq![]
    } else if issues.last().0 == name {
        issues_about(issues.drop_last(), name).push(issues.last())
    } else {
        issues_about(issues.drop_last(), name)
    }
}

proof fn lemma_about_concat(
    x: Seq<(Seq<char>, Seq<char>, Seq<char>, Seq<char>, Seq<char>, Seq<char>)>,
    y: Seq<(Seq<char>, Seq<char>, Seq<char>, Seq<char>, Seq<char>, Seq<char>)>,
    name: Seq<char>,
)
    ensures
        issues_about(x + y, name) == issues_about(x, name) + issues_about(y, name),
    decreases y.len(),
{
    if y.len() == 0 {
        assert(x + y =~= x);
        assert(issues_about(x, name) + seq![] =~= issues_about(x, name));
    } else {
        lemma_about_concat(x, y.drop_last(), name);
        assert((x + y).drop_last() =~= x + y.drop_last());
        assert((x + y).last() == y.last());
        if y.last().0 == name {
            assert(issues_about(x, name) + issues_about(y.drop_last(), name).push(y.last()) =~= (
            issues_about(x, name) + issues_about(y.drop_last(), name)).push(y.last()));
        }
    }
}

proof fn lemma_about_without(
    x: Seq<(Seq<char>, Seq<char>, Seq<char>, Seq<char>, Seq<char>, Seq<char>)>,
    removed: Seq<char>,
    name: Seq<char>,
)
    ensures
        issues_about(without_field(x, removed), name) == if name == removed {
            seq![]
        } else {
            issues_about(x, name)
        },
    decreases x.len(),
{
    if x.len() > 0 {
        lemma_about_without(x.drop_last(), removed, name);
        if x.last().0 != removed {
            let w = without_field(x.drop_last(), removed);
            assert(without_field(x, removed) == w.push(x.last()));
            assert(w.push(x.last()).drop_last() =~= w);
        }
    }
}

/// Every issue in the sequence is about the named field.
pub open spec fn all_about(
    issues: Seq<(Seq<char>, Seq<char>, Seq<char>, Seq<char>, Seq<char>, Seq<char>)>,
    name: Seq<char>,
) -> bool {
    forall|i: int| 0 <= i < issues.len() ==> (#[trigger] issues[i]).0 == name
}

proof fn lemma_about_all(
    x: Seq<(Seq<char>, Seq<char>, Seq<char>, Seq<char>, Seq<char>, Seq<char>)>,
    owner: Seq<char>,
    name: Seq<char>,
)
    requires
        all_about(x, owner),
    ensures
        issues_about(x, name) == if name == owner {
            x
        } else {
            seq![]
        },
    decreases x.len(),
{
    if x.len() > 0 {
        assert(all_about(x.drop_last(), owner)) by {
            assert forall|i: int| 0 <= i < x.drop_last().len() implies (#[trigger] x.drop_last()[i]).0 == owner by {
                assert(x.drop_last()[i] == x[i]);
            }
        }
        lemma_about_all(x.drop_last(), owner, name);
        assert(x.last() == x[x.len() - 1]);
        if name == owner {
            assert(x.drop_last().push(x.last()) =~= x);
        }
    }
}

proof fn lemma_entry_issues_about(name: Seq<char>, cp: Seq<char>, items: Seq<JsonValue>, n: nat)
    ensures
        all_about(entry_issues(name, cp, items, n), name),
    decreases n,
{
    if n > 0 && n <= items.len() {
        lemma_entry_issues_about(name, cp, items, (n - 1) as nat);
        let prev = entry_issues(name, cp, items, (n - 1) as nat);
        let cur = entry_issues(name, cp, items, n);
        assert forall|i: int| 0 <= i < cur.len() implies (#[trigger] cur[i]).0 == name by {
            if i < prev.len() {
                assert(cur[i] == prev[i]);
            }
        }
    }
}

proof fn lemma_parsed_about(name: Seq<char>, cp: Seq<char>, v: JsonValue)
    ensures
        all_about(parsed_field(name, cp, v).1, name),
{
    match v {
        JsonValue::Array(items) => {
            lemma_entry_issues_about(name, cp, items@, items@.len());
        },
        _ => {
            assert(parsed_field(name, cp, v).1 == seq![shape_issue(name, cp)]);
        },
    }
}

proof fn lemma_field_names_distinct()
    ensures
        field_names()[0] != field_names()[1],
        field_names()[0] != field_names()[2],
        field_names()[1] != field_names()[2],
{
    reveal_strlit("include");
    reveal_strlit("exclude");
    reveal_strlit("files");
    assert(field_names()[0][0] == 'i');
    assert(field_names()[1][0] == 'e');
    assert(field_names()[2][0] == 'f');
}

/// What one field step does to the issues about a field: the declared
/// field's issues replace those about it; other fields' issues stay.
proof fn lemma_step_about(
    c: (
        (bool, Option<Seq<char>>, Option<Seq<char>>),
        Option<(Seq<Seq<char>>, Seq<char>, Seq<char>)>,
        Option<(Seq<Seq<char>>, Seq<char>, Seq<char>)>,
        Option<(Seq<Seq<char>>, Seq<char>, Seq<char>)>,
        Seq<(Seq<char>, Seq<char>, Seq<char>, Seq<char>, Seq<char>, Seq<char>)>,
    ),
    j: int,
    cp: Seq<char>,
    config: JsonValue,
    name: Seq<char>,
)
    requires
        0 <= j < 3,
    ensures
        issues_about(apply_field(c, j, cp, config).4, name) == if field_names()[j] == name
            && get_spec(config, name) is Some {
            parsed_field(name, cp, get_spec(config, name).unwrap()).1
        } else {
            issues_about(c.4, name)
        },
{
    let fname = field_names()[j];
    match get_spec(config, fname) {
        None => {},
        Some(v) => {
            let p = parsed_field(fname, cp, v);
            lemma_about_concat(without_field(c.4, fname), p.1, name);
            lemma_about_without(c.4, fname, name);
            lemma_parsed_about(fname, cp, v);
            lemma_about_all(p.1, fname, name);
            if fname == name {
                assert(seq![] + p.1 =~= p.1);
            } else {
                assert(issues_about(c.4, name) + seq![] =~= issues_about(c.4, name));
            }
        },
    }
}

/// A config's own declaration of a pattern field replaces what its
/// ancestors said: the field's patterns are those it declares (relative to
/// its directory), and the issues about the field are exactly those of
/// its declaration.
pub proof fn lemma_own_declaration_wins(
    layers: Seq<(Seq<char>, JsonValue)>,
    start_issue: Option<(Seq<char>, Seq<char>, Seq<char>, Seq<char>, Seq<char>, Seq<char>)>,
    k: int,
)
    requires
        layers.len() > 0,
        0 <= k < 3,
        layers.last().1 is Object,
        get_spec(layers.last().1, field_names()[k]) is Some,
    ensures
        ({
            let e = effective_upto(layers, start_issue, layers.len() as int);
            let p = parsed_field(
                field_names()[k],
                layers.last().0,
                get_spec(layers.last().1, field_names()[k]).unwrap(),
            );
            &&& k == 0 ==> e.1 == Some(p.0)
            &&& k == 1 ==> e.2 == Some(p.0)
            &&& k == 2 ==> e.3 == Some(p.0)
            &&& issues_about(e.4, field_names()[k]) == p.1
        }),
{
    let n = layers.len() as int;
    let cp = layers.last().0;
    let cfg = layers.last().1;
    assert(layers[n - 1] == layers.last());
    let prev = effective_upto(layers, start_issue, n - 1);
    let c0 = (layer_options(prev.0, cp, cfg), prev.1, prev.2, prev.3, prev.4);
    let c1 = apply_field(c0, 0, cp, cfg);
    let c2 = apply_field(c1, 1, cp, cfg);
    let c3 = apply_field(c2, 2, cp, cfg);
    assert(effective_upto(layers, start_issue, n) == c3);
    let name = field_names()[k];
    lemma_field_names_distinct();
    lemma_step_about(c0, 0, cp, cfg, name);
    lemma_step_about(c1, 1, cp, cfg, name);
    lemma_step_about(c2, 2, cp, cfg, name);
}

} // verus!
