//! Where a package entrypoint target points: the target resolved inside the
//! package directory, the file names a target may stand for (with the
//! extensions its field allows, and `index` files for main-like fields),
//! and the texts of the findings about incompatible file types.
use vstd::prelude::*;
use crate::package_entrypoints::{
    exact_file_matches_field_path, exports_local, field_path_text, finding_view, finding_views,
    has_url_like_scheme, imports_local, invalid_local_target_detail, is_declaration_file,
    is_exports_local_target, is_imports_local_target, is_main_like_field,
    is_valid_external_import_target, join_field_path, local_target_detail, main_like_field,
    severity_for_field_path, url_like_scheme, uses_types, uses_types_extensions,
    valid_external_import, BranchOutcome, FindingRef,
};
use crate::registry::Severity;
use crate::paths::{
    path_to_slash_string, slash_text, strip_root, strip_root_text,
    components_prefix, components_prefix_exec, file_name, file_name_of, joined, render_resolved,
    resolve_parts, PathBase,
};
use crate::text::{
    append_chars, append_str, chars_eq_str, chars_of, contains_char, ends_with, ends_with_str,
    first_index, replace_char, replace_char_chars, split_char, split_char_chars, starts_with, starts_with_str,
    string_from, string_views,
};

verus! {

// ---------------------------------------------------------------------
// Extensions
// ---------------------------------------------------------------------

/// The extensions tried for runtime entrypoints.
pub open spec fn runtime_extensions() -> Seq<&'static str> {
    seq![".cjs", ".cts", ".js", ".json", ".jsx", ".mjs", ".mts", ".node", ".ts", ".tsx"]
}

/// The extensions tried for type declarations.
pub open spec fn types_extensions() -> Seq<&'static str> {
    seq![".d.cts", ".d.mts", ".d.ts"]
}

/// The file extensions tried for a target without one: declaration extensions under `types`, runtime extensions elsewhere.
pub open spec fn extensions_for(fp: Seq<String>) -> Seq<&'static str> {
    if uses_types(fp) {
        types_extensions()
    } else {
        runtime_extensions()
    }
}

pub fn extensions_for_field_path(field_path: &[String]) -> (r: Vec<&'static str>)
    ensures
        r@ == extensions_for(field_path@),
{
    let r = if uses_types_extensions(field_path) {
        vec![".d.cts", ".d.mts", ".d.ts"]
    } else {
        vec![".cjs", ".cts", ".js", ".json", ".jsx", ".mjs", ".mts", ".node", ".ts", ".tsx"]
    };
    assert(r@ =~= extensions_for(field_path@));
    r
}

/// Some extension of the list ends the name.
pub open spec fn ends_with_some(name: Seq<char>, exts: Seq<&'static str>) -> bool {
    exists|i: int| 0 <= i < exts.len() && ends_with(name, #[trigger] exts[i]@)
}

fn ends_with_some_exec(name: &[char], exts: &Vec<&'static str>) -> (r: bool)
    ensures
        r == ends_with_some(name@, exts@),
{
    let mut i: usize = 0;
    while i < exts.len()
        invariant
            i <= exts@.len(),
            forall|k: int| 0 <= k < i ==> !ends_with(name@, #[trigger] exts@[k]@),
        decreases exts@.len() - i,
    {
        if ends_with_str(name, exts[i]) {
            return true;
        }
        i += 1;
    }
    false
}

/// The file name after the last `*`
/// of the target already ends with an extension of its field.
pub open spec fn explicit_extension(fp: Seq<String>, target: Seq<char>) -> bool {
    match file_name(split_char(target, '*').last()) {
        None => false,
        Some(name) => ends_with_some(name, extensions_for(fp)),
    }
}

pub fn has_supported_explicit_extension(field_path: &[String], target: &str) -> (r: bool)
    ensures
        r == explicit_extension(field_path@, target@),
{
    let t = chars_of(target);
    let pieces = crate::text::split_char_chars(t.as_slice(), '*');
    proof {
        crate::text::lemma_split_char_len(t@, '*');
    }
    let tail = &pieces[pieces.len() - 1];
    let tail_text = string_from(tail.as_slice());
    match file_name_of(tail_text.as_str()) {
        None => false,
        Some(name) => {
            let n = chars_of(name.as_str());
            let exts = extensions_for_field_path(field_path);
            ends_with_some_exec(n.as_slice(), &exts)
        },
    }
}

/// The path with each extension of the field
/// appended.
pub open spec fn extension_candidates(path: Seq<char>, exts: Seq<&'static str>) -> Seq<Seq<char>> {
    exts.map_values(|e: &'static str| path + e@)
}

pub fn build_extension_candidates(field_path: &[String], path: &str) -> (out: Vec<String>)
    ensures
        string_views(out@) == extension_candidates(path@, extensions_for(field_path@)),
{
    let exts = extensions_for_field_path(field_path);
    let mut out: Vec<String> = Vec::new();
    let mut i: usize = 0;
    while i < exts.len()
        invariant
            i <= exts@.len(),
            exts@ == extensions_for(field_path@),
            string_views(out@) == extension_candidates(path@, exts@).take(i as int),
        decreases exts@.len() - i,
    {
        let mut c: Vec<char> = Vec::new();
        append_str(&mut c, path);
        append_str(&mut c, exts[i]);
        let s = string_from(c.as_slice());
        let ghost before = out@;
        out.push(s);
        assert(string_views(out@) =~= string_views(before).push(s@));
        assert(extension_candidates(path@, exts@).take(i + 1) =~= extension_candidates(
            path@,
            exts@,
        ).take(i as int).push(path@ + exts@[i as int]@));
        i += 1;
    }
    assert(extension_candidates(path@, exts@).take(exts@.len() as int) =~= extension_candidates(
        path@,
        exts@,
    ));
    out
}

// ---------------------------------------------------------------------
// Resolving inside the package
// ---------------------------------------------------------------------

/// Where a target leads: the target (with `/` for `\`)
/// taken relative to the resolved package directory, resolved; none when
/// it leaves the directory.
pub open spec fn resolved_within(base: (bool, Seq<Seq<char>>), target: Seq<char>) -> Option<
    Seq<char>,
> {
    let bn = (base.0, resolve_parts(base.0, base.1));
    let j = joined(bn, replace_char(target, '\\', '/'));
    let r = (j.0, resolve_parts(j.0, j.1));
    if components_prefix(r, bn) {
        Some(render_resolved(r.0, r.1))
    } else {
        None
    }
}

pub fn resolve_path(base_dir: &PathBase, target: &str) -> (r: Option<String>)
    ensures
        match r {
            Some(s) => resolved_within(base_dir@, target@) == Some(s@),
            None => resolved_within(base_dir@, target@) is None,
        },
{
    let bn = base_dir.resolve();
    let t = chars_of(target);
    let slashed = replace_char_chars(t.as_slice(), '\\', '/');
    let j = bn.join(slashed.as_slice());
    let r = j.resolve();
    if components_prefix_exec(&r, &bn) {
        Some(r.render_resolved())
    } else {
        None
    }
}

// ---------------------------------------------------------------------
// Wildcard patterns
// ---------------------------------------------------------------------

/// `/` for `\`.
pub open spec fn match_text(t: Seq<char>) -> Seq<char> {
    replace_char(t, '\\', '/')
}

/// The text of `path.join("index")`.
pub open spec fn index_path(p: Seq<char>) -> Seq<char> {
    if ends_with(p, seq!['/']) {
        p + "index"@
    } else {
        p + "/index"@
    }
}

pub open spec fn match_texts(v: Seq<Seq<char>>) -> Seq<Seq<char>> {
    v.map_values(|t: Seq<char>| match_text(t))
}

/// The resolved target, and unless the target
/// names an extension of its field, the target with each extension and,
/// for main-like fields, its `index` file with each extension; nothing
/// when the target leaves the package.
pub open spec fn wildcard_patterns(base: (bool, Seq<Seq<char>>), fp: Seq<String>, target: Seq<char>) -> Seq<
    Seq<char>,
> {
    match resolved_within(base, target) {
        None => seq![],
        Some(r) => {
            let first = seq![match_text(r)];
            if explicit_extension(fp, target) {
                first
            } else {
                let exts = extensions_for(fp);
                let with_ext = first + match_texts(extension_candidates(r, exts));
                if fp.len() > 0 && main_like_field(fp[0]@) {
                    with_ext + match_texts(extension_candidates(index_path(r), exts))
                } else {
                    with_ext
                }
            }
        },
    }
}

fn push_match_texts(out: &mut Vec<String>, more: &Vec<String>)
    ensures
        string_views(final(out)@) == string_views(old(out)@) + match_texts(string_views(more@)),
{
    let ghost start = string_views(out@);
    let mut i: usize = 0;
    while i < more.len()
        invariant
            i <= more@.len(),
            string_views(out@) == start + match_texts(string_views(more@)).take(i as int),
        decreases more@.len() - i,
    {
        let c = chars_of(more[i].as_str());
        let m = replace_char_chars(c.as_slice(), '\\', '/');
        let s = string_from(m.as_slice());
        let ghost before = out@;
        out.push(s);
        assert(string_views(out@) =~= string_views(before).push(s@));
        assert(match_texts(string_views(more@)).take(i + 1) =~= match_texts(string_views(more@)).take(
            i as int,
        ).push(match_text(more@[i as int]@)));
        i += 1;
    }
    assert(match_texts(string_views(more@)).take(more@.len() as int) =~= match_texts(
        string_views(more@),
    ));
}

pub fn build_wildcard_patterns(base_dir: &PathBase, field_path: &[String], target: &str) -> (out: Vec<
    String,
>)
    ensures
        string_views(out@) == wildcard_patterns(base_dir@, field_path@, target@),
{
    let r = match resolve_path(base_dir, target) {
        Some(r) => r,
        None => {
            return Vec::new();
        },
    };
    let rc = chars_of(r.as_str());
    let first = replace_char_chars(rc.as_slice(), '\\', '/');
    let mut out: Vec<String> = vec![string_from(first.as_slice())];
    assert(string_views(out@) =~= seq![match_text(r@)]);
    if has_supported_explicit_extension(field_path, target) {
        return out;
    }
    let with_ext = build_extension_candidates(field_path, r.as_str());
    push_match_texts(&mut out, &with_ext);
    if field_path.len() > 0 && is_main_like_field(field_path[0].as_str()) {
        let mut ip: Vec<char> = Vec::new();
        append_chars(&mut ip, rc.as_slice());
        if rc.len() > 0 && rc[rc.len() - 1] == '/' {
            append_str(&mut ip, "index");
        } else {
            append_str(&mut ip, "/index");
        }
        proof {
            reveal_strlit("index");
            reveal_strlit("/index");
            if rc@.len() > 0 {
                assert(r@.skip(r@.len() - 1) =~= seq![rc@[rc@.len() - 1]]);
            }
            if rc@.len() > 0 && rc@[rc@.len() - 1] == '/' {
                assert(ends_with(r@, seq!['/']));
            } else if rc@.len() > 0 {
                assert(r@.skip(r@.len() - 1)[0] != seq!['/'][0]);
            }
        }
        let ips = string_from(ip.as_slice());
        let with_index = build_extension_candidates(field_path, ips.as_str());
        push_match_texts(&mut out, &with_index);
    }
    out
}

// ---------------------------------------------------------------------
// Incompatible file types
// ---------------------------------------------------------------------

/// The title of the findings about a target of the wrong file type.
pub fn incompatible_file_title() -> (r: &'static str)
    ensures
        r@ == "Package entrypoint target uses an incompatible file type"@,
{
    "Package entrypoint target uses an incompatible file type"
}

/// The detail of the finding for an exact target whose file type does not
/// suit the field (a declaration file outside `types`, or the reverse).
pub open spec fn exact_incompatible_detail(fp: Seq<String>, target: Seq<char>) -> Seq<char> {
    if uses_types(fp) {
        "package.json "@ + field_path_text(fp) + " points to "@ + target
            + ", but types targets must point to declaration files such as .d.ts, .d.mts, or .d.cts."@
    } else {
        "package.json "@ + field_path_text(fp) + " points to "@ + target
            + ", but runtime entrypoints must not point to declaration-only files such as .d.ts."@
    }
}

pub fn incompatible_exact_file_detail(field_path: &[String], target: &str) -> (out: String)
    ensures
        out@ == exact_incompatible_detail(field_path@, target@),
{
    let mut out: Vec<char> = Vec::new();
    append_str(&mut out, "package.json ");
    let fp = join_field_path(field_path);
    append_chars(&mut out, fp.as_slice());
    append_str(&mut out, " points to ");
    append_str(&mut out, target);
    if uses_types_extensions(field_path) {
        append_str(
            &mut out,
            ", but types targets must point to declaration files such as .d.ts, .d.mts, or .d.cts.",
        );
    } else {
        append_str(
            &mut out,
            ", but runtime entrypoints must not point to declaration-only files such as .d.ts.",
        );
    }
    string_from(out.as_slice())
}

/// The hint of the finding for an exact target of the wrong file type.
pub fn incompatible_exact_file_hint(field_path: &[String]) -> (r: &'static str)
    ensures
        r@ == (if uses_types(field_path@) {
            "Point types to a generated declaration file before publishing."@
        } else {
            "Point main/module/bin to a runtime file instead of a declaration-only file."@
        }),
{
    if uses_types_extensions(field_path) {
        "Point types to a generated declaration file before publishing."
    } else {
        "Point main/module/bin to a runtime file instead of a declaration-only file."
    }
}

/// The detail of the finding for a wildcard target whose match has a file
/// type that does not suit the field.
pub open spec fn wildcard_incompatible_detail(fp: Seq<String>, target: Seq<char>, matched: Seq<char>) -> Seq<
    char,
> {
    if uses_types(fp) {
        "package.json "@ + field_path_text(fp) + " points to "@ + target + ", but wildcard match "@
            + matched + " is not a declaration file."@
    } else {
        "package.json "@ + field_path_text(fp) + " points to "@ + target + ", but wildcard match "@
            + matched + " is a declaration-only file."@
    }
}

pub fn wildcard_incompatible_file_detail(field_path: &[String], target: &str, matched_display: &str) -> (out:
    String)
    ensures
        out@ == wildcard_incompatible_detail(field_path@, target@, matched_display@),
{
    let mut out: Vec<char> = Vec::new();
    append_str(&mut out, "package.json ");
    let fp = join_field_path(field_path);
    append_chars(&mut out, fp.as_slice());
    append_str(&mut out, " points to ");
    append_str(&mut out, target);
    append_str(&mut out, ", but wildcard match ");
    append_str(&mut out, matched_display);
    if uses_types_extensions(field_path) {
        append_str(&mut out, " is not a declaration file.");
    } else {
        append_str(&mut out, " is a declaration-only file.");
    }
    string_from(out.as_slice())
}

/// The hint of the finding for a wildcard match of the wrong file type.
pub fn wildcard_incompatible_file_hint(field_path: &[String]) -> (r: &'static str)
    ensures
        r@ == (if uses_types(field_path@) {
            "Point types to a generated declaration file before publishing."@
        } else {
            "Point runtime entrypoints to runtime files instead of declaration-only files."@
        }),
{
    if uses_types_extensions(field_path) {
        "Point types to a generated declaration file before publishing."
    } else {
        "Point runtime entrypoints to runtime files instead of declaration-only files."
    }
}

// ---------------------------------------------------------------------
// Which targets are local
// ---------------------------------------------------------------------

/// Some piece is not empty.
pub open spec fn has_named_piece(pieces: Seq<Seq<char>>) -> bool {
    exists|i: int| 0 <= i < pieces.len() && (#[trigger] pieces[i]).len() > 0
}

/// A `main`/`module`/`types`/`bin` target is
/// local unless it is empty, URL-like, a `#` specifier, or absolute.
/// Whether the target exists does not enter into it: a target past those
/// checks always has a named piece (`lemma_main_like_local_past_checks`).
pub open spec fn main_like_local(t: Seq<char>) -> bool {
    if t.len() == 0 || url_like_scheme(t) || t[0] == '#' {
        false
    } else if starts_with(t, "./"@) || starts_with(t, "../"@) {
        true
    } else if t[0] == '/' || t[0] == '\\' {
        false
    } else {
        has_named_piece(split_char(replace_char(t, '\\', '/'), '/'))
    }
}

pub fn is_main_like_local_target(target: &str) -> (r: bool)
    ensures
        r == main_like_local(target@),
{
    let t = chars_of(target);
    if t.len() == 0 || has_url_like_scheme(target) || t[0] == '#' {
        return false;
    }
    if starts_with_str(t.as_slice(), "./") || starts_with_str(t.as_slice(), "../") {
        return true;
    }
    if t[0] == '/' || t[0] == '\\' {
        return false;
    }
    let slashed = replace_char_chars(t.as_slice(), '\\', '/');
    let pieces = split_char_chars(slashed.as_slice(), '/');
    assert(main_like_local(target@) == has_named_piece(split_char(slashed@, '/')));
    let mut i: usize = 0;
    while i < pieces.len()
        invariant
            i <= pieces@.len(),
            main_like_local(target@) == has_named_piece(split_char(slashed@, '/')),
            pieces@.len() == split_char(slashed@, '/').len(),
            forall|k: int| 0 <= k < pieces@.len() ==> #[trigger] pieces@[k]@ == split_char(
                slashed@,
                '/',
            )[k],
            forall|k: int| 0 <= k < i ==> pieces@[k]@.len() == 0,
        decreases pieces@.len() - i,
    {
        if pieces[i].len() > 0 {
            assert(split_char(slashed@, '/')[i as int].len() > 0);
            return true;
        }
        i += 1;
    }
    proof {
        assert forall|k: int| 0 <= k < split_char(slashed@, '/').len() implies (#[trigger] split_char(
            slashed@,
            '/',
        )[k]).len() == 0 by {
            assert(pieces@[k]@ == split_char(slashed@, '/')[k]);
        }
    }
    false
}

/// A main-like target that is not empty, URL-like, a `#` specifier or
/// absolute is local: its first piece is named, whatever the file system
/// holds.
pub proof fn lemma_main_like_local_past_checks(t: Seq<char>)
    requires
        t.len() > 0,
        !url_like_scheme(t),
        t[0] != '#',
        t[0] != '/',
        t[0] != '\\',
    ensures
        main_like_local(t),
{
    let s = replace_char(t, '\\', '/');
    assert(s.len() == t.len());
    assert(s[0] == t[0]);
    crate::text::lemma_first_index(s.drop_first(), '/');
    assert(first_index(s, '/') > 0);
    crate::text::lemma_first_index(s, '/');
    let pieces = split_char(s, '/');
    if first_index(s, '/') < s.len() {
        assert(pieces[0] == s.take(first_index(s, '/')));
    } else {
        assert(pieces[0] == s);
    }
    assert(pieces[0].len() > 0);
}

/// Whether the target of a field is a package-local
/// path, by the rule of its top-level field.
pub open spec fn relative_target(fp: Seq<String>, t: Seq<char>) -> bool {
    if fp.len() == 0 {
        false
    } else if fp[0]@ == "exports"@ {
        exports_local(t)
    } else if fp[0]@ == "imports"@ {
        imports_local(t)
    } else {
        main_like_local(t)
    }
}

pub fn is_relative_target(field_path: &[String], target: &str) -> (r: bool)
    ensures
        r == relative_target(field_path@, target@),
{
    if field_path.len() == 0 {
        return false;
    }
    let root = chars_of(field_path[0].as_str());
    if chars_eq_str(root.as_slice(), "exports") {
        is_exports_local_target(target)
    } else if chars_eq_str(root.as_slice(), "imports") {
        is_imports_local_target(target)
    } else {
        is_main_like_local_target(target)
    }
}

// ---------------------------------------------------------------------
// A string target
// ---------------------------------------------------------------------

/// The id of findings about a target.
pub open spec fn target_finding_id(package_path: Seq<char>, fp: Seq<String>, t: Seq<char>) -> Seq<
    char,
> {
    "package-entrypoints:"@ + package_path + ":"@ + field_path_text(fp) + ":"@ + t
}

pub fn target_finding_id_text(package_path: &str, field_path: &[String], target: &str) -> (out:
    String)
    ensures
        out@ == target_finding_id(package_path@, field_path@, target@),
{
    let mut out: Vec<char> = Vec::new();
    append_str(&mut out, "package-entrypoints:");
    append_str(&mut out, package_path);
    append_str(&mut out, ":");
    let fp = join_field_path(field_path);
    append_chars(&mut out, fp.as_slice());
    append_str(&mut out, ":");
    append_str(&mut out, target);
    string_from(out.as_slice())
}

/// The detail of the finding for a target that was not found.
pub fn missing_target_detail(field_path: &[String], target: &str) -> (out: String)
    ensures
        out@ == "package.json "@ + field_path_text(field_path@) + " points to "@ + target@
            + ", but the resolved path was not found."@,
{
    let mut out: Vec<char> = Vec::new();
    append_str(&mut out, "package.json ");
    let fp = join_field_path(field_path);
    append_chars(&mut out, fp.as_slice());
    append_str(&mut out, " points to ");
    append_str(&mut out, target);
    append_str(&mut out, ", but the resolved path was not found.");
    string_from(out.as_slice())
}

/// A finding of a target, as (id, title, detail, hint, severity).
pub open spec fn target_finding(
    package_path: Seq<char>,
    fp: Seq<String>,
    t: Seq<char>,
    title: Seq<char>,
    detail: Seq<char>,
    hint: Seq<char>,
) -> (Seq<char>, Seq<char>, Seq<char>, Seq<char>, Severity) {
    (target_finding_id(package_path, fp, t), title, detail, hint, if uses_types(fp) {
        Severity::Warn
    } else {
        Severity::Error
    })
}

/// The finding for a target that was not found.
pub open spec fn missing_finding(package_path: Seq<char>, fp: Seq<String>, t: Seq<char>) -> (
    Seq<char>,
    Seq<char>,
    Seq<char>,
    Seq<char>,
    Severity,
) {
    target_finding(
        package_path,
        fp,
        t,
        "Package entrypoint target does not exist"@,
        "package.json "@ + field_path_text(fp) + " points to "@ + t
            + ", but the resolved path was not found."@,
        "Update the relative path or remove the stale entrypoint before publishing."@,
    )
}

/// The finding for a target that leaves the package or is malformed.
pub open spec fn invalid_target_finding(package_path: Seq<char>, fp: Seq<String>, t: Seq<char>) -> (
    Seq<char>,
    Seq<char>,
    Seq<char>,
    Seq<char>,
    Severity,
) {
    target_finding(
        package_path,
        fp,
        t,
        "Package entrypoint target is invalid"@,
        local_target_detail(fp, t).unwrap(),
        "Use a package-local target that stays under ./ and avoids ., .., or node_modules segments."@,
    )
}

/// The finding for an exact target whose file type does not suit the field.
pub open spec fn incompatible_finding(package_path: Seq<char>, fp: Seq<String>, t: Seq<char>) -> (
    Seq<char>,
    Seq<char>,
    Seq<char>,
    Seq<char>,
    Severity,
) {
    target_finding(
        package_path,
        fp,
        t,
        "Package entrypoint target uses an incompatible file type"@,
        exact_incompatible_detail(fp, t),
        if uses_types(fp) {
            "Point types to a generated declaration file before publishing."@
        } else {
            "Point main/module/bin to a runtime file instead of a declaration-only file."@
        },
    )
}

/// What the file system said about a string target, looked up by the
/// caller as far as `string_target_outcome` needs it.
pub struct TargetFacts {
    /// For a wildcard target: what matching it found.
    pub wildcard: Option<BranchOutcome>,
    /// For a target without `*` that resolves inside the package to a
    /// file: the resolved path.
    pub resolved_file: Option<String>,
    /// The findings about nested `package.json` files on the way.
    pub nested: Vec<FindingRef>,
    /// Whether the target exists.
    pub exists: bool,
}

/// The string-target rule of `inspect_entrypoint_value` (and of its nested
/// form): an invalid target gives its finding; an `imports` target naming
/// a package is valid; a target that is not local is neither; a wildcard
/// target gives what matching found, else a missing-target finding; a file
/// of the wrong type gives that finding; an existing target is valid with
/// the nested findings; otherwise the nested findings and a missing-target
/// finding.
pub open spec fn string_target_outcome(
    package_path: Seq<char>,
    fp: Seq<String>,
    t: Seq<char>,
    wildcard: Option<(Seq<(Seq<char>, Seq<char>, Seq<char>, Seq<char>, Severity)>, bool)>,
    resolved_file: Option<Seq<char>>,
    nested: Seq<(Seq<char>, Seq<char>, Seq<char>, Seq<char>, Severity)>,
    exists: bool,
) -> (Seq<(Seq<char>, Seq<char>, Seq<char>, Seq<char>, Severity)>, bool) {
    let missing = missing_finding(package_path, fp, t);
    if local_target_detail(fp, t) is Some {
        (seq![invalid_target_finding(package_path, fp, t)], false)
    } else if fp.len() > 0 && fp[0]@ == "imports"@ && valid_external_import(t) {
        (seq![], true)
    } else if !relative_target(fp, t) {
        (seq![], false)
    } else if t.contains('*') {
        match wildcard {
            Some((fs, valid)) => if valid || fs.len() > 0 {
                (fs, valid)
            } else {
                (seq![missing], false)
            },
            None => (seq![missing], false),
        }
    } else if resolved_file matches Some(f) && uses_types(fp) != is_declaration_file(f) {
        (seq![incompatible_finding(package_path, fp, t)], false)
    } else if exists {
        (nested, true)
    } else {
        (nested.push(missing), false)
    }
}

fn target_finding_exec(
    package_path: &str,
    field_path: &[String],
    target: &str,
    title: &str,
    detail: String,
    hint: &str,
) -> (r: FindingRef)
    ensures
        finding_view(r) == target_finding(
            package_path@,
            field_path@,
            target@,
            title@,
            detail@,
            hint@,
        ),
{
    let id = target_finding_id_text(package_path, field_path, target);
    FindingRef {
        id,
        title: string_from(chars_of(title).as_slice()),
        detail,
        hint: string_from(chars_of(hint).as_slice()),
        severity: severity_for_field_path(field_path),
    }
}

pub fn string_target_outcome_exec(
    package_path: &str,
    field_path: &[String],
    target: &str,
    facts: TargetFacts,
) -> (r: BranchOutcome)
    ensures
        (finding_views(r.findings@), r.has_valid_target) == string_target_outcome(
            package_path@,
            field_path@,
            target@,
            match facts.wildcard {
                Some(w) => Some((finding_views(w.findings@), w.has_valid_target)),
                None => None,
            },
            match facts.resolved_file {
                Some(f) => Some(f@),
                None => None,
            },
            finding_views(facts.nested@),
            facts.exists,
        ),
{
    if let Some(detail) = invalid_local_target_detail(field_path, target) {
        let f = target_finding_exec(
            package_path,
            field_path,
            target,
            "Package entrypoint target is invalid",
            detail,
            "Use a package-local target that stays under ./ and avoids ., .., or node_modules segments.",
        );
        let v = vec![f];
        assert(finding_views(v@) =~= seq![finding_view(f)]);
        return BranchOutcome { findings: v, has_valid_target: false };
    }
    if field_path.len() > 0 && chars_eq_str(chars_of(field_path[0].as_str()).as_slice(), "imports")
        && is_valid_external_import_target(target) {
        let v: Vec<FindingRef> = Vec::new();
        assert(finding_views(v@) =~= Seq::<(Seq<char>, Seq<char>, Seq<char>, Seq<char>, Severity)>::empty());
        return BranchOutcome { findings: v, has_valid_target: true };
    }
    if !is_relative_target(field_path, target) {
        let v: Vec<FindingRef> = Vec::new();
        assert(finding_views(v@) =~= Seq::<(Seq<char>, Seq<char>, Seq<char>, Seq<char>, Severity)>::empty());
        return BranchOutcome { findings: v, has_valid_target: false };
    }
    let missing = target_finding_exec(
        package_path,
        field_path,
        target,
        "Package entrypoint target does not exist",
        missing_target_detail(field_path, target),
        "Update the relative path or remove the stale entrypoint before publishing.",
    );
    let tc = chars_of(target);
    if contains_char(tc.as_slice(), '*') {
        match facts.wildcard {
            Some(w) => {
                if w.has_valid_target || w.findings.len() > 0 {
                    return w;
                }
            },
            None => {},
        }
        let v = vec![missing];
        assert(finding_views(v@) =~= seq![finding_view(missing)]);
        return BranchOutcome { findings: v, has_valid_target: false };
    }
    match &facts.resolved_file {
        Some(f) => {
            if !exact_file_matches_field_path(field_path, f.as_str()) {
                let g = target_finding_exec(
                    package_path,
                    field_path,
                    target,
                    "Package entrypoint target uses an incompatible file type",
                    incompatible_exact_file_detail(field_path, target),
                    incompatible_exact_file_hint(field_path),
                );
                let v = vec![g];
                assert(finding_views(v@) =~= seq![finding_view(g)]);
                return BranchOutcome { findings: v, has_valid_target: false };
            }
        },
        None => {},
    }
    let mut nested = facts.nested;
    if facts.exists {
        return BranchOutcome { findings: nested, has_valid_target: true };
    }
    let ghost before = finding_views(nested@);
    nested.push(missing);
    assert(finding_views(nested@) =~= before.push(finding_view(missing)));
    BranchOutcome { findings: nested, has_valid_target: false }
}


// ---------------------------------------------------------------------
// Showing paths
// ---------------------------------------------------------------------

/// `.` for the base itself, `./` and the path
/// below the base, or the whole path when it lies elsewhere; with `/` for
/// `\`.
pub open spec fn display_relative(base_dir: Seq<char>, path: Seq<char>) -> Seq<char> {
    match strip_root(path, base_dir) {
        Some(rel) => if rel.len() == 0 {
            seq!['.']
        } else {
            seq!['.', '/'] + slash_text(rel)
        },
        None => slash_text(path),
    }
}

pub fn display_relative_path(base_dir: &str, path: &str) -> (r: String)
    ensures
        r@ == display_relative(base_dir@, path@),
{
    match strip_root_text(path, base_dir) {
        Some(rel) => {
            if chars_of(rel.as_str()).len() == 0 {
                let mut dot = String::new();
                dot.push('.');
                assert(dot@ =~= seq!['.']);
                dot
            } else {
                let s = path_to_slash_string(rel.as_str());
                let mut out = String::new();
                out.push('.');
                out.push('/');
                let sc = chars_of(s.as_str());
                let mut i: usize = 0;
                while i < sc.len()
                    invariant
                        i <= sc@.len(),
                        out@ == seq!['.', '/'] + sc@.take(i as int),
                    decreases sc@.len() - i,
                {
                    out.push(sc[i]);
                    assert(sc@.take(i + 1) =~= sc@.take(i as int).push(sc@[i as int]));
                    i += 1;
                }
                assert(sc@.take(sc@.len() as int) =~= sc@);
                out
            }
        },
        None => path_to_slash_string(path),
    }
}

} // verus!
