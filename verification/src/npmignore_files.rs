//! Which `package.json` `files` entries a nested `.npmignore` excludes.
use vstd::prelude::*;
use crate::glob::{
    any_ancestor_glob, ancestor_directory_paths_chars, ancestors, glob_matches_chars,
    path_component_matches_chars, path_glob, path_has_prefix, path_starts_with_chars, segment_glob,
    segment_glob_matches_chars, some_ancestor_glob, some_component_matches, views,
};
use crate::json::{get, get_spec, JsonValue};
use crate::paths::{file_name, file_name_of, path_to_slash_string, slash_text, strip_root, strip_root_text};
use crate::config_duplicates::{config_view, config_views, ConfigFinding};
use crate::registry::Severity;
use crate::text::{
    append_str, chars_eq, chars_of, contains_char, debug_str, lines, lines_of, replace_char,
    replace_char_chars, slice_chars, spec_debug_str, split_char, split_char_chars, starts_with,
    string_from, string_views, trim, trim_chars, trim_end, trim_end_char, trim_end_char_chars,
    trim_end_chars, trim_start_char, trim_start_char_chars, trim_start_pat, trim_start_pat_chars,
};
use crate::tsconfig_rules::string_items;

verus! {

/// One parsed `.npmignore` line.
pub struct NpmignorePattern {
    /// The line without trailing whitespace.
    pub raw: String,
    /// The pattern with slashes normalized and outer slashes removed.
    pub normalized: String,
    /// The line starts with an unescaped `!`.
    pub negated: bool,
    /// The pattern ends with `/`.
    pub directory_only: bool,
    /// The pattern starts with `/`.
    pub anchored: bool,
}

/// The abstract content of a pattern.
pub struct PatternModel {
    pub raw: Seq<char>,
    pub normalized: Seq<char>,
    pub negated: bool,
    pub directory_only: bool,
    pub anchored: bool,
}

impl View for NpmignorePattern {
    type V = PatternModel;

    open spec fn view(&self) -> PatternModel {
        PatternModel {
            raw: self.raw@,
            normalized: self.normalized@,
            negated: self.negated,
            directory_only: self.directory_only,
            anchored: self.anchored,
        }
    }
}

/// Backslashes become slashes, then leading `./` runs, leading and trailing
/// slashes are removed.
pub open spec fn normalize_slashes(value: Seq<char>) -> Seq<char> {
    trim_end_char(
        trim_start_char(trim_start_pat(replace_char(value, '\\', '/'), seq!['.', '/']), '/'),
        '/',
    )
}

pub fn normalize_slashes_chars(value: &[char]) -> (out: Vec<char>)
    ensures
        out@ == normalize_slashes(value@),
{
    let a = replace_char_chars(value, '\\', '/');
    let dot_slash: Vec<char> = vec!['.', '/'];
    assert(dot_slash@ =~= seq!['.', '/']);
    let b = trim_start_pat_chars(a.as_slice(), dot_slash.as_slice());
    let c = trim_start_char_chars(b.as_slice(), '/');
    trim_end_char_chars(c.as_slice(), '/')
}

/// A `files` entry after trimming and slash normalization; entries that
/// become empty or start with `!` are dropped.
pub open spec fn normalized_entry(value: Seq<char>) -> Option<Seq<char>> {
    let n = normalize_slashes(trim(value));
    if n.len() == 0 || n[0] == '!' {
        None
    } else {
        Some(n)
    }
}

/// A `files` entry of `package.json` trimmed, with `/` for `\` and no leading `./`; none for empty entries and negations.
pub fn normalize_files_entry(value: &str) -> (out: Option<String>)
    ensures
        match out {
            Some(s) => normalized_entry(value@) == Some(s@),
            None => normalized_entry(value@) is None,
        },
{
    let v = chars_of(value);
    let t = trim_chars(v.as_slice());
    let n = normalize_slashes_chars(t.as_slice());
    if n.len() == 0 || n[0] == '!' {
        None
    } else {
        Some(string_from(n.as_slice()))
    }
}

/// A leading `\!` or `\#` is an escaped literal; a leading `!` negates.
pub open spec fn unescape_line(v: Seq<char>) -> (Seq<char>, bool) {
    if starts_with(v, seq!['\\', '!']) {
        (seq!['!'] + v.skip(2), false)
    } else if starts_with(v, seq!['\\', '#']) {
        (seq!['#'] + v.skip(2), false)
    } else if v.len() > 0 && v[0] == '!' {
        (v.skip(1), true)
    } else {
        (v, false)
    }
}

/// The pattern a `.npmignore` line holds, if any: blank lines, comments and
/// lines that normalize to nothing hold none.
pub open spec fn npmignore_line(line: Seq<char>) -> Option<PatternModel> {
    let v = trim_end(line);
    if v.len() == 0 || v[0] == '#' {
        None
    } else {
        let value = unescape_line(v).0;
        let n = normalize_slashes(value);
        if n.len() == 0 {
            None
        } else {
            Some(
                PatternModel {
                    raw: v,
                    normalized: n,
                    negated: unescape_line(v).1,
                    directory_only: value.len() > 0 && value.last() == '/',
                    anchored: value.len() > 0 && value[0] == '/',
                },
            )
        }
    }
}

/// The patterns of a list of lines, in order.
pub open spec fn npmignore_patterns(ls: Seq<Seq<char>>) -> Seq<PatternModel>
    decreases ls.len(),
{
    if ls.len() == 0 {
        seq![]
    } else {
        match npmignore_line(ls.last()) {
            Some(p) => npmignore_patterns(ls.drop_last()).push(p),
            None => npmignore_patterns(ls.drop_last()),
        }
    }
}

pub open spec fn pattern_views(v: Seq<NpmignorePattern>) -> Seq<PatternModel> {
    v.map_values(|p: NpmignorePattern| p@)
}

fn parse_npmignore_line(line: &[char]) -> (out: Option<NpmignorePattern>)
    ensures
        match out {
            Some(p) => npmignore_line(line@) == Some(p@),
            None => npmignore_line(line@) is None,
        },
{
    let v = trim_end_chars(line);
    if v.len() == 0 || v[0] == '#' {
        return None;
    }
    let n = v.len();
    let (value, negated) = if n >= 2 && v[0] == '\\' && v[1] == '!' {
        let mut out: Vec<char> = vec!['!'];
        let rest = slice_chars(v.as_slice(), 2, n);
        let mut i: usize = 0;
        while i < rest.len()
            invariant
                i <= rest@.len(),
                out@ == seq!['!'] + rest@.take(i as int),
            decreases rest@.len() - i,
        {
            out.push(rest[i]);
            i += 1;
            assert(out@ =~= seq!['!'] + rest@.take(i as int));
        }
        assert(rest@.take(rest@.len() as int) =~= v@.skip(2));
        assert(starts_with(v@, seq!['\\', '!'])) by {
            assert(v@.take(2) =~= seq!['\\', '!']);
        }
        (out, false)
    } else if n >= 2 && v[0] == '\\' && v[1] == '#' {
        let mut out: Vec<char> = vec!['#'];
        let rest = slice_chars(v.as_slice(), 2, n);
        let mut i: usize = 0;
        while i < rest.len()
            invariant
                i <= rest@.len(),
                out@ == seq!['#'] + rest@.take(i as int),
            decreases rest@.len() - i,
        {
            out.push(rest[i]);
            i += 1;
            assert(out@ =~= seq!['#'] + rest@.take(i as int));
        }
        assert(rest@.take(rest@.len() as int) =~= v@.skip(2));
        assert(!starts_with(v@, seq!['\\', '!'])) by {
            if starts_with(v@, seq!['\\', '!']) {
                assert(v@.take(2)[1] == '!');
            }
        }
        assert(starts_with(v@, seq!['\\', '#'])) by {
            assert(v@.take(2) =~= seq!['\\', '#']);
        }
        (out, false)
    } else if v[0] == '!' {
        proof {
            assert(!starts_with(v@, seq!['\\', '!'])) by {
                if starts_with(v@, seq!['\\', '!']) {
                    assert(v@.take(2)[0] == '\\');
                }
            }
            assert(!starts_with(v@, seq!['\\', '#'])) by {
                if starts_with(v@, seq!['\\', '#']) {
                    assert(v@.take(2)[0] == '\\');
                }
            }
        }
        (slice_chars(v.as_slice(), 1, n), true)
    } else {
        proof {
            assert(!starts_with(v@, seq!['\\', '!'])) by {
                if starts_with(v@, seq!['\\', '!']) {
                    assert(v@.take(2)[0] == '\\' && v@.take(2)[1] == '!');
                }
            }
            assert(!starts_with(v@, seq!['\\', '#'])) by {
                if starts_with(v@, seq!['\\', '#']) {
                    assert(v@.take(2)[0] == '\\' && v@.take(2)[1] == '#');
                }
            }
        }
        let copy = slice_chars(v.as_slice(), 0, n);
        assert(copy@ =~= v@);
        (copy, false)
    };
    assert(value@ == unescape_line(v@).0);
    assert(negated == unescape_line(v@).1);
    let directory_only = value.len() > 0 && value[value.len() - 1] == '/';
    let anchored = value.len() > 0 && value[0] == '/';
    let normalized = normalize_slashes_chars(value.as_slice());
    if normalized.len() == 0 {
        return None;
    }
    Some(
        NpmignorePattern {
            raw: string_from(v.as_slice()),
            normalized: string_from(normalized.as_slice()),
            negated,
            directory_only,
            anchored,
        },
    )
}

/// The patterns of a `.npmignore` text, in order.
pub fn parse_npmignore_patterns(text: &str) -> (out: Vec<NpmignorePattern>)
    ensures
        pattern_views(out@) == npmignore_patterns(lines(text@)),
{
    let t = chars_of(text);
    let ls = lines_of(t.as_slice());
    let ghost all = lines(text@);
    let mut out: Vec<NpmignorePattern> = Vec::new();
    let mut i: usize = 0;
    while i < ls.len()
        invariant
            i <= ls@.len(),
            ls@.len() == all.len(),
            forall|k: int| 0 <= k < ls@.len() ==> #[trigger] ls@[k]@ == all[k],
            pattern_views(out@) == npmignore_patterns(all.take(i as int)),
        decreases ls@.len() - i,
    {
        proof {
            assert(all.take(i + 1).drop_last() =~= all.take(i as int));
            assert(all.take(i + 1).last() == all[i as int]);
        }
        match parse_npmignore_line(ls[i].as_slice()) {
            Some(p) => {
                let ghost before = out@;
                out.push(p);
                assert(pattern_views(out@) =~= pattern_views(before).push(out@.last()@));
            },
            None => {},
        }
        i += 1;
    }
    assert(all.take(ls@.len() as int) =~= all);
    out
}

/// The last `/`-separated component of a path.
pub open spec fn last_component(a: Seq<char>) -> Seq<char> {
    split_char(a, '/').last()
}

/// A directory-only pattern matches a file when it matches one of the
/// directories that contain the file.
pub open spec fn directory_only_matches(pattern: Seq<char>, file_path: Seq<char>, anchored: bool) -> bool {
    if anchored {
        some_ancestor_glob(pattern, file_path)
    } else if !pattern.contains('/') {
        exists|k: int|
            0 <= k < ancestors(file_path).len() && #[trigger] segment_glob(
                pattern,
                last_component(ancestors(file_path)[k]),
            )
    } else {
        some_ancestor_glob(pattern, file_path)
    }
}

fn last_component_chars(a: &[char]) -> (out: Vec<char>)
    ensures
        out@ == last_component(a@),
{
    let parts = split_char_chars(a, '/');
    let k = parts.len() - 1;
    slice_chars(parts[k].as_slice(), 0, parts[k].len())
}

/// Whether a directory-only `.npmignore` pattern covers the path.
pub fn directory_only_pattern_matches(pattern: &str, file_path: &str, anchored: bool) -> (r: bool)
    ensures
        r == directory_only_matches(pattern@, file_path@, anchored),
{
    let p = chars_of(pattern);
    let f = chars_of(file_path);
    directory_only_pattern_matches_chars(p.as_slice(), f.as_slice(), anchored)
}

fn directory_only_pattern_matches_chars(p: &[char], f: &[char], anchored: bool) -> (r: bool)
    ensures
        r == directory_only_matches(p@, f@, anchored),
{
    if anchored || contains_char(p, '/') {
        return any_ancestor_glob(p, f);
    }
    let anc = ancestor_directory_paths_chars(f);
    let mut i: usize = 0;
    while i < anc.len()
        invariant
            i <= anc@.len(),
            !anchored,
            !p@.contains('/'),
            views(anc@) == ancestors(f@),
            forall|k: int|
                0 <= k < i ==> !segment_glob(p@, last_component(#[trigger] ancestors(f@)[k])),
        decreases anc@.len() - i,
    {
        assert(anc@[i as int]@ == ancestors(f@)[i as int]);
        let last = last_component_chars(anc[i].as_slice());
        if segment_glob_matches_chars(p, last.as_slice()) {
            assert(segment_glob(p@, last_component(ancestors(f@)[i as int])));
            return true;
        }
        i += 1;
    }
    false
}

/// Whether an `.npmignore` pattern matches a path relative to its directory.
pub open spec fn pattern_matches(p: PatternModel, entry: Seq<char>) -> bool {
    let n = p.normalized;
    if p.directory_only {
        directory_only_matches(n, entry, p.anchored)
    } else if n == entry {
        true
    } else if !n.contains('/') {
        if p.anchored {
            path_glob(n, entry) || some_ancestor_glob(n, entry)
        } else {
            some_component_matches(entry, n)
        }
    } else if !n.contains('*') && path_has_prefix(entry, n) {
        true
    } else {
        path_glob(n, entry)
    }
}

/// Whether an `.npmignore` pattern covers the path.
pub fn pattern_matches_files_entry(pattern: &NpmignorePattern, files_entry: &str) -> (r: bool)
    ensures
        r == pattern_matches(pattern@, files_entry@),
{
    let e = chars_of(files_entry);
    pattern_matches_chars(pattern, e.as_slice())
}

fn pattern_matches_chars(pattern: &NpmignorePattern, e: &[char]) -> (r: bool)
    ensures
        r == pattern_matches(pattern@, e@),
{
    let n = chars_of(pattern.normalized.as_str());
    if pattern.directory_only {
        return directory_only_pattern_matches_chars(n.as_slice(), e, pattern.anchored);
    }
    if chars_eq(n.as_slice(), e) {
        return true;
    }
    if !contains_char(n.as_slice(), '/') {
        if pattern.anchored {
            return glob_matches_chars(n.as_slice(), e) || any_ancestor_glob(n.as_slice(), e);
        }
        return path_component_matches_chars(e, n.as_slice());
    }
    if !contains_char(n.as_slice(), '*') && path_starts_with_chars(e, n.as_slice()) {
        return true;
    }
    glob_matches_chars(n.as_slice(), e)
}

/// The pattern that finally excludes a path: the last pattern that matches
/// it, unless that one is a negation.
pub open spec fn final_ignoring(entry: Seq<char>, ps: Seq<PatternModel>) -> Option<int>
    decreases ps.len(),
{
    if ps.len() == 0 {
        None
    } else if pattern_matches(ps.last(), entry) {
        if ps.last().negated {
            None
        } else {
            Some(ps.len() - 1)
        }
    } else {
        final_ignoring(entry, ps.drop_last())
    }
}

/// The pattern that finally excludes the path: the last one that covers it, unless that one is a negation.
pub fn final_ignoring_pattern<'a>(files_entry: &str, patterns: &'a [NpmignorePattern]) -> (r: Option<&'a NpmignorePattern>)
    ensures
        match (r, final_ignoring(files_entry@, pattern_views(patterns@))) {
            (Some(p), Some(i)) => 0 <= i < patterns@.len() && *p == patterns@[i],
            (None, None) => true,
            _ => false,
        },
{
    let e = chars_of(files_entry);
    let ghost ps = pattern_views(patterns@);
    let mut ignored_by: Option<usize> = None;
    let mut i: usize = 0;
    while i < patterns.len()
        invariant
            i <= patterns@.len(),
            ps == pattern_views(patterns@),
            e@ == files_entry@,
            match ignored_by {
                Some(k) => final_ignoring(e@, ps.take(i as int)) == Some(k as int) && k < i,
                None => final_ignoring(e@, ps.take(i as int)) is None,
            },
        decreases patterns@.len() - i,
    {
        proof {
            assert(ps.take(i + 1).drop_last() =~= ps.take(i as int));
            assert(ps.take(i + 1).last() == patterns@[i as int]@);
        }
        if pattern_matches_chars(&patterns[i], e.as_slice()) {
            if patterns[i].negated {
                ignored_by = None;
            } else {
                ignored_by = Some(i);
            }
        }
        i += 1;
    }
    assert(ps.take(patterns@.len() as int) =~= ps);
    match ignored_by {
        Some(k) => Some(&patterns[k]),
        None => None,
    }
}

/// The `files` entries of `package.json`: the string entries of `files`, in order, when `files` is an array.
pub open spec fn package_files(package_json: JsonValue) -> Option<Seq<Seq<char>>> {
    match get_spec(package_json, "files"@) {
        Some(JsonValue::Array(items)) => Some(string_items(items@)),
        _ => None,
    }
}

pub fn package_files_entries(package_json: &JsonValue) -> (r: Option<Vec<String>>)
    ensures
        match r {
            Some(v) => package_files(*package_json) == Some(string_views(v@)),
            None => package_files(*package_json) is None,
        },
{
    let items = match get(package_json, "files") {
        Some(JsonValue::Array(items)) => items,
        _ => {
            return None;
        },
    };
    let mut out: Vec<String> = Vec::new();
    let mut i: usize = 0;
    assert(string_views(out@) =~= string_items(items@.take(0)));
    while i < items.len()
        invariant
            i <= items@.len(),
            string_views(out@) == string_items(items@.take(i as int)),
        decreases items@.len() - i,
    {
        assert(items@.take(i + 1).drop_last() =~= items@.take(i as int));
        assert(items@.take(i + 1).last() == items@[i as int]);
        match &items[i] {
            JsonValue::Text(t) => {
                let c = chars_of(t.as_str());
                let s = string_from(c.as_slice());
                let ghost before = string_views(out@);
                out.push(s);
                assert(string_views(out@) =~= before.push(t@));
            },
            _ => {},
        }
        i += 1;
    }
    assert(items@.take(items@.len() as int) =~= items@);
    Some(out)
}

/// The id of the finding for a `files` entry that a nested `.npmignore`
/// excludes, by the package file and the excluded path in the package.
pub fn npmignore_finding_id(package_path: &str, relative_to_package: &str) -> (out: String)
    ensures
        out@ == "npmignore-files:"@ + package_path@ + ":"@ + relative_to_package@,
{
    let mut out: Vec<char> = Vec::new();
    append_str(&mut out, "npmignore-files:");
    append_str(&mut out, package_path);
    append_str(&mut out, ":");
    append_str(&mut out, relative_to_package);
    string_from(out.as_slice())
}

/// The title of that finding.
pub fn npmignore_finding_title() -> (r: &'static str)
    ensures
        r@ == "package.json files entry is excluded by nested .npmignore"@,
{
    "package.json files entry is excluded by nested .npmignore"
}

/// The detail of that finding: the `files` entry, the pattern as written
/// and the excluded path, each in its quoted `Debug` form.
pub fn npmignore_finding_detail(files_entry: &str, pattern_raw: &str, relative_to_package: &str) -> (out:
    String)
    ensures
        out@ == "package.json files includes "@ + spec_debug_str(files_entry@)
            + ", but nested .npmignore pattern "@ + spec_debug_str(pattern_raw@) + " excludes "@
            + spec_debug_str(relative_to_package@) + "."@,
{
    let mut out: Vec<char> = Vec::new();
    append_str(&mut out, "package.json files includes ");
    let a = debug_str(files_entry);
    append_str(&mut out, a.as_str());
    append_str(&mut out, ", but nested .npmignore pattern ");
    let b = debug_str(pattern_raw);
    append_str(&mut out, b.as_str());
    append_str(&mut out, " excludes ");
    let c = debug_str(relative_to_package);
    append_str(&mut out, c.as_str());
    append_str(&mut out, ".");
    string_from(out.as_slice())
}

/// The hint of that finding.
pub fn npmignore_finding_hint() -> (r: &'static str)
    ensures
        r@
            == "Remove the nested .npmignore rule or adjust package.json files so publish intent is unambiguous."@,
{
    "Remove the nested .npmignore rule or adjust package.json files so publish intent is unambiguous."
}


// ---------------------------------------------------------------------
// Paths below a package
// ---------------------------------------------------------------------

/// The path below the base, with `/` for `\`; none when
/// it lies elsewhere.
pub open spec fn path_below(base: Seq<char>, path: Seq<char>) -> Option<Seq<char>> {
    match strip_root(path, base) {
        Some(rel) => Some(slash_text(rel)),
        None => None,
    }
}

pub fn relative_path(base: &str, path: &str) -> (r: Option<String>)
    ensures
        match r {
            Some(s) => path_below(base@, path@) == Some(s@),
            None => path_below(base@, path@) is None,
        },
{
    match strip_root_text(path, base) {
        Some(rel) => Some(path_to_slash_string(rel.as_str())),
        None => None,
    }
}


// ---------------------------------------------------------------------
// The finding of one file
// ---------------------------------------------------------------------

/// The finding of one file against a nested `.npmignore`: a file of the
/// package (not a `.npmignore` itself) lying below both the `.npmignore`'s
/// directory and the package directory is reported when the pattern that
/// finally excludes its path below the `.npmignore` exists; the finding
/// names the excluded path below the package and points at the
/// `.npmignore`.
pub open spec fn file_finding(
    package_path: Seq<char>,
    package_dir: Seq<char>,
    files_entry: Seq<char>,
    npmignore_dir: Seq<char>,
    npmignore_path: Seq<char>,
    npmignore_text: Seq<char>,
    file_path: Seq<char>,
) -> Option<(Seq<char>, Seq<char>, Seq<char>, Seq<char>, Severity, Option<Seq<char>>)> {
    if file_name(file_path) == Some(".npmignore"@) {
        None
    } else {
        match (path_below(npmignore_dir, file_path), path_below(package_dir, file_path)) {
            (Some(rn), Some(rp)) => {
                let ps = npmignore_patterns(lines(npmignore_text));
                match final_ignoring(rn, ps) {
                    Some(i) => Some(
                        (
                            "npmignore-files:"@ + package_path + ":"@ + rp,
                            "package.json files entry is excluded by nested .npmignore"@,
                            "package.json files includes "@ + spec_debug_str(files_entry)
                                + ", but nested .npmignore pattern "@ + spec_debug_str(ps[i].raw)
                                + " excludes "@ + spec_debug_str(rp) + "."@,
                            "Remove the nested .npmignore rule or adjust package.json files so publish intent is unambiguous."@,
                            Severity::Warn,
                            Some(npmignore_path),
                        ),
                    ),
                    None => None,
                }
            },
            _ => None,
        }
    }
}

/// Adds the finding of one file, unless a finding with its id was already
/// added: `seen_ids` holds the ids added so far.
pub fn collect_npmignore_findings_for_file(
    out: &mut Vec<ConfigFinding>,
    seen_ids: &mut Vec<String>,
    package_path: &str,
    package_dir: &str,
    files_entry: &str,
    npmignore_dir: &str,
    npmignore_path: &str,
    npmignore_text: &str,
    file_path: &str,
)
    ensures
        ({
            let f = file_finding(
                package_path@,
                package_dir@,
                files_entry@,
                npmignore_dir@,
                npmignore_path@,
                npmignore_text@,
                file_path@,
            );
            match f {
                Some(x) => if string_views(old(seen_ids)@).contains(x.0) {
                    config_views(final(out)@) == config_views(old(out)@) && string_views(final(seen_ids)@)
                        == string_views(old(seen_ids)@)
                } else {
                    config_views(final(out)@) == config_views(old(out)@).push(x) && string_views(
                        final(seen_ids)@,
                    ) == string_views(old(seen_ids)@).push(x.0)
                },
                None => config_views(final(out)@) == config_views(old(out)@) && string_views(
                    final(seen_ids)@,
                ) == string_views(old(seen_ids)@),
            }
        }),
{
    match file_name_of(file_path) {
        Some(n) => {
            if chars_eq(chars_of(n.as_str()).as_slice(), chars_of(".npmignore").as_slice()) {
                return;
            }
        },
        None => {},
    }
    let rel_npm = match relative_path(npmignore_dir, file_path) {
        Some(r) => r,
        None => {
            return;
        },
    };
    let rel_pkg = match relative_path(package_dir, file_path) {
        Some(r) => r,
        None => {
            return;
        },
    };
    let patterns = parse_npmignore_patterns(npmignore_text);
    let pattern = match final_ignoring_pattern(rel_npm.as_str(), patterns.as_slice()) {
        Some(p) => p,
        None => {
            return;
        },
    };
    proof {
        let ps = npmignore_patterns(lines(npmignore_text@));
        let i = final_ignoring(rel_npm@, ps).unwrap();
        assert(ps[i] == pattern_views(patterns@)[i]);
    }
    let id = npmignore_finding_id(package_path, rel_pkg.as_str());
    let ghost found = file_finding(
        package_path@,
        package_dir@,
        files_entry@,
        npmignore_dir@,
        npmignore_path@,
        npmignore_text@,
        file_path@,
    );
    assert(found is Some && found.unwrap().0 == id@);
    let mut k: usize = 0;
    while k < seen_ids.len()
        invariant
            k <= seen_ids@.len(),
            seen_ids@ == old(seen_ids)@,
            out@ == old(out)@,
            found == file_finding(
                package_path@,
                package_dir@,
                files_entry@,
                npmignore_dir@,
                npmignore_path@,
                npmignore_text@,
                file_path@,
            ),
            found is Some && found.unwrap().0 == id@,
            forall|j: int| 0 <= j < k ==> #[trigger] seen_ids@[j]@ != id@,
        decreases seen_ids@.len() - k,
    {
        if chars_eq(chars_of(seen_ids[k].as_str()).as_slice(), chars_of(id.as_str()).as_slice()) {
            proof {
                assert(string_views(seen_ids@)[k as int] == id@);
            }
            return;
        }
        k += 1;
    }
    proof {
        if string_views(seen_ids@).contains(id@) {
            let j = choose|j: int| 0 <= j < string_views(seen_ids@).len() && string_views(seen_ids@)[j] == id@;
            assert(seen_ids@[j]@ == id@);
        }
    }
    let f = ConfigFinding {
        id: string_from(chars_of(id.as_str()).as_slice()),
        title: string_from(chars_of(npmignore_finding_title()).as_slice()),
        detail: npmignore_finding_detail(files_entry, pattern.raw.as_str(), rel_pkg.as_str()),
        hint: string_from(chars_of(npmignore_finding_hint()).as_slice()),
        severity: Severity::Warn,
        file: Some(string_from(chars_of(npmignore_path).as_slice())),
    };
    let ghost ob = out@;
    let ghost sb = seen_ids@;
    out.push(f);
    seen_ids.push(id);
    assert(config_views(out@) =~= config_views(ob).push(config_view(f)));
    assert(string_views(seen_ids@) =~= string_views(sb).push(id@));
}

} // verus!
