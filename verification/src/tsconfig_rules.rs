//! Rules of the tsconfig check that need no file system: glob matching of
//! `include`/`exclude` patterns, overlap and shadowing of `paths` aliases,
//! the shape of `compilerOptions.types` and `typeRoots`, deprecated
//! compiler options, and a few pattern classifications.
use vstd::prelude::*;
use vstd::utf8::encode_utf8;
use crate::glob::{glob_segments_match, path_segments, path_segments_of, segs_match, views};
use crate::json::{get, get_spec, has_key_spec, has_object_key, JsonValue};
use crate::paths::{path_to_slash_string, slash_text, file_name, file_name_of, file_stem, file_stem_of, has_extension, has_extension_of};
use crate::text::{
    append_chars, append_str, chars_eq, chars_eq_str, chars_of, contains_char, ends_with,
    ends_with_chars, ends_with_str, first_index, index_of_from, replace_char, replace_char_chars,
    slice_chars, split_char, split_char_chars, starts_with, starts_with_chars, starts_with_str,
    string_from, string_views, trim, trim_chars, trim_end_char, trim_end_char_chars,
};

verus! {

// ---------------------------------------------------------------------
// Pattern matching
// ---------------------------------------------------------------------

/// Whether a candidate path matches a tsconfig pattern: the pattern and the
/// candidate are split at every `/`; a `**` segment stands for any number
/// of whole segments, and within a segment `*` stands for any run of
/// characters and `?` for one character.
pub open spec fn ts_pattern_match(candidate: Seq<char>, pattern: Seq<char>) -> bool {
    segs_match(split_char(pattern, '/'), split_char(candidate, '/'))
}

pub fn tsconfig_pattern_matches_chars(candidate: &[char], pattern: &[char]) -> (r: bool)
    ensures
        r == ts_pattern_match(candidate@, pattern@),
{
    let ps = split_char_chars(pattern, '/');
    let xs = split_char_chars(candidate, '/');
    assert(views(ps@) =~= split_char(pattern@, '/'));
    assert(views(xs@) =~= split_char(candidate@, '/'));
    glob_segments_match(&ps, &xs)
}

/// Whether a candidate path matches a tsconfig pattern.
pub fn tsconfig_pattern_matches(candidate: &str, pattern: &str) -> (r: bool)
    ensures
        r == ts_pattern_match(candidate@, pattern@),
{
    let c = chars_of(candidate);
    let p = chars_of(pattern);
    tsconfig_pattern_matches_chars(c.as_slice(), p.as_slice())
}

/// Some pattern matches the path with `/` for `\`.
pub open spec fn ts_path_matches_some(path: Seq<char>, patterns: Seq<Seq<char>>) -> bool {
    exists|i: int| 0 <= i < patterns.len() && ts_pattern_match(slash_text(path), #[trigger] patterns[i])
}

pub fn matches_path(candidate_path: &str, patterns: &[String]) -> (r: bool)
    ensures
        r == ts_path_matches_some(candidate_path@, string_views(patterns@)),
{
    let normalized = path_to_slash_string(candidate_path);
    let mut i: usize = 0;
    while i < patterns.len()
        invariant
            i <= patterns@.len(),
            normalized@ == slash_text(candidate_path@),
            forall|k: int| 0 <= k < i ==> !ts_pattern_match(normalized@, #[trigger] string_views(patterns@)[k]),
        decreases patterns@.len() - i,
    {
        if tsconfig_pattern_matches(normalized.as_str(), patterns[i].as_str()) {
            assert(ts_pattern_match(normalized@, string_views(patterns@)[i as int]));
            return true;
        }
        i += 1;
    }
    false
}

/// Whether a pattern has `*` or `?`.
pub fn pattern_contains_wildcard(pattern: &str) -> (r: bool)
    ensures
        r == (pattern@.contains('*') || pattern@.contains('?')),
{
    let p = chars_of(pattern);
    contains_char(p.as_slice(), '*') || contains_char(p.as_slice(), '?')
}

/// The part of the target after its last `*`
/// names a file with an extension.
pub open spec fn explicit_ext(target: Seq<char>) -> bool {
    has_extension(split_char(target, '*').last())
}

pub fn has_explicit_extension(target: &str) -> (r: bool)
    ensures
        r == explicit_ext(target@),
{
    let t = chars_of(target);
    let pieces = split_char_chars(t.as_slice(), '*');
    proof {
        crate::text::lemma_split_char_len(t@, '*');
    }
    let tail = string_from(pieces[pieces.len() - 1].as_slice());
    has_extension_of(tail.as_str())
}

/// Whether a pattern is the include Next.js adds for its generated `.next/types`.
pub fn is_next_generated_types_pattern(pattern: &str) -> (r: bool)
    ensures
        r == (pattern@ == ".next/types/**/*.ts"@ || pattern@ == "./.next/types/**/*.ts"@),
{
    let p = chars_of(pattern);
    chars_eq_str(p.as_slice(), ".next/types/**/*.ts") || chars_eq_str(
        p.as_slice(),
        "./.next/types/**/*.ts",
    )
}

/// The pattern trimmed, with `/` for `\`, one leading `./` removed and
/// trailing slashes dropped.
pub open spec fn excluded_dir_form(pattern: Seq<char>) -> Seq<char> {
    let n = replace_char(trim(pattern), '\\', '/');
    let stripped = if starts_with(n, "./"@) {
        n.skip(2)
    } else {
        n
    };
    trim_end_char(stripped, '/')
}

/// Whether a pattern names a directory that TypeScript excludes by default (`node_modules`, `bower_components`, `jspm_packages`).
pub open spec fn default_excluded_dir(pattern: Seq<char>) -> bool {
    let f = excluded_dir_form(pattern);
    f == "node_modules"@ || f == "bower_components"@ || f == "jspm_packages"@
}

pub fn is_default_excluded_directory_pattern(pattern: &str) -> (r: bool)
    ensures
        r == default_excluded_dir(pattern@),
{
    proof {
        reveal_strlit("./");
    }
    let p = chars_of(pattern);
    let t = trim_chars(p.as_slice());
    let n = replace_char_chars(t.as_slice(), '\\', '/');
    let stripped = if starts_with_str(n.as_slice(), "./") {
        slice_chars(n.as_slice(), 2, n.len())
    } else {
        slice_chars(n.as_slice(), 0, n.len())
    };
    assert(stripped@ =~= (if starts_with(n@, "./"@) {
        n@.skip(2)
    } else {
        n@
    }));
    let f = trim_end_char_chars(stripped.as_slice(), '/');
    chars_eq_str(f.as_slice(), "node_modules") || chars_eq_str(f.as_slice(), "bower_components")
        || chars_eq_str(f.as_slice(), "jspm_packages")
}

/// The hint that comes with an issue of a pattern field.
pub open spec fn pattern_field_hint_spec(field: Seq<char>) -> &'static str {
    if field == "include"@ {
        "Rewrite include as an array of string globs before relying on TypeScript input discovery."
    } else if field == "exclude"@ {
        "Rewrite exclude as an array of string globs before relying on TypeScript input filtering."
    } else if field == "files"@ {
        "Rewrite files as an array of string paths before relying on explicit TypeScript inputs."
    } else {
        "Rewrite tsconfig pattern fields as arrays of strings."
    }
}

pub fn pattern_field_hint(field_name: &str) -> (r: &'static str)
    ensures
        r == pattern_field_hint_spec(field_name@),
{
    let f = chars_of(field_name);
    if chars_eq_str(f.as_slice(), "include") {
        "Rewrite include as an array of string globs before relying on TypeScript input discovery."
    } else if chars_eq_str(f.as_slice(), "exclude") {
        "Rewrite exclude as an array of string globs before relying on TypeScript input filtering."
    } else if chars_eq_str(f.as_slice(), "files") {
        "Rewrite files as an array of string paths before relying on explicit TypeScript inputs."
    } else {
        "Rewrite tsconfig pattern fields as arrays of strings."
    }
}

/// The named dependency map of a `package.json`
/// holds the dependency.
pub open spec fn has_dependency(package_json: JsonValue, field: Seq<char>, name: Seq<char>) -> bool {
    match get_spec(package_json, field) {
        Some(deps) => deps is Object && has_key_spec(deps, name),
        None => false,
    }
}

pub fn package_has_dependency(package_json: &JsonValue, field_name: &str, dependency_name: &str) -> (r:
    bool)
    ensures
        r == has_dependency(*package_json, field_name@, dependency_name@),
{
    match get(package_json, field_name) {
        Some(deps) => match deps {
            JsonValue::Object(_) => has_object_key(deps, dependency_name),
            _ => false,
        },
        None => false,
    }
}

// ---------------------------------------------------------------------
// Alias overlap
// ---------------------------------------------------------------------

/// Whether a package depends on Next.js:
/// some dependency map of the package names `next`.
pub open spec fn depends_on_next(package_json: JsonValue) -> bool {
    ||| has_dependency(package_json, "dependencies"@, "next"@)
    ||| has_dependency(package_json, "devDependencies"@, "next"@)
    ||| has_dependency(package_json, "peerDependencies"@, "next"@)
    ||| has_dependency(package_json, "optionalDependencies"@, "next"@)
}

pub fn package_json_has_next_dependency(package_json: &JsonValue) -> (r: bool)
    ensures
        r == depends_on_next(*package_json),
{
    package_has_dependency(package_json, "dependencies", "next") || package_has_dependency(
        package_json,
        "devDependencies",
        "next",
    ) || package_has_dependency(package_json, "peerDependencies", "next")
        || package_has_dependency(package_json, "optionalDependencies", "next")
}

/// The number of occurrences of `c`.
pub open spec fn count_char(s: Seq<char>, c: char) -> nat
    decreases s.len(),
{
    if s.len() == 0 {
        0
    } else {
        count_char(s.drop_last(), c) + if s.last() == c {
            1nat
        } else {
            0nat
        }
    }
}

pub fn count_char_exec(s: &[char], c: char) -> (r: usize)
    ensures
        r == count_char(s@, c),
{
    let mut n: usize = 0;
    let mut i: usize = 0;
    while i < s.len()
        invariant
            i <= s@.len(),
            n == count_char(s@.take(i as int), c),
            n <= i,
        decreases s@.len() - i,
    {
        proof {
            assert(s@.take(i + 1).drop_last() =~= s@.take(i as int));
        }
        if s[i] == c {
            n += 1;
        }
        i += 1;
    }
    assert(s@.take(s@.len() as int) =~= s@);
    n
}

/// Every `*` replaced by `r`.
pub open spec fn replace_star(s: Seq<char>, r: Seq<char>) -> Seq<char>
    decreases s.len(),
{
    if s.len() == 0 {
        seq![]
    } else {
        replace_star(s.drop_last(), r) + if s.last() == '*' {
            r
        } else {
            seq![s.last()]
        }
    }
}

fn replace_star_exec(s: &[char], r: &str) -> (out: Vec<char>)
    ensures
        out@ == replace_star(s@, r@),
{
    let mut out: Vec<char> = Vec::new();
    let mut i: usize = 0;
    while i < s.len()
        invariant
            i <= s@.len(),
            out@ == replace_star(s@.take(i as int), r@),
        decreases s@.len() - i,
    {
        proof {
            assert(s@.take(i + 1).drop_last() =~= s@.take(i as int));
        }
        if s[i] == '*' {
            append_str(&mut out, r);
        } else {
            out.push(s[i]);
        }
        i += 1;
    }
    assert(s@.take(s@.len() as int) =~= s@);
    out
}

/// The pattern itself when it has no `*`,
/// otherwise its `*`s replaced by `shadow` and by `shadow/nested`.
pub open spec fn overlap_samples(p: Seq<char>) -> Seq<Seq<char>> {
    if !p.contains('*') {
        seq![p]
    } else {
        seq![replace_star(p, "shadow"@), replace_star(p, "shadow/nested"@)]
    }
}

pub fn wildcard_overlap_samples(pattern: &[char]) -> (out: Vec<Vec<char>>)
    ensures
        views(out@) == overlap_samples(pattern@),
{
    let mut out: Vec<Vec<char>> = Vec::new();
    if !contains_char(pattern, '*') {
        let whole = slice_chars(pattern, 0, pattern.len());
        assert(whole@ =~= pattern@);
        out.push(whole);
        assert(views(out@) =~= seq![pattern@]);
        return out;
    }
    out.push(replace_star_exec(pattern, "shadow"));
    out.push(replace_star_exec(pattern, "shadow/nested"));
    assert(views(out@) =~= overlap_samples(pattern@));
    out
}

/// The parts before and after the first `*` (the
/// whole pattern and nothing, when it has none).
pub open spec fn split_at_star(p: Seq<char>) -> (Seq<char>, Seq<char>) {
    let i = first_index(p, '*');
    if i < p.len() {
        (p.take(i), p.skip(i + 1))
    } else {
        (p, seq![])
    }
}

pub fn split_wildcard_alias(pattern: &[char]) -> (r: (Vec<char>, Vec<char>))
    ensures
        (r.0@, r.1@) == split_at_star(pattern@),
{
    let i = index_of_from(pattern, '*', 0);
    assert(pattern@.skip(0) =~= pattern@);
    let head = slice_chars(pattern, 0, i);
    let tail = if i < pattern.len() {
        slice_chars(pattern, i + 1, pattern.len())
    } else {
        Vec::new()
    };
    proof {
        if i == pattern@.len() {
            assert(head@ =~= pattern@);
        }
    }
    (head, tail)
}

/// The longer of two prefixes when one extends the other.
pub open spec fn merged_prefix(l: Seq<char>, r: Seq<char>) -> Option<Seq<char>> {
    if starts_with(l, r) {
        Some(l)
    } else if starts_with(r, l) {
        Some(r)
    } else {
        None
    }
}

/// The longer of two suffixes when one extends the other.
pub open spec fn merged_suffix(l: Seq<char>, r: Seq<char>) -> Option<Seq<char>> {
    if ends_with(l, r) {
        Some(l)
    } else if ends_with(r, l) {
        Some(r)
    } else {
        None
    }
}

pub fn merge_prefixes(left: &[char], right: &[char]) -> (r: Option<Vec<char>>)
    ensures
        match r {
            Some(v) => merged_prefix(left@, right@) == Some(v@),
            None => merged_prefix(left@, right@) is None,
        },
{
    if starts_with_chars(left, right) {
        Some(slice_chars(left, 0, left.len()))
    } else if starts_with_chars(right, left) {
        Some(slice_chars(right, 0, right.len()))
    } else {
        None
    }
}

pub fn merge_suffixes(left: &[char], right: &[char]) -> (r: Option<Vec<char>>)
    ensures
        match r {
            Some(v) => merged_suffix(left@, right@) == Some(v@),
            None => merged_suffix(left@, right@) is None,
        },
{
    if ends_with_chars(left, right) {
        Some(slice_chars(left, 0, left.len()))
    } else if ends_with_chars(right, left) {
        Some(slice_chars(right, 0, right.len()))
    } else {
        None
    }
}

/// Some candidate matches both patterns.
pub open spec fn some_common_match(cands: Seq<Seq<char>>, l: Seq<char>, r: Seq<char>) -> bool {
    exists|k: int|
        0 <= k < cands.len() && #[trigger] ts_pattern_match(cands[k], l) && ts_pattern_match(
            cands[k],
            r,
        )
}

fn some_common_match_exec(cands: &Vec<Vec<char>>, l: &[char], r: &[char]) -> (b: bool)
    ensures
        b == some_common_match(views(cands@), l@, r@),
{
    let ghost vs = views(cands@);
    let mut i: usize = 0;
    while i < cands.len()
        invariant
            i <= cands@.len(),
            vs == views(cands@),
            forall|k: int|
                0 <= k < i ==> !(#[trigger] ts_pattern_match(vs[k], l@) && ts_pattern_match(
                    vs[k],
                    r@,
                )),
        decreases cands@.len() - i,
    {
        if tsconfig_pattern_matches_chars(cands[i].as_slice(), l)
            && tsconfig_pattern_matches_chars(cands[i].as_slice(), r) {
            assert(ts_pattern_match(vs[i as int], l@));
            return true;
        }
        i += 1;
    }
    false
}

/// The probe paths made of a merged prefix, a middle part and a merged
/// suffix.
pub open spec fn probe_paths(prefix: Seq<char>, suffix: Seq<char>) -> Seq<Seq<char>> {
    seq![prefix + suffix, prefix + "shadow"@ + suffix, prefix + "shadow/nested"@ + suffix]
}

/// Two wildcard aliases overlap when a probe
/// path matches both. With one `*` each, the probes join the merged
/// prefixes and suffixes around an empty, a one-segment and a two-segment
/// middle; otherwise they are each alias's own samples.
pub open spec fn wildcard_overlap(l: Seq<char>, r: Seq<char>) -> bool {
    if count_char(l, '*') != 1 || count_char(r, '*') != 1 {
        some_common_match(overlap_samples(l) + overlap_samples(r), l, r)
    } else {
        match (
            merged_prefix(split_at_star(l).0, split_at_star(r).0),
            merged_suffix(split_at_star(l).1, split_at_star(r).1),
        ) {
            (Some(p), Some(s)) => some_common_match(probe_paths(p, s), l, r),
            _ => false,
        }
    }
}

pub fn wildcard_aliases_overlap(left: &[char], right: &[char]) -> (b: bool)
    ensures
        b == wildcard_overlap(left@, right@),
{
    if count_char_exec(left, '*') != 1 || count_char_exec(right, '*') != 1 {
        let mut cands = wildcard_overlap_samples(left);
        let more = wildcard_overlap_samples(right);
        let ghost a = views(cands@);
        let mut i: usize = 0;
        while i < more.len()
            invariant
                i <= more@.len(),
                cands@.len() == a.len() + i,
                forall|k: int| 0 <= k < a.len() ==> #[trigger] cands@[k]@ == a[k],
                forall|k: int| 0 <= k < i ==> #[trigger] cands@[a.len() + k]@ == more@[k]@,
            decreases more@.len() - i,
        {
            let item = slice_chars(more[i].as_slice(), 0, more[i].len());
            assert(item@ =~= more@[i as int]@);
            cands.push(item);
            i += 1;
        }
        assert(views(cands@) =~= a + views(more@)) by {
            assert forall|k: int| 0 <= k < cands@.len() implies views(cands@)[k] == (a + views(
                more@,
            ))[k] by {
                if k >= a.len() {
                    assert(cands@[a.len() + (k - a.len())]@ == more@[k - a.len()]@);
                }
            }
        }
        return some_common_match_exec(&cands, left, right);
    }
    let (lp, ls) = split_wildcard_alias(left);
    let (rp, rs) = split_wildcard_alias(right);
    let p = match merge_prefixes(lp.as_slice(), rp.as_slice()) {
        Some(p) => p,
        None => {
            return false;
        },
    };
    let s = match merge_suffixes(ls.as_slice(), rs.as_slice()) {
        Some(s) => s,
        None => {
            return false;
        },
    };
    let mut cands: Vec<Vec<char>> = Vec::new();
    let mut c0 = slice_chars(p.as_slice(), 0, p.len());
    append_chars(&mut c0, s.as_slice());
    let mut c1 = slice_chars(p.as_slice(), 0, p.len());
    append_str(&mut c1, "shadow");
    append_chars(&mut c1, s.as_slice());
    let mut c2 = slice_chars(p.as_slice(), 0, p.len());
    append_str(&mut c2, "shadow/nested");
    append_chars(&mut c2, s.as_slice());
    proof {
        assert(p@.subrange(0, p@.len() as int) =~= p@);
        assert(c0@ =~= p@ + s@);
        assert(c1@ =~= p@ + "shadow"@ + s@);
        assert(c2@ =~= p@ + "shadow/nested"@ + s@);
    }
    let ghost g0 = c0@;
    let ghost g1 = c1@;
    let ghost g2 = c2@;
    cands.push(c0);
    cands.push(c1);
    cands.push(c2);
    assert(views(cands@) =~= seq![g0, g1, g2]);
    assert(views(cands@) =~= probe_paths(p@, s@));
    some_common_match_exec(&cands, left, right)
}

/// Two `paths` keys can match the same import.
pub open spec fn aliases_overlap_spec(l: Seq<char>, r: Seq<char>) -> bool {
    match (l.contains('*'), r.contains('*')) {
        (false, false) => l == r,
        (false, true) => ts_pattern_match(l, r),
        (true, false) => ts_pattern_match(r, l),
        (true, true) => wildcard_overlap(l, r),
    }
}

pub fn aliases_overlap(left: &str, right: &str) -> (b: bool)
    ensures
        b == aliases_overlap_spec(left@, right@),
{
    let l = chars_of(left);
    let r = chars_of(right);
    let lw = contains_char(l.as_slice(), '*');
    let rw = contains_char(r.as_slice(), '*');
    if !lw && !rw {
        chars_eq(l.as_slice(), r.as_slice())
    } else if !lw && rw {
        tsconfig_pattern_matches_chars(l.as_slice(), r.as_slice())
    } else if lw && !rw {
        tsconfig_pattern_matches_chars(r.as_slice(), l.as_slice())
    } else {
        wildcard_aliases_overlap(l.as_slice(), r.as_slice())
    }
}

/// Whether two aliases overlap does not depend on their order.
pub proof fn lemma_aliases_overlap_symmetric(l: Seq<char>, r: Seq<char>)
    ensures
        aliases_overlap_spec(l, r) == aliases_overlap_spec(r, l),
{
    if l.contains('*') && r.contains('*') {
        if count_char(l, '*') != 1 || count_char(r, '*') != 1 {
            let a = overlap_samples(l) + overlap_samples(r);
            let b = overlap_samples(r) + overlap_samples(l);
            if some_common_match(a, l, r) {
                let k = choose|k: int| 0 <= k < a.len() && #[trigger] ts_pattern_match(a[k], l) && ts_pattern_match(a[k], r);
                if k < overlap_samples(l).len() {
                    assert(b[overlap_samples(r).len() + k] == a[k]);
                    assert(ts_pattern_match(b[overlap_samples(r).len() + k], r));
                } else {
                    assert(b[k - overlap_samples(l).len()] == a[k]);
                    assert(ts_pattern_match(b[k - overlap_samples(l).len()], r));
                }
            }
            if some_common_match(b, r, l) {
                let k = choose|k: int| 0 <= k < b.len() && #[trigger] ts_pattern_match(b[k], r) && ts_pattern_match(b[k], l);
                if k < overlap_samples(r).len() {
                    assert(a[overlap_samples(l).len() + k] == b[k]);
                    assert(ts_pattern_match(a[overlap_samples(l).len() + k], l));
                } else {
                    assert(a[k - overlap_samples(r).len()] == b[k]);
                    assert(ts_pattern_match(a[k - overlap_samples(r).len()], l));
                }
            }
        } else {
            let (lp, ls) = split_at_star(l);
            let (rp, rs) = split_at_star(r);
            if starts_with(lp, rp) && starts_with(rp, lp) {
                assert(lp =~= rp);
            }
            if ends_with(ls, rs) && ends_with(rs, ls) {
                assert(ls =~= rs);
            }
            match (merged_prefix(lp, rp), merged_suffix(ls, rs)) {
                (Some(p), Some(s)) => {
                    assert(merged_prefix(rp, lp) == Some(p));
                    assert(merged_suffix(rs, ls) == Some(s));
                    let c = probe_paths(p, s);
                    if some_common_match(c, l, r) {
                        let k = choose|k: int| 0 <= k < c.len() && #[trigger] ts_pattern_match(c[k], l) && ts_pattern_match(c[k], r);
                        assert(ts_pattern_match(c[k], r));
                    }
                    if some_common_match(c, r, l) {
                        let k = choose|k: int| 0 <= k < c.len() && #[trigger] ts_pattern_match(c[k], r) && ts_pattern_match(c[k], l);
                        assert(ts_pattern_match(c[k], l));
                    }
                },
                _ => {
                    assert(merged_prefix(rp, lp) is None || merged_suffix(rs, ls) is None);
                },
            }
        }
    }
}

/// An exact specialization of a wildcard alias always overlaps it.
pub proof fn lemma_specialization_overlaps(shadowing: Seq<char>, shadowed: Seq<char>)
    requires
        !shadowing.contains('*') && shadowed.contains('*') && ts_pattern_match(shadowing, shadowed),
    ensures
        aliases_overlap_spec(shadowing, shadowed),
{
}

/// Whether an exact alias is a special case of a wildcard alias: it has the wildcard alias's prefix and suffix.
pub fn is_exact_specialization_of_wildcard_alias(shadowing: &str, shadowed: &str) -> (b: bool)
    ensures
        b == (!shadowing@.contains('*') && shadowed@.contains('*') && ts_pattern_match(
            shadowing@,
            shadowed@,
        )),
{
    let a = chars_of(shadowing);
    let b = chars_of(shadowed);
    !contains_char(a.as_slice(), '*') && contains_char(b.as_slice(), '*')
        && tsconfig_pattern_matches_chars(a.as_slice(), b.as_slice())
}


// ---------------------------------------------------------------------
// Alias shadowing
// ---------------------------------------------------------------------

/// Whether the alias has no `*`, its non-`*`
/// characters plus its separators, and its length in bytes.
pub open spec fn specificity(a: Seq<char>) -> (int, int, int) {
    (
        if count_char(a, '*') == 0 {
            1int
        } else {
            0int
        },
        (a.len() - count_char(a, '*')) + count_char(a, '/') + count_char(a, '\\'),
        encode_utf8(a).len() as int,
    )
}

/// Lexicographic order of specificities.
pub open spec fn more_specific(x: (int, int, int), y: (int, int, int)) -> bool {
    x.0 > y.0 || (x.0 == y.0 && (x.1 > y.1 || (x.1 == y.1 && x.2 > y.2)))
}

proof fn lemma_count_le(s: Seq<char>, c: char)
    ensures
        count_char(s, c) <= s.len(),
    decreases s.len(),
{
    if s.len() > 0 {
        lemma_count_le(s.drop_last(), c);
    }
}

proof fn lemma_count_sum(s: Seq<char>)
    ensures
        count_char(s, '*') + count_char(s, '/') + count_char(s, '\\') <= s.len(),
    decreases s.len(),
{
    if s.len() > 0 {
        lemma_count_sum(s.drop_last());
    }
}

pub fn alias_specificity(alias: &str) -> (r: (usize, usize, usize))
    requires
        2 * alias@.len() <= usize::MAX,
    ensures
        (r.0 as int, r.1 as int, r.2 as int) == specificity(alias@),
{
    let a = chars_of(alias);
    let stars = count_char_exec(a.as_slice(), '*');
    let slashes = count_char_exec(a.as_slice(), '/');
    let backslashes = count_char_exec(a.as_slice(), '\\');
    proof {
        lemma_count_sum(a@);
        lemma_count_le(a@, '*');
    }
    let fixed = a.len() - stars;
    (if stars == 0 {
        1
    } else {
        0
    }, fixed + slashes + backslashes, alias.as_bytes().len())
}

fn more_specific_exec(x: (usize, usize, usize), y: (usize, usize, usize)) -> (b: bool)
    ensures
        b == more_specific((x.0 as int, x.1 as int, x.2 as int), (y.0 as int, y.1 as int, y.2 as int)),
{
    x.0 > y.0 || (x.0 == y.0 && (x.1 > y.1 || (x.1 == y.1 && x.2 > y.2)))
}

/// Of two overlapping aliases, the more
/// specific one shadows the other; equally specific ones give no pair.
pub open spec fn shadowing_pair(l: Seq<char>, r: Seq<char>) -> Option<(bool, bool)> {
    if !aliases_overlap_spec(l, r) {
        None
    } else if more_specific(specificity(l), specificity(r)) {
        Some((true, false))
    } else if more_specific(specificity(r), specificity(l)) {
        Some((false, true))
    } else {
        None
    }
}

pub fn determine_shadowing_alias_pair<'a>(left: &'a str, right: &'a str) -> (r: Option<
    (&'a str, &'a str),
>)
    requires
        2 * left@.len() <= usize::MAX,
        2 * right@.len() <= usize::MAX,
    ensures
        r == (match shadowing_pair(left@, right@) {
            Some((true, _)) => Some((left, right)),
            Some((false, _)) => Some((right, left)),
            None => None,
        }),
{
    if !aliases_overlap(left, right) {
        return None;
    }
    let ls = alias_specificity(left);
    let rs = alias_specificity(right);
    if more_specific_exec(ls, rs) {
        return Some((left, right));
    }
    if more_specific_exec(rs, ls) {
        return Some((right, left));
    }
    None
}

/// Whether a text is a valid segment of a package name.
pub open spec fn package_name_segment(s: Seq<char>) -> bool {
    &&& s.len() > 0
    &&& forall|k: int|
        0 <= k < s.len() ==> #[trigger] crate::text::is_ascii_alnum(s[k]) || s[k] == '.' || s[k]
            == '-' || s[k] == '_'
}

pub fn is_package_name_segment_chars(s: &[char]) -> (r: bool)
    ensures
        r == package_name_segment(s@),
{
    if s.len() == 0 {
        return false;
    }
    let mut i: usize = 0;
    while i < s.len()
        invariant
            i <= s@.len(),
            forall|k: int|
                0 <= k < i ==> #[trigger] crate::text::is_ascii_alnum(s@[k]) || s@[k] == '.'
                    || s@[k] == '-' || s@[k] == '_',
        decreases s@.len() - i,
    {
        let c = s[i];
        if !(crate::text::is_ascii_alphanumeric(c) || c == '.' || c == '-' || c == '_') {
            return false;
        }
        i += 1;
    }
    true
}

pub fn is_package_name_segment(segment: &str) -> (r: bool)
    ensures
        r == package_name_segment(segment@),
{
    let s = chars_of(segment);
    is_package_name_segment_chars(s.as_slice())
}

/// Trailing `/` and `\` removed.
pub open spec fn trim_end_separators(s: Seq<char>) -> Seq<char>
    decreases s.len(),
{
    if s.len() > 0 && (s.last() == '/' || s.last() == '\\') {
        trim_end_separators(s.drop_last())
    } else {
        s
    }
}

fn trim_end_separators_exec(s: &[char]) -> (out: Vec<char>)
    ensures
        out@ == trim_end_separators(s@),
{
    let mut j: usize = s.len();
    assert(s@.take(j as int) =~= s@);
    while j > 0 && (s[j - 1] == '/' || s[j - 1] == '\\')
        invariant
            j <= s@.len(),
            trim_end_separators(s@) == trim_end_separators(s@.take(j as int)),
        decreases j,
    {
        proof {
            assert(s@.take(j as int).drop_last() =~= s@.take(j - 1));
        }
        j -= 1;
    }
    proof {
        if j > 0 {
            assert(s@.take(j as int).last() == s@[j - 1]);
        }
    }
    slice_chars(s, 0, j)
}

/// An alias that reads like a package name (or
/// `@scope/name`) rather than a relative, absolute, `#` or URL-like one.
pub open spec fn package_style_alias(alias: Seq<char>) -> bool {
    let a = trim_end_separators(trim_end_char(alias, '*'));
    if a.len() == 0 || a[0] == '#' || a[0] == '.' || a[0] == '/' || a[0] == '\\'
        || crate::vite_config::url_like_prefix(a) {
        false
    } else if a[0] == '@' {
        let segs = path_segments(a.skip(1));
        segs.len() >= 2 && package_name_segment(segs[0]) && package_name_segment(segs[1])
    } else {
        package_name_segment(split_char(a, '/')[0])
    }
}

pub fn is_package_style_alias(alias: &str) -> (r: bool)
    ensures
        r == package_style_alias(alias@),
{
    let raw = chars_of(alias);
    let t = trim_end_char_chars(raw.as_slice(), '*');
    let a = trim_end_separators_exec(t.as_slice());
    if a.len() == 0 || a[0] == '#' || a[0] == '.' || a[0] == '/' || a[0] == '\\' {
        return false;
    }
    let s = string_from(a.as_slice());
    if crate::vite_config::has_url_like_prefix(s.as_str()) {
        return false;
    }
    if a[0] == '@' {
        let rest = slice_chars(a.as_slice(), 1, a.len());
        assert(rest@ =~= a@.skip(1));
        let segs = path_segments_of(rest.as_slice());
        return segs.len() >= 2 && is_package_name_segment_chars(segs[0].as_slice())
            && is_package_name_segment_chars(segs[1].as_slice());
    }
    let parts = split_char_chars(a.as_slice(), '/');
    proof {
        reveal_with_fuel(split_char, 2);
    }
    assert(parts@.len() >= 1);
    is_package_name_segment_chars(parts[0].as_slice())
}

// ---------------------------------------------------------------------
// compilerOptions.types and typeRoots
// ---------------------------------------------------------------------

/// An entry that names a type package or root: a string that is not blank.
pub open spec fn list_entry_ok(v: JsonValue) -> bool {
    match v {
        JsonValue::Text(s) => trim(s@).len() > 0,
        _ => false,
    }
}

/// The trimmed values of the acceptable entries, in order.
pub open spec fn list_values(items: Seq<JsonValue>) -> Seq<Seq<char>>
    decreases items.len(),
{
    if items.len() == 0 {
        seq![]
    } else {
        let prev = list_values(items.drop_last());
        match items.last() {
            JsonValue::Text(s) => if trim(s@).len() > 0 {
                prev.push(trim(s@))
            } else {
                prev
            },
            _ => prev,
        }
    }
}

/// The indices of the refused entries, in order.
pub open spec fn list_invalid(items: Seq<JsonValue>) -> Seq<int>
    decreases items.len(),
{
    if items.len() == 0 {
        seq![]
    } else {
        let prev = list_invalid(items.drop_last());
        if list_entry_ok(items.last()) {
            prev
        } else {
            prev.push(items.len() - 1)
        }
    }
}

/// How a string-list compiler option reads.
pub enum StringListOption {
    /// The option is not set.
    Absent,
    /// The option is set to something other than an array.
    NotArray,
    /// The option is an array: the accepted values and the indices of the
    /// refused entries.
    Entries { values: Vec<String>, invalid: Vec<usize> },
}

/// The reading of the option `key` of a `compilerOptions` object.
pub open spec fn string_list_option(compiler_options: JsonValue, key: Seq<char>) -> Option<
    (bool, Seq<Seq<char>>, Seq<int>),
> {
    match get_spec(compiler_options, key) {
        None => None,
        Some(JsonValue::Array(items)) => Some((true, list_values(items@), list_invalid(items@))),
        Some(_) => Some((false, seq![], seq![])),
    }
}


/// The indices of a list as integers.
pub open spec fn index_views(v: Seq<usize>) -> Seq<int> {
    v.map_values(|x: usize| x as int)
}

/// `parse_types_option` and `parse_type_roots_option` read the option
/// this way; the option is usable when it is absent or has no refused
/// entry.
pub fn parse_string_list_option(compiler_options: &JsonValue, key: &str) -> (r: StringListOption)
    ensures
        match r {
            StringListOption::Absent => string_list_option(*compiler_options, key@) is None,
            StringListOption::NotArray => string_list_option(*compiler_options, key@) == Some(
                (false, Seq::<Seq<char>>::empty(), Seq::<int>::empty()),
            ),
            StringListOption::Entries { values, invalid } => string_list_option(
                *compiler_options,
                key@,
            ) == Some((true, string_views(values@), index_views(invalid@))),
        },
{
    let value = match get(compiler_options, key) {
        None => {
            return StringListOption::Absent;
        },
        Some(v) => v,
    };
    let items = match value {
        JsonValue::Array(items) => items,
        _ => {
            return StringListOption::NotArray;
        },
    };
    let mut values: Vec<String> = Vec::new();
    let mut invalid: Vec<usize> = Vec::new();
    let mut i: usize = 0;
    while i < items.len()
        invariant
            i <= items@.len(),
            string_views(values@) == list_values(items@.take(i as int)),
            index_views(invalid@) == list_invalid(items@.take(i as int)),
        decreases items@.len() - i,
    {
        proof {
            assert(items@.take(i + 1).drop_last() =~= items@.take(i as int));
            assert(items@.take(i + 1).last() == items@[i as int]);
        }
        let ghost vb = string_views(values@);
        let ghost ib = index_views(invalid@);
        match &items[i] {
            JsonValue::Text(s) => {
                let c = chars_of(s.as_str());
                let t = trim_chars(c.as_slice());
                if t.len() > 0 {
                    values.push(string_from(t.as_slice()));
                    assert(string_views(values@) =~= vb.push(t@));
                } else {
                    invalid.push(i);
                    assert(index_views(invalid@) =~= ib.push(i as int));
                }
            },
            _ => {
                invalid.push(i);
                assert(index_views(invalid@) =~= ib.push(i as int));
            },
        }
        i += 1;
    }
    assert(items@.take(items@.len() as int) =~= items@);
    StringListOption::Entries { values, invalid }
}

/// The `types` compiler option: absent, refused as a whole, or its trimmed entries with the indices of refused ones.
pub fn parse_types_option(compiler_options: &JsonValue) -> (r: StringListOption)
    ensures
        match r {
            StringListOption::Absent => string_list_option(*compiler_options, "types"@) is None,
            StringListOption::NotArray => string_list_option(*compiler_options, "types"@) == Some(
                (false, Seq::<Seq<char>>::empty(), Seq::<int>::empty()),
            ),
            StringListOption::Entries { values, invalid } => string_list_option(
                *compiler_options,
                "types"@,
            ) == Some((true, string_views(values@), index_views(invalid@))),
        },
{
    parse_string_list_option(compiler_options, "types")
}

/// The `typeRoots` compiler option: absent, refused as a whole, or its trimmed entries with the indices of refused ones.
pub fn parse_type_roots_option(compiler_options: &JsonValue) -> (r: StringListOption)
    ensures
        match r {
            StringListOption::Absent => string_list_option(*compiler_options, "typeRoots"@) is None,
            StringListOption::NotArray => string_list_option(*compiler_options, "typeRoots"@)
                == Some((false, Seq::<Seq<char>>::empty(), Seq::<int>::empty())),
            StringListOption::Entries { values, invalid } => string_list_option(
                *compiler_options,
                "typeRoots"@,
            ) == Some((true, string_views(values@), index_views(invalid@))),
        },
{
    parse_string_list_option(compiler_options, "typeRoots")
}

// ---------------------------------------------------------------------
// Deprecated compiler options
// ---------------------------------------------------------------------

/// The deprecated compiler options and the advice given for each.
pub open spec fn deprecated_table() -> Seq<(Seq<char>, Seq<char>)> {
    seq![
        ("charset"@, "Remove it. TypeScript ignores this option in modern versions."@),
        ("importsNotUsedAsValues"@, "Prefer verbatimModuleSyntax in modern TypeScript."@),
        ("keyofStringsOnly"@, "Remove it. Modern TypeScript no longer needs this compatibility flag."@),
        ("noStrictGenericChecks"@, "Remove it and rely on strict mode checks instead."@),
        ("out"@, "Use outFile if you truly need single-file emit."@),
        ("preserveValueImports"@, "Prefer verbatimModuleSyntax in modern TypeScript."@),
        ("suppressExcessPropertyErrors"@, "Remove it. This hides useful structural typing errors."@),
        ("suppressImplicitAnyIndexErrors"@, "Remove it. This suppresses important type safety signals."@),
    ]
}

/// The views of option and advice pairs.
pub open spec fn pair_views(v: Seq<(&'static str, &'static str)>) -> Seq<(Seq<char>, Seq<char>)> {
    v.map_values(|p: (&'static str, &'static str)| (p.0@, p.1@))
}

fn deprecated_compiler_options() -> (out: Vec<(&'static str, &'static str)>)
    ensures
        pair_views(out@) == deprecated_table(),
{
    let mut out: Vec<(&'static str, &'static str)> = Vec::new();
    out.push(("charset", "Remove it. TypeScript ignores this option in modern versions."));
    out.push(("importsNotUsedAsValues", "Prefer verbatimModuleSyntax in modern TypeScript."));
    out.push(
        (
            "keyofStringsOnly",
            "Remove it. Modern TypeScript no longer needs this compatibility flag.",
        ),
    );
    out.push(("noStrictGenericChecks", "Remove it and rely on strict mode checks instead."));
    out.push(("out", "Use outFile if you truly need single-file emit."));
    out.push(("preserveValueImports", "Prefer verbatimModuleSyntax in modern TypeScript."));
    out.push(
        ("suppressExcessPropertyErrors", "Remove it. This hides useful structural typing errors."),
    );
    out.push(
        (
            "suppressImplicitAnyIndexErrors",
            "Remove it. This suppresses important type safety signals.",
        ),
    );
    assert(pair_views(out@) =~= deprecated_table());
    out
}

/// The entries of the table, among the first `k`, whose option is set.
pub open spec fn present_deprecated(compiler_options: JsonValue, k: int) -> Seq<
    (Seq<char>, Seq<char>),
>
    decreases k,
{
    if k <= 0 {
        seq![]
    } else {
        let prev = present_deprecated(compiler_options, k - 1);
        if has_key_spec(compiler_options, deprecated_table()[k - 1].0) {
            prev.push(deprecated_table()[k - 1])
        } else {
            prev
        }
    }
}

/// The deprecated options that `compilerOptions` sets, in table order,
/// with their advice; each is reported.
pub fn deprecated_options_present(compiler_options: &JsonValue) -> (out: Vec<
    (&'static str, &'static str),
>)
    ensures
        pair_views(out@) == present_deprecated(*compiler_options, 8),
{
    let table = deprecated_compiler_options();
    assert(table@.len() == pair_views(table@).len());
    let mut out: Vec<(&'static str, &'static str)> = Vec::new();
    let mut i: usize = 0;
    while i < table.len()
        invariant
            i <= table@.len(),
            table@.len() == 8,
            pair_views(table@) == deprecated_table(),
            pair_views(out@) == present_deprecated(*compiler_options, i as int),
        decreases table@.len() - i,
    {
        let (name, advice) = table[i];
        assert(name@ == deprecated_table()[i as int].0);
        let ghost before = pair_views(out@);
        if has_object_key(compiler_options, name) {
            out.push((name, advice));
            assert(pair_views(out@) =~= before.push(deprecated_table()[i as int]));
        }
        i += 1;
    }
    out
}


// ---------------------------------------------------------------------
// `paths` entries
// ---------------------------------------------------------------------

/// Whether an exact alias is a special case of a wildcard alias: it has the wildcard alias's prefix and suffix.
pub open spec fn exact_specialization(shadowing: Seq<char>, shadowed: Seq<char>) -> bool {
    !shadowing.contains('*') && shadowed.contains('*') && ts_pattern_match(shadowing, shadowed)
}

/// The shadowing finding for the aliases at `i` and `j` (`i < j`), as the
/// pair (shadowing, shadowed) of indices.
pub open spec fn pair_entry(a: Seq<Seq<char>>, i: int, j: int) -> Seq<(int, int)> {
    match shadowing_pair(a[i], a[j]) {
        Some((true, _)) => if exact_specialization(a[i], a[j]) {
            seq![]
        } else {
            seq![(i, j)]
        },
        Some((false, _)) => if exact_specialization(a[j], a[i]) {
            seq![]
        } else {
            seq![(j, i)]
        },
        None => seq![],
    }
}

/// The findings of alias `i` against the aliases from `j` on.
pub open spec fn pairs_row(a: Seq<Seq<char>>, i: int, j: int) -> Seq<(int, int)>
    decreases a.len() - j,
{
    if j < 0 || j >= a.len() {
        seq![]
    } else {
        pair_entry(a, i, j) + pairs_row(a, i, j + 1)
    }
}

/// The findings of every pair of aliases from `i` on, in the order of the
/// pairs.
pub open spec fn alias_pairs(a: Seq<Seq<char>>, i: int) -> Seq<(int, int)>
    decreases a.len() - i,
{
    if i < 0 || i >= a.len() {
        seq![]
    } else {
        pairs_row(a, i, i + 1) + alias_pairs(a, i + 1)
    }
}

pub open spec fn index_pair_views(v: Seq<(usize, usize)>) -> Seq<(int, int)> {
    v.map_values(|p: (usize, usize)| (p.0 as int, p.1 as int))
}

/// The aliases of `paths` that shadow other aliases:
/// for every two keys of `paths` in order, the (shadowing, shadowed)
/// indices, unless the shadowing key is an exact specialization of the
/// shadowed wildcard.
pub fn alias_shadowing_pairs(aliases: &Vec<String>) -> (out: Vec<(usize, usize)>)
    requires
        forall|k: int| 0 <= k < aliases@.len() ==> 2 * (#[trigger] aliases@[k])@.len() <= usize::MAX,
    ensures
        index_pair_views(out@) == alias_pairs(string_views(aliases@), 0),
{
    let ghost a = string_views(aliases@);
    let n = aliases.len();
    let mut out: Vec<(usize, usize)> = Vec::new();
    let mut i: usize = 0;
    assert(index_pair_views(out@) + alias_pairs(a, 0) =~= alias_pairs(a, 0));
    while i < n
        invariant
            n == aliases@.len(),
            a == string_views(aliases@),
            i <= n,
            forall|k: int| 0 <= k < aliases@.len() ==> 2 * (#[trigger] aliases@[k])@.len() <= usize::MAX,
            alias_pairs(a, 0) == index_pair_views(out@) + alias_pairs(a, i as int),
        decreases n - i,
    {
        let mut j: usize = i + 1;
        assert(alias_pairs(a, i as int) == pairs_row(a, i as int, j as int) + alias_pairs(a, i + 1));
        while j < n
            invariant
                n == aliases@.len(),
                a == string_views(aliases@),
                i < n,
                i < j <= n,
                forall|k: int| 0 <= k < aliases@.len() ==> 2 * (#[trigger] aliases@[k])@.len() <= usize::MAX,
                alias_pairs(a, 0) == index_pair_views(out@) + pairs_row(a, i as int, j as int) + alias_pairs(a, i + 1),
            decreases n - j,
        {
            let left = aliases[i].as_str();
            let right = aliases[j].as_str();
            let ghost before = index_pair_views(out@);
            match determine_shadowing_alias_pair(left, right) {
                Some((shadowing, shadowed)) => {
                    if !is_exact_specialization_of_wildcard_alias(shadowing, shadowed) {
                        if more_specific_exec(alias_specificity(left), alias_specificity(right)) {
                            out.push((i, j));
                        } else {
                            out.push((j, i));
                        }
                    }
                },
                None => {},
            }
            proof {
                assert(index_pair_views(out@) =~= before + pair_entry(a, i as int, j as int));
                assert(pairs_row(a, i as int, j as int) == pair_entry(a, i as int, j as int) + pairs_row(a, i as int, j + 1));
                assert(before + pairs_row(a, i as int, j as int) + alias_pairs(a, i + 1) =~= index_pair_views(out@) + pairs_row(a, i as int, j + 1) + alias_pairs(a, i + 1));
            }
            j += 1;
        }
        assert(pairs_row(a, i as int, n as int) =~= Seq::<(int, int)>::empty());
        assert(index_pair_views(out@) + pairs_row(a, i as int, j as int) + alias_pairs(a, i + 1) =~= index_pair_views(out@) + alias_pairs(a, i + 1));
        i += 1;
    }
    assert(index_pair_views(out@) + alias_pairs(a, n as int) =~= index_pair_views(out@));
    out
}

/// The keys of `paths` that read like package names, in order.
pub open spec fn package_style_upto(a: Seq<Seq<char>>, k: int) -> Seq<int>
    decreases k,
{
    if k <= 0 {
        seq![]
    } else if package_style_alias(a[k - 1]) {
        package_style_upto(a, k - 1).push(k - 1)
    } else {
        package_style_upto(a, k - 1)
    }
}

pub open spec fn index_list_views(v: Seq<usize>) -> Seq<int> {
    v.map_values(|x: usize| x as int)
}

/// The aliases of `paths` that look like package names and so shadow
/// package imports.
pub fn package_style_aliases(aliases: &Vec<String>) -> (out: Vec<usize>)
    ensures
        index_list_views(out@) == package_style_upto(string_views(aliases@), aliases@.len() as int),
{
    let mut out: Vec<usize> = Vec::new();
    let mut k: usize = 0;
    while k < aliases.len()
        invariant
            k <= aliases@.len(),
            index_list_views(out@) == package_style_upto(string_views(aliases@), k as int),
        decreases aliases@.len() - k,
    {
        let ghost before = index_list_views(out@);
        if is_package_style_alias(aliases[k].as_str()) {
            out.push(k);
            assert(index_list_views(out@) =~= before.push(k as int));
        }
        k += 1;
    }
    out
}

/// How one `paths` entry reads.
pub enum PathsEntryShape {
    /// The value is not an array, or an empty one.
    NoTargets,
    /// The targets: the indices of the non-string ones, the string targets
    /// in order, and those whose `*` use differs from the alias's.
    Targets { non_string: Vec<usize>, strings: Vec<String>, wildcard_mismatch: Vec<String> },
}

/// The string targets among `items`, in order.
pub open spec fn string_items(items: Seq<JsonValue>) -> Seq<Seq<char>>
    decreases items.len(),
{
    if items.len() == 0 {
        seq![]
    } else {
        match items.last() {
            JsonValue::Text(s) => string_items(items.drop_last()).push(s@),
            _ => string_items(items.drop_last()),
        }
    }
}

/// The indices of the non-string items.
pub open spec fn non_string_items(items: Seq<JsonValue>) -> Seq<int>
    decreases items.len(),
{
    if items.len() == 0 {
        seq![]
    } else {
        match items.last() {
            JsonValue::Text(_) => non_string_items(items.drop_last()),
            _ => non_string_items(items.drop_last()).push(items.len() - 1),
        }
    }
}

/// The string targets whose `*` use differs from the alias's.
pub open spec fn wildcard_mismatches(alias: Seq<char>, targets: Seq<Seq<char>>) -> Seq<Seq<char>>
    decreases targets.len(),
{
    if targets.len() == 0 {
        seq![]
    } else if alias.contains('*') != targets.last().contains('*') {
        wildcard_mismatches(alias, targets.drop_last()).push(targets.last())
    } else {
        wildcard_mismatches(alias, targets.drop_last())
    }
}

/// The shape checks of `collect_paths_findings` for one alias (whether a
/// string target exists on disk is decided by the caller).
pub fn classify_paths_entry(alias: &str, targets: &JsonValue) -> (r: PathsEntryShape)
    ensures
        match r {
            PathsEntryShape::NoTargets => match *targets {
                JsonValue::Array(items) => items@.len() == 0,
                _ => true,
            },
            PathsEntryShape::Targets { non_string, strings, wildcard_mismatch } => match *targets {
                JsonValue::Array(items) => {
                    &&& items@.len() > 0
                    &&& index_list_views(non_string@) == non_string_items(items@)
                    &&& string_views(strings@) == string_items(items@)
                    &&& string_views(wildcard_mismatch@) == wildcard_mismatches(alias@, string_items(items@))
                },
                _ => false,
            },
        },
{
    let items = match targets {
        JsonValue::Array(items) => items,
        _ => {
            return PathsEntryShape::NoTargets;
        },
    };
    if items.len() == 0 {
        return PathsEntryShape::NoTargets;
    }
    let a = chars_of(alias);
    let alias_wild = contains_char(a.as_slice(), '*');
    let mut non_string: Vec<usize> = Vec::new();
    let mut strings: Vec<String> = Vec::new();
    let mut mismatch: Vec<String> = Vec::new();
    let mut i: usize = 0;
    while i < items.len()
        invariant
            i <= items@.len(),
            alias_wild == alias@.contains('*'),
            index_list_views(non_string@) == non_string_items(items@.take(i as int)),
            string_views(strings@) == string_items(items@.take(i as int)),
            string_views(mismatch@) == wildcard_mismatches(alias@, string_items(items@.take(i as int))),
        decreases items@.len() - i,
    {
        proof {
            assert(items@.take(i + 1).drop_last() =~= items@.take(i as int));
            assert(items@.take(i + 1).last() == items@[i as int]);
        }
        let ghost nb = index_list_views(non_string@);
        let ghost sb = string_views(strings@);
        let ghost mb = string_views(mismatch@);
        match &items[i] {
            JsonValue::Text(t) => {
                let tc = chars_of(t.as_str());
                strings.push(t.clone());
                assert(string_views(strings@) =~= sb.push(t@));
                proof {
                    assert(string_items(items@.take(i + 1)) == sb.push(t@));
                    assert(sb.push(t@).drop_last() =~= sb);
                    assert(sb.push(t@).last() == t@);
                }
                if alias_wild != contains_char(tc.as_slice(), '*') {
                    mismatch.push(t.clone());
                    assert(string_views(mismatch@) =~= mb.push(t@));
                }
            },
            _ => {
                non_string.push(i);
                assert(index_list_views(non_string@) =~= nb.push(i as int));
            },
        }
        i += 1;
    }
    assert(items@.take(items@.len() as int) =~= items@);
    PathsEntryShape::Targets { non_string, strings, wildcard_mismatch: mismatch }
}

// ---------------------------------------------------------------------
// `include`, `exclude` and `files`
// ---------------------------------------------------------------------

/// How a pattern field reads: not an array, or its string patterns and
/// the indices of the entries that are not strings.
pub enum PatternFieldValues {
    NotArray,
    Entries { values: Vec<String>, invalid: Vec<usize> },
}

/// The string patterns of a pattern field and the indices of its other
/// entries; `NotArray` when the field is not an array.
pub fn parse_effective_pattern_field(value: &JsonValue) -> (r: PatternFieldValues)
    ensures
        match r {
            PatternFieldValues::NotArray => !(*value is Array),
            PatternFieldValues::Entries { values, invalid } => match *value {
                JsonValue::Array(items) => string_views(values@) == string_items(items@)
                    && index_list_views(invalid@) == non_string_items(items@),
                _ => false,
            },
        },
{
    let items = match value {
        JsonValue::Array(items) => items,
        _ => {
            return PatternFieldValues::NotArray;
        },
    };
    let mut values: Vec<String> = Vec::new();
    let mut invalid: Vec<usize> = Vec::new();
    let mut i: usize = 0;
    while i < items.len()
        invariant
            i <= items@.len(),
            index_list_views(invalid@) == non_string_items(items@.take(i as int)),
            string_views(values@) == string_items(items@.take(i as int)),
        decreases items@.len() - i,
    {
        proof {
            assert(items@.take(i + 1).drop_last() =~= items@.take(i as int));
            assert(items@.take(i + 1).last() == items@[i as int]);
        }
        let ghost nb = index_list_views(invalid@);
        let ghost sb = string_views(values@);
        match &items[i] {
            JsonValue::Text(t) => {
                values.push(t.clone());
                assert(string_views(values@) =~= sb.push(t@));
            },
            _ => {
                invalid.push(i);
                assert(index_list_views(invalid@) =~= nb.push(i as int));
            },
        }
        i += 1;
    }
    assert(items@.take(items@.len() as int) =~= items@);
    PatternFieldValues::Entries { values, invalid }
}

// ---------------------------------------------------------------------
// Recognizing tsconfig files
// ---------------------------------------------------------------------

/// Files that are never tsconfig documents.
pub open spec fn non_tsconfig_name(n: Seq<char>) -> bool {
    n == "package.json"@ || n == "package-lock.json"@ || n == "npm-shrinkwrap.json"@
}

/// Whether a path names a file that is never a tsconfig (`package.json`, `package-lock.json`, `npm-shrinkwrap.json`).
pub open spec fn known_non_tsconfig(p: Seq<char>) -> bool {
    file_name(p) matches Some(n) && non_tsconfig_name(n)
}

pub fn is_known_non_tsconfig_file(file_path: &str) -> (r: bool)
    ensures
        r == known_non_tsconfig(file_path@),
{
    match file_name_of(file_path) {
        Some(n) => {
            let c = chars_of(n.as_str());
            chars_eq_str(c.as_slice(), "package.json") || chars_eq_str(c.as_slice(), "package-lock.json")
                || chars_eq_str(c.as_slice(), "npm-shrinkwrap.json")
        },
        None => false,
    }
}

/// `tsconfig.json` or `tsconfig.*.json`.
pub open spec fn tsconfig_file_name(p: Seq<char>) -> bool {
    file_name(p) matches Some(n) && (n == "tsconfig.json"@ || (starts_with(n, "tsconfig."@)
        && ends_with(n, ".json"@)))
}

pub fn looks_like_tsconfig_file_name(file_path: &str) -> (r: bool)
    ensures
        r == tsconfig_file_name(file_path@),
{
    match file_name_of(file_path) {
        Some(n) => {
            let c = chars_of(n.as_str());
            chars_eq_str(c.as_slice(), "tsconfig.json") || (starts_with_str(c.as_slice(), "tsconfig.")
                && ends_with_str(c.as_slice(), ".json"))
        },
        None => false,
    }
}

/// A stem `build` or one that
/// starts with `tsconfig`, unless the file is known not to be a tsconfig.
pub open spec fn explicit_tsconfig_target(p: Seq<char>) -> bool {
    !known_non_tsconfig(p) && (file_stem(p) matches Some(st) && (st == "build"@ || starts_with(
        st,
        "tsconfig"@,
    )))
}

pub fn looks_like_explicit_tsconfig_target_file(file_path: &str) -> (r: bool)
    ensures
        r == explicit_tsconfig_target(file_path@),
{
    if is_known_non_tsconfig_file(file_path) {
        return false;
    }
    match file_stem_of(file_path) {
        Some(st) => {
            let c = chars_of(st.as_str());
            chars_eq_str(c.as_slice(), "build") || starts_with_str(c.as_slice(), "tsconfig")
        },
        None => false,
    }
}

/// The top-level keys that mark a JSON object as a tsconfig document.
pub open spec fn tsconfig_marker_key(config: JsonValue) -> bool {
    ||| has_key_spec(config, "$schema"@)
    ||| has_key_spec(config, "compileOnSave"@)
    ||| has_key_spec(config, "compilerOptions"@)
    ||| has_key_spec(config, "extends"@)
    ||| has_key_spec(config, "references"@)
    ||| has_key_spec(config, "files"@)
    ||| has_key_spec(config, "include"@)
    ||| has_key_spec(config, "exclude"@)
    ||| has_key_spec(config, "watchOptions"@)
    ||| has_key_spec(config, "typeAcquisition"@)
}

/// An object with a tsconfig key, or an
/// empty object in a file named like a tsconfig; never a file known not to
/// be one.
pub open spec fn tsconfig_document(p: Seq<char>, config: JsonValue) -> bool {
    !known_non_tsconfig(p) && match config {
        JsonValue::Object(members) => if members@.len() == 0 {
            tsconfig_file_name(p) || explicit_tsconfig_target(p)
        } else {
            tsconfig_marker_key(config)
        },
        _ => false,
    }
}

pub fn looks_like_tsconfig_document(file_path: &str, config: &JsonValue) -> (r: bool)
    ensures
        r == tsconfig_document(file_path@, *config),
{
    if is_known_non_tsconfig_file(file_path) {
        return false;
    }
    match config {
        JsonValue::Object(members) => {
            if members.len() == 0 {
                looks_like_tsconfig_file_name(file_path) || looks_like_explicit_tsconfig_target_file(
                    file_path,
                )
            } else {
                has_object_key(config, "$schema") || has_object_key(config, "compileOnSave")
                    || has_object_key(config, "compilerOptions") || has_object_key(config, "extends")
                    || has_object_key(config, "references") || has_object_key(config, "files")
                    || has_object_key(config, "include") || has_object_key(config, "exclude")
                    || has_object_key(config, "watchOptions") || has_object_key(
                    config,
                    "typeAcquisition",
                )
            }
        },
        _ => false,
    }
}

/// The extensions that `include` patterns pick up: TypeScript sources and
/// declarations, and JavaScript ones too when `allowJs` is on.
pub open spec fn ts_extensions(allow_js: bool) -> Seq<&'static str> {
    if allow_js {
        seq![
            ".cjs",
            ".cts",
            ".d.cts",
            ".d.mts",
            ".d.ts",
            ".js",
            ".jsx",
            ".mjs",
            ".mts",
            ".ts",
            ".tsx",
        ]
    } else {
        seq![".cts", ".d.cts", ".d.mts", ".d.ts", ".mts", ".ts", ".tsx"]
    }
}

pub fn ts_pattern_extensions(allow_js: bool) -> (r: Vec<&'static str>)
    ensures
        r@ == ts_extensions(allow_js),
{
    let r = if allow_js {
        vec![".cjs", ".cts", ".d.cts", ".d.mts", ".d.ts", ".js", ".jsx", ".mjs", ".mts", ".ts", ".tsx"]
    } else {
        vec![".cts", ".d.cts", ".d.mts", ".d.ts", ".mts", ".ts", ".tsx"]
    };
    assert(r@ =~= ts_extensions(allow_js));
    r
}

/// The path, with `/` for `\`, ends with
/// one of the extensions.
pub open spec fn ts_candidate(path: Seq<char>, extensions: Seq<&str>) -> bool {
    exists|i: int|
        0 <= i < extensions.len() && ends_with(replace_char(path, '\\', '/'), #[trigger] extensions[i]@)
}

pub fn is_ts_pattern_candidate_file(path: &str, candidate_extensions: &[&str]) -> (r: bool)
    ensures
        r == ts_candidate(path@, candidate_extensions@),
{
    let c = chars_of(path);
    let n = replace_char_chars(c.as_slice(), '\\', '/');
    let mut i: usize = 0;
    while i < candidate_extensions.len()
        invariant
            i <= candidate_extensions@.len(),
            n@ == replace_char(path@, '\\', '/'),
            forall|k: int| 0 <= k < i ==> !ends_with(n@, #[trigger] candidate_extensions@[k]@),
        decreases candidate_extensions@.len() - i,
    {
        if ends_with_str(n.as_slice(), candidate_extensions[i]) {
            return true;
        }
        i += 1;
    }
    false
}

/// A problem with `compilerOptions.composite`, as the finding reports it.
pub struct CompositeIssue {
    pub suffix: &'static str,
    pub title: &'static str,
    pub detail: String,
    pub hint: &'static str,
}

/// `composite` is set to something other
/// than a boolean, in the referenced tsconfig itself or in one it extends.
pub fn invalid_composite_type_issue(config_path: &str, is_direct_target: bool) -> (r: CompositeIssue)
    ensures
        r.detail@ == config_path@ + " declares compilerOptions.composite, but the value is not a boolean."@,
        is_direct_target ==> r.suffix == "composite-type" && r.title
            == "Referenced project must set compilerOptions.composite to a boolean" && r.hint
            == "Set compilerOptions.composite to true or false before relying on project references.",
        !is_direct_target ==> r.suffix == "extends-composite-type" && r.title
            == "Inherited tsconfig must set compilerOptions.composite to a boolean" && r.hint
            == "Set compilerOptions.composite to true or false in extended tsconfig files before relying on inherited settings.",
{
    let mut d: Vec<char> = Vec::new();
    append_str(&mut d, config_path);
    append_str(&mut d, " declares compilerOptions.composite, but the value is not a boolean.");
    let detail = string_from(d.as_slice());
    if is_direct_target {
        CompositeIssue {
            suffix: "composite-type",
            title: "Referenced project must set compilerOptions.composite to a boolean",
            detail,
            hint: "Set compilerOptions.composite to true or false before relying on project references.",
        }
    } else {
        CompositeIssue {
            suffix: "extends-composite-type",
            title: "Inherited tsconfig must set compilerOptions.composite to a boolean",
            detail,
            hint: "Set compilerOptions.composite to true or false in extended tsconfig files before relying on inherited settings.",
        }
    }
}

} // verus!
