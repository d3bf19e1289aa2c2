//! Which files a tsconfig's `include` and `exclude` patterns take, and the
//! findings about patterns that take nothing. What the file system holds
//! at a pattern's path, and which files an `include` pattern finds, are
//! handed in.
use vstd::prelude::*;
use crate::output_paths::{
    resolved_at, resolved_path, should_skip_default_pattern_dir, skip_default_dir, PathState,
};
use crate::paths::{
    components_prefix, components_prefix_exec, path_of, path_to_slash_string, path_views,
    render_resolved, same_path, slash_text, PathBase,
};
use crate::registry::Severity;
use crate::text::{
    append_chars, append_str, chars_of, contains_char, decimal, string_from, trim, trim_chars, u64_decimal,
};
use crate::tsconfig_findings::{
    empty_include_finding, ts_view, ts_views, unused_exclude_finding, TsFinding, TsView,
};
use crate::tsconfig_rules::{
    default_excluded_dir, explicit_ext, has_explicit_extension, is_default_excluded_directory_pattern,
    is_next_generated_types_pattern, is_ts_pattern_candidate_file, ts_candidate, ts_pattern_match,
    tsconfig_pattern_matches,
};

verus! {

// ---------------------------------------------------------------------
// One pattern against one file
// ---------------------------------------------------------------------

/// Whether a pattern, taken relative to its base
/// directory, takes the candidate file. A blank pattern takes nothing. A
/// wildcard pattern is matched against the candidate's path. Otherwise
/// `state` says what the file system holds at the pattern's path: a
/// directory takes the files below it unless pattern searches skip it, a
/// file takes itself, an unreadable entry takes nothing, and a missing path
/// without an extension takes itself with each candidate extension.
pub open spec fn pattern_takes_file(
    base: (bool, Seq<Seq<char>>),
    pattern: Seq<char>,
    candidate: (bool, Seq<Seq<char>>),
    exts: Seq<&'static str>,
    excluded: Seq<(bool, Seq<Seq<char>>)>,
    state: PathState,
) -> bool {
    let c = resolved_path(candidate);
    let r = resolved_at(base, pattern);
    if trim(pattern).len() == 0 {
        false
    } else if !(pattern.contains('*') || pattern.contains('?')) {
        match state {
            PathState::Directory => !skip_default_dir(r, excluded) && components_prefix(c, r),
            PathState::File => c == resolved_path(r),
            PathState::Unreadable => false,
            PathState::Missing => !explicit_ext(pattern) && exists|i: int|
                0 <= i < exts.len() && c == #[trigger] path_of(render_resolved(r.0, r.1) + exts[i]@),
        }
    } else {
        ts_pattern_match(slash_text(render_resolved(c.0, c.1)), slash_text(render_resolved(r.0, r.1)))
    }
}

pub fn pattern_matches_file(
    base_dir: &PathBase,
    pattern: &str,
    candidate: &PathBase,
    candidate_extensions: &[&'static str],
    default_excluded_dirs: &[PathBase],
    state: PathState,
) -> (r: bool)
    ensures
        r == pattern_takes_file(
            base_dir@,
            pattern@,
            candidate@,
            candidate_extensions@,
            path_views(default_excluded_dirs@),
            state,
        ),
{
    let p = chars_of(pattern);
    let t = trim_chars(p.as_slice());
    if t.len() == 0 {
        return false;
    }
    let c = candidate.resolve();
    let r = base_dir.join(p.as_slice()).resolve();
    if !(contains_char(p.as_slice(), '*') || contains_char(p.as_slice(), '?')) {
        match state {
            PathState::Directory => {
                !should_skip_default_pattern_dir(&r, default_excluded_dirs) && components_prefix_exec(&c, &r)
            },
            PathState::File => {
                let rr = r.resolve();
                same_path(&c, &rr)
            },
            PathState::Unreadable => false,
            PathState::Missing => {
                if has_explicit_extension(pattern) {
                    return false;
                }
                let text = r.render_resolved();
                let mut i: usize = 0;
                while i < candidate_extensions.len()
                    invariant
                        i <= candidate_extensions@.len(),
                        text@ == render_resolved(r@.0, r@.1),
                        c@ == resolved_path(candidate@),
                        r@ == resolved_at(base_dir@, pattern@),
                        !explicit_ext(pattern@),
                        trim(pattern@).len() > 0,
                        !(pattern@.contains('*') || pattern@.contains('?')),
                        state is Missing,
                        forall|k: int|
                            0 <= k < i ==> c@ != #[trigger] path_of(text@ + candidate_extensions@[k]@),
                    decreases candidate_extensions@.len() - i,
                {
                    let mut joined = chars_of(text.as_str());
                    append_str(&mut joined, candidate_extensions[i]);
                    let q = PathBase::from_path(string_from(joined.as_slice()).as_str());
                    if same_path(&c, &q) {
                        assert(c@ == path_of(text@ + candidate_extensions@[i as int]@));
                        return true;
                    }
                    i += 1;
                }
                false
            },
        }
    } else {
        let cs = path_to_slash_string(c.render_resolved().as_str());
        let rs = path_to_slash_string(r.render_resolved().as_str());
        tsconfig_pattern_matches(cs.as_str(), rs.as_str())
    }
}


// ---------------------------------------------------------------------
// `exclude` patterns
// ---------------------------------------------------------------------

/// The files among the first `k` that the pattern does not take.
pub open spec fn kept_after(
    base: (bool, Seq<Seq<char>>),
    pattern: Seq<char>,
    exts: Seq<&'static str>,
    excluded: Seq<(bool, Seq<Seq<char>>)>,
    state: PathState,
    files: Seq<(bool, Seq<Seq<char>>)>,
    k: int,
) -> Seq<(bool, Seq<Seq<char>>)>
    decreases k,
{
    if k <= 0 {
        seq![]
    } else if pattern_takes_file(base, pattern, files[k - 1], exts, excluded, state) {
        kept_after(base, pattern, exts, excluded, state, files, k - 1)
    } else {
        kept_after(base, pattern, exts, excluded, state, files, k - 1).push(files[k - 1])
    }
}

/// The finding of an `exclude` pattern that removes nothing.
pub open spec fn unused_view(fp: Seq<char>, pattern: Seq<char>, count: nat, base_display: Seq<char>) -> TsView {
    (
        "tsconfig-patterns:"@ + fp + ":exclude:"@ + pattern,
        "Exclude pattern does not filter any included files"@,
        "exclude pattern \""@ + pattern + "\" removed 0 files from "@ + decimal(count)
            + " included file(s) under base dir "@ + base_display + "."@,
        "Remove or tighten exclude entries that do not change the effective TypeScript input set."@,
        Severity::Info,
        fp,
    )
}

/// The files still eligible and the findings after the first `n` exclude
/// patterns: a pattern that takes some file removes the files it takes; a
/// pattern that takes none is reported, with the count of explicit and
/// eligible files, unless it names a package directory that searches skip
/// anyway.
pub open spec fn exclude_run(
    fp: Seq<char>,
    base: (bool, Seq<Seq<char>>),
    base_display: Seq<char>,
    patterns: Seq<(Seq<char>, PathState)>,
    eligible: Seq<(bool, Seq<Seq<char>>)>,
    explicit_count: nat,
    exts: Seq<&'static str>,
    excluded: Seq<(bool, Seq<Seq<char>>)>,
    n: int,
) -> (Seq<(bool, Seq<Seq<char>>)>, Seq<TsView>)
    decreases n,
{
    if n <= 0 {
        (eligible, seq![])
    } else {
        let prev = exclude_run(fp, base, base_display, patterns, eligible, explicit_count, exts, excluded, n - 1);
        let files = prev.0;
        let p = patterns[n - 1].0;
        let st = patterns[n - 1].1;
        if forall|k: int| 0 <= k < files.len() ==> !#[trigger] pattern_takes_file(base, p, files[k], exts, excluded, st) {
            if default_excluded_dir(p) {
                prev
            } else {
                (files, prev.1.push(unused_view(fp, p, explicit_count + files.len(), base_display)))
            }
        } else {
            (kept_after(base, p, exts, excluded, st, files, files.len() as int), prev.1)
        }
    }
}

pub open spec fn pattern_views(v: Seq<(String, PathState)>) -> Seq<(Seq<char>, PathState)> {
    v.map_values(|x: (String, PathState)| (x.0@, x.1))
}

/// The `exclude` findings of a tsconfig: with
/// no included file nothing is reported; otherwise the patterns are applied
/// in order (`exclude_run`). Each pattern comes with what the file system
/// holds at its path; `eligible` are the files that `include` (or the
/// default search) found, `explicit_count` the number of `files` entries.
pub fn collect_exclude_findings(
    file_path: &str,
    exclude_base: &PathBase,
    exclude_base_display: &str,
    patterns: &Vec<(String, PathState)>,
    eligible: Vec<PathBase>,
    explicit_count: usize,
    candidate_extensions: &[&'static str],
    default_excluded_dirs: &[PathBase],
) -> (out: Vec<TsFinding>)
    requires
        explicit_count + eligible@.len() <= usize::MAX,
    ensures
        ts_views(out@) == if explicit_count == 0 && eligible@.len() == 0 {
            Seq::empty()
        } else {
            exclude_run(
                file_path@,
                exclude_base@,
                exclude_base_display@,
                pattern_views(patterns@),
                path_views(eligible@),
                explicit_count as nat,
                candidate_extensions@,
                path_views(default_excluded_dirs@),
                patterns@.len() as int,
            ).1
        },
{
    let mut out: Vec<TsFinding> = Vec::new();
    if explicit_count == 0 && eligible.len() == 0 {
        assert(ts_views(out@) =~= Seq::<TsView>::empty());
        return out;
    }
    let ghost pv = pattern_views(patterns@);
    let ghost ev0 = path_views(eligible@);
    let ghost ex = path_views(default_excluded_dirs@);
    let mut files = eligible;
    let mut i: usize = 0;
    assert(ts_views(out@) =~= Seq::<TsView>::empty());
    while i < patterns.len()
        invariant
            i <= patterns@.len(),
            pv == pattern_views(patterns@),
            ex == path_views(default_excluded_dirs@),
            explicit_count + files@.len() <= usize::MAX,
            (path_views(files@), ts_views(out@)) == exclude_run(
                file_path@,
                exclude_base@,
                exclude_base_display@,
                pv,
                ev0,
                explicit_count as nat,
                candidate_extensions@,
                ex,
                i as int,
            ),
        decreases patterns@.len() - i,
    {
        let p = &patterns[i].0;
        let st = patterns[i].1;
        assert(pv[i as int] == (p@, st));
        let ghost fv = path_views(files@);
        let mut kept: Vec<PathBase> = Vec::new();
        let mut taken = false;
        let mut j: usize = 0;
        while j < files.len()
            invariant
                j <= files@.len(),
                fv == path_views(files@),
                ex == path_views(default_excluded_dirs@),
                path_views(kept@) == kept_after(exclude_base@, p@, candidate_extensions@, ex, st, fv, j as int),
                kept@.len() <= j,
                taken == exists|k: int|
                    0 <= k < j && #[trigger] pattern_takes_file(exclude_base@, p@, fv[k], candidate_extensions@, ex, st),
            decreases files@.len() - j,
        {
            assert(fv[j as int] == files@[j as int]@);
            if pattern_matches_file(exclude_base, p.as_str(), &files[j], candidate_extensions, default_excluded_dirs, st) {
                taken = true;
            } else {
                let ghost before = kept@;
                kept.push(files[j].copy());
                assert(path_views(kept@) =~= path_views(before).push(fv[j as int]));
            }
            j += 1;
        }
        if !taken {
            assert forall|k: int| 0 <= k < fv.len() implies !#[trigger] pattern_takes_file(
                exclude_base@,
                p@,
                fv[k],
                candidate_extensions@,
                ex,
                st,
            ) by {}
            if !is_default_excluded_directory_pattern(p.as_str()) {
                let count = explicit_count + files.len();
                let f = unused_exclude_finding(file_path, p.as_str(), count as u64, exclude_base_display);
                assert(ts_view(f) == unused_view(file_path@, p@, explicit_count as nat + fv.len(), exclude_base_display@));
                let ghost before = out@;
                out.push(f);
                assert(ts_views(out@) =~= ts_views(before).push(ts_view(f)));
            }
        } else {
            files = kept;
        }
        i += 1;
    }
    out
}

// ---------------------------------------------------------------------
// `include` patterns
// ---------------------------------------------------------------------

/// Next.js' generated types, which exist only once it has run.
pub open spec fn next_generated_pattern(p: Seq<char>) -> bool {
    p == ".next/types/**/*.ts"@ || p == "./.next/types/**/*.ts"@
}

/// The finding of an `include` pattern that found no file; a pattern for
/// Next.js' generated types in a package that depends on Next.js is only
/// information.
pub open spec fn empty_include_view(fp: Seq<char>, pattern: Seq<char>, base_display: Seq<char>, next_generated: bool) -> TsView {
    (
        "tsconfig-patterns:"@ + fp + ":include:"@ + pattern,
        "Include pattern does not match any files"@,
        "include pattern \""@ + pattern + "\" matched 0 files under base dir "@ + base_display + "."@,
        if next_generated {
            "Next.js generates .next/types during development or build, so this include can be empty before .next exists."@
        } else {
            "Fix or remove empty include patterns before TypeScript silently skips expected inputs."@
        },
        if next_generated {
            Severity::Info
        } else {
            Severity::Warn
        },
        fp,
    )
}

/// The findings of the first `n` include patterns, each given with the
/// number of files it found.
pub open spec fn include_findings(
    fp: Seq<char>,
    base_display: Seq<char>,
    patterns: Seq<(Seq<char>, usize)>,
    has_next_dependency: bool,
    n: int,
) -> Seq<TsView>
    decreases n,
{
    if n <= 0 {
        seq![]
    } else {
        include_findings(fp, base_display, patterns, has_next_dependency, n - 1) + if patterns[n - 1].1 == 0 {
            seq![
                empty_include_view(
                    fp,
                    patterns[n - 1].0,
                    base_display,
                    has_next_dependency && next_generated_pattern(patterns[n - 1].0),
                ),
            ]
        } else {
            seq![]
        }
    }
}

pub open spec fn count_views(v: Seq<(String, usize)>) -> Seq<(Seq<char>, usize)> {
    v.map_values(|x: (String, usize)| (x.0@, x.1))
}

/// How many of the first `n` candidate files a pattern takes.
pub open spec fn matches_upto(
    base: (bool, Seq<Seq<char>>),
    pattern: Seq<char>,
    candidates: Seq<(bool, Seq<Seq<char>>)>,
    exts: Seq<&'static str>,
    excluded: Seq<(bool, Seq<Seq<char>>)>,
    state: PathState,
    n: int,
) -> nat
    decreases n,
{
    if n <= 0 {
        0
    } else {
        matches_upto(base, pattern, candidates, exts, excluded, state, n - 1) + if pattern_takes_file(
            base,
            pattern,
            candidates[n - 1],
            exts,
            excluded,
            state,
        ) {
            1nat
        } else {
            0nat
        }
    }
}

/// The number of files an `include` pattern finds among the candidate
/// files of the project (each listed once): those it takes.
pub fn count_pattern_matches(
    base_dir: &PathBase,
    pattern: &str,
    candidates: &Vec<PathBase>,
    candidate_extensions: &[&'static str],
    default_excluded_dirs: &[PathBase],
    state: PathState,
) -> (r: usize)
    ensures
        r == matches_upto(
            base_dir@,
            pattern@,
            path_views(candidates@),
            candidate_extensions@,
            path_views(default_excluded_dirs@),
            state,
            candidates@.len() as int,
        ),
{
    let ghost cv = path_views(candidates@);
    let mut count: usize = 0;
    let mut i: usize = 0;
    while i < candidates.len()
        invariant
            i <= candidates@.len(),
            cv == path_views(candidates@),
            count == matches_upto(
                base_dir@,
                pattern@,
                cv,
                candidate_extensions@,
                path_views(default_excluded_dirs@),
                state,
                i as int,
            ),
            count <= i,
        decreases candidates@.len() - i,
    {
        assert(cv[i as int] == candidates@[i as int]@);
        if pattern_matches_file(base_dir, pattern, &candidates[i], candidate_extensions, default_excluded_dirs, state) {
            count += 1;
        }
        i += 1;
    }
    count
}

/// Each `include` pattern (with what the file system holds at its path)
/// and the number of candidate files it finds.
pub fn include_pattern_counts(
    base_dir: &PathBase,
    patterns: &Vec<(String, PathState)>,
    candidates: &Vec<PathBase>,
    candidate_extensions: &[&'static str],
    default_excluded_dirs: &[PathBase],
) -> (out: Vec<(String, usize)>)
    ensures
        out@.len() == patterns@.len(),
        forall|k: int|
            0 <= k < patterns@.len() ==> (#[trigger] out@[k]).0@ == patterns@[k].0@ && out@[k].1
                == matches_upto(
                base_dir@,
                patterns@[k].0@,
                path_views(candidates@),
                candidate_extensions@,
                path_views(default_excluded_dirs@),
                patterns@[k].1,
                candidates@.len() as int,
            ),
{
    let mut out: Vec<(String, usize)> = Vec::new();
    let mut i: usize = 0;
    while i < patterns.len()
        invariant
            i <= patterns@.len(),
            out@.len() == i,
            forall|k: int|
                0 <= k < i ==> (#[trigger] out@[k]).0@ == patterns@[k].0@ && out@[k].1 == matches_upto(
                    base_dir@,
                    patterns@[k].0@,
                    path_views(candidates@),
                    candidate_extensions@,
                    path_views(default_excluded_dirs@),
                    patterns@[k].1,
                    candidates@.len() as int,
                ),
        decreases patterns@.len() - i,
    {
        let p = &patterns[i].0;
        let n = count_pattern_matches(base_dir, p.as_str(), candidates, candidate_extensions, default_excluded_dirs, patterns[i].1);
        out.push((string_from(chars_of(p.as_str()).as_slice()), n));
        i += 1;
    }
    out
}

/// The `include` findings of a tsconfig: a
/// finding for each pattern that found no file.
pub fn collect_empty_include_findings(
    file_path: &str,
    include_base_display: &str,
    patterns: &Vec<(String, usize)>,
    has_next_dependency: bool,
) -> (out: Vec<TsFinding>)
    ensures
        ts_views(out@) == include_findings(
            file_path@,
            include_base_display@,
            count_views(patterns@),
            has_next_dependency,
            patterns@.len() as int,
        ),
{
    let ghost cv = count_views(patterns@);
    let mut out: Vec<TsFinding> = Vec::new();
    let mut i: usize = 0;
    assert(ts_views(out@) =~= Seq::<TsView>::empty());
    while i < patterns.len()
        invariant
            i <= patterns@.len(),
            cv == count_views(patterns@),
            ts_views(out@) == include_findings(file_path@, include_base_display@, cv, has_next_dependency, i as int),
        decreases patterns@.len() - i,
    {
        let (p, count) = &patterns[i];
        assert(cv[i as int] == (p@, *count));
        let ghost before = ts_views(out@);
        if *count == 0 {
            let next = has_next_dependency && is_next_generated_types_pattern(p.as_str());
            let f = empty_include_finding(file_path, p.as_str(), include_base_display, next);
            assert(ts_view(f) == empty_include_view(file_path@, p@, include_base_display@, next));
            out.push(f);
            assert(ts_views(out@) =~= before + seq![ts_view(f)]);
        } else {
            assert(before + Seq::<TsView>::empty() =~= before);
        }
        i += 1;
    }
    out
}


// ---------------------------------------------------------------------
// `files` entries
// ---------------------------------------------------------------------

/// What the file system holds at the path a `files` entry names.
pub enum FilesEntryState {
    /// Nothing is there.
    Missing,
    Directory,
    File,
    /// Something that is neither a file nor a directory.
    Other,
    /// Reading its metadata was refused, with this message.
    Denied(String),
}

/// What can be wrong with a `files` entry.
#[derive(PartialEq, Eq, Structural, Clone, Copy, Debug)]
pub enum FilesProblem {
    Wildcard,
    Unreadable,
    Directory,
    Unsupported,
    Missing,
}

/// The files that the entry's path with each extension names, among the
/// first `n` extensions, for those that `found` says exist as files.
pub open spec fn ext_files(
    r: (bool, Seq<Seq<char>>),
    exts: Seq<&'static str>,
    found: Seq<bool>,
    n: int,
) -> Seq<(bool, Seq<Seq<char>>)>
    decreases n,
{
    if n <= 0 {
        seq![]
    } else {
        ext_files(r, exts, found, n - 1) + if n - 1 < found.len() && found[n - 1] {
            seq![resolved_path(path_of(render_resolved(r.0, r.1) + exts[n - 1]@))]
        } else {
            seq![]
        }
    }
}

/// One entry of `collect_explicit_tsconfig_files`: the files it adds and
/// its problem. A blank entry is skipped; a wildcard is refused; otherwise
/// the path, taken relative to the base directory, must be a readable file
/// with a candidate extension, or, when it is missing and has no extension,
/// exist with one of the candidate extensions (`found` says which do).
pub open spec fn files_entry(
    base: (bool, Seq<Seq<char>>),
    file: Seq<char>,
    exts: Seq<&'static str>,
    state: FilesEntryState,
    found: Seq<bool>,
) -> (Seq<(bool, Seq<Seq<char>>)>, Option<FilesProblem>) {
    let r = resolved_at(base, file);
    if trim(file).len() == 0 {
        (seq![], None)
    } else if file.contains('*') || file.contains('?') {
        (seq![], Some(FilesProblem::Wildcard))
    } else {
        match state {
            FilesEntryState::Denied(_) => (seq![], Some(FilesProblem::Unreadable)),
            FilesEntryState::Directory => (seq![], Some(FilesProblem::Directory)),
            FilesEntryState::File => if ts_candidate(render_resolved(r.0, r.1), exts) {
                (seq![r], None)
            } else {
                (seq![], Some(FilesProblem::Unsupported))
            },
            FilesEntryState::Other => (seq![], Some(FilesProblem::Unsupported)),
            FilesEntryState::Missing => if explicit_ext(file) {
                (seq![], Some(FilesProblem::Missing))
            } else if ext_files(r, exts, found, exts.len() as int).len() == 0 {
                (seq![], Some(FilesProblem::Missing))
            } else {
                (ext_files(r, exts, found, exts.len() as int), None)
            },
        }
    }
}

/// A problem of a `files` entry, as (suffix, title, detail).
pub struct FilesIssue {
    pub suffix: String,
    pub title: &'static str,
    pub detail: String,
}

pub open spec fn files_issue_view(f: FilesIssue) -> (Seq<char>, Seq<char>, Seq<char>) {
    (f.suffix@, f.title@, f.detail@)
}

/// The issue of entry `index` of `files` in the config at `config_path`;
/// `message` is the error met when reading was refused.
pub open spec fn files_problem_view(
    config_path: Seq<char>,
    index: nat,
    file: Seq<char>,
    problem: FilesProblem,
    message: Seq<char>,
) -> (Seq<char>, Seq<char>, Seq<char>) {
    let at = config_path + " declares files["@ + decimal(index) + "] as "@ + file + ", but "@;
    let suffix = "entry-"@ + decimal(index);
    match problem {
        FilesProblem::Wildcard => (
            suffix + "-wildcard"@,
            "\"files\" entries must point to explicit files"@,
            at + "TypeScript files entries cannot use glob wildcards."@,
        ),
        FilesProblem::Unreadable => (
            suffix + "-unreadable"@,
            "\"files\" entries must point to readable files"@,
            at + "reading that path failed: "@ + message + "."@,
        ),
        FilesProblem::Directory => (
            suffix + "-directory"@,
            "\"files\" entries must point to files"@,
            at + "that path resolves to a directory."@,
        ),
        FilesProblem::Unsupported => (
            suffix + "-unsupported"@,
            "\"files\" entries must point to supported TypeScript input files"@,
            at + "that file is not a supported TypeScript input."@,
        ),
        FilesProblem::Missing => (
            suffix + "-missing"@,
            "\"files\" entries must point to existing files"@,
            at + "that path does not resolve to an existing file."@,
        ),
    }
}

pub open spec fn denied_message(state: FilesEntryState) -> Seq<char> {
    match state {
        FilesEntryState::Denied(m) => m@,
        _ => seq![],
    }
}

fn files_issue(config_path: &str, index: usize, file: &str, problem: FilesProblem, message: &str) -> (r: FilesIssue)
    ensures
        files_issue_view(r) == files_problem_view(config_path@, index as nat, file@, problem, message@),
{
    let n = u64_decimal(index as u64);
    let mut suffix: Vec<char> = Vec::new();
    append_str(&mut suffix, "entry-");
    append_chars(&mut suffix, n.as_slice());
    let mut at: Vec<char> = Vec::new();
    append_str(&mut at, config_path);
    append_str(&mut at, " declares files[");
    append_chars(&mut at, n.as_slice());
    append_str(&mut at, "] as ");
    append_str(&mut at, file);
    append_str(&mut at, ", but ");
    let title = match problem {
        FilesProblem::Wildcard => {
            append_str(&mut suffix, "-wildcard");
            append_str(&mut at, "TypeScript files entries cannot use glob wildcards.");
            "\"files\" entries must point to explicit files"
        },
        FilesProblem::Unreadable => {
            append_str(&mut suffix, "-unreadable");
            append_str(&mut at, "reading that path failed: ");
            append_str(&mut at, message);
            append_str(&mut at, ".");
            "\"files\" entries must point to readable files"
        },
        FilesProblem::Directory => {
            append_str(&mut suffix, "-directory");
            append_str(&mut at, "that path resolves to a directory.");
            "\"files\" entries must point to files"
        },
        FilesProblem::Unsupported => {
            append_str(&mut suffix, "-unsupported");
            append_str(&mut at, "that file is not a supported TypeScript input.");
            "\"files\" entries must point to supported TypeScript input files"
        },
        FilesProblem::Missing => {
            append_str(&mut suffix, "-missing");
            append_str(&mut at, "that path does not resolve to an existing file.");
            "\"files\" entries must point to existing files"
        },
    };
    FilesIssue { suffix: string_from(suffix.as_slice()), title, detail: string_from(at.as_slice()) }
}

/// One entry of `collect_explicit_tsconfig_files`: the files it adds and
/// its issue. `state` is what the file system holds at the entry's path
/// and `found` whether the path with each candidate extension exists as a
/// file.
pub fn explicit_files_entry(
    base_dir: &PathBase,
    config_path: &str,
    index: usize,
    file: &str,
    candidate_extensions: &[&'static str],
    state: &FilesEntryState,
    found: &[bool],
) -> (r: (Vec<PathBase>, Option<FilesIssue>))
    ensures
        path_views(r.0@) == files_entry(base_dir@, file@, candidate_extensions@, *state, found@).0,
        match r.1 {
            Some(i) => files_entry(base_dir@, file@, candidate_extensions@, *state, found@).1 matches Some(
                p,
            ) && files_issue_view(i) == files_problem_view(config_path@, index as nat, file@, p, denied_message(*state)),
            None => files_entry(base_dir@, file@, candidate_extensions@, *state, found@).1 is None,
        },
{
    let none: Vec<PathBase> = Vec::new();
    assert(path_views(none@) =~= Seq::<(bool, Seq<Seq<char>>)>::empty());
    let fc = chars_of(file);
    if trim_chars(fc.as_slice()).len() == 0 {
        return (none, None);
    }
    if contains_char(fc.as_slice(), '*') || contains_char(fc.as_slice(), '?') {
        return (none, Some(files_issue(config_path, index, file, FilesProblem::Wildcard, "")));
    }
    let r = base_dir.join(fc.as_slice()).resolve();
    match state {
        FilesEntryState::Denied(m) => (none, Some(files_issue(config_path, index, file, FilesProblem::Unreadable, m.as_str()))),
        FilesEntryState::Directory => (none, Some(files_issue(config_path, index, file, FilesProblem::Directory, ""))),
        FilesEntryState::Other => (none, Some(files_issue(config_path, index, file, FilesProblem::Unsupported, ""))),
        FilesEntryState::File => {
            let text = r.render_resolved();
            if is_ts_pattern_candidate_file(text.as_str(), candidate_extensions) {
                let v = vec![r];
                assert(path_views(v@) =~= seq![v@[0]@]);
                (v, None)
            } else {
                (none, Some(files_issue(config_path, index, file, FilesProblem::Unsupported, "")))
            }
        },
        FilesEntryState::Missing => {
            if has_explicit_extension(file) {
                return (none, Some(files_issue(config_path, index, file, FilesProblem::Missing, "")));
            }
            let text = r.render_resolved();
            let mut out: Vec<PathBase> = Vec::new();
            let mut i: usize = 0;
            assert(path_views(out@) =~= Seq::<(bool, Seq<Seq<char>>)>::empty());
            while i < candidate_extensions.len()
                invariant
                    i <= candidate_extensions@.len(),
                    text@ == render_resolved(r@.0, r@.1),
                    path_views(out@) == ext_files(r@, candidate_extensions@, found@, i as int),
                decreases candidate_extensions@.len() - i,
            {
                let ghost before = path_views(out@);
                if i < found.len() && found[i] {
                    let mut joined = chars_of(text.as_str());
                    append_str(&mut joined, candidate_extensions[i]);
                    let q = PathBase::from_path(string_from(joined.as_slice()).as_str()).resolve();
                    out.push(q);
                    assert(path_views(out@) =~= before + seq![q@]);
                } else {
                    assert(before + Seq::<(bool, Seq<Seq<char>>)>::empty() =~= before);
                }
                i += 1;
            }
            if out.len() == 0 {
                (out, Some(files_issue(config_path, index, file, FilesProblem::Missing, "")))
            } else {
                (out, None)
            }
        },
    }
}


/// The files and issues of the first `n` entries of `files`, each entry
/// given with what the file system holds at its path and which of its
/// extension candidates exist.
pub open spec fn files_upto(
    base: (bool, Seq<Seq<char>>),
    config_path: Seq<char>,
    entries: Seq<(String, FilesEntryState, Vec<bool>)>,
    exts: Seq<&'static str>,
    n: int,
) -> (Seq<(bool, Seq<Seq<char>>)>, Seq<(Seq<char>, Seq<char>, Seq<char>)>)
    decreases n,
{
    if n <= 0 {
        (seq![], seq![])
    } else {
        let prev = files_upto(base, config_path, entries, exts, n - 1);
        let e = entries[n - 1];
        let one = files_entry(base, e.0@, exts, e.1, e.2@);
        (
            prev.0 + one.0,
            prev.1 + match one.1 {
                Some(p) => seq![files_problem_view(config_path, (n - 1) as nat, e.0@, p, denied_message(e.1))],
                None => seq![],
            },
        )
    }
}

pub open spec fn files_issue_views(v: Seq<FilesIssue>) -> Seq<(Seq<char>, Seq<char>, Seq<char>)> {
    v.map_values(|f: FilesIssue| files_issue_view(f))
}

/// The files that the `files` entries
/// name, entry by entry (the caller keeps them as a set), and the issues
/// of the entries, in order.
pub fn collect_explicit_tsconfig_files(
    base_dir: &PathBase,
    config_path: &str,
    entries: &Vec<(String, FilesEntryState, Vec<bool>)>,
    candidate_extensions: &[&'static str],
) -> (r: (Vec<PathBase>, Vec<FilesIssue>))
    ensures
        (path_views(r.0@), files_issue_views(r.1@)) == files_upto(
            base_dir@,
            config_path@,
            entries@,
            candidate_extensions@,
            entries@.len() as int,
        ),
{
    let mut files: Vec<PathBase> = Vec::new();
    let mut issues: Vec<FilesIssue> = Vec::new();
    let mut i: usize = 0;
    assert(path_views(files@) =~= Seq::<(bool, Seq<Seq<char>>)>::empty());
    assert(files_issue_views(issues@) =~= Seq::<(Seq<char>, Seq<char>, Seq<char>)>::empty());
    while i < entries.len()
        invariant
            i <= entries@.len(),
            (path_views(files@), files_issue_views(issues@)) == files_upto(
                base_dir@,
                config_path@,
                entries@,
                candidate_extensions@,
                i as int,
            ),
        decreases entries@.len() - i,
    {
        let (file, state, found) = &entries[i];
        let (mut more, issue) = explicit_files_entry(
            base_dir,
            config_path,
            i,
            file.as_str(),
            candidate_extensions,
            state,
            found.as_slice(),
        );
        let ghost fb = files@;
        let ghost added = more@;
        files.append(&mut more);
        assert(path_views(files@) =~= path_views(fb) + path_views(added));
        let ghost ib = files_issue_views(issues@);
        match issue {
            Some(x) => {
                issues.push(x);
                assert(files_issue_views(issues@) =~= ib + seq![files_issue_view(x)]);
            },
            None => {
                assert(ib + Seq::<(Seq<char>, Seq<char>, Seq<char>)>::empty() =~= ib);
            },
        }
        i += 1;
    }
    (files, issues)
}

} // verus!
