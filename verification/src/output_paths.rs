//! Where a tsconfig's `outDir` stands against its sources: equal to a
//! source root, nested in one, containing an input file, or containing a
//! source root; and how such paths are shown relative to the project.
//!
//! Paths here are resolved (`PathBase::resolve`), compared by their parts.
use vstd::prelude::*;
use crate::package_entrypoints::{search_prefix, wildcard_search_prefix};
use crate::paths::{
    components_prefix, components_prefix_exec, joined, part_views, path_views, resolve_parts,
    same_path, PathBase,
};
use crate::tsconfig_rules::{explicit_ext, has_explicit_extension};
use crate::registry::Severity;
use crate::tsconfig_findings::{ts_view, TsFinding, TsView};
use crate::text::{
    append_str, chars_eq_str, chars_of, contains_char, join_chars, join_with, replace_char, replace_char_chars,
    slice_chars, string_from, trim, trim_chars,
};

verus! {

// ---------------------------------------------------------------------
// Showing paths
// ---------------------------------------------------------------------

/// The path relative to the project root
/// (`.` for the root itself), or the whole path when it lies elsewhere;
/// both resolved first, with `/` for `\`.
pub open spec fn project_relative(root: (bool, Seq<Seq<char>>), path: (bool, Seq<Seq<char>>)) -> Seq<
    char,
> {
    let r = (root.0, resolve_parts(root.0, root.1));
    let p = (path.0, resolve_parts(path.0, path.1));
    if components_prefix(p, r) {
        let rest = p.1.skip(r.1.len() as int);
        if rest.len() == 0 {
            seq!['.']
        } else {
            replace_char(join_with(rest, seq!['/']), '\\', '/')
        }
    } else {
        replace_char(crate::paths::render_resolved(p.0, p.1), '\\', '/')
    }
}

pub fn display_project_relative_path(project_root: &PathBase, path: &PathBase) -> (out: String)
    ensures
        out@ == project_relative(project_root@, path@),
{
    let r = project_root.resolve();
    let p = path.resolve();
    if components_prefix_exec(&p, &r) {
        let rest = p.parts_from(r.parts.len());
        if rest.len() == 0 {
            let out: Vec<char> = vec!['.'];
            assert(out@ =~= seq!['.']);
            return string_from(out.as_slice());
        }
        let body = join_chars(&rest, "/");
        proof {
            reveal_strlit("/");
            assert("/"@ =~= seq!['/']);
            assert(rest@.map_values(|x: Vec<char>| x@) =~= part_views(rest@));
        }
        let out = replace_char_chars(body.as_slice(), '\\', '/');
        string_from(out.as_slice())
    } else {
        let t = p.render_resolved();
        let tc = chars_of(t.as_str());
        let out = replace_char_chars(tc.as_slice(), '\\', '/');
        string_from(out.as_slice())
    }
}

// ---------------------------------------------------------------------
// Source roots
// ---------------------------------------------------------------------

/// The path at `j` hides the one at `i` when roots are pruned: it is a
/// proper ancestor of it, or an equal path that stands before it.
pub open spec fn hides(ps: Seq<(bool, Seq<Seq<char>>)>, j: int, i: int) -> bool {
    (ps[j] != ps[i] && components_prefix(ps[i], ps[j])) || (j < i && ps[j] == ps[i])
}

/// Whether some path of the list hides the one at `i`.
pub open spec fn pruned_away(ps: Seq<(bool, Seq<Seq<char>>)>, i: int) -> bool {
    exists|j: int| 0 <= j < ps.len() && #[trigger] hides(ps, j, i)
}

/// The paths among the first `n` that nothing hides,
/// in their order.
pub open spec fn kept_roots(ps: Seq<(bool, Seq<Seq<char>>)>, n: int) -> Seq<(bool, Seq<Seq<char>>)>
    decreases n,
{
    if n <= 0 {
        seq![]
    } else if pruned_away(ps, n - 1) {
        kept_roots(ps, n - 1)
    } else {
        kept_roots(ps, n - 1).push(ps[n - 1])
    }
}

/// Keeps the outermost of the given roots, once each, in their order (the
/// order of a sorted set when the paths come sorted).
pub fn prune_nested_paths(paths: &Vec<PathBase>) -> (out: Vec<PathBase>)
    ensures
        path_views(out@) == kept_roots(path_views(paths@), paths@.len() as int),
{
    let ghost ps = path_views(paths@);
    let mut out: Vec<PathBase> = Vec::new();
    let mut i: usize = 0;
    while i < paths.len()
        invariant
            i <= paths@.len(),
            ps == path_views(paths@),
            path_views(out@) == kept_roots(ps, i as int),
        decreases paths@.len() - i,
    {
        let mut hidden = false;
        let mut j: usize = 0;
        while j < paths.len()
            invariant
                i < paths@.len(),
                j <= paths@.len(),
                ps == path_views(paths@),
                hidden == (exists|k: int| 0 <= k < j && #[trigger] hides(ps, k, i as int)),
            decreases paths@.len() - j,
        {
            assert(ps[j as int] == paths@[j as int]@ && ps[i as int] == paths@[i as int]@);
            let same = same_path(&paths[j], &paths[i]);
            let above = components_prefix_exec(&paths[i], &paths[j]);
            if (!same && above) || (j < i && same) {
                assert(hides(ps, j as int, i as int));
                hidden = true;
            } else {
                assert(!hides(ps, j as int, i as int));
            }
            j += 1;
        }
        let ghost before = out@;
        if !hidden {
            let c = paths[i].copy();
            out.push(c);
            assert(path_views(out@) =~= path_views(before).push(ps[i as int]));
        }
        i += 1;
    }
    out
}

/// `components_prefix` is transitive.
proof fn lemma_prefix_trans(a: (bool, Seq<Seq<char>>), b: (bool, Seq<Seq<char>>), c: (bool, Seq<Seq<char>>))
    requires
        components_prefix(a, b),
        components_prefix(b, c),
    ensures
        components_prefix(a, c),
{
    if !(!c.0 && c.1.len() == 0) {
        assert(a.1.take(c.1.len() as int) =~= a.1.take(b.1.len() as int).take(c.1.len() as int));
    }
}

/// A proper ancestor has fewer parts.
proof fn lemma_prefix_shorter(a: (bool, Seq<Seq<char>>), b: (bool, Seq<Seq<char>>))
    requires
        components_prefix(a, b),
        a != b,
    ensures
        b.1.len() < a.1.len(),
{
    if b.1.len() >= a.1.len() {
        if !b.0 && b.1.len() == 0 {
            assert(a.1 =~= b.1);
        } else {
            assert(a.1.take(b.1.len() as int) =~= a.1);
            assert(a.1 =~= b.1);
        }
        assert(a == b);
    }
}

/// The roots kept from the first `n` paths are those of them that nothing
/// hides.
proof fn lemma_kept_members(ps: Seq<(bool, Seq<Seq<char>>)>, n: int)
    requires
        0 <= n <= ps.len(),
    ensures
        forall|x: (bool, Seq<Seq<char>>)|
            kept_roots(ps, n).contains(x) <==> exists|k: int|
                0 <= k < n && !pruned_away(ps, k) && #[trigger] ps[k] == x,
    decreases n,
{
    if n > 0 {
        lemma_kept_members(ps, n - 1);
        let prev = kept_roots(ps, n - 1);
        assert forall|x: (bool, Seq<Seq<char>>)| kept_roots(ps, n).contains(x) <==> exists|k: int|
            0 <= k < n && !pruned_away(ps, k) && #[trigger] ps[k] == x by {
            if kept_roots(ps, n).contains(x) {
                if !pruned_away(ps, n - 1) && x == ps[n - 1] {
                    assert(ps[n - 1] == x);
                } else {
                    if pruned_away(ps, n - 1) {
                        assert(prev.contains(x));
                    } else {
                        let w = choose|w: int| 0 <= w < kept_roots(ps, n).len() && kept_roots(ps, n)[w] == x;
                        assert(w < prev.len());
                        assert(prev[w] == x);
                        assert(prev.contains(x));
                    }
                    let k = choose|k: int| 0 <= k < n - 1 && !pruned_away(ps, k) && #[trigger] ps[k] == x;
                    assert(ps[k] == x);
                }
            }
            if exists|k: int| 0 <= k < n && !pruned_away(ps, k) && #[trigger] ps[k] == x {
                let k = choose|k: int| 0 <= k < n && !pruned_away(ps, k) && #[trigger] ps[k] == x;
                if k < n - 1 {
                    assert(prev.contains(x));
                    let w = choose|w: int| 0 <= w < prev.len() && prev[w] == x;
                    if !pruned_away(ps, n - 1) {
                        assert(kept_roots(ps, n)[w] == x);
                    }
                } else {
                    assert(kept_roots(ps, n)[prev.len() as int] == x);
                }
            }
        }
    }
}

/// Every path lies under some path that nothing hides.
proof fn lemma_covered(ps: Seq<(bool, Seq<Seq<char>>)>, i: int)
    requires
        0 <= i < ps.len(),
    ensures
        exists|k: int| 0 <= k < ps.len() && !pruned_away(ps, k) && #[trigger] components_prefix(ps[i], ps[k]),
    decreases ps[i].1.len(), i,
{
    if !pruned_away(ps, i) {
        if !(!ps[i].0 && ps[i].1.len() == 0) {
            assert(ps[i].1.take(ps[i].1.len() as int) =~= ps[i].1);
        }
        assert(components_prefix(ps[i], ps[i]));
    } else {
        let j = choose|j: int| 0 <= j < ps.len() && #[trigger] hides(ps, j, i);
        if ps[j] != ps[i] && components_prefix(ps[i], ps[j]) {
            lemma_prefix_shorter(ps[i], ps[j]);
        }
        lemma_covered(ps, j);
        let k = choose|k: int| 0 <= k < ps.len() && !pruned_away(ps, k) && #[trigger] components_prefix(ps[j], ps[k]);
        if ps[j] != ps[i] {
            lemma_prefix_trans(ps[i], ps[j], ps[k]);
        }
        assert(components_prefix(ps[i], ps[k]));
    }
}

/// Pruning nested roots keeps each root once, keeps none that lies under
/// another given path, keeps only given paths, and leaves every given path
/// under a kept root.
pub proof fn lemma_pruned_roots(ps: Seq<(bool, Seq<Seq<char>>)>)
    ensures
        kept_roots(ps, ps.len() as int).no_duplicates(),
        forall|x: (bool, Seq<Seq<char>>)| #[trigger] kept_roots(ps, ps.len() as int).contains(x) ==> ps.contains(x),
        forall|x: (bool, Seq<Seq<char>>), j: int|
            #[trigger] kept_roots(ps, ps.len() as int).contains(x) && 0 <= j < ps.len() && ps[j] != x
                ==> !components_prefix(x, #[trigger] ps[j]),
        forall|i: int| 0 <= i < ps.len() ==> exists|x: (bool, Seq<Seq<char>>)|
            #[trigger] kept_roots(ps, ps.len() as int).contains(x) && components_prefix(#[trigger] ps[i], x),
{
    let n = ps.len() as int;
    let kept = kept_roots(ps, n);
    lemma_kept_members(ps, n);
    assert forall|x: (bool, Seq<Seq<char>>)| #[trigger] kept.contains(x) implies ps.contains(x) by {
        let k = choose|k: int| 0 <= k < n && !pruned_away(ps, k) && #[trigger] ps[k] == x;
    }
    assert forall|x: (bool, Seq<Seq<char>>), j: int|
        #[trigger] kept.contains(x) && 0 <= j < ps.len() && ps[j] != x implies !components_prefix(x, #[trigger] ps[j]) by {
        let k = choose|k: int| 0 <= k < n && !pruned_away(ps, k) && #[trigger] ps[k] == x;
        if components_prefix(x, ps[j]) {
            assert(hides(ps, j, k));
        }
    }
    assert forall|i: int| 0 <= i < ps.len() implies exists|x: (bool, Seq<Seq<char>>)|
        #[trigger] kept.contains(x) && components_prefix(#[trigger] ps[i], x) by {
        lemma_covered(ps, i);
        let k = choose|k: int| 0 <= k < ps.len() && !pruned_away(ps, k) && #[trigger] components_prefix(ps[i], ps[k]);
        assert(kept.contains(ps[k]));
    }
    lemma_kept_distinct(ps, n);
}

proof fn lemma_kept_distinct(ps: Seq<(bool, Seq<Seq<char>>)>, n: int)
    requires
        0 <= n <= ps.len(),
    ensures
        kept_roots(ps, n).no_duplicates(),
    decreases n,
{
    if n > 0 {
        lemma_kept_distinct(ps, n - 1);
        lemma_kept_members(ps, n - 1);
        let prev = kept_roots(ps, n - 1);
        if !pruned_away(ps, n - 1) {
            if prev.contains(ps[n - 1]) {
                let k = choose|k: int| 0 <= k < n - 1 && !pruned_away(ps, k) && #[trigger] ps[k] == ps[n - 1];
                assert(hides(ps, k, n - 1));
            }
            let kept = kept_roots(ps, n);
            assert forall|a: int, b: int| 0 <= a < kept.len() && 0 <= b < kept.len() && a != b implies kept[a] != kept[b] by {
                if a < prev.len() && b < prev.len() {
                } else if a < prev.len() {
                    assert(prev.contains(kept[a]));
                } else {
                    assert(prev.contains(kept[b]));
                }
            }
        }
    }
}

// ---------------------------------------------------------------------
// The root a pattern names
// ---------------------------------------------------------------------

/// The position of the first `*` or `?` from `k` on, or the length.
pub open spec fn first_wildcard(p: Seq<char>, k: int) -> int
    decreases p.len() - k,
{
    if k < 0 || k >= p.len() {
        p.len() as int
    } else if p[k] == '*' || p[k] == '?' {
        k
    } else {
        first_wildcard(p, k + 1)
    }
}

/// The pattern up to its first wildcard.
fn wildcard_free_prefix(p: &[char]) -> (out: Vec<char>)
    ensures
        out@ == p@.take(first_wildcard(p@, 0)),
{
    let mut k: usize = 0;
    while k < p.len() && p[k] != '*' && p[k] != '?'
        invariant
            k <= p@.len(),
            first_wildcard(p@, 0) == first_wildcard(p@, k as int),
        decreases p@.len() - k,
    {
        k += 1;
    }
    assert(first_wildcard(p@, k as int) == k);
    slice_chars(p, 0, k)
}

/// A target taken relative to a directory and resolved.
pub open spec fn resolved_at(base: (bool, Seq<Seq<char>>), t: Seq<char>) -> (bool, Seq<Seq<char>>) {
    let j = joined(base, t);
    (j.0, resolve_parts(j.0, j.1))
}

/// The directory named by the part of a
/// pattern before its first wildcard.
pub open spec fn search_root(base: (bool, Seq<Seq<char>>), pattern: Seq<char>) -> (bool, Seq<Seq<char>>) {
    resolved_at(base, search_prefix(pattern.take(first_wildcard(pattern, 0))))
}

pub fn resolve_pattern_search_root(base_dir: &PathBase, pattern: &str) -> (r: PathBase)
    ensures
        r@ == search_root(base_dir@, pattern@),
{
    let p = chars_of(pattern);
    let pre = wildcard_free_prefix(p.as_slice());
    let sp = wildcard_search_prefix(string_from(pre.as_slice()).as_str());
    let spc = chars_of(sp.as_str());
    base_dir.join(spc.as_slice()).resolve()
}

/// What the file system reports of a path: nothing there, a directory, a
/// file, or an entry whose metadata cannot be read.
#[derive(Clone, Copy, Debug)]
pub enum PathState {
    Missing,
    Directory,
    File,
    Unreadable,
}

/// `Path::parent` of a resolved path, resolved: `None` for the root.
pub open spec fn parent_resolved(p: (bool, Seq<Seq<char>>)) -> Option<(bool, Seq<Seq<char>>)> {
    if p.1.len() > 0 {
        Some((p.0, resolve_parts(p.0, p.1.drop_last())))
    } else if p.0 {
        None
    } else {
        Some((false, seq![]))
    }
}

fn parent_of_resolved(p: &PathBase) -> (r: Option<PathBase>)
    ensures
        match r {
            Some(q) => parent_resolved(p@) == Some(q@),
            None => parent_resolved(p@) is None,
        },
{
    if p.parts.len() > 0 {
        let mut c = p.copy();
        let ghost before = c.parts@;
        let _ = c.parts.pop();
        assert(part_views(c.parts@) =~= part_views(before).drop_last());
        Some(c.resolve())
    } else if p.rooted {
        None
    } else {
        let q = PathBase { rooted: false, parts: Vec::new() };
        assert(q@.1 =~= Seq::<Seq<char>>::empty());
        Some(q)
    }
}

/// The source root that an `include`
/// pattern names. A blank pattern names none; a wildcard pattern names the
/// directory before its first wildcard, unless that is `.`; any other
/// pattern is taken relative to the directory, with `/` for `\`, and
/// `state` says what the file system holds at that resolved path: a
/// directory is its own root, a file stands in its parent, an unreadable
/// entry names none, and a missing path is a file when the pattern has an
/// extension.
pub open spec fn source_root(base: (bool, Seq<Seq<char>>), pattern: Seq<char>, state: PathState) -> Option<
    (bool, Seq<Seq<char>>),
> {
    let r = resolved_at(base, replace_char(pattern, '\\', '/'));
    if trim(pattern).len() == 0 {
        None
    } else if pattern.contains('*') || pattern.contains('?') {
        let sp = search_prefix(pattern.take(first_wildcard(pattern, 0)));
        if sp == seq!['.'] || sp.len() == 0 {
            None
        } else {
            Some(resolved_at(base, replace_char(sp, '\\', '/')))
        }
    } else {
        match state {
            PathState::Directory => Some(r),
            PathState::File => parent_resolved(r),
            PathState::Unreadable => None,
            PathState::Missing => if explicit_ext(pattern) {
                parent_resolved(r)
            } else {
                Some(r)
            },
        }
    }
}

pub fn resolve_pattern_source_root(base_dir: &PathBase, pattern: &str, state: PathState) -> (r: Option<
    PathBase,
>)
    ensures
        match r {
            Some(p) => source_root(base_dir@, pattern@, state) == Some(p@),
            None => source_root(base_dir@, pattern@, state) is None,
        },
{
    let p = chars_of(pattern);
    let t = trim_chars(p.as_slice());
    if t.len() == 0 {
        return None;
    }
    if contains_char(p.as_slice(), '*') || contains_char(p.as_slice(), '?') {
        let pre = wildcard_free_prefix(p.as_slice());
        let sp = wildcard_search_prefix(string_from(pre.as_slice()).as_str());
        let spc = chars_of(sp.as_str());
        if spc.len() == 0 || (spc.len() == 1 && spc[0] == '.') {
            proof {
                if spc.len() == 1 {
                    assert(spc@ =~= seq!['.']);
                }
            }
            return None;
        }
        assert(spc@ != seq!['.']);
        let fixed = replace_char_chars(spc.as_slice(), '\\', '/');
        return Some(base_dir.join(fixed.as_slice()).resolve());
    }
    let fixed = replace_char_chars(p.as_slice(), '\\', '/');
    let r = base_dir.join(fixed.as_slice()).resolve();
    match state {
        PathState::Directory => Some(r),
        PathState::File => parent_of_resolved(&r),
        PathState::Unreadable => None,
        PathState::Missing => {
            if has_explicit_extension(pattern) {
                parent_of_resolved(&r)
            } else {
                Some(r)
            }
        },
    }
}

// ---------------------------------------------------------------------
// Directories left out of pattern searches
// ---------------------------------------------------------------------

/// The path resolved.
pub open spec fn resolved_path(p: (bool, Seq<Seq<char>>)) -> (bool, Seq<Seq<char>>) {
    (p.0, resolve_parts(p.0, p.1))
}

/// `Path::file_name` of a resolved path: its last part, unless that is
/// `..`.
pub open spec fn last_name(p: (bool, Seq<Seq<char>>)) -> Option<Seq<char>> {
    if p.1.len() == 0 || p.1.last() == seq!['.', '.'] {
        None
    } else {
        Some(p.1.last())
    }
}

/// The package directories that pattern searches never enter.
pub open spec fn is_package_store_name(n: Seq<char>) -> bool {
    n == "node_modules"@ || n == "bower_components"@ || n == "jspm_packages"@
}

/// The resolved path lies in one of the
/// excluded directories.
pub open spec fn within_excluded(path: (bool, Seq<Seq<char>>), excluded: Seq<(bool, Seq<Seq<char>>)>) -> bool {
    exists|i: int| 0 <= i < excluded.len() && components_prefix(resolved_path(path), #[trigger] excluded[i])
}

/// The resolved path is a package store
/// or lies in an excluded directory.
pub open spec fn skip_default_dir(path: (bool, Seq<Seq<char>>), excluded: Seq<(bool, Seq<Seq<char>>)>) -> bool {
    (match last_name(resolved_path(path)) {
        Some(n) => is_package_store_name(n),
        None => false,
    }) || within_excluded(path, excluded)
}

pub fn is_within_default_excluded_dir(path: &PathBase, default_excluded_dirs: &[PathBase]) -> (r: bool)
    ensures
        r == within_excluded(path@, path_views(default_excluded_dirs@)),
{
    let ghost ex = path_views(default_excluded_dirs@);
    let r = path.resolve();
    let mut i: usize = 0;
    while i < default_excluded_dirs.len()
        invariant
            i <= default_excluded_dirs@.len(),
            ex == path_views(default_excluded_dirs@),
            r@ == resolved_path(path@),
            forall|k: int| 0 <= k < i ==> !components_prefix(resolved_path(path@), #[trigger] ex[k]),
        decreases default_excluded_dirs@.len() - i,
    {
        assert(ex[i as int] == default_excluded_dirs@[i as int]@);
        if components_prefix_exec(&r, &default_excluded_dirs[i]) {
            return true;
        }
        i += 1;
    }
    false
}

pub fn should_skip_default_pattern_dir(path: &PathBase, default_excluded_dirs: &[PathBase]) -> (r: bool)
    ensures
        r == skip_default_dir(path@, path_views(default_excluded_dirs@)),
{
    let r = path.resolve();
    let n = r.parts.len();
    if n > 0 {
        let last = &r.parts[n - 1];
        assert(last@ == r@.1.last());
        let dots = last.len() == 2 && last[0] == '.' && last[1] == '.';
        proof {
            if dots {
                assert(last@ =~= seq!['.', '.']);
            }
        }
        if !dots && (chars_eq_str(last.as_slice(), "node_modules") || chars_eq_str(
            last.as_slice(),
            "bower_components",
        ) || chars_eq_str(last.as_slice(), "jspm_packages")) {
            return true;
        }
    }
    proof {
        crate::paths::lemma_resolve_idempotent(path@.0, path@.1);
    }
    let within = is_within_default_excluded_dir(&r, default_excluded_dirs);
    assert(resolved_path(r@) == resolved_path(path@));
    within
}

// ---------------------------------------------------------------------
// Overlaps
// ---------------------------------------------------------------------

/// The first position from `k` on whose path equals `out`.
pub open spec fn first_equal(v: Seq<(bool, Seq<Seq<char>>)>, out: (bool, Seq<Seq<char>>), k: int) -> Option<
    int,
>
    decreases v.len() - k,
{
    if k < 0 || k >= v.len() {
        None
    } else if v[k] == out {
        Some(k)
    } else {
        first_equal(v, out, k + 1)
    }
}

/// The first position from `k` on whose path `out` lies under.
pub open spec fn first_above(v: Seq<(bool, Seq<Seq<char>>)>, out: (bool, Seq<Seq<char>>), k: int) -> Option<
    int,
>
    decreases v.len() - k,
{
    if k < 0 || k >= v.len() {
        None
    } else if components_prefix(out, v[k]) {
        Some(k)
    } else {
        first_above(v, out, k + 1)
    }
}

/// The first position from `k` on whose path lies under `out`.
pub open spec fn first_below(v: Seq<(bool, Seq<Seq<char>>)>, out: (bool, Seq<Seq<char>>), k: int) -> Option<
    int,
>
    decreases v.len() - k,
{
    if k < 0 || k >= v.len() {
        None
    } else if components_prefix(v[k], out) {
        Some(k)
    } else {
        first_below(v, out, k + 1)
    }
}

/// How `outDir` overlaps the sources, with the position of the path the
/// finding names.
#[derive(PartialEq, Eq, Structural, Clone, Copy, Debug)]
pub enum OutputOverlap {
    /// `outDir` is a source root.
    EqualsSource(usize),
    /// `outDir` lies inside a source root.
    NestedInSource(usize),
    /// An input file lies inside `outDir`.
    ContainsInput(usize),
    /// A file the include patterns match, before default exclusions, lies
    /// inside `outDir` (looked at only when `outDir` is the config
    /// directory and no input remains after them).
    ContainsRawInput(usize),
    /// A source root lies inside `outDir`.
    ContainsSource(usize),
    /// None of these.
    Separate,
}

pub open spec fn at(o: Option<int>) -> usize {
    match o {
        Some(i) => i as usize,
        None => 0,
    }
}

/// The output-path overlap that is reported: the
/// checks are made in this order and the first that holds, on the first
/// path in the given order, is reported.
pub open spec fn output_overlap(
    out: (bool, Seq<Seq<char>>),
    base: (bool, Seq<Seq<char>>),
    roots: Seq<(bool, Seq<Seq<char>>)>,
    inputs: Seq<(bool, Seq<Seq<char>>)>,
    raw: Seq<(bool, Seq<Seq<char>>)>,
) -> OutputOverlap {
    if first_equal(roots, out, 0) is Some {
        OutputOverlap::EqualsSource(at(first_equal(roots, out, 0)))
    } else if first_above(roots, out, 0) is Some {
        OutputOverlap::NestedInSource(at(first_above(roots, out, 0)))
    } else if first_below(inputs, out, 0) is Some {
        OutputOverlap::ContainsInput(at(first_below(inputs, out, 0)))
    } else if out == base && inputs.len() == 0 && first_below(raw, out, 0) is Some {
        OutputOverlap::ContainsRawInput(at(first_below(raw, out, 0)))
    } else if first_below(roots, out, 0) is Some {
        OutputOverlap::ContainsSource(at(first_below(roots, out, 0)))
    } else {
        OutputOverlap::Separate
    }
}

proof fn lemma_first_found(v: Seq<(bool, Seq<Seq<char>>)>, out: (bool, Seq<Seq<char>>), k: int)
    requires
        0 <= k,
    ensures
        first_equal(v, out, k) matches Some(i) ==> k <= i < v.len() && v[i] == out,
        first_equal(v, out, k) is None ==> forall|i: int| k <= i < v.len() ==> v[i] != out,
        first_above(v, out, k) matches Some(i) ==> k <= i < v.len() && components_prefix(out, v[i]),
        first_above(v, out, k) is None ==> forall|i: int|
            k <= i < v.len() ==> !components_prefix(out, #[trigger] v[i]),
        first_below(v, out, k) matches Some(i) ==> k <= i < v.len() && components_prefix(v[i], out),
        first_below(v, out, k) is None ==> forall|i: int|
            k <= i < v.len() ==> !components_prefix(#[trigger] v[i], out),
    decreases v.len() - k,
{
    if k < v.len() {
        lemma_first_found(v, out, k + 1);
    }
}

/// What each verdict means: the position it names holds a path in that
/// relation to `outDir`; and when the directories are separate, no source
/// root equals, contains or lies in `outDir`, and no input lies in it.
pub proof fn lemma_overlap_meaning(
    out: (bool, Seq<Seq<char>>),
    base: (bool, Seq<Seq<char>>),
    roots: Seq<(bool, Seq<Seq<char>>)>,
    inputs: Seq<(bool, Seq<Seq<char>>)>,
    raw: Seq<(bool, Seq<Seq<char>>)>,
)
    requires
        roots.len() <= usize::MAX,
        inputs.len() <= usize::MAX,
        raw.len() <= usize::MAX,
    ensures
        output_overlap(out, base, roots, inputs, raw) matches OutputOverlap::EqualsSource(i) ==> i
            < roots.len() && roots[i as int] == out,
        output_overlap(out, base, roots, inputs, raw) matches OutputOverlap::NestedInSource(i) ==> i
            < roots.len() && components_prefix(out, roots[i as int]),
        output_overlap(out, base, roots, inputs, raw) matches OutputOverlap::ContainsInput(i) ==> i
            < inputs.len() && components_prefix(inputs[i as int], out),
        output_overlap(out, base, roots, inputs, raw) matches OutputOverlap::ContainsRawInput(i) ==> i
            < raw.len() && components_prefix(raw[i as int], out),
        output_overlap(out, base, roots, inputs, raw) matches OutputOverlap::ContainsSource(i) ==> i
            < roots.len() && components_prefix(roots[i as int], out),
        output_overlap(out, base, roots, inputs, raw) == OutputOverlap::Separate ==> (forall|i: int|
            0 <= i < roots.len() ==> roots[i] != out && !components_prefix(out, #[trigger] roots[i])
                && !components_prefix(roots[i], out)) && (forall|i: int|
            0 <= i < inputs.len() ==> !components_prefix(#[trigger] inputs[i], out)),
{
    lemma_first_found(roots, out, 0);
    lemma_first_found(inputs, out, 0);
    lemma_first_found(raw, out, 0);
}

/// Which of the three searches to run.
enum Search {
    Equal,
    Above,
    Below,
}

spec fn search_spec(s: Search, v: Seq<(bool, Seq<Seq<char>>)>, out: (bool, Seq<Seq<char>>), k: int) -> Option<
    int,
> {
    match s {
        Search::Equal => first_equal(v, out, k),
        Search::Above => first_above(v, out, k),
        Search::Below => first_below(v, out, k),
    }
}

fn find_first(s: Search, v: &[PathBase], out: &PathBase) -> (r: Option<usize>)
    ensures
        match r {
            Some(i) => search_spec(s, path_views(v@), out@, 0) == Some(i as int),
            None => search_spec(s, path_views(v@), out@, 0) is None,
        },
{
    let ghost pv = path_views(v@);
    let mut k: usize = 0;
    while k < v.len()
        invariant
            k <= v@.len(),
            pv == path_views(v@),
            search_spec(s, pv, out@, 0) == search_spec(s, pv, out@, k as int),
        decreases v@.len() - k,
    {
        assert(pv[k as int] == v@[k as int]@);
        let hit = match s {
            Search::Equal => same_path(&v[k], out),
            Search::Above => components_prefix_exec(out, &v[k]),
            Search::Below => components_prefix_exec(&v[k], out),
        };
        if hit {
            return Some(k);
        }
        k += 1;
    }
    None
}

pub fn classify_output_overlap(
    output_dir: &PathBase,
    base_dir: &PathBase,
    source_roots: &[PathBase],
    inputs: &[PathBase],
    raw_inputs: &[PathBase],
) -> (r: OutputOverlap)
    ensures
        r == output_overlap(
            output_dir@,
            base_dir@,
            path_views(source_roots@),
            path_views(inputs@),
            path_views(raw_inputs@),
        ),
{
    if let Some(i) = find_first(Search::Equal, source_roots, output_dir) {
        return OutputOverlap::EqualsSource(i);
    }
    if let Some(i) = find_first(Search::Above, source_roots, output_dir) {
        return OutputOverlap::NestedInSource(i);
    }
    if let Some(i) = find_first(Search::Below, inputs, output_dir) {
        return OutputOverlap::ContainsInput(i);
    }
    if same_path(output_dir, base_dir) && inputs.len() == 0 {
        if let Some(i) = find_first(Search::Below, raw_inputs, output_dir) {
            return OutputOverlap::ContainsRawInput(i);
        }
    }
    if let Some(i) = find_first(Search::Below, source_roots, output_dir) {
        return OutputOverlap::ContainsSource(i);
    }
    OutputOverlap::Separate
}

// ---------------------------------------------------------------------
// Findings
// ---------------------------------------------------------------------

/// The finding for an overlap: its id suffix, title, severity and hint.
pub struct OverlapFinding {
    pub suffix: &'static str,
    pub title: &'static str,
    pub severity: Severity,
    pub hint: &'static str,
}

pub open spec fn overlap_suffix(o: OutputOverlap) -> Seq<char> {
    match o {
        OutputOverlap::EqualsSource(_) => "outdir-equals-source"@,
        OutputOverlap::NestedInSource(_) => "outdir-nested-in-source"@,
        OutputOverlap::ContainsSource(_) => "outdir-contains-source"@,
        _ => "outdir-contains-input"@,
    }
}

/// The title of the finding of an overlap.
pub open spec fn overlap_title(o: OutputOverlap) -> Seq<char> {
    match o {
        OutputOverlap::EqualsSource(_) => "Output directory overlaps the TypeScript source root"@,
        OutputOverlap::NestedInSource(_) => "Output directory is nested inside the TypeScript source root"@,
        OutputOverlap::ContainsSource(_) => "Output directory contains the TypeScript source root"@,
        _ => "Output directory contains TypeScript input files"@,
    }
}

/// The hint of the finding of an overlap.
pub open spec fn overlap_hint(o: OutputOverlap) -> Seq<char> {
    match o {
        OutputOverlap::ContainsSource(_) => "Prefer an output directory that is completely separate from the TypeScript source root."@,
        OutputOverlap::ContainsInput(_) => "Move emit output outside any directory that currently contains TypeScript input files."@,
        OutputOverlap::ContainsRawInput(_) => "Move emit output outside any directory that currently contains TypeScript input files."@,
        _ => "Move emit output outside the source root so build artifacts do not overwrite source files."@,
    }
}

/// The severity of the finding of an overlap.
pub open spec fn overlap_severity(o: OutputOverlap) -> Severity {
    if o is ContainsSource {
        Severity::Warn
    } else {
        Severity::Error
    }
}

/// The finding of each overlap; none when the directories are separate.
pub fn overlap_finding(o: OutputOverlap) -> (r: Option<OverlapFinding>)
    ensures
        (r is None) == (o == OutputOverlap::Separate),
        r matches Some(f) ==> f.suffix@ == overlap_suffix(o) && f.severity == overlap_severity(o)
            && f.title@ == overlap_title(o) && f.hint@ == overlap_hint(o),
{
    match o {
        OutputOverlap::EqualsSource(_) => Some(OverlapFinding {
            suffix: "outdir-equals-source",
            title: "Output directory overlaps the TypeScript source root",
            severity: Severity::Error,
            hint: "Move emit output outside the source root so build artifacts do not overwrite source files.",
        }),
        OutputOverlap::NestedInSource(_) => Some(OverlapFinding {
            suffix: "outdir-nested-in-source",
            title: "Output directory is nested inside the TypeScript source root",
            severity: Severity::Error,
            hint: "Move emit output outside the source root so build artifacts do not overwrite source files.",
        }),
        OutputOverlap::ContainsInput(_) | OutputOverlap::ContainsRawInput(_) => Some(OverlapFinding {
            suffix: "outdir-contains-input",
            title: "Output directory contains TypeScript input files",
            severity: Severity::Error,
            hint: "Move emit output outside any directory that currently contains TypeScript input files.",
        }),
        OutputOverlap::ContainsSource(_) => Some(OverlapFinding {
            suffix: "outdir-contains-source",
            title: "Output directory contains the TypeScript source root",
            severity: Severity::Warn,
            hint: "Prefer an output directory that is completely separate from the TypeScript source root.",
        }),
        OutputOverlap::Separate => None,
    }
}

/// The detail of the finding for an overlap, from how `outDir` and the
/// other path are shown.
pub open spec fn overlap_detail_text(o: OutputOverlap, output: Seq<char>, other: Seq<char>) -> Seq<char> {
    match o {
        OutputOverlap::EqualsSource(_) => "outDir \""@ + output + "\" overlaps source root \""@
            + other + "\"."@,
        OutputOverlap::NestedInSource(_) => "outDir \""@ + output
            + "\" is nested inside source root \""@ + other + "\"."@,
        OutputOverlap::ContainsSource(_) => "outDir \""@ + output + "\" contains source root \""@
            + other + "\"."@,
        _ => "outDir \""@ + output + "\" contains TypeScript input \""@ + other + "\"."@,
    }
}

pub fn overlap_detail(o: OutputOverlap, output_display: &str, other_display: &str) -> (out: String)
    ensures
        out@ == overlap_detail_text(o, output_display@, other_display@),
{
    let mut out: Vec<char> = Vec::new();
    append_str(&mut out, "outDir \"");
    append_str(&mut out, output_display);
    match o {
        OutputOverlap::EqualsSource(_) => append_str(&mut out, "\" overlaps source root \""),
        OutputOverlap::NestedInSource(_) => append_str(&mut out, "\" is nested inside source root \""),
        OutputOverlap::ContainsSource(_) => append_str(&mut out, "\" contains source root \""),
        _ => append_str(&mut out, "\" contains TypeScript input \""),
    }
    append_str(&mut out, other_display);
    append_str(&mut out, "\".");
    string_from(out.as_slice())
}


// ---------------------------------------------------------------------
// The finding of a config
// ---------------------------------------------------------------------

/// The path that an overlap names besides `outDir`.
pub open spec fn other_path(
    o: OutputOverlap,
    roots: Seq<(bool, Seq<Seq<char>>)>,
    inputs: Seq<(bool, Seq<Seq<char>>)>,
    raw: Seq<(bool, Seq<Seq<char>>)>,
) -> (bool, Seq<Seq<char>>) {
    match o {
        OutputOverlap::EqualsSource(i) => roots[i as int],
        OutputOverlap::NestedInSource(i) => roots[i as int],
        OutputOverlap::ContainsSource(i) => roots[i as int],
        OutputOverlap::ContainsInput(i) => inputs[i as int],
        OutputOverlap::ContainsRawInput(i) => raw[i as int],
        OutputOverlap::Separate => (false, seq![]),
    }
}

/// Nothing without `outDir`;
/// otherwise the finding of how the resolved `outDir` overlaps the source
/// roots and inputs (`output_overlap`), with both paths shown relative to
/// the project, when it does.
pub open spec fn output_path_finding(
    project_root: (bool, Seq<Seq<char>>),
    fp: Seq<char>,
    out_dir: Option<(bool, Seq<Seq<char>>)>,
    base: (bool, Seq<Seq<char>>),
    roots: Seq<(bool, Seq<Seq<char>>)>,
    inputs: Seq<(bool, Seq<Seq<char>>)>,
    raw: Seq<(bool, Seq<Seq<char>>)>,
) -> Option<TsView> {
    match out_dir {
        None => None,
        Some(d) => {
            let out = resolved_path(d);
            let o = output_overlap(out, resolved_path(base), roots, inputs, raw);
            if o == OutputOverlap::Separate {
                None
            } else {
                let shown = project_relative(project_root, out);
                Some(
                    (
                        "tsconfig-output-paths:"@ + fp + ":"@ + overlap_suffix(o) + ":"@ + shown,
                        overlap_title(o),
                        overlap_detail_text(o, shown, project_relative(project_root, other_path(o, roots, inputs, raw))),
                        overlap_hint(o),
                        overlap_severity(o),
                        fp,
                    ),
                )
            }
        },
    }
}

pub fn collect_output_path_overlap_findings(
    project_root: &PathBase,
    file_path: &str,
    out_dir: Option<&PathBase>,
    base_dir: &PathBase,
    source_roots: &[PathBase],
    inputs: &[PathBase],
    raw_inputs: &[PathBase],
) -> (r: Option<TsFinding>)
    ensures
        match r {
            Some(f) => output_path_finding(
                project_root@,
                file_path@,
                match out_dir {
                    Some(d) => Some(d@),
                    None => None,
                },
                base_dir@,
                path_views(source_roots@),
                path_views(inputs@),
                path_views(raw_inputs@),
            ) == Some(ts_view(f)),
            None => output_path_finding(
                project_root@,
                file_path@,
                match out_dir {
                    Some(d) => Some(d@),
                    None => None,
                },
                base_dir@,
                path_views(source_roots@),
                path_views(inputs@),
                path_views(raw_inputs@),
            ) is None,
        },
{
    let d = match out_dir {
        None => {
            return None;
        },
        Some(d) => d,
    };
    let out = d.resolve();
    let base = base_dir.resolve();
    let o = classify_output_overlap(&out, &base, source_roots, inputs, raw_inputs);
    let n1 = source_roots.len();
    let n2 = inputs.len();
    let n3 = raw_inputs.len();
    assert(path_views(source_roots@).len() == n1 && path_views(inputs@).len() == n2 && path_views(raw_inputs@).len() == n3);
    proof {
        lemma_overlap_meaning(out@, base@, path_views(source_roots@), path_views(inputs@), path_views(raw_inputs@));
    }
    let f = match overlap_finding(o) {
        None => {
            return None;
        },
        Some(f) => f,
    };
    let other: &PathBase = match o {
        OutputOverlap::EqualsSource(i) => &source_roots[i],
        OutputOverlap::NestedInSource(i) => &source_roots[i],
        OutputOverlap::ContainsSource(i) => &source_roots[i],
        OutputOverlap::ContainsInput(i) => &inputs[i],
        OutputOverlap::ContainsRawInput(i) => &raw_inputs[i],
        OutputOverlap::Separate => {
            return None;
        },
    };
    assert(other@ == other_path(o, path_views(source_roots@), path_views(inputs@), path_views(raw_inputs@)));
    let shown = display_project_relative_path(project_root, &out);
    proof {
        crate::paths::lemma_resolve_idempotent(d@.0, d@.1);
    }
    assert(shown@ == project_relative(project_root@, resolved_path(d@)));
    let other_shown = display_project_relative_path(project_root, other);
    let mut id: Vec<char> = Vec::new();
    append_str(&mut id, "tsconfig-output-paths:");
    append_str(&mut id, file_path);
    append_str(&mut id, ":");
    append_str(&mut id, f.suffix);
    append_str(&mut id, ":");
    append_str(&mut id, shown.as_str());
    Some(TsFinding {
        id: string_from(id.as_slice()),
        title: string_from(chars_of(f.title).as_slice()),
        detail: overlap_detail(o, shown.as_str(), other_shown.as_str()),
        hint: f.hint,
        severity: f.severity,
        file: string_from(chars_of(file_path).as_slice()),
    })
}

} // verus!
