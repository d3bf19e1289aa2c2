//! Slash-separated glob matching used for `package.json` `files` entries and
//! `.npmignore` patterns: `*` and `?` inside one path segment, `**` across
//! any number of whole segments.
use vstd::prelude::*;
use crate::text::{
    chars_eq, chars_of, contains_char, slice_chars, split_char, split_char_chars, starts_with,
    starts_with_chars, string_from,
};

verus! {

/// The pattern holds a wildcard character.
pub open spec fn has_glob(s: Seq<char>) -> bool {
    s.contains('*') || s.contains('?')
}

/// Wildcard match of one segment: `*` matches any run of characters and `?`
/// any single character; every other character matches itself.
pub open spec fn seg_match(p: Seq<char>, v: Seq<char>) -> bool
    decreases p.len() + v.len(),
{
    if p.len() == 0 {
        v.len() == 0
    } else if p[0] == '*' {
        seg_match(p.drop_first(), v) || (v.len() > 0 && seg_match(p, v.drop_first()))
    } else if p[0] == '?' {
        v.len() > 0 && seg_match(p.drop_first(), v.drop_first())
    } else {
        v.len() > 0 && p[0] == v[0] && seg_match(p.drop_first(), v.drop_first())
    }
}

/// A pattern without wildcards matches exactly itself.
pub proof fn lemma_seg_match_literal(p: Seq<char>, v: Seq<char>)
    requires
        !has_glob(p),
    ensures
        seg_match(p, v) == (p == v),
    decreases p.len() + v.len(),
{
    if p.len() > 0 {
        assert(!p.drop_first().contains('*') && !p.drop_first().contains('?')) by {
            if p.drop_first().contains('*') {
                let k = choose|k: int| 0 <= k < p.drop_first().len() && p.drop_first()[k] == '*';
                assert(p[k + 1] == '*');
            }
            if p.drop_first().contains('?') {
                let k = choose|k: int| 0 <= k < p.drop_first().len() && p.drop_first()[k] == '?';
                assert(p[k + 1] == '?');
            }
        }
        assert(p[0] != '*' && p[0] != '?') by {
            assert(p.contains(p[0]));
        }
        if v.len() > 0 {
            lemma_seg_match_literal(p.drop_first(), v.drop_first());
            if p[0] == v[0] && p.drop_first() == v.drop_first() {
                assert(p =~= v) by {
                    assert forall|k: int| 0 <= k < p.len() implies p[k] == v[k] by {
                        if k > 0 {
                            assert(p[k] == p.drop_first()[k - 1]);
                            assert(v[k] == v.drop_first()[k - 1]);
                        }
                    }
                }
            }
            if p == v {
                assert(p.drop_first() == v.drop_first());
            }
        } else {
            assert(p != v);
        }
    } else {
        if p != v {
            assert(v.len() != 0 || p =~= v);
        }
    }
}

/// A pattern without wildcards compares for equality,
/// otherwise it is a wildcard match.
pub open spec fn segment_glob(p: Seq<char>, v: Seq<char>) -> bool {
    if !has_glob(p) {
        p == v
    } else {
        seg_match(p, v)
    }
}

pub fn contains_glob_chars(value: &[char]) -> (r: bool)
    ensures
        r == has_glob(value@),
{
    contains_char(value, '*') || contains_char(value, '?')
}

/// Whether the value holds `*` or `?`.
pub fn contains_glob(value: &str) -> (r: bool)
    ensures
        r == has_glob(value@),
{
    let v = chars_of(value);
    contains_glob_chars(v.as_slice())
}

proof fn lemma_seg_step(p: Seq<char>, v: Seq<char>, i: int, j: int)
    requires
        0 <= i < p.len(),
        0 <= j <= v.len(),
    ensures
        seg_match(p.skip(i), v.skip(j)) == if p[i] == '*' {
            seg_match(p.skip(i + 1), v.skip(j)) || (j < v.len() && seg_match(p.skip(i), v.skip(j + 1)))
        } else if p[i] == '?' {
            j < v.len() && seg_match(p.skip(i + 1), v.skip(j + 1))
        } else {
            j < v.len() && p[i] == v[j] && seg_match(p.skip(i + 1), v.skip(j + 1))
        },
{
    assert(p.skip(i).drop_first() =~= p.skip(i + 1));
    if j < v.len() {
        assert(v.skip(j).drop_first() =~= v.skip(j + 1));
    }
}

/// Wildcard match of one segment, by dynamic programming over suffixes.
pub fn seg_match_chars(p: &[char], v: &[char]) -> (r: bool)
    ensures
        r == seg_match(p@, v@),
{
    let pn = p.len();
    let vn = v.len();
    // row for the empty pattern suffix
    let mut next: Vec<bool> = Vec::new();
    let mut j: usize = 0;
    proof {
        assert(p@.skip(pn as int).len() == 0);
    }
    while j < vn
        invariant
            vn == v@.len(),
            j <= vn,
            next@.len() == j,
            forall|k: int| 0 <= k < j ==> #[trigger] next@[k] == seg_match(p@.skip(pn as int), v@.skip(k)),
            pn == p@.len(),
            p@.skip(pn as int).len() == 0,
        decreases vn - j,
    {
        next.push(false);
        j += 1;
    }
    next.push(true);
    let mut i: usize = pn;
    while i > 0
        invariant
            pn == p@.len(),
            vn == v@.len(),
            i <= pn,
            next@.len() == vn + 1,
            forall|k: int| 0 <= k <= vn ==> #[trigger] next@[k] == seg_match(p@.skip(i as int), v@.skip(k)),
        decreases i,
    {
        let pi = i - 1;
        let pc = p[pi];
        let mut cur: Vec<bool> = Vec::new();
        let mut k: usize = 0;
        while k < vn
            invariant
                vn == v@.len(),
                k <= vn,
                cur@.len() == k,
            decreases vn - k,
        {
            cur.push(false);
            k += 1;
        }
        proof {
            lemma_seg_step(p@, v@, pi as int, vn as int);
        }
        let last = if pc == '*' {
            next[vn]
        } else {
            false
        };
        cur.push(last);
        let mut jj: usize = vn;
        while jj > 0
            invariant
                pn == p@.len(),
                vn == v@.len(),
                i <= pn,
                pi + 1 == i,
                pc == p@[pi as int],
                jj <= vn,
                next@.len() == vn + 1,
                cur@.len() == vn + 1,
                forall|k: int| 0 <= k <= vn ==> #[trigger] next@[k] == seg_match(p@.skip(i as int), v@.skip(k)),
                forall|k: int| jj <= k <= vn ==> #[trigger] cur@[k] == seg_match(p@.skip(pi as int), v@.skip(k)),
            decreases jj,
        {
            let j = jj - 1;
            proof {
                lemma_seg_step(p@, v@, pi as int, j as int);
            }
            let val = if pc == '*' {
                next[j] || cur[j + 1]
            } else if pc == '?' {
                next[j + 1]
            } else {
                pc == v[j] && next[j + 1]
            };
            cur.set(j, val);
            jj = j;
        }
        next = cur;
        i = pi;
    }
    proof {
        assert(p@.skip(0) =~= p@);
        assert(v@.skip(0) =~= v@);
    }
    next[0]
}

/// Whether a single path segment matches a glob segment (`*` and `?` stay within the segment).
pub fn segment_glob_matches_chars(pattern: &[char], value: &[char]) -> (r: bool)
    ensures
        r == segment_glob(pattern@, value@),
{
    if !contains_glob_chars(pattern) {
        return chars_eq(pattern, value);
    }
    seg_match_chars(pattern, value)
}

/// Whether one path segment matches a glob segment.
pub fn segment_glob_matches(pattern: &str, value: &str) -> (r: bool)
    ensures
        r == segment_glob(pattern@, value@),
{
    let p = chars_of(pattern);
    let v = chars_of(value);
    segment_glob_matches_chars(p.as_slice(), v.as_slice())
}

// ---------------------------------------------------------------------
// Segment lists
// ---------------------------------------------------------------------

/// The views of a list of character vectors.
pub open spec fn views(v: Seq<Vec<char>>) -> Seq<Seq<char>> {
    v.map_values(|x: Vec<char>| x@)
}

/// Drop the empty pieces of a list.
pub open spec fn drop_empty(ss: Seq<Seq<char>>) -> Seq<Seq<char>>
    decreases ss.len(),
{
    if ss.len() == 0 {
        seq![]
    } else if ss.last().len() == 0 {
        drop_empty(ss.drop_last())
    } else {
        drop_empty(ss.drop_last()).push(ss.last())
    }
}

/// The non-empty `/`-separated segments of a path.
pub open spec fn path_segments(s: Seq<char>) -> Seq<Seq<char>> {
    drop_empty(split_char(s, '/'))
}

/// The segments of a path, without empty ones.
pub fn path_segments_of(s: &[char]) -> (out: Vec<Vec<char>>)
    ensures
        views(out@) == path_segments(s@),
{
    let parts = split_char_chars(s, '/');
    let ghost all = split_char(s@, '/');
    let mut out: Vec<Vec<char>> = Vec::new();
    let mut i: usize = 0;
    while i < parts.len()
        invariant
            i <= parts@.len(),
            parts@.len() == all.len(),
            forall|k: int| 0 <= k < parts@.len() ==> #[trigger] parts@[k]@ == all[k],
            views(out@) == drop_empty(all.take(i as int)),
        decreases parts@.len() - i,
    {
        let piece = parts[i].clone();
        proof {
            assert(all.take(i + 1).drop_last() =~= all.take(i as int));
            assert(all.take(i + 1).last() == all[i as int]);
        }
        if piece.len() > 0 {
            let ghost before = out@;
            out.push(piece);
            proof {
                assert(views(out@) =~= views(before).push(all[i as int]));
            }
        }
        i += 1;
    }
    proof {
        assert(all.take(parts@.len() as int) =~= all);
    }
    out
}

pub open spec fn is_double_star(s: Seq<char>) -> bool {
    s.len() == 2 && s[0] == '*' && s[1] == '*'
}

/// Match of segment lists: a `**` segment matches any number (zero or more)
/// of whole path segments; any other pattern segment matches exactly one.
pub open spec fn segs_match(ps: Seq<Seq<char>>, xs: Seq<Seq<char>>) -> bool
    decreases ps.len() + xs.len(),
{
    if ps.len() == 0 {
        xs.len() == 0
    } else if is_double_star(ps[0]) {
        segs_match(ps.drop_first(), xs) || (xs.len() > 0 && segs_match(ps, xs.drop_first()))
    } else {
        xs.len() > 0 && segment_glob(ps[0], xs[0]) && segs_match(ps.drop_first(), xs.drop_first())
    }
}

proof fn lemma_segs_step(ps: Seq<Seq<char>>, xs: Seq<Seq<char>>, i: int, j: int)
    requires
        0 <= i <= ps.len(),
        0 <= j <= xs.len(),
    ensures
        segs_match(ps.skip(i), xs.skip(j)) == if i == ps.len() {
            j == xs.len()
        } else if is_double_star(ps[i]) {
            segs_match(ps.skip(i + 1), xs.skip(j)) || (j < xs.len() && segs_match(ps.skip(i), xs.skip(j + 1)))
        } else {
            j < xs.len() && segment_glob(ps[i], xs[j]) && segs_match(ps.skip(i + 1), xs.skip(j + 1))
        },
{
    if i < ps.len() {
        assert(ps.skip(i).drop_first() =~= ps.skip(i + 1));
        assert(ps.skip(i)[0] == ps[i]);
    }
    if j < xs.len() {
        assert(xs.skip(j).drop_first() =~= xs.skip(j + 1));
        assert(xs.skip(j)[0] == xs[j]);
    }
}

fn is_double_star_exec(s: &[char]) -> (r: bool)
    ensures
        r == is_double_star(s@),
{
    s.len() == 2 && s[0] == '*' && s[1] == '*'
}

fn segs_match_from(ps: &Vec<Vec<char>>, i: usize, xs: &Vec<Vec<char>>, j: usize) -> (r: bool)
    requires
        i <= ps@.len(),
        j <= xs@.len(),
    ensures
        r == segs_match(views(ps@).skip(i as int), views(xs@).skip(j as int)),
    decreases ps@.len() - i + xs@.len() - j,
{
    proof {
        lemma_segs_step(views(ps@), views(xs@), i as int, j as int);
    }
    if i == ps.len() {
        return j == xs.len();
    }
    if is_double_star_exec(ps[i].as_slice()) {
        if segs_match_from(ps, i + 1, xs, j) {
            return true;
        }
        return j < xs.len() && segs_match_from(ps, i, xs, j + 1);
    }
    if j >= xs.len() {
        return false;
    }
    if !segment_glob_matches_chars(ps[i].as_slice(), xs[j].as_slice()) {
        return false;
    }
    segs_match_from(ps, i + 1, xs, j + 1)
}

/// Whether the segments of a path match those of a glob; `**` stands for any number of segments.
pub fn glob_segments_match(pattern_segments: &Vec<Vec<char>>, path_segments: &Vec<Vec<char>>) -> (r: bool)
    ensures
        r == segs_match(views(pattern_segments@), views(path_segments@)),
{
    proof {
        assert(views(pattern_segments@).skip(0) =~= views(pattern_segments@));
        assert(views(path_segments@).skip(0) =~= views(path_segments@));
    }
    segs_match_from(pattern_segments, 0, path_segments, 0)
}

/// Glob match of a whole slash-separated path.
pub open spec fn path_glob(pattern: Seq<char>, path: Seq<char>) -> bool {
    segs_match(path_segments(pattern), path_segments(path))
}

pub fn glob_matches_chars(pattern: &[char], path: &[char]) -> (r: bool)
    ensures
        r == path_glob(pattern@, path@),
{
    let ps = path_segments_of(pattern);
    let xs = path_segments_of(path);
    glob_segments_match(&ps, &xs)
}

/// The whole path matches the glob.
pub fn glob_matches(pattern: &str, path: &str) -> (r: bool)
    ensures
        r == path_glob(pattern@, path@),
{
    let p = chars_of(pattern);
    let x = chars_of(path);
    glob_matches_chars(p.as_slice(), x.as_slice())
}

// ---------------------------------------------------------------------
// Ancestors and prefixes
// ---------------------------------------------------------------------

/// Segments joined by `/`.
pub open spec fn join_slash(ss: Seq<Seq<char>>) -> Seq<char>
    decreases ss.len(),
{
    if ss.len() == 0 {
        seq![]
    } else if ss.len() == 1 {
        ss[0]
    } else {
        join_slash(ss.drop_last()) + seq!['/'] + ss.last()
    }
}

/// The directories that contain a path, outermost first: `a/b/c` gives `a`
/// and `a/b`.
pub open spec fn ancestors(path: Seq<char>) -> Seq<Seq<char>> {
    let segs = path_segments(path);
    if segs.len() <= 1 {
        seq![]
    } else {
        Seq::new((segs.len() - 1) as nat, |k: int| join_slash(segs.take(k + 1)))
    }
}

proof fn lemma_drop_empty_nonempty(ss: Seq<Seq<char>>)
    ensures
        forall|k: int| 0 <= k < drop_empty(ss).len() ==> #[trigger] drop_empty(ss)[k].len() > 0,
    decreases ss.len(),
{
    if ss.len() > 0 {
        lemma_drop_empty_nonempty(ss.drop_last());
        let d = drop_empty(ss.drop_last());
        if ss.last().len() != 0 {
            assert forall|k: int| 0 <= k < d.push(ss.last()).len() implies #[trigger] d.push(
                ss.last(),
            )[k].len() > 0 by {
                if k < d.len() {
                    assert(d.push(ss.last())[k] == d[k]);
                }
            }
        }
    }
}

pub proof fn lemma_path_segments_nonempty(s: Seq<char>)
    ensures
        forall|k: int| 0 <= k < path_segments(s).len() ==> #[trigger] path_segments(s)[k].len() > 0,
{
    lemma_drop_empty_nonempty(split_char(s, '/'));
}

pub fn ancestor_directory_paths_chars(path: &[char]) -> (out: Vec<Vec<char>>)
    ensures
        views(out@) == ancestors(path@),
{
    let segs = path_segments_of(path);
    let ghost ss = path_segments(path@);
    proof {
        lemma_path_segments_nonempty(path@);
        assert(views(segs@).len() == segs@.len());
    }
    let mut out: Vec<Vec<char>> = Vec::new();
    if segs.len() <= 1 {
        proof {
            assert(views(out@) =~= ancestors(path@));
        }
        return out;
    }
    let mut current: Vec<char> = Vec::new();
    let mut i: usize = 0;
    while i < segs.len() - 1
        invariant
            views(segs@) == ss,
            segs@.len() == ss.len(),
            ss.len() > 1,
            i < ss.len(),
            forall|k: int| 0 <= k < ss.len() ==> #[trigger] ss[k].len() > 0,
            out@.len() == i,
            i > 0 ==> current@ == join_slash(ss.take(i as int)),
            i == 0 ==> current@.len() == 0,
            forall|k: int| 0 <= k < i ==> #[trigger] out@[k]@ == join_slash(ss.take(k + 1)),
        decreases ss.len() - i,
    {
        let seg = &segs[i];
        assert(seg@ == ss[i as int]);
        if current.len() > 0 {
            current.push('/');
        }
        let mut k: usize = 0;
        let ghost base = current@;
        while k < seg.len()
            invariant
                k <= seg@.len(),
                current@ == base + seg@.take(k as int),
            decreases seg@.len() - k,
        {
            current.push(seg[k]);
            k += 1;
            assert(current@ =~= base + seg@.take(k as int));
        }
        proof {
            assert(seg@.take(seg@.len() as int) =~= seg@);
            let t = ss.take(i + 1);
            assert(t.drop_last() =~= ss.take(i as int));
            assert(t.last() == ss[i as int]);
            if i == 0 {
                assert(t.len() == 1);
                assert(current@ =~= t[0]);
            } else {
                assert(join_slash(ss.take(i as int)).len() > 0) by {
                    lemma_join_nonempty(ss.take(i as int));
                }
            }
        }
        out.push(current.clone());
        i += 1;
    }
    proof {
        assert(views(out@) =~= ancestors(path@));
    }
    out
}

proof fn lemma_join_nonempty(ss: Seq<Seq<char>>)
    requires
        ss.len() > 0,
        forall|k: int| 0 <= k < ss.len() ==> #[trigger] ss[k].len() > 0,
    ensures
        join_slash(ss).len() > 0,
    decreases ss.len(),
{
    if ss.len() > 1 {
        assert(ss.last().len() > 0);
    } else {
        assert(ss[0].len() > 0);
    }
}

/// The ancestor directories of a relative path, shortest first.
pub fn ancestor_directory_paths(path: &str) -> (out: Vec<String>)
    ensures
        out@.len() == ancestors(path@).len(),
        forall|k: int| 0 <= k < out@.len() ==> #[trigger] out@[k]@ == ancestors(path@)[k],
{
    let p = chars_of(path);
    let parts = ancestor_directory_paths_chars(p.as_slice());
    let mut out: Vec<String> = Vec::new();
    let mut i: usize = 0;
    while i < parts.len()
        invariant
            i <= parts@.len(),
            views(parts@) == ancestors(path@),
            out@.len() == i,
            forall|k: int| 0 <= k < i ==> #[trigger] out@[k]@ == ancestors(path@)[k],
        decreases parts@.len() - i,
    {
        assert(parts@[i as int]@ == views(parts@)[i as int]);
        out.push(string_from(parts[i].as_slice()));
        i += 1;
    }
    out
}

/// `path == prefix` or `path` starts with `prefix/`.
pub open spec fn path_has_prefix(path: Seq<char>, prefix: Seq<char>) -> bool {
    path == prefix || starts_with(path, prefix + seq!['/'])
}

pub fn path_starts_with_chars(path: &[char], prefix: &[char]) -> (r: bool)
    ensures
        r == path_has_prefix(path@, prefix@),
{
    if chars_eq(path, prefix) {
        return true;
    }
    let mut with_slash: Vec<char> = slice_chars(prefix, 0, prefix.len());
    with_slash.push('/');
    assert(with_slash@ =~= prefix@ + seq!['/']);
    starts_with_chars(path, with_slash.as_slice())
}

/// Whether a path equals the prefix or lies below it.
pub fn path_starts_with(path: &str, prefix: &str) -> (r: bool)
    ensures
        r == path_has_prefix(path@, prefix@),
{
    let p = chars_of(path);
    let q = chars_of(prefix);
    path_starts_with_chars(p.as_slice(), q.as_slice())
}

/// Some `/`-separated component (empty ones included) matches the pattern.
pub open spec fn some_component_matches(path: Seq<char>, pattern: Seq<char>) -> bool {
    exists|k: int| 0 <= k < split_char(path, '/').len() && #[trigger] segment_glob(pattern, split_char(path, '/')[k])
}

pub fn path_component_matches_chars(path: &[char], pattern: &[char]) -> (r: bool)
    ensures
        r == some_component_matches(path@, pattern@),
{
    let parts = split_char_chars(path, '/');
    let mut i: usize = 0;
    while i < parts.len()
        invariant
            i <= parts@.len(),
            parts@.len() == split_char(path@, '/').len(),
            forall|k: int| 0 <= k < parts@.len() ==> #[trigger] parts@[k]@ == split_char(path@, '/')[k],
            forall|k: int| 0 <= k < i ==> !segment_glob(pattern@, #[trigger] split_char(path@, '/')[k]),
        decreases parts@.len() - i,
    {
        if segment_glob_matches_chars(pattern, parts[i].as_slice()) {
            return true;
        }
        i += 1;
    }
    false
}

/// Whether some component of a path matches the glob.
pub fn path_component_matches(path: &str, pattern: &str) -> (r: bool)
    ensures
        r == some_component_matches(path@, pattern@),
{
    let p = chars_of(path);
    let q = chars_of(pattern);
    path_component_matches_chars(p.as_slice(), q.as_slice())
}

/// Some ancestor directory of `path` matches the glob.
pub open spec fn some_ancestor_glob(pattern: Seq<char>, path: Seq<char>) -> bool {
    exists|k: int| 0 <= k < ancestors(path).len() && #[trigger] path_glob(pattern, ancestors(path)[k])
}

pub fn any_ancestor_glob(pattern: &[char], path: &[char]) -> (r: bool)
    ensures
        r == some_ancestor_glob(pattern@, path@),
{
    let anc = ancestor_directory_paths_chars(path);
    let mut i: usize = 0;
    while i < anc.len()
        invariant
            i <= anc@.len(),
            views(anc@) == ancestors(path@),
            forall|k: int| 0 <= k < i ==> !path_glob(pattern@, #[trigger] ancestors(path@)[k]),
        decreases anc@.len() - i,
    {
        assert(anc@[i as int]@ == ancestors(path@)[i as int]);
        if glob_matches_chars(pattern, anc[i].as_slice()) {
            return true;
        }
        i += 1;
    }
    false
}

/// A `files` entry includes a file: a glob entry matches the file or one of
/// its directories, a plain entry is the file or one of its directories.
pub open spec fn entry_includes(pattern: Seq<char>, path: Seq<char>) -> bool {
    if has_glob(pattern) {
        path_glob(pattern, path) || some_ancestor_glob(pattern, path)
    } else {
        path_has_prefix(path, pattern)
    }
}

/// Whether a `files` entry of `package.json` includes the path: the entry matches it or one of its ancestors.
pub fn files_entry_includes_file(pattern: &str, path: &str) -> (r: bool)
    ensures
        r == entry_includes(pattern@, path@),
{
    let p = chars_of(pattern);
    let x = chars_of(path);
    if contains_glob_chars(p.as_slice()) {
        glob_matches_chars(p.as_slice(), x.as_slice()) || any_ancestor_glob(p.as_slice(), x.as_slice())
    } else {
        path_starts_with_chars(x.as_slice(), p.as_slice())
    }
}

} // verus!
