//! Exact `.gitignore` protection of concrete env files: a small gitignore
//! pattern language (`*`, `?`, `**`, `**/`) and the last-match-wins rule.
use vstd::prelude::*;
use crate::glob::views;
use crate::text::{
    chars_of, contains_char, lines, lines_of, replace_char, replace_char_chars, slice_chars,
    split_char, split_char_chars, string_from, trim_end, trim_end_char, trim_end_char_chars,
    trim_end_chars, trim_start_char, trim_start_char_chars, trim_start_pat, trim_start_pat_chars,
};

verus! {

/// Gitignore wildcard match.  `**/` matches any run of whole directories
/// (including none), `**` elsewhere any run of characters, `*` any run of
/// characters without `/`, `?` one character other than `/`.
pub open spec fn gi_match(p: Seq<char>, v: Seq<char>) -> bool
    decreases p.len(), v.len(),
{
    if p.len() == 0 {
        v.len() == 0
    } else if p.len() >= 2 && p[0] == '*' && p[1] == '*' {
        if p.len() >= 3 && p[2] == '/' {
            gi_match(p.skip(3), v) || gi_after_slash(p.skip(3), v)
        } else {
            gi_match(p.skip(2), v) || (v.len() > 0 && gi_match(p, v.drop_first()))
        }
    } else if p[0] == '*' {
        gi_match(p.drop_first(), v) || (v.len() > 0 && v[0] != '/' && gi_match(p, v.drop_first()))
    } else if p[0] == '?' {
        v.len() > 0 && v[0] != '/' && gi_match(p.drop_first(), v.drop_first())
    } else {
        v.len() > 0 && v[0] == p[0] && gi_match(p.drop_first(), v.drop_first())
    }
}

/// `q` matches what follows some `/` of `v`.
pub open spec fn gi_after_slash(q: Seq<char>, v: Seq<char>) -> bool
    decreases q.len(), v.len(),
{
    v.len() > 0 && ((v[0] == '/' && gi_match(q, v.drop_first())) || gi_after_slash(q, v.drop_first()))
}

proof fn lemma_gi_step(p: Seq<char>, v: Seq<char>, i: int, j: int)
    requires
        0 <= i <= p.len(),
        0 <= j <= v.len(),
    ensures
        gi_match(p.skip(i), v.skip(j)) == if i == p.len() {
            j == v.len()
        } else if i + 2 <= p.len() && p[i] == '*' && p[i + 1] == '*' {
            if i + 3 <= p.len() && p[i + 2] == '/' {
                gi_match(p.skip(i + 3), v.skip(j)) || gi_after_slash(p.skip(i + 3), v.skip(j))
            } else {
                gi_match(p.skip(i + 2), v.skip(j)) || (j < v.len() && gi_match(p.skip(i), v.skip(j + 1)))
            }
        } else if p[i] == '*' {
            gi_match(p.skip(i + 1), v.skip(j)) || (j < v.len() && v[j] != '/' && gi_match(p.skip(i), v.skip(j + 1)))
        } else if p[i] == '?' {
            j < v.len() && v[j] != '/' && gi_match(p.skip(i + 1), v.skip(j + 1))
        } else {
            j < v.len() && v[j] == p[i] && gi_match(p.skip(i + 1), v.skip(j + 1))
        },
{
    if i < p.len() {
        assert(p.skip(i).drop_first() =~= p.skip(i + 1));
        if i + 2 <= p.len() {
            assert(p.skip(i).skip(2) =~= p.skip(i + 2));
        }
        if i + 3 <= p.len() {
            assert(p.skip(i).skip(3) =~= p.skip(i + 3));
        }
    }
    if j < v.len() {
        assert(v.skip(j).drop_first() =~= v.skip(j + 1));
    }
}

proof fn lemma_after_step(q: Seq<char>, v: Seq<char>, j: int)
    requires
        0 <= j <= v.len(),
    ensures
        gi_after_slash(q, v.skip(j)) == (j < v.len() && ((v[j] == '/' && gi_match(q, v.skip(j + 1)))
            || gi_after_slash(q, v.skip(j + 1)))),
{
    if j < v.len() {
        assert(v.skip(j).drop_first() =~= v.skip(j + 1));
    }
}

/// One cell of the match table, from the cells it depends on.
fn gi_cell(
    p: &[char],
    v: &[char],
    i: usize,
    j: usize,
    rows: &Vec<Vec<bool>>,
    next: bool,
    next_after: bool,
) -> (r: (bool, bool))
    requires
        i < p@.len(),
        j <= v@.len(),
        rows@.len() == p@.len() - i,
        forall|r: int|
            0 <= r < rows@.len() ==> #[trigger] rows@[r]@.len() == v@.len() + 1,
        forall|r: int, k: int|
            0 <= r < rows@.len() && 0 <= k <= v@.len() ==> #[trigger] rows@[r]@[k] == gi_match(
                p@.skip(p@.len() - r),
                v@.skip(k),
            ),
        j < v@.len() ==> next == gi_match(p@.skip(i as int), v@.skip(j + 1)),
        j < v@.len() && i + 3 <= p@.len() ==> next_after == gi_after_slash(p@.skip(i + 3), v@.skip(j + 1)),
    ensures
        r.0 == gi_match(p@.skip(i as int), v@.skip(j as int)),
        i + 3 <= p@.len() ==> r.1 == gi_after_slash(p@.skip(i + 3), v@.skip(j as int)),
{
    let pn = p.len();
    let vn = v.len();
    proof {
        lemma_gi_step(p@, v@, i as int, j as int);
        if i + 3 <= pn {
            lemma_after_step(p@.skip(i + 3), v@, j as int);
        }
    }
    let after = if pn - i >= 3 {
        let r3 = pn - (i + 3);
        if j < vn {
            (v[j] == '/' && rows[r3][j + 1]) || next_after
        } else {
            false
        }
    } else {
        false
    };
    let double = i + 1 < pn && p[i] == '*' && p[i + 1] == '*';
    let val = if double {
        if i + 2 < pn && p[i + 2] == '/' {
            let r3 = pn - (i + 3);
            rows[r3][j] || after
        } else {
            let r2 = pn - (i + 2);
            rows[r2][j] || (j < vn && next)
        }
    } else if p[i] == '*' {
        let r1 = pn - (i + 1);
        rows[r1][j] || (j < vn && v[j] != '/' && next)
    } else if p[i] == '?' {
        let r1 = pn - (i + 1);
        j < vn && v[j] != '/' && rows[r1][j + 1]
    } else {
        let r1 = pn - (i + 1);
        j < vn && v[j] == p[i] && rows[r1][j + 1]
    };
    (val, after)
}

/// One row of the match table: `row[j]` is the match of pattern suffix `i`
/// against value suffix `j`.
fn gi_row(p: &[char], v: &[char], i: usize, rows: &Vec<Vec<bool>>) -> (row: Vec<bool>)
    requires
        i < p@.len(),
        rows@.len() == p@.len() - i,
        forall|r: int|
            0 <= r < rows@.len() ==> #[trigger] rows@[r]@.len() == v@.len() + 1,
        forall|r: int, j: int|
            0 <= r < rows@.len() && 0 <= j <= v@.len() ==> #[trigger] rows@[r]@[j] == gi_match(
                p@.skip(p@.len() - r),
                v@.skip(j),
            ),
    ensures
        row@.len() == v@.len() + 1,
        forall|j: int| 0 <= j <= v@.len() ==> #[trigger] row@[j] == gi_match(p@.skip(i as int), v@.skip(j)),
{
    let pn = p.len();
    let vn = v.len();
    let mut row: Vec<bool> = Vec::new();
    let mut after: Vec<bool> = Vec::new();
    let mut k: usize = 0;
    while k < vn
        invariant
            vn == v@.len(),
            k <= vn,
            row@.len() == k,
            after@.len() == k,
        decreases vn - k,
    {
        row.push(false);
        after.push(false);
        k += 1;
    }
    let (x, a) = gi_cell(p, v, i, vn, rows, false, false);
    row.push(x);
    after.push(a);
    let mut jj: usize = vn;
    while jj > 0
        invariant
            pn == p@.len(),
            vn == v@.len(),
            i < pn,
            rows@.len() == pn - i,
            forall|r: int|
                0 <= r < rows@.len() ==> #[trigger] rows@[r]@.len() == v@.len() + 1,
            forall|r: int, j: int|
                0 <= r < rows@.len() && 0 <= j <= v@.len() ==> #[trigger] rows@[r]@[j] == gi_match(
                    p@.skip(pn - r),
                    v@.skip(j),
                ),
            row@.len() == vn + 1,
            after@.len() == vn + 1,
            jj <= vn,
            forall|j: int| jj <= j <= vn ==> #[trigger] row@[j] == gi_match(p@.skip(i as int), v@.skip(j)),
            i + 3 <= pn ==> forall|j: int|
                jj <= j <= vn ==> #[trigger] after@[j] == gi_after_slash(p@.skip(i + 3), v@.skip(j)),
        decreases jj,
    {
        let j = jj - 1;
        let (x, a) = gi_cell(p, v, i, j, rows, row[j + 1], after[j + 1]);
        row.set(j, x);
        after.set(j, a);
        jj = j;
    }
    row
}

/// Gitignore-style wildcard match of a whole value.
pub fn gitignore_pattern_matches(pattern: &str, value: &str) -> (r: bool)
    ensures
        r == gi_match(pattern@, value@),
{
    let p = chars_of(pattern);
    let v = chars_of(value);
    gitignore_pattern_matches_chars(p.as_slice(), v.as_slice())
}

pub fn gitignore_pattern_matches_chars(p: &[char], v: &[char]) -> (r: bool)
    ensures
        r == gi_match(p@, v@),
{
    let pn = p.len();
    let vn = v.len();
    let mut base: Vec<bool> = Vec::new();
    let mut k: usize = 0;
    while k < vn
        invariant
            vn == v@.len(),
            k <= vn,
            base@.len() == k,
            forall|j: int| 0 <= j < k ==> #[trigger] base@[j] == false,
        decreases vn - k,
    {
        base.push(false);
        k += 1;
    }
    base.push(true);
    proof {
        assert(p@.skip(pn as int).len() == 0);
        assert forall|j: int| 0 <= j <= vn implies #[trigger] base@[j] == gi_match(
            p@.skip(pn as int),
            v@.skip(j),
        ) by {
            assert(v@.skip(j).len() == vn - j);
        }
    }
    let mut rows: Vec<Vec<bool>> = Vec::new();
    rows.push(base);
    let mut i: usize = pn;
    while i > 0
        invariant
            pn == p@.len(),
            vn == v@.len(),
            i <= pn,
            rows@.len() == pn - i + 1,
            forall|r: int|
                0 <= r < rows@.len() ==> #[trigger] rows@[r]@.len() == v@.len() + 1,
            forall|r: int, j: int|
                0 <= r < rows@.len() && 0 <= j <= v@.len() ==> #[trigger] rows@[r]@[j] == gi_match(
                    p@.skip(pn - r),
                    v@.skip(j),
                ),
        decreases i,
    {
        let row = gi_row(p, v, i - 1, &rows);
        rows.push(row);
        i -= 1;
    }
    proof {
        assert(p@.skip(0) =~= p@);
        assert(v@.skip(0) =~= v@);
    }
    rows[pn][0]
}

// ---------------------------------------------------------------------
// Patterns
// ---------------------------------------------------------------------

/// A normalized gitignore pattern.
pub struct NormalizedGitignorePattern {
    pub value: String,
    pub anchored: bool,
    pub directory_only: bool,
}

/// One parsed `.gitignore` line.
pub struct ExactGitignorePattern {
    pub pattern: String,
    pub negated: bool,
    pub anchored: bool,
    pub directory_only: bool,
}

pub struct GitignoreModel {
    pub pattern: Seq<char>,
    pub negated: bool,
    pub anchored: bool,
    pub directory_only: bool,
}

impl View for ExactGitignorePattern {
    type V = GitignoreModel;

    open spec fn view(&self) -> GitignoreModel {
        GitignoreModel {
            pattern: self.pattern@,
            negated: self.negated,
            anchored: self.anchored,
            directory_only: self.directory_only,
        }
    }
}

/// Backslashes become slashes and leading `./` runs are removed.
pub open spec fn gi_normalized(pattern: Seq<char>) -> Seq<char> {
    trim_start_pat(replace_char(pattern, '\\', '/'), seq!['.', '/'])
}

/// `(value, anchored, directory_only)`, or
/// nothing when no value is left.
pub open spec fn normalize_gitignore(pattern: Seq<char>) -> Option<(Seq<char>, bool, bool)> {
    let n = gi_normalized(pattern);
    let value = trim_end_char(trim_start_char(n, '/'), '/');
    if value.len() == 0 {
        None
    } else {
        Some((value, n.len() > 0 && n[0] == '/', n.len() > 0 && n.last() == '/'))
    }
}

fn normalize_gitignore_chars(pattern: &[char]) -> (out: Option<(Vec<char>, bool, bool)>)
    ensures
        match out {
            Some((v, a, d)) => normalize_gitignore(pattern@) == Some((v@, a, d)),
            None => normalize_gitignore(pattern@) is None,
        },
{
    let r = replace_char_chars(pattern, '\\', '/');
    let dot_slash: Vec<char> = vec!['.', '/'];
    assert(dot_slash@ =~= seq!['.', '/']);
    let n = trim_start_pat_chars(r.as_slice(), dot_slash.as_slice());
    let anchored = n.len() > 0 && n[0] == '/';
    let directory_only = n.len() > 0 && n[n.len() - 1] == '/';
    let a = trim_start_char_chars(n.as_slice(), '/');
    let value = trim_end_char_chars(a.as_slice(), '/');
    if value.len() == 0 {
        None
    } else {
        Some((value, anchored, directory_only))
    }
}

/// A gitignore line as a pattern: blank lines, comments and negations give none; otherwise the text with its anchoring and directory-only flags.
pub fn normalize_gitignore_pattern(pattern: &str) -> (out: Option<NormalizedGitignorePattern>)
    ensures
        match out {
            Some(n) => normalize_gitignore(pattern@) == Some((n.value@, n.anchored, n.directory_only)),
            None => normalize_gitignore(pattern@) is None,
        },
{
    let p = chars_of(pattern);
    match normalize_gitignore_chars(p.as_slice()) {
        Some((v, anchored, directory_only)) => Some(
            NormalizedGitignorePattern { value: string_from(v.as_slice()), anchored, directory_only },
        ),
        None => None,
    }
}

/// The pattern one `.gitignore` line holds, if any.
pub open spec fn gitignore_line(line: Seq<char>) -> Option<GitignoreModel> {
    let l = trim_end(line);
    if l.len() == 0 || l[0] == '#' {
        None
    } else {
        let negated = l[0] == '!';
        let raw = if negated {
            l.skip(1)
        } else {
            l
        };
        match normalize_gitignore(raw) {
            Some((v, a, d)) => Some(
                GitignoreModel { pattern: v, negated, anchored: a, directory_only: d },
            ),
            None => None,
        }
    }
}

pub open spec fn gitignore_patterns(ls: Seq<Seq<char>>) -> Seq<GitignoreModel>
    decreases ls.len(),
{
    if ls.len() == 0 {
        seq![]
    } else {
        match gitignore_line(ls.last()) {
            Some(p) => gitignore_patterns(ls.drop_last()).push(p),
            None => gitignore_patterns(ls.drop_last()),
        }
    }
}

pub open spec fn gitignore_views(v: Seq<ExactGitignorePattern>) -> Seq<GitignoreModel> {
    v.map_values(|p: ExactGitignorePattern| p@)
}

/// The patterns of a `.gitignore` text, in order.
pub fn parse_exact_gitignore_patterns(text: &str) -> (out: Vec<ExactGitignorePattern>)
    ensures
        gitignore_views(out@) == gitignore_patterns(lines(text@)),
{
    let t = chars_of(text);
    let ls = lines_of(t.as_slice());
    let ghost all = lines(text@);
    let mut out: Vec<ExactGitignorePattern> = Vec::new();
    let mut i: usize = 0;
    while i < ls.len()
        invariant
            i <= ls@.len(),
            ls@.len() == all.len(),
            forall|k: int| 0 <= k < ls@.len() ==> #[trigger] ls@[k]@ == all[k],
            gitignore_views(out@) == gitignore_patterns(all.take(i as int)),
        decreases ls@.len() - i,
    {
        proof {
            assert(all.take(i + 1).drop_last() =~= all.take(i as int));
            assert(all.take(i + 1).last() == all[i as int]);
        }
        let l = trim_end_chars(ls[i].as_slice());
        if l.len() > 0 && l[0] != '#' {
            let negated = l[0] == '!';
            let raw = if negated {
                slice_chars(l.as_slice(), 1, l.len())
            } else {
                slice_chars(l.as_slice(), 0, l.len())
            };
            assert(raw@ =~= if negated {
                l@.skip(1)
            } else {
                l@
            });
            match normalize_gitignore_chars(raw.as_slice()) {
                Some((v, anchored, directory_only)) => {
                    let ghost before = out@;
                    out.push(
                        ExactGitignorePattern {
                            pattern: string_from(v.as_slice()),
                            negated,
                            anchored,
                            directory_only,
                        },
                    );
                    assert(gitignore_views(out@) =~= gitignore_views(before).push(out@.last()@));
                },
                None => {},
            }
        }
        i += 1;
    }
    assert(all.take(ls@.len() as int) =~= all);
    out
}

// ---------------------------------------------------------------------
// Directory prefixes
// ---------------------------------------------------------------------

/// The running prefix after the first `k` pieces: pieces are joined with
/// `/`, and no `/` is added while the prefix is still empty.
pub open spec fn dir_prefix(pieces: Seq<Seq<char>>, k: int) -> Seq<char>
    decreases k,
{
    if k <= 0 {
        seq![]
    } else {
        let prev = dir_prefix(pieces, k - 1);
        (if prev.len() > 0 {
            prev.push('/')
        } else {
            prev
        }) + pieces[k - 1]
    }
}

/// Each running prefix of the `/`-separated pieces.
pub open spec fn dir_ancestors(path: Seq<char>) -> Seq<Seq<char>> {
    let pieces = split_char(path, '/');
    Seq::new(pieces.len(), |k: int| dir_prefix(pieces, k + 1))
}

pub fn directory_ancestors_chars(directory_path: &[char]) -> (out: Vec<Vec<char>>)
    ensures
        views(out@) == dir_ancestors(directory_path@),
{
    let pieces = split_char_chars(directory_path, '/');
    let ghost ps = split_char(directory_path@, '/');
    let mut out: Vec<Vec<char>> = Vec::new();
    let mut current: Vec<char> = Vec::new();
    let mut i: usize = 0;
    while i < pieces.len()
        invariant
            i <= pieces@.len(),
            pieces@.len() == ps.len(),
            forall|k: int| 0 <= k < pieces@.len() ==> #[trigger] pieces@[k]@ == ps[k],
            current@ == dir_prefix(ps, i as int),
            out@.len() == i,
            forall|k: int| 0 <= k < i ==> #[trigger] out@[k]@ == dir_prefix(ps, k + 1),
        decreases pieces@.len() - i,
    {
        if current.len() > 0 {
            current.push('/');
        }
        let ghost base = current@;
        let seg = &pieces[i];
        let mut k: usize = 0;
        while k < seg.len()
            invariant
                k <= seg@.len(),
                current@ == base + seg@.take(k as int),
            decreases seg@.len() - k,
        {
            current.push(seg[k]);
            k += 1;
            assert(current@ =~= base + seg@.take(k as int));
        }
        assert(seg@.take(seg@.len() as int) =~= seg@);
        assert(current@ == dir_prefix(ps, i + 1));
        out.push(current.clone());
        i += 1;
    }
    assert(views(out@) =~= dir_ancestors(directory_path@));
    out
}

/// The directories from the given one up to the root, nearest first.
pub fn directory_ancestors(directory_path: &str) -> (out: Vec<String>)
    ensures
        out@.len() == dir_ancestors(directory_path@).len(),
        forall|k: int| 0 <= k < out@.len() ==> #[trigger] out@[k]@ == dir_ancestors(directory_path@)[k],
{
    let d = chars_of(directory_path);
    let parts = directory_ancestors_chars(d.as_slice());
    let mut out: Vec<String> = Vec::new();
    let mut i: usize = 0;
    while i < parts.len()
        invariant
            i <= parts@.len(),
            views(parts@) == dir_ancestors(directory_path@),
            out@.len() == i,
            forall|k: int| 0 <= k < i ==> #[trigger] out@[k]@ == dir_ancestors(directory_path@)[k],
        decreases parts@.len() - i,
    {
        assert(parts@[i as int]@ == views(parts@)[i as int]);
        out.push(string_from(parts[i].as_slice()));
        i += 1;
    }
    out
}

// ---------------------------------------------------------------------
// Matching files
// ---------------------------------------------------------------------

/// The path pieces that name something: empty and `.` pieces are dropped.
pub open spec fn named_pieces(ss: Seq<Seq<char>>) -> Seq<Seq<char>>
    decreases ss.len(),
{
    if ss.len() == 0 {
        seq![]
    } else if ss.last().len() == 0 || ss.last() == seq!['.'] {
        named_pieces(ss.drop_last())
    } else {
        named_pieces(ss.drop_last()).push(ss.last())
    }
}

/// `Path::file_name` of a `/`-separated path: its last named component,
/// unless that is `..`.
pub open spec fn path_file_name(path: Seq<char>) -> Option<Seq<char>> {
    let ns = named_pieces(split_char(path, '/'));
    if ns.len() == 0 || ns.last() == seq!['.', '.'] {
        None
    } else {
        Some(ns.last())
    }
}

pub fn path_file_name_chars(path: &[char]) -> (out: Option<Vec<char>>)
    ensures
        match out {
            Some(v) => path_file_name(path@) == Some(v@),
            None => path_file_name(path@) is None,
        },
{
    let pieces = split_char_chars(path, '/');
    let ghost ps = split_char(path@, '/');
    let mut last: Option<usize> = None;
    let mut i: usize = 0;
    while i < pieces.len()
        invariant
            i <= pieces@.len(),
            pieces@.len() == ps.len(),
            forall|k: int| 0 <= k < pieces@.len() ==> #[trigger] pieces@[k]@ == ps[k],
            match last {
                Some(k) => k < i && named_pieces(ps.take(i as int)).len() > 0 && named_pieces(
                    ps.take(i as int),
                ).last() == ps[k as int],
                None => named_pieces(ps.take(i as int)).len() == 0,
            },
        decreases pieces@.len() - i,
    {
        proof {
            assert(ps.take(i + 1).drop_last() =~= ps.take(i as int));
            assert(ps.take(i + 1).last() == ps[i as int]);
        }
        let is_dot = pieces[i].len() == 1 && pieces[i][0] == '.';
        assert(is_dot == (pieces@[i as int]@ == seq!['.'])) by {
            if pieces@[i as int]@ == seq!['.'] {
                assert(pieces@[i as int]@[0] == '.');
            }
            if is_dot {
                assert(pieces@[i as int]@ =~= seq!['.']);
            }
        }
        if pieces[i].len() > 0 && !is_dot {
            last = Some(i);
        }
        i += 1;
    }
    assert(ps.take(pieces@.len() as int) =~= ps);
    match last {
        Some(k) => {
            let name = &pieces[k];
            let is_dotdot = name.len() == 2 && name[0] == '.' && name[1] == '.';
            assert(is_dotdot == (name@ == seq!['.', '.'])) by {
                if name@ == seq!['.', '.'] {
                    assert(name@[0] == '.' && name@[1] == '.');
                }
                if is_dotdot {
                    assert(name@ =~= seq!['.', '.']);
                }
            }
            if is_dotdot {
                None
            } else {
                Some(slice_chars(name.as_slice(), 0, name.len()))
            }
        },
        None => None,
    }
}

/// The directory part of a path: everything before its last `/`.
pub open spec fn directory_part(path: Seq<char>) -> Option<Seq<char>> {
    if path.contains('/') {
        Some(path.take(last_slash(path)))
    } else {
        None
    }
}

/// The index of the last `/` (or -1).
pub open spec fn last_slash(s: Seq<char>) -> int
    decreases s.len(),
{
    if s.len() == 0 {
        -1
    } else if s.last() == '/' {
        s.len() - 1
    } else {
        last_slash(s.drop_last())
    }
}

proof fn lemma_last_slash(s: Seq<char>)
    ensures
        -1 <= last_slash(s) < s.len(),
        last_slash(s) >= 0 ==> s[last_slash(s)] == '/',
        forall|j: int| last_slash(s) < j < s.len() ==> s[j] != '/',
        last_slash(s) >= 0 <==> s.contains('/'),
    decreases s.len(),
{
    if s.len() > 0 {
        lemma_last_slash(s.drop_last());
        if s.last() != '/' {
            assert forall|j: int| last_slash(s) < j < s.len() implies s[j] != '/' by {
                if j < s.len() - 1 {
                    assert(s.drop_last()[j] == s[j]);
                }
            }
            if s.contains('/') {
                let k = choose|k: int| 0 <= k < s.len() && s[k] == '/';
                assert(s.drop_last()[k] == '/');
            }
            if s.drop_last().contains('/') {
                let k = choose|k: int| 0 <= k < s.drop_last().len() && s.drop_last()[k] == '/';
                assert(s[k] == '/');
            }
        } else {
            assert(s.contains('/')) by {
                assert(s[s.len() - 1] == '/');
            }
        }
    }
}

fn last_slash_index(s: &[char]) -> (r: Option<usize>)
    ensures
        match r {
            Some(k) => s@.contains('/') && k == last_slash(s@),
            None => !s@.contains('/'),
        },
{
    proof {
        lemma_last_slash(s@);
    }
    let mut j: usize = s.len();
    while j > 0
        invariant
            j <= s@.len(),
            forall|k: int| j <= k < s@.len() ==> s@[k] != '/',
            last_slash(s@) < j,
            -1 <= last_slash(s@) < s@.len(),
            last_slash(s@) >= 0 ==> s@[last_slash(s@)] == '/',
            forall|k: int| last_slash(s@) < k < s@.len() ==> s@[k] != '/',
            last_slash(s@) >= 0 <==> s@.contains('/'),
        decreases j,
    {
        if s[j - 1] == '/' {
            return Some(j - 1);
        }
        j -= 1;
    }
    None
}

/// Some directory above the file matches the pattern; unanchored patterns
/// without `/` compare against each directory's own name.
pub open spec fn directory_pattern_matches(p: GitignoreModel, relative_path: Seq<char>) -> bool {
    match directory_part(relative_path) {
        None => false,
        Some(dir) => {
            let ds = dir_ancestors(dir);
            if !p.anchored && !p.pattern.contains('/') {
                exists|k: int|
                    0 <= k < ds.len() && match path_file_name(#[trigger] ds[k]) {
                        Some(name) => gi_match(p.pattern, name),
                        None => false,
                    }
            } else {
                exists|k: int| 0 <= k < ds.len() && #[trigger] gi_match(p.pattern, ds[k])
            }
        },
    }
}

fn directory_pattern_matches_file_chars(pattern: &ExactGitignorePattern, relative_path: &[char]) -> (r: bool)
    ensures
        r == directory_pattern_matches(pattern@, relative_path@),
{
    let slash = last_slash_index(relative_path);
    let cut = match slash {
        Some(k) => k,
        None => {
            return false;
        },
    };
    proof {
        lemma_last_slash(relative_path@);
    }
    let dir = slice_chars(relative_path, 0, cut);
    assert(dir@ =~= relative_path@.take(last_slash(relative_path@)));
    let directories = directory_ancestors_chars(dir.as_slice());
    let ghost ds = dir_ancestors(dir@);
    let pat = chars_of(pattern.pattern.as_str());
    let by_name = !pattern.anchored && !contains_char(pat.as_slice(), '/');
    let mut i: usize = 0;
    while i < directories.len()
        invariant
            i <= directories@.len(),
            views(directories@) == ds,
            ds == dir_ancestors(dir@),
            dir@ == relative_path@.take(last_slash(relative_path@)),
            relative_path@.contains('/'),
            pat@ == pattern.pattern@,
            by_name == (!pattern.anchored && !pattern.pattern@.contains('/')),
            by_name ==> forall|k: int|
                0 <= k < i ==> match path_file_name(#[trigger] ds[k]) {
                    Some(name) => !gi_match(pattern.pattern@, name),
                    None => true,
                },
            !by_name ==> forall|k: int| 0 <= k < i ==> !#[trigger] gi_match(pattern.pattern@, ds[k]),
        decreases directories@.len() - i,
    {
        assert(directories@[i as int]@ == ds[i as int]);
        if by_name {
            match path_file_name_chars(directories[i].as_slice()) {
                Some(name) => {
                    if gitignore_pattern_matches_chars(pat.as_slice(), name.as_slice()) {
                        assert(match path_file_name(ds[i as int]) {
                            Some(name) => gi_match(pattern.pattern@, name),
                            None => false,
                        });
                        assert(directory_part(relative_path@) == Some(dir@));
                        assert(directory_pattern_matches(pattern@, relative_path@));
                        return true;
                    }
                },
                None => {},
            }
        } else {
            if gitignore_pattern_matches_chars(pat.as_slice(), directories[i].as_slice()) {
                assert(gi_match(pattern.pattern@, ds[i as int]));
                assert(gi_match(pattern@.pattern, dir_ancestors(dir@)[i as int]));
                assert(!(!pattern@.anchored && !pattern@.pattern.contains('/')));
                assert(directory_part(relative_path@) == Some(dir@));
                assert(directory_pattern_matches(pattern@, relative_path@));
                return true;
            }
        }
        i += 1;
    }
    false
}

/// Whether a directory pattern covers a path below the ignore file (the path lies inside a matching directory).
pub fn directory_pattern_matches_file(pattern: &ExactGitignorePattern, relative_path: &str) -> (r: bool)
    ensures
        r == directory_pattern_matches(pattern@, relative_path@),
{
    let rp = chars_of(relative_path);
    directory_pattern_matches_file_chars(pattern, rp.as_slice())
}

/// A pattern matches a file: directory-only patterns through the file's
/// directories (negations of them never match), other patterns also through
/// the whole relative path, and unanchored slash-free ones through the name.
pub open spec fn pattern_matches_file_spec(
    p: GitignoreModel,
    relative_path: Seq<char>,
    file_name: Seq<char>,
) -> bool {
    if p.directory_only {
        !p.negated && directory_pattern_matches(p, relative_path)
    } else {
        directory_pattern_matches(p, relative_path) || gi_match(p.pattern, relative_path) || (
        !p.anchored && !p.pattern.contains('/') && gi_match(p.pattern, file_name))
    }
}

/// Whether a gitignore pattern covers a file, given its path below the ignore file and its name.
pub fn pattern_matches_file(pattern: &ExactGitignorePattern, relative_path: &str, file_name: &str) -> (r: bool)
    ensures
        r == pattern_matches_file_spec(pattern@, relative_path@, file_name@),
{
    let rp = chars_of(relative_path);
    let name = chars_of(file_name);
    pattern_matches_file_chars(pattern, rp.as_slice(), name.as_slice())
}

fn pattern_matches_file_chars(pattern: &ExactGitignorePattern, rp: &[char], name: &[char]) -> (r: bool)
    ensures
        r == pattern_matches_file_spec(pattern@, rp@, name@),
{
    if pattern.directory_only {
        return !pattern.negated && directory_pattern_matches_file_chars(pattern, rp);
    }
    let pat = chars_of(pattern.pattern.as_str());
    directory_pattern_matches_file_chars(pattern, rp) || gitignore_pattern_matches_chars(
        pat.as_slice(),
        rp,
    ) || (!pattern.anchored && !contains_char(pat.as_slice(), '/')
        && gitignore_pattern_matches_chars(pat.as_slice(), name))
}

/// The protection state after a list of patterns: the last matching pattern
/// decides (protected unless it is a negation); `start` is the state before.
pub open spec fn protection_after(
    start: Option<bool>,
    ps: Seq<GitignoreModel>,
    relative_path: Seq<char>,
    file_name: Seq<char>,
) -> Option<bool>
    decreases ps.len(),
{
    if ps.len() == 0 {
        start
    } else if pattern_matches_file_spec(ps.last(), relative_path, file_name) {
        Some(!ps.last().negated)
    } else {
        protection_after(start, ps.drop_last(), relative_path, file_name)
    }
}

/// The protection state after a list of `.gitignore` sources, each given as
/// the target's path relative to that source's directory and the text.
pub open spec fn protection_over_sources(
    sources: Seq<(Seq<char>, Seq<char>)>,
    file_name: Seq<char>,
) -> Option<bool>
    decreases sources.len(),
{
    if sources.len() == 0 {
        None
    } else {
        protection_after(
            protection_over_sources(sources.drop_last(), file_name),
            gitignore_patterns(lines(sources.last().1)),
            sources.last().0,
            file_name,
        )
    }
}

pub open spec fn source_views(v: Seq<(String, String)>) -> Seq<(Seq<char>, Seq<char>)> {
    v.map_values(|s: (String, String)| (s.0@, s.1@))
}

/// Each source pairs the target path
/// relative to that `.gitignore`'s directory with the `.gitignore` text; the
/// file is protected when the last pattern, over all sources in order, that
/// matches it is not a negation.
pub fn is_path_protected_by_exact_gitignore(sources: &[(String, String)], file_name: &str) -> (r: bool)
    ensures
        r == (protection_over_sources(source_views(sources@), file_name@) == Some(true)),
{
    let name = chars_of(file_name);
    let ghost sv = source_views(sources@);
    let mut protected: Option<bool> = None;
    let mut s: usize = 0;
    while s < sources.len()
        invariant
            s <= sources@.len(),
            sv == source_views(sources@),
            name@ == file_name@,
            protected == protection_over_sources(sv.take(s as int), file_name@),
        decreases sources@.len() - s,
    {
        let rp = chars_of(sources[s].0.as_str());
        let patterns = parse_exact_gitignore_patterns(sources[s].1.as_str());
        let ghost before = protected;
        let ghost ps = gitignore_patterns(lines(sources@[s as int].1@));
        let mut i: usize = 0;
        while i < patterns.len()
            invariant
                i <= patterns@.len(),
                gitignore_views(patterns@) == ps,
                rp@ == sources@[s as int].0@,
                name@ == file_name@,
                protected == protection_after(before, ps.take(i as int), rp@, name@),
            decreases patterns@.len() - i,
        {
            proof {
                assert(ps.take(i + 1).drop_last() =~= ps.take(i as int));
                assert(ps.take(i + 1).last() == patterns@[i as int]@);
            }
            if pattern_matches_file_chars(&patterns[i], rp.as_slice(), name.as_slice()) {
                protected = Some(!patterns[i].negated);
            }
            i += 1;
        }
        proof {
            assert(ps.take(patterns@.len() as int) =~= ps);
            assert(sv.take(s + 1).drop_last() =~= sv.take(s as int));
            assert(sv.take(s + 1).last() == sv[s as int]);
        }
        s += 1;
    }
    assert(sv.take(sources@.len() as int) =~= sv);
    match protected {
        Some(b) => b,
        None => false,
    }
}

/// Backslashes become slashes.
pub fn normalize_path(value: &str) -> (out: String)
    ensures
        out@ == replace_char(value@, '\\', '/'),
{
    let v = chars_of(value);
    let r = replace_char_chars(v.as_slice(), '\\', '/');
    string_from(r.as_slice())
}

} // verus!
