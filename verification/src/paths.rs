//! Paths as this library reads them: `/`-separated, absolute when they
//! start with `/`. A path is taken apart into its named parts (empty parts
//! and `.` are dropped), and normalized by folding `..` into them.
use vstd::prelude::*;
use crate::text::{
    chars_eq, chars_of, join_chars, join_with, replace_char, replace_char_chars, slice_chars,
    split_char, split_char_chars, string_from,
};

verus! {

// ---------------------------------------------------------------------
// Paths
// ---------------------------------------------------------------------

/// The text without any occurrence of `c`.
pub open spec fn without_char(s: Seq<char>, c: char) -> Seq<char>
    decreases s.len(),
{
    if s.len() == 0 {
        seq![]
    } else if s.last() == c {
        without_char(s.drop_last(), c)
    } else {
        without_char(s.drop_last(), c).push(s.last())
    }
}

pub fn without_char_chars(s: &[char], c: char) -> (out: Vec<char>)
    ensures
        out@ == without_char(s@, c),
{
    let mut out: Vec<char> = Vec::new();
    let mut i: usize = 0;
    while i < s.len()
        invariant
            i <= s@.len(),
            out@ == without_char(s@.take(i as int), c),
        decreases s@.len() - i,
    {
        assert(s@.take(i + 1).drop_last() =~= s@.take(i as int));
        if s[i] != c {
            out.push(s[i]);
        }
        i += 1;
    }
    assert(s@.take(s@.len() as int) =~= s@);
    out
}

/// Character vectors by their views.
pub open spec fn part_views(v: Seq<Vec<char>>) -> Seq<Seq<char>> {
    v.map_values(|x: Vec<char>| x@)
}

/// The pieces of a path that name something: neither empty nor `.`.
pub open spec fn named_parts(pieces: Seq<Seq<char>>) -> Seq<Seq<char>>
    decreases pieces.len(),
{
    if pieces.len() == 0 {
        seq![]
    } else {
        let rest = named_parts(pieces.drop_last());
        let p = pieces.last();
        if p.len() == 0 || p == seq!['.'] {
            rest
        } else {
            rest.push(p)
        }
    }
}

/// The named parts of a `/`-separated path.
pub open spec fn path_parts(t: Seq<char>) -> Seq<Seq<char>> {
    named_parts(split_char(t, '/'))
}

/// A path is absolute when it starts with `/`.
pub open spec fn is_rooted(t: Seq<char>) -> bool {
    t.len() > 0 && t[0] == '/'
}

fn path_parts_exec(t: &[char]) -> (out: Vec<Vec<char>>)
    ensures
        part_views(out@) == path_parts(t@),
{
    let pieces = split_char_chars(t, '/');
    let ghost ps = split_char(t@, '/');
    let mut out: Vec<Vec<char>> = Vec::new();
    let mut i: usize = 0;
    while i < pieces.len()
        invariant
            i <= pieces@.len(),
            ps == split_char(t@, '/'),
            pieces@.len() == ps.len(),
            forall|k: int| 0 <= k < pieces@.len() ==> #[trigger] pieces@[k]@ == ps[k],
            part_views(out@) == named_parts(ps.take(i as int)),
        decreases pieces@.len() - i,
    {
        assert(ps.take(i + 1).drop_last() =~= ps.take(i as int));
        assert(ps.take(i + 1).last() == ps[i as int]);
        let p = &pieces[i];
        if !(p.len() == 0 || (p.len() == 1 && p[0] == '.')) {
            let ghost before = out@;
            let copy = slice_chars(p.as_slice(), 0, p.len());
            assert(copy@ =~= p@);
            out.push(copy);
            assert(part_views(out@) =~= part_views(before).push(copy@));
        } else {
            assert(p@.len() == 0 || p@ =~= seq!['.']);
        }
        i += 1;
    }
    assert(ps.take(ps.len() as int) =~= ps);
    out
}

/// One step of normalizing: `..` drops the last kept part when more than
/// the root (absolute paths) or more than one part (relative paths) is
/// kept; any other part is kept.
pub open spec fn norm_step(rooted: bool, kept: Seq<Seq<char>>, part: Seq<char>) -> Seq<Seq<char>> {
    if part == seq!['.', '.'] {
        if (rooted && kept.len() > 0) || kept.len() > 1 {
            kept.drop_last()
        } else {
            kept
        }
    } else {
        kept.push(part)
    }
}

/// The parts kept after normalizing.
pub open spec fn norm_parts(rooted: bool, parts: Seq<Seq<char>>) -> Seq<Seq<char>>
    decreases parts.len(),
{
    if parts.len() == 0 {
        seq![]
    } else {
        norm_step(rooted, norm_parts(rooted, parts.drop_last()), parts.last())
    }
}

/// The text of a normalized path, without trailing `/`: the root alone
/// gives the empty text.
pub open spec fn render_path(rooted: bool, kept: Seq<Seq<char>>) -> Seq<char> {
    if rooted && kept.len() > 0 {
        seq!['/'] + join_with(kept, seq!['/'])
    } else if rooted {
        seq![]
    } else {
        join_with(kept, seq!['/'])
    }
}

/// A directory, as whether it is absolute and its named parts.
pub struct PathBase {
    pub rooted: bool,
    pub parts: Vec<Vec<char>>,
}

impl View for PathBase {
    type V = (bool, Seq<Seq<char>>);

    open spec fn view(&self) -> (bool, Seq<Seq<char>>) {
        (self.rooted, part_views(self.parts@))
    }
}

/// The directory of a file path: the path without its last part (the
/// path itself when it has none).
pub open spec fn dir_of(p: Seq<char>) -> (bool, Seq<Seq<char>>) {
    let parts = path_parts(p);
    (is_rooted(p), if parts.len() > 0 {
        parts.drop_last()
    } else {
        parts
    })
}

/// A path taken relative to a directory: an absolute path stands alone.
pub open spec fn joined(base: (bool, Seq<Seq<char>>), t: Seq<char>) -> (bool, Seq<Seq<char>>) {
    if is_rooted(t) {
        (true, path_parts(t))
    } else {
        (base.0, base.1 + path_parts(t))
    }
}

/// A path taken relative to a directory, normalized.
pub open spec fn normalized(base: (bool, Seq<Seq<char>>), t: Seq<char>) -> Seq<char> {
    let j = joined(base, t);
    render_path(j.0, norm_parts(j.0, j.1))
}

fn copy_parts(parts: &Vec<Vec<char>>) -> (out: Vec<Vec<char>>)
    ensures
        part_views(out@) == part_views(parts@),
{
    let mut out: Vec<Vec<char>> = Vec::new();
    let mut i: usize = 0;
    while i < parts.len()
        invariant
            i <= parts@.len(),
            part_views(out@) == part_views(parts@).take(i as int),
        decreases parts@.len() - i,
    {
        let c = slice_chars(parts[i].as_slice(), 0, parts[i].len());
        assert(c@ =~= parts@[i as int]@);
        let ghost before = out@;
        out.push(c);
        assert(part_views(out@) =~= part_views(before).push(c@));
        assert(part_views(parts@).take(i + 1) =~= part_views(parts@).take(i as int).push(
            parts@[i as int]@,
        ));
        i += 1;
    }
    assert(part_views(parts@).take(parts@.len() as int) =~= part_views(parts@));
    out
}

impl PathBase {
    /// A copy of this path.
    pub fn copy(&self) -> (r: PathBase)
        ensures
            r@ == self@,
    {
        PathBase { rooted: self.rooted, parts: copy_parts(&self.parts) }
    }

    /// The parts from position `start` on.
    pub fn parts_from(&self, start: usize) -> (out: Vec<Vec<char>>)
        requires
            start <= self@.1.len(),
        ensures
            part_views(out@) == self@.1.skip(start as int),
    {
        let ghost pv = part_views(self.parts@);
        let mut out: Vec<Vec<char>> = Vec::new();
        let mut i: usize = start;
        assert(part_views(out@) =~= pv.skip(start as int).take(0));
        while i < self.parts.len()
            invariant
                start <= i <= self.parts@.len(),
                pv == part_views(self.parts@),
                part_views(out@) == pv.skip(start as int).take(i - start),
            decreases self.parts@.len() - i,
        {
            let c = slice_chars(self.parts[i].as_slice(), 0, self.parts[i].len());
            assert(c@ =~= self.parts@[i as int]@);
            let ghost before = out@;
            out.push(c);
            assert(part_views(out@) =~= part_views(before).push(c@));
            assert(pv.skip(start as int).take(i + 1 - start) =~= pv.skip(start as int).take(
                i - start,
            ).push(pv[i as int]));
            i += 1;
        }
        assert(pv.skip(start as int).take(self.parts@.len() - start) =~= pv.skip(start as int));
        out
    }

    /// The directory of a file path (`parent`, or the path itself when it
    /// has none).
    pub fn parent_of(path: &str) -> (r: PathBase)
        ensures
            r@ == dir_of(path@),
    {
        let t = chars_of(path);
        let mut parts = path_parts_exec(t.as_slice());
        if parts.len() > 0 {
            let ghost before = parts@;
            let _ = parts.pop();
            assert(part_views(parts@) =~= part_views(before).drop_last());
        }
        PathBase { rooted: t.len() > 0 && t[0] == '/', parts }
    }

    /// The path `t` taken relative to this directory.
    pub fn join(&self, t: &[char]) -> (r: PathBase)
        ensures
            r@ == joined(self@, t@),
    {
        let more = path_parts_exec(t);
        if t.len() > 0 && t[0] == '/' {
            return PathBase { rooted: true, parts: more };
        }
        let mut parts = copy_parts(&self.parts);
        let mut i: usize = 0;
        let ghost start = part_views(parts@);
        while i < more.len()
            invariant
                i <= more@.len(),
                part_views(parts@) == start + part_views(more@).take(i as int),
            decreases more@.len() - i,
        {
            let c = slice_chars(more[i].as_slice(), 0, more[i].len());
            assert(c@ =~= more@[i as int]@);
            let ghost before = parts@;
            parts.push(c);
            assert(part_views(parts@) =~= part_views(before).push(c@));
            assert(part_views(more@).take(i + 1) =~= part_views(more@).take(i as int).push(
                more@[i as int]@,
            ));
            i += 1;
        }
        assert(part_views(more@).take(more@.len() as int) =~= part_views(more@));
        PathBase { rooted: self.rooted, parts }
    }

    /// This path normalized.
    pub fn normalize(&self) -> (out: Vec<char>)
        ensures
            out@ == render_path(self@.0, norm_parts(self@.0, self@.1)),
    {
        let ghost pv = part_views(self.parts@);
        let mut kept: Vec<Vec<char>> = Vec::new();
        let mut i: usize = 0;
        while i < self.parts.len()
            invariant
                i <= self.parts@.len(),
                pv == part_views(self.parts@),
                part_views(kept@) == norm_parts(self.rooted, pv.take(i as int)),
            decreases self.parts@.len() - i,
        {
            assert(pv.take(i + 1).drop_last() =~= pv.take(i as int));
            assert(pv.take(i + 1).last() == self.parts@[i as int]@);
            let p = &self.parts[i];
            let ghost before = kept@;
            if p.len() == 2 && p[0] == '.' && p[1] == '.' {
                assert(p@ =~= seq!['.', '.']);
                if (self.rooted && kept.len() > 0) || kept.len() > 1 {
                    let _ = kept.pop();
                    assert(part_views(kept@) =~= part_views(before).drop_last());
                }
            } else {
                assert(p@ != seq!['.', '.']);
                let c = slice_chars(p.as_slice(), 0, p.len());
                assert(c@ =~= p@);
                kept.push(c);
                assert(part_views(kept@) =~= part_views(before).push(c@));
            }
            i += 1;
        }
        assert(pv.take(pv.len() as int) =~= pv);
        let body = join_chars(&kept, "/");
        proof {
            reveal_strlit("/");
            assert("/"@ =~= seq!['/']);
            assert(kept@.map_values(|x: Vec<char>| x@) =~= part_views(kept@));
            assert(body@ == join_with(part_views(kept@), seq!['/']));
            assert(part_views(kept@) == norm_parts(self@.0, self@.1));
        }
        if self.rooted {
            if kept.len() == 0 {
                return Vec::new();
            }
            let mut out: Vec<char> = vec!['/'];
            crate::text::append_chars(&mut out, body.as_slice());
            assert(out@ =~= seq!['/'] + body@);
            out
        } else {
            body
        }
    }
}

// ---------------------------------------------------------------------
// Paths as given
// ---------------------------------------------------------------------

/// A path as whether it is absolute and its named parts.
pub open spec fn path_of(p: Seq<char>) -> (bool, Seq<Seq<char>>) {
    (is_rooted(p), path_parts(p))
}

impl PathBase {
    /// The path itself (a directory given as such).
    pub fn from_path(path: &str) -> (r: PathBase)
        ensures
            r@ == path_of(path@),
    {
        let t = chars_of(path);
        let parts = path_parts_exec(t.as_slice());
        PathBase { rooted: t.len() > 0 && t[0] == '/', parts }
    }
}

/// `Path::file_name`: the last named part, unless it is `..`.
pub open spec fn file_name(p: Seq<char>) -> Option<Seq<char>> {
    let parts = path_parts(p);
    if parts.len() == 0 || parts.last() == seq!['.', '.'] {
        None
    } else {
        Some(parts.last())
    }
}

pub fn file_name_of(path: &str) -> (r: Option<String>)
    ensures
        match r {
            Some(n) => file_name(path@) == Some(n@),
            None => file_name(path@) is None,
        },
{
    let t = chars_of(path);
    let parts = path_parts_exec(t.as_slice());
    if parts.len() == 0 {
        return None;
    }
    let last = &parts[parts.len() - 1];
    assert(last@ == path_parts(path@).last());
    if last.len() == 2 && last[0] == '.' && last[1] == '.' {
        assert(last@ =~= seq!['.', '.']);
        return None;
    }
    assert(last@ != seq!['.', '.']);
    Some(string_from(last.as_slice()))
}

/// The position of the last `.` of a name, or -1.
pub open spec fn last_dot(name: Seq<char>) -> int
    decreases name.len(),
{
    if name.len() == 0 {
        -1
    } else if name.last() == '.' {
        name.len() - 1
    } else {
        last_dot(name.drop_last())
    }
}

proof fn lemma_last_dot(name: Seq<char>)
    ensures
        -1 <= last_dot(name) < name.len(),
        last_dot(name) >= 0 ==> name[last_dot(name)] == '.',
    decreases name.len(),
{
    if name.len() > 0 && name.last() != '.' {
        lemma_last_dot(name.drop_last());
    }
}

/// `Path::file_stem`: the file name without its extension; a name without
/// a `.` past its first character is its own stem.
pub open spec fn file_stem(p: Seq<char>) -> Option<Seq<char>> {
    match file_name(p) {
        None => None,
        Some(name) => if last_dot(name) <= 0 {
            Some(name)
        } else {
            Some(name.take(last_dot(name)))
        },
    }
}

pub fn file_stem_of(path: &str) -> (r: Option<String>)
    ensures
        match r {
            Some(n) => file_stem(path@) == Some(n@),
            None => file_stem(path@) is None,
        },
{
    let name = match file_name_of(path) {
        Some(n) => n,
        None => {
            return None;
        },
    };
    let c = chars_of(name.as_str());
    proof {
        lemma_last_dot(c@);
    }
    let mut j: usize = c.len();
    assert(c@.take(j as int) =~= c@);
    while j > 0 && c[j - 1] != '.'
        invariant
            j <= c@.len(),
            last_dot(c@) == last_dot(c@.take(j as int)),
        decreases j,
    {
        assert(c@.take(j as int).drop_last() =~= c@.take(j - 1));
        j -= 1;
    }
    proof {
        if j > 0 {
            assert(c@.take(j as int).last() == '.');
            assert(last_dot(c@) == j - 1);
        } else {
            assert(c@.take(0) =~= Seq::<char>::empty());
        }
    }
    if j <= 1 {
        return Some(name);
    }
    let stem = slice_chars(c.as_slice(), 0, j - 1);
    assert(stem@ =~= c@.take(j - 1));
    Some(string_from(stem.as_slice()))
}

/// `Path::extension` is some: the file name has a `.` past its first
/// character.
pub open spec fn has_extension(p: Seq<char>) -> bool {
    match file_name(p) {
        None => false,
        Some(name) => last_dot(name) > 0,
    }
}

pub fn has_extension_of(path: &str) -> (r: bool)
    ensures
        r == has_extension(path@),
{
    let name = match file_name_of(path) {
        Some(n) => n,
        None => {
            return false;
        },
    };
    let c = chars_of(name.as_str());
    proof {
        lemma_last_dot(c@);
    }
    let mut j: usize = c.len();
    assert(c@.take(j as int) =~= c@);
    while j > 0 && c[j - 1] != '.'
        invariant
            j <= c@.len(),
            last_dot(c@) == last_dot(c@.take(j as int)),
        decreases j,
    {
        assert(c@.take(j as int).drop_last() =~= c@.take(j - 1));
        j -= 1;
    }
    proof {
        if j > 0 {
            assert(c@.take(j as int).last() == '.');
            assert(last_dot(c@) == j - 1);
        } else {
            assert(c@.take(0) =~= Seq::<char>::empty());
        }
    }
    j > 1
}

// ---------------------------------------------------------------------
// Resolving against a directory, keeping a leading `..`
// ---------------------------------------------------------------------

/// One step of resolving: `..` drops a kept named part; with nothing kept
/// in a relative path it is kept itself, once.
pub open spec fn resolve_step(rooted: bool, kept: Seq<Seq<char>>, part: Seq<char>) -> Seq<
    Seq<char>,
> {
    if part == seq!['.', '.'] {
        if kept.len() > 0 && kept.last() != seq!['.', '.'] {
            kept.drop_last()
        } else if !rooted && kept.len() == 0 {
            seq![part]
        } else {
            kept
        }
    } else {
        kept.push(part)
    }
}

pub open spec fn resolve_parts(rooted: bool, parts: Seq<Seq<char>>) -> Seq<Seq<char>>
    decreases parts.len(),
{
    if parts.len() == 0 {
        seq![]
    } else {
        resolve_step(rooted, resolve_parts(rooted, parts.drop_last()), parts.last())
    }
}

/// The text of a resolved path: `/` for the root, `.` for an empty
/// relative path.
pub open spec fn render_resolved(rooted: bool, kept: Seq<Seq<char>>) -> Seq<char> {
    if rooted {
        seq!['/'] + join_with(kept, seq!['/'])
    } else if kept.len() == 0 {
        seq!['.']
    } else {
        join_with(kept, seq!['/'])
    }
}

/// The target taken relative to the directory, resolved.
pub open spec fn resolved(base: (bool, Seq<Seq<char>>), target: Seq<char>) -> Seq<char> {
    let j = joined(base, target);
    render_resolved(j.0, resolve_parts(j.0, j.1))
}

impl PathBase {
    /// The path resolved: `..` folded as `resolve_step` says.
    pub fn resolve(&self) -> (r: PathBase)
        ensures
            r@ == (self@.0, resolve_parts(self@.0, self@.1)),
    {
        let ghost pv = part_views(self.parts@);
        let mut kept: Vec<Vec<char>> = Vec::new();
        let mut i: usize = 0;
        while i < self.parts.len()
            invariant
                i <= self.parts@.len(),
                pv == part_views(self.parts@),
                part_views(kept@) == resolve_parts(self.rooted, pv.take(i as int)),
            decreases self.parts@.len() - i,
        {
            assert(pv.take(i + 1).drop_last() =~= pv.take(i as int));
            assert(pv.take(i + 1).last() == self.parts@[i as int]@);
            let p = &self.parts[i];
            let ghost before = kept@;
            if p.len() == 2 && p[0] == '.' && p[1] == '.' {
                assert(p@ =~= seq!['.', '.']);
                let last_is_up = kept.len() > 0 && {
                    let l = &kept[kept.len() - 1];
                    l.len() == 2 && l[0] == '.' && l[1] == '.'
                };
                proof {
                    if kept@.len() > 0 {
                        let l = kept@[kept@.len() - 1]@;
                        assert(part_views(kept@).last() == l);
                        if last_is_up {
                            assert(l =~= seq!['.', '.']);
                        } else {
                            assert(l != seq!['.', '.']);
                        }
                    }
                }
                if kept.len() > 0 && !last_is_up {
                    let _ = kept.pop();
                    assert(part_views(kept@) =~= part_views(before).drop_last());
                } else if !self.rooted && kept.len() == 0 {
                    let up = slice_chars(p.as_slice(), 0, 2);
                    assert(up@ =~= p@);
                    kept.push(up);
                    assert(part_views(kept@) =~= seq![p@]);
                }
            } else {
                assert(p@ != seq!['.', '.']);
                let c = slice_chars(p.as_slice(), 0, p.len());
                assert(c@ =~= p@);
                kept.push(c);
                assert(part_views(kept@) =~= part_views(before).push(c@));
            }
            i += 1;
        }
        assert(pv.take(pv.len() as int) =~= pv);
        PathBase { rooted: self.rooted, parts: kept }
    }

    /// The text of a resolved path.
    pub fn render_resolved(&self) -> (out: String)
        ensures
            out@ == render_resolved(self@.0, self@.1),
    {
        let body = join_chars(&self.parts, "/");
        proof {
            reveal_strlit("/");
            assert("/"@ =~= seq!['/']);
            assert(self.parts@.map_values(|x: Vec<char>| x@) =~= part_views(self.parts@));
        }
        if self.rooted {
            let mut out: Vec<char> = vec!['/'];
            crate::text::append_chars(&mut out, body.as_slice());
            assert(out@ =~= seq!['/'] + body@);
            string_from(out.as_slice())
        } else if self.parts.len() == 0 {
            let out: Vec<char> = vec!['.'];
            assert(out@ =~= seq!['.']);
            string_from(out.as_slice())
        } else {
            string_from(body.as_slice())
        }
    }
}

pub fn resolve_path(base_dir: &PathBase, target: &str) -> (out: String)
    ensures
        out@ == resolved(base_dir@, target@),
{
    let t = chars_of(target);
    let j = base_dir.join(t.as_slice());
    j.resolve().render_resolved()
}

/// `Path::starts_with` on resolved paths: the components of `b` begin
/// those of `a` (an empty relative path is the single component `.`).
pub open spec fn components_prefix(a: (bool, Seq<Seq<char>>), b: (bool, Seq<Seq<char>>)) -> bool {
    if !b.0 && b.1.len() == 0 {
        !a.0 && a.1.len() == 0
    } else {
        a.0 == b.0 && b.1.len() <= a.1.len() && a.1.take(b.1.len() as int) == b.1
    }
}

pub fn components_prefix_exec(a: &PathBase, b: &PathBase) -> (r: bool)
    ensures
        r == components_prefix(a@, b@),
{
    if !b.rooted && b.parts.len() == 0 {
        return !a.rooted && a.parts.len() == 0;
    }
    if a.rooted != b.rooted || b.parts.len() > a.parts.len() {
        return false;
    }
    let mut i: usize = 0;
    while i < b.parts.len()
        invariant
            i <= b.parts@.len(),
            b.parts@.len() <= a.parts@.len(),
            forall|k: int| 0 <= k < i ==> #[trigger] a.parts@[k]@ == b.parts@[k]@,
        decreases b.parts@.len() - i,
    {
        if !chars_eq(a.parts[i].as_slice(), b.parts[i].as_slice()) {
            proof {
                assert(a@.1.take(b@.1.len() as int)[i as int] != b@.1[i as int]);
            }
            return false;
        }
        i += 1;
    }
    assert(a@.1.take(b@.1.len() as int) =~= b@.1);
    true
}

/// Paths by their views.
pub open spec fn path_views(v: Seq<PathBase>) -> Seq<(bool, Seq<Seq<char>>)> {
    v.map_values(|p: PathBase| p@)
}

/// Whether two paths have the same parts.
pub fn same_path(a: &PathBase, b: &PathBase) -> (r: bool)
    ensures
        r == (a@ == b@),
{
    if a.rooted != b.rooted || a.parts.len() != b.parts.len() {
        proof {
            if a@ == b@ {
                assert(a@.1.len() == b@.1.len());
            }
        }
        return false;
    }
    let mut i: usize = 0;
    while i < a.parts.len()
        invariant
            i <= a.parts@.len(),
            a.parts@.len() == b.parts@.len(),
            forall|k: int| 0 <= k < i ==> #[trigger] a.parts@[k]@ == b.parts@[k]@,
        decreases a.parts@.len() - i,
    {
        if !chars_eq(a.parts[i].as_slice(), b.parts[i].as_slice()) {
            proof {
                assert(a@.1[i as int] != b@.1[i as int]);
            }
            return false;
        }
        i += 1;
    }
    assert(a@.1 =~= b@.1);
    true
}

// ---------------------------------------------------------------------
// A path below a root
// ---------------------------------------------------------------------

/// The path's text with `/` for `\`.
pub open spec fn slash_text(t: Seq<char>) -> Seq<char> {
    replace_char(t, '\\', '/')
}

pub fn path_to_slash_string(path: &str) -> (r: String)
    ensures
        r@ == slash_text(path@),
{
    let p = chars_of(path);
    string_from(replace_char_chars(p.as_slice(), '\\', '/').as_slice())
}

/// `Path::strip_prefix` on paths taken by their named parts: what follows
/// the root's parts in the file's, joined with `/`.
pub open spec fn strip_root(file: Seq<char>, root: Seq<char>) -> Option<Seq<char>> {
    let f = path_of(file);
    let r = path_of(root);
    if components_prefix(f, r) {
        Some(join_with(f.1.skip(r.1.len() as int), seq!['/']))
    } else {
        None
    }
}

pub fn strip_root_text(file: &str, root: &str) -> (r: Option<String>)
    ensures
        match r {
            Some(s) => strip_root(file@, root@) == Some(s@),
            None => strip_root(file@, root@) is None,
        },
{
    let f = PathBase::from_path(file);
    let r = PathBase::from_path(root);
    if !components_prefix_exec(&f, &r) {
        return None;
    }
    let rest = f.parts_from(r.parts.len());
    let body = join_chars(&rest, "/");
    proof {
        reveal_strlit("/");
        assert("/"@ =~= seq!['/']);
        assert(rest@.map_values(|x: Vec<char>| x@) =~= part_views(rest@));
    }
    Some(string_from(body.as_slice()))
}

// ---------------------------------------------------------------------
// Normalizing twice
// ---------------------------------------------------------------------

/// A list of parts as resolving leaves it: `..` only first, and only in a
/// relative path.
pub open spec fn resolved_shape(rooted: bool, kept: Seq<Seq<char>>) -> bool {
    forall|i: int| 0 <= i < kept.len() && kept[i] == seq!['.', '.'] ==> i == 0 && !rooted
}

proof fn lemma_resolve_shape(rooted: bool, parts: Seq<Seq<char>>)
    ensures
        resolved_shape(rooted, resolve_parts(rooted, parts)),
    decreases parts.len(),
{
    if parts.len() > 0 {
        lemma_resolve_shape(rooted, parts.drop_last());
        let prev = resolve_parts(rooted, parts.drop_last());
        let r = resolve_parts(rooted, parts);
        assert forall|i: int| 0 <= i < r.len() && r[i] == seq!['.', '.'] implies i == 0 && !rooted by {
            if parts.last() == seq!['.', '.'] {
                if prev.len() > 0 && prev.last() != seq!['.', '.'] {
                    assert(r[i] == prev[i]);
                } else if !rooted && prev.len() == 0 {
                } else {
                    assert(r[i] == prev[i]);
                }
            } else if i < prev.len() {
                assert(r[i] == prev[i]);
            }
        }
    }
}

proof fn lemma_resolve_fixed(rooted: bool, kept: Seq<Seq<char>>)
    requires
        resolved_shape(rooted, kept),
    ensures
        resolve_parts(rooted, kept) == kept,
    decreases kept.len(),
{
    if kept.len() > 0 {
        let init = kept.drop_last();
        assert(resolved_shape(rooted, init)) by {
            assert forall|i: int| 0 <= i < init.len() && init[i] == seq!['.', '.'] implies i == 0
                && !rooted by {
                assert(kept[i] == init[i]);
            }
        }
        lemma_resolve_fixed(rooted, init);
        if kept.last() == seq!['.', '.'] {
            assert(kept.len() - 1 == 0 && !rooted);
            assert(init.len() == 0);
            assert(seq![kept.last()] =~= kept);
        } else {
            assert(init.push(kept.last()) =~= kept);
        }
    }
}

/// Resolving a resolved path changes nothing.
pub proof fn lemma_resolve_idempotent(rooted: bool, parts: Seq<Seq<char>>)
    ensures
        resolve_parts(rooted, resolve_parts(rooted, parts)) == resolve_parts(rooted, parts),
{
    lemma_resolve_shape(rooted, parts);
    lemma_resolve_fixed(rooted, resolve_parts(rooted, parts));
}

proof fn lemma_norm_no_up(rooted: bool, parts: Seq<Seq<char>>)
    ensures
        forall|i: int|
            0 <= i < norm_parts(rooted, parts).len() ==> norm_parts(rooted, parts)[i] != seq!['.', '.'],
    decreases parts.len(),
{
    if parts.len() > 0 {
        lemma_norm_no_up(rooted, parts.drop_last());
        let prev = norm_parts(rooted, parts.drop_last());
        let r = norm_parts(rooted, parts);
        assert forall|i: int| 0 <= i < r.len() implies r[i] != seq!['.', '.'] by {
            if i < prev.len() {
                assert(r[i] == prev[i]);
            }
        }
    }
}

proof fn lemma_norm_fixed(rooted: bool, kept: Seq<Seq<char>>)
    requires
        forall|i: int| 0 <= i < kept.len() ==> kept[i] != seq!['.', '.'],
    ensures
        norm_parts(rooted, kept) == kept,
    decreases kept.len(),
{
    if kept.len() > 0 {
        let init = kept.drop_last();
        assert forall|i: int| 0 <= i < init.len() implies init[i] != seq!['.', '.'] by {
            assert(init[i] == kept[i]);
        }
        lemma_norm_fixed(rooted, init);
        assert(kept.last() != seq!['.', '.']);
        assert(init.push(kept.last()) =~= kept);
    }
}

/// Normalizing a normalized path changes nothing.
pub proof fn lemma_norm_idempotent(rooted: bool, parts: Seq<Seq<char>>)
    ensures
        norm_parts(rooted, norm_parts(rooted, parts)) == norm_parts(rooted, parts),
{
    lemma_norm_no_up(rooted, parts);
    lemma_norm_fixed(rooted, norm_parts(rooted, parts));
}

} // verus!
