//! Alias tables: the `resolve.alias` entries of a Vite configuration and the
//! `compilerOptions.paths` entries of a tsconfig, each read into a table from
//! alias key to a comparable target, and the comparison of the two tables.
//!
//! Paths are `/`-separated; a path is absolute when it starts with `/`.
//! Text positions count characters.
use vstd::prelude::*;
use crate::paths::{
    dir_of, is_rooted, joined, normalized, part_views, without_char, without_char_chars, PathBase,
};
use crate::registry::Severity;
use crate::config_duplicates::{config_views, ConfigFinding};
use crate::json::{as_str_spec, get, get_spec, get_str, has_key_spec, has_object_key, JsonValue};
use crate::text::{
    chars_eq, chars_eq_str, chars_of, join_chars, join_with, lemma_text_le_total,
    lemma_text_lt_trans, replace_char, replace_char_chars, string_from, text_le_exec, text_lt, trim,
    trim_chars, trim_end_char, trim_end_char_chars,
};
use crate::vite_config::{
    alias_key, AliasSync, config_object_start, dotted_identifier_at, dotted_tail,
    find_matching_brace, find_matching_delimiter, find_object_property_value_start,
    find_vite_config_object_start, has_url_like_prefix, lemma_key_end, lemma_property_scan_bounds,
    normalize_alias_key, parse_string_or_identifier, property_value_start, string_or_identifier_at,
    identifier_at, is_path_like_target, lemma_delim_scan, lemma_ident_end, lemma_skip_value,
    lemma_skip_ws, lemma_string_body, matching_delimiter, parse_dotted_identifier,
    parse_string_literal, path_like, skip_value, skip_value_at, skip_ws, skip_ws_and_comments,
    string_literal_at, url_like_prefix,
};

verus! {

// ---------------------------------------------------------------------
// Comparable targets
// ---------------------------------------------------------------------

/// Backslashes read as `/`, `*` dropped, the
/// result normalized relative to the directory.
pub open spec fn path_like_target(base: (bool, Seq<Seq<char>>), target: Seq<char>) -> Seq<char> {
    normalized(base, without_char(replace_char(target, '\\', '/'), '*'))
}

pub fn normalize_path_like_target(base_dir: &PathBase, target: &str) -> (out: String)
    ensures
        out@ == path_like_target(base_dir@, target@),
{
    let t = chars_of(target);
    let slashed = replace_char_chars(t.as_slice(), '\\', '/');
    let stripped = without_char_chars(slashed.as_slice(), '*');
    let j = base_dir.join(stripped.as_slice());
    let out = j.normalize();
    string_from(out.as_slice())
}

/// The trimmed target, normalized
/// relative to the directory when it looks like a path, without trailing
/// `/`; none for an empty or URL-like target or an empty result.
pub open spec fn comparable_target(base: (bool, Seq<Seq<char>>), target: Seq<char>) -> Option<
    Seq<char>,
> {
    let t = trim(target);
    if t.len() == 0 || url_like_prefix(t) {
        None
    } else {
        let c = if path_like(t) {
            path_like_target(base, t)
        } else {
            replace_char(t, '\\', '/')
        };
        let c2 = trim_end_char(c, '/');
        if c2.len() == 0 {
            None
        } else {
            Some(c2)
        }
    }
}

pub fn normalize_comparable_alias_target(base_dir: &PathBase, target: &str) -> (r: Option<String>)
    ensures
        match r {
            Some(s) => comparable_target(base_dir@, target@) == Some(s@),
            None => comparable_target(base_dir@, target@) is None,
        },
{
    let t = chars_of(target);
    let tt = trim_chars(t.as_slice());
    let ts = string_from(tt.as_slice());
    if tt.len() == 0 || has_url_like_prefix(ts.as_str()) {
        return None;
    }
    let c: Vec<char> = if is_path_like_target(ts.as_str()) {
        let n = normalize_path_like_target(base_dir, ts.as_str());
        chars_of(n.as_str())
    } else {
        replace_char_chars(tt.as_slice(), '\\', '/')
    };
    let c2 = trim_end_char_chars(c.as_slice(), '/');
    if c2.len() == 0 {
        None
    } else {
        Some(string_from(c2.as_slice()))
    }
}

/// The trimmed `baseUrl` relative to the config
/// directory; none when it is empty or URL-like.
pub open spec fn base_url_dir(config_dir: (bool, Seq<Seq<char>>), base_url: Seq<char>) -> Option<
    (bool, Seq<Seq<char>>),
> {
    let t = trim(base_url);
    if t.len() == 0 || url_like_prefix(t) {
        None
    } else {
        Some(joined(config_dir, replace_char(t, '\\', '/')))
    }
}

pub fn normalize_base_url(config_dir: &PathBase, base_url: &str) -> (r: Option<PathBase>)
    ensures
        match r {
            Some(b) => base_url_dir(config_dir@, base_url@) == Some(b@),
            None => base_url_dir(config_dir@, base_url@) is None,
        },
{
    let t = chars_of(base_url);
    let tt = trim_chars(t.as_slice());
    let ts = string_from(tt.as_slice());
    if tt.len() == 0 || has_url_like_prefix(ts.as_str()) {
        return None;
    }
    let slashed = replace_char_chars(tt.as_slice(), '\\', '/');
    Some(config_dir.join(slashed.as_slice()))
}

// ---------------------------------------------------------------------
// Tables
// ---------------------------------------------------------------------

/// Inserting into a table kept in key order: a key already present has
/// its target replaced; a new key goes before the first greater one.
pub open spec fn table_insert(s: Seq<(Seq<char>, Seq<char>)>, k: Seq<char>, v: Seq<char>) -> Seq<
    (Seq<char>, Seq<char>),
>
    decreases s.len(),
{
    if s.len() == 0 {
        seq![(k, v)]
    } else if s[0].0 == k {
        seq![(k, v)] + s.drop_first()
    } else if text_lt(k, s[0].0) {
        seq![(k, v)] + s
    } else {
        seq![s[0]] + table_insert(s.drop_first(), k, v)
    }
}

/// The target of a key: that of its first entry.
pub open spec fn lookup(s: Seq<(Seq<char>, Seq<char>)>, k: Seq<char>) -> Option<Seq<char>>
    decreases s.len(),
{
    if s.len() == 0 {
        None
    } else if s[0].0 == k {
        Some(s[0].1)
    } else {
        lookup(s.drop_first(), k)
    }
}

/// Keys in strictly increasing order.
pub open spec fn keys_sorted(s: Seq<(Seq<char>, Seq<char>)>) -> bool {
    forall|i: int, j: int| 0 <= i < j < s.len() ==> text_lt(#[trigger] s[i].0, #[trigger] s[j].0)
}

/// Reading a key after an insertion gives the inserted target for that
/// key and what was there before for any other key.
pub proof fn lemma_insert_lookup(
    s: Seq<(Seq<char>, Seq<char>)>,
    k: Seq<char>,
    v: Seq<char>,
    q: Seq<char>,
)
    ensures
        lookup(table_insert(s, k, v), q) == if q == k {
            Some(v)
        } else {
            lookup(s, q)
        },
    decreases s.len(),
{
    if s.len() == 0 {
        assert(table_insert(s, k, v).drop_first() =~= s);
    } else {
        let r = table_insert(s, k, v);
        if s[0].0 == k {
            assert(r.drop_first() =~= s.drop_first());
        } else if text_lt(k, s[0].0) {
            assert(r.drop_first() =~= s);
        } else {
            lemma_insert_lookup(s.drop_first(), k, v, q);
            assert(r.drop_first() =~= table_insert(s.drop_first(), k, v));
        }
    }
}

/// Every key after an insertion is the inserted key or an earlier one.
pub proof fn lemma_insert_keys(s: Seq<(Seq<char>, Seq<char>)>, k: Seq<char>, v: Seq<char>)
    ensures
        forall|i: int|
            0 <= i < table_insert(s, k, v).len() ==> (#[trigger] table_insert(s, k, v)[i]).0 == k
                || exists|j: int| 0 <= j < s.len() && s[j].0 == table_insert(s, k, v)[i].0,
        table_insert(s, k, v).len() >= s.len(),
    decreases s.len(),
{
    if s.len() > 0 {
        let r = table_insert(s, k, v);
        if s[0].0 == k {
            assert forall|i: int| 0 <= i < r.len() implies (#[trigger] r[i]).0 == k || exists|j: int|
                0 <= j < s.len() && s[j].0 == r[i].0 by {
                if i > 0 {
                    assert(r[i] == s[i]);
                }
            }
        } else if text_lt(k, s[0].0) {
            assert forall|i: int| 0 <= i < r.len() implies (#[trigger] r[i]).0 == k || exists|j: int|
                0 <= j < s.len() && s[j].0 == r[i].0 by {
                if i > 0 {
                    assert(r[i] == s[i - 1]);
                }
            }
        } else {
            let t = s.drop_first();
            lemma_insert_keys(t, k, v);
            assert forall|i: int| 0 <= i < r.len() implies (#[trigger] r[i]).0 == k || exists|j: int|
                0 <= j < s.len() && s[j].0 == r[i].0 by {
                if i == 0 {
                    assert(s[0].0 == r[0].0);
                } else {
                    assert(r[i] == table_insert(t, k, v)[i - 1]);
                    if table_insert(t, k, v)[i - 1].0 != k {
                        let j = choose|j: int| 0 <= j < t.len() && t[j].0 == table_insert(t, k, v)[i - 1].0;
                        assert(s[j + 1] == t[j]);
                    }
                }
            }
        }
    }
}

/// Insertion keeps the keys in strictly increasing order.
pub proof fn lemma_insert_sorted(s: Seq<(Seq<char>, Seq<char>)>, k: Seq<char>, v: Seq<char>)
    requires
        keys_sorted(s),
    ensures
        keys_sorted(table_insert(s, k, v)),
    decreases s.len(),
{
    if s.len() > 0 {
        let r = table_insert(s, k, v);
        if s[0].0 == k {
            assert forall|i: int, j: int| 0 <= i < j < r.len() implies text_lt(
                #[trigger] r[i].0,
                #[trigger] r[j].0,
            ) by {
                assert(r[j] == s[j]);
                if i > 0 {
                    assert(r[i] == s[i]);
                }
            }
        } else if text_lt(k, s[0].0) {
            assert forall|i: int, j: int| 0 <= i < j < r.len() implies text_lt(
                #[trigger] r[i].0,
                #[trigger] r[j].0,
            ) by {
                assert(r[j] == s[j - 1]);
                if i > 0 {
                    assert(r[i] == s[i - 1]);
                } else if j - 1 > 0 {
                    assert(text_lt(s[0].0, s[j - 1].0));
                    lemma_text_lt_trans(k, s[0].0, s[j - 1].0);
                }
            }
        } else {
            let t = s.drop_first();
            assert(keys_sorted(t)) by {
                assert forall|i: int, j: int| 0 <= i < j < t.len() implies text_lt(
                    #[trigger] t[i].0,
                    #[trigger] t[j].0,
                ) by {
                    assert(t[i] == s[i + 1] && t[j] == s[j + 1]);
                }
            }
            lemma_insert_sorted(t, k, v);
            lemma_insert_keys(t, k, v);
            lemma_text_le_total(k, s[0].0);
            assert(text_lt(s[0].0, k));
            let rt = table_insert(t, k, v);
            assert forall|i: int, j: int| 0 <= i < j < r.len() implies text_lt(
                #[trigger] r[i].0,
                #[trigger] r[j].0,
            ) by {
                assert(r[j] == rt[j - 1]);
                if i > 0 {
                    assert(r[i] == rt[i - 1]);
                } else {
                    if rt[j - 1].0 != k {
                        let m = choose|m: int| 0 <= m < t.len() && t[m].0 == rt[j - 1].0;
                        assert(s[m + 1] == t[m]);
                        assert(text_lt(s[0].0, s[m + 1].0));
                    }
                }
            }
        }
    }
}

/// A table from alias key to target, kept in key order.
pub struct AliasTable {
    pub entries: Vec<(String, String)>,
}

pub open spec fn entry_views(e: Seq<(String, String)>) -> Seq<(Seq<char>, Seq<char>)> {
    e.map_values(|p: (String, String)| (p.0@, p.1@))
}

impl View for AliasTable {
    type V = Seq<(Seq<char>, Seq<char>)>;

    open spec fn view(&self) -> Seq<(Seq<char>, Seq<char>)> {
        entry_views(self.entries@)
    }
}

/// Whether the scan for a key's place goes past an entry's key.
fn goes_past(entry_key: &[char], key: &[char]) -> (r: bool)
    ensures
        r == (entry_key@ != key@ && !text_lt(key@, entry_key@)),
{
    if chars_eq(entry_key, key) {
        return false;
    }
    !text_le_exec(key, entry_key)
}

impl AliasTable {
    /// The empty table.
    pub fn new() -> (r: AliasTable)
        ensures
            r@ == Seq::<(Seq<char>, Seq<char>)>::empty(),
            keys_sorted(r@),
    {
        let r = AliasTable { entries: Vec::new() };
        assert(r@ =~= Seq::<(Seq<char>, Seq<char>)>::empty());
        r
    }

    /// Sets the target of a key.
    pub fn insert(&mut self, key: String, value: String)
        ensures
            final(self)@ == table_insert(old(self)@, key@, value@),
            keys_sorted(old(self)@) ==> keys_sorted(final(self)@),
    {
        let ghost s = self@;
        let ghost gk = key@;
        let ghost gv = value@;
        proof {
            if keys_sorted(s) {
                lemma_insert_sorted(s, gk, gv);
            }
        }
        let kc = chars_of(key.as_str());
        let mut p: usize = 0;
        assert(s.skip(0) =~= s);
        assert(s.take(0) + table_insert(s.skip(0), key@, value@) =~= table_insert(s, key@, value@));
        while p < self.entries.len() && goes_past(
            chars_of(self.entries[p].0.as_str()).as_slice(),
            kc.as_slice(),
        )
            invariant
                p <= self.entries@.len(),
                s == self@,
                kc@ == key@,
                table_insert(s, key@, value@) == s.take(p as int) + table_insert(
                    s.skip(p as int),
                    key@,
                    value@,
                ),
            decreases self.entries@.len() - p,
        {
            proof {
                let t = s.skip(p as int);
                assert(t[0] == s[p as int]);
                assert(t.drop_first() =~= s.skip(p + 1));
                assert(s.take(p as int) + (seq![t[0]] + table_insert(t.drop_first(), key@, value@))
                    =~= s.take(p + 1) + table_insert(s.skip(p + 1), key@, value@));
            }
            p += 1;
        }
        let ghost before = self.entries@;
        if p == self.entries.len() {
            self.entries.push((key, value));
            proof {
                assert(s.skip(p as int) =~= Seq::<(Seq<char>, Seq<char>)>::empty());
                assert(s.take(p as int) =~= s);
                assert(self@ =~= entry_views(before).push((key@, value@)));
            }
        } else if chars_eq(chars_of(self.entries[p].0.as_str()).as_slice(), kc.as_slice()) {
            self.entries.set(p, (key, value));
            proof {
                let t = s.skip(p as int);
                assert(t[0] == s[p as int]);
                assert(t.drop_first() =~= s.skip(p + 1));
                assert(self@ =~= s.take(p as int) + (seq![(key@, value@)] + t.drop_first()));
            }
        } else {
            self.entries.insert(p, (key, value));
            proof {
                let t = s.skip(p as int);
                assert(t[0] == s[p as int]);
                assert(self@ =~= s.take(p as int) + (seq![(key@, value@)] + t));
            }
        }
        proof {
            assert(self@ == table_insert(s, gk, gv));
            if keys_sorted(s) {
                assert(keys_sorted(table_insert(s, gk, gv)));
                assert(keys_sorted(self@));
            }
        }
    }

    /// The target of a key.
    pub fn get(&self, key: &str) -> (r: Option<String>)
        ensures
            match r {
                Some(v) => lookup(self@, key@) == Some(v@),
                None => lookup(self@, key@) is None,
            },
    {
        let ghost s = self@;
        let kc = chars_of(key);
        let mut p: usize = 0;
        assert(s.skip(0) =~= s);
        while p < self.entries.len()
            invariant
                p <= self.entries@.len(),
                s == self@,
                kc@ == key@,
                lookup(s, key@) == lookup(s.skip(p as int), key@),
            decreases self.entries@.len() - p,
        {
            let ec = chars_of(self.entries[p].0.as_str());
            proof {
                let t = s.skip(p as int);
                assert(t[0] == s[p as int]);
                assert(t.drop_first() =~= s.skip(p + 1));
            }
            if chars_eq(ec.as_slice(), kc.as_slice()) {
                let v = chars_of(self.entries[p].1.as_str());
                return Some(string_from(v.as_slice()));
            }
            p += 1;
        }
        None
    }

    /// The number of keys.
    pub fn len(&self) -> (r: usize)
        ensures
            r == self@.len(),
    {
        self.entries.len()
    }
}

// ---------------------------------------------------------------------
// Reading alias values
// ---------------------------------------------------------------------

/// A string literal read at `c` ends past `c`, within the text.
pub proof fn lemma_string_literal_end(t: Seq<char>, c: int)
    ensures
        string_literal_at(t, c) matches Some((_, e)) ==> c < e <= t.len(),
{
    if 0 <= c < t.len() {
        lemma_string_body(t, c + 1, t[c], false);
    }
}

pub proof fn lemma_dotted_tail(t: Seq<char>, c: int)
    requires
        0 <= c <= t.len(),
    ensures
        dotted_tail(t, c) matches Some((_, e)) ==> c <= e <= t.len(),
    decreases t.len() - c,
{
    let dot = skip_ws(t, c);
    lemma_skip_ws(t, c);
    if 0 <= dot < t.len() && t[dot] == '.' {
        if dot + 1 < t.len() {
            lemma_ident_end(t, dot + 2);
        }
        match identifier_at(t, dot + 1) {
            Some((_, next)) => {
                lemma_dotted_tail(t, next);
            },
            None => {},
        }
    }
}

/// A dotted name read at `c` ends past `c`, within the text.
pub proof fn lemma_dotted_end(t: Seq<char>, c: int)
    ensures
        dotted_identifier_at(t, c) matches Some((_, e)) ==> c < e <= t.len(),
{
    if 0 <= c < t.len() {
        lemma_ident_end(t, c + 1);
        match identifier_at(t, c) {
            Some((_, next)) => {
                lemma_dotted_tail(t, next);
            },
            None => {},
        }
    }
}

/// The position after a `,` that may follow an argument.
pub open spec fn past_comma(t: Seq<char>, c: int, end: int) -> int {
    let b = skip_ws(t, c);
    if b < end && 0 <= b < t.len() && t[b] == ',' {
        b + 1
    } else {
        b
    }
}

/// The string arguments of `path.resolve(..)` between `c` and the closing
/// parenthesis at `end`, added to `segs`; an absolute one starts over.
pub open spec fn resolve_args(t: Seq<char>, c: int, end: int, segs: Seq<Seq<char>>) -> Option<
    Seq<Seq<char>>,
>
    decreases t.len() - c,
{
    if c < 0 || c >= end || c > t.len() {
        Some(segs)
    } else {
        let a = skip_ws(t, c);
        if a >= end {
            Some(segs)
        } else if 0 <= a < t.len() && (t[a] == '\'' || t[a] == '"') {
            match string_literal_at(t, a) {
                None => None,
                Some((seg, nc)) => {
                    proof {
                        lemma_skip_ws(t, c);
                        lemma_string_literal_end(t, a);
                        lemma_skip_ws(t, nc);
                    }
                    resolve_args(
                        t,
                        past_comma(t, nc, end),
                        end,
                        if is_rooted(seg) {
                            seq![seg]
                        } else {
                            segs.push(seg)
                        },
                    )
                },
            }
        } else {
            match skip_value_at(t, a, end) {
                None => None,
                Some(nc) => {
                    proof {
                        lemma_skip_ws(t, c);
                        lemma_skip_value(t, a, end);
                        lemma_skip_ws(t, nc);
                    }
                    resolve_args(t, past_comma(t, nc, end), end, segs)
                },
            }
        }
    }
}

/// `path.resolve(..)` or `resolve(..)` with at
/// least one string argument gives the string arguments joined by `/`
/// (from the last absolute one) and the position after the call.
pub open spec fn path_resolve_at(t: Seq<char>, c: int) -> Option<(Seq<char>, int)> {
    match dotted_identifier_at(t, c) {
        None => None,
        Some((callee, cc)) => {
            if callee != "path.resolve"@ && callee != "resolve"@ {
                None
            } else {
                let c2 = skip_ws(t, cc);
                if !(0 <= c2 < t.len() && t[c2] == '(') {
                    None
                } else {
                    match matching_delimiter(t, c2, '(', ')') {
                        None => None,
                        Some(end) => match resolve_args(t, c2 + 1, end, seq![]) {
                            None => None,
                            Some(segs) => if segs.len() == 0 {
                                None
                            } else {
                                Some((join_with(segs, seq!['/']), end + 1))
                            },
                        },
                    }
                }
            }
        },
    }
}

/// A string literal, or a `path.resolve(..)` call.
pub open spec fn alias_value_at(t: Seq<char>, c: int) -> Option<(Seq<char>, int)> {
    if 0 <= c < t.len() && (t[c] == '\'' || t[c] == '"') {
        string_literal_at(t, c)
    } else {
        path_resolve_at(t, c)
    }
}

/// An alias value read at `c` ends past `c`, within the text.
pub proof fn lemma_alias_value_end(t: Seq<char>, c: int)
    ensures
        alias_value_at(t, c) matches Some((_, e)) ==> c < e <= t.len(),
{
    lemma_string_literal_end(t, c);
    lemma_dotted_end(t, c);
    match dotted_identifier_at(t, c) {
        Some((_, cc)) => {
            lemma_skip_ws(t, cc);
            let c2 = skip_ws(t, cc);
            lemma_delim_scan(t, c2, '(', ')', 0, None, false);
        },
        None => {},
    }
}

pub fn parse_path_resolve_value(text: &[char], cursor: usize) -> (r: Option<(Vec<char>, usize)>)
    ensures
        match r {
            Some((v, e)) => path_resolve_at(text@, cursor as int) == Some((v@, e as int)),
            None => path_resolve_at(text@, cursor as int) is None,
        },
{
    let n = text.len();
    proof {
        lemma_dotted_end(text@, cursor as int);
    }
    let (callee, cc) = match parse_dotted_identifier(text, cursor) {
        Some(v) => v,
        None => {
            return None;
        },
    };
    if !chars_eq_str(callee.as_slice(), "path.resolve") && !chars_eq_str(callee.as_slice(), "resolve") {
        return None;
    }
    proof {
        lemma_skip_ws(text@, cc as int);
    }
    let c2 = skip_ws_and_comments(text, cc);
    if !(c2 < n && text[c2] == '(') {
        return None;
    }
    proof {
        lemma_delim_scan(text@, c2 as int, '(', ')', 0, None, false);
    }
    let end = match find_matching_delimiter(text, c2, '(', ')') {
        Some(e) => e,
        None => {
            return None;
        },
    };
    let mut segs: Vec<Vec<char>> = Vec::new();
    let mut c = c2 + 1;
    assert(part_views(segs@) =~= Seq::<Seq<char>>::empty());
    assert(resolve_args(text@, c2 + 1, end as int, seq![]) is None ==> path_resolve_at(
        text@,
        cursor as int,
    ) is None);
    while c < end
        invariant
            n == text@.len(),
            resolve_args(text@, c2 + 1, end as int, seq![]) is None ==> path_resolve_at(
                text@,
                cursor as int,
            ) is None,
            end < n,
            c <= n,
            resolve_args(text@, c2 + 1, end as int, seq![]) == resolve_args(
                text@,
                c as int,
                end as int,
                part_views(segs@),
            ),
        decreases n - c,
    {
        proof {
            lemma_skip_ws(text@, c as int);
        }
        let a = skip_ws_and_comments(text, c);
        if a >= end {
            c = end;
        } else {
            let nc;
            if text[a] == '\'' || text[a] == '"' {
                proof {
                    lemma_string_literal_end(text@, a as int);
                }
                let (seg, e) = match parse_string_literal(text, a) {
                    Some(v) => v,
                    None => {
                        return None;
                    },
                };
                let ghost before = part_views(segs@);
                if seg.len() > 0 && seg[0] == '/' {
                    segs = Vec::new();
                }
                let ghost mid = part_views(segs@);
                segs.push(seg);
                proof {
                    assert(part_views(segs@) =~= mid.push(seg@));
                    if is_rooted(seg@) {
                        assert(part_views(segs@) =~= seq![seg@]);
                    } else {
                        assert(mid == before);
                    }
                }
                nc = e;
            } else {
                proof {
                    lemma_skip_value(text@, a as int, end as int);
                }
                nc = match skip_value(text, a, end) {
                    Some(e) => e,
                    None => {
                        return None;
                    },
                };
            }
            proof {
                lemma_skip_ws(text@, nc as int);
            }
            let b = skip_ws_and_comments(text, nc);
            c = if b < end && text[b] == ',' {
                b + 1
            } else {
                b
            };
        }
    }
    if segs.len() == 0 {
        return None;
    }
    let joined = join_chars(&segs, "/");
    proof {
        reveal_strlit("/");
        assert("/"@ =~= seq!['/']);
        assert(segs@.map_values(|x: Vec<char>| x@) =~= part_views(segs@));
    }
    Some((joined, end + 1))
}

pub fn parse_alias_value(text: &[char], cursor: usize) -> (r: Option<(Vec<char>, usize)>)
    ensures
        match r {
            Some((v, e)) => alias_value_at(text@, cursor as int) == Some((v@, e as int)),
            None => alias_value_at(text@, cursor as int) is None,
        },
{
    if cursor < text.len() && (text[cursor] == '\'' || text[cursor] == '"') {
        return parse_string_literal(text, cursor);
    }
    parse_path_resolve_value(text, cursor)
}

// ---------------------------------------------------------------------
// Reading alias lists
// ---------------------------------------------------------------------

/// Walking a `{ find, replacement }` entry from `c` to its closing brace at
/// `end`: the last `find` string and the last `replacement` value seen, or
/// none when the entry cannot be read.
pub open spec fn entry_scan(
    t: Seq<char>,
    c: int,
    end: int,
    find: Option<Seq<char>>,
    repl: Option<Seq<char>>,
) -> Option<(Option<Seq<char>>, Option<Seq<char>>)>
    decreases t.len() - c,
{
    if c < 0 || c >= end || c > t.len() {
        Some((find, repl))
    } else {
        let c1 = skip_ws(t, c);
        if c1 >= end || (0 <= c1 < t.len() && t[c1] == '}') {
            Some((find, repl))
        } else if 0 <= c1 < t.len() && t[c1] == ',' {
            proof {
                lemma_skip_ws(t, c);
            }
            entry_scan(t, c1 + 1, end, find, repl)
        } else {
            match string_or_identifier_at(t, c1) {
                None => None,
                Some((key, next)) => {
                    let v0 = skip_ws(t, next);
                    if !(0 <= v0 < t.len() && t[v0] == ':') {
                        None
                    } else {
                        let v = skip_ws(t, v0 + 1);
                        proof {
                            lemma_skip_ws(t, c);
                            lemma_key_end(t, c1);
                            lemma_skip_ws(t, next);
                            lemma_skip_ws(t, v0 + 1);
                            lemma_string_literal_end(t, v);
                            lemma_alias_value_end(t, v);
                            lemma_skip_value(t, v, end);
                        }
                        if key == "find"@ {
                            match string_literal_at(t, v) {
                                None => None,
                                Some((val, nc)) => entry_scan(t, nc, end, Some(val), repl),
                            }
                        } else if key == "replacement"@ {
                            match alias_value_at(t, v) {
                                None => None,
                                Some((val, nc)) => entry_scan(t, nc, end, find, Some(val)),
                            }
                        } else {
                            match skip_value_at(t, v, end) {
                                None => None,
                                Some(nc) => entry_scan(t, nc, end, find, repl),
                            }
                        }
                    }
                },
            }
        }
    }
}

/// The `find` key and the comparable
/// `replacement` target of an entry, when both are there.
pub open spec fn alias_entry_at(t: Seq<char>, c: int, end: int, base: (bool, Seq<Seq<char>>)) -> Option<
    (Seq<char>, Seq<char>),
> {
    match entry_scan(t, c, end, None, None) {
        Some((Some(f), Some(r))) => match comparable_target(base, r) {
            Some(n) => Some((f, n)),
            None => None,
        },
        _ => None,
    }
}

pub fn parse_alias_array_entry(text: &[char], cursor: usize, entry_end: usize, base_dir: &PathBase) -> (r:
    Option<(String, String)>)
    requires
        entry_end < text@.len(),
    ensures
        match r {
            Some((k, v)) => alias_entry_at(text@, cursor as int, entry_end as int, base_dir@) == Some(
                (k@, v@),
            ),
            None => alias_entry_at(text@, cursor as int, entry_end as int, base_dir@) is None,
        },
{
    let n = text.len();
    let mut find: Option<Vec<char>> = None;
    let mut repl: Option<Vec<char>> = None;
    let mut c = cursor;
    let ghost goal = entry_scan(text@, cursor as int, entry_end as int, None, None);
    while c < entry_end
        invariant
            n == text@.len(),
            entry_end < n,
            goal == entry_scan(text@, cursor as int, entry_end as int, None, None),
            goal == entry_scan(
                text@,
                c as int,
                entry_end as int,
                match find {
                    Some(f) => Some(f@),
                    None => None::<Seq<char>>,
                },
                match repl {
                    Some(r) => Some(r@),
                    None => None::<Seq<char>>,
                },
            ),
        decreases n - c,
    {
        proof {
            lemma_skip_ws(text@, c as int);
        }
        let c1 = skip_ws_and_comments(text, c);
        if c1 >= entry_end || text[c1] == '}' {
            c = entry_end;
        } else if text[c1] == ',' {
            c = c1 + 1;
        } else {
            proof {
                lemma_key_end(text@, c1 as int);
            }
            let (key, next) = match parse_string_or_identifier(text, c1) {
                Some(v) => v,
                None => {
                    return None;
                },
            };
            proof {
                lemma_skip_ws(text@, next as int);
            }
            let v0 = skip_ws_and_comments(text, next);
            if !(v0 < n && text[v0] == ':') {
                return None;
            }
            proof {
                lemma_skip_ws(text@, v0 + 1);
            }
            let v = skip_ws_and_comments(text, v0 + 1);
            if chars_eq_str(key.as_slice(), "find") {
                proof {
                    lemma_string_literal_end(text@, v as int);
                }
                let (val, nc) = match parse_string_literal(text, v) {
                    Some(x) => x,
                    None => {
                        return None;
                    },
                };
                find = Some(val);
                c = nc;
            } else if chars_eq_str(key.as_slice(), "replacement") {
                proof {
                    lemma_alias_value_end(text@, v as int);
                }
                let (val, nc) = match parse_alias_value(text, v) {
                    Some(x) => x,
                    None => {
                        return None;
                    },
                };
                repl = Some(val);
                c = nc;
            } else {
                proof {
                    lemma_skip_value(text@, v as int, entry_end as int);
                }
                c = match skip_value(text, v, entry_end) {
                    Some(x) => x,
                    None => {
                        return None;
                    },
                };
            }
        }
    }
    match (find, repl) {
        (Some(f), Some(r)) => {
            let rs = string_from(r.as_slice());
            match normalize_comparable_alias_target(base_dir, rs.as_str()) {
                Some(t) => Some((string_from(f.as_slice()), t)),
                None => None,
            }
        },
        _ => None,
    }
}

/// Walking an alias array from `c` to its closing bracket at `end`: each
/// `{ find, replacement }` entry that can be read sets its key; other
/// values are skipped.
pub open spec fn array_scan(
    t: Seq<char>,
    c: int,
    end: int,
    base: (bool, Seq<Seq<char>>),
    table: Seq<(Seq<char>, Seq<char>)>,
) -> Option<Seq<(Seq<char>, Seq<char>)>>
    decreases t.len() - c,
{
    if c < 0 || c >= end || c > t.len() {
        Some(table)
    } else {
        let c1 = skip_ws(t, c);
        if c1 >= end || !(0 <= c1 < t.len()) || t[c1] == ']' {
            Some(table)
        } else if t[c1] == ',' {
            proof {
                lemma_skip_ws(t, c);
            }
            array_scan(t, c1 + 1, end, base, table)
        } else if t[c1] != '{' {
            match skip_value_at(t, c1, end) {
                None => None,
                Some(nc) => {
                    proof {
                        lemma_skip_ws(t, c);
                        lemma_skip_value(t, c1, end);
                    }
                    array_scan(t, nc, end, base, table)
                },
            }
        } else {
            match matching_delimiter(t, c1, '{', '}') {
                None => None,
                Some(ee) => {
                    proof {
                        lemma_skip_ws(t, c);
                        lemma_delim_scan(t, c1, '{', '}', 0, None, false);
                    }
                    array_scan(
                        t,
                        ee + 1,
                        end,
                        base,
                        match alias_entry_at(t, c1 + 1, ee, base) {
                            Some((k, v)) => table_insert(table, alias_key(k), v),
                            None => table,
                        },
                    )
                },
            }
        }
    }
}

/// The aliases of the array at `start`.
pub open spec fn alias_array_at(t: Seq<char>, start: int, base: (bool, Seq<Seq<char>>)) -> Option<
    Seq<(Seq<char>, Seq<char>)>,
> {
    match matching_delimiter(t, start, '[', ']') {
        None => None,
        Some(end) => array_scan(t, start + 1, end, base, seq![]),
    }
}

pub fn parse_alias_array(text: &[char], array_start: usize, base_dir: &PathBase) -> (r: Option<
    AliasTable,
>)
    ensures
        match r {
            Some(tb) => alias_array_at(text@, array_start as int, base_dir@) == Some(tb@) && keys_sorted(
                tb@,
            ),
            None => alias_array_at(text@, array_start as int, base_dir@) is None,
        },
{
    let n = text.len();
    proof {
        lemma_delim_scan(text@, array_start as int, '[', ']', 0, None, false);
    }
    let end = match find_matching_delimiter(text, array_start, '[', ']') {
        Some(e) => e,
        None => {
            return None;
        },
    };
    let mut table = AliasTable::new();
    let mut c = array_start + 1;
    let ghost goal = alias_array_at(text@, array_start as int, base_dir@);
    while c < end
        invariant
            n == text@.len(),
            end < n,
            goal == alias_array_at(text@, array_start as int, base_dir@),
            goal == array_scan(text@, c as int, end as int, base_dir@, table@),
            keys_sorted(table@),
        decreases n - c,
    {
        proof {
            lemma_skip_ws(text@, c as int);
        }
        let c1 = skip_ws_and_comments(text, c);
        if c1 >= end || text[c1] == ']' {
            c = end;
        } else if text[c1] == ',' {
            c = c1 + 1;
        } else if text[c1] != '{' {
            proof {
                lemma_skip_value(text@, c1 as int, end as int);
            }
            c = match skip_value(text, c1, end) {
                Some(x) => x,
                None => {
                    return None;
                },
            };
        } else {
            proof {
                lemma_delim_scan(text@, c1 as int, '{', '}', 0, None, false);
            }
            let ee = match find_matching_delimiter(text, c1, '{', '}') {
                Some(x) => x,
                None => {
                    return None;
                },
            };
            match parse_alias_array_entry(text, c1 + 1, ee, base_dir) {
                Some((k, v)) => {
                    let key = normalize_alias_key(k.as_str());
                    table.insert(key, v);
                },
                None => {},
            }
            c = ee + 1;
        }
    }
    Some(table)
}

/// Walking an alias object from `c` to its closing brace at `end`: each
/// key whose value is a string or a `path.resolve(..)` call, with a
/// comparable target, sets that key; other values are skipped.
pub open spec fn object_scan(
    t: Seq<char>,
    c: int,
    end: int,
    base: (bool, Seq<Seq<char>>),
    table: Seq<(Seq<char>, Seq<char>)>,
) -> Option<Seq<(Seq<char>, Seq<char>)>>
    decreases t.len() - c,
{
    if c < 0 || c >= end || c > t.len() {
        Some(table)
    } else {
        let c1 = skip_ws(t, c);
        if c1 >= end || (0 <= c1 < t.len() && t[c1] == '}') {
            Some(table)
        } else {
            match string_or_identifier_at(t, c1) {
                None => None,
                Some((key, next)) => {
                    let e0 = skip_ws(t, next);
                    if !(0 <= e0 < t.len() && t[e0] == ':') {
                        None
                    } else {
                        let e = skip_ws(t, e0 + 1);
                        proof {
                            lemma_skip_ws(t, c);
                            lemma_key_end(t, c1);
                            lemma_skip_ws(t, next);
                            lemma_skip_ws(t, e0 + 1);
                            lemma_alias_value_end(t, e);
                            lemma_skip_value(t, e, end);
                        }
                        match alias_value_at(t, e) {
                            None => match skip_value_at(t, e, end) {
                                None => None,
                                Some(nc) => object_scan(t, nc, end, base, table),
                            },
                            Some((value, nc)) => {
                                let table2 = match comparable_target(base, value) {
                                    Some(tv) => table_insert(table, alias_key(key), tv),
                                    None => table,
                                };
                                let c2 = skip_ws(t, nc);
                                proof {
                                    lemma_skip_ws(t, nc);
                                }
                                if c2 < end && 0 <= c2 < t.len() && t[c2] == ',' {
                                    object_scan(t, c2 + 1, end, base, table2)
                                } else if c2 < end && !(0 <= c2 < t.len() && t[c2] == '}') {
                                    None
                                } else {
                                    object_scan(t, c2, end, base, table2)
                                }
                            },
                        }
                    }
                },
            }
        }
    }
}

/// The aliases of the object at `start`.
pub open spec fn alias_object_at(t: Seq<char>, start: int, base: (bool, Seq<Seq<char>>)) -> Option<
    Seq<(Seq<char>, Seq<char>)>,
> {
    match matching_delimiter(t, start, '{', '}') {
        None => None,
        Some(end) => object_scan(t, start + 1, end, base, seq![]),
    }
}

pub fn parse_string_map_from_object(text: &[char], object_start: usize, base_dir: &PathBase) -> (r:
    Option<AliasTable>)
    ensures
        match r {
            Some(tb) => alias_object_at(text@, object_start as int, base_dir@) == Some(tb@)
                && keys_sorted(tb@),
            None => alias_object_at(text@, object_start as int, base_dir@) is None,
        },
{
    let n = text.len();
    proof {
        lemma_delim_scan(text@, object_start as int, '{', '}', 0, None, false);
    }
    let end = match find_matching_brace(text, object_start) {
        Some(e) => e,
        None => {
            return None;
        },
    };
    let mut table = AliasTable::new();
    let mut c = object_start + 1;
    let ghost goal = alias_object_at(text@, object_start as int, base_dir@);
    while c < end
        invariant
            n == text@.len(),
            end < n,
            goal == alias_object_at(text@, object_start as int, base_dir@),
            goal == object_scan(text@, c as int, end as int, base_dir@, table@),
            keys_sorted(table@),
        decreases n - c,
    {
        proof {
            lemma_skip_ws(text@, c as int);
        }
        let c1 = skip_ws_and_comments(text, c);
        if c1 >= end || text[c1] == '}' {
            c = end;
        } else {
            proof {
                lemma_key_end(text@, c1 as int);
            }
            let (key, next) = match parse_string_or_identifier(text, c1) {
                Some(v) => v,
                None => {
                    return None;
                },
            };
            proof {
                lemma_skip_ws(text@, next as int);
            }
            let e0 = skip_ws_and_comments(text, next);
            if !(e0 < n && text[e0] == ':') {
                return None;
            }
            proof {
                lemma_skip_ws(text@, e0 + 1);
                lemma_alias_value_end(text@, e0 + 1);
            }
            let e = skip_ws_and_comments(text, e0 + 1);
            proof {
                lemma_alias_value_end(text@, e as int);
                lemma_skip_value(text@, e as int, end as int);
            }
            match parse_alias_value(text, e) {
                None => {
                    c = match skip_value(text, e, end) {
                        Some(x) => x,
                        None => {
                            return None;
                        },
                    };
                },
                Some((value, nc)) => {
                    let vs = string_from(value.as_slice());
                    match normalize_comparable_alias_target(base_dir, vs.as_str()) {
                        Some(tv) => {
                            let ks = string_from(key.as_slice());
                            let k = normalize_alias_key(ks.as_str());
                            table.insert(k, tv);
                        },
                        None => {},
                    }
                    proof {
                        lemma_skip_ws(text@, nc as int);
                    }
                    let c2 = skip_ws_and_comments(text, nc);
                    if c2 < end && text[c2] == ',' {
                        c = c2 + 1;
                    } else if c2 < end && text[c2] != '}' {
                        return None;
                    } else {
                        c = c2;
                    }
                },
            }
        }
    }
    Some(table)
}

/// The `resolve.alias` table of the exported
/// configuration object; empty when `resolve` or `alias` is absent; none
/// when the text cannot be read that far or `alias` is neither an object
/// nor an array.
pub open spec fn vite_aliases_at(t: Seq<char>, base: (bool, Seq<Seq<char>>)) -> Option<
    Seq<(Seq<char>, Seq<char>)>,
> {
    match config_object_start(t) {
        None => None,
        Some(os) => match property_value_start(t, os, "resolve"@) {
            None => None,
            Some(None) => Some(seq![]),
            Some(Some(rv0)) => {
                let rv = skip_ws(t, rv0);
                if !(0 <= rv < t.len() && t[rv] == '{') {
                    None
                } else {
                    match property_value_start(t, rv, "alias"@) {
                        None => None,
                        Some(None) => Some(seq![]),
                        Some(Some(v0)) => {
                            let v = skip_ws(t, v0);
                            if !(0 <= v < t.len()) {
                                None
                            } else if t[v] == '{' {
                                alias_object_at(t, v, base)
                            } else if t[v] == '[' {
                                alias_array_at(t, v, base)
                            } else {
                                None
                            }
                        },
                    }
                }
            },
        },
    }
}

pub fn parse_vite_aliases(text: &str, config_path: &str) -> (r: Option<AliasTable>)
    ensures
        match r {
            Some(tb) => vite_aliases_at(text@, dir_of(config_path@)) == Some(tb@) && keys_sorted(tb@),
            None => vite_aliases_at(text@, dir_of(config_path@)) is None,
        },
{
    let t = chars_of(text);
    let base = PathBase::parent_of(config_path);
    let n = t.len();
    let os = match find_vite_config_object_start(t.as_slice()) {
        Some(x) => x,
        None => {
            return None;
        },
    };
    proof {
        lemma_delim_scan(t@, os as int, '{', '}', 0, None, false);
        match matching_delimiter(t@, os as int, '{', '}') {
            Some(e) => lemma_property_scan_bounds(t@, os + 1, e, "resolve"@),
            None => {},
        }
    }
    let rv0 = match find_object_property_value_start(t.as_slice(), os, "resolve") {
        None => {
            return None;
        },
        Some(None) => {
            return Some(AliasTable::new());
        },
        Some(Some(x)) => x,
    };
    let rv = skip_ws_and_comments(t.as_slice(), rv0);
    if !(rv < n && t[rv] == '{') {
        return None;
    }
    proof {
        match matching_delimiter(t@, rv as int, '{', '}') {
            Some(e) => lemma_property_scan_bounds(t@, rv + 1, e, "alias"@),
            None => {},
        }
    }
    let v0 = match find_object_property_value_start(t.as_slice(), rv, "alias") {
        None => {
            return None;
        },
        Some(None) => {
            return Some(AliasTable::new());
        },
        Some(Some(x)) => x,
    };
    let v = skip_ws_and_comments(t.as_slice(), v0);
    if v >= n {
        return None;
    }
    if t[v] == '{' {
        parse_string_map_from_object(t.as_slice(), v, &base)
    } else if t[v] == '[' {
        parse_alias_array(t.as_slice(), v, &base)
    } else {
        None
    }
}

// ---------------------------------------------------------------------
// tsconfig paths
// ---------------------------------------------------------------------

/// The first string among a list of values.
pub open spec fn first_text(items: Seq<JsonValue>) -> Option<Seq<char>>
    decreases items.len(),
{
    if items.len() == 0 {
        None
    } else {
        match items[0] {
            JsonValue::Text(s) => Some(s@),
            _ => first_text(items.drop_first()),
        }
    }
}

/// The first string target of a `paths` entry: none unless it is an array
/// holding a string.
pub open spec fn first_target(targets: JsonValue) -> Option<Seq<char>> {
    match targets {
        JsonValue::Array(items) => first_text(items@),
        _ => None,
    }
}

/// The table read from the members of `paths`, in member order: each key
/// whose first string target is comparable sets its alias key.
pub open spec fn paths_table(members: Seq<(String, JsonValue)>, base: (bool, Seq<Seq<char>>)) -> Seq<
    (Seq<char>, Seq<char>),
>
    decreases members.len(),
{
    if members.len() == 0 {
        seq![]
    } else {
        let prev = paths_table(members.drop_last(), base);
        match first_target(members.last().1) {
            None => prev,
            Some(f) => match comparable_target(base, f) {
                Some(n) => table_insert(prev, alias_key(members.last().0@), n),
                None => prev,
            },
        }
    }
}

/// The directory that `paths` targets are resolved from: `baseUrl` when it
/// is a usable string, else the directory of the tsconfig.
pub open spec fn paths_base(compiler_options: JsonValue, config_path: Seq<char>) -> (
    bool,
    Seq<Seq<char>>,
) {
    let dir = dir_of(config_path);
    match as_str_spec(get_spec(compiler_options, "baseUrl"@)) {
        Some(b) => match base_url_dir(dir, b) {
            Some(d) => d,
            None => dir,
        },
        None => dir,
    }
}

/// The alias table of `compilerOptions.paths`;
/// empty when `paths` is not an object.
pub open spec fn tsconfig_aliases(compiler_options: JsonValue, config_path: Seq<char>) -> Seq<
    (Seq<char>, Seq<char>),
> {
    match get_spec(compiler_options, "paths"@) {
        Some(JsonValue::Object(members)) => paths_table(
            members@,
            paths_base(compiler_options, config_path),
        ),
        _ => seq![],
    }
}

fn first_target_exec(targets: &JsonValue) -> (r: Option<&String>)
    ensures
        match r {
            Some(s) => first_target(*targets) == Some(s@),
            None => first_target(*targets) is None,
        },
{
    match targets {
        JsonValue::Array(items) => {
            let mut i: usize = 0;
            assert(items@.skip(0) =~= items@);
            while i < items.len()
                invariant
                    i <= items@.len(),
                    *targets == JsonValue::Array(*items),
                    first_text(items@) == first_text(items@.skip(i as int)),
                decreases items@.len() - i,
            {
                proof {
                    assert(items@.skip(i as int)[0] == items@[i as int]);
                    assert(items@.skip(i as int).drop_first() =~= items@.skip(i + 1));
                }
                match &items[i] {
                    JsonValue::Text(s) => {
                        return Some(s);
                    },
                    _ => {},
                }
                i += 1;
            }
            None
        },
        _ => None,
    }
}

pub fn parse_tsconfig_aliases(compiler_options: &JsonValue, config_path: &str) -> (r: AliasTable)
    ensures
        r@ == tsconfig_aliases(*compiler_options, config_path@),
        keys_sorted(r@),
{
    let mut table = AliasTable::new();
    let members = match get(compiler_options, "paths") {
        Some(JsonValue::Object(m)) => m,
        _ => {
            return table;
        },
    };
    let config_dir = PathBase::parent_of(config_path);
    let base = match get_str(compiler_options, "baseUrl") {
        Some(b) => match normalize_base_url(&config_dir, b.as_str()) {
            Some(d) => d,
            None => config_dir,
        },
        None => config_dir,
    };
    let ghost bv = paths_base(*compiler_options, config_path@);
    assert(base@ == bv);
    let mut i: usize = 0;
    while i < members.len()
        invariant
            i <= members@.len(),
            base@ == bv,
            table@ == paths_table(members@.take(i as int), bv),
            keys_sorted(table@),
        decreases members@.len() - i,
    {
        proof {
            assert(members@.take(i + 1).drop_last() =~= members@.take(i as int));
            assert(members@.take(i + 1).last() == members@[i as int]);
        }
        match first_target_exec(&members[i].1) {
            Some(f) => match normalize_comparable_alias_target(&base, f.as_str()) {
                Some(n) => {
                    let k = normalize_alias_key(members[i].0.as_str());
                    table.insert(k, n);
                },
                None => {},
            },
            None => {},
        }
        i += 1;
    }
    assert(members@.take(members@.len() as int) =~= members@);
    table
}

/// A tsconfig whose `compilerOptions`
/// object has a `paths` member reads its own table; any other keeps the
/// table it inherits through `extends` (empty when it extends nothing).
pub open spec fn effective_aliases(
    config: JsonValue,
    config_path: Seq<char>,
    inherited: Seq<(Seq<char>, Seq<char>)>,
) -> Seq<(Seq<char>, Seq<char>)> {
    match get_spec(config, "compilerOptions"@) {
        Some(co) => if (co is Object) && has_key_spec(co, "paths"@) {
            tsconfig_aliases(co, config_path)
        } else {
            inherited
        },
        None => inherited,
    }
}

pub fn effective_tsconfig_aliases(config: &JsonValue, config_path: &str, inherited: AliasTable) -> (r:
    AliasTable)
    ensures
        r@ == effective_aliases(*config, config_path@, inherited@),
        keys_sorted(inherited@) ==> keys_sorted(r@),
{
    match get(config, "compilerOptions") {
        Some(co) => {
            let is_object = match co {
                JsonValue::Object(_) => true,
                _ => false,
            };
            if is_object && has_object_key(co, "paths") {
                parse_tsconfig_aliases(co, config_path)
            } else {
                inherited
            }
        },
        None => inherited,
    }
}

// ---------------------------------------------------------------------
// Comparing the tables
// ---------------------------------------------------------------------

/// A key on which the Vite and tsconfig tables disagree, with the target
/// each gives it.
pub struct AliasDifference {
    pub key: String,
    pub status: AliasSync,
    pub vite_target: Option<String>,
    pub tsconfig_target: Option<String>,
}

pub open spec fn opt_view(o: Option<String>) -> Option<Seq<char>> {
    match o {
        Some(s) => Some(s@),
        None => None,
    }
}

pub open spec fn difference_view(d: AliasDifference) -> (
    Seq<char>,
    AliasSync,
    Option<Seq<char>>,
    Option<Seq<char>>,
) {
    (d.key@, d.status, opt_view(d.vite_target), opt_view(d.tsconfig_target))
}

pub open spec fn difference_views(v: Seq<AliasDifference>) -> Seq<
    (Seq<char>, AliasSync, Option<Seq<char>>, Option<Seq<char>>),
> {
    v.map_values(|d: AliasDifference| difference_view(d))
}

/// Walking both tables in key order together: a key in one table only, or
/// in both with different targets, is reported; agreeing keys are not.
pub open spec fn table_differences(
    a: Seq<(Seq<char>, Seq<char>)>,
    b: Seq<(Seq<char>, Seq<char>)>,
) -> Seq<(Seq<char>, AliasSync, Option<Seq<char>>, Option<Seq<char>>)>
    decreases a.len() + b.len(),
{
    if a.len() == 0 && b.len() == 0 {
        seq![]
    } else if a.len() == 0 || (b.len() > 0 && a[0].0 != b[0].0 && !text_lt(a[0].0, b[0].0)) {
        seq![(b[0].0, AliasSync::TsconfigOnly, None, Some(b[0].1))] + table_differences(
            a,
            b.drop_first(),
        )
    } else if b.len() == 0 || a[0].0 != b[0].0 {
        seq![(a[0].0, AliasSync::ViteOnly, Some(a[0].1), None)] + table_differences(
            a.drop_first(),
            b,
        )
    } else if a[0].1 == b[0].1 {
        table_differences(a.drop_first(), b.drop_first())
    } else {
        seq![(a[0].0, AliasSync::Differs, Some(a[0].1), Some(b[0].1))] + table_differences(
            a.drop_first(),
            b.drop_first(),
        )
    }
}

fn copy_string(s: &String) -> (r: String)
    ensures
        r@ == s@,
{
    let c = chars_of(s.as_str());
    string_from(c.as_slice())
}

/// The keys of either table on which they disagree, in key order.
pub fn alias_differences(vite: &AliasTable, tsconfig: &AliasTable) -> (out: Vec<AliasDifference>)
    ensures
        difference_views(out@) == table_differences(vite@, tsconfig@),
{
    let ghost a = vite@;
    let ghost b = tsconfig@;
    let mut out: Vec<AliasDifference> = Vec::new();
    let mut i: usize = 0;
    let mut j: usize = 0;
    assert(a.skip(0) =~= a);
    assert(b.skip(0) =~= b);
    assert(difference_views(out@) =~= Seq::<
        (Seq<char>, AliasSync, Option<Seq<char>>, Option<Seq<char>>),
    >::empty());
    while i < vite.entries.len() || j < tsconfig.entries.len()
        invariant
            a == vite@,
            b == tsconfig@,
            i <= a.len(),
            j <= b.len(),
            table_differences(a, b) == difference_views(out@) + table_differences(
                a.skip(i as int),
                b.skip(j as int),
            ),
        decreases (a.len() - i) + (b.len() - j),
    {
        let ghost sa = a.skip(i as int);
        let ghost sb = b.skip(j as int);
        proof {
            if i < a.len() {
                assert(sa[0] == a[i as int]);
                assert(sa.drop_first() =~= a.skip(i + 1));
            }
            if j < b.len() {
                assert(sb[0] == b[j as int]);
                assert(sb.drop_first() =~= b.skip(j + 1));
            }
        }
        let ghost before = difference_views(out@);
        let take_b: bool;
        let take_a: bool;
        let same_key: bool;
        if i == vite.entries.len() {
            take_b = true;
            take_a = false;
            same_key = false;
        } else if j == tsconfig.entries.len() {
            take_b = false;
            take_a = true;
            same_key = false;
        } else {
            let ka = chars_of(vite.entries[i].0.as_str());
            let kb = chars_of(tsconfig.entries[j].0.as_str());
            let eq = chars_eq(ka.as_slice(), kb.as_slice());
            let lt = !eq && text_le_exec(ka.as_slice(), kb.as_slice());
            same_key = eq;
            take_a = lt;
            take_b = !eq && !lt;
        }
        if take_b {
            let d = AliasDifference {
                key: copy_string(&tsconfig.entries[j].0),
                status: AliasSync::TsconfigOnly,
                vite_target: None,
                tsconfig_target: Some(copy_string(&tsconfig.entries[j].1)),
            };
            out.push(d);
            proof {
                assert(difference_views(out@) =~= before.push(difference_view(d)));
                assert(table_differences(sa, sb) =~= seq![difference_view(d)]
                    + table_differences(sa, sb.drop_first()));
            }
            j += 1;
        } else if take_a {
            let d = AliasDifference {
                key: copy_string(&vite.entries[i].0),
                status: AliasSync::ViteOnly,
                vite_target: Some(copy_string(&vite.entries[i].1)),
                tsconfig_target: None,
            };
            out.push(d);
            proof {
                assert(difference_views(out@) =~= before.push(difference_view(d)));
                assert(table_differences(sa, sb) =~= seq![difference_view(d)]
                    + table_differences(sa.drop_first(), sb));
            }
            i += 1;
        } else {
            let va = chars_of(vite.entries[i].1.as_str());
            let vb = chars_of(tsconfig.entries[j].1.as_str());
            if !chars_eq(va.as_slice(), vb.as_slice()) {
                let d = AliasDifference {
                    key: copy_string(&vite.entries[i].0),
                    status: AliasSync::Differs,
                    vite_target: Some(copy_string(&vite.entries[i].1)),
                    tsconfig_target: Some(copy_string(&tsconfig.entries[j].1)),
                };
                out.push(d);
                proof {
                    assert(difference_views(out@) =~= before.push(difference_view(d)));
                    assert(table_differences(sa, sb) =~= seq![difference_view(d)]
                        + table_differences(sa.drop_first(), sb.drop_first()));
                }
            } else {
                proof {
                    assert(table_differences(sa, sb) == table_differences(
                        sa.drop_first(),
                        sb.drop_first(),
                    ));
                }
            }
            i += 1;
            j += 1;
        }
    }
    proof {
        assert(a.skip(i as int) =~= Seq::<(Seq<char>, Seq<char>)>::empty());
        assert(b.skip(j as int) =~= Seq::<(Seq<char>, Seq<char>)>::empty());
        assert(difference_views(out@) + seq![] =~= difference_views(out@));
    }
    out
}

/// How two tables agree on one key, from the targets they give it.
pub open spec fn sync_of(v: Option<Seq<char>>, t: Option<Seq<char>>) -> AliasSync {
    match (v, t) {
        (Some(x), Some(y)) => if x == y {
            AliasSync::Same
        } else {
            AliasSync::Differs
        },
        (Some(_), None) => AliasSync::ViteOnly,
        (None, Some(_)) => AliasSync::TsconfigOnly,
        (None, None) => AliasSync::Neither,
    }
}

/// Some entry of the table has the key.
pub open spec fn has_key(s: Seq<(Seq<char>, Seq<char>)>, k: Seq<char>) -> bool {
    exists|j: int| 0 <= j < s.len() && (#[trigger] s[j]).0 == k
}

/// Some report is about the key.
pub open spec fn reported(
    d: Seq<(Seq<char>, AliasSync, Option<Seq<char>>, Option<Seq<char>>)>,
    k: Seq<char>,
) -> bool {
    exists|i: int| 0 <= i < d.len() && (#[trigger] d[i]).0 == k
}

proof fn lemma_lookup_has(s: Seq<(Seq<char>, Seq<char>)>, k: Seq<char>)
    ensures
        (lookup(s, k) is Some) == has_key(s, k),
    decreases s.len(),
{
    if s.len() > 0 {
        lemma_lookup_has(s.drop_first(), k);
        if has_key(s, k) && s[0].0 != k {
            let j = choose|j: int| 0 <= j < s.len() && (#[trigger] s[j]).0 == k;
            assert(s.drop_first()[j - 1] == s[j]);
        }
        if has_key(s.drop_first(), k) {
            let j = choose|j: int| 0 <= j < s.drop_first().len() && (#[trigger] s.drop_first()[j]).0 == k;
            assert(s[j + 1] == s.drop_first()[j]);
        }
        if s[0].0 == k {
            assert(s[0].0 == k);
        }
    }
}

proof fn lemma_sorted_tail(s: Seq<(Seq<char>, Seq<char>)>)
    requires
        keys_sorted(s),
        s.len() > 0,
    ensures
        keys_sorted(s.drop_first()),
        !has_key(s.drop_first(), s[0].0),
        forall|j: int| 0 <= j < s.drop_first().len() ==> text_lt(s[0].0, #[trigger] s.drop_first()[j].0),
{
    let t = s.drop_first();
    assert forall|i: int, j: int| 0 <= i < j < t.len() implies text_lt(#[trigger] t[i].0, #[trigger] t[j].0) by {
        assert(t[i] == s[i + 1] && t[j] == s[j + 1]);
    }
    assert forall|j: int| 0 <= j < t.len() implies text_lt(s[0].0, #[trigger] t[j].0) by {
        assert(t[j] == s[j + 1]);
    }
}

/// A key below the first key of a table in key order is not in it.
proof fn lemma_below_first(s: Seq<(Seq<char>, Seq<char>)>, k: Seq<char>)
    requires
        keys_sorted(s),
        s.len() > 0,
        text_lt(k, s[0].0),
    ensures
        !has_key(s, k),
{
    if has_key(s, k) {
        let j = choose|j: int| 0 <= j < s.len() && (#[trigger] s[j]).0 == k;
        if j > 0 {
            assert(text_lt(s[0].0, s[j].0));
            lemma_text_lt_trans(k, s[0].0, s[j].0);
        }
    }
}

proof fn lemma_difference_keys(a: Seq<(Seq<char>, Seq<char>)>, b: Seq<(Seq<char>, Seq<char>)>)
    ensures
        forall|i: int|
            0 <= i < table_differences(a, b).len() ==> has_key(a, (#[trigger] table_differences(a, b)[i]).0)
                || has_key(b, table_differences(a, b)[i].0),
    decreases a.len() + b.len(),
{
    let d = table_differences(a, b);
    if a.len() == 0 && b.len() == 0 {
    } else if a.len() == 0 || (b.len() > 0 && a[0].0 != b[0].0 && !text_lt(a[0].0, b[0].0)) {
        let b1 = b.drop_first();
        lemma_difference_keys(a, b1);
        assert forall|i: int| 0 <= i < d.len() implies has_key(a, (#[trigger] d[i]).0) || has_key(b, d[i].0) by {
            if i == 0 {
                assert(b[0].0 == d[0].0);
            } else {
                assert(d[i] == table_differences(a, b1)[i - 1]);
                if has_key(b1, d[i].0) {
                    let j = choose|j: int| 0 <= j < b1.len() && (#[trigger] b1[j]).0 == d[i].0;
                    assert(b[j + 1] == b1[j]);
                }
            }
        }
    } else if b.len() == 0 || a[0].0 != b[0].0 {
        let a1 = a.drop_first();
        lemma_difference_keys(a1, b);
        assert forall|i: int| 0 <= i < d.len() implies has_key(a, (#[trigger] d[i]).0) || has_key(b, d[i].0) by {
            if i == 0 {
                assert(a[0].0 == d[0].0);
            } else {
                assert(d[i] == table_differences(a1, b)[i - 1]);
                if has_key(a1, d[i].0) {
                    let j = choose|j: int| 0 <= j < a1.len() && (#[trigger] a1[j]).0 == d[i].0;
                    assert(a[j + 1] == a1[j]);
                }
            }
        }
    } else {
        let a1 = a.drop_first();
        let b1 = b.drop_first();
        lemma_difference_keys(a1, b1);
        let rest = table_differences(a1, b1);
        let off: int = if a[0].1 == b[0].1 { 0 } else { 1 };
        assert forall|i: int| 0 <= i < d.len() implies has_key(a, (#[trigger] d[i]).0) || has_key(b, d[i].0) by {
            if i < off {
                assert(a[0].0 == d[0].0);
            } else {
                assert(d[i] == rest[i - off]);
                if has_key(a1, d[i].0) {
                    let j = choose|j: int| 0 <= j < a1.len() && (#[trigger] a1[j]).0 == d[i].0;
                    assert(a[j + 1] == a1[j]);
                } else {
                    let j = choose|j: int| 0 <= j < b1.len() && (#[trigger] b1[j]).0 == d[i].0;
                    assert(b[j + 1] == b1[j]);
                }
            }
        }
    }
}

/// With both tables in key order, a key is reported exactly when the two
/// tables give it different targets (or only one gives it one), and its
/// report carries how they agree and the target each gives.
pub proof fn lemma_differences_report(
    a: Seq<(Seq<char>, Seq<char>)>,
    b: Seq<(Seq<char>, Seq<char>)>,
    k: Seq<char>,
)
    requires
        keys_sorted(a),
        keys_sorted(b),
    ensures
        reported(table_differences(a, b), k) == (lookup(a, k) != lookup(b, k)),
        forall|i: int|
            0 <= i < table_differences(a, b).len() && (#[trigger] table_differences(a, b)[i]).0 == k
                ==> table_differences(a, b)[i] == (
                k,
                sync_of(lookup(a, k), lookup(b, k)),
                lookup(a, k),
                lookup(b, k),
            ),
    decreases a.len() + b.len(),
{
    let d = table_differences(a, b);
    lemma_lookup_has(a, k);
    lemma_lookup_has(b, k);
    if a.len() == 0 && b.len() == 0 {
    } else if a.len() == 0 || (b.len() > 0 && a[0].0 != b[0].0 && !text_lt(a[0].0, b[0].0)) {
        let x = b[0].0;
        let b1 = b.drop_first();
        lemma_sorted_tail(b);
        lemma_differences_report(a, b1, k);
        lemma_difference_keys(a, b1);
        let rest = table_differences(a, b1);
        if a.len() > 0 {
            lemma_text_le_total(a[0].0, x);
            lemma_below_first(a, x);
        }
        lemma_lookup_has(a, x);
        lemma_lookup_has(b1, k);
        assert forall|i: int| 0 <= i < rest.len() implies (#[trigger] rest[i]).0 != x by {
            if has_key(b1, rest[i].0) {
                let j = choose|j: int| 0 <= j < b1.len() && (#[trigger] b1[j]).0 == rest[i].0;
                assert(text_lt(x, b1[j].0));
            }
        }
        assert forall|i: int| 1 <= i < d.len() implies #[trigger] d[i] == rest[i - 1] by {}
        if k == x {
            assert(d[0].0 == k);
        } else {
            if reported(rest, k) {
                let i = choose|i: int| 0 <= i < rest.len() && (#[trigger] rest[i]).0 == k;
                assert(d[i + 1] == rest[i]);
            }
            if reported(d, k) {
                let i = choose|i: int| 0 <= i < d.len() && (#[trigger] d[i]).0 == k;
                assert(rest[i - 1] == d[i]);
            }
        }
    } else if b.len() == 0 || a[0].0 != b[0].0 {
        let x = a[0].0;
        let a1 = a.drop_first();
        lemma_sorted_tail(a);
        lemma_differences_report(a1, b, k);
        lemma_difference_keys(a1, b);
        let rest = table_differences(a1, b);
        if b.len() > 0 {
            lemma_below_first(b, x);
        }
        lemma_lookup_has(b, x);
        lemma_lookup_has(a1, k);
        assert forall|i: int| 0 <= i < rest.len() implies (#[trigger] rest[i]).0 != x by {
            if has_key(a1, rest[i].0) {
                let j = choose|j: int| 0 <= j < a1.len() && (#[trigger] a1[j]).0 == rest[i].0;
                assert(text_lt(x, a1[j].0));
            }
        }
        assert forall|i: int| 1 <= i < d.len() implies #[trigger] d[i] == rest[i - 1] by {}
        if k == x {
            assert(d[0].0 == k);
        } else {
            if reported(rest, k) {
                let i = choose|i: int| 0 <= i < rest.len() && (#[trigger] rest[i]).0 == k;
                assert(d[i + 1] == rest[i]);
            }
            if reported(d, k) {
                let i = choose|i: int| 0 <= i < d.len() && (#[trigger] d[i]).0 == k;
                assert(rest[i - 1] == d[i]);
            }
        }
    } else {
        let x = a[0].0;
        let a1 = a.drop_first();
        let b1 = b.drop_first();
        lemma_sorted_tail(a);
        lemma_sorted_tail(b);
        lemma_differences_report(a1, b1, k);
        lemma_difference_keys(a1, b1);
        let rest = table_differences(a1, b1);
        lemma_lookup_has(a1, k);
        lemma_lookup_has(b1, k);
        assert forall|i: int| 0 <= i < rest.len() implies (#[trigger] rest[i]).0 != x by {
            if has_key(a1, rest[i].0) {
                let j = choose|j: int| 0 <= j < a1.len() && (#[trigger] a1[j]).0 == rest[i].0;
                assert(text_lt(x, a1[j].0));
            } else {
                let j = choose|j: int| 0 <= j < b1.len() && (#[trigger] b1[j]).0 == rest[i].0;
                assert(text_lt(x, b1[j].0));
            }
        }
        let off: int = if a[0].1 == b[0].1 { 0 } else { 1 };
        assert forall|i: int| off <= i < d.len() implies #[trigger] d[i] == rest[i - off] by {}
        if k == x {
            if off == 1 {
                assert(d[0].0 == k);
            }
            if reported(d, k) {
                let i = choose|i: int| 0 <= i < d.len() && (#[trigger] d[i]).0 == k;
                if i >= off {
                    assert(rest[i - off] == d[i]);
                }
            }
        } else {
            if reported(rest, k) {
                let i = choose|i: int| 0 <= i < rest.len() && (#[trigger] rest[i]).0 == k;
                assert(d[i + off] == rest[i]);
            }
            if reported(d, k) {
                let i = choose|i: int| 0 <= i < d.len() && (#[trigger] d[i]).0 == k;
                assert(rest[i - off] == d[i]);
            }
        }
    }
}

// ---------------------------------------------------------------------
// Reporting
// ---------------------------------------------------------------------

/// The title of the finding for a difference.
pub open spec fn difference_title_text(key: Seq<char>, status: AliasSync) -> Seq<char> {
    match status {
        AliasSync::Differs => "Vite alias \""@ + key + "\" differs from tsconfig paths"@,
        AliasSync::ViteOnly => "Vite alias \""@ + key + "\" is missing from tsconfig paths"@,
        _ => "tsconfig path alias \""@ + key + "\" is missing from Vite"@,
    }
}

/// The detail of the finding for a difference.
pub open spec fn difference_detail_text(
    key: Seq<char>,
    status: AliasSync,
    vite: Seq<char>,
    tsconfig: Seq<char>,
) -> Seq<char> {
    match status {
        AliasSync::Differs => "Vite resolves \""@ + key + "\" to "@ + vite
            + ", but tsconfig paths resolves it to "@ + tsconfig + "."@,
        AliasSync::ViteOnly => "Vite resolves \""@ + key + "\" to "@ + vite
            + ", but tsconfig paths does not declare the same key."@,
        _ => "tsconfig paths resolves \""@ + key + "\" to "@ + tsconfig
            + ", but Vite does not declare the same key."@,
    }
}

pub open spec fn target_or_empty(o: Option<String>) -> Seq<char> {
    match o {
        Some(s) => s@,
        None => seq![],
    }
}

impl AliasDifference {
    /// The title of the finding.
    pub fn title(&self) -> (out: String)
        ensures
            out@ == difference_title_text(self.key@, self.status),
    {
        let mut out: Vec<char> = Vec::new();
        match self.status {
            AliasSync::Differs => {
                crate::text::append_str(&mut out, "Vite alias \"");
                crate::text::append_str(&mut out, self.key.as_str());
                crate::text::append_str(&mut out, "\" differs from tsconfig paths");
            },
            AliasSync::ViteOnly => {
                crate::text::append_str(&mut out, "Vite alias \"");
                crate::text::append_str(&mut out, self.key.as_str());
                crate::text::append_str(&mut out, "\" is missing from tsconfig paths");
            },
            _ => {
                crate::text::append_str(&mut out, "tsconfig path alias \"");
                crate::text::append_str(&mut out, self.key.as_str());
                crate::text::append_str(&mut out, "\" is missing from Vite");
            },
        }
        string_from(out.as_slice())
    }

    /// The detail of the finding.
    pub fn detail(&self) -> (out: String)
        ensures
            out@ == difference_detail_text(
                self.key@,
                self.status,
                target_or_empty(self.vite_target),
                target_or_empty(self.tsconfig_target),
            ),
    {
        let vite: &str = match &self.vite_target {
            Some(v) => v.as_str(),
            None => "",
        };
        let ts: &str = match &self.tsconfig_target {
            Some(t) => t.as_str(),
            None => "",
        };
        proof {
            reveal_strlit("");
        }
        let mut out: Vec<char> = Vec::new();
        match self.status {
            AliasSync::Differs => {
                crate::text::append_str(&mut out, "Vite resolves \"");
                crate::text::append_str(&mut out, self.key.as_str());
                crate::text::append_str(&mut out, "\" to ");
                crate::text::append_str(&mut out, vite);
                crate::text::append_str(&mut out, ", but tsconfig paths resolves it to ");
                crate::text::append_str(&mut out, ts);
                crate::text::append_str(&mut out, ".");
            },
            AliasSync::ViteOnly => {
                crate::text::append_str(&mut out, "Vite resolves \"");
                crate::text::append_str(&mut out, self.key.as_str());
                crate::text::append_str(&mut out, "\" to ");
                crate::text::append_str(&mut out, vite);
                crate::text::append_str(
                    &mut out,
                    ", but tsconfig paths does not declare the same key.",
                );
            },
            _ => {
                crate::text::append_str(&mut out, "tsconfig paths resolves \"");
                crate::text::append_str(&mut out, self.key.as_str());
                crate::text::append_str(&mut out, "\" to ");
                crate::text::append_str(&mut out, ts);
                crate::text::append_str(&mut out, ", but Vite does not declare the same key.");
            },
        }
        string_from(out.as_slice())
    }

    /// Differing targets warn; a key on one side only informs.
    pub fn severity(&self) -> (r: Severity)
        ensures
            r == (if self.status == AliasSync::Differs {
                Severity::Warn
            } else {
                Severity::Info
            }),
    {
        match self.status {
            AliasSync::Differs => Severity::Warn,
            _ => Severity::Info,
        }
    }
}


// ---------------------------------------------------------------------
// The findings of a directory
// ---------------------------------------------------------------------

/// The finding of one disagreement, as (id, title, detail, hint, severity,
/// file): a differing or Vite-only key is reported against the Vite
/// config, a tsconfig-only key against the tsconfig file (whose path the id
/// leaves empty when there is none).
pub open spec fn difference_finding(
    vite_path: Seq<char>,
    tsconfig_path: Option<Seq<char>>,
    d: (Seq<char>, AliasSync, Option<Seq<char>>, Option<Seq<char>>),
) -> (Seq<char>, Seq<char>, Seq<char>, Seq<char>, Severity, Option<Seq<char>>) {
    let key = d.0;
    let vite = match d.2 {
        Some(t) => t,
        None => seq![],
    };
    let ts = match d.3 {
        Some(t) => t,
        None => seq![],
    };
    let title = difference_title_text(key, d.1);
    let detail = difference_detail_text(key, d.1, vite, ts);
    match d.1 {
        AliasSync::Differs => (
            "vite-alias-sync:"@ + vite_path + ":"@ + key,
            title,
            detail,
            "Align both alias surfaces so editor and bundler resolution stay in sync."@,
            Severity::Warn,
            Some(vite_path),
        ),
        AliasSync::ViteOnly => (
            "vite-alias-sync:"@ + vite_path + ":"@ + key + ":vite-only"@,
            title,
            detail,
            "Add the alias to tsconfig paths or remove it from Vite so imports resolve consistently."@,
            Severity::Info,
            Some(vite_path),
        ),
        _ => (
            "vite-alias-sync:"@ + match tsconfig_path {
                Some(p) => p,
                None => seq![],
            } + ":"@ + key + ":tsconfig-only"@,
            title,
            detail,
            "Mirror the alias in Vite config or remove it from tsconfig paths if it is not meant for runtime resolution."@,
            Severity::Info,
            tsconfig_path,
        ),
    }
}

fn difference_finding_exec(vite_path: &str, tsconfig_path: Option<&String>, d: &AliasDifference) -> (r: ConfigFinding)
    requires
        d.status == AliasSync::Differs || d.status == AliasSync::ViteOnly || d.status == AliasSync::TsconfigOnly,
    ensures
        crate::config_duplicates::config_view(r) == difference_finding(
            vite_path@,
            match tsconfig_path {
                Some(p) => Some(p@),
                None => None,
            },
            difference_view(*d),
        ),
{
    let title = d.title();
    let detail = d.detail();
    let mut id: Vec<char> = Vec::new();
    crate::text::append_str(&mut id, "vite-alias-sync:");
    match d.status {
        AliasSync::Differs => {
            crate::text::append_str(&mut id, vite_path);
            crate::text::append_str(&mut id, ":");
            crate::text::append_str(&mut id, d.key.as_str());
            ConfigFinding {
                id: string_from(id.as_slice()),
                title,
                detail,
                hint: string_from(
                    chars_of("Align both alias surfaces so editor and bundler resolution stay in sync.").as_slice(),
                ),
                severity: Severity::Warn,
                file: Some(string_from(chars_of(vite_path).as_slice())),
            }
        },
        AliasSync::ViteOnly => {
            crate::text::append_str(&mut id, vite_path);
            crate::text::append_str(&mut id, ":");
            crate::text::append_str(&mut id, d.key.as_str());
            crate::text::append_str(&mut id, ":vite-only");
            ConfigFinding {
                id: string_from(id.as_slice()),
                title,
                detail,
                hint: string_from(
                    chars_of(
                        "Add the alias to tsconfig paths or remove it from Vite so imports resolve consistently.",
                    ).as_slice(),
                ),
                severity: Severity::Info,
                file: Some(string_from(chars_of(vite_path).as_slice())),
            }
        },
        _ => {
            let file = match tsconfig_path {
                Some(p) => {
                    crate::text::append_str(&mut id, p.as_str());
                    Some(string_from(chars_of(p.as_str()).as_slice()))
                },
                None => None,
            };
            crate::text::append_str(&mut id, ":");
            crate::text::append_str(&mut id, d.key.as_str());
            crate::text::append_str(&mut id, ":tsconfig-only");
            ConfigFinding {
                id: string_from(id.as_slice()),
                title,
                detail,
                hint: string_from(
                    chars_of(
                        "Mirror the alias in Vite config or remove it from tsconfig paths if it is not meant for runtime resolution.",
                    ).as_slice(),
                ),
                severity: Severity::Info,
                file,
            }
        },
    }
}

/// Statuses that `table_differences` reports.
proof fn lemma_reported_statuses(a: Seq<(Seq<char>, Seq<char>)>, b: Seq<(Seq<char>, Seq<char>)>)
    ensures
        forall|i: int|
            0 <= i < table_differences(a, b).len() ==> {
                let s = (#[trigger] table_differences(a, b)[i]).1;
                s == AliasSync::Differs || s == AliasSync::ViteOnly || s == AliasSync::TsconfigOnly
            },
    decreases a.len() + b.len(),
{
    let d = table_differences(a, b);
    if a.len() == 0 && b.len() == 0 {
    } else if a.len() == 0 || (b.len() > 0 && a[0].0 != b[0].0 && !text_lt(a[0].0, b[0].0)) {
        lemma_reported_statuses(a, b.drop_first());
        assert forall|i: int| 0 <= i < d.len() implies {
            let s = (#[trigger] d[i]).1;
            s == AliasSync::Differs || s == AliasSync::ViteOnly || s == AliasSync::TsconfigOnly
        } by {
            if i > 0 {
                assert(d[i] == table_differences(a, b.drop_first())[i - 1]);
            }
        }
    } else if b.len() == 0 || a[0].0 != b[0].0 {
        lemma_reported_statuses(a.drop_first(), b);
        assert forall|i: int| 0 <= i < d.len() implies {
            let s = (#[trigger] d[i]).1;
            s == AliasSync::Differs || s == AliasSync::ViteOnly || s == AliasSync::TsconfigOnly
        } by {
            if i > 0 {
                assert(d[i] == table_differences(a.drop_first(), b)[i - 1]);
            }
        }
    } else {
        lemma_reported_statuses(a.drop_first(), b.drop_first());
        let rest = table_differences(a.drop_first(), b.drop_first());
        let off: int = if a[0].1 == b[0].1 { 0 } else { 1 };
        assert forall|i: int| 0 <= i < d.len() implies {
            let s = (#[trigger] d[i]).1;
            s == AliasSync::Differs || s == AliasSync::ViteOnly || s == AliasSync::TsconfigOnly
        } by {
            if i >= off {
                assert(d[i] == rest[i - off]);
            }
        }
    }
}

/// The findings of the Vite/tsconfig alias check for one directory: one
/// per key on which the Vite aliases and the effective tsconfig aliases
/// disagree, in key order.
pub fn alias_sync_findings(
    vite_path: &str,
    tsconfig_path: Option<&String>,
    vite: &AliasTable,
    tsconfig: &AliasTable,
) -> (out: Vec<ConfigFinding>)
    ensures
        config_views(out@) == table_differences(vite@, tsconfig@).map_values(
            |d: (Seq<char>, AliasSync, Option<Seq<char>>, Option<Seq<char>>)|
                difference_finding(
                    vite_path@,
                    match tsconfig_path {
                        Some(p) => Some(p@),
                        None => None,
                    },
                    d,
                ),
        ),
{
    let ds = alias_differences(vite, tsconfig);
    let ghost tp = match tsconfig_path {
        Some(p) => Some(p@),
        None => None::<Seq<char>>,
    };
    let ghost want = table_differences(vite@, tsconfig@).map_values(
        |d: (Seq<char>, AliasSync, Option<Seq<char>>, Option<Seq<char>>)|
            difference_finding(vite_path@, tp, d),
    );
    proof {
        lemma_reported_statuses(vite@, tsconfig@);
    }
    let mut out: Vec<ConfigFinding> = Vec::new();
    let mut i: usize = 0;
    while i < ds.len()
        invariant
            i <= ds@.len(),
            difference_views(ds@) == table_differences(vite@, tsconfig@),
            tp == match tsconfig_path {
                Some(p) => Some(p@),
                None => None::<Seq<char>>,
            },
            want == table_differences(vite@, tsconfig@).map_values(
                |d: (Seq<char>, AliasSync, Option<Seq<char>>, Option<Seq<char>>)|
                    difference_finding(vite_path@, tp, d),
            ),
            forall|k: int|
                0 <= k < table_differences(vite@, tsconfig@).len() ==> {
                    let s = (#[trigger] table_differences(vite@, tsconfig@)[k]).1;
                    s == AliasSync::Differs || s == AliasSync::ViteOnly || s == AliasSync::TsconfigOnly
                },
            config_views(out@) == want.take(i as int),
        decreases ds@.len() - i,
    {
        assert(difference_views(ds@)[i as int] == difference_view(ds@[i as int]));
        assert(table_differences(vite@, tsconfig@)[i as int].1 == ds@[i as int].status);
        let f = difference_finding_exec(vite_path, tsconfig_path, &ds[i]);
        let ghost before = out@;
        out.push(f);
        assert(config_views(out@) =~= config_views(before).push(crate::config_duplicates::config_view(f)));
        assert(want.take(i + 1) =~= want.take(i as int).push(want[i as int]));
        i += 1;
    }
    assert(want.take(ds@.len() as int) =~= want);
    out
}

} // verus!
