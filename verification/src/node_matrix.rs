//! `engines.node` ranges against the Node versions of a GitHub Actions matrix.
use vstd::prelude::*;
use crate::gitignore::{path_file_name, path_file_name_chars};
use crate::json::{as_str_spec, get, get_spec, get_str, JsonValue};
use crate::text::{
    append_chars, append_str, chars_eq_str, chars_of, debug_str, decimal, digit_value,
    digits_value, is_digit, is_whitespace, is_ws, join_chars, join_with, slice_chars,
    spec_debug_str, starts_with, starts_with_chars, string_from, trim, trim_chars,
    trim_start_char, trim_start_char_chars, u64_decimal,
};

verus! {

// ---------------------------------------------------------------------
// Leading majors
// ---------------------------------------------------------------------

/// The leading run of ASCII digits.
pub open spec fn leading_digits(s: Seq<char>) -> Seq<char>
    decreases s.len(),
{
    if s.len() > 0 && is_digit(s[0]) {
        seq![s[0]] + leading_digits(s.drop_first())
    } else {
        seq![]
    }
}

/// The number the leading digits spell, when there are
/// some and it fits in a `u32`.
pub open spec fn major_prefix(s: Seq<char>) -> Option<u32> {
    let d = leading_digits(s);
    if d.len() == 0 || digits_value(d) > u32::MAX {
        None
    } else {
        Some(digits_value(d) as u32)
    }
}

proof fn lemma_leading_digits(s: Seq<char>, k: int)
    requires
        0 <= k <= s.len(),
        forall|j: int| 0 <= j < k ==> is_digit(s[j]),
        k == s.len() || !is_digit(s[k]),
    ensures
        leading_digits(s) == s.take(k),
    decreases k,
{
    if k == 0 {
        assert(s.take(0) =~= Seq::<char>::empty());
    } else {
        lemma_leading_digits(s.drop_first(), k - 1);
        assert(s.take(k) =~= seq![s[0]] + s.drop_first().take(k - 1));
    }
}

pub fn major_at_start_chars(s: &[char]) -> (r: Option<u32>)
    ensures
        r == major_prefix(s@),
{
    let n = s.len();
    let mut k: usize = 0;
    let mut acc: u64 = 0;
    let mut overflow = false;
    while k < n && '0' <= s[k] && s[k] <= '9'
        invariant
            n == s@.len(),
            k <= n,
            forall|j: int| 0 <= j < k ==> is_digit(s@[j]),
            !overflow ==> acc == digits_value(s@.take(k as int)) && acc <= u32::MAX,
            overflow ==> digits_value(s@.take(k as int)) > u32::MAX,
        decreases n - k,
    {
        proof {
            assert(s@.take(k + 1).drop_last() =~= s@.take(k as int));
            assert(s@.take(k + 1).last() == s@[k as int]);
        }
        if !overflow {
            let d: u64 = (s[k] as u64) - 48;
            assert(d as int == digit_value(s@[k as int]));
            acc = acc * 10 + d;
            if acc > 4294967295 {
                overflow = true;
            }
        }
        k += 1;
    }
    proof {
        lemma_leading_digits(s@, k as int);
    }
    if k == 0 || overflow {
        None
    } else {
        Some(acc as u32)
    }
}

/// The Node major version at the start of a version text, after an optional `v`.
pub fn major_at_start(value: &str) -> (r: Option<u32>)
    ensures
        r == major_prefix(value@),
{
    let v = chars_of(value);
    major_at_start_chars(v.as_slice())
}

/// The major after a comparator prefix and any `v`s.
pub open spec fn comparator_major_spec(token: Seq<char>, comparator: Seq<char>) -> Option<u32> {
    if starts_with(token, comparator) {
        major_prefix(trim_start_char(token.skip(comparator.len() as int), 'v'))
    } else {
        None
    }
}

fn comparator_major_chars(token: &[char], comparator: &[char]) -> (r: Option<u32>)
    ensures
        r == comparator_major_spec(token@, comparator@),
{
    if !starts_with_chars(token, comparator) {
        return None;
    }
    let rest = slice_chars(token, comparator.len(), token.len());
    assert(rest@ =~= token@.skip(comparator@.len() as int));
    let t = trim_start_char_chars(rest.as_slice(), 'v');
    major_at_start_chars(t.as_slice())
}

/// The major version that follows a comparator at the start of a token.
pub fn comparator_major(token: &str, comparator: &str) -> (r: Option<u32>)
    ensures
        r == comparator_major_spec(token@, comparator@),
{
    let t = chars_of(token);
    let c = chars_of(comparator);
    comparator_major_chars(t.as_slice(), c.as_slice())
}

/// The token is one of `>=`, `>`, `<=`, `<`, `=`.
pub open spec fn standalone_comparator(t: Seq<char>) -> bool {
    t == seq!['>', '='] || t == seq!['>'] || t == seq!['<', '='] || t == seq!['<'] || t == seq!['=']
}

fn is_standalone_comparator_chars(t: &[char]) -> (r: bool)
    ensures
        r == standalone_comparator(t@),
{
    let r = (t.len() == 2 && t[0] == '>' && t[1] == '=') || (t.len() == 1 && t[0] == '>') || (t.len()
        == 2 && t[0] == '<' && t[1] == '=') || (t.len() == 1 && t[0] == '<') || (t.len() == 1 && t[0]
        == '=');
    proof {
        if t@ == seq!['>', '='] || t@ == seq!['<', '='] {
            assert(t@.len() == 2);
        }
        if t@ == seq!['>'] || t@ == seq!['<'] || t@ == seq!['='] {
            assert(t@.len() == 1);
        }
        if r {
            if t@.len() == 2 && t@[0] == '>' {
                assert(t@ =~= seq!['>', '=']);
            } else if t@.len() == 2 {
                assert(t@ =~= seq!['<', '=']);
            } else if t@[0] == '>' {
                assert(t@ =~= seq!['>']);
            } else if t@[0] == '<' {
                assert(t@ =~= seq!['<']);
            } else {
                assert(t@ =~= seq!['=']);
            }
        }
    }
    r
}

/// Whether a token is a comparator alone, waiting for its version in the next token.
pub fn is_standalone_comparator(token: &str) -> (r: bool)
    ensures
        r == standalone_comparator(token@),
{
    let t = chars_of(token);
    is_standalone_comparator_chars(t.as_slice())
}

// ---------------------------------------------------------------------
// Tokens
// ---------------------------------------------------------------------

/// The index of the first whitespace character, or the length.
pub open spec fn first_ws(s: Seq<char>) -> int
    decreases s.len(),
{
    if s.len() == 0 || is_ws(s[0]) {
        0
    } else {
        1 + first_ws(s.drop_first())
    }
}

pub proof fn lemma_first_ws(s: Seq<char>)
    ensures
        0 <= first_ws(s) <= s.len(),
        first_ws(s) < s.len() ==> is_ws(s[first_ws(s)]),
        forall|j: int| 0 <= j < first_ws(s) ==> !is_ws(s[j]),
    decreases s.len(),
{
    if s.len() > 0 && !is_ws(s[0]) {
        lemma_first_ws(s.drop_first());
        assert forall|j: int| 0 <= j < first_ws(s) implies !is_ws(s[j]) by {
            if j > 0 {
                assert(s[j] == s.drop_first()[j - 1]);
            }
        }
    }
}

/// Drop leading whitespace (`trim_start`), by the same measure as `first_ws`.
pub open spec fn skip_ws(s: Seq<char>) -> Seq<char>
    decreases s.len(),
{
    if s.len() > 0 && is_ws(s[0]) {
        skip_ws(s.drop_first())
    } else {
        s
    }
}

pub proof fn lemma_skip_ws_len(s: Seq<char>)
    ensures
        skip_ws(s).len() <= s.len(),
        skip_ws(s).len() > 0 ==> !is_ws(skip_ws(s)[0]),
    decreases s.len(),
{
    if s.len() > 0 && is_ws(s[0]) {
        lemma_skip_ws_len(s.drop_first());
    }
}

/// `str::split_whitespace`: the maximal runs of non-whitespace characters.
pub open spec fn words(s: Seq<char>) -> Seq<Seq<char>>
    decreases s.len(),
{
    let t = skip_ws(s);
    if t.len() == 0 {
        seq![]
    } else {
        proof {
            lemma_skip_ws_len(s);
            lemma_first_ws(t);
        }
        let k = first_ws(t);
        seq![t.take(k)] + words(t.skip(k))
    }
}

/// `trim_matches(',')`.
pub open spec fn trim_commas(s: Seq<char>) -> Seq<char> {
    crate::text::trim_end_char(trim_start_char(s, ','), ',')
}

/// Pair each standalone comparator with the word after it.
pub open spec fn pair_tokens(raw: Seq<Seq<char>>) -> Seq<Seq<char>>
    decreases raw.len(),
{
    if raw.len() == 0 {
        seq![]
    } else {
        let t = trim_commas(raw[0]);
        if standalone_comparator(t) && raw.len() >= 2 {
            seq![t + trim_commas(raw[1])] + pair_tokens(raw.skip(2))
        } else {
            seq![t] + pair_tokens(raw.skip(1))
        }
    }
}

/// The tokens of one `||` group of an engine range, a bare comparator joined to the version after it.
pub open spec fn range_tokens(group: Seq<char>) -> Seq<Seq<char>> {
    pair_tokens(words(group))
}

pub open spec fn vviews(v: Seq<Vec<char>>) -> Seq<Seq<char>> {
    v.map_values(|x: Vec<char>| x@)
}

fn words_of(s: &[char]) -> (out: Vec<Vec<char>>)
    ensures
        vviews(out@) == words(s@),
{
    let n = s.len();
    let mut out: Vec<Vec<char>> = Vec::new();
    let mut i: usize = 0;
    assert(s@.skip(0) =~= s@);
    loop
        invariant
            n == s@.len(),
            i <= n,
            words(s@) == vviews(out@) + words(s@.skip(i as int)),
        decreases n - i,
    {
        // skip whitespace
        let ghost at_i = s@.skip(i as int);
        let ghost i_head = i;
        while i < n && is_whitespace(s[i])
            invariant
                n == s@.len(),
                i_head <= i <= n,
                skip_ws(at_i) == skip_ws(s@.skip(i as int)),
                words(at_i) == words(s@.skip(i as int)),
            decreases n - i,
        {
            assert(s@.skip(i as int).drop_first() =~= s@.skip(i + 1));
            i += 1;
        }
        proof {
            if i < n {
                assert(s@.skip(i as int)[0] == s@[i as int]);
            }
        }
        if i == n {
            proof {
                assert(s@.skip(i as int).len() == 0);
                assert(vviews(out@) + words(s@.skip(i as int)) =~= vviews(out@));
            }
            return out;
        }
        let start = i;
        assert(!is_ws(s@[start as int]));
        while i < n && !is_whitespace(s[i])
            invariant
                n == s@.len(),
                start < n,
                !is_ws(s@[start as int]),
                start <= i <= n,
                forall|j: int| start <= j < i ==> !is_ws(s@[j]),
            decreases n - i,
        {
            i += 1;
        }
        assert(i > start);
        let word = slice_chars(s, start, i);
        proof {
            let t = s@.skip(start as int);
            assert(skip_ws(t) == t);
            lemma_first_ws(t);
            assert(first_ws(t) == i - start) by {
                let f = first_ws(t);
                if f < i - start {
                    assert(t[f] == s@[start + f]);
                } else if f > i - start {
                    assert(t[i - start] == s@[i as int]);
                }
            }
            assert(t.take(i - start) =~= word@);
            assert(t.skip(i - start) =~= s@.skip(i as int));
            let ghost before = vviews(out@);
            assert(words(at_i) == seq![word@] + words(s@.skip(i as int)));
        }
        let ghost before = vviews(out@);
        out.push(word);
        proof {
            assert(vviews(out@) =~= before.push(out@.last()@));
            assert(words(s@) =~= vviews(out@) + words(s@.skip(i as int)));
        }
    }
}

fn trim_commas_chars(s: &[char]) -> (out: Vec<char>)
    ensures
        out@ == trim_commas(s@),
{
    let a = trim_start_char_chars(s, ',');
    crate::text::trim_end_char_chars(a.as_slice(), ',')
}

fn range_tokens_chars(group: &[char]) -> (out: Vec<Vec<char>>)
    ensures
        vviews(out@) == range_tokens(group@),
{
    let raw = words_of(group);
    let ghost rv = vviews(raw@);
    let mut out: Vec<Vec<char>> = Vec::new();
    let mut index: usize = 0;
    assert(rv.skip(0) =~= rv);
    while index < raw.len()
        invariant
            index <= raw@.len(),
            rv == vviews(raw@),
            rv == words(group@),
            pair_tokens(rv) == vviews(out@) + pair_tokens(rv.skip(index as int)),
        decreases raw@.len() - index,
    {
        let ghost rest = rv.skip(index as int);
        assert(rest[0] == raw@[index as int]@);
        let token = trim_commas_chars(raw[index].as_slice());
        let ghost before = vviews(out@);
        if is_standalone_comparator_chars(token.as_slice()) && index + 1 < raw.len() {
            let next = trim_commas_chars(raw[index + 1].as_slice());
            let mut joined = token;
            append_chars(&mut joined, next.as_slice());
            proof {
                assert(rest[1] == raw@[index + 1]@);
                assert(rest.skip(2) =~= rv.skip(index + 2));
            }
            out.push(joined);
            index += 2;
        } else {
            proof {
                assert(rest.skip(1) =~= rv.skip(index + 1));
            }
            out.push(token);
            index += 1;
        }
        proof {
            assert(vviews(out@) =~= before.push(out@.last()@));
        }
    }
    proof {
        assert(rv.skip(index as int).len() == 0);
        assert(vviews(out@) + pair_tokens(rv.skip(index as int)) =~= vviews(out@));
    }
    out
}

/// Words, with a standalone comparator joined to the
/// word after it, and commas trimmed from both ends of each.
pub fn engine_range_tokens(group: &str) -> (out: Vec<String>)
    ensures
        out@.len() == range_tokens(group@).len(),
        forall|k: int| 0 <= k < out@.len() ==> #[trigger] out@[k]@ == range_tokens(group@)[k],
{
    let g = chars_of(group);
    let ts = range_tokens_chars(g.as_slice());
    let mut out: Vec<String> = Vec::new();
    let mut i: usize = 0;
    while i < ts.len()
        invariant
            i <= ts@.len(),
            vviews(ts@) == range_tokens(group@),
            out@.len() == i,
            forall|k: int| 0 <= k < i ==> #[trigger] out@[k]@ == range_tokens(group@)[k],
        decreases ts@.len() - i,
    {
        assert(ts@[i as int]@ == vviews(ts@)[i as int]);
        out.push(string_from(ts[i].as_slice()));
        i += 1;
    }
    out
}

// ---------------------------------------------------------------------
// Ranges
// ---------------------------------------------------------------------

/// A supported range of Node majors; a missing bound is open.
pub struct EngineRange {
    pub min_major: Option<u32>,
    pub max_major: Option<u32>,
}

/// Alternative ranges (`||`).
pub struct EngineRequirement {
    pub ranges: Vec<EngineRange>,
}

pub open spec fn range_supports(min: Option<u32>, max: Option<u32>, major: u32) -> bool {
    !(min is Some && major < min->0) && !(max is Some && major > max->0)
}

impl EngineRange {
    /// `EngineRange::supports`: the major lies within both bounds.
    pub fn supports(&self, major: u32) -> (r: bool)
        ensures
            r == range_supports(self.min_major, self.max_major, major),
    {
        match self.min_major {
            Some(min_major) => {
                if major < min_major {
                    return false;
                }
            },
            None => {},
        }
        match self.max_major {
            Some(max_major) => {
                if major > max_major {
                    return false;
                }
            },
            None => {},
        }
        true
    }
}

pub open spec fn bounds(rs: Seq<EngineRange>) -> Seq<(Option<u32>, Option<u32>)> {
    rs.map_values(|r: EngineRange| (r.min_major, r.max_major))
}

/// Some range supports the major.
pub open spec fn requirement_supports(rs: Seq<(Option<u32>, Option<u32>)>, major: u32) -> bool {
    exists|k: int| 0 <= k < rs.len() && #[trigger] range_supports(rs[k].0, rs[k].1, major)
}

/// The lower bounds of the ranges.
pub open spec fn is_required_major(rs: Seq<(Option<u32>, Option<u32>)>, major: u32) -> bool {
    exists|k: int| 0 <= k < rs.len() && #[trigger] rs[k].0 == Some(major)
}

/// Strictly increasing: a set listed in ascending order.
pub open spec fn ascending(v: Seq<u32>) -> bool {
    forall|i: int, j: int| 0 <= i < j < v.len() ==> v[i] < v[j]
}

/// Insert into an ascending list, keeping it ascending.
pub fn insert_sorted(v: &mut Vec<u32>, x: u32)
    requires
        ascending(old(v)@),
    ensures
        ascending(final(v)@),
        forall|y: u32| final(v)@.contains(y) <==> (old(v)@.contains(y) || y == x),
{
    let n = v.len();
    let mut i: usize = 0;
    while i < n && v[i] < x
        invariant
            n == v@.len(),
            i <= n,
            forall|k: int| 0 <= k < i ==> v@[k] < x,
        decreases n - i,
    {
        i += 1;
    }
    if i < n && v[i] == x {
        return;
    }
    let ghost old_v = v@;
    v.insert(i, x);
    proof {
        assert(v@ =~= old_v.take(i as int).push(x) + old_v.skip(i as int));
        assert forall|a: int, b: int| 0 <= a < b < v@.len() implies v@[a] < v@[b] by {
            if b < i {
            } else if b == i {
            } else if a < i {
                assert(old_v[a] < x);
                assert(x < old_v[i as int]);
                assert(old_v[i as int] <= old_v[b - 1]) by {
                    if (i as int) < b - 1 {
                    }
                }
            } else if a == i {
                assert(x < old_v[i as int]);
                if (i as int) < b - 1 {
                    assert(old_v[i as int] < old_v[b - 1]);
                }
            } else {
                assert(old_v[a - 1] < old_v[b - 1]);
            }
        }
        assert forall|y: u32| v@.contains(y) <==> (old_v.contains(y) || y == x) by {
            if v@.contains(y) {
                let k = choose|k: int| 0 <= k < v@.len() && v@[k] == y;
                if k < i {
                    assert(old_v[k] == y);
                } else if k > i {
                    assert(old_v[k - 1] == y);
                }
            }
            if old_v.contains(y) {
                let k = choose|k: int| 0 <= k < old_v.len() && old_v[k] == y;
                if k < i {
                    assert(v@[k] == y);
                } else {
                    assert(v@[k + 1] == y);
                }
            }
            if y == x {
                assert(v@[i as int] == x);
            }
        }
    }
}

impl EngineRequirement {
    /// `EngineRequirement::supports`: some range supports the major.
    pub fn supports(&self, major: u32) -> (r: bool)
        ensures
            r == requirement_supports(bounds(self.ranges@), major),
    {
        let mut i: usize = 0;
        while i < self.ranges.len()
            invariant
                i <= self.ranges@.len(),
                forall|k: int|
                    0 <= k < i ==> !#[trigger] range_supports(
                        bounds(self.ranges@)[k].0,
                        bounds(self.ranges@)[k].1,
                        major,
                    ),
            decreases self.ranges@.len() - i,
        {
            if self.ranges[i].supports(major) {
                assert(range_supports(bounds(self.ranges@)[i as int].0, bounds(self.ranges@)[i as int].1, major));
                return true;
            }
            i += 1;
        }
        false
    }

    /// `EngineRequirement::required_majors`: the lower bounds, ascending.
    pub fn required_majors(&self) -> (out: Vec<u32>)
        ensures
            ascending(out@),
            forall|m: u32| out@.contains(m) <==> is_required_major(bounds(self.ranges@), m),
    {
        let mut out: Vec<u32> = Vec::new();
        let mut i: usize = 0;
        while i < self.ranges.len()
            invariant
                i <= self.ranges@.len(),
                ascending(out@),
                forall|m: u32|
                    out@.contains(m) <==> exists|k: int|
                        0 <= k < i && #[trigger] bounds(self.ranges@)[k].0 == Some(m),
            decreases self.ranges@.len() - i,
        {
            let ghost before = out@;
            match self.ranges[i].min_major {
                Some(m) => {
                    insert_sorted(&mut out, m);
                    proof {
                        assert forall|y: u32| out@.contains(y) <==> exists|k: int|
                            0 <= k < i + 1 && #[trigger] bounds(self.ranges@)[k].0 == Some(y) by {
                            if y == m {
                                assert(bounds(self.ranges@)[i as int].0 == Some(y));
                            }
                            if exists|k: int| 0 <= k < i + 1 && #[trigger] bounds(self.ranges@)[k].0 == Some(y) {
                                let k = choose|k: int| 0 <= k < i + 1 && #[trigger] bounds(self.ranges@)[k].0 == Some(y);
                                if k == i {
                                    assert(y == m);
                                } else {
                                    assert(before.contains(y));
                                }
                            }
                        }
                    }
                },
                None => {
                    proof {
                        assert forall|y: u32| out@.contains(y) <==> exists|k: int|
                            0 <= k < i + 1 && #[trigger] bounds(self.ranges@)[k].0 == Some(y) by {
                            if exists|k: int| 0 <= k < i + 1 && #[trigger] bounds(self.ranges@)[k].0 == Some(y) {
                                let k = choose|k: int| 0 <= k < i + 1 && #[trigger] bounds(self.ranges@)[k].0 == Some(y);
                                assert(k != i);
                            }
                        }
                    }
                },
            }
            i += 1;
        }
        out
    }
}

/// The bounds state while reading a range's tokens:
/// `(min_major, max_major, recognized)`.
pub open spec fn raise_min(o: Option<u32>, m: u32) -> Option<u32> {
    match o {
        Some(c) => Some(if c >= m { c } else { m }),
        None => Some(m),
    }
}

pub open spec fn lower_max(o: Option<u32>, m: u32) -> Option<u32> {
    match o {
        Some(c) => Some(if c <= m { c } else { m }),
        None => Some(m),
    }
}

/// One token of a range: `>=N` raises the floor to N, `>N` to N+1
/// (saturating), `<=N` lowers the ceiling to N, `<N` to N-1 (and is
/// ignored for N = 0); other `>`/`<` tokens are ignored; a bare version,
/// after any `=`, `^` and `~` runs, pins both bounds to its major.
pub open spec fn range_step(st: (Option<u32>, Option<u32>, bool), token: Seq<char>) -> (
    Option<u32>,
    Option<u32>,
    bool,
) {
    let t = trim_commas(token);
    if let Some(m) = comparator_major_spec(t, seq!['>', '=']) {
        (raise_min(st.0, m), st.1, true)
    } else if let Some(m) = comparator_major_spec(t, seq!['>']) {
        let m1 = if m == u32::MAX {
            m
        } else {
            (m + 1) as u32
        };
        (raise_min(st.0, m1), st.1, true)
    } else if let Some(m) = comparator_major_spec(t, seq!['<', '=']) {
        (st.0, lower_max(st.1, m), true)
    } else if let Some(m) = comparator_major_spec(t, seq!['<']) {
        if m == 0 {
            st
        } else {
            (st.0, lower_max(st.1, (m - 1) as u32), true)
        }
    } else if t.len() > 0 && (t[0] == '>' || t[0] == '<') {
        st
    } else if let Some(m) = major_prefix(
        trim_start_char(trim_start_char(trim_start_char(t, '='), '^'), '~'),
    ) {
        (raise_min(st.0, m), lower_max(st.1, m), true)
    } else {
        st
    }
}

pub open spec fn range_fold(tokens: Seq<Seq<char>>) -> (Option<u32>, Option<u32>, bool)
    decreases tokens.len(),
{
    if tokens.len() == 0 {
        (None, None, false)
    } else {
        range_step(range_fold(tokens.drop_last()), tokens.last())
    }
}

/// The bounds the tokens set, when at least one token
/// was recognized and the floor does not exceed the ceiling.
pub open spec fn engine_range_spec(group: Seq<char>) -> Option<(Option<u32>, Option<u32>)> {
    let st = range_fold(range_tokens(group));
    if !st.2 || (st.0 is Some && st.1 is Some && st.0->0 > st.1->0) {
        None
    } else {
        Some((st.0, st.1))
    }
}

fn lit2(a: char, b: char) -> (v: Vec<char>)
    ensures
        v@ == seq![a, b],
{
    let v = vec![a, b];
    assert(v@ =~= seq![a, b]);
    v
}

fn lit1(a: char) -> (v: Vec<char>)
    ensures
        v@ == seq![a],
{
    let v = vec![a];
    assert(v@ =~= seq![a]);
    v
}

fn range_step_exec(
    min: Option<u32>,
    max: Option<u32>,
    recognized: bool,
    token: &[char],
) -> (r: (Option<u32>, Option<u32>, bool))
    ensures
        r == range_step((min, max, recognized), token@),
{
    let t = trim_commas_chars(token);
    let ge = lit2('>', '=');
    let gt = lit1('>');
    let le = lit2('<', '=');
    let lt = lit1('<');
    if let Some(m) = comparator_major_chars(t.as_slice(), ge.as_slice()) {
        let nm = match min {
            Some(c) => if c >= m {
                c
            } else {
                m
            },
            None => m,
        };
        return (Some(nm), max, true);
    }
    if let Some(m) = comparator_major_chars(t.as_slice(), gt.as_slice()) {
        let m1 = if m == u32::MAX {
            m
        } else {
            m + 1
        };
        let nm = match min {
            Some(c) => if c >= m1 {
                c
            } else {
                m1
            },
            None => m1,
        };
        return (Some(nm), max, true);
    }
    if let Some(m) = comparator_major_chars(t.as_slice(), le.as_slice()) {
        let nx = match max {
            Some(c) => if c <= m {
                c
            } else {
                m
            },
            None => m,
        };
        return (min, Some(nx), true);
    }
    if let Some(m) = comparator_major_chars(t.as_slice(), lt.as_slice()) {
        if m == 0 {
            return (min, max, recognized);
        }
        let m1 = m - 1;
        let nx = match max {
            Some(c) => if c <= m1 {
                c
            } else {
                m1
            },
            None => m1,
        };
        return (min, Some(nx), true);
    }
    if t.len() > 0 && (t[0] == '>' || t[0] == '<') {
        return (min, max, recognized);
    }
    let a = trim_start_char_chars(t.as_slice(), '=');
    let b = trim_start_char_chars(a.as_slice(), '^');
    let c = trim_start_char_chars(b.as_slice(), '~');
    if let Some(m) = major_at_start_chars(c.as_slice()) {
        let nm = match min {
            Some(x) => if x >= m {
                x
            } else {
                m
            },
            None => m,
        };
        let nx = match max {
            Some(x) => if x <= m {
                x
            } else {
                m
            },
            None => m,
        };
        return (Some(nm), Some(nx), true);
    }
    (min, max, recognized)
}

fn parse_engine_range_chars(group: &[char]) -> (r: Option<EngineRange>)
    ensures
        match r {
            Some(range) => engine_range_spec(group@) == Some((range.min_major, range.max_major)),
            None => engine_range_spec(group@) is None,
        },
{
    let tokens = range_tokens_chars(group);
    let ghost tv = vviews(tokens@);
    let mut min: Option<u32> = None;
    let mut max: Option<u32> = None;
    let mut recognized = false;
    let mut i: usize = 0;
    while i < tokens.len()
        invariant
            i <= tokens@.len(),
            tv == vviews(tokens@),
            tv == range_tokens(group@),
            (min, max, recognized) == range_fold(tv.take(i as int)),
        decreases tokens@.len() - i,
    {
        proof {
            assert(tv.take(i + 1).drop_last() =~= tv.take(i as int));
            assert(tv.take(i + 1).last() == tokens@[i as int]@);
        }
        let (a, b, c) = range_step_exec(min, max, recognized, tokens[i].as_slice());
        min = a;
        max = b;
        recognized = c;
        i += 1;
    }
    assert(tv.take(tokens@.len() as int) =~= tv);
    if !recognized {
        return None;
    }
    match (min, max) {
        (Some(a), Some(b)) => {
            if a > b {
                return None;
            }
        },
        _ => {},
    }
    Some(EngineRange { min_major: min, max_major: max })
}

/// The lowest and highest Node majors one `||` group of an engine range allows.
pub fn parse_engine_range(group: &str) -> (r: Option<EngineRange>)
    ensures
        match r {
            Some(range) => engine_range_spec(group@) == Some((range.min_major, range.max_major)),
            None => engine_range_spec(group@) is None,
        },
{
    let g = chars_of(group);
    parse_engine_range_chars(g.as_slice())
}

/// The index of the first `||`, or the length when there is none.
pub open spec fn first_bars(s: Seq<char>) -> int
    decreases s.len(),
{
    if s.len() < 2 {
        s.len() as int
    } else if s[0] == '|' && s[1] == '|' {
        0
    } else {
        1 + first_bars(s.drop_first())
    }
}

pub proof fn lemma_first_bars(s: Seq<char>)
    ensures
        0 <= first_bars(s) <= s.len(),
        first_bars(s) < s.len() ==> first_bars(s) + 1 < s.len() && s[first_bars(s)] == '|' && s[first_bars(s) + 1] == '|',
        forall|j: int| 0 <= j < first_bars(s) && j + 1 < s.len() ==> !(#[trigger] s[j] == '|' && s[j + 1] == '|'),
    decreases s.len(),
{
    if s.len() >= 2 && !(s[0] == '|' && s[1] == '|') {
        lemma_first_bars(s.drop_first());
        assert forall|j: int| 0 <= j < first_bars(s) && j + 1 < s.len() implies !(#[trigger] s[j] == '|' && s[j + 1] == '|') by {
            if j > 0 {
                assert(s[j] == s.drop_first()[j - 1]);
                assert(s[j + 1] == s.drop_first()[j]);
            }
        }
    }
}

/// `str::split("||")`.
pub open spec fn split_bars(s: Seq<char>) -> Seq<Seq<char>>
    decreases s.len(),
{
    let k = first_bars(s);
    if k < s.len() {
        proof {
            lemma_first_bars(s);
        }
        seq![s.take(k)] + split_bars(s.skip(k + 2))
    } else {
        seq![s]
    }
}

/// The ranges of the `||` alternatives that parse, in order.
pub open spec fn parsed_ranges(groups: Seq<Seq<char>>) -> Seq<(Option<u32>, Option<u32>)>
    decreases groups.len(),
{
    if groups.len() == 0 {
        seq![]
    } else {
        match engine_range_spec(trim(groups.last())) {
            Some(r) => parsed_ranges(groups.drop_last()).push(r),
            None => parsed_ranges(groups.drop_last()),
        }
    }
}

/// A range whose bounds, when both are present, are in order.
pub open spec fn range_well_formed(r: (Option<u32>, Option<u32>)) -> bool {
    r.0 is Some && r.1 is Some ==> r.0->0 <= r.1->0
}

/// Every parsed range has its bounds in order.
pub proof fn lemma_parsed_ranges_well_formed(groups: Seq<Seq<char>>)
    ensures
        forall|k: int| 0 <= k < parsed_ranges(groups).len() ==> range_well_formed(#[trigger] parsed_ranges(groups)[k]),
    decreases groups.len(),
{
    if groups.len() > 0 {
        lemma_parsed_ranges_well_formed(groups.drop_last());
        let prev = parsed_ranges(groups.drop_last());
        match engine_range_spec(trim(groups.last())) {
            Some(r) => {
                assert(range_well_formed(r));
                assert forall|k: int| 0 <= k < parsed_ranges(groups).len() implies range_well_formed(
                    #[trigger] parsed_ranges(groups)[k],
                ) by {
                    if k < prev.len() {
                        assert(parsed_ranges(groups)[k] == prev[k]);
                    }
                }
            },
            None => {},
        }
    }
}

/// The ranges of the alternatives; nothing
/// when none of them parses.
pub open spec fn engine_requirement_spec(engine: Seq<char>) -> Option<Seq<(Option<u32>, Option<u32>)>> {
    let rs = parsed_ranges(split_bars(engine));
    if rs.len() == 0 {
        None
    } else {
        Some(rs)
    }
}

fn split_bars_chars(s: &[char]) -> (out: Vec<Vec<char>>)
    ensures
        vviews(out@) == split_bars(s@),
{
    let n = s.len();
    let mut out: Vec<Vec<char>> = Vec::new();
    let mut start: usize = 0;
    assert(s@.skip(0) =~= s@);
    loop
        invariant
            n == s@.len(),
            start <= n,
            split_bars(s@) == vviews(out@) + split_bars(s@.skip(start as int)),
        decreases n - start,
    {
        let ghost rest = s@.skip(start as int);
        proof {
            lemma_first_bars(rest);
        }
        let mut i: usize = start;
        while n > 0 && i < n - 1 && !(s[i] == '|' && s[i + 1] == '|')
            invariant
                n == s@.len(),
                start <= i <= n,
                rest == s@.skip(start as int),
                first_bars(rest) == (i - start) + first_bars(s@.skip(i as int)),
            decreases n - i,
        {
            proof {
                assert(s@.skip(i as int).drop_first() =~= s@.skip(i + 1));
            }
            i += 1;
        }
        let ghost before = vviews(out@);
        if n > 0 && i < n - 1 {
            proof {
                assert(first_bars(s@.skip(i as int)) == 0);
                assert(rest.take(i - start) =~= s@.subrange(start as int, i as int));
                assert(rest.skip(i - start + 2) =~= s@.skip(i + 2));
            }
            let piece = slice_chars(s, start, i);
            out.push(piece);
            proof {
                assert(vviews(out@) =~= before.push(out@.last()@));
                assert(split_bars(s@) =~= vviews(out@) + split_bars(s@.skip(i + 2)));
            }
            start = i + 2;
        } else {
            proof {
                assert(first_bars(s@.skip(i as int)) == s@.skip(i as int).len());
                assert(first_bars(rest) == rest.len());
            }
            let piece = slice_chars(s, start, n);
            out.push(piece);
            proof {
                assert(rest =~= s@.subrange(start as int, n as int));
                assert(vviews(out@) =~= before.push(out@.last()@));
                assert(split_bars(s@) =~= vviews(out@));
            }
            return out;
        }
    }
}

/// Every Node major that a parsed `engines.node` requirement names as a
/// lower bound is one that the requirement supports.
pub proof fn lemma_required_majors_are_supported(engine: Seq<char>, major: u32)
    requires
        engine_requirement_spec(engine) is Some,
        is_required_major(engine_requirement_spec(engine)->0, major),
    ensures
        requirement_supports(engine_requirement_spec(engine)->0, major),
{
    let rs = engine_requirement_spec(engine)->0;
    lemma_parsed_ranges_well_formed(split_bars(engine));
    let k = choose|k: int| 0 <= k < rs.len() && #[trigger] rs[k].0 == Some(major);
    assert(range_well_formed(rs[k]));
    assert(range_supports(rs[k].0, rs[k].1, major));
}

/// The Node major ranges an `engines.node` requirement allows, one per `||` group.
pub fn parse_engine_requirement(engine: &str) -> (r: Option<EngineRequirement>)
    ensures
        match r {
            Some(req) => engine_requirement_spec(engine@) == Some(bounds(req.ranges@)),
            None => engine_requirement_spec(engine@) is None,
        },
{
    let e = chars_of(engine);
    let groups = split_bars_chars(e.as_slice());
    let ghost gv = vviews(groups@);
    let mut ranges: Vec<EngineRange> = Vec::new();
    let mut i: usize = 0;
    while i < groups.len()
        invariant
            i <= groups@.len(),
            gv == vviews(groups@),
            gv == split_bars(engine@),
            bounds(ranges@) == parsed_ranges(gv.take(i as int)),
        decreases groups@.len() - i,
    {
        proof {
            assert(gv.take(i + 1).drop_last() =~= gv.take(i as int));
            assert(gv.take(i + 1).last() == groups@[i as int]@);
        }
        let g = trim_chars(groups[i].as_slice());
        let ghost before = bounds(ranges@);
        match parse_engine_range_chars(g.as_slice()) {
            Some(range) => {
                ranges.push(range);
                assert(bounds(ranges@) =~= before.push((ranges@.last().min_major, ranges@.last().max_major)));
            },
            None => {},
        }
        i += 1;
    }
    assert(gv.take(groups@.len() as int) =~= gv);
    if ranges.len() == 0 {
        None
    } else {
        Some(EngineRequirement { ranges })
    }
}

// ---------------------------------------------------------------------
// The finding detail
// ---------------------------------------------------------------------

/// Two ascending lists with the same elements are the same list.
pub proof fn lemma_ascending_unique(a: Seq<u32>, b: Seq<u32>)
    requires
        ascending(a),
        ascending(b),
        forall|x: u32| a.contains(x) <==> b.contains(x),
    ensures
        a == b,
    decreases a.len(),
{
    if a.len() == 0 {
        if b.len() > 0 {
            assert(b.contains(b[0]));
        }
        assert(a =~= b);
    } else {
        assert(a.contains(a[0]));
        assert(b.len() > 0);
        assert(b.contains(b[0]));
        let ka = choose|k: int| 0 <= k < a.len() && a[k] == b[0];
        let kb = choose|k: int| 0 <= k < b.len() && b[k] == a[0];
        assert(a[0] == b[0]) by {
            if ka > 0 {
                assert(a[0] < a[ka]);
            }
            if kb > 0 {
                assert(b[0] < b[kb]);
            }
        }
        let a1 = a.drop_first();
        let b1 = b.drop_first();
        assert forall|x: u32| a1.contains(x) <==> b1.contains(x) by {
            if a1.contains(x) {
                let k = choose|k: int| 0 <= k < a1.len() && a1[k] == x;
                assert(a[k + 1] == x);
                assert(a[0] < x);
                assert(b.contains(x));
                let j = choose|j: int| 0 <= j < b.len() && b[j] == x;
                assert(j != 0);
                assert(b1[j - 1] == x);
            }
            if b1.contains(x) {
                let k = choose|k: int| 0 <= k < b1.len() && b1[k] == x;
                assert(b[k + 1] == x);
                assert(b[0] < x);
                assert(a.contains(x));
                let j = choose|j: int| 0 <= j < a.len() && a[j] == x;
                assert(j != 0);
                assert(a1[j - 1] == x);
            }
        }
        lemma_ascending_unique(a1, b1);
        assert(a =~= b) by {
            assert forall|k: int| 0 <= k < a.len() implies a[k] == b[k] by {
                if k > 0 {
                    assert(a[k] == a1[k - 1]);
                    assert(b[k] == b1[k - 1]);
                }
            }
        }
    }
}

/// The lower bounds of the ranges, ascending.
pub open spec fn required_listing(rs: Seq<(Option<u32>, Option<u32>)>) -> Seq<u32> {
    choose|r: Seq<u32>| ascending(r) && forall|m: u32| r.contains(m) <==> is_required_major(rs, m)
}

/// The elements of `r` that `ws` lacks, in order.
pub open spec fn keep_missing(r: Seq<u32>, ws: Seq<u32>) -> Seq<u32>
    decreases r.len(),
{
    if r.len() == 0 {
        seq![]
    } else if ws.contains(r.last()) {
        keep_missing(r.drop_last(), ws)
    } else {
        keep_missing(r.drop_last(), ws).push(r.last())
    }
}

/// The versions no range supports, in order.
pub open spec fn keep_unsupported(ws: Seq<u32>, rs: Seq<(Option<u32>, Option<u32>)>) -> Seq<u32>
    decreases ws.len(),
{
    if ws.len() == 0 {
        seq![]
    } else if requirement_supports(rs, ws.last()) {
        keep_unsupported(ws.drop_last(), rs)
    } else {
        keep_unsupported(ws.drop_last(), rs).push(ws.last())
    }
}

/// `Node N` for each version, joined with `, `.
pub open spec fn render_majors(vs: Seq<u32>) -> Seq<char> {
    join_with(vs.map_values(|v: u32| "Node "@ + decimal(v as nat)), ", "@)
}

/// Node majors as text, joined by `, `.
pub fn render_node_majors(versions: &[u32]) -> (out: String)
    ensures
        out@ == render_majors(versions@),
{
    let ghost items = versions@.map_values(|v: u32| "Node "@ + decimal(v as nat));
    let mut parts: Vec<Vec<char>> = Vec::new();
    let mut i: usize = 0;
    while i < versions.len()
        invariant
            i <= versions@.len(),
            items == versions@.map_values(|v: u32| "Node "@ + decimal(v as nat)),
            parts@.len() == i,
            forall|k: int| 0 <= k < i ==> #[trigger] parts@[k]@ == items[k],
        decreases versions@.len() - i,
    {
        let mut item: Vec<char> = Vec::new();
        append_str(&mut item, "Node ");
        let d = u64_decimal(versions[i] as u64);
        append_chars(&mut item, d.as_slice());
        parts.push(item);
        i += 1;
    }
    let joined = join_chars(&parts, ", ");
    assert(parts@.map_values(|x: Vec<char>| x@) =~= items);
    string_from(joined.as_slice())
}

fn render_majors_chars(versions: &[u32]) -> (out: Vec<char>)
    ensures
        out@ == render_majors(versions@),
{
    let s = render_node_majors(versions);
    chars_of(s.as_str())
}

/// Why the `engines.node` range and the matrix
/// versions disagree, or nothing when they agree or the range cannot be
/// read.  With no matrix versions at all the detail says so.
pub open spec fn node_matrix_detail_spec(engine: Seq<char>, ws: Seq<u32>) -> Option<Seq<char>> {
    let lead = "package.json engines.node is "@ + spec_debug_str(engine);
    if ws.len() == 0 {
        Some(lead + ", but no concrete GitHub Actions Node versions were found."@)
    } else {
        match engine_requirement_spec(engine) {
            None => None,
            Some(rs) => {
                let missing = keep_missing(required_listing(rs), ws);
                let unsupported = keep_unsupported(ws, rs);
                let problems = (if missing.len() > 0 {
                    seq!["the Actions matrix does not include supported "@ + render_majors(missing)]
                } else {
                    seq![]
                }) + (if unsupported.len() > 0 {
                    seq!["the Actions matrix includes unsupported "@ + render_majors(unsupported)]
                } else {
                    seq![]
                });
                if problems.len() == 0 {
                    None
                } else {
                    Some(
                        lead + ", while GitHub Actions declares "@ + render_majors(ws) + ": "@
                            + join_with(problems, "; "@) + "."@,
                    )
                }
            },
        }
    }
}

/// The detail of the Node matrix finding, if the workflow matrix and the
/// engine range disagree; the matrix versions are a set, listed ascending.
pub fn node_matrix_detail(engine: &str, workflow_versions: &[u32]) -> (out: Option<String>)
    requires
        ascending(workflow_versions@),
    ensures
        match out {
            Some(s) => node_matrix_detail_spec(engine@, workflow_versions@) == Some(s@),
            None => node_matrix_detail_spec(engine@, workflow_versions@) is None,
        },
{
    let mut lead: Vec<char> = Vec::new();
    append_str(&mut lead, "package.json engines.node is ");
    let dbg = debug_str(engine);
    append_str(&mut lead, dbg.as_str());
    if workflow_versions.len() == 0 {
        append_str(&mut lead, ", but no concrete GitHub Actions Node versions were found.");
        return Some(string_from(lead.as_slice()));
    }
    let requirement = match parse_engine_requirement(engine) {
        Some(r) => r,
        None => {
            return None;
        },
    };
    let ghost rs = bounds(requirement.ranges@);
    let required = requirement.required_majors();
    proof {
        lemma_ascending_unique(required@, required_listing(rs));
    }
    // missing = required minus workflow versions
    let mut missing: Vec<u32> = Vec::new();
    let mut i: usize = 0;
    while i < required.len()
        invariant
            i <= required@.len(),
            missing@ == keep_missing(required@.take(i as int), workflow_versions@),
        decreases required@.len() - i,
    {
        proof {
            assert(required@.take(i + 1).drop_last() =~= required@.take(i as int));
            assert(required@.take(i + 1).last() == required@[i as int]);
        }
        let x = required[i];
        let mut found = false;
        let mut k: usize = 0;
        while k < workflow_versions.len()
            invariant
                k <= workflow_versions@.len(),
                found == exists|j: int| 0 <= j < k && workflow_versions@[j] == x,
            decreases workflow_versions@.len() - k,
        {
            if workflow_versions[k] == x {
                found = true;
            }
            k += 1;
        }
        if !found {
            missing.push(x);
        }
        i += 1;
    }
    assert(required@.take(required@.len() as int) =~= required@);
    // unsupported = workflow versions no range supports
    let mut unsupported: Vec<u32> = Vec::new();
    let mut j: usize = 0;
    while j < workflow_versions.len()
        invariant
            j <= workflow_versions@.len(),
            rs == bounds(requirement.ranges@),
            unsupported@ == keep_unsupported(workflow_versions@.take(j as int), rs),
        decreases workflow_versions@.len() - j,
    {
        proof {
            assert(workflow_versions@.take(j + 1).drop_last() =~= workflow_versions@.take(j as int));
            assert(workflow_versions@.take(j + 1).last() == workflow_versions@[j as int]);
        }
        if !requirement.supports(workflow_versions[j]) {
            unsupported.push(workflow_versions[j]);
        }
        j += 1;
    }
    assert(workflow_versions@.take(workflow_versions@.len() as int) =~= workflow_versions@);
    let mut problems: Vec<Vec<char>> = Vec::new();
    if missing.len() > 0 {
        let mut p: Vec<char> = Vec::new();
        append_str(&mut p, "the Actions matrix does not include supported ");
        let r = render_majors_chars(missing.as_slice());
        append_chars(&mut p, r.as_slice());
        problems.push(p);
    }
    if unsupported.len() > 0 {
        let mut p: Vec<char> = Vec::new();
        append_str(&mut p, "the Actions matrix includes unsupported ");
        let r = render_majors_chars(unsupported.as_slice());
        append_chars(&mut p, r.as_slice());
        problems.push(p);
    }
    let ghost expected = (if missing@.len() > 0 {
        seq!["the Actions matrix does not include supported "@ + render_majors(missing@)]
    } else {
        seq![]
    }) + (if unsupported@.len() > 0 {
        seq!["the Actions matrix includes unsupported "@ + render_majors(unsupported@)]
    } else {
        seq![]
    });
    assert(problems@.map_values(|x: Vec<char>| x@) =~= expected);
    if problems.len() == 0 {
        return None;
    }
    append_str(&mut lead, ", while GitHub Actions declares ");
    let all = render_majors_chars(workflow_versions);
    append_chars(&mut lead, all.as_slice());
    append_str(&mut lead, ": ");
    let joined = join_chars(&problems, "; ");
    append_chars(&mut lead, joined.as_slice());
    append_str(&mut lead, ".");
    Some(string_from(lead.as_slice()))
}

// ---------------------------------------------------------------------
// Workflow files
// ---------------------------------------------------------------------

/// Cut at the first `#` outside quotes; a backslash
/// keeps the next character as it is.
pub open spec fn strip_yaml(s: Seq<char>, quote: Option<char>, escaped: bool) -> Seq<char>
    decreases s.len(),
{
    if s.len() == 0 {
        seq![]
    } else {
        let c = s[0];
        let rest = s.drop_first();
        if escaped {
            seq![c] + strip_yaml(rest, quote, false)
        } else if c == '\\' {
            seq![c] + strip_yaml(rest, quote, true)
        } else if quote == Some(c) {
            seq![c] + strip_yaml(rest, None, false)
        } else if quote is None && (c == '"' || c == '\'') {
            seq![c] + strip_yaml(rest, Some(c), false)
        } else if quote is None && c == '#' {
            seq![]
        } else {
            seq![c] + strip_yaml(rest, quote, false)
        }
    }
}

fn strip_yaml_comment_chars(line: &[char]) -> (out: Vec<char>)
    ensures
        out@ == strip_yaml(line@, None, false),
{
    let n = line.len();
    let mut out: Vec<char> = Vec::new();
    let mut quote: Option<char> = None;
    let mut escaped = false;
    let mut i: usize = 0;
    assert(line@.skip(0) =~= line@);
    while i < n
        invariant
            n == line@.len(),
            i <= n,
            strip_yaml(line@, None, false) == out@ + strip_yaml(line@.skip(i as int), quote, escaped),
        decreases n - i,
    {
        let c = line[i];
        proof {
            assert(line@.skip(i as int).drop_first() =~= line@.skip(i + 1));
            assert(line@.skip(i as int)[0] == c);
        }
        if escaped {
            out.push(c);
            escaped = false;
        } else if c == '\\' {
            out.push(c);
            escaped = true;
        } else if quote == Some(c) {
            quote = None;
            out.push(c);
        } else if quote.is_none() && (c == '"' || c == '\'') {
            quote = Some(c);
            out.push(c);
        } else if quote.is_none() && c == '#' {
            return out;
        } else {
            out.push(c);
        }
        i += 1;
    }
    out
}

/// A YAML line up to a `#` that starts a comment outside quotes.
pub fn strip_yaml_comment(line: &str) -> (out: String)
    ensures
        out@ == strip_yaml(line@, None, false),
{
    let l = chars_of(line);
    let r = strip_yaml_comment_chars(l.as_slice());
    string_from(r.as_slice())
}

/// Both sides of the first `:`, trimmed.
pub open spec fn yaml_key_value(line: Seq<char>) -> Option<(Seq<char>, Seq<char>)> {
    let k = crate::text::first_index(line, ':');
    if k < line.len() {
        Some((trim(line.take(k)), trim(line.skip(k + 1))))
    } else {
        None
    }
}

fn split_yaml_key_value_chars(line: &[char]) -> (out: Option<(Vec<char>, Vec<char>)>)
    ensures
        match out {
            Some((k, v)) => yaml_key_value(line@) == Some((k@, v@)),
            None => yaml_key_value(line@) is None,
        },
{
    let k = crate::text::index_of_from(line, ':', 0);
    assert(line@.skip(0) =~= line@);
    if k < line.len() {
        let key = slice_chars(line, 0, k);
        let value = slice_chars(line, k + 1, line.len());
        assert(key@ =~= line@.take(k as int));
        assert(value@ =~= line@.skip(k + 1));
        Some((trim_chars(key.as_slice()), trim_chars(value.as_slice())))
    } else {
        None
    }
}

/// The key and value of a `key: value` YAML line.
pub fn split_yaml_key_value(line: &str) -> (out: Option<(String, String)>)
    ensures
        match out {
            Some((k, v)) => yaml_key_value(line@) == Some((k@, v@)),
            None => yaml_key_value(line@) is None,
        },
{
    let l = chars_of(line);
    match split_yaml_key_value_chars(l.as_slice()) {
        Some((k, v)) => Some((string_from(k.as_slice()), string_from(v.as_slice()))),
        None => None,
    }
}

/// Drop a leading `- ` and the
/// whitespace after it.
pub open spec fn yaml_sequence_mapping(line: Seq<char>) -> Seq<char> {
    if starts_with(line, seq!['-', ' ']) {
        crate::text::trim_start(line.skip(2))
    } else {
        line
    }
}

fn normalize_yaml_sequence_mapping_chars(line: &[char]) -> (out: Vec<char>)
    ensures
        out@ == yaml_sequence_mapping(line@),
{
    let dash = lit2('-', ' ');
    if starts_with_chars(line, dash.as_slice()) {
        let rest = slice_chars(line, 2, line.len());
        assert(rest@ =~= line@.skip(2));
        crate::text::trim_start_chars(rest.as_slice())
    } else {
        slice_chars(line, 0, line.len())
    }
}

/// A YAML line with a leading `- ` of a sequence item removed.
pub fn normalize_yaml_sequence_mapping(line: &str) -> (out: String)
    ensures
        out@ == yaml_sequence_mapping(line@),
{
    let l = chars_of(line);
    let r = normalize_yaml_sequence_mapping_chars(l.as_slice());
    assert(r@ == yaml_sequence_mapping(line@));
    string_from(r.as_slice())
}

/// The characters that separate versions in a matrix value.
pub open spec fn version_sep(c: char) -> bool {
    c == '[' || c == ']' || c == ',' || c == '"' || c == '\'' || is_ws(c)
}

/// The index of the first separator, or the length.
pub open spec fn first_sep(s: Seq<char>) -> int
    decreases s.len(),
{
    if s.len() == 0 || version_sep(s[0]) {
        0
    } else {
        1 + first_sep(s.drop_first())
    }
}

pub proof fn lemma_first_sep(s: Seq<char>)
    ensures
        0 <= first_sep(s) <= s.len(),
        first_sep(s) < s.len() ==> version_sep(s[first_sep(s)]),
    decreases s.len(),
{
    if s.len() > 0 && !version_sep(s[0]) {
        lemma_first_sep(s.drop_first());
    }
}

/// The pieces between separators (empty pieces included).
pub open spec fn version_pieces(s: Seq<char>) -> Seq<Seq<char>>
    decreases s.len(),
{
    let k = first_sep(s);
    if k < s.len() {
        proof {
            lemma_first_sep(s);
        }
        seq![s.take(k)] + version_pieces(s.skip(k + 1))
    } else {
        seq![s]
    }
}

/// The majors a matrix value names: each piece, after leading `v`s, that
/// starts with digits.
pub open spec fn value_majors(value: Seq<char>) -> Set<u32> {
    Set::new(
        |m: u32|
            exists|k: int|
                0 <= k < version_pieces(value).len() && #[trigger] major_prefix(
                    trim_start_char(version_pieces(value)[k], 'v'),
                ) == Some(m),
    )
}

fn is_version_sep(c: char) -> (r: bool)
    ensures
        r == version_sep(c),
{
    c == '[' || c == ']' || c == ',' || c == '"' || c == '\'' || is_whitespace(c)
}

fn version_pieces_of(s: &[char]) -> (out: Vec<Vec<char>>)
    ensures
        vviews(out@) == version_pieces(s@),
{
    let n = s.len();
    let mut out: Vec<Vec<char>> = Vec::new();
    let mut start: usize = 0;
    assert(s@.skip(0) =~= s@);
    loop
        invariant
            n == s@.len(),
            start <= n,
            version_pieces(s@) == vviews(out@) + version_pieces(s@.skip(start as int)),
        decreases n - start,
    {
        let ghost rest = s@.skip(start as int);
        proof {
            lemma_first_sep(rest);
        }
        let mut i: usize = start;
        while i < n && !is_version_sep(s[i])
            invariant
                n == s@.len(),
                start <= i <= n,
                first_sep(rest) == (i - start) + first_sep(s@.skip(i as int)),
            decreases n - i,
        {
            proof {
                assert(s@.skip(i as int).drop_first() =~= s@.skip(i + 1));
            }
            i += 1;
        }
        let ghost before = vviews(out@);
        if i < n {
            proof {
                assert(s@.skip(i as int)[0] == s@[i as int]);
                assert(first_sep(s@.skip(i as int)) == 0);
                assert(rest.take(i - start) =~= s@.subrange(start as int, i as int));
                assert(rest.skip(i - start + 1) =~= s@.skip(i + 1));
            }
            let piece = slice_chars(s, start, i);
            out.push(piece);
            proof {
                assert(vviews(out@) =~= before.push(out@.last()@));
                assert(version_pieces(s@) =~= vviews(out@) + version_pieces(s@.skip(i + 1)));
            }
            start = i + 1;
        } else {
            proof {
                assert(s@.skip(i as int).len() == 0);
                assert(first_sep(rest) == rest.len());
            }
            let piece = slice_chars(s, start, n);
            out.push(piece);
            proof {
                assert(rest =~= s@.subrange(start as int, n as int));
                assert(vviews(out@) =~= before.push(out@.last()@));
                assert(version_pieces(s@) =~= vviews(out@));
            }
            return out;
        }
    }
}

/// Add the majors a matrix value names.
pub fn collect_node_versions(value: &str, versions: &mut Vec<u32>)
    requires
        ascending(old(versions)@),
    ensures
        ascending(final(versions)@),
        forall|m: u32| final(versions)@.contains(m) <==> (old(versions)@.contains(m) || value_majors(value@).contains(m)),
{
    let v = chars_of(value);
    collect_node_versions_chars(v.as_slice(), versions);
}

/// The majors the first `i` pieces name.
pub open spec fn piece_majors(ps: Seq<Seq<char>>, i: int) -> Set<u32> {
    Set::new(|m: u32| exists|k: int| 0 <= k < i && #[trigger] major_prefix(trim_start_char(ps[k], 'v')) == Some(m))
}

fn collect_node_versions_chars(v: &[char], versions: &mut Vec<u32>)
    requires
        ascending(old(versions)@),
    ensures
        ascending(final(versions)@),
        forall|m: u32| final(versions)@.contains(m) <==> (old(versions)@.contains(m) || value_majors(v@).contains(m)),
{
    let pieces = version_pieces_of(v);
    let ghost ps = version_pieces(v@);
    let ghost start = versions@;
    let mut i: usize = 0;
    while i < pieces.len()
        invariant
            i <= pieces@.len(),
            vviews(pieces@) == ps,
            ps == version_pieces(v@),
            ascending(versions@),
            forall|m: u32| #[trigger] versions@.contains(m) <==> (start.contains(m) || piece_majors(ps, i as int).contains(m)),
        decreases pieces@.len() - i,
    {
        assert(pieces@[i as int]@ == ps[i as int]);
        let t = trim_start_char_chars(pieces[i].as_slice(), 'v');
        let ghost before = versions@;
        let r = major_at_start_chars(t.as_slice());
        match r {
            Some(m) => {
                insert_sorted(versions, m);
            },
            None => {},
        }
        proof {
            assert forall|y: u32| #[trigger] versions@.contains(y) <==> (start.contains(y) || piece_majors(ps, i + 1).contains(y)) by {
                assert(before.contains(y) <==> (start.contains(y) || piece_majors(ps, i as int).contains(y)));
                if piece_majors(ps, i + 1).contains(y) {
                    let k = choose|k: int| 0 <= k < i + 1 && #[trigger] major_prefix(trim_start_char(ps[k], 'v')) == Some(y);
                    if k < i {
                        assert(piece_majors(ps, i as int).contains(y));
                    } else {
                        assert(r == Some(y));
                    }
                }
                if piece_majors(ps, i as int).contains(y) {
                    let k = choose|k: int| 0 <= k < i && #[trigger] major_prefix(trim_start_char(ps[k], 'v')) == Some(y);
                    assert(piece_majors(ps, i + 1).contains(y));
                }
                if r == Some(y) {
                    assert(major_prefix(trim_start_char(ps[i as int], 'v')) == Some(y));
                    assert(piece_majors(ps, i + 1).contains(y));
                }
            }
        }
        i += 1;
    }
    proof {
        assert forall|m: u32| piece_majors(ps, i as int).contains(m) <==> value_majors(v@).contains(m) by {}
    }
}

/// The count of leading whitespace characters.
pub open spec fn indent_of(line: Seq<char>) -> int
    decreases line.len(),
{
    if line.len() > 0 && is_ws(line[0]) {
        1 + indent_of(line.drop_first())
    } else {
        0
    }
}

/// One line of a workflow file.  The state is the indentation of an open
/// `node:`/`node-version:` block sequence (if any) and the majors found so
/// far: items deeper than an open block add their majors; a line at or
/// above its indentation closes it; a `node`/`node-version` key opens a block
/// when its value is empty and otherwise adds the value's majors.
pub open spec fn workflow_line_step(st: (Option<int>, Set<u32>), line: Seq<char>) -> (Option<int>, Set<u32>) {
    let trimmed = trim(strip_yaml(line, None, false));
    if trimmed.len() == 0 {
        st
    } else {
        let indent = indent_of(line);
        if st.0 is Some && indent > st.0->0 && trimmed[0] == '-' {
            (st.0, st.1.union(value_majors(trim(trim_start_char(trimmed, '-')))))
        } else {
            let active = if st.0 is Some && indent <= st.0->0 {
                None
            } else {
                st.0
            };
            match yaml_key_value(yaml_sequence_mapping(trimmed)) {
                None => (active, st.1),
                Some((key, value)) => if key != "node"@ && key != "node-version"@ {
                    (active, st.1)
                } else if value.len() == 0 {
                    (Some(indent), st.1)
                } else {
                    (active, st.1.union(value_majors(value)))
                },
            }
        }
    }
}

pub open spec fn workflow_fold(ls: Seq<Seq<char>>) -> (Option<int>, Set<u32>)
    decreases ls.len(),
{
    if ls.len() == 0 {
        (None, Set::empty())
    } else {
        workflow_line_step(workflow_fold(ls.drop_last()), ls.last())
    }
}

/// The majors a workflow file's `node`/`node-version` entries name.
pub open spec fn workflow_majors(text: Seq<char>) -> Set<u32> {
    workflow_fold(crate::text::lines(text)).1
}

fn indent_count(line: &[char]) -> (n: usize)
    ensures
        n == indent_of(line@),
{
    let k = crate::text::trim_start_len(line);
    proof {
        lemma_indent(line@, k as int);
    }
    k
}

proof fn lemma_indent(s: Seq<char>, k: int)
    requires
        0 <= k <= s.len(),
        forall|j: int| 0 <= j < k ==> is_ws(s[j]),
        crate::text::trim_start(s) == s.skip(k),
    ensures
        indent_of(s) == k,
    decreases k,
{
    if k == 0 {
        assert(s.skip(0) =~= s);
        if s.len() > 0 && is_ws(s[0]) {
            assert(crate::text::trim_start(s) == crate::text::trim_start(s.drop_first()));
            lemma_trim_start_shorter(s.drop_first());
        }
    } else {
        assert(s.drop_first().skip(k - 1) =~= s.skip(k));
        lemma_indent(s.drop_first(), k - 1);
    }
}

proof fn lemma_trim_start_shorter(s: Seq<char>)
    ensures
        crate::text::trim_start(s).len() <= s.len(),
    decreases s.len(),
{
    if s.len() > 0 && is_ws(s[0]) {
        lemma_trim_start_shorter(s.drop_first());
    }
}

/// The Node majors a workflow file names,
/// ascending.
pub fn parse_workflow_node_versions(text: &str) -> (out: Vec<u32>)
    ensures
        ascending(out@),
        forall|m: u32| out@.contains(m) <==> workflow_majors(text@).contains(m),
{
    let t = chars_of(text);
    let ls = crate::text::lines_of(t.as_slice());
    let ghost all = crate::text::lines(text@);
    let mut versions: Vec<u32> = Vec::new();
    let mut active: Option<usize> = None;
    let mut i: usize = 0;
    while i < ls.len()
        invariant
            i <= ls@.len(),
            ls@.len() == all.len(),
            forall|k: int| 0 <= k < ls@.len() ==> #[trigger] ls@[k]@ == all[k],
            ascending(versions@),
            workflow_fold(all.take(i as int)).0 == match active {
                Some(a) => Some(a as int),
                None => None,
            },
            forall|m: u32| versions@.contains(m) <==> workflow_fold(all.take(i as int)).1.contains(m),
        decreases ls@.len() - i,
    {
        proof {
            assert(all.take(i + 1).drop_last() =~= all.take(i as int));
            assert(all.take(i + 1).last() == all[i as int]);
        }
        let ghost st = workflow_fold(all.take(i as int));
        let line = &ls[i];
        let stripped = strip_yaml_comment_chars(line.as_slice());
        let trimmed = trim_chars(stripped.as_slice());
        if trimmed.len() == 0 {
            i += 1;
            continue;
        }
        let indent = indent_count(line.as_slice());
        let mut handled = false;
        match active {
            Some(seq_indent) => {
                if indent > seq_indent && trimmed[0] == '-' {
                    let a = trim_start_char_chars(trimmed.as_slice(), '-');
                    let b = trim_chars(a.as_slice());
                    let ghost before = versions@;
                    collect_node_versions_chars(b.as_slice(), &mut versions);
                    proof {
                        assert forall|m: u32| versions@.contains(m) <==> workflow_fold(all.take(i + 1)).1.contains(m) by {}
                    }
                    handled = true;
                } else if indent <= seq_indent {
                    active = None;
                }
            },
            None => {},
        }
        if !handled {
            let mapping = normalize_yaml_sequence_mapping_chars(trimmed.as_slice());
            match split_yaml_key_value_chars(mapping.as_slice()) {
                Some((key, value)) => {
                    let is_node = chars_eq_str(key.as_slice(), "node");
                    let is_node_version = chars_eq_str(key.as_slice(), "node-version");
                    if is_node || is_node_version {
                        if value.len() == 0 {
                            active = Some(indent);
                        } else {
                            collect_node_versions_chars(value.as_slice(), &mut versions);
                            proof {
                                assert forall|m: u32| versions@.contains(m) <==> workflow_fold(all.take(i + 1)).1.contains(m) by {}
                            }
                        }
                    }
                },
                None => {},
            }
        }
        i += 1;
    }
    assert(all.take(ls@.len() as int) =~= all);
    versions
}

/// `Path::extension` of a `/`-separated path: what follows the last `.` of
/// its file name, unless that `.` starts the name.
pub open spec fn path_extension(path: Seq<char>) -> Option<Seq<char>> {
    match path_file_name(path) {
        None => None,
        Some(name) => {
            let d = last_dot(name);
            if d <= 0 {
                None
            } else {
                Some(name.skip(d + 1))
            }
        },
    }
}

/// The index of the last `.` (or -1).
pub open spec fn last_dot(s: Seq<char>) -> int
    decreases s.len(),
{
    if s.len() == 0 {
        -1
    } else if s.last() == '.' {
        s.len() - 1
    } else {
        last_dot(s.drop_last())
    }
}

proof fn lemma_last_dot(s: Seq<char>)
    ensures
        -1 <= last_dot(s) < s.len(),
        last_dot(s) >= 0 ==> s[last_dot(s)] == '.',
        forall|j: int| last_dot(s) < j < s.len() ==> s[j] != '.',
    decreases s.len(),
{
    if s.len() > 0 {
        lemma_last_dot(s.drop_last());
        if s.last() != '.' {
            assert forall|j: int| last_dot(s) < j < s.len() implies s[j] != '.' by {
                if j < s.len() - 1 {
                    assert(s.drop_last()[j] == s[j]);
                }
            }
        }
    }
}

/// The extension is `yml` or `yaml`.
pub open spec fn workflow_file(path: Seq<char>) -> bool {
    path_extension(path) == Some("yml"@) || path_extension(path) == Some("yaml"@)
}

/// Whether a path is a GitHub Actions workflow file.
pub fn is_workflow_file(path: &str) -> (r: bool)
    ensures
        r == workflow_file(path@),
{
    let p = chars_of(path);
    let name = match path_file_name_chars(p.as_slice()) {
        Some(n) => n,
        None => {
            return false;
        },
    };
    proof {
        lemma_last_dot(name@);
    }
    let mut j: usize = name.len();
    while j > 0 && name[j - 1] != '.'
        invariant
            j <= name@.len(),
            forall|k: int| j <= k < name@.len() ==> name@[k] != '.',
        decreases j,
    {
        j -= 1;
    }
    // j - 1 is the last dot when j > 0
    proof {
        if j > 0 {
            assert(last_dot(name@) == j - 1) by {
                let d = last_dot(name@);
                if d < j - 1 {
                } else if d > j - 1 {
                }
            }
        } else {
            assert(last_dot(name@) == -1) by {
                let d = last_dot(name@);
                if d >= 0 {
                }
            }
        }
    }
    if j <= 1 {
        return false;
    }
    let ext = slice_chars(name.as_slice(), j, name.len());
    assert(ext@ =~= name@.skip(j as int));
    chars_eq_str(ext.as_slice(), "yml") || chars_eq_str(ext.as_slice(), "yaml")
}

/// The engine requirement of `package.json`: `engines.node` when
/// `engines` is an object and `node` a string in it.
pub open spec fn node_engine(package_json: JsonValue) -> Option<Seq<char>> {
    match get_spec(package_json, "engines"@) {
        Some(engines) => if engines is Object {
            as_str_spec(get_spec(engines, "node"@))
        } else {
            None
        },
        None => None,
    }
}

pub fn node_engine_of(package_json: &JsonValue) -> (r: Option<String>)
    ensures
        match r {
            Some(s) => node_engine(*package_json) == Some(s@),
            None => node_engine(*package_json) is None,
        },
{
    match get(package_json, "engines") {
        Some(engines) => match engines {
            JsonValue::Object(_) => match get_str(engines, "node") {
                Some(n) => {
                    let c = chars_of(n.as_str());
                    Some(string_from(c.as_slice()))
                },
                None => None,
            },
            _ => None,
        },
        None => None,
    }
}


// ---------------------------------------------------------------------
// What each comparator admits
// ---------------------------------------------------------------------

/// A comparator followed by a run of digits reads back the number the
/// digits spell.
proof fn lemma_comparator_digits(c: Seq<char>, d: Seq<char>)
    requires
        d.len() > 0,
        forall|j: int| 0 <= j < d.len() ==> is_digit(d[j]),
        digits_value(d) <= u32::MAX,
    ensures
        comparator_major_spec(c + d, c) == Some(digits_value(d) as u32),
{
    let t = c + d;
    assert(t.take(c.len() as int) =~= c);
    assert(t.skip(c.len() as int) =~= d);
    assert(trim_start_char(d, 'v') == d);
    lemma_leading_digits(d, d.len() as int);
    assert(d.take(d.len() as int) =~= d);
}

/// A token that starts with `>` or `<` and then a digit is unchanged by
/// trimming commas and matches no two-character comparator.
proof fn lemma_one_char_comparator(op: char, d: Seq<char>)
    requires
        op == '>' || op == '<',
        d.len() > 0,
        forall|j: int| 0 <= j < d.len() ==> is_digit(d[j]),
    ensures
        trim_commas(seq![op] + d) == seq![op] + d,
        !starts_with(seq![op] + d, seq!['>', '=']),
        !starts_with(seq![op] + d, seq!['<', '=']),
        op == '<' ==> !starts_with(seq![op] + d, seq!['>']),
{
    let t = seq![op] + d;
    assert(t[0] == op);
    assert(t[t.len() - 1] == d[d.len() - 1]);
    assert(trim_start_char(t, ',') == t);
    assert(crate::text::trim_end_char(t, ',') == t);
    assert(t.len() >= 2);
    assert(t.take(2)[1] == d[0]);
    if starts_with(t, seq!['>', '=']) {
        assert(t.take(2)[1] == seq!['>', '='][1]);
    }
    if starts_with(t, seq!['<', '=']) {
        assert(t.take(2)[1] == seq!['<', '='][1]);
    }
    if op == '<' && starts_with(t, seq!['>']) {
        assert(t.take(1)[0] == seq!['>'][0]);
    }
}

/// A strict lower bound `>N` excludes `N` itself and admits `N + 1`,
/// whatever bounds earlier tokens set: the floor it leaves is at least
/// `N + 1`, and from no bounds it is exactly `N + 1`.
pub proof fn lemma_strict_lower_bound(st: (Option<u32>, Option<u32>, bool), d: Seq<char>)
    requires
        d.len() > 0,
        forall|j: int| 0 <= j < d.len() ==> is_digit(d[j]),
        digits_value(d) < u32::MAX,
    ensures
        ({
            let n = digits_value(d) as u32;
            let r = range_step(st, seq!['>'] + d);
            &&& r.2
            &&& !range_supports(r.0, r.1, n)
            &&& r.0 is Some && r.0->0 >= n + 1
            &&& st == (None::<u32>, None::<u32>, false) ==> r == (Some((n + 1) as u32), None::<u32>, true)
                && range_supports(r.0, r.1, (n + 1) as u32)
        }),
{
    lemma_one_char_comparator('>', d);
    lemma_comparator_digits(seq!['>'], d);
}

/// A string with no whitespace is one word.
proof fn lemma_words_single(s: Seq<char>)
    requires
        s.len() > 0,
        forall|j: int| 0 <= j < s.len() ==> !is_ws(s[j]),
    ensures
        words(s) == seq![s],
{
    lemma_first_ws(s);
    assert(skip_ws(s) == s);
    assert(first_ws(s) == s.len());
    assert(s.take(s.len() as int) =~= s);
    assert(s.skip(s.len() as int).len() == 0);
    assert(skip_ws(s.skip(s.len() as int)).len() == 0);
    assert(words(s.skip(s.len() as int)) =~= Seq::<Seq<char>>::empty());
    assert(words(s) =~= seq![s]);
}

/// The engine range `>N` alone allows every major from `N + 1` up: the
/// parsed floor is `N + 1`, there is no ceiling, `N` itself is not
/// supported and `N + 1` is.
pub proof fn lemma_strict_lower_bound_range(d: Seq<char>)
    requires
        d.len() > 0,
        forall|j: int| 0 <= j < d.len() ==> is_digit(d[j]),
        digits_value(d) < u32::MAX,
    ensures
        ({
            let n = digits_value(d) as u32;
            &&& engine_range_spec(seq!['>'] + d) == Some((Some((n + 1) as u32), None::<u32>))
            &&& !range_supports(Some((n + 1) as u32), None::<u32>, n)
            &&& range_supports(Some((n + 1) as u32), None::<u32>, (n + 1) as u32)
        }),
{
    let t = seq!['>'] + d;
    assert forall|j: int| 0 <= j < t.len() implies !is_ws(t[j]) by {
        if j > 0 {
            assert(t[j] == d[j - 1]);
        }
    }
    lemma_words_single(t);
    lemma_one_char_comparator('>', d);
    let raw = seq![t];
    assert(raw.skip(1) =~= Seq::<Seq<char>>::empty());
    assert(pair_tokens(Seq::<Seq<char>>::empty()) =~= Seq::<Seq<char>>::empty());
    assert(pair_tokens(raw) =~= seq![t]);
    assert(range_tokens(t) =~= seq![t]);
    let toks = seq![t];
    assert(toks.drop_last() =~= Seq::<Seq<char>>::empty());
    assert(range_fold(Seq::<Seq<char>>::empty()) == (None::<u32>, None::<u32>, false));
    assert(range_fold(toks) == range_step((None::<u32>, None::<u32>, false), t));
    lemma_strict_lower_bound((None::<u32>, None::<u32>, false), d);
}

/// An inclusive lower bound `>=N` admits `N` (from no bounds) and
/// excludes `N - 1`.
pub proof fn lemma_inclusive_lower_bound(st: (Option<u32>, Option<u32>, bool), d: Seq<char>)
    requires
        d.len() > 0,
        forall|j: int| 0 <= j < d.len() ==> is_digit(d[j]),
        digits_value(d) <= u32::MAX,
    ensures
        ({
            let n = digits_value(d) as u32;
            let r = range_step(st, seq!['>', '='] + d);
            &&& r.2
            &&& r.0 is Some && r.0->0 >= n
            &&& n > 0 ==> !range_supports(r.0, r.1, (n - 1) as u32)
            &&& st == (None::<u32>, None::<u32>, false) ==> r == (Some(n), None::<u32>, true)
                && range_supports(r.0, r.1, n)
        }),
{
    let t = seq!['>', '='] + d;
    assert(t[0] == '>');
    assert(t[t.len() - 1] == d[d.len() - 1]);
    assert(trim_start_char(t, ',') == t);
    assert(crate::text::trim_end_char(t, ',') == t);
    lemma_comparator_digits(seq!['>', '='], d);
}

/// A strict upper bound `<N` (N > 0) excludes `N` and, from no bounds,
/// admits `N - 1`.
pub proof fn lemma_strict_upper_bound(st: (Option<u32>, Option<u32>, bool), d: Seq<char>)
    requires
        d.len() > 0,
        forall|j: int| 0 <= j < d.len() ==> is_digit(d[j]),
        0 < digits_value(d) <= u32::MAX,
    ensures
        ({
            let n = digits_value(d) as u32;
            let r = range_step(st, seq!['<'] + d);
            &&& r.2
            &&& !range_supports(r.0, r.1, n)
            &&& st == (None::<u32>, None::<u32>, false) ==> r == (None::<u32>, Some((n - 1) as u32), true)
                && range_supports(r.0, r.1, (n - 1) as u32)
        }),
{
    lemma_one_char_comparator('<', d);
    lemma_comparator_digits(seq!['<'], d);
}

/// An inclusive upper bound `<=N` admits `N` (from no bounds) and excludes
/// `N + 1`.
pub proof fn lemma_inclusive_upper_bound(st: (Option<u32>, Option<u32>, bool), d: Seq<char>)
    requires
        d.len() > 0,
        forall|j: int| 0 <= j < d.len() ==> is_digit(d[j]),
        digits_value(d) < u32::MAX,
    ensures
        ({
            let n = digits_value(d) as u32;
            let r = range_step(st, seq!['<', '='] + d);
            &&& r.2
            &&& !range_supports(r.0, r.1, (n + 1) as u32)
            &&& st == (None::<u32>, None::<u32>, false) ==> r == (None::<u32>, Some(n), true)
                && range_supports(r.0, r.1, n)
        }),
{
    let t = seq!['<', '='] + d;
    assert(t[0] == '<');
    assert(t[t.len() - 1] == d[d.len() - 1]);
    assert(trim_start_char(t, ',') == t);
    assert(crate::text::trim_end_char(t, ',') == t);
    assert(t.take(2)[0] == '<');
    if starts_with(t, seq!['>', '=']) {
        assert(t.take(2)[0] == seq!['>', '='][0]);
    }
    lemma_comparator_digits(seq!['<', '='], d);
}

} // verus!
