//! A small scanner for Vite configuration files: it finds the object that
//! `export default` (optionally through `defineConfig(..)`) hands over, walks
//! to `resolve.alias`, and reads alias entries written as an object or as an
//! array of `{ find, replacement }` entries.
//!
//! The text is held as characters and every position counts characters.
use vstd::prelude::*;
use crate::text::{
    chars_eq_str, chars_of, contains_char, ends_with, is_whitespace, is_ws, occurs_at,
    occurs_at_exec, slice_chars, string_from, trim, trim_chars, trim_end_char, trim_end_char_chars,
};

verus! {

// ---------------------------------------------------------------------
// Characters
// ---------------------------------------------------------------------

/// Whether a character can start a JavaScript identifier.
pub open spec fn ident_start(c: char) -> bool {
    c == '$' || c == '_' || ('a' <= c && c <= 'z') || ('A' <= c && c <= 'Z')
}

/// Whether a character can continue a JavaScript identifier.
pub open spec fn ident_char(c: char) -> bool {
    ident_start(c) || ('0' <= c && c <= '9')
}

pub fn is_identifier_start(ch: char) -> (r: bool)
    ensures
        r == ident_start(ch),
{
    ch == '$' || ch == '_' || ('a' <= ch && ch <= 'z') || ('A' <= ch && ch <= 'Z')
}

pub fn is_identifier_char(ch: char) -> (r: bool)
    ensures
        r == ident_char(ch),
{
    is_identifier_start(ch) || ('0' <= ch && ch <= '9')
}

// ---------------------------------------------------------------------
// Comments and whitespace
// ---------------------------------------------------------------------

/// The position after the next newline at or after `c`, or the end.
pub open spec fn line_comment_end(t: Seq<char>, c: int) -> int
    decreases t.len() - c,
{
    if c < 0 || c >= t.len() {
        t.len() as int
    } else if t[c] == '\n' {
        c + 1
    } else {
        line_comment_end(t, c + 1)
    }
}

/// The position after the next `*/` at or after `c`, or the end.
pub open spec fn block_comment_end(t: Seq<char>, c: int) -> int
    decreases t.len() - c,
{
    if c < 0 || c >= t.len() {
        t.len() as int
    } else if t[c] == '*' && c + 1 < t.len() && t[c + 1] == '/' {
        c + 2
    } else {
        block_comment_end(t, c + 1)
    }
}

pub proof fn lemma_comment_ends(t: Seq<char>, c: int)
    requires
        0 <= c <= t.len(),
    ensures
        c <= line_comment_end(t, c) <= t.len(),
        c <= block_comment_end(t, c) <= t.len(),
    decreases t.len() - c,
{
    if c < t.len() {
        lemma_comment_ends(t, c + 1);
    }
}

fn line_comment_end_exec(t: &[char], c: usize) -> (r: usize)
    requires
        c <= t@.len(),
    ensures
        r == line_comment_end(t@, c as int),
{
    let mut i = c;
    while i < t.len()
        invariant
            c <= i <= t@.len(),
            line_comment_end(t@, c as int) == line_comment_end(t@, i as int),
        decreases t@.len() - i,
    {
        if t[i] == '\n' {
            return i + 1;
        }
        i += 1;
    }
    i
}

fn block_comment_end_exec(t: &[char], c: usize) -> (r: usize)
    requires
        c <= t@.len(),
    ensures
        r == block_comment_end(t@, c as int),
{
    let mut i = c;
    while i < t.len()
        invariant
            c <= i <= t@.len(),
            block_comment_end(t@, c as int) == block_comment_end(t@, i as int),
        decreases t@.len() - i,
    {
        if t[i] == '*' && i + 1 < t.len() && t[i + 1] == '/' {
            return i + 2;
        }
        i += 1;
    }
    i
}

/// The position of the first character at or after `c` that is neither
/// whitespace nor inside a `//` or `/* */` comment.
pub open spec fn skip_ws(t: Seq<char>, c: int) -> int
    decreases t.len() - c,
{
    if c < 0 || c >= t.len() {
        c
    } else if is_ws(t[c]) {
        skip_ws(t, c + 1)
    } else if t[c] == '/' && c + 1 < t.len() && t[c + 1] == '/' {
        proof {
            lemma_comment_ends(t, c + 2);
        }
        skip_ws(t, line_comment_end(t, c + 2))
    } else if t[c] == '/' && c + 1 < t.len() && t[c + 1] == '*' {
        proof {
            lemma_comment_ends(t, c + 2);
        }
        skip_ws(t, block_comment_end(t, c + 2))
    } else {
        c
    }
}

pub proof fn lemma_skip_ws(t: Seq<char>, c: int)
    requires
        0 <= c <= t.len(),
    ensures
        c <= skip_ws(t, c) <= t.len(),
    decreases t.len() - c,
{
    if c < t.len() {
        if is_ws(t[c]) {
            lemma_skip_ws(t, c + 1);
        } else if t[c] == '/' && c + 1 < t.len() && t[c + 1] == '/' {
            lemma_comment_ends(t, c + 2);
            lemma_skip_ws(t, line_comment_end(t, c + 2));
        } else if t[c] == '/' && c + 1 < t.len() && t[c + 1] == '*' {
            lemma_comment_ends(t, c + 2);
            lemma_skip_ws(t, block_comment_end(t, c + 2));
        }
    }
}

/// The first position at or after `cursor` that is not whitespace or inside a comment.
pub fn skip_ws_and_comments(text: &[char], cursor: usize) -> (r: usize)
    ensures
        r == skip_ws(text@, cursor as int),
{
    let n = text.len();
    let mut c = cursor;
    while c < n
        invariant
            n == text@.len(),
            cursor <= c,
            skip_ws(text@, cursor as int) == skip_ws(text@, c as int),
        decreases n - c,
    {
        let ch = text[c];
        if is_whitespace(ch) {
            c += 1;
        } else if ch == '/' && c + 1 < n && text[c + 1] == '/' {
            proof {
                lemma_comment_ends(text@, c + 2);
            }
            c = line_comment_end_exec(text, c + 2);
        } else if ch == '/' && c + 1 < n && text[c + 1] == '*' {
            proof {
                lemma_comment_ends(text@, c + 2);
            }
            c = block_comment_end_exec(text, c + 2);
        } else {
            return c;
        }
    }
    c
}

/// The keyword stands at `i` as a whole word.
pub open spec fn keyword_at(t: Seq<char>, i: int, kw: Seq<char>) -> bool {
    &&& 0 <= i && i + kw.len() <= t.len()
    &&& t.subrange(i, i + kw.len()) == kw
    &&& !(i > 0 && ident_char(t[i - 1]))
    &&& !(i + kw.len() < t.len() && ident_char(t[i + kw.len()]))
}

pub fn starts_with_keyword(text: &[char], index: usize, keyword: &str) -> (r: bool)
    ensures
        r == keyword_at(text@, index as int, keyword@),
{
    let kw = crate::text::chars_of(keyword);
    let n = text.len();
    if index > n || kw.len() > n - index {
        return false;
    }
    let mut k: usize = 0;
    while k < kw.len()
        invariant
            n == text@.len(),
            kw@ == keyword@,
            index + kw@.len() <= n,
            k <= kw@.len(),
            forall|j: int| 0 <= j < k ==> text@[index + j] == kw@[j],
        decreases kw@.len() - k,
    {
        if text[index + k] != kw[k] {
            assert(text@.subrange(index as int, index + kw@.len())[k as int] != kw@[k as int]);
            return false;
        }
        k += 1;
    }
    assert(text@.subrange(index as int, index + kw@.len()) =~= kw@);
    if index > 0 && is_identifier_char(text[index - 1]) {
        return false;
    }
    let next = index + kw.len();
    if next < n && is_identifier_char(text[next]) {
        return false;
    }
    true
}

// ---------------------------------------------------------------------
// Literals and identifiers
// ---------------------------------------------------------------------

/// Scanning a template literal's body from `c`: the position after the
/// closing backtick, skipping escaped characters.
pub open spec fn template_end(t: Seq<char>, c: int, escaped: bool) -> Option<int>
    decreases t.len() - c,
{
    if c < 0 || c >= t.len() {
        None
    } else if escaped {
        template_end(t, c + 1, false)
    } else if t[c] == '\\' {
        template_end(t, c + 1, true)
    } else if t[c] == '`' {
        Some(c + 1)
    } else {
        template_end(t, c + 1, false)
    }
}

/// `start` is the opening backtick.
pub fn skip_template_literal(text: &[char], start: usize) -> (r: Option<usize>)
    requires
        start < text@.len(),
    ensures
        r == (match template_end(text@, start + 1, false) {
            Some(e) => Some(e as usize),
            None => None::<usize>,
        }),
{
    let n = text.len();
    let mut c = start + 1;
    let mut escaped = false;
    while c < n
        invariant
            n == text@.len(),
            start < c <= n,
            template_end(text@, start + 1, false) == template_end(text@, c as int, escaped),
        decreases n - c,
    {
        let ch = text[c];
        if escaped {
            escaped = false;
        } else if ch == '\\' {
            escaped = true;
        } else if ch == '`' {
            return Some(c + 1);
        }
        c += 1;
    }
    None
}

/// Scanning a quoted string's body from `c` up to the closing `quote`: the
/// unescaped value and the position after the quote.
pub open spec fn string_body(t: Seq<char>, c: int, quote: char, escaped: bool) -> Option<
    (Seq<char>, int),
>
    decreases t.len() - c,
{
    if c < 0 || c >= t.len() {
        None
    } else if escaped {
        match string_body(t, c + 1, quote, false) {
            Some((v, e)) => Some((seq![t[c]] + v, e)),
            None => None,
        }
    } else if t[c] == '\\' {
        string_body(t, c + 1, quote, true)
    } else if t[c] == quote {
        Some((seq![], c + 1))
    } else {
        match string_body(t, c + 1, quote, false) {
            Some((v, e)) => Some((seq![t[c]] + v, e)),
            None => None,
        }
    }
}

/// A single- or double-quoted string at `start`.
pub open spec fn string_literal_at(t: Seq<char>, start: int) -> Option<(Seq<char>, int)> {
    if 0 <= start < t.len() && (t[start] == '\'' || t[start] == '"') {
        string_body(t, start + 1, t[start], false)
    } else {
        None
    }
}

/// A value put in front of a scanned result.
pub open spec fn prepend(v: Seq<char>, r: Option<(Seq<char>, int)>) -> Option<(Seq<char>, int)> {
    match r {
        Some((w, e)) => Some((v + w, e)),
        None => None,
    }
}

pub fn parse_string_literal(text: &[char], start: usize) -> (r: Option<(Vec<char>, usize)>)
    ensures
        match r {
            Some((v, e)) => string_literal_at(text@, start as int) == Some((v@, e as int)),
            None => string_literal_at(text@, start as int) is None,
        },
{
    let n = text.len();
    if start >= n {
        return None;
    }
    let quote = text[start];
    if quote != '\'' && quote != '"' {
        return None;
    }
    let mut c = start + 1;
    let mut value: Vec<char> = Vec::new();
    let mut escaped = false;
    assert(prepend(seq![], string_body(text@, c as int, quote, false)) =~= string_body(
        text@,
        c as int,
        quote,
        false,
    )) by {
        match string_body(text@, c as int, quote, false) {
            Some((w, e)) => {
                assert(seq![] + w =~= w);
            },
            None => {},
        }
    }
    while c < n
        invariant
            n == text@.len(),
            start < c <= n,
            quote == text@[start as int],
            quote == '\'' || quote == '"',
            string_body(text@, start + 1, quote, false) == prepend(
                value@,
                string_body(text@, c as int, quote, escaped),
            ),
        decreases n - c,
    {
        let ch = text[c];
        let ghost before = value@;
        if escaped {
            value.push(ch);
            escaped = false;
            proof {
                match string_body(text@, c + 1, quote, false) {
                    Some((w, e)) => {
                        assert(before + (seq![ch] + w) =~= value@ + w);
                    },
                    None => {},
                }
            }
        } else if ch == '\\' {
            escaped = true;
        } else if ch == quote {
            proof {
                assert(before + seq![] =~= before);
                assert(string_body(text@, c as int, quote, false) == Some((Seq::<char>::empty(), c + 1)));
                assert(string_body(text@, start + 1, quote, false) == Some((value@, c + 1)));
                assert(string_literal_at(text@, start as int) == Some((value@, c + 1)));
            }
            return Some((value, c + 1));
        } else {
            value.push(ch);
            proof {
                match string_body(text@, c + 1, quote, false) {
                    Some((w, e)) => {
                        assert(before + (seq![ch] + w) =~= value@ + w);
                    },
                    None => {},
                }
            }
        }
        c += 1;
    }
    None
}

/// The end of the run of identifier characters from `c`.
pub open spec fn ident_end(t: Seq<char>, c: int) -> int
    decreases t.len() - c,
{
    if 0 <= c < t.len() && ident_char(t[c]) {
        ident_end(t, c + 1)
    } else {
        c
    }
}

pub proof fn lemma_ident_end(t: Seq<char>, c: int)
    requires
        0 <= c <= t.len(),
    ensures
        c <= ident_end(t, c) <= t.len(),
    decreases t.len() - c,
{
    if c < t.len() && ident_char(t[c]) {
        lemma_ident_end(t, c + 1);
    }
}

/// An identifier starting at `start`.
pub open spec fn identifier_at(t: Seq<char>, start: int) -> Option<(Seq<char>, int)> {
    if 0 <= start < t.len() && ident_start(t[start]) {
        Some((t.subrange(start, ident_end(t, start + 1)), ident_end(t, start + 1)))
    } else {
        None
    }
}

pub fn parse_identifier(text: &[char], start: usize) -> (r: Option<(Vec<char>, usize)>)
    ensures
        match r {
            Some((v, e)) => identifier_at(text@, start as int) == Some((v@, e as int)),
            None => identifier_at(text@, start as int) is None,
        },
{
    let n = text.len();
    if start >= n || !is_identifier_start(text[start]) {
        return None;
    }
    let mut c = start + 1;
    while c < n && is_identifier_char(text[c])
        invariant
            n == text@.len(),
            start < c <= n,
            ident_end(text@, start + 1) == ident_end(text@, c as int),
        decreases n - c,
    {
        c += 1;
    }
    let value = crate::text::slice_chars(text, start, c);
    Some((value, c))
}

/// The quoted string or identifier that starts at a position, with the position after it.
pub open spec fn string_or_identifier_at(t: Seq<char>, start: int) -> Option<(Seq<char>, int)> {
    if 0 <= start < t.len() && (t[start] == '\'' || t[start] == '"') {
        string_literal_at(t, start)
    } else {
        identifier_at(t, start)
    }
}

pub fn parse_string_or_identifier(text: &[char], start: usize) -> (r: Option<(Vec<char>, usize)>)
    ensures
        match r {
            Some((v, e)) => string_or_identifier_at(text@, start as int) == Some((v@, e as int)),
            None => string_or_identifier_at(text@, start as int) is None,
        },
{
    if start >= text.len() {
        return None;
    }
    let ch = text[start];
    if ch == '\'' || ch == '"' {
        parse_string_literal(text, start)
    } else {
        parse_identifier(text, start)
    }
}


// ---------------------------------------------------------------------
// Balanced delimiters and values
// ---------------------------------------------------------------------

/// Scanning for the delimiter that closes the one opened at the start:
/// quoted strings and template literals are skipped (honouring escapes),
/// and so are `//` and `/* */` comments. A closing delimiter at depth zero
/// also ends the scan.
pub open spec fn delim_scan(
    t: Seq<char>,
    c: int,
    open: char,
    close: char,
    depth: nat,
    quote: Option<char>,
    escaped: bool,
) -> Option<int>
    decreases t.len() - c,
{
    if c < 0 || c >= t.len() {
        None
    } else {
        let ch = t[c];
        match quote {
            Some(q) => {
                if escaped {
                    delim_scan(t, c + 1, open, close, depth, quote, false)
                } else if ch == '\\' {
                    delim_scan(t, c + 1, open, close, depth, quote, true)
                } else if ch == q {
                    delim_scan(t, c + 1, open, close, depth, None, false)
                } else {
                    delim_scan(t, c + 1, open, close, depth, quote, false)
                }
            },
            None => {
                if ch == '\'' || ch == '"' || ch == '`' {
                    delim_scan(t, c + 1, open, close, depth, Some(ch), false)
                } else if ch == open {
                    delim_scan(t, c + 1, open, close, depth + 1, None, false)
                } else if ch == close {
                    if depth <= 1 {
                        Some(c)
                    } else {
                        delim_scan(t, c + 1, open, close, (depth - 1) as nat, None, false)
                    }
                } else if ch == '/' && c + 1 < t.len() && t[c + 1] == '/' {
                    proof {
                        lemma_comment_ends(t, c + 1);
                    }
                    delim_scan(t, line_comment_end(t, c + 1), open, close, depth, None, false)
                } else if ch == '/' && c + 1 < t.len() && t[c + 1] == '*' {
                    proof {
                        lemma_comment_ends(t, c + 2);
                    }
                    delim_scan(t, block_comment_end(t, c + 2), open, close, depth, None, false)
                } else {
                    delim_scan(t, c + 1, open, close, depth, None, false)
                }
            },
        }
    }
}

/// The position of the delimiter that closes the one at `start`, skipping strings and comments.
pub open spec fn matching_delimiter(t: Seq<char>, start: int, open: char, close: char) -> Option<
    int,
> {
    delim_scan(t, start, open, close, 0, None, false)
}

pub proof fn lemma_delim_scan(
    t: Seq<char>,
    c: int,
    open: char,
    close: char,
    depth: nat,
    quote: Option<char>,
    escaped: bool,
)
    ensures
        delim_scan(t, c, open, close, depth, quote, escaped) matches Some(e) ==> c <= e < t.len()
            && t[e] == close,
    decreases t.len() - c,
{
    if 0 <= c < t.len() {
        let ch = t[c];
        lemma_delim_scan(t, c + 1, open, close, depth, quote, false);
        lemma_delim_scan(t, c + 1, open, close, depth, quote, true);
        lemma_delim_scan(t, c + 1, open, close, depth, None, false);
        lemma_delim_scan(t, c + 1, open, close, depth, Some(ch), false);
        lemma_delim_scan(t, c + 1, open, close, depth + 1, None, false);
        if depth > 1 {
            lemma_delim_scan(t, c + 1, open, close, (depth - 1) as nat, None, false);
        }
        if ch == '/' && c + 1 < t.len() {
            lemma_comment_ends(t, c + 1);
            lemma_comment_ends(t, c + 2);
            lemma_delim_scan(t, line_comment_end(t, c + 1), open, close, depth, None, false);
            lemma_delim_scan(t, block_comment_end(t, c + 2), open, close, depth, None, false);
        }
    }
}

pub fn find_matching_delimiter(text: &[char], start: usize, open: char, close: char) -> (r:
    Option<usize>)
    ensures
        r == (match matching_delimiter(text@, start as int, open, close) {
            Some(e) => Some(e as usize),
            None => None::<usize>,
        }),
{
    let n = text.len();
    let mut c = start;
    let mut depth: usize = 0;
    let mut quote: Option<char> = None;
    let mut escaped = false;
    proof {
        lemma_delim_scan(text@, start as int, open, close, 0, None, false);
    }
    while c < n
        invariant
            n == text@.len(),
            start <= c,
            depth <= c,
            quote is None ==> !escaped,
            matching_delimiter(text@, start as int, open, close) == delim_scan(
                text@,
                c as int,
                open,
                close,
                depth as nat,
                quote,
                escaped,
            ),
        decreases n - c,
    {
        let ch = text[c];
        match quote {
            Some(q) => {
                if escaped {
                    escaped = false;
                } else if ch == '\\' {
                    escaped = true;
                } else if ch == q {
                    quote = None;
                }
                c += 1;
            },
            None => {
                if ch == '\'' || ch == '"' || ch == '`' {
                    quote = Some(ch);
                    c += 1;
                } else if ch == open {
                    depth += 1;
                    c += 1;
                } else if ch == close {
                    if depth <= 1 {
                        return Some(c);
                    }
                    depth -= 1;
                    c += 1;
                } else if ch == '/' && c + 1 < n && text[c + 1] == '/' {
                    proof {
                        lemma_comment_ends(text@, c + 1);
                    }
                    c = line_comment_end_exec(text, c + 1);
                } else if ch == '/' && c + 1 < n && text[c + 1] == '*' {
                    proof {
                        lemma_comment_ends(text@, c + 2);
                    }
                    c = block_comment_end_exec(text, c + 2);
                } else {
                    c += 1;
                }
            },
        }
    }
    None
}

/// The position of the `}` that closes the `{` at `start`, skipping strings and comments.
pub fn find_matching_brace(text: &[char], start: usize) -> (r: Option<usize>)
    ensures
        r == (match matching_delimiter(text@, start as int, '{', '}') {
            Some(e) => Some(e as usize),
            None => None::<usize>,
        }),
{
    find_matching_delimiter(text, start, '{', '}')
}

/// The end of a bare value from `c`: up to a `,` or `}`, the limit, or the
/// end of the text.
pub open spec fn plain_value_end(t: Seq<char>, c: int, limit: int) -> int
    decreases t.len() - c,
{
    if 0 <= c && c < limit && c < t.len() && t[c] != ',' && t[c] != '}' {
        plain_value_end(t, c + 1, limit)
    } else {
        c
    }
}

pub proof fn lemma_plain_value_end(t: Seq<char>, c: int, limit: int)
    requires
        0 <= c,
    ensures
        c <= plain_value_end(t, c, limit),
        c <= t.len() ==> plain_value_end(t, c, limit) <= t.len(),
    decreases t.len() - c,
{
    if c < limit && c < t.len() && t[c] != ',' && t[c] != '}' {
        lemma_plain_value_end(t, c + 1, limit);
    }
}

/// One past the delimiter closing the one at `c`.
pub open spec fn after_delimiter(t: Seq<char>, c: int, open: char, close: char) -> Option<int> {
    match matching_delimiter(t, c, open, close) {
        Some(e) => Some(e + 1),
        None => None,
    }
}

/// The position after the value that starts at `c`.
pub open spec fn skip_value_at(t: Seq<char>, c: int, limit: int) -> Option<int> {
    if c < 0 || c >= t.len() {
        None
    } else if t[c] == '{' {
        after_delimiter(t, c, '{', '}')
    } else if t[c] == '[' {
        after_delimiter(t, c, '[', ']')
    } else if t[c] == '(' {
        after_delimiter(t, c, '(', ')')
    } else if t[c] == '\'' || t[c] == '"' {
        match string_literal_at(t, c) {
            Some((_, e)) => Some(e),
            None => None,
        }
    } else if t[c] == '`' {
        template_end(t, c + 1, false)
    } else if plain_value_end(t, c, limit) == c {
        Some(c + 1)
    } else {
        Some(plain_value_end(t, c, limit))
    }
}

pub proof fn lemma_string_body(t: Seq<char>, c: int, q: char, escaped: bool)
    ensures
        string_body(t, c, q, escaped) matches Some((_, e)) ==> c < e <= t.len(),
    decreases t.len() - c,
{
    if 0 <= c < t.len() {
        lemma_string_body(t, c + 1, q, false);
        lemma_string_body(t, c + 1, q, true);
    }
}

pub proof fn lemma_template_end(t: Seq<char>, c: int, escaped: bool)
    ensures
        template_end(t, c, escaped) matches Some(e) ==> c < e <= t.len(),
    decreases t.len() - c,
{
    if 0 <= c < t.len() {
        lemma_template_end(t, c + 1, false);
        lemma_template_end(t, c + 1, true);
    }
}

/// A value skipped from `c` ends past `c` and within the text.
pub proof fn lemma_skip_value(t: Seq<char>, c: int, limit: int)
    ensures
        skip_value_at(t, c, limit) matches Some(e) ==> c < e <= t.len(),
{
    if 0 <= c < t.len() {
        lemma_delim_scan(t, c, '{', '}', 0, None, false);
        lemma_delim_scan(t, c, '[', ']', 0, None, false);
        lemma_delim_scan(t, c, '(', ')', 0, None, false);
        lemma_string_body(t, c + 1, t[c], false);
        lemma_template_end(t, c + 1, false);
        lemma_plain_value_end(t, c, limit);
    }
}

pub fn skip_value(text: &[char], cursor: usize, entry_end: usize) -> (r: Option<usize>)
    ensures
        r == (match skip_value_at(text@, cursor as int, entry_end as int) {
            Some(e) => Some(e as usize),
            None => None::<usize>,
        }),
{
    let n = text.len();
    if cursor >= n {
        return None;
    }
    proof {
        lemma_skip_value(text@, cursor as int, entry_end as int);
    }
    let ch = text[cursor];
    if ch == '{' || ch == '[' || ch == '(' {
        let close = if ch == '{' {
            '}'
        } else if ch == '[' {
            ']'
        } else {
            ')'
        };
        proof {
            lemma_delim_scan(text@, cursor as int, ch, close, 0, None, false);
        }
        return match find_matching_delimiter(text, cursor, ch, close) {
            Some(e) => Some(e + 1),
            None => None,
        };
    }
    if ch == '\'' || ch == '"' {
        return match parse_string_literal(text, cursor) {
            Some((_, e)) => Some(e),
            None => None,
        };
    }
    if ch == '`' {
        return skip_template_literal(text, cursor);
    }
    let mut next = cursor;
    while next < entry_end && next < n && text[next] != ',' && text[next] != '}'
        invariant
            n == text@.len(),
            cursor <= next <= n,
            plain_value_end(text@, cursor as int, entry_end as int) == plain_value_end(
                text@,
                next as int,
                entry_end as int,
            ),
        decreases n - next,
    {
        next += 1;
    }
    if next == cursor {
        Some(cursor + 1)
    } else {
        Some(next)
    }
}


// ---------------------------------------------------------------------
// Finding the configuration object
// ---------------------------------------------------------------------

/// Scanning for `export default` outside strings, template literals and
/// comments: the position of the exported value, past whitespace and
/// comments.
pub open spec fn export_default_scan(t: Seq<char>, i: int) -> Option<int>
    decreases t.len() - i,
{
    if i < 0 || i >= t.len() {
        None
    } else {
        let ch = t[i];
        if ch == '\'' || ch == '"' {
            proof {
                lemma_string_body(t, i + 1, ch, false);
            }
            match string_literal_at(t, i) {
                Some((_, e)) => export_default_scan(t, e),
                None => None,
            }
        } else if ch == '`' {
            proof {
                lemma_template_end(t, i + 1, false);
            }
            match template_end(t, i + 1, false) {
                Some(e) => export_default_scan(t, e),
                None => None,
            }
        } else if ch == '/' && i + 1 < t.len() && t[i + 1] == '/' {
            proof {
                lemma_comment_ends(t, i + 2);
            }
            export_default_scan(t, line_comment_end(t, i + 2))
        } else if ch == '/' && i + 1 < t.len() && t[i + 1] == '*' {
            proof {
                lemma_comment_ends(t, i + 2);
            }
            export_default_scan(t, block_comment_end(t, i + 2))
        } else if keyword_at(t, i, "export"@) && keyword_at(
            t,
            skip_ws(t, i + "export"@.len()),
            "default"@,
        ) {
            Some(skip_ws(t, skip_ws(t, i + "export"@.len()) + "default"@.len()))
        } else {
            export_default_scan(t, i + 1)
        }
    }
}

/// The position of the value after `export default`.
pub fn find_export_default_value_start(text: &[char]) -> (r: Option<usize>)
    ensures
        r == (match export_default_scan(text@, 0) {
            Some(e) => Some(e as usize),
            None => None::<usize>,
        }),
{
    proof {
        reveal_strlit("export");
        reveal_strlit("default");
    }
    let n = text.len();
    let mut i: usize = 0;
    while i < n
        invariant
            n == text@.len(),
            i <= n,
            "export"@.len() == 6,
            "default"@.len() == 7,
            export_default_scan(text@, 0) == export_default_scan(text@, i as int),
        decreases n - i,
    {
        let ch = text[i];
        if ch == '\'' || ch == '"' {
            proof {
                lemma_string_body(text@, i + 1, ch, false);
            }
            match parse_string_literal(text, i) {
                Some((_, e)) => {
                    i = e;
                },
                None => {
                    return None;
                },
            }
        } else if ch == '`' {
            proof {
                lemma_template_end(text@, i + 1, false);
            }
            match skip_template_literal(text, i) {
                Some(e) => {
                    i = e;
                },
                None => {
                    return None;
                },
            }
        } else if ch == '/' && i + 1 < n && text[i + 1] == '/' {
            proof {
                lemma_comment_ends(text@, i + 2);
            }
            i = line_comment_end_exec(text, i + 2);
        } else if ch == '/' && i + 1 < n && text[i + 1] == '*' {
            proof {
                lemma_comment_ends(text@, i + 2);
            }
            i = block_comment_end_exec(text, i + 2);
        } else {
            if starts_with_keyword(text, i, "export") {
                proof {
                    lemma_skip_ws(text@, i + 6);
                }
                let cursor = skip_ws_and_comments(text, i + 6);
                if starts_with_keyword(text, cursor, "default") {
                    return Some(skip_ws_and_comments(text, cursor + 7));
                }
            }
            i += 1;
        }
    }
    None
}

/// The `{` of the exported object,
/// possibly wrapped in `defineConfig(..)`.
pub open spec fn config_object_start(t: Seq<char>) -> Option<int> {
    match export_default_scan(t, 0) {
        None => None,
        Some(c0) => {
            let c1 = if occurs_at(t, "defineConfig"@, c0) {
                let c = skip_ws(t, c0 + "defineConfig"@.len());
                if 0 <= c < t.len() && t[c] == '(' {
                    Some(skip_ws(t, c + 1))
                } else {
                    None
                }
            } else {
                Some(c0)
            };
            match c1 {
                Some(c) => if 0 <= c < t.len() && t[c] == '{' {
                    Some(c)
                } else {
                    None
                },
                None => None,
            }
        },
    }
}

proof fn lemma_export_default_scan(t: Seq<char>, i: int)
    requires
        0 <= i,
    ensures
        export_default_scan(t, i) matches Some(e) ==> 0 <= e <= t.len(),
    decreases t.len() - i,
{
    reveal_strlit("export");
    reveal_strlit("default");
    if i < t.len() {
        let ch = t[i];
        lemma_string_body(t, i + 1, ch, false);
        lemma_template_end(t, i + 1, false);
        if i + 2 <= t.len() {
            lemma_comment_ends(t, i + 2);
        }
        if ch == '\'' || ch == '"' {
            if let Some((_, e)) = string_literal_at(t, i) {
                lemma_export_default_scan(t, e);
            }
        } else if ch == '`' {
            if let Some(e) = template_end(t, i + 1, false) {
                lemma_export_default_scan(t, e);
            }
        } else if ch == '/' && i + 1 < t.len() && t[i + 1] == '/' {
            lemma_export_default_scan(t, line_comment_end(t, i + 2));
        } else if ch == '/' && i + 1 < t.len() && t[i + 1] == '*' {
            lemma_export_default_scan(t, block_comment_end(t, i + 2));
        } else if keyword_at(t, i, "export"@) && keyword_at(t, skip_ws(t, i + 6), "default"@) {
            lemma_skip_ws(t, i + 6);
            lemma_skip_ws(t, skip_ws(t, i + 6) + 7);
        } else {
            lemma_export_default_scan(t, i + 1);
        }
    }
}

pub fn find_vite_config_object_start(text: &[char]) -> (r: Option<usize>)
    ensures
        r == (match config_object_start(text@) {
            Some(e) => Some(e as usize),
            None => None::<usize>,
        }),
{
    proof {
        reveal_strlit("defineConfig");
        lemma_export_default_scan(text@, 0);
    }
    let mut cursor = match find_export_default_value_start(text) {
        Some(c) => c,
        None => {
            return None;
        },
    };
    let define = chars_of("defineConfig");
    if occurs_at_exec(text, define.as_slice(), cursor) {
        let n = text.len();
        let dl = define.len();
        assert(cursor + dl <= n);
        proof {
            lemma_skip_ws(text@, cursor + dl);
        }
        cursor = skip_ws_and_comments(text, cursor + dl);
        if !(cursor < text.len() && text[cursor] == '(') {
            return None;
        }
        proof {
            lemma_skip_ws(text@, cursor + 1);
        }
        cursor = skip_ws_and_comments(text, cursor + 1);
    }
    if cursor < text.len() && text[cursor] == '{' {
        Some(cursor)
    } else {
        None
    }
}

/// Walking the entries of an object (from `c` to its closing brace at
/// `end`) for the property named `prop`: `Some(Some(v))` gives the start
/// of its value, `Some(None)` says it is absent, `None` that the object
/// could not be read.
pub open spec fn property_scan(t: Seq<char>, c: int, end: int, prop: Seq<char>) -> Option<
    Option<int>,
>
    decreases t.len() - c,
{
    if c < 0 || c >= end || c > t.len() {
        Some(None)
    } else {
        let c1 = skip_ws(t, c);
        if c1 >= end || (c1 < t.len() && t[c1] == '}') {
            Some(None)
        } else if c1 < t.len() && t[c1] == ',' {
            proof {
                lemma_skip_ws(t, c);
            }
            property_scan(t, c1 + 1, end, prop)
        } else {
            match string_or_identifier_at(t, c1) {
                None => None,
                Some((key, next)) => {
                    let v0 = skip_ws(t, next);
                    if !(0 <= v0 < t.len() && t[v0] == ':') {
                        None
                    } else {
                        let v = skip_ws(t, v0 + 1);
                        if key == prop {
                            Some(Some(v))
                        } else {
                            match skip_value_at(t, v, end) {
                                None => None,
                                Some(nc) => {
                                    proof {
                                        lemma_skip_ws(t, c);
                                        lemma_key_end(t, c1);
                                        lemma_skip_ws(t, next);
                                        lemma_skip_ws(t, v0 + 1);
                                        lemma_skip_value(t, v, end);
                                    }
                                    property_scan(t, nc, end, prop)
                                },
                            }
                        }
                    }
                },
            }
        }
    }
}

/// A key read at `c` ends past `c`, within the text.
pub proof fn lemma_key_end(t: Seq<char>, c: int)
    ensures
        string_or_identifier_at(t, c) matches Some((_, e)) ==> c < e <= t.len(),
{
    if 0 <= c < t.len() {
        lemma_string_body(t, c + 1, t[c], false);
        lemma_ident_end(t, c + 1);
    }
}

/// A property value found by the walk starts within the text.
pub proof fn lemma_property_scan_bounds(t: Seq<char>, c: int, end: int, prop: Seq<char>)
    requires
        0 <= c,
    ensures
        property_scan(t, c, end, prop) matches Some(Some(v)) ==> 0 <= v <= t.len(),
    decreases t.len() - c,
{
    if c < end && c <= t.len() {
        lemma_skip_ws(t, c);
        let c1 = skip_ws(t, c);
        if c1 < end && !(c1 < t.len() && t[c1] == '}') {
            if c1 < t.len() && t[c1] == ',' {
                lemma_property_scan_bounds(t, c1 + 1, end, prop);
            } else {
                lemma_key_end(t, c1);
                match string_or_identifier_at(t, c1) {
                    Some((key, next)) => {
                        lemma_skip_ws(t, next);
                        let v0 = skip_ws(t, next);
                        if 0 <= v0 < t.len() && t[v0] == ':' {
                            lemma_skip_ws(t, v0 + 1);
                            let v = skip_ws(t, v0 + 1);
                            lemma_skip_value(t, v, end);
                            match skip_value_at(t, v, end) {
                                Some(nc) => {
                                    lemma_property_scan_bounds(t, nc, end, prop);
                                },
                                None => {},
                            }
                        }
                    },
                    None => {},
                }
            }
        }
    }
}

/// Where the value of a property of the object at `object_start` begins.
pub open spec fn property_value_start(t: Seq<char>, object_start: int, prop: Seq<char>) -> Option<
    Option<int>,
> {
    match matching_delimiter(t, object_start, '{', '}') {
        None => None,
        Some(end) => property_scan(t, object_start + 1, end, prop),
    }
}

/// A position as an executable index.
pub open spec fn opt_usize(r: Option<Option<int>>) -> Option<Option<usize>> {
    match r {
        None => None,
        Some(None) => Some(None),
        Some(Some(v)) => Some(Some(v as usize)),
    }
}

pub fn find_object_property_value_start(text: &[char], object_start: usize, property: &str) -> (r:
    Option<Option<usize>>)
    ensures
        r == opt_usize(property_value_start(text@, object_start as int, property@)),
{
    let n = text.len();
    proof {
        lemma_delim_scan(text@, object_start as int, '{', '}', 0, None, false);
    }
    let object_end = match find_matching_delimiter(text, object_start, '{', '}') {
        Some(e) => e,
        None => {
            return None;
        },
    };
    let mut cursor = object_start + 1;
    while cursor < object_end
        invariant
            n == text@.len(),
            object_end < n,
            object_start < cursor,
            property_value_start(text@, object_start as int, property@) == property_scan(
                text@,
                cursor as int,
                object_end as int,
                property@,
            ),
        decreases n - cursor,
    {
        proof {
            lemma_skip_ws(text@, cursor as int);
        }
        let c1 = skip_ws_and_comments(text, cursor);
        if c1 >= object_end || (c1 < n && text[c1] == '}') {
            return Some(None);
        }
        if c1 < n && text[c1] == ',' {
            cursor = c1 + 1;
            continue;
        }
        proof {
            lemma_key_end(text@, c1 as int);
        }
        let (key, next) = match parse_string_or_identifier(text, c1) {
            Some(kn) => kn,
            None => {
                return None;
            },
        };
        proof {
            lemma_skip_ws(text@, next as int);
        }
        let v0 = skip_ws_and_comments(text, next);
        if !(v0 < n && text[v0] == ':') {
            return None;
        }
        proof {
            lemma_skip_ws(text@, v0 + 1);
        }
        let v = skip_ws_and_comments(text, v0 + 1);
        if chars_eq_str(key.as_slice(), property) {
            return Some(Some(v));
        }
        proof {
            lemma_skip_value(text@, v as int, object_end as int);
        }
        cursor = match skip_value(text, v, object_end) {
            Some(nc) => nc,
            None => {
                return None;
            },
        };
    }
    Some(None)
}

/// Dotted continuations `.name` after position `c`.
pub open spec fn dotted_tail(t: Seq<char>, c: int) -> Option<(Seq<char>, int)>
    decreases t.len() - c,
{
    let dot = skip_ws(t, c);
    if c < 0 || c > t.len() || !(0 <= dot < t.len() && t[dot] == '.') {
        Some((seq![], c))
    } else {
        match identifier_at(t, dot + 1) {
            None => None,
            Some((part, next)) => {
                proof {
                    lemma_skip_ws(t, c);
                    lemma_ident_end(t, dot + 2);
                }
                prepend(seq!['.'] + part, dotted_tail(t, next))
            },
        }
    }
}

/// `name(.name)*`, with whitespace and comments
/// allowed around the dots.
pub open spec fn dotted_identifier_at(t: Seq<char>, start: int) -> Option<(Seq<char>, int)> {
    match identifier_at(t, start) {
        None => None,
        Some((v, c)) => prepend(v, dotted_tail(t, c)),
    }
}

pub fn parse_dotted_identifier(text: &[char], start: usize) -> (r: Option<(Vec<char>, usize)>)
    ensures
        match r {
            Some((v, e)) => dotted_identifier_at(text@, start as int) == Some((v@, e as int)),
            None => dotted_identifier_at(text@, start as int) is None,
        },
{
    let n = text.len();
    proof {
        if start < n {
            lemma_ident_end(text@, start + 1);
        }
    }
    let (mut value, mut cursor) = match parse_identifier(text, start) {
        Some(vc) => vc,
        None => {
            return None;
        },
    };
    proof {
        match dotted_tail(text@, cursor as int) {
            Some((w, e)) => {
                assert(value@ + w =~= value@ + w);
            },
            None => {},
        }
    }
    loop
        invariant
            n == text@.len(),
            cursor <= n,
            dotted_identifier_at(text@, start as int) == prepend(
                value@,
                dotted_tail(text@, cursor as int),
            ),
        decreases n - cursor,
    {
        proof {
            lemma_skip_ws(text@, cursor as int);
        }
        let dot = skip_ws_and_comments(text, cursor);
        if !(dot < n && text[dot] == '.') {
            proof {
                assert(value@ + seq![] =~= value@);
            }
            return Some((value, cursor));
        }
        proof {
            if dot + 1 < n {
                lemma_ident_end(text@, dot + 2);
            }
        }
        let (part, next) = match parse_identifier(text, dot + 1) {
            Some(pn) => pn,
            None => {
                return None;
            },
        };
        let ghost before = value@;
        value.push('.');
        crate::text::append_chars(&mut value, part.as_slice());
        proof {
            match dotted_tail(text@, next as int) {
                Some((w, e)) => {
                    assert(before + ((seq!['.'] + part@) + w) =~= value@ + w);
                },
                None => {},
            }
        }
        cursor = next;
    }
}

// ---------------------------------------------------------------------
// Alias keys and targets
// ---------------------------------------------------------------------

/// `trim_end_matches` with a non-empty string pattern.
pub open spec fn trim_end_pat(s: Seq<char>, p: Seq<char>) -> Seq<char>
    decreases s.len(),
{
    if p.len() > 0 && ends_with(s, p) {
        trim_end_pat(s.take(s.len() - p.len()), p)
    } else {
        s
    }
}

fn trim_end_pat_chars(s: &[char], p: &[char]) -> (out: Vec<char>)
    requires
        p@.len() > 0,
    ensures
        out@ == trim_end_pat(s@, p@),
{
    let mut j: usize = s.len();
    assert(s@.take(j as int) =~= s@);
    loop
        invariant
            j <= s@.len(),
            p@.len() > 0,
            trim_end_pat(s@, p@) == trim_end_pat(s@.take(j as int), p@),
        decreases j,
    {
        let head = slice_chars(s, 0, j);
        assert(head@ =~= s@.take(j as int));
        if !crate::text::ends_with_chars(head.as_slice(), p) {
            return head;
        }
        proof {
            assert(s@.take(j as int).take(j - p@.len()) =~= s@.take(j - p@.len()));
        }
        j = j - p.len();
    }
}

/// Trimmed, without a trailing `/*`, `*` or `/`
/// runs, in that order.
pub open spec fn alias_key(s: Seq<char>) -> Seq<char> {
    trim_end_char(trim_end_char(trim_end_pat(trim(s), seq!['/', '*']), '*'), '/')
}

pub fn normalize_alias_key(alias: &str) -> (out: String)
    ensures
        out@ == alias_key(alias@),
{
    let a = chars_of(alias);
    let t = trim_chars(a.as_slice());
    let pat: Vec<char> = vec!['/', '*'];
    assert(pat@ =~= seq!['/', '*']);
    let u = trim_end_pat_chars(t.as_slice(), pat.as_slice());
    let v = trim_end_char_chars(u.as_slice(), '*');
    let w = trim_end_char_chars(v.as_slice(), '/');
    string_from(w.as_slice())
}

/// The text without trailing `/`.
pub fn strip_trailing_slashes(value: &str) -> (out: String)
    ensures
        out@ == trim_end_char(value@, '/'),
{
    let v = chars_of(value);
    let w = trim_end_char_chars(v.as_slice(), '/');
    string_from(w.as_slice())
}

/// Whether an alias target looks like a path rather than a package name.
pub open spec fn path_like(t: Seq<char>) -> bool {
    ||| t.len() > 0 && (t[0] == '.' || t[0] == '/')
    ||| t.contains('/')
    ||| t.contains('\\')
    ||| t.contains('*')
}

pub fn is_path_like_target(target: &str) -> (r: bool)
    ensures
        r == path_like(target@),
{
    let t = chars_of(target);
    (t.len() > 0 && (t[0] == '.' || t[0] == '/')) || contains_char(t.as_slice(), '/')
        || contains_char(t.as_slice(), '\\') || contains_char(t.as_slice(), '*')
}

/// Letters, then a `:`.
pub open spec fn url_like_prefix(t: Seq<char>) -> bool {
    let i = crate::text::first_index(t, ':');
    &&& 0 < i < t.len()
    &&& forall|k: int| 0 <= k < i ==> #[trigger] crate::package_entrypoints::is_ascii_alpha(t[k])
}

pub fn has_url_like_prefix(target: &str) -> (r: bool)
    ensures
        r == url_like_prefix(target@),
{
    let t = chars_of(target);
    let i = crate::text::index_of_from(t.as_slice(), ':', 0);
    assert(t@.skip(0) =~= t@);
    if i == t.len() || i == 0 {
        return false;
    }
    let mut k: usize = 0;
    while k < i
        invariant
            i < t@.len(),
            t@ == target@,
            i == crate::text::first_index(t@, ':'),
            k <= i,
            forall|j: int| 0 <= j < k ==> #[trigger] crate::package_entrypoints::is_ascii_alpha(
                t@[j],
            ),
        decreases i - k,
    {
        let c = t[k];
        if !(('a' <= c && c <= 'z') || ('A' <= c && c <= 'Z')) {
            assert(!crate::package_entrypoints::is_ascii_alpha(t@[k as int]));
            return false;
        }
        k += 1;
    }
    true
}

/// How the Vite and tsconfig alias tables agree on one key.
#[derive(PartialEq, Eq, Structural, Clone, Copy, Debug)]
pub enum AliasSync {
    /// Both declare the key with the same target.
    Same,
    /// Both declare the key with different targets.
    Differs,
    /// Only Vite declares the key.
    ViteOnly,
    /// Only tsconfig `paths` declares the key.
    TsconfigOnly,
    /// Neither declares it.
    Neither,
}

/// The comparison made for each alias key of either table.
pub fn alias_sync_status(vite: Option<&str>, tsconfig: Option<&str>) -> (r: AliasSync)
    ensures
        r == (match (vite, tsconfig) {
            (Some(v), Some(t)) => if v@ == t@ {
                AliasSync::Same
            } else {
                AliasSync::Differs
            },
            (Some(_), None) => AliasSync::ViteOnly,
            (None, Some(_)) => AliasSync::TsconfigOnly,
            (None, None) => AliasSync::Neither,
        }),
{
    match (vite, tsconfig) {
        (Some(v), Some(t)) => {
            let vc = chars_of(v);
            if chars_eq_str(vc.as_slice(), t) {
                AliasSync::Same
            } else {
                AliasSync::Differs
            }
        },
        (Some(_), None) => AliasSync::ViteOnly,
        (None, Some(_)) => AliasSync::TsconfigOnly,
        (None, None) => AliasSync::Neither,
    }
}

} // verus!
