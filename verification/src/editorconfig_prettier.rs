//! EditorConfig settings against Prettier settings.
//!
//! A settings map is a list of `(key, value)` entries in which a later entry
//! for a key overrides earlier ones.
use vstd::prelude::*;
use crate::json::{get, get_spec, JsonValue};
use crate::config_duplicates::{config_view, config_views, ConfigFinding};
use crate::registry::Severity;

use crate::text::{
    append_chars, ascii_lowercase, chars_eq, chars_eq_str, chars_of, digits_value, find_chars,
    find_seq, first_index, index_of_from, is_ascii_alnum, join_with, is_ascii_alphanumeric, is_digit, lines,
    lines_of, lower_seq, slice_chars, string_from, trim, trim_chars, trim_start, trim_start_chars,
};

verus! {

pub open spec fn entry_views(es: Seq<(String, String)>) -> Seq<(Seq<char>, Seq<char>)> {
    es.map_values(|e: (String, String)| (e.0@, e.1@))
}

/// The value a settings list gives a key: its last entry for that key.
pub open spec fn setting(es: Seq<(Seq<char>, Seq<char>)>, key: Seq<char>) -> Option<Seq<char>>
    decreases es.len(),
{
    if es.len() == 0 {
        None
    } else if es.last().0 == key {
        Some(es.last().1)
    } else {
        setting(es.drop_last(), key)
    }
}

/// Look a key up in a settings list.
pub fn get_setting(entries: &[(String, String)], key: &str) -> (r: Option<String>)
    ensures
        match r {
            Some(v) => setting(entry_views(entries@), key@) == Some(v@),
            None => setting(entry_views(entries@), key@) is None,
        },
{
    let k = chars_of(key);
    let ghost es = entry_views(entries@);
    let mut j: usize = entries.len();
    assert(es.take(j as int) =~= es);
    while j > 0
        invariant
            j <= entries@.len(),
            es == entry_views(entries@),
            k@ == key@,
            setting(es, key@) == setting(es.take(j as int), key@),
        decreases j,
    {
        proof {
            assert(es.take(j as int).drop_last() =~= es.take(j - 1));
            assert(es.take(j as int).last() == es[j - 1]);
        }
        let ek = chars_of(entries[j - 1].0.as_str());
        if chars_eq(ek.as_slice(), k.as_slice()) {
            return Some(entries[j - 1].1.clone());
        }
        j -= 1;
    }
    None
}

// ---------------------------------------------------------------------
// EditorConfig
// ---------------------------------------------------------------------

/// The part before the first `#` or `;`.
pub open spec fn ec_strip(line: Seq<char>) -> Seq<char> {
    line.take(first_comment(line))
}

/// The index of the first `#` or `;`, or the length.
pub open spec fn first_comment(s: Seq<char>) -> int
    decreases s.len(),
{
    if s.len() == 0 || s[0] == '#' || s[0] == ';' {
        0
    } else {
        1 + first_comment(s.drop_first())
    }
}

proof fn lemma_first_comment(s: Seq<char>)
    ensures
        0 <= first_comment(s) <= s.len(),
    decreases s.len(),
{
    if s.len() > 0 && s[0] != '#' && s[0] != ';' {
        lemma_first_comment(s.drop_first());
    }
}

fn strip_editorconfig_comment_chars(line: &[char]) -> (out: Vec<char>)
    ensures
        out@ == ec_strip(line@),
{
    let n = line.len();
    let mut i: usize = 0;
    assert(line@.skip(0) =~= line@);
    while i < n && line[i] != '#' && line[i] != ';'
        invariant
            n == line@.len(),
            i <= n,
            first_comment(line@) == i + first_comment(line@.skip(i as int)),
        decreases n - i,
    {
        assert(line@.skip(i as int).drop_first() =~= line@.skip(i + 1));
        i += 1;
    }
    proof {
        if i < n {
            assert(line@.skip(i as int)[0] == line@[i as int]);
        }
    }
    slice_chars(line, 0, i)
}

/// The line up to its first comment (`#` or `;`).
pub fn strip_editorconfig_comment(line: &str) -> (out: String)
    ensures
        out@ == ec_strip(line@),
{
    let l = chars_of(line);
    let r = strip_editorconfig_comment_chars(l.as_slice());
    string_from(r.as_slice())
}

/// The entries of the preamble of an `.editorconfig` (the lines before the
/// first section header): each `key = value` line, both sides trimmed and
/// lowercased, after `acc`.
pub open spec fn ec_entries(ls: Seq<Seq<char>>, acc: Seq<(Seq<char>, Seq<char>)>) -> Seq<(Seq<char>, Seq<char>)>
    decreases ls.len(),
{
    if ls.len() == 0 {
        acc
    } else {
        let line = trim(ec_strip(ls[0]));
        if line.len() > 0 && line[0] == '[' {
            acc
        } else if line.len() == 0 {
            ec_entries(ls.drop_first(), acc)
        } else {
            let k = first_index(line, '=');
            if k < line.len() {
                ec_entries(
                    ls.drop_first(),
                    acc.push((lower_seq(trim(line.take(k))), lower_seq(trim(line.skip(k + 1))))),
                )
            } else {
                ec_entries(ls.drop_first(), acc)
            }
        }
    }
}

/// The `key = value` settings of an EditorConfig text, in order, keys and values trimmed and lowercased.
pub fn parse_editorconfig_values(text: &str) -> (out: Vec<(String, String)>)
    ensures
        entry_views(out@) == ec_entries(lines(text@), seq![]),
{
    let t = chars_of(text);
    let ls = lines_of(t.as_slice());
    let ghost all = lines(text@);
    let mut out: Vec<(String, String)> = Vec::new();
    let mut i: usize = 0;
    assert(all.skip(0) =~= all);
    assert(entry_views(out@) =~= Seq::<(Seq<char>, Seq<char>)>::empty());
    while i < ls.len()
        invariant
            i <= ls@.len(),
            all == lines(text@),
            ls@.len() == all.len(),
            forall|k: int| 0 <= k < ls@.len() ==> #[trigger] ls@[k]@ == all[k],
            ec_entries(all, seq![]) == ec_entries(all.skip(i as int), entry_views(out@)),
        decreases ls@.len() - i,
    {
        proof {
            assert(all.skip(i as int)[0] == all[i as int]);
            assert(all.skip(i as int).drop_first() =~= all.skip(i + 1));
        }
        let stripped = strip_editorconfig_comment_chars(ls[i].as_slice());
        let line = trim_chars(stripped.as_slice());
        assert(line@ == trim(ec_strip(all.skip(i as int)[0])));
        if line.len() > 0 && line[0] == '[' {
            assert(ec_entries(all.skip(i as int), entry_views(out@)) == entry_views(out@));
            assert(entry_views(out@) == ec_entries(lines(text@), seq![]));
            return out;
        }
        if line.len() > 0 {
            let k = index_of_from(line.as_slice(), '=', 0);
            assert(line@.skip(0) =~= line@);
            if k < line.len() {
                let a = slice_chars(line.as_slice(), 0, k);
                let b = slice_chars(line.as_slice(), k + 1, line.len());
                assert(a@ =~= line@.take(k as int));
                assert(b@ =~= line@.skip(k + 1));
                let ka = trim_chars(a.as_slice());
                let vb = trim_chars(b.as_slice());
                let key = ascii_lowercase(ka.as_slice());
                let value = ascii_lowercase(vb.as_slice());
                let ghost before = entry_views(out@);
                out.push((string_from(key.as_slice()), string_from(value.as_slice())));
                assert(entry_views(out@) =~= before.push((key@, value@)));
            }
        }
        i += 1;
    }
    proof {
        assert(all.skip(i as int).len() == 0);
    }
    out
}

// ---------------------------------------------------------------------
// Prettier settings written as JavaScript
// ---------------------------------------------------------------------

/// A quoted string (lowercased) up to its closing
/// quote, or a run of ASCII letters and digits.
pub open spec fn simple_js_value(text: Seq<char>) -> Option<Seq<char>> {
    if text.len() == 0 {
        None
    } else if text[0] == '"' || text[0] == '\'' {
        let rest = text.skip(1);
        let end = first_index(rest, text[0]);
        if end < rest.len() {
            Some(lower_seq(rest.take(end)))
        } else {
            None
        }
    } else {
        let n = alnum_prefix_len(text);
        if n == 0 {
            None
        } else {
            Some(text.take(n))
        }
    }
}

/// The length of the leading run of ASCII letters and digits.
pub open spec fn alnum_prefix_len(s: Seq<char>) -> int
    decreases s.len(),
{
    if s.len() > 0 && is_ascii_alnum(s[0]) {
        1 + alnum_prefix_len(s.drop_first())
    } else {
        0
    }
}

fn parse_simple_js_value_chars(text: &[char]) -> (out: Option<Vec<char>>)
    ensures
        match out {
            Some(v) => simple_js_value(text@) == Some(v@),
            None => simple_js_value(text@) is None,
        },
{
    let n = text.len();
    if n == 0 {
        return None;
    }
    let first = text[0];
    if first == '"' || first == '\'' {
        let rest = slice_chars(text, 1, n);
        assert(rest@ =~= text@.skip(1));
        let end = index_of_from(rest.as_slice(), first, 0);
        assert(rest@.skip(0) =~= rest@);
        if end < rest.len() {
            let v = slice_chars(rest.as_slice(), 0, end);
            assert(v@ =~= rest@.take(end as int));
            return Some(ascii_lowercase(v.as_slice()));
        }
        return None;
    }
    let mut i: usize = 0;
    assert(text@.skip(0) =~= text@);
    while i < n && is_ascii_alphanumeric(text[i])
        invariant
            n == text@.len(),
            i <= n,
            alnum_prefix_len(text@) == i + alnum_prefix_len(text@.skip(i as int)),
        decreases n - i,
    {
        assert(text@.skip(i as int).drop_first() =~= text@.skip(i + 1));
        i += 1;
    }
    proof {
        if i < n {
            assert(text@.skip(i as int)[0] == text@[i as int]);
        }
    }
    if i == 0 {
        None
    } else {
        Some(slice_chars(text, 0, i))
    }
}

/// The value a JavaScript config text gives right after a property: a quoted string, a boolean or a number-like word.
pub fn parse_simple_js_value(text: &str) -> (out: Option<String>)
    ensures
        match out {
            Some(v) => simple_js_value(text@) == Some(v@),
            None => simple_js_value(text@) is None,
        },
{
    let t = chars_of(text);
    match parse_simple_js_value_chars(t.as_slice()) {
        Some(v) => Some(string_from(v.as_slice())),
        None => None,
    }
}

/// The simple value after the first `:`
/// that follows the first occurrence of the needle.
#[verifier::opaque]
pub open spec fn js_value_after(text: Seq<char>, needle: Seq<char>) -> Option<Seq<char>> {
    match find_seq(text, needle) {
        None => None,
        Some(index) => {
            let after_key = text.skip(index + needle.len());
            let colon = first_index(after_key, ':');
            if colon < after_key.len() {
                simple_js_value(trim_start(after_key.skip(colon + 1)))
            } else {
                None
            }
        },
    }
}

fn find_js_property_value_after_chars(text: &[char], needle: &[char]) -> (out: Option<Vec<char>>)
    ensures
        match out {
            Some(v) => js_value_after(text@, needle@) == Some(v@),
            None => js_value_after(text@, needle@) is None,
        },
{
    reveal(js_value_after);
    let index = match find_chars(text, needle) {
        Some(i) => i,
        None => {
            return None;
        },
    };
    proof {
        crate::text::lemma_find_bounds(text@, needle@);
        assert(crate::text::occurs_at(text@, needle@, index as int));
    }
    let tn = text.len();
    assert(index + needle@.len() <= tn);
    let after_key = slice_chars(text, index + needle.len(), tn);
    assert(after_key@ =~= text@.skip(index + needle@.len()));
    let colon = index_of_from(after_key.as_slice(), ':', 0);
    assert(after_key@.skip(0) =~= after_key@);
    if colon >= after_key.len() {
        return None;
    }
    let rest = slice_chars(after_key.as_slice(), colon + 1, after_key.len());
    assert(rest@ =~= after_key@.skip(colon + 1));
    let trimmed = trim_start_chars(rest.as_slice());
    parse_simple_js_value_chars(trimmed.as_slice())
}

/// The value that follows the first occurrence of `needle` in a JavaScript config text, if it is a simple value.
pub fn find_js_property_value_after(text: &str, needle: &str) -> (out: Option<String>)
    ensures
        match out {
            Some(v) => js_value_after(text@, needle@) == Some(v@),
            None => js_value_after(text@, needle@) is None,
        },
{
    let t = chars_of(text);
    let n = chars_of(needle);
    match find_js_property_value_after_chars(t.as_slice(), n.as_slice()) {
        Some(v) => Some(string_from(v.as_slice())),
        None => None,
    }
}

/// The property quoted with `"`, then with `'`,
/// then bare.
#[verifier::opaque]
pub open spec fn js_property_value(text: Seq<char>, property: Seq<char>) -> Option<Seq<char>> {
    let dq = seq!['"'] + property + seq!['"'];
    let sq = seq!['\''] + property + seq!['\''];
    if js_value_after(text, dq) is Some {
        js_value_after(text, dq)
    } else if js_value_after(text, sq) is Some {
        js_value_after(text, sq)
    } else {
        js_value_after(text, property)
    }
}

fn quoted(property: &[char], q: char) -> (out: Vec<char>)
    ensures
        out@ == seq![q] + property@ + seq![q],
{
    let mut out: Vec<char> = vec![q];
    append_chars(&mut out, property);
    out.push(q);
    assert(out@ =~= seq![q] + property@ + seq![q]);
    out
}

fn find_js_property_value_chars(text: &[char], property: &[char]) -> (out: Option<Vec<char>>)
    ensures
        match out {
            Some(v) => js_property_value(text@, property@) == Some(v@),
            None => js_property_value(text@, property@) is None,
        },
{
    reveal(js_property_value);
    let dq = quoted(property, '"');
    if let Some(v) = find_js_property_value_after_chars(text, dq.as_slice()) {
        return Some(v);
    }
    let sq = quoted(property, '\'');
    if let Some(v) = find_js_property_value_after_chars(text, sq.as_slice()) {
        return Some(v);
    }
    find_js_property_value_after_chars(text, property)
}

/// The simple value of a property in a JavaScript config text, written with or without quotes around its name.
pub fn find_js_property_value(text: &str, property: &str) -> (out: Option<String>)
    ensures
        match out {
            Some(v) => js_property_value(text@, property@) == Some(v@),
            None => js_property_value(text@, property@) is None,
        },
{
    let t = chars_of(text);
    let p = chars_of(property);
    match find_js_property_value_chars(t.as_slice(), p.as_slice()) {
        Some(v) => Some(string_from(v.as_slice())),
        None => None,
    }
}

/// The Prettier keys this check compares, in order.
pub open spec fn prettier_keys() -> Seq<Seq<char>> {
    seq!["useTabs"@, "tabWidth"@, "endOfLine"@, "printWidth"@]
}

/// Each compared key whose value the text gives.
pub open spec fn prettier_text_entries(text: Seq<char>, keys: Seq<Seq<char>>) -> Seq<(Seq<char>, Seq<char>)>
    decreases keys.len(),
{
    if keys.len() == 0 {
        seq![]
    } else {
        let before = prettier_text_entries(text, keys.drop_last());
        match js_property_value(text, keys.last()) {
            Some(v) => before.push((keys.last(), v)),
            None => before,
        }
    }
}

fn push_property_value(out: &mut Vec<(String, String)>, text: &[char], key: &str)
    ensures
        entry_views(final(out)@) == match js_property_value(text@, key@) {
            Some(v) => entry_views(old(out)@).push((key@, v)),
            None => entry_views(old(out)@),
        },
{
    let kc = chars_of(key);
    let ghost before = entry_views(out@);
    match find_js_property_value_chars(text, kc.as_slice()) {
        Some(v) => {
            out.push((string_from(kc.as_slice()), string_from(v.as_slice())));
            assert(entry_views(out@) =~= before.push((key@, v@)));
        },
        None => {},
    }
}

/// The Prettier settings a JavaScript config text gives, for the keys the check compares.
pub fn prettier_values_from_text(text: &str) -> (out: Vec<(String, String)>)
    ensures
        entry_views(out@) == prettier_text_entries(text@, prettier_keys()),
{
    let t = chars_of(text);
    let ghost ks = prettier_keys();
    let mut out: Vec<(String, String)> = Vec::new();
    assert(entry_views(out@) =~= prettier_text_entries(text@, ks.take(0)));
    push_property_value(&mut out, t.as_slice(), "useTabs");
    assert(ks.take(1) =~= ks.take(0).push("useTabs"@));
    assert(ks.take(1).drop_last() == ks.take(0));
    assert(entry_views(out@) == prettier_text_entries(text@, ks.take(1)));
    push_property_value(&mut out, t.as_slice(), "tabWidth");
    assert(ks.take(2) =~= ks.take(1).push("tabWidth"@));
    assert(ks.take(2).drop_last() == ks.take(1));
    assert(entry_views(out@) == prettier_text_entries(text@, ks.take(2)));
    push_property_value(&mut out, t.as_slice(), "endOfLine");
    assert(ks.take(3) =~= ks.take(2).push("endOfLine"@));
    assert(ks.take(3).drop_last() == ks.take(2));
    assert(entry_views(out@) == prettier_text_entries(text@, ks.take(3)));
    push_property_value(&mut out, t.as_slice(), "printWidth");
    assert(ks.take(4) =~= ks.take(3).push("printWidth"@));
    assert(ks.take(4).drop_last() == ks.take(3));
    assert(entry_views(out@) == prettier_text_entries(text@, ks.take(4)));
    assert(ks.take(4) =~= ks);
    out
}

/// A boolean or number as its text, a string
/// lowercased; nothing for other values.
pub open spec fn prettier_json_value(v: JsonValue) -> Option<Seq<char>> {
    match v {
        JsonValue::Bool(b) => Some(if b {
            "true"@
        } else {
            "false"@
        }),
        JsonValue::Number(n) => Some(n.text@),
        JsonValue::Text(s) => Some(lower_seq(s@)),
        _ => None,
    }
}

pub fn normalize_prettier_value(value: &JsonValue) -> (r: Option<String>)
    ensures
        match r {
            Some(s) => prettier_json_value(*value) == Some(s@),
            None => prettier_json_value(*value) is None,
        },
{
    match value {
        JsonValue::Bool(b) => {
            let t = if *b {
                "true"
            } else {
                "false"
            };
            let c = chars_of(t);
            Some(string_from(c.as_slice()))
        },
        JsonValue::Number(n) => {
            let c = chars_of(n.text.as_str());
            Some(string_from(c.as_slice()))
        },
        JsonValue::Text(s) => {
            let c = chars_of(s.as_str());
            let l = ascii_lowercase(c.as_slice());
            Some(string_from(l.as_slice()))
        },
        _ => None,
    }
}

/// Each compared key that the object has with
/// a usable value.
pub open spec fn prettier_json_entries(v: JsonValue, keys: Seq<Seq<char>>) -> Seq<
    (Seq<char>, Seq<char>),
>
    decreases keys.len(),
{
    if keys.len() == 0 {
        seq![]
    } else {
        let before = prettier_json_entries(v, keys.drop_last());
        match get_spec(v, keys.last()) {
            Some(x) => match prettier_json_value(x) {
                Some(val) => before.push((keys.last(), val)),
                None => before,
            },
            None => before,
        }
    }
}

fn push_json_value(out: &mut Vec<(String, String)>, value: &JsonValue, key: &str)
    ensures
        entry_views(final(out)@) == match get_spec(*value, key@) {
            Some(x) => match prettier_json_value(x) {
                Some(val) => entry_views(old(out)@).push((key@, val)),
                None => entry_views(old(out)@),
            },
            None => entry_views(old(out)@),
        },
{
    let ghost before = entry_views(out@);
    match get(value, key) {
        Some(x) => match normalize_prettier_value(x) {
            Some(val) => {
                let kc = chars_of(key);
                let ks = string_from(kc.as_slice());
                let ghost vv = val@;
                out.push((ks, val));
                assert(entry_views(out@) =~= before.push((key@, vv)));
            },
            None => {},
        },
        None => {},
    }
}

pub fn prettier_values_from_json(value: &JsonValue) -> (out: Vec<(String, String)>)
    ensures
        entry_views(out@) == prettier_json_entries(*value, prettier_keys()),
{
    let ghost ks = prettier_keys();
    let mut out: Vec<(String, String)> = Vec::new();
    assert(entry_views(out@) =~= prettier_json_entries(*value, ks.take(0)));
    push_json_value(&mut out, value, "useTabs");
    assert(ks.take(1) =~= ks.take(0).push("useTabs"@));
    assert(ks.take(1).drop_last() == ks.take(0));
    assert(entry_views(out@) == prettier_json_entries(*value, ks.take(1)));
    push_json_value(&mut out, value, "tabWidth");
    assert(ks.take(2) =~= ks.take(1).push("tabWidth"@));
    assert(ks.take(2).drop_last() == ks.take(1));
    assert(entry_views(out@) == prettier_json_entries(*value, ks.take(2)));
    push_json_value(&mut out, value, "endOfLine");
    assert(ks.take(3) =~= ks.take(2).push("endOfLine"@));
    assert(ks.take(3).drop_last() == ks.take(2));
    assert(entry_views(out@) == prettier_json_entries(*value, ks.take(3)));
    push_json_value(&mut out, value, "printWidth");
    assert(ks.take(4) =~= ks.take(3).push("printWidth"@));
    assert(ks.take(4).drop_last() == ks.take(3));
    assert(entry_views(out@) == prettier_json_entries(*value, ks.take(4)));
    assert(ks.take(4) =~= ks);
    out
}

// ---------------------------------------------------------------------
// Conflicts
// ---------------------------------------------------------------------

/// `str::parse::<u64>`: an optional `+`, then one or more digits whose
/// value fits.
pub open spec fn parse_u64_spec(s: Seq<char>) -> Option<u64> {
    let d = unsigned_digits(s);
    if d.len() > 0 && all_digits(d) && digits_value(d) <= u64::MAX {
        Some(digits_value(d) as u64)
    } else {
        None
    }
}

/// The text after an optional leading `+`.
pub open spec fn unsigned_digits(s: Seq<char>) -> Seq<char> {
    if s.len() > 0 && s[0] == '+' {
        s.skip(1)
    } else {
        s
    }
}

pub open spec fn all_digits(d: Seq<char>) -> bool {
    forall|k: int| 0 <= k < d.len() ==> is_digit(#[trigger] d[k])
}

/// A decimal number made only of digits, as a `u64`.
pub fn parse_positive_number(value: &str) -> (r: Option<u64>)
    ensures
        r == parse_u64_spec(value@),
{
    let s = chars_of(value);
    let start: usize = if s.len() > 0 && s[0] == '+' {
        1
    } else {
        0
    };
    let d = slice_chars(s.as_slice(), start, s.len());
    assert(d@ =~= unsigned_digits(value@));
    let n = d.len();
    if n == 0 {
        return None;
    }
    let mut acc: u128 = 0;
    let mut i: usize = 0;
    while i < n
        invariant
            n == d@.len(),
            n > 0,
            d@ == unsigned_digits(value@),
            i <= n,
            forall|k: int| 0 <= k < i ==> is_digit(#[trigger] d@[k]),
            acc == digits_value(d@.take(i as int)),
            acc <= u64::MAX,
        decreases n - i,
    {
        let c = d[i];
        if !('0' <= c && c <= '9') {
            assert(!is_digit(d@[i as int]));
            assert(!all_digits(d@));
            return None;
        }
        proof {
            assert(d@.take(i + 1).drop_last() =~= d@.take(i as int));
            assert(d@.take(i + 1).last() == c);
        }
        acc = acc * 10 + ((c as u128) - 48);
        assert(acc == digits_value(d@.take(i + 1)));
        if acc > 18446744073709551615 {
            proof {
                if all_digits(d@) {
                    lemma_digits_value_monotone(d@, i + 1);
                }
            }
            return None;
        }
        i += 1;
    }
    assert(d@.take(n as int) =~= d@);
    assert(all_digits(d@));
    Some(acc as u64)
}

/// The value of a digit run does not shrink when more digits follow.
pub proof fn lemma_digits_value_monotone(d: Seq<char>, i: int)
    requires
        0 <= i <= d.len(),
        forall|k: int| 0 <= k < d.len() ==> is_digit(#[trigger] d[k]),
    ensures
        digits_value(d.take(i)) <= digits_value(d),
    decreases d.len() - i,
{
    if i < d.len() {
        lemma_digits_value_monotone(d, i + 1);
        assert(d.take(i + 1).drop_last() =~= d.take(i));
        assert(d.take(i + 1).last() == d[i]);
    } else {
        assert(d.take(i) =~= d);
    }
}

/// One disagreement between the two configurations.
pub struct Conflict {
    pub editorconfig_key: &'static str,
    pub editorconfig_value: String,
    pub prettier_key: &'static str,
    pub prettier_value: String,
}

pub open spec fn conflict_view(c: Conflict) -> (Seq<char>, Seq<char>, Seq<char>, Seq<char>) {
    (c.editorconfig_key@, c.editorconfig_value@, c.prettier_key@, c.prettier_value@)
}

/// In order, `indent_style` against `useTabs` (tab means
/// true, space false, other styles never conflict), `indent_size` against
/// `tabWidth` (unless the size is `tab`), `end_of_line` against `endOfLine`
/// (unless Prettier says `auto`) and `max_line_length` against `printWidth`
/// (unless the length is `off`); numbers are compared as parsed `u64`s.
pub open spec fn conflicts_spec(
    ec: Seq<(Seq<char>, Seq<char>)>,
    pr: Seq<(Seq<char>, Seq<char>)>,
) -> Seq<(Seq<char>, Seq<char>, Seq<char>, Seq<char>)> {
    style_conflict(ec, pr) + size_conflict(ec, pr) + eol_conflict(ec, pr) + width_conflict(ec, pr)
}

pub open spec fn style_conflict(
    ec: Seq<(Seq<char>, Seq<char>)>,
    pr: Seq<(Seq<char>, Seq<char>)>,
) -> Seq<(Seq<char>, Seq<char>, Seq<char>, Seq<char>)> {
    match (setting(ec, "indent_style"@), setting(pr, "useTabs"@)) {
        (Some(style), Some(use_tabs)) => {
            let expected: Option<Seq<char>> = if style == "tab"@ {
                Some("true"@)
            } else if style == "space"@ {
                Some("false"@)
            } else {
                None
            };
            if expected is Some && expected->0 != use_tabs {
                seq![("indent_style"@, style, "useTabs"@, use_tabs)]
            } else {
                seq![]
            }
        },
        _ => seq![],
    }
}

pub open spec fn size_conflict(
    ec: Seq<(Seq<char>, Seq<char>)>,
    pr: Seq<(Seq<char>, Seq<char>)>,
) -> Seq<(Seq<char>, Seq<char>, Seq<char>, Seq<char>)> {
    match (setting(ec, "indent_size"@), setting(pr, "tabWidth"@)) {
        (Some(size), Some(width)) => if size != "tab"@ && parse_u64_spec(size) != parse_u64_spec(width) {
            seq![("indent_size"@, size, "tabWidth"@, width)]
        } else {
            seq![]
        },
        _ => seq![],
    }
}

pub open spec fn eol_conflict(
    ec: Seq<(Seq<char>, Seq<char>)>,
    pr: Seq<(Seq<char>, Seq<char>)>,
) -> Seq<(Seq<char>, Seq<char>, Seq<char>, Seq<char>)> {
    match (setting(ec, "end_of_line"@), setting(pr, "endOfLine"@)) {
        (Some(eol), Some(peol)) => if peol != "auto"@ && eol != peol {
            seq![("end_of_line"@, eol, "endOfLine"@, peol)]
        } else {
            seq![]
        },
        _ => seq![],
    }
}

pub open spec fn width_conflict(
    ec: Seq<(Seq<char>, Seq<char>)>,
    pr: Seq<(Seq<char>, Seq<char>)>,
) -> Seq<(Seq<char>, Seq<char>, Seq<char>, Seq<char>)> {
    match (setting(ec, "max_line_length"@), setting(pr, "printWidth"@)) {
        (Some(len), Some(width)) => if len != "off"@ && parse_u64_spec(len) != parse_u64_spec(width) {
            seq![("max_line_length"@, len, "printWidth"@, width)]
        } else {
            seq![]
        },
        _ => seq![],
    }
}

/// No conflict of the list is about the EditorConfig key.
pub open spec fn silent_on(cs: Seq<(Seq<char>, Seq<char>, Seq<char>, Seq<char>)>, key: Seq<char>) -> bool {
    forall|i: int| 0 <= i < cs.len() ==> (#[trigger] cs[i]).0 != key
}

proof fn lemma_keys_differ()
    ensures
        "indent_style"@ != "indent_size"@,
        "indent_style"@ != "end_of_line"@,
        "indent_style"@ != "max_line_length"@,
        "indent_size"@ != "end_of_line"@,
        "indent_size"@ != "max_line_length"@,
        "end_of_line"@ != "max_line_length"@,
        "tab"@ != "space"@,
{
    reveal_strlit("tab");
    reveal_strlit("space");
    assert("tab"@[0] != "space"@[0]);
    reveal_strlit("indent_style");
    reveal_strlit("indent_size");
    reveal_strlit("end_of_line");
    reveal_strlit("max_line_length");
    assert("indent_style"@[8] != "indent_size"@[8]);
    assert("indent_style"@[0] != "end_of_line"@[0]);
    assert("indent_style"@[0] != "max_line_length"@[0]);
    assert("indent_size"@[0] != "end_of_line"@[0]);
    assert("indent_size"@[0] != "max_line_length"@[0]);
    assert("end_of_line"@[0] != "max_line_length"@[0]);
}

/// What the conflict list reports, key by key: each EditorConfig setting
/// is reported against its Prettier counterpart exactly when both are set
/// and they disagree — a line length that is not `off` and a print width
/// (or an indent size that is not `tab` and a tab width) whose numbers
/// differ, an end of line other than Prettier's (unless Prettier says
/// `auto`), or an indent style of `tab`/`space` against a `useTabs` other
/// than `true`/`false` — with the two values as they are written.
pub proof fn lemma_conflicts_report(ec: Seq<(Seq<char>, Seq<char>)>, pr: Seq<(Seq<char>, Seq<char>)>)
    ensures
        ({
            let cs = conflicts_spec(ec, pr);
            let len = setting(ec, "max_line_length"@);
            let width = setting(pr, "printWidth"@);
            let size = setting(ec, "indent_size"@);
            let tab = setting(pr, "tabWidth"@);
            let eol = setting(ec, "end_of_line"@);
            let peol = setting(pr, "endOfLine"@);
            let style = setting(ec, "indent_style"@);
            let tabs = setting(pr, "useTabs"@);
            &&& if len is Some && width is Some && len->0 != "off"@ && parse_u64_spec(len->0)
                != parse_u64_spec(width->0) {
                cs.contains(("max_line_length"@, len->0, "printWidth"@, width->0))
            } else {
                silent_on(cs, "max_line_length"@)
            }
            &&& if size is Some && tab is Some && size->0 != "tab"@ && parse_u64_spec(size->0)
                != parse_u64_spec(tab->0) {
                cs.contains(("indent_size"@, size->0, "tabWidth"@, tab->0))
            } else {
                silent_on(cs, "indent_size"@)
            }
            &&& if eol is Some && peol is Some && peol->0 != "auto"@ && eol->0 != peol->0 {
                cs.contains(("end_of_line"@, eol->0, "endOfLine"@, peol->0))
            } else {
                silent_on(cs, "end_of_line"@)
            }
            &&& if style is Some && tabs is Some && ((style->0 == "tab"@ && tabs->0 != "true"@) || (
            style->0 == "space"@ && tabs->0 != "false"@)) {
                cs.contains(("indent_style"@, style->0, "useTabs"@, tabs->0))
            } else {
                silent_on(cs, "indent_style"@)
            }
        }),
{
    lemma_keys_differ();
    let a = style_conflict(ec, pr);
    let b = size_conflict(ec, pr);
    let c = eol_conflict(ec, pr);
    let d = width_conflict(ec, pr);
    let cs = conflicts_spec(ec, pr);
    assert(cs == a + b + c + d);
    assert(a.len() <= 1 && b.len() <= 1 && c.len() <= 1 && d.len() <= 1);
    assert(a.len() == 1 ==> a[0].0 == "indent_style"@);
    assert(b.len() == 1 ==> b[0].0 == "indent_size"@);
    assert(c.len() == 1 ==> c[0].0 == "end_of_line"@);
    assert(d.len() == 1 ==> d[0].0 == "max_line_length"@);
    assert forall|i: int| 0 <= i < cs.len() implies {
        let k = (#[trigger] cs[i]).0;
        k == "indent_style"@ && a.len() == 1 || k == "indent_size"@ && b.len() == 1 || k
            == "end_of_line"@ && c.len() == 1 || k == "max_line_length"@ && d.len() == 1
    } by {
        if i < a.len() {
            assert(cs[i] == a[i]);
        } else if i < a.len() + b.len() {
            assert(cs[i] == b[i - a.len()]);
        } else if i < a.len() + b.len() + c.len() {
            assert(cs[i] == c[i - a.len() - b.len()]);
        } else {
            assert(cs[i] == d[i - a.len() - b.len() - c.len()]);
        }
    }
    if a.len() == 1 {
        assert(cs[0] == a[0]);
    }
    if b.len() == 1 {
        assert(cs[a.len() as int] == b[0]);
    }
    if c.len() == 1 {
        assert(cs[(a.len() + b.len()) as int] == c[0]);
    }
    if d.len() == 1 {
        assert(cs[(a.len() + b.len() + c.len()) as int] == d[0]);
    }
}

fn str_eq(a: &str, b: &str) -> (r: bool)
    ensures
        r == (a@ == b@),
{
    let x = chars_of(a);
    chars_eq_str(x.as_slice(), b)
}

/// The settings on which EditorConfig and Prettier disagree, in the order given by `conflicts_spec`.
pub fn find_conflicts(editorconfig: &[(String, String)], prettier: &[(String, String)]) -> (out: Vec<Conflict>)
    ensures
        out@.map_values(|c: Conflict| conflict_view(c)) == conflicts_spec(
            entry_views(editorconfig@),
            entry_views(prettier@),
        ),
{
    let ghost ec = entry_views(editorconfig@);
    let ghost pr = entry_views(prettier@);
    let mut conflicts: Vec<Conflict> = Vec::new();
    let ghost mut expected: Seq<(Seq<char>, Seq<char>, Seq<char>, Seq<char>)> = seq![];
    if let (Some(style), Some(use_tabs)) = (
        get_setting(editorconfig, "indent_style"),
        get_setting(prettier, "useTabs"),
    ) {
        let is_tab = str_eq(style.as_str(), "tab");
        let is_space = str_eq(style.as_str(), "space");
        let mismatch = if is_tab {
            !str_eq(use_tabs.as_str(), "true")
        } else if is_space {
            !str_eq(use_tabs.as_str(), "false")
        } else {
            false
        };
        if mismatch {
            proof {
                expected = expected.push(("indent_style"@, style@, "useTabs"@, use_tabs@));
            }
            conflicts.push(
                Conflict {
                    editorconfig_key: "indent_style",
                    editorconfig_value: style,
                    prettier_key: "useTabs",
                    prettier_value: use_tabs,
                },
            );
        }
    }
    assert(conflicts@.map_values(|c: Conflict| conflict_view(c)) =~= expected);
    assert(expected =~= style_conflict(ec, pr));
    if let (Some(size), Some(width)) = (
        get_setting(editorconfig, "indent_size"),
        get_setting(prettier, "tabWidth"),
    ) {
        if !str_eq(size.as_str(), "tab") && parse_positive_number(size.as_str())
            != parse_positive_number(width.as_str()) {
            proof {
                expected = expected.push(("indent_size"@, size@, "tabWidth"@, width@));
            }
            conflicts.push(
                Conflict {
                    editorconfig_key: "indent_size",
                    editorconfig_value: size,
                    prettier_key: "tabWidth",
                    prettier_value: width,
                },
            );
        }
    }
    assert(conflicts@.map_values(|c: Conflict| conflict_view(c)) =~= expected);
    assert(expected =~= style_conflict(ec, pr) + size_conflict(ec, pr));
    if let (Some(eol), Some(peol)) = (
        get_setting(editorconfig, "end_of_line"),
        get_setting(prettier, "endOfLine"),
    ) {
        if !str_eq(peol.as_str(), "auto") && !str_eq(eol.as_str(), peol.as_str()) {
            proof {
                expected = expected.push(("end_of_line"@, eol@, "endOfLine"@, peol@));
            }
            conflicts.push(
                Conflict {
                    editorconfig_key: "end_of_line",
                    editorconfig_value: eol,
                    prettier_key: "endOfLine",
                    prettier_value: peol,
                },
            );
        }
    }
    assert(conflicts@.map_values(|c: Conflict| conflict_view(c)) =~= expected);
    assert(expected =~= style_conflict(ec, pr) + size_conflict(ec, pr) + eol_conflict(ec, pr));
    if let (Some(len), Some(width)) = (
        get_setting(editorconfig, "max_line_length"),
        get_setting(prettier, "printWidth"),
    ) {
        if !str_eq(len.as_str(), "off") && parse_positive_number(len.as_str())
            != parse_positive_number(width.as_str()) {
            proof {
                expected = expected.push(("max_line_length"@, len@, "printWidth"@, width@));
            }
            conflicts.push(
                Conflict {
                    editorconfig_key: "max_line_length",
                    editorconfig_value: len,
                    prettier_key: "printWidth",
                    prettier_value: width,
                },
            );
        }
    }
    assert(conflicts@.map_values(|c: Conflict| conflict_view(c)) =~= expected);
    assert(expected =~= conflicts_spec(ec, pr));
    conflicts
}


// ---------------------------------------------------------------------
// Findings
// ---------------------------------------------------------------------

/// `key=value` for each EditorConfig side of the conflicts.
pub open spec fn editor_pairs(cs: Seq<(Seq<char>, Seq<char>, Seq<char>, Seq<char>)>) -> Seq<Seq<char>> {
    cs.map_values(|c: (Seq<char>, Seq<char>, Seq<char>, Seq<char>)| c.0 + "="@ + c.1)
}

/// `key=value` for each Prettier side of the conflicts.
pub open spec fn prettier_pairs(cs: Seq<(Seq<char>, Seq<char>, Seq<char>, Seq<char>)>) -> Seq<Seq<char>> {
    cs.map_values(|c: (Seq<char>, Seq<char>, Seq<char>, Seq<char>)| c.2 + "="@ + c.3)
}

/// The finding of a directory whose Prettier settings disagree with
/// EditorConfig; it points at the EditorConfig file.
pub open spec fn conflict_finding(
    directory: Seq<char>,
    editorconfig_path: Seq<char>,
    cs: Seq<(Seq<char>, Seq<char>, Seq<char>, Seq<char>)>,
) -> (Seq<char>, Seq<char>, Seq<char>, Seq<char>, Severity, Option<Seq<char>>) {
    (
        "editorconfig-prettier-conflict:"@ + directory,
        "EditorConfig and Prettier disagree"@,
        "EditorConfig sets "@ + join_with(editor_pairs(cs), ", "@) + ", but Prettier sets "@ + join_with(
            prettier_pairs(cs),
            ", "@,
        ) + "."@,
        "Align EditorConfig and Prettier so editor saves do not fight formatter output."@,
        Severity::Warn,
        Some(editorconfig_path),
    )
}

/// A Prettier configuration of the project: the directory it applies to
/// (its parent directory, or the project root when it has none) and its
/// settings.
pub struct PrettierDocument {
    pub directory: String,
    pub values: Vec<(String, String)>,
}

pub open spec fn document_views(v: Seq<PrettierDocument>) -> Seq<(Seq<char>, Seq<(Seq<char>, Seq<char>)>)> {
    v.map_values(|d: PrettierDocument| (d.directory@, entry_views(d.values@)))
}

/// The findings of the first `n` Prettier configurations, with the
/// directories reported so far: a configuration that conflicts with
/// EditorConfig is reported unless its directory already was.
pub open spec fn conflict_findings_upto(
    editorconfig_path: Seq<char>,
    ec: Seq<(Seq<char>, Seq<char>)>,
    docs: Seq<(Seq<char>, Seq<(Seq<char>, Seq<char>)>)>,
    n: int,
) -> (Seq<(Seq<char>, Seq<char>, Seq<char>, Seq<char>, Severity, Option<Seq<char>>)>, Seq<Seq<char>>)
    decreases n,
{
    if n <= 0 || n > docs.len() {
        (seq![], seq![])
    } else {
        let prev = conflict_findings_upto(editorconfig_path, ec, docs, n - 1);
        let d = docs[n - 1];
        let cs = conflicts_spec(ec, d.1);
        if cs.len() == 0 || prev.1.contains(d.0) {
            prev
        } else {
            (prev.0.push(conflict_finding(d.0, editorconfig_path, cs)), prev.1.push(d.0))
        }
    }
}

fn seen_contains(seen: &Vec<String>, d: &str) -> (r: bool)
    ensures
        r == crate::text::string_views(seen@).contains(d@),
{
    let ghost sv = crate::text::string_views(seen@);
    let dc = chars_of(d);
    let mut i: usize = 0;
    while i < seen.len()
        invariant
            i <= seen@.len(),
            sv == crate::text::string_views(seen@),
            dc@ == d@,
            forall|k: int| 0 <= k < i ==> sv[k] != d@,
        decreases seen@.len() - i,
    {
        if chars_eq(chars_of(seen[i].as_str()).as_slice(), dc.as_slice()) {
            assert(sv[i as int] == d@);
            return true;
        }
        i += 1;
    }
    false
}

fn conflict_finding_exec(directory: &str, editorconfig_path: &str, conflicts: &Vec<Conflict>) -> (r: ConfigFinding)
    ensures
        config_view(r) == conflict_finding(
            directory@,
            editorconfig_path@,
            conflicts@.map_values(|c: Conflict| conflict_view(c)),
        ),
{
    let ghost cs = conflicts@.map_values(|c: Conflict| conflict_view(c));
    let mut left: Vec<Vec<char>> = Vec::new();
    let mut right: Vec<Vec<char>> = Vec::new();
    let mut i: usize = 0;
    while i < conflicts.len()
        invariant
            i <= conflicts@.len(),
            cs == conflicts@.map_values(|c: Conflict| conflict_view(c)),
            left@.map_values(|x: Vec<char>| x@) == editor_pairs(cs).take(i as int),
            right@.map_values(|x: Vec<char>| x@) == prettier_pairs(cs).take(i as int),
        decreases conflicts@.len() - i,
    {
        let c = &conflicts[i];
        let mut l: Vec<char> = Vec::new();
        crate::text::append_str(&mut l, c.editorconfig_key);
        crate::text::append_str(&mut l, "=");
        crate::text::append_str(&mut l, c.editorconfig_value.as_str());
        let mut r: Vec<char> = Vec::new();
        crate::text::append_str(&mut r, c.prettier_key);
        crate::text::append_str(&mut r, "=");
        crate::text::append_str(&mut r, c.prettier_value.as_str());
        let ghost lb = left@;
        let ghost rb = right@;
        left.push(l);
        right.push(r);
        assert(cs[i as int] == conflict_view(conflicts@[i as int]));
        assert(left@.map_values(|x: Vec<char>| x@) =~= lb.map_values(|x: Vec<char>| x@).push(l@));
        assert(right@.map_values(|x: Vec<char>| x@) =~= rb.map_values(|x: Vec<char>| x@).push(r@));
        assert(editor_pairs(cs).take(i + 1) =~= editor_pairs(cs).take(i as int).push(editor_pairs(cs)[i as int]));
        assert(prettier_pairs(cs).take(i + 1) =~= prettier_pairs(cs).take(i as int).push(prettier_pairs(cs)[i as int]));
        i += 1;
    }
    assert(editor_pairs(cs).take(conflicts@.len() as int) =~= editor_pairs(cs));
    assert(prettier_pairs(cs).take(conflicts@.len() as int) =~= prettier_pairs(cs));
    let lj = crate::text::join_chars(&left, ", ");
    let rj = crate::text::join_chars(&right, ", ");
    let mut id: Vec<char> = Vec::new();
    crate::text::append_str(&mut id, "editorconfig-prettier-conflict:");
    crate::text::append_str(&mut id, directory);
    let mut detail: Vec<char> = Vec::new();
    crate::text::append_str(&mut detail, "EditorConfig sets ");
    append_chars(&mut detail, lj.as_slice());
    crate::text::append_str(&mut detail, ", but Prettier sets ");
    append_chars(&mut detail, rj.as_slice());
    crate::text::append_str(&mut detail, ".");
    ConfigFinding {
        id: string_from(id.as_slice()),
        title: string_from(chars_of("EditorConfig and Prettier disagree").as_slice()),
        detail: string_from(detail.as_slice()),
        hint: string_from(
            chars_of("Align EditorConfig and Prettier so editor saves do not fight formatter output.").as_slice(),
        ),
        severity: Severity::Warn,
        file: Some(string_from(chars_of(editorconfig_path).as_slice())),
    }
}

/// The findings of the EditorConfig/Prettier check: the first EditorConfig
/// file of the project against each Prettier configuration, one finding
/// per directory at most.
pub fn editorconfig_prettier_findings(
    editorconfig_path: &str,
    editorconfig: &Vec<(String, String)>,
    documents: &Vec<PrettierDocument>,
) -> (out: Vec<ConfigFinding>)
    ensures
        config_views(out@) == conflict_findings_upto(
            editorconfig_path@,
            entry_views(editorconfig@),
            document_views(documents@),
            documents@.len() as int,
        ).0,
{
    let ghost dv = document_views(documents@);
    let ghost ec = entry_views(editorconfig@);
    let mut out: Vec<ConfigFinding> = Vec::new();
    let mut seen: Vec<String> = Vec::new();
    let mut i: usize = 0;
    assert(config_views(out@) =~= Seq::<(Seq<char>, Seq<char>, Seq<char>, Seq<char>, Severity, Option<Seq<char>>)>::empty());
    assert(crate::text::string_views(seen@) =~= Seq::<Seq<char>>::empty());
    while i < documents.len()
        invariant
            i <= documents@.len(),
            dv == document_views(documents@),
            ec == entry_views(editorconfig@),
            (config_views(out@), crate::text::string_views(seen@)) == conflict_findings_upto(
                editorconfig_path@,
                ec,
                dv,
                i as int,
            ),
        decreases documents@.len() - i,
    {
        let doc = &documents[i];
        assert(dv[i as int] == (doc.directory@, entry_views(doc.values@)));
        let conflicts = find_conflicts(editorconfig.as_slice(), doc.values.as_slice());
        assert(conflicts@.map_values(|c: Conflict| conflict_view(c)).len() == conflicts@.len());
        if conflicts.len() > 0 && !seen_contains(&seen, doc.directory.as_str()) {
            let f = conflict_finding_exec(doc.directory.as_str(), editorconfig_path, &conflicts);
            let ghost fb = out@;
            let ghost sb = seen@;
            out.push(f);
            seen.push(string_from(chars_of(doc.directory.as_str()).as_slice()));
            assert(config_views(out@) =~= config_views(fb).push(config_view(f)));
            assert(crate::text::string_views(seen@) =~= crate::text::string_views(sb).push(doc.directory@));
        }
        i += 1;
    }
    out
}

} // verus!
