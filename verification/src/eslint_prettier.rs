//! Whether ESLint formatting rules and Prettier are configured side by side.
use vstd::prelude::*;
use crate::text::{
    append_chars, chars_of, find_occ_from, is_ascii_alnum, join_with, lemma_occ_from,
    next_non_ws, next_non_ws_from, occ_from, append_str, string_from,
};
use crate::config_duplicates::{config_view, ConfigFinding};
use crate::registry::Severity;

verus! {

/// `char::is_alphanumeric` (Unicode `Alphabetic` or `Numeric`).
pub uninterp spec fn spec_is_alphanumeric(c: char) -> bool;

/// `char::is_alphanumeric`; for ASCII characters this is exactly the ASCII
/// letters and digits.
#[verifier::external_body]
fn char_is_alphanumeric(c: char) -> (r: bool)
    ensures
        r == spec_is_alphanumeric(c),
        (c as u32) < 128 ==> r == is_ascii_alnum(c),
{
    c.is_alphanumeric()
}

/// Alphanumeric or `_`; no character is not a word character.
pub open spec fn word_char(c: Option<char>) -> bool {
    match c {
        Some(c) => spec_is_alphanumeric(c) || c == '_',
        None => false,
    }
}

pub fn is_word_char(character: Option<char>) -> (r: bool)
    ensures
        r == word_char(character),
{
    match character {
        Some(c) => char_is_alphanumeric(c) || c == '_',
        None => false,
    }
}

/// Scanning occurrences of `needle` left to right without overlap, from
/// `pos`: some occurrence is followed, after whitespace, by `:`.
pub open spec fn prop_scan_from(s: Seq<char>, needle: Seq<char>, pos: int) -> bool
    decreases s.len() - pos,
{
    if needle.len() == 0 || pos < 0 {
        false
    } else {
        match occ_from(s, needle, pos) {
            None => false,
            Some(i) => {
                proof {
                    lemma_occ_from(s, needle, pos);
                }
                next_non_ws(s.skip(i + needle.len())) == Some(':') || prop_scan_from(
                    s,
                    needle,
                    i + needle.len(),
                )
            },
        }
    }
}

/// The property, quoted with `"` or with `'`,
/// occurs as an object key (followed by `:`).
pub open spec fn has_property_name(text: Seq<char>, property: Seq<char>) -> bool {
    prop_scan_from(text, seq!['"'] + property + seq!['"'], 0) || prop_scan_from(
        text,
        seq!['\''] + property + seq!['\''],
        0,
    )
}

fn prop_scan(s: &[char], needle: &[char]) -> (r: bool)
    requires
        needle@.len() > 0,
    ensures
        r == prop_scan_from(s@, needle@, 0),
{
    let sn = s.len();
    let mut pos: usize = 0;
    loop
        invariant
            sn == s@.len(),
            pos <= s@.len(),
            needle@.len() > 0,
            prop_scan_from(s@, needle@, 0) == prop_scan_from(s@, needle@, pos as int),
        decreases s@.len() - pos,
    {
        proof {
            lemma_occ_from(s@, needle@, pos as int);
        }
        match find_occ_from(s, needle, pos) {
            None => {
                return false;
            },
            Some(i) => {
                assert(i + needle@.len() <= sn);
                let end = i + needle.len();
                if next_non_ws_from(s, end) == Some(':') {
                    return true;
                }
                pos = end;
            },
        }
    }
}

fn quoted(property: &[char], q: char) -> (out: Vec<char>)
    ensures
        out@ == seq![q] + property@ + seq![q],
{
    let mut out: Vec<char> = vec![q];
    append_chars(&mut out, property);
    out.push(q);
    assert(out@ =~= seq![q] + property@ + seq![q]);
    out
}

/// Whether a text holds the property name quoted with `"` or `'`, as a whole word.
pub fn contains_property_name(text: &str, property: &str) -> (r: bool)
    ensures
        r == has_property_name(text@, property@),
{
    let t = chars_of(text);
    let p = chars_of(property);
    let dq = quoted(p.as_slice(), '"');
    if prop_scan(t.as_slice(), dq.as_slice()) {
        return true;
    }
    let sq = quoted(p.as_slice(), '\'');
    prop_scan(t.as_slice(), sq.as_slice())
}

/// Scanning occurrences of `needle` left to right without overlap, from
/// `pos`: some occurrence has no word character directly before or after it.
pub open spec fn word_scan_from(s: Seq<char>, needle: Seq<char>, pos: int) -> bool
    decreases s.len() - pos,
{
    if needle.len() == 0 || pos < 0 {
        false
    } else {
        match occ_from(s, needle, pos) {
            None => false,
            Some(start) => {
                proof {
                    lemma_occ_from(s, needle, pos);
                }
                let end = start + needle.len();
                let previous = if start > 0 {
                    Some(s[start - 1])
                } else {
                    None
                };
                let next = if end < s.len() {
                    Some(s[end])
                } else {
                    None
                };
                (!word_char(previous) && !word_char(next)) || word_scan_from(s, needle, end)
            },
        }
    }
}

/// The needle occurs as a whole word.  The needle is not
/// empty (with an empty needle the search would not advance).
pub fn contains_word(text: &str, needle: &str) -> (r: bool)
    requires
        needle@.len() > 0,
    ensures
        r == word_scan_from(text@, needle@, 0),
{
    let s = chars_of(text);
    let n = chars_of(needle);
    let sn = s.len();
    let mut pos: usize = 0;
    loop
        invariant
            sn == s@.len(),
            pos <= s@.len(),
            s@ == text@,
            n@ == needle@,
            needle@.len() > 0,
            word_scan_from(s@, n@, 0) == word_scan_from(s@, n@, pos as int),
        decreases s@.len() - pos,
    {
        proof {
            lemma_occ_from(s@, n@, pos as int);
        }
        match find_occ_from(s.as_slice(), n.as_slice(), pos) {
            None => {
                return false;
            },
            Some(start) => {
                assert(start + n@.len() <= sn);
                let end = start + n.len();
                let previous = if start > 0 {
                    Some(s[start - 1])
                } else {
                    None
                };
                let next = if end < s.len() {
                    Some(s[end])
                } else {
                    None
                };
                if !is_word_char(previous) && !is_word_char(next) {
                    return true;
                }
                pos = end;
            },
        }
    }
}

/// The ESLint rules that format code.
pub open spec fn formatting_rules() -> Seq<Seq<char>> {
    seq![
        "array-bracket-spacing"@,
        "comma-dangle"@,
        "indent"@,
        "max-len"@,
        "object-curly-spacing"@,
        "quotes"@,
        "semi"@,
    ]
}

/// What a directory's ESLint and Prettier sources say about each other.
#[derive(PartialEq, Eq, Structural, Clone, Copy, Debug)]
pub enum EslintPrettierRelation {
    /// Formatting rules without a Prettier bridge.
    FormattingConflict,
    /// Both tools configured, no bridge, no formatting rules.
    Separate,
}

/// The relation of ESLint and Prettier in one directory: nothing unless
/// both have sources; with no word `prettier` in the ESLint sources, a
/// conflict when a formatting rule is configured, otherwise separate.
pub open spec fn eslint_prettier_spec(
    eslint_sources: Seq<Seq<char>>,
    has_prettier_source: bool,
) -> Option<EslintPrettierRelation> {
    if eslint_sources.len() == 0 || !has_prettier_source {
        None
    } else {
        let text = join_with(eslint_sources, seq!['\n']);
        let formatting = exists|k: int|
            0 <= k < formatting_rules().len() && #[trigger] has_property_name(text, formatting_rules()[k]);
        let integration = word_scan_from(text, "prettier"@, 0);
        if formatting && !integration {
            Some(EslintPrettierRelation::FormattingConflict)
        } else if !integration {
            Some(EslintPrettierRelation::Separate)
        } else {
            None
        }
    }
}

/// The decision of the ESLint/Prettier check for one directory.
pub fn eslint_prettier_relation(eslint_sources: &Vec<String>, prettier_sources: &Vec<String>) -> (r: Option<
    EslintPrettierRelation,
>)
    ensures
        r == eslint_prettier_spec(
            eslint_sources@.map_values(|s: String| s@),
            prettier_sources@.len() > 0,
        ),
{
    if eslint_sources.len() == 0 || prettier_sources.len() == 0 {
        return None;
    }
    let mut parts: Vec<Vec<char>> = Vec::new();
    let mut i: usize = 0;
    while i < eslint_sources.len()
        invariant
            i <= eslint_sources@.len(),
            parts@.len() == i,
            forall|k: int| 0 <= k < i ==> #[trigger] parts@[k]@ == eslint_sources@[k]@,
        decreases eslint_sources@.len() - i,
    {
        parts.push(chars_of(eslint_sources[i].as_str()));
        i += 1;
    }
    assert(parts@.map_values(|x: Vec<char>| x@) =~= eslint_sources@.map_values(|s: String| s@));
    let joined = crate::text::join_chars(&parts, "\n");
    proof {
        crate::text::lemma_newline_literal();
    }
    let text = crate::text::string_from(joined.as_slice());
    let rules: [&str; 7] = [
        "array-bracket-spacing",
        "comma-dangle",
        "indent",
        "max-len",
        "object-curly-spacing",
        "quotes",
        "semi",
    ];
    let mut formatting = false;
    let mut j: usize = 0;
    while j < 7
        invariant
            j <= 7,
            forall|k: int| 0 <= k < 7 ==> #[trigger] rules@[k]@ == formatting_rules()[k],
            formatting == exists|k: int|
                0 <= k < j && #[trigger] has_property_name(text@, formatting_rules()[k]),
        decreases 7 - j,
    {
        if contains_property_name(text.as_str(), rules[j]) {
            formatting = true;
        }
        j += 1;
    }
    proof {
        reveal_strlit("prettier");
    }
    let integration = contains_word(text.as_str(), "prettier");
    if formatting && !integration {
        Some(EslintPrettierRelation::FormattingConflict)
    } else if !integration {
        Some(EslintPrettierRelation::Separate)
    } else {
        None
    }
}


/// The finding of a directory's relation: it points at the first ESLint
/// file, or else at `package.json`.
pub open spec fn relation_finding(
    dir: Seq<char>,
    relation: EslintPrettierRelation,
    file: Option<Seq<char>>,
) -> (Seq<char>, Seq<char>, Seq<char>, Seq<char>, Severity, Option<Seq<char>>) {
    match relation {
        EslintPrettierRelation::FormattingConflict => (
            "eslint-prettier-conflict:"@ + dir,
            "ESLint formatting rules may conflict with Prettier"@,
            "Formatting-oriented ESLint rules were found, but no explicit Prettier bridge was detected."@,
            "Consider eslint-config-prettier or plugin:prettier/recommended to reduce formatter churn."@,
            Severity::Warn,
            file,
        ),
        EslintPrettierRelation::Separate => (
            "eslint-prettier-separate:"@ + dir,
            "ESLint and Prettier are configured separately"@,
            "That can be fine, but teams often prefer an explicit integration strategy."@,
            "Document which tool owns formatting and which tool owns code-quality rules."@,
            Severity::Info,
            file,
        ),
    }
}

fn text_of(s: &str) -> (r: String)
    ensures
        r@ == s@,
{
    string_from(chars_of(s).as_slice())
}

/// The finding of the ESLint/Prettier check for one directory, from the
/// texts of its ESLint and Prettier sources (files, then the truthy
/// `package.json` fields), the path of its first ESLint file and that of
/// its `package.json`.
pub fn eslint_prettier_finding(
    directory: &str,
    eslint_sources: &Vec<String>,
    prettier_sources: &Vec<String>,
    first_eslint_file: Option<&String>,
    package_file: Option<&String>,
) -> (r: Option<ConfigFinding>)
    ensures
        match (r, eslint_prettier_spec(eslint_sources@.map_values(|s: String| s@), prettier_sources@.len() > 0)) {
            (None, None) => true,
            (Some(f), Some(rel)) => config_view(f) == relation_finding(
                directory@,
                rel,
                match first_eslint_file {
                    Some(p) => Some(p@),
                    None => match package_file {
                        Some(p) => Some(p@),
                        None => None,
                    },
                },
            ),
            _ => false,
        },
{
    let relation = match eslint_prettier_relation(eslint_sources, prettier_sources) {
        Some(rel) => rel,
        None => {
            return None;
        },
    };
    let file = match first_eslint_file {
        Some(p) => Some(text_of(p.as_str())),
        None => match package_file {
            Some(p) => Some(text_of(p.as_str())),
            None => None,
        },
    };
    let mut id: Vec<char> = Vec::new();
    match relation {
        EslintPrettierRelation::FormattingConflict => {
            append_str(&mut id, "eslint-prettier-conflict:");
            append_str(&mut id, directory);
            Some(
                ConfigFinding {
                    id: string_from(id.as_slice()),
                    title: text_of("ESLint formatting rules may conflict with Prettier"),
                    detail: text_of(
                        "Formatting-oriented ESLint rules were found, but no explicit Prettier bridge was detected.",
                    ),
                    hint: text_of(
                        "Consider eslint-config-prettier or plugin:prettier/recommended to reduce formatter churn.",
                    ),
                    severity: Severity::Warn,
                    file,
                },
            )
        },
        EslintPrettierRelation::Separate => {
            append_str(&mut id, "eslint-prettier-separate:");
            append_str(&mut id, directory);
            Some(
                ConfigFinding {
                    id: string_from(id.as_slice()),
                    title: text_of("ESLint and Prettier are configured separately"),
                    detail: text_of(
                        "That can be fine, but teams often prefer an explicit integration strategy.",
                    ),
                    hint: text_of(
                        "Document which tool owns formatting and which tool owns code-quality rules.",
                    ),
                    severity: Severity::Info,
                    file,
                },
            )
        },
    }
}

} // verus!
