//! Validation of `package.json` entrypoint targets (`main`, `module`, `types`,
//! `bin`, `exports`, `imports`): which strings are acceptable targets and
//! keys, what a target's decoded path segments may hold, and how wildcard
//! subpath patterns match candidate files.
use vstd::prelude::*;
use vstd::utf8::encode_utf8;
use crate::text::{
    ascii_lowercase, chars_eq_str, chars_of, contains_char, first_index, index_of_from,
    is_ascii_alnum, lower_seq, replace_char, replace_char_chars, slice_chars, split_char,
    split_char_chars, starts_with, starts_with_str, string_from, trim_start_pat,
    trim_start_pat_str, ends_with, ends_with_str, append_chars, append_str, join_chars,
    join_with,
};
use crate::registry::Severity;
use crate::json::JsonValue;
use crate::paths::{path_to_slash_string, slash_text};
use crate::text::string_views;

verus! {

// ---------------------------------------------------------------------
// Percent decoding
// ---------------------------------------------------------------------

/// The value of an ASCII hexadecimal digit.
pub open spec fn hex_digit(b: u8) -> Option<u8> {
    if 48 <= b <= 57 {
        Some((b - 48) as u8)
    } else if 97 <= b <= 102 {
        Some((b - 87) as u8)
    } else if 65 <= b <= 70 {
        Some((b - 55) as u8)
    } else {
        None
    }
}

/// The value of a hexadecimal digit byte.
pub fn hex_value(byte: u8) -> (r: Option<u8>)
    ensures
        r == hex_digit(byte),
{
    if 48 <= byte && byte <= 57 {
        Some(byte - 48)
    } else if 97 <= byte && byte <= 102 {
        Some(byte - 87)
    } else if 65 <= byte && byte <= 70 {
        Some(byte - 55)
    } else {
        None
    }
}

/// Whether a `%XX` escape with two hexadecimal digits starts at `i`.
pub open spec fn escape_at(b: Seq<u8>, i: int) -> bool {
    0 <= i && i + 2 < b.len() && b[i] == 37 && hex_digit(b[i + 1]) is Some && hex_digit(
        b[i + 2],
    ) is Some
}

/// The decoded code point of the escape at `i`.
pub open spec fn escape_value(b: Seq<u8>, i: int) -> u8 {
    (hex_digit(b[i + 1]).unwrap() * 16 + hex_digit(b[i + 2]).unwrap()) as u8
}

/// Percent decoding of the bytes from `i` on: every byte, and every decoded
/// escape, becomes the character with that code point.
pub open spec fn decode_from(b: Seq<u8>, i: int) -> Seq<char>
    decreases b.len() - i,
{
    if i < 0 || i >= b.len() {
        seq![]
    } else if escape_at(b, i) {
        seq![escape_value(b, i) as char] + decode_from(b, i + 3)
    } else {
        seq![b[i] as char] + decode_from(b, i + 1)
    }
}

/// The percent-decoded form of a byte string.
pub open spec fn percent_decoded(b: Seq<u8>) -> Seq<char> {
    decode_from(b, 0)
}

/// Decodes `%XX` escapes over the UTF-8
/// bytes of the input, turning each byte into the character of that code
/// point.
pub fn percent_decode_path_like_node(input: &str) -> (out: String)
    ensures
        out@ == percent_decoded(encode_utf8(input@)),
{
    let bytes = input.as_bytes();
    let n = bytes.len();
    let mut output = String::new();
    let mut index: usize = 0;
    while index < n
        invariant
            n == bytes@.len(),
            bytes@ == encode_utf8(input@),
            index <= n,
            output@ + decode_from(bytes@, index as int) == decode_from(bytes@, 0),
        decreases n - index,
    {
        if bytes[index] == 37 && n - index > 2 {
            let hi = hex_value(bytes[index + 1]);
            let lo = hex_value(bytes[index + 2]);
            if let (Some(h), Some(l)) = (hi, lo) {
                let v: u8 = h * 16 + l;
                let c: char = v as char;
                proof {
                    assert(escape_at(bytes@, index as int));
                    assert(c == escape_value(bytes@, index as int) as char);
                    assert(output@.push(c) + decode_from(bytes@, index + 3) =~= output@ + (seq![c]
                        + decode_from(bytes@, index + 3)));
                }
                output.push(c);
                index += 3;
                continue;
            }
        }
        let c: char = bytes[index] as char;
        proof {
            assert(!escape_at(bytes@, index as int));
            assert(output@.push(c) + decode_from(bytes@, index + 1) =~= output@ + (seq![c]
                + decode_from(bytes@, index + 1)));
        }
        output.push(c);
        index += 1;
    }
    assert(output@ =~= output@ + decode_from(bytes@, index as int));
    output
}

// ---------------------------------------------------------------------
// Path segments
// ---------------------------------------------------------------------

/// A path segment that a package target or key may not hold: empty, `.`,
/// `..` or `node_modules`.
pub open spec fn is_bad_segment(s: Seq<char>) -> bool {
    ||| s.len() == 0
    ||| s =~= seq!['.']
    ||| s =~= seq!['.', '.']
    ||| s =~= seq!['n', 'o', 'd', 'e', '_', 'm', 'o', 'd', 'u', 'l', 'e', 's']
}

/// Some piece of the list is a bad segment.
pub open spec fn some_bad_segment(segs: Seq<Seq<char>>) -> bool {
    exists|k: int| 0 <= k < segs.len() && #[trigger] is_bad_segment(segs[k])
}

/// The decoded, slash-normalised path of a target remainder holds a bad
/// segment.
pub open spec fn decoded_path_invalid(remainder: Seq<char>) -> bool {
    some_bad_segment(
        split_char(replace_char(percent_decoded(encode_utf8(remainder)), '\\', '/'), '/'),
    )
}

pub fn is_bad_segment_chars(s: &[char]) -> (r: bool)
    ensures
        r == is_bad_segment(s@),
{
    proof {
        reveal_strlit(".");
        reveal_strlit("..");
        reveal_strlit("node_modules");
        assert("."@ =~= seq!['.']);
        assert(".."@ =~= seq!['.', '.']);
        assert("node_modules"@ =~= seq!['n', 'o', 'd', 'e', '_', 'm', 'o', 'd', 'u', 'l', 'e', 's']);
    }
    s.len() == 0 || chars_eq_str(s, ".") || chars_eq_str(s, "..") || chars_eq_str(
        s,
        "node_modules",
    )
}

pub fn some_bad_segment_vec(segs: &Vec<Vec<char>>) -> (r: bool)
    ensures
        r == some_bad_segment(segs@.map_values(|x: Vec<char>| x@)),
{
    let ghost views = segs@.map_values(|x: Vec<char>| x@);
    let mut i: usize = 0;
    while i < segs.len()
        invariant
            i <= segs@.len(),
            views == segs@.map_values(|x: Vec<char>| x@),
            forall|k: int| 0 <= k < i ==> !is_bad_segment(#[trigger] views[k]),
        decreases segs@.len() - i,
    {
        if is_bad_segment_chars(segs[i].as_slice()) {
            assert(is_bad_segment(views[i as int]));
            return true;
        }
        i += 1;
    }
    false
}

/// Whether a target, after percent-decoding, has an empty, `.`, `..` or `node_modules` segment.
pub fn has_invalid_package_path_segment(remainder: &str) -> (r: bool)
    ensures
        r == decoded_path_invalid(remainder@),
{
    let decoded = percent_decode_path_like_node(remainder);
    let chars = chars_of(decoded.as_str());
    let normalized = replace_char_chars(chars.as_slice(), '\\', '/');
    let segs = split_char_chars(normalized.as_slice(), '/');
    let ghost expected = split_char(
        replace_char(percent_decoded(encode_utf8(remainder@)), '\\', '/'),
        '/',
    );
    assert(segs@.map_values(|x: Vec<char>| x@) =~= expected);
    some_bad_segment_vec(&segs)
}

/// The same rule, applied to the part of
/// an `exports` or `imports` key after its prefix.
pub fn has_invalid_package_key_segment(remainder: &str) -> (r: bool)
    ensures
        r == decoded_path_invalid(remainder@),
{
    has_invalid_package_path_segment(remainder)
}


/// The remainder check on a character buffer.
fn path_invalid_chars(remainder: &[char]) -> (r: bool)
    ensures
        r == decoded_path_invalid(remainder@),
{
    let s = string_from(remainder);
    has_invalid_package_path_segment(s.as_str())
}

// ---------------------------------------------------------------------
// Target shapes
// ---------------------------------------------------------------------

/// Backslashes read as forward slashes.
pub open spec fn slashed(t: Seq<char>) -> Seq<char> {
    replace_char(t, '\\', '/')
}

pub open spec fn is_ascii_alpha(c: char) -> bool {
    ('a' <= c && c <= 'z') || ('A' <= c && c <= 'Z')
}

/// A character allowed in a URL scheme.
pub open spec fn scheme_char(c: char) -> bool {
    is_ascii_alnum(c) || c == '+' || c == '-' || c == '.'
}

/// The lowercase schemes that make a target URL-like.
pub open spec fn is_known_scheme(s: Seq<char>) -> bool {
    ||| s == "blob"@
    ||| s == "data"@
    ||| s == "file"@
    ||| s == "ftp"@
    ||| s == "ftps"@
    ||| s == "http"@
    ||| s == "https"@
    ||| s == "javascript"@
    ||| s == "mailto"@
    ||| s == "node"@
    ||| s == "ws"@
    ||| s == "wss"@
}

/// The target starts with a known scheme followed by `:`.
pub open spec fn url_like_scheme(t: Seq<char>) -> bool {
    let i = first_index(t, ':');
    &&& 0 < i < t.len()
    &&& forall|k: int| 0 <= k < i ==> #[trigger] scheme_char(t[k])
    &&& is_known_scheme(lower_seq(t.take(i)))
}

fn is_known_scheme_chars(s: &[char]) -> (r: bool)
    ensures
        r == is_known_scheme(s@),
{
    chars_eq_str(s, "blob") || chars_eq_str(s, "data") || chars_eq_str(s, "file")
        || chars_eq_str(s, "ftp") || chars_eq_str(s, "ftps") || chars_eq_str(s, "http")
        || chars_eq_str(s, "https") || chars_eq_str(s, "javascript") || chars_eq_str(s, "mailto")
        || chars_eq_str(s, "node") || chars_eq_str(s, "ws") || chars_eq_str(s, "wss")
}

fn has_url_like_scheme_chars(t: &[char]) -> (r: bool)
    ensures
        r == url_like_scheme(t@),
{
    let i = index_of_from(t, ':', 0);
    assert(t@.skip(0) =~= t@);
    proof {
        crate::text::lemma_first_index(t@, ':');
    }
    if i == t.len() || i == 0 {
        return false;
    }
    let mut k: usize = 0;
    while k < i
        invariant
            i < t@.len(),
            i == first_index(t@, ':'),
            k <= i,
            forall|j: int| 0 <= j < k ==> #[trigger] scheme_char(t@[j]),
        decreases i - k,
    {
        let c = t[k];
        if !(crate::text::is_ascii_alphanumeric(c) || c == '+' || c == '-' || c == '.') {
            assert(!scheme_char(t@[k as int]));
            return false;
        }
        k += 1;
    }
    let scheme = slice_chars(t, 0, i);
    assert(scheme@ =~= t@.take(i as int));
    let lowered = ascii_lowercase(scheme.as_slice());
    is_known_scheme_chars(lowered.as_slice())
}

/// The part before the first `:` is a non-empty run
/// of scheme characters naming one of the known schemes, in any case.
pub fn has_url_like_scheme(target: &str) -> (r: bool)
    ensures
        r == url_like_scheme(target@),
{
    let t = chars_of(target);
    has_url_like_scheme_chars(t.as_slice())
}

/// A Unix root path, a backslash path, or a drive letter path such as `C:/`.
pub open spec fn absolute_like(t: Seq<char>) -> bool {
    ||| t.len() > 0 && (t[0] == '/' || t[0] == '\\')
    ||| t.len() >= 3 && t[1] == ':' && is_ascii_alpha(t[0]) && (t[2] == '/' || t[2] == '\\')
}

fn is_absolute_like_chars(t: &[char]) -> (r: bool)
    ensures
        r == absolute_like(t@),
{
    if t.len() > 0 && (t[0] == '/' || t[0] == '\\') {
        return true;
    }
    t.len() >= 3 && t[1] == ':' && (('a' <= t[0] && t[0] <= 'z') || ('A' <= t[0] && t[0] <= 'Z'))
        && (t[2] == '/' || t[2] == '\\')
}

/// Whether a target looks absolute: a root path, a backslash path or a drive letter path.
pub fn is_absolute_like_target(target: &str) -> (r: bool)
    ensures
        r == absolute_like(target@),
{
    let t = chars_of(target);
    is_absolute_like_chars(t.as_slice())
}

/// Neither empty, URL-like nor a `#` reference.
pub open spec fn plain_local_candidate(t: Seq<char>) -> bool {
    t.len() > 0 && !url_like_scheme(t) && t[0] != '#'
}

/// Whether an `exports` target stays in the package: it starts with `./`.
pub open spec fn exports_local(t: Seq<char>) -> bool {
    plain_local_candidate(t) && starts_with(slashed(t), "./"@)
}

/// Whether an `imports` target is a package-local path: it starts with `./`.
pub open spec fn imports_local(t: Seq<char>) -> bool {
    plain_local_candidate(t) && (starts_with(slashed(t), "./"@) || starts_with(
        slashed(t),
        "../"@,
    ))
}

pub fn is_exports_local_target(target: &str) -> (r: bool)
    ensures
        r == exports_local(target@),
{
    let t = chars_of(target);
    if t.len() == 0 || has_url_like_scheme_chars(t.as_slice()) || t[0] == '#' {
        return false;
    }
    let n = replace_char_chars(t.as_slice(), '\\', '/');
    starts_with_str(n.as_slice(), "./")
}

pub fn is_imports_local_target(target: &str) -> (r: bool)
    ensures
        r == imports_local(target@),
{
    let t = chars_of(target);
    if t.len() == 0 || has_url_like_scheme_chars(t.as_slice()) || t[0] == '#' {
        return false;
    }
    let n = replace_char_chars(t.as_slice(), '\\', '/');
    starts_with_str(n.as_slice(), "./") || starts_with_str(n.as_slice(), "../")
}


// ---------------------------------------------------------------------
// Why a target is refused
// ---------------------------------------------------------------------

/// Why an `exports` target is invalid, if it is.
pub open spec fn exports_target_reason(t: Seq<char>) -> Option<&'static str> {
    let n = slashed(t);
    let rest = trim_start_pat(n, "./"@);
    if !starts_with(n, "./"@) {
        Some("exports targets must stay within the package and start with ./")
    } else if rest.len() == 0 {
        Some("exports targets must point to a file or directory under ./")
    } else if decoded_path_invalid(rest) {
        Some("exports targets cannot contain empty, ., .., or node_modules path segments")
    } else {
        None
    }
}

pub fn invalid_exports_target_reason(target: &str) -> (r: Option<&'static str>)
    ensures
        r == exports_target_reason(target@),
{
    let t = chars_of(target);
    let n = replace_char_chars(t.as_slice(), '\\', '/');
    if !starts_with_str(n.as_slice(), "./") {
        return Some("exports targets must stay within the package and start with ./");
    }
    let rest = trim_start_pat_str(n.as_slice(), "./");
    if rest.len() == 0 {
        return Some("exports targets must point to a file or directory under ./");
    }
    if path_invalid_chars(rest.as_slice()) {
        return Some("exports targets cannot contain empty, ., .., or node_modules path segments");
    }
    None
}

/// The target with one leading `./` taken off, when it has one.
pub open spec fn strip_dot_slash(n: Seq<char>) -> Seq<char> {
    if starts_with(n, "./"@) {
        n.skip(2)
    } else {
        n
    }
}

/// The rule for `main`, `module`, `types`
/// and `bin`.
pub open spec fn main_like_target_reason(t: Seq<char>) -> Option<&'static str> {
    let rest = strip_dot_slash(slashed(t));
    if t.len() == 0 {
        Some("main/module/types/bin targets must not be empty")
    } else if t.contains('*') {
        Some("main/module/types/bin targets must not use wildcard patterns")
    } else if url_like_scheme(t) {
        Some(
            "main/module/types/bin targets must be package-local paths and cannot use URL-like schemes",
        )
    } else if t[0] == '#' {
        Some(
            "main/module/types/bin targets must be package-local paths and cannot use # references",
        )
    } else if absolute_like(t) {
        Some(
            "main/module/types/bin targets must be package-local paths and cannot use absolute paths",
        )
    } else if rest.len() == 0 {
        Some("main/module/types/bin targets must point to a file or directory under ./")
    } else if decoded_path_invalid(rest) {
        Some(
            "main/module/types/bin targets must stay within the package and cannot contain empty, ., .., or node_modules path segments",
        )
    } else {
        None
    }
}

pub fn invalid_main_like_target_reason(target: &str) -> (r: Option<&'static str>)
    ensures
        r == main_like_target_reason(target@),
{
    let t = chars_of(target);
    if t.len() == 0 {
        return Some("main/module/types/bin targets must not be empty");
    }
    if contains_char(t.as_slice(), '*') {
        return Some("main/module/types/bin targets must not use wildcard patterns");
    }
    if has_url_like_scheme_chars(t.as_slice()) {
        return Some(
            "main/module/types/bin targets must be package-local paths and cannot use URL-like schemes",
        );
    }
    if t[0] == '#' {
        return Some(
            "main/module/types/bin targets must be package-local paths and cannot use # references",
        );
    }
    if is_absolute_like_chars(t.as_slice()) {
        return Some(
            "main/module/types/bin targets must be package-local paths and cannot use absolute paths",
        );
    }
    let n = replace_char_chars(t.as_slice(), '\\', '/');
    proof {
        reveal_strlit("./");
    }
    let rest = if starts_with_str(n.as_slice(), "./") {
        slice_chars(n.as_slice(), 2, n.len())
    } else {
        slice_chars(n.as_slice(), 0, n.len())
    };
    assert(rest@ =~= strip_dot_slash(n@));
    if rest.len() == 0 {
        return Some("main/module/types/bin targets must point to a file or directory under ./");
    }
    if path_invalid_chars(rest.as_slice()) {
        return Some(
            "main/module/types/bin targets must stay within the package and cannot contain empty, ., .., or node_modules path segments",
        );
    }
    None
}

/// `.` or `..`.
pub open spec fn dot_or_dotdot(s: Seq<char>) -> bool {
    s =~= seq!['.'] || s =~= seq!['.', '.']
}

/// A bare package specifier such as
/// `lodash`, `pkg/sub` or `@scope/pkg/sub`.
pub open spec fn valid_external_import(t: Seq<char>) -> bool {
    let segs = split_char(t, '/');
    &&& t.len() > 0
    &&& t[0] != '.' && t[0] != '/' && t[0] != '\\' && t[0] != '#'
    &&& !t.contains('\\') && !t.contains(':')
    &&& forall|k: int| 0 <= k < segs.len() ==> (#[trigger] segs[k]).len() > 0
    &&& if segs[0].len() > 0 && segs[0][0] == '@' {
        &&& segs[0].len() > 1
        &&& segs.len() >= 2
        &&& forall|k: int| 1 <= k < segs.len() ==> !dot_or_dotdot(#[trigger] segs[k])
    } else {
        forall|k: int| 0 <= k < segs.len() ==> !dot_or_dotdot(#[trigger] segs[k])
    }
}

fn dot_or_dotdot_chars(s: &[char]) -> (r: bool)
    ensures
        r == dot_or_dotdot(s@),
{
    proof {
        reveal_strlit(".");
        reveal_strlit("..");
        assert("."@ =~= seq!['.']);
        assert(".."@ =~= seq!['.', '.']);
    }
    chars_eq_str(s, ".") || chars_eq_str(s, "..")
}

fn valid_external_import_chars(t: &[char]) -> (r: bool)
    ensures
        r == valid_external_import(t@),
{
    if t.len() == 0 || t[0] == '.' || t[0] == '/' || t[0] == '\\' || t[0] == '#' || contains_char(
        t,
        '\\',
    ) {
        return false;
    }
    if contains_char(t, ':') {
        return false;
    }
    let segs = split_char_chars(t, '/');
    let ghost sp = split_char(t@, '/');
    assert(sp.len() >= 1) by {
        reveal_with_fuel(split_char, 2);
    }
    let mut i: usize = 0;
    while i < segs.len()
        invariant
            sp == split_char(t@, '/'),
            segs@.len() == sp.len(),
            forall|k: int| 0 <= k < segs@.len() ==> #[trigger] segs@[k]@ == sp[k],
            i <= segs@.len(),
            forall|k: int| 0 <= k < i ==> (#[trigger] sp[k]).len() > 0,
        decreases segs@.len() - i,
    {
        if segs[i].len() == 0 {
            assert(sp[i as int].len() == 0);
            return false;
        }
        i += 1;
    }
    let scoped = segs[0][0] == '@';
    let start: usize = if scoped {
        if segs[0].len() <= 1 || segs.len() < 2 {
            return false;
        }
        1
    } else {
        0
    };
    let mut j: usize = start;
    while j < segs.len()
        invariant
            sp == split_char(t@, '/'),
            segs@.len() == sp.len(),
            forall|k: int| 0 <= k < segs@.len() ==> #[trigger] segs@[k]@ == sp[k],
            start <= j <= segs@.len(),
            forall|k: int| start <= k < j ==> !dot_or_dotdot(#[trigger] sp[k]),
        decreases segs@.len() - j,
    {
        if dot_or_dotdot_chars(segs[j].as_slice()) {
            assert(dot_or_dotdot(sp[j as int]));
            return false;
        }
        j += 1;
    }
    true
}

pub fn is_valid_external_import_target(target: &str) -> (r: bool)
    ensures
        r == valid_external_import(target@),
{
    let t = chars_of(target);
    valid_external_import_chars(t.as_slice())
}

/// Why an `imports` target is invalid, if it is.
pub open spec fn imports_target_reason(t: Seq<char>) -> Option<&'static str> {
    let n = slashed(t);
    let rest = trim_start_pat(n, "./"@);
    if t.len() == 0 {
        Some("imports targets must not be empty")
    } else if absolute_like(t) || starts_with(n, "../"@) || starts_with(n, "/"@) {
        Some("imports local targets must stay within the package and start with ./")
    } else if !starts_with(n, "./"@) {
        if valid_external_import(t) {
            None
        } else {
            Some(
                "imports targets must be package-local paths under ./ or valid external package specifiers",
            )
        }
    } else if rest.len() == 0 {
        Some("imports local targets must point to a file or directory under ./")
    } else if decoded_path_invalid(rest) {
        Some("imports local targets cannot contain empty, ., .., or node_modules path segments")
    } else {
        None
    }
}

pub fn invalid_imports_target_reason(target: &str) -> (r: Option<&'static str>)
    ensures
        r == imports_target_reason(target@),
{
    let t = chars_of(target);
    if t.len() == 0 {
        return Some("imports targets must not be empty");
    }
    if is_absolute_like_chars(t.as_slice()) {
        return Some("imports local targets must stay within the package and start with ./");
    }
    let n = replace_char_chars(t.as_slice(), '\\', '/');
    if starts_with_str(n.as_slice(), "../") || starts_with_str(n.as_slice(), "/") {
        return Some("imports local targets must stay within the package and start with ./");
    }
    if !starts_with_str(n.as_slice(), "./") {
        if valid_external_import_chars(t.as_slice()) {
            return None;
        }
        return Some(
            "imports targets must be package-local paths under ./ or valid external package specifiers",
        );
    }
    let rest = trim_start_pat_str(n.as_slice(), "./");
    if rest.len() == 0 {
        return Some("imports local targets must point to a file or directory under ./");
    }
    if path_invalid_chars(rest.as_slice()) {
        return Some(
            "imports local targets cannot contain empty, ., .., or node_modules path segments",
        );
    }
    None
}


// ---------------------------------------------------------------------
// Keys of `exports` and `imports` objects
// ---------------------------------------------------------------------

/// Why an `imports` key is invalid, if it is.
pub open spec fn imports_key_reason(k: Seq<char>) -> Option<&'static str> {
    if k == "#"@ {
        Some("imports keys must include a name after the # prefix")
    } else if starts_with(k, "#/"@) {
        if k.len() == 2 {
            Some("imports keys must include a name after the #/ prefix")
        } else if decoded_path_invalid(k.skip(2)) {
            Some("imports keys must not contain empty, ., .., or node_modules path segments")
        } else {
            None
        }
    } else if starts_with(k, "#"@) {
        if k.len() == 1 {
            Some("imports keys must include a name after the # prefix")
        } else if decoded_path_invalid(k.skip(1)) {
            Some("imports keys must not contain empty, ., .., or node_modules path segments")
        } else {
            None
        }
    } else {
        Some("imports keys must start with #")
    }
}

pub fn invalid_imports_key_reason(key: &str) -> (r: Option<&'static str>)
    ensures
        r == imports_key_reason(key@),
{
    proof {
        reveal_strlit("#/");
        reveal_strlit("#");
    }
    let k = chars_of(key);
    if chars_eq_str(k.as_slice(), "#") {
        Some("imports keys must include a name after the # prefix")
    } else if starts_with_str(k.as_slice(), "#/") {
        let rest = slice_chars(k.as_slice(), 2, k.len());
        if rest.len() == 0 {
            Some("imports keys must include a name after the #/ prefix")
        } else if path_invalid_chars(rest.as_slice()) {
            Some("imports keys must not contain empty, ., .., or node_modules path segments")
        } else {
            None
        }
    } else if starts_with_str(k.as_slice(), "#") {
        let rest = slice_chars(k.as_slice(), 1, k.len());
        if rest.len() == 0 {
            Some("imports keys must include a name after the # prefix")
        } else if path_invalid_chars(rest.as_slice()) {
            Some("imports keys must not contain empty, ., .., or node_modules path segments")
        } else {
            None
        }
    } else {
        Some("imports keys must start with #")
    }
}

/// Why an `exports` key is invalid, if it is.
pub open spec fn exports_key_reason(k: Seq<char>) -> Option<&'static str> {
    if starts_with(k, "#"@) {
        Some("exports keys must not start with #")
    } else if k == "."@ {
        None
    } else if starts_with(k, "./"@) && (k.len() == 2 || decoded_path_invalid(k.skip(2))) {
        Some("exports subpath keys must not contain empty, ., .., or node_modules path segments")
    } else {
        None
    }
}

pub fn invalid_exports_key_reason(key: &str) -> (r: Option<&'static str>)
    ensures
        r == exports_key_reason(key@),
{
    proof {
        reveal_strlit("./");
    }
    let k = chars_of(key);
    if starts_with_str(k.as_slice(), "#") {
        return Some("exports keys must not start with #");
    }
    if chars_eq_str(k.as_slice(), ".") {
        return None;
    }
    if starts_with_str(k.as_slice(), "./") {
        let rest = slice_chars(k.as_slice(), 2, k.len());
        if rest.len() == 0 || path_invalid_chars(rest.as_slice()) {
            return Some(
                "exports subpath keys must not contain empty, ., .., or node_modules path segments",
            );
        }
    }
    None
}

/// The hint for an invalid `exports` key.
pub open spec fn exports_key_hint_spec(k: Seq<char>) -> &'static str {
    if starts_with(k, "#"@) {
        "Rename the exports entry to . or ./subpath, or use a condition key without a # prefix."
    } else {
        "Rename the exports entry to . or a ./subpath that stays within the package."
    }
}

pub fn exports_key_hint(key: &str) -> (r: &'static str)
    ensures
        r == exports_key_hint_spec(key@),
{
    let k = chars_of(key);
    if starts_with_str(k.as_slice(), "#") {
        "Rename the exports entry to . or ./subpath, or use a condition key without a # prefix."
    } else {
        "Rename the exports entry to . or a ./subpath that stays within the package."
    }
}

/// Some key starts with `.` and
/// some key does not.
pub open spec fn mixes_subpaths_and_conditions(keys: Seq<String>) -> bool {
    &&& exists|k: int| 0 <= k < keys.len() && starts_with(#[trigger] keys[k]@, "."@)
    &&& exists|k: int| 0 <= k < keys.len() && !starts_with(#[trigger] keys[k]@, "."@)
}

fn string_starts_with(s: &String, p: &str) -> (r: bool)
    ensures
        r == starts_with(s@, p@),
{
    let c = chars_of(s.as_str());
    starts_with_str(c.as_slice(), p)
}

pub fn mixes_exports_subpaths_and_conditions(keys: &[String]) -> (r: bool)
    ensures
        r == mixes_subpaths_and_conditions(keys@),
{
    let mut has_subpath = false;
    let mut has_condition = false;
    let mut i: usize = 0;
    while i < keys.len()
        invariant
            i <= keys@.len(),
            has_subpath == exists|k: int| 0 <= k < i && starts_with(#[trigger] keys@[k]@, "."@),
            has_condition == exists|k: int| 0 <= k < i && !starts_with(#[trigger] keys@[k]@, "."@),
        decreases keys@.len() - i,
    {
        if string_starts_with(&keys[i], ".") {
            has_subpath = true;
        } else {
            has_condition = true;
        }
        i += 1;
    }
    has_subpath && has_condition
}

// ---------------------------------------------------------------------
// Field paths
// ---------------------------------------------------------------------

/// The field path starts at the named `package.json` field.
pub open spec fn root_is(fp: Seq<String>, name: Seq<char>) -> bool {
    fp.len() > 0 && fp[0]@ == name
}

fn string_is(s: &String, lit: &str) -> (r: bool)
    ensures
        r == (s@ == lit@),
{
    let c = chars_of(s.as_str());
    chars_eq_str(c.as_slice(), lit)
}

pub fn root_is_exec(field_path: &[String], name: &str) -> (r: bool)
    ensures
        r == root_is(field_path@, name@),
{
    field_path.len() > 0 && string_is(&field_path[0], name)
}

/// Whether a top-level field holds a single entry file (`main`, `module`, `types`, `bin`).
pub open spec fn main_like_field(f: Seq<char>) -> bool {
    f == "main"@ || f == "module"@ || f == "types"@ || f == "bin"@
}

pub fn is_main_like_field(field: &str) -> (r: bool)
    ensures
        r == main_like_field(field@),
{
    let f = chars_of(field);
    chars_eq_str(f.as_slice(), "main") || chars_eq_str(f.as_slice(), "module") || chars_eq_str(
        f.as_slice(),
        "types",
    ) || chars_eq_str(f.as_slice(), "bin")
}

/// `types`, or a `types` condition anywhere below
/// `exports` or `imports`.
pub open spec fn uses_types(fp: Seq<String>) -> bool {
    if root_is(fp, "types"@) {
        true
    } else if root_is(fp, "exports"@) || root_is(fp, "imports"@) {
        exists|k: int| 1 <= k < fp.len() && #[trigger] fp[k]@ == "types"@
    } else {
        false
    }
}

pub fn uses_types_extensions(field_path: &[String]) -> (r: bool)
    ensures
        r == uses_types(field_path@),
{
    if root_is_exec(field_path, "types") {
        return true;
    }
    if !(root_is_exec(field_path, "exports") || root_is_exec(field_path, "imports")) {
        return false;
    }
    let mut i: usize = 1;
    while i < field_path.len()
        invariant
            1 <= i <= field_path@.len(),
            !root_is(field_path@, "types"@),
            root_is(field_path@, "exports"@) || root_is(field_path@, "imports"@),
            forall|k: int| 1 <= k < i ==> #[trigger] field_path@[k]@ != "types"@,
        decreases field_path@.len() - i,
    {
        if string_is(&field_path[i], "types") {
            assert(field_path@[i as int]@ == "types"@);
            return true;
        }
        i += 1;
    }
    false
}

/// Type declaration targets warn, the others are
/// errors.
pub fn severity_for_field_path(field_path: &[String]) -> (r: Severity)
    ensures
        r == (if uses_types(field_path@) {
            Severity::Warn
        } else {
            Severity::Error
        }),
{
    if uses_types_extensions(field_path) {
        Severity::Warn
    } else {
        Severity::Error
    }
}

/// The extensions that a declaration file name ends with.
pub open spec fn is_declaration_file(path: Seq<char>) -> bool {
    ends_with(path, ".d.cts"@) || ends_with(path, ".d.mts"@) || ends_with(path, ".d.ts"@)
}

/// Declaration files for `types`
/// targets, other files for the rest.
pub fn exact_file_matches_field_path(field_path: &[String], path: &str) -> (r: bool)
    ensures
        r == (uses_types(field_path@) == is_declaration_file(path@)),
{
    let p = chars_of(path);
    let decl = ends_with_str(p.as_slice(), ".d.cts") || ends_with_str(p.as_slice(), ".d.mts")
        || ends_with_str(p.as_slice(), ".d.ts");
    if uses_types_extensions(field_path) {
        decl
    } else {
        !decl
    }
}

/// Where `null` and array values are allowed: only below `exports`
/// and `imports`.
pub open spec fn under_exports_or_imports(fp: Seq<String>) -> bool {
    root_is(fp, "exports"@) || root_is(fp, "imports"@)
}

pub fn allows_null_target(field_path: &[String]) -> (r: bool)
    ensures
        r == under_exports_or_imports(field_path@),
{
    root_is_exec(field_path, "exports") || root_is_exec(field_path, "imports")
}

pub fn allows_array_target(field_path: &[String]) -> (r: bool)
    ensures
        r == under_exports_or_imports(field_path@),
{
    root_is_exec(field_path, "exports") || root_is_exec(field_path, "imports")
}

/// Objects below `exports` and `imports`, and a
/// top-level `bin` map.
pub open spec fn object_target_allowed(fp: Seq<String>) -> bool {
    under_exports_or_imports(fp) || (root_is(fp, "bin"@) && fp.len() == 1)
}

pub fn allows_object_target(field_path: &[String]) -> (r: bool)
    ensures
        r == object_target_allowed(field_path@),
{
    if root_is_exec(field_path, "exports") || root_is_exec(field_path, "imports") {
        true
    } else if root_is_exec(field_path, "bin") {
        field_path.len() == 1
    } else {
        false
    }
}

/// Every field but `bin`.
pub fn allows_directory_target_resolution(field_path: &[String]) -> (r: bool)
    ensures
        r == (field_path@.len() > 0 && !root_is(field_path@, "bin"@)),
{
    field_path.len() > 0 && !root_is_exec(field_path, "bin")
}

/// `main`, `module` and `types`.
pub open spec fn index_fallback_allowed(fp: Seq<String>) -> bool {
    root_is(fp, "main"@) || root_is(fp, "module"@) || root_is(fp, "types"@)
}

pub fn allows_index_directory_fallback(field_path: &[String]) -> (r: bool)
    ensures
        r == index_fallback_allowed(field_path@),
{
    root_is_exec(field_path, "main") || root_is_exec(field_path, "module") || root_is_exec(
        field_path,
        "types",
    )
}

/// Nested objects, and top-level
/// `exports` or `imports` maps made only of conditions, report one finding.
pub open spec fn compress_object_branches(fp: Seq<String>, keys: Seq<String>) -> bool {
    if fp.len() > 1 {
        true
    } else if root_is(fp, "exports"@) {
        forall|k: int| 0 <= k < keys.len() ==> !starts_with(#[trigger] keys[k]@, "."@)
    } else if root_is(fp, "imports"@) {
        forall|k: int| 0 <= k < keys.len() ==> !starts_with(#[trigger] keys[k]@, "#"@)
    } else {
        false
    }
}

fn none_starts_with(keys: &[String], p: &str) -> (r: bool)
    ensures
        r == forall|k: int| 0 <= k < keys@.len() ==> !starts_with(#[trigger] keys@[k]@, p@),
{
    let mut i: usize = 0;
    while i < keys.len()
        invariant
            i <= keys@.len(),
            forall|k: int| 0 <= k < i ==> !starts_with(#[trigger] keys@[k]@, p@),
        decreases keys@.len() - i,
    {
        if string_starts_with(&keys[i], p) {
            return false;
        }
        i += 1;
    }
    true
}

pub fn should_compress_object_branches(field_path: &[String], keys: &[String]) -> (r: bool)
    ensures
        r == compress_object_branches(field_path@, keys@),
{
    if field_path.len() > 1 {
        true
    } else if root_is_exec(field_path, "exports") {
        none_starts_with(keys, ".")
    } else if root_is_exec(field_path, "imports") {
        none_starts_with(keys, "#")
    } else {
        false
    }
}


// ---------------------------------------------------------------------
// Wildcard subpath patterns
// ---------------------------------------------------------------------

/// Each `*` stands for one or more characters;
/// every other character matches itself.
pub open spec fn wildcard_match(p: Seq<char>, v: Seq<char>) -> bool
    decreases p.len() + v.len(),
{
    if p.len() == 0 {
        v.len() == 0
    } else if p[0] == '*' {
        v.len() > 0 && (wildcard_match(p.drop_first(), v.drop_first()) || wildcard_match(
            p,
            v.drop_first(),
        ))
    } else {
        v.len() > 0 && p[0] == v[0] && wildcard_match(p.drop_first(), v.drop_first())
    }
}

proof fn lemma_wildcard_step(p: Seq<char>, v: Seq<char>, i: int, j: int)
    requires
        0 <= i < p.len(),
        0 <= j <= v.len(),
    ensures
        wildcard_match(p.skip(i), v.skip(j)) == if p[i] == '*' {
            j < v.len() && (wildcard_match(p.skip(i + 1), v.skip(j + 1)) || wildcard_match(
                p.skip(i),
                v.skip(j + 1),
            ))
        } else {
            j < v.len() && p[i] == v[j] && wildcard_match(p.skip(i + 1), v.skip(j + 1))
        },
{
    assert(p.skip(i).drop_first() =~= p.skip(i + 1));
    if j < v.len() {
        assert(v.skip(j).drop_first() =~= v.skip(j + 1));
    }
}

proof fn lemma_wildcard_empty_pattern(p: Seq<char>, v: Seq<char>, j: int)
    requires
        p.len() == 0,
        0 <= j <= v.len(),
    ensures
        wildcard_match(p, v.skip(j)) == (j == v.len()),
{
}

fn wildcard_match_chars(p: &[char], v: &[char]) -> (r: bool)
    ensures
        r == wildcard_match(p@, v@),
{
    let pn = p.len();
    let vn = v.len();
    let mut next: Vec<bool> = Vec::new();
    let mut j: usize = 0;
    while j < vn
        invariant
            vn == v@.len(),
            pn == p@.len(),
            j <= vn,
            next@.len() == j,
            forall|k: int| 0 <= k < j ==> #[trigger] next@[k] == wildcard_match(
                p@.skip(pn as int),
                v@.skip(k),
            ),
        decreases vn - j,
    {
        proof {
            lemma_wildcard_empty_pattern(p@.skip(pn as int), v@, j as int);
        }
        next.push(false);
        j += 1;
    }
    proof {
        lemma_wildcard_empty_pattern(p@.skip(pn as int), v@, vn as int);
    }
    next.push(true);
    let mut i: usize = pn;
    while i > 0
        invariant
            pn == p@.len(),
            vn == v@.len(),
            i <= pn,
            next@.len() == vn + 1,
            forall|k: int| 0 <= k <= vn ==> #[trigger] next@[k] == wildcard_match(
                p@.skip(i as int),
                v@.skip(k),
            ),
        decreases i,
    {
        let pi = i - 1;
        let pc = p[pi];
        let mut cur: Vec<bool> = Vec::new();
        let mut k: usize = 0;
        while k < vn
            invariant
                vn == v@.len(),
                k <= vn,
                cur@.len() == k,
            decreases vn - k,
        {
            cur.push(false);
            k += 1;
        }
        cur.push(false);
        proof {
            lemma_wildcard_step(p@, v@, pi as int, vn as int);
        }
        let mut jj: usize = vn;
        while jj > 0
            invariant
                pn == p@.len(),
                vn == v@.len(),
                i <= pn,
                pi + 1 == i,
                pc == p@[pi as int],
                jj <= vn,
                next@.len() == vn + 1,
                cur@.len() == vn + 1,
                forall|k: int| 0 <= k <= vn ==> #[trigger] next@[k] == wildcard_match(
                    p@.skip(i as int),
                    v@.skip(k),
                ),
                forall|k: int| jj <= k <= vn ==> #[trigger] cur@[k] == wildcard_match(
                    p@.skip(pi as int),
                    v@.skip(k),
                ),
            decreases jj,
        {
            let j = jj - 1;
            proof {
                lemma_wildcard_step(p@, v@, pi as int, j as int);
            }
            let val = if pc == '*' {
                next[j + 1] || cur[j + 1]
            } else {
                pc == v[j] && next[j + 1]
            };
            cur.set(j, val);
            jj = j;
        }
        next = cur;
        i = pi;
    }
    proof {
        assert(p@.skip(0) =~= p@);
        assert(v@.skip(0) =~= v@);
    }
    next[0]
}

pub fn wildcard_pattern_matches(candidate: &str, pattern: &str) -> (r: bool)
    ensures
        r == wildcard_match(pattern@, candidate@),
{
    let c = chars_of(candidate);
    let p = chars_of(pattern);
    wildcard_match_chars(p.as_slice(), c.as_slice())
}

/// Some pattern matches the path with `/` for `\`.
pub open spec fn path_matches_some(path: Seq<char>, patterns: Seq<Seq<char>>) -> bool {
    exists|i: int| 0 <= i < patterns.len() && wildcard_match(#[trigger] patterns[i], slash_text(path))
}

pub fn matches_path(candidate_path: &str, patterns: &[String]) -> (r: bool)
    ensures
        r == path_matches_some(candidate_path@, string_views(patterns@)),
{
    let normalized = path_to_slash_string(candidate_path);
    let mut i: usize = 0;
    while i < patterns.len()
        invariant
            i <= patterns@.len(),
            normalized@ == slash_text(candidate_path@),
            forall|k: int| 0 <= k < i ==> !wildcard_match(#[trigger] string_views(patterns@)[k], normalized@),
        decreases patterns@.len() - i,
    {
        if wildcard_pattern_matches(normalized.as_str(), patterns[i].as_str()) {
            assert(wildcard_match(string_views(patterns@)[i as int], normalized@));
            return true;
        }
        i += 1;
    }
    false
}

/// The index of the last `/` or `\\`, or -1.
pub open spec fn last_separator(s: Seq<char>) -> int
    decreases s.len(),
{
    if s.len() == 0 {
        -1
    } else if s.last() == '/' || s.last() == '\\' {
        s.len() - 1
    } else {
        last_separator(s.drop_last())
    }
}

proof fn lemma_last_separator(s: Seq<char>)
    ensures
        -1 <= last_separator(s) < s.len(),
        last_separator(s) >= 0 ==> (s[last_separator(s)] == '/' || s[last_separator(s)] == '\\'),
        forall|k: int| last_separator(s) < k < s.len() ==> s[k] != '/' && s[k] != '\\',
    decreases s.len(),
{
    if s.len() > 0 && !(s.last() == '/' || s.last() == '\\') {
        lemma_last_separator(s.drop_last());
        assert forall|k: int| last_separator(s) < k < s.len() implies s[k] != '/' && s[k] != '\\' by {
            if k < s.len() - 1 {
                assert(s[k] == s.drop_last()[k]);
            }
        }
        if last_separator(s) >= 0 {
            assert(s[last_separator(s)] == s.drop_last()[last_separator(s)]);
        }
    }
}

/// The directory in which to look for the files
/// that a wildcard's fixed prefix may name.
pub open spec fn search_prefix(p: Seq<char>) -> Seq<char> {
    let i = last_separator(p);
    if p.len() == 0 {
        seq!['.']
    } else if p.last() == '/' || p.last() == '\\' {
        p
    } else if i < 0 {
        seq!['.']
    } else if i == 0 {
        p.take(1)
    } else {
        p.take(i)
    }
}

pub fn wildcard_search_prefix(prefix: &str) -> (r: String)
    ensures
        r@ == search_prefix(prefix@),
{
    let p = chars_of(prefix);
    let n = p.len();
    if n == 0 || p[n - 1] == '/' || p[n - 1] == '\\' {
        if n == 0 {
            let mut dot = String::new();
            dot.push('.');
            assert(dot@ =~= seq!['.']);
            return dot;
        }
        return string_from(p.as_slice());
    }
    let mut i: usize = n;
    assert(p@.take(n as int) =~= p@);
    while i > 0 && p[i - 1] != '/' && p[i - 1] != '\\'
        invariant
            n == p@.len(),
            i <= n,
            last_separator(p@) == last_separator(p@.take(i as int)),
        decreases i,
    {
        proof {
            assert(p@.take(i as int).drop_last() =~= p@.take(i - 1));
        }
        i -= 1;
    }
    proof {
        assert(p@.take(n as int) =~= p@);
        if i > 0 {
            assert(p@.take(i as int).last() == p@[i - 1]);
        }
    }
    if i == 0 {
        let mut dot = String::new();
        dot.push('.');
        assert(dot@ =~= seq!['.']);
        dot
    } else if i == 1 {
        let head = slice_chars(p.as_slice(), 0, 1);
        string_from(head.as_slice())
    } else {
        let head = slice_chars(p.as_slice(), 0, i - 1);
        string_from(head.as_slice())
    }
}

// ---------------------------------------------------------------------
// Finding text and selection
// ---------------------------------------------------------------------

/// The reason the root field's rule gives for refusing a string target.
pub open spec fn local_target_reason(fp: Seq<String>, t: Seq<char>) -> Option<&'static str> {
    if root_is(fp, "exports"@) {
        exports_target_reason(t)
    } else if root_is(fp, "imports"@) {
        imports_target_reason(t)
    } else if fp.len() > 0 && main_like_field(fp[0]@) {
        main_like_target_reason(t)
    } else {
        None
    }
}

/// The field path written with `/` between its parts.
pub open spec fn field_path_text(fp: Seq<String>) -> Seq<char> {
    join_with(fp.map_values(|x: String| x@), "/"@)
}

/// The detail of an invalid package-local target, if it is invalid.
pub open spec fn local_target_detail(fp: Seq<String>, t: Seq<char>) -> Option<Seq<char>> {
    match local_target_reason(fp, t) {
        Some(reason) => Some(
            "package.json "@ + field_path_text(fp) + " points to "@ + t + ", but "@ + reason@
                + "."@,
        ),
        None => None,
    }
}

/// The field path joined with `/`.
pub fn join_field_path(field_path: &[String]) -> (out: Vec<char>)
    ensures
        out@ == field_path_text(field_path@),
{
    let mut items: Vec<Vec<char>> = Vec::new();
    let mut i: usize = 0;
    while i < field_path.len()
        invariant
            i <= field_path@.len(),
            items@.len() == i,
            forall|k: int| 0 <= k < i ==> #[trigger] items@[k]@ == field_path@[k]@,
        decreases field_path@.len() - i,
    {
        let c = chars_of(field_path[i].as_str());
        items.push(c);
        i += 1;
    }
    assert(items@.map_values(|x: Vec<char>| x@) =~= field_path@.map_values(|x: String| x@));
    join_chars(&items, "/")
}

pub fn invalid_local_target_detail(field_path: &[String], target: &str) -> (r: Option<String>)
    ensures
        match r {
            Some(d) => local_target_detail(field_path@, target@) == Some(d@),
            None => local_target_detail(field_path@, target@) is None,
        },
{
    if field_path.len() == 0 {
        return None;
    }
    let reason = if root_is_exec(field_path, "exports") {
        invalid_exports_target_reason(target)
    } else if root_is_exec(field_path, "imports") {
        invalid_imports_target_reason(target)
    } else if is_main_like_field(field_path[0].as_str()) {
        invalid_main_like_target_reason(target)
    } else {
        None
    };
    match reason {
        None => None,
        Some(reason) => {
            let mut out: Vec<char> = Vec::new();
            append_str(&mut out, "package.json ");
            let path = join_field_path(field_path);
            append_chars(&mut out, path.as_slice());
            append_str(&mut out, " points to ");
            append_str(&mut out, target);
            append_str(&mut out, ", but ");
            append_str(&mut out, reason);
            append_str(&mut out, ".");
            Some(string_from(out.as_slice()))
        },
    }
}

/// The rank by which findings are ordered: errors first, then warnings,
/// then notes.
pub open spec fn severity_rank(s: Severity) -> int {
    match s {
        Severity::Error => 0,
        Severity::Warn => 1,
        Severity::Info => 2,
    }
}

/// Of a non-empty list, the index of the first
/// finding with the most severe level (a stable sort by rank, then the
/// head).
pub fn select_best_finding(severities: &[Severity]) -> (r: usize)
    requires
        severities@.len() > 0,
    ensures
        r < severities@.len(),
        forall|k: int| 0 <= k < severities@.len() ==> severity_rank(severities@[r as int])
            <= severity_rank(#[trigger] severities@[k]),
        forall|k: int| 0 <= k < r ==> severity_rank(#[trigger] severities@[k]) > severity_rank(
            severities@[r as int],
        ),
{
    let mut best: usize = 0;
    let mut i: usize = 1;
    while i < severities.len()
        invariant
            0 < i <= severities@.len(),
            best < i,
            forall|k: int| 0 <= k < i ==> severity_rank(severities@[best as int]) <= severity_rank(
                #[trigger] severities@[k],
            ),
            forall|k: int| 0 <= k < best ==> severity_rank(#[trigger] severities@[k])
                > severity_rank(severities@[best as int]),
        decreases severities@.len() - i,
    {
        let better = match (severities[i], severities[best]) {
            (Severity::Error, Severity::Warn) => true,
            (Severity::Error, Severity::Info) => true,
            (Severity::Warn, Severity::Info) => true,
            _ => false,
        };
        if better {
            best = i;
        }
        i += 1;
    }
    best
}

/// No earlier id equals the id at `i`.
pub open spec fn first_of_id(ids: Seq<String>, i: int) -> bool {
    forall|j: int| 0 <= j < i ==> (#[trigger] ids[j])@ != ids[i]@
}

/// Two findings that are each the first with their id have different ids:
/// the kept findings never share an id.
pub proof fn lemma_first_ids_distinct(ids: Seq<String>, i: int, j: int)
    requires
        0 <= i < j < ids.len(),
        first_of_id(ids, i),
        first_of_id(ids, j),
    ensures
        ids[i]@ != ids[j]@,
{
    assert(ids[i]@ != ids[j]@);
}

/// Every finding's id is kept: some earlier or equal finding with that id
/// is the first.
pub proof fn lemma_every_id_kept(ids: Seq<String>, i: int)
    requires
        0 <= i < ids.len(),
    ensures
        exists|j: int| 0 <= j <= i && #[trigger] first_of_id(ids, j) && ids[j]@ == ids[i]@,
    decreases i,
{
    if !first_of_id(ids, i) {
        let j = choose|j: int| 0 <= j < i && (#[trigger] ids[j])@ == ids[i]@;
        lemma_every_id_kept(ids, j);
        let m = choose|m: int| 0 <= m <= j && #[trigger] first_of_id(ids, m) && ids[m]@ == ids[j]@;
        assert(0 <= m <= i && first_of_id(ids, m) && ids[m]@ == ids[i]@);
    } else {
        assert(first_of_id(ids, i) && ids[i]@ == ids[i]@);
    }
}

/// The indices of the findings whose id did not
/// occur before, in order.
pub fn unique_findings_by_id(ids: &[String]) -> (kept: Vec<usize>)
    ensures
        forall|k: int| 0 <= k < kept@.len() ==> #[trigger] kept@[k] < ids@.len(),
        forall|a: int, b: int| 0 <= a < b < kept@.len() ==> kept@[a] < kept@[b],
        forall|i: int|
            0 <= i < ids@.len() ==> (kept@.contains(i as usize) <==> #[trigger] first_of_id(
                ids@,
                i,
            )),
{
    let mut kept: Vec<usize> = Vec::new();
    let mut i: usize = 0;
    while i < ids.len()
        invariant
            i <= ids@.len(),
            forall|k: int| 0 <= k < kept@.len() ==> #[trigger] kept@[k] < i,
            forall|a: int, b: int| 0 <= a < b < kept@.len() ==> kept@[a] < kept@[b],
            forall|x: int|
                0 <= x < i ==> (kept@.contains(x as usize) <==> #[trigger] first_of_id(ids@, x)),
        decreases ids@.len() - i,
    {
        let mut seen = false;
        let mut j: usize = 0;
        while j < i
            invariant
                i < ids@.len(),
                j <= i,
                seen == exists|m: int| 0 <= m < j && (#[trigger] ids@[m])@ == ids@[i as int]@,
            decreases i - j,
        {
            if string_is_string(&ids[j], &ids[i]) {
                seen = true;
            }
            j += 1;
        }
        let ghost old_kept = kept@;
        if !seen {
            kept.push(i);
        }
        proof {
            assert forall|x: int| 0 <= x < i + 1 implies (kept@.contains(x as usize)
                <==> #[trigger] first_of_id(ids@, x)) by {
                if x < i {
                    if kept@.contains(x as usize) && !old_kept.contains(x as usize) {
                        let w = choose|w: int| 0 <= w < kept@.len() && kept@[w] == x as usize;
                        if w < old_kept.len() {
                            assert(old_kept[w] == x as usize);
                        }
                    }
                    if old_kept.contains(x as usize) {
                        let w = choose|w: int| 0 <= w < old_kept.len() && old_kept[w] == x as usize;
                        assert(kept@[w] == x as usize);
                    }
                } else {
                    if !seen {
                        assert(kept@[kept@.len() - 1] == i);
                    } else {
                        if kept@.contains(x as usize) {
                            let w = choose|w: int| 0 <= w < kept@.len() && kept@[w] == x as usize;
                            assert(old_kept[w] < i);
                        }
                        let m = choose|m: int| 0 <= m < i && (#[trigger] ids@[m])@ == ids@[i as int]@;
                        assert(!first_of_id(ids@, x));
                    }
                }
            }
        }
        i += 1;
    }
    kept
}

fn string_is_string(a: &String, b: &String) -> (r: bool)
    ensures
        r == (a@ == b@),
{
    let ac = chars_of(a.as_str());
    let bc = chars_of(b.as_str());
    crate::text::chars_eq(ac.as_slice(), bc.as_slice())
}

/// Findings of a fallback branch
/// that another branch resolved: missing or incompatible targets, and
/// invalid targets other than a wrong value type.
pub open spec fn skippable_fallback(title: Seq<char>, id: Seq<char>) -> bool {
    ||| title == "Package entrypoint target does not exist"@
    ||| title == "Package entrypoint target uses an incompatible file type"@
    ||| (title == "Package entrypoint target is invalid"@ && !crate::text::contains_seq(
        id,
        ":invalid-type:"@,
    ))
}

pub fn is_skippable_fallback_branch_finding(title: &str, id: &str) -> (r: bool)
    ensures
        r == skippable_fallback(title@, id@),
{
    let t = chars_of(title);
    if chars_eq_str(t.as_slice(), "Package entrypoint target does not exist") {
        return true;
    }
    if chars_eq_str(t.as_slice(), "Package entrypoint target uses an incompatible file type") {
        return true;
    }
    if chars_eq_str(t.as_slice(), "Package entrypoint target is invalid") {
        let i = chars_of(id);
        let needle = chars_of(":invalid-type:");
        let found = crate::text::find_chars(i.as_slice(), needle.as_slice());
        return found.is_none();
    }
    false
}


/// The indices of the findings that are not
/// skippable, in order.
pub fn retained_fallback_findings(titles: &[String], ids: &[String]) -> (kept: Vec<usize>)
    requires
        titles@.len() == ids@.len(),
    ensures
        forall|k: int| 0 <= k < kept@.len() ==> #[trigger] kept@[k] < titles@.len(),
        forall|a: int, b: int| 0 <= a < b < kept@.len() ==> kept@[a] < kept@[b],
        forall|i: int|
            0 <= i < titles@.len() ==> (kept@.contains(i as usize) <==> !skippable_fallback(
                #[trigger] titles@[i]@,
                ids@[i]@,
            )),
{
    let mut kept: Vec<usize> = Vec::new();
    let mut i: usize = 0;
    while i < titles.len()
        invariant
            titles@.len() == ids@.len(),
            i <= titles@.len(),
            forall|k: int| 0 <= k < kept@.len() ==> #[trigger] kept@[k] < i,
            forall|a: int, b: int| 0 <= a < b < kept@.len() ==> kept@[a] < kept@[b],
            forall|x: int|
                0 <= x < i ==> (kept@.contains(x as usize) <==> !skippable_fallback(
                    #[trigger] titles@[x]@,
                    ids@[x]@,
                )),
        decreases titles@.len() - i,
    {
        let skip = is_skippable_fallback_branch_finding(titles[i].as_str(), ids[i].as_str());
        let ghost old_kept = kept@;
        if !skip {
            kept.push(i);
        }
        proof {
            assert forall|x: int| 0 <= x < i + 1 implies (kept@.contains(x as usize)
                <==> !skippable_fallback(#[trigger] titles@[x]@, ids@[x]@)) by {
                if kept@.contains(x as usize) {
                    let w = choose|w: int| 0 <= w < kept@.len() && kept@[w] == x as usize;
                    if w < old_kept.len() {
                        assert(old_kept[w] == x as usize);
                    }
                }
                if x < i && old_kept.contains(x as usize) {
                    let w = choose|w: int| 0 <= w < old_kept.len() && old_kept[w] == x as usize;
                    assert(kept@[w] == x as usize);
                }
                if x == i && !skip {
                    assert(kept@[kept@.len() - 1] == i);
                }
            }
        }
        i += 1;
    }
    kept
}

/// The indices of the findings other
/// than missing targets, in order.
pub fn retained_index_fallback_findings(titles: &[String]) -> (kept: Vec<usize>)
    ensures
        forall|k: int| 0 <= k < kept@.len() ==> #[trigger] kept@[k] < titles@.len(),
        forall|a: int, b: int| 0 <= a < b < kept@.len() ==> kept@[a] < kept@[b],
        forall|i: int|
            0 <= i < titles@.len() ==> (kept@.contains(i as usize) <==> (#[trigger] titles@[i])@
                != "Package entrypoint target does not exist"@),
{
    let mut kept: Vec<usize> = Vec::new();
    let mut i: usize = 0;
    while i < titles.len()
        invariant
            i <= titles@.len(),
            forall|k: int| 0 <= k < kept@.len() ==> #[trigger] kept@[k] < i,
            forall|a: int, b: int| 0 <= a < b < kept@.len() ==> kept@[a] < kept@[b],
            forall|x: int|
                0 <= x < i ==> (kept@.contains(x as usize) <==> (#[trigger] titles@[x])@
                    != "Package entrypoint target does not exist"@),
        decreases titles@.len() - i,
    {
        let missing = string_is(&titles[i], "Package entrypoint target does not exist");
        let ghost old_kept = kept@;
        if !missing {
            kept.push(i);
        }
        proof {
            assert forall|x: int| 0 <= x < i + 1 implies (kept@.contains(x as usize) <==> (
            #[trigger] titles@[x])@ != "Package entrypoint target does not exist"@) by {
                if kept@.contains(x as usize) {
                    let w = choose|w: int| 0 <= w < kept@.len() && kept@[w] == x as usize;
                    if w < old_kept.len() {
                        assert(old_kept[w] == x as usize);
                    }
                }
                if x < i && old_kept.contains(x as usize) {
                    let w = choose|w: int| 0 <= w < old_kept.len() && old_kept[w] == x as usize;
                    assert(kept@[w] == x as usize);
                }
                if x == i && !missing {
                    assert(kept@[kept@.len() - 1] == i);
                }
            }
        }
        i += 1;
    }
    kept
}


// ---------------------------------------------------------------------
// Findings on values and keys
// ---------------------------------------------------------------------

/// The kind of a JSON value as the invalid-value finding names it.
pub open spec fn value_kind(v: JsonValue) -> &'static str {
    match v {
        JsonValue::Null => "null",
        JsonValue::Bool(_) => "boolean",
        JsonValue::Number(_) => "number",
        JsonValue::Text(_) => "string",
        JsonValue::Array(_) => "array",
        JsonValue::Object(_) => "object",
    }
}

pub fn json_value_kind(value: &JsonValue) -> (r: &'static str)
    ensures
        r == value_kind(*value),
{
    match value {
        JsonValue::Null => "null",
        JsonValue::Bool(_) => "boolean",
        JsonValue::Number(_) => "number",
        JsonValue::Text(_) => "string",
        JsonValue::Array(_) => "array",
        JsonValue::Object(_) => "object",
    }
}

/// The detail of the finding for a value of a kind the field does not allow.
pub fn invalid_entrypoint_value_detail(field_path: &[String], value: &JsonValue) -> (out: String)
    ensures
        out@ == "package.json "@ + field_path_text(field_path@)
            + " must be a string target or nested fallback branches, but found "@ + value_kind(
            *value,
        )@ + "."@,
{
    let mut out: Vec<char> = Vec::new();
    append_str(&mut out, "package.json ");
    let path = join_field_path(field_path);
    append_chars(&mut out, path.as_slice());
    append_str(&mut out, " must be a string target or nested fallback branches, but found ");
    append_str(&mut out, json_value_kind(value));
    append_str(&mut out, ".");
    string_from(out.as_slice())
}

/// The keys of an object, among the first `k`, that a reason rule refuses,
/// with the reason.
pub open spec fn refused_keys(keys: Seq<String>, k: int, exports: bool) -> Seq<(int, &'static str)>
    decreases k,
{
    if k <= 0 {
        seq![]
    } else {
        let prev = refused_keys(keys, k - 1, exports);
        let reason = if exports {
            exports_key_reason(keys[k - 1]@)
        } else {
            imports_key_reason(keys[k - 1]@)
        };
        match reason {
            Some(r) => prev.push((k - 1, r)),
            None => prev,
        }
    }
}

/// What `invalid_object_key_findings` reports for an object's keys: whether
/// a top-level `exports` map mixes subpaths and conditions, and each refused
/// key (by index) with its reason.
pub struct KeyFindings {
    pub mixed_exports: bool,
    pub refused: Vec<(usize, &'static str)>,
}

pub open spec fn refused_views(v: Seq<(usize, &'static str)>) -> Seq<(int, &'static str)> {
    v.map_values(|p: (usize, &'static str)| (p.0 as int, p.1))
}

fn refused_keys_exec(keys: &[String], exports: bool) -> (out: Vec<(usize, &'static str)>)
    ensures
        refused_views(out@) == refused_keys(keys@, keys@.len() as int, exports),
{
    let mut out: Vec<(usize, &'static str)> = Vec::new();
    let mut k: usize = 0;
    while k < keys.len()
        invariant
            k <= keys@.len(),
            refused_views(out@) == refused_keys(keys@, k as int, exports),
        decreases keys@.len() - k,
    {
        let reason = if exports {
            invalid_exports_key_reason(keys[k].as_str())
        } else {
            invalid_imports_key_reason(keys[k].as_str())
        };
        let ghost before = refused_views(out@);
        match reason {
            Some(r) => {
                out.push((k, r));
                assert(refused_views(out@) =~= before.push((k as int, r)));
            },
            None => {},
        }
        k += 1;
    }
    out
}

/// Keys are checked for the top-level
/// `imports` map and for every `exports` object.
pub fn invalid_object_key_findings(field_path: &[String], keys: &[String]) -> (r: KeyFindings)
    ensures
        r.mixed_exports == (root_is(field_path@, "exports"@) && field_path@.len() == 1
            && mixes_subpaths_and_conditions(keys@)),
        refused_views(r.refused@) == if root_is(field_path@, "imports"@) && field_path@.len() == 1 {
            refused_keys(keys@, keys@.len() as int, false)
        } else if root_is(field_path@, "exports"@) {
            refused_keys(keys@, keys@.len() as int, true)
        } else {
            Seq::empty()
        },
{
    if root_is_exec(field_path, "imports") && field_path.len() == 1 {
        proof {
            reveal_strlit("imports");
            reveal_strlit("exports");
            assert("imports"@[0] != "exports"@[0]);
        }
        return KeyFindings { mixed_exports: false, refused: refused_keys_exec(keys, false) };
    }
    if root_is_exec(field_path, "exports") {
        let mixed = field_path.len() == 1 && mixes_exports_subpaths_and_conditions(keys);
        return KeyFindings { mixed_exports: mixed, refused: refused_keys_exec(keys, true) };
    }
    let empty: Vec<(usize, &'static str)> = Vec::new();
    assert(refused_views(empty@) =~= Seq::<(int, &'static str)>::empty());
    KeyFindings { mixed_exports: false, refused: empty }
}

// ---------------------------------------------------------------------
// Combining fallback branches
// ---------------------------------------------------------------------

/// A finding of the entrypoint check; it points at the `package.json`
/// being checked.
pub struct FindingRef {
    pub id: String,
    pub title: String,
    pub detail: String,
    pub hint: String,
    pub severity: Severity,
}

/// A finding as (id, title, detail, hint, severity).
pub open spec fn finding_view(f: FindingRef) -> (Seq<char>, Seq<char>, Seq<char>, Seq<char>, Severity) {
    (f.id@, f.title@, f.detail@, f.hint@, f.severity)
}

pub open spec fn finding_views(v: Seq<FindingRef>) -> Seq<(Seq<char>, Seq<char>, Seq<char>, Seq<char>, Severity)> {
    v.map_values(|f: FindingRef| finding_view(f))
}

impl FindingRef {
    /// A copy of the finding.
    pub fn copy(&self) -> (r: FindingRef)
        ensures
            finding_view(r) == finding_view(*self),
    {
        let id = chars_of(self.id.as_str());
        let title = chars_of(self.title.as_str());
        let detail = chars_of(self.detail.as_str());
        let hint = chars_of(self.hint.as_str());
        FindingRef {
            id: string_from(id.as_slice()),
            title: string_from(title.as_slice()),
            detail: string_from(detail.as_slice()),
            hint: string_from(hint.as_slice()),
            severity: self.severity,
        }
    }
}

/// The outcome of inspecting one value: its findings, and whether some
/// branch resolved to a valid target.
pub struct BranchOutcome {
    pub findings: Vec<FindingRef>,
    pub has_valid_target: bool,
}

/// The findings a working fallback keeps: all but missing-target findings,
/// wrong-file-type findings and invalid-target findings other than those
/// about a value's kind.
pub open spec fn retained_spec(fs: Seq<(Seq<char>, Seq<char>, Seq<char>, Seq<char>, Severity)>) -> Seq<
    (Seq<char>, Seq<char>, Seq<char>, Seq<char>, Severity),
>
    decreases fs.len(),
{
    if fs.len() == 0 {
        seq![]
    } else if skippable_fallback(fs.last().1, fs.last().0) {
        retained_spec(fs.drop_last())
    } else {
        retained_spec(fs.drop_last()).push(fs.last())
    }
}

/// Some finding of the list has the id.
pub open spec fn has_id(fs: Seq<(Seq<char>, Seq<char>, Seq<char>, Seq<char>, Severity)>, id: Seq<char>) -> bool {
    exists|i: int| 0 <= i < fs.len() && (#[trigger] fs[i]).0 == id
}

/// The findings whose id did not occur before, in order.
pub open spec fn unique_spec(fs: Seq<(Seq<char>, Seq<char>, Seq<char>, Seq<char>, Severity)>) -> Seq<
    (Seq<char>, Seq<char>, Seq<char>, Seq<char>, Severity),
>
    decreases fs.len(),
{
    if fs.len() == 0 {
        seq![]
    } else if has_id(fs.drop_last(), fs.last().0) {
        unique_spec(fs.drop_last())
    } else {
        unique_spec(fs.drop_last()).push(fs.last())
    }
}

/// The index of the first finding of the most severe level among the
/// first `k`.
pub open spec fn best_upto(fs: Seq<(Seq<char>, Seq<char>, Seq<char>, Seq<char>, Severity)>, k: int) -> int
    decreases k,
{
    if k <= 1 {
        0
    } else {
        let b = best_upto(fs, k - 1);
        if severity_rank(fs[k - 1].4) < severity_rank(fs[b].4) {
            k - 1
        } else {
            b
        }
    }
}

/// At most one finding: the most severe, when there are several.
pub open spec fn compressed(fs: Seq<(Seq<char>, Seq<char>, Seq<char>, Seq<char>, Severity)>) -> Seq<
    (Seq<char>, Seq<char>, Seq<char>, Seq<char>, Severity),
> {
    if fs.len() > 1 {
        seq![fs[best_upto(fs, fs.len() as int)]]
    } else {
        fs
    }
}

/// The array-branch rule of `inspect_entrypoint_value`: branches are tried
/// in order; the first one with a valid target ends the walk, keeping the
/// earlier findings that are not skippable, without repeated ids; when no
/// branch is valid the most severe finding stands for all.
pub open spec fn array_merge(
    branches: Seq<(Seq<(Seq<char>, Seq<char>, Seq<char>, Seq<char>, Severity)>, bool)>,
    acc: Seq<(Seq<char>, Seq<char>, Seq<char>, Seq<char>, Severity)>,
) -> (Seq<(Seq<char>, Seq<char>, Seq<char>, Seq<char>, Severity)>, bool)
    decreases branches.len(),
{
    if branches.len() == 0 {
        (compressed(acc), false)
    } else if branches[0].1 {
        (unique_spec(retained_spec(acc + retained_spec(branches[0].0))), true)
    } else {
        array_merge(branches.drop_first(), acc + branches[0].0)
    }
}

pub open spec fn branch_views(v: Seq<BranchOutcome>) -> Seq<
    (Seq<(Seq<char>, Seq<char>, Seq<char>, Seq<char>, Severity)>, bool),
> {
    v.map_values(|b: BranchOutcome| (finding_views(b.findings@), b.has_valid_target))
}

pub(crate) fn append_findings(out: &mut Vec<FindingRef>, more: &Vec<FindingRef>)
    ensures
        finding_views(final(out)@) == finding_views(old(out)@) + finding_views(more@),
{
    let ghost start = finding_views(out@);
    let mut i: usize = 0;
    while i < more.len()
        invariant
            i <= more@.len(),
            finding_views(out@) == start + finding_views(more@).take(i as int),
        decreases more@.len() - i,
    {
        let f = more[i].copy();
        let ghost prev = out@;
        out.push(f);
        proof {
            assert(out@ =~= prev.push(f));
            assert(finding_views(prev.push(f)) =~= finding_views(prev).push(finding_view(f)));
            assert(finding_views(more@).take(i + 1) =~= finding_views(more@).take(i as int).push(
                finding_view(more@[i as int]),
            ));
        }
        i += 1;
    }
    assert(finding_views(more@).take(more@.len() as int) =~= finding_views(more@));
}

fn retained_exec(fs: &Vec<FindingRef>) -> (out: Vec<FindingRef>)
    ensures
        finding_views(out@) == retained_spec(finding_views(fs@)),
{
    let mut out: Vec<FindingRef> = Vec::new();
    let mut i: usize = 0;
    while i < fs.len()
        invariant
            i <= fs@.len(),
            finding_views(out@) == retained_spec(finding_views(fs@).take(i as int)),
        decreases fs@.len() - i,
    {
        proof {
            assert(finding_views(fs@).take(i + 1).drop_last() =~= finding_views(fs@).take(i as int));
        }
        let ghost before = finding_views(out@);
        if !is_skippable_fallback_branch_finding(fs[i].title.as_str(), fs[i].id.as_str()) {
            out.push(fs[i].copy());
            assert(finding_views(out@) =~= before.push(finding_view(fs@[i as int])));
        }
        i += 1;
    }
    assert(finding_views(fs@).take(fs@.len() as int) =~= finding_views(fs@));
    out
}

fn has_id_exec(fs: &Vec<FindingRef>, upto: usize, id: &String) -> (r: bool)
    requires
        upto <= fs@.len(),
    ensures
        r == has_id(finding_views(fs@).take(upto as int), id@),
{
    let mut i: usize = 0;
    while i < upto
        invariant
            i <= upto <= fs@.len(),
            forall|j: int| 0 <= j < i ==> (#[trigger] fs@[j]).id@ != id@,
        decreases upto - i,
    {
        if string_is_string(&fs[i].id, id) {
            assert(finding_views(fs@).take(upto as int)[i as int].0 == id@);
            return true;
        }
        i += 1;
    }
    proof {
        if has_id(finding_views(fs@).take(upto as int), id@) {
            let j = choose|j: int| 0 <= j < finding_views(fs@).take(upto as int).len() && (#[trigger] finding_views(fs@).take(upto as int)[j]).0 == id@;
            assert(fs@[j].id@ == id@);
        }
    }
    false
}

pub(crate) fn unique_exec(fs: &Vec<FindingRef>) -> (out: Vec<FindingRef>)
    ensures
        finding_views(out@) == unique_spec(finding_views(fs@)),
{
    let mut out: Vec<FindingRef> = Vec::new();
    let mut i: usize = 0;
    while i < fs.len()
        invariant
            i <= fs@.len(),
            finding_views(out@) == unique_spec(finding_views(fs@).take(i as int)),
        decreases fs@.len() - i,
    {
        proof {
            assert(finding_views(fs@).take(i + 1).drop_last() =~= finding_views(fs@).take(i as int));
        }
        let ghost before = finding_views(out@);
        if !has_id_exec(fs, i, &fs[i].id) {
            out.push(fs[i].copy());
            assert(finding_views(out@) =~= before.push(finding_view(fs@[i as int])));
        }
        i += 1;
    }
    assert(finding_views(fs@).take(fs@.len() as int) =~= finding_views(fs@));
    out
}

fn compressed_exec(fs: Vec<FindingRef>) -> (out: Vec<FindingRef>)
    ensures
        finding_views(out@) == compressed(finding_views(fs@)),
{
    if fs.len() <= 1 {
        return fs;
    }
    let ghost fv = finding_views(fs@);
    let mut best: usize = 0;
    let mut k: usize = 1;
    while k < fs.len()
        invariant
            1 <= k <= fs@.len(),
            fv == finding_views(fs@),
            best == best_upto(fv, k as int),
            best < k,
        decreases fs@.len() - k,
    {
        let better = match (fs[k].severity, fs[best].severity) {
            (Severity::Error, Severity::Warn) => true,
            (Severity::Error, Severity::Info) => true,
            (Severity::Warn, Severity::Info) => true,
            _ => false,
        };
        if better {
            best = k;
        }
        k += 1;
    }
    let one = fs[best].copy();
    let mut out: Vec<FindingRef> = Vec::new();
    out.push(one);
    assert(finding_views(out@) =~= seq![fv[best as int]]);
    out
}

/// The array rule of `inspect_entrypoint_value`, over the outcomes of the
/// branches in order.
pub fn merge_array_branches(branches: &Vec<BranchOutcome>) -> (r: BranchOutcome)
    ensures
        (finding_views(r.findings@), r.has_valid_target) == array_merge(
            branch_views(branches@),
            Seq::empty(),
        ),
{
    let ghost bv = branch_views(branches@);
    let mut acc: Vec<FindingRef> = Vec::new();
    let mut i: usize = 0;
    assert(bv.skip(0) =~= bv);
    while i < branches.len()
        invariant
            i <= branches@.len(),
            bv == branch_views(branches@),
            array_merge(bv, Seq::empty()) == array_merge(bv.skip(i as int), finding_views(acc@)),
        decreases branches@.len() - i,
    {
        proof {
            assert(bv.skip(i as int)[0] == bv[i as int]);
            assert(bv.skip(i as int).drop_first() =~= bv.skip(i + 1));
        }
        if branches[i].has_valid_target {
            let kept = retained_exec(&branches[i].findings);
            append_findings(&mut acc, &kept);
            let r = retained_exec(&acc);
            let u = unique_exec(&r);
            return BranchOutcome { findings: u, has_valid_target: true };
        }
        append_findings(&mut acc, &branches[i].findings);
        i += 1;
    }
    proof {
        assert(bv.skip(i as int).len() == 0);
    }
    let out = compressed_exec(acc);
    BranchOutcome { findings: out, has_valid_target: false }
}

/// The array rule of the walk below a nested `package.json`: as
/// `array_merge`, except that when no branch is valid the findings are
/// kept as they are.
pub open spec fn nested_array_merge(
    branches: Seq<(Seq<(Seq<char>, Seq<char>, Seq<char>, Seq<char>, Severity)>, bool)>,
    acc: Seq<(Seq<char>, Seq<char>, Seq<char>, Seq<char>, Severity)>,
) -> (Seq<(Seq<char>, Seq<char>, Seq<char>, Seq<char>, Severity)>, bool)
    decreases branches.len(),
{
    if branches.len() == 0 {
        (acc, false)
    } else if branches[0].1 {
        (unique_spec(retained_spec(acc + retained_spec(branches[0].0))), true)
    } else {
        nested_array_merge(branches.drop_first(), acc + branches[0].0)
    }
}

/// The array rule of `inspect_nested_directory_value_at_depth`, over the
/// outcomes of the branches in order.
pub fn merge_nested_array_branches(branches: &Vec<BranchOutcome>) -> (r: BranchOutcome)
    ensures
        (finding_views(r.findings@), r.has_valid_target) == nested_array_merge(
            branch_views(branches@),
            Seq::empty(),
        ),
{
    let ghost bv = branch_views(branches@);
    let mut acc: Vec<FindingRef> = Vec::new();
    let mut i: usize = 0;
    assert(bv.skip(0) =~= bv);
    while i < branches.len()
        invariant
            i <= branches@.len(),
            bv == branch_views(branches@),
            nested_array_merge(bv, Seq::empty()) == nested_array_merge(
                bv.skip(i as int),
                finding_views(acc@),
            ),
        decreases branches@.len() - i,
    {
        proof {
            assert(bv.skip(i as int)[0] == bv[i as int]);
            assert(bv.skip(i as int).drop_first() =~= bv.skip(i + 1));
        }
        if branches[i].has_valid_target {
            let kept = retained_exec(&branches[i].findings);
            append_findings(&mut acc, &kept);
            let r = retained_exec(&acc);
            let u = unique_exec(&r);
            return BranchOutcome { findings: u, has_valid_target: true };
        }
        append_findings(&mut acc, &branches[i].findings);
        i += 1;
    }
    proof {
        assert(bv.skip(i as int).len() == 0);
    }
    BranchOutcome { findings: acc, has_valid_target: false }
}

/// The object rule of `inspect_entrypoint_value`: the key findings, then
/// every branch's findings in order; valid when some branch is; one most
/// severe finding when the object compresses and there are several.
pub open spec fn object_merge(
    key_findings: Seq<(Seq<char>, Seq<char>, Seq<char>, Seq<char>, Severity)>,
    branches: Seq<(Seq<(Seq<char>, Seq<char>, Seq<char>, Seq<char>, Severity)>, bool)>,
    compress: bool,
) -> (Seq<(Seq<char>, Seq<char>, Seq<char>, Seq<char>, Severity)>, bool) {
    let all = key_findings + branches.fold_left(
        Seq::<(Seq<char>, Seq<char>, Seq<char>, Seq<char>, Severity)>::empty(),
        |a: Seq<(Seq<char>, Seq<char>, Seq<char>, Seq<char>, Severity)>, b: (Seq<(Seq<char>, Seq<char>, Seq<char>, Seq<char>, Severity)>, bool)| a + b.0,
    );
    let valid = exists|k: int| 0 <= k < branches.len() && (#[trigger] branches[k]).1;
    (if compress {
        compressed(all)
    } else {
        all
    }, valid)
}

/// The object rule of `inspect_entrypoint_value`, over the key findings and
/// the outcomes of the branches in key order.
pub fn merge_object_branches(key_findings: &Vec<FindingRef>, branches: &Vec<BranchOutcome>, compress: bool) -> (r: BranchOutcome)
    ensures
        (finding_views(r.findings@), r.has_valid_target) == object_merge(
            finding_views(key_findings@),
            branch_views(branches@),
            compress,
        ),
{
    let ghost bv = branch_views(branches@);
    let ghost f = |a: Seq<(Seq<char>, Seq<char>, Seq<char>, Seq<char>, Severity)>, b: (Seq<(Seq<char>, Seq<char>, Seq<char>, Seq<char>, Severity)>, bool)| a + b.0;
    let mut all: Vec<FindingRef> = Vec::new();
    append_findings(&mut all, key_findings);
    let mut valid = false;
    let mut i: usize = 0;
    while i < branches.len()
        invariant
            i <= branches@.len(),
            bv == branch_views(branches@),
            f == (|a: Seq<(Seq<char>, Seq<char>, Seq<char>, Seq<char>, Severity)>, b: (Seq<(Seq<char>, Seq<char>, Seq<char>, Seq<char>, Severity)>, bool)| a + b.0),
            finding_views(all@) == finding_views(key_findings@) + bv.take(i as int).fold_left(Seq::empty(), f),
            valid == exists|k: int| 0 <= k < i && (#[trigger] bv[k]).1,
        decreases branches@.len() - i,
    {
        proof {
            assert(bv.take(i + 1).drop_last() =~= bv.take(i as int));
            bv.take(i + 1).lemma_fold_left_split(Seq::empty(), f, i as int);
            assert(bv.take(i + 1).subrange(0, i as int) =~= bv.take(i as int));
            assert(bv.take(i + 1).subrange(i as int, i + 1) =~= seq![bv[i as int]]);
            reveal_with_fuel(Seq::fold_left, 2);
        }
        let ghost before = finding_views(all@);
        append_findings(&mut all, &branches[i].findings);
        proof {
            let acc0 = bv.take(i as int).fold_left(Seq::empty(), f);
            assert(seq![bv[i as int]].fold_left(acc0, f) == f(acc0, bv[i as int])) by {
                reveal_with_fuel(Seq::fold_left, 2);
                assert(seq![bv[i as int]].drop_last() =~= Seq::<(Seq<(Seq<char>, Seq<char>, Seq<char>, Seq<char>, Severity)>, bool)>::empty());
            }
            assert(finding_views(all@) =~= finding_views(key_findings@) + bv.take(i + 1).fold_left(Seq::empty(), f));
        }
        if branches[i].has_valid_target {
            valid = true;
        }
        i += 1;
    }
    assert(bv.take(branches@.len() as int) =~= bv);
    if compress {
        let out = compressed_exec(all);
        BranchOutcome { findings: out, has_valid_target: valid }
    } else {
        BranchOutcome { findings: all, has_valid_target: valid }
    }
}

} // verus!
