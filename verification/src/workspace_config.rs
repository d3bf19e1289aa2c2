//! Workspace definitions: the `packages:` list of `pnpm-workspace.yaml`,
//! written as a block list or an inline array, and whether a `turbo.json`
//! declares any tasks.
use vstd::prelude::*;
use crate::json::{get, non_empty_object_member, JsonValue};
use crate::text::{
    chars_eq_str, is_whitespace, is_ws, lines, lines_of, slice_chars, starts_with, starts_with_str,
    string_from, string_views, trim, trim_chars, trim_end, trim_end_chars, trim_start,
    trim_start_chars,
};
use crate::vite_config::{parse_string_literal, string_literal_at};

verus! {

// ---------------------------------------------------------------------
// Comments and whitespace
// ---------------------------------------------------------------------

/// Scanning a line for a `#` that starts a comment: outside single and
/// double quotes, where a backslash inside quotes escapes the next
/// character. The index of that `#`, or the line's length.
pub open spec fn comment_start(
    t: Seq<char>,
    i: int,
    single: bool,
    double: bool,
    escaped: bool,
) -> int
    decreases t.len() - i,
{
    if i < 0 || i >= t.len() {
        t.len() as int
    } else if escaped {
        comment_start(t, i + 1, single, double, false)
    } else {
        let ch = t[i];
        if ch == '\\' && (single || double) {
            comment_start(t, i + 1, single, double, true)
        } else if ch == '\'' && !double {
            comment_start(t, i + 1, !single, double, false)
        } else if ch == '"' && !single {
            comment_start(t, i + 1, single, !double, false)
        } else if ch == '#' && !single && !double {
            i
        } else {
            comment_start(t, i + 1, single, double, false)
        }
    }
}

/// The line up to its comment.
pub open spec fn without_comment(t: Seq<char>) -> Seq<char> {
    t.take(comment_start(t, 0, false, false, false))
}

pub proof fn lemma_comment_start(t: Seq<char>, i: int, single: bool, double: bool, escaped: bool)
    requires
        0 <= i <= t.len(),
    ensures
        i <= comment_start(t, i, single, double, escaped) <= t.len(),
    decreases t.len() - i,
{
    if i < t.len() {
        lemma_comment_start(t, i + 1, single, double, false);
        lemma_comment_start(t, i + 1, single, double, true);
        lemma_comment_start(t, i + 1, !single, double, false);
        lemma_comment_start(t, i + 1, single, !double, false);
    }
}

pub fn strip_inline_comment(line: &[char]) -> (out: Vec<char>)
    ensures
        out@ == without_comment(line@),
{
    let n = line.len();
    let mut single = false;
    let mut double = false;
    let mut escaped = false;
    let mut i: usize = 0;
    proof {
        lemma_comment_start(line@, 0, false, false, false);
    }
    while i < n
        invariant
            n == line@.len(),
            i <= n,
            comment_start(line@, 0, false, false, false) == comment_start(
                line@,
                i as int,
                single,
                double,
                escaped,
            ),
        decreases n - i,
    {
        let ch = line[i];
        if escaped {
            escaped = false;
        } else if ch == '\\' && (single || double) {
            escaped = true;
        } else if ch == '\'' && !double {
            single = !single;
        } else if ch == '"' && !single {
            double = !double;
        } else if ch == '#' && !single && !double {
            return slice_chars(line, 0, i);
        }
        i += 1;
    }
    slice_chars(line, 0, n)
}

/// The position of the first non-whitespace character at or after `c`.
pub open spec fn skip_inline(t: Seq<char>, c: int) -> int
    decreases t.len() - c,
{
    if 0 <= c < t.len() && is_ws(t[c]) {
        skip_inline(t, c + 1)
    } else {
        c
    }
}

pub proof fn lemma_skip_inline(t: Seq<char>, c: int)
    requires
        0 <= c <= t.len(),
    ensures
        c <= skip_inline(t, c) <= t.len(),
    decreases t.len() - c,
{
    if c < t.len() && is_ws(t[c]) {
        lemma_skip_inline(t, c + 1);
    }
}

/// The first position at or after `cursor` that is not a space or a tab.
pub fn skip_inline_ws(value: &[char], cursor: usize) -> (r: usize)
    ensures
        r == skip_inline(value@, cursor as int),
{
    let mut c = cursor;
    while c < value.len() && is_whitespace(value[c])
        invariant
            cursor <= c,
            skip_inline(value@, cursor as int) == skip_inline(value@, c as int),
        decreases value@.len() - c,
    {
        c += 1;
    }
    c
}

// ---------------------------------------------------------------------
// Inline arrays
// ---------------------------------------------------------------------

/// A quoted item with backslash escapes.
pub fn parse_inline_string_literal(value: &[char], start: usize) -> (r: Result<
    (Vec<char>, usize),
    (),
>)
    ensures
        match r {
            Ok((v, e)) => string_literal_at(value@, start as int) == Some((v@, e as int)),
            Err(_) => string_literal_at(value@, start as int) is None,
        },
{
    match parse_string_literal(value, start) {
        Some(ve) => Ok(ve),
        None => Err(()),
    }
}

/// The end of an unquoted item: the first `,` or `]` from `c`, or the end.
pub open spec fn scalar_end(t: Seq<char>, c: int) -> int
    decreases t.len() - c,
{
    if 0 <= c < t.len() && t[c] != ',' && t[c] != ']' {
        scalar_end(t, c + 1)
    } else {
        c
    }
}

pub proof fn lemma_scalar_end(t: Seq<char>, c: int)
    requires
        0 <= c <= t.len(),
    ensures
        c <= scalar_end(t, c) <= t.len(),
    decreases t.len() - c,
{
    if c < t.len() && t[c] != ',' && t[c] != ']' {
        lemma_scalar_end(t, c + 1);
    }
}

/// The trimmed text up to the next `,` or
/// `]`; an empty item is refused.
pub open spec fn unquoted_scalar_at(t: Seq<char>, start: int) -> Option<(Seq<char>, int)> {
    let e = scalar_end(t, start);
    if trim(t.subrange(start, e)).len() == 0 {
        None
    } else {
        Some((trim(t.subrange(start, e)), e))
    }
}

pub fn parse_inline_unquoted_scalar(value: &[char], start: usize) -> (r: Result<
    (Vec<char>, usize),
    (),
>)
    requires
        start <= value@.len(),
    ensures
        match r {
            Ok((v, e)) => unquoted_scalar_at(value@, start as int) == Some((v@, e as int)),
            Err(_) => unquoted_scalar_at(value@, start as int) is None,
        },
{
    let n = value.len();
    let mut c = start;
    while c < n && value[c] != ',' && value[c] != ']'
        invariant
            n == value@.len(),
            start <= c <= n,
            scalar_end(value@, start as int) == scalar_end(value@, c as int),
        decreases n - c,
    {
        c += 1;
    }
    let raw = slice_chars(value, start, c);
    let item = trim_chars(raw.as_slice());
    if item.len() == 0 {
        Err(())
    } else {
        Ok((item, c))
    }
}

/// The inline array item that starts at a position, with the position after it.
pub open spec fn array_item_at(t: Seq<char>, start: int) -> Option<(Seq<char>, int)> {
    if !(0 <= start < t.len()) || t[start] == '[' || t[start] == '{' {
        None
    } else if t[start] == '\'' || t[start] == '"' {
        string_literal_at(t, start)
    } else {
        unquoted_scalar_at(t, start)
    }
}

pub fn parse_inline_array_item(value: &[char], start: usize) -> (r: Result<(Vec<char>, usize), ()>)
    requires
        start <= value@.len(),
    ensures
        match r {
            Ok((v, e)) => array_item_at(value@, start as int) == Some((v@, e as int)),
            Err(_) => array_item_at(value@, start as int) is None,
        },
{
    if start >= value.len() || value[start] == '[' || value[start] == '{' {
        return Err(());
    }
    if value[start] == '\'' || value[start] == '"' {
        parse_inline_string_literal(value, start)
    } else {
        parse_inline_unquoted_scalar(value, start)
    }
}

pub proof fn lemma_array_item_end(t: Seq<char>, start: int)
    requires
        0 <= start <= t.len(),
    ensures
        array_item_at(t, start) matches Some((_, e)) ==> start < e <= t.len(),
{
    if start < t.len() {
        crate::vite_config::lemma_string_body(t, start + 1, t[start], false);
        lemma_scalar_end(t, start);
        if scalar_end(t, start) == start {
            assert(t.subrange(start, start).len() == 0);
            assert(trim(t.subrange(start, start)).len() == 0);
        }
    }
}

/// The items of an inline array from `c` on (just after `[` or `,`).
pub open spec fn inline_items(t: Seq<char>, c: int) -> Option<Seq<Seq<char>>>
    decreases t.len() - c,
{
    let c1 = skip_inline(t, c);
    if c < 0 || c > t.len() || c1 >= t.len() {
        None
    } else if t[c1] == ']' {
        Some(seq![])
    } else {
        match array_item_at(t, c1) {
            None => None,
            Some((item, next)) => {
                let c2 = skip_inline(t, next);
                if c2 < t.len() && t[c2] == ',' {
                    proof {
                        lemma_skip_inline(t, c);
                        lemma_array_item_end(t, c1);
                        lemma_skip_inline(t, next);
                    }
                    match inline_items(t, c2 + 1) {
                        Some(rest) => Some(seq![item] + rest),
                        None => None,
                    }
                } else if c2 < t.len() && t[c2] == ']' {
                    Some(seq![item])
                } else {
                    None
                }
            },
        }
    }
}

/// `[a, 'b', "c"]`.
pub open spec fn inline_package_array(t: Seq<char>) -> Option<Seq<Seq<char>>> {
    let c = skip_inline(t, 0);
    if c < t.len() && t[c] == '[' {
        inline_items(t, c + 1)
    } else {
        None
    }
}

/// The views of a list of character vectors.
pub open spec fn item_views(v: Seq<Vec<char>>) -> Seq<Seq<char>> {
    v.map_values(|x: Vec<char>| x@)
}


pub fn parse_inline_package_array(value: &[char]) -> (r: Result<Vec<String>, ()>)
    ensures
        match r {
            Ok(items) => inline_package_array(value@) == Some(string_views(items@)),
            Err(_) => inline_package_array(value@) is None,
        },
{
    let n = value.len();
    proof {
        lemma_skip_inline(value@, 0);
    }
    let c0 = skip_inline_ws(value, 0);
    if !(c0 < n && value[c0] == '[') {
        return Err(());
    }
    let mut cursor = c0 + 1;
    let mut packages: Vec<String> = Vec::new();
    loop
        invariant
            n == value@.len(),
            cursor <= n,
            inline_package_array(value@) == match inline_items(value@, cursor as int) {
                Some(rest) => Some(string_views(packages@) + rest),
                None => None,
            },
        decreases n - cursor,
    {
        proof {
            lemma_skip_inline(value@, cursor as int);
        }
        let c1 = skip_inline_ws(value, cursor);
        if c1 >= n {
            return Err(());
        }
        if value[c1] == ']' {
            assert(string_views(packages@) + seq![] =~= string_views(packages@));
            return Ok(packages);
        }
        proof {
            lemma_array_item_end(value@, c1 as int);
        }
        let (item, next) = match parse_inline_array_item(value, c1) {
            Ok(x) => x,
            Err(_) => {
                return Err(());
            },
        };
        proof {
            lemma_skip_inline(value@, next as int);
        }
        let c2 = skip_inline_ws(value, next);
        let ghost before = string_views(packages@);
        packages.push(string_from(item.as_slice()));
        assert(string_views(packages@) =~= before.push(item@));
        if c2 < n && value[c2] == ',' {
            proof {
                match inline_items(value@, c2 + 1) {
                    Some(rest) => {
                        assert(before + (seq![item@] + rest) =~= string_views(packages@) + rest);
                    },
                    None => {},
                }
            }
            cursor = c2 + 1;
        } else if c2 < n && value[c2] == ']' {
            assert(before + seq![item@] =~= string_views(packages@));
            return Ok(packages);
        } else {
            return Err(());
        }
    }
}

// ---------------------------------------------------------------------
// The packages block
// ---------------------------------------------------------------------

/// A line without its comment and trailing whitespace.
pub open spec fn line_content(line: Seq<char>) -> Seq<char> {
    trim_end(without_comment(line))
}

/// The number of leading whitespace characters.
pub open spec fn indent(line: Seq<char>) -> int
    decreases line.len(),
{
    if line.len() > 0 && is_ws(line[0]) {
        1 + indent(line.drop_first())
    } else {
        0
    }
}

/// The block list under `packages:`, from line `j` on: more-indented
/// `- item` lines; blank lines are skipped, a line indented no more than
/// the key ends the block, and any other line is refused.
pub open spec fn block_items(ls: Seq<Seq<char>>, j: int, base: int) -> Option<Seq<Seq<char>>>
    decreases ls.len() - j,
{
    if j < 0 || j >= ls.len() {
        Some(seq![])
    } else {
        let content = line_content(ls[j]);
        if trim(content).len() == 0 {
            block_items(ls, j + 1, base)
        } else if indent(ls[j]) <= base {
            Some(seq![])
        } else {
            let c = trim_start(content);
            if starts_with(c, "- "@) {
                let item = trim(c.skip(2));
                if item.len() > 0 && (item[0] == '[' || item[0] == '{') {
                    None
                } else {
                    match block_items(ls, j + 1, base) {
                        Some(rest) => if item.len() > 0 {
                            Some(seq![item] + rest)
                        } else {
                            Some(rest)
                        },
                        None => None,
                    }
                }
            } else {
                None
            }
        }
    }
}

/// The scan for the `packages:` key from line `i` on.
pub open spec fn packages_scan(ls: Seq<Seq<char>>, i: int) -> Option<Seq<Seq<char>>>
    decreases ls.len() - i,
{
    if i < 0 || i >= ls.len() {
        Some(seq![])
    } else {
        let content = line_content(ls[i]);
        let head = trim_start(content);
        if trim(content).len() == 0 || !starts_with(head, "packages:"@) {
            packages_scan(ls, i + 1)
        } else {
            let rest = trim(head.skip(9));
            if rest == "[]"@ {
                Some(seq![])
            } else if rest.len() > 0 && rest[0] == '[' {
                inline_package_array(rest)
            } else if rest.len() > 0 {
                None
            } else {
                block_items(ls, i + 1, indent(ls[i]))
            }
        }
    }
}

/// The package globs of a
/// `pnpm-workspace.yaml`; a file without a `packages:` key has none.
pub open spec fn pnpm_workspace_packages(text: Seq<char>) -> Option<Seq<Seq<char>>> {
    packages_scan(lines(text), 0)
}

fn indent_of(line: &[char]) -> (r: usize)
    ensures
        r == indent(line@),
{
    let mut i: usize = 0;
    assert(line@.skip(0) =~= line@);
    while i < line.len() && is_whitespace(line[i])
        invariant
            i <= line@.len(),
            indent(line@) == i + indent(line@.skip(i as int)),
        decreases line@.len() - i,
    {
        proof {
            assert(line@.skip(i as int).drop_first() =~= line@.skip(i + 1));
        }
        i += 1;
    }
    proof {
        if i < line@.len() {
            assert(line@.skip(i as int)[0] == line@[i as int]);
        }
    }
    i
}

fn line_content_of(line: &[char]) -> (out: Vec<char>)
    ensures
        out@ == line_content(line@),
{
    let s = strip_inline_comment(line);
    trim_end_chars(s.as_slice())
}

fn block_items_exec(ls: &Vec<Vec<char>>, start: usize, base: usize) -> (r: Result<Vec<String>, ()>)
    requires
        start <= ls@.len(),
    ensures
        match r {
            Ok(items) => block_items(item_views(ls@), start as int, base as int) == Some(
                string_views(items@),
            ),
            Err(_) => block_items(item_views(ls@), start as int, base as int) is None,
        },
{
    let ghost views = item_views(ls@);
    let mut items: Vec<String> = Vec::new();
    let mut j = start;
    while j < ls.len()
        invariant
            start <= j <= ls@.len(),
            views == item_views(ls@),
            block_items(views, start as int, base as int) == match block_items(
                views,
                j as int,
                base as int,
            ) {
                Some(rest) => Some(string_views(items@) + rest),
                None => None,
            },
        decreases ls@.len() - j,
    {
        let line = &ls[j];
        assert(views[j as int] == line@);
        let content = line_content_of(line.as_slice());
        let whole = trim_chars(content.as_slice());
        if whole.len() == 0 {
            j += 1;
            continue;
        }
        if indent_of(line.as_slice()) <= base {
            assert(string_views(items@) + seq![] =~= string_views(items@));
            return Ok(items);
        }
        let c = trim_start_chars(content.as_slice());
        if !starts_with_str(c.as_slice(), "- ") {
            return Err(());
        }
        proof {
            reveal_strlit("- ");
        }
        let after = slice_chars(c.as_slice(), 2, c.len());
        let item = trim_chars(after.as_slice());
        if item.len() > 0 && (item[0] == '[' || item[0] == '{') {
            return Err(());
        }
        if item.len() > 0 {
            let ghost before = string_views(items@);
            items.push(string_from(item.as_slice()));
            proof {
                assert(string_views(items@) =~= before.push(item@));
                match block_items(views, j + 1, base as int) {
                    Some(rest) => {
                        assert(before + (seq![item@] + rest) =~= string_views(items@) + rest);
                    },
                    None => {},
                }
            }
        }
        j += 1;
    }
    assert(string_views(items@) + seq![] =~= string_views(items@));
    Ok(items)
}

pub fn parse_pnpm_workspace_packages(text: &str) -> (r: Result<Vec<String>, ()>)
    ensures
        match r {
            Ok(items) => pnpm_workspace_packages(text@) == Some(string_views(items@)),
            Err(_) => pnpm_workspace_packages(text@) is None,
        },
{
    let chars = crate::text::chars_of(text);
    let ls = lines_of(chars.as_slice());
    let ghost views = item_views(ls@);
    assert(views =~= lines(text@));
    let mut i: usize = 0;
    while i < ls.len()
        invariant
            i <= ls@.len(),
            views == item_views(ls@),
            views == lines(text@),
            pnpm_workspace_packages(text@) == packages_scan(views, i as int),
        decreases ls@.len() - i,
    {
        let line = &ls[i];
        assert(views[i as int] == line@);
        let content = line_content_of(line.as_slice());
        let whole = trim_chars(content.as_slice());
        let head = trim_start_chars(content.as_slice());
        if whole.len() == 0 || !starts_with_str(head.as_slice(), "packages:") {
            i += 1;
            continue;
        }
        proof {
            reveal_strlit("packages:");
        }
        let after = slice_chars(head.as_slice(), 9, head.len());
        let rest = trim_chars(after.as_slice());
        if chars_eq_str(rest.as_slice(), "[]") {
            return Ok(Vec::new());
        }
        if rest.len() > 0 && rest[0] == '[' {
            return parse_inline_package_array(rest.as_slice());
        }
        if rest.len() > 0 {
            return Err(());
        }
        let base = indent_of(line.as_slice());
        return block_items_exec(&ls, i + 1, base);
    }
    Ok(Vec::new())
}

// ---------------------------------------------------------------------
// turbo.json
// ---------------------------------------------------------------------

/// A non-empty `tasks` or `pipeline`
/// map.
pub open spec fn turbo_substantial(config: JsonValue) -> bool {
    &&& config is Object
    &&& (non_empty_object_member(config, "tasks"@) || non_empty_object_member(
        config,
        "pipeline"@,
    ))
}

fn non_empty_member(config: &JsonValue, key: &str) -> (r: bool)
    ensures
        r == non_empty_object_member(*config, key@),
{
    match get(config, key) {
        Some(JsonValue::Object(m)) => m.len() > 0,
        _ => false,
    }
}

pub fn turbo_workspace_is_substantial(config: &JsonValue) -> (r: bool)
    ensures
        r == turbo_substantial(*config),
{
    match config {
        JsonValue::Object(_) => non_empty_member(config, "tasks") || non_empty_member(
            config,
            "pipeline",
        ),
        _ => false,
    }
}


// ---------------------------------------------------------------------
// Findings
// ---------------------------------------------------------------------

/// What is wrong with a workspace file.
#[derive(PartialEq, Eq, Structural, Clone, Copy, Debug)]
pub enum WorkspaceIssue {
    /// `pnpm-workspace.yaml` has a shape the parser refuses.
    PnpmUnparsable,
    /// No package globs, in a repository with at most one package file.
    PnpmPlaceholder,
    /// No package globs.
    PnpmNoPatterns,
    /// `turbo.json` is not valid JSONC.
    TurboUnparsable,
    /// `turbo.json` declares no tasks.
    TurboNoTasks,
}

/// The finding for a parsed `pnpm-workspace.yaml`, given how many package
/// files the project has.
pub fn pnpm_workspace_issue(parsed: &Result<Vec<String>, ()>, package_file_count: usize) -> (r:
    Option<WorkspaceIssue>)
    ensures
        r == (match parsed {
            Err(_) => Some(WorkspaceIssue::PnpmUnparsable),
            Ok(items) => if items@.len() > 0 {
                None
            } else if package_file_count <= 1 {
                Some(WorkspaceIssue::PnpmPlaceholder)
            } else {
                Some(WorkspaceIssue::PnpmNoPatterns)
            },
        }),
{
    match parsed {
        Err(_) => Some(WorkspaceIssue::PnpmUnparsable),
        Ok(items) => {
            if items.len() > 0 {
                None
            } else if package_file_count <= 1 {
                Some(WorkspaceIssue::PnpmPlaceholder)
            } else {
                Some(WorkspaceIssue::PnpmNoPatterns)
            }
        },
    }
}

/// The finding for a `turbo.json`, given its parsed document (nothing when
/// it does not parse).
pub fn turbo_workspace_issue(config: Option<&JsonValue>) -> (r: Option<WorkspaceIssue>)
    ensures
        r == (match config {
            None => Some(WorkspaceIssue::TurboUnparsable),
            Some(c) => if turbo_substantial(*c) {
                None
            } else {
                Some(WorkspaceIssue::TurboNoTasks)
            },
        }),
{
    match config {
        None => Some(WorkspaceIssue::TurboUnparsable),
        Some(c) => if turbo_workspace_is_substantial(c) {
            None
        } else {
            Some(WorkspaceIssue::TurboNoTasks)
        },
    }
}

impl WorkspaceIssue {
    /// The finding's title.
    pub fn title(&self) -> (r: &'static str)
        ensures
            r == (match *self {
                WorkspaceIssue::PnpmUnparsable => "pnpm-workspace.yaml could not be parsed",
                WorkspaceIssue::PnpmPlaceholder => "pnpm-workspace.yaml does not declare any package patterns",
                WorkspaceIssue::PnpmNoPatterns => "pnpm-workspace.yaml does not declare any package patterns",
                WorkspaceIssue::TurboUnparsable => "turbo.json could not be parsed",
                WorkspaceIssue::TurboNoTasks => "turbo.json does not declare any workspace tasks",
            }),
    {
        match self {
            WorkspaceIssue::PnpmUnparsable => "pnpm-workspace.yaml could not be parsed",
            WorkspaceIssue::PnpmPlaceholder => "pnpm-workspace.yaml does not declare any package patterns",
            WorkspaceIssue::PnpmNoPatterns => "pnpm-workspace.yaml does not declare any package patterns",
            WorkspaceIssue::TurboUnparsable => "turbo.json could not be parsed",
            WorkspaceIssue::TurboNoTasks => "turbo.json does not declare any workspace tasks",
        }
    }

    /// The finding's detail.
    pub fn detail(&self) -> (r: &'static str)
        ensures
            r == (match *self {
                WorkspaceIssue::PnpmUnparsable => "The file uses a pnpm-workspace.yaml shape that this check does not understand.",
                WorkspaceIssue::PnpmPlaceholder => "No package globs were found under packages:, and this repo has at most one package file, so the workspace file looks like a placeholder.",
                WorkspaceIssue::PnpmNoPatterns => "No package globs were found under packages:, so workspace packages are not declared yet.",
                WorkspaceIssue::TurboUnparsable => "The turbo.json file is not valid JSONC.",
                WorkspaceIssue::TurboNoTasks => "The file does not contain any task definitions that would make the workspace config meaningful.",
            }),
    {
        match self {
            WorkspaceIssue::PnpmUnparsable => "The file uses a pnpm-workspace.yaml shape that this check does not understand.",
            WorkspaceIssue::PnpmPlaceholder => "No package globs were found under packages:, and this repo has at most one package file, so the workspace file looks like a placeholder.",
            WorkspaceIssue::PnpmNoPatterns => "No package globs were found under packages:, so workspace packages are not declared yet.",
            WorkspaceIssue::TurboUnparsable => "The turbo.json file is not valid JSONC.",
            WorkspaceIssue::TurboNoTasks => "The file does not contain any task definitions that would make the workspace config meaningful.",
        }
    }

    /// The finding's hint.
    pub fn hint(&self) -> (r: &'static str)
        ensures
            r == (match *self {
                WorkspaceIssue::PnpmUnparsable => "Use a simple packages: block list such as packages: [\"apps/*\", \"packages/*\"].",
                WorkspaceIssue::PnpmPlaceholder => "Add a packages: block with one or more workspace globs, or remove the file until the repo actually needs a workspace definition.",
                WorkspaceIssue::PnpmNoPatterns => "Add a packages: block with one or more workspace globs, or remove the file until the repo actually needs a workspace definition.",
                WorkspaceIssue::TurboUnparsable => "Fix the syntax error or replace the placeholder file with a real Turbo config.",
                WorkspaceIssue::TurboNoTasks => "Add a non-empty tasks or pipeline map, or remove the placeholder turbo.json until the workspace needs it.",
            }),
    {
        match self {
            WorkspaceIssue::PnpmUnparsable => "Use a simple packages: block list such as packages: [\"apps/*\", \"packages/*\"].",
            WorkspaceIssue::PnpmPlaceholder => "Add a packages: block with one or more workspace globs, or remove the file until the repo actually needs a workspace definition.",
            WorkspaceIssue::PnpmNoPatterns => "Add a packages: block with one or more workspace globs, or remove the file until the repo actually needs a workspace definition.",
            WorkspaceIssue::TurboUnparsable => "Fix the syntax error or replace the placeholder file with a real Turbo config.",
            WorkspaceIssue::TurboNoTasks => "Add a non-empty tasks or pipeline map, or remove the placeholder turbo.json until the workspace needs it.",
        }
    }
}

} // verus!
