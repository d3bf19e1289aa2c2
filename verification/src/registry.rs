//! The check registry, check filters, severity overrides, config
//! suppressions, and the env-file-name test used when ignore patterns are
//! re-applied to env discovery.
use vstd::prelude::*;

use crate::paths::{path_to_slash_string, slash_text, strip_root, strip_root_text};
use crate::text::{
    chars_eq, chars_of, join_chars, join_with, replace_char, replace_char_chars, split_char, split_char_chars, starts_with,
    starts_with_chars, string_from, string_views, trim, trim_chars, trim_end_char,
    trim_end_char_chars, trim_start_char, trim_start_char_chars, trim_start_pat,
    trim_start_pat_chars,
};

verus! {

/// How loudly a finding is reported.
#[derive(Clone, Copy, Debug, PartialEq, Eq, Structural)]
pub enum Severity {
    Error,
    Warn,
    Info,
}

/// The ids of the registered checks, in the order they run.
pub open spec fn spec_registered_check_ids() -> Seq<Seq<char>> {
    seq![
        "duplicates"@,
        "env"@,
        "eslint-prettier"@,
        "tsconfig"@,
        "module-system"@,
        "monorepo-tsconfig"@,
        "jsx-config"@,
        "lockfiles"@,
        "package-entrypoints"@,
        "vite-tsconfig-alias"@,
        "workspace-config"@,
        "test-runner-config"@,
        "editorconfig-prettier"@,
        "ignore-drift"@,
        "node-matrix"@,
        "npmignore-files"@,
    ]
}

/// The ids of all registered checks, in run order.
pub fn registered_check_ids() -> (ids: &'static [&'static str])
    ensures
        ids@.len() == spec_registered_check_ids().len(),
        forall|k: int| 0 <= k < ids@.len() ==> #[trigger] ids@[k]@ == spec_registered_check_ids()[k],
{
    let ids: &'static [&'static str] = &[
        "duplicates",
        "env",
        "eslint-prettier",
        "tsconfig",
        "module-system",
        "monorepo-tsconfig",
        "jsx-config",
        "lockfiles",
        "package-entrypoints",
        "vite-tsconfig-alias",
        "workspace-config",
        "test-runner-config",
        "editorconfig-prettier",
        "ignore-drift",
        "node-matrix",
        "npmignore-files",
    ];
    ids
}

/// A check runs when `only` is empty or names it, and `skip` does not name it.
pub open spec fn check_runs(id: Seq<char>, only: Seq<Seq<char>>, skip: Seq<Seq<char>>) -> bool {
    (only.len() == 0 || only.contains(id)) && !skip.contains(id)
}

fn list_contains(list: &[String], id: &[char]) -> (r: bool)
    ensures
        r == string_views(list@).contains(id@),
{
    let mut i: usize = 0;
    while i < list.len()
        invariant
            i <= list@.len(),
            forall|k: int| 0 <= k < i ==> list@[k]@ != id@,
        decreases list@.len() - i,
    {
        let c = chars_of(list[i].as_str());
        if chars_eq(c.as_slice(), id) {
            assert(string_views(list@)[i as int] == id@);
            return true;
        }
        i += 1;
    }
    assert(!string_views(list@).contains(id@)) by {
        if string_views(list@).contains(id@) {
            let k = choose|k: int| 0 <= k < list@.len() && string_views(list@)[k] == id@;
            assert(list@[k]@ == id@);
        }
    }
    false
}

/// Whether a check runs: it is in `only` (or `only` is empty) and not in
/// `skip`.
pub fn should_run_check(id: &str, only: &[String], skip: &[String]) -> (r: bool)
    ensures
        r == check_runs(id@, string_views(only@), string_views(skip@)),
{
    let c = chars_of(id);
    let allowed = only.len() == 0 || list_contains(only, c.as_slice());
    let skipped = list_contains(skip, c.as_slice());
    allowed && !skipped
}

// ---------------------------------------------------------------------
// Severity overrides
// ---------------------------------------------------------------------

/// An override key applies to a finding id when it is not blank and prefixes the id.
pub open spec fn override_applies(key: Seq<char>, id: Seq<char>) -> bool {
    trim(key).len() > 0 && starts_with(id, key)
}

/// The override that wins for a finding id: the applicable key that is
/// longest, the later one among equally long keys.
pub open spec fn winning_override(id: Seq<char>, keys: Seq<Seq<char>>) -> Option<int>
    decreases keys.len(),
{
    if keys.len() == 0 {
        None
    } else {
        let before = winning_override(id, keys.drop_last());
        if override_applies(keys.last(), id) && (before is None || keys[before->0].len()
            <= keys.last().len()) {
            Some(keys.len() - 1)
        } else {
            before
        }
    }
}

pub proof fn lemma_winning_override(id: Seq<char>, keys: Seq<Seq<char>>)
    ensures
        winning_override(id, keys) matches Some(i) ==> 0 <= i < keys.len() && override_applies(
            keys[i],
            id,
        ) && forall|j: int|
            0 <= j < keys.len() && override_applies(keys[j], id) ==> keys[j].len() <= keys[i].len(),
        winning_override(id, keys) is None ==> forall|j: int|
            0 <= j < keys.len() ==> !override_applies(keys[j], id),
    decreases keys.len(),
{
    if keys.len() > 0 {
        let d = keys.drop_last();
        lemma_winning_override(id, d);
        assert forall|j: int| 0 <= j < d.len() implies keys[j] == d[j] by {}
    }
}

pub open spec fn override_keys(v: Seq<(String, Severity)>) -> Seq<Seq<char>> {
    v.map_values(|e: (String, Severity)| e.0@)
}

/// The severity a finding gets from the configured overrides, if any
/// applies: the level of the longest non-blank key that prefixes the id.
pub fn severity_override_for(finding_id: &str, overrides: &[(String, Severity)]) -> (r: Option<Severity>)
    ensures
        match winning_override(finding_id@, override_keys(overrides@)) {
            Some(i) => r == Some(overrides@[i].1),
            None => r is None,
        },
        r is Some ==> exists|i: int|
            0 <= i < overrides@.len() && override_applies(overrides@[i].0@, finding_id@) && r
                == Some(overrides@[i].1) && forall|j: int|
                0 <= j < overrides@.len() && override_applies(overrides@[j].0@, finding_id@)
                    ==> overrides@[j].0@.len() <= overrides@[i].0@.len(),
{
    let id = chars_of(finding_id);
    let ghost keys = override_keys(overrides@);
    let mut best: Option<usize> = None;
    let mut best_len: usize = 0;
    let mut i: usize = 0;
    while i < overrides.len()
        invariant
            i <= overrides@.len(),
            keys == override_keys(overrides@),
            id@ == finding_id@,
            match best {
                Some(b) => winning_override(id@, keys.take(i as int)) == Some(b as int) && b < i
                    && best_len == keys[b as int].len(),
                None => winning_override(id@, keys.take(i as int)) is None,
            },
        decreases overrides@.len() - i,
    {
        proof {
            assert(keys.take(i + 1).drop_last() =~= keys.take(i as int));
            assert(keys.take(i + 1).last() == overrides@[i as int].0@);
        }
        let key = chars_of(overrides[i].0.as_str());
        let t = trim_chars(key.as_slice());
        if t.len() > 0 && starts_with_chars(id.as_slice(), key.as_slice()) {
            let better = match best {
                None => true,
                Some(_) => best_len <= key.len(),
            };
            if better {
                best = Some(i);
                best_len = key.len();
            }
        }
        i += 1;
    }
    assert(keys.take(overrides@.len() as int) =~= keys);
    proof {
        lemma_winning_override(finding_id@, keys);
        assert forall|j: int| 0 <= j < overrides@.len() implies #[trigger] keys[j] == overrides@[j].0@ by {}
        if let Some(b) = best {
            assert(override_applies(overrides@[b as int].0@, finding_id@));
            assert forall|j: int|
                0 <= j < overrides@.len() && override_applies(overrides@[j].0@, finding_id@)
                    implies overrides@[j].0@.len() <= overrides@[b as int].0@.len() by {
                assert(keys[j] == overrides@[j].0@);
            }
        }
    }
    match best {
        Some(b) => Some(overrides[b].1),
        None => None,
    }
}

/// Configured levels map one to one.
pub fn config_severity_to_runtime(level: &Severity) -> (r: Severity)
    ensures
        r == *level,
{
    match level {
        Severity::Error => Severity::Error,
        Severity::Warn => Severity::Warn,
        Severity::Info => Severity::Info,
    }
}

// ---------------------------------------------------------------------
// Config suppressions
// ---------------------------------------------------------------------

/// A configured file prefix after trimming, slash normalization, dropping
/// leading `./` runs and trailing slashes; blank prefixes give nothing.
pub open spec fn normalized_prefix(value: Seq<char>) -> Option<Seq<char>> {
    let n = trim_end_char(trim_start_pat(replace_char(trim(value), '\\', '/'), seq!['.', '/']), '/');
    if n.len() == 0 {
        None
    } else {
        Some(n)
    }
}

/// A suppression's file prefix with `/` for `\`, without leading `./` and trailing `/`; none when nothing is left.
pub fn normalize_file_prefix(value: &str) -> (out: Option<String>)
    ensures
        match out {
            Some(s) => normalized_prefix(value@) == Some(s@),
            None => normalized_prefix(value@) is None,
        },
{
    let v = chars_of(value);
    let t = trim_chars(v.as_slice());
    let r = replace_char_chars(t.as_slice(), '\\', '/');
    let dot_slash: Vec<char> = vec!['.', '/'];
    assert(dot_slash@ =~= seq!['.', '/']);
    let s = trim_start_pat_chars(r.as_slice(), dot_slash.as_slice());
    let n = trim_end_char_chars(s.as_slice(), '/');
    if n.len() == 0 {
        None
    } else {
        Some(string_from(n.as_slice()))
    }
}

/// The path is the prefix itself or lies below it.
pub open spec fn matches_prefix(path: Seq<char>, prefix: Seq<char>) -> bool {
    path == prefix || (starts_with(path, prefix) && path.len() > prefix.len() && path[prefix.len() as int]
        == '/')
}

fn path_matches_prefix_chars(path: &[char], prefix: &[char]) -> (r: bool)
    ensures
        r == matches_prefix(path@, prefix@),
{
    chars_eq(path, prefix) || (starts_with_chars(path, prefix) && path.len() > prefix.len()
        && path[prefix.len()] == '/')
}

/// Whether a path equals the prefix or lies below it.
pub fn path_matches_prefix(path: &str, prefix: &str) -> (r: bool)
    ensures
        r == matches_prefix(path@, prefix@),
{
    let p = chars_of(path);
    let q = chars_of(prefix);
    path_matches_prefix_chars(p.as_slice(), q.as_slice())
}

/// Append the candidate unless it is already listed.
pub fn push_unique_candidate(candidates: &mut Vec<String>, candidate: String)
    ensures
        string_views(final(candidates)@) == if string_views(old(candidates)@).contains(candidate@) {
            string_views(old(candidates)@)
        } else {
            string_views(old(candidates)@).push(candidate@)
        },
{
    let c = chars_of(candidate.as_str());
    let present = list_contains(candidates.as_slice(), c.as_slice());
    if !present {
        let ghost before = candidates@;
        candidates.push(candidate);
        assert(string_views(candidates@) =~= string_views(before).push(c@));
    }
}

/// A suppression hides a finding when the ids agree and, if it names a file
/// prefix that normalizes to something, the finding has a file one of whose
/// path candidates lies under that prefix.
pub open spec fn suppression_hides(
    suppression_id: Seq<char>,
    file_prefix: Option<Seq<char>>,
    finding_id: Seq<char>,
    file_candidates: Option<Seq<Seq<char>>>,
) -> bool {
    suppression_id == finding_id && match file_prefix {
        None => true,
        Some(raw) => match normalized_prefix(raw) {
            None => true,
            Some(prefix) => file_candidates is Some && some_under_prefix(file_candidates->0, prefix),
        },
    }
}

/// Some candidate path is the prefix or lies below it.
pub open spec fn some_under_prefix(cs: Seq<Seq<char>>, prefix: Seq<char>) -> bool {
    exists|k: int| 0 <= k < cs.len() && #[trigger] matches_prefix(cs[k], prefix)
}

pub open spec fn opt_view(o: Option<String>) -> Option<Seq<char>> {
    match o {
        Some(s) => Some(s@),
        None => None,
    }
}

/// Whether a configured suppression hides a finding; `file_candidates`
/// are the spellings of the finding's file (none when it has no file).
pub fn suppression_matches(
    suppression_id: &str,
    file_prefix: Option<String>,
    finding_id: &str,
    file_candidates: Option<&[String]>,
) -> (r: bool)
    ensures
        r == suppression_hides(
            suppression_id@,
            opt_view(file_prefix),
            finding_id@,
            match file_candidates {
                Some(cs) => Some(string_views(cs@)),
                None => None,
            },
        ),
{
    let a = chars_of(suppression_id);
    let b = chars_of(finding_id);
    if !chars_eq(a.as_slice(), b.as_slice()) {
        return false;
    }
    let raw = match file_prefix {
        Some(p) => p,
        None => {
            return true;
        },
    };
    let prefix = match normalize_file_prefix(raw.as_str()) {
        Some(p) => chars_of(p.as_str()),
        None => {
            return true;
        },
    };
    let cs = match file_candidates {
        Some(cs) => cs,
        None => {
            return false;
        },
    };
    let mut i: usize = 0;
    while i < cs.len()
        invariant
            i <= cs@.len(),
            suppression_id@ == finding_id@,
            opt_view(file_prefix) == Some(raw@),
            normalized_prefix(raw@) == Some(prefix@),
            file_candidates == Some(cs),
            forall|k: int| 0 <= k < i ==> !matches_prefix(#[trigger] string_views(cs@)[k], prefix@),
        decreases cs@.len() - i,
    {
        let c = chars_of(cs[i].as_str());
        if path_matches_prefix_chars(c.as_slice(), prefix.as_slice()) {
            assert(matches_prefix(string_views(cs@)[i as int], prefix@));
            assert(exists|k: int|
                0 <= k < string_views(cs@).len() && #[trigger] matches_prefix(string_views(cs@)[k], prefix@));
            assert(normalized_prefix(raw@) == Some(prefix@));
            assert(some_under_prefix(string_views(cs@), prefix@));
            assert(suppression_hides(suppression_id@, Some(raw@), finding_id@, Some(string_views(cs@))));
            return true;
        }
        i += 1;
    }
    false
}

/// Some configured suppression, given as its id
/// and optional file prefix, hides the finding.
pub open spec fn suppressed_by_any(
    suppressions: Seq<(Seq<char>, Option<Seq<char>>)>,
    finding_id: Seq<char>,
    file_candidates: Option<Seq<Seq<char>>>,
) -> bool {
    exists|i: int|
        0 <= i < suppressions.len() && #[trigger] suppression_hides(
            suppressions[i].0,
            suppressions[i].1,
            finding_id,
            file_candidates,
        )
}

pub open spec fn suppression_views(v: Seq<(String, Option<String>)>) -> Seq<(Seq<char>, Option<Seq<char>>)> {
    v.map_values(|x: (String, Option<String>)| (x.0@, opt_view(x.1)))
}

pub open spec fn candidate_views(o: Option<&[String]>) -> Option<Seq<Seq<char>>> {
    match o {
        Some(cs) => Some(string_views(cs@)),
        None => None,
    }
}

pub fn is_suppressed_by_config(
    suppressions: &[(String, Option<String>)],
    finding_id: &str,
    file_candidates: Option<&[String]>,
) -> (r: bool)
    ensures
        r == suppressed_by_any(suppression_views(suppressions@), finding_id@, candidate_views(file_candidates)),
{
    let ghost sv = suppression_views(suppressions@);
    let ghost cv = candidate_views(file_candidates);
    let mut i: usize = 0;
    while i < suppressions.len()
        invariant
            i <= suppressions@.len(),
            sv == suppression_views(suppressions@),
            cv == candidate_views(file_candidates),
            forall|k: int| 0 <= k < i ==> !#[trigger] suppression_hides(sv[k].0, sv[k].1, finding_id@, cv),
        decreases suppressions@.len() - i,
    {
        let (id, prefix) = &suppressions[i];
        let hit = suppression_matches(id.as_str(), prefix.clone(), finding_id, file_candidates);
        assert(sv[i as int] == (id@, opt_view(*prefix)));
        if hit {
            assert(suppression_hides(sv[i as int].0, sv[i as int].1, finding_id@, cv));
            return true;
        }
        i += 1;
    }
    false
}

/// A candidate added unless already listed.
pub open spec fn push_unique(cs: Seq<Seq<char>>, c: Seq<char>) -> Seq<Seq<char>> {
    if cs.contains(c) {
        cs
    } else {
        cs.push(c)
    }
}

/// The file's path below the root, when it lies there, added.
pub open spec fn push_stripped(cs: Seq<Seq<char>>, file: Seq<char>, root: Seq<char>) -> Seq<Seq<char>> {
    match strip_root(file, root) {
        Some(rel) => push_unique(cs, slash_text(rel)),
        None => cs,
    }
}

/// The file below the root as given, then, when
/// both canonical paths are known, below the canonical root.
pub open spec fn push_relative(
    cs: Seq<Seq<char>>,
    file: Seq<char>,
    canonical_file: Option<Seq<char>>,
    root: (Seq<char>, Option<Seq<char>>),
) -> Seq<Seq<char>> {
    let a = push_stripped(cs, file, root.0);
    match (canonical_file, root.1) {
        (Some(cf), Some(cr)) => push_stripped(a, cf, cr),
        _ => a,
    }
}

/// The texts a finding's file is matched under, over the first `n` roots: the file's own
/// text, its canonical path when known, then its paths relative to each
/// root.
pub open spec fn candidates_upto(
    file: Seq<char>,
    canonical_file: Option<Seq<char>>,
    roots: Seq<(Seq<char>, Option<Seq<char>>)>,
    n: int,
) -> Seq<Seq<char>>
    decreases n,
{
    if n <= 0 {
        match canonical_file {
            Some(c) => push_unique(seq![slash_text(file)], slash_text(c)),
            None => seq![slash_text(file)],
        }
    } else {
        push_relative(candidates_upto(file, canonical_file, roots, n - 1), file, canonical_file, roots[n - 1])
    }
}

fn push_stripped_exec(candidates: &mut Vec<String>, file: &str, root: &str)
    ensures
        string_views(final(candidates)@) == push_stripped(string_views(old(candidates)@), file@, root@),
{
    match strip_root_text(file, root) {
        Some(rel) => {
            let c = path_to_slash_string(rel.as_str());
            push_unique_candidate(candidates, c);
        },
        None => {},
    }
}

/// Adds the file's paths relative to a root, with the canonical paths of the file and the
/// root (`fs::canonicalize`) given when known.
pub fn push_relative_candidate(
    candidates: &mut Vec<String>,
    file: &str,
    canonical_file: Option<&str>,
    root: &str,
    canonical_root: Option<&str>,
)
    ensures
        string_views(final(candidates)@) == push_relative(
            string_views(old(candidates)@),
            file@,
            match canonical_file {
                Some(c) => Some(c@),
                None => None,
            },
            (
                root@,
                match canonical_root {
                    Some(c) => Some(c@),
                    None => None,
                },
            ),
        ),
{
    push_stripped_exec(candidates, file, root);
    match (canonical_file, canonical_root) {
        (Some(cf), Some(cr)) => push_stripped_exec(candidates, cf, cr),
        _ => {},
    }
}

/// The spellings under which a finding's file
/// is matched against suppression prefixes; the canonical paths
/// (`fs::canonicalize`) of the file and of each root are given when known.
pub fn finding_file_candidates(
    file: &str,
    canonical_file: Option<String>,
    roots: &[(String, Option<String>)],
) -> (out: Vec<String>)
    ensures
        string_views(out@) == candidates_upto(
            file@,
            opt_view(canonical_file),
            suppression_views(roots@),
            roots@.len() as int,
        ),
{
    let ghost rv = suppression_views(roots@);
    let mut out: Vec<String> = Vec::new();
    out.push(path_to_slash_string(file));
    assert(string_views(out@) =~= seq![slash_text(file@)]);
    match &canonical_file {
        Some(c) => push_unique_candidate(&mut out, path_to_slash_string(c.as_str())),
        None => {},
    }
    let mut i: usize = 0;
    while i < roots.len()
        invariant
            i <= roots@.len(),
            rv == suppression_views(roots@),
            string_views(out@) == candidates_upto(file@, opt_view(canonical_file), rv, i as int),
        decreases roots@.len() - i,
    {
        let (root, canonical_root) = &roots[i];
        assert(rv[i as int] == (root@, opt_view(*canonical_root)));
        let cf: Option<&str> = match &canonical_file {
            Some(c) => Some(c.as_str()),
            None => None,
        };
        let cr: Option<&str> = match canonical_root {
            Some(c) => Some(c.as_str()),
            None => None,
        };
        push_relative_candidate(&mut out, file, cf, root.as_str(), cr);
        i += 1;
    }
    out
}

// ---------------------------------------------------------------------
// Env file names under glob patterns
// ---------------------------------------------------------------------

/// The pattern starts with `.env` or `*.env`.
pub open spec fn env_specific(p: Seq<char>) -> bool {
    starts_with(p, seq!['.', 'e', 'n', 'v']) || starts_with(p, seq!['*', '.', 'e', 'n', 'v'])
}

pub fn is_env_specific_glob_pattern(pattern: &str) -> (r: bool)
    ensures
        r == env_specific(pattern@),
{
    let p = chars_of(pattern);
    let a: Vec<char> = vec!['.', 'e', 'n', 'v'];
    let b: Vec<char> = vec!['*', '.', 'e', 'n', 'v'];
    assert(a@ =~= seq!['.', 'e', 'n', 'v']);
    assert(b@ =~= seq!['*', '.', 'e', 'n', 'v']);
    starts_with_chars(p.as_slice(), a.as_slice()) || starts_with_chars(p.as_slice(), b.as_slice())
}

/// The recognizer of env file names: `.env` (state 4), or `.env.` followed
/// by one or more characters other than `/` (state 6).
pub open spec fn env_step(state: int, c: char) -> Option<int> {
    if state == 0 && c == '.' {
        Some(1)
    } else if state == 1 && c == 'e' {
        Some(2)
    } else if state == 2 && c == 'n' {
        Some(3)
    } else if state == 3 && c == 'v' {
        Some(4)
    } else if state == 4 && c == '.' {
        Some(5)
    } else if (state == 5 || state == 6) && c == '/' {
        None
    } else if state == 5 || state == 6 {
        Some(6)
    } else {
        None
    }
}

/// The next state of the env-file-name automaton after one character.
pub fn env_name_next_state(state: usize, character: char) -> (r: Option<usize>)
    ensures
        match r {
            Some(s) => env_step(state as int, character) == Some(s as int),
            None => env_step(state as int, character) is None,
        },
{
    if state == 0 && character == '.' {
        Some(1)
    } else if state == 1 && character == 'e' {
        Some(2)
    } else if state == 2 && character == 'n' {
        Some(3)
    } else if state == 3 && character == 'v' {
        Some(4)
    } else if state == 4 && character == '.' {
        Some(5)
    } else if (state == 5 || state == 6) && character == '/' {
        None
    } else if state == 5 || state == 6 {
        Some(6)
    } else {
        None
    }
}

/// The states one arbitrary character can lead to.
pub open spec fn env_wild_step(state: int) -> Seq<int> {
    if 0 <= state <= 5 {
        seq![state + 1]
    } else if state == 6 {
        seq![6]
    } else {
        seq![]
    }
}

/// The states the env-file-name automaton can reach from a state by reading any one or more characters.
pub fn env_name_wildcard_next_states(state: usize) -> (r: Vec<usize>)
    ensures
        r@.len() == env_wild_step(state as int).len(),
        forall|k: int| 0 <= k < r@.len() ==> r@[k] as int == #[trigger] env_wild_step(state as int)[k],
{
    if state <= 5 {
        vec![state + 1]
    } else if state == 6 {
        vec![6]
    } else {
        Vec::new()
    }
}

/// The states any run of arbitrary characters can lead to: the state itself
/// and every later state.
pub open spec fn env_reachable(state: int, target: int) -> bool {
    0 <= state <= target <= 6 || (state == target)
}

/// Reachable states as a table over the seven states.
pub fn env_name_wildcard_closure(state: usize) -> (r: [bool; 7])
    requires
        state < 7,
    ensures
        forall|t: int| 0 <= t < 7 ==> r@[t] == env_reachable(state as int, t),
{
    let mut reachable = [false; 7];
    let mut t: usize = state;
    while t < 7
        invariant
            state <= t <= 7,
            forall|k: int| 0 <= k < state ==> reachable@[k] == false,
            forall|k: int| state <= k < t ==> reachable@[k] == true,
            forall|k: int| t <= k < 7 ==> reachable@[k] == false,
        decreases 7 - t,
    {
        reachable[t] = true;
        t += 1;
    }
    reachable
}

/// Whether an automaton state ends an env file name.
pub open spec fn env_accepting(state: int) -> bool {
    state == 4 || state == 6
}

pub fn env_name_state_accepts(state: usize) -> (r: bool)
    ensures
        r == env_accepting(state as int),
{
    state == 4 || state == 6
}

/// Whether the glob suffix from index `i`, started in recognizer state
/// `state`, can reach an accepting state: `*` may move to any reachable
/// state, `?` takes one arbitrary character, other characters step.
pub open spec fn env_glob_reaches(p: Seq<char>, i: int, state: int) -> bool
    decreases p.len() - i,
{
    if i >= p.len() || i < 0 {
        env_accepting(state)
    } else if p[i] == '*' {
        (env_reachable(state, 0) && env_glob_reaches(p, i + 1, 0)) || (env_reachable(state, 1)
            && env_glob_reaches(p, i + 1, 1)) || (env_reachable(state, 2) && env_glob_reaches(
            p,
            i + 1,
            2,
        )) || (env_reachable(state, 3) && env_glob_reaches(p, i + 1, 3)) || (env_reachable(
            state,
            4,
        ) && env_glob_reaches(p, i + 1, 4)) || (env_reachable(state, 5) && env_glob_reaches(
            p,
            i + 1,
            5,
        )) || (env_reachable(state, 6) && env_glob_reaches(p, i + 1, 6))
    } else if p[i] == '?' {
        env_wild_step(state).len() > 0 && env_glob_reaches(p, i + 1, env_wild_step(state)[0])
    } else {
        match env_step(state, p[i]) {
            Some(t) => env_glob_reaches(p, i + 1, t),
            None => false,
        }
    }
}

/// Whether a glob can match a file name the env automaton accepts, from a
/// position and state; computed for all states at once from the end
/// of the pattern backwards.
pub fn env_name_glob_intersects(pattern: &[char], pattern_index: usize, env_state: usize) -> (r: bool)
    requires
        pattern_index <= pattern@.len(),
        env_state < 7,
    ensures
        r == env_glob_reaches(pattern@, pattern_index as int, env_state as int),
{
    let n = pattern.len();
    let mut row = [false; 7];
    let mut s: usize = 0;
    while s < 7
        invariant
            s <= 7,
            n == pattern@.len(),
            forall|k: int| 0 <= k < s ==> row@[k] == env_glob_reaches(pattern@, n as int, k),
        decreases 7 - s,
    {
        row[s] = env_name_state_accepts(s);
        s += 1;
    }
    let mut i: usize = n;
    while i > pattern_index
        invariant
            pattern_index <= i <= n,
            n == pattern@.len(),
            forall|k: int| 0 <= k < 7 ==> row@[k] == env_glob_reaches(pattern@, i as int, k),
        decreases i,
    {
        let pi = i - 1;
        let c = pattern[pi];
        let mut next = [false; 7];
        let mut st: usize = 0;
        while st < 7
            invariant
                st <= 7,
                pi + 1 == i,
                i <= n,
                n == pattern@.len(),
                c == pattern@[pi as int],
                forall|k: int| 0 <= k < 7 ==> row@[k] == env_glob_reaches(pattern@, i as int, k),
                forall|k: int| 0 <= k < st ==> next@[k] == env_glob_reaches(pattern@, pi as int, k),
            decreases 7 - st,
        {
            let val = if c == '*' {
                let closure = env_name_wildcard_closure(st);
                (closure[0] && row[0]) || (closure[1] && row[1]) || (closure[2] && row[2]) || (
                closure[3] && row[3]) || (closure[4] && row[4]) || (closure[5] && row[5]) || (
                closure[6] && row[6])
            } else if c == '?' {
                let nexts = env_name_wildcard_next_states(st);
                if nexts.len() > 0 {
                    let t = nexts[0];
                    assert(t as int == env_wild_step(st as int)[0]);
                    row[t]
                } else {
                    false
                }
            } else {
                match env_name_next_state(st, c) {
                    Some(t) => {
                        assert(t < 7);
                        row[t]
                    },
                    None => false,
                }
            };
            assert(val == env_glob_reaches(pattern@, pi as int, st as int));
            next[st] = val;
            st += 1;
        }
        row = next;
        i = pi;
    }
    row[env_state]
}

/// The glob can match some env file
/// name, run from the start of the pattern in the recognizer's start state.
pub fn glob_pattern_can_match_env_file_name(pattern: &str) -> (r: bool)
    ensures
        r == env_glob_reaches(pattern@, 0, 0),
{
    let p = chars_of(pattern);
    env_name_glob_intersects(p.as_slice(), 0, 0)
}

// ---------------------------------------------------------------------
// Applying suppressions
// ---------------------------------------------------------------------

/// The fix ids that some kept finding refers to.
pub open spec fn active_fix(kept: Seq<bool>, finding_fixes: Seq<Seq<Seq<char>>>, fix: Seq<char>) -> bool {
    exists|i: int| 0 <= i < kept.len() && kept[i] && #[trigger] finding_fixes[i].contains(fix)
}

/// A fix stays when nothing was suppressed or a kept finding names it.
pub open spec fn fix_stays(suppressed: int, kept: Seq<bool>, finding_fixes: Seq<Seq<Seq<char>>>, fix: Seq<char>) -> bool {
    suppressed == 0 || active_fix(kept, finding_fixes, fix)
}

/// The outcome of `apply_config_suppressions`: which findings, fixes and
/// planned fixes stay, and how many findings were suppressed.
pub struct SuppressionOutcome {
    pub kept_findings: Vec<bool>,
    pub kept_fixes: Vec<bool>,
    pub kept_planned: Vec<bool>,
    pub suppressed: usize,
}

pub open spec fn fix_lists(v: Seq<Vec<String>>) -> Seq<Seq<Seq<char>>> {
    v.map_values(|x: Vec<String>| string_views(x@))
}

/// The number of `true` entries.
pub open spec fn count_true(v: Seq<bool>) -> nat
    decreases v.len(),
{
    if v.len() == 0 {
        0
    } else {
        count_true(v.drop_last()) + if v.last() {
            1nat
        } else {
            0nat
        }
    }
}

fn some_kept_finding_has(kept: &Vec<bool>, finding_fixes: &Vec<Vec<String>>, fix: &String) -> (r: bool)
    requires
        kept@.len() == finding_fixes@.len(),
    ensures
        r == active_fix(kept@, fix_lists(finding_fixes@), fix@),
{
    let f = chars_of(fix.as_str());
    let mut i: usize = 0;
    while i < kept.len()
        invariant
            i <= kept@.len(),
            kept@.len() == finding_fixes@.len(),
            f@ == fix@,
            forall|k: int| 0 <= k < i && kept@[k] ==> !(#[trigger] fix_lists(finding_fixes@)[k]).contains(fix@),
        decreases kept@.len() - i,
    {
        if kept[i] {
            let list = &finding_fixes[i];
            let mut j: usize = 0;
            while j < list.len()
                invariant
                    j <= list@.len(),
                    i < finding_fixes@.len(),
                    i < kept@.len(),
                    kept@[i as int],
                    list@ == finding_fixes@[i as int]@,
                    f@ == fix@,
                    forall|m: int| 0 <= m < j ==> (#[trigger] list@[m])@ != fix@,
                decreases list@.len() - j,
            {
                let c = chars_of(list[j].as_str());
                if chars_eq(c.as_slice(), f.as_slice()) {
                    assert(fix_lists(finding_fixes@)[i as int][j as int] == fix@);
                    assert(fix_lists(finding_fixes@)[i as int].contains(fix@));
                    return true;
                }
                j += 1;
            }
            proof {
                if fix_lists(finding_fixes@)[i as int].contains(fix@) {
                    let m = choose|m: int| 0 <= m < fix_lists(finding_fixes@)[i as int].len() && fix_lists(finding_fixes@)[i as int][m] == fix@;
                    assert(list@[m]@ == fix@);
                }
            }
        }
        i += 1;
    }
    false
}

/// The suppressions of the config applied, given for each finding whether a
/// suppression hides it (`suppression_matches`) and the fix ids it names:
/// hidden findings go, and when any went, the fixes and planned fixes that
/// no remaining finding names go too.
pub fn apply_config_suppressions(
    hidden: &Vec<bool>,
    finding_fixes: &Vec<Vec<String>>,
    fix_ids: &Vec<String>,
    planned_fix_ids: &Vec<String>,
) -> (r: SuppressionOutcome)
    requires
        hidden@.len() == finding_fixes@.len(),
    ensures
        r.kept_findings@.len() == hidden@.len(),
        forall|i: int| 0 <= i < hidden@.len() ==> r.kept_findings@[i] == !hidden@[i],
        r.suppressed == count_true(hidden@),
        r.kept_fixes@.len() == fix_ids@.len(),
        forall|i: int|
            0 <= i < fix_ids@.len() ==> #[trigger] r.kept_fixes@[i] == fix_stays(
                r.suppressed as int,
                r.kept_findings@,
                fix_lists(finding_fixes@),
                fix_ids@[i]@,
            ),
        r.kept_planned@.len() == planned_fix_ids@.len(),
        forall|i: int|
            0 <= i < planned_fix_ids@.len() ==> #[trigger] r.kept_planned@[i] == fix_stays(
                r.suppressed as int,
                r.kept_findings@,
                fix_lists(finding_fixes@),
                planned_fix_ids@[i]@,
            ),
{
    let mut kept: Vec<bool> = Vec::new();
    let mut suppressed: usize = 0;
    let mut i: usize = 0;
    while i < hidden.len()
        invariant
            i <= hidden@.len(),
            kept@.len() == i,
            forall|k: int| 0 <= k < i ==> kept@[k] == !hidden@[k],
            suppressed == count_true(hidden@.take(i as int)),
            suppressed <= i,
        decreases hidden@.len() - i,
    {
        proof {
            assert(hidden@.take(i + 1).drop_last() =~= hidden@.take(i as int));
        }
        kept.push(!hidden[i]);
        if hidden[i] {
            suppressed += 1;
        }
        i += 1;
    }
    assert(hidden@.take(hidden@.len() as int) =~= hidden@);
    let mut kept_fixes: Vec<bool> = Vec::new();
    let mut j: usize = 0;
    while j < fix_ids.len()
        invariant
            j <= fix_ids@.len(),
            kept@.len() == finding_fixes@.len(),
            kept_fixes@.len() == j,
            forall|k: int| 0 <= k < j ==> #[trigger] kept_fixes@[k] == fix_stays(
                suppressed as int,
                kept@,
                fix_lists(finding_fixes@),
                fix_ids@[k]@,
            ),
        decreases fix_ids@.len() - j,
    {
        let keep = suppressed == 0 || some_kept_finding_has(&kept, finding_fixes, &fix_ids[j]);
        kept_fixes.push(keep);
        assert(kept_fixes@[j as int] == fix_stays(suppressed as int, kept@, fix_lists(finding_fixes@), fix_ids@[j as int]@));
        j += 1;
    }
    let mut kept_planned: Vec<bool> = Vec::new();
    let mut j: usize = 0;
    while j < planned_fix_ids.len()
        invariant
            j <= planned_fix_ids@.len(),
            kept@.len() == finding_fixes@.len(),
            kept_planned@.len() == j,
            kept_fixes@.len() == fix_ids@.len(),
            forall|k: int| 0 <= k < fix_ids@.len() ==> #[trigger] kept_fixes@[k] == fix_stays(
                suppressed as int,
                kept@,
                fix_lists(finding_fixes@),
                fix_ids@[k]@,
            ),
            forall|k: int| 0 <= k < j ==> #[trigger] kept_planned@[k] == fix_stays(
                suppressed as int,
                kept@,
                fix_lists(finding_fixes@),
                planned_fix_ids@[k]@,
            ),
        decreases planned_fix_ids@.len() - j,
    {
        let keep = suppressed == 0 || some_kept_finding_has(&kept, finding_fixes, &planned_fix_ids[j]);
        kept_planned.push(keep);
        assert(kept_planned@[j as int] == fix_stays(suppressed as int, kept@, fix_lists(finding_fixes@), planned_fix_ids@[j as int]@));
        j += 1;
    }
    SuppressionOutcome { kept_findings: kept, kept_fixes, kept_planned, suppressed }
}

/// The indices of the planned fixes whose id did
/// not occur before, in order.
pub fn unique_planned_fixes(ids: &[String]) -> (kept: Vec<usize>)
    ensures
        forall|k: int| 0 <= k < kept@.len() ==> #[trigger] kept@[k] < ids@.len(),
        forall|a: int, b: int| 0 <= a < b < kept@.len() ==> kept@[a] < kept@[b],
        forall|i: int|
            0 <= i < ids@.len() ==> (kept@.contains(i as usize)
                <==> #[trigger] crate::package_entrypoints::first_of_id(ids@, i)),
{
    crate::package_entrypoints::unique_findings_by_id(ids)
}

// ---------------------------------------------------------------------
// Env discovery under ignore patterns
// ---------------------------------------------------------------------

/// How an ignore pattern relates to env file names.
pub enum EnvIgnorePattern {
    /// It cannot name an env file: a negation, a directory, or a glob that
    /// no env file name matches.
    NotEnv,
    /// A glob that can match an env file name.
    EnvGlob,
    /// A literal file name, which names an env file when it is a concrete
    /// or template env file name.
    Literal(String),
}

/// The last `/`-separated piece.
pub open spec fn last_piece(s: Seq<char>) -> Seq<char> {
    split_char(s, '/').last()
}

/// The file-name part of an ignore pattern: trailing whitespace and
/// leading slashes removed, then the part after the last `/`.
pub open spec fn env_file_pattern(p: Seq<char>) -> Seq<char> {
    last_piece(trim_start_char(crate::text::trim_end(p), '/'))
}

/// A negated or directory-only pattern never names an env file.
pub open spec fn env_pattern_excluded(p: Seq<char>) -> bool {
    let t = crate::text::trim_end(p);
    t.len() > 0 && (t[0] == '!' || t.last() == '/')
}

/// The file-name part holds a wildcard.
pub open spec fn env_pattern_wild(p: Seq<char>) -> bool {
    env_file_pattern(p).contains('*') || env_file_pattern(p).contains('?')
}

/// A wildcard file-name part that can match an env file name.
pub open spec fn env_glob_pattern(p: Seq<char>) -> bool {
    env_specific(env_file_pattern(p)) && env_glob_reaches(env_file_pattern(p), 0, 0)
}

/// Whether an ignore pattern names env files, up to the test of a literal name
/// against the concrete and template env file names.
pub fn classify_env_ignore_pattern(pattern: &str) -> (r: EnvIgnorePattern)
    ensures
        match r {
            EnvIgnorePattern::NotEnv => env_pattern_excluded(pattern@) || (env_pattern_wild(pattern@)
                && !env_glob_pattern(pattern@)),
            EnvIgnorePattern::EnvGlob => !env_pattern_excluded(pattern@) && env_pattern_wild(
                pattern@,
            ) && env_glob_pattern(pattern@),
            EnvIgnorePattern::Literal(f) => !env_pattern_excluded(pattern@) && !env_pattern_wild(
                pattern@,
            ) && f@ == env_file_pattern(pattern@),
        },
{
    let p = chars_of(pattern);
    let t = crate::text::trim_end_chars(p.as_slice());
    if t.len() > 0 && (t[0] == '!' || t[t.len() - 1] == '/') {
        return EnvIgnorePattern::NotEnv;
    }
    let u = trim_start_char_chars(t.as_slice(), '/');
    let parts = split_char_chars(u.as_slice(), '/');
    proof {
        reveal_with_fuel(split_char, 2);
    }
    assert(parts@.len() >= 1);
    let f = &parts[parts.len() - 1];
    assert(f@ == env_file_pattern(pattern@));
    if crate::text::contains_char(f.as_slice(), '*') || crate::text::contains_char(f.as_slice(), '?') {
        let fs = string_from(f.as_slice());
        if is_env_specific_glob_pattern(fs.as_str()) && glob_pattern_can_match_env_file_name(fs.as_str()) {
            return EnvIgnorePattern::EnvGlob;
        }
        return EnvIgnorePattern::NotEnv;
    }
    EnvIgnorePattern::Literal(string_from(f.as_slice()))
}

/// The gitignore pattern used when env files are discovered again: a
/// pattern that names env files becomes a directory pattern (trailing
/// whitespace and slashes dropped, one `/` added), so that it no longer
/// hides the env files; any other pattern stays as it is.
pub open spec fn rediscovery_pattern(p: Seq<char>, names_env_file: bool) -> Seq<char> {
    if names_env_file {
        trim_end_char(crate::text::trim_end(p), '/') + seq!['/']
    } else {
        p
    }
}

/// Whether an ignore pattern names env files: not a negation or a
/// directory pattern, and its last part is either a glob that can match an
/// env file name or a literal name that is an env file name
/// (`literal_env_name`, the concrete/template classification of that
/// literal name).
pub open spec fn pattern_names_env_file(p: Seq<char>, literal_env_name: bool) -> bool {
    !env_pattern_excluded(p) && if env_pattern_wild(p) {
        env_glob_pattern(p)
    } else {
        literal_env_name
    }
}

/// The pattern as a directory pattern when it names env files.
pub fn rediscovery_pattern_text(pattern: &str, names_env_file: bool) -> (r: String)
    ensures
        r@ == rediscovery_pattern(pattern@, names_env_file),
{
    let p = chars_of(pattern);
    if names_env_file {
        let t = crate::text::trim_end_chars(p.as_slice());
        let mut u = trim_end_char_chars(t.as_slice(), '/');
        u.push('/');
        string_from(u.as_slice())
    } else {
        string_from(p.as_slice())
    }
}

/// The gitignore pattern to use when env files are discovered again; it
/// is always given. `literal_env_name` says whether the literal file name
/// that ends the pattern (`env_file_pattern`) is a concrete or template
/// env file name; it is read only when that name has no `*` or `?`.
pub fn env_rediscovery_gitignore_pattern(pattern: &str, literal_env_name: bool) -> (r: Option<String>)
    ensures
        r is Some,
        r.unwrap()@ == rediscovery_pattern(pattern@, pattern_names_env_file(pattern@, literal_env_name)),
{
    let names = match classify_env_ignore_pattern(pattern) {
        EnvIgnorePattern::NotEnv => false,
        EnvIgnorePattern::EnvGlob => true,
        EnvIgnorePattern::Literal(_) => literal_env_name,
    };
    Some(rediscovery_pattern_text(pattern, names))
}

} // verus!
