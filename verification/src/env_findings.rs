//! The findings of the env check: duplicate and invalid lines, concrete
//! env files that `.gitignore` does not protect, a missing or incomplete
//! `.env.example`, values in contract files that look real, contract keys
//! with no local value, and `.env.local` overrides.
use vstd::prelude::*;
use crate::paths::{strip_root, strip_root_text};
use crate::registry::Severity;
use crate::text::{
    append_chars, append_str, chars_eq_str, chars_of, decimal, join_chars, join_with, string_from,
    string_views, u64_decimal,
};

verus! {

/// A finding of the env check: the file it points at, and the fixes that
/// resolve it (a fixable finding names at least one).
pub struct EnvFinding {
    pub id: String,
    pub title: String,
    pub detail: String,
    pub hint: String,
    pub severity: Severity,
    pub file: Option<String>,
    pub fix_ids: Vec<String>,
    pub fixable: bool,
}

/// A fix the env check offers: its id, title and the files it writes.
pub struct EnvFix {
    pub id: String,
    pub title: String,
    pub files: Vec<String>,
}

pub open spec fn opt_text(o: Option<String>) -> Option<Seq<char>> {
    match o {
        Some(s) => Some(s@),
        None => None,
    }
}

fn some_text(s: &str) -> (r: Option<String>)
    ensures
        opt_text(r) == Some(s@),
{
    Some(lit(s))
}

/// The id of the fix that creates a directory's `.env.example`.
pub open spec fn create_fix_id(directory: Seq<char>) -> Seq<char> {
    "env-example:create:"@ + directory
}

/// The id of the fix that appends missing keys to a directory's contract.
pub open spec fn sync_fix_id(directory: Seq<char>) -> Seq<char> {
    "env-example:sync:"@ + directory
}

fn fix_id_list(prefix: &str, directory: &str) -> (r: Vec<String>)
    ensures
        string_views(r@) == seq![prefix@ + directory@],
{
    let mut id: Vec<char> = Vec::new();
    append_str(&mut id, prefix);
    append_str(&mut id, directory);
    let v = vec![string_from(id.as_slice())];
    assert(string_views(v@) =~= seq![prefix@ + directory@]);
    v
}

fn no_fixes() -> (r: Vec<String>)
    ensures
        string_views(r@) == Seq::<Seq<char>>::empty(),
{
    let v: Vec<String> = Vec::new();
    assert(string_views(v@) =~= Seq::<Seq<char>>::empty());
    v
}

fn lit(s: &str) -> (out: String)
    ensures
        out@ == s@,
{
    let c = chars_of(s);
    string_from(c.as_slice())
}

/// The keys listed with `, `.
pub open spec fn key_list(keys: Seq<Seq<char>>) -> Seq<char> {
    join_with(keys, ", "@)
}

fn key_list_exec(keys: &Vec<String>) -> (out: Vec<char>)
    ensures
        out@ == key_list(string_views(keys@)),
{
    let mut items: Vec<Vec<char>> = Vec::new();
    let mut i: usize = 0;
    while i < keys.len()
        invariant
            i <= keys@.len(),
            items@.len() == i,
            forall|k: int| 0 <= k < i ==> #[trigger] items@[k]@ == keys@[k]@,
        decreases keys@.len() - i,
    {
        items.push(chars_of(keys[i].as_str()));
        i += 1;
    }
    let out = join_chars(&items, ", ");
    assert(items@.map_values(|x: Vec<char>| x@) =~= string_views(keys@));
    out
}

/// The finding for a key declared twice in one env file.
pub fn duplicate_key_finding(file_path: &str, key: &str, first_line: u64, second_line: u64) -> (r:
    EnvFinding)
    ensures
        r.id@ == "env-duplicate:"@ + file_path@ + ":"@ + key@ + ":"@ + decimal(second_line as nat),
        r.title@ == "Duplicate env key \""@ + key@ + "\""@,
        r.detail@ == key@ + " is declared on lines "@ + decimal(first_line as nat) + " and "@
            + decimal(second_line as nat) + "."@,
        r.hint@ == "Keep one declaration per env file so overrides stay explicit."@,
        r.severity == Severity::Error,
        opt_text(r.file) == Some(file_path@),
        string_views(r.fix_ids@) == Seq::<Seq<char>>::empty(),
        r.fixable == false,
{
    let first = u64_decimal(first_line);
    let second = u64_decimal(second_line);
    let mut id: Vec<char> = Vec::new();
    append_str(&mut id, "env-duplicate:");
    append_str(&mut id, file_path);
    append_str(&mut id, ":");
    append_str(&mut id, key);
    append_str(&mut id, ":");
    append_chars(&mut id, second.as_slice());
    let mut title: Vec<char> = Vec::new();
    append_str(&mut title, "Duplicate env key \"");
    append_str(&mut title, key);
    append_str(&mut title, "\"");
    let mut d: Vec<char> = Vec::new();
    append_str(&mut d, key);
    append_str(&mut d, " is declared on lines ");
    append_chars(&mut d, first.as_slice());
    append_str(&mut d, " and ");
    append_chars(&mut d, second.as_slice());
    append_str(&mut d, ".");
    EnvFinding {
        id: string_from(id.as_slice()),
        title: string_from(title.as_slice()),
        detail: string_from(d.as_slice()),
        hint: lit("Keep one declaration per env file so overrides stay explicit."),
        file: some_text(file_path),
        fix_ids: no_fixes(),
        fixable: false,
        severity: Severity::Error,
    }
}

/// The finding for a line that is not `KEY=value`.
pub fn invalid_line_finding(file_path: &str, line: u64) -> (r: EnvFinding)
    ensures
        r.id@ == "env-invalid:"@ + file_path@ + ":"@ + decimal(line as nat),
        r.title@ == "Invalid env syntax"@,
        r.detail@ == "Line "@ + decimal(line as nat) + " could not be parsed as KEY=value."@,
        r.hint@ == "Use shell-style env syntax or move comments to their own line."@,
        r.severity == Severity::Warn,
        opt_text(r.file) == Some(file_path@),
        string_views(r.fix_ids@) == Seq::<Seq<char>>::empty(),
        r.fixable == false,
{
    let n = u64_decimal(line);
    let mut id: Vec<char> = Vec::new();
    append_str(&mut id, "env-invalid:");
    append_str(&mut id, file_path);
    append_str(&mut id, ":");
    append_chars(&mut id, n.as_slice());
    let mut d: Vec<char> = Vec::new();
    append_str(&mut d, "Line ");
    append_chars(&mut d, n.as_slice());
    append_str(&mut d, " could not be parsed as KEY=value.");
    EnvFinding {
        id: string_from(id.as_slice()),
        title: lit("Invalid env syntax"),
        detail: string_from(d.as_slice()),
        hint: lit("Use shell-style env syntax or move comments to their own line."),
        file: some_text(file_path),
        fix_ids: no_fixes(),
        fixable: false,
        severity: Severity::Warn,
    }
}

/// The file's name to add to the
/// `.gitignore` of its directory, and, when the file is not at the root
/// and its root-relative path differs from its name, the root-relative
/// path to add to the root `.gitignore` instead.
pub open spec fn protection_text(
    file_name: Seq<char>,
    directory_gitignore: Seq<char>,
    root_relative: Seq<char>,
    directory_is_root: bool,
) -> Seq<char> {
    if directory_is_root || root_relative == file_name {
        "Add \""@ + file_name + "\" to "@ + directory_gitignore + "."@
    } else {
        "Add \""@ + file_name + "\" to "@ + directory_gitignore + " or \""@ + root_relative
            + "\" to .gitignore."@
    }
}

pub fn gitignore_protection_hint(
    file_name: &str,
    directory_gitignore: &str,
    root_relative: &str,
    directory_is_root: bool,
) -> (out: String)
    ensures
        out@ == protection_text(file_name@, directory_gitignore@, root_relative@, directory_is_root),
{
    let rc = chars_of(root_relative);
    let mut d: Vec<char> = Vec::new();
    append_str(&mut d, "Add \"");
    append_str(&mut d, file_name);
    append_str(&mut d, "\" to ");
    append_str(&mut d, directory_gitignore);
    if directory_is_root || chars_eq_str(rc.as_slice(), file_name) {
        append_str(&mut d, ".");
    } else {
        append_str(&mut d, " or \"");
        append_str(&mut d, root_relative);
        append_str(&mut d, "\" to .gitignore.");
    }
    string_from(d.as_slice())
}

/// The finding for a concrete env file that `.gitignore` does not protect,
/// with the protection hint as its detail.
pub fn unprotected_env_finding(file_path: &str, file_name: &str, protection: &str) -> (r: EnvFinding)
    ensures
        r.id@ == "env-gitignore:"@ + file_path@,
        r.title@ == "Concrete env file \""@ + file_name@ + "\" is not protected by .gitignore"@,
        r.detail@ == protection@,
        r.hint@ == "Protect concrete env files with an exact .gitignore entry before committing secrets."@,
        r.severity == Severity::Warn,
        opt_text(r.file) == Some(file_path@),
        string_views(r.fix_ids@) == Seq::<Seq<char>>::empty(),
        r.fixable == false,
{
    let mut id: Vec<char> = Vec::new();
    append_str(&mut id, "env-gitignore:");
    append_str(&mut id, file_path);
    let mut title: Vec<char> = Vec::new();
    append_str(&mut title, "Concrete env file \"");
    append_str(&mut title, file_name);
    append_str(&mut title, "\" is not protected by .gitignore");
    EnvFinding {
        id: string_from(id.as_slice()),
        title: string_from(title.as_slice()),
        detail: lit(protection),
        hint: lit("Protect concrete env files with an exact .gitignore entry before committing secrets."),
        file: some_text(file_path),
        fix_ids: no_fixes(),
        fixable: false,
        severity: Severity::Warn,
    }
}

/// A directory needs an `.env.example` when its concrete env files declare
/// keys worth syncing and it has no contract file.
pub fn example_missing(sync_target_key_count: usize, has_contract: bool) -> (r: bool)
    ensures
        r == (sync_target_key_count > 0 && !has_contract),
{
    sync_target_key_count > 0 && !has_contract
}

/// The finding for a directory without an `.env.example`.
pub fn example_missing_finding(directory: &str, first_concrete_path: Option<&String>) -> (r: EnvFinding)
    ensures
        r.id@ == "env-example-missing:"@ + directory@,
        r.title@ == "Missing .env.example contract"@,
        r.detail@ == "Runtime env files exist, but .env.example is missing."@,
        r.hint@ == "Run `maximus fix` to create a blank contract file."@,
        r.severity == Severity::Warn,
        opt_text(r.file) == (match first_concrete_path {
            Some(p) => Some(p@),
            None => None,
        }),
        string_views(r.fix_ids@) == seq![create_fix_id(directory@)],
        r.fixable == true,
{
    let mut id: Vec<char> = Vec::new();
    append_str(&mut id, "env-example-missing:");
    append_str(&mut id, directory);
    EnvFinding {
        id: string_from(id.as_slice()),
        title: lit("Missing .env.example contract"),
        detail: lit("Runtime env files exist, but .env.example is missing."),
        hint: lit("Run `maximus fix` to create a blank contract file."),
        file: match first_concrete_path { Some(p) => some_text(p.as_str()), None => None },
        fix_ids: fix_id_list("env-example:create:", directory),
        fixable: true,
        severity: Severity::Warn,
    }
}

/// The finding for a contract file that lacks keys the env files declare.
pub fn example_sync_finding(directory: &str, example_name: &str, example_path: &str, missing_keys: &Vec<String>) -> (r:
    EnvFinding)
    ensures
        r.id@ == "env-example-sync:"@ + directory@,
        r.title@ == example_name@ + " is missing keys"@,
        r.detail@ == "Missing keys: "@ + key_list(string_views(missing_keys@)) + "."@,
        r.hint@ == "Run \"maximus fix\" to append the missing keys to "@ + example_name@ + "."@,
        r.severity == Severity::Warn,
        opt_text(r.file) == Some(example_path@),
        string_views(r.fix_ids@) == seq![sync_fix_id(directory@)],
        r.fixable == true,
{
    let mut id: Vec<char> = Vec::new();
    append_str(&mut id, "env-example-sync:");
    append_str(&mut id, directory);
    let mut title: Vec<char> = Vec::new();
    append_str(&mut title, example_name);
    append_str(&mut title, " is missing keys");
    let keys = key_list_exec(missing_keys);
    let mut d: Vec<char> = Vec::new();
    append_str(&mut d, "Missing keys: ");
    append_chars(&mut d, keys.as_slice());
    append_str(&mut d, ".");
    let mut h: Vec<char> = Vec::new();
    append_str(&mut h, "Run \"maximus fix\" to append the missing keys to ");
    append_str(&mut h, example_name);
    append_str(&mut h, ".");
    EnvFinding {
        id: string_from(id.as_slice()),
        title: string_from(title.as_slice()),
        detail: string_from(d.as_slice()),
        hint: string_from(h.as_slice()),
        file: some_text(example_path),
        fix_ids: fix_id_list("env-example:sync:", directory),
        fixable: true,
        severity: Severity::Warn,
    }
}

/// The finding for a contract-file value that looks like a real secret.
pub fn example_secret_finding(file_path: &str, file_name: &str, key: &str) -> (r: EnvFinding)
    ensures
        r.id@ == "env-example-secret:"@ + file_path@ + ":"@ + key@,
        r.title@ == file_name@ + " appears to contain a real value for \""@ + key@ + "\""@,
        r.detail@ == "Contract files should describe the interface, not ship concrete secrets."@,
        r.hint@ == "Replace the value with a blank or placeholder string before sharing the repo."@,
        r.severity == Severity::Warn,
        opt_text(r.file) == Some(file_path@),
        string_views(r.fix_ids@) == Seq::<Seq<char>>::empty(),
        r.fixable == false,
{
    let mut id: Vec<char> = Vec::new();
    append_str(&mut id, "env-example-secret:");
    append_str(&mut id, file_path);
    append_str(&mut id, ":");
    append_str(&mut id, key);
    let mut title: Vec<char> = Vec::new();
    append_str(&mut title, file_name);
    append_str(&mut title, " appears to contain a real value for \"");
    append_str(&mut title, key);
    append_str(&mut title, "\"");
    EnvFinding {
        id: string_from(id.as_slice()),
        title: string_from(title.as_slice()),
        detail: lit("Contract files should describe the interface, not ship concrete secrets."),
        hint: lit("Replace the value with a blank or placeholder string before sharing the repo."),
        file: some_text(file_path),
        fix_ids: no_fixes(),
        fixable: false,
        severity: Severity::Warn,
    }
}

/// The finding for contract keys with no local value.
pub fn missing_concrete_finding(directory: &str, example_path: &str, missing_keys: &Vec<String>) -> (r: EnvFinding)
    ensures
        r.id@ == "env-missing-concrete:"@ + directory@,
        r.title@ == "Declared env contract is not satisfied locally"@,
        r.detail@ == "No concrete value was found for: "@ + key_list(string_views(missing_keys@)) + "."@,
        r.hint@
            == "If these are injected by CI, keep the contract documented. Otherwise add them to your local env files."@,
        r.severity == Severity::Warn,
        opt_text(r.file) == Some(example_path@),
        string_views(r.fix_ids@) == Seq::<Seq<char>>::empty(),
        r.fixable == false,
{
    let mut id: Vec<char> = Vec::new();
    append_str(&mut id, "env-missing-concrete:");
    append_str(&mut id, directory);
    let keys = key_list_exec(missing_keys);
    let mut d: Vec<char> = Vec::new();
    append_str(&mut d, "No concrete value was found for: ");
    append_chars(&mut d, keys.as_slice());
    append_str(&mut d, ".");
    EnvFinding {
        id: string_from(id.as_slice()),
        title: lit("Declared env contract is not satisfied locally"),
        detail: string_from(d.as_slice()),
        hint: lit(
            "If these are injected by CI, keep the contract documented. Otherwise add them to your local env files.",
        ),
        file: some_text(example_path),
        fix_ids: no_fixes(),
        fixable: false,
        severity: Severity::Warn,
    }
}

/// The finding for keys that `.env.local` gives another value.
pub fn local_override_finding(directory: &str, local_path: &str, keys: &Vec<String>) -> (r: EnvFinding)
    ensures
        r.id@ == "env-mismatch:"@ + directory@,
        r.title@ == "Local env overrides detected"@,
        r.detail@ == ".env.local overrides "@ + decimal(keys@.len()) + " key(s): "@ + key_list(
            string_views(keys@),
        ) + "."@,
        r.hint@ == "Make sure local-only overrides are intentional and documented in .env.example."@,
        r.severity == Severity::Info,
        opt_text(r.file) == Some(local_path@),
        string_views(r.fix_ids@) == Seq::<Seq<char>>::empty(),
        r.fixable == false,
{
    let mut id: Vec<char> = Vec::new();
    append_str(&mut id, "env-mismatch:");
    append_str(&mut id, directory);
    let n = u64_decimal(keys.len() as u64);
    let list = key_list_exec(keys);
    let mut d: Vec<char> = Vec::new();
    append_str(&mut d, ".env.local overrides ");
    append_chars(&mut d, n.as_slice());
    append_str(&mut d, " key(s): ");
    append_chars(&mut d, list.as_slice());
    append_str(&mut d, ".");
    EnvFinding {
        id: string_from(id.as_slice()),
        title: lit("Local env overrides detected"),
        detail: string_from(d.as_slice()),
        hint: lit("Make sure local-only overrides are intentional and documented in .env.example."),
        file: some_text(local_path),
        fix_ids: no_fixes(),
        fixable: false,
        severity: Severity::Info,
    }
}


// ---------------------------------------------------------------------
// Showing paths
// ---------------------------------------------------------------------

/// The target below the root (`.` for the root
/// itself), or the target as given when it lies elsewhere.
pub open spec fn display_path(root_dir: Seq<char>, target: Seq<char>) -> Seq<char> {
    match strip_root(target, root_dir) {
        Some(rel) => if rel.len() == 0 {
            seq!['.']
        } else {
            rel
        },
        None => target,
    }
}

pub fn relative_display_path(root_dir: &str, target: &str) -> (r: String)
    ensures
        r@ == display_path(root_dir@, target@),
{
    match strip_root_text(target, root_dir) {
        Some(rel) => {
            if chars_of(rel.as_str()).len() == 0 {
                let mut dot = String::new();
                dot.push('.');
                assert(dot@ =~= seq!['.']);
                dot
            } else {
                rel
            }
        },
        None => string_from(chars_of(target).as_slice()),
    }
}

} // verus!
