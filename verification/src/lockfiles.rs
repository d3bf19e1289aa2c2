//! Lockfile hygiene: which files are lockfiles, which directories the scan
//! skips, when a directory has too many lockfiles, and how they are listed.
use vstd::prelude::*;
use crate::paths::{slash_text, strip_root, strip_root_text};
use crate::text::{
    append_chars, append_str, chars_eq_str, chars_of, decimal, join_with, string_from, string_views,
};

verus! {

/// The lockfile names of the package managers the check knows.
pub open spec fn known_lockfile(name: Seq<char>) -> bool {
    ||| name == "bun.lock"@
    ||| name == "bun.lockb"@
    ||| name == "npm-shrinkwrap.json"@
    ||| name == "package-lock.json"@
    ||| name == "pnpm-lock.yaml"@
    ||| name == "yarn.lock"@
}

/// Whether a file name is a known lockfile.
pub fn is_known_lockfile(name: &str) -> (r: bool)
    ensures
        r == known_lockfile(name@),
{
    let n = chars_of(name);
    chars_eq_str(n.as_slice(), "bun.lock") || chars_eq_str(n.as_slice(), "bun.lockb")
        || chars_eq_str(n.as_slice(), "npm-shrinkwrap.json") || chars_eq_str(
        n.as_slice(),
        "package-lock.json",
    ) || chars_eq_str(n.as_slice(), "pnpm-lock.yaml") || chars_eq_str(n.as_slice(), "yarn.lock")
}

/// The lockfiles of bun, npm, pnpm and yarn are all recognised, while the
/// manifest `package.json` is not a lockfile.
pub proof fn lemma_known_lockfile_names()
    ensures
        known_lockfile("bun.lock"@),
        known_lockfile("bun.lockb"@),
        known_lockfile("npm-shrinkwrap.json"@),
        known_lockfile("package-lock.json"@),
        known_lockfile("pnpm-lock.yaml"@),
        known_lockfile("yarn.lock"@),
        !known_lockfile("package.json"@),
{
    reveal_strlit("bun.lock");
    reveal_strlit("bun.lockb");
    reveal_strlit("npm-shrinkwrap.json");
    reveal_strlit("package-lock.json");
    reveal_strlit("pnpm-lock.yaml");
    reveal_strlit("yarn.lock");
    reveal_strlit("package.json");
    assert("package.json"@.len() == 12);
    assert("bun.lock"@.len() == 8);
    assert("bun.lockb"@.len() == 9);
    assert("npm-shrinkwrap.json"@.len() == 19);
    assert("package-lock.json"@.len() == 17);
    assert("pnpm-lock.yaml"@.len() == 14);
    assert("yarn.lock"@.len() == 9);
}

/// The directories the lockfile scan does not enter.
pub open spec fn ignored_directory(name: Seq<char>) -> bool {
    ||| name == ".git"@
    ||| name == ".hg"@
    ||| name == ".idea"@
    ||| name == ".next"@
    ||| name == ".nuxt"@
    ||| name == ".output"@
    ||| name == ".pnpm-store"@
    ||| name == ".svelte-kit"@
    ||| name == ".turbo"@
    ||| name == ".vercel"@
    ||| name == "build"@
    ||| name == "coverage"@
    ||| name == "dist"@
    ||| name == "node_modules"@
    ||| name == "out"@
    ||| name == "target"@
    ||| name == "tmp"@
}

/// Whether the lockfile walk skips a directory, for a name that is valid UTF-8
/// (a name that is not is never ignored).
pub fn should_ignore_directory(name: &str) -> (r: bool)
    ensures
        r == ignored_directory(name@),
{
    let n = chars_of(name);
    let s = n.as_slice();
    chars_eq_str(s, ".git") || chars_eq_str(s, ".hg") || chars_eq_str(s, ".idea") || chars_eq_str(
        s,
        ".next",
    ) || chars_eq_str(s, ".nuxt") || chars_eq_str(s, ".output") || chars_eq_str(s, ".pnpm-store")
        || chars_eq_str(s, ".svelte-kit") || chars_eq_str(s, ".turbo") || chars_eq_str(s, ".vercel")
        || chars_eq_str(s, "build") || chars_eq_str(s, "coverage") || chars_eq_str(s, "dist")
        || chars_eq_str(s, "node_modules") || chars_eq_str(s, "out") || chars_eq_str(s, "target")
        || chars_eq_str(s, "tmp")
}

/// A directory is reported when it holds more than one lockfile.
pub fn has_multiple_lockfiles(lockfile_count: usize) -> (r: bool)
    ensures
        r == (lockfile_count > 1),
{
    lockfile_count > 1
}


/// The finding's detail: how many lockfiles, where, and which.
pub open spec fn lockfiles_detail_text(names: Seq<Seq<char>>, directory: Seq<char>) -> Seq<char> {
    "Found "@ + decimal(names.len()) + " known lockfiles in "@ + directory + ": "@ + join_with(
        names,
        ", "@,
    ) + "."@
}

pub fn lockfiles_detail(names: &Vec<String>, directory_display: &str) -> (out: String)
    requires
        names@.len() <= u64::MAX,
    ensures
        out@ == lockfiles_detail_text(string_views(names@), directory_display@),
{
    let mut items: Vec<Vec<char>> = Vec::new();
    let mut i: usize = 0;
    while i < names.len()
        invariant
            i <= names@.len(),
            items@.len() == i,
            forall|k: int| 0 <= k < i ==> #[trigger] items@[k]@ == names@[k]@,
        decreases names@.len() - i,
    {
        items.push(chars_of(names[i].as_str()));
        i += 1;
    }
    assert(items@.map_values(|x: Vec<char>| x@) =~= string_views(names@));
    let mut out: Vec<char> = Vec::new();
    append_str(&mut out, "Found ");
    let count = crate::text::u64_decimal(names.len() as u64);
    append_chars(&mut out, count.as_slice());
    append_str(&mut out, " known lockfiles in ");
    append_str(&mut out, directory_display);
    append_str(&mut out, ": ");
    let joined = crate::text::join_chars(&items, ", ");
    append_chars(&mut out, joined.as_slice());
    append_str(&mut out, ".");
    string_from(out.as_slice())
}


// ---------------------------------------------------------------------
// Showing directories
// ---------------------------------------------------------------------

/// The directory below the root, with `/` for `\`
/// and `.` for the root itself; the directory as given when it lies
/// elsewhere.
pub open spec fn display_dir(root_dir: Seq<char>, directory: Seq<char>) -> Seq<char> {
    match strip_root(directory, root_dir) {
        Some(rel) => if slash_text(rel).len() == 0 {
            seq!['.']
        } else {
            slash_text(rel)
        },
        None => directory,
    }
}

pub fn relative_display_dir(root_dir: &str, directory: &str) -> (r: String)
    ensures
        r@ == display_dir(root_dir@, directory@),
{
    match strip_root_text(directory, root_dir) {
        Some(rel) => {
            let s = crate::paths::path_to_slash_string(rel.as_str());
            if chars_of(s.as_str()).len() == 0 {
                let mut dot = String::new();
                dot.push('.');
                assert(dot@ =~= seq!['.']);
                dot
            } else {
                s
            }
        },
        None => string_from(chars_of(directory).as_slice()),
    }
}

} // verus!
