//! The findings of the env check for one directory, from what reading its
//! env files gave: duplicate and invalid lines, unprotected concrete files,
//! the `.env.example` contract (missing, incomplete, holding real values,
//! not satisfied locally) and `.env.local` overrides.
use vstd::prelude::*;
use crate::env_contract::{
    collect_contract_keys, collect_sync_target_keys, contract_keys, entry_views, keys_missing_from,
    keys_not_in, local_override_keys, missing_concrete_keys, overridden_keys, record_le,
    record_views, sort_contract_records, without_ambient,
};
use crate::env_findings::{
    display_path, duplicate_key_finding, example_missing_finding, example_secret_finding,
    example_sync_finding, gitignore_protection_hint, invalid_line_finding, key_list,
    local_override_finding, missing_concrete_finding, protection_text, relative_display_path,
    unprotected_env_finding, create_fix_id, opt_text, sync_fix_id, EnvFinding, EnvFix,
};
use crate::paths::{file_name, file_name_of, path_of, same_path, PathBase};
use crate::registry::Severity;
use crate::text::{append_str, chars_eq_str, chars_of, decimal, string_from, string_views};

verus! {

// ---------------------------------------------------------------------
// The protection hint
// ---------------------------------------------------------------------

/// `Path::join` of a file name onto a directory, as text.
pub open spec fn joined_text(dir: Seq<char>, name: Seq<char>) -> Seq<char> {
    if dir.len() == 0 {
        name
    } else if dir.last() == '/' {
        dir + name
    } else {
        dir + seq!['/'] + name
    }
}

/// The file's name to add to the
/// `.gitignore` of its directory, both shown relative to the root, and the
/// root-relative path to add to the root `.gitignore` when that differs.
pub open spec fn protection_hint(root_dir: Seq<char>, directory: Seq<char>, file_path: Seq<char>) -> Seq<char> {
    let name = match file_name(file_path) {
        Some(n) => n,
        None => seq![],
    };
    protection_text(
        name,
        display_path(root_dir, joined_text(directory, ".gitignore"@)),
        display_path(root_dir, file_path),
        path_of(directory) == path_of(root_dir),
    )
}

pub fn format_gitignore_protection_hint(root_dir: &str, directory: &str, file_path: &str) -> (out: String)
    ensures
        out@ == protection_hint(root_dir@, directory@, file_path@),
{
    let dc = chars_of(directory);
    let mut joined: Vec<char> = Vec::new();
    append_str(&mut joined, directory);
    if dc.len() > 0 && dc[dc.len() - 1] != '/' {
        joined.push('/');
    }
    append_str(&mut joined, ".gitignore");
    proof {
        reveal_strlit(".gitignore");
    }
    assert(joined@ =~= joined_text(directory@, ".gitignore"@));
    let gitignore_display = relative_display_path(root_dir, string_from(joined.as_slice()).as_str());
    let name = match file_name_of(file_path) {
        Some(n) => n,
        None => {
            let e = String::new();
            assert(e@ =~= Seq::<char>::empty());
            e
        },
    };
    let root_pattern = relative_display_path(root_dir, file_path);
    let same_dir = same_path(&PathBase::from_path(directory), &PathBase::from_path(root_dir));
    gitignore_protection_hint(name.as_str(), gitignore_display.as_str(), root_pattern.as_str(), same_dir)
}

// ---------------------------------------------------------------------
// The findings
// ---------------------------------------------------------------------

/// A finding as (id, title, detail, hint, severity, file, fix ids,
/// fixable).
pub type EnvView = (Seq<char>, Seq<char>, Seq<char>, Seq<char>, Severity, Option<Seq<char>>, Seq<Seq<char>>, bool);

pub open spec fn env_view(f: EnvFinding) -> EnvView {
    (f.id@, f.title@, f.detail@, f.hint@, f.severity, opt_text(f.file), string_views(f.fix_ids@), f.fixable)
}

pub open spec fn env_views(v: Seq<EnvFinding>) -> Seq<EnvView> {
    v.map_values(|f: EnvFinding| env_view(f))
}

pub open spec fn dup_view(path: Seq<char>, key: Seq<char>, first: u64, second: u64) -> EnvView {
    (
        "env-duplicate:"@ + path + ":"@ + key + ":"@ + decimal(second as nat),
        "Duplicate env key \""@ + key + "\""@,
        key + " is declared on lines "@ + decimal(first as nat) + " and "@ + decimal(second as nat) + "."@,
        "Keep one declaration per env file so overrides stay explicit."@,
        Severity::Error,
        Some(path),
        seq![],
        false,
    )
}

pub open spec fn invalid_view(path: Seq<char>, line: u64) -> EnvView {
    (
        "env-invalid:"@ + path + ":"@ + decimal(line as nat),
        "Invalid env syntax"@,
        "Line "@ + decimal(line as nat) + " could not be parsed as KEY=value."@,
        "Use shell-style env syntax or move comments to their own line."@,
        Severity::Warn,
        Some(path),
        seq![],
        false,
    )
}

pub open spec fn unprotected_view(path: Seq<char>, name: Seq<char>, protection: Seq<char>) -> EnvView {
    (
        "env-gitignore:"@ + path,
        "Concrete env file \""@ + name + "\" is not protected by .gitignore"@,
        protection,
        "Protect concrete env files with an exact .gitignore entry before committing secrets."@,
        Severity::Warn,
        Some(path),
        seq![],
        false,
    )
}

pub open spec fn example_missing_view(dir: Seq<char>, file: Option<Seq<char>>) -> EnvView {
    (
        "env-example-missing:"@ + dir,
        "Missing .env.example contract"@,
        "Runtime env files exist, but .env.example is missing."@,
        "Run `maximus fix` to create a blank contract file."@,
        Severity::Warn,
        file,
        seq![create_fix_id(dir)],
        true,
    )
}

pub open spec fn sync_view(dir: Seq<char>, name: Seq<char>, path: Seq<char>, keys: Seq<Seq<char>>) -> EnvView {
    (
        "env-example-sync:"@ + dir,
        name + " is missing keys"@,
        "Missing keys: "@ + key_list(keys) + "."@,
        "Run \"maximus fix\" to append the missing keys to "@ + name + "."@,
        Severity::Warn,
        Some(path),
        seq![sync_fix_id(dir)],
        true,
    )
}

pub open spec fn secret_view(path: Seq<char>, name: Seq<char>, key: Seq<char>) -> EnvView {
    (
        "env-example-secret:"@ + path + ":"@ + key,
        name + " appears to contain a real value for \""@ + key + "\""@,
        "Contract files should describe the interface, not ship concrete secrets."@,
        "Replace the value with a blank or placeholder string before sharing the repo."@,
        Severity::Warn,
        Some(path),
        seq![],
        false,
    )
}

pub open spec fn missing_concrete_view(dir: Seq<char>, path: Seq<char>, keys: Seq<Seq<char>>) -> EnvView {
    (
        "env-missing-concrete:"@ + dir,
        "Declared env contract is not satisfied locally"@,
        "No concrete value was found for: "@ + key_list(keys) + "."@,
        "If these are injected by CI, keep the contract documented. Otherwise add them to your local env files."@,
        Severity::Warn,
        Some(path),
        seq![],
        false,
    )
}

pub open spec fn override_view(dir: Seq<char>, path: Seq<char>, keys: Seq<Seq<char>>) -> EnvView {
    (
        "env-mismatch:"@ + dir,
        "Local env overrides detected"@,
        ".env.local overrides "@ + decimal(keys.len()) + " key(s): "@ + key_list(keys) + "."@,
        "Make sure local-only overrides are intentional and documented in .env.example."@,
        Severity::Info,
        Some(path),
        seq![],
        false,
    )
}


// ---------------------------------------------------------------------
// One directory
// ---------------------------------------------------------------------

/// What reading one env file of a directory gave.
pub struct EnvRecord {
    pub name: String,
    pub path: String,
    /// The name is that of a contract file (`is_template_env_file_name`).
    pub is_template: bool,
    /// The name is that of a concrete env file (`is_concrete_env_file_name`).
    pub is_concrete: bool,
    /// Each key declared twice, with the lines of the two declarations.
    pub duplicates: Vec<(String, u64, u64)>,
    /// The lines that are not `KEY=value`.
    pub invalid_lines: Vec<u64>,
    /// The keys, in the order they are declared.
    pub keys: Vec<String>,
    /// The values, as the parser keeps them.
    pub values: Vec<(String, String)>,
    /// The keys whose value looks like a real secret (`looks_like_secret`),
    /// in file order.
    pub secret_keys: Vec<String>,
    /// An exact `.gitignore` entry covers the file and git does not track it.
    pub protected: bool,
}

/// The duplicate-key and invalid-line findings of one file.
pub open spec fn line_findings(r: EnvRecord) -> Seq<EnvView> {
    r.duplicates@.map_values(|d: (String, u64, u64)| dup_view(r.path@, d.0@, d.1, d.2))
        + r.invalid_lines@.map_values(|l: u64| invalid_view(r.path@, l))
}

pub open spec fn lines_upto(rs: Seq<EnvRecord>, n: int) -> Seq<EnvView>
    decreases n,
{
    if n <= 0 {
        seq![]
    } else {
        lines_upto(rs, n - 1) + line_findings(rs[n - 1])
    }
}

/// The findings of the concrete files, among the first `n`, that
/// `.gitignore` does not protect.
pub open spec fn unprotected_upto(root_dir: Seq<char>, dir: Seq<char>, rs: Seq<EnvRecord>, n: int) -> Seq<
    EnvView,
>
    decreases n,
{
    if n <= 0 {
        seq![]
    } else {
        unprotected_upto(root_dir, dir, rs, n - 1) + if rs[n - 1].is_concrete && !rs[n - 1].protected {
            seq![unprotected_view(rs[n - 1].path@, rs[n - 1].name@, protection_hint(root_dir, dir, rs[n - 1].path@))]
        } else {
            seq![]
        }
    }
}

/// The key lists of the concrete files among the first `n`.
pub open spec fn concrete_keys(rs: Seq<EnvRecord>, n: int) -> Seq<Seq<Seq<char>>>
    decreases n,
{
    if n <= 0 {
        seq![]
    } else if rs[n - 1].is_concrete {
        concrete_keys(rs, n - 1).push(string_views(rs[n - 1].keys@))
    } else {
        concrete_keys(rs, n - 1)
    }
}

/// How many of the first `n` files are contract files.
pub open spec fn template_count(rs: Seq<EnvRecord>, n: int) -> nat
    decreases n,
{
    if n <= 0 {
        0
    } else {
        template_count(rs, n - 1) + if rs[n - 1].is_template {
            1nat
        } else {
            0nat
        }
    }
}

pub open spec fn record_names(rs: Seq<EnvRecord>) -> Seq<Seq<char>> {
    rs.map_values(|r: EnvRecord| r.name@)
}

/// `contract` lists every contract file once, in the order in which
/// contract files are consulted (`record_le`); its first is the
/// directory's `.env.example`.
pub open spec fn contract_order(rs: Seq<EnvRecord>, contract: Seq<int>) -> bool {
    &&& contract.len() == template_count(rs, rs.len() as int)
    &&& forall|i: int| 0 <= i < rs.len() && #[trigger] rs[i].is_template ==> contract.contains(i)
    &&& forall|k: int| 0 <= k < contract.len() ==> 0 <= #[trigger] contract[k] < rs.len() && rs[contract[k]].is_template
    &&& forall|a: int, b: int| 0 <= a < b < contract.len() ==> #[trigger] contract[a] != #[trigger] contract[b]
    &&& forall|a: int, b: int|
        0 <= a < b < contract.len() ==> record_le(record_names(rs), #[trigger] contract[a], #[trigger] contract[b])
}

/// The findings of values that look real, in the first `n` contract files.
pub open spec fn secret_upto(rs: Seq<EnvRecord>, contract: Seq<int>, n: int) -> Seq<
    EnvView,
>
    decreases n,
{
    if n <= 0 {
        seq![]
    } else {
        let r = rs[contract[n - 1]];
        secret_upto(rs, contract, n - 1) + r.secret_keys@.map_values(|k: String| secret_view(r.path@, r.name@, k@))
    }
}

/// The path of the first concrete env file, from `k` on.
pub open spec fn first_concrete_path(rs: Seq<EnvRecord>, k: int) -> Option<Seq<char>>
    decreases rs.len() - k,
{
    if k < 0 || k >= rs.len() {
        None
    } else if rs[k].is_concrete {
        Some(rs[k].path@)
    } else {
        first_concrete_path(rs, k + 1)
    }
}

fn first_concrete_exec(records: &Vec<EnvRecord>) -> (r: Option<usize>)
    ensures
        match r {
            Some(i) => i < records@.len() && first_concrete_path(records@, 0) == Some(records@[i as int].path@),
            None => first_concrete_path(records@, 0) is None,
        },
{
    let mut i: usize = 0;
    while i < records.len()
        invariant
            i <= records@.len(),
            first_concrete_path(records@, 0) == first_concrete_path(records@, i as int),
        decreases records@.len() - i,
    {
        if records[i].is_concrete {
            return Some(i);
        }
        i += 1;
    }
    None
}

/// The first file, from `k` on, with the name.
pub open spec fn first_named(rs: Seq<EnvRecord>, name: Seq<char>, k: int) -> Option<int>
    decreases rs.len() - k,
{
    if k < 0 || k >= rs.len() {
        None
    } else if rs[k].name@ == name {
        Some(k)
    } else {
        first_named(rs, name, k + 1)
    }
}

/// The contract findings: when the directory has a contract file, its
/// missing keys, the values that look real in every contract file, and the
/// contract keys that no concrete file provides (when there is one).
pub open spec fn contract_findings(
    dir: Seq<char>,
    rs: Seq<EnvRecord>,
    contract: Seq<int>,
    sync: Seq<Seq<char>>,
    concrete: Seq<Seq<Seq<char>>>,
    excluded: Seq<Seq<char>>,
) -> Seq<EnvView> {
    if contract.len() == 0 {
        seq![]
    } else {
        let ex = rs[contract[0]];
        let missing = keys_not_in(sync, string_views(ex.keys@));
        let unmet = keys_not_in(keys_not_in(string_views(ex.keys@), contract_keys(concrete)), excluded);
        (if missing.len() > 0 {
            seq![sync_view(dir, ex.name@, ex.path@, missing)]
        } else {
            seq![]
        }) + secret_upto(rs, contract, contract.len() as int) + if concrete.len() > 0 && unmet.len() > 0 {
            seq![missing_concrete_view(dir, ex.path@, unmet)]
        } else {
            seq![]
        }
    }
}

/// The override finding of `.env.local` against `.env`.
pub open spec fn override_findings(dir: Seq<char>, rs: Seq<EnvRecord>) -> Seq<
    EnvView,
> {
    match (first_named(rs, ".env"@, 0), first_named(rs, ".env.local"@, 0)) {
        (Some(b), Some(l)) => {
            let o = overridden_keys(entry_views(rs[b].values@), entry_views(rs[l].values@));
            if o.len() > 0 {
                seq![override_view(dir, rs[l].path@, o)]
            } else {
                seq![]
            }
        },
        _ => seq![],
    }
}

/// The env findings of one directory, in this order: the
/// line findings of every file, the unprotected concrete files, a missing
/// contract when concrete files declare keys worth syncing, the contract
/// findings, and the local overrides.
pub open spec fn directory_findings(
    root_dir: Seq<char>,
    dir: Seq<char>,
    rs: Seq<EnvRecord>,
    contract: Seq<int>,
    excluded: Seq<Seq<char>>,
) -> Seq<EnvView> {
    let concrete = concrete_keys(rs, rs.len() as int);
    let sync = without_ambient(contract_keys(concrete));
    lines_upto(rs, rs.len() as int) + unprotected_upto(root_dir, dir, rs, rs.len() as int) + (if sync.len() > 0
        && contract.len() == 0 {
        seq![example_missing_view(dir, first_concrete_path(rs, 0))]
    } else {
        seq![]
    }) + contract_findings(dir, rs, contract, sync, concrete, excluded) + override_findings(dir, rs)
}


/// Two contract files are ordered both ways only when their names agree.
proof fn lemma_record_le_antisym(names: Seq<Seq<char>>, i: int, j: int)
    requires
        record_le(names, i, j),
        record_le(names, j, i),
    ensures
        names[i] == names[j],
{
    crate::text::lemma_text_le_antisym(names[i], names[j]);
}

proof fn lemma_orders_agree(rs: Seq<EnvRecord>, c1: Seq<int>, c2: Seq<int>, k: int)
    requires
        contract_order(rs, c1),
        contract_order(rs, c2),
        forall|a: int, b: int|
            0 <= a < b < rs.len() && rs[a].is_template && rs[b].is_template ==> #[trigger] rs[a].name@
                != #[trigger] rs[b].name@,
        0 <= k <= c1.len(),
    ensures
        forall|m: int| 0 <= m < k ==> #[trigger] c1[m] == c2[m],
    decreases k,
{
    if k > 0 {
        lemma_orders_agree(rs, c1, c2, k - 1);
        let x = k - 1;
        if c1[x] != c2[x] {
            let names = record_names(rs);
            assert(rs[c1[x]].is_template && rs[c2[x]].is_template);
            assert(c2.contains(c1[x]));
            let m = choose|m: int| 0 <= m < c2.len() && c2[m] == c1[x];
            assert(c1.contains(c2[x]));
            let m2 = choose|m: int| 0 <= m < c1.len() && c1[m] == c2[x];
            if m < x {
                assert(c1[m] == c2[m]);
            }
            if m2 < x {
                assert(c2[m2] == c1[m2]);
            }
            assert(m > x && m2 > x);
            assert(record_le(names, c2[x], c2[m]));
            assert(record_le(names, c1[x], c1[m2]));
            lemma_record_le_antisym(names, c1[x], c2[x]);
            let a = if c1[x] < c2[x] { c1[x] } else { c2[x] };
            let b = if c1[x] < c2[x] { c2[x] } else { c1[x] };
            assert(rs[a].name@ != rs[b].name@);
        }
    }
}

/// When the contract files of a directory have different names, the order
/// in which they are consulted is determined: any two orders that list
/// each of them once, by preference and then by name, agree.
pub proof fn lemma_contract_order_unique(rs: Seq<EnvRecord>, c1: Seq<int>, c2: Seq<int>)
    requires
        contract_order(rs, c1),
        contract_order(rs, c2),
        forall|a: int, b: int|
            0 <= a < b < rs.len() && rs[a].is_template && rs[b].is_template ==> #[trigger] rs[a].name@
                != #[trigger] rs[b].name@,
    ensures
        c1 == c2,
{
    lemma_orders_agree(rs, c1, c2, c1.len() as int);
    assert(c1 =~= c2);
}

fn push_env(out: &mut Vec<EnvFinding>, f: EnvFinding)
    ensures
        env_views(final(out)@) == env_views(old(out)@).push(env_view(f)),
{
    let ghost before = out@;
    out.push(f);
    assert(env_views(out@) =~= env_views(before).push(env_view(f)));
}

fn copy_strings(v: &Vec<String>) -> (out: Vec<String>)
    ensures
        out@ == v@,
{
    let mut out: Vec<String> = Vec::new();
    let mut i: usize = 0;
    while i < v.len()
        invariant
            i <= v@.len(),
            out@ == v@.take(i as int),
        decreases v@.len() - i,
    {
        out.push(v[i].clone());
        assert(v@.take(i + 1) =~= v@.take(i as int).push(v@[i as int]));
        i += 1;
    }
    assert(v@.take(v@.len() as int) =~= v@);
    out
}

fn line_findings_exec(out: &mut Vec<EnvFinding>, r: &EnvRecord)
    ensures
        env_views(final(out)@) == env_views(old(out)@) + line_findings(*r),
{
    let ghost start = env_views(out@);
    let ghost dups = r.duplicates@.map_values(|d: (String, u64, u64)| dup_view(r.path@, d.0@, d.1, d.2));
    let ghost lines = r.invalid_lines@.map_values(|l: u64| invalid_view(r.path@, l));
    let mut i: usize = 0;
    while i < r.duplicates.len()
        invariant
            i <= r.duplicates@.len(),
            dups == r.duplicates@.map_values(|d: (String, u64, u64)| dup_view(r.path@, d.0@, d.1, d.2)),
            env_views(out@) == start + dups.take(i as int),
        decreases r.duplicates@.len() - i,
    {
        let (key, first, second) = &r.duplicates[i];
        let f = duplicate_key_finding(r.path.as_str(), key.as_str(), *first, *second);
        assert(env_view(f) == dups[i as int]);
        push_env(out, f);
        assert(dups.take(i + 1) =~= dups.take(i as int).push(dups[i as int]));
        i += 1;
    }
    assert(dups.take(r.duplicates@.len() as int) =~= dups);
    let mut j: usize = 0;
    while j < r.invalid_lines.len()
        invariant
            j <= r.invalid_lines@.len(),
            lines == r.invalid_lines@.map_values(|l: u64| invalid_view(r.path@, l)),
            env_views(out@) == start + dups + lines.take(j as int),
        decreases r.invalid_lines@.len() - j,
    {
        let f = invalid_line_finding(r.path.as_str(), r.invalid_lines[j]);
        assert(env_view(f) == lines[j as int]);
        push_env(out, f);
        assert(lines.take(j + 1) =~= lines.take(j as int).push(lines[j as int]));
        j += 1;
    }
    assert(lines.take(r.invalid_lines@.len() as int) =~= lines);
    assert(start + dups + lines =~= start + line_findings(*r));
}


fn first_named_exec(records: &Vec<EnvRecord>, name: &str) -> (r: Option<usize>)
    ensures
        match r {
            Some(k) => first_named(records@, name@, 0) == Some(k as int) && k < records@.len(),
            None => first_named(records@, name@, 0) is None,
        },
{
    let mut k: usize = 0;
    while k < records.len()
        invariant
            k <= records@.len(),
            first_named(records@, name@, 0) == first_named(records@, name@, k as int),
        decreases records@.len() - k,
    {
        if chars_eq_str(chars_of(records[k].name.as_str()).as_slice(), name) {
            return Some(k);
        }
        k += 1;
    }
    None
}

/// The contract files in the order they are consulted.
fn contract_files(records: &Vec<EnvRecord>) -> (contract: Vec<usize>)
    ensures
        contract_order(records@, contract@.map_values(|x: usize| x as int)),
{
    let ghost rs = records@;
    let mut tidx: Vec<usize> = Vec::new();
    let mut tnames: Vec<String> = Vec::new();
    let mut i: usize = 0;
    while i < records.len()
        invariant
            i <= records@.len(),
            rs == records@,
            tidx@.len() == tnames@.len(),
            tidx@.len() == template_count(rs, i as int),
            forall|j: int| 0 <= j < tidx@.len() ==> #[trigger] tidx@[j] < i && rs[tidx@[j] as int].is_template
                && tnames@[j]@ == rs[tidx@[j] as int].name@,
            forall|a: int, b: int| 0 <= a < b < tidx@.len() ==> #[trigger] tidx@[a] < #[trigger] tidx@[b],
            forall|i2: int| 0 <= i2 < i && #[trigger] rs[i2].is_template ==> exists|j: int| 0 <= j < tidx@.len() && tidx@[j] == i2,
        decreases records@.len() - i,
    {
        let ghost tb = tidx@;
        if records[i].is_template {
            tidx.push(i);
            tnames.push(records[i].name.clone());
            assert forall|i2: int| 0 <= i2 < i + 1 && #[trigger] rs[i2].is_template implies exists|j: int|
                0 <= j < tidx@.len() && tidx@[j] == i2 by {
                if i2 < i {
                    let j = choose|j: int| 0 <= j < tb.len() && tb[j] == i2;
                    assert(tidx@[j] == i2);
                } else {
                    assert(tidx@[tb.len() as int] == i2);
                }
            }
        }
        i += 1;
    }
    let order = sort_contract_records(&tnames);
    let ghost t = tnames@.len() as int;
    let ghost os = order@.map_values(|x: usize| x as int);
    proof {
        assert(os.no_duplicates()) by {
            assert forall|a: int, b: int| 0 <= a < os.len() && 0 <= b < os.len() && a != b implies os[a] != os[b] by {
                if a < b {
                    assert(order@[a] != order@[b]);
                } else {
                    assert(order@[b] != order@[a]);
                }
            }
        }
        os.unique_seq_to_set();
        vstd::set_lib::lemma_int_range(0, t);
        assert(os.to_set().subset_of(vstd::set_lib::set_int_range(0, t))) by {
            assert forall|x: int| os.to_set().contains(x) implies vstd::set_lib::set_int_range(0, t).contains(x) by {
                let k = choose|k: int| 0 <= k < os.len() && os[k] == x;
                assert(order@[k] < t);
            }
        }
        vstd::seq_lib::seq_to_set_is_finite(os);
        vstd::set_lib::lemma_subset_equality(os.to_set(), vstd::set_lib::set_int_range(0, t));
    }
    let mut contract: Vec<usize> = Vec::new();
    let mut k: usize = 0;
    while k < order.len()
        invariant
            k <= order@.len(),
            order@.len() == tnames@.len(),
            tidx@.len() == tnames@.len(),
            forall|m: int| 0 <= m < order@.len() ==> #[trigger] order@[m] < tnames@.len(),
            contract@.len() == k,
            forall|m: int| 0 <= m < k ==> #[trigger] contract@[m] == tidx@[order@[m] as int],
        decreases order@.len() - k,
    {
        contract.push(tidx[order[k]]);
        k += 1;
    }
    let ghost cv = contract@.map_values(|x: usize| x as int);
    let ghost names = record_names(rs);
    assert forall|i2: int| 0 <= i2 < rs.len() && #[trigger] rs[i2].is_template implies cv.contains(i2) by {
        let j = choose|j: int| 0 <= j < tidx@.len() && tidx@[j] == i2;
        assert(vstd::set_lib::set_int_range(0, t).contains(j));
        assert(os.to_set().contains(j));
        let k = choose|k: int| 0 <= k < os.len() && os[k] == j;
        assert(cv[k] == i2);
    }
    assert forall|m: int| 0 <= m < cv.len() implies 0 <= #[trigger] cv[m] < rs.len() && rs[cv[m]].is_template by {
        assert(cv[m] == tidx@[order@[m] as int] as int);
    }
    assert forall|a: int, b: int| 0 <= a < b < cv.len() implies #[trigger] cv[a] != #[trigger] cv[b] by {
        let oa = order@[a] as int;
        let ob = order@[b] as int;
        assert(oa != ob);
        if oa < ob {
            assert(tidx@[oa] < tidx@[ob]);
        } else {
            assert(tidx@[ob] < tidx@[oa]);
        }
    }
    assert forall|a: int, b: int| 0 <= a < b < cv.len() implies record_le(names, #[trigger] cv[a], #[trigger] cv[b]) by {
        let oa = order@[a] as int;
        let ob = order@[b] as int;
        assert(record_le(string_views(tnames@), oa, ob));
        assert(string_views(tnames@)[oa] == names[cv[a]]);
        assert(string_views(tnames@)[ob] == names[cv[b]]);
    }
    contract
}

// ---------------------------------------------------------------------
// The fixes
// ---------------------------------------------------------------------

/// A fix as (id, title, files).
pub open spec fn fix_view(f: EnvFix) -> (Seq<char>, Seq<char>, Seq<Seq<char>>) {
    (f.id@, f.title@, string_views(f.files@))
}

pub open spec fn fix_views(v: Seq<EnvFix>) -> Seq<(Seq<char>, Seq<char>, Seq<Seq<char>>)> {
    v.map_values(|f: EnvFix| fix_view(f))
}

/// The fix that creates the directory's `.env.example`.
pub open spec fn create_fix_view(root_dir: Seq<char>, dir: Seq<char>) -> (Seq<char>, Seq<char>, Seq<Seq<char>>) {
    let target = joined_text(dir, ".env.example"@);
    (create_fix_id(dir), "Create "@ + display_path(root_dir, target), seq![target])
}

/// The fix that appends the missing keys to the contract file at `path`.
pub open spec fn sync_fix_view(root_dir: Seq<char>, dir: Seq<char>, path: Seq<char>) -> (
    Seq<char>,
    Seq<char>,
    Seq<Seq<char>>,
) {
    (sync_fix_id(dir), "Append missing keys to "@ + display_path(root_dir, path), seq![path])
}

/// The fixes of one directory: creating `.env.example` when the missing
/// contract is reported, or appending the missing keys when the sync
/// finding is.
pub open spec fn directory_fixes(root_dir: Seq<char>, dir: Seq<char>, rs: Seq<EnvRecord>, contract: Seq<int>) -> Seq<
    (Seq<char>, Seq<char>, Seq<Seq<char>>),
> {
    let concrete = concrete_keys(rs, rs.len() as int);
    let sync = without_ambient(contract_keys(concrete));
    if contract.len() == 0 {
        if sync.len() > 0 {
            seq![create_fix_view(root_dir, dir)]
        } else {
            seq![]
        }
    } else {
        let ex = rs[contract[0]];
        if keys_not_in(sync, string_views(ex.keys@)).len() > 0 {
            seq![sync_fix_view(root_dir, dir, ex.path@)]
        } else {
            seq![]
        }
    }
}

fn joined_exec(dir: &str, name: &str) -> (r: String)
    ensures
        r@ == joined_text(dir@, name@),
{
    let dc = chars_of(dir);
    let mut joined: Vec<char> = Vec::new();
    append_str(&mut joined, dir);
    if dc.len() > 0 && dc[dc.len() - 1] != '/' {
        joined.push('/');
    }
    append_str(&mut joined, name);
    string_from(joined.as_slice())
}

fn create_fix(root_dir: &str, directory: &str) -> (r: EnvFix)
    ensures
        fix_view(r) == create_fix_view(root_dir@, directory@),
{
    let target = joined_exec(directory, ".env.example");
    let mut id: Vec<char> = Vec::new();
    append_str(&mut id, "env-example:create:");
    append_str(&mut id, directory);
    let mut title: Vec<char> = Vec::new();
    append_str(&mut title, "Create ");
    append_str(&mut title, relative_display_path(root_dir, target.as_str()).as_str());
    let files = vec![target];
    assert(string_views(files@) =~= seq![joined_text(directory@, ".env.example"@)]);
    EnvFix { id: string_from(id.as_slice()), title: string_from(title.as_slice()), files }
}

fn sync_fix(root_dir: &str, directory: &str, path: &str) -> (r: EnvFix)
    ensures
        fix_view(r) == sync_fix_view(root_dir@, directory@, path@),
{
    let mut id: Vec<char> = Vec::new();
    append_str(&mut id, "env-example:sync:");
    append_str(&mut id, directory);
    let mut title: Vec<char> = Vec::new();
    append_str(&mut title, "Append missing keys to ");
    append_str(&mut title, relative_display_path(root_dir, path).as_str());
    let files = vec![string_from(chars_of(path).as_slice())];
    assert(string_views(files@) =~= seq![path@]);
    EnvFix { id: string_from(id.as_slice()), title: string_from(title.as_slice()), files }
}

/// The findings of the env check for one directory: `root_dir` is the
/// project root, `directory` the directory, `records` what reading each of
/// its env files gave (in the directory's order), and `excluded` the keys
/// that need no local value.
pub fn env_directory_findings(
    root_dir: &str,
    directory: &str,
    records: &Vec<EnvRecord>,
    excluded: &Vec<String>,
) -> (out: (Vec<EnvFinding>, Vec<EnvFix>))
    ensures
        exists|contract: Seq<int>|
            contract_order(records@, contract) && env_views(out.0@) == directory_findings(
                root_dir@,
                directory@,
                records@,
                contract,
                string_views(excluded@),
            ) && fix_views(out.1@) == directory_fixes(root_dir@, directory@, records@, contract),
{
    let ghost rs = records@;
    let n = records.len();
    let mut fixes: Vec<EnvFix> = Vec::new();
    let mut out: Vec<EnvFinding> = Vec::new();
    let mut i: usize = 0;
    assert(env_views(out@) =~= Seq::<EnvView>::empty());
    while i < n
        invariant
            n == records@.len(),
            i <= n,
            rs == records@,
            env_views(out@) == lines_upto(rs, i as int),
        decreases n - i,
    {
        line_findings_exec(&mut out, &records[i]);
        i += 1;
    }
    let ghost after_lines = env_views(out@);
    let mut lists: Vec<Vec<String>> = Vec::new();
    let mut i: usize = 0;
    assert(record_views(lists@) =~= Seq::<Seq<Seq<char>>>::empty());
    while i < n
        invariant
            n == records@.len(),
            i <= n,
            rs == records@,
            env_views(out@) == after_lines + unprotected_upto(root_dir@, directory@, rs, i as int),
            record_views(lists@) == concrete_keys(rs, i as int),
        decreases n - i,
    {
        let r = &records[i];
        let ghost before = env_views(out@);
        if r.is_concrete && !r.protected {
            let hint = format_gitignore_protection_hint(root_dir, directory, r.path.as_str());
            let f = unprotected_env_finding(r.path.as_str(), r.name.as_str(), hint.as_str());
            assert(env_view(f) == unprotected_view(r.path@, r.name@, protection_hint(root_dir@, directory@, r.path@)));
            push_env(&mut out, f);
        } else {
            assert(before + Seq::<EnvView>::empty() =~= before);
        }
        if r.is_concrete {
            let ghost lb = record_views(lists@);
            lists.push(copy_strings(&r.keys));
            assert(record_views(lists@) =~= lb.push(string_views(r.keys@)));
        }
        i += 1;
    }
    let ghost concrete = concrete_keys(rs, n as int);
    let sync = collect_sync_target_keys(&lists);
    let contract = contract_files(records);
    let ghost cv = contract@.map_values(|x: usize| x as int);
    let ghost head = env_views(out@);
    if sync.len() > 0 && contract.len() == 0 {
        let first = match first_concrete_exec(records) {
            Some(c) => Some(&records[c].path),
            None => None,
        };
        push_env(&mut out, example_missing_finding(directory, first));
        fixes.push(create_fix(root_dir, directory));
    } else {
        assert(head + Seq::<EnvView>::empty() =~= head);
    }
    let ghost head2 = env_views(out@);
    if contract.len() > 0 {
        assert(cv[0] == contract@[0] as int);
        assert(0 <= cv[0] < rs.len());
        let ex = &records[contract[0]];
        let missing = keys_missing_from(&sync, &ex.keys);
        let ghost h = env_views(out@);
        if missing.len() > 0 {
            let f = example_sync_finding(directory, ex.name.as_str(), ex.path.as_str(), &missing);
            push_env(&mut out, f);
            fixes.push(sync_fix(root_dir, directory, ex.path.as_str()));
        } else {
            assert(h + Seq::<EnvView>::empty() =~= h);
        }
        let ghost after_sync = env_views(out@);
        let mut k: usize = 0;
        while k < contract.len()
            invariant
                k <= contract@.len(),
                rs == records@,
                cv == contract@.map_values(|x: usize| x as int),
                contract_order(rs, cv),
                env_views(out@) == after_sync + secret_upto(rs, cv, k as int),
            decreases contract@.len() - k,
        {
            assert(cv[k as int] == contract@[k as int] as int);
            assert(0 <= cv[k as int] < rs.len());
            let r = &records[contract[k]];
            let ghost want = r.secret_keys@.map_values(|key: String| secret_view(r.path@, r.name@, key@));
            let ghost before = env_views(out@);
            let mut j: usize = 0;
            while j < r.secret_keys.len()
                invariant
                    j <= r.secret_keys@.len(),
                    want == r.secret_keys@.map_values(|key: String| secret_view(r.path@, r.name@, key@)),
                    env_views(out@) == before + want.take(j as int),
                decreases r.secret_keys@.len() - j,
            {
                let f = example_secret_finding(r.path.as_str(), r.name.as_str(), r.secret_keys[j].as_str());
                assert(env_view(f) == want[j as int]);
                push_env(&mut out, f);
                assert(want.take(j + 1) =~= want.take(j as int).push(want[j as int]));
                j += 1;
            }
            assert(want.take(r.secret_keys@.len() as int) =~= want);
            k += 1;
        }
        let ghost after_secrets = env_views(out@);
        if lists.len() > 0 {
            let provided = collect_contract_keys(&lists);
            let unmet = missing_concrete_keys(&ex.keys, &provided, excluded);
            if unmet.len() > 0 {
                push_env(&mut out, missing_concrete_finding(directory, ex.path.as_str(), &unmet));
            } else {
                assert(after_secrets + Seq::<EnvView>::empty() =~= after_secrets);
            }
        } else {
            assert(after_secrets + Seq::<EnvView>::empty() =~= after_secrets);
        }
    } else {
        assert(head2 + Seq::<EnvView>::empty() =~= head2);
    }
    let ghost head3 = env_views(out@);
    match (first_named_exec(records, ".env"), first_named_exec(records, ".env.local")) {
        (Some(b), Some(l)) => {
            let o = local_override_keys(&records[b].values, &records[l].values);
            if o.len() > 0 {
                push_env(&mut out, local_override_finding(directory, records[l].path.as_str(), &o));
            } else {
                assert(head3 + Seq::<EnvView>::empty() =~= head3);
            }
        },
        _ => {
            assert(head3 + Seq::<EnvView>::empty() =~= head3);
        },
    }
    assert(env_views(out@) =~= directory_findings(root_dir@, directory@, rs, cv, string_views(excluded@)));
    assert(fix_views(fixes@) =~= directory_fixes(root_dir@, directory@, rs, cv));
    (out, fixes)
}


// ---------------------------------------------------------------------
// Fixes and findings agree
// ---------------------------------------------------------------------

/// The fix ids that the fixable findings name, in order.
pub open spec fn fixable_ids(fs: Seq<EnvView>) -> Seq<Seq<char>>
    decreases fs.len(),
{
    if fs.len() == 0 {
        seq![]
    } else {
        fixable_ids(fs.drop_last()) + if fs.last().7 {
            fs.last().6
        } else {
            seq![]
        }
    }
}

proof fn lemma_fixable_concat(a: Seq<EnvView>, b: Seq<EnvView>)
    ensures
        fixable_ids(a + b) == fixable_ids(a) + fixable_ids(b),
    decreases b.len(),
{
    if b.len() == 0 {
        assert(a + b =~= a);
        assert(fixable_ids(a) + Seq::<Seq<char>>::empty() =~= fixable_ids(a));
    } else {
        lemma_fixable_concat(a, b.drop_last());
        assert((a + b).drop_last() =~= a + b.drop_last());
        assert((a + b).last() == b.last());
        let t: Seq<Seq<char>> = if b.last().7 {
            b.last().6
        } else {
            seq![]
        };
        assert(fixable_ids(a) + fixable_ids(b.drop_last()) + t =~= fixable_ids(a) + (fixable_ids(
            b.drop_last(),
        ) + t));
    }
}

/// None of the findings is fixable.
pub open spec fn none_fixable(fs: Seq<EnvView>) -> bool {
    forall|i: int| 0 <= i < fs.len() ==> !(#[trigger] fs[i]).7
}

proof fn lemma_none_fixable(fs: Seq<EnvView>)
    requires
        none_fixable(fs),
    ensures
        fixable_ids(fs) == Seq::<Seq<char>>::empty(),
    decreases fs.len(),
{
    if fs.len() > 0 {
        assert(none_fixable(fs.drop_last())) by {
            assert forall|i: int| 0 <= i < fs.drop_last().len() implies !(#[trigger] fs.drop_last()[i]).7 by {
                assert(fs.drop_last()[i] == fs[i]);
            }
        }
        lemma_none_fixable(fs.drop_last());
        assert(!fs[fs.len() - 1].7);
        assert(Seq::<Seq<char>>::empty() + Seq::<Seq<char>>::empty() =~= Seq::<Seq<char>>::empty());
    }
}

proof fn lemma_lines_not_fixable(rs: Seq<EnvRecord>, n: int)
    ensures
        none_fixable(lines_upto(rs, n)),
    decreases n,
{
    if n > 0 {
        lemma_lines_not_fixable(rs, n - 1);
        let prev = lines_upto(rs, n - 1);
        let l = line_findings(rs[n - 1]);
        let cur = lines_upto(rs, n);
        assert forall|i: int| 0 <= i < cur.len() implies !(#[trigger] cur[i]).7 by {
            if i < prev.len() {
                assert(cur[i] == prev[i]);
            } else {
                assert(cur[i] == l[i - prev.len()]);
                let d = rs[n - 1].duplicates@.len();
                if i - prev.len() >= d {
                    assert(l[i - prev.len()] == rs[n - 1].invalid_lines@.map_values(
                        |x: u64| invalid_view(rs[n - 1].path@, x),
                    )[i - prev.len() - d]);
                }
            }
        }
    }
}

proof fn lemma_unprotected_not_fixable(root_dir: Seq<char>, dir: Seq<char>, rs: Seq<EnvRecord>, n: int)
    ensures
        none_fixable(unprotected_upto(root_dir, dir, rs, n)),
    decreases n,
{
    if n > 0 {
        lemma_unprotected_not_fixable(root_dir, dir, rs, n - 1);
        let prev = unprotected_upto(root_dir, dir, rs, n - 1);
        let cur = unprotected_upto(root_dir, dir, rs, n);
        assert forall|i: int| 0 <= i < cur.len() implies !(#[trigger] cur[i]).7 by {
            if i < prev.len() {
                assert(cur[i] == prev[i]);
            }
        }
    }
}

proof fn lemma_secrets_not_fixable(rs: Seq<EnvRecord>, contract: Seq<int>, n: int)
    ensures
        none_fixable(secret_upto(rs, contract, n)),
    decreases n,
{
    if n > 0 {
        lemma_secrets_not_fixable(rs, contract, n - 1);
        let prev = secret_upto(rs, contract, n - 1);
        let cur = secret_upto(rs, contract, n);
        let r = rs[contract[n - 1]];
        let m = r.secret_keys@.map_values(|k: String| secret_view(r.path@, r.name@, k@));
        assert forall|i: int| 0 <= i < cur.len() implies !(#[trigger] cur[i]).7 by {
            if i < prev.len() {
                assert(cur[i] == prev[i]);
            } else {
                assert(cur[i] == m[i - prev.len()]);
            }
        }
    }
}

/// The fixes of a directory are exactly what its fixable findings name, in
/// the same order: a fix for each fixable finding, and a fixable finding
/// for each fix.
pub proof fn lemma_fixes_match_findings(
    root_dir: Seq<char>,
    dir: Seq<char>,
    rs: Seq<EnvRecord>,
    contract: Seq<int>,
    excluded: Seq<Seq<char>>,
)
    ensures
        fixable_ids(directory_findings(root_dir, dir, rs, contract, excluded)) == directory_fixes(
            root_dir,
            dir,
            rs,
            contract,
        ).map_values(|f: (Seq<char>, Seq<char>, Seq<Seq<char>>)| f.0),
{
    let n = rs.len() as int;
    let concrete = concrete_keys(rs, n);
    let sync = without_ambient(contract_keys(concrete));
    let a = lines_upto(rs, n);
    let b = unprotected_upto(root_dir, dir, rs, n);
    let c: Seq<EnvView> = if sync.len() > 0 && contract.len() == 0 {
        seq![example_missing_view(dir, first_concrete_path(rs, 0))]
    } else {
        seq![]
    };
    let d = contract_findings(dir, rs, contract, sync, concrete, excluded);
    let e = override_findings(dir, rs);
    lemma_lines_not_fixable(rs, n);
    lemma_none_fixable(a);
    lemma_unprotected_not_fixable(root_dir, dir, rs, n);
    lemma_none_fixable(b);
    lemma_fixable_concat(a, b);
    lemma_fixable_concat(a + b, c);
    lemma_fixable_concat(a + b + c, d);
    lemma_fixable_concat(a + b + c + d, e);
    assert(none_fixable(e));
    lemma_none_fixable(e);
    assert(fixable_ids(c) =~= (if sync.len() > 0 && contract.len() == 0 {
        seq![create_fix_id(dir)]
    } else {
        seq![]
    })) by {
        if sync.len() > 0 && contract.len() == 0 {
            assert(c.drop_last() =~= Seq::<EnvView>::empty());
        }
    }
    if contract.len() == 0 {
        assert(d =~= Seq::<EnvView>::empty());
    } else {
        let ex = rs[contract[0]];
        let missing = keys_not_in(sync, string_views(ex.keys@));
        let unmet = keys_not_in(keys_not_in(string_views(ex.keys@), contract_keys(concrete)), excluded);
        let d1: Seq<EnvView> = if missing.len() > 0 {
            seq![sync_view(dir, ex.name@, ex.path@, missing)]
        } else {
            seq![]
        };
        let d2 = secret_upto(rs, contract, contract.len() as int);
        let d3: Seq<EnvView> = if concrete.len() > 0 && unmet.len() > 0 {
            seq![missing_concrete_view(dir, ex.path@, unmet)]
        } else {
            seq![]
        };
        assert(d == d1 + d2 + d3);
        lemma_fixable_concat(d1, d2);
        lemma_fixable_concat(d1 + d2, d3);
        lemma_secrets_not_fixable(rs, contract, contract.len() as int);
        lemma_none_fixable(d2);
        assert(none_fixable(d3));
        lemma_none_fixable(d3);
        if missing.len() > 0 {
            assert(d1.drop_last() =~= Seq::<EnvView>::empty());
        }
    }
    let all = directory_findings(root_dir, dir, rs, contract, excluded);
    assert(all == a + b + c + d + e);
}

} // verus!
