//! Package tsconfig files of a monorepo against the shared
//! `tsconfig.base.json` at the root: when the check applies, one step of
//! the walk up a package tsconfig's `extends` chain, and the finding for a
//! package that drifts from the shared base.
//!
//! Resolving `extends` paths and reading the files along the chain is the
//! caller's part; it hands each resolved parent to `chain_step`.
use vstd::prelude::*;
use crate::json::{as_str_spec, get_spec, get_str, JsonValue};
use crate::paths::{path_views, same_path, PathBase};
use crate::text::{append_str, string_from};

verus! {

/// The check looks at a repository with more than one package file and a
/// `tsconfig.base.json` at its root.
pub fn monorepo_check_applies(package_file_count: usize, root_base_is_file: bool) -> (r: bool)
    ensures
        r == (package_file_count > 1 && root_base_is_file),
{
    package_file_count > 1 && root_base_is_file
}

/// The `extends` of a tsconfig, when it is a string.
pub open spec fn extends_of(config: JsonValue) -> Option<Seq<char>> {
    as_str_spec(get_spec(config, "extends"@))
}

/// Where one step up the `extends` chain leads.
#[derive(PartialEq, Eq, Structural, Clone, Copy, Debug)]
pub enum ChainStep {
    /// The parent is the shared base: the package extends it.
    ReachesBase,
    /// The parent was met before: the chain loops without reaching it.
    AlreadySeen,
    /// Read the parent and go on from it.
    Continue,
}

/// One step up the `extends` chain towards the shared base: the resolved parent (paths
/// as the caller canonicalized them) is the shared base, or was already
/// visited, or is to be read next.
pub fn chain_step(parent: &PathBase, root_base: &PathBase, visited: &[PathBase]) -> (r: ChainStep)
    ensures
        (r == ChainStep::ReachesBase) == (parent@ == root_base@),
        (r == ChainStep::AlreadySeen) == (parent@ != root_base@ && path_views(visited@).contains(
            parent@,
        )),
{
    if same_path(parent, root_base) {
        return ChainStep::ReachesBase;
    }
    let mut i: usize = 0;
    while i < visited.len()
        invariant
            i <= visited@.len(),
            parent@ != root_base@,
            forall|k: int| 0 <= k < i ==> #[trigger] visited@[k]@ != parent@,
        decreases visited@.len() - i,
    {
        if same_path(&visited[i], parent) {
            assert(path_views(visited@)[i as int] == parent@);
            return ChainStep::AlreadySeen;
        }
        i += 1;
    }
    proof {
        assert forall|k: int| 0 <= k < path_views(visited@).len() implies path_views(visited@)[k]
            != parent@ by {
            assert(path_views(visited@)[k] == visited@[k]@);
        }
    }
    ChainStep::Continue
}

/// The title of the drift finding.
pub fn drift_title() -> (r: &'static str)
    ensures
        r@ == "Package tsconfig drifts from the shared base"@,
{
    "Package tsconfig drifts from the shared base"
}

/// The hint of the drift finding.
pub fn drift_hint() -> (r: &'static str)
    ensures
        r@
            == "Point package-level tsconfig files at the repo root tsconfig.base.json before adding local overrides."@,
{
    "Point package-level tsconfig files at the repo root tsconfig.base.json before adding local overrides."
}

/// The id of the drift finding for a package tsconfig.
pub fn drift_id(tsconfig_path: &str) -> (out: String)
    ensures
        out@ == "monorepo-tsconfig-drift:"@ + tsconfig_path@,
{
    let mut out: Vec<char> = Vec::new();
    append_str(&mut out, "monorepo-tsconfig-drift:");
    append_str(&mut out, tsconfig_path);
    string_from(out.as_slice())
}

/// The detail of the drift finding: what the package tsconfig extends now,
/// if anything, then what it should extend.
pub open spec fn drift_detail_text(config: JsonValue) -> Seq<char> {
    (match extends_of(config) {
        Some(e) => "It currently extends "@ + e + "."@,
        None => "It does not extend a shared base config."@,
    }) + " package config should extend tsconfig.base.json so shared compiler settings stay aligned."@
}

pub fn drift_detail(config: &JsonValue) -> (out: String)
    ensures
        out@ == drift_detail_text(*config),
{
    let mut out: Vec<char> = Vec::new();
    match get_str(config, "extends") {
        Some(e) => {
            append_str(&mut out, "It currently extends ");
            append_str(&mut out, e.as_str());
            append_str(&mut out, ".");
        },
        None => {
            append_str(&mut out, "It does not extend a shared base config.");
        },
    }
    append_str(
        &mut out,
        " package config should extend tsconfig.base.json so shared compiler settings stay aligned.",
    );
    string_from(out.as_slice())
}

} // verus!
