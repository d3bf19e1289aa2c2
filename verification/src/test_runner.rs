//! Jest and Vitest side by side: which file names are Vitest configs, which
//! directories the search skips, and when a directory declares both.
use vstd::prelude::*;
use crate::json::{has_key_spec, has_object_key, JsonValue};
use crate::text::{chars_eq_str, chars_of};

verus! {

/// Whether a file name is that of a Vitest config.
pub open spec fn vitest_config_name(name: Seq<char>) -> bool {
    ||| name == "vitest.config.js"@
    ||| name == "vitest.config.cjs"@
    ||| name == "vitest.config.mjs"@
    ||| name == "vitest.config.ts"@
    ||| name == "vitest.config.cts"@
    ||| name == "vitest.config.mts"@
}

pub fn is_vitest_config_name(name: &str) -> (r: bool)
    ensures
        r == vitest_config_name(name@),
{
    let n = chars_of(name);
    let s = n.as_slice();
    chars_eq_str(s, "vitest.config.js") || chars_eq_str(s, "vitest.config.cjs") || chars_eq_str(
        s,
        "vitest.config.mjs",
    ) || chars_eq_str(s, "vitest.config.ts") || chars_eq_str(s, "vitest.config.cts")
        || chars_eq_str(s, "vitest.config.mts")
}

/// Whether the walk for test-runner configs skips a directory name.
pub open spec fn skipped_directory(name: Seq<char>) -> bool {
    ||| name == ".git"@
    ||| name == "node_modules"@
    ||| name == "dist"@
    ||| name == "build"@
    ||| name == "coverage"@
    ||| name == "target"@
}

pub fn should_skip_directory(name: &str) -> (r: bool)
    ensures
        r == skipped_directory(name@),
{
    let n = chars_of(name);
    let s = n.as_slice();
    chars_eq_str(s, ".git") || chars_eq_str(s, "node_modules") || chars_eq_str(s, "dist")
        || chars_eq_str(s, "build") || chars_eq_str(s, "coverage") || chars_eq_str(s, "target")
}

/// The `package.json` document is an object
/// with the field.
pub fn package_has_config_field(package_json: &JsonValue, field: &str) -> (r: bool)
    ensures
        r == has_key_spec(*package_json, field@),
{
    has_object_key(package_json, field)
}

/// Whether `package.json` has a `jest` field.
pub fn package_has_jest_config(package_json: &JsonValue) -> (r: bool)
    ensures
        r == has_key_spec(*package_json, "jest"@),
{
    package_has_config_field(package_json, "jest")
}

/// Whether `package.json` has a `vitest` field.
pub fn package_has_vitest_config(package_json: &JsonValue) -> (r: bool)
    ensures
        r == has_key_spec(*package_json, "vitest"@),
{
    package_has_config_field(package_json, "vitest")
}

/// What one directory declares: a Jest config file, a Vitest config file,
/// and `jest`/`vitest` fields of its `package.json`.
pub struct TestRunnerSources {
    pub jest_file: bool,
    pub vitest_file: bool,
    pub package_jest: bool,
    pub package_vitest: bool,
}

/// A directory is reported when both runners are configured, by file or by
/// `package.json` field.
pub fn declares_both_runners(sources: &TestRunnerSources) -> (r: bool)
    ensures
        r == ((sources.jest_file || sources.package_jest) && (sources.vitest_file
            || sources.package_vitest)),
{
    let has_jest = sources.jest_file || sources.package_jest;
    let has_vitest = sources.vitest_file || sources.package_vitest;
    has_jest && has_vitest
}

} // verus!
