//! Agreement between `package.json` `type` and `compilerOptions.module`.
use vstd::prelude::*;
use crate::registry::Severity;
use crate::text::{append_chars, append_str, chars_eq_str, chars_of, debug_str, spec_debug_str, string_from};

verus! {

/// The conflicts the check knows.
pub open spec fn esm_conflict(package_type: Seq<char>, module: Seq<char>) -> bool {
    package_type == "module"@ && (module == "commonjs"@ || module == "amd"@ || module == "umd"@)
}

pub open spec fn cjs_conflict(package_type: Seq<char>, module: Seq<char>) -> bool {
    package_type == "commonjs"@ && (module == "esnext"@ || module == "preserve"@)
}

/// A finding: its severity, title, detail and hint.
pub struct ModuleSystemFinding {
    pub severity: Severity,
    pub title: &'static str,
    pub detail: String,
    pub hint: &'static str,
}

/// The finding for a `package.json` `type` that disagrees with the tsconfig `module` setting, if they disagree.
pub fn module_system_finding(package_type: &str, module_setting: Option<&str>) -> (r: Option<
    ModuleSystemFinding,
>)
    ensures
        match module_setting {
            None => r is None,
            Some(m) => if esm_conflict(package_type@, m@) {
                r matches Some(f) && f.severity == Severity::Error && f.title
                    == "Package ESM type conflicts with tsconfig module output" && f.detail@
                    == "package.json type is \"module\", but compilerOptions.module is "@
                    + spec_debug_str(m@) + "."@ && f.hint
                    == "Use an ESM-aware module target or switch package.json type back to commonjs so the runtime and compiler agree."
            } else if cjs_conflict(package_type@, m@) {
                r matches Some(f) && f.severity == Severity::Warn && f.title
                    == "Package CommonJS type conflicts with tsconfig module output" && f.detail@
                    == "package.json type is \"commonjs\", but compilerOptions.module is "@
                    + spec_debug_str(m@) + "."@ && f.hint
                    == "Use a CommonJS module target or update package.json type to match the emitted module system."
            } else {
                r is None
            },
        },
{
    let m = match module_setting {
        None => {
            return None;
        },
        Some(m) => m,
    };
    let t = chars_of(package_type);
    let mc = chars_of(m);
    let esm = chars_eq_str(t.as_slice(), "module") && (chars_eq_str(mc.as_slice(), "commonjs")
        || chars_eq_str(mc.as_slice(), "amd") || chars_eq_str(mc.as_slice(), "umd"));
    let cjs = chars_eq_str(t.as_slice(), "commonjs") && (chars_eq_str(mc.as_slice(), "esnext")
        || chars_eq_str(mc.as_slice(), "preserve"));
    if !esm && !cjs {
        return None;
    }
    let quoted = debug_str(m);
    let qc = chars_of(quoted.as_str());
    let mut detail: Vec<char> = Vec::new();
    if esm {
        append_str(&mut detail, "package.json type is \"module\", but compilerOptions.module is ");
    } else {
        append_str(&mut detail, "package.json type is \"commonjs\", but compilerOptions.module is ");
    }
    append_chars(&mut detail, qc.as_slice());
    append_str(&mut detail, ".");
    if esm {
        Some(
            ModuleSystemFinding {
                severity: Severity::Error,
                title: "Package ESM type conflicts with tsconfig module output",
                detail: string_from(detail.as_slice()),
                hint: "Use an ESM-aware module target or switch package.json type back to commonjs so the runtime and compiler agree.",
            },
        )
    } else {
        Some(
            ModuleSystemFinding {
                severity: Severity::Warn,
                title: "Package CommonJS type conflicts with tsconfig module output",
                detail: string_from(detail.as_slice()),
                hint: "Use a CommonJS module target or update package.json type to match the emitted module system.",
            },
        )
    }
}

} // verus!
