//! JSX runtimes other than React: a package that depends on Preact or
//! Solid and compiles JSX with the automatic runtime should point
//! `jsxImportSource` at that framework.
use vstd::prelude::*;
use crate::json::{
    get_spec, has_key_spec, lemma_member_index, member_index, section_has, section_has_key, JsonValue,
};
use crate::text::{append_str, chars_eq_str, chars_of, string_from};
use crate::registry::Severity;

verus! {

/// The frameworks whose JSX runtime the check knows.
#[derive(PartialEq, Eq, Structural, Clone, Copy, Debug)]
pub enum FrameworkRuntime {
    Preact,
    Solid,
}

/// The package name of a framework.
pub open spec fn dependency_name_spec(r: FrameworkRuntime) -> &'static str {
    match r {
        FrameworkRuntime::Preact => "preact",
        FrameworkRuntime::Solid => "solid-js",
    }
}

impl FrameworkRuntime {
    /// The package whose dependency marks this runtime.
    pub fn dependency_name(self) -> (r: &'static str)
        ensures
            r == dependency_name_spec(self),
    {
        match self {
            FrameworkRuntime::Preact => "preact",
            FrameworkRuntime::Solid => "solid-js",
        }
    }

    /// The framework's package.
    pub fn jsx_import_source(self) -> (r: &'static str)
        ensures
            r == dependency_name_spec(self),
    {
        self.dependency_name()
    }
}

/// Some dependency map of the manifest names it.
pub open spec fn depends_on(package_json: JsonValue, name: Seq<char>) -> bool {
    ||| section_has(package_json, "dependencies"@, name)
    ||| section_has(package_json, "devDependencies"@, name)
    ||| section_has(package_json, "peerDependencies"@, name)
    ||| section_has(package_json, "optionalDependencies"@, name)
}

pub fn package_depends_on(package_json: &JsonValue, dependency_name: &str) -> (r: bool)
    ensures
        r == depends_on(*package_json, dependency_name@),
{
    section_has_key(package_json, "dependencies", dependency_name) || section_has_key(
        package_json,
        "devDependencies",
        dependency_name,
    ) || section_has_key(package_json, "peerDependencies", dependency_name) || section_has_key(
        package_json,
        "optionalDependencies",
        dependency_name,
    )
}

/// The four dependency maps of a manifest.
pub open spec fn dependency_section(section: Seq<char>) -> bool {
    ||| section == "dependencies"@
    ||| section == "devDependencies"@
    ||| section == "peerDependencies"@
    ||| section == "optionalDependencies"@
}

/// A package that lists a name as a key of any of its dependency maps
/// depends on it, whichever map that is.
pub proof fn lemma_listed_dependency(
    package_json: JsonValue,
    section: Seq<char>,
    members: Vec<(String, JsonValue)>,
    i: int,
)
    requires
        dependency_section(section),
        get_spec(package_json, section) == Some(JsonValue::Object(members)),
        0 <= i < members@.len(),
    ensures
        depends_on(package_json, members@[i].0@),
{
    let name = members@[i].0@;
    lemma_member_index(members@, name);
    assert(has_key_spec(JsonValue::Object(members), name));
    assert(section_has(package_json, section, name));
}

/// A package depends on a name only when one of its dependency maps is an
/// object with that key.
pub proof fn lemma_dependency_is_listed(package_json: JsonValue, name: Seq<char>)
    requires
        depends_on(package_json, name),
    ensures
        exists|section: Seq<char>, members: Vec<(String, JsonValue)>, i: int|
            #![trigger get_spec(package_json, section), members@[i]]
            dependency_section(section) && get_spec(package_json, section) == Some(
                JsonValue::Object(members),
            ) && 0 <= i < members@.len() && members@[i].0@ == name,
{
    let section = if section_has(package_json, "dependencies"@, name) {
        "dependencies"@
    } else if section_has(package_json, "devDependencies"@, name) {
        "devDependencies"@
    } else if section_has(package_json, "peerDependencies"@, name) {
        "peerDependencies"@
    } else {
        "optionalDependencies"@
    };
    let inner = get_spec(package_json, section)->0;
    let members = inner->Object_0;
    lemma_member_index(members@, name);
    let i = member_index(members@, name)->0;
    assert(get_spec(package_json, section) == Some(JsonValue::Object(members)));
    assert(members@[i].0@ == name);
}

/// A package that lists `preact` in any dependency map is a Preact
/// package; one that lists `solid-js` somewhere is a Preact or Solid
/// package, and a Solid one unless it also depends on `preact`.
pub proof fn lemma_framework_from_listing(
    package_json: JsonValue,
    section: Seq<char>,
    members: Vec<(String, JsonValue)>,
    i: int,
)
    requires
        dependency_section(section),
        get_spec(package_json, section) == Some(JsonValue::Object(members)),
        0 <= i < members@.len(),
    ensures
        members@[i].0@ == "preact"@ ==> framework_of(package_json) == Some(FrameworkRuntime::Preact),
        members@[i].0@ == "solid-js"@ ==> framework_of(package_json) is Some,
        members@[i].0@ == "solid-js"@ && !depends_on(package_json, "preact"@) ==> framework_of(
            package_json,
        ) == Some(FrameworkRuntime::Solid),
{
    lemma_listed_dependency(package_json, section, members, i);
}

/// Preact first, then Solid.
pub open spec fn framework_of(package_json: JsonValue) -> Option<FrameworkRuntime> {
    if depends_on(package_json, "preact"@) {
        Some(FrameworkRuntime::Preact)
    } else if depends_on(package_json, "solid-js"@) {
        Some(FrameworkRuntime::Solid)
    } else {
        None
    }
}

pub fn detect_framework_runtime(package_json: &JsonValue) -> (r: Option<FrameworkRuntime>)
    ensures
        r == framework_of(*package_json),
{
    if package_depends_on(package_json, FrameworkRuntime::Preact.dependency_name()) {
        Some(FrameworkRuntime::Preact)
    } else if package_depends_on(package_json, FrameworkRuntime::Solid.dependency_name()) {
        Some(FrameworkRuntime::Solid)
    } else {
        None
    }
}

/// `react-jsx` or `react-jsxdev`.
pub open spec fn automatic_jsx(mode: Option<Seq<char>>) -> bool {
    match mode {
        Some(m) => m == "react-jsx"@ || m == "react-jsxdev"@,
        None => false,
    }
}

pub fn uses_automatic_jsx_runtime(jsx_mode: Option<&str>) -> (r: bool)
    ensures
        r == automatic_jsx(match jsx_mode {
            Some(m) => Some(m@),
            None => None,
        }),
{
    match jsx_mode {
        Some(m) => {
            let c = chars_of(m);
            chars_eq_str(c.as_slice(), "react-jsx") || chars_eq_str(c.as_slice(), "react-jsxdev")
        },
        None => false,
    }
}

/// The finding of the JSX check: it points at the tsconfig and informs.
pub struct JsxFinding {
    pub id: String,
    pub file: String,
    pub severity: Severity,
    pub title: String,
    pub detail: String,
    pub hint: String,
}

/// Whether the compiler options call for a finding: the automatic runtime
/// is used and `jsxImportSource` is not the framework's package.
pub open spec fn jsx_finding_due(
    runtime: FrameworkRuntime,
    jsx_mode: Option<Seq<char>>,
    import_source: Option<Seq<char>>,
) -> bool {
    automatic_jsx(jsx_mode) && import_source != Some(dependency_name_spec(runtime)@)
}

/// The sentence on the current `jsxImportSource`.
pub open spec fn current_source_text(import_source: Option<Seq<char>>) -> Seq<char> {
    match import_source {
        Some(s) => "It currently points at "@ + s + "."@,
        None => "No jsxImportSource is configured yet."@,
    }
}

pub open spec fn opt_view(o: Option<&str>) -> Option<Seq<char>> {
    match o {
        Some(s) => Some(s@),
        None => None,
    }
}

/// The finding of the JSX check for one package, if any.
pub fn jsx_import_source_finding(
    tsconfig_path: &str,
    runtime: FrameworkRuntime,
    jsx_mode: Option<&str>,
    jsx_import_source: Option<&str>,
) -> (r: Option<JsxFinding>)
    ensures
        r is Some <==> jsx_finding_due(runtime, opt_view(jsx_mode), opt_view(jsx_import_source)),
        r matches Some(f) ==> {
            let dep = dependency_name_spec(runtime)@;
            &&& f.id@ == "jsx-config:"@ + tsconfig_path@
            &&& f.file@ == tsconfig_path@
            &&& f.severity == Severity::Info
            &&& f.title@ == dep + " JSX runtime should declare jsxImportSource"@
            &&& f.detail@ == "package.json depends on "@ + dep
                + ", but compilerOptions.jsxImportSource is missing or different. "@
                + current_source_text(opt_view(jsx_import_source))
            &&& f.hint@ == "Set compilerOptions.jsxImportSource to \""@ + dep
                + "\" so the JSX transform matches the framework runtime."@
        },
{
    if !uses_automatic_jsx_runtime(jsx_mode) {
        return None;
    }
    let dep = runtime.dependency_name();
    if let Some(source) = jsx_import_source {
        let s = chars_of(source);
        if chars_eq_str(s.as_slice(), runtime.jsx_import_source()) {
            return None;
        }
    }
    let mut title: Vec<char> = Vec::new();
    append_str(&mut title, dep);
    append_str(&mut title, " JSX runtime should declare jsxImportSource");
    let mut detail: Vec<char> = Vec::new();
    append_str(&mut detail, "package.json depends on ");
    append_str(&mut detail, dep);
    append_str(&mut detail, ", but compilerOptions.jsxImportSource is missing or different. ");
    match jsx_import_source {
        Some(source) => {
            append_str(&mut detail, "It currently points at ");
            append_str(&mut detail, source);
            append_str(&mut detail, ".");
        },
        None => {
            append_str(&mut detail, "No jsxImportSource is configured yet.");
        },
    }
    let mut hint: Vec<char> = Vec::new();
    append_str(&mut hint, "Set compilerOptions.jsxImportSource to \"");
    append_str(&mut hint, dep);
    append_str(&mut hint, "\" so the JSX transform matches the framework runtime.");
    let mut id: Vec<char> = Vec::new();
    append_str(&mut id, "jsx-config:");
    append_str(&mut id, tsconfig_path);
    Some(
        JsxFinding {
            id: string_from(id.as_slice()),
            file: string_from(chars_of(tsconfig_path).as_slice()),
            severity: Severity::Info,
            title: string_from(title.as_slice()),
            detail: string_from(detail.as_slice()),
            hint: string_from(hint.as_slice()),
        },
    )
}

} // verus!
