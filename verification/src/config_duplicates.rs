//! Tool configuration declared more than once in a directory: ESLint,
//! Prettier and Jest config files plus their `package.json` fields, and
//! legacy `.eslintrc*` files beside flat `eslint.config.*` ones.
use vstd::prelude::*;
use crate::json::{has_key_spec, has_object_key, JsonValue};
use crate::registry::Severity;
use crate::text::{append_chars, append_str, chars_of, decimal, starts_with, starts_with_str, string_from, u64_decimal};

verus! {

/// The tool families the check compares.
#[derive(PartialEq, Eq, Structural, Clone, Copy, Debug)]
pub enum ConfigFamily {
    Eslint,
    Prettier,
    Jest,
}

pub open spec fn family_label(f: ConfigFamily) -> &'static str {
    match f {
        ConfigFamily::Eslint => "ESLint",
        ConfigFamily::Prettier => "Prettier",
        ConfigFamily::Jest => "Jest",
    }
}

pub open spec fn family_package_field(f: ConfigFamily) -> &'static str {
    match f {
        ConfigFamily::Eslint => "eslintConfig",
        ConfigFamily::Prettier => "prettier",
        ConfigFamily::Jest => "jest",
    }
}

impl ConfigFamily {
    /// The family's name in findings.
    pub fn label(self) -> (r: &'static str)
        ensures
            r == family_label(self),
    {
        match self {
            ConfigFamily::Eslint => "ESLint",
            ConfigFamily::Prettier => "Prettier",
            ConfigFamily::Jest => "Jest",
        }
    }

    /// The `package.json` field that holds the family's config.
    pub fn package_field(self) -> (r: &'static str)
        ensures
            r == family_package_field(self),
    {
        match self {
            ConfigFamily::Eslint => "eslintConfig",
            ConfigFamily::Prettier => "prettier",
            ConfigFamily::Jest => "jest",
        }
    }

    /// Duplicated ESLint configs are errors, the others warnings.
    pub fn duplicate_severity(self) -> (r: Severity)
        ensures
            r == (if self == ConfigFamily::Eslint {
                Severity::Error
            } else {
                Severity::Warn
            }),
    {
        match self {
            ConfigFamily::Eslint => Severity::Error,
            _ => Severity::Warn,
        }
    }
}

/// The number of config sources: the family's files, plus one for a
/// `package.json` field.
pub fn config_source_count(family_file_count: usize, has_package_field: bool) -> (r: Option<usize>)
    ensures
        match r {
            Some(n) => n == family_file_count + if has_package_field {
                1int
            } else {
                0int
            },
            None => family_file_count == usize::MAX && has_package_field,
        },
{
    if has_package_field {
        family_file_count.checked_add(1)
    } else {
        Some(family_file_count)
    }
}

/// A family is reported when it has more than one source.
pub fn is_duplicated(total_sources: usize) -> (r: bool)
    ensures
        r == (total_sources > 1),
{
    total_sources > 1
}

/// The title, detail and hint of a duplicate finding.
pub struct DuplicateText {
    pub title: String,
    pub detail: String,
    pub hint: String,
}

pub fn duplicate_finding_text(family: ConfigFamily, total_sources: usize, directory: &str) -> (r:
    DuplicateText)
    requires
        total_sources <= u64::MAX,
    ensures
        r.title@ == family_label(family)@ + " config is declared in multiple places"@,
        r.detail@ == "Found "@ + decimal(total_sources as nat) + " "@ + family_label(family)@
            + " config sources in "@ + directory@ + "."@,
        r.hint@ == "Keep a single "@ + family_label(family)@ + " entry point per directory to avoid drift."@,
{
    let label = family.label();
    let mut title: Vec<char> = Vec::new();
    append_str(&mut title, label);
    append_str(&mut title, " config is declared in multiple places");
    let mut detail: Vec<char> = Vec::new();
    append_str(&mut detail, "Found ");
    let n = u64_decimal(total_sources as u64);
    append_chars(&mut detail, n.as_slice());
    append_str(&mut detail, " ");
    append_str(&mut detail, label);
    append_str(&mut detail, " config sources in ");
    append_str(&mut detail, directory);
    append_str(&mut detail, ".");
    let mut hint: Vec<char> = Vec::new();
    append_str(&mut hint, "Keep a single ");
    append_str(&mut hint, label);
    append_str(&mut hint, " entry point per directory to avoid drift.");
    DuplicateText {
        title: string_from(title.as_slice()),
        detail: string_from(detail.as_slice()),
        hint: string_from(hint.as_slice()),
    }
}

/// Legacy (`.eslintrc*`) and flat (`eslint.config.*`) ESLint files in one
/// directory.
pub open spec fn mixed_eslint_modes(names: Seq<String>) -> bool {
    &&& exists|k: int| 0 <= k < names.len() && starts_with(#[trigger] names[k]@, ".eslintrc"@)
    &&& exists|k: int| 0 <= k < names.len() && starts_with(#[trigger] names[k]@, "eslint.config."@)
}

pub fn has_mixed_eslint_modes(eslint_file_names: &[String]) -> (r: bool)
    ensures
        r == mixed_eslint_modes(eslint_file_names@),
{
    let mut legacy = false;
    let mut flat = false;
    let mut i: usize = 0;
    while i < eslint_file_names.len()
        invariant
            i <= eslint_file_names@.len(),
            legacy == exists|k: int| 0 <= k < i && starts_with(#[trigger] eslint_file_names@[k]@, ".eslintrc"@),
            flat == exists|k: int| 0 <= k < i && starts_with(#[trigger] eslint_file_names@[k]@, "eslint.config."@),
        decreases eslint_file_names@.len() - i,
    {
        let n = chars_of(eslint_file_names[i].as_str());
        if starts_with_str(n.as_slice(), ".eslintrc") {
            legacy = true;
        }
        if starts_with_str(n.as_slice(), "eslint.config.") {
            flat = true;
        }
        i += 1;
    }
    legacy && flat
}


// ---------------------------------------------------------------------
// One directory
// ---------------------------------------------------------------------

/// A finding of the duplicate-config check, with the file it points at.
pub struct ConfigFinding {
    pub id: String,
    pub title: String,
    pub detail: String,
    pub hint: String,
    pub severity: Severity,
    pub file: Option<String>,
}

pub open spec fn config_view(f: ConfigFinding) -> (Seq<char>, Seq<char>, Seq<char>, Seq<char>, Severity, Option<Seq<char>>) {
    (f.id@, f.title@, f.detail@, f.hint@, f.severity, match f.file {
        Some(x) => Some(x@),
        None => None,
    })
}

pub open spec fn config_views(v: Seq<ConfigFinding>) -> Seq<(Seq<char>, Seq<char>, Seq<char>, Seq<char>, Severity, Option<Seq<char>>)> {
    v.map_values(|f: ConfigFinding| config_view(f))
}

/// A config file of a directory, as (name, path).
pub open spec fn file_views(v: Seq<(String, String)>) -> Seq<(Seq<char>, Seq<char>)> {
    v.map_values(|f: (String, String)| (f.0@, f.1@))
}

/// The duplicate finding of a family: reported when its files and its
/// `package.json` field make more than one source; it points at
/// `package.json`, or else at the family's first file.
pub open spec fn family_finding(
    dir: Seq<char>,
    relative_dir: Seq<char>,
    family: ConfigFamily,
    files: Seq<(Seq<char>, Seq<char>)>,
    package_file: Option<Seq<char>>,
    has_field: bool,
) -> Seq<(Seq<char>, Seq<char>, Seq<char>, Seq<char>, Severity, Option<Seq<char>>)> {
    let total = files.len() + if has_field {
        1nat
    } else {
        0nat
    };
    let label = family_label(family)@;
    if total <= 1 {
        seq![]
    } else {
        seq![
            (
                "duplicate-config:"@ + label + ":"@ + dir,
                label + " config is declared in multiple places"@,
                "Found "@ + decimal(total) + " "@ + label + " config sources in "@ + relative_dir + "."@,
                "Keep a single "@ + label + " entry point per directory to avoid drift."@,
                if family == ConfigFamily::Eslint {
                    Severity::Error
                } else {
                    Severity::Warn
                },
                match package_file {
                    Some(p) => Some(p),
                    None => if files.len() > 0 {
                        Some(files[0].1)
                    } else {
                        None
                    },
                },
            ),
        ]
    }
}

/// The finding of legacy and flat ESLint configs side by side.
pub open spec fn mixed_finding(dir: Seq<char>, eslint: Seq<(Seq<char>, Seq<char>)>) -> (
    Seq<char>,
    Seq<char>,
    Seq<char>,
    Seq<char>,
    Severity,
    Option<Seq<char>>,
) {
    (
        "eslint-mixed-modes:"@ + dir,
        "Legacy and flat ESLint configs coexist"@,
        "ESLint may resolve different config systems depending on invocation and toolchain."@,
        "Pick either flat config (eslint.config.*) or legacy .eslintrc.* in the same directory."@,
        Severity::Error,
        if eslint.len() > 0 {
            Some(eslint[0].1)
        } else {
            None
        },
    )
}

/// Legacy and flat ESLint file names among the files.
pub open spec fn mixed_modes(files: Seq<(Seq<char>, Seq<char>)>) -> bool {
    &&& exists|k: int| 0 <= k < files.len() && starts_with((#[trigger] files[k]).0, ".eslintrc"@)
    &&& exists|k: int| 0 <= k < files.len() && starts_with((#[trigger] files[k]).0, "eslint.config."@)
}

/// The duplicate-config findings of one directory: the ESLint, Prettier
/// and Jest duplicate findings, then the mixed ESLint modes finding.
/// `package_json` is what the directory's `package.json` parsed to, when
/// it could be read.
pub open spec fn duplicate_findings(
    dir: Seq<char>,
    relative_dir: Seq<char>,
    package_file: Option<Seq<char>>,
    package_json: Option<JsonValue>,
    eslint: Seq<(Seq<char>, Seq<char>)>,
    prettier: Seq<(Seq<char>, Seq<char>)>,
    jest: Seq<(Seq<char>, Seq<char>)>,
) -> Seq<(Seq<char>, Seq<char>, Seq<char>, Seq<char>, Severity, Option<Seq<char>>)> {
    let field = |f: ConfigFamily| match package_json {
        Some(v) => has_key_spec(v, family_package_field(f)@),
        None => false,
    };
    family_finding(dir, relative_dir, ConfigFamily::Eslint, eslint, package_file, field(ConfigFamily::Eslint))
        + family_finding(dir, relative_dir, ConfigFamily::Prettier, prettier, package_file, field(ConfigFamily::Prettier))
        + family_finding(dir, relative_dir, ConfigFamily::Jest, jest, package_file, field(ConfigFamily::Jest))
        + if mixed_modes(eslint) {
        seq![mixed_finding(dir, eslint)]
    } else {
        seq![]
    }
}

fn family_finding_exec(
    out: &mut Vec<ConfigFinding>,
    directory: &str,
    relative_dir: &str,
    family: ConfigFamily,
    files: &Vec<(String, String)>,
    package_file: Option<&String>,
    package_json: Option<&JsonValue>,
)
    requires
        files@.len() < usize::MAX,
    ensures
        config_views(final(out)@) == config_views(old(out)@) + family_finding(
            directory@,
            relative_dir@,
            family,
            file_views(files@),
            match package_file {
                Some(p) => Some(p@),
                None => None,
            },
            match package_json {
                Some(v) => has_key_spec(*v, family_package_field(family)@),
                None => false,
            },
        ),
{
    let has_field = match package_json {
        Some(v) => has_object_key(v, family.package_field()),
        None => false,
    };
    let total = files.len() + if has_field {
        1
    } else {
        0
    };
    let ghost before = config_views(out@);
    if !is_duplicated(total) {
        assert(before + Seq::<(Seq<char>, Seq<char>, Seq<char>, Seq<char>, Severity, Option<Seq<char>>)>::empty() =~= before);
        return;
    }
    let text = duplicate_finding_text(family, total, relative_dir);
    let mut id: Vec<char> = Vec::new();
    append_str(&mut id, "duplicate-config:");
    append_str(&mut id, family.label());
    append_str(&mut id, ":");
    append_str(&mut id, directory);
    let file = match package_file {
        Some(p) => Some(string_from(chars_of(p.as_str()).as_slice())),
        None => if files.len() > 0 {
            Some(string_from(chars_of(files[0].1.as_str()).as_slice()))
        } else {
            None
        },
    };
    let f = ConfigFinding {
        id: string_from(id.as_slice()),
        title: text.title,
        detail: text.detail,
        hint: text.hint,
        severity: family.duplicate_severity(),
        file,
    };
    out.push(f);
    assert(config_views(out@) =~= before + seq![config_view(f)]);
}

pub fn directory_duplicate_findings(
    directory: &str,
    relative_dir: &str,
    package_file: Option<&String>,
    package_json: Option<&JsonValue>,
    eslint: &Vec<(String, String)>,
    prettier: &Vec<(String, String)>,
    jest: &Vec<(String, String)>,
) -> (out: Vec<ConfigFinding>)
    requires
        eslint@.len() < usize::MAX,
        prettier@.len() < usize::MAX,
        jest@.len() < usize::MAX,
    ensures
        config_views(out@) == duplicate_findings(
            directory@,
            relative_dir@,
            match package_file {
                Some(p) => Some(p@),
                None => None,
            },
            match package_json {
                Some(v) => Some(*v),
                None => None,
            },
            file_views(eslint@),
            file_views(prettier@),
            file_views(jest@),
        ),
{
    let mut out: Vec<ConfigFinding> = Vec::new();
    assert(config_views(out@) =~= Seq::<(Seq<char>, Seq<char>, Seq<char>, Seq<char>, Severity, Option<Seq<char>>)>::empty());
    family_finding_exec(&mut out, directory, relative_dir, ConfigFamily::Eslint, eslint, package_file, package_json);
    family_finding_exec(&mut out, directory, relative_dir, ConfigFamily::Prettier, prettier, package_file, package_json);
    family_finding_exec(&mut out, directory, relative_dir, ConfigFamily::Jest, jest, package_file, package_json);
    let mut names: Vec<String> = Vec::new();
    let mut i: usize = 0;
    while i < eslint.len()
        invariant
            i <= eslint@.len(),
            names@.len() == i,
            forall|k: int| 0 <= k < i ==> #[trigger] names@[k]@ == eslint@[k].0@,
        decreases eslint@.len() - i,
    {
        names.push(eslint[i].0.clone());
        i += 1;
    }
    let ghost ev = file_views(eslint@);
    let mixed = has_mixed_eslint_modes(names.as_slice());
    assert(mixed == mixed_modes(ev)) by {
        if mixed_modes(ev) {
            let a = choose|k: int| 0 <= k < ev.len() && starts_with((#[trigger] ev[k]).0, ".eslintrc"@);
            let b = choose|k: int| 0 <= k < ev.len() && starts_with((#[trigger] ev[k]).0, "eslint.config."@);
            assert(starts_with(names@[a]@, ".eslintrc"@));
            assert(starts_with(names@[b]@, "eslint.config."@));
        }
        if mixed {
            let a = choose|k: int| 0 <= k < names@.len() && starts_with(#[trigger] names@[k]@, ".eslintrc"@);
            let b = choose|k: int| 0 <= k < names@.len() && starts_with(#[trigger] names@[k]@, "eslint.config."@);
            assert(starts_with(ev[a].0, ".eslintrc"@));
            assert(starts_with(ev[b].0, "eslint.config."@));
        }
    }
    let ghost before = config_views(out@);
    if mixed {
        let mut id: Vec<char> = Vec::new();
        append_str(&mut id, "eslint-mixed-modes:");
        append_str(&mut id, directory);
        let file = if eslint.len() > 0 {
            Some(string_from(chars_of(eslint[0].1.as_str()).as_slice()))
        } else {
            None
        };
        let f = ConfigFinding {
            id: string_from(id.as_slice()),
            title: string_from(chars_of("Legacy and flat ESLint configs coexist").as_slice()),
            detail: string_from(
                chars_of("ESLint may resolve different config systems depending on invocation and toolchain.").as_slice(),
            ),
            hint: string_from(
                chars_of("Pick either flat config (eslint.config.*) or legacy .eslintrc.* in the same directory.").as_slice(),
            ),
            severity: Severity::Error,
            file,
        };
        out.push(f);
        assert(config_views(out@) =~= before + seq![mixed_finding(directory@, ev)]);
    } else {
        assert(before + Seq::<(Seq<char>, Seq<char>, Seq<char>, Seq<char>, Severity, Option<Seq<char>>)>::empty() =~= before);
    }
    out
}

} // verus!
