//! Project references of a tsconfig: how each `references` entry reads,
//! what one config says about `composite` (or whether to follow its
//! `extends`), and the findings of each way a reference can fail.
//!
//! Following `extends` and reading files is the caller's part: it hands
//! each config it reads to `composite_step`, and each failure it meets to
//! the finding functions here.
use vstd::prelude::*;
use crate::json::{as_str_spec, get, get_spec, get_str, JsonValue};
use crate::text::{
    append_chars, append_str, chars_of, decimal, string_from, trim, trim_chars, u64_decimal,
};
use crate::tsconfig_rules::{invalid_composite_type_issue, CompositeIssue};
use crate::registry::Severity;

verus! {

// ---------------------------------------------------------------------
// Entries
// ---------------------------------------------------------------------

/// How one entry of `references` reads.
pub enum ReferenceEntry {
    /// The entry is not an object.
    NotObject,
    /// The entry has no string `path`, or only whitespace.
    NoPath,
    /// The entry's `path`.
    Path(String),
}

/// The `path` of a reference entry, when it is a string.
pub open spec fn entry_path(v: JsonValue) -> Option<Seq<char>> {
    as_str_spec(get_spec(v, "path"@))
}

pub fn read_reference_entry(reference: &JsonValue) -> (r: ReferenceEntry)
    ensures
        (r is NotObject) == !(*reference is Object),
        (r is NoPath) == (*reference is Object && (entry_path(*reference) is None || trim(
            entry_path(*reference)->0,
        ).len() == 0)),
        r matches ReferenceEntry::Path(p) ==> *reference is Object && entry_path(*reference) == Some(
            p@,
        ) && trim(p@).len() > 0,
{
    let is_object = match reference {
        JsonValue::Object(_) => true,
        _ => false,
    };
    if !is_object {
        return ReferenceEntry::NotObject;
    }
    match get_str(reference, "path") {
        None => ReferenceEntry::NoPath,
        Some(p) => {
            let c = chars_of(p.as_str());
            let t = trim_chars(c.as_slice());
            if t.len() == 0 {
                ReferenceEntry::NoPath
            } else {
                ReferenceEntry::Path(string_from(c.as_slice()))
            }
        },
    }
}

// ---------------------------------------------------------------------
// Composite
// ---------------------------------------------------------------------

/// What a config's own `compilerOptions.composite` says: nothing (not
/// there), or a boolean, or a value that is not one.
pub open spec fn composite_flag(config: JsonValue) -> Option<Option<bool>> {
    match get_spec(config, "compilerOptions"@) {
        Some(co) => if co is Object {
            match get_spec(co, "composite"@) {
                Some(JsonValue::Bool(b)) => Some(Some(b)),
                Some(_) => Some(None),
                None => None,
            }
        } else {
            None
        },
        None => None,
    }
}

/// What to do after reading one config of the chain.
pub enum CompositeStep {
    /// `composite` is `true`.
    Enabled,
    /// `composite` is `false`, or neither it nor `extends` is there.
    Disabled,
    /// `composite` is there but not a boolean.
    Issue(CompositeIssue),
    /// No `composite`; the chain goes on with this `extends` path.
    Extends(String),
}

/// One step of finding the effective `composite` of a referenced project: the config's own
/// `composite` decides; without it, a string `extends` is followed.
/// `is_direct_target` says whether the config is the referenced one
/// itself rather than one it extends.
pub fn composite_step(config: &JsonValue, config_path: &str, is_direct_target: bool) -> (r:
    CompositeStep)
    ensures
        (r is Enabled) == (composite_flag(*config) == Some(Some(true))),
        (r is Disabled) == (composite_flag(*config) == Some(Some(false)) || (composite_flag(*config)
            is None && as_str_spec(get_spec(*config, "extends"@)) is None)),
        (r is Issue) == (composite_flag(*config) == Some(None::<bool>)),
        r matches CompositeStep::Issue(i) ==> i.detail@ == config_path@
            + " declares compilerOptions.composite, but the value is not a boolean."@ && (
        is_direct_target ==> i.suffix == "composite-type") && (!is_direct_target ==> i.suffix
            == "extends-composite-type"),
        r matches CompositeStep::Extends(e) ==> composite_flag(*config) is None && as_str_spec(
            get_spec(*config, "extends"@),
        ) == Some(e@),
{
    match get(config, "compilerOptions") {
        Some(co) => {
            let is_object = match co {
                JsonValue::Object(_) => true,
                _ => false,
            };
            if is_object {
                match get(co, "composite") {
                    Some(JsonValue::Bool(b)) => {
                        return if *b {
                            CompositeStep::Enabled
                        } else {
                            CompositeStep::Disabled
                        };
                    },
                    Some(_) => {
                        return CompositeStep::Issue(
                            invalid_composite_type_issue(config_path, is_direct_target),
                        );
                    },
                    None => {},
                }
            }
        },
        None => {},
    }
    match get_str(config, "extends") {
        Some(e) => {
            let c = chars_of(e.as_str());
            CompositeStep::Extends(string_from(c.as_slice()))
        },
        None => CompositeStep::Disabled,
    }
}

/// Why following `extends` failed.
pub enum ExtendsProblem {
    /// The `extends` path resolves to no config file.
    Missing,
    /// The resolved file was already in the chain.
    Cycle,
    /// The file could not be read (it vanished).
    Unreadable,
    /// Reading the file failed with this error.
    ReadFailed(String),
    /// The file is not valid JSONC; the parser's message.
    ParseFailed(String),
    /// The file does not look like a tsconfig document.
    InvalidTarget,
}

/// The issue for a failure along the `extends` chain. `extends_path` is
/// the path as written, `parent_path` the file it resolved to.
pub fn extends_issue(problem: &ExtendsProblem, extends_path: &str, parent_path: &str) -> (r:
    CompositeIssue)
    ensures
        match problem {
            ExtendsProblem::Missing => r.suffix@ == "missing"@ && r.title@
                == "Inherited tsconfig could not be found"@ && r.detail@ == "Referenced project extends "@
                + extends_path@ + ", but that config file could not be resolved."@ && r.hint@
                == "Make sure extends points at an existing tsconfig-style file before relying on inherited composite settings."@,
            ExtendsProblem::Cycle => r.suffix@ == "cycle"@ && r.title@
                == "Inherited tsconfig extends cycle detected"@ && r.detail@
                == "Referenced project extends "@ + parent_path@
                + ", but that path creates a cycle in the extends chain."@ && r.hint@
                == "Break extends cycles before relying on inherited composite settings."@,
            ExtendsProblem::Unreadable => r.suffix@ == "unreadable"@ && r.title@
                == "Inherited tsconfig could not be read"@ && r.detail@ == "Referenced project extends "@
                + parent_path@ + ", but that config file could not be read."@ && r.hint@
                == "Make sure extended tsconfig files are readable before relying on inherited composite settings."@,
            ExtendsProblem::ReadFailed(e) => r.suffix@ == "unreadable"@ && r.title@
                == "Inherited tsconfig could not be read"@ && r.detail@ == "Referenced project extends "@
                + parent_path@ + ", but reading it failed: "@ + e@ + "."@ && r.hint@
                == "Make sure extended tsconfig files are readable before relying on inherited composite settings."@,
            ExtendsProblem::ParseFailed(e) => r.suffix@ == "parse"@ && r.title@
                == "Inherited tsconfig could not be parsed"@ && r.detail@ == e@ && r.hint@
                == "Fix invalid JSONC syntax in extended tsconfig files before relying on inherited composite settings."@,
            ExtendsProblem::InvalidTarget => r.suffix@ == "invalid-target"@ && r.title@
                == "Inherited config must point to a tsconfig file"@ && r.detail@
                == "Referenced project extends "@ + parent_path@
                + ", but that file does not look like a tsconfig document."@ && r.hint@
                == "Point extends at a real tsconfig-style file before relying on inherited composite settings."@,
        },
{
    let mut d: Vec<char> = Vec::new();
    match problem {
        ExtendsProblem::Missing => {
            append_str(&mut d, "Referenced project extends ");
            append_str(&mut d, extends_path);
            append_str(&mut d, ", but that config file could not be resolved.");
            CompositeIssue {
                suffix: "missing",
                title: "Inherited tsconfig could not be found",
                detail: string_from(d.as_slice()),
                hint: "Make sure extends points at an existing tsconfig-style file before relying on inherited composite settings.",
            }
        },
        ExtendsProblem::Cycle => {
            append_str(&mut d, "Referenced project extends ");
            append_str(&mut d, parent_path);
            append_str(&mut d, ", but that path creates a cycle in the extends chain.");
            CompositeIssue {
                suffix: "cycle",
                title: "Inherited tsconfig extends cycle detected",
                detail: string_from(d.as_slice()),
                hint: "Break extends cycles before relying on inherited composite settings.",
            }
        },
        ExtendsProblem::Unreadable => {
            append_str(&mut d, "Referenced project extends ");
            append_str(&mut d, parent_path);
            append_str(&mut d, ", but that config file could not be read.");
            CompositeIssue {
                suffix: "unreadable",
                title: "Inherited tsconfig could not be read",
                detail: string_from(d.as_slice()),
                hint: "Make sure extended tsconfig files are readable before relying on inherited composite settings.",
            }
        },
        ExtendsProblem::ReadFailed(e) => {
            append_str(&mut d, "Referenced project extends ");
            append_str(&mut d, parent_path);
            append_str(&mut d, ", but reading it failed: ");
            append_str(&mut d, e.as_str());
            append_str(&mut d, ".");
            CompositeIssue {
                suffix: "unreadable",
                title: "Inherited tsconfig could not be read",
                detail: string_from(d.as_slice()),
                hint: "Make sure extended tsconfig files are readable before relying on inherited composite settings.",
            }
        },
        ExtendsProblem::ParseFailed(e) => {
            append_str(&mut d, e.as_str());
            CompositeIssue {
                suffix: "parse",
                title: "Inherited tsconfig could not be parsed",
                detail: string_from(d.as_slice()),
                hint: "Fix invalid JSONC syntax in extended tsconfig files before relying on inherited composite settings.",
            }
        },
        ExtendsProblem::InvalidTarget => {
            append_str(&mut d, "Referenced project extends ");
            append_str(&mut d, parent_path);
            append_str(&mut d, ", but that file does not look like a tsconfig document.");
            CompositeIssue {
                suffix: "invalid-target",
                title: "Inherited config must point to a tsconfig file",
                detail: string_from(d.as_slice()),
                hint: "Point extends at a real tsconfig-style file before relying on inherited composite settings.",
            }
        },
    }
}

// ---------------------------------------------------------------------
// Findings
// ---------------------------------------------------------------------

/// A finding about project references (all of them are errors).
/// A finding of the reference check: an error reported against the
/// tsconfig whose `references` are checked (`file`).
pub struct ReferenceFinding {
    pub id: String,
    pub title: &'static str,
    pub detail: String,
    pub hint: &'static str,
    pub severity: Severity,
    pub file: String,
}

/// Every finding is an error that points at the checked tsconfig.
pub open spec fn points_at(v: Seq<ReferenceFinding>, file_path: Seq<char>) -> bool {
    forall|i: int| 0 <= i < v.len() ==> (#[trigger] v[i]).severity == Severity::Error && v[i].file@ == file_path
}

/// The finding when `references` is not an array.
pub fn references_shape_finding(file_path: &str) -> (r: ReferenceFinding)
    ensures
        r.id@ == "tsconfig-references-shape:"@ + file_path@,
        r.title@ == "references must be an array"@,
        r.detail@ == "TypeScript project references must use an array of { path } entries."@,
        r.hint@ == "Rewrite references to the standard [{ \"path\": \"../pkg\" }] shape."@,
        r.severity == Severity::Error,
        r.file@ == file_path@,
{
    let mut id: Vec<char> = Vec::new();
    append_str(&mut id, "tsconfig-references-shape:");
    append_str(&mut id, file_path);
    let dc = chars_of("TypeScript project references must use an array of { path } entries.");
    ReferenceFinding {
        id: string_from(id.as_slice()),
        title: "references must be an array",
        detail: string_from(dc.as_slice()),
        hint: "Rewrite references to the standard [{ \"path\": \"../pkg\" }] shape.",
        severity: Severity::Error,
        file: string_from(chars_of(file_path).as_slice()),
    }
}

/// A reference finding as (id, title, detail, hint).
pub open spec fn rf_view(f: ReferenceFinding) -> (Seq<char>, Seq<char>, Seq<char>, Seq<char>) {
    (f.id@, f.title@, f.detail@, f.hint@)
}

/// The finding of a malformed entry at `index`; none for an entry with a
/// path.
pub open spec fn entry_finding_view(file_path: Seq<char>, index: nat, entry: ReferenceEntry) -> Option<
    (Seq<char>, Seq<char>, Seq<char>, Seq<char>),
> {
    let id = "tsconfig-references-entry:"@ + file_path + ":"@ + decimal(index);
    match entry {
        ReferenceEntry::NotObject => Some(
            (
                id,
                "Each project reference entry must be an object with a path"@,
                "references["@ + decimal(index) + "] must be an object like { \"path\": \"../pkg\" }."@,
                "Replace malformed reference entries with explicit { path } objects."@,
            ),
        ),
        ReferenceEntry::NoPath => Some(
            (
                id,
                "Each project reference entry must declare a string path"@,
                "references["@ + decimal(index) + "] must declare a non-empty string path."@,
                "Use { \"path\": \"../pkg\" } entries so TypeScript can resolve referenced projects."@,
            ),
        ),
        ReferenceEntry::Path(_) => None,
    }
}

/// The finding for a malformed entry at `index`; none for an entry with a
/// path.
pub fn reference_entry_finding(file_path: &str, index: u64, entry: &ReferenceEntry) -> (r: Option<
    ReferenceFinding,
>)
    ensures
        match r {
            Some(f) => entry_finding_view(file_path@, index as nat, *entry) == Some(rf_view(f))
                && f.severity == Severity::Error && f.file@ == file_path@,
            None => entry_finding_view(file_path@, index as nat, *entry) is None,
        },
{
    let n = u64_decimal(index);
    let mut id: Vec<char> = Vec::new();
    append_str(&mut id, "tsconfig-references-entry:");
    append_str(&mut id, file_path);
    append_str(&mut id, ":");
    append_chars(&mut id, n.as_slice());
    let mut d: Vec<char> = Vec::new();
    append_str(&mut d, "references[");
    append_chars(&mut d, n.as_slice());
    match entry {
        ReferenceEntry::NotObject => {
            append_str(&mut d, "] must be an object like { \"path\": \"../pkg\" }.");
            Some(ReferenceFinding {
                id: string_from(id.as_slice()),
                title: "Each project reference entry must be an object with a path",
                detail: string_from(d.as_slice()),
                hint: "Replace malformed reference entries with explicit { path } objects.",
                severity: Severity::Error,
                file: string_from(chars_of(file_path).as_slice()),
            })
        },
        ReferenceEntry::NoPath => {
            append_str(&mut d, "] must declare a non-empty string path.");
            Some(ReferenceFinding {
                id: string_from(id.as_slice()),
                title: "Each project reference entry must declare a string path",
                detail: string_from(d.as_slice()),
                hint: "Use { \"path\": \"../pkg\" } entries so TypeScript can resolve referenced projects.",
                severity: Severity::Error,
                file: string_from(chars_of(file_path).as_slice()),
            })
        },
        ReferenceEntry::Path(_) => None,
    }
}

/// How following a reference ended, when it did not end well.
pub enum ReferenceProblem {
    /// The path resolves to no tsconfig file.
    Missing,
    /// The resolved file could not be read (it vanished).
    Unreadable,
    /// Reading the resolved file failed with this error.
    ReadFailed(String),
    /// The resolved file is not valid JSONC; the parser's message.
    ParseFailed(String),
    /// The resolved file does not look like a tsconfig document.
    InvalidTarget,
    /// The `extends` chain of the referenced config has an issue.
    Composite(CompositeIssue),
    /// The referenced project does not enable `composite`.
    NotComposite,
}

/// The id of a finding about the reference `reference_path` of the
/// tsconfig at `file_path`.
pub open spec fn reference_id(file_path: Seq<char>, reference_path: Seq<char>, suffix: Seq<char>) -> Seq<
    char,
> {
    "tsconfig-references:"@ + file_path + ":"@ + reference_path + ":"@ + suffix
}

/// The finding of a reference that did not end well; `target_path` is the
/// file the reference resolved to.
pub open spec fn problem_view(
    file_path: Seq<char>,
    reference_path: Seq<char>,
    target_path: Seq<char>,
    problem: ReferenceProblem,
) -> (Seq<char>, Seq<char>, Seq<char>, Seq<char>) {
    let unreadable_hint = "Make sure referenced tsconfig files are readable before relying on project references."@;
    match problem {
        ReferenceProblem::Missing => (
            reference_id(file_path, reference_path, "missing"@),
            "Project reference target does not exist"@,
            reference_path + " does not resolve to an existing tsconfig file."@,
            "Update stale project references before they break TypeScript build mode."@,
        ),
        ReferenceProblem::Unreadable => (
            reference_id(file_path, reference_path, "unreadable"@),
            "Project reference target could not be read"@,
            reference_path + " resolves to "@ + target_path + ", but the file could not be read."@,
            unreadable_hint,
        ),
        ReferenceProblem::ReadFailed(e) => (
            reference_id(file_path, reference_path, "unreadable"@),
            "Project reference target could not be read"@,
            reference_path + " resolves to "@ + target_path + ", but reading it failed: "@ + e@ + "."@,
            unreadable_hint,
        ),
        ReferenceProblem::ParseFailed(e) => (
            reference_id(file_path, reference_path, "parse"@),
            "Project reference target could not be parsed"@,
            e@,
            "Fix invalid JSONC syntax in referenced tsconfig files before relying on project references."@,
        ),
        ReferenceProblem::InvalidTarget => (
            reference_id(file_path, reference_path, "invalid-target"@),
            "Project reference target must point to a tsconfig file"@,
            reference_path + " resolves to "@ + target_path
                + ", but that file does not look like a tsconfig document."@,
            "Point project references at a directory with tsconfig.json or an explicit tsconfig-style JSON file."@,
        ),
        ReferenceProblem::Composite(i) => (
            reference_id(file_path, reference_path, "extends-"@ + i.suffix@),
            i.title@,
            i.detail@,
            i.hint@,
        ),
        ReferenceProblem::NotComposite => (
            reference_id(file_path, reference_path, "composite"@),
            "Referenced project must enable composite"@,
            reference_path + " resolves to "@ + target_path
                + ", but compilerOptions.composite is not true."@,
            "Enable composite on referenced projects so TypeScript build mode can consume them reliably."@,
        ),
    }
}

/// The finding for a reference that did not end well. `target_path` is
/// the file the reference resolved to.
pub fn reference_problem_finding(
    file_path: &str,
    reference_path: &str,
    target_path: &str,
    problem: &ReferenceProblem,
) -> (r: ReferenceFinding)
    ensures
        rf_view(r) == problem_view(file_path@, reference_path@, target_path@, *problem),
        r.severity == Severity::Error,
        r.file@ == file_path@,
{
    let mut id: Vec<char> = Vec::new();
    append_str(&mut id, "tsconfig-references:");
    append_str(&mut id, file_path);
    append_str(&mut id, ":");
    append_str(&mut id, reference_path);
    append_str(&mut id, ":");
    let mut d: Vec<char> = Vec::new();
    match problem {
        ReferenceProblem::Missing => {
            append_str(&mut id, "missing");
            append_str(&mut d, reference_path);
            append_str(&mut d, " does not resolve to an existing tsconfig file.");
            ReferenceFinding {
                id: string_from(id.as_slice()),
                title: "Project reference target does not exist",
                detail: string_from(d.as_slice()),
                hint: "Update stale project references before they break TypeScript build mode.",
                severity: Severity::Error,
                file: string_from(chars_of(file_path).as_slice()),
            }
        },
        ReferenceProblem::Unreadable => {
            append_str(&mut id, "unreadable");
            append_str(&mut d, reference_path);
            append_str(&mut d, " resolves to ");
            append_str(&mut d, target_path);
            append_str(&mut d, ", but the file could not be read.");
            ReferenceFinding {
                id: string_from(id.as_slice()),
                title: "Project reference target could not be read",
                detail: string_from(d.as_slice()),
                hint: "Make sure referenced tsconfig files are readable before relying on project references.",
                severity: Severity::Error,
                file: string_from(chars_of(file_path).as_slice()),
            }
        },
        ReferenceProblem::ReadFailed(e) => {
            append_str(&mut id, "unreadable");
            append_str(&mut d, reference_path);
            append_str(&mut d, " resolves to ");
            append_str(&mut d, target_path);
            append_str(&mut d, ", but reading it failed: ");
            append_str(&mut d, e.as_str());
            append_str(&mut d, ".");
            ReferenceFinding {
                id: string_from(id.as_slice()),
                title: "Project reference target could not be read",
                detail: string_from(d.as_slice()),
                hint: "Make sure referenced tsconfig files are readable before relying on project references.",
                severity: Severity::Error,
                file: string_from(chars_of(file_path).as_slice()),
            }
        },
        ReferenceProblem::ParseFailed(e) => {
            append_str(&mut id, "parse");
            append_str(&mut d, e.as_str());
            ReferenceFinding {
                id: string_from(id.as_slice()),
                title: "Project reference target could not be parsed",
                detail: string_from(d.as_slice()),
                hint: "Fix invalid JSONC syntax in referenced tsconfig files before relying on project references.",
                severity: Severity::Error,
                file: string_from(chars_of(file_path).as_slice()),
            }
        },
        ReferenceProblem::InvalidTarget => {
            append_str(&mut id, "invalid-target");
            append_str(&mut d, reference_path);
            append_str(&mut d, " resolves to ");
            append_str(&mut d, target_path);
            append_str(&mut d, ", but that file does not look like a tsconfig document.");
            ReferenceFinding {
                id: string_from(id.as_slice()),
                title: "Project reference target must point to a tsconfig file",
                detail: string_from(d.as_slice()),
                hint: "Point project references at a directory with tsconfig.json or an explicit tsconfig-style JSON file.",
                severity: Severity::Error,
                file: string_from(chars_of(file_path).as_slice()),
            }
        },
        ReferenceProblem::Composite(i) => {
            append_str(&mut id, "extends-");
            append_str(&mut id, i.suffix);
            append_str(&mut d, i.detail.as_str());
            ReferenceFinding {
                id: string_from(id.as_slice()),
                title: i.title,
                detail: string_from(d.as_slice()),
                hint: i.hint,
                severity: Severity::Error,
                file: string_from(chars_of(file_path).as_slice()),
            }
        },
        ReferenceProblem::NotComposite => {
            append_str(&mut id, "composite");
            append_str(&mut d, reference_path);
            append_str(&mut d, " resolves to ");
            append_str(&mut d, target_path);
            append_str(&mut d, ", but compilerOptions.composite is not true.");
            ReferenceFinding {
                id: string_from(id.as_slice()),
                title: "Referenced project must enable composite",
                detail: string_from(d.as_slice()),
                hint: "Enable composite on referenced projects so TypeScript build mode can consume them reliably.",
                severity: Severity::Error,
                file: string_from(chars_of(file_path).as_slice()),
            }
        },
    }
}


// ---------------------------------------------------------------------
// All references of a config
// ---------------------------------------------------------------------

/// What following one reference path found: the file it resolved to and,
/// when it did not end well, how (none when the referenced project
/// enables `composite`).
pub struct ReferenceFacts {
    pub reference_path: String,
    pub target_path: String,
    pub problem: Option<ReferenceProblem>,
}

/// The position of the first facts given for a reference path, from `k`
/// on.
pub open spec fn facts_index(facts: Seq<ReferenceFacts>, p: Seq<char>, k: int) -> Option<int>
    decreases facts.len() - k,
{
    if k < 0 || k >= facts.len() {
        None
    } else if facts[k].reference_path@ == p {
        Some(k)
    } else {
        facts_index(facts, p, k + 1)
    }
}

/// The findings of a reference with a path; a path with no facts given
/// is taken as resolving to no tsconfig file.
pub open spec fn path_findings(file_path: Seq<char>, p: Seq<char>, facts: Seq<ReferenceFacts>) -> Seq<
    (Seq<char>, Seq<char>, Seq<char>, Seq<char>),
> {
    match facts_index(facts, p, 0) {
        Some(k) => match facts[k].problem {
            Some(problem) => seq![problem_view(file_path, p, facts[k].target_path@, problem)],
            None => seq![],
        },
        None => seq![problem_view(file_path, p, seq![], ReferenceProblem::Missing)],
    }
}

/// The findings of the entry at `index`.
pub open spec fn entry_findings(file_path: Seq<char>, index: nat, v: JsonValue, facts: Seq<ReferenceFacts>) -> Seq<
    (Seq<char>, Seq<char>, Seq<char>, Seq<char>),
> {
    if !(v is Object) {
        seq![entry_finding_view(file_path, index, ReferenceEntry::NotObject)->0]
    } else if entry_path(v) is None || trim(entry_path(v)->0).len() == 0 {
        seq![entry_finding_view(file_path, index, ReferenceEntry::NoPath)->0]
    } else {
        path_findings(file_path, entry_path(v)->0, facts)
    }
}

/// The findings of the first `n` entries.
pub open spec fn entries_findings(
    file_path: Seq<char>,
    items: Seq<JsonValue>,
    facts: Seq<ReferenceFacts>,
    n: int,
) -> Seq<(Seq<char>, Seq<char>, Seq<char>, Seq<char>)>
    decreases n,
{
    if n <= 0 {
        seq![]
    } else {
        entries_findings(file_path, items, facts, n - 1) + entry_findings(
            file_path,
            (n - 1) as nat,
            items[n - 1],
            facts,
        )
    }
}

/// The finding when `references` is not an array.
pub open spec fn shape_view(file_path: Seq<char>) -> (Seq<char>, Seq<char>, Seq<char>, Seq<char>) {
    (
        "tsconfig-references-shape:"@ + file_path,
        "references must be an array"@,
        "TypeScript project references must use an array of { path } entries."@,
        "Rewrite references to the standard [{ \"path\": \"../pkg\" }] shape."@,
    )
}

/// Nothing without `references`;
/// the shape finding when it is not an array; otherwise the findings of
/// each entry in order.
pub open spec fn reference_findings(
    file_path: Seq<char>,
    references: Option<JsonValue>,
    facts: Seq<ReferenceFacts>,
) -> Seq<(Seq<char>, Seq<char>, Seq<char>, Seq<char>)> {
    match references {
        None => seq![],
        Some(JsonValue::Array(items)) => entries_findings(file_path, items@, facts, items@.len() as int),
        Some(_) => seq![shape_view(file_path)],
    }
}

pub open spec fn rf_views(v: Seq<ReferenceFinding>) -> Seq<(Seq<char>, Seq<char>, Seq<char>, Seq<char>)> {
    v.map_values(|f: ReferenceFinding| rf_view(f))
}

fn find_facts(facts: &Vec<ReferenceFacts>, p: &str) -> (r: Option<usize>)
    ensures
        match r {
            Some(k) => facts_index(facts@, p@, 0) == Some(k as int) && k < facts@.len(),
            None => facts_index(facts@, p@, 0) is None,
        },
{
    let pc = chars_of(p);
    let mut k: usize = 0;
    while k < facts.len()
        invariant
            k <= facts@.len(),
            pc@ == p@,
            facts_index(facts@, p@, 0) == facts_index(facts@, p@, k as int),
        decreases facts@.len() - k,
    {
        let c = chars_of(facts[k].reference_path.as_str());
        if crate::text::chars_eq(c.as_slice(), pc.as_slice()) {
            return Some(k);
        }
        k += 1;
    }
    None
}

pub fn collect_project_reference_findings(
    file_path: &str,
    references: Option<&JsonValue>,
    facts: &Vec<ReferenceFacts>,
) -> (out: Vec<ReferenceFinding>)
    ensures
        rf_views(out@) == reference_findings(
            file_path@,
            match references {
                Some(r) => Some(*r),
                None => None,
            },
            facts@,
        ),
        points_at(out@, file_path@),
{
    let mut out: Vec<ReferenceFinding> = Vec::new();
    let refs = match references {
        None => {
            assert(rf_views(out@) =~= Seq::<(Seq<char>, Seq<char>, Seq<char>, Seq<char>)>::empty());
            return out;
        },
        Some(r) => r,
    };
    let items = match refs {
        JsonValue::Array(items) => items,
        _ => {
            let f = references_shape_finding(file_path);
            out.push(f);
            assert(rf_views(out@) =~= seq![shape_view(file_path@)]);
            return out;
        },
    };
    let mut i: usize = 0;
    assert(rf_views(out@) =~= Seq::<(Seq<char>, Seq<char>, Seq<char>, Seq<char>)>::empty());
    while i < items.len()
        invariant
            i <= items@.len(),
            rf_views(out@) == entries_findings(file_path@, items@, facts@, i as int),
            points_at(out@, file_path@),
        decreases items@.len() - i,
    {
        let entry = read_reference_entry(&items[i]);
        let ghost before = rf_views(out@);
        let ghost want = entry_findings(file_path@, i as nat, items@[i as int], facts@);
        match &entry {
            ReferenceEntry::Path(p) => {
                match find_facts(facts, p.as_str()) {
                    Some(k) => {
                        match &facts[k].problem {
                            Some(problem) => {
                                let f = reference_problem_finding(
                                    file_path,
                                    p.as_str(),
                                    facts[k].target_path.as_str(),
                                    problem,
                                );
                                out.push(f);
                                assert(rf_views(out@) =~= before + want);
                            },
                            None => {
                                assert(before + want =~= before);
                            },
                        }
                    },
                    None => {
                        let f = reference_problem_finding(file_path, p.as_str(), "", &ReferenceProblem::Missing);
                        proof {
                            reveal_strlit("");
                            assert(""@ =~= Seq::<char>::empty());
                        }
                        out.push(f);
                        assert(rf_views(out@) =~= before + want);
                    },
                }
            },
            _ => {
                let f = reference_entry_finding(file_path, i as u64, &entry);
                match f {
                    Some(f) => {
                        out.push(f);
                        assert(rf_views(out@) =~= before + want);
                    },
                    None => {},
                }
            },
        }
        i += 1;
    }
    out
}

} // verus!
