//! Drift between `.gitignore` and `.maximusignore`: both files of a
//! directory should ignore the same generated artifacts.
use vstd::prelude::*;
use crate::config_duplicates::{config_view, config_views, ConfigFinding};
use crate::registry::Severity;
use crate::text::{
    append_str, chars_eq_str, chars_of, contains_char, lines, lines_of, replace_char,
    replace_char_chars, slice_chars, starts_with, starts_with_str, string_from, trim_end,
    trim_end_char, trim_end_char_chars, trim_end_chars, trim_start_char, trim_start_char_chars,
    trim_start_pat, trim_start_pat_str,
};

verus! {

/// The line with a leading `\!` or `\#` escape turned into the bare
/// character.
pub open spec fn unescape_lead(v: Seq<char>) -> Seq<char> {
    if starts_with(v, "\\!"@) {
        seq!['!'] + v.skip(2)
    } else if starts_with(v, "\\#"@) {
        seq!['#'] + v.skip(2)
    } else {
        v
    }
}

/// A single-segment pattern, or nothing for
/// blank lines, comments, negations and nested paths.
pub open spec fn normalized_ignore_line(line: Seq<char>) -> Option<Seq<char>> {
    let v = trim_end(line);
    let n = trim_end_char(
        trim_start_char(trim_start_pat(replace_char(unescape_lead(v), '\\', '/'), "./"@), '/'),
        '/',
    );
    if v.len() == 0 || v[0] == '#' || v[0] == '!' {
        None
    } else if n.len() == 0 || n.contains('/') {
        None
    } else {
        Some(n)
    }
}

fn normalize_ignore_line_chars(line: &[char]) -> (r: Option<Vec<char>>)
    ensures
        match r {
            Some(n) => normalized_ignore_line(line@) == Some(n@),
            None => normalized_ignore_line(line@) is None,
        },
{
    proof {
        reveal_strlit("\\!");
        reveal_strlit("\\#");
    }
    let v = trim_end_chars(line);
    if v.len() == 0 || v[0] == '#' || v[0] == '!' {
        return None;
    }
    let u = if starts_with_str(v.as_slice(), "\\!") {
        let mut w: Vec<char> = vec!['!'];
        let rest = slice_chars(v.as_slice(), 2, v.len());
        crate::text::append_chars(&mut w, rest.as_slice());
        assert(w@ =~= seq!['!'] + v@.skip(2));
        w
    } else if starts_with_str(v.as_slice(), "\\#") {
        let mut w: Vec<char> = vec!['#'];
        let rest = slice_chars(v.as_slice(), 2, v.len());
        crate::text::append_chars(&mut w, rest.as_slice());
        assert(w@ =~= seq!['#'] + v@.skip(2));
        w
    } else {
        slice_chars(v.as_slice(), 0, v.len())
    };
    assert(u@ =~= unescape_lead(v@));
    let a = replace_char_chars(u.as_slice(), '\\', '/');
    let b = trim_start_pat_str(a.as_slice(), "./");
    let c = trim_start_char_chars(b.as_slice(), '/');
    let n = trim_end_char_chars(c.as_slice(), '/');
    if n.len() == 0 || contains_char(n.as_slice(), '/') {
        return None;
    }
    Some(n)
}

/// An ignore-file line without comments, negations, leading `./` or `/` and trailing `/`, if anything is left.
pub fn normalize_ignore_line(line: &str) -> (r: Option<String>)
    ensures
        match r {
            Some(n) => normalized_ignore_line(line@) == Some(n@),
            None => normalized_ignore_line(line@) is None,
        },
{
    let l = chars_of(line);
    match normalize_ignore_line_chars(l.as_slice()) {
        Some(n) => Some(string_from(n.as_slice())),
        None => None,
    }
}

/// The artifact patterns the check compares, in sorted order.
pub open spec fn artifact_names() -> Seq<Seq<char>> {
    seq!["*.tgz"@, "build"@, "coverage"@, "dist"@, "node_modules"@, "out"@, "target"@, "tmp"@]
}

/// The artifact a pattern names (`.tmp` is
/// another name of `tmp`).
pub open spec fn canonical_artifact(p: Seq<char>) -> Option<Seq<char>> {
    if p == "node_modules"@ {
        Some("node_modules"@)
    } else if p == "coverage"@ {
        Some("coverage"@)
    } else if p == "dist"@ {
        Some("dist"@)
    } else if p == "build"@ {
        Some("build"@)
    } else if p == "out"@ {
        Some("out"@)
    } else if p == "target"@ {
        Some("target"@)
    } else if p == "tmp"@ || p == ".tmp"@ {
        Some("tmp"@)
    } else if p == "*.tgz"@ {
        Some("*.tgz"@)
    } else {
        None
    }
}

/// The artifact patterns are told apart from one another.
proof fn lemma_artifact_literals()
    ensures
        "*.tgz"@.len() == 5 && "*.tgz"@[0] == '*',
        "build"@.len() == 5 && "build"@[0] == 'b',
        "coverage"@.len() == 8,
        "dist"@.len() == 4 && "dist"@[0] == 'd',
        "node_modules"@.len() == 12,
        "out"@.len() == 3 && "out"@[0] == 'o',
        "target"@.len() == 6,
        "tmp"@.len() == 3 && "tmp"@[0] == 't',
        ".tmp"@.len() == 4 && ".tmp"@[0] == '.',
{
    reveal_strlit("*.tgz");
    reveal_strlit("build");
    reveal_strlit("coverage");
    reveal_strlit("dist");
    reveal_strlit("node_modules");
    reveal_strlit("out");
    reveal_strlit("target");
    reveal_strlit("tmp");
    reveal_strlit(".tmp");
}

/// Every compared artifact pattern is its own canonical name, and `.tmp`
/// is read as `tmp`.
pub proof fn lemma_artifact_names_canonical()
    ensures
        forall|i: int|
            0 <= i < artifact_names().len() ==> #[trigger] canonical_artifact(artifact_names()[i])
                == Some(artifact_names()[i]),
        canonical_artifact(".tmp"@) == Some("tmp"@),
{
    lemma_artifact_literals();
    assert forall|i: int|
        0 <= i < artifact_names().len() implies #[trigger] canonical_artifact(artifact_names()[i])
        == Some(artifact_names()[i]) by {
        let a = artifact_names();
        assert(a[0] == "*.tgz"@ && a[1] == "build"@ && a[2] == "coverage"@ && a[3] == "dist"@);
        assert(a[4] == "node_modules"@ && a[5] == "out"@ && a[6] == "target"@ && a[7] == "tmp"@);
        if "build"@ == "*.tgz"@ {
            assert("build"@[0] == "*.tgz"@[0]);
        }
        if "tmp"@ == "out"@ {
            assert("tmp"@[0] == "out"@[0]);
        }
        if ".tmp"@ == "dist"@ {
            assert(".tmp"@[0] == "dist"@[0]);
        }
    }
    if ".tmp"@ == "dist"@ {
        assert(".tmp"@[0] == "dist"@[0]);
    }
}

/// A pattern that names an artifact names one of the compared patterns,
/// and that pattern names itself.
pub proof fn lemma_canonical_artifact_idempotent(p: Seq<char>)
    ensures
        canonical_artifact(p) matches Some(c) ==> artifact_names().contains(c) && canonical_artifact(c)
            == Some(c),
{
    lemma_artifact_names_canonical();
    if let Some(c) = canonical_artifact(p) {
        let a = artifact_names();
        let k: int = if c == a[0] {
            0
        } else if c == a[1] {
            1
        } else if c == a[2] {
            2
        } else if c == a[3] {
            3
        } else if c == a[4] {
            4
        } else if c == a[5] {
            5
        } else if c == a[6] {
            6
        } else {
            7
        };
        assert(a[k] == c);
        assert(canonical_artifact(a[k]) == Some(a[k]));
    }
}

fn artifact_name(i: usize) -> (r: &'static str)
    requires
        i < 8,
    ensures
        r@ == artifact_names()[i as int],
{
    if i == 0 {
        "*.tgz"
    } else if i == 1 {
        "build"
    } else if i == 2 {
        "coverage"
    } else if i == 3 {
        "dist"
    } else if i == 4 {
        "node_modules"
    } else if i == 5 {
        "out"
    } else if i == 6 {
        "target"
    } else {
        "tmp"
    }
}

/// The position of a canonical pattern in `artifact_names`.
fn canonical_index(p: &[char]) -> (r: Option<usize>)
    ensures
        match r {
            Some(i) => i < 8 && canonical_artifact(p@) == Some(artifact_names()[i as int]),
            None => canonical_artifact(p@) is None,
        },
{
    if chars_eq_str(p, "node_modules") {
        Some(4)
    } else if chars_eq_str(p, "coverage") {
        Some(2)
    } else if chars_eq_str(p, "dist") {
        Some(3)
    } else if chars_eq_str(p, "build") {
        Some(1)
    } else if chars_eq_str(p, "out") {
        Some(5)
    } else if chars_eq_str(p, "target") {
        Some(6)
    } else if chars_eq_str(p, "tmp") || chars_eq_str(p, ".tmp") {
        Some(7)
    } else if chars_eq_str(p, "*.tgz") {
        Some(0)
    } else {
        None
    }
}

/// The generated artifact an ignore pattern names (`.tmp` names `tmp`), if any.
pub fn canonical_artifact_pattern(pattern: &str) -> (r: Option<&'static str>)
    ensures
        match r {
            Some(c) => canonical_artifact(pattern@) == Some(c@),
            None => canonical_artifact(pattern@) is None,
        },
{
    let p = chars_of(pattern);
    match canonical_index(p.as_slice()) {
        Some(i) => Some(artifact_name(i)),
        None => None,
    }
}

/// The artifact a line of an ignore file names, if any.
pub open spec fn line_artifact(line: Seq<char>) -> Option<Seq<char>> {
    match normalized_ignore_line(line) {
        Some(n) => canonical_artifact(n),
        None => None,
    }
}

/// Some line of the file names the artifact.
pub open spec fn ignores_artifact(text: Seq<char>, name: Seq<char>) -> bool {
    exists|i: int| 0 <= i < lines(text).len() && #[trigger] line_artifact(lines(text)[i]) == Some(name)
}

/// The artifacts among the first `k` names that the file ignores, in order.
pub open spec fn ignored_artifacts_upto(text: Seq<char>, k: int) -> Seq<Seq<char>>
    decreases k,
{
    if k <= 0 {
        seq![]
    } else {
        let prev = ignored_artifacts_upto(text, k - 1);
        if ignores_artifact(text, artifact_names()[k - 1]) {
            prev.push(artifact_names()[k - 1])
        } else {
            prev
        }
    }
}

/// The artifacts an ignore file covers, in
/// sorted order, each once.
pub open spec fn ignored_artifacts(text: Seq<char>) -> Seq<Seq<char>> {
    ignored_artifacts_upto(text, 8)
}

pub open spec fn str_views(v: Seq<&'static str>) -> Seq<Seq<char>> {
    v.map_values(|s: &'static str| s@)
}

proof fn lemma_artifact_names_distinct()
    ensures
        forall|a: int, b: int| 0 <= a < 8 && 0 <= b < 8 && a != b ==> artifact_names()[a] != artifact_names()[b],
{
    reveal_strlit("*.tgz");
    reveal_strlit("build");
    reveal_strlit("coverage");
    reveal_strlit("dist");
    reveal_strlit("node_modules");
    reveal_strlit("out");
    reveal_strlit("target");
    reveal_strlit("tmp");
    let n = artifact_names();
    assert(n[0][0] == '*' && n[1][0] == 'b' && n[5][0] == 'o' && n[7][0] == 't');
    assert(n[0].len() == 5 && n[1].len() == 5 && n[2].len() == 8 && n[3].len() == 4);
    assert(n[4].len() == 12 && n[5].len() == 3 && n[6].len() == 6 && n[7].len() == 3);
}

/// Which of the artifacts some line names.
fn artifact_flags(text: &str) -> (flags: Vec<bool>)
    ensures
        flags@.len() == 8,
        forall|k: int| 0 <= k < 8 ==> #[trigger] flags@[k] == ignores_artifact(text@, artifact_names()[k]),
{
    let chars = chars_of(text);
    let ls = lines_of(chars.as_slice());
    let mut flags: Vec<bool> = vec![false, false, false, false, false, false, false, false];
    let mut i: usize = 0;
    while i < ls.len()
        invariant
            i <= ls@.len(),
            ls@.len() == lines(text@).len(),
            forall|k: int| 0 <= k < ls@.len() ==> #[trigger] ls@[k]@ == lines(text@)[k],
            flags@.len() == 8,
            forall|k: int|
                0 <= k < 8 ==> #[trigger] flags@[k] == exists|j: int|
                    0 <= j < i && #[trigger] line_artifact(lines(text@)[j]) == Some(
                        artifact_names()[k],
                    ),
        decreases ls@.len() - i,
    {
        let ghost old_flags = flags@;
        proof {
            lemma_artifact_names_distinct();
        }
        match normalize_ignore_line_chars(ls[i].as_slice()) {
            Some(n) => match canonical_index(n.as_slice()) {
                Some(idx) => {
                    flags.set(idx, true);
                },
                None => {},
            },
            None => {},
        }
        proof {
            assert forall|k: int| 0 <= k < 8 implies #[trigger] flags@[k] == exists|j: int|
                0 <= j < i + 1 && #[trigger] line_artifact(lines(text@)[j]) == Some(
                    artifact_names()[k],
                ) by {
                if line_artifact(lines(text@)[i as int]) == Some(artifact_names()[k]) {
                    assert(flags@[k]);
                }
                if flags@[k] && !old_flags[k] {
                    assert(line_artifact(lines(text@)[i as int]) == Some(artifact_names()[k]));
                }
                if exists|j: int|
                    0 <= j < i + 1 && #[trigger] line_artifact(lines(text@)[j]) == Some(
                        artifact_names()[k],
                    ) {
                    let j = choose|j: int|
                        0 <= j < i + 1 && #[trigger] line_artifact(lines(text@)[j]) == Some(
                            artifact_names()[k],
                        );
                    if j < i {
                        assert(old_flags[k]);
                    }
                }
            }
        }
        i += 1;
    }
    flags
}

/// The generated artifacts an ignore file ignores, in artifact order.
pub fn parse_artifact_patterns(text: &str) -> (out: Vec<&'static str>)
    ensures
        str_views(out@) == ignored_artifacts(text@),
{
    let flags = artifact_flags(text);
    let mut out: Vec<&'static str> = Vec::new();
    let mut k: usize = 0;
    while k < 8
        invariant
            k <= 8,
            flags@.len() == 8,
            forall|j: int| 0 <= j < 8 ==> #[trigger] flags@[j] == ignores_artifact(text@, artifact_names()[j]),
            str_views(out@) == ignored_artifacts_upto(text@, k as int),
        decreases 8 - k,
    {
        if flags[k] {
            let ghost before = str_views(out@);
            out.push(artifact_name(k));
            assert(str_views(out@) =~= before.push(artifact_names()[k as int]));
        }
        k += 1;
    }
    out
}

/// One disagreement: the artifact and whether `.gitignore` (rather than
/// `.maximusignore`) is the file that ignores it.
pub open spec fn drift_upto(git: Seq<char>, local: Seq<char>, k: int) -> Seq<(Seq<char>, bool)>
    decreases k,
{
    if k <= 0 {
        seq![]
    } else {
        let prev = drift_upto(git, local, k - 1);
        let name = artifact_names()[k - 1];
        let in_git = ignores_artifact(git, name);
        let in_local = ignores_artifact(local, name);
        if in_git != in_local {
            prev.push((name, in_git))
        } else {
            prev
        }
    }
}

/// Swapping the two files reports the same artifacts, each charged to the
/// other file.
pub proof fn lemma_drift_symmetric(gitignore_text: Seq<char>, maximusignore_text: Seq<char>, k: int)
    ensures
        drift_upto(maximusignore_text, gitignore_text, k).len() == drift_upto(gitignore_text, maximusignore_text, k).len(),
        forall|i: int|
            0 <= i < drift_upto(gitignore_text, maximusignore_text, k).len() ==> #[trigger] drift_upto(
                maximusignore_text,
                gitignore_text,
                k,
            )[i] == (drift_upto(gitignore_text, maximusignore_text, k)[i].0, !drift_upto(
                gitignore_text,
                maximusignore_text,
                k,
            )[i].1),
    decreases k,
{
    if k > 0 {
        lemma_drift_symmetric(gitignore_text, maximusignore_text, k - 1);
    }
}

/// The artifacts that exactly one of the two files ignores, in sorted
/// order, each with whether it is the `.gitignore` that ignores it.
pub fn ignore_drift(gitignore_text: &str, maximusignore_text: &str) -> (out: Vec<
    (&'static str, bool),
>)
    ensures
        out@.map_values(|p: (&'static str, bool)| (p.0@, p.1)) == drift_upto(
            gitignore_text@,
            maximusignore_text@,
            8,
        ),
{
    let git = artifact_flags(gitignore_text);
    let local = artifact_flags(maximusignore_text);
    let mut out: Vec<(&'static str, bool)> = Vec::new();
    let mut k: usize = 0;
    while k < 8
        invariant
            k <= 8,
            git@.len() == 8,
            local@.len() == 8,
            forall|j: int| 0 <= j < 8 ==> #[trigger] git@[j] == ignores_artifact(gitignore_text@, artifact_names()[j]),
            forall|j: int| 0 <= j < 8 ==> #[trigger] local@[j] == ignores_artifact(maximusignore_text@, artifact_names()[j]),
            out@.map_values(|p: (&'static str, bool)| (p.0@, p.1)) == drift_upto(
                gitignore_text@,
                maximusignore_text@,
                k as int,
            ),
        decreases 8 - k,
    {
        if git[k] != local[k] {
            let ghost before = out@.map_values(|p: (&'static str, bool)| (p.0@, p.1));
            out.push((artifact_name(k), git[k]));
            assert(out@.map_values(|p: (&'static str, bool)| (p.0@, p.1)) =~= before.push(
                (artifact_names()[k as int], git@[k as int]),
            ));
        }
        k += 1;
    }
    out
}

/// The detail of a drift finding.
pub open spec fn drift_detail_text(pattern: Seq<char>, in_gitignore: bool, directory: Seq<char>) -> Seq<char> {
    if in_gitignore {
        pattern + " is ignored in .gitignore, but not in .maximusignore for "@ + directory
            + ". Maximus may still scan generated or packaged artifacts that git ignores."@
    } else {
        pattern + " is ignored in .maximusignore, but not in .gitignore for "@ + directory
            + ". Generated or packaged artifacts may still be committed because git does not ignore them."@
    }
}

pub fn drift_detail(pattern: &str, in_gitignore: bool, directory_display: &str) -> (out: String)
    ensures
        out@ == drift_detail_text(pattern@, in_gitignore, directory_display@),
{
    let mut d: Vec<char> = Vec::new();
    append_str(&mut d, pattern);
    if in_gitignore {
        append_str(&mut d, " is ignored in .gitignore, but not in .maximusignore for ");
        append_str(&mut d, directory_display);
        append_str(&mut d, ". Maximus may still scan generated or packaged artifacts that git ignores.");
    } else {
        append_str(&mut d, " is ignored in .maximusignore, but not in .gitignore for ");
        append_str(&mut d, directory_display);
        append_str(
            &mut d,
            ". Generated or packaged artifacts may still be committed because git does not ignore them.",
        );
    }
    string_from(d.as_slice())
}


/// The finding of one disagreement in a directory: it names the file that
/// lacks the artifact and points at the file that has it.
pub open spec fn drift_finding(
    directory: Seq<char>,
    directory_display: Seq<char>,
    gitignore_path: Seq<char>,
    maximusignore_path: Seq<char>,
    d: (Seq<char>, bool),
) -> (Seq<char>, Seq<char>, Seq<char>, Seq<char>, Severity, Option<Seq<char>>) {
    (
        "ignore-drift:"@ + directory + ":"@ + d.0 + ":"@ + (if d.1 {
            ".maximusignore"@
        } else {
            ".gitignore"@
        }),
        "Ignore files disagree on generated artifact coverage"@,
        drift_detail_text(d.0, d.1, directory_display),
        "Keep generated-artifact ignore entries aligned across .gitignore and .maximusignore, or remove the redundant local ignore file."@,
        Severity::Warn,
        Some(if d.1 {
            gitignore_path
        } else {
            maximusignore_path
        }),
    )
}

/// The findings of a directory that has both a `.gitignore` and a
/// `.maximusignore`: one per artifact that exactly one of them ignores, in
/// artifact order.
pub fn ignore_drift_findings(
    directory: &str,
    directory_display: &str,
    gitignore_path: &str,
    maximusignore_path: &str,
    gitignore_text: &str,
    maximusignore_text: &str,
) -> (out: Vec<ConfigFinding>)
    ensures
        config_views(out@) == drift_upto(gitignore_text@, maximusignore_text@, 8).map_values(
            |d: (Seq<char>, bool)|
                drift_finding(directory@, directory_display@, gitignore_path@, maximusignore_path@, d),
        ),
{
    let drift = ignore_drift(gitignore_text, maximusignore_text);
    let ghost dv = drift@.map_values(|p: (&'static str, bool)| (p.0@, p.1));
    let ghost want = dv.map_values(
        |d: (Seq<char>, bool)|
            drift_finding(directory@, directory_display@, gitignore_path@, maximusignore_path@, d),
    );
    let mut out: Vec<ConfigFinding> = Vec::new();
    let mut i: usize = 0;
    while i < drift.len()
        invariant
            i <= drift@.len(),
            dv == drift@.map_values(|p: (&'static str, bool)| (p.0@, p.1)),
            want == dv.map_values(
                |d: (Seq<char>, bool)|
                    drift_finding(directory@, directory_display@, gitignore_path@, maximusignore_path@, d),
            ),
            config_views(out@) == want.take(i as int),
        decreases drift@.len() - i,
    {
        let (pattern, in_git) = drift[i];
        assert(dv[i as int] == (pattern@, in_git));
        let missing = if in_git {
            ".maximusignore"
        } else {
            ".gitignore"
        };
        let source = if in_git {
            gitignore_path
        } else {
            maximusignore_path
        };
        let mut id: Vec<char> = Vec::new();
        append_str(&mut id, "ignore-drift:");
        append_str(&mut id, directory);
        append_str(&mut id, ":");
        append_str(&mut id, pattern);
        append_str(&mut id, ":");
        append_str(&mut id, missing);
        let f = ConfigFinding {
            id: string_from(id.as_slice()),
            title: string_from(chars_of("Ignore files disagree on generated artifact coverage").as_slice()),
            detail: drift_detail(pattern, in_git, directory_display),
            hint: string_from(
                chars_of(
                    "Keep generated-artifact ignore entries aligned across .gitignore and .maximusignore, or remove the redundant local ignore file.",
                ).as_slice(),
            ),
            severity: Severity::Warn,
            file: Some(string_from(chars_of(source).as_slice())),
        };
        assert(config_view(f) == want[i as int]);
        let ghost before = out@;
        out.push(f);
        assert(config_views(out@) =~= config_views(before).push(config_view(f)));
        assert(want.take(i + 1) =~= want.take(i as int).push(want[i as int]));
        i += 1;
    }
    assert(want.take(drift@.len() as int) =~= want);
    out
}

} // verus!
