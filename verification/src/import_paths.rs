//! How a package's `imports` map and its tsconfig `paths` agree on a key:
//! the targets an import entry names, the tsconfig target that counts, and
//! whether the two resolve to different places.
use vstd::prelude::*;
use crate::alias_tables::first_text;
use crate::json::{get, get_spec, JsonValue};
use crate::paths::{resolve_path, resolved, PathBase};
use crate::text::{
    append_str, chars_eq, chars_of, replace_char, replace_char_chars, string_from, string_views,
};

verus! {

// ---------------------------------------------------------------------
// Import targets
// ---------------------------------------------------------------------

/// A string target is itself; the targets of an
/// object of conditions are those of its values in order; anything else
/// names none.
pub open spec fn import_targets(v: JsonValue) -> Seq<Seq<char>>
    decreases v, 0nat,
{
    match v {
        JsonValue::Text(s) => seq![s@],
        JsonValue::Object(members) => member_import_targets(members@, members@.len()),
        _ => seq![],
    }
}

/// The targets of the first `n` members of an object.
pub open spec fn member_import_targets(ms: Seq<(String, JsonValue)>, n: nat) -> Seq<Seq<char>>
    decreases ms, n,
{
    if n == 0 || n > ms.len() {
        seq![]
    } else {
        member_import_targets(ms, (n - 1) as nat) + import_targets(ms[n - 1].1)
    }
}

fn copy_string(s: &String) -> (r: String)
    ensures
        r@ == s@,
{
    let c = chars_of(s.as_str());
    string_from(c.as_slice())
}

fn append_strings(out: &mut Vec<String>, more: Vec<String>)
    ensures
        string_views(final(out)@) == string_views(old(out)@) + string_views(more@),
{
    let ghost start = string_views(out@);
    let mut i: usize = 0;
    while i < more.len()
        invariant
            i <= more@.len(),
            string_views(out@) == start + string_views(more@).take(i as int),
        decreases more@.len() - i,
    {
        let c = copy_string(&more[i]);
        let ghost before = out@;
        out.push(c);
        assert(string_views(out@) =~= string_views(before).push(c@));
        assert(string_views(more@).take(i + 1) =~= string_views(more@).take(i as int).push(
            more@[i as int]@,
        ));
        i += 1;
    }
    assert(string_views(more@).take(more@.len() as int) =~= string_views(more@));
}

pub fn collect_import_targets(import_target: &JsonValue) -> (out: Vec<String>)
    ensures
        string_views(out@) == import_targets(*import_target),
    decreases import_target,
{
    match import_target {
        JsonValue::Text(s) => {
            let out = vec![copy_string(s)];
            assert(string_views(out@) =~= seq![s@]);
            out
        },
        JsonValue::Object(members) => {
            let mut out: Vec<String> = Vec::new();
            let mut i: usize = 0;
            assert(string_views(out@) =~= Seq::<Seq<char>>::empty());
            while i < members.len()
                invariant
                    i <= members@.len(),
                    *import_target == JsonValue::Object(*members),
                    string_views(out@) == member_import_targets(members@, i as nat),
                decreases members@.len() - i,
            {
                proof {
                    assert(*members == (*import_target)->Object_0);
                    assert(decreases_to!(*import_target => (*import_target)->Object_0));
                    assert(decreases_to!(*members => members@));
                    assert(decreases_to!(members@ => members@[i as int]));
                    assert(decreases_to!(members@[i as int] => members@[i as int].1));
                    assert(decreases_to!(*import_target => members@[i as int].1));
                }
                let more = collect_import_targets(&members[i].1);
                append_strings(&mut out, more);
                i += 1;
            }
            out
        },
        _ => Vec::new(),
    }
}

// ---------------------------------------------------------------------
// Comparable targets
// ---------------------------------------------------------------------

/// None for an empty target; otherwise the
/// target resolved against the directory, with `/` for `\`.
pub open spec fn comparable_resolved(base: (bool, Seq<Seq<char>>), target: Seq<char>) -> Option<
    Seq<char>,
> {
    if target.len() == 0 {
        None
    } else {
        Some(replace_char(resolved(base, target), '\\', '/'))
    }
}

pub fn normalize_comparable_target(base_dir: &PathBase, target: &str) -> (r: Option<String>)
    ensures
        match r {
            Some(s) => comparable_resolved(base_dir@, target@) == Some(s@),
            None => comparable_resolved(base_dir@, target@) is None,
        },
{
    let t = chars_of(target);
    if t.len() == 0 {
        return None;
    }
    let p = resolve_path(base_dir, target);
    let pc = chars_of(p.as_str());
    let out = replace_char_chars(pc.as_slice(), '\\', '/');
    Some(string_from(out.as_slice()))
}

/// The comparable forms of the targets, each
/// once, in the order of first appearance.
pub open spec fn normalized_imports(base: (bool, Seq<Seq<char>>), targets: Seq<Seq<char>>) -> Seq<
    Seq<char>,
>
    decreases targets.len(),
{
    if targets.len() == 0 {
        seq![]
    } else {
        let prev = normalized_imports(base, targets.drop_last());
        match comparable_resolved(base, targets.last()) {
            Some(c) => if prev.contains(c) {
                prev
            } else {
                prev.push(c)
            },
            None => prev,
        }
    }
}

/// The comparable targets of an import entry are each listed once.
pub proof fn lemma_normalized_imports_distinct(base: (bool, Seq<Seq<char>>), targets: Seq<Seq<char>>)
    ensures
        forall|i: int, j: int|
            0 <= i < j < normalized_imports(base, targets).len() ==> normalized_imports(
                base,
                targets,
            )[i] != normalized_imports(base, targets)[j],
    decreases targets.len(),
{
    if targets.len() > 0 {
        lemma_normalized_imports_distinct(base, targets.drop_last());
        let prev = normalized_imports(base, targets.drop_last());
        match comparable_resolved(base, targets.last()) {
            Some(c) => {
                if !prev.contains(c) {
                    let r = prev.push(c);
                    assert forall|i: int, j: int| 0 <= i < j < r.len() implies r[i] != r[j] by {
                        if j == r.len() - 1 {
                            assert(r[j] == c);
                            assert(r[i] == prev[i]);
                        } else {
                            assert(r[i] == prev[i] && r[j] == prev[j]);
                        }
                    }
                }
            },
            None => {},
        }
    }
}

fn contains_string(v: &Vec<String>, s: &String) -> (r: bool)
    ensures
        r == string_views(v@).contains(s@),
{
    let sc = chars_of(s.as_str());
    let mut i: usize = 0;
    while i < v.len()
        invariant
            i <= v@.len(),
            sc@ == s@,
            forall|k: int| 0 <= k < i ==> v@[k]@ != s@,
        decreases v@.len() - i,
    {
        let c = chars_of(v[i].as_str());
        if chars_eq(c.as_slice(), sc.as_slice()) {
            assert(string_views(v@)[i as int] == s@);
            return true;
        }
        i += 1;
    }
    assert forall|k: int| 0 <= k < string_views(v@).len() implies string_views(v@)[k] != s@ by {
        assert(string_views(v@)[k] == v@[k]@);
    }
    false
}

pub fn normalize_import_targets(package_dir: &PathBase, import_target: &JsonValue) -> (out: Vec<
    String,
>)
    ensures
        string_views(out@) == normalized_imports(package_dir@, import_targets(*import_target)),
{
    let targets = collect_import_targets(import_target);
    let ghost tv = string_views(targets@);
    let mut out: Vec<String> = Vec::new();
    let mut i: usize = 0;
    assert(string_views(out@) =~= Seq::<Seq<char>>::empty());
    while i < targets.len()
        invariant
            i <= targets@.len(),
            tv == string_views(targets@),
            string_views(out@) == normalized_imports(package_dir@, tv.take(i as int)),
        decreases targets@.len() - i,
    {
        assert(tv.take(i + 1).drop_last() =~= tv.take(i as int));
        assert(tv.take(i + 1).last() == targets@[i as int]@);
        match normalize_comparable_target(package_dir, targets[i].as_str()) {
            Some(c) => {
                if !contains_string(&out, &c) {
                    let ghost before = out@;
                    out.push(c);
                    assert(string_views(out@) =~= string_views(before).push(c@));
                }
            },
            None => {},
        }
        i += 1;
    }
    assert(tv.take(tv.len() as int) =~= tv);
    out
}

// ---------------------------------------------------------------------
// The tsconfig target that counts
// ---------------------------------------------------------------------

/// The first string target from position `k` on that exists.
pub open spec fn first_existing(targets: Seq<JsonValue>, exists: Seq<bool>, k: int) -> Option<
    Seq<char>,
>
    decreases targets.len() - k,
{
    if k < 0 || k >= targets.len() {
        None
    } else {
        match targets[k] {
            JsonValue::Text(s) => if k < exists.len() && exists[k] {
                Some(s@)
            } else {
                first_existing(targets, exists, k + 1)
            },
            _ => first_existing(targets, exists, k + 1),
        }
    }
}

/// The first string target that
/// exists, else the first string target. `exists[k]` says whether target
/// `k` exists; a target past the end of `exists` counts as missing.
pub open spec fn effective_target(targets: Seq<JsonValue>, exists: Seq<bool>) -> Option<Seq<char>> {
    match first_existing(targets, exists, 0) {
        Some(t) => Some(t),
        None => first_text(targets),
    }
}

pub fn select_effective_tsconfig_target(ts_targets: &[JsonValue], exists: &[bool]) -> (r: Option<
    String,
>)
    ensures
        match r {
            Some(s) => effective_target(ts_targets@, exists@) == Some(s@),
            None => effective_target(ts_targets@, exists@) is None,
        },
{
    let mut first: Option<&String> = None;
    let mut k: usize = 0;
    assert(ts_targets@.skip(0) =~= ts_targets@);
    while k < ts_targets.len()
        invariant
            k <= ts_targets@.len(),
            effective_target(ts_targets@, exists@) == match first_existing(
                ts_targets@,
                exists@,
                k as int,
            ) {
                Some(t) => Some(t),
                None => match first {
                    Some(f) => Some(f@),
                    None => first_text(ts_targets@.skip(k as int)),
                },
            },
            first is None ==> first_text(ts_targets@) == first_text(ts_targets@.skip(k as int)),
        decreases ts_targets@.len() - k,
    {
        proof {
            assert(ts_targets@.skip(k as int)[0] == ts_targets@[k as int]);
            assert(ts_targets@.skip(k as int).drop_first() =~= ts_targets@.skip(k + 1));
        }
        match &ts_targets[k] {
            JsonValue::Text(s) => {
                if k < exists.len() && exists[k] {
                    return Some(copy_string(s));
                }
                if first.is_none() {
                    first = Some(s);
                }
            },
            _ => {},
        }
        k += 1;
    }
    match first {
        Some(f) => Some(copy_string(f)),
        None => None,
    }
}

// ---------------------------------------------------------------------
// Comparing one key
// ---------------------------------------------------------------------

/// The `paths` targets of a key: its value when that is an array.
pub open spec fn paths_targets(paths_config: JsonValue, key: Seq<char>) -> Option<Seq<JsonValue>> {
    match get_spec(paths_config, key) {
        Some(JsonValue::Array(items)) => Some(items@),
        _ => None,
    }
}

/// The comparison of one `imports` key of `package.json` with `paths`: when
/// `paths` gives the key a tsconfig target that counts and resolves, and
/// the import entry names at least one resolvable target, the two
/// disagree unless one of the import targets resolves to the same place.
/// The result is the tsconfig target when they disagree.
pub open spec fn import_conflict(
    import_key: Seq<char>,
    import_target: JsonValue,
    paths_config: JsonValue,
    exists: Seq<bool>,
    tsconfig_base: (bool, Seq<Seq<char>>),
    package_dir: (bool, Seq<Seq<char>>),
) -> Option<Seq<char>> {
    match paths_targets(paths_config, import_key) {
        None => None,
        Some(targets) => match effective_target(targets, exists) {
            None => None,
            Some(eff) => match comparable_resolved(tsconfig_base, eff) {
                None => None,
                Some(ne) => {
                    let ni = normalized_imports(package_dir, import_targets(import_target));
                    if ni.len() == 0 || ni.contains(ne) {
                        None
                    } else {
                        Some(eff)
                    }
                },
            },
        },
    }
}

pub fn import_paths_conflict(
    import_key: &str,
    import_target: &JsonValue,
    paths_config: &JsonValue,
    exists: &[bool],
    tsconfig_base_dir: &PathBase,
    package_dir: &PathBase,
) -> (r: Option<String>)
    ensures
        match r {
            Some(s) => import_conflict(
                import_key@,
                *import_target,
                *paths_config,
                exists@,
                tsconfig_base_dir@,
                package_dir@,
            ) == Some(s@),
            None => import_conflict(
                import_key@,
                *import_target,
                *paths_config,
                exists@,
                tsconfig_base_dir@,
                package_dir@,
            ) is None,
        },
{
    let targets = match get(paths_config, import_key) {
        Some(JsonValue::Array(items)) => items,
        _ => {
            return None;
        },
    };
    let eff = match select_effective_tsconfig_target(targets.as_slice(), exists) {
        Some(e) => e,
        None => {
            return None;
        },
    };
    let ne = match normalize_comparable_target(tsconfig_base_dir, eff.as_str()) {
        Some(n) => n,
        None => {
            return None;
        },
    };
    let ni = normalize_import_targets(package_dir, import_target);
    if ni.len() == 0 || contains_string(&ni, &ne) {
        return None;
    }
    Some(eff)
}

/// The title of the finding for a key whose targets disagree.
pub fn import_conflict_title(import_key: &str) -> (out: String)
    ensures
        out@ == "Alias \""@ + import_key@ + "\" differs between tsconfig and package imports"@,
{
    let mut out: Vec<char> = Vec::new();
    append_str(&mut out, "Alias \"");
    append_str(&mut out, import_key);
    append_str(&mut out, "\" differs between tsconfig and package imports");
    string_from(out.as_slice())
}

/// The detail of the finding: the tsconfig target, and the import entry as
/// text.
pub fn import_conflict_detail(ts_target: &str, import_text: &str) -> (out: String)
    ensures
        out@ == "tsconfig resolves to "@ + ts_target@ + ", while package.json imports resolves to "@
            + import_text@ + "."@,
{
    let mut out: Vec<char> = Vec::new();
    append_str(&mut out, "tsconfig resolves to ");
    append_str(&mut out, ts_target);
    append_str(&mut out, ", while package.json imports resolves to ");
    append_str(&mut out, import_text);
    append_str(&mut out, ".");
    string_from(out.as_slice())
}

/// The text of an import target that is a string: the string itself. Other
/// entries are written out as JSON text by the caller.
pub fn import_target_text(import_target: &JsonValue) -> (r: Option<String>)
    ensures
        match r {
            Some(s) => *import_target matches JsonValue::Text(t) && s@ == t@,
            None => !(*import_target is Text),
        },
{
    match import_target {
        JsonValue::Text(t) => Some(copy_string(t)),
        _ => None,
    }
}

} // verus!
