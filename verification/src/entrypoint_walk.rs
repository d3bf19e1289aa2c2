//! Walking a `package.json` entrypoint value: a string is a target, an
//! array lists fallbacks tried in order, an object maps conditions or
//! subpaths to further values. What the file system says about each string
//! target is handed in, keyed by the target's field path.
use vstd::prelude::*;
use crate::entrypoint_paths::{string_target_outcome, string_target_outcome_exec, TargetFacts};
use crate::json::{get, get_spec, JsonValue};
use crate::package_entrypoints::{
    allows_array_target, allows_null_target, allows_object_target, append_findings,
    exports_key_hint, exports_key_hint_spec, invalid_entrypoint_value_detail, root_is_exec,
    array_merge, branch_views, compress_object_branches, field_path_text, finding_view,
    finding_views, invalid_object_key_findings, join_field_path, json_value_kind,
    merge_array_branches, merge_nested_array_branches, merge_object_branches,
    mixes_subpaths_and_conditions, nested_array_merge, index_fallback_allowed,
    allows_index_directory_fallback, unique_exec, unique_spec,
    object_target_allowed, object_merge, refused_keys, refused_views, root_is,
    severity_for_field_path, should_compress_object_branches, under_exports_or_imports,
    uses_types, value_kind, BranchOutcome, FindingRef,
};
use crate::registry::Severity;
use crate::text::{
    append_chars, append_str, chars_eq_str, chars_of, decimal, string_from, string_views,
    u64_decimal,
};

verus! {

// ---------------------------------------------------------------------
// Facts about targets
// ---------------------------------------------------------------------

/// What the file system said about the string target at a field path.
pub struct LeafFacts {
    pub field_path: Vec<String>,
    pub facts: TargetFacts,
}

/// Facts as `string_target_outcome` reads them.
pub open spec fn facts_view(f: TargetFacts) -> (
    Option<(Seq<(Seq<char>, Seq<char>, Seq<char>, Seq<char>, Severity)>, bool)>,
    Option<Seq<char>>,
    Seq<(Seq<char>, Seq<char>, Seq<char>, Seq<char>, Severity)>,
    bool,
) {
    (
        match f.wildcard {
            Some(w) => Some((finding_views(w.findings@), w.has_valid_target)),
            None => None,
        },
        match f.resolved_file {
            Some(s) => Some(s@),
            None => None,
        },
        finding_views(f.nested@),
        f.exists,
    )
}

pub open spec fn leaf_views(v: Seq<LeafFacts>) -> Seq<
    (
        Seq<Seq<char>>,
        (
            Option<(Seq<(Seq<char>, Seq<char>, Seq<char>, Seq<char>, Severity)>, bool)>,
            Option<Seq<char>>,
            Seq<(Seq<char>, Seq<char>, Seq<char>, Seq<char>, Severity)>,
            bool,
        ),
    ),
> {
    v.map_values(|l: LeafFacts| (string_views(l.field_path@), facts_view(l.facts)))
}

/// The facts given first for the field path, from position `k` on; a
/// target with no facts is taken as naming nothing on disk.
pub open spec fn facts_at(
    facts: Seq<
        (
            Seq<Seq<char>>,
            (
                Option<(Seq<(Seq<char>, Seq<char>, Seq<char>, Seq<char>, Severity)>, bool)>,
                Option<Seq<char>>,
                Seq<(Seq<char>, Seq<char>, Seq<char>, Seq<char>, Severity)>,
                bool,
            ),
        ),
    >,
    fpv: Seq<Seq<char>>,
    k: int,
) -> (
    Option<(Seq<(Seq<char>, Seq<char>, Seq<char>, Seq<char>, Severity)>, bool)>,
    Option<Seq<char>>,
    Seq<(Seq<char>, Seq<char>, Seq<char>, Seq<char>, Severity)>,
    bool,
)
    decreases facts.len() - k,
{
    if k < 0 || k >= facts.len() {
        (None, None, seq![], false)
    } else if facts[k].0 == fpv {
        facts[k].1
    } else {
        facts_at(facts, fpv, k + 1)
    }
}

fn copy_findings(v: &Vec<FindingRef>) -> (out: Vec<FindingRef>)
    ensures
        finding_views(out@) == finding_views(v@),
{
    let mut out: Vec<FindingRef> = Vec::new();
    append_findings(&mut out, v);
    assert(finding_views(Seq::<FindingRef>::empty()) + finding_views(v@) =~= finding_views(v@));
    out
}

fn copy_facts(f: &TargetFacts) -> (r: TargetFacts)
    ensures
        facts_view(r) == facts_view(*f),
{
    let wildcard = match &f.wildcard {
        Some(w) => Some(
            BranchOutcome { findings: copy_findings(&w.findings), has_valid_target: w.has_valid_target },
        ),
        None => None,
    };
    let resolved_file = match &f.resolved_file {
        Some(s) => Some(string_from(chars_of(s.as_str()).as_slice())),
        None => None,
    };
    TargetFacts { wildcard, resolved_file, nested: copy_findings(&f.nested), exists: f.exists }
}

fn same_strings(a: &Vec<String>, b: &Vec<String>) -> (r: bool)
    ensures
        r == (string_views(a@) == string_views(b@)),
{
    if a.len() != b.len() {
        proof {
            if string_views(a@) == string_views(b@) {
                assert(string_views(a@).len() == string_views(b@).len());
            }
        }
        return false;
    }
    let mut i: usize = 0;
    while i < a.len()
        invariant
            i <= a@.len(),
            a@.len() == b@.len(),
            forall|k: int| 0 <= k < i ==> #[trigger] a@[k]@ == b@[k]@,
        decreases a@.len() - i,
    {
        let x = chars_of(a[i].as_str());
        let y = chars_of(b[i].as_str());
        if !crate::text::chars_eq(x.as_slice(), y.as_slice()) {
            proof {
                assert(string_views(a@)[i as int] != string_views(b@)[i as int]);
            }
            return false;
        }
        i += 1;
    }
    assert(string_views(a@) =~= string_views(b@));
    true
}

/// The facts for a field path.
fn facts_for(facts: &Vec<LeafFacts>, field_path: &Vec<String>) -> (r: TargetFacts)
    ensures
        facts_view(r) == facts_at(leaf_views(facts@), string_views(field_path@), 0),
{
    let ghost lv = leaf_views(facts@);
    let ghost fpv = string_views(field_path@);
    let mut k: usize = 0;
    while k < facts.len()
        invariant
            k <= facts@.len(),
            lv == leaf_views(facts@),
            fpv == string_views(field_path@),
            facts_at(lv, fpv, 0) == facts_at(lv, fpv, k as int),
        decreases facts@.len() - k,
    {
        assert(lv[k as int] == (string_views(facts@[k as int].field_path@), facts_view(facts@[k as int].facts)));
        if same_strings(&facts[k].field_path, field_path) {
            return copy_facts(&facts[k].facts);
        }
        k += 1;
    }
    let nested: Vec<FindingRef> = Vec::new();
    assert(finding_views(nested@) =~= Seq::<(Seq<char>, Seq<char>, Seq<char>, Seq<char>, Severity)>::empty());
    TargetFacts { wildcard: None, resolved_file: None, nested, exists: false }
}

// ---------------------------------------------------------------------
// Field paths by their parts
// ---------------------------------------------------------------------

/// A field path with the given parts (the rules read a field path only
/// through its parts).
pub open spec fn field_path_of(fpv: Seq<Seq<char>>) -> Seq<String> {
    choose|fp: Seq<String>| string_views(fp) == fpv
}

/// Field paths with the same parts agree in every rule.
proof fn lemma_same_parts(fp1: Seq<String>, fp2: Seq<String>)
    requires
        string_views(fp1) == string_views(fp2),
    ensures
        fp1.len() == fp2.len(),
        forall|k: int| 0 <= k < fp1.len() ==> #[trigger] fp1[k]@ == fp2[k]@,
        field_path_text(fp1) == field_path_text(fp2),
        uses_types(fp1) == uses_types(fp2),
        under_exports_or_imports(fp1) == under_exports_or_imports(fp2),
        object_target_allowed(fp1) == object_target_allowed(fp2),
        forall|name: Seq<char>| #[trigger] root_is(fp1, name) == root_is(fp2, name),
{
    assert(fp1.len() == string_views(fp1).len());
    assert(fp2.len() == string_views(fp2).len());
    assert forall|k: int| 0 <= k < fp1.len() implies #[trigger] fp1[k]@ == fp2[k]@ by {
        assert(string_views(fp1)[k] == fp1[k]@);
        assert(string_views(fp2)[k] == fp2[k]@);
    }
    assert(fp1.map_values(|x: String| x@) =~= fp2.map_values(|x: String| x@));
    if uses_types(fp1) && !root_is(fp1, "types"@) {
        let k = choose|k: int| 1 <= k < fp1.len() && #[trigger] fp1[k]@ == "types"@;
        assert(fp2[k]@ == "types"@);
    }
    if uses_types(fp2) && !root_is(fp2, "types"@) {
        let k = choose|k: int| 1 <= k < fp2.len() && #[trigger] fp2[k]@ == "types"@;
        assert(fp1[k]@ == "types"@);
    }
}

proof fn lemma_field_path_of(fp: Seq<String>)
    ensures
        string_views(field_path_of(string_views(fp))) == string_views(fp),
{
    let q = fp;
    assert(string_views(q) == string_views(fp));
    assert(exists|q: Seq<String>| #[trigger] string_views(q) == string_views(fp));
}

// ---------------------------------------------------------------------
// Findings of objects and of values of the wrong kind
// ---------------------------------------------------------------------

/// The finding for a value of a kind the field does not allow.
pub open spec fn invalid_value_finding(pp: Seq<char>, fp: Seq<String>, v: JsonValue) -> (
    Seq<char>,
    Seq<char>,
    Seq<char>,
    Seq<char>,
    Severity,
) {
    (
        "package-entrypoints:"@ + pp + ":"@ + field_path_text(fp) + ":invalid-type:"@ + value_kind(
            v,
        )@,
        "Package entrypoint target is invalid"@,
        "package.json "@ + field_path_text(fp)
            + " must be a string target or nested fallback branches, but found "@ + value_kind(v)@
            + "."@,
        "Use a string target or nested fallback branches composed of strings, arrays, and objects."@,
        if uses_types(fp) {
            Severity::Warn
        } else {
            Severity::Error
        },
    )
}

fn invalid_value_outcome(package_path: &str, field_path: &Vec<String>, value: &JsonValue) -> (r:
    BranchOutcome)
    ensures
        finding_views(r.findings@) == seq![invalid_value_finding(package_path@, field_path@, *value)],
        !r.has_valid_target,
{
    let mut id: Vec<char> = Vec::new();
    append_str(&mut id, "package-entrypoints:");
    append_str(&mut id, package_path);
    append_str(&mut id, ":");
    let fp = join_field_path(field_path.as_slice());
    append_chars(&mut id, fp.as_slice());
    append_str(&mut id, ":invalid-type:");
    append_str(&mut id, json_value_kind(value));
    let f = FindingRef {
        id: string_from(id.as_slice()),
        title: string_from(chars_of("Package entrypoint target is invalid").as_slice()),
        detail: invalid_entrypoint_value_detail(field_path.as_slice(), value),
        hint: string_from(
            chars_of(
                "Use a string target or nested fallback branches composed of strings, arrays, and objects.",
            ).as_slice(),
        ),
        severity: severity_for_field_path(field_path.as_slice()),
    };
    let v = vec![f];
    assert(finding_views(v@) =~= seq![finding_view(f)]);
    BranchOutcome { findings: v, has_valid_target: false }
}

/// The keys of an object's members, in order.
pub open spec fn member_keys(ms: Seq<(String, JsonValue)>) -> Seq<String> {
    ms.map_values(|m: (String, JsonValue)| m.0)
}

/// The finding of an invalid key, with the reason it is refused: the hint
/// asks for a `#` alias under `imports`, and for a subpath or condition key
/// under `exports`.
pub open spec fn key_finding(pp: Seq<char>, fp: Seq<String>, key: Seq<char>, reason: Seq<char>) -> (
    Seq<char>,
    Seq<char>,
    Seq<char>,
    Seq<char>,
    Severity,
) {
    (
        "package-entrypoints:"@ + pp + ":"@ + field_path_text(fp) + "/"@ + key + ":key"@,
        "Package entrypoint key is invalid"@,
        "package.json "@ + field_path_text(fp) + "/"@ + key + " uses an invalid key. "@ + reason + "."@,
        if root_is(fp, "imports"@) {
            "Rename the imports entry to a # alias before publishing."@
        } else {
            exports_key_hint_spec(key)@
        },
        Severity::Error,
    )
}

/// The finding of a top-level `exports` map that mixes subpaths and
/// conditions.
pub open spec fn mixed_keys_finding(pp: Seq<char>, fp: Seq<String>) -> (
    Seq<char>,
    Seq<char>,
    Seq<char>,
    Seq<char>,
    Severity,
) {
    (
        "package-entrypoints:"@ + pp + ":"@ + field_path_text(fp) + ":mixed-keys"@,
        "Package exports object is invalid"@,
        "package.json exports mixes subpath keys with condition keys at the same object level."@,
        "Use either package subpath keys such as . and ./feature, or conditional keys such as import and default at one level."@,
        Severity::Error,
    )
}

/// The keys that a reason rule refuses, for this field path.
pub open spec fn refused_here(fp: Seq<String>, keys: Seq<String>) -> Seq<(int, &'static str)> {
    if root_is(fp, "imports"@) && fp.len() == 1 {
        refused_keys(keys, keys.len() as int, false)
    } else if root_is(fp, "exports"@) {
        refused_keys(keys, keys.len() as int, true)
    } else {
        Seq::empty()
    }
}

/// The mixed-keys finding of a top-level
/// `exports` map, then a finding for each refused key, in key order.
pub open spec fn key_findings(pp: Seq<char>, fp: Seq<String>, keys: Seq<String>) -> Seq<
    (Seq<char>, Seq<char>, Seq<char>, Seq<char>, Severity),
> {
    let mixed = root_is(fp, "exports"@) && fp.len() == 1 && mixes_subpaths_and_conditions(keys);
    (if mixed {
        seq![mixed_keys_finding(pp, fp)]
    } else {
        seq![]
    }) + refused_here(fp, keys).map_values(
        |r: (int, &'static str)| key_finding(pp, fp, keys[r.0]@, r.1@),
    )
}

/// Refused keys are keys of the object.
proof fn lemma_refused_in_range(keys: Seq<String>, k: int, exports: bool)
    requires
        k <= keys.len(),
    ensures
        forall|m: int|
            0 <= m < refused_keys(keys, k, exports).len() ==> 0 <= #[trigger] refused_keys(
                keys,
                k,
                exports,
            )[m].0 < k,
    decreases k,
{
    if k > 0 {
        lemma_refused_in_range(keys, k - 1, exports);
        let prev = refused_keys(keys, k - 1, exports);
        let cur = refused_keys(keys, k, exports);
        assert forall|m: int| 0 <= m < cur.len() implies 0 <= #[trigger] cur[m].0 < k by {
            if m < prev.len() {
                assert(cur[m] == prev[m]);
            }
        }
    }
}

fn copy_keys(members: &Vec<(String, JsonValue)>) -> (keys: Vec<String>)
    ensures
        keys@ == member_keys(members@),
{
    let mut keys: Vec<String> = Vec::new();
    let mut i: usize = 0;
    while i < members.len()
        invariant
            i <= members@.len(),
            keys@ == member_keys(members@).take(i as int),
        decreases members@.len() - i,
    {
        let k = members[i].0.clone();
        keys.push(k);
        assert(member_keys(members@).take(i + 1) =~= member_keys(members@).take(i as int).push(
            members@[i as int].0,
        ));
        i += 1;
    }
    assert(member_keys(members@).take(members@.len() as int) =~= member_keys(members@));
    keys
}

fn key_findings_exec(package_path: &str, field_path: &Vec<String>, keys: &Vec<String>) -> (r: Vec<
    FindingRef,
>)
    ensures
        finding_views(r@) == key_findings(package_path@, field_path@, keys@),
{
    let kf = invalid_object_key_findings(field_path.as_slice(), keys.as_slice());
    let mut prefix: Vec<char> = Vec::new();
    append_str(&mut prefix, "package-entrypoints:");
    append_str(&mut prefix, package_path);
    append_str(&mut prefix, ":");
    let fp = join_field_path(field_path.as_slice());
    append_chars(&mut prefix, fp.as_slice());
    let ghost pre = "package-entrypoints:"@ + package_path@ + ":"@ + field_path_text(field_path@);
    assert(prefix@ =~= pre);
    let mut out: Vec<FindingRef> = Vec::new();
    if kf.mixed_exports {
        let mut id = prefix.clone();
        append_str(&mut id, ":mixed-keys");
        let f = FindingRef {
            id: string_from(id.as_slice()),
            title: string_from(chars_of("Package exports object is invalid").as_slice()),
            detail: string_from(
                chars_of(
                    "package.json exports mixes subpath keys with condition keys at the same object level.",
                ).as_slice(),
            ),
            hint: string_from(
                chars_of(
                    "Use either package subpath keys such as . and ./feature, or conditional keys such as import and default at one level.",
                ).as_slice(),
            ),
            severity: Severity::Error,
        };
        out.push(f);
        assert(id@ =~= pre + ":mixed-keys"@);
    }
    let ghost head = finding_views(out@);
    assert(head == (if kf.mixed_exports {
        seq![mixed_keys_finding(package_path@, field_path@)]
    } else {
        seq![]
    }));
    let ghost refused = refused_views(kf.refused@);
    let ghost want = refused.map_values(
        |r: (int, &'static str)| key_finding(package_path@, field_path@, keys@[r.0]@, r.1@),
    );
    proof {
        lemma_refused_in_range(keys@, keys@.len() as int, true);
        lemma_refused_in_range(keys@, keys@.len() as int, false);
    }
    let under_imports = root_is_exec(field_path.as_slice(), "imports");
    let mut j: usize = 0;
    while j < kf.refused.len()
        invariant
            j <= kf.refused@.len(),
            under_imports == root_is(field_path@, "imports"@),
            refused == refused_views(kf.refused@),
            refused == crate::entrypoint_walk::refused_here(field_path@, keys@),
            forall|m: int| 0 <= m < refused.len() ==> 0 <= #[trigger] refused[m].0 < keys@.len(),
            prefix@ == pre,
            fp@ == field_path_text(field_path@),
            pre == "package-entrypoints:"@ + package_path@ + ":"@ + field_path_text(field_path@),
            want == refused.map_values(
                |r: (int, &'static str)| key_finding(package_path@, field_path@, keys@[r.0]@, r.1@),
            ),
            finding_views(out@) == head + want.take(j as int),
        decreases kf.refused@.len() - j,
    {
        let (idx, reason) = kf.refused[j];
        assert(refused[j as int] == (idx as int, reason));
        let mut id = prefix.clone();
        append_str(&mut id, "/");
        append_str(&mut id, keys[idx].as_str());
        append_str(&mut id, ":key");
        let mut detail: Vec<char> = Vec::new();
        append_str(&mut detail, "package.json ");
        append_chars(&mut detail, fp.as_slice());
        append_str(&mut detail, "/");
        append_str(&mut detail, keys[idx].as_str());
        append_str(&mut detail, " uses an invalid key. ");
        append_str(&mut detail, reason);
        append_str(&mut detail, ".");
        let hint: &str = if under_imports {
            "Rename the imports entry to a # alias before publishing."
        } else {
            exports_key_hint(keys[idx].as_str())
        };
        let f = FindingRef {
            id: string_from(id.as_slice()),
            title: string_from(chars_of("Package entrypoint key is invalid").as_slice()),
            detail: string_from(detail.as_slice()),
            hint: string_from(chars_of(hint).as_slice()),
            severity: Severity::Error,
        };
        assert(id@ =~= pre + "/"@ + keys@[idx as int]@ + ":key"@);
        assert(want[j as int] == finding_view(f));
        let ghost before = finding_views(out@);
        out.push(f);
        assert(finding_views(out@) =~= before.push(finding_view(f)));
        assert(want.take(j + 1) =~= want.take(j as int).push(want[j as int]));
        j += 1;
    }
    assert(want.take(kf.refused@.len() as int) =~= want);
    out
}



/// The rules of the walk read a field path only through its parts.
proof fn lemma_same_rules(
    pp: Seq<char>,
    fp1: Seq<String>,
    fp2: Seq<String>,
    t: Seq<char>,
    keys: Seq<String>,
    v: JsonValue,
    f: (
        Option<(Seq<(Seq<char>, Seq<char>, Seq<char>, Seq<char>, Severity)>, bool)>,
        Option<Seq<char>>,
        Seq<(Seq<char>, Seq<char>, Seq<char>, Seq<char>, Severity)>,
        bool,
    ),
)
    requires
        string_views(fp1) == string_views(fp2),
    ensures
        string_target_outcome(pp, fp1, t, f.0, f.1, f.2, f.3) == string_target_outcome(
            pp,
            fp2,
            t,
            f.0,
            f.1,
            f.2,
            f.3,
        ),
        key_findings(pp, fp1, keys) == key_findings(pp, fp2, keys),
        compress_object_branches(fp1, keys) == compress_object_branches(fp2, keys),
        invalid_value_finding(pp, fp1, v) == invalid_value_finding(pp, fp2, v),
{
    lemma_same_parts(fp1, fp2);
    assert(root_is(fp1, "exports"@) == root_is(fp2, "exports"@));
    assert(root_is(fp1, "imports"@) == root_is(fp2, "imports"@));
    assert(refused_here(fp1, keys) == refused_here(fp2, keys));
    let m1 = refused_here(fp1, keys).map_values(|r: (int, &'static str)| key_finding(pp, fp1, keys[r.0]@, r.1@));
    let m2 = refused_here(fp2, keys).map_values(|r: (int, &'static str)| key_finding(pp, fp2, keys[r.0]@, r.1@));
    assert(m1 =~= m2);
    if fp1.len() > 0 {
        assert(fp1[0]@ == fp2[0]@);
    }
}

// ---------------------------------------------------------------------
// The walk
// ---------------------------------------------------------------------

/// `[i]`, the part that the `i`th branch of an array adds to the field
/// path.
pub open spec fn index_part(i: int) -> Seq<char> {
    seq!['['] + decimal(i as nat) + seq![']']
}

fn index_part_exec(i: usize) -> (r: String)
    ensures
        r@ == index_part(i as int),
{
    let mut v: Vec<char> = vec!['['];
    let d = u64_decimal(i as u64);
    append_chars(&mut v, d.as_slice());
    v.push(']');
    assert(v@ =~= index_part(i as int));
    string_from(v.as_slice())
}

fn copy_strings(v: &Vec<String>) -> (out: Vec<String>)
    ensures
        string_views(out@) == string_views(v@),
{
    let mut out: Vec<String> = Vec::new();
    let mut i: usize = 0;
    while i < v.len()
        invariant
            i <= v@.len(),
            string_views(out@) == string_views(v@).take(i as int),
        decreases v@.len() - i,
    {
        let c = string_from(chars_of(v[i].as_str()).as_slice());
        let ghost before = out@;
        out.push(c);
        assert(string_views(out@) =~= string_views(before).push(c@));
        assert(string_views(v@).take(i + 1) =~= string_views(v@).take(i as int).push(v@[i as int]@));
        i += 1;
    }
    assert(string_views(v@).take(v@.len() as int) =~= string_views(v@));
    out
}

/// The findings about a value at a field path
/// and whether it resolves to a valid target. A string is a target
/// (`string_target_outcome`, with the facts given for its field path); an
/// array, allowed below `exports` and `imports`, is tried branch by branch
/// (`array_merge`); an object, allowed there and as the top-level `bin`
/// map, reports its key findings and every member (`object_merge`); `null`
/// is allowed below `exports` and `imports`; anything else is a value of
/// the wrong kind.
pub open spec fn inspect(pp: Seq<char>, fpv: Seq<Seq<char>>, v: JsonValue, facts: Seq<LeafFacts>) -> (
    Seq<(Seq<char>, Seq<char>, Seq<char>, Seq<char>, Severity)>,
    bool,
)
    decreases v, 0nat,
{
    let fp = field_path_of(fpv);
    let invalid = (seq![invalid_value_finding(pp, fp, v)], false);
    match v {
        JsonValue::Text(t) => {
            let f = facts_at(leaf_views(facts), fpv, 0);
            string_target_outcome(pp, fp, t@, f.0, f.1, f.2, f.3)
        },
        JsonValue::Array(items) => if under_exports_or_imports(fp) {
            array_merge(item_outcomes(pp, fpv, items@, facts, items@.len()), Seq::empty())
        } else {
            invalid
        },
        JsonValue::Object(members) => if object_target_allowed(fp) {
            let keys = member_keys(members@);
            object_merge(
                key_findings(pp, fp, keys),
                member_outcomes(pp, fpv, members@, facts, members@.len()),
                compress_object_branches(fp, keys),
            )
        } else {
            invalid
        },
        JsonValue::Null => if under_exports_or_imports(fp) {
            (seq![], false)
        } else {
            invalid
        },
        _ => invalid,
    }
}

/// The outcomes of the first `n` branches of an array.
pub open spec fn item_outcomes(
    pp: Seq<char>,
    fpv: Seq<Seq<char>>,
    items: Seq<JsonValue>,
    facts: Seq<LeafFacts>,
    n: nat,
) -> Seq<(Seq<(Seq<char>, Seq<char>, Seq<char>, Seq<char>, Severity)>, bool)>
    decreases items, n,
{
    if n == 0 || n > items.len() {
        seq![]
    } else {
        item_outcomes(pp, fpv, items, facts, (n - 1) as nat).push(
            inspect(pp, fpv.push(index_part(n - 1)), items[n - 1], facts),
        )
    }
}

/// The outcomes of the first `n` members of an object.
pub open spec fn member_outcomes(
    pp: Seq<char>,
    fpv: Seq<Seq<char>>,
    ms: Seq<(String, JsonValue)>,
    facts: Seq<LeafFacts>,
    n: nat,
) -> Seq<(Seq<(Seq<char>, Seq<char>, Seq<char>, Seq<char>, Severity)>, bool)>
    decreases ms, n,
{
    if n == 0 || n > ms.len() {
        seq![]
    } else {
        member_outcomes(pp, fpv, ms, facts, (n - 1) as nat).push(
            inspect(pp, fpv.push(ms[n - 1].0@), ms[n - 1].1, facts),
        )
    }
}

pub fn inspect_entrypoint_value(
    package_path: &str,
    field_path: Vec<String>,
    value: &JsonValue,
    facts: &Vec<LeafFacts>,
) -> (r: BranchOutcome)
    ensures
        (finding_views(r.findings@), r.has_valid_target) == inspect(
            package_path@,
            string_views(field_path@),
            *value,
            facts@,
        ),
    decreases value,
{
    let ghost fpv = string_views(field_path@);
    let ghost fp = field_path_of(fpv);
    proof {
        lemma_field_path_of(field_path@);
        lemma_same_parts(field_path@, fp);
        lemma_same_rules(package_path@, field_path@, fp, seq![], seq![], *value, (None, None, seq![], false));
    }
    match value {
        JsonValue::Text(t) => {
            let f = facts_for(facts, &field_path);
            proof {
                lemma_same_rules(package_path@, field_path@, fp, t@, seq![], *value, facts_view(f));
            }
            string_target_outcome_exec(package_path, field_path.as_slice(), t.as_str(), f)
        },
        JsonValue::Array(items) => {
            if !allows_array_target(field_path.as_slice()) {
                return invalid_value_outcome(package_path, &field_path, value);
            }
            let mut branches: Vec<BranchOutcome> = Vec::new();
            let mut i: usize = 0;
            assert(branch_views(branches@) =~= Seq::<(Seq<(Seq<char>, Seq<char>, Seq<char>, Seq<char>, Severity)>, bool)>::empty());
            while i < items.len()
                invariant
                    i <= items@.len(),
                    *value == JsonValue::Array(*items),
                    fpv == string_views(field_path@),
                    branch_views(branches@) == item_outcomes(package_path@, fpv, items@, facts@, i as nat),
                decreases items@.len() - i,
            {
                proof {
                    assert(*items == (*value)->Array_0);
                    assert(decreases_to!(*value => (*value)->Array_0));
                    assert(decreases_to!(*items => items@));
                    assert(decreases_to!(items@ => items@[i as int]));
                    assert(decreases_to!(*value => items@[i as int]));
                }
                let mut next = copy_strings(&field_path);
                let part = index_part_exec(i);
                let ghost before_next = next@;
                next.push(part);
                assert(string_views(next@) =~= string_views(before_next).push(part@));
                let b = inspect_entrypoint_value(package_path, next, &items[i], facts);
                let ghost before = branches@;
                branches.push(b);
                assert(branch_views(branches@) =~= branch_views(before).push(
                    (finding_views(b.findings@), b.has_valid_target),
                ));
                i += 1;
            }
            merge_array_branches(&branches)
        },
        JsonValue::Object(members) => {
            if !allows_object_target(field_path.as_slice()) {
                return invalid_value_outcome(package_path, &field_path, value);
            }
            let keys = copy_keys(members);
            let mut branches: Vec<BranchOutcome> = Vec::new();
            let mut i: usize = 0;
            assert(branch_views(branches@) =~= Seq::<(Seq<(Seq<char>, Seq<char>, Seq<char>, Seq<char>, Severity)>, bool)>::empty());
            while i < members.len()
                invariant
                    i <= members@.len(),
                    *value == JsonValue::Object(*members),
                    fpv == string_views(field_path@),
                    branch_views(branches@) == member_outcomes(package_path@, fpv, members@, facts@, i as nat),
                decreases members@.len() - i,
            {
                proof {
                    assert(*members == (*value)->Object_0);
                    assert(decreases_to!(*value => (*value)->Object_0));
                    assert(decreases_to!(*members => members@));
                    assert(decreases_to!(members@ => members@[i as int]));
                    assert(decreases_to!(members@[i as int] => members@[i as int].1));
                    assert(decreases_to!(*value => members@[i as int].1));
                }
                let mut next = copy_strings(&field_path);
                let part = string_from(chars_of(members[i].0.as_str()).as_slice());
                let ghost before_next = next@;
                next.push(part);
                assert(string_views(next@) =~= string_views(before_next).push(part@));
                let b = inspect_entrypoint_value(package_path, next, &members[i].1, facts);
                let ghost before = branches@;
                branches.push(b);
                assert(branch_views(branches@) =~= branch_views(before).push(
                    (finding_views(b.findings@), b.has_valid_target),
                ));
                i += 1;
            }
            proof {
                lemma_same_rules(package_path@, field_path@, fp, seq![], keys@, *value, (None, None, seq![], false));
            }
            let kf = key_findings_exec(package_path, &field_path, &keys);
            let compress = should_compress_object_branches(field_path.as_slice(), keys.as_slice());
            merge_object_branches(&kf, &branches, compress)
        },
        JsonValue::Null => {
            if allows_null_target(field_path.as_slice()) {
                let none: Vec<FindingRef> = Vec::new();
                assert(finding_views(none@) =~= Seq::<(Seq<char>, Seq<char>, Seq<char>, Seq<char>, Severity)>::empty());
                BranchOutcome { findings: none, has_valid_target: false }
            } else {
                invalid_value_outcome(package_path, &field_path, value)
            }
        },
        _ => invalid_value_outcome(package_path, &field_path, value),
    }
}


// ---------------------------------------------------------------------
// The walk below a nested package.json
// ---------------------------------------------------------------------

/// How deep the walk follows directories that hold their own
/// `package.json`.
pub const MAX_NESTED_PACKAGE_DEPTH: usize = 8;

/// The walk of a value of a
/// nested `package.json`. Past the depth limit nothing is reported. A
/// string is a target as in `inspect` (its facts are looked up by field
/// path); an array keeps its findings when no branch is valid
/// (`nested_array_merge`); an object reports its key findings and every
/// member, without compressing them; `null` and values of the wrong kind
/// are as in `inspect`.
pub open spec fn inspect_nested(
    pp: Seq<char>,
    fpv: Seq<Seq<char>>,
    v: JsonValue,
    facts: Seq<LeafFacts>,
    depth: nat,
) -> (Seq<(Seq<char>, Seq<char>, Seq<char>, Seq<char>, Severity)>, bool)
    decreases v, 0nat,
{
    let fp = field_path_of(fpv);
    let invalid = (seq![invalid_value_finding(pp, fp, v)], false);
    if depth >= MAX_NESTED_PACKAGE_DEPTH {
        (seq![], false)
    } else {
        match v {
            JsonValue::Text(t) => {
                let f = facts_at(leaf_views(facts), fpv, 0);
                string_target_outcome(pp, fp, t@, f.0, f.1, f.2, f.3)
            },
            JsonValue::Array(items) => if under_exports_or_imports(fp) {
                nested_array_merge(
                    nested_item_outcomes(pp, fpv, items@, facts, depth + 1, items@.len()),
                    Seq::empty(),
                )
            } else {
                invalid
            },
            JsonValue::Object(members) => if object_target_allowed(fp) {
                object_merge(
                    key_findings(pp, fp, member_keys(members@)),
                    nested_member_outcomes(pp, fpv, members@, facts, depth + 1, members@.len()),
                    false,
                )
            } else {
                invalid
            },
            JsonValue::Null => if under_exports_or_imports(fp) {
                (seq![], false)
            } else {
                invalid
            },
            _ => invalid,
        }
    }
}

/// The nested outcomes of the first `n` branches of an array.
pub open spec fn nested_item_outcomes(
    pp: Seq<char>,
    fpv: Seq<Seq<char>>,
    items: Seq<JsonValue>,
    facts: Seq<LeafFacts>,
    depth: nat,
    n: nat,
) -> Seq<(Seq<(Seq<char>, Seq<char>, Seq<char>, Seq<char>, Severity)>, bool)>
    decreases items, n,
{
    if n == 0 || n > items.len() {
        seq![]
    } else {
        nested_item_outcomes(pp, fpv, items, facts, depth, (n - 1) as nat).push(
            inspect_nested(pp, fpv.push(index_part(n - 1)), items[n - 1], facts, depth),
        )
    }
}

/// The nested outcomes of the first `n` members of an object.
pub open spec fn nested_member_outcomes(
    pp: Seq<char>,
    fpv: Seq<Seq<char>>,
    ms: Seq<(String, JsonValue)>,
    facts: Seq<LeafFacts>,
    depth: nat,
    n: nat,
) -> Seq<(Seq<(Seq<char>, Seq<char>, Seq<char>, Seq<char>, Severity)>, bool)>
    decreases ms, n,
{
    if n == 0 || n > ms.len() {
        seq![]
    } else {
        nested_member_outcomes(pp, fpv, ms, facts, depth, (n - 1) as nat).push(
            inspect_nested(pp, fpv.push(ms[n - 1].0@), ms[n - 1].1, facts, depth),
        )
    }
}

pub fn inspect_nested_directory_value_at_depth(
    package_path: &str,
    field_path: Vec<String>,
    value: &JsonValue,
    facts: &Vec<LeafFacts>,
    depth: usize,
) -> (r: BranchOutcome)
    ensures
        (finding_views(r.findings@), r.has_valid_target) == inspect_nested(
            package_path@,
            string_views(field_path@),
            *value,
            facts@,
            depth as nat,
        ),
    decreases value,
{
    let ghost fpv = string_views(field_path@);
    let ghost fp = field_path_of(fpv);
    if depth >= MAX_NESTED_PACKAGE_DEPTH {
        let none: Vec<FindingRef> = Vec::new();
        assert(finding_views(none@) =~= Seq::<(Seq<char>, Seq<char>, Seq<char>, Seq<char>, Severity)>::empty());
        return BranchOutcome { findings: none, has_valid_target: false };
    }
    proof {
        lemma_field_path_of(field_path@);
        lemma_same_parts(field_path@, fp);
        lemma_same_rules(package_path@, field_path@, fp, seq![], seq![], *value, (None, None, seq![], false));
    }
    match value {
        JsonValue::Text(t) => {
            let f = facts_for(facts, &field_path);
            proof {
                lemma_same_rules(package_path@, field_path@, fp, t@, seq![], *value, facts_view(f));
            }
            string_target_outcome_exec(package_path, field_path.as_slice(), t.as_str(), f)
        },
        JsonValue::Array(items) => {
            if !allows_array_target(field_path.as_slice()) {
                return invalid_value_outcome(package_path, &field_path, value);
            }
            let mut branches: Vec<BranchOutcome> = Vec::new();
            let mut i: usize = 0;
            assert(branch_views(branches@) =~= Seq::<(Seq<(Seq<char>, Seq<char>, Seq<char>, Seq<char>, Severity)>, bool)>::empty());
            while i < items.len()
                invariant
                    i <= items@.len(),
                    depth < MAX_NESTED_PACKAGE_DEPTH,
                    *value == JsonValue::Array(*items),
                    fpv == string_views(field_path@),
                    branch_views(branches@) == nested_item_outcomes(
                        package_path@,
                        fpv,
                        items@,
                        facts@,
                        (depth + 1) as nat,
                        i as nat,
                    ),
                decreases items@.len() - i,
            {
                proof {
                    assert(*items == (*value)->Array_0);
                    assert(decreases_to!(*value => (*value)->Array_0));
                    assert(decreases_to!(*items => items@));
                    assert(decreases_to!(items@ => items@[i as int]));
                    assert(decreases_to!(*value => items@[i as int]));
                }
                let mut next = copy_strings(&field_path);
                let part = index_part_exec(i);
                let ghost before_next = next@;
                next.push(part);
                assert(string_views(next@) =~= string_views(before_next).push(part@));
                let b = inspect_nested_directory_value_at_depth(package_path, next, &items[i], facts, depth + 1);
                let ghost before = branches@;
                branches.push(b);
                assert(branch_views(branches@) =~= branch_views(before).push(
                    (finding_views(b.findings@), b.has_valid_target),
                ));
                i += 1;
            }
            merge_nested_array_branches(&branches)
        },
        JsonValue::Object(members) => {
            if !allows_object_target(field_path.as_slice()) {
                return invalid_value_outcome(package_path, &field_path, value);
            }
            let keys = copy_keys(members);
            let mut branches: Vec<BranchOutcome> = Vec::new();
            let mut i: usize = 0;
            assert(branch_views(branches@) =~= Seq::<(Seq<(Seq<char>, Seq<char>, Seq<char>, Seq<char>, Severity)>, bool)>::empty());
            while i < members.len()
                invariant
                    i <= members@.len(),
                    depth < MAX_NESTED_PACKAGE_DEPTH,
                    *value == JsonValue::Object(*members),
                    fpv == string_views(field_path@),
                    branch_views(branches@) == nested_member_outcomes(
                        package_path@,
                        fpv,
                        members@,
                        facts@,
                        (depth + 1) as nat,
                        i as nat,
                    ),
                decreases members@.len() - i,
            {
                proof {
                    assert(*members == (*value)->Object_0);
                    assert(decreases_to!(*value => (*value)->Object_0));
                    assert(decreases_to!(*members => members@));
                    assert(decreases_to!(members@ => members@[i as int]));
                    assert(decreases_to!(members@[i as int] => members@[i as int].1));
                    assert(decreases_to!(*value => members@[i as int].1));
                }
                let mut next = copy_strings(&field_path);
                let part = string_from(chars_of(members[i].0.as_str()).as_slice());
                let ghost before_next = next@;
                next.push(part);
                assert(string_views(next@) =~= string_views(before_next).push(part@));
                let b = inspect_nested_directory_value_at_depth(
                    package_path,
                    next,
                    &members[i].1,
                    facts,
                    depth + 1,
                );
                let ghost before = branches@;
                branches.push(b);
                assert(branch_views(branches@) =~= branch_views(before).push(
                    (finding_views(b.findings@), b.has_valid_target),
                ));
                i += 1;
            }
            proof {
                lemma_same_rules(package_path@, field_path@, fp, seq![], keys@, *value, (None, None, seq![], false));
            }
            let kf = key_findings_exec(package_path, &field_path, &keys);
            merge_object_branches(&kf, &branches, false)
        },
        JsonValue::Null => {
            if allows_null_target(field_path.as_slice()) {
                let none: Vec<FindingRef> = Vec::new();
                assert(finding_views(none@) =~= Seq::<(Seq<char>, Seq<char>, Seq<char>, Seq<char>, Severity)>::empty());
                BranchOutcome { findings: none, has_valid_target: false }
            } else {
                invalid_value_outcome(package_path, &field_path, value)
            }
        },
        _ => invalid_value_outcome(package_path, &field_path, value),
    }
}

/// The findings other than
/// missing-target ones.
pub open spec fn without_missing(fs: Seq<(Seq<char>, Seq<char>, Seq<char>, Seq<char>, Severity)>) -> Seq<
    (Seq<char>, Seq<char>, Seq<char>, Seq<char>, Severity),
>
    decreases fs.len(),
{
    if fs.len() == 0 {
        seq![]
    } else if fs.last().1 == "Package entrypoint target does not exist"@ {
        without_missing(fs.drop_last())
    } else {
        without_missing(fs.drop_last()).push(fs.last())
    }
}

fn without_missing_exec(fs: &Vec<FindingRef>) -> (out: Vec<FindingRef>)
    ensures
        finding_views(out@) == without_missing(finding_views(fs@)),
{
    let ghost fv = finding_views(fs@);
    let mut out: Vec<FindingRef> = Vec::new();
    let mut i: usize = 0;
    assert(finding_views(out@) =~= without_missing(fv.take(0)));
    while i < fs.len()
        invariant
            i <= fs@.len(),
            fv == finding_views(fs@),
            finding_views(out@) == without_missing(fv.take(i as int)),
        decreases fs@.len() - i,
    {
        assert(fv.take(i + 1).drop_last() =~= fv.take(i as int));
        assert(fv.take(i + 1).last() == finding_view(fs@[i as int]));
        let missing = chars_eq_str(
            chars_of(fs[i].title.as_str()).as_slice(),
            "Package entrypoint target does not exist",
        );
        if !missing {
            let f = fs[i].copy();
            let ghost before = out@;
            out.push(f);
            assert(finding_views(out@) =~= finding_views(before).push(finding_view(f)));
        }
        i += 1;
    }
    assert(fv.take(fs@.len() as int) =~= fv);
    out
}

/// The fields of a nested `package.json` that the walk reads, in order.
pub open spec fn manifest_fields() -> Seq<Seq<char>> {
    seq!["main"@, "module"@, "types"@, "bin"@, "exports"@, "imports"@]
}

fn manifest_field(i: usize) -> (r: &'static str)
    requires
        i < 6,
    ensures
        r@ == manifest_fields()[i as int],
{
    match i {
        0 => "main",
        1 => "module",
        2 => "types",
        3 => "bin",
        4 => "exports",
        _ => "imports",
    }
}

/// The first part of a field path, if any.
pub open spec fn root_part(fp: Seq<String>) -> Option<Seq<char>> {
    if fp.len() > 0 {
        Some(fp[0]@)
    } else {
        None
    }
}

/// The walk of the first `n` fields of a nested `package.json`: each field
/// it has is walked one level deeper and its findings are kept in field
/// order. The field that the outer walk came from decides validity: it is
/// valid when its walk is, or, failing that, when the package directory has
/// an `index` file to fall back to, in which case its missing-target
/// findings are dropped.
pub open spec fn manifest_walk(
    mp: Seq<char>,
    pj: JsonValue,
    root: Option<Seq<char>>,
    fallback: bool,
    facts: Seq<LeafFacts>,
    depth: nat,
    n: int,
) -> (Seq<(Seq<char>, Seq<char>, Seq<char>, Seq<char>, Severity)>, bool)
    decreases n,
{
    if n <= 0 || n > 6 {
        (seq![], false)
    } else {
        let prev = manifest_walk(mp, pj, root, fallback, facts, depth, n - 1);
        let name = manifest_fields()[n - 1];
        match get_spec(pj, name) {
            None => prev,
            Some(v) => {
                let o = inspect_nested(mp, seq![name], v, facts, depth + 1);
                if root == Some(name) {
                    if o.1 {
                        (prev.0 + o.0, true)
                    } else if fallback {
                        (prev.0 + without_missing(o.0), true)
                    } else {
                        (prev.0 + o.0, prev.1)
                    }
                } else {
                    (prev.0 + o.0, prev.1)
                }
            },
        }
    }
}

/// Nothing past the depth
/// limit or when the nested `package.json` could not be read or parsed
/// (`None`); otherwise the walk of its fields, each finding id once.
/// `index_file_exists` says whether one of the `index` candidates of the
/// package directory is a file.
pub open spec fn manifest_outcome(
    mp: Seq<char>,
    fp: Seq<String>,
    package_json: Option<JsonValue>,
    index_file_exists: bool,
    facts: Seq<LeafFacts>,
    depth: nat,
) -> (Seq<(Seq<char>, Seq<char>, Seq<char>, Seq<char>, Severity)>, bool) {
    if depth >= MAX_NESTED_PACKAGE_DEPTH {
        (seq![], false)
    } else {
        match package_json {
            None => (seq![], false),
            Some(pj) => {
                let w = manifest_walk(
                    mp,
                    pj,
                    root_part(fp),
                    index_fallback_allowed(fp) && index_file_exists,
                    facts,
                    depth,
                    6,
                );
                (unique_spec(w.0), w.1)
            },
        }
    }
}

pub fn inspect_package_manifest_outcome_at_depth(
    package_manifest_path: &str,
    field_path: &[String],
    package_json: Option<&JsonValue>,
    index_file_exists: bool,
    facts: &Vec<LeafFacts>,
    depth: usize,
) -> (r: BranchOutcome)
    ensures
        (finding_views(r.findings@), r.has_valid_target) == manifest_outcome(
            package_manifest_path@,
            field_path@,
            match package_json {
                Some(j) => Some(*j),
                None => None,
            },
            index_file_exists,
            facts@,
            depth as nat,
        ),
{
    let pj = match package_json {
        Some(j) if depth < MAX_NESTED_PACKAGE_DEPTH => j,
        _ => {
            let none: Vec<FindingRef> = Vec::new();
            assert(finding_views(none@) =~= Seq::<(Seq<char>, Seq<char>, Seq<char>, Seq<char>, Severity)>::empty());
            return BranchOutcome { findings: none, has_valid_target: false };
        },
    };
    let ghost root = root_part(field_path@);
    let fallback = allows_index_directory_fallback(field_path) && index_file_exists;
    let mut findings: Vec<FindingRef> = Vec::new();
    let mut valid = false;
    let mut i: usize = 0;
    assert(finding_views(findings@) =~= Seq::<(Seq<char>, Seq<char>, Seq<char>, Seq<char>, Severity)>::empty());
    while i < 6
        invariant
            i <= 6,
            depth < MAX_NESTED_PACKAGE_DEPTH,
            root == root_part(field_path@),
            fallback == (index_fallback_allowed(field_path@) && index_file_exists),
            (finding_views(findings@), valid) == manifest_walk(
                package_manifest_path@,
                *pj,
                root,
                fallback,
                facts@,
                depth as nat,
                i as int,
            ),
        decreases 6 - i,
    {
        let name = manifest_field(i);
        match get(pj, name) {
            None => {},
            Some(value) => {
                let field = string_from(chars_of(name).as_slice());
                let path = vec![field];
                assert(string_views(path@) =~= seq![name@]);
                let o = inspect_nested_directory_value_at_depth(
                    package_manifest_path,
                    path,
                    value,
                    facts,
                    depth + 1,
                );
                let is_root = field_path.len() > 0 && chars_eq_str(
                    chars_of(field_path[0].as_str()).as_slice(),
                    name,
                );
                assert(is_root == (root == Some(name@)));
                if is_root && !o.has_valid_target && fallback {
                    let kept = without_missing_exec(&o.findings);
                    append_findings(&mut findings, &kept);
                    valid = true;
                } else {
                    append_findings(&mut findings, &o.findings);
                    if is_root && o.has_valid_target {
                        valid = true;
                    }
                }
            },
        }
        i += 1;
    }
    let u = unique_exec(&findings);
    BranchOutcome { findings: u, has_valid_target: valid }
}

/// The findings of each of the first `n` fields that
/// `package.json` has, field by field.
pub open spec fn collected(
    pp: Seq<char>,
    package_json: JsonValue,
    fields: Seq<&'static str>,
    facts: Seq<LeafFacts>,
    n: int,
) -> Seq<(Seq<char>, Seq<char>, Seq<char>, Seq<char>, Severity)>
    decreases n,
{
    if n <= 0 {
        seq![]
    } else {
        collected(pp, package_json, fields, facts, n - 1) + match get_spec(package_json, fields[n - 1]@) {
            Some(v) => inspect(pp, seq![fields[n - 1]@], v, facts).0,
            None => seq![],
        }
    }
}

pub fn collect_findings(
    package_path: &str,
    package_json: &JsonValue,
    entrypoint_fields: &[&'static str],
    facts: &Vec<LeafFacts>,
) -> (out: Vec<FindingRef>)
    ensures
        finding_views(out@) == collected(
            package_path@,
            *package_json,
            entrypoint_fields@,
            facts@,
            entrypoint_fields@.len() as int,
        ),
{
    let mut out: Vec<FindingRef> = Vec::new();
    let mut i: usize = 0;
    assert(finding_views(out@) =~= Seq::<(Seq<char>, Seq<char>, Seq<char>, Seq<char>, Severity)>::empty());
    while i < entrypoint_fields.len()
        invariant
            i <= entrypoint_fields@.len(),
            finding_views(out@) == collected(package_path@, *package_json, entrypoint_fields@, facts@, i as int),
        decreases entrypoint_fields@.len() - i,
    {
        let name = entrypoint_fields[i];
        match get(package_json, name) {
            Some(value) => {
                let field = string_from(chars_of(name).as_slice());
                let path = vec![field];
                assert(string_views(path@) =~= seq![name@]);
                let b = inspect_entrypoint_value(package_path, path, value, facts);
                append_findings(&mut out, &b.findings);
            },
            None => {
                assert(finding_views(out@) + Seq::<(Seq<char>, Seq<char>, Seq<char>, Seq<char>, Severity)>::empty() =~= finding_views(out@));
            },
        }
        i += 1;
    }
    out
}

} // verus!
