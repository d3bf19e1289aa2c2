//! The findings about `compilerOptions.paths`: each alias against its
//! targets, and the aliases against each other. Which string targets exist
//! on disk is handed in.
use vstd::prelude::*;
use crate::json::{as_str_spec, get, get_spec, get_str, JsonValue};
use crate::output_paths::resolved_at;
use crate::paths::PathBase;
use crate::registry::Severity;
use crate::text::{chars_eq, chars_of, contains_char, string_views};
use crate::tsconfig_findings::{
    deprecated_option_finding, paths_shape_finding, paths_empty_finding, paths_missing_finding, paths_type_finding, paths_wildcard_finding,
    shadow_alias_finding, shadow_package_finding, ts_view, ts_views, TsFinding, TsView,
};
use crate::tsconfig_rules::{
    alias_pairs, alias_shadowing_pairs, index_list_views, index_pair_views, package_style_aliases,
    package_style_upto, pair_entry, pair_views, pairs_row, present_deprecated, string_items,
    deprecated_options_present,
};

verus! {

/// An alias that maps to no target.
pub open spec fn empty_view(fp: Seq<char>, alias: Seq<char>) -> TsView {
    (
        "tsconfig-paths-empty:"@ + fp + ":"@ + alias,
        "Alias \""@ + alias + "\" does not declare any targets"@,
        "Each path alias should map to at least one target string."@,
        "Add a valid target or remove the alias entry."@,
        Severity::Error,
        fp,
    )
}

/// A target that is not a string.
pub open spec fn type_view(fp: Seq<char>, alias: Seq<char>) -> TsView {
    (
        "tsconfig-paths-type:"@ + fp + ":"@ + alias,
        "Alias \""@ + alias + "\" contains a non-string target"@,
        "TypeScript path targets must be strings."@,
        "Replace non-string entries with valid path strings."@,
        Severity::Error,
        fp,
    )
}

/// A target whose `*` use differs from the alias's.
pub open spec fn wildcard_view(fp: Seq<char>, alias: Seq<char>, target: Seq<char>) -> TsView {
    (
        "tsconfig-paths-wildcard:"@ + fp + ":"@ + alias + ":"@ + target,
        "Wildcard shape does not match for alias \""@ + alias + "\""@,
        alias + " maps to "@ + target + ", but only one side uses \"*\"."@,
        "Keep wildcard placement aligned so imports resolve predictably."@,
        Severity::Warn,
        fp,
    )
}

/// A target that does not exist.
pub open spec fn missing_view(fp: Seq<char>, alias: Seq<char>, target: Seq<char>) -> TsView {
    (
        "tsconfig-paths-missing:"@ + fp + ":"@ + alias + ":"@ + target,
        "Path alias target does not exist"@,
        alias + " points to "@ + target,
        "Update or remove the stale alias target."@,
        Severity::Error,
        fp,
    )
}

/// The finding of one target while the targets are read: a non-string
/// target, or a string whose `*` use differs from the alias's.
pub open spec fn item_findings(fp: Seq<char>, alias: Seq<char>, item: JsonValue) -> Seq<
    TsView,
> {
    match item {
        JsonValue::Text(t) => if alias.contains('*') != t@.contains('*') {
            seq![wildcard_view(fp, alias, t@)]
        } else {
            seq![]
        },
        _ => seq![type_view(fp, alias)],
    }
}

/// The findings of the first `n` targets.
pub open spec fn items_findings(fp: Seq<char>, alias: Seq<char>, items: Seq<JsonValue>, n: int) -> Seq<
    TsView,
>
    decreases n,
{
    if n <= 0 {
        seq![]
    } else {
        items_findings(fp, alias, items, n - 1) + item_findings(fp, alias, items[n - 1])
    }
}

/// Some string target exists.
pub open spec fn some_target_exists(items: Seq<JsonValue>, existing: Seq<Seq<char>>) -> bool {
    exists|k: int| 0 <= k < string_items(items).len() && existing.contains(#[trigger] string_items(items)[k])
}

/// The findings of one alias (`collect_paths_findings`): an alias without
/// targets gives one finding; otherwise each target gives its shape
/// findings in order, and when no string target exists, each string target
/// is reported missing.
pub open spec fn alias_findings(fp: Seq<char>, alias: Seq<char>, targets: JsonValue, existing: Seq<Seq<char>>) -> Seq<
    TsView,
> {
    match targets {
        JsonValue::Array(items) => if items@.len() == 0 {
            seq![empty_view(fp, alias)]
        } else {
            items_findings(fp, alias, items@, items@.len() as int) + if some_target_exists(
                items@,
                existing,
            ) {
                seq![]
            } else {
                string_items(items@).map_values(|t: Seq<char>| missing_view(fp, alias, t))
            }
        },
        _ => seq![empty_view(fp, alias)],
    }
}

/// The findings of the first `n` aliases.
pub open spec fn paths_findings(
    fp: Seq<char>,
    ms: Seq<(String, JsonValue)>,
    existing: Seq<Seq<char>>,
    n: int,
) -> Seq<TsView>
    decreases n,
{
    if n <= 0 {
        seq![]
    } else {
        paths_findings(fp, ms, existing, n - 1) + alias_findings(fp, ms[n - 1].0@, ms[n - 1].1, existing)
    }
}

fn listed(list: &Vec<String>, t: &[char]) -> (r: bool)
    ensures
        r == string_views(list@).contains(t@),
{
    let mut i: usize = 0;
    while i < list.len()
        invariant
            i <= list@.len(),
            forall|k: int| 0 <= k < i ==> (#[trigger] list@[k])@ != t@,
        decreases list@.len() - i,
    {
        let c = chars_of(list[i].as_str());
        if chars_eq(c.as_slice(), t) {
            assert(string_views(list@)[i as int] == t@);
            return true;
        }
        i += 1;
    }
    proof {
        if string_views(list@).contains(t@) {
            let k = choose|k: int| 0 <= k < string_views(list@).len() && string_views(list@)[k] == t@;
            assert(list@[k]@ == t@);
        }
    }
    false
}

fn push_finding(out: &mut Vec<TsFinding>, f: TsFinding)
    ensures
        ts_views(final(out)@) == ts_views(old(out)@).push(ts_view(f)),
{
    let ghost before = out@;
    out.push(f);
    assert(ts_views(out@) =~= ts_views(before).push(ts_view(f)));
}

/// The findings of one alias against its targets; `existing` lists the
/// string targets that exist on disk.
pub fn alias_target_findings(file_path: &str, alias: &str, targets: &JsonValue, existing: &Vec<String>) -> (out:
    Vec<TsFinding>)
    ensures
        ts_views(out@) == alias_findings(file_path@, alias@, *targets, string_views(existing@)),
{
    let mut out: Vec<TsFinding> = Vec::new();
    let items = match targets {
        JsonValue::Array(items) => items,
        _ => {
            push_finding(&mut out, paths_empty_finding(file_path, alias));
            assert(ts_views(out@) =~= seq![empty_view(file_path@, alias@)]);
            return out;
        },
    };
    if items.len() == 0 {
        push_finding(&mut out, paths_empty_finding(file_path, alias));
        assert(ts_views(out@) =~= seq![empty_view(file_path@, alias@)]);
        return out;
    }
    let ac = chars_of(alias);
    let alias_wild = contains_char(ac.as_slice(), '*');
    let ghost ex = string_views(existing@);
    let mut strings: Vec<Vec<char>> = Vec::new();
    let mut found = false;
    let mut i: usize = 0;
    assert(ts_views(out@) =~= Seq::<TsView>::empty());
    while i < items.len()
        invariant
            i <= items@.len(),
            alias_wild == alias@.contains('*'),
            ex == string_views(existing@),
            ts_views(out@) == items_findings(file_path@, alias@, items@, i as int),
            strings@.map_values(|c: Vec<char>| c@) == string_items(items@.take(i as int)),
            found == exists|k: int|
                0 <= k < string_items(items@.take(i as int)).len() && ex.contains(
                    #[trigger] string_items(items@.take(i as int))[k],
                ),
        decreases items@.len() - i,
    {
        proof {
            assert(items@.take(i + 1).drop_last() =~= items@.take(i as int));
            assert(items@.take(i + 1).last() == items@[i as int]);
        }
        let ghost prev_strings = string_items(items@.take(i as int));
        match &items[i] {
            JsonValue::Text(t) => {
                let tc = chars_of(t.as_str());
                if alias_wild != contains_char(tc.as_slice(), '*') {
                    push_finding(&mut out, paths_wildcard_finding(file_path, alias, t.as_str()));
                } else {
                    assert(ts_views(out@) + Seq::<TsView>::empty() =~= ts_views(out@));
                }
                let here = listed(existing, tc.as_slice());
                let ghost before_strings = strings@;
                strings.push(tc);
                proof {
                    assert(string_items(items@.take(i + 1)) == prev_strings.push(t@));
                    assert(strings@.map_values(|c: Vec<char>| c@) =~= before_strings.map_values(|c: Vec<char>| c@).push(t@));
                    let now = string_items(items@.take(i + 1));
                    if found {
                        let k = choose|k: int| 0 <= k < prev_strings.len() && ex.contains(#[trigger] prev_strings[k]);
                        assert(now[k] == prev_strings[k]);
                    }
                    if here {
                        assert(now[prev_strings.len() as int] == t@);
                    }
                    if exists|k: int| 0 <= k < now.len() && ex.contains(#[trigger] now[k]) {
                        let k = choose|k: int| 0 <= k < now.len() && ex.contains(#[trigger] now[k]);
                        if k < prev_strings.len() {
                            assert(now[k] == prev_strings[k]);
                        }
                    }
                }
                found = found || here;
            },
            _ => {
                push_finding(&mut out, paths_type_finding(file_path, alias));
                proof {
                    assert(string_items(items@.take(i + 1)) == prev_strings);
                }
            },
        }
        i += 1;
    }
    assert(items@.take(items@.len() as int) =~= items@);
    if !found {
        let ghost head = ts_views(out@);
        let ghost want = string_items(items@).map_values(|t: Seq<char>| missing_view(file_path@, alias@, t));
        let mut j: usize = 0;
        while j < strings.len()
            invariant
                j <= strings@.len(),
                strings@.map_values(|c: Vec<char>| c@) == string_items(items@),
                want == string_items(items@).map_values(|t: Seq<char>| missing_view(file_path@, alias@, t)),
                ts_views(out@) == head + want.take(j as int),
            decreases strings@.len() - j,
        {
            let t = crate::text::string_from(strings[j].as_slice());
            assert(t@ == string_items(items@)[j as int]);
            push_finding(&mut out, paths_missing_finding(file_path, alias, t.as_str()));
            assert(want.take(j + 1) =~= want.take(j as int).push(want[j as int]));
            j += 1;
        }
        assert(want.take(strings@.len() as int) =~= want);
    } else {
        assert(ts_views(out@) + Seq::<TsView>::empty() =~= ts_views(out@));
    }
    out
}

/// The findings of every alias of `paths`, in
/// order; `existing` lists the string targets that exist on disk.
pub fn collect_paths_findings(file_path: &str, paths_config: &Vec<(String, JsonValue)>, existing: &Vec<String>) -> (out:
    Vec<TsFinding>)
    ensures
        ts_views(out@) == paths_findings(file_path@, paths_config@, string_views(existing@), paths_config@.len() as int),
{
    let mut out: Vec<TsFinding> = Vec::new();
    let mut i: usize = 0;
    assert(ts_views(out@) =~= Seq::<TsView>::empty());
    while i < paths_config.len()
        invariant
            i <= paths_config@.len(),
            ts_views(out@) == paths_findings(file_path@, paths_config@, string_views(existing@), i as int),
        decreases paths_config@.len() - i,
    {
        let mut more = alias_target_findings(file_path, paths_config[i].0.as_str(), &paths_config[i].1, existing);
        let ghost before = out@;
        let ghost added = more@;
        out.append(&mut more);
        assert(ts_views(out@) =~= ts_views(before) + ts_views(added));
        i += 1;
    }
    out
}


// ---------------------------------------------------------------------
// Aliases against each other
// ---------------------------------------------------------------------

/// An alias that reads like a package name.
pub open spec fn shadow_package_view(fp: Seq<char>, alias: Seq<char>) -> TsView {
    (
        "tsconfig-paths-shadow-package:"@ + fp + ":"@ + alias,
        "Path alias \""@ + alias + "\" shadows a package import"@,
        "\""@ + alias
            + "\" is a bare package-style specifier, so this alias can override an installed package or workspace package with the same import path."@,
        "Prefer #internal/* or another dedicated namespace for app-local aliases so package imports stay unambiguous."@,
        Severity::Warn,
        fp,
    )
}

/// An alias that hides another.
pub open spec fn shadow_alias_view(fp: Seq<char>, shadowing: Seq<char>, shadowed: Seq<char>) -> TsView {
    (
        "tsconfig-paths-shadow-alias:"@ + fp + ":"@ + shadowing + ":"@ + shadowed,
        "Path alias \""@ + shadowing + "\" shadows \""@ + shadowed + "\""@,
        "Both aliases can match the same import specifier, so TypeScript will prefer \""@ + shadowing
            + "\" and hide \""@ + shadowed + "\" for those imports."@,
        "Make overlapping aliases disjoint so imports keep a single obvious target."@,
        Severity::Warn,
        fp,
    )
}

/// A finding for each alias that
/// reads like a package name, then one for each pair of aliases where one
/// hides the other (`alias_pairs`).
pub open spec fn shadowing_findings(fp: Seq<char>, a: Seq<Seq<char>>) -> Seq<
    TsView,
> {
    package_style_upto(a, a.len() as int).map_values(|k: int| shadow_package_view(fp, a[k]))
        + alias_pairs(a, 0).map_values(|p: (int, int)| shadow_alias_view(fp, a[p.0], a[p.1]))
}

proof fn lemma_package_style_in_range(a: Seq<Seq<char>>, k: int)
    requires
        k <= a.len(),
    ensures
        forall|m: int|
            0 <= m < package_style_upto(a, k).len() ==> 0 <= #[trigger] package_style_upto(a, k)[m] < k,
    decreases k,
{
    if k > 0 {
        lemma_package_style_in_range(a, k - 1);
        let prev = package_style_upto(a, k - 1);
        let cur = package_style_upto(a, k);
        assert forall|m: int| 0 <= m < cur.len() implies 0 <= #[trigger] cur[m] < k by {
            if m < prev.len() {
                assert(cur[m] == prev[m]);
            }
        }
    }
}

proof fn lemma_row_in_range(a: Seq<Seq<char>>, i: int, j: int)
    requires
        0 <= i < a.len(),
    ensures
        forall|m: int|
            0 <= m < pairs_row(a, i, j).len() ==> 0 <= (#[trigger] pairs_row(a, i, j)[m]).0 < a.len() && 0
                <= pairs_row(a, i, j)[m].1 < a.len(),
    decreases a.len() - j,
{
    if 0 <= j < a.len() {
        lemma_row_in_range(a, i, j + 1);
        let e = pair_entry(a, i, j);
        let rest = pairs_row(a, i, j + 1);
        let cur = pairs_row(a, i, j);
        assert(cur == e + rest);
        assert forall|m: int| 0 <= m < cur.len() implies 0 <= (#[trigger] cur[m]).0 < a.len() && 0 <= cur[m].1
            < a.len() by {
            if m < e.len() {
                assert(cur[m] == e[m]);
            } else {
                assert(cur[m] == rest[m - e.len()]);
            }
        }
    }
}

proof fn lemma_pairs_in_range(a: Seq<Seq<char>>, i: int)
    ensures
        forall|m: int|
            0 <= m < alias_pairs(a, i).len() ==> 0 <= (#[trigger] alias_pairs(a, i)[m]).0 < a.len() && 0
                <= alias_pairs(a, i)[m].1 < a.len(),
    decreases a.len() - i,
{
    if 0 <= i < a.len() {
        lemma_pairs_in_range(a, i + 1);
        lemma_row_in_range(a, i, i + 1);
        let row = pairs_row(a, i, i + 1);
        let rest = alias_pairs(a, i + 1);
        let cur = alias_pairs(a, i);
        assert(cur == row + rest);
        assert forall|m: int| 0 <= m < cur.len() implies 0 <= (#[trigger] cur[m]).0 < a.len() && 0 <= cur[m].1
            < a.len() by {
            if m < row.len() {
                assert(cur[m] == row[m]);
            } else {
                assert(cur[m] == rest[m - row.len()]);
            }
        }
    }
}

pub fn collect_path_alias_shadowing_findings(file_path: &str, aliases: &Vec<String>) -> (out: Vec<TsFinding>)
    requires
        forall|k: int| 0 <= k < aliases@.len() ==> 2 * (#[trigger] aliases@[k])@.len() <= usize::MAX,
    ensures
        ts_views(out@) == shadowing_findings(file_path@, string_views(aliases@)),
{
    let ghost a = string_views(aliases@);
    let pk = package_style_aliases(aliases);
    proof {
        lemma_package_style_in_range(a, a.len() as int);
    }
    let ghost pv = index_list_views(pk@);
    let ghost want1 = package_style_upto(a, a.len() as int).map_values(|k: int| shadow_package_view(file_path@, a[k]));
    let mut out: Vec<TsFinding> = Vec::new();
    let mut j: usize = 0;
    while j < pk.len()
        invariant
            j <= pk@.len(),
            a == string_views(aliases@),
            pv == index_list_views(pk@),
            pv == package_style_upto(a, a.len() as int),
            forall|m: int| 0 <= m < pv.len() ==> 0 <= #[trigger] pv[m] < a.len(),
            want1 == package_style_upto(a, a.len() as int).map_values(|k: int| shadow_package_view(file_path@, a[k])),
            ts_views(out@) == want1.take(j as int),
        decreases pk@.len() - j,
    {
        let k = pk[j];
        assert(pv[j as int] == k as int);
        push_finding(&mut out, shadow_package_finding(file_path, aliases[k].as_str()));
        assert(want1.take(j + 1) =~= want1.take(j as int).push(want1[j as int]));
        j += 1;
    }
    assert(want1.take(pk@.len() as int) =~= want1);
    let pairs = alias_shadowing_pairs(aliases);
    proof {
        lemma_pairs_in_range(a, 0);
    }
    let ghost qv = index_pair_views(pairs@);
    let ghost want2 = alias_pairs(a, 0).map_values(|p: (int, int)| shadow_alias_view(file_path@, a[p.0], a[p.1]));
    let mut m: usize = 0;
    while m < pairs.len()
        invariant
            m <= pairs@.len(),
            a == string_views(aliases@),
            qv == index_pair_views(pairs@),
            qv == alias_pairs(a, 0),
            forall|x: int| 0 <= x < qv.len() ==> 0 <= (#[trigger] qv[x]).0 < a.len() && 0 <= qv[x].1 < a.len(),
            want2 == alias_pairs(a, 0).map_values(|p: (int, int)| shadow_alias_view(file_path@, a[p.0], a[p.1])),
            ts_views(out@) == want1 + want2.take(m as int),
        decreases pairs@.len() - m,
    {
        let (x, y) = pairs[m];
        assert(qv[m as int] == (x as int, y as int));
        push_finding(&mut out, shadow_alias_finding(file_path, aliases[x].as_str(), aliases[y].as_str()));
        assert(want2.take(m + 1) =~= want2.take(m as int).push(want2[m as int]));
        m += 1;
    }
    assert(want2.take(pairs@.len() as int) =~= want2);
    out
}


// ---------------------------------------------------------------------
// The `compilerOptions` of one config
// ---------------------------------------------------------------------

/// The finding of a deprecated option.
pub open spec fn deprecated_view(fp: Seq<char>, option: Seq<char>, guidance: Seq<char>) -> TsView {
    (
        "tsconfig-deprecated:"@ + fp + ":"@ + option,
        "Deprecated compiler option \""@ + option + "\""@,
        guidance,
        "Remove legacy flags before they become upgrade blockers."@,
        Severity::Warn,
        fp,
    )
}

/// A finding for each deprecated
/// option that `compilerOptions` sets, in the table's order.
pub open spec fn deprecated_findings(fp: Seq<char>, co: Option<JsonValue>) -> Seq<
    TsView,
> {
    match co {
        None => seq![],
        Some(c) => present_deprecated(c, 8).map_values(
            |d: (Seq<char>, Seq<char>)| deprecated_view(fp, d.0, d.1),
        ),
    }
}

pub fn collect_deprecated_option_findings(file_path: &str, compiler_options: Option<&JsonValue>) -> (out: Vec<
    TsFinding,
>)
    ensures
        ts_views(out@) == deprecated_findings(
            file_path@,
            match compiler_options {
                Some(c) => Some(*c),
                None => None,
            },
        ),
{
    let mut out: Vec<TsFinding> = Vec::new();
    let co = match compiler_options {
        None => {
            assert(ts_views(out@) =~= Seq::<TsView>::empty());
            return out;
        },
        Some(c) => c,
    };
    let present = deprecated_options_present(co);
    let ghost want = present_deprecated(*co, 8).map_values(
        |d: (Seq<char>, Seq<char>)| deprecated_view(file_path@, d.0, d.1),
    );
    let mut i: usize = 0;
    while i < present.len()
        invariant
            i <= present@.len(),
            pair_views(present@) == present_deprecated(*co, 8),
            want == present_deprecated(*co, 8).map_values(
                |d: (Seq<char>, Seq<char>)| deprecated_view(file_path@, d.0, d.1),
            ),
            ts_views(out@) == want.take(i as int),
        decreases present@.len() - i,
    {
        let (option, guidance) = present[i];
        assert(pair_views(present@)[i as int] == (option@, guidance@));
        push_finding(&mut out, deprecated_option_finding(file_path, option, guidance));
        assert(want.take(i + 1) =~= want.take(i as int).push(want[i as int]));
        i += 1;
    }
    assert(want.take(present@.len() as int) =~= want);
    out
}

/// The directory `paths` targets are resolved against: `baseUrl` taken
/// relative to the config's directory, or that directory.
pub open spec fn paths_base_dir(config_dir: (bool, Seq<Seq<char>>), co: Option<JsonValue>) -> (bool, Seq<Seq<char>>) {
    match co {
        Some(c) => match as_str_spec(get_spec(c, "baseUrl"@)) {
            Some(b) => resolved_at(config_dir, b),
            None => config_dir,
        },
        None => config_dir,
    }
}

pub fn tsconfig_paths_base_dir(config_dir: &PathBase, compiler_options: Option<&JsonValue>) -> (r: PathBase)
    ensures
        r@ == paths_base_dir(
            config_dir@,
            match compiler_options {
                Some(c) => Some(*c),
                None => None,
            },
        ),
{
    match compiler_options {
        Some(c) => match get_str(c, "baseUrl") {
            Some(b) => config_dir.join(chars_of(b.as_str()).as_slice()).resolve(),
            None => config_dir.copy(),
        },
        None => config_dir.copy(),
    }
}

/// The shape finding of `paths`.
pub open spec fn paths_shape_view(fp: Seq<char>) -> TsView {
    (
        "tsconfig-paths-shape:"@ + fp,
        "compilerOptions.paths must be an object"@,
        "TypeScript expects alias keys mapped to arrays of target strings."@,
        "Rewrite paths to the standard { alias: [targets] } shape."@,
        Severity::Error,
        fp,
    )
}

/// The keys of `paths`.
pub open spec fn alias_keys(ms: Seq<(String, JsonValue)>) -> Seq<Seq<char>> {
    ms.map_values(|m: (String, JsonValue)| m.0@)
}

/// The `paths` findings of a tsconfig: nothing when `paths` is
/// absent or `null`; the shape finding when it is not an object; otherwise
/// the findings of every alias, then those of the aliases against each
/// other.
pub open spec fn paths_part(fp: Seq<char>, co: Option<JsonValue>, existing: Seq<Seq<char>>) -> Seq<
    TsView,
> {
    match co {
        None => seq![],
        Some(c) => match get_spec(c, "paths"@) {
            None => seq![],
            Some(JsonValue::Null) => seq![],
            Some(JsonValue::Object(ms)) => paths_findings(fp, ms@, existing, ms@.len() as int)
                + shadowing_findings(fp, alias_keys(ms@)),
            Some(_) => seq![paths_shape_view(fp)],
        },
    }
}

/// The aliases of `paths` are short enough to weigh (twice a length fits
/// in `usize`).
pub open spec fn aliases_bounded(co: Option<JsonValue>) -> bool {
    match co {
        Some(c) => match get_spec(c, "paths"@) {
            Some(JsonValue::Object(ms)) => forall|k: int|
                0 <= k < ms@.len() ==> 2 * (#[trigger] ms@[k]).0@.len() <= usize::MAX,
            _ => true,
        },
        None => true,
    }
}

pub fn tsconfig_paths_findings(file_path: &str, compiler_options: Option<&JsonValue>, existing: &Vec<String>) -> (out:
    Vec<TsFinding>)
    requires
        aliases_bounded(
            match compiler_options {
                Some(c) => Some(*c),
                None => None,
            },
        ),
    ensures
        ts_views(out@) == paths_part(
            file_path@,
            match compiler_options {
                Some(c) => Some(*c),
                None => None,
            },
            string_views(existing@),
        ),
{
    let mut out: Vec<TsFinding> = Vec::new();
    let co = match compiler_options {
        None => {
            assert(ts_views(out@) =~= Seq::<TsView>::empty());
            return out;
        },
        Some(c) => c,
    };
    let paths = match get(co, "paths") {
        None => {
            assert(ts_views(out@) =~= Seq::<TsView>::empty());
            return out;
        },
        Some(p) => p,
    };
    let members = match paths {
        JsonValue::Null => {
            assert(ts_views(out@) =~= Seq::<TsView>::empty());
            return out;
        },
        JsonValue::Object(ms) => ms,
        _ => {
            push_finding(&mut out, paths_shape_finding(file_path));
            assert(ts_views(out@) =~= seq![paths_shape_view(file_path@)]);
            return out;
        },
    };
    let mut out = collect_paths_findings(file_path, members, existing);
    let mut keys: Vec<String> = Vec::new();
    let mut i: usize = 0;
    while i < members.len()
        invariant
            i <= members@.len(),
            string_views(keys@) == alias_keys(members@).take(i as int),
            forall|k: int| 0 <= k < i ==> keys@[k] == members@[k].0,
        decreases members@.len() - i,
    {
        let ghost before = keys@;
        keys.push(members[i].0.clone());
        assert(string_views(keys@) =~= string_views(before).push(members@[i as int].0@));
        assert(alias_keys(members@).take(i + 1) =~= alias_keys(members@).take(i as int).push(members@[i as int].0@));
        i += 1;
    }
    assert(alias_keys(members@).take(members@.len() as int) =~= alias_keys(members@));
    let ghost head = out@;
    let mut shadow = collect_path_alias_shadowing_findings(file_path, &keys);
    let ghost tail = shadow@;
    out.append(&mut shadow);
    assert(ts_views(out@) =~= ts_views(head) + ts_views(tail));
    out
}

} // verus!
