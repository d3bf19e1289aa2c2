//! The environment-variable contract: which committed example file is
//! preferred, which keys the example files declare together (first
//! occurrence wins, in file order), which of them are worth syncing, and
//! how an addition is appended to an existing example file.
use vstd::prelude::*;
use crate::text::{
    chars_eq, chars_eq_str, chars_of, lemma_text_le_total, lemma_text_le_trans, starts_with,
    starts_with_str, string_from, string_views, text_le, text_le_exec,
};

verus! {

/// Keys set by hosting platforms and build tools, never part of a
/// project's contract.
pub open spec fn ambient_platform_key(key: Seq<char>) -> bool {
    ||| key == "NX_DAEMON"@
    ||| key == "VERCEL"@
    ||| key == "VERCEL_URL"@
    ||| starts_with(key, "VERCEL_"@)
    ||| starts_with(key, "TURBO_"@)
}

/// Whether a key is set by the platform rather than by the project (`NX_DAEMON`, `VERCEL`, `VERCEL_*`, `TURBO_*`).
pub fn is_ambient_platform_env_key(key: &str) -> (r: bool)
    ensures
        r == ambient_platform_key(key@),
{
    let k = chars_of(key);
    chars_eq_str(k.as_slice(), "NX_DAEMON") || chars_eq_str(k.as_slice(), "VERCEL")
        || chars_eq_str(k.as_slice(), "VERCEL_URL") || starts_with_str(k.as_slice(), "VERCEL_")
        || starts_with_str(k.as_slice(), "TURBO_")
}

/// The preference among example files, lower
/// first.
pub open spec fn contract_record_score(name: Seq<char>) -> int {
    if name == ".env.example"@ {
        0
    } else if name == ".env.sample"@ {
        1
    } else if name == ".env.template"@ {
        2
    } else if name == ".env.dist"@ {
        3
    } else {
        4
    }
}

pub fn score_contract_record(file_name: &str) -> (r: usize)
    ensures
        r == contract_record_score(file_name@),
{
    let f = chars_of(file_name);
    if chars_eq_str(f.as_slice(), ".env.example") {
        0
    } else if chars_eq_str(f.as_slice(), ".env.sample") {
        1
    } else if chars_eq_str(f.as_slice(), ".env.template") {
        2
    } else if chars_eq_str(f.as_slice(), ".env.dist") {
        3
    } else {
        4
    }
}

// ---------------------------------------------------------------------
// Contract keys
// ---------------------------------------------------------------------

/// `acc` extended by the keys not in it yet, in order.
pub open spec fn append_new(acc: Seq<Seq<char>>, keys: Seq<Seq<char>>) -> Seq<Seq<char>>
    decreases keys.len(),
{
    if keys.len() == 0 {
        acc
    } else {
        let before = append_new(acc, keys.drop_last());
        if before.contains(keys.last()) {
            before
        } else {
            before.push(keys.last())
        }
    }
}

/// The keys of all records, each once, in order of first appearance.
pub open spec fn contract_keys(records: Seq<Seq<Seq<char>>>) -> Seq<Seq<char>>
    decreases records.len(),
{
    if records.len() == 0 {
        seq![]
    } else {
        append_new(contract_keys(records.drop_last()), records.last())
    }
}


/// The views of a list of records' key lists.
pub open spec fn record_views(r: Seq<Vec<String>>) -> Seq<Seq<Seq<char>>> {
    r.map_values(|x: Vec<String>| string_views(x@))
}

fn contains_string(list: &Vec<String>, key: &String) -> (r: bool)
    ensures
        r == string_views(list@).contains(key@),
{
    let k = chars_of(key.as_str());
    let mut i: usize = 0;
    while i < list.len()
        invariant
            i <= list@.len(),
            k@ == key@,
            forall|j: int| 0 <= j < i ==> (#[trigger] list@[j])@ != key@,
        decreases list@.len() - i,
    {
        let c = chars_of(list[i].as_str());
        if chars_eq(c.as_slice(), k.as_slice()) {
            assert(string_views(list@)[i as int] == key@);
            return true;
        }
        i += 1;
    }
    proof {
        if string_views(list@).contains(key@) {
            let j = choose|j: int| 0 <= j < string_views(list@).len() && string_views(list@)[j] == key@;
            assert(list@[j]@ == key@);
        }
    }
    false
}

fn append_new_exec(acc: &mut Vec<String>, keys: &Vec<String>)
    ensures
        string_views(final(acc)@) == append_new(string_views(old(acc)@), string_views(keys@)),
{
    let ghost start = string_views(acc@);
    let mut i: usize = 0;
    while i < keys.len()
        invariant
            i <= keys@.len(),
            string_views(acc@) == append_new(start, string_views(keys@).take(i as int)),
        decreases keys@.len() - i,
    {
        proof {
            assert(string_views(keys@).take(i + 1).drop_last() =~= string_views(keys@).take(
                i as int,
            ));
        }
        let ghost before = string_views(acc@);
        if !contains_string(acc, &keys[i]) {
            acc.push(keys[i].clone());
            proof {
                assert(string_views(acc@) =~= before.push(keys@[i as int]@));
            }
        }
        i += 1;
    }
    assert(string_views(keys@).take(keys@.len() as int) =~= string_views(keys@));
}

/// Each record's keys are given in file order,
/// and the records in preference order.
pub fn collect_contract_keys(records: &Vec<Vec<String>>) -> (keys: Vec<String>)
    ensures
        string_views(keys@) == contract_keys(record_views(records@)),
{
    let mut keys: Vec<String> = Vec::new();
    let mut i: usize = 0;
    while i < records.len()
        invariant
            i <= records@.len(),
            string_views(keys@) == contract_keys(record_views(records@).take(i as int)),
        decreases records@.len() - i,
    {
        proof {
            assert(record_views(records@).take(i + 1).drop_last() =~= record_views(records@).take(
                i as int,
            ));
        }
        append_new_exec(&mut keys, &records[i]);
        i += 1;
    }
    assert(record_views(records@).take(records@.len() as int) =~= record_views(records@));
    keys
}

/// The keys that are not ambient platform keys, in order.
pub open spec fn without_ambient(keys: Seq<Seq<char>>) -> Seq<Seq<char>>
    decreases keys.len(),
{
    if keys.len() == 0 {
        seq![]
    } else if ambient_platform_key(keys.last()) {
        without_ambient(keys.drop_last())
    } else {
        without_ambient(keys.drop_last()).push(keys.last())
    }
}

/// The keys the env files declare, first-seen order, without the platform's own keys.
pub fn collect_sync_target_keys(records: &Vec<Vec<String>>) -> (keys: Vec<String>)
    ensures
        string_views(keys@) == without_ambient(contract_keys(record_views(records@))),
{
    let all = collect_contract_keys(records);
    let mut out: Vec<String> = Vec::new();
    let mut i: usize = 0;
    while i < all.len()
        invariant
            i <= all@.len(),
            string_views(out@) == without_ambient(string_views(all@).take(i as int)),
        decreases all@.len() - i,
    {
        proof {
            assert(string_views(all@).take(i + 1).drop_last() =~= string_views(all@).take(
                i as int,
            ));
        }
        let ghost before = string_views(out@);
        if !is_ambient_platform_env_key(all[i].as_str()) {
            out.push(all[i].clone());
            assert(string_views(out@) =~= before.push(all@[i as int]@));
        }
        i += 1;
    }
    assert(string_views(all@).take(all@.len() as int) =~= string_views(all@));
    out
}

// ---------------------------------------------------------------------
// The contract's laws
// ---------------------------------------------------------------------

/// No key occurs twice.
pub open spec fn distinct(keys: Seq<Seq<char>>) -> bool {
    forall|a: int, b: int| 0 <= a < b < keys.len() ==> keys[a] != keys[b]
}

/// Some record declares the key.
pub open spec fn declared(records: Seq<Seq<Seq<char>>>, key: Seq<char>) -> bool {
    exists|r: int| 0 <= r < records.len() && #[trigger] records[r].contains(key)
}

proof fn lemma_append_new(acc: Seq<Seq<char>>, keys: Seq<Seq<char>>)
    requires
        distinct(acc),
    ensures
        distinct(append_new(acc, keys)),
        forall|k: Seq<char>|
            append_new(acc, keys).contains(k) <==> (acc.contains(k) || keys.contains(k)),
        append_new(acc, keys).take(acc.len() as int) == acc,
        acc.len() <= append_new(acc, keys).len(),
    decreases keys.len(),
{
    if keys.len() > 0 {
        lemma_append_new(acc, keys.drop_last());
        let before = append_new(acc, keys.drop_last());
        assert forall|k: Seq<char>| keys.contains(k) <==> (keys.drop_last().contains(k) || k
            == keys.last()) by {
            if keys.contains(k) {
                let j = choose|j: int| 0 <= j < keys.len() && keys[j] == k;
                if j < keys.len() - 1 {
                    assert(keys.drop_last()[j] == k);
                }
            }
            if keys.drop_last().contains(k) {
                let j = choose|j: int| 0 <= j < keys.drop_last().len() && keys.drop_last()[j] == k;
                assert(keys[j] == k);
            }
            if k == keys.last() {
                assert(keys[keys.len() - 1] == k);
            }
        }
        if !before.contains(keys.last()) {
            let after = before.push(keys.last());
            assert forall|a: int, b: int| 0 <= a < b < after.len() implies after[a] != after[b] by {
                if b == after.len() - 1 {
                    assert(before[a] == after[a]);
                }
            }
            assert forall|k: Seq<char>| after.contains(k) <==> (before.contains(k) || k
                == keys.last()) by {
                if after.contains(k) {
                    let j = choose|j: int| 0 <= j < after.len() && after[j] == k;
                    if j < before.len() {
                        assert(before[j] == k);
                    }
                }
                if before.contains(k) {
                    let j = choose|j: int| 0 <= j < before.len() && before[j] == k;
                    assert(after[j] == k);
                }
                if k == keys.last() {
                    assert(after[after.len() - 1] == k);
                }
            }
            assert(after.take(acc.len() as int) =~= before.take(acc.len() as int));
        }
    } else {
        assert(acc.take(acc.len() as int) =~= acc);
    }
}

/// The contract keys hold each key that some record declares, exactly
/// once, and nothing else; the keys of earlier records come first.
pub proof fn lemma_contract_keys(records: Seq<Seq<Seq<char>>>)
    ensures
        distinct(contract_keys(records)),
        forall|k: Seq<char>| contract_keys(records).contains(k) <==> declared(records, k),
        records.len() > 0 ==> contract_keys(records).take(
            contract_keys(records.drop_last()).len() as int,
        ) == contract_keys(records.drop_last()),
    decreases records.len(),
{
    if records.len() > 0 {
        lemma_contract_keys(records.drop_last());
        lemma_append_new(contract_keys(records.drop_last()), records.last());
        assert forall|k: Seq<char>| contract_keys(records).contains(k) <==> declared(records, k) by {
            if declared(records, k) {
                let r = choose|r: int| 0 <= r < records.len() && #[trigger] records[r].contains(k);
                if r < records.len() - 1 {
                    assert(records.drop_last()[r] == records[r]);
                    assert(declared(records.drop_last(), k));
                }
            }
            if declared(records.drop_last(), k) {
                let r = choose|r: int|
                    0 <= r < records.drop_last().len() && #[trigger] records.drop_last()[r].contains(
                        k,
                    );
                assert(records[r] == records.drop_last()[r]);
            }
            if records.last().contains(k) {
                assert(records[records.len() - 1].contains(k));
            }
        }
    } else {
        assert forall|k: Seq<char>| !declared(records, k) by {}
    }
}

/// The keys worth syncing are the contract keys that are not ambient
/// platform keys.
pub proof fn lemma_sync_target_keys(records: Seq<Seq<Seq<char>>>)
    ensures
        forall|k: Seq<char>|
            #[trigger] without_ambient(contract_keys(records)).contains(k) <==> (declared(records, k)
                && !ambient_platform_key(k)),
{
    lemma_contract_keys(records);
    lemma_without_ambient(contract_keys(records));
}

proof fn lemma_without_ambient(keys: Seq<Seq<char>>)
    ensures
        forall|k: Seq<char>| #[trigger] without_ambient(keys).contains(k) <==> (keys.contains(k) && !ambient_platform_key(k)),
    decreases keys.len(),
{
    if keys.len() > 0 {
        lemma_without_ambient(keys.drop_last());
        let prev = without_ambient(keys.drop_last());
        let last = keys.last();
        assert(keys[keys.len() - 1] == last);
        assert forall|k: Seq<char>| #[trigger] without_ambient(keys).contains(k) <==> (keys.contains(k) && !ambient_platform_key(k)) by {
            if keys.contains(k) && !ambient_platform_key(k) {
                let j = choose|j: int| 0 <= j < keys.len() && keys[j] == k;
                if j < keys.len() - 1 {
                    assert(keys.drop_last()[j] == k);
                    assert(prev.contains(k));
                    if !ambient_platform_key(last) {
                        let i = choose|i: int| 0 <= i < prev.len() && prev[i] == k;
                        assert(prev.push(last)[i] == k);
                    }
                } else {
                    assert(k == last);
                    assert(prev.push(last)[prev.len() as int] == k);
                }
            }
            if without_ambient(keys).contains(k) {
                let in_prev = if ambient_platform_key(last) {
                    true
                } else {
                    let after = prev.push(last);
                    let j = choose|j: int| 0 <= j < after.len() && after[j] == k;
                    if j < prev.len() {
                        assert(prev[j] == k);
                        true
                    } else {
                        false
                    }
                };
                if in_prev {
                    assert(prev.contains(k));
                    assert(keys.drop_last().contains(k) && !ambient_platform_key(k));
                    let j = choose|j: int| 0 <= j < keys.drop_last().len() && keys.drop_last()[j] == k;
                    assert(keys[j] == k);
                } else {
                    assert(k == last);
                    assert(!ambient_platform_key(last));
                }
                assert(keys.contains(k) && !ambient_platform_key(k));
            }
        }
    } else {
        assert forall|k: Seq<char>| #[trigger] without_ambient(keys).contains(k) <==> (keys.contains(k) && !ambient_platform_key(k)) by {
            assert(without_ambient(keys) =~= Seq::<Seq<char>>::empty());
        }
    }
}

// ---------------------------------------------------------------------
// Source groups and appended examples
// ---------------------------------------------------------------------

/// For each record in order, its selected keys not already taken by an
/// earlier record (each once), as produced by `collect_contract_groups`;
/// records left with no key give no group.
pub open spec fn group_keys(
    records: Seq<Seq<Seq<char>>>,
    selected: Seq<Seq<char>>,
) -> Seq<(int, Seq<Seq<char>>)>
    decreases records.len(),
{
    if records.len() == 0 {
        seq![]
    } else {
        let prev = group_keys(records.drop_last(), selected);
        let taken = contract_keys(records.drop_last());
        let fresh = selected_fresh(records.last(), selected, taken);
        if fresh.len() == 0 {
            prev
        } else {
            prev.push((records.len() - 1, fresh))
        }
    }
}

/// The keys of one record that are selected and not taken, each once, in
/// order.
pub open spec fn selected_fresh(
    keys: Seq<Seq<char>>,
    selected: Seq<Seq<char>>,
    taken: Seq<Seq<char>>,
) -> Seq<Seq<char>>
    decreases keys.len(),
{
    if keys.len() == 0 {
        seq![]
    } else {
        let prev = selected_fresh(keys.drop_last(), selected, taken);
        let k = keys.last();
        if selected.contains(k) && !taken.contains(k) && !prev.contains(k) {
            prev.push(k)
        } else {
            prev
        }
    }
}

/// The records that contribute keys to the contract, without the display
/// of each record's path: the index of each record that contributes, with its keys.
pub fn collect_contract_groups(records: &Vec<Vec<String>>, selected_keys: &Vec<String>) -> (groups:
    Vec<(usize, Vec<String>)>)
    ensures
        groups@.len() == group_keys(record_views(records@), string_views(selected_keys@)).len(),
        forall|g: int|
            0 <= g < groups@.len() ==> {
                let (i, ks) = #[trigger] groups@[g];
                let (si, sks) = group_keys(record_views(records@), string_views(selected_keys@))[g];
                i as int == si && string_views(ks@) == sks
            },
{
    let ghost sel = string_views(selected_keys@);
    let mut groups: Vec<(usize, Vec<String>)> = Vec::new();
    let mut taken: Vec<String> = Vec::new();
    let mut i: usize = 0;
    while i < records.len()
        invariant
            i <= records@.len(),
            sel == string_views(selected_keys@),
            string_views(taken@) == contract_keys(record_views(records@).take(i as int)),
            groups@.len() == group_keys(record_views(records@).take(i as int), sel).len(),
            forall|g: int|
                0 <= g < groups@.len() ==> {
                    let (gi, ks) = #[trigger] groups@[g];
                    let (si, sks) = group_keys(record_views(records@).take(i as int), sel)[g];
                    gi as int == si && string_views(ks@) == sks
                },
        decreases records@.len() - i,
    {
        let ghost rv = record_views(records@).take(i + 1);
        proof {
            assert(rv.drop_last() =~= record_views(records@).take(i as int));
            assert(rv.last() == string_views(records@[i as int]@));
        }
        let rec = &records[i];
        let mut fresh: Vec<String> = Vec::new();
        let mut j: usize = 0;
        while j < rec.len()
            invariant
                j <= rec@.len(),
                sel == string_views(selected_keys@),
                string_views(fresh@) == selected_fresh(
                    string_views(rec@).take(j as int),
                    sel,
                    string_views(taken@),
                ),
            decreases rec@.len() - j,
        {
            proof {
                assert(string_views(rec@).take(j + 1).drop_last() =~= string_views(rec@).take(
                    j as int,
                ));
            }
            let ghost before = string_views(fresh@);
            let key = &rec[j];
            if contains_string(selected_keys, key) && !contains_string(&taken, key)
                && !contains_string(&fresh, key) {
                fresh.push(key.clone());
                assert(string_views(fresh@) =~= before.push(key@));
            }
            j += 1;
        }
        assert(string_views(rec@).take(rec@.len() as int) =~= string_views(rec@));
        let ghost gprev = group_keys(record_views(records@).take(i as int), sel);
        if fresh.len() > 0 {
            let ghost fv = string_views(fresh@);
            let ghost gold = groups@;
            groups.push((i, fresh));
            proof {
                assert(group_keys(rv, sel) == gprev.push((i as int, fv)));
                assert forall|g: int| 0 <= g < groups@.len() implies {
                    let (gi, ks) = #[trigger] groups@[g];
                    let (si, sks) = group_keys(rv, sel)[g];
                    gi as int == si && string_views(ks@) == sks
                } by {
                    if g < groups@.len() - 1 {
                        assert(groups@[g] == gold[g]);
                    }
                }
            }
        }
        append_new_exec(&mut taken, rec);
        i += 1;
    }
    assert(record_views(records@).take(records@.len() as int) =~= record_views(records@));
    groups
}

/// The separator put between an existing example file and an addition:
/// a newline unless the file is empty or already ends with one.
pub open spec fn synced_separator(existing: Seq<char>) -> Seq<char> {
    if existing.len() == 0 || existing.last() == '\n' {
        seq![]
    } else {
        seq!['\n']
    }
}

/// The synced contract text: the existing text, a line break when it does
/// not end with one, then the rendered addition.
pub fn append_env_addition(existing_text: &str, addition: &str) -> (out: String)
    ensures
        out@ == existing_text@ + synced_separator(existing_text@) + addition@,
{
    let mut text = chars_of(existing_text);
    let n = text.len();
    if n > 0 && text[n - 1] != '\n' {
        text.push('\n');
    }
    crate::text::append_str(&mut text, addition);
    string_from(text.as_slice())
}


// ---------------------------------------------------------------------
// Ordering the example files
// ---------------------------------------------------------------------

/// The order of example files: by preference, then by name.
pub open spec fn record_le(names: Seq<Seq<char>>, i: int, j: int) -> bool {
    let si = contract_record_score(names[i]);
    let sj = contract_record_score(names[j]);
    si < sj || (si == sj && text_le(names[i], names[j]))
}

/// A listing of the indices `0..n`, each once.
pub open spec fn is_index_permutation(order: Seq<usize>, n: int) -> bool {
    &&& order.len() == n
    &&& forall|k: int| 0 <= k < order.len() ==> #[trigger] order[k] < n
    &&& forall|a: int, b: int| 0 <= a < b < order.len() ==> order[a] != order[b]
}

/// The order in which the example files of a directory are consulted:
/// `.env.example`, `.env.sample`, `.env.template`, `.env.dist`, then the
/// others, each group by name. The first is the directory's contract.
pub fn sort_contract_records(names: &Vec<String>) -> (order: Vec<usize>)
    ensures
        is_index_permutation(order@, names@.len() as int),
        forall|a: int, b: int|
            0 <= a < b < order@.len() ==> record_le(
                string_views(names@),
                #[trigger] order@[a] as int,
                #[trigger] order@[b] as int,
            ),
{
    let ghost nv = string_views(names@);
    let mut chars: Vec<Vec<char>> = Vec::new();
    let mut scores: Vec<usize> = Vec::new();
    let mut i: usize = 0;
    while i < names.len()
        invariant
            i <= names@.len(),
            nv == string_views(names@),
            chars@.len() == i,
            scores@.len() == i,
            forall|k: int| 0 <= k < i ==> #[trigger] chars@[k]@ == nv[k],
            forall|k: int| 0 <= k < i ==> #[trigger] scores@[k] == contract_record_score(nv[k]),
        decreases names@.len() - i,
    {
        chars.push(chars_of(names[i].as_str()));
        scores.push(score_contract_record(names[i].as_str()));
        i += 1;
    }
    let mut order: Vec<usize> = Vec::new();
    let mut i: usize = 0;
    while i < names.len()
        invariant
            i <= names@.len(),
            nv == string_views(names@),
            chars@.len() == names@.len(),
            scores@.len() == names@.len(),
            forall|k: int| 0 <= k < names@.len() ==> #[trigger] chars@[k]@ == nv[k],
            forall|k: int| 0 <= k < names@.len() ==> #[trigger] scores@[k] == contract_record_score(nv[k]),
            is_index_permutation(order@, i as int),
            forall|a: int, b: int|
                0 <= a < b < order@.len() ==> record_le(nv, #[trigger] order@[a] as int, #[trigger] order@[b] as int),
        decreases names@.len() - i,
    {
        // the first position whose record sorts after record i
        let mut p: usize = 0;
        while p < order.len() && (scores[order[p]] < scores[i] || (scores[order[p]] == scores[i]
            && text_le_exec(chars[order[p]].as_slice(), chars[i].as_slice())))
            invariant
                p <= order@.len(),
                i < names@.len(),
                is_index_permutation(order@, i as int),
                chars@.len() == names@.len(),
                scores@.len() == names@.len(),
                forall|k: int| 0 <= k < names@.len() ==> #[trigger] chars@[k]@ == nv[k],
                forall|k: int| 0 <= k < names@.len() ==> #[trigger] scores@[k] == contract_record_score(nv[k]),
                forall|k: int| 0 <= k < p ==> record_le(nv, #[trigger] order@[k] as int, i as int),
            decreases order@.len() - p,
        {
            p += 1;
        }
        proof {
            if p < order@.len() {
                let q = order@[p as int] as int;
                assert(!record_le(nv, q, i as int));
                lemma_text_le_total(nv[q], nv[i as int]);
                assert(record_le(nv, i as int, q));
            }
        }
        let ghost old_order = order@;
        order.insert(p, i);
        proof {
            assert(order@ == old_order.insert(p as int, i));
            assert forall|a: int, b: int| 0 <= a < b < order@.len() implies record_le(
                nv,
                #[trigger] order@[a] as int,
                #[trigger] order@[b] as int,
            ) by {
                let oa = order@[a] as int;
                let ob = order@[b] as int;
                if b < p {
                    assert(order@[a] == old_order[a] && order@[b] == old_order[b]);
                } else if b == p {
                    assert(order@[a] == old_order[a]);
                } else if a == p {
                    assert(order@[b] == old_order[b - 1]);
                    let q = old_order[p as int] as int;
                    assert(record_le(nv, i as int, q));
                    if b - 1 > p {
                        assert(record_le(nv, q, ob));
                        let sq = contract_record_score(nv[q]);
                        let si = contract_record_score(nv[i as int]);
                        let sb = contract_record_score(nv[ob]);
                        if si == sq && sq == sb {
                            lemma_text_le_trans(nv[i as int], nv[q], nv[ob]);
                        }
                    } else {
                        assert(ob == q);
                    }
                } else if a < p {
                    assert(order@[a] == old_order[a]);
                    assert(order@[b] == old_order[b - 1]);
                } else {
                    assert(order@[a] == old_order[a - 1]);
                    assert(order@[b] == old_order[b - 1]);
                }
            }
            assert forall|a: int, b: int| 0 <= a < b < order@.len() implies order@[a] != order@[b] by {
                if a < p && b < p {
                    assert(order@[a] == old_order[a] && order@[b] == old_order[b]);
                } else if a < p && b == p {
                    assert(order@[a] == old_order[a]);
                } else if a < p && b > p {
                    assert(order@[a] == old_order[a] && order@[b] == old_order[b - 1]);
                } else if a == p {
                    assert(order@[b] == old_order[b - 1]);
                } else {
                    assert(order@[a] == old_order[a - 1] && order@[b] == old_order[b - 1]);
                }
            }
            assert forall|k: int| 0 <= k < order@.len() implies #[trigger] order@[k] < i + 1 by {
                if k < p {
                    assert(order@[k] == old_order[k]);
                } else if k > p {
                    assert(order@[k] == old_order[k - 1]);
                }
            }
        }
        i += 1;
    }
    order
}

// ---------------------------------------------------------------------
// Keys missing on either side
// ---------------------------------------------------------------------

/// The keys of `keys` that `other` does not hold, in order.
pub open spec fn keys_not_in(keys: Seq<Seq<char>>, other: Seq<Seq<char>>) -> Seq<Seq<char>>
    decreases keys.len(),
{
    if keys.len() == 0 {
        seq![]
    } else if other.contains(keys.last()) {
        keys_not_in(keys.drop_last(), other)
    } else {
        keys_not_in(keys.drop_last(), other).push(keys.last())
    }
}

/// The missing keys are exactly the keys absent from the other list: after
/// they are appended, every key is present.
pub proof fn lemma_keys_not_in(keys: Seq<Seq<char>>, other: Seq<Seq<char>>)
    ensures
        forall|k: Seq<char>| keys_not_in(keys, other).contains(k) <==> (keys.contains(k) && !other.contains(k)),
        forall|k: Seq<char>| keys.contains(k) ==> (other + keys_not_in(keys, other)).contains(k),
    decreases keys.len(),
{
    if keys.len() > 0 {
        lemma_keys_not_in(keys.drop_last(), other);
        let prev = keys_not_in(keys.drop_last(), other);
        assert forall|k: Seq<char>| keys_not_in(keys, other).contains(k) <==> (keys.contains(k) && !other.contains(k)) by {
            if keys.contains(k) {
                let j = choose|j: int| 0 <= j < keys.len() && keys[j] == k;
                if j < keys.len() - 1 {
                    assert(keys.drop_last()[j] == k);
                }
            }
            if keys.drop_last().contains(k) {
                let j = choose|j: int| 0 <= j < keys.drop_last().len() && keys.drop_last()[j] == k;
                assert(keys[j] == k);
            }
            assert(keys[keys.len() - 1] == keys.last());
            if !other.contains(keys.last()) {
                let after = prev.push(keys.last());
                if after.contains(k) {
                    let j = choose|j: int| 0 <= j < after.len() && after[j] == k;
                    if j < prev.len() {
                        assert(prev[j] == k);
                    }
                }
                if prev.contains(k) {
                    let j = choose|j: int| 0 <= j < prev.len() && prev[j] == k;
                    assert(after[j] == k);
                }
                assert(after[after.len() - 1] == keys.last());
            }
        }
    }
    assert forall|k: Seq<char>| keys.contains(k) implies (other + keys_not_in(keys, other)).contains(k) by {
        let all = other + keys_not_in(keys, other);
        if other.contains(k) {
            let j = choose|j: int| 0 <= j < other.len() && other[j] == k;
            assert(all[j] == k);
        } else {
            assert(keys_not_in(keys, other).contains(k));
            let j = choose|j: int| 0 <= j < keys_not_in(keys, other).len() && keys_not_in(keys, other)[j] == k;
            assert(all[other.len() + j] == k);
        }
    }
}

/// Syncing twice adds nothing the second time: once the missing keys are
/// appended, none is missing.
pub proof fn lemma_sync_idempotent(keys: Seq<Seq<char>>, other: Seq<Seq<char>>)
    ensures
        keys_not_in(keys, other + keys_not_in(keys, other)) == Seq::<Seq<char>>::empty(),
{
    let synced = other + keys_not_in(keys, other);
    lemma_keys_not_in(keys, other);
    lemma_keys_not_in(keys, synced);
    let again = keys_not_in(keys, synced);
    if again.len() > 0 {
        assert(again.contains(again[0]));
        assert(keys.contains(again[0]) && !synced.contains(again[0]));
    }
    assert(again =~= Seq::<Seq<char>>::empty());
}

/// The keys that the example file lacks (the `env-example-sync` finding),
/// or the contract keys that no concrete file provides.
pub fn keys_missing_from(keys: &Vec<String>, present: &Vec<String>) -> (out: Vec<String>)
    ensures
        string_views(out@) == keys_not_in(string_views(keys@), string_views(present@)),
{
    let mut out: Vec<String> = Vec::new();
    let mut i: usize = 0;
    while i < keys.len()
        invariant
            i <= keys@.len(),
            string_views(out@) == keys_not_in(string_views(keys@).take(i as int), string_views(present@)),
        decreases keys@.len() - i,
    {
        proof {
            assert(string_views(keys@).take(i + 1).drop_last() =~= string_views(keys@).take(i as int));
        }
        let ghost before = string_views(out@);
        if !contains_string(present, &keys[i]) {
            out.push(keys[i].clone());
            assert(string_views(out@) =~= before.push(keys@[i as int]@));
        }
        i += 1;
    }
    assert(string_views(keys@).take(keys@.len() as int) =~= string_views(keys@));
    out
}

/// The keys of the contract that no concrete file provides and that are
/// not excluded (the `env-missing-concrete` finding).
pub fn missing_concrete_keys(contract: &Vec<String>, provided: &Vec<String>, excluded: &Vec<String>) -> (out: Vec<String>)
    ensures
        string_views(out@) == keys_not_in(
            keys_not_in(string_views(contract@), string_views(provided@)),
            string_views(excluded@),
        ),
{
    let first = keys_missing_from(contract, provided);
    keys_missing_from(&first, excluded)
}

/// The value that a list of entries gives a key: the first entry's.
pub open spec fn value_of(entries: Seq<(Seq<char>, Seq<char>)>, key: Seq<char>) -> Option<Seq<char>>
    decreases entries.len(),
{
    if entries.len() == 0 {
        None
    } else if entries[0].0 == key {
        Some(entries[0].1)
    } else {
        value_of(entries.drop_first(), key)
    }
}

/// The keys of `.env` whose value `.env.local` sets differently, in the
/// order of `.env`'s entries.
pub open spec fn overridden_keys(base: Seq<(Seq<char>, Seq<char>)>, local: Seq<(Seq<char>, Seq<char>)>) -> Seq<Seq<char>>
    decreases base.len(),
{
    if base.len() == 0 {
        seq![]
    } else {
        let prev = overridden_keys(base.drop_last(), local);
        match value_of(local, base.last().0) {
            Some(v) => if v != base.last().1 {
                prev.push(base.last().0)
            } else {
                prev
            },
            None => prev,
        }
    }
}

pub open spec fn entry_views(v: Seq<(String, String)>) -> Seq<(Seq<char>, Seq<char>)> {
    v.map_values(|e: (String, String)| (e.0@, e.1@))
}

fn lookup_value(entries: &Vec<(String, String)>, key: &String) -> (r: Option<Vec<char>>)
    ensures
        match r {
            Some(v) => value_of(entry_views(entries@), key@) == Some(v@),
            None => value_of(entry_views(entries@), key@) is None,
        },
{
    let k = chars_of(key.as_str());
    let ghost ev = entry_views(entries@);
    let mut i: usize = 0;
    assert(ev.skip(0) =~= ev);
    while i < entries.len()
        invariant
            i <= entries@.len(),
            k@ == key@,
            ev == entry_views(entries@),
            value_of(ev, key@) == value_of(ev.skip(i as int), key@),
        decreases entries@.len() - i,
    {
        proof {
            assert(ev.skip(i as int).drop_first() =~= ev.skip(i + 1));
            assert(ev.skip(i as int)[0] == ev[i as int]);
        }
        let c = chars_of(entries[i].0.as_str());
        if chars_eq(c.as_slice(), k.as_slice()) {
            return Some(chars_of(entries[i].1.as_str()));
        }
        i += 1;
    }
    None
}

/// `.env.local` overrides: the keys the finding lists.
pub fn local_override_keys(base: &Vec<(String, String)>, local: &Vec<(String, String)>) -> (out: Vec<String>)
    ensures
        string_views(out@) == overridden_keys(entry_views(base@), entry_views(local@)),
{
    let mut out: Vec<String> = Vec::new();
    let mut i: usize = 0;
    while i < base.len()
        invariant
            i <= base@.len(),
            string_views(out@) == overridden_keys(entry_views(base@).take(i as int), entry_views(local@)),
        decreases base@.len() - i,
    {
        proof {
            assert(entry_views(base@).take(i + 1).drop_last() =~= entry_views(base@).take(i as int));
        }
        let ghost before = string_views(out@);
        match lookup_value(local, &base[i].0) {
            Some(v) => {
                let bv = chars_of(base[i].1.as_str());
                if !chars_eq(v.as_slice(), bv.as_slice()) {
                    out.push(base[i].0.clone());
                    assert(string_views(out@) =~= before.push(base@[i as int].0@));
                }
            },
            None => {},
        }
        i += 1;
    }
    assert(entry_views(base@).take(base@.len() as int) =~= entry_views(base@));
    out
}

} // verus!
