//! The structure summary of a project: whether it is a monorepo, a few
//! counts, and the recommendations that follow from them.
use vstd::prelude::*;
use crate::text::{chars_eq, chars_of, string_views};

verus! {

/// The number of distinct values of a list.
pub open spec fn distinct_count(s: Seq<Seq<char>>) -> nat
    decreases s.len(),
{
    if s.len() == 0 {
        0
    } else {
        distinct_count(s.drop_last()) + if s.drop_last().contains(s.last()) {
            0nat
        } else {
            1nat
        }
    }
}


proof fn lemma_distinct_count_le(s: Seq<Seq<char>>)
    ensures
        distinct_count(s) <= s.len(),
    decreases s.len(),
{
    if s.len() > 0 {
        lemma_distinct_count_le(s.drop_last());
    }
}

/// How many different directories the env files live in.
pub fn count_distinct(items: &[String]) -> (r: usize)
    ensures
        r == distinct_count(string_views(items@)),
{
    let ghost v = string_views(items@);
    let mut n: usize = 0;
    let mut i: usize = 0;
    while i < items.len()
        invariant
            i <= items@.len(),
            v == string_views(items@),
            n == distinct_count(v.take(i as int)),
            n <= i,
        decreases items@.len() - i,
    {
        proof {
            assert(v.take(i + 1).drop_last() =~= v.take(i as int));
            assert(v.take(i + 1).last() == items@[i as int]@);
        }
        let cur = chars_of(items[i].as_str());
        let mut seen = false;
        let mut j: usize = 0;
        while j < i
            invariant
                i < items@.len(),
                j <= i,
                v == string_views(items@),
                cur@ == items@[i as int]@,
                seen == exists|k: int| 0 <= k < j && v[k] == items@[i as int]@,
            decreases i - j,
        {
            let other = chars_of(items[j].as_str());
            if chars_eq(other.as_slice(), cur.as_slice()) {
                assert(v[j as int] == items@[i as int]@);
                seen = true;
            }
            j += 1;
        }
        proof {
            if seen {
                let k = choose|k: int| 0 <= k < i && v[k] == items@[i as int]@;
                assert(v.take(i as int)[k] == v[k]);
            }
            if v.take(i as int).contains(items@[i as int]@) {
                let k = choose|k: int| 0 <= k < i && v.take(i as int)[k] == items@[i as int]@;
                assert(v[k] == items@[i as int]@);
            }
        }
        if !seen {
            n += 1;
        }
        i += 1;
    }
    assert(v.take(items@.len() as int) =~= v);
    n
}

/// What the summary is computed from.
pub struct StructureInputs {
    /// The number of `package.json` files.
    pub package_count: usize,
    /// The number of directories holding env files.
    pub env_directories: usize,
    /// The number of configuration files found.
    pub config_files: usize,
    /// Some tsconfig file is named `tsconfig.base.json`.
    pub has_shared_tsconfig: bool,
    /// The root holds a `.env.example`.
    pub has_root_env_example: bool,
    /// The number of ESLint config files.
    pub eslint_config_count: usize,
    /// No check reported a finding.
    pub no_findings: bool,
}

/// The summary.
pub struct StructureSummary {
    pub is_monorepo: bool,
    pub package_count: usize,
    pub env_directories: usize,
    pub config_files: usize,
    pub recommendations: Vec<&'static str>,
}

/// The recommendations, in order.
pub open spec fn recommendations_for(i: StructureInputs) -> Seq<&'static str> {
    let a: Seq<&'static str> = if i.package_count > 1 && !i.has_shared_tsconfig {
        seq!["Introduce a shared tsconfig.base.json so packages inherit one source of truth."]
    } else {
        seq![]
    };
    let b: Seq<&'static str> = if i.eslint_config_count > 1 {
        seq!["Reduce repo-wide ESLint entry points unless packages genuinely need different rule sets."]
    } else {
        seq![]
    };
    let c: Seq<&'static str> = if i.env_directories > 1 && !i.has_root_env_example {
        seq!["Use .env.example files consistently so onboarding does not depend on tribal knowledge."]
    } else {
        seq![]
    };
    let d: Seq<&'static str> = if i.no_findings {
        seq!["Current config surface looks healthy. Keep shared rules centralized as the repo grows."]
    } else {
        seq![]
    };
    a + b + c + d
}

/// The structure report, over the counts read from the project.
pub fn build_structure_report(inputs: &StructureInputs) -> (r: StructureSummary)
    ensures
        r.is_monorepo == (inputs.package_count > 1),
        r.package_count == inputs.package_count,
        r.env_directories == inputs.env_directories,
        r.config_files == inputs.config_files,
        r.recommendations@ == recommendations_for(*inputs),
{
    let is_monorepo = inputs.package_count > 1;
    let mut recommendations: Vec<&'static str> = Vec::new();
    if is_monorepo && !inputs.has_shared_tsconfig {
        recommendations.push(
            "Introduce a shared tsconfig.base.json so packages inherit one source of truth.",
        );
    }
    if inputs.eslint_config_count > 1 {
        recommendations.push(
            "Reduce repo-wide ESLint entry points unless packages genuinely need different rule sets.",
        );
    }
    if inputs.env_directories > 1 && !inputs.has_root_env_example {
        recommendations.push(
            "Use .env.example files consistently so onboarding does not depend on tribal knowledge.",
        );
    }
    if inputs.no_findings {
        recommendations.push(
            "Current config surface looks healthy. Keep shared rules centralized as the repo grows.",
        );
    }
    assert(recommendations@ =~= recommendations_for(*inputs));
    StructureSummary {
        is_monorepo,
        package_count: inputs.package_count,
        env_directories: inputs.env_directories,
        config_files: inputs.config_files,
        recommendations,
    }
}

} // verus!
