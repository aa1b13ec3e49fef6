//! GitHub Copilot: workspaces of VS Code that know of it.

use crate::collections::StrMap;
use crate::types::{MetaTree, MetaValue, ProviderReport, ProviderResult};
use vstd::prelude::*;

verus! {

pub struct CopilotProvider;

/// How many of some answers are yes.
pub open spec fn yes_count(answers: Seq<bool>) -> nat
    decreases answers.len(),
{
    if answers.len() == 0 {
        0
    } else {
        yes_count(answers.drop_last()) + if answers.last() {
            1nat
        } else {
            0
        }
    }
}

/// What Copilot reports of workspaces of which is known whether they have keys of it.
pub open spec fn copilot_report(workspaces: Seq<bool>) -> ProviderReport {
    let blank = ProviderReport::blank("GitHub Copilot"@);
    let with_copilot = yes_count(workspaces) as u64;
    if workspaces.len() == 0 {
        ProviderReport { invocations: Some(0), ..blank }
    } else {
        ProviderReport {
            invocations: Some(with_copilot),
            metadata: Some(
                Map::empty().insert(
                    "workspaces_scanned"@,
                    MetaTree::Count(workspaces.len() as u64),
                ).insert("workspaces_with_copilot"@, MetaTree::Count(with_copilot)),
            ),
            ..blank
        }
    }
}

proof fn lemma_yes_count(answers: Seq<bool>)
    ensures
        yes_count(answers) == answers.filter(|yes: bool| yes).len(),
    decreases answers.len(),
{
    reveal(Seq::filter);
    let keep = |yes: bool| yes;
    if answers.len() > 0 {
        let before = answers.drop_last();
        lemma_yes_count(before);
        assert(answers =~= before.push(answers.last()));
        before.lemma_filter_push(answers.last(), keep);
    }
}

/// Copilot reports as many calls as there are workspaces that know of it, and how many workspaces were
/// looked at.
pub proof fn law_workspaces_are_counted(workspaces: Seq<bool>)
    requires
        workspaces.len() <= u64::MAX,
    ensures
        ({
            let report = copilot_report(workspaces);
            let knowing = workspaces.filter(|yes: bool| yes).len();
            &&& report.provider == "GitHub Copilot"@
            &&& report.invocations == Some(knowing as u64)
            &&& workspaces.len() > 0 ==> report.metadata is Some
                && report.metadata->0.contains_key("workspaces_scanned"@)
                && report.metadata->0.contains_key("workspaces_with_copilot"@)
                && report.metadata->0["workspaces_with_copilot"@] == MetaTree::Count(
                knowing as u64,
            ) && report.metadata->0["workspaces_scanned"@] == MetaTree::Count(
                workspaces.len() as u64,
            )
            &&& workspaces.len() == 0 ==> report.metadata is None
            &&& report.tokens is None && report.hours is None && report.sessions is None
        }),
{
    lemma_yes_count(workspaces);
    reveal_strlit("workspaces_scanned");
    reveal_strlit("workspaces_with_copilot");
    assert("workspaces_scanned"@.len() != "workspaces_with_copilot"@.len());
}

impl CopilotProvider {
    /// Usage from the databases of the workspaces: of each, whether it has keys of Copilot. One
    /// that cannot be read has none.
    pub fn scan(&self, workspaces: &Vec<bool>) -> (r: ProviderResult)
        ensures
            r.wf(),
            r@ == copilot_report(workspaces@),
    {
        let mut result = ProviderResult::new("GitHub Copilot");
        if workspaces.len() == 0 {
            result.invocations = Some(0);
            return result;
        }
        let mut with_copilot: u64 = 0;
        let mut i: usize = 0;
        while i < workspaces.len()
            invariant
                i <= workspaces@.len(),
                with_copilot == yes_count(workspaces@.take(i as int)),
                with_copilot <= i,
            decreases workspaces@.len() - i,
        {
            assert(workspaces@.take(i + 1).drop_last() =~= workspaces@.take(i as int));
            if workspaces[i] {
                with_copilot += 1;
            }
            i += 1;
        }
        assert(workspaces@.take(i as int) =~= workspaces@);
        let mut metadata: StrMap<MetaValue> = StrMap::new();
        metadata.insert(
            "workspaces_scanned".to_string(),
            MetaValue::Count(workspaces.len() as u64),
        );
        metadata.insert("workspaces_with_copilot".to_string(), MetaValue::Count(with_copilot));
        result.invocations = Some(with_copilot);
        result.metadata = Some(metadata);
        assert(result@.metadata->0 =~= copilot_report(workspaces@).metadata->0);
        result
    }
}

} // verus!
