//! Aider: a file of what was asked.

use crate::text::{blank, is_blank, lines, lines_of, texts};
use crate::types::{ProviderReport, ProviderResult};
use vstd::prelude::*;

verus! {

pub struct AiderProvider;

/// How many of some lines are not blank.
pub open spec fn written_lines(all: Seq<Seq<char>>) -> nat
    decreases all.len(),
{
    if all.len() == 0 {
        0
    } else {
        written_lines(all.drop_last()) + if is_blank(all.last()) {
            0nat
        } else {
            1
        }
    }
}

/// What Aider reports of its history: a call for every line that is not blank.
pub open spec fn aider_report(content: Seq<char>) -> ProviderReport {
    ProviderReport {
        invocations: Some(written_lines(lines(content)) as u64),
        ..ProviderReport::blank("Aider"@)
    }
}

proof fn lemma_written_lines(all: Seq<Seq<char>>)
    ensures
        written_lines(all) == all.filter(|line: Seq<char>| !is_blank(line)).len(),
    decreases all.len(),
{
    reveal(Seq::filter);
    let written = |line: Seq<char>| !is_blank(line);
    if all.len() > 0 {
        let before = all.drop_last();
        lemma_written_lines(before);
        assert(all =~= before.push(all.last()));
        before.lemma_filter_push(all.last(), written);
    }
}

/// Every line of the history that is not blank is a call, and no other is.
pub proof fn law_every_written_line_is_a_call(content: Seq<char>)
    ensures
        ({
            let calls = lines(content).filter(|line: Seq<char>| !is_blank(line)).len();
            let report = aider_report(content);
            &&& report.provider == "Aider"@
            &&& calls <= u64::MAX ==> report.invocations == Some(calls as u64)
            &&& report.tokens is None && report.hours is None && report.sessions is None
        }),
{
    lemma_written_lines(lines(content));
}

impl AiderProvider {
    /// Usage from what the history file holds.
    pub fn scan(&self, content: &str) -> (r: ProviderResult)
        ensures
            r.wf(),
            r@ == aider_report(content@),
    {
        let list = lines_of(content);
        let ghost all = texts(list@);
        let mut count: u64 = 0;
        let mut i: usize = 0;
        while i < list.len()
            invariant
                i <= list@.len(),
                all == texts(list@),
                count == written_lines(all.take(i as int)),
                count <= i,
            decreases list@.len() - i,
        {
            proof {
                assert(all.take(i + 1).drop_last() =~= all.take(i as int));
                assert(all.take(i + 1).last() == list@[i as int]@);
            }
            if !blank(list[i].as_str()) {
                count += 1;
            }
            i += 1;
        }
        assert(all.take(i as int) =~= all);
        let mut result = ProviderResult::new("Aider");
        result.invocations = Some(count);
        result
    }
}

} // verus!
