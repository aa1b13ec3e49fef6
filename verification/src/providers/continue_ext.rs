//! Continue: one file a session.

use crate::collections::StrMap;
use crate::types::{MetaTree, MetaValue, ProviderReport, ProviderResult};
use vstd::prelude::*;

verus! {

pub struct ContinueProvider;

/// What Continue reports of the number of its session files, where it has a directory of them.
pub open spec fn continue_report(sessions: Option<u64>) -> ProviderReport {
    let blank = ProviderReport::blank("Continue"@);
    match sessions {
        None => ProviderReport { sessions: Some(0), ..blank },
        Some(n) => ProviderReport {
            sessions: Some(n),
            metadata: Some(Map::empty().insert("session_files"@, MetaTree::Count(n))),
            ..blank
        },
    }
}

/// Every session file is a session; without a directory of them there are none.
pub proof fn law_session_files_are_sessions(n: u64)
    ensures
        continue_report(Some(n)).provider == "Continue"@,
        continue_report(Some(n)).sessions == Some(n),
        continue_report(Some(n)).metadata is Some,
        continue_report(Some(n)).metadata->0.contains_key("session_files"@),
        continue_report(Some(n)).metadata->0["session_files"@] == MetaTree::Count(n),
        continue_report(None).sessions == Some(0u64),
        continue_report(None).metadata is None,
        continue_report(Some(n)).tokens is None && continue_report(Some(n)).hours is None,
{
}

impl ContinueProvider {
    /// Usage from the number of session files, where there is a directory of them.
    pub fn scan(&self, sessions: Option<u64>) -> (r: ProviderResult)
        ensures
            r.wf(),
            r@ == continue_report(sessions),
    {
        let mut result = ProviderResult::new("Continue");
        match sessions {
            None => {
                result.sessions = Some(0);
            },
            Some(n) => {
                let mut metadata: StrMap<MetaValue> = StrMap::new();
                metadata.insert("session_files".to_string(), MetaValue::Count(n));
                result.sessions = Some(n);
                result.metadata = Some(metadata);
                assert(result@.metadata->0 =~= continue_report(sessions).metadata->0);
            },
        }
        result
    }
}

} // verus!
