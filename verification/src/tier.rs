//! A title for how much AI was used.

use crate::types::Totals;
use vstd::prelude::*;

verus! {

/// Whether a number of hours was reached.
pub open spec fn reached(totals: Totals, hours: int) -> bool {
    totals.hours.seconds >= hours * 3600
}

/// The title for some totals: by hours, or by tokens for the upper ones.
pub open spec fn title(totals: Totals) -> Seq<char> {
    if reached(totals, 1000) || totals.tokens >= 10_000_000 {
        "The Singularity"@
    } else if reached(totals, 500) || totals.tokens >= 5_000_000 {
        "Neural Link"@
    } else if reached(totals, 200) || totals.tokens >= 2_000_000 {
        "The Architect"@
    } else if reached(totals, 100) || totals.tokens >= 1_000_000 {
        "Prompt Native"@
    } else if reached(totals, 50) {
        "Vibe Coder"@
    } else if reached(totals, 10) {
        "The Explorer"@
    } else {
        "The Purist"@
    }
}

/// The title for some totals. Estimated tokens do not count for it.
pub fn compute_tier(totals: &Totals) -> (r: String)
    ensures
        r@ == title(*totals),
{
    let seconds: u128 = totals.hours.seconds;
    let tokens: u64 = totals.tokens;
    if seconds >= 3_600_000 || tokens >= 10_000_000 {
        "The Singularity".to_string()
    } else if seconds >= 1_800_000 || tokens >= 5_000_000 {
        "Neural Link".to_string()
    } else if seconds >= 720_000 || tokens >= 2_000_000 {
        "The Architect".to_string()
    } else if seconds >= 360_000 || tokens >= 1_000_000 {
        "Prompt Native".to_string()
    } else if seconds >= 180_000 {
        "Vibe Coder".to_string()
    } else if seconds >= 36_000 {
        "The Explorer".to_string()
    } else {
        "The Purist".to_string()
    }
}

/// The rank of the title, from 0 for the least.
pub open spec fn rank(totals: Totals) -> int {
    if reached(totals, 1000) || totals.tokens >= 10_000_000 {
        6
    } else if reached(totals, 500) || totals.tokens >= 5_000_000 {
        5
    } else if reached(totals, 200) || totals.tokens >= 2_000_000 {
        4
    } else if reached(totals, 100) || totals.tokens >= 1_000_000 {
        3
    } else if reached(totals, 50) {
        2
    } else if reached(totals, 10) {
        1
    } else {
        0
    }
}

/// The title goes by hours, of 3600 seconds each, and for the upper four also by logged tokens: the
/// highest that either of them reaches. Nothing else counts.
pub proof fn law_title_is_the_highest_reached(totals: Totals)
    ensures
        ({
            let seconds = totals.hours.seconds;
            let tokens = totals.tokens;
            &&& seconds >= 3_600_000 || tokens >= 10_000_000 ==> title(totals)
                == "The Singularity"@
            &&& seconds < 3_600_000 && tokens < 10_000_000 && (seconds >= 1_800_000 || tokens
                >= 5_000_000) ==> title(totals) == "Neural Link"@
            &&& seconds < 1_800_000 && tokens < 5_000_000 && (seconds >= 720_000 || tokens
                >= 2_000_000) ==> title(totals) == "The Architect"@
            &&& seconds < 720_000 && tokens < 2_000_000 && (seconds >= 360_000 || tokens
                >= 1_000_000) ==> title(totals) == "Prompt Native"@
            &&& 180_000 <= seconds < 360_000 && tokens < 1_000_000 ==> title(totals)
                == "Vibe Coder"@
            &&& 36_000 <= seconds < 180_000 && tokens < 1_000_000 ==> title(totals)
                == "The Explorer"@
            &&& seconds < 36_000 && tokens < 1_000_000 ==> title(totals) == "The Purist"@
        }),
{
}

/// More hours and more tokens never lower the title.
pub proof fn law_more_use_no_lower_title(less: Totals, more: Totals)
    requires
        less.hours.seconds <= more.hours.seconds,
        less.tokens <= more.tokens,
    ensures
        rank(less) <= rank(more),
{
}

} // verus!
