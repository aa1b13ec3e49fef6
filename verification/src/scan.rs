//! Putting the results of all providers together.

use crate::collections::StrMap;
use crate::platform::{detect_platform, platform_name, Platform};
use crate::text::{decimal, decimal_u64, join, joined, texts};
use crate::types::{
    capped, Hours, ProviderReport, ProviderResult, ScanResult, Totals, SCHEMA_VERSION,
};
use vstd::prelude::*;

verus! {

/// A part of some reports added up.
pub open spec fn summed(reports: Seq<ProviderReport>, part: spec_fn(ProviderReport) -> nat) -> nat
    decreases reports.len(),
{
    if reports.len() == 0 {
        0
    } else {
        summed(reports.drop_last(), part) + part(reports.last())
    }
}

/// A count that may be missing.
pub open spec fn count_or_none(count: Option<u64>) -> nat {
    match count {
        Some(n) => n as nat,
        None => 0,
    }
}

/// The hours of a report, in seconds.
pub open spec fn hours_part(r: ProviderReport) -> nat {
    match r.hours {
        Some(h) => h.seconds as nat,
        None => 0,
    }
}

/// The tokens of a report that a provider has logged.
pub open spec fn logged_part(r: ProviderReport) -> nat {
    match r.tokens {
        Some(t) if !r.tokens_estimated => t.total as nat,
        _ => 0,
    }
}

/// The tokens of a report that were estimated.
pub open spec fn estimated_part(r: ProviderReport) -> nat {
    match r.tokens {
        Some(t) if r.tokens_estimated => t.total as nat,
        _ => 0,
    }
}

/// A number of seconds that stops at `u128::MAX`.
pub open spec fn capped_seconds(n: nat) -> u128 {
    if n > u128::MAX {
        u128::MAX
    } else {
        n as u128
    }
}

/// The sums over some reports. Logged and estimated tokens are never mixed.
pub open spec fn totals_of(reports: Seq<ProviderReport>) -> Totals {
    Totals {
        hours: Hours { seconds: capped_seconds(summed(reports, |r: ProviderReport| hours_part(r))) },
        tokens: capped(summed(reports, |r: ProviderReport| logged_part(r)) as int),
        estimated_tokens: capped(summed(reports, |r: ProviderReport| estimated_part(r)) as int),
        sessions: capped(
            summed(reports, |r: ProviderReport| count_or_none(r.sessions)) as int,
        ),
        visits: capped(summed(reports, |r: ProviderReport| count_or_none(r.visits)) as int),
        invocations: capped(
            summed(reports, |r: ProviderReport| count_or_none(r.invocations)) as int,
        ),
    }
}

/// What some results say.
pub open spec fn reports(results: Seq<ProviderResult>) -> Seq<ProviderReport> {
    results.map_values(|r: ProviderResult| r@)
}

/// Every result is read, in order and as it is.
pub proof fn law_every_result_is_read(results: Seq<ProviderResult>, i: int)
    requires
        0 <= i < results.len(),
    ensures
        reports(results).len() == results.len(),
        reports(results)[i] == results[i]@,
        reports(results)[i].hours == results[i].hours,
        reports(results)[i].tokens == results[i].tokens,
        reports(results)[i].tokens_estimated == results[i].tokens_estimated,
        reports(results)[i].sessions == results[i].sessions,
        reports(results)[i].visits == results[i].visits,
        reports(results)[i].invocations == results[i].invocations,
{
}

proof fn lemma_summed_parts(
    a: Seq<ProviderReport>,
    b: Seq<ProviderReport>,
    part: spec_fn(ProviderReport) -> nat,
)
    ensures
        summed(a + b, part) == summed(a, part) + summed(b, part),
    decreases b.len(),
{
    if b.len() == 0 {
        assert(a + b =~= a);
    } else {
        assert((a + b).drop_last() =~= a + b.drop_last());
        lemma_summed_parts(a, b.drop_last(), part);
    }
}

/// The totals do not depend on which of two groups of providers came first.
pub proof fn law_totals_free_of_order(a: Seq<ProviderReport>, b: Seq<ProviderReport>)
    ensures
        totals_of(a + b) == totals_of(b + a),
{
    let parts = seq![
        |r: ProviderReport| hours_part(r),
        |r: ProviderReport| logged_part(r),
        |r: ProviderReport| estimated_part(r),
        |r: ProviderReport| count_or_none(r.sessions),
        |r: ProviderReport| count_or_none(r.visits),
        |r: ProviderReport| count_or_none(r.invocations),
    ];
    assert forall|i: int| 0 <= i < 6 implies summed(a + b, #[trigger] parts[i]) == summed(
        b + a,
        parts[i],
    ) by {
        lemma_summed_parts(a, b, parts[i]);
        lemma_summed_parts(b, a, parts[i]);
    }
    assert(summed(a + b, parts[0]) == summed(b + a, parts[0]));
    assert(summed(a + b, parts[1]) == summed(b + a, parts[1]));
    assert(summed(a + b, parts[2]) == summed(b + a, parts[2]));
    assert(summed(a + b, parts[3]) == summed(b + a, parts[3]));
    assert(summed(a + b, parts[4]) == summed(b + a, parts[4]));
    assert(summed(a + b, parts[5]) == summed(b + a, parts[5]));
}

/// A provider whose tokens are estimated adds nothing to the logged tokens, and one whose tokens
/// are logged nothing to the estimated ones.
pub proof fn law_estimates_stay_apart(before: Seq<ProviderReport>, report: ProviderReport)
    ensures
        report.tokens_estimated ==> totals_of(before.push(report)).tokens == totals_of(before).tokens,
        !report.tokens_estimated ==> totals_of(before.push(report)).estimated_tokens == totals_of(
            before,
        ).estimated_tokens,
{
    assert(before.push(report).drop_last() =~= before);
}

/// Every provider counts in full: one more adds its hours, its sessions, its visits and its calls, and
/// its tokens to the logged or to the estimated ones, as far as machine words go. Nothing that another
/// provider reports takes away from that.
pub proof fn law_every_provider_counts(before: Seq<ProviderReport>, report: ProviderReport)
    ensures
        ({
            let old_totals = totals_of(before);
            let totals = totals_of(before.push(report));
            let sum = |a: u64, b: Option<u64>|
                match b {
                    Some(n) => if a + n <= u64::MAX {
                        (a + n) as u64
                    } else {
                        u64::MAX
                    },
                    None => a,
                };
            let tokens = match report.tokens {
                Some(t) => Some(t.total),
                None => None,
            };
            let seconds = match report.hours {
                Some(h) => h.seconds,
                None => 0,
            };
            &&& totals.sessions == sum(old_totals.sessions, report.sessions)
            &&& totals.visits == sum(old_totals.visits, report.visits)
            &&& totals.invocations == sum(old_totals.invocations, report.invocations)
            &&& report.tokens_estimated ==> totals.estimated_tokens == sum(
                old_totals.estimated_tokens,
                tokens,
            ) && totals.tokens == old_totals.tokens
            &&& !report.tokens_estimated ==> totals.tokens == sum(old_totals.tokens, tokens)
                && totals.estimated_tokens == old_totals.estimated_tokens
            &&& old_totals.hours.seconds + seconds <= u128::MAX ==> totals.hours.seconds
                == old_totals.hours.seconds + seconds
            &&& old_totals.hours.seconds + seconds > u128::MAX ==> totals.hours.seconds
                == u128::MAX
        }),
        totals_of(Seq::empty()) == (Totals {
            hours: Hours { seconds: 0 },
            tokens: 0,
            estimated_tokens: 0,
            sessions: 0,
            visits: 0,
            invocations: 0,
        }),
{
    assert(before.push(report).drop_last() =~= before);
}

fn add_count(total: u64, count: Option<u64>) -> (r: u64)
    ensures
        r == capped(total + count_or_none(count)),
{
    match count {
        Some(n) => total.saturating_add(n),
        None => total,
    }
}

fn add_result(totals: Totals, result: &ProviderResult, Ghost(before): Ghost<Seq<ProviderReport>>) -> (r:
    Totals)
    requires
        totals == totals_of(before),
    ensures
        r == totals_of(before.push(result@)),
{
    proof {
        assert(before.push(result@).drop_last() =~= before);
    }
    let seconds: u128 = match result.hours {
        Some(h) => totals.hours.seconds.saturating_add(h.seconds),
        None => totals.hours.seconds,
    };
    let mut tokens: u64 = totals.tokens;
    let mut estimated: u64 = totals.estimated_tokens;
    if let Some(t) = result.tokens {
        if result.tokens_estimated {
            estimated = estimated.saturating_add(t.total);
        } else {
            tokens = tokens.saturating_add(t.total);
        }
    }
    Totals {
        hours: Hours { seconds },
        tokens,
        estimated_tokens: estimated,
        sessions: add_count(totals.sessions, result.sessions),
        visits: add_count(totals.visits, result.visits),
        invocations: add_count(totals.invocations, result.invocations),
    }
}

/// Adds up the results of all providers.
pub fn compute_totals(sources: &StrMap<ProviderResult>) -> (r: Totals)
    requires
        sources.wf(),
    ensures
        r == totals_of(reports(sources.items())),
{
    let mut totals = Totals {
        hours: Hours { seconds: 0 },
        tokens: 0,
        estimated_tokens: 0,
        sessions: 0,
        visits: 0,
        invocations: 0,
    };
    proof {
        sources.lemma_shape();
    }
    let n: usize = sources.len();
    let ghost all = reports(sources.items());
    let mut i: usize = 0;
    while i < n
        invariant
            sources.wf(),
            i <= n,
            n == sources.items().len(),
            n == sources.names().len(),
            all == reports(sources.items()),
            totals == totals_of(all.take(i as int)),
        decreases n - i,
    {
        let result = sources.value(i);
        assert(all.take(i + 1) =~= all.take(i as int).push(result@));
        totals = add_result(totals, result, Ghost(all.take(i as int)));
        i += 1;
    }
    assert(all.take(n as int) =~= all);
    totals
}

/// A part of a line, if it is to be there.
pub open spec fn if_shown(shown: bool, part: Seq<char>) -> Seq<Seq<char>> {
    if shown {
        seq![part]
    } else {
        Seq::empty()
    }
}

/// A number with what it counts, if it is there and not 0.
pub open spec fn if_counted(count: Option<u64>, what: Seq<char>) -> Seq<Seq<char>> {
    match count {
        Some(n) => if_shown(n > 0, decimal(n as nat) + what),
        None => Seq::empty(),
    }
}

/// What a result comes to for people to read, part by part. `hours` and `tokens` are those of the
/// result as people read them.
pub open spec fn stats_parts(r: ProviderReport, hours: Seq<char>, tokens: Seq<char>) -> Seq<
    Seq<char>,
> {
    (match r.hours {
        Some(h) => if_shown(h.seconds >= 360, hours + "h"@),
        None => Seq::empty(),
    }) + (match r.tokens {
        Some(t) => if_shown(
            t.total > 0,
            if r.tokens_estimated {
                "~"@ + tokens + " est. tokens"@
            } else {
                tokens + " tokens"@
            },
        ),
        None => Seq::empty(),
    }) + if_counted(r.sessions, " sessions"@) + if_counted(r.visits, " visits"@) + if_counted(
        r.invocations,
        " invocations"@,
    )
}

/// A line on a result shows every number that is not nothing, in order: hours from a tenth of an hour
/// on, tokens, marked where they are estimated, sessions, visits and calls.
pub proof fn law_stats_show_every_number(r: ProviderReport, hours: Seq<char>, tokens: Seq<char>)
    ensures
        ({
            let parts = stats_parts(r, hours, tokens);
            let one = |yes: bool|
                if yes {
                    1int
                } else {
                    0
                };
            let any = |n: Option<u64>| n is Some && n->0 > 0;
            let timed = r.hours is Some && r.hours->0.seconds >= 360;
            let spent = r.tokens is Some && r.tokens->0.total > 0;
            let a = one(timed);
            let b = a + one(spent);
            let c = b + one(any(r.sessions));
            let d = c + one(any(r.visits));
            &&& parts.len() == d + one(any(r.invocations))
            &&& timed ==> parts[0] == hours + "h"@
            &&& spent && r.tokens_estimated ==> parts[a] == "~"@ + tokens + " est. tokens"@
            &&& spent && !r.tokens_estimated ==> parts[a] == tokens + " tokens"@
            &&& any(r.sessions) ==> parts[b] == decimal(r.sessions->0 as nat) + " sessions"@
            &&& any(r.visits) ==> parts[c] == decimal(r.visits->0 as nat) + " visits"@
            &&& any(r.invocations) ==> parts[d] == decimal(r.invocations->0 as nat)
                + " invocations"@
        }),
{
}

/// A line on a whole scan shows hours, logged tokens, sessions and visits, each where there is any.
pub proof fn law_summary_shows_every_total(
    totals: Totals,
    hours: Seq<char>,
    tokens: Seq<char>,
    visits: Seq<char>,
)
    ensures
        ({
            let parts = summary_parts(totals, hours, tokens, visits);
            let one = |yes: bool|
                if yes {
                    1int
                } else {
                    0
                };
            let a = one(totals.hours.seconds > 0);
            let b = a + one(totals.tokens > 0);
            let c = b + one(totals.sessions > 0);
            &&& parts.len() == c + one(totals.visits > 0)
            &&& totals.hours.seconds > 0 ==> parts[0] == hours + "h"@
            &&& totals.tokens > 0 ==> parts[a] == tokens + " tokens"@
            &&& totals.sessions > 0 ==> parts[b] == decimal(totals.sessions as nat) + " sessions"@
            &&& totals.visits > 0 ==> parts[c] == visits + " visits"@
        }),
{
}

fn push_shown(parts: &mut Vec<String>, shown: bool, part: String)
    ensures
        texts(final(parts)@) == texts(old(parts)@) + if_shown(shown, part@),
{
    let ghost before = texts(parts@);
    let ghost text = part@;
    if shown {
        parts.push(part);
    }
    assert(texts(parts@) =~= before + if_shown(shown, text));
}

fn push_counted(parts: &mut Vec<String>, count: Option<u64>, what: &str)
    ensures
        texts(final(parts)@) == texts(old(parts)@) + if_counted(count, what@),
{
    let ghost before = texts(parts@);
    if let Some(n) = count {
        push_shown(parts, n > 0, decimal_u64(n).concat(what));
    }
    assert(texts(parts@) =~= before + if_counted(count, what@));
}

/// A line on what a provider has found. `hours` and `tokens` are those of the result as people
/// read them.
pub fn format_provider_stats(result: &ProviderResult, hours: &str, tokens: &str) -> (r: String)
    ensures
        r@ == joined(stats_parts(result@, hours@, tokens@), ", "@),
{
    let mut parts: Vec<String> = Vec::new();
    if let Some(h) = result.hours {
        push_shown(&mut parts, h.seconds >= 360, hours.to_string().concat("h"));
    }
    if let Some(t) = result.tokens {
        let label = if result.tokens_estimated {
            "~".to_string().concat(tokens).concat(" est. tokens")
        } else {
            tokens.to_string().concat(" tokens")
        };
        push_shown(&mut parts, t.total > 0, label);
    }
    push_counted(&mut parts, result.sessions, " sessions");
    push_counted(&mut parts, result.visits, " visits");
    push_counted(&mut parts, result.invocations, " invocations");
    assert(texts(parts@) =~= stats_parts(result@, hours@, tokens@));
    join(&parts, ", ")
}

/// What a whole scan comes to for people to read, part by part. The labels are the totals as
/// people read them.
pub open spec fn summary_parts(
    totals: Totals,
    hours: Seq<char>,
    tokens: Seq<char>,
    visits: Seq<char>,
) -> Seq<Seq<char>> {
    if_shown(totals.hours.seconds > 0, hours + "h"@) + if_shown(
        totals.tokens > 0,
        tokens + " tokens"@,
    ) + if_shown(totals.sessions > 0, decimal(totals.sessions as nat) + " sessions"@) + if_shown(
        totals.visits > 0,
        visits + " visits"@,
    )
}

/// A line on a whole scan; empty where there is nothing to tell.
pub fn summary_line(totals: &Totals, hours: &str, tokens: &str, visits: &str) -> (r: String)
    ensures
        r@ == joined(summary_parts(*totals, hours@, tokens@, visits@), " \u{2022} "@),
{
    let mut parts: Vec<String> = Vec::new();
    push_shown(&mut parts, totals.hours.seconds > 0, hours.to_string().concat("h"));
    push_shown(&mut parts, totals.tokens > 0, tokens.to_string().concat(" tokens"));
    push_shown(&mut parts, totals.sessions > 0, decimal_u64(totals.sessions).concat(" sessions"));
    push_shown(&mut parts, totals.visits > 0, visits.to_string().concat(" visits"));
    assert(texts(parts@) =~= summary_parts(*totals, hours@, tokens@, visits@));
    join(&parts, " \u{2022} ")
}

/// What a provider came to: its name, and its result where it has one.
pub struct Outcome {
    pub name: String,
    pub result: Option<ProviderResult>,
}

/// The results by the name of the provider. One without a result is left out.
pub open spec fn sources_of(outcomes: Seq<Outcome>) -> Map<Seq<char>, ProviderResult>
    decreases outcomes.len(),
{
    if outcomes.len() == 0 {
        Map::empty()
    } else {
        let before = sources_of(outcomes.drop_last());
        match outcomes.last().result {
            Some(r) => before.insert(outcomes.last().name@, r),
            None => before,
        }
    }
}

/// A provider that has a result stands among the sources with that result, under its name, and one that
/// has none changes nothing of the others.
pub proof fn law_every_result_is_a_source(outcomes: Seq<Outcome>, outcome: Outcome, other: Seq<char>)
    ensures
        ({
            let before = sources_of(outcomes);
            let after = sources_of(outcomes.push(outcome));
            &&& outcome.result matches Some(r) ==> after.contains_key(outcome.name@)
                && after[outcome.name@] == r
            &&& outcome.result is None ==> after == before
            &&& other != outcome.name@ ==> (after.contains_key(other) <==> before.contains_key(other))
            &&& other != outcome.name@ && before.contains_key(other) ==> after[other]
                == before[other]
        }),
        sources_of(Seq::empty()) == Map::<Seq<char>, ProviderResult>::empty(),
{
    assert(outcomes.push(outcome).drop_last() =~= outcomes);
}

/// The results by the name of the provider. One without a result is left out.
pub fn collect_sources(outcomes: Vec<Outcome>) -> (r: StrMap<ProviderResult>)
    ensures
        r.wf(),
        r@ == sources_of(outcomes@),
{
    let mut sources: StrMap<ProviderResult> = StrMap::new();
    let ghost all = outcomes@;
    for outcome in it: outcomes
        invariant
            sources.wf(),
            it.seq() == all,
            sources@ == sources_of(all.take(it.index() as int)),
    {
        assert(all.take(it.index() + 1).drop_last() =~= all.take(it.index() as int));
        assert(all.take(it.index() + 1).last() == outcome);
        if let Some(result) = outcome.result {
            sources.insert(outcome.name, result);
        }
    }
    assert(all.take(all.len() as int) =~= all);
    sources
}

/// Puts a scan together: the sources with their totals, and when, where and on which machine it
/// was made.
pub fn assemble_scan(
    scanned_at: String,
    platform: Platform,
    scan_duration_ms: u64,
    device_id: String,
    device_label: Option<String>,
    outcomes: Vec<Outcome>,
    detected_tools: Vec<String>,
) -> (r: ScanResult)
    ensures
        r.scanned_at == scanned_at,
        r.schema_version == SCHEMA_VERSION,
        r.platform@ == platform_name(platform),
        r.scan_duration_ms == scan_duration_ms,
        r.device_id == device_id,
        r.device_label == device_label,
        r.sources.wf(),
        r.sources@ == sources_of(outcomes@),
        r.totals == totals_of(reports(r.sources.items())),
        r.detected_tools == detected_tools,
{
    let sources = collect_sources(outcomes);
    let totals = compute_totals(&sources);
    ScanResult {
        scanned_at,
        schema_version: SCHEMA_VERSION,
        platform: detect_platform(platform).to_string(),
        scan_duration_ms,
        device_id,
        device_label,
        sources,
        totals,
        detected_tools,
    }
}

} // verus!
