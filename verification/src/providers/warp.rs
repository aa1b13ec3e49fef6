//! Warp Terminal AI: queries in its database.

use crate::collections::StrMap;
use crate::tally::{tally_of, Tally};
use crate::text::text_opt;
use crate::time_util::{
    active_seconds, build_daily_buckets, buckets_of, day_events, either, first_time,
    half_hour_activity, last_time, lemma_half_hour, read_utc, sorted_times, time_range, utc_seconds,
    DayEvent,
};
use crate::types::{Hours, MetaValue, ProviderReport, ProviderResult};
use vstd::hash_set::StringHashSet;
use vstd::prelude::*;

verus! {

pub struct WarpProvider;

/// One row of the database of queries.
pub struct QueryRow {
    pub conversation_id: String,
    pub start_ts: String,
    pub model_id: Option<String>,
}

/// What a row says.
#[verifier::ext_equal]
pub ghost struct QueryView {
    pub conversation_id: Seq<char>,
    pub start_ts: Seq<char>,
    pub model_id: Option<Seq<char>>,
}

impl View for QueryRow {
    type V = QueryView;

    open spec fn view(&self) -> QueryView {
        QueryView {
            conversation_id: self.conversation_id@,
            start_ts: self.start_ts@,
            model_id: text_opt(self.model_id),
        }
    }
}

/// What some rows say.
pub open spec fn query_views(rows: Seq<QueryRow>) -> Seq<QueryView> {
    rows.map_values(|r: QueryRow| r@)
}

/// Every query is read, in order and as it is.
pub proof fn law_every_query_is_read(rows: Seq<QueryRow>, i: int)
    requires
        0 <= i < rows.len(),
    ensures
        query_views(rows).len() == rows.len(),
        query_views(rows)[i].conversation_id == rows[i].conversation_id@,
        query_views(rows)[i].start_ts == rows[i].start_ts@,
        query_views(rows)[i].model_id is Some == rows[i].model_id is Some,
        rows[i].model_id matches Some(m) ==> query_views(rows)[i].model_id == Some(m@),
{
}

/// When a query was made: `2024-01-15 14:30:00.123`, with or without a fraction.
pub open spec fn query_time(row: QueryView) -> Option<i64> {
    either(
        utc_seconds(row.start_ts, "%Y-%m-%d %H:%M:%S%.f"@),
        utc_seconds(row.start_ts, "%Y-%m-%d %H:%M:%S"@),
    )
}

/// The conversations of some queries.
pub open spec fn conversations(rows: Seq<QueryView>) -> Set<Seq<char>>
    decreases rows.len(),
{
    if rows.len() == 0 {
        Set::empty()
    } else {
        conversations(rows.drop_last()).insert(rows.last().conversation_id)
    }
}

/// The models of some queries.
pub open spec fn query_models(rows: Seq<QueryView>) -> Seq<Seq<char>>
    decreases rows.len(),
{
    if rows.len() == 0 {
        Seq::empty()
    } else {
        match rows.last().model_id {
            Some(m) => query_models(rows.drop_last()).push(m),
            None => query_models(rows.drop_last()),
        }
    }
}

/// The times of some queries.
pub open spec fn query_times(rows: Seq<QueryView>) -> Seq<i64>
    decreases rows.len(),
{
    if rows.len() == 0 {
        Seq::empty()
    } else {
        match query_time(rows.last()) {
            Some(ts) => query_times(rows.drop_last()).push(ts),
            None => query_times(rows.drop_last()),
        }
    }
}

/// What counts on the days of some queries. Warp does not tell their tokens.
pub open spec fn query_events(rows: Seq<QueryView>) -> Seq<DayEvent>
    decreases rows.len(),
{
    if rows.len() == 0 {
        Seq::empty()
    } else {
        match query_time(rows.last()) {
            Some(ts) => query_events(rows.drop_last()).push(
                DayEvent { ts, tokens: 0, session: Some(rows.last().conversation_id) },
            ),
            None => query_events(rows.drop_last()),
        }
    }
}

/// What Warp reports.
pub open spec fn warp_report(rows: Seq<QueryView>) -> ProviderReport {
    let blank = ProviderReport::blank("Warp Terminal AI"@);
    if rows.len() == 0 {
        ProviderReport { sessions: Some(0), invocations: Some(0), ..blank }
    } else {
        let times = query_times(rows);
        let buckets = buckets_of(query_events(rows));
        ProviderReport {
            sessions: Some(conversations(rows).len() as u64),
            invocations: Some(rows.len() as u64),
            hours: Some(Hours { seconds: active_seconds(sorted_times(times), 1800) as u128 }),
            first_seen: first_time(times),
            last_seen: last_time(times),
            metadata: Some(Map::empty().insert("models"@, tally_of(query_models(rows)))),
            daily_buckets: if buckets =~= Map::empty() {
                None
            } else {
                Some(buckets)
            },
            ..blank
        }
    }
}

proof fn lemma_conversations(rows: Seq<QueryView>)
    ensures
        conversations(rows).finite(),
        conversations(rows) == rows.map_values(|r: QueryView| r.conversation_id).to_set(),
    decreases rows.len(),
{
    let ids = rows.map_values(|r: QueryView| r.conversation_id);
    if rows.len() > 0 {
        let before = rows.drop_last();
        let known = before.map_values(|r: QueryView| r.conversation_id);
        lemma_conversations(before);
        assert(ids =~= known.push(rows.last().conversation_id));
        assert forall|s: Seq<char>| ids.to_set().contains(s) <==> conversations(rows).contains(s) by {
            if known.contains(s) {
                assert(ids[known.index_of(s)] == s);
            }
            if ids.contains(s) {
                let i = ids.index_of(s);
                if i < known.len() {
                    assert(known[i] == s);
                }
            }
            assert(ids[known.len() as int] == rows.last().conversation_id);
        }
    }
    assert(conversations(rows) =~= ids.to_set());
}

/// Warp reports every query as a call and every conversation as a session, once. The times of all
/// queries that have one give the hours, with breaks of up to half an hour, and the first and the last
/// time; every query names its model.
pub proof fn law_queries_are_reported(rows: Seq<QueryView>)
    requires
        0 < rows.len() <= u64::MAX,
    ensures
        ({
            let report = warp_report(rows);
            let times = query_times(rows);
            let events = query_events(rows);
            let ids = rows.map_values(|r: QueryView| r.conversation_id).to_set();
            &&& report.provider == "Warp Terminal AI"@
            &&& report.invocations == Some(rows.len() as u64)
            &&& ids.len() <= u64::MAX ==> report.sessions == Some(ids.len() as u64)
            &&& report.hours == Some(Hours { seconds: half_hour_activity(times) as u128 })
            &&& report.first_seen == first_time(times)
            &&& report.last_seen == last_time(times)
            &&& report.metadata is Some && report.metadata->0.contains_key("models"@)
            &&& report.metadata->0["models"@] == tally_of(query_models(rows))
            &&& report.daily_buckets is Some ==> report.daily_buckets == Some(buckets_of(events))
            &&& report.daily_buckets is None ==> buckets_of(events) =~= Map::empty()
            &&& report.tokens is None && report.visits is None
        }),
{
    lemma_conversations(rows);
    lemma_half_hour(query_times(rows));
}

/// One more query adds its time, its model and its place on its day, as far as it has them. A time is
/// written with or without a fraction.
pub proof fn law_query_tells(rows: Seq<QueryView>, row: QueryView, time: Option<i64>)
    requires
        time == if utc_seconds(row.start_ts, "%Y-%m-%d %H:%M:%S%.f"@) is Some {
            utc_seconds(row.start_ts, "%Y-%m-%d %H:%M:%S%.f"@)
        } else {
            utc_seconds(row.start_ts, "%Y-%m-%d %H:%M:%S"@)
        },
    ensures
        time matches Some(ts) ==> query_times(rows.push(row)) == query_times(rows).push(ts)
            && query_events(rows.push(row)) == query_events(rows).push(
            DayEvent { ts, tokens: 0, session: Some(row.conversation_id) },
        ),
        time is None ==> query_times(rows.push(row)) == query_times(rows) && query_events(
            rows.push(row),
        ) == query_events(rows),
        row.model_id matches Some(m) ==> query_models(rows.push(row)) == query_models(rows).push(m),
        row.model_id is None ==> query_models(rows.push(row)) == query_models(rows),
        query_times(Seq::empty()).len() == 0,
        query_models(Seq::empty()).len() == 0,
        query_events(Seq::empty()).len() == 0,
{
    assert(rows.push(row).drop_last() =~= rows);
}

/// Without queries there are no sessions and no calls.
pub proof fn law_no_queries_no_calls()
    ensures
        warp_report(Seq::empty()).sessions == Some(0u64),
        warp_report(Seq::empty()).invocations == Some(0u64),
        warp_report(Seq::empty()).hours is None,
        warp_report(Seq::empty()).daily_buckets is None,
{
}

fn time_of_query(text: &str) -> (r: Option<i64>)
    ensures
        r == either(
            utc_seconds(text@, "%Y-%m-%d %H:%M:%S%.f"@),
            utc_seconds(text@, "%Y-%m-%d %H:%M:%S"@),
        ),
{
    match read_utc(text, "%Y-%m-%d %H:%M:%S%.f") {
        Some(ts) => Some(ts),
        None => read_utc(text, "%Y-%m-%d %H:%M:%S"),
    }
}

impl WarpProvider {
    /// Usage from the database of queries.
    pub fn scan(&self, rows: &Vec<QueryRow>) -> (r: ProviderResult)
        ensures
            r.wf(),
            r@ == warp_report(query_views(rows@)),
    {
        let mut result = ProviderResult::new("Warp Terminal AI");
        if rows.len() == 0 {
            result.sessions = Some(0);
            result.invocations = Some(0);
            return result;
        }
        let ghost all = query_views(rows@);
        let mut sessions = StringHashSet::new();
        let mut models = Tally::new();
        let mut times: Vec<i64> = Vec::new();
        let mut events: Vec<(i64, u64, Option<String>)> = Vec::new();
        let mut i: usize = 0;
        assert(day_events(events@) =~= query_events(all.take(0)));
        while i < rows.len()
            invariant
                i <= rows@.len(),
                all == query_views(rows@),
                sessions@ == conversations(all.take(i as int)),
                models.wf(),
                models@ == query_models(all.take(i as int)),
                times@ == query_times(all.take(i as int)),
                day_events(events@) == query_events(all.take(i as int)),
            decreases rows@.len() - i,
        {
            let row = &rows[i];
            let ghost known = day_events(events@);
            proof {
                assert(all.take(i + 1).drop_last() =~= all.take(i as int));
                assert(all.take(i + 1).last() == row@);
            }
            sessions.insert(row.conversation_id.clone());
            if let Some(model) = &row.model_id {
                models.count(model.as_str());
            }
            if let Some(ts) = time_of_query(row.start_ts.as_str()) {
                times.push(ts);
                events.push((ts, 0, Some(row.conversation_id.clone())));
                assert(day_events(events@) =~= known.push(
                    DayEvent { ts, tokens: 0, session: Some(row.conversation_id@) },
                ));
            }
            i += 1;
        }
        assert(all.take(i as int) =~= all);
        let (hours, first_seen, last_seen) = time_range(times.as_slice());
        let mut metadata: StrMap<MetaValue> = StrMap::new();
        metadata.insert("models".to_string(), models.to_record());
        result.sessions = Some(sessions.len() as u64);
        result.invocations = Some(rows.len() as u64);
        result.hours = Some(hours);
        result.first_seen = first_seen;
        result.last_seen = last_seen;
        result.metadata = Some(metadata);
        assert(result@.metadata->0 =~= Map::empty().insert("models"@, tally_of(query_models(all))));
        let buckets = build_daily_buckets(events.as_slice());
        if !buckets.is_empty() {
            result.daily_buckets = Some(buckets);
        }
        result
    }
}

} // verus!
