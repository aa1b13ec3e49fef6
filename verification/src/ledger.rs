//! The account that is kept while the log of a tool is read.

use crate::collections::StrMap;
use crate::time_util::{
    active_hours_from_timestamps, active_seconds, day_events, half_hour_activity,
    law_active_within_span, lemma_half_hour, sort_times, sorted_times, DayEvent,
};
use crate::types::{
    DailyBucket, Hours, ModelUsage, ProviderReport, ProviderResult, TokenSums, TokenUsage,
};
use vstd::hash_set::StringHashSet;
use vstd::prelude::*;

verus! {

/// One thing that a log tells.
#[verifier::ext_equal]
pub ghost enum Record {
    /// A session took place.
    Session(Seq<char>),
    /// Something happened at a time, perhaps in a known session.
    Moment(Option<Seq<char>>, i64),
    /// A model spent tokens.
    Tokens(Seq<char>, TokenSums),
    /// Something that counts on its day.
    Event(DayEvent),
}

/// The tokens that a model spent.
pub open spec fn model_sums(records: Seq<Record>, model: Seq<char>) -> TokenSums
    decreases records.len(),
{
    if records.len() == 0 {
        TokenSums::zero()
    } else {
        let before = model_sums(records.drop_last(), model);
        match records.last() {
            Record::Tokens(m, sums) if m == model => before.plus(sums),
            _ => before,
        }
    }
}

/// The tokens that all models spent.
pub open spec fn all_sums(records: Seq<Record>) -> TokenSums
    decreases records.len(),
{
    if records.len() == 0 {
        TokenSums::zero()
    } else {
        let before = all_sums(records.drop_last());
        match records.last() {
            Record::Tokens(_, sums) => before.plus(sums),
            _ => before,
        }
    }
}

/// Whether a record tells of tokens that a model spent.
pub open spec fn names_model(record: Record, model: Seq<char>) -> bool {
    match record {
        Record::Tokens(m, _) => m == model,
        _ => false,
    }
}

/// Whether a model is named as having spent tokens, be it none.
pub open spec fn has_model(records: Seq<Record>, model: Seq<char>) -> bool {
    exists|i: int| 0 <= i < records.len() && names_model(#[trigger] records[i], model)
}

/// The usage of every model that is named.
pub open spec fn models_of(records: Seq<Record>) -> Map<Seq<char>, ModelUsage> {
    Map::new(
        |m: Seq<char>| has_model(records, m),
        |m: Seq<char>| ModelUsage::of_tokens(model_sums(records, m).usage()),
    )
}

/// The sessions that took place.
pub open spec fn session_set(records: Seq<Record>) -> Set<Seq<char>>
    decreases records.len(),
{
    if records.len() == 0 {
        Set::empty()
    } else {
        match records.last() {
            Record::Session(s) => session_set(records.drop_last()).insert(s),
            _ => session_set(records.drop_last()),
        }
    }
}

/// The times at which something happened in a session.
pub open spec fn session_times(records: Seq<Record>, session: Seq<char>) -> Seq<i64>
    decreases records.len(),
{
    if records.len() == 0 {
        Seq::empty()
    } else {
        match records.last() {
            Record::Moment(Some(s), ts) if s == session => session_times(
                records.drop_last(),
                session,
            ).push(ts),
            _ => session_times(records.drop_last(), session),
        }
    }
}

/// The sessions in which something happened at a known time, in the order in which they came.
pub open spec fn timed_sessions(records: Seq<Record>) -> Seq<Seq<char>>
    decreases records.len(),
{
    if records.len() == 0 {
        Seq::empty()
    } else {
        let before = timed_sessions(records.drop_last());
        match records.last() {
            Record::Moment(Some(s), _) if !before.contains(s) => before.push(s),
            _ => before,
        }
    }
}

/// The earliest time.
pub open spec fn earliest(records: Seq<Record>) -> Option<i64>
    decreases records.len(),
{
    if records.len() == 0 {
        None
    } else {
        match records.last() {
            Record::Moment(_, ts) => Some(earlier(earliest(records.drop_last()), ts)),
            _ => earliest(records.drop_last()),
        }
    }
}

/// The latest time.
pub open spec fn latest(records: Seq<Record>) -> Option<i64>
    decreases records.len(),
{
    if records.len() == 0 {
        None
    } else {
        match records.last() {
            Record::Moment(_, ts) => Some(later(latest(records.drop_last()), ts)),
            _ => latest(records.drop_last()),
        }
    }
}

/// The smaller of a time that may be missing and another.
pub open spec fn earlier(known: Option<i64>, ts: i64) -> i64 {
    match known {
        Some(k) if k <= ts => k,
        _ => ts,
    }
}

/// The larger of a time that may be missing and another.
pub open spec fn later(known: Option<i64>, ts: i64) -> i64 {
    match known {
        Some(k) if k >= ts => k,
        _ => ts,
    }
}

/// The events that count on their days.
pub open spec fn events_of(records: Seq<Record>) -> Seq<DayEvent>
    decreases records.len(),
{
    if records.len() == 0 {
        Seq::empty()
    } else {
        match records.last() {
            Record::Event(e) => events_of(records.drop_last()).push(e),
            _ => events_of(records.drop_last()),
        }
    }
}

/// The active time of a session, with breaks of up to half an hour.
pub open spec fn session_seconds(records: Seq<Record>, session: Seq<char>) -> int {
    active_seconds(sorted_times(session_times(records, session)), 1800)
}

/// The active time of some sessions.
pub open spec fn summed_seconds(records: Seq<Record>, sessions: Seq<Seq<char>>) -> int
    decreases sessions.len(),
{
    if sessions.len() == 0 {
        0
    } else {
        summed_seconds(records, sessions.drop_last()) + session_seconds(records, sessions.last())
    }
}

/// The active time of all sessions.
pub open spec fn activity(records: Seq<Record>) -> int {
    summed_seconds(records, timed_sessions(records))
}

/// What a provider reports of a log, with the usage by the day.
pub open spec fn summary(
    provider: Seq<char>,
    records: Seq<Record>,
    buckets: Map<Seq<char>, DailyBucket>,
) -> ProviderReport {
    ProviderReport {
        hours: Some(Hours { seconds: activity(records) as u128 }),
        tokens: Some(all_sums(records).usage()),
        sessions: Some(session_set(records).len() as u64),
        models: if exists|m: Seq<char>| has_model(records, m) {
            Some(models_of(records))
        } else {
            None
        },
        first_seen: earliest(records),
        last_seen: latest(records),
        daily_buckets: if buckets.dom() =~= Set::empty() {
            None
        } else {
            Some(buckets)
        },
        ..ProviderReport::blank(provider)
    }
}

/// The usage that a report has for a model, where it names it.
pub open spec fn used(report: ProviderReport, model: Seq<char>) -> Option<TokenUsage> {
    match report.models {
        Some(models) => if models.contains_key(model) {
            Some(models[model].tokens)
        } else {
            None
        },
        None => None,
    }
}

/// Two usages together, of which either may be missing.
pub open spec fn used_together(a: Option<TokenUsage>, b: Option<TokenUsage>) -> Option<TokenUsage> {
    match (a, b) {
        (Some(x), Some(y)) => Some(x.sums().plus(y.sums()).usage()),
        (Some(x), None) => Some(x),
        (None, y) => y,
    }
}

/// The smaller of two times, of which either may be missing.
pub open spec fn least(a: Option<i64>, b: Option<i64>) -> Option<i64> {
    match (a, b) {
        (Some(x), Some(y)) => Some(
            if x <= y {
                x
            } else {
                y
            },
        ),
        (Some(x), None) => Some(x),
        (None, y) => y,
    }
}

/// The larger of two times, of which either may be missing.
pub open spec fn most(a: Option<i64>, b: Option<i64>) -> Option<i64> {
    match (a, b) {
        (Some(x), Some(y)) => Some(
            if x >= y {
                x
            } else {
                y
            },
        ),
        (Some(x), None) => Some(x),
        (None, y) => y,
    }
}

/// What stands in some records and in others stands in both.
pub proof fn lemma_records_join(a: Seq<Record>, b: Seq<Record>, model: Seq<char>)
    ensures
        all_sums(a + b) == all_sums(a).plus(all_sums(b)),
        model_sums(a + b, model) == model_sums(a, model).plus(model_sums(b, model)),
        has_model(a + b, model) <==> has_model(a, model) || has_model(b, model),
        earliest(a + b) == least(earliest(a), earliest(b)),
        latest(a + b) == most(latest(a), latest(b)),
        events_of(a + b) == events_of(a) + events_of(b),
        session_times(a + b, model) == session_times(a, model) + session_times(b, model),
    decreases b.len(),
{
    if b.len() == 0 {
        assert(a + b =~= a);
        assert(events_of(a) + events_of(b) =~= events_of(a));
        assert(session_times(a, model) + session_times(b, model) =~= session_times(a, model));
    } else {
        let fewer = b.drop_last();
        assert((a + b).drop_last() =~= a + fewer);
        lemma_records_join(a, fewer, model);
        assert(a + b =~= (a + fewer).push(b.last()));
        assert(b =~= fewer.push(b.last()));
        lemma_has_model_push(a + fewer, b.last(), model);
        lemma_has_model_push(fewer, b.last(), model);
        assert(events_of(a + b) =~= events_of(a) + events_of(b));
        assert(session_times(a + b, model) =~= session_times(a, model) + session_times(b, model));
    }
}

/// Reports add up: what is reported of two logs read one after the other is, of all tokens and of
/// each model, what is reported of both; the report starts with the earlier of them and ends with
/// the later. So no record is without effect for the records beside it.
pub proof fn law_reports_add_up(
    provider: Seq<char>,
    a: Seq<Record>,
    b: Seq<Record>,
    model: Seq<char>,
    buckets: Map<Seq<char>, DailyBucket>,
)
    ensures
        ({
            let first = summary(provider, a, buckets);
            let second = summary(provider, b, buckets);
            let both = summary(provider, a + b, buckets);
            &&& both.tokens == used_together(first.tokens, second.tokens)
            &&& used(both, model) == used_together(used(first, model), used(second, model))
            &&& both.first_seen == least(first.first_seen, second.first_seen)
            &&& both.last_seen == most(first.last_seen, second.last_seen)
            &&& events_of(a + b) == events_of(a) + events_of(b)
        }),
{
    lemma_records_join(a, b, model);
    crate::types::law_merge_adds_sums(all_sums(a), all_sums(b));
    crate::types::law_merge_adds_sums(model_sums(a, model), model_sums(b, model));
    if !has_model(a, model) {
        lemma_no_model_no_sums(a, model);
    }
    if !has_model(b, model) {
        lemma_no_model_no_sums(b, model);
    }
}

/// What one record by itself is reported as. A record of tokens names its model and no other, with
/// exactly these tokens; a moment is the first and the last time; a session and an event are
/// neither. Whatever a log tells, nothing is reported of visits and calls, and no tokens are
/// estimated.
pub proof fn law_record_alone(
    provider: Seq<char>,
    record: Record,
    model: Seq<char>,
    buckets: Map<Seq<char>, DailyBucket>,
)
    ensures
        record is Tokens ==> summary(provider, seq![record], buckets).tokens == Some(
            record->Tokens_1.usage(),
        ),
        !(record is Tokens) ==> summary(provider, seq![record], buckets).tokens == summary(
            provider,
            Seq::empty(),
            buckets,
        ).tokens,
        record is Tokens && record->Tokens_0 == model ==> used(
            summary(provider, seq![record], buckets),
            model,
        ) == Some(record->Tokens_1.usage()),
        !(record is Tokens && record->Tokens_0 == model) ==> used(
            summary(provider, seq![record], buckets),
            model,
        ) is None,
        record is Moment ==> summary(provider, seq![record], buckets).first_seen == Some(
            record->Moment_1,
        ) && summary(provider, seq![record], buckets).last_seen == Some(record->Moment_1),
        !(record is Moment) ==> summary(provider, seq![record], buckets).first_seen is None
            && summary(provider, seq![record], buckets).last_seen is None,
        record is Event ==> events_of(seq![record]) == seq![record->Event_0],
        !(record is Event) ==> events_of(seq![record]) == Seq::<DayEvent>::empty(),
{
    let one = seq![record];
    let none = Seq::<Record>::empty();
    assert(one =~= none.push(record));
    assert(one.drop_last() =~= none);
    assert(all_sums(none) == TokenSums::zero() && model_sums(none, model) == TokenSums::zero());
    assert(earliest(none) is None && latest(none) is None);
    assert(events_of(none) =~= Seq::empty());
    assert forall|m: Seq<char>| #[trigger] has_model(one, m) <==> names_model(record, m) by {
        lemma_has_model_push(none, record, m);
    }
    if let Record::Tokens(m, sums) = record {
        assert(TokenSums::zero().plus(sums) == sums);
        assert(has_model(one, m));
    }
}

/// Records among which one tells of tokens tell of just these.
pub proof fn lemma_one_tokens(more: Seq<Record>, k: int)
    requires
        0 <= k < more.len(),
        more[k] is Tokens,
        forall|i: int| 0 <= i < more.len() && i != k ==> !(#[trigger] more[i] is Tokens),
    ensures
        all_sums(more) == more[k]->Tokens_1,
        model_sums(more, more[k]->Tokens_0) == more[k]->Tokens_1,
        forall|m: Seq<char>| #[trigger] has_model(more, m) <==> m == more[k]->Tokens_0,
    decreases more.len(),
{
    let before = more.drop_last();
    let model = more[k]->Tokens_0;
    assert forall|m: Seq<char>| #[trigger] has_model(more, m) <==> m == model by {
        if m == model {
            assert(names_model(more[k], m));
        }
        if has_model(more, m) {
            let i = choose|i: int| 0 <= i < more.len() && names_model(#[trigger] more[i], m);
            assert(i == k);
        }
    }
    if k == more.len() - 1 {
        lemma_no_tokens(before);
        assert(model_sums(before, model) == TokenSums::zero());
        assert(TokenSums::zero().plus(more[k]->Tokens_1) == more[k]->Tokens_1);
    } else {
        assert(!(more[more.len() - 1] is Tokens));
        assert(before[k] == more[k]);
        lemma_one_tokens(before, k);
    }
}

/// Records that tell of no tokens name no model.
pub proof fn lemma_no_tokens(more: Seq<Record>)
    requires
        forall|i: int| 0 <= i < more.len() ==> !(#[trigger] more[i] is Tokens),
    ensures
        all_sums(more) == TokenSums::zero(),
        forall|m: Seq<char>| !(#[trigger] has_model(more, m)),
        forall|m: Seq<char>| #[trigger] model_sums(more, m) == TokenSums::zero(),
    decreases more.len(),
{
    if more.len() > 0 {
        assert(!(more[more.len() - 1] is Tokens));
        lemma_no_tokens(more.drop_last());
    }
    assert forall|m: Seq<char>| !(#[trigger] has_model(more, m)) by {
        if has_model(more, m) {
            let i = choose|i: int| 0 <= i < more.len() && names_model(#[trigger] more[i], m);
            assert(!(more[i] is Tokens));
        }
    }
    assert forall|m: Seq<char>| #[trigger] model_sums(more, m) == TokenSums::zero() by {
        lemma_no_model_no_sums(more, m);
    }
}

/// A report of more records has more by what they tell.
pub proof fn lemma_report_grows(
    provider: Seq<char>,
    records: Seq<Record>,
    more: Seq<Record>,
    model: Seq<char>,
    days: Map<Seq<char>, DailyBucket>,
    more_days: Map<Seq<char>, DailyBucket>,
)
    ensures
        ({
            let before = summary(provider, records, days);
            let after = summary(provider, records + more, more_days);
            &&& after.tokens == used_together(before.tokens, Some(all_sums(more).usage()))
            &&& used(after, model) == used_together(
                used(before, model),
                if has_model(more, model) {
                    Some(model_sums(more, model).usage())
                } else {
                    None
                },
            )
            &&& after.first_seen == least(before.first_seen, earliest(more))
            &&& after.last_seen == most(before.last_seen, latest(more))
            &&& all_sums(more) == TokenSums::zero() ==> after.tokens == before.tokens
        }),
{
    law_reports_add_up(provider, records, more, model, days);
    crate::types::law_merge_adds_sums(all_sums(records), all_sums(more));
    lemma_records_join(records, more, model);
    assert(all_sums(records).plus(TokenSums::zero()) == all_sums(records));
}

/// What no records are reported as: no tokens, no models, no sessions and no time.
pub proof fn law_nothing_is_reported_of_nothing(
    provider: Seq<char>,
    buckets: Map<Seq<char>, DailyBucket>,
)
    ensures
        ({
            let report = summary(provider, Seq::empty(), buckets);
            &&& report.provider == provider
            &&& report.tokens == Some(
                TokenUsage {
                    input_tokens: 0,
                    output_tokens: 0,
                    cache_read_tokens: 0,
                    cache_creation_tokens: 0,
                    total: 0,
                },
            )
            &&& report.models is None
            &&& report.sessions == Some(0u64)
            &&& report.hours == Some(Hours { seconds: 0 })
            &&& report.first_seen is None
            &&& report.last_seen is None
            &&& events_of(Seq::empty()) == Seq::<DayEvent>::empty()
        }),
{
    let none = Seq::<Record>::empty();
    assert forall|m: Seq<char>| !has_model(none, m) by {}
}

/// The times at which something happened in a session.
pub open spec fn times_in(records: Seq<Record>, session: Seq<char>) -> Seq<i64> {
    records.filter(
        |r: Record| r matches Record::Moment(Some(s), _) && s == session,
    ).map_values(|r: Record| r->Moment_1)
}

/// The times in a session are those that the account keeps for it.
pub proof fn lemma_times_in(records: Seq<Record>, session: Seq<char>)
    ensures
        times_in(records, session) == session_times(records, session),
    decreases records.len(),
{
    reveal(Seq::filter);
    let keep = |r: Record| r matches Record::Moment(Some(s), _) && s == session;
    if records.len() == 0 {
        assert(times_in(records, session) =~= session_times(records, session));
    } else {
        let before = records.drop_last();
        lemma_times_in(before, session);
        assert(records =~= before.push(records.last()));
        before.lemma_filter_push(records.last(), keep);
        if keep(records.last()) {
            assert(records.filter(keep).map_values(|r: Record| r->Moment_1) =~= before.filter(
                keep,
            ).map_values(|r: Record| r->Moment_1).push(records.last()->Moment_1));
        }
    }
}

proof fn lemma_timed_sessions(records: Seq<Record>, session: Seq<char>)
    ensures
        timed_sessions(records).no_duplicates(),
        timed_sessions(records).contains(session) <==> exists|i: int|
            0 <= i < records.len() && (#[trigger] records[i]) is Moment && records[i]->Moment_0
                == Some(session),
    decreases records.len(),
{
    if records.len() > 0 {
        let before = records.drop_last();
        let known = timed_sessions(before);
        let all = timed_sessions(records);
        lemma_timed_sessions(before, session);
        let last = records.len() - 1;
        if known.contains(session) {
            let k = known.index_of(session);
            assert(all[k] == session);
            let i = choose|i: int|
                0 <= i < before.len() && (#[trigger] before[i]) is Moment && before[i]->Moment_0
                    == Some(session);
            assert(records[i] is Moment && records[i]->Moment_0 == Some(session));
        }
        match records.last() {
            Record::Moment(Some(s), _) => {
                if s == session {
                    assert(records[last] is Moment && records[last]->Moment_0 == Some(session));
                    if !known.contains(s) {
                        assert(all[known.len() as int] == s);
                    }
                }
            },
            _ => {},
        }
        if all.contains(session) && !known.contains(session) {
            let k = all.index_of(session);
            assert(k == known.len());
        }
        if exists|i: int|
            0 <= i < records.len() && (#[trigger] records[i]) is Moment && records[i]->Moment_0
                == Some(session) {
            let i = choose|i: int|
                0 <= i < records.len() && (#[trigger] records[i]) is Moment
                    && records[i]->Moment_0 == Some(session);
            if i < last {
                assert(before[i] is Moment && before[i]->Moment_0 == Some(session));
            }
        }
    }
}

proof fn lemma_seconds_total(records: Seq<Record>, sessions: Seq<Seq<char>>)
    ensures
        summed_seconds(records, sessions) == crate::types::total(
            sessions.map_values(|s: Seq<char>| half_hour_activity(times_in(records, s)) as nat),
        ),
    decreases sessions.len(),
{
    let parts = sessions.map_values(
        |s: Seq<char>| half_hour_activity(times_in(records, s)) as nat,
    );
    if sessions.len() == 0 {
        assert(parts =~= Seq::empty());
        crate::types::lemma_total_push(Seq::empty(), 0);
    } else {
        let before = sessions.drop_last();
        lemma_seconds_total(records, before);
        lemma_times_in(records, sessions.last());
        lemma_half_hour(times_in(records, sessions.last()));
        let fewer = before.map_values(
            |s: Seq<char>| half_hour_activity(times_in(records, s)) as nat,
        );
        let last = half_hour_activity(times_in(records, sessions.last())) as nat;
        assert(parts =~= fewer.push(last));
        crate::types::lemma_total_push(fewer, last);
    }
}

/// Hours are kept by session: every session in which something happened at a known time counts once,
/// with the gaps of at most half an hour between the times in it. Sessions are counted by the
/// distinct ones that took place.
pub proof fn law_hours_are_by_session(
    provider: Seq<char>,
    records: Seq<Record>,
    session: Seq<char>,
    buckets: Map<Seq<char>, DailyBucket>,
)
    ensures
        ({
            let report = summary(provider, records, buckets);
            let timed = timed_sessions(records);
            let seconds = crate::types::total(
                timed.map_values(|s: Seq<char>| half_hour_activity(times_in(records, s)) as nat),
            );
            let sessions = Set::new(|s: Seq<char>| records.contains(Record::Session(s)));
            &&& timed.no_duplicates()
            &&& timed.contains(session) <==> exists|i: int|
                0 <= i < records.len() && (#[trigger] records[i]) is Moment
                    && records[i]->Moment_0 == Some(session)
            &&& seconds <= u128::MAX ==> report.hours == Some(Hours { seconds: seconds as u128 })
            &&& records.len() <= u64::MAX ==> report.sessions == Some(sessions.len() as u64)
            &&& sessions.finite() && sessions.len() <= records.len()
        }),
{
    lemma_timed_sessions(records, session);
    lemma_seconds_total(records, timed_sessions(records));
    lemma_session_set(records);
    assert(session_set(records) =~= Set::new(
        |s: Seq<char>| records.contains(Record::Session(s)),
    ));
}

/// Beside tokens, models, sessions and times a log is reported with its days, where it has any, and
/// with nothing else.
pub proof fn law_report_has_its_days(
    provider: Seq<char>,
    records: Seq<Record>,
    buckets: Map<Seq<char>, DailyBucket>,
    date: Seq<char>,
)
    ensures
        ({
            let report = summary(provider, records, buckets);
            &&& report.provider == provider
            &&& buckets.contains_key(date) ==> report.daily_buckets == Some(buckets)
            &&& report.daily_buckets is Some ==> report.daily_buckets == Some(buckets)
            &&& report.visits is None && report.invocations is None && report.metadata is None
            &&& !report.tokens_estimated && report.tokens_estimate_method is None
            &&& report.hours is Some && report.tokens is Some && report.sessions is Some
        }),
{
}

/// The account that is kept while a log is read.
pub struct Ledger {
    models: StrMap<ModelUsage>,
    sessions: StringHashSet,
    times: StrMap<Vec<i64>>,
    events: Vec<(i64, u64, Option<String>)>,
    first_seen: Option<i64>,
    last_seen: Option<i64>,
    records: Ghost<Seq<Record>>,
}

impl View for Ledger {
    type V = Seq<Record>;

    closed spec fn view(&self) -> Seq<Record> {
        self.records@
    }
}

proof fn lemma_has_model_push(records: Seq<Record>, record: Record, model: Seq<char>)
    ensures
        has_model(records.push(record), model) <==> has_model(records, model) || names_model(
            record,
            model,
        ),
{
    let all = records.push(record);
    if has_model(records, model) {
        let i = choose|i: int| 0 <= i < records.len() && names_model(#[trigger] records[i], model);
        assert(names_model(all[i], model));
    }
    if names_model(record, model) {
        assert(names_model(all[records.len() as int], model));
    }
    if has_model(all, model) && !names_model(record, model) {
        let i = choose|i: int| 0 <= i < all.len() && names_model(#[trigger] all[i], model);
        assert(names_model(records[i], model));
    }
}

/// A model that is not named has spent nothing.
pub proof fn lemma_no_model_no_sums(records: Seq<Record>, model: Seq<char>)
    requires
        !has_model(records, model),
    ensures
        model_sums(records, model) == TokenSums::zero(),
    decreases records.len(),
{
    if records.len() > 0 {
        let before = records.drop_last();
        assert(records =~= before.push(records.last()));
        lemma_has_model_push(before, records.last(), model);
        lemma_no_model_no_sums(before, model);
    }
}

/// A session is in the set exactly if a record tells that it took place.
pub proof fn lemma_session_set(records: Seq<Record>)
    ensures
        session_set(records).finite(),
        session_set(records).len() <= records.len(),
        forall|s: Seq<char>| #[trigger]
            session_set(records).contains(s) <==> records.contains(Record::Session(s)),
    decreases records.len(),
{
    if records.len() > 0 {
        let before = records.drop_last();
        lemma_session_set(before);
        assert forall|s: Seq<char>| #[trigger]
            session_set(records).contains(s) <==> records.contains(Record::Session(s)) by {
            if before.contains(Record::Session(s)) {
                let i = before.index_of(Record::Session(s));
                assert(records[i] == Record::Session(s));
            }
            if records.contains(Record::Session(s)) && records.last() != Record::Session(s) {
                let i = records.index_of(Record::Session(s));
                assert(before[i] == Record::Session(s));
            }
            if records.last() == Record::Session(s) {
                assert(records[records.len() - 1] == Record::Session(s));
            }
        }
    }
}

proof fn lemma_no_times(records: Seq<Record>, session: Seq<char>)
    requires
        !timed_sessions(records).contains(session),
    ensures
        session_times(records, session) =~= Seq::empty(),
    decreases records.len(),
{
    if records.len() > 0 {
        let before = records.drop_last();
        let t = timed_sessions(before);
        if t.contains(session) {
            let i = t.index_of(session);
            assert(timed_sessions(records)[i] == session);
        }
        lemma_no_times(before, session);
        match records.last() {
            Record::Moment(Some(s), _) => {
                if s == session {
                    assert(t.push(s)[t.len() as int] == session);
                }
            },
            _ => {},
        }
    }
}

/// The sums of some models, added up.
pub open spec fn summed_models(records: Seq<Record>, models: Seq<Seq<char>>) -> TokenSums
    decreases models.len(),
{
    if models.len() == 0 {
        TokenSums::zero()
    } else {
        summed_models(records, models.drop_last()).plus(model_sums(records, models.last()))
    }
}

proof fn lemma_summed_models_push(records: Seq<Record>, record: Record, models: Seq<Seq<char>>)
    requires
        models.no_duplicates(),
    ensures
        summed_models(records.push(record), models) == match record {
            Record::Tokens(m, sums) if models.contains(m) => summed_models(records, models).plus(
                sums,
            ),
            _ => summed_models(records, models),
        },
    decreases models.len(),
{
    let all = records.push(record);
    assert(all.drop_last() =~= records);
    if models.len() > 0 {
        let fewer = models.drop_last();
        lemma_summed_models_push(records, record, fewer);
        match record {
            Record::Tokens(m, sums) => {
                if m == models.last() {
                    assert(models.contains(m));
                    if fewer.contains(m) {
                        let i = fewer.index_of(m);
                        assert(models[i] == models[models.len() - 1]);
                    }
                } else {
                    if models.contains(m) {
                        let i = models.index_of(m);
                        assert(fewer[i] == m);
                    }
                    if fewer.contains(m) {
                        let i = fewer.index_of(m);
                        assert(models[i] == m);
                    }
                }
            },
            _ => {},
        }
    }
}

proof fn lemma_summed_models_none(models: Seq<Seq<char>>)
    ensures
        summed_models(Seq::empty(), models) == TokenSums::zero(),
    decreases models.len(),
{
    if models.len() > 0 {
        lemma_summed_models_none(models.drop_last());
    }
}

/// The tokens of all models together are the tokens of each model added up, whatever the order
/// in which the models are taken.
pub proof fn law_models_add_up(records: Seq<Record>, models: Seq<Seq<char>>)
    requires
        models.no_duplicates(),
        forall|m: Seq<char>| has_model(records, m) ==> models.contains(m),
    ensures
        summed_models(records, models) == all_sums(records),
    decreases records.len(),
{
    if records.len() == 0 {
        assert(records =~= Seq::empty());
        lemma_summed_models_none(models);
    } else {
        let before = records.drop_last();
        let record = records.last();
        assert(records =~= before.push(record));
        assert forall|m: Seq<char>| has_model(before, m) implies models.contains(m) by {
            lemma_has_model_push(before, record, m);
        }
        law_models_add_up(before, models);
        lemma_summed_models_push(before, record, models);
        match record {
            Record::Tokens(m, _) => {
                lemma_has_model_push(before, record, m);
            },
            _ => {},
        }
    }
}

/// Records that tell of no tokens change no sums.
pub proof fn lemma_free_records(records: Seq<Record>, more: Seq<Record>)
    requires
        forall|i: int| 0 <= i < more.len() ==> !(#[trigger] more[i] is Tokens),
    ensures
        all_sums(records + more) == all_sums(records),
    decreases more.len(),
{
    if more.len() == 0 {
        assert(records + more =~= records);
    } else {
        assert((records + more).drop_last() =~= records + more.drop_last());
        assert(!(more[more.len() - 1] is Tokens));
        lemma_free_records(records, more.drop_last());
    }
}

/// The earliest and the latest time bound every time that is told of, and are such times.
pub proof fn law_seen_range(records: Seq<Record>)
    ensures
        earliest(records) is Some <==> latest(records) is Some,
        forall|i: int|
            #![trigger records[i]]
            0 <= i < records.len() && records[i] is Moment ==> earliest(records) is Some
                && earliest(records)->0 <= records[i]->Moment_1 <= latest(records)->0,
        earliest(records) is Some ==> exists|i: int|
            0 <= i < records.len() && #[trigger] records[i] is Moment && records[i]->Moment_1
                == earliest(records)->0,
        latest(records) is Some ==> exists|i: int|
            0 <= i < records.len() && #[trigger] records[i] is Moment && records[i]->Moment_1
                == latest(records)->0,
    decreases records.len(),
{
    if records.len() > 0 {
        let before = records.drop_last();
        law_seen_range(before);
        assert forall|i: int|
            #![trigger records[i]]
            0 <= i < records.len() && records[i] is Moment implies earliest(records) is Some
            && earliest(records)->0 <= records[i]->Moment_1 <= latest(records)->0 by {
            if i < before.len() {
                assert(before[i] == records[i]);
            }
        }
        let last = records.len() - 1;
        if earliest(records) is Some {
            if earliest(records) == earliest(before) {
                let i = choose|i: int|
                    0 <= i < before.len() && #[trigger] before[i] is Moment && before[i]->Moment_1
                        == earliest(before)->0;
                assert(records[i] is Moment);
            } else {
                assert(records[last] is Moment);
            }
        }
        if latest(records) is Some {
            if latest(records) == latest(before) {
                let i = choose|i: int|
                    0 <= i < before.len() && #[trigger] before[i] is Moment && before[i]->Moment_1
                        == latest(before)->0;
                assert(records[i] is Moment);
            } else {
                assert(records[last] is Moment);
            }
        }
    }
}

impl Ledger {
    /// Every total of the account is what the records come to.
    pub closed spec fn wf(&self) -> bool {
        &&& self.models.wf()
        &&& self.times.wf()
        &&& self.models@ =~= models_of(self@)
        &&& self.sessions@ == session_set(self@)
        &&& self.times.names() == timed_sessions(self@)
        &&& forall|s: Seq<char>| #[trigger]
            self.times@.contains_key(s) ==> self.times@[s]@ == session_times(self@, s)
        &&& day_events(self.events@) == events_of(self@)
        &&& self.first_seen == earliest(self@)
        &&& self.last_seen == latest(self@)
    }

    /// An account without records.
    pub fn new() -> (r: Ledger)
        ensures
            r.wf(),
            r@ == Seq::<Record>::empty(),
    {
        let r = Ledger {
            models: StrMap::new(),
            sessions: StringHashSet::new(),
            times: StrMap::new(),
            events: Vec::new(),
            first_seen: None,
            last_seen: None,
            records: Ghost(Seq::empty()),
        };
        proof {
            assert(r.models@ =~= models_of(r@));
            assert(r.times.names() =~= timed_sessions(r@));
            assert(day_events(r.events@) =~= events_of(r@));
        }
        r
    }

    /// Records that a session took place.
    pub fn note_session(&mut self, session: &str)
        requires
            old(self).wf(),
        ensures
            final(self).wf(),
            final(self)@ == old(self)@.push(Record::Session(session@)),
    {
        let ghost before = self@;
        self.sessions.insert(session.to_string());
        self.records = Ghost(self.records@.push(Record::Session(session@)));
        proof {
            Self::lemma_push_neutral(before, Record::Session(session@));
        }
    }

    proof fn lemma_push_neutral(before: Seq<Record>, record: Record)
        ensures
            before.push(record).drop_last() == before,
            !(record is Tokens) ==> models_of(before.push(record)) =~= models_of(before),
            !(record is Moment) ==> (forall|s: Seq<char>| #[trigger]
                session_times(before.push(record), s) == session_times(before, s)),
    {
        let all = before.push(record);
        assert(all.drop_last() =~= before);
        if !(record is Tokens) {
            assert forall|m: Seq<char>| #[trigger] has_model(all, m) <==> has_model(before, m) by {
                lemma_has_model_push(before, record, m);
            }
            assert(models_of(all) =~= models_of(before));
        }
    }

    /// Records that something happened at a time, perhaps in a known session.
    pub fn note_moment(&mut self, session: Option<&str>, ts: i64)
        requires
            old(self).wf(),
        ensures
            final(self).wf(),
            final(self)@ == old(self)@.push(Record::Moment(crate::text::str_opt(session), ts)),
    {
        let ghost before = self@;
        let ghost record = Record::Moment(crate::text::str_opt(session), ts);
        self.first_seen = match self.first_seen {
            Some(first) if first <= ts => Some(first),
            _ => Some(ts),
        };
        self.last_seen = match self.last_seen {
            Some(last) if last >= ts => Some(last),
            _ => Some(ts),
        };
        proof {
            self.times.lemma_shape();
            Self::lemma_push_neutral(before, record);
        }
        if let Some(s) = session {
            match self.times.position(s) {
                Some(i) => {
                    self.times.value_mut(i).push(ts);
                },
                None => {
                    let mut list: Vec<i64> = Vec::new();
                    list.push(ts);
                    proof {
                        lemma_no_times(before, s@);
                        assert(list@ =~= session_times(before, s@).push(ts));
                    }
                    self.times.insert(s.to_string(), list);
                },
            }
        }
        self.records = Ghost(self.records@.push(record));
        proof {
            self.times.lemma_shape();
        }
    }

    /// Records that a model spent tokens. Reasoning counts as output.
    pub fn note_tokens(
        &mut self,
        model: &str,
        input: u64,
        output: u64,
        reasoning: u64,
        cache_read: u64,
        cache_write: u64,
    )
        requires
            old(self).wf(),
        ensures
            final(self).wf(),
            final(self)@ == old(self)@.push(
                tokens_record(model@, input, output, reasoning, cache_read, cache_write),
            ),
    {
        let ghost before = self@;
        let ghost record = tokens_record(
            model@,
            input,
            output,
            reasoning,
            cache_read,
            cache_write,
        );
        let ghost all = before.push(record);
        proof {
            Self::lemma_push_neutral(before, record);
            if !has_model(before, model@) {
                lemma_no_model_no_sums(before, model@);
            }
            assert forall|m: Seq<char>| #[trigger] has_model(all, m) <==> has_model(before, m) || m
                == model@ by {
                lemma_has_model_push(before, record, m);
            }
        }
        accumulate_model(
            &mut self.models,
            model,
            input,
            output,
            reasoning,
            cache_read,
            cache_write,
        );
        self.records = Ghost(self.records@.push(record));
        proof {
            assert(self.models@ =~= models_of(all));
        }
    }

    /// Records something that counts on its day.
    pub fn note_event(&mut self, ts: i64, tokens: u64, session: Option<&str>)
        requires
            old(self).wf(),
        ensures
            final(self).wf(),
            final(self)@ == old(self)@.push(event_record(ts, tokens, crate::text::str_opt(session))),
    {
        let ghost before = self@;
        let ghost record = event_record(ts, tokens, crate::text::str_opt(session));
        let name: Option<String> = match session {
            Some(s) => Some(s.to_string()),
            None => None,
        };
        self.events.push((ts, tokens, name));
        self.records = Ghost(self.records@.push(record));
        proof {
            Self::lemma_push_neutral(before, record);
            assert(day_events(self.events@) =~= events_of(before).push(record->Event_0));
        }
    }

    /// Whether no session took place and no model is named.
    pub fn is_bare(&self) -> (r: bool)
        requires
            self.wf(),
        ensures
            r == bare(self@),
    {
        proof {
            lemma_session_set(self@);
            self.models.lemma_shape();
            assert forall|m: Seq<char>| #[trigger]
                has_model(self@, m) <==> self.models@.contains_key(m) by {}
            if session_set(self@).len() == 0 {
                assert(session_set(self@) =~= Set::empty());
            }
            if self.models.names().len() > 0 {
                assert(has_model(self@, self.models.names()[0]));
            }
        }
        self.sessions.len() == 0 && self.models.len() == 0
    }

    /// The events that count on their days.
    pub fn day_events(&self) -> (r: &Vec<(i64, u64, Option<String>)>)
        requires
            self.wf(),
        ensures
            day_events(r@) == events_of(self@),
    {
        &self.events
    }

    fn active_time(&self) -> (r: Hours)
        requires
            self.wf(),
        ensures
            r.seconds == activity(self@),
    {
        let mut total: u128 = 0;
        let mut i: usize = 0;
        let n: usize = self.times.len();
        proof {
            self.times.lemma_shape();
            assert(timed_sessions(self@).take(0) =~= Seq::empty());
        }
        while i < n
            invariant
                self.wf(),
                i <= n,
                n == self.times.names().len(),
                n == timed_sessions(self@).len(),
                total == summed_seconds(self@, timed_sessions(self@).take(i as int)),
                total <= i * 0x1_0000_0000_0000_0000,
            decreases n - i,
        {
            let ghost names = timed_sessions(self@);
            let times = self.times.value(i);
            let sorted = sort_times(times.as_slice());
            let hours = active_hours_from_timestamps(sorted.as_slice(), 1800);
            proof {
                self.times.lemma_shape();
                assert(self.times@.contains_key(self.times.names()[i as int]));
                assert(names.take(i + 1).drop_last() =~= names.take(i as int));
                if sorted@.len() > 0 {
                    law_active_within_span(sorted@, 1800);
                }
                assert(hours.seconds <= 0xffff_ffff_ffff_ffff);
            }
            total = total + hours.seconds;
            i += 1;
        }
        assert(timed_sessions(self@).take(n as int) =~= timed_sessions(self@));
        Hours { seconds: total }
    }

    fn all_tokens(&self) -> (r: TokenUsage)
        requires
            self.wf(),
        ensures
            r == all_sums(self@).usage(),
    {
        let mut total = TokenUsage::default();
        let mut i: usize = 0;
        let n: usize = self.models.len();
        proof {
            self.models.lemma_shape();
        }
        while i < n
            invariant
                self.wf(),
                i <= n,
                n == self.models.names().len(),
                total == summed_models(self@, self.models.names().take(i as int)).usage(),
            decreases n - i,
        {
            let ghost names = self.models.names();
            let ghost so_far = summed_models(self@, names.take(i as int));
            let usage = self.models.value(i);
            proof {
                self.models.lemma_shape();
                assert(self.models@.contains_key(names[i as int]));
                assert(names.take(i + 1).drop_last() =~= names.take(i as int));
                crate::types::law_merge_adds_sums(so_far, model_sums(self@, names[i as int]));
            }
            total.merge(&usage.tokens);
            i += 1;
        }
        proof {
            let names = self.models.names();
            assert(names.take(n as int) =~= names);
            assert forall|m: Seq<char>| has_model(self@, m) implies names.contains(m) by {
                assert(self.models@.contains_key(m));
            }
            law_models_add_up(self@, names);
        }
        total
    }

    /// Closes the account of tokens: the usage of each model, and of all together.
    pub fn into_models(self) -> (r: (StrMap<ModelUsage>, TokenUsage))
        requires
            self.wf(),
        ensures
            r.0.wf(),
            r.0@ == models_of(self@),
            r.1 == all_sums(self@).usage(),
    {
        let total = self.all_tokens();
        (self.models, total)
    }

    /// Closes the account of tokens by model and by day.
    pub fn into_models_and_events(self) -> (r: (StrMap<ModelUsage>, Vec<(i64, u64, Option<String>)>))
        requires
            self.wf(),
        ensures
            r.0.wf(),
            r.0@ == models_of(self@),
            day_events(r.1@) == events_of(self@),
    {
        (self.models, self.events)
    }

    /// Closes the account: what the provider reports of the log, with the usage by the day.
    pub fn report(self, provider: &str, buckets: StrMap<DailyBucket>) -> (r: ProviderResult)
        requires
            self.wf(),
            buckets.wf(),
        ensures
            r.wf(),
            r@ == summary(provider@, self@, buckets@),
    {
        let hours = self.active_time();
        let tokens = self.all_tokens();
        let mut result = ProviderResult::new(provider);
        result.hours = Some(hours);
        result.tokens = Some(tokens);
        proof {
            lemma_session_set(self@);
            self.models.lemma_shape();
            assert forall|m: Seq<char>| #[trigger]
                has_model(self@, m) <==> self.models@.contains_key(m) by {}
            if self.models.names().len() > 0 {
                assert(has_model(self@, self.models.names()[0]));
            }
        }
        result.sessions = Some(self.sessions.len() as u64);
        result.first_seen = self.first_seen;
        result.last_seen = self.last_seen;
        if !self.models.is_empty() {
            result.models = Some(self.models);
        }
        if !buckets.is_empty() {
            result.daily_buckets = Some(buckets);
        }
        result
    }
}

/// Whether some records tell of no session and of no model.
pub open spec fn bare(records: Seq<Record>) -> bool {
    session_set(records) =~= Set::empty() && forall|m: Seq<char>| !has_model(records, m)
}

/// The record of tokens that a model spent. Reasoning counts as output.
pub open spec fn tokens_record(
    model: Seq<char>,
    input: u64,
    output: u64,
    reasoning: u64,
    cache_read: u64,
    cache_write: u64,
) -> Record {
    Record::Tokens(
        model,
        TokenSums {
            input: input as nat,
            output: output as nat + reasoning as nat,
            cache_read: cache_read as nat,
            cache_creation: cache_write as nat,
        },
    )
}

/// The record of something that counts on its day.
pub open spec fn event_record(ts: i64, tokens: u64, session: Option<Seq<char>>) -> Record {
    Record::Event(DayEvent { ts, tokens, session })
}

/// What a turn in a session tells: that the session took place, the tokens that the model spent,
/// and, where the time is known, when and on which day.
pub open spec fn turn_records(
    session: Seq<char>,
    model: Seq<char>,
    input: u64,
    output: u64,
    reasoning: u64,
    cache_read: u64,
    cache_write: u64,
    time: Option<i64>,
) -> Seq<Record> {
    let spent = seq![
        Record::Session(session),
        tokens_record(model, input, output, reasoning, cache_read, cache_write),
    ];
    match time {
        Some(ts) => spent + seq![
            Record::Moment(Some(session), ts),
            event_record(ts, crate::types::capped(input + output + reasoning), Some(session)),
        ],
        None => spent,
    }
}

/// A turn tells four things of its session: that it took place, the tokens of the model with
/// reasoning as output, and, where the time is known, the moment and the day, on which input and
/// output count and the cache does not.
pub proof fn law_turn_tells_all(
    session: Seq<char>,
    model: Seq<char>,
    input: u64,
    output: u64,
    reasoning: u64,
    cache_read: u64,
    cache_write: u64,
    time: Option<i64>,
)
    ensures
        ({
            let told = turn_records(
                session,
                model,
                input,
                output,
                reasoning,
                cache_read,
                cache_write,
                time,
            );
            let day = input + output + reasoning;
            &&& told.len() >= 2
            &&& told[0] == Record::Session(session)
            &&& told[1] == Record::Tokens(
                model,
                TokenSums {
                    input: input as nat,
                    output: (output + reasoning) as nat,
                    cache_read: cache_read as nat,
                    cache_creation: cache_write as nat,
                },
            )
            &&& time is None ==> told.len() == 2
            &&& time matches Some(ts) ==> told.len() == 4 && told[2] == Record::Moment(
                Some(session),
                ts,
            ) && told[3] is Event && told[3]->Event_0.ts == ts && told[3]->Event_0.session == Some(
                session,
            ) && told[3]->Event_0.tokens == if day <= u64::MAX {
                day
            } else {
                u64::MAX as int
            }
        }),
{
}

/// A turn is reported: it adds exactly its tokens to all tokens and to those of its model, and nothing
/// to another model. Its session took place, and its time is among those of the session.
pub proof fn law_turn_is_reported(
    provider: Seq<char>,
    records: Seq<Record>,
    session: Seq<char>,
    model: Seq<char>,
    input: u64,
    output: u64,
    reasoning: u64,
    cache_read: u64,
    cache_write: u64,
    time: Option<i64>,
    other: Seq<char>,
    days: Map<Seq<char>, DailyBucket>,
    more_days: Map<Seq<char>, DailyBucket>,
)
    requires
        other != model,
    ensures
        ({
            let told = records + turn_records(
                session,
                model,
                input,
                output,
                reasoning,
                cache_read,
                cache_write,
                time,
            );
            let before = summary(provider, records, days);
            let after = summary(provider, told, more_days);
            let spent = TokenSums {
                input: input as nat,
                output: (output + reasoning) as nat,
                cache_read: cache_read as nat,
                cache_creation: cache_write as nat,
            }.usage();
            &&& after.tokens == used_together(before.tokens, Some(spent))
            &&& used(after, model) == used_together(used(before, model), Some(spent))
            &&& used(after, other) == used(before, other)
            &&& after.first_seen == least(before.first_seen, time)
            &&& after.last_seen == most(before.last_seen, time)
            &&& told.contains(Record::Session(session))
            &&& time matches Some(ts) ==> times_in(told, session).contains(ts)
        }),
{
    let more = turn_records(
        session,
        model,
        input,
        output,
        reasoning,
        cache_read,
        cache_write,
        time,
    );
    let told = records + more;
    lemma_one_tokens(more, 1);
    lemma_report_grows(provider, records, more, model, days, more_days);
    lemma_report_grows(provider, records, more, other, days, more_days);
    lemma_turn_time(
        session,
        model,
        input,
        output,
        reasoning,
        cache_read,
        cache_write,
        time,
    );
    assert(told[records.len() as int] == Record::Session(session));
    if let Some(ts) = time {
        lemma_records_join(records, more, session);
        lemma_times_in(told, session);
        assert(session_times(told, session)[session_times(records, session).len() as int] == ts);
    }
}

proof fn lemma_turn_time(
    session: Seq<char>,
    model: Seq<char>,
    input: u64,
    output: u64,
    reasoning: u64,
    cache_read: u64,
    cache_write: u64,
    time: Option<i64>,
)
    ensures
        ({
            let more = turn_records(
                session,
                model,
                input,
                output,
                reasoning,
                cache_read,
                cache_write,
                time,
            );
            &&& earliest(more) == time
            &&& latest(more) == time
            &&& time matches Some(ts) ==> session_times(more, session) == seq![ts]
        }),
{
    let more = turn_records(
        session,
        model,
        input,
        output,
        reasoning,
        cache_read,
        cache_write,
        time,
    );
    let spent = more.take(2);
    assert(spent.drop_last().drop_last() =~= Seq::empty());
    assert(spent.last() is Tokens && spent.drop_last().last() is Session);
    reveal_with_fuel(earliest, 3);
    reveal_with_fuel(latest, 3);
    reveal_with_fuel(session_times, 3);
    assert(earliest(spent) is None && latest(spent) is None);
    assert(session_times(spent, session) =~= Seq::empty());
    if let Some(ts) = time {
        assert(more.drop_last().drop_last() =~= spent);
        assert(more.drop_last().last() == Record::Moment(Some(session), ts));
        assert(more.last() is Event);
        assert(session_times(more, session) =~= seq![ts]);
    } else {
        assert(more =~= spent);
    }
}

/// Records a turn in a session.
pub(crate) fn note_turn(
    ledger: &mut Ledger,
    session: &str,
    model: &str,
    input: u64,
    output: u64,
    reasoning: u64,
    cache_read: u64,
    cache_write: u64,
    time: Option<i64>,
)
    requires
        old(ledger).wf(),
    ensures
        final(ledger).wf(),
        final(ledger)@ == old(ledger)@ + turn_records(
            session@,
            model@,
            input,
            output,
            reasoning,
            cache_read,
            cache_write,
            time,
        ),
{
    let ghost before = ledger@;
    ledger.note_session(session);
    ledger.note_tokens(model, input, output, reasoning, cache_read, cache_write);
    if let Some(ts) = time {
        ledger.note_moment(Some(session), ts);
        ledger.note_event(
            ts,
            input.saturating_add(output).saturating_add(reasoning),
            Some(session),
        );
    }
    assert(ledger@ =~= before + turn_records(
        session@,
        model@,
        input,
        output,
        reasoning,
        cache_read,
        cache_write,
        time,
    ));
}

/// The tokens that a map of models has under a model; none where it has not the model.
pub open spec fn tokens_under(models: Map<Seq<char>, ModelUsage>, model: Seq<char>) -> ModelUsage {
    if models.contains_key(model) {
        models[model]
    } else {
        ModelUsage::of_tokens(TokenSums::zero().usage())
    }
}

/// Adds tokens to those of a model, which joins the map if it was not there. Reasoning counts
/// as output.
pub(crate) fn accumulate_model(
    models: &mut StrMap<ModelUsage>,
    model: &str,
    input: u64,
    output: u64,
    reasoning: u64,
    cache_read: u64,
    cache_write: u64,
)
    requires
        old(models).wf(),
    ensures
        final(models).wf(),
        final(models)@ == old(models)@.insert(
            model@,
            ModelUsage {
                tokens: tokens_under(old(models)@, model@).tokens.sums().plus(
                    tokens_record(
                        model@,
                        input,
                        output,
                        reasoning,
                        cache_read,
                        cache_write,
                    )->Tokens_1,
                ).usage(),
                ..tokens_under(old(models)@, model@)
            },
        ),
{
    let mut usage = match models.get(model) {
        Some(known) => *known,
        None => ModelUsage::default(),
    };
    usage.tokens.input_tokens = usage.tokens.input_tokens.saturating_add(input);
    usage.tokens.output_tokens = usage.tokens.output_tokens.saturating_add(
        output.saturating_add(reasoning),
    );
    usage.tokens.cache_read_tokens = usage.tokens.cache_read_tokens.saturating_add(cache_read);
    usage.tokens.cache_creation_tokens = usage.tokens.cache_creation_tokens.saturating_add(
        cache_write,
    );
    usage.tokens.compute_total();
    models.insert(model.to_string(), usage);
}

} // verus!
