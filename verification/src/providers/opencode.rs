//! OpenCode: a database of messages, or one JSON file a message in older versions.

use crate::collections::StrMap;
use crate::json::{json_document, parse_json, Json, JsonTree};
use crate::ledger::{
    all_sums, bare, event_record, events_of, has_model, lemma_no_tokens, lemma_one_tokens,
    lemma_records_join, model_sums, summary, tokens_record, Ledger, Record,
};
use crate::logs::{document_views, name_or, name_or_else, DocumentFile, DocumentView};
use crate::text::same;
use crate::time_util::{bucket_days, bucket_map, day_events, either, DayEvent};
use crate::types::{capped, DailyBucket, ProviderReport, ProviderResult, ScanError, TokenSums};
use vstd::hash_set::StringHashSet;
use vstd::prelude::*;

verus! {

pub struct OpenCodeProvider;

/// Seconds of a time in milliseconds. Old entries may be in seconds already: a number that
/// would be in the first months of 1970 is taken for seconds.
pub open spec fn to_secs(ms: i64) -> i64 {
    if ms > 10_000_000_000 {
        (ms / 1000) as i64
    } else {
        ms
    }
}

/// Seconds of a time in milliseconds. Old entries may be in seconds already: a number that
/// would be in the first months of 1970 is taken for seconds.
pub(crate) fn ms_to_secs(ms: i64) -> (r: i64)
    ensures
        r == to_secs(ms),
{
    if ms > 10_000_000_000 {
        ms / 1000
    } else {
        ms
    }
}

/// Usage by the day, without hours, whatever the dates.
pub(crate) fn build_daily_buckets(rows: &[(i64, u64, Option<String>)]) -> (r: StrMap<DailyBucket>)
    ensures
        r.wf(),
        r@ == bucket_map(day_events(rows@), i64::MIN, false),
{
    bucket_days(rows, i64::MIN, false)
}

/// What a provider reports of a log when its days have no hours.
pub open spec fn plain_report(provider: Seq<char>, records: Seq<Record>) -> ProviderReport {
    summary(provider, records, bucket_map(events_of(records), i64::MIN, false))
}

/// A report where the log tells of a session or a model, else that nothing was found.
pub open spec fn is_plain_result(
    r: Result<ProviderResult, ScanError>,
    provider: Seq<char>,
    records: Seq<Record>,
    missing: Seq<char>,
) -> bool {
    match r {
        Ok(result) => !bare(records) && result.wf() && result@ == plain_report(provider, records),
        Err(error) => bare(records) && error.is_not_found(missing),
    }
}

/// Something is reported exactly where a log tells of a session or of tokens, and then it is the
/// account of all its records, with days of all dates. Else it is said that nothing was found.
pub proof fn law_plain_result(
    r: Result<ProviderResult, ScanError>,
    provider: Seq<char>,
    records: Seq<Record>,
    missing: Seq<char>,
)
    requires
        is_plain_result(r, provider, records, missing),
    ensures
        r is Ok <==> exists|i: int|
            0 <= i < records.len() && (#[trigger] records[i] is Session || records[i] is Tokens),
        r matches Ok(result) ==> result@ == summary(
            provider,
            records,
            bucket_map(events_of(records), i64::MIN, false),
        ),
        r matches Err(error) ==> error.is_not_found(missing),
{
    crate::ledger::lemma_session_set(records);
    if exists|i: int|
        0 <= i < records.len() && (#[trigger] records[i] is Session || records[i] is Tokens) {
        let i = choose|i: int|
            0 <= i < records.len() && (#[trigger] records[i] is Session || records[i] is Tokens);
        match records[i] {
            Record::Session(s) => {
                assert(records.contains(Record::Session(s)));
                assert(crate::ledger::session_set(records).contains(s));
            },
            Record::Tokens(m, _) => {
                assert(crate::ledger::names_model(records[i], m));
                assert(crate::ledger::has_model(records, m));
            },
            _ => {},
        }
    } else {
        assert(crate::ledger::session_set(records) =~= Set::empty()) by {
            assert forall|s: Seq<char>| !crate::ledger::session_set(records).contains(s) by {
                if records.contains(Record::Session(s)) {
                    let i = records.index_of(Record::Session(s));
                    assert(records[i] is Session);
                }
            }
        }
        assert forall|m: Seq<char>| !crate::ledger::has_model(records, m) by {
            if crate::ledger::has_model(records, m) {
                let i = choose|i: int|
                    0 <= i < records.len() && crate::ledger::names_model(#[trigger] records[i], m);
                assert(records[i] is Tokens);
            }
        }
    }
}

/// Closes the account of a provider whose days have no hours.
pub(crate) fn close_account(ledger: Ledger, provider: &str, missing: &str) -> (r: Result<
    ProviderResult,
    ScanError,
>)
    requires
        ledger.wf(),
    ensures
        is_plain_result(r, provider@, ledger@, missing@),
{
    if ledger.is_bare() {
        return Err(ScanError::NotFound(missing.to_string()));
    }
    let buckets = build_daily_buckets(ledger.day_events().as_slice());
    Ok(ledger.report(provider, buckets))
}

/// A time of a message, in seconds.
pub open spec fn secs_at(v: JsonTree, key: Seq<char>) -> Option<i64> {
    match v.get_in("time"@, key) {
        Some(x) => match x.signed() {
            Some(ms) => Some(to_secs(ms)),
            None => None,
        },
        None => None,
    }
}

/// What a time tells of a session.
pub open spec fn moment(session: Seq<char>, time: Option<i64>) -> Seq<Record> {
    match time {
        Some(ts) => seq![Record::Moment(Some(session), ts)],
        None => Seq::empty(),
    }
}

/// The time of a message: when it was made, completed or updated, the first that is known.
pub open spec fn message_time(v: JsonTree) -> Option<i64> {
    either(secs_at(v, "created"@), either(secs_at(v, "completed"@), secs_at(v, "updated"@)))
}

/// The token counts of a message.
pub open spec fn message_tokens(v: JsonTree) -> Option<JsonTree> {
    match v.get("tokens"@) {
        Some(t) => Some(t),
        None => match v.get_in("metadata"@, "assistant"@) {
            Some(a) => a.get("tokens"@),
            None => None,
        },
    }
}

/// A count below the key `cache`.
pub open spec fn cache_count(t: JsonTree, key: Seq<char>) -> u64 {
    match t.get("cache"@) {
        Some(c) => c.count_at(key),
        None => 0,
    }
}

/// The model of a message.
pub open spec fn message_model(v: JsonTree) -> Seq<char> {
    match v.get_either("modelID"@, "model"@) {
        Some(m) => match m.text() {
            Some(s) => s,
            None => "unknown"@,
        },
        None => "unknown"@,
    }
}

/// What the token counts of a message tell.
pub open spec fn usage_records(v: JsonTree, session: Seq<char>, t: JsonTree) -> Seq<Record> {
    let input = t.count_at("input"@);
    let output = t.count_at("output"@);
    let reasoning = t.count_at("reasoning"@);
    let tokens = tokens_record(
        message_model(v),
        input,
        output,
        reasoning,
        cache_count(t, "read"@),
        cache_count(t, "write"@),
    );
    match message_time(v) {
        Some(ts) => seq![
            tokens,
            event_record(ts, capped(input + output + reasoning), Some(session)),
        ],
        None => seq![tokens],
    }
}

/// What the session and the times of a message tell.
pub open spec fn time_records(v: JsonTree, session: Seq<char>) -> Seq<Record> {
    seq![Record::Session(session)] + moment(session, secs_at(v, "created"@)) + moment(
        session,
        secs_at(v, "completed"@),
    ) + moment(session, secs_at(v, "updated"@))
}

/// What a message of the assistant tells.
pub open spec fn assistant_records(v: JsonTree, session: Seq<char>) -> Seq<Record> {
    time_records(v, session) + match message_tokens(v) {
        Some(t) => usage_records(v, session, t),
        None => Seq::empty(),
    }
}

/// One row of the database of messages.
pub struct MessageRow {
    pub id: String,
    pub session_id: String,
    pub data: String,
}

/// What a row says.
#[verifier::ext_equal]
pub ghost struct MessageView {
    pub id: Seq<char>,
    pub session_id: Seq<char>,
    pub data: Seq<char>,
}

impl View for MessageRow {
    type V = MessageView;

    open spec fn view(&self) -> MessageView {
        MessageView { id: self.id@, session_id: self.session_id@, data: self.data@ }
    }
}

/// What some rows say.
pub open spec fn message_views(rows: Seq<MessageRow>) -> Seq<MessageView> {
    rows.map_values(|r: MessageRow| r@)
}

/// Every row is read, in order and as it is.
pub proof fn law_every_row_is_read(rows: Seq<MessageRow>, i: int)
    requires
        0 <= i < rows.len(),
    ensures
        message_views(rows).len() == rows.len(),
        message_views(rows)[i].id == rows[i].id@,
        message_views(rows)[i].session_id == rows[i].session_id@,
        message_views(rows)[i].data == rows[i].data@,
{
}

/// What has been read so far: the records, and the messages that have been counted.
#[verifier::ext_equal]
pub ghost struct Reading {
    pub records: Seq<Record>,
    pub seen: Set<Seq<char>>,
}

/// The id of the message in a row.
pub open spec fn row_key(row: MessageView, v: JsonTree) -> Seq<char> {
    v.text_or("id"@, row.id)
}

/// The session of the message in a row: the one it names, if that is not empty.
pub open spec fn row_session(row: MessageView, v: JsonTree) -> Seq<char> {
    match v.text_at("sessionID"@) {
        Some(s) if s.len() > 0 => s,
        _ => row.session_id,
    }
}

/// Reads one row of the database.
pub open spec fn read_row(state: Reading, row: MessageView) -> Reading {
    match json_document(row.data) {
        Some(v) => if state.seen.contains(row_key(row, v)) {
            state
        } else {
            Reading {
                records: state.records + assistant_records(v, row_session(row, v)),
                seen: state.seen.insert(row_key(row, v)),
            }
        },
        None => state,
    }
}

/// Reads some rows.
pub open spec fn read_rows(state: Reading, rows: Seq<MessageView>) -> Reading
    decreases rows.len(),
{
    if rows.len() == 0 {
        state
    } else {
        read_row(read_rows(state, rows.drop_last()), rows.last())
    }
}

/// What a file about a session tells.
pub open spec fn info_records(file: DocumentView) -> Seq<Record> {
    match json_document(file.content) {
        Some(v) => match either(v.text_at("id"@), file.stem) {
            Some(id) => seq![Record::Session(id)] + moment(id, secs_at(v, "created"@)) + moment(
                id,
                secs_at(v, "updated"@),
            ),
            None => Seq::empty(),
        },
        None => Seq::empty(),
    }
}

/// Reads some files about sessions.
pub open spec fn read_infos(state: Reading, files: Seq<DocumentView>) -> Reading
    decreases files.len(),
{
    if files.len() == 0 {
        state
    } else {
        let before = read_infos(state, files.drop_last());
        Reading { records: before.records + info_records(files.last()), ..before }
    }
}

/// The id of the message in a file; empty where there is none.
pub open spec fn file_key(file: DocumentView, v: JsonTree) -> Seq<char> {
    name_or(either(v.text_at("id"@), file.stem), ""@)
}

/// The session of the message in a file.
pub open spec fn file_session(file: DocumentView, v: JsonTree) -> Seq<char> {
    name_or(either(v.text_at("sessionID"@), file.parent), "unknown"@)
}

/// What the message in a file tells. One that is not the assistant's tells when it was made.
pub open spec fn file_records(file: DocumentView, v: JsonTree) -> Seq<Record> {
    let session = file_session(file, v);
    if v.text_or("role"@, ""@) == "assistant"@ {
        assistant_records(v, session)
    } else {
        match secs_at(v, "created"@) {
            Some(ts) => seq![Record::Session(session), Record::Moment(Some(session), ts)],
            None => Seq::empty(),
        }
    }
}

/// Reads the file of one message.
pub open spec fn read_message(state: Reading, file: DocumentView) -> Reading {
    match json_document(file.content) {
        Some(v) => {
            let key = file_key(file, v);
            if key.len() > 0 && state.seen.contains(key) {
                state
            } else {
                Reading {
                    records: state.records + file_records(file, v),
                    seen: if key.len() > 0 {
                        state.seen.insert(key)
                    } else {
                        state.seen
                    },
                }
            }
        },
        None => state,
    }
}

/// Reads the files of some messages.
pub open spec fn read_messages(state: Reading, files: Seq<DocumentView>) -> Reading
    decreases files.len(),
{
    if files.len() == 0 {
        state
    } else {
        read_message(read_messages(state, files.drop_last()), files.last())
    }
}

/// A data directory of an older version.
pub struct DataDir {
    /// The files about sessions.
    pub infos: Vec<DocumentFile>,
    /// The files of messages.
    pub messages: Vec<DocumentFile>,
}

/// Reads some databases, one after the other.
pub open spec fn read_databases(databases: Seq<Vec<MessageRow>>) -> Reading
    decreases databases.len(),
{
    if databases.len() == 0 {
        Reading { records: Seq::empty(), seen: Set::empty() }
    } else {
        read_rows(
            read_databases(databases.drop_last()),
            message_views(databases.last()@),
        )
    }
}

/// Reads some data directories after what has been read.
pub open spec fn read_dirs(state: Reading, dirs: Seq<DataDir>) -> Reading
    decreases dirs.len(),
{
    if dirs.len() == 0 {
        state
    } else {
        let before = read_dirs(state, dirs.drop_last());
        read_messages(
            read_infos(before, document_views(dirs.last().infos@)),
            document_views(dirs.last().messages@),
        )
    }
}

/// A message that has been counted is not counted again, be it in a database or in a file.
pub proof fn law_message_counts_once(state: Reading, file: DocumentView, v: JsonTree)
    requires
        json_document(file.content) == Some(v),
        file_key(file, v).len() > 0,
    ensures
        read_message(read_message(state, file), file) == read_message(state, file),
        state.seen.contains(file_key(file, v)) ==> read_message(state, file) == state,
{
}

/// A row whose message has been counted tells nothing more.
pub proof fn law_row_counts_once(state: Reading, row: MessageView)
    ensures
        read_row(read_row(state, row), row) == read_row(state, row),
{
}

/// A time under `time`: in milliseconds, or in seconds where it is at most 10^10.
pub open spec fn stamped_at(v: JsonTree, key: Seq<char>) -> Option<i64> {
    match v.get_in("time"@, key) {
        Some(JsonTree::Number(n)) => match n.signed {
            Some(x) => if x > 10_000_000_000 {
                Some((x / 1000) as i64)
            } else {
                Some(x)
            },
            None => None,
        },
        _ => None,
    }
}

/// The first of some times that is known.
pub open spec fn first_known(a: Option<i64>, b: Option<i64>, c: Option<i64>) -> Option<i64> {
    if a is Some {
        a
    } else if b is Some {
        b
    } else {
        c
    }
}

/// A message of the assistant tells that its session took place, and the times when it was made,
/// completed and updated. Its token counts stand under `tokens`, or else in the metadata of the
/// assistant: they go to its model, with reasoning as output, and count on the day of its first known
/// time, without the cache.
pub proof fn law_message_tells_its_tokens(
    v: JsonTree,
    session: Seq<char>,
    t: JsonTree,
    other: Seq<char>,
)
    requires
        v.get("tokens"@) == Some(t) || (v.get("tokens"@) is None && v.get_in(
            "metadata"@,
            "assistant"@,
        ) is Some && v.get_in("metadata"@, "assistant"@)->0.get("tokens"@) == Some(t)),
    ensures
        ({
            let told = assistant_records(v, session);
            let input = t.count_at("input"@);
            let output = t.count_at("output"@);
            let reasoning = t.count_at("reasoning"@);
            let day = input + output + reasoning;
            let model = match v.get_either("modelID"@, "model"@) {
                Some(JsonTree::Text(m)) => m,
                _ => "unknown"@,
            };
            let sums = TokenSums {
                input: input as nat,
                output: (output + reasoning) as nat,
                cache_read: (match t.get("cache"@) {
                    Some(c) => c.count_at("read"@),
                    None => 0,
                }) as nat,
                cache_creation: (match t.get("cache"@) {
                    Some(c) => c.count_at("write"@),
                    None => 0,
                }) as nat,
            };
            let time = first_known(
                stamped_at(v, "created"@),
                stamped_at(v, "completed"@),
                stamped_at(v, "updated"@),
            );
            &&& all_sums(told) == sums
            &&& model_sums(told, model) == sums
            &&& has_model(told, other) <==> other == model
            &&& events_of(told) == match time {
                Some(ts) => seq![
                    DayEvent {
                        ts,
                        tokens: if day <= u64::MAX {
                            day as u64
                        } else {
                            u64::MAX
                        },
                        session: Some(session),
                    },
                ],
                None => Seq::empty(),
            }
        }),
{
    let told = assistant_records(v, session);
    let times = time_records(v, session);
    let usage = usage_records(v, session, t);
    assert(message_tokens(v) == Some(t));
    assert(told == times + usage);
    lemma_one_tokens(usage, 0);
    assert forall|i: int| 0 <= i < times.len() implies !(#[trigger] times[i] is Tokens) by {
        lemma_times_only(v, session);
    }
    lemma_no_tokens(times);
    let model = message_model(v);
    lemma_records_join(times, usage, model);
    lemma_records_join(times, usage, other);
    lemma_times_only(v, session);
    reveal_with_fuel(events_of, 3);
    assert(events_of(times) + events_of(usage) =~= events_of(usage));
    let expected = match message_time(v) {
        Some(ts) => seq![
            DayEvent {
                ts,
                tokens: capped(t.count_at("input"@) + t.count_at("output"@) + t.count_at("reasoning"@)),
                session: Some(session),
            },
        ],
        None => Seq::empty(),
    };
    assert(events_of(usage) =~= expected);
    assert(TokenSums::zero().plus(all_sums(usage)) == all_sums(usage));
    assert(model_sums(times, model) == TokenSums::zero());
}

proof fn lemma_times_only(v: JsonTree, session: Seq<char>)
    ensures
        forall|i: int|
            0 <= i < time_records(v, session).len() ==> (#[trigger] time_records(v, session)[i]
                == Record::Session(session) || time_records(v, session)[i] is Moment),
        events_of(time_records(v, session)) == Seq::<DayEvent>::empty(),
{
    let a = moment(session, secs_at(v, "created"@));
    let b = moment(session, secs_at(v, "completed"@));
    let c = moment(session, secs_at(v, "updated"@));
    let start = seq![Record::Session(session)];
    lemma_records_join(start, a, session);
    lemma_records_join(start + a, b, session);
    lemma_records_join(start + a + b, c, session);
    reveal_with_fuel(events_of, 2);
    assert(start.drop_last() =~= Seq::empty());
    assert(a.len() > 0 ==> a.drop_last() =~= Seq::empty());
    assert(b.len() > 0 ==> b.drop_last() =~= Seq::empty());
    assert(c.len() > 0 ==> c.drop_last() =~= Seq::empty());
    assert(events_of(start) =~= Seq::empty());
    assert(events_of(a) =~= Seq::empty());
    assert(events_of(b) =~= Seq::empty());
    assert(events_of(c) =~= Seq::empty());
    assert(events_of(time_records(v, session)) =~= Seq::empty());
}

/// A message of the assistant is of its session at every time that it tells, and a message without
/// token counts tells no tokens.
pub proof fn law_message_tells_its_times(v: JsonTree, session: Seq<char>)
    ensures
        ({
            let told = assistant_records(v, session);
            let one = |yes: bool|
                if yes {
                    1int
                } else {
                    0
                };
            let times = one(stamped_at(v, "created"@) is Some) + one(
                stamped_at(v, "completed"@) is Some,
            ) + one(stamped_at(v, "updated"@) is Some);
            let counted = v.get("tokens"@) is Some || (v.get_in("metadata"@, "assistant"@) is Some
                && v.get_in("metadata"@, "assistant"@)->0.get("tokens"@) is Some);
            &&& told.len() == 1 + times + one(counted) + one(counted && times > 0)
            &&& told.len() > 0 && told[0] == Record::Session(session)
            &&& stamped_at(v, "created"@) matches Some(ts) ==> told.contains(
                Record::Moment(Some(session), ts),
            )
            &&& stamped_at(v, "completed"@) matches Some(ts) ==> told.contains(
                Record::Moment(Some(session), ts),
            )
            &&& stamped_at(v, "updated"@) matches Some(ts) ==> told.contains(
                Record::Moment(Some(session), ts),
            )
            &&& v.get("tokens"@) is None && (v.get_in("metadata"@, "assistant"@) is None || v.get_in(
                "metadata"@,
                "assistant"@,
            )->0.get("tokens"@) is None) ==> all_sums(told) == TokenSums::zero() && events_of(
                told,
            ).len() == 0
        }),
{
    let told = assistant_records(v, session);
    let a = moment(session, secs_at(v, "created"@));
    let b = moment(session, secs_at(v, "completed"@));
    let c = moment(session, secs_at(v, "updated"@));
    lemma_times_only(v, session);
    if a.len() > 0 {
        assert(told[1] == a[0]);
    }
    if b.len() > 0 {
        assert(told[(1 + a.len()) as int] == b[0]);
    }
    if c.len() > 0 {
        assert(told[(1 + a.len() + b.len()) as int] == c[0]);
    }
    if message_tokens(v) is None {
        assert(told =~= time_records(v, session));
        lemma_no_tokens(told);
    }
}

/// The id of the message in a row: the one it carries, or else that of the row.
pub open spec fn id_in_row(row: MessageView) -> Option<Seq<char>> {
    match json_document(row.data) {
        Some(v) => match v.text_at("id"@) {
            Some(id) => Some(id),
            None => Some(row.id),
        },
        None => None,
    }
}

proof fn lemma_seen_rows(state: Reading, rows: Seq<MessageView>, id: Seq<char>)
    ensures
        read_rows(state, rows).seen.contains(id) <==> state.seen.contains(id) || exists|i: int|
            0 <= i < rows.len() && id_in_row(#[trigger] rows[i]) == Some(id),
    decreases rows.len(),
{
    if rows.len() > 0 {
        let before = rows.drop_last();
        lemma_seen_rows(state, before, id);
        if exists|i: int| 0 <= i < before.len() && id_in_row(#[trigger] before[i]) == Some(id) {
            let i = choose|i: int|
                0 <= i < before.len() && id_in_row(#[trigger] before[i]) == Some(id);
            assert(id_in_row(rows[i]) == Some(id));
        }
        if exists|i: int| 0 <= i < rows.len() && id_in_row(#[trigger] rows[i]) == Some(id) {
            let i = choose|i: int| 0 <= i < rows.len() && id_in_row(#[trigger] rows[i]) == Some(id);
            if i < before.len() {
                assert(id_in_row(before[i]) == Some(id));
            }
        }
        if id_in_row(rows.last()) == Some(id) {
            assert(id_in_row(rows[rows.len() - 1]) == Some(id));
        }
    }
}

/// Every message in a database counts once: one more row adds what its message tells of the session that
/// it names, or else of that of the row, unless a message with the same id came before it, here or in
/// an earlier database. A row that is no JSON adds nothing.
pub proof fn law_every_row_counts(state: Reading, rows: Seq<MessageView>, row: MessageView)
    ensures
        ({
            let before = read_rows(state, rows);
            let after = read_rows(state, rows.push(row));
            let v = json_document(row.data)->0;
            let id = id_in_row(row);
            let session = match v.text_at("sessionID"@) {
                Some(s) => if s.len() > 0 {
                    s
                } else {
                    row.session_id
                },
                None => row.session_id,
            };
            let repeated = id is Some && (state.seen.contains(id->0) || exists|i: int|
                0 <= i < rows.len() && id_in_row(#[trigger] rows[i]) == id);
            &&& id is Some && !repeated ==> after.records == before.records + assistant_records(
                v,
                session,
            )
            &&& id is None || repeated ==> after == before
            &&& id is Some ==> after.seen.contains(id->0)
        }),
{
    assert(rows.push(row).drop_last() =~= rows);
    if let Some(id) = id_in_row(row) {
        lemma_seen_rows(state, rows, id);
    }
}

/// The id of the message in a file: the one it carries, or else the name of the file.
pub open spec fn id_in_file(file: DocumentView) -> Option<Seq<char>> {
    match json_document(file.content) {
        Some(v) => match v.text_at("id"@) {
            Some(id) => if id.len() > 0 {
                Some(id)
            } else {
                None
            },
            None => match file.stem {
                Some(stem) => if stem.len() > 0 {
                    Some(stem)
                } else {
                    None
                },
                None => None,
            },
        },
        None => None,
    }
}

proof fn lemma_seen_files(state: Reading, files: Seq<DocumentView>, id: Seq<char>)
    ensures
        read_messages(state, files).seen.contains(id) <==> state.seen.contains(id) || exists|i: int|
            0 <= i < files.len() && id_in_file(#[trigger] files[i]) == Some(id),
    decreases files.len(),
{
    if files.len() > 0 {
        let before = files.drop_last();
        reveal_strlit("");
        lemma_seen_files(state, before, id);
        if exists|i: int| 0 <= i < before.len() && id_in_file(#[trigger] before[i]) == Some(id) {
            let i = choose|i: int|
                0 <= i < before.len() && id_in_file(#[trigger] before[i]) == Some(id);
            assert(id_in_file(files[i]) == Some(id));
        }
        if exists|i: int| 0 <= i < files.len() && id_in_file(#[trigger] files[i]) == Some(id) {
            let i = choose|i: int|
                0 <= i < files.len() && id_in_file(#[trigger] files[i]) == Some(id);
            if i < before.len() {
                assert(id_in_file(before[i]) == Some(id));
            }
        }
        if id_in_file(files.last()) == Some(id) {
            assert(id_in_file(files[files.len() - 1]) == Some(id));
        }
    }
}

/// Every message in a file counts once: one more file adds what its message tells, unless one with the
/// same id came before it, in a file or in a database. A message that is not the assistant's tells
/// when it was made. One without an id counts always.
pub proof fn law_every_file_counts(state: Reading, files: Seq<DocumentView>, file: DocumentView)
    ensures
        ({
            let before = read_messages(state, files);
            let after = read_messages(state, files.push(file));
            let v = json_document(file.content)->0;
            let id = id_in_file(file);
            let session = match v.text_at("sessionID"@) {
                Some(s) => s,
                None => name_or(file.parent, "unknown"@),
            };
            let repeated = id is Some && (state.seen.contains(id->0) || exists|i: int|
                0 <= i < files.len() && id_in_file(#[trigger] files[i]) == id);
            let read = json_document(file.content) is Some && !repeated;
            &&& read && v.text_at("role"@) == Some("assistant"@) ==> after.records
                == before.records + assistant_records(v, session)
            &&& read && v.text_at("role"@) != Some("assistant"@) ==> after.records
                == before.records + match stamped_at(v, "created"@) {
                Some(ts) => seq![Record::Session(session), Record::Moment(Some(session), ts)],
                None => Seq::empty(),
            }
            &&& !read ==> after == before
        }),
{
    assert(files.push(file).drop_last() =~= files);
    reveal_strlit("");
    reveal_strlit("assistant");
    assert(""@.len() != "assistant"@.len());
    if let Some(id) = id_in_file(file) {
        lemma_seen_files(state, files, id);
    }
}

/// A file about a session tells that the session took place, and when it was made and updated. Its id
/// is the one it carries, or else the name of the file.
pub proof fn law_info_tells_its_session(state: Reading, files: Seq<DocumentView>, file: DocumentView)
    ensures
        ({
            let before = read_infos(state, files);
            let after = read_infos(state, files.push(file));
            let v = json_document(file.content)->0;
            let id = match v.text_at("id"@) {
                Some(id) => Some(id),
                None => file.stem,
            };
            &&& after.seen == before.seen
            &&& json_document(file.content) is None || id is None ==> after.records
                == before.records
            &&& json_document(file.content) is Some && id is Some ==> {
                &&& after.records.len() == before.records.len() + 1 + (if stamped_at(
                    v,
                    "created"@,
                ) is Some {
                    1int
                } else {
                    0
                }) + (if stamped_at(v, "updated"@) is Some {
                    1int
                } else {
                    0
                })
                &&& after.records.take(before.records.len() as int) == before.records
                &&& after.records[before.records.len() as int] == Record::Session(id->0)
                &&& stamped_at(v, "created"@) matches Some(ts) ==> after.records.contains(
                    Record::Moment(id, ts),
                )
                &&& stamped_at(v, "updated"@) matches Some(ts) ==> after.records.contains(
                    Record::Moment(id, ts),
                )
                &&& all_sums(after.records) == all_sums(before.records)
            }
        }),
{
    assert(files.push(file).drop_last() =~= files);
    let before = read_infos(state, files).records;
    let after = read_infos(state, files.push(file)).records;
    let more = info_records(file);
    assert(before + Seq::<Record>::empty() =~= before);
    if json_document(file.content) is Some {
        let v = json_document(file.content)->0;
        if let Some(id) = either(v.text_at("id"@), file.stem) {
            let n = before.len() as int;
            let a = moment(id, secs_at(v, "created"@));
            let b = moment(id, secs_at(v, "updated"@));
            assert(after.take(n) =~= before);
            assert(after[n] == more[0]);
            if a.len() > 0 {
                assert(after[n + 1] == a[0]);
            }
            if b.len() > 0 {
                assert(after[n + 1 + a.len()] == b[0]);
            }
            assert forall|i: int| 0 <= i < more.len() implies !(#[trigger] more[i] is Tokens) by {}
            crate::ledger::lemma_free_records(before, more);
        }
    }
}

/// All databases are read, one after the other, then all directories, of each what tells of sessions
/// before the messages. What was counted stays counted.
pub proof fn law_sources_are_read_in_order(
    databases: Seq<Vec<MessageRow>>,
    database: Vec<MessageRow>,
    state: Reading,
    dirs: Seq<DataDir>,
    dir: DataDir,
)
    ensures
        read_databases(databases.push(database)) == read_rows(
            read_databases(databases),
            message_views(database@),
        ),
        read_databases(Seq::empty()) == (Reading { records: Seq::empty(), seen: Set::empty() }),
        read_dirs(state, dirs.push(dir)) == read_messages(
            read_infos(read_dirs(state, dirs), document_views(dir.infos@)),
            document_views(dir.messages@),
        ),
        read_dirs(state, Seq::empty()) == state,
        read_rows(state, Seq::empty()) == state,
        read_infos(state, Seq::empty()) == state,
        read_messages(state, Seq::empty()) == state,
{
    assert(databases.push(database).drop_last() =~= databases);
    assert(dirs.push(dir).drop_last() =~= dirs);
}

fn time_at(v: &Json, key: &str) -> (r: Option<i64>)
    ensures
        r == secs_at(v@, key@),
{
    match v.get_in("time", key) {
        Some(x) => match x.as_i64() {
            Some(ms) => Some(ms_to_secs(ms)),
            None => None,
        },
        None => None,
    }
}

fn note_time(ledger: &mut Ledger, session: &str, time: Option<i64>)
    requires
        old(ledger).wf(),
    ensures
        final(ledger).wf(),
        final(ledger)@ == old(ledger)@ + moment(session@, time),
{
    let ghost before = ledger@;
    if let Some(ts) = time {
        ledger.note_moment(Some(session), ts);
    }
    assert(ledger@ =~= before + moment(session@, time));
}

fn cache_at(t: &Json, key: &str) -> (r: u64)
    ensures
        r == cache_count(t@, key@),
{
    match t.get("cache") {
        Some(c) => c.count_at(key),
        None => 0,
    }
}

fn note_times(v: &Json, session_id: &str, ledger: &mut Ledger) -> (r: Option<i64>)
    requires
        old(ledger).wf(),
    ensures
        final(ledger).wf(),
        final(ledger)@ == old(ledger)@ + time_records(v@, session_id@),
        r == message_time(v@),
{
    let ghost before = ledger@;
    ledger.note_session(session_id);
    assert(ledger@ =~= before + seq![Record::Session(session_id@)]);
    let created = time_at(v, "created");
    let completed = time_at(v, "completed");
    let updated = time_at(v, "updated");
    note_time(ledger, session_id, created);
    note_time(ledger, session_id, completed);
    note_time(ledger, session_id, updated);
    assert(ledger@ =~= before + time_records(v@, session_id@));
    if created.is_some() {
        created
    } else if completed.is_some() {
        completed
    } else {
        updated
    }
}

fn note_usage(v: &Json, session_id: &str, t: &Json, time: Option<i64>, ledger: &mut Ledger)
    requires
        old(ledger).wf(),
        time == message_time(v@),
    ensures
        final(ledger).wf(),
        final(ledger)@ == old(ledger)@ + usage_records(v@, session_id@, t@),
{
    let ghost before = ledger@;
    let model: &str = match v.get_either("modelID", "model") {
        Some(m) => match m.as_str() {
            Some(s) => s,
            None => "unknown",
        },
        None => "unknown",
    };
    let input: u64 = t.count_at("input");
    let output: u64 = t.count_at("output");
    let reasoning: u64 = t.count_at("reasoning");
    let read: u64 = cache_at(t, "read");
    let write: u64 = cache_at(t, "write");
    ledger.note_tokens(model, input, output, reasoning, read, write);
    if let Some(ts) = time {
        ledger.note_event(
            ts,
            input.saturating_add(output).saturating_add(reasoning),
            Some(session_id),
        );
    }
    assert(ledger@ =~= before + usage_records(v@, session_id@, t@));
}

/// Records a message of the assistant.
pub fn process_assistant_msg(v: &Json, session_id: &str, ledger: &mut Ledger)
    requires
        old(ledger).wf(),
    ensures
        final(ledger).wf(),
        final(ledger)@ == old(ledger)@ + assistant_records(v@, session_id@),
{
    let ghost before = ledger@;
    let time = note_times(v, session_id, ledger);
    let counts = match v.get("tokens") {
        Some(t) => Some(t),
        None => match v.get_in("metadata", "assistant") {
            Some(a) => a.get("tokens"),
            None => None,
        },
    };
    if let Some(t) = counts {
        note_usage(v, session_id, t, time, ledger);
    }
    assert(ledger@ =~= before + assistant_records(v@, session_id@));
}

/// Reads one row of the database.
fn scan_row(ledger: &mut Ledger, seen: &mut StringHashSet, row: &MessageRow)
    requires
        old(ledger).wf(),
    ensures
        final(ledger).wf(),
        (Reading { records: final(ledger)@, seen: final(seen)@ }) == read_row(
            Reading { records: old(ledger)@, seen: old(seen)@ },
            row@,
        ),
{
    if let Some(v) = parse_json(row.data.as_str()) {
        let key = v.text_or("id", row.id.as_str());
        if !seen.insert(key.to_string()) {
            assert(seen@ =~= old(seen)@);
            return;
        }
        let session: &str = match v.text_at("sessionID") {
            Some(s) => if s.is_empty() {
                row.session_id.as_str()
            } else {
                s
            },
            None => row.session_id.as_str(),
        };
        process_assistant_msg(&v, session, ledger);
    }
}

/// Reads the messages of one database.
pub fn scan_sqlite(ledger: &mut Ledger, seen: &mut StringHashSet, rows: &Vec<MessageRow>)
    requires
        old(ledger).wf(),
    ensures
        final(ledger).wf(),
        (Reading { records: final(ledger)@, seen: final(seen)@ }) == read_rows(
            Reading { records: old(ledger)@, seen: old(seen)@ },
            message_views(rows@),
        ),
{
    let ghost start = Reading { records: ledger@, seen: seen@ };
    let ghost all = message_views(rows@);
    let mut i: usize = 0;
    while i < rows.len()
        invariant
            i <= rows@.len(),
            ledger.wf(),
            all == message_views(rows@),
            (Reading { records: ledger@, seen: seen@ }) == read_rows(start, all.take(i as int)),
        decreases rows@.len() - i,
    {
        proof {
            assert(all.take(i + 1).drop_last() =~= all.take(i as int));
            assert(all.take(i + 1).last() == rows@[i as int]@);
        }
        scan_row(ledger, seen, &rows[i]);
        i += 1;
    }
    assert(all.take(i as int) =~= all);
}

/// What a file about a session says: its id, and when it was made and updated.
pub fn parse_session_info(file: &DocumentFile) -> (r: Option<(String, Option<i64>, Option<i64>)>)
    ensures
        match r {
            Some((id, created, updated)) => json_document(file@.content) matches Some(v) && {
                &&& either(v.text_at("id"@), file@.stem) == Some(id@)
                &&& created == secs_at(v, "created"@)
                &&& updated == secs_at(v, "updated"@)
            },
            None => json_document(file@.content) matches Some(v) ==> either(
                v.text_at("id"@),
                file@.stem,
            ) is None,
        },
{
    match parse_json(file.content.as_str()) {
        Some(v) => {
            let id: String = match v.text_at("id") {
                Some(id) => id.to_string(),
                None => match &file.stem {
                    Some(stem) => stem.clone(),
                    None => {
                        return None;
                    },
                },
            };
            Some((id, time_at(&v, "created"), time_at(&v, "updated")))
        },
        None => None,
    }
}

fn scan_infos(ledger: &mut Ledger, files: &Vec<DocumentFile>, Ghost(seen): Ghost<Set<Seq<char>>>)
    requires
        old(ledger).wf(),
    ensures
        final(ledger).wf(),
        (Reading { records: final(ledger)@, seen }) == read_infos(
            Reading { records: old(ledger)@, seen },
            document_views(files@),
        ),
{
    let ghost start = Reading { records: ledger@, seen };
    let ghost all = document_views(files@);
    let mut i: usize = 0;
    while i < files.len()
        invariant
            i <= files@.len(),
            ledger.wf(),
            all == document_views(files@),
            (Reading { records: ledger@, seen }) == read_infos(start, all.take(i as int)),
        decreases files@.len() - i,
    {
        proof {
            assert(all.take(i + 1).drop_last() =~= all.take(i as int));
            assert(all.take(i + 1).last() == files@[i as int]@);
        }
        let ghost before = ledger@;
        match parse_session_info(&files[i]) {
            Some((id, created, updated)) => {
                ledger.note_session(id.as_str());
                note_time(ledger, id.as_str(), created);
                note_time(ledger, id.as_str(), updated);
                assert(ledger@ =~= before + info_records(files@[i as int]@));
            },
            None => {
                assert(before + info_records(files@[i as int]@) =~= before);
            },
        }
        i += 1;
    }
    assert(all.take(i as int) =~= all);
}

/// Reads the file of one message.
pub fn scan_message_file(ledger: &mut Ledger, seen: &mut StringHashSet, file: &DocumentFile)
    requires
        old(ledger).wf(),
    ensures
        final(ledger).wf(),
        (Reading { records: final(ledger)@, seen: final(seen)@ }) == read_message(
            Reading { records: old(ledger)@, seen: old(seen)@ },
            file@,
        ),
{
    let ghost before = ledger@;
    if let Some(v) = parse_json(file.content.as_str()) {
        let key: &str = match v.text_at("id") {
            Some(id) => id,
            None => name_or_else(&file.stem, ""),
        };
        if !key.is_empty() {
            if !seen.insert(key.to_string()) {
                assert(seen@ =~= old(seen)@);
                return;
            }
        }
        let session: &str = match v.text_at("sessionID") {
            Some(s) => s,
            None => name_or_else(&file.parent, "unknown"),
        };
        if same(v.text_or("role", ""), "assistant") {
            process_assistant_msg(&v, session, ledger);
        } else {
            if let Some(ts) = time_at(&v, "created") {
                ledger.note_session(session);
                ledger.note_moment(Some(session), ts);
            }
            assert(ledger@ =~= before + file_records(file@, v@));
        }
    }
}

fn scan_messages(ledger: &mut Ledger, seen: &mut StringHashSet, files: &Vec<DocumentFile>)
    requires
        old(ledger).wf(),
    ensures
        final(ledger).wf(),
        (Reading { records: final(ledger)@, seen: final(seen)@ }) == read_messages(
            Reading { records: old(ledger)@, seen: old(seen)@ },
            document_views(files@),
        ),
{
    let ghost start = Reading { records: ledger@, seen: seen@ };
    let ghost all = document_views(files@);
    let mut i: usize = 0;
    while i < files.len()
        invariant
            i <= files@.len(),
            ledger.wf(),
            all == document_views(files@),
            (Reading { records: ledger@, seen: seen@ }) == read_messages(start, all.take(i as int)),
        decreases files@.len() - i,
    {
        proof {
            assert(all.take(i + 1).drop_last() =~= all.take(i as int));
            assert(all.take(i + 1).last() == files@[i as int]@);
        }
        scan_message_file(ledger, seen, &files[i]);
        i += 1;
    }
    assert(all.take(i as int) =~= all);
}

impl OpenCodeProvider {
    /// Usage from the databases and the data directories of older versions. A message that
    /// stands in several of them counts once.
    pub fn scan(&self, databases: &Vec<Vec<MessageRow>>, dirs: &Vec<DataDir>) -> (r: Result<
        ProviderResult,
        ScanError,
    >)
        ensures
            if databases@.len() == 0 && dirs@.len() == 0 {
                r matches Err(e) && e.is_not_found("OpenCode data dir not found"@)
            } else {
                is_plain_result(
                    r,
                    "OpenCode"@,
                    read_dirs(read_databases(databases@), dirs@).records,
                    "No OpenCode session data found"@,
                )
            },
    {
        if databases.len() == 0 && dirs.len() == 0 {
            return Err(ScanError::NotFound("OpenCode data dir not found".to_string()));
        }
        let mut ledger = Ledger::new();
        let mut seen = StringHashSet::new();
        let mut i: usize = 0;
        while i < databases.len()
            invariant
                i <= databases@.len(),
                ledger.wf(),
                (Reading { records: ledger@, seen: seen@ }) == read_databases(
                    databases@.take(i as int),
                ),
            decreases databases@.len() - i,
        {
            proof {
                assert(databases@.take(i + 1).drop_last() =~= databases@.take(i as int));
                assert(databases@.take(i + 1).last() == databases@[i as int]);
            }
            scan_sqlite(&mut ledger, &mut seen, &databases[i]);
            i += 1;
        }
        assert(databases@.take(i as int) =~= databases@);
        let ghost stored = read_databases(databases@);
        let mut j: usize = 0;
        while j < dirs.len()
            invariant
                j <= dirs@.len(),
                ledger.wf(),
                (Reading { records: ledger@, seen: seen@ }) == read_dirs(
                    stored,
                    dirs@.take(j as int),
                ),
            decreases dirs@.len() - j,
        {
            proof {
                assert(dirs@.take(j + 1).drop_last() =~= dirs@.take(j as int));
                assert(dirs@.take(j + 1).last() == dirs@[j as int]);
            }
            scan_infos(&mut ledger, &dirs[j].infos, Ghost(seen@));
            scan_messages(&mut ledger, &mut seen, &dirs[j].messages);
            j += 1;
        }
        assert(dirs@.take(j as int) =~= dirs@);
        close_account(ledger, "OpenCode", "No OpenCode session data found")
    }
}

} // verus!
