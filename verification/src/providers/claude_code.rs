//! The coding agent `claude_code`, in the terminal and on the desktop: one JSONL file a session.

use crate::json::{json_document, Json, JsonTree};
use crate::ledger::{
    all_sums, earliest, event_record, events_of, latest, least, lemma_no_tokens, lemma_one_tokens,
    lemma_records_join, lemma_report_grows, lemma_times_in, most, session_times, summary, times_in,
    tokens_record, used, used_together, Ledger, Record,
};
use crate::logs::{documents, log_views, read_documents, LogFile, LogView};
use crate::names::{agent_title, agent_title_text};
use crate::text::{contains, has_part, is_blank, same, starts_with};
use crate::time_util::{
    build_daily_buckets, buckets_of, half_hour_activity, iso8601_to_unix, iso_seconds, DayEvent,
};
use crate::types::{capped, ProviderReport, ProviderResult, ScanError, TokenSums};
use vstd::hash_set::StringHashSet;
use vstd::prelude::*;

verus! {

pub struct ClaudeCodeProvider;

/// What has been read so far: the records, and the turns that have been counted.
#[verifier::ext_equal]
pub ghost struct Reading {
    pub records: Seq<Record>,
    pub seen: Set<Seq<char>>,
}

/// When a line was written.
pub open spec fn line_time(v: JsonTree) -> Option<i64> {
    match v.text_at("timestamp"@) {
        Some(text) => iso_seconds(text),
        None => None,
    }
}

/// The session of a line, where the line has a time.
pub open spec fn line_session(v: JsonTree) -> Option<Seq<char>> {
    if line_time(v) is Some {
        v.text_at("sessionId"@)
    } else {
        None
    }
}

/// What the time of a line tells. A subagent works within a session of its own that counts for
/// time, not for the number of sessions.
pub open spec fn time_records(v: JsonTree, subagent: bool) -> Seq<Record> {
    match line_time(v) {
        None => Seq::empty(),
        Some(ts) => match line_session(v) {
            Some(s) if !subagent => seq![Record::Moment(Some(s), ts), Record::Session(s)],
            session => seq![Record::Moment(session, ts)],
        },
    }
}

/// What tells one turn of an assistant from another: a resumed session repeats the turns of the
/// one before, with the same ids.
pub open spec fn turn_key(v: JsonTree, message: JsonTree) -> Option<Seq<char>> {
    match (message.text_at("id"@), v.text_at("requestId"@)) {
        (Some(mid), Some(rid)) => Some(mid + ":"@ + rid),
        _ => None,
    }
}

/// What the usage of a turn tells.
pub open spec fn usage_records(v: JsonTree, message: JsonTree, usage: JsonTree) -> Seq<Record> {
    let input = usage.count_at("input_tokens"@);
    let output = usage.count_at("output_tokens"@);
    let creation = usage.count_at("cache_creation_input_tokens"@);
    let read = usage.count_at("cache_read_input_tokens"@);
    let tokens = tokens_record(
        message.text_or("model"@, "unknown"@),
        input,
        output,
        0,
        read,
        creation,
    );
    match line_time(v) {
        Some(ts) => seq![
            tokens,
            event_record(ts, capped(input + output + creation + read), line_session(v)),
        ],
        None => seq![tokens],
    }
}

/// The message of an assistant's turn.
pub open spec fn assistant_message(v: JsonTree) -> Option<JsonTree> {
    if v.text_or("type"@, ""@) == "assistant"@ {
        v.get("message"@)
    } else {
        None
    }
}

/// Whether the turn of a line has been counted before.
pub open spec fn counted(v: JsonTree, seen: Set<Seq<char>>) -> bool {
    match assistant_message(v) {
        Some(message) => match turn_key(v, message) {
            Some(key) => seen.contains(key),
            None => false,
        },
        None => false,
    }
}

/// What a line tells beside its time.
pub open spec fn turn_records(v: JsonTree, seen: Set<Seq<char>>) -> Seq<Record> {
    if v.text_or("type"@, ""@) != "assistant"@ {
        match line_time(v) {
            Some(ts) => seq![event_record(ts, 0, line_session(v))],
            None => Seq::empty(),
        }
    } else if counted(v, seen) {
        Seq::empty()
    } else {
        match assistant_message(v) {
            Some(message) => match message.get("usage"@) {
                Some(usage) => usage_records(v, message, usage),
                None => Seq::empty(),
            },
            None => Seq::empty(),
        }
    }
}

/// The turns counted once a line has been read.
pub open spec fn seen_after(v: JsonTree, seen: Set<Seq<char>>) -> Set<Seq<char>> {
    match assistant_message(v) {
        Some(message) => match turn_key(v, message) {
            Some(key) => seen.insert(key),
            None => seen,
        },
        None => seen,
    }
}

/// Reads one line.
pub open spec fn read_line(state: Reading, v: JsonTree, subagent: bool) -> Reading {
    Reading {
        records: state.records + time_records(v, subagent) + turn_records(v, state.seen),
        seen: seen_after(v, state.seen),
    }
}

/// Reads the documents of one file.
pub open spec fn read_file(state: Reading, docs: Seq<JsonTree>, subagent: bool) -> Reading
    decreases docs.len(),
{
    if docs.len() == 0 {
        state
    } else {
        read_line(read_file(state, docs.drop_last(), subagent), docs.last(), subagent)
    }
}

/// Whether a path is that of a subagent's log.
pub open spec fn is_subagent(path: Seq<char>) -> bool {
    has_part(path, "/subagents/"@)
}

/// Reads some files, one after the other.
pub open spec fn read_files(files: Seq<LogView>) -> Reading
    decreases files.len(),
{
    if files.len() == 0 {
        Reading { records: Seq::empty(), seen: Set::empty() }
    } else {
        read_file(
            read_files(files.drop_last()),
            documents(files.last().lines),
            is_subagent(files.last().path),
        )
    }
}

/// What the agent reports of its log files.
pub open spec fn claude_report(files: Seq<LogView>) -> ProviderReport {
    let records = read_files(files).records;
    summary(agent_title(), records, buckets_of(events_of(records)))
}

/// A turn that has been counted adds no tokens, wherever it comes up again.
pub proof fn law_turn_counts_once(state: Reading, v: JsonTree, message: JsonTree, subagent: bool)
    requires
        assistant_message(v) == Some(message),
        turn_key(v, message) is Some,
    ensures
        crate::ledger::all_sums(
            read_line(read_line(state, v, subagent), v, subagent).records,
        ) == crate::ledger::all_sums(read_line(state, v, subagent).records),
{
    let once = read_line(state, v, subagent);
    let twice = read_line(once, v, subagent);
    assert(once.seen.contains(turn_key(v, message)->0));
    assert(turn_records(v, once.seen) =~= Seq::empty());
    assert(twice.records =~= once.records + time_records(v, subagent));
    crate::ledger::lemma_free_records(once.records, time_records(v, subagent));
}

/// The documents of some files, one file after the other.
pub open spec fn lines_read(files: Seq<LogView>) -> Seq<JsonTree>
    decreases files.len(),
{
    if files.len() == 0 {
        Seq::empty()
    } else {
        lines_read(files.drop_last()) + documents(files.last().lines)
    }
}

/// Whether two lines tell of the same turn: both are an assistant's, and the ids of their messages
/// and of their requests, with a colon between, are written alike.
pub open spec fn same_turn(u: JsonTree, v: JsonTree) -> bool {
    &&& u.text_at("type"@) == Some("assistant"@)
    &&& v.text_at("type"@) == Some("assistant"@)
    &&& u.get_in("message"@, "id"@) is Some
    &&& v.get_in("message"@, "id"@) is Some
    &&& u.get_in("message"@, "id"@)->0 is Text
    &&& v.get_in("message"@, "id"@)->0 is Text
    &&& u.text_at("requestId"@) is Some
    &&& v.text_at("requestId"@) is Some
    &&& u.get_in("message"@, "id"@)->0->Text_0 + ":"@ + u.text_at("requestId"@)->0 == v.get_in(
        "message"@,
        "id"@,
    )->0->Text_0 + ":"@ + v.text_at("requestId"@)->0
}

/// Whether a file is another with one more line, which holds a document.
pub open spec fn has_one_more(longer: LogView, file: LogView, v: JsonTree) -> bool {
    &&& longer.path == file.path
    &&& longer.lines.len() > 0
    &&& longer.lines.drop_last() == file.lines
    &&& json_document(longer.lines.last()) == Some(v)
    &&& !is_blank(longer.lines.last())
}

proof fn lemma_assistant(v: JsonTree)
    ensures
        v.text_or("type"@, ""@) == "assistant"@ <==> v.text_at("type"@) == Some("assistant"@),
{
    reveal_strlit("");
    reveal_strlit("assistant");
    assert(""@.len() != "assistant"@.len());
}

proof fn lemma_seen_in(state: Reading, docs: Seq<JsonTree>, subagent: bool, v: JsonTree)
    requires
        assistant_message(v) is Some,
        turn_key(v, assistant_message(v)->0) is Some,
    ensures
        read_file(state, docs, subagent).seen.contains(turn_key(v, assistant_message(v)->0)->0)
            <==> state.seen.contains(turn_key(v, assistant_message(v)->0)->0) || exists|i: int|
            0 <= i < docs.len() && same_turn(#[trigger] docs[i], v),
    decreases docs.len(),
{
    let key = turn_key(v, assistant_message(v)->0)->0;
    if docs.len() > 0 {
        let before = docs.drop_last();
        let u = docs.last();
        lemma_seen_in(state, before, subagent, v);
        lemma_assistant(u);
        lemma_assistant(v);
        let seen = read_file(state, before, subagent).seen;
        assert(seen_after(u, seen).contains(key) <==> seen.contains(key) || same_turn(u, v)) by {
            if same_turn(u, v) {
                assert(u.get("message"@) is Some);
                assert(turn_key(u, u.get("message"@)->0) == Some(key));
            }
        }
        if exists|i: int| 0 <= i < before.len() && same_turn(#[trigger] before[i], v) {
            let i = choose|i: int| 0 <= i < before.len() && same_turn(#[trigger] before[i], v);
            assert(same_turn(docs[i], v));
        }
        if same_turn(u, v) {
            assert(same_turn(docs[docs.len() - 1], v));
        }
        if exists|i: int| 0 <= i < docs.len() && same_turn(#[trigger] docs[i], v) {
            let i = choose|i: int| 0 <= i < docs.len() && same_turn(#[trigger] docs[i], v);
            if i < before.len() {
                assert(same_turn(before[i], v));
            }
        }
    }
}

proof fn lemma_seen(files: Seq<LogView>, v: JsonTree)
    requires
        assistant_message(v) is Some,
        turn_key(v, assistant_message(v)->0) is Some,
    ensures
        read_files(files).seen.contains(turn_key(v, assistant_message(v)->0)->0) <==> exists|i: int|
            0 <= i < lines_read(files).len() && same_turn(#[trigger] lines_read(files)[i], v),
    decreases files.len(),
{
    if files.len() > 0 {
        let fewer = files.drop_last();
        let docs = documents(files.last().lines);
        let all = lines_read(files);
        let known = lines_read(fewer);
        lemma_seen(fewer, v);
        lemma_seen_in(read_files(fewer), docs, is_subagent(files.last().path), v);
        if exists|i: int| 0 <= i < known.len() && same_turn(#[trigger] known[i], v) {
            let i = choose|i: int| 0 <= i < known.len() && same_turn(#[trigger] known[i], v);
            assert(same_turn(all[i], v));
        }
        if exists|i: int| 0 <= i < docs.len() && same_turn(#[trigger] docs[i], v) {
            let i = choose|i: int| 0 <= i < docs.len() && same_turn(#[trigger] docs[i], v);
            assert(same_turn(all[known.len() + i], v));
        }
        if exists|i: int| 0 <= i < all.len() && same_turn(#[trigger] all[i], v) {
            let i = choose|i: int| 0 <= i < all.len() && same_turn(#[trigger] all[i], v);
            if i < known.len() {
                assert(same_turn(known[i], v));
            } else {
                assert(same_turn(docs[i - known.len()], v));
            }
        }
    }
}

proof fn lemma_one_more(files: Seq<LogView>, file: LogView, longer: LogView, v: JsonTree)
    requires
        has_one_more(longer, file, v),
    ensures
        read_files(files.push(longer)) == read_line(
            read_files(files.push(file)),
            v,
            has_part(file.path, "/subagents/"@),
        ),
{
    assert(files.push(longer).drop_last() =~= files);
    assert(files.push(file).drop_last() =~= files);
    let docs = documents(file.lines);
    assert(documents(longer.lines) == docs.push(v));
    assert(docs.push(v).drop_last() =~= docs);
}

proof fn lemma_next_line(state: Reading, v: JsonTree, subagent: bool)
    ensures
        read_line(state, v, subagent).records == state.records + (time_records(v, subagent)
            + turn_records(v, state.seen)),
{
    assert(read_line(state, v, subagent).records =~= state.records + (time_records(v, subagent)
        + turn_records(v, state.seen)));
}

/// Every billed turn counts: one more line of an assistant with a usage adds exactly its four counts
/// to all tokens and to those of its model, and nothing to another model, unless an earlier line, in
/// this file or in another, tells of the same turn. Which model and which session wrote the earlier
/// lines does not matter.
pub proof fn law_new_turn_adds_its_tokens(
    files: Seq<LogView>,
    file: LogView,
    longer: LogView,
    v: JsonTree,
    message: JsonTree,
    usage: JsonTree,
    other: Seq<char>,
)
    requires
        has_one_more(longer, file, v),
        v.text_at("type"@) == Some("assistant"@),
        v.get("message"@) == Some(message),
        message.get("usage"@) == Some(usage),
        forall|i: int|
            0 <= i < lines_read(files.push(file)).len() ==> !same_turn(
                #[trigger] lines_read(files.push(file))[i],
                v,
            ),
        other != message.text_or("model"@, "unknown"@),
    ensures
        ({
            let before = claude_report(files.push(file));
            let after = claude_report(files.push(longer));
            let model = message.text_or("model"@, "unknown"@);
            let spent = TokenSums {
                input: usage.count_at("input_tokens"@) as nat,
                output: usage.count_at("output_tokens"@) as nat,
                cache_read: usage.count_at("cache_read_input_tokens"@) as nat,
                cache_creation: usage.count_at("cache_creation_input_tokens"@) as nat,
            };
            &&& all_sums(read_files(files.push(longer)).records) == all_sums(
                read_files(files.push(file)).records,
            ).plus(spent)
            &&& after.tokens == used_together(before.tokens, Some(spent.usage()))
            &&& used(after, model) == used_together(used(before, model), Some(spent.usage()))
            &&& used(after, other) == used(before, other)
        }),
{
    let state = read_files(files.push(file));
    let subagent = has_part(file.path, "/subagents/"@);
    let model = message.text_or("model"@, "unknown"@);
    lemma_one_more(files, file, longer, v);
    lemma_next_line(state, v, subagent);
    lemma_assistant(v);
    assert(assistant_message(v) == Some(message));
    if turn_key(v, message) is Some {
        lemma_seen(files.push(file), v);
    }
    assert(!counted(v, state.seen));
    let times = time_records(v, subagent);
    let more = times + turn_records(v, state.seen);
    let k = times.len() as int;
    assert(more[k] is Tokens);
    assert forall|i: int| 0 <= i < more.len() && i != k implies !(#[trigger] more[i] is Tokens) by {
        if i < k {
            assert(more[i] == times[i]);
        } else {
            assert(more[i] == turn_records(v, state.seen)[i - k]);
        }
    }
    lemma_one_tokens(more, k);
    lemma_records_join(state.records, more, model);
    let days = buckets_of(events_of(state.records));
    let more_days = buckets_of(events_of(state.records + more));
    lemma_report_grows(agent_title(), state.records, more, model, days, more_days);
    lemma_report_grows(agent_title(), state.records, more, other, days, more_days);
}

/// A turn is told from every other by the ids of its message and of its request: two lines whose
/// pairs of ids differ are not the same turn, as long as the ids of messages hold no colon.
pub proof fn law_pairs_tell_turns_apart(u: JsonTree, v: JsonTree)
    requires
        same_turn(u, v),
        !u.get_in("message"@, "id"@)->0->Text_0.contains(':'),
        !v.get_in("message"@, "id"@)->0->Text_0.contains(':'),
    ensures
        u.get_in("message"@, "id"@) == v.get_in("message"@, "id"@),
        u.text_at("requestId"@) == v.text_at("requestId"@),
{
    reveal_strlit(":");
    let a = u.get_in("message"@, "id"@)->0->Text_0;
    let b = v.get_in("message"@, "id"@)->0->Text_0;
    let x = u.text_at("requestId"@)->0;
    let y = v.text_at("requestId"@)->0;
    let one = a + ":"@ + x;
    let two = b + ":"@ + y;
    assert(one[a.len() as int] == ':');
    assert(two[b.len() as int] == ':');
    if a.len() < b.len() {
        assert(two[a.len() as int] == b[a.len() as int]);
        assert(b.contains(':'));
    } else if b.len() < a.len() {
        assert(one[b.len() as int] == a[b.len() as int]);
        assert(a.contains(':'));
    }
    assert(a =~= one.take(a.len() as int));
    assert(b =~= two.take(a.len() as int));
    assert(x =~= one.skip((a.len() + 1) as int));
    assert(y =~= two.skip((a.len() + 1) as int));
}

/// A turn that an earlier line tells of, in whatever file, adds no tokens to anything.
pub proof fn law_repeated_turn_adds_none(
    files: Seq<LogView>,
    file: LogView,
    longer: LogView,
    v: JsonTree,
    i: int,
    model: Seq<char>,
)
    requires
        has_one_more(longer, file, v),
        0 <= i < lines_read(files.push(file)).len(),
        same_turn(lines_read(files.push(file))[i], v),
    ensures
        claude_report(files.push(longer)).tokens == claude_report(files.push(file)).tokens,
        used(claude_report(files.push(longer)), model) == used(
            claude_report(files.push(file)),
            model,
        ),
        events_of(read_files(files.push(longer)).records) == events_of(
            read_files(files.push(file)).records,
        ),
{
    let state = read_files(files.push(file));
    let subagent = has_part(file.path, "/subagents/"@);
    lemma_one_more(files, file, longer, v);
    lemma_next_line(state, v, subagent);
    lemma_assistant(v);
    lemma_seen(files.push(file), v);
    lemma_quiet_line(state, v, subagent, model);
}

proof fn lemma_quiet_line(state: Reading, v: JsonTree, subagent: bool, model: Seq<char>)
    requires
        forall|i: int|
            0 <= i < turn_records(v, state.seen).len() ==> !(#[trigger] turn_records(
                v,
                state.seen,
            )[i] is Tokens),
    ensures
        ({
            let after = read_line(state, v, subagent).records;
            let days = buckets_of(events_of(state.records));
            let more_days = buckets_of(events_of(after));
            let x = summary(agent_title(), state.records, days);
            let y = summary(agent_title(), after, more_days);
            &&& x.tokens == y.tokens
            &&& used(x, model) == used(y, model)
            &&& events_of(after) == events_of(state.records) + events_of(turn_records(v, state.seen))
        }),
{
    let times = time_records(v, subagent);
    let turn = turn_records(v, state.seen);
    let more = times + turn;
    lemma_next_line(state, v, subagent);
    assert forall|i: int| 0 <= i < more.len() implies !(#[trigger] more[i] is Tokens) by {
        if i < times.len() {
            assert(more[i] == times[i]);
        } else {
            assert(more[i] == turn[i - times.len()]);
        }
    }
    lemma_no_tokens(more);
    lemma_records_join(state.records, more, model);
    lemma_records_join(times, turn, model);
    reveal_with_fuel(events_of, 4);
    assert(events_of(times) =~= Seq::empty());
    assert(events_of(state.records) + events_of(more) =~= events_of(state.records) + events_of(
        turn,
    ));
    lemma_report_grows(
        agent_title(),
        state.records,
        more,
        model,
        buckets_of(events_of(state.records)),
        buckets_of(events_of(state.records + more)),
    );
}

/// A line that is no assistant's, or has no message or no usage, adds no tokens. One that is no
/// assistant's counts on its day, if it has a time.
pub proof fn law_line_without_usage_adds_none(
    files: Seq<LogView>,
    file: LogView,
    longer: LogView,
    v: JsonTree,
    model: Seq<char>,
)
    requires
        has_one_more(longer, file, v),
        v.text_at("type"@) != Some("assistant"@) || v.get_in("message"@, "usage"@) is None,
    ensures
        claude_report(files.push(longer)).tokens == claude_report(files.push(file)).tokens,
        used(claude_report(files.push(longer)), model) == used(
            claude_report(files.push(file)),
            model,
        ),
        events_of(read_files(files.push(longer)).records) == events_of(
            read_files(files.push(file)).records,
        ) + (if v.text_at("type"@) == Some("assistant"@) {
            Seq::empty()
        } else {
            match v.text_at("timestamp"@) {
                Some(text) => match iso_seconds(text) {
                    Some(ts) => seq![
                        DayEvent { ts, tokens: 0, session: v.text_at("sessionId"@) },
                    ],
                    None => Seq::empty(),
                },
                None => Seq::empty(),
            }
        }),
{
    let state = read_files(files.push(file));
    let subagent = has_part(file.path, "/subagents/"@);
    lemma_one_more(files, file, longer, v);
    lemma_assistant(v);
    lemma_quiet_line(state, v, subagent, model);
    reveal_with_fuel(events_of, 3);
    assert(events_of(turn_records(v, state.seen)) =~= if v.text_at("type"@) == Some(
        "assistant"@,
    ) {
        Seq::empty()
    } else {
        match v.text_at("timestamp"@) {
            Some(text) => match iso_seconds(text) {
                Some(ts) => seq![DayEvent { ts, tokens: 0, session: v.text_at("sessionId"@) }],
                None => Seq::empty(),
            },
            None => Seq::empty(),
        }
    });
}

proof fn lemma_time_part(v: JsonTree, subagent: bool, session: Seq<char>)
    ensures
        earliest(time_records(v, subagent)) == line_time(v),
        latest(time_records(v, subagent)) == line_time(v),
        session_times(time_records(v, subagent), session) == match line_time(v) {
            Some(ts) => if v.text_at("sessionId"@) == Some(session) {
                seq![ts]
            } else {
                Seq::empty()
            },
            None => Seq::empty(),
        },
        time_records(v, subagent).contains(Record::Session(session)) <==> line_time(v) is Some
            && v.text_at("sessionId"@) == Some(session) && !subagent,
{
    let times = time_records(v, subagent);
    reveal_with_fuel(earliest, 4);
    reveal_with_fuel(latest, 4);
    reveal_with_fuel(session_times, 4);
    if line_time(v) is Some && v.text_at("sessionId"@) == Some(session) && !subagent {
        assert(times[1] == Record::Session(session));
    }
    assert(session_times(times, session) =~= match line_time(v) {
        Some(ts) => if v.text_at("sessionId"@) == Some(session) {
            seq![ts]
        } else {
            Seq::empty()
        },
        None => Seq::empty(),
    });
}

proof fn lemma_turn_part(v: JsonTree, seen: Set<Seq<char>>, session: Seq<char>)
    ensures
        earliest(turn_records(v, seen)) is None,
        latest(turn_records(v, seen)) is None,
        session_times(turn_records(v, seen), session) == Seq::<i64>::empty(),
        !turn_records(v, seen).contains(Record::Session(session)),
{
    reveal_with_fuel(earliest, 4);
    reveal_with_fuel(latest, 4);
    reveal_with_fuel(session_times, 4);
    assert(session_times(turn_records(v, seen), session) =~= Seq::empty());
}

/// Every line with a time counts for its session, whatever else it says: its time is among those of
/// the session that it names and between the first and the last, and the session took place, unless
/// the log is a subagent's. A line without a time tells of no session.
pub proof fn law_line_tells_its_time(
    files: Seq<LogView>,
    file: LogView,
    longer: LogView,
    v: JsonTree,
    session: Seq<char>,
)
    requires
        has_one_more(longer, file, v),
    ensures
        ({
            let before = read_files(files.push(file)).records;
            let after = read_files(files.push(longer)).records;
            let old_report = claude_report(files.push(file));
            let report = claude_report(files.push(longer));
            let time = match v.text_at("timestamp"@) {
                Some(text) => iso_seconds(text),
                None => None,
            };
            &&& report.first_seen == least(old_report.first_seen, time)
            &&& report.last_seen == most(old_report.last_seen, time)
            &&& times_in(after, session) == match time {
                Some(ts) => if v.text_at("sessionId"@) == Some(session) {
                    times_in(before, session).push(ts)
                } else {
                    times_in(before, session)
                },
                None => times_in(before, session),
            }
            &&& after.contains(Record::Session(session)) <==> before.contains(
                Record::Session(session),
            ) || (time is Some && v.text_at("sessionId"@) == Some(session) && !has_part(
                file.path,
                "/subagents/"@,
            ))
        }),
{
    let state = read_files(files.push(file));
    let subagent = has_part(file.path, "/subagents/"@);
    lemma_one_more(files, file, longer, v);
    lemma_next_line(state, v, subagent);
    let times = time_records(v, subagent);
    let turn = turn_records(v, state.seen);
    let more = times + turn;
    let before = state.records;
    let after = before + more;
    lemma_report_grows(
        agent_title(),
        before,
        more,
        session,
        buckets_of(events_of(before)),
        buckets_of(events_of(after)),
    );
    lemma_records_join(times, turn, session);
    lemma_records_join(before, more, session);
    lemma_times_in(before, session);
    lemma_times_in(after, session);
    lemma_time_part(v, subagent, session);
    lemma_turn_part(v, state.seen, session);
    let had = times_in(before, session);
    assert(had + (session_times(times, session) + session_times(turn, session)) =~= had
        + session_times(times, session));
    if session_times(times, session).len() > 0 {
        let ts = session_times(times, session)[0];
        assert(had + seq![ts] =~= had.push(ts));
    } else {
        assert(had + session_times(times, session) =~= had);
    }
    let wanted = Record::Session(session);
    if before.contains(wanted) {
        assert(after[before.index_of(wanted)] == wanted);
    }
    if times.contains(wanted) {
        let i = times.index_of(wanted);
        assert(after[before.len() + i] == wanted);
    }
    if after.contains(wanted) && !before.contains(wanted) {
        let i = after.index_of(wanted);
        if i < before.len() {
            assert(before[i] == wanted);
        } else if i < before.len() + times.len() {
            assert(times[i - before.len()] == wanted);
        } else {
            assert(turn[i - before.len() - times.len()] == wanted);
        }
    }
}

/// Only the documents of a file count, and whether it is a subagent's: lines that are blank or no JSON
/// do not matter.
pub proof fn law_only_documents_count(files: Seq<LogView>, file: LogView, other: LogView)
    requires
        documents(file.lines) == documents(other.lines),
        has_part(file.path, "/subagents/"@) == has_part(other.path, "/subagents/"@),
    ensures
        claude_report(files.push(file)) == claude_report(files.push(other)),
{
    assert(files.push(file).drop_last() =~= files);
    assert(files.push(other).drop_last() =~= files);
}

/// A file without documents adds nothing, and no files are nothing.
pub proof fn law_empty_file_adds_nothing(files: Seq<LogView>, file: LogView)
    requires
        documents(file.lines).len() == 0,
    ensures
        claude_report(files.push(file)) == claude_report(files),
        claude_report(Seq::empty()) == summary(
            agent_title(),
            Seq::empty(),
            buckets_of(Seq::empty()),
        ),
{
    assert(files.push(file).drop_last() =~= files);
}

/// A day counts what the lines on it tell: the events are those of all lines, and every day of them is
/// reported. A new turn counts on its day with all four counts.
pub proof fn law_new_turn_counts_on_its_day(
    files: Seq<LogView>,
    file: LogView,
    longer: LogView,
    v: JsonTree,
    message: JsonTree,
    usage: JsonTree,
    date: Seq<char>,
)
    requires
        has_one_more(longer, file, v),
        v.text_at("type"@) == Some("assistant"@),
        v.get("message"@) == Some(message),
        message.get("usage"@) == Some(usage),
        forall|i: int|
            0 <= i < lines_read(files.push(file)).len() ==> !same_turn(
                #[trigger] lines_read(files.push(file))[i],
                v,
            ),
    ensures
        ({
            let events = events_of(read_files(files.push(longer)).records);
            let report = claude_report(files.push(longer));
            let spent = usage.count_at("input_tokens"@) + usage.count_at("output_tokens"@)
                + usage.count_at("cache_creation_input_tokens"@) + usage.count_at(
                "cache_read_input_tokens"@,
            );
            &&& events == events_of(read_files(files.push(file)).records) + (match v.text_at(
                "timestamp"@,
            ) {
                Some(text) => match iso_seconds(text) {
                    Some(ts) => seq![
                        DayEvent {
                            ts,
                            tokens: if spent <= u64::MAX {
                                spent as u64
                            } else {
                                u64::MAX
                            },
                            session: v.text_at("sessionId"@),
                        },
                    ],
                    None => Seq::empty(),
                },
                None => Seq::empty(),
            })
            &&& buckets_of(events).contains_key(date) ==> report.daily_buckets == Some(
                buckets_of(events),
            )
            &&& report.daily_buckets is Some ==> report.daily_buckets == Some(buckets_of(events))
        }),
{
    let state = read_files(files.push(file));
    let subagent = has_part(file.path, "/subagents/"@);
    lemma_one_more(files, file, longer, v);
    lemma_next_line(state, v, subagent);
    lemma_assistant(v);
    assert(assistant_message(v) == Some(message));
    if turn_key(v, message) is Some {
        lemma_seen(files.push(file), v);
    }
    assert(!counted(v, state.seen));
    let times = time_records(v, subagent);
    let turn = turn_records(v, state.seen);
    lemma_records_join(times, turn, date);
    lemma_records_join(state.records, times + turn, date);
    reveal_with_fuel(events_of, 4);
    assert(events_of(times) =~= Seq::empty());
    assert(events_of(state.records) + events_of(times + turn) =~= events_of(state.records)
        + events_of(turn));
    let told = match v.text_at("timestamp"@) {
        Some(text) => match iso_seconds(text) {
            Some(ts) => seq![
                DayEvent {
                    ts,
                    tokens: capped(
                        usage.count_at("input_tokens"@) + usage.count_at("output_tokens"@)
                            + usage.count_at("cache_creation_input_tokens"@) + usage.count_at(
                            "cache_read_input_tokens"@,
                        ),
                    ),
                    session: v.text_at("sessionId"@),
                },
            ],
            None => Seq::empty(),
        },
        None => Seq::empty(),
    };
    assert(events_of(turn) =~= told);
}

/// The report is of all that was read: its hours are those of every session with a known time, each with
/// breaks of up to half an hour, its sessions are the distinct ones that took place, and its days are
/// those of all events.
pub proof fn law_sessions_and_hours_are_reported(files: Seq<LogView>, date: Seq<char>)
    ensures
        ({
            let records = read_files(files).records;
            let report = claude_report(files);
            let seconds = crate::types::total(
                crate::ledger::timed_sessions(records).map_values(
                    |s: Seq<char>| half_hour_activity(times_in(records, s)) as nat,
                ),
            );
            let sessions = Set::new(|s: Seq<char>| records.contains(Record::Session(s)));
            let days = buckets_of(events_of(records));
            &&& seconds <= u128::MAX ==> report.hours == Some(
                crate::types::Hours { seconds: seconds as u128 },
            )
            &&& records.len() <= u64::MAX ==> report.sessions == Some(sessions.len() as u64)
            &&& days.contains_key(date) ==> report.daily_buckets == Some(days)
            &&& report.daily_buckets is Some ==> report.daily_buckets == Some(days)
            &&& report.tokens == Some(all_sums(records).usage())
            &&& report.visits is None && report.invocations is None && report.metadata is None
            &&& !report.tokens_estimated
        }),
{
    let records = read_files(files).records;
    crate::ledger::law_hours_are_by_session(
        agent_title(),
        records,
        date,
        buckets_of(events_of(records)),
    );
}

/// Whether a file of the desktop app is a log of a session: audit logs are laid out otherwise.
pub fn is_session_log(file_name: &str) -> (r: bool)
    ensures
        r == !"audit"@.is_prefix_of(file_name@),
{
    !starts_with(file_name, "audit")
}

fn note_time(ledger: &mut Ledger, v: &Json, subagent: bool) -> (r: Option<i64>)
    requires
        old(ledger).wf(),
    ensures
        final(ledger).wf(),
        final(ledger)@ == old(ledger)@ + time_records(v@, subagent),
        r == line_time(v@),
{
    let ghost before = ledger@;
    let ts: i64 = match v.text_at("timestamp") {
        Some(text) => match iso8601_to_unix(text) {
            Some(ts) => ts,
            None => {
                assert(before + time_records(v@, subagent) =~= before);
                return None;
            },
        },
        None => {
            assert(before + time_records(v@, subagent) =~= before);
            return None;
        },
    };
    let session = v.text_at("sessionId");
    ledger.note_moment(session, ts);
    if let Some(s) = session {
        if !subagent {
            ledger.note_session(s);
        }
    }
    assert(ledger@ =~= before + time_records(v@, subagent));
    Some(ts)
}

fn note_usage(ledger: &mut Ledger, v: &Json, message: &Json, usage: &Json, time: Option<i64>)
    requires
        old(ledger).wf(),
        time == line_time(v@),
    ensures
        final(ledger).wf(),
        final(ledger)@ == old(ledger)@ + usage_records(v@, message@, usage@),
{
    let ghost before = ledger@;
    let input: u64 = usage.count_at("input_tokens");
    let output: u64 = usage.count_at("output_tokens");
    let creation: u64 = usage.count_at("cache_creation_input_tokens");
    let read: u64 = usage.count_at("cache_read_input_tokens");
    ledger.note_tokens(message.text_or("model", "unknown"), input, output, 0, read, creation);
    if let Some(ts) = time {
        let tokens: u64 = input.saturating_add(output).saturating_add(creation).saturating_add(
            read,
        );
        ledger.note_event(ts, tokens, v.text_at("sessionId"));
    }
    assert(ledger@ =~= before + usage_records(v@, message@, usage@));
}

/// Reads one line of a log.
pub fn scan_line(ledger: &mut Ledger, seen: &mut StringHashSet, v: &Json, subagent: bool)
    requires
        old(ledger).wf(),
    ensures
        final(ledger).wf(),
        (Reading { records: final(ledger)@, seen: final(seen)@ }) == read_line(
            Reading { records: old(ledger)@, seen: old(seen)@ },
            v@,
            subagent,
        ),
{
    let ghost before = ledger@;
    let time = note_time(ledger, v, subagent);
    let ghost timed = ledger@;
    if same(v.text_or("type", ""), "assistant") {
        if let Some(message) = v.get("message") {
            let mid = message.text_at("id");
            let rid = v.text_at("requestId");
            if mid.is_some() && rid.is_some() {
                let mut key = mid.unwrap().to_string();
                key.append(":");
                key.append(rid.unwrap());
                let fresh = seen.insert(key);
                if !fresh {
                    assert(timed + turn_records(v@, old(seen)@) =~= timed);
                    assert(seen@ =~= seen_after(v@, old(seen)@));
                    return;
                }
            }
            if let Some(usage) = message.get("usage") {
                note_usage(ledger, v, message, usage, time);
            } else {
                assert(timed + turn_records(v@, old(seen)@) =~= timed);
            }
        } else {
            assert(timed + turn_records(v@, old(seen)@) =~= timed);
        }
    } else if let Some(ts) = time {
        ledger.note_event(ts, 0, v.text_at("sessionId"));
        assert(ledger@ =~= timed + turn_records(v@, old(seen)@));
    } else {
        assert(timed + turn_records(v@, old(seen)@) =~= timed);
    }
}

/// Reads the documents of one log file.
pub fn scan_documents(
    ledger: &mut Ledger,
    seen: &mut StringHashSet,
    docs: &Vec<Json>,
    subagent: bool,
)
    requires
        old(ledger).wf(),
    ensures
        final(ledger).wf(),
        (Reading { records: final(ledger)@, seen: final(seen)@ }) == read_file(
            Reading { records: old(ledger)@, seen: old(seen)@ },
            crate::json::trees(docs@),
            subagent,
        ),
{
    let ghost start = Reading { records: ledger@, seen: seen@ };
    let ghost all = crate::json::trees(docs@);
    let mut i: usize = 0;
    while i < docs.len()
        invariant
            i <= docs@.len(),
            ledger.wf(),
            all == crate::json::trees(docs@),
            (Reading { records: ledger@, seen: seen@ }) == read_file(
                start,
                all.take(i as int),
                subagent,
            ),
        decreases docs@.len() - i,
    {
        proof {
            assert(all.take(i + 1).drop_last() =~= all.take(i as int));
            assert(all.take(i + 1).last() == docs@[i as int]@);
        }
        scan_line(ledger, seen, &docs[i], subagent);
        i += 1;
    }
    assert(all.take(i as int) =~= all);
}

impl ClaudeCodeProvider {
    /// Usage from the session logs of the agent in the terminal and on the desktop.
    pub fn scan(&self, files: &Vec<LogFile>) -> (r: Result<ProviderResult, ScanError>)
        ensures
            match r {
                Ok(result) => files@.len() > 0 && result.wf() && result@ == claude_report(
                    log_views(files@),
                ),
                Err(error) => files@.len() == 0 && error.is_not_found(
                    "No "@ + agent_title() + " JSONL files found"@,
                ),
            },
    {
        if files.len() == 0 {
            let words = "No ".to_string().concat(agent_title_text().as_str()).concat(
                " JSONL files found",
            );
            return Err(ScanError::NotFound(words));
        }
        let mut ledger = Ledger::new();
        let mut seen = StringHashSet::new();
        let ghost all = log_views(files@);
        let mut i: usize = 0;
        while i < files.len()
            invariant
                i <= files@.len(),
                ledger.wf(),
                all == log_views(files@),
                (Reading { records: ledger@, seen: seen@ }) == read_files(all.take(i as int)),
            decreases files@.len() - i,
        {
            proof {
                assert(all.take(i + 1).drop_last() =~= all.take(i as int));
                assert(all.take(i + 1).last() == files@[i as int]@);
            }
            let subagent = contains(files[i].path.as_str(), "/subagents/");
            let docs = read_documents(&files[i].lines);
            scan_documents(&mut ledger, &mut seen, &docs, subagent);
            i += 1;
        }
        assert(all.take(i as int) =~= all);
        let buckets = build_daily_buckets(ledger.day_events().as_slice());
        Ok(ledger.report(agent_title_text().as_str(), buckets))
    }
}

} // verus!
