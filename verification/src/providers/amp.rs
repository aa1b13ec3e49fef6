//! Amp: one JSON file a thread, with a ledger of usage and the messages.

use crate::json::{json_document, parse_json, trees, Json, JsonTree};
use crate::ledger::{event_record, tokens_record, Ledger, Record};
use crate::logs::{document_views, name_or, name_or_else, DocumentFile, DocumentView};
use crate::providers::opencode::{close_account, is_plain_result, ms_to_secs, to_secs};
use crate::text::{
    decimal, decimal_i64, decimal_signed, decimal_u64, is_digit, law_numbers_are_told_apart,
    law_numbers_read_back, lemma_cut_at_last, same,
};
use crate::time_util::{either, iso8601_to_unix, iso_seconds, DayEvent};
use crate::types::{capped, ProviderResult, ScanError, TokenSums};
use vstd::hash_set::StringHashSet;
use vstd::prelude::*;

verus! {

pub struct AmpProvider;

/// The token counts of a turn.
#[derive(Debug, Clone, Copy, PartialEq, Eq, Structural)]
pub struct AmpCounts {
    pub input: u64,
    pub output: u64,
    pub cache_read: u64,
    pub cache_write: u64,
}

impl AmpCounts {
    /// Whether nothing was spent.
    pub open spec fn is_idle(self) -> bool {
        self.input == 0 && self.output == 0 && self.cache_read == 0 && self.cache_write == 0
    }
}

/// What tells one turn from another where the ids do not: the model and the counts.
pub open spec fn fingerprint(model: Seq<char>, counts: AmpCounts) -> Seq<char> {
    model + "|"@ + decimal(counts.input as nat) + "|"@ + decimal(counts.output as nat) + "|"@
        + decimal(counts.cache_read as nat) + "|"@ + decimal(counts.cache_write as nat)
}

/// What has been read of a thread: the records, the messages and the turns that were counted.
#[verifier::ext_equal]
pub ghost struct Reading {
    pub records: Seq<Record>,
    pub ids: Set<Seq<char>>,
    pub turns: Set<Seq<char>>,
}

/// What is known of a thread as a whole.
#[verifier::ext_equal]
pub ghost struct Thread {
    pub session: Seq<char>,
    pub created: Option<i64>,
    pub modified: Option<i64>,
}

/// What a time tells; one that is not after 1970 tells nothing.
pub open spec fn moment(session: Seq<char>, ts: i64) -> Seq<Record> {
    if ts > 0 {
        seq![Record::Moment(Some(session), ts)]
    } else {
        Seq::empty()
    }
}

/// When a turn took place, if it does not say so itself: when the thread was made, or else when
/// its file was written.
pub open spec fn thread_time(thread: Thread) -> i64 {
    match either(thread.created, thread.modified) {
        Some(ts) => ts,
        None => 0,
    }
}

/// Counts a turn, unless nothing was spent or the same was counted before.
pub open spec fn count_turn(
    state: Reading,
    session: Seq<char>,
    model: Seq<char>,
    counts: AmpCounts,
    ts: i64,
) -> Reading {
    if counts.is_idle() || state.turns.contains(fingerprint(model, counts)) {
        state
    } else {
        Reading {
            records: state.records + (seq![
                tokens_record(
                    model,
                    counts.input,
                    counts.output,
                    0,
                    counts.cache_read,
                    counts.cache_write,
                ),
            ] + moment(session, ts) + seq![
                event_record(ts, capped(counts.input + counts.output), Some(session)),
            ]),
            turns: state.turns.insert(fingerprint(model, counts)),
            ..state
        }
    }
}

/// The counts of an event of the ledger.
pub open spec fn ledger_counts(t: JsonTree) -> AmpCounts {
    AmpCounts {
        input: t.count_at("input"@),
        output: t.count_at("output"@),
        cache_read: t.count_at("cache_read_input"@),
        cache_write: t.count_at("cache_creation_input"@),
    }
}

/// When an event of the ledger took place.
pub open spec fn event_time(thread: Thread, ev: JsonTree) -> i64 {
    match ev.text_at("timestamp"@) {
        Some(text) => match iso_seconds(text) {
            Some(ts) => ts,
            None => thread_time(thread),
        },
        None => thread_time(thread),
    }
}

/// Reads an event of the ledger.
pub open spec fn read_event(state: Reading, thread: Thread, ev: JsonTree) -> Reading {
    match ev.get("tokens"@) {
        Some(t) => count_turn(
            state,
            thread.session,
            ev.text_or("model"@, "unknown"@),
            ledger_counts(t),
            event_time(thread, ev),
        ),
        None => state,
    }
}

/// Reads some events of the ledger.
pub open spec fn read_events(state: Reading, thread: Thread, events: Seq<JsonTree>) -> Reading
    decreases events.len(),
{
    if events.len() == 0 {
        state
    } else {
        read_event(read_events(state, thread, events.drop_last()), thread, events.last())
    }
}

/// A count under one key, or under another where the first is missing.
pub open spec fn count_either(usage: JsonTree, first: Seq<char>, second: Seq<char>) -> u64 {
    match usage.get_either(first, second) {
        Some(x) => match x.unsigned() {
            Some(n) => n,
            None => 0,
        },
        None => 0,
    }
}

/// The counts of a message.
pub open spec fn message_counts(usage: JsonTree) -> AmpCounts {
    AmpCounts {
        input: count_either(usage, "input_tokens"@, "input"@),
        output: count_either(usage, "output_tokens"@, "output"@),
        cache_read: count_either(usage, "cache_read_input_tokens"@, "cache_read_input"@),
        cache_write: count_either(usage, "cache_creation_input_tokens"@, "cache_creation_input"@),
    }
}

/// The id of a message.
pub open spec fn message_id(msg: JsonTree) -> Option<Seq<char>> {
    match msg.signed_at("messageId"@) {
        Some(n) => Some(decimal_signed(n as int)),
        None => msg.text_at("id"@),
    }
}

/// Reads a message.
pub open spec fn read_message(state: Reading, thread: Thread, msg: JsonTree) -> Reading {
    if msg.text_or("role"@, ""@) != "assistant"@ {
        state
    } else if message_id(msg) matches Some(id) && state.ids.contains(id) {
        state
    } else {
        let met = match message_id(msg) {
            Some(id) => Reading { ids: state.ids.insert(id), ..state },
            None => state,
        };
        match msg.get("usage"@) {
            Some(usage) => count_turn(
                met,
                thread.session,
                msg.text_or("model"@, "unknown"@),
                message_counts(usage),
                thread_time(thread),
            ),
            None => met,
        }
    }
}

/// Reads some messages.
pub open spec fn read_messages(state: Reading, thread: Thread, messages: Seq<JsonTree>) -> Reading
    decreases messages.len(),
{
    if messages.len() == 0 {
        state
    } else {
        read_message(read_messages(state, thread, messages.drop_last()), thread, messages.last())
    }
}

/// What the file of a thread says of the thread as a whole.
pub open spec fn thread_of(file: DocumentView, v: JsonTree) -> Thread {
    Thread {
        session: name_or(either(v.text_at("id"@), file.stem), "unknown"@),
        created: match v.signed_at("created"@) {
            Some(ms) => Some(to_secs(ms)),
            None => None,
        },
        modified: file.modified,
    }
}

/// The events of a thread's ledger.
pub open spec fn ledger_events(v: JsonTree) -> Seq<JsonTree> {
    match v.get_in("usageLedger"@, "events"@) {
        Some(e) => match e.items() {
            Some(items) => items,
            None => Seq::empty(),
        },
        None => Seq::empty(),
    }
}

/// The messages of a thread.
pub open spec fn thread_messages(v: JsonTree) -> Seq<JsonTree> {
    match v.items_at("messages"@) {
        Some(items) => items,
        None => Seq::empty(),
    }
}

/// What a thread tells: its session, the turns in its ledger, those of its messages that the
/// ledger does not have, and when it was made.
pub open spec fn thread_records(file: DocumentView, v: JsonTree) -> Seq<Record> {
    let thread = thread_of(file, v);
    let start = Reading {
        records: seq![Record::Session(thread.session)],
        ids: Set::empty(),
        turns: Set::empty(),
    };
    let done = read_messages(
        read_events(start, thread, ledger_events(v)),
        thread,
        thread_messages(v),
    );
    done.records + match thread.created {
        Some(ts) => moment(thread.session, ts),
        None => Seq::empty(),
    }
}

/// What some files of threads tell.
pub open spec fn amp_records(files: Seq<DocumentView>) -> Seq<Record>
    decreases files.len(),
{
    if files.len() == 0 {
        Seq::empty()
    } else {
        amp_records(files.drop_last()) + match json_document(files.last().content) {
            Some(v) => thread_records(files.last(), v),
            None => Seq::empty(),
        }
    }
}

/// A message whose model and counts stand in the ledger, or in an earlier message, is not
/// counted again.
pub proof fn law_turn_counts_once(
    state: Reading,
    session: Seq<char>,
    model: Seq<char>,
    counts: AmpCounts,
    ts: i64,
    later: i64,
)
    ensures
        count_turn(count_turn(state, session, model, counts, ts), session, model, counts, later)
            == count_turn(state, session, model, counts, ts),
{
}

proof fn lemma_field(a: Seq<char>, m: nat, b: Seq<char>, n: nat)
    requires
        a + "|"@ + decimal(m) == b + "|"@ + decimal(n),
    ensures
        a == b,
        m == n,
{
    reveal_strlit("|");
    law_numbers_read_back(m);
    law_numbers_read_back(n);
    assert(a + "|"@ + decimal(m) =~= a.push('|') + decimal(m));
    assert(b + "|"@ + decimal(n) =~= b.push('|') + decimal(n));
    assert(!decimal(m).contains('|')) by {
        if decimal(m).contains('|') {
            assert(is_digit(decimal(m)[decimal(m).index_of('|')]));
        }
    }
    assert(!decimal(n).contains('|')) by {
        if decimal(n).contains('|') {
            assert(is_digit(decimal(n)[decimal(n).index_of('|')]));
        }
    }
    lemma_cut_at_last(a, decimal(m), b, decimal(n), '|');
    law_numbers_are_told_apart(m, n);
}

/// Two turns of a thread are taken for the same exactly if the model and all four counts are the same.
pub proof fn law_turns_are_told_apart(
    model: Seq<char>,
    counts: AmpCounts,
    other: Seq<char>,
    others: AmpCounts,
)
    ensures
        fingerprint(model, counts) == fingerprint(other, others) <==> model == other
            && counts.input == others.input && counts.output == others.output && counts.cache_read
            == others.cache_read && counts.cache_write == others.cache_write,
{
    if fingerprint(model, counts) == fingerprint(other, others) {
        let a1 = model + "|"@ + decimal(counts.input as nat);
        let b1 = other + "|"@ + decimal(others.input as nat);
        let a2 = a1 + "|"@ + decimal(counts.output as nat);
        let b2 = b1 + "|"@ + decimal(others.output as nat);
        let a3 = a2 + "|"@ + decimal(counts.cache_read as nat);
        let b3 = b2 + "|"@ + decimal(others.cache_read as nat);
        lemma_field(a3, counts.cache_write as nat, b3, others.cache_write as nat);
        lemma_field(a2, counts.cache_read as nat, b2, others.cache_read as nat);
        lemma_field(a1, counts.output as nat, b1, others.output as nat);
        lemma_field(model, counts.input as nat, other, others.input as nat);
    }
}

/// A turn: its model and its counts.
pub ghost struct Turn {
    pub model: Seq<char>,
    pub counts: AmpCounts,
}

/// The turn that an event of the ledger tells of.
pub open spec fn turn_of_event(ev: JsonTree) -> Option<Turn> {
    match ev.get("tokens"@) {
        Some(t) => Some(
            Turn {
                model: ev.text_or("model"@, "unknown"@),
                counts: AmpCounts {
                    input: t.count_at("input"@),
                    output: t.count_at("output"@),
                    cache_read: t.count_at("cache_read_input"@),
                    cache_write: t.count_at("cache_creation_input"@),
                },
            },
        ),
        None => None,
    }
}

/// Whether anything was spent in a turn.
pub open spec fn has_tokens(turn: Turn) -> bool {
    turn.counts.input + turn.counts.output + turn.counts.cache_read + turn.counts.cache_write > 0
}

/// What a thread knows of its turns after its ledger: exactly those that an event tells of.
pub proof fn law_ledger_tells_turns(thread: Thread, start: Reading, events: Seq<JsonTree>, turn: Turn)
    requires
        start.turns =~= Set::empty(),
        has_tokens(turn),
    ensures
        read_events(start, thread, events).turns.contains(fingerprint(turn.model, turn.counts))
            <==> exists|i: int|
            0 <= i < events.len() && turn_of_event(#[trigger] events[i]) == Some(turn),
        read_events(start, thread, events).ids == start.ids,
    decreases events.len(),
{
    if events.len() > 0 {
        let before = events.drop_last();
        let ev = events.last();
        law_ledger_tells_turns(thread, start, before, turn);
        if let Some(t) = turn_of_event(ev) {
            law_turns_are_told_apart(turn.model, turn.counts, t.model, t.counts);
            assert(t == turn <==> t.model == turn.model && t.counts == turn.counts);
        }
        if exists|i: int| 0 <= i < before.len() && turn_of_event(#[trigger] before[i]) == Some(turn) {
            let i = choose|i: int|
                0 <= i < before.len() && turn_of_event(#[trigger] before[i]) == Some(turn);
            assert(turn_of_event(events[i]) == Some(turn));
        }
        if exists|i: int| 0 <= i < events.len() && turn_of_event(#[trigger] events[i]) == Some(turn) {
            let i = choose|i: int|
                0 <= i < events.len() && turn_of_event(#[trigger] events[i]) == Some(turn);
            if i < before.len() {
                assert(turn_of_event(before[i]) == Some(turn));
            }
        }
        if turn_of_event(ev) == Some(turn) {
            assert(turn_of_event(events[events.len() - 1]) == Some(turn));
        }
    }
}

/// What a turn that is counted adds to a thread: the tokens of its model, and at its time, where that
/// is after 1970, that the session was at work. It counts on its day with input and output.
pub open spec fn adds_turn(
    before: Seq<Record>,
    after: Seq<Record>,
    session: Seq<char>,
    turn: Turn,
    ts: i64,
) -> bool {
    let day = turn.counts.input + turn.counts.output;
    let sums = TokenSums {
        input: turn.counts.input as nat,
        output: turn.counts.output as nat,
        cache_read: turn.counts.cache_read as nat,
        cache_creation: turn.counts.cache_write as nat,
    };
    let event = DayEvent {
        ts,
        tokens: if day <= u64::MAX {
            day as u64
        } else {
            u64::MAX
        },
        session: Some(session),
    };
    if ts > 0 {
        after == before + seq![
            Record::Tokens(turn.model, sums),
            Record::Moment(Some(session), ts),
            Record::Event(event),
        ]
    } else {
        after == before + seq![Record::Tokens(turn.model, sums), Record::Event(event)]
    }
}

proof fn lemma_counted(state: Reading, session: Seq<char>, turn: Turn, ts: i64)
    ensures
        ({
            let after = count_turn(state, session, turn.model, turn.counts, ts);
            let known = state.turns.contains(fingerprint(turn.model, turn.counts));
            &&& has_tokens(turn) && !known ==> adds_turn(
                state.records,
                after.records,
                session,
                turn,
                ts,
            )
            &&& !has_tokens(turn) || known ==> after == state
        }),
{
    let after = count_turn(state, session, turn.model, turn.counts, ts);
    let c = turn.counts;
    let tokens = tokens_record(turn.model, c.input, c.output, 0, c.cache_read, c.cache_write);
    let event = event_record(ts, capped(c.input + c.output), Some(session));
    if ts > 0 {
        assert(seq![tokens] + moment(session, ts) + seq![event] =~= seq![
            tokens,
            Record::Moment(Some(session), ts),
            event,
        ]);
    } else {
        assert(seq![tokens] + moment(session, ts) + seq![event] =~= seq![tokens, event]);
    }
}

/// Every event of a thread's ledger that spends tokens is a turn, unless one before it in the ledger has
/// the same model and the same counts: it adds its tokens at its own time, or else when the thread was
/// made or its file written. Another event adds nothing.
pub proof fn law_every_event_counts(
    thread: Thread,
    records: Seq<Record>,
    events: Seq<JsonTree>,
    ev: JsonTree,
)
    ensures
        ({
            let start = Reading { records, ids: Set::empty(), turns: Set::empty() };
            let before = read_events(start, thread, events);
            let after = read_events(start, thread, events.push(ev));
            let turn = turn_of_event(ev)->0;
            let repeated = exists|i: int|
                0 <= i < events.len() && turn_of_event(#[trigger] events[i]) == Some(turn);
            let counts = turn_of_event(ev) is Some && has_tokens(turn) && !repeated;
            let fallback = match thread.created {
                Some(ts) => ts,
                None => match thread.modified {
                    Some(ts) => ts,
                    None => 0,
                },
            };
            let ts = match ev.text_at("timestamp"@) {
                Some(text) => match iso_seconds(text) {
                    Some(ts) => ts,
                    None => fallback,
                },
                None => fallback,
            };
            &&& counts ==> adds_turn(before.records, after.records, thread.session, turn, ts)
            &&& !counts ==> after.records == before.records
        }),
{
    assert(events.push(ev).drop_last() =~= events);
    let start = Reading { records, ids: Set::empty(), turns: Set::empty() };
    if let Some(turn) = turn_of_event(ev) {
        if has_tokens(turn) {
            law_ledger_tells_turns(thread, start, events, turn);
        }
        lemma_counted(
            read_events(start, thread, events),
            thread.session,
            turn,
            event_time(thread, ev),
        );
    }
}

/// The count under one key, or under another where the first is not there.
pub open spec fn count_at_either(usage: JsonTree, first: Seq<char>, second: Seq<char>) -> u64 {
    if usage.get(first) is Some {
        usage.count_at(first)
    } else {
        usage.count_at(second)
    }
}

/// The turn that a message of the assistant tells of.
pub open spec fn turn_of_message(msg: JsonTree) -> Option<Turn> {
    if msg.text_at("role"@) == Some("assistant"@) && msg.get("usage"@) is Some {
        let usage = msg.get("usage"@)->0;
        Some(
            Turn {
                model: msg.text_or("model"@, "unknown"@),
                counts: AmpCounts {
                    input: count_at_either(usage, "input_tokens"@, "input"@),
                    output: count_at_either(usage, "output_tokens"@, "output"@),
                    cache_read: count_at_either(
                        usage,
                        "cache_read_input_tokens"@,
                        "cache_read_input"@,
                    ),
                    cache_write: count_at_either(
                        usage,
                        "cache_creation_input_tokens"@,
                        "cache_creation_input"@,
                    ),
                },
            },
        )
    } else {
        None
    }
}

/// The id of a message of the assistant: a number, or else a text.
pub open spec fn id_of_message(msg: JsonTree) -> Option<Seq<char>> {
    if msg.text_at("role"@) != Some("assistant"@) {
        None
    } else {
        match msg.signed_at("messageId"@) {
            Some(n) => Some(decimal_signed(n as int)),
            None => msg.text_at("id"@),
        }
    }
}

proof fn lemma_role(msg: JsonTree)
    ensures
        msg.text_or("role"@, ""@) == "assistant"@ <==> msg.text_at("role"@) == Some("assistant"@),
{
    reveal_strlit("");
    reveal_strlit("assistant");
    assert(""@.len() != "assistant"@.len());
}

proof fn lemma_message_ids(state: Reading, thread: Thread, messages: Seq<JsonTree>, id: Seq<char>)
    requires
        state.ids =~= Set::empty(),
    ensures
        read_messages(state, thread, messages).ids.contains(id) <==> exists|k: int|
            0 <= k < messages.len() && #[trigger] id_of_message(messages[k]) == Some(id),
    decreases messages.len(),
{
    if messages.len() > 0 {
        let before = messages.drop_last();
        let msg = messages.last();
        lemma_message_ids(state, thread, before, id);
        lemma_role(msg);
        if exists|k: int| 0 <= k < before.len() && #[trigger] id_of_message(before[k]) == Some(id) {
            let k = choose|k: int|
                0 <= k < before.len() && #[trigger] id_of_message(before[k]) == Some(id);
            assert(id_of_message(messages[k]) == Some(id));
        }
        if exists|k: int|
            0 <= k < messages.len() && #[trigger] id_of_message(messages[k]) == Some(id) {
            let k = choose|k: int|
                0 <= k < messages.len() && #[trigger] id_of_message(messages[k]) == Some(id);
            if k < before.len() {
                assert(id_of_message(before[k]) == Some(id));
            }
        }
        if id_of_message(msg) == Some(id) {
            assert(id_of_message(messages[messages.len() - 1]) == Some(id));
        }
    }
}

/// Every message of the assistant that spends tokens is a turn, unless a message with its id came
/// before it, or the thread has a turn of the same model and the same counts already, from its ledger
/// or from a message. It adds its tokens when the thread was made, or else when its file was written.
pub proof fn law_every_message_counts(
    thread: Thread,
    state: Reading,
    messages: Seq<JsonTree>,
    msg: JsonTree,
)
    requires
        state.ids =~= Set::empty(),
    ensures
        ({
            let before = read_messages(state, thread, messages);
            let after = read_messages(state, thread, messages.push(msg));
            let turn = turn_of_message(msg)->0;
            let known = before.turns.contains(fingerprint(turn.model, turn.counts));
            let repeated = exists|k: int|
                0 <= k < messages.len() && id_of_message(msg) is Some && #[trigger] id_of_message(
                    messages[k],
                ) == id_of_message(msg);
            let counts = turn_of_message(msg) is Some && has_tokens(turn) && !repeated && !known;
            let ts = match thread.created {
                Some(ts) => ts,
                None => match thread.modified {
                    Some(ts) => ts,
                    None => 0,
                },
            };
            &&& counts ==> adds_turn(before.records, after.records, thread.session, turn, ts)
                && after.turns == before.turns.insert(fingerprint(turn.model, turn.counts))
            &&& !counts ==> after.records == before.records && after.turns == before.turns
        }),
{
    assert(messages.push(msg).drop_last() =~= messages);
    lemma_role(msg);
    if let Some(id) = id_of_message(msg) {
        lemma_message_ids(state, thread, messages, id);
    }
    let before = read_messages(state, thread, messages);
    if let Some(turn) = turn_of_message(msg) {
        let met = match message_id(msg) {
            Some(id) => Reading { ids: before.ids.insert(id), ..before },
            None => before,
        };
        lemma_counted(met, thread.session, turn, thread_time(thread));
    }
}

/// A thread tells of its session, then of the turns in its ledger, then of those in its messages, and
/// last when it was made. Its session is the id that it carries, or else the name of its file. Files
/// add up, and one that is no JSON tells nothing.
pub proof fn law_threads_add_up(files: Seq<DocumentView>, file: DocumentView)
    ensures
        ({
            let v = json_document(file.content)->0;
            let thread = Thread {
                session: match v.text_at("id"@) {
                    Some(id) => id,
                    None => name_or(file.stem, "unknown"@),
                },
                created: match v.signed_at("created"@) {
                    Some(ms) => Some(
                        if ms > 10_000_000_000 {
                            (ms / 1000) as i64
                        } else {
                            ms
                        },
                    ),
                    None => None,
                },
                modified: file.modified,
            };
            let start = Reading {
                records: seq![Record::Session(thread.session)],
                ids: Set::empty(),
                turns: Set::empty(),
            };
            let events = match v.get_in("usageLedger"@, "events"@) {
                Some(JsonTree::Array(items)) => items,
                _ => Seq::empty(),
            };
            let messages = match v.get("messages"@) {
                Some(JsonTree::Array(items)) => items,
                _ => Seq::empty(),
            };
            let told = read_messages(read_events(start, thread, events), thread, messages).records;
            &&& json_document(file.content) is None ==> amp_records(files.push(file))
                == amp_records(files)
            &&& json_document(file.content) is Some ==> amp_records(files.push(file))
                == amp_records(files) + (told + (if thread.created is Some && thread.created->0 > 0 {
                seq![Record::Moment(Some(thread.session), thread.created->0)]
            } else {
                Seq::empty()
            }))
        }),
        amp_records(Seq::empty()).len() == 0,
{
    assert(files.push(file).drop_last() =~= files);
    let before = amp_records(files);
    assert(before + Seq::<Record>::empty() =~= before);
}

/// The account of one thread while it is read.
struct ThreadScan {
    session: String,
    created: Option<i64>,
    modified: Option<i64>,
    ids: StringHashSet,
    turns: StringHashSet,
}

impl ThreadScan {
    spec fn thread(&self) -> Thread {
        Thread { session: self.session@, created: self.created, modified: self.modified }
    }

    fn time(&self) -> (r: i64)
        ensures
            r == thread_time(self.thread()),
    {
        match self.created {
            Some(ts) => ts,
            None => match self.modified {
                Some(ts) => ts,
                None => 0,
            },
        }
    }
}

fn push_ts(ledger: &mut Ledger, session: &str, ts: i64)
    requires
        old(ledger).wf(),
    ensures
        final(ledger).wf(),
        final(ledger)@ == old(ledger)@ + moment(session@, ts),
{
    let ghost before = ledger@;
    if ts > 0 {
        ledger.note_moment(Some(session), ts);
    }
    assert(ledger@ =~= before + moment(session@, ts));
}

fn fingerprint_of(model: &str, counts: AmpCounts) -> (r: String)
    ensures
        r@ == fingerprint(model@, counts),
{
    let mut key = model.to_string();
    key.append("|");
    key.append(decimal_u64(counts.input).as_str());
    key.append("|");
    key.append(decimal_u64(counts.output).as_str());
    key.append("|");
    key.append(decimal_u64(counts.cache_read).as_str());
    key.append("|");
    key.append(decimal_u64(counts.cache_write).as_str());
    key
}

fn scan_turn(
    ledger: &mut Ledger,
    turns: &mut StringHashSet,
    session: &str,
    model: &str,
    counts: AmpCounts,
    ts: i64,
    Ghost(ids): Ghost<Set<Seq<char>>>,
)
    requires
        old(ledger).wf(),
    ensures
        final(ledger).wf(),
        (Reading { records: final(ledger)@, ids, turns: final(turns)@ }) == count_turn(
            Reading { records: old(ledger)@, ids, turns: old(turns)@ },
            session@,
            model@,
            counts,
            ts,
        ),
{
    let ghost before = ledger@;
    if counts.input == 0 && counts.output == 0 && counts.cache_read == 0 && counts.cache_write
        == 0 {
        return;
    }
    if !turns.insert(fingerprint_of(model, counts)) {
        assert(turns@ =~= old(turns)@);
        return;
    }
    ledger.note_tokens(
        model,
        counts.input,
        counts.output,
        0,
        counts.cache_read,
        counts.cache_write,
    );
    push_ts(ledger, session, ts);
    ledger.note_event(ts, counts.input.saturating_add(counts.output), Some(session));
    assert(ledger@ =~= before + (seq![
        tokens_record(
            model@,
            counts.input,
            counts.output,
            0,
            counts.cache_read,
            counts.cache_write,
        ),
    ] + moment(session@, ts) + seq![
        event_record(ts, capped(counts.input + counts.output), Some(session@)),
    ]));
}

fn scan_event(ledger: &mut Ledger, scan: &mut ThreadScan, ev: &Json)
    requires
        old(ledger).wf(),
    ensures
        final(ledger).wf(),
        final(scan).thread() == old(scan).thread(),
        (Reading { records: final(ledger)@, ids: final(scan).ids@, turns: final(scan).turns@ })
            == read_event(
            Reading { records: old(ledger)@, ids: old(scan).ids@, turns: old(scan).turns@ },
            old(scan).thread(),
            ev@,
        ),
{
    let fallback: i64 = scan.time();
    let ts: i64 = match ev.text_at("timestamp") {
        Some(text) => match iso8601_to_unix(text) {
            Some(ts) => ts,
            None => fallback,
        },
        None => fallback,
    };
    if let Some(t) = ev.get("tokens") {
        let counts = AmpCounts {
            input: t.count_at("input"),
            output: t.count_at("output"),
            cache_read: t.count_at("cache_read_input"),
            cache_write: t.count_at("cache_creation_input"),
        };
        scan_turn(
            ledger,
            &mut scan.turns,
            scan.session.as_str(),
            ev.text_or("model", "unknown"),
            counts,
            ts,
            Ghost(scan.ids@),
        );
    }
}

fn count_of(usage: &Json, first: &str, second: &str) -> (r: u64)
    ensures
        r == count_either(usage@, first@, second@),
{
    match usage.get_either(first, second) {
        Some(x) => match x.as_u64() {
            Some(n) => n,
            None => 0,
        },
        None => 0,
    }
}

fn scan_message(ledger: &mut Ledger, scan: &mut ThreadScan, msg: &Json)
    requires
        old(ledger).wf(),
    ensures
        final(ledger).wf(),
        final(scan).thread() == old(scan).thread(),
        (Reading { records: final(ledger)@, ids: final(scan).ids@, turns: final(scan).turns@ })
            == read_message(
            Reading { records: old(ledger)@, ids: old(scan).ids@, turns: old(scan).turns@ },
            old(scan).thread(),
            msg@,
        ),
{
    if !same(msg.text_or("role", ""), "assistant") {
        return;
    }
    let id: Option<String> = match msg.signed_at("messageId") {
        Some(n) => Some(decimal_i64(n)),
        None => match msg.text_at("id") {
            Some(s) => Some(s.to_string()),
            None => None,
        },
    };
    if let Some(id) = id {
        let ghost known = scan.ids@;
        if !scan.ids.insert(id) {
            assert(scan.ids@ =~= known);
            return;
        }
    }
    if let Some(usage) = msg.get("usage") {
        let counts = AmpCounts {
            input: count_of(usage, "input_tokens", "input"),
            output: count_of(usage, "output_tokens", "output"),
            cache_read: count_of(usage, "cache_read_input_tokens", "cache_read_input"),
            cache_write: count_of(usage, "cache_creation_input_tokens", "cache_creation_input"),
        };
        let ts: i64 = scan.time();
        scan_turn(
            ledger,
            &mut scan.turns,
            scan.session.as_str(),
            msg.text_or("model", "unknown"),
            counts,
            ts,
            Ghost(scan.ids@),
        );
    }
}

fn scan_events(ledger: &mut Ledger, scan: &mut ThreadScan, events: &Vec<Json>)
    requires
        old(ledger).wf(),
    ensures
        final(ledger).wf(),
        final(scan).thread() == old(scan).thread(),
        (Reading { records: final(ledger)@, ids: final(scan).ids@, turns: final(scan).turns@ })
            == read_events(
            Reading { records: old(ledger)@, ids: old(scan).ids@, turns: old(scan).turns@ },
            old(scan).thread(),
            trees(events@),
        ),
{
    let ghost start = Reading { records: ledger@, ids: scan.ids@, turns: scan.turns@ };
    let ghost thread = scan.thread();
    let ghost all = trees(events@);
    let mut i: usize = 0;
    while i < events.len()
        invariant
            i <= events@.len(),
            ledger.wf(),
            all == trees(events@),
            scan.thread() == thread,
            (Reading { records: ledger@, ids: scan.ids@, turns: scan.turns@ }) == read_events(
                start,
                thread,
                all.take(i as int),
            ),
        decreases events@.len() - i,
    {
        proof {
            assert(all.take(i + 1).drop_last() =~= all.take(i as int));
            assert(all.take(i + 1).last() == events@[i as int]@);
        }
        scan_event(ledger, scan, &events[i]);
        i += 1;
    }
    assert(all.take(i as int) =~= all);
}

fn scan_messages(ledger: &mut Ledger, scan: &mut ThreadScan, messages: &Vec<Json>)
    requires
        old(ledger).wf(),
    ensures
        final(ledger).wf(),
        final(scan).thread() == old(scan).thread(),
        (Reading { records: final(ledger)@, ids: final(scan).ids@, turns: final(scan).turns@ })
            == read_messages(
            Reading { records: old(ledger)@, ids: old(scan).ids@, turns: old(scan).turns@ },
            old(scan).thread(),
            trees(messages@),
        ),
{
    let ghost start = Reading { records: ledger@, ids: scan.ids@, turns: scan.turns@ };
    let ghost thread = scan.thread();
    let ghost all = trees(messages@);
    let mut i: usize = 0;
    while i < messages.len()
        invariant
            i <= messages@.len(),
            ledger.wf(),
            all == trees(messages@),
            scan.thread() == thread,
            (Reading { records: ledger@, ids: scan.ids@, turns: scan.turns@ }) == read_messages(
                start,
                thread,
                all.take(i as int),
            ),
        decreases messages@.len() - i,
    {
        proof {
            assert(all.take(i + 1).drop_last() =~= all.take(i as int));
            assert(all.take(i + 1).last() == messages@[i as int]@);
        }
        scan_message(ledger, scan, &messages[i]);
        i += 1;
    }
    assert(all.take(i as int) =~= all);
}

proof fn lemma_turn_prefix(
    prefix: Seq<Record>,
    state: Reading,
    session: Seq<char>,
    model: Seq<char>,
    counts: AmpCounts,
    ts: i64,
)
    ensures
        count_turn(
            Reading { records: prefix + state.records, ..state },
            session,
            model,
            counts,
            ts,
        ) == {
            let after = count_turn(state, session, model, counts, ts);
            Reading { records: prefix + after.records, ..after }
        },
{
    let after = count_turn(state, session, model, counts, ts);
    let moved = count_turn(
        Reading { records: prefix + state.records, ..state },
        session,
        model,
        counts,
        ts,
    );
    assert(moved.records =~= prefix + after.records);
}

proof fn lemma_events_prefix(
    prefix: Seq<Record>,
    state: Reading,
    thread: Thread,
    events: Seq<JsonTree>,
)
    ensures
        read_events(Reading { records: prefix + state.records, ..state }, thread, events) == {
            let after = read_events(state, thread, events);
            Reading { records: prefix + after.records, ..after }
        },
    decreases events.len(),
{
    if events.len() > 0 {
        lemma_events_prefix(prefix, state, thread, events.drop_last());
        let before = read_events(state, thread, events.drop_last());
        let ev = events.last();
        match ev.get("tokens"@) {
            Some(t) => {
                lemma_turn_prefix(
                    prefix,
                    before,
                    thread.session,
                    ev.text_or("model"@, "unknown"@),
                    ledger_counts(t),
                    event_time(thread, ev),
                );
            },
            None => {},
        }
    }
}

proof fn lemma_messages_prefix(
    prefix: Seq<Record>,
    state: Reading,
    thread: Thread,
    messages: Seq<JsonTree>,
)
    ensures
        read_messages(Reading { records: prefix + state.records, ..state }, thread, messages) == {
            let after = read_messages(state, thread, messages);
            Reading { records: prefix + after.records, ..after }
        },
    decreases messages.len(),
{
    if messages.len() > 0 {
        lemma_messages_prefix(prefix, state, thread, messages.drop_last());
        let before = read_messages(state, thread, messages.drop_last());
        let msg = messages.last();
        let met = match message_id(msg) {
            Some(id) => Reading { ids: before.ids.insert(id), ..before },
            None => before,
        };
        match msg.get("usage"@) {
            Some(usage) => {
                lemma_turn_prefix(
                    prefix,
                    met,
                    thread.session,
                    msg.text_or("model"@, "unknown"@),
                    message_counts(usage),
                    thread_time(thread),
                );
            },
            None => {},
        }
    }
}

/// Reads one thread. The ledger of usage comes first; a message adds its usage only where the
/// ledger has no turn of the same model with the same counts.
pub fn scan_thread(ledger: &mut Ledger, file: &DocumentFile, v: &Json)
    requires
        old(ledger).wf(),
    ensures
        final(ledger).wf(),
        final(ledger)@ == old(ledger)@ + thread_records(file@, v@),
{
    let ghost before = ledger@;
    let session: &str = match v.text_at("id") {
        Some(id) => id,
        None => name_or_else(&file.stem, "unknown"),
    };
    ledger.note_session(session);
    let created: Option<i64> = match v.signed_at("created") {
        Some(ms) => Some(ms_to_secs(ms)),
        None => None,
    };
    let mut scan = ThreadScan {
        session: session.to_string(),
        created,
        modified: file.modified,
        ids: StringHashSet::new(),
        turns: StringHashSet::new(),
    };
    let ghost thread = thread_of(file@, v@);
    let ghost start = Reading {
        records: seq![Record::Session(thread.session)],
        ids: Set::empty(),
        turns: Set::empty(),
    };
    let ghost moved = Reading { records: before + start.records, ..start };
    assert(ledger@ =~= moved.records);
    match v.get_in("usageLedger", "events") {
        Some(e) => {
            if let Some(events) = e.as_array() {
                scan_events(ledger, &mut scan, events);
            }
        },
        None => {},
    }
    if let Some(messages) = v.items_at("messages") {
        scan_messages(ledger, &mut scan, messages);
    }
    proof {
        lemma_events_prefix(before, start, thread, ledger_events(v@));
        lemma_messages_prefix(
            before,
            read_events(start, thread, ledger_events(v@)),
            thread,
            thread_messages(v@),
        );
    }
    let ghost done = ledger@;
    if let Some(ts) = created {
        push_ts(ledger, session, ts);
    }
    assert(ledger@ =~= before + thread_records(file@, v@));
}

impl AmpProvider {
    /// Usage from the files of the threads in the thread directories.
    pub fn scan(&self, dirs: usize, files: &Vec<DocumentFile>) -> (r: Result<
        ProviderResult,
        ScanError,
    >)
        ensures
            if dirs == 0 {
                r matches Err(e) && e.is_not_found("Amp threads dir not found"@)
            } else {
                is_plain_result(
                    r,
                    "Amp"@,
                    amp_records(document_views(files@)),
                    "No Amp thread data found"@,
                )
            },
    {
        if dirs == 0 {
            return Err(ScanError::NotFound("Amp threads dir not found".to_string()));
        }
        let mut ledger = Ledger::new();
        let ghost all = document_views(files@);
        let mut i: usize = 0;
        while i < files.len()
            invariant
                i <= files@.len(),
                ledger.wf(),
                all == document_views(files@),
                ledger@ == amp_records(all.take(i as int)),
            decreases files@.len() - i,
        {
            proof {
                assert(all.take(i + 1).drop_last() =~= all.take(i as int));
                assert(all.take(i + 1).last() == files@[i as int]@);
            }
            let ghost before = ledger@;
            match parse_json(files[i].content.as_str()) {
                Some(v) => {
                    scan_thread(&mut ledger, &files[i], &v);
                },
                None => {
                    assert(before + Seq::<Record>::empty() =~= before);
                },
            }
            i += 1;
        }
        assert(all.take(i as int) =~= all);
        close_account(ledger, "Amp", "No Amp thread data found")
    }
}

} // verus!
