//! OpenClaw: one JSONL transcript a session, and an index of sessions in older versions.

use crate::json::{json_document, parse_json, trees, Json, JsonTree};
use crate::ledger::{note_turn, turn_records, Ledger, Record};
use crate::logs::{
    documents, has_one_more, lemma_one_more, log_views, name_or, name_or_else, read_documents,
    LogFile, LogView,
};
use crate::providers::opencode::{close_account, is_plain_result};
use crate::text::{same, str_opt, text_opt};
use crate::time_util::{either, iso8601_to_unix, iso_seconds};
use crate::types::{ProviderResult, ScanError};
use vstd::prelude::*;

verus! {

pub struct OpenClawProvider;

/// A transcript that an index of sessions points to.
pub enum IndexedLog {
    /// By a path: from the root of the installation, or absolute.
    AtPath(String),
    /// By a session, whose transcript stands under the session's name in `agents`.
    OfSession(String),
}

/// What an entry of the index points to.
#[verifier::ext_equal]
pub ghost enum IndexedView {
    AtPath(Seq<char>),
    OfSession(Seq<char>),
}

impl View for IndexedLog {
    type V = IndexedView;

    open spec fn view(&self) -> IndexedView {
        match self {
            IndexedLog::AtPath(p) => IndexedView::AtPath(p@),
            IndexedLog::OfSession(s) => IndexedView::OfSession(s@),
        }
    }
}

/// The text under one key, or under another where the first is missing.
pub open spec fn text_either(v: JsonTree, first: Seq<char>, second: Seq<char>) -> Option<
    Seq<char>,
> {
    match v.get_either(first, second) {
        Some(x) => x.text(),
        None => None,
    }
}

/// What an entry of the index points to. An entry is a session, or an object that names a path
/// or a session.
pub open spec fn entry_points_to(entry: JsonTree) -> Option<IndexedView> {
    match entry {
        JsonTree::Text(s) => Some(IndexedView::OfSession(s)),
        JsonTree::Object(_) => match text_either(entry, "path"@, "file"@) {
            Some(p) => Some(IndexedView::AtPath(p)),
            None => match text_either(entry, "sessionId"@, "id"@) {
                Some(s) => Some(IndexedView::OfSession(s)),
                None => None,
            },
        },
        _ => None,
    }
}

/// The entries of an index: the index is a list, or has one under `sessions`.
pub open spec fn index_entries(v: JsonTree) -> Option<Seq<JsonTree>> {
    match v.items() {
        Some(items) => Some(items),
        None => v.items_at("sessions"@),
    }
}

/// What the entries of an index point to.
pub open spec fn index_targets(entries: Seq<JsonTree>) -> Seq<IndexedView>
    decreases entries.len(),
{
    if entries.len() == 0 {
        Seq::empty()
    } else {
        let before = index_targets(entries.drop_last());
        match entry_points_to(entries.last()) {
            Some(target) => before.push(target),
            None => before,
        }
    }
}

/// The targets of a list.
pub open spec fn indexed_views(logs: Seq<IndexedLog>) -> Seq<IndexedView> {
    logs.map_values(|l: IndexedLog| l@)
}

fn text_of_either<'a>(v: &'a Json, first: &str, second: &str) -> (r: Option<&'a str>)
    ensures
        str_opt(r) == text_either(v@, first@, second@),
{
    match v.get_either(first, second) {
        Some(x) => x.as_str(),
        None => None,
    }
}

fn entry_target(entry: &Json) -> (r: Option<IndexedLog>)
    ensures
        match r {
            Some(t) => entry_points_to(entry@) == Some(t@),
            None => entry_points_to(entry@) is None,
        },
{
    match entry {
        Json::Text(s) => Some(IndexedLog::OfSession(s.clone())),
        Json::Object(_) => match text_of_either(entry, "path", "file") {
            Some(p) => Some(IndexedLog::AtPath(p.to_string())),
            None => match text_of_either(entry, "sessionId", "id") {
                Some(s) => Some(IndexedLog::OfSession(s.to_string())),
                None => None,
            },
        },
        _ => None,
    }
}

/// What the entries of an index point to.
pub fn session_targets(entries: &Vec<Json>) -> (r: Vec<IndexedLog>)
    ensures
        indexed_views(r@) == index_targets(trees(entries@)),
{
    let mut r: Vec<IndexedLog> = Vec::new();
    let ghost all = trees(entries@);
    let mut i: usize = 0;
    proof {
        assert(indexed_views(r@) =~= index_targets(all.take(0)));
    }
    while i < entries.len()
        invariant
            i <= entries@.len(),
            all == trees(entries@),
            indexed_views(r@) == index_targets(all.take(i as int)),
        decreases entries@.len() - i,
    {
        let ghost before = r@;
        proof {
            assert(all.take(i + 1).drop_last() =~= all.take(i as int));
            assert(all.take(i + 1).last() == entries@[i as int]@);
        }
        if let Some(target) = entry_target(&entries[i]) {
            r.push(target);
            assert(indexed_views(r@) =~= indexed_views(before).push(target@));
        }
        i += 1;
    }
    assert(all.take(i as int) =~= all);
    r
}

/// The transcripts that an index of sessions points to; `None` where the text is no index.
pub fn read_sessions_index(content: &str) -> (r: Option<Vec<IndexedLog>>)
    ensures
        match r {
            Some(targets) => json_document(content@) matches Some(v) && index_entries(
                v,
            ) matches Some(entries) && indexed_views(targets@) == index_targets(entries),
            None => json_document(content@) matches Some(v) ==> index_entries(v) is None,
        },
{
    match parse_json(content) {
        Some(v) => match v.as_array() {
            Some(entries) => Some(session_targets(entries)),
            None => match v.items_at("sessions") {
                Some(entries) => Some(session_targets(entries)),
                None => None,
            },
        },
        None => None,
    }
}

/// What has been read of a transcript: the records, and the model at work.
#[verifier::ext_equal]
pub ghost struct Reading {
    pub records: Seq<Record>,
    pub model: Option<Seq<char>>,
}

/// What a message tells of the session `session`, whose file was written at `modified`.
pub open spec fn message_records(
    msg: JsonTree,
    model: Option<Seq<char>>,
    session: Seq<char>,
    modified: Option<i64>,
) -> Seq<Record> {
    if msg.text_at("role"@) != Some("assistant"@) {
        Seq::empty()
    } else {
        match msg.get("usage"@) {
            Some(usage) => {
                let input = usage.count_at("input"@);
                let output = usage.count_at("output"@);
                let read = usage.count_at("cache_read"@);
                let write = usage.count_at("cache_write"@);
                if input == 0 && output == 0 && read == 0 && write == 0 {
                    Seq::empty()
                } else {
                    turn_records(
                        session,
                        name_or(either(msg.text_at("model"@), model), "unknown"@),
                        input,
                        output,
                        0,
                        read,
                        write,
                        stamped(msg, "timestamp"@, modified),
                    )
                }
            },
            None => Seq::empty(),
        }
    }
}

/// The time under a key, or another where it is missing or no date.
pub open spec fn stamped(v: JsonTree, key: Seq<char>, other: Option<i64>) -> Option<i64> {
    match v.text_at(key) {
        Some(text) => either(iso_seconds(text), other),
        None => other,
    }
}

/// Reads one line.
pub open spec fn read_line(
    state: Reading,
    v: JsonTree,
    session: Seq<char>,
    modified: Option<i64>,
) -> Reading {
    let kind = v.text_or("type"@, ""@);
    if kind == "model_change"@ {
        Reading { model: either(v.text_at("model"@), state.model), ..state }
    } else if kind == "custom"@ {
        match v.get_either("data"@, "snapshot"@) {
            Some(snap) => Reading { model: either(snap.text_at("model"@), state.model), ..state },
            None => state,
        }
    } else if kind == "message"@ {
        match v.get("message"@) {
            Some(msg) => Reading {
                records: state.records + message_records(msg, state.model, session, modified),
                ..state
            },
            None => state,
        }
    } else {
        state
    }
}

/// Reads the documents of a transcript, after some records of others.
pub open spec fn read_transcript(
    records: Seq<Record>,
    docs: Seq<JsonTree>,
    session: Seq<char>,
    modified: Option<i64>,
) -> Reading
    decreases docs.len(),
{
    if docs.len() == 0 {
        Reading { records, model: None }
    } else {
        read_line(
            read_transcript(records, docs.drop_last(), session, modified),
            docs.last(),
            session,
            modified,
        )
    }
}

/// Reads some transcripts.
pub open spec fn transcript_records(files: Seq<LogView>) -> Seq<Record>
    decreases files.len(),
{
    if files.len() == 0 {
        Seq::empty()
    } else {
        read_transcript(
            transcript_records(files.drop_last()),
            documents(files.last().lines),
            name_or(files.last().stem, "unknown"@),
            files.last().modified,
        ).records
    }
}

/// The model that a line announces: a change of the model, or a snapshot that names one.
pub open spec fn announced(v: JsonTree) -> Option<Seq<char>> {
    if v.text_at("type"@) == Some("model_change"@) {
        v.text_at("model"@)
    } else if v.text_at("type"@) == Some("custom"@) {
        match v.get("data"@) {
            Some(data) => data.text_at("model"@),
            None => match v.get("snapshot"@) {
                Some(snapshot) => snapshot.text_at("model"@),
                None => None,
            },
        }
    } else {
        None
    }
}

/// The model that some lines announced last.
pub open spec fn at_work(docs: Seq<JsonTree>) -> Option<Seq<char>>
    decreases docs.len(),
{
    if docs.len() == 0 {
        None
    } else if announced(docs.last()) is Some {
        announced(docs.last())
    } else {
        at_work(docs.drop_last())
    }
}

proof fn lemma_kinds(v: JsonTree)
    ensures
        v.text_or("type"@, ""@) == "model_change"@ <==> v.text_at("type"@) == Some(
            "model_change"@,
        ),
        v.text_or("type"@, ""@) == "custom"@ <==> v.text_at("type"@) == Some("custom"@),
        v.text_or("type"@, ""@) == "message"@ <==> v.text_at("type"@) == Some("message"@),
        "model_change"@ != "custom"@,
        "model_change"@ != "message"@,
        "custom"@ != "message"@,
{
    reveal_strlit("");
    reveal_strlit("model_change");
    reveal_strlit("custom");
    reveal_strlit("message");
    assert("model_change"@.len() == 12 && "custom"@.len() == 6 && "message"@.len() == 7);
}

proof fn lemma_after_others(
    records: Seq<Record>,
    docs: Seq<JsonTree>,
    session: Seq<char>,
    modified: Option<i64>,
)
    ensures
        ({
            let alone = read_transcript(Seq::empty(), docs, session, modified);
            let state = read_transcript(records, docs, session, modified);
            &&& state.records == records + alone.records
            &&& state.model == alone.model
            &&& state.model == at_work(docs)
        }),
    decreases docs.len(),
{
    let alone = read_transcript(Seq::empty(), docs, session, modified);
    let state = read_transcript(records, docs, session, modified);
    if docs.len() > 0 {
        lemma_after_others(records, docs.drop_last(), session, modified);
        lemma_kinds(docs.last());
    }
    assert(state.records =~= records + alone.records);
}

/// Every message of the assistant that counts tokens is a turn of its own: one more adds it to the
/// session of its transcript, with the model that it names itself, or else the one that a line before
/// it in the transcript announced last, at its time or else when the file was written. A line of
/// another kind, or without any tokens, adds nothing.
pub proof fn law_every_turn_counts(
    files: Seq<LogView>,
    file: LogView,
    longer: LogView,
    v: JsonTree,
)
    requires
        has_one_more(longer, file, v),
    ensures
        ({
            let before = transcript_records(files.push(file));
            let after = transcript_records(files.push(longer));
            let msg = v.get("message"@)->0;
            let usage = msg.get("usage"@)->0;
            let input = usage.count_at("input"@);
            let output = usage.count_at("output"@);
            let read = usage.count_at("cache_read"@);
            let write = usage.count_at("cache_write"@);
            let counts = v.text_at("type"@) == Some("message"@) && v.get("message"@) is Some
                && msg.text_at("role"@) == Some("assistant"@) && msg.get("usage"@) is Some && input
                + output + read + write > 0;
            let model = match msg.text_at("model"@) {
                Some(m) => m,
                None => match at_work(documents(file.lines)) {
                    Some(m) => m,
                    None => "unknown"@,
                },
            };
            let time = match msg.text_at("timestamp"@) {
                Some(text) => match iso_seconds(text) {
                    Some(ts) => Some(ts),
                    None => file.modified,
                },
                None => file.modified,
            };
            &&& counts ==> after == before + turn_records(
                name_or(file.stem, "unknown"@),
                model,
                input,
                output,
                0,
                read,
                write,
                time,
            )
            &&& !counts ==> after == before
        }),
{
    lemma_one_more(longer, file, v);
    assert(files.push(longer).drop_last() =~= files);
    assert(files.push(file).drop_last() =~= files);
    let session = name_or(file.stem, "unknown"@);
    lemma_after_others(
        transcript_records(files),
        documents(file.lines),
        session,
        file.modified,
    );
    lemma_kinds(v);
    let before = transcript_records(files.push(file));
    assert(before + Seq::<Record>::empty() =~= before);
}

/// Only the documents of a transcript count, with its session and its time: lines that are blank or no
/// JSON do not matter.
pub proof fn law_only_documents_count(files: Seq<LogView>, file: LogView, other: LogView)
    requires
        documents(file.lines) == documents(other.lines),
        file.stem == other.stem,
        file.modified == other.modified,
    ensures
        transcript_records(files.push(file)) == transcript_records(files.push(other)),
{
    assert(files.push(file).drop_last() =~= files);
    assert(files.push(other).drop_last() =~= files);
}

/// Transcripts are read one after the other: one more leaves what the others tell as it is, and a
/// model that one announces is not at work in another.
pub proof fn law_transcripts_add_up(files: Seq<LogView>, file: LogView)
    ensures
        transcript_records(files.push(file)) == transcript_records(files) + transcript_records(
            seq![file],
        ),
        documents(file.lines).len() == 0 ==> transcript_records(seq![file]).len() == 0,
        transcript_records(Seq::empty()).len() == 0,
{
    assert(files.push(file).drop_last() =~= files);
    assert(seq![file].drop_last() =~= Seq::empty());
    assert(transcript_records(Seq::empty()) =~= Seq::empty());
    lemma_after_others(
        transcript_records(files),
        documents(file.lines),
        name_or(file.stem, "unknown"@),
        file.modified,
    );
}

/// The entries of an index are its items, where it is a list, or else the items under `sessions`. What
/// has neither is no index.
pub proof fn law_index_has_its_entries(v: JsonTree)
    ensures
        v matches JsonTree::Array(items) ==> index_entries(v) == Some(items),
        !(v is Array) && v.get("sessions"@) is Some && v.get("sessions"@)->0 is Array
            ==> index_entries(v) == Some(v.get("sessions"@)->0->Array_0),
        !(v is Array) && (v.get("sessions"@) is None || !(v.get("sessions"@)->0 is Array))
            ==> index_entries(v) is None,
{
}

/// An index points to a transcript for every entry that is a text or names a path or a session, in
/// order: a text is a session, a path goes before a session, and any other entry points nowhere.
pub proof fn law_index_entry_points(entries: Seq<JsonTree>, entry: JsonTree)
    ensures
        entry matches JsonTree::Text(s) ==> index_targets(entries.push(entry)) == index_targets(
            entries,
        ).push(IndexedView::OfSession(s)),
        entry is Object && entry.text_at("path"@) is Some ==> index_targets(entries.push(entry))
            == index_targets(entries).push(IndexedView::AtPath(entry.text_at("path"@)->0)),
        entry is Object && entry.get("path"@) is None && entry.text_at("file"@) is Some
            ==> index_targets(entries.push(entry)) == index_targets(entries).push(
            IndexedView::AtPath(entry.text_at("file"@)->0),
        ),
        entry is Object && entry.get("path"@) is None && entry.get("file"@) is None
            && entry.text_at("sessionId"@) is Some ==> index_targets(entries.push(entry))
            == index_targets(entries).push(
            IndexedView::OfSession(entry.text_at("sessionId"@)->0),
        ),
        entry is Object && entry.get("path"@) is None && entry.get("file"@) is None && entry.get(
            "sessionId"@,
        ) is None && entry.text_at("id"@) is Some ==> index_targets(entries.push(entry))
            == index_targets(entries).push(IndexedView::OfSession(entry.text_at("id"@)->0)),
        entry is Object && entry.get("path"@) is None && entry.get("file"@) is None && entry.get(
            "sessionId"@,
        ) is None && entry.get("id"@) is None ==> index_targets(entries.push(entry))
            == index_targets(entries),
        !(entry is Text) && !(entry is Object) ==> index_targets(entries.push(entry))
            == index_targets(entries),
        index_targets(Seq::empty()).len() == 0,
{
    assert(entries.push(entry).drop_last() =~= entries);
}

/// The time under a key, or another where it is missing or no date.
pub(crate) fn stamp_of(v: &Json, key: &str, other: Option<i64>) -> (r: Option<i64>)
    ensures
        r == stamped(v@, key@, other),
{
    match v.text_at(key) {
        Some(text) => match iso8601_to_unix(text) {
            Some(ts) => Some(ts),
            None => other,
        },
        None => other,
    }
}

fn scan_message(
    ledger: &mut Ledger,
    msg: &Json,
    model: &Option<String>,
    session: &str,
    modified: Option<i64>,
)
    requires
        old(ledger).wf(),
    ensures
        final(ledger).wf(),
        final(ledger)@ == old(ledger)@ + message_records(
            msg@,
            text_opt(*model),
            session@,
            modified,
        ),
{
    let ghost before = ledger@;
    let ghost goal = message_records(msg@, text_opt(*model), session@, modified);
    let assistant: bool = match msg.text_at("role") {
        Some(role) => same(role, "assistant"),
        None => false,
    };
    if !assistant {
        assert(before + goal =~= before);
        return;
    }
    if let Some(usage) = msg.get("usage") {
        let input: u64 = usage.count_at("input");
        let output: u64 = usage.count_at("output");
        let read: u64 = usage.count_at("cache_read");
        let write: u64 = usage.count_at("cache_write");
        if input == 0 && output == 0 && read == 0 && write == 0 {
            assert(before + goal =~= before);
            return;
        }
        let name: &str = match msg.text_at("model") {
            Some(m) => m,
            None => name_or_else(model, "unknown"),
        };
        let time = stamp_of(msg, "timestamp", modified);
        note_turn(ledger, session, name, input, output, 0, read, write, time);
    } else {
        assert(before + goal =~= before);
    }
}

fn owned(s: Option<&str>, other: Option<String>) -> (r: Option<String>)
    ensures
        text_opt(r) == either(str_opt(s), text_opt(other)),
{
    match s {
        Some(s) => Some(s.to_string()),
        None => other,
    }
}

/// Reads the documents of one transcript.
pub fn scan_transcript(
    ledger: &mut Ledger,
    docs: &Vec<Json>,
    session: &str,
    modified: Option<i64>,
)
    requires
        old(ledger).wf(),
    ensures
        final(ledger).wf(),
        final(ledger)@ == read_transcript(old(ledger)@, trees(docs@), session@, modified).records,
{
    let mut model: Option<String> = None;
    let ghost start = ledger@;
    let ghost all = trees(docs@);
    let mut i: usize = 0;
    while i < docs.len()
        invariant
            i <= docs@.len(),
            ledger.wf(),
            all == trees(docs@),
            (Reading { records: ledger@, model: text_opt(model) }) == read_transcript(
                start,
                all.take(i as int),
                session@,
                modified,
            ),
        decreases docs@.len() - i,
    {
        proof {
            assert(all.take(i + 1).drop_last() =~= all.take(i as int));
            assert(all.take(i + 1).last() == docs@[i as int]@);
        }
        let v = &docs[i];
        let kind = v.text_or("type", "");
        if same(kind, "model_change") {
            model = owned(v.text_at("model"), model);
        } else if same(kind, "custom") {
            if let Some(snap) = v.get_either("data", "snapshot") {
                model = owned(snap.text_at("model"), model);
            }
        } else if same(kind, "message") {
            if let Some(msg) = v.get("message") {
                scan_message(ledger, msg, &model, session, modified);
            }
        }
        i += 1;
    }
    assert(all.take(i as int) =~= all);
}

impl OpenClawProvider {
    /// Usage from the transcripts below the directories of the installations.
    pub fn scan(&self, dirs: usize, files: &Vec<LogFile>) -> (r: Result<ProviderResult, ScanError>)
        ensures
            if dirs == 0 {
                r matches Err(e) && e.is_not_found("OpenClaw dir not found"@)
            } else {
                is_plain_result(
                    r,
                    "OpenClaw"@,
                    transcript_records(log_views(files@)),
                    "No OpenClaw transcript data found"@,
                )
            },
    {
        if dirs == 0 {
            return Err(ScanError::NotFound("OpenClaw dir not found".to_string()));
        }
        let mut ledger = Ledger::new();
        let ghost all = log_views(files@);
        let mut i: usize = 0;
        while i < files.len()
            invariant
                i <= files@.len(),
                ledger.wf(),
                all == log_views(files@),
                ledger@ == transcript_records(all.take(i as int)),
            decreases files@.len() - i,
        {
            proof {
                assert(all.take(i + 1).drop_last() =~= all.take(i as int));
                assert(all.take(i + 1).last() == files@[i as int]@);
            }
            let docs = read_documents(&files[i].lines);
            let session = name_or_else(&files[i].stem, "unknown");
            scan_transcript(&mut ledger, &docs, session, files[i].modified);
            i += 1;
        }
        assert(all.take(i as int) =~= all);
        close_account(ledger, "OpenClaw", "No OpenClaw transcript data found")
    }
}

} // verus!
