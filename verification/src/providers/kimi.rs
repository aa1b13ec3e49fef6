//! Kimi CLI: one `wire.jsonl` a session.

use crate::json::{json_document, parse_json, trees, Json, JsonTree};
use crate::ledger::{note_turn, turn_records, Ledger, Record};
use crate::logs::{
    documents, has_one_more, lemma_one_more, log_views, name_or, name_or_else, read_documents,
    LogFile, LogView,
};
use crate::providers::opencode::{close_account, is_plain_result};
use crate::text::{same, str_opt};
use crate::time_util::either;
use crate::types::{ProviderResult, ScanError};
use vstd::hash_set::StringHashSet;
use vstd::prelude::*;

verus! {

pub struct KimiProvider;

/// The model that a configuration names, or else the one that Kimi comes with.
pub open spec fn configured_model(config: Option<JsonTree>) -> Seq<char> {
    match config {
        Some(v) => v.text_or("model"@, "kimi-for-coding"@),
        None => "kimi-for-coding"@,
    }
}

/// What a configuration file holds.
pub open spec fn config_document(config: Option<Seq<char>>) -> Option<JsonTree> {
    match config {
        Some(text) => json_document(text),
        None => None,
    }
}

/// A configuration is the document that its file holds, where there is a file and it is JSON.
pub proof fn law_configuration_is_read(text: Seq<char>)
    ensures
        config_document(Some(text)) == json_document(text),
        config_document(None) is None,
{
}

/// What has been read so far: the records, and the messages that have been counted.
#[verifier::ext_equal]
pub ghost struct Reading {
    pub records: Seq<Record>,
    pub seen: Set<Seq<char>>,
}

/// The token counts of a status update.
pub open spec fn status_usage(v: JsonTree) -> Option<JsonTree> {
    if v.text_at("type"@) == Some("StatusUpdate"@) {
        either(v.get_in("payload"@, "TokenUsage"@), v.get_in("payload"@, "token_usage"@))
    } else {
        None
    }
}

/// What tells one status update of a session from another.
pub open spec fn status_key(v: JsonTree, session: Seq<char>) -> Option<Seq<char>> {
    match v.text_at("message_id"@) {
        Some(mid) => Some(session + ":"@ + mid),
        None => None,
    }
}

/// When a status update was written: a number of seconds, whose fraction is cut off.
pub open spec fn status_time(v: JsonTree, modified: Option<i64>) -> Option<i64> {
    match v.get("timestamp"@) {
        Some(x) => either(x.truncated(), modified),
        None => modified,
    }
}

/// What the token counts of a status update tell.
pub open spec fn usage_records(
    v: JsonTree,
    usage: JsonTree,
    model: Seq<char>,
    session: Seq<char>,
    modified: Option<i64>,
) -> Seq<Record> {
    let input = usage.count_at("input_other"@);
    let output = usage.count_at("output"@);
    let read = usage.count_at("input_cache_read"@);
    let write = usage.count_at("input_cache_creation"@);
    if input == 0 && output == 0 && read == 0 && write == 0 {
        Seq::empty()
    } else {
        turn_records(session, model, input, output, 0, read, write, status_time(v, modified))
    }
}

/// Reads one line.
pub open spec fn read_line(
    state: Reading,
    v: JsonTree,
    model: Seq<char>,
    session: Seq<char>,
    modified: Option<i64>,
) -> Reading {
    match status_usage(v) {
        Some(usage) => if status_key(v, session) matches Some(key) && state.seen.contains(key) {
            state
        } else {
            Reading {
                records: state.records + usage_records(v, usage, model, session, modified),
                seen: match status_key(v, session) {
                    Some(key) => state.seen.insert(key),
                    None => state.seen,
                },
            }
        },
        None => state,
    }
}

/// Reads the documents of one file.
pub open spec fn read_file(
    state: Reading,
    docs: Seq<JsonTree>,
    model: Seq<char>,
    session: Seq<char>,
    modified: Option<i64>,
) -> Reading
    decreases docs.len(),
{
    if docs.len() == 0 {
        state
    } else {
        read_line(
            read_file(state, docs.drop_last(), model, session, modified),
            docs.last(),
            model,
            session,
            modified,
        )
    }
}

/// Reads some files.
pub open spec fn read_files(files: Seq<LogView>, model: Seq<char>) -> Reading
    decreases files.len(),
{
    if files.len() == 0 {
        Reading { records: Seq::empty(), seen: Set::empty() }
    } else {
        read_file(
            read_files(files.drop_last(), model),
            documents(files.last().lines),
            model,
            name_or(files.last().parent, "unknown"@),
            files.last().modified,
        )
    }
}

/// A status update that has been counted is not counted again.
pub proof fn law_message_counts_once(
    state: Reading,
    v: JsonTree,
    model: Seq<char>,
    session: Seq<char>,
    modified: Option<i64>,
)
    requires
        status_key(v, session) is Some,
    ensures
        read_line(read_line(state, v, model, session, modified), v, model, session, modified)
            == read_line(state, v, model, session, modified),
{
}

/// The documents of some files, each with the session of its file, one file after the other.
pub open spec fn lines_read(files: Seq<LogView>) -> Seq<(Seq<char>, JsonTree)>
    decreases files.len(),
{
    if files.len() == 0 {
        Seq::empty()
    } else {
        let session = name_or(files.last().parent, "unknown"@);
        lines_read(files.drop_last()) + documents(files.last().lines).map_values(
            |v: JsonTree| (session, v),
        )
    }
}

/// The token counts of a line that updates the status.
pub open spec fn update_counts(v: JsonTree) -> Option<JsonTree> {
    if v.text_at("type"@) != Some("StatusUpdate"@) {
        None
    } else if v.get_in("payload"@, "TokenUsage"@) is Some {
        v.get_in("payload"@, "TokenUsage"@)
    } else {
        v.get_in("payload"@, "token_usage"@)
    }
}

/// Whether two lines, each with its session, tell of the same message: both count tokens, and the
/// session and the id, with a colon between, are written alike.
pub open spec fn same_update(a: (Seq<char>, JsonTree), b: (Seq<char>, JsonTree)) -> bool {
    &&& update_counts(a.1) is Some && update_counts(b.1) is Some
    &&& a.1.text_at("message_id"@) is Some && b.1.text_at("message_id"@) is Some
    &&& a.0 + ":"@ + a.1.text_at("message_id"@)->0 == b.0 + ":"@ + b.1.text_at("message_id"@)->0
}

/// In one session two messages are the same exactly if their ids are; in two sessions whose names hold
/// no colon they never are.
pub proof fn law_ids_tell_messages_apart(a: (Seq<char>, JsonTree), b: (Seq<char>, JsonTree))
    requires
        same_update(a, b),
    ensures
        a.0 == b.0 ==> a.1.text_at("message_id"@) == b.1.text_at("message_id"@),
        !a.0.contains(':') && !b.0.contains(':') ==> a.0 == b.0,
{
    reveal_strlit(":");
    let x = a.1.text_at("message_id"@)->0;
    let y = b.1.text_at("message_id"@)->0;
    let one = a.0 + ":"@ + x;
    let two = b.0 + ":"@ + y;
    if a.0 == b.0 {
        assert(x =~= one.skip((a.0.len() + 1) as int));
        assert(y =~= two.skip((b.0.len() + 1) as int));
    }
    if !a.0.contains(':') && !b.0.contains(':') {
        assert(one[a.0.len() as int] == ':');
        assert(two[b.0.len() as int] == ':');
        if a.0.len() < b.0.len() {
            assert(two[a.0.len() as int] == b.0[a.0.len() as int]);
        } else if b.0.len() < a.0.len() {
            assert(one[b.0.len() as int] == a.0[b.0.len() as int]);
        }
        assert(a.0 =~= one.take(a.0.len() as int));
        assert(b.0 =~= two.take(b.0.len() as int));
    }
}

proof fn lemma_seen_in(
    state: Reading,
    docs: Seq<JsonTree>,
    model: Seq<char>,
    session: Seq<char>,
    modified: Option<i64>,
    b: (Seq<char>, JsonTree),
)
    requires
        update_counts(b.1) is Some,
        b.1.text_at("message_id"@) is Some,
    ensures
        read_file(state, docs, model, session, modified).seen.contains(
            b.0 + ":"@ + b.1.text_at("message_id"@)->0,
        ) <==> state.seen.contains(b.0 + ":"@ + b.1.text_at("message_id"@)->0) || exists|i: int|
            0 <= i < docs.len() && same_update((session, #[trigger] docs[i]), b),
    decreases docs.len(),
{
    let key = b.0 + ":"@ + b.1.text_at("message_id"@)->0;
    if docs.len() > 0 {
        let before = docs.drop_last();
        let u = docs.last();
        lemma_seen_in(state, before, model, session, modified, b);
        assert(status_usage(u) == update_counts(u));
        if exists|i: int| 0 <= i < before.len() && same_update((session, #[trigger] before[i]), b) {
            let i = choose|i: int|
                0 <= i < before.len() && same_update((session, #[trigger] before[i]), b);
            assert(same_update((session, docs[i]), b));
        }
        if exists|i: int| 0 <= i < docs.len() && same_update((session, #[trigger] docs[i]), b) {
            let i = choose|i: int|
                0 <= i < docs.len() && same_update((session, #[trigger] docs[i]), b);
            if i < before.len() {
                assert(same_update((session, before[i]), b));
            }
        }
        if same_update((session, u), b) {
            assert(same_update((session, docs[docs.len() - 1]), b));
        }
    }
}

proof fn lemma_seen(files: Seq<LogView>, model: Seq<char>, b: (Seq<char>, JsonTree))
    requires
        update_counts(b.1) is Some,
        b.1.text_at("message_id"@) is Some,
    ensures
        read_files(files, model).seen.contains(b.0 + ":"@ + b.1.text_at("message_id"@)->0) <==> exists|
            i: int,
        |
            0 <= i < lines_read(files).len() && same_update(#[trigger] lines_read(files)[i], b),
    decreases files.len(),
{
    if files.len() > 0 {
        let fewer = files.drop_last();
        let file = files.last();
        let session = name_or(file.parent, "unknown"@);
        let docs = documents(file.lines);
        let own = docs.map_values(|v: JsonTree| (session, v));
        let known = lines_read(fewer);
        let all = lines_read(files);
        lemma_seen(fewer, model, b);
        lemma_seen_in(read_files(fewer, model), docs, model, session, file.modified, b);
        if exists|i: int| 0 <= i < known.len() && same_update(#[trigger] known[i], b) {
            let i = choose|i: int| 0 <= i < known.len() && same_update(#[trigger] known[i], b);
            assert(same_update(all[i], b));
        }
        if exists|i: int| 0 <= i < docs.len() && same_update((session, #[trigger] docs[i]), b) {
            let i = choose|i: int|
                0 <= i < docs.len() && same_update((session, #[trigger] docs[i]), b);
            assert(all[known.len() + i] == own[i]);
            assert(same_update(all[known.len() + i], b));
        }
        if exists|i: int| 0 <= i < all.len() && same_update(#[trigger] all[i], b) {
            let i = choose|i: int| 0 <= i < all.len() && same_update(#[trigger] all[i], b);
            if i < known.len() {
                assert(same_update(known[i], b));
            } else {
                assert(all[i] == own[i - known.len()]);
                assert(same_update((session, docs[i - known.len()]), b));
            }
        }
    }
}

/// Every status update that counts tokens is a turn of its own, unless an earlier one, in whatever file,
/// tells of the same message: one more line adds it to the session of its file, with the configured
/// model, at its time or else when the file was written. Any other line, and one without any tokens,
/// adds nothing.
pub proof fn law_every_message_counts(
    files: Seq<LogView>,
    file: LogView,
    longer: LogView,
    v: JsonTree,
    model: Seq<char>,
)
    requires
        has_one_more(longer, file, v),
    ensures
        ({
            let before = read_files(files.push(file), model).records;
            let after = read_files(files.push(longer), model).records;
            let session = name_or(file.parent, "unknown"@);
            let usage = update_counts(v)->0;
            let input = usage.count_at("input_other"@);
            let output = usage.count_at("output"@);
            let read = usage.count_at("input_cache_read"@);
            let write = usage.count_at("input_cache_creation"@);
            let earlier = lines_read(files.push(file));
            let repeated = exists|i: int|
                0 <= i < earlier.len() && same_update(#[trigger] earlier[i], (session, v));
            let counts = update_counts(v) is Some && !repeated && input + output + read + write > 0;
            let time = match v.get("timestamp"@) {
                Some(JsonTree::Number(n)) => match n.truncated {
                    Some(ts) => Some(ts),
                    None => file.modified,
                },
                _ => file.modified,
            };
            &&& counts ==> after == before + turn_records(
                session,
                model,
                input,
                output,
                0,
                read,
                write,
                time,
            )
            &&& !counts ==> after == before
        }),
{
    lemma_one_more(longer, file, v);
    assert(files.push(longer).drop_last() =~= files);
    assert(files.push(file).drop_last() =~= files);
    let session = name_or(file.parent, "unknown"@);
    assert(status_usage(v) == update_counts(v));
    if update_counts(v) is Some && v.text_at("message_id"@) is Some {
        lemma_seen(files.push(file), model, (session, v));
    }
    let before = read_files(files.push(file), model).records;
    assert(before + Seq::<Record>::empty() =~= before);
}

/// Only the documents of a file count, with its session and its time: lines that are blank or no JSON
/// do not matter.
pub proof fn law_only_documents_count(
    files: Seq<LogView>,
    file: LogView,
    other: LogView,
    model: Seq<char>,
)
    requires
        documents(file.lines) == documents(other.lines),
        file.parent == other.parent,
        file.modified == other.modified,
    ensures
        read_files(files.push(file), model) == read_files(files.push(other), model),
{
    assert(files.push(file).drop_last() =~= files);
    assert(files.push(other).drop_last() =~= files);
}

/// A file without documents adds nothing, and no files tell nothing. The model is the one that the
/// configuration names as a text, and without one the model that Kimi comes with.
pub proof fn law_empty_file_adds_nothing(files: Seq<LogView>, file: LogView, model: Seq<char>)
    requires
        documents(file.lines).len() == 0,
    ensures
        read_files(files.push(file), model) == read_files(files, model),
        read_files(Seq::empty(), model).records.len() == 0,
        configured_model(None) == "kimi-for-coding"@,
        forall|v: JsonTree|
            v.text_at("model"@) is Some ==> #[trigger] configured_model(Some(v)) == v.text_at(
                "model"@,
            )->0,
        forall|v: JsonTree|
            v.text_at("model"@) is None ==> #[trigger] configured_model(Some(v))
                == "kimi-for-coding"@,
{
    assert(files.push(file).drop_last() =~= files);
}

/// The model that a configuration names, or else the one that Kimi comes with.
pub fn model_of_config(config: Option<&Json>) -> (r: String)
    ensures
        r@ == configured_model(crate::json::tree_at(config)),
{
    match config {
        Some(v) => v.text_or("model", "kimi-for-coding").to_string(),
        None => "kimi-for-coding".to_string(),
    }
}

/// Reads one line of a session.
pub fn scan_line(
    ledger: &mut Ledger,
    seen: &mut StringHashSet,
    v: &Json,
    model: &str,
    session: &str,
    modified: Option<i64>,
)
    requires
        old(ledger).wf(),
    ensures
        final(ledger).wf(),
        (Reading { records: final(ledger)@, seen: final(seen)@ }) == read_line(
            Reading { records: old(ledger)@, seen: old(seen)@ },
            v@,
            model@,
            session@,
            modified,
        ),
{
    let ghost before = ledger@;
    let update: bool = match v.text_at("type") {
        Some(kind) => same(kind, "StatusUpdate"),
        None => false,
    };
    if !update {
        return;
    }
    let found = match v.get_in("payload", "TokenUsage") {
        Some(t) => Some(t),
        None => v.get_in("payload", "token_usage"),
    };
    if let Some(usage) = found {
        if let Some(mid) = v.text_at("message_id") {
            let mut key = session.to_string();
            key.append(":");
            key.append(mid);
            if !seen.insert(key) {
                assert(seen@ =~= old(seen)@);
                return;
            }
        }
        let input: u64 = usage.count_at("input_other");
        let output: u64 = usage.count_at("output");
        let read: u64 = usage.count_at("input_cache_read");
        let write: u64 = usage.count_at("input_cache_creation");
        if input == 0 && output == 0 && read == 0 && write == 0 {
            assert(before + usage_records(v@, usage@, model@, session@, modified) =~= before);
            return;
        }
        let time: Option<i64> = match v.get("timestamp") {
            Some(x) => match x.as_truncated() {
                Some(ts) => Some(ts),
                None => modified,
            },
            None => modified,
        };
        note_turn(ledger, session, model, input, output, 0, read, write, time);
    }
}

/// Reads the documents of one session.
pub fn scan_wire_jsonl(
    ledger: &mut Ledger,
    seen: &mut StringHashSet,
    docs: &Vec<Json>,
    model: &str,
    session: &str,
    modified: Option<i64>,
)
    requires
        old(ledger).wf(),
    ensures
        final(ledger).wf(),
        (Reading { records: final(ledger)@, seen: final(seen)@ }) == read_file(
            Reading { records: old(ledger)@, seen: old(seen)@ },
            trees(docs@),
            model@,
            session@,
            modified,
        ),
{
    let ghost start = Reading { records: ledger@, seen: seen@ };
    let ghost all = trees(docs@);
    let mut i: usize = 0;
    while i < docs.len()
        invariant
            i <= docs@.len(),
            ledger.wf(),
            all == trees(docs@),
            (Reading { records: ledger@, seen: seen@ }) == read_file(
                start,
                all.take(i as int),
                model@,
                session@,
                modified,
            ),
        decreases docs@.len() - i,
    {
        proof {
            assert(all.take(i + 1).drop_last() =~= all.take(i as int));
            assert(all.take(i + 1).last() == docs@[i as int]@);
        }
        scan_line(ledger, seen, &docs[i], model, session, modified);
        i += 1;
    }
    assert(all.take(i as int) =~= all);
}

impl KimiProvider {
    /// Usage from the logs of the sessions. `config` is what the configuration file holds.
    pub fn scan(&self, config: Option<&str>, files: &Vec<LogFile>) -> (r: Result<
        ProviderResult,
        ScanError,
    >)
        ensures
            if files@.len() == 0 {
                r matches Err(e) && e.is_not_found("No Kimi wire.jsonl files found"@)
            } else {
                is_plain_result(
                    r,
                    "Kimi CLI"@,
                    read_files(
                        log_views(files@),
                        configured_model(config_document(str_opt(config))),
                    ).records,
                    "No Kimi token data found"@,
                )
            },
    {
        if files.len() == 0 {
            return Err(ScanError::NotFound("No Kimi wire.jsonl files found".to_string()));
        }
        let document: Option<Json> = match config {
            Some(text) => parse_json(text),
            None => None,
        };
        let model = match &document {
            Some(v) => model_of_config(Some(v)),
            None => model_of_config(None),
        };
        let mut ledger = Ledger::new();
        let mut seen = StringHashSet::new();
        let ghost all = log_views(files@);
        let mut i: usize = 0;
        while i < files.len()
            invariant
                i <= files@.len(),
                ledger.wf(),
                all == log_views(files@),
                (Reading { records: ledger@, seen: seen@ }) == read_files(
                    all.take(i as int),
                    model@,
                ),
            decreases files@.len() - i,
        {
            proof {
                assert(all.take(i + 1).drop_last() =~= all.take(i as int));
                assert(all.take(i + 1).last() == files@[i as int]@);
            }
            let docs = read_documents(&files[i].lines);
            let session = name_or_else(&files[i].parent, "unknown");
            scan_wire_jsonl(
                &mut ledger,
                &mut seen,
                &docs,
                model.as_str(),
                session,
                files[i].modified,
            );
            i += 1;
        }
        assert(all.take(i as int) =~= all);
        close_account(ledger, "Kimi CLI", "No Kimi token data found")
    }
}

} // verus!
