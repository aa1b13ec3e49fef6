//! Qwen CLI: one JSONL file a chat, by project.

use crate::json::{trees, Json, JsonTree};
use crate::ledger::{note_turn, turn_records, Ledger, Record};
use crate::logs::{
    documents, has_one_more, lemma_one_more, log_views, name_or, name_or_else, read_documents,
    LogFile, LogView,
};
use crate::providers::openclaw::{stamp_of, stamped};
use crate::providers::opencode::{close_account, is_plain_result};
use crate::text::same;
use crate::time_util::iso_seconds;
use crate::types::{ProviderResult, ScanError};
use vstd::prelude::*;

verus! {

pub struct QwenProvider;

/// The session of a chat that names none: its project and the name of its file.
pub open spec fn fallback_session(project: Option<Seq<char>>, stem: Option<Seq<char>>) -> Seq<
    char,
> {
    name_or(project, "unknown"@) + "-"@ + name_or(stem, "unknown"@)
}

/// The session of a line: the one it names, if that is not empty.
pub open spec fn line_session(v: JsonTree, fallback: Seq<char>) -> Seq<char> {
    match v.text_at("sessionId"@) {
        Some(s) if s.len() > 0 => s,
        _ => fallback,
    }
}

/// What a line tells.
pub open spec fn line_records(
    v: JsonTree,
    fallback: Seq<char>,
    modified: Option<i64>,
) -> Seq<Record> {
    if v.text_at("type"@) != Some("assistant"@) {
        Seq::empty()
    } else {
        match v.get("usageMetadata"@) {
            Some(usage) => {
                let prompt = usage.count_at("promptTokenCount"@);
                let candidates = usage.count_at("candidatesTokenCount"@);
                let thoughts = usage.count_at("thoughtsTokenCount"@);
                let cached = usage.count_at("cachedContentTokenCount"@);
                if prompt == 0 && candidates == 0 && thoughts == 0 && cached == 0 {
                    Seq::empty()
                } else {
                    turn_records(
                        line_session(v, fallback),
                        v.text_or("model"@, "unknown"@),
                        prompt,
                        candidates,
                        thoughts,
                        cached,
                        0,
                        stamped(v, "timestamp"@, modified),
                    )
                }
            },
            None => Seq::empty(),
        }
    }
}

/// What the lines of a chat tell.
pub open spec fn chat_records(
    docs: Seq<JsonTree>,
    fallback: Seq<char>,
    modified: Option<i64>,
) -> Seq<Record>
    decreases docs.len(),
{
    if docs.len() == 0 {
        Seq::empty()
    } else {
        chat_records(docs.drop_last(), fallback, modified) + line_records(
            docs.last(),
            fallback,
            modified,
        )
    }
}

/// What some chats tell.
pub open spec fn qwen_records(files: Seq<LogView>) -> Seq<Record>
    decreases files.len(),
{
    if files.len() == 0 {
        Seq::empty()
    } else {
        qwen_records(files.drop_last()) + chat_records(
            documents(files.last().lines),
            fallback_session(files.last().parent, files.last().stem),
            files.last().modified,
        )
    }
}

/// Every line of an assistant that counts tokens is a turn of its own: one more line adds it to the
/// session that it names, or else to that of the project and the file, with the model that it names,
/// at its time or else when the file was written. It does not matter what stands before. A line of
/// another kind, or without any tokens, adds nothing.
pub proof fn law_every_turn_counts(files: Seq<LogView>, file: LogView, longer: LogView, v: JsonTree)
    requires
        has_one_more(longer, file, v),
    ensures
        ({
            let before = qwen_records(files.push(file));
            let after = qwen_records(files.push(longer));
            let usage = v.get("usageMetadata"@)->0;
            let prompt = usage.count_at("promptTokenCount"@);
            let candidates = usage.count_at("candidatesTokenCount"@);
            let thoughts = usage.count_at("thoughtsTokenCount"@);
            let cached = usage.count_at("cachedContentTokenCount"@);
            let counts = v.text_at("type"@) == Some("assistant"@) && v.get("usageMetadata"@) is Some
                && prompt + candidates + thoughts + cached > 0;
            let session = match v.text_at("sessionId"@) {
                Some(s) => if s.len() > 0 {
                    s
                } else {
                    name_or(file.parent, "unknown"@) + "-"@ + name_or(file.stem, "unknown"@)
                },
                None => name_or(file.parent, "unknown"@) + "-"@ + name_or(file.stem, "unknown"@),
            };
            let time = match v.text_at("timestamp"@) {
                Some(text) => match iso_seconds(text) {
                    Some(ts) => Some(ts),
                    None => file.modified,
                },
                None => file.modified,
            };
            &&& counts ==> after == before + turn_records(
                session,
                v.text_or("model"@, "unknown"@),
                prompt,
                candidates,
                thoughts,
                cached,
                0,
                time,
            )
            &&& !counts ==> after == before
        }),
{
    lemma_one_more(longer, file, v);
    assert(files.push(longer).drop_last() =~= files);
    assert(files.push(file).drop_last() =~= files);
    let known = qwen_records(files);
    let fallback = fallback_session(file.parent, file.stem);
    let chat = chat_records(documents(file.lines), fallback, file.modified);
    let line = line_records(v, fallback, file.modified);
    assert(known + (chat + line) =~= known + chat + line);
    assert(known + chat + Seq::<Record>::empty() =~= known + chat);
}

/// Chats are read one after the other: one more leaves what the others tell as it is, and one without
/// documents tells nothing.
pub proof fn law_chats_add_up(files: Seq<LogView>, file: LogView)
    ensures
        qwen_records(files.push(file)) == qwen_records(files) + qwen_records(seq![file]),
        documents(file.lines).len() == 0 ==> qwen_records(seq![file]).len() == 0,
        qwen_records(Seq::empty()).len() == 0,
{
    assert(files.push(file).drop_last() =~= files);
    assert(seq![file].drop_last() =~= Seq::empty());
    let chat = chat_records(
        documents(file.lines),
        fallback_session(file.parent, file.stem),
        file.modified,
    );
    assert(qwen_records(Seq::empty()) =~= Seq::empty());
    assert(qwen_records(seq![file]) =~= chat);
}

/// Only the documents of a chat count, with its project, its name and its time: lines that are blank or
/// no JSON do not matter.
pub proof fn law_only_documents_count(files: Seq<LogView>, file: LogView, other: LogView)
    requires
        documents(file.lines) == documents(other.lines),
        file.parent == other.parent,
        file.stem == other.stem,
        file.modified == other.modified,
    ensures
        qwen_records(files.push(file)) == qwen_records(files.push(other)),
{
    assert(files.push(file).drop_last() =~= files);
    assert(files.push(other).drop_last() =~= files);
}

/// Reads one line of a chat.
pub fn scan_line(ledger: &mut Ledger, v: &Json, fallback: &str, modified: Option<i64>)
    requires
        old(ledger).wf(),
    ensures
        final(ledger).wf(),
        final(ledger)@ == old(ledger)@ + line_records(v@, fallback@, modified),
{
    let ghost before = ledger@;
    let ghost goal = line_records(v@, fallback@, modified);
    let assistant: bool = match v.text_at("type") {
        Some(kind) => same(kind, "assistant"),
        None => false,
    };
    if !assistant {
        assert(before + goal =~= before);
        return;
    }
    if let Some(usage) = v.get("usageMetadata") {
        let prompt: u64 = usage.count_at("promptTokenCount");
        let candidates: u64 = usage.count_at("candidatesTokenCount");
        let thoughts: u64 = usage.count_at("thoughtsTokenCount");
        let cached: u64 = usage.count_at("cachedContentTokenCount");
        if prompt == 0 && candidates == 0 && thoughts == 0 && cached == 0 {
            assert(before + goal =~= before);
            return;
        }
        let session: &str = match v.text_at("sessionId") {
            Some(s) => if s.is_empty() {
                fallback
            } else {
                s
            },
            None => fallback,
        };
        let time = stamp_of(v, "timestamp", modified);
        note_turn(
            ledger,
            session,
            v.text_or("model", "unknown"),
            prompt,
            candidates,
            thoughts,
            cached,
            0,
            time,
        );
    } else {
        assert(before + goal =~= before);
    }
}

/// Reads the documents of one chat.
pub fn scan_jsonl(ledger: &mut Ledger, docs: &Vec<Json>, fallback: &str, modified: Option<i64>)
    requires
        old(ledger).wf(),
    ensures
        final(ledger).wf(),
        final(ledger)@ == old(ledger)@ + chat_records(trees(docs@), fallback@, modified),
{
    let ghost start = ledger@;
    let ghost all = trees(docs@);
    let mut i: usize = 0;
    proof {
        assert(start + chat_records(all.take(0), fallback@, modified) =~= start);
    }
    while i < docs.len()
        invariant
            i <= docs@.len(),
            ledger.wf(),
            all == trees(docs@),
            ledger@ == start + chat_records(all.take(i as int), fallback@, modified),
        decreases docs@.len() - i,
    {
        proof {
            assert(all.take(i + 1).drop_last() =~= all.take(i as int));
            assert(all.take(i + 1).last() == docs@[i as int]@);
        }
        scan_line(ledger, &docs[i], fallback, modified);
        i += 1;
        proof {
            assert(ledger@ =~= start + chat_records(all.take(i as int), fallback@, modified));
        }
    }
    assert(all.take(i as int) =~= all);
}

impl QwenProvider {
    /// Usage from the chats of all projects.
    pub fn scan(&self, files: &Vec<LogFile>) -> (r: Result<ProviderResult, ScanError>)
        ensures
            if files@.len() == 0 {
                r matches Err(e) && e.is_not_found("No Qwen chat files found"@)
            } else {
                is_plain_result(
                    r,
                    "Qwen CLI"@,
                    qwen_records(log_views(files@)),
                    "No Qwen assistant messages found"@,
                )
            },
    {
        if files.len() == 0 {
            return Err(ScanError::NotFound("No Qwen chat files found".to_string()));
        }
        let mut ledger = Ledger::new();
        let ghost all = log_views(files@);
        let mut i: usize = 0;
        while i < files.len()
            invariant
                i <= files@.len(),
                ledger.wf(),
                all == log_views(files@),
                ledger@ == qwen_records(all.take(i as int)),
            decreases files@.len() - i,
        {
            proof {
                assert(all.take(i + 1).drop_last() =~= all.take(i as int));
                assert(all.take(i + 1).last() == files@[i as int]@);
            }
            let mut fallback = name_or_else(&files[i].parent, "unknown").to_string();
            fallback.append("-");
            fallback.append(name_or_else(&files[i].stem, "unknown"));
            let docs = read_documents(&files[i].lines);
            scan_jsonl(&mut ledger, &docs, fallback.as_str(), files[i].modified);
            i += 1;
        }
        assert(all.take(i as int) =~= all);
        close_account(ledger, "Qwen CLI", "No Qwen assistant messages found")
    }
}

} // verus!
