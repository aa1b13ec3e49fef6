//! Codex (OpenAI): a database of threads, and a JSONL file a session.

use crate::collections::StrMap;
use crate::json::{json_document, tree_at, Json, JsonTree};
use crate::ledger::{
    all_sums, has_model, least, lemma_no_tokens, lemma_one_tokens, lemma_records_join, model_sums,
    models_of, most, names_model, tokens_record, used, used_together, Ledger, Record,
};
use crate::logs::{documents, log_views, read_documents, LogFile, LogView};
use crate::text::{is_blank, same, text_opt, texts, trim, trimmed};
use crate::time_util::{
    active_hours_from_timestamps, active_seconds, build_daily_buckets, buckets_of, day_events,
    half_hour_activity, lemma_half_hour, sort_times, sorted_times, DayEvent,
};
use crate::types::{
    capped, Hours, ModelUsage, ProviderReport, ProviderResult, TokenSums, TokenUsage,
};
use vstd::prelude::*;

verus! {

pub struct CodexProvider;

/// Token counts as Codex logs them. Input includes what came out of the cache.
#[derive(Debug, Clone, Copy, PartialEq, Eq, Structural)]
pub struct CodexCounts {
    pub input: u64,
    pub output: u64,
    pub reasoning: u64,
    pub cached: u64,
}

/// `a - b`, or 0 where that is below zero.
pub open spec fn less(a: u64, b: u64) -> u64 {
    if a >= b {
        (a - b) as u64
    } else {
        0
    }
}

impl CodexCounts {
    pub open spec fn zero() -> CodexCounts {
        CodexCounts { input: 0, output: 0, reasoning: 0, cached: 0 }
    }

    /// The counts that a usage object holds.
    pub open spec fn of(usage: JsonTree) -> CodexCounts {
        CodexCounts {
            input: usage.count_at("input_tokens"@),
            output: usage.count_at("output_tokens"@),
            reasoning: usage.count_at("reasoning_output_tokens"@),
            cached: usage.count_at("cached_input_tokens"@),
        }
    }

    /// What was added to an earlier total.
    pub open spec fn since(self, before: CodexCounts) -> CodexCounts {
        CodexCounts {
            input: less(self.input, before.input),
            output: less(self.output, before.output),
            reasoning: less(self.reasoning, before.reasoning),
            cached: less(self.cached, before.cached),
        }
    }

    /// Whether nothing was spent. Input counts without what came out of the cache.
    pub open spec fn is_idle(self) -> bool {
        less(self.input, self.cached) == 0 && self.output == 0 && self.reasoning == 0
            && self.cached == 0
    }

    /// What the counts tell of a model: cache hits are taken out of the input.
    pub open spec fn record(self, model: Seq<char>) -> Record {
        tokens_record(
            model,
            less(self.input, self.cached),
            self.output,
            self.reasoning,
            self.cached,
            0,
        )
    }
}

/// What has been read of a session: the records, the model at work, and the last total of each
/// model.
#[verifier::ext_equal]
pub ghost struct Reading {
    pub records: Seq<Record>,
    pub model: Option<Seq<char>>,
    pub totals: Map<Seq<char>, CodexCounts>,
}

/// A value that is there and not null.
pub open spec fn present(value: Option<JsonTree>) -> Option<JsonTree> {
    match value {
        Some(v) if !(v is Null) => Some(v),
        _ => None,
    }
}

/// What was spent in the turn that a token count tells of: the delta it carries, or else what
/// its total has over the model's last total.
pub open spec fn turn_counts(state: Reading, model: Seq<char>, info: JsonTree) -> Option<
    CodexCounts,
> {
    match present(info.get("last_token_usage"@)) {
        Some(last) => Some(CodexCounts::of(last)),
        None => match present(info.get("total_token_usage"@)) {
            Some(total) => Some(CodexCounts::of(total).since(last_total(state.totals, model))),
            None => None,
        },
    }
}

/// The last total of a model; nothing before the first.
pub open spec fn last_total(
    totals: Map<Seq<char>, CodexCounts>,
    model: Seq<char>,
) -> CodexCounts {
    if totals.contains_key(model) {
        totals[model]
    } else {
        CodexCounts::zero()
    }
}

/// The model at work; unknown before the first is announced.
pub open spec fn model_at_work(state: Reading) -> Seq<char> {
    match state.model {
        Some(m) => m,
        None => "unknown"@,
    }
}

/// Reads a token count.
pub open spec fn read_count(state: Reading, info: JsonTree) -> Reading {
    let model = model_at_work(state);
    Reading {
        records: match turn_counts(state, model, info) {
            Some(counts) if !counts.is_idle() => state.records.push(counts.record(model)),
            _ => state.records,
        },
        model: state.model,
        totals: match present(info.get("total_token_usage"@)) {
            Some(total) => state.totals.insert(model, CodexCounts::of(total)),
            None => state.totals,
        },
    }
}

/// Reads one line.
pub open spec fn read_line(state: Reading, v: JsonTree) -> Reading {
    match v.get("payload"@) {
        None => state,
        Some(payload) => if v.text_or("type"@, ""@) == "turn_context"@ {
            match payload.text_at("model"@) {
                Some(m) if trimmed(m).len() > 0 => Reading { model: Some(trimmed(m)), ..state },
                _ => state,
            }
        } else if v.text_or("type"@, ""@) == "event_msg"@ && payload.text_at("type"@) == Some(
            "token_count"@,
        ) {
            match payload.get("info"@) {
                Some(info) => read_count(state, info),
                None => state,
            }
        } else {
            state
        },
    }
}

/// Reads the documents of a session, after some records of others.
pub open spec fn read_session(records: Seq<Record>, docs: Seq<JsonTree>) -> Reading
    decreases docs.len(),
{
    if docs.len() == 0 {
        Reading { records, model: None, totals: Map::empty() }
    } else {
        read_line(read_session(records, docs.drop_last()), docs.last())
    }
}

/// Reads the sessions in some files.
pub open spec fn session_records(files: Seq<LogView>) -> Seq<Record>
    decreases files.len(),
{
    if files.len() == 0 {
        Seq::empty()
    } else {
        read_session(session_records(files.drop_last()), documents(files.last().lines)).records
    }
}

/// Where a session logs nothing but growing totals, what is counted for a turn is exactly what
/// its total has over the one before.
pub proof fn law_totals_grow_by_turns(state: Reading, info: JsonTree, total: JsonTree)
    requires
        present(info.get("last_token_usage"@)) is None,
        present(info.get("total_token_usage"@)) == Some(total),
        last_total(state.totals, model_at_work(state)).input <= CodexCounts::of(total).input,
        last_total(state.totals, model_at_work(state)).output <= CodexCounts::of(total).output,
        last_total(state.totals, model_at_work(state)).reasoning <= CodexCounts::of(total).reasoning,
        last_total(state.totals, model_at_work(state)).cached <= CodexCounts::of(total).cached,
    ensures
        turn_counts(state, model_at_work(state), info) matches Some(c) ==> {
            let model = model_at_work(state);
            let before = last_total(state.totals, model);
            let after = last_total(read_count(state, info).totals, model);
            &&& before.input + c.input == after.input
            &&& before.output + c.output == after.output
            &&& before.reasoning + c.reasoning == after.reasoning
            &&& before.cached + c.cached == after.cached
        },
        turn_counts(state, model_at_work(state), info) is Some,
{
}

/// A turn's tokens go to the model that was announced last, and to no other.
pub proof fn law_turn_goes_to_active_model(state: Reading, info: JsonTree, other: Seq<char>)
    requires
        other != model_at_work(state),
    ensures
        crate::ledger::model_sums(read_count(state, info).records, other)
            == crate::ledger::model_sums(state.records, other),
{
    let after = read_count(state, info).records;
    if after != state.records {
        assert(after.drop_last() =~= state.records);
    }
}

fn counts_of(usage: &Json) -> (r: CodexCounts)
    ensures
        r == CodexCounts::of(usage@),
{
    CodexCounts {
        input: usage.count_at("input_tokens"),
        output: usage.count_at("output_tokens"),
        reasoning: usage.count_at("reasoning_output_tokens"),
        cached: usage.count_at("cached_input_tokens"),
    }
}

fn counts_since(now: CodexCounts, before: CodexCounts) -> (r: CodexCounts)
    ensures
        r == now.since(before),
{
    CodexCounts {
        input: now.input.saturating_sub(before.input),
        output: now.output.saturating_sub(before.output),
        reasoning: now.reasoning.saturating_sub(before.reasoning),
        cached: now.cached.saturating_sub(before.cached),
    }
}

fn unless_null<'a>(value: Option<&'a Json>) -> (r: Option<&'a Json>)
    ensures
        tree_at(r) == present(tree_at(value)),
{
    match value {
        Some(v) => if v.is_null() {
            None
        } else {
            Some(v)
        },
        None => None,
    }
}

fn scan_count(
    ledger: &mut Ledger,
    model: &Option<String>,
    totals: &mut StrMap<CodexCounts>,
    info: &Json,
)
    requires
        old(ledger).wf(),
        old(totals).wf(),
    ensures
        final(ledger).wf(),
        final(totals).wf(),
        (Reading { records: final(ledger)@, model: text_opt(*model), totals: final(totals)@ })
            == read_count(
            Reading { records: old(ledger)@, model: text_opt(*model), totals: old(totals)@ },
            info@,
        ),
{
    let name: &str = match model {
        Some(m) => m.as_str(),
        None => "unknown",
    };
    let last = unless_null(info.get("last_token_usage"));
    let total = unless_null(info.get("total_token_usage"));
    let delta: CodexCounts = match last {
        Some(last) => counts_of(last),
        None => match total {
            Some(total) => {
                let before = match totals.get(name) {
                    Some(known) => *known,
                    None => CodexCounts { input: 0, output: 0, reasoning: 0, cached: 0 },
                };
                counts_since(counts_of(total), before)
            },
            None => {
                return;
            },
        },
    };
    if let Some(total) = total {
        totals.insert(name.to_string(), counts_of(total));
    }
    let uncached: u64 = delta.input.saturating_sub(delta.cached);
    if uncached == 0 && delta.output == 0 && delta.reasoning == 0 && delta.cached == 0 {
        return;
    }
    ledger.note_tokens(name, uncached, delta.output, delta.reasoning, delta.cached, 0);
}

/// Reads the documents of one session.
pub fn scan_codex_documents(docs: &Vec<Json>, ledger: &mut Ledger)
    requires
        old(ledger).wf(),
    ensures
        final(ledger).wf(),
        final(ledger)@ == read_session(old(ledger)@, crate::json::trees(docs@)).records,
{
    let mut model: Option<String> = None;
    let mut totals: StrMap<CodexCounts> = StrMap::new();
    let ghost start = ledger@;
    let ghost all = crate::json::trees(docs@);
    let mut i: usize = 0;
    while i < docs.len()
        invariant
            i <= docs@.len(),
            ledger.wf(),
            totals.wf(),
            all == crate::json::trees(docs@),
            (Reading { records: ledger@, model: text_opt(model), totals: totals@ })
                == read_session(start, all.take(i as int)),
        decreases docs@.len() - i,
    {
        proof {
            assert(all.take(i + 1).drop_last() =~= all.take(i as int));
            assert(all.take(i + 1).last() == docs@[i as int]@);
        }
        let v = &docs[i];
        i += 1;
        let entry_type = v.text_or("type", "");
        if let Some(payload) = v.get("payload") {
            if same(entry_type, "turn_context") {
                if let Some(m) = payload.text_at("model") {
                    let name = trim(m);
                    if !name.as_str().is_empty() {
                        model = Some(name);
                    }
                }
            } else if same(entry_type, "event_msg") {
                if let Some(kind) = payload.text_at("type") {
                    if same(kind, "token_count") {
                        if let Some(info) = payload.get("info") {
                            scan_count(ledger, &model, &mut totals, info);
                        }
                    }
                }
            }
        }
    }
    assert(all.take(i as int) =~= all);
}

/// Reads the token usage of each model out of the lines of one session.
///
/// Codex tells of every turn in an `event_msg` whose payload is a `token_count`. That carries
/// the delta of the turn (`last_token_usage`) and the running total (`total_token_usage`). Where
/// there is no delta, as in old versions and aborted turns, it is worked out from the totals.
/// The model at work comes from `turn_context` and can change within a session.
pub fn scan_codex_jsonl(lines: &Vec<String>, ledger: &mut Ledger)
    requires
        old(ledger).wf(),
    ensures
        final(ledger).wf(),
        final(ledger)@ == read_session(old(ledger)@, documents(texts(lines@))).records,
{
    let docs = read_documents(lines);
    scan_codex_documents(&docs, ledger);
}

/// One row of the database of threads.
pub struct ThreadRow {
    pub id: String,
    pub created_at: i64,
    pub updated_at: i64,
    pub model: Option<String>,
    pub tokens_used: Option<i64>,
}

/// What a row says.
#[verifier::ext_equal]
pub ghost struct ThreadView {
    pub id: Seq<char>,
    pub created_at: i64,
    pub updated_at: i64,
    pub model: Option<Seq<char>>,
    pub tokens_used: Option<i64>,
}

impl View for ThreadRow {
    type V = ThreadView;

    open spec fn view(&self) -> ThreadView {
        ThreadView {
            id: self.id@,
            created_at: self.created_at,
            updated_at: self.updated_at,
            model: text_opt(self.model),
            tokens_used: self.tokens_used,
        }
    }
}

/// What some rows say.
pub open spec fn thread_views(rows: Seq<ThreadRow>) -> Seq<ThreadView> {
    rows.map_values(|r: ThreadRow| r@)
}

/// Every row is read, in order and as it is.
pub proof fn law_every_row_is_read(rows: Seq<ThreadRow>, i: int)
    requires
        0 <= i < rows.len(),
    ensures
        thread_views(rows).len() == rows.len(),
        thread_views(rows)[i].id == rows[i].id@,
        thread_views(rows)[i].created_at == rows[i].created_at,
        thread_views(rows)[i].updated_at == rows[i].updated_at,
        thread_views(rows)[i].tokens_used == rows[i].tokens_used,
        thread_views(rows)[i].model is Some == rows[i].model is Some,
        rows[i].model matches Some(m) ==> thread_views(rows)[i].model == Some(m@),
{
}

impl ThreadView {
    /// The tokens of a thread; a missing or negative number counts as 0.
    pub open spec fn tokens(self) -> u64 {
        match self.tokens_used {
            Some(n) if n > 0 => n as u64,
            _ => 0,
        }
    }

    /// How long a thread took, from nothing to a day.
    pub open spec fn seconds(self) -> int {
        let span = self.updated_at - self.created_at;
        if span < 0 {
            0
        } else if span > 86_400 {
            86_400
        } else {
            span
        }
    }

    /// What counts on the days of a thread: its tokens when it was made, and that it was still
    /// at work when it was last written.
    pub open spec fn events(self) -> Seq<DayEvent> {
        let made = DayEvent {
            ts: self.created_at,
            tokens: self.tokens(),
            session: Some(self.id),
        };
        if self.updated_at != self.created_at {
            seq![made, DayEvent { ts: self.updated_at, tokens: 0, session: Some(self.id) }]
        } else {
            seq![made]
        }
    }

    /// The tokens of a thread whose model is known. How they were spent is not, so that they
    /// count as output.
    pub open spec fn records(self) -> Seq<Record> {
        match self.model {
            Some(m) => seq![tokens_record(m, 0, self.tokens(), 0, 0, 0)],
            None => Seq::empty(),
        }
    }
}

/// The tokens of all threads.
pub open spec fn thread_tokens(rows: Seq<ThreadView>) -> nat
    decreases rows.len(),
{
    if rows.len() == 0 {
        0
    } else {
        thread_tokens(rows.drop_last()) + rows.last().tokens() as nat
    }
}

/// The seconds of all threads.
pub open spec fn thread_seconds(rows: Seq<ThreadView>) -> int
    decreases rows.len(),
{
    if rows.len() == 0 {
        0
    } else {
        thread_seconds(rows.drop_last()) + rows.last().seconds()
    }
}

/// When threads were made and last written.
pub open spec fn thread_times(rows: Seq<ThreadView>) -> Seq<i64>
    decreases rows.len(),
{
    if rows.len() == 0 {
        Seq::empty()
    } else {
        thread_times(rows.drop_last()).push(rows.last().created_at).push(rows.last().updated_at)
    }
}

/// What counts on the days of all threads.
pub open spec fn thread_events(rows: Seq<ThreadView>) -> Seq<DayEvent>
    decreases rows.len(),
{
    if rows.len() == 0 {
        Seq::empty()
    } else {
        thread_events(rows.drop_last()) + rows.last().events()
    }
}

/// The tokens of the threads whose model is known.
pub open spec fn thread_records(rows: Seq<ThreadView>) -> Seq<Record>
    decreases rows.len(),
{
    if rows.len() == 0 {
        Seq::empty()
    } else {
        thread_records(rows.drop_last()) + rows.last().records()
    }
}

/// When the first thread was made.
pub open spec fn first_made(rows: Seq<ThreadView>) -> Option<i64>
    decreases rows.len(),
{
    if rows.len() == 0 {
        None
    } else {
        Some(crate::ledger::earlier(first_made(rows.drop_last()), rows.last().created_at))
    }
}

/// When a thread was last written.
pub open spec fn last_written(rows: Seq<ThreadView>) -> Option<i64>
    decreases rows.len(),
{
    if rows.len() == 0 {
        None
    } else {
        Some(crate::ledger::later(last_written(rows.drop_last()), rows.last().updated_at))
    }
}

/// Whether some records name a model.
pub open spec fn any_model(records: Seq<Record>) -> bool {
    exists|m: Seq<char>| has_model(records, m)
}

/// The records that tell of models: those of the sessions, or of the threads where the sessions
/// have none.
pub open spec fn chosen_records(rows: Seq<ThreadView>, files: Seq<LogView>) -> Seq<Record> {
    if any_model(session_records(files)) {
        session_records(files)
    } else {
        thread_records(rows)
    }
}

/// What Codex reports.
pub open spec fn codex_report(rows: Seq<ThreadView>, files: Seq<LogView>) -> ProviderReport {
    let records = chosen_records(rows, files);
    let buckets = buckets_of(thread_events(rows));
    ProviderReport {
        hours: Some(
            Hours {
                seconds: (if thread_seconds(rows) > 0 {
                    thread_seconds(rows)
                } else {
                    active_seconds(sorted_times(thread_times(rows)), 1800)
                }) as u128,
            },
        ),
        tokens: Some(
            if any_model(records) {
                all_sums(records).usage()
            } else {
                TokenSums { output: thread_tokens(rows), ..TokenSums::zero() }.usage()
            },
        ),
        sessions: Some(rows.len() as u64),
        models: if any_model(records) {
            Some(models_of(records))
        } else {
            None
        },
        first_seen: first_made(rows),
        last_seen: last_written(rows),
        daily_buckets: if buckets.dom() =~= Set::empty() {
            None
        } else {
            Some(buckets)
        },
        ..ProviderReport::blank("Codex (OpenAI)"@)
    }
}

proof fn lemma_after_others(records: Seq<Record>, docs: Seq<JsonTree>)
    ensures
        ({
            let alone = read_session(Seq::empty(), docs);
            let state = read_session(records, docs);
            &&& state.records == records + alone.records
            &&& state.model == alone.model
            &&& state.totals == alone.totals
        }),
    decreases docs.len(),
{
    let alone = read_session(Seq::empty(), docs);
    let state = read_session(records, docs);
    if docs.len() > 0 {
        lemma_after_others(records, docs.drop_last());
    }
    assert(state.records =~= records + alone.records);
}

proof fn lemma_file_alone(files: Seq<LogView>, file: LogView)
    ensures
        session_records(files.push(file)) == session_records(files) + session_records(seq![file]),
        session_records(seq![file]) == read_session(Seq::empty(), documents(file.lines)).records,
{
    assert(files.push(file).drop_last() =~= files);
    assert(seq![file].drop_last() =~= Seq::empty());
    assert(session_records(Seq::empty()) =~= Seq::empty());
    lemma_after_others(session_records(files), documents(file.lines));
}

proof fn lemma_logged(files: Seq<LogView>, model: Seq<char>)
    ensures
        ({
            let report = codex_report(Seq::empty(), files);
            let records = session_records(files);
            &&& report.tokens == Some(all_sums(records).usage())
            &&& report.models is Some <==> any_model(records)
            &&& used(report, model) == if has_model(records, model) {
                Some(model_sums(records, model).usage())
            } else {
                None
            }
        }),
{
    let records = session_records(files);
    let report = codex_report(Seq::empty(), files);
    assert(thread_records(Seq::empty()) =~= Seq::empty());
    assert(thread_tokens(Seq::empty()) == 0);
    if !any_model(records) {
        lemma_unnamed(records);
        assert forall|m: Seq<char>| !has_model(Seq::empty(), m) by {}
        assert(!any_model(chosen_records(Seq::empty(), files)));
    }
    if has_model(records, model) {
        assert(any_model(records));
    }
}

proof fn lemma_unnamed(records: Seq<Record>)
    requires
        !any_model(records),
    ensures
        all_sums(records) == TokenSums::zero(),
{
    assert forall|i: int| 0 <= i < records.len() implies !(#[trigger] records[i] is Tokens) by {
        if records[i] is Tokens {
            assert(names_model(records[i], records[i]->Tokens_0));
            assert(has_model(records, records[i]->Tokens_0));
        }
    }
    lemma_no_tokens(records);
}

/// Sessions add up: what is reported of the logs of some sessions and one more is, in all and of each
/// model, what is reported of those and of this one by itself. No session is passed over on account
/// of another, and threads stand back as soon as one session tells of a model.
pub proof fn law_sessions_add_up(
    rows: Seq<ThreadView>,
    files: Seq<LogView>,
    file: LogView,
    model: Seq<char>,
)
    ensures
        ({
            let those = codex_report(Seq::empty(), files);
            let this = codex_report(Seq::empty(), seq![file]);
            let all = codex_report(rows, files.push(file));
            let threads = codex_report(rows, Seq::empty());
            &&& model_sums(session_records(files.push(file)), model) == model_sums(
                session_records(files),
                model,
            ).plus(model_sums(session_records(seq![file]), model))
            &&& those.models is Some || this.models is Some ==> {
                &&& all.tokens == used_together(those.tokens, this.tokens)
                &&& used(all, model) == used_together(used(those, model), used(this, model))
                &&& all.models is Some
            }
            &&& those.models is None && this.models is None ==> {
                &&& all.tokens == threads.tokens
                &&& all.models == threads.models
            }
        }),
{
    let a = session_records(files);
    let b = session_records(seq![file]);
    lemma_file_alone(files, file);
    lemma_records_join(a, b, model);
    lemma_logged(files, model);
    lemma_logged(seq![file], model);
    crate::types::law_merge_adds_sums(all_sums(a), all_sums(b));
    crate::types::law_merge_adds_sums(model_sums(a, model), model_sums(b, model));
    assert(any_model(a + b) <==> any_model(a) || any_model(b)) by {
        if any_model(a) {
            let m = choose|m: Seq<char>| has_model(a, m);
            lemma_records_join(a, b, m);
            assert(has_model(a + b, m));
        }
        if any_model(b) {
            let m = choose|m: Seq<char>| has_model(b, m);
            lemma_records_join(a, b, m);
            assert(has_model(a + b, m));
        }
        if any_model(a + b) {
            let m = choose|m: Seq<char>| has_model(a + b, m);
            lemma_records_join(a, b, m);
        }
    }
    if !has_model(a, model) {
        crate::ledger::lemma_no_model_no_sums(a, model);
    }
    if !has_model(b, model) {
        crate::ledger::lemma_no_model_no_sums(b, model);
    }
    assert(model_sums(a, model).plus(TokenSums::zero()) == model_sums(a, model));
    assert(TokenSums::zero().plus(model_sums(b, model)) == model_sums(b, model));
    assert(session_records(Seq::empty()) =~= Seq::empty());
    assert forall|m: Seq<char>| !has_model(Seq::empty(), m) by {}
}

/// The model that a line announces: that of a `turn_context`, without white space around it, unless it
/// is blank.
pub open spec fn announced(v: JsonTree) -> Option<Seq<char>> {
    if v.text_at("type"@) == Some("turn_context"@) {
        match v.get_in("payload"@, "model"@) {
            Some(JsonTree::Text(m)) => if trimmed(m).len() > 0 {
                Some(trimmed(m))
            } else {
                None
            },
            _ => None,
        }
    } else {
        None
    }
}

/// Whether a model is at work after some lines: the one announced last, or an unknown one before any
/// is.
pub open spec fn is_at_work(docs: Seq<JsonTree>, model: Seq<char>) -> bool {
    ||| exists|k: int|
        0 <= k < docs.len() && announced(#[trigger] docs[k]) == Some(model) && forall|j: int|
            k < j < docs.len() ==> announced(#[trigger] docs[j]) is None
    ||| model == "unknown"@ && forall|j: int|
        0 <= j < docs.len() ==> announced(#[trigger] docs[j]) is None
}

proof fn lemma_types_differ(v: JsonTree)
    ensures
        v.text_or("type"@, ""@) == "turn_context"@ <==> v.text_at("type"@) == Some(
            "turn_context"@,
        ),
        v.text_or("type"@, ""@) == "event_msg"@ <==> v.text_at("type"@) == Some("event_msg"@),
        "turn_context"@ != "event_msg"@,
{
    reveal_strlit("");
    reveal_strlit("turn_context");
    reveal_strlit("event_msg");
    assert("turn_context"@.len() == 12 && "event_msg"@.len() == 9 && ""@.len() == 0);
}

proof fn lemma_at_work(records: Seq<Record>, docs: Seq<JsonTree>)
    ensures
        is_at_work(docs, model_at_work(read_session(records, docs))),
        read_session(records, docs).model is None ==> forall|j: int|
            0 <= j < docs.len() ==> announced(#[trigger] docs[j]) is None,
    decreases docs.len(),
{
    if docs.len() > 0 {
        let before = docs.drop_last();
        let state = read_session(records, before);
        lemma_at_work(records, before);
        lemma_types_differ(docs.last());
        let last = docs.len() - 1;
        let v = docs.last();
        let after = read_line(state, v);
        if announced(v) is Some {
            assert(after.model == announced(v));
            assert(announced(docs[last]) == Some(model_at_work(after)));
        } else {
            assert(after.model == state.model);
            let m = model_at_work(state);
            if exists|k: int|
                0 <= k < before.len() && announced(#[trigger] before[k]) == Some(m) && forall|
                    j: int,
                |
                    k < j < before.len() ==> announced(#[trigger] before[j]) is None {
                let k = choose|k: int|
                    0 <= k < before.len() && announced(#[trigger] before[k]) == Some(m) && forall|
                        j: int,
                    |
                        k < j < before.len() ==> announced(#[trigger] before[j]) is None;
                assert(docs[k] == before[k]);
                assert forall|j: int| k < j < docs.len() implies announced(#[trigger] docs[j]) is None by {
                    if j < last {
                        assert(docs[j] == before[j]);
                    }
                }
            } else {
                assert forall|j: int| 0 <= j < docs.len() implies announced(
                    #[trigger] docs[j],
                ) is None by {
                    if j < last {
                        assert(docs[j] == before[j]);
                    }
                }
            }
            if after.model is None {
                assert forall|j: int| 0 <= j < docs.len() implies announced(
                    #[trigger] docs[j],
                ) is None by {
                    if j < last {
                        assert(docs[j] == before[j]);
                    }
                }
            }
        }
    }
}

proof fn lemma_one_at_work(docs: Seq<JsonTree>, a: Seq<char>, b: Seq<char>)
    requires
        is_at_work(docs, a),
        is_at_work(docs, b),
    ensures
        a == b,
{
    if a != b {
        if exists|k: int|
            0 <= k < docs.len() && announced(#[trigger] docs[k]) == Some(a) && forall|j: int|
                k < j < docs.len() ==> announced(#[trigger] docs[j]) is None {
            let k = choose|k: int|
                0 <= k < docs.len() && announced(#[trigger] docs[k]) == Some(a) && forall|j: int|
                    k < j < docs.len() ==> announced(#[trigger] docs[j]) is None;
            if exists|i: int|
                0 <= i < docs.len() && announced(#[trigger] docs[i]) == Some(b) && forall|j: int|
                    i < j < docs.len() ==> announced(#[trigger] docs[j]) is None {
                let i = choose|i: int|
                    0 <= i < docs.len() && announced(#[trigger] docs[i]) == Some(b) && forall|j: int|
                        i < j < docs.len() ==> announced(#[trigger] docs[j]) is None;
                assert(announced(docs[i]) is Some);
                assert(announced(docs[k]) is Some);
                assert(i == k);
            } else {
                assert(announced(docs[k]) is None);
            }
        } else {
            let i = choose|i: int|
                0 <= i < docs.len() && announced(#[trigger] docs[i]) == Some(b) && forall|j: int|
                    i < j < docs.len() ==> announced(#[trigger] docs[j]) is None;
            assert(announced(docs[i]) is None);
        }
    }
}

/// The object that a line counts tokens in.
pub open spec fn token_info(v: JsonTree) -> Option<JsonTree> {
    if v.text_at("type"@) == Some("event_msg"@) && v.get_in("payload"@, "type"@) == Some(
        JsonTree::Text("token_count"@),
    ) {
        v.get_in("payload"@, "info"@)
    } else {
        None
    }
}

/// What counts of a turn come to for a model: what came out of the cache is taken out of the input,
/// reasoning is output.
pub open spec fn turn_sums(input: int, output: int, reasoning: int, cached: int) -> TokenSums {
    TokenSums {
        input: (if input > cached {
            input - cached
        } else {
            0
        }) as nat,
        output: (output + reasoning) as nat,
        cache_read: cached as nat,
        cache_creation: 0,
    }
}

/// A usage that is nothing at all.
pub open spec fn is_nothing(sums: TokenSums) -> bool {
    sums.input == 0 && sums.output == 0 && sums.cache_read == 0
}

/// Whether a file is another with one more line, which holds a document.
pub open spec fn has_one_more(longer: LogView, file: LogView, v: JsonTree) -> bool {
    &&& longer.lines.len() > 0
    &&& longer.lines.drop_last() == file.lines
    &&& json_document(longer.lines.last()) == Some(v)
    &&& !is_blank(longer.lines.last())
}

proof fn lemma_one_more(file: LogView, longer: LogView, v: JsonTree)
    requires
        has_one_more(longer, file, v),
    ensures
        session_records(seq![longer]) == read_line(
            read_session(Seq::empty(), documents(file.lines)),
            v,
        ).records,
        session_records(seq![file]) == read_session(Seq::empty(), documents(file.lines)).records,
        documents(longer.lines) == documents(file.lines).push(v),
{
    lemma_file_alone(Seq::empty(), file);
    lemma_file_alone(Seq::empty(), longer);
    let docs = documents(file.lines);
    assert(docs.push(v).drop_last() =~= docs);
}

proof fn lemma_turn_reported(
    file: LogView,
    longer: LogView,
    model: Seq<char>,
    other: Seq<char>,
    sums: TokenSums,
)
    requires
        session_records(seq![longer]) == if is_nothing(sums) {
            session_records(seq![file])
        } else {
            session_records(seq![file]).push(Record::Tokens(model, sums))
        },
        other != model,
    ensures
        ({
            let before = codex_report(Seq::empty(), seq![file]);
            let after = codex_report(Seq::empty(), seq![longer]);
            &&& !is_nothing(sums) ==> {
                &&& after.tokens == used_together(before.tokens, Some(sums.usage()))
                &&& used(after, model) == used_together(used(before, model), Some(sums.usage()))
                &&& used(after, other) == used(before, other)
            }
            &&& is_nothing(sums) ==> after.tokens == before.tokens && after.models == before.models
        }),
{
    lemma_logged(seq![file], model);
    lemma_logged(seq![longer], model);
    lemma_logged(seq![file], other);
    lemma_logged(seq![longer], other);
    let records = session_records(seq![file]);
    if !is_nothing(sums) {
        let more = seq![Record::Tokens(model, sums)];
        assert(records.push(Record::Tokens(model, sums)) =~= records + more);
        lemma_one_tokens(more, 0);
        lemma_records_join(records, more, model);
        lemma_records_join(records, more, other);
        if !has_model(records, model) {
            crate::ledger::lemma_no_model_no_sums(records, model);
            assert(TokenSums::zero().plus(sums) == sums);
        }
        crate::ledger::lemma_no_model_no_sums(more, other);
        assert(model_sums(records, other).plus(TokenSums::zero()) == model_sums(records, other));
        crate::types::law_merge_adds_sums(all_sums(records), sums);
        crate::types::law_merge_adds_sums(model_sums(records, model), sums);
    } else {
        assert(session_records(seq![longer]) == records);
        assert(thread_records(Seq::empty()) =~= Seq::empty());
    }
}

/// Every turn that carries its own delta counts with exactly that: one more token count in a session
/// adds it to all tokens and to the model at work, whatever was counted before, and to no other
/// model.
pub proof fn law_delta_is_counted(
    file: LogView,
    longer: LogView,
    v: JsonTree,
    info: JsonTree,
    delta: JsonTree,
    model: Seq<char>,
    other: Seq<char>,
)
    requires
        has_one_more(longer, file, v),
        token_info(v) == Some(info),
        info.get("last_token_usage"@) == Some(delta),
        !(delta is Null),
        is_at_work(documents(file.lines), model),
        other != model,
    ensures
        ({
            let before = codex_report(Seq::empty(), seq![file]);
            let after = codex_report(Seq::empty(), seq![longer]);
            let sums = turn_sums(
                delta.count_at("input_tokens"@) as int,
                delta.count_at("output_tokens"@) as int,
                delta.count_at("reasoning_output_tokens"@) as int,
                delta.count_at("cached_input_tokens"@) as int,
            );
            &&& !is_nothing(sums) ==> {
                &&& after.tokens == used_together(before.tokens, Some(sums.usage()))
                &&& used(after, model) == used_together(used(before, model), Some(sums.usage()))
                &&& used(after, other) == used(before, other)
            }
            &&& is_nothing(sums) ==> after.tokens == before.tokens && after.models == before.models
        }),
{
    let docs = documents(file.lines);
    let state = read_session(Seq::empty(), docs);
    lemma_one_more(file, longer, v);
    lemma_at_work(Seq::empty(), docs);
    lemma_one_at_work(docs, model, model_at_work(state));
    lemma_types_differ(v);
    let sums = turn_sums(
        delta.count_at("input_tokens"@) as int,
        delta.count_at("output_tokens"@) as int,
        delta.count_at("reasoning_output_tokens"@) as int,
        delta.count_at("cached_input_tokens"@) as int,
    );
    assert(read_line(state, v) == read_count(state, info));
    assert(CodexCounts::of(delta).record(model) == Record::Tokens(model, sums));
    lemma_turn_reported(file, longer, model, other, sums);
}

/// The running total that a line tells.
pub open spec fn told_total(v: JsonTree) -> Option<JsonTree> {
    match token_info(v) {
        Some(info) => match info.get("total_token_usage"@) {
            Some(total) => if total is Null {
                None
            } else {
                Some(total)
            },
            None => None,
        },
        None => None,
    }
}

/// A count of the last total that some lines tell while a model is at work; 0 where there is none.
pub open spec fn told_before(docs: Seq<JsonTree>, model: Seq<char>, key: Seq<char>) -> u64
    decreases docs.len(),
{
    if docs.len() == 0 {
        0
    } else {
        match told_total(docs.last()) {
            Some(total) => if is_at_work(docs.drop_last(), model) {
                total.count_at(key)
            } else {
                told_before(docs.drop_last(), model, key)
            },
            None => told_before(docs.drop_last(), model, key),
        }
    }
}

proof fn lemma_told_before(records: Seq<Record>, docs: Seq<JsonTree>, model: Seq<char>)
    ensures
        ({
            let known = last_total(read_session(records, docs).totals, model);
            &&& known.input == told_before(docs, model, "input_tokens"@)
            &&& known.output == told_before(docs, model, "output_tokens"@)
            &&& known.reasoning == told_before(docs, model, "reasoning_output_tokens"@)
            &&& known.cached == told_before(docs, model, "cached_input_tokens"@)
        }),
    decreases docs.len(),
{
    if docs.len() > 0 {
        let before = docs.drop_last();
        let state = read_session(records, before);
        let v = docs.last();
        lemma_told_before(records, before, model);
        lemma_at_work(records, before);
        lemma_types_differ(v);
        if is_at_work(before, model) {
            lemma_one_at_work(before, model, model_at_work(state));
        }
        match token_info(v) {
            Some(info) => {
                assert(read_line(state, v) == read_count(state, info));
            },
            None => {
                assert(read_line(state, v).totals == state.totals);
            },
        }
    }
}

/// Where a turn carries no delta, it counts with what its running total has over the last total of
/// the same model in the session, count by count and never below zero.
pub proof fn law_totals_are_told_apart(
    file: LogView,
    longer: LogView,
    v: JsonTree,
    info: JsonTree,
    now: JsonTree,
    model: Seq<char>,
    other: Seq<char>,
)
    requires
        has_one_more(longer, file, v),
        token_info(v) == Some(info),
        info.get("last_token_usage"@) is None || info.get("last_token_usage"@)->0 is Null,
        told_total(v) == Some(now),
        is_at_work(documents(file.lines), model),
        other != model,
    ensures
        ({
            let before = codex_report(Seq::empty(), seq![file]);
            let after = codex_report(Seq::empty(), seq![longer]);
            let grown = |key: Seq<char>|
                {
                    let had = told_before(documents(file.lines), model, key);
                    if now.count_at(key) > had {
                        now.count_at(key) - had
                    } else {
                        0
                    }
                };
            let sums = turn_sums(
                grown("input_tokens"@),
                grown("output_tokens"@),
                grown("reasoning_output_tokens"@),
                grown("cached_input_tokens"@),
            );
            &&& !is_nothing(sums) ==> {
                &&& after.tokens == used_together(before.tokens, Some(sums.usage()))
                &&& used(after, model) == used_together(used(before, model), Some(sums.usage()))
                &&& used(after, other) == used(before, other)
            }
            &&& is_nothing(sums) ==> after.tokens == before.tokens && after.models == before.models
        }),
{
    let docs = documents(file.lines);
    let state = read_session(Seq::empty(), docs);
    lemma_one_more(file, longer, v);
    lemma_at_work(Seq::empty(), docs);
    lemma_one_at_work(docs, model, model_at_work(state));
    lemma_types_differ(v);
    lemma_told_before(Seq::empty(), docs, model);
    let counts = CodexCounts::of(now).since(last_total(state.totals, model));
    let sums = turn_sums(
        counts.input as int,
        counts.output as int,
        counts.reasoning as int,
        counts.cached as int,
    );
    assert(read_line(state, v) == read_count(state, info));
    assert(counts.record(model) == Record::Tokens(model, sums));
    lemma_turn_reported(file, longer, model, other, sums);
}

/// A line that counts no tokens, or counts them neither by turn nor in all, adds none.
pub proof fn law_other_lines_add_none(file: LogView, longer: LogView, v: JsonTree)
    requires
        has_one_more(longer, file, v),
        token_info(v) matches Some(info) ==> told_total(v) is None && (info.get(
            "last_token_usage"@,
        ) is None || info.get("last_token_usage"@)->0 is Null),
    ensures
        codex_report(Seq::empty(), seq![longer]).tokens == codex_report(
            Seq::empty(),
            seq![file],
        ).tokens,
        codex_report(Seq::empty(), seq![longer]).models == codex_report(
            Seq::empty(),
            seq![file],
        ).models,
{
    let docs = documents(file.lines);
    let state = read_session(Seq::empty(), docs);
    lemma_one_more(file, longer, v);
    lemma_types_differ(v);
    match token_info(v) {
        Some(info) => {
            assert(read_line(state, v) == read_count(state, info));
        },
        None => {},
    }
    assert(session_records(seq![longer]) == session_records(seq![file]));
    assert(thread_records(Seq::empty()) =~= Seq::empty());
}

/// Only the documents of a log count: lines that are blank or no JSON do not matter.
pub proof fn law_only_documents_count(
    rows: Seq<ThreadView>,
    files: Seq<LogView>,
    file: LogView,
    other: LogView,
)
    requires
        documents(file.lines) == documents(other.lines),
    ensures
        codex_report(rows, files.push(file)) == codex_report(rows, files.push(other)),
{
    assert(files.push(file).drop_last() =~= files);
    assert(files.push(other).drop_last() =~= files);
}

/// A log without documents tells nothing.
pub proof fn law_empty_session_tells_nothing(file: LogView)
    requires
        documents(file.lines).len() == 0,
    ensures
        codex_report(Seq::empty(), seq![file]).models is None,
        codex_report(Seq::empty(), Seq::empty()).models is None,
        codex_report(Seq::empty(), seq![file]).tokens->0.total == 0,
{
    lemma_file_alone(Seq::empty(), file);
    assert(session_records(seq![file]) =~= Seq::empty());
    assert(session_records(Seq::empty()) =~= Seq::empty());
    lemma_logged(seq![file], Seq::empty());
    lemma_logged(Seq::empty(), Seq::empty());
    assert forall|m: Seq<char>| !has_model(Seq::empty(), m) by {}
}

/// One more thread is one more session. It widens the time from the first that was made to the last
/// that was written, and counts on the day it was made with its tokens and on the day it was last
/// written without.
pub proof fn law_thread_is_a_session(rows: Seq<ThreadView>, row: ThreadView, files: Seq<LogView>)
    ensures
        ({
            let before = codex_report(rows, files);
            let after = codex_report(rows.push(row), files);
            let tokens = match row.tokens_used {
                Some(n) => if n > 0 {
                    n as u64
                } else {
                    0
                },
                None => 0,
            };
            &&& rows.len() < u64::MAX ==> after.sessions == Some((before.sessions->0 + 1) as u64)
            &&& after.first_seen == least(before.first_seen, Some(row.created_at))
            &&& after.last_seen == most(before.last_seen, Some(row.updated_at))
            &&& thread_events(rows.push(row)) == thread_events(rows) + seq![
                DayEvent { ts: row.created_at, tokens, session: Some(row.id) },
            ] + (if row.updated_at == row.created_at {
                Seq::empty()
            } else {
                seq![DayEvent { ts: row.updated_at, tokens: 0, session: Some(row.id) }]
            })
            &&& after.daily_buckets is Some ==> after.daily_buckets == Some(
                buckets_of(thread_events(rows.push(row))),
            )
            &&& after.daily_buckets is None ==> buckets_of(thread_events(rows.push(row)))
                =~= Map::empty()
        }),
{
    assert(rows.push(row).drop_last() =~= rows);
    assert(thread_events(rows.push(row)) =~= thread_events(rows) + row.events());
    assert(thread_events(rows) + row.events() =~= thread_events(rows) + seq![
        DayEvent { ts: row.created_at, tokens: row.tokens(), session: Some(row.id) },
    ] + (if row.updated_at == row.created_at {
        Seq::empty()
    } else {
        seq![DayEvent { ts: row.updated_at, tokens: 0, session: Some(row.id) }]
    }));
    let buckets = buckets_of(thread_events(rows.push(row)));
    if codex_report(rows.push(row), files).daily_buckets is None {
        assert(buckets =~= Map::empty());
    }
}

proof fn lemma_thread_sums(rows: Seq<ThreadView>)
    ensures
        thread_seconds(rows) == crate::types::total(
            rows.map_values(|r: ThreadView| clamped_span(r) as nat),
        ),
        thread_tokens(rows) == crate::types::total(
            rows.map_values(|r: ThreadView| positive(r.tokens_used)),
        ),
    decreases rows.len(),
{
    let spans = rows.map_values(|r: ThreadView| clamped_span(r) as nat);
    let counts = rows.map_values(|r: ThreadView| positive(r.tokens_used));
    if rows.len() == 0 {
        assert(spans =~= Seq::empty());
        assert(counts =~= Seq::empty());
        crate::types::lemma_total_push(Seq::empty(), 0);
    } else {
        let before = rows.drop_last();
        lemma_thread_sums(before);
        let a = before.map_values(|r: ThreadView| clamped_span(r) as nat);
        let b = before.map_values(|r: ThreadView| positive(r.tokens_used));
        assert(spans =~= a.push(clamped_span(rows.last()) as nat));
        assert(counts =~= b.push(positive(rows.last().tokens_used)));
        crate::types::lemma_total_push(a, clamped_span(rows.last()) as nat);
        crate::types::lemma_total_push(b, positive(rows.last().tokens_used));
    }
}

/// How long a thread took: not less than nothing and not more than a day.
pub open spec fn clamped_span(row: ThreadView) -> int {
    if row.updated_at <= row.created_at {
        0
    } else if row.updated_at - row.created_at >= 86_400 {
        86_400
    } else {
        row.updated_at - row.created_at
    }
}

/// A number that may be missing; nothing where it is below zero.
pub open spec fn positive(n: Option<i64>) -> nat {
    match n {
        Some(x) => if x >= 0 {
            x as nat
        } else {
            0
        },
        None => 0,
    }
}

proof fn lemma_thread_models(rows: Seq<ThreadView>, model: Seq<char>)
    ensures
        ({
            let named = rows.filter(|r: ThreadView| r.model is Some);
            let of_model = rows.filter(|r: ThreadView| r.model == Some(model));
            let records = thread_records(rows);
            &&& has_model(records, model) <==> of_model.len() > 0
            &&& any_model(records) <==> named.len() > 0
            &&& model_sums(records, model) == (TokenSums {
                output: crate::types::total(
                    of_model.map_values(|r: ThreadView| positive(r.tokens_used)),
                ),
                ..TokenSums::zero()
            })
            &&& all_sums(records) == (TokenSums {
                output: crate::types::total(
                    named.map_values(|r: ThreadView| positive(r.tokens_used)),
                ),
                ..TokenSums::zero()
            })
        }),
    decreases rows.len(),
{
    reveal(Seq::filter);
    let is_named = |r: ThreadView| r.model is Some;
    let is_of = |r: ThreadView| r.model == Some(model);
    let tokens = |r: ThreadView| positive(r.tokens_used);
    let records = thread_records(rows);
    if rows.len() == 0 {
        crate::types::lemma_total_push(Seq::empty(), 0);
        assert(rows.filter(is_named).map_values(tokens) =~= Seq::empty());
        assert(rows.filter(is_of).map_values(tokens) =~= Seq::empty());
        assert forall|m: Seq<char>| !has_model(records, m) by {}
    } else {
        let before = rows.drop_last();
        let row = rows.last();
        lemma_thread_models(before, model);
        assert(rows =~= before.push(row));
        before.lemma_filter_push(row, is_named);
        before.lemma_filter_push(row, is_of);
        let known = thread_records(before);
        lemma_records_join(known, row.records(), model);
        match row.model {
            Some(m) => {
                lemma_one_tokens(row.records(), 0);
                let a = before.filter(is_named);
                assert(a.push(row).map_values(tokens) =~= a.map_values(tokens).push(tokens(row)));
                crate::types::lemma_total_push(a.map_values(tokens), tokens(row));
                let b = before.filter(is_of);
                assert(b.push(row).map_values(tokens) =~= b.map_values(tokens).push(tokens(row)));
                crate::types::lemma_total_push(b.map_values(tokens), tokens(row));
                lemma_records_join(known, row.records(), m);
                assert(has_model(records, m));
                if m != model {
                    crate::ledger::lemma_no_model_no_sums(row.records(), model);
                }
            },
            None => {
                assert(records =~= known);
            },
        }
    }
}

/// Where no session tells of a model, threads do: each model has the tokens of its threads, as output,
/// and all tokens are those of the threads whose model is known, or of all threads where none is. A
/// negative number counts as nothing.
pub proof fn law_threads_stand_in(rows: Seq<ThreadView>, files: Seq<LogView>, model: Seq<char>)
    requires
        codex_report(Seq::empty(), files).models is None,
    ensures
        ({
            let report = codex_report(rows, files);
            let tokens = |r: ThreadView| positive(r.tokens_used);
            let named = rows.filter(|r: ThreadView| r.model is Some);
            let of_model = rows.filter(|r: ThreadView| r.model == Some(model));
            let output = |n: nat|
                TokenSums { input: 0, output: n, cache_read: 0, cache_creation: 0 }.usage();
            &&& used(report, model) == if of_model.len() > 0 {
                Some(output(crate::types::total(of_model.map_values(tokens))))
            } else {
                None
            }
            &&& report.tokens == Some(
                if named.len() > 0 {
                    output(crate::types::total(named.map_values(tokens)))
                } else {
                    output(crate::types::total(rows.map_values(tokens)))
                },
            )
        }),
{
    lemma_logged(files, model);
    lemma_thread_models(rows, model);
    lemma_thread_sums(rows);
    let tokens = |r: ThreadView| positive(r.tokens_used);
    assert(rows.map_values(tokens) =~= rows.map_values(
        |r: ThreadView| positive(r.tokens_used),
    ));
    let named = rows.filter(|r: ThreadView| r.model is Some);
    let of_model = rows.filter(|r: ThreadView| r.model == Some(model));
    assert(named.map_values(tokens) =~= named.map_values(
        |r: ThreadView| positive(r.tokens_used),
    ));
    assert(of_model.map_values(tokens) =~= of_model.map_values(
        |r: ThreadView| positive(r.tokens_used),
    ));
    if has_model(thread_records(rows), model) {
        assert(any_model(thread_records(rows)));
    }
}

/// The hours of Codex are those of its threads, each from when it was made to when it was last
/// written and at most a day. Where that is nothing at all, the times of the threads tell, with
/// breaks of up to half an hour.
pub proof fn law_hours_are_of_threads(rows: Seq<ThreadView>, files: Seq<LogView>)
    ensures
        ({
            let report = codex_report(rows, files);
            let seconds = crate::types::total(
                rows.map_values(|r: ThreadView| clamped_span(r) as nat),
            );
            &&& 0 < seconds <= u128::MAX ==> report.hours == Some(
                Hours { seconds: seconds as u128 },
            )
            &&& seconds == 0 ==> report.hours == Some(
                Hours { seconds: half_hour_activity(thread_times(rows)) as u128 },
            )
            &&& report.provider == "Codex (OpenAI)"@
            &&& report.visits is None && report.invocations is None && report.metadata is None
            &&& !report.tokens_estimated && report.tokens_estimate_method is None
        }),
{
    lemma_thread_sums(rows);
    lemma_half_hour(thread_times(rows));
}

/// The times of threads are when each was made and when it was last written.
pub proof fn law_thread_times(rows: Seq<ThreadView>, row: ThreadView)
    ensures
        thread_times(rows.push(row)) == thread_times(rows) + seq![row.created_at, row.updated_at],
        thread_times(Seq::empty()) == Seq::<i64>::empty(),
{
    assert(rows.push(row).drop_last() =~= rows);
    assert(thread_times(rows.push(row)) =~= thread_times(rows) + seq![
        row.created_at,
        row.updated_at,
    ]);
}

/// What the threads come to.
struct ThreadTotals {
    tokens: u64,
    seconds: u128,
    times: Vec<i64>,
    events: Vec<(i64, u64, Option<String>)>,
    first_seen: Option<i64>,
    last_seen: Option<i64>,
    ledger: Ledger,
}

impl ThreadTotals {
    spec fn holds(&self, rows: Seq<ThreadView>) -> bool {
        &&& self.tokens == capped(thread_tokens(rows) as int)
        &&& self.seconds == thread_seconds(rows)
        &&& self.times@ == thread_times(rows)
        &&& day_events(self.events@) == thread_events(rows)
        &&& self.first_seen == first_made(rows)
        &&& self.last_seen == last_written(rows)
        &&& self.ledger.wf()
        &&& self.ledger@ == thread_records(rows)
    }

    fn add_row(&mut self, row: &ThreadRow, Ghost(before): Ghost<Seq<ThreadView>>)
        requires
            old(self).holds(before),
            old(self).seconds <= before.len() * 86_400,
            before.len() < usize::MAX,
        ensures
            final(self).holds(before.push(row@)),
            final(self).seconds <= (before.len() + 1) * 86_400,
    {
        let ghost known = day_events(self.events@);
        let ghost told = self.ledger@;
        assert(before.push(row@).drop_last() =~= before);
        self.times.push(row.created_at);
        self.times.push(row.updated_at);
        self.first_seen = match self.first_seen {
            Some(first) if first <= row.created_at => Some(first),
            _ => Some(row.created_at),
        };
        self.last_seen = match self.last_seen {
            Some(last) if last >= row.updated_at => Some(last),
            _ => Some(row.updated_at),
        };
        let tokens: u64 = match row.tokens_used {
            Some(n) if n > 0 => n as u64,
            _ => 0,
        };
        self.tokens = self.tokens.saturating_add(tokens);
        if let Some(model) = &row.model {
            self.ledger.note_tokens(model.as_str(), 0, tokens, 0, 0, 0);
        }
        assert(self.ledger@ =~= told + row@.records());
        let span: i128 = row.updated_at as i128 - row.created_at as i128;
        let seconds: u128 = if span < 0 {
            0
        } else if span > 86_400 {
            86_400
        } else {
            span as u128
        };
        self.seconds = self.seconds + seconds;
        self.events.push((row.created_at, tokens, Some(row.id.clone())));
        if row.updated_at != row.created_at {
            self.events.push((row.updated_at, 0, Some(row.id.clone())));
        }
        assert(day_events(self.events@) =~= known + row@.events());
    }
}

impl CodexProvider {
    /// Usage from the database of threads and the logs of the sessions.
    pub fn scan(&self, rows: &Vec<ThreadRow>, files: &Vec<LogFile>) -> (r: ProviderResult)
        ensures
            r.wf(),
            r@ == codex_report(thread_views(rows@), log_views(files@)),
    {
        let ghost threads = thread_views(rows@);
        let mut totals = ThreadTotals {
            tokens: 0,
            seconds: 0,
            times: Vec::new(),
            events: Vec::new(),
            first_seen: None,
            last_seen: None,
            ledger: Ledger::new(),
        };
        let mut i: usize = 0;
        proof {
            assert(threads.take(0) =~= Seq::empty());
            assert(day_events(totals.events@) =~= Seq::empty());
        }
        while i < rows.len()
            invariant
                i <= rows@.len(),
                threads == thread_views(rows@),
                totals.holds(threads.take(i as int)),
                totals.seconds <= i * 86_400,
            decreases rows@.len() - i,
        {
            assert(threads.take(i + 1) =~= threads.take(i as int).push(rows@[i as int]@));
            totals.add_row(&rows[i], Ghost(threads.take(i as int)));
            i += 1;
        }
        assert(threads.take(i as int) =~= threads);

        let ghost logs = log_views(files@);
        let mut ledger = Ledger::new();
        let mut j: usize = 0;
        while j < files.len()
            invariant
                j <= files@.len(),
                logs == log_views(files@),
                ledger.wf(),
                ledger@ == session_records(logs.take(j as int)),
            decreases files@.len() - j,
        {
            proof {
                assert(logs.take(j + 1).drop_last() =~= logs.take(j as int));
                assert(logs.take(j + 1).last() == files@[j as int]@);
            }
            scan_codex_jsonl(&files[j].lines, &mut ledger);
            j += 1;
        }
        assert(logs.take(j as int) =~= logs);

        let hours = if totals.seconds > 0 {
            Hours { seconds: totals.seconds }
        } else {
            let sorted = sort_times(totals.times.as_slice());
            active_hours_from_timestamps(sorted.as_slice(), 1800)
        };
        let (session_models, session_tokens) = ledger.into_models();
        let (thread_models, known_tokens) = totals.ledger.into_models();
        proof {
            lemma_models_show(session_models@, session_records(logs));
            lemma_models_show(thread_models@, thread_records(threads));
        }
        let (models, tokens) = if !session_models.is_empty() {
            (session_models, session_tokens)
        } else {
            (thread_models, known_tokens)
        };
        let mut result = ProviderResult::new("Codex (OpenAI)");
        result.hours = Some(hours);
        result.sessions = Some(rows.len() as u64);
        result.first_seen = totals.first_seen;
        result.last_seen = totals.last_seen;
        if !models.is_empty() {
            result.tokens = Some(tokens);
            result.models = Some(models);
        } else {
            let mut all = TokenUsage::default();
            all.output_tokens = totals.tokens;
            all.compute_total();
            result.tokens = Some(all);
        }
        let buckets = build_daily_buckets(totals.events.as_slice());
        if !buckets.is_empty() {
            result.daily_buckets = Some(buckets);
        }
        result
    }
}

proof fn lemma_models_show(models: Map<Seq<char>, ModelUsage>, records: Seq<Record>)
    requires
        models == models_of(records),
    ensures
        any_model(records) <==> !(models =~= Map::empty()),
{
    if any_model(records) {
        let m = choose|m: Seq<char>| has_model(records, m);
        assert(models.contains_key(m));
    } else {
        assert(models =~= Map::empty());
    }
}

} // verus!
