//! Gemini CLI: logs of what was asked, and chat transcripts with token counts.

use crate::collections::StrMap;
use crate::json::{json_document, parse_json, trees, Json, JsonTree};
use crate::ledger::{
    event_record, events_of, has_model, lemma_no_model_no_sums, lemma_no_tokens, lemma_one_tokens,
    lemma_records_join, model_sums, models_of, tokens_record, used, Ledger, Record,
};
use crate::logs::{documents, read_documents};
use crate::text::{
    blank, distinct, is_blank, law_distinct_keeps_each_once, lines, lines_of, same, text_opt, texts,
    trim, trimmed,
};
use crate::time_util::{
    active_seconds, build_daily_buckets, buckets_of, day_events, first_time, half_hour_activity,
    iso8601_to_unix, iso_seconds, last_time, lemma_half_hour, sorted_times, time_range, DayEvent,
};
use crate::types::{
    capped, lemma_total_push, total, Hours, MetaTree, MetaValue, ModelUsage, ProviderReport,
    ProviderResult, ScanError, TokenSums, TokenUsage,
};
use vstd::hash_set::StringHashSet;
use vstd::prelude::*;

verus! {

pub struct GeminiProvider;

/// A chat transcript.
pub struct ChatFile {
    /// The whole path.
    pub path: String,
    /// The name of the directory that holds the file.
    pub parent: Option<String>,
    /// What the file holds.
    pub content: String,
}

/// What a transcript says.
#[verifier::ext_equal]
pub ghost struct ChatView {
    pub path: Seq<char>,
    pub parent: Option<Seq<char>>,
    pub content: Seq<char>,
}

impl View for ChatFile {
    type V = ChatView;

    open spec fn view(&self) -> ChatView {
        ChatView { path: self.path@, parent: text_opt(self.parent), content: self.content@ }
    }
}

/// What some transcripts say.
pub open spec fn chat_views(files: Seq<ChatFile>) -> Seq<ChatView> {
    files.map_values(|f: ChatFile| f@)
}

/// Every transcript is read, in order and as it is.
pub proof fn law_every_transcript_is_read(files: Seq<ChatFile>, i: int)
    requires
        0 <= i < files.len(),
    ensures
        chat_views(files).len() == files.len(),
        chat_views(files)[i].path == files[i].path@,
        chat_views(files)[i].content == files[i].content@,
        chat_views(files)[i].parent is Some == files[i].parent is Some,
        files[i].parent matches Some(p) ==> chat_views(files)[i].parent == Some(p@),
{
}

/// The first of some lines that is not blank.
pub open spec fn first_line(all: Seq<Seq<char>>) -> Option<Seq<char>>
    decreases all.len(),
{
    if all.len() == 0 {
        None
    } else if is_blank(all[0]) {
        first_line(all.drop_first())
    } else {
        Some(all[0])
    }
}

/// The session that the header of a transcript names.
pub open spec fn header_session(content: Seq<char>) -> Option<Seq<char>> {
    match first_line(lines(content)) {
        Some(line) => match json_document(line) {
            Some(v) => v.text_at("sessionId"@),
            None => None,
        },
        None => None,
    }
}

/// The session of a transcript. One directly under `chats` names it in its header; one further
/// down stands in a directory of the session's name. Where neither tells, the path of the file
/// keeps its rows together.
pub open spec fn session_key(chat: ChatView) -> Seq<char> {
    match chat.parent {
        Some(name) => if name == "chats"@ {
            match header_session(chat.content) {
                Some(s) => s,
                None => chat.path,
            }
        } else {
            name
        },
        None => chat.path,
    }
}

/// The documents in some lines without the white space around them.
pub open spec fn trimmed_documents(all: Seq<Seq<char>>) -> Seq<JsonTree>
    decreases all.len(),
{
    if all.len() == 0 {
        Seq::empty()
    } else {
        let before = trimmed_documents(all.drop_last());
        match json_document(trimmed(all.last())) {
            Some(tree) if !is_blank(all.last()) => before.push(tree),
            _ => before,
        }
    }
}

/// A row of a transcript that carries token counts. Input and cached are running totals of the
/// session; output belongs to the turn.
#[verifier::ext_equal]
pub ghost struct TokenRow {
    pub session: Seq<char>,
    pub input: u64,
    pub cached: u64,
    pub output: u64,
    pub id: Option<Seq<char>>,
    pub model: Option<Seq<char>>,
    pub time: Option<i64>,
}

/// The token counts of a line.
pub open spec fn token_row(v: JsonTree, session: Seq<char>) -> Option<TokenRow> {
    if v.text_at("type"@) == Some("gemini"@) {
        match v.get("tokens"@) {
            Some(t) => Some(
                TokenRow {
                    session,
                    input: t.count_at("input"@),
                    cached: t.count_at("cached"@),
                    output: t.count_at("output"@),
                    id: v.text_at("id"@),
                    model: v.text_at("model"@),
                    time: match v.text_at("timestamp"@) {
                        Some(text) => iso_seconds(text),
                        None => None,
                    },
                },
            ),
            None => None,
        }
    } else {
        None
    }
}

/// The rows of some documents, after some rows.
pub open spec fn rows_after(
    rows: Seq<TokenRow>,
    docs: Seq<JsonTree>,
    session: Seq<char>,
) -> Seq<TokenRow>
    decreases docs.len(),
{
    if docs.len() == 0 {
        rows
    } else {
        let before = rows_after(rows, docs.drop_last(), session);
        match token_row(docs.last(), session) {
            Some(row) => before.push(row),
            None => before,
        }
    }
}

/// The rows of some transcripts.
pub open spec fn chat_rows(chats: Seq<ChatView>) -> Seq<TokenRow>
    decreases chats.len(),
{
    if chats.len() == 0 {
        Seq::empty()
    } else {
        rows_after(
            chat_rows(chats.drop_last()),
            trimmed_documents(lines(chats.last().content)),
            session_key(chats.last()),
        )
    }
}

/// The ids of some rows.
pub open spec fn row_ids(rows: Seq<TokenRow>) -> Set<Seq<char>>
    decreases rows.len(),
{
    if rows.len() == 0 {
        Set::empty()
    } else {
        match rows.last().id {
            Some(id) => row_ids(rows.drop_last()).insert(id),
            None => row_ids(rows.drop_last()),
        }
    }
}

/// The rows that are a turn of their own: those with an id that no earlier row has.
pub open spec fn turns(rows: Seq<TokenRow>) -> Seq<TokenRow>
    decreases rows.len(),
{
    if rows.len() == 0 {
        Seq::empty()
    } else {
        let before = turns(rows.drop_last());
        match rows.last().id {
            Some(id) if !row_ids(rows.drop_last()).contains(id) => before.push(rows.last()),
            _ => before,
        }
    }
}

/// The output of some turns.
pub open spec fn summed_output(turns: Seq<TokenRow>) -> nat
    decreases turns.len(),
{
    if turns.len() == 0 {
        0
    } else {
        summed_output(turns.drop_last()) + turns.last().output as nat
    }
}

/// What a turn tells: its output by model and by day.
pub open spec fn turn_records(turn: TokenRow) -> Seq<Record> {
    let tokens = match turn.model {
        Some(m) => seq![tokens_record(m, 0, turn.output, 0, 0, 0)],
        None => Seq::empty(),
    };
    match turn.time {
        Some(ts) => tokens.push(event_record(ts, turn.output, Some(turn.session))),
        None => tokens,
    }
}

/// What some turns tell.
pub open spec fn all_turn_records(turns: Seq<TokenRow>) -> Seq<Record>
    decreases turns.len(),
{
    if turns.len() == 0 {
        Seq::empty()
    } else {
        all_turn_records(turns.drop_last()) + turn_records(turns.last())
    }
}

/// The sessions of some rows, in the order in which they came.
pub open spec fn row_sessions(rows: Seq<TokenRow>) -> Seq<Seq<char>> {
    distinct(rows.map_values(|r: TokenRow| r.session))
}

/// The larger of two counts.
pub open spec fn larger(a: u64, b: u64) -> u64 {
    if a >= b {
        a
    } else {
        b
    }
}

/// The largest input that a row of a session shows: how far its context grew.
pub open spec fn peak_input(rows: Seq<TokenRow>, session: Seq<char>) -> u64
    decreases rows.len(),
{
    if rows.len() == 0 {
        0
    } else if rows.last().session == session {
        larger(peak_input(rows.drop_last(), session), rows.last().input)
    } else {
        peak_input(rows.drop_last(), session)
    }
}

/// The largest count of cached tokens that a row of a session shows.
pub open spec fn peak_cached(rows: Seq<TokenRow>, session: Seq<char>) -> u64
    decreases rows.len(),
{
    if rows.len() == 0 {
        0
    } else if rows.last().session == session {
        larger(peak_cached(rows.drop_last(), session), rows.last().cached)
    } else {
        peak_cached(rows.drop_last(), session)
    }
}

/// The peaks of some sessions added up.
pub open spec fn summed_input(rows: Seq<TokenRow>, sessions: Seq<Seq<char>>) -> nat
    decreases sessions.len(),
{
    if sessions.len() == 0 {
        0
    } else {
        summed_input(rows, sessions.drop_last()) + peak_input(rows, sessions.last()) as nat
    }
}

/// The peaks of cached tokens of some sessions added up.
pub open spec fn summed_cached(rows: Seq<TokenRow>, sessions: Seq<Seq<char>>) -> nat
    decreases sessions.len(),
{
    if sessions.len() == 0 {
        0
    } else {
        summed_cached(rows, sessions.drop_last()) + peak_cached(rows, sessions.last()) as nat
    }
}

/// The tokens that some rows come to: the output of every turn, and of every session the peaks
/// of input and cache, which are running totals.
pub open spec fn row_tokens(rows: Seq<TokenRow>) -> TokenUsage {
    TokenSums {
        input: summed_input(rows, row_sessions(rows)),
        output: summed_output(turns(rows)),
        cache_read: summed_cached(rows, row_sessions(rows)),
        cache_creation: 0,
    }.usage()
}

/// A row with an id that was met before adds no output, no event and no model.
pub proof fn law_turn_counts_once(rows: Seq<TokenRow>, row: TokenRow)
    requires
        row.id matches Some(id) ==> row_ids(rows).contains(id),
    ensures
        turns(rows.push(row)) == turns(rows),
{
    assert(rows.push(row).drop_last() =~= rows);
}

/// The peak of a session is the input of one of its rows, and no row of it shows more.
pub proof fn law_peak_is_largest(rows: Seq<TokenRow>, session: Seq<char>)
    ensures
        forall|i: int|
            0 <= i < rows.len() && (#[trigger] rows[i]).session == session ==> rows[i].input
                <= peak_input(rows, session) && rows[i].cached <= peak_cached(rows, session),
        peak_input(rows, session) > 0 ==> exists|i: int|
            0 <= i < rows.len() && (#[trigger] rows[i]).session == session && rows[i].input
                == peak_input(rows, session),
        peak_cached(rows, session) > 0 ==> exists|i: int|
            0 <= i < rows.len() && (#[trigger] rows[i]).session == session && rows[i].cached
                == peak_cached(rows, session),
    decreases rows.len(),
{
    if rows.len() > 0 {
        let before = rows.drop_last();
        law_peak_is_largest(before, session);
        assert forall|i: int|
            0 <= i < rows.len() && (#[trigger] rows[i]).session == session implies rows[i].input
            <= peak_input(rows, session) && rows[i].cached <= peak_cached(rows, session) by {
            if i < before.len() {
                assert(before[i] == rows[i]);
            }
        }
        let last = rows.len() - 1;
        if peak_input(rows, session) > 0 {
            if peak_input(rows, session) == peak_input(before, session) {
                let i = choose|i: int|
                    0 <= i < before.len() && (#[trigger] before[i]).session == session
                        && before[i].input == peak_input(before, session);
                assert(rows[i] == before[i]);
            } else {
                assert(rows[last].session == session);
            }
        }
        if peak_cached(rows, session) > 0 {
            if peak_cached(rows, session) == peak_cached(before, session) {
                let i = choose|i: int|
                    0 <= i < before.len() && (#[trigger] before[i]).session == session
                        && before[i].cached == peak_cached(before, session);
                assert(rows[i] == before[i]);
            } else {
                assert(rows[last].session == session);
            }
        }
    }
}

proof fn lemma_first_line_skip(all: Seq<Seq<char>>, n: int)
    requires
        0 <= n <= all.len(),
        forall|i: int| 0 <= i < n ==> is_blank(#[trigger] all[i]),
    ensures
        first_line(all) == first_line(all.skip(n)),
    decreases n,
{
    if n > 0 {
        assert(is_blank(all[0]));
        assert(all.drop_first().skip(n - 1) =~= all.skip(n));
        lemma_first_line_skip(all.drop_first(), n - 1);
    } else {
        assert(all.skip(0) =~= all);
    }
}

fn first_line_of(all: &Vec<String>) -> (r: Option<&String>)
    ensures
        match r {
            Some(line) => first_line(texts(all@)) == Some(line@),
            None => first_line(texts(all@)) is None,
        },
{
    let ghost lines = texts(all@);
    let mut i: usize = 0;
    while i < all.len()
        invariant
            i <= all@.len(),
            lines == texts(all@),
            forall|k: int| 0 <= k < i ==> is_blank(#[trigger] lines[k]),
        decreases all@.len() - i,
    {
        if !blank(all[i].as_str()) {
            proof {
                lemma_first_line_skip(lines, i as int);
                assert(lines.skip(i as int)[0] == all@[i as int]@);
            }
            return Some(&all[i]);
        }
        assert(lines[i as int] == all@[i as int]@);
        i += 1;
    }
    proof {
        lemma_first_line_skip(lines, i as int);
        assert(lines.skip(i as int).len() == 0);
    }
    None
}

/// The session of a transcript.
pub fn chat_session_key(chat: &ChatFile) -> (r: String)
    ensures
        r@ == session_key(chat@),
{
    match &chat.parent {
        Some(name) => {
            if same(name.as_str(), "chats") {
                let all = lines_of(chat.content.as_str());
                if let Some(line) = first_line_of(&all) {
                    if let Some(v) = parse_json(line.as_str()) {
                        if let Some(sid) = v.text_at("sessionId") {
                            return sid.to_string();
                        }
                    }
                }
                chat.path.clone()
            } else {
                name.clone()
            }
        },
        None => chat.path.clone(),
    }
}

fn read_trimmed(all: &Vec<String>) -> (r: Vec<Json>)
    ensures
        trees(r@) == trimmed_documents(texts(all@)),
{
    let mut r: Vec<Json> = Vec::new();
    let ghost lines = texts(all@);
    let mut i: usize = 0;
    proof {
        assert(trees(r@) =~= trimmed_documents(lines.take(0)));
    }
    while i < all.len()
        invariant
            i <= all@.len(),
            lines == texts(all@),
            trees(r@) == trimmed_documents(lines.take(i as int)),
        decreases all@.len() - i,
    {
        let ghost before = r@;
        proof {
            assert(lines.take(i + 1).drop_last() =~= lines.take(i as int));
            assert(lines.take(i + 1).last() == all@[i as int]@);
        }
        if !blank(all[i].as_str()) {
            let line = trim(all[i].as_str());
            if let Some(v) = parse_json(line.as_str()) {
                r.push(v);
                assert(trees(r@) =~= trees(before).push(v@));
            }
        }
        i += 1;
    }
    assert(lines.take(i as int) =~= lines);
    r
}

/// What the rows read so far come to.
struct RowTotals {
    peaks: StrMap<(u64, u64)>,
    seen: StringHashSet,
    output: u64,
    ledger: Ledger,
}

impl RowTotals {
    spec fn holds(&self, rows: Seq<TokenRow>) -> bool {
        &&& self.peaks.wf()
        &&& self.peaks.names() == row_sessions(rows)
        &&& forall|s: Seq<char>| #[trigger]
            self.peaks@.contains_key(s) ==> self.peaks@[s] == (
                peak_input(rows, s),
                peak_cached(rows, s),
            )
        &&& self.seen@ == row_ids(rows)
        &&& self.output == capped(summed_output(turns(rows)) as int)
        &&& self.ledger.wf()
        &&& self.ledger@ == all_turn_records(turns(rows))
    }

    fn new() -> (r: RowTotals)
        ensures
            r.holds(Seq::empty()),
    {
        let r = RowTotals {
            peaks: StrMap::new(),
            seen: StringHashSet::new(),
            output: 0,
            ledger: Ledger::new(),
        };
        proof {
            let none = Seq::<TokenRow>::empty();
            assert(none.map_values(|r: TokenRow| r.session) =~= Seq::empty());
            assert(r.peaks.names() =~= row_sessions(none));
        }
        r
    }

    fn note_peak(&mut self, session: &str, input: u64, cached: u64, Ghost(rows): Ghost<Seq<TokenRow>>, Ghost(row): Ghost<TokenRow>)
        requires
            old(self).holds(rows),
            row.session == session@,
            row.input == input,
            row.cached == cached,
        ensures
            final(self).peaks.wf(),
            final(self).peaks.names() == row_sessions(rows.push(row)),
            forall|s: Seq<char>| #[trigger]
                final(self).peaks@.contains_key(s) ==> final(self).peaks@[s] == (
                    peak_input(rows.push(row), s),
                    peak_cached(rows.push(row), s),
                ),
            final(self).seen == old(self).seen,
            final(self).output == old(self).output,
            final(self).ledger == old(self).ledger,
    {
        proof {
            let all = rows.push(row);
            assert(all.drop_last() =~= rows);
            let sessions = rows.map_values(|r: TokenRow| r.session);
            let more = all.map_values(|r: TokenRow| r.session);
            assert(more.drop_last() =~= sessions);
            self.peaks.lemma_shape();
            if !self.peaks@.contains_key(session@) {
                assert(!row_sessions(rows).contains(session@)) by {
                    if row_sessions(rows).contains(session@) {
                        let i = row_sessions(rows).index_of(session@);
                        assert(self.peaks@.contains_key(self.peaks.names()[i]));
                    }
                }
                lemma_no_rows(rows, session@);
            } else {
                assert(row_sessions(rows).contains(session@));
            }
        }
        match self.peaks.position(session) {
            Some(i) => {
                let known = *self.peaks.value(i);
                let input: u64 = if known.0 >= input { known.0 } else { input };
                let cached: u64 = if known.1 >= cached { known.1 } else { cached };
                *self.peaks.value_mut(i) = (input, cached);
            },
            None => {
                self.peaks.insert(session.to_string(), (input, cached));
            },
        }
    }

    fn add_row(&mut self, v: &Json, session: &str, Ghost(rows): Ghost<Seq<TokenRow>>)
        requires
            old(self).holds(rows),
        ensures
            final(self).holds(
                match token_row(v@, session@) {
                    Some(row) => rows.push(row),
                    None => rows,
                },
            ),
    {
        let turn: bool = match v.text_at("type") {
            Some(kind) => same(kind, "gemini"),
            None => false,
        };
        if !turn {
            return;
        }
        if let Some(t) = v.get("tokens") {
            let input: u64 = t.count_at("input");
            let cached: u64 = t.count_at("cached");
            let output: u64 = t.count_at("output");
            let ghost row = token_row(v@, session@)->0;
            let ghost all = rows.push(row);
            self.note_peak(session, input, cached, Ghost(rows), Ghost(row));
            proof {
                assert(all.drop_last() =~= rows);
            }
            if let Some(id) = v.text_at("id") {
                let ghost known = self.seen@;
                if self.seen.insert(id.to_string()) {
                    let ghost told = self.ledger@;
                    self.output = self.output.saturating_add(output);
                    if let Some(model) = v.text_at("model") {
                        self.ledger.note_tokens(model, 0, output, 0, 0, 0);
                    }
                    if let Some(text) = v.text_at("timestamp") {
                        if let Some(ts) = iso8601_to_unix(text) {
                            self.ledger.note_event(ts, output, Some(session));
                        }
                    }
                    proof {
                        assert(turns(all) == turns(rows).push(row));
                        assert(turns(all).drop_last() =~= turns(rows));
                        assert(self.ledger@ =~= told + turn_records(row));
                    }
                } else {
                    assert(self.seen@ =~= known);
                }
            }
        }
    }

    fn tokens(&self, Ghost(rows): Ghost<Seq<TokenRow>>) -> (r: TokenUsage)
        requires
            self.holds(rows),
        ensures
            r == row_tokens(rows),
    {
        let mut input: u64 = 0;
        let mut cached: u64 = 0;
        let n: usize = self.peaks.len();
        let mut i: usize = 0;
        while i < n
            invariant
                self.holds(rows),
                i <= n,
                n == row_sessions(rows).len(),
                input == capped(summed_input(rows, row_sessions(rows).take(i as int)) as int),
                cached == capped(summed_cached(rows, row_sessions(rows).take(i as int)) as int),
            decreases n - i,
        {
            let ghost names = row_sessions(rows);
            proof {
                self.peaks.lemma_shape();
                assert(self.peaks@.contains_key(self.peaks.names()[i as int]));
                assert(names.take(i + 1).drop_last() =~= names.take(i as int));
            }
            let peak = *self.peaks.value(i);
            input = input.saturating_add(peak.0);
            cached = cached.saturating_add(peak.1);
            i += 1;
        }
        assert(row_sessions(rows).take(n as int) =~= row_sessions(rows));
        let mut usage = TokenUsage {
            input_tokens: input,
            output_tokens: self.output,
            cache_read_tokens: cached,
            cache_creation_tokens: 0,
            total: 0,
        };
        usage.compute_total();
        usage
    }
}

proof fn lemma_no_rows(rows: Seq<TokenRow>, session: Seq<char>)
    requires
        !row_sessions(rows).contains(session),
    ensures
        peak_input(rows, session) == 0,
        peak_cached(rows, session) == 0,
    decreases rows.len(),
{
    let sessions = rows.map_values(|r: TokenRow| r.session);
    law_distinct_keeps_each_once(sessions);
    assert(!sessions.contains(session));
    if rows.len() > 0 {
        let before = rows.drop_last();
        let fewer = before.map_values(|r: TokenRow| r.session);
        law_distinct_keeps_each_once(fewer);
        assert(sessions[rows.len() - 1] == rows.last().session);
        if fewer.contains(session) {
            let i = fewer.index_of(session);
            assert(sessions[i] == session);
        }
        lemma_no_rows(before, session);
    }
}

fn scan_chat(totals: &mut RowTotals, docs: &Vec<Json>, session: &str, Ghost(rows): Ghost<Seq<TokenRow>>)
    requires
        old(totals).holds(rows),
    ensures
        final(totals).holds(rows_after(rows, trees(docs@), session@)),
{
    let ghost all = trees(docs@);
    let mut i: usize = 0;
    while i < docs.len()
        invariant
            i <= docs@.len(),
            all == trees(docs@),
            totals.holds(rows_after(rows, all.take(i as int), session@)),
        decreases docs@.len() - i,
    {
        proof {
            assert(all.take(i + 1).drop_last() =~= all.take(i as int));
            assert(all.take(i + 1).last() == docs@[i as int]@);
        }
        totals.add_row(&docs[i], session, Ghost(rows_after(rows, all.take(i as int), session@)));
        i += 1;
    }
    assert(all.take(i as int) =~= all);
}

/// The tokens, the usage of each model and the events of the turns in some chat transcripts.
///
/// * A turn is written anew at every checkpoint, so that an id counts once.
/// * Output adds up over the turns; it is the only count of a turn by itself.
/// * Input and cached tokens are running totals of a session, so that the largest of each
///   session counts, also where it stands in a row that is no new turn.
/// * Nothing is known of cache writes, and the logged total is not used.
pub fn extract_chat_tokens(chats: &Vec<ChatFile>) -> (r: (
    TokenUsage,
    StrMap<ModelUsage>,
    Vec<(i64, u64, Option<String>)>,
))
    ensures
        r.0 == row_tokens(chat_rows(chat_views(chats@))),
        r.1.wf(),
        r.1@ == models_of(all_turn_records(turns(chat_rows(chat_views(chats@))))),
        day_events(r.2@) == events_of(all_turn_records(turns(chat_rows(chat_views(chats@))))),
{
    let mut totals = RowTotals::new();
    let ghost all = chat_views(chats@);
    let mut i: usize = 0;
    while i < chats.len()
        invariant
            i <= chats@.len(),
            all == chat_views(chats@),
            totals.holds(chat_rows(all.take(i as int))),
        decreases chats@.len() - i,
    {
        proof {
            assert(all.take(i + 1).drop_last() =~= all.take(i as int));
            assert(all.take(i + 1).last() == chats@[i as int]@);
        }
        let session = chat_session_key(&chats[i]);
        let list = lines_of(chats[i].content.as_str());
        let docs = read_trimmed(&list);
        scan_chat(&mut totals, &docs, session.as_str(), Ghost(chat_rows(all.take(i as int))));
        i += 1;
    }
    assert(all.take(i as int) =~= all);
    let tokens = totals.tokens(Ghost(chat_rows(all)));
    let (models, events) = totals.ledger.into_models_and_events();
    (tokens, models, events)
}

/// The entries of a log: a list, or one document a line.
pub open spec fn log_entries(content: Seq<char>) -> Seq<JsonTree> {
    match json_document(content) {
        Some(JsonTree::Array(items)) => items,
        _ => documents(lines(content)),
    }
}

/// The entries of some logs.
pub open spec fn all_entries(contents: Seq<Seq<char>>) -> Seq<JsonTree>
    decreases contents.len(),
{
    if contents.len() == 0 {
        Seq::empty()
    } else {
        all_entries(contents.drop_last()) + log_entries(contents.last())
    }
}

/// When an entry was written: a date, or a number of seconds or milliseconds.
pub open spec fn entry_time(entry: JsonTree) -> Option<i64> {
    match entry.get("timestamp"@) {
        Some(ts) => match ts.text() {
            Some(text) => iso_seconds(text),
            None => match ts.signed() {
                Some(n) => Some(
                    if n > 1_000_000_000_000 {
                        (n / 1000) as i64
                    } else {
                        n
                    },
                ),
                None => ts.truncated(),
            },
        },
        None => None,
    }
}

/// The sessions that some entries name.
pub open spec fn entry_sessions(entries: Seq<JsonTree>) -> Set<Seq<char>>
    decreases entries.len(),
{
    if entries.len() == 0 {
        Set::empty()
    } else {
        match entries.last().text_at("sessionId"@) {
            Some(s) => entry_sessions(entries.drop_last()).insert(s),
            None => entry_sessions(entries.drop_last()),
        }
    }
}

/// The times of some entries.
pub open spec fn entry_times(entries: Seq<JsonTree>) -> Seq<i64>
    decreases entries.len(),
{
    if entries.len() == 0 {
        Seq::empty()
    } else {
        match entry_time(entries.last()) {
            Some(ts) => entry_times(entries.drop_last()).push(ts),
            None => entry_times(entries.drop_last()),
        }
    }
}

/// What counts on the days of some entries. They carry no tokens.
pub open spec fn entry_events(entries: Seq<JsonTree>) -> Seq<DayEvent>
    decreases entries.len(),
{
    if entries.len() == 0 {
        Seq::empty()
    } else {
        match entry_time(entries.last()) {
            Some(ts) => entry_events(entries.drop_last()).push(
                DayEvent { ts, tokens: 0, session: entries.last().text_at("sessionId"@) },
            ),
            None => entry_events(entries.drop_last()),
        }
    }
}

/// What Gemini reports of its logs and chats.
pub open spec fn gemini_report(logs: Seq<Seq<char>>, chats: Seq<ChatView>) -> ProviderReport {
    let blank = ProviderReport::blank("Gemini CLI"@);
    if logs.len() == 0 {
        ProviderReport { sessions: Some(0), invocations: Some(0), ..blank }
    } else {
        let entries = all_entries(logs);
        let rows = chat_rows(chats);
        let models = models_of(all_turn_records(turns(rows)));
        let buckets = buckets_of(
            entry_events(entries) + events_of(all_turn_records(turns(rows))),
        );
        ProviderReport {
            sessions: Some(entry_sessions(entries).len() as u64),
            invocations: Some(capped(entries.len() as int)),
            tokens: if row_tokens(rows).total > 0 {
                Some(row_tokens(rows))
            } else {
                None
            },
            models: if models =~= Map::empty() {
                None
            } else {
                Some(models)
            },
            hours: Some(
                Hours { seconds: active_seconds(sorted_times(entry_times(entries)), 1800) as u128 },
            ),
            first_seen: first_time(entry_times(entries)),
            last_seen: last_time(entry_times(entries)),
            metadata: Some(
                Map::empty().insert(
                    "log_files_scanned"@,
                    MetaTree::Count(logs.len() as u64),
                ),
            ),
            daily_buckets: if buckets =~= Map::empty() {
                None
            } else {
                Some(buckets)
            },
            ..blank
        }
    }
}

/// Whether a row is the first with its id. One without an id is no turn.
pub open spec fn is_new_turn(rows: Seq<TokenRow>, i: int) -> bool {
    rows[i].id is Some && forall|k: int| 0 <= k < i ==> (#[trigger] rows[k]).id != rows[i].id
}

proof fn lemma_row_ids(rows: Seq<TokenRow>, id: Seq<char>)
    ensures
        row_ids(rows).contains(id) <==> exists|k: int|
            0 <= k < rows.len() && (#[trigger] rows[k]).id == Some(id),
    decreases rows.len(),
{
    if rows.len() > 0 {
        let before = rows.drop_last();
        lemma_row_ids(before, id);
        if exists|k: int| 0 <= k < before.len() && (#[trigger] before[k]).id == Some(id) {
            let k = choose|k: int| 0 <= k < before.len() && (#[trigger] before[k]).id == Some(id);
            assert(rows[k].id == Some(id));
        }
        if exists|k: int| 0 <= k < rows.len() && (#[trigger] rows[k]).id == Some(id) {
            let k = choose|k: int| 0 <= k < rows.len() && (#[trigger] rows[k]).id == Some(id);
            if k < before.len() {
                assert(before[k].id == Some(id));
            }
        }
        if rows.last().id == Some(id) {
            assert(rows[rows.len() - 1].id == Some(id));
        }
    }
}

/// The output of each row that is a turn of its own, and of a given model where one is given.
pub open spec fn turn_outputs(rows: Seq<TokenRow>, model: Option<Seq<char>>) -> Seq<nat> {
    Seq::new(
        rows.len(),
        |i: int|
            if is_new_turn(rows, i) && (model is None || rows[i].model == model) {
                rows[i].output as nat
            } else {
                0
            },
    )
}

proof fn lemma_turn_push(rows: Seq<TokenRow>, row: TokenRow)
    ensures
        is_new_turn(rows.push(row), rows.len() as int) <==> row.id is Some && !row_ids(
            rows,
        ).contains(row.id->0),
        forall|i: int|
            0 <= i < rows.len() ==> #[trigger] is_new_turn(rows.push(row), i) == is_new_turn(
                rows,
                i,
            ),
{
    let all = rows.push(row);
    let n = rows.len() as int;
    if let Some(id) = row.id {
        lemma_row_ids(rows, id);
        if row_ids(rows).contains(id) {
            let k = choose|k: int| 0 <= k < rows.len() && (#[trigger] rows[k]).id == Some(id);
            assert(all[k].id == all[n].id);
        } else {
            assert forall|k: int| 0 <= k < n implies (#[trigger] all[k]).id != all[n].id by {
                assert(rows[k] == all[k]);
            }
        }
    }
    assert forall|i: int| 0 <= i < rows.len() implies #[trigger] is_new_turn(all, i)
        == is_new_turn(rows, i) by {
        assert(all[i] == rows[i]);
        assert(forall|k: int| 0 <= k < i ==> (#[trigger] all[k]) == rows[k]);
        assert(forall|k: int| 0 <= k < i ==> (#[trigger] rows[k]) == all[k]);
    }
}

proof fn lemma_outputs(rows: Seq<TokenRow>, model: Seq<char>)
    ensures
        summed_output(turns(rows)) == total(turn_outputs(rows, None)),
        model_sums(all_turn_records(turns(rows)), model) == (TokenSums {
            output: total(turn_outputs(rows, Some(model))),
            ..TokenSums::zero()
        }),
        has_model(all_turn_records(turns(rows)), model) <==> exists|i: int|
            0 <= i < rows.len() && is_new_turn(rows, i) && (#[trigger] rows[i]).model == Some(
                model,
            ),
        total(turn_outputs(rows, Some(model))) <= total(turn_outputs(rows, None)),
    decreases rows.len(),
{
    if rows.len() == 0 {
        assert(turn_outputs(rows, None) =~= Seq::empty());
        assert(turn_outputs(rows, Some(model)) =~= Seq::empty());
        lemma_total_push(Seq::empty(), 0);
        assert(!has_model(all_turn_records(turns(rows)), model));
    } else {
        let before = rows.drop_last();
        let row = rows.last();
        let last = rows.len() - 1;
        assert(rows =~= before.push(row));
        lemma_outputs(before, model);
        lemma_turn_push(before, row);
        let fresh = is_new_turn(rows, last);
        let spent: nat = if fresh {
            row.output as nat
        } else {
            0
        };
        let of_model: nat = if fresh && row.model == Some(model) {
            row.output as nat
        } else {
            0
        };
        assert(turn_outputs(rows, None) =~= turn_outputs(before, None).push(spent));
        assert(turn_outputs(rows, Some(model)) =~= turn_outputs(before, Some(model)).push(of_model));
        lemma_total_push(turn_outputs(before, None), spent);
        lemma_total_push(turn_outputs(before, Some(model)), of_model);
        if fresh {
            let list = turns(before);
            assert(turns(rows) == list.push(row));
            assert(list.push(row).drop_last() =~= list);
            let known = all_turn_records(list);
            let more = turn_records(row);
            lemma_records_join(known, more, model);
            match row.model {
                Some(m) => {
                    lemma_one_tokens(more, 0);
                    if m != model {
                        lemma_no_model_no_sums(more, model);
                    }
                },
                None => {
                    lemma_no_tokens(more);
                },
            }
        }
        if exists|i: int|
            0 <= i < before.len() && is_new_turn(before, i) && (#[trigger] before[i]).model
                == Some(model) {
            let i = choose|i: int|
                0 <= i < before.len() && is_new_turn(before, i) && (#[trigger] before[i]).model
                    == Some(model);
            assert(is_new_turn(rows, i) && rows[i].model == Some(model));
        }
        if exists|i: int|
            0 <= i < rows.len() && is_new_turn(rows, i) && (#[trigger] rows[i]).model == Some(
                model,
            ) {
            let i = choose|i: int|
                0 <= i < rows.len() && is_new_turn(rows, i) && (#[trigger] rows[i]).model == Some(
                    model,
                );
            if i < before.len() {
                assert(is_new_turn(before, i) && before[i].model == Some(model));
            }
        }
        if fresh && row.model == Some(model) {
            assert(is_new_turn(rows, last) && rows[last].model == Some(model));
        }
    }
}

proof fn lemma_peaks_total(rows: Seq<TokenRow>, sessions: Seq<Seq<char>>)
    ensures
        summed_input(rows, sessions) == total(
            sessions.map_values(|s: Seq<char>| peak_input(rows, s) as nat),
        ),
        summed_cached(rows, sessions) == total(
            sessions.map_values(|s: Seq<char>| peak_cached(rows, s) as nat),
        ),
    decreases sessions.len(),
{
    let a = sessions.map_values(|s: Seq<char>| peak_input(rows, s) as nat);
    let b = sessions.map_values(|s: Seq<char>| peak_cached(rows, s) as nat);
    if sessions.len() == 0 {
        assert(a =~= Seq::empty());
        assert(b =~= Seq::empty());
        lemma_total_push(Seq::empty(), 0);
    } else {
        let fewer = sessions.drop_last();
        lemma_peaks_total(rows, fewer);
        let x = fewer.map_values(|s: Seq<char>| peak_input(rows, s) as nat);
        let y = fewer.map_values(|s: Seq<char>| peak_cached(rows, s) as nat);
        assert(a =~= x.push(peak_input(rows, sessions.last()) as nat));
        assert(b =~= y.push(peak_cached(rows, sessions.last()) as nat));
        lemma_total_push(x, peak_input(rows, sessions.last()) as nat);
        lemma_total_push(y, peak_cached(rows, sessions.last()) as nat);
    }
}

proof fn lemma_total_holds(counts: Seq<nat>, i: int)
    requires
        0 <= i < counts.len(),
    ensures
        total(counts) >= counts[i],
    decreases counts.len(),
{
    let before = counts.drop_last();
    assert(counts =~= before.push(counts.last()));
    lemma_total_push(before, counts.last());
    if i < before.len() {
        assert(before[i] == counts[i]);
        lemma_total_holds(before, i);
    }
}

/// Tokens are reported wherever they were counted: with any log at all, a row of a chat that shows
/// input or cached tokens, or a turn that shows output, puts tokens in the report. These are the
/// output of all turns, and of each session the largest input and the largest number of cached
/// tokens that a row of it shows. Every session counts once.
pub proof fn law_tokens_are_reported(logs: Seq<Seq<char>>, chats: Seq<ChatView>, session: Seq<char>)
    requires
        logs.len() > 0,
    ensures
        ({
            let rows = chat_rows(chats);
            let sessions = row_sessions(rows);
            let sums = TokenSums {
                input: total(sessions.map_values(|s: Seq<char>| peak_input(rows, s) as nat)),
                output: total(turn_outputs(rows, None)),
                cache_read: total(sessions.map_values(|s: Seq<char>| peak_cached(rows, s) as nat)),
                cache_creation: 0,
            };
            let report = gemini_report(logs, chats);
            &&& sums.input + sums.output + sums.cache_read > 0 ==> report.tokens == Some(
                sums.usage(),
            )
            &&& sums.input + sums.output + sums.cache_read == 0 ==> report.tokens is None
            &&& forall|i: int|
                0 <= i < rows.len() && ((#[trigger] rows[i]).input > 0 || rows[i].cached > 0 || (
                is_new_turn(rows, i) && rows[i].output > 0)) ==> report.tokens is Some
            &&& sessions.no_duplicates()
            &&& sessions.contains(session) <==> exists|i: int|
                0 <= i < rows.len() && (#[trigger] rows[i]).session == session
        }),
{
    let rows = chat_rows(chats);
    let sessions = row_sessions(rows);
    let names = rows.map_values(|r: TokenRow| r.session);
    law_distinct_keeps_each_once(names);
    lemma_outputs(rows, session);
    lemma_peaks_total(rows, sessions);
    if names.contains(session) {
        let i = names.index_of(session);
        assert(rows[i].session == session);
    }
    if exists|i: int| 0 <= i < rows.len() && (#[trigger] rows[i]).session == session {
        let i = choose|i: int| 0 <= i < rows.len() && (#[trigger] rows[i]).session == session;
        assert(names[i] == session);
    }
    assert forall|i: int|
        0 <= i < rows.len() && ((#[trigger] rows[i]).input > 0 || rows[i].cached > 0 || (
        is_new_turn(rows, i) && rows[i].output > 0)) implies gemini_report(
        logs,
        chats,
    ).tokens is Some by {
        let s = rows[i].session;
        assert(names[i] == s);
        assert(sessions.contains(s));
        let k = sessions.index_of(s);
        law_peak_is_largest(rows, s);
        let a = sessions.map_values(|s: Seq<char>| peak_input(rows, s) as nat);
        let b = sessions.map_values(|s: Seq<char>| peak_cached(rows, s) as nat);
        lemma_total_holds(a, k);
        lemma_total_holds(b, k);
        lemma_total_holds(turn_outputs(rows, None), i);
    }
}

/// A model is reported exactly if a turn names it, with the output of all turns that do. Where it has
/// any, the report has tokens, and at least that output.
pub proof fn law_models_have_their_output(
    logs: Seq<Seq<char>>,
    chats: Seq<ChatView>,
    model: Seq<char>,
)
    requires
        logs.len() > 0,
    ensures
        ({
            let rows = chat_rows(chats);
            let report = gemini_report(logs, chats);
            let output = total(turn_outputs(rows, Some(model)));
            &&& used(report, model) is Some <==> exists|i: int|
                0 <= i < rows.len() && is_new_turn(rows, i) && (#[trigger] rows[i]).model == Some(
                    model,
                )
            &&& used(report, model) is Some ==> used(report, model) == Some(
                TokenSums { input: 0, output, cache_read: 0, cache_creation: 0 }.usage(),
            )
            &&& used(report, model) is Some && used(report, model)->0.output_tokens > 0
                ==> report.tokens is Some && report.tokens->0.output_tokens >= used(
                report,
                model,
            )->0.output_tokens
        }),
{
    let rows = chat_rows(chats);
    lemma_outputs(rows, model);
    law_tokens_are_reported(logs, chats, model);
    let models = models_of(all_turn_records(turns(rows)));
    if has_model(all_turn_records(turns(rows)), model) {
        assert(models.contains_key(model));
    }
}

/// One more line of a transcript that is Gemini's and counts tokens is one more row, with the counts
/// it shows and the session of its transcript. Any other line is none.
pub proof fn law_line_is_a_row(
    chats: Seq<ChatView>,
    chat: ChatView,
    longer: ChatView,
    line: Seq<char>,
    v: JsonTree,
)
    requires
        lines(longer.content) == lines(chat.content).push(line),
        session_key(longer) == session_key(chat),
        json_document(trimmed(line)) == Some(v),
        !is_blank(line),
    ensures
        ({
            let before = chat_rows(chats.push(chat));
            let after = chat_rows(chats.push(longer));
            &&& v.text_at("type"@) == Some("gemini"@) && v.get("tokens"@) is Some ==> {
                let t = v.get("tokens"@)->0;
                let row = after[before.len() as int];
                &&& after == before.push(row)
                &&& row.session == session_key(chat)
                &&& row.input == t.count_at("input"@)
                &&& row.cached == t.count_at("cached"@)
                &&& row.output == t.count_at("output"@)
                &&& row.id == v.text_at("id"@)
                &&& row.model == v.text_at("model"@)
                &&& row.time == match v.text_at("timestamp"@) {
                    Some(text) => iso_seconds(text),
                    None => None,
                }
            }
            &&& v.text_at("type"@) != Some("gemini"@) || v.get("tokens"@) is None ==> after
                == before
        }),
{
    assert(chats.push(longer).drop_last() =~= chats);
    assert(chats.push(chat).drop_last() =~= chats);
    let all = lines(chat.content);
    assert(all.push(line).drop_last() =~= all);
    let docs = trimmed_documents(all);
    assert(trimmed_documents(all.push(line)) == docs.push(v));
    assert(docs.push(v).drop_last() =~= docs);
    let before = chat_rows(chats.push(chat));
    let after = chat_rows(chats.push(longer));
    if v.text_at("type"@) == Some("gemini"@) && v.get("tokens"@) is Some {
        assert(after =~= before.push(after[before.len() as int]));
    }
}

/// Transcripts are read one after the other: one more leaves the rows of the others as they are. One
/// without lines has none.
pub proof fn law_transcripts_are_read_in_order(chats: Seq<ChatView>, chat: ChatView)
    ensures
        chat_rows(chats.push(chat)) == chat_rows(chats) + chat_rows(seq![chat]),
        lines(chat.content).len() == 0 ==> chat_rows(seq![chat]).len() == 0,
        chat_rows(Seq::empty()).len() == 0,
{
    assert(chats.push(chat).drop_last() =~= chats);
    assert(seq![chat].drop_last() =~= Seq::empty());
    assert(chat_rows(Seq::empty()) =~= Seq::empty());
    lemma_rows_after(
        chat_rows(chats),
        trimmed_documents(lines(chat.content)),
        session_key(chat),
    );
}

proof fn lemma_rows_after(rows: Seq<TokenRow>, docs: Seq<JsonTree>, session: Seq<char>)
    ensures
        rows_after(rows, docs, session) == rows + rows_after(Seq::empty(), docs, session),
    decreases docs.len(),
{
    if docs.len() > 0 {
        lemma_rows_after(rows, docs.drop_last(), session);
    }
    assert(rows_after(rows, docs, session) =~= rows + rows_after(Seq::empty(), docs, session));
}

/// The session of a transcript is the directory that it stands in; right under `chats` it is the one
/// that the first line names, if that line is JSON and names one, and else the path.
pub proof fn law_session_of_a_transcript(chat: ChatView, i: int)
    requires
        0 <= i < lines(chat.content).len(),
        !is_blank(lines(chat.content)[i]),
        forall|k: int| 0 <= k < i ==> is_blank(#[trigger] lines(chat.content)[k]),
    ensures
        chat.parent is None ==> session_key(chat) == chat.path,
        chat.parent is Some && chat.parent != Some("chats"@) ==> session_key(chat)
            == chat.parent->0,
        chat.parent == Some("chats"@) ==> session_key(chat) == match json_document(
            lines(chat.content)[i],
        ) {
            Some(v) => match v.text_at("sessionId"@) {
                Some(s) => s,
                None => chat.path,
            },
            None => chat.path,
        },
{
    let all = lines(chat.content);
    lemma_first_line_skip(all, i);
    assert(all.skip(i)[0] == all[i]);
}

/// A line that is blank or no JSON is no row, and a transcript right under `chats` without any line that
/// is not blank goes by its path.
pub proof fn law_damaged_line_is_no_row(
    chats: Seq<ChatView>,
    chat: ChatView,
    longer: ChatView,
    line: Seq<char>,
)
    ensures
        lines(longer.content) == lines(chat.content).push(line) && session_key(longer)
            == session_key(chat) && (is_blank(line) || json_document(trimmed(line)) is None)
            ==> chat_rows(chats.push(longer)) == chat_rows(chats.push(chat)),
        chat.parent == Some("chats"@) && (forall|k: int|
            0 <= k < lines(chat.content).len() ==> is_blank(#[trigger] lines(chat.content)[k]))
            ==> session_key(chat) == chat.path,
{
    assert(chats.push(longer).drop_last() =~= chats);
    assert(chats.push(chat).drop_last() =~= chats);
    let all = lines(chat.content);
    assert(all.push(line).drop_last() =~= all);
    if forall|k: int| 0 <= k < all.len() ==> is_blank(#[trigger] all[k]) {
        lemma_first_line_skip(all, all.len() as int);
        assert(all.skip(all.len() as int).len() == 0);
    }
}

/// A turn tells its output by model and by day: of the session and at the time of its row.
pub proof fn law_turn_counts_on_its_day(rows: Seq<TokenRow>, row: TokenRow)
    ensures
        ({
            let before = events_of(all_turn_records(turns(rows)));
            let after = events_of(all_turn_records(turns(rows.push(row))));
            let fresh = is_new_turn(rows.push(row), rows.len() as int);
            &&& fresh && row.time is Some ==> after == before.push(
                DayEvent { ts: row.time->0, tokens: row.output, session: Some(row.session) },
            )
            &&& !fresh || row.time is None ==> after == before
        }),
{
    assert(rows.push(row).drop_last() =~= rows);
    lemma_turn_push(rows, row);
    let list = turns(rows);
    assert(list.push(row).drop_last() =~= list);
    let more = turn_records(row);
    lemma_records_join(all_turn_records(list), more, row.session);
    reveal_with_fuel(events_of, 3);
    if is_new_turn(rows.push(row), rows.len() as int) {
        let told = match row.time {
            Some(ts) => seq![DayEvent { ts, tokens: row.output, session: Some(row.session) }],
            None => Seq::empty(),
        };
        assert(events_of(more) =~= told);
        let before = events_of(all_turn_records(list));
        if row.time is Some {
            assert(before + told =~= before.push(told[0]));
        } else {
            assert(before + told =~= before);
        }
    }
}

proof fn lemma_entry_sessions(entries: Seq<JsonTree>)
    ensures
        entry_sessions(entries).finite(),
        entry_sessions(entries) == Set::new(
            |s: Seq<char>|
                exists|i: int|
                    0 <= i < entries.len() && (#[trigger] entries[i]).text_at("sessionId"@) == Some(
                        s,
                    ),
        ),
    decreases entries.len(),
{
    let named = Set::new(
        |s: Seq<char>|
            exists|i: int|
                0 <= i < entries.len() && (#[trigger] entries[i]).text_at("sessionId"@) == Some(s),
    );
    if entries.len() > 0 {
        let before = entries.drop_last();
        lemma_entry_sessions(before);
        assert forall|s: Seq<char>| entry_sessions(entries).contains(s) <==> named.contains(s) by {
            if entry_sessions(before).contains(s) {
                let i = choose|i: int|
                    0 <= i < before.len() && (#[trigger] before[i]).text_at("sessionId"@) == Some(
                        s,
                    );
                assert(entries[i].text_at("sessionId"@) == Some(s));
            }
            if named.contains(s) {
                let i = choose|i: int|
                    0 <= i < entries.len() && (#[trigger] entries[i]).text_at("sessionId"@) == Some(
                        s,
                    );
                if i < before.len() {
                    assert(before[i].text_at("sessionId"@) == Some(s));
                }
            }
            if entries.last().text_at("sessionId"@) == Some(s) {
                assert(entries[entries.len() - 1].text_at("sessionId"@) == Some(s));
            }
        }
    }
    assert(entry_sessions(entries) =~= named);
}

/// Every entry of the logs is a message and counts; sessions are the distinct ones that entries name;
/// the times of the entries give the hours, with breaks of up to half an hour, and the first and the
/// last time. The days are those of the entries and of the turns together.
pub proof fn law_entries_are_reported(logs: Seq<Seq<char>>, chats: Seq<ChatView>, date: Seq<char>)
    requires
        logs.len() > 0,
    ensures
        ({
            let entries = all_entries(logs);
            let report = gemini_report(logs, chats);
            let times = entry_times(entries);
            let events = entry_events(entries) + events_of(
                all_turn_records(turns(chat_rows(chats))),
            );
            let sessions = Set::new(
                |s: Seq<char>|
                    exists|i: int|
                        0 <= i < entries.len() && (#[trigger] entries[i]).text_at("sessionId"@)
                            == Some(s),
            );
            &&& report.provider == "Gemini CLI"@
            &&& entries.len() <= u64::MAX ==> report.invocations == Some(entries.len() as u64)
            &&& sessions.len() <= u64::MAX ==> report.sessions == Some(sessions.len() as u64)
            &&& report.hours == Some(Hours { seconds: half_hour_activity(times) as u128 })
            &&& report.first_seen == first_time(times)
            &&& report.last_seen == last_time(times)
            &&& buckets_of(events).contains_key(date) ==> report.daily_buckets == Some(
                buckets_of(events),
            )
            &&& report.daily_buckets is Some ==> report.daily_buckets == Some(buckets_of(events))
            &&& !report.tokens_estimated && report.visits is None
            &&& logs.len() <= u64::MAX ==> report.metadata is Some
                && report.metadata->0.contains_key("log_files_scanned"@)
                && report.metadata->0["log_files_scanned"@] == MetaTree::Count(logs.len() as u64)
        }),
{
    let entries = all_entries(logs);
    lemma_entry_sessions(entries);
    lemma_half_hour(entry_times(entries));
}

/// One more entry adds its time, and counts on its day for its session, if it has a time: a date, or
/// a number of seconds, or of milliseconds where it is past 10^12.
pub proof fn law_entry_tells_its_time(entries: Seq<JsonTree>, entry: JsonTree, time: Option<i64>)
    requires
        time == match entry.get("timestamp"@) {
            Some(JsonTree::Text(text)) => iso_seconds(text),
            Some(JsonTree::Number(n)) => match n.signed {
                Some(x) => if x > 1_000_000_000_000 {
                    Some((x / 1000) as i64)
                } else {
                    Some(x)
                },
                None => n.truncated,
            },
            _ => None,
        },
    ensures
        time matches Some(ts) ==> entry_times(entries.push(entry)) == entry_times(entries).push(ts)
            && entry_events(entries.push(entry)) == entry_events(entries).push(
            DayEvent { ts, tokens: 0, session: entry.text_at("sessionId"@) },
        ),
        time is None ==> entry_times(entries.push(entry)) == entry_times(entries) && entry_events(
            entries.push(entry),
        ) == entry_events(entries),
{
    assert(entries.push(entry).drop_last() =~= entries);
}

/// Logs are read one after the other. A log that is a list has the items of the list as entries, and
/// any other has the documents in its lines.
pub proof fn law_logs_are_read_in_order(logs: Seq<Seq<char>>, log: Seq<char>)
    ensures
        all_entries(logs.push(log)) == all_entries(logs) + match json_document(log) {
            Some(JsonTree::Array(items)) => items,
            _ => documents(lines(log)),
        },
        all_entries(Seq::empty()).len() == 0,
{
    assert(logs.push(log).drop_last() =~= logs);
}

/// Without any log nothing is counted, whatever the chats.
pub proof fn law_no_logs_no_report(chats: Seq<ChatView>)
    ensures
        ({
            let report = gemini_report(Seq::empty(), chats);
            &&& report.sessions == Some(0u64) && report.invocations == Some(0u64)
            &&& report.tokens is None && report.models is None && report.hours is None
            &&& report.first_seen is None && report.daily_buckets is None
        }),
{
}

/// What the entries read so far come to.
struct EntryTotals {
    sessions: StringHashSet,
    messages: u64,
    times: Vec<i64>,
    events: Vec<(i64, u64, Option<String>)>,
}

impl EntryTotals {
    spec fn holds(&self, entries: Seq<JsonTree>) -> bool {
        &&& self.sessions@ == entry_sessions(entries)
        &&& self.messages == capped(entries.len() as int)
        &&& self.times@ == entry_times(entries)
        &&& day_events(self.events@) == entry_events(entries)
    }

    fn add_entry(&mut self, entry: &Json, Ghost(entries): Ghost<Seq<JsonTree>>)
        requires
            old(self).holds(entries),
        ensures
            final(self).holds(entries.push(entry@)),
    {
        let ghost known = day_events(self.events@);
        proof {
            assert(entries.push(entry@).drop_last() =~= entries);
        }
        let session: Option<String> = match entry.text_at("sessionId") {
            Some(s) => {
                self.sessions.insert(s.to_string());
                Some(s.to_string())
            },
            None => None,
        };
        self.messages = self.messages.saturating_add(1);
        if let Some(ts) = time_of_entry(entry) {
            self.times.push(ts);
            self.events.push((ts, 0, session));
            assert(day_events(self.events@) =~= known.push(
                DayEvent { ts, tokens: 0, session: entry@.text_at("sessionId"@) },
            ));
        }
    }

    fn add_entries(&mut self, list: &Vec<Json>, Ghost(entries): Ghost<Seq<JsonTree>>)
        requires
            old(self).holds(entries),
        ensures
            final(self).holds(entries + trees(list@)),
    {
        let ghost all = trees(list@);
        let mut i: usize = 0;
        proof {
            assert(entries + all.take(0) =~= entries);
        }
        while i < list.len()
            invariant
                i <= list@.len(),
                all == trees(list@),
                self.holds(entries + all.take(i as int)),
            decreases list@.len() - i,
        {
            proof {
                assert(entries + all.take(i + 1) =~= (entries + all.take(i as int)).push(
                    list@[i as int]@,
                ));
            }
            self.add_entry(&list[i], Ghost(entries + all.take(i as int)));
            i += 1;
        }
        assert(all.take(i as int) =~= all);
    }
}

fn time_of_entry(entry: &Json) -> (r: Option<i64>)
    ensures
        r == entry_time(entry@),
{
    match entry.get("timestamp") {
        Some(ts) => match ts.as_str() {
            Some(text) => iso8601_to_unix(text),
            None => match ts.as_i64() {
                Some(n) => Some(
                    if n > 1_000_000_000_000 {
                        n / 1000
                    } else {
                        n
                    },
                ),
                None => ts.as_truncated(),
            },
        },
        None => None,
    }
}

fn scan_log(totals: &mut EntryTotals, content: &str, Ghost(entries): Ghost<Seq<JsonTree>>)
    requires
        old(totals).holds(entries),
    ensures
        final(totals).holds(entries + log_entries(content@)),
{
    let document = parse_json(content);
    if let Some(v) = &document {
        if let Some(items) = v.as_array() {
            totals.add_entries(items, Ghost(entries));
            return;
        }
    }
    let list = lines_of(content);
    let docs = read_documents(&list);
    totals.add_entries(&docs, Ghost(entries));
}

fn append_events(
    events: &mut Vec<(i64, u64, Option<String>)>,
    more: Vec<(i64, u64, Option<String>)>,
)
    ensures
        day_events(final(events)@) == day_events(old(events)@) + day_events(more@),
{
    let mut more = more;
    let ghost first = events@;
    let ghost second = more@;
    events.append(&mut more);
    assert(events@ =~= first + second);
    assert(day_events(events@) =~= day_events(first) + day_events(second));
}

impl GeminiProvider {
    /// Usage from the logs and the chat transcripts. `found` tells whether the directory of
    /// temporary files is there at all.
    pub fn scan(&self, found: bool, logs: &Vec<String>, chats: &Vec<ChatFile>) -> (r: Result<
        ProviderResult,
        ScanError,
    >)
        ensures
            match r {
                Ok(result) => found && result.wf() && result@ == gemini_report(
                    texts(logs@),
                    chat_views(chats@),
                ),
                Err(error) => !found && error.is_not_found("Gemini tmp directory not found"@),
            },
    {
        if !found {
            return Err(ScanError::NotFound("Gemini tmp directory not found".to_string()));
        }
        let mut result = ProviderResult::new("Gemini CLI");
        if logs.len() == 0 {
            result.sessions = Some(0);
            result.invocations = Some(0);
            return Ok(result);
        }
        let mut totals = EntryTotals {
            sessions: StringHashSet::new(),
            messages: 0,
            times: Vec::new(),
            events: Vec::new(),
        };
        let ghost all = texts(logs@);
        proof {
            assert(day_events(totals.events@) =~= entry_events(Seq::empty()));
        }
        let mut i: usize = 0;
        while i < logs.len()
            invariant
                i <= logs@.len(),
                all == texts(logs@),
                totals.holds(all_entries(all.take(i as int))),
            decreases logs@.len() - i,
        {
            proof {
                assert(all.take(i + 1).drop_last() =~= all.take(i as int));
                assert(all.take(i + 1).last() == logs@[i as int]@);
            }
            scan_log(&mut totals, logs[i].as_str(), Ghost(all_entries(all.take(i as int))));
            i += 1;
        }
        assert(all.take(i as int) =~= all);
        let (tokens, models, token_events) = extract_chat_tokens(chats);
        append_events(&mut totals.events, token_events);
        let (hours, first_seen, last_seen) = time_range(totals.times.as_slice());
        let mut metadata: StrMap<MetaValue> = StrMap::new();
        metadata.insert("log_files_scanned".to_string(), MetaValue::Count(logs.len() as u64));
        result.sessions = Some(totals.sessions.len() as u64);
        result.invocations = Some(totals.messages);
        if tokens.total > 0 {
            result.tokens = Some(tokens);
        }
        if !models.is_empty() {
            result.models = Some(models);
        }
        result.hours = Some(hours);
        result.first_seen = first_seen;
        result.last_seen = last_seen;
        result.metadata = Some(metadata);
        let buckets = build_daily_buckets(totals.events.as_slice());
        if !buckets.is_empty() {
            result.daily_buckets = Some(buckets);
        }
        proof {
            assert(result@.metadata->0 =~= gemini_report(all, chat_views(chats@)).metadata->0);
        }
        Ok(result)
    }
}

} // verus!
