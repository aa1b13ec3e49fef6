//! Browsers: visits to AI web apps in their history.

use crate::browser_data_audit::{select_view, LocalSources};
use crate::browser_transcripts::{
    any_estimated, domain_result, enrich_domain_entry, enriched, estimated_usage,
    law_entry_adds_its_estimate, law_other_members_stay, meta_trees, rolled_up, rollup,
    rollup_domain_estimates,
};
use crate::collections::StrMap;
use crate::names::{agent_name, agent_name_text, agent_word, agent_word_text};
use crate::text::{
    distinct, has_part, join, joined, law_distinct_keeps_each_once, stands_at, texts,
};
use crate::time_util::{
    active_hours_from_timestamps, active_seconds, build_daily_buckets, buckets_of,
    chrome_time_to_unix, cut_div, day_events, firefox_time_to_unix, first_time,
    half_hour_activity, last_time, lemma_half_hour, sort_times, sorted_times, time_range, DayEvent,
};
use crate::types::{
    lemma_total_push, total, Hours, MetaTree, MetaValue, ProviderReport, ProviderResult,
    RecordBuilder, ScanError, TokenSums, TokenUsage,
};
use vstd::prelude::*;

verus! {

pub struct ChromeProvider;

pub struct ArcProvider;

pub struct BraveProvider;

pub struct EdgeProvider;

pub struct DiaProvider;

pub struct SafariProvider;

pub struct FirefoxProvider;

/// The AI web apps: what an address of theirs holds, and their name.
pub open spec fn ai_domains() -> Seq<(Seq<char>, Seq<char>)> {
    seq![
        (agent_word() + ".ai"@, agent_name() + ".ai"@),
        ("chatgpt.com"@, "ChatGPT"@),
        ("chat.openai.com"@, "ChatGPT"@),
        ("gemini.google.com"@, "Gemini"@),
        ("perplexity.ai"@, "Perplexity"@),
        ("poe.com"@, "Poe"@),
        ("phind.com"@, "Phind"@),
        ("copilot.microsoft.com"@, "Copilot"@),
        ("deepseek.com"@, "DeepSeek"@),
        ("groq.com"@, "Groq"@),
        ("huggingface.co/chat"@, "HuggingFace"@),
        ("aistudio.google.com"@, "AI Studio"@),
        ("you.com"@, "You.com"@),
        ("labs.google"@, "Google Labs"@),
        ("notebooklm.google.com"@, "NotebookLM"@),
        ("x.com/i/grok"@, "Grok"@),
        ("grok.com"@, "Grok"@),
        ("lovable.dev"@, "Lovable"@),
        ("together.ai"@, "Together AI"@),
    ]
}

/// What some pairs of strings say.
pub open spec fn pair_texts(pairs: Seq<(String, String)>) -> Seq<(Seq<char>, Seq<char>)> {
    pairs.map_values(|p: (String, String)| (p.0@, p.1@))
}

/// A pair of strings.
pub(crate) fn pair(a: &str, b: &str) -> (r: (String, String))
    ensures
        r.0@ == a@,
        r.1@ == b@,
{
    (a.to_string(), b.to_string())
}

/// The AI web apps: what an address of theirs holds, and their name.
pub fn domain_table() -> (r: Vec<(String, String)>)
    ensures
        pair_texts(r@) == ai_domains(),
{
    let r: Vec<(String, String)> = vec![
        (agent_word_text().concat(".ai"), agent_name_text().concat(".ai")),
        pair("chatgpt.com", "ChatGPT"),
        pair("chat.openai.com", "ChatGPT"),
        pair("gemini.google.com", "Gemini"),
        pair("perplexity.ai", "Perplexity"),
        pair("poe.com", "Poe"),
        pair("phind.com", "Phind"),
        pair("copilot.microsoft.com", "Copilot"),
        pair("deepseek.com", "DeepSeek"),
        pair("groq.com", "Groq"),
        pair("huggingface.co/chat", "HuggingFace"),
        pair("aistudio.google.com", "AI Studio"),
        pair("you.com", "You.com"),
        pair("labs.google", "Google Labs"),
        pair("notebooklm.google.com", "NotebookLM"),
        pair("x.com/i/grok", "Grok"),
        pair("grok.com", "Grok"),
        pair("lovable.dev", "Lovable"),
        pair("together.ai", "Together AI"),
    ];
    assert(pair_texts(r@) =~= ai_domains());
    r
}

/// The case of an SQL expression that gives the name of an app for its addresses.
pub open spec fn domain_case(column: Seq<char>, domain: (Seq<char>, Seq<char>)) -> Seq<char> {
    "WHEN "@ + column + " LIKE '%"@ + domain.0 + "%' THEN '"@ + domain.1 + "'"@
}

/// The SQL condition that holds for the addresses of an app.
pub open spec fn domain_condition(column: Seq<char>, domain: (Seq<char>, Seq<char>)) -> Seq<char> {
    column + " LIKE '%"@ + domain.0 + "%'"@
}

/// The SQL expression that gives the name of the app of an address. It stands in place of the
/// address, which may hold secrets and is never read out.
pub open spec fn case_expr(column: Seq<char>) -> Seq<char> {
    "CASE "@ + joined(
        ai_domains().map_values(|d: (Seq<char>, Seq<char>)| domain_case(column, d)),
        " "@,
    ) + " END"@
}

/// The SQL condition that holds for the addresses of all apps.
pub open spec fn like_conditions(column: Seq<char>) -> Seq<char> {
    joined(
        ai_domains().map_values(|d: (Seq<char>, Seq<char>)| domain_condition(column, d)),
        " OR "@,
    )
}

/// The SQL expression that gives the name of the app of an address.
pub fn domain_case_expr(url_col: &str) -> (r: String)
    ensures
        r@ == case_expr(url_col@),
{
    let table = domain_table();
    let ghost all = ai_domains();
    let ghost goal = all.map_values(|d: (Seq<char>, Seq<char>)| domain_case(url_col@, d));
    let mut cases: Vec<String> = Vec::new();
    let mut i: usize = 0;
    while i < table.len()
        invariant
            i <= table@.len(),
            pair_texts(table@) == all,
            goal == all.map_values(|d: (Seq<char>, Seq<char>)| domain_case(url_col@, d)),
            cases@.len() == i,
            forall|k: int| 0 <= k < i ==> (#[trigger] cases@[k])@ == goal[k],
        decreases table@.len() - i,
    {
        let domain = table[i].0.as_str();
        let name = table[i].1.as_str();
        assert(all[i as int] == (domain@, name@));
        let mut text = "WHEN ".to_string();
        text.append(url_col);
        text.append(" LIKE '%");
        text.append(domain);
        text.append("%' THEN '");
        text.append(name);
        text.append("'");
        cases.push(text);
        i += 1;
    }
    assert(texts(cases@) =~= goal);
    let list = join(&cases, " ");
    "CASE ".to_string().concat(list.as_str()).concat(" END")
}

/// The SQL condition that holds for the addresses of all apps.
pub fn domain_like_conditions(url_col: &str) -> (r: String)
    ensures
        r@ == like_conditions(url_col@),
{
    let table = domain_table();
    let ghost all = ai_domains();
    let ghost goal = all.map_values(|d: (Seq<char>, Seq<char>)| domain_condition(url_col@, d));
    let mut conditions: Vec<String> = Vec::new();
    let mut i: usize = 0;
    while i < table.len()
        invariant
            i <= table@.len(),
            pair_texts(table@) == all,
            goal == all.map_values(|d: (Seq<char>, Seq<char>)| domain_condition(url_col@, d)),
            conditions@.len() == i,
            forall|k: int| 0 <= k < i ==> (#[trigger] conditions@[k])@ == goal[k],
        decreases table@.len() - i,
    {
        let domain = table[i].0.as_str();
        assert(all[i as int].0 == domain@);
        let mut text = url_col.to_string();
        text.append(" LIKE '%");
        text.append(domain);
        text.append("%'");
        conditions.push(text);
        i += 1;
    }
    assert(texts(conditions@) =~= goal);
    join(&conditions, " OR ")
}

/// An SQL query for visits to AI web apps: the name of the app and the columns that follow, without
/// addresses of programs and of logins.
pub open spec fn visits_query(
    column: Seq<char>,
    columns: Seq<char>,
    tables: Seq<char>,
    order: Seq<char>,
) -> Seq<char> {
    "SELECT "@ + case_expr(column) + ", "@ + columns + " FROM "@ + tables + " WHERE ("@
        + like_conditions(column) + ") AND "@ + column + " NOT LIKE '%/api/%' AND "@ + column
        + " NOT LIKE '%/auth/%' AND "@ + column + " NOT LIKE '%/callback%' AND "@ + column
        + " NOT LIKE '%/oauth%' ORDER BY "@ + order
}

proof fn lemma_part_of_part(a: Seq<char>, part: Seq<char>, b: Seq<char>, inner: Seq<char>)
    requires
        has_part(part, inner),
    ensures
        has_part(a + part + b, inner),
{
    let i = choose|i: int| stands_at(part, inner, i);
    let all = a + part + b;
    assert(all.subrange(a.len() + i, a.len() + i + inner.len()) =~= inner) by {
        assert(part.subrange(i, i + inner.len()) == inner);
        assert forall|k: int| 0 <= k < inner.len() implies all[a.len() + i + k] == inner[k] by {
            assert(part.subrange(i, i + inner.len())[k] == part[i + k]);
        }
    }
    assert(stands_at(all, inner, a.len() + i));
}

proof fn lemma_whole_part(part: Seq<char>)
    ensures
        has_part(part, part),
{
    assert(part.subrange(0, part.len() as int) =~= part);
    assert(stands_at(part, part, 0));
}

proof fn lemma_joined_part(list: Seq<Seq<char>>, separator: Seq<char>, i: int)
    requires
        0 <= i < list.len(),
    ensures
        has_part(joined(list, separator), list[i]),
    decreases list.len(),
{
    lemma_whole_part(list[i]);
    if list.len() > 1 {
        let before = list.drop_last();
        let start = joined(before, separator);
        if i < before.len() {
            assert(before[i] == list[i]);
            lemma_joined_part(before, separator, i);
            let nothing = Seq::<char>::empty();
            lemma_part_of_part(nothing, start, separator + list.last(), list[i]);
            assert(nothing + start + (separator + list.last()) =~= start + separator + list.last());
        } else {
            let nothing = Seq::<char>::empty();
            lemma_part_of_part(start + separator, list[i], nothing, list[i]);
            assert(start + separator + list[i] + nothing =~= start + separator + list.last());
        }
    }
}

/// A query asks for every app by its address, and names it without reading the address out.
pub proof fn law_query_asks_for_every_app(
    column: Seq<char>,
    columns: Seq<char>,
    tables: Seq<char>,
    order: Seq<char>,
    i: int,
)
    requires
        0 <= i < ai_domains().len(),
    ensures
        ({
            let query = visits_query(column, columns, tables, order);
            let address = ai_domains()[i].0;
            let name = ai_domains()[i].1;
            &&& has_part(query, column + " LIKE '%"@ + address + "%'"@)
            &&& has_part(
                query,
                "WHEN "@ + column + " LIKE '%"@ + address + "%' THEN '"@ + name + "'"@,
            )
        }),
{
    let query = visits_query(column, columns, tables, order);
    let all = ai_domains();
    let cases = all.map_values(|d: (Seq<char>, Seq<char>)| domain_case(column, d));
    let conditions = all.map_values(|d: (Seq<char>, Seq<char>)| domain_condition(column, d));
    assert(cases[i] == domain_case(column, all[i]));
    assert(conditions[i] == domain_condition(column, all[i]));
    lemma_joined_part(cases, " "@, i);
    lemma_joined_part(conditions, " OR "@, i);
    lemma_part_of_part("CASE "@, joined(cases, " "@), " END"@, cases[i]);
    let names = case_expr(column);
    let between = ", "@ + columns + " FROM "@ + tables + " WHERE ("@;
    let conditions_text = like_conditions(column);
    let n = ("SELECT "@.len() + names.len() + between.len() + conditions_text.len()) as int;
    assert(query.take(n) =~= "SELECT "@ + names + between + conditions_text) by {
        let start = "SELECT "@ + names + ", "@ + columns + " FROM "@ + tables + " WHERE ("@
            + conditions_text;
        assert(start =~= "SELECT "@ + names + between + conditions_text);
        assert(query.take(n) =~= start);
    }
    lemma_query_parts(
        "SELECT "@,
        names,
        between,
        conditions_text,
        query,
        cases[i],
        conditions[i],
    );
}

/// Whether an address is asked for in every query, under the name of its app.
pub open spec fn asks_for(address: Seq<char>, name: Seq<char>) -> bool {
    forall|column: Seq<char>, columns: Seq<char>, tables: Seq<char>, order: Seq<char>|
        has_part(
            #[trigger] visits_query(column, columns, tables, order),
            "WHEN "@ + column + " LIKE '%"@ + address + "%' THEN '"@ + name + "'"@,
        )
}

proof fn lemma_asked_for(i: int)
    requires
        0 <= i < ai_domains().len(),
    ensures
        asks_for(ai_domains()[i].0, ai_domains()[i].1),
{
    assert forall|column: Seq<char>, columns: Seq<char>, tables: Seq<char>, order: Seq<char>|
        has_part(
            #[trigger] visits_query(column, columns, tables, order),
            "WHEN "@ + column + " LIKE '%"@ + ai_domains()[i].0 + "%' THEN '"@ + ai_domains()[i].1
                + "'"@,
        ) by {
        law_query_asks_for_every_app(column, columns, tables, order, i);
    }
}

/// Every web app that is told of is asked for, at all its addresses.
pub proof fn law_known_apps_are_asked_for()
    ensures
        asks_for(agent_word() + ".ai"@, agent_name() + ".ai"@),
        asks_for("chatgpt.com"@, "ChatGPT"@),
        asks_for("chat.openai.com"@, "ChatGPT"@),
        asks_for("gemini.google.com"@, "Gemini"@),
        asks_for("perplexity.ai"@, "Perplexity"@),
        asks_for("poe.com"@, "Poe"@),
        asks_for("phind.com"@, "Phind"@),
        asks_for("copilot.microsoft.com"@, "Copilot"@),
        asks_for("deepseek.com"@, "DeepSeek"@),
        asks_for("groq.com"@, "Groq"@),
        asks_for("huggingface.co/chat"@, "HuggingFace"@),
        asks_for("aistudio.google.com"@, "AI Studio"@),
        asks_for("you.com"@, "You.com"@),
        asks_for("labs.google"@, "Google Labs"@),
        asks_for("notebooklm.google.com"@, "NotebookLM"@),
        asks_for("x.com/i/grok"@, "Grok"@),
        asks_for("grok.com"@, "Grok"@),
        asks_for("lovable.dev"@, "Lovable"@),
        asks_for("together.ai"@, "Together AI"@),
{
    lemma_asked_for(0);
    assert(ai_domains()[0] == (agent_word() + ".ai"@, agent_name() + ".ai"@));
    lemma_asked_for(1);
    assert(ai_domains()[1] == ("chatgpt.com"@, "ChatGPT"@));
    lemma_asked_for(2);
    assert(ai_domains()[2] == ("chat.openai.com"@, "ChatGPT"@));
    lemma_asked_for(3);
    assert(ai_domains()[3] == ("gemini.google.com"@, "Gemini"@));
    lemma_asked_for(4);
    assert(ai_domains()[4] == ("perplexity.ai"@, "Perplexity"@));
    lemma_asked_for(5);
    assert(ai_domains()[5] == ("poe.com"@, "Poe"@));
    lemma_asked_for(6);
    assert(ai_domains()[6] == ("phind.com"@, "Phind"@));
    lemma_asked_for(7);
    assert(ai_domains()[7] == ("copilot.microsoft.com"@, "Copilot"@));
    lemma_asked_for(8);
    assert(ai_domains()[8] == ("deepseek.com"@, "DeepSeek"@));
    lemma_asked_for(9);
    assert(ai_domains()[9] == ("groq.com"@, "Groq"@));
    lemma_asked_for(10);
    assert(ai_domains()[10] == ("huggingface.co/chat"@, "HuggingFace"@));
    lemma_asked_for(11);
    assert(ai_domains()[11] == ("aistudio.google.com"@, "AI Studio"@));
    lemma_asked_for(12);
    assert(ai_domains()[12] == ("you.com"@, "You.com"@));
    lemma_asked_for(13);
    assert(ai_domains()[13] == ("labs.google"@, "Google Labs"@));
    lemma_asked_for(14);
    assert(ai_domains()[14] == ("notebooklm.google.com"@, "NotebookLM"@));
    lemma_asked_for(15);
    assert(ai_domains()[15] == ("x.com/i/grok"@, "Grok"@));
    lemma_asked_for(16);
    assert(ai_domains()[16] == ("grok.com"@, "Grok"@));
    lemma_asked_for(17);
    assert(ai_domains()[17] == ("lovable.dev"@, "Lovable"@));
    lemma_asked_for(18);
    assert(ai_domains()[18] == ("together.ai"@, "Together AI"@));
}

proof fn lemma_front_part(a: Seq<char>, b: Seq<char>, part: Seq<char>)
    requires
        has_part(a, part),
    ensures
        has_part(a + b, part),
{
    let nothing = Seq::<char>::empty();
    lemma_part_of_part(nothing, a, b, part);
    assert(nothing + a + b =~= a + b);
}

proof fn lemma_condition_part(
    before: Seq<char>,
    column: Seq<char>,
    text: Seq<char>,
    short: Seq<char>,
    rest: Seq<char>,
)
    requires
        text == short + rest,
    ensures
        has_part(before + column + text, column + short),
{
    let all = before + column + text;
    let n = before.len() as int;
    assert(all.subrange(n, n + column.len() + short.len()) =~= column + short);
    assert(stands_at(all, column + short, n));
}

/// A query leaves out the addresses of programs and of logins.
pub proof fn law_query_leaves_out_logins(
    column: Seq<char>,
    columns: Seq<char>,
    tables: Seq<char>,
    order: Seq<char>,
)
    ensures
        ({
            let query = visits_query(column, columns, tables, order);
            &&& has_part(query, column + " NOT LIKE '%/api/%'"@)
            &&& has_part(query, column + " NOT LIKE '%/auth/%'"@)
            &&& has_part(query, column + " NOT LIKE '%/callback%'"@)
            &&& has_part(query, column + " NOT LIKE '%/oauth%'"@)
        }),
{
    let api = " NOT LIKE '%/api/%' AND "@;
    let auth = " NOT LIKE '%/auth/%' AND "@;
    let callback = " NOT LIKE '%/callback%' AND "@;
    let oauth = " NOT LIKE '%/oauth%' ORDER BY "@;
    reveal_strlit(" NOT LIKE '%/api/%' AND ");
    reveal_strlit(" NOT LIKE '%/api/%'");
    reveal_strlit(" NOT LIKE '%/auth/%' AND ");
    reveal_strlit(" NOT LIKE '%/auth/%'");
    reveal_strlit(" NOT LIKE '%/callback%' AND ");
    reveal_strlit(" NOT LIKE '%/callback%'");
    reveal_strlit(" NOT LIKE '%/oauth%' ORDER BY ");
    reveal_strlit(" NOT LIKE '%/oauth%'");
    reveal_strlit(" AND ");
    reveal_strlit(" ORDER BY ");
    assert(api =~= " NOT LIKE '%/api/%'"@ + " AND "@);
    assert(auth =~= " NOT LIKE '%/auth/%'"@ + " AND "@);
    assert(callback =~= " NOT LIKE '%/callback%'"@ + " AND "@);
    assert(oauth =~= " NOT LIKE '%/oauth%'"@ + " ORDER BY "@);
    let one = column + " NOT LIKE '%/api/%'"@;
    let two = column + " NOT LIKE '%/auth/%'"@;
    let three = column + " NOT LIKE '%/callback%'"@;
    let s0 = "SELECT "@ + case_expr(column) + ", "@ + columns + " FROM "@ + tables + " WHERE ("@
        + like_conditions(column) + ") AND "@;
    let s1 = s0 + column + api;
    let s2 = s1 + column + auth;
    let s3 = s2 + column + callback;
    let s4 = s3 + column + oauth;
    lemma_condition_part(s0, column, api, " NOT LIKE '%/api/%'"@, " AND "@);
    lemma_condition_part(s1, column, auth, " NOT LIKE '%/auth/%'"@, " AND "@);
    lemma_condition_part(s2, column, callback, " NOT LIKE '%/callback%'"@, " AND "@);
    lemma_condition_part(s3, column, oauth, " NOT LIKE '%/oauth%'"@, " ORDER BY "@);
    lemma_front_part(s1, column, one);
    lemma_front_part(s1 + column, auth, one);
    lemma_front_part(s2, column, one);
    lemma_front_part(s2, column, two);
    lemma_front_part(s2 + column, callback, one);
    lemma_front_part(s2 + column, callback, two);
    lemma_front_part(s3, column, one);
    lemma_front_part(s3, column, two);
    lemma_front_part(s3, column, three);
    lemma_front_part(s3 + column, oauth, one);
    lemma_front_part(s3 + column, oauth, two);
    lemma_front_part(s3 + column, oauth, three);
    lemma_front_part(s4, order, one);
    lemma_front_part(s4, order, two);
    lemma_front_part(s4, order, three);
    lemma_front_part(s4, order, column + " NOT LIKE '%/oauth%'"@);
}

proof fn lemma_query_parts(
    start: Seq<char>,
    names: Seq<char>,
    between: Seq<char>,
    conditions: Seq<char>,
    query: Seq<char>,
    case: Seq<char>,
    condition: Seq<char>,
)
    requires
        has_part(names, case),
        has_part(conditions, condition),
        query.len() >= start.len() + names.len() + between.len() + conditions.len(),
        query.take(
            (start.len() + names.len() + between.len() + conditions.len()) as int,
        ) == start + names + between + conditions,
    ensures
        has_part(query, case),
        has_part(query, condition),
{
    let n = (start.len() + names.len() + between.len() + conditions.len()) as int;
    let rest = query.skip(n);
    assert(query =~= query.take(n) + rest);
    assert(query =~= start + names + (between + conditions + rest));
    assert(query =~= (start + names + between) + conditions + rest);
    lemma_part_of_part(start, names, between + conditions + rest, case);
    lemma_part_of_part(start + names + between, conditions, rest, condition);
}

fn build_query(column: &str, columns: &str, tables: &str, order: &str) -> (r: String)
    ensures
        r@ == visits_query(column@, columns@, tables@, order@),
{
    let mut q = "SELECT ".to_string();
    q.append(domain_case_expr(column).as_str());
    q.append(", ");
    q.append(columns);
    q.append(" FROM ");
    q.append(tables);
    q.append(" WHERE (");
    q.append(domain_like_conditions(column).as_str());
    q.append(") AND ");
    q.append(column);
    q.append(" NOT LIKE '%/api/%' AND ");
    q.append(column);
    q.append(" NOT LIKE '%/auth/%' AND ");
    q.append(column);
    q.append(" NOT LIKE '%/callback%' AND ");
    q.append(column);
    q.append(" NOT LIKE '%/oauth%' ORDER BY ");
    q.append(order);
    q
}

/// The query for the history of Chromium browsers.
pub fn chromium_query() -> (r: String)
    ensures
        r@ == visits_query(
            "u.url"@,
            "v.visit_time, v.visit_duration"@,
            "visits v JOIN urls u ON v.url = u.id"@,
            "v.visit_time"@,
        ),
{
    build_query(
        "u.url",
        "v.visit_time, v.visit_duration",
        "visits v JOIN urls u ON v.url = u.id",
        "v.visit_time",
    )
}

/// The query for the history of Safari.
pub fn safari_query() -> (r: String)
    ensures
        r@ == visits_query(
            "hi.url"@,
            "hv.visit_time"@,
            "history_visits hv JOIN history_items hi ON hv.history_item = hi.id"@,
            "hv.visit_time"@,
        ),
{
    build_query(
        "hi.url",
        "hv.visit_time",
        "history_visits hv JOIN history_items hi ON hv.history_item = hi.id",
        "hv.visit_time",
    )
}

/// The query for the history of Firefox.
pub fn firefox_query() -> (r: String)
    ensures
        r@ == visits_query(
            "p.url"@,
            "h.visit_date"@,
            "moz_historyvisits h JOIN moz_places p ON h.place_id = p.id"@,
            "h.visit_date"@,
        ),
{
    build_query(
        "p.url",
        "h.visit_date",
        "moz_historyvisits h JOIN moz_places p ON h.place_id = p.id",
        "h.visit_date",
    )
}

/// How a history counts time.
#[derive(Debug, Clone, Copy, PartialEq, Eq, Structural)]
pub enum Clock {
    Chromium,
    Firefox,
    Unix,
}

impl Clock {
    /// The Unix time of an instant.
    pub open spec fn unix(self, time: i64) -> int {
        match self {
            Clock::Chromium => cut_div(time as int, 1_000_000) - 11_644_473_600,
            Clock::Firefox => cut_div(time as int, 1_000_000),
            Clock::Unix => time as int,
        }
    }

    /// The Unix time of an instant.
    pub fn to_unix(&self, time: i64) -> (r: i64)
        ensures
            r == self.unix(time),
    {
        match self {
            Clock::Chromium => chrome_time_to_unix(time),
            Clock::Firefox => firefox_time_to_unix(time),
            Clock::Unix => time,
        }
    }
}

/// A visit as a history has it: the name of the app, and the time as the browser counts it.
pub struct VisitRow {
    pub domain: String,
    pub time: i64,
}

/// A visit to an app.
#[verifier::ext_equal]
pub ghost struct Visit {
    pub domain: Seq<char>,
    pub ts: i64,
}

/// The visits that some rows tell of. A time that is not from 2020 to 2033 is not believed.
pub open spec fn visits_of(rows: Seq<VisitRow>, clock: Clock) -> Seq<Visit>
    decreases rows.len(),
{
    if rows.len() == 0 {
        Seq::empty()
    } else {
        let before = visits_of(rows.drop_last(), clock);
        let ts = clock.unix(rows.last().time);
        if 1_577_836_800 <= ts <= 2_000_000_000 {
            before.push(Visit { domain: rows.last().domain@, ts: ts as i64 })
        } else {
            before
        }
    }
}

/// The times of some visits.
pub open spec fn visit_times(visits: Seq<Visit>) -> Seq<i64> {
    visits.map_values(|v: Visit| v.ts)
}

/// The apps of some visits, in the order in which they came.
pub open spec fn visited(visits: Seq<Visit>) -> Seq<Seq<char>> {
    distinct(visits.map_values(|v: Visit| v.domain))
}

/// The times of the visits to an app.
pub open spec fn times_at(visits: Seq<Visit>, domain: Seq<char>) -> Seq<i64>
    decreases visits.len(),
{
    if visits.len() == 0 {
        Seq::empty()
    } else {
        let before = times_at(visits.drop_last(), domain);
        if visits.last().domain == domain {
            before.push(visits.last().ts)
        } else {
            before
        }
    }
}

/// The active time at an app, with breaks of up to half an hour.
pub open spec fn hours_at(visits: Seq<Visit>, domain: Seq<char>) -> Hours {
    Hours { seconds: active_seconds(sorted_times(times_at(visits, domain)), 1800) as u128 }
}

/// What counts on the days of some visits.
pub open spec fn visit_events(visits: Seq<Visit>) -> Seq<DayEvent> {
    visits.map_values(|v: Visit| DayEvent { ts: v.ts, tokens: 0, session: None })
}

/// A time in hundredths of an hour, rounded.
pub open spec fn rounded_hours(hours: Hours) -> u128 {
    ((hours.seconds as int + 18) / 36) as u128
}

/// The entry of an app before its tokens are known.
pub open spec fn plain_entry(visits: Seq<Visit>, domain: Seq<char>) -> MetaTree {
    MetaTree::Record(
        seq![
            ("visits"@, MetaTree::Count(times_at(visits, domain).len() as u64)),
            ("hours"@, MetaTree::Hundredths(rounded_hours(hours_at(visits, domain)))),
        ],
    )
}

/// What can be read of an app on this machine, and the active time at it as people read it.
pub struct DomainEvidence {
    pub shown: String,
    pub sources: LocalSources,
}

/// The entry of an app.
pub open spec fn domain_entry(
    visits: Seq<Visit>,
    domain: Seq<char>,
    evidence: DomainEvidence,
) -> MetaTree {
    enriched(
        plain_entry(visits, domain),
        domain_result(
            select_view(domain, hours_at(visits, domain), evidence.shown@, evidence.sources),
        ),
    )
}

/// The entries of all apps.
pub open spec fn domain_entries(visits: Seq<Visit>, evidence: Seq<DomainEvidence>) -> Seq<
    MetaTree,
> {
    Seq::new(
        visited(visits).len(),
        |i: int| domain_entry(visits, visited(visits)[i], evidence[i]),
    )
}

/// How the tokens of a browser were estimated.
pub const ROLLUP_METHOD: &'static str =
    "cl100k_base tokenizer; sum of the per-domain estimates in metadata.domains";

/// What a browser reports of some visits.
pub open spec fn browser_report(
    provider: Seq<char>,
    visits: Seq<Visit>,
    evidence: Seq<DomainEvidence>,
) -> ProviderReport {
    let times = visit_times(visits);
    let names = visited(visits);
    let entries = domain_entries(visits, evidence);
    let buckets = buckets_of(visit_events(visits));
    ProviderReport {
        hours: Some(Hours { seconds: active_seconds(sorted_times(times), 1800) as u128 }),
        visits: Some(visits.len() as u64),
        first_seen: first_time(times),
        last_seen: last_time(times),
        tokens: rollup(entries),
        tokens_estimated: rollup(entries) is Some,
        tokens_estimate_method: if rollup(entries) is Some {
            Some(ROLLUP_METHOD@)
        } else {
            None
        },
        metadata: Some(
            Map::empty().insert(
                "domains"@,
                MetaTree::Record(Seq::new(names.len(), |i: int| (names[i], entries[i]))),
            ),
        ),
        daily_buckets: if buckets =~= Map::empty() {
            None
        } else {
            Some(buckets)
        },
        ..ProviderReport::blank(provider)
    }
}

/// Tokens of a browser are only ever reported as estimates.
pub proof fn law_browser_tokens_are_estimates(
    provider: Seq<char>,
    visits: Seq<Visit>,
    evidence: Seq<DomainEvidence>,
)
    ensures
        ({
            let report = browser_report(provider, visits, evidence);
            &&& report.tokens is Some <==> report.tokens_estimated
            &&& report.tokens_estimated <==> report.tokens_estimate_method is Some
        }),
{
}

/// The Unix time of an instant as a browser counts it.
pub open spec fn unix_time(clock: Clock, time: i64) -> int {
    match clock {
        Clock::Chromium => cut_div(time as int, 1_000_000) - 11_644_473_600,
        Clock::Firefox => cut_div(time as int, 1_000_000),
        Clock::Unix => time as int,
    }
}

/// Every row whose time is from 2020 to 2033 is a visit to its app at its time, in the order of the
/// rows and whatever rows stand beside it. No other row is one.
pub proof fn law_every_believable_row_is_a_visit(rows: Seq<VisitRow>, clock: Clock)
    ensures
        visits_of(rows, clock) == rows.filter(
            |r: VisitRow| 1_577_836_800 <= unix_time(clock, r.time) <= 2_000_000_000,
        ).map_values(
            |r: VisitRow| Visit { domain: r.domain@, ts: unix_time(clock, r.time) as i64 },
        ),
    decreases rows.len(),
{
    reveal(Seq::filter);
    let believed = |r: VisitRow| 1_577_836_800 <= unix_time(clock, r.time) <= 2_000_000_000;
    let visit = |r: VisitRow| Visit { domain: r.domain@, ts: unix_time(clock, r.time) as i64 };
    if rows.len() == 0 {
        assert(rows.filter(believed).map_values(visit) =~= Seq::empty());
    } else {
        let before = rows.drop_last();
        law_every_believable_row_is_a_visit(before, clock);
        assert(rows =~= before.push(rows.last()));
        before.lemma_filter_push(rows.last(), believed);
        let kept = before.filter(believed);
        if believed(rows.last()) {
            assert(kept.push(rows.last()).map_values(visit) =~= kept.map_values(visit).push(
                visit(rows.last()),
            ));
        }
    }
}

/// The times of the visits to an app.
pub open spec fn times_there(visits: Seq<Visit>, domain: Seq<char>) -> Seq<i64> {
    visits.filter(|v: Visit| v.domain == domain).map_values(|v: Visit| v.ts)
}

proof fn lemma_times_there(visits: Seq<Visit>, domain: Seq<char>)
    ensures
        times_at(visits, domain) == times_there(visits, domain),
    decreases visits.len(),
{
    reveal(Seq::filter);
    let there = |v: Visit| v.domain == domain;
    if visits.len() == 0 {
        assert(times_there(visits, domain) =~= Seq::empty());
    } else {
        let before = visits.drop_last();
        lemma_times_there(before, domain);
        assert(visits =~= before.push(visits.last()));
        before.lemma_filter_push(visits.last(), there);
        let kept = before.filter(there);
        if there(visits.last()) {
            assert(kept.push(visits.last()).map_values(|v: Visit| v.ts) =~= kept.map_values(
                |v: Visit| v.ts,
            ).push(visits.last().ts));
        }
    }
}

/// A browser reports all its visits: their number, the active time over all of them with breaks of up
/// to half an hour, the first and the last, and the days on which they fell. Each app that was
/// visited is listed once.
pub proof fn law_visits_are_reported(
    provider: Seq<char>,
    visits: Seq<Visit>,
    evidence: Seq<DomainEvidence>,
    domain: Seq<char>,
)
    ensures
        ({
            let report = browser_report(provider, visits, evidence);
            let times = visits.map_values(|v: Visit| v.ts);
            let events = visits.map_values(
                |v: Visit| DayEvent { ts: v.ts, tokens: 0, session: None },
            );
            let names = visited(visits);
            &&& report.provider == provider
            &&& visits.len() <= u64::MAX ==> report.visits == Some(visits.len() as u64)
            &&& report.hours == Some(Hours { seconds: half_hour_activity(times) as u128 })
            &&& report.first_seen == first_time(times)
            &&& report.last_seen == last_time(times)
            &&& report.daily_buckets is Some ==> report.daily_buckets == Some(buckets_of(events))
            &&& report.daily_buckets is None ==> buckets_of(events) =~= Map::empty()
            &&& report.sessions is None && report.invocations is None && report.models is None
            &&& names.no_duplicates()
            &&& names.contains(domain) <==> times_there(visits, domain).len() > 0
        }),
{
    let names = visits.map_values(|v: Visit| v.domain);
    law_distinct_keeps_each_once(names);
    lemma_half_hour(visit_times(visits));
    assert(visit_times(visits) =~= visits.map_values(|v: Visit| v.ts));
    assert(visit_events(visits) =~= visits.map_values(
        |v: Visit| DayEvent { ts: v.ts, tokens: 0, session: None },
    ));
    lemma_times_there(visits, domain);
    if !visited(visits).contains(domain) {
        lemma_no_times(visits, domain);
    } else {
        let i = names.index_of(domain);
        assert(visits[i].domain == domain);
        let there = |v: Visit| v.domain == domain;
        visits.lemma_filter_contains(there, i);
        assert(visits.filter(there).len() > 0);
    }
}

/// The entry of an app has the number of its visits, and the active time at it in hours with two
/// decimals, rounded to the nearest: other apps do not matter.
pub proof fn law_app_has_its_visits(
    provider: Seq<char>,
    visits: Seq<Visit>,
    evidence: Seq<DomainEvidence>,
    k: int,
)
    requires
        evidence.len() == visited(visits).len(),
        0 <= k < visited(visits).len(),
    ensures
        ({
            let report = browser_report(provider, visits, evidence);
            let name = visited(visits)[k];
            let times = times_there(visits, name);
            let members = report.metadata->0["domains"@]->Record_0;
            let entry = members[k].1;
            let hundredths = entry.get("hours"@)->0->Hundredths_0;
            &&& report.metadata is Some && report.metadata->0.contains_key("domains"@)
            &&& report.metadata->0["domains"@] is Record
            &&& members.len() == visited(visits).len()
            &&& members[k].0 == name
            &&& times.len() <= u64::MAX ==> entry.get("visits"@) == Some(
                MetaTree::Count(times.len() as u64),
            )
            &&& entry.get("hours"@) is Some && entry.get("hours"@)->0 is Hundredths
            &&& 36 * hundredths - 18 <= half_hour_activity(times) < 36 * hundredths + 18
        }),
{
    let name = visited(visits)[k];
    lemma_times_there(visits, name);
    let times = times_there(visits, name);
    lemma_half_hour(times);
    let d = domain_result(
        select_view(name, hours_at(visits, name), evidence[k].shown@, evidence[k].sources),
    );
    let members = plain_entry(visits, name)->Record_0;
    lemma_entry_keys();
    law_other_members_stay(members, d, "visits"@);
    law_other_members_stay(members, d, "hours"@);
    reveal_with_fuel(crate::types::meta_member, 3);
    assert(members.drop_first()[0] == members[1]);
    assert(domain_entries(visits, evidence)[k] == domain_entry(visits, name, evidence[k]));
}

proof fn lemma_entry_keys()
    ensures
        forall|i: int|
            0 <= i < 6 ==> "visits"@ != #[trigger] token_keys()[i] && "hours"@ != token_keys()[i],
        "visits"@ != "hours"@,
        token_keys()[0] == "tokens"@,
        token_keys()[1] == "tokens_estimated"@,
        token_keys()[2] == "tokens_estimate_method"@,
        token_keys()[3] == "tokens_unavailable"@,
        token_keys()[4] == "tokens_unavailable_reason"@,
        token_keys()[5] == "tokens_estimate_evidence"@,
        "visits"@ != "tokens"@ && "hours"@ != "tokens"@,
        "visits"@ != "tokens_estimated"@ && "hours"@ != "tokens_estimated"@,
        "visits"@ != "tokens_estimate_method"@ && "hours"@ != "tokens_estimate_method"@,
        "visits"@ != "tokens_unavailable"@ && "hours"@ != "tokens_unavailable"@,
        "visits"@ != "tokens_unavailable_reason"@ && "hours"@ != "tokens_unavailable_reason"@,
        "visits"@ != "tokens_estimate_evidence"@ && "hours"@ != "tokens_estimate_evidence"@,
{
    reveal_strlit("visits");
    reveal_strlit("hours");
    reveal_strlit("tokens");
    reveal_strlit("tokens_estimated");
    reveal_strlit("tokens_estimate_method");
    reveal_strlit("tokens_unavailable");
    reveal_strlit("tokens_unavailable_reason");
    reveal_strlit("tokens_estimate_evidence");
    assert("visits"@[0] == 'v' && "hours"@[0] == 'h' && "tokens"@[0] == 't');
    assert("tokens_estimated"@[0] == 't' && "tokens_estimate_method"@[0] == 't');
    assert("tokens_unavailable"@[0] == 't' && "tokens_unavailable_reason"@[0] == 't');
    assert("tokens_estimate_evidence"@[0] == 't');
}

spec fn token_keys() -> Seq<Seq<char>> {
    seq![
        "tokens"@,
        "tokens_estimated"@,
        "tokens_estimate_method"@,
        "tokens_unavailable"@,
        "tokens_unavailable_reason"@,
        "tokens_estimate_evidence"@,
    ]
}

/// What was decided on an app that was visited.
pub open spec fn decision(
    visits: Seq<Visit>,
    evidence: Seq<DomainEvidence>,
    k: int,
) -> crate::browser_data_audit::SelectionView {
    let name = visited(visits)[k];
    select_view(
        name,
        Hours { seconds: half_hour_activity(times_there(visits, name)) as u128 },
        evidence[k].shown@,
        evidence[k].sources,
    )
}

proof fn lemma_decided_entry(visits: Seq<Visit>, evidence: Seq<DomainEvidence>, k: int)
    requires
        evidence.len() == visited(visits).len(),
        0 <= k < visited(visits).len(),
    ensures
        ({
            let sel = decision(visits, evidence, k);
            let tokens = sel.audit.winner_tokens;
            &&& sel.unavailable ==> estimated_usage(domain_entries(visits, evidence)[k]) is None
            &&& !sel.unavailable ==> estimated_usage(domain_entries(visits, evidence)[k]) == Some(
                TokenUsage {
                    input_tokens: 0,
                    output_tokens: tokens,
                    cache_read_tokens: 0,
                    cache_creation_tokens: 0,
                    total: tokens,
                },
            )
        }),
{
    let name = visited(visits)[k];
    lemma_times_there(visits, name);
    lemma_half_hour(times_there(visits, name));
    let sel = decision(visits, evidence, k);
    let members = plain_entry(visits, name)->Record_0;
    let entry = domain_entries(visits, evidence)[k];
    assert(entry == enriched(MetaTree::Record(members), domain_result(sel)));
    lemma_entry_keys();
    reveal_with_fuel(crate::types::meta_member, 4);
    assert(members.drop_first()[0] == members[1]);
    assert(members.drop_first().drop_first() =~= Seq::empty());
    law_entry_adds_its_estimate(members, sel);
}

/// The tokens that were decided for each of the first apps.
pub open spec fn decided_tokens(
    visits: Seq<Visit>,
    evidence: Seq<DomainEvidence>,
    n: nat,
) -> Seq<nat> {
    Seq::new(
        n,
        |k: int|
            if decision(visits, evidence, k).unavailable {
                0
            } else {
                decision(visits, evidence, k).audit.winner_tokens as nat
            },
    )
}

proof fn lemma_rolled_up(visits: Seq<Visit>, evidence: Seq<DomainEvidence>, n: nat)
    requires
        evidence.len() == visited(visits).len(),
        n <= visited(visits).len(),
    ensures
        rolled_up(domain_entries(visits, evidence).take(n as int)) == (TokenSums {
            input: 0,
            output: total(decided_tokens(visits, evidence, n)),
            cache_read: 0,
            cache_creation: 0,
        }),
    decreases n,
{
    let all = domain_entries(visits, evidence);
    let tokens = decided_tokens(visits, evidence, n);
    if n == 0 {
        assert(all.take(0) =~= Seq::empty());
        assert(tokens =~= Seq::empty());
        lemma_total_push(Seq::empty(), 0);
    } else {
        let k = (n - 1) as nat;
        lemma_rolled_up(visits, evidence, k);
        lemma_decided_entry(visits, evidence, k as int);
        assert(all.take(n as int).drop_last() =~= all.take(k as int));
        assert(all.take(n as int).last() == all[k as int]);
        let fewer = decided_tokens(visits, evidence, k);
        assert(tokens =~= fewer.push(tokens[k as int]));
        lemma_total_push(fewer, tokens[k as int]);
    }
}

/// The tokens of a browser are those that were decided for its apps, added up. There are none exactly
/// where nothing can be told of any app.
pub proof fn law_apps_add_up(
    provider: Seq<char>,
    visits: Seq<Visit>,
    evidence: Seq<DomainEvidence>,
)
    requires
        evidence.len() == visited(visits).len(),
    ensures
        ({
            let report = browser_report(provider, visits, evidence);
            let n = visited(visits).len();
            &&& report.tokens is Some <==> exists|k: int|
                0 <= k < n && !(#[trigger] decision(visits, evidence, k)).unavailable
            &&& report.tokens is Some ==> report.tokens == Some(
                TokenSums {
                    input: 0,
                    output: total(decided_tokens(visits, evidence, n)),
                    cache_read: 0,
                    cache_creation: 0,
                }.usage(),
            ) && report.tokens_estimated
        }),
{
    let all = domain_entries(visits, evidence);
    let n = visited(visits).len();
    lemma_rolled_up(visits, evidence, n);
    assert(all.take(n as int) =~= all);
    if any_estimated(all) {
        let k = choose|k: int| 0 <= k < all.len() && estimated_usage(#[trigger] all[k]) is Some;
        lemma_decided_entry(visits, evidence, k);
        assert(!decision(visits, evidence, k).unavailable);
    }
    if exists|k: int| 0 <= k < n && !(#[trigger] decision(visits, evidence, k)).unavailable {
        let k = choose|k: int| 0 <= k < n && !(#[trigger] decision(visits, evidence, k)).unavailable;
        lemma_decided_entry(visits, evidence, k);
        assert(estimated_usage(all[k]) is Some);
    }
}

/// A result of a browser tells whether there were visits at all: an error exactly where there were
/// none.
pub proof fn law_no_visits_no_result(
    r: Result<ProviderResult, ScanError>,
    provider: Seq<char>,
    visits: Seq<Visit>,
    evidence: Seq<DomainEvidence>,
)
    requires
        is_browser_result(r, provider, visits, evidence),
    ensures
        r is Ok <==> visits.len() > 0,
        r matches Ok(result) ==> result@ == browser_report(provider, visits, evidence),
        r matches Err(e) ==> e.is_not_found("No AI site visits found in "@ + provider),
{
}

/// The visits of a browser, by app.
pub struct VisitLog {
    times: Vec<i64>,
    domains: StrMap<Vec<i64>>,
    visits: Ghost<Seq<Visit>>,
}

impl View for VisitLog {
    type V = Seq<Visit>;

    closed spec fn view(&self) -> Seq<Visit> {
        self.visits@
    }
}

impl VisitLog {
    /// The times are those of the visits, in all and by app.
    pub closed spec fn wf(&self) -> bool {
        &&& self.times@ == visit_times(self@)
        &&& self.domains.wf()
        &&& self.domains.names() == visited(self@)
        &&& forall|d: Seq<char>| #[trigger]
            self.domains@.contains_key(d) ==> self.domains@[d]@ == times_at(self@, d)
    }

    fn empty() -> (r: VisitLog)
        ensures
            r.wf(),
            r@ == Seq::<Visit>::empty(),
    {
        let r = VisitLog { times: Vec::new(), domains: StrMap::new(), visits: Ghost(Seq::empty()) };
        proof {
            assert(r.times@ =~= visit_times(r@));
            assert(r@.map_values(|v: Visit| v.domain) =~= Seq::empty());
            assert(r.domains.names() =~= visited(r@));
        }
        r
    }

    fn note(&mut self, domain: &str, ts: i64)
        requires
            old(self).wf(),
        ensures
            final(self).wf(),
            final(self)@ == old(self)@.push(Visit { domain: domain@, ts }),
    {
        let ghost before = self@;
        let ghost visit = Visit { domain: domain@, ts };
        let ghost all = before.push(visit);
        proof {
            assert(all.drop_last() =~= before);
            let names = before.map_values(|v: Visit| v.domain);
            let more = all.map_values(|v: Visit| v.domain);
            assert(more.drop_last() =~= names);
            self.domains.lemma_shape();
            law_distinct_keeps_each_once(names);
            if !self.domains@.contains_key(domain@) {
                assert(!visited(before).contains(domain@)) by {
                    if visited(before).contains(domain@) {
                        let i = visited(before).index_of(domain@);
                        assert(self.domains@.contains_key(self.domains.names()[i]));
                    }
                }
                lemma_no_times(before, domain@);
            } else {
                assert(visited(before).contains(domain@));
            }
        }
        self.times.push(ts);
        match self.domains.position(domain) {
            Some(i) => {
                self.domains.value_mut(i).push(ts);
            },
            None => {
                let mut list: Vec<i64> = Vec::new();
                list.push(ts);
                assert(list@ =~= times_at(before, domain@).push(ts));
                self.domains.insert(domain.to_string(), list);
            },
        }
        self.visits = Ghost(all);
        proof {
            assert(self.times@ =~= visit_times(all));
        }
    }

    /// The visits that the rows of a history tell of.
    pub fn gather(rows: &Vec<VisitRow>, clock: Clock) -> (r: VisitLog)
        ensures
            r.wf(),
            r@ == visits_of(rows@, clock),
    {
        let mut log = VisitLog::empty();
        let mut i: usize = 0;
        while i < rows.len()
            invariant
                i <= rows@.len(),
                log.wf(),
                log@ == visits_of(rows@.take(i as int), clock),
            decreases rows@.len() - i,
        {
            assert(rows@.take(i + 1).drop_last() =~= rows@.take(i as int));
            let ts: i64 = clock.to_unix(rows[i].time);
            if 1_577_836_800 <= ts && ts <= 2_000_000_000 {
                log.note(rows[i].domain.as_str(), ts);
            }
            i += 1;
        }
        assert(rows@.take(i as int) =~= rows@);
        log
    }

    /// The number of apps.
    pub fn domain_count(&self) -> (r: usize)
        requires
            self.wf(),
        ensures
            r == visited(self@).len(),
    {
        self.domains.len()
    }

    /// The name of an app.
    pub fn domain_name(&self, i: usize) -> (r: &String)
        requires
            self.wf(),
            i < visited(self@).len(),
        ensures
            r@ == visited(self@)[i as int],
    {
        self.domains.key(i)
    }

    /// The active time at an app.
    pub fn domain_hours(&self, i: usize) -> (r: Hours)
        requires
            self.wf(),
            i < visited(self@).len(),
        ensures
            r == hours_at(self@, visited(self@)[i as int]),
    {
        proof {
            self.domains.lemma_shape();
            assert(self.domains@.contains_key(self.domains.names()[i as int]));
        }
        let sorted = sort_times(self.domains.value(i).as_slice());
        active_hours_from_timestamps(sorted.as_slice(), 1800)
    }

    fn plain_entry_of(&self, i: usize) -> (r: MetaValue)
        requires
            self.wf(),
            i < visited(self@).len(),
        ensures
            r@ == plain_entry(self@, visited(self@)[i as int]),
    {
        let ghost domain = visited(self@)[i as int];
        proof {
            self.domains.lemma_shape();
            assert(self.domains@.contains_key(self.domains.names()[i as int]));
        }
        let hours = self.domain_hours(i);
        let hundredths: u128 = hours.seconds / 36 + (hours.seconds % 36 + 18) / 36;
        assert(hundredths == rounded_hours(hours)) by (nonlinear_arith)
            requires
                hundredths == hours.seconds as int / 36 + (hours.seconds as int % 36 + 18) / 36,
                rounded_hours(hours) == ((hours.seconds as int + 18) / 36) as u128,
                hours.seconds <= 0xffff_ffff_ffff_ffff_ffff_ffff_ffff_ffff,
        {
            let q = hours.seconds as int / 36;
            let m = hours.seconds as int % 36;
            assert(hours.seconds as int + 18 == 36 * q + (m + 18));
            assert((36 * q + (m + 18)) / 36 == q + (m + 18) / 36);
        }
        let mut b = RecordBuilder::new();
        b.put("visits", MetaValue::Count(self.domains.value(i).len() as u64));
        b.put("hours", MetaValue::Hundredths(hundredths));
        assert(crate::types::member_trees(b.members@) =~= plain_entry(self@, domain)->Record_0);
        b.finish()
    }
}

proof fn lemma_no_times(visits: Seq<Visit>, domain: Seq<char>)
    requires
        !visited(visits).contains(domain),
    ensures
        times_at(visits, domain) =~= Seq::empty(),
    decreases visits.len(),
{
    let names = visits.map_values(|v: Visit| v.domain);
    law_distinct_keeps_each_once(names);
    assert(!names.contains(domain));
    if visits.len() > 0 {
        let before = visits.drop_last();
        let fewer = before.map_values(|v: Visit| v.domain);
        law_distinct_keeps_each_once(fewer);
        assert(names[visits.len() - 1] == visits.last().domain);
        if fewer.contains(domain) {
            let i = fewer.index_of(domain);
            assert(names[i] == domain);
        }
        lemma_no_times(before, domain);
    }
}

fn entries_of(log: &VisitLog, evidence: &Vec<DomainEvidence>) -> (r: StrMap<MetaValue>)
    requires
        log.wf(),
        evidence@.len() == visited(log@).len(),
    ensures
        r.wf(),
        r.names() == visited(log@),
        meta_trees(r.items()) == domain_entries(log@, evidence@),
{
    let mut map: StrMap<MetaValue> = StrMap::new();
    let ghost names = visited(log@);
    let ghost goal = domain_entries(log@, evidence@);
    let n: usize = log.domain_count();
    let mut i: usize = 0;
    proof {
        log.domains.lemma_shape();
        map.lemma_shape();
        assert(map.names() =~= names.take(0));
        assert(meta_trees(map.items()) =~= goal.take(0));
    }
    while i < n
        invariant
            log.wf(),
            map.wf(),
            i <= n,
            n == names.len(),
            n == evidence@.len(),
            names == visited(log@),
            names.no_duplicates(),
            goal == domain_entries(log@, evidence@),
            map.names() == names.take(i as int),
            meta_trees(map.items()) == goal.take(i as int),
        decreases n - i,
    {
        let name = log.domain_name(i);
        let hours = log.domain_hours(i);
        let entry = enrich_domain_entry(
            log.plain_entry_of(i),
            name.as_str(),
            hours,
            evidence[i].shown.as_str(),
            &evidence[i].sources,
        );
        let ghost before = map;
        proof {
            before.lemma_shape();
            assert(entry@ == goal[i as int]);
            if before@.contains_key(name@) {
                let k = choose|k: int| 0 <= k < before.names().len() && before.names()[k] == name@;
                assert(names[k] == names[i as int]);
            }
        }
        map.insert(name.clone(), entry);
        proof {
            map.lemma_shape();
            assert(map.names() =~= names.take(i + 1));
            assert forall|k: int| 0 <= k < i + 1 implies #[trigger] meta_trees(map.items())[k]
                == goal[k] by {
                assert(map@[map.names()[k]] == map.items()[k]);
                if k < i {
                    assert(before@[before.names()[k]] == before.items()[k]);
                    assert(before.names()[k] == names[k]);
                    assert(names[k] != names[i as int]);
                    assert(meta_trees(before.items())[k] == goal[k]);
                }
            }
            assert(meta_trees(map.items()) =~= goal.take(i + 1));
        }
        i += 1;
    }
    assert(names.take(n as int) =~= names);
    assert(goal.take(n as int) =~= goal);
    map
}

fn to_record(map: StrMap<MetaValue>) -> (r: MetaValue)
    requires
        map.wf(),
    ensures
        r@ == MetaTree::Record(
            Seq::new(map.names().len(), |i: int| (map.names()[i], meta_trees(map.items())[i])),
        ),
{
    let (keys, values) = map.into_parts();
    let ghost names = texts(keys@);
    let ghost trees = meta_trees(values@);
    let mut keys = keys;
    let mut values = values;
    let mut reversed: Vec<(String, MetaValue)> = Vec::new();
    let n: usize = keys.len();
    let mut i: usize = n;
    while i > 0
        invariant
            i <= n,
            keys@.len() == i,
            values@.len() == i,
            reversed@.len() == n - i,
            n == names.len(),
            n == trees.len(),
            texts(keys@) == names.take(i as int),
            meta_trees(values@) == trees.take(i as int),
            forall|k: int|
                0 <= k < n - i ==> (#[trigger] reversed@[k]).0@ == names[n - 1 - k]
                    && reversed@[k].1@ == trees[n - 1 - k],
        decreases i,
    {
        let ghost kept = keys@;
        let ghost held = values@;
        proof {
            assert(texts(kept)[i - 1] == names[i - 1]);
            assert(meta_trees(held)[i - 1] == trees[i - 1]);
        }
        match (keys.pop(), values.pop()) {
            (Some(key), Some(value)) => {
                reversed.push((key, value));
            },
            _ => {},
        }
        i -= 1;
        proof {
            assert(texts(keys@) =~= names.take(i as int));
            assert(meta_trees(values@) =~= trees.take(i as int));
        }
    }
    let mut members: Vec<(String, MetaValue)> = Vec::new();
    let mut j: usize = n;
    while j > 0
        invariant
            j <= n,
            reversed@.len() == j,
            members@.len() == n - j,
            n == names.len(),
            n == trees.len(),
            forall|k: int|
                0 <= k < j ==> (#[trigger] reversed@[k]).0@ == names[n - 1 - k] && reversed@[k].1@
                    == trees[n - 1 - k],
            forall|k: int|
                0 <= k < n - j ==> (#[trigger] members@[k]).0@ == names[k] && members@[k].1@
                    == trees[k],
        decreases j,
    {
        let ghost held = reversed@;
        assert(held[j - 1].0@ == names[n - j]);
        if let Some(member) = reversed.pop() {
            members.push(member);
        }
        j -= 1;
    }
    let r = MetaValue::Record(members);
    assert(r@->Record_0 =~= Seq::new(names.len(), |i: int| (names[i], trees[i])));
    r
}

fn events_of(log: &VisitLog) -> (r: Vec<(i64, u64, Option<String>)>)
    requires
        log.wf(),
    ensures
        day_events(r@) == visit_events(log@),
{
    let mut events: Vec<(i64, u64, Option<String>)> = Vec::new();
    let ghost all = visit_events(log@);
    let mut i: usize = 0;
    assert(day_events(events@) =~= all.take(0));
    while i < log.times.len()
        invariant
            log.wf(),
            i <= log.times@.len(),
            all == visit_events(log@),
            day_events(events@) == all.take(i as int),
        decreases log.times@.len() - i,
    {
        let ghost known = day_events(events@);
        let nobody: Option<String> = None;
        events.push((log.times[i], 0, nobody));
        i += 1;
        proof {
            let event = DayEvent { ts: log.times@[i - 1], tokens: 0, session: None };
            assert(day_events(events@) =~= known.push(event));
            assert(all.take(i as int) =~= all.take(i - 1).push(event));
        }
    }
    assert(all.take(i as int) =~= all);
    events
}

/// What a browser reports of its visits, or that there are none.
pub open spec fn is_browser_result(
    r: Result<ProviderResult, ScanError>,
    provider: Seq<char>,
    visits: Seq<Visit>,
    evidence: Seq<DomainEvidence>,
) -> bool {
    match r {
        Ok(result) => visits.len() > 0 && result.wf() && result@ == browser_report(
            provider,
            visits,
            evidence,
        ),
        Err(error) => visits.len() == 0 && error.is_not_found(
            "No AI site visits found in "@ + provider,
        ),
    }
}

fn report_visits(provider_name: &str, log: &VisitLog, evidence: &Vec<DomainEvidence>) -> (r: Result<
    ProviderResult,
    ScanError,
>)
    requires
        log.wf(),
        evidence@.len() == visited(log@).len(),
    ensures
        is_browser_result(r, provider_name@, log@, evidence@),
{
    if log.times.len() == 0 {
        return Err(
            ScanError::NotFound("No AI site visits found in ".to_string().concat(provider_name)),
        );
    }
    let (hours, first_seen, last_seen) = time_range(log.times.as_slice());
    let domains = entries_of(log, evidence);
    let tokens = rollup_domain_estimates(&domains);
    let mut result = ProviderResult::new(provider_name);
    result.hours = Some(hours);
    result.visits = Some(log.times.len() as u64);
    result.first_seen = first_seen;
    result.last_seen = last_seen;
    if tokens.is_some() {
        result.tokens = tokens;
        result.tokens_estimated = true;
        result.tokens_estimate_method = Some(ROLLUP_METHOD.to_string());
    }
    let ghost names = domains.names();
    let ghost entries = meta_trees(domains.items());
    let record = to_record(domains);
    proof {
        let goal = MetaTree::Record(Seq::new(names.len(), |i: int| (names[i], entries[i])));
        assert(record@->Record_0 =~= goal->Record_0);
    }
    let mut metadata: StrMap<MetaValue> = StrMap::new();
    metadata.insert("domains".to_string(), record);
    result.metadata = Some(metadata);
    assert(result@.metadata->0 =~= Map::empty().insert("domains"@, record@));
    let events = events_of(log);
    let buckets = build_daily_buckets(events.as_slice());
    if !buckets.is_empty() {
        result.daily_buckets = Some(buckets);
    }
    Ok(result)
}

/// Usage of a browser from the visits in its history databases, of which there are some number.
/// `evidence` is what can be read of each app that was visited.
pub fn scan_chromium_history(
    databases: usize,
    provider_name: &str,
    log: &VisitLog,
    evidence: &Vec<DomainEvidence>,
) -> (r: Result<ProviderResult, ScanError>)
    requires
        log.wf(),
        evidence@.len() == visited(log@).len(),
    ensures
        if databases == 0 {
            r matches Err(e) && e.is_not_found(
                "No "@ + provider_name@ + " history databases found"@,
            )
        } else {
            is_browser_result(r, provider_name@, log@, evidence@)
        },
{
    if databases == 0 {
        return Err(
            ScanError::NotFound(
                "No ".to_string().concat(provider_name).concat(" history databases found"),
            ),
        );
    }
    report_visits(provider_name, log, evidence)
}

/// Usage of Firefox from the visits in its history databases.
pub fn scan_firefox_history(
    databases: usize,
    log: &VisitLog,
    evidence: &Vec<DomainEvidence>,
) -> (r: Result<ProviderResult, ScanError>)
    requires
        log.wf(),
        evidence@.len() == visited(log@).len(),
    ensures
        if databases == 0 {
            r matches Err(e) && e.is_not_found("No Firefox history databases found"@)
        } else {
            is_browser_result(r, "Firefox"@, log@, evidence@)
        },
{
    if databases == 0 {
        return Err(ScanError::NotFound("No Firefox history databases found".to_string()));
    }
    report_visits("Firefox", log, evidence)
}

/// Usage of Safari from the visits in its history database.
pub fn scan_safari_history(log: &VisitLog, evidence: &Vec<DomainEvidence>) -> (r: Result<
    ProviderResult,
    ScanError,
>)
    requires
        log.wf(),
        evidence@.len() == visited(log@).len(),
    ensures
        is_browser_result(r, "Safari"@, log@, evidence@),
{
    report_visits("Safari", log, evidence)
}

/// What a provider reports whose files the system does not let this program read.
pub open spec fn denied_report(provider: Seq<char>) -> ProviderReport {
    ProviderReport {
        metadata: Some(Map::empty().insert("skipped"@, MetaTree::Text("tcc-denied"@))),
        ..ProviderReport::blank(provider)
    }
}

/// A provider whose files cannot be read reports that, and nothing that would count.
pub proof fn law_denied_provider_counts_nothing(provider: Seq<char>)
    ensures
        ({
            let report = denied_report(provider);
            &&& report.provider == provider
            &&& report.hours is None && report.tokens is None && report.sessions is None
            &&& report.visits is None && report.invocations is None && report.models is None
            &&& report.first_seen is None && report.daily_buckets is None
            &&& report.metadata is Some && report.metadata->0.contains_key("skipped"@)
            &&& report.metadata->0["skipped"@] == MetaTree::Text("tcc-denied"@)
        }),
{
}

/// What a provider reports whose files the system does not let this program read: nothing but
/// that, so that the rest of the scan goes on.
pub fn denied_result(provider_name: &str) -> (r: ProviderResult)
    ensures
        r.wf(),
        r@ == denied_report(provider_name@),
        crate::share::is_denied(r),
{
    let mut result = ProviderResult::new(provider_name);
    let mut metadata: StrMap<MetaValue> = StrMap::new();
    metadata.insert("skipped".to_string(), MetaValue::Text("tcc-denied".to_string()));
    result.metadata = Some(metadata);
    assert(result@.metadata->0 =~= denied_report(provider_name@).metadata->0);
    result
}

} // verus!
