//! Shell history: how often AI tools were called from zsh, bash and fish.

use crate::collections::StrMap;
use crate::names::{agent_title, agent_title_text, agent_word, agent_word_text};
use crate::providers::browser::{pair, pair_texts};
use crate::tally::{tally_of, Tally};
use crate::text::{
    chars_of, find_part, has_part, holds_part, lemma_place_of, lines, lines_of, lossy_text,
    lowercase, parse_number, part_at, place_of, slice_of, stands_at, text_opt, texts,
    to_lowercase, trim, trimmed, utf8_lossy, written_number,
};
use crate::time_util::{first_time, group_by_day, last_time, sort_times, sorted_times, time_range, times_on};
use crate::types::{
    capped, DailyBucket, Hours, MetaValue, ProviderReport, ProviderResult, ScanError,
};
use vstd::prelude::*;

verus! {

pub struct ShellHistoryProvider;

/// What to look for in a command, and the tool that it stands for, in the order in which they
/// are tried.
pub open spec fn ai_patterns() -> Seq<(Seq<char>, Seq<char>)> {
    seq![
        (agent_word(), agent_title()),
        ("codex"@, "Codex CLI"@),
        ("cursor"@, "Cursor"@),
        ("copilot"@, "Copilot"@),
        ("aider"@, "Aider"@),
        ("sgpt"@, "ShellGPT"@),
        ("ollama"@, "Ollama"@),
        ("gemini"@, "Gemini CLI"@),
        ("chatgpt"@, "ChatGPT CLI"@),
        ("cody"@, "Cody"@),
        ("opencode"@, "OpenCode"@),
        ("devin"@, "Devin"@),
        ("amp"@, "Amp"@),
        ("droid"@, "Droid"@),
        ("qwen"@, "Qwen CLI"@),
        ("kimi"@, "Kimi CLI"@),
        ("gh copilot"@, "GitHub Copilot CLI"@),
    ]
}

/// What to look for in a command, and the tool that it stands for.
pub fn pattern_table() -> (r: Vec<(String, String)>)
    ensures
        pair_texts(r@) == ai_patterns(),
{
    let r: Vec<(String, String)> = vec![
        (agent_word_text(), agent_title_text()),
        pair("codex", "Codex CLI"),
        pair("cursor", "Cursor"),
        pair("copilot", "Copilot"),
        pair("aider", "Aider"),
        pair("sgpt", "ShellGPT"),
        pair("ollama", "Ollama"),
        pair("gemini", "Gemini CLI"),
        pair("chatgpt", "ChatGPT CLI"),
        pair("cody", "Cody"),
        pair("opencode", "OpenCode"),
        pair("devin", "Devin"),
        pair("amp", "Amp"),
        pair("droid", "Droid"),
        pair("qwen", "Qwen CLI"),
        pair("kimi", "Kimi CLI"),
        pair("gh copilot", "GitHub Copilot CLI"),
    ];
    assert(pair_texts(r@) =~= ai_patterns());
    r
}

/// Whether a word can start after a character.
pub open spec fn is_boundary(c: char) -> bool {
    c == ' ' || c == '\t' || c == '|' || c == ';' || c == '`' || c == '$' || c == '(' || c == '/'
}

/// Whether a command shows a pattern. A pattern of several words may stand anywhere. One of a
/// single word has to stand, where it first stands, at the start of a word.
pub open spec fn shows(command: Seq<char>, pattern: Seq<char>) -> bool {
    if pattern.contains(' ') {
        has_part(command, pattern)
    } else {
        match place_of(command, pattern, 0) {
            Some(i) => i == 0 || is_boundary(command[i - 1]),
            None => false,
        }
    }
}

/// The tool of the first pattern that a command in lower case shows.
pub open spec fn tool_shown(
    command: Seq<char>,
    patterns: Seq<(Seq<char>, Seq<char>)>,
) -> Option<Seq<char>>
    decreases patterns.len(),
{
    if patterns.len() == 0 {
        None
    } else if shows(command, patterns[0].0) {
        Some(patterns[0].1)
    } else {
        tool_shown(command, patterns.drop_first())
    }
}

/// The tool that a command calls.
pub open spec fn tool_of(command: Seq<char>) -> Option<Seq<char>> {
    tool_shown(lowercase(command), ai_patterns())
}

proof fn lemma_tool_shown_skip(
    command: Seq<char>,
    patterns: Seq<(Seq<char>, Seq<char>)>,
    n: int,
)
    requires
        0 <= n <= patterns.len(),
        forall|i: int| 0 <= i < n ==> !shows(command, #[trigger] patterns[i].0),
    ensures
        tool_shown(command, patterns) == tool_shown(command, patterns.skip(n)),
    decreases n,
{
    if n > 0 {
        assert(!shows(command, patterns[0].0));
        let rest = patterns.drop_first();
        assert(rest.skip(n - 1) =~= patterns.skip(n));
        assert forall|i: int| 0 <= i < n - 1 implies !shows(command, #[trigger] rest[i].0) by {
            assert(!shows(command, patterns[i + 1].0));
        }
        lemma_tool_shown_skip(command, rest, n - 1);
    } else {
        assert(patterns.skip(0) =~= patterns);
    }
}

fn has_blank(chars: &Vec<char>) -> (r: bool)
    ensures
        r == chars@.contains(' '),
{
    let mut i: usize = 0;
    while i < chars.len()
        invariant
            i <= chars@.len(),
            forall|k: int| 0 <= k < i ==> chars@[k] != ' ',
        decreases chars@.len() - i,
    {
        if chars[i] == ' ' {
            assert(chars@[i as int] == ' ');
            return true;
        }
        i += 1;
    }
    false
}

fn shows_pattern(command: &Vec<char>, pattern: &str) -> (r: bool)
    ensures
        r == shows(command@, pattern@),
{
    let part = chars_of(pattern);
    if has_blank(&part) {
        return holds_part(command.as_slice(), part.as_slice());
    }
    proof {
        lemma_place_of(command@, pattern@, 0);
    }
    match find_part(command.as_slice(), part.as_slice(), 0) {
        Some(i) => {
            if i == 0 {
                true
            } else {
                let c = command[i - 1];
                c == ' ' || c == '\t' || c == '|' || c == ';' || c == '`' || c == '$' || c == '('
                    || c == '/'
            }
        },
        None => false,
    }
}

/// The tool that a command in lower case shows.
pub fn match_lowered(command: &str) -> (r: Option<String>)
    ensures
        text_opt(r) == tool_shown(command@, ai_patterns()),
{
    let chars = chars_of(command);
    let table = pattern_table();
    let ghost patterns = ai_patterns();
    let mut i: usize = 0;
    while i < table.len()
        invariant
            i <= table@.len(),
            chars@ == command@,
            patterns == ai_patterns(),
            pair_texts(table@) == patterns,
            forall|k: int| 0 <= k < i ==> !shows(command@, #[trigger] patterns[k].0),
        decreases table@.len() - i,
    {
        assert(patterns[i as int] == (table@[i as int].0@, table@[i as int].1@));
        if shows_pattern(&chars, table[i].0.as_str()) {
            proof {
                lemma_tool_shown_skip(command@, patterns, i as int);
                assert(patterns.skip(i as int)[0] == patterns[i as int]);
            }
            return Some(table[i].1.clone());
        }
        i += 1;
    }
    proof {
        lemma_tool_shown_skip(command@, patterns, i as int);
        assert(patterns.skip(i as int).len() == 0);
    }
    None
}

/// The tool that a command calls.
pub fn match_ai_tool(command: &str) -> (r: Option<String>)
    ensures
        text_opt(r) == tool_of(command@),
{
    let lower = to_lowercase(command);
    match_lowered(lower.as_str())
}

/// The regular expression type of `regex`.
#[verifier::external_type_specification]
#[verifier::external_body]
pub struct ExRegex(regex::Regex);

/// The pattern that a regular expression was made from, where it was made without any options.
pub uninterp spec fn pattern_of(re: regex::Regex) -> Option<Seq<char>>;

/// The first and the second group of the first match of a pattern in a text, where it matches.
pub uninterp spec fn captured(pattern: Seq<char>, text: Seq<char>) -> Option<
    (Seq<char>, Seq<char>),
>;

/// Calls `regex::Regex::new`.
///
/// Claims that the expression is made from the pattern. Of a pattern that is none, that it
/// matches nothing.
#[verifier::external_body]
fn compile(pattern: &str) -> (r: Option<regex::Regex>)
    ensures
        match r {
            Some(re) => pattern_of(re) == Some(pattern@),
            None => forall|text: Seq<char>| captured(pattern@, text) is None,
        },
{
    regex::Regex::new(pattern).ok()
}

/// The texts of a pair that may be missing.
pub open spec fn text_pair(pair: Option<(String, String)>) -> Option<(Seq<char>, Seq<char>)> {
    match pair {
        Some((a, b)) => Some((a@, b@)),
        None => None,
    }
}

/// Calls `regex::Regex::captures` and takes the first and the second group.
///
/// Claims of an expression without options that whether the text matches, and the groups, depend
/// on the pattern and the text alone. A match without either of the groups counts as none.
#[verifier::external_body]
fn capture_pair(re: &regex::Regex, text: &str) -> (r: Option<(String, String)>)
    ensures
        pattern_of(*re) matches Some(pattern) ==> text_pair(r) == captured(pattern, text@),
{
    let groups = re.captures(text)?;
    Some((groups.get(1)?.as_str().to_string(), groups.get(2)?.as_str().to_string()))
}

/// How zsh writes a line of its history: `: 1234567890:0;command`.
pub const ZSH_LINE: &'static str = r"^: (\d+):\d+;(.*)$";

/// A call of a tool, and when it took place where that is known.
#[verifier::ext_equal]
pub ghost struct ToolCall {
    pub tool: Seq<char>,
    pub time: Option<i64>,
}

/// The call that a line shows whose time and command, where it has them, are known. A line with
/// a time that is no number shows none.
pub open spec fn call_of_entry(
    line: Seq<char>,
    entry: Option<(Seq<char>, Seq<char>)>,
) -> Option<ToolCall> {
    match entry {
        Some((digits, command)) => match (written_number(digits), tool_of(command)) {
            (Some(ts), Some(tool)) => Some(ToolCall { tool, time: Some(ts) }),
            _ => None,
        },
        None => match tool_of(line) {
            Some(tool) => Some(ToolCall { tool, time: None }),
            None => None,
        },
    }
}

/// The calls in the lines of a zsh history.
pub open spec fn zsh_calls(all: Seq<Seq<char>>) -> Seq<ToolCall>
    decreases all.len(),
{
    if all.len() == 0 {
        Seq::empty()
    } else {
        let before = zsh_calls(all.drop_last());
        match call_of_entry(all.last(), captured(ZSH_LINE@, all.last())) {
            Some(call) => before.push(call),
            None => before,
        }
    }
}

/// The calls in some commands.
pub open spec fn command_calls(commands: Seq<Seq<char>>) -> Seq<ToolCall>
    decreases commands.len(),
{
    if commands.len() == 0 {
        Seq::empty()
    } else {
        let before = command_calls(commands.drop_last());
        match tool_of(commands.last()) {
            Some(tool) => before.push(ToolCall { tool, time: None }),
            None => before,
        }
    }
}

/// The commands in the lines of a fish history: `- cmd: command`.
pub open spec fn fish_commands(all: Seq<Seq<char>>) -> Seq<Seq<char>>
    decreases all.len(),
{
    if all.len() == 0 {
        Seq::empty()
    } else {
        let before = fish_commands(all.drop_last());
        let line = trimmed(all.last());
        if "- cmd: "@.is_prefix_of(line) {
            before.push(line.skip("- cmd: "@.len() as int))
        } else {
            before
        }
    }
}

/// The tools of some calls.
pub open spec fn tools(calls: Seq<ToolCall>) -> Seq<Seq<char>> {
    calls.map_values(|c: ToolCall| c.tool)
}

/// The times of some calls.
pub open spec fn call_times(calls: Seq<ToolCall>) -> Seq<i64>
    decreases calls.len(),
{
    if calls.len() == 0 {
        Seq::empty()
    } else {
        match calls.last().time {
            Some(ts) => call_times(calls.drop_last()).push(ts),
            None => call_times(calls.drop_last()),
        }
    }
}

/// The calls by the day.
pub open spec fn call_buckets(times: Seq<i64>) -> Map<Seq<char>, DailyBucket> {
    Map::new(
        |date: Seq<char>| times_on(times, date).len() > 0,
        |date: Seq<char>|
            DailyBucket {
                hours: Hours { seconds: 0 },
                tokens: 0,
                sessions: 0,
                invocations: Some(times_on(times, date).len() as u64),
            },
    )
}

/// What the shells report of some calls: tools, times and numbers, and never a command.
pub open spec fn shell_report(calls: Seq<ToolCall>) -> ProviderReport {
    let times = call_times(calls);
    ProviderReport {
        invocations: Some(capped(calls.len() as int)),
        first_seen: first_time(times),
        last_seen: last_time(times),
        daily_buckets: if call_buckets(sorted_times(times)) =~= Map::empty() {
            None
        } else {
            Some(call_buckets(sorted_times(times)))
        },
        metadata: Some(Map::empty().insert("tools"@, tally_of(tools(calls)))),
        ..ProviderReport::blank("Shell History"@)
    }
}

/// A command calls the tool of the first pattern that it shows in lower case, and no tool if it shows
/// none.
pub proof fn law_first_pattern_names_the_tool(command: Seq<char>, k: int)
    requires
        0 <= k <= ai_patterns().len(),
        forall|i: int| 0 <= i < k ==> !shows(lowercase(command), #[trigger] ai_patterns()[i].0),
        k < ai_patterns().len() ==> shows(lowercase(command), ai_patterns()[k].0),
    ensures
        tool_of(command) == if k < ai_patterns().len() {
            Some(ai_patterns()[k].1)
        } else {
            None
        },
{
    let all = ai_patterns();
    lemma_tool_shown_skip(lowercase(command), all, k);
    if k < all.len() {
        assert(all.skip(k)[0] == all[k]);
    } else {
        assert(all.skip(k).len() == 0);
    }
}

/// A pattern of one word is shown where it stands at the start of the command, or where it first stands
/// right after a blank, a tab, a pipe, a semicolon, a backtick, a dollar sign, an opening bracket or a
/// slash. One of several words is shown wherever it stands.
pub proof fn law_patterns_start_words(command: Seq<char>, pattern: Seq<char>, i: int)
    requires
        stands_at(command, pattern, i),
        forall|j: int| 0 <= j < i ==> !stands_at(command, pattern, j),
    ensures
        pattern.contains(' ') ==> shows(command, pattern),
        !pattern.contains(' ') && i == 0 ==> shows(command, pattern),
        !pattern.contains(' ') && i > 0 ==> (shows(command, pattern) <==> [
            ' ',
            '\t',
            '|',
            ';',
            '`',
            '$',
            '(',
            '/',
        ]@.contains(command[i - 1])),
{
    lemma_place_of(command, pattern, 0);
    let marks = [' ', '\t', '|', ';', '`', '$', '(', '/']@;
    if i > 0 {
        let c = command[i - 1];
        if marks.contains(c) {
            let k = marks.index_of(c);
            assert(marks[k] == c);
        }
        assert(marks[0] == ' ' && marks[1] == '\t' && marks[2] == '|' && marks[3] == ';');
        assert(marks[4] == '`' && marks[5] == '$' && marks[6] == '(' && marks[7] == '/');
    }
}

/// Every tool that is told of is looked for by its own word.
pub proof fn law_known_tools_are_looked_for()
    ensures
        ai_patterns().contains((agent_word(), agent_title())),
        ai_patterns().contains(("codex"@, "Codex CLI"@)),
        ai_patterns().contains(("cursor"@, "Cursor"@)),
        ai_patterns().contains(("copilot"@, "Copilot"@)),
        ai_patterns().contains(("aider"@, "Aider"@)),
        ai_patterns().contains(("sgpt"@, "ShellGPT"@)),
        ai_patterns().contains(("ollama"@, "Ollama"@)),
        ai_patterns().contains(("gemini"@, "Gemini CLI"@)),
        ai_patterns().contains(("chatgpt"@, "ChatGPT CLI"@)),
        ai_patterns().contains(("cody"@, "Cody"@)),
        ai_patterns().contains(("opencode"@, "OpenCode"@)),
        ai_patterns().contains(("devin"@, "Devin"@)),
        ai_patterns().contains(("amp"@, "Amp"@)),
        ai_patterns().contains(("droid"@, "Droid"@)),
        ai_patterns().contains(("qwen"@, "Qwen CLI"@)),
        ai_patterns().contains(("kimi"@, "Kimi CLI"@)),
        ai_patterns().contains(("gh copilot"@, "GitHub Copilot CLI"@)),
{
    assert(ai_patterns()[0] == (agent_word(), agent_title()));
    assert(ai_patterns()[1] == ("codex"@, "Codex CLI"@));
    assert(ai_patterns()[2] == ("cursor"@, "Cursor"@));
    assert(ai_patterns()[3] == ("copilot"@, "Copilot"@));
    assert(ai_patterns()[4] == ("aider"@, "Aider"@));
    assert(ai_patterns()[5] == ("sgpt"@, "ShellGPT"@));
    assert(ai_patterns()[6] == ("ollama"@, "Ollama"@));
    assert(ai_patterns()[7] == ("gemini"@, "Gemini CLI"@));
    assert(ai_patterns()[8] == ("chatgpt"@, "ChatGPT CLI"@));
    assert(ai_patterns()[9] == ("cody"@, "Cody"@));
    assert(ai_patterns()[10] == ("opencode"@, "OpenCode"@));
    assert(ai_patterns()[11] == ("devin"@, "Devin"@));
    assert(ai_patterns()[12] == ("amp"@, "Amp"@));
    assert(ai_patterns()[13] == ("droid"@, "Droid"@));
    assert(ai_patterns()[14] == ("qwen"@, "Qwen CLI"@));
    assert(ai_patterns()[15] == ("kimi"@, "Kimi CLI"@));
    assert(ai_patterns()[16] == ("gh copilot"@, "GitHub Copilot CLI"@));
}

/// A pattern that stands nowhere in a command is not shown.
pub proof fn law_absent_patterns_are_not_shown(command: Seq<char>, pattern: Seq<char>)
    requires
        forall|j: int| !stands_at(command, pattern, j),
    ensures
        !shows(command, pattern),
{
    lemma_place_of(command, pattern, 0);
}

/// Every line of a history is looked at by itself. In zsh a line with a time calls a tool at that time,
/// if its command does; one laid out otherwise calls without a time. In bash every line is a command,
/// and in fish every line that starts with `- cmd: ` holds one.
pub proof fn law_every_line_may_call(all: Seq<Seq<char>>, line: Seq<char>)
    ensures
        ({
            let entry = captured(ZSH_LINE@, line);
            let tool = match entry {
                Some((_, command)) => tool_of(command),
                None => tool_of(line),
            };
            let time = match entry {
                Some((digits, _)) => written_number(digits),
                None => None,
            };
            let counts = tool is Some && (entry is None || time is Some);
            &&& counts ==> zsh_calls(all.push(line)) == zsh_calls(all).push(
                ToolCall { tool: tool->0, time },
            )
            &&& !counts ==> zsh_calls(all.push(line)) == zsh_calls(all)
        }),
        tool_of(line) matches Some(tool) ==> command_calls(all.push(line)) == command_calls(
            all,
        ).push(ToolCall { tool, time: None }),
        tool_of(line) is None ==> command_calls(all.push(line)) == command_calls(all),
        ({
            let text = trimmed(line);
            let marked = text.len() >= 7 && text.take(7) == "- cmd: "@;
            &&& marked ==> fish_commands(all.push(line)) == fish_commands(all).push(text.skip(7))
            &&& !marked ==> fish_commands(all.push(line)) == fish_commands(all)
        }),
        zsh_calls(Seq::empty()).len() == 0,
        command_calls(Seq::empty()).len() == 0,
        fish_commands(Seq::empty()).len() == 0,
{
    assert(all.push(line).drop_last() =~= all);
    reveal_strlit("- cmd: ");
    let text = trimmed(line);
    let mark = "- cmd: "@;
    assert(mark.len() == 7);
    if text.len() >= 7 && text.take(7) == mark {
        assert(mark.is_prefix_of(text));
    }
    if mark.is_prefix_of(text) {
        assert(text.take(7) =~= mark);
    }
}

/// Every call is reported, with how often each tool was called. The times of the calls that have one
/// give the first and the last, and the calls of each day.
pub proof fn law_calls_are_reported(calls: Seq<ToolCall>, date: Seq<char>)
    requires
        calls.len() <= u64::MAX,
    ensures
        ({
            let report = shell_report(calls);
            let times = call_times(calls);
            let day = sorted_times(times).filter(
                |ts: i64| crate::time_util::date_of_day(ts as int / 86_400) == Some(date),
            );
            &&& report.provider == "Shell History"@
            &&& report.invocations == Some(calls.len() as u64)
            &&& report.first_seen == first_time(times)
            &&& report.last_seen == last_time(times)
            &&& report.metadata is Some && report.metadata->0.contains_key("tools"@)
            &&& report.metadata->0["tools"@] == tally_of(
                calls.map_values(|c: ToolCall| c.tool),
            )
            &&& day.len() > 0 ==> report.daily_buckets is Some
                && report.daily_buckets->0.contains_key(date)
            &&& 0 < day.len() <= u64::MAX ==> report.daily_buckets->0[date].invocations == Some(
                day.len() as u64,
            ) && report.daily_buckets->0[date].hours.seconds == 0
                && report.daily_buckets->0[date].tokens == 0
                && report.daily_buckets->0[date].sessions == 0
            &&& day.len() == 0 && report.daily_buckets is Some
                ==> !report.daily_buckets->0.contains_key(date)
            &&& report.hours is None && report.tokens is None && report.visits is None
        }),
{
    let times = sorted_times(call_times(calls));
    let on = |ts: i64| crate::time_util::utc_date(ts) == Some(date);
    assert(on =~= |ts: i64| crate::time_util::date_of_day(ts as int / 86_400) == Some(date));
    assert(times_on(times, date) == times.filter(
        |ts: i64| crate::time_util::date_of_day(ts as int / 86_400) == Some(date),
    ));
    assert(tools(calls) =~= calls.map_values(|c: ToolCall| c.tool));
    if times_on(times, date).len() > 0 {
        assert(call_buckets(times).contains_key(date));
    }
}

/// A call with a time adds it; one without adds none.
pub proof fn law_call_tells_its_time(calls: Seq<ToolCall>, call: ToolCall)
    ensures
        call.time matches Some(ts) ==> call_times(calls.push(call)) == call_times(calls).push(ts),
        call.time is None ==> call_times(calls.push(call)) == call_times(calls),
        call_times(Seq::empty()).len() == 0,
{
    assert(calls.push(call).drop_last() =~= calls);
}

/// The history files of the shells, where they are there.
pub struct ShellHistories {
    /// The bytes of the zsh history, in whatever encoding.
    pub zsh: Option<Vec<u8>>,
    /// The lines of the bash history.
    pub bash: Option<Vec<String>>,
    /// The lines of the fish history.
    pub fish: Option<Vec<String>>,
}

impl ShellHistories {
    /// The calls in all histories.
    pub open spec fn calls(&self) -> Seq<ToolCall> {
        (match self.zsh {
            Some(bytes) => zsh_calls(lines(utf8_lossy(bytes@))),
            None => Seq::empty(),
        }) + (match self.bash {
            Some(all) => command_calls(texts(all@)),
            None => Seq::empty(),
        }) + (match self.fish {
            Some(all) => command_calls(fish_commands(texts(all@))),
            None => Seq::empty(),
        })
    }
}

/// The calls of all shells count: those of zsh, then those of bash, then those of fish. A history that
/// is not there has none.
pub proof fn law_all_shells_count(histories: ShellHistories)
    ensures
        ({
            let zsh = match histories.zsh {
                Some(bytes) => zsh_calls(lines(utf8_lossy(bytes@))),
                None => Seq::empty(),
            };
            let bash = match histories.bash {
                Some(all) => command_calls(texts(all@)),
                None => Seq::empty(),
            };
            let fish = match histories.fish {
                Some(all) => command_calls(fish_commands(texts(all@))),
                None => Seq::empty(),
            };
            let calls = histories.calls();
            &&& calls.len() == zsh.len() + bash.len() + fish.len()
            &&& calls.take(zsh.len() as int) == zsh
            &&& calls.subrange(zsh.len() as int, (zsh.len() + bash.len()) as int) == bash
            &&& calls.skip((zsh.len() + bash.len()) as int) == fish
        }),
{
    let zsh = match histories.zsh {
        Some(bytes) => zsh_calls(lines(utf8_lossy(bytes@))),
        None => Seq::empty(),
    };
    let bash = match histories.bash {
        Some(all) => command_calls(texts(all@)),
        None => Seq::empty(),
    };
    let fish = match histories.fish {
        Some(all) => command_calls(fish_commands(texts(all@))),
        None => Seq::empty(),
    };
    let calls = histories.calls();
    assert(calls.take(zsh.len() as int) =~= zsh);
    assert(calls.subrange(zsh.len() as int, (zsh.len() + bash.len()) as int) =~= bash);
    assert(calls.skip((zsh.len() + bash.len()) as int) =~= fish);
}

/// The calls that have been met.
pub struct CallCount {
    tally: Tally,
    times: Vec<i64>,
    total: u64,
    calls: Ghost<Seq<ToolCall>>,
}

impl View for CallCount {
    type V = Seq<ToolCall>;

    closed spec fn view(&self) -> Seq<ToolCall> {
        self.calls@
    }
}

impl CallCount {
    pub closed spec fn wf(&self) -> bool {
        &&& self.tally.wf()
        &&& self.tally@ == tools(self@)
        &&& self.times@ == call_times(self@)
        &&& self.total == capped(self@.len() as int)
    }

    /// No calls.
    pub fn new() -> (r: CallCount)
        ensures
            r.wf(),
            r@ == Seq::<ToolCall>::empty(),
    {
        let r = CallCount {
            tally: Tally::new(),
            times: Vec::new(),
            total: 0,
            calls: Ghost(Seq::empty()),
        };
        assert(r.tally@ =~= tools(r@));
        r
    }

    fn note(&mut self, tool: &str, time: Option<i64>)
        requires
            old(self).wf(),
        ensures
            final(self).wf(),
            final(self)@ == old(self)@.push(ToolCall { tool: tool@, time }),
    {
        let ghost before = self@;
        let ghost call = ToolCall { tool: tool@, time };
        self.tally.count(tool);
        if let Some(ts) = time {
            self.times.push(ts);
        }
        self.total = self.total.saturating_add(1);
        self.calls = Ghost(before.push(call));
        proof {
            assert(before.push(call).drop_last() =~= before);
            assert(self.tally@ =~= tools(self@));
        }
    }
}

/// Notes the call that a line shows whose time and command, where it has them, are known.
pub fn note_entry(calls: &mut CallCount, line: &str, entry: Option<(String, String)>)
    requires
        old(calls).wf(),
    ensures
        final(calls).wf(),
        final(calls)@ == match call_of_entry(line@, text_pair(entry)) {
            Some(call) => old(calls)@.push(call),
            None => old(calls)@,
        },
{
    match entry {
        Some((digits, command)) => {
            if let Some(ts) = parse_number(digits.as_str()) {
                if let Some(tool) = match_ai_tool(command.as_str()) {
                    calls.note(tool.as_str(), Some(ts));
                }
            }
        },
        None => {
            if let Some(tool) = match_ai_tool(line) {
                calls.note(tool.as_str(), None);
            }
        },
    }
}

/// Counts the calls in a zsh history. A line that is not laid out as zsh does, such as one that
/// goes on with the line before, counts without a time.
pub fn parse_zsh_history(content: &[u8], calls: &mut CallCount)
    requires
        old(calls).wf(),
    ensures
        final(calls).wf(),
        final(calls)@ == old(calls)@ + zsh_calls(lines(utf8_lossy(content@))),
{
    let text = lossy_text(content);
    let list = lines_of(text.as_str());
    let re = compile(ZSH_LINE);
    let ghost start = calls@;
    let ghost all = texts(list@);
    let mut i: usize = 0;
    assert(start + zsh_calls(all.take(0)) =~= start);
    while i < list.len()
        invariant
            i <= list@.len(),
            calls.wf(),
            all == texts(list@),
            match re {
                Some(re) => pattern_of(re) == Some(ZSH_LINE@),
                None => forall|text: Seq<char>| captured(ZSH_LINE@, text) is None,
            },
            calls@ == start + zsh_calls(all.take(i as int)),
        decreases list@.len() - i,
    {
        proof {
            assert(all.take(i + 1).drop_last() =~= all.take(i as int));
            assert(all.take(i + 1).last() == list@[i as int]@);
        }
        let line = list[i].as_str();
        let entry = match &re {
            Some(re) => capture_pair(re, line),
            None => None,
        };
        note_entry(calls, line, entry);
        i += 1;
        assert(calls@ =~= start + zsh_calls(all.take(i as int)));
    }
    assert(all.take(i as int) =~= all);
}

/// Counts the calls in a bash history, whose lines are commands.
pub fn parse_bash_history(list: &Vec<String>, calls: &mut CallCount)
    requires
        old(calls).wf(),
    ensures
        final(calls).wf(),
        final(calls)@ == old(calls)@ + command_calls(texts(list@)),
{
    let ghost start = calls@;
    let ghost all = texts(list@);
    let mut i: usize = 0;
    assert(start + command_calls(all.take(0)) =~= start);
    while i < list.len()
        invariant
            i <= list@.len(),
            calls.wf(),
            all == texts(list@),
            calls@ == start + command_calls(all.take(i as int)),
        decreases list@.len() - i,
    {
        proof {
            assert(all.take(i + 1).drop_last() =~= all.take(i as int));
            assert(all.take(i + 1).last() == list@[i as int]@);
        }
        if let Some(tool) = match_ai_tool(list[i].as_str()) {
            calls.note(tool.as_str(), None);
        }
        i += 1;
        assert(calls@ =~= start + command_calls(all.take(i as int)));
    }
    assert(all.take(i as int) =~= all);
}

/// The commands in the lines of a fish history.
pub fn fish_command_list(list: &Vec<String>) -> (r: Vec<String>)
    ensures
        texts(r@) == fish_commands(texts(list@)),
{
    let mut r: Vec<String> = Vec::new();
    let prefix = chars_of("- cmd: ");
    let ghost all = texts(list@);
    let mut i: usize = 0;
    assert(texts(r@) =~= fish_commands(all.take(0)));
    while i < list.len()
        invariant
            i <= list@.len(),
            all == texts(list@),
            prefix@ == "- cmd: "@,
            texts(r@) == fish_commands(all.take(i as int)),
        decreases list@.len() - i,
    {
        let ghost before = r@;
        proof {
            assert(all.take(i + 1).drop_last() =~= all.take(i as int));
            assert(all.take(i + 1).last() == list@[i as int]@);
        }
        let line = trim(list[i].as_str());
        let chars = chars_of(line.as_str());
        assert("- cmd: "@.is_prefix_of(line@) == stands_at(line@, "- cmd: "@, 0));
        if part_at(chars.as_slice(), prefix.as_slice(), 0) {
            let command = slice_of(chars.as_slice(), prefix.len(), chars.len());
            assert(command@ =~= line@.skip(prefix@.len() as int));
            r.push(command);
            assert(texts(r@) =~= texts(before).push(command@));
        }
        i += 1;
    }
    assert(all.take(i as int) =~= all);
    r
}

/// Counts the calls in a fish history.
pub fn parse_fish_history(list: &Vec<String>, calls: &mut CallCount)
    requires
        old(calls).wf(),
    ensures
        final(calls).wf(),
        final(calls)@ == old(calls)@ + command_calls(fish_commands(texts(list@))),
{
    let commands = fish_command_list(list);
    parse_bash_history(&commands, calls);
}

/// The calls by the day.
pub fn bucket_calls(times: &[i64]) -> (r: StrMap<DailyBucket>)
    ensures
        r.wf(),
        r@ == call_buckets(times@),
{
    let groups = group_by_day(times);
    let ghost goal = call_buckets(times@);
    let mut buckets: StrMap<DailyBucket> = StrMap::new();
    let mut i: usize = 0;
    proof {
        groups.lemma_shape();
    }
    while i < groups.len()
        invariant
            i <= groups.names().len(),
            groups.wf(),
            buckets.wf(),
            goal == call_buckets(times@),
            forall|date: Seq<char>| #[trigger]
                groups@.contains_key(date) <==> times_on(times@, date).len() > 0,
            forall|date: Seq<char>| #[trigger]
                groups@.contains_key(date) ==> groups@[date]@ == times_on(times@, date),
            forall|date: Seq<char>| #[trigger]
                buckets@.contains_key(date) <==> groups.names().take(i as int).contains(date),
            forall|date: Seq<char>| #[trigger]
                buckets@.contains_key(date) ==> buckets@[date] == goal[date],
        decreases groups.names().len() - i,
    {
        let list = groups.value(i);
        let ghost date = groups.names()[i as int];
        proof {
            groups.lemma_shape();
            assert(groups@.contains_key(groups.names()[i as int]));
            assert(groups.names().take(i + 1) =~= groups.names().take(i as int).push(date));
            assert forall|d: Seq<char>| groups.names().take(i + 1).contains(d) <==> (
            groups.names().take(i as int).contains(d) || d == date) by {
                if groups.names().take(i as int).contains(d) {
                    let j = groups.names().take(i as int).index_of(d);
                    assert(groups.names().take(i + 1)[j] == d);
                }
                assert(groups.names().take(i + 1)[i as int] == date);
            }
        }
        let bucket = DailyBucket {
            hours: Hours { seconds: 0 },
            tokens: 0,
            sessions: 0,
            invocations: Some(list.len() as u64),
        };
        buckets.insert(groups.key(i).clone(), bucket);
        i += 1;
    }
    proof {
        groups.lemma_shape();
        assert(groups.names().take(i as int) =~= groups.names());
        assert forall|date: Seq<char>| buckets@.contains_key(date) <==> goal.contains_key(date) by {
            assert(groups@.contains_key(date) <==> groups.names().contains(date));
        }
        assert(buckets@ =~= goal);
    }
    buckets
}

impl ShellHistoryProvider {
    /// Calls of AI tools from the histories of the shells.
    pub fn scan(&self, histories: &ShellHistories) -> (r: Result<ProviderResult, ScanError>)
        ensures
            match r {
                Ok(result) => histories.calls().len() > 0 && result.wf() && result@
                    == shell_report(histories.calls()),
                Err(error) => histories.calls().len() == 0 && error.is_not_found(
                    "No AI tool invocations found in shell history"@,
                ),
            },
    {
        let mut calls = CallCount::new();
        if let Some(bytes) = &histories.zsh {
            parse_zsh_history(bytes.as_slice(), &mut calls);
        }
        if let Some(list) = &histories.bash {
            parse_bash_history(list, &mut calls);
        }
        if let Some(list) = &histories.fish {
            parse_fish_history(list, &mut calls);
        }
        assert(calls@ =~= histories.calls());
        if calls.total == 0 {
            return Err(
                ScanError::NotFound("No AI tool invocations found in shell history".to_string()),
            );
        }
        let (_, first_seen, last_seen) = time_range(calls.times.as_slice());
        let mut result = ProviderResult::new("Shell History");
        result.invocations = Some(calls.total);
        result.first_seen = first_seen;
        result.last_seen = last_seen;
        let sorted = sort_times(calls.times.as_slice());
        let buckets = bucket_calls(sorted.as_slice());
        if !buckets.is_empty() {
            result.daily_buckets = Some(buckets);
        }
        let mut metadata: StrMap<MetaValue> = StrMap::new();
        metadata.insert("tools".to_string(), calls.tally.to_record());
        result.metadata = Some(metadata);
        assert(result@.metadata->0 =~= Map::empty().insert(
            "tools"@,
            tally_of(tools(histories.calls())),
        ));
        Ok(result)
    }
}

} // verus!
