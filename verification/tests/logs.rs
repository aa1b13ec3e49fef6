use howmuchiai::logs::{DocumentFile, LogFile};
use howmuchiai::names::{agent_name_text, agent_title_text, agent_word_text};
use howmuchiai::providers::amp::AmpProvider;
use howmuchiai::providers::claude_code::{is_session_log, ClaudeCodeProvider};
use howmuchiai::providers::droid::{
    hyphenate, normalize_model_name, strip_decoration, DroidProvider,
};
use howmuchiai::providers::kimi::KimiProvider;
use howmuchiai::providers::openclaw::{read_sessions_index, IndexedLog, OpenClawProvider};
use howmuchiai::providers::opencode::{parse_session_info, DataDir, MessageRow, OpenCodeProvider};
use howmuchiai::providers::qwen::QwenProvider;
use howmuchiai::types::ScanError;

fn log(path: &str, stem: &str, parent: &str, modified: Option<i64>, lines: &[&str]) -> LogFile {
    LogFile {
        path: path.to_string(),
        stem: Some(stem.to_string()),
        parent: Some(parent.to_string()),
        modified,
        lines: lines.iter().map(|l| l.to_string()).collect(),
    }
}

fn document(stem: &str, parent: &str, modified: Option<i64>, content: &str) -> DocumentFile {
    DocumentFile {
        stem: Some(stem.to_string()),
        parent: Some(parent.to_string()),
        modified,
        content: content.to_string(),
    }
}

#[test]
fn agent_names_come_from_its_id() {
    let mut id = agent_word_text();
    id.push_str("_code");
    assert_eq!(id, "claude_code");
    assert_eq!(agent_title_text(), format!("{} Code", agent_name_text()));
    assert_eq!(agent_name_text().to_lowercase(), agent_word_text());
    assert_ne!(agent_name_text(), agent_word_text());
}

#[test]
fn agent_turns_count_once_across_files() {
    let turn = r#"{"type":"assistant","timestamp":"2024-01-15T00:00:00Z","sessionId":"s1","requestId":"r","message":{"id":"m","model":"x","usage":{"input_tokens":10,"output_tokens":5,"cache_creation_input_tokens":3,"cache_read_input_tokens":2}}}"#;
    let user = r#"{"type":"user","timestamp":"2024-01-15T00:10:00Z","sessionId":"s1"}"#;
    let files = vec![
        log("/p/one.jsonl", "one", "p", None, &[turn, "", "broken", user]),
        log("/p/two.jsonl", "two", "p", None, &[turn]),
    ];
    let r = ClaudeCodeProvider.scan(&files).expect("result");
    assert_eq!(r.provider, agent_title_text());
    let tokens = r.tokens.unwrap();
    assert_eq!(tokens.input_tokens, 10);
    assert_eq!(tokens.output_tokens, 5);
    assert_eq!(tokens.cache_creation_tokens, 3);
    assert_eq!(tokens.cache_read_tokens, 2);
    assert_eq!(tokens.total, 20);
    assert_eq!(r.models.as_ref().unwrap().get("x").unwrap().tokens, tokens);
    assert_eq!(r.sessions, Some(1));
    assert_eq!(r.hours.unwrap().seconds, 600);
    assert_eq!(r.first_seen, Some(1_705_276_800));
    assert_eq!(r.last_seen, Some(1_705_277_400));
    let day = r.daily_buckets.as_ref().unwrap().get("2024-01-15").unwrap();
    assert_eq!(day.tokens, 20);
    assert_eq!(day.hours.seconds, 600);
}

#[test]
fn agent_turns_without_ids_all_count() {
    let turn = r#"{"type":"assistant","message":{"usage":{"output_tokens":5}}}"#;
    let r = ClaudeCodeProvider
        .scan(&vec![log("/p/a.jsonl", "a", "p", None, &[turn, turn])])
        .expect("result");
    assert_eq!(r.tokens.unwrap().output_tokens, 10);
    assert!(r.models.as_ref().unwrap().get("unknown").is_some());
    assert_eq!(r.sessions, Some(0));
    assert!(r.daily_buckets.is_none());
}

#[test]
fn subagents_have_time_but_no_sessions() {
    let line = r#"{"type":"user","timestamp":"2024-01-15T00:00:00Z","sessionId":"sub"}"#;
    let r = ClaudeCodeProvider
        .scan(&vec![log("/p/subagents/a.jsonl", "a", "subagents", None, &[line])])
        .expect("result");
    assert_eq!(r.sessions, Some(0));
    assert_eq!(r.hours.unwrap().seconds, 60);
    assert!(r.models.is_none());
}

#[test]
fn agent_logs_may_be_missing() {
    let words = format!("No {} JSONL files found", agent_title_text());
    assert!(matches!(
        ClaudeCodeProvider.scan(&vec![]),
        Err(ScanError::NotFound(s)) if s == words
    ));
    assert!(is_session_log("session.jsonl"));
    assert!(!is_session_log("audit.jsonl"));
}

#[test]
fn amp_messages_add_only_what_the_ledger_lacks() {
    let content = r#"{
        "id":"T-1","created":1705276800000,
        "usageLedger":{"events":[
            {"timestamp":"2024-01-15T00:10:00Z","model":"m","tokens":{"input":10,"output":5,"cache_read_input":1,"cache_creation_input":2}},
            {"model":"m","tokens":{"input":0,"output":0}},
            {"model":"m"}
        ]},
        "messages":[
            {"role":"user","usage":{"input_tokens":99}},
            {"role":"assistant","messageId":1,"model":"m","usage":{"input_tokens":10,"output_tokens":5,"cache_read_input_tokens":1,"cache_creation_input_tokens":2}},
            {"role":"assistant","messageId":2,"model":"n","usage":{"input":7,"output":1}},
            {"role":"assistant","messageId":2,"model":"n","usage":{"input":8,"output":1}},
            {"role":"assistant","id":"x"}
        ]}"#;
    let r = AmpProvider
        .scan(1, &vec![document("f", "d", Some(5), content), document("g", "d", None, "broken")])
        .expect("result");
    let tokens = r.tokens.unwrap();
    assert_eq!(tokens.input_tokens, 17);
    assert_eq!(tokens.output_tokens, 6);
    assert_eq!(tokens.cache_read_tokens, 1);
    assert_eq!(tokens.cache_creation_tokens, 2);
    assert_eq!(r.models.as_ref().unwrap().len(), 2);
    assert_eq!(r.sessions, Some(1));
    assert_eq!(r.first_seen, Some(1_705_276_800));
    assert_eq!(r.last_seen, Some(1_705_277_400));
    assert_eq!(r.hours.unwrap().seconds, 600);
    let day = r.daily_buckets.as_ref().unwrap().get("2024-01-15").unwrap();
    assert_eq!(day.tokens, 23);
    assert_eq!(day.hours.seconds, 0);
}

#[test]
fn amp_without_threads_is_not_found() {
    assert!(matches!(
        AmpProvider.scan(0, &vec![]),
        Err(ScanError::NotFound(s)) if s == "Amp threads dir not found"
    ));
    assert!(matches!(
        AmpProvider.scan(1, &vec![]),
        Err(ScanError::NotFound(s)) if s == "No Amp thread data found"
    ));
    let bare = AmpProvider.scan(1, &vec![document("stem", "d", None, "{}")]).expect("a session");
    assert_eq!(bare.sessions, Some(1));
    assert!(bare.models.is_none() && bare.first_seen.is_none());
}

#[test]
fn openclaw_takes_the_model_at_work() {
    let lines = [
        r#"{"type":"model_change","model":"first","provider":"p"}"#,
        r#"{"type":"message","message":{"role":"assistant","usage":{"input":1,"output":2,"cache_read":3,"cache_write":4},"timestamp":"2024-01-15T00:00:00Z"}}"#,
        r#"{"type":"custom","snapshot":{"model":"second"}}"#,
        r#"{"type":"message","message":{"role":"assistant","usage":{"input":10}}}"#,
        r#"{"type":"message","message":{"role":"assistant","model":"own","usage":{"output":20}}}"#,
        r#"{"type":"message","message":{"role":"user","usage":{"output":99}}}"#,
        r#"{"type":"message","message":{"role":"assistant","usage":{}}}"#,
        r#"{"type":"message"}"#,
    ];
    let r = OpenClawProvider
        .scan(1, &vec![log("/o/s.jsonl", "s", "o", Some(1_705_276_860), &lines)])
        .expect("result");
    let models = r.models.as_ref().unwrap();
    assert_eq!(models.get("first").unwrap().tokens.total, 10);
    assert_eq!(models.get("second").unwrap().tokens.input_tokens, 10);
    assert_eq!(models.get("own").unwrap().tokens.output_tokens, 20);
    assert_eq!(r.sessions, Some(1));
    assert_eq!(r.last_seen, Some(1_705_276_860));
    assert_eq!(r.daily_buckets.as_ref().unwrap().get("2024-01-15").unwrap().tokens, 33);
    assert!(matches!(
        OpenClawProvider.scan(0, &vec![]),
        Err(ScanError::NotFound(s)) if s == "OpenClaw dir not found"
    ));
    assert!(matches!(
        OpenClawProvider.scan(2, &vec![]),
        Err(ScanError::NotFound(s)) if s == "No OpenClaw transcript data found"
    ));
}

#[test]
fn openclaw_indexes_point_to_paths_and_sessions() {
    let targets = read_sessions_index(
        r#"{"sessions":["plain",{"sessionId":"s"},{"id":"i","file":"f.jsonl"},{"path":"/abs.jsonl"},{},7]}"#,
    )
    .expect("index");
    let words: Vec<String> = targets
        .iter()
        .map(|t| match t {
            IndexedLog::AtPath(p) => format!("path {p}"),
            IndexedLog::OfSession(s) => format!("session {s}"),
        })
        .collect();
    assert_eq!(
        words,
        vec!["session plain", "session s", "path f.jsonl", "path /abs.jsonl"]
    );
    assert_eq!(read_sessions_index("[\"a\"]").expect("list").len(), 1);
    assert!(read_sessions_index("{}").is_none());
    assert!(read_sessions_index("broken").is_none());
}

#[test]
fn kimi_counts_a_status_update_once() {
    let update = r#"{"type":"StatusUpdate","message_id":"m1","timestamp":1705276800.75,"payload":{"TokenUsage":{"input_other":5,"output":6,"input_cache_read":7,"input_cache_creation":8}}}"#;
    let other = r#"{"type":"StatusUpdate","payload":{"token_usage":{"output":1}}}"#;
    let ignored = r#"{"type":"Other","payload":{"TokenUsage":{"output":100}}}"#;
    let file = log("/k/u1/wire.jsonl", "wire", "u1", Some(42), &[update, update, other, ignored]);
    let r = KimiProvider.scan(None, &vec![file]).expect("result");
    let usage = r.models.as_ref().unwrap().get("kimi-for-coding").unwrap().tokens;
    assert_eq!(usage.input_tokens, 5);
    assert_eq!(usage.output_tokens, 7);
    assert_eq!(usage.cache_read_tokens, 7);
    assert_eq!(usage.cache_creation_tokens, 8);
    assert_eq!(r.first_seen, Some(42));
    assert_eq!(r.last_seen, Some(1_705_276_800));
    assert_eq!(r.sessions, Some(1));
}

#[test]
fn kimi_takes_the_model_of_its_configuration() {
    let update = r#"{"type":"StatusUpdate","payload":{"TokenUsage":{"output":6}}}"#;
    let file = || vec![log("/k/u1/wire.jsonl", "wire", "u1", None, &[update])];
    let r = KimiProvider.scan(Some(r#"{"model":"mine"}"#), &file()).expect("result");
    assert!(r.models.as_ref().unwrap().get("mine").is_some());
    let r = KimiProvider.scan(Some("broken"), &file()).expect("result");
    assert!(r.models.as_ref().unwrap().get("kimi-for-coding").is_some());
    assert!(matches!(
        KimiProvider.scan(None, &vec![]),
        Err(ScanError::NotFound(s)) if s == "No Kimi wire.jsonl files found"
    ));
    assert!(matches!(
        KimiProvider.scan(None, &vec![log("/k", "w", "u", None, &[])]),
        Err(ScanError::NotFound(s)) if s == "No Kimi token data found"
    ));
}

#[test]
fn qwen_falls_back_to_project_and_file() {
    let named = r#"{"type":"assistant","sessionId":"named","model":"q","timestamp":"2024-01-15T00:00:00Z","usageMetadata":{"promptTokenCount":1,"candidatesTokenCount":2,"thoughtsTokenCount":3,"cachedContentTokenCount":4}}"#;
    let bare = r#"{"type":"assistant","sessionId":"","usageMetadata":{"promptTokenCount":1}}"#;
    let idle = r#"{"type":"assistant","usageMetadata":{}}"#;
    let file = log("/q/proj/chats/c.jsonl", "c", "proj", Some(1_705_276_900), &[named, bare, idle]);
    let r = QwenProvider.scan(&vec![file]).expect("result");
    assert_eq!(r.sessions, Some(2));
    let q = r.models.as_ref().unwrap().get("q").unwrap().tokens;
    assert_eq!((q.input_tokens, q.output_tokens, q.cache_read_tokens), (1, 5, 4));
    assert_eq!(r.daily_buckets.as_ref().unwrap().get("2024-01-15").unwrap().tokens, 7);
    assert!(matches!(
        QwenProvider.scan(&vec![]),
        Err(ScanError::NotFound(s)) if s == "No Qwen chat files found"
    ));
    assert!(matches!(
        QwenProvider.scan(&vec![log("/q", "c", "p", None, &[idle])]),
        Err(ScanError::NotFound(s)) if s == "No Qwen assistant messages found"
    ));
}

#[test]
fn droid_names_take_one_form() {
    assert_eq!(
        normalize_model_name("custom:Some-Opus-4.5-Thinking-[Vendor]-0"),
        "some-opus-4-5-thinking-0"
    );
    assert_eq!(normalize_model_name("GPT--5.1"), "gpt-5-1");
    assert_eq!(normalize_model_name("-.x.-"), "x");
    assert_eq!(normalize_model_name("[all]"), "");
    assert_eq!(strip_decoration("custom:a(b[c]d)e]f"), "aef");
    assert_eq!(hyphenate("a..b--c."), "a-b-c");
    assert_eq!(hyphenate(&hyphenate("--a.-b--")), hyphenate("--a.-b--"));
}

#[test]
fn droid_sessions_carry_their_usage() {
    let content = r#"{"model":"custom:Big-Model-2.0","providerLockTimestamp":"2024-01-15T00:00:00Z","tokenUsage":{"inputTokens":1,"outputTokens":2,"thinkingTokens":3,"cacheReadTokens":4,"cacheCreationTokens":5}}"#;
    let r = DroidProvider
        .scan(&vec![
            document("s1", "d", None, content),
            document("s2", "d", Some(1_705_276_900), r#"{"tokenUsage":{"outputTokens":9}}"#),
            document("s3", "d", None, r#"{"tokenUsage":{}}"#),
            document("s4", "d", None, "{}"),
        ])
        .expect("result");
    let usage = r.models.as_ref().unwrap().get("big-model-2-0").unwrap().tokens;
    assert_eq!(usage.output_tokens, 5);
    assert_eq!(usage.total, 15);
    assert_eq!(r.models.as_ref().unwrap().get("unknown").unwrap().tokens.total, 9);
    assert_eq!(r.sessions, Some(2));
    assert_eq!(r.daily_buckets.as_ref().unwrap().get("2024-01-15").unwrap().tokens, 15);
    assert!(matches!(
        DroidProvider.scan(&vec![]),
        Err(ScanError::NotFound(s)) if s == "No Droid session data found"
    ));
}

#[test]
fn opencode_counts_a_message_once_in_all_places() {
    let message = r#"{"id":"m1","sessionID":"s","role":"assistant","modelID":"x","time":{"created":1705276800000,"completed":1705276860000},"tokens":{"input":1,"output":2,"reasoning":3,"cache":{"read":4,"write":5}}}"#;
    let row = |id: &str| MessageRow {
        id: id.to_string(),
        session_id: "fallback".to_string(),
        data: message.to_string(),
    };
    let user = r#"{"id":"m2","role":"user","time":{"created":1705276920}}"#;
    let dir = DataDir {
        infos: vec![document("i", "info", None, r#"{"time":{"created":1705276700000}}"#)],
        messages: vec![document("m1", "s", None, message), document("m2", "s", None, user)],
    };
    let r = OpenCodeProvider
        .scan(&vec![vec![row("a"), row("b")]], &vec![dir])
        .expect("result");
    let usage = r.tokens.unwrap();
    assert_eq!(usage.input_tokens, 1);
    assert_eq!(usage.output_tokens, 5);
    assert_eq!(usage.cache_read_tokens, 4);
    assert_eq!(usage.cache_creation_tokens, 5);
    assert_eq!(r.sessions, Some(2));
    assert_eq!(r.first_seen, Some(1_705_276_700));
    assert_eq!(r.last_seen, Some(1_705_276_920));
    assert_eq!(r.hours.unwrap().seconds, 120 + 60);
    assert_eq!(r.daily_buckets.as_ref().unwrap().get("2024-01-15").unwrap().tokens, 6);
}

#[test]
fn opencode_reads_what_older_versions_wrote() {
    let old = r#"{"role":"assistant","model":"y","metadata":{"assistant":{"tokens":{"output":3}}},"time":{"updated":1705276800}}"#;
    let dir = DataDir { infos: vec![], messages: vec![document("f", "sess", None, old)] };
    let r = OpenCodeProvider.scan(&vec![], &vec![dir]).expect("result");
    assert_eq!(r.models.as_ref().unwrap().get("y").unwrap().tokens.total, 3);
    assert_eq!(r.sessions, Some(1));
    assert_eq!(r.first_seen, Some(1_705_276_800));
    assert!(matches!(
        OpenCodeProvider.scan(&vec![], &vec![]),
        Err(ScanError::NotFound(s)) if s == "OpenCode data dir not found"
    ));
    assert!(matches!(
        OpenCodeProvider.scan(&vec![vec![]], &vec![]),
        Err(ScanError::NotFound(s)) if s == "No OpenCode session data found"
    ));
    assert!(parse_session_info(&document("i", "d", None, "broken")).is_none());
    let (id, created, updated) =
        parse_session_info(&document("i", "d", None, "{\"id\":\"z\"}")).expect("info");
    assert_eq!((id.as_str(), created, updated), ("z", None, None));
}
