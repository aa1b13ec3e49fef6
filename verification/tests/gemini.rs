use howmuchiai::providers::gemini::{
    chat_session_key, extract_chat_tokens, ChatFile, GeminiProvider,
};
use howmuchiai::types::ScanError;

fn chat(path: &str, parent: &str, content: String) -> ChatFile {
    ChatFile { path: path.to_string(), parent: Some(parent.to_string()), content }
}

#[test]
fn extract_chat_tokens_dedups_and_uses_max_input_sum_output() {
    let header_lines = [
        r#"{"kind":"chat","sessionId":"sess-1","startTime":"2026-05-24T16:45:00.000Z"}"#,
        r#"{"id":"a","type":"gemini","model":"gemini-3-flash-preview","timestamp":"2026-05-24T16:46:00.000Z","tokens":{"input":100,"output":10,"cached":5,"thoughts":1,"tool":0,"total":116}}"#,
        r#"{"id":"a","type":"gemini","model":"gemini-3-flash-preview","timestamp":"2026-05-24T16:46:00.000Z","tokens":{"input":150,"output":10,"cached":8,"thoughts":1,"tool":0,"total":169}}"#,
        r#"{"id":"b","type":"gemini","model":"gemini-3-flash-preview","timestamp":"2026-05-24T16:47:00.000Z","tokens":{"input":200,"output":20,"cached":12,"thoughts":2,"tool":0,"total":234}}"#,
        r#"{"id":"u","type":"user","timestamp":"2026-05-24T16:47:30.000Z"}"#,
        r#"{"id":"x","type":"gemini","model":"gemini-3-flash-preview","timestamp":"2026-05-24T16:48:00.000Z"}"#,
    ]
    .join("\n");
    let checkpoint_lines = [
        r#"{"id":"c","type":"gemini","model":"gemini-3.1-pro-preview","timestamp":"2026-05-24T16:49:00.000Z","tokens":{"input":300,"output":30,"cached":20,"thoughts":3,"tool":0,"total":353}}"#,
        r#"{"id":"c","type":"gemini","model":"gemini-3.1-pro-preview","timestamp":"2026-05-24T16:49:00.000Z","tokens":{"input":320,"output":30,"cached":25,"thoughts":3,"tool":0,"total":378}}"#,
    ]
    .join("\n");
    let chats = vec![
        chat("/tmp/proj/chats/session-header.jsonl", "chats", header_lines),
        chat("/tmp/proj/chats/sess-1/ckpt.jsonl", "sess-1", checkpoint_lines),
    ];
    let (tokens, models, events) = extract_chat_tokens(&chats);

    assert_eq!(tokens.output_tokens, 60, "output is SUM over unique ids");
    assert_eq!(tokens.input_tokens, 320, "input is per-session MAX snapshot");
    assert_eq!(tokens.cache_read_tokens, 25, "cached is per-session MAX");
    assert_eq!(tokens.cache_creation_tokens, 0, "Gemini has no cache-create");
    assert_eq!(tokens.total, 405, "total recomputed, not raw cumulative");

    let flash = &models.get("gemini-3-flash-preview").unwrap().tokens;
    assert_eq!(flash.output_tokens, 30, "flash turns a+b => 10+20");
    let pro = &models.get("gemini-3.1-pro-preview").unwrap().tokens;
    assert_eq!(pro.output_tokens, 30, "pro turn c => 30");

    assert_eq!(events.len(), 3, "one event per unique turn");
    let event_output: u64 = events.iter().map(|(_, t, _)| *t).sum();
    assert_eq!(event_output, 60, "event tokens match deduped output sum");
    assert!(
        events.iter().all(|(_, _, sid)| sid.as_deref() == Some("sess-1")),
        "every event is attributed to the resolved sessionId"
    );
}

#[test]
fn extract_chat_tokens_empty_is_zero_not_panic() {
    let chats = vec![chat(
        "/tmp/proj/chats/empty.jsonl",
        "chats",
        "{\"kind\":\"chat\",\"sessionId\":\"s\"}\n{\"id\":\"z\",\"type\":\"gemini\",\"model\":\"m\"}\n"
            .to_string(),
    )];
    let (tokens, models, events) = extract_chat_tokens(&chats);
    assert_eq!(tokens.total, 0);
    assert_eq!(tokens.output_tokens, 0);
    assert!(models.is_empty());
    assert!(events.is_empty());
}

#[test]
fn extract_chat_tokens_skips_malformed_rows() {
    let lines = [
        "{ this is not json",
        r#"{"id":"ok","type":"gemini","model":"m","timestamp":"2026-05-24T16:46:00.000Z","tokens":{"input":50,"output":7,"cached":0}}"#,
        r#"{"type":"gemini","model":"m","tokens":{"input":999,"output":999,"cached":999}}"#,
    ]
    .join("\n");
    let (tokens, _models, _events) =
        extract_chat_tokens(&vec![chat("/tmp/proj/chats/mixed.jsonl", "chats", lines)]);
    assert_eq!(tokens.output_tokens, 7, "only valid id-bearing row counts");
    assert_eq!(tokens.input_tokens, 999, "max input includes id-less row");
}

#[test]
fn peaks_of_sessions_add_up() {
    let row = |id: &str, input: u64| {
        format!("{{\"id\":\"{id}\",\"type\":\"gemini\",\"tokens\":{{\"input\":{input},\"output\":1,\"cached\":2}}}}")
    };
    let (tokens, models, events) = extract_chat_tokens(&vec![
        chat("/a", "one", row("a", 10)),
        chat("/b", "two", row("b", 7)),
        chat("/c", "one", row("c", 9)),
    ]);
    assert_eq!(tokens.input_tokens, 17);
    assert_eq!(tokens.cache_read_tokens, 4);
    assert_eq!(tokens.output_tokens, 3);
    assert!(models.is_empty() && events.is_empty());
}

#[test]
fn sessions_of_chats_are_told_by_header_directory_or_path() {
    let header = "\n  \n{\"sessionId\":\"from-header\"}\n".to_string();
    assert_eq!(chat_session_key(&chat("/p", "chats", header.clone())), "from-header");
    assert_eq!(chat_session_key(&chat("/p", "dir", header)), "dir");
    assert_eq!(chat_session_key(&chat("/p", "chats", "broken".to_string())), "/p");
    let orphan = ChatFile { path: "/o".to_string(), parent: None, content: String::new() };
    assert_eq!(chat_session_key(&orphan), "/o");
}

#[test]
fn logs_count_messages_sessions_and_times() {
    let array = r#"[
        {"sessionId":"a","timestamp":"2024-01-15T00:00:00Z"},
        {"sessionId":"a","timestamp":1705276860000},
        {"sessionId":"b","timestamp":1705277000},
        {"timestamp":1705277010.9},
        {"sessionId":"b"}
    ]"#
    .to_string();
    let lines = "{\"sessionId\":\"c\",\"timestamp\":\"2024-01-15T00:05:00Z\"}\nbroken\n".to_string();
    let r = GeminiProvider.scan(true, &vec![array, lines], &vec![]).expect("result");
    assert_eq!(r.sessions, Some(3));
    assert_eq!(r.invocations, Some(6));
    assert_eq!(r.first_seen, Some(1_705_276_800));
    assert_eq!(r.last_seen, Some(1_705_277_100));
    assert_eq!(r.hours.unwrap().seconds, 300);
    assert!(r.tokens.is_none() && r.models.is_none());
    assert_eq!(
        r.metadata.as_ref().unwrap().get("log_files_scanned").unwrap().as_count(),
        Some(2)
    );
    assert_eq!(r.daily_buckets.as_ref().unwrap().get("2024-01-15").unwrap().sessions, 3);
}

#[test]
fn no_logs_are_no_use() {
    let r = GeminiProvider.scan(true, &vec![], &vec![]).expect("result");
    assert_eq!((r.sessions, r.invocations), (Some(0), Some(0)));
    assert!(r.hours.is_none() && r.metadata.is_none());
    assert!(matches!(
        GeminiProvider.scan(false, &vec![], &vec![]),
        Err(ScanError::NotFound(s)) if s == "Gemini tmp directory not found"
    ));
}
