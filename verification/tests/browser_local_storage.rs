use howmuchiai::browser_local_storage::{
    absorb_session_json, absorb_session_json_text, chrome_local_storage_paths,
    collect_session_signals, decode_ls_text_candidates, extract_chatgpt_ids_from_text,
    extract_quoted_field_values, extract_thread_ids_from_text, looks_like_uuid, SignalLog,
    StorageDump,
};
use howmuchiai::json::parse_json;
use howmuchiai::platform::Listing;

#[test]
fn absorb_chatgpt_sidebar_json() {
    let json = parse_json(
        r#"{"value": {"pages": [{"items": [
            {"id": "6a180a39-8ea8-83a8-9c9b-72aceb15a113", "title": "One"},
            {"id": "6a17f2b4-8ea8-83a8-9c9b-72aceb15a114", "title": "Two"}
        ]}]}}"#,
    )
    .expect("json");
    let mut log = SignalLog::new();
    absorb_session_json(&mut log, "ChatGPT", &json);
    assert_eq!(log.conversation_count(), 2);
}

#[test]
fn extract_chatgpt_ids_from_corrupted_text() {
    let mut log = SignalLog::new();
    let text = r#"garbage {"id":"6a180a39-8ea8-83a8-9c9b-72aceb15a113","title":"Hi"}"#;
    extract_chatgpt_ids_from_text(text, &mut log);
    assert_eq!(log.conversation_count(), 1);
}

#[test]
fn decode_utf16le_value() {
    let utf16: Vec<u16> = " {\"value\":{\"pages\":[{\"items\":[{\"id\":\"x\"}]}]}}"
        .encode_utf16()
        .collect();
    let mut bytes = vec![0u8; 4];
    for unit in utf16 {
        bytes.extend_from_slice(&unit.to_le_bytes());
    }
    let decoded = decode_ls_text_candidates(&bytes);
    assert!(decoded.iter().any(|s| s.contains("value")));
}

#[test]
fn absorb_perplexity_thread_list() {
    let json = parse_json(
        r#"[
            {"threadId": "t1", "name": "A", "createdAt": 1},
            {"threadId": "t2", "name": "B", "createdAt": 2}
        ]"#,
    )
    .expect("json");
    let mut log = SignalLog::new();
    absorb_session_json(&mut log, "Perplexity", &json);
    assert_eq!(log.thread_count(), 2);
}

#[test]
fn a_session_counts_once_across_profiles() {
    let value = br#"{"items":[{"id":"6a180a39-8ea8-83a8-9c9b-72aceb15a113"}]}"#.to_vec();
    let store = || StorageDump {
        entries: vec![(b"https://chatgpt.com conversation-history".to_vec(), value.clone())],
        files: vec![],
    };
    let signals = collect_session_signals("ChatGPT", &vec![store(), store()]);
    assert_eq!(signals.conversations, 1);
    let other = collect_session_signals("Grok", &vec![store()]);
    assert_eq!(other.conversations, 0);
}

#[test]
fn records_of_other_sites_are_left_out() {
    let value = br#"{"items":[{"id":"6a180a39-8ea8-83a8-9c9b-72aceb15a113"}]}"#.to_vec();
    let store = StorageDump {
        entries: vec![(b"https://example.org".to_vec(), value.clone())],
        files: vec![("000003.log".to_string(), value.clone()), ("LOCK".to_string(), value)],
    };
    assert_eq!(collect_session_signals("ChatGPT", &vec![store]).conversations, 0);
}

#[test]
fn files_of_a_store_are_read_too() {
    let bytes =
        br#"chatgpt.com {"id":"6a180a39-8ea8-83a8-9c9b-72aceb15a113","title":"A title of some length"}"#
            .to_vec();
    let named = |name: &str| StorageDump {
        entries: vec![],
        files: vec![(name.to_string(), bytes.clone())],
    };
    let signals = collect_session_signals("ChatGPT", &vec![named("000003.ldb")]);
    assert_eq!(signals.conversations, 1);
    assert_eq!(signals.transcript_texts, vec!["A title of some length".to_string()]);
    assert_eq!(collect_session_signals("ChatGPT", &vec![named("MANIFEST")]).conversations, 0);
}

#[test]
fn a_thread_counts_once_in_one_text() {
    let mut log = SignalLog::new();
    extract_thread_ids_from_text(r#"x"threadId":"a","threadId":"b","threadId":"a","threadId":"" "#, &mut log);
    assert_eq!(log.thread_count(), 2);
    assert_eq!(log.into_signals().threads, 2);
}

#[test]
fn a_thread_counts_once_in_a_list() {
    let json = parse_json(r#"[{"threadId":"a"},{"threadId":"b"},{"threadId":"a"}]"#).expect("json");
    let mut log = SignalLog::new();
    absorb_session_json(&mut log, "Perplexity", &json);
    absorb_session_json(&mut log, "Perplexity", &json);
    assert_eq!(log.into_signals().threads, 2);
}

#[test]
fn a_thread_counts_once_across_profiles() {
    let value = br#"{"threads-v2":[{"threadId":"a"},{"threadId":"b"},{"threadId":"a"}]}"#.to_vec();
    let store = || StorageDump {
        entries: vec![(b"https://www.perplexity.ai".to_vec(), value.clone())],
        files: vec![("000003.log".to_string(), value.clone())],
    };
    assert_eq!(collect_session_signals("Perplexity", &vec![store(), store()]).threads, 2);
}

#[test]
fn an_escaped_id_is_known_again() {
    let mut log = SignalLog::new();
    absorb_session_json_text(
        &mut log,
        "Perplexity",
        r#"{"threads-v2":[{"threadId":"a\/\"b"},{"threadId":"c"}]}"#,
    );
    assert_eq!(log.into_signals().threads, 2);
}

#[test]
fn every_item_of_a_thread_list_counts() {
    let count = |text: &str| {
        let mut log = SignalLog::new();
        absorb_session_json(&mut log, "Perplexity", &parse_json(text).expect("json"));
        log.into_signals().threads
    };
    assert_eq!(count(r#"[{"threadId":"a"},{"x":1}]"#), 2);
    assert_eq!(count(r#"[{"threadId":"a"},{"threadId":"a"},7]"#), 2);
    assert_eq!(count(r#"[{"threadId":5},{"threadId":5}]"#), 2);
    assert_eq!(count(r#"[{"x":1},7]"#), 0);
}

#[test]
fn threads_without_an_id_count_by_their_list() {
    let list = |text: &str| parse_json(text).expect("json");
    let mut log = SignalLog::new();
    let named = r#"[{"threadId":"a"},{"threadId":"a"},{"name":"x","createdAt":1},{"name":"y","createdAt":2}]"#;
    absorb_session_json(&mut log, "Perplexity", &list(named));
    absorb_session_json(&mut log, "Perplexity", &list(r#"[{"name":"x","createdAt":1}]"#));
    assert_eq!(log.thread_count(), 1);
    assert_eq!(log.into_signals().threads, 3);
}

#[test]
fn notebooks_are_found_in_json() {
    let mut log = SignalLog::new();
    absorb_session_json_text(
        &mut log,
        "NotebookLM",
        r#"{"notebooks":[{"id":"first"},{"id":"second"},{"id":"first"}]}"#,
    );
    assert_eq!(log.into_signals().notebooks, 2);
}

#[test]
fn quoted_values_end_at_the_first_bare_quote() {
    let text = r#"{"title":"He said \"hello there\" to us","title":"short","title":"1234567890123"}"#;
    assert_eq!(
        extract_quoted_field_values(text, "title"),
        vec![r#"He said \"hello there\" to us"#.to_string()]
    );
    assert!(extract_quoted_field_values(r#"{"title":"never closed at all"#, "title").is_empty());
}

#[test]
fn control_codes_become_single_spaces() {
    let decoded = decode_ls_text_candidates(b"\x01some\x00\x02stored   text\nwith codes\x01");
    assert_eq!(decoded, vec!["some stored text with codes".to_string()]);
    assert!(decode_ls_text_candidates(b"too short").is_empty());
}

#[test]
fn uuids_are_told_by_their_form() {
    assert!(looks_like_uuid("6a180a39-8ea8-83a8-9c9b-72aceb15a113"));
    assert!(!looks_like_uuid("6a180a39x8ea8-83a8-9c9b-72aceb15a113"));
    assert!(!looks_like_uuid("6a180a39-8ea8-83a8-9c9b-72aceb15a11"));
    assert!(!looks_like_uuid("6g180a39-8ea8-83a8-9c9b-72aceb15a113"));
}

#[test]
fn storage_stands_in_every_profile() {
    let chrome = Listing {
        dir: "/h/Chrome".to_string(),
        names: vec!["Profile 1".to_string(), "Crashpad".to_string(), "Profile 2".to_string()],
    };
    assert_eq!(
        chrome_local_storage_paths(&vec![chrome]),
        vec![
            "/h/Chrome/Default/Local Storage/leveldb",
            "/h/Chrome/Profile 1/Local Storage/leveldb",
            "/h/Chrome/Profile 2/Local Storage/leveldb",
        ]
    );
}
