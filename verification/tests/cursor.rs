use howmuchiai::json::parse_json;
use howmuchiai::providers::cursor::{
    bubble_composer_id, collect_bubble_text, extract_bubble_tokens, BubbleRow, CursorProvider,
    ESTIMATE_METHOD,
};
use tiktoken_rs::cl100k_base;

fn count_text(text: &str) -> u64 {
    cl100k_base().expect("cl100k_base").encode_with_special_tokens(text).len() as u64
}

fn row(key: &str, value: &str) -> BubbleRow {
    BubbleRow { key: key.to_string(), value: value.to_string() }
}

#[test]
fn collect_bubble_text_gathers_all_fields() {
    let obj = parse_json(
        r#"{
            "text": "hello user",
            "thinking": { "text": "reasoning here" },
            "toolFormerData": {
                "params": "{\"cmd\":\"ls\"}",
                "result": "file1\nfile2",
                "rawArgs": "{\"cmd\":\"ls\"}"
            },
            "attachedCodeChunks": [{ "content": "fn main() {}" }]
        }"#,
    )
    .expect("json");
    let text = collect_bubble_text(&obj);
    assert!(text.contains("hello user"));
    assert!(text.contains("reasoning here"));
    assert!(text.contains("file1"));
    assert!(text.contains("fn main()"));
    // rawArgs must NOT appear as a separate duplicate when params is present
    assert_eq!(text.matches("{\"cmd\":\"ls\"}").count(), 1);
}

#[test]
fn collect_bubble_text_uses_richtext_when_text_empty() {
    let obj = parse_json(r#"{"text": "", "richText": "rich fallback"}"#).expect("json");
    let text = collect_bubble_text(&obj);
    assert_eq!(text, "rich fallback");
}

#[test]
fn collect_bubble_text_empty_bubble_returns_empty() {
    let obj = parse_json(r#"{"text": "", "toolFormerData": { "params": "", "result": "" }}"#)
        .expect("json");
    assert!(collect_bubble_text(&obj).is_empty());
}

#[test]
fn bubble_composer_id_parses_key() {
    assert_eq!(bubble_composer_id("bubbleId:abc-123:def-456"), Some("abc-123".to_string()));
    assert_eq!(bubble_composer_id("bubbleId:only-one"), None);
}

#[test]
fn extract_bubble_tokens_counts_and_dedups_by_key() {
    let rows = vec![
        row(
            "bubbleId:comp-1:bub-user",
            r#"{"type":1,"text":"Hello world","createdAt":"2026-05-24T16:46:00.000Z"}"#,
        ),
        row(
            "bubbleId:comp-1:bub-asst",
            r#"{"type":2,"text":"Hi there","thinking":{"text":"hmm"},"createdAt":"2026-05-24T16:47:00.000Z"}"#,
        ),
        row(
            "bubbleId:comp-1:bub-empty",
            r#"{"type":2,"text":"","createdAt":"2026-05-24T16:48:00.000Z"}"#,
        ),
        row("not-a-bubble", r#"{"text":"ignored"}"#),
    ];
    let (tokens, events) = extract_bubble_tokens(&rows);

    let user_count = count_text("Hello world");
    let asst_count = count_text("Hi there\nhmm");
    assert_eq!(tokens.input_tokens, user_count);
    assert_eq!(tokens.output_tokens, asst_count);
    assert_eq!(tokens.total, user_count + asst_count);
    assert_eq!(events.len(), 2, "empty bubble must not emit an event");
}

#[test]
fn extract_bubble_tokens_skips_malformed_json() {
    let rows = vec![
        row("bubbleId:c:b1", "not json at all"),
        row(
            "bubbleId:c:b2",
            r#"{"type":1,"text":"ok","createdAt":"2026-05-24T16:46:00.000Z"}"#,
        ),
    ];
    let (tokens, _) = extract_bubble_tokens(&rows);
    assert_eq!(tokens.input_tokens, count_text("ok"));
    assert_eq!(tokens.output_tokens, 0);
}

#[test]
fn scan_result_marks_tokens_as_estimated() {
    assert!(ESTIMATE_METHOD.contains("cl100k_base"));
    assert!(ESTIMATE_METHOD.contains("Excludes"));
    let rows = vec![row("bubbleId:c:b", r#"{"type":1,"text":"ok then"}"#)];
    let r = CursorProvider.scan(&vec![], &vec![], &rows);
    assert!(r.tokens_estimated);
    assert_eq!(r.tokens_estimate_method.as_deref(), Some(ESTIMATE_METHOD));
}

#[test]
fn keys_without_composer_have_none() {
    assert_eq!(bubble_composer_id("bubbleId::b"), None);
    assert_eq!(bubble_composer_id("other:a:b"), None);
    assert_eq!(bubble_composer_id("bubbleId:a:"), Some("a".to_string()));
    assert_eq!(bubble_composer_id("bubbleId:a:b:c"), Some("a".to_string()));
}

#[test]
fn composers_and_statistics_make_up_the_rest() {
    let composers = vec![
        r#"{"createdAt": 1705276800123}"#.to_string(),
        r#"{"createdAt": 1705278000000}"#.to_string(),
        r#"{"createdAt": 12}"#.to_string(),
        r#"{"createdAt": -1705276800123}"#.to_string(),
        "broken".to_string(),
    ];
    let stats = vec![
        r#"{"accepted": 5, "generated": 9}"#.to_string(),
        "7".to_string(),
        "+003".to_string(),
        "nothing".to_string(),
    ];
    let r = CursorProvider.scan(&composers, &stats, &vec![]);
    assert_eq!(r.sessions, Some(2));
    assert_eq!(r.first_seen, Some(1_705_276_800));
    assert_eq!(r.last_seen, Some(1_705_278_000));
    assert_eq!(r.hours.unwrap().seconds, 1_200);
    assert_eq!(
        r.metadata.as_ref().unwrap().get("accepted_lines").unwrap().as_count(),
        Some(15)
    );
    assert!(r.tokens.is_none() && !r.tokens_estimated && r.tokens_estimate_method.is_none());
    assert_eq!(r.daily_buckets.as_ref().unwrap().get("2024-01-15").unwrap().sessions, 0);
    let none = CursorProvider.scan(&vec![], &vec!["0".to_string()], &vec![]);
    assert!(none.metadata.is_none() && none.daily_buckets.is_none());
}

#[test]
fn events_of_bubbles_carry_their_composer() {
    let rows = vec![row(
        "bubbleId:comp:b",
        r#"{"type":2,"text":"an answer","createdAt":"2024-01-15T00:10:00Z"}"#,
    )];
    let (_, events) = extract_bubble_tokens(&rows);
    assert_eq!(events, vec![(1_705_277_400, count_text("an answer"), Some("comp".to_string()))]);
}
