use howmuchiai::collections::StrMap;
use howmuchiai::ledger::Ledger;
use howmuchiai::logs::LogFile;
use howmuchiai::providers::codex::{scan_codex_jsonl, CodexProvider, ThreadRow};
use howmuchiai::types::ModelUsage;

fn models_of(lines: &[&str]) -> StrMap<ModelUsage> {
    let lines: Vec<String> = lines.iter().map(|l| l.to_string()).collect();
    let mut ledger = Ledger::new();
    scan_codex_jsonl(&lines, &mut ledger);
    ledger.into_models().0
}

fn log(lines: &[&str]) -> LogFile {
    LogFile {
        path: "/c/s.jsonl".to_string(),
        stem: Some("s".to_string()),
        parent: None,
        modified: None,
        lines: lines.iter().map(|l| l.to_string()).collect(),
    }
}

fn thread(id: &str, created: i64, updated: i64, model: Option<&str>, tokens: Option<i64>) -> ThreadRow {
    ThreadRow {
        id: id.to_string(),
        created_at: created,
        updated_at: updated,
        model: model.map(|m| m.to_string()),
        tokens_used: tokens,
    }
}

#[test]
fn parses_per_turn_deltas_and_subtracts_cache_from_input() {
    let models = models_of(&[
        r#"{"type":"turn_context","payload":{"model":"gpt-5.3-codex"}}"#,
        r#"{"type":"event_msg","payload":{"type":"token_count","info":{"last_token_usage":{"input_tokens":10000,"cached_input_tokens":2000,"output_tokens":500,"reasoning_output_tokens":100}}}}"#,
        r#"{"type":"event_msg","payload":{"type":"token_count","info":{"last_token_usage":{"input_tokens":15000,"cached_input_tokens":12000,"output_tokens":300,"reasoning_output_tokens":50}}}}"#,
        r#"{"type":"event_msg","payload":{"type":"token_count","info":{"last_token_usage":{"input_tokens":20000,"cached_input_tokens":18000,"output_tokens":200,"reasoning_output_tokens":0}}}}"#,
    ]);
    let codex = models.get("gpt-5.3-codex").expect("model populated");
    // uncached input = (10000-2000) + (15000-12000) + (20000-18000) = 13000
    assert_eq!(codex.tokens.input_tokens, 13_000);
    // output = 500+300+200 + reasoning 100+50+0 = 1150
    assert_eq!(codex.tokens.output_tokens, 1_150);
    // cache_read = sum of cached_input = 2000+12000+18000 = 32000
    assert_eq!(codex.tokens.cache_read_tokens, 32_000);
    // total = input + output + cache_read + cache_creation
    assert_eq!(codex.tokens.total, 46_150);
}

#[test]
fn attributes_to_active_model_through_mid_session_switch() {
    let models = models_of(&[
        r#"{"type":"turn_context","payload":{"model":"gpt-5.4"}}"#,
        r#"{"type":"event_msg","payload":{"type":"token_count","info":{"last_token_usage":{"input_tokens":1000,"cached_input_tokens":0,"output_tokens":100}}}}"#,
        r#"{"type":"turn_context","payload":{"model":"gpt-5.3-codex"}}"#,
        r#"{"type":"event_msg","payload":{"type":"token_count","info":{"last_token_usage":{"input_tokens":2000,"cached_input_tokens":500,"output_tokens":200}}}}"#,
    ]);
    let a = models.get("gpt-5.4").expect("first model populated");
    assert_eq!(a.tokens.input_tokens, 1_000);
    assert_eq!(a.tokens.output_tokens, 100);

    let b = models.get("gpt-5.3-codex").expect("second model populated");
    assert_eq!(b.tokens.input_tokens, 1_500); // 2000 - 500 cached
    assert_eq!(b.tokens.output_tokens, 200);
    assert_eq!(b.tokens.cache_read_tokens, 500);
}

#[test]
fn falls_back_to_total_token_usage_when_last_is_null() {
    let models = models_of(&[
        r#"{"type":"turn_context","payload":{"model":"gpt-5.3-codex"}}"#,
        r#"{"type":"event_msg","payload":{"type":"token_count","info":{"total_token_usage":{"input_tokens":1000,"output_tokens":100,"cached_input_tokens":0,"reasoning_output_tokens":0},"last_token_usage":null}}}"#,
        r#"{"type":"event_msg","payload":{"type":"token_count","info":{"total_token_usage":{"input_tokens":3000,"output_tokens":250,"cached_input_tokens":500,"reasoning_output_tokens":0},"last_token_usage":null}}}"#,
    ]);
    let codex = models.get("gpt-5.3-codex").expect("model populated");
    assert_eq!(codex.tokens.input_tokens, 2_500);
    assert_eq!(codex.tokens.output_tokens, 250);
    assert_eq!(codex.tokens.cache_read_tokens, 500);
}

#[test]
fn ignores_legacy_response_item_path() {
    let models = models_of(&[
        r#"{"type":"turn_context","payload":{"model":"gpt-5.3-codex"}}"#,
        r#"{"type":"response_item","payload":{"model":"gpt-5.3-codex","info":{"total_token_usage":{"input_tokens":99999,"output_tokens":99999}}}}"#,
        r#"{"type":"event_msg","payload":{"type":"token_count","info":{"last_token_usage":{"input_tokens":1000,"cached_input_tokens":0,"output_tokens":100}}}}"#,
    ]);
    let codex = models.get("gpt-5.3-codex").expect("model populated");
    assert_eq!(codex.tokens.input_tokens, 1_000);
    assert_eq!(codex.tokens.output_tokens, 100);
}

#[test]
fn falls_back_to_unknown_when_no_turn_context_yet() {
    let models = models_of(&[
        r#"{"type":"event_msg","payload":{"type":"token_count","info":{"last_token_usage":{"input_tokens":500,"cached_input_tokens":0,"output_tokens":50}}}}"#,
    ]);
    let unknown = models.get("unknown").expect("fallback model");
    assert_eq!(unknown.tokens.input_tokens, 500);
    assert_eq!(unknown.tokens.output_tokens, 50);
}

#[test]
fn a_delta_keeps_the_totals_up_to_date() {
    let models = models_of(&[
        r#"{"type":"turn_context","payload":{"model":"  m  "}}"#,
        "",
        "not json",
        r#"{"type":"turn_context","payload":{"model":"   "}}"#,
        r#"{"type":"event_msg","payload":{"type":"token_count","info":{"last_token_usage":{"output_tokens":10},"total_token_usage":{"output_tokens":10}}}}"#,
        r#"{"type":"event_msg","payload":{"type":"token_count","info":{"total_token_usage":{"output_tokens":25}}}}"#,
        r#"{"type":"event_msg","payload":{"type":"token_count","info":{"total_token_usage":{"output_tokens":25}}}}"#,
        r#"{"type":"event_msg","payload":{"type":"token_count","info":{}}}"#,
    ]);
    assert_eq!(models.len(), 1);
    assert_eq!(models.get("m").expect("trimmed name").tokens.output_tokens, 25);
}

#[test]
fn threads_fill_in_where_sessions_have_no_models() {
    let rows = vec![
        thread("a", 1_705_276_800, 1_705_280_400, Some("m1"), Some(100)),
        thread("b", 1_705_363_200, 1_705_363_200, Some("m1"), Some(-5)),
        thread("c", 1_705_363_200, 1_805_363_200, None, None),
    ];
    let r = CodexProvider.scan(&rows, &vec![]);
    assert_eq!(r.sessions, Some(3));
    assert_eq!(r.hours.unwrap().seconds, 3_600 + 86_400);
    assert_eq!(r.first_seen, Some(1_705_276_800));
    assert_eq!(r.last_seen, Some(1_805_363_200));
    assert_eq!(r.tokens.unwrap().output_tokens, 100);
    assert_eq!(r.models.as_ref().unwrap().get("m1").unwrap().tokens.total, 100);
    let days = r.daily_buckets.as_ref().unwrap();
    assert_eq!(days.get("2024-01-15").unwrap().tokens, 100);
    assert_eq!(days.get("2024-01-16").unwrap().sessions, 2);
}

#[test]
fn sessions_outrank_threads_for_models() {
    let rows = vec![thread("a", 10, 10, Some("from_db"), Some(7))];
    let file = log(&[
        r#"{"type":"event_msg","payload":{"type":"token_count","info":{"last_token_usage":{"input_tokens":5}}}}"#,
    ]);
    let r = CodexProvider.scan(&rows, &vec![file]);
    assert!(r.models.as_ref().unwrap().get("from_db").is_none());
    assert_eq!(r.tokens.unwrap().input_tokens, 5);
    // no thread took any time, so that the times themselves count
    assert_eq!(r.hours.unwrap().seconds, 60);
    assert!(r.daily_buckets.is_none());
}

#[test]
fn threads_without_models_still_count_their_tokens() {
    let r = CodexProvider.scan(&vec![thread("a", 5, 65, None, Some(9))], &vec![]);
    assert!(r.models.is_none());
    assert_eq!(r.tokens.unwrap().total, 9);
    let none = CodexProvider.scan(&vec![], &vec![]);
    assert_eq!(none.hours.unwrap().seconds, 0);
    assert_eq!(none.sessions, Some(0));
    assert_eq!(none.first_seen, None);
}
