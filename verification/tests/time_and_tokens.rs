use howmuchiai::time_util::{
    active_hours_from_timestamps, build_daily_buckets, chrome_time_to_unix, count_sessions,
    firefox_time_to_unix, group_by_day, iso8601_to_unix, sort_times,
};
use howmuchiai::token_estimate::{
    count_tokens, token_usage_from_segments, token_usage_from_texts, ESTIMATE_METHOD_PREFIX,
};

// 2024-01-15 00:00:00 UTC
const DAY_EPOCH: i64 = 1_705_276_800;

#[test]
fn build_daily_buckets_aggregates_tokens_and_sessions_per_day() {
    let events = vec![
        (DAY_EPOCH + 60, 100, Some("sess-a".to_string())),
        (DAY_EPOCH + 120, 200, Some("sess-a".to_string())),
        (DAY_EPOCH + 180, 50, Some("sess-b".to_string())),
        (DAY_EPOCH + 86_400 + 30, 10, Some("sess-c".to_string())),
        (0, 999, Some("garbage".to_string())),
    ];

    let buckets = build_daily_buckets(&events);
    assert_eq!(buckets.len(), 2, "expected two UTC days");

    let day1 = buckets.get("2024-01-15").expect("day 1 bucket");
    assert_eq!(day1.tokens, 350);
    assert_eq!(day1.sessions, 2, "two distinct session ids on day 1");
    assert!(
        day1.hours.seconds > 0,
        "multi-minute activity must yield non-zero hours (was {})",
        day1.hours.seconds
    );
    assert_eq!(day1.hours.seconds, 120);
    assert!(day1.invocations.is_none());

    let day2 = buckets.get("2024-01-16").expect("day 2 bucket");
    assert_eq!(day2.tokens, 10);
    assert_eq!(day2.sessions, 1);
    assert!(day2.hours.seconds > 0, "single event still yields min-session hours");
}

#[test]
fn build_daily_buckets_handles_none_session_id() {
    let events = vec![(DAY_EPOCH + 60, 0, None), (DAY_EPOCH + 120, 0, None)];
    let buckets = build_daily_buckets(&events);
    let day = buckets.get("2024-01-15").expect("bucket exists");
    assert_eq!(day.sessions, 0, "None session ids must not be counted");
    assert_eq!(day.tokens, 0);
    assert!(day.hours.seconds > 0);
}

#[test]
fn build_daily_buckets_empty_input_returns_empty_map() {
    let events: Vec<(i64, u64, Option<String>)> = Vec::new();
    let buckets = build_daily_buckets(&events);
    assert!(buckets.is_empty());
}

#[test]
fn count_tokens_empty_is_zero() {
    assert_eq!(count_tokens(""), 0);
    assert_eq!(count_tokens("   "), 0);
}

#[test]
fn count_tokens_nonempty_is_positive() {
    assert!(count_tokens("hello world") > 0);
}

#[test]
fn token_usage_from_segments_splits_input_output() {
    let usage = token_usage_from_segments("user says hi", "assistant says hello");
    assert!(usage.input_tokens > 0);
    assert!(usage.output_tokens > 0);
    assert_eq!(usage.total, usage.input_tokens + usage.output_tokens);
}

#[test]
fn tokens_are_those_of_the_encoder() {
    assert_eq!(count_tokens("hello world"), 2);
    assert_eq!(count_tokens("<|endoftext|>"), 1);
    let joined = tiktoken_rs::cl100k_base()
        .expect("cl100k_base")
        .encode_with_special_tokens("first text\nsecond text")
        .len() as u64;
    let usage = token_usage_from_texts(&["first text".to_string(), "second text".to_string()]);
    assert_eq!(usage.output_tokens, joined);
    assert_eq!(usage.input_tokens, 0);
    assert_eq!(token_usage_from_texts(&[]).total, 0);
    assert_eq!(ESTIMATE_METHOD_PREFIX, "cl100k_base tokenizer");
}

#[test]
fn browser_clocks_are_turned_into_unix_time() {
    assert_eq!(chrome_time_to_unix(13_349_750_400_000_000), 1_705_276_800);
    assert_eq!(chrome_time_to_unix(0), -11_644_473_600);
    assert_eq!(chrome_time_to_unix(i64::MIN), -9_223_372_036_854 - 11_644_473_600);
    assert_eq!(firefox_time_to_unix(1_705_276_800_999_999), 1_705_276_800);
    assert_eq!(firefox_time_to_unix(-1_999_999), -1);
}

#[test]
fn dates_are_read_with_their_zone() {
    assert_eq!(iso8601_to_unix("2024-01-15T00:00:00Z"), Some(DAY_EPOCH));
    assert_eq!(iso8601_to_unix("2024-01-15T01:00:00+01:00"), Some(DAY_EPOCH));
    assert_eq!(iso8601_to_unix("2024-01-15T00:00:00.750Z"), Some(DAY_EPOCH));
    assert_eq!(iso8601_to_unix("2024-1-15T0:0:0Z"), Some(DAY_EPOCH));
    assert_eq!(iso8601_to_unix("2024-01-15T00:00:00"), None);
    assert_eq!(iso8601_to_unix("yesterday"), None);
    assert_eq!(iso8601_to_unix(""), None);
}

#[test]
fn activity_is_cut_at_gaps() {
    let seconds = |times: &[i64], gap: i64| active_hours_from_timestamps(times, gap).seconds;
    assert_eq!(seconds(&[], 1800), 0);
    assert_eq!(seconds(&[5], 1800), 60);
    assert_eq!(seconds(&[0, 30], 1800), 60);
    assert_eq!(seconds(&[0, 1800], 1800), 1800);
    assert_eq!(seconds(&[0, 1801], 1800), 60);
    assert_eq!(seconds(&[0, 600, 5000, 5100], 1800), 700);
    assert_eq!(seconds(&[i64::MIN, i64::MAX], i64::MAX), 60);
    assert_eq!(seconds(&[-5, 0, i64::MAX], i64::MAX), i64::MAX as u128 + 5);
}

#[test]
fn sessions_are_cut_at_gaps() {
    assert_eq!(count_sessions(&[], 10), (0, vec![]));
    assert_eq!(count_sessions(&[7], 10), (1, vec![(7, 7)]));
    assert_eq!(
        count_sessions(&[0, 5, 30, 35, 100], 10),
        (3, vec![(0, 5), (30, 35), (100, 100)])
    );
    assert_eq!(count_sessions(&[i64::MIN, i64::MAX], 0).0, 2);
}

#[test]
fn times_are_grouped_by_utc_date() {
    let days = group_by_day(&[DAY_EPOCH + 5, DAY_EPOCH - 1, DAY_EPOCH, i64::MAX]);
    assert_eq!(days.len(), 2);
    assert_eq!(days.get("2024-01-15").unwrap(), &vec![DAY_EPOCH + 5, DAY_EPOCH]);
    assert_eq!(days.get("2024-01-14").unwrap(), &vec![DAY_EPOCH - 1]);
}

#[test]
fn times_are_sorted() {
    assert_eq!(sort_times(&[3, 1, 2, 1]), vec![1, 1, 2, 3]);
}

#[test]
fn tokens_of_a_day_stop_at_the_largest_number() {
    let events = vec![(DAY_EPOCH, u64::MAX, None), (DAY_EPOCH, 5, None)];
    assert_eq!(build_daily_buckets(&events).get("2024-01-15").unwrap().tokens, u64::MAX);
}

#[test]
fn days_share_out_the_tokens_of_all_events() {
    let events = vec![
        (1_705_276_800 - 1, 7, Some("a".to_string())),
        (1_705_276_800, 20, Some("a".to_string())),
        (1_705_276_800 + 86_399, 300, None),
        (1_705_276_800 + 86_400, 4_000, Some("b".to_string())),
        (946_684_799, 50_000, None),
        (i64::MAX, 600_000, None),
    ];
    let buckets = build_daily_buckets(&events);
    let total: u64 = (0..buckets.len()).map(|i| buckets.value(i).tokens).sum();
    assert_eq!(buckets.len(), 3);
    assert_eq!(total, 4_327);
    assert_eq!(buckets.get("2024-01-15").map(|b| b.tokens), Some(320));
}

#[test]
fn days_are_free_of_the_order_of_events() {
    let mut events = vec![
        (DAY_EPOCH + 60, 100, Some("a".to_string())),
        (DAY_EPOCH + 86_460, 5, Some("b".to_string())),
        (DAY_EPOCH + 600, 20, None),
        (DAY_EPOCH + 300, 3, Some("b".to_string())),
    ];
    let forward = build_daily_buckets(&events);
    events.reverse();
    let backward = build_daily_buckets(&events);
    assert_eq!(forward.len(), backward.len());
    for date in ["2024-01-15", "2024-01-16"] {
        let (a, b) = (forward.get(date).unwrap(), backward.get(date).unwrap());
        assert_eq!((a.hours.seconds, a.tokens, a.sessions), (b.hours.seconds, b.tokens, b.sessions));
    }
    assert_eq!(forward.get("2024-01-15").unwrap().hours.seconds, 540);
}
