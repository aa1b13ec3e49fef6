use howmuchiai::browser_data_audit::{
    add_origin_text, format_method_tiered, is_priority_web_domain, pick_winner, probe_and_select,
    probe_indexeddb, probe_safari_web_storage, select, tier2_from_signals, tier3_tokens,
    tokens_per_hour_benchmark, IdbProbe, LocalSources, SafariWebStorageProbe, WinnerReason,
    WinnerTier,
};
use howmuchiai::browser_local_storage::LocalSessionSignals;
use howmuchiai::types::{Hours, MetaValue};

fn hours(h: f64) -> Hours {
    Hours { seconds: (h * 3600.0).round() as u128 }
}

fn shown(h: f64) -> String {
    format!("{:.1}", h)
}

fn no_safari() -> SafariWebStorageProbe {
    SafariWebStorageProbe { paths_scanned: 0, message_chars: 0 }
}

fn no_sources() -> LocalSources {
    LocalSources { indexeddb: vec![], local_storage: vec![], safari: no_safari() }
}

fn no_signals() -> LocalSessionSignals {
    LocalSessionSignals { conversations: 0, threads: 0, notebooks: 0, transcript_texts: vec![] }
}

fn no_idb() -> IdbProbe {
    IdbProbe {
        paths_scanned: 0,
        folders_found: 0,
        message_chars: 0,
        token_count: 0,
        rejection_reason: None,
    }
}

fn tier_number(tier: WinnerTier) -> f64 {
    tier.hundredths() as f64 / 100.0
}

#[test]
fn pick_winner_prefers_tier3_floor_over_tier2() {
    let (tier, reason) = pick_winner(1200, 630_000, 5_820_000, 18);
    assert_eq!(tier_number(tier), 3.0);
    assert_eq!(reason, WinnerReason::Tier3HoursFloorExceededTier2);
}

#[test]
fn pick_winner_tier2_when_highest() {
    let (tier, reason) = pick_winner(100, 800_000, 400_000, 10);
    assert_eq!(tier_number(tier), 2.0);
    assert_eq!(reason, WinnerReason::Tier2SessionMetadata);
}

#[test]
fn pick_winner_tier1_5_when_highest() {
    let (tier, reason) = pick_winner(900_000, 100, 50_000, 0);
    assert_eq!(tier_number(tier), 1.5);
    assert_eq!(reason, WinnerReason::Tier1_5SnippetText);
}

#[test]
fn idb_probe_rejects_sparse_text() {
    let probe = probe_indexeddb("AI Studio", hours(0.1), &shown(0.1), &vec![]);
    assert_eq!(probe.paths_scanned, 0);
}

#[test]
fn priority_domain_audit_not_accurate_when_tier3_wins() {
    let sel = probe_and_select("Gemini", hours(0.8), &shown(0.8), &no_sources());
    assert!(tier_number(sel.audit.winner_tier) >= 2.0);
    if tier_number(sel.audit.winner_tier) >= 2.0 {
        assert!(!sel.audit.accurate_count_possible);
        assert!(!sel.audit.provider_logged_usage_found);
    }
}

#[test]
fn audit_json_has_required_fields() {
    let sel = probe_and_select("Gemini", hours(0.8), &shown(0.8), &no_sources());
    let v = sel.audit.to_json_value();
    assert!(matches!(v.get("sources_checked"), Some(MetaValue::List(_))));
    assert!(v.get("winner_tier").is_some());
    assert!(v.get("tier_candidates").is_some());
    assert_eq!(v.get("provider_logged_usage_found").and_then(|x| x.as_flag()), Some(false));
}

#[test]
fn audit_record_has_every_member_by_name() {
    let sel = probe_and_select("Gemini", hours(0.8), &shown(0.8), &no_sources());
    let v = sel.audit.to_json_value();
    let three = v.get("tier_candidates").unwrap().get("3").unwrap();
    assert_eq!(three.get("tokens").unwrap().as_count(), Some(720_000));
    assert_eq!(three.get("benchmark_tph").unwrap().as_count(), Some(900_000));
    assert!(matches!(three.get("hours"), Some(MetaValue::Hours(h)) if h.seconds == 2880));
    assert!(v.get("tier_candidates").unwrap().get("2").unwrap().get("sessions").is_none());
    assert!(v.get("idb").unwrap().get("rejection_reason").is_none());
    assert_eq!(v.get("winner_tokens").unwrap().as_count(), Some(720_000));
    assert!(matches!(v.get("winner_tier"), Some(MetaValue::Hundredths(300))));
    assert!(matches!(v.get("winner_reason"), Some(MetaValue::Text(s)) if s == "tier3_active_hours"));
}

#[test]
fn benchmarks_are_those_of_the_tools() {
    assert_eq!(tokens_per_hour_benchmark("ChatGPT"), 1_200_000);
    assert_eq!(tokens_per_hour_benchmark("Gemini"), 900_000);
    assert_eq!(tokens_per_hour_benchmark("Perplexity"), 700_000);
    assert_eq!(tokens_per_hour_benchmark("NotebookLM"), 500_000);
    assert_eq!(tokens_per_hour_benchmark("Grok"), 600_000);
    assert!(is_priority_web_domain("NotebookLM"));
    assert!(!is_priority_web_domain("Grok"));
}

#[test]
fn active_time_gives_at_least_five_hundred_tokens() {
    assert_eq!(tier3_tokens("Gemini", Hours { seconds: 0 }), 0);
    assert_eq!(tier3_tokens("Gemini", Hours { seconds: 1 }), 500);
    assert_eq!(tier3_tokens("ChatGPT", hours(4.85)), 5_820_000);
    assert_eq!(tier3_tokens("ChatGPT", Hours { seconds: u128::MAX }), u64::MAX);
}

#[test]
fn sessions_are_counted_at_their_median() {
    let mut signals = no_signals();
    signals.conversations = 18;
    signals.threads = 3;
    signals.notebooks = 2;
    let (tokens, sessions, kind, detail) = tier2_from_signals("ChatGPT", &signals);
    assert_eq!(tokens, 630_000);
    assert_eq!(sessions, Some(18));
    assert_eq!(kind.as_deref(), Some("conversations"));
    assert_eq!(detail, "18 sidebar conversations (deduped across Chrome profiles)");
    assert_eq!(tier2_from_signals("Perplexity", &signals).0, 36_000);
    assert_eq!(tier2_from_signals("NotebookLM", &signals).0, 160_000);
    assert_eq!(tier2_from_signals("Gemini", &signals).0, 0);
    signals.conversations = u64::MAX;
    assert_eq!(tier2_from_signals("ChatGPT", &signals).0, u64::MAX);
}

#[test]
fn hours_floor_exceeds_sessions_in_words() {
    let mut signals = no_signals();
    signals.conversations = 18;
    let sel = select("ChatGPT", hours(4.85), "4.8", no_idb(), &signals, 2, no_safari());
    assert!(sel.estimated);
    assert_eq!(sel.audit.winner_tokens, 5_820_000);
    assert_eq!(sel.audit.winner_tier, WinnerTier::Tier3);
    assert_eq!(sel.audit.winner_reason, "tier3_hours_floor_exceeded_tier2");
    assert_eq!(
        sel.audit.winner_reason_detail,
        "18 sidebar conversations (deduped across Chrome profiles) with Tier-3 active-hours floor (4.8h × ~1200000 tokens/h)"
    );
    assert_eq!(
        sel.method.as_deref(),
        Some("cl100k_base tokenizer; Tier-2 18 sidebar conversations (deduped across Chrome profiles) with Tier-3 active-hours floor (4.8h × ~1200000 tokens/h)")
    );
    assert_eq!(
        sel.audit.sources_checked,
        vec!["chrome_history", "chrome_local_storage", "safari_web_storage"]
    );
}

#[test]
fn messages_win_only_as_the_largest_estimate_of_a_priority_tool() {
    let found = |tokens: u64| IdbProbe {
        paths_scanned: 1,
        folders_found: 1,
        message_chars: 5000,
        token_count: tokens,
        rejection_reason: None,
    };
    let small = select("ChatGPT", hours(1.0), "1.0", found(2_000), &no_signals(), 0, no_safari());
    assert_eq!(small.audit.winner_tokens, 1_200_000);
    assert!(!small.audit.accurate_count_possible);
    let large =
        select("ChatGPT", hours(1.0), "1.0", found(1_300_000), &no_signals(), 0, no_safari());
    assert_eq!(large.audit.winner_tier, WinnerTier::Tier1);
    assert_eq!(large.audit.winner_tokens, 1_300_000);
    assert!(large.audit.accurate_count_possible);
    assert_eq!(
        large.method.as_deref(),
        Some("cl100k_base tokenizer over Chrome IndexedDB message JSON for ChatGPT; IndexedDB message JSON for ChatGPT")
    );
    let other = select("Grok", hours(1.0), "1.0", found(2_000), &no_signals(), 0, no_safari());
    assert_eq!(other.audit.winner_tokens, 2_000);
    assert!(other.audit.accurate_count_possible);
}

#[test]
fn nothing_is_estimated_without_hours_or_for_other_tools() {
    let none = probe_and_select("ChatGPT", Hours { seconds: 0 }, "0.0", &no_sources());
    assert!(none.unavailable && !none.estimated);
    assert_eq!(
        none.unavailable_reason.as_deref(),
        Some("No active hours recorded for this domain")
    );
    let grok = probe_and_select("Grok", hours(2.0), "2.0", &no_sources());
    assert!(grok.unavailable);
    assert_eq!(
        grok.unavailable_reason.as_deref(),
        Some("Only visit timestamps found in browser history; no local chat transcript storage detected")
    );
    assert_eq!(grok.audit.winner_tokens, 0);
    assert_eq!(grok.audit.winner_reason, "unavailable");
}

#[test]
fn messages_of_indexeddb_are_judged() {
    let message = "This is a message with enough words to be believed as text. ".repeat(10);
    let value = format!("{{\"messages\":[{{\"content\":\"{}\"}}]}}", message.trim());
    let stores = vec![vec![(b"key".to_vec(), value.clone().into_bytes())]];
    let short = probe_indexeddb("Grok", hours(0.2), "0.2", &stores);
    assert!(short.rejection_reason.is_none());
    assert!(short.token_count > 0);
    assert_eq!(short.message_chars, message.trim().len());
    let long = probe_indexeddb("Grok", hours(40.0), "40.0", &stores);
    assert_eq!(long.rejection_reason.as_deref(), Some("sparse_cache"));
    assert_eq!(long.token_count, 0);
    let empty = probe_indexeddb("Grok", hours(1.0), "1.0", &vec![vec![]]);
    assert_eq!(empty.rejection_reason.as_deref(), Some("no_message_text_in_indexeddb"));
}

#[test]
fn safari_storage_is_counted_within_its_limit() {
    let body = b"origin https://gemini.google.com and more".to_vec();
    assert_eq!(add_origin_text("Gemini", &body, 10, 1000), 10 + body.len());
    assert_eq!(add_origin_text("Gemini", &body, 10, 20), 20);
    assert_eq!(add_origin_text("Gemini", b"nothing of it", 10, 1000), 10);
    let probe = probe_safari_web_storage("Gemini", &vec![5, 7]);
    assert_eq!(probe.paths_scanned, 2);
    assert_eq!(probe.message_chars, 12);
    assert_eq!(probe_safari_web_storage("Grok", &vec![5, 7]).paths_scanned, 0);
}

#[test]
fn methods_are_worded_by_tier() {
    assert_eq!(
        format_method_tiered("ChatGPT", WinnerReason::Tier1_5SnippetText, "d"),
        "cl100k_base tokenizer; Tier-1.5 Local Storage snippet text for ChatGPT (d)"
    );
    assert_eq!(
        format_method_tiered("ChatGPT", WinnerReason::Tier2SessionMetadata, "d"),
        "cl100k_base tokenizer; Tier-2 session metadata for ChatGPT (d)"
    );
    assert_eq!(
        format_method_tiered("Gemini", WinnerReason::Tier3ActiveHours, "d"),
        "cl100k_base tokenizer; Tier-3 active-hours benchmark for Gemini (d)"
    );
    assert_eq!(
        WinnerReason::Tier3ActiveHours.human_detail("Gemini", "0.8", ""),
        "0.8h active browser time × ~900000 tokens/h (Gemini stores chats server-side; not provider-logged)"
    );
    assert_eq!(WinnerReason::Unavailable.as_str(), "unavailable");
}
