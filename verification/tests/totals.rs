use howmuchiai::browser_data_audit::{LocalSources, SafariWebStorageProbe};
use howmuchiai::browser_transcripts::{enrich_domain_entry, DASHBOARD_HOURS_ONLY_TOOLS};
use howmuchiai::collections::StrMap;
use howmuchiai::platform::Platform;
use howmuchiai::scan::{
    assemble_scan, compute_totals, format_provider_stats, summary_line, Outcome,
};
use howmuchiai::share::count_tcc_denied;
use howmuchiai::tier::compute_tier;
use howmuchiai::types::{
    Hours, MetaValue, ProviderResult, ScanError, ScanResult, TokenUsage, Totals, SCHEMA_VERSION,
};
use serde_json::Value;

fn json_of(value: &MetaValue) -> Value {
    match value {
        MetaValue::Flag(b) => Value::from(*b),
        MetaValue::Count(n) => Value::from(*n),
        MetaValue::Hours(h) => Value::from(h.seconds as f64 / 3600.0),
        MetaValue::Hundredths(n) => Value::from(*n as f64 / 100.0),
        MetaValue::Text(s) => Value::from(s.clone()),
        MetaValue::List(items) => Value::Array(items.iter().map(json_of).collect()),
        MetaValue::Record(members) => {
            let mut map = serde_json::Map::new();
            for (key, member) in members {
                map.insert(key.clone(), json_of(member));
            }
            Value::Object(map)
        }
    }
}

fn source_json(result: &ProviderResult) -> Value {
    let mut map = serde_json::Map::new();
    if let Some(t) = &result.tokens {
        let mut tokens = serde_json::Map::new();
        tokens.insert("total".to_string(), Value::from(t.total));
        map.insert("tokens".to_string(), Value::Object(tokens));
    }
    map.insert("tokens_estimated".to_string(), Value::from(result.tokens_estimated));
    if let Some(metadata) = &result.metadata {
        let mut details = serde_json::Map::new();
        for i in 0..metadata.len() {
            details.insert(metadata.key(i).clone(), json_of(metadata.value(i)));
        }
        map.insert("metadata".to_string(), Value::Object(details));
    }
    Value::Object(map)
}

fn scan_json(scan: &ScanResult) -> String {
    let mut sources = serde_json::Map::new();
    for i in 0..scan.sources.len() {
        sources.insert(scan.sources.key(i).clone(), source_json(scan.sources.value(i)));
    }
    let mut map = serde_json::Map::new();
    map.insert("schema_version".to_string(), Value::from(scan.schema_version));
    map.insert("sources".to_string(), Value::Object(sources));
    serde_json::to_string(&Value::Object(map)).expect("serialize scan")
}

fn output_only(output_tokens: u64) -> TokenUsage {
    let mut tokens = TokenUsage::default();
    tokens.output_tokens = output_tokens;
    tokens.compute_total();
    tokens
}

#[test]
fn compute_totals_excludes_estimated_provider_tokens() {
    let mut real = ProviderResult::new("Real");
    real.tokens = Some(output_only(100));

    let mut est = ProviderResult::new("Cursor");
    est.tokens = Some(output_only(50_000));
    est.tokens_estimated = true;

    let mut sources = StrMap::new();
    sources.insert("real".into(), real);
    sources.insert("cursor".into(), est);

    let totals = compute_totals(&sources);
    assert_eq!(totals.tokens, 100);
    assert_eq!(totals.estimated_tokens, 50_000);
}

#[test]
fn eight_dashboard_tools_schema_v6_json_roundtrip() {
    let sources_of_none = LocalSources {
        indexeddb: vec![],
        local_storage: vec![],
        safari: SafariWebStorageProbe { paths_scanned: 0, message_chars: 0 },
    };
    let mut domain_map: Vec<(String, MetaValue)> = Vec::new();
    for (i, &name) in DASHBOARD_HOURS_ONLY_TOOLS.iter().enumerate() {
        let hours = (i as f64 + 1.0) * 0.5;
        let span = Hours { seconds: (hours * 3600.0) as u128 };
        let entry = enrich_domain_entry(
            MetaValue::Record(vec![
                ("visits".to_string(), MetaValue::Count(50)),
                ("hours".to_string(), MetaValue::Hours(span)),
            ]),
            name,
            span,
            &format!("{:.1}", hours),
            &sources_of_none,
        );
        domain_map.push((name.to_string(), entry));
    }

    let mut browser = ProviderResult::new("Chrome");
    browser.hours = Some(Hours { seconds: 30_600 });
    browser.visits = Some(500);
    browser.tokens = Some(output_only(42_000));
    browser.tokens_estimated = true;
    browser.tokens_estimate_method =
        Some("cl100k_base over Chrome IndexedDB transcripts in metadata.domains".into());
    let mut metadata = StrMap::new();
    metadata.insert("domains".to_string(), MetaValue::Record(domain_map));
    browser.metadata = Some(metadata);

    let mut cursor = ProviderResult::new("Cursor");
    cursor.hours = Some(Hours { seconds: 57_600 });
    cursor.tokens = Some(output_only(82_000_000));
    cursor.tokens_estimated = true;
    cursor.tokens_estimate_method = Some("cl100k_base over Cursor bubble transcripts".into());

    let scan = assemble_scan(
        "2026-06-20T00:00:00Z".into(),
        Platform::MacOs,
        1,
        "test-device".into(),
        Some("test".into()),
        vec![
            Outcome { name: "chrome_browser".into(), result: Some(browser) },
            Outcome { name: "cursor".into(), result: Some(cursor) },
        ],
        vec![],
    );
    assert_eq!(scan.platform, "macos");
    assert_eq!(scan.totals.tokens, 0);
    assert!(scan.totals.estimated_tokens > 0);
    assert_eq!(scan.totals.estimated_tokens, 82_042_000);

    let parsed: Value = serde_json::from_str(&scan_json(&scan)).expect("parse scan json");
    assert_eq!(parsed.get("schema_version").and_then(|v| v.as_u64()), Some(6));
    assert_eq!(SCHEMA_VERSION, 6);

    let domains = parsed
        .pointer("/sources/chrome_browser/metadata/domains")
        .and_then(|v| v.as_object())
        .expect("browser domains");

    for tool in DASHBOARD_HOURS_ONLY_TOOLS {
        let entry = domains.get(tool).unwrap_or_else(|| panic!("missing {tool}"));
        let hours = entry.get("hours").and_then(|v| v.as_f64()).unwrap_or(0.0);
        assert!(hours > 0.0, "{tool} needs hours in fixture");
        let estimated = entry.get("tokens_estimated").and_then(|v| v.as_bool()) == Some(true);
        let unavailable = entry.get("tokens_unavailable").and_then(|v| v.as_bool()) == Some(true);
        assert!(
            estimated || unavailable,
            "{tool}: JSON must not imply bare 0 tokens when hours > 0"
        );
        if estimated {
            assert!(
                entry.get("tokens_estimate_evidence").is_some(),
                "{tool}: estimated domain needs tokens_estimate_evidence"
            );
        }
    }

    let cursor_src = parsed.pointer("/sources/cursor").expect("cursor source");
    assert_eq!(cursor_src.get("tokens_estimated").and_then(|v| v.as_bool()), Some(true));
    assert!(
        cursor_src.pointer("/tokens/total").and_then(|v| v.as_u64()).unwrap_or(0) > 0
    );
}

#[test]
fn compute_totals_includes_browser_estimated_tokens() {
    let mut browser = ProviderResult::new("Chrome");
    browser.tokens = Some(output_only(1_200));
    browser.tokens_estimated = true;

    let mut sources = StrMap::new();
    sources.insert("chrome_browser".into(), browser);

    let totals = compute_totals(&sources);
    assert_eq!(totals.tokens, 0);
    assert_eq!(totals.estimated_tokens, 1_200);
}

#[test]
fn totals_add_up_and_stop_at_the_largest_number() {
    let result = |n: u64| {
        let mut r = ProviderResult::new("P");
        r.hours = Some(Hours { seconds: n as u128 });
        r.sessions = Some(n);
        r.visits = Some(n);
        r.invocations = Some(n);
        r
    };
    let mut sources = StrMap::new();
    sources.insert("a".into(), result(2));
    sources.insert("b".into(), result(3));
    let totals = compute_totals(&sources);
    assert_eq!(totals.hours.seconds, 5);
    assert_eq!((totals.sessions, totals.visits, totals.invocations), (5, 5, 5));
    sources.insert("c".into(), result(u64::MAX));
    assert_eq!(compute_totals(&sources).sessions, u64::MAX);
}

#[test]
fn a_provider_without_result_is_left_out() {
    let scan = assemble_scan(
        "t".into(),
        Platform::Linux,
        7,
        "id".into(),
        None,
        vec![
            Outcome { name: "none".into(), result: None },
            Outcome { name: "some".into(), result: Some(ProviderResult::new("Some")) },
        ],
        vec!["Codeium".to_string()],
    );
    assert_eq!(scan.sources.len(), 1);
    assert!(scan.sources.get("some").is_some());
    assert_eq!(scan.platform, "linux");
    assert_eq!(scan.detected_tools, vec!["Codeium"]);
    assert_eq!(count_tcc_denied(&scan), 0);
}

#[test]
fn stats_mark_estimates_and_leave_out_zeros() {
    let mut r = ProviderResult::new("P");
    r.hours = Some(Hours { seconds: 360 });
    r.tokens = Some(output_only(1_500));
    r.sessions = Some(3);
    r.visits = Some(0);
    r.invocations = Some(9);
    assert_eq!(
        format_provider_stats(&r, "0.1", "1.5K"),
        "0.1h, 1.5K tokens, 3 sessions, 9 invocations"
    );
    r.tokens_estimated = true;
    r.hours = Some(Hours { seconds: 359 });
    assert_eq!(
        format_provider_stats(&r, "0.1", "1.5K"),
        "~1.5K est. tokens, 3 sessions, 9 invocations"
    );
    assert_eq!(format_provider_stats(&ProviderResult::new("P"), "", ""), "");
}

#[test]
fn summary_tells_hours_tokens_sessions_and_visits() {
    let totals = Totals {
        hours: Hours { seconds: 7200 },
        tokens: 12,
        estimated_tokens: 5,
        sessions: 4,
        visits: 0,
        invocations: 1,
    };
    assert_eq!(
        summary_line(&totals, "2.0", "12", "0"),
        "2.0h \u{2022} 12 tokens \u{2022} 4 sessions"
    );
}

#[test]
fn titles_go_by_hours_or_tokens() {
    let totals = |hours: u128, tokens: u64| Totals {
        hours: Hours { seconds: hours * 3600 },
        tokens,
        estimated_tokens: u64::MAX,
        sessions: 0,
        visits: 0,
        invocations: 0,
    };
    assert_eq!(compute_tier(&totals(1000, 0)), "The Singularity");
    assert_eq!(compute_tier(&totals(0, 10_000_000)), "The Singularity");
    assert_eq!(compute_tier(&totals(999, 5_000_000)), "Neural Link");
    assert_eq!(compute_tier(&totals(200, 0)), "The Architect");
    assert_eq!(compute_tier(&totals(100, 0)), "Prompt Native");
    assert_eq!(compute_tier(&totals(99, 999_999)), "Vibe Coder");
    assert_eq!(compute_tier(&totals(10, 0)), "The Explorer");
    assert_eq!(compute_tier(&totals(9, 0)), "The Purist");
}

#[test]
fn usages_merge_count_by_count() {
    let mut a = TokenUsage {
        input_tokens: 1,
        output_tokens: 2,
        cache_read_tokens: 3,
        cache_creation_tokens: 4,
        total: 0,
    };
    let b = TokenUsage {
        input_tokens: 10,
        output_tokens: 20,
        cache_read_tokens: 30,
        cache_creation_tokens: u64::MAX,
        total: 7,
    };
    a.merge(&b);
    assert_eq!(a.input_tokens, 11);
    assert_eq!(a.output_tokens, 22);
    assert_eq!(a.cache_read_tokens, 33);
    assert_eq!(a.cache_creation_tokens, u64::MAX);
    assert_eq!(a.total, u64::MAX);
    let before = a;
    a.merge(&TokenUsage::default());
    assert_eq!(a, before);
}

#[test]
fn errors_say_what_went_wrong() {
    assert_eq!(ScanError::Io("x".into()).message(), "IO error: x");
    assert_eq!(ScanError::Sqlite("x".into()).message(), "SQLite error: x");
    assert_eq!(ScanError::Json("x".into()).message(), "JSON parse error: x");
    assert_eq!(ScanError::NotFound("x".into()).message(), "Data source not found: x");
    assert_eq!(ScanError::PermissionDenied("x".into()).message(), "Permission denied: x");
}
