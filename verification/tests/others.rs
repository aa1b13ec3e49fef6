use howmuchiai::browser_data_audit::{LocalSources, SafariWebStorageProbe};
use howmuchiai::names::{agent_name_text, agent_title_text, agent_word_text};
use howmuchiai::platform::{
    aider_history_path, amazon_q_dir, arc_history_paths, bash_history_path, brave_history_paths,
    chatgpt_desktop_dirs, chrome_history_paths, claude_desktop_sessions_dir, claude_projects_dir,
    codeium_dir, codex_dir, codex_sessions_dir, codex_sqlite, continue_dir, cursor_state_db,
    detect_platform, dia_history_paths, edge_history_paths, firefox_history_pattern,
    fish_history_path, gemini_dir, join_path, ollama_models_dir, openclaw_dirs,
    safari_history_path, tabnine_dir, vscode_workspace_storage_dir, warp_sqlite_path,
    windsurf_paths, zsh_history_path, Platform,
};
use howmuchiai::providers::aider::AiderProvider;
use howmuchiai::providers::browser::{
    chromium_query, domain_case_expr, domain_like_conditions, scan_chromium_history,
    scan_firefox_history, scan_safari_history, Clock, DomainEvidence, VisitLog, VisitRow,
};
use howmuchiai::providers::chatgpt_desktop::{ChatGPTDesktopProvider, Payload};
use howmuchiai::providers::continue_ext::ContinueProvider;
use howmuchiai::providers::copilot::CopilotProvider;
use howmuchiai::providers::detection::{detect_tools, FoundTools};
use howmuchiai::providers::jetbrains::{IdeOptions, JetBrainsProvider};
use howmuchiai::providers::ollama::OllamaProvider;
use howmuchiai::providers::shell_history::{
    fish_command_list, match_ai_tool, match_lowered, ShellHistories, ShellHistoryProvider,
};
use howmuchiai::providers::warp::{QueryRow, WarpProvider};
use howmuchiai::providers::{all_providers, Provider};
use howmuchiai::types::{MetaValue, ScanError};

fn strings(list: &[&str]) -> Vec<String> {
    list.iter().map(|s| s.to_string()).collect()
}

#[test]
fn tools_are_matched_at_the_start_of_a_word() {
    assert_eq!(match_ai_tool("codex exec"), Some("Codex CLI".to_string()));
    assert_eq!(match_ai_tool("cd x && AIDER --help"), Some("Aider".to_string()));
    assert_eq!(match_ai_tool("cat f|ollama run m"), Some("Ollama".to_string()));
    assert_eq!(match_ai_tool("/usr/bin/gemini"), Some("Gemini CLI".to_string()));
    assert_eq!(match_ai_tool(&format!("sudo {} -p", agent_word_text())), Some(agent_title_text()));
    assert_eq!(match_ai_tool("vim mycursor.txt"), None);
    assert_eq!(match_ai_tool("mycursor; cursor"), None);
    assert_eq!(match_ai_tool("gh copilot suggest"), Some("Copilot".to_string()));
    assert_eq!(match_ai_tool("kimi; devin"), Some("Devin".to_string()));
    assert_eq!(match_ai_tool("ls -la"), None);
    assert_eq!(match_lowered("AIDER"), None);
    assert_eq!(match_lowered("xgh copilot"), Some("Copilot".to_string()));
}

#[test]
fn histories_of_all_shells_are_counted() {
    let histories = ShellHistories {
        zsh: Some(b": 1705276800:0;codex run\n: 1705363200:3;ls\n: 99999999999999999999:0;codex\nollama list\n: 1705363201:0;aider \xff\n".to_vec()),
        bash: Some(strings(&["codex again", "ls"])),
        fish: Some(strings(&["- cmd: gemini ask", "  when: 1705276800", "- cmd: ls", "- path: x"])),
    };
    let r = ShellHistoryProvider.scan(&histories).expect("result");
    assert_eq!(r.invocations, Some(5));
    assert_eq!(r.first_seen, Some(1_705_276_800));
    assert_eq!(r.last_seen, Some(1_705_363_201));
    let days = r.daily_buckets.as_ref().unwrap();
    assert_eq!(days.get("2024-01-15").unwrap().invocations, Some(1));
    assert_eq!(days.get("2024-01-16").unwrap().invocations, Some(1));
    assert_eq!(days.get("2024-01-15").unwrap().hours.seconds, 0);
    let tools = r.metadata.as_ref().unwrap().get("tools").unwrap();
    assert_eq!(tools.get("Codex CLI").unwrap().as_count(), Some(2));
    assert_eq!(tools.get("Ollama").unwrap().as_count(), Some(1));
    assert_eq!(tools.get("Aider").unwrap().as_count(), Some(1));
    assert_eq!(tools.get("Gemini CLI").unwrap().as_count(), Some(1));
}

#[test]
fn histories_without_tools_are_not_found() {
    let histories = ShellHistories { zsh: None, bash: Some(strings(&["ls"])), fish: None };
    assert!(matches!(
        ShellHistoryProvider.scan(&histories),
        Err(ScanError::NotFound(s)) if s == "No AI tool invocations found in shell history"
    ));
    assert_eq!(fish_command_list(&strings(&["- cmd: a b ", "cmd: c"])), strings(&["a b"]));
}

#[test]
fn warp_counts_queries_by_conversation_and_model() {
    let row = |c: &str, t: &str, m: Option<&str>| QueryRow {
        conversation_id: c.to_string(),
        start_ts: t.to_string(),
        model_id: m.map(|m| m.to_string()),
    };
    let r = WarpProvider.scan(&vec![
        row("a", "2024-01-15 00:00:00.123", Some("x")),
        row("a", "2024-01-15 00:10:00", Some("x")),
        row("b", "whenever", Some("y")),
        row("b", "2024-01-15 00:20:00", None),
    ]);
    assert_eq!(r.sessions, Some(2));
    assert_eq!(r.invocations, Some(4));
    assert_eq!(r.hours.unwrap().seconds, 1_200);
    assert_eq!(r.first_seen, Some(1_705_276_800));
    let models = r.metadata.as_ref().unwrap().get("models").unwrap();
    assert_eq!(models.get("x").unwrap().as_count(), Some(2));
    assert_eq!(models.get("y").unwrap().as_count(), Some(1));
    assert_eq!(r.daily_buckets.as_ref().unwrap().get("2024-01-15").unwrap().sessions, 2);
    let none = WarpProvider.scan(&vec![]);
    assert_eq!((none.sessions, none.invocations), (Some(0), Some(0)));
    assert!(none.metadata.is_none());
}

#[test]
fn copilot_counts_workspaces() {
    let r = CopilotProvider.scan(&vec![true, false, true]);
    assert_eq!(r.invocations, Some(2));
    let metadata = r.metadata.as_ref().unwrap();
    assert_eq!(metadata.get("workspaces_scanned").unwrap().as_count(), Some(3));
    assert_eq!(metadata.get("workspaces_with_copilot").unwrap().as_count(), Some(2));
    let none = CopilotProvider.scan(&vec![]);
    assert_eq!(none.invocations, Some(0));
    assert!(none.metadata.is_none());
}

#[test]
fn desktop_conversations_are_estimated_by_size() {
    let files = vec![
        Payload { size: Some(10), modified: Some(7) },
        Payload { size: None, modified: None },
        Payload { size: Some(31), modified: Some(5) },
    ];
    let r = ChatGPTDesktopProvider.scan(1, &files).expect("result");
    assert_eq!(r.sessions, Some(3));
    assert_eq!((r.first_seen, r.last_seen), (Some(5), Some(7)));
    assert_eq!(r.tokens.unwrap().output_tokens, 10);
    assert!(r.tokens_estimated);
    assert_eq!(
        r.tokens_estimate_method.as_deref(),
        Some("cl100k_base tokenizer; estimated from 3 encrypted Atlas .data payloads (41 bytes ÷ 4 bytes/token heuristic)")
    );
    assert_eq!(
        r.metadata.as_ref().unwrap().get("payload_bytes").unwrap().as_count(),
        Some(41)
    );
    let tiny = ChatGPTDesktopProvider.scan(1, &vec![Payload { size: Some(0), modified: None }]);
    assert_eq!(tiny.expect("result").tokens.unwrap().total, 1);
    assert!(matches!(
        ChatGPTDesktopProvider.scan(0, &files),
        Err(ScanError::NotFound(s)) if s == "ChatGPT Desktop/Atlas not found"
    ));
    assert!(matches!(
        ChatGPTDesktopProvider.scan(1, &vec![]),
        Err(ScanError::NotFound(s)) if s == "No ChatGPT Desktop/Atlas conversations found"
    ));
}

fn listed(value: &MetaValue) -> Vec<String> {
    match value {
        MetaValue::List(items) => items
            .iter()
            .map(|i| match i {
                MetaValue::Text(s) => s.clone(),
                _ => panic!("no text"),
            })
            .collect(),
        _ => panic!("no list"),
    }
}

#[test]
fn ides_with_assistant_are_listed_in_order() {
    let ide = |name: &str, content: Option<&str>| IdeOptions {
        ide: Some(name.to_string()),
        content: content.map(|c| c.to_string()),
    };
    let r = JetBrainsProvider
        .scan(
            true,
            &vec![
                ide("WebStorm", Some("<x>ai.assistant</x>")),
                ide("CLion", Some("<x>AIAssistant</x>")),
                ide("GoLand", Some("<x/>")),
                ide("Rider", None),
            ],
        )
        .expect("result");
    assert_eq!(r.invocations, Some(2));
    assert_eq!(
        listed(r.metadata.as_ref().unwrap().get("ides_with_ai").unwrap()),
        strings(&["CLion", "WebStorm"])
    );
    assert_eq!(JetBrainsProvider.scan(true, &vec![]).expect("result").invocations, Some(0));
    assert!(matches!(
        JetBrainsProvider.scan(false, &vec![]),
        Err(ScanError::NotFound(s)) if s == "JetBrains directory not found"
    ));
}

#[test]
fn models_and_sessions_and_lines_are_counted() {
    let r = OllamaProvider.scan(Some(strings(&["qwen", "llama", "Zephyr"])));
    assert_eq!(r.invocations, Some(3));
    assert_eq!(
        listed(r.metadata.as_ref().unwrap().get("models").unwrap()),
        strings(&["Zephyr", "llama", "qwen"])
    );
    assert_eq!(OllamaProvider.scan(None).invocations, Some(0));
    let c = ContinueProvider.scan(Some(4));
    assert_eq!(c.sessions, Some(4));
    assert_eq!(c.metadata.as_ref().unwrap().get("session_files").unwrap().as_count(), Some(4));
    assert!(ContinueProvider.scan(None).metadata.is_none());
    assert_eq!(AiderProvider.scan("one\n\n  \r\ntwo\r\nthree").invocations, Some(3));
    assert_eq!(AiderProvider.scan("").invocations, Some(0));
}

#[test]
fn tools_without_usage_are_detected() {
    let mut found = FoundTools {
        codeium: false,
        tabnine: true,
        amazon_q: true,
        supermaven: false,
        roo_code: true,
        windsurf: true,
    };
    assert_eq!(detect_tools(found), strings(&["Tabnine", "Amazon Q", "Roo Code", "Windsurf"]));
    found.codeium = true;
    assert_eq!(detect_tools(found)[0], "Codeium");
}

fn no_evidence(shown: &str) -> DomainEvidence {
    DomainEvidence {
        shown: shown.to_string(),
        sources: LocalSources {
            indexeddb: vec![],
            local_storage: vec![],
            safari: SafariWebStorageProbe { paths_scanned: 0, message_chars: 0 },
        },
    }
}

fn visit(domain: &str, time: i64) -> VisitRow {
    VisitRow { domain: domain.to_string(), time }
}

#[test]
fn visits_are_reported_by_app() {
    let rows = vec![
        visit("Gemini", 1_705_276_800),
        visit("Poe", 1_705_276_900),
        visit("Gemini", 1_705_278_600),
        visit("Gemini", 12),
        visit("Gemini", 2_000_000_001),
    ];
    let log = VisitLog::gather(&rows, Clock::Unix);
    assert_eq!(log.domain_count(), 2);
    assert_eq!(log.domain_name(0), "Gemini");
    assert_eq!(log.domain_hours(0).seconds, 1_800);
    assert_eq!(log.domain_hours(1).seconds, 60);
    let evidence = vec![no_evidence("0.5"), no_evidence("0.0")];
    let r = scan_chromium_history(1, "Chrome", &log, &evidence).expect("result");
    assert_eq!(r.provider, "Chrome");
    assert_eq!(r.visits, Some(3));
    assert_eq!(r.hours.unwrap().seconds, 1_800);
    assert_eq!((r.first_seen, r.last_seen), (Some(1_705_276_800), Some(1_705_278_600)));
    let domains = r.metadata.as_ref().unwrap().get("domains").unwrap();
    let gemini = domains.get("Gemini").unwrap();
    assert_eq!(gemini.get("visits").unwrap().as_count(), Some(2));
    assert!(matches!(gemini.get("hours"), Some(MetaValue::Hundredths(50))));
    assert_eq!(gemini.get("tokens").unwrap().get("total").unwrap().as_count(), Some(450_000));
    let poe = domains.get("Poe").unwrap();
    assert_eq!(poe.get("tokens_unavailable").unwrap().as_flag(), Some(true));
    assert!(poe.get("tokens").is_none());
    assert_eq!(r.tokens.unwrap().total, 450_000);
    assert!(r.tokens_estimated);
    let day = r.daily_buckets.as_ref().unwrap().get("2024-01-15").unwrap();
    assert_eq!(day.hours.seconds, 1_800);
    assert_eq!((day.tokens, day.sessions), (0, 0));
}

#[test]
fn clocks_differ_by_browser() {
    let chrome = VisitLog::gather(&vec![visit("Poe", 13_349_750_400_000_000)], Clock::Chromium);
    assert_eq!(chrome.domain_count(), 1);
    let firefox = VisitLog::gather(&vec![visit("Poe", 1_705_276_800_000_000)], Clock::Firefox);
    let r = scan_firefox_history(1, &firefox, &vec![no_evidence("0.0")]).expect("result");
    assert_eq!(r.first_seen, Some(1_705_276_800));
    assert!(r.tokens.is_none() && !r.tokens_estimated);
}

#[test]
fn histories_without_visits_are_not_found() {
    let none = VisitLog::gather(&vec![], Clock::Chromium);
    assert!(matches!(
        scan_chromium_history(0, "Dia", &none, &vec![]),
        Err(ScanError::NotFound(s)) if s == "No Dia history databases found"
    ));
    assert!(matches!(
        scan_chromium_history(1, "Dia", &none, &vec![]),
        Err(ScanError::NotFound(s)) if s == "No AI site visits found in Dia"
    ));
    assert!(matches!(
        scan_firefox_history(0, &none, &vec![]),
        Err(ScanError::NotFound(s)) if s == "No Firefox history databases found"
    ));
    assert!(matches!(
        scan_safari_history(&none, &vec![]),
        Err(ScanError::NotFound(s)) if s == "No AI site visits found in Safari"
    ));
}

#[test]
fn queries_name_apps_and_never_addresses() {
    let case = domain_case_expr("u.url");
    assert!(case.starts_with("CASE WHEN u.url LIKE '%"));
    assert!(case.contains("WHEN u.url LIKE '%poe.com%' THEN 'Poe'"));
    assert!(case.contains(&format!("THEN '{}.ai'", agent_name_text())));
    assert!(case.ends_with(" END"));
    let conditions = domain_like_conditions("p.url");
    assert!(conditions.contains("p.url LIKE '%chatgpt.com%' OR p.url LIKE '%chat.openai.com%'"));
    let query = chromium_query();
    assert!(query.starts_with(&format!("SELECT {}, v.visit_time, v.visit_duration FROM", case)));
    assert!(query.contains("AND u.url NOT LIKE '%/oauth%' ORDER BY v.visit_time"));
}

#[test]
fn every_provider_has_its_own_name() {
    let all = all_providers();
    assert_eq!(all.len(), 25);
    for (i, a) in all.iter().enumerate() {
        for b in &all[i + 1..] {
            assert_ne!(a.name, b.name);
            assert_ne!(a.display_name, b.display_name);
        }
    }
    assert_eq!(all[0].name, "claude_code");
    assert_eq!(all[0].display_name, agent_title_text());
    assert_eq!(WarpProvider.name(), "warp");
    assert_eq!(WarpProvider.display_name(), "Warp Terminal AI");
}

#[test]
fn places_stand_below_the_home_directory() {
    let mac = Platform::MacOs;
    let linux = Platform::Linux;
    assert_eq!(detect_platform(mac), "macos");
    assert_eq!(detect_platform(linux), "linux");
    assert_eq!(detect_platform(Platform::Unknown), "unknown");
    assert_eq!(join_path("/", "x"), "/x");
    assert_eq!(join_path("/h", "x"), "/h/x");
    assert_eq!(claude_projects_dir("/h"), format!("/h/.{}/projects", agent_word_text()));
    assert_eq!(
        claude_desktop_sessions_dir("/h", mac),
        vec![format!(
            "/h/Library/Application Support/{}/local-agent-mode-sessions",
            agent_name_text()
        )]
    );
    assert!(claude_desktop_sessions_dir("/h", linux).is_empty());
    assert_eq!(codex_dir("/h"), "/h/.codex");
    assert_eq!(codex_sqlite("/h"), "/h/.codex/state_5.sqlite");
    assert_eq!(codex_sessions_dir("/h"), "/h/.codex/sessions");
    assert_eq!(
        chrome_history_paths("/h", mac, &strings(&["Profile 1", "Guest"])),
        strings(&[
            "/h/Library/Application Support/Google/Chrome/Default/History",
            "/h/Library/Application Support/Google/Chrome/Profile 1/History",
        ])
    );
    assert_eq!(
        chrome_history_paths("/h", linux, &strings(&["Profile 1"])),
        strings(&["/h/.config/google-chrome/Default/History"])
    );
    assert!(arc_history_paths("/h", linux).is_empty());
    assert_eq!(
        dia_history_paths("/h", mac),
        strings(&["/h/Library/Application Support/Dia/User Data/Default/History"])
    );
    assert_eq!(
        brave_history_paths("/h", linux),
        "/h/.config/BraveSoftware/Brave-Browser/Default/History"
    );
    assert_eq!(edge_history_paths("/h", linux), "/h/.config/microsoft-edge/Default/History");
    assert_eq!(safari_history_path("/h", mac), strings(&["/h/Library/Safari/History.db"]));
    assert_eq!(firefox_history_pattern("/h", linux), "/h/.mozilla/firefox/*/places.sqlite");
    assert_eq!(chatgpt_desktop_dirs("/h", mac).len(), 2);
    assert_eq!(
        cursor_state_db("/h", linux),
        "/h/.config/Cursor/User/globalStorage/state.vscdb"
    );
    assert_eq!(warp_sqlite_path("/h", mac).len(), 2);
    assert_eq!(gemini_dir("/h"), "/h/.gemini");
    assert_eq!(
        vscode_workspace_storage_dir("/h", linux),
        "/h/.config/Code/User/workspaceStorage"
    );
    assert_eq!(zsh_history_path("/h"), "/h/.zsh_history");
    assert_eq!(bash_history_path("/h"), "/h/.bash_history");
    assert_eq!(fish_history_path("/h"), "/h/.local/share/fish/fish_history");
    assert_eq!(aider_history_path("/h"), "/h/.aider.history");
    assert_eq!(continue_dir("/h"), "/h/.continue");
    assert_eq!(ollama_models_dir("/h"), "/h/.ollama/models");
    assert_eq!(codeium_dir("/h"), "/h/.codeium");
    assert_eq!(tabnine_dir("/h"), "/h/.tabnine");
    assert_eq!(amazon_q_dir("/h"), "/h/.aws/amazonq");
    assert_eq!(openclaw_dirs("/h")[0], "/h/.openclaw");
    assert_eq!(windsurf_paths("/h")[2], "/h/.local/bin/windsurf");
}
