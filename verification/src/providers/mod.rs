//! What each AI tool leaves on disk, and what can be told from it.

pub mod aider;
pub mod amp;
pub mod browser;
pub mod chatgpt_desktop;
pub mod claude_code;
pub mod codex;
pub mod continue_ext;
pub mod copilot;
pub mod cursor;
pub mod detection;
pub mod droid;
pub mod gemini;
pub mod jetbrains;
pub mod kimi;
pub mod ollama;
pub mod openclaw;
pub mod opencode;
pub mod qwen;
pub mod shell_history;
pub mod warp;

use crate::providers::aider::AiderProvider;
use crate::providers::amp::AmpProvider;
use crate::providers::browser::ArcProvider;
use crate::providers::browser::BraveProvider;
use crate::providers::browser::ChromeProvider;
use crate::providers::browser::DiaProvider;
use crate::providers::browser::EdgeProvider;
use crate::providers::browser::FirefoxProvider;
use crate::providers::browser::SafariProvider;
use crate::providers::chatgpt_desktop::ChatGPTDesktopProvider;
use crate::providers::claude_code::ClaudeCodeProvider;
use crate::providers::codex::CodexProvider;
use crate::providers::continue_ext::ContinueProvider;
use crate::providers::copilot::CopilotProvider;
use crate::providers::cursor::CursorProvider;
use crate::providers::droid::DroidProvider;
use crate::providers::gemini::GeminiProvider;
use crate::providers::jetbrains::JetBrainsProvider;
use crate::providers::kimi::KimiProvider;
use crate::providers::ollama::OllamaProvider;
use crate::providers::openclaw::OpenClawProvider;
use crate::providers::opencode::OpenCodeProvider;
use crate::providers::qwen::QwenProvider;
use crate::providers::shell_history::ShellHistoryProvider;
use crate::providers::warp::WarpProvider;
use crate::names::{agent_title, agent_title_text, AGENT_ID};
use vstd::prelude::*;

verus! {

/// A source of usage data on this machine.
pub trait Provider {
    /// The name for programs.
    spec fn id(&self) -> Seq<char>;

    /// The name for people.
    spec fn label(&self) -> Seq<char>;

    /// The name for programs, such as `claude_code`.
    fn name(&self) -> (r: &'static str)
        ensures
            r@ == self.id(),
    ;

    /// The name for people.
    fn display_name(&self) -> (r: String)
        ensures
            r@ == self.label(),
    ;
}

impl Provider for ClaudeCodeProvider {
    open spec fn id(&self) -> Seq<char> {
        AGENT_ID@
    }

    open spec fn label(&self) -> Seq<char> {
        agent_title()
    }

    fn name(&self) -> (r: &'static str) {
        AGENT_ID
    }

    fn display_name(&self) -> (r: String) {
        agent_title_text()
    }
}

impl Provider for ChatGPTDesktopProvider {
    open spec fn id(&self) -> Seq<char> {
        "chatgpt_desktop"@
    }

    open spec fn label(&self) -> Seq<char> {
        "ChatGPT Desktop"@
    }

    fn name(&self) -> (r: &'static str) {
        "chatgpt_desktop"
    }

    fn display_name(&self) -> (r: String) {
        "ChatGPT Desktop".to_string()
    }
}

impl Provider for ChromeProvider {
    open spec fn id(&self) -> Seq<char> {
        "chrome_browser"@
    }

    open spec fn label(&self) -> Seq<char> {
        "Chrome Browser"@
    }

    fn name(&self) -> (r: &'static str) {
        "chrome_browser"
    }

    fn display_name(&self) -> (r: String) {
        "Chrome Browser".to_string()
    }
}

impl Provider for ArcProvider {
    open spec fn id(&self) -> Seq<char> {
        "arc_browser"@
    }

    open spec fn label(&self) -> Seq<char> {
        "Arc Browser"@
    }

    fn name(&self) -> (r: &'static str) {
        "arc_browser"
    }

    fn display_name(&self) -> (r: String) {
        "Arc Browser".to_string()
    }
}

impl Provider for BraveProvider {
    open spec fn id(&self) -> Seq<char> {
        "brave_browser"@
    }

    open spec fn label(&self) -> Seq<char> {
        "Brave Browser"@
    }

    fn name(&self) -> (r: &'static str) {
        "brave_browser"
    }

    fn display_name(&self) -> (r: String) {
        "Brave Browser".to_string()
    }
}

impl Provider for EdgeProvider {
    open spec fn id(&self) -> Seq<char> {
        "edge_browser"@
    }

    open spec fn label(&self) -> Seq<char> {
        "Edge Browser"@
    }

    fn name(&self) -> (r: &'static str) {
        "edge_browser"
    }

    fn display_name(&self) -> (r: String) {
        "Edge Browser".to_string()
    }
}

impl Provider for DiaProvider {
    open spec fn id(&self) -> Seq<char> {
        "dia_browser"@
    }

    open spec fn label(&self) -> Seq<char> {
        "Dia Browser"@
    }

    fn name(&self) -> (r: &'static str) {
        "dia_browser"
    }

    fn display_name(&self) -> (r: String) {
        "Dia Browser".to_string()
    }
}

impl Provider for SafariProvider {
    open spec fn id(&self) -> Seq<char> {
        "safari_browser"@
    }

    open spec fn label(&self) -> Seq<char> {
        "Safari Browser"@
    }

    fn name(&self) -> (r: &'static str) {
        "safari_browser"
    }

    fn display_name(&self) -> (r: String) {
        "Safari Browser".to_string()
    }
}

impl Provider for FirefoxProvider {
    open spec fn id(&self) -> Seq<char> {
        "firefox_browser"@
    }

    open spec fn label(&self) -> Seq<char> {
        "Firefox Browser"@
    }

    fn name(&self) -> (r: &'static str) {
        "firefox_browser"
    }

    fn display_name(&self) -> (r: String) {
        "Firefox Browser".to_string()
    }
}

impl Provider for CodexProvider {
    open spec fn id(&self) -> Seq<char> {
        "codex"@
    }

    open spec fn label(&self) -> Seq<char> {
        "Codex (OpenAI)"@
    }

    fn name(&self) -> (r: &'static str) {
        "codex"
    }

    fn display_name(&self) -> (r: String) {
        "Codex (OpenAI)".to_string()
    }
}

impl Provider for CursorProvider {
    open spec fn id(&self) -> Seq<char> {
        "cursor"@
    }

    open spec fn label(&self) -> Seq<char> {
        "Cursor IDE"@
    }

    fn name(&self) -> (r: &'static str) {
        "cursor"
    }

    fn display_name(&self) -> (r: String) {
        "Cursor IDE".to_string()
    }
}

impl Provider for ShellHistoryProvider {
    open spec fn id(&self) -> Seq<char> {
        "shell_history"@
    }

    open spec fn label(&self) -> Seq<char> {
        "Shell History"@
    }

    fn name(&self) -> (r: &'static str) {
        "shell_history"
    }

    fn display_name(&self) -> (r: String) {
        "Shell History".to_string()
    }
}

impl Provider for CopilotProvider {
    open spec fn id(&self) -> Seq<char> {
        "github_copilot"@
    }

    open spec fn label(&self) -> Seq<char> {
        "GitHub Copilot"@
    }

    fn name(&self) -> (r: &'static str) {
        "github_copilot"
    }

    fn display_name(&self) -> (r: String) {
        "GitHub Copilot".to_string()
    }
}

impl Provider for WarpProvider {
    open spec fn id(&self) -> Seq<char> {
        "warp"@
    }

    open spec fn label(&self) -> Seq<char> {
        "Warp Terminal AI"@
    }

    fn name(&self) -> (r: &'static str) {
        "warp"
    }

    fn display_name(&self) -> (r: String) {
        "Warp Terminal AI".to_string()
    }
}

impl Provider for GeminiProvider {
    open spec fn id(&self) -> Seq<char> {
        "gemini_cli"@
    }

    open spec fn label(&self) -> Seq<char> {
        "Gemini CLI"@
    }

    fn name(&self) -> (r: &'static str) {
        "gemini_cli"
    }

    fn display_name(&self) -> (r: String) {
        "Gemini CLI".to_string()
    }
}

impl Provider for AiderProvider {
    open spec fn id(&self) -> Seq<char> {
        "aider"@
    }

    open spec fn label(&self) -> Seq<char> {
        "Aider"@
    }

    fn name(&self) -> (r: &'static str) {
        "aider"
    }

    fn display_name(&self) -> (r: String) {
        "Aider".to_string()
    }
}

impl Provider for ContinueProvider {
    open spec fn id(&self) -> Seq<char> {
        "continue_dev"@
    }

    open spec fn label(&self) -> Seq<char> {
        "Continue"@
    }

    fn name(&self) -> (r: &'static str) {
        "continue_dev"
    }

    fn display_name(&self) -> (r: String) {
        "Continue".to_string()
    }
}

impl Provider for OllamaProvider {
    open spec fn id(&self) -> Seq<char> {
        "ollama"@
    }

    open spec fn label(&self) -> Seq<char> {
        "Ollama"@
    }

    fn name(&self) -> (r: &'static str) {
        "ollama"
    }

    fn display_name(&self) -> (r: String) {
        "Ollama".to_string()
    }
}

impl Provider for JetBrainsProvider {
    open spec fn id(&self) -> Seq<char> {
        "jetbrains_ai"@
    }

    open spec fn label(&self) -> Seq<char> {
        "JetBrains AI Assistant"@
    }

    fn name(&self) -> (r: &'static str) {
        "jetbrains_ai"
    }

    fn display_name(&self) -> (r: String) {
        "JetBrains AI Assistant".to_string()
    }
}

impl Provider for OpenCodeProvider {
    open spec fn id(&self) -> Seq<char> {
        "opencode"@
    }

    open spec fn label(&self) -> Seq<char> {
        "OpenCode"@
    }

    fn name(&self) -> (r: &'static str) {
        "opencode"
    }

    fn display_name(&self) -> (r: String) {
        "OpenCode".to_string()
    }
}

impl Provider for AmpProvider {
    open spec fn id(&self) -> Seq<char> {
        "amp"@
    }

    open spec fn label(&self) -> Seq<char> {
        "Amp"@
    }

    fn name(&self) -> (r: &'static str) {
        "amp"
    }

    fn display_name(&self) -> (r: String) {
        "Amp".to_string()
    }
}

impl Provider for DroidProvider {
    open spec fn id(&self) -> Seq<char> {
        "droid"@
    }

    open spec fn label(&self) -> Seq<char> {
        "Droid (Factory)"@
    }

    fn name(&self) -> (r: &'static str) {
        "droid"
    }

    fn display_name(&self) -> (r: String) {
        "Droid (Factory)".to_string()
    }
}

impl Provider for QwenProvider {
    open spec fn id(&self) -> Seq<char> {
        "qwen_cli"@
    }

    open spec fn label(&self) -> Seq<char> {
        "Qwen CLI"@
    }

    fn name(&self) -> (r: &'static str) {
        "qwen_cli"
    }

    fn display_name(&self) -> (r: String) {
        "Qwen CLI".to_string()
    }
}

impl Provider for KimiProvider {
    open spec fn id(&self) -> Seq<char> {
        "kimi_cli"@
    }

    open spec fn label(&self) -> Seq<char> {
        "Kimi CLI"@
    }

    fn name(&self) -> (r: &'static str) {
        "kimi_cli"
    }

    fn display_name(&self) -> (r: String) {
        "Kimi CLI".to_string()
    }
}

impl Provider for OpenClawProvider {
    open spec fn id(&self) -> Seq<char> {
        "openclaw"@
    }

    open spec fn label(&self) -> Seq<char> {
        "OpenClaw"@
    }

    fn name(&self) -> (r: &'static str) {
        "openclaw"
    }

    fn display_name(&self) -> (r: String) {
        "OpenClaw".to_string()
    }
}

/// The names of a provider.
#[derive(Debug)]
pub struct ProviderEntry {
    pub name: &'static str,
    pub display_name: String,
}

/// The names of all providers, in the order in which they are scanned.
pub open spec fn registry() -> Seq<(Seq<char>, Seq<char>)> {
    seq![
        (AGENT_ID@, agent_title()),
        ("chatgpt_desktop"@, "ChatGPT Desktop"@),
        ("chrome_browser"@, "Chrome Browser"@),
        ("arc_browser"@, "Arc Browser"@),
        ("brave_browser"@, "Brave Browser"@),
        ("edge_browser"@, "Edge Browser"@),
        ("dia_browser"@, "Dia Browser"@),
        ("safari_browser"@, "Safari Browser"@),
        ("firefox_browser"@, "Firefox Browser"@),
        ("codex"@, "Codex (OpenAI)"@),
        ("cursor"@, "Cursor IDE"@),
        ("shell_history"@, "Shell History"@),
        ("github_copilot"@, "GitHub Copilot"@),
        ("warp"@, "Warp Terminal AI"@),
        ("gemini_cli"@, "Gemini CLI"@),
        ("aider"@, "Aider"@),
        ("continue_dev"@, "Continue"@),
        ("ollama"@, "Ollama"@),
        ("jetbrains_ai"@, "JetBrains AI Assistant"@),
        ("opencode"@, "OpenCode"@),
        ("amp"@, "Amp"@),
        ("droid"@, "Droid (Factory)"@),
        ("qwen_cli"@, "Qwen CLI"@),
        ("kimi_cli"@, "Kimi CLI"@),
        ("openclaw"@, "OpenClaw"@),
    ]
}

/// What some entries say.
pub open spec fn entry_views(entries: Seq<ProviderEntry>) -> Seq<(Seq<char>, Seq<char>)> {
    entries.map_values(|e: ProviderEntry| (e.name@, e.display_name@))
}

fn entry_of<P: Provider>(provider: P) -> (r: ProviderEntry)
    ensures
        r.name@ == provider.id(),
        r.display_name@ == provider.label(),
{
    ProviderEntry { name: provider.name(), display_name: provider.display_name() }
}

/// The names of all providers, in the order in which they are scanned.
pub fn all_providers() -> (r: Vec<ProviderEntry>)
    ensures
        entry_views(r@) == registry(),
{
    let r: Vec<ProviderEntry> = vec![
        entry_of(ClaudeCodeProvider),
        entry_of(ChatGPTDesktopProvider),
        entry_of(ChromeProvider),
        entry_of(ArcProvider),
        entry_of(BraveProvider),
        entry_of(EdgeProvider),
        entry_of(DiaProvider),
        entry_of(SafariProvider),
        entry_of(FirefoxProvider),
        entry_of(CodexProvider),
        entry_of(CursorProvider),
        entry_of(ShellHistoryProvider),
        entry_of(CopilotProvider),
        entry_of(WarpProvider),
        entry_of(GeminiProvider),
        entry_of(AiderProvider),
        entry_of(ContinueProvider),
        entry_of(OllamaProvider),
        entry_of(JetBrainsProvider),
        entry_of(OpenCodeProvider),
        entry_of(AmpProvider),
        entry_of(DroidProvider),
        entry_of(QwenProvider),
        entry_of(KimiProvider),
        entry_of(OpenClawProvider),
    ];
    assert(entry_views(r@) =~= registry());
    r
}

} // verus!
