//! What can be told on this machine of the tokens of a web AI tool.
//!
//! Everything that can be read is looked at, every estimate that it allows is written down, and
//! the largest is taken, with the reason.

use crate::browser_local_storage::{
    collect_session_signals, conversation_set, found_texts, longest_list, notebook_set, thread_set,
    tool_findings, Finding, LocalSessionSignals, StorageDump,
};
use crate::browser_transcripts::{
    chrome_idb_folder, collect_transcript_texts_for_folder, idb_folder, quality_failure,
    transcript, transcript_quality_failure, HISTORY_ONLY_REASON, MIN_TRANSCRIPT_CHARS,
    TOKENS_PER_CHATGPT_CONVERSATION, TOKENS_PER_NOTEBOOKLM_NOTEBOOK, TOKENS_PER_PERPLEXITY_THREAD,
};
use crate::harvest::{byte_len, byte_length, capped_size, summed_bytes, total_bytes};
use crate::text::{
    contains, contains_any, decimal, decimal_u64, has_any, has_part, join, joined, lossy_text,
    same, strs, text_opt, texts, utf8_lossy,
};
use crate::token_estimate::{count_tokens, token_count};
use crate::types::{
    capped, if_some, member_trees, text_tree, Hours, MetaTree, MetaValue, RecordBuilder,
};
use vstd::prelude::*;

verus! {

/// Tokens for an hour of active browser time, set low on purpose.
pub open spec fn benchmark(name: Seq<char>) -> u64 {
    if name == "ChatGPT"@ {
        1_200_000
    } else if name == "Gemini"@ {
        900_000
    } else if name == "Perplexity"@ {
        700_000
    } else if name == "NotebookLM"@ {
        500_000
    } else {
        600_000
    }
}

/// Tokens for an hour of active browser time, set low on purpose.
pub fn tokens_per_hour_benchmark(display_name: &str) -> (r: u64)
    ensures
        r == benchmark(display_name@),
{
    if same(display_name, "ChatGPT") {
        1_200_000
    } else if same(display_name, "Gemini") {
        900_000
    } else if same(display_name, "Perplexity") {
        700_000
    } else if same(display_name, "NotebookLM") {
        500_000
    } else {
        600_000
    }
}

/// Whether a tool is one of those of which sessions and hours are believed.
pub open spec fn is_priority(name: Seq<char>) -> bool {
    name == "ChatGPT"@ || name == "Gemini"@ || name == "Perplexity"@ || name == "NotebookLM"@
}

/// Whether a tool is one of those of which sessions and hours are believed.
pub fn is_priority_web_domain(display_name: &str) -> (r: bool)
    ensures
        r == is_priority(display_name@),
{
    same(display_name, "ChatGPT") || same(display_name, "Gemini") || same(
        display_name,
        "Perplexity",
    ) || same(display_name, "NotebookLM")
}

/// The origins of a tool, as Safari stores them.
pub open spec fn origins(name: Seq<char>) -> Seq<Seq<char>> {
    if name == "ChatGPT"@ {
        seq!["chatgpt.com"@, "chat.openai.com"@]
    } else if name == "Gemini"@ {
        seq!["gemini.google.com"@, "bard.google.com"@]
    } else if name == "Perplexity"@ {
        seq!["perplexity.ai"@]
    } else if name == "NotebookLM"@ {
        seq!["notebooklm.google.com"@, "notebooklm"@]
    } else {
        Seq::empty()
    }
}

/// The origins of a tool, as Safari stores them.
pub fn origin_needles(display_name: &str) -> (r: Vec<&'static str>)
    ensures
        strs(r@) == origins(display_name@),
{
    let r: Vec<&'static str> = if same(display_name, "ChatGPT") {
        vec!["chatgpt.com", "chat.openai.com"]
    } else if same(display_name, "Gemini") {
        vec!["gemini.google.com", "bard.google.com"]
    } else if same(display_name, "Perplexity") {
        vec!["perplexity.ai"]
    } else if same(display_name, "NotebookLM") {
        vec!["notebooklm.google.com", "notebooklm"]
    } else {
        Vec::new()
    };
    assert(strs(r@) =~= origins(display_name@));
    r
}

/// Why an estimate was taken.
#[derive(Debug, Clone, Copy, PartialEq, Eq, Structural)]
pub enum WinnerReason {
    Tier1IdbTranscripts,
    Tier1_5SnippetText,
    Tier2SessionMetadata,
    Tier3ActiveHours,
    Tier3HoursFloorExceededTier2,
    Unavailable,
}

/// The tier of an estimate: the lower, the closer to what was written.
#[derive(Debug, Clone, Copy, PartialEq, Eq, Structural)]
pub enum WinnerTier {
    Unavailable,
    Tier1,
    Tier1_5,
    Tier2,
    Tier3,
}

impl WinnerTier {
    /// The number of the tier, in hundredths.
    pub open spec fn number(self) -> u128 {
        match self {
            WinnerTier::Unavailable => 0,
            WinnerTier::Tier1 => 100,
            WinnerTier::Tier1_5 => 150,
            WinnerTier::Tier2 => 200,
            WinnerTier::Tier3 => 300,
        }
    }

    /// The number of the tier, in hundredths.
    pub fn hundredths(&self) -> (r: u128)
        ensures
            r == self.number(),
    {
        match self {
            WinnerTier::Unavailable => 0,
            WinnerTier::Tier1 => 100,
            WinnerTier::Tier1_5 => 150,
            WinnerTier::Tier2 => 200,
            WinnerTier::Tier3 => 300,
        }
    }
}

impl WinnerReason {
    /// The name of the reason.
    pub open spec fn name(self) -> Seq<char> {
        match self {
            WinnerReason::Tier1IdbTranscripts => "tier1_idb_transcripts"@,
            WinnerReason::Tier1_5SnippetText => "tier1_5_snippet_text"@,
            WinnerReason::Tier2SessionMetadata => "tier2_session_metadata"@,
            WinnerReason::Tier3ActiveHours => "tier3_active_hours"@,
            WinnerReason::Tier3HoursFloorExceededTier2 => "tier3_hours_floor_exceeded_tier2"@,
            WinnerReason::Unavailable => "unavailable"@,
        }
    }

    /// The name of the reason.
    pub fn as_str(&self) -> (r: &'static str)
        ensures
            r@ == self.name(),
    {
        match self {
            WinnerReason::Tier1IdbTranscripts => "tier1_idb_transcripts",
            WinnerReason::Tier1_5SnippetText => "tier1_5_snippet_text",
            WinnerReason::Tier2SessionMetadata => "tier2_session_metadata",
            WinnerReason::Tier3ActiveHours => "tier3_active_hours",
            WinnerReason::Tier3HoursFloorExceededTier2 => "tier3_hours_floor_exceeded_tier2",
            WinnerReason::Unavailable => "unavailable",
        }
    }

    /// The reason for people to read. `shown` is the active time in hours as they read it.
    pub open spec fn detail(self, name: Seq<char>, shown: Seq<char>, tier2: Seq<char>) -> Seq<char> {
        match self {
            WinnerReason::Tier1IdbTranscripts => "IndexedDB message JSON for "@ + name,
            WinnerReason::Tier1_5SnippetText => "Local Storage snippet/title text for "@ + name,
            WinnerReason::Tier2SessionMetadata => tier2,
            WinnerReason::Tier3ActiveHours => shown + "h active browser time × ~"@ + decimal(
                benchmark(name) as nat,
            ) + " tokens/h ("@ + name + " stores chats server-side; not provider-logged)"@,
            WinnerReason::Tier3HoursFloorExceededTier2 => tier2
                + " with Tier-3 active-hours floor ("@ + shown + "h × ~"@ + decimal(
                benchmark(name) as nat,
            ) + " tokens/h)"@,
            WinnerReason::Unavailable => HISTORY_ONLY_REASON@,
        }
    }

    /// The reason for people to read. `shown` is the active time in hours as they read it.
    pub fn human_detail(&self, display_name: &str, shown: &str, tier2_detail: &str) -> (r: String)
        ensures
            r@ == self.detail(display_name@, shown@, tier2_detail@),
    {
        match self {
            WinnerReason::Tier1IdbTranscripts => "IndexedDB message JSON for ".to_string().concat(
                display_name,
            ),
            WinnerReason::Tier1_5SnippetText => {
                "Local Storage snippet/title text for ".to_string().concat(display_name)
            },
            WinnerReason::Tier2SessionMetadata => tier2_detail.to_string(),
            WinnerReason::Tier3ActiveHours => {
                let mut text = shown.to_string();
                text.append("h active browser time × ~");
                text.append(decimal_u64(tokens_per_hour_benchmark(display_name)).as_str());
                text.append(" tokens/h (");
                text.append(display_name);
                text.append(" stores chats server-side; not provider-logged)");
                text
            },
            WinnerReason::Tier3HoursFloorExceededTier2 => {
                let mut text = tier2_detail.to_string();
                text.append(" with Tier-3 active-hours floor (");
                text.append(shown);
                text.append("h × ~");
                text.append(decimal_u64(tokens_per_hour_benchmark(display_name)).as_str());
                text.append(" tokens/h)");
                text
            },
            WinnerReason::Unavailable => HISTORY_ONLY_REASON.to_string(),
        }
    }
}

/// What IndexedDB held.
pub struct IdbProbe {
    pub paths_scanned: u32,
    pub folders_found: u32,
    pub message_chars: usize,
    /// The tokens of the messages; 0 where they are not believed.
    pub token_count: u64,
    /// Why the messages are not believed.
    pub rejection_reason: Option<String>,
}

/// What a probe of IndexedDB says.
#[verifier::ext_equal]
pub ghost struct IdbView {
    pub paths_scanned: u32,
    pub folders_found: u32,
    pub message_chars: usize,
    pub token_count: u64,
    pub rejection_reason: Option<Seq<char>>,
}

impl View for IdbProbe {
    type V = IdbView;

    open spec fn view(&self) -> IdbView {
        IdbView {
            paths_scanned: self.paths_scanned,
            folders_found: self.folders_found,
            message_chars: self.message_chars,
            token_count: self.token_count,
            rejection_reason: text_opt(self.rejection_reason),
        }
    }
}

/// What local storage held.
#[derive(Debug, Clone, Copy, PartialEq, Eq, Structural)]
pub struct LocalStorageProbe {
    pub profiles_scanned: u32,
    pub conversations: u64,
    pub threads: u64,
    pub notebooks: u64,
    pub snippet_chars: usize,
    pub snippet_tokens: u64,
}

/// The estimate from messages.
pub struct Tier1Candidate {
    pub tokens: u64,
    pub message_chars: usize,
    pub rejected: Option<String>,
}

/// The estimate from titles and snippets.
#[derive(Debug, Clone, Copy, PartialEq, Eq, Structural)]
pub struct Tier1_5Candidate {
    pub tokens: u64,
    pub snippet_chars: usize,
    pub snippet_count: u32,
}

/// The estimate from the number of sessions.
pub struct Tier2Candidate {
    pub tokens: u64,
    pub sessions: Option<u64>,
    pub session_kind: Option<String>,
}

/// The estimate from active time.
#[derive(Debug, Clone, Copy, PartialEq, Eq, Structural)]
pub struct Tier3Candidate {
    pub tokens: u64,
    pub hours: Hours,
    pub benchmark_tph: u64,
}

/// All estimates.
pub struct TierCandidates {
    pub tier1: Tier1Candidate,
    pub tier1_5: Tier1_5Candidate,
    pub tier2: Tier2Candidate,
    pub tier3: Tier3Candidate,
}

/// What the estimates say.
#[verifier::ext_equal]
pub ghost struct CandidatesView {
    pub tier1_tokens: u64,
    pub message_chars: usize,
    pub rejected: Option<Seq<char>>,
    pub tier1_5: Tier1_5Candidate,
    pub tier2_tokens: u64,
    pub sessions: Option<u64>,
    pub session_kind: Option<Seq<char>>,
    pub tier3: Tier3Candidate,
}

impl View for TierCandidates {
    type V = CandidatesView;

    open spec fn view(&self) -> CandidatesView {
        CandidatesView {
            tier1_tokens: self.tier1.tokens,
            message_chars: self.tier1.message_chars,
            rejected: text_opt(self.tier1.rejected),
            tier1_5: self.tier1_5,
            tier2_tokens: self.tier2.tokens,
            sessions: self.tier2.sessions,
            session_kind: text_opt(self.tier2.session_kind),
            tier3: self.tier3,
        }
    }
}

/// What Safari's web storage held.
#[derive(Debug, Clone, Copy, PartialEq, Eq, Structural)]
pub struct SafariWebStorageProbe {
    pub paths_scanned: u32,
    pub message_chars: usize,
}

/// The evidence of an estimate.
pub struct LocalDataAudit {
    pub sources_checked: Vec<String>,
    pub idb: IdbProbe,
    pub local_storage: LocalStorageProbe,
    pub safari_web_storage: Option<SafariWebStorageProbe>,
    pub tier_candidates: TierCandidates,
    pub winner_tier: WinnerTier,
    pub winner_reason: String,
    pub winner_reason_detail: String,
    pub provider_logged_usage_found: bool,
    pub accurate_count_possible: bool,
    pub winner_tokens: u64,
}

/// What the evidence says.
#[verifier::ext_equal]
pub ghost struct AuditView {
    pub sources_checked: Seq<Seq<char>>,
    pub idb: IdbView,
    pub local_storage: LocalStorageProbe,
    pub safari_web_storage: Option<SafariWebStorageProbe>,
    pub tier_candidates: CandidatesView,
    pub winner_tier: WinnerTier,
    pub winner_reason: Seq<char>,
    pub winner_reason_detail: Seq<char>,
    pub provider_logged_usage_found: bool,
    pub accurate_count_possible: bool,
    pub winner_tokens: u64,
}

impl View for LocalDataAudit {
    type V = AuditView;

    open spec fn view(&self) -> AuditView {
        AuditView {
            sources_checked: texts(self.sources_checked@),
            idb: self.idb@,
            local_storage: self.local_storage,
            safari_web_storage: self.safari_web_storage,
            tier_candidates: self.tier_candidates@,
            winner_tier: self.winner_tier,
            winner_reason: self.winner_reason@,
            winner_reason_detail: self.winner_reason_detail@,
            provider_logged_usage_found: self.provider_logged_usage_found,
            accurate_count_possible: self.accurate_count_possible,
            winner_tokens: self.winner_tokens,
        }
    }
}

/// What was decided on the evidence.
pub struct AuditSelection {
    pub audit: LocalDataAudit,
    pub estimated: bool,
    pub unavailable: bool,
    pub unavailable_reason: Option<String>,
    pub method: Option<String>,
}

/// What a decision says.
#[verifier::ext_equal]
pub ghost struct SelectionView {
    pub audit: AuditView,
    pub estimated: bool,
    pub unavailable: bool,
    pub unavailable_reason: Option<Seq<char>>,
    pub method: Option<Seq<char>>,
}

impl View for AuditSelection {
    type V = SelectionView;

    open spec fn view(&self) -> SelectionView {
        SelectionView {
            audit: self.audit@,
            estimated: self.estimated,
            unavailable: self.unavailable,
            unavailable_reason: text_opt(self.unavailable_reason),
            method: text_opt(self.method),
        }
    }
}

/// What can be read of a tool on this machine.
pub struct LocalSources {
    /// The keys and values of the IndexedDB databases of the tool's folder, by profile.
    pub indexeddb: Vec<Vec<(Vec<u8>, Vec<u8>)>>,
    /// The local storage of every profile.
    pub local_storage: Vec<StorageDump>,
    /// The web storage of Safari.
    pub safari: SafariWebStorageProbe,
}

/// What some signals say.
#[verifier::ext_equal]
pub ghost struct SignalsView {
    pub conversations: u64,
    pub threads: u64,
    pub notebooks: u64,
    pub snippets: Seq<Seq<char>>,
}

impl View for LocalSessionSignals {
    type V = SignalsView;

    open spec fn view(&self) -> SignalsView {
        SignalsView {
            conversations: self.conversations,
            threads: self.threads,
            notebooks: self.notebooks,
            snippets: texts(self.transcript_texts@),
        }
    }
}

/// What some findings come to.
pub open spec fn signals_view(findings: Seq<Finding>) -> SignalsView {
    SignalsView {
        conversations: conversation_set(findings).len() as u64,
        threads: (if longest_list(findings) > thread_set(findings).len() {
            longest_list(findings)
        } else {
            thread_set(findings).len()
        }) as u64,
        notebooks: notebook_set(findings).len() as u64,
        snippets: found_texts(findings),
    }
}

/// The tokens of some texts together; none where there are no texts.
pub open spec fn joint_tokens(list: Seq<Seq<char>>) -> u64 {
    if list.len() == 0 {
        0
    } else {
        token_count(joined(list, "\n"@))
    }
}

/// The tokens of some texts together; none where there are no texts.
fn tokens_of_texts(list: &Vec<String>) -> (r: u64)
    ensures
        r == joint_tokens(texts(list@)),
{
    if list.len() == 0 {
        return 0;
    }
    let whole = join(list, "\n");
    count_tokens(whole.as_str())
}

/// Why the messages of IndexedDB are not believed.
pub open spec fn rejection(
    hours: Hours,
    shown: Seq<char>,
    list: Seq<Seq<char>>,
    tokens: u64,
) -> Option<Seq<char>> {
    let bytes = capped_size(summed_bytes(list));
    if list.len() == 0 {
        Some("no_message_text_in_indexeddb"@)
    } else if bytes < MIN_TRANSCRIPT_CHARS {
        Some("sparse_cache"@)
    } else if tokens == 0 {
        Some("zero_tokens_after_tokenize"@)
    } else {
        match quality_failure(hours, shown, bytes, tokens) {
            Some(reason) => Some(
                if has_part(reason, "sparse"@) {
                    "sparse_cache"@
                } else {
                    "quality_gate_failed"@
                },
            ),
            None => None,
        }
    }
}

/// A probe that found nothing to look at.
pub open spec fn empty_probe() -> IdbView {
    IdbView {
        paths_scanned: 0,
        folders_found: 0,
        message_chars: 0,
        token_count: 0,
        rejection_reason: None,
    }
}

/// What IndexedDB tells of some messages found in some databases.
pub open spec fn probe_of(
    hours: Hours,
    shown: Seq<char>,
    folders: u32,
    list: Seq<Seq<char>>,
) -> IdbView {
    let tokens = joint_tokens(list);
    let rejected = rejection(hours, shown, list, tokens);
    IdbView {
        paths_scanned: folders,
        folders_found: folders,
        message_chars: capped_size(summed_bytes(list)),
        token_count: if rejected is Some {
            0
        } else {
            tokens
        },
        rejection_reason: rejected,
    }
}

/// What IndexedDB tells of a tool.
pub open spec fn idb_probe(
    name: Seq<char>,
    hours: Hours,
    shown: Seq<char>,
    stores: Seq<Vec<(Vec<u8>, Vec<u8>)>>,
) -> IdbView {
    if idb_folder(name) is None || stores.len() as u32 == 0 {
        empty_probe()
    } else {
        probe_of(hours, shown, stores.len() as u32, transcript(stores))
    }
}

/// What IndexedDB tells of some messages found in some databases.
pub fn judge_transcript(hours: Hours, shown: &str, folders: u32, list: &Vec<String>) -> (r: IdbProbe)
    ensures
        r@ == probe_of(hours, shown@, folders, texts(list@)),
{
    let chars: usize = total_bytes(list);
    let tokens: u64 = tokens_of_texts(list);
    let rejected: Option<String> = if list.len() == 0 {
        Some("no_message_text_in_indexeddb".to_string())
    } else if chars < MIN_TRANSCRIPT_CHARS {
        Some("sparse_cache".to_string())
    } else if tokens == 0 {
        Some("zero_tokens_after_tokenize".to_string())
    } else {
        match transcript_quality_failure(hours, shown, list, tokens) {
            Some(reason) => if contains(reason.as_str(), "sparse") {
                Some("sparse_cache".to_string())
            } else {
                Some("quality_gate_failed".to_string())
            },
            None => None,
        }
    };
    let believed: u64 = if rejected.is_some() {
        0
    } else {
        tokens
    };
    IdbProbe {
        paths_scanned: folders,
        folders_found: folders,
        message_chars: chars,
        token_count: believed,
        rejection_reason: rejected,
    }
}

/// What IndexedDB tells of a tool, from the databases of its folder.
pub fn probe_indexeddb(
    display_name: &str,
    hours: Hours,
    shown: &str,
    stores: &Vec<Vec<(Vec<u8>, Vec<u8>)>>,
) -> (r: IdbProbe)
    ensures
        r@ == idb_probe(display_name@, hours, shown@, stores@),
{
    let folders: u32 = #[verifier::truncate]
    (stores.len() as u32);
    if chrome_idb_folder(display_name).is_none() || folders == 0 {
        return IdbProbe {
            paths_scanned: 0,
            folders_found: 0,
            message_chars: 0,
            token_count: 0,
            rejection_reason: None,
        };
    }
    let list = collect_transcript_texts_for_folder(stores);
    judge_transcript(hours, shown, folders, &list)
}

/// The number of bytes that a file of Safari's web storage adds to those that name a tool, within
/// a limit for its directory.
pub open spec fn with_origin_text(
    name: Seq<char>,
    bytes: Seq<u8>,
    total: usize,
    limit: usize,
) -> usize {
    let text = utf8_lossy(bytes);
    if has_any(text, origins(name)) && total < limit {
        if byte_len(text) < limit - total {
            (total + byte_len(text)) as usize
        } else {
            limit
        }
    } else {
        total
    }
}

/// Adds what a file of Safari's web storage holds, if it names a tool, within a limit.
pub fn add_origin_text(display_name: &str, bytes: &[u8], total: usize, limit: usize) -> (r: usize)
    ensures
        r == with_origin_text(display_name@, bytes@, total, limit),
{
    let needles = origin_needles(display_name);
    let text = lossy_text(bytes);
    if contains_any(text.as_str(), &needles) && total < limit {
        let n: usize = byte_length(text.as_str());
        if n < limit - total {
            total + n
        } else {
            limit
        }
    } else {
        total
    }
}

/// The sizes that some directories come to.
pub open spec fn summed_sizes(sizes: Seq<usize>) -> nat
    decreases sizes.len(),
{
    if sizes.len() == 0 {
        0
    } else {
        summed_sizes(sizes.drop_last()) + sizes.last() as nat
    }
}

/// What Safari's web storage tells of a tool, from what each of its directories holds. A tool
/// whose origins are not known is not looked for.
pub fn probe_safari_web_storage(display_name: &str, sizes: &Vec<usize>) -> (r:
    SafariWebStorageProbe)
    ensures
        r == if origins(display_name@).len() == 0 {
            SafariWebStorageProbe { paths_scanned: 0, message_chars: 0 }
        } else {
            SafariWebStorageProbe {
                paths_scanned: sizes@.len() as u32,
                message_chars: capped_size(summed_sizes(sizes@)),
            }
        },
{
    let needles = origin_needles(display_name);
    if needles.len() == 0 {
        return SafariWebStorageProbe { paths_scanned: 0, message_chars: 0 };
    }
    let mut total: usize = 0;
    let mut i: usize = 0;
    while i < sizes.len()
        invariant
            i <= sizes@.len(),
            total == capped_size(summed_sizes(sizes@.take(i as int))),
        decreases sizes@.len() - i,
    {
        assert(sizes@.take(i + 1).drop_last() =~= sizes@.take(i as int));
        total = total.saturating_add(sizes[i]);
        i += 1;
    }
    assert(sizes@.take(i as int) =~= sizes@);
    SafariWebStorageProbe {
        paths_scanned: #[verifier::truncate]
        (sizes.len() as u32),
        message_chars: total,
    }
}

/// What the sessions of a tool come to: tokens, how many of what kind, and that in words.
#[verifier::ext_equal]
pub ghost struct Tier2View {
    pub tokens: u64,
    pub sessions: Option<u64>,
    pub kind: Option<Seq<char>>,
    pub detail: Seq<char>,
}

/// The estimate from a number of sessions of a kind.
pub open spec fn sessions_estimate(
    count: u64,
    each: u64,
    kind: Seq<char>,
    words: Seq<char>,
) -> Tier2View {
    Tier2View {
        tokens: capped(count * each),
        sessions: Some(count),
        kind: Some(kind),
        detail: decimal(count as nat) + words,
    }
}

/// The estimate from the sessions of a tool.
pub open spec fn tier2_of(name: Seq<char>, signals: SignalsView) -> Tier2View {
    if name == "ChatGPT"@ && signals.conversations > 0 {
        sessions_estimate(
            signals.conversations,
            TOKENS_PER_CHATGPT_CONVERSATION,
            "conversations"@,
            " sidebar conversations (deduped across Chrome profiles)"@,
        )
    } else if name == "Perplexity"@ && signals.threads > 0 {
        sessions_estimate(
            signals.threads,
            TOKENS_PER_PERPLEXITY_THREAD,
            "threads"@,
            " local thread records (deduped across Chrome profiles)"@,
        )
    } else if name == "NotebookLM"@ && signals.notebooks > 0 {
        sessions_estimate(
            signals.notebooks,
            TOKENS_PER_NOTEBOOKLM_NOTEBOOK,
            "notebooks"@,
            " local notebook records (deduped across Chrome profiles)"@,
        )
    } else {
        Tier2View { tokens: 0, sessions: None, kind: None, detail: Seq::empty() }
    }
}

fn estimate_sessions(count: u64, each: u64, kind: &str, words: &str) -> (r: (
    u64,
    Option<u64>,
    Option<String>,
    String,
))
    ensures
        (Tier2View { tokens: r.0, sessions: r.1, kind: text_opt(r.2), detail: r.3@ })
            == sessions_estimate(count, each, kind@, words@),
{
    assert(count * each <= 0xffff_ffff_ffff_ffff * 0xffff_ffff_ffff_ffff) by (nonlinear_arith)
        requires
            count <= 0xffff_ffff_ffff_ffff,
            each <= 0xffff_ffff_ffff_ffff,
    ;
    let product: u128 = count as u128 * each as u128;
    let tokens: u64 = if product > 0xffff_ffff_ffff_ffff {
        0xffff_ffff_ffff_ffff
    } else {
        product as u64
    };
    let detail = decimal_u64(count).concat(words);
    (tokens, Some(count), Some(kind.to_string()), detail)
}

/// The estimate from the sessions of a tool.
pub fn tier2_from_signals(display_name: &str, signals: &LocalSessionSignals) -> (r: (
    u64,
    Option<u64>,
    Option<String>,
    String,
))
    ensures
        (Tier2View { tokens: r.0, sessions: r.1, kind: text_opt(r.2), detail: r.3@ }) == tier2_of(
            display_name@,
            signals@,
        ),
{
    if same(display_name, "ChatGPT") && signals.conversations > 0 {
        estimate_sessions(
            signals.conversations,
            TOKENS_PER_CHATGPT_CONVERSATION,
            "conversations",
            " sidebar conversations (deduped across Chrome profiles)",
        )
    } else if same(display_name, "Perplexity") && signals.threads > 0 {
        estimate_sessions(
            signals.threads,
            TOKENS_PER_PERPLEXITY_THREAD,
            "threads",
            " local thread records (deduped across Chrome profiles)",
        )
    } else if same(display_name, "NotebookLM") && signals.notebooks > 0 {
        estimate_sessions(
            signals.notebooks,
            TOKENS_PER_NOTEBOOKLM_NOTEBOOK,
            "notebooks",
            " local notebook records (deduped across Chrome profiles)",
        )
    } else {
        (0, None, None, String::new())
    }
}

/// The estimate from active time: at least 500 tokens where there was any.
pub open spec fn tier3_of(name: Seq<char>, hours: Hours) -> u64 {
    if hours.seconds == 0 {
        0
    } else {
        let n = hours.seconds * benchmark(name) as int / 3600;
        if n < 500 {
            500
        } else {
            capped(n)
        }
    }
}

/// The estimate from active time: at least 500 tokens where there was any.
pub fn tier3_tokens(display_name: &str, hours: Hours) -> (r: u64)
    ensures
        r == tier3_of(display_name@, hours),
{
    if hours.seconds == 0 {
        return 0;
    }
    let tph: u64 = tokens_per_hour_benchmark(display_name);
    if hours.seconds > 0xffff_ffff_ffff_ffff {
        assert(hours.seconds * tph as int / 3600 > 0xffff_ffff_ffff_ffff) by (nonlinear_arith)
            requires
                hours.seconds > 0xffff_ffff_ffff_ffff,
                tph >= 500_000,
        {
            assert(hours.seconds * tph as int >= 3600 * (0x1_0000_0000_0000_0000));
        }
        return 0xffff_ffff_ffff_ffff;
    }
    assert(hours.seconds * tph <= 0xffff_ffff_ffff_ffff * 0xffff_ffff_ffff_ffff)
        by (nonlinear_arith)
        requires
            hours.seconds <= 0xffff_ffff_ffff_ffff,
            tph <= 0xffff_ffff_ffff_ffff,
    ;
    let n: u128 = hours.seconds * (tph as u128) / 3600;
    if n < 500 {
        500
    } else if n > 0xffff_ffff_ffff_ffff {
        0xffff_ffff_ffff_ffff
    } else {
        n as u64
    }
}

/// The larger of two counts.
pub open spec fn larger(a: u64, b: u64) -> u64 {
    if a >= b {
        a
    } else {
        b
    }
}

/// The tier that wins where no messages do, and why.
pub open spec fn winner(tier1_5: u64, tier2: u64, tier3: u64, sessions: u64) -> (
    WinnerTier,
    WinnerReason,
) {
    let most = larger(larger(tier1_5, tier2), tier3);
    if tier1_5 == most && tier1_5 > 0 {
        (WinnerTier::Tier1_5, WinnerReason::Tier1_5SnippetText)
    } else if tier2 == most && sessions > 0 {
        (WinnerTier::Tier2, WinnerReason::Tier2SessionMetadata)
    } else if tier2 > 0 && tier3 == most && tier3 > tier2 {
        (WinnerTier::Tier3, WinnerReason::Tier3HoursFloorExceededTier2)
    } else {
        (WinnerTier::Tier3, WinnerReason::Tier3ActiveHours)
    }
}

/// The tier that wins where no messages do, and why: the one with the most tokens.
pub fn pick_winner(tier1_5: u64, tier2: u64, tier3: u64, tier2_sessions: u64) -> (r: (
    WinnerTier,
    WinnerReason,
))
    ensures
        r == winner(tier1_5, tier2, tier3, tier2_sessions),
{
    let pair: u64 = if tier1_5 >= tier2 {
        tier1_5
    } else {
        tier2
    };
    let most: u64 = if pair >= tier3 {
        pair
    } else {
        tier3
    };
    if tier1_5 == most && tier1_5 > 0 {
        return (WinnerTier::Tier1_5, WinnerReason::Tier1_5SnippetText);
    }
    if tier2 == most && tier2_sessions > 0 {
        return (WinnerTier::Tier2, WinnerReason::Tier2SessionMetadata);
    }
    if tier2 > 0 && tier3 == most && tier3 > tier2 {
        return (WinnerTier::Tier3, WinnerReason::Tier3HoursFloorExceededTier2);
    }
    (WinnerTier::Tier3, WinnerReason::Tier3ActiveHours)
}

/// The tokens of the tier that wins are the most of all, where sessions are what the second tier
/// has its tokens from.
pub proof fn law_winner_has_most(tier1_5: u64, tier2: u64, tier3: u64, sessions: u64)
    requires
        tier2 > 0 ==> sessions > 0,
    ensures
        ({
            let most = larger(larger(tier1_5, tier2), tier3);
            match winner(tier1_5, tier2, tier3, sessions).0 {
                WinnerTier::Tier1_5 => tier1_5 == most,
                WinnerTier::Tier2 => tier2 == most,
                WinnerTier::Tier3 => tier3 == most,
                _ => false,
            }
        }),
{
}

/// How tokens were counted out of messages.
pub open spec fn method_of_messages(name: Seq<char>, detail: Seq<char>) -> Seq<char> {
    "cl100k_base tokenizer over Chrome IndexedDB message JSON for "@ + name + "; "@ + detail
}

/// How tokens were estimated otherwise.
pub open spec fn method_of_tier(
    name: Seq<char>,
    reason: WinnerReason,
    detail: Seq<char>,
) -> Seq<char> {
    match reason {
        WinnerReason::Tier1_5SnippetText => {
            "cl100k_base tokenizer"@ + "; Tier-1.5 Local Storage snippet text for "@ + name + " ("@
                + detail + ")"@
        },
        WinnerReason::Tier2SessionMetadata => {
            "cl100k_base tokenizer"@ + "; Tier-2 session metadata for "@ + name + " ("@ + detail
                + ")"@
        },
        WinnerReason::Tier3HoursFloorExceededTier2 => {
            "cl100k_base tokenizer"@ + "; Tier-2 "@ + detail
        },
        WinnerReason::Tier3ActiveHours => {
            "cl100k_base tokenizer"@ + "; Tier-3 active-hours benchmark for "@ + name + " ("@
                + detail + ")"@
        },
        _ => "cl100k_base tokenizer"@ + "; "@ + detail,
    }
}

fn format_method(display_name: &str, detail: &str) -> (r: String)
    ensures
        r@ == method_of_messages(display_name@, detail@),
{
    let mut text = "cl100k_base tokenizer over Chrome IndexedDB message JSON for ".to_string();
    text.append(display_name);
    text.append("; ");
    text.append(detail);
    text
}

/// How tokens were estimated otherwise.
pub fn format_method_tiered(display_name: &str, reason: WinnerReason, detail: &str) -> (r: String)
    ensures
        r@ == method_of_tier(display_name@, reason, detail@),
{
    let mut text = "cl100k_base tokenizer".to_string();
    match reason {
        WinnerReason::Tier1_5SnippetText => {
            text.append("; Tier-1.5 Local Storage snippet text for ");
            text.append(display_name);
            text.append(" (");
            text.append(detail);
            text.append(")");
        },
        WinnerReason::Tier2SessionMetadata => {
            text.append("; Tier-2 session metadata for ");
            text.append(display_name);
            text.append(" (");
            text.append(detail);
            text.append(")");
        },
        WinnerReason::Tier3HoursFloorExceededTier2 => {
            text.append("; Tier-2 ");
            text.append(detail);
        },
        WinnerReason::Tier3ActiveHours => {
            text.append("; Tier-3 active-hours benchmark for ");
            text.append(display_name);
            text.append(" (");
            text.append(detail);
            text.append(")");
        },
        _ => {
            text.append("; ");
            text.append(detail);
        },
    }
    text
}

/// The sources that were looked at.
pub open spec fn checked(name: Seq<char>, idb: IdbView, profiles: u32, safari: u32) -> Seq<
    Seq<char>,
> {
    seq!["chrome_history"@] + (if idb.paths_scanned > 0 {
        seq!["chrome_indexeddb"@]
    } else {
        Seq::empty()
    }) + (if profiles > 0 && is_priority(name) {
        seq!["chrome_local_storage"@]
    } else {
        Seq::empty()
    }) + (if is_priority(name) || safari > 0 {
        seq!["safari_web_storage"@]
    } else {
        Seq::empty()
    })
}

/// The evidence before anything is decided.
pub open spec fn evidence(
    name: Seq<char>,
    hours: Hours,
    idb: IdbView,
    signals: SignalsView,
    profiles: u32,
    safari: SafariWebStorageProbe,
) -> AuditView {
    let snippet_chars = capped_size(summed_bytes(signals.snippets));
    let snippet_tokens = joint_tokens(signals.snippets);
    let tier2 = tier2_of(name, signals);
    AuditView {
        sources_checked: checked(name, idb, profiles, safari.paths_scanned),
        idb,
        local_storage: LocalStorageProbe {
            profiles_scanned: profiles,
            conversations: signals.conversations,
            threads: signals.threads,
            notebooks: signals.notebooks,
            snippet_chars,
            snippet_tokens,
        },
        safari_web_storage: Some(safari),
        tier_candidates: CandidatesView {
            tier1_tokens: idb.token_count,
            message_chars: idb.message_chars,
            rejected: idb.rejection_reason,
            tier1_5: Tier1_5Candidate {
                tokens: snippet_tokens,
                snippet_chars,
                snippet_count: signals.snippets.len() as u32,
            },
            tier2_tokens: tier2.tokens,
            sessions: tier2.sessions,
            session_kind: tier2.kind,
            tier3: Tier3Candidate {
                tokens: tier3_of(name, hours),
                hours,
                benchmark_tph: benchmark(name),
            },
        },
        winner_tier: WinnerTier::Unavailable,
        winner_reason: WinnerReason::Unavailable.name(),
        winner_reason_detail: Seq::empty(),
        provider_logged_usage_found: false,
        accurate_count_possible: false,
        winner_tokens: 0,
    }
}

/// The decision that nothing can be told, for a reason.
pub open spec fn none_of(audit: AuditView, reason: Seq<char>) -> SelectionView {
    SelectionView {
        audit: AuditView { winner_reason_detail: reason, ..audit },
        estimated: false,
        unavailable: true,
        unavailable_reason: Some(reason),
        method: None,
    }
}

/// The decision for an estimate.
pub open spec fn one_of(
    audit: AuditView,
    tier: WinnerTier,
    reason: WinnerReason,
    detail: Seq<char>,
    tokens: u64,
    method: Seq<char>,
) -> SelectionView {
    SelectionView {
        audit: AuditView {
            winner_tier: tier,
            winner_reason: reason.name(),
            winner_reason_detail: detail,
            accurate_count_possible: tier == WinnerTier::Tier1,
            winner_tokens: tokens,
            ..audit
        },
        estimated: true,
        unavailable: false,
        unavailable_reason: None,
        method: Some(method),
    }
}

/// Whether messages were found and believed.
pub open spec fn has_messages(idb: IdbView) -> bool {
    idb.token_count > 0 && idb.rejection_reason is None
}

/// What is decided on the evidence. Messages that are believed win unless another estimate of a
/// priority tool is larger. Of other tools, nothing but messages counts.
pub open spec fn decide(
    name: Seq<char>,
    hours: Hours,
    shown: Seq<char>,
    idb: IdbView,
    signals: SignalsView,
    profiles: u32,
    safari: SafariWebStorageProbe,
) -> SelectionView {
    let audit = evidence(name, hours, idb, signals, profiles, safari);
    let snippets = joint_tokens(signals.snippets);
    let tier2 = tier2_of(name, signals);
    let tier3 = tier3_of(name, hours);
    let most = larger(larger(snippets, tier2.tokens), tier3);
    if hours.seconds == 0 {
        none_of(audit, "No active hours recorded for this domain"@)
    } else if has_messages(idb) && (!is_priority(name) || idb.token_count >= most) {
        let detail = WinnerReason::Tier1IdbTranscripts.detail(name, shown, Seq::empty());
        one_of(
            audit,
            WinnerTier::Tier1,
            WinnerReason::Tier1IdbTranscripts,
            detail,
            idb.token_count,
            method_of_messages(name, detail),
        )
    } else if !is_priority(name) || most == 0 {
        none_of(audit, HISTORY_ONLY_REASON@)
    } else {
        let (tier, reason) = winner(
            snippets,
            tier2.tokens,
            tier3,
            match tier2.sessions {
                Some(n) => n,
                None => 0,
            },
        );
        let detail = reason.detail(name, shown, tier2.detail);
        one_of(audit, tier, reason, detail, most, method_of_tier(name, reason, detail))
    }
}

/// Everything that is looked at, and what is decided on it.
pub open spec fn select_view(
    name: Seq<char>,
    hours: Hours,
    shown: Seq<char>,
    sources: LocalSources,
) -> SelectionView {
    decide(
        name,
        hours,
        shown,
        idb_probe(name, hours, shown, sources.indexeddb@),
        signals_view(tool_findings(name, sources.local_storage@)),
        sources.local_storage@.len() as u32,
        sources.safari,
    )
}

/// Every tool is either estimated, with tokens and a method, or said to be unavailable, with a
/// reason: never a bare zero.
pub proof fn law_state_is_honest(
    name: Seq<char>,
    hours: Hours,
    shown: Seq<char>,
    idb: IdbView,
    signals: SignalsView,
    profiles: u32,
    safari: SafariWebStorageProbe,
)
    ensures
        ({
            let s = decide(name, hours, shown, idb, signals, profiles, safari);
            &&& s.estimated != s.unavailable
            &&& s.estimated ==> s.audit.winner_tokens > 0 && s.method is Some
                && s.unavailable_reason is None
            &&& s.unavailable ==> s.audit.winner_tokens == 0 && s.unavailable_reason is Some
                && s.method is None
        }),
{
}

/// Nothing on this machine is what a provider has logged, and a count is called accurate exactly
/// if it comes from messages.
pub proof fn law_accuracy_is_not_overstated(
    name: Seq<char>,
    hours: Hours,
    shown: Seq<char>,
    idb: IdbView,
    signals: SignalsView,
    profiles: u32,
    safari: SafariWebStorageProbe,
)
    ensures
        ({
            let s = decide(name, hours, shown, idb, signals, profiles, safari);
            &&& !s.audit.provider_logged_usage_found
            &&& s.audit.accurate_count_possible <==> s.audit.winner_tier == WinnerTier::Tier1
            &&& s.audit.accurate_count_possible ==> has_messages(idb)
        }),
{
}

/// The tokens of a priority tool with active time are the most that any of the four tiers gives.
pub proof fn law_priority_takes_maximum(
    name: Seq<char>,
    hours: Hours,
    shown: Seq<char>,
    idb: IdbView,
    signals: SignalsView,
    profiles: u32,
    safari: SafariWebStorageProbe,
)
    requires
        is_priority(name),
        hours.seconds > 0,
        idb.rejection_reason is Some ==> idb.token_count == 0,
    ensures
        ({
            let s = decide(name, hours, shown, idb, signals, profiles, safari);
            let c = s.audit.tier_candidates;
            &&& s.estimated
            &&& s.audit.winner_tokens == larger(
                larger(larger(c.tier1_tokens, c.tier1_5.tokens), c.tier2_tokens),
                c.tier3.tokens,
            )
        }),
{
}

/// Active time never lowers an estimate: more of it gives at least as many tokens of a priority
/// tool where no messages are found.
pub proof fn law_more_hours_more_tokens(name: Seq<char>, fewer: Hours, more: Hours)
    requires
        fewer.seconds <= more.seconds,
    ensures
        tier3_of(name, fewer) <= tier3_of(name, more),
{
    let b = benchmark(name) as int;
    assert(fewer.seconds * b / 3600 <= more.seconds * b / 3600) by (nonlinear_arith)
        requires
            fewer.seconds <= more.seconds,
            b >= 0,
    {
        assert(fewer.seconds * b <= more.seconds * b);
    }
}

/// What each tier gives of a tool, by itself: messages as they were probed, titles and snippets by their
/// tokens, sessions by 35,000 tokens for a conversation of ChatGPT, 12,000 for a thread of Perplexity
/// and 80,000 for a notebook of NotebookLM, and active time by its benchmark an hour, cut off, and
/// never fewer than 500 where there was any.
pub proof fn law_every_tier_is_told(
    name: Seq<char>,
    hours: Hours,
    shown: Seq<char>,
    idb: IdbView,
    signals: SignalsView,
    profiles: u32,
    safari: SafariWebStorageProbe,
)
    ensures
        ({
            let audit = decide(name, hours, shown, idb, signals, profiles, safari).audit;
            let c = audit.tier_candidates;
            let each: int = if name == "ChatGPT"@ {
                1_200_000
            } else if name == "Gemini"@ {
                900_000
            } else if name == "Perplexity"@ {
                700_000
            } else if name == "NotebookLM"@ {
                500_000
            } else {
                600_000
            };
            let sessions: int = if name == "ChatGPT"@ {
                signals.conversations * 35_000
            } else if name == "Perplexity"@ {
                signals.threads * 12_000
            } else if name == "NotebookLM"@ {
                signals.notebooks * 80_000
            } else {
                0
            };
            let floor = hours.seconds * each / 3600;
            &&& audit.idb == idb && audit.safari_web_storage == Some(safari)
            &&& audit.local_storage.profiles_scanned == profiles
            &&& audit.local_storage.conversations == signals.conversations
            &&& audit.local_storage.threads == signals.threads
            &&& audit.local_storage.notebooks == signals.notebooks
            &&& audit.local_storage.snippet_tokens == c.tier1_5.tokens
            &&& c.tier1_tokens == idb.token_count
            &&& c.tier1_5.tokens == if signals.snippets.len() == 0 {
                0
            } else {
                token_count(joined(signals.snippets, "\n"@))
            }
            &&& sessions <= u64::MAX ==> c.tier2_tokens == sessions
            &&& sessions > u64::MAX ==> c.tier2_tokens == u64::MAX
            &&& c.sessions is Some <==> sessions > 0
            &&& hours.seconds == 0 ==> c.tier3.tokens == 0
            &&& hours.seconds > 0 && floor < 500 ==> c.tier3.tokens == 500
            &&& 500 <= floor <= u64::MAX ==> c.tier3.tokens == floor
            &&& floor > u64::MAX ==> c.tier3.tokens == u64::MAX
            &&& c.tier3.hours == hours && c.tier3.benchmark_tph == each
        }),
{
    reveal_strlit("ChatGPT");
    reveal_strlit("Gemini");
    reveal_strlit("Perplexity");
    reveal_strlit("NotebookLM");
    assert("ChatGPT"@[0] == 'C' && "Gemini"@[0] == 'G');
    assert("Perplexity"@[0] == 'P' && "NotebookLM"@[0] == 'N');
    let each = benchmark(name) as int;
    let seconds = hours.seconds as int;
    assert(seconds == 0 ==> seconds * each == 0) by (nonlinear_arith);
    assert(tier3_of(name, hours) == if seconds == 0 {
        0
    } else if seconds * each / 3600 < 500 {
        500
    } else {
        capped(seconds * each / 3600)
    });
}

/// The winner of a tool is one of its tiers, with the tokens of that tier. Without active time, or where
/// no tier has tokens that count, nothing can be told: of a tool that is not one of the four, nothing
/// but messages that are believed counts.
pub proof fn law_winner_is_a_tier(
    name: Seq<char>,
    hours: Hours,
    shown: Seq<char>,
    idb: IdbView,
    signals: SignalsView,
    profiles: u32,
    safari: SafariWebStorageProbe,
)
    ensures
        ({
            let s = decide(name, hours, shown, idb, signals, profiles, safari);
            let c = s.audit.tier_candidates;
            let four = name == "ChatGPT"@ || name == "Gemini"@ || name == "Perplexity"@ || name
                == "NotebookLM"@;
            let believed = idb.token_count > 0 && idb.rejection_reason is None;
            &&& s.audit.winner_tier == WinnerTier::Tier1 ==> s.audit.winner_tokens
                == c.tier1_tokens && believed && s.audit.winner_reason == "tier1_idb_transcripts"@
            &&& s.audit.winner_tier == WinnerTier::Tier1_5 ==> s.audit.winner_tokens
                == c.tier1_5.tokens && s.audit.winner_reason == "tier1_5_snippet_text"@
            &&& s.audit.winner_tier == WinnerTier::Tier2 ==> s.audit.winner_tokens
                == c.tier2_tokens && s.audit.winner_reason == "tier2_session_metadata"@
            &&& s.audit.winner_tier == WinnerTier::Tier3 ==> s.audit.winner_tokens
                == c.tier3.tokens
            &&& s.audit.winner_tier == WinnerTier::Tier3 && c.tier2_tokens > 0
                ==> s.audit.winner_reason == "tier3_hours_floor_exceeded_tier2"@
            &&& s.audit.winner_tier == WinnerTier::Tier3 && c.tier2_tokens == 0
                ==> s.audit.winner_reason == "tier3_active_hours"@
            &&& s.audit.winner_tier == WinnerTier::Unavailable <==> s.unavailable
            &&& hours.seconds == 0 ==> s.unavailable && s.unavailable_reason == Some(
                "No active hours recorded for this domain"@,
            )
            &&& hours.seconds > 0 && four ==> s.estimated
            &&& hours.seconds > 0 && !four ==> (s.estimated <==> believed)
            &&& hours.seconds > 0 && !four && !believed ==> s.unavailable_reason == Some(
                HISTORY_ONLY_REASON@,
            )
        }),
{
    let tier2 = tier2_of(name, signals);
    if hours.seconds > 0 {
        assert(tier3_of(name, hours) > 0);
    }
}

/// Messages of IndexedDB count exactly if they are believed: there have to be some, of 200 bytes in all,
/// with tokens, and enough of them for the active time. A tool whose folder is not known, or is
/// nowhere, is not looked for.
pub proof fn law_messages_have_to_be_believed(
    name: Seq<char>,
    hours: Hours,
    shown: Seq<char>,
    stores: Seq<Vec<(Vec<u8>, Vec<u8>)>>,
)
    requires
        stores.len() <= u32::MAX,
    ensures
        ({
            let probe = idb_probe(name, hours, shown, stores);
            let list = transcript(stores);
            let bytes = capped_size(summed_bytes(list));
            let tokens = if list.len() == 0 {
                0
            } else {
                token_count(joined(list, "\n"@))
            };
            let looked = idb_folder(name) is Some && stores.len() > 0;
            let believed = list.len() > 0 && bytes >= 200 && tokens > 0 && quality_failure(
                hours,
                shown,
                bytes,
                tokens,
            ) is None;
            &&& !looked ==> probe.paths_scanned == 0 && probe.token_count == 0
                && probe.rejection_reason is None && probe.message_chars == 0
            &&& looked ==> probe.paths_scanned == stores.len() && probe.folders_found
                == stores.len() && probe.message_chars == bytes
            &&& looked && believed ==> probe.token_count == tokens && probe.rejection_reason is None
            &&& looked && !believed ==> probe.token_count == 0 && probe.rejection_reason is Some
            &&& looked && list.len() == 0 ==> probe.rejection_reason == Some(
                "no_message_text_in_indexeddb"@,
            )
            &&& looked && list.len() > 0 && bytes < 200 ==> probe.rejection_reason == Some(
                "sparse_cache"@,
            )
            &&& looked && list.len() > 0 && bytes >= 200 && tokens == 0 ==> probe.rejection_reason
                == Some("zero_tokens_after_tokenize"@)
        }),
{
}

/// A tool is judged on all that was read of it: the messages in all its databases, and the findings in
/// the local storage of every profile, each counted once.
pub proof fn law_all_sources_are_looked_at(
    name: Seq<char>,
    hours: Hours,
    shown: Seq<char>,
    sources: LocalSources,
)
    requires
        sources.local_storage@.len() <= u32::MAX,
    ensures
        ({
            let audit = select_view(name, hours, shown, sources).audit;
            let findings = tool_findings(name, sources.local_storage@);
            &&& audit.idb == idb_probe(name, hours, shown, sources.indexeddb@)
            &&& audit.local_storage.profiles_scanned == sources.local_storage@.len()
            &&& audit.local_storage.conversations == conversation_set(findings).len() as u64
            &&& audit.local_storage.notebooks == notebook_set(findings).len() as u64
            &&& audit.local_storage.threads >= thread_set(findings).len() as u64
                || thread_set(findings).len() > u64::MAX || longest_list(findings) > u64::MAX
            &&& audit.safari_web_storage == Some(sources.safari)
            &&& !audit.provider_logged_usage_found
        }),
{
}

proof fn lemma_first_member(members: Seq<(Seq<char>, MetaTree)>, i: int)
    requires
        0 <= i < members.len(),
        forall|k: int| 0 <= k < i ==> (#[trigger] members[k]).0 != members[i].0,
    ensures
        crate::types::meta_member(members, members[i].0) == Some(members[i].1),
    decreases i,
{
    if i > 0 {
        assert(members[0].0 != members[i].0);
        let rest = members.drop_first();
        assert forall|k: int| 0 <= k < i - 1 implies (#[trigger] rest[k]).0 != rest[i - 1].0 by {
            assert(members[k + 1].0 != members[i].0);
        }
        lemma_first_member(rest, i - 1);
    }
}

/// The evidence is written down as it is: the winner with its tokens, and whether the count is accurate.
pub proof fn law_evidence_is_written_down(audit: AuditView)
    requires
        audit.safari_web_storage is Some,
    ensures
        audit_tree(audit).get("winner_tokens"@) == Some(MetaTree::Count(audit.winner_tokens)),
        audit_tree(audit).get("winner_reason"@) == Some(MetaTree::Text(audit.winner_reason)),
        audit_tree(audit).get("accurate_count_possible"@) == Some(
            MetaTree::Flag(audit.accurate_count_possible),
        ),
        audit_tree(audit).get("tier_candidates"@) == Some(candidates_tree(audit.tier_candidates)),
        audit_tree(audit).get("sources_checked"@) is Some,
{
    reveal_strlit("sources_checked");
    reveal_strlit("idb");
    reveal_strlit("local_storage");
    reveal_strlit("safari_web_storage");
    reveal_strlit("tier_candidates");
    reveal_strlit("winner_tier");
    reveal_strlit("winner_reason");
    reveal_strlit("winner_reason_detail");
    reveal_strlit("provider_logged_usage_found");
    reveal_strlit("accurate_count_possible");
    reveal_strlit("winner_tokens");
    assert("sources_checked"@[0] == 's' && "idb"@[0] == 'i' && "local_storage"@[0] == 'l');
    assert("safari_web_storage"@[0] == 's' && "tier_candidates"@[0] == 't');
    assert("winner_tier"@.len() == 11 && "winner_reason"@.len() == 13);
    assert("winner_reason_detail"@.len() == 20 && "winner_tokens"@.len() == 13);
    assert("winner_reason"@[7] == 'r' && "winner_tokens"@[7] == 't');
    assert("winner_tier"@[0] == 'w' && "winner_reason"@[0] == 'w' && "winner_tokens"@[0] == 'w');
    assert("winner_reason_detail"@[0] == 'w');
    assert("provider_logged_usage_found"@[0] == 'p' && "accurate_count_possible"@[0] == 'a');
    let members = audit_tree(audit)->Record_0;
    assert(members.len() == 11);
    lemma_first_member(members, 0);
    lemma_first_member(members, 4);
    lemma_first_member(members, 6);
    lemma_first_member(members, 9);
    lemma_first_member(members, 10);
}

/// Every estimate says that it is one: its method starts with the name of the tokenizer, and names the
/// tool unless the words of its sessions stand for it.
pub proof fn law_method_names_the_tokenizer(
    name: Seq<char>,
    hours: Hours,
    shown: Seq<char>,
    idb: IdbView,
    signals: SignalsView,
    profiles: u32,
    safari: SafariWebStorageProbe,
)
    ensures
        ({
            let s = decide(name, hours, shown, idb, signals, profiles, safari);
            let prefix = "cl100k_base tokenizer"@;
            &&& s.estimated ==> s.method is Some && prefix.is_prefix_of(s.method->0)
            &&& s.unavailable ==> s.method is None
        }),
{
    let s = decide(name, hours, shown, idb, signals, profiles, safari);
    let prefix = "cl100k_base tokenizer"@;
    if s.estimated {
        let method = s.method->0;
        reveal_strlit("cl100k_base tokenizer");
        reveal_strlit("cl100k_base tokenizer over Chrome IndexedDB message JSON for ");
        assert(method.take(prefix.len() as int) =~= prefix);
    }
}

/// The sources that were looked at are named: the history always, IndexedDB where it was there, and of
/// the four tools local storage, where there is a profile, and Safari's web storage.
pub proof fn law_checked_sources_are_named(
    name: Seq<char>,
    idb: IdbView,
    profiles: u32,
    safari: u32,
)
    ensures
        ({
            let list = checked(name, idb, profiles, safari);
            let four = name == "ChatGPT"@ || name == "Gemini"@ || name == "Perplexity"@ || name
                == "NotebookLM"@;
            let one = |yes: bool|
                if yes {
                    1int
                } else {
                    0
                };
            let n = one(idb.paths_scanned > 0) + one(profiles > 0 && four);
            &&& list.len() == 1 + n + one(four || safari > 0)
            &&& list[0] == "chrome_history"@
            &&& idb.paths_scanned > 0 ==> list[1] == "chrome_indexeddb"@
            &&& profiles > 0 && four ==> list[n] == "chrome_local_storage"@
            &&& four || safari > 0 ==> list[n + 1] == "safari_web_storage"@
        }),
{
}

/// A file of Safari's web storage that names the tool adds its size, up to the limit of its directory;
/// any other adds nothing. The limit is never passed, and what was there is never lost.
pub proof fn law_origin_text_adds_up(name: Seq<char>, bytes: Seq<u8>, total: usize, limit: usize)
    ensures
        ({
            let text = utf8_lossy(bytes);
            let r = with_origin_text(name, bytes, total, limit);
            let names = exists|i: int|
                0 <= i < origins(name).len() && has_part(text, #[trigger] origins(name)[i]);
            &&& !names ==> r == total
            &&& r >= total
            &&& total <= limit ==> r <= limit
            &&& names && total + byte_len(text) <= limit ==> r == total + byte_len(text)
            &&& names && total <= limit < total + byte_len(text) ==> r == limit
        }),
{
}

/// The sizes of directories add up.
pub proof fn law_sizes_add_up(sizes: Seq<usize>, size: usize)
    ensures
        summed_sizes(sizes.push(size)) == summed_sizes(sizes) + size,
        summed_sizes(Seq::empty()) == 0,
{
    assert(sizes.push(size).drop_last() =~= sizes);
}

fn checked_sources(display_name: &str, idb: &IdbProbe, profiles: u32, safari: u32) -> (r: Vec<
    String,
>)
    ensures
        texts(r@) == checked(display_name@, idb@, profiles, safari),
{
    let mut list: Vec<String> = vec!["chrome_history".to_string()];
    let priority = is_priority_web_domain(display_name);
    if idb.paths_scanned > 0 {
        list.push("chrome_indexeddb".to_string());
    }
    if profiles > 0 && priority {
        list.push("chrome_local_storage".to_string());
    }
    if priority || safari > 0 {
        list.push("safari_web_storage".to_string());
    }
    assert(texts(list@) =~= checked(display_name@, idb@, profiles, safari));
    list
}

fn copy_text(text: &Option<String>) -> (r: Option<String>)
    ensures
        text_opt(r) == text_opt(*text),
{
    match text {
        Some(s) => Some(s.clone()),
        None => None,
    }
}

fn unavailable_selection(audit: LocalDataAudit, reason: &str) -> (r: AuditSelection)
    ensures
        r@ == none_of(audit@, reason@),
{
    let mut audit = audit;
    audit.winner_reason_detail = reason.to_string();
    AuditSelection {
        audit,
        estimated: false,
        unavailable: true,
        unavailable_reason: Some(reason.to_string()),
        method: None,
    }
}

fn estimated_selection(
    audit: LocalDataAudit,
    tier: WinnerTier,
    reason: WinnerReason,
    detail: String,
    tokens: u64,
    method: String,
) -> (r: AuditSelection)
    ensures
        r@ == one_of(audit@, tier, reason, detail@, tokens, method@),
{
    let mut audit = audit;
    audit.winner_tier = tier;
    audit.winner_reason = reason.as_str().to_string();
    audit.winner_reason_detail = detail;
    audit.accurate_count_possible = matches!(tier, WinnerTier::Tier1);
    audit.winner_tokens = tokens;
    AuditSelection {
        audit,
        estimated: true,
        unavailable: false,
        unavailable_reason: None,
        method: Some(method),
    }
}

/// Decides on what was found: which estimate is taken, and why, or that none can be made.
/// `shown` is the active time in hours as people read it.
pub fn select(
    display_name: &str,
    hours: Hours,
    shown: &str,
    idb: IdbProbe,
    signals: &LocalSessionSignals,
    profiles: u32,
    safari: SafariWebStorageProbe,
) -> (r: AuditSelection)
    ensures
        r@ == decide(display_name@, hours, shown@, idb@, signals@, profiles, safari),
{
    let snippet_chars: usize = total_bytes(&signals.transcript_texts);
    let snippets: u64 = tokens_of_texts(&signals.transcript_texts);
    let (tier2, sessions, kind, tier2_detail) = tier2_from_signals(display_name, signals);
    let tier3: u64 = tier3_tokens(display_name, hours);
    let messages: u64 = idb.token_count;
    let believed = idb.token_count > 0 && idb.rejection_reason.is_none();
    let ghost probe = idb@;
    let audit = LocalDataAudit {
        sources_checked: checked_sources(display_name, &idb, profiles, safari.paths_scanned),
        local_storage: LocalStorageProbe {
            profiles_scanned: profiles,
            conversations: signals.conversations,
            threads: signals.threads,
            notebooks: signals.notebooks,
            snippet_chars,
            snippet_tokens: snippets,
        },
        safari_web_storage: Some(safari),
        tier_candidates: TierCandidates {
            tier1: Tier1Candidate {
                tokens: idb.token_count,
                message_chars: idb.message_chars,
                rejected: copy_text(&idb.rejection_reason),
            },
            tier1_5: Tier1_5Candidate {
                tokens: snippets,
                snippet_chars,
                snippet_count: #[verifier::truncate]
                (signals.transcript_texts.len() as u32),
            },
            tier2: Tier2Candidate { tokens: tier2, sessions, session_kind: kind },
            tier3: Tier3Candidate {
                tokens: tier3,
                hours,
                benchmark_tph: tokens_per_hour_benchmark(display_name),
            },
        },
        idb,
        winner_tier: WinnerTier::Unavailable,
        winner_reason: WinnerReason::Unavailable.as_str().to_string(),
        winner_reason_detail: String::new(),
        provider_logged_usage_found: false,
        accurate_count_possible: false,
        winner_tokens: 0,
    };
    assert(audit@ == evidence(display_name@, hours, probe, signals@, profiles, safari));
    if hours.seconds == 0 {
        return unavailable_selection(audit, "No active hours recorded for this domain");
    }
    let priority = is_priority_web_domain(display_name);
    let pair: u64 = if snippets >= tier2 {
        snippets
    } else {
        tier2
    };
    let most: u64 = if pair >= tier3 {
        pair
    } else {
        tier3
    };
    if believed && (!priority || messages >= most) {
        let reason = WinnerReason::Tier1IdbTranscripts;
        let detail = reason.human_detail(display_name, shown, "");
        let method = format_method(display_name, detail.as_str());
        return estimated_selection(audit, WinnerTier::Tier1, reason, detail, messages, method);
    }
    if !priority || most == 0 {
        return unavailable_selection(audit, HISTORY_ONLY_REASON);
    }
    let count: u64 = match sessions {
        Some(n) => n,
        None => 0,
    };
    let (tier, reason) = pick_winner(snippets, tier2, tier3, count);
    let detail = reason.human_detail(display_name, shown, tier2_detail.as_str());
    let method = format_method_tiered(display_name, reason, detail.as_str());
    estimated_selection(audit, tier, reason, detail, most, method)
}

/// Looks at everything that can be read of a tool on this machine, and decides on it. `shown` is
/// the active time in hours as people read it.
pub fn probe_and_select(
    display_name: &str,
    hours: Hours,
    shown: &str,
    sources: &LocalSources,
) -> (r: AuditSelection)
    ensures
        r@ == select_view(display_name@, hours, shown@, *sources),
{
    let idb = probe_indexeddb(display_name, hours, shown, &sources.indexeddb);
    let signals = collect_session_signals(display_name, &sources.local_storage);
    assert(signals@ == signals_view(tool_findings(display_name@, sources.local_storage@)));
    let profiles: u32 = #[verifier::truncate]
    (sources.local_storage.len() as u32);
    select(display_name, hours, shown, idb, &signals, profiles, sources.safari)
}

/// The evidence of IndexedDB as a record.
pub open spec fn idb_tree(idb: IdbView) -> MetaTree {
    MetaTree::Record(
        seq![
            ("paths_scanned"@, MetaTree::Count(idb.paths_scanned as u64)),
            ("folders_found"@, MetaTree::Count(idb.folders_found as u64)),
            ("message_chars"@, MetaTree::Count(idb.message_chars as u64)),
            ("token_count"@, MetaTree::Count(idb.token_count)),
        ] + if_some("rejection_reason"@, text_tree(idb.rejection_reason)),
    )
}

/// The evidence of local storage as a record.
pub open spec fn local_storage_tree(probe: LocalStorageProbe) -> MetaTree {
    MetaTree::Record(
        seq![
            ("profiles_scanned"@, MetaTree::Count(probe.profiles_scanned as u64)),
            ("conversations"@, MetaTree::Count(probe.conversations)),
            ("threads"@, MetaTree::Count(probe.threads)),
            ("notebooks"@, MetaTree::Count(probe.notebooks)),
            ("snippet_chars"@, MetaTree::Count(probe.snippet_chars as u64)),
            ("snippet_tokens"@, MetaTree::Count(probe.snippet_tokens)),
        ],
    )
}

/// The evidence of Safari's web storage as a record.
pub open spec fn safari_tree(probe: SafariWebStorageProbe) -> MetaTree {
    MetaTree::Record(
        seq![
            ("paths_scanned"@, MetaTree::Count(probe.paths_scanned as u64)),
            ("message_chars"@, MetaTree::Count(probe.message_chars as u64)),
        ],
    )
}

/// The estimates as a record, by tier.
pub open spec fn candidates_tree(c: CandidatesView) -> MetaTree {
    MetaTree::Record(
        seq![
            (
                "1"@,
                MetaTree::Record(
                    seq![
                        ("tokens"@, MetaTree::Count(c.tier1_tokens)),
                        ("message_chars"@, MetaTree::Count(c.message_chars as u64)),
                    ] + if_some("rejected"@, text_tree(c.rejected)),
                ),
            ),
            (
                "1.5"@,
                MetaTree::Record(
                    seq![
                        ("tokens"@, MetaTree::Count(c.tier1_5.tokens)),
                        ("snippet_chars"@, MetaTree::Count(c.tier1_5.snippet_chars as u64)),
                        ("snippet_count"@, MetaTree::Count(c.tier1_5.snippet_count as u64)),
                    ],
                ),
            ),
            (
                "2"@,
                MetaTree::Record(
                    seq![("tokens"@, MetaTree::Count(c.tier2_tokens))] + if_some(
                        "sessions"@,
                        match c.sessions {
                            Some(n) => Some(MetaTree::Count(n)),
                            None => None,
                        },
                    ) + if_some("session_kind"@, text_tree(c.session_kind)),
                ),
            ),
            (
                "3"@,
                MetaTree::Record(
                    seq![
                        ("tokens"@, MetaTree::Count(c.tier3.tokens)),
                        ("hours"@, MetaTree::Hours(c.tier3.hours)),
                        ("benchmark_tph"@, MetaTree::Count(c.tier3.benchmark_tph)),
                    ],
                ),
            ),
        ],
    )
}

/// The evidence as a record.
pub open spec fn audit_tree(audit: AuditView) -> MetaTree {
    MetaTree::Record(
        seq![
            ("sources_checked"@, crate::tally::text_list(audit.sources_checked)),
            ("idb"@, idb_tree(audit.idb)),
            ("local_storage"@, local_storage_tree(audit.local_storage)),
        ] + if_some(
            "safari_web_storage"@,
            match audit.safari_web_storage {
                Some(probe) => Some(safari_tree(probe)),
                None => None,
            },
        ) + seq![
            ("tier_candidates"@, candidates_tree(audit.tier_candidates)),
            ("winner_tier"@, MetaTree::Hundredths(audit.winner_tier.number())),
            ("winner_reason"@, MetaTree::Text(audit.winner_reason)),
            ("winner_reason_detail"@, MetaTree::Text(audit.winner_reason_detail)),
            ("provider_logged_usage_found"@, MetaTree::Flag(audit.provider_logged_usage_found)),
            ("accurate_count_possible"@, MetaTree::Flag(audit.accurate_count_possible)),
            ("winner_tokens"@, MetaTree::Count(audit.winner_tokens)),
        ],
    )
}

fn idb_value(idb: &IdbProbe) -> (r: MetaValue)
    ensures
        r@ == idb_tree(idb@),
{
    let mut b = RecordBuilder::new();
    b.put("paths_scanned", MetaValue::Count(idb.paths_scanned as u64));
    b.put("folders_found", MetaValue::Count(idb.folders_found as u64));
    b.put("message_chars", MetaValue::Count(idb.message_chars as u64));
    b.put("token_count", MetaValue::Count(idb.token_count));
    b.put_text("rejection_reason", &idb.rejection_reason);
    assert(member_trees(b.members@) =~= idb_tree(idb@)->Record_0);
    b.finish()
}

fn local_storage_value(probe: &LocalStorageProbe) -> (r: MetaValue)
    ensures
        r@ == local_storage_tree(*probe),
{
    let mut b = RecordBuilder::new();
    b.put("profiles_scanned", MetaValue::Count(probe.profiles_scanned as u64));
    b.put("conversations", MetaValue::Count(probe.conversations));
    b.put("threads", MetaValue::Count(probe.threads));
    b.put("notebooks", MetaValue::Count(probe.notebooks));
    b.put("snippet_chars", MetaValue::Count(probe.snippet_chars as u64));
    b.put("snippet_tokens", MetaValue::Count(probe.snippet_tokens));
    assert(member_trees(b.members@) =~= local_storage_tree(*probe)->Record_0);
    b.finish()
}

fn safari_value(probe: &SafariWebStorageProbe) -> (r: MetaValue)
    ensures
        r@ == safari_tree(*probe),
{
    let mut b = RecordBuilder::new();
    b.put("paths_scanned", MetaValue::Count(probe.paths_scanned as u64));
    b.put("message_chars", MetaValue::Count(probe.message_chars as u64));
    assert(member_trees(b.members@) =~= safari_tree(*probe)->Record_0);
    b.finish()
}

fn candidates_value(c: &TierCandidates) -> (r: MetaValue)
    ensures
        r@ == candidates_tree(c@),
{
    let ghost goal = candidates_tree(c@)->Record_0;
    let mut one = RecordBuilder::new();
    one.put("tokens", MetaValue::Count(c.tier1.tokens));
    one.put("message_chars", MetaValue::Count(c.tier1.message_chars as u64));
    one.put_text("rejected", &c.tier1.rejected);
    assert(member_trees(one.members@) =~= goal[0].1->Record_0);
    let mut half = RecordBuilder::new();
    half.put("tokens", MetaValue::Count(c.tier1_5.tokens));
    half.put("snippet_chars", MetaValue::Count(c.tier1_5.snippet_chars as u64));
    half.put("snippet_count", MetaValue::Count(c.tier1_5.snippet_count as u64));
    assert(member_trees(half.members@) =~= goal[1].1->Record_0);
    let mut two = RecordBuilder::new();
    two.put("tokens", MetaValue::Count(c.tier2.tokens));
    if let Some(n) = c.tier2.sessions {
        two.put("sessions", MetaValue::Count(n));
    }
    two.put_text("session_kind", &c.tier2.session_kind);
    assert(member_trees(two.members@) =~= goal[2].1->Record_0);
    let mut three = RecordBuilder::new();
    three.put("tokens", MetaValue::Count(c.tier3.tokens));
    three.put("hours", MetaValue::Hours(c.tier3.hours));
    three.put("benchmark_tph", MetaValue::Count(c.tier3.benchmark_tph));
    assert(member_trees(three.members@) =~= goal[3].1->Record_0);
    let mut b = RecordBuilder::new();
    b.put("1", one.finish());
    b.put("1.5", half.finish());
    b.put("2", two.finish());
    b.put("3", three.finish());
    assert(member_trees(b.members@) =~= goal);
    b.finish()
}

impl LocalDataAudit {
    /// The evidence as a record of details.
    pub fn to_json_value(&self) -> (r: MetaValue)
        ensures
            r@ == audit_tree(self@),
    {
        let mut b = RecordBuilder::new();
        b.put("sources_checked", crate::tally::to_list(&self.sources_checked));
        b.put("idb", idb_value(&self.idb));
        b.put("local_storage", local_storage_value(&self.local_storage));
        if let Some(probe) = &self.safari_web_storage {
            b.put("safari_web_storage", safari_value(probe));
        }
        b.put("tier_candidates", candidates_value(&self.tier_candidates));
        b.put("winner_tier", MetaValue::Hundredths(self.winner_tier.hundredths()));
        b.put("winner_reason", MetaValue::Text(self.winner_reason.clone()));
        b.put("winner_reason_detail", MetaValue::Text(self.winner_reason_detail.clone()));
        b.put(
            "provider_logged_usage_found",
            MetaValue::Flag(self.provider_logged_usage_found),
        );
        b.put("accurate_count_possible", MetaValue::Flag(self.accurate_count_possible));
        b.put("winner_tokens", MetaValue::Count(self.winner_tokens));
        assert(member_trees(b.members@) =~= audit_tree(self@)->Record_0);
        b.finish()
    }
}

} // verus!
