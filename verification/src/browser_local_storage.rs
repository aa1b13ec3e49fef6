//! Sessions that web AI tools list in the local storage of Chromium browsers.
//!
//! Chromium stores values as UTF-8 or UTF-16LE JSON, often with control bytes in between. ChatGPT
//! keeps its sidebar under keys such as `conversation-history-without-projects`, by profile.

use crate::harvest::{byte_len, byte_length, find_fragments, fragments, merged, UniqueTexts};
use crate::json::{json_document, parse_json, trees, Json, JsonTree};
use crate::platform::{browser_paths, in_browsers, Listing};
use crate::text::{
    chars_of, contains, contains_any, ends_with, has_any, has_part, is_letter, is_white,
    is_white_space, lossy_text, part_at, same, slice_of, stands_at, strs, texts, trim, trimmed,
    utf8_lossy,
};
use vstd::hash_set::StringHashSet;
use vstd::prelude::*;

verus! {

/// Counts of sessions, threads and notebooks, and texts to estimate tokens from.
pub struct LocalSessionSignals {
    pub conversations: u64,
    pub threads: u64,
    pub notebooks: u64,
    /// Titles and snippets.
    pub transcript_texts: Vec<String>,
}

/// What the storage of one profile holds.
pub struct StorageDump {
    /// Keys and values, as far as the database gives them out.
    pub entries: Vec<(Vec<u8>, Vec<u8>)>,
    /// The names and the bytes of the files of the database.
    pub files: Vec<(String, Vec<u8>)>,
}

/// What to look for in a record to tell that it belongs to a tool: its origins.
pub open spec fn ls_origins(name: Seq<char>) -> Seq<Seq<char>> {
    if name == "ChatGPT"@ {
        seq!["chatgpt.com"@, "chat.openai.com"@]
    } else if name == "Gemini"@ {
        seq!["gemini.google.com"@, "bard.google.com"@]
    } else if name == "Perplexity"@ {
        seq!["perplexity.ai"@]
    } else if name == "NotebookLM"@ {
        seq!["notebooklm.google.com"@, "$notebooklm"@]
    } else {
        Seq::empty()
    }
}

/// What to look for in a record to tell that it lists sessions of a tool.
pub open spec fn ls_cache_keys(name: Seq<char>) -> Seq<Seq<char>> {
    if name == "ChatGPT"@ {
        seq!["conversation-history"@, "starred-conversations"@, "client-bootstrap"@]
    } else if name == "Perplexity"@ {
        seq!["threads-v2"@, "threadId"@, "pplx"@]
    } else if name == "NotebookLM"@ {
        seq!["notebooklm"@, "notebooks"@]
    } else if name == "Gemini"@ {
        seq!["gemini.google"@, "bard.google"@]
    } else {
        Seq::empty()
    }
}

/// The origins of a tool.
pub fn ls_origin_needles(display_name: &str) -> (r: Vec<&'static str>)
    ensures
        strs(r@) == ls_origins(display_name@),
{
    let r: Vec<&'static str> = if same(display_name, "ChatGPT") {
        vec!["chatgpt.com", "chat.openai.com"]
    } else if same(display_name, "Gemini") {
        vec!["gemini.google.com", "bard.google.com"]
    } else if same(display_name, "Perplexity") {
        vec!["perplexity.ai"]
    } else if same(display_name, "NotebookLM") {
        vec!["notebooklm.google.com", "$notebooklm"]
    } else {
        Vec::new()
    };
    assert(strs(r@) =~= ls_origins(display_name@));
    r
}

/// The keys under which a tool lists its sessions.
pub fn ls_cache_key_needles(display_name: &str) -> (r: Vec<&'static str>)
    ensures
        strs(r@) == ls_cache_keys(display_name@),
{
    let r: Vec<&'static str> = if same(display_name, "ChatGPT") {
        vec!["conversation-history", "starred-conversations", "client-bootstrap"]
    } else if same(display_name, "Perplexity") {
        vec!["threads-v2", "threadId", "pplx"]
    } else if same(display_name, "NotebookLM") {
        vec!["notebooklm", "notebooks"]
    } else if same(display_name, "Gemini") {
        vec!["gemini.google", "bard.google"]
    } else {
        Vec::new()
    };
    assert(strs(r@) =~= ls_cache_keys(display_name@));
    r
}

/// Whether a text names a tool or one of the keys under which it lists its sessions.
pub open spec fn names_tool(text: Seq<char>, name: Seq<char>) -> bool {
    has_any(text, ls_origins(name)) || has_any(text, ls_cache_keys(name))
}

/// Whether a character is a control code.
pub open spec fn is_control(c: char) -> bool {
    c <= '\u{1f}' || '\u{7f}' <= c <= '\u{9f}'
}

/// A character, or a space for a control code that is no white space of a text.
pub open spec fn printable(c: char) -> char {
    if c == '\t' || c == '\n' || c == '\r' || !is_control(c) {
        c
    } else {
        ' '
    }
}

/// A text with one space for every run of white space, and none at its ends.
pub open spec fn squeezed(s: Seq<char>) -> Seq<char>
    decreases s.len(),
{
    if s.len() == 0 {
        Seq::empty()
    } else {
        let before = squeezed(s.drop_last());
        if is_white(s.last()) {
            before
        } else if s.len() > 1 && is_white(s[s.len() - 2]) && before.len() > 0 {
            before.push(' ').push(s.last())
        } else {
            before.push(s.last())
        }
    }
}

/// A stored text without control codes, with single spaces.
pub open spec fn sanitized(s: Seq<char>) -> Seq<char> {
    squeezed(s.map_values(|c: char| printable(c)))
}

/// A stored text without control codes, with single spaces.
pub fn sanitize_storage_text(s: &[char]) -> (r: String)
    ensures
        r@ == sanitized(s@),
{
    let mut r = String::new();
    let mut empty = true;
    let mut after_white = false;
    let ghost p = s@.map_values(|c: char| printable(c));
    let mut i: usize = 0;
    while i < s.len()
        invariant
            i <= s@.len(),
            p == s@.map_values(|c: char| printable(c)),
            r@ == squeezed(p.take(i as int)),
            empty == (r@.len() == 0),
            after_white == (i > 0 && is_white(p[i - 1])),
        decreases s@.len() - i,
    {
        let raw = s[i];
        let c: char = if raw == '\t' || raw == '\n' || raw == '\r' || !(raw <= '\u{1f}' || ('\u{7f}'
            <= raw && raw <= '\u{9f}')) {
            raw
        } else {
            ' '
        };
        proof {
            assert(p.take(i + 1).drop_last() =~= p.take(i as int));
            assert(p.take(i + 1).last() == c);
            if i > 0 {
                assert(p.take(i + 1)[i - 1] == p[i - 1]);
            }
        }
        if is_white_space(c) {
            after_white = true;
        } else {
            if after_white && !empty {
                r.push(' ');
            }
            r.push(c);
            empty = false;
            after_white = false;
        }
        i += 1;
    }
    assert(p.take(i as int) =~= p);
    r
}

/// The character of a UTF-16 unit; a surrogate is no character by itself.
pub open spec fn unit_char(low: u8, high: u8) -> char {
    let unit = low as u32 + 256 * high as u32;
    if 0xd800 <= unit < 0xe000 {
        '\u{fffd}'
    } else {
        unit as char
    }
}

/// The end of what is read as one text from a place on.
pub open spec fn chunk_end(bytes: Seq<u8>, from: int) -> int {
    if from + 400_000 < bytes.len() {
        from + 400_000
    } else {
        bytes.len() as int
    }
}

/// What the bytes from a place on say in UTF-16LE.
pub open spec fn utf16_text(bytes: Seq<u8>, from: int) -> Seq<char> {
    Seq::new(
        ((chunk_end(bytes, from) - from) / 2) as nat,
        |k: int| unit_char(bytes[from + 2 * k], bytes[from + 2 * k + 1]),
    )
}

/// Whether a UTF-16LE object starts at a place: `{"`.
pub open spec fn starts_utf16_object(bytes: Seq<u8>, i: int) -> bool {
    bytes[i] == 0x7b && bytes[i + 1] == 0 && bytes[i + 2] == 0x22 && bytes[i + 3] == 0
}

/// A text as the only candidate, if it is long enough.
pub open spec fn if_long(text: Seq<char>) -> Seq<Seq<char>> {
    if byte_len(text) >= 20 {
        seq![text]
    } else {
        Seq::empty()
    }
}

/// The UTF-16LE objects from a place on, each with what follows it.
pub open spec fn utf16_candidates(bytes: Seq<u8>, from: int) -> Seq<Seq<char>>
    decreases bytes.len() - from,
{
    if from < 0 || from + 12 >= bytes.len() {
        Seq::empty()
    } else if starts_utf16_object(bytes, from) {
        if_long(sanitized(utf16_text(bytes, from))) + utf16_candidates(bytes, from + 2)
    } else {
        utf16_candidates(bytes, from + 1)
    }
}

/// What a stored value may say: its bytes as UTF-8, and every UTF-16LE object in them.
pub open spec fn candidates(bytes: Seq<u8>) -> Seq<Seq<char>> {
    if_long(sanitized(utf8_lossy(bytes))) + utf16_candidates(bytes, 0)
}

fn decode_utf16(bytes: &[u8], from: usize) -> (r: Vec<char>)
    requires
        from < bytes@.len(),
    ensures
        r@ == utf16_text(bytes@, from as int),
{
    let n: usize = bytes.len();
    let end: usize = if n - from > 400_000 {
        from + 400_000
    } else {
        n
    };
    let mut r: Vec<char> = Vec::new();
    let mut j: usize = from;
    let ghost goal = utf16_text(bytes@, from as int);
    while end - j >= 2
        invariant
            from <= j <= end,
            end == chunk_end(bytes@, from as int),
            n == bytes@.len(),
            end <= n,
            (j - from) == 2 * r@.len(),
            r@.len() <= goal.len(),
            goal == utf16_text(bytes@, from as int),
            r@ == goal.take(r@.len() as int),
        decreases end - j,
    {
        let unit: u32 = bytes[j] as u32 + 256 * (bytes[j + 1] as u32);
        let c: char = match char::from_u32(unit) {
            Some(c) => c,
            None => '\u{fffd}',
        };
        let ghost k = r@.len() as int;
        proof {
            assert(from + 2 * k == j);
            assert(goal[k] == c);
        }
        r.push(c);
        j += 2;
        assert(r@ =~= goal.take(r@.len() as int));
    }
    assert(r@ =~= goal);
    r
}

/// What a stored value may say: its bytes as UTF-8, and every UTF-16LE object in them.
pub fn decode_ls_text_candidates(bytes: &[u8]) -> (r: Vec<String>)
    ensures
        texts(r@) == candidates(bytes@),
{
    let mut out: Vec<String> = Vec::new();
    let lossy = lossy_text(bytes);
    let chars = chars_of(lossy.as_str());
    let plain = sanitize_storage_text(chars.as_slice());
    if byte_length(plain.as_str()) >= 20 {
        out.push(plain);
    }
    let ghost first = if_long(sanitized(utf8_lossy(bytes@)));
    assert(texts(out@) =~= first);
    let mut i: usize = 0;
    while bytes.len() >= 12 && i < bytes.len() - 12
        invariant
            i <= bytes@.len(),
            texts(out@) + utf16_candidates(bytes@, i as int) == candidates(bytes@),
        decreases bytes@.len() - i,
    {
        let ghost before = out@;
        if bytes[i] == 0x7b && bytes[i + 1] == 0 && bytes[i + 2] == 0x22 && bytes[i + 3] == 0 {
            let decoded = decode_utf16(bytes, i);
            let text = sanitize_storage_text(decoded.as_slice());
            let ghost t = text@;
            if byte_length(text.as_str()) >= 20 {
                out.push(text);
            }
            proof {
                assert(texts(out@) =~= texts(before) + if_long(t));
                assert(texts(out@) + utf16_candidates(bytes@, i + 2) =~= texts(before) + (if_long(t)
                    + utf16_candidates(bytes@, i + 2)));
            }
            i += 2;
        } else {
            i += 1;
        }
    }
    assert(texts(out@) =~= candidates(bytes@));
    out
}

/// One thing that local storage tells of a tool.
#[verifier::ext_equal]
pub ghost enum Finding {
    /// A conversation, by its id.
    Conversation(Seq<char>),
    /// A thread, by its id.
    Thread(Seq<char>),
    /// A notebook, by its id.
    Notebook(Seq<char>),
    /// A list of threads: the ids in it, and how many of its items have none.
    ThreadList { ids: Seq<Seq<char>>, unnamed: nat },
    /// A title or a snippet.
    Text(Seq<char>),
}

/// The distinct conversations.
pub open spec fn conversation_set(findings: Seq<Finding>) -> Set<Seq<char>>
    decreases findings.len(),
{
    if findings.len() == 0 {
        Set::empty()
    } else {
        match findings.last() {
            Finding::Conversation(id) => conversation_set(findings.drop_last()).insert(id),
            _ => conversation_set(findings.drop_last()),
        }
    }
}

/// The distinct threads.
pub open spec fn thread_set(findings: Seq<Finding>) -> Set<Seq<char>>
    decreases findings.len(),
{
    if findings.len() == 0 {
        Set::empty()
    } else {
        match findings.last() {
            Finding::Thread(id) => thread_set(findings.drop_last()).insert(id),
            Finding::ThreadList { ids, .. } => thread_set(findings.drop_last()).union(ids.to_set()),
            _ => thread_set(findings.drop_last()),
        }
    }
}

/// The distinct notebooks.
pub open spec fn notebook_set(findings: Seq<Finding>) -> Set<Seq<char>>
    decreases findings.len(),
{
    if findings.len() == 0 {
        Set::empty()
    } else {
        match findings.last() {
            Finding::Notebook(id) => notebook_set(findings.drop_last()).insert(id),
            _ => notebook_set(findings.drop_last()),
        }
    }
}

/// The most distinct items in one list of threads. An item without an id is like no other.
pub open spec fn longest_list(findings: Seq<Finding>) -> nat
    decreases findings.len(),
{
    if findings.len() == 0 {
        0
    } else {
        let before = longest_list(findings.drop_last());
        match findings.last() {
            Finding::ThreadList { ids, unnamed } => if ids.to_set().len() + unnamed > before {
                ids.to_set().len() + unnamed
            } else {
                before
            },
            _ => before,
        }
    }
}

/// The distinct texts, in the order in which they came.
pub open spec fn found_texts(findings: Seq<Finding>) -> Seq<Seq<char>>
    decreases findings.len(),
{
    if findings.len() == 0 {
        Seq::empty()
    } else {
        match findings.last() {
            Finding::Text(t) => merged(found_texts(findings.drop_last()), seq![t]),
            _ => found_texts(findings.drop_last()),
        }
    }
}

/// Whether some signals are what some findings come to. Threads are the distinct ids, or as many
/// as one list has, where items without an id make them more.
pub open spec fn signals_of(signals: LocalSessionSignals, findings: Seq<Finding>) -> bool {
    &&& signals.conversations == conversation_set(findings).len()
    &&& signals.threads == if longest_list(findings) > thread_set(findings).len() {
        longest_list(findings)
    } else {
        thread_set(findings).len()
    }
    &&& signals.notebooks == notebook_set(findings).len()
    &&& texts(signals.transcript_texts@) == found_texts(findings)
}

/// One more text adds itself to the set of those before it.
proof fn lemma_take_to_set(all: Seq<Seq<char>>, i: int)
    requires
        0 <= i < all.len(),
    ensures
        all.take(i + 1).to_set() == all.take(i).to_set().insert(all[i]),
{
    let before = all.take(i);
    let after = all.take(i + 1);
    assert forall|x: Seq<char>| after.to_set().contains(x) <==> before.to_set().insert(
        all[i],
    ).contains(x) by {
        if after.contains(x) {
            let k = after.index_of(x);
            assert(k == i || before[k] == x);
        }
        if before.contains(x) {
            let k = before.index_of(x);
            assert(after[k] == x);
        }
        assert(after[i] == all[i]);
    }
    assert(after.to_set() =~= before.to_set().insert(all[i]));
}

/// The findings of a tool while its storage is read.
pub struct SignalLog {
    conversations: StringHashSet,
    threads: StringHashSet,
    notebooks: StringHashSet,
    longest: usize,
    texts: UniqueTexts,
    findings: Ghost<Seq<Finding>>,
}

impl View for SignalLog {
    type V = Seq<Finding>;

    closed spec fn view(&self) -> Seq<Finding> {
        self.findings@
    }
}

impl SignalLog {
    /// Every total is what the findings come to.
    pub closed spec fn wf(&self) -> bool {
        &&& self.conversations@ == conversation_set(self@)
        &&& self.threads@ == thread_set(self@)
        &&& self.notebooks@ == notebook_set(self@)
        &&& self.longest == longest_list(self@)
        &&& self.texts.wf()
        &&& self.texts@ == found_texts(self@)
    }

    /// Nothing found yet.
    pub fn new() -> (r: SignalLog)
        ensures
            r.wf(),
            r@ == Seq::<Finding>::empty(),
    {
        SignalLog {
            conversations: StringHashSet::new(),
            threads: StringHashSet::new(),
            notebooks: StringHashSet::new(),
            longest: 0,
            texts: UniqueTexts::new(),
            findings: Ghost(Seq::empty()),
        }
    }

    fn note_conversation(&mut self, id: &str)
        requires
            old(self).wf(),
        ensures
            final(self).wf(),
            final(self)@ == old(self)@.push(Finding::Conversation(id@)),
    {
        let ghost before = self@;
        self.conversations.insert(id.to_string());
        self.findings = Ghost(before.push(Finding::Conversation(id@)));
        assert(self@.drop_last() =~= before);
    }

    fn note_thread(&mut self, id: &str)
        requires
            old(self).wf(),
        ensures
            final(self).wf(),
            final(self)@ == old(self)@.push(Finding::Thread(id@)),
    {
        let ghost before = self@;
        self.threads.insert(id.to_string());
        self.findings = Ghost(before.push(Finding::Thread(id@)));
        assert(self@.drop_last() =~= before);
    }

    fn note_notebook(&mut self, id: &str)
        requires
            old(self).wf(),
        ensures
            final(self).wf(),
            final(self)@ == old(self)@.push(Finding::Notebook(id@)),
    {
        let ghost before = self@;
        self.notebooks.insert(id.to_string());
        self.findings = Ghost(before.push(Finding::Notebook(id@)));
        assert(self@.drop_last() =~= before);
    }

    fn note_list(&mut self, ids: &Vec<String>, unnamed: usize)
        requires
            old(self).wf(),
            ids@.len() + unnamed <= usize::MAX,
        ensures
            final(self).wf(),
            final(self)@ == old(self)@.push(
                Finding::ThreadList { ids: texts(ids@), unnamed: unnamed as nat },
            ),
    {
        let ghost before = self@;
        let ghost old_threads = self.threads@;
        let ghost all = texts(ids@);
        let mut own = StringHashSet::new();
        let mut i: usize = 0;
        proof {
            assert(all.take(0).to_set() =~= Set::empty());
            assert(old_threads.union(all.take(0).to_set()) =~= old_threads);
        }
        while i < ids.len()
            invariant
                i <= ids@.len(),
                all == texts(ids@),
                own@ == all.take(i as int).to_set(),
                own@.finite(),
                own@.len() <= i,
                self@ == before,
                self.threads@ == old_threads.union(own@),
                self.conversations@ == conversation_set(before),
                self.notebooks@ == notebook_set(before),
                self.longest == longest_list(before),
                self.texts.wf(),
                self.texts@ == found_texts(before),
            decreases ids@.len() - i,
        {
            let ghost seen = own@;
            own.insert(ids[i].clone());
            self.threads.insert(ids[i].clone());
            proof {
                lemma_take_to_set(all, i as int);
                assert(old_threads.union(seen).insert(all[i as int]) =~= old_threads.union(
                    seen.insert(all[i as int]),
                ));
            }
            i += 1;
        }
        assert(all.take(i as int) =~= all);
        let n: usize = own.len() + unnamed;
        if n > self.longest {
            self.longest = n;
        }
        self.findings = Ghost(before.push(Finding::ThreadList { ids: all, unnamed: unnamed as nat }));
        assert(self@.drop_last() =~= before);
    }

    fn note_text(&mut self, text: &str)
        requires
            old(self).wf(),
        ensures
            final(self).wf(),
            final(self)@ == old(self)@.push(Finding::Text(text@)),
    {
        let ghost before = self@;
        self.texts.add(text);
        self.findings = Ghost(before.push(Finding::Text(text@)));
        assert(self@.drop_last() =~= before);
    }

    /// The number of distinct conversations.
    pub fn conversation_count(&self) -> (r: usize)
        requires
            self.wf(),
        ensures
            r == conversation_set(self@).len(),
    {
        self.conversations.len()
    }

    /// The number of distinct threads.
    pub fn thread_count(&self) -> (r: usize)
        requires
            self.wf(),
        ensures
            r == thread_set(self@).len(),
    {
        self.threads.len()
    }

    /// What the findings come to.
    pub fn into_signals(self) -> (r: LocalSessionSignals)
        requires
            self.wf(),
        ensures
            signals_of(r, self@),
    {
        let distinct: usize = self.threads.len();
        let threads: usize = if self.longest > distinct {
            self.longest
        } else {
            distinct
        };
        LocalSessionSignals {
            conversations: self.conversations.len() as u64,
            threads: threads as u64,
            notebooks: self.notebooks.len() as u64,
            transcript_texts: self.texts.into_list(),
        }
    }
}

/// Whether a character is a hexadecimal digit or a hyphen.
pub open spec fn is_hex_or_hyphen(c: char) -> bool {
    '0' <= c <= '9' || 'a' <= c <= 'f' || 'A' <= c <= 'F' || c == '-'
}

/// Whether a text has the form of a UUID.
pub open spec fn is_uuid(s: Seq<char>) -> bool {
    &&& s.len() == 36
    &&& s[8] == '-' && s[13] == '-' && s[18] == '-' && s[23] == '-'
    &&& forall|i: int| 0 <= i < s.len() ==> is_hex_or_hyphen(#[trigger] s[i])
}

fn uuid_at(chars: &[char], from: usize) -> (r: bool)
    requires
        from + 36 <= chars@.len(),
    ensures
        r == is_uuid(chars@.subrange(from as int, from + 36)),
{
    let ghost s = chars@.subrange(from as int, from + 36);
    assert(s[8] == chars@[from + 8] && s[13] == chars@[from + 13] && s[18] == chars@[from + 18]
        && s[23] == chars@[from + 23]);
    let n: usize = chars.len();
    if chars[from + 8] != '-' || chars[from + 13] != '-' || chars[from + 18] != '-' || chars[from
        + 23] != '-' {
        return false;
    }
    let mut k: usize = 0;
    while k < 36
        invariant
            k <= 36,
            n == chars@.len(),
            from + 36 <= chars@.len(),
            s == chars@.subrange(from as int, from + 36),
            forall|i: int| 0 <= i < k ==> is_hex_or_hyphen(#[trigger] s[i]),
        decreases 36 - k,
    {
        let c = chars[from + k];
        assert(s[k as int] == c);
        if !(('0' <= c && c <= '9') || ('a' <= c && c <= 'f') || ('A' <= c && c <= 'F') || c
            == '-') {
            return false;
        }
        k += 1;
    }
    true
}

/// Whether a text has the form of a UUID.
pub fn looks_like_uuid(s: &str) -> (r: bool)
    ensures
        r == is_uuid(s@),
{
    let chars = chars_of(s);
    if chars.len() != 36 {
        return false;
    }
    assert(chars@.subrange(0, 36) =~= s@);
    uuid_at(chars.as_slice(), 0)
}

/// Whether a value is an entry of a list of threads.
pub open spec fn is_thread_entry(v: JsonTree) -> bool {
    v.get("threadId"@) is Some || (v.get("name"@) is Some && v.get("createdAt"@) is Some)
}

/// Whether some values are a list of threads.
pub open spec fn is_thread_list(items: Seq<JsonTree>) -> bool {
    exists|i: int| 0 <= i < items.len() && is_thread_entry(#[trigger] items[i])
}

/// The ids of the threads in a list.
pub open spec fn listed_ids(items: Seq<JsonTree>) -> Seq<Seq<char>>
    decreases items.len(),
{
    if items.len() == 0 {
        Seq::empty()
    } else {
        let before = listed_ids(items.drop_last());
        match items.last().text_at("threadId"@) {
            Some(id) => before.push(id),
            None => before,
        }
    }
}

/// How many items of a list of threads have no id.
pub open spec fn unnamed_items(items: Seq<JsonTree>) -> nat
    decreases items.len(),
{
    if items.len() == 0 {
        0
    } else {
        let before = unnamed_items(items.drop_last());
        match items.last().text_at("threadId"@) {
            Some(_) => before,
            None => before + 1,
        }
    }
}

/// The conversation that an entry of the sidebar names.
pub open spec fn entry_conversation(item: JsonTree) -> Seq<Finding> {
    match item.text_at("id"@) {
        Some(id) if is_uuid(id) => seq![Finding::Conversation(id)],
        _ => Seq::empty(),
    }
}

/// A field of an entry, if it is long enough to count.
pub open spec fn entry_text(item: JsonTree, field: Seq<char>) -> Seq<Finding> {
    match item.text_at(field) {
        Some(s) if byte_len(trimmed(s)) >= 12 => seq![Finding::Text(trimmed(s))],
        _ => Seq::empty(),
    }
}

/// What the entries of the first page of the sidebar tell.
pub open spec fn sidebar_entries(items: Seq<JsonTree>) -> Seq<Finding>
    decreases items.len(),
{
    if items.len() == 0 {
        Seq::empty()
    } else {
        sidebar_entries(items.drop_last()) + entry_conversation(items.last()) + entry_text(
            items.last(),
            "snippet"@,
        ) + entry_text(items.last(), "title"@)
    }
}

/// The conversations that some entries name.
pub open spec fn listed_conversations(items: Seq<JsonTree>) -> Seq<Finding>
    decreases items.len(),
{
    if items.len() == 0 {
        Seq::empty()
    } else {
        listed_conversations(items.drop_last()) + entry_conversation(items.last())
    }
}

/// The notebooks that some entries name.
pub open spec fn listed_notebooks(items: Seq<JsonTree>) -> Seq<Finding>
    decreases items.len(),
{
    if items.len() == 0 {
        Seq::empty()
    } else {
        let before = listed_notebooks(items.drop_last());
        match items.last().text_at("id"@) {
            Some(id) => before.push(Finding::Notebook(id)),
            None => before,
        }
    }
}

/// The entries of the first page below `value.pages`.
pub open spec fn first_page(v: JsonTree) -> Seq<JsonTree> {
    match v.get_in("value"@, "pages"@) {
        Some(p) => match p.items() {
            Some(pages) => if pages.len() > 0 {
                some_items(pages[0].items_at("items"@))
            } else {
                Seq::empty()
            },
            None => Seq::empty(),
        },
        None => Seq::empty(),
    }
}

/// Some items, or none.
pub open spec fn some_items(items: Option<Seq<JsonTree>>) -> Seq<JsonTree> {
    match items {
        Some(list) => list,
        None => Seq::empty(),
    }
}

/// What an object itself tells of a tool.
pub open spec fn object_findings(name: Seq<char>, v: JsonTree) -> Seq<Finding> {
    (if name == "ChatGPT"@ {
        sidebar_entries(first_page(v)) + listed_conversations(some_items(v.items_at("items"@)))
    } else {
        Seq::empty()
    }) + (if name == "NotebookLM"@ {
        listed_notebooks(some_items(v.items_at("notebooks"@)))
    } else {
        Seq::empty()
    })
}

/// What an array itself tells of a tool.
pub open spec fn array_findings(name: Seq<char>, items: Seq<JsonTree>) -> Seq<Finding> {
    if name == "Perplexity"@ && is_thread_list(items) {
        seq![Finding::ThreadList { ids: listed_ids(items), unnamed: unnamed_items(items) }]
    } else {
        Seq::empty()
    }
}

/// What a JSON value, and all values in it, tell of a tool.
pub open spec fn json_findings(name: Seq<char>, v: JsonTree) -> Seq<Finding>
    decreases v,
{
    match v {
        JsonTree::Array(items) => array_findings(name, items) + item_findings(name, items),
        JsonTree::Object(members) => object_findings(name, v) + member_findings(name, members),
        _ => Seq::empty(),
    }
}

/// What some items, and all values in them, tell of a tool.
pub open spec fn item_findings(name: Seq<char>, items: Seq<JsonTree>) -> Seq<Finding>
    decreases items,
{
    if items.len() == 0 {
        Seq::empty()
    } else {
        item_findings(name, items.drop_last()) + json_findings(name, items.last())
    }
}

/// What the values of some members, and all values in them, tell of a tool.
pub open spec fn member_findings(
    name: Seq<char>,
    members: Seq<(Seq<char>, JsonTree)>,
) -> Seq<Finding>
    decreases members,
{
    if members.len() == 0 {
        Seq::empty()
    } else {
        member_findings(name, members.drop_last()) + json_findings(name, members.last().1)
    }
}

fn note_listed_threads(log: &mut SignalLog, items: &Vec<Json>)
    requires
        old(log).wf(),
    ensures
        final(log).wf(),
        final(log)@ == old(log)@.push(
            Finding::ThreadList {
                ids: listed_ids(trees(items@)),
                unnamed: unnamed_items(trees(items@)),
            },
        ),
{
    let ghost all = trees(items@);
    let mut ids: Vec<String> = Vec::new();
    let mut unnamed: usize = 0;
    let mut i: usize = 0;
    assert(texts(ids@) =~= listed_ids(all.take(0)));
    while i < items.len()
        invariant
            i <= items@.len(),
            all == trees(items@),
            ids@.len() + unnamed <= i,
            texts(ids@) == listed_ids(all.take(i as int)),
            unnamed == unnamed_items(all.take(i as int)),
        decreases items@.len() - i,
    {
        proof {
            assert(all.take(i + 1).drop_last() =~= all.take(i as int));
            assert(all.take(i + 1).last() == items@[i as int]@);
        }
        if let Some(id) = items[i].text_at("threadId") {
            ids.push(id.to_string());
        } else {
            unnamed += 1;
        }
        i += 1;
        assert(texts(ids@) =~= listed_ids(all.take(i as int)));
    }
    assert(all.take(i as int) =~= all);
    log.note_list(&ids, unnamed);
}

fn note_entry_conversation(log: &mut SignalLog, item: &Json)
    requires
        old(log).wf(),
    ensures
        final(log).wf(),
        final(log)@ == old(log)@ + entry_conversation(item@),
{
    let ghost start = log@;
    if let Some(id) = item.text_at("id") {
        if looks_like_uuid(id) {
            log.note_conversation(id);
        }
    }
    assert(log@ =~= start + entry_conversation(item@));
}

fn push_transcript_field(log: &mut SignalLog, item: &Json, field: &str)
    requires
        old(log).wf(),
    ensures
        final(log).wf(),
        final(log)@ == old(log)@ + entry_text(item@, field@),
{
    let ghost start = log@;
    if let Some(s) = item.text_at(field) {
        let t = trim(s);
        if byte_length(t.as_str()) >= 12 {
            log.note_text(t.as_str());
        }
    }
    assert(log@ =~= start + entry_text(item@, field@));
}

fn note_sidebar(log: &mut SignalLog, items: &Vec<Json>)
    requires
        old(log).wf(),
    ensures
        final(log).wf(),
        final(log)@ == old(log)@ + sidebar_entries(trees(items@)),
{
    let ghost start = log@;
    let ghost all = trees(items@);
    let mut i: usize = 0;
    assert(start + sidebar_entries(all.take(0)) =~= start);
    while i < items.len()
        invariant
            i <= items@.len(),
            log.wf(),
            all == trees(items@),
            log@ == start + sidebar_entries(all.take(i as int)),
        decreases items@.len() - i,
    {
        proof {
            assert(all.take(i + 1).drop_last() =~= all.take(i as int));
            assert(all.take(i + 1).last() == items@[i as int]@);
        }
        note_entry_conversation(log, &items[i]);
        push_transcript_field(log, &items[i], "snippet");
        push_transcript_field(log, &items[i], "title");
        i += 1;
        assert(log@ =~= start + sidebar_entries(all.take(i as int)));
    }
    assert(all.take(i as int) =~= all);
}

fn note_listed_conversations(log: &mut SignalLog, items: &Vec<Json>)
    requires
        old(log).wf(),
    ensures
        final(log).wf(),
        final(log)@ == old(log)@ + listed_conversations(trees(items@)),
{
    let ghost start = log@;
    let ghost all = trees(items@);
    let mut i: usize = 0;
    assert(start + listed_conversations(all.take(0)) =~= start);
    while i < items.len()
        invariant
            i <= items@.len(),
            log.wf(),
            all == trees(items@),
            log@ == start + listed_conversations(all.take(i as int)),
        decreases items@.len() - i,
    {
        proof {
            assert(all.take(i + 1).drop_last() =~= all.take(i as int));
            assert(all.take(i + 1).last() == items@[i as int]@);
        }
        note_entry_conversation(log, &items[i]);
        i += 1;
        assert(log@ =~= start + listed_conversations(all.take(i as int)));
    }
    assert(all.take(i as int) =~= all);
}

fn note_listed_notebooks(log: &mut SignalLog, items: &Vec<Json>)
    requires
        old(log).wf(),
    ensures
        final(log).wf(),
        final(log)@ == old(log)@ + listed_notebooks(trees(items@)),
{
    let ghost start = log@;
    let ghost all = trees(items@);
    let mut i: usize = 0;
    assert(start + listed_notebooks(all.take(0)) =~= start);
    while i < items.len()
        invariant
            i <= items@.len(),
            log.wf(),
            all == trees(items@),
            log@ == start + listed_notebooks(all.take(i as int)),
        decreases items@.len() - i,
    {
        proof {
            assert(all.take(i + 1).drop_last() =~= all.take(i as int));
            assert(all.take(i + 1).last() == items@[i as int]@);
        }
        if let Some(id) = items[i].text_at("id") {
            log.note_notebook(id);
        }
        i += 1;
        assert(log@ =~= start + listed_notebooks(all.take(i as int)));
    }
    assert(all.take(i as int) =~= all);
}

fn looks_like_thread_list(items: &Vec<Json>) -> (r: bool)
    ensures
        r == is_thread_list(trees(items@)),
{
    let ghost all = trees(items@);
    let mut i: usize = 0;
    while i < items.len()
        invariant
            i <= items@.len(),
            all == trees(items@),
            forall|k: int| 0 <= k < i ==> !is_thread_entry(#[trigger] all[k]),
        decreases items@.len() - i,
    {
        let item = &items[i];
        assert(all[i as int] == item@);
        if item.get("threadId").is_some() || (item.get("name").is_some() && item.get(
            "createdAt",
        ).is_some()) {
            return true;
        }
        i += 1;
    }
    false
}

fn note_object(log: &mut SignalLog, display_name: &str, v: &Json)
    requires
        old(log).wf(),
    ensures
        final(log).wf(),
        final(log)@ == old(log)@ + object_findings(display_name@, v@),
{
    let ghost start = log@;
    if same(display_name, "ChatGPT") {
        if let Some(p) = v.get_in("value", "pages") {
            if let Some(pages) = p.as_array() {
                if pages.len() > 0 {
                    assert(trees(pages@)[0] == pages@[0]@);
                    if let Some(items) = pages[0].items_at("items") {
                        note_sidebar(log, items);
                    }
                }
            }
        }
        assert(log@ =~= start + sidebar_entries(first_page(v@)));
        if let Some(items) = v.items_at("items") {
            note_listed_conversations(log, items);
        }
    }
    if same(display_name, "NotebookLM") {
        if let Some(notebooks) = v.items_at("notebooks") {
            note_listed_notebooks(log, notebooks);
        }
    }
    assert(log@ =~= start + object_findings(display_name@, v@));
}

/// Notes what a JSON value, and all values in it, tell of a tool.
pub fn absorb_session_json(log: &mut SignalLog, display_name: &str, value: &Json)
    requires
        old(log).wf(),
    ensures
        final(log).wf(),
        final(log)@ == old(log)@ + json_findings(display_name@, value@),
    decreases value@,
{
    let ghost start = log@;
    match value {
        Json::Array(items) => {
            let ghost all = trees(items@);
            assert(value@->Array_0 =~= all);
            if same(display_name, "Perplexity") {
                if looks_like_thread_list(items) {
                    note_listed_threads(log, items);
                }
            }
            let ghost own = start + array_findings(display_name@, all);
            assert(log@ =~= own);
            let mut i: usize = 0;
            assert(own + item_findings(display_name@, all.take(0)) =~= own);
            while i < items.len()
                invariant
                    i <= items@.len(),
                    log.wf(),
                    all == trees(items@),
                    value@ == JsonTree::Array(all),
                    log@ == own + item_findings(display_name@, all.take(i as int)),
                decreases items@.len() - i,
            {
                proof {
                    assert(all.take(i + 1).drop_last() =~= all.take(i as int));
                    assert(all.take(i + 1).last() == items@[i as int]@);
                    assert(value@->Array_0[i as int] == items@[i as int]@);
                }
                absorb_session_json(log, display_name, &items[i]);
                i += 1;
                assert(log@ =~= own + item_findings(display_name@, all.take(i as int)));
            }
            assert(all.take(i as int) =~= all);
            assert(log@ =~= start + json_findings(display_name@, value@));
        },
        Json::Object(members) => {
            let ghost all = value@->Object_0;
            note_object(log, display_name, value);
            let ghost own = start + object_findings(display_name@, value@);
            let mut i: usize = 0;
            assert(own + member_findings(display_name@, all.take(0)) =~= own);
            while i < members.len()
                invariant
                    i <= members@.len(),
                    log.wf(),
                    *value == Json::Object(*members),
                    all == value@->Object_0,
                    value@ == JsonTree::Object(all),
                    all.len() == members@.len(),
                    log@ == own + member_findings(display_name@, all.take(i as int)),
                decreases members@.len() - i,
            {
                proof {
                    assert(all.take(i + 1).drop_last() =~= all.take(i as int));
                    assert(all[i as int].1 == members@[i as int].1@);
                    assert(all.take(i + 1).last() == all[i as int]);
                }
                absorb_session_json(log, display_name, &members[i].1);
                i += 1;
                assert(log@ =~= own + member_findings(display_name@, all.take(i as int)));
            }
            assert(all.take(i as int) =~= all);
            assert(log@ =~= start + json_findings(display_name@, value@));
        },
        _ => {
            assert(log@ =~= start + json_findings(display_name@, value@));
        },
    }
}

/// The UUID that stands at a place, as the only id.
pub open spec fn id_at(s: Seq<char>, i: int) -> Seq<Seq<char>> {
    if i + 36 <= s.len() && is_uuid(s.subrange(i, i + 36)) {
        seq![s.subrange(i, i + 36)]
    } else {
        Seq::empty()
    }
}

/// The ids after `"id":"` in a text from a place on, be the text JSON or not.
pub open spec fn ids_from(s: Seq<char>, from: int) -> Seq<Seq<char>>
    decreases s.len() - from,
{
    let mark = "\"id\":\""@;
    if from < 0 || from + mark.len() >= s.len() {
        Seq::empty()
    } else if stands_at(s, mark, from) {
        id_at(s, (from + mark.len()) as int) + ids_from(s, (from + mark.len() + 1) as int)
    } else {
        ids_from(s, from + 1)
    }
}

/// The id that some characters between quotes stand for: the same id as JSON reads out of them,
/// where they are escaped, so that it is known again.
pub open spec fn meant_id(raw: Seq<char>) -> Seq<char> {
    if raw.contains('\\') {
        match json_document("\""@ + raw + "\""@) {
            Some(JsonTree::Text(id)) => id,
            _ => raw,
        }
    } else {
        raw
    }
}

/// The id that stands at a place up to the end of the quoted value, as the only one, if it is not
/// empty.
pub open spec fn quoted_id_at(s: Seq<char>, i: int) -> Seq<Seq<char>> {
    match value_end(s, i, false) {
        Some(end) if i < end => seq![meant_id(s.subrange(i, end))],
        _ => Seq::empty(),
    }
}

/// The ids after `"threadId":"` in a text from a place on.
pub open spec fn thread_ids_from(s: Seq<char>, from: int) -> Seq<Seq<char>>
    decreases s.len() - from,
{
    let mark = "\"threadId\":\""@;
    if from < 0 || from + mark.len() >= s.len() {
        Seq::empty()
    } else if stands_at(s, mark, from) {
        quoted_id_at(s, (from + mark.len()) as int) + thread_ids_from(
            s,
            (from + mark.len() + 1) as int,
        )
    } else {
        thread_ids_from(s, from + 1)
    }
}

/// Where a quoted value ends, from a place on: at the first quote that no backslash escapes.
pub open spec fn value_end(s: Seq<char>, from: int, escaped: bool) -> Option<int>
    decreases s.len() - from,
{
    if from < 0 || from >= s.len() {
        None
    } else if escaped {
        value_end(s, from + 1, false)
    } else if s[from] == '\\' {
        value_end(s, from + 1, true)
    } else if s[from] == '"' {
        Some(from)
    } else {
        value_end(s, from + 1, false)
    }
}

/// A quoted value ends after the place where it starts.
pub proof fn lemma_value_end(s: Seq<char>, from: int, escaped: bool)
    requires
        0 <= from,
    ensures
        value_end(s, from, escaped) matches Some(i) ==> from <= i < s.len(),
    decreases s.len() - from,
{
    if from < s.len() {
        if escaped {
            lemma_value_end(s, from + 1, false);
        } else if s[from] == '\\' {
            lemma_value_end(s, from + 1, true);
        } else if s[from] != '"' {
            lemma_value_end(s, from + 1, false);
        }
    }
}

/// Whether a text holds a letter.
pub open spec fn has_letter(s: Seq<char>) -> bool {
    exists|i: int| 0 <= i < s.len() && is_letter(#[trigger] s[i])
}

/// A quoted value as the only one, if it is long enough and has a letter.
pub open spec fn if_telling(value: Seq<char>) -> Seq<Seq<char>> {
    if byte_len(value) > 12 && has_letter(value) {
        seq![value]
    } else {
        Seq::empty()
    }
}

/// What starts the value of a field: `"field":"`.
pub open spec fn field_mark(field: Seq<char>) -> Seq<char> {
    "\""@ + field + "\":\""@
}

/// The values after a mark in a text from a place on.
pub open spec fn values_from(s: Seq<char>, mark: Seq<char>, from: int) -> Seq<Seq<char>>
    decreases s.len() - from,
    via values_from_decreases
{
    if from < 0 || from + mark.len() >= s.len() {
        Seq::empty()
    } else if stands_at(s, mark, from) {
        let start = (from + mark.len()) as int;
        match value_end(s, start, false) {
            Some(end) => if_telling(s.subrange(start, end)) + values_from(s, mark, end + 1),
            None => values_from(s, mark, start + 1),
        }
    } else {
        values_from(s, mark, from + 1)
    }
}

#[via_fn]
proof fn values_from_decreases(s: Seq<char>, mark: Seq<char>, from: int) {
    if 0 <= from && from + mark.len() < s.len() {
        lemma_value_end(s, (from + mark.len()) as int, false);
    }
}

/// Each text as a conversation.
pub open spec fn as_conversations(ids: Seq<Seq<char>>) -> Seq<Finding> {
    ids.map_values(|id: Seq<char>| Finding::Conversation(id))
}

/// Each text as a notebook.
pub open spec fn as_notebooks(ids: Seq<Seq<char>>) -> Seq<Finding> {
    ids.map_values(|id: Seq<char>| Finding::Notebook(id))
}

/// Each text as a thread.
pub open spec fn as_threads(ids: Seq<Seq<char>>) -> Seq<Finding> {
    ids.map_values(|id: Seq<char>| Finding::Thread(id))
}

/// Each text as a title or a snippet.
pub open spec fn as_texts(values: Seq<Seq<char>>) -> Seq<Finding> {
    values.map_values(|t: Seq<char>| Finding::Text(t))
}

/// The values of a field in a text.
pub open spec fn field_findings(s: Seq<char>, field: Seq<char>) -> Seq<Finding> {
    as_texts(values_from(s, field_mark(field), 0))
}

/// What the fragments of a text tell of a tool, where they are JSON.
pub open spec fn fragment_findings(name: Seq<char>, parts: Seq<Seq<char>>) -> Seq<Finding>
    decreases parts.len(),
{
    if parts.len() == 0 {
        Seq::empty()
    } else {
        fragment_findings(name, parts.drop_last()) + match json_document(parts.last()) {
            Some(v) => json_findings(name, v),
            None => Seq::empty(),
        }
    }
}

/// The ids that stand in a text outside of any JSON that can be read.
pub open spec fn id_findings(name: Seq<char>, s: Seq<char>) -> Seq<Finding> {
    if name == "ChatGPT"@ {
        as_conversations(ids_from(s, 0))
    } else if name == "Perplexity"@ {
        as_threads(thread_ids_from(s, 0))
    } else if name == "NotebookLM"@ && (has_part(s, "notebook"@) || has_part(s, "NotebookLM"@)) {
        as_notebooks(ids_from(s, 0))
    } else {
        Seq::empty()
    }
}

/// What a stored text tells of a tool.
pub open spec fn text_findings(name: Seq<char>, s: Seq<char>) -> Seq<Finding> {
    fragment_findings(name, fragments(s, true, 30)) + id_findings(name, s) + field_findings(
        s,
        "snippet"@,
    ) + field_findings(s, "content"@) + field_findings(s, "text"@) + field_findings(s, "message"@)
        + field_findings(s, "body"@) + field_findings(s, "title"@)
}

/// What some stored texts tell of a tool. Where `all` is not set, only those count that name it.
pub open spec fn texts_findings(name: Seq<char>, list: Seq<Seq<char>>, all: bool) -> Seq<Finding>
    decreases list.len(),
{
    if list.len() == 0 {
        Seq::empty()
    } else {
        texts_findings(name, list.drop_last(), all) + if all || names_tool(list.last(), name) {
            text_findings(name, list.last())
        } else {
            Seq::empty()
        }
    }
}

/// What an entry of a store tells of a tool: all of it if its key names the tool, else those of
/// its texts that do.
pub open spec fn entry_findings(name: Seq<char>, key: Seq<u8>, value: Seq<u8>) -> Seq<Finding> {
    texts_findings(name, candidates(value), names_tool(utf8_lossy(key), name))
}

/// Whether a file of a store holds records.
pub open spec fn holds_records(file_name: Seq<char>) -> bool {
    ".ldb"@.is_suffix_of(file_name) || ".log"@.is_suffix_of(file_name)
}

/// What a file of a store tells of a tool, if it names it at all.
pub open spec fn file_findings(name: Seq<char>, file_name: Seq<char>, bytes: Seq<u8>) -> Seq<
    Finding,
> {
    if holds_records(file_name) && names_tool(utf8_lossy(bytes), name) {
        texts_findings(name, candidates(bytes), true)
    } else {
        Seq::empty()
    }
}

/// What some entries of a store tell of a tool.
pub open spec fn entries_findings(name: Seq<char>, entries: Seq<(Vec<u8>, Vec<u8>)>) -> Seq<
    Finding,
>
    decreases entries.len(),
{
    if entries.len() == 0 {
        Seq::empty()
    } else {
        entries_findings(name, entries.drop_last()) + entry_findings(
            name,
            entries.last().0@,
            entries.last().1@,
        )
    }
}

/// What some files of a store tell of a tool.
pub open spec fn files_findings(name: Seq<char>, files: Seq<(String, Vec<u8>)>) -> Seq<Finding>
    decreases files.len(),
{
    if files.len() == 0 {
        Seq::empty()
    } else {
        files_findings(name, files.drop_last()) + file_findings(
            name,
            files.last().0@,
            files.last().1@,
        )
    }
}

/// What some stores tell of a tool: of each its entries, then its files, in which records stand
/// that the entries do not give out.
pub open spec fn store_findings(name: Seq<char>, stores: Seq<StorageDump>) -> Seq<Finding>
    decreases stores.len(),
{
    if stores.len() == 0 {
        Seq::empty()
    } else {
        store_findings(name, stores.drop_last()) + entries_findings(
            name,
            stores.last().entries@,
        ) + files_findings(name, stores.last().files@)
    }
}

/// What local storage tells of a tool; nothing of one whose origins are not known.
pub open spec fn tool_findings(name: Seq<char>, stores: Seq<StorageDump>) -> Seq<Finding> {
    if ls_origins(name).len() == 0 {
        Seq::empty()
    } else {
        store_findings(name, stores)
    }
}

/// The ids after `"id":"` in a text, be the text JSON or not.
pub fn extract_ids(text: &str) -> (r: Vec<String>)
    ensures
        texts(r@) == ids_from(text@, 0),
{
    let chars = chars_of(text);
    let mark = chars_of("\"id\":\"");
    let m: usize = mark.len();
    let n: usize = chars.len();
    let mut r: Vec<String> = Vec::new();
    let mut i: usize = 0;
    assert(texts(r@) + ids_from(text@, 0) =~= ids_from(text@, 0));
    while i < n && m < n - i
        invariant
            i <= n,
            n == chars@.len(),
            m == mark@.len(),
            chars@ == text@,
            mark@ == "\"id\":\""@,
            texts(r@) + ids_from(text@, i as int) == ids_from(text@, 0),
        decreases n - i,
    {
        if part_at(chars.as_slice(), mark.as_slice(), i) {
            let start: usize = i + m;
            let ghost before = texts(r@);
            let ghost rest = ids_from(text@, start + 1);
            if n - start >= 36 {
                if uuid_at(chars.as_slice(), start) {
                    r.push(slice_of(chars.as_slice(), start, start + 36));
                }
            }
            proof {
                assert(texts(r@) =~= before + id_at(text@, start as int));
                assert(texts(r@) + rest =~= before + (id_at(text@, start as int) + rest));
            }
            i = start + 1;
        } else {
            i += 1;
        }
    }
    assert(texts(r@) =~= ids_from(text@, 0));
    r
}

/// The id that some characters between quotes stand for.
fn read_id(raw: String) -> (r: String)
    ensures
        r@ == meant_id(raw@),
{
    let chars = chars_of(raw.as_str());
    let mut i: usize = 0;
    while i < chars.len() && chars[i] != '\\'
        invariant
            i <= chars@.len(),
            chars@ == raw@,
            forall|k: int| 0 <= k < i ==> #[trigger] chars@[k] != '\\',
        decreases chars@.len() - i,
    {
        i += 1;
    }
    if i < chars.len() {
        assert(raw@[i as int] == '\\');
        let mut quoted = "\"".to_string();
        quoted.append(raw.as_str());
        quoted.append("\"");
        if let Some(Json::Text(id)) = parse_json(quoted.as_str()) {
            return id;
        }
    }
    raw
}

/// The ids after `"threadId":"` in a text.
pub fn extract_thread_ids(text: &str) -> (r: Vec<String>)
    ensures
        texts(r@) == thread_ids_from(text@, 0),
{
    let chars = chars_of(text);
    let mark = chars_of("\"threadId\":\"");
    let m: usize = mark.len();
    let n: usize = chars.len();
    let mut r: Vec<String> = Vec::new();
    let mut i: usize = 0;
    assert(texts(r@) + thread_ids_from(text@, 0) =~= thread_ids_from(text@, 0));
    while i < n && m < n - i
        invariant
            i <= n,
            n == chars@.len(),
            m == mark@.len(),
            chars@ == text@,
            mark@ == "\"threadId\":\""@,
            texts(r@) + thread_ids_from(text@, i as int) == thread_ids_from(text@, 0),
        decreases n - i,
    {
        if part_at(chars.as_slice(), mark.as_slice(), i) {
            let start: usize = i + m;
            let ghost before = texts(r@);
            let ghost rest = thread_ids_from(text@, start + 1);
            if let Some(end) = value_end_from(chars.as_slice(), start) {
                if start < end {
                    r.push(read_id(slice_of(chars.as_slice(), start, end)));
                }
            }
            proof {
                assert(texts(r@) =~= before + quoted_id_at(text@, start as int));
                assert(texts(r@) + rest =~= before + (quoted_id_at(text@, start as int) + rest));
            }
            i = start + 1;
        } else {
            i += 1;
        }
    }
    assert(texts(r@) =~= thread_ids_from(text@, 0));
    r
}

fn value_end_from(chars: &[char], from: usize) -> (r: Option<usize>)
    requires
        from <= chars@.len(),
    ensures
        match r {
            Some(i) => value_end(chars@, from as int, false) == Some(i as int) && from <= i
                < chars@.len(),
            None => value_end(chars@, from as int, false) is None,
        },
{
    let mut escaped = false;
    let mut i: usize = from;
    while i < chars.len()
        invariant
            from <= i <= chars@.len(),
            value_end(chars@, from as int, false) == value_end(chars@, i as int, escaped),
        decreases chars@.len() - i,
    {
        if escaped {
            escaped = false;
        } else if chars[i] == '\\' {
            escaped = true;
        } else if chars[i] == '"' {
            return Some(i);
        }
        i += 1;
    }
    None
}

fn any_letter(chars: &[char], from: usize, to: usize) -> (r: bool)
    requires
        from <= to <= chars@.len(),
    ensures
        r == has_letter(chars@.subrange(from as int, to as int)),
{
    let ghost s = chars@.subrange(from as int, to as int);
    let mut i: usize = from;
    while i < to
        invariant
            from <= i <= to <= chars@.len(),
            s == chars@.subrange(from as int, to as int),
            forall|k: int| 0 <= k < i - from ==> !is_letter(#[trigger] s[k]),
        decreases to - i,
    {
        let c = chars[i];
        assert(s[i - from] == c);
        if c.is_alphabetic() {
            return true;
        }
        i += 1;
    }
    false
}

/// The values of a field in a text, be the text JSON or not.
pub fn extract_quoted_field_values(text: &str, field: &str) -> (r: Vec<String>)
    ensures
        texts(r@) == values_from(text@, field_mark(field@), 0),
{
    let chars = chars_of(text);
    let mut mark_text = "\"".to_string();
    mark_text.append(field);
    mark_text.append("\":\"");
    let mark = chars_of(mark_text.as_str());
    let ghost marked = field_mark(field@);
    let m: usize = mark.len();
    let n: usize = chars.len();
    let mut r: Vec<String> = Vec::new();
    let mut i: usize = 0;
    assert(texts(r@) + values_from(text@, marked, 0) =~= values_from(text@, marked, 0));
    while i < n && m < n - i
        invariant
            i <= n,
            n == chars@.len(),
            m == mark@.len(),
            chars@ == text@,
            mark@ == marked,
            texts(r@) + values_from(text@, marked, i as int) == values_from(text@, marked, 0),
        decreases n - i,
    {
        if part_at(chars.as_slice(), mark.as_slice(), i) {
            let start: usize = i + m;
            match value_end_from(chars.as_slice(), start) {
                Some(end) => {
                    let ghost before = texts(r@);
                    let ghost rest = values_from(text@, marked, end + 1);
                    let value = slice_of(chars.as_slice(), start, end);
                    let ghost v = value@;
                    if byte_length(value.as_str()) > 12 {
                        if any_letter(chars.as_slice(), start, end) {
                            r.push(value);
                        }
                    }
                    proof {
                        assert(texts(r@) =~= before + if_telling(v));
                        assert(texts(r@) + rest =~= before + (if_telling(v) + rest));
                    }
                    i = end + 1;
                },
                None => {
                    i = start + 1;
                },
            }
        } else {
            i += 1;
        }
    }
    assert(texts(r@) =~= values_from(text@, marked, 0));
    r
}

fn note_conversations(log: &mut SignalLog, ids: &Vec<String>)
    requires
        old(log).wf(),
    ensures
        final(log).wf(),
        final(log)@ == old(log)@ + as_conversations(texts(ids@)),
{
    let ghost start = log@;
    let ghost all = as_conversations(texts(ids@));
    let mut i: usize = 0;
    assert(start + all.take(0) =~= start);
    while i < ids.len()
        invariant
            i <= ids@.len(),
            log.wf(),
            all == as_conversations(texts(ids@)),
            log@ == start + all.take(i as int),
        decreases ids@.len() - i,
    {
        log.note_conversation(ids[i].as_str());
        i += 1;
        assert(log@ =~= start + all.take(i as int));
    }
    assert(all.take(i as int) =~= all);
}

fn note_notebooks(log: &mut SignalLog, ids: &Vec<String>)
    requires
        old(log).wf(),
    ensures
        final(log).wf(),
        final(log)@ == old(log)@ + as_notebooks(texts(ids@)),
{
    let ghost start = log@;
    let ghost all = as_notebooks(texts(ids@));
    let mut i: usize = 0;
    assert(start + all.take(0) =~= start);
    while i < ids.len()
        invariant
            i <= ids@.len(),
            log.wf(),
            all == as_notebooks(texts(ids@)),
            log@ == start + all.take(i as int),
        decreases ids@.len() - i,
    {
        log.note_notebook(ids[i].as_str());
        i += 1;
        assert(log@ =~= start + all.take(i as int));
    }
    assert(all.take(i as int) =~= all);
}

fn note_threads(log: &mut SignalLog, ids: &Vec<String>)
    requires
        old(log).wf(),
    ensures
        final(log).wf(),
        final(log)@ == old(log)@ + as_threads(texts(ids@)),
{
    let ghost start = log@;
    let ghost all = as_threads(texts(ids@));
    let mut i: usize = 0;
    assert(start + all.take(0) =~= start);
    while i < ids.len()
        invariant
            i <= ids@.len(),
            log.wf(),
            all == as_threads(texts(ids@)),
            log@ == start + all.take(i as int),
        decreases ids@.len() - i,
    {
        log.note_thread(ids[i].as_str());
        i += 1;
        assert(log@ =~= start + all.take(i as int));
    }
    assert(all.take(i as int) =~= all);
}

fn note_field(log: &mut SignalLog, text: &str, field: &str)
    requires
        old(log).wf(),
    ensures
        final(log).wf(),
        final(log)@ == old(log)@ + field_findings(text@, field@),
{
    let values = extract_quoted_field_values(text, field);
    let ghost start = log@;
    let ghost all = field_findings(text@, field@);
    let mut i: usize = 0;
    assert(start + all.take(0) =~= start);
    while i < values.len()
        invariant
            i <= values@.len(),
            log.wf(),
            all == as_texts(texts(values@)),
            log@ == start + all.take(i as int),
        decreases values@.len() - i,
    {
        log.note_text(values[i].as_str());
        i += 1;
        assert(log@ =~= start + all.take(i as int));
    }
    assert(all.take(i as int) =~= all);
}

/// Notes the conversations whose ids stand in a text, be the text JSON or not.
pub fn extract_chatgpt_ids_from_text(text: &str, log: &mut SignalLog)
    requires
        old(log).wf(),
    ensures
        final(log).wf(),
        final(log)@ == old(log)@ + as_conversations(ids_from(text@, 0)),
{
    let ids = extract_ids(text);
    note_conversations(log, &ids);
}

/// Notes the threads whose ids stand in a text, be the text JSON or not.
pub fn extract_thread_ids_from_text(text: &str, log: &mut SignalLog)
    requires
        old(log).wf(),
    ensures
        final(log).wf(),
        final(log)@ == old(log)@ + as_threads(thread_ids_from(text@, 0)),
{
    let ids = extract_thread_ids(text);
    note_threads(log, &ids);
}

/// Notes the notebooks whose ids stand in a text that speaks of notebooks.
pub fn extract_notebook_ids_from_text(text: &str, log: &mut SignalLog)
    requires
        old(log).wf(),
    ensures
        final(log).wf(),
        final(log)@ == old(log)@ + if has_part(text@, "notebook"@) || has_part(
            text@,
            "NotebookLM"@,
        ) {
            as_notebooks(ids_from(text@, 0))
        } else {
            Seq::empty()
        },
{
    if !contains(text, "notebook") && !contains(text, "NotebookLM") {
        assert(log@ + Seq::<Finding>::empty() =~= log@);
        return;
    }
    let ids = extract_ids(text);
    note_notebooks(log, &ids);
}

fn note_fragments(log: &mut SignalLog, display_name: &str, parts: &Vec<String>)
    requires
        old(log).wf(),
    ensures
        final(log).wf(),
        final(log)@ == old(log)@ + fragment_findings(display_name@, texts(parts@)),
{
    let ghost start = log@;
    let ghost all = texts(parts@);
    let mut i: usize = 0;
    assert(start + fragment_findings(display_name@, all.take(0)) =~= start);
    while i < parts.len()
        invariant
            i <= parts@.len(),
            log.wf(),
            all == texts(parts@),
            log@ == start + fragment_findings(display_name@, all.take(i as int)),
        decreases parts@.len() - i,
    {
        proof {
            assert(all.take(i + 1).drop_last() =~= all.take(i as int));
            assert(all.take(i + 1).last() == parts@[i as int]@);
        }
        if let Some(v) = parse_json(parts[i].as_str()) {
            absorb_session_json(log, display_name, &v);
        }
        i += 1;
        assert(log@ =~= start + fragment_findings(display_name@, all.take(i as int)));
    }
    assert(all.take(i as int) =~= all);
}

/// Notes what a stored text tells of a tool.
pub fn absorb_session_json_text(log: &mut SignalLog, display_name: &str, text: &str)
    requires
        old(log).wf(),
    ensures
        final(log).wf(),
        final(log)@ == old(log)@ + text_findings(display_name@, text@),
{
    let ghost start = log@;
    let parts = find_fragments(text, true, 30);
    note_fragments(log, display_name, &parts);
    let ghost read = log@;
    if same(display_name, "ChatGPT") {
        extract_chatgpt_ids_from_text(text, log);
    } else if same(display_name, "Perplexity") {
        extract_thread_ids_from_text(text, log);
    } else if same(display_name, "NotebookLM") {
        extract_notebook_ids_from_text(text, log);
    } else {
        assert(read + Seq::<Finding>::empty() =~= read);
    }
    assert(log@ == read + id_findings(display_name@, text@));
    note_field(log, text, "snippet");
    note_field(log, text, "content");
    note_field(log, text, "text");
    note_field(log, text, "message");
    note_field(log, text, "body");
    note_field(log, text, "title");
    assert(log@ =~= start + text_findings(display_name@, text@));
}

/// Whether a text names a tool or one of the keys under which it lists its sessions.
pub fn text_matches_domain(text: &str, display_name: &str) -> (r: bool)
    ensures
        r == names_tool(text@, display_name@),
{
    let origins = ls_origin_needles(display_name);
    let keys = ls_cache_key_needles(display_name);
    contains_any(text, &origins) || contains_any(text, &keys)
}

fn note_texts(log: &mut SignalLog, display_name: &str, list: &Vec<String>, every: bool)
    requires
        old(log).wf(),
    ensures
        final(log).wf(),
        final(log)@ == old(log)@ + texts_findings(display_name@, texts(list@), every),
{
    let ghost start = log@;
    let ghost all = texts(list@);
    let mut i: usize = 0;
    assert(start + texts_findings(display_name@, all.take(0), every) =~= start);
    while i < list.len()
        invariant
            i <= list@.len(),
            log.wf(),
            all == texts(list@),
            log@ == start + texts_findings(display_name@, all.take(i as int), every),
        decreases list@.len() - i,
    {
        proof {
            assert(all.take(i + 1).drop_last() =~= all.take(i as int));
            assert(all.take(i + 1).last() == list@[i as int]@);
        }
        if every || text_matches_domain(list[i].as_str(), display_name) {
            absorb_session_json_text(log, display_name, list[i].as_str());
        }
        i += 1;
        assert(log@ =~= start + texts_findings(display_name@, all.take(i as int), every));
    }
    assert(all.take(i as int) =~= all);
}

fn note_entries(log: &mut SignalLog, display_name: &str, entries: &Vec<(Vec<u8>, Vec<u8>)>)
    requires
        old(log).wf(),
    ensures
        final(log).wf(),
        final(log)@ == old(log)@ + entries_findings(display_name@, entries@),
{
    let ghost start = log@;
    let mut i: usize = 0;
    assert(start + entries_findings(display_name@, entries@.take(0)) =~= start);
    while i < entries.len()
        invariant
            i <= entries@.len(),
            log.wf(),
            log@ == start + entries_findings(display_name@, entries@.take(i as int)),
        decreases entries@.len() - i,
    {
        proof {
            assert(entries@.take(i + 1).drop_last() =~= entries@.take(i as int));
        }
        let key = lossy_text(entries[i].0.as_slice());
        let key_hit = text_matches_domain(key.as_str(), display_name);
        let list = decode_ls_text_candidates(entries[i].1.as_slice());
        note_texts(log, display_name, &list, key_hit);
        i += 1;
        assert(log@ =~= start + entries_findings(display_name@, entries@.take(i as int)));
    }
    assert(entries@.take(i as int) =~= entries@);
}

/// Notes what the files of a store tell of a tool. Records that the origin splits in two are in
/// the files only.
pub fn scan_ldb_files(log: &mut SignalLog, display_name: &str, files: &Vec<(String, Vec<u8>)>)
    requires
        old(log).wf(),
    ensures
        final(log).wf(),
        final(log)@ == old(log)@ + files_findings(display_name@, files@),
{
    let ghost start = log@;
    let mut i: usize = 0;
    assert(start + files_findings(display_name@, files@.take(0)) =~= start);
    while i < files.len()
        invariant
            i <= files@.len(),
            log.wf(),
            log@ == start + files_findings(display_name@, files@.take(i as int)),
        decreases files@.len() - i,
    {
        proof {
            assert(files@.take(i + 1).drop_last() =~= files@.take(i as int));
        }
        let name = files[i].0.as_str();
        if ends_with(name, ".ldb") || ends_with(name, ".log") {
            let raw = lossy_text(files[i].1.as_slice());
            if text_matches_domain(raw.as_str(), display_name) {
                let list = decode_ls_text_candidates(files[i].1.as_slice());
                note_texts(log, display_name, &list, true);
            }
        }
        i += 1;
        assert(log@ =~= start + files_findings(display_name@, files@.take(i as int)));
    }
    assert(files@.take(i as int) =~= files@);
}

/// What the stores of all profiles tell of a tool. A session that has an id counts once, however
/// often and in whatever profile it comes up.
pub fn collect_session_signals(display_name: &str, stores: &Vec<StorageDump>) -> (r:
    LocalSessionSignals)
    ensures
        signals_of(r, tool_findings(display_name@, stores@)),
{
    let mut log = SignalLog::new();
    let origins = ls_origin_needles(display_name);
    if origins.len() == 0 {
        return log.into_signals();
    }
    let mut i: usize = 0;
    while i < stores.len()
        invariant
            i <= stores@.len(),
            log.wf(),
            log@ == store_findings(display_name@, stores@.take(i as int)),
        decreases stores@.len() - i,
    {
        proof {
            assert(stores@.take(i + 1).drop_last() =~= stores@.take(i as int));
        }
        note_entries(&mut log, display_name, &stores[i].entries);
        scan_ldb_files(&mut log, display_name, &stores[i].files);
        i += 1;
    }
    assert(stores@.take(i as int) =~= stores@);
    log.into_signals()
}

/// A session that comes up again, in whatever text or profile, changes nothing that is reported.
pub proof fn law_sessions_count_once(
    findings: Seq<Finding>,
    again: Finding,
    before: LocalSessionSignals,
    after: LocalSessionSignals,
)
    requires
        findings.contains(again),
        again is Conversation || again is Thread || again is Notebook,
        signals_of(before, findings),
        signals_of(after, findings.push(again)),
    ensures
        after.conversations == before.conversations,
        after.threads == before.threads,
        after.notebooks == before.notebooks,
        texts(after.transcript_texts@) == texts(before.transcript_texts@),
{
    assert(findings.push(again).drop_last() =~= findings);
    lemma_sets_hold(findings, again);
    match again {
        Finding::Conversation(id) => {
            assert(conversation_set(findings).insert(id) =~= conversation_set(findings));
        },
        Finding::Thread(id) => {
            assert(thread_set(findings).insert(id) =~= thread_set(findings));
        },
        Finding::Notebook(id) => {
            assert(notebook_set(findings).insert(id) =~= notebook_set(findings));
        },
        _ => {},
    }
}

/// Whether in every list of threads among some findings each item has an id.
pub open spec fn all_named(findings: Seq<Finding>) -> bool {
    forall|i: int|
        0 <= i < findings.len() ==> (#[trigger] findings[i] matches Finding::ThreadList {
            unnamed,
            ..
        } ==> unnamed == 0)
}

/// Where all items of lists have ids, as many threads are reported as there are distinct ids in all
/// stores, however often an id comes up, in one text or in several.
pub proof fn law_threads_are_distinct(
    display_name: Seq<char>,
    stores: Seq<StorageDump>,
    signals: LocalSessionSignals,
)
    requires
        all_named(tool_findings(display_name, stores)),
        signals_of(signals, tool_findings(display_name, stores)),
    ensures
        signals.threads == thread_set(tool_findings(display_name, stores)).len(),
{
    lemma_lists_within(tool_findings(display_name, stores));
}

/// A list whose items all have ids has no more distinct ones than there are in all.
proof fn lemma_lists_within(findings: Seq<Finding>)
    requires
        all_named(findings),
    ensures
        thread_set(findings).finite(),
        longest_list(findings) <= thread_set(findings).len(),
    decreases findings.len(),
{
    if findings.len() > 0 {
        let before = findings.drop_last();
        assert forall|i: int| 0 <= i < before.len() implies (#[trigger] before[i] matches
            Finding::ThreadList { unnamed, .. } ==> unnamed == 0) by {
            assert(findings[i] == before[i]);
        }
        lemma_lists_within(before);
        assert(findings[findings.len() - 1] == findings.last());
        match findings.last() {
            Finding::ThreadList { ids, unnamed } => {
                vstd::seq_lib::seq_to_set_is_finite(ids);
                let both = thread_set(before).union(ids.to_set());
                vstd::set_lib::lemma_len_subset(ids.to_set(), both);
                vstd::set_lib::lemma_len_subset(thread_set(before), both);
            },
            Finding::Thread(id) => {
                vstd::set_lib::lemma_len_subset(thread_set(before), thread_set(before).insert(id));
            },
            _ => {},
        }
    }
}

proof fn lemma_sets_hold(findings: Seq<Finding>, known: Finding)
    requires
        findings.contains(known),
    ensures
        match known {
            Finding::Conversation(id) => conversation_set(findings).contains(id),
            Finding::Thread(id) => thread_set(findings).contains(id),
            Finding::Notebook(id) => notebook_set(findings).contains(id),
            _ => true,
        },
    decreases findings.len(),
{
    let i = findings.index_of(known);
    let before = findings.drop_last();
    if i < before.len() {
        assert(before[i] == known);
        lemma_sets_hold(before, known);
    }
}

/// What was found is counted, and nothing else: a conversation or a notebook is among the distinct ones
/// exactly if it was found, a thread exactly if it was found by itself or in a list, and a text exactly
/// if it was found, once.
pub proof fn law_findings_are_counted(findings: Seq<Finding>, id: Seq<char>)
    ensures
        conversation_set(findings).contains(id) <==> findings.contains(Finding::Conversation(id)),
        notebook_set(findings).contains(id) <==> findings.contains(Finding::Notebook(id)),
        thread_set(findings).contains(id) <==> exists|i: int|
            0 <= i < findings.len() && (#[trigger] findings[i] == Finding::Thread(id) || (
            findings[i] is ThreadList && findings[i]->ids.contains(id))),
        found_texts(findings).contains(id) <==> findings.contains(Finding::Text(id)),
        found_texts(findings).no_duplicates(),
    decreases findings.len(),
{
    if findings.len() > 0 {
        let before = findings.drop_last();
        let last = findings.len() - 1;
        let f = findings.last();
        law_findings_are_counted(before, id);
        assert(findings[last] == f);
        lemma_found_before(findings, Finding::Conversation(id));
        lemma_found_before(findings, Finding::Notebook(id));
        lemma_found_before(findings, Finding::Text(id));
        let told = |x: Finding|
            x == Finding::Thread(id) || (x is ThreadList && x->ids.contains(id));
        if exists|i: int|
            0 <= i < before.len() && (#[trigger] before[i] == Finding::Thread(id) || (
            before[i] is ThreadList && before[i]->ids.contains(id))) {
            let i = choose|i: int|
                0 <= i < before.len() && (#[trigger] before[i] == Finding::Thread(id) || (
                before[i] is ThreadList && before[i]->ids.contains(id)));
            assert(told(findings[i]));
        }
        if exists|i: int|
            0 <= i < findings.len() && (#[trigger] findings[i] == Finding::Thread(id) || (
            findings[i] is ThreadList && findings[i]->ids.contains(id))) {
            let i = choose|i: int|
                0 <= i < findings.len() && (#[trigger] findings[i] == Finding::Thread(id) || (
                findings[i] is ThreadList && findings[i]->ids.contains(id)));
            if i < last {
                assert(told(before[i]));
            }
        }
        if let Finding::Text(t) = f {
            let known = found_texts(before);
            crate::harvest::law_merged_holds_all(known, seq![t], id);
            crate::harvest::law_merged_has_no_repeats(known, seq![t]);
            assert(seq![t].contains(id) <==> t == id) by {
                assert(seq![t][0] == t);
            }
        }
    }
}

proof fn lemma_found_before(findings: Seq<Finding>, f: Finding)
    requires
        findings.len() > 0,
    ensures
        findings.contains(f) <==> findings.drop_last().contains(f) || findings.last() == f,
{
    let before = findings.drop_last();
    if before.contains(f) {
        assert(findings[before.index_of(f)] == f);
    }
    if findings.contains(f) {
        let i = findings.index_of(f);
        if i < before.len() {
            assert(before[i] == f);
        }
    }
    if findings.last() == f {
        assert(findings[findings.len() - 1] == f);
    }
}

/// A list of threads counts by its distinct ids and the items without one, and the largest list decides.
pub proof fn law_largest_list_decides(findings: Seq<Finding>, f: Finding)
    ensures
        ({
            let before = longest_list(findings);
            let after = longest_list(findings.push(f));
            &&& f matches Finding::ThreadList { ids, unnamed } ==> after == if ids.to_set().len()
                + unnamed > before {
                ids.to_set().len() + unnamed
            } else {
                before
            }
            &&& !(f is ThreadList) ==> after == before
        }),
        longest_list(Seq::empty()) == 0,
{
    assert(findings.push(f).drop_last() =~= findings);
}

/// A record belongs to a tool if it names one of its addresses or one of the keys of its lists.
pub proof fn law_tools_are_told_by_their_marks(text: Seq<char>)
    ensures
        has_part(text, "chatgpt.com"@) || has_part(text, "chat.openai.com"@) || has_part(
            text,
            "conversation-history"@,
        ) || has_part(text, "starred-conversations"@) || has_part(text, "client-bootstrap"@)
            ==> names_tool(text, "ChatGPT"@),
        has_part(text, "perplexity.ai"@) || has_part(text, "threads-v2"@) || has_part(
            text,
            "threadId"@,
        ) || has_part(text, "pplx"@) ==> names_tool(text, "Perplexity"@),
        has_part(text, "notebooklm.google.com"@) || has_part(text, "$notebooklm"@) || has_part(
            text,
            "notebooklm"@,
        ) || has_part(text, "notebooks"@) ==> names_tool(text, "NotebookLM"@),
        has_part(text, "gemini.google.com"@) || has_part(text, "bard.google.com"@) || has_part(
            text,
            "gemini.google"@,
        ) || has_part(text, "bard.google"@) ==> names_tool(text, "Gemini"@),
{
    reveal_strlit("ChatGPT");
    reveal_strlit("Gemini");
    reveal_strlit("Perplexity");
    reveal_strlit("NotebookLM");
    assert("ChatGPT"@[0] == 'C' && "Gemini"@[0] == 'G');
    assert("Perplexity"@[0] == 'P' && "NotebookLM"@[0] == 'N');
    let a = ls_origins("ChatGPT"@);
    let b = ls_cache_keys("ChatGPT"@);
    assert(a[0] == "chatgpt.com"@ && a[1] == "chat.openai.com"@);
    assert(b[0] == "conversation-history"@ && b[1] == "starred-conversations"@ && b[2]
        == "client-bootstrap"@);
    let c = ls_origins("Perplexity"@);
    let d = ls_cache_keys("Perplexity"@);
    assert(c[0] == "perplexity.ai"@);
    assert(d[0] == "threads-v2"@ && d[1] == "threadId"@ && d[2] == "pplx"@);
    let e = ls_origins("NotebookLM"@);
    let f = ls_cache_keys("NotebookLM"@);
    assert(e[0] == "notebooklm.google.com"@ && e[1] == "$notebooklm"@);
    assert(f[0] == "notebooklm"@ && f[1] == "notebooks"@);
    let g = ls_origins("Gemini"@);
    let h = ls_cache_keys("Gemini"@);
    assert(g[0] == "gemini.google.com"@ && g[1] == "bard.google.com"@);
    assert(h[0] == "gemini.google"@ && h[1] == "bard.google"@);
}

/// Control codes are the characters below the space and from 127 to 159. All of them but the tab, the
/// line feed and the carriage return are shown as a space, and any other character as it is.
pub proof fn law_control_codes_by_number(c: char)
    ensures
        ({
            let n = c as u32;
            let control = n < 32 || 127 <= n <= 159;
            &&& control && n != 9 && n != 10 && n != 13 ==> printable(c) == ' '
            &&& !control || n == 9 || n == 10 || n == 13 ==> printable(c) == c
        }),
{
}

/// Local storage tells of four tools, from every store, and of no other.
pub proof fn law_four_tools_are_looked_for(name: Seq<char>, stores: Seq<StorageDump>)
    ensures
        name == "ChatGPT"@ || name == "Gemini"@ || name == "Perplexity"@ || name == "NotebookLM"@
            ==> tool_findings(name, stores) == store_findings(name, stores),
        name != "ChatGPT"@ && name != "Gemini"@ && name != "Perplexity"@ && name != "NotebookLM"@
            ==> tool_findings(name, stores).len() == 0,
{
}

/// Signals count what was found: distinct conversations and notebooks, and threads at least as many as
/// have distinct ids.
pub proof fn law_signals_count_distinct_sessions(
    signals: LocalSessionSignals,
    findings: Seq<Finding>,
)
    requires
        signals_of(signals, findings),
    ensures
        signals.conversations == Set::new(
            |id: Seq<char>| findings.contains(Finding::Conversation(id)),
        ).len(),
        signals.notebooks == Set::new(
            |id: Seq<char>| findings.contains(Finding::Notebook(id)),
        ).len(),
        signals.threads >= thread_set(findings).len(),
        signals.threads >= longest_list(findings),
        signals.threads == thread_set(findings).len() || signals.threads == longest_list(findings),
        texts(signals.transcript_texts@) == found_texts(findings),
{
    assert forall|id: Seq<char>| #[trigger]
        conversation_set(findings).contains(id) <==> findings.contains(
            Finding::Conversation(id),
        ) by {
        law_findings_are_counted(findings, id);
    }
    assert forall|id: Seq<char>| #[trigger]
        notebook_set(findings).contains(id) <==> findings.contains(Finding::Notebook(id)) by {
        law_findings_are_counted(findings, id);
    }
    assert(conversation_set(findings) =~= Set::new(
        |id: Seq<char>| findings.contains(Finding::Conversation(id)),
    ));
    assert(notebook_set(findings) =~= Set::new(
        |id: Seq<char>| findings.contains(Finding::Notebook(id)),
    ));
}

/// Stores are read one after the other, each with all its entries and then with all its files. The
/// texts of an entry count if its key names the tool, or else if they do themselves; a file counts if
/// it holds records and names the tool.
pub proof fn law_everything_stored_is_read(
    name: Seq<char>,
    stores: Seq<StorageDump>,
    store: StorageDump,
    entries: Seq<(Vec<u8>, Vec<u8>)>,
    entry: (Vec<u8>, Vec<u8>),
    files: Seq<(String, Vec<u8>)>,
    file: (String, Vec<u8>),
)
    ensures
        store_findings(name, stores.push(store)) == store_findings(name, stores)
            + entries_findings(name, store.entries@) + files_findings(name, store.files@),
        entries_findings(name, entries.push(entry)) == entries_findings(name, entries)
            + texts_findings(
            name,
            candidates(entry.1@),
            names_tool(utf8_lossy(entry.0@), name),
        ),
        (".ldb"@.is_suffix_of(file.0@) || ".log"@.is_suffix_of(file.0@)) && names_tool(
            utf8_lossy(file.1@),
            name,
        ) ==> files_findings(name, files.push(file)) == files_findings(name, files)
            + texts_findings(name, candidates(file.1@), true),
        !((".ldb"@.is_suffix_of(file.0@) || ".log"@.is_suffix_of(file.0@)) && names_tool(
            utf8_lossy(file.1@),
            name,
        )) ==> files_findings(name, files.push(file)) == files_findings(name, files),
        store_findings(name, Seq::empty()).len() == 0,
        entries_findings(name, Seq::empty()).len() == 0,
        files_findings(name, Seq::empty()).len() == 0,
{
    assert(stores.push(store).drop_last() =~= stores);
    assert(entries.push(entry).drop_last() =~= entries);
    assert(files.push(file).drop_last() =~= files);
    let known = files_findings(name, files);
    assert(known + Seq::<Finding>::empty() =~= known);
}

/// A text that counts tells what its JSON fragments tell, then the ids in it, then what stands in its
/// message fields. One that does not count tells nothing.
pub proof fn law_texts_are_read(
    name: Seq<char>,
    list: Seq<Seq<char>>,
    text: Seq<char>,
    all: bool,
    parts: Seq<Seq<char>>,
    part: Seq<char>,
)
    ensures
        all || names_tool(text, name) ==> texts_findings(name, list.push(text), all)
            == texts_findings(name, list, all) + text_findings(name, text),
        !all && !names_tool(text, name) ==> texts_findings(name, list.push(text), all)
            == texts_findings(name, list, all),
        json_document(part) is Some ==> fragment_findings(name, parts.push(part))
            == fragment_findings(name, parts) + json_findings(name, json_document(part)->0),
        json_document(part) is None ==> fragment_findings(name, parts.push(part))
            == fragment_findings(name, parts),
        names_tool(text, name) <==> exists|i: int|
            0 <= i < ls_origins(name).len() && has_part(text, #[trigger] ls_origins(name)[i])
            || 0 <= i < ls_cache_keys(name).len() && has_part(text, ls_cache_keys(name)[i]),
{
    assert(list.push(text).drop_last() =~= list);
    assert(parts.push(part).drop_last() =~= parts);
    let known = texts_findings(name, list, all);
    assert(known + Seq::<Finding>::empty() =~= known);
    let read = fragment_findings(name, parts);
    assert(read + Seq::<Finding>::empty() =~= read);
    if has_any(text, ls_origins(name)) {
        let i = choose|i: int|
            0 <= i < ls_origins(name).len() && has_part(text, #[trigger] ls_origins(name)[i]);
        assert(has_part(text, ls_origins(name)[i]));
    }
    if has_any(text, ls_cache_keys(name)) {
        let i = choose|i: int|
            0 <= i < ls_cache_keys(name).len() && has_part(text, #[trigger] ls_cache_keys(name)[i]);
        let origin = ls_origins(name)[i];
        assert(has_part(text, ls_cache_keys(name)[i]));
    }
}

/// What the values in a JSON value tell is part of what it tells: nothing is passed over for standing
/// deep.
pub proof fn law_inner_values_are_read(
    name: Seq<char>,
    items: Seq<JsonTree>,
    members: Seq<(Seq<char>, JsonTree)>,
    i: int,
    f: Finding,
)
    ensures
        0 <= i < items.len() && json_findings(name, items[i]).contains(f) ==> json_findings(
            name,
            JsonTree::Array(items),
        ).contains(f),
        0 <= i < members.len() && json_findings(name, members[i].1).contains(f) ==> json_findings(
            name,
            JsonTree::Object(members),
        ).contains(f),
{
    if 0 <= i < items.len() && json_findings(name, items[i]).contains(f) {
        lemma_items_hold(name, items, i, f);
        lemma_joined_hold(array_findings(name, items), item_findings(name, items), f);
    }
    if 0 <= i < members.len() && json_findings(name, members[i].1).contains(f) {
        lemma_members_hold(name, members, i, f);
        let v = JsonTree::Object(members);
        lemma_joined_hold(object_findings(name, v), member_findings(name, members), f);
    }
}

proof fn lemma_joined_hold(a: Seq<Finding>, b: Seq<Finding>, f: Finding)
    ensures
        (a + b).contains(f) <==> a.contains(f) || b.contains(f),
{
    let all = a + b;
    if a.contains(f) {
        assert(all[a.index_of(f)] == f);
    }
    if b.contains(f) {
        assert(all[a.len() + b.index_of(f)] == f);
    }
    if all.contains(f) {
        let i = all.index_of(f);
        if i < a.len() {
            assert(a[i] == f);
        } else {
            assert(b[i - a.len()] == f);
        }
    }
}

proof fn lemma_items_hold(name: Seq<char>, items: Seq<JsonTree>, i: int, f: Finding)
    requires
        0 <= i < items.len(),
        json_findings(name, items[i]).contains(f),
    ensures
        item_findings(name, items).contains(f),
    decreases items.len(),
{
    let before = items.drop_last();
    if i < before.len() {
        assert(before[i] == items[i]);
        lemma_items_hold(name, before, i, f);
    }
    lemma_joined_hold(item_findings(name, before), json_findings(name, items.last()), f);
}

proof fn lemma_members_hold(
    name: Seq<char>,
    members: Seq<(Seq<char>, JsonTree)>,
    i: int,
    f: Finding,
)
    requires
        0 <= i < members.len(),
        json_findings(name, members[i].1).contains(f),
    ensures
        member_findings(name, members).contains(f),
    decreases members.len(),
{
    let before = members.drop_last();
    if i < before.len() {
        assert(before[i] == members[i]);
        lemma_members_hold(name, before, i, f);
    }
    lemma_joined_hold(member_findings(name, before), json_findings(name, members.last().1), f);
}

/// Every entry that an object lists is found: for ChatGPT each one under `items`, and each on the first
/// page, whose id is a UUID, is a conversation; for NotebookLM each one under `notebooks` with an id is
/// a notebook.
pub proof fn law_listed_sessions_are_found(
    v: JsonTree,
    items: Seq<JsonTree>,
    i: int,
    id: Seq<char>,
)
    requires
        v is Object,
        0 <= i < items.len(),
        items[i].text_at("id"@) == Some(id),
    ensures
        is_uuid(id) && v.get("items"@) == Some(JsonTree::Array(items)) ==> json_findings(
            "ChatGPT"@,
            v,
        ).contains(Finding::Conversation(id)),
        is_uuid(id) && first_page(v) == items ==> json_findings("ChatGPT"@, v).contains(
            Finding::Conversation(id),
        ),
        v.get("notebooks"@) == Some(JsonTree::Array(items)) ==> json_findings(
            "NotebookLM"@,
            v,
        ).contains(Finding::Notebook(id)),
{
    reveal_strlit("ChatGPT");
    reveal_strlit("NotebookLM");
    assert("ChatGPT"@[0] == 'C' && "NotebookLM"@[0] == 'N');
    let members = v->Object_0;
    let c = Finding::Conversation(id);
    let page = sidebar_entries(first_page(v));
    let listed = listed_conversations(some_items(v.items_at("items"@)));
    let books = listed_notebooks(some_items(v.items_at("notebooks"@)));
    let none = Seq::<Finding>::empty();
    if is_uuid(id) && v.get("items"@) == Some(JsonTree::Array(items)) {
        lemma_listed_conversation(items, i, id);
    }
    if is_uuid(id) && first_page(v) == items {
        lemma_sidebar_conversation(items, i, id);
    }
    if v.get("notebooks"@) == Some(JsonTree::Array(items)) {
        lemma_listed_notebook(items, i, id);
    }
    lemma_joined_hold(page, listed, c);
    lemma_joined_hold(page + listed, none, c);
    lemma_joined_hold(none, books, Finding::Notebook(id));
    lemma_joined_hold(object_findings("ChatGPT"@, v), member_findings("ChatGPT"@, members), c);
    lemma_joined_hold(
        object_findings("NotebookLM"@, v),
        member_findings("NotebookLM"@, members),
        Finding::Notebook(id),
    );
}

proof fn lemma_listed_conversation(items: Seq<JsonTree>, i: int, id: Seq<char>)
    requires
        0 <= i < items.len(),
        items[i].text_at("id"@) == Some(id),
        is_uuid(id),
    ensures
        listed_conversations(items).contains(Finding::Conversation(id)),
    decreases items.len(),
{
    let before = items.drop_last();
    let own = entry_conversation(items.last());
    if i < before.len() {
        assert(before[i] == items[i]);
        lemma_listed_conversation(before, i, id);
    } else {
        assert(own[0] == Finding::Conversation(id));
    }
    lemma_joined_hold(listed_conversations(before), own, Finding::Conversation(id));
}

proof fn lemma_sidebar_conversation(items: Seq<JsonTree>, i: int, id: Seq<char>)
    requires
        0 <= i < items.len(),
        items[i].text_at("id"@) == Some(id),
        is_uuid(id),
    ensures
        sidebar_entries(items).contains(Finding::Conversation(id)),
    decreases items.len(),
{
    let before = items.drop_last();
    let last = items.last();
    let c = Finding::Conversation(id);
    let own = entry_conversation(last);
    let snippet = entry_text(last, "snippet"@);
    let title = entry_text(last, "title"@);
    let known = sidebar_entries(before);
    if i < before.len() {
        assert(before[i] == items[i]);
        lemma_sidebar_conversation(before, i, id);
    } else {
        assert(own[0] == c);
    }
    lemma_joined_hold(known, own, c);
    lemma_joined_hold(known + own, snippet, c);
    lemma_joined_hold(known + own + snippet, title, c);
}

proof fn lemma_listed_notebook(items: Seq<JsonTree>, i: int, id: Seq<char>)
    requires
        0 <= i < items.len(),
        items[i].text_at("id"@) == Some(id),
    ensures
        listed_notebooks(items).contains(Finding::Notebook(id)),
    decreases items.len(),
{
    let before = items.drop_last();
    let known = listed_notebooks(before);
    let all = listed_notebooks(items);
    if i < before.len() {
        assert(before[i] == items[i]);
        lemma_listed_notebook(before, i, id);
        let k = known.index_of(Finding::Notebook(id));
        assert(all[k] == Finding::Notebook(id));
    } else {
        assert(all[known.len() as int] == Finding::Notebook(id));
    }
}

/// A list of threads of Perplexity is found with all its ids, and with how many of its items have none.
pub proof fn law_listed_threads_are_found(items: Seq<JsonTree>, i: int, item: JsonTree)
    requires
        0 <= i < items.len(),
        items[i].get("threadId"@) is Some || (items[i].get("name"@) is Some && items[i].get(
            "createdAt"@,
        ) is Some),
    ensures
        json_findings("Perplexity"@, JsonTree::Array(items)).contains(
            Finding::ThreadList { ids: listed_ids(items), unnamed: unnamed_items(items) },
        ),
        item.text_at("threadId"@) matches Some(id) ==> listed_ids(items.push(item)) == listed_ids(
            items,
        ).push(id) && unnamed_items(items.push(item)) == unnamed_items(items),
        item.text_at("threadId"@) is None ==> listed_ids(items.push(item)) == listed_ids(items)
            && unnamed_items(items.push(item)) == unnamed_items(items) + 1,
{
    assert(items.push(item).drop_last() =~= items);
    assert(is_thread_entry(items[i]));
    let list = Finding::ThreadList { ids: listed_ids(items), unnamed: unnamed_items(items) };
    assert(seq![list][0] == list);
    assert(array_findings("Perplexity"@, items) == seq![list]);
    lemma_joined_hold(
        array_findings("Perplexity"@, items),
        item_findings("Perplexity"@, items),
        list,
    );
}

/// Ids are looked for mark by mark: where the next `"id":"` is followed by a UUID, that is found, and the
/// search goes on behind the mark. Without a mark nothing is found.
pub proof fn law_ids_follow_their_mark(s: Seq<char>, from: int, i: int)
    requires
        0 <= from <= i,
        forall|k: int| from <= k < i ==> !stands_at(s, "\"id\":\""@, k),
        stands_at(s, "\"id\":\""@, i) || i + 6 >= s.len(),
    ensures
        i + 6 >= s.len() ==> ids_from(s, from).len() == 0,
        i + 6 < s.len() && i + 42 <= s.len() && is_uuid(s.subrange(i + 6, i + 42)) ==> ids_from(
            s,
            from,
        ) == seq![s.subrange(i + 6, i + 42)] + ids_from(s, i + 7),
        i + 6 < s.len() && !(i + 42 <= s.len() && is_uuid(s.subrange(i + 6, i + 42))) ==> ids_from(
            s,
            from,
        ) == ids_from(s, i + 7),
    decreases i - from,
{
    reveal_strlit("\"id\":\"");
    assert("\"id\":\""@.len() == 6);
    if from + 6 >= s.len() {
    } else if from < i {
        assert(!stands_at(s, "\"id\":\""@, from));
        law_ids_follow_their_mark(s, from + 1, i);
    } else {
        let rest = ids_from(s, i + 7);
        assert(Seq::<Seq<char>>::empty() + rest =~= rest);
    }
}

/// Ids of threads are looked for mark by mark: what stands after the next `"threadId":"` up to the quote
/// that ends it is found, unless it is empty or never ends, and the search goes on behind the mark.
pub proof fn law_thread_ids_follow_their_mark(s: Seq<char>, from: int, i: int)
    requires
        0 <= from <= i,
        forall|k: int| from <= k < i ==> !stands_at(s, "\"threadId\":\""@, k),
        stands_at(s, "\"threadId\":\""@, i) || i + 12 >= s.len(),
    ensures
        i + 12 >= s.len() ==> thread_ids_from(s, from).len() == 0,
        i + 12 < s.len() ==> match value_end(s, i + 12, false) {
            Some(end) => if end > i + 12 {
                thread_ids_from(s, from) == seq![meant_id(s.subrange(i + 12, end))]
                    + thread_ids_from(s, i + 13)
            } else {
                thread_ids_from(s, from) == thread_ids_from(s, i + 13)
            },
            None => thread_ids_from(s, from) == thread_ids_from(s, i + 13),
        },
    decreases i - from,
{
    reveal_strlit("\"threadId\":\"");
    assert("\"threadId\":\""@.len() == 12);
    if from + 12 >= s.len() {
    } else if from < i {
        assert(!stands_at(s, "\"threadId\":\""@, from));
        law_thread_ids_follow_their_mark(s, from + 1, i);
    } else {
        let rest = thread_ids_from(s, i + 13);
        assert(Seq::<Seq<char>>::empty() + rest =~= rest);
    }
}

/// An id without escapes is what stands between its quotes, which ends at the first quote.
pub proof fn law_plain_ids_are_taken_as_they_stand(s: Seq<char>, from: int, end: int)
    requires
        0 <= from <= end < s.len(),
        s[end] == '"',
        forall|k: int| from <= k < end ==> #[trigger] s[k] != '"' && s[k] != '\\',
    ensures
        value_end(s, from, false) == Some(end),
        meant_id(s.subrange(from, end)) == s.subrange(from, end),
{
    lemma_plain_end(s, from, end);
    let raw = s.subrange(from, end);
    if raw.contains('\\') {
        let k = raw.index_of('\\');
        assert(raw[k] == s[from + k]);
    }
}

proof fn lemma_plain_end(s: Seq<char>, from: int, end: int)
    requires
        0 <= from <= end < s.len(),
        s[end] == '"',
        forall|k: int| from <= k < end ==> #[trigger] s[k] != '"' && s[k] != '\\',
    ensures
        value_end(s, from, false) == Some(end),
    decreases end - from,
{
    if from < end {
        assert(s[from] != '"' && s[from] != '\\');
        lemma_plain_end(s, from + 1, end);
    }
}

/// The values of a field are looked for mark by mark: what stands after the next `"field":"` up to the
/// quote that ends it is found, if it is longer than 12 bytes and has a letter, and the search goes on
/// behind it.
pub proof fn law_values_follow_their_mark(s: Seq<char>, mark: Seq<char>, from: int, i: int)
    requires
        0 <= from <= i,
        forall|k: int| from <= k < i ==> !stands_at(s, mark, k),
        stands_at(s, mark, i) || i + mark.len() >= s.len(),
    ensures
        i + mark.len() >= s.len() ==> values_from(s, mark, from).len() == 0,
        i + mark.len() < s.len() ==> match value_end(s, (i + mark.len()) as int, false) {
            Some(end) => {
                let value = s.subrange((i + mark.len()) as int, end);
                let tells = byte_len(value) > 12 && exists|k: int|
                    0 <= k < value.len() && is_letter(#[trigger] value[k]);
                &&& tells ==> values_from(s, mark, from) == seq![value] + values_from(
                    s,
                    mark,
                    end + 1,
                )
                &&& !tells ==> values_from(s, mark, from) == values_from(s, mark, end + 1)
            },
            None => values_from(s, mark, from) == values_from(
                s,
                mark,
                (i + mark.len() + 1) as int,
            ),
        },
    decreases i - from,
{
    if from + mark.len() >= s.len() {
    } else if from < i {
        assert(!stands_at(s, mark, from));
        law_values_follow_their_mark(s, mark, from + 1, i);
    } else {
        if let Some(end) = value_end(s, (i + mark.len()) as int, false) {
            let rest = values_from(s, mark, end + 1);
            assert(Seq::<Seq<char>>::empty() + rest =~= rest);
        }
    }
}

/// The titles and snippets of the first page of the sidebar are found, without the white space around
/// them, if they have at least 12 bytes.
pub proof fn law_sidebar_texts_are_found(
    v: JsonTree,
    i: int,
    text: Seq<char>,
)
    requires
        v is Object,
        0 <= i < first_page(v).len(),
        first_page(v)[i].text_at("snippet"@) == Some(text) || first_page(v)[i].text_at("title"@)
            == Some(text),
        byte_len(trimmed(text)) >= 12,
    ensures
        json_findings("ChatGPT"@, v).contains(Finding::Text(trimmed(text))),
{
    let f = Finding::Text(trimmed(text));
    let page = sidebar_entries(first_page(v));
    let listed = listed_conversations(some_items(v.items_at("items"@)));
    reveal_strlit("ChatGPT");
    reveal_strlit("NotebookLM");
    assert("ChatGPT"@[0] == 'C' && "NotebookLM"@[0] == 'N');
    lemma_sidebar_text(first_page(v), i, text);
    lemma_joined_hold(page, listed, f);
    lemma_joined_hold(page + listed, Seq::empty(), f);
    lemma_joined_hold(
        object_findings("ChatGPT"@, v),
        member_findings("ChatGPT"@, v->Object_0),
        f,
    );
}

proof fn lemma_sidebar_text(items: Seq<JsonTree>, i: int, text: Seq<char>)
    requires
        0 <= i < items.len(),
        items[i].text_at("snippet"@) == Some(text) || items[i].text_at("title"@) == Some(text),
        byte_len(trimmed(text)) >= 12,
    ensures
        sidebar_entries(items).contains(Finding::Text(trimmed(text))),
    decreases items.len(),
{
    let before = items.drop_last();
    let last = items.last();
    let f = Finding::Text(trimmed(text));
    let own = entry_conversation(last);
    let snippet = entry_text(last, "snippet"@);
    let title = entry_text(last, "title"@);
    let known = sidebar_entries(before);
    if i < before.len() {
        assert(before[i] == items[i]);
        lemma_sidebar_text(before, i, text);
    } else if items[i].text_at("snippet"@) == Some(text) {
        assert(snippet[0] == f);
    } else {
        assert(title[0] == f);
    }
    lemma_joined_hold(known, own, f);
    lemma_joined_hold(known + own, snippet, f);
    lemma_joined_hold(known + own + snippet, title, f);
}

/// A stored text tells of its tool by its ids, each in its way, and by six fields.
pub proof fn law_text_tells_ids_and_fields(name: Seq<char>, s: Seq<char>, f: Finding)
    ensures
        fragment_findings(name, fragments(s, true, 30)).contains(f) ==> text_findings(
            name,
            s,
        ).contains(f),
        name == "ChatGPT"@ && ids_from(s, 0).map_values(
            |id: Seq<char>| Finding::Conversation(id),
        ).contains(f) ==> text_findings(name, s).contains(f),
        name == "Perplexity"@ && thread_ids_from(s, 0).map_values(
            |id: Seq<char>| Finding::Thread(id),
        ).contains(f) ==> text_findings(name, s).contains(f),
        name == "NotebookLM"@ && has_part(s, "notebook"@) && ids_from(s, 0).map_values(
            |id: Seq<char>| Finding::Notebook(id),
        ).contains(f) ==> text_findings(name, s).contains(f),
        field_findings(s, "snippet"@).contains(f) || field_findings(s, "content"@).contains(f)
            || field_findings(s, "text"@).contains(f) || field_findings(s, "message"@).contains(f)
            || field_findings(s, "body"@).contains(f) || field_findings(s, "title"@).contains(f)
            ==> text_findings(name, s).contains(f),
{
    reveal_strlit("ChatGPT");
    reveal_strlit("Perplexity");
    reveal_strlit("NotebookLM");
    assert("ChatGPT"@[0] == 'C' && "Perplexity"@[0] == 'P' && "NotebookLM"@[0] == 'N');
    let p0 = fragment_findings(name, fragments(s, true, 30));
    let p1 = p0 + id_findings(name, s);
    let p2 = p1 + field_findings(s, "snippet"@);
    let p3 = p2 + field_findings(s, "content"@);
    let p4 = p3 + field_findings(s, "text"@);
    let p5 = p4 + field_findings(s, "message"@);
    let p6 = p5 + field_findings(s, "body"@);
    lemma_joined_hold(p0, id_findings(name, s), f);
    lemma_joined_hold(p1, field_findings(s, "snippet"@), f);
    lemma_joined_hold(p2, field_findings(s, "content"@), f);
    lemma_joined_hold(p3, field_findings(s, "text"@), f);
    lemma_joined_hold(p4, field_findings(s, "message"@), f);
    lemma_joined_hold(p5, field_findings(s, "body"@), f);
    lemma_joined_hold(p6, field_findings(s, "title"@), f);
}

/// Every UTF-16 object in stored bytes is a candidate, wherever it starts, if its text is long enough,
/// and so is the whole as UTF-8.
pub proof fn law_every_object_is_a_candidate(bytes: Seq<u8>, i: int)
    requires
        0 <= i,
        i + 12 < bytes.len(),
        bytes[i] == 0x7b && bytes[i + 1] == 0 && bytes[i + 2] == 0x22 && bytes[i + 3] == 0,
    ensures
        byte_len(sanitized(utf16_text(bytes, i))) >= 20 ==> candidates(bytes).contains(
            sanitized(utf16_text(bytes, i)),
        ),
        byte_len(sanitized(utf8_lossy(bytes))) >= 20 ==> candidates(bytes).contains(
            sanitized(utf8_lossy(bytes)),
        ),
{
    let text = sanitized(utf16_text(bytes, i));
    let plain = if_long(sanitized(utf8_lossy(bytes)));
    let rest = utf16_candidates(bytes, 0);
    let all = candidates(bytes);
    if byte_len(text) >= 20 {
        lemma_object_found(bytes, 0, i);
        assert(all[plain.len() + rest.index_of(text)] == text);
    }
    if byte_len(sanitized(utf8_lossy(bytes))) >= 20 {
        assert(all[0] == sanitized(utf8_lossy(bytes)));
    }
}

proof fn lemma_object_found(bytes: Seq<u8>, from: int, i: int)
    requires
        0 <= from <= i,
        i + 12 < bytes.len(),
        starts_utf16_object(bytes, i),
        byte_len(sanitized(utf16_text(bytes, i))) >= 20,
    ensures
        utf16_candidates(bytes, from).contains(sanitized(utf16_text(bytes, i))),
    decreases i - from,
{
    let text = sanitized(utf16_text(bytes, i));
    let all = utf16_candidates(bytes, from);
    if from == i {
        assert(all[0] == text);
    } else if starts_utf16_object(bytes, from) {
        assert(from + 1 != i);
        lemma_object_found(bytes, from + 2, i);
        let own = if_long(sanitized(utf16_text(bytes, from)));
        let rest = utf16_candidates(bytes, from + 2);
        assert(all[own.len() + rest.index_of(text)] == text);
    } else {
        lemma_object_found(bytes, from + 1, i);
    }
}

/// A stored text loses its control codes and its surplus of white space, and nothing else: all other
/// characters stay, in order, and between them stand single spaces only.
pub proof fn law_sanitized_keeps_all_words(s: Seq<char>)
    ensures
        ({
            let shown = s.map_values(|c: char| printable(c));
            let r = sanitized(s);
            &&& r.filter(|c: char| !is_white(c)) == shown.filter(|c: char| !is_white(c))
            &&& forall|i: int| 0 <= i < r.len() && is_white(#[trigger] r[i]) ==> r[i] == ' '
            &&& r.len() > 0 ==> !is_white(r[0]) && !is_white(r.last())
            &&& forall|i: int|
                0 <= i < r.len() - 1 ==> !(is_white(#[trigger] r[i]) && is_white(r[i + 1]))
        }),
{
    lemma_squeezed(s.map_values(|c: char| printable(c)));
}

proof fn lemma_squeezed(s: Seq<char>)
    ensures
        squeezed(s).filter(|c: char| !is_white(c)) == s.filter(|c: char| !is_white(c)),
        forall|i: int|
            0 <= i < squeezed(s).len() && is_white(#[trigger] squeezed(s)[i]) ==> squeezed(s)[i]
                == ' ',
        squeezed(s).len() > 0 ==> !is_white(squeezed(s)[0]) && !is_white(squeezed(s).last()),
        forall|i: int|
            0 <= i < squeezed(s).len() - 1 ==> !(is_white(#[trigger] squeezed(s)[i]) && is_white(
                squeezed(s)[i + 1],
            )),
    decreases s.len(),
{
    reveal(Seq::filter);
    let kept = |c: char| !is_white(c);
    if s.len() > 0 {
        let before = s.drop_last();
        let start = squeezed(before);
        let c = s.last();
        lemma_squeezed(before);
        assert(s =~= before.push(c));
        before.lemma_filter_push(c, kept);
        if !is_white(c) {
            start.lemma_filter_push(' ', kept);
            start.push(' ').lemma_filter_push(c, kept);
            start.lemma_filter_push(c, kept);
        }
    }
}

/// Where the local storage stands in every profile of some browsers.
pub fn chrome_local_storage_paths(browsers: &Vec<Listing>) -> (r: Vec<String>)
    ensures
        texts(r@) == in_browsers(browsers@, "Local Storage/leveldb"@),
{
    browser_paths(browsers, "Local Storage/leveldb")
}

} // verus!
