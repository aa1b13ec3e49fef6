//! Tokens of web AI tools, estimated by the domain and always marked as estimates.
//!
//! Web AI tools keep conversations on their servers. What is left on this machine, from the most
//! to the least telling: messages in IndexedDB, lists of sessions in local storage, and the time
//! that the browser was active. Every estimate comes with the evidence of what was looked at.

use crate::browser_data_audit::{
    audit_tree, probe_and_select, select_view, AuditSelection, AuditView, LocalDataAudit,
    LocalSources, SelectionView,
};
use crate::collections::StrMap;
use crate::harvest::{
    byte_len, byte_length, capped_size, find_fragments, fragments, lemma_merged_parts, merged,
    summed_bytes, total_bytes, UniqueTexts,
};
use crate::json::{json_document, parse_json, trees, Json, JsonTree};
use crate::platform::{browser_paths, in_browsers, Listing};
use crate::text::{
    chars_of, contains, decimal, decimal_u64, has_part, is_letter, is_letter_or_number, lossy_text,
    same, text_opt, texts, trim, trimmed, utf8_lossy,
};
use crate::token_estimate::{usage_from_counts, usage_of};
use crate::types::{
    capped, law_put_is_found, member_trees, meta_put, put_member, text_tree, Hours, MetaTree,
    MetaValue, RecordBuilder, TokenSums, TokenUsage,
};
use vstd::prelude::*;

verus! {

pub const HISTORY_ONLY_REASON: &'static str =
    "Only visit timestamps found in browser history; no local chat transcript storage detected";

/// How many bytes of messages IndexedDB has to hold to be believed.
pub const MIN_TRANSCRIPT_CHARS: usize = 200;

/// Tokens of a conversation, thread or notebook that is listed on this machine, as a median.
pub const TOKENS_PER_CHATGPT_CONVERSATION: u64 = 35_000;

pub const TOKENS_PER_PERPLEXITY_THREAD: u64 = 12_000;

pub const TOKENS_PER_NOTEBOOKLM_NOTEBOOK: u64 = 80_000;

/// The tools of which browsers tell hours, and no tokens by themselves.
pub const DASHBOARD_HOURS_ONLY_TOOLS: [&'static str; 7] = [
    "ChatGPT",
    "NotebookLM",
    "Gemini",
    "Perplexity",
    "Grok",
    "Lovable",
    "AI Studio",
];

/// The IndexedDB folder of a tool, where one is known.
pub open spec fn idb_folder(name: Seq<char>) -> Option<Seq<char>> {
    if name == "ChatGPT"@ {
        Some("https_chatgpt.com_0.indexeddb.leveldb"@)
    } else if name == "Lovable"@ {
        Some("https_lovable.dev_0.indexeddb.leveldb"@)
    } else if name == "Grok"@ {
        Some("https_x.com_0.indexeddb.leveldb"@)
    } else {
        None
    }
}

/// The IndexedDB folder of a tool, where one is known.
pub fn chrome_idb_folder(display_name: &str) -> (r: Option<&'static str>)
    ensures
        crate::text::str_opt(r) == idb_folder(display_name@),
{
    if same(display_name, "ChatGPT") {
        Some("https_chatgpt.com_0.indexeddb.leveldb")
    } else if same(display_name, "Lovable") {
        Some("https_lovable.dev_0.indexeddb.leveldb")
    } else if same(display_name, "Grok") {
        Some("https_x.com_0.indexeddb.leveldb")
    } else {
        None
    }
}

/// Where a folder of IndexedDB stands in every profile of some browsers.
pub fn chrome_indexeddb_paths(browsers: &Vec<Listing>, folder: &str) -> (r: Vec<String>)
    ensures
        texts(r@) == in_browsers(browsers@, "IndexedDB/"@ + folder@),
{
    let rest = "IndexedDB/".to_string().concat(folder);
    browser_paths(browsers, rest.as_str())
}

/// How many characters of a text are of a kind.
pub open spec fn count_of(s: Seq<char>, kind: spec_fn(char) -> bool) -> nat
    decreases s.len(),
{
    if s.len() == 0 {
        0
    } else {
        count_of(s.drop_last(), kind) + if kind(s.last()) {
            1nat
        } else {
            0
        }
    }
}

/// The letters of a text.
pub open spec fn letters(s: Seq<char>) -> nat {
    count_of(s, |c: char| is_letter(c))
}

/// The letters and numbers of a text.
pub open spec fn letters_and_numbers(s: Seq<char>) -> nat {
    count_of(s, |c: char| is_letter_or_number(c))
}

/// The characters of a text that base64 writes with.
pub open spec fn base64_like(s: Seq<char>) -> nat {
    count_of(s, |c: char| is_letter_or_number(c) || c == '+' || c == '/' || c == '=')
}

/// The characters of a text that stand for bytes that could not be read.
pub open spec fn unreadable(s: Seq<char>) -> nat {
    count_of(s, |c: char| c == '\u{fffd}')
}

/// Whether a text looks like base64: long, and nearly all of it such characters.
pub open spec fn looks_encoded(t: Seq<char>) -> bool {
    byte_len(t) >= 40 && base64_like(t) * 100 > 92 * byte_len(t) && letters_and_numbers(t) > 30
}

/// Whether a text may be a message: no certificate or key, no base64, readable, with letters, and
/// with a space unless it is long.
pub open spec fn is_plausible(s: Seq<char>) -> bool {
    let t = trimmed(s);
    &&& byte_len(t) >= 12
    &&& !has_part(t, "BEGIN CERTIFICATE"@)
    &&& !has_part(t, "BEGIN PRIVATE KEY"@)
    &&& !has_part(t, "MIGHAg"@)
    &&& !has_part(t, "MIIBF"@)
    &&& unreadable(t) <= 2
    &&& !looks_encoded(t)
    &&& letters(t) >= 8
    &&& t.contains(' ') || letters(t) >= 24
}

/// What was counted in a text.
struct Census {
    letters: usize,
    letters_and_numbers: usize,
    base64_like: usize,
    unreadable: usize,
    spaced: bool,
}

fn take_census(chars: &Vec<char>) -> (r: Census)
    ensures
        r.letters == letters(chars@),
        r.letters_and_numbers == letters_and_numbers(chars@),
        r.base64_like == base64_like(chars@),
        r.unreadable == unreadable(chars@),
        r.spaced == chars@.contains(' '),
{
    let mut c = Census {
        letters: 0,
        letters_and_numbers: 0,
        base64_like: 0,
        unreadable: 0,
        spaced: false,
    };
    let mut i: usize = 0;
    while i < chars.len()
        invariant
            i <= chars@.len(),
            c.letters == letters(chars@.take(i as int)),
            c.letters_and_numbers == letters_and_numbers(chars@.take(i as int)),
            c.base64_like == base64_like(chars@.take(i as int)),
            c.unreadable == unreadable(chars@.take(i as int)),
            c.letters <= i,
            c.letters_and_numbers <= i,
            c.base64_like <= i,
            c.unreadable <= i,
            c.spaced == chars@.take(i as int).contains(' '),
        decreases chars@.len() - i,
    {
        let x = chars[i];
        let ghost before = chars@.take(i as int);
        let ghost after = chars@.take(i + 1);
        proof {
            assert(after.drop_last() =~= before);
            assert(after.last() == x);
            if before.contains(' ') {
                let k = before.index_of(' ');
                assert(after[k] == ' ');
            }
            if after.contains(' ') && x != ' ' {
                let k = after.index_of(' ');
                assert(before[k] == ' ');
            }
            if x == ' ' {
                assert(after[i as int] == ' ');
            }
        }
        if x.is_alphabetic() {
            c.letters += 1;
        }
        let alnum = x.is_alphanumeric();
        if alnum {
            c.letters_and_numbers += 1;
        }
        if alnum || x == '+' || x == '/' || x == '=' {
            c.base64_like += 1;
        }
        if x == '\u{fffd}' {
            c.unreadable += 1;
        }
        if x == ' ' {
            c.spaced = true;
        }
        i += 1;
    }
    assert(chars@.take(i as int) =~= chars@);
    c
}

/// Whether a text may be a message, and not a certificate, base64 or other noise.
pub fn is_plausible_message_text(s: &str) -> (r: bool)
    ensures
        r == is_plausible(s@),
{
    let t = trim(s);
    let bytes: usize = byte_length(t.as_str());
    if bytes < 12 {
        return false;
    }
    if contains(t.as_str(), "BEGIN CERTIFICATE") || contains(t.as_str(), "BEGIN PRIVATE KEY") {
        return false;
    }
    if contains(t.as_str(), "MIGHAg") || contains(t.as_str(), "MIIBF") {
        return false;
    }
    let chars = chars_of(t.as_str());
    let census = take_census(&chars);
    if census.unreadable > 2 {
        return false;
    }
    if bytes >= 40 && census.base64_like as u128 * 100 > 92 * (bytes as u128)
        && census.letters_and_numbers > 30 {
        return false;
    }
    if census.letters < 8 {
        return false;
    }
    census.spaced || census.letters >= 24
}

/// Whether messages stand below a key.
pub open spec fn is_container(key: Seq<char>) -> bool {
    ||| key == "messages"@
    ||| key == "message"@
    ||| key == "conversation"@
    ||| key == "conversations"@
    ||| key == "chat"@
    ||| key == "mapping"@
    ||| key == "items"@
    ||| key == "history"@
    ||| key == "thread"@
    ||| key == "turns"@
}

/// Whether messages stand below a key.
pub fn is_message_container_key(key: &str) -> (r: bool)
    ensures
        r == is_container(key@),
{
    same(key, "messages") || same(key, "message") || same(key, "conversation") || same(
        key,
        "conversations",
    ) || same(key, "chat") || same(key, "mapping") || same(key, "items") || same(key, "history")
        || same(key, "thread") || same(key, "turns")
}

/// Whether a message stands under a key.
pub open spec fn is_field(key: Seq<char>) -> bool {
    ||| key == "text"@
    ||| key == "content"@
    ||| key == "message"@
    ||| key == "body"@
    ||| key == "markdown"@
    ||| key == "richText"@
    ||| key == "parts"@
    ||| key == "value"@
    ||| key == "prompt"@
}

/// Whether a message stands under a key.
pub fn is_message_field(key: &str) -> (r: bool)
    ensures
        r == is_field(key@),
{
    same(key, "text") || same(key, "content") || same(key, "message") || same(key, "body") || same(
        key,
        "markdown",
    ) || same(key, "richText") || same(key, "parts") || same(key, "value") || same(key, "prompt")
}

/// A text as the only message, if it may be one.
pub open spec fn if_plausible(s: Seq<char>) -> Seq<Seq<char>> {
    if is_plausible(s) {
        seq![s]
    } else {
        Seq::empty()
    }
}

/// The messages in a JSON value: the strings under message fields and below message containers
/// that may be messages. `within` tells whether the value stands in such a place.
pub open spec fn messages_in(v: JsonTree, within: bool) -> Seq<Seq<char>>
    decreases v,
{
    match v {
        JsonTree::Text(s) => if within {
            if_plausible(s)
        } else {
            Seq::empty()
        },
        JsonTree::Array(items) => messages_in_items(items, within),
        JsonTree::Object(members) => messages_in_members(members, within),
        _ => Seq::empty(),
    }
}

/// The messages in some items.
pub open spec fn messages_in_items(items: Seq<JsonTree>, within: bool) -> Seq<Seq<char>>
    decreases items,
{
    if items.len() == 0 {
        Seq::empty()
    } else {
        messages_in_items(items.drop_last(), within) + messages_in(items.last(), within)
    }
}

/// The messages in some members.
pub open spec fn messages_in_members(
    members: Seq<(Seq<char>, JsonTree)>,
    within: bool,
) -> Seq<Seq<char>>
    decreases members,
{
    if members.len() == 0 {
        Seq::empty()
    } else {
        messages_in_members(members.drop_last(), within) + if is_field(members.last().0) || within
            || is_container(members.last().0) {
            messages_in(members.last().1, true)
        } else {
            Seq::empty()
        }
    }
}

/// Adds the messages in a JSON value to a list, without those that it has already.
pub fn collect_json_text(value: &Json, in_message_context: bool, found: &mut UniqueTexts)
    requires
        old(found).wf(),
    ensures
        final(found).wf(),
        final(found)@ == merged(old(found)@, messages_in(value@, in_message_context)),
    decreases value@,
{
    let ghost start = found@;
    match value {
        Json::Text(s) => {
            if in_message_context {
                if is_plausible_message_text(s.as_str()) {
                    found.add(s.as_str());
                }
            }
        },
        Json::Array(items) => {
            let ghost all = trees(items@);
            assert(value@->Array_0 =~= all);
            let mut i: usize = 0;
            while i < items.len()
                invariant
                    i <= items@.len(),
                    found.wf(),
                    all == trees(items@),
                    value@ == JsonTree::Array(all),
                    found@ == merged(
                        start,
                        messages_in_items(all.take(i as int), in_message_context),
                    ),
                decreases items@.len() - i,
            {
                proof {
                    assert(all.take(i + 1).drop_last() =~= all.take(i as int));
                    assert(all.take(i + 1).last() == items@[i as int]@);
                    assert(value@->Array_0[i as int] == items@[i as int]@);
                    lemma_merged_parts(
                        start,
                        messages_in_items(all.take(i as int), in_message_context),
                        messages_in(items@[i as int]@, in_message_context),
                    );
                }
                collect_json_text(&items[i], in_message_context, found);
                i += 1;
            }
            assert(all.take(i as int) =~= all);
        },
        Json::Object(members) => {
            let ghost all = value@->Object_0;
            let mut i: usize = 0;
            while i < members.len()
                invariant
                    i <= members@.len(),
                    found.wf(),
                    *value == Json::Object(*members),
                    all == value@->Object_0,
                    value@ == JsonTree::Object(all),
                    all.len() == members@.len(),
                    found@ == merged(
                        start,
                        messages_in_members(all.take(i as int), in_message_context),
                    ),
                decreases members@.len() - i,
            {
                let key = members[i].0.as_str();
                let ghost known = messages_in_members(all.take(i as int), in_message_context);
                proof {
                    assert(all.take(i + 1).drop_last() =~= all.take(i as int));
                    assert(all[i as int].0 == members@[i as int].0@);
                    assert(all[i as int].1 == members@[i as int].1@);
                    assert(all.take(i + 1).last() == all[i as int]);
                    lemma_merged_parts(start, known, messages_in(members@[i as int].1@, true));
                    assert(known + Seq::<Seq<char>>::empty() =~= known);
                }
                if is_message_field(key) || in_message_context || is_message_container_key(key) {
                    collect_json_text(&members[i].1, true, found);
                }
                i += 1;
            }
            assert(all.take(i as int) =~= all);
        },
        _ => {},
    }
}

/// The messages in some fragments, where they are JSON.
pub open spec fn messages_in_fragments(parts: Seq<Seq<char>>) -> Seq<Seq<char>>
    decreases parts.len(),
{
    if parts.len() == 0 {
        Seq::empty()
    } else {
        messages_in_fragments(parts.drop_last()) + match json_document(parts.last()) {
            Some(v) => messages_in(v, false),
            None => Seq::empty(),
        }
    }
}

/// The messages in some stored bytes: in every JSON object that stands in them.
pub open spec fn messages_in_bytes(bytes: Seq<u8>) -> Seq<Seq<char>> {
    messages_in_fragments(fragments(utf8_lossy(bytes), false, 20))
}

/// Adds the messages in some stored bytes to a list, without those that it has already.
pub fn collect_text_from_bytes(bytes: &[u8], found: &mut UniqueTexts)
    requires
        old(found).wf(),
    ensures
        final(found).wf(),
        final(found)@ == merged(old(found)@, messages_in_bytes(bytes@)),
{
    let raw = lossy_text(bytes);
    let parts = find_fragments(raw.as_str(), false, 20);
    let ghost start = found@;
    let ghost all = texts(parts@);
    let mut i: usize = 0;
    while i < parts.len()
        invariant
            i <= parts@.len(),
            found.wf(),
            all == texts(parts@),
            found@ == merged(start, messages_in_fragments(all.take(i as int))),
        decreases parts@.len() - i,
    {
        let ghost known = messages_in_fragments(all.take(i as int));
        proof {
            assert(all.take(i + 1).drop_last() =~= all.take(i as int));
            assert(all.take(i + 1).last() == parts@[i as int]@);
            assert(known + Seq::<Seq<char>>::empty() =~= known);
        }
        if let Some(v) = parse_json(parts[i].as_str()) {
            proof {
                lemma_merged_parts(start, known, messages_in(v@, false));
            }
            collect_json_text(&v, false, found);
        }
        i += 1;
    }
    assert(all.take(i as int) =~= all);
}

/// The messages in some keys and values.
pub open spec fn messages_in_entries(entries: Seq<(Vec<u8>, Vec<u8>)>) -> Seq<Seq<char>>
    decreases entries.len(),
{
    if entries.len() == 0 {
        Seq::empty()
    } else {
        messages_in_entries(entries.drop_last()) + messages_in_bytes(entries.last().0@)
            + messages_in_bytes(entries.last().1@)
    }
}

/// The messages in some databases.
pub open spec fn messages_in_stores(stores: Seq<Vec<(Vec<u8>, Vec<u8>)>>) -> Seq<Seq<char>>
    decreases stores.len(),
{
    if stores.len() == 0 {
        Seq::empty()
    } else {
        messages_in_stores(stores.drop_last()) + messages_in_entries(stores.last()@)
    }
}

/// The distinct messages in some databases, in the order in which they came.
pub open spec fn transcript(stores: Seq<Vec<(Vec<u8>, Vec<u8>)>>) -> Seq<Seq<char>> {
    merged(Seq::empty(), messages_in_stores(stores))
}

/// Adds the messages in the keys and values of a database to a list.
pub fn extract_texts_from_leveldb(entries: &Vec<(Vec<u8>, Vec<u8>)>, found: &mut UniqueTexts)
    requires
        old(found).wf(),
    ensures
        final(found).wf(),
        final(found)@ == merged(old(found)@, messages_in_entries(entries@)),
{
    let ghost start = found@;
    let mut i: usize = 0;
    while i < entries.len()
        invariant
            i <= entries@.len(),
            found.wf(),
            found@ == merged(start, messages_in_entries(entries@.take(i as int))),
        decreases entries@.len() - i,
    {
        proof {
            assert(entries@.take(i + 1).drop_last() =~= entries@.take(i as int));
            let known = messages_in_entries(entries@.take(i as int));
            let a = messages_in_bytes(entries@[i as int].0@);
            let b = messages_in_bytes(entries@[i as int].1@);
            lemma_merged_parts(start, known, a);
            lemma_merged_parts(start, known + a, b);
        }
        collect_text_from_bytes(entries[i].0.as_slice(), found);
        collect_text_from_bytes(entries[i].1.as_slice(), found);
        i += 1;
    }
    assert(entries@.take(i as int) =~= entries@);
}

/// The distinct messages in the databases of a folder, of all profiles.
pub fn collect_transcript_texts_for_folder(stores: &Vec<Vec<(Vec<u8>, Vec<u8>)>>) -> (r: Vec<
    String,
>)
    ensures
        texts(r@) == transcript(stores@),
{
    let mut found = UniqueTexts::new();
    let ghost none = Seq::<Seq<char>>::empty();
    let mut i: usize = 0;
    while i < stores.len()
        invariant
            i <= stores@.len(),
            found.wf(),
            none == Seq::<Seq<char>>::empty(),
            found@ == merged(none, messages_in_stores(stores@.take(i as int))),
        decreases stores@.len() - i,
    {
        proof {
            assert(stores@.take(i + 1).drop_last() =~= stores@.take(i as int));
            lemma_merged_parts(
                none,
                messages_in_stores(stores@.take(i as int)),
                messages_in_entries(stores@[i as int]@),
            );
        }
        extract_texts_from_leveldb(&stores[i], &mut found);
        i += 1;
    }
    assert(stores@.take(i as int) =~= stores@);
    found.into_list()
}

/// A message stands once in a transcript, whatever the databases that hold it.
pub proof fn law_transcript_has_no_repeats(stores: Seq<Vec<(Vec<u8>, Vec<u8>)>>)
    ensures
        transcript(stores).no_duplicates(),
{
    crate::harvest::law_merged_has_no_repeats(Seq::empty(), messages_in_stores(stores));
}

/// The databases that were read, by folder. A folder is read once, so that its messages stay the
/// same whatever happens to its files while a scan goes on.
pub struct TranscriptCache {
    folders: StrMap<Vec<Vec<(Vec<u8>, Vec<u8>)>>>,
}

impl View for TranscriptCache {
    type V = Map<Seq<char>, Seq<Vec<(Vec<u8>, Vec<u8>)>>>;

    closed spec fn view(&self) -> Map<Seq<char>, Seq<Vec<(Vec<u8>, Vec<u8>)>>> {
        self.folders@.map_values(|stores: Vec<Vec<(Vec<u8>, Vec<u8>)>>| stores@)
    }
}

/// What is known after some databases of a folder were read: what was read first stays.
pub open spec fn remembered(
    known: Map<Seq<char>, Seq<Vec<(Vec<u8>, Vec<u8>)>>>,
    folder: Seq<char>,
    stores: Seq<Vec<(Vec<u8>, Vec<u8>)>>,
) -> Map<Seq<char>, Seq<Vec<(Vec<u8>, Vec<u8>)>>> {
    if known.contains_key(folder) {
        known
    } else {
        known.insert(folder, stores)
    }
}

impl TranscriptCache {
    pub closed spec fn wf(&self) -> bool {
        self.folders.wf()
    }

    /// Nothing read yet.
    pub fn new() -> (r: TranscriptCache)
        ensures
            r.wf(),
            r@ == Map::<Seq<char>, Seq<Vec<(Vec<u8>, Vec<u8>)>>>::empty(),
    {
        let r = TranscriptCache { folders: StrMap::new() };
        assert(r@ =~= Map::<Seq<char>, Seq<Vec<(Vec<u8>, Vec<u8>)>>>::empty());
        r
    }

    /// The databases of a folder, if they were read.
    pub fn get(&self, folder: &str) -> (r: Option<&Vec<Vec<(Vec<u8>, Vec<u8>)>>>)
        requires
            self.wf(),
        ensures
            match r {
                Some(stores) => self@.contains_key(folder@) && stores@ == self@[folder@],
                None => !self@.contains_key(folder@),
            },
    {
        self.folders.get(folder)
    }

    /// Keeps the databases of a folder, unless it was read before.
    pub fn put(&mut self, folder: &str, stores: Vec<Vec<(Vec<u8>, Vec<u8>)>>)
        requires
            old(self).wf(),
        ensures
            final(self).wf(),
            final(self)@ == remembered(old(self)@, folder@, stores@),
    {
        if self.folders.get(folder).is_none() {
            self.folders.insert(folder.to_string(), stores);
        }
        assert(self@ =~= remembered(old(self)@, folder@, stores@));
    }
}

/// The messages of a folder are cached: a second reading changes nothing of them, whatever the
/// files hold by then, and no message stands in them twice.
pub proof fn law_second_reading_agrees(
    known: Map<Seq<char>, Seq<Vec<(Vec<u8>, Vec<u8>)>>>,
    folder: Seq<char>,
    first: Seq<Vec<(Vec<u8>, Vec<u8>)>>,
    second: Seq<Vec<(Vec<u8>, Vec<u8>)>>,
)
    ensures
        ({
            let once = remembered(known, folder, first);
            let twice = remembered(once, folder, second);
            &&& once.contains_key(folder) && twice.contains_key(folder)
            &&& transcript(twice[folder]) == transcript(once[folder])
            &&& transcript(once[folder]).no_duplicates()
        }),
{
    law_transcript_has_no_repeats(remembered(known, folder, first)[folder]);
}

/// The tokens that some active time should have left in a transcript, at the least.
pub open spec fn expected_tokens(hours: Hours) -> u64 {
    let n = hours.seconds as int * 5 / 18;
    if n < 500 {
        500
    } else {
        capped(n)
    }
}

/// Why a transcript is not believed: it is short, or it has too few tokens for the time that the
/// browser was active, if that was half an hour or more. `shown` is the time in hours as people
/// read it.
pub open spec fn quality_failure(
    hours: Hours,
    shown: Seq<char>,
    bytes: usize,
    tokens: u64,
) -> Option<Seq<char>> {
    if bytes < MIN_TRANSCRIPT_CHARS {
        Some(
            HISTORY_ONLY_REASON@ + " (only "@ + decimal(bytes as nat)
                + " chars of local message text — likely metadata, not full transcripts)"@,
        )
    } else if hours.seconds >= 1800 && tokens < expected_tokens(hours) {
        Some(
            "Local transcript cache too sparse (~"@ + decimal(tokens as nat)
                + " est. tokens vs "@ + shown
                + "h active) — falling through to session/hours tiers"@,
        )
    } else {
        None
    }
}

fn tokens_expected(hours: Hours) -> (r: u64)
    ensures
        r == expected_tokens(hours),
{
    let whole: u128 = hours.seconds / 18;
    let rest: u128 = hours.seconds % 18;
    let n: u128 = whole * 5 + rest * 5 / 18;
    assert(n == hours.seconds as int * 5 / 18) by (nonlinear_arith)
        requires
            whole == hours.seconds as int / 18,
            rest == hours.seconds as int % 18,
            n == whole * 5 + rest * 5 / 18,
    {
        assert(hours.seconds as int * 5 == 18 * (whole * 5) + rest * 5);
        assert((18 * (whole * 5) + rest * 5) / 18 == whole * 5 + rest * 5 / 18);
    }
    if n < 500 {
        500
    } else if n > 0xffff_ffff_ffff_ffff {
        0xffff_ffff_ffff_ffff
    } else {
        n as u64
    }
}

/// Why a transcript is not believed, if it is not.
pub fn transcript_quality_failure(
    hours: Hours,
    shown: &str,
    list: &Vec<String>,
    token_count: u64,
) -> (r: Option<String>)
    ensures
        text_opt(r) == quality_failure(
            hours,
            shown@,
            capped_size(summed_bytes(texts(list@))),
            token_count,
        ),
{
    let bytes: usize = total_bytes(list);
    if bytes < MIN_TRANSCRIPT_CHARS {
        let mut reason = HISTORY_ONLY_REASON.to_string();
        reason.append(" (only ");
        reason.append(decimal_u64(bytes as u64).as_str());
        reason.append(" chars of local message text — likely metadata, not full transcripts)");
        return Some(reason);
    }
    if hours.seconds >= 1800 {
        if token_count < tokens_expected(hours) {
            let mut reason = "Local transcript cache too sparse (~".to_string();
            reason.append(decimal_u64(token_count).as_str());
            reason.append(" est. tokens vs ");
            reason.append(shown);
            reason.append("h active) — falling through to session/hours tiers");
            return Some(reason);
        }
    }
    None
}

/// What was found out about the tokens of a tool: an estimate, or that none can be made.
pub struct DomainTokenResult {
    pub tokens: Option<TokenUsage>,
    pub tokens_estimated: bool,
    pub tokens_estimate_method: Option<String>,
    pub tokens_unavailable: bool,
    pub tokens_unavailable_reason: Option<String>,
    pub tokens_estimate_evidence: Option<LocalDataAudit>,
}

/// What a result says.
#[verifier::ext_equal]
pub ghost struct DomainView {
    pub tokens: Option<TokenUsage>,
    pub tokens_estimated: bool,
    pub method: Option<Seq<char>>,
    pub tokens_unavailable: bool,
    pub reason: Option<Seq<char>>,
    pub evidence: Option<AuditView>,
}

/// What some evidence says that may be missing.
pub open spec fn audit_opt(audit: Option<LocalDataAudit>) -> Option<AuditView> {
    match audit {
        Some(a) => Some(a@),
        None => None,
    }
}

impl View for DomainTokenResult {
    type V = DomainView;

    open spec fn view(&self) -> DomainView {
        DomainView {
            tokens: self.tokens,
            tokens_estimated: self.tokens_estimated,
            method: text_opt(self.tokens_estimate_method),
            tokens_unavailable: self.tokens_unavailable,
            reason: text_opt(self.tokens_unavailable_reason),
            evidence: audit_opt(self.tokens_estimate_evidence),
        }
    }
}

impl DomainTokenResult {
    /// That nothing can be told, for a reason.
    pub fn unavailable(reason: &str, evidence: Option<LocalDataAudit>) -> (r: DomainTokenResult)
        ensures
            r@ == (DomainView {
                tokens: None,
                tokens_estimated: false,
                method: None,
                tokens_unavailable: true,
                reason: Some(reason@),
                evidence: audit_opt(evidence),
            }),
    {
        DomainTokenResult {
            tokens: None,
            tokens_estimated: false,
            tokens_estimate_method: None,
            tokens_unavailable: true,
            tokens_unavailable_reason: Some(reason.to_string()),
            tokens_estimate_evidence: evidence,
        }
    }

    /// An estimate, and how it was made.
    pub fn estimated(tokens: TokenUsage, method: &str, evidence: LocalDataAudit) -> (r:
        DomainTokenResult)
        ensures
            r@ == (DomainView {
                tokens: Some(tokens),
                tokens_estimated: true,
                method: Some(method@),
                tokens_unavailable: false,
                reason: None,
                evidence: Some(evidence@),
            }),
    {
        DomainTokenResult {
            tokens: Some(tokens),
            tokens_estimated: true,
            tokens_estimate_method: Some(method.to_string()),
            tokens_unavailable: false,
            tokens_unavailable_reason: None,
            tokens_estimate_evidence: Some(evidence),
        }
    }
}

/// What a decision means for the tokens of a tool.
pub open spec fn domain_result(selection: SelectionView) -> DomainView {
    if selection.unavailable {
        DomainView {
            tokens: None,
            tokens_estimated: false,
            method: None,
            tokens_unavailable: true,
            reason: Some(
                match selection.unavailable_reason {
                    Some(reason) => reason,
                    None => HISTORY_ONLY_REASON@,
                },
            ),
            evidence: Some(selection.audit),
        }
    } else {
        DomainView {
            tokens: Some(usage_of(0, selection.audit.winner_tokens)),
            tokens_estimated: true,
            method: Some(
                match selection.method {
                    Some(method) => method,
                    None => Seq::empty(),
                },
            ),
            tokens_unavailable: false,
            reason: None,
            evidence: Some(selection.audit),
        }
    }
}

/// What a decision means for the tokens of a tool.
pub fn tokens_of_selection(selection: AuditSelection) -> (r: DomainTokenResult)
    ensures
        r@ == domain_result(selection@),
{
    if selection.unavailable {
        let reason: String = match selection.unavailable_reason {
            Some(reason) => reason,
            None => HISTORY_ONLY_REASON.to_string(),
        };
        return DomainTokenResult::unavailable(reason.as_str(), Some(selection.audit));
    }
    let method: String = match selection.method {
        Some(method) => method,
        None => String::new(),
    };
    let tokens = usage_from_counts(0, selection.audit.winner_tokens);
    DomainTokenResult::estimated(tokens, method.as_str(), selection.audit)
}

/// Estimates the tokens of a tool from what is on this machine. `shown` is the active time in
/// hours as people read it.
pub fn estimate_domain_tokens(
    display_name: &str,
    hours: Hours,
    shown: &str,
    sources: &LocalSources,
) -> (r: DomainTokenResult)
    ensures
        r@ == domain_result(select_view(display_name@, hours, shown@, *sources)),
{
    tokens_of_selection(probe_and_select(display_name, hours, shown, sources))
}

/// A usage as a record.
pub open spec fn usage_tree(usage: TokenUsage) -> MetaTree {
    MetaTree::Record(
        seq![
            ("input_tokens"@, MetaTree::Count(usage.input_tokens)),
            ("output_tokens"@, MetaTree::Count(usage.output_tokens)),
            ("cache_read_tokens"@, MetaTree::Count(usage.cache_read_tokens)),
            ("cache_creation_tokens"@, MetaTree::Count(usage.cache_creation_tokens)),
            ("total"@, MetaTree::Count(usage.total)),
        ],
    )
}

fn usage_value(usage: TokenUsage) -> (r: MetaValue)
    ensures
        r@ == usage_tree(usage),
{
    let mut b = RecordBuilder::new();
    b.put("input_tokens", MetaValue::Count(usage.input_tokens));
    b.put("output_tokens", MetaValue::Count(usage.output_tokens));
    b.put("cache_read_tokens", MetaValue::Count(usage.cache_read_tokens));
    b.put("cache_creation_tokens", MetaValue::Count(usage.cache_creation_tokens));
    b.put("total", MetaValue::Count(usage.total));
    assert(member_trees(b.members@) =~= usage_tree(usage)->Record_0);
    b.finish()
}

/// Members with a value under a key, where there is a value.
pub open spec fn put_some(
    members: Seq<(Seq<char>, MetaTree)>,
    key: Seq<char>,
    value: Option<MetaTree>,
) -> Seq<(Seq<char>, MetaTree)> {
    match value {
        Some(v) => meta_put(members, key, v),
        None => members,
    }
}

/// A flag that is only written where it is set.
pub open spec fn if_set(flag: bool) -> Option<MetaTree> {
    if flag {
        Some(MetaTree::Flag(true))
    } else {
        None
    }
}

/// The members of an entry with what was found out about its tokens.
pub open spec fn enriched_members(
    members: Seq<(Seq<char>, MetaTree)>,
    d: DomainView,
) -> Seq<(Seq<char>, MetaTree)> {
    let m = put_some(
        members,
        "tokens"@,
        match d.tokens {
            Some(usage) => Some(usage_tree(usage)),
            None => None,
        },
    );
    let m = put_some(m, "tokens_estimated"@, if_set(d.tokens_estimated));
    let m = put_some(m, "tokens_estimate_method"@, text_tree(d.method));
    let m = put_some(m, "tokens_unavailable"@, if_set(d.tokens_unavailable));
    let m = put_some(m, "tokens_unavailable_reason"@, text_tree(d.reason));
    put_some(
        m,
        "tokens_estimate_evidence"@,
        match d.evidence {
            Some(audit) => Some(audit_tree(audit)),
            None => None,
        },
    )
}

/// An entry with what was found out about its tokens. What is no record stays as it is.
pub open spec fn enriched(entry: MetaTree, d: DomainView) -> MetaTree {
    match entry {
        MetaTree::Record(members) => MetaTree::Record(enriched_members(members, d)),
        other => other,
    }
}

fn put_optional_text(members: &mut Vec<(String, MetaValue)>, key: &str, text: Option<String>)
    ensures
        member_trees(final(members)@) == put_some(
            member_trees(old(members)@),
            key@,
            text_tree(text_opt(text)),
        ),
{
    if let Some(s) = text {
        put_member(members, key, MetaValue::Text(s));
    }
}

/// Adds what was found out about the tokens of a tool to its entry.
pub fn enrich_entry(entry: MetaValue, result: DomainTokenResult) -> (r: MetaValue)
    ensures
        r@ == enriched(entry@, result@),
{
    match entry {
        MetaValue::Record(members) => {
            let ghost before = member_trees(members@);
            assert(entry@->Record_0 =~= before);
            let mut members = members;
            if let Some(usage) = result.tokens {
                put_member(&mut members, "tokens", usage_value(usage));
            }
            if result.tokens_estimated {
                put_member(&mut members, "tokens_estimated", MetaValue::Flag(true));
            }
            put_optional_text(
                &mut members,
                "tokens_estimate_method",
                result.tokens_estimate_method,
            );
            if result.tokens_unavailable {
                put_member(&mut members, "tokens_unavailable", MetaValue::Flag(true));
            }
            put_optional_text(
                &mut members,
                "tokens_unavailable_reason",
                result.tokens_unavailable_reason,
            );
            if let Some(audit) = &result.tokens_estimate_evidence {
                put_member(&mut members, "tokens_estimate_evidence", audit.to_json_value());
            }
            let ghost after = member_trees(members@);
            assert(after == enriched_members(before, result@));
            let r = MetaValue::Record(members);
            assert(r@->Record_0 =~= after);
            r
        },
        other => other,
    }
}

/// Estimates the tokens of a tool and adds what was found out to its entry.
pub fn enrich_domain_entry(
    entry: MetaValue,
    display_name: &str,
    hours: Hours,
    shown: &str,
    sources: &LocalSources,
) -> (r: MetaValue)
    ensures
        r@ == enriched(
            entry@,
            domain_result(select_view(display_name@, hours, shown@, *sources)),
        ),
{
    enrich_entry(entry, estimate_domain_tokens(display_name, hours, shown, sources))
}

/// An entry that has been enriched is marked as estimated, with tokens, method and evidence, or
/// as unavailable, with reason and evidence and without tokens that it did not have before.
pub proof fn law_entry_is_honest(members: Seq<(Seq<char>, MetaTree)>, selection: SelectionView)
    ensures
        ({
            let d = domain_result(selection);
            let e = enriched(MetaTree::Record(members), d);
            &&& d.tokens_estimated ==> {
                &&& e.get("tokens_estimated"@) == Some(MetaTree::Flag(true))
                &&& e.get("tokens"@) == Some(usage_tree(usage_of(0, selection.audit.winner_tokens)))
                &&& e.get("tokens_estimate_method"@) is Some
                &&& e.get("tokens_estimate_evidence"@) == Some(audit_tree(selection.audit))
            }
            &&& d.tokens_unavailable ==> {
                &&& e.get("tokens_unavailable"@) == Some(MetaTree::Flag(true))
                &&& e.get("tokens_unavailable_reason"@) is Some
                &&& e.get("tokens"@) == MetaTree::Record(members).get("tokens"@)
                &&& e.get("tokens_estimate_evidence"@) == Some(audit_tree(selection.audit))
            }
            &&& d.tokens_estimated != d.tokens_unavailable
        }),
{
    let d = domain_result(selection);
    reveal_strlit("tokens");
    reveal_strlit("tokens_estimated");
    reveal_strlit("tokens_estimate_method");
    reveal_strlit("tokens_unavailable");
    reveal_strlit("tokens_unavailable_reason");
    reveal_strlit("tokens_estimate_evidence");
    assert("tokens_estimate_method"@.len() == 22);
    assert("tokens_estimated"@.len() == 16);
    assert("tokens_unavailable"@.len() == 18);
    assert("tokens_unavailable_reason"@.len() == 25);
    assert("tokens_estimate_evidence"@.len() == 24);
    assert forall|m: Seq<(Seq<char>, MetaTree)>, k: Seq<char>, v: MetaTree, o: Seq<char>|
        #![trigger crate::types::meta_member(meta_put(m, k, v), o)]
        crate::types::meta_member(meta_put(m, k, v), o) == if o == k {
            Some(v)
        } else {
            crate::types::meta_member(m, o)
        } by {
        law_put_is_found(m, k, v, o);
    }
}

/// The count under a key.
pub open spec fn count_under(t: MetaTree, key: Seq<char>) -> Option<u64> {
    match t.get(key) {
        Some(MetaTree::Count(n)) => Some(n),
        _ => None,
    }
}

/// The usage that a record writes, where it has all its counts.
pub open spec fn usage_from(t: MetaTree) -> Option<TokenUsage> {
    match (
        count_under(t, "input_tokens"@),
        count_under(t, "output_tokens"@),
        count_under(t, "cache_read_tokens"@),
        count_under(t, "cache_creation_tokens"@),
        count_under(t, "total"@),
    ) {
        (Some(i), Some(o), Some(r), Some(c), Some(n)) => Some(
            TokenUsage {
                input_tokens: i,
                output_tokens: o,
                cache_read_tokens: r,
                cache_creation_tokens: c,
                total: n,
            },
        ),
        _ => None,
    }
}

/// The usage that an entry adds to that of its browser: only what is marked as estimated.
pub open spec fn estimated_usage(entry: MetaTree) -> Option<TokenUsage> {
    if entry.get("tokens_estimated"@) == Some(MetaTree::Flag(true)) {
        match entry.get("tokens"@) {
            Some(t) => usage_from(t),
            None => None,
        }
    } else {
        None
    }
}

/// The usages of some entries added up.
pub open spec fn rolled_up(entries: Seq<MetaTree>) -> TokenSums
    decreases entries.len(),
{
    if entries.len() == 0 {
        TokenSums::zero()
    } else {
        let before = rolled_up(entries.drop_last());
        match estimated_usage(entries.last()) {
            Some(usage) => before.plus(usage.sums()),
            None => before,
        }
    }
}

/// Whether one of some entries has a usage to add.
pub open spec fn any_estimated(entries: Seq<MetaTree>) -> bool {
    exists|i: int| 0 <= i < entries.len() && estimated_usage(#[trigger] entries[i]) is Some
}

/// The trees of some details.
pub open spec fn meta_trees(values: Seq<MetaValue>) -> Seq<MetaTree> {
    values.map_values(|v: MetaValue| v@)
}

/// The usage of all entries that have one; nothing where none has.
pub open spec fn rollup(entries: Seq<MetaTree>) -> Option<TokenUsage> {
    if any_estimated(entries) {
        Some(rolled_up(entries).usage())
    } else {
        None
    }
}

fn count_at(t: &MetaValue, key: &str) -> (r: Option<u64>)
    ensures
        r == count_under(t@, key@),
{
    match t.get(key) {
        Some(v) => v.as_count(),
        None => None,
    }
}

/// The usage that an entry adds to that of its browser.
pub fn usage_of_entry(entry: &MetaValue) -> (r: Option<TokenUsage>)
    ensures
        r == estimated_usage(entry@),
{
    let estimated: bool = match entry.get("tokens_estimated") {
        Some(v) => match v.as_flag() {
            Some(b) => b,
            None => false,
        },
        None => false,
    };
    if !estimated {
        return None;
    }
    match entry.get("tokens") {
        Some(t) => match (
            count_at(t, "input_tokens"),
            count_at(t, "output_tokens"),
            count_at(t, "cache_read_tokens"),
            count_at(t, "cache_creation_tokens"),
            count_at(t, "total"),
        ) {
            (Some(i), Some(o), Some(r), Some(c), Some(n)) => Some(
                TokenUsage {
                    input_tokens: i,
                    output_tokens: o,
                    cache_read_tokens: r,
                    cache_creation_tokens: c,
                    total: n,
                },
            ),
            _ => None,
        },
        None => None,
    }
}

/// Adds up the estimated tokens of all entries; nothing where no entry has any.
pub fn rollup_domain_estimates(domains: &StrMap<MetaValue>) -> (r: Option<TokenUsage>)
    requires
        domains.wf(),
    ensures
        r == rollup(meta_trees(domains.items())),
{
    proof {
        domains.lemma_shape();
    }
    let n: usize = domains.len();
    let ghost all = meta_trees(domains.items());
    let mut total = TokenUsage::default();
    let mut any = false;
    let mut i: usize = 0;
    while i < n
        invariant
            domains.wf(),
            i <= n,
            n == domains.items().len(),
            n == domains.names().len(),
            all == meta_trees(domains.items()),
            total == rolled_up(all.take(i as int)).usage(),
            any == any_estimated(all.take(i as int)),
        decreases n - i,
    {
        let ghost before = all.take(i as int);
        let ghost after = all.take(i + 1);
        let entry = domains.value(i);
        proof {
            assert(after.drop_last() =~= before);
            assert(after.last() == entry@);
            if any_estimated(before) {
                let k = choose|k: int|
                    0 <= k < before.len() && estimated_usage(#[trigger] before[k]) is Some;
                assert(estimated_usage(after[k]) is Some);
            }
            if any_estimated(after) && estimated_usage(entry@) is None {
                let k = choose|k: int|
                    0 <= k < after.len() && estimated_usage(#[trigger] after[k]) is Some;
                assert(estimated_usage(before[k]) is Some);
            }
        }
        if let Some(usage) = usage_of_entry(entry) {
            proof {
                assert(estimated_usage(after[i as int]) is Some);
                crate::types::law_merge_adds_sums(rolled_up(before), usage.sums());
            }
            total.merge(&usage);
            any = true;
        }
        i += 1;
    }
    assert(all.take(n as int) =~= all);
    if any {
        Some(total)
    } else {
        None
    }
}

proof fn lemma_put_some(
    members: Seq<(Seq<char>, MetaTree)>,
    key: Seq<char>,
    value: Option<MetaTree>,
    other: Seq<char>,
)
    requires
        other != key,
    ensures
        MetaTree::Record(put_some(members, key, value)).get(other) == MetaTree::Record(members).get(
            other,
        ),
{
    if let Some(v) = value {
        law_put_is_found(members, key, v, other);
    }
}

/// What was found out about tokens leaves the rest of an entry as it is.
pub proof fn law_other_members_stay(
    members: Seq<(Seq<char>, MetaTree)>,
    d: DomainView,
    key: Seq<char>,
)
    requires
        key != "tokens"@,
        key != "tokens_estimated"@,
        key != "tokens_estimate_method"@,
        key != "tokens_unavailable"@,
        key != "tokens_unavailable_reason"@,
        key != "tokens_estimate_evidence"@,
    ensures
        enriched(MetaTree::Record(members), d).get(key) == MetaTree::Record(members).get(key),
{
    let usage = match d.tokens {
        Some(usage) => Some(usage_tree(usage)),
        None => None,
    };
    lemma_put_some(members, "tokens"@, usage, key);
    let m = put_some(members, "tokens"@, usage);
    lemma_put_some(m, "tokens_estimated"@, if_set(d.tokens_estimated), key);
    let m = put_some(m, "tokens_estimated"@, if_set(d.tokens_estimated));
    lemma_put_some(m, "tokens_estimate_method"@, text_tree(d.method), key);
    let m = put_some(m, "tokens_estimate_method"@, text_tree(d.method));
    lemma_put_some(m, "tokens_unavailable"@, if_set(d.tokens_unavailable), key);
    let m = put_some(m, "tokens_unavailable"@, if_set(d.tokens_unavailable));
    lemma_put_some(m, "tokens_unavailable_reason"@, text_tree(d.reason), key);
    let m = put_some(m, "tokens_unavailable_reason"@, text_tree(d.reason));
    lemma_put_some(
        m,
        "tokens_estimate_evidence"@,
        match d.evidence {
            Some(audit) => Some(audit_tree(audit)),
            None => None,
        },
        key,
    );
}

/// Estimates of entries add up: one more entry that is marked as estimated adds exactly its usage,
/// and one that is not adds nothing, whatever the others.
pub proof fn law_estimates_add_up(entries: Seq<MetaTree>, entry: MetaTree, usage: TokenUsage)
    ensures
        entry.get("tokens_estimated"@) == Some(MetaTree::Flag(true)) && entry.get("tokens"@) == Some(
            usage_tree(usage),
        ) && rollup(entries) is Some ==> rollup(entries.push(entry)) == Some(
            rollup(entries)->0.sums().plus(usage.sums()).usage(),
        ),
        entry.get("tokens_estimated"@) == Some(MetaTree::Flag(true)) && entry.get("tokens"@) == Some(
            usage_tree(usage),
        ) && rollup(entries) is None ==> rollup(entries.push(entry)) == Some(usage.sums().usage()),
        entry.get("tokens_estimated"@) != Some(MetaTree::Flag(true)) || entry.get("tokens"@) is None
            ==> rollup(entries.push(entry)) == rollup(entries),
        rollup(Seq::empty()) is None,
{
    let all = entries.push(entry);
    assert(all.drop_last() =~= entries);
    law_usage_reads_back(usage);
    let n = entries.len() as int;
    assert(any_estimated(all) <==> any_estimated(entries) || estimated_usage(entry) is Some) by {
        if any_estimated(entries) {
            let i = choose|i: int|
                0 <= i < entries.len() && estimated_usage(#[trigger] entries[i]) is Some;
            assert(estimated_usage(all[i]) is Some);
        }
        if estimated_usage(entry) is Some {
            assert(estimated_usage(all[n]) is Some);
        }
        if any_estimated(all) {
            let i = choose|i: int| 0 <= i < all.len() && estimated_usage(#[trigger] all[i]) is Some;
            if i < n {
                assert(estimated_usage(entries[i]) is Some);
            }
        }
    }
    if !any_estimated(entries) {
        lemma_none_rolled_up(entries);
    }
    crate::types::law_merge_adds_sums(rolled_up(entries), usage.sums());
    assert(usage.sums().usage().sums() == usage.sums());
}

proof fn lemma_none_rolled_up(entries: Seq<MetaTree>)
    requires
        !any_estimated(entries),
    ensures
        rolled_up(entries) == TokenSums::zero(),
    decreases entries.len(),
{
    if entries.len() > 0 {
        let before = entries.drop_last();
        assert(!any_estimated(before)) by {
            if any_estimated(before) {
                let i = choose|i: int|
                    0 <= i < before.len() && estimated_usage(#[trigger] before[i]) is Some;
                assert(estimated_usage(entries[i]) is Some);
            }
        }
        assert(estimated_usage(entries[entries.len() - 1]) is None);
        lemma_none_rolled_up(before);
    }
}

/// An entry adds to its browser what was decided for it: the tokens of the winner, as output, if they
/// were estimated, and nothing where none can be told.
pub proof fn law_entry_adds_its_estimate(
    members: Seq<(Seq<char>, MetaTree)>,
    selection: SelectionView,
)
    requires
        MetaTree::Record(members).get("tokens"@) is None,
        MetaTree::Record(members).get("tokens_estimated"@) is None,
    ensures
        ({
            let entry = enriched(MetaTree::Record(members), domain_result(selection));
            let tokens = selection.audit.winner_tokens;
            &&& selection.unavailable ==> estimated_usage(entry) is None
            &&& !selection.unavailable ==> estimated_usage(entry) == Some(
                TokenUsage {
                    input_tokens: 0,
                    output_tokens: tokens,
                    cache_read_tokens: 0,
                    cache_creation_tokens: 0,
                    total: tokens,
                },
            )
        }),
{
    law_entry_is_honest(members, selection);
    let d = domain_result(selection);
    law_usage_reads_back(usage_of(0, selection.audit.winner_tokens));
    if selection.unavailable {
        assert(d.tokens is None);
        assert(if_set(d.tokens_estimated) is None);
        let key = "tokens_estimated"@;
        reveal_strlit("tokens_estimated");
        reveal_strlit("tokens_unavailable");
        reveal_strlit("tokens_unavailable_reason");
        reveal_strlit("tokens_estimate_evidence");
        assert("tokens_estimated"@.len() == 16);
        assert("tokens_unavailable"@.len() == 18);
        assert("tokens_unavailable_reason"@.len() == 25);
        assert("tokens_estimate_evidence"@.len() == 24);
        lemma_put_some(members, "tokens_unavailable"@, if_set(true), key);
        let m = put_some(members, "tokens_unavailable"@, if_set(true));
        lemma_put_some(m, "tokens_unavailable_reason"@, text_tree(d.reason), key);
        let m = put_some(m, "tokens_unavailable_reason"@, text_tree(d.reason));
        lemma_put_some(m, "tokens_estimate_evidence"@, Some(audit_tree(selection.audit)), key);
    }
}

/// An entry tells how its tokens were estimated, or why none can be told, in the words of the decision.
pub proof fn law_entry_tells_its_reason(
    members: Seq<(Seq<char>, MetaTree)>,
    selection: SelectionView,
    words: Seq<char>,
)
    ensures
        !selection.unavailable && selection.method == Some(words) ==> enriched(
            MetaTree::Record(members),
            domain_result(selection),
        ).get("tokens_estimate_method"@) == Some(MetaTree::Text(words)),
        selection.unavailable && selection.unavailable_reason == Some(words) ==> enriched(
            MetaTree::Record(members),
            domain_result(selection),
        ).get("tokens_unavailable_reason"@) == Some(MetaTree::Text(words)),
{
    let d = domain_result(selection);
    let usage = match d.tokens {
        Some(usage) => Some(usage_tree(usage)),
        None => None,
    };
    let evidence = Some(audit_tree(selection.audit));
    let m1 = put_some(members, "tokens"@, usage);
    let m2 = put_some(m1, "tokens_estimated"@, if_set(d.tokens_estimated));
    let m3 = put_some(m2, "tokens_estimate_method"@, text_tree(d.method));
    let m4 = put_some(m3, "tokens_unavailable"@, if_set(d.tokens_unavailable));
    let m5 = put_some(m4, "tokens_unavailable_reason"@, text_tree(d.reason));
    reveal_strlit("tokens_estimate_method");
    reveal_strlit("tokens_unavailable");
    reveal_strlit("tokens_unavailable_reason");
    reveal_strlit("tokens_estimate_evidence");
    assert("tokens_estimate_method"@.len() == 22);
    assert("tokens_unavailable"@.len() == 18);
    assert("tokens_unavailable_reason"@.len() == 25);
    assert("tokens_estimate_evidence"@.len() == 24);
    if !selection.unavailable && selection.method == Some(words) {
        let key = "tokens_estimate_method"@;
        law_put_is_found(m2, key, MetaTree::Text(words), key);
        lemma_put_some(m3, "tokens_unavailable"@, if_set(d.tokens_unavailable), key);
        lemma_put_some(m4, "tokens_unavailable_reason"@, text_tree(d.reason), key);
        lemma_put_some(m5, "tokens_estimate_evidence"@, evidence, key);
    }
    if selection.unavailable && selection.unavailable_reason == Some(words) {
        let key = "tokens_unavailable_reason"@;
        law_put_is_found(m4, key, MetaTree::Text(words), key);
        lemma_put_some(m5, "tokens_estimate_evidence"@, evidence, key);
    }
}

/// Three tools keep messages in a folder of IndexedDB of their own; of any other none is known.
pub proof fn law_three_tools_have_a_folder(name: Seq<char>)
    ensures
        name == "ChatGPT"@ ==> idb_folder(name) == Some("https_chatgpt.com_0.indexeddb.leveldb"@),
        name == "Lovable"@ ==> idb_folder(name) == Some("https_lovable.dev_0.indexeddb.leveldb"@),
        name == "Grok"@ ==> idb_folder(name) == Some("https_x.com_0.indexeddb.leveldb"@),
        name != "ChatGPT"@ && name != "Lovable"@ && name != "Grok"@ ==> idb_folder(name) is None,
{
    reveal_strlit("ChatGPT");
    reveal_strlit("Lovable");
    reveal_strlit("Grok");
    assert("ChatGPT"@[0] == 'C' && "Lovable"@[0] == 'L' && "Grok"@[0] == 'G');
}

/// A key is that of a message, or of a place where messages stand, by its name alone.
pub proof fn law_message_keys_are_known()
    ensures
        is_field("text"@) && is_field("content"@) && is_field("message"@) && is_field("body"@),
        is_field("markdown"@) && is_field("richText"@) && is_field("parts"@) && is_field("value"@),
        is_field("prompt"@),
        is_container("messages"@) && is_container("message"@) && is_container("conversation"@),
        is_container("conversations"@) && is_container("chat"@) && is_container("mapping"@),
        is_container("items"@) && is_container("history"@) && is_container("thread"@),
        is_container("turns"@),
{
}

/// How much a transcript has to show for active time: half an hour or more asks for 1000 tokens an
/// hour, and never fewer than 500. Any transcript needs 200 bytes.
pub proof fn law_transcript_is_believed(
    hours: Hours,
    shown: Seq<char>,
    bytes: usize,
    tokens: u64,
)
    ensures
        bytes < 200 ==> quality_failure(hours, shown, bytes, tokens) is Some,
        bytes >= 200 && hours.seconds < 1800 ==> quality_failure(hours, shown, bytes, tokens) is None,
        bytes >= 200 && tokens < 500 && hours.seconds >= 1800 ==> quality_failure(
            hours,
            shown,
            bytes,
            tokens,
        ) is Some,
        bytes >= 200 && hours.seconds >= 1800 && (tokens + 1) * 3600 <= hours.seconds * 1000
            && tokens < u64::MAX ==> quality_failure(hours, shown, bytes, tokens) is Some,
        bytes >= 200 && tokens >= 500 && tokens * 3600 >= hours.seconds * 1000 ==> quality_failure(
            hours,
            shown,
            bytes,
            tokens,
        ) is None,
{
}

/// A message counts wherever it stands: in any database of a folder, in a key or in a value.
pub proof fn law_transcript_holds_every_message(
    stores: Seq<Vec<(Vec<u8>, Vec<u8>)>>,
    i: int,
    k: int,
    text: Seq<char>,
)
    requires
        0 <= i < stores.len(),
        0 <= k < stores[i]@.len(),
        messages_in_bytes(stores[i]@[k].0@).contains(text) || messages_in_bytes(
            stores[i]@[k].1@,
        ).contains(text),
    ensures
        transcript(stores).contains(text),
{
    lemma_entry_holds(stores[i]@, k, text);
    lemma_store_holds(stores, i, text);
    crate::harvest::law_merged_holds_all(Seq::empty(), messages_in_stores(stores), text);
}

proof fn lemma_either_holds(a: Seq<Seq<char>>, b: Seq<Seq<char>>, text: Seq<char>)
    ensures
        (a + b).contains(text) <==> a.contains(text) || b.contains(text),
{
    let all = a + b;
    if a.contains(text) {
        assert(all[a.index_of(text)] == text);
    }
    if b.contains(text) {
        assert(all[a.len() + b.index_of(text)] == text);
    }
    if all.contains(text) {
        let i = all.index_of(text);
        if i < a.len() {
            assert(a[i] == text);
        } else {
            assert(b[i - a.len()] == text);
        }
    }
}

proof fn lemma_entry_holds(entries: Seq<(Vec<u8>, Vec<u8>)>, k: int, text: Seq<char>)
    requires
        0 <= k < entries.len(),
        messages_in_bytes(entries[k].0@).contains(text) || messages_in_bytes(
            entries[k].1@,
        ).contains(text),
    ensures
        messages_in_entries(entries).contains(text),
    decreases entries.len(),
{
    let before = entries.drop_last();
    let known = messages_in_entries(before);
    let a = messages_in_bytes(entries.last().0@);
    let b = messages_in_bytes(entries.last().1@);
    if k < before.len() {
        assert(before[k] == entries[k]);
        lemma_entry_holds(before, k, text);
    }
    lemma_either_holds(known, a, text);
    lemma_either_holds(known + a, b, text);
}

proof fn lemma_store_holds(stores: Seq<Vec<(Vec<u8>, Vec<u8>)>>, i: int, text: Seq<char>)
    requires
        0 <= i < stores.len(),
        messages_in_entries(stores[i]@).contains(text),
    ensures
        messages_in_stores(stores).contains(text),
    decreases stores.len(),
{
    let before = stores.drop_last();
    if i < before.len() {
        assert(before[i] == stores[i]);
        lemma_store_holds(before, i, text);
    }
    lemma_either_holds(messages_in_stores(before), messages_in_entries(stores.last()@), text);
}

/// A message is found under every message field and below every message container, however deep, and
/// nowhere else: a text counts if it may be a message and stands in such a place, items are looked
/// at like their list, and a member is looked at only where its key or its place says so.
pub proof fn law_messages_stand_in_their_places(
    s: Seq<char>,
    items: Seq<JsonTree>,
    item: JsonTree,
    members: Seq<(Seq<char>, JsonTree)>,
    member: (Seq<char>, JsonTree),
    within: bool,
)
    ensures
        messages_in(JsonTree::Text(s), true) == if is_plausible(s) {
            seq![s]
        } else {
            Seq::empty()
        },
        messages_in(JsonTree::Text(s), false) == Seq::<Seq<char>>::empty(),
        messages_in(JsonTree::Array(items.push(item)), within) == messages_in(
            JsonTree::Array(items),
            within,
        ) + messages_in(item, within),
        within || is_field(member.0) || is_container(member.0) ==> messages_in(
            JsonTree::Object(members.push(member)),
            within,
        ) == messages_in(JsonTree::Object(members), within) + messages_in(member.1, true),
        !within && !is_field(member.0) && !is_container(member.0) ==> messages_in(
            JsonTree::Object(members.push(member)),
            within,
        ) == messages_in(JsonTree::Object(members), within),
        messages_in(JsonTree::Array(Seq::empty()), within).len() == 0,
        messages_in(JsonTree::Object(Seq::empty()), within).len() == 0,
{
    assert(items.push(item).drop_last() =~= items);
    assert(members.push(member).drop_last() =~= members);
    let known = messages_in_members(members, within);
    assert(known + Seq::<Seq<char>>::empty() =~= known);
}

/// What may be a message is at least 12 bytes long without the white space around it, has at least 8
/// letters, a space or at least 24 letters, at most 2 characters that could not be read, and no mark
/// of a certificate or of a key in it.
pub proof fn law_messages_are_readable(s: Seq<char>)
    ensures
        is_plausible(s) ==> byte_len(trimmed(s)) >= 12,
        is_plausible(s) ==> letters(trimmed(s)) >= 8,
        is_plausible(s) && !trimmed(s).contains(' ') ==> letters(trimmed(s)) >= 24,
        is_plausible(s) ==> unreadable(trimmed(s)) <= 2,
        has_part(trimmed(s), "BEGIN CERTIFICATE"@) || has_part(trimmed(s), "BEGIN PRIVATE KEY"@)
            || has_part(trimmed(s), "MIGHAg"@) || has_part(trimmed(s), "MIIBF"@) ==> !is_plausible(
            s,
        ),
        byte_len(trimmed(s)) >= 12 && byte_len(trimmed(s)) < 40 && letters(trimmed(s)) >= 8
            && trimmed(s).contains(' ') && unreadable(trimmed(s)) <= 2 && !has_part(
            trimmed(s),
            "BEGIN CERTIFICATE"@,
        ) && !has_part(trimmed(s), "BEGIN PRIVATE KEY"@) && !has_part(trimmed(s), "MIGHAg"@)
            && !has_part(trimmed(s), "MIIBF"@) ==> is_plausible(s),
        byte_len(trimmed(s)) >= 40 && base64_like(trimmed(s)) * 100 > 92 * byte_len(trimmed(s))
            && letters_and_numbers(trimmed(s)) > 30 ==> !is_plausible(s),
        byte_len(trimmed(s)) >= 40 && base64_like(trimmed(s)) * 100 <= 92 * byte_len(trimmed(s))
            && letters(trimmed(s)) >= 24 && unreadable(trimmed(s)) <= 2 && !has_part(
            trimmed(s),
            "BEGIN CERTIFICATE"@,
        ) && !has_part(trimmed(s), "BEGIN PRIVATE KEY"@) && !has_part(trimmed(s), "MIGHAg"@)
            && !has_part(trimmed(s), "MIIBF"@) ==> is_plausible(s),
{
}

proof fn lemma_count_filter(s: Seq<char>, kind: spec_fn(char) -> bool)
    ensures
        count_of(s, kind) == s.filter(kind).len(),
    decreases s.len(),
{
    reveal(Seq::filter);
    if s.len() > 0 {
        let before = s.drop_last();
        lemma_count_filter(before, kind);
        assert(s =~= before.push(s.last()));
        before.lemma_filter_push(s.last(), kind);
    }
}

/// Characters are counted one by one: the letters of a text are as many as the text keeps when all
/// else is taken out.
pub proof fn law_letters_are_counted(s: Seq<char>)
    ensures
        letters(s) == s.filter(|c: char| is_letter(c)).len(),
        letters_and_numbers(s) == s.filter(|c: char| is_letter_or_number(c)).len(),
        base64_like(s) == s.filter(
            |c: char| is_letter_or_number(c) || c == '+' || c == '/' || c == '=',
        ).len(),
        unreadable(s) == s.filter(|c: char| c == '\u{fffd}').len(),
{
    lemma_count_filter(s, |c: char| is_letter(c));
    lemma_count_filter(s, |c: char| is_letter_or_number(c));
    lemma_count_filter(s, |c: char| is_letter_or_number(c) || c == '+' || c == '/' || c == '=');
    lemma_count_filter(s, |c: char| c == '\u{fffd}');
}

/// Fragments are read one by one: one more that is JSON adds the messages in it, and any other
/// nothing. Stored bytes are looked through for objects of at least 20 bytes.
pub proof fn law_fragments_are_read(parts: Seq<Seq<char>>, part: Seq<char>, bytes: Seq<u8>)
    ensures
        json_document(part) is Some ==> messages_in_fragments(parts.push(part))
            == messages_in_fragments(parts) + messages_in(json_document(part)->0, false),
        json_document(part) is None ==> messages_in_fragments(parts.push(part))
            == messages_in_fragments(parts),
        messages_in_bytes(bytes) == messages_in_fragments(
            fragments(utf8_lossy(bytes), false, 20),
        ),
{
    assert(parts.push(part).drop_last() =~= parts);
    let known = messages_in_fragments(parts);
    assert(known + Seq::<Seq<char>>::empty() =~= known);
}

/// A usage that was written as a record is read back as it was.
pub proof fn law_usage_reads_back(usage: TokenUsage)
    ensures
        usage_from(usage_tree(usage)) == Some(usage),
{
    reveal_strlit("input_tokens");
    reveal_strlit("output_tokens");
    reveal_strlit("cache_read_tokens");
    reveal_strlit("cache_creation_tokens");
    reveal_strlit("total");
    assert("input_tokens"@.len() == 12);
    assert("output_tokens"@.len() == 13);
    assert("cache_read_tokens"@.len() == 17);
    assert("cache_creation_tokens"@.len() == 21);
    assert("total"@.len() == 5);
    let m = usage_tree(usage)->Record_0;
    reveal_with_fuel(crate::types::meta_member, 6);
    assert(m.drop_first()[0] == m[1]);
    assert(m.drop_first().drop_first()[0] == m[2]);
    assert(m.drop_first().drop_first().drop_first()[0] == m[3]);
    assert(m.drop_first().drop_first().drop_first().drop_first()[0] == m[4]);
}

} // verus!
