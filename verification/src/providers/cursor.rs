//! Cursor IDE: composers, accepted lines and chat bubbles in its state database.

use crate::collections::StrMap;
use crate::json::{json_document, parse_json, trees, Json, JsonTree};
use crate::text::{
    ascii_lower, blank, chars_of, find_part, is_blank, join, joined, lemma_place_of, parse_count,
    place_of, slice_of, small, small_char, stands_at, str_opt, text_opt, texts, written_count,
};
use crate::time_util::{
    active_seconds, build_daily_buckets, buckets_of, day_events, first_time, half_hour_activity,
    iso8601_to_unix, iso_seconds, last_time, lemma_half_hour, sorted_times, time_range, DayEvent,
};
use crate::token_estimate::{count_all_tokens, raw_count};
use crate::types::{
    capped, lemma_total_push, total, Hours, MetaTree, MetaValue, ProviderReport, ProviderResult,
    TokenSums, TokenUsage,
};
use vstd::prelude::*;

verus! {

pub struct CursorProvider;

/// How tokens are estimated. Cursor logs no usage on this machine.
pub const ESTIMATE_METHOD: &'static str =
    "cl100k_base tokenizer over locally stored bubble text (text, thinking, toolFormerData params/result, attachedCodeChunks). Excludes server-side context, cache reads, and bubbles with no stored text. Not per-project.";

/// A bubble of a chat as the database holds it.
pub struct BubbleRow {
    pub key: String,
    pub value: String,
}

/// What a row says.
#[verifier::ext_equal]
pub ghost struct BubbleView {
    pub key: Seq<char>,
    pub value: Seq<char>,
}

impl View for BubbleRow {
    type V = BubbleView;

    open spec fn view(&self) -> BubbleView {
        BubbleView { key: self.key@, value: self.value@ }
    }
}

/// What some rows say.
pub open spec fn bubble_views(rows: Seq<BubbleRow>) -> Seq<BubbleView> {
    rows.map_values(|r: BubbleRow| r@)
}

/// Every bubble is read, in order and as it is.
pub proof fn law_every_bubble_is_read(rows: Seq<BubbleRow>, i: int)
    requires
        0 <= i < rows.len(),
    ensures
        bubble_views(rows).len() == rows.len(),
        bubble_views(rows)[i].key == rows[i].key@,
        bubble_views(rows)[i].value == rows[i].value@,
{
}

/// A text as the only part, if it is there and not blank.
pub open spec fn if_written(text: Option<Seq<char>>) -> Seq<Seq<char>> {
    match text {
        Some(t) if !is_blank(t) => seq![t],
        _ => Seq::empty(),
    }
}

/// A text as the only part, if it is there and not empty.
pub open spec fn if_any(text: Option<Seq<char>>) -> Seq<Seq<char>> {
    match text {
        Some(t) if t.len() > 0 => seq![t],
        _ => Seq::empty(),
    }
}

/// The text under a key of the value under a key.
pub open spec fn text_in(v: JsonTree, outer: Seq<char>, inner: Seq<char>) -> Option<Seq<char>> {
    match v.get(outer) {
        Some(x) => x.text_at(inner),
        None => None,
    }
}

/// What was written in a bubble: its text, or the rich text where that is blank.
pub open spec fn lead_parts(v: JsonTree) -> Seq<Seq<char>> {
    if if_written(v.text_at("text"@)).len() > 0 {
        if_written(v.text_at("text"@))
    } else {
        if_written(v.text_at("richText"@))
    }
}

/// The texts of a piece of code that is attached to a bubble.
pub open spec fn chunk_parts(chunk: JsonTree) -> Seq<Seq<char>> {
    if_any(chunk.text_at("content"@)) + if_any(chunk.text_at("text"@)) + if_any(
        chunk.text_at("code"@),
    )
}

/// The texts of some pieces of code.
pub open spec fn all_chunk_parts(chunks: Seq<JsonTree>) -> Seq<Seq<char>>
    decreases chunks.len(),
{
    if chunks.len() == 0 {
        Seq::empty()
    } else {
        all_chunk_parts(chunks.drop_last()) + chunk_parts(chunks.last())
    }
}

/// All texts of a bubble.
pub open spec fn bubble_parts(v: JsonTree) -> Seq<Seq<char>> {
    lead_parts(v) + if_written(text_in(v, "thinking"@, "text"@)) + if_written(
        text_in(v, "toolFormerData"@, "params"@),
    ) + if_written(text_in(v, "toolFormerData"@, "result"@)) + match v.items_at(
        "attachedCodeChunks"@,
    ) {
        Some(chunks) => all_chunk_parts(chunks),
        None => Seq::empty(),
    }
}

/// The text of a bubble.
pub open spec fn bubble_text(v: JsonTree) -> Seq<char> {
    joined(bubble_parts(v), "\n"@)
}

/// Whether a key is that of a bubble, be its prefix in small letters or capitals.
pub open spec fn is_bubble_key(key: Seq<char>) -> bool {
    key.len() >= 9 && ascii_lower(key.take(9)) == "bubbleid:"@
}

/// The composer that a key `bubbleId:<composer>:<bubble>` names.
pub open spec fn composer_of(key: Seq<char>) -> Option<Seq<char>> {
    if "bubbleId:"@.is_prefix_of(key) {
        let rest = key.skip("bubbleId:"@.len() as int);
        match place_of(rest, ":"@, 0) {
            Some(i) if i > 0 => Some(rest.take(i)),
            _ => None,
        }
    } else {
        None
    }
}

/// A bubble that counts: its tokens, whether a user wrote it, when, and in which composer.
#[verifier::ext_equal]
pub ghost struct Bubble {
    pub tokens: u64,
    pub by_user: bool,
    pub time: Option<i64>,
    pub composer: Option<Seq<char>>,
}

/// When a bubble was made.
pub open spec fn bubble_time(v: JsonTree) -> Option<i64> {
    match v.text_at("createdAt"@) {
        Some(text) => iso_seconds(text),
        None => None,
    }
}

/// What a row comes to; nothing where it is no bubble or holds no text that counts.
pub open spec fn bubble_of(row: BubbleView) -> Option<Bubble> {
    match json_document(row.value) {
        Some(v) => {
            let text = bubble_text(v);
            if is_bubble_key(row.key) && text.len() > 0 && raw_count(text) > 0 {
                Some(
                    Bubble {
                        tokens: raw_count(text),
                        by_user: v.signed_at("type"@) == Some(1i64),
                        time: bubble_time(v),
                        composer: composer_of(row.key),
                    },
                )
            } else {
                None
            }
        },
        None => None,
    }
}

/// The bubbles of some rows.
pub open spec fn bubbles(rows: Seq<BubbleView>) -> Seq<Bubble>
    decreases rows.len(),
{
    if rows.len() == 0 {
        Seq::empty()
    } else {
        match bubble_of(rows.last()) {
            Some(b) => bubbles(rows.drop_last()).push(b),
            None => bubbles(rows.drop_last()),
        }
    }
}

/// The tokens of the bubbles that a user wrote, or of the others.
pub open spec fn tokens_by(bubbles: Seq<Bubble>, user: bool) -> nat
    decreases bubbles.len(),
{
    if bubbles.len() == 0 {
        0
    } else {
        tokens_by(bubbles.drop_last(), user) + if bubbles.last().by_user == user {
            bubbles.last().tokens as nat
        } else {
            0
        }
    }
}

/// What counts on the days of some bubbles.
pub open spec fn bubble_events(bubbles: Seq<Bubble>) -> Seq<DayEvent>
    decreases bubbles.len(),
{
    if bubbles.len() == 0 {
        Seq::empty()
    } else {
        let before = bubble_events(bubbles.drop_last());
        let b = bubbles.last();
        match b.time {
            Some(ts) => before.push(DayEvent { ts, tokens: b.tokens, session: b.composer }),
            None => before,
        }
    }
}

/// What some bubbles come to: what users wrote is input, all else is output.
pub open spec fn bubble_usage(bubbles: Seq<Bubble>) -> TokenUsage {
    TokenSums {
        input: tokens_by(bubbles, true),
        output: tokens_by(bubbles, false),
        ..TokenSums::zero()
    }.usage()
}

/// The tokens of all bubbles are what users wrote and what they did not.
pub proof fn law_bubbles_split(all: Seq<Bubble>)
    ensures
        tokens_by(all, true) + tokens_by(all, false) == summed_tokens(all),
    decreases all.len(),
{
    if all.len() > 0 {
        law_bubbles_split(all.drop_last());
    }
}

/// The tokens of some bubbles.
pub open spec fn summed_tokens(bubbles: Seq<Bubble>) -> nat
    decreases bubbles.len(),
{
    if bubbles.len() == 0 {
        0
    } else {
        summed_tokens(bubbles.drop_last()) + bubbles.last().tokens as nat
    }
}

fn push_written(parts: &mut Vec<String>, text: Option<&str>)
    ensures
        texts(final(parts)@) == texts(old(parts)@) + if_written(str_opt(text)),
{
    let ghost before = texts(parts@);
    if let Some(t) = text {
        if !blank(t) {
            parts.push(t.to_string());
        }
    }
    assert(texts(parts@) =~= before + if_written(str_opt(text)));
}

fn push_any(parts: &mut Vec<String>, text: Option<&str>)
    ensures
        texts(final(parts)@) == texts(old(parts)@) + if_any(str_opt(text)),
{
    let ghost before = texts(parts@);
    if let Some(t) = text {
        if !t.is_empty() {
            parts.push(t.to_string());
        }
    }
    assert(texts(parts@) =~= before + if_any(str_opt(text)));
}

fn text_within<'a>(v: &'a Json, outer: &str, inner: &str) -> (r: Option<&'a str>)
    ensures
        str_opt(r) == text_in(v@, outer@, inner@),
{
    match v.get(outer) {
        Some(x) => x.text_at(inner),
        None => None,
    }
}

/// All text of a bubble that is stored on this machine.
pub fn collect_bubble_text(obj: &Json) -> (r: String)
    ensures
        r@ == bubble_text(obj@),
{
    let mut parts: Vec<String> = Vec::new();
    push_written(&mut parts, obj.text_at("text"));
    assert(texts(parts@) =~= if_written(obj@.text_at("text"@)));
    if parts.len() == 0 {
        push_written(&mut parts, obj.text_at("richText"));
    }
    assert(texts(parts@) =~= lead_parts(obj@));
    push_written(&mut parts, text_within(obj, "thinking", "text"));
    push_written(&mut parts, text_within(obj, "toolFormerData", "params"));
    push_written(&mut parts, text_within(obj, "toolFormerData", "result"));
    let ghost before = texts(parts@);
    if let Some(chunks) = obj.items_at("attachedCodeChunks") {
        let ghost all = trees(chunks@);
        let mut i: usize = 0;
        assert(before + all_chunk_parts(all.take(0)) =~= before);
        while i < chunks.len()
            invariant
                i <= chunks@.len(),
                all == trees(chunks@),
                texts(parts@) == before + all_chunk_parts(all.take(i as int)),
            decreases chunks@.len() - i,
        {
            proof {
                assert(all.take(i + 1).drop_last() =~= all.take(i as int));
                assert(all.take(i + 1).last() == chunks@[i as int]@);
            }
            let chunk = &chunks[i];
            push_any(&mut parts, chunk.text_at("content"));
            push_any(&mut parts, chunk.text_at("text"));
            push_any(&mut parts, chunk.text_at("code"));
            i += 1;
            assert(texts(parts@) =~= before + all_chunk_parts(all.take(i as int)));
        }
        assert(all.take(i as int) =~= all);
    }
    assert(texts(parts@) =~= bubble_parts(obj@));
    join(&parts, "\n")
}

/// The composer that a key `bubbleId:<composer>:<bubble>` names.
pub fn bubble_composer_id(key: &str) -> (r: Option<String>)
    ensures
        text_opt(r) == composer_of(key@),
{
    let chars = chars_of(key);
    let prefix = chars_of("bubbleId:");
    let colon = chars_of(":");
    let n: usize = prefix.len();
    assert("bubbleId:"@.is_prefix_of(key@) == stands_at(key@, "bubbleId:"@, 0));
    if !crate::text::part_at(chars.as_slice(), prefix.as_slice(), 0) {
        return None;
    }
    let ghost rest = key@.skip(n as int);
    let mut tail: Vec<char> = Vec::new();
    let mut i: usize = n;
    while i < chars.len()
        invariant
            n <= i <= chars@.len(),
            chars@ == key@,
            rest == key@.skip(n as int),
            tail@ == rest.take(i - n),
        decreases chars@.len() - i,
    {
        tail.push(chars[i]);
        i += 1;
        assert(tail@ =~= rest.take(i - n));
    }
    assert(tail@ =~= rest);
    proof {
        lemma_place_of(rest, ":"@, 0);
    }
    match find_part(tail.as_slice(), colon.as_slice(), 0) {
        Some(i) => {
            if i == 0 {
                None
            } else {
                let r = slice_of(tail.as_slice(), 0, i);
                assert(r@ =~= rest.take(i as int));
                Some(r)
            }
        },
        None => None,
    }
}

fn names_bubble(key: &str) -> (r: bool)
    ensures
        r == is_bubble_key(key@),
{
    let chars = chars_of(key);
    let prefix = chars_of("bubbleid:");
    proof {
        reveal_strlit("bubbleid:");
    }
    if chars.len() < 9 {
        return false;
    }
    let mut i: usize = 0;
    while i < 9
        invariant
            i <= 9,
            chars@ == key@,
            chars@.len() >= 9,
            prefix@ == "bubbleid:"@,
            prefix@.len() == 9,
            forall|k: int| 0 <= k < i ==> small(#[trigger] chars@[k]) == prefix@[k],
        decreases 9 - i,
    {
        if small_char(chars[i]) != prefix[i] {
            assert(ascii_lower(key@.take(9))[i as int] != prefix@[i as int]);
            return false;
        }
        i += 1;
    }
    assert(ascii_lower(key@.take(9)) =~= prefix@);
    true
}

/// The tokens of all bubbles, estimated from their text, and the events of the bubbles.
///
/// * A bubble stands once in the database and counts once.
/// * What users wrote (type 1) is input; text, thinking and tool results of the assistant are
///   output.
/// * Token counts that Cursor stores are not used: they are zero throughout.
pub fn extract_bubble_tokens(rows: &Vec<BubbleRow>) -> (r: (
    TokenUsage,
    Vec<(i64, u64, Option<String>)>,
))
    ensures
        r.0 == bubble_usage(bubbles(bubble_views(rows@))),
        day_events(r.1@) == bubble_events(bubbles(bubble_views(rows@))),
{
    let mut input: u64 = 0;
    let mut output: u64 = 0;
    let mut events: Vec<(i64, u64, Option<String>)> = Vec::new();
    let ghost all = bubble_views(rows@);
    let mut i: usize = 0;
    proof {
        assert(day_events(events@) =~= bubble_events(bubbles(all.take(0))));
    }
    while i < rows.len()
        invariant
            i <= rows@.len(),
            all == bubble_views(rows@),
            input == capped(tokens_by(bubbles(all.take(i as int)), true) as int),
            output == capped(tokens_by(bubbles(all.take(i as int)), false) as int),
            day_events(events@) == bubble_events(bubbles(all.take(i as int))),
        decreases rows@.len() - i,
    {
        let row = &rows[i];
        let ghost before = bubbles(all.take(i as int));
        proof {
            assert(all.take(i + 1).drop_last() =~= all.take(i as int));
            assert(all.take(i + 1).last() == rows@[i as int]@);
        }
        i += 1;
        let document = parse_json(row.value.as_str());
        if let Some(v) = &document {
            if names_bubble(row.key.as_str()) {
                let text = collect_bubble_text(v);
                if !text.as_str().is_empty() {
                    let count: u64 = count_all_tokens(text.as_str());
                    if count != 0 {
                        let ghost bubble = bubble_of(row@)->0;
                        assert(before.push(bubble).drop_last() =~= before);
                        let by_user: bool = match v.signed_at("type") {
                            Some(n) => n == 1,
                            None => false,
                        };
                        if by_user {
                            input = input.saturating_add(count);
                        } else {
                            output = output.saturating_add(count);
                        }
                        let time: Option<i64> = match v.text_at("createdAt") {
                            Some(text) => iso8601_to_unix(text),
                            None => None,
                        };
                        if let Some(ts) = time {
                            let ghost known = day_events(events@);
                            let composer = bubble_composer_id(row.key.as_str());
                            events.push((ts, count, composer));
                            assert(day_events(events@) =~= known.push(
                                DayEvent { ts, tokens: count, session: text_opt(composer) },
                            ));
                        }
                    }
                }
            }
        }
    }
    assert(all.take(i as int) =~= all);
    let mut usage = TokenUsage {
        input_tokens: input,
        output_tokens: output,
        cache_read_tokens: 0,
        cache_creation_tokens: 0,
        total: 0,
    };
    usage.compute_total();
    (usage, events)
}

/// When a composer was made. A time that is not from 2020 to 2033 is not believed.
pub open spec fn composer_time(value: Seq<char>) -> Option<i64> {
    match json_document(value) {
        Some(v) => match v.signed_at("createdAt"@) {
            Some(ms) => if 1_577_836_800 <= ms / 1000 <= 2_000_000_000 {
                Some((ms / 1000) as i64)
            } else {
                None
            },
            None => None,
        },
        None => None,
    }
}

/// The times of some composers.
pub open spec fn composer_times(values: Seq<Seq<char>>) -> Seq<i64>
    decreases values.len(),
{
    if values.len() == 0 {
        Seq::empty()
    } else {
        match composer_time(values.last()) {
            Some(ts) => composer_times(values.drop_last()).push(ts),
            None => composer_times(values.drop_last()),
        }
    }
}

/// What counts on the days of composers: that they were made.
pub open spec fn composer_events(times: Seq<i64>) -> Seq<DayEvent> {
    times.map_values(|ts: i64| DayEvent { ts, tokens: 0, session: None })
}

/// The accepted lines that a value of the daily statistics counts.
pub open spec fn accepted_lines(value: Seq<char>) -> nat {
    match json_document(value) {
        Some(v) => v.count_at("accepted"@) as nat + match v.unsigned() {
            Some(n) => n as nat,
            None => 0,
        },
        None => match written_count(value) {
            Some(n) => n as nat,
            None => 0,
        },
    }
}

/// The accepted lines of all days.
pub open spec fn all_accepted_lines(values: Seq<Seq<char>>) -> nat
    decreases values.len(),
{
    if values.len() == 0 {
        0
    } else {
        all_accepted_lines(values.drop_last()) + accepted_lines(values.last())
    }
}

/// What Cursor reports.
pub open spec fn cursor_report(
    composers: Seq<Seq<char>>,
    stats: Seq<Seq<char>>,
    rows: Seq<BubbleView>,
) -> ProviderReport {
    let times = composer_times(composers);
    let lines = capped(all_accepted_lines(stats) as int);
    let chat = bubbles(rows);
    let estimated = bubble_usage(chat).total > 0;
    let buckets = buckets_of(composer_events(times) + bubble_events(chat));
    ProviderReport {
        hours: Some(Hours { seconds: active_seconds(sorted_times(times), 1800) as u128 }),
        sessions: Some(times.len() as u64),
        first_seen: first_time(times),
        last_seen: last_time(times),
        metadata: if lines > 0 {
            Some(Map::empty().insert("accepted_lines"@, MetaTree::Count(lines)))
        } else {
            None
        },
        tokens: if estimated {
            Some(bubble_usage(chat))
        } else {
            None
        },
        tokens_estimated: estimated,
        tokens_estimate_method: if estimated {
            Some(ESTIMATE_METHOD@)
        } else {
            None
        },
        daily_buckets: if buckets =~= Map::empty() {
            None
        } else {
            Some(buckets)
        },
        ..ProviderReport::blank("Cursor IDE"@)
    }
}

/// Whatever is in the database, tokens of Cursor are reported as estimates, with the method.
pub proof fn law_tokens_are_estimates(
    composers: Seq<Seq<char>>,
    stats: Seq<Seq<char>>,
    rows: Seq<BubbleView>,
)
    ensures
        ({
            let report = cursor_report(composers, stats, rows);
            &&& report.tokens is Some <==> report.tokens_estimated
            &&& report.tokens_estimated <==> report.tokens_estimate_method == Some(
                ESTIMATE_METHOD@,
            )
        }),
{
}

/// Every row that is a bubble and holds text that counts is counted once, whatever rows stand beside it:
/// with the tokens of its text, as the user's where its type is 1, at the time and for the composer
/// that it names. Any other row is passed over.
pub proof fn law_every_bubble_counts(rows: Seq<BubbleView>, row: BubbleView)
    ensures
        ({
            let v = json_document(row.value)->0;
            let text = joined(bubble_parts(v), "\n"@);
            let tokens = match crate::token_estimate::cl100k_tokens(text) {
                Some(n) => n,
                None => 0,
            };
            let counts = json_document(row.value) is Some && row.key.len() >= 9 && ascii_lower(
                row.key.take(9),
            ) == "bubbleid:"@ && text.len() > 0 && tokens > 0;
            let bubble = bubbles(rows.push(row)).last();
            &&& counts ==> {
                &&& bubbles(rows.push(row)) == bubbles(rows).push(bubble)
                &&& bubble.tokens == tokens
                &&& bubble.by_user <==> v.signed_at("type"@) == Some(1i64)
                &&& bubble.time == match v.text_at("createdAt"@) {
                    Some(text) => iso_seconds(text),
                    None => None,
                }
            }
            &&& !counts ==> bubbles(rows.push(row)) == bubbles(rows)
            &&& bubbles(Seq::empty()).len() == 0
        }),
{
    assert(rows.push(row).drop_last() =~= rows);
}

/// The composer of a bubble is what stands between `bubbleId:` and the next colon of its key, unless
/// that is nothing.
pub proof fn law_composer_stands_in_the_key(
    composer: Seq<char>,
    rest: Seq<char>,
    row: BubbleView,
    rows: Seq<BubbleView>,
)
    requires
        row.key == "bubbleId:"@ + composer + ":"@ + rest,
        !composer.contains(':'),
        bubbles(rows.push(row)).len() > bubbles(rows).len(),
    ensures
        bubbles(rows.push(row)).last().composer == if composer.len() > 0 {
            Some(composer)
        } else {
            None
        },
{
    assert(rows.push(row).drop_last() =~= rows);
    reveal_strlit("bubbleId:");
    reveal_strlit(":");
    let key = row.key;
    let n = "bubbleId:"@.len() as int;
    assert(key.take(n) =~= "bubbleId:"@);
    assert("bubbleId:"@.is_prefix_of(key));
    let tail = key.skip(n);
    assert(tail =~= composer + ":"@ + rest);
    lemma_place_of(tail, ":"@, 0);
    assert(tail[composer.len() as int] == ':');
    assert(tail.subrange(composer.len() as int, composer.len() as int + 1) =~= ":"@);
    assert(stands_at(tail, ":"@, composer.len() as int));
    match place_of(tail, ":"@, 0) {
        Some(i) => {
            assert(tail.subrange(i, i + 1)[0] == tail[i]);
            if i < composer.len() {
                assert(tail[i] == composer[i]);
            }
            assert(i == composer.len());
            assert(tail.take(i) =~= composer);
        },
        None => {},
    }
}

/// A key that does not start with `bubbleId:`, or has no colon after that, names no composer.
pub proof fn law_other_keys_name_no_composer(key: Seq<char>, rest: Seq<char>)
    ensures
        !"bubbleId:"@.is_prefix_of(key) ==> composer_of(key) is None,
        !rest.contains(':') ==> composer_of("bubbleId:"@ + rest) is None,
{
    reveal_strlit("bubbleId:");
    reveal_strlit(":");
    let whole = "bubbleId:"@ + rest;
    assert(whole.skip("bubbleId:"@.len() as int) =~= rest);
    lemma_place_of(rest, ":"@, 0);
    if let Some(i) = place_of(rest, ":"@, 0) {
        assert(rest.subrange(i, i + 1)[0] == rest[i]);
        assert(rest.contains(':') || rest[i] != ':');
    }
}

/// All text of a bubble counts: its text, or the rich text where that is blank, what was thought, the
/// parameters and the result of a tool, and every text of every attached piece of code. There is
/// nothing else to it.
pub proof fn law_bubble_holds_all_its_text(v: JsonTree)
    ensures
        ({
            let parts = bubble_parts(v);
            let written = |t: Option<Seq<char>>| t is Some && !is_blank(t->0);
            let lead = if written(v.text_at("text"@)) {
                v.text_at("text"@)
            } else {
                v.text_at("richText"@)
            };
            let inner = |outer: Seq<char>, key: Seq<char>|
                match v.get(outer) {
                    Some(x) => x.text_at(key),
                    None => None,
                };
            let thought = inner("thinking"@, "text"@);
            let params = inner("toolFormerData"@, "params"@);
            let result = inner("toolFormerData"@, "result"@);
            let one = |yes: bool|
                if yes {
                    1int
                } else {
                    0
                };
            let chunks = match v.items_at("attachedCodeChunks"@) {
                Some(chunks) => all_chunk_parts(chunks),
                None => Seq::empty(),
            };
            let n = one(written(lead)) + one(written(thought)) + one(written(params)) + one(
                written(result),
            );
            &&& parts.len() == n + chunks.len()
            &&& parts.skip(n) == chunks
            &&& written(lead) ==> parts[0] == lead->0
            &&& written(thought) ==> parts[one(written(lead))] == thought->0
            &&& written(params) ==> parts[one(written(lead)) + one(written(thought))] == params->0
            &&& written(result) ==> parts[n - 1] == result->0
        }),
{
    let parts = bubble_parts(v);
    let a = lead_parts(v);
    let b = if_written(text_in(v, "thinking"@, "text"@));
    let c = if_written(text_in(v, "toolFormerData"@, "params"@));
    let d = if_written(text_in(v, "toolFormerData"@, "result"@));
    let chunks = match v.items_at("attachedCodeChunks"@) {
        Some(chunks) => all_chunk_parts(chunks),
        None => Seq::empty(),
    };
    assert(parts == a + b + c + d + chunks);
    assert(parts.skip((a.len() + b.len() + c.len() + d.len()) as int) =~= chunks);
}

/// Attached pieces of code are read one by one, each with all three texts that it may have.
pub proof fn law_chunks_are_read(chunks: Seq<JsonTree>, chunk: JsonTree)
    ensures
        ({
            let any = |key: Seq<char>|
                match chunk.text_at(key) {
                    Some(t) => if t.len() > 0 {
                        seq![t]
                    } else {
                        Seq::empty()
                    },
                    None => Seq::empty(),
                };
            all_chunk_parts(chunks.push(chunk)) == all_chunk_parts(chunks) + (any("content"@) + any(
                "text"@,
            ) + any("code"@))
        }),
        all_chunk_parts(Seq::empty()).len() == 0,
{
    assert(chunks.push(chunk).drop_last() =~= chunks);
}

proof fn lemma_tokens_by(all: Seq<Bubble>, user: bool)
    ensures
        tokens_by(all, user) == total(
            all.map_values(
                |b: Bubble|
                    if b.by_user == user {
                        b.tokens as nat
                    } else {
                        0
                    },
            ),
        ),
    decreases all.len(),
{
    let part = |b: Bubble|
        if b.by_user == user {
            b.tokens as nat
        } else {
            0
        };
    if all.len() == 0 {
        assert(all.map_values(part) =~= Seq::empty());
        lemma_total_push(Seq::empty(), 0);
    } else {
        let before = all.drop_last();
        lemma_tokens_by(before, user);
        assert(all.map_values(part) =~= before.map_values(part).push(part(all.last())));
        lemma_total_push(before.map_values(part), part(all.last()));
    }
}

/// Cursor reports every composer whose time is from 2020 to 2033 as a session, with the hours between
/// their times, and the tokens of all bubbles: the user's as input, all others as output. Tokens are
/// left out exactly where no bubble counts any.
pub proof fn law_composers_and_bubbles_are_reported(
    composers: Seq<Seq<char>>,
    stats: Seq<Seq<char>>,
    rows: Seq<BubbleView>,
)
    ensures
        ({
            let report = cursor_report(composers, stats, rows);
            let times = composer_times(composers);
            let all = bubbles(rows);
            let input = total(
                all.map_values(
                    |b: Bubble|
                        if b.by_user {
                            b.tokens as nat
                        } else {
                            0
                        },
                ),
            );
            let output = total(
                all.map_values(
                    |b: Bubble|
                        if b.by_user {
                            0
                        } else {
                            b.tokens as nat
                        },
                ),
            );
            &&& report.provider == "Cursor IDE"@
            &&& times.len() <= u64::MAX ==> report.sessions == Some(times.len() as u64)
            &&& report.hours == Some(Hours { seconds: half_hour_activity(times) as u128 })
            &&& report.first_seen == first_time(times)
            &&& report.last_seen == last_time(times)
            &&& input + output > 0 ==> report.tokens == Some(
                TokenSums { input, output, cache_read: 0, cache_creation: 0 }.usage(),
            ) && report.tokens_estimated
            &&& input + output == 0 ==> report.tokens is None && !report.tokens_estimated
            &&& report.visits is None && report.invocations is None && report.models is None
        }),
{
    let all = bubbles(rows);
    lemma_half_hour(composer_times(composers));
    lemma_tokens_by(all, true);
    lemma_tokens_by(all, false);
    assert(all.map_values(
        |b: Bubble|
            if b.by_user == true {
                b.tokens as nat
            } else {
                0
            },
    ) =~= all.map_values(
        |b: Bubble|
            if b.by_user {
                b.tokens as nat
            } else {
                0
            },
    ));
    assert(all.map_values(
        |b: Bubble|
            if b.by_user == false {
                b.tokens as nat
            } else {
                0
            },
    ) =~= all.map_values(
        |b: Bubble|
            if b.by_user {
                0
            } else {
                b.tokens as nat
            },
    ));
}

/// One more composer adds its time, if it has one that is believed; it is kept in milliseconds.
pub proof fn law_composer_tells_its_time(composers: Seq<Seq<char>>, value: Seq<char>)
    ensures
        ({
            let ms = match json_document(value) {
                Some(v) => v.signed_at("createdAt"@),
                None => None,
            };
            let counts = ms is Some && 1_577_836_800_000 <= ms->0 <= 2_000_000_000_999;
            &&& counts ==> composer_times(composers.push(value)) == composer_times(composers).push(
                (ms->0 / 1000) as i64,
            )
            &&& !counts ==> composer_times(composers.push(value)) == composer_times(composers)
        }),
        composer_times(Seq::empty()).len() == 0,
{
    assert(composers.push(value).drop_last() =~= composers);
}

/// Days of Cursor are those of its composers, and of its bubbles with their tokens.
pub proof fn law_bubbles_count_on_their_days(
    composers: Seq<Seq<char>>,
    stats: Seq<Seq<char>>,
    rows: Seq<BubbleView>,
    all: Seq<Bubble>,
    b: Bubble,
)
    ensures
        ({
            let report = cursor_report(composers, stats, rows);
            let events = composer_times(composers).map_values(
                |ts: i64| DayEvent { ts, tokens: 0, session: None },
            ) + bubble_events(bubbles(rows));
            &&& report.daily_buckets is Some ==> report.daily_buckets == Some(buckets_of(events))
            &&& report.daily_buckets is None ==> buckets_of(events) =~= Map::empty()
        }),
        b.time matches Some(ts) ==> bubble_events(all.push(b)) == bubble_events(all).push(
            DayEvent { ts, tokens: b.tokens, session: b.composer },
        ),
        b.time is None ==> bubble_events(all.push(b)) == bubble_events(all),
        bubble_events(Seq::empty()).len() == 0,
{
    assert(all.push(b).drop_last() =~= all);
    let times = composer_times(composers);
    assert(composer_events(times) =~= times.map_values(
        |ts: i64| DayEvent { ts, tokens: 0, session: None },
    ));
}

/// Accepted lines add up over the days: each value is a number by itself, or an object that counts what
/// was accepted. They are reported where there are any.
pub proof fn law_accepted_lines_add_up(
    composers: Seq<Seq<char>>,
    stats: Seq<Seq<char>>,
    value: Seq<char>,
    rows: Seq<BubbleView>,
)
    ensures
        all_accepted_lines(stats.push(value)) == all_accepted_lines(stats) + match json_document(
            value,
        ) {
            Some(JsonTree::Number(n)) => match n.unsigned {
                Some(count) => count as nat,
                None => 0,
            },
            Some(v) => v.count_at("accepted"@) as nat,
            None => match written_count(value) {
                Some(n) => n as nat,
                None => 0,
            },
        },
        all_accepted_lines(Seq::empty()) == 0,
        0 < all_accepted_lines(stats) <= u64::MAX ==> cursor_report(
            composers,
            stats,
            rows,
        ).metadata is Some && cursor_report(composers, stats, rows).metadata->0.contains_key(
            "accepted_lines"@,
        ) && cursor_report(composers, stats, rows).metadata->0["accepted_lines"@]
            == MetaTree::Count(all_accepted_lines(stats) as u64),
        all_accepted_lines(stats) == 0 ==> cursor_report(composers, stats, rows).metadata is None,
{
    assert(stats.push(value).drop_last() =~= stats);
}

fn time_of_composer(value: &str) -> (r: Option<i64>)
    ensures
        r == composer_time(value@),
{
    match parse_json(value) {
        Some(v) => match v.signed_at("createdAt") {
            Some(ms) => {
                if ms < 0 {
                    return None;
                }
                let created: i64 = ms / 1000;
                if 1_577_836_800 <= created && created <= 2_000_000_000 {
                    Some(created)
                } else {
                    None
                }
            },
            None => None,
        },
        None => None,
    }
}

fn scan_composers(values: &Vec<String>) -> (r: Vec<i64>)
    ensures
        r@ == composer_times(texts(values@)),
{
    let mut times: Vec<i64> = Vec::new();
    let ghost all = texts(values@);
    let mut i: usize = 0;
    while i < values.len()
        invariant
            i <= values@.len(),
            all == texts(values@),
            times@ == composer_times(all.take(i as int)),
        decreases values@.len() - i,
    {
        proof {
            assert(all.take(i + 1).drop_last() =~= all.take(i as int));
            assert(all.take(i + 1).last() == values@[i as int]@);
        }
        if let Some(ts) = time_of_composer(values[i].as_str()) {
            times.push(ts);
        }
        i += 1;
    }
    assert(all.take(i as int) =~= all);
    times
}

fn scan_stats(values: &Vec<String>) -> (r: u64)
    ensures
        r == capped(all_accepted_lines(texts(values@)) as int),
{
    let mut lines: u64 = 0;
    let ghost all = texts(values@);
    let mut i: usize = 0;
    while i < values.len()
        invariant
            i <= values@.len(),
            all == texts(values@),
            lines == capped(all_accepted_lines(all.take(i as int)) as int),
        decreases values@.len() - i,
    {
        proof {
            assert(all.take(i + 1).drop_last() =~= all.take(i as int));
            assert(all.take(i + 1).last() == values@[i as int]@);
        }
        match parse_json(values[i].as_str()) {
            Some(v) => {
                lines = lines.saturating_add(v.count_at("accepted"));
                if let Some(n) = v.as_u64() {
                    lines = lines.saturating_add(n);
                }
            },
            None => {
                if let Some(n) = parse_count(values[i].as_str()) {
                    lines = lines.saturating_add(n);
                }
            },
        }
        i += 1;
    }
    assert(all.take(i as int) =~= all);
    lines
}

impl CursorProvider {
    /// Usage from the values of the composers, of the daily statistics and of the bubbles.
    pub fn scan(&self, composers: &Vec<String>, stats: &Vec<String>, rows: &Vec<BubbleRow>) -> (r:
        ProviderResult)
        ensures
            r.wf(),
            r@ == cursor_report(texts(composers@), texts(stats@), bubble_views(rows@)),
    {
        let times = scan_composers(composers);
        let lines: u64 = scan_stats(stats);
        let (tokens, token_events) = extract_bubble_tokens(rows);
        let mut events: Vec<(i64, u64, Option<String>)> = Vec::new();
        let mut i: usize = 0;
        assert(day_events(events@) =~= composer_events(times@.take(0)));
        while i < times.len()
            invariant
                i <= times@.len(),
                day_events(events@) == composer_events(times@.take(i as int)),
            decreases times@.len() - i,
        {
            let ghost known = day_events(events@);
            let ts: i64 = times[i];
            let nobody: Option<String> = None;
            events.push((ts, 0, nobody));
            i += 1;
            proof {
                let event = DayEvent { ts, tokens: 0, session: None };
                assert(day_events(events@) =~= known.push(event));
                assert(composer_events(times@.take(i as int)) =~= composer_events(
                    times@.take(i - 1),
                ).push(event));
            }
        }
        assert(times@.take(i as int) =~= times@);
        let ghost first = events@;
        let ghost second = token_events@;
        let mut more = token_events;
        events.append(&mut more);
        assert(day_events(events@) =~= day_events(first) + day_events(second));

        let (hours, first_seen, last_seen) = time_range(times.as_slice());
        let mut result = ProviderResult::new("Cursor IDE");
        result.hours = Some(hours);
        result.sessions = Some(times.len() as u64);
        result.first_seen = first_seen;
        result.last_seen = last_seen;
        if lines > 0 {
            let mut metadata: StrMap<MetaValue> = StrMap::new();
            metadata.insert("accepted_lines".to_string(), MetaValue::Count(lines));
            result.metadata = Some(metadata);
            assert(result@.metadata->0 =~= Map::empty().insert(
                "accepted_lines"@,
                MetaTree::Count(lines),
            ));
        }
        if tokens.total > 0 {
            result.tokens = Some(tokens);
            result.tokens_estimated = true;
            result.tokens_estimate_method = Some(ESTIMATE_METHOD.to_string());
        }
        let buckets = build_daily_buckets(events.as_slice());
        if !buckets.is_empty() {
            result.daily_buckets = Some(buckets);
        }
        result
    }
}

} // verus!
