//! Droid (Factory): one JSON file a session.

use crate::json::{json_document, parse_json, Json, JsonTree};
use crate::ledger::{note_turn, turn_records, Ledger, Record};
use crate::logs::{document_views, name_or, name_or_else, DocumentFile, DocumentView};
use crate::providers::openclaw::{stamp_of, stamped};
use crate::providers::opencode::{close_account, is_plain_result};
use crate::text::{chars_of, lowercase, part_at, slice_of, stands_at, to_lowercase};
use crate::time_util::iso_seconds;
use crate::types::{ProviderResult, ScanError};
use vstd::prelude::*;

verus! {

pub struct DroidProvider;

/// A name without the mark of a model that the user has set up.
pub open spec fn without_mark(raw: Seq<char>) -> Seq<char> {
    if "custom:"@.is_prefix_of(raw) {
        raw.skip("custom:"@.len() as int)
    } else {
        raw
    }
}

/// Whether a character opens a bracket.
pub open spec fn opens(c: char) -> bool {
    c == '[' || c == '('
}

/// Whether a character closes a bracket.
pub open spec fn closes(c: char) -> bool {
    c == ']' || c == ')'
}

/// How many brackets are open at the end of a text. One that closes none is passed over.
pub open spec fn depth(s: Seq<char>) -> nat
    decreases s.len(),
{
    if s.len() == 0 {
        0
    } else {
        let before = depth(s.drop_last());
        if opens(s.last()) {
            before + 1
        } else if closes(s.last()) && before > 0 {
            (before - 1) as nat
        } else {
            before
        }
    }
}

/// A text without its brackets and what stands in them.
pub open spec fn outside_brackets(s: Seq<char>) -> Seq<char>
    decreases s.len(),
{
    if s.len() == 0 {
        Seq::empty()
    } else {
        let before = outside_brackets(s.drop_last());
        if opens(s.last()) || closes(s.last()) || depth(s.drop_last()) > 0 {
            before
        } else {
            before.push(s.last())
        }
    }
}

/// A text with hyphens for dots.
pub open spec fn dots_to_hyphens(s: Seq<char>) -> Seq<char> {
    s.map_values(
        |c: char|
            if c == '.' {
                '-'
            } else {
                c
            },
    )
}

/// A text with one hyphen for every run of them.
pub open spec fn single_hyphens(s: Seq<char>) -> Seq<char>
    decreases s.len(),
{
    if s.len() == 0 {
        Seq::empty()
    } else {
        let before = single_hyphens(s.drop_last());
        if s.last() == '-' && s.len() > 1 && s[s.len() - 2] == '-' {
            before
        } else {
            before.push(s.last())
        }
    }
}

/// A text without the hyphens at its start.
pub open spec fn cut_start(s: Seq<char>) -> Seq<char>
    decreases s.len(),
{
    if s.len() > 0 && s[0] == '-' {
        cut_start(s.drop_first())
    } else {
        s
    }
}

/// A text without the hyphens at its end.
pub open spec fn cut_end(s: Seq<char>) -> Seq<char>
    decreases s.len(),
{
    if s.len() > 0 && s.last() == '-' {
        cut_end(s.drop_last())
    } else {
        s
    }
}

/// A name in lower case with single hyphens, none of them at an end.
pub open spec fn hyphenated(lower: Seq<char>) -> Seq<char> {
    cut_end(cut_start(single_hyphens(dots_to_hyphens(lower))))
}

/// A model name in one form: without the mark of a custom model and what stands in brackets, in
/// lower case, with single hyphens in place of dots.
pub open spec fn normalized(raw: Seq<char>) -> Seq<char> {
    hyphenated(lowercase(outside_brackets(without_mark(raw))))
}

/// Whether a text has no dots, no two hyphens in a row and no hyphen at an end.
pub open spec fn is_clean(s: Seq<char>) -> bool {
    &&& forall|i: int| 0 <= i < s.len() ==> #[trigger] s[i] != '.'
    &&& forall|i: int| 0 <= i < s.len() - 1 ==> !(#[trigger] s[i] == '-' && s[i + 1] == '-')
    &&& s.len() > 0 ==> s[0] != '-' && s.last() != '-'
}

/// Whether a text has no dots and no two hyphens in a row.
spec fn is_single(s: Seq<char>) -> bool {
    &&& forall|i: int| 0 <= i < s.len() ==> #[trigger] s[i] != '.'
    &&& forall|i: int| 0 <= i < s.len() - 1 ==> !(#[trigger] s[i] == '-' && s[i + 1] == '-')
}

proof fn lemma_single_hyphens(s: Seq<char>)
    requires
        forall|i: int| 0 <= i < s.len() ==> #[trigger] s[i] != '.',
    ensures
        is_single(single_hyphens(s)),
        s.len() > 0 ==> single_hyphens(s).len() > 0 && single_hyphens(s).last() == s.last(),
    decreases s.len(),
{
    if s.len() > 0 {
        let before = s.drop_last();
        lemma_single_hyphens(before);
        let kept = single_hyphens(before);
        let all = single_hyphens(s);
        assert forall|i: int| 0 <= i < all.len() - 1 implies !(#[trigger] all[i] == '-' && all[i
            + 1] == '-') by {
            if i + 1 < kept.len() {
                assert(!(kept[i] == '-' && kept[i + 1] == '-'));
            } else if before.len() > 0 {
                assert(kept.last() == before.last());
            }
        }
    }
}

proof fn lemma_single_fixed(s: Seq<char>)
    requires
        is_single(s),
    ensures
        single_hyphens(s) =~= s,
        dots_to_hyphens(s) =~= s,
    decreases s.len(),
{
    if s.len() > 0 {
        let before = s.drop_last();
        assert forall|i: int| 0 <= i < before.len() implies #[trigger] before[i] != '.' by {
            assert(s[i] != '.');
        }
        assert forall|i: int| 0 <= i < before.len() - 1 implies !(#[trigger] before[i] == '-'
            && before[i + 1] == '-') by {
            assert(!(s[i] == '-' && s[i + 1] == '-'));
        }
        lemma_single_fixed(before);
        if s.len() > 1 {
            assert(!(s[s.len() - 2] == '-' && s[s.len() - 2 + 1] == '-'));
        }
    }
}

proof fn lemma_cut_start(s: Seq<char>)
    requires
        is_single(s),
    ensures
        is_single(cut_start(s)),
        cut_start(s).len() > 0 ==> cut_start(s)[0] != '-',
    decreases s.len(),
{
    if s.len() > 0 && s[0] == '-' {
        let rest = s.drop_first();
        assert forall|i: int| 0 <= i < rest.len() implies #[trigger] rest[i] != '.' by {
            assert(s[i + 1] != '.');
        }
        assert forall|i: int| 0 <= i < rest.len() - 1 implies !(#[trigger] rest[i] == '-' && rest[i
            + 1] == '-') by {
            assert(!(s[i + 1] == '-' && s[i + 1 + 1] == '-'));
        }
        lemma_cut_start(rest);
    }
}

proof fn lemma_cut_end(s: Seq<char>)
    requires
        is_single(s),
        s.len() > 0 ==> s[0] != '-',
    ensures
        is_clean(cut_end(s)),
    decreases s.len(),
{
    if s.len() > 0 && s.last() == '-' {
        let rest = s.drop_last();
        assert forall|i: int| 0 <= i < rest.len() implies #[trigger] rest[i] != '.' by {
            assert(s[i] != '.');
        }
        assert forall|i: int| 0 <= i < rest.len() - 1 implies !(#[trigger] rest[i] == '-' && rest[i
            + 1] == '-') by {
            assert(!(s[i] == '-' && s[i + 1] == '-'));
        }
        lemma_cut_end(rest);
    }
}

/// Whatever the raw name, the normalized one has no dots, no two hyphens in a row and no hyphen
/// at an end.
pub proof fn law_normalized_is_clean(raw: Seq<char>)
    ensures
        is_clean(normalized(raw)),
{
    law_hyphenated_is_clean(lowercase(outside_brackets(without_mark(raw))));
}

/// A hyphenated name has no dots, no two hyphens in a row and no hyphen at an end.
pub proof fn law_hyphenated_is_clean(lower: Seq<char>)
    ensures
        is_clean(hyphenated(lower)),
{
    let d = dots_to_hyphens(lower);
    lemma_single_hyphens(d);
    lemma_cut_start(single_hyphens(d));
    lemma_cut_end(cut_start(single_hyphens(d)));
}

/// Hyphenating a name twice is the same as once.
pub proof fn law_hyphenated_twice(lower: Seq<char>)
    ensures
        hyphenated(hyphenated(lower)) == hyphenated(lower),
{
    law_hyphenated_is_clean(lower);
    let h = hyphenated(lower);
    lemma_single_fixed(h);
}

/// What stands outside brackets holds no bracket.
pub proof fn law_no_brackets_left(s: Seq<char>)
    ensures
        forall|i: int|
            0 <= i < outside_brackets(s).len() ==> !opens(#[trigger] outside_brackets(s)[i])
                && !closes(outside_brackets(s)[i]),
    decreases s.len(),
{
    if s.len() > 0 {
        law_no_brackets_left(s.drop_last());
        let before = outside_brackets(s.drop_last());
        assert forall|i: int| 0 <= i < outside_brackets(s).len() implies !opens(
            #[trigger] outside_brackets(s)[i],
        ) && !closes(outside_brackets(s)[i]) by {
            if i < before.len() {
                assert(outside_brackets(s)[i] == before[i]);
            }
        }
    }
}

/// A name without the mark of a custom model and without what stands in brackets.
pub fn strip_decoration(raw: &str) -> (r: String)
    ensures
        r@ == outside_brackets(without_mark(raw@)),
{
    let all = chars_of(raw);
    let mark = chars_of("custom:");
    let start: usize = if part_at(all.as_slice(), mark.as_slice(), 0) {
        mark.len()
    } else {
        0
    };
    let ghost s = without_mark(raw@);
    proof {
        assert("custom:"@.is_prefix_of(raw@) == stands_at(raw@, "custom:"@, 0));
        assert(s =~= raw@.skip(start as int));
    }
    let mut out = String::new();
    let mut open: usize = 0;
    let mut i: usize = start;
    while i < all.len()
        invariant
            start <= i <= all@.len(),
            all@ == raw@,
            s == raw@.skip(start as int),
            open == depth(s.take(i - start)),
            open <= i,
            out@ == outside_brackets(s.take(i - start)),
        decreases all@.len() - i,
    {
        let c = all[i];
        proof {
            assert(s.take(i + 1 - start).drop_last() =~= s.take(i - start));
            assert(s.take(i + 1 - start).last() == c);
        }
        if c == '[' || c == '(' {
            open += 1;
        } else if c == ']' || c == ')' {
            if open > 0 {
                open -= 1;
            }
        } else if open == 0 {
            out.push(c);
        }
        i += 1;
    }
    assert(s.take(i - start) =~= s);
    out
}

/// A name in lower case with single hyphens, none of them at an end.
pub fn hyphenate(lower: &str) -> (r: String)
    ensures
        r@ == hyphenated(lower@),
{
    let chars = chars_of(lower);
    let ghost d = dots_to_hyphens(lower@);
    let mut single: Vec<char> = Vec::new();
    let mut after_hyphen = false;
    let mut i: usize = 0;
    while i < chars.len()
        invariant
            i <= chars@.len(),
            chars@ == lower@,
            d == dots_to_hyphens(lower@),
            single@ == single_hyphens(d.take(i as int)),
            after_hyphen == (i > 0 && d[i - 1] == '-'),
        decreases chars@.len() - i,
    {
        let c: char = if chars[i] == '.' {
            '-'
        } else {
            chars[i]
        };
        proof {
            assert(d.take(i + 1).drop_last() =~= d.take(i as int));
            assert(d.take(i + 1).last() == c);
            if i > 0 {
                assert(d.take(i + 1)[i - 1] == d[i - 1]);
            }
        }
        if c == '-' {
            if !after_hyphen {
                single.push('-');
            }
            after_hyphen = true;
        } else {
            single.push(c);
            after_hyphen = false;
        }
        i += 1;
    }
    assert(d.take(i as int) =~= d);
    let ghost s = single@;
    let mut start: usize = 0;
    proof {
        assert(s.skip(0) =~= s);
    }
    while start < single.len() && single[start] == '-'
        invariant
            start <= single@.len(),
            s == single@,
            cut_start(s) == cut_start(s.skip(start as int)),
        decreases single@.len() - start,
    {
        proof {
            assert(s.skip(start as int).drop_first() =~= s.skip(start + 1));
            assert(s.skip(start as int)[0] == '-');
        }
        start += 1;
    }
    let ghost t = s.skip(start as int);
    assert(cut_start(s) == t);
    let mut end: usize = single.len();
    proof {
        assert(t.take(t.len() as int) =~= t);
    }
    while start < end && single[end - 1] == '-'
        invariant
            start <= end <= single@.len(),
            s == single@,
            t == s.skip(start as int),
            cut_end(t) == cut_end(t.take(end - start)),
        decreases end,
    {
        proof {
            assert(t.take(end - start).drop_last() =~= t.take(end - start - 1));
            assert(t.take(end - start).last() == '-');
        }
        end -= 1;
    }
    proof {
        if start < end {
            assert(t.take(end - start).last() == single@[end - 1]);
        }
        assert(cut_end(t) == t.take(end - start));
        assert(t.take(end - start) =~= single@.subrange(start as int, end as int));
    }
    slice_of(single.as_slice(), start, end)
}

/// A model name in one form: `custom:Some-Model-4.5-Thinking-[Vendor]-0` becomes
/// `some-model-4-5-thinking-0`.
pub fn normalize_model_name(raw: &str) -> (r: String)
    ensures
        r@ == normalized(raw@),
{
    let plain = strip_decoration(raw);
    let lower = to_lowercase(plain.as_str());
    hyphenate(lower.as_str())
}

/// What a session tells. Its file carries the usage of the whole session.
pub open spec fn session_records(file: DocumentView, v: JsonTree) -> Seq<Record> {
    match v.get("tokenUsage"@) {
        Some(usage) => {
            let input = usage.count_at("inputTokens"@);
            let output = usage.count_at("outputTokens"@);
            let thinking = usage.count_at("thinkingTokens"@);
            let read = usage.count_at("cacheReadTokens"@);
            let write = usage.count_at("cacheCreationTokens"@);
            if input == 0 && output == 0 && thinking == 0 && read == 0 && write == 0 {
                Seq::empty()
            } else {
                turn_records(
                    name_or(file.stem, "unknown"@),
                    normalized(v.text_or("model"@, "unknown"@)),
                    input,
                    output,
                    thinking,
                    read,
                    write,
                    stamped(v, "providerLockTimestamp"@, file.modified),
                )
            }
        },
        None => Seq::empty(),
    }
}

/// What some sessions tell.
pub open spec fn droid_records(files: Seq<DocumentView>) -> Seq<Record>
    decreases files.len(),
{
    if files.len() == 0 {
        Seq::empty()
    } else {
        droid_records(files.drop_last()) + match json_document(files.last().content) {
            Some(v) => session_records(files.last(), v),
            None => Seq::empty(),
        }
    }
}

/// Every file of a session that counts tokens is one turn of that session: of the model in its one
/// form, with thinking as output, when the provider was locked or else when the file was written.
/// Files add up, and one without any tokens adds nothing.
pub proof fn law_every_session_counts(files: Seq<DocumentView>, file: DocumentView, v: JsonTree)
    requires
        json_document(file.content) == Some(v),
    ensures
        ({
            let before = droid_records(files);
            let after = droid_records(files.push(file));
            let usage = v.get("tokenUsage"@)->0;
            let input = usage.count_at("inputTokens"@);
            let output = usage.count_at("outputTokens"@);
            let thinking = usage.count_at("thinkingTokens"@);
            let read = usage.count_at("cacheReadTokens"@);
            let write = usage.count_at("cacheCreationTokens"@);
            let counts = v.get("tokenUsage"@) is Some && input + output + thinking + read + write
                > 0;
            let time = match v.text_at("providerLockTimestamp"@) {
                Some(text) => match iso_seconds(text) {
                    Some(ts) => Some(ts),
                    None => file.modified,
                },
                None => file.modified,
            };
            &&& counts ==> after == before + turn_records(
                name_or(file.stem, "unknown"@),
                normalized(v.text_or("model"@, "unknown"@)),
                input,
                output,
                thinking,
                read,
                write,
                time,
            )
            &&& !counts ==> after == before
        }),
{
    assert(files.push(file).drop_last() =~= files);
    let before = droid_records(files);
    assert(before + Seq::<Record>::empty() =~= before);
}

/// A file that is no JSON adds nothing, and no files tell nothing.
pub proof fn law_damaged_session_adds_none(files: Seq<DocumentView>, file: DocumentView)
    requires
        json_document(file.content) is None,
    ensures
        droid_records(files.push(file)) == droid_records(files),
        droid_records(Seq::empty()).len() == 0,
{
    assert(files.push(file).drop_last() =~= files);
    let before = droid_records(files);
    assert(before + Seq::<Record>::empty() =~= before);
}

/// A character outside of brackets stays, and one in them goes: a name without brackets keeps all its
/// characters, and what stands between an opening and the next closing bracket is gone.
pub proof fn law_brackets_are_taken_out(a: Seq<char>, b: Seq<char>, c: char)
    requires
        forall|i: int| 0 <= i < a.len() ==> !opens(#[trigger] a[i]) && !closes(a[i]),
        forall|i: int| 0 <= i < b.len() ==> !opens(#[trigger] b[i]) && !closes(b[i]),
        !opens(c) && !closes(c),
    ensures
        outside_brackets(a) == a,
        outside_brackets(a.push('[') + b) == a,
        outside_brackets((a.push('[') + b).push(']')) == a,
        outside_brackets((a.push('[') + b).push(']').push(c)) == a.push(c),
        outside_brackets((a.push('(') + b).push(')').push(c)) == a.push(c),
{
    lemma_no_brackets(a);
    lemma_in_brackets(a, b, '[');
    lemma_in_brackets(a, b, '(');
    let square = a.push('[') + b;
    let round = a.push('(') + b;
    assert(square.push(']').drop_last() =~= square);
    assert(round.push(')').drop_last() =~= round);
    assert(depth(square.push(']')) == 0 && depth(round.push(')')) == 0);
    assert(outside_brackets(square.push(']')) == a && outside_brackets(round.push(')')) == a);
    assert(square.push(']').push(c).drop_last() =~= square.push(']'));
    assert(round.push(')').push(c).drop_last() =~= round.push(')'));
}

proof fn lemma_no_brackets(a: Seq<char>)
    requires
        forall|i: int| 0 <= i < a.len() ==> !opens(#[trigger] a[i]) && !closes(a[i]),
    ensures
        outside_brackets(a) == a,
        depth(a) == 0,
    decreases a.len(),
{
    if a.len() > 0 {
        lemma_no_brackets(a.drop_last());
        assert(!opens(a[a.len() - 1]) && !closes(a[a.len() - 1]));
    }
    assert(outside_brackets(a) =~= a);
}

proof fn lemma_in_brackets(a: Seq<char>, b: Seq<char>, open: char)
    requires
        forall|i: int| 0 <= i < a.len() ==> !opens(#[trigger] a[i]) && !closes(a[i]),
        forall|i: int| 0 <= i < b.len() ==> !opens(#[trigger] b[i]) && !closes(b[i]),
        opens(open),
    ensures
        outside_brackets(a.push(open) + b) == a,
        depth(a.push(open) + b) == 1,
    decreases b.len(),
{
    let all = a.push(open) + b;
    if b.len() == 0 {
        assert(all =~= a.push(open));
        assert(a.push(open).drop_last() =~= a);
        lemma_no_brackets(a);
    } else {
        assert(all.drop_last() =~= a.push(open) + b.drop_last());
        assert(!opens(b[b.len() - 1]) && !closes(b[b.len() - 1]));
        lemma_in_brackets(a, b.drop_last(), open);
    }
}

/// A name is put in its one form in steps: the mark of a custom model does not matter, what stands in
/// brackets goes, and the rest is written in lower case with hyphens.
pub proof fn law_name_is_normalized_in_steps(raw: Seq<char>)
    ensures
        normalized("custom:"@ + raw) == hyphenated(lowercase(outside_brackets(raw))),
        raw.len() < 7 || raw.take(7) != "custom:"@ ==> normalized(raw) == hyphenated(
            lowercase(outside_brackets(raw)),
        ),
{
    reveal_strlit("custom:");
    let mark = "custom:"@;
    assert(mark.len() == 7);
    let marked = mark + raw;
    assert(marked.take(7) =~= mark);
    assert(mark.is_prefix_of(marked));
    assert(marked.skip(7) =~= raw);
    if mark.is_prefix_of(raw) {
        assert(raw.take(7) =~= mark);
    }
}

/// Nothing but hyphens and dots changes in a name: all other characters stay, in order.
pub proof fn law_other_characters_stay(s: Seq<char>)
    ensures
        hyphenated(s).filter(|c: char| c != '-') == s.filter(|c: char| c != '-' && c != '.'),
{
    let dotless = dots_to_hyphens(s);
    let single = single_hyphens(dotless);
    lemma_filter_dots(s);
    lemma_filter_single(dotless);
    lemma_filter_start(single);
    lemma_filter_end(cut_start(single));
}

proof fn lemma_filter_dots(s: Seq<char>)
    ensures
        dots_to_hyphens(s).filter(|c: char| c != '-') == s.filter(|c: char| c != '-' && c != '.'),
    decreases s.len(),
{
    reveal(Seq::filter);
    let kept = |c: char| c != '-';
    let own = |c: char| c != '-' && c != '.';
    if s.len() > 0 {
        let before = s.drop_last();
        lemma_filter_dots(before);
        assert(s =~= before.push(s.last()));
        let c = dots_to_hyphens(s).last();
        assert(dots_to_hyphens(s) =~= dots_to_hyphens(before).push(c));
        before.lemma_filter_push(s.last(), own);
        dots_to_hyphens(before).lemma_filter_push(c, kept);
    }
}

proof fn lemma_filter_single(s: Seq<char>)
    ensures
        single_hyphens(s).filter(|c: char| c != '-') == s.filter(|c: char| c != '-'),
    decreases s.len(),
{
    reveal(Seq::filter);
    let kept = |c: char| c != '-';
    if s.len() > 0 {
        let before = s.drop_last();
        lemma_filter_single(before);
        assert(s =~= before.push(s.last()));
        before.lemma_filter_push(s.last(), kept);
        single_hyphens(before).lemma_filter_push(s.last(), kept);
    }
}

proof fn lemma_filter_start(s: Seq<char>)
    ensures
        cut_start(s).filter(|c: char| c != '-') == s.filter(|c: char| c != '-'),
    decreases s.len(),
{
    let kept = |c: char| c != '-';
    if s.len() > 0 && s[0] == '-' {
        lemma_filter_start(s.drop_first());
        assert(s =~= seq!['-'] + s.drop_first());
        s.drop_first().lemma_filter_prepend('-', kept);
    }
}

proof fn lemma_filter_end(s: Seq<char>)
    ensures
        cut_end(s).filter(|c: char| c != '-') == s.filter(|c: char| c != '-'),
    decreases s.len(),
{
    let kept = |c: char| c != '-';
    if s.len() > 0 && s.last() == '-' {
        lemma_filter_end(s.drop_last());
        assert(s =~= s.drop_last().push('-'));
        s.drop_last().lemma_filter_push('-', kept);
    }
}

/// A model name that is in its one form already keeps it: without brackets, mark, capitals or dots,
/// and with single hyphens inside. A dot becomes a hyphen.
pub proof fn law_clean_name_stays(name: Seq<char>, a: Seq<char>, b: Seq<char>)
    requires
        is_clean(name),
        is_clean(a + seq!['-'] + b),
    ensures
        hyphenated(name) == name,
        hyphenated(a + seq!['.'] + b) == a + seq!['-'] + b,
{
    lemma_clean_fixed(name);
    let good = a + seq!['-'] + b;
    let dotted = a + seq!['.'] + b;
    assert(dots_to_hyphens(dotted) =~= good) by {
        assert forall|i: int| 0 <= i < good.len() implies dots_to_hyphens(dotted)[i] == good[i] by {
            assert(good[i] != '.');
        }
    }
    lemma_clean_fixed(good);
    lemma_single_fixed(good);
}

proof fn lemma_clean_fixed(name: Seq<char>)
    requires
        is_clean(name),
    ensures
        hyphenated(name) == name,
        cut_end(cut_start(name)) == name,
{
    lemma_single_fixed(name);
}

/// Reads one session.
pub fn scan_session(ledger: &mut Ledger, file: &DocumentFile, v: &Json)
    requires
        old(ledger).wf(),
    ensures
        final(ledger).wf(),
        final(ledger)@ == old(ledger)@ + session_records(file@, v@),
{
    let ghost before = ledger@;
    let ghost goal = session_records(file@, v@);
    if let Some(usage) = v.get("tokenUsage") {
        let input: u64 = usage.count_at("inputTokens");
        let output: u64 = usage.count_at("outputTokens");
        let thinking: u64 = usage.count_at("thinkingTokens");
        let read: u64 = usage.count_at("cacheReadTokens");
        let write: u64 = usage.count_at("cacheCreationTokens");
        if input == 0 && output == 0 && thinking == 0 && read == 0 && write == 0 {
            assert(before + goal =~= before);
            return;
        }
        let model = normalize_model_name(v.text_or("model", "unknown"));
        let time = stamp_of(v, "providerLockTimestamp", file.modified);
        note_turn(
            ledger,
            name_or_else(&file.stem, "unknown"),
            model.as_str(),
            input,
            output,
            thinking,
            read,
            write,
            time,
        );
    } else {
        assert(before + goal =~= before);
    }
}

impl DroidProvider {
    /// Usage from the files of the sessions.
    pub fn scan(&self, files: &Vec<DocumentFile>) -> (r: Result<ProviderResult, ScanError>)
        ensures
            is_plain_result(
                r,
                "Droid (Factory)"@,
                droid_records(document_views(files@)),
                "No Droid session data found"@,
            ),
    {
        let mut ledger = Ledger::new();
        let ghost all = document_views(files@);
        let mut i: usize = 0;
        while i < files.len()
            invariant
                i <= files@.len(),
                ledger.wf(),
                all == document_views(files@),
                ledger@ == droid_records(all.take(i as int)),
            decreases files@.len() - i,
        {
            proof {
                assert(all.take(i + 1).drop_last() =~= all.take(i as int));
                assert(all.take(i + 1).last() == files@[i as int]@);
            }
            let ghost before = ledger@;
            match parse_json(files[i].content.as_str()) {
                Some(v) => {
                    scan_session(&mut ledger, &files[i], &v);
                },
                None => {
                    assert(before + Seq::<Record>::empty() =~= before);
                },
            }
            i += 1;
        }
        assert(all.take(i as int) =~= all);
        close_account(ledger, "Droid (Factory)", "No Droid session data found")
    }
}

} // verus!
