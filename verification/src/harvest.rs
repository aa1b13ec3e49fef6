//! Picking JSON fragments and distinct texts out of stored text.

use crate::text::{chars_of, slice_of, texts};
use vstd::hash_set::StringHashSet;
use vstd::prelude::*;

verus! {

/// How many bytes a text takes in UTF-8.
pub open spec fn byte_len(s: Seq<char>) -> usize {
    vstd::utf8::encode_utf8(s).len() as usize
}

/// How many bytes a text takes in UTF-8.
pub fn byte_length(s: &str) -> (r: usize)
    ensures
        r == byte_len(s@),
{
    s.len()
}

/// How many bytes some texts take, as far as a machine word counts.
pub open spec fn summed_bytes(all: Seq<Seq<char>>) -> nat
    decreases all.len(),
{
    if all.len() == 0 {
        0
    } else {
        summed_bytes(all.drop_last()) + byte_len(all.last()) as nat
    }
}

/// A size that stops at `usize::MAX`.
pub open spec fn capped_size(n: nat) -> usize {
    if n > usize::MAX {
        usize::MAX
    } else {
        n as usize
    }
}

/// How many bytes some texts take, as far as a machine word counts.
pub fn total_bytes(list: &Vec<String>) -> (r: usize)
    ensures
        r == capped_size(summed_bytes(texts(list@))),
{
    let ghost all = texts(list@);
    let mut total: usize = 0;
    let mut i: usize = 0;
    while i < list.len()
        invariant
            i <= list@.len(),
            all == texts(list@),
            total == capped_size(summed_bytes(all.take(i as int))),
        decreases list@.len() - i,
    {
        proof {
            assert(all.take(i + 1).drop_last() =~= all.take(i as int));
            assert(all.take(i + 1).last() == list@[i as int]@);
        }
        total = total.saturating_add(byte_length(list[i].as_str()));
        i += 1;
    }
    assert(all.take(i as int) =~= all);
    total
}

/// A list with more texts at its end, without those that it has already.
pub open spec fn merged(list: Seq<Seq<char>>, more: Seq<Seq<char>>) -> Seq<Seq<char>>
    decreases more.len(),
{
    if more.len() == 0 {
        list
    } else {
        let before = merged(list, more.drop_last());
        if before.contains(more.last()) {
            before
        } else {
            before.push(more.last())
        }
    }
}

/// Merging two lists one after the other is merging both at once.
pub proof fn lemma_merged_parts(list: Seq<Seq<char>>, a: Seq<Seq<char>>, b: Seq<Seq<char>>)
    ensures
        merged(merged(list, a), b) == merged(list, a + b),
    decreases b.len(),
{
    if b.len() == 0 {
        assert(a + b =~= a);
    } else {
        assert((a + b).drop_last() =~= a + b.drop_last());
        lemma_merged_parts(list, a, b.drop_last());
    }
}

/// A list without repeated texts has none after a merge.
pub proof fn law_merged_has_no_repeats(list: Seq<Seq<char>>, more: Seq<Seq<char>>)
    requires
        list.no_duplicates(),
    ensures
        merged(list, more).no_duplicates(),
    decreases more.len(),
{
    if more.len() > 0 {
        law_merged_has_no_repeats(list, more.drop_last());
    }
}

/// A merge holds what either list holds, and nothing else; the first list stays at its front.
pub proof fn law_merged_holds_all(list: Seq<Seq<char>>, more: Seq<Seq<char>>, text: Seq<char>)
    ensures
        merged(list, more).contains(text) <==> list.contains(text) || more.contains(text),
        list.is_prefix_of(merged(list, more)),
    decreases more.len(),
{
    if more.len() > 0 {
        let before = merged(list, more.drop_last());
        law_merged_holds_all(list, more.drop_last(), text);
        let all = merged(list, more);
        if before.contains(text) {
            assert(all[before.index_of(text)] == text);
        }
        if more.drop_last().contains(text) {
            assert(more[more.drop_last().index_of(text)] == text);
        }
        if more.last() == text {
            assert(more[more.len() - 1] == text);
            if !before.contains(text) {
                assert(all[before.len() as int] == text);
            }
        }
        if more.contains(text) {
            let i = more.index_of(text);
            if i < more.len() - 1 {
                assert(more.drop_last()[i] == text);
            }
        }
        if all.contains(text) && !before.contains(text) {
            assert(all.index_of(text) == before.len());
        }
        assert(list =~= all.take(list.len() as int)) by {
            assert(list =~= before.take(list.len() as int));
        }
    }
}

/// Distinct texts in the order in which they came.
pub struct UniqueTexts {
    seen: StringHashSet,
    list: Vec<String>,
}

impl View for UniqueTexts {
    type V = Seq<Seq<char>>;

    closed spec fn view(&self) -> Seq<Seq<char>> {
        texts(self.list@)
    }
}

impl UniqueTexts {
    /// What has been seen is what the list holds.
    pub closed spec fn wf(&self) -> bool {
        forall|s: Seq<char>| #[trigger] self.seen@.contains(s) <==> self@.contains(s)
    }

    /// No texts.
    pub fn new() -> (r: UniqueTexts)
        ensures
            r.wf(),
            r@ == Seq::<Seq<char>>::empty(),
    {
        let r = UniqueTexts { seen: StringHashSet::new(), list: Vec::new() };
        assert(r@ =~= Seq::empty());
        r
    }

    /// The number of texts.
    pub fn len(&self) -> (r: usize)
        ensures
            r == self@.len(),
    {
        self.list.len()
    }

    /// Adds a text, if the list has it not.
    pub fn add(&mut self, text: &str)
        requires
            old(self).wf(),
        ensures
            final(self).wf(),
            final(self)@ == merged(old(self)@, seq![text@]),
    {
        let ghost before = self@;
        proof {
            assert(seq![text@].drop_last() =~= Seq::empty());
            assert(merged(before, Seq::empty()) == before);
        }
        if self.seen.insert(text.to_string()) {
            self.list.push(text.to_string());
            assert(self@ =~= before.push(text@));
        }
        proof {
            assert forall|s: Seq<char>| #[trigger]
                self.seen@.contains(s) <==> self@.contains(s) by {
                if before.contains(s) {
                    let i = before.index_of(s);
                    assert(self@[i] == s);
                }
                if self@.contains(s) && !before.contains(s) {
                    let i = self@.index_of(s);
                    assert(i == before.len());
                }
                if s == text@ && !before.contains(s) {
                    assert(self@[before.len() as int] == s);
                }
            }
        }
    }

    /// The texts.
    pub fn into_list(self) -> (r: Vec<String>)
        ensures
            texts(r@) == self@,
    {
        self.list
    }
}

/// Whether a character starts a fragment: a brace, or a bracket where arrays are asked for.
pub open spec fn starts_fragment(c: char, arrays: bool) -> bool {
    c == '{' || arrays && c == '['
}

/// The character that closes what another opens.
pub open spec fn closer(open: char) -> char {
    if open == '{' {
        '}'
    } else {
        ']'
    }
}

/// Where what was opened `depth` times is closed for good, from a place on.
pub open spec fn closed_at(s: Seq<char>, from: int, depth: nat, open: char) -> Option<int>
    decreases s.len() - from,
{
    if from < 0 || from >= s.len() {
        None
    } else if s[from] == open {
        closed_at(s, from + 1, depth + 1, open)
    } else if s[from] == closer(open) {
        if depth <= 1 {
            Some(from)
        } else {
            closed_at(s, from + 1, (depth - 1) as nat, open)
        }
    } else {
        closed_at(s, from + 1, depth, open)
    }
}

/// What is closed is closed after the place where the search starts.
pub proof fn lemma_closed_at(s: Seq<char>, from: int, depth: nat, open: char)
    requires
        0 <= from,
        open == '{' || open == '[',
    ensures
        closed_at(s, from, depth, open) matches Some(i) ==> from <= i < s.len() && s[i] == closer(
            open,
        ),
    decreases s.len() - from,
{
    if from < s.len() {
        if s[from] == open {
            lemma_closed_at(s, from + 1, depth + 1, open);
        } else if s[from] == closer(open) {
            if depth > 1 {
                lemma_closed_at(s, from + 1, (depth - 1) as nat, open);
            }
        } else {
            lemma_closed_at(s, from + 1, depth, open);
        }
    }
}

/// The balanced fragments of a text from a place on, one after the other, of at least `least`
/// bytes. The first that is never closed ends the search.
pub open spec fn fragments_from(s: Seq<char>, from: int, arrays: bool, least: usize) -> Seq<
    Seq<char>,
>
    decreases s.len() - from,
    via fragments_from_decreases
{
    if from < 0 || from >= s.len() {
        Seq::empty()
    } else if !starts_fragment(s[from], arrays) {
        fragments_from(s, from + 1, arrays, least)
    } else {
        match closed_at(s, from, 0, s[from]) {
            Some(end) => {
                let fragment = s.subrange(from, end + 1);
                (if byte_len(fragment) >= least {
                    seq![fragment]
                } else {
                    Seq::empty()
                }) + fragments_from(s, end + 1, arrays, least)
            },
            None => Seq::empty(),
        }
    }
}

#[via_fn]
proof fn fragments_from_decreases(s: Seq<char>, from: int, arrays: bool, least: usize) {
    if 0 <= from < s.len() && starts_fragment(s[from], arrays) {
        lemma_closed_at(s, from, 0, s[from]);
    }
}

/// The balanced fragments of a text.
pub open spec fn fragments(s: Seq<char>, arrays: bool, least: usize) -> Seq<Seq<char>> {
    fragments_from(s, 0, arrays, least)
}

/// Whether a text starts with an opening character, ends with the one that closes it, and is
/// long enough.
pub open spec fn is_closed(f: Seq<char>, arrays: bool, least: usize) -> bool {
    f.len() > 0 && starts_fragment(f[0], arrays) && f.last() == closer(f[0]) && byte_len(f)
        >= least
}

/// Every fragment starts with an opening character, ends with the one that closes it, and is
/// long enough.
pub proof fn law_fragments_are_closed(s: Seq<char>, from: int, arrays: bool, least: usize)
    requires
        0 <= from,
    ensures
        forall|i: int|
            0 <= i < fragments_from(s, from, arrays, least).len() ==> is_closed(
                #[trigger] fragments_from(s, from, arrays, least)[i],
                arrays,
                least,
            ),
    decreases s.len() - from,
{
    let all = fragments_from(s, from, arrays, least);
    if from < s.len() {
        if !starts_fragment(s[from], arrays) {
            law_fragments_are_closed(s, from + 1, arrays, least);
            assert(all == fragments_from(s, from + 1, arrays, least));
        } else {
            lemma_closed_at(s, from, 0, s[from]);
            match closed_at(s, from, 0, s[from]) {
                Some(end) => {
                    law_fragments_are_closed(s, end + 1, arrays, least);
                    let first = s.subrange(from, end + 1);
                    let rest = fragments_from(s, end + 1, arrays, least);
                    assert forall|i: int| 0 <= i < all.len() implies is_closed(
                        #[trigger] all[i],
                        arrays,
                        least,
                    ) by {
                        if byte_len(first) >= least {
                            if i > 0 {
                                assert(all[i] == rest[i - 1]);
                            } else {
                                assert(all[i] == first);
                                assert(first[0] == s[from]);
                                assert(first.last() == s[end]);
                            }
                        } else {
                            assert(all[i] == rest[i]);
                        }
                    }
                },
                None => {
                    assert(all.len() == 0);
                },
            }
        }
    } else {
        assert(all.len() == 0);
    }
}

/// How many more opening than closing characters stand between two places.
pub open spec fn surplus(s: Seq<char>, from: int, to: int, open: char) -> int {
    times_held(s.subrange(from, to), open) - times_held(s.subrange(from, to), closer(open))
}

/// How often a character stands in a text.
pub open spec fn times_held(s: Seq<char>, c: char) -> nat {
    s.to_multiset().count(c)
}

proof fn lemma_times_held(s: Seq<char>, x: char, c: char)
    ensures
        times_held(s.push(x), c) == times_held(s, c) + if x == c {
            1nat
        } else {
            0
        },
        times_held(Seq::empty(), c) == 0,
{
    s.to_multiset_ensures();
    Seq::<char>::empty().to_multiset_ensures();
    assert(!Seq::<char>::empty().contains(c));
}

proof fn lemma_surplus_step(s: Seq<char>, from: int, to: int, open: char)
    requires
        0 <= from <= to < s.len(),
        open == '{' || open == '[',
    ensures
        surplus(s, from, to + 1, open) == surplus(s, from, to, open) + if s[to] == open {
            1int
        } else if s[to] == closer(open) {
            -1
        } else {
            0
        },
{
    let part = s.subrange(from, to);
    assert(s.subrange(from, to + 1) =~= part.push(s[to]));
    lemma_times_held(part, s[to], open);
    lemma_times_held(part, s[to], closer(open));
}

proof fn lemma_closed_where_balanced(s: Seq<char>, from: int, at: int, depth: nat, open: char)
    requires
        0 <= from < at <= s.len(),
        open == '{' || open == '[',
        depth > 0,
        surplus(s, from, at, open) == depth,
        forall|k: int| from < k <= at ==> #[trigger] surplus(s, from, k, open) > 0,
    ensures
        match closed_at(s, at, depth, open) {
            Some(j) => at <= j < s.len() && surplus(s, from, j + 1, open) == 0 && forall|k: int|
                from < k <= j ==> #[trigger] surplus(s, from, k, open) > 0,
            None => forall|k: int| from < k <= s.len() ==> #[trigger] surplus(s, from, k, open) > 0,
        },
    decreases s.len() - at,
{
    if at < s.len() {
        lemma_surplus_step(s, from, at, open);
        if s[at] == open {
            lemma_closed_where_balanced(s, from, at + 1, depth + 1, open);
        } else if s[at] == closer(open) {
            if depth > 1 {
                lemma_closed_where_balanced(s, from, at + 1, (depth - 1) as nat, open);
            }
        } else {
            lemma_closed_where_balanced(s, from, at + 1, depth, open);
        }
    }
}

/// A fragment reaches to the first place where as many have closed as have opened in it; where there is
/// no such place, it is never closed.
pub proof fn law_fragment_ends_where_balanced(s: Seq<char>, from: int)
    requires
        0 <= from < s.len(),
        s[from] == '{' || s[from] == '[',
    ensures
        match closed_at(s, from, 0, s[from]) {
            Some(j) => from < j < s.len() && surplus(s, from, j + 1, s[from]) == 0 && forall|k: int|
                from < k <= j ==> #[trigger] surplus(s, from, k, s[from]) > 0,
            None => forall|k: int|
                from < k <= s.len() ==> #[trigger] surplus(s, from, k, s[from]) > 0,
        },
{
    let open = s[from];
    lemma_surplus_step(s, from, from, open);
    lemma_times_held(Seq::empty(), open, open);
    lemma_times_held(Seq::empty(), open, closer(open));
    assert(s.subrange(from, from) =~= Seq::empty());
    assert(surplus(s, from, from, open) == 0);
    assert(closed_at(s, from, 0, open) == closed_at(s, from + 1, 1, open));
    lemma_closed_where_balanced(s, from, from + 1, 1, open);
}

/// Fragments are found one after the other: from the next opening character to where it is closed, if
/// that is long enough, and then from there on. Nothing is found after one that is never closed.
pub proof fn law_every_fragment_is_found(
    s: Seq<char>,
    from: int,
    i: int,
    arrays: bool,
    least: usize,
)
    requires
        0 <= from <= i <= s.len(),
        forall|k: int|
            from <= k < i ==> #[trigger] s[k] != '{' && !(arrays && s[k] == '['),
        i < s.len() ==> s[i] == '{' || (arrays && s[i] == '['),
    ensures
        i == s.len() ==> fragments_from(s, from, arrays, least).len() == 0,
        i < s.len() ==> match closed_at(s, i, 0, s[i]) {
            Some(j) => if byte_len(s.subrange(i, j + 1)) >= least {
                fragments_from(s, from, arrays, least) == seq![s.subrange(i, j + 1)]
                    + fragments_from(s, j + 1, arrays, least)
            } else {
                fragments_from(s, from, arrays, least) == fragments_from(s, j + 1, arrays, least)
            },
            None => fragments_from(s, from, arrays, least).len() == 0,
        },
    decreases i - from,
{
    if from < i {
        assert(s[from] != '{' && !(arrays && s[from] == '['));
        law_every_fragment_is_found(s, from + 1, i, arrays, least);
    } else if i < s.len() {
        if let Some(j) = closed_at(s, i, 0, s[i]) {
            let rest = fragments_from(s, j + 1, arrays, least);
            assert(Seq::<Seq<char>>::empty() + rest =~= rest);
        }
    }
}

fn closing_place(chars: &Vec<char>, from: usize) -> (r: Option<usize>)
    requires
        from < chars@.len(),
        chars@[from as int] == '{' || chars@[from as int] == '[',
    ensures
        match r {
            Some(i) => closed_at(chars@, from as int, 0, chars@[from as int]) == Some(i as int)
                && i < chars@.len(),
            None => closed_at(chars@, from as int, 0, chars@[from as int]) is None,
        },
{
    let open = chars[from];
    let close: char = if open == '{' {
        '}'
    } else {
        ']'
    };
    let mut depth: usize = 0;
    let mut i: usize = from;
    while i < chars.len()
        invariant
            from <= i <= chars@.len(),
            depth <= i,
            open == chars@[from as int],
            close == closer(open),
            closed_at(chars@, from as int, 0, open) == closed_at(
                chars@,
                i as int,
                depth as nat,
                open,
            ),
        decreases chars@.len() - i,
    {
        if chars[i] == open {
            depth += 1;
        } else if chars[i] == close {
            if depth <= 1 {
                return Some(i);
            }
            depth -= 1;
        }
        i += 1;
    }
    None
}

/// The balanced fragments of a text that are long enough to be worth reading.
pub fn find_fragments(text: &str, arrays: bool, least: usize) -> (r: Vec<String>)
    ensures
        texts(r@) == fragments(text@, arrays, least),
{
    let chars = chars_of(text);
    let mut r: Vec<String> = Vec::new();
    let mut i: usize = 0;
    proof {
        assert(texts(r@) + fragments_from(text@, 0, arrays, least) =~= fragments(
            text@,
            arrays,
            least,
        ));
    }
    while i < chars.len()
        invariant
            i <= chars@.len(),
            chars@ == text@,
            texts(r@) + fragments_from(text@, i as int, arrays, least) == fragments(
                text@,
                arrays,
                least,
            ),
        decreases chars@.len() - i,
    {
        let c = chars[i];
        if !(c == '{' || (arrays && c == '[')) {
            i += 1;
        } else {
            match closing_place(&chars, i) {
                Some(end) => {
                    let ghost before = r@;
                    let ghost rest = fragments_from(text@, end + 1, arrays, least);
                    proof {
                        lemma_closed_at(text@, i as int, 0, c);
                    }
                    let fragment = slice_of(chars.as_slice(), i, end + 1);
                    if byte_length(fragment.as_str()) >= least {
                        r.push(fragment);
                        proof {
                            assert(texts(r@) =~= texts(before).push(fragment@));
                            assert(texts(r@) + rest =~= texts(before) + (seq![fragment@] + rest));
                        }
                    } else {
                        assert(Seq::<Seq<char>>::empty() + rest =~= rest);
                    }
                    i = end + 1;
                },
                None => {
                    assert(texts(r@) =~= fragments(text@, arrays, least));
                    return r;
                },
            }
        }
    }
    assert(texts(r@) =~= fragments(text@, arrays, least));
    r
}

} // verus!
