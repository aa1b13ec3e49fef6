//! Strings as sequences of characters: cutting, searching and joining them.

use vstd::hash_set::StringHashSet;
use vstd::prelude::*;

verus! {

/// `String::push` appends one character.
pub assume_specification[ String::push ](s: &mut String, c: char)
    ensures
        final(s)@ == old(s)@.push(c),
;

/// The characters of a string.
pub fn chars_of(s: &str) -> (r: Vec<char>)
    ensures
        r@ == s@,
{
    let mut r: Vec<char> = Vec::new();
    for c in it: s.chars()
        invariant
            r@ == it.seq().take(it.index() as int),
            it.seq() == s@,
    {
        r.push(c);
    }
    assert(r@ =~= s@);
    r
}

/// The string made of the characters from `from` up to `to`.
pub fn slice_of(chars: &[char], from: usize, to: usize) -> (r: String)
    requires
        from <= to <= chars@.len(),
    ensures
        r@ == chars@.subrange(from as int, to as int),
{
    let mut r = String::new();
    let mut i: usize = from;
    while i < to
        invariant
            from <= i <= to <= chars@.len(),
            r@ == chars@.subrange(from as int, i as int),
        decreases to - i,
    {
        r.push(chars[i]);
        i += 1;
        assert(r@ =~= chars@.subrange(from as int, i as int));
    }
    r
}

/// Whether a character counts as white space in Unicode.
pub open spec fn is_white(c: char) -> bool {
    ||| '\u{9}' <= c <= '\u{d}'
    ||| c == ' '
    ||| c == '\u{85}'
    ||| c == '\u{a0}'
    ||| c == '\u{1680}'
    ||| '\u{2000}' <= c <= '\u{200a}'
    ||| c == '\u{2028}'
    ||| c == '\u{2029}'
    ||| c == '\u{202f}'
    ||| c == '\u{205f}'
    ||| c == '\u{3000}'
}

/// Whether a character counts as white space in Unicode.
pub fn is_white_space(c: char) -> (r: bool)
    ensures
        r == is_white(c),
{
    ('\u{9}' <= c && c <= '\u{d}') || c == ' ' || c == '\u{85}' || c == '\u{a0}' || c == '\u{1680}'
        || ('\u{2000}' <= c && c <= '\u{200a}') || c == '\u{2028}' || c == '\u{2029}' || c
        == '\u{202f}' || c == '\u{205f}' || c == '\u{3000}'
}

/// White space is what Unicode counts as such, by its numbers.
pub proof fn law_white_space_by_number(c: char)
    ensures
        is_white(c) <==> {
            let n = c as u32;
            9 <= n <= 13 || n == 32 || n == 133 || n == 160 || n == 5760 || 8192 <= n <= 8202 || n
                == 8232 || n == 8233 || n == 8239 || n == 8287 || n == 12288
        },
{
}

/// A text without the white space at its start.
pub open spec fn trimmed_start(s: Seq<char>) -> Seq<char>
    decreases s.len(),
{
    if s.len() > 0 && is_white(s[0]) {
        trimmed_start(s.drop_first())
    } else {
        s
    }
}

/// A text without the white space at its end.
pub open spec fn trimmed_end(s: Seq<char>) -> Seq<char>
    decreases s.len(),
{
    if s.len() > 0 && is_white(s.last()) {
        trimmed_end(s.drop_last())
    } else {
        s
    }
}

/// A text without the white space around it.
pub open spec fn trimmed(s: Seq<char>) -> Seq<char> {
    trimmed_end(trimmed_start(s))
}

/// Whether a text holds nothing but white space.
pub open spec fn is_blank(s: Seq<char>) -> bool {
    forall|i: int| 0 <= i < s.len() ==> is_white(#[trigger] s[i])
}

proof fn lemma_trimmed_start(s: Seq<char>, n: int)
    requires
        0 <= n <= s.len(),
        forall|i: int| 0 <= i < n ==> is_white(#[trigger] s[i]),
    ensures
        trimmed_start(s) == trimmed_start(s.skip(n)),
    decreases n,
{
    if n > 0 {
        assert(s.drop_first().skip(n - 1) =~= s.skip(n));
        assert forall|i: int| 0 <= i < n - 1 implies is_white(#[trigger] s.drop_first()[i]) by {
            assert(is_white(s[i + 1]));
        }
        lemma_trimmed_start(s.drop_first(), n - 1);
    } else {
        assert(s.skip(0) =~= s);
    }
}

proof fn lemma_trimmed_end(s: Seq<char>, n: int)
    requires
        0 <= n <= s.len(),
        forall|i: int| n <= i < s.len() ==> is_white(#[trigger] s[i]),
    ensures
        trimmed_end(s) == trimmed_end(s.take(n)),
    decreases s.len() - n,
{
    if n < s.len() {
        assert(is_white(s[s.len() - 1]));
        assert(s.drop_last().take(n) =~= s.take(n));
        lemma_trimmed_end(s.drop_last(), n);
    } else {
        assert(s.take(n) =~= s);
    }
}

/// Trimming leaves nothing exactly of the texts that hold nothing but white space.
pub proof fn lemma_trimmed_blank(s: Seq<char>)
    ensures
        trimmed(s).len() == 0 <==> is_blank(s),
    decreases s.len(),
{
    if s.len() > 0 && is_white(s[0]) {
        lemma_trimmed_blank(s.drop_first());
        if is_blank(s.drop_first()) {
            assert forall|i: int| 0 <= i < s.len() implies is_white(#[trigger] s[i]) by {
                if i > 0 {
                    assert(is_white(s.drop_first()[i - 1]));
                }
            }
        }
        if is_blank(s) {
            assert forall|i: int| 0 <= i < s.len() - 1 implies is_white(
                #[trigger] s.drop_first()[i],
            ) by {
                assert(is_white(s[i + 1]));
            }
        }
    } else if s.len() > 0 {
        lemma_trimmed_end_keeps_first(s);
        assert(!is_white(s[0]));
    }
}

proof fn lemma_trimmed_end_keeps_first(s: Seq<char>)
    requires
        s.len() > 0,
        !is_white(s[0]),
    ensures
        trimmed_end(s).len() > 0,
    decreases s.len(),
{
    if is_white(s.last()) {
        lemma_trimmed_end_keeps_first(s.drop_last());
    }
}

proof fn lemma_trimmed_start_bare(s: Seq<char>)
    ensures
        trimmed_start(s).len() > 0 ==> !is_white(trimmed_start(s)[0]),
    decreases s.len(),
{
    if s.len() > 0 && is_white(s[0]) {
        lemma_trimmed_start_bare(s.drop_first());
    }
}

proof fn lemma_trimmed_end_bare(s: Seq<char>)
    ensures
        trimmed_end(s).len() > 0 ==> !is_white(trimmed_end(s).last()) && trimmed_end(s)[0] == s[0],
        trimmed_end(s).len() <= s.len(),
    decreases s.len(),
{
    if s.len() > 0 && is_white(s.last()) {
        lemma_trimmed_end_bare(s.drop_last());
    }
}

/// White space around a text is taken off, all of it and nothing else.
pub proof fn law_white_space_is_trimmed(before: Seq<char>, text: Seq<char>, after: Seq<char>)
    requires
        is_blank(before),
        is_blank(after),
        text.len() > 0,
        !is_white(text[0]),
        !is_white(text.last()),
    ensures
        trimmed(before + text + after) == text,
        trimmed(before).len() == 0,
{
    let all = before + text + after;
    lemma_trimmed_start(all, before.len() as int);
    let rest = all.skip(before.len() as int);
    assert(rest =~= text + after);
    assert(rest[0] == text[0]);
    assert forall|i: int| text.len() <= i < rest.len() implies is_white(#[trigger] rest[i]) by {
        assert(rest[i] == after[i - text.len()]);
    }
    lemma_trimmed_end(rest, text.len() as int);
    assert(rest.take(text.len() as int) =~= text);
    lemma_trimmed_blank(before);
}

/// To trim a text again changes nothing.
pub proof fn law_trimmed_twice(s: Seq<char>)
    ensures
        trimmed(trimmed(s)) == trimmed(s),
{
    lemma_trimmed_start_bare(s);
    lemma_trimmed_end_bare(trimmed_start(s));
}

/// The bounds of a text without the white space around it.
fn trim_bounds(chars: &[char]) -> (r: (usize, usize))
    ensures
        r.0 <= r.1 <= chars@.len(),
        chars@.subrange(r.0 as int, r.1 as int) == trimmed(chars@),
{
    let mut start: usize = 0;
    while start < chars.len() && is_white_space(chars[start])
        invariant
            start <= chars@.len(),
            forall|i: int| 0 <= i < start ==> is_white(#[trigger] chars@[i]),
        decreases chars@.len() - start,
    {
        start += 1;
    }
    let mut end: usize = chars.len();
    while start < end && is_white_space(chars[end - 1])
        invariant
            start <= end <= chars@.len(),
            forall|i: int| end <= i < chars@.len() ==> is_white(#[trigger] chars@[i]),
        decreases end,
    {
        end -= 1;
    }
    proof {
        let s = chars@;
        lemma_trimmed_start(s, start as int);
        let t = s.skip(start as int);
        assert(trimmed_start(t) == t);
        let n = end - start;
        assert forall|i: int| n <= i < t.len() implies is_white(#[trigger] t[i]) by {
            assert(is_white(s[i + start]));
        }
        lemma_trimmed_end(t, n);
        assert(t.take(n) =~= s.subrange(start as int, end as int));
        if n > 0 {
            assert(t.take(n).last() == s[end - 1]);
        }
        assert(trimmed_end(t.take(n)) == t.take(n));
    }
    (start, end)
}

/// A text without the white space around it.
pub fn trim(s: &str) -> (r: String)
    ensures
        r@ == trimmed(s@),
{
    let chars = chars_of(s);
    let (start, end) = trim_bounds(chars.as_slice());
    slice_of(chars.as_slice(), start, end)
}

/// Whether a text holds nothing but white space.
pub fn blank(s: &str) -> (r: bool)
    ensures
        r == is_blank(s@),
        r == (trimmed(s@).len() == 0),
{
    proof {
        lemma_trimmed_blank(s@);
    }
    let chars = chars_of(s);
    let mut i: usize = 0;
    while i < chars.len()
        invariant
            i <= chars@.len(),
            chars@ == s@,
            is_blank(s@) <==> trimmed(s@).len() == 0,
            forall|k: int| 0 <= k < i ==> is_white(#[trigger] chars@[k]),
        decreases chars@.len() - i,
    {
        if !is_white_space(chars[i]) {
            assert(!is_white(s@[i as int]));
            return false;
        }
        i += 1;
    }
    true
}

/// Whether `part` stands in `s` from place `i` on.
pub open spec fn stands_at<T>(s: Seq<T>, part: Seq<T>, i: int) -> bool {
    0 <= i && i + part.len() <= s.len() && s.subrange(i, i + part.len()) == part
}

/// Whether `part` stands anywhere in `s`.
pub open spec fn has_part<T>(s: Seq<T>, part: Seq<T>) -> bool {
    exists|i: int| stands_at(s, part, i)
}

/// The first place, `from` or after it, where `part` stands in `s`.
pub open spec fn place_of<T>(s: Seq<T>, part: Seq<T>, from: int) -> Option<int>
    decreases s.len() - from + 1,
{
    if from < 0 || from + part.len() > s.len() {
        None
    } else if stands_at(s, part, from) {
        Some(from)
    } else {
        place_of(s, part, from + 1)
    }
}

/// The first place is one where the part stands, and it stands at none before it.
pub proof fn lemma_place_of<T>(s: Seq<T>, part: Seq<T>, from: int)
    requires
        0 <= from,
    ensures
        match place_of(s, part, from) {
            Some(i) => from <= i && stands_at(s, part, i) && forall|j: int|
                from <= j < i ==> !stands_at(s, part, j),
            None => forall|j: int| from <= j ==> !stands_at(s, part, j),
        },
    decreases s.len() - from + 1,
{
    if from + part.len() <= s.len() && !stands_at(s, part, from) {
        lemma_place_of(s, part, from + 1);
    }
}

/// Whether `part` stands in `chars` from place `i` on.
pub fn part_at(chars: &[char], part: &[char], i: usize) -> (r: bool)
    ensures
        r == stands_at(chars@, part@, i as int),
{
    if part.len() > chars.len() || i > chars.len() - part.len() {
        return false;
    }
    let n: usize = chars.len();
    let mut k: usize = 0;
    while k < part.len()
        invariant
            k <= part@.len(),
            n == chars@.len(),
            i + part@.len() <= chars@.len(),
            forall|m: int| 0 <= m < k ==> chars@[i + m] == part@[m],
        decreases part@.len() - k,
    {
        if chars[i + k] != part[k] {
            assert(chars@.subrange(i as int, i + part@.len())[k as int] != part@[k as int]);
            return false;
        }
        k += 1;
    }
    assert(chars@.subrange(i as int, i + part@.len()) =~= part@);
    true
}

/// The first place, `from` or after it, where `part` stands in `chars`.
pub fn find_part(chars: &[char], part: &[char], from: usize) -> (r: Option<usize>)
    ensures
        match r {
            Some(i) => place_of(chars@, part@, from as int) == Some(i as int),
            None => place_of(chars@, part@, from as int) is None,
        },
{
    let mut i: usize = from;
    while part.len() <= chars.len() && i <= chars.len() - part.len()
        invariant
            from <= i,
            place_of(chars@, part@, from as int) == place_of(chars@, part@, i as int),
        decreases chars@.len() + 1 - i,
    {
        if part_at(chars, part, i) {
            return Some(i);
        }
        if i == chars.len() - part.len() {
            assert(place_of(chars@, part@, i + 1) is None);
            return None;
        }
        i += 1;
    }
    None
}

/// Whether `part` stands anywhere in `s`.
pub fn contains(s: &str, part: &str) -> (r: bool)
    ensures
        r == has_part(s@, part@),
{
    let chars = chars_of(s);
    let needle = chars_of(part);
    holds_part(chars.as_slice(), needle.as_slice())
}

/// Whether `part` stands anywhere in `chars`.
pub fn holds_part(chars: &[char], part: &[char]) -> (r: bool)
    ensures
        r == has_part(chars@, part@),
{
    proof {
        lemma_place_of(chars@, part@, 0);
    }
    find_part(chars, part, 0).is_some()
}

/// Whether `s` starts with `part`.
pub fn starts_with(s: &str, part: &str) -> (r: bool)
    ensures
        r == part@.is_prefix_of(s@),
{
    let chars = chars_of(s);
    let needle = chars_of(part);
    let r = part_at(chars.as_slice(), needle.as_slice(), 0);
    assert(r == part@.is_prefix_of(s@));
    r
}

/// Whether `s` ends with `part`.
pub fn ends_with(s: &str, part: &str) -> (r: bool)
    ensures
        r == part@.is_suffix_of(s@),
{
    let chars = chars_of(s);
    let needle = chars_of(part);
    if needle.len() > chars.len() {
        return false;
    }
    part_at(chars.as_slice(), needle.as_slice(), chars.len() - needle.len())
}

/// Whether two texts are the same.
pub fn same(a: &str, b: &str) -> (r: bool)
    ensures
        r == (a@ == b@),
{
    let x = chars_of(a);
    let y = chars_of(b);
    if x.len() != y.len() {
        return false;
    }
    part_at_whole(x.as_slice(), y.as_slice())
}

fn part_at_whole(x: &[char], y: &[char]) -> (r: bool)
    requires
        x@.len() == y@.len(),
    ensures
        r == (x@ == y@),
{
    let r = part_at(x, y, 0);
    assert(x@.subrange(0, y@.len() as int) =~= x@);
    r
}

/// The text of an optional string.
pub open spec fn text_opt(s: Option<String>) -> Option<Seq<char>> {
    match s {
        Some(t) => Some(t@),
        None => None,
    }
}

/// The text of an optional string slice.
pub open spec fn str_opt(s: Option<&str>) -> Option<Seq<char>> {
    match s {
        Some(t) => Some(t@),
        None => None,
    }
}

/// The texts of a list of strings.
pub open spec fn texts(v: Seq<String>) -> Seq<Seq<char>> {
    v.map_values(|s: String| s@)
}

/// Every string of a list is read, in order and as it is.
pub proof fn law_every_string_is_read(v: Seq<String>, i: int)
    requires
        0 <= i < v.len(),
    ensures
        texts(v).len() == v.len(),
        texts(v)[i] == v[i]@,
        text_opt(Some(v[i])) == Some(v[i]@),
        text_opt(None) is None,
{
}

/// The digit of a number below ten.
pub open spec fn digit(n: nat) -> char {
    ('0' as u32 + n) as char
}

/// A number written in decimal digits.
pub open spec fn decimal(n: nat) -> Seq<char>
    decreases n,
{
    if n < 10 {
        seq![digit(n)]
    } else {
        decimal(n / 10).push(digit(n % 10))
    }
}

fn digit_char(n: u64) -> (r: char)
    requires
        n < 10,
    ensures
        r == digit(n as nat),
{
    match n {
        0 => '0',
        1 => '1',
        2 => '2',
        3 => '3',
        4 => '4',
        5 => '5',
        6 => '6',
        7 => '7',
        8 => '8',
        _ => '9',
    }
}

/// A number written in decimal digits.
pub fn decimal_u64(n: u64) -> (r: String)
    ensures
        r@ == decimal(n as nat),
    decreases n,
{
    if n < 10 {
        let mut r = String::new();
        r.push(digit_char(n));
        assert(r@ =~= decimal(n as nat));
        r
    } else {
        let mut r = decimal_u64(n / 10);
        r.push(digit_char(n % 10));
        r
    }
}

/// A whole number in decimal digits, with a minus sign where it is below zero.
pub open spec fn decimal_signed(n: int) -> Seq<char> {
    if n < 0 {
        seq!['-'] + decimal((-n) as nat)
    } else {
        decimal(n as nat)
    }
}

/// A whole number in decimal digits, with a minus sign where it is below zero.
pub fn decimal_i64(n: i64) -> (r: String)
    ensures
        r@ == decimal_signed(n as int),
{
    if n < 0 {
        let mut r = String::new();
        r.push('-');
        let magnitude: u64 = if n == i64::MIN {
            0x8000_0000_0000_0000
        } else {
            (-n) as u64
        };
        let digits = decimal_u64(magnitude);
        r.append(digits.as_str());
        assert(r@ =~= decimal_signed(n as int));
        r
    } else {
        decimal_u64(n as u64)
    }
}

/// The texts of a list without those that stand earlier in it.
pub open spec fn distinct(v: Seq<Seq<char>>) -> Seq<Seq<char>>
    decreases v.len(),
{
    if v.len() == 0 {
        Seq::empty()
    } else {
        let before = distinct(v.drop_last());
        if before.contains(v.last()) {
            before
        } else {
            before.push(v.last())
        }
    }
}

/// The distinct texts are those of the list, each of them once.
pub proof fn law_distinct_keeps_each_once(v: Seq<Seq<char>>)
    ensures
        distinct(v).no_duplicates(),
        distinct(v).len() <= v.len(),
        forall|s: Seq<char>| #[trigger] distinct(v).contains(s) <==> v.contains(s),
    decreases v.len(),
{
    if v.len() > 0 {
        let before = v.drop_last();
        law_distinct_keeps_each_once(before);
        let d = distinct(before);
        assert forall|s: Seq<char>| #[trigger] distinct(v).contains(s) <==> v.contains(s) by {
            if before.contains(s) {
                let i = before.index_of(s);
                assert(v[i] == s);
                assert(d.contains(s));
                let k = d.index_of(s);
                assert(distinct(v)[k] == s);
            }
            if v.contains(s) && !before.contains(s) {
                let i = v.index_of(s);
                if i < before.len() {
                    assert(before[i] == s);
                }
                assert(s == v.last());
                assert(!d.contains(s));
                assert(distinct(v)[d.len() as int] == s);
            }
            if distinct(v).contains(s) {
                let k = distinct(v).index_of(s);
                if k < d.len() {
                    assert(d[k] == s);
                    assert(d.contains(s));
                    let i = before.index_of(s);
                    assert(v[i] == s);
                } else {
                    assert(s == v.last());
                    assert(v[v.len() - 1] == s);
                }
            }
        }
    }
}

/// The texts of a list without those that stand earlier in it.
pub fn distinct_texts(v: &Vec<String>) -> (r: Vec<String>)
    ensures
        texts(r@) == distinct(texts(v@)),
{
    let mut r: Vec<String> = Vec::new();
    let mut seen = StringHashSet::new();
    let ghost all = texts(v@);
    let mut i: usize = 0;
    proof {
        assert(texts(r@) =~= distinct(all.take(0)));
    }
    while i < v.len()
        invariant
            i <= v@.len(),
            all == texts(v@),
            texts(r@) == distinct(all.take(i as int)),
            forall|s: Seq<char>| #[trigger] seen@.contains(s) <==> distinct(all.take(i as int)).contains(s),
        decreases v@.len() - i,
    {
        let ghost before = distinct(all.take(i as int));
        let ghost known = r@;
        proof {
            assert(all.take(i + 1).drop_last() =~= all.take(i as int));
            assert(all.take(i + 1).last() == v@[i as int]@);
        }
        if seen.insert(v[i].clone()) {
            r.push(v[i].clone());
            proof {
                let s = v@[i as int]@;
                assert(texts(r@) =~= texts(known).push(s));
                assert forall|t: Seq<char>| #[trigger] before.push(s).contains(t) <==> before.contains(
                    t,
                ) || t == s by {
                    if before.contains(t) {
                        let k = before.index_of(t);
                        assert(before.push(s)[k] == t);
                    }
                    assert(before.push(s)[before.len() as int] == s);
                }
            }
        }
        i += 1;
    }
    assert(all.take(i as int) =~= all);
    r
}

/// The texts of a list come in the order in which they first stood in it: one more text comes last,
/// if the list has it not.
pub proof fn law_distinct_keeps_the_order(v: Seq<Seq<char>>, text: Seq<char>)
    ensures
        v.contains(text) ==> distinct(v.push(text)) == distinct(v),
        !v.contains(text) ==> distinct(v.push(text)) == distinct(v).push(text),
        distinct(Seq::empty()).len() == 0,
{
    assert(v.push(text).drop_last() =~= v);
    law_distinct_keeps_each_once(v);
}

/// Texts one after the other, with a separator between each and the next.
pub open spec fn joined(v: Seq<Seq<char>>, separator: Seq<char>) -> Seq<char>
    decreases v.len(),
{
    if v.len() == 0 {
        Seq::empty()
    } else if v.len() == 1 {
        v[0]
    } else {
        joined(v.drop_last(), separator) + separator + v.last()
    }
}

/// Texts one after the other, with a separator between each and the next.
pub fn join(v: &Vec<String>, separator: &str) -> (r: String)
    ensures
        r@ == joined(texts(v@), separator@),
{
    let mut r = String::new();
    let ghost all = texts(v@);
    let mut i: usize = 0;
    while i < v.len()
        invariant
            i <= v@.len(),
            all == texts(v@),
            r@ == joined(all.take(i as int), separator@),
        decreases v@.len() - i,
    {
        proof {
            assert(all.take(i + 1).drop_last() =~= all.take(i as int));
            assert(all.take(i + 1).last() == v@[i as int]@);
        }
        if i > 0 {
            r.append(separator);
        }
        r.append(v[i].as_str());
        i += 1;
        if i == 1 {
            assert(r@ =~= all.take(1)[0]);
        }
    }
    assert(all.take(i as int) =~= all);
    r
}

/// Texts are joined one after the other: each stands in full, with one separator before it unless it is
/// the first.
pub proof fn law_texts_are_joined(v: Seq<Seq<char>>, text: Seq<char>, separator: Seq<char>)
    ensures
        v.len() > 0 ==> joined(v.push(text), separator) == joined(v, separator) + separator + text,
        joined(seq![text], separator) == text,
        joined(Seq::empty(), separator).len() == 0,
{
    assert(v.push(text).drop_last() =~= v);
}

/// Capitals of ASCII are made small, and all other characters stay.
pub proof fn law_capitals_are_made_small(s: Seq<char>, i: int)
    requires
        0 <= i < s.len(),
    ensures
        ascii_lower(s).len() == s.len(),
        'A' <= s[i] <= 'Z' ==> ascii_lower(s)[i] as u32 == s[i] as u32 + 32,
        !('A' <= s[i] <= 'Z') ==> ascii_lower(s)[i] == s[i],
{
}

/// A line without a carriage return at its end.
pub open spec fn without_return(line: Seq<char>) -> Seq<char> {
    if line.len() > 0 && line.last() == '\r' {
        line.drop_last()
    } else {
        line
    }
}

/// The place of the first line feed, `from` or after it; the length where there is none.
pub open spec fn line_end(s: Seq<char>, from: int) -> int
    decreases s.len() - from,
{
    if from < 0 || from >= s.len() {
        s.len() as int
    } else if s[from] == '\n' {
        from
    } else {
        line_end(s, from + 1)
    }
}

proof fn lemma_line_end(s: Seq<char>, from: int)
    requires
        0 <= from <= s.len(),
    ensures
        from <= line_end(s, from) <= s.len(),
        line_end(s, from) < s.len() ==> s[line_end(s, from)] == '\n',
    decreases s.len() - from,
{
    if from < s.len() && s[from] != '\n' {
        lemma_line_end(s, from + 1);
    }
}

/// The lines of a text from a place on. A line ends with a line feed, before which a carriage
/// return may stand; the last may end without one.
pub open spec fn lines_from(s: Seq<char>, from: int) -> Seq<Seq<char>>
    decreases s.len() - from,
    via lines_from_decreases
{
    if from < 0 || from >= s.len() {
        Seq::empty()
    } else if line_end(s, from) >= s.len() {
        seq![s.skip(from)]
    } else {
        seq![without_return(s.subrange(from, line_end(s, from)))] + lines_from(
            s,
            line_end(s, from) + 1,
        )
    }
}

#[via_fn]
proof fn lines_from_decreases(s: Seq<char>, from: int) {
    if 0 <= from < s.len() {
        lemma_line_end(s, from);
    }
}

/// The lines of a text.
pub open spec fn lines(s: Seq<char>) -> Seq<Seq<char>> {
    lines_from(s, 0)
}

proof fn lemma_line_end_shift_at(s: Seq<char>, from: int, k: int)
    requires
        0 <= from <= s.len(),
        0 <= k <= s.len() - from,
    ensures
        line_end(s.skip(from), k) == line_end(s, from + k) - from,
    decreases s.len() - from - k,
{
    if k < s.len() - from {
        assert(s.skip(from)[k] == s[from + k]);
        if s[from + k] != '\n' {
            lemma_line_end_shift_at(s, from, k + 1);
        }
    }
}

proof fn lemma_lines_shift(s: Seq<char>, from: int, k: int)
    requires
        0 <= from <= s.len(),
        0 <= k <= s.len() - from,
    ensures
        lines_from(s.skip(from), k) == lines_from(s, from + k),
    decreases s.len() - from - k,
{
    let rest = s.skip(from);
    if k < rest.len() {
        lemma_line_end_shift_at(s, from, k);
        lemma_line_end(rest, k);
        let end = line_end(rest, k);
        if end >= rest.len() {
            assert(rest.skip(k) =~= s.skip(from + k));
        } else {
            assert(rest.subrange(k, end) =~= s.subrange(from + k, from + end));
            lemma_lines_shift(s, from, end + 1);
        }
    }
}

proof fn lemma_no_feed(s: Seq<char>, a: int, from: int)
    requires
        0 <= from <= a <= s.len(),
        forall|i: int| from <= i < a ==> s[i] != '\n',
        a == s.len() || s[a] == '\n',
    ensures
        line_end(s, from) == a,
    decreases a - from,
{
    if from < a {
        lemma_no_feed(s, a, from + 1);
    }
}

/// A text is cut into lines at every line feed, and nowhere else: the part up to the first one is the
/// first line, without a carriage return before it, and the rest has the other lines. What follows the
/// last line feed is a line of its own, unless it is empty.
pub proof fn law_lines_end_at_line_feeds(line: Seq<char>, rest: Seq<char>)
    requires
        forall|i: int| 0 <= i < line.len() ==> #[trigger] line[i] != '\n',
    ensures
        lines(line.push('\n') + rest) == seq![
            if line.len() > 0 && line.last() == '\r' {
                line.drop_last()
            } else {
                line
            },
        ] + lines(rest),
        line.len() > 0 ==> lines(line) == seq![line],
        lines(Seq::empty()).len() == 0,
{
    let all = line.push('\n') + rest;
    let n = line.len() as int;
    lemma_no_feed(all, n, 0);
    assert(all.subrange(0, n) =~= line);
    assert(all.skip(n + 1) =~= rest);
    lemma_lines_shift(all, n + 1, 0);
    if n > 0 {
        lemma_no_feed(line, n, 0);
        assert(line.skip(0) =~= line);
    }
}

/// The lines of a text.
pub fn lines_of(s: &str) -> (r: Vec<String>)
    ensures
        texts(r@) == lines(s@),
{
    let chars = chars_of(s);
    let mut r: Vec<String> = Vec::new();
    let mut start: usize = 0;
    proof {
        assert(texts(r@) + lines_from(s@, 0) =~= lines(s@));
    }
    while start < chars.len()
        invariant
            start <= chars@.len(),
            chars@ == s@,
            texts(r@) + lines_from(s@, start as int) == lines(s@),
        decreases chars@.len() - start,
    {
        let mut end: usize = start;
        while end < chars.len() && chars[end] != '\n'
            invariant
                start <= end <= chars@.len(),
                chars@ == s@,
                line_end(s@, start as int) == line_end(s@, end as int),
            decreases chars@.len() - end,
        {
            end += 1;
        }
        let ghost before = r@;
        if end >= chars.len() {
            let line = slice_of(chars.as_slice(), start, chars.len());
            proof {
                assert(line@ =~= s@.skip(start as int));
            }
            r.push(line);
            proof {
                assert(texts(r@) =~= texts(before).push(line@));
                assert(texts(r@) =~= texts(before) + lines_from(s@, start as int));
            }
            return r;
        }
        let stop: usize = if end > start && chars[end - 1] == '\r' {
            end - 1
        } else {
            end
        };
        let line = slice_of(chars.as_slice(), start, stop);
        proof {
            let whole = s@.subrange(start as int, end as int);
            assert(line_end(s@, start as int) == end);
            if end > start {
                assert(whole.last() == chars@[end - 1]);
            }
            assert(line@ =~= without_return(whole));
        }
        r.push(line);
        proof {
            assert(texts(r@) =~= texts(before).push(line@));
            assert(texts(r@) + lines_from(s@, end + 1) =~= texts(before) + (seq![line@]
                + lines_from(s@, end + 1)));
        }
        start = end + 1;
    }
    proof {
        assert(texts(r@) =~= lines(s@));
    }
    r
}

/// A character with an ASCII capital made small.
pub open spec fn small(c: char) -> char {
    if 'A' <= c <= 'Z' {
        (c as u32 + 32) as char
    } else {
        c
    }
}

/// A text with its ASCII capitals made small.
pub open spec fn ascii_lower(s: Seq<char>) -> Seq<char> {
    s.map_values(|c: char| small(c))
}

/// A character with an ASCII capital made small.
pub fn small_char(c: char) -> (r: char)
    ensures
        r == small(c),
{
    if 'A' <= c && c <= 'Z' {
        ((c as u8) + 32) as char
    } else {
        c
    }
}

/// Whether a character is one of the ten digits.
pub open spec fn is_digit(c: char) -> bool {
    '0' <= c <= '9'
}

/// The number that some digits write; `None` where one of them is no digit.
pub open spec fn digits_value(s: Seq<char>) -> Option<nat>
    decreases s.len(),
{
    if s.len() == 0 {
        Some(0)
    } else {
        match digits_value(s.drop_last()) {
            Some(n) if is_digit(s.last()) => Some(
                n * 10 + (s.last() as u32 - '0' as u32) as nat,
            ),
            _ => None,
        }
    }
}

/// A text without a plus sign at its start.
pub open spec fn without_plus(s: Seq<char>) -> Seq<char> {
    if s.len() > 0 && s[0] == '+' {
        s.drop_first()
    } else {
        s
    }
}

/// The count that a text is written as: digits only, perhaps after a plus sign, of a number that
/// a `u64` holds.
pub open spec fn written_count(s: Seq<char>) -> Option<u64> {
    if without_plus(s).len() == 0 {
        None
    } else {
        match digits_value(without_plus(s)) {
            Some(n) if n <= u64::MAX => Some(n as u64),
            _ => None,
        }
    }
}

/// A number that was written in decimal digits is read back as it was, with its sign. It is written
/// with digits only, and without a zero in front.
pub proof fn law_numbers_read_back(n: nat)
    ensures
        digits_value(decimal(n)) == Some(n),
        decimal(n).len() > 0,
        forall|i: int| 0 <= i < decimal(n).len() ==> is_digit(#[trigger] decimal(n)[i]),
        n > 0 ==> decimal(n)[0] != '0',
        n <= u64::MAX ==> written_count(decimal(n)) == Some(n as u64),
        n <= i64::MAX ==> written_number(decimal_signed(n as int)) == Some(n as i64),
        0 < n <= 0x8000_0000_0000_0000 ==> written_number(decimal_signed(-(n as int))) == Some(
            (-(n as int)) as i64,
        ),
{
    lemma_digits_back(n);
    let s = decimal(n);
    assert(is_digit(s[0]));
    assert(without_plus(s) == s);
    if n > 0 {
        let negative = seq!['-'] + s;
        assert(negative.drop_first() =~= s);
    }
}

proof fn lemma_digits_back(n: nat)
    ensures
        digits_value(decimal(n)) == Some(n),
        decimal(n).len() > 0,
        forall|i: int| 0 <= i < decimal(n).len() ==> is_digit(#[trigger] decimal(n)[i]),
        n > 0 ==> decimal(n)[0] != '0',
    decreases n,
{
    let s = decimal(n);
    if n < 10 {
        assert(s.drop_last() =~= Seq::empty());
        assert(digits_value(s.drop_last()) == Some(0nat));
        assert(is_digit(s[0]));
    } else {
        lemma_digits_back(n / 10);
        assert(s.drop_last() =~= decimal(n / 10));
        assert forall|i: int| 0 <= i < s.len() implies is_digit(#[trigger] s[i]) by {
            if i < decimal(n / 10).len() {
                assert(s[i] == decimal(n / 10)[i]);
            }
        }
        assert(s[0] == decimal(n / 10)[0]);
    }
}

/// A text is read as a number exactly if it is made of digits only, after one sign at most.
pub proof fn law_only_digits_are_numbers(s: Seq<char>)
    ensures
        digits_value(s) is Some <==> forall|i: int| 0 <= i < s.len() ==> is_digit(#[trigger] s[i]),
    decreases s.len(),
{
    if s.len() > 0 {
        let before = s.drop_last();
        law_only_digits_are_numbers(before);
        if digits_value(s) is Some {
            assert forall|i: int| 0 <= i < s.len() implies is_digit(#[trigger] s[i]) by {
                if i < before.len() {
                    assert(is_digit(before[i]));
                }
            }
        }
        if forall|i: int| 0 <= i < s.len() ==> is_digit(#[trigger] s[i]) {
            assert forall|i: int| 0 <= i < before.len() implies is_digit(#[trigger] before[i]) by {
                assert(is_digit(s[i]));
            }
            assert(is_digit(s[s.len() - 1]));
        }
    }
}

/// Two numbers that are written alike are the same.
pub proof fn law_numbers_are_told_apart(m: nat, n: nat)
    requires
        decimal(m) == decimal(n),
    ensures
        m == n,
{
    lemma_digits_back(m);
    lemma_digits_back(n);
}

/// A text that ends after the last of a separator is cut there in one way only.
pub proof fn lemma_cut_at_last(a: Seq<char>, x: Seq<char>, b: Seq<char>, y: Seq<char>, mark: char)
    requires
        a.push(mark) + x == b.push(mark) + y,
        !x.contains(mark),
        !y.contains(mark),
    ensures
        a == b,
        x == y,
{
    let one = a.push(mark) + x;
    let two = b.push(mark) + y;
    assert(one[a.len() as int] == mark && two[b.len() as int] == mark);
    assert(one.len() == a.len() + 1 + x.len() && two.len() == b.len() + 1 + y.len());
    if a.len() < b.len() {
        let i = b.len() - a.len() - 1;
        assert(0 <= i < x.len());
        assert(one[a.len() + 1 + i] == x[i]);
        assert(x[i] == mark);
    } else if b.len() < a.len() {
        let i = a.len() - b.len() - 1;
        assert(0 <= i < y.len());
        assert(two[b.len() + 1 + i] == y[i]);
        assert(y[i] == mark);
    }
    assert(a =~= one.take(a.len() as int));
    assert(b =~= two.take(a.len() as int));
    assert(x =~= one.skip((a.len() + 1) as int));
    assert(y =~= two.skip((a.len() + 1) as int));
}

proof fn lemma_digits_grow(s: Seq<char>, n: int)
    requires
        0 <= n <= s.len(),
        digits_value(s) is Some,
    ensures
        digits_value(s.take(n)) is Some,
        digits_value(s.take(n))->0 <= digits_value(s)->0,
    decreases s.len() - n,
{
    if n < s.len() {
        assert(s.drop_last().take(n) =~= s.take(n));
        lemma_digits_grow(s.drop_last(), n);
    } else {
        assert(s.take(n) =~= s);
    }
}

proof fn lemma_digits_fail(s: Seq<char>, n: int)
    requires
        0 <= n <= s.len(),
        digits_value(s.take(n)) is None,
    ensures
        digits_value(s) is None,
{
    if digits_value(s) is Some {
        lemma_digits_grow(s, n);
    }
}

/// The count that a text is written as.
pub fn parse_count(text: &str) -> (r: Option<u64>)
    ensures
        r == written_count(text@),
{
    let chars = chars_of(text);
    let start: usize = if chars.len() > 0 && chars[0] == '+' {
        1
    } else {
        0
    };
    let ghost s = without_plus(text@);
    proof {
        assert(s =~= text@.skip(start as int));
    }
    if start >= chars.len() {
        return None;
    }
    let mut value: u64 = 0;
    let mut i: usize = start;
    while i < chars.len()
        invariant
            start <= i <= chars@.len(),
            chars@ == text@,
            s == without_plus(text@),
            s == text@.skip(start as int),
            s.len() > 0,
            digits_value(s.take(i - start)) == Some(value as nat),
        decreases chars@.len() - i,
    {
        let c = chars[i];
        proof {
            assert(s.take(i + 1 - start).drop_last() =~= s.take(i - start));
            assert(s.take(i + 1 - start).last() == c);
        }
        if !('0' <= c && c <= '9') {
            proof {
                lemma_digits_fail(s, i + 1 - start);
            }
            return None;
        }
        let d: u64 = (c as u8 - '0' as u8) as u64;
        match value.checked_mul(10) {
            Some(shifted) => match shifted.checked_add(d) {
                Some(next) => {
                    value = next;
                },
                None => {
                    proof {
                        if digits_value(s) is Some {
                            lemma_digits_grow(s, i + 1 - start);
                        }
                    }
                    return None;
                },
            },
            None => {
                proof {
                    if digits_value(s) is Some {
                        lemma_digits_grow(s, i + 1 - start);
                    }
                }
                return None;
            },
        }
        i += 1;
    }
    assert(s.take(i - start) =~= s);
    Some(value)
}

/// The whole number that a text is written as: digits after an optional sign, of a number that an
/// `i64` holds.
pub open spec fn written_number(s: Seq<char>) -> Option<i64> {
    if s.len() > 0 && s[0] == '-' {
        match digits_value(s.drop_first()) {
            Some(n) if s.len() > 1 && n <= 0x8000_0000_0000_0000 => Some((-(n as int)) as i64),
            _ => None,
        }
    } else {
        match written_count(s) {
            Some(n) if n <= i64::MAX => Some(n as i64),
            _ => None,
        }
    }
}

/// The whole number that a text is written as.
pub fn parse_number(text: &str) -> (r: Option<i64>)
    ensures
        r == written_number(text@),
{
    let chars = chars_of(text);
    if chars.len() > 0 && chars[0] == '-' {
        let rest = slice_of(chars.as_slice(), 1, chars.len());
        let ghost digits = text@.drop_first();
        assert(rest@ =~= digits);
        if chars.len() > 1 && chars[1] == '+' {
            proof {
                assert(digits.take(1).drop_last() =~= Seq::empty());
                assert(digits.take(1).last() == '+');
                lemma_digits_fail(digits, 1);
            }
            return None;
        }
        match parse_count(rest.as_str()) {
            Some(n) => if n < 0x8000_0000_0000_0000 {
                Some(-(n as i64))
            } else if n == 0x8000_0000_0000_0000 {
                Some(i64::MIN)
            } else {
                None
            },
            None => None,
        }
    } else {
        match parse_count(text) {
            Some(n) => if n <= 0x7fff_ffff_ffff_ffff {
                Some(n as i64)
            } else {
                None
            },
            None => None,
        }
    }
}

/// What `String::from_utf8_lossy` reads some bytes as.
pub uninterp spec fn utf8_lossy(bytes: Seq<u8>) -> Seq<char>;

/// Calls `String::from_utf8_lossy`.
///
/// Claims that the text depends on the bytes alone, and is what they encode where they are
/// valid UTF-8.
#[verifier::external_body]
pub(crate) fn lossy_text(bytes: &[u8]) -> (r: String)
    ensures
        r@ == utf8_lossy(bytes@),
        vstd::utf8::valid_utf8(bytes@) ==> vstd::utf8::encode_utf8(r@) == bytes@,
{
    String::from_utf8_lossy(bytes).into_owned()
}

/// Whether `char::is_alphabetic` takes a character for a letter.
pub uninterp spec fn is_letter(c: char) -> bool;

/// `char::is_alphabetic` depends on the character alone.
pub assume_specification[ char::is_alphabetic ](c: char) -> (r: bool)
    ensures
        r == is_letter(c),
;

/// Whether `char::is_alphanumeric` takes a character for a letter or a number.
pub uninterp spec fn is_letter_or_number(c: char) -> bool;

/// `char::is_alphanumeric` depends on the character alone.
pub assume_specification[ char::is_alphanumeric ](c: char) -> (r: bool)
    ensures
        r == is_letter_or_number(c),
;

/// `char::from_u32` gives the character of a number, unless that is a surrogate or too large.
pub assume_specification[ char::from_u32 ](n: u32) -> (r: Option<char>)
    ensures
        r == if n < 0xd800 || 0xe000 <= n <= 0x10ffff {
            Some(n as char)
        } else {
            None
        },
;

/// The texts of a list of string slices.
pub open spec fn strs(v: Seq<&'static str>) -> Seq<Seq<char>> {
    v.map_values(|s: &'static str| s@)
}

/// Whether one of some parts stands in a text.
pub open spec fn has_any(s: Seq<char>, parts: Seq<Seq<char>>) -> bool {
    exists|i: int| 0 <= i < parts.len() && has_part(s, #[trigger] parts[i])
}

/// Whether one of some parts stands in a text.
pub fn contains_any(s: &str, parts: &Vec<&'static str>) -> (r: bool)
    ensures
        r == has_any(s@, strs(parts@)),
{
    let chars = chars_of(s);
    let ghost all = strs(parts@);
    let mut i: usize = 0;
    while i < parts.len()
        invariant
            i <= parts@.len(),
            chars@ == s@,
            all == strs(parts@),
            forall|k: int| 0 <= k < i ==> !has_part(s@, #[trigger] all[k]),
        decreases parts@.len() - i,
    {
        assert(all[i as int] == parts@[i as int]@);
        let part = chars_of(parts[i]);
        if holds_part(chars.as_slice(), part.as_slice()) {
            return true;
        }
        i += 1;
    }
    false
}

/// What `str::to_lowercase` makes of a text.
pub uninterp spec fn lowercase(text: Seq<char>) -> Seq<char>;

/// Calls `str::to_lowercase`.
///
/// Claims that the result depends on the text alone.
#[verifier::external_body]
pub(crate) fn to_lowercase(text: &str) -> (r: String)
    ensures
        r@ == lowercase(text@),
{
    text.to_lowercase()
}

} // verus!
