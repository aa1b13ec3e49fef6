//! Names for people out of names for programs.

use crate::text::{chars_of, find_part, lemma_place_of, place_of, slice_of};
use vstd::prelude::*;

verus! {

/// The id of the coding agent whose sessions, web app and data directories share one name.
pub const AGENT_ID: &'static str = "claude_code";

/// A character with an ASCII small letter made a capital.
pub open spec fn capital(c: char) -> char {
    if 'a' <= c <= 'z' {
        (c as u32 - 32) as char
    } else {
        c
    }
}

/// An id as a title: a space for every underscore, and a capital at the start of every word.
pub open spec fn title_of(id: Seq<char>) -> Seq<char> {
    Seq::new(
        id.len(),
        |i: int|
            if id[i] == '_' {
                ' '
            } else if i == 0 || id[i - 1] == '_' {
                capital(id[i])
            } else {
                id[i]
            },
    )
}

/// The first word of an id: what stands before its first underscore.
pub open spec fn first_word(id: Seq<char>) -> Seq<char> {
    match place_of(id, "_"@, 0) {
        Some(i) => id.take(i),
        None => id,
    }
}

/// An id as a title.
pub fn to_title(id: &str) -> (r: String)
    ensures
        r@ == title_of(id@),
{
    let chars = chars_of(id);
    let mut r = String::new();
    let mut i: usize = 0;
    while i < chars.len()
        invariant
            i <= chars@.len(),
            chars@ == id@,
            r@ == title_of(id@).take(i as int),
        decreases chars@.len() - i,
    {
        let c = chars[i];
        if c == '_' {
            r.push(' ');
        } else if i == 0 || chars[i - 1] == '_' {
            if 'a' <= c && c <= 'z' {
                r.push(((c as u8) - 32) as char);
            } else {
                r.push(c);
            }
        } else {
            r.push(c);
        }
        i += 1;
        assert(r@ =~= title_of(id@).take(i as int));
    }
    assert(r@ =~= title_of(id@));
    r
}

/// The first word of an id.
pub fn to_first_word(id: &str) -> (r: String)
    ensures
        r@ == first_word(id@),
{
    let chars = chars_of(id);
    let mark = chars_of("_");
    proof {
        lemma_place_of(id@, "_"@, 0);
    }
    match find_part(chars.as_slice(), mark.as_slice(), 0) {
        Some(i) => {
            let r = slice_of(chars.as_slice(), 0, i);
            assert(r@ =~= id@.take(i as int));
            r
        },
        None => id.to_string(),
    }
}

/// The name of the agent in full, as a title.
pub open spec fn agent_title() -> Seq<char> {
    title_of(AGENT_ID@)
}

/// The name that the agent shares with its web app, in small letters.
pub open spec fn agent_word() -> Seq<char> {
    first_word(AGENT_ID@)
}

/// The same word with a capital.
pub open spec fn agent_name() -> Seq<char> {
    title_of(agent_word())
}

/// The name of the agent in full, as a title.
pub fn agent_title_text() -> (r: String)
    ensures
        r@ == agent_title(),
{
    to_title(AGENT_ID)
}

/// The name that the agent shares with its web app, in small letters.
pub fn agent_word_text() -> (r: String)
    ensures
        r@ == agent_word(),
{
    to_first_word(AGENT_ID)
}

/// The name that the agent shares with its web app, with a capital.
pub fn agent_name_text() -> (r: String)
    ensures
        r@ == agent_name(),
{
    to_title(agent_word_text().as_str())
}

} // verus!
