//! Tokens estimated from text that is stored on this machine.

use crate::text::{blank, is_blank, join, joined, texts};
use crate::types::{TokenSums, TokenUsage};
use vstd::prelude::*;

verus! {

/// What the method of every estimate starts with, so that nobody takes an estimate for what a
/// provider has logged.
pub const ESTIMATE_METHOD_PREFIX: &'static str = "cl100k_base tokenizer";

/// How many tokens `cl100k_base` cuts a text into; nothing where it gives up on the text.
pub uninterp spec fn cl100k_tokens(text: Seq<char>) -> Option<u64>;

/// Calls `CoreBPE::encode` of `tiktoken_rs::cl100k_base_singleton` with all special tokens
/// allowed, and counts the tokens. The encoder comes from tables within the crate.
///
/// Claims that whether the text is encoded, and the number of tokens, depend on the text alone.
#[verifier::external_body]
fn encoded_length(text: &str) -> (r: Option<u64>)
    ensures
        r == cl100k_tokens(text@),
{
    let bpe = tiktoken_rs::cl100k_base_singleton();
    bpe.encode(text, &bpe.special_tokens()).ok().map(|encoded| encoded.0.len() as u64)
}

/// The tokens of a text; 0 where the tokenizer gives up on it.
pub open spec fn raw_count(text: Seq<char>) -> u64 {
    match cl100k_tokens(text) {
        Some(n) => n,
        None => 0,
    }
}

/// The tokens of a text; a blank one has none.
pub open spec fn token_count(text: Seq<char>) -> u64 {
    if is_blank(text) {
        0
    } else {
        raw_count(text)
    }
}

/// A text has the tokens that the tokenizer finds in it: a blank text none, and none either where the
/// tokenizer gives up.
pub proof fn law_tokens_are_counted(text: Seq<char>, n: u64)
    ensures
        is_blank(text) ==> token_count(text) == 0,
        !is_blank(text) && cl100k_tokens(text) == Some(n) ==> token_count(text) == n,
        cl100k_tokens(text) == Some(n) ==> raw_count(text) == n,
        cl100k_tokens(text) is None ==> token_count(text) == 0 && raw_count(text) == 0,
{
}

/// The tokens of a text, be it blank.
pub(crate) fn count_all_tokens(text: &str) -> (r: u64)
    ensures
        r == raw_count(text@),
{
    match encoded_length(text) {
        Some(n) => n,
        None => 0,
    }
}

/// Counts the tokens of a text with the `cl100k_base` encoder.
pub fn count_tokens(text: &str) -> (r: u64)
    ensures
        r == token_count(text@),
        is_blank(text@) ==> r == 0,
{
    if blank(text) {
        return 0;
    }
    count_all_tokens(text)
}

/// The usage of which input and output are known.
pub open spec fn usage_of(input: u64, output: u64) -> TokenUsage {
    TokenSums { input: input as nat, output: output as nat, ..TokenSums::zero() }.usage()
}

/// A usage of known input and output has just these, nothing of a cache, and both in its total.
pub proof fn law_known_counts_are_kept(input: u64, output: u64)
    ensures
        usage_of(input, output).input_tokens == input,
        usage_of(input, output).output_tokens == output,
        usage_of(input, output).cache_read_tokens == 0,
        usage_of(input, output).cache_creation_tokens == 0,
        input + output <= u64::MAX ==> usage_of(input, output).total == input + output,
        input + output > u64::MAX ==> usage_of(input, output).total == u64::MAX,
{
}

/// The usage of which input and output are known.
pub fn usage_from_counts(input: u64, output: u64) -> (r: TokenUsage)
    ensures
        r == usage_of(input, output),
        r.input_tokens == input,
        r.output_tokens == output,
{
    let mut usage = TokenUsage {
        input_tokens: input,
        output_tokens: output,
        cache_read_tokens: 0,
        cache_creation_tokens: 0,
        total: 0,
    };
    usage.compute_total();
    usage
}

/// Counts what a user and what an assistant wrote.
pub fn token_usage_from_segments(input_text: &str, output_text: &str) -> (r: TokenUsage)
    ensures
        r == usage_of(token_count(input_text@), token_count(output_text@)),
{
    usage_from_counts(count_tokens(input_text), count_tokens(output_text))
}

/// Counts many texts as one, all of it as output.
pub fn token_usage_from_texts(texts: &[String]) -> (r: TokenUsage)
    ensures
        r == usage_of(0, token_count(joined(crate::text::texts(texts@), "\n"@))),
{
    let mut list: Vec<String> = Vec::new();
    let mut i: usize = 0;
    while i < texts.len()
        invariant
            i <= texts@.len(),
            list@.len() == i,
            forall|k: int| 0 <= k < i ==> (#[trigger] list@[k])@ == texts@[k]@,
        decreases texts@.len() - i,
    {
        list.push(texts[i].clone());
        i += 1;
    }
    assert(crate::text::texts(list@) =~= crate::text::texts(texts@));
    let whole = join(&list, "\n");
    usage_from_counts(0, count_tokens(whole.as_str()))
}

} // verus!
