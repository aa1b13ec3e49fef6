//! ChatGPT Desktop: encrypted conversations, of which only number and size can be told.

use crate::collections::StrMap;
use crate::ledger::{earlier, later};
use crate::text::{decimal, decimal_u64};
use crate::token_estimate::{usage_from_counts, usage_of, ESTIMATE_METHOD_PREFIX};
use crate::types::{capped, MetaTree, MetaValue, ProviderReport, ProviderResult, ScanError};
use vstd::prelude::*;

verus! {

pub struct ChatGPTDesktopProvider;

/// How many bytes of an encrypted conversation stand for a token, roughly.
pub const ATLAS_BYTES_PER_ESTIMATED_TOKEN: u64 = 4;

/// The file of an encrypted conversation.
#[derive(Debug, Clone, Copy, PartialEq, Eq, Structural)]
pub struct Payload {
    /// The size in bytes, where it can be told.
    pub size: Option<u64>,
    /// When the file was last written, in Unix time.
    pub modified: Option<i64>,
}

/// The bytes of some files.
pub open spec fn payload_bytes(files: Seq<Payload>) -> nat
    decreases files.len(),
{
    if files.len() == 0 {
        0
    } else {
        payload_bytes(files.drop_last()) + match files.last().size {
            Some(n) => n as nat,
            None => 0,
        }
    }
}

/// When the first of some files was written.
pub open spec fn first_written(files: Seq<Payload>) -> Option<i64>
    decreases files.len(),
{
    if files.len() == 0 {
        None
    } else {
        match files.last().modified {
            Some(ts) => Some(earlier(first_written(files.drop_last()), ts)),
            None => first_written(files.drop_last()),
        }
    }
}

/// When the last of some files was written.
pub open spec fn last_written(files: Seq<Payload>) -> Option<i64>
    decreases files.len(),
{
    if files.len() == 0 {
        None
    } else {
        match files.last().modified {
            Some(ts) => Some(later(last_written(files.drop_last()), ts)),
            None => last_written(files.drop_last()),
        }
    }
}

/// The tokens that some bytes are taken for: never none.
pub open spec fn estimated_tokens(bytes: u64) -> u64 {
    if bytes / ATLAS_BYTES_PER_ESTIMATED_TOKEN == 0 {
        1
    } else {
        bytes / ATLAS_BYTES_PER_ESTIMATED_TOKEN
    }
}

/// How the tokens were estimated.
pub open spec fn method(conversations: u64, bytes: u64) -> Seq<char> {
    ESTIMATE_METHOD_PREFIX@ + "; estimated from "@ + decimal(conversations as nat)
        + " encrypted Atlas .data payloads ("@ + decimal(bytes as nat) + " bytes ÷ "@ + decimal(
        ATLAS_BYTES_PER_ESTIMATED_TOKEN as nat,
    ) + " bytes/token heuristic)"@
}

/// What ChatGPT Desktop reports of its conversations.
pub open spec fn desktop_report(files: Seq<Payload>) -> ProviderReport {
    let conversations = files.len() as u64;
    let bytes = capped(payload_bytes(files) as int);
    ProviderReport {
        sessions: Some(conversations),
        first_seen: first_written(files),
        last_seen: last_written(files),
        tokens: Some(usage_of(0, estimated_tokens(bytes))),
        tokens_estimated: true,
        tokens_estimate_method: Some(method(conversations, bytes)),
        metadata: Some(
            Map::empty().insert(
                "note"@,
                MetaTree::Text(
                    "Atlas/legacy desktop .data files are encrypted; token count is payload-size heuristic"@,
                ),
            ).insert("payload_bytes"@, MetaTree::Count(bytes)),
        ),
        ..ProviderReport::blank("ChatGPT Desktop"@)
    }
}

/// ChatGPT Desktop reports every file as a session. All their bytes together stand for tokens, four for
/// one and never for none, as output that is marked as estimated. The times of the files give the
/// first and the last.
pub proof fn law_every_payload_counts(files: Seq<Payload>, file: Payload)
    requires
        files.len() < u64::MAX,
    ensures
        ({
            let before = desktop_report(files);
            let after = desktop_report(files.push(file));
            let bytes = payload_bytes(files.push(file));
            let tokens = if bytes >= 4 {
                bytes / 4
            } else {
                1
            };
            &&& after.provider == "ChatGPT Desktop"@
            &&& after.sessions == Some((files.len() + 1) as u64)
            &&& after.first_seen == crate::ledger::least(before.first_seen, file.modified)
            &&& after.last_seen == crate::ledger::most(before.last_seen, file.modified)
            &&& bytes == payload_bytes(files) + match file.size {
                Some(n) => n as nat,
                None => 0,
            }
            &&& bytes <= u64::MAX ==> after.tokens is Some && after.tokens->0.output_tokens == tokens
                && after.tokens->0.total == tokens && after.tokens->0.input_tokens == 0
            &&& bytes <= u64::MAX ==> after.metadata is Some && after.metadata->0.contains_key(
                "payload_bytes"@,
            ) && after.metadata->0["payload_bytes"@] == MetaTree::Count(bytes as u64)
            &&& after.tokens_estimated && after.tokens_estimate_method is Some
            &&& after.hours is None && after.visits is None && after.invocations is None
        }),
        payload_bytes(Seq::empty()) == 0,
        desktop_report(Seq::empty()).first_seen is None,
{
    assert(files.push(file).drop_last() =~= files);
}

/// Every estimate says that it is one: its method starts with the name of the tokenizer.
pub proof fn law_method_names_the_tokenizer(files: Seq<Payload>)
    ensures
        desktop_report(files).tokens_estimate_method is Some,
        "cl100k_base tokenizer"@.is_prefix_of(desktop_report(files).tokens_estimate_method->0),
{
    let method = desktop_report(files).tokens_estimate_method->0;
    let prefix = "cl100k_base tokenizer"@;
    assert(method.take(prefix.len() as int) =~= prefix);
}

fn method_text(conversations: u64, bytes: u64) -> (r: String)
    ensures
        r@ == method(conversations, bytes),
{
    let mut text = ESTIMATE_METHOD_PREFIX.to_string();
    text.append("; estimated from ");
    text.append(decimal_u64(conversations).as_str());
    text.append(" encrypted Atlas .data payloads (");
    text.append(decimal_u64(bytes).as_str());
    text.append(" bytes ÷ ");
    text.append(decimal_u64(ATLAS_BYTES_PER_ESTIMATED_TOKEN).as_str());
    text.append(" bytes/token heuristic)");
    text
}

impl ChatGPTDesktopProvider {
    /// Usage from the files of the conversations in the data directories.
    pub fn scan(&self, dirs: usize, files: &Vec<Payload>) -> (r: Result<ProviderResult, ScanError>)
        ensures
            match r {
                Ok(result) => dirs > 0 && files@.len() > 0 && result.wf() && result@
                    == desktop_report(files@),
                Err(error) => if dirs == 0 {
                    error.is_not_found("ChatGPT Desktop/Atlas not found"@)
                } else {
                    files@.len() == 0 && error.is_not_found(
                        "No ChatGPT Desktop/Atlas conversations found"@,
                    )
                },
            },
    {
        if dirs == 0 {
            return Err(ScanError::NotFound("ChatGPT Desktop/Atlas not found".to_string()));
        }
        if files.len() == 0 {
            return Err(
                ScanError::NotFound("No ChatGPT Desktop/Atlas conversations found".to_string()),
            );
        }
        let mut bytes: u64 = 0;
        let mut first_seen: Option<i64> = None;
        let mut last_seen: Option<i64> = None;
        let mut i: usize = 0;
        while i < files.len()
            invariant
                i <= files@.len(),
                bytes == capped(payload_bytes(files@.take(i as int)) as int),
                first_seen == first_written(files@.take(i as int)),
                last_seen == last_written(files@.take(i as int)),
            decreases files@.len() - i,
        {
            assert(files@.take(i + 1).drop_last() =~= files@.take(i as int));
            let file = files[i];
            if let Some(n) = file.size {
                bytes = bytes.saturating_add(n);
            }
            if let Some(ts) = file.modified {
                first_seen = match first_seen {
                    Some(first) if first <= ts => Some(first),
                    _ => Some(ts),
                };
                last_seen = match last_seen {
                    Some(last) if last >= ts => Some(last),
                    _ => Some(ts),
                };
            }
            i += 1;
        }
        assert(files@.take(i as int) =~= files@);
        let conversations: u64 = files.len() as u64;
        let quotient: u64 = bytes / ATLAS_BYTES_PER_ESTIMATED_TOKEN;
        let tokens: u64 = if quotient == 0 {
            1
        } else {
            quotient
        };
        let mut result = ProviderResult::new("ChatGPT Desktop");
        result.sessions = Some(conversations);
        result.first_seen = first_seen;
        result.last_seen = last_seen;
        result.tokens = Some(usage_from_counts(0, tokens));
        result.tokens_estimated = true;
        result.tokens_estimate_method = Some(method_text(conversations, bytes));
        let mut metadata: StrMap<MetaValue> = StrMap::new();
        metadata.insert(
            "note".to_string(),
            MetaValue::Text(
                "Atlas/legacy desktop .data files are encrypted; token count is payload-size heuristic".to_string(),
            ),
        );
        metadata.insert("payload_bytes".to_string(), MetaValue::Count(bytes));
        result.metadata = Some(metadata);
        assert(result@.metadata->0 =~= desktop_report(files@).metadata->0);
        Ok(result)
    }
}

} // verus!
