//! The address under which a scan can be shared.

use crate::types::{MetaTree, MetaValue, ProviderResult, ScanResult};
use vstd::prelude::*;

verus! {

pub const WEBSITE_BASE: &'static str = "https://howmuchiai.xyz";

/// What `flate2` makes of some bytes as gzip at its best compression.
pub uninterp spec fn gzipped(bytes: Seq<u8>) -> Option<Seq<u8>>;

/// The bytes of a list that may be missing.
pub open spec fn bytes_opt(bytes: Option<Vec<u8>>) -> Option<Seq<u8>> {
    match bytes {
        Some(b) => Some(b@),
        None => None,
    }
}

/// Writes bytes into a `flate2::write::GzEncoder` over a `Vec` with `Compression::best` and
/// finishes it.
///
/// Claims that the result depends on the bytes alone: the header carries no time and no system.
#[verifier::external_body]
fn gzip(bytes: &[u8]) -> (r: Option<Vec<u8>>)
    ensures
        bytes_opt(r) == gzipped(bytes@),
{
    let mut encoder = flate2::write::GzEncoder::new(Vec::new(), flate2::Compression::best());
    std::io::Write::write_all(&mut encoder, bytes).ok()?;
    encoder.finish().ok()
}

/// The alphabet of base64 for addresses: the character of each value of six bits.
pub open spec fn address_alphabet() -> Seq<char> {
    "ABCDEFGHIJKLMNOPQRSTUVWXYZabcdefghijklmnopqrstuvwxyz0123456789-_"@
}

/// A byte, or zero after the last.
pub open spec fn byte_or_zero(bytes: Seq<u8>, k: int) -> int {
    if 0 <= k < bytes.len() {
        bytes[k] as int
    } else {
        0
    }
}

/// The six bits that start at a multiple of six, the highest bit of each byte first.
pub open spec fn six_bits(bytes: Seq<u8>, i: int) -> int {
    let k = i * 6 / 8;
    let two = byte_or_zero(bytes, k) * 256 + byte_or_zero(bytes, k + 1);
    if i % 4 == 0 {
        two / 1024 % 64
    } else if i % 4 == 1 {
        two / 16 % 64
    } else if i % 4 == 2 {
        two / 64 % 64
    } else {
        two / 256 % 64
    }
}

/// Some bytes in base64 for addresses, without padding: a character for every six bits, where the
/// last may be filled up with zeros.
pub open spec fn base64url(bytes: Seq<u8>) -> Seq<char> {
    Seq::new(
        ((bytes.len() * 8 + 5) / 6) as nat,
        |i: int| address_alphabet()[six_bits(bytes, i)],
    )
}

/// Whether a character is of the alphabet for addresses.
pub open spec fn is_address_char(c: char) -> bool {
    'a' <= c <= 'z' || 'A' <= c <= 'Z' || '0' <= c <= '9' || c == '-' || c == '_'
}

/// Base64 for addresses is of the alphabet for addresses.
pub proof fn law_base64url_fits_addresses(bytes: Seq<u8>)
    ensures
        forall|i: int|
            0 <= i < base64url(bytes).len() ==> is_address_char(#[trigger] base64url(bytes)[i]),
{
    reveal_strlit("ABCDEFGHIJKLMNOPQRSTUVWXYZabcdefghijklmnopqrstuvwxyz0123456789-_");
    assert forall|i: int| 0 <= i < base64url(bytes).len() implies is_address_char(
        #[trigger] base64url(bytes)[i],
    ) by {
        let v = six_bits(bytes, i);
        assert(0 <= v < 64);
        assert(is_address_char(address_alphabet()[v]));
    }
}

/// Calls `encode` of `base64::engine::general_purpose::URL_SAFE_NO_PAD`.
///
/// Claims that the text is base64 in the alphabet for addresses, without padding.
#[verifier::external_body]
fn encode_base64url(bytes: &[u8]) -> (r: String)
    ensures
        r@ == base64url(bytes@),
{
    base64::Engine::encode(&base64::engine::general_purpose::URL_SAFE_NO_PAD, bytes)
}

/// Some bytes in base64 for addresses.
fn address_text(bytes: &[u8]) -> (r: String)
    ensures
        r@ == base64url(bytes@),
        forall|i: int| 0 <= i < r@.len() ==> is_address_char(#[trigger] r@[i]),
{
    proof {
        law_base64url_fits_addresses(bytes@);
    }
    encode_base64url(bytes)
}

/// The hash of a scan: its JSON, gzipped, in base64 for addresses.
pub open spec fn share_hash(json: Seq<u8>) -> Option<Seq<char>> {
    match gzipped(json) {
        Some(gz) => Some(base64url(gz)),
        None => None,
    }
}

/// A scan has a hash exactly if its JSON can be compressed, and then it is the compressed JSON that is
/// written for addresses, three bytes to four characters.
pub proof fn law_hash_is_of_the_compressed_scan(json: Seq<u8>)
    ensures
        gzipped(json) is None ==> share_hash(json) is None,
        gzipped(json) matches Some(gz) ==> share_hash(json) == Some(base64url(gz)) && 6
            * share_hash(json)->0.len() >= 8 * gz.len() && 6 * share_hash(json)->0.len() < 8
            * gz.len() + 6,
{
}

/// The hash of a scan, from its JSON: gzipped, since a whole scan is too long for an address
/// otherwise, then in base64 for addresses.
pub fn encode_share_hash(json: &[u8]) -> (r: Option<String>)
    ensures
        crate::text::text_opt(r) == share_hash(json@),
        r matches Some(hash) ==> forall|i: int|
            0 <= i < hash@.len() ==> is_address_char(#[trigger] hash@[i]),
{
    match gzip(json) {
        Some(gz) => Some(address_text(gz.as_slice())),
        None => None,
    }
}

/// The address of a card: the website and the hash of the scan, which is empty where there is
/// none.
pub open spec fn card_address(hash: Option<Seq<char>>) -> Seq<char> {
    WEBSITE_BASE@ + "/c/"@ + match hash {
        Some(h) => h,
        None => Seq::empty(),
    }
}

/// The address of a card carries the whole hash, however long, right after the place of cards on the
/// website. Without a hash nothing follows.
pub proof fn law_card_carries_its_hash(hash: Seq<char>)
    ensures
        card_address(Some(hash)).len() == "https://howmuchiai.xyz/c/"@.len() + hash.len(),
        card_address(Some(hash)).take("https://howmuchiai.xyz/c/"@.len() as int)
            == "https://howmuchiai.xyz/c/"@,
        card_address(Some(hash)).skip("https://howmuchiai.xyz/c/"@.len() as int) == hash,
        card_address(None) == "https://howmuchiai.xyz/c/"@,
{
    reveal_strlit("https://howmuchiai.xyz");
    reveal_strlit("/c/");
    reveal_strlit("https://howmuchiai.xyz/c/");
    let place = "https://howmuchiai.xyz/c/"@;
    assert(WEBSITE_BASE@ + "/c/"@ =~= place);
    let n = place.len() as int;
    assert(card_address(Some(hash)).take(n) =~= place);
    assert(card_address(Some(hash)).skip(n) =~= hash);
    assert(card_address(None) =~= place);
}

/// The address of a card.
pub fn card_url(hash: Option<String>) -> (r: String)
    ensures
        r@ == card_address(crate::text::text_opt(hash)),
{
    let ghost text = crate::text::text_opt(hash);
    let mut url = WEBSITE_BASE.to_string();
    url.append("/c/");
    if let Some(h) = hash {
        url.append(h.as_str());
    }
    assert(url@ =~= card_address(text));
    url
}

/// Whether a provider was skipped because the system denied access to its files.
pub open spec fn is_denied(result: ProviderResult) -> bool {
    match result@.metadata {
        Some(m) => m.contains_key("skipped"@) && m["skipped"@] == MetaTree::Text("tcc-denied"@),
        None => false,
    }
}

/// How many providers of a list were skipped because the system denied access.
pub open spec fn denied_among(results: Seq<ProviderResult>) -> nat
    decreases results.len(),
{
    if results.len() == 0 {
        0
    } else {
        denied_among(results.drop_last()) + if is_denied(results.last()) {
            1nat
        } else {
            0
        }
    }
}

/// Every provider that says it was skipped because access was denied counts, and no other does.
pub proof fn law_every_denied_provider_counts(results: Seq<ProviderResult>)
    ensures
        denied_among(results) == results.filter(
            |r: ProviderResult|
                r@.metadata is Some && r@.metadata->0.contains_key("skipped"@)
                    && r@.metadata->0["skipped"@] == MetaTree::Text("tcc-denied"@),
        ).len(),
    decreases results.len(),
{
    reveal(Seq::filter);
    let denied = |r: ProviderResult|
        r@.metadata is Some && r@.metadata->0.contains_key("skipped"@) && r@.metadata->0["skipped"@]
            == MetaTree::Text("tcc-denied"@);
    if results.len() > 0 {
        let before = results.drop_last();
        law_every_denied_provider_counts(before);
        assert(results =~= before.push(results.last()));
        before.lemma_filter_push(results.last(), denied);
    }
}

fn was_denied(result: &ProviderResult) -> (r: bool)
    requires
        result.wf(),
    ensures
        r == is_denied(*result),
{
    if let Some(metadata) = &result.metadata {
        if let Some(value) = metadata.get("skipped") {
            if let MetaValue::Text(s) = value {
                return crate::text::same(s.as_str(), "tcc-denied");
            }
        }
    }
    false
}

/// The results in a scan are sound.
pub open spec fn scan_wf(scan: ScanResult) -> bool {
    &&& scan.sources.wf()
    &&& forall|i: int| 0 <= i < scan.sources.items().len() ==> (#[trigger] scan.sources.items()[i]).wf()
}

/// How many providers were skipped because the system denied access. On a Mac a terminal without
/// full disk access cannot read the data of Safari.
pub fn count_tcc_denied(scan: &ScanResult) -> (r: usize)
    requires
        scan_wf(*scan),
    ensures
        r == denied_among(scan.sources.items()),
{
    proof {
        scan.sources.lemma_shape();
    }
    let n: usize = scan.sources.len();
    let mut count: usize = 0;
    let mut i: usize = 0;
    while i < n
        invariant
            scan_wf(*scan),
            i <= n,
            n == scan.sources.items().len(),
            n == scan.sources.names().len(),
            count <= i,
            count == denied_among(scan.sources.items().take(i as int)),
        decreases n - i,
    {
        let ghost all = scan.sources.items();
        assert(all.take(i + 1).drop_last() =~= all.take(i as int));
        assert(all[i as int].wf());
        if was_denied(scan.sources.value(i)) {
            count += 1;
        }
        i += 1;
    }
    assert(scan.sources.items().take(n as int) =~= scan.sources.items());
    count
}

} // verus!
