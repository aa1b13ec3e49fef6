//! What a scan reports: tokens, hours, sessions and visits, per provider and in total.

use crate::collections::StrMap;
use crate::text::text_opt;
use vstd::prelude::*;

verus! {

/// A count that stops at `u64::MAX`.
pub open spec fn capped(n: int) -> u64 {
    if n > u64::MAX {
        u64::MAX
    } else {
        n as u64
    }
}

/// Tokens by what they were spent on.
#[derive(Debug, Clone, Copy, PartialEq, Eq, Structural)]
pub struct TokenUsage {
    pub input_tokens: u64,
    pub output_tokens: u64,
    pub cache_read_tokens: u64,
    pub cache_creation_tokens: u64,
    pub total: u64,
}

/// Exact sums of tokens, before they are pressed into machine words.
pub ghost struct TokenSums {
    pub input: nat,
    pub output: nat,
    pub cache_read: nat,
    pub cache_creation: nat,
}

impl TokenSums {
    /// No tokens.
    pub open spec fn zero() -> TokenSums {
        TokenSums { input: 0, output: 0, cache_read: 0, cache_creation: 0 }
    }

    /// Both sums together.
    pub open spec fn plus(self, other: TokenSums) -> TokenSums {
        TokenSums {
            input: self.input + other.input,
            output: self.output + other.output,
            cache_read: self.cache_read + other.cache_read,
            cache_creation: self.cache_creation + other.cache_creation,
        }
    }

    /// The sums as they are reported: each stops at `u64::MAX`, and so does their total.
    pub open spec fn usage(self) -> TokenUsage {
        TokenUsage {
            input_tokens: capped(self.input as int),
            output_tokens: capped(self.output as int),
            cache_read_tokens: capped(self.cache_read as int),
            cache_creation_tokens: capped(self.cache_creation as int),
            total: capped((self.input + self.output + self.cache_read + self.cache_creation) as int),
        }
    }
}

impl TokenUsage {
    /// What the four counts add up to.
    pub open spec fn spent(self) -> int {
        self.input_tokens + self.output_tokens + self.cache_read_tokens + self.cache_creation_tokens
    }

    /// The four counts as sums.
    pub open spec fn sums(self) -> TokenSums {
        TokenSums {
            input: self.input_tokens as nat,
            output: self.output_tokens as nat,
            cache_read: self.cache_read_tokens as nat,
            cache_creation: self.cache_creation_tokens as nat,
        }
    }

    /// Sets the total to input + output + cache reads + cache writes, which is what other
    /// usage counters report as tokens processed by the model.
    pub fn compute_total(&mut self)
        ensures
            *final(self) == (TokenUsage { total: capped(old(self).spent()), ..*old(self) }),
    {
        self.total = self.input_tokens.saturating_add(self.output_tokens).saturating_add(
            self.cache_read_tokens,
        ).saturating_add(self.cache_creation_tokens);
    }

    /// Adds another usage, count by count, and brings the total up to date.
    pub fn merge(&mut self, other: &TokenUsage)
        ensures
            *final(self) == old(self).sums().plus(other.sums()).usage(),
    {
        self.input_tokens = self.input_tokens.saturating_add(other.input_tokens);
        self.output_tokens = self.output_tokens.saturating_add(other.output_tokens);
        self.cache_read_tokens = self.cache_read_tokens.saturating_add(other.cache_read_tokens);
        self.cache_creation_tokens = self.cache_creation_tokens.saturating_add(
            other.cache_creation_tokens,
        );
        self.compute_total();
    }
}

impl Default for TokenUsage {
    fn default() -> (r: TokenUsage)
        ensures
            r == TokenSums::zero().usage(),
    {
        TokenUsage {
            input_tokens: 0,
            output_tokens: 0,
            cache_read_tokens: 0,
            cache_creation_tokens: 0,
            total: 0,
        }
    }
}

/// Merging usages loses nothing but what no machine word can hold: the merge of two capped
/// sums is the cap of their sum.
pub proof fn law_merge_adds_sums(a: TokenSums, b: TokenSums)
    ensures
        a.usage().sums().plus(b.usage().sums()).usage() == a.plus(b).usage(),
{
}

/// Some numbers added up.
pub open spec fn total(counts: Seq<nat>) -> nat {
    counts.fold_left(0nat, |sum: nat, n: nat| sum + n)
}

/// One more number adds itself.
pub proof fn lemma_total_push(counts: Seq<nat>, n: nat)
    ensures
        total(counts.push(n)) == total(counts) + n,
        total(Seq::empty()) == 0,
{
    assert(counts.push(n).drop_last() =~= counts);
}

/// Sums are reported count by count. A count stays as it is where a machine word holds it, stops
/// at the largest word where none does, and the total is that of the four exact sums.
pub proof fn law_sums_are_reported(a: TokenSums, b: TokenSums)
    ensures
        a.input <= u64::MAX ==> a.usage().input_tokens == a.input,
        a.output <= u64::MAX ==> a.usage().output_tokens == a.output,
        a.cache_read <= u64::MAX ==> a.usage().cache_read_tokens == a.cache_read,
        a.cache_creation <= u64::MAX ==> a.usage().cache_creation_tokens == a.cache_creation,
        a.input > u64::MAX ==> a.usage().input_tokens == u64::MAX,
        a.output > u64::MAX ==> a.usage().output_tokens == u64::MAX,
        a.cache_read > u64::MAX ==> a.usage().cache_read_tokens == u64::MAX,
        a.cache_creation > u64::MAX ==> a.usage().cache_creation_tokens == u64::MAX,
        a.input + a.output + a.cache_read + a.cache_creation <= u64::MAX ==> a.usage().total
            == a.input + a.output + a.cache_read + a.cache_creation,
        a.input + a.output + a.cache_read + a.cache_creation > u64::MAX ==> a.usage().total
            == u64::MAX,
        a.plus(b).input == a.input + b.input,
        a.plus(b).output == a.output + b.output,
        a.plus(b).cache_read == a.cache_read + b.cache_read,
        a.plus(b).cache_creation == a.cache_creation + b.cache_creation,
        a.plus(TokenSums::zero()) == a,
{
}

/// A merge of two usages has of each count the sum of both, as far as a machine word goes, and a
/// total that is at least each of the four counts.
pub proof fn law_merge_keeps_both(a: TokenUsage, b: TokenUsage)
    ensures
        ({
            let both = a.sums().plus(b.sums()).usage();
            &&& both.input_tokens == if a.input_tokens + b.input_tokens > u64::MAX {
                u64::MAX as int
            } else {
                a.input_tokens + b.input_tokens
            }
            &&& both.output_tokens == if a.output_tokens + b.output_tokens > u64::MAX {
                u64::MAX as int
            } else {
                a.output_tokens + b.output_tokens
            }
            &&& both.cache_read_tokens == if a.cache_read_tokens + b.cache_read_tokens
                > u64::MAX {
                u64::MAX as int
            } else {
                a.cache_read_tokens + b.cache_read_tokens
            }
            &&& both.cache_creation_tokens == if a.cache_creation_tokens
                + b.cache_creation_tokens > u64::MAX {
                u64::MAX as int
            } else {
                a.cache_creation_tokens + b.cache_creation_tokens
            }
            &&& both.total >= both.input_tokens && both.total >= both.output_tokens
            &&& both.total >= both.cache_read_tokens && both.total >= both.cache_creation_tokens
            &&& both.spent() <= u64::MAX ==> both.total == both.spent()
        }),
{
}

/// Merging is the same in either order, and in either grouping.
pub proof fn law_merge_commutes(a: TokenUsage, b: TokenUsage, c: TokenUsage)
    ensures
        a.sums().plus(b.sums()).usage() == b.sums().plus(a.sums()).usage(),
        a.sums().plus(b.sums()).usage().sums().plus(c.sums()).usage() == a.sums().plus(
            b.sums().plus(c.sums()).usage().sums(),
        ).usage(),
{
}

/// Merging nothing into a usage whose total is up to date leaves it as it was.
pub proof fn law_merge_nothing(a: TokenUsage)
    requires
        a.total == capped(a.spent()),
    ensures
        a.sums().plus(TokenSums::zero()).usage() == a,
{
}

/// A span of active time, kept in whole seconds.
#[derive(Debug, Clone, Copy, PartialEq, Eq, Structural)]
pub struct Hours {
    pub seconds: u128,
}

impl Default for Hours {
    fn default() -> (r: Hours)
        ensures
            r.seconds == 0,
    {
        Hours { seconds: 0 }
    }
}

/// Usage of one model.
#[derive(Debug, Clone, Copy, PartialEq, Eq, Structural)]
pub struct ModelUsage {
    pub tokens: TokenUsage,
    pub sessions: u64,
    pub hours: Hours,
}

impl ModelUsage {
    /// The usage of a model of which only tokens are known.
    pub open spec fn of_tokens(tokens: TokenUsage) -> ModelUsage {
        ModelUsage { tokens, sessions: 0, hours: Hours { seconds: 0 } }
    }
}

impl Default for ModelUsage {
    fn default() -> (r: ModelUsage)
        ensures
            r == ModelUsage::of_tokens(TokenSums::zero().usage()),
    {
        ModelUsage { tokens: TokenUsage::default(), sessions: 0, hours: Hours::default() }
    }
}

/// Usage on one day, which a UTC date names ("YYYY-MM-DD").
#[derive(Debug, Clone, Copy, PartialEq, Eq, Structural)]
pub struct DailyBucket {
    pub hours: Hours,
    pub tokens: u64,
    pub sessions: u64,
    pub invocations: Option<u64>,
}

impl Default for DailyBucket {
    fn default() -> (r: DailyBucket)
        ensures
            r.hours.seconds == 0,
            r.tokens == 0,
            r.sessions == 0,
            r.invocations is None,
    {
        DailyBucket { hours: Hours::default(), tokens: 0, sessions: 0, invocations: None }
    }
}

/// A detail that a provider reports beside its counts.
#[derive(Debug)]
pub enum MetaValue {
    Flag(bool),
    Count(u64),
    Hours(Hours),
    /// A number with two decimals, by its hundredths.
    Hundredths(u128),
    Text(String),
    List(Vec<MetaValue>),
    Record(Vec<(String, MetaValue)>),
}

/// What a detail is, apart from how it is stored.
#[verifier::ext_equal]
pub ghost enum MetaTree {
    Flag(bool),
    Count(u64),
    Hours(Hours),
    Hundredths(u128),
    Text(Seq<char>),
    List(Seq<MetaTree>),
    Record(Seq<(Seq<char>, MetaTree)>),
}

impl MetaValue {
    /// The tree that this value stands for.
    pub open spec fn tree(&self) -> MetaTree
        decreases self,
    {
        match self {
            MetaValue::Flag(b) => MetaTree::Flag(*b),
            MetaValue::Count(n) => MetaTree::Count(*n),
            MetaValue::Hours(h) => MetaTree::Hours(*h),
            MetaValue::Hundredths(n) => MetaTree::Hundredths(*n),
            MetaValue::Text(s) => MetaTree::Text(s@),
            MetaValue::List(items) => MetaTree::List(
                Seq::new(
                    items@.len(),
                    |i: int|
                        if 0 <= i < items@.len() {
                            items@[i].tree()
                        } else {
                            MetaTree::Flag(false)
                        },
                ),
            ),
            MetaValue::Record(members) => MetaTree::Record(
                Seq::new(
                    members@.len(),
                    |i: int|
                        if 0 <= i < members@.len() {
                            (members@[i].0@, members@[i].1.tree())
                        } else {
                            (Seq::empty(), MetaTree::Flag(false))
                        },
                ),
            ),
        }
    }
}

/// The value of the first member with a key.
pub open spec fn meta_member(members: Seq<(Seq<char>, MetaTree)>, key: Seq<char>) -> Option<
    MetaTree,
>
    decreases members.len(),
{
    if members.len() == 0 {
        None
    } else if members[0].0 == key {
        Some(members[0].1)
    } else {
        meta_member(members.drop_first(), key)
    }
}

/// Members with a value under a key: in place of the one that stands there, or else at the end.
pub open spec fn meta_put(
    members: Seq<(Seq<char>, MetaTree)>,
    key: Seq<char>,
    value: MetaTree,
) -> Seq<(Seq<char>, MetaTree)>
    decreases members.len(),
{
    if members.len() == 0 {
        seq![(key, value)]
    } else if members[0].0 == key {
        seq![(key, value)] + members.drop_first()
    } else {
        seq![members[0]] + meta_put(members.drop_first(), key, value)
    }
}

/// What was put under a key is found there, and what stands under other keys stays.
pub proof fn law_put_is_found(
    members: Seq<(Seq<char>, MetaTree)>,
    key: Seq<char>,
    value: MetaTree,
    other: Seq<char>,
)
    ensures
        meta_member(meta_put(members, key, value), key) == Some(value),
        other != key ==> meta_member(meta_put(members, key, value), other) == meta_member(
            members,
            other,
        ),
    decreases members.len(),
{
    let after = meta_put(members, key, value);
    if members.len() == 0 {
        assert(after.drop_first() =~= Seq::empty());
        assert(meta_member(after.drop_first(), other) is None);
    } else if members[0].0 == key {
        assert(after.drop_first() =~= members.drop_first());
    } else {
        law_put_is_found(members.drop_first(), key, value, other);
        assert(after.drop_first() =~= meta_put(members.drop_first(), key, value));
    }
}

proof fn lemma_meta_skip(
    members: Seq<(Seq<char>, MetaTree)>,
    key: Seq<char>,
    value: MetaTree,
    n: int,
)
    requires
        0 <= n <= members.len(),
        forall|i: int| 0 <= i < n ==> (#[trigger] members[i]).0 != key,
    ensures
        meta_member(members, key) == meta_member(members.skip(n), key),
        meta_put(members, key, value) == members.take(n) + meta_put(members.skip(n), key, value),
    decreases n,
{
    if n > 0 {
        assert(members[0].0 != key);
        let rest = members.drop_first();
        assert(rest.skip(n - 1) =~= members.skip(n));
        lemma_meta_skip(rest, key, value, n - 1);
        assert(members.take(n) =~= seq![members[0]] + rest.take(n - 1));
        assert(meta_put(members, key, value) =~= members.take(n) + meta_put(
            members.skip(n),
            key,
            value,
        ));
    } else {
        assert(members.skip(0) =~= members);
        assert(members.take(0) + meta_put(members, key, value) =~= meta_put(members, key, value));
    }
}

/// The members of a record.
pub open spec fn member_trees(members: Seq<(String, MetaValue)>) -> Seq<(Seq<char>, MetaTree)> {
    members.map_values(|m: (String, MetaValue)| (m.0@, m.1@))
}

impl MetaTree {
    /// The value under a key, where this is a record that has it.
    pub open spec fn get(self, key: Seq<char>) -> Option<MetaTree> {
        match self {
            MetaTree::Record(members) => meta_member(members, key),
            _ => None,
        }
    }
}

/// The tree of a detail that may be missing.
pub open spec fn meta_at(value: Option<&MetaValue>) -> Option<MetaTree> {
    match value {
        Some(v) => Some(v@),
        None => None,
    }
}

impl MetaValue {
    /// The value under a key, where this is a record that has it.
    pub fn get(&self, key: &str) -> (r: Option<&MetaValue>)
        ensures
            meta_at(r) == self@.get(key@),
    {
        match self {
            MetaValue::Record(members) => {
                let ghost all = member_trees(members@);
                assert(self@->Record_0 =~= all);
                let mut i: usize = 0;
                while i < members.len()
                    invariant
                        i <= members@.len(),
                        all == member_trees(members@),
                        self@ == MetaTree::Record(all),
                        forall|k: int| 0 <= k < i ==> (#[trigger] all[k]).0 != key@,
                    decreases members@.len() - i,
                {
                    assert(all[i as int] == (members@[i as int].0@, members@[i as int].1@));
                    if crate::text::same(members[i].0.as_str(), key) {
                        proof {
                            lemma_meta_skip(all, key@, MetaTree::Flag(false), i as int);
                            assert(all.skip(i as int)[0] == all[i as int]);
                        }
                        return Some(&members[i].1);
                    }
                    i += 1;
                }
                proof {
                    lemma_meta_skip(all, key@, MetaTree::Flag(false), i as int);
                    assert(all.skip(i as int).len() == 0);
                }
                None
            },
            _ => None,
        }
    }

    /// The count, where this is one.
    pub fn as_count(&self) -> (r: Option<u64>)
        ensures
            r == match self@ {
                MetaTree::Count(n) => Some(n),
                _ => None,
            },
    {
        match self {
            MetaValue::Count(n) => Some(*n),
            _ => None,
        }
    }

    /// The flag, where this is one.
    pub fn as_flag(&self) -> (r: Option<bool>)
        ensures
            r == match self@ {
                MetaTree::Flag(b) => Some(b),
                _ => None,
            },
    {
        match self {
            MetaValue::Flag(b) => Some(*b),
            _ => None,
        }
    }
}

/// Puts a value under a key: in place of the one that stands there, or else at the end.
pub(crate) fn put_member(members: &mut Vec<(String, MetaValue)>, key: &str, value: MetaValue)
    ensures
        member_trees(final(members)@) == meta_put(member_trees(old(members)@), key@, value@),
{
    let ghost all = member_trees(members@);
    let mut i: usize = 0;
    while i < members.len()
        invariant
            i <= members@.len(),
            all == member_trees(members@),
            all == member_trees(old(members)@),
            forall|k: int| 0 <= k < i ==> (#[trigger] all[k]).0 != key@,
        decreases members@.len() - i,
    {
        assert(all[i as int] == (members@[i as int].0@, members@[i as int].1@));
        if crate::text::same(members[i].0.as_str(), key) {
            proof {
                lemma_meta_skip(all, key@, value@, i as int);
                assert(all.skip(i as int)[0] == all[i as int]);
            }
            let ghost tree = value@;
            members[i] = (key.to_string(), value);
            proof {
                assert(member_trees(members@) =~= all.take(i as int) + (seq![(key@, tree)]
                    + all.skip(i as int).drop_first()));
            }
            return;
        }
        i += 1;
    }
    proof {
        lemma_meta_skip(all, key@, value@, i as int);
        assert(all.skip(i as int) =~= Seq::empty());
    }
    let ghost tree = value@;
    members.push((key.to_string(), value));
    assert(member_trees(members@) =~= all.take(i as int) + seq![(key@, tree)]);
}

/// A named detail that is left out where it is missing.
pub open spec fn if_some(key: Seq<char>, value: Option<MetaTree>) -> Seq<(Seq<char>, MetaTree)> {
    match value {
        Some(v) => seq![(key, v)],
        None => Seq::empty(),
    }
}

/// A text that may be missing as a detail.
pub open spec fn text_tree(text: Option<Seq<char>>) -> Option<MetaTree> {
    match text {
        Some(s) => Some(MetaTree::Text(s)),
        None => None,
    }
}

/// The members of a record while it is put together.
pub struct RecordBuilder {
    pub members: Vec<(String, MetaValue)>,
}

impl RecordBuilder {
    pub fn new() -> (r: RecordBuilder)
        ensures
            member_trees(r.members@) == Seq::<(Seq<char>, MetaTree)>::empty(),
    {
        let r = RecordBuilder { members: Vec::new() };
        assert(member_trees(r.members@) =~= Seq::empty());
        r
    }

    pub fn put(&mut self, key: &str, value: MetaValue)
        ensures
            member_trees(final(self).members@) == member_trees(old(self).members@).push(
                (key@, value@),
            ),
    {
        let ghost before = member_trees(self.members@);
        self.members.push((key.to_string(), value));
        assert(member_trees(self.members@) =~= before.push((key@, value@)));
    }

    pub fn put_text(&mut self, key: &str, text: &Option<String>)
        ensures
            member_trees(final(self).members@) == member_trees(old(self).members@) + if_some(
                key@,
                text_tree(text_opt(*text)),
            ),
    {
        let ghost before = member_trees(self.members@);
        if let Some(s) = text {
            self.put(key, MetaValue::Text(s.clone()));
        }
        assert(member_trees(self.members@) =~= before + if_some(key@, text_tree(text_opt(*text))));
    }

    pub fn finish(self) -> (r: MetaValue)
        ensures
            r@ == MetaTree::Record(member_trees(self.members@)),
    {
        let ghost trees = member_trees(self.members@);
        let r = MetaValue::Record(self.members);
        assert(r@->Record_0 =~= trees);
        r
    }
}

impl View for MetaValue {
    type V = MetaTree;

    open spec fn view(&self) -> MetaTree {
        self.tree()
    }
}

/// What one provider has found.
pub struct ProviderResult {
    pub provider: String,
    pub hours: Option<Hours>,
    pub tokens: Option<TokenUsage>,
    /// Whether the tokens were estimated from local text and not logged by the provider.
    pub tokens_estimated: bool,
    /// How the tokens were estimated, where they were.
    pub tokens_estimate_method: Option<String>,
    pub sessions: Option<u64>,
    pub visits: Option<u64>,
    pub invocations: Option<u64>,
    pub models: Option<StrMap<ModelUsage>>,
    pub first_seen: Option<i64>,
    pub last_seen: Option<i64>,
    pub metadata: Option<StrMap<MetaValue>>,
    pub daily_buckets: Option<StrMap<DailyBucket>>,
}

/// What a `ProviderResult` says.
#[verifier::ext_equal]
pub ghost struct ProviderReport {
    pub provider: Seq<char>,
    pub hours: Option<Hours>,
    pub tokens: Option<TokenUsage>,
    pub tokens_estimated: bool,
    pub tokens_estimate_method: Option<Seq<char>>,
    pub sessions: Option<u64>,
    pub visits: Option<u64>,
    pub invocations: Option<u64>,
    pub models: Option<Map<Seq<char>, ModelUsage>>,
    pub first_seen: Option<i64>,
    pub last_seen: Option<i64>,
    pub metadata: Option<Map<Seq<char>, MetaTree>>,
    pub daily_buckets: Option<Map<Seq<char>, DailyBucket>>,
}

impl ProviderReport {
    /// The report of a provider that has found nothing yet.
    pub open spec fn blank(provider: Seq<char>) -> ProviderReport {
        ProviderReport {
            provider,
            hours: None,
            tokens: None,
            tokens_estimated: false,
            tokens_estimate_method: None,
            sessions: None,
            visits: None,
            invocations: None,
            models: None,
            first_seen: None,
            last_seen: None,
            metadata: None,
            daily_buckets: None,
        }
    }
}

/// The entries of an optional map.
pub open spec fn entries<V>(map: Option<StrMap<V>>) -> Option<Map<Seq<char>, V>> {
    match map {
        Some(m) => Some(m@),
        None => None,
    }
}

/// The details of an optional map of details.
pub open spec fn details(map: Option<StrMap<MetaValue>>) -> Option<Map<Seq<char>, MetaTree>> {
    match map {
        Some(m) => Some(m@.map_values(|v: MetaValue| v@)),
        None => None,
    }
}

impl View for ProviderResult {
    type V = ProviderReport;

    open spec fn view(&self) -> ProviderReport {
        ProviderReport {
            provider: self.provider@,
            hours: self.hours,
            tokens: self.tokens,
            tokens_estimated: self.tokens_estimated,
            tokens_estimate_method: text_opt(self.tokens_estimate_method),
            sessions: self.sessions,
            visits: self.visits,
            invocations: self.invocations,
            models: entries(self.models),
            first_seen: self.first_seen,
            last_seen: self.last_seen,
            metadata: details(self.metadata),
            daily_buckets: entries(self.daily_buckets),
        }
    }
}

impl ProviderResult {
    /// The maps in the result are sound.
    pub open spec fn wf(&self) -> bool {
        &&& self.models matches Some(m) ==> m.wf()
        &&& self.metadata matches Some(m) ==> m.wf()
        &&& self.daily_buckets matches Some(m) ==> m.wf()
    }

    /// The result of a provider that has found nothing yet.
    pub fn new(provider: &str) -> (r: ProviderResult)
        ensures
            r.wf(),
            r@ == ProviderReport::blank(provider@),
    {
        ProviderResult {
            provider: provider.to_string(),
            hours: None,
            tokens: None,
            tokens_estimated: false,
            tokens_estimate_method: None,
            sessions: None,
            visits: None,
            invocations: None,
            models: None,
            first_seen: None,
            last_seen: None,
            metadata: None,
            daily_buckets: None,
        }
    }
}

/// Sums over all providers. Estimated tokens are kept apart from logged ones.
#[derive(Debug, Clone, Copy, PartialEq, Eq, Structural)]
pub struct Totals {
    pub hours: Hours,
    pub tokens: u64,
    pub estimated_tokens: u64,
    pub sessions: u64,
    pub visits: u64,
    pub invocations: u64,
}

/// Version of the layout of a `ScanResult`.
///
/// * 1: first release
/// * 2: daily buckets in provider results
/// * 3: device id and label; the share hash is gzip, then base64url
/// * 5: token counts for each web domain
/// * 6: evidence of how the tokens of a web domain were estimated
pub const SCHEMA_VERSION: u32 = 6;

/// A whole scan.
pub struct ScanResult {
    pub scanned_at: String,
    pub schema_version: u32,
    pub platform: String,
    pub scan_duration_ms: u64,
    /// UUID v4 that stays with this machine, so that scans of several devices can be told apart.
    pub device_id: String,
    /// A name for people to read, mostly the host name.
    pub device_label: Option<String>,
    pub sources: StrMap<ProviderResult>,
    pub totals: Totals,
    pub detected_tools: Vec<String>,
}

/// Why a provider has no result.
#[derive(Debug)]
pub enum ScanError {
    Io(String),
    Sqlite(String),
    Json(String),
    NotFound(String),
    PermissionDenied(String),
}

impl ScanError {
    /// Whether this says that a data source was not found, in these words.
    pub open spec fn is_not_found(&self, words: Seq<char>) -> bool {
        match self {
            ScanError::NotFound(s) => s@ == words,
            _ => false,
        }
    }

    /// What the error tells the user.
    pub open spec fn message_text(&self) -> Seq<char> {
        match self {
            ScanError::Io(s) => "IO error: "@ + s@,
            ScanError::Sqlite(s) => "SQLite error: "@ + s@,
            ScanError::Json(s) => "JSON parse error: "@ + s@,
            ScanError::NotFound(s) => "Data source not found: "@ + s@,
            ScanError::PermissionDenied(s) => "Permission denied: "@ + s@,
        }
    }

    /// What the error tells the user.
    pub fn message(&self) -> (r: String)
        ensures
            r@ == self.message_text(),
    {
        match self {
            ScanError::Io(s) => "IO error: ".to_string().concat(s.as_str()),
            ScanError::Sqlite(s) => "SQLite error: ".to_string().concat(s.as_str()),
            ScanError::Json(s) => "JSON parse error: ".to_string().concat(s.as_str()),
            ScanError::NotFound(s) => "Data source not found: ".to_string().concat(s.as_str()),
            ScanError::PermissionDenied(s) => "Permission denied: ".to_string().concat(s.as_str()),
        }
    }
}

} // verus!
