//! Counting names, and putting them in order.

use crate::collections::StrMap;
use crate::text::{distinct, law_distinct_keeps_each_once, texts};
use crate::types::{capped, MetaTree, MetaValue};
use vstd::prelude::*;

verus! {

/// How often a name stands in a list.
pub open spec fn occurrences(list: Seq<Seq<char>>, name: Seq<char>) -> nat
    decreases list.len(),
{
    if list.len() == 0 {
        0
    } else {
        occurrences(list.drop_last(), name) + if list.last() == name {
            1nat
        } else {
            0
        }
    }
}

/// The names of a list, in the order in which they first came, with how often they came.
pub open spec fn tally_of(list: Seq<Seq<char>>) -> MetaTree {
    let names = distinct(list);
    MetaTree::Record(
        Seq::new(
            names.len(),
            |i: int| (names[i], MetaTree::Count(capped(occurrences(list, names[i]) as int))),
        ),
    )
}

/// A name occurs in a list exactly if it is one of the distinct names.
pub proof fn lemma_occurrences(list: Seq<Seq<char>>, name: Seq<char>)
    ensures
        occurrences(list, name) > 0 <==> list.contains(name),
        occurrences(list, name) <= list.len(),
    decreases list.len(),
{
    if list.len() > 0 {
        let before = list.drop_last();
        lemma_occurrences(before, name);
        if before.contains(name) {
            let i = before.index_of(name);
            assert(list[i] == name);
        }
        if list.last() == name {
            assert(list[list.len() - 1] == name);
        }
        if list.contains(name) && list.last() != name {
            let i = list.index_of(name);
            assert(before[i] == name);
        }
    }
}

proof fn lemma_occurrences_filter(list: Seq<Seq<char>>, name: Seq<char>)
    ensures
        occurrences(list, name) == list.filter(|s: Seq<char>| s == name).len(),
    decreases list.len(),
{
    reveal(Seq::filter);
    let same = |s: Seq<char>| s == name;
    if list.len() > 0 {
        let before = list.drop_last();
        lemma_occurrences_filter(before, name);
        assert(list =~= before.push(list.last()));
        before.lemma_filter_push(list.last(), same);
    }
}

/// A tally names every name of a list once, and counts each as often as it stands in the list.
pub proof fn law_tally_counts_every_name(list: Seq<Seq<char>>, name: Seq<char>, i: int)
    ensures
        ({
            let members = tally_of(list)->Record_0;
            let often = list.filter(|s: Seq<char>| s == name).len();
            &&& tally_of(list) is Record
            &&& 0 <= i < members.len() && members[i].0 == name && often <= u64::MAX
                ==> members[i].1 == MetaTree::Count(often as u64)
            &&& often > 0 <==> exists|k: int| 0 <= k < members.len() && (#[trigger] members[k]).0 == name
            &&& forall|a: int, b: int|
                0 <= a < b < members.len() ==> (#[trigger] members[a]).0 != (
                #[trigger] members[b]).0
        }),
{
    let members = tally_of(list)->Record_0;
    let names = distinct(list);
    lemma_occurrences_filter(list, name);
    lemma_occurrences(list, name);
    law_distinct_keeps_each_once(list);
    if list.contains(name) {
        assert(names.contains(name));
        let k = names.index_of(name);
        assert(members[k].0 == name);
    }
    if exists|k: int| 0 <= k < members.len() && (#[trigger] members[k]).0 == name {
        let k = choose|k: int| 0 <= k < members.len() && (#[trigger] members[k]).0 == name;
        assert(names[k] == name);
        assert(names.contains(name));
    }
    assert forall|a: int, b: int| 0 <= a < b < members.len() implies (#[trigger] members[a]).0 != (
    #[trigger] members[b]).0 by {
        assert(names[a] != names[b]);
    }
}

/// Counts names as they come.
pub struct Tally {
    counts: StrMap<u64>,
    list: Ghost<Seq<Seq<char>>>,
}

impl View for Tally {
    type V = Seq<Seq<char>>;

    closed spec fn view(&self) -> Seq<Seq<char>> {
        self.list@
    }
}

impl Tally {
    /// The counts are those of the names that have come.
    pub closed spec fn wf(&self) -> bool {
        &&& self.counts.wf()
        &&& self.counts.names() == distinct(self@)
        &&& forall|name: Seq<char>| #[trigger]
            self.counts@.contains_key(name) ==> self.counts@[name] == capped(
                occurrences(self@, name) as int,
            )
    }

    /// A tally of nothing.
    pub fn new() -> (r: Tally)
        ensures
            r.wf(),
            r@ == Seq::<Seq<char>>::empty(),
    {
        let r = Tally { counts: StrMap::new(), list: Ghost(Seq::empty()) };
        assert(r.counts.names() =~= distinct(r@));
        r
    }

    /// Whether no name has come.
    pub fn is_empty(&self) -> (r: bool)
        requires
            self.wf(),
        ensures
            r == (self@.len() == 0),
    {
        proof {
            law_distinct_keeps_each_once(self@);
            self.counts.lemma_shape();
            if self@.len() > 0 {
                assert(self@.contains(self@[0]));
                assert(distinct(self@).contains(self@[0]));
            }
        }
        self.counts.len() == 0
    }

    /// Counts a name.
    pub fn count(&mut self, name: &str)
        requires
            old(self).wf(),
        ensures
            final(self).wf(),
            final(self)@ == old(self)@.push(name@),
    {
        let ghost before = self@;
        let ghost all = before.push(name@);
        proof {
            assert(all.drop_last() =~= before);
            self.counts.lemma_shape();
            law_distinct_keeps_each_once(before);
            lemma_occurrences(before, name@);
            assert(self.counts@.contains_key(name@) <==> distinct(before).contains(name@));
        }
        match self.counts.position(name) {
            Some(i) => {
                let known: u64 = *self.counts.value(i);
                *self.counts.value_mut(i) = known.saturating_add(1);
            },
            None => {
                self.counts.insert(name.to_string(), 1);
            },
        }
        self.list = Ghost(all);
    }

    /// The names with how often they came.
    pub fn to_record(&self) -> (r: MetaValue)
        requires
            self.wf(),
        ensures
            r@ == tally_of(self@),
    {
        let mut members: Vec<(String, MetaValue)> = Vec::new();
        let n: usize = self.counts.len();
        let mut i: usize = 0;
        while i < n
            invariant
                self.wf(),
                i <= n,
                n == self.counts.names().len(),
                members@.len() == i,
                forall|k: int|
                    0 <= k < i ==> (#[trigger] members@[k]).0@ == distinct(self@)[k]
                        && members@[k].1@ == MetaTree::Count(
                        capped(occurrences(self@, distinct(self@)[k]) as int),
                    ),
            decreases n - i,
        {
            proof {
                self.counts.lemma_shape();
                assert(self.counts@.contains_key(self.counts.names()[i as int]));
            }
            members.push((self.counts.key(i).clone(), MetaValue::Count(*self.counts.value(i))));
            i += 1;
        }
        let r = MetaValue::Record(members);
        assert(r@->Record_0 =~= tally_of(self@)->Record_0);
        r
    }
}

/// Whether a text comes before another, or is the same: by the first character in which they
/// differ, the shorter first where none does.
pub open spec fn not_after(a: Seq<char>, b: Seq<char>) -> bool
    decreases a.len(),
{
    if a.len() == 0 {
        true
    } else if b.len() == 0 {
        false
    } else if a[0] == b[0] {
        not_after(a.drop_first(), b.drop_first())
    } else {
        a[0] < b[0]
    }
}

/// The order of texts, as a relation.
pub open spec fn text_order() -> spec_fn(Seq<char>, Seq<char>) -> bool {
    |a: Seq<char>, b: Seq<char>| not_after(a, b)
}

proof fn lemma_same_order(a: Seq<char>)
    ensures
        not_after(a, a),
    decreases a.len(),
{
    if a.len() > 0 {
        lemma_same_order(a.drop_first());
    }
}

proof fn lemma_either_order(a: Seq<char>, b: Seq<char>)
    ensures
        not_after(a, b) || not_after(b, a),
        not_after(a, b) && not_after(b, a) ==> a == b,
    decreases a.len(),
{
    if a.len() > 0 && b.len() > 0 && a[0] == b[0] {
        lemma_either_order(a.drop_first(), b.drop_first());
        if a.drop_first() == b.drop_first() {
            assert(a =~= seq![a[0]] + a.drop_first());
            assert(b =~= seq![b[0]] + b.drop_first());
        }
    } else if a.len() == 0 && b.len() == 0 {
        assert(a =~= b);
    }
}

proof fn lemma_order_chain(a: Seq<char>, b: Seq<char>, c: Seq<char>)
    requires
        not_after(a, b),
        not_after(b, c),
    ensures
        not_after(a, c),
    decreases a.len(),
{
    if a.len() > 0 && b.len() > 0 && c.len() > 0 && a[0] == b[0] && b[0] == c[0] {
        lemma_order_chain(a.drop_first(), b.drop_first(), c.drop_first());
    }
}

/// Texts are totally ordered.
pub proof fn lemma_text_order_is_total()
    ensures
        vstd::relations::total_ordering(text_order()),
{
    let leq = text_order();
    assert forall|a: Seq<char>| #[trigger] leq(a, a) by {
        lemma_same_order(a);
    }
    assert forall|a: Seq<char>, b: Seq<char>| #[trigger] leq(a, b) && #[trigger] leq(
        b,
        a,
    ) implies a == b by {
        lemma_either_order(a, b);
    }
    assert forall|a: Seq<char>, b: Seq<char>, c: Seq<char>| #[trigger] leq(a, b) && #[trigger] leq(
        b,
        c,
    ) implies leq(a, c) by {
        lemma_order_chain(a, b, c);
    }
    assert forall|a: Seq<char>, b: Seq<char>| #[trigger] leq(a, b) || #[trigger] leq(b, a) by {
        lemma_either_order(a, b);
    }
}

/// Texts in order.
pub open spec fn sorted_texts(list: Seq<Seq<char>>) -> Seq<Seq<char>> {
    list.sort_by(text_order())
}

/// Sorted texts are in order, and each stands as often as before.
pub proof fn law_sorted_texts(list: Seq<Seq<char>>)
    ensures
        vstd::relations::sorted_by(sorted_texts(list), text_order()),
        sorted_texts(list).to_multiset() == list.to_multiset(),
        sorted_texts(list).len() == list.len(),
{
    lemma_text_order_is_total();
    list.lemma_sort_by_ensures(text_order());
    list.to_multiset_ensures();
    sorted_texts(list).to_multiset_ensures();
}

/// Calls `sort` of a slice of `String`.
///
/// Claims that the texts are in order afterwards, each as often as before.
#[verifier::external_body]
fn sort_in_place(list: &mut Vec<String>)
    ensures
        vstd::relations::sorted_by(texts(final(list)@), text_order()),
        texts(final(list)@).to_multiset() == texts(old(list)@).to_multiset(),
{
    list.sort()
}

/// Puts texts in order.
pub fn sort_texts(list: &mut Vec<String>)
    ensures
        texts(final(list)@) == sorted_texts(texts(old(list)@)),
        final(list)@.len() == old(list)@.len(),
{
    let ghost before = texts(list@);
    sort_in_place(list);
    proof {
        lemma_text_order_is_total();
        law_sorted_texts(before);
        vstd::seq_lib::lemma_sorted_unique(texts(list@), sorted_texts(before), text_order());
    }
}

/// Texts as a list of details.
pub open spec fn text_list(list: Seq<Seq<char>>) -> MetaTree {
    MetaTree::List(Seq::new(list.len(), |i: int| MetaTree::Text(list[i])))
}

/// Texts as a list of details.
pub fn to_list(list: &Vec<String>) -> (r: MetaValue)
    ensures
        r@ == text_list(texts(list@)),
{
    let mut items: Vec<MetaValue> = Vec::new();
    let mut i: usize = 0;
    while i < list.len()
        invariant
            i <= list@.len(),
            items@.len() == i,
            forall|k: int| 0 <= k < i ==> (#[trigger] items@[k])@ == MetaTree::Text(list@[k]@),
        decreases list@.len() - i,
    {
        items.push(MetaValue::Text(list[i].clone()));
        i += 1;
    }
    let r = MetaValue::List(items);
    assert(r@->List_0 =~= text_list(texts(list@))->List_0);
    r
}

} // verus!
