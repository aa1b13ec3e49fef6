//! A map from strings that remembers the order in which its keys came.

use vstd::hash_map::StringHashMap;
use vstd::prelude::*;

verus! {

/// A map with string keys. Keys keep the order in which they were first put in, so that
/// walking over the map gives the same result every time.
pub struct StrMap<V> {
    index: StringHashMap<usize>,
    keys: Vec<String>,
    values: Vec<V>,
}

impl<V> View for StrMap<V> {
    type V = Map<Seq<char>, V>;

    closed spec fn view(&self) -> Map<Seq<char>, V> {
        Map::new(
            |k: Seq<char>| self.names().contains(k),
            |k: Seq<char>| self.items()[self.names().index_of(k)],
        )
    }
}

impl<V> StrMap<V> {
    /// The keys, in the order in which they came.
    pub closed spec fn names(&self) -> Seq<Seq<char>> {
        self.keys@.map_values(|k: String| k@)
    }

    /// The values, in the order of their keys.
    pub closed spec fn items(&self) -> Seq<V> {
        self.values@
    }

    /// No key stands twice, every key has one value, and each key is found where it stands.
    pub closed spec fn wf(&self) -> bool {
        &&& self.keys@.len() == self.values@.len()
        &&& self.names().no_duplicates()
        &&& forall|k: Seq<char>| #[trigger]
            self.index@.contains_key(k) <==> self.names().contains(k)
        &&& forall|i: int|
            0 <= i < self.names().len() ==> self.index@[#[trigger] self.names()[i]] == i
    }

    /// How the view of the map and its lists of keys and values belong together.
    pub proof fn lemma_shape(&self)
        requires
            self.wf(),
        ensures
            self.names().len() == self.items().len(),
            self.names().no_duplicates(),
            self@.dom() =~= self.names().to_set(),
            self@.dom().finite(),
            self@.len() == self.names().len(),
            forall|i: int|
                0 <= i < self.names().len() ==> self@.contains_key(#[trigger] self.names()[i])
                    && self@[self.names()[i]] == self.items()[i],
            forall|k: Seq<char>|
                self@.contains_key(k) ==> exists|i: int|
                    0 <= i < self.names().len() && self.names()[i] == k,
    {
        let names = self.names();
        names.unique_seq_to_set();
        vstd::seq_lib::seq_to_set_is_finite(names);
        assert forall|i: int| 0 <= i < names.len() implies self@.contains_key(#[trigger] names[i])
            && self@[names[i]] == self.items()[i] by {
            assert(names.contains(names[i]));
            let j = names.index_of(names[i]);
            assert(0 <= j < names.len() && names[j] == names[i]);
        }
        assert(self@.dom() =~= names.to_set());
    }

    /// An empty map.
    pub fn new() -> (r: Self)
        ensures
            r.wf(),
            r@ == Map::<Seq<char>, V>::empty(),
            r.names().len() == 0,
    {
        let r = StrMap { index: StringHashMap::new(), keys: Vec::new(), values: Vec::new() };
        assert(r@ =~= Map::<Seq<char>, V>::empty());
        r
    }

    /// The number of keys.
    pub fn len(&self) -> (r: usize)
        requires
            self.wf(),
        ensures
            r == self@.len(),
            r == self.names().len(),
    {
        proof {
            self.lemma_shape();
        }
        self.keys.len()
    }

    /// Whether the map holds no key.
    pub fn is_empty(&self) -> (r: bool)
        requires
            self.wf(),
        ensures
            r <==> self@.len() == 0,
            r <==> self@ =~= Map::<Seq<char>, V>::empty(),
    {
        proof {
            self.lemma_shape();
            if self.names().len() == 0 {
                assert(self@ =~= Map::<Seq<char>, V>::empty());
            } else {
                assert(self@.contains_key(self.names()[0]));
            }
        }
        self.keys.len() == 0
    }

    /// Where a key stands among the keys.
    pub fn position(&self, key: &str) -> (r: Option<usize>)
        requires
            self.wf(),
        ensures
            match r {
                Some(i) => self@.contains_key(key@) && i < self.names().len() && self.names()[i as int]
                    == key@ && self.items()[i as int] == self@[key@],
                None => !self@.contains_key(key@),
            },
    {
        proof {
            self.lemma_shape();
        }
        match self.index.get(key) {
            Some(i) => {
                proof {
                    let j = self.names().index_of(key@);
                    assert(self.names()[j] == key@);
                }
                Some(*i)
            },
            None => None,
        }
    }

    /// The value of a key, if the map holds it.
    pub fn get(&self, key: &str) -> (r: Option<&V>)
        requires
            self.wf(),
        ensures
            match r {
                Some(v) => self@.contains_key(key@) && *v == self@[key@],
                None => !self@.contains_key(key@),
            },
    {
        proof {
            self.lemma_shape();
        }
        match self.position(key) {
            Some(i) => Some(&self.values[i]),
            None => None,
        }
    }

    /// The key at a place.
    pub fn key(&self, i: usize) -> (r: &String)
        requires
            self.wf(),
            i < self.names().len(),
        ensures
            r@ == self.names()[i as int],
    {
        &self.keys[i]
    }

    /// The value at a place.
    pub fn value(&self, i: usize) -> (r: &V)
        requires
            self.wf(),
            i < self.names().len(),
        ensures
            *r == self.items()[i as int],
            *r == self@[self.names()[i as int]],
    {
        proof {
            self.lemma_shape();
        }
        &self.values[i]
    }

    /// The value at a place, to be changed there.
    pub fn value_mut(&mut self, i: usize) -> (r: &mut V)
        requires
            old(self).wf(),
            i < old(self).names().len(),
        ensures
            *r == old(self).items()[i as int],
            final(self).wf(),
            final(self).names() == old(self).names(),
            final(self).items() == old(self).items().update(i as int, *final(r)),
            final(self)@ == old(self)@.insert(old(self).names()[i as int], *final(r)),
    {
        &mut self.values[i]
    }

    /// Puts a value under a key; a value that stood there is replaced.
    pub fn insert(&mut self, key: String, value: V)
        requires
            old(self).wf(),
        ensures
            final(self).wf(),
            final(self)@ == old(self)@.insert(key@, value),
            final(self).names() == if old(self)@.contains_key(key@) {
                old(self).names()
            } else {
                old(self).names().push(key@)
            },
    {
        match self.position(key.as_str()) {
            Some(i) => {
                *self.value_mut(i) = value;
            },
            None => {
                self.push_new(key, value);
            },
        }
    }

    /// The keys and the values.
    pub fn into_parts(self) -> (r: (Vec<String>, Vec<V>))
        requires
            self.wf(),
        ensures
            r.0@.map_values(|k: String| k@) == self.names(),
            r.1@ == self.items(),
            r.0@.len() == r.1@.len(),
    {
        (self.keys, self.values)
    }

    fn push_new(&mut self, key: String, value: V)
        requires
            old(self).wf(),
            !old(self)@.contains_key(key@),
        ensures
            final(self).wf(),
            final(self)@ == old(self)@.insert(key@, value),
            final(self).names() == old(self).names().push(key@),
    {
        let ghost before = *self;
        let i: usize = self.keys.len();
        let ghost k = key@;
        self.index.insert(key.clone(), i);
        self.keys.push(key);
        self.values.push(value);
        proof {
            before.lemma_shape();
            assert(self.names() =~= before.names().push(k));
            assert(!before.names().contains(k));
            assert forall|x: Seq<char>| #[trigger]
                self.index@.contains_key(x) <==> self.names().contains(x) by {
                if before.names().contains(x) {
                    let j = before.names().index_of(x);
                    assert(self.names()[j] == x);
                }
                assert(self.names()[i as int] == k);
            }
            self.lemma_shape();
            assert forall|x: Seq<char>| before@.contains_key(x) implies self@.contains_key(x) && self@[x]
                == before@[x] by {
                let j = before.names().index_of(x);
                assert(before.names()[j] == x);
                assert(self.names()[j] == x);
            }
            assert(self.names()[i as int] == k);
            assert(self@ =~= before@.insert(k, value));
        }
    }
}

} // verus!
