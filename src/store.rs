//! The store contract and its in-memory backend.

use std::collections::HashMap;

use vstd::prelude::*;
use vstd::std_specs::iter::IteratorSpec;

use crate::json::{Fields, entry_text, list_text, merge_fields, string_list_text};
use crate::record::Record;

verus! {

broadcast use vstd::std_specs::hash::group_hash_axioms;

/// An identifier that a store gives a record.
pub type Key = usize;

/// What `get` returns for `key`: the stored text of its entry, or the empty
/// string where the store holds no such entry.
pub open spec fn lookup_text(m: Map<Key, Fields>, key: Key) -> Seq<char> {
    if m.contains_key(key) {
        entry_text(key, m[key])
    } else {
        Seq::empty()
    }
}

/// `order` lists each key of `m` exactly once.
pub open spec fn lists_keys(m: Map<Key, Fields>, order: Seq<Key>) -> bool {
    &&& order.no_duplicates()
    &&& forall|k: Key| m.contains_key(k) <==> order.contains(k)
}

/// The stored texts of the entries of `m`, in the order of `order`.
pub open spec fn entry_texts(m: Map<Key, Fields>, order: Seq<Key>) -> Seq<Seq<char>> {
    order.map_values(|k: Key| entry_text(k, m[k]))
}

/// `t` is a listing of every entry of `m`: a JSON array of their stored texts,
/// in some order that lists each key once.
pub open spec fn is_listing(m: Map<Key, Fields>, t: Seq<char>) -> bool {
    exists|order: Seq<Key>| lists_keys(m, order) && t == list_text(entry_texts(m, order))
}

/// The operations that every store offers. A store holds records under keys
/// that it generates; `records` is what it holds.
pub trait DataStore {
    /// The records held, by key.
    spec fn records(&self) -> Map<Key, Fields>;

    /// Stores `item` under a key that was not in use, and returns that key.
    /// `None` where the entry could not be written; nothing is stored then.
    fn add(&mut self, item: Record) -> (r: Option<Key>)
        ensures
            match r {
                Some(k) => !old(self).records().contains_key(k) && final(self).records()
                    == old(self).records().insert(k, item@),
                None => final(self).records() == old(self).records(),
            },
    ;

    /// Removes the entry under `key` and returns its stored text; `None` where
    /// there is no such entry.
    fn delete(&mut self, key: Key) -> (r: Option<String>)
        ensures
            final(self).records() == old(self).records().remove(key),
            match r {
                Some(t) => old(self).records().contains_key(key) && t@ == entry_text(
                    key,
                    old(self).records()[key],
                ),
                None => !old(self).records().contains_key(key),
            },
    ;

    /// The stored text of the entry under `key`, or the empty string where
    /// there is no such entry.
    fn get(&self, key: Key) -> (r: String)
        ensures
            r@ == lookup_text(self.records(), key),
    ;

    /// A JSON array of the stored texts of all entries, in no particular
    /// order.
    fn get_all(&self) -> (r: String)
        ensures
            is_listing(self.records(), r@),
    ;

    /// Replaces the record under `key` with `item` as a whole, and returns
    /// `key`; `None`, with nothing changed, where there is no such entry.
    fn replace(&mut self, key: Key, item: Record) -> (r: Option<Key>)
        ensures
            old(self).records().contains_key(key) ==> r == Some(key) && final(self).records()
                == old(self).records().insert(key, item@),
            !old(self).records().contains_key(key) ==> r is None && final(self).records()
                == old(self).records(),
    ;

    /// Merges the fields of `item` into the record under `key`, and returns
    /// `key`; `None`, with nothing changed, where there is no such entry.
    fn update(&mut self, key: Key, item: Record) -> (r: Option<Key>)
        ensures
            old(self).records().contains_key(key) ==> r == Some(key) && final(self).records()
                == old(self).records().insert(
                key,
                merge_fields(old(self).records()[key], item@),
            ),
            !old(self).records().contains_key(key) ==> r is None && final(self).records()
                == old(self).records(),
    ;
}

/// Makes the store that the service runs on.
pub trait StoreProviderFeatures {
    type Store: DataStore;

    /// A new store, holding no records.
    fn store() -> (r: Self::Store)
        ensures
            r.records() == Map::<Key, Fields>::empty(),
    ;
}

/// Provides the in-memory store.
pub struct StoreProvider;

impl StoreProviderFeatures for StoreProvider {
    type Store = InMemoryStore;

    fn store() -> (r: InMemoryStore) {
        InMemoryStore::new()
    }
}

/// How many random keys `add` draws before it settles for the lowest free one.
pub const DRAW_LIMIT: u32 = 64;

/// Relies on rand::random: a key drawn from the thread-local generator.
#[verifier::external_body]
fn random_key() -> Key {
    rand::random::<usize>()
}

/// A store that keeps its entries in memory: each record together with its
/// stored text, under its key.
pub struct InMemoryStore {
    entries: HashMap<Key, (Record, String)>,
}

impl View for InMemoryStore {
    type V = Map<Key, Fields>;

    closed spec fn view(&self) -> Map<Key, Fields> {
        self.entries@.map_values(|e: (Record, String)| e.0@)
    }
}

impl InMemoryStore {
    #[verifier::type_invariant]
    closed spec fn inv(&self) -> bool {
        forall|k: Key| #[trigger]
            self.entries@.contains_key(k) ==> self.entries@[k].1@ == entry_text(
                k,
                self.entries@[k].0@,
            )
    }

    /// An empty store.
    pub fn new() -> (r: InMemoryStore)
        ensures
            r@ == Map::<Key, Fields>::empty(),
    {
        let r = InMemoryStore { entries: HashMap::new() };
        assert(r@ =~= Map::<Key, Fields>::empty());
        r
    }

    /// The number of entries.
    pub fn len(&self) -> (n: usize)
        ensures
            n == self@.dom().len(),
    {
        assert(self@.dom() =~= self.entries@.dom());
        self.entries.len()
    }

    /// Whether `key` is in use.
    pub fn contains_key(&self, key: Key) -> (b: bool)
        ensures
            b == self@.contains_key(key),
    {
        self.entries.contains_key(&key)
    }

    /// The lowest key that is not in use.
    pub fn first_free_key(&self) -> (k: Key)
        ensures
            !self@.contains_key(k),
            forall|j: Key| j < k ==> self@.contains_key(j),
    {
        let n = self.entries.len();
        let mut k: usize = 0;
        let ghost mut probed: Set<Key> = Set::empty();
        while self.entries.contains_key(&k)
            invariant
                n == self.entries@.dom().len(),
                probed.finite(),
                probed.len() == k,
                probed.subset_of(self.entries@.dom()),
                forall|j: Key| probed.contains(j) <==> j < k,
            decreases n - k,
        {
            proof {
                let next = probed.insert(k);
                assert(!probed.contains(k));
                vstd::set_lib::lemma_len_subset(next, self.entries@.dom());
                probed = next;
            }
            k = k + 1;
        }
        k
    }

    /// A key that is not in use: drawn at random, and drawn again while it is
    /// taken, up to `DRAW_LIMIT` draws; after that the lowest free key.
    pub fn generate_key(&self) -> (k: Key)
        ensures
            !self@.contains_key(k),
    {
        let mut draws: u32 = 0;
        while draws < DRAW_LIMIT
            invariant
                draws <= DRAW_LIMIT,
            decreases DRAW_LIMIT - draws,
        {
            let k = random_key();
            if !self.entries.contains_key(&k) {
                return k;
            }
            draws = draws + 1;
        }
        self.first_free_key()
    }
}

impl InMemoryStore {
    /// Stores `record` with its text under `key`, in place of any entry there.
    fn put(&mut self, key: Key, record: Record, text: String)
        requires
            text@ == entry_text(key, record@),
        ensures
            final(self)@ == old(self)@.insert(key, record@),
    {
        proof {
            use_type_invariant(&*self);
        }
        let mut entries: HashMap<Key, (Record, String)> = HashMap::new();
        core::mem::swap(&mut self.entries, &mut entries);
        let ghost before = entries@;
        let ghost fields = record@;
        entries.insert(key, (record, text));
        assert(entries@.map_values(|e: (Record, String)| e.0@) =~= before.map_values(
            |e: (Record, String)| e.0@,
        ).insert(key, fields));
        self.entries = entries;
    }
}

impl DataStore for InMemoryStore {
    open spec fn records(&self) -> Map<Key, Fields> {
        self@
    }

    fn add(&mut self, item: Record) -> (r: Option<Key>)
        ensures
            r is Some,
    {
        let key = self.generate_key();
        let text = item.encode(key);
        self.put(key, item, text);
        Some(key)
    }

    fn delete(&mut self, key: Key) -> (r: Option<String>) {
        proof {
            use_type_invariant(&*self);
        }
        let mut entries: HashMap<Key, (Record, String)> = HashMap::new();
        core::mem::swap(&mut self.entries, &mut entries);
        let ghost before = entries@;
        let removed = entries.remove(&key);
        assert(entries@.map_values(|e: (Record, String)| e.0@) =~= before.map_values(
            |e: (Record, String)| e.0@,
        ).remove(key));
        self.entries = entries;
        match removed {
            Some(e) => Some(e.1),
            None => None,
        }
    }

    fn get(&self, key: Key) -> (r: String) {
        proof {
            use_type_invariant(self);
        }
        match self.entries.get(&key) {
            Some(e) => e.1.clone(),
            None => String::new(),
        }
    }

    fn get_all(&self) -> (r: String) {
        proof {
            use_type_invariant(self);
        }
        let ghost m = self.entries@;
        let ghost records = self@;
        let mut texts: Vec<String> = Vec::new();
        let ghost mut order: Seq<Key> = Seq::empty();
        let ghost s = vstd::std_specs::hash::spec_hash_map_iter(&self.entries).remaining();
        for pair in it: self.entries.iter()
            invariant
                m == self.entries@,
                records == self@,
                s == vstd::std_specs::hash::spec_hash_map_iter(&self.entries).remaining(),
                it.seq() == s,
                s.no_duplicates(),
                forall|q: Key| #[trigger]
                    m.contains_key(q) ==> m[q].1@ == entry_text(q, m[q].0@),
                order.len() == it.index(),
                texts@.len() == it.index(),
                forall|j: int| 0 <= j < it.index() ==> order[j] == *s[j].0,
                forall|j: int|
                    0 <= j < it.index() ==> #[trigger] texts@[j]@ == entry_text(
                        order[j],
                        records[order[j]],
                    ),
                it.index() == s.len() ==> lists_keys(records, order),
        {
            let (k, e) = pair;
            texts.push(e.1.clone());
            proof {
                order = order.push(*k);
            }
            assert(m.contains_key(*k));
            assert(m[*k] == *e);
            assert(records[*k] == e.0@);
            assert(order.len() == s.len() ==> lists_keys(records, order)) by {
                if order.len() == s.len() {
                    assert forall|a: int, b: int| 0 <= a < b < order.len() implies order[a]
                        != order[b] by {
                        assert(m[*s[a].0] == *s[a].1);
                        assert(m[*s[b].0] == *s[b].1);
                        if order[a] == order[b] {
                            assert(s[a] == s[b]);
                        }
                    }
                    assert forall|q: Key| records.contains_key(q) implies order.contains(q) by {
                        assert(m.contains_key(q));
                        assert(s.contains((&q, &m[q])));
                        let i = choose|i: int| 0 <= i < s.len() && s[i] == (&q, &m[q]);
                        assert(order[i] == q);
                    }
                }
            }
        }
        assert(lists_keys(records, order));
        assert(texts@.map_values(|t: String| t@) =~= entry_texts(records, order));
        string_list_text(&texts)
    }

    fn replace(&mut self, key: Key, item: Record) -> (r: Option<Key>) {
        if !self.entries.contains_key(&key) {
            return None;
        }
        let text = item.encode(key);
        self.put(key, item, text);
        Some(key)
    }

    fn update(&mut self, key: Key, item: Record) -> (r: Option<Key>) {
        let mut record = match self.entries.get(&key) {
            Some(e) => e.0.duplicate(),
            None => {
                return None;
            },
        };
        record.merge(item);
        let text = record.encode(key);
        self.put(key, record, text);
        Some(key)
    }
}

} // verus!
