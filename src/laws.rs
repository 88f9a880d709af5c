//! Properties of the store contract that span several operations, stated over
//! the records a store holds.

use vstd::prelude::*;

use crate::json::{
    Fields, entry_text, field_map, lemma_merge_fields, list_text, merge_fields, names_distinct,
};
use crate::store::{Key, entry_texts, is_listing, lists_keys, lookup_text};

verus! {

/// Reading a key right after `add` stored `r` under it gives the text of `r`
/// under that key.
pub proof fn lemma_get_after_add(m: Map<Key, Fields>, k: Key, r: Fields)
    requires
        !m.contains_key(k),
    ensures
        lookup_text(m.insert(k, r), k) == entry_text(k, r),
        m.insert(k, r)[k] == r,
{
}

/// A key that is not in use reads as the empty string, and deleting it
/// changes nothing.
pub proof fn lemma_absent_key(m: Map<Key, Fields>, k: Key)
    requires
        !m.contains_key(k),
    ensures
        lookup_text(m, k) == Seq::<char>::empty(),
        m.remove(k) == m,
{
    assert(m.remove(k) =~= m);
}

/// The listing of an empty store is `[]`.
pub proof fn lemma_listing_empty(t: Seq<char>)
    requires
        is_listing(Map::<Key, Fields>::empty(), t),
    ensures
        t == seq!['[', ']'],
{
    let order = choose|order: Seq<Key>|
        lists_keys(Map::<Key, Fields>::empty(), order) && t == list_text(
            entry_texts(Map::<Key, Fields>::empty(), order),
        );
    if order.len() > 0 {
        assert(order.contains(order[0]));
    }
    assert(entry_texts(Map::<Key, Fields>::empty(), order) =~= Seq::<Seq<char>>::empty());
    assert(list_text(Seq::<Seq<char>>::empty()) =~= seq!['[', ']']);
}

/// The listing of a store that holds one record is an array of exactly that
/// record's stored text.
pub proof fn lemma_listing_single(k: Key, r: Fields, t: Seq<char>)
    requires
        is_listing(Map::<Key, Fields>::empty().insert(k, r), t),
    ensures
        t == list_text(seq![entry_text(k, r)]),
{
    let m = Map::<Key, Fields>::empty().insert(k, r);
    let order = choose|order: Seq<Key>| lists_keys(m, order) && t == list_text(entry_texts(m, order));
    assert(order.contains(k));
    let i = choose|i: int| 0 <= i < order.len() && order[i] == k;
    if order.len() > 1 {
        let j = if i == 0 { 1int } else { 0int };
        assert(order.contains(order[j]));
        assert(order[j] == k);
    }
    assert(order =~= seq![k]);
    assert(entry_texts(m, order) =~= seq![entry_text(k, r)]);
}

/// After `delete(k)`, the key reads as the empty string and no listing holds
/// it any more.
pub proof fn lemma_delete_removes(m: Map<Key, Fields>, k: Key, order: Seq<Key>)
    requires
        lists_keys(m.remove(k), order),
    ensures
        lookup_text(m.remove(k), k) == Seq::<char>::empty(),
        !order.contains(k),
{
}

/// An update of one field sets that field and keeps every other field; a
/// replace with that one field leaves only it.
pub proof fn lemma_update_merges_replace_overwrites(
    prior: Fields,
    f: Seq<char>,
    v: serde_json::Value,
)
    requires
        names_distinct(prior),
    ensures
        field_map(merge_fields(prior, seq![(f, v)])) == field_map(prior).insert(f, v),
        forall|g: Seq<char>|
            g != f && #[trigger] field_map(prior).contains_key(g) ==> field_map(
                merge_fields(prior, seq![(f, v)]),
            ).contains_key(g) && field_map(merge_fields(prior, seq![(f, v)]))[g] == field_map(
                prior,
            )[g],
        field_map(seq![(f, v)]) == Map::<Seq<char>, serde_json::Value>::empty().insert(f, v),
{
    let one = seq![(f, v)];
    assert(names_distinct(one));
    lemma_merge_fields(prior, one);
    assert(field_map(one).contains_key(f)) by {
        assert(one[0].0 == f);
    }
    assert(field_map(one) =~= Map::<Seq<char>, serde_json::Value>::empty().insert(f, v));
    assert(field_map(prior).union_prefer_right(field_map(one)) =~= field_map(prior).insert(f, v));
}

/// A run of `add`s, one after another from an empty store, each storing
/// under a key not in use: the keys are distinct and the store ends with one
/// entry for each.
pub proof fn lemma_adds_distinct(states: Seq<Map<Key, Fields>>, keys: Seq<Key>, items: Seq<Fields>)
    requires
        states.len() == keys.len() + 1,
        items.len() == keys.len(),
        states[0] == Map::<Key, Fields>::empty(),
        forall|i: int| 0 <= i < keys.len() ==> !states[i].contains_key(#[trigger] keys[i]),
        forall|i: int|
            0 <= i < keys.len() ==> states[i + 1] == states[i].insert(#[trigger] keys[i], items[i]),
    ensures
        keys.no_duplicates(),
        states.last().dom().finite(),
        states.last().dom().len() == keys.len(),
    decreases keys.len(),
{
    if keys.len() == 0 {
        assert(states.last().dom() =~= Set::<Key>::empty());
    } else {
        let n = keys.len() - 1;
        let s2 = states.drop_last();
        let k2 = keys.drop_last();
        let i2 = items.drop_last();
        assert forall|i: int| 0 <= i < k2.len() implies !s2[i].contains_key(#[trigger] k2[i])
            && s2[i + 1] == s2[i].insert(k2[i], i2[i]) by {
            assert(!states[i].contains_key(keys[i]));
            assert(states[i + 1] == states[i].insert(keys[i], items[i]));
        }
        lemma_adds_distinct(s2, k2, i2);
        assert(!states[n].contains_key(keys[n]));
        assert(states[n] == s2.last());
        assert(states.last().dom() =~= s2.last().dom().insert(keys[n]));
        lemma_keys_seen(states, keys, items, n);
        assert forall|a: int, b: int| 0 <= a < b < keys.len() implies keys[a] != keys[b] by {
            if b < n {
                assert(k2[a] != k2[b]);
            } else {
                assert(states[n].contains_key(keys[a]));
            }
        }
    }
}

/// In such a run, every key stored before step `n` is still in use at step `n`.
proof fn lemma_keys_seen(states: Seq<Map<Key, Fields>>, keys: Seq<Key>, items: Seq<Fields>, n: int)
    requires
        states.len() == keys.len() + 1,
        items.len() == keys.len(),
        0 <= n <= keys.len(),
        forall|i: int| 0 <= i < keys.len() ==> !states[i].contains_key(#[trigger] keys[i]),
        forall|i: int|
            0 <= i < keys.len() ==> states[i + 1] == states[i].insert(#[trigger] keys[i], items[i]),
    ensures
        forall|a: int| 0 <= a < n ==> states[n].contains_key(#[trigger] keys[a]),
    decreases n,
{
    if n > 0 {
        lemma_keys_seen(states, keys, items, n - 1);
        assert(states[n] == states[n - 1].insert(keys[n - 1], items[n - 1]));
        assert forall|a: int| 0 <= a < n implies states[n].contains_key(#[trigger] keys[a]) by {
            if a < n - 1 {
                assert(states[n - 1].contains_key(keys[a]));
            }
        }
    }
}

} // verus!
