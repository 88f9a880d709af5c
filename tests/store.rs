use std::collections::HashMap;

use awse::{DataStore, InMemoryStore, Key, Record, StoreProvider, StoreProviderFeatures};
use serde_json::{Number, Value};

fn record_of(pairs: Vec<(&str, Value)>) -> Record {
    let mut r = Record::new();
    for (name, value) in pairs {
        r.set(name.to_string(), value);
    }
    r
}

fn map_of(pairs: Vec<(&str, Value)>) -> HashMap<String, Value> {
    pairs.into_iter().map(|(k, v)| (k.to_string(), v)).collect()
}

/// Splits a stored entry into its key and its fields.
fn decode_entry(text: &str) -> (Key, HashMap<String, Value>) {
    let mut fields: HashMap<String, Value> = serde_json::from_str(text).unwrap();
    let key = fields.remove("_key").unwrap().as_u64().unwrap() as Key;
    (key, fields)
}

fn decode_listing(text: &str) -> Vec<(Key, HashMap<String, Value>)> {
    let items: Vec<String> = serde_json::from_str(text).unwrap();
    items.iter().map(|t| decode_entry(t)).collect()
}

#[test]
fn test_in_memory_store() {
    let mut test_store = InMemoryStore::new();
    let get_all_first = test_store.get_all();
    assert_eq!("[]", &get_all_first);

    let field = || String::from("age");
    let value = || Value::Number(Number::from(42));
    let item = || record_of(vec![(field().as_str(), value())]);
    let item_map = || map_of(vec![(field().as_str(), value())]);

    let key_opt = test_store.add(item());
    assert!(key_opt.is_some());
    let key = key_opt.unwrap();

    let item_retrieved = decode_entry(&test_store.get(key));
    let expected_item_with_key = (key, item_map());
    assert_eq!(expected_item_with_key, item_retrieved);

    let get_all_second = decode_listing(&test_store.get_all());
    let item_retrieved_differently = get_all_second.get(0).unwrap().clone();
    assert_eq!(expected_item_with_key, item_retrieved_differently);

    let field2 = || String::from("id");
    let value2 = || Value::Number(Number::from(123456));
    let value3 = || Value::Number(Number::from(66));
    let item2 = || record_of(vec![(field().as_str(), value3()), (field2().as_str(), value2())]);

    let non_existing_key: Key = 123;

    let key_opt2 = test_store.update(key, item2());
    assert!(key_opt2.is_some());
    let key2 = key_opt2.unwrap();

    let key_opt_none = test_store.update(non_existing_key, item2());
    assert!(key_opt_none.is_none());

    assert_eq!(key, key2);

    let expected_item_with_key2 = (
        key2,
        map_of(vec![(field().as_str(), value3()), (field2().as_str(), value2())]),
    );
    let item_retrieved2 = decode_entry(&test_store.get(key));
    assert_eq!(expected_item_with_key2, item_retrieved2);

    let key_opt3 = test_store.replace(key, item());
    assert!(key_opt3.is_some());
    let key3 = key_opt3.unwrap();
    assert_eq!(key2, key3);

    let item_retrieved3 = decode_entry(&test_store.get(key));
    assert_eq!(expected_item_with_key, item_retrieved3);

    let key_opt_none2 = test_store.replace(non_existing_key, item());
    assert!(key_opt_none2.is_none());

    let delete_result1 = decode_entry(&test_store.delete(key).unwrap());
    assert_eq!(expected_item_with_key, delete_result1);

    let delete_result2 = test_store.delete(key);
    assert!(delete_result2.is_none());

    let item_retrieved_last = test_store.get(key);
    assert_eq!("", &item_retrieved_last);

    let get_all_last = test_store.get_all();
    assert_eq!("[]", &get_all_last);
}

#[test]
fn round_trip_of_added_records() {
    let mut store = InMemoryStore::new();
    let records = vec![
        vec![],
        vec![("name", Value::String("Ada \"the\" first".to_string()))],
        vec![
            ("list", serde_json::from_str("[1,2,{\"x\":null}]").unwrap()),
            ("flag", Value::Bool(true)),
            ("nested", serde_json::from_str("{\"a\":{\"b\":[]}}").unwrap()),
        ],
    ];
    for pairs in records {
        let key = store.add(record_of(pairs.clone())).unwrap();
        assert_eq!(decode_entry(&store.get(key)), (key, map_of(pairs)));
    }
}

#[test]
fn unknown_keys_report_absence() {
    let mut store = InMemoryStore::new();
    for key in [0usize, 1, 123, usize::MAX] {
        assert_eq!(store.get(key), "");
        assert!(store.delete(key).is_none());
        assert!(store.replace(key, record_of(vec![("a", Value::Null)])).is_none());
        assert!(store.update(key, record_of(vec![("a", Value::Null)])).is_none());
    }
    assert_eq!(store.get_all(), "[]");
}

#[test]
fn listing_after_one_add() {
    let mut store = InMemoryStore::new();
    assert_eq!(store.get_all(), "[]");
    let key = store.add(record_of(vec![("age", Value::from(42))])).unwrap();
    let listing: Vec<String> = serde_json::from_str(&store.get_all()).unwrap();
    assert_eq!(listing, vec![store.get(key)]);
    assert_eq!(listing[0], format!("{{\"_key\":{},\"age\":42}}", key));
    assert_eq!(store.get_all(), format!("[\"{{\\\"_key\\\":{},\\\"age\\\":42}}\"]", key));
}

#[test]
fn provided_store_starts_empty() {
    let mut store = StoreProvider::store();
    assert_eq!(store.get_all(), "[]");
    assert_eq!(store.len(), 0);
    assert!(store.add(Record::new()).is_some());
    assert_eq!(store.len(), 1);
}

#[test]
fn delete_removes_entry_from_get_and_listing() {
    let mut store = InMemoryStore::new();
    let a = store.add(record_of(vec![("n", Value::from(1))])).unwrap();
    let b = store.add(record_of(vec![("n", Value::from(2))])).unwrap();
    let removed = store.delete(a).unwrap();
    assert_eq!(decode_entry(&removed), (a, map_of(vec![("n", Value::from(1))])));
    assert_eq!(store.get(a), "");
    let listing = decode_listing(&store.get_all());
    assert_eq!(listing, vec![(b, map_of(vec![("n", Value::from(2))]))]);
}

#[test]
fn update_merges_and_replace_overwrites() {
    let mut store = InMemoryStore::new();
    let key = store.add(record_of(vec![("g", Value::from("w"))])).unwrap();
    assert_eq!(store.update(key, record_of(vec![("f", Value::from("v"))])), Some(key));
    assert_eq!(
        decode_entry(&store.get(key)),
        (key, map_of(vec![("g", Value::from("w")), ("f", Value::from("v"))]))
    );
    assert_eq!(store.get(key), format!("{{\"_key\":{},\"g\":\"w\",\"f\":\"v\"}}", key));
    assert_eq!(store.replace(key, record_of(vec![("f", Value::from("v"))])), Some(key));
    assert_eq!(decode_entry(&store.get(key)), (key, map_of(vec![("f", Value::from("v"))])));
}

#[test]
fn update_overwrites_nested_values_whole() {
    let mut store = InMemoryStore::new();
    let key = store
        .add(record_of(vec![("o", serde_json::from_str("{\"a\":1,\"b\":2}").unwrap())]))
        .unwrap();
    store.update(key, record_of(vec![("o", serde_json::from_str("{\"c\":3}").unwrap())]));
    assert_eq!(store.get(key), format!("{{\"_key\":{},\"o\":{{\"c\":3}}}}", key));
}

#[test]
fn many_adds_get_distinct_keys() {
    let mut store = InMemoryStore::new();
    let n = 200;
    let mut keys = Vec::new();
    for i in 0..n {
        keys.push(store.add(record_of(vec![("i", Value::from(i))])).unwrap());
    }
    let mut sorted = keys.clone();
    sorted.sort();
    sorted.dedup();
    assert_eq!(sorted.len(), n);
    assert_eq!(decode_listing(&store.get_all()).len(), n);
    assert_eq!(store.len(), n);
}

#[test]
fn concurrent_adds_get_distinct_keys() {
    let shared = futures::lock::Mutex::new(InMemoryStore::new());
    let n = 50;
    let tasks = (0..n).map(|i| {
        let shared = &shared;
        async move {
            let mut store = shared.lock().await;
            store.add(record_of(vec![("i", Value::from(i))])).unwrap()
        }
    });
    let mut keys = futures::executor::block_on(futures::future::join_all(tasks));
    keys.sort();
    keys.dedup();
    assert_eq!(keys.len(), n);
    let store = futures::executor::block_on(shared.lock());
    assert_eq!(decode_listing(&store.get_all()).len(), n);
}

#[test]
fn scenario_add_get_update_replace_delete() {
    let mut store = InMemoryStore::new();
    let k = store.add(record_of(vec![("age", Value::from(42))])).unwrap();
    assert_eq!(decode_entry(&store.get(k)), (k, map_of(vec![("age", Value::from(42))])));
    assert_eq!(
        store.update(k, record_of(vec![("age", Value::from(66)), ("id", Value::from(123456))])),
        Some(k)
    );
    assert_eq!(
        decode_entry(&store.get(k)),
        (k, map_of(vec![("age", Value::from(66)), ("id", Value::from(123456))]))
    );
    assert_eq!(store.replace(k, record_of(vec![("age", Value::from(42))])), Some(k));
    let last = store.get(k);
    assert_eq!(decode_entry(&last), (k, map_of(vec![("age", Value::from(42))])));
    assert_eq!(store.delete(k), Some(last));
    assert_eq!(store.get(k), "");
}

#[test]
fn fresh_keys_are_free() {
    let mut store = InMemoryStore::new();
    assert_eq!(store.first_free_key(), 0);
    let k = store.generate_key();
    assert!(!store.contains_key(k));
    let a = store.add(Record::new()).unwrap();
    assert!(store.contains_key(a));
    let free = store.first_free_key();
    assert!(!store.contains_key(free));
    assert!(free <= 1);
}
