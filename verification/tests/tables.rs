use utxo_node::store::{copy_store, Store, StoreValue};
use utxo_node::table::Table;

fn text(value: &StoreValue) -> Option<&str> {
    match value {
        StoreValue::Text(s) => Some(s.as_str()),
        StoreValue::Bytes(_) => None,
    }
}

#[test]
fn new_table_is_empty() {
    let table: Table<Vec<i32>> = Table::new();
    assert_eq!(table.len(), 0);
    assert!(!table.contains_key("a"));
    assert!(table.get("a").is_none());
    assert!(table.keys_vec().is_empty());
}

#[test]
fn insert_then_get() {
    let mut table: Table<Vec<i32>> = Table::new();
    table.insert("a".to_string(), vec![1]);
    table.insert("b".to_string(), vec![2, 3]);
    assert_eq!(table.len(), 2);
    assert_eq!(table.get("a"), Some(&vec![1]));
    assert_eq!(table.get("b"), Some(&vec![2, 3]));
    assert_eq!(table.get("c"), None);
    assert!(table.contains_key("a"));
    assert!(!table.contains_key(""));
}

#[test]
fn insert_under_a_present_key_replaces_and_keeps_the_place() {
    let mut table: Table<Vec<i32>> = Table::new();
    table.insert("a".to_string(), vec![1]);
    table.insert("b".to_string(), vec![2]);
    table.insert("a".to_string(), vec![9]);
    assert_eq!(table.len(), 2);
    assert_eq!(table.get("a"), Some(&vec![9]));
    assert_eq!(table.keys_vec(), vec!["a".to_string(), "b".to_string()]);
    assert_eq!(table.key_at(0), "a");
    assert_eq!(table.value_at(0), &vec![9]);
    assert_eq!(table.key_at(1), "b");
}

#[test]
fn remove_takes_out_one_key_and_keeps_the_order() {
    let mut table: Table<Vec<i32>> = Table::new();
    for (i, k) in ["a", "b", "c", "d"].iter().enumerate() {
        table.insert(k.to_string(), vec![i as i32]);
    }
    table.remove("b");
    assert_eq!(table.keys_vec(), vec!["a".to_string(), "c".to_string(), "d".to_string()]);
    assert_eq!(table.get("b"), None);
    assert_eq!(table.get("c"), Some(&vec![2]));
    table.remove("zzz");
    assert_eq!(table.len(), 3);
    table.remove("a");
    table.remove("d");
    table.remove("c");
    assert_eq!(table.len(), 0);
    table.insert("b".to_string(), vec![7]);
    assert_eq!(table.keys_vec(), vec!["b".to_string()]);
}

#[test]
fn store_holds_text_and_bytes() {
    let mut store: Store = Table::new();
    store.insert("l".to_string(), StoreValue::Text("tip".to_string()));
    store.insert("k".to_string(), StoreValue::Bytes(vec![1, 2]));
    assert_eq!(text(store.get("l").unwrap()), Some("tip"));
    assert!(matches!(store.get("k"), Some(StoreValue::Bytes(b)) if b == &vec![1, 2]));
    let copy = copy_store(&store);
    assert_eq!(copy.keys_vec(), store.keys_vec());
    assert_eq!(text(copy.get("l").unwrap()), Some("tip"));
    assert!(matches!(copy.get("k"), Some(StoreValue::Bytes(b)) if b == &vec![1, 2]));
    store.remove("l");
    assert_eq!(copy.len(), 2);
}
