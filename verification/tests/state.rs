//! Tests for the ordered string-keyed map and the field value cell.

use borang::{FieldSignal, StrMap};

#[test]
fn strmap_insert_get_and_replace() {
    let mut m: StrMap<u64> = StrMap::new();
    assert!(m.is_empty());
    m.insert("a", 1);
    m.insert("b", 2);
    assert_eq!(m.len(), 2);
    assert_eq!(m.get("a"), Some(&1));
    assert_eq!(m.get("b"), Some(&2));
    assert_eq!(m.get("c"), None);
    m.insert("a", 9);
    assert_eq!(m.get("a"), Some(&9));
    assert_eq!(m.len(), 2);
}

#[test]
fn strmap_keeps_insertion_order() {
    let mut m: StrMap<u64> = StrMap::new();
    m.insert("z", 1);
    m.insert("a", 2);
    m.insert("m", 3);
    // replacing a value keeps the key's position
    m.insert("a", 20);
    assert_eq!(m.key_at(0), "z");
    assert_eq!(m.key_at(1), "a");
    assert_eq!(m.key_at(2), "m");
}

#[test]
fn strmap_remove_and_clear() {
    let mut m: StrMap<u64> = StrMap::new();
    m.insert("a", 1);
    m.insert("b", 2);
    m.remove("a");
    assert_eq!(m.get("a"), None);
    assert_eq!(m.get("b"), Some(&2));
    assert_eq!(m.len(), 1);
    m.remove("not-there");
    assert_eq!(m.len(), 1);
    m.clear();
    assert!(m.is_empty());
    assert!(!m.contains_key("b"));
}

#[test]
fn field_signal_get_set() {
    let mut sig = FieldSignal::new("hello".to_string());
    assert_eq!(sig.get(), "hello");
    sig.set("world".to_string());
    assert_eq!(sig.get(), "world");
    assert_eq!(sig.value, "world");
}
