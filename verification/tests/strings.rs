use database::StringInterner;
use std::sync::Arc;

#[test]
fn one_text_is_held_once() {
    let mut interner = StringInterner::new();
    let a = interner.intern("hello");
    let b = interner.intern("hello");
    let c = interner.intern_string(String::from("hello"));
    let d = interner.intern("world");
    assert_eq!(&*a, "hello");
    assert_eq!(&*d, "world");
    assert!(Arc::ptr_eq(&a, &b));
    assert!(Arc::ptr_eq(&a, &c));
    assert!(!Arc::ptr_eq(&a, &d));
    assert_eq!(interner.len(), 2);
}

#[test]
fn owned_texts_are_interned_too() {
    let mut interner = StringInterner::with_shard_count(2);
    let a = interner.intern_string(String::from("owned"));
    assert_eq!(&*a, "owned");
    assert!(Arc::ptr_eq(&a, &interner.intern("owned")));
    assert!(Arc::ptr_eq(&a, &interner.get("owned").unwrap()));
    assert_eq!(interner.len(), 1);
}

#[test]
fn strings_are_found_after_interning() {
    let mut interner = StringInterner::default();
    assert!(interner.is_empty());
    assert!(interner.get("a").is_none());
    assert!(!interner.contains("a"));
    let a = interner.intern("a");
    assert!(Arc::ptr_eq(&a, &interner.get("a").unwrap()));
    assert!(interner.contains("a"));
    assert!(!interner.contains("b"));
    assert!(!interner.is_empty());
}

#[test]
fn length_counts_distinct_texts() {
    for shards in [0, 1, 3, 64] {
        let mut interner = StringInterner::with_capacity_and_shards(10, shards);
        for i in 0..300 {
            interner.intern(&format!("text {}", i % 100));
        }
        assert_eq!(interner.len(), 100);
        for i in 0..100 {
            assert_eq!(&*interner.get(&format!("text {i}")).unwrap(), format!("text {i}").as_str());
        }
        assert!(!interner.contains("text 100"));
    }
}

#[test]
fn the_order_of_interning_makes_no_difference() {
    let mut one = StringInterner::new();
    one.intern("a");
    one.intern("b");
    let mut other = StringInterner::new();
    other.intern("b");
    other.intern("a");
    assert_eq!(one.len(), other.len());
    assert!(one.contains("a") && one.contains("b"));
    assert!(other.contains("a") && other.contains("b"));
}

#[test]
fn reserving_changes_nothing() {
    let mut interner = StringInterner::with_capacity(5);
    let a = interner.intern("a");
    interner.reserve(1_000);
    assert_eq!(interner.len(), 1);
    assert!(Arc::ptr_eq(&a, &interner.get("a").unwrap()));
}

#[test]
fn clearing_removes_everything() {
    let mut interner = StringInterner::new();
    let a = interner.intern("a");
    interner.intern("");
    assert_eq!(interner.len(), 2);
    interner.clear();
    assert!(interner.is_empty());
    assert_eq!(interner.len(), 0);
    assert!(!interner.contains("a"));
    assert_eq!(&*a, "a");
    let again = interner.intern("a");
    assert!(!Arc::ptr_eq(&a, &again));
    assert_eq!(interner.len(), 1);
}
