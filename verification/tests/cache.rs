use bounded_lru::{CacheError, LRU};
use bytes::Bytes;

fn filled(max_size: usize, pairs: &[(&str, &'static str)]) -> LRU {
    let mut lru = LRU::new().max_size(max_size);
    for (key, value) in pairs {
        assert!(lru.insert(key.to_string(), Bytes::from(*value)).is_ok());
    }
    lru
}

#[test]
fn no_evictions() {
    let mut lru = LRU::new();
    lru = lru.max_size(128);
    assert_eq!(lru.insert("a".to_owned(), Bytes::from("a")), Ok(None));
    assert_eq!(lru.get("a"), Some(&Bytes::from("a")));
}

#[test]
fn test_evictions_history() {
    let mut lru = LRU::new();
    lru = lru.max_size(5); // smaller by one from what we will ask for
    assert_eq!(lru.insert("a".to_owned(), Bytes::from("abc")), Ok(None));
    assert_eq!(lru.insert("b".to_owned(), Bytes::from("dfg")), Ok(None));
    assert_eq!(lru.get("a"), None);
    assert_eq!(*lru.history(), vec!["a"]);
    assert_eq!(lru.has_evicted_recently("a"), true);
}

#[test]
fn new_cache_is_empty() {
    let mut lru = LRU::new();
    assert_eq!(lru.accesses(), 0);
    assert_eq!(lru.hits(), 0);
    assert!(lru.history().is_empty());
    assert!(!lru.contains_key("a"));
    assert!(!lru.has_evicted_recently("a"));
    assert_eq!(lru.get("a"), None);
    assert_eq!(lru.current_size(), 0);
}

#[test]
fn default_capacity_is_64() {
    let mut lru = LRU::new();
    assert_eq!(lru.insert("full".to_owned(), Bytes::from(vec![7u8; 64])), Ok(None));
    assert_eq!(
        lru.insert("over".to_owned(), Bytes::from(vec![7u8; 65])),
        Err(CacheError::ValueTooLarge { len: 65, max_size: 64 })
    );
    assert_eq!(lru.current_size(), 64);
}

#[test]
fn oversized_value_is_refused_and_changes_nothing() {
    let mut lru = filled(5, &[("a", "ab"), ("b", "cd")]);
    assert_eq!(
        lru.insert("c".to_owned(), Bytes::from("abcdef")),
        Err(CacheError::ValueTooLarge { len: 6, max_size: 5 })
    );
    assert!(lru.contains_key("a"));
    assert!(lru.contains_key("b"));
    assert!(!lru.contains_key("c"));
    assert!(lru.history().is_empty());
    assert_eq!(lru.accesses(), 0);
    assert_eq!(lru.current_size(), 4);
}

#[test]
fn oversized_value_under_a_stored_key_keeps_the_old_value() {
    let mut lru = filled(5, &[("a", "ab")]);
    assert_eq!(
        lru.insert("a".to_owned(), Bytes::from("abcdef")),
        Err(CacheError::ValueTooLarge { len: 6, max_size: 5 })
    );
    assert_eq!(lru.get("a"), Some(&Bytes::from("ab")));
    assert_eq!(lru.current_size(), 2);
}

#[test]
fn value_of_exactly_the_capacity_fits() {
    let mut lru = filled(5, &[("a", "ab"), ("b", "cd")]);
    assert_eq!(lru.insert("c".to_owned(), Bytes::from("abcde")), Ok(None));
    assert!(!lru.contains_key("a"));
    assert!(!lru.contains_key("b"));
    assert_eq!(lru.get("c"), Some(&Bytes::from("abcde")));
    assert_eq!(*lru.history(), vec!["b", "a"]);
    assert_eq!(lru.current_size(), 5);
}

#[test]
fn current_size_never_exceeds_capacity() {
    let values = ["abc", "de", "fghi", "j", "klmno", "", "pq", "rstu"];
    for count in 0..=values.len() {
        let mut lru = LRU::new().max_size(7);
        for (i, value) in values.iter().take(count).enumerate() {
            assert!(lru.insert(format!("k{}", i), Bytes::from(*value)).is_ok());
        }
        assert!(lru.current_size() <= 7);
    }
}

#[test]
fn current_size_is_sum_of_stored_lengths() {
    // Capacity 7. abc, de: 5. fghi pushes abc out: 6. j: 7. klmno pushes de
    // and fghi out: 6.
    let expected = [0, 3, 5, 6, 7, 6];
    let values = ["abc", "de", "fghi", "j", "klmno"];
    for count in 0..=values.len() {
        let mut lru = LRU::new().max_size(7);
        for (i, value) in values.iter().take(count).enumerate() {
            assert!(lru.insert(format!("k{}", i), Bytes::from(*value)).is_ok());
        }
        assert_eq!(lru.current_size(), expected[count]);
    }
}

#[test]
fn eviction_takes_only_as_many_as_needed() {
    let mut lru = filled(7, &[("a", "abc"), ("b", "de"), ("c", "fg")]);
    // 7 stored; one more byte needs room for 1: only "a" leaves.
    assert_eq!(lru.insert("d".to_owned(), Bytes::from("h")), Ok(None));
    assert!(!lru.contains_key("a"));
    assert!(lru.contains_key("b"));
    assert!(lru.contains_key("c"));
    assert!(lru.contains_key("d"));
    assert_eq!(*lru.history(), vec!["a"]);
    assert_eq!(lru.current_size(), 5);
}

#[test]
fn eviction_follows_insertion_order_not_access_order() {
    let mut lru = filled(8, &[("a", "aaaa"), ("b", "bbbb")]);
    assert_eq!(lru.get("a"), Some(&Bytes::from("aaaa")));
    assert_eq!(lru.get("a"), Some(&Bytes::from("aaaa")));
    assert_eq!(lru.insert("c".to_owned(), Bytes::from("cccc")), Ok(None));
    assert!(!lru.contains_key("a"));
    assert!(lru.contains_key("b"));
    assert!(lru.contains_key("c"));
    assert_eq!(*lru.history(), vec!["a"]);
}

#[test]
fn history_is_bounded_and_newest_first() {
    let mut lru = LRU::new().max_size(2);
    for key in ["a", "b", "c", "d", "e"] {
        assert_eq!(lru.insert(key.to_owned(), Bytes::from("x")), Ok(None));
        assert!(lru.history().len() <= 2);
    }
    // a, b and c left in this order; the record keeps the two newest.
    assert_eq!(*lru.history(), vec!["c", "b"]);
    assert!(lru.has_evicted_recently("c"));
    assert!(lru.has_evicted_recently("b"));
    assert!(!lru.has_evicted_recently("a"));
    assert!(!lru.has_evicted_recently("d"));
    assert!(!lru.has_evicted_recently("zz"));
}

#[test]
fn history_records_every_eviction_of_one_insertion() {
    let mut lru = filled(6, &[("a", "aa"), ("b", "bb"), ("c", "cc")]);
    assert_eq!(lru.insert("d".to_owned(), Bytes::from("ddddd")), Ok(None));
    assert_eq!(*lru.history(), vec!["c", "b", "a"]);
    assert_eq!(lru.current_size(), 5);
}

#[test]
fn lookups_are_counted() {
    let mut lru = filled(10, &[("a", "abc")]);
    assert_eq!(lru.get("a"), Some(&Bytes::from("abc")));
    assert_eq!((lru.accesses(), lru.hits()), (1, 1));
    assert_eq!(lru.get("b"), None);
    assert_eq!((lru.accesses(), lru.hits()), (2, 1));
    assert_eq!(lru.get("a"), Some(&Bytes::from("abc")));
    assert_eq!((lru.accesses(), lru.hits()), (3, 2));
    assert!(lru.contains_key("a"));
    assert!(!lru.has_evicted_recently("a"));
    assert_eq!(lru.insert("c".to_owned(), Bytes::from("d")), Ok(None));
    assert_eq!((lru.accesses(), lru.hits()), (3, 2));
    assert!(lru.hits() <= lru.accesses());
}

#[test]
fn repeated_lookups_change_nothing_but_counters() {
    let mut lru = filled(5, &[("a", "abc"), ("b", "dfg")]);
    for _ in 0..4 {
        assert_eq!(lru.get("b"), Some(&Bytes::from("dfg")));
        assert_eq!(lru.get("a"), None);
        assert_eq!(*lru.history(), vec!["a"]);
        assert!(lru.contains_key("b"));
    }
    assert_eq!(lru.accesses(), 8);
    assert_eq!(lru.hits(), 4);
    assert_eq!(lru.current_size(), 3);
}

#[test]
fn overwrite_returns_prior_value_and_corrects_size() {
    let mut lru = filled(10, &[("a", "abc"), ("b", "de")]);
    assert_eq!(
        lru.insert("a".to_owned(), Bytes::from("hello")),
        Ok(Some(Bytes::from("abc")))
    );
    assert_eq!(lru.get("a"), Some(&Bytes::from("hello")));
    assert_eq!(lru.get("b"), Some(&Bytes::from("de")));
    assert!(lru.history().is_empty());
    assert_eq!(lru.current_size(), 7);
}

#[test]
fn overwrite_with_shorter_value_shrinks_size() {
    let mut lru = filled(10, &[("a", "abcdef")]);
    assert_eq!(
        lru.insert("a".to_owned(), Bytes::from("z")),
        Ok(Some(Bytes::from("abcdef")))
    );
    assert_eq!(lru.current_size(), 1);
}

#[test]
fn overwrite_makes_the_entry_the_newest() {
    let mut lru = filled(9, &[("a", "abc"), ("b", "def")]);
    assert_eq!(
        lru.insert("a".to_owned(), Bytes::from("xy")),
        Ok(Some(Bytes::from("abc")))
    );
    // 5 stored, b is now the oldest: five more bytes push b out, not a.
    assert_eq!(lru.insert("c".to_owned(), Bytes::from("12345")), Ok(None));
    assert!(lru.contains_key("a"));
    assert!(!lru.contains_key("b"));
    assert_eq!(*lru.history(), vec!["b"]);
    assert_eq!(lru.current_size(), 7);
}

#[test]
fn overwrite_of_an_entry_that_had_to_leave_returns_nothing() {
    let mut lru = filled(5, &[("a", "abc")]);
    assert_eq!(lru.insert("a".to_owned(), Bytes::from("defg")), Ok(None));
    assert_eq!(lru.get("a"), Some(&Bytes::from("defg")));
    assert_eq!(*lru.history(), vec!["a"]);
    assert!(lru.has_evicted_recently("a"));
    assert_eq!(lru.current_size(), 4);
}

#[test]
fn empty_values_take_no_room() {
    let mut lru = filled(3, &[("a", "abc")]);
    assert_eq!(lru.insert("e".to_owned(), Bytes::new()), Ok(None));
    assert!(lru.contains_key("a"));
    assert_eq!(lru.get("e"), Some(&Bytes::new()));
    assert!(lru.history().is_empty());
    assert_eq!(lru.current_size(), 3);
}

#[test]
fn zero_capacity_holds_only_empty_values() {
    let mut lru = LRU::new().max_size(0);
    assert_eq!(
        lru.insert("a".to_owned(), Bytes::from("x")),
        Err(CacheError::ValueTooLarge { len: 1, max_size: 0 })
    );
    assert_eq!(lru.insert("e".to_owned(), Bytes::new()), Ok(None));
    assert!(lru.contains_key("e"));
    assert!(lru.history().is_empty());
    assert_eq!(lru.current_size(), 0);
}

#[test]
fn smaller_capacity_takes_effect_at_the_next_insertion() {
    let lru = filled(10, &[("a", "abc"), ("b", "def"), ("c", "ghi")]);
    let mut lru = lru.max_size(4);
    assert!(lru.contains_key("a"));
    assert!(lru.contains_key("b"));
    assert!(lru.contains_key("c"));
    assert_eq!(lru.insert("d".to_owned(), Bytes::from("j")), Ok(None));
    assert!(!lru.contains_key("a"));
    assert!(!lru.contains_key("b"));
    assert!(lru.contains_key("c"));
    assert!(lru.contains_key("d"));
    assert_eq!(*lru.history(), vec!["b", "a"]);
    assert_eq!(lru.current_size(), 4);
}

#[test]
fn capacity_zero_after_use_empties_the_record() {
    let lru = filled(4, &[("a", "ab"), ("b", "cd"), ("c", "ef")]);
    assert_eq!(*lru.history(), vec!["a"]);
    let mut lru = lru.max_size(0);
    assert_eq!(lru.insert("e".to_owned(), Bytes::new()), Ok(None));
    assert!(!lru.contains_key("b"));
    assert!(!lru.contains_key("c"));
    assert!(lru.contains_key("e"));
    assert!(lru.history().is_empty());
    assert_eq!(lru.current_size(), 0);
}

#[test]
fn keys_differ_by_their_characters() {
    let mut lru = filled(10, &[("key", "1"), ("Key", "22"), ("key ", "333")]);
    assert_eq!(lru.get("key"), Some(&Bytes::from("1")));
    assert_eq!(lru.get("Key"), Some(&Bytes::from("22")));
    assert_eq!(lru.get("key "), Some(&Bytes::from("333")));
    assert_eq!(lru.get("ke"), None);
    assert_eq!(lru.current_size(), 6);
}
