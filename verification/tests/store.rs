use sw_logger::batch::Batch;
use sw_logger::values::{Values, DEFAULT_MAX_LEN};

fn series(store: &Values<f32>, key: &str) -> Option<Vec<f32>> {
    store.values_for_key(key).map(|samples| samples.iter().copied().collect())
}

#[test]
fn push_keeps_the_last_capacity_values() {
    let mut store: Values<f32> = Values::with_capacity(3);
    store.push("a".to_string(), &[1.0, 2.0]);
    assert_eq!(series(&store, "a"), Some(vec![1.0, 2.0]));
    store.push("a".to_string(), &[3.0, 4.0]);
    assert_eq!(series(&store, "a"), Some(vec![2.0, 3.0, 4.0]));
    store.push("a".to_string(), &[5.0]);
    assert_eq!(series(&store, "a"), Some(vec![3.0, 4.0, 5.0]));
}

#[test]
fn series_never_exceeds_capacity_after_any_push() {
    let mut store: Values<u32> = Values::with_capacity(4);
    let mut pushed: Vec<u32> = Vec::new();
    for round in 0..20u32 {
        let burst: Vec<u32> = (0..round % 7).map(|i| round * 10 + i).collect();
        pushed.extend(burst.iter().copied());
        store.push("k".to_string(), &burst);
        let kept: Vec<u32> = store.values_for_key("k").unwrap().iter().copied().collect();
        assert!(kept.len() <= 4);
        let start = pushed.len().saturating_sub(4);
        assert_eq!(kept, pushed[start..].to_vec());
    }
}

#[test]
fn one_push_larger_than_capacity_keeps_its_tail() {
    let mut store: Values<f32> = Values::with_capacity(2);
    store.push("a".to_string(), &[9.0]);
    store.push("a".to_string(), &[1.0, 2.0, 3.0, 4.0, 5.0]);
    assert_eq!(series(&store, "a"), Some(vec![4.0, 5.0]));
}

#[test]
fn capacity_zero_keeps_keys_and_no_samples() {
    let mut store: Values<f32> = Values::with_capacity(0);
    store.push("a".to_string(), &[1.0, 2.0]);
    assert!(store.contains_key("a"));
    assert_eq!(series(&store, "a"), Some(vec![]));
    assert_eq!(store.get_last_value_for_key("a"), None);
}

#[test]
fn empty_push_creates_the_key() {
    let mut store: Values<f32> = Values::with_capacity(5);
    store.push("a".to_string(), &[]);
    assert!(store.contains_key("a"));
    assert_eq!(store.get_last_value_for_key("a"), None);
    assert_eq!(store.keys(), vec!["a".to_string()]);
}

#[test]
fn keys_are_separate_and_keep_first_push_order() {
    let mut store: Values<f32> = Values::with_capacity(5);
    store.push("b".to_string(), &[1.0]);
    store.push("a".to_string(), &[2.0]);
    store.push("b".to_string(), &[3.0]);
    store.push("ab".to_string(), &[4.0]);
    assert_eq!(store.keys(), vec!["b".to_string(), "a".to_string(), "ab".to_string()]);
    assert_eq!(series(&store, "b"), Some(vec![1.0, 3.0]));
    assert_eq!(series(&store, "a"), Some(vec![2.0]));
    assert_eq!(series(&store, "ab"), Some(vec![4.0]));
    assert_eq!(series(&store, "c"), None);
    assert!(store.contains_key("a"));
    assert!(!store.contains_key("c"));
    assert!(!store.contains_key(""));
}

#[test]
fn default_store_has_the_default_capacity() {
    let store: Values<f32> = Values::default();
    assert_eq!(store.max_len(), 3600);
    assert_eq!(DEFAULT_MAX_LEN, 3600);
    assert!(store.keys().is_empty());
}

#[test]
fn last_value_is_the_most_recent_push() {
    let mut store: Values<f32> = Values::with_capacity(10);
    assert_eq!(store.get_last_value_for_key("temp"), None);
    store.push("temp".to_string(), &[20.0, 21.5]);
    assert_eq!(store.get_last_value_for_key("temp"), Some(21.5));
    store.push("temp".to_string(), &[19.0]);
    assert_eq!(store.get_last_value_for_key("temp"), Some(19.0));
}

#[test]
fn shrinking_keeps_the_most_recent_values() {
    let mut store: Values<u32> = Values::with_capacity(5);
    store.push("long".to_string(), &[1, 2, 3, 4, 5, 6, 7]);
    store.push("short".to_string(), &[8, 9]);
    store.set_max_len(3);
    assert_eq!(store.max_len(), 3);
    let long: Vec<u32> = store.values_for_key("long").unwrap().iter().copied().collect();
    let short: Vec<u32> = store.values_for_key("short").unwrap().iter().copied().collect();
    assert_eq!(long, vec![5, 6, 7]);
    assert_eq!(short, vec![8, 9]);
    store.push("short".to_string(), &[10, 11]);
    let short: Vec<u32> = store.values_for_key("short").unwrap().iter().copied().collect();
    assert_eq!(short, vec![9, 10, 11]);
}

#[test]
fn growing_discards_nothing_and_applies_to_later_pushes() {
    let mut store: Values<u32> = Values::with_capacity(2);
    store.push("a".to_string(), &[1, 2, 3]);
    store.set_max_len(4);
    let kept: Vec<u32> = store.values_for_key("a").unwrap().iter().copied().collect();
    assert_eq!(kept, vec![2, 3]);
    store.push("a".to_string(), &[4, 5, 6]);
    let kept: Vec<u32> = store.values_for_key("a").unwrap().iter().copied().collect();
    assert_eq!(kept, vec![3, 4, 5, 6]);
    store.push("new".to_string(), &[1, 2, 3, 4, 5]);
    let fresh: Vec<u32> = store.values_for_key("new").unwrap().iter().copied().collect();
    assert_eq!(fresh, vec![2, 3, 4, 5]);
}

#[test]
fn reset_discards_keys_and_keeps_capacity() {
    let mut store: Values<f32> = Values::with_capacity(7);
    store.push("a".to_string(), &[1.0]);
    store.push("b".to_string(), &[2.0]);
    store.reset();
    assert_eq!(store.max_len(), 7);
    assert!(store.keys().is_empty());
    assert!(!store.contains_key("a"));
    assert_eq!(store.get_last_value_for_key("b"), None);
    store.push("b".to_string(), &[3.0]);
    assert_eq!(series(&store, "b"), Some(vec![3.0]));
}

#[test]
fn iteration_knows_its_length_and_walks_both_ways() {
    let mut store: Values<u32> = Values::with_capacity(3);
    store.push("a".to_string(), &[1, 2, 3, 4]);
    let forward = store.iter_for_key("a").unwrap();
    assert_eq!(forward.len(), 3);
    assert_eq!(forward.copied().collect::<Vec<u32>>(), vec![2, 3, 4]);
    let backward = store.iter_for_key("a").unwrap().rev();
    assert_eq!(backward.copied().collect::<Vec<u32>>(), vec![4, 3, 2]);
    assert!(store.iter_for_key("b").is_none());
}

#[test]
fn batch_is_applied_key_by_key() {
    let mut store: Values<u32> = Values::with_capacity(3);
    store.push("a".to_string(), &[1, 2]);
    store.push("c".to_string(), &[7]);
    let mut batch: Batch<u32> = Batch::new();
    batch.extend("b".to_string(), &[10]);
    batch.extend("a".to_string(), &[3, 4]);
    batch.add("b".to_string(), 11);
    store.push_batch(&batch);
    assert_eq!(store.keys(), vec!["a".to_string(), "c".to_string(), "b".to_string()]);
    let a: Vec<u32> = store.values_for_key("a").unwrap().iter().copied().collect();
    let b: Vec<u32> = store.values_for_key("b").unwrap().iter().copied().collect();
    let c: Vec<u32> = store.values_for_key("c").unwrap().iter().copied().collect();
    assert_eq!(a, vec![2, 3, 4]);
    assert_eq!(b, vec![10, 11]);
    assert_eq!(c, vec![7]);
}

#[test]
fn snapshot_is_a_copy_of_every_series() {
    let mut store: Values<f32> = Values::with_capacity(2);
    store.push("x".to_string(), &[1.0, 2.0, 3.0]);
    store.push("y".to_string(), &[]);
    let snapshot = store.snapshot();
    store.push("x".to_string(), &[4.0]);
    assert_eq!(
        snapshot.entries(),
        vec![("x".to_string(), vec![2.0, 3.0]), ("y".to_string(), vec![])]
    );
}

#[test]
fn snapshot_replayed_into_an_unbounded_store_reproduces_it() {
    let mut store: Values<u32> = Values::with_capacity(3);
    store.push("a".to_string(), &[1, 2, 3, 4, 5]);
    store.push("b".to_string(), &[6]);
    store.push("c".to_string(), &[]);
    let snapshot = store.snapshot();
    let mut fresh: Values<u32> = Values::with_capacity(usize::MAX);
    fresh.push_batch(&snapshot);
    assert_eq!(fresh.keys(), store.keys());
    for key in store.keys() {
        let kept: Vec<u32> = store.values_for_key(&key).unwrap().iter().copied().collect();
        let replayed: Vec<u32> = fresh.values_for_key(&key).unwrap().iter().copied().collect();
        assert_eq!(kept, replayed);
    }
    assert_eq!(fresh.snapshot().entries(), snapshot.entries());
}
