use sw_logger::retention::{preset_label, preset_len, PRESET_COUNT, SAMPLES_PER_SECOND};
use sw_logger::selection::toggle;
use sw_logger::values::Values;

#[test]
fn presets_are_the_six_spans_in_samples() {
    assert_eq!(PRESET_COUNT, 6);
    assert_eq!(SAMPLES_PER_SECOND, 60);
    let lens: Vec<Option<usize>> = (0..7).map(preset_len).collect();
    assert_eq!(
        lens,
        vec![Some(600), Some(3600), Some(18000), Some(36000), Some(54000), Some(108000), None]
    );
    let labels: Vec<Option<&str>> = (0..7).map(preset_label).collect();
    assert_eq!(
        labels,
        vec![Some("10sec"), Some("1min"), Some("5min"), Some("10min"), Some("15min"), Some("30min"), None]
    );
}

#[test]
fn a_preset_applies_to_every_key_at_once() {
    let mut store: Values<u32> = Values::with_capacity(10_000);
    let many: Vec<u32> = (0..1000).collect();
    store.push("a".to_string(), &many);
    store.push("b".to_string(), &many[..10]);
    store.set_max_len(preset_len(0).unwrap());
    assert_eq!(store.max_len(), 600);
    assert_eq!(store.recent("a", usize::MAX), Some((400..1000).collect::<Vec<u32>>()));
    assert_eq!(store.recent("b", usize::MAX), Some((0..10).collect::<Vec<u32>>()));
}

#[test]
fn toggling_chooses_and_drops_keys() {
    let mut keys = vec!["a".to_string()];
    assert!(toggle(&mut keys, "b"));
    assert!(toggle(&mut keys, "c"));
    assert_eq!(keys, vec!["a".to_string(), "b".to_string(), "c".to_string()]);
    assert!(!toggle(&mut keys, "b"));
    assert_eq!(keys, vec!["a".to_string(), "c".to_string()]);
    assert!(!toggle(&mut keys, "a"));
    assert!(!toggle(&mut keys, "c"));
    assert!(keys.is_empty());
    assert!(toggle(&mut keys, "c"));
    assert_eq!(keys, vec!["c".to_string()]);
}

#[test]
fn toggling_a_key_held_twice_drops_its_first_occurrence() {
    let mut keys = vec!["x".to_string(), "y".to_string(), "x".to_string()];
    assert!(!toggle(&mut keys, "x"));
    assert_eq!(keys, vec!["y".to_string(), "x".to_string()]);
}
