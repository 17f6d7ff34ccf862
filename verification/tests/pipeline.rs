use base64::prelude::{Engine, BASE64_URL_SAFE_NO_PAD};
use sw_logger::decode::{decode_binary, decode_text, DecodeFailure};
use sw_logger::state::AppState;
use std::collections::HashMap;

fn frame_of(entries: &[(String, Vec<f32>)]) -> String {
    let map: HashMap<String, Vec<f32>> = entries.iter().cloned().collect();
    serde_json::to_string(&map).unwrap()
}

fn read_map(bytes: Vec<u8>) -> Result<Vec<(String, Vec<f32>)>, rmp_serde::decode::Error> {
    let map = rmp_serde::from_slice::<HashMap<String, Vec<f32>>>(&bytes)?;
    Ok(map.into_iter().collect())
}

#[test]
fn text_ingestion_reaches_store_subscriber_and_snapshot() {
    let mut state: AppState<f32> = AppState::new();
    let subscriber = state.subscribe().unwrap();

    let pairs = vec![("temp".to_string(), "21.5".parse::<f32>().ok())];
    let batch = decode_text(&pairs).unwrap();
    let frame = frame_of(&batch.entries());
    assert_eq!(state.accept(&batch, &frame), 1);

    assert_eq!(state.values().get_last_value_for_key("temp"), Some(21.5));

    let message = state.try_recv(subscriber).unwrap();
    let decoded: HashMap<String, Vec<f32>> = serde_json::from_str(&message).unwrap();
    let mut expected: HashMap<String, Vec<f32>> = HashMap::new();
    expected.insert("temp".to_string(), vec![21.5]);
    assert_eq!(decoded, expected);
    assert_eq!(state.try_recv(subscriber), None);

    assert_eq!(state.snapshot().entries(), vec![("temp".to_string(), vec![21.5])]);
}

#[test]
fn binary_ingestion_stores_the_values_in_order() {
    let mut map: HashMap<String, Vec<f32>> = HashMap::new();
    map.insert("x".to_string(), vec![1.0, 2.0]);
    let payload = BASE64_URL_SAFE_NO_PAD.encode(rmp_serde::to_vec(&map).unwrap());

    let mut state: AppState<f32> = AppState::new();
    let batch = decode_binary(&payload, read_map).unwrap();
    state.accept(&batch, &frame_of(&batch.entries()));
    let x: Vec<f32> = state.values().values_for_key("x").unwrap().iter().copied().collect();
    assert_eq!(x, vec![1.0, 2.0]);
}

#[test]
fn rejected_request_leaves_store_and_subscribers_untouched() {
    let mut state: AppState<f32> = AppState::new();
    let subscriber = state.subscribe().unwrap();
    let pairs = vec![("a".to_string(), Some(1.0f32)), ("b".to_string(), None)];
    match decode_text(&pairs) {
        Ok(batch) => {
            state.accept(&batch, "unexpected");
        }
        Err(failure) => assert!(matches!(failure, DecodeFailure::Literal { index: 1 })),
    }
    assert!(state.values().keys().is_empty());
    assert_eq!(state.broadcaster().pending(subscriber), Some(0));
    assert!(state.snapshot().is_empty());
}

#[test]
fn new_state_has_the_default_bounds() {
    let state: AppState<f32> = AppState::new();
    assert_eq!(state.values().max_len(), 3600);
    assert_eq!(state.broadcaster().queue_len(), 100);
    assert_eq!(state.broadcaster().subscriber_count(), 0);
}

#[test]
fn each_batch_is_one_message_and_a_closed_subscription_ends_alone() {
    let mut state: AppState<f32> = AppState::new();
    let first = state.subscribe().unwrap();
    let second = state.subscribe().unwrap();
    for round in 0..3 {
        let pairs = vec![
            ("a".to_string(), Some(round as f32)),
            ("b".to_string(), Some(10.0)),
            ("a".to_string(), Some(0.5)),
        ];
        let batch = decode_text(&pairs).unwrap();
        state.accept(&batch, &format!("frame {}", round));
    }
    assert!(state.unsubscribe(first));
    assert_eq!(state.try_recv(first), None);
    assert_eq!(state.try_recv(second), Some("frame 0".to_string()));
    assert_eq!(state.try_recv(second), Some("frame 1".to_string()));
    assert_eq!(state.try_recv(second), Some("frame 2".to_string()));
    assert_eq!(state.try_recv(second), None);
    assert_eq!(state.values().recent("a", 10), Some(vec![0.0, 0.5, 1.0, 0.5, 2.0, 0.5]));
}
