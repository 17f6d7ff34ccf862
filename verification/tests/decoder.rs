use base64::prelude::{Engine, BASE64_URL_SAFE_NO_PAD};
use sw_logger::batch::Batch;
use sw_logger::decode::{decode_base64, decode_binary, decode_structured, decode_text, DecodeFailure};
use std::collections::HashMap;

fn parsed(pairs: &[(&str, &str)]) -> Vec<(String, Option<f32>)> {
    pairs.iter().map(|(key, literal)| (key.to_string(), literal.parse::<f32>().ok())).collect()
}

fn read_map(bytes: Vec<u8>) -> Result<Vec<(String, Vec<f32>)>, rmp_serde::decode::Error> {
    let map = rmp_serde::from_slice::<HashMap<String, Vec<f32>>>(&bytes)?;
    let mut entries: Vec<(String, Vec<f32>)> = map.into_iter().collect();
    entries.sort_by(|a, b| a.0.cmp(&b.0));
    Ok(entries)
}

fn encode(map: &HashMap<String, Vec<f32>>) -> String {
    BASE64_URL_SAFE_NO_PAD.encode(rmp_serde::to_vec(map).unwrap())
}

#[test]
fn text_accumulates_repeated_keys_in_order() {
    let batch = decode_text(&parsed(&[("a", "1"), ("b", "2.5"), ("a", "-3"), ("a", "4e1")])).unwrap();
    assert_eq!(
        batch.entries(),
        vec![("a".to_string(), vec![1.0, -3.0, 40.0]), ("b".to_string(), vec![2.5])]
    );
    assert_eq!(batch.len(), 2);
    assert_eq!(batch.key(1), Some(&"b".to_string()));
    assert_eq!(batch.key(2), None);
    assert_eq!(batch.values(0), Some(&vec![1.0, -3.0, 40.0]));
    assert_eq!(batch.values(2), None);
    assert_eq!(batch.get("b"), Some(&vec![2.5]));
    assert_eq!(batch.get("c"), None);
}

#[test]
fn text_with_a_bad_literal_is_rejected_whole() {
    let outcome = decode_text(&parsed(&[("a", "1"), ("b", "x"), ("c", "3"), ("d", "")]));
    assert!(matches!(outcome, Err(DecodeFailure::Literal { index: 1 })));
}

#[test]
fn empty_text_request_is_an_empty_batch() {
    let batch = decode_text(&parsed(&[])).unwrap();
    assert!(batch.is_empty());
    assert_eq!(batch.entries(), Vec::<(String, Vec<f32>)>::new());
}

#[test]
fn base64_uses_the_url_safe_alphabet_without_padding() {
    assert_eq!(decode_base64("aGk").unwrap(), b"hi".to_vec());
    assert_eq!(decode_base64("").unwrap(), Vec::<u8>::new());
    assert_eq!(decode_base64("-_8").unwrap(), vec![0xfb, 0xff]);
    assert!(matches!(decode_base64("+/8"), Err(DecodeFailure::Base64(_))));
    assert!(matches!(decode_base64("aGk="), Err(DecodeFailure::Base64(_))));
    assert!(matches!(decode_base64("a"), Err(DecodeFailure::Base64(_))));
    assert!(matches!(decode_base64("aG k"), Err(DecodeFailure::Base64(_))));
}

#[test]
fn structured_entries_with_one_key_twice_accumulate() {
    let batch = decode_structured(Ok(vec![
        ("x".to_string(), vec![1.0f32]),
        ("y".to_string(), vec![]),
        ("x".to_string(), vec![2.0, 3.0]),
    ]))
    .unwrap();
    assert_eq!(
        batch.entries(),
        vec![("x".to_string(), vec![1.0, 2.0, 3.0]), ("y".to_string(), vec![])]
    );
    let same = Batch::from_entries(&batch.entries());
    assert_eq!(same.entries(), batch.entries());
}

#[test]
fn binary_payload_decodes_to_its_map() {
    let mut map: HashMap<String, Vec<f32>> = HashMap::new();
    map.insert("x".to_string(), vec![1.0, 2.0]);
    map.insert("y".to_string(), vec![-0.5]);
    let batch = decode_binary(&encode(&map), read_map).unwrap();
    assert_eq!(
        batch.entries(),
        vec![("x".to_string(), vec![1.0, 2.0]), ("y".to_string(), vec![-0.5])]
    );
}

#[test]
fn binary_payload_that_is_not_base64_is_rejected_unread() {
    let mut reads = 0;
    let outcome = decode_binary("not base64!", |bytes| {
        reads += 1;
        read_map(bytes)
    });
    assert!(matches!(outcome, Err(DecodeFailure::Base64(_))));
    assert_eq!(reads, 0);
}

#[test]
fn binary_payload_that_is_no_map_is_rejected() {
    let payload = BASE64_URL_SAFE_NO_PAD.encode(rmp_serde::to_vec(&vec![1u8, 2, 3]).unwrap());
    let outcome = decode_binary(&payload, read_map);
    assert!(matches!(outcome, Err(DecodeFailure::Payload(_))));
    let truncated = decode_binary("gQ", read_map);
    assert!(matches!(truncated, Err(DecodeFailure::Payload(_))));
}
