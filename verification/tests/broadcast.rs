use sw_logger::broadcast::{Broadcaster, DEFAULT_QUEUE_LEN};

fn drain(hub: &mut Broadcaster, id: u64) -> Vec<String> {
    let mut taken = Vec::new();
    while let Some(message) = hub.try_recv(id) {
        taken.push(message);
    }
    taken
}

#[test]
fn every_subscriber_observes_every_message_in_order() {
    let mut hub = Broadcaster::new(DEFAULT_QUEUE_LEN);
    let ids: Vec<u64> = (0..5).map(|_| hub.subscribe().unwrap()).collect();
    assert_eq!(ids, vec![0, 1, 2, 3, 4]);
    let messages: Vec<String> = (0..40).map(|i| format!("m{}", i)).collect();
    for message in &messages {
        assert_eq!(hub.publish(message), 5);
    }
    for id in ids {
        assert_eq!(hub.pending(id), Some(40));
        assert_eq!(drain(&mut hub, id), messages);
        assert_eq!(hub.pending(id), Some(0));
    }
}

#[test]
fn a_full_queue_loses_its_oldest_and_only_its_own() {
    let mut hub = Broadcaster::new(3);
    let slow = hub.subscribe().unwrap();
    let quick = hub.subscribe().unwrap();
    let mut seen_by_quick = Vec::new();
    for i in 0..10 {
        hub.publish(&format!("m{}", i));
        seen_by_quick.extend(drain(&mut hub, quick));
        assert!(hub.pending(slow).unwrap() <= 3);
    }
    let all: Vec<String> = (0..10).map(|i| format!("m{}", i)).collect();
    assert_eq!(seen_by_quick, all);
    assert_eq!(drain(&mut hub, slow), vec!["m7".to_string(), "m8".to_string(), "m9".to_string()]);
}

#[test]
fn late_subscriber_gets_no_backlog() {
    let mut hub = Broadcaster::new(10);
    let early = hub.subscribe().unwrap();
    hub.publish("before");
    let late = hub.subscribe().unwrap();
    assert_eq!(hub.pending(late), Some(0));
    hub.publish("after");
    assert_eq!(drain(&mut hub, early), vec!["before".to_string(), "after".to_string()]);
    assert_eq!(drain(&mut hub, late), vec!["after".to_string()]);
}

#[test]
fn unsubscribing_affects_only_that_subscriber() {
    let mut hub = Broadcaster::new(10);
    let a = hub.subscribe().unwrap();
    let b = hub.subscribe().unwrap();
    let c = hub.subscribe().unwrap();
    hub.publish("one");
    assert!(hub.unsubscribe(b));
    assert!(!hub.unsubscribe(b));
    assert!(!hub.is_subscribed(b));
    assert!(hub.is_subscribed(a) && hub.is_subscribed(c));
    assert_eq!(hub.subscriber_count(), 2);
    assert_eq!(hub.publish("two"), 2);
    assert_eq!(hub.try_recv(b), None);
    assert_eq!(hub.pending(b), None);
    assert_eq!(drain(&mut hub, a), vec!["one".to_string(), "two".to_string()]);
    assert_eq!(drain(&mut hub, c), vec!["one".to_string(), "two".to_string()]);
    let d = hub.subscribe().unwrap();
    assert_eq!(d, 3);
}

#[test]
fn publishing_to_nobody_reaches_nobody() {
    let mut hub = Broadcaster::new(10);
    assert_eq!(hub.publish("lost"), 0);
    assert_eq!(hub.queue_len(), 10);
    let id = hub.subscribe().unwrap();
    assert_eq!(hub.try_recv(id), None);
    assert_eq!(hub.try_recv(99), None);
}

#[test]
fn queue_of_length_zero_holds_nothing() {
    let mut hub = Broadcaster::new(0);
    let id = hub.subscribe().unwrap();
    assert_eq!(hub.publish("gone"), 1);
    assert_eq!(hub.pending(id), Some(0));
    assert_eq!(hub.try_recv(id), None);
}
