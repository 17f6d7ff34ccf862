use sw_logger::batch::Batch;
use sw_logger::connection::{step, Action, ConnectionState, Event, Mirror, Role};

const EVENTS: [Event; 7] = [
    Event::Connect,
    Event::Disconnect,
    Event::DialFailed,
    Event::Opened,
    Event::Message,
    Event::Error,
    Event::Closed,
];

#[test]
fn viewer_goes_from_disconnected_to_streaming_and_back() {
    let (state, action) = step(ConnectionState::Disconnected, Event::Connect, Role::Viewer);
    assert_eq!((state, action), (ConnectionState::Connecting, Action::Dial));
    let (state, action) = step(state, Event::Opened, Role::Viewer);
    assert_eq!((state, action), (ConnectionState::Streaming, Action::Nothing));
    let (state, action) = step(state, Event::Message, Role::Viewer);
    assert_eq!((state, action), (ConnectionState::Streaming, Action::Deliver));
    let (state, action) = step(state, Event::Disconnect, Role::Viewer);
    assert_eq!((state, action), (ConnectionState::Disconnected, Action::HangUp));
}

#[test]
fn viewer_redials_when_the_stream_breaks() {
    for event in [Event::Closed, Event::Error] {
        assert_eq!(
            step(ConnectionState::Streaming, event, Role::Viewer),
            (ConnectionState::Connecting, Action::Dial)
        );
    }
    assert_eq!(
        step(ConnectionState::Connecting, Event::Closed, Role::Viewer),
        (ConnectionState::Connecting, Action::Dial)
    );
    assert_eq!(
        step(ConnectionState::Connecting, Event::Error, Role::Viewer),
        (ConnectionState::Connecting, Action::Nothing)
    );
    assert_eq!(
        step(ConnectionState::Connecting, Event::DialFailed, Role::Viewer),
        (ConnectionState::Disconnected, Action::Nothing)
    );
}

#[test]
fn disconnected_ignores_all_but_connect() {
    for role in [Role::Viewer, Role::Subscription] {
        for event in EVENTS {
            let (state, action) = step(ConnectionState::Disconnected, event, role);
            if event == Event::Connect {
                assert_eq!(state, ConnectionState::Connecting);
            } else {
                assert_eq!((state, action), (ConnectionState::Disconnected, Action::Nothing));
            }
        }
    }
}

#[test]
fn subscription_never_dials_and_ends_with_its_transport() {
    for state in [ConnectionState::Disconnected, ConnectionState::Connecting, ConnectionState::Streaming] {
        for event in EVENTS {
            let (_, action) = step(state, event, Role::Subscription);
            assert_ne!(action, Action::Dial);
            assert_ne!(action, Action::Deliver);
        }
    }
    for state in [ConnectionState::Connecting, ConnectionState::Streaming] {
        for event in [Event::Closed, Event::Error] {
            assert_eq!(
                step(state, event, Role::Subscription),
                (ConnectionState::Disconnected, Action::HangUp)
            );
        }
    }
    assert_eq!(
        step(ConnectionState::Disconnected, Event::Connect, Role::Subscription),
        (ConnectionState::Connecting, Action::Nothing)
    );
}

#[test]
fn mirror_is_filled_by_the_stream_and_keeps_its_data_when_down() {
    let mut mirror: Mirror<f32> = Mirror::new();
    assert_eq!(mirror.state(), ConnectionState::Disconnected);
    let mut frame: Batch<f32> = Batch::new();
    frame.extend("temp".to_string(), &[21.5, 22.0]);

    assert_eq!(mirror.handle(Event::Message, Some(&frame)), Action::Nothing);
    assert!(!mirror.values().contains_key("temp"));

    assert_eq!(mirror.handle(Event::Connect, None), Action::Dial);
    assert_eq!(mirror.handle(Event::Opened, None), Action::Nothing);
    assert_eq!(mirror.handle(Event::Message, Some(&frame)), Action::Deliver);
    assert_eq!(mirror.values().get_last_value_for_key("temp"), Some(22.0));
    assert_eq!(mirror.handle(Event::Message, None), Action::Deliver);
    assert_eq!(mirror.values().recent("temp", 10), Some(vec![21.5, 22.0]));

    assert_eq!(mirror.handle(Event::Closed, None), Action::Dial);
    assert_eq!(mirror.state(), ConnectionState::Connecting);
    assert_eq!(mirror.handle(Event::DialFailed, None), Action::Nothing);
    assert_eq!(mirror.state(), ConnectionState::Disconnected);
    assert_eq!(mirror.values().recent("temp", 10), Some(vec![21.5, 22.0]));
}

#[test]
fn mirror_capacity_and_reset_follow_the_store_rules() {
    let mut mirror: Mirror<u32> = Mirror::new();
    assert_eq!(mirror.values().max_len(), 3600);
    let mut frame: Batch<u32> = Batch::new();
    frame.extend("k".to_string(), &[1, 2, 3, 4, 5]);
    mirror.handle(Event::Connect, None);
    mirror.handle(Event::Message, Some(&frame));
    mirror.set_max_len(2);
    assert_eq!(mirror.values().recent("k", 10), Some(vec![4, 5]));
    assert_eq!(mirror.state(), ConnectionState::Streaming);
    mirror.reset();
    assert!(mirror.values().keys().is_empty());
    assert_eq!(mirror.values().max_len(), 2);
    assert_eq!(mirror.state(), ConnectionState::Streaming);
}
