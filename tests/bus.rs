use websocket_proxy::bus::{Bus, RecvEvent};

fn msg(s: &str) -> RecvEvent {
    RecvEvent::Message(s.to_string())
}

#[test]
fn fan_out_in_order() {
    let mut bus = Bus::new(20);
    let c1 = bus.subscribe();
    let c2 = bus.subscribe();
    for m in ["m1", "m2", "m3"] {
        bus.publish(&m.to_string());
    }
    for c in [c2, c1] {
        assert_eq!(bus.recv(c), msg("m1"));
        assert_eq!(bus.recv(c), msg("m2"));
        assert_eq!(bus.recv(c), msg("m3"));
        assert_eq!(bus.recv(c), RecvEvent::Empty);
    }
}

#[test]
fn late_reader_sees_only_later_messages() {
    let mut bus = Bus::new(4);
    bus.publish(&"early".to_string());
    let c = bus.subscribe();
    bus.publish(&"late".to_string());
    assert_eq!(bus.recv(c), msg("late"));
    assert_eq!(bus.recv(c), RecvEvent::Empty);
}

#[test]
fn slow_consumer_lags() {
    let mut bus = Bus::new(4);
    let slow = bus.subscribe();
    let fast = bus.subscribe();
    let mut got = Vec::new();
    for i in 0..10 {
        bus.publish(&format!("m{}", i));
        match bus.recv(fast) {
            RecvEvent::Message(m) => got.push(m),
            other => panic!("unexpected {:?}", other),
        }
    }
    let expected: Vec<String> = (0..10).map(|i| format!("m{}", i)).collect();
    assert_eq!(got, expected);
    assert_eq!(bus.recv(slow), RecvEvent::Lagged(6));
    assert_eq!(bus.recv(slow), msg("m6"));
}

#[test]
fn reader_count_and_unsubscribe() {
    let mut bus = Bus::new(2);
    let a = bus.subscribe();
    let _b = bus.subscribe();
    assert_eq!(bus.reader_count(), 2);
    bus.unsubscribe(a);
    assert_eq!(bus.reader_count(), 1);
    bus.publish(&"x".to_string());
    assert_eq!(bus.recv(a), RecvEvent::Closed);
}
