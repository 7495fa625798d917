use deskremote::codec::Packet;
use deskremote::hub::Hub;
use deskremote::hub::Received;

fn must_receive_bytes(hub: &mut Hub, h: deskremote::hub::SubscriberHandle) -> Vec<u8> {
    match hub.receive(h) {
        Received::Bytes(b) => b,
        other => panic!("expected bytes, got {:?}", other),
    }
}

#[test]
fn order_preserved_without_lag() {
    // A subscriber that never lags receives the published packets,
    // decoded, in publish order.
    let mut hub = Hub::new(128);
    let h = hub.register();
    let published: Vec<Packet> = (0..100).map(|i| Packet::KeyDown { code: i as u8 }).collect();
    for p in &published {
        hub.publish(&p.to_bytes());
    }
    for p in &published {
        let bytes = must_receive_bytes(&mut hub, h);
        assert_eq!(Packet::from_bytes(&bytes), Ok(*p));
    }
    assert!(matches!(hub.receive(h), Received::Empty));
}

#[test]
fn lag_accounting_drop_oldest() {
    // Capacity 128, 200 packets published to a subscriber that never
    // receives: the next receive reports at least 200 - 128 = 72 dropped,
    // and the queue resumes at the oldest surviving packet.
    let mut hub = Hub::new(128);
    let h = hub.register();
    for i in 0..200u32 {
        hub.publish(&Packet::KeyDown { code: (i % 256) as u8 }.to_bytes());
    }
    match hub.receive(h) {
        Received::Lagged(n) => assert!(n >= 72),
        other => panic!("expected a lag report, got {:?}", other),
    }
    // Drop-oldest: the first surviving packet is number 72, and order is
    // kept from there on.
    for i in 72..200u32 {
        let bytes = must_receive_bytes(&mut hub, h);
        assert_eq!(Packet::from_bytes(&bytes), Ok(Packet::KeyDown { code: (i % 256) as u8 }));
    }
    assert!(matches!(hub.receive(h), Received::Empty));
}

#[test]
fn lag_counter_resets_after_report() {
    let mut hub = Hub::new(1);
    let h = hub.register();
    hub.publish(&vec![1]);
    hub.publish(&vec![2]);
    hub.publish(&vec![3]);
    match hub.receive(h) {
        Received::Lagged(n) => assert_eq!(n, 2),
        other => panic!("expected a lag report, got {:?}", other),
    }
    assert_eq!(must_receive_bytes(&mut hub, h), vec![3]);
    assert!(matches!(hub.receive(h), Received::Empty));
}

#[test]
fn isolation_between_subscribers() {
    // With A, B, C registered, terminating B's subscription must not alter
    // the sequence A and C observe.
    let mut hub = Hub::new(128);
    let a = hub.register();
    let b = hub.register();
    let c = hub.register();
    hub.publish(&vec![10]);
    hub.publish(&vec![11]);
    hub.unregister(b);
    hub.publish(&vec![12]);
    for h in [a, c] {
        assert_eq!(must_receive_bytes(&mut hub, h), vec![10]);
        assert_eq!(must_receive_bytes(&mut hub, h), vec![11]);
        assert_eq!(must_receive_bytes(&mut hub, h), vec![12]);
        assert!(matches!(hub.receive(h), Received::Empty));
    }
    assert!(!hub.is_active(b));
    assert!(hub.is_active(a));
    assert!(hub.is_active(c));
}

#[test]
fn end_to_end_two_subscribers() {
    // Two subscribers, KeyDown{5} then KeyUp{5}: both receive the two
    // packets in that order with no lag.
    let mut hub = Hub::new(128);
    let first = hub.register();
    let second = hub.register();
    hub.publish(&Packet::KeyDown { code: 5 }.to_bytes());
    hub.publish(&Packet::KeyUp { code: 5 }.to_bytes());
    for h in [first, second] {
        let bytes = must_receive_bytes(&mut hub, h);
        assert_eq!(Packet::from_bytes(&bytes), Ok(Packet::KeyDown { code: 5 }));
        let bytes = must_receive_bytes(&mut hub, h);
        assert_eq!(Packet::from_bytes(&bytes), Ok(Packet::KeyUp { code: 5 }));
        assert!(matches!(hub.receive(h), Received::Empty));
    }
}

#[test]
fn no_replay_before_registration() {
    let mut hub = Hub::new(128);
    hub.publish(&vec![1]);
    let h = hub.register();
    assert!(matches!(hub.receive(h), Received::Empty));
}

#[test]
fn publish_with_no_subscribers_never_fails() {
    let mut hub = Hub::new(128);
    hub.publish(&vec![1, 2, 3]);
    assert_eq!(hub.subscriber_count(), 0);
}

#[test]
fn close_is_terminal_for_all_subscribers() {
    let mut hub = Hub::new(128);
    let a = hub.register();
    let b = hub.register();
    hub.publish(&vec![1]);
    hub.close();
    assert!(hub.is_closed());
    assert!(matches!(hub.receive(a), Received::Closed));
    assert!(matches!(hub.receive(b), Received::Closed));
    assert!(matches!(hub.receive(a), Received::Closed));
}

#[test]
fn capacity_is_kept() {
    let hub = Hub::new(128);
    assert_eq!(hub.capacity(), 128);
    assert!(!hub.is_closed());
}
