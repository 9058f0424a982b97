use valpago::notifier::{create_notifier, Notifier, NOTIFIER_CAPACITY};

#[test]
fn late_subscriber_sees_nothing_earlier() {
    let mut n = create_notifier();
    for _ in 0..5 {
        n.broadcast("x");
    }
    let s = n.subscribe().unwrap();
    assert_eq!(n.pending(s), 0);
    assert_eq!(n.recv(s), None);
}

#[test]
fn early_subscriber_gets_all_in_order() {
    let mut n = create_notifier();
    let s = n.subscribe().unwrap();
    for t in ["m1", "m2", "m3"] {
        n.broadcast(t);
    }
    assert_eq!(n.recv(s), Some("m1".to_string()));
    assert_eq!(n.recv(s), Some("m2".to_string()));
    assert_eq!(n.recv(s), Some("m3".to_string()));
    assert_eq!(n.recv(s), None);
}

#[test]
fn slow_subscriber_does_not_hold_back_fast() {
    let mut n = Notifier::new(2);
    let slow = n.subscribe().unwrap();
    let fast = n.subscribe().unwrap();
    for i in 0..6 {
        let t = format!("p{}", i);
        n.broadcast(&t);
        assert_eq!(n.recv(fast), Some(t));
    }
    assert_eq!(n.pending(slow), 2);
    assert_eq!(n.recv(slow), Some("p4".to_string()));
    assert_eq!(n.recv(slow), Some("p5".to_string()));
    n.broadcast("p6");
    assert_eq!(n.recv(slow), Some("p6".to_string()));
}

#[test]
fn full_buffer_drops_oldest_payload() {
    let mut n = Notifier::new(1);
    let s = n.subscribe().unwrap();
    n.broadcast("a");
    n.broadcast("b");
    assert_eq!(n.pending(s), 1);
    assert_eq!(n.recv(s), Some("b".to_string()));
}

#[test]
fn zero_capacity_keeps_nothing() {
    let mut n = Notifier::new(0);
    let s = n.subscribe().unwrap();
    n.broadcast("a");
    assert_eq!(n.recv(s), None);
}

#[test]
fn unsubscribe_removes_subscription() {
    let mut n = create_notifier();
    let a = n.subscribe().unwrap();
    let b = n.subscribe().unwrap();
    assert_ne!(a, b);
    assert_eq!(n.subscriber_count(), 2);
    assert!(n.unsubscribe(a));
    assert!(!n.unsubscribe(a));
    n.broadcast("z");
    assert_eq!(n.recv(a), None);
    assert_eq!(n.recv(b), Some("z".to_string()));
    assert_eq!(n.subscriber_count(), 1);
}

#[test]
fn shared_notifier_capacity() {
    assert_eq!(NOTIFIER_CAPACITY, 1024);
    let mut n = create_notifier();
    let s = n.subscribe().unwrap();
    for i in 0..1030 {
        n.broadcast(&format!("q{}", i));
    }
    assert_eq!(n.pending(s), 1024);
    assert_eq!(n.recv(s), Some("q6".to_string()));
}
