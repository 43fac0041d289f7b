use screen_io::connection::{next_state, ConnEvent, ConnState};
use screen_io::registry::{ClientRegistry, Delivery, Pull, OUTBOX_CAPACITY};

fn id(s: &str) -> String {
    s.to_string()
}

fn pull_frame(r: &mut ClientRegistry, who: &str) -> Option<Vec<u8>> {
    match r.pull(&id(who)) {
        Pull::Frame(f) => Some(f),
        _ => None,
    }
}

#[test]
fn register_and_snapshot() {
    let mut r = ClientRegistry::new();
    assert_eq!(r.len(), 0);
    r.register(id("10.0.0.1:5000"));
    r.register(id("10.0.0.2:5000"));
    assert_eq!(r.snapshot(), vec![id("10.0.0.1:5000"), id("10.0.0.2:5000")]);
    assert!(r.contains(&id("10.0.0.2:5000")));
    assert!(!r.contains(&id("10.0.0.3:5000")));
}

#[test]
fn duplicate_registration_replaces_queue() {
    let mut r = ClientRegistry::new();
    r.register(id("a"));
    r.broadcast(&vec![1]);
    r.register(id("a"));
    assert_eq!(r.len(), 1);
    assert!(matches!(r.pull(&id("a")), Pull::Empty));
}

#[test]
fn unregister_is_idempotent() {
    let mut r = ClientRegistry::new();
    r.register(id("a"));
    r.register(id("b"));
    r.unregister(&id("a"));
    r.unregister(&id("a"));
    assert_eq!(r.snapshot(), vec![id("b")]);
    assert!(matches!(r.pull(&id("a")), Pull::Gone));
}

#[test]
fn broadcast_reaches_every_client() {
    let mut r = ClientRegistry::new();
    for n in 0..5 {
        r.register(format!("client{n}"));
    }
    let outcomes = r.broadcast(&vec![7, 7]);
    assert_eq!(outcomes, vec![Delivery::Delivered; 5]);
    for n in 0..5 {
        assert_eq!(pull_frame(&mut r, &format!("client{n}")), Some(vec![7, 7]));
    }
}

#[test]
fn full_queue_misses_only_its_frame() {
    let mut r = ClientRegistry::new();
    r.register(id("slow"));
    for n in 0..OUTBOX_CAPACITY {
        assert_eq!(r.broadcast(&vec![n as u8]), vec![Delivery::Delivered]);
    }
    r.register(id("fast1"));
    r.register(id("fast2"));
    let outcomes = r.broadcast(&vec![200]);
    assert_eq!(outcomes, vec![Delivery::Full, Delivery::Delivered, Delivery::Delivered]);
    assert_eq!(pull_frame(&mut r, "fast1"), Some(vec![200]));
    assert_eq!(pull_frame(&mut r, "fast2"), Some(vec![200]));
    for n in 0..OUTBOX_CAPACITY {
        assert_eq!(pull_frame(&mut r, "slow"), Some(vec![n as u8]));
    }
    assert!(matches!(r.pull(&id("slow")), Pull::Empty));
}

#[test]
fn frames_arrive_in_broadcast_order() {
    let mut r = ClientRegistry::new();
    r.register(id("c"));
    r.broadcast(&vec![1, 1]);
    r.broadcast(&vec![2, 2]);
    assert_eq!(pull_frame(&mut r, "c"), Some(vec![1, 1]));
    assert_eq!(pull_frame(&mut r, "c"), Some(vec![2, 2]));
    assert!(matches!(r.pull(&id("c")), Pull::Empty));
}

#[test]
fn late_joiner_gets_later_frames() {
    let mut r = ClientRegistry::new();
    r.register(id("early"));
    r.broadcast(&vec![1]);
    r.register(id("late"));
    r.broadcast(&vec![2]);
    assert_eq!(pull_frame(&mut r, "late"), Some(vec![2]));
    assert!(matches!(r.pull(&id("late")), Pull::Empty));
    assert_eq!(pull_frame(&mut r, "early"), Some(vec![1]));
}

#[test]
fn state_transitions() {
    assert_eq!(next_state(ConnState::Connected, ConnEvent::Received), ConnState::Connected);
    assert_eq!(next_state(ConnState::Connected, ConnEvent::Written), ConnState::Connected);
    assert_eq!(next_state(ConnState::Connected, ConnEvent::PeerClosed), ConnState::Draining);
    assert_eq!(next_state(ConnState::Connected, ConnEvent::ReadFailed), ConnState::Draining);
    assert_eq!(next_state(ConnState::Connected, ConnEvent::WriteFailed), ConnState::Closed);
    assert_eq!(next_state(ConnState::Connected, ConnEvent::QueueClosed), ConnState::Closed);
    assert_eq!(next_state(ConnState::Draining, ConnEvent::Written), ConnState::Draining);
    assert_eq!(next_state(ConnState::Draining, ConnEvent::QueueClosed), ConnState::Closed);
    assert_eq!(next_state(ConnState::Draining, ConnEvent::WriteFailed), ConnState::Closed);
    assert_eq!(next_state(ConnState::Closed, ConnEvent::Received), ConnState::Closed);
    assert_eq!(next_state(ConnState::Closed, ConnEvent::Written), ConnState::Closed);
}

#[test]
fn peer_close_removes_client() {
    let mut r = ClientRegistry::new();
    r.register(id("a"));
    r.register(id("b"));
    let s = r.on_connection_event(&id("a"), ConnState::Connected, ConnEvent::Received);
    assert_eq!(s, ConnState::Connected);
    assert_eq!(r.len(), 2);
    let s = r.on_connection_event(&id("a"), ConnState::Connected, ConnEvent::PeerClosed);
    assert_eq!(s, ConnState::Draining);
    assert_eq!(r.snapshot(), vec![id("b")]);
    assert_eq!(r.broadcast(&vec![9]), vec![Delivery::Delivered]);
    assert!(matches!(r.pull(&id("a")), Pull::Gone));
    let s = r.on_connection_event(&id("a"), s, ConnEvent::QueueClosed);
    assert_eq!(s, ConnState::Closed);
    assert_eq!(r.snapshot(), vec![id("b")]);
}

#[test]
fn write_failure_removes_client() {
    let mut r = ClientRegistry::new();
    r.register(id("a"));
    let s = r.on_connection_event(&id("a"), ConnState::Connected, ConnEvent::WriteFailed);
    assert_eq!(s, ConnState::Closed);
    assert_eq!(r.len(), 0);
}
