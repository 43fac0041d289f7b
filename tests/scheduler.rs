use screen_io::envelope::{root_as_message, send_message, MessageError};
use screen_io::registry::{ClientRegistry, Pull};
use screen_io::scheduler::{encode_state, Scheduler, StateMessage};

fn fields(frame: &[u8]) -> (String, String) {
    let m = root_as_message(frame).unwrap();
    (m.app().unwrap().to_string(), m.payload().unwrap().to_string())
}

#[test]
fn tags_of_each_event() {
    let cases = vec![
        (StateMessage::TrackData("t".to_string()), "Spotify", "t"),
        (StateMessage::WeatherData("w".to_string()), "Weather", "w"),
        (StateMessage::XtbData("x".to_string()), "XTB", "x"),
        (StateMessage::Ping, "PING", "HEARTBEAT"),
    ];
    for (m, tag, text) in cases {
        let frame = encode_state(&m).unwrap();
        assert_eq!(frame, send_message(tag, text).unwrap());
        assert_eq!(fields(&frame), (tag.to_string(), text.to_string()));
    }
}

#[test]
fn too_long_event_is_dropped() {
    let mut s = Scheduler::new(0);
    let long = StateMessage::WeatherData("x".repeat(1025));
    assert_eq!(s.enqueue(&long), Err(MessageError::PayloadTooLong));
    assert_eq!(s.pending_len(), 0);
    assert!(s.on_event(&long, 5000).is_empty());
    assert_eq!(s.pending_len(), 0);
}

#[test]
fn nothing_released_before_a_window() {
    let mut s = Scheduler::new(1000);
    let out = s.on_event(&StateMessage::Ping, 1999);
    assert!(out.is_empty());
    assert_eq!(s.pending_len(), 1);
    let out = s.flush_due(2000);
    assert_eq!(out.len(), 1);
    assert_eq!(s.pending_len(), 0);
}

#[test]
fn burst_is_released_two_per_window() {
    let mut s = Scheduler::new(0);
    for n in 0..5 {
        assert!(s.enqueue(&StateMessage::XtbData(format!("Profit: {n}"))).is_ok());
    }
    let first = s.flush_due(1000);
    assert_eq!(first.len(), 2);
    // the window has just restarted: nothing more within it
    assert!(s.flush_due(1500).is_empty());
    assert!(s.flush_due(1999).is_empty());
    let second = s.flush_due(2000);
    assert_eq!(second.len(), 2);
    let third = s.flush_due(3000);
    assert_eq!(third.len(), 1);
    assert!(s.flush_due(9000).is_empty());
    let all: Vec<String> = first.iter().chain(&second).chain(&third).map(|f| fields(f).1).collect();
    assert_eq!(all, (0..5).map(|n| format!("Profit: {n}")).collect::<Vec<_>>());
}

#[test]
fn event_after_quiet_period_goes_out_at_once() {
    let mut s = Scheduler::new(0);
    let out = s.on_event(&StateMessage::TrackData("song".to_string()), 60_000);
    assert_eq!(out.len(), 1);
    assert_eq!(fields(&out[0]), ("Spotify".to_string(), "song".to_string()));
}

#[test]
fn clock_going_backwards_releases_nothing() {
    let mut s = Scheduler::new(5000);
    assert!(s.on_event(&StateMessage::Ping, 100).is_empty());
    assert_eq!(s.pending_len(), 1);
}

#[test]
fn weather_reaches_registered_client() {
    let mut registry = ClientRegistry::new();
    let c = "127.0.0.1:40000".to_string();
    registry.register(c.clone());
    let mut s = Scheduler::new(0);
    let frames = s.on_event(&StateMessage::WeatherData("Weather: 21.5°C".to_string()), 1000);
    for f in &frames {
        registry.broadcast(f);
    }
    let frame = match registry.pull(&c) {
        Pull::Frame(f) => f,
        _ => panic!("no frame queued"),
    };
    assert_eq!(fields(&frame), ("Weather".to_string(), "Weather: 21.5°C".to_string()));
    assert!(matches!(registry.pull(&c), Pull::Empty));
}
