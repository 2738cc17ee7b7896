use screen_mirror::control::{
    ControlError, ControlHeader, FeedbackEntry, FeedbackHealth, FeedbackStore, Ratio,
    StreamFeedback, TouchAction, CONTROL_PROTOCOL, CONTROL_VERSION, FEEDBACK_STALE_AFTER_MS,
    STREAM_FEEDBACK_PROTOCOL,
};
use screen_mirror::discovery::{pin_hash, Ipv4Addr};
use serde_json::Value;

fn encode(feedback: &StreamFeedback) -> Vec<u8> {
    let mut map = serde_json::Map::new();
    map.insert("protocol".to_string(), Value::from(feedback.protocol.clone()));
    map.insert("version".to_string(), Value::from(feedback.version));
    map.insert("pin_hash".to_string(), Value::from(feedback.pin_hash.clone()));
    for (key, value) in [
        ("timestamp_ms", feedback.timestamp_ms),
        ("window_ms", feedback.window_ms),
        ("received_packets", feedback.received_packets),
        ("lost_packets", feedback.lost_packets),
        ("late_packets", feedback.late_packets),
        ("duplicate_packets", feedback.duplicate_packets),
        ("decoded_frames", feedback.decoded_frames),
        ("displayed_frames", feedback.displayed_frames),
    ] {
        map.insert(key.to_string(), Value::from(value));
    }
    map.insert("jitter_ms".to_string(), Value::from(feedback.jitter_ms));
    serde_json::to_vec(&Value::Object(map)).unwrap()
}

fn decode(bytes: &[u8]) -> Result<StreamFeedback, ControlError> {
    let value: Value = serde_json::from_slice(bytes).unwrap();
    let number = |key: &str| value[key].as_u64().unwrap();
    let text = |key: &str| value[key].as_str().unwrap().to_string();
    StreamFeedback {
        protocol: text("protocol"),
        version: number("version") as u16,
        pin_hash: text("pin_hash"),
        timestamp_ms: number("timestamp_ms"),
        window_ms: number("window_ms"),
        received_packets: number("received_packets"),
        lost_packets: number("lost_packets"),
        late_packets: number("late_packets"),
        duplicate_packets: number("duplicate_packets"),
        decoded_frames: number("decoded_frames"),
        displayed_frames: number("displayed_frames"),
        jitter_ms: number("jitter_ms") as u32,
    }
    .validated()
}

#[test]
fn stream_feedback_with_pin_round_trips_as_its_own_protocol() {
    let feedback = StreamFeedback::with_pin("1234", 1_000, 500, 100, 4, 2, 1, 58, 56, 7)
        .expect("valid PIN");

    let encoded = encode(&feedback);
    let json: Value = serde_json::from_slice(&encoded).expect("valid feedback JSON");
    assert_eq!(json["protocol"], STREAM_FEEDBACK_PROTOCOL);
    assert_eq!(json["version"], CONTROL_VERSION);
    assert_eq!(json["pin_hash"], pin_hash("1234").expect("valid PIN"));

    let decoded = decode(&encoded).expect("decode feedback");
    assert_eq!(decoded.protocol, STREAM_FEEDBACK_PROTOCOL);
    assert_eq!(decoded.timestamp_ms, 1_000);
    assert_eq!(decoded.window_ms, 500);
    assert_eq!(decoded.received_packets, 100);
    assert_eq!(decoded.lost_packets, 4);
    assert_eq!(decoded.late_packets, 2);
    assert_eq!(decoded.duplicate_packets, 1);
    assert_eq!(decoded.decoded_frames, 58);
    assert_eq!(decoded.displayed_frames, 56);
    assert_eq!(decoded.jitter_ms, 7);
}

#[test]
fn stream_feedback_decode_rejects_another_protocol_or_version() {
    let feedback =
        || StreamFeedback::with_pin("1234", 1, 1, 1, 0, 0, 0, 1, 1, 0).expect("valid PIN");

    let mut wrong_protocol = feedback();
    wrong_protocol.protocol = CONTROL_PROTOCOL.to_string();
    assert_eq!(
        decode(&encode(&wrong_protocol)).unwrap_err(),
        ControlError::UnexpectedFeedbackProtocol
    );

    let mut wrong_version = feedback();
    wrong_version.version = CONTROL_VERSION + 1;
    assert_eq!(
        decode(&encode(&wrong_version)).unwrap_err(),
        ControlError::UnsupportedFeedbackVersion
    );
}

#[test]
fn health_uses_the_worst_active_receiver() {
    let mut store = FeedbackStore::default();
    store.update(
        Ipv4Addr::new(192, 168, 1, 10),
        StreamFeedback::with_pin("1234", 1, 1_000, 98, 2, 4, 0, 30, 30, 8).expect("valid feedback"),
        50_000,
    );
    store.update(
        Ipv4Addr::new(192, 168, 1, 11),
        StreamFeedback::with_pin("1234", 1, 1_000, 90, 10, 1, 0, 30, 30, 20)
            .expect("valid feedback"),
        50_000,
    );

    let health = store.health(50_000);
    let value = |ratio: Ratio| ratio.part as f64 / ratio.whole as f64;
    assert_eq!(health.receiver_count, 2);
    assert!((value(health.loss_ratio) - 0.1).abs() < 0.001);
    assert!((value(health.late_ratio) - 0.04).abs() < 0.001);
    assert_eq!(health.jitter_ms, 20);
}

#[test]
fn stale_feedback_is_not_used_for_adaptation() {
    let mut store = FeedbackStore::default();
    let feedback = StreamFeedback::with_pin("1234", 1, 1_000, 100, 20, 20, 0, 30, 30, 10)
        .expect("valid feedback");
    store.entries.push(FeedbackEntry {
        source: Ipv4Addr::new(127, 0, 0, 1),
        feedback,
        received_at_ms: 50_000 - FEEDBACK_STALE_AFTER_MS - 10,
    });
    assert_eq!(store.health(50_000), FeedbackHealth::default());
}

#[test]
fn feedback_counts_until_it_is_stale() {
    let mut store = FeedbackStore::default();
    let feedback = || StreamFeedback::with_pin("1234", 1, 1, 9, 1, 0, 0, 1, 1, 3).unwrap();
    let source = Ipv4Addr::new(10, 0, 0, 1);
    store.update(source, feedback(), 1_000);
    assert_eq!(store.health(4_000).receiver_count, 1);
    assert_eq!(store.health(4_001).receiver_count, 0);
    store.update(source, feedback(), 4_001);
    assert_eq!(store.entries.len(), 1);
    assert_eq!(store.health(4_001).loss_ratio, Ratio { part: 1, whole: 10 });
    // Past 53 bits the parts of a ratio count as double precision gives them.
    let mut store = FeedbackStore::default();
    let most = 1_u64 << 60;
    for (host, lost) in [(2, most + 3), (3, most), (4, u64::MAX)] {
        let mut feedback = StreamFeedback::with_pin("1234", 1, 1_000, 0, 0, 0, 0, 30, 30, 8)
            .expect("valid feedback");
        feedback.lost_packets = lost;
        feedback.received_packets = if host == 4 { u64::MAX } else { most };
        store.update(Ipv4Addr::new(10, 0, 0, host), feedback, 0);
    }
    let worst = store.health(0).loss_ratio;
    assert_eq!(worst.part as f64 / worst.whole as f64, 1.0);
}

#[test]
fn feedback_is_kept_with_the_right_pin_from_an_ipv4_source_only() {
    let mut store = FeedbackStore::default();
    let hash = pin_hash("1234").unwrap();
    let feedback = || StreamFeedback::with_pin("1234", 1, 1, 1, 0, 0, 0, 1, 1, 0).unwrap();
    let source = Some(Ipv4Addr::new(10, 0, 0, 1));
    assert!(!store.accept(&pin_hash("0000").unwrap(), source, feedback(), 5));
    assert!(!store.accept(&hash, None, feedback(), 5));
    assert!(store.entries.is_empty());
    assert!(store.accept(&hash, source, feedback(), 5));
    assert_eq!(store.entries.len(), 1);
}

#[test]
fn a_touch_is_taken_from_a_packet_of_the_right_protocol_and_pin() {
    let header = ControlHeader::new(Some("1234")).unwrap();
    assert_eq!(header.protocol, CONTROL_PROTOCOL);
    assert_eq!(header.validate(), Ok(()));
    assert!(header.authorized(&pin_hash("1234").unwrap()));
    assert!(!header.authorized(&pin_hash("4321").unwrap()));
    let anonymous = ControlHeader::new(None).unwrap();
    assert!(!anonymous.authorized(&pin_hash("1234").unwrap()));
    assert!(ControlHeader::new(Some("x")).is_err());
    let other = ControlHeader {
        protocol: STREAM_FEEDBACK_PROTOCOL.to_string(),
        version: CONTROL_VERSION,
        pin_hash: None,
    };
    assert_eq!(
        other.validate(),
        Err(ControlError::UnexpectedControlProtocol)
    );
    let other = ControlHeader {
        protocol: CONTROL_PROTOCOL.to_string(),
        version: CONTROL_VERSION + 1,
        pin_hash: None,
    };
    assert_eq!(
        other.validate().unwrap_err().message(),
        "unsupported control version"
    );
}

#[test]
fn touches_are_mouse_events_at_absolute_positions() {
    assert_eq!(TouchAction::Down.mouse_flags(), 0x8003);
    assert_eq!(TouchAction::Move.mouse_flags(), 0x8001);
    assert_eq!(TouchAction::Up.mouse_flags(), 0x8005);
    assert_eq!(TouchAction::Cancel.mouse_flags(), 0x8005);
}
