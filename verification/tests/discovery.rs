use screen_mirror::discovery::{
    accept_announcement, append_probe_subnet, broadcast_addresses, fit_within, hex_string,
    is_lan_address, normalize_pin, pin_hash, unicast_probe_addresses, DiscoveredPeer,
    DiscoveryError, DiscoveryPass, DiscoveryProbe, DiscoveryStep, DisplayInfo, InterfaceAddr,
    Ipv4Addr, PeerAnnouncement, PeerRole, DISCOVERY_PROBE_PORT, PROBE_PROTOCOL, PROTOCOL,
};
use serde_json::Value;

fn role_text(role: PeerRole) -> &'static str {
    match role {
        PeerRole::Idle => "idle",
        PeerRole::Sender => "sender",
        PeerRole::Receiver => "receiver",
    }
}

fn role_of(value: &Value) -> PeerRole {
    match value.as_str().unwrap() {
        "sender" => PeerRole::Sender,
        "receiver" => PeerRole::Receiver,
        _ => PeerRole::Idle,
    }
}

fn text(value: &Value) -> String {
    value.as_str().unwrap().to_string()
}

fn number(value: &Value) -> u64 {
    value.as_u64().unwrap()
}

fn encode_probe(probe: &DiscoveryProbe) -> Vec<u8> {
    let mut map = serde_json::Map::new();
    map.insert("protocol".to_string(), Value::from(probe.protocol.clone()));
    map.insert("version".to_string(), Value::from(probe.version));
    if let Some(role) = probe.wanted_role {
        map.insert("wanted_role".to_string(), Value::from(role_text(role)));
    }
    if let Some(hash) = &probe.pin_hash {
        map.insert("pin_hash".to_string(), Value::from(hash.clone()));
    }
    map.insert("timestamp_ms".to_string(), Value::from(probe.timestamp_ms));
    serde_json::to_vec(&Value::Object(map)).unwrap()
}

fn decode_probe(bytes: &[u8]) -> Result<DiscoveryProbe, DiscoveryError> {
    let value: Value = serde_json::from_slice(bytes).unwrap();
    DiscoveryProbe {
        protocol: text(&value["protocol"]),
        version: number(&value["version"]) as u16,
        wanted_role: value.get("wanted_role").map(role_of),
        pin_hash: value.get("pin_hash").map(text),
        timestamp_ms: number(&value["timestamp_ms"]),
    }
    .validated()
}

fn encode_announcement(announcement: &PeerAnnouncement) -> Vec<u8> {
    let mut map = serde_json::Map::new();
    map.insert("protocol".to_string(), Value::from(announcement.protocol.clone()));
    map.insert("version".to_string(), Value::from(announcement.version));
    map.insert("instance_id".to_string(), Value::from(announcement.instance_id.clone()));
    map.insert("device_name".to_string(), Value::from(announcement.device_name.clone()));
    map.insert("role".to_string(), Value::from(role_text(announcement.role)));
    map.insert("stream_port".to_string(), Value::from(announcement.stream_port));
    if let Some(display) = &announcement.display {
        let mut inner = serde_json::Map::new();
        inner.insert("width".to_string(), Value::from(display.width));
        inner.insert("height".to_string(), Value::from(display.height));
        for (key, value) in [
            ("refresh_hz", display.refresh_hz),
            ("max_decode_width", display.max_decode_width),
            ("max_decode_height", display.max_decode_height),
        ] {
            if let Some(value) = value {
                inner.insert(key.to_string(), Value::from(value));
            }
        }
        map.insert("display".to_string(), Value::Object(inner));
    }
    map.insert("timestamp_ms".to_string(), Value::from(announcement.timestamp_ms));
    serde_json::to_vec(&Value::Object(map)).unwrap()
}

fn decode_announcement(bytes: &[u8]) -> Result<PeerAnnouncement, DiscoveryError> {
    let value: Value = serde_json::from_slice(bytes).unwrap();
    let side = |display: &Value, key: &str| display.get(key).map(|side| number(side) as u32);
    PeerAnnouncement {
        protocol: text(&value["protocol"]),
        version: number(&value["version"]) as u16,
        instance_id: text(&value["instance_id"]),
        device_name: text(&value["device_name"]),
        role: role_of(&value["role"]),
        stream_port: number(&value["stream_port"]) as u16,
        audio_port: None,
        diagnostics_port: None,
        pin_hash: value.get("pin_hash").map(text),
        display: value.get("display").map(|display| DisplayInfo {
            width: number(&display["width"]) as u32,
            height: number(&display["height"]) as u32,
            refresh_hz: side(display, "refresh_hz"),
            max_decode_width: side(display, "max_decode_width"),
            max_decode_height: side(display, "max_decode_height"),
        }),
        timestamp_ms: number(&value["timestamp_ms"]),
    }
    .validated()
}

#[test]
fn discovery_probe_round_trips_and_filters_role_and_pin() {
    let probe = DiscoveryProbe::new(Some(PeerRole::Receiver), Some("9700")).unwrap();
    let decoded = decode_probe(&encode_probe(&probe)).unwrap();
    let matching = PeerAnnouncement::new("receiver-1", "receiver", PeerRole::Receiver, 5004)
        .with_pin("9700")
        .unwrap();
    let wrong_role = PeerAnnouncement::new("sender-1", "sender", PeerRole::Sender, 5004)
        .with_pin("9700")
        .unwrap();
    let wrong_pin = PeerAnnouncement::new("receiver-2", "receiver", PeerRole::Receiver, 5004)
        .with_pin("0000")
        .unwrap();

    assert!(decoded.accepts(&matching));
    assert!(!decoded.accepts(&wrong_role));
    assert!(!decoded.accepts(&wrong_pin));
    assert_eq!(DISCOVERY_PROBE_PORT, 47776);
}

#[test]
fn frames_are_scaled_to_fit_a_decoder_limit_without_changing_their_aspect() {
    // An ultrawide desktop into the 1920x1088 an Intel HD 4000 decodes.
    assert_eq!(fit_within((2560, 1080), (1920, 1088)), Some((1920, 810)));
    // 4K fits by width alone, and the height it lands on needs no further scaling.
    assert_eq!(fit_within((3840, 2160), (1920, 1088)), Some((1920, 1080)));
    // A portrait capture is bounded by height instead, and both sides stay even.
    assert_eq!(fit_within((1080, 2400), (1920, 1088)), Some((488, 1088)));
    // Anything that already fits is left alone, so the capture keeps its native size.
    assert_eq!(fit_within((1366, 768), (1920, 1088)), None);
    assert_eq!(fit_within((1920, 1088), (1920, 1088)), None);
    // A source or limit we know nothing about is not a reason to resize.
    assert_eq!(fit_within((0, 0), (1920, 1088)), None);
    assert_eq!(fit_within((2560, 1080), (0, 1088)), None);
}

#[test]
fn a_fitted_frame_stays_inside_every_limit() {
    assert_eq!(fit_within((100, 100), (1, 1)), None);
    assert_eq!(fit_within((100, 100), (1, 50)), None);
    assert_eq!(fit_within((100, 100), (2, 2)), Some((2, 2)));
    assert_eq!(fit_within((4000, 10), (100, 2)), Some((100, 2)));
    for source in [(4000, 10), (10, 4000), (101, 99), (3, 3)] {
        for limit in [(2, 2), (2, 90), (3, 3), (50, 2), (64, 64)] {
            if let Some((width, height)) = fit_within(source, limit) {
                assert!(width <= limit.0 && height <= limit.1);
            }
        }
    }
    let tiny = DisplayInfo::new(10, 10, None).with_decode_limits(Some((1, 1)));
    assert_eq!(tiny.fitted_frame_size((100, 100)), None);
}

#[test]
fn a_pin_is_announced_as_sixty_four_hexadecimal_digits() {
    let announcement = PeerAnnouncement::new("id", "name", PeerRole::Receiver, 5004)
        .with_pin("9700")
        .unwrap();
    let hash = announcement.pin_hash.unwrap();
    assert_eq!(hash.len(), 64);
    assert!(hash
        .chars()
        .all(|digit| digit.is_ascii_digit() || ('a'..='f').contains(&digit)));
    assert_eq!(pin_hash("9700").unwrap(), hash);
    let probe = DiscoveryProbe::new(None, Some("9700")).unwrap();
    assert_eq!(probe.pin_hash.unwrap(), hash);
}

#[test]
fn a_display_without_announced_decode_limits_never_resizes_the_capture() {
    let unknown = DisplayInfo::new(1366, 768, Some(60));
    let limited = DisplayInfo::new(1920, 1080, Some(60)).with_decode_limits(Some((1920, 1088)));

    assert_eq!(unknown.decode_limits(), None);
    assert_eq!(unknown.fitted_frame_size((2560, 1080)), None);
    assert_eq!(limited.fitted_frame_size((2560, 1080)), Some((1920, 810)));
    assert_eq!(limited.fitted_frame_size((1366, 768)), None);
}

#[test]
fn decode_limits_survive_the_wire_and_older_peers_decode_without_them() {
    let announced = PeerAnnouncement::new("receiver-1", "receiver", PeerRole::Receiver, 5004)
        .with_display(
            DisplayInfo::new(1920, 1080, Some(60)).with_decode_limits(Some((1920, 1088))),
        );
    let decoded = decode_announcement(&encode_announcement(&announced)).unwrap();
    assert_eq!(decoded.display.unwrap().decode_limits(), Some((1920, 1088)));

    let older = PeerAnnouncement::new("receiver-2", "receiver", PeerRole::Receiver, 5004)
        .with_display(DisplayInfo::new(1920, 1080, Some(60)));
    let encoded = String::from_utf8(encode_announcement(&older)).unwrap();
    assert!(!encoded.contains("max_decode"));
    let decoded = decode_announcement(encoded.as_bytes()).unwrap();
    assert_eq!(decoded.display.unwrap().decode_limits(), None);
}

#[test]
fn probe_scan_is_bounded_to_the_local_slash_24() {
    let mut addresses = Vec::new();
    append_probe_subnet(
        &mut addresses,
        Ipv4Addr::new(10, 255, 10, 144),
        Ipv4Addr::new(255, 255, 0, 0),
    );

    assert_eq!(addresses.len(), 253);
    assert!(addresses.contains(&Ipv4Addr::new(10, 255, 10, 90)));
    assert!(!addresses.contains(&Ipv4Addr::new(10, 255, 10, 144)));
    assert!(!addresses.contains(&Ipv4Addr::new(10, 255, 11, 1)));
}

#[test]
fn a_half_announced_limit_is_no_limit() {
    let mut display = DisplayInfo::new(1920, 1080, None).with_decode_limits(Some((1280, 720)));
    display.max_decode_height = None;
    assert_eq!(display.decode_limits(), None);
    assert_eq!(
        DisplayInfo::new(1, 1, None)
            .with_decode_limits(Some((9, 9)))
            .with_decode_limits(None),
        DisplayInfo::new(1, 1, None)
    );
}

#[test]
fn a_pin_is_hashed_with_its_label() {
    assert_eq!(
        pin_hash("0000").unwrap(),
        pin_hash(" 0000\n").unwrap(),
        "white space around a PIN plays no part"
    );
    assert_ne!(pin_hash("0000").unwrap(), pin_hash("0001").unwrap());
    assert_eq!(pin_hash("1234").unwrap().len(), 64);
    assert_eq!(
        pin_hash("0000").unwrap(),
        "0878ccfcaed9ad1e5667f7a0614f7db7d558d402657df8284e2cb7cc26f98a06"
    );
    assert_eq!(hex_string(&[0, 0x0F, 0xA5, 0xFF]), "000fa5ff");
}

#[test]
fn a_pin_is_exactly_four_digits() {
    assert_eq!(normalize_pin(" 0420 ").unwrap(), "0420");
    for bad in ["", "123", "12345", "12a4", "１２３４"] {
        assert_eq!(normalize_pin(bad).unwrap_err(), DiscoveryError::PinFormat);
        assert_eq!(pin_hash(bad).unwrap_err(), DiscoveryError::PinFormat);
    }
    assert_eq!(
        DiscoveryError::PinFormat.message(),
        "PIN must be exactly four digits"
    );
}

#[test]
fn packets_of_another_protocol_or_version_are_rejected() {
    let announcement =
        || PeerAnnouncement::new_at("id", "name", PeerRole::Sender, 5004, 7).with_audio_port(Some(5005));
    assert_eq!(announcement().protocol, PROTOCOL);
    assert_eq!(announcement().timestamp_ms, 7);
    assert_eq!(announcement().with_diagnostics_port(9).diagnostics_port, Some(9));
    assert!(announcement().validated().is_ok());
    let mut other = announcement();
    other.protocol = PROBE_PROTOCOL.to_string();
    assert_eq!(
        other.validated().unwrap_err(),
        DiscoveryError::UnexpectedDiscoveryProtocol
    );
    let mut other = announcement();
    other.version = 2;
    assert_eq!(
        other.validated().unwrap_err(),
        DiscoveryError::UnsupportedDiscoveryVersion
    );
    let mut probe = DiscoveryProbe::new_at(None, None, 3).unwrap();
    probe.protocol = PROTOCOL.to_string();
    assert_eq!(
        probe.validated().unwrap_err(),
        DiscoveryError::UnexpectedProbeProtocol
    );
    let mut probe = DiscoveryProbe::new_at(None, None, 3).unwrap();
    probe.version = 0;
    assert_eq!(
        probe.validated().unwrap_err(),
        DiscoveryError::UnsupportedProbeVersion
    );
    assert!(DiscoveryProbe::new(None, Some("12")).is_err());
    assert_eq!(
        DiscoveryError::UnexpectedProbeProtocol.message(),
        "unexpected probe protocol"
    );
}

#[test]
fn a_pass_keeps_each_fitting_instance_once() {
    let mut peers: Vec<DiscoveredPeer> = Vec::new();
    let announcement =
        |id: &str, role| PeerAnnouncement::new(id, id, role, 5004).with_pin("0000").unwrap();
    let hash = pin_hash("0000").unwrap();
    let wanted = Some(PeerRole::Receiver);
    let at = |last| Some(Ipv4Addr::new(10, 0, 0, last));
    let receiver = PeerRole::Receiver;
    assert!(accept_announcement(&mut peers, wanted, Some(&hash), announcement("a", receiver), at(1)));
    assert!(!accept_announcement(&mut peers, wanted, Some(&hash), announcement("a", receiver), at(2)));
    assert!(!accept_announcement(
        &mut peers,
        wanted,
        Some(&hash),
        announcement("b", PeerRole::Sender),
        at(3)
    ));
    assert!(!accept_announcement(&mut peers, wanted, Some("x"), announcement("c", receiver), at(4)));
    assert!(!accept_announcement(&mut peers, wanted, None, announcement("d", receiver), None));
    assert!(accept_announcement(&mut peers, None, None, announcement("e", receiver), at(5)));
    assert_eq!(peers.len(), 2);
    assert_eq!(peers[0].address, Ipv4Addr::new(10, 0, 0, 1));
    assert_eq!(peers[1].announcement.instance_id, "e");
}

#[test]
fn a_pass_probes_once_a_second_until_its_deadline() {
    let mut pass = DiscoveryPass::new(10_000, 1_500);
    assert_eq!(pass.step(10_000), DiscoveryStep::ProbeAndListen);
    assert_eq!(pass.step(10_025), DiscoveryStep::Listen);
    assert_eq!(pass.step(11_000), DiscoveryStep::ProbeAndListen);
    assert_eq!(pass.step(11_499), DiscoveryStep::Listen);
    assert_eq!(pass.step(11_500), DiscoveryStep::Done);
}

fn v4(ip: (u8, u8, u8, u8), mask: (u8, u8, u8, u8)) -> InterfaceAddr {
    InterfaceAddr::V4 {
        ip: Ipv4Addr::new(ip.0, ip.1, ip.2, ip.3),
        netmask: Ipv4Addr::new(mask.0, mask.1, mask.2, mask.3),
    }
}

#[test]
fn broadcasts_go_to_every_network_once() {
    let addresses = broadcast_addresses(&vec![
        v4((127, 0, 0, 1), (255, 0, 0, 0)),
        InterfaceAddr::V6,
        v4((192, 168, 1, 20), (255, 255, 255, 0)),
        v4((192, 168, 1, 21), (255, 255, 255, 0)),
        v4((169, 254, 3, 4), (255, 255, 0, 0)),
        v4((10, 1, 2, 3), (255, 255, 0, 0)),
    ]);
    assert_eq!(
        addresses,
        vec![Ipv4Addr::new(192, 168, 1, 255), Ipv4Addr::new(10, 1, 255, 255)]
    );
    assert_eq!(
        broadcast_addresses(&Vec::new()),
        vec![Ipv4Addr::new(255, 255, 255, 255)]
    );
}

#[test]
fn direct_probes_stay_in_private_networks_and_are_bounded() {
    let small = unicast_probe_addresses(&vec![
        v4((8, 8, 8, 8), (255, 255, 255, 0)),
        v4((192, 168, 5, 2), (255, 255, 255, 252)),
    ]);
    assert_eq!(small, vec![Ipv4Addr::new(192, 168, 5, 1)]);
    let mut many = Vec::new();
    for third in 0..20 {
        many.push(v4((10, 0, third, 1), (255, 255, 255, 0)));
    }
    assert_eq!(unicast_probe_addresses(&many).len(), 2048);
    assert!(is_lan_address(Ipv4Addr::new(172, 31, 0, 1)));
    assert!(!is_lan_address(Ipv4Addr::new(172, 32, 0, 1)));
}

#[test]
fn addresses_are_written_and_read_by_octet() {
    let address = Ipv4Addr::new(192, 168, 1, 10);
    assert_eq!(address.octets(), [192, 168, 1, 10]);
    let mut out = String::from("@");
    address.push_to(&mut out);
    assert_eq!(out, "@192.168.1.10");
    assert!(Ipv4Addr::new(127, 9, 9, 9).is_loopback());
    assert!(Ipv4Addr::new(169, 254, 0, 1).is_link_local());
    assert!(!Ipv4Addr::new(169, 253, 0, 1).is_link_local());
    assert!(address.is_private());
}
