use screen_mirror::config::AppConfig;
use screen_mirror::discovery::{DiscoveredPeer, DisplayInfo, Ipv4Addr, PeerAnnouncement, PeerRole};
use screen_mirror::lan::{
    assign_receiver_displays, device_name, discovered_receivers, effective_video_size,
    ensure_virtual_target_count, instance_id, manual_receivers, peer_announcement,
    prepare_sender_environment, receiver_args, receiver_set_key, stable_unique_receivers, virtual_displays_needed,
    wants_auto_host, AnnounceSchedule, AudioAction, DiscoveryAction, LanError, LossAction,
    ReceiverTarget, SenderPreparationState, SenderSession,
};

#[test]
fn sender_environment_is_prepared_once_per_receiver_set() {
    let mut state = SenderPreparationState::default();

    assert!(state.needs_prepare("10.0.0.2:5004@1366x768"));
    // A failed attempt is not committed, so the same receiver remains retryable.
    assert!(state.needs_prepare("10.0.0.2:5004@1366x768"));

    state.mark_prepared("10.0.0.2:5004@1366x768");
    assert!(!state.needs_prepare("10.0.0.2:5004@1366x768"));
    assert!(state.needs_prepare("10.0.0.2:5004@1920x1080"));

    state.mark_prepared("10.0.0.2:5004@1920x1080");
    assert!(!state.needs_prepare("10.0.0.2:5004@1920x1080"));

    state.reset();
    assert!(state.needs_prepare("10.0.0.2:5004@1920x1080"));
}

#[test]
fn virtual_display_count_must_match_receivers_before_sending() {
    assert!(ensure_virtual_target_count(1, 1).is_ok());
    assert!(ensure_virtual_target_count(1, 0).is_err());
    assert!(ensure_virtual_target_count(2, 1).is_err());
    assert!(ensure_virtual_target_count(1, 2).is_err());
}

#[test]
fn receiver_key_changes_when_the_announced_display_mode_changes() {
    let mut receivers = vec![ReceiverTarget {
        host: "10.0.0.2:5004".to_string(),
        display: Some(DisplayInfo::new(1366, 768, Some(60))),
    }];
    let initial = receiver_set_key(&receivers);
    receivers[0].display = Some(DisplayInfo::new(1920, 1080, Some(60)));

    assert_ne!(initial, receiver_set_key(&receivers));
}

#[test]
fn receiver_keys_differ_exactly_with_endpoints_and_modes() {
    let target = |host: &str, display: Option<DisplayInfo>| ReceiverTarget {
        host: host.to_string(),
        display,
    };
    let mode = || Some(DisplayInfo::new(1366, 768, Some(60)));
    let key = receiver_set_key(&vec![target("10.0.0.2:5004", mode()), target("10.0.0.3:5004", None)]);
    let same = receiver_set_key(&vec![
        target("10.0.0.2:5004", mode().map(|mode| mode.with_decode_limits(Some((1920, 1088))))),
        target("10.0.0.3:5004", None),
    ]);
    assert_eq!(key, same);
    for other in [
        vec![target("10.0.0.3:5004", None), target("10.0.0.2:5004", mode())],
        vec![target("10.0.0.2:5004", None), target("10.0.0.3:5004", mode())],
        vec![target("10.0.0.2:5004", mode())],
        vec![target("10.0.0.2:5005", mode()), target("10.0.0.3:5004", None)],
        vec![
            target("10.0.0.2:5004", Some(DisplayInfo::new(1366, 768, Some(59)))),
            target("10.0.0.3:5004", None),
        ],
        Vec::new(),
    ] {
        assert_ne!(receiver_set_key(&other), key);
    }
}

#[test]
fn arguments_are_narrowed_to_one_receiver() {
    let args = screen_mirror::config::AppConfig::default().send_args();
    let one = receiver_args(
        &args,
        &ReceiverTarget {
            host: "10.0.0.9:5004".to_string(),
            display: Some(DisplayInfo::new(1366, 768, Some(60))),
        },
    );
    assert_eq!(one.host, "10.0.0.9:5004");
    assert_eq!((one.width, one.height), (args.width, args.height));
    assert_eq!(one.port, args.port);
}

fn receiver(instance: &str, address: [u8; 4], port: u16) -> DiscoveredPeer {
    DiscoveredPeer {
        announcement: PeerAnnouncement::new(instance, instance, PeerRole::Receiver, port),
        address: Ipv4Addr::new(address[0], address[1], address[2], address[3]),
    }
}

#[test]
fn receiver_order_and_endpoint_set_are_stable_across_discovery_passes() {
    let first = vec![
        receiver("phone-b", [10, 0, 0, 3], 5004),
        receiver("phone-a-stale", [10, 0, 0, 2], 5004),
        receiver("phone-a", [10, 0, 0, 2], 5004),
    ];
    let second = vec![
        receiver("phone-a", [10, 0, 0, 2], 5004),
        receiver("phone-a-stale", [10, 0, 0, 2], 5004),
        receiver("phone-b", [10, 0, 0, 3], 5004),
    ];

    let first = stable_unique_receivers(first);
    let second = stable_unique_receivers(second);
    let identities = |peers: &[DiscoveredPeer]| {
        peers
            .iter()
            .map(|peer| {
                (
                    peer.announcement.instance_id.clone(),
                    peer.address,
                    peer.announcement.stream_port,
                )
            })
            .collect::<Vec<_>>()
    };

    assert_eq!(identities(&first), identities(&second));
    assert_eq!(first.len(), 2);
    assert_eq!(first[0].announcement.instance_id, "phone-a");
    assert_eq!(first[1].announcement.instance_id, "phone-b");
}

#[test]
fn receiver_display_size_never_overrides_capture_native_size() {
    let portrait = DisplayInfo::new(720, 1604, Some(60));

    assert_eq!(
        effective_video_size(None, None, Some(&portrait)),
        (None, None)
    );
    assert_eq!(
        effective_video_size(Some(1920), Some(1080), Some(&portrait)),
        (Some(1920), Some(1080))
    );
}

#[test]
fn auto_hosts_are_searched_for() {
    assert!(wants_auto_host("auto"));
    assert!(wants_auto_host(" AUTO "));
    assert!(!wants_auto_host("10.0.0.2"));
}

#[test]
fn found_receivers_become_targets() {
    let args = AppConfig::default().send_args();
    let resolved = discovered_receivers(
        args,
        vec![
            receiver("b", [10, 0, 0, 3], 5004),
            receiver("a", [10, 0, 0, 2], 6000),
        ],
    )
    .unwrap();
    assert_eq!(resolved.receivers.len(), 2);
    assert_eq!(resolved.receivers[0].host, "10.0.0.2:6000");
    assert_eq!(resolved.receivers[1].host, "10.0.0.3:5004");
    let none = discovered_receivers(AppConfig::default().send_args(), Vec::new());
    assert!(matches!(none, Err(LanError::NoReceivers)));
}

#[test]
fn displays_are_assigned_only_where_there_are_enough() {
    let mut args = AppConfig::default().send_args();
    args.host = "10.0.0.2,10.0.0.3".to_string();
    let resolved = manual_receivers(args);
    if let Some(needed) = virtual_displays_needed(&resolved) {
        assert!(needed >= 1);
        assert!(assign_receiver_displays(&resolved, &Vec::new()).is_err());
    }
    assert!(prepare_sender_environment(true, true).is_ok());
    assert!(prepare_sender_environment(false, false).is_ok());
    assert!(prepare_sender_environment(true, false).is_err());
    assert!(ensure_virtual_target_count(2, 1)
        .unwrap_err()
        .message()
        .contains('2'));
}

#[test]
fn a_session_restarts_for_other_receivers_only() {
    let mut session = SenderSession::new(true, false);
    assert_eq!(
        session.receivers_found(1_000, "k1"),
        DiscoveryAction::Restart { prepare: true }
    );
    session.streams_started("10.0.0.2", "k1", 1);
    assert!(session.stream_active());
    assert_eq!(
        session.receivers_found(2_000, "k1"),
        DiscoveryAction::KeepStreams
    );
    assert_eq!(session.receivers_lost(2_000 + 74_999), LossAction::Grace);
    assert_eq!(
        session.receivers_lost(2_000 + 75_000),
        LossAction::Stop {
            remove_display: true
        }
    );
    assert!(!session.stream_active());
    assert_eq!(
        session.receivers_lost(200_000),
        LossAction::Stop {
            remove_display: false
        }
    );
}

#[test]
fn repeated_failures_alert_and_are_retried() {
    let mut session = SenderSession::new(true, false);
    for attempt in 1..=4 {
        assert_eq!(
            session.receivers_found(attempt * 1_000, "k1"),
            DiscoveryAction::Restart { prepare: true }
        );
        assert_eq!(session.start_failed(), attempt == 3);
    }
}

#[test]
fn audio_follows_its_switch_while_video_streams() {
    let mut session = SenderSession::new(false, true);
    assert_eq!(session.audio_action(), AudioAction::Keep);
    session.receivers_found(0, "k");
    session.streams_started("10.0.0.2", "k", 1);
    assert_eq!(session.audio_action(), AudioAction::Start);
    session.audio_started();
    assert_eq!(session.audio_action(), AudioAction::Keep);
    session.set_audio_enabled(false);
    assert_eq!(session.audio_action(), AudioAction::Stop);
}

#[test]
fn an_announcement_carries_its_limits() {
    let announcement = peer_announcement(
        "id",
        "desk",
        PeerRole::Receiver,
        5004,
        Some(5005),
        "0000",
        47779,
        Some(DisplayInfo::new(1920, 1080, Some(60))),
        Some((1920, 1088)),
    )
    .unwrap();
    assert_eq!(announcement.audio_port, Some(5005));
    assert_eq!(announcement.diagnostics_port, Some(47779));
    assert_eq!(
        announcement.display.unwrap().decode_limits(),
        Some((1920, 1088))
    );
    assert!(peer_announcement("i", "d", PeerRole::Idle, 1, None, "x", 1, None, None).is_err());
}

#[test]
fn announcements_repeat_once_a_second() {
    let mut schedule = AnnounceSchedule::new(500);
    assert!(schedule.take_due(500));
    assert!(!schedule.take_due(1_499));
    assert!(schedule.take_due(1_500));
}

#[test]
fn a_machine_is_named_after_its_environment() {
    let text = |value: &str| Some(value.to_string());
    assert_eq!(device_name(text("PC"), text("host")), "PC");
    assert_eq!(device_name(None, text("host")), "host");
    assert!(!device_name(None, None).is_empty());
    assert!(instance_id("PC", 42).contains("42"));
}
