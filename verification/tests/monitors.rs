use screen_mirror::discovery::DisplayInfo;
use screen_mirror::monitors::{
    bundled_endpoint_count, bundled_virtual_capture_targets, detected_nvidia_gpu_name,
    display_mode_matches, ensure_bundled_virtual_display_installed, log_monitor_inventory,
    looks_like_bundled_virtual_display, looks_like_virtual_display,
    preferred_virtual_monitor_index, primary_display_info, remove_bundled_virtual_display,
    resolve_capture_monitor_index, sync_virtual_display_mode, DeviceMode, DisplayMode, DisplayMonitor, ModeAction,
    ModeChange, ModeError, CHANGE_BADMODE, CHANGE_SUCCESSFUL, DISPLAY_MODE_VERIFY_TIMEOUT_MS,
};
use screen_mirror::vdd::VddAction;
use screen_mirror::topology::{
    attach_mode_for, clamp_display_count, desktop_right_edge, detached_bundled_displays,
    enumerate_monitors, AttachProgress, CountAction, CountWait, DeviceNames, DeviceRecord,
    MonitorHandleInfo, ReadyAction, ReadyStage,
};

#[test]
fn bundled_vdd_requires_mtt_identity() {
    assert!(looks_like_bundled_virtual_display(
        r"MONITOR\MTT1337 Generic Monitor (VDD by MTT)"
    ));
    assert!(!looks_like_bundled_virtual_display(
        r"SuperDisplay Virtual Adapter MONITOR\Default_Monitor"
    ));
    assert!(!looks_like_bundled_virtual_display(
        "Virtual Display Driver"
    ));
}

#[test]
fn display_mode_matching_requires_dimensions_and_requested_refresh() {
    let mode = DisplayMode {
        width: 1920,
        height: 1080,
        refresh_hz: Some(60),
    };

    assert!(display_mode_matches(&mode, 1920, 1080, None));
    assert!(display_mode_matches(&mode, 1920, 1080, Some(60)));
    assert!(!display_mode_matches(&mode, 2560, 1080, Some(60)));
    assert!(!display_mode_matches(&mode, 1920, 1080, Some(30)));
}

fn monitor(name: &str, index: Option<i32>, bundled: bool) -> DisplayMonitor {
    DisplayMonitor {
        capture_index: index,
        monitor_handle: index.map(|index| index as u64 + 100),
        adapter_name: name.to_string(),
        adapter_description: "NVIDIA GeForce RTX 4060".to_string(),
        monitor_name: None,
        monitor_description: None,
        device_id: "id".to_string(),
        attached: index.is_some(),
        primary: name == "P",
        mirroring: false,
        virtual_candidate: bundled,
        bundled_virtual_display: bundled,
    }
}

#[test]
fn the_preferred_virtual_display_is_captured_unless_another_is_asked_for() {
    let monitors = vec![monitor("P", Some(0), false), monitor("V", Some(3), true)];
    assert_eq!(preferred_virtual_monitor_index(&monitors), Some(3));
    assert_eq!(resolve_capture_monitor_index(-1, true, &monitors), 3);
    assert_eq!(resolve_capture_monitor_index(-1, false, &monitors), -1);
    assert_eq!(resolve_capture_monitor_index(1, true, &monitors), 1);
    assert_eq!(
        detected_nvidia_gpu_name(&monitors).unwrap(),
        "NVIDIA GeForce RTX 4060 id P"
    );
    assert!(looks_like_virtual_display("Virtual Display Driver"));
    assert!(!looks_like_virtual_display("NVIDIA GeForce"));
}

#[test]
fn bundled_displays_are_counted_by_endpoint_and_by_capturability() {
    let monitors = vec![
        monitor("P", Some(0), false),
        monitor("V1", Some(1), true),
        monitor("V2", None, true),
    ];
    assert_eq!(bundled_endpoint_count(&monitors), 2);
    let targets = bundled_virtual_capture_targets(&monitors);
    assert_eq!(targets.len(), 1);
    assert_eq!(targets[0].adapter_name, "V1");
    let detached = detached_bundled_displays(&monitors);
    assert_eq!(detached.len(), 1);
    assert_eq!(detached[0].adapter_name, "V2");
}

#[test]
fn the_primary_display_is_announced_with_its_mode() {
    let monitors = vec![monitor("V", Some(1), true), monitor("P", Some(0), false)];
    let mode = |name: &str, width| DeviceMode {
        device_name: name.to_string(),
        mode: Some(DisplayMode {
            width,
            height: 1080,
            refresh_hz: Some(60),
        }),
    };
    assert_eq!(
        primary_display_info(&monitors, &vec![mode("V", 1280), mode("P", 1920)]),
        Some(DisplayInfo::new(1920, 1080, Some(60)))
    );
    assert_eq!(
        sync_virtual_display_mode(Some(&DisplayInfo::new(800, 600, None))),
        Some(DisplayMode {
            width: 800,
            height: 600,
            refresh_hz: None
        })
    );
    assert_eq!(sync_virtual_display_mode(None), None);
}

#[test]
fn a_mode_change_is_confirmed_before_it_counts() {
    let shown = |width, refresh_hz| {
        Some(DisplayMode {
            width,
            height: 1080,
            refresh_hz,
        })
    };
    let (_, action) = ModeChange::begin(1920, 1080, Some(60), shown(1920, Some(60)));
    assert_eq!(action, ModeAction::Done);
    let (mut change, action) = ModeChange::begin(1920, 1080, Some(60), shown(1280, Some(60)));
    assert_eq!(
        action,
        ModeAction::Apply {
            refresh_hz: Some(60)
        }
    );
    assert_eq!(change.answered(CHANGE_SUCCESSFUL, 1_000), ModeAction::Wait);
    assert_eq!(change.looked(1_100, shown(1280, Some(60))), ModeAction::Wait);
    assert_eq!(change.looked(1_200, shown(1920, Some(60))), ModeAction::Done);
}

#[test]
fn a_refused_mode_is_tried_without_its_refresh_rate() {
    let small = Some(DisplayMode {
        width: 800,
        height: 600,
        refresh_hz: None,
    });
    let (_, action) = ModeChange::begin(1920, 1080, Some(144), None);
    assert_eq!(action, ModeAction::Failed(ModeError::Unreadable));
    let (mut change, _) = ModeChange::begin(1920, 1080, Some(144), small);
    assert_eq!(
        change.answered(CHANGE_BADMODE, 0),
        ModeAction::Apply { refresh_hz: None }
    );
    assert_eq!(change.answered(CHANGE_SUCCESSFUL, 10), ModeAction::Wait);
    let late = 10 + DISPLAY_MODE_VERIFY_TIMEOUT_MS;
    assert_eq!(
        change.looked(late, small),
        ModeAction::Failed(ModeError::NotApplied)
    );
    assert_eq!(
        change.error_message("D", ModeError::NotApplied),
        "virtual display D did not apply 1920x1080 within 2000ms"
    );
    let (mut change, _) = ModeChange::begin(1920, 1080, None, small);
    assert_eq!(
        change.answered(CHANGE_BADMODE, 0),
        ModeAction::Failed(ModeError::Unsupported)
    );
    let (mut change, _) = ModeChange::begin(1920, 1080, None, small);
    assert!(matches!(
        change.answered(-1, 0),
        ModeAction::Failed(ModeError::Rejected { result: -1 })
    ));
}

fn wide(text: &str) -> Vec<u16> {
    let mut units: Vec<u16> = text.encode_utf16().collect();
    units.push(0);
    units
}

fn names(name: &str, description: &str, id: &str) -> DeviceNames {
    DeviceNames {
        name: wide(name),
        description: wide(description),
        id: wide(id),
    }
}

#[test]
fn devices_become_monitors_with_their_capture_index() {
    let records = vec![
        DeviceRecord {
            state_flags: 0x5,
            adapter: names("\\\\.\\DISPLAY1", "GPU", "PCI"),
            monitor: Some(names("m", "Generic PnP", "MONITOR\\ABC")),
        },
        DeviceRecord {
            state_flags: 0,
            adapter: names("\\\\.\\DISPLAY9", "Virtual Display Driver", "ROOT"),
            monitor: Some(names("m", "VDD by MTT", "MONITOR\\MTT1337")),
        },
    ];
    let handles = vec![MonitorHandleInfo {
        device_name: "\\\\.\\DISPLAY1".to_string(),
        handle: 77,
        monitor_index: 0,
    }];
    let monitors = enumerate_monitors(&records, &handles);
    assert_eq!(monitors.len(), 2);
    assert!(monitors[0].attached && monitors[0].primary);
    assert_eq!(monitors[0].monitor_handle, Some(77));
    assert_eq!(monitors[0].capture_index, Some(0));
    assert!(!monitors[1].attached);
    assert!(monitors[1].bundled_virtual_display);
    assert_eq!(monitors[1].capture_index, None);
}

#[test]
fn a_capturable_display_is_ready_at_once() {
    let ready = vec![monitor("V", Some(1), true)];
    let mut stage = ReadyStage::Starting;
    assert_eq!(stage.step(0, &ready, false), ReadyAction::Ready);
    let mut stage = ReadyStage::Starting;
    assert_eq!(stage.step(0, &Vec::new(), false), ReadyAction::Install);
}

#[test]
fn a_count_holds_for_two_samples_before_it_counts() {
    let one = vec![monitor("V", Some(1), true)];
    let mut wait = CountWait::new(1, 0);
    assert!(wait.still_waiting(29_999));
    assert!(!wait.still_waiting(30_000));
    assert_ne!(wait.sample(&one), CountAction::Done);
    assert_eq!(wait.sample(&one), CountAction::Done);
    assert_eq!(clamp_display_count(0), 1);
    assert_eq!(clamp_display_count(20), 8);
}

#[test]
fn detached_displays_are_attached_side_by_side() {
    let monitors = vec![monitor("P", Some(0), false), monitor("V", None, true)];
    let edge = desktop_right_edge(&monitors, &vec![Some((0, 1920)), None]);
    assert_eq!(edge, 1920);
    // Where a detached display would lie plays no part.
    let far = vec![Some((0, 1920)), Some((i32::MAX, u32::MAX))];
    assert_eq!(desktop_right_edge(&monitors, &far), 1920);
    let mut progress = AttachProgress::new(edge);
    progress.record(None);
    assert!(!progress.attached_any);
    progress.record(Some(1280));
    assert_eq!(progress.next_x, 3200);
    assert!(progress.finish(true));
    assert!(!progress.finish(false));
    assert_eq!(attach_mode_for(Some((800, 600)), &Vec::new()), (800, 600));
}

#[test]
fn the_driver_is_asked_only_for_what_is_missing_or_there() {
    let none = vec![monitor("\\\\.\\DISPLAY1", Some(0), false)];
    let some = vec![
        monitor("\\\\.\\DISPLAY1", Some(0), false),
        monitor("\\\\.\\DISPLAY2", None, true),
    ];
    assert_eq!(
        ensure_bundled_virtual_display_installed(&none),
        Some(VddAction::Install)
    );
    assert_eq!(ensure_bundled_virtual_display_installed(&some), None);
    assert_eq!(remove_bundled_virtual_display(&none), None);
    assert_eq!(
        remove_bundled_virtual_display(&some),
        Some(VddAction::Remove)
    );
    let lines = log_monitor_inventory("nothing found", &some);
    assert_eq!(lines.len(), 3);
    assert_eq!(lines[0], "nothing found; 2 display device(s) enumerated");
    assert_eq!(lines[1], format!("  {}", some[0].summary()));
}
