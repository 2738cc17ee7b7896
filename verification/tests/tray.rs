use screen_mirror::config::{AppConfig, ConfigSampling, StartupMode};
use screen_mirror::gpu::{GpuAdapter, AUTO};
use screen_mirror::monitors::DisplayMonitor;
use screen_mirror::tray_app::{
    apply_audio_toggle, attached_status, audio_ended, mode_at_startup, pipeline_ended,
    releases_sender_virtual_displays, remember_mode, restore_audio, select_frame_rate, select_gpu,
    select_sampling, session_blocks_update, stop_result, toggle_audio, vdd_status_report,
    AudioStep, PipelineEnd, ReceiverStart, Selection, SenderStart, TrayClicks,
};
use screen_mirror::tray_menu::{
    app_tooltip, frame_rate_choices, frame_rate_for_menu_id, frame_rate_menu_rates,
    gpu_choice_is_active, gpu_choice_selection_and_label, gpu_choices, icon_rgba, menu_action,
    menu_layout, sampling_choices, sampling_for_menu_id, status_line, ActiveMode, GpuSide,
    MenuAction, MenuEntry, GPU_RECV_PREFIX, GPU_SEND_PREFIX,
};

#[test]
fn only_a_sender_session_hands_back_its_virtual_displays() {
    assert!(releases_sender_virtual_displays(ActiveMode::Sender, true));
    assert!(!releases_sender_virtual_displays(
        ActiveMode::Receiver,
        true
    ));
    assert!(!releases_sender_virtual_displays(ActiveMode::Idle, true));
}

#[test]
fn a_sender_that_never_created_virtual_displays_leaves_the_driver_alone() {
    assert!(!releases_sender_virtual_displays(ActiveMode::Sender, false));
}

#[test]
fn the_frame_rate_menu_offers_the_standard_rates() {
    assert_eq!(frame_rate_menu_rates(30), vec![15, 30, 60]);
}

#[test]
fn a_hand_edited_frame_rate_stays_visible_and_selectable() {
    assert_eq!(frame_rate_menu_rates(90), vec![15, 30, 60, 90]);
    assert_eq!(frame_rate_menu_rates(24), vec![15, 24, 30, 60]);
}

#[test]
fn a_frame_rate_menu_click_resolves_to_the_rate_it_shows() {
    let choices = frame_rate_choices(60);
    let rates = frame_rate_menu_rates(60);

    assert_eq!(
        rates.iter().filter(|fps| **fps == 60).count(),
        1,
        "the configured rate must appear exactly once or the tick is ambiguous"
    );
    assert_eq!(choices.len(), rates.len());
    for (choice, fps) in choices.iter().zip(&rates) {
        assert_eq!(frame_rate_for_menu_id(&choice.id), Some(*fps));
        assert_eq!(choice.label, format!("{fps} fps"));
        assert_eq!(choice.checked, *fps == 60);
    }
}

#[test]
fn menu_ids_from_other_submenus_are_not_read_as_frame_rates() {
    assert_eq!(frame_rate_for_menu_id("gpu-send:0"), None);
    assert_eq!(frame_rate_for_menu_id("fps:auto"), None);
}

fn adapter(index: u32, description: &str) -> GpuAdapter {
    GpuAdapter {
        index,
        luid: index as i64 + 1,
        vendor_id: 0x10DE,
        device_id: 0,
        description: description.to_string(),
    }
}

#[test]
fn distinct_gpu_names_are_stored_by_name() {
    let adapters = vec![
        adapter(0, "NVIDIA GeForce RTX 4060 Ti"),
        adapter(1, "AMD Radeon Graphics"),
    ];
    let (selection, label) = gpu_choice_selection_and_label(&adapters, &adapters[1]);
    assert_eq!(selection, "AMD Radeon Graphics");
    assert_eq!(label, "AMD Radeon Graphics");
}

#[test]
fn repeated_gpu_names_fall_back_to_the_adapter_index() {
    let adapters = vec![
        adapter(0, "Intel(R) HD Graphics"),
        adapter(1, "Intel(R) HD Graphics"),
    ];
    let (selection, label) = gpu_choice_selection_and_label(&adapters, &adapters[1]);
    assert_eq!(selection, "1");
    assert_eq!(label, "Intel(R) HD Graphics (GPU 1)");
}

#[test]
fn only_the_configured_gpu_choice_is_checked() {
    assert!(gpu_choice_is_active("auto", AUTO));
    assert!(gpu_choice_is_active("", AUTO));
    assert!(!gpu_choice_is_active("1", AUTO));
    assert!(gpu_choice_is_active(
        "amd radeon graphics",
        "AMD Radeon Graphics"
    ));
    assert!(!gpu_choice_is_active("auto", "AMD Radeon Graphics"));
    assert!(!gpu_choice_is_active("0", "1"));
}

fn ids(entries: &[MenuEntry]) -> Vec<String> {
    entries
        .iter()
        .map(|entry| match entry {
            MenuEntry::Item { id, .. } => id.clone(),
            MenuEntry::Separator => "-".to_string(),
            MenuEntry::Submenu { title, .. } => format!("[{title}]"),
        })
        .collect()
}

#[test]
fn the_menu_has_its_entries_in_order() {
    let config = AppConfig::default();
    let one = vec![adapter(0, "one")];
    let layout = menu_layout(&config, ActiveMode::Idle, &one);
    assert_eq!(
        ids(&layout),
        vec![
            "status",
            "-",
            "start-sender",
            "start-receiver",
            "stop",
            "toggle-audio",
            "-",
            "[Capture Frame Rate]",
            "[Scaling Filter]",
            "-",
            "autostart",
            "check-update",
            "run-diagnostics",
            "run-peer-diagnostics",
            "-",
            "install-vdd",
            "list-vdd",
            "attach-vdd",
            "enable-vdd",
            "disable-vdd",
            "remove-vdd",
            "open-display-settings",
            "open-vdd",
            "open-config",
            "reload-config",
            "-",
            "quit",
        ]
    );
    let two = vec![adapter(0, "one"), adapter(1, "two")];
    let layout = menu_layout(&config, ActiveMode::Idle, &two);
    assert_eq!(ids(&layout)[9], "[Sender GPU]");
    assert_eq!(ids(&layout)[10], "[Receiver GPU]");
    assert_eq!(layout.len(), 29);
}

#[test]
fn the_menu_shows_what_is_running() {
    let mut config = AppConfig::default();
    config.send.audio_enabled = true;
    config.recv.audio_enabled = true;
    config.autostart = false;
    let layout = menu_layout(&config, ActiveMode::Receiver, &Vec::new());
    let item = |wanted: &str| {
        layout
            .iter()
            .find_map(|entry| match entry {
                MenuEntry::Item { id, label, enabled } if id == wanted => {
                    Some((label.clone(), *enabled))
                }
                _ => None,
            })
            .unwrap()
    };
    assert_eq!(
        item("status"),
        ("Status: receiving on :5004 (audio on)".to_string(), false)
    );
    assert_eq!(item("start-sender"), ("Start as Sender".to_string(), true));
    assert_eq!(
        item("start-receiver"),
        ("Start as Receiver".to_string(), false)
    );
    assert_eq!(item("stop"), ("Stop".to_string(), true));
    assert_eq!(item("toggle-audio").0, "Disable System Audio Transfer");
    assert_eq!(item("autostart").0, "Enable Autostart");
}

#[test]
fn the_status_line_names_the_target() {
    let mut config = AppConfig::default();
    config.send.host = "AUTO".to_string();
    assert_eq!(status_line(&config, ActiveMode::Idle), "Status: stopped");
    assert_eq!(
        status_line(&config, ActiveMode::Sender),
        "Status: sending to auto:5004 (audio off)"
    );
    config.send.host = "10.0.0.2".to_string();
    config.send.audio_enabled = true;
    assert_eq!(
        status_line(&config, ActiveMode::Sender),
        "Status: sending to 10.0.0.2:5004 (audio on)"
    );
}

#[test]
fn every_entry_of_the_menu_has_an_action() {
    let config = AppConfig::default();
    let two = vec![adapter(0, "one"), adapter(1, "two")];
    for entry in menu_layout(&config, ActiveMode::Idle, &two) {
        match entry {
            MenuEntry::Item { id, .. } if id != "status" => {
                assert_ne!(menu_action(&id), MenuAction::Nothing, "{id}")
            }
            MenuEntry::Submenu { choices, .. } => {
                for choice in choices {
                    assert_ne!(menu_action(&choice.id), MenuAction::Nothing, "{}", choice.id);
                }
            }
            _ => {}
        }
    }
    assert_eq!(menu_action("stop"), MenuAction::Stop);
    assert_eq!(
        menu_action("gpu-send:1"),
        MenuAction::SelectGpu(GpuSide::Sender)
    );
    assert_eq!(
        menu_action("gpu-recv:auto"),
        MenuAction::SelectGpu(GpuSide::Receiver)
    );
    assert_eq!(menu_action("fps:30"), MenuAction::SelectFrameRate);
    assert_eq!(menu_action("sampling:point"), MenuAction::SelectSampling);
    assert_eq!(menu_action("status"), MenuAction::Nothing);
    assert_eq!(menu_action(""), MenuAction::Nothing);
}

#[test]
fn a_gpu_pick_is_stored_and_restarts_its_own_side() {
    let adapters = vec![adapter(0, "one"), adapter(1, "two")];
    let mut config = AppConfig::default();
    let choices = gpu_choices(GPU_SEND_PREFIX, &adapters, &config.send.gpu);
    assert_eq!(choices.len(), 3);
    assert_eq!(choices[0].label, "Automatic");
    assert!(choices[0].checked);
    assert_eq!(choices[2].id, "gpu-send:1");
    let mode = ActiveMode::Sender;
    assert_eq!(
        select_gpu(&mut config, mode, GpuSide::Sender, &choices, "gpu-send:7"),
        Selection::Unknown
    );
    assert_eq!(
        select_gpu(&mut config, mode, GpuSide::Sender, &choices, "gpu-send:auto"),
        Selection::Unchanged
    );
    assert_eq!(
        select_gpu(&mut config, mode, GpuSide::Sender, &choices, "gpu-send:1"),
        Selection::Changed { restart: true }
    );
    assert_eq!(config.send.gpu, "two");
    assert_eq!(config.recv.gpu, "auto");
    let choices = gpu_choices(GPU_RECV_PREFIX, &adapters, &config.recv.gpu);
    assert_eq!(
        select_gpu(&mut config, mode, GpuSide::Receiver, &choices, "gpu-recv:0"),
        Selection::Changed { restart: false }
    );
    assert_eq!(config.recv.gpu, "one");
    assert_eq!(GpuSide::Sender.label(), "sender");
    assert_eq!(GpuSide::Receiver.label(), "receiver");
}

#[test]
fn a_frame_rate_restarts_a_sender_only() {
    let mut config = AppConfig::default();
    assert_eq!(
        select_frame_rate(&mut config, ActiveMode::Sender, "fps:x"),
        Selection::Unknown
    );
    assert_eq!(
        select_frame_rate(&mut config, ActiveMode::Sender, "fps:30"),
        Selection::Unchanged
    );
    assert_eq!(
        select_frame_rate(&mut config, ActiveMode::Receiver, "fps:60"),
        Selection::Changed { restart: false }
    );
    assert_eq!(config.send.fps, 60);
    assert_eq!(
        select_frame_rate(&mut config, ActiveMode::Sender, "fps:15"),
        Selection::Changed { restart: true }
    );
}

#[test]
fn a_scaling_filter_restarts_a_receiver_only() {
    let mut config = AppConfig::default();
    assert_eq!(
        select_sampling(&mut config, ActiveMode::Receiver, "sampling:cubic"),
        Selection::Unknown
    );
    assert_eq!(
        select_sampling(&mut config, ActiveMode::Receiver, "sampling:auto"),
        Selection::Unchanged
    );
    assert_eq!(
        select_sampling(&mut config, ActiveMode::Receiver, "sampling:point"),
        Selection::Changed { restart: true }
    );
    assert_eq!(config.recv.sampling, ConfigSampling::Point);
    assert_eq!(
        select_sampling(&mut config, ActiveMode::Sender, "sampling:linear"),
        Selection::Changed { restart: false }
    );
    for choice in sampling_choices(config.recv.sampling) {
        let sampling = sampling_for_menu_id(&choice.id).unwrap();
        assert_eq!(choice.checked, sampling == ConfigSampling::Linear);
        assert_eq!(choice.id, format!("sampling:{}", sampling.key()));
    }
}

#[test]
fn audio_is_toggled_for_both_directions_and_can_be_taken_back() {
    let mut config = AppConfig::default();
    config.send.audio_enabled = true;
    let before = toggle_audio(&mut config);
    assert!(config.send.audio_enabled && config.recv.audio_enabled);
    restore_audio(&mut config, before);
    assert!(config.send.audio_enabled);
    assert!(!config.recv.audio_enabled);
    toggle_audio(&mut config);
    toggle_audio(&mut config);
    assert!(!config.send.audio_enabled && !config.recv.audio_enabled);
}

#[test]
fn a_toggle_touches_the_audio_pipeline_alone() {
    let step = apply_audio_toggle;
    assert_eq!(step(ActiveMode::Idle, true, false, false), AudioStep::Nothing);
    assert_eq!(step(ActiveMode::Sender, true, true, false), AudioStep::TellSupervisor);
    assert_eq!(step(ActiveMode::Sender, true, false, false), AudioStep::StartSenderAudio);
    assert_eq!(step(ActiveMode::Sender, true, false, true), AudioStep::Nothing);
    assert_eq!(step(ActiveMode::Sender, false, false, true), AudioStep::StopAudio);
    assert_eq!(
        step(ActiveMode::Receiver, true, false, false),
        AudioStep::StartReceiverAudio
    );
    assert_eq!(step(ActiveMode::Receiver, false, false, true), AudioStep::StopAudio);
    assert_eq!(step(ActiveMode::Receiver, false, false, false), AudioStep::Nothing);
}

#[test]
fn audio_that_ends_by_itself_is_off_in_the_running_mode() {
    let mut config = AppConfig::default();
    config.send.audio_enabled = true;
    config.recv.audio_enabled = true;
    audio_ended(&mut config, ActiveMode::Idle);
    assert!(config.send.audio_enabled && config.recv.audio_enabled);
    audio_ended(&mut config, ActiveMode::Receiver);
    assert!(config.send.audio_enabled && !config.recv.audio_enabled);
    audio_ended(&mut config, ActiveMode::Sender);
    assert!(!config.send.audio_enabled);
}

#[test]
fn a_sender_is_started_step_by_step() {
    let mut step = SenderStart::ReloadConfig;
    let mut seen = Vec::new();
    while step != SenderStart::Running {
        seen.push(step);
        step.step(None, false, true).unwrap();
    }
    assert_eq!(
        seen,
        vec![
            SenderStart::ReloadConfig,
            SenderStart::StopCurrent,
            SenderStart::StartControl,
            SenderStart::Announce,
            SenderStart::ResolveReceivers,
            SenderStart::BuildVideo,
            SenderStart::BuildAudio,
            SenderStart::SpawnVideo,
            SenderStart::SpawnAudio,
        ]
    );
    let mut step = SenderStart::Announce;
    step.step(Some("port in use"), true, false).unwrap();
    assert_eq!(step, SenderStart::Supervise);
    step.step(None, true, false).unwrap();
    assert_eq!(step, SenderStart::Running);
    for (at, message) in [
        (SenderStart::ReloadConfig, "Config reload failed: x"),
        (SenderStart::StopCurrent, "Stop failed: x"),
        (SenderStart::ResolveReceivers, "Receiver discovery failed: x"),
        (SenderStart::BuildVideo, "Sender start failed: x"),
        (SenderStart::BuildAudio, "Sender audio start failed: x"),
    ] {
        let mut failing = at;
        assert_eq!(failing.step(Some("x"), false, true).unwrap_err(), message);
        assert_eq!(failing, at);
    }
}

#[test]
fn a_receiver_is_started_step_by_step() {
    let mut step = ReceiverStart::ReloadConfig;
    let mut seen = Vec::new();
    while step != ReceiverStart::Running {
        seen.push(step);
        step.step(None, false).unwrap();
    }
    assert_eq!(
        seen,
        vec![
            ReceiverStart::ReloadConfig,
            ReceiverStart::EndSession,
            ReceiverStart::BuildVideo,
            ReceiverStart::SpawnVideo,
            ReceiverStart::GuardWindow,
            ReceiverStart::Announce,
        ]
    );
    let mut step = ReceiverStart::Announce;
    step.step(Some("port in use"), true).unwrap();
    assert_eq!(step, ReceiverStart::Running);
    for (at, message) in [
        (ReceiverStart::ReloadConfig, "Config reload failed: x"),
        (ReceiverStart::EndSession, "Stop failed: x"),
        (ReceiverStart::BuildVideo, "Receiver start failed: x"),
        (ReceiverStart::BuildAudio, "Receiver audio start failed: x"),
    ] {
        let mut failing = at;
        assert_eq!(failing.step(Some("x"), true).unwrap_err(), message);
    }
}

#[test]
fn a_receiver_listens_again_after_a_disconnect() {
    assert_eq!(
        pipeline_ended(ActiveMode::Receiver, true, None, None),
        PipelineEnd::Restart
    );
    assert_eq!(
        pipeline_ended(ActiveMode::Receiver, true, None, Some("no decoder")),
        PipelineEnd::GoIdle {
            release_displays: false,
            error: Some("Receiver restart failed: no decoder".to_string())
        }
    );
    assert_eq!(
        pipeline_ended(ActiveMode::Receiver, true, Some("lost"), None),
        PipelineEnd::GoIdle {
            release_displays: false,
            error: Some("Pipeline stopped: lost".to_string())
        }
    );
    assert_eq!(
        pipeline_ended(ActiveMode::Sender, true, None, None),
        PipelineEnd::GoIdle {
            release_displays: true,
            error: None
        }
    );
}

#[test]
fn the_first_error_of_a_stop_is_told() {
    let error = |text: &str| Some(text.to_string());
    assert_eq!(stop_result(None, None), Ok(()));
    assert_eq!(stop_result(None, error("video")), Err("video".to_string()));
    assert_eq!(
        stop_result(error("audio"), error("video")),
        Err("audio".to_string())
    );
}

#[test]
fn the_mode_is_remembered_across_starts() {
    let mut config = AppConfig::default();
    for mode in [ActiveMode::Sender, ActiveMode::Receiver, ActiveMode::Idle] {
        remember_mode(&mut config, mode);
        assert_eq!(mode_at_startup(&config), mode);
        assert_eq!(session_blocks_update(mode), mode == ActiveMode::Receiver);
    }
    assert!(matches!(config.startup_mode, StartupMode::Idle));
}

#[test]
fn a_right_click_shows_the_menu_once() {
    let mut clicks = TrayClicks::new();
    clicks.button_down(1_000);
    assert_eq!(clicks.poll(1_349), None);
    assert!(clicks.button_up(1_349));
    assert_eq!(clicks.poll(5_000), None);
    clicks.menu_closed(5_000);
    clicks.button_down(5_100);
    assert!(!clicks.button_up(5_749));
    clicks.button_down(6_000);
    assert_eq!(clicks.poll(6_349), None);
    assert_eq!(clicks.poll(6_350), Some(true));
    assert_eq!(clicks.pending_right_click, None);
}

fn monitor(name: &str, bundled: bool, attached: bool) -> DisplayMonitor {
    DisplayMonitor {
        capture_index: if attached { Some(0) } else { None },
        monitor_handle: if attached { Some(7) } else { None },
        adapter_name: name.to_string(),
        adapter_description: "adapter".to_string(),
        monitor_name: None,
        monitor_description: None,
        device_id: "id".to_string(),
        attached,
        primary: false,
        mirroring: false,
        virtual_candidate: bundled,
        bundled_virtual_display: bundled,
    }
}

#[test]
fn the_display_report_lists_ready_and_detached_displays() {
    assert_eq!(
        vdd_status_report(&Vec::new()),
        "Screen Mirror Virtual Display Status\r\n\r\nNo Windows display devices found.\r\n\r\n\
         Bundled virtual displays ready to capture: 0\r\n\
         Bundled virtual displays detached from the desktop: 0"
    );
    let monitors = vec![
        monitor("D1", false, true),
        monitor("D2", true, true),
        monitor("D3", true, false),
    ];
    let report = vdd_status_report(&monitors);
    let lines: Vec<&str> = report.split("\r\n").collect();
    assert_eq!(lines[2], monitors[0].summary());
    assert_eq!(lines[5], "");
    assert_eq!(lines[6], "Bundled virtual displays ready to capture: 1");
    assert_eq!(lines[7], "  D2");
    assert_eq!(
        lines[8],
        "Bundled virtual displays detached from the desktop: 1"
    );
    assert_eq!(lines[9], "  D3");
    assert!(lines[11].starts_with("A detached virtual display cannot be captured."));
    assert_eq!(
        attached_status(2),
        "Status: 2 virtual display(s) capture-ready"
    );
}

#[test]
fn the_built_in_icon_is_a_screen() {
    let rgba = icon_rgba();
    assert_eq!(rgba.len(), 4096);
    let pixel = |x: usize, y: usize| &rgba[(y * 32 + x) * 4..(y * 32 + x) * 4 + 4];
    assert_eq!(pixel(0, 0), &[0, 0, 0, 0]);
    assert_eq!(pixel(3, 6), &[248, 181, 0, 255]);
    assert_eq!(pixel(16, 14), &[248, 181, 0, 255]);
    assert_eq!(pixel(10, 27), &[248, 181, 0, 255]);
    assert_eq!(pixel(8, 12), &[0, 0, 0, 0]);
    assert_eq!(app_tooltip("0.1.58"), "Screen Mirror v0.1.58");
}
