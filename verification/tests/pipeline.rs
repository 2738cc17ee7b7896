use screen_mirror::config::AppConfig;
use screen_mirror::decoders::{
    receiver_gpu_profile, selected_is_only_adapter, selected_is_only_vendor_adapter,
    should_try_modern_intel_d3d12, software_decoder, software_h264_decoders, ReceiverDecoder,
    ReceiverGpuProfile,
};
use screen_mirror::elements::{
    CapsDimension, CapsStructure, ElementInfo, ElementRegistry, PadTemplate, PipelineError,
    ReceiverMemory, SENDER_VIDEO_ENCODER_NAME,
};
use screen_mirror::encoders::{encoder_on_gpu, select_encoder, EncoderFamily, SelectedEncoder};
use screen_mirror::gpu::GpuAdapter;
use screen_mirror::monitors::DisplayMonitor;
use screen_mirror::pipeline::{
    build_receiver_pipeline, build_receiver_pipeline_plan, build_receiver_video_plan,
    build_sender_audio_pipeline, build_sender_pipeline, build_sender_video_pipeline_for,
    capture_monitor_for_index, capture_source_for_target, gst_string_literal, multi_udp_clients,
    multi_udp_clients_force_port, probe_elements, probed_elements, split_hosts, video_caps,
    CaptureApi, Decoder, Encoder, Machine, NvidiaTuning, ReceiverFallbackRoute,
    ReceiverPipelinePlan, Sink,
};
use screen_mirror::runtime::{
    exhausted_context, is_h264_decoder, next_route, run_step, runtime_memory, BusMessage,
    JitterCounts, KeyUnitNotice, KeyUnitOutcome, KeyUnitSchedule, PlanStep, RunStep, StreamWindow,
    FORCE_KEY_UNIT_INTERVAL_MS,
};

#[test]
fn probe_reports_on_every_decoder_the_receiver_can_fall_back_to() {
    let probed = probed_elements();

    for decoder in software_h264_decoders() {
        assert!(
            probed.contains(&("cpu decode", decoder)),
            "probe never mentions {decoder}, so a build that ships it looks like it cannot decode on the CPU"
        );
    }
}

fn virtual_monitor(handle: Option<u64>, bundled: bool) -> DisplayMonitor {
    DisplayMonitor {
        capture_index: Some(2),
        monitor_handle: handle,
        adapter_name: r"\\.\DISPLAY24".to_string(),
        adapter_description: "Virtual Display Driver".to_string(),
        monitor_name: None,
        monitor_description: Some("Generic Monitor (VDD by MTT)".to_string()),
        device_id: r"MONITOR\MTT1337\test".to_string(),
        attached: true,
        primary: false,
        mirroring: false,
        virtual_candidate: true,
        bundled_virtual_display: bundled,
    }
}

#[test]
fn stable_monitor_handle_wins_over_ambiguous_index() {
    let source = capture_source_for_target(
        CaptureApi::Dxgi,
        "true",
        &virtual_monitor(Some(31_199_895), true),
    )
    .unwrap();

    assert!(source.contains("capture-api=dxgi"));
    assert!(source.contains("monitor-handle=31199895"));
    assert!(!source.contains("monitor-index="));
}

#[test]
fn bundled_vdd_without_handle_does_not_fall_back_to_index() {
    let error = capture_source_for_target(CaptureApi::Dxgi, "true", &virtual_monitor(None, true))
        .unwrap_err();

    assert!(error.message().contains("refusing ambiguous monitor-index"));
}

#[test]
fn d3d11_caps_keep_frames_on_gpu_without_download() {
    let caps = video_caps(30, Some(1920), Some(1080), true);
    assert!(caps.contains("memory:D3D11Memory"));
    assert!(!caps.contains("d3d11download"));
}

#[test]
fn system_memory_caps_convert_to_nv12_before_download() {
    let caps = video_caps(30, Some(1920), Some(1080), false);
    let gpu_nv12 = caps
        .find("video/x-raw(memory:D3D11Memory),format=NV12")
        .expect("GPU NV12 conversion");
    let download = caps.find("d3d11download").expect("D3D11 download");
    let system_nv12 = caps
        .rfind("video/x-raw,format=NV12")
        .expect("system-memory NV12 caps");

    assert!(gpu_nv12 < download);
    assert!(download < system_nv12);
    assert!(!caps.contains("videoconvert"));
}

/// The jitter buffer reports running totals, so a report window has to subtract the last one.
/// Reporting the totals instead made every window look worse than the one before it.
#[test]
fn jitter_counts_report_the_window_and_not_the_session() {
    let earlier = JitterCounts {
        pushed: 1_000,
        lost: 5,
        late: 2,
        duplicates: 1,
    };
    let now = JitterCounts {
        pushed: 4_500,
        lost: 5,
        late: 9,
        duplicates: 1,
    };

    assert_eq!(
        now.since(earlier),
        JitterCounts {
            pushed: 3_500,
            lost: 0,
            late: 7,
            duplicates: 0,
        }
    );
}

/// A restarted jitter buffer resets its totals, and a window that spans the restart must not
/// wrap into billions of packets.
#[test]
fn jitter_counts_that_went_backwards_report_nothing_rather_than_wrapping() {
    let after_reset = JitterCounts::default().since(JitterCounts {
        pushed: 4_500,
        lost: 5,
        late: 9,
        duplicates: 1,
    });

    assert_eq!(after_reset, JitterCounts::default());
}

#[test]
fn receiver_gpu_profiles_follow_vendor_ids() {
    let adapter = |vendor_id| GpuAdapter {
        index: 0,
        luid: 1,
        vendor_id,
        device_id: 0,
        description: "test".to_string(),
    };

    assert_eq!(
        receiver_gpu_profile(Some(&adapter(0x10DE))),
        ReceiverGpuProfile::Nvidia
    );
    assert_eq!(
        receiver_gpu_profile(Some(&adapter(0x1002))),
        ReceiverGpuProfile::Amd
    );
    assert_eq!(
        receiver_gpu_profile(Some(&adapter(0x8086))),
        ReceiverGpuProfile::Intel
    );
    assert_eq!(receiver_gpu_profile(None), ReceiverGpuProfile::Other);
}

#[test]
fn d3d11_receiver_decoder_requires_gpu_memory_caps() {
    let decoder = ReceiverDecoder::new("d3d11h264dec", ReceiverMemory::D3d11);

    assert!(decoder
        .pipeline_element()
        .contains("name=receiver_video_decoder"));
    assert_eq!(
        decoder.output_caps_for("d3d11videosink"),
        " ! video/x-raw(memory:D3D11Memory),format=NV12"
    );
    assert_eq!(
        decoder.memory_label_for("d3d11videosink"),
        "D3D11Memory/NV12"
    );
    assert_eq!(decoder.output_caps_for("autovideosink"), "");
}

#[test]
fn explicit_auto_video_sink_keeps_d3d11_memory_negotiated() {
    let decoder = ReceiverDecoder::new("d3d11h264dec", ReceiverMemory::D3d11);

    assert_eq!(decoder.output_caps_for("autovideosink"), "");
    assert_eq!(decoder.memory_label_for("autovideosink"), "negotiated");
}

#[test]
fn software_or_vendor_fallback_decoder_leaves_memory_negotiated() {
    let decoder = ReceiverDecoder::new("decodebin", ReceiverMemory::Negotiated);

    assert_eq!(decoder.output_caps_for("d3d11videosink"), "");
    assert_eq!(decoder.memory_label_for("d3d11videosink"), "negotiated");
}

#[test]
fn cross_adapter_fallback_forces_system_memory() {
    let decoder =
        ReceiverDecoder::new("decodebin", ReceiverMemory::Negotiated).with_system_memory();

    assert_eq!(decoder.output_caps_for("d3d11videosink"), " ! video/x-raw");
    assert_eq!(decoder.memory_label_for("d3d11videosink"), "system-memory");
}

#[test]
fn d3d12_receiver_route_pins_d3d12_memory() {
    let decoder = ReceiverDecoder::new("d3d12h264dec", ReceiverMemory::D3d12);

    assert_eq!(
        decoder.output_caps_for("d3d12videosink"),
        " ! video/x-raw(memory:D3D12Memory),format=NV12"
    );
    assert_eq!(
        decoder.memory_label_for("d3d12videosink"),
        "D3D12Memory/NV12"
    );
    assert_eq!(decoder.output_caps_for("d3d11videosink"), "");
}

#[test]
fn modern_intel_d3d12_route_requires_both_auto_settings() {
    let intel = GpuAdapter {
        index: 0,
        luid: 1,
        vendor_id: 0x8086,
        device_id: 0xB080,
        description: "Intel Arc B390".to_string(),
    };
    let nvidia = GpuAdapter {
        vendor_id: 0x10DE,
        ..intel.clone()
    };

    assert!(should_try_modern_intel_d3d12(
        Decoder::Auto,
        Sink::Auto,
        Some(&intel)
    ));
    assert!(!should_try_modern_intel_d3d12(
        Decoder::D3d11,
        Sink::Auto,
        Some(&intel)
    ));
    assert!(!should_try_modern_intel_d3d12(
        Decoder::Auto,
        Sink::D3d11,
        Some(&intel)
    ));
    assert!(!should_try_modern_intel_d3d12(
        Decoder::Auto,
        Sink::Auto,
        Some(&nvidia)
    ));
}

fn element(name: &str) -> ElementInfo {
    ElementInfo {
        name: name.to_string(),
        video_encoder: name.ends_with("enc"),
        decoder: name.ends_with("dec"),
        adapter_luid: None,
        properties: None,
        sinks_d3d11: false,
        sinks_d3d12: false,
        srcs_d3d11: false,
        srcs_d3d12: false,
        templates: Vec::new(),
    }
}

fn registry(names: &[&str]) -> ElementRegistry {
    ElementRegistry {
        elements: names.iter().map(|name| element(name)).collect(),
    }
}

fn machine(registry: ElementRegistry) -> Machine {
    Machine {
        registry,
        monitors: Vec::new(),
        adapters: Vec::new(),
        outputs: Vec::new(),
    }
}

fn h264_template(width: i32, height: i32) -> PadTemplate {
    PadTemplate {
        sink: true,
        any_caps: false,
        structures: vec![CapsStructure {
            name: "video/x-h264".to_string(),
            width: CapsDimension::Range { max: width },
            height: CapsDimension::Range { max: height },
        }],
    }
}

/// A machine with the elements of the installer: D3D11 decoding and rendering, and the bundled
/// software decoder.
fn receiver_machine() -> Machine {
    let mut d3d11 = element("d3d11h264dec");
    d3d11.srcs_d3d11 = true;
    d3d11.templates = vec![h264_template(1920, 1088)];
    let mut sink = element("d3d11videosink");
    sink.sinks_d3d11 = true;
    let mut found = registry(&[
        "openh264dec",
        "decodebin",
        "autovideosink",
        "opusdec",
        "audioconvert",
        "audioresample",
        "wasapi2sink",
        "autoaudiosink",
        "rtpopusdepay",
    ]);
    found.elements.push(d3d11);
    found.elements.push(sink);
    machine(found)
}

#[test]
fn receiver_plan_ends_with_a_software_route() {
    let machine = receiver_machine();
    let software = software_decoder(&machine.registry).unwrap();
    let args = AppConfig::default().recv_args();
    let plan = build_receiver_video_plan(&args, &machine).unwrap();

    let last = plan
        .fallbacks
        .last()
        .expect("a software route after the hardware routes");
    assert_eq!(last.label, "software");
    assert!(last.description.contains(&software.factory));
    // Software decode lands in system memory, so the caps filter must not demand GPU memory.
    assert!(last.description.contains("! video/x-raw !"));
}

#[test]
fn explicit_software_decoder_is_not_repeated_as_a_fallback() {
    let machine = receiver_machine();
    let mut args = AppConfig::default().recv_args();
    args.decoder = Decoder::Software;
    let plan = build_receiver_video_plan(&args, &machine).unwrap();

    assert!(plan.fallbacks.iter().all(|route| route.label != "software"));
}

fn two_fallbacks() -> ReceiverPipelinePlan {
    ReceiverPipelinePlan {
        primary: "primary".to_string(),
        fallbacks: vec![
            ReceiverFallbackRoute {
                label: "D3D11/QSV",
                description: "d3d11".to_string(),
            },
            ReceiverFallbackRoute {
                label: "software",
                description: "software".to_string(),
            },
        ],
        decode_limits: None,
    }
}

#[test]
fn appending_audio_extends_every_receiver_route() {
    let mut plan = two_fallbacks();

    plan.append_pipeline("audio");

    assert_eq!(plan.primary(), "primary audio");
    assert_eq!(plan.fallbacks[0].description, "d3d11 audio");
    assert_eq!(plan.fallbacks[1].description, "software audio");
}

#[test]
fn vendor_base_decoder_is_safe_only_with_one_matching_vendor_adapter() {
    let selected = GpuAdapter {
        index: 1,
        luid: 2,
        vendor_id: 0x10DE,
        device_id: 0,
        description: "selected".to_string(),
    };
    let intel = GpuAdapter {
        index: 0,
        luid: 1,
        vendor_id: 0x8086,
        device_id: 0,
        description: "integrated".to_string(),
    };
    let second_nvidia = GpuAdapter {
        index: 2,
        luid: 3,
        vendor_id: 0x10DE,
        device_id: 0,
        description: "second".to_string(),
    };

    assert!(selected_is_only_vendor_adapter(
        &selected,
        &vec![intel.clone(), selected.clone()]
    ));
    assert!(!selected_is_only_vendor_adapter(
        &selected,
        &vec![intel, selected.clone(), second_nvidia]
    ));
    assert!(!selected_is_only_adapter(
        &selected,
        &vec![selected.clone(), selected.clone()]
    ));
}

#[test]
fn explicit_capture_index_resolves_its_monitor() {
    let mut primary = virtual_monitor(Some(10), false);
    primary.capture_index = Some(0);
    primary.primary = true;
    primary.adapter_name = r"\\.\DISPLAY1".to_string();

    let mut selected = virtual_monitor(Some(20), false);
    selected.capture_index = Some(2);
    selected.primary = false;
    selected.adapter_name = r"\\.\DISPLAY3".to_string();

    let monitors = vec![primary, selected];
    let monitor = capture_monitor_for_index(&monitors, 2).unwrap();

    assert_eq!(monitor.adapter_name, r"\\.\DISPLAY3");
}

#[test]
fn encoder_speed_profiles_are_used_for_live_streaming() {
    let none = registry(&[]);
    let amf = SelectedEncoder {
        family: EncoderFamily::Amf,
        element: "amfh264enc".to_string(),
        adapter_luid: None,
    }
    .chain(8_000, 30, NvidiaTuning::Auto, &none, &Vec::new());
    let media_foundation = SelectedEncoder {
        family: EncoderFamily::MediaFoundation,
        element: "mfh264enc".to_string(),
        adapter_luid: None,
    }
    .chain(8_000, 30, NvidiaTuning::Auto, &none, &Vec::new());

    assert!(amf.contains("usage=ultra-low-latency"));
    assert!(amf.contains("preset=speed"));
    assert!(media_foundation.contains("quality-vs-speed=0"));
    assert!(!media_foundation.contains("quality-vs-speed=100"));
}

#[test]
fn every_encoder_chain_exposes_the_force_key_unit_target() {
    let none = registry(&[]);
    for family in [
        EncoderFamily::Nvidia,
        EncoderFamily::Amf,
        EncoderFamily::MediaFoundation,
        EncoderFamily::QuickSync,
        EncoderFamily::X264,
    ] {
        let chain = SelectedEncoder {
            family,
            element: family.base_element().to_string(),
            adapter_luid: None,
        }
        .chain(8_000, 30, NvidiaTuning::Auto, &none, &Vec::new());

        assert!(
            chain.contains(&format!("name={SENDER_VIDEO_ENCODER_NAME}")),
            "{family:?} chain did not name its encoder: {chain}"
        );
    }
}

#[test]
fn an_element_gets_only_the_settings_it_has() {
    let mut amf = element("amfh264enc");
    amf.properties = Some(vec!["usage".to_string(), "bitrate".to_string()]);
    let mut found = registry(&[]);
    found.elements.push(amf);
    let chain = SelectedEncoder {
        family: EncoderFamily::Amf,
        element: "amfh264enc".to_string(),
        adapter_luid: None,
    }
    .chain(8_000, 30, NvidiaTuning::Auto, &found, &Vec::new());
    assert!(chain.contains("usage=ultra-low-latency"));
    assert!(!chain.contains("preset=speed"));
}

#[test]
fn force_key_unit_schedule_requests_immediately_and_once_per_second() {
    let start = 10_000;
    let mut schedule = KeyUnitSchedule::new(start);

    assert_eq!(schedule.take_due(start), Some(0));
    assert_eq!(
        schedule.take_due(start + FORCE_KEY_UNIT_INTERVAL_MS - 1),
        None
    );
    assert_eq!(
        schedule.take_due(start + FORCE_KEY_UNIT_INTERVAL_MS),
        Some(1)
    );
}

#[test]
fn key_unit_outcomes_are_told_when_they_change() {
    let mut outcome = KeyUnitOutcome {
        last_accepted: None,
    };
    assert_eq!(outcome.record(true), Some(KeyUnitNotice::Active));
    assert_eq!(outcome.record(true), None);
    assert_eq!(outcome.record(false), Some(KeyUnitNotice::Rejected));
    assert_eq!(outcome.record(false), None);
}

#[test]
fn a_hardware_decoder_reports_the_frame_size_it_accepts() {
    let registry = receiver_machine().registry;
    if let Some((width, height)) = registry.decoder_frame_limits("d3d11h264dec") {
        // Every DXVA H.264 decoder takes at least 1080p. What matters is that the value is
        // bounded at all, because that is what a sender scales down to.
        assert!(width >= 1920 && height >= 1080, "{width}x{height}");
    }
    // decodebin picks its decoder while running and advertises no frame size of its own, and a
    // decoder that is not installed cannot be asked; both mean "no known limit".
    assert_eq!(registry.decoder_frame_limits("decodebin"), None);
    assert_eq!(
        registry.decoder_frame_limits("screen_mirror_missing_element"),
        None
    );
}

#[test]
fn frame_limits_are_the_largest_that_any_template_names() {
    let mut decoder = element("d3d11h264dec");
    let mut source = h264_template(9_999, 9_999);
    source.sink = false;
    let mut any = h264_template(8_888, 8_888);
    any.any_caps = true;
    let mut partial = h264_template(7_777, 7_777);
    partial.structures[0].height = CapsDimension::Absent;
    let mut other = h264_template(6_666, 6_666);
    other.structures[0].name = "video/x-h265".to_string();
    let mut fixed = h264_template(1, 1);
    fixed.structures[0].width = CapsDimension::Fixed(1_280);
    fixed.structures[0].height = CapsDimension::Fixed(2_160);
    decoder.templates = vec![source, any, partial, other, h264_template(1_920, 1_088), fixed];
    let found = ElementRegistry {
        elements: vec![decoder],
    };
    assert_eq!(
        found.decoder_frame_limits("d3d11h264dec"),
        Some((1_920, 2_160))
    );
}

#[test]
fn native_video_caps_do_not_force_a_receiver_aspect_ratio() {
    let caps = video_caps(30, None, None, true);
    assert!(!caps.contains("width="));
    assert!(!caps.contains("height="));
}

#[test]
fn the_cpu_is_never_used_silently() {
    let only_cpu = registry(&["x264enc"]);
    assert!(matches!(
        select_encoder(Encoder::Auto, false, None, &only_cpu),
        Err(PipelineError::NoGpuEncoder)
    ));
    assert_eq!(
        select_encoder(Encoder::Auto, true, None, &only_cpu)
            .unwrap()
            .element,
        "x264enc"
    );
    assert!(encoder_on_gpu(EncoderFamily::Amf, None, &only_cpu).is_none());
}

#[test]
fn hosts_become_clients_with_ports() {
    assert_eq!(split_hosts(" a , ,b:9 "), vec!["a", "b:9"]);
    assert_eq!(
        multi_udp_clients("10.0.0.2, 10.0.0.3:6000", 5004).unwrap(),
        "10.0.0.2:5004,10.0.0.3:6000"
    );
    assert_eq!(
        multi_udp_clients_force_port("10.0.0.2,10.0.0.3:6000", 5005).unwrap(),
        "10.0.0.2:5005,10.0.0.3:5005"
    );
    assert!(matches!(
        multi_udp_clients(" , ", 5004),
        Err(PipelineError::NoReceiverHost)
    ));
    assert_eq!(gst_string_literal("a\"b\\c"), "\"a\\\"b\\\\c\"");
}

fn sender_machine() -> Machine {
    let mut encoder = element("nvd3d11h264enc");
    encoder.sinks_d3d11 = true;
    let mut found = registry(&[
        "wasapi2src",
        "audioconvert",
        "audioresample",
        "opusenc",
        "rtpopuspay",
        "multiudpsink",
    ]);
    found.elements.push(encoder);
    machine(found)
}

#[test]
fn a_sender_pipeline_captures_encodes_and_sends() {
    let machine = sender_machine();
    let mut args = AppConfig::default().send_args();
    args.host = "10.0.0.2".to_string();
    args.prefer_virtual_display = false;
    let video = build_sender_video_pipeline_for(&args, None, &machine).unwrap();
    let order = ["d3d11screencapturesrc", "nvd3d11h264enc", "rtph264pay", "10.0.0.2:5004"];
    let mut from = 0;
    for part in order {
        let at = video[from..].find(part).unwrap_or_else(|| panic!("{part} in {video}"));
        from += at + part.len();
    }
    let audio = build_sender_audio_pipeline(&args, &machine.registry).unwrap();
    assert!(audio.contains("wasapi2src"));
    assert!(audio.contains("10.0.0.2:5005"));
    args.audio_enabled = true;
    let both = build_sender_pipeline(&args, &machine).unwrap();
    assert!(both.starts_with(&video));
    assert!(both.contains(&audio));
}

#[test]
fn a_sender_with_bad_settings_is_refused() {
    let machine = sender_machine();
    let build = |change: &dyn Fn(&mut screen_mirror::pipeline::SendArgs)| {
        let mut args = AppConfig::default().send_args();
        args.host = "10.0.0.2".to_string();
        args.prefer_virtual_display = false;
        change(&mut args);
        build_sender_video_pipeline_for(&args, None, &machine)
    };
    assert!(build(&|_| {}).is_ok());
    assert!(matches!(
        build(&|args| args.fps = 0),
        Err(PipelineError::NotPositive { .. })
    ));
    assert!(matches!(
        build(&|args| args.qos_dscp = 64),
        Err(PipelineError::QosDscp)
    ));
    assert!(matches!(
        build(&|args| args.width = Some(800)),
        Err(PipelineError::SizePair)
    ));
    assert!(matches!(
        build(&|args| args.host = "auto".to_string()),
        Err(PipelineError::HostUnresolved)
    ));
    let mut args = AppConfig::default().send_args();
    args.host = "10.0.0.2".to_string();
    args.audio_frame_ms = "7".to_string();
    assert!(matches!(
        build_sender_audio_pipeline(&args, &machine.registry),
        Err(PipelineError::AudioFrame)
    ));
    args.audio_frame_ms = "2.5".to_string();
    assert!(build_sender_audio_pipeline(&args, &machine.registry).is_ok());
    assert!(matches!(
        build_sender_audio_pipeline(&args, &registry(&[])),
        Err(PipelineError::MissingElement { .. })
    ));
}

#[test]
fn a_receiver_plan_names_its_decode_limit_and_its_filter() {
    let machine = receiver_machine();
    let args = AppConfig::default().recv_args();
    let plan = build_receiver_video_plan(&args, &machine).unwrap();
    assert!(plan.primary().contains("d3d11h264dec"));
    assert_eq!(plan.decode_limits(), Some((1920, 1088)));
    assert_eq!(
        build_receiver_pipeline(&args, &machine).unwrap(),
        build_receiver_pipeline_plan(&args, &machine).unwrap().primary()
    );
}

#[test]
fn a_plan_is_tried_route_by_route() {
    let plan = two_fallbacks();
    assert_eq!(next_route(&plan, 1, true, false), PlanStep::Done);
    assert_eq!(next_route(&plan, 1, false, true), PlanStep::Done);
    assert_eq!(
        next_route(&plan, 1, false, false),
        PlanStep::Retry { fallback: 0 }
    );
    assert_eq!(
        next_route(&plan, 2, false, false),
        PlanStep::Retry { fallback: 1 }
    );
    assert_eq!(next_route(&plan, 3, false, false), PlanStep::Exhausted);
    assert!(exhausted_context(&plan).is_some());
}

#[test]
fn a_running_pipeline_ends_with_its_stream() {
    assert!(matches!(
        run_step(false, &BusMessage::Nothing),
        RunStep::Continue
    ));
    assert!(matches!(
        run_step(true, &BusMessage::Nothing),
        RunStep::Finish { timed_out: false }
    ));
    assert!(matches!(
        run_step(false, &BusMessage::Eos),
        RunStep::Finish { timed_out: false }
    ));
    assert!(matches!(
        run_step(
            false,
            &BusMessage::Element {
                name: Some("GstUDPSrcTimeout".to_string())
            }
        ),
        RunStep::Finish { timed_out: true }
    ));
    match run_step(
        false,
        &BusMessage::Error {
            source: None,
            error: "gone".to_string(),
            debug: None,
        },
    ) {
        RunStep::Fail { message } => assert_eq!(
            message,
            "GStreamer error from unknown: gone (no debug info)"
        ),
        other => panic!("{other:?}"),
    }
}

#[test]
fn a_stream_window_closes_every_five_seconds() {
    let totals = |pushed| JitterCounts {
        pushed,
        lost: 0,
        late: 0,
        duplicates: 0,
    };
    let mut window = StreamWindow {
        started_ms: 1_000,
        jitter_total: totals(0),
    };
    assert!(!window.is_due(5_999));
    assert!(window.is_due(6_000));
    let report = window.close(6_000, Some(totals(30)));
    assert_eq!(report.window_ms, 5_000);
    assert_eq!(report.jitter, Some(totals(30)));
    let report = window.close(11_000, Some(totals(75)));
    assert_eq!(report.jitter, Some(totals(45)));
    let report = window.close(16_000, None);
    assert_eq!(report.jitter, None);
    assert_eq!(window.jitter_total, totals(75));
}

#[test]
fn the_runtime_path_is_read_from_factories_and_caps() {
    assert!(is_h264_decoder("d3d11h264dec"));
    assert!(!is_h264_decoder("d3d11h265dec"));
    assert_eq!(
        runtime_memory("video/x-raw(memory:D3D11Memory)"),
        "D3D11Memory"
    );
}

#[test]
fn probing_tells_what_is_installed() {
    let lines = probe_elements(&registry(&["openh264dec"]));
    assert_eq!(lines.len(), probed_elements().len());
    assert!(lines
        .iter()
        .any(|line| line.contains("openh264dec") && !line.contains("missing")));
}
