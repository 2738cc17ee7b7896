use screen_mirror::config::AppConfig;
use screen_mirror::elements::{
    CapsDimension, CapsStructure, ElementInfo, ElementRegistry, PadTemplate,
};
use screen_mirror::encoders::{encoder_on_gpu, EncoderFamily};
use screen_mirror::gpu::{AdapterOutput, GpuAdapter};
use screen_mirror::journal::{
    limit_line, note_driver_rate, note_dropped_settings, note_unbound_encoder,
    note_unmatched_selection, receiver_log, sender_log, unmatched_line,
};
use screen_mirror::monitors::{
    DisplayMode, DisplayMonitor, ModeChange, CHANGE_BADMODE, CHANGE_SUCCESSFUL,
};
use screen_mirror::pipeline::{Decoder, Encoder, Machine, Sampling, SendArgs, Sink};

fn adapter(index: u32, vendor_id: u32, description: &str) -> GpuAdapter {
    GpuAdapter {
        index,
        luid: i64::from(index) + 40,
        vendor_id,
        device_id: 0x2803,
        description: description.to_string(),
    }
}

fn nvidia() -> GpuAdapter {
    adapter(1, 0x10DE, "GeForce RTX")
}

fn intel() -> GpuAdapter {
    adapter(0, 0x8086, "Iris Xe")
}

fn element(name: &str) -> ElementInfo {
    ElementInfo {
        name: name.to_string(),
        video_encoder: name.ends_with("enc"),
        decoder: name.ends_with("dec"),
        adapter_luid: None,
        properties: None,
        sinks_d3d11: false,
        sinks_d3d12: false,
        srcs_d3d11: false,
        srcs_d3d12: false,
        templates: Vec::new(),
    }
}

fn registry(names: &[&str]) -> ElementRegistry {
    ElementRegistry {
        elements: names.iter().map(|name| element(name)).collect(),
    }
}

fn display(name: &str, primary: bool, bundled: bool) -> DisplayMonitor {
    DisplayMonitor {
        capture_index: Some(2),
        monitor_handle: Some(77),
        adapter_name: name.to_string(),
        adapter_description: "Adapter".to_string(),
        monitor_name: None,
        monitor_description: None,
        device_id: "id".to_string(),
        attached: true,
        primary,
        mirroring: false,
        virtual_candidate: bundled,
        bundled_virtual_display: bundled,
    }
}

fn machine(registry: ElementRegistry, gpu: Option<GpuAdapter>) -> Machine {
    let outputs = gpu
        .iter()
        .map(|gpu| AdapterOutput {
            adapter: gpu.clone(),
            device_name: "P".to_string(),
            monitor_handle: 77,
        })
        .collect();
    Machine {
        registry,
        monitors: vec![display("P", true, false)],
        adapters: gpu.into_iter().collect(),
        outputs,
    }
}

fn send_args() -> SendArgs {
    let mut args = AppConfig::default().send_args();
    args.host = "10.0.0.2".to_string();
    args.prefer_virtual_display = false;
    args.enable_virtual_display = false;
    args.fps = 60;
    args.bitrate = 20_000;
    args.udp_buffer_size = 4_096;
    args
}

#[test]
fn a_gpu_that_is_not_there_is_noted_as_it_was_written() {
    let adapters = vec![nvidia()];
    assert_eq!(
        note_unmatched_selection("  Arc \"A770\" ", &adapters).unwrap(),
        "configured GPU \"Arc \\\"A770\\\"\" was not found; using automatic GPU selection"
    );
    assert_eq!(
        unmatched_line("Arc"),
        "configured GPU Arc was not found; using automatic GPU selection"
    );
    assert_eq!(note_unmatched_selection("rtx", &adapters), None);
    assert_eq!(note_unmatched_selection("1", &adapters), None);
    assert_eq!(note_unmatched_selection("auto", &Vec::new()), None);
    assert_eq!(note_unmatched_selection("", &adapters), None);
}

#[test]
fn an_encoder_on_another_gpu_is_noted() {
    let mut found = registry(&["nvd3d11h264enc", "nvd3d11h264device1enc"]);
    let gpu = nvidia();
    let family = EncoderFamily::Nvidia;
    let unbound = encoder_on_gpu(family, Some(&gpu), &found).unwrap();
    assert_eq!(
        note_unbound_encoder(&unbound, Some(&gpu)).unwrap(),
        "no nvd3d11h264enc variant is bound to GPU GeForce RTX; using nvd3d11h264enc"
    );
    assert_eq!(note_unbound_encoder(&unbound, None), None);
    found.elements[1].adapter_luid = Some(gpu.luid);
    let bound = encoder_on_gpu(family, Some(&gpu), &found).unwrap();
    assert_eq!(bound.element, "nvd3d11h264device1enc");
    assert_eq!(note_unbound_encoder(&bound, Some(&gpu)), None);
}

#[test]
fn settings_that_an_encoder_lacks_are_named() {
    let settings: Vec<String> = ["bitrate=1", "bframes=0", "rc-mode=cbr"]
        .iter()
        .map(|setting| setting.to_string())
        .collect();
    let mut found = registry(&["mfh264enc"]);
    assert_eq!(note_dropped_settings("mfh264enc", &settings, &found), None);
    found.elements[0].properties = Some(vec!["bitrate".to_string()]);
    assert_eq!(
        note_dropped_settings("mfh264enc", &settings, &found).unwrap(),
        "encoder mfh264enc does not expose bframes, rc-mode; those settings were dropped"
    );
}

#[test]
fn a_sender_logs_its_source_gpu_and_encoder() {
    let mut found = registry(&["nvd3d11h264enc"]);
    found.elements[0].sinks_d3d11 = true;
    found.elements[0].adapter_luid = Some(nvidia().luid);
    let machine = machine(found, Some(nvidia()));
    let lines = sender_log(&send_args(), None, &machine);
    assert_eq!(
        lines,
        [
            "sender pipeline source: d3d11screencapturesrc capture-api=dxgi monitor-index=-1 show-cursor=true",
            "sender automatic GPU selected from the capture display: index=1 luid=41 vendor=0x10DE device=0x2803 name=GeForce RTX",
            "sender GPU selected: index=1 luid=41 vendor=0x10DE device=0x2803 name=GeForce RTX",
            "sender encoder=nvd3d11h264enc frame-memory=D3D11 fps=60 bitrate=20000kbit/s udp-buffer=4096bytes",
        ]
    );
}

#[test]
fn a_sender_says_why_frames_leave_the_gpu() {
    let mut found = registry(&["nvd3d11h264enc"]);
    let encoder = "sender encoder=nvd3d11h264enc frame-memory=system fps=60 bitrate=20000kbit/s udp-buffer=4096bytes";
    let mut args = send_args();
    let lines = sender_log(&args, None, &machine(found, None));
    assert_eq!(
        lines[1..],
        [
            "sender encoder=nvd3d11h264enc does not advertise D3D11 input; falling back to system-memory frames",
            encoder,
        ]
    );
    found = registry(&["nvd3d11h264enc"]);
    found.elements[0].sinks_d3d11 = true;
    found.elements[0].adapter_luid = Some(5);
    args.gpu = "Arc".to_string();
    let lines = sender_log(&args, None, &machine(found, Some(nvidia())));
    assert_eq!(
        lines[1],
        "configured GPU \"Arc\" was not found; using automatic GPU selection"
    );
    assert_eq!(
        lines[4..],
        [
            "no nvd3d11h264enc variant is bound to GPU GeForce RTX; using nvd3d11h264enc",
            "sender encoder=nvd3d11h264enc does not run on the capture GPU; falling back to system-memory frames",
            encoder,
        ]
    );
}

#[test]
fn the_cpu_encoder_that_is_fallen_back_to_is_not_called_unbound() {
    let mut args = send_args();
    args.allow_software_encoder = true;
    args.zero_copy = false;
    let machine = machine(registry(&["x264enc"]), Some(nvidia()));
    let encoder = "sender encoder=x264enc frame-memory=system fps=60 bitrate=20000kbit/s udp-buffer=4096bytes";
    assert_eq!(sender_log(&args, None, &machine)[3..], [encoder]);
    args.encoder = Encoder::X264;
    assert_eq!(
        sender_log(&args, None, &machine)[3..],
        ["no x264enc variant is bound to GPU GeForce RTX; using x264enc", encoder]
    );
}

#[test]
fn a_sender_logs_the_display_that_it_captures() {
    let target = display("V", false, true);
    let mut machine = machine(registry(&["nvd3d11h264enc"]), None);
    let mut args = send_args();
    let summary = target.summary();
    assert_eq!(
        sender_log(&args, Some(&target), &machine)[0],
        format!("sender assigned capture target: {summary}")
    );
    args.prefer_virtual_display = true;
    assert_eq!(
        sender_log(&args, None, &machine)[0],
        "sender preferred virtual display: not found"
    );
    args.enable_virtual_display = true;
    assert_eq!(
        sender_log(&args, None, &machine),
        ["sender preferred virtual display: not found"]
    );
    machine.monitors.push(target);
    let lines = sender_log(&args, None, &machine);
    assert_eq!(lines[0], format!("sender preferred virtual display: {summary}"));
    assert_eq!(
        lines[1],
        "sender capture monitor-handle selected: 77; capture-api=dxgi; adapter=V"
    );
    machine.monitors[1].monitor_handle = None;
    machine.monitors[1].bundled_virtual_display = false;
    assert_eq!(
        sender_log(&args, None, &machine)[1],
        "sender fallback capture monitor-index selected: 2; capture-api=dxgi; adapter=V"
    );
    args.fps = 0;
    assert!(sender_log(&args, None, &machine).is_empty());
}

#[test]
fn a_receiver_logs_its_route() {
    let mut found = registry(&["d3d11h264dec", "d3d11videosink"]);
    found.elements[0].srcs_d3d11 = true;
    found.elements[0].adapter_luid = Some(nvidia().luid);
    found.elements[1].sinks_d3d11 = true;
    found.elements[0].templates = vec![PadTemplate {
        sink: true,
        any_caps: false,
        structures: vec![CapsStructure {
            name: "video/x-h264".to_string(),
            width: CapsDimension::Range { max: 1920 },
            height: CapsDimension::Range { max: 1088 },
        }],
    }];
    let mut args = AppConfig::default().recv_args();
    args.fullscreen = false;
    args.sampling = Sampling::Linear;
    let lines = receiver_log(&args, &machine(found, Some(nvidia())));
    let summary = "index=1 luid=41 vendor=0x10DE device=0x2803 name=GeForce RTX";
    assert_eq!(lines.len(), 4);
    assert_eq!(
        lines[0],
        format!("receiver automatic GPU selected from display: {summary}")
    );
    assert_eq!(lines[1], format!("receiver GPU selected: {summary}"));
    let route = format!(
        "receiver profile=nvidia adapter={summary} decoder=d3d11h264dec decoder-luid=41 memory=D3D11Memory/NV12 sink=d3d11videosink name="
    );
    assert!(lines[2].starts_with(&route), "{}", lines[2]);
    assert_eq!(
        lines[3],
        "receiver decoder d3d11h264dec accepts up to 1920x1088; announcing that limit to senders"
    );
}

#[test]
fn a_receiver_without_a_gpu_logs_the_defaults() {
    let mut args = AppConfig::default().recv_args();
    args.sink = Sink::Auto;
    let unresolved = "receiver automatic GPU could not be resolved from an attached display; using GStreamer default";
    let primary = receiver_log(
        &args,
        &machine(registry(&["d3d11h264dec", "autovideosink"]), None),
    );
    assert_eq!(primary[0], unresolved);
    assert_eq!(
        primary[1],
        "receiver automatic GPU is unavailable; using the primary D3D11 H.264 decoder"
    );
    assert!(primary[2].starts_with(
        "receiver profile=other adapter=GStreamer default decoder=d3d11h264dec decoder-luid=default/unknown memory=negotiated sink=autovideosink"
    ));
    assert_eq!(
        primary[3],
        "receiver decoder d3d11h264dec advertises no frame-size limit; senders will not scale for it"
    );
    let stopped = receiver_log(&args, &machine(registry(&[]), None));
    assert_eq!(
        stopped,
        [
            unresolved,
            "receiver other GPU has no matching hardware H.264 decoder; using decodebin with system-memory output to avoid cross-adapter textures",
        ]
    );
    assert_eq!(
        limit_line("decodebin", Some((8, 6))),
        "receiver decoder decodebin accepts up to 8x6; announcing that limit to senders"
    );
}

#[test]
fn a_receiver_says_which_decoder_stands_in_for_its_gpus() {
    let no_decoder = "no d3d11 H.264 decoder is bound to GPU GeForce RTX";
    let names = ["d3d11h264dec", "autovideosink", "nvh264dec"];
    let mut args = AppConfig::default().recv_args();
    let mut one = machine(registry(&names), Some(nvidia()));
    assert_eq!(
        receiver_log(&args, &one)[2..4],
        [
            no_decoder,
            "receiver GPU GeForce RTX is the only DXGI adapter; using the base D3D11 H.264 decoder",
        ]
    );
    args.decoder = Decoder::D3d11;
    assert_eq!(
        receiver_log(&args, &one)[2..4],
        [
            no_decoder,
            "selected GPU GeForce RTX is the only DXGI adapter; using the base D3D11 H.264 decoder",
        ]
    );
    one.adapters.push(intel());
    assert_eq!(receiver_log(&args, &one)[2..], [no_decoder]);
    args.decoder = Decoder::Auto;
    assert_eq!(
        receiver_log(&args, &one)[2..4],
        [
            no_decoder,
            "receiver nvidia GPU has no matching D3D11 H.264 decoder; using nvh264dec",
        ]
    );
    args.decoder = Decoder::Software;
    assert_eq!(receiver_log(&args, &one).len(), 2);
}

#[test]
fn a_d3d12_route_is_logged_with_what_stands_behind_it() {
    let mut found = registry(&["d3d12h264dec", "d3d12videosink"]);
    found.elements[0].srcs_d3d12 = true;
    found.elements[0].adapter_luid = Some(intel().luid);
    let args = AppConfig::default().recv_args();
    let mut machine = machine(found, Some(intel()));
    let lines = receiver_log(&args, &machine);
    assert_eq!(
        lines[2..],
        [
            "no d3d11 H.264 decoder is bound to GPU Iris Xe",
            "receiver intel GPU has no matching hardware H.264 decoder; using decodebin with system-memory output to avoid cross-adapter textures",
        ]
    );
    machine.registry.elements[1].sinks_d3d12 = true;
    let lines = receiver_log(&args, &machine);
    assert_eq!(
        lines[2],
        "receiver Intel GPU exposes a matching D3D12 H.264 route; using d3d12h264dec with D3D12 zero-copy"
    );
    assert!(lines[3].starts_with("receiver profile=intel-modern-d3d12 adapter=index=0 luid=40 "));
    assert!(lines[3].contains(" decoder=d3d12h264dec decoder-luid=40 memory=D3D12Memory/NV12 "));
    assert_eq!(lines[5..7], [
        "no d3d11 H.264 decoder is bound to GPU Iris Xe",
        "receiver intel GPU has no matching hardware H.264 decoder; using decodebin with system-memory output to avoid cross-adapter textures",
    ]);
    assert!(lines[7].starts_with("receiver D3D12 route has no compatible D3D11/QSV fallback: "));
    assert_eq!(lines.len(), 8);
    machine.registry.elements[0].adapter_luid = None;
    assert_eq!(
        receiver_log(&args, &machine)[2],
        "no D3D12Memory H.264 decoder is bound to GPU Iris Xe"
    );
}

#[test]
fn a_refresh_rate_that_the_driver_chose_is_noted() {
    let small = Some(DisplayMode {
        width: 800,
        height: 600,
        refresh_hz: None,
    });
    let (mut change, _) = ModeChange::begin(1920, 1080, Some(144), small);
    change.answered(CHANGE_BADMODE, 0);
    assert_eq!(note_driver_rate("V", &change), None);
    change.answered(CHANGE_SUCCESSFUL, 10);
    assert_eq!(
        note_driver_rate("V", &change).unwrap(),
        "virtual display V accepted 1920x1080 using a driver-selected refresh rate"
    );
    let (mut kept, _) = ModeChange::begin(1920, 1080, Some(144), small);
    kept.answered(CHANGE_SUCCESSFUL, 10);
    assert_eq!(note_driver_rate("V", &kept), None);
    let (mut open, _) = ModeChange::begin(1920, 1080, None, small);
    open.answered(CHANGE_SUCCESSFUL, 10);
    assert_eq!(note_driver_rate("V", &open), None);
}
