use screen_mirror::config::{
    accept_loaded, migrate_legacy_defaults, AppConfig, ConfigSampling, StartupMode,
    AGGRESSIVE_DEFAULT_AUDIO_FRAME_MS, AGGRESSIVE_DEFAULT_AUDIO_JITTER_MS,
    BALANCED_RESOURCE_CONFIG_VERSION, CURRENT_CONFIG_VERSION, LEGACY_DEFAULT_BITRATE,
    LEGACY_DEFAULT_FPS, LEGACY_DEFAULT_UDP_BUFFER_SIZE, LOW_LATENCY_AUDIO_CONFIG_VERSION,
};
use screen_mirror::pipeline::{CaptureApi, Decoder, Encoder, NvidiaTuning, Sampling, Sink};

#[test]
fn legacy_defaults_migrate_to_balanced_resource_usage() {
    let mut config = AppConfig {
        config_version: 0,
        ..AppConfig::default()
    };
    config.send.fps = LEGACY_DEFAULT_FPS;
    config.send.bitrate = LEGACY_DEFAULT_BITRATE;
    config.send.udp_buffer_size = LEGACY_DEFAULT_UDP_BUFFER_SIZE;
    config.recv.udp_buffer_size = LEGACY_DEFAULT_UDP_BUFFER_SIZE;
    config.send.audio_frame_ms = "5".to_string();
    config.recv.audio_jitter_ms = 15;

    assert!(migrate_legacy_defaults(&mut config));
    assert_eq!(config.config_version, CURRENT_CONFIG_VERSION);
    assert_eq!(config.send.fps, 30);
    assert_eq!(config.send.bitrate, 8_000);
    assert_eq!(config.send.udp_buffer_size, 1024 * 1024);
    assert_eq!(config.recv.udp_buffer_size, 1024 * 1024);
    assert_eq!(config.send.audio_frame_ms, "5");
    assert_eq!(config.recv.audio_jitter_ms, 10);
    assert!(!migrate_legacy_defaults(&mut config));
}

#[test]
fn version_two_audio_defaults_migrate_to_stable_low_latency() {
    for legacy_jitter_ms in [5, 15] {
        let mut config = AppConfig {
            config_version: BALANCED_RESOURCE_CONFIG_VERSION,
            ..AppConfig::default()
        };
        config.send.audio_frame_ms = "5".to_string();
        config.recv.audio_jitter_ms = legacy_jitter_ms;

        assert!(migrate_legacy_defaults(&mut config));
        assert_eq!(config.config_version, CURRENT_CONFIG_VERSION);
        assert_eq!(config.send.audio_frame_ms, "5");
        assert_eq!(config.recv.audio_jitter_ms, 10);
    }
}

#[test]
fn version_three_aggressive_audio_defaults_migrate_to_stable_low_latency() {
    let mut config = AppConfig {
        config_version: LOW_LATENCY_AUDIO_CONFIG_VERSION,
        ..AppConfig::default()
    };
    config.send.audio_frame_ms = AGGRESSIVE_DEFAULT_AUDIO_FRAME_MS.to_string();
    config.recv.audio_jitter_ms = AGGRESSIVE_DEFAULT_AUDIO_JITTER_MS;

    assert!(migrate_legacy_defaults(&mut config));
    assert_eq!(config.config_version, CURRENT_CONFIG_VERSION);
    assert_eq!(config.send.audio_frame_ms, "5");
    assert_eq!(config.recv.audio_jitter_ms, 10);
}

#[test]
fn explicit_nondefault_values_survive_migration() {
    let mut config = AppConfig {
        config_version: 0,
        ..AppConfig::default()
    };
    config.send.fps = 45;
    config.send.bitrate = 10_000;
    config.send.udp_buffer_size = 2 * 1024 * 1024;
    config.send.audio_frame_ms = "10".to_string();
    config.recv.audio_jitter_ms = 12;

    assert!(migrate_legacy_defaults(&mut config));
    assert_eq!(config.send.fps, 45);
    assert_eq!(config.send.bitrate, 10_000);
    assert_eq!(config.send.udp_buffer_size, 2 * 1024 * 1024);
    assert_eq!(config.send.audio_frame_ms, "10");
    assert_eq!(config.recv.audio_jitter_ms, 12);
}

#[test]
fn a_fresh_configuration_needs_no_migration() {
    let mut config = AppConfig::default();
    assert_eq!(config.config_version, CURRENT_CONFIG_VERSION);
    assert!(matches!(config.startup_mode, StartupMode::Idle));
    assert!(config.autostart);
    assert_eq!(config.security.pin, "0000");
    assert!(!migrate_legacy_defaults(&mut config));
}

#[test]
fn sender_arguments_follow_the_configuration() {
    let mut config = AppConfig::default();
    config.security.pin = "4711".to_string();
    config.send.host = "10.0.0.7".to_string();
    config.send.fps = 60;
    config.send.show_cursor = false;
    let args = config.send_args();
    assert_eq!(args.host, "10.0.0.7");
    assert_eq!(args.port, 5004);
    assert_eq!(args.pin, "4711");
    assert_eq!(args.fps, 60);
    assert_eq!(args.bitrate, 8_000);
    assert!(args.no_cursor);
    assert!(matches!(args.encoder, Encoder::Auto));
    assert!(matches!(args.nvidia_tuning, NvidiaTuning::Auto));
    assert!(matches!(args.capture_api, CaptureApi::Dxgi));
}

#[test]
fn receiver_arguments_follow_the_configuration() {
    let mut config = AppConfig::default();
    config.recv.sampling = ConfigSampling::Point;
    let args = config.recv_args();
    assert_eq!(args.port, 5004);
    assert_eq!(args.audio_jitter_ms, 10);
    assert!(args.fullscreen);
    assert!(matches!(args.sampling, Sampling::Point));
    assert!(matches!(args.decoder, Decoder::Auto));
    assert!(matches!(args.sink, Sink::Auto));
}

#[test]
fn a_loaded_configuration_is_taken_with_a_pin_of_four_digits_only() {
    let (config, changed) = accept_loaded(AppConfig::default()).unwrap();
    assert!(!changed);
    assert_eq!(config.security.pin, "0000");

    let mut bad = AppConfig::default();
    bad.security.pin = "12a4".to_string();
    assert_eq!(
        accept_loaded(bad).unwrap_err().message(),
        "PIN must be exactly four digits"
    );
}

#[test]
fn scaling_filters_are_spelled_as_in_the_file() {
    assert_eq!(ConfigSampling::Auto.key(), "auto");
    assert_eq!(ConfigSampling::Linear.key(), "linear");
    assert_eq!(ConfigSampling::Point.key(), "point");
    assert_eq!(Sampling::from(ConfigSampling::Auto).method(), "linear-minification");
    assert_eq!(Sampling::from(ConfigSampling::Linear).method(), "bilinear");
    assert_eq!(Sampling::from(ConfigSampling::Point).method(), "nearest-neighbour");
}
