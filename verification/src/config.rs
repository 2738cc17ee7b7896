//! The configuration of the application, and what it makes of a configuration file.
use crate::discovery::{self, DiscoveryError, DEFAULT_PIN};
use crate::elements::ElementRegistry;
use crate::gpu::AUTO;
use crate::monitors::DisplayMonitor;
use crate::pipeline::{
    self, CaptureApi, Decoder, Encoder, Machine, NvidiaTuning, RecvArgs, Sampling, SendArgs, Sink,
};
use crate::reading;
use crate::text;
use vstd::prelude::*;

verus! {

pub const CURRENT_CONFIG_VERSION: u32 = 4;

/// The version with balanced resource usage.
pub const BALANCED_RESOURCE_CONFIG_VERSION: u32 = 2;

/// The version with low-latency audio.
pub const LOW_LATENCY_AUDIO_CONFIG_VERSION: u32 = 3;

/// The version with stable low-latency audio.
pub const STABLE_LOW_LATENCY_AUDIO_CONFIG_VERSION: u32 = 4;

pub const LEGACY_DEFAULT_FPS: u32 = 60;

pub const LEGACY_DEFAULT_BITRATE: u32 = 12_000;

pub const LEGACY_DEFAULT_UDP_BUFFER_SIZE: u32 = 4_194_304;

pub const AGGRESSIVE_DEFAULT_AUDIO_FRAME_MS: &'static str = "2.5";

pub const AGGRESSIVE_DEFAULT_AUDIO_JITTER_MS: u32 = 3;

pub const DEFAULT_FPS: u32 = 30;

pub const DEFAULT_BITRATE: u32 = 8_000;

pub const DEFAULT_UDP_BUFFER_SIZE: u32 = 1_048_576;

pub const DEFAULT_AUDIO_FRAME_MS: &'static str = "5";

pub const DEFAULT_AUDIO_JITTER_MS: u32 = 10;

pub const DEFAULT_AUDIO_PORT: u16 = 5005;

pub const DEFAULT_AUDIO_BITRATE: u32 = 96_000;

pub const DEFAULT_MTU: u32 = 1200;

/// What the application does when it starts.
#[derive(Clone, Copy, Debug, PartialEq, Eq, Structural)]
pub enum StartupMode {
    Idle,
    Sender,
    Receiver,
}

/// Encoder to use, as config.toml spells it.
#[derive(Clone, Copy, Debug, PartialEq, Eq, Structural)]
pub enum ConfigEncoder {
    Auto,
    Nvidia,
    Amf,
    MediaFoundation,
    QuickSync,
    X264,
}

impl From<ConfigEncoder> for Encoder {
    fn from(value: ConfigEncoder) -> (r: Self) {
        match value {
            ConfigEncoder::Auto => Encoder::Auto,
            ConfigEncoder::Nvidia => Encoder::Nvidia,
            ConfigEncoder::Amf => Encoder::Amf,
            ConfigEncoder::MediaFoundation => Encoder::MediaFoundation,
            ConfigEncoder::QuickSync => Encoder::QuickSync,
            ConfigEncoder::X264 => Encoder::X264,
        }
    }
}

impl vstd::std_specs::convert::FromSpecImpl<ConfigEncoder> for Encoder {
    open spec fn obeys_from_spec() -> bool {
        true
    }

    open spec fn from_spec(value: ConfigEncoder) -> Self {
        match value {
            ConfigEncoder::Auto => Encoder::Auto,
            ConfigEncoder::Nvidia => Encoder::Nvidia,
            ConfigEncoder::Amf => Encoder::Amf,
            ConfigEncoder::MediaFoundation => Encoder::MediaFoundation,
            ConfigEncoder::QuickSync => Encoder::QuickSync,
            ConfigEncoder::X264 => Encoder::X264,
        }
    }
}

/// NVENC tuning, as config.toml spells it.
#[derive(Clone, Copy, Debug, PartialEq, Eq, Structural)]
pub enum ConfigNvidiaTuning {
    Auto,
    Gtx,
    Rtx,
    LowLatency,
}

impl Default for ConfigNvidiaTuning {
    fn default() -> (r: Self)
        ensures
            r == ConfigNvidiaTuning::Auto,
    {
        ConfigNvidiaTuning::Auto
    }
}

impl From<ConfigNvidiaTuning> for NvidiaTuning {
    fn from(value: ConfigNvidiaTuning) -> (r: Self) {
        match value {
            ConfigNvidiaTuning::Auto => NvidiaTuning::Auto,
            ConfigNvidiaTuning::Gtx => NvidiaTuning::Gtx,
            ConfigNvidiaTuning::Rtx => NvidiaTuning::Rtx,
            ConfigNvidiaTuning::LowLatency => NvidiaTuning::LowLatency,
        }
    }
}

impl vstd::std_specs::convert::FromSpecImpl<ConfigNvidiaTuning> for NvidiaTuning {
    open spec fn obeys_from_spec() -> bool {
        true
    }

    open spec fn from_spec(value: ConfigNvidiaTuning) -> Self {
        match value {
            ConfigNvidiaTuning::Auto => NvidiaTuning::Auto,
            ConfigNvidiaTuning::Gtx => NvidiaTuning::Gtx,
            ConfigNvidiaTuning::Rtx => NvidiaTuning::Rtx,
            ConfigNvidiaTuning::LowLatency => NvidiaTuning::LowLatency,
        }
    }
}

/// Decoder to use, as config.toml spells it.
#[derive(Clone, Copy, Debug, PartialEq, Eq, Structural)]
pub enum ConfigDecoder {
    Auto,
    D3d11,
    Avdec,
    Software,
}

impl From<ConfigDecoder> for Decoder {
    fn from(value: ConfigDecoder) -> (r: Self) {
        match value {
            ConfigDecoder::Auto => Decoder::Auto,
            ConfigDecoder::D3d11 => Decoder::D3d11,
            ConfigDecoder::Avdec => Decoder::Avdec,
            ConfigDecoder::Software => Decoder::Software,
        }
    }
}

impl vstd::std_specs::convert::FromSpecImpl<ConfigDecoder> for Decoder {
    open spec fn obeys_from_spec() -> bool {
        true
    }

    open spec fn from_spec(value: ConfigDecoder) -> Self {
        match value {
            ConfigDecoder::Auto => Decoder::Auto,
            ConfigDecoder::D3d11 => Decoder::D3d11,
            ConfigDecoder::Avdec => Decoder::Avdec,
            ConfigDecoder::Software => Decoder::Software,
        }
    }
}

/// Video sink to use, as config.toml spells it.
#[derive(Clone, Copy, Debug, PartialEq, Eq, Structural)]
pub enum ConfigSink {
    Auto,
    D3d11,
    AutoVideo,
}

impl From<ConfigSink> for Sink {
    fn from(value: ConfigSink) -> (r: Self) {
        match value {
            ConfigSink::Auto => Sink::Auto,
            ConfigSink::D3d11 => Sink::D3d11,
            ConfigSink::AutoVideo => Sink::AutoVideo,
        }
    }
}

impl vstd::std_specs::convert::FromSpecImpl<ConfigSink> for Sink {
    open spec fn obeys_from_spec() -> bool {
        true
    }

    open spec fn from_spec(value: ConfigSink) -> Self {
        match value {
            ConfigSink::Auto => Sink::Auto,
            ConfigSink::D3d11 => Sink::D3d11,
            ConfigSink::AutoVideo => Sink::AutoVideo,
        }
    }
}

/// Texture filter to scale with, as config.toml spells it.
#[derive(Clone, Copy, Debug, PartialEq, Eq, Structural)]
pub enum ConfigSampling {
    Auto,
    Linear,
    Point,
}

impl Default for ConfigSampling {
    fn default() -> (r: Self)
        ensures
            r == ConfigSampling::Auto,
    {
        ConfigSampling::Auto
    }
}

impl From<ConfigSampling> for Sampling {
    fn from(value: ConfigSampling) -> (r: Self) {
        match value {
            ConfigSampling::Auto => Sampling::Auto,
            ConfigSampling::Linear => Sampling::Linear,
            ConfigSampling::Point => Sampling::Point,
        }
    }
}

impl vstd::std_specs::convert::FromSpecImpl<ConfigSampling> for Sampling {
    open spec fn obeys_from_spec() -> bool {
        true
    }

    open spec fn from_spec(value: ConfigSampling) -> Self {
        match value {
            ConfigSampling::Auto => Sampling::Auto,
            ConfigSampling::Linear => Sampling::Linear,
            ConfigSampling::Point => Sampling::Point,
        }
    }
}

/// Capture API to use, as config.toml spells it.
#[derive(Clone, Copy, Debug, PartialEq, Eq, Structural)]
pub enum ConfigCaptureApi {
    Dxgi,
    Wgc,
}

impl From<ConfigCaptureApi> for CaptureApi {
    fn from(value: ConfigCaptureApi) -> (r: Self) {
        match value {
            ConfigCaptureApi::Dxgi => CaptureApi::Dxgi,
            ConfigCaptureApi::Wgc => CaptureApi::Wgc,
        }
    }
}

impl vstd::std_specs::convert::FromSpecImpl<ConfigCaptureApi> for CaptureApi {
    open spec fn obeys_from_spec() -> bool {
        true
    }

    open spec fn from_spec(value: ConfigCaptureApi) -> Self {
        match value {
            ConfigCaptureApi::Dxgi => CaptureApi::Dxgi,
            ConfigCaptureApi::Wgc => CaptureApi::Wgc,
        }
    }
}

impl ConfigSampling {
    pub open spec fn key_text(self) -> Seq<char> {
        match self {
            ConfigSampling::Auto => "auto"@,
            ConfigSampling::Linear => "linear"@,
            ConfigSampling::Point => "point"@,
        }
    }

    /// The value as it is spelled in config.toml, which is also what the tray menu ids are built
    /// from so a click and a hand-edited file cannot disagree about what a mode is called.
    pub fn key(self) -> (r: &'static str)
        ensures
            r@ == self.key_text(),
    {
        match self {
            ConfigSampling::Auto => "auto",
            ConfigSampling::Linear => "linear",
            ConfigSampling::Point => "point",
        }
    }
}

/// How this machine sends.
#[derive(Debug)]
pub struct SendConfig {
    pub host: String,
    pub port: u16,
    pub audio_enabled: bool,
    pub audio_port: u16,
    pub audio_bitrate: u32,
    pub audio_frame_ms: String,
    pub max_receivers: u32,
    pub prefer_virtual_display: bool,
    pub enable_virtual_display: bool,
    pub sync_virtual_display_resolution: bool,
    pub monitor_index: i32,
    pub fps: u32,
    pub bitrate: u32,
    pub mtu: u32,
    pub udp_buffer_size: u32,
    pub qos_dscp: i32,
    pub allow_software_encoder: bool,
    pub nvidia_tuning: ConfigNvidiaTuning,
    pub encoder: ConfigEncoder,
    /// GPU to encode on: "auto", a DXGI adapter index, or part of the adapter name.
    pub gpu: String,
    pub capture_api: ConfigCaptureApi,
    pub zero_copy: bool,
    pub show_cursor: bool,
    pub width: Option<u32>,
    pub height: Option<u32>,
}

impl Clone for SendConfig {
    fn clone(&self) -> (r: Self)
        ensures
            r == *self,
    {
        SendConfig {
            host: self.host.clone(),
            port: self.port,
            audio_enabled: self.audio_enabled,
            audio_port: self.audio_port,
            audio_bitrate: self.audio_bitrate,
            audio_frame_ms: self.audio_frame_ms.clone(),
            max_receivers: self.max_receivers,
            prefer_virtual_display: self.prefer_virtual_display,
            enable_virtual_display: self.enable_virtual_display,
            sync_virtual_display_resolution: self.sync_virtual_display_resolution,
            monitor_index: self.monitor_index,
            fps: self.fps,
            bitrate: self.bitrate,
            mtu: self.mtu,
            udp_buffer_size: self.udp_buffer_size,
            qos_dscp: self.qos_dscp,
            allow_software_encoder: self.allow_software_encoder,
            nvidia_tuning: self.nvidia_tuning,
            encoder: self.encoder,
            gpu: self.gpu.clone(),
            capture_api: self.capture_api,
            zero_copy: self.zero_copy,
            show_cursor: self.show_cursor,
            width: self.width,
            height: self.height,
        }
    }
}

/// How this machine receives.
#[derive(Debug)]
pub struct RecvConfig {
    pub port: u16,
    pub audio_enabled: bool,
    pub audio_port: u16,
    pub audio_jitter_ms: u32,
    pub jitter_ms: u32,
    pub udp_buffer_size: u32,
    pub mtu: u32,
    pub jitter_faststart_packets: u32,
    pub jitter_max_dropout_ms: u32,
    pub jitter_max_misorder_ms: u32,
    pub fullscreen: bool,
    pub decoder: ConfigDecoder,
    pub sink: ConfigSink,
    /// Texture filter the sink scales with: auto, linear, or point.
    pub sampling: ConfigSampling,
    /// GPU to decode and render on: "auto", a DXGI adapter index, or part of the adapter name.
    pub gpu: String,
}

impl Clone for RecvConfig {
    fn clone(&self) -> (r: Self)
        ensures
            r == *self,
    {
        RecvConfig {
            port: self.port,
            audio_enabled: self.audio_enabled,
            audio_port: self.audio_port,
            audio_jitter_ms: self.audio_jitter_ms,
            jitter_ms: self.jitter_ms,
            udp_buffer_size: self.udp_buffer_size,
            mtu: self.mtu,
            jitter_faststart_packets: self.jitter_faststart_packets,
            jitter_max_dropout_ms: self.jitter_max_dropout_ms,
            jitter_max_misorder_ms: self.jitter_max_misorder_ms,
            fullscreen: self.fullscreen,
            decoder: self.decoder,
            sink: self.sink,
            sampling: self.sampling,
            gpu: self.gpu.clone(),
        }
    }
}

/// What pairs this machine with others.
#[derive(Debug)]
pub struct SecurityConfig {
    pub pin: String,
}

impl Clone for SecurityConfig {
    fn clone(&self) -> (r: Self)
        ensures
            r == *self,
    {
        SecurityConfig { pin: self.pin.clone() }
    }
}

/// The whole configuration.
#[derive(Debug)]
pub struct AppConfig {
    pub config_version: u32,
    pub startup_mode: StartupMode,
    pub autostart: bool,
    pub security: SecurityConfig,
    pub send: SendConfig,
    pub recv: RecvConfig,
}

impl Clone for AppConfig {
    fn clone(&self) -> (r: Self)
        ensures
            r == *self,
    {
        AppConfig {
            config_version: self.config_version,
            startup_mode: self.startup_mode,
            autostart: self.autostart,
            security: self.security.clone(),
            send: self.send.clone(),
            recv: self.recv.clone(),
        }
    }
}

impl Default for SecurityConfig {
    fn default() -> (r: Self)
        ensures
            r.pin@ == DEFAULT_PIN@,
    {
        SecurityConfig { pin: DEFAULT_PIN.to_owned() }
    }
}

impl SendConfig {
    /// The values of a fresh configuration.
    pub open spec fn is_default(self) -> bool {
        let r = self;
        &&& r.host@ == "auto"@
        &&& r.port == 5004
        &&& !r.audio_enabled
        &&& r.audio_port == DEFAULT_AUDIO_PORT
        &&& r.audio_bitrate == DEFAULT_AUDIO_BITRATE
        &&& r.audio_frame_ms@ == DEFAULT_AUDIO_FRAME_MS@
        &&& r.max_receivers == 3
        &&& r.prefer_virtual_display
        &&& r.enable_virtual_display
        &&& r.sync_virtual_display_resolution
        &&& r.monitor_index == -1
        &&& r.fps == DEFAULT_FPS
        &&& r.bitrate == DEFAULT_BITRATE
        &&& r.mtu == DEFAULT_MTU
        &&& r.udp_buffer_size == DEFAULT_UDP_BUFFER_SIZE
        &&& r.qos_dscp == -1
        &&& !r.allow_software_encoder
        &&& r.nvidia_tuning == ConfigNvidiaTuning::Auto
        &&& r.encoder == ConfigEncoder::Auto
        &&& r.gpu@ == AUTO@
        &&& r.capture_api == ConfigCaptureApi::Dxgi
        &&& r.zero_copy
        &&& r.show_cursor
        &&& r.width is None
        &&& r.height is None
    }
}

impl Default for SendConfig {
    fn default() -> (r: Self)
        ensures
            r.is_default(),
    {
        SendConfig {
            host: "auto".to_owned(),
            port: 5004,
            audio_enabled: false,
            audio_port: DEFAULT_AUDIO_PORT,
            audio_bitrate: DEFAULT_AUDIO_BITRATE,
            audio_frame_ms: DEFAULT_AUDIO_FRAME_MS.to_owned(),
            max_receivers: 3,
            prefer_virtual_display: true,
            enable_virtual_display: true,
            sync_virtual_display_resolution: true,
            monitor_index: -1,
            fps: DEFAULT_FPS,
            bitrate: DEFAULT_BITRATE,
            mtu: DEFAULT_MTU,
            udp_buffer_size: DEFAULT_UDP_BUFFER_SIZE,
            qos_dscp: -1,
            allow_software_encoder: false,
            nvidia_tuning: ConfigNvidiaTuning::Auto,
            encoder: ConfigEncoder::Auto,
            gpu: AUTO.to_owned(),
            capture_api: ConfigCaptureApi::Dxgi,
            zero_copy: true,
            show_cursor: true,
            width: None,
            height: None,
        }
    }
}

impl RecvConfig {
    /// The values of a fresh configuration.
    pub open spec fn is_default(self) -> bool {
        let r = self;
        &&& r.port == 5004
        &&& !r.audio_enabled
        &&& r.audio_port == DEFAULT_AUDIO_PORT
        &&& r.audio_jitter_ms == DEFAULT_AUDIO_JITTER_MS
        &&& r.jitter_ms == 15
        &&& r.udp_buffer_size == DEFAULT_UDP_BUFFER_SIZE
        &&& r.mtu == DEFAULT_MTU
        &&& r.jitter_faststart_packets == 2
        &&& r.jitter_max_dropout_ms == 200
        &&& r.jitter_max_misorder_ms == 50
        &&& r.fullscreen
        &&& r.decoder == ConfigDecoder::Auto
        &&& r.sink == ConfigSink::Auto
        &&& r.sampling == ConfigSampling::Auto
        &&& r.gpu@ == AUTO@
    }
}

impl Default for RecvConfig {
    fn default() -> (r: Self)
        ensures
            r.is_default(),
    {
        RecvConfig {
            port: 5004,
            audio_enabled: false,
            audio_port: DEFAULT_AUDIO_PORT,
            audio_jitter_ms: DEFAULT_AUDIO_JITTER_MS,
            jitter_ms: 15,
            udp_buffer_size: DEFAULT_UDP_BUFFER_SIZE,
            mtu: DEFAULT_MTU,
            jitter_faststart_packets: 2,
            jitter_max_dropout_ms: 200,
            jitter_max_misorder_ms: 50,
            fullscreen: true,
            decoder: ConfigDecoder::Auto,
            sink: ConfigSink::Auto,
            sampling: ConfigSampling::Auto,
            gpu: AUTO.to_owned(),
        }
    }
}

impl Default for AppConfig {
    fn default() -> (r: Self)
        ensures
            r.config_version == CURRENT_CONFIG_VERSION,
            r.startup_mode == StartupMode::Idle,
            r.autostart,
            r.security.pin@ == DEFAULT_PIN@,
            r.send.is_default(),
            r.recv.is_default(),
    {
        AppConfig {
            config_version: CURRENT_CONFIG_VERSION,
            startup_mode: StartupMode::Idle,
            autostart: true,
            security: SecurityConfig::default(),
            send: SendConfig::default(),
            recv: RecvConfig::default(),
        }
    }
}

/// Whether the arguments of a run are those of a configuration, whatever its PIN.
pub open spec fn sends_as(args: SendArgs, config: SendConfig) -> bool {
    &&& args.host == config.host
    &&& args.port == config.port
    &&& args.audio_enabled == config.audio_enabled
    &&& args.audio_port == config.audio_port
    &&& args.audio_bitrate == config.audio_bitrate
    &&& args.audio_frame_ms == config.audio_frame_ms
    &&& args.max_receivers == config.max_receivers
    &&& args.prefer_virtual_display == config.prefer_virtual_display
    &&& args.enable_virtual_display == config.enable_virtual_display
    &&& args.sync_virtual_display_resolution == config.sync_virtual_display_resolution
    &&& args.monitor_index == config.monitor_index
    &&& args.fps == config.fps
    &&& args.bitrate == config.bitrate
    &&& args.mtu == config.mtu
    &&& args.udp_buffer_size == config.udp_buffer_size
    &&& args.qos_dscp == config.qos_dscp
    &&& args.allow_software_encoder == config.allow_software_encoder
    &&& args.nvidia_tuning == <NvidiaTuning as vstd::std_specs::convert::FromSpec<ConfigNvidiaTuning>>::from_spec(config.nvidia_tuning)
    &&& args.encoder == <Encoder as vstd::std_specs::convert::FromSpec<ConfigEncoder>>::from_spec(config.encoder)
    &&& args.gpu == config.gpu
    &&& args.capture_api == <CaptureApi as vstd::std_specs::convert::FromSpec<ConfigCaptureApi>>::from_spec(config.capture_api)
    &&& args.zero_copy == config.zero_copy
    &&& args.no_cursor == !config.show_cursor
    &&& args.width == config.width
    &&& args.height == config.height
}

impl From<SendConfig> for SendArgs {
    fn from(config: SendConfig) -> (r: Self)
        ensures
            sends_as(r, config),
            r.pin@ == DEFAULT_PIN@,
    {
        SendArgs {
            host: config.host,
            port: config.port,
            audio_enabled: config.audio_enabled,
            audio_port: config.audio_port,
            audio_bitrate: config.audio_bitrate,
            audio_frame_ms: config.audio_frame_ms,
            max_receivers: config.max_receivers,
            prefer_virtual_display: config.prefer_virtual_display,
            enable_virtual_display: config.enable_virtual_display,
            sync_virtual_display_resolution: config.sync_virtual_display_resolution,
            monitor_index: config.monitor_index,
            fps: config.fps,
            bitrate: config.bitrate,
            mtu: config.mtu,
            udp_buffer_size: config.udp_buffer_size,
            qos_dscp: config.qos_dscp,
            allow_software_encoder: config.allow_software_encoder,
            nvidia_tuning: NvidiaTuning::from(config.nvidia_tuning),
            encoder: Encoder::from(config.encoder),
            gpu: config.gpu,
            capture_api: CaptureApi::from(config.capture_api),
            zero_copy: config.zero_copy,
            no_cursor: !config.show_cursor,
            width: config.width,
            height: config.height,
            pin: DEFAULT_PIN.to_owned(),
        }
    }
}

/// The result holds a new PIN string, so what it holds is stated by the conversion's own contract.
impl vstd::std_specs::convert::FromSpecImpl<SendConfig> for SendArgs {
    open spec fn obeys_from_spec() -> bool {
        false
    }

    open spec fn from_spec(config: SendConfig) -> Self {
        arbitrary()
    }
}

/// Whether the arguments of a run are those of a configuration, whatever its PIN.
pub open spec fn receives_as(args: RecvArgs, config: RecvConfig) -> bool {
    &&& args.port == config.port
    &&& args.audio_enabled == config.audio_enabled
    &&& args.audio_port == config.audio_port
    &&& args.audio_jitter_ms == config.audio_jitter_ms
    &&& args.jitter_ms == config.jitter_ms
    &&& args.udp_buffer_size == config.udp_buffer_size
    &&& args.mtu == config.mtu
    &&& args.jitter_faststart_packets == config.jitter_faststart_packets
    &&& args.jitter_max_dropout_ms == config.jitter_max_dropout_ms
    &&& args.jitter_max_misorder_ms == config.jitter_max_misorder_ms
    &&& args.fullscreen == config.fullscreen
    &&& args.decoder == <Decoder as vstd::std_specs::convert::FromSpec<ConfigDecoder>>::from_spec(config.decoder)
    &&& args.sink == <Sink as vstd::std_specs::convert::FromSpec<ConfigSink>>::from_spec(config.sink)
    &&& args.sampling == <Sampling as vstd::std_specs::convert::FromSpec<ConfigSampling>>::from_spec(config.sampling)
    &&& args.gpu == config.gpu
}

impl From<RecvConfig> for RecvArgs {
    fn from(config: RecvConfig) -> (r: Self)
        ensures
            receives_as(r, config),
            r.pin@ == DEFAULT_PIN@,
    {
        RecvArgs {
            port: config.port,
            audio_enabled: config.audio_enabled,
            audio_port: config.audio_port,
            audio_jitter_ms: config.audio_jitter_ms,
            jitter_ms: config.jitter_ms,
            udp_buffer_size: config.udp_buffer_size,
            mtu: config.mtu,
            jitter_faststart_packets: config.jitter_faststart_packets,
            jitter_max_dropout_ms: config.jitter_max_dropout_ms,
            jitter_max_misorder_ms: config.jitter_max_misorder_ms,
            fullscreen: config.fullscreen,
            decoder: Decoder::from(config.decoder),
            sink: Sink::from(config.sink),
            sampling: Sampling::from(config.sampling),
            gpu: config.gpu,
            pin: DEFAULT_PIN.to_owned(),
        }
    }
}

/// The result holds a new PIN string, so what it holds is stated by the conversion's own contract.
impl vstd::std_specs::convert::FromSpecImpl<RecvConfig> for RecvArgs {
    open spec fn obeys_from_spec() -> bool {
        false
    }

    open spec fn from_spec(config: RecvConfig) -> Self {
        arbitrary()
    }
}

impl AppConfig {
    /// What this machine sends with.
    pub fn send_args(&self) -> (r: SendArgs)
        ensures
            sends_as(r, self.send),
            r.pin == self.security.pin,
    {
        let mut args = SendArgs::from(self.send.clone());
        args.pin = self.security.pin.clone();
        args
    }

    /// What this machine receives with.
    pub fn recv_args(&self) -> (r: RecvArgs)
        ensures
            receives_as(r, self.recv),
            r.pin == self.security.pin,
    {
        let mut args = RecvArgs::from(self.recv.clone());
        args.pin = self.security.pin.clone();
        args
    }
}

/// A number that is another where it is an outdated default.
pub open spec fn migrated_number(value: u32, outdated: bool, replacement: u32) -> u32 {
    if outdated {
        replacement
    } else {
        value
    }
}

pub open spec fn is_legacy_audio_jitter(value: u32) -> bool {
    value == 5 || value == 15
}

/// The Opus frame size after a migration from a version.
pub open spec fn migrated_audio_frame(version: u32, frame: Seq<char>) -> Seq<char> {
    if version < STABLE_LOW_LATENCY_AUDIO_CONFIG_VERSION && frame
        == AGGRESSIVE_DEFAULT_AUDIO_FRAME_MS@ {
        DEFAULT_AUDIO_FRAME_MS@
    } else {
        frame
    }
}

/// The audio jitter buffer after a migration from a version.
pub open spec fn migrated_audio_jitter(version: u32, jitter: u32) -> u32 {
    migrated_number(
        jitter,
        version < LOW_LATENCY_AUDIO_CONFIG_VERSION && is_legacy_audio_jitter(jitter) || version
            < STABLE_LOW_LATENCY_AUDIO_CONFIG_VERSION && jitter
            == AGGRESSIVE_DEFAULT_AUDIO_JITTER_MS,
        DEFAULT_AUDIO_JITTER_MS,
    )
}

/// A configuration of an older version with the current version, and with the current defaults in
/// place of the defaults of its time. Values that were no defaults stay.
pub open spec fn is_migrated(after: AppConfig, before: AppConfig) -> bool {
    let version = before.config_version;
    let balanced = version < BALANCED_RESOURCE_CONFIG_VERSION;
    &&& after.config_version == CURRENT_CONFIG_VERSION
    &&& after.startup_mode == before.startup_mode
    &&& after.autostart == before.autostart
    &&& after.security == before.security
    &&& after.send == (SendConfig {
        fps: migrated_number(
            before.send.fps,
            balanced && before.send.fps == LEGACY_DEFAULT_FPS,
            DEFAULT_FPS,
        ),
        bitrate: migrated_number(
            before.send.bitrate,
            balanced && before.send.bitrate == LEGACY_DEFAULT_BITRATE,
            DEFAULT_BITRATE,
        ),
        udp_buffer_size: migrated_number(
            before.send.udp_buffer_size,
            balanced && before.send.udp_buffer_size == LEGACY_DEFAULT_UDP_BUFFER_SIZE,
            DEFAULT_UDP_BUFFER_SIZE,
        ),
        audio_frame_ms: after.send.audio_frame_ms,
        ..before.send
    })
    &&& after.send.audio_frame_ms@ == migrated_audio_frame(version, before.send.audio_frame_ms@)
    &&& after.recv == (RecvConfig {
        udp_buffer_size: migrated_number(
            before.recv.udp_buffer_size,
            balanced && before.recv.udp_buffer_size == LEGACY_DEFAULT_UDP_BUFFER_SIZE,
            DEFAULT_UDP_BUFFER_SIZE,
        ),
        audio_jitter_ms: migrated_audio_jitter(version, before.recv.audio_jitter_ms),
        ..before.recv
    })
}

fn migrate_send(send: &mut SendConfig, balanced: bool)
    ensures
        *final(send) == (SendConfig {
            fps: migrated_number(
                old(send).fps,
                balanced && old(send).fps == LEGACY_DEFAULT_FPS,
                DEFAULT_FPS,
            ),
            bitrate: migrated_number(
                old(send).bitrate,
                balanced && old(send).bitrate == LEGACY_DEFAULT_BITRATE,
                DEFAULT_BITRATE,
            ),
            udp_buffer_size: migrated_number(
                old(send).udp_buffer_size,
                balanced && old(send).udp_buffer_size == LEGACY_DEFAULT_UDP_BUFFER_SIZE,
                DEFAULT_UDP_BUFFER_SIZE,
            ),
            audio_frame_ms: final(send).audio_frame_ms,
            ..*old(send)
        }),
        final(send).audio_frame_ms@ == if old(send).audio_frame_ms@
            == AGGRESSIVE_DEFAULT_AUDIO_FRAME_MS@ {
            DEFAULT_AUDIO_FRAME_MS@
        } else {
            old(send).audio_frame_ms@
        },
{
    if balanced && send.fps == LEGACY_DEFAULT_FPS {
        send.fps = DEFAULT_FPS;
    }
    if balanced && send.bitrate == LEGACY_DEFAULT_BITRATE {
        send.bitrate = DEFAULT_BITRATE;
    }
    if balanced && send.udp_buffer_size == LEGACY_DEFAULT_UDP_BUFFER_SIZE {
        send.udp_buffer_size = DEFAULT_UDP_BUFFER_SIZE;
    }
    if text::str_equal(&send.audio_frame_ms, AGGRESSIVE_DEFAULT_AUDIO_FRAME_MS) {
        send.audio_frame_ms = DEFAULT_AUDIO_FRAME_MS.to_owned();
    }
}

fn migrate_recv(recv: &mut RecvConfig, version: u32, balanced: bool)
    ensures
        *final(recv) == (RecvConfig {
            udp_buffer_size: migrated_number(
                old(recv).udp_buffer_size,
                balanced && old(recv).udp_buffer_size == LEGACY_DEFAULT_UDP_BUFFER_SIZE,
                DEFAULT_UDP_BUFFER_SIZE,
            ),
            audio_jitter_ms: migrated_audio_jitter(version, old(recv).audio_jitter_ms),
            ..*old(recv)
        }),
{
    if balanced && recv.udp_buffer_size == LEGACY_DEFAULT_UDP_BUFFER_SIZE {
        recv.udp_buffer_size = DEFAULT_UDP_BUFFER_SIZE;
    }
    let jitter: u32 = recv.audio_jitter_ms;
    if (version < LOW_LATENCY_AUDIO_CONFIG_VERSION && (jitter == 5 || jitter == 15)) || (version
        < STABLE_LOW_LATENCY_AUDIO_CONFIG_VERSION && jitter == AGGRESSIVE_DEFAULT_AUDIO_JITTER_MS) {
        recv.audio_jitter_ms = DEFAULT_AUDIO_JITTER_MS;
    }
}

/// Brings a configuration of an older version up to date, and tells whether there was anything to
/// bring.
pub fn migrate_legacy_defaults(config: &mut AppConfig) -> (r: bool)
    ensures
        r == (old(config).config_version < CURRENT_CONFIG_VERSION),
        r ==> is_migrated(*final(config), *old(config)),
        !r ==> *final(config) == *old(config),
{
    if config.config_version >= CURRENT_CONFIG_VERSION {
        return false;
    }
    let version: u32 = config.config_version;
    let balanced = version < BALANCED_RESOURCE_CONFIG_VERSION;
    migrate_send(&mut config.send, balanced);
    migrate_recv(&mut config.recv, version, balanced);
    config.config_version = CURRENT_CONFIG_VERSION;
    true
}

/// A migration is done once: its result is of the current version, and so stays as it is from then
/// on.
pub proof fn law_migration_happens_once(before: AppConfig, after: AppConfig)
    requires
        is_migrated(after, before),
    ensures
        after.config_version >= CURRENT_CONFIG_VERSION,
{
}

/// Values that were chosen on purpose survive every migration.
pub proof fn law_nondefault_values_survive_migration(before: AppConfig, after: AppConfig)
    requires
        is_migrated(after, before),
    ensures
        before.send.fps != LEGACY_DEFAULT_FPS ==> after.send.fps == before.send.fps,
        before.send.bitrate != LEGACY_DEFAULT_BITRATE ==> after.send.bitrate
            == before.send.bitrate,
        before.send.udp_buffer_size != LEGACY_DEFAULT_UDP_BUFFER_SIZE ==> after.send.udp_buffer_size
            == before.send.udp_buffer_size,
        before.recv.udp_buffer_size != LEGACY_DEFAULT_UDP_BUFFER_SIZE ==> after.recv.udp_buffer_size
            == before.recv.udp_buffer_size,
        before.send.audio_frame_ms@ != AGGRESSIVE_DEFAULT_AUDIO_FRAME_MS@
            ==> after.send.audio_frame_ms@ == before.send.audio_frame_ms@,
        !is_legacy_audio_jitter(before.recv.audio_jitter_ms) && before.recv.audio_jitter_ms
            != AGGRESSIVE_DEFAULT_AUDIO_JITTER_MS ==> after.recv.audio_jitter_ms
            == before.recv.audio_jitter_ms,
        after.security == before.security,
        after.send.host == before.send.host,
        after.send.gpu == before.send.gpu,
        after.recv.gpu == before.recv.gpu,
{
}

/// Takes a configuration that was read from its file: its PIN must be one, and an older version is
/// brought up to date. Tells whether the file has to be written anew.
pub fn accept_loaded(config: AppConfig) -> (r: Result<(AppConfig, bool), DiscoveryError>)
    ensures
        match r {
            Ok((accepted, changed)) => {
                &&& discovery::is_pin(config.security.pin@)
                &&& changed == (config.config_version < CURRENT_CONFIG_VERSION)
                &&& changed ==> is_migrated(accepted, config)
                &&& !changed ==> accepted == config
            },
            Err(error) => !discovery::is_pin(config.security.pin@) && error
                == DiscoveryError::PinFormat,
        },
{
    match discovery::normalize_pin(&config.security.pin) {
        Ok(_) => {},
        Err(error) => return Err(error),
    }
    let mut config = config;
    let changed = migrate_legacy_defaults(&mut config);
    Ok((config, changed))
}

/// What is configured for sending is what the pipelines of a sender say: the frame rate and size,
/// the sizes of packets and buffers and the traffic class of the video, the rate and the port of the
/// audio, and the receivers.
pub proof fn law_configured_sender_streams_as_configured(
    args: SendArgs,
    config: SendConfig,
    target: Option<DisplayMonitor>,
    machine: Machine,
)
    requires
        sends_as(args, config),
    ensures
        pipeline::sender_video(args, target, machine) matches Ok(video) ==> {
            &&& reading::tells(video, ",framerate="@, config.fps as nat)
            &&& config.width is Some ==> reading::tells(video, ",width="@, config.width->0 as nat)
            &&& config.height is Some ==> reading::tells(
                video,
                ",height="@,
                config.height->0 as nat,
            )
            &&& reading::tells(video, " mtu="@, config.mtu as nat)
            &&& reading::tells(video, " buffer-size="@, config.udp_buffer_size as nat)
            &&& reading::tells_integer(video, " qos-dscp="@, config.qos_dscp as int)
            &&& pipeline::clients_text(config.host@, config.port, false) matches Ok(clients)
                && text::contains(
                video,
                " ! multiudpsink clients="@ + pipeline::literal_text(clients),
            )
        },
        pipeline::sender_audio(args, machine.registry) matches Ok(audio) ==> {
            &&& reading::tells(audio, " ! opusenc bitrate="@, config.audio_bitrate as nat)
            &&& text::contains(audio, " frame-size="@ + config.audio_frame_ms@)
            &&& pipeline::clients_text(config.host@, config.audio_port, true) matches Ok(clients)
                && text::contains(
                audio,
                " ! multiudpsink clients="@ + pipeline::literal_text(clients),
            )
        },
        pipeline::sender_source(args, target, machine) matches Ok((source, tied)) ==> {
            &&& tied is None ==> reading::tells_integer(
                source,
                " monitor-index="@,
                config.monitor_index as int,
            )
            &&& text::ends_with(
                source,
                if config.show_cursor {
                    "true"@
                } else {
                    "false"@
                },
            )
            &&& text::contains(
                source,
                " capture-api="@ + if config.capture_api == ConfigCaptureApi::Wgc {
                    "wgc"@
                } else {
                    "dxgi"@
                },
            )
            &&& target is None && !config.prefer_virtual_display ==> tied is None
        },
{
    pipeline::law_sender_video_carries_its_settings(args, target, machine);
    pipeline::law_sender_audio_carries_its_settings(args, machine.registry);
    pipeline::law_capture_names_its_display(args, target, machine);
}

/// What is configured for sending decides the encoder, its rate and its GPU, how many receivers are
/// taken, and what becomes of virtual displays.
pub proof fn law_configured_sender_decides_as_configured(args: SendArgs, config: SendConfig)
    requires
        sends_as(args, config),
    ensures
        args.bitrate == config.bitrate && args.gpu@ == config.gpu@ && args.zero_copy
            == config.zero_copy,
        args.max_receivers == config.max_receivers,
        args.audio_enabled == config.audio_enabled,
        args.allow_software_encoder == config.allow_software_encoder,
        args.enable_virtual_display == config.enable_virtual_display,
        args.sync_virtual_display_resolution == config.sync_virtual_display_resolution,
        args.encoder == Encoder::Auto <==> config.encoder == ConfigEncoder::Auto,
        args.encoder == Encoder::Nvidia <==> config.encoder == ConfigEncoder::Nvidia,
        args.encoder == Encoder::Amf <==> config.encoder == ConfigEncoder::Amf,
        args.encoder == Encoder::MediaFoundation <==> config.encoder
            == ConfigEncoder::MediaFoundation,
        args.encoder == Encoder::QuickSync <==> config.encoder == ConfigEncoder::QuickSync,
        args.encoder == Encoder::X264 <==> config.encoder == ConfigEncoder::X264,
        args.nvidia_tuning == NvidiaTuning::Auto <==> config.nvidia_tuning
            == ConfigNvidiaTuning::Auto,
        args.nvidia_tuning == NvidiaTuning::Gtx <==> config.nvidia_tuning
            == ConfigNvidiaTuning::Gtx,
        args.nvidia_tuning == NvidiaTuning::Rtx <==> config.nvidia_tuning
            == ConfigNvidiaTuning::Rtx,
{
}

/// What is configured for receiving is what the pipelines of a receiver say and how it is drawn.
pub proof fn law_configured_receiver_plays_as_configured(
    args: RecvArgs,
    config: RecvConfig,
    route: crate::decoders::RouteModel,
    registry: ElementRegistry,
)
    requires
        receives_as(args, config),
    ensures
        pipeline::receiver_video(args, route) matches Ok(video) ==> {
            &&& reading::tells(video, " port="@, config.port as nat)
            &&& reading::tells(video, " buffer-size="@, config.udp_buffer_size as nat)
            &&& reading::tells(video, " mtu="@, config.mtu as nat)
            &&& reading::tells(video, " latency="@, config.jitter_ms as nat)
            &&& reading::tells(
                video,
                " faststart-min-packets="@,
                config.jitter_faststart_packets as nat,
            )
            &&& reading::tells(video, " max-dropout-time="@, config.jitter_max_dropout_ms as nat)
            &&& reading::tells(video, " max-misorder-time="@, config.jitter_max_misorder_ms as nat)
        },
        pipeline::receiver_audio(args, registry) matches Ok(audio) ==> {
            &&& reading::number_at(audio, "udpsrc port="@.len() as int) == Some(
                config.audio_port as nat,
            )
            &&& reading::tells(
                audio,
                " ! rtpjitterbuffer latency="@,
                config.audio_jitter_ms as nat,
            )
        },
        args.fullscreen == config.fullscreen && args.gpu@ == config.gpu@,
        args.audio_enabled == config.audio_enabled,
        args.decoder == Decoder::Auto <==> config.decoder == ConfigDecoder::Auto,
        args.decoder == Decoder::D3d11 <==> config.decoder == ConfigDecoder::D3d11,
        args.decoder == Decoder::Avdec <==> config.decoder == ConfigDecoder::Avdec,
        args.decoder == Decoder::Software <==> config.decoder == ConfigDecoder::Software,
        args.sink == Sink::Auto <==> config.sink == ConfigSink::Auto,
        args.sink == Sink::D3d11 <==> config.sink == ConfigSink::D3d11,
        args.sink == Sink::AutoVideo <==> config.sink == ConfigSink::AutoVideo,
        args.sampling == Sampling::Auto <==> config.sampling == ConfigSampling::Auto,
        args.sampling == Sampling::Linear <==> config.sampling == ConfigSampling::Linear,
        args.sampling == Sampling::Point <==> config.sampling == ConfigSampling::Point,
{
    pipeline::law_receiver_video_carries_its_settings(args, route);
    pipeline::law_receiver_audio_carries_its_settings(args, registry);
}

/// A migration replaces the defaults of each version by those of today, and only in files that are
/// older than the version that gave them up.
pub proof fn law_old_defaults_are_replaced(before: AppConfig, after: AppConfig)
    requires
        is_migrated(after, before),
    ensures
        before.config_version < 2 && before.send.fps == 60 ==> after.send.fps == 30,
        before.config_version < 2 && before.send.bitrate == 12_000 ==> after.send.bitrate == 8_000,
        before.config_version < 2 && before.send.udp_buffer_size == 4_194_304
            ==> after.send.udp_buffer_size == 1_048_576,
        before.config_version < 2 && before.recv.udp_buffer_size == 4_194_304
            ==> after.recv.udp_buffer_size == 1_048_576,
        before.config_version < 3 && (before.recv.audio_jitter_ms == 5
            || before.recv.audio_jitter_ms == 15) ==> after.recv.audio_jitter_ms == 10,
        before.config_version < 4 && before.recv.audio_jitter_ms == 3 ==> after.recv.audio_jitter_ms
            == 10,
        before.config_version < 4 && before.send.audio_frame_ms@ == "2.5"@
            ==> after.send.audio_frame_ms@ == "5"@,
        before.config_version >= 2 ==> after.send.fps == before.send.fps && after.send.bitrate
            == before.send.bitrate && after.send.udp_buffer_size == before.send.udp_buffer_size
            && after.recv.udp_buffer_size == before.recv.udp_buffer_size,
        before.config_version >= 3 && before.recv.audio_jitter_ms != 3
            ==> after.recv.audio_jitter_ms == before.recv.audio_jitter_ms,
        after.send.audio_bitrate == before.send.audio_bitrate && after.send.mtu == before.send.mtu,
        after.recv.jitter_ms == before.recv.jitter_ms && after.recv.port == before.recv.port,
        after.config_version == 4,
{
}

/// A configuration as it comes can be run: nothing about its numbers is refused, neither for a
/// sender with an address nor for a receiver.
pub proof fn law_defaults_can_be_run(send: SendConfig, recv: RecvConfig, args: SendArgs, r: RecvArgs)
    requires
        send.is_default(),
        recv.is_default(),
        sends_as(args, SendConfig { host: args.host, ..send }),
        receives_as(r, recv),
        !pipeline::unresolved_host(args.host@),
    ensures
        pipeline::sender_video_problem(args) is None,
        pipeline::sender_audio_problem(args) is None,
        pipeline::receiver_video_problem(r) is None,
        args.port == r.port,
        args.audio_port == r.audio_port,
        args.mtu == r.mtu,
{
}

} // verus!
