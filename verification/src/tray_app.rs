//! The tray application's rules: how a session is started, ended and repaired, and what a choice
//! in the menu does to the configuration and to what is running.
use crate::config::{AppConfig, RecvConfig, SendConfig, StartupMode};
use crate::monitors;
use crate::monitors::DisplayMonitor;
use crate::search;
use crate::text;
use crate::topology;
use crate::tray_menu;
use crate::tray_menu::{ActiveMode, GpuMenuChoice, GpuSide};
use vstd::prelude::*;

verus! {

pub const TRAY_MENU_POLL_INTERVAL_MS: u64 = 100;

pub const TRAY_RIGHT_CLICK_FALLBACK_MS: u64 = 350;

pub const TRAY_MENU_REOPEN_GUARD_MS: u64 = 750;

/// Whether the session that is ending has virtual displays of its own to hand back.
///
/// Only a sender brings them up, and only when it is configured to. A receiver-mode or idle stop
/// must leave the driver alone: the device may have been installed by hand from the tray menu, and
/// removing it needs elevation, so a stop that cannot own the displays must not prompt for one.
pub fn releases_sender_virtual_displays(ending_mode: ActiveMode, enable_virtual_display: bool) -> (r:
    bool)
    ensures
        r == (ending_mode == ActiveMode::Sender && enable_virtual_display),
{
    ending_mode == ActiveMode::Sender && enable_virtual_display
}

pub open spec fn startup_mode_of(mode: ActiveMode) -> StartupMode {
    match mode {
        ActiveMode::Idle => StartupMode::Idle,
        ActiveMode::Sender => StartupMode::Sender,
        ActiveMode::Receiver => StartupMode::Receiver,
    }
}

/// Remembers a mode as the one that the application starts in.
pub fn remember_mode(config: &mut AppConfig, mode: ActiveMode)
    ensures
        *final(config) == (AppConfig { startup_mode: startup_mode_of(mode), ..*old(config) }),
{
    config.startup_mode = match mode {
        ActiveMode::Idle => StartupMode::Idle,
        ActiveMode::Sender => StartupMode::Sender,
        ActiveMode::Receiver => StartupMode::Receiver,
    };
}

/// The mode that the application starts in.
pub fn mode_at_startup(config: &AppConfig) -> (r: ActiveMode)
    ensures
        startup_mode_of(r) == config.startup_mode,
{
    match config.startup_mode {
        StartupMode::Idle => ActiveMode::Idle,
        StartupMode::Sender => ActiveMode::Sender,
        StartupMode::Receiver => ActiveMode::Receiver,
    }
}

/// An application that is started anew is in the mode that was remembered last.
pub proof fn law_remembered_mode_comes_back(config: AppConfig, mode: ActiveMode, next: ActiveMode)
    requires
        startup_mode_of(next) == (AppConfig {
            startup_mode: startup_mode_of(mode),
            ..config
        }).startup_mode,
    ensures
        next == mode,
{
}

/// Whether an update would interrupt the session: a sender's own busy state comes from its supervisor, which knows
/// whether any pipeline is actually running; the tray only knows which mode was selected.
pub fn session_blocks_update(mode: ActiveMode) -> (r: bool)
    ensures
        r == (mode == ActiveMode::Receiver),
{
    mode == ActiveMode::Receiver
}

/// A text with an explanation behind it.
fn explained(start: &str, error: &str) -> (r: String)
    ensures
        r@ == start@ + error@,
{
    let mut out = start.to_owned();
    out.push_str(error);
    out
}

/// How a sender is started: the step that is due.
#[derive(Clone, Copy, Debug, PartialEq, Eq, Structural)]
pub enum SenderStart {
    ReloadConfig,
    /// What runs is stopped, but keeps its virtual displays: a restart would otherwise remove them
    /// and immediately install them again, behind two elevation prompts instead of none.
    StopCurrent,
    StartControl,
    Announce,
    /// Leave the search for receivers, and all else, to a supervisor.
    Supervise,
    ResolveReceivers,
    BuildVideo,
    BuildAudio,
    SpawnVideo,
    SpawnAudio,
    Running,
}

impl SenderStart {
    /// The step after this one.
    pub open spec fn spec_next(self, auto_host: bool, audio: bool) -> SenderStart {
        match self {
            SenderStart::ReloadConfig => SenderStart::StopCurrent,
            SenderStart::StopCurrent => SenderStart::StartControl,
            SenderStart::StartControl => SenderStart::Announce,
            SenderStart::Announce => if auto_host {
                SenderStart::Supervise
            } else {
                SenderStart::ResolveReceivers
            },
            SenderStart::Supervise => SenderStart::Running,
            SenderStart::ResolveReceivers => SenderStart::BuildVideo,
            SenderStart::BuildVideo => if audio {
                SenderStart::BuildAudio
            } else {
                SenderStart::SpawnVideo
            },
            SenderStart::BuildAudio => SenderStart::SpawnVideo,
            SenderStart::SpawnVideo => if audio {
                SenderStart::SpawnAudio
            } else {
                SenderStart::Running
            },
            SenderStart::SpawnAudio => SenderStart::Running,
            SenderStart::Running => SenderStart::Running,
        }
    }

    /// What the user is told where a step fails and the start ends with it. A sender runs without
    /// touch control, and without its own announcement, so these two may fail.
    pub open spec fn complaint(self) -> Option<Seq<char>> {
        match self {
            SenderStart::ReloadConfig => Some("Config reload failed: "@),
            SenderStart::StopCurrent => Some("Stop failed: "@),
            SenderStart::ResolveReceivers => Some("Receiver discovery failed: "@),
            SenderStart::BuildVideo => Some("Sender start failed: "@),
            SenderStart::BuildAudio => Some("Sender audio start failed: "@),
            _ => None,
        }
    }

    /// Takes note of how the step that was due has ended.
    pub fn step(&mut self, error: Option<&str>, auto_host: bool, audio: bool) -> (r: Result<
        (),
        String,
    >)
        ensures
            match (error, old(self).complaint()) {
                (Some(reason), Some(complaint)) => r is Err && r->Err_0@ == complaint + reason@
                    && *final(self) == *old(self),
                _ => r is Ok && *final(self) == old(self).spec_next(auto_host, audio),
            },
    {
        if let Some(reason) = error {
            match *self {
                SenderStart::ReloadConfig => {
                    return Err(explained("Config reload failed: ", reason));
                },
                SenderStart::StopCurrent => {
                    return Err(explained("Stop failed: ", reason));
                },
                SenderStart::ResolveReceivers => {
                    return Err(explained("Receiver discovery failed: ", reason));
                },
                SenderStart::BuildVideo => {
                    return Err(explained("Sender start failed: ", reason));
                },
                SenderStart::BuildAudio => {
                    return Err(explained("Sender audio start failed: ", reason));
                },
                _ => {},
            }
        }
        *self = match *self {
            SenderStart::ReloadConfig => SenderStart::StopCurrent,
            SenderStart::StopCurrent => SenderStart::StartControl,
            SenderStart::StartControl => SenderStart::Announce,
            SenderStart::Announce => if auto_host {
                SenderStart::Supervise
            } else {
                SenderStart::ResolveReceivers
            },
            SenderStart::Supervise => SenderStart::Running,
            SenderStart::ResolveReceivers => SenderStart::BuildVideo,
            SenderStart::BuildVideo => if audio {
                SenderStart::BuildAudio
            } else {
                SenderStart::SpawnVideo
            },
            SenderStart::BuildAudio => SenderStart::SpawnVideo,
            SenderStart::SpawnVideo => if audio {
                SenderStart::SpawnAudio
            } else {
                SenderStart::Running
            },
            SenderStart::SpawnAudio => SenderStart::Running,
            SenderStart::Running => SenderStart::Running,
        };
        Ok(())
    }

    pub open spec fn spawns(self) -> bool {
        self is SpawnVideo || self is SpawnAudio || self is Supervise
    }
}

/// The step that a start has come to after a number of steps.
pub open spec fn sender_start_after(steps: nat, auto_host: bool, audio: bool) -> SenderStart
    decreases steps,
{
    if steps == 0 {
        SenderStart::ReloadConfig
    } else {
        sender_start_after((steps - 1) as nat, auto_host, audio).spec_next(auto_host, audio)
    }
}

/// A sender is running after nine steps at the most; and once a pipeline is spawned, neither that
/// step nor any later one can fail the start.
pub proof fn law_sender_start_spawns_last(steps: nat, later: nat, auto_host: bool, audio: bool)
    ensures
        steps >= 9 ==> sender_start_after(steps, auto_host, audio) is Running,
        sender_start_after(steps, auto_host, audio).spawns() && later >= steps ==> {
            let then = sender_start_after(later, auto_host, audio);
            (then.spawns() || then is Running) && then.complaint() is None
        },
    decreases later,
{
    lemma_sender_start_ends(steps, auto_host, audio);
    if later > steps {
        law_sender_start_spawns_last(steps, (later - 1) as nat, auto_host, audio);
    }
}

proof fn lemma_sender_start_ends(steps: nat, auto_host: bool, audio: bool)
    ensures
        steps >= 9 ==> sender_start_after(steps, auto_host, audio) is Running,
    decreases steps,
{
    reveal_with_fuel(sender_start_after, 11);
    if steps > 9 {
        lemma_sender_start_ends((steps - 1) as nat, auto_host, audio);
    }
}

/// How a receiver is started: the step that is due.
#[derive(Clone, Copy, Debug, PartialEq, Eq, Structural)]
pub enum ReceiverStart {
    ReloadConfig,
    /// The session that runs ends for good, and hands back its virtual displays.
    EndSession,
    BuildVideo,
    BuildAudio,
    SpawnVideo,
    SpawnAudio,
    /// Keep the machine awake, and look after the window.
    GuardWindow,
    Announce,
    Running,
}

impl ReceiverStart {
    pub open spec fn spec_next(self, audio: bool) -> ReceiverStart {
        match self {
            ReceiverStart::ReloadConfig => ReceiverStart::EndSession,
            ReceiverStart::EndSession => ReceiverStart::BuildVideo,
            ReceiverStart::BuildVideo => if audio {
                ReceiverStart::BuildAudio
            } else {
                ReceiverStart::SpawnVideo
            },
            ReceiverStart::BuildAudio => ReceiverStart::SpawnVideo,
            ReceiverStart::SpawnVideo => if audio {
                ReceiverStart::SpawnAudio
            } else {
                ReceiverStart::GuardWindow
            },
            ReceiverStart::SpawnAudio => ReceiverStart::GuardWindow,
            ReceiverStart::GuardWindow => ReceiverStart::Announce,
            ReceiverStart::Announce => ReceiverStart::Running,
            ReceiverStart::Running => ReceiverStart::Running,
        }
    }

    /// What the user is told where a step fails and the start ends with it. A receiver that cannot
    /// be announced can still be reached by its address.
    pub open spec fn complaint(self) -> Option<Seq<char>> {
        match self {
            ReceiverStart::ReloadConfig => Some("Config reload failed: "@),
            ReceiverStart::EndSession => Some("Stop failed: "@),
            ReceiverStart::BuildVideo => Some("Receiver start failed: "@),
            ReceiverStart::BuildAudio => Some("Receiver audio start failed: "@),
            _ => None,
        }
    }

    /// Takes note of how the step that was due has ended.
    pub fn step(&mut self, error: Option<&str>, audio: bool) -> (r: Result<(), String>)
        ensures
            match (error, old(self).complaint()) {
                (Some(reason), Some(complaint)) => r is Err && r->Err_0@ == complaint + reason@
                    && *final(self) == *old(self),
                _ => r is Ok && *final(self) == old(self).spec_next(audio),
            },
    {
        if let Some(reason) = error {
            match *self {
                ReceiverStart::ReloadConfig => {
                    return Err(explained("Config reload failed: ", reason));
                },
                ReceiverStart::EndSession => {
                    return Err(explained("Stop failed: ", reason));
                },
                ReceiverStart::BuildVideo => {
                    return Err(explained("Receiver start failed: ", reason));
                },
                ReceiverStart::BuildAudio => {
                    return Err(explained("Receiver audio start failed: ", reason));
                },
                _ => {},
            }
        }
        *self = match *self {
            ReceiverStart::ReloadConfig => ReceiverStart::EndSession,
            ReceiverStart::EndSession => ReceiverStart::BuildVideo,
            ReceiverStart::BuildVideo => if audio {
                ReceiverStart::BuildAudio
            } else {
                ReceiverStart::SpawnVideo
            },
            ReceiverStart::BuildAudio => ReceiverStart::SpawnVideo,
            ReceiverStart::SpawnVideo => if audio {
                ReceiverStart::SpawnAudio
            } else {
                ReceiverStart::GuardWindow
            },
            ReceiverStart::SpawnAudio => ReceiverStart::GuardWindow,
            ReceiverStart::GuardWindow => ReceiverStart::Announce,
            ReceiverStart::Announce => ReceiverStart::Running,
            ReceiverStart::Running => ReceiverStart::Running,
        };
        Ok(())
    }

    pub open spec fn spawns(self) -> bool {
        self is SpawnVideo || self is SpawnAudio
    }
}

pub open spec fn receiver_start_after(steps: nat, audio: bool) -> ReceiverStart
    decreases steps,
{
    if steps == 0 {
        ReceiverStart::ReloadConfig
    } else {
        receiver_start_after((steps - 1) as nat, audio).spec_next(audio)
    }
}

/// A receiver is running after eight steps at the most; and once a pipeline is spawned, neither that
/// step nor any later one can fail the start.
pub proof fn law_receiver_start_spawns_last(steps: nat, later: nat, audio: bool)
    ensures
        steps >= 8 ==> receiver_start_after(steps, audio) is Running,
        receiver_start_after(steps, audio).spawns() && later >= steps ==> {
            let then = receiver_start_after(later, audio);
            then.complaint() is None
        },
    decreases later,
{
    lemma_receiver_start_ends(steps, audio);
    if later > steps {
        law_receiver_start_spawns_last(steps, (later - 1) as nat, audio);
    }
}

proof fn lemma_receiver_start_ends(steps: nat, audio: bool)
    ensures
        steps >= 8 ==> receiver_start_after(steps, audio) is Running,
    decreases steps,
{
    reveal_with_fuel(receiver_start_after, 10);
    if steps > 8 {
        lemma_receiver_start_ends((steps - 1) as nat, audio);
    }
}

/// What is told of two pipelines that were stopped, the audio one first: the first error there is.
pub fn stop_result(audio: Option<String>, video: Option<String>) -> (r: Result<(), String>)
    ensures
        r == match audio {
            Some(error) => Err::<(), String>(error),
            None => match video {
                Some(error) => Err::<(), String>(error),
                None => Ok::<(), String>(()),
            },
        },
{
    match audio {
        Some(error) => Err(error),
        None => match video {
            Some(error) => Err(error),
            None => Ok(()),
        },
    }
}

/// What is done about a video pipeline that has come to its end.
#[derive(Debug, PartialEq, Eq)]
pub enum PipelineEnd {
    /// A receiver listens again: the stream was disconnected.
    Restart,
    /// The session is over. It may have handed out virtual displays, and may have gone wrong.
    GoIdle { release_displays: bool, error: Option<String> },
}

/// Decides what follows a video pipeline's end. `restart_error` is why a receiver cannot be built
/// anew, if it cannot.
pub fn pipeline_ended(
    mode: ActiveMode,
    enable_virtual_display: bool,
    error: Option<&str>,
    restart_error: Option<&str>,
) -> (r: PipelineEnd)
    ensures
        match r {
            PipelineEnd::Restart => mode == ActiveMode::Receiver && error is None
                && restart_error is None,
            PipelineEnd::GoIdle { release_displays, error: told } => {
                &&& !(mode == ActiveMode::Receiver && error is None && restart_error is None)
                &&& release_displays == (mode == ActiveMode::Sender && enable_virtual_display)
                &&& match error {
                    Some(reason) => told is Some && told->0@ == "Pipeline stopped: "@ + reason@,
                    None => if mode == ActiveMode::Receiver {
                        told is Some && told->0@ == "Receiver restart failed: "@
                            + restart_error->0@
                    } else {
                        told is None
                    },
                }
            },
        },
{
    let told = match error {
        Some(reason) => Some(explained("Pipeline stopped: ", reason)),
        None => if mode == ActiveMode::Receiver {
            match restart_error {
                None => return PipelineEnd::Restart,
                Some(reason) => Some(explained("Receiver restart failed: ", reason)),
            }
        } else {
            None
        },
    };
    PipelineEnd::GoIdle {
        release_displays: releases_sender_virtual_displays(mode, enable_virtual_display),
        error: told,
    }
}

/// Takes note of an audio pipeline that has come to its end by itself: audio is off in the mode
/// that runs, and the video session goes on.
pub fn audio_ended(config: &mut AppConfig, mode: ActiveMode)
    ensures
        *final(config) == match mode {
            ActiveMode::Sender => (AppConfig {
                send: (SendConfig { audio_enabled: false, ..old(config).send }),
                ..*old(config)
            }),
            ActiveMode::Receiver => (AppConfig {
                recv: (RecvConfig { audio_enabled: false, ..old(config).recv }),
                ..*old(config)
            }),
            ActiveMode::Idle => *old(config),
        },
{
    match mode {
        ActiveMode::Sender => {
            config.send.audio_enabled = false;
        },
        ActiveMode::Receiver => {
            config.recv.audio_enabled = false;
        },
        ActiveMode::Idle => {},
    }
}

/// What a choice in the menu comes to.
#[derive(Clone, Copy, Debug, PartialEq, Eq, Structural)]
pub enum Selection {
    /// The id is not one of the choices.
    Unknown,
    /// It is what was configured already.
    Unchanged,
    /// The configuration has changed, and the session that runs is started anew where it uses what
    /// has changed.
    Changed { restart: bool },
}

/// The first choice with an id.
pub open spec fn chosen_gpu(choices: Seq<GpuMenuChoice>, id: Seq<char>) -> Option<GpuMenuChoice> {
    search::first(choices, |choice: GpuMenuChoice| choice.id@ == id)
}

fn find_gpu_choice<'a>(choices: &'a Vec<GpuMenuChoice>, id: &str) -> (r: Option<&'a GpuMenuChoice>)
    ensures
        match r {
            Some(choice) => chosen_gpu(choices@, id@) == Some(*choice),
            None => chosen_gpu(choices@, id@) is None,
        },
{
    let ghost p = |choice: GpuMenuChoice| choice.id@ == id@;
    let mut i: usize = 0;
    proof {
        search::lemma_first_done(choices@, p);
    }
    while i < choices.len()
        invariant
            i <= choices.len(),
            p == (|choice: GpuMenuChoice| choice.id@ == id@),
            search::first(choices@.take(i as int), p) is None,
        decreases choices.len() - i,
    {
        proof {
            search::lemma_first_step(choices@, p, i as int);
        }
        if text::str_equal(&choices[i].id, id) {
            return Some(&choices[i]);
        }
        i += 1;
    }
    proof {
        search::lemma_first_done(choices@, p);
    }
    None
}

pub open spec fn configured_gpu(config: AppConfig, side: GpuSide) -> Seq<char> {
    match side {
        GpuSide::Sender => config.send.gpu@,
        GpuSide::Receiver => config.recv.gpu@,
    }
}

/// Whether two configurations agree in everything but the GPU of a side.
pub open spec fn differs_in_gpu(before: AppConfig, after: AppConfig, side: GpuSide) -> bool {
    match side {
        GpuSide::Sender => after == (AppConfig {
            send: (SendConfig { gpu: after.send.gpu, ..before.send }),
            ..before
        }),
        GpuSide::Receiver => after == (AppConfig {
            recv: (RecvConfig { gpu: after.recv.gpu, ..before.recv }),
            ..before
        }),
    }
}

pub open spec fn runs_on(side: GpuSide, mode: ActiveMode) -> bool {
    match side {
        GpuSide::Sender => mode == ActiveMode::Sender,
        GpuSide::Receiver => mode == ActiveMode::Receiver,
    }
}

/// Applies a GPU pick from the menu. The running session on that side is started anew so that the
/// new GPU is actually used.
pub fn select_gpu(
    config: &mut AppConfig,
    mode: ActiveMode,
    side: GpuSide,
    choices: &Vec<GpuMenuChoice>,
    id: &str,
) -> (r: Selection)
    ensures
        match chosen_gpu(choices@, id@) {
            None => r is Unknown && *final(config) == *old(config),
            Some(choice) => if tray_menu::active_choice(
                configured_gpu(*old(config), side),
                choice.selection@,
            ) {
                r is Unchanged && *final(config) == *old(config)
            } else {
                r == (Selection::Changed { restart: runs_on(side, mode) }) && differs_in_gpu(
                    *old(config),
                    *final(config),
                    side,
                ) && configured_gpu(*final(config), side) == choice.selection@
            },
        },
{
    let choice = match find_gpu_choice(choices, id) {
        Some(choice) => choice,
        None => return Selection::Unknown,
    };
    match side {
        GpuSide::Sender => {
            if tray_menu::gpu_choice_is_active(&config.send.gpu, &choice.selection) {
                return Selection::Unchanged;
            }
            config.send.gpu = choice.selection.clone();
            Selection::Changed { restart: mode == ActiveMode::Sender }
        },
        GpuSide::Receiver => {
            if tray_menu::gpu_choice_is_active(&config.recv.gpu, &choice.selection) {
                return Selection::Unchanged;
            }
            config.recv.gpu = choice.selection.clone();
            Selection::Changed { restart: mode == ActiveMode::Receiver }
        },
    }
}

/// Applies a capture rate from the menu, and restarts a running sender so the next frame is
/// captured at it. A receiver keeps running untouched: the rate belongs to whoever captures.
pub fn select_frame_rate(config: &mut AppConfig, mode: ActiveMode, id: &str) -> (r: Selection)
    ensures
        match tray_menu::rate_of_id(id@) {
            None => r is Unknown && *final(config) == *old(config),
            Some(rate) => if old(config).send.fps == rate {
                r is Unchanged && *final(config) == *old(config)
            } else {
                r == (Selection::Changed { restart: mode == ActiveMode::Sender }) && *final(config)
                    == (AppConfig {
                    send: (SendConfig { fps: rate as u32, ..old(config).send }),
                    ..*old(config)
                })
            },
        },
{
    let fps: u32 = match tray_menu::frame_rate_for_menu_id(id) {
        Some(fps) => fps,
        None => return Selection::Unknown,
    };
    if config.send.fps == fps {
        return Selection::Unchanged;
    }
    config.send.fps = fps;
    Selection::Changed { restart: mode == ActiveMode::Sender }
}

/// Applies a scaling filter from the menu. It takes effect when the sink is built, so an active
/// receiver is started anew.
pub fn select_sampling(config: &mut AppConfig, mode: ActiveMode, id: &str) -> (r: Selection)
    ensures
        match r {
            Selection::Unknown => *final(config) == *old(config)
                && forall|sampling: crate::config::ConfigSampling|
                id@ != tray_menu::SAMPLING_PREFIX@ + #[trigger] sampling.key_text(),
            Selection::Unchanged => *final(config) == *old(config) && id@
                == tray_menu::SAMPLING_PREFIX@ + old(config).recv.sampling.key_text(),
            Selection::Changed { restart } => restart == (mode == ActiveMode::Receiver)
                && *final(config) == (AppConfig {
                recv: (RecvConfig {
                    sampling: final(config).recv.sampling,
                    ..old(config).recv
                }),
                ..*old(config)
            }) && id@ == tray_menu::SAMPLING_PREFIX@ + final(config).recv.sampling.key_text()
                && final(config).recv.sampling != old(config).recv.sampling,
        },
{
    let sampling = match tray_menu::sampling_for_menu_id(id) {
        Some(sampling) => sampling,
        None => return Selection::Unknown,
    };
    if config.recv.sampling == sampling {
        return Selection::Unchanged;
    }
    config.recv.sampling = sampling;
    Selection::Changed { restart: mode == ActiveMode::Receiver }
}

/// What the audio settings were before they were toggled.
#[derive(Clone, Copy, Debug, PartialEq, Eq, Structural)]
pub struct AudioSettings {
    pub send: bool,
    pub recv: bool,
}

pub open spec fn audio_settings(config: AppConfig) -> AudioSettings {
    AudioSettings { send: config.send.audio_enabled, recv: config.recv.audio_enabled }
}

pub open spec fn with_audio(config: AppConfig, send: bool, recv: bool) -> AppConfig {
    AppConfig {
        send: (SendConfig { audio_enabled: send, ..config.send }),
        recv: (RecvConfig { audio_enabled: recv, ..config.recv }),
        ..config
    }
}

/// Turns audio on in both directions, or off where it is on in both. Gives what the settings were.
pub fn toggle_audio(config: &mut AppConfig) -> (r: AudioSettings)
    ensures
        r == audio_settings(*old(config)),
        *final(config) == with_audio(
            *old(config),
            !(old(config).send.audio_enabled && old(config).recv.audio_enabled),
            !(old(config).send.audio_enabled && old(config).recv.audio_enabled),
        ),
{
    let before = AudioSettings {
        send: config.send.audio_enabled,
        recv: config.recv.audio_enabled,
    };
    let enabled = !(config.send.audio_enabled && config.recv.audio_enabled);
    config.send.audio_enabled = enabled;
    config.recv.audio_enabled = enabled;
    before
}

/// Puts the audio settings back to what they were.
pub fn restore_audio(config: &mut AppConfig, before: AudioSettings)
    ensures
        *final(config) == with_audio(*old(config), before.send, before.recv),
{
    config.send.audio_enabled = before.send;
    config.recv.audio_enabled = before.recv;
}

/// A toggle that is taken back leaves the configuration as it was.
pub proof fn law_restored_audio_is_as_before(config: AppConfig, enabled: bool)
    ensures
        ({
            let before = audio_settings(config);
            with_audio(with_audio(config, enabled, enabled), before.send, before.recv) == config
        }),
{
}

/// Toggling twice leaves audio off in both directions, or as it was where both agreed.
pub proof fn law_toggling_audio_twice(config: AppConfig)
    ensures
        ({
            let first = !(config.send.audio_enabled && config.recv.audio_enabled);
            let once = with_audio(config, first, first);
            let second = !(once.send.audio_enabled && once.recv.audio_enabled);
            let twice = with_audio(once, second, second);
            &&& config.send.audio_enabled == config.recv.audio_enabled ==> twice == config
            &&& config.send.audio_enabled != config.recv.audio_enabled
                ==> !twice.send.audio_enabled && !twice.recv.audio_enabled
        }),
{
}

/// What is done so that a toggle takes effect in the session that runs. The video session goes on
/// in any case.
#[derive(Clone, Copy, Debug, PartialEq, Eq, Structural)]
pub enum AudioStep {
    Nothing,
    /// The supervisor of the sender is told.
    TellSupervisor,
    StartSenderAudio,
    StartReceiverAudio,
    StopAudio,
}

pub open spec fn audio_step_of(
    mode: ActiveMode,
    enabled: bool,
    supervised: bool,
    running: bool,
) -> AudioStep {
    if mode == ActiveMode::Idle {
        AudioStep::Nothing
    } else if mode == ActiveMode::Sender && supervised {
        AudioStep::TellSupervisor
    } else if enabled && !running {
        if mode == ActiveMode::Sender {
            AudioStep::StartSenderAudio
        } else {
            AudioStep::StartReceiverAudio
        }
    } else if !enabled && running {
        AudioStep::StopAudio
    } else {
        AudioStep::Nothing
    }
}

/// Decides how a toggle takes effect: `supervised` is whether the sender runs under a supervisor,
/// `running` whether there is an audio pipeline.
pub fn apply_audio_toggle(mode: ActiveMode, enabled: bool, supervised: bool, running: bool) -> (r:
    AudioStep)
    ensures
        r == audio_step_of(mode, enabled, supervised, running),
{
    match mode {
        ActiveMode::Idle => AudioStep::Nothing,
        ActiveMode::Sender => if supervised {
            AudioStep::TellSupervisor
        } else if enabled && !running {
            AudioStep::StartSenderAudio
        } else if !enabled && running {
            AudioStep::StopAudio
        } else {
            AudioStep::Nothing
        },
        ActiveMode::Receiver => if enabled && !running {
            AudioStep::StartReceiverAudio
        } else if !enabled && running {
            AudioStep::StopAudio
        } else {
            AudioStep::Nothing
        },
    }
}

/// The clicks on the tray icon. Moments are in milliseconds of a steady clock.
#[derive(Clone, Copy, Debug, PartialEq, Eq, Structural)]
pub struct TrayClicks {
    pub pending_right_click: Option<u64>,
    pub last_menu_closed: Option<u64>,
}

impl TrayClicks {
    pub fn new() -> (r: Self)
        ensures
            r.pending_right_click is None,
            r.last_menu_closed is None,
    {
        TrayClicks { pending_right_click: None, last_menu_closed: None }
    }

    /// Whether the menu may be shown: not again right after it was closed, by the same click.
    pub open spec fn may_show(self, now: u64) -> bool {
        match self.last_menu_closed {
            None => true,
            Some(closed) => now - closed >= TRAY_MENU_REOPEN_GUARD_MS,
        }
    }

    fn shows(&self, now: u64) -> (r: bool)
        ensures
            r == self.may_show(now),
    {
        match self.last_menu_closed {
            None => true,
            Some(closed) => now >= closed && now - closed >= TRAY_MENU_REOPEN_GUARD_MS,
        }
    }

    pub fn button_down(&mut self, now: u64)
        ensures
            *final(self) == (TrayClicks { pending_right_click: Some(now), ..*old(self) }),
    {
        self.pending_right_click = Some(now);
    }

    /// Whether the menu is shown now.
    pub fn button_up(&mut self, now: u64) -> (r: bool)
        ensures
            *final(self) == (TrayClicks { pending_right_click: None, ..*old(self) }),
            r == old(self).may_show(now),
    {
        self.pending_right_click = None;
        self.shows(now)
    }

    pub open spec fn overdue(self, now: u64) -> bool {
        match self.pending_right_click {
            None => false,
            Some(pressed) => now - pressed >= TRAY_RIGHT_CLICK_FALLBACK_MS,
        }
    }

    /// Takes a click whose release was not seen for too long as released, and tells whether the
    /// menu is shown for it now; `None` where there is no such click.
    pub fn poll(&mut self, now: u64) -> (r: Option<bool>)
        ensures
            *final(self) == if old(self).overdue(now) {
                (TrayClicks { pending_right_click: None, ..*old(self) })
            } else {
                *old(self)
            },
            r == if old(self).overdue(now) {
                Some(old(self).may_show(now))
            } else {
                None
            },
    {
        let pressed: u64 = match self.pending_right_click {
            None => return None,
            Some(pressed) => pressed,
        };
        if now < pressed || now - pressed < TRAY_RIGHT_CLICK_FALLBACK_MS {
            return None;
        }
        self.pending_right_click = None;
        Some(self.shows(now))
    }

    pub fn menu_closed(&mut self, now: u64)
        ensures
            *final(self) == (TrayClicks { last_menu_closed: Some(now), ..*old(self) }),
    {
        self.last_menu_closed = Some(now);
    }
}

/// One click shows the menu once: after the button was seen to be released, nothing is left to
/// wait for.
pub proof fn law_a_released_click_is_not_shown_again(clicks: TrayClicks, now: u64)
    ensures
        !(TrayClicks { pending_right_click: None, ..clicks }).overdue(now),
{
}

/// A line of the report for each display, indented.
pub open spec fn indented_names(monitors: Seq<DisplayMonitor>) -> Seq<Seq<char>> {
    Seq::new(monitors.len(), |i: int| "  "@ + monitors[i].adapter_name@)
}

pub open spec fn summaries(monitors: Seq<DisplayMonitor>) -> Seq<Seq<char>> {
    Seq::new(monitors.len(), |i: int| monitors[i].summary_text())
}

pub open spec fn detached(monitors: Seq<DisplayMonitor>) -> Seq<DisplayMonitor> {
    search::kept(monitors, |m: DisplayMonitor| m.bundled_virtual_display && !m.attached)
}

pub open spec fn detached_hint() -> Seq<char> {
    "A detached virtual display cannot be captured. Use \"Attach Virtual Displays to Desktop\", or extend the desktop with Win+P."@
}

/// The lines of the display report.
pub open spec fn report_lines(monitors: Seq<DisplayMonitor>) -> Seq<Seq<char>> {
    let targets = monitors::capture_targets(monitors);
    let missing = detached(monitors);
    seq!["Screen Mirror Virtual Display Status"@, Seq::<char>::empty()] + (if monitors.len() == 0 {
        seq!["No Windows display devices found."@]
    } else {
        Seq::<Seq<char>>::empty()
    }) + summaries(monitors) + seq![
        Seq::<char>::empty(),
        "Bundled virtual displays ready to capture: "@ + text::dec(targets.len()),
    ] + indented_names(targets) + seq![
        "Bundled virtual displays detached from the desktop: "@ + text::dec(missing.len()),
    ] + indented_names(missing) + (if missing.len() > 0 {
        seq![Seq::<char>::empty(), detached_hint()]
    } else {
        Seq::<Seq<char>>::empty()
    })
}

fn push_line(lines: &mut Vec<String>, line: String)
    ensures
        text::texts(final(lines)@) == text::texts(old(lines)@).push(line@),
{
    lines.push(line);
    assert(text::texts(lines@) == text::texts(old(lines)@).push(line@));
}

fn push_counted(lines: &mut Vec<String>, label: &str, count: usize)
    ensures
        text::texts(final(lines)@) == text::texts(old(lines)@).push(
            label@ + text::dec(count as nat),
        ),
{
    let mut line = label.to_owned();
    text::push_dec(&mut line, count as u64);
    push_line(lines, line);
}

fn push_names(lines: &mut Vec<String>, monitors: &Vec<DisplayMonitor>)
    ensures
        text::texts(final(lines)@) == text::texts(old(lines)@) + indented_names(monitors@),
{
    let ghost names = indented_names(monitors@);
    let mut i: usize = 0;
    while i < monitors.len()
        invariant
            i <= monitors.len(),
            names == indented_names(monitors@),
            text::texts(lines@) == text::texts(old(lines)@) + names.take(i as int),
        decreases monitors.len() - i,
    {
        let mut line = "  ".to_owned();
        line.push_str(&monitors[i].adapter_name);
        assert(line@ == names[i as int]);
        push_line(lines, line);
        assert(names.take(i + 1) == names.take(i as int).push(names[i as int]));
        i += 1;
    }
    assert(names.take(names.len() as int) == names);
}

/// The report on the virtual displays.
pub fn vdd_status_report(monitors: &Vec<DisplayMonitor>) -> (r: String)
    ensures
        r@ == text::join(report_lines(monitors@), "\r\n"@),
{
    let mut lines: Vec<String> = Vec::new();
    assert(text::texts(lines@) == Seq::<Seq<char>>::empty());
    push_line(&mut lines, "Screen Mirror Virtual Display Status".to_owned());
    push_line(&mut lines, String::new());
    if monitors.len() == 0 {
        push_line(&mut lines, "No Windows display devices found.".to_owned());
    }
    let ghost start = text::texts(lines@);
    assert(start == seq!["Screen Mirror Virtual Display Status"@, Seq::<char>::empty()] + (
    if monitors@.len() == 0 {
        seq!["No Windows display devices found."@]
    } else {
        Seq::<Seq<char>>::empty()
    }));
    let ghost all = summaries(monitors@);
    let mut i: usize = 0;
    while i < monitors.len()
        invariant
            i <= monitors.len(),
            all == summaries(monitors@),
            text::texts(lines@) == start + all.take(i as int),
        decreases monitors.len() - i,
    {
        let line = monitors[i].summary();
        assert(line@ == all[i as int]);
        push_line(&mut lines, line);
        assert(all.take(i + 1) == all.take(i as int).push(all[i as int]));
        i += 1;
    }
    assert(all.take(all.len() as int) == all);
    let targets = monitors::bundled_virtual_capture_targets(monitors);
    let missing = topology::detached_bundled_displays(monitors);
    push_line(&mut lines, String::new());
    push_counted(&mut lines, "Bundled virtual displays ready to capture: ", targets.len());
    push_names(&mut lines, &targets);
    push_counted(
        &mut lines,
        "Bundled virtual displays detached from the desktop: ",
        missing.len(),
    );
    push_names(&mut lines, &missing);
    if missing.len() > 0 {
        push_line(&mut lines, String::new());
        push_line(
            &mut lines,
            "A detached virtual display cannot be captured. Use \"Attach Virtual Displays to Desktop\", or extend the desktop with Win+P.".to_owned(),
        );
    }
    assert(text::texts(lines@) == report_lines(monitors@));
    text::join_strings(&lines, "\r\n")
}

/// What the menu says after displays were attached by hand.
pub fn attached_status(ready: usize) -> (r: String)
    ensures
        r@ == "Status: "@ + text::dec(ready as nat) + " virtual display(s) capture-ready"@,
{
    let mut out = "Status: ".to_owned();
    text::push_dec(&mut out, ready as u64);
    out.push_str(" virtual display(s) capture-ready");
    out
}

/// A sender that finds its receivers itself is handed to a supervisor and builds nothing here. Any
/// other builds its pipelines before it spawns one, and the audio ones exactly where audio is on.
pub proof fn law_sender_start_builds_before_it_spawns(steps: nat, audio: bool)
    ensures
        sender_start_after(4, true, audio) is Supervise,
        sender_start_after(5, true, audio) is Running,
        !(sender_start_after(steps, true, audio) is BuildVideo) && !(sender_start_after(
            steps,
            true,
            audio,
        ) is ResolveReceivers),
        sender_start_after(1, false, audio) is StopCurrent,
        sender_start_after(4, false, audio) is ResolveReceivers,
        sender_start_after(steps, false, audio) is BuildVideo <==> steps == 5,
        sender_start_after(steps, false, audio) is BuildAudio <==> audio && steps == 6,
        sender_start_after(steps, false, audio) is SpawnVideo <==> steps == if audio {
            7nat
        } else {
            6nat
        },
        sender_start_after(steps, false, audio) is SpawnAudio <==> audio && steps == 8,
        !(sender_start_after(steps, false, audio) is Supervise),
{
    reveal_with_fuel(sender_start_after, 10);
    if steps >= 9 {
        law_sender_start_spawns_last(steps, steps, false, audio);
    }
    lemma_supervised_start(steps, audio);
}

proof fn lemma_supervised_start(steps: nat, audio: bool)
    ensures
        steps >= 5 ==> sender_start_after(steps, true, audio) is Running,
        !(sender_start_after(steps, true, audio) is BuildVideo),
        !(sender_start_after(steps, true, audio) is ResolveReceivers),
    decreases steps,
{
    reveal_with_fuel(sender_start_after, 6);
    if steps > 5 {
        lemma_supervised_start((steps - 1) as nat, audio);
    }
}

/// A receiver builds its pipelines before it spawns one, the audio ones exactly where audio is on,
/// and announces itself last.
pub proof fn law_receiver_start_builds_before_it_spawns(steps: nat, audio: bool)
    ensures
        receiver_start_after(1, audio) is EndSession,
        receiver_start_after(steps, audio) is BuildVideo <==> steps == 2,
        receiver_start_after(steps, audio) is BuildAudio <==> audio && steps == 3,
        receiver_start_after(steps, audio) is SpawnVideo <==> steps == if audio {
            4nat
        } else {
            3nat
        },
        receiver_start_after(steps, audio) is SpawnAudio <==> audio && steps == 5,
        receiver_start_after(steps, audio) is Announce <==> steps == if audio {
            7nat
        } else {
            5nat
        },
{
    reveal_with_fuel(receiver_start_after, 9);
    if steps >= 8 {
        law_receiver_start_spawns_last(steps, steps, audio);
    }
}

/// An audio toggle takes effect where a session runs: a supervised sender is told of it, and
/// otherwise audio is started exactly where it is wanted and does not run, on the side that runs,
/// and stopped exactly where it runs and is not wanted.
pub proof fn law_audio_toggles_take_effect(
    mode: ActiveMode,
    enabled: bool,
    supervised: bool,
    running: bool,
)
    ensures
        ({
            let step = audio_step_of(mode, enabled, supervised, running);
            let own = mode == ActiveMode::Receiver || mode == ActiveMode::Sender && !supervised;
            &&& step is TellSupervisor <==> mode == ActiveMode::Sender && supervised
            &&& step is StartSenderAudio <==> mode == ActiveMode::Sender && !supervised && enabled
                && !running
            &&& step is StartReceiverAudio <==> mode == ActiveMode::Receiver && enabled && !running
            &&& step is StopAudio <==> own && !enabled && running
        }),
{
}

/// The menu is not shown again within 750 milliseconds of its being closed, and a press of the
/// button that is not seen to be released shows it after 350.
pub proof fn law_clicks_are_waited_for(clicks: TrayClicks, now: u64)
    ensures
        clicks.last_menu_closed is Some ==> (clicks.may_show(now) <==> now
            >= clicks.last_menu_closed->0 + 750),
        clicks.last_menu_closed is None ==> clicks.may_show(now),
        clicks.pending_right_click is Some ==> (clicks.overdue(now) <==> now
            >= clicks.pending_right_click->0 + 350),
{
}

/// A GPU is chosen for one side: the other side keeps its own, and both sides keep all else.
pub proof fn law_each_side_has_its_own_gpu(before: AppConfig, after: AppConfig, side: GpuSide)
    requires
        differs_in_gpu(before, after, side),
    ensures
        side == GpuSide::Sender ==> configured_gpu(after, GpuSide::Receiver) == configured_gpu(
            before,
            GpuSide::Receiver,
        ) && after.recv == before.recv,
        side == GpuSide::Receiver ==> configured_gpu(after, GpuSide::Sender) == configured_gpu(
            before,
            GpuSide::Sender,
        ) && after.send == before.send,
        configured_gpu(after, GpuSide::Sender) == after.send.gpu@,
        configured_gpu(after, GpuSide::Receiver) == after.recv.gpu@,
        after.send.host == before.send.host && after.recv.port == before.recv.port,
        runs_on(GpuSide::Sender, ActiveMode::Sender) && runs_on(
            GpuSide::Receiver,
            ActiveMode::Receiver,
        ) && !runs_on(side, ActiveMode::Idle),
        !runs_on(GpuSide::Sender, ActiveMode::Receiver) && !runs_on(
            GpuSide::Receiver,
            ActiveMode::Sender,
        ),
{
}

/// A click finds the choice that has its id.
pub proof fn law_clicks_find_their_choice(choices: Seq<GpuMenuChoice>, i: int)
    requires
        0 <= i < choices.len(),
    ensures
        chosen_gpu(choices, choices[i].id@) matches Some(choice) && choice.id@ == choices[i].id@,
{
    let p = |choice: GpuMenuChoice| choice.id@ == choices[i].id@;
    assert(p(choices[i]));
    search::lemma_first_exists(choices, p, i);
}

/// The displays that are reported as detached are the bundled ones that are not on the desktop.
pub proof fn law_detached_displays_are_off_the_desktop(monitors: Seq<DisplayMonitor>, i: int)
    requires
        0 <= i < monitors.len(),
    ensures
        monitors[i].bundled_virtual_display && !monitors[i].attached ==> detached(
            monitors,
        ).contains(monitors[i]),
        forall|k: int|
            0 <= k < detached(monitors).len() ==> (#[trigger] detached(monitors)[k]).bundled_virtual_display
                && !detached(monitors)[k].attached,
{
    let p = |m: DisplayMonitor| m.bundled_virtual_display && !m.attached;
    search::lemma_kept_sound(monitors, p);
    if p(monitors[i]) {
        let j = choose|j: int|
            0 <= j < detached(monitors).len() && #[trigger] detached(monitors)[j] == monitors[i];
        assert(detached(monitors)[j] == monitors[i]);
    }
}

} // verus!
