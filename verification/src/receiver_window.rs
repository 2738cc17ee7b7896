//! The receiver's window: which window it is, where the statistics lie over it, and the low-rate
//! visual probe that tells a frozen or cleared window from one that shows the stream.
use crate::text;
use vstd::prelude::*;

verus! {

pub const RECEIVER_TITLE: &'static str = "screen-mirror Receiver";

pub const VISUAL_CAPTURE_INTERVAL_MS: u64 = 1000;

pub const VISUAL_CAPTURE_LOG_INTERVAL_MS: u64 = 5000;

pub const VISUAL_CAPTURE_MAX_WIDTH: u32 = 640;

pub const VISUAL_CAPTURE_MAX_HEIGHT: u32 = 360;

/// Statistics older than this say nothing about the stream any more.
pub const STATS_FRESH_MS: u64 = 1500;

/// Whether a title is one that the video sinks give their windows, or the receiver's own.
pub open spec fn is_renderer_title(title: Seq<char>) -> bool {
    let lowered = text::lower(title);
    ||| text::contains(lowered, "direct3d11"@)
    ||| text::contains(lowered, "renderer"@)
    ||| text::contains(lowered, "screen-mirror receiver"@)
}

/// Whether a window is the receiver's: a visible one of this process, by its title.
pub fn is_receiver_window(own_process: bool, visible: bool, title: &str) -> (r: bool)
    ensures
        r == (own_process && visible && is_renderer_title(title@)),
{
    if !own_process || !visible {
        return false;
    }
    let lowered = text::lowered(&text::chars_of(title));
    text::has_text(&lowered, "direct3d11") || text::has_text(&lowered, "renderer")
        || text::has_text(&lowered, "screen-mirror receiver")
}

/// The receiver's own title is one by which its window is found again.
pub proof fn law_renamed_window_is_found_again()
    ensures
        is_renderer_title(RECEIVER_TITLE@),
{
    reveal_strlit("screen-mirror Receiver");
    reveal_strlit("screen-mirror receiver");
    let lowered = text::lower(RECEIVER_TITLE@);
    assert(lowered == "screen-mirror receiver"@);
    assert(lowered.subrange(0, lowered.len() as int) == lowered);
    assert(text::occurs_at(lowered, "screen-mirror receiver"@, 0));
}

/// What becomes of the window with the statistics.
#[derive(Clone, Copy, Debug, PartialEq, Eq, Structural)]
pub enum OverlayAction {
    /// There is none and none is wanted.
    Nothing,
    /// It lies over the renderer already.
    Keep,
    Create,
    /// It lies over a renderer that is gone.
    Recreate,
    Destroy,
}

/// Decides on the statistics window, by the renderer there is now and the one it lies over: it is
/// shown where there are statistics and a renderer.
pub fn overlay_action(stats: bool, renderer: Option<u64>, overlay: Option<u64>) -> (r:
    OverlayAction)
    ensures
        r == match (renderer, overlay) {
            (Some(window), Some(parent)) if stats => if parent == window {
                OverlayAction::Keep
            } else {
                OverlayAction::Recreate
            },
            (Some(_), None) if stats => OverlayAction::Create,
            (_, Some(_)) => OverlayAction::Destroy,
            (_, None) => OverlayAction::Nothing,
        },
        r is Keep <==> stats && renderer is Some && overlay == renderer,
        r is Create <==> stats && renderer is Some && overlay is None,
        r is Destroy <==> overlay is Some && (!stats || renderer is None),
{
    match overlay {
        Some(parent) => match renderer {
            Some(window) if stats => if parent == window {
                OverlayAction::Keep
            } else {
                OverlayAction::Recreate
            },
            _ => OverlayAction::Destroy,
        },
        None => if stats && renderer.is_some() {
            OverlayAction::Create
        } else {
            OverlayAction::Nothing
        },
    }
}

pub open spec fn clamped(value: int, low: int, high: int) -> int {
    if value < low {
        low
    } else if value > high {
        high
    } else {
        value
    }
}

fn clamp_i32(value: i32, low: i32, high: i32) -> (r: i32)
    ensures
        r == clamped(value as int, low as int, high as int),
{
    if value < low {
        low
    } else if value > high {
        high
    } else {
        value
    }
}

/// The size of the statistics window over a renderer of a size.
pub fn overlay_size(width: i32, height: i32) -> (r: (i32, i32))
    ensures
        r.0 == clamped(width as int, 280, 420),
        r.1 == clamped(height as int, 86, 120),
{
    (clamp_i32(width, 280, 420), clamp_i32(height, 86, 120))
}

/// How the stream flows, by the receiver's statistics.
#[derive(Clone, Copy, Debug, PartialEq, Eq, Structural)]
pub enum StreamFlow {
    Unknown,
    Stale,
    Silent,
    Active,
}

impl StreamFlow {
    pub open spec fn spec_name(self) -> Seq<char> {
        match self {
            StreamFlow::Unknown => "unknown"@,
            StreamFlow::Stale => "stale"@,
            StreamFlow::Silent => "none"@,
            StreamFlow::Active => "active"@,
        }
    }

    pub fn name(self) -> (r: &'static str)
        ensures
            r@ == self.spec_name(),
    {
        match self {
            StreamFlow::Unknown => "unknown",
            StreamFlow::Stale => "stale",
            StreamFlow::Silent => "none",
            StreamFlow::Active => "active",
        }
    }

    /// Whether no frame reaches the window.
    pub open spec fn frameless(self) -> bool {
        self == StreamFlow::Stale || self == StreamFlow::Silent
    }
}

/// How the stream flows: `age_ms` is the age of the statistics, and `displaying` whether they
/// count at least one frame in two seconds.
pub fn stream_flow(stats: bool, age_ms: Option<u64>, displaying: bool) -> (r: StreamFlow)
    ensures
        r == if !stats {
            StreamFlow::Unknown
        } else if age_ms is None || age_ms->0 > STATS_FRESH_MS {
            StreamFlow::Stale
        } else if !displaying {
            StreamFlow::Silent
        } else {
            StreamFlow::Active
        },
        r is Active <==> stats && displaying && age_ms is Some && age_ms->0 <= 1500,
        r is Silent <==> stats && !displaying && age_ms is Some && age_ms->0 <= 1500,
        r is Unknown <==> !stats,
{
    if !stats {
        return StreamFlow::Unknown;
    }
    match age_ms {
        Some(age) if age <= STATS_FRESH_MS => if displaying {
            StreamFlow::Active
        } else {
            StreamFlow::Silent
        },
        _ => StreamFlow::Stale,
    }
}

/// What a capture of the window looks like.
#[derive(Clone, Copy, Debug, PartialEq, Eq, Structural)]
pub enum Surface {
    White,
    Black,
    Mixed,
}

impl Surface {
    pub open spec fn spec_name(self) -> Seq<char> {
        match self {
            Surface::White => "likely-white"@,
            Surface::Black => "likely-black"@,
            Surface::Mixed => "mixed"@,
        }
    }

    pub fn name(self) -> (r: &'static str)
        ensures
            r@ == self.spec_name(),
    {
        match self {
            Surface::White => "likely-white",
            Surface::Black => "likely-black",
            Surface::Mixed => "mixed",
        }
    }
}

/// What the probe makes of a capture.
#[derive(Clone, Copy, Debug, PartialEq, Eq, Structural)]
pub enum Verdict {
    BlankWhiteNoFrame,
    BlankBlackNoFrame,
    StaleFrameNoFrame,
    WhiteFrameOrRenderer,
    BlackFrameOrRenderer,
    Rendered,
}

impl Verdict {
    pub open spec fn spec_name(self) -> Seq<char> {
        match self {
            Verdict::BlankWhiteNoFrame => "blank-white-no-frame"@,
            Verdict::BlankBlackNoFrame => "blank-black-no-frame"@,
            Verdict::StaleFrameNoFrame => "stale-frame-no-frame"@,
            Verdict::WhiteFrameOrRenderer => "white-frame-or-renderer"@,
            Verdict::BlackFrameOrRenderer => "black-frame-or-renderer"@,
            Verdict::Rendered => "rendered"@,
        }
    }

    pub fn name(self) -> (r: &'static str)
        ensures
            r@ == self.spec_name(),
    {
        match self {
            Verdict::BlankWhiteNoFrame => "blank-white-no-frame",
            Verdict::BlankBlackNoFrame => "blank-black-no-frame",
            Verdict::StaleFrameNoFrame => "stale-frame-no-frame",
            Verdict::WhiteFrameOrRenderer => "white-frame-or-renderer",
            Verdict::BlackFrameOrRenderer => "black-frame-or-renderer",
            Verdict::Rendered => "rendered",
        }
    }
}

pub open spec fn verdict_of(flow: StreamFlow, surface: Surface, changed: bool) -> Verdict {
    if flow.frameless() && surface == Surface::White {
        Verdict::BlankWhiteNoFrame
    } else if flow.frameless() && surface == Surface::Black {
        Verdict::BlankBlackNoFrame
    } else if flow.frameless() && !changed {
        Verdict::StaleFrameNoFrame
    } else if surface == Surface::White {
        Verdict::WhiteFrameOrRenderer
    } else if surface == Surface::Black {
        Verdict::BlackFrameOrRenderer
    } else {
        Verdict::Rendered
    }
}

/// Judges a capture by the stream's flow, by what it looks like, and by whether it differs from
/// the one before it.
pub fn judge(flow: StreamFlow, surface: Surface, changed: bool) -> (r: Verdict)
    ensures
        r == verdict_of(flow, surface, changed),
{
    let frameless = flow == StreamFlow::Stale || flow == StreamFlow::Silent;
    if frameless && surface == Surface::White {
        Verdict::BlankWhiteNoFrame
    } else if frameless && surface == Surface::Black {
        Verdict::BlankBlackNoFrame
    } else if frameless && !changed {
        Verdict::StaleFrameNoFrame
    } else if surface == Surface::White {
        Verdict::WhiteFrameOrRenderer
    } else if surface == Surface::Black {
        Verdict::BlackFrameOrRenderer
    } else {
        Verdict::Rendered
    }
}

/// A window is called blank or frozen for want of frames only where no frames reach it; and it is
/// called fine exactly where it is neither white nor black, and moves or gets frames.
pub proof fn law_verdicts(flow: StreamFlow, surface: Surface, changed: bool)
    ensures
        verdict_of(flow, surface, changed) is BlankWhiteNoFrame || verdict_of(
            flow,
            surface,
            changed,
        ) is BlankBlackNoFrame || verdict_of(flow, surface, changed) is StaleFrameNoFrame
            ==> flow.frameless(),
        verdict_of(flow, surface, changed) is Rendered <==> surface is Mixed && (changed
            || !flow.frameless()),
{
}

/// State for the low-rate visual probe. The probe deliberately runs beside the renderer window: a
/// stopped pipeline must still be observable as a frozen or cleared window. Moments are in
/// milliseconds of a steady clock.
#[derive(Debug, PartialEq, Eq)]
pub struct VisualCaptureState {
    pub last_capture: Option<u64>,
    pub last_log: Option<u64>,
    pub last_hash: Option<u64>,
    pub last_verdict: Option<Verdict>,
    pub last_flow: Option<StreamFlow>,
    pub last_changed: Option<bool>,
    pub last_anomaly_path: Option<String>,
}

/// Whether at least an interval has passed since a moment; always so when there was none.
pub open spec fn passed(last: Option<u64>, now: u64, interval: u64) -> bool {
    match last {
        None => true,
        Some(moment) => now - moment >= interval,
    }
}

fn has_passed(last: Option<u64>, now: u64, interval: u64) -> (r: bool)
    requires
        interval > 0,
    ensures
        r == passed(last, now, interval),
{
    match last {
        None => true,
        Some(moment) => now >= moment && now - moment >= interval,
    }
}

/// What one capture comes to.
#[derive(Clone, Copy, Debug, PartialEq, Eq, Structural)]
pub struct Observation {
    pub changed: bool,
    pub flow: StreamFlow,
    pub verdict: Verdict,
    /// Whether the capture is kept as the picture of an anomaly.
    pub save_anomaly: bool,
}

impl VisualCaptureState {
    pub fn new() -> (r: Self)
        ensures
            r.last_capture is None,
            r.last_log is None,
            r.last_hash is None,
            r.last_verdict is None,
            r.last_flow is None,
            r.last_changed is None,
            r.last_anomaly_path is None,
    {
        VisualCaptureState {
            last_capture: None,
            last_log: None,
            last_hash: None,
            last_verdict: None,
            last_flow: None,
            last_changed: None,
            last_anomaly_path: None,
        }
    }

    /// Whether a capture is due; if so, it is taken now.
    pub fn take_due(&mut self, now: u64) -> (r: bool)
        ensures
            r == passed(old(self).last_capture, now, VISUAL_CAPTURE_INTERVAL_MS),
            *final(self) == if r {
                (VisualCaptureState { last_capture: Some(now), ..*old(self) })
            } else {
                *old(self)
            },
    {
        if !has_passed(self.last_capture, now, VISUAL_CAPTURE_INTERVAL_MS) {
            return false;
        }
        self.last_capture = Some(now);
        true
    }

    /// Whether a capture that failed is reported; if so, it is now.
    pub fn capture_failed(&mut self, now: u64) -> (r: bool)
        ensures
            r == passed(old(self).last_log, now, VISUAL_CAPTURE_LOG_INTERVAL_MS),
            *final(self) == if r {
                (VisualCaptureState { last_log: Some(now), ..*old(self) })
            } else {
                *old(self)
            },
    {
        if !has_passed(self.last_log, now, VISUAL_CAPTURE_LOG_INTERVAL_MS) {
            return false;
        }
        self.last_log = Some(now);
        true
    }

    pub open spec fn observation(
        self,
        hash: u64,
        surface: Surface,
        flow: StreamFlow,
    ) -> Observation {
        let changed = self.last_hash != Some(hash);
        let verdict = verdict_of(flow, surface, changed);
        Observation {
            changed,
            flow,
            verdict,
            save_anomaly: verdict != Verdict::Rendered && self.last_verdict != Some(verdict),
        }
    }

    /// Judges a capture, by its hash and by what it looks like. An anomaly is kept once, when it
    /// begins.
    pub fn observe(&mut self, hash: u64, surface: Surface, flow: StreamFlow) -> (r: Observation)
        ensures
            r == old(self).observation(hash, surface, flow),
            *final(self) == (VisualCaptureState { last_hash: Some(hash), ..*old(self) }),
    {
        let changed = match self.last_hash {
            Some(last) => last != hash,
            None => true,
        };
        self.last_hash = Some(hash);
        let verdict = judge(flow, surface, changed);
        let begins = match self.last_verdict {
            Some(last) => last != verdict,
            None => true,
        };
        Observation { changed, flow, verdict, save_anomaly: verdict != Verdict::Rendered && begins }
    }

    /// Whether an observation is reported: where anything about it is new, and else from time to
    /// time.
    pub open spec fn reports(self, now: u64, seen: Observation) -> bool {
        ||| self.last_verdict != Some(seen.verdict)
        ||| self.last_flow != Some(seen.flow)
        ||| self.last_changed != Some(seen.changed)
        ||| passed(self.last_log, now, VISUAL_CAPTURE_LOG_INTERVAL_MS)
    }

    pub open spec fn anomaly_after(self, saved: Option<String>) -> Option<String> {
        match saved {
            Some(path) => Some(path),
            None => self.last_anomaly_path,
        }
    }

    /// Takes note of an observation, with the path under which its picture was kept, if it was. An
    /// observation that is reported gives the path of the picture that belongs to it, which is
    /// empty where there is none.
    pub fn conclude(&mut self, now: u64, seen: Observation, saved: Option<String>) -> (r: Option<
        String,
    >)
        ensures
            final(self).last_anomaly_path == old(self).anomaly_after(saved),
            final(self).last_verdict == Some(seen.verdict),
            final(self).last_flow == Some(seen.flow),
            final(self).last_changed == Some(seen.changed),
            final(self).last_capture == old(self).last_capture,
            final(self).last_hash == old(self).last_hash,
            r is Some == old(self).reports(now, seen),
            final(self).last_log == if r is Some {
                Some(now)
            } else {
                old(self).last_log
            },
            r is Some ==> r->0@ == if seen.verdict == Verdict::Rendered {
                Seq::<char>::empty()
            } else {
                text::or_empty(old(self).anomaly_after(saved))
            },
    {
        match saved {
            Some(path) => {
                self.last_anomaly_path = Some(path);
            },
            None => {},
        }
        let same_verdict = match self.last_verdict {
            Some(last) => last == seen.verdict,
            None => false,
        };
        let same_flow = match self.last_flow {
            Some(last) => last == seen.flow,
            None => false,
        };
        let same_changed = match self.last_changed {
            Some(last) => last == seen.changed,
            None => false,
        };
        let reported = !same_verdict || !same_flow || !same_changed || has_passed(
            self.last_log,
            now,
            VISUAL_CAPTURE_LOG_INTERVAL_MS,
        );
        self.last_verdict = Some(seen.verdict);
        self.last_flow = Some(seen.flow);
        self.last_changed = Some(seen.changed);
        if !reported {
            return None;
        }
        self.last_log = Some(now);
        let mut anomaly = String::new();
        if seen.verdict != Verdict::Rendered {
            text::push_optional(&mut anomaly, &self.last_anomaly_path);
            assert(anomaly@ == text::or_empty(self.last_anomaly_path));
        }
        Some(anomaly)
    }
}

/// A window that stays white without frames is kept as a picture once, and not again while it
/// stays so.
pub proof fn law_an_anomaly_is_kept_once(
    state: VisualCaptureState,
    hash: u64,
    surface: Surface,
    flow: StreamFlow,
)
    requires
        state.last_verdict == Some(state.observation(hash, surface, flow).verdict),
    ensures
        !state.observation(hash, surface, flow).save_anomaly,
{
}

/// A renderer's window is recognised by its title in whatever case, and whatever stands around it.
pub proof fn law_renderer_titles_are_recognised(
    before: Seq<char>,
    title: Seq<char>,
    after: Seq<char>,
)
    requires
        text::lower(title) == "direct3d11"@ || text::lower(title) == "renderer"@ || text::lower(
            title,
        ) == "screen-mirror receiver"@,
    ensures
        is_renderer_title(before + title + after),
{
    let whole = text::lower(before + title + after);
    let low = text::lower(title);
    let at = before.len() as int;
    assert(whole == text::lower(before) + low + text::lower(after));
    assert(whole.subrange(at, at + low.len()) == low);
    assert(text::occurs_at(whole, low, at));
}

/// Where no frames arrive, a white or a black window is blank and an unchanged one is frozen; where
/// they do, a white or a black one is the frame's or the renderer's doing.
pub proof fn law_verdicts_name_what_is_seen(flow: StreamFlow, surface: Surface, changed: bool)
    ensures
        ({
            let none = flow == StreamFlow::Stale || flow == StreamFlow::Silent;
            let verdict = verdict_of(flow, surface, changed);
            &&& verdict is BlankWhiteNoFrame <==> none && surface is White
            &&& verdict is BlankBlackNoFrame <==> none && surface is Black
            &&& verdict is StaleFrameNoFrame <==> none && surface is Mixed && !changed
            &&& verdict is WhiteFrameOrRenderer <==> !none && surface is White
            &&& verdict is BlackFrameOrRenderer <==> !none && surface is Black
        }),
{
}

/// A picture counts as changed exactly where it differs from the last one, and is kept exactly where
/// something is wrong with it that was not wrong before.
pub proof fn law_new_anomalies_are_kept(
    state: VisualCaptureState,
    hash: u64,
    surface: Surface,
    flow: StreamFlow,
)
    ensures
        ({
            let seen = state.observation(hash, surface, flow);
            &&& seen.changed <==> state.last_hash is None || state.last_hash->0 != hash
            &&& seen.flow == flow
            &&& seen.verdict == verdict_of(flow, surface, seen.changed)
            &&& seen.save_anomaly <==> !(seen.verdict is Rendered) && state.last_verdict != Some(
                seen.verdict,
            )
        }),
{
}

/// What is seen is reported at once where it is new, and otherwise every five seconds.
pub proof fn law_what_is_new_is_reported(state: VisualCaptureState, now: u64, seen: Observation)
    ensures
        ({
            let known = state.last_verdict == Some(seen.verdict) && state.last_flow == Some(
                seen.flow,
            ) && state.last_changed == Some(seen.changed);
            &&& !known ==> state.reports(now, seen)
            &&& known && state.last_log is Some ==> (state.reports(now, seen) <==> now
                >= state.last_log->0 + 5000)
        }),
{
}

/// A bounded value lies between its bounds and is itself where it lay there.
pub proof fn law_bounded_values_stay_between_their_bounds(value: int, low: int, high: int)
    requires
        low <= high,
    ensures
        low <= clamped(value, low, high) <= high,
        low <= value <= high ==> clamped(value, low, high) == value,
        value > high ==> clamped(value, low, high) == high,
        value < low ==> clamped(value, low, high) == low,
{
}

} // verus!
