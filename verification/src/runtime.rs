//! Decisions that are taken while a pipeline runs. Times are milliseconds of a monotonic clock.
use crate::pipeline::ReceiverPipelinePlan;
use crate::reading;
use crate::text;
use vstd::prelude::*;

verus! {

/// How often a sender asks its encoder for a keyframe, in milliseconds.
pub const FORCE_KEY_UNIT_INTERVAL_MS: u64 = 1000;

/// How long the receiver waits for video packets before deciding the stream is gone, in
/// nanoseconds.
///
/// Wi-Fi roaming, VPN tunnels, and radio power saving all produce gaps of a few seconds that the
/// stream comes back from on its own: the sender keeps streaming for its whole receiver-loss grace
/// and forces a keyframe every second, so playback resumes within a second of the packets
/// returning. Giving up too early turns that hiccup into a closed fullscreen window and a listener
/// restart, which is far more disruptive than the gap it reacts to.
pub const RECEIVER_PACKET_TIMEOUT_NS: u64 = 8_000_000_000;

/// How often the receiver records what the stream is actually doing, in milliseconds.
///
/// Long enough that one slow frame does not read as a collapse, short enough that a stutter the
/// user noticed is inside the window they will point at in the log.
pub const RECEIVER_STREAM_REPORT_INTERVAL_MS: u64 = 5000;

/// When the next keyframe is asked for, and how many have been.
#[derive(Clone, Copy, Debug, PartialEq, Eq, Structural)]
pub struct KeyUnitSchedule {
    pub next_request_ms: u64,
    pub count: u32,
}

impl KeyUnitSchedule {
    pub fn new(now_ms: u64) -> (r: Self)
        ensures
            r.next_request_ms == now_ms,
            r.count == 0,
    {
        KeyUnitSchedule { next_request_ms: now_ms, count: 0 }
    }

    /// The number of the request to send now, if one is due.
    pub fn take_due(&mut self, now_ms: u64) -> (r: Option<u32>)
        requires
            now_ms + FORCE_KEY_UNIT_INTERVAL_MS <= u64::MAX,
        ensures
            r is Some <==> now_ms >= old(self).next_request_ms,
            r is Some ==> r->0 == old(self).count && final(self).next_request_ms == now_ms
                + FORCE_KEY_UNIT_INTERVAL_MS && final(self).count == if old(self).count
                == u32::MAX {
                0
            } else {
                old(self).count + 1
            },
            r is None ==> *final(self) == *old(self),
    {
        if now_ms < self.next_request_ms {
            return None;
        }
        let count: u32 = self.count;
        self.count = if count == u32::MAX {
            0
        } else {
            count + 1
        };
        self.next_request_ms = now_ms + FORCE_KEY_UNIT_INTERVAL_MS;
        Some(count)
    }
}

/// What a log says of keyframe requests.
#[derive(Clone, Copy, Debug, PartialEq, Eq, Structural)]
pub enum KeyUnitNotice {
    Active,
    Rejected,
}

impl KeyUnitNotice {
    pub fn text(self) -> (r: &'static str)
        ensures
            r@ == match self {
                KeyUnitNotice::Active =>
                    "sender force-key-unit requests active: interval=1000ms all-headers=true"@,
                KeyUnitNotice::Rejected =>
                    "sender force-key-unit request rejected upstream; retrying"@,
            },
    {
        match self {
            KeyUnitNotice::Active =>
                "sender force-key-unit requests active: interval=1000ms all-headers=true",
            KeyUnitNotice::Rejected => "sender force-key-unit request rejected upstream; retrying",
        }
    }
}

/// How the encoder last took a keyframe request.
#[derive(Clone, Copy, Debug, PartialEq, Eq, Structural)]
pub struct KeyUnitOutcome {
    pub last_accepted: Option<bool>,
}

impl KeyUnitOutcome {
    /// Takes the answer to a request; only a change is worth a line in the log.
    pub fn record(&mut self, accepted: bool) -> (r: Option<KeyUnitNotice>)
        ensures
            final(self).last_accepted == Some(accepted),
            r == if old(self).last_accepted == Some(accepted) {
                None
            } else if accepted {
                Some(KeyUnitNotice::Active)
            } else {
                Some(KeyUnitNotice::Rejected)
            },
    {
        let unchanged = match self.last_accepted {
            Some(last) => last == accepted,
            None => false,
        };
        self.last_accepted = Some(accepted);
        if unchanged {
            None
        } else if accepted {
            Some(KeyUnitNotice::Active)
        } else {
            Some(KeyUnitNotice::Rejected)
        }
    }
}

/// RTP packet counters, which `rtpjitterbuffer` reports as running totals.
#[derive(Clone, Copy, Debug, PartialEq, Eq, Structural)]
pub struct JitterCounts {
    pub pushed: u64,
    pub lost: u64,
    pub late: u64,
    pub duplicates: u64,
}

impl Default for JitterCounts {
    fn default() -> (r: Self)
        ensures
            r == (JitterCounts { pushed: 0, lost: 0, late: 0, duplicates: 0 }),
    {
        JitterCounts { pushed: 0, lost: 0, late: 0, duplicates: 0 }
    }
}

/// How much a total has grown; one that went backwards counts as not having grown.
pub open spec fn growth(now: u64, earlier: u64) -> u64 {
    if now >= earlier {
        (now - earlier) as u64
    } else {
        0
    }
}

impl JitterCounts {
    pub open spec fn since_counts(self, earlier: JitterCounts) -> JitterCounts {
        JitterCounts {
            pushed: growth(self.pushed, earlier.pushed),
            lost: growth(self.lost, earlier.lost),
            late: growth(self.late, earlier.late),
            duplicates: growth(self.duplicates, earlier.duplicates),
        }
    }

    /// What was counted since an earlier reading. A restarted jitter buffer resets its totals, and
    /// a window that spans the restart reports nothing rather than wrapping.
    pub fn since(self, earlier: Self) -> (r: Self)
        ensures
            r == self.since_counts(earlier),
    {
        JitterCounts {
            pushed: self.pushed.saturating_sub(earlier.pushed),
            lost: self.lost.saturating_sub(earlier.lost),
            late: self.late.saturating_sub(earlier.late),
            duplicates: self.duplicates.saturating_sub(earlier.duplicates),
        }
    }
}

/// The windows of successive readings add up to the whole, as long as the totals only grow; and a
/// window never reports more than was counted in all.
pub proof fn law_jitter_windows_add_up(a: JitterCounts, b: JitterCounts, c: JitterCounts)
    requires
        a.pushed <= b.pushed <= c.pushed,
        a.lost <= b.lost <= c.lost,
        a.late <= b.late <= c.late,
        a.duplicates <= b.duplicates <= c.duplicates,
    ensures
        c.since_counts(a).pushed == b.since_counts(a).pushed + c.since_counts(b).pushed,
        c.since_counts(a).lost == b.since_counts(a).lost + c.since_counts(b).lost,
        c.since_counts(a).late == b.since_counts(a).late + c.since_counts(b).late,
        c.since_counts(a).duplicates == b.since_counts(a).duplicates + c.since_counts(b).duplicates,
        c.since_counts(a).pushed <= c.pushed,
{
}

/// The window of the stream report: when it started, and the totals at that moment.
#[derive(Clone, Copy, Debug, PartialEq, Eq, Structural)]
pub struct StreamWindow {
    pub started_ms: u64,
    pub jitter_total: JitterCounts,
}

/// A finished window: how long it was, and what the jitter buffer counted in it.
#[derive(Clone, Copy, Debug, PartialEq, Eq, Structural)]
pub struct StreamReport {
    pub window_ms: u64,
    pub jitter: Option<JitterCounts>,
}

impl StreamWindow {
    /// Whether the window is long enough to be reported.
    pub fn is_due(&self, now_ms: u64) -> (r: bool)
        ensures
            r == (now_ms - self.started_ms >= RECEIVER_STREAM_REPORT_INTERVAL_MS),
    {
        now_ms >= self.started_ms && now_ms - self.started_ms >= RECEIVER_STREAM_REPORT_INTERVAL_MS
    }

    /// Closes a window that is due and opens the next one.
    pub fn close(&mut self, now_ms: u64, totals: Option<JitterCounts>) -> (r: StreamReport)
        requires
            old(self).started_ms <= now_ms,
        ensures
            r.window_ms == now_ms - old(self).started_ms,
            r.jitter == match totals {
                Some(counts) => Some(counts.since_counts(old(self).jitter_total)),
                None => None,
            },
            final(self).started_ms == now_ms,
            final(self).jitter_total == match totals {
                Some(counts) => counts,
                None => old(self).jitter_total,
            },
    {
        let window_ms: u64 = now_ms - self.started_ms;
        self.started_ms = now_ms;
        let jitter = match totals {
            Some(counts) => {
                let since = counts.since(self.jitter_total);
                self.jitter_total = counts;
                Some(since)
            },
            None => None,
        };
        StreamReport { window_ms, jitter }
    }
}

/// A message from the bus of a running pipeline.
#[derive(Debug)]
pub enum BusMessage {
    /// Nothing came within the time that was waited.
    Nothing,
    Eos,
    Element { name: Option<String> },
    Error { source: Option<String>, error: String, debug: Option<String> },
    Warning { source: Option<String>, error: String, debug: Option<String> },
    Other,
}

/// What to do with a running pipeline.
#[derive(Debug)]
pub enum RunStep {
    Continue,
    /// Go on, but tell the user.
    Warn { message: String },
    /// End without an error.
    Finish { timed_out: bool },
    /// End with an error.
    Fail { message: String },
}

/// What GStreamer reports, in one line.
pub open spec fn report_text(
    kind: Seq<char>,
    source: Option<String>,
    error: Seq<char>,
    debug: Option<String>,
) -> Seq<char> {
    "GStreamer "@ + kind + " from "@ + (match source {
        Some(path) => path@,
        None => "unknown"@,
    }) + ": "@ + error + " ("@ + (match debug {
        Some(info) => info@,
        None => "no debug info"@,
    }) + ")"@
}

fn report(kind: &str, source: &Option<String>, error: &String, debug: &Option<String>) -> (r:
    String)
    ensures
        r@ == report_text(kind@, *source, error@, *debug),
{
    let mut out = "GStreamer ".to_owned();
    out.push_str(kind);
    out.push_str(" from ");
    match source {
        Some(path) => {
            out.push_str(path);
        },
        None => {
            out.push_str("unknown");
        },
    }
    out.push_str(": ");
    out.push_str(error);
    out.push_str(" (");
    match debug {
        Some(info) => {
            out.push_str(info);
        },
        None => {
            out.push_str("no debug info");
        },
    }
    out.push_str(")");
    out
}

/// Whether a message says that no video packets arrive any more.
pub open spec fn is_packet_timeout(message: BusMessage) -> bool {
    match message {
        BusMessage::Element { name } => name is Some && name->0@ == "GstUDPSrcTimeout"@,
        _ => false,
    }
}

/// Decides what a stop request or a bus message does to a running pipeline. A stop request comes
/// first; the end of the stream and a packet timeout end the pipeline without an error.
pub fn run_step(stop_requested: bool, message: &BusMessage) -> (r: RunStep)
    ensures
        match r {
            RunStep::Finish { timed_out } => {
                &&& stop_requested || *message is Eos || is_packet_timeout(*message)
                &&& timed_out == (!stop_requested && is_packet_timeout(*message))
            },
            RunStep::Fail { message: problem } => {
                &&& !stop_requested
                &&& *message matches BusMessage::Error { source, error, debug }
                &&& problem@ == report_text("error"@, source, error@, debug)
            },
            RunStep::Warn { message: problem } => {
                &&& !stop_requested
                &&& *message matches BusMessage::Warning { source, error, debug }
                &&& problem@ == report_text("warning"@, source, error@, debug)
            },
            RunStep::Continue => {
                &&& !stop_requested
                &&& *message !is Eos
                &&& *message !is Error
                &&& *message !is Warning
                &&& !is_packet_timeout(*message)
            },
        },
{
    if stop_requested {
        return RunStep::Finish { timed_out: false };
    }
    match message {
        BusMessage::Eos => RunStep::Finish { timed_out: false },
        BusMessage::Element { name } => match name {
            Some(name) => if text::str_equal(name, "GstUDPSrcTimeout") {
                RunStep::Finish { timed_out: true }
            } else {
                RunStep::Continue
            },
            None => RunStep::Continue,
        },
        BusMessage::Error { source, error, debug } => RunStep::Fail {
            message: report("error", source, error, debug),
        },
        BusMessage::Warning { source, error, debug } => RunStep::Warn {
            message: report("warning", source, error, debug),
        },
        BusMessage::Nothing => RunStep::Continue,
        BusMessage::Other => RunStep::Continue,
    }
}

/// What follows when a route of a receiver plan has ended.
#[derive(Clone, Copy, Debug, PartialEq, Eq, Structural)]
pub enum PlanStep {
    /// The receiver is done: a route ended well, or it was told to stop.
    Done,
    /// Try this fallback next.
    Retry { fallback: usize },
    /// Every route has failed.
    Exhausted,
}

/// The order of the routes: `attempts` routes have ended, the last one well or not.
pub open spec fn plan_step(
    attempts: nat,
    ended_well: bool,
    stop_requested: bool,
    fallbacks: nat,
) -> PlanStep {
    if ended_well {
        PlanStep::Done
    } else if attempts > fallbacks {
        PlanStep::Exhausted
    } else if stop_requested {
        PlanStep::Done
    } else {
        PlanStep::Retry { fallback: (attempts - 1) as usize }
    }
}

/// Decides what follows when a route of a receiver plan has ended.
pub fn next_route(
    plan: &ReceiverPipelinePlan,
    attempts: usize,
    ended_well: bool,
    stop_requested: bool,
) -> (r: PlanStep)
    requires
        attempts >= 1,
    ensures
        r == plan_step(
            attempts as nat,
            ended_well,
            stop_requested,
            plan@.fallbacks.len(),
        ),
{
    if ended_well {
        PlanStep::Done
    } else if attempts > plan.fallbacks.len() {
        PlanStep::Exhausted
    } else if stop_requested {
        PlanStep::Done
    } else {
        PlanStep::Retry { fallback: attempts - 1 }
    }
}

/// The routes are tried one after the other, each once: after the primary route the first
/// fallback, after each fallback the one behind it, and after the last one nothing.
pub proof fn law_routes_are_tried_in_order(attempts: nat, fallbacks: nat)
    requires
        1 <= attempts,
        fallbacks <= usize::MAX,
    ensures
        attempts <= fallbacks ==> plan_step(attempts, false, false, fallbacks)
            == (PlanStep::Retry { fallback: (attempts - 1) as usize }) && attempts - 1 < fallbacks,
        attempts > fallbacks ==> plan_step(attempts, false, false, fallbacks)
            == PlanStep::Exhausted,
        plan_step(attempts, true, false, fallbacks) == PlanStep::Done,
{
}

/// What is said of a plan whose routes have all failed; a plan without fallbacks has nothing to add
/// to the error of its only route.
pub fn exhausted_context(plan: &ReceiverPipelinePlan) -> (r: Option<String>)
    ensures
        match r {
            Some(context) => plan@.fallbacks.len() > 0 && context@
                == "every receiver decode route failed (last: "@ + plan@.fallbacks.last().0
                + " route)"@,
            None => plan@.fallbacks.len() == 0,
        },
{
    if plan.fallbacks.len() == 0 {
        return None;
    }
    let last = &plan.fallbacks[plan.fallbacks.len() - 1];
    let mut out = "every receiver decode route failed (last: ".to_owned();
    out.push_str(last.label);
    out.push_str(" route)");
    assert(plan@.fallbacks.last().0 == last.label@);
    Some(out)
}

pub open spec fn names_h264_decoder(factory: Seq<char>) -> bool {
    text::contains(factory, "h264"@) && (text::ends_with(factory, "dec"@) || factory
        == "avdec_h264"@)
}

/// Whether an element of a running pipeline is its H.264 decoder. `decodebin` has its decoder
/// inside, under the decoder's own name.
pub fn is_h264_decoder(factory: &str) -> (r: bool)
    ensures
        r == names_h264_decoder(factory@),
{
    let chars = text::chars_of(factory);
    text::has_text(&chars, "h264") && (text::has_suffix(&chars, "dec") || text::str_equal(
        factory,
        "avdec_h264",
    ))
}

pub open spec fn memory_in_caps(caps: Seq<char>) -> Seq<char> {
    if text::contains(caps, "memory:D3D12Memory"@) {
        "D3D12Memory"@
    } else if text::contains(caps, "memory:D3D11Memory"@) {
        "D3D11Memory"@
    } else {
        "system/other memory"@
    }
}

/// The memory that negotiated caps put decoded frames in.
pub fn runtime_memory(caps: &str) -> (r: &'static str)
    ensures
        r@ == memory_in_caps(caps@),
{
    let chars = text::chars_of(caps);
    if text::has_text(&chars, "memory:D3D12Memory") {
        "D3D12Memory"
    } else if text::has_text(&chars, "memory:D3D11Memory") {
        "D3D11Memory"
    } else {
        "system/other memory"
    }
}

pub open spec fn or_unknown(value: Option<String>, unknown: Seq<char>) -> Seq<char> {
    match value {
        Some(found) => found@,
        None => unknown,
    }
}

/// What a running receiver decodes and renders with, once caps are negotiated.
#[derive(Debug)]
pub struct RuntimePath {
    pub decoder: String,
    pub decoder_luid: Option<String>,
    pub caps: String,
    pub sink: Option<String>,
    pub sink_adapter: Option<String>,
}

impl RuntimePath {
    pub open spec fn line_text(self) -> Seq<char> {
        "receiver runtime decoder="@ + self.decoder@ + " decoder-luid="@ + or_unknown(
            self.decoder_luid,
            "default/unknown"@,
        ) + " memory="@ + memory_in_caps(self.caps@) + " caps="@ + self.caps@ + " sink="@
            + or_unknown(self.sink, "unknown"@) + " sink-adapter="@ + or_unknown(
            self.sink_adapter,
            "default/unknown"@,
        )
    }

    /// One line for the log.
    pub fn line(&self) -> (r: String)
        ensures
            r@ == self.line_text(),
    {
        let mut out = "receiver runtime decoder=".to_owned();
        out.push_str(&self.decoder);
        out.push_str(" decoder-luid=");
        push_or(&mut out, &self.decoder_luid, "default/unknown");
        out.push_str(" memory=");
        out.push_str(runtime_memory(&self.caps));
        out.push_str(" caps=");
        out.push_str(&self.caps);
        out.push_str(" sink=");
        push_or(&mut out, &self.sink, "unknown");
        out.push_str(" sink-adapter=");
        push_or(&mut out, &self.sink_adapter, "default/unknown");
        out
    }
}

fn push_or(out: &mut String, value: &Option<String>, unknown: &str)
    ensures
        final(out)@ == old(out)@ + or_unknown(*value, unknown@),
{
    match value {
        Some(found) => {
            out.push_str(found);
        },
        None => {
            out.push_str(unknown);
        },
    }
}

/// A total that went backwards has been reset, and counts as nothing new.
pub proof fn law_reset_totals_count_as_nothing(now: JitterCounts, earlier: JitterCounts)
    ensures
        now.pushed < earlier.pushed ==> now.since_counts(earlier).pushed == 0,
        now.lost < earlier.lost ==> now.since_counts(earlier).lost == 0,
        now.late < earlier.late ==> now.since_counts(earlier).late == 0,
        now.duplicates < earlier.duplicates ==> now.since_counts(earlier).duplicates == 0,
{
}

/// No further route is tried once one has ended well or the user has asked to stop.
pub proof fn law_no_route_after_a_stop(attempts: nat, ended_well: bool, fallbacks: nat)
    requires
        1 <= attempts,
    ensures
        !(plan_step(attempts, ended_well, true, fallbacks) is Retry),
        !(plan_step(attempts, true, false, fallbacks) is Retry),
        plan_step(attempts, ended_well, true, fallbacks) is Exhausted <==> !ended_well && attempts
            > fallbacks,
{
}

/// Any element that is named as a decoder of H.264 is taken for one.
pub proof fn law_h264_decoders_are_recognised(before: Seq<char>, between: Seq<char>)
    ensures
        names_h264_decoder(before + "h264"@ + between + "dec"@),
{
    let s = before + "h264"@ + between + "dec"@;
    reading::lemma_contains(before, "h264"@, between + "dec"@);
    assert(before + "h264"@ + (between + "dec"@) == s);
    assert(s.subrange(s.len() - "dec"@.len(), s.len() as int) == "dec"@);
}

/// Frames are said to be in GPU memory exactly where their caps say so.
pub proof fn law_memory_is_as_negotiated(caps: Seq<char>)
    ensures
        memory_in_caps(caps) == "D3D12Memory"@ <==> text::contains(caps, "memory:D3D12Memory"@),
        memory_in_caps(caps) == "D3D11Memory"@ <==> text::contains(caps, "memory:D3D11Memory"@)
            && !text::contains(caps, "memory:D3D12Memory"@),
{
    reveal_strlit("D3D12Memory");
    reveal_strlit("D3D11Memory");
    reveal_strlit("system/other memory");
    assert("D3D12Memory"@[4] != "D3D11Memory"@[4]);
    assert("D3D12Memory"@.len() != "system/other memory"@.len());
}

/// A report names its kind, its source, the error and what GStreamer adds to it.
pub proof fn law_reports_say_what_happened(
    kind: Seq<char>,
    source: Option<String>,
    error: Seq<char>,
    debug: Option<String>,
)
    ensures
        ({
            let report = report_text(kind, source, error, debug);
            &&& text::contains(report, "GStreamer "@ + kind + " from "@)
            &&& text::contains(report, ": "@ + error + " ("@)
            &&& source is Some ==> text::contains(report, " from "@ + source->0@ + ": "@)
            &&& debug is Some ==> text::contains(report, " ("@ + debug->0@ + ")"@)
        }),
{
    let from = match source {
        Some(path) => path@,
        None => "unknown"@,
    };
    let more = match debug {
        Some(info) => info@,
        None => "no debug info"@,
    };
    let report = report_text(kind, source, error, debug);
    let a = "GStreamer "@ + kind + " from "@;
    let c = ": "@ + error + " ("@;
    let empty = Seq::<char>::empty();
    assert(report == empty + a + (from + c + more + ")"@));
    reading::lemma_contains(empty, a, from + c + more + ")"@);
    assert(report == (a + from) + c + (more + ")"@));
    reading::lemma_contains(a + from, c, more + ")"@);
    let b = " from "@ + from + ": "@;
    assert(report == ("GStreamer "@ + kind) + b + (error + " ("@ + more + ")"@));
    reading::lemma_contains("GStreamer "@ + kind, b, error + " ("@ + more + ")"@);
    let d = " ("@ + more + ")"@;
    assert(report == (a + from + ": "@ + error) + d + empty);
    reading::lemma_contains(a + from + ": "@ + error, d, empty);
}

} // verus!
