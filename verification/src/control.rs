//! Touch control and stream feedback, which share one UDP port.
use crate::discovery::{self, DiscoveryError, Ipv4Addr};
use crate::precision;
use crate::text;
use vstd::prelude::*;

verus! {

pub const CONTROL_PORT: u16 = 47778;

pub const CONTROL_PROTOCOL: &'static str = "screen-mirror.control";

pub const STREAM_FEEDBACK_PROTOCOL: &'static str = "screen-mirror.feedback";

pub const CONTROL_VERSION: u16 = 1;

/// How old a report may be before it no longer counts, in milliseconds.
pub const FEEDBACK_STALE_AFTER_MS: u64 = 3000;

/// `MOUSEEVENTF_MOVE`.
pub const MOUSE_MOVE: u32 = 0x0001;

/// `MOUSEEVENTF_LEFTDOWN`.
pub const MOUSE_LEFT_DOWN: u32 = 0x0002;

/// `MOUSEEVENTF_LEFTUP`.
pub const MOUSE_LEFT_UP: u32 = 0x0004;

/// `MOUSEEVENTF_ABSOLUTE`.
pub const MOUSE_ABSOLUTE: u32 = 0x8000;

/// What is wrong with a control packet.
#[derive(Clone, Copy, Debug, PartialEq, Eq, Structural)]
pub enum ControlError {
    UnexpectedControlProtocol,
    UnsupportedControlVersion,
    UnexpectedFeedbackProtocol,
    UnsupportedFeedbackVersion,
}

impl ControlError {
    /// The message that a user reads.
    pub fn message(self) -> (r: &'static str)
        ensures
            r@ == match self {
                ControlError::UnexpectedControlProtocol => "unexpected control protocol"@,
                ControlError::UnsupportedControlVersion => "unsupported control version"@,
                ControlError::UnexpectedFeedbackProtocol => "unexpected stream feedback protocol"@,
                ControlError::UnsupportedFeedbackVersion => "unsupported stream feedback version"@,
            },
    {
        match self {
            ControlError::UnexpectedControlProtocol => "unexpected control protocol",
            ControlError::UnsupportedControlVersion => "unsupported control version",
            ControlError::UnexpectedFeedbackProtocol => "unexpected stream feedback protocol",
            ControlError::UnsupportedFeedbackVersion => "unsupported stream feedback version",
        }
    }
}

#[derive(Clone, Copy, Debug, PartialEq, Eq, Structural)]
pub enum TouchAction {
    Down,
    Move,
    Up,
    Cancel,
}

impl TouchAction {
    /// The mouse event that a touch becomes: the pointer always moves to the touched place, and a
    /// touch that begins or ends presses or releases the left button there.
    pub fn mouse_flags(self) -> (r: u32)
        ensures
            r == MOUSE_ABSOLUTE + MOUSE_MOVE + match self {
                TouchAction::Down => MOUSE_LEFT_DOWN as int,
                TouchAction::Move => 0,
                TouchAction::Up => MOUSE_LEFT_UP as int,
                TouchAction::Cancel => MOUSE_LEFT_UP as int,
            },
            r % 2 == 1 && r / 0x8000 == 1,
            r / 2 % 2 == 1 <==> self is Down,
            r / 4 % 2 == 1 <==> self is Up || self is Cancel,
    {
        match self {
            TouchAction::Down => MOUSE_ABSOLUTE + MOUSE_MOVE + MOUSE_LEFT_DOWN,
            TouchAction::Move => MOUSE_ABSOLUTE + MOUSE_MOVE,
            TouchAction::Up => MOUSE_ABSOLUTE + MOUSE_MOVE + MOUSE_LEFT_UP,
            TouchAction::Cancel => MOUSE_ABSOLUTE + MOUSE_MOVE + MOUSE_LEFT_UP,
        }
    }
}

/// The part of a touch event that says whether it is for this machine.
#[derive(Debug)]
pub struct ControlHeader {
    pub protocol: String,
    pub version: u16,
    pub pin_hash: Option<String>,
}

impl ControlHeader {
    /// The header of a touch event, with the hash of a PIN where one is given.
    pub fn new(pin: Option<&str>) -> (r: Result<Self, DiscoveryError>)
        ensures
            match r {
                Ok(header) => {
                    &&& pin is Some ==> discovery::is_pin(pin->0@)
                    &&& header.supported()
                    &&& discovery::optional_text(header.pin_hash) == discovery::wanted_hash(pin)
                    &&& pin is Some ==> discovery::is_pin_hash(discovery::pin_hash_of(pin->0@))
                },
                Err(error) => pin is Some && !discovery::is_pin(pin->0@) && error
                    == DiscoveryError::PinFormat,
            },
    {
        let pin_hash = match pin {
            Some(pin) => match discovery::pin_hash(pin) {
                Ok(hash) => Some(hash),
                Err(error) => return Err(error),
            },
            None => None,
        };
        Ok(
            ControlHeader {
                protocol: CONTROL_PROTOCOL.to_owned(),
                version: CONTROL_VERSION,
                pin_hash,
            },
        )
    }

    pub open spec fn supported(self) -> bool {
        self.protocol@ == CONTROL_PROTOCOL@ && self.version == CONTROL_VERSION
    }

    /// Passes when a parsed packet is a touch event of this protocol and version.
    pub fn validate(&self) -> (r: Result<(), ControlError>)
        ensures
            match r {
                Ok(_) => self.supported(),
                Err(ControlError::UnexpectedControlProtocol) => self.protocol@ != CONTROL_PROTOCOL@,
                Err(ControlError::UnsupportedControlVersion) => self.protocol@ == CONTROL_PROTOCOL@
                    && self.version != CONTROL_VERSION,
                Err(_) => false,
            },
    {
        if !text::str_equal(&self.protocol, CONTROL_PROTOCOL) {
            Err(ControlError::UnexpectedControlProtocol)
        } else if self.version != CONTROL_VERSION {
            Err(ControlError::UnsupportedControlVersion)
        } else {
            Ok(())
        }
    }

    /// Whether the event was sent with the expected PIN. One without a PIN never was.
    pub fn authorized(&self, expected_pin_hash: &str) -> (r: bool)
        ensures
            r == (discovery::optional_text(self.pin_hash) == Some(expected_pin_hash@)),
    {
        match &self.pin_hash {
            Some(hash) => text::str_equal(hash, expected_pin_hash),
            None => false,
        }
    }
}

/// Receiver-side stream health measured over a recent reporting window.
///
/// This message shares [`CONTROL_PORT`] with touch control, but has its own protocol identifier so
/// a listener can tell it apart.
#[derive(Debug)]
pub struct StreamFeedback {
    pub protocol: String,
    pub version: u16,
    pub pin_hash: String,
    pub timestamp_ms: u64,
    pub window_ms: u64,
    pub received_packets: u64,
    pub lost_packets: u64,
    pub late_packets: u64,
    pub duplicate_packets: u64,
    pub decoded_frames: u64,
    pub displayed_frames: u64,
    pub jitter_ms: u32,
}

impl Clone for StreamFeedback {
    fn clone(&self) -> (r: Self)
        ensures
            r == *self,
    {
        StreamFeedback {
            protocol: self.protocol.clone(),
            version: self.version,
            pin_hash: self.pin_hash.clone(),
            timestamp_ms: self.timestamp_ms,
            window_ms: self.window_ms,
            received_packets: self.received_packets,
            lost_packets: self.lost_packets,
            late_packets: self.late_packets,
            duplicate_packets: self.duplicate_packets,
            decoded_frames: self.decoded_frames,
            displayed_frames: self.displayed_frames,
            jitter_ms: self.jitter_ms,
        }
    }
}

impl StreamFeedback {
    pub fn with_pin(
        pin: &str,
        timestamp_ms: u64,
        window_ms: u64,
        received_packets: u64,
        lost_packets: u64,
        late_packets: u64,
        duplicate_packets: u64,
        decoded_frames: u64,
        displayed_frames: u64,
        jitter_ms: u32,
    ) -> (r: Result<Self, DiscoveryError>)
        ensures
            match r {
                Ok(feedback) => {
                    &&& discovery::is_pin(pin@)
                    &&& feedback.supported()
                    &&& feedback.pin_hash@ == discovery::pin_hash_of(pin@)
                    &&& discovery::is_pin_hash(feedback.pin_hash@)
                    &&& feedback == (StreamFeedback {
                        protocol: feedback.protocol,
                        version: feedback.version,
                        pin_hash: feedback.pin_hash,
                        timestamp_ms,
                        window_ms,
                        received_packets,
                        lost_packets,
                        late_packets,
                        duplicate_packets,
                        decoded_frames,
                        displayed_frames,
                        jitter_ms,
                    })
                },
                Err(error) => !discovery::is_pin(pin@) && error == DiscoveryError::PinFormat,
            },
    {
        let pin_hash = match discovery::pin_hash(pin) {
            Ok(hash) => hash,
            Err(error) => return Err(error),
        };
        Ok(
            StreamFeedback {
                protocol: STREAM_FEEDBACK_PROTOCOL.to_owned(),
                version: CONTROL_VERSION,
                pin_hash,
                timestamp_ms,
                window_ms,
                received_packets,
                lost_packets,
                late_packets,
                duplicate_packets,
                decoded_frames,
                displayed_frames,
                jitter_ms,
            },
        )
    }

    pub open spec fn supported(self) -> bool {
        self.protocol@ == STREAM_FEEDBACK_PROTOCOL@ && self.version == CONTROL_VERSION
    }

    /// Lets a parsed packet through when it is a report of this protocol and version.
    pub fn validated(self) -> (r: Result<Self, ControlError>)
        ensures
            match r {
                Ok(feedback) => self.supported() && feedback == self,
                Err(ControlError::UnexpectedFeedbackProtocol) => self.protocol@
                    != STREAM_FEEDBACK_PROTOCOL@,
                Err(ControlError::UnsupportedFeedbackVersion) => self.protocol@
                    == STREAM_FEEDBACK_PROTOCOL@ && self.version != CONTROL_VERSION,
                Err(_) => false,
            },
    {
        if !text::str_equal(&self.protocol, STREAM_FEEDBACK_PROTOCOL) {
            Err(ControlError::UnexpectedFeedbackProtocol)
        } else if self.version != CONTROL_VERSION {
            Err(ControlError::UnsupportedFeedbackVersion)
        } else {
            Ok(self)
        }
    }

    /// How many packets the window is measured against: those that came and those that did not,
    /// and at least one.
    pub open spec fn total(self) -> nat {
        let sum = self.received_packets + self.lost_packets;
        if sum == 0 {
            1
        } else if sum > u64::MAX {
            u64::MAX as nat
        } else {
            sum as nat
        }
    }

    fn total_packets(&self) -> (r: u64)
        ensures
            r == self.total(),
            r > 0,
    {
        let sum: u128 = self.received_packets as u128 + self.lost_packets as u128;
        if sum == 0 {
            1
        } else if sum > u64::MAX as u128 {
            u64::MAX
        } else {
            sum as u64
        }
    }
}

/// A fraction by its parts.
#[derive(Clone, Copy, Debug, PartialEq, Eq, Structural)]
pub struct Ratio {
    pub part: u64,
    pub whole: u64,
}

impl Ratio {
    /// Whether one fraction is at most another, with the parts of both in double precision: the
    /// larger fraction is then also the larger double-precision quotient.
    pub open spec fn at_most(self, other: Ratio) -> bool {
        precision::double(self.part as int) * precision::double(other.whole as int)
            <= precision::double(other.part as int) * precision::double(self.whole as int)
    }

    fn below(self, other: Ratio) -> (r: bool)
        ensures
            r == !other.at_most(self),
    {
        let part: u128 = in_double(self.part);
        let whole: u128 = in_double(self.whole);
        let other_part: u128 = in_double(other.part);
        let other_whole: u128 = in_double(other.whole);
        less(part, other_whole, other_part, whole)
    }
}

fn in_double(n: u64) -> (r: u128)
    ensures
        r == precision::double(n as int),
        r <= 0x1_0000_0000_0000_0000,
{
    proof {
        precision::lemma_kept_of_u64(n);
    }
    precision::keep(n as u128, precision::DOUBLE)
}

/// Whether one product is less than another. Only the largest one does not fit 128 bits.
fn less(a: u128, b: u128, c: u128, d: u128) -> (r: bool)
    requires
        a <= 0x1_0000_0000_0000_0000,
        b <= 0x1_0000_0000_0000_0000,
        c <= 0x1_0000_0000_0000_0000,
        d <= 0x1_0000_0000_0000_0000,
    ensures
        r == (a * b < c * d),
{
    let top: u128 = 0x1_0000_0000_0000_0000;
    proof {
        lemma_product_fits(a, b);
        lemma_product_fits(c, d);
    }
    if a == top && b == top {
        false
    } else if c == top && d == top {
        true
    } else {
        a * b < c * d
    }
}

proof fn lemma_product_fits(a: u128, b: u128)
    requires
        a <= 0x1_0000_0000_0000_0000,
        b <= 0x1_0000_0000_0000_0000,
    ensures
        0 <= a * b <= 0x1_0000_0000_0000_0000 * 0x1_0000_0000_0000_0000,
        a * b <= u128::MAX || (a == 0x1_0000_0000_0000_0000 && b == 0x1_0000_0000_0000_0000),
{
    let top: int = 0x1_0000_0000_0000_0000;
    assert(0 <= a * b <= top * top) by (nonlinear_arith)
        requires
            0 <= a <= top,
            0 <= b <= top,
    ;
    if a < top {
        assert(a * b <= (top - 1) * top) by (nonlinear_arith)
            requires
                0 <= a <= top - 1,
                0 <= b <= top,
        ;
    } else if b < top {
        assert(a * b <= top * (top - 1)) by (nonlinear_arith)
            requires
                0 <= a <= top,
                0 <= b <= top - 1,
        ;
    }
}

proof fn lemma_ratio_transitive(a: Ratio, b: Ratio, c: Ratio)
    requires
        a.at_most(b),
        b.at_most(c),
        b.whole > 0,
    ensures
        a.at_most(c),
{
    let limit = precision::DOUBLE as int;
    precision::lemma_kept_error(a.part as int, limit);
    precision::lemma_kept_error(a.whole as int, limit);
    precision::lemma_kept_error(b.part as int, limit);
    precision::lemma_kept_error(b.whole as int, limit);
    precision::lemma_kept_error(c.part as int, limit);
    precision::lemma_kept_error(c.whole as int, limit);
    let (ap, aw) = (precision::double(a.part as int), precision::double(a.whole as int));
    let (bp, bw) = (precision::double(b.part as int), precision::double(b.whole as int));
    let (cp, cw) = (precision::double(c.part as int), precision::double(c.whole as int));
    assert(bw > 0);
    assert(ap * cw <= cp * aw) by (nonlinear_arith)
        requires
            ap * bw <= bp * aw,
            bp * cw <= cp * bw,
            bw > 0,
            aw >= 0,
            cw >= 0,
            ap >= 0,
            bp >= 0,
            cp >= 0,
    {
        assert((ap * cw) * bw == (ap * bw) * cw);
        assert((ap * bw) * cw <= (bp * aw) * cw);
        assert((bp * aw) * cw == (bp * cw) * aw);
        assert((bp * cw) * aw <= (cp * bw) * aw);
        assert((cp * bw) * aw == (cp * aw) * bw);
    }
}

/// The latest report of one receiver, and when it came.
#[derive(Debug)]
pub struct FeedbackEntry {
    pub source: Ipv4Addr,
    pub feedback: StreamFeedback,
    pub received_at_ms: u64,
}

/// Latest receiver reports, one for each of the receivers' LAN addresses.
#[derive(Debug)]
pub struct FeedbackStore {
    pub entries: Vec<FeedbackEntry>,
}

impl Default for FeedbackStore {
    fn default() -> (r: Self)
        ensures
            r.entries@ == Seq::<FeedbackEntry>::empty(),
            r.wf(),
    {
        FeedbackStore { entries: Vec::new() }
    }
}

/// The worst of what the active receivers report.
#[derive(Clone, Copy, Debug, PartialEq, Eq, Structural)]
pub struct FeedbackHealth {
    pub receiver_count: usize,
    pub loss_ratio: Ratio,
    pub late_ratio: Ratio,
    pub jitter_ms: u32,
}

impl Default for FeedbackHealth {
    fn default() -> (r: Self)
        ensures
            r.receiver_count == 0,
            r.loss_ratio == (Ratio { part: 0, whole: 1 }),
            r.late_ratio == (Ratio { part: 0, whole: 1 }),
            r.jitter_ms == 0,
    {
        FeedbackHealth {
            receiver_count: 0,
            loss_ratio: Ratio { part: 0, whole: 1 },
            late_ratio: Ratio { part: 0, whole: 1 },
            jitter_ms: 0,
        }
    }
}

impl FeedbackEntry {
    /// Whether a report is recent enough to count.
    pub open spec fn active(self, now_ms: int) -> bool {
        now_ms - self.received_at_ms <= FEEDBACK_STALE_AFTER_MS
    }

    pub open spec fn loss(self) -> Ratio {
        Ratio { part: self.feedback.lost_packets, whole: self.feedback.total() as u64 }
    }

    pub open spec fn late(self) -> Ratio {
        Ratio { part: self.feedback.late_packets, whole: self.feedback.total() as u64 }
    }
}

/// How many reports are recent.
pub open spec fn active_count(entries: Seq<FeedbackEntry>, now_ms: int) -> nat
    decreases entries.len(),
{
    if entries.len() == 0 {
        0
    } else {
        active_count(entries.drop_last(), now_ms) + if entries.last().active(now_ms) {
            1nat
        } else {
            0nat
        }
    }
}

/// Whether a fraction is the largest of some fractions, one of each recent report, or zero where no
/// report is recent.
pub open spec fn is_worst(
    worst: Ratio,
    entries: Seq<FeedbackEntry>,
    now_ms: int,
    ratio: spec_fn(FeedbackEntry) -> Ratio,
) -> bool {
    &&& worst.whole > 0
    &&& worst == (Ratio { part: 0, whole: 1 }) || exists|i: int|
        0 <= i < entries.len() && (#[trigger] entries[i]).active(now_ms) && ratio(entries[i])
            == worst
    &&& forall|i: int|
        0 <= i < entries.len() && (#[trigger] entries[i]).active(now_ms) ==> ratio(
            entries[i],
        ).at_most(worst)
}

/// Whether a jitter is the largest of the recent reports, or zero where no report is recent.
pub open spec fn is_worst_jitter(worst: u32, entries: Seq<FeedbackEntry>, now_ms: int) -> bool {
    &&& worst == 0 || exists|i: int|
        0 <= i < entries.len() && (#[trigger] entries[i]).active(now_ms)
            && entries[i].feedback.jitter_ms == worst
    &&& forall|i: int|
        0 <= i < entries.len() && (#[trigger] entries[i]).active(now_ms)
            ==> entries[i].feedback.jitter_ms <= worst
}

/// One more report: what was the worst of the others, against it.
proof fn lemma_worst_step(
    worst: Ratio,
    next: Ratio,
    entries: Seq<FeedbackEntry>,
    k: int,
    now_ms: int,
    ratio: spec_fn(FeedbackEntry) -> Ratio,
)
    requires
        0 <= k < entries.len(),
        is_worst(worst, entries.take(k), now_ms, ratio),
        ratio(entries[k]).whole > 0,
        next == if entries[k].active(now_ms) && !ratio(entries[k]).at_most(worst) {
            ratio(entries[k])
        } else {
            worst
        },
    ensures
        is_worst(next, entries.take(k + 1), now_ms, ratio),
{
    let before = entries.take(k);
    let after = entries.take(k + 1);
    assert(after[k] == entries[k]);
    assert forall|i: int| 0 <= i < after.len() && (#[trigger] after[i]).active(now_ms) implies ratio(
        after[i],
    ).at_most(next) by {
        if i < k {
            assert(after[i] == before[i]);
            assert(ratio(before[i]).at_most(worst));
            if next != worst {
                assert(worst.at_most(next));
                lemma_ratio_transitive(ratio(before[i]), worst, next);
            }
        } else if next == worst {
            assert(ratio(entries[k]).at_most(worst));
        } else {
            assert(next.at_most(next));
        }
    }
    if next == worst && worst != (Ratio { part: 0, whole: 1 }) {
        let i = choose|i: int|
            0 <= i < before.len() && (#[trigger] before[i]).active(now_ms) && ratio(before[i])
                == worst;
        assert(after[i] == before[i]);
    }
}

impl FeedbackStore {
    /// No two entries are of the same receiver.
    pub open spec fn wf(self) -> bool {
        forall|i: int, j: int|
            0 <= i < j < self.entries@.len() ==> (#[trigger] self.entries@[i]).source != (
            #[trigger] self.entries@[j]).source
    }

    /// Takes the place of the receiver's last report.
    pub fn update(&mut self, source: Ipv4Addr, feedback: StreamFeedback, now_ms: u64)
        requires
            old(self).wf(),
        ensures
            final(self).wf(),
            exists|i: int|
                0 <= i < final(self).entries@.len() && #[trigger] final(self).entries@[i]
                    == (FeedbackEntry { source, feedback, received_at_ms: now_ms }),
            forall|e: FeedbackEntry|
                e.source != source ==> (final(self).entries@.contains(e) <==> old(
                    self,
                ).entries@.contains(e)),
    {
        let ghost before = self.entries@;
        let mut i: usize = 0;
        while i < self.entries.len()
            invariant
                i <= self.entries.len(),
                self.entries@ == before,
                before == old(self).entries@,
                self.wf(),
                forall|k: int| 0 <= k < i ==> (#[trigger] before[k]).source != source,
            decreases self.entries.len() - i,
        {
            if self.entries[i].source == source {
                let entry = FeedbackEntry { source, feedback, received_at_ms: now_ms };
                self.entries.set(i, entry);
                let ghost after = self.entries@;
                assert(after == before.update(i as int, entry));
                assert forall|e: FeedbackEntry| e.source != source implies (after.contains(e)
                    <==> before.contains(e)) by {
                    if after.contains(e) {
                        let k = choose|k: int| 0 <= k < after.len() && after[k] == e;
                        assert(before[k] == e);
                    }
                    if before.contains(e) {
                        let k = choose|k: int| 0 <= k < before.len() && before[k] == e;
                        assert(after[k] == e);
                    }
                }
                assert(after[i as int] == entry);
                assert forall|a: int, b: int| 0 <= a < b < after.len() implies (
                #[trigger] after[a]).source != (#[trigger] after[b]).source by {
                    assert(before[a].source != before[b].source);
                }
                return;
            }
            i += 1;
        }
        let entry = FeedbackEntry { source, feedback, received_at_ms: now_ms };
        self.entries.push(entry);
        let ghost after = self.entries@;
        assert forall|e: FeedbackEntry| e.source != source implies (after.contains(e)
            <==> before.contains(e)) by {
            if after.contains(e) {
                let k = choose|k: int| 0 <= k < after.len() && after[k] == e;
                assert(before[k] == e);
            }
            if before.contains(e) {
                let k = choose|k: int| 0 <= k < before.len() && before[k] == e;
                assert(after[k] == e);
            }
        }
        assert(after[before.len() as int] == entry);
    }

    /// Keeps a report that came with the expected PIN from an IPv4 source, and ignores any other.
    pub fn accept(
        &mut self,
        expected_pin_hash: &str,
        source: Option<Ipv4Addr>,
        feedback: StreamFeedback,
        now_ms: u64,
    ) -> (r: bool)
        requires
            old(self).wf(),
        ensures
            final(self).wf(),
            r == (feedback.pin_hash@ == expected_pin_hash@ && source is Some),
            !r ==> final(self).entries@ == old(self).entries@,
            r ==> exists|i: int|
                0 <= i < final(self).entries@.len() && #[trigger] final(self).entries@[i]
                    == (FeedbackEntry { source: source->0, feedback, received_at_ms: now_ms }),
            r ==> forall|e: FeedbackEntry|
                e.source != source->0 ==> (final(self).entries@.contains(e) <==> old(
                    self,
                ).entries@.contains(e)),
    {
        if !text::str_equal(&feedback.pin_hash, expected_pin_hash) {
            return false;
        }
        match source {
            Some(source) => {
                self.update(source, feedback, now_ms);
                true
            },
            None => false,
        }
    }

    /// The worst of what the active receivers report; a report that is too old plays no part.
    pub fn health(&self, now_ms: u64) -> (r: FeedbackHealth)
        ensures
            r.receiver_count == active_count(self.entries@, now_ms as int),
            is_worst(
                r.loss_ratio,
                self.entries@,
                now_ms as int,
                |e: FeedbackEntry| e.loss(),
            ),
            is_worst(
                r.late_ratio,
                self.entries@,
                now_ms as int,
                |e: FeedbackEntry| e.late(),
            ),
            is_worst_jitter(r.jitter_ms, self.entries@, now_ms as int),
    {
        let ghost entries = self.entries@;
        let ghost loss = |e: FeedbackEntry| e.loss();
        let ghost late = |e: FeedbackEntry| e.late();
        let mut health = FeedbackHealth::default();
        let mut i: usize = 0;
        assert(entries.take(0) == Seq::<FeedbackEntry>::empty());
        while i < self.entries.len()
            invariant
                i <= self.entries.len(),
                entries == self.entries@,
                loss == (|e: FeedbackEntry| e.loss()),
                late == (|e: FeedbackEntry| e.late()),
                health.receiver_count <= i,
                health.receiver_count == active_count(entries.take(i as int), now_ms as int),
                is_worst(health.loss_ratio, entries.take(i as int), now_ms as int, loss),
                is_worst(health.late_ratio, entries.take(i as int), now_ms as int, late),
                is_worst_jitter(health.jitter_ms, entries.take(i as int), now_ms as int),
            decreases self.entries.len() - i,
        {
            let entry = &self.entries[i];
            let ghost before = entries.take(i as int);
            let ghost after = entries.take(i + 1);
            assert(after.drop_last() == before);
            assert(after[i as int] == entries[i as int]);
            let total: u64 = entry.feedback.total_packets();
            let active = now_ms <= entry.received_at_ms || now_ms - entry.received_at_ms
                <= FEEDBACK_STALE_AFTER_MS;
            let ghost (old_loss, old_late, old_jitter) = (
                health.loss_ratio,
                health.late_ratio,
                health.jitter_ms,
            );
            if active {
                health.receiver_count += 1;
                let own_loss = Ratio { part: entry.feedback.lost_packets, whole: total };
                if health.loss_ratio.below(own_loss) {
                    health.loss_ratio = own_loss;
                }
                let own_late = Ratio { part: entry.feedback.late_packets, whole: total };
                if health.late_ratio.below(own_late) {
                    health.late_ratio = own_late;
                }
                if health.jitter_ms < entry.feedback.jitter_ms {
                    health.jitter_ms = entry.feedback.jitter_ms;
                }
            }
            proof {
                lemma_worst_step(
                    old_loss,
                    health.loss_ratio,
                    entries,
                    i as int,
                    now_ms as int,
                    loss,
                );
                lemma_worst_step(
                    old_late,
                    health.late_ratio,
                    entries,
                    i as int,
                    now_ms as int,
                    late,
                );
                assert(is_worst_jitter(health.jitter_ms, after, now_ms as int)) by {
                    assert forall|k: int|
                        0 <= k < after.len() && (#[trigger] after[k]).active(
                            now_ms as int,
                        ) implies after[k].feedback.jitter_ms <= health.jitter_ms by {
                        if k < i {
                            assert(after[k] == before[k]);
                        }
                    }
                    if health.jitter_ms == old_jitter && old_jitter != 0 {
                        let k = choose|k: int|
                            0 <= k < before.len() && (#[trigger] before[k]).active(now_ms as int)
                                && before[k].feedback.jitter_ms == old_jitter;
                        assert(after[k] == before[k]);
                    }
                }
            }
            i += 1;
        }
        assert(entries.take(entries.len() as int) == entries);
        health
    }
}

/// A report counts for three seconds and no longer.
pub proof fn law_reports_count_for_three_seconds(entry: FeedbackEntry, age_ms: int)
    ensures
        entry.active(entry.received_at_ms + age_ms) <==> age_ms <= 3000,
{
}

/// The receivers that count are those with a recent report, each once.
pub proof fn law_every_recent_report_is_counted(
    entries: Seq<FeedbackEntry>,
    entry: FeedbackEntry,
    now_ms: int,
)
    ensures
        active_count(Seq::empty(), now_ms) == 0,
        active_count(entries.push(entry), now_ms) == active_count(entries, now_ms) + (
        if now_ms - entry.received_at_ms <= 3000 {
            1int
        } else {
            0
        }),
        active_count(entries, now_ms) <= entries.len(),
{
    assert(entries.push(entry).drop_last() == entries);
    lemma_active_count(entries, now_ms);
}

proof fn lemma_active_count(entries: Seq<FeedbackEntry>, now_ms: int)
    ensures
        active_count(entries, now_ms) <= entries.len(),
    decreases entries.len(),
{
    if entries.len() > 0 {
        lemma_active_count(entries.drop_last(), now_ms);
    }
}

/// Lost and late packets are measured against all that were due: those that came and those that
/// were lost.
pub proof fn law_losses_are_measured_against_all_packets(entry: FeedbackEntry)
    requires
        0 < entry.feedback.received_packets + entry.feedback.lost_packets <= u64::MAX,
    ensures
        entry.loss().part == entry.feedback.lost_packets,
        entry.late().part == entry.feedback.late_packets,
        entry.loss().whole == entry.feedback.received_packets + entry.feedback.lost_packets,
        entry.late().whole == entry.loss().whole,
{
}

/// Of numbers that double precision holds exactly, the larger fraction is the larger one.
pub proof fn law_larger_fractions_are_worse(a: Ratio, b: Ratio)
    requires
        a.part < 0x20_0000_0000_0000,
        a.whole < 0x20_0000_0000_0000,
        b.part < 0x20_0000_0000_0000,
        b.whole < 0x20_0000_0000_0000,
    ensures
        a.at_most(b) <==> a.part * b.whole <= b.part * a.whole,
{
    precision::lemma_kept_error(a.part as int, precision::DOUBLE as int);
    precision::lemma_kept_error(a.whole as int, precision::DOUBLE as int);
    precision::lemma_kept_error(b.part as int, precision::DOUBLE as int);
    precision::lemma_kept_error(b.whole as int, precision::DOUBLE as int);
}

} // verus!
