//! The display topology: reading it from Windows, and bringing the bundled virtual displays into
//! it so that they can be captured.
use crate::monitors::{
    self, DisplayMonitor, ATTACHED_FLAG, MAX_BUNDLED_VIRTUAL_DISPLAYS, MIRRORING_FLAG, PRIMARY_FLAG,
};
use crate::search;
use crate::text;
use crate::wide;
use vstd::prelude::*;

verus! {

/// How long the bundled driver may take to show its first endpoint, in milliseconds.
pub const APPEAR_TIMEOUT_MS: u64 = 15_000;

/// How long an endpoint may take to become capturable, in milliseconds.
pub const CAPTURE_TIMEOUT_MS: u64 = 10_000;

/// How long a change of the endpoint count may take, in milliseconds.
pub const COUNT_TIMEOUT_MS: u64 = 30_000;

/// The names that Windows gives one display adapter or monitor.
pub struct DeviceNames {
    pub name: Vec<u16>,
    pub description: Vec<u16>,
    pub id: Vec<u16>,
}

/// One display adapter as Windows enumerates it, with the first monitor on it.
pub struct DeviceRecord {
    pub state_flags: u32,
    pub adapter: DeviceNames,
    pub monitor: Option<DeviceNames>,
}

/// One monitor that is part of the desktop.
pub struct MonitorHandleInfo {
    pub device_name: String,
    pub handle: u64,
    pub monitor_index: i32,
}

/// The text in a fixed buffer.
pub open spec fn buffer_text(buffer: Seq<u16>) -> Seq<char> {
    wide::decoded(wide::until_nul(buffer))
}

/// The text in a fixed buffer of the monitor, where there is a monitor and the text is not empty.
pub open spec fn monitor_text(record: DeviceRecord, which: int) -> Option<Seq<char>> {
    match record.monitor {
        Some(names) => {
            let found = buffer_text(
                if which == 0 {
                    names.name@
                } else if which == 1 {
                    names.description@
                } else {
                    names.id@
                },
            );
            if found.len() > 0 {
                Some(found)
            } else {
                None
            }
        },
        None => None,
    }
}

pub open spec fn text_or_empty(value: Option<Seq<char>>) -> Seq<char> {
    match value {
        Some(found) => found,
        None => Seq::empty(),
    }
}

pub open spec fn is_attached(record: DeviceRecord) -> bool {
    record.state_flags & ATTACHED_FLAG != 0
}

pub open spec fn is_mirroring(record: DeviceRecord) -> bool {
    record.state_flags & MIRRORING_FLAG != 0
}

/// Whether a device is counted among those that can be captured.
pub open spec fn is_capturable(record: DeviceRecord) -> bool {
    is_attached(record) && !is_mirroring(record)
}

/// Everything by which a device is recognised.
pub open spec fn combined_text(record: DeviceRecord) -> Seq<char> {
    buffer_text(record.adapter.name@) + seq![' '] + buffer_text(record.adapter.description@) + seq![
        ' ',
    ] + buffer_text(record.adapter.id@) + seq![' '] + text_or_empty(monitor_text(record, 0)) + seq![
        ' ',
    ] + text_or_empty(monitor_text(record, 1)) + seq![' '] + text_or_empty(monitor_text(record, 2))
}

/// The desktop monitor on an adapter.
pub open spec fn handle_of(record: DeviceRecord, handles: Seq<MonitorHandleInfo>) -> Option<
    MonitorHandleInfo,
> {
    search::first(
        handles,
        |h: MonitorHandleInfo|
            text::same_ignoring_case(h.device_name@, buffer_text(record.adapter.name@)),
    )
}

/// Whether a monitor says what the enumeration says of it. A device that can be captured has the
/// index that the desktop gives its monitor, or else its place among the devices that can be.
pub open spec fn enumerated(
    monitor: DisplayMonitor,
    record: DeviceRecord,
    handles: Seq<MonitorHandleInfo>,
    place: nat,
) -> bool {
    let handle = handle_of(record, handles);
    &&& monitor.attached == is_attached(record)
    &&& monitor.mirroring == is_mirroring(record)
    &&& monitor.primary == (record.state_flags & PRIMARY_FLAG != 0)
    &&& monitor.adapter_name@ == buffer_text(record.adapter.name@)
    &&& monitor.adapter_description@ == buffer_text(record.adapter.description@)
    &&& crate::discovery::optional_text(monitor.monitor_name) == monitor_text(record, 0)
    &&& crate::discovery::optional_text(monitor.monitor_description) == monitor_text(record, 1)
    &&& monitor.device_id@ == match monitor_text(record, 2) {
        Some(id) => id,
        None => buffer_text(record.adapter.id@),
    }
    &&& monitor.virtual_candidate == monitors::names_virtual_display(combined_text(record))
    &&& monitor.bundled_virtual_display == monitors::names_bundled_display(combined_text(record))
    &&& monitor.monitor_handle == match handle {
        Some(info) => Some(info.handle),
        None => None,
    }
    &&& monitor.capture_index == if is_capturable(record) {
        match handle {
            Some(info) => Some(info.monitor_index),
            None => Some(place as i32),
        }
    } else {
        None
    }
}

/// How many of the devices before one can be captured.
pub open spec fn place_of(records: Seq<DeviceRecord>, i: int) -> nat {
    search::kept(records.take(i), |r: DeviceRecord| is_capturable(r)).len()
}

fn nonempty_text(buffer: &Vec<u16>) -> (r: Option<String>)
    ensures
        match r {
            Some(found) => found@ == buffer_text(buffer@) && found@.len() > 0,
            None => buffer_text(buffer@).len() == 0,
        },
{
    let found = wide::wide_array_to_string(buffer);
    if found.as_str().is_empty() {
        None
    } else {
        Some(found)
    }
}

fn find_handle(name: &str, handles: &Vec<MonitorHandleInfo>) -> (r: Option<usize>)
    ensures
        match r {
            Some(i) => i < handles@.len() && search::first(
                handles@,
                |h: MonitorHandleInfo| text::same_ignoring_case(h.device_name@, name@),
            ) == Some(handles@[i as int]),
            None => search::first(
                handles@,
                |h: MonitorHandleInfo| text::same_ignoring_case(h.device_name@, name@),
            ) is None,
        },
{
    let ghost p = |h: MonitorHandleInfo| text::same_ignoring_case(h.device_name@, name@);
    let mut i: usize = 0;
    proof {
        search::lemma_first_done(handles@, p);
    }
    while i < handles.len()
        invariant
            i <= handles.len(),
            p == (|h: MonitorHandleInfo| text::same_ignoring_case(h.device_name@, name@)),
            search::first(handles@.take(i as int), p) is None,
        decreases handles.len() - i,
    {
        proof {
            search::lemma_first_step(handles@, p, i as int);
        }
        if text::equal_ignoring_case(&handles[i].device_name, name) {
            return Some(i);
        }
        i += 1;
    }
    proof {
        search::lemma_first_done(handles@, p);
    }
    None
}

fn monitor_of_record(record: &DeviceRecord, handles: &Vec<MonitorHandleInfo>, place: i32) -> (r:
    DisplayMonitor)
    requires
        place >= 0,
    ensures
        enumerated(r, *record, handles@, place as nat),
{
    let attached = record.state_flags & ATTACHED_FLAG != 0;
    let mirroring = record.state_flags & MIRRORING_FLAG != 0;
    let primary = record.state_flags & PRIMARY_FLAG != 0;
    let adapter_name = wide::wide_array_to_string(&record.adapter.name);
    let adapter_description = wide::wide_array_to_string(&record.adapter.description);
    let adapter_id = wide::wide_array_to_string(&record.adapter.id);
    let (monitor_name, monitor_description, monitor_id) = match &record.monitor {
        Some(names) => (
            nonempty_text(&names.name),
            nonempty_text(&names.description),
            nonempty_text(&names.id),
        ),
        None => (None, None, None),
    };
    let mut combined = adapter_name.clone();
    combined.push(' ');
    combined.push_str(&adapter_description);
    combined.push(' ');
    combined.push_str(&adapter_id);
    combined.push(' ');
    text::push_optional(&mut combined, &monitor_name);
    combined.push(' ');
    text::push_optional(&mut combined, &monitor_description);
    combined.push(' ');
    text::push_optional(&mut combined, &monitor_id);
    assert(combined@ == combined_text(*record));
    let bundled_virtual_display = monitors::looks_like_bundled_virtual_display(&combined);
    let virtual_candidate = monitors::looks_like_virtual_display(&combined);
    let handle = find_handle(&adapter_name, handles);
    let capture_index = if attached && !mirroring {
        match handle {
            Some(i) => Some(handles[i].monitor_index),
            None => Some(place),
        }
    } else {
        None
    };
    let monitor_handle = match handle {
        Some(i) => Some(handles[i].handle),
        None => None,
    };
    DisplayMonitor {
        capture_index,
        monitor_handle,
        adapter_name,
        adapter_description,
        monitor_name,
        monitor_description,
        device_id: match monitor_id {
            Some(id) => id,
            None => adapter_id,
        },
        attached,
        primary,
        mirroring,
        virtual_candidate,
        bundled_virtual_display,
    }
}

/// The display devices, in the order in which Windows enumerates their adapters.
pub fn enumerate_monitors(records: &Vec<DeviceRecord>, handles: &Vec<MonitorHandleInfo>) -> (r: Vec<
    DisplayMonitor,
>)
    requires
        records@.len() <= i32::MAX,
    ensures
        r@.len() == records@.len(),
        forall|i: int|
            0 <= i < r@.len() ==> enumerated(
                #[trigger] r@[i],
                records@[i],
                handles@,
                place_of(records@, i),
            ),
{
    let ghost p = |r: DeviceRecord| is_capturable(r);
    let mut out: Vec<DisplayMonitor> = Vec::new();
    let mut place: i32 = 0;
    let mut i: usize = 0;
    proof {
        search::lemma_kept_done(records@, p);
    }
    while i < records.len()
        invariant
            i <= records.len() <= i32::MAX,
            p == (|r: DeviceRecord| is_capturable(r)),
            0 <= place <= i,
            place == search::kept(records@.take(i as int), p).len(),
            out@.len() == i,
            forall|k: int|
                0 <= k < i ==> enumerated(
                    #[trigger] out@[k],
                    records@[k],
                    handles@,
                    place_of(records@, k),
                ),
        decreases records.len() - i,
    {
        proof {
            search::lemma_kept_step(records@, p, i as int);
        }
        let monitor = monitor_of_record(&records[i], handles, place);
        if monitor.attached && !monitor.mirroring {
            place += 1;
        }
        out.push(monitor);
        i += 1;
    }
    out
}

/// What must be done next so that a bundled virtual display can be captured.
#[derive(Clone, Copy, Debug, PartialEq, Eq, Structural)]
pub enum ReadyAction {
    /// Have the bundled driver installed.
    Install,
    /// Look at the displays again at once.
    Look,
    /// Look at the displays again after a short while.
    Sleep,
    /// Ask the shell to extend the desktop.
    Extend,
    /// Attach the detached endpoints to the desktop.
    Attach,
    Ready,
    NotReady,
}

/// How far the way to a capturable bundled display has come. A deadline is set when its stage is
/// first looked at.
#[derive(Clone, Copy, Debug, PartialEq, Eq, Structural)]
pub enum ReadyStage {
    Starting,
    Appearing { deadline_ms: Option<u64> },
    Extending { deadline_ms: Option<u64> },
    AttachRequested,
    Attaching { deadline_ms: u64 },
    Over,
}

/// What one look at the displays shows.
#[derive(Clone, Copy, Debug, PartialEq, Eq, Structural)]
pub struct DisplayLook {
    /// A bundled virtual display can be captured.
    pub capturable: bool,
    /// The bundled driver has an endpoint.
    pub present: bool,
    /// Windows accepted the last request to attach endpoints.
    pub attach_accepted: bool,
}

pub open spec fn deadline_or(deadline_ms: Option<u64>, now_ms: int, timeout_ms: u64) -> u64 {
    match deadline_ms {
        Some(deadline_ms) => deadline_ms,
        None => (now_ms + timeout_ms) as u64,
    }
}

/// The way from one look at the displays to the next.
///
/// `DisplaySwitch.exe /extend` only re-extends the topology the shell already knows about, so an
/// endpoint Windows left detached stays detached no matter how often it runs. Attaching the device
/// directly is the only way back for that state, and comes last.
pub open spec fn ready_step(stage: ReadyStage, now_ms: int, look: DisplayLook) -> (
    ReadyStage,
    ReadyAction,
) {
    match stage {
        ReadyStage::Starting => if look.capturable {
            (ReadyStage::Over, ReadyAction::Ready)
        } else if look.present {
            (ReadyStage::Appearing { deadline_ms: None }, ReadyAction::Look)
        } else {
            (ReadyStage::Appearing { deadline_ms: None }, ReadyAction::Install)
        },
        ReadyStage::Appearing { deadline_ms } => {
            let deadline = deadline_or(deadline_ms, now_ms, APPEAR_TIMEOUT_MS);
            if now_ms >= deadline {
                (ReadyStage::Over, ReadyAction::NotReady)
            } else if !look.present {
                (ReadyStage::Appearing { deadline_ms: Some(deadline) }, ReadyAction::Sleep)
            } else if look.capturable {
                (ReadyStage::Over, ReadyAction::Ready)
            } else {
                (ReadyStage::Extending { deadline_ms: None }, ReadyAction::Extend)
            }
        },
        ReadyStage::Extending { deadline_ms } => {
            let deadline = deadline_or(deadline_ms, now_ms, CAPTURE_TIMEOUT_MS);
            if now_ms >= deadline {
                (ReadyStage::AttachRequested, ReadyAction::Attach)
            } else if look.capturable {
                (ReadyStage::Over, ReadyAction::Ready)
            } else {
                (ReadyStage::Extending { deadline_ms: Some(deadline) }, ReadyAction::Sleep)
            }
        },
        ReadyStage::AttachRequested => if !look.attach_accepted {
            (ReadyStage::Over, ReadyAction::NotReady)
        } else if look.capturable {
            (ReadyStage::Over, ReadyAction::Ready)
        } else {
            (
                ReadyStage::Attaching { deadline_ms: (now_ms + CAPTURE_TIMEOUT_MS) as u64 },
                ReadyAction::Sleep,
            )
        },
        ReadyStage::Attaching { deadline_ms } => if now_ms >= deadline_ms {
            (ReadyStage::Over, ReadyAction::NotReady)
        } else if look.capturable {
            (ReadyStage::Over, ReadyAction::Ready)
        } else {
            (stage, ReadyAction::Sleep)
        },
        ReadyStage::Over => (
            stage,
            if look.capturable {
                ReadyAction::Ready
            } else {
                ReadyAction::NotReady
            },
        ),
    }
}

/// What one look at the displays shows, of the displays themselves.
pub open spec fn look_at(monitors: Seq<DisplayMonitor>, attach_accepted: bool) -> DisplayLook {
    DisplayLook {
        capturable: monitors::capture_targets(monitors).len() > 0,
        present: monitors::bundled_count(monitors) > 0,
        attach_accepted,
    }
}

impl ReadyStage {
    /// Takes a look at the displays and decides what to do.
    pub fn step(
        &mut self,
        now_ms: u64,
        monitors: &Vec<DisplayMonitor>,
        attach_accepted: bool,
    ) -> (r: ReadyAction)
        requires
            now_ms + APPEAR_TIMEOUT_MS <= u64::MAX,
        ensures
            (*final(self), r) == ready_step(
                *old(self),
                now_ms as int,
                look_at(monitors@, attach_accepted),
            ),
    {
        let capturable = monitors::bundled_virtual_capture_targets(monitors).len() > 0;
        let present = monitors::bundled_endpoint_count(monitors) > 0;
        match *self {
            ReadyStage::Starting => {
                if capturable {
                    *self = ReadyStage::Over;
                    return ReadyAction::Ready;
                }
                *self = ReadyStage::Appearing { deadline_ms: None };
                if present {
                    ReadyAction::Look
                } else {
                    ReadyAction::Install
                }
            },
            ReadyStage::Appearing { deadline_ms } => {
                let deadline: u64 = match deadline_ms {
                    Some(deadline) => deadline,
                    None => now_ms + APPEAR_TIMEOUT_MS,
                };
                if now_ms >= deadline {
                    *self = ReadyStage::Over;
                    ReadyAction::NotReady
                } else if !present {
                    *self = ReadyStage::Appearing { deadline_ms: Some(deadline) };
                    ReadyAction::Sleep
                } else if capturable {
                    *self = ReadyStage::Over;
                    ReadyAction::Ready
                } else {
                    *self = ReadyStage::Extending { deadline_ms: None };
                    ReadyAction::Extend
                }
            },
            ReadyStage::Extending { deadline_ms } => {
                let deadline: u64 = match deadline_ms {
                    Some(deadline) => deadline,
                    None => now_ms + CAPTURE_TIMEOUT_MS,
                };
                if now_ms >= deadline {
                    *self = ReadyStage::AttachRequested;
                    ReadyAction::Attach
                } else if capturable {
                    *self = ReadyStage::Over;
                    ReadyAction::Ready
                } else {
                    *self = ReadyStage::Extending { deadline_ms: Some(deadline) };
                    ReadyAction::Sleep
                }
            },
            ReadyStage::AttachRequested => {
                if !attach_accepted {
                    *self = ReadyStage::Over;
                    ReadyAction::NotReady
                } else if capturable {
                    *self = ReadyStage::Over;
                    ReadyAction::Ready
                } else {
                    *self = ReadyStage::Attaching { deadline_ms: now_ms + CAPTURE_TIMEOUT_MS };
                    ReadyAction::Sleep
                }
            },
            ReadyStage::Attaching { deadline_ms } => {
                if now_ms >= deadline_ms {
                    *self = ReadyStage::Over;
                    ReadyAction::NotReady
                } else if capturable {
                    *self = ReadyStage::Over;
                    ReadyAction::Ready
                } else {
                    ReadyAction::Sleep
                }
            },
            ReadyStage::Over => if capturable {
                ReadyAction::Ready
            } else {
                ReadyAction::NotReady
            },
        }
    }
}

/// The order of the stages.
pub open spec fn stage_rank(stage: ReadyStage) -> int {
    match stage {
        ReadyStage::Starting => 0,
        ReadyStage::Appearing { deadline_ms } => if deadline_ms is None {
            1
        } else {
            2
        },
        ReadyStage::Extending { deadline_ms } => if deadline_ms is None {
            3
        } else {
            4
        },
        ReadyStage::AttachRequested => 5,
        ReadyStage::Attaching { deadline_ms } => 6,
        ReadyStage::Over => 7,
    }
}

/// The displays are reported as ready only when a look showed a capturable one, and only then or at
/// the end does the work stop. The stages never go back, and every action but waiting moves
/// on to a later one: the driver is installed, the desktop extended and the endpoints attached at
/// most once each, in that order.
pub proof fn law_ready_steps_advance(stage: ReadyStage, now_ms: int, look: DisplayLook)
    ensures
        ({
            let (next, action) = ready_step(stage, now_ms, look);
            &&& action == ReadyAction::Ready ==> look.capturable
            &&& stage_rank(stage) <= stage_rank(next)
            &&& action != ReadyAction::Sleep && stage != ReadyStage::Over ==> stage_rank(stage)
                < stage_rank(next)
            &&& action == ReadyAction::Install ==> stage == ReadyStage::Starting && !look.present
            &&& action == ReadyAction::Extend ==> stage is Appearing
            &&& action == ReadyAction::Attach ==> stage is Extending
            &&& action == ReadyAction::Ready || action == ReadyAction::NotReady ==> next
                == ReadyStage::Over
        }),
{
}

/// How far the desktop-attach recovery has escalated for one endpoint set.
#[derive(Clone, Copy, Debug, PartialEq, Eq, Structural)]
pub enum EndpointRecovery {
    Pending,
    Extended,
    Attached,
}

/// What a change of the endpoint count needs next.
#[derive(Clone, Copy, Debug, PartialEq, Eq, Structural)]
pub enum CountAction {
    /// Look at the displays again after a short while.
    Sleep,
    Extend,
    Attach,
    Done,
}

/// How many bundled displays a number of receivers is given: one each, within what the driver can
/// do.
pub open spec fn display_count(receivers: int) -> int {
    if receivers < 1 {
        1
    } else if receivers > MAX_BUNDLED_VIRTUAL_DISPLAYS {
        MAX_BUNDLED_VIRTUAL_DISPLAYS as int
    } else {
        receivers
    }
}

/// Clamps a number of receivers to what the bundled driver can do.
pub fn clamp_display_count(receivers: usize) -> (r: usize)
    ensures
        r == display_count(receivers as int),
{
    if receivers < 1 {
        1
    } else if receivers > MAX_BUNDLED_VIRTUAL_DISPLAYS {
        MAX_BUNDLED_VIRTUAL_DISPLAYS
    } else {
        receivers
    }
}

/// The wait for the bundled driver to show one capturable display per receiver after it was told
/// how many to have.
///
/// The driver restart tears the monitors down and brings them back. The exact count is required
/// twice in succession so a stale enumeration from before the restart cannot start a sender
/// against monitor handles that are about to disappear. The new endpoints may initially be
/// detached, so they are extended once the exact endpoint set is visible, and attached directly
/// when the shell declines.
#[derive(Clone, Copy, Debug, PartialEq, Eq, Structural)]
pub struct CountWait {
    pub count: usize,
    pub deadline_ms: u64,
    pub stable_samples: u8,
    pub recovery: EndpointRecovery,
}

impl CountWait {
    /// Starts waiting for a number of displays.
    pub fn new(count: usize, now_ms: u64) -> (r: Self)
        requires
            now_ms + COUNT_TIMEOUT_MS <= u64::MAX,
        ensures
            r.count == count,
            r.deadline_ms == now_ms + COUNT_TIMEOUT_MS,
            r.stable_samples == 0,
            r.recovery == EndpointRecovery::Pending,
    {
        CountWait {
            count,
            deadline_ms: now_ms + COUNT_TIMEOUT_MS,
            stable_samples: 0,
            recovery: EndpointRecovery::Pending,
        }
    }

    /// Whether it is worth looking once more.
    pub fn still_waiting(&self, now_ms: u64) -> (r: bool)
        ensures
            r == (now_ms < self.deadline_ms),
    {
        now_ms < self.deadline_ms
    }

    /// The way from one sample to the next.
    pub open spec fn after_sample(self, targets: nat, endpoints: nat) -> (CountWait, CountAction) {
        if targets == self.count {
            (
                CountWait { stable_samples: (self.stable_samples + 1) as u8, ..self },
                if self.stable_samples + 1 >= 2 {
                    CountAction::Done
                } else {
                    CountAction::Sleep
                },
            )
        } else if endpoints != self.count {
            (
                CountWait {
                    stable_samples: 0,
                    recovery: EndpointRecovery::Pending,
                    ..self
                },
                CountAction::Sleep,
            )
        } else {
            match self.recovery {
                EndpointRecovery::Pending => (
                    CountWait {
                        stable_samples: 0,
                        recovery: EndpointRecovery::Extended,
                        ..self
                    },
                    CountAction::Extend,
                ),
                EndpointRecovery::Extended => (
                    CountWait {
                        stable_samples: 0,
                        recovery: EndpointRecovery::Attached,
                        ..self
                    },
                    CountAction::Attach,
                ),
                EndpointRecovery::Attached => (
                    CountWait { stable_samples: 0, ..self },
                    CountAction::Sleep,
                ),
            }
        }
    }

    /// Takes a look at the displays and decides what to do.
    pub fn sample(&mut self, monitors: &Vec<DisplayMonitor>) -> (r: CountAction)
        requires
            old(self).stable_samples < u8::MAX,
        ensures
            (*final(self), r) == old(self).after_sample(
                monitors::capture_targets(monitors@).len(),
                monitors::bundled_count(monitors@),
            ),
    {
        let targets = monitors::bundled_virtual_capture_targets(monitors).len();
        if targets == self.count {
            self.stable_samples = self.stable_samples + 1;
            return if self.stable_samples >= 2 {
                CountAction::Done
            } else {
                CountAction::Sleep
            };
        }
        self.stable_samples = 0;
        if monitors::bundled_endpoint_count(monitors) != self.count {
            self.recovery = EndpointRecovery::Pending;
            return CountAction::Sleep;
        }
        match self.recovery {
            EndpointRecovery::Pending => {
                self.recovery = EndpointRecovery::Extended;
                CountAction::Extend
            },
            EndpointRecovery::Extended => {
                self.recovery = EndpointRecovery::Attached;
                CountAction::Attach
            },
            EndpointRecovery::Attached => CountAction::Sleep,
        }
    }
}

/// A change of the count is done only when two looks in a row showed exactly the wanted number of
/// capturable displays.
pub proof fn law_count_is_done_after_two_exact_samples(
    start: CountWait,
    targets1: nat,
    endpoints1: nat,
    targets2: nat,
    endpoints2: nat,
)
    requires
        start.stable_samples == 0,
    ensures
        ({
            let (middle, first) = start.after_sample(targets1, endpoints1);
            let (end, second) = middle.after_sample(targets2, endpoints2);
            &&& first != CountAction::Done
            &&& second == CountAction::Done <==> targets1 == start.count && targets2 == start.count
            &&& second != CountAction::Done ==> end.stable_samples <= 1
            &&& end.stable_samples == 1 ==> targets2 == start.count
        }),
{
}

/// The detached endpoints of the bundled driver, in enumeration order.
pub fn detached_bundled_displays(monitors: &Vec<DisplayMonitor>) -> (r: Vec<DisplayMonitor>)
    ensures
        r@ == search::kept(
            monitors@,
            |m: DisplayMonitor| m.bundled_virtual_display && !m.attached,
        ),
{
    let ghost p = |m: DisplayMonitor| m.bundled_virtual_display && !m.attached;
    let mut out: Vec<DisplayMonitor> = Vec::new();
    let mut i: usize = 0;
    proof {
        search::lemma_kept_done(monitors@, p);
    }
    while i < monitors.len()
        invariant
            i <= monitors.len(),
            p == (|m: DisplayMonitor| m.bundled_virtual_display && !m.attached),
            out@ == search::kept(monitors@.take(i as int), p),
        decreases monitors.len() - i,
    {
        proof {
            search::lemma_kept_step(monitors@, p, i as int);
        }
        if monitors[i].bundled_virtual_display && !monitors[i].attached {
            out.push(monitors[i].clone());
        }
        i += 1;
    }
    proof {
        search::lemma_kept_done(monitors@, p);
    }
    out
}

/// Where the next endpoint is attached, and whether Windows accepted one yet.
#[derive(Clone, Copy, Debug, PartialEq, Eq, Structural)]
pub struct AttachProgress {
    pub next_x: i32,
    pub attached_any: bool,
}

impl AttachProgress {
    /// Starts beside the desktop.
    pub fn new(right_edge: i32) -> (r: Self)
        ensures
            r.next_x == right_edge,
            !r.attached_any,
    {
        AttachProgress { next_x: right_edge, attached_any: false }
    }

    /// Takes Windows' answer for one endpoint: the width it was given, or a refusal.
    pub fn record(&mut self, width: Option<u32>)
        requires
            width is Some ==> old(self).next_x + width->0 <= i32::MAX,
        ensures
            *final(self) == match width {
                Some(width) => AttachProgress {
                    next_x: (old(self).next_x + width) as i32,
                    attached_any: true,
                },
                None => *old(self),
            },
    {
        if let Some(width) = width {
            self.next_x = (self.next_x as i64 + width as i64) as i32;
            self.attached_any = true;
        }
    }

    /// Whether the endpoints are on the desktop: Windows accepted one, and the change was
    /// committed.
    pub fn finish(self, committed: bool) -> (r: bool)
        ensures
            r == (self.attached_any && committed),
    {
        self.attached_any && committed
    }
}

/// The right edges of the displays that make up the desktop.
pub open spec fn right_edges(
    monitors: Seq<DisplayMonitor>,
    placements: Seq<Option<(i32, u32)>>,
) -> Seq<int>
    decreases monitors.len(),
{
    if monitors.len() == 0 {
        Seq::empty()
    } else {
        let before = right_edges(monitors.drop_last(), placements);
        let i = monitors.len() - 1;
        match placements[i] {
            Some((x, width)) => if monitors[i].attached && !monitors[i].mirroring && width != 0 {
                before.push(x + width)
            } else {
                before
            },
            None => before,
        }
    }
}

/// The largest number, or zero where there is none.
pub open spec fn largest(s: Seq<int>) -> int
    decreases s.len(),
{
    if s.len() == 0 {
        0
    } else if s.len() == 1 {
        s[0]
    } else if largest(s.drop_last()) < s.last() {
        s.last()
    } else {
        largest(s.drop_last())
    }
}

/// Right edge of the current desktop, so a newly attached display lands beside it instead of on
/// top of an existing monitor. For each monitor its position and width are given, as far as they
/// could be read.
pub fn desktop_right_edge(
    monitors: &Vec<DisplayMonitor>,
    placements: &Vec<Option<(i32, u32)>>,
) -> (r: i32)
    requires
        monitors@.len() == placements@.len(),
        forall|i: int|
            0 <= i < placements@.len() && monitors@[i].attached && !monitors@[i].mirroring ==> ((
            #[trigger] placements@[i]) matches Some((x, width)) ==> x + width <= i32::MAX),
    ensures
        r == largest(right_edges(monitors@, placements@)),
{
    let mut edge: Option<i32> = None;
    let mut i: usize = 0;
    assert(monitors@.take(0) == Seq::<DisplayMonitor>::empty());
    while i < monitors.len()
        invariant
            i <= monitors.len(),
            monitors@.len() == placements@.len(),
            forall|k: int|
                0 <= k < placements@.len() && monitors@[k].attached && !monitors@[k].mirroring ==> ((
                #[trigger] placements@[k]) matches Some((x, width)) ==> x + width <= i32::MAX),
            match edge {
                Some(edge) => right_edges(monitors@.take(i as int), placements@).len() > 0 && edge
                    == largest(right_edges(monitors@.take(i as int), placements@)),
                None => right_edges(monitors@.take(i as int), placements@).len() == 0,
            },
        decreases monitors.len() - i,
    {
        let ghost before = right_edges(monitors@.take(i as int), placements@);
        let ghost after = right_edges(monitors@.take(i + 1), placements@);
        assert(monitors@.take(i + 1).drop_last() == monitors@.take(i as int));
        if let Some((x, width)) = placements[i] {
            if monitors[i].attached && !monitors[i].mirroring && width != 0 {
                let right: i32 = (x as i64 + width as i64) as i32;
                assert(after == before.push(right as int));
                assert(after.drop_last() == before);
                edge =
                match edge {
                    Some(known) => if known < right {
                        Some(right)
                    } else {
                        Some(known)
                    },
                    None => Some(right),
                };
            }
        }
        i += 1;
    }
    assert(monitors@.take(monitors@.len() as int) == monitors@);
    match edge {
        Some(edge) => edge,
        None => 0,
    }
}

/// The mode that a display is attached with when nothing better is known.
pub open spec fn default_mode() -> (u32, u32) {
    (1920, 1080)
}

/// Whether a mode is large enough for a desktop.
pub open spec fn usable_mode(size: (u32, u32)) -> bool {
    size.0 >= 640 && size.1 >= 480
}

pub open spec fn area(size: (u32, u32)) -> int {
    size.0 as int * size.1 as int
}

/// The first of the largest usable modes.
pub open spec fn largest_mode(modes: Seq<(u32, u32)>) -> Option<(u32, u32)>
    decreases modes.len(),
{
    if modes.len() == 0 {
        None
    } else {
        let best = largest_mode(modes.drop_last());
        if usable_mode(modes.last()) && (best is None || area(modes.last()) > area(best->0)) {
            Some(modes.last())
        } else {
            best
        }
    }
}

/// The mode to attach a display with.
pub open spec fn attach_mode(registry: Option<(u32, u32)>, modes: Seq<(u32, u32)>) -> (u32, u32) {
    if registry is Some && usable_mode(registry->0) {
        registry->0
    } else if modes.contains(default_mode()) {
        default_mode()
    } else {
        match largest_mode(modes) {
            Some(mode) => mode,
            None => default_mode(),
        }
    }
}

/// A detached endpoint has no current mode, so pick one the driver actually advertises: the one
/// it last had, full HD, or else the largest.
pub fn attach_mode_for(registry: Option<(u32, u32)>, modes: &Vec<(u32, u32)>) -> (r: (u32, u32))
    ensures
        r == attach_mode(registry, modes@),
{
    if let Some(size) = registry {
        if size.0 >= 640 && size.1 >= 480 {
            return size;
        }
    }
    let mut best: Option<(u32, u32)> = None;
    let mut i: usize = 0;
    assert(modes@.take(0) == Seq::<(u32, u32)>::empty());
    while i < modes.len()
        invariant
            i <= modes.len(),
            registry is Some ==> !usable_mode(registry->0),
            best == largest_mode(modes@.take(i as int)),
            forall|k: int| 0 <= k < i ==> modes@[k] != default_mode(),
        decreases modes.len() - i,
    {
        assert(modes@.take(i + 1).drop_last() == modes@.take(i as int));
        let size = modes[i];
        if size.0 == 1920 && size.1 == 1080 {
            assert(modes@[i as int] == default_mode());
            return (1920, 1080);
        }
        if size.0 >= 640 && size.1 >= 480 {
            let larger = match best {
                Some(known) => mode_area(size) > mode_area(known),
                None => true,
            };
            if larger {
                best = Some(size);
            }
        }
        i += 1;
    }
    assert(modes@.take(modes@.len() as int) == modes@);
    match best {
        Some(mode) => mode,
        None => (1920, 1080),
    }
}

fn mode_area(size: (u32, u32)) -> (r: u64)
    ensures
        r == area(size),
{
    assert(size.0 as int * size.1 as int <= u64::MAX) by (nonlinear_arith)
        requires
            0 <= size.0 <= u32::MAX,
            0 <= size.1 <= u32::MAX,
    ;
    size.0 as u64 * size.1 as u64
}

/// What Windows says of a device stands in single bits: the first for one on the desktop, the third
/// for the primary one and the fourth for a mirroring driver.
pub proof fn law_device_flags_are_single_bits(
    monitor: DisplayMonitor,
    record: DeviceRecord,
    handles: Seq<MonitorHandleInfo>,
    place: nat,
)
    requires
        enumerated(monitor, record, handles, place),
    ensures
        monitor.attached <==> record.state_flags % 2 == 1,
        monitor.primary <==> record.state_flags / 4 % 2 == 1,
        monitor.mirroring <==> record.state_flags / 8 % 2 == 1,
        monitor.capture_index is Some <==> monitor.attached && !monitor.mirroring,
{
    let flags = record.state_flags;
    assert((flags & 0x1 != 0) == (flags % 2 == 1)) by (bit_vector);
    assert((flags & 0x4 != 0) == (flags / 4 % 2 == 1)) by (bit_vector);
    assert((flags & 0x8 != 0) == (flags / 8 % 2 == 1)) by (bit_vector);
}

/// Waiting for a display has an end: fifteen seconds for it to appear, ten for it to become
/// capturable by extending the desktop and ten more by attaching it. A capturable display ends any
/// wait in time.
pub proof fn law_waits_for_a_display_end(stage: ReadyStage, now_ms: int, look: DisplayLook)
    requires
        0 <= now_ms <= u64::MAX - 15_000,
        look.present || !look.capturable,
        look.attach_accepted,
    ensures
        ({
            let (next, action) = ready_step(stage, now_ms, look);
            let late = match stage {
                ReadyStage::Appearing { deadline_ms: Some(deadline) } => now_ms >= deadline,
                ReadyStage::Extending { deadline_ms: Some(deadline) } => now_ms >= deadline,
                ReadyStage::Attaching { deadline_ms } => now_ms >= deadline_ms,
                _ => false,
            };
            &&& look.capturable && !late ==> action == ReadyAction::Ready
            &&& late ==> action == if stage is Extending {
                ReadyAction::Attach
            } else {
                ReadyAction::NotReady
            }
            &&& stage == (ReadyStage::Appearing { deadline_ms: None }) && !look.present ==> next == (
            ReadyStage::Appearing { deadline_ms: Some((now_ms + 15_000) as u64) })
            &&& stage == (ReadyStage::Extending { deadline_ms: None }) && !look.capturable ==> next
                == (ReadyStage::Extending { deadline_ms: Some((now_ms + 10_000) as u64) })
            &&& stage == ReadyStage::AttachRequested && !look.capturable ==> next == (
            ReadyStage::Attaching { deadline_ms: (now_ms + 10_000) as u64 })
            &&& look.present && !look.capturable && stage is Appearing && !late ==> action
                == ReadyAction::Extend
            &&& stage == ReadyStage::Starting && !look.present ==> action == ReadyAction::Install
        }),
{
}

/// Every receiver gets a display of its own, as far as the driver has them, and there is always one.
pub proof fn law_every_receiver_gets_a_display(receivers: int)
    ensures
        1 <= display_count(receivers) <= 8,
        1 <= receivers <= 8 ==> display_count(receivers) == receivers,
        receivers > 8 ==> display_count(receivers) == 8,
{
}

/// While all endpoints are there but not all can be captured, the desktop is extended once, then
/// they are attached once, and from there on it is waited. Where endpoints are missing it starts
/// over.
pub proof fn law_endpoints_are_recovered_in_order(wait: CountWait, targets: nat, endpoints: nat)
    requires
        targets != wait.count,
    ensures
        ({
            let (next, action) = wait.after_sample(targets, endpoints);
            &&& next.stable_samples == 0 && next.count == wait.count
            &&& endpoints != wait.count ==> action == CountAction::Sleep && next.recovery
                == EndpointRecovery::Pending
            &&& endpoints == wait.count && wait.recovery == EndpointRecovery::Pending ==> action
                == CountAction::Extend && next.recovery == EndpointRecovery::Extended
            &&& endpoints == wait.count && wait.recovery == EndpointRecovery::Extended ==> action
                == CountAction::Attach && next.recovery == EndpointRecovery::Attached
            &&& endpoints == wait.count && wait.recovery == EndpointRecovery::Attached ==> action
                == CountAction::Sleep && next.recovery == EndpointRecovery::Attached
        }),
{
}

/// The right edge of the desktop lies at or beyond the right edge of every display on it that has a
/// place, and is the edge of one of them wherever there is one.
pub proof fn law_right_edge_bounds_the_desktop(
    monitors: Seq<DisplayMonitor>,
    placements: Seq<Option<(i32, u32)>>,
    i: int,
)
    requires
        0 <= i < monitors.len(),
        monitors.len() == placements.len(),
        monitors[i].attached,
        !monitors[i].mirroring,
        placements[i] is Some,
        (placements[i]->0).1 != 0,
    ensures
        (placements[i]->0).0 + (placements[i]->0).1 <= largest(right_edges(monitors, placements)),
        exists|k: int|
            0 <= k < monitors.len() && (#[trigger] monitors[k]).attached && !monitors[k].mirroring
                && placements[k] is Some && (placements[k]->0).1 != 0 && (placements[k]->0).0 + (
            placements[k]->0).1 == largest(right_edges(monitors, placements)),
{
    lemma_right_edges(monitors, placements);
    let edges = right_edges(monitors, placements);
    let edge = (placements[i]->0).0 + (placements[i]->0).1;
    let n = choose|n: int| 0 <= n < edges.len() && #[trigger] edges[n] == edge;
    lemma_largest(edges, n);
    let m = choose|m: int| 0 <= m < edges.len() && #[trigger] edges[m] == largest(edges);
    let k = choose|k: int|
        0 <= k < monitors.len() && (#[trigger] monitors[k]).attached && !monitors[k].mirroring
            && placements[k] is Some && (placements[k]->0).1 != 0 && (placements[k]->0).0 + (
        placements[k]->0).1 == edges[m];
    assert(monitors[k].attached);
}

proof fn lemma_right_edges(monitors: Seq<DisplayMonitor>, placements: Seq<Option<(i32, u32)>>)
    requires
        monitors.len() <= placements.len(),
    ensures
        forall|i: int|
            0 <= i < monitors.len() && (#[trigger] monitors[i]).attached && !monitors[i].mirroring
                && placements[i] is Some && (placements[i]->0).1 != 0 ==> exists|n: int|
                0 <= n < right_edges(monitors, placements).len() && #[trigger] right_edges(
                    monitors,
                    placements,
                )[n] == (placements[i]->0).0 + (placements[i]->0).1,
        forall|n: int|
            0 <= n < right_edges(monitors, placements).len() ==> exists|k: int|
                0 <= k < monitors.len() && (#[trigger] monitors[k]).attached
                    && !monitors[k].mirroring && placements[k] is Some && (placements[k]->0).1 != 0
                    && (placements[k]->0).0 + (placements[k]->0).1 == #[trigger] right_edges(
                    monitors,
                    placements,
                )[n],
    decreases monitors.len(),
{
    if monitors.len() > 0 {
        let rest = monitors.drop_last();
        let before = right_edges(rest, placements);
        let all = right_edges(monitors, placements);
        let last = monitors.len() - 1;
        lemma_right_edges(rest, placements);
        assert forall|i: int|
            0 <= i < monitors.len() && (#[trigger] monitors[i]).attached && !monitors[i].mirroring
                && placements[i] is Some && (placements[i]->0).1 != 0 implies exists|n: int|
            0 <= n < all.len() && #[trigger] all[n] == (placements[i]->0).0 + (placements[i]->0).1 by {
            if i < last {
                assert(rest[i] == monitors[i]);
                let n = choose|n: int|
                    0 <= n < before.len() && #[trigger] before[n] == (placements[i]->0).0 + (
                    placements[i]->0).1;
                assert(all[n] == before[n]);
            } else {
                assert(all[before.len() as int] == (placements[i]->0).0 + (placements[i]->0).1);
            }
        }
        assert forall|n: int| 0 <= n < all.len() implies exists|k: int|
            0 <= k < monitors.len() && (#[trigger] monitors[k]).attached && !monitors[k].mirroring
                && placements[k] is Some && (placements[k]->0).1 != 0 && (placements[k]->0).0 + (
            placements[k]->0).1 == #[trigger] all[n] by {
            if n < before.len() {
                let k = choose|k: int|
                    0 <= k < rest.len() && (#[trigger] rest[k]).attached && !rest[k].mirroring
                        && placements[k] is Some && (placements[k]->0).1 != 0
                        && (placements[k]->0).0 + (placements[k]->0).1 == before[n];
                assert(monitors[k] == rest[k]);
            } else {
                assert(monitors[last].attached);
            }
        }
    }
}

proof fn lemma_largest(s: Seq<int>, n: int)
    requires
        0 <= n < s.len(),
    ensures
        s[n] <= largest(s),
        exists|m: int| 0 <= m < s.len() && #[trigger] s[m] == largest(s),
    decreases s.len(),
{
    let rest = s.drop_last();
    if s.len() == 1 {
        assert(s[0] == largest(s));
    } else {
        lemma_largest(
            rest,
            if n < rest.len() {
                n
            } else {
                0
            },
        );
        if largest(rest) < s.last() {
            assert(s[s.len() - 1] == largest(s));
        } else {
            let m = choose|m: int| 0 <= m < rest.len() && #[trigger] rest[m] == largest(rest);
            assert(s[m] == largest(s));
        }
    }
}

/// A display is attached with the mode that Windows remembers where that is usable, else with Full
/// HD where it has that mode, else with a usable mode that none it has is larger than.
pub proof fn law_attach_mode_is_the_best_known(
    registry: Option<(u32, u32)>,
    modes: Seq<(u32, u32)>,
    i: int,
)
    requires
        0 <= i < modes.len(),
    ensures
        ({
            let mode = attach_mode(registry, modes);
            let remembered = registry is Some && (registry->0).0 >= 640 && (registry->0).1 >= 480;
            let full_hd = (1920u32, 1080u32);
            &&& mode.0 >= 640 && mode.1 >= 480
            &&& remembered ==> mode == registry->0
            &&& !remembered && modes.contains(full_hd) ==> mode == full_hd
            &&& !remembered && !modes.contains(full_hd) && modes[i].0 >= 640 && modes[i].1 >= 480
                ==> modes.contains(mode) && modes[i].0 as int * modes[i].1 as int <= mode.0 as int
                * mode.1 as int
            &&& mode == registry->0 && registry is Some || mode == full_hd || modes.contains(mode)
        }),
{
    lemma_largest_mode(modes, i);
}

proof fn lemma_largest_mode(modes: Seq<(u32, u32)>, i: int)
    requires
        0 <= i < modes.len(),
    ensures
        largest_mode(modes) matches Some(mode) ==> usable_mode(mode) && modes.contains(mode),
        usable_mode(modes[i]) ==> (largest_mode(modes) matches Some(mode) && area(modes[i])
            <= area(mode)),
    decreases modes.len(),
{
    let rest = modes.drop_last();
    if rest.len() > 0 {
        lemma_largest_mode(
            rest,
            if i < rest.len() {
                i
            } else {
                0
            },
        );
        if let Some(best) = largest_mode(rest) {
            let k = choose|k: int| 0 <= k < rest.len() && rest[k] == best;
            assert(modes[k] == best);
        }
    }
    assert(modes[modes.len() - 1] == modes.last());
}

/// A device that can be captured has the index that the desktop gives its monitor, told by its
/// name in whatever case, or else its place among the devices that can be; any other has none.
pub proof fn law_capture_indices_are_the_desktops(
    monitor: DisplayMonitor,
    record: DeviceRecord,
    handles: Seq<MonitorHandleInfo>,
    place: nat,
    j: int,
)
    requires
        enumerated(monitor, record, handles, place),
        0 <= j <= handles.len(),
        forall|k: int|
            0 <= k < j ==> !text::same_ignoring_case(
                (#[trigger] handles[k]).device_name@,
                monitor.adapter_name@,
            ),
    ensures
        j < handles.len() && text::same_ignoring_case(
            handles[j].device_name@,
            monitor.adapter_name@,
        ) ==> {
            &&& monitor.monitor_handle == Some(handles[j].handle)
            &&& monitor.attached && !monitor.mirroring ==> monitor.capture_index == Some(
                handles[j].monitor_index,
            )
        },
        j == handles.len() ==> {
            &&& monitor.monitor_handle is None
            &&& monitor.attached && !monitor.mirroring ==> monitor.capture_index == Some(
                place as i32,
            )
        },
        !monitor.attached || monitor.mirroring ==> monitor.capture_index is None,
{
    let p = |h: MonitorHandleInfo|
        text::same_ignoring_case(h.device_name@, buffer_text(record.adapter.name@));
    if j < handles.len() && p(handles[j]) {
        search::lemma_first_at(handles, p, j);
    }
    if j == handles.len() {
        search::lemma_first_sound(handles, p);
        if search::first(handles, p) is Some {
            let k = handles.index_of(search::first(handles, p)->0);
            assert(p(handles[k]));
        }
    }
}

/// The places of the devices that can be captured count up from zero in the order of enumeration.
pub proof fn law_places_count_up(records: Seq<DeviceRecord>, i: int)
    requires
        0 <= i < records.len(),
    ensures
        place_of(records, 0) == 0,
        place_of(records, i + 1) == place_of(records, i) + (if records[i].state_flags % 2 == 1
            && records[i].state_flags / 8 % 2 == 0 {
            1int
        } else {
            0
        }),
{
    let flags = records[i].state_flags;
    assert((flags & 0x1 != 0) == (flags % 2 == 1)) by (bit_vector);
    assert((flags & 0x8 != 0) == (flags / 8 % 2 == 1)) by (bit_vector);
    assert(records.take(i + 1).drop_last() == records.take(i));
    assert(records.take(i + 1).last() == records[i]);
    assert(records.take(0).len() == 0);
}

} // verus!
