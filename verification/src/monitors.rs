//! Windows display devices and the bundled virtual display.
use crate::discovery::DisplayInfo;
use crate::order::{self, Ranked};
use crate::reading;
use crate::search;
use crate::text;
use crate::vdd::VddAction;
use vstd::prelude::*;
#[allow(unused_imports)]
use vstd::relations::*;

verus! {

/// Upper bound the bundled driver accepts for its monitor count.
pub const MAX_BUNDLED_VIRTUAL_DISPLAYS: usize = 8;

/// How long a display mode change may take to show, in milliseconds.
pub const DISPLAY_MODE_VERIFY_TIMEOUT_MS: u64 = 2000;

/// How often a display mode change is looked for, in milliseconds.
pub const DISPLAY_MODE_VERIFY_INTERVAL_MS: u64 = 100;

/// How often a display topology is looked at again, in milliseconds.
pub const DISPLAY_POLL_INTERVAL_MS: u64 = 500;

/// `DISP_CHANGE_SUCCESSFUL`.
pub const CHANGE_SUCCESSFUL: i32 = 0;

/// `DISP_CHANGE_BADMODE`.
pub const CHANGE_BADMODE: i32 = -2;

/// `DISPLAY_DEVICE_ATTACHED_TO_DESKTOP`.
pub const ATTACHED_FLAG: u32 = 0x1;

/// `DISPLAY_DEVICE_PRIMARY_DEVICE`.
pub const PRIMARY_FLAG: u32 = 0x4;

/// `DISPLAY_DEVICE_MIRRORING_DRIVER`.
pub const MIRRORING_FLAG: u32 = 0x8;

#[derive(Debug)]
pub struct DisplayMonitor {
    pub capture_index: Option<i32>,
    pub monitor_handle: Option<u64>,
    pub adapter_name: String,
    pub adapter_description: String,
    pub monitor_name: Option<String>,
    pub monitor_description: Option<String>,
    pub device_id: String,
    pub attached: bool,
    pub primary: bool,
    pub mirroring: bool,
    pub virtual_candidate: bool,
    pub bundled_virtual_display: bool,
}

impl Clone for DisplayMonitor {
    fn clone(&self) -> (r: Self)
        ensures
            r == *self,
    {
        DisplayMonitor {
            capture_index: self.capture_index,
            monitor_handle: self.monitor_handle,
            adapter_name: self.adapter_name.clone(),
            adapter_description: self.adapter_description.clone(),
            monitor_name: self.monitor_name.clone(),
            monitor_description: self.monitor_description.clone(),
            device_id: self.device_id.clone(),
            attached: self.attached,
            primary: self.primary,
            mirroring: self.mirroring,
            virtual_candidate: self.virtual_candidate,
            bundled_virtual_display: self.bundled_virtual_display,
        }
    }
}

#[derive(Clone, Copy, Debug, PartialEq, Eq, Structural)]
pub struct DisplayMode {
    pub width: u32,
    pub height: u32,
    pub refresh_hz: Option<u32>,
}

impl DisplayMode {
    /// A mode as Windows reports it; frequencies 0 and 1 mean the hardware's default.
    pub fn from_settings(width: u32, height: u32, frequency: u32) -> (r: Self)
        ensures
            r.width == width,
            r.height == height,
            r.refresh_hz == if frequency > 1 {
                Some(frequency)
            } else {
                None
            },
    {
        DisplayMode {
            width,
            height,
            refresh_hz: if frequency > 1 {
                Some(frequency)
            } else {
                None
            },
        }
    }
}

pub open spec fn mode_matches(
    mode: DisplayMode,
    width: u32,
    height: u32,
    refresh_hz: Option<u32>,
) -> bool {
    &&& mode.width == width
    &&& mode.height == height
    &&& refresh_hz is Some ==> mode.refresh_hz == refresh_hz
}

/// Whether a mode has the wanted size and, where one is wanted, the wanted refresh rate.
pub fn display_mode_matches(
    mode: &DisplayMode,
    width: u32,
    height: u32,
    refresh_hz: Option<u32>,
) -> (r: bool)
    ensures
        r == mode_matches(*mode, width, height, refresh_hz),
{
    mode.width == width && mode.height == height && match refresh_hz {
        Some(wanted) => match mode.refresh_hz {
            Some(own) => own == wanted,
            None => false,
        },
        None => true,
    }
}

pub open spec fn names_virtual_display(value: Seq<char>) -> bool {
    let v = text::lower(value);
    ||| text::contains(v, "virtual display"@)
    ||| text::contains(v, "virtualdisplay"@)
    ||| text::contains(v, "virtual-display"@)
    ||| text::contains(v, "idd"@)
    ||| text::contains(v, "mttvdd"@)
    ||| text::contains(v, "vdd"@)
    ||| text::contains(v, "sudovda"@)
    ||| text::contains(v, "parsec"@)
    ||| text::contains(v, "superdisplay"@)
}

/// Whether a device description is that of some virtual display.
pub fn looks_like_virtual_display(value: &str) -> (r: bool)
    ensures
        r == names_virtual_display(value@),
{
    let v = text::lowered(&text::chars_of(value));
    text::has_text(&v, "virtual display") || text::has_text(&v, "virtualdisplay")
        || text::has_text(&v, "virtual-display") || text::has_text(&v, "idd") || text::has_text(
        &v,
        "mttvdd",
    ) || text::has_text(&v, "vdd") || text::has_text(&v, "sudovda") || text::has_text(
        &v,
        "parsec",
    ) || text::has_text(&v, "superdisplay")
}

pub open spec fn names_bundled_display(value: Seq<char>) -> bool {
    let v = text::lower(value);
    ||| text::contains(v, "mtt1337"@)
    ||| text::contains(v, "mttvdd"@)
    ||| text::contains(v, "vdd by mtt"@)
}

/// Whether a device description is that of the bundled virtual display.
pub fn looks_like_bundled_virtual_display(value: &str) -> (r: bool)
    ensures
        r == names_bundled_display(value@),
{
    let v = text::lowered(&text::chars_of(value));
    text::has_text(&v, "mtt1337") || text::has_text(&v, "mttvdd") || text::has_text(
        &v,
        "vdd by mtt",
    )
}

/// The text of an optional number as a log shows it.
pub open spec fn option_text(value: Option<int>) -> Seq<char> {
    match value {
        Some(n) => "Some("@ + text::dec_int(n) + seq![')'],
        None => "None"@,
    }
}

impl DisplayMonitor {
    pub open spec fn names_superdisplay(self) -> bool {
        text::contains(
            text::lower(
                self.adapter_description@ + seq![' '] + self.device_id@ + seq![' ']
                    + text::or_empty(self.monitor_description) + seq![' '] + text::or_empty(
                    self.monitor_name,
                ),
            ),
            "superdisplay"@,
        )
    }

    fn looks_like_superdisplay(&self) -> (r: bool)
        ensures
            r == self.names_superdisplay(),
    {
        let mut combined = self.adapter_description.clone();
        combined.push(' ');
        combined.push_str(&self.device_id);
        combined.push(' ');
        text::push_optional(&mut combined, &self.monitor_description);
        combined.push(' ');
        text::push_optional(&mut combined, &self.monitor_name);
        assert(combined@ == self.adapter_description@ + seq![' '] + self.device_id@ + seq![' ']
            + text::or_empty(self.monitor_description) + seq![' '] + text::or_empty(
            self.monitor_name,
        ));
        text::has_text(&text::lowered(&text::chars_of(&combined)), "superdisplay")
    }

    pub open spec fn summary_text(self) -> Seq<char> {
        "adapter="@ + self.adapter_name@ + " description="@ + self.adapter_description@
            + " capture-index="@ + option_text(
            match self.capture_index {
                Some(n) => Some(n as int),
                None => None,
            },
        ) + " hmonitor="@ + option_text(
            match self.monitor_handle {
                Some(n) => Some(n as int),
                None => None,
            },
        ) + " attached="@ + text::truth(self.attached) + " bundled-vdd="@ + text::truth(
            self.bundled_virtual_display,
        ) + " device-id="@ + self.device_id@
    }

    /// One line that identifies the display device in a log.
    pub fn summary(&self) -> (r: String)
        ensures
            r@ == self.summary_text(),
    {
        let mut out = "adapter=".to_owned();
        out.push_str(&self.adapter_name);
        out.push_str(" description=");
        out.push_str(&self.adapter_description);
        out.push_str(" capture-index=");
        let mut number = String::new();
        match self.capture_index {
            Some(n) => {
                number.push_str("Some(");
                text::push_dec_i64(&mut number, n as i64);
                number.push(')');
            },
            None => {
                number.push_str("None");
            },
        }
        assert(number@ == option_text(
            match self.capture_index {
                Some(n) => Some(n as int),
                None => None,
            },
        ));
        out.push_str(&number);
        out.push_str(" hmonitor=");
        let mut handle = String::new();
        match self.monitor_handle {
            Some(n) => {
                handle.push_str("Some(");
                text::push_dec(&mut handle, n);
                handle.push(')');
            },
            None => {
                handle.push_str("None");
            },
        }
        assert(handle@ == option_text(
            match self.monitor_handle {
                Some(n) => Some(n as int),
                None => None,
            },
        ));
        out.push_str(&handle);
        out.push_str(" attached=");
        out.push_str(text::truth_text(self.attached));
        out.push_str(" bundled-vdd=");
        out.push_str(text::truth_text(self.bundled_virtual_display));
        out.push_str(" device-id=");
        out.push_str(&self.device_id);
        out
    }

    /// Whether the monitor is a bundled virtual display that can be captured.
    pub open spec fn bundled_target(self) -> bool {
        self.capture_index is Some && self.bundled_virtual_display && !self.primary
    }

    /// Whether the monitor is another virtual display that can be captured.
    pub open spec fn other_virtual_target(self) -> bool {
        self.capture_index is Some && self.virtual_candidate && !self.primary
            && !self.names_superdisplay()
    }

    fn is_bundled_target(&self) -> (r: bool)
        ensures
            r == self.bundled_target(),
    {
        self.capture_index.is_some() && self.bundled_virtual_display && !self.primary
    }
}

/// The virtual display to capture: a bundled one, or else another virtual one.
pub open spec fn preferred_virtual(monitors: Seq<DisplayMonitor>) -> Option<DisplayMonitor> {
    search::or(
        search::first(monitors, |m: DisplayMonitor| m.bundled_target()),
        search::first(monitors, |m: DisplayMonitor| m.other_virtual_target()),
    )
}

fn first_bundled_target(monitors: &Vec<DisplayMonitor>) -> (r: Option<DisplayMonitor>)
    ensures
        r == search::first(monitors@, |m: DisplayMonitor| m.bundled_target()),
{
    let ghost p = |m: DisplayMonitor| m.bundled_target();
    let mut i: usize = 0;
    proof {
        search::lemma_first_done(monitors@, p);
    }
    while i < monitors.len()
        invariant
            i <= monitors.len(),
            p == (|m: DisplayMonitor| m.bundled_target()),
            search::first(monitors@.take(i as int), p) is None,
        decreases monitors.len() - i,
    {
        proof {
            search::lemma_first_step(monitors@, p, i as int);
        }
        if monitors[i].is_bundled_target() {
            return Some(monitors[i].clone());
        }
        i += 1;
    }
    proof {
        search::lemma_first_done(monitors@, p);
    }
    None
}

/// Picks the virtual display that a sender captures when it may choose.
pub fn preferred_virtual_capture_target(monitors: &Vec<DisplayMonitor>) -> (r: Option<
    DisplayMonitor,
>)
    ensures
        r == preferred_virtual(monitors@),
{
    if let Some(monitor) = first_bundled_target(monitors) {
        return Some(monitor);
    }
    let ghost p = |m: DisplayMonitor| m.other_virtual_target();
    let mut i: usize = 0;
    proof {
        search::lemma_first_done(monitors@, p);
    }
    while i < monitors.len()
        invariant
            i <= monitors.len(),
            p == (|m: DisplayMonitor| m.other_virtual_target()),
            search::first(monitors@, |m: DisplayMonitor| m.bundled_target()) is None,
            search::first(monitors@.take(i as int), p) is None,
        decreases monitors.len() - i,
    {
        proof {
            search::lemma_first_step(monitors@, p, i as int);
        }
        let monitor = &monitors[i];
        if monitor.capture_index.is_some() && monitor.virtual_candidate && !monitor.primary
            && !monitor.looks_like_superdisplay() {
            return Some(monitor.clone());
        }
        i += 1;
    }
    proof {
        search::lemma_first_done(monitors@, p);
    }
    None
}

pub open spec fn preferred_index(monitors: Seq<DisplayMonitor>) -> Option<i32> {
    match preferred_virtual(monitors) {
        Some(monitor) => monitor.capture_index,
        None => None,
    }
}

/// The capture index of the virtual display that a sender prefers.
pub fn preferred_virtual_monitor_index(monitors: &Vec<DisplayMonitor>) -> (r: Option<i32>)
    ensures
        r == preferred_index(monitors@),
{
    match preferred_virtual_capture_target(monitors) {
        Some(monitor) => monitor.capture_index,
        None => None,
    }
}

pub open spec fn resolved_index(
    requested: i32,
    prefer_virtual_display: bool,
    monitors: Seq<DisplayMonitor>,
) -> i32 {
    if requested >= 0 || !prefer_virtual_display {
        requested
    } else {
        match preferred_index(monitors) {
            Some(index) => index,
            None => requested,
        }
    }
}

/// The capture index to use: a requested one stands, and otherwise a virtual display is preferred
/// where that is wanted.
pub fn resolve_capture_monitor_index(
    requested: i32,
    prefer_virtual_display: bool,
    monitors: &Vec<DisplayMonitor>,
) -> (r: i32)
    ensures
        r == resolved_index(requested, prefer_virtual_display, monitors@),
{
    if requested >= 0 || !prefer_virtual_display {
        return requested;
    }
    match preferred_virtual_monitor_index(monitors) {
        Some(index) => index,
        None => requested,
    }
}

/// What identifies the GPU behind a display device.
pub open spec fn gpu_text(monitor: DisplayMonitor) -> Seq<char> {
    monitor.adapter_description@ + seq![' '] + monitor.device_id@ + seq![' ']
        + monitor.adapter_name@
}

pub open spec fn is_nvidia(monitor: DisplayMonitor) -> bool {
    text::contains(text::lower(gpu_text(monitor)), "nvidia"@)
}

pub open spec fn nvidia_name(monitors: Seq<DisplayMonitor>) -> Option<Seq<char>> {
    match search::first(monitors, |m: DisplayMonitor| is_nvidia(m)) {
        Some(monitor) => Some(gpu_text(monitor)),
        None => None,
    }
}

/// What names the NVIDIA GPU that drives a display, if one does.
pub fn detected_nvidia_gpu_name(monitors: &Vec<DisplayMonitor>) -> (r: Option<String>)
    ensures
        match r {
            Some(name) => nvidia_name(monitors@) == Some(name@),
            None => nvidia_name(monitors@) is None,
        },
{
    let ghost p = |m: DisplayMonitor| is_nvidia(m);
    let mut i: usize = 0;
    proof {
        search::lemma_first_done(monitors@, p);
    }
    while i < monitors.len()
        invariant
            i <= monitors.len(),
            p == (|m: DisplayMonitor| is_nvidia(m)),
            search::first(monitors@.take(i as int), p) is None,
        decreases monitors.len() - i,
    {
        proof {
            search::lemma_first_step(monitors@, p, i as int);
        }
        let mut combined = monitors[i].adapter_description.clone();
        combined.push(' ');
        combined.push_str(&monitors[i].device_id);
        combined.push(' ');
        combined.push_str(&monitors[i].adapter_name);
        assert(combined@ == gpu_text(monitors@[i as int]));
        if text::has_text(&text::lowered(&text::chars_of(&combined)), "nvidia") {
            return Some(combined);
        }
        i += 1;
    }
    proof {
        search::lemma_first_done(monitors@, p);
    }
    None
}

/// Monitors are put in order by the name of their adapter.
impl Ranked for DisplayMonitor {
    type Key = Seq<char>;

    open spec fn rank(self) -> Seq<char> {
        self.adapter_name@
    }

    open spec fn rank_le(a: Seq<char>, b: Seq<char>) -> bool {
        order::text_le(a, b)
    }

    proof fn rank_order_is_total() {
        order::law_text_order_is_total();
        assert((|a: Seq<char>, b: Seq<char>| Self::rank_le(a, b)) =~= (|a: Seq<char>, b: Seq<char>|
            order::text_le(a, b)));
    }

    fn precedes(&self, other: &Self) -> (r: bool) {
        !order::text_at_most(
            &text::chars_of(&other.adapter_name),
            &text::chars_of(&self.adapter_name),
        )
    }
}

/// Every capturable bundled virtual display, by adapter name.
pub open spec fn capture_targets(monitors: Seq<DisplayMonitor>) -> Seq<DisplayMonitor> {
    order::sorted(search::kept(monitors, |m: DisplayMonitor| m.bundled_target()))
}

/// Every capturable bundled VDD monitor, in a stable order so receiver N always keeps the same
/// virtual display across rebuilds.
pub fn bundled_virtual_capture_targets(monitors: &Vec<DisplayMonitor>) -> (r: Vec<DisplayMonitor>)
    ensures
        r@ == capture_targets(monitors@),
{
    let ghost p = |m: DisplayMonitor| m.bundled_target();
    let mut targets: Vec<DisplayMonitor> = Vec::new();
    let mut i: usize = 0;
    proof {
        search::lemma_kept_done(monitors@, p);
    }
    while i < monitors.len()
        invariant
            i <= monitors.len(),
            p == (|m: DisplayMonitor| m.bundled_target()),
            targets@ == search::kept(monitors@.take(i as int), p),
        decreases monitors.len() - i,
    {
        proof {
            search::lemma_kept_step(monitors@, p, i as int);
        }
        if monitors[i].is_bundled_target() {
            targets.push(monitors[i].clone());
        }
        i += 1;
    }
    proof {
        search::lemma_kept_done(monitors@, p);
    }
    order::stable_sort(targets)
}

/// The capture targets are the same displays in the same order, by adapter name, however Windows
/// happened to enumerate them.
pub proof fn law_capture_targets_ignore_enumeration_order(
    a: Seq<DisplayMonitor>,
    b: Seq<DisplayMonitor>,
)
    requires
        order::ranks(search::kept(a, |m: DisplayMonitor| m.bundled_target())).to_multiset()
            == order::ranks(search::kept(b, |m: DisplayMonitor| m.bundled_target())).to_multiset(),
    ensures
        order::ranks(capture_targets(a)) == order::ranks(capture_targets(b)),
{
    order::law_sorting_ignores_arrival_order(
        search::kept(a, |m: DisplayMonitor| m.bundled_target()),
        search::kept(b, |m: DisplayMonitor| m.bundled_target()),
    );
}

pub open spec fn bundled_count(monitors: Seq<DisplayMonitor>) -> nat {
    search::kept(monitors, |m: DisplayMonitor| m.bundled_virtual_display).len()
}

/// How many endpoints of the bundled driver there are, attached or not.
pub fn bundled_endpoint_count(monitors: &Vec<DisplayMonitor>) -> (r: usize)
    ensures
        r == bundled_count(monitors@),
{
    let ghost p = |m: DisplayMonitor| m.bundled_virtual_display;
    let mut count: usize = 0;
    let mut i: usize = 0;
    proof {
        search::lemma_kept_done(monitors@, p);
    }
    while i < monitors.len()
        invariant
            i <= monitors.len(),
            p == (|m: DisplayMonitor| m.bundled_virtual_display),
            count == search::kept(monitors@.take(i as int), p).len(),
            count <= i,
        decreases monitors.len() - i,
    {
        proof {
            search::lemma_kept_step(monitors@, p, i as int);
        }
        if monitors[i].bundled_virtual_display {
            count += 1;
        }
        i += 1;
    }
    proof {
        search::lemma_kept_done(monitors@, p);
    }
    count
}

/// What is asked of the driver so that the bundled display is installed: nothing where one of its
/// endpoints is there.
pub fn ensure_bundled_virtual_display_installed(monitors: &Vec<DisplayMonitor>) -> (r: Option<
    VddAction,
>)
    ensures
        r == if bundled_count(monitors@) > 0 {
            None
        } else {
            Some(VddAction::Install)
        },
{
    if bundled_endpoint_count(monitors) > 0 {
        None
    } else {
        Some(VddAction::Install)
    }
}

/// What is asked of the driver so that no bundled display is left: nothing where none of its
/// endpoints is there, since the request may need elevation.
pub fn remove_bundled_virtual_display(monitors: &Vec<DisplayMonitor>) -> (r: Option<VddAction>)
    ensures
        r == if bundled_count(monitors@) > 0 {
            Some(VddAction::Remove)
        } else {
            None
        },
{
    if bundled_endpoint_count(monitors) > 0 {
        Some(VddAction::Remove)
    } else {
        None
    }
}

/// The mode of a display device, as far as it could be read.
pub struct DeviceMode {
    pub device_name: String,
    pub mode: Option<DisplayMode>,
}

/// The mode that was read for a device.
pub open spec fn mode_of(device_name: Seq<char>, modes: Seq<DeviceMode>) -> Option<DisplayMode> {
    match search::first(modes, |m: DeviceMode| m.device_name@ == device_name) {
        Some(found) => found.mode,
        None => None,
    }
}

pub open spec fn primary_info(monitors: Seq<DisplayMonitor>, modes: Seq<DeviceMode>) -> Option<
    DisplayInfo,
> {
    match search::first(monitors, |m: DisplayMonitor| m.primary) {
        Some(monitor) => match mode_of(monitor.adapter_name@, modes) {
            Some(mode) => Some(
                DisplayInfo {
                    width: mode.width,
                    height: mode.height,
                    refresh_hz: mode.refresh_hz,
                    max_decode_width: None,
                    max_decode_height: None,
                },
            ),
            None => None,
        },
        None => None,
    }
}

fn read_mode(device_name: &str, modes: &Vec<DeviceMode>) -> (r: Option<DisplayMode>)
    ensures
        r == mode_of(device_name@, modes@),
{
    let ghost p = |m: DeviceMode| m.device_name@ == device_name@;
    let mut i: usize = 0;
    proof {
        search::lemma_first_done(modes@, p);
    }
    while i < modes.len()
        invariant
            i <= modes.len(),
            p == (|m: DeviceMode| m.device_name@ == device_name@),
            search::first(modes@.take(i as int), p) is None,
        decreases modes.len() - i,
    {
        proof {
            search::lemma_first_step(modes@, p, i as int);
        }
        if text::str_equal(&modes[i].device_name, device_name) {
            return modes[i].mode;
        }
        i += 1;
    }
    proof {
        search::lemma_first_done(modes@, p);
    }
    None
}

/// What a peer announces of its primary display.
pub fn primary_display_info(monitors: &Vec<DisplayMonitor>, modes: &Vec<DeviceMode>) -> (r: Option<
    DisplayInfo,
>)
    ensures
        r == primary_info(monitors@, modes@),
{
    let ghost p = |m: DisplayMonitor| m.primary;
    let mut i: usize = 0;
    proof {
        search::lemma_first_done(monitors@, p);
    }
    while i < monitors.len()
        invariant
            i <= monitors.len(),
            p == (|m: DisplayMonitor| m.primary),
            search::first(monitors@.take(i as int), p) is None,
        decreases monitors.len() - i,
    {
        proof {
            search::lemma_first_step(monitors@, p, i as int);
        }
        if monitors[i].primary {
            return match read_mode(&monitors[i].adapter_name, modes) {
                Some(mode) => Some(DisplayInfo::new(mode.width, mode.height, mode.refresh_hz)),
                None => None,
            };
        }
        i += 1;
    }
    proof {
        search::lemma_first_done(monitors@, p);
    }
    None
}

/// The lines that list one display device.
pub open spec fn monitor_lines(monitor: DisplayMonitor) -> Seq<Seq<char>> {
    let index = match monitor.capture_index {
        Some(index) => text::dec_int(index as int),
        None => "-"@,
    };
    let head = "["@ + index + "] "@ + monitor.adapter_name@ + " - "@ + monitor.adapter_description@
        + flag(monitor.attached, " attached"@, " detached"@) + flag(
        monitor.primary,
        " primary"@,
        ""@,
    ) + flag(monitor.mirroring, " mirroring"@, ""@) + flag(
        monitor.virtual_candidate,
        " virtual-candidate"@,
        ""@,
    ) + flag(monitor.bundled_virtual_display, " bundled-vdd"@, ""@);
    let named = match monitor.monitor_name {
        Some(name) => seq![head].push("    monitor: "@ + name@),
        None => seq![head],
    };
    let described = match monitor.monitor_description {
        Some(description) => named.push("    name: "@ + description@),
        None => named,
    };
    let handled = match monitor.monitor_handle {
        Some(handle) => described.push("    hmonitor: "@ + text::dec(handle as nat)),
        None => described,
    };
    if monitor.device_id@.len() > 0 {
        handled.push("    id: "@ + monitor.device_id@)
    } else {
        handled
    }
}

pub open spec fn flag(on: bool, yes: Seq<char>, no: Seq<char>) -> Seq<char> {
    if on {
        yes
    } else {
        no
    }
}

/// The lines of all display devices, one after the other.
pub open spec fn inventory_lines(monitors: Seq<DisplayMonitor>) -> Seq<Seq<char>>
    decreases monitors.len(),
{
    if monitors.len() == 0 {
        Seq::empty()
    } else {
        inventory_lines(monitors.drop_last()) + monitor_lines(monitors.last())
    }
}

/// What the monitor listing prints.
pub open spec fn listing(monitors: Seq<DisplayMonitor>) -> Seq<Seq<char>> {
    if monitors.len() == 0 {
        seq!["No Windows display devices found."@]
    } else {
        inventory_lines(monitors).push(
            "Preferred virtual display capture index: "@ + match preferred_index(monitors) {
                Some(index) => text::dec_int(index as int),
                None => "not found"@,
            },
        )
    }
}

fn push_line(lines: &mut Vec<String>, line: String)
    ensures
        text::texts(final(lines)@) == text::texts(old(lines)@).push(line@),
{
    lines.push(line);
    assert(text::texts(lines@) == text::texts(old(lines)@).push(line@));
}

fn flag_text(on: bool, yes: &'static str, no: &'static str) -> (r: &'static str)
    ensures
        r@ == flag(on, yes@, no@),
{
    if on {
        yes
    } else {
        no
    }
}

fn push_monitor_lines(lines: &mut Vec<String>, monitor: &DisplayMonitor)
    ensures
        text::texts(final(lines)@) == text::texts(old(lines)@) + monitor_lines(*monitor),
{
    let ghost before = text::texts(lines@);
    let mut index = String::new();
    match monitor.capture_index {
        Some(n) => {
            text::push_dec_i64(&mut index, n as i64);
            assert(index@ == text::dec_int(n as int));
        },
        None => {
            index.push_str("-");
            assert(index@ == "-"@);
        },
    }
    let mut head = "[".to_owned();
    head.push_str(&index);
    head.push_str("] ");
    head.push_str(&monitor.adapter_name);
    head.push_str(" - ");
    head.push_str(&monitor.adapter_description);
    head.push_str(flag_text(monitor.attached, " attached", " detached"));
    head.push_str(flag_text(monitor.primary, " primary", ""));
    head.push_str(flag_text(monitor.mirroring, " mirroring", ""));
    head.push_str(flag_text(monitor.virtual_candidate, " virtual-candidate", ""));
    head.push_str(flag_text(monitor.bundled_virtual_display, " bundled-vdd", ""));
    let ghost first = head@;
    push_line(lines, head);
    assert(text::texts(lines@) == before + seq![first]);
    if let Some(name) = &monitor.monitor_name {
        let mut line = "    monitor: ".to_owned();
        line.push_str(name);
        push_line(lines, line);
    }
    let ghost named = if monitor.monitor_name is Some {
        seq![first].push("    monitor: "@ + monitor.monitor_name->0@)
    } else {
        seq![first]
    };
    assert(text::texts(lines@) == before + named);
    if let Some(description) = &monitor.monitor_description {
        let mut line = "    name: ".to_owned();
        line.push_str(description);
        push_line(lines, line);
    }
    let ghost described = if monitor.monitor_description is Some {
        named.push("    name: "@ + monitor.monitor_description->0@)
    } else {
        named
    };
    assert(text::texts(lines@) == before + described);
    if let Some(handle) = monitor.monitor_handle {
        let mut line = "    hmonitor: ".to_owned();
        text::push_dec(&mut line, handle);
        push_line(lines, line);
    }
    let ghost handled = match monitor.monitor_handle {
        Some(handle) => described.push("    hmonitor: "@ + text::dec(handle as nat)),
        None => described,
    };
    assert(text::texts(lines@) == before + handled);
    if !monitor.device_id.as_str().is_empty() {
        let mut line = "    id: ".to_owned();
        line.push_str(&monitor.device_id);
        push_line(lines, line);
    }
    assert(text::texts(lines@) == before + monitor_lines(*monitor));
}

/// The lines of the monitor listing.
pub fn print_monitors(monitors: &Vec<DisplayMonitor>) -> (r: Vec<String>)
    ensures
        text::texts(r@) == listing(monitors@),
{
    let mut lines: Vec<String> = Vec::new();
    if monitors.len() == 0 {
        push_line(&mut lines, "No Windows display devices found.".to_owned());
        assert(text::texts(lines@) == listing(monitors@));
        return lines;
    }
    let mut i: usize = 0;
    assert(monitors@.take(0) == Seq::<DisplayMonitor>::empty());
    assert(text::texts(lines@) == inventory_lines(monitors@.take(0)));
    while i < monitors.len()
        invariant
            i <= monitors.len(),
            text::texts(lines@) == inventory_lines(monitors@.take(i as int)),
        decreases monitors.len() - i,
    {
        assert(monitors@.take(i + 1).drop_last() == monitors@.take(i as int));
        push_monitor_lines(&mut lines, &monitors[i]);
        i += 1;
    }
    assert(monitors@.take(monitors@.len() as int) == monitors@);
    let mut line = "Preferred virtual display capture index: ".to_owned();
    match preferred_virtual_monitor_index(monitors) {
        Some(index) => {
            text::push_dec_i64(&mut line, index as i64);
        },
        None => {
            line.push_str("not found");
        },
    }
    push_line(&mut lines, line);
    lines
}

/// What a log shows of the display devices when a search among them failed.
pub open spec fn inventory(context: Seq<char>, monitors: Seq<DisplayMonitor>) -> Seq<Seq<char>> {
    seq![context + "; "@ + text::dec(monitors.len()) + " display device(s) enumerated"@] + Seq::new(
        monitors.len(),
        |i: int| "  "@ + monitors[i].summary_text(),
    )
}

/// Describes every display device so a failed capture-target search can be diagnosed from the log
/// instead of a bare "not found".
pub fn log_monitor_inventory(context: &str, monitors: &Vec<DisplayMonitor>) -> (r: Vec<String>)
    ensures
        text::texts(r@) == inventory(context@, monitors@),
{
    let mut head = context.to_owned();
    head.push_str("; ");
    text::push_dec(&mut head, monitors.len() as u64);
    head.push_str(" display device(s) enumerated");
    let mut lines: Vec<String> = Vec::new();
    lines.push(head);
    let mut i: usize = 0;
    while i < monitors.len()
        invariant
            i <= monitors.len(),
            lines@.len() == i + 1,
            lines@[0]@ == context@ + "; "@ + text::dec(monitors@.len())
                + " display device(s) enumerated"@,
            forall|k: int|
                1 <= k <= i ==> (#[trigger] lines@[k])@ == "  "@ + monitors@[k - 1].summary_text(),
        decreases monitors.len() - i,
    {
        let mut line = "  ".to_owned();
        line.push_str(&monitors[i].summary());
        lines.push(line);
        i += 1;
    }
    assert(text::texts(lines@) == inventory(context@, monitors@));
    lines
}

/// Whether a receiver's display is large enough for a virtual display to take on its mode.
pub open spec fn worth_syncing(display: Option<DisplayInfo>) -> bool {
    display is Some && display->0.width >= 640 && display->0.height >= 480
}

/// The mode to give a virtual display so that it matches the receiver that will show it; none
/// where the receiver announced no display, or one too small for a desktop.
pub fn sync_virtual_display_mode(display: Option<&DisplayInfo>) -> (r: Option<DisplayMode>)
    ensures
        match r {
            Some(mode) => display is Some && worth_syncing(Some(*display->0)) && mode.width
                == display->0.width && mode.height == display->0.height && mode.refresh_hz
                == display->0.refresh_hz,
            None => display is None || !worth_syncing(Some(*display->0)),
        },
{
    match display {
        Some(display) => if display.width < 640 || display.height < 480 {
            None
        } else {
            Some(
                DisplayMode {
                    width: display.width,
                    height: display.height,
                    refresh_hz: display.refresh_hz,
                },
            )
        },
        None => None,
    }
}

/// Why a display mode was not applied.
#[derive(Clone, Copy, Debug, PartialEq, Eq, Structural)]
pub enum ModeError {
    Unreadable,
    Unsupported,
    Rejected { result: i32 },
    NotApplied,
}

/// What a display mode change needs next.
#[derive(Clone, Copy, Debug, PartialEq, Eq, Structural)]
pub enum ModeAction {
    /// Ask Windows for the size, with this refresh rate where there is one.
    Apply { refresh_hz: Option<u32> },
    /// Look at the current mode again after a short while.
    Wait,
    Done,
    Failed(ModeError),
}

/// How far a display mode change has come.
#[derive(Clone, Copy, Debug, PartialEq, Eq, Structural)]
pub enum ModeStage {
    /// Windows was asked for the mode with this refresh rate.
    Applying { refresh_hz: Option<u32> },
    /// Windows accepted the mode; it must show, with this refresh rate, before the deadline.
    Verifying { refresh_hz: Option<u32>, deadline_ms: u64 },
    Over,
}

/// One change of the mode of a virtual display.
///
/// Receiver panels commonly report fractional rates rounded to an integer (59/60 Hz). Resolution
/// is the compatibility boundary, so when Windows rejects the mode as such, the change is tried
/// once more with the refresh rate left to the driver.
#[derive(Clone, Copy, Debug, PartialEq, Eq, Structural)]
pub struct ModeChange {
    pub width: u32,
    pub height: u32,
    pub refresh_hz: Option<u32>,
    pub stage: ModeStage,
}

impl ModeChange {
    /// Starts a change from the mode that the display shows now.
    pub fn begin(
        width: u32,
        height: u32,
        refresh_hz: Option<u32>,
        current: Option<DisplayMode>,
    ) -> (r: (Self, ModeAction))
        ensures
            r.0.width == width,
            r.0.height == height,
            r.0.refresh_hz == refresh_hz,
            r.1 == match current {
                None => ModeAction::Failed(ModeError::Unreadable),
                Some(mode) => if mode_matches(mode, width, height, refresh_hz) {
                    ModeAction::Done
                } else {
                    ModeAction::Apply { refresh_hz }
                },
            },
            r.0.stage == if r.1 == (ModeAction::Apply { refresh_hz }) {
                ModeStage::Applying { refresh_hz }
            } else {
                ModeStage::Over
            },
    {
        let over = ModeChange { width, height, refresh_hz, stage: ModeStage::Over };
        match current {
            None => (over, ModeAction::Failed(ModeError::Unreadable)),
            Some(mode) => if display_mode_matches(&mode, width, height, refresh_hz) {
                (over, ModeAction::Done)
            } else {
                (
                    ModeChange { stage: ModeStage::Applying { refresh_hz }, ..over },
                    ModeAction::Apply { refresh_hz },
                )
            },
        }
    }

    /// What follows from Windows' answer to a request for the mode.
    pub open spec fn after_answer(stage: ModeStage, result: i32, now_ms: int) -> (
        ModeStage,
        ModeAction,
    ) {
        match stage {
            ModeStage::Applying { refresh_hz } => if result == CHANGE_SUCCESSFUL {
                (
                    ModeStage::Verifying {
                        refresh_hz,
                        deadline_ms: (now_ms + DISPLAY_MODE_VERIFY_TIMEOUT_MS) as u64,
                    },
                    ModeAction::Wait,
                )
            } else if result == CHANGE_BADMODE && refresh_hz is Some {
                (
                    ModeStage::Applying { refresh_hz: None },
                    ModeAction::Apply { refresh_hz: None },
                )
            } else if result == CHANGE_BADMODE {
                (ModeStage::Over, ModeAction::Failed(ModeError::Unsupported))
            } else {
                (ModeStage::Over, ModeAction::Failed(ModeError::Rejected { result }))
            },
            _ => (stage, ModeAction::Wait),
        }
    }

    /// Takes Windows' answer to a request for the mode.
    pub fn answered(&mut self, result: i32, now_ms: u64) -> (r: ModeAction)
        requires
            now_ms + DISPLAY_MODE_VERIFY_TIMEOUT_MS <= u64::MAX,
        ensures
            (final(self).stage, r) == Self::after_answer(old(self).stage, result, now_ms as int),
            *final(self) == (ModeChange { stage: final(self).stage, ..*old(self) }),
    {
        match self.stage {
            ModeStage::Applying { refresh_hz } => if result == CHANGE_SUCCESSFUL {
                self.stage =
                ModeStage::Verifying {
                    refresh_hz,
                    deadline_ms: now_ms + DISPLAY_MODE_VERIFY_TIMEOUT_MS,
                };
                ModeAction::Wait
            } else if result == CHANGE_BADMODE && refresh_hz.is_some() {
                self.stage = ModeStage::Applying { refresh_hz: None };
                ModeAction::Apply { refresh_hz: None }
            } else if result == CHANGE_BADMODE {
                self.stage = ModeStage::Over;
                ModeAction::Failed(ModeError::Unsupported)
            } else {
                self.stage = ModeStage::Over;
                ModeAction::Failed(ModeError::Rejected { result })
            },
            _ => ModeAction::Wait,
        }
    }

    /// What follows from the mode that the display shows after Windows accepted the change.
    pub open spec fn after_look(
        self,
        now_ms: int,
        current: Option<DisplayMode>,
    ) -> (ModeStage, ModeAction) {
        match self.stage {
            ModeStage::Verifying { refresh_hz, deadline_ms } => if now_ms >= deadline_ms {
                (ModeStage::Over, ModeAction::Failed(ModeError::NotApplied))
            } else if current is Some && mode_matches(
                current->0,
                self.width,
                self.height,
                refresh_hz,
            ) {
                (ModeStage::Over, ModeAction::Done)
            } else {
                (self.stage, ModeAction::Wait)
            },
            _ => (self.stage, ModeAction::Wait),
        }
    }

    /// Takes the mode that the display shows now.
    pub fn looked(&mut self, now_ms: u64, current: Option<DisplayMode>) -> (r: ModeAction)
        ensures
            (final(self).stage, r) == old(self).after_look(now_ms as int, current),
            *final(self) == (ModeChange { stage: final(self).stage, ..*old(self) }),
    {
        match self.stage {
            ModeStage::Verifying { refresh_hz, deadline_ms } => {
                if now_ms >= deadline_ms {
                    self.stage = ModeStage::Over;
                    return ModeAction::Failed(ModeError::NotApplied);
                }
                let applied = match current {
                    Some(mode) => display_mode_matches(&mode, self.width, self.height, refresh_hz),
                    None => false,
                };
                if applied {
                    self.stage = ModeStage::Over;
                    ModeAction::Done
                } else {
                    ModeAction::Wait
                }
            },
            _ => ModeAction::Wait,
        }
    }

    pub open spec fn error_text(self, device_name: Seq<char>, error: ModeError) -> Seq<char> {
        let size = text::dec(self.width as nat) + "x"@ + text::dec(self.height as nat);
        match error {
            ModeError::Unreadable => "failed to read display mode for "@ + device_name,
            ModeError::Unsupported => "virtual display "@ + device_name + " does not support "@
                + size + ": DISP_CHANGE_BADMODE"@,
            ModeError::Rejected { result } => "failed to set "@ + device_name + " to "@ + size
                + ": DISP_CHANGE="@ + text::dec_int(result as int),
            ModeError::NotApplied => "virtual display "@ + device_name + " did not apply "@ + size
                + " within "@ + text::dec(DISPLAY_MODE_VERIFY_TIMEOUT_MS as nat) + "ms"@,
        }
    }

    /// The message for a mode that was not applied.
    pub fn error_message(&self, device_name: &str, error: ModeError) -> (r: String)
        ensures
            r@ == self.error_text(device_name@, error),
    {
        let mut size = String::new();
        text::push_dec(&mut size, self.width as u64);
        size.push_str("x");
        text::push_dec(&mut size, self.height as u64);
        assert(size@ == text::dec(self.width as nat) + "x"@ + text::dec(self.height as nat));
        match error {
            ModeError::Unreadable => {
                let mut out = "failed to read display mode for ".to_owned();
                out.push_str(device_name);
                out
            },
            ModeError::Unsupported => {
                let mut out = "virtual display ".to_owned();
                out.push_str(device_name);
                out.push_str(" does not support ");
                out.push_str(&size);
                out.push_str(": DISP_CHANGE_BADMODE");
                out
            },
            ModeError::Rejected { result } => {
                let mut out = "failed to set ".to_owned();
                out.push_str(device_name);
                out.push_str(" to ");
                out.push_str(&size);
                out.push_str(": DISP_CHANGE=");
                text::push_dec_i64(&mut out, result as i64);
                out
            },
            ModeError::NotApplied => {
                let mut out = "virtual display ".to_owned();
                out.push_str(device_name);
                out.push_str(" did not apply ");
                out.push_str(&size);
                out.push_str(" within ");
                text::push_dec(&mut out, DISPLAY_MODE_VERIFY_TIMEOUT_MS);
                out.push_str("ms");
                out
            },
        }
    }
}

/// A mode change asks Windows at most twice: a second request, without a refresh rate, comes only
/// after the first one had a refresh rate and Windows called the mode bad.
pub proof fn law_mode_change_asks_at_most_twice(stage: ModeStage, result: i32, now_ms: int)
    ensures
        ({
            let (next, action) = ModeChange::after_answer(stage, result, now_ms);
            &&& action is Apply ==> {
                &&& stage matches ModeStage::Applying { refresh_hz }
                &&& refresh_hz is Some
                &&& result == CHANGE_BADMODE
                &&& next == (ModeStage::Applying { refresh_hz: None })
            }
            &&& stage == (ModeStage::Applying { refresh_hz: None }) ==> action !is Apply
        }),
{
}

/// A mode change is reported as done only while the display shows the wanted size, and with a
/// refresh rate still in force also the wanted rate.
pub proof fn law_mode_change_is_done_only_when_it_shows(
    change: ModeChange,
    now_ms: int,
    current: Option<DisplayMode>,
)
    requires
        change.after_look(now_ms, current).1 == ModeAction::Done,
    ensures
        current is Some,
        current->0.width == change.width,
        current->0.height == change.height,
        change.stage is Verifying,
        change.stage->Verifying_refresh_hz is Some ==> current->0.refresh_hz
            == change.stage->Verifying_refresh_hz,
{
}

/// A bundled display is captured before any other virtual display, wherever it stands, and a
/// virtual one is captured wherever there is one; the primary display never is.
pub proof fn law_bundled_display_is_preferred(monitors: Seq<DisplayMonitor>, i: int)
    requires
        0 <= i < monitors.len(),
    ensures
        monitors[i].capture_index is Some && monitors[i].bundled_virtual_display
            && !monitors[i].primary ==> (preferred_virtual(monitors) matches Some(chosen)
            && chosen.bundled_virtual_display),
        monitors[i].capture_index is Some && monitors[i].virtual_candidate && !monitors[i].primary
            && !monitors[i].names_superdisplay() ==> preferred_virtual(monitors) is Some,
        preferred_virtual(monitors) matches Some(chosen) ==> {
            &&& monitors.contains(chosen)
            &&& !chosen.primary && chosen.capture_index is Some
            &&& chosen.bundled_virtual_display || chosen.virtual_candidate
            &&& preferred_index(monitors) == chosen.capture_index
        },
        preferred_virtual(monitors) is None ==> preferred_index(monitors) is None,
{
    let bundled = |m: DisplayMonitor| m.bundled_target();
    let other = |m: DisplayMonitor| m.other_virtual_target();
    search::lemma_first_sound(monitors, bundled);
    search::lemma_first_sound(monitors, other);
    if bundled(monitors[i]) {
        search::lemma_first_exists(monitors, bundled, i);
    }
    if other(monitors[i]) {
        search::lemma_first_exists(monitors, other, i);
    }
}

/// An index that was asked for is kept, and so is any index where no virtual display is preferred.
/// Otherwise a virtual display takes its place wherever one can be captured.
pub proof fn law_requested_index_is_kept(
    requested: i32,
    prefer_virtual_display: bool,
    monitors: Seq<DisplayMonitor>,
)
    ensures
        requested >= 0 ==> resolved_index(requested, prefer_virtual_display, monitors) == requested,
        !prefer_virtual_display ==> resolved_index(requested, prefer_virtual_display, monitors)
            == requested,
        requested < 0 && prefer_virtual_display ==> match preferred_index(monitors) {
            Some(index) => resolved_index(requested, prefer_virtual_display, monitors) == index,
            None => resolved_index(requested, prefer_virtual_display, monitors) == requested,
        },
{
}

/// The capture targets are the bundled displays that can be captured and are not the primary one:
/// all of them, nothing else, in the order of their adapter names.
pub proof fn law_capture_targets_are_the_bundled_displays(
    monitors: Seq<DisplayMonitor>,
    i: int,
    j: int,
    k: int,
)
    requires
        0 <= i < monitors.len(),
        0 <= j <= k < capture_targets(monitors).len(),
    ensures
        monitors[i].capture_index is Some && monitors[i].bundled_virtual_display
            && !monitors[i].primary ==> exists|n: int|
            0 <= n < capture_targets(monitors).len() && #[trigger] capture_targets(monitors)[n]
                == monitors[i],
        capture_targets(monitors)[k].bundled_virtual_display,
        capture_targets(monitors)[k].capture_index is Some,
        !capture_targets(monitors)[k].primary,
        monitors.contains(capture_targets(monitors)[k]),
        j < k ==> order::text_le(
            capture_targets(monitors)[j].adapter_name@,
            capture_targets(monitors)[k].adapter_name@,
        ),
{
    let p = |m: DisplayMonitor| m.bundled_target();
    let kept = search::kept(monitors, p);
    let sorted = capture_targets(monitors);
    search::lemma_kept_sound(monitors, p);
    order::law_sorting_orders_and_keeps_every_value(kept);
    order::lemma_same_values(sorted, kept, k);
    let n = choose|n: int| 0 <= n < kept.len() && #[trigger] kept[n] == sorted[k];
    assert(p(kept[n]));
    let m = choose|m: int| 0 <= m < monitors.len() && #[trigger] monitors[m] == kept[n];
    assert(monitors[m] == sorted[k]);
    if p(monitors[i]) {
        let at = choose|at: int| 0 <= at < kept.len() && #[trigger] kept[at] == monitors[i];
        order::lemma_same_values(kept, sorted, at);
    }
    if j < k {
        assert(DisplayMonitor::rank_le(sorted[j].rank(), sorted[k].rank()));
    }
}

/// A computer announces the size and the rate of a primary display, and nothing of its decoder.
pub proof fn law_primary_display_is_announced(
    monitors: Seq<DisplayMonitor>,
    modes: Seq<DeviceMode>,
    i: int,
)
    requires
        0 <= i < monitors.len(),
        monitors[i].primary,
        forall|k: int| 0 <= k < i ==> !(#[trigger] monitors[k]).primary,
    ensures
        match mode_of(monitors[i].adapter_name@, modes) {
            Some(mode) => primary_info(monitors, modes) matches Some(info) && info.width
                == mode.width && info.height == mode.height && info.refresh_hz == mode.refresh_hz
                && info.max_decode_width is None && info.max_decode_height is None,
            None => primary_info(monitors, modes) is None,
        },
{
    search::lemma_first_at(monitors, |m: DisplayMonitor| m.primary, i);
}

/// Windows' answer decides what a mode change does next: success is waited on for two seconds, a
/// bad mode is tried once more without its rate, and anything else is given up with that answer.
pub proof fn law_mode_change_follows_the_answer(
    refresh_hz: Option<u32>,
    result: i32,
    now_ms: int,
)
    requires
        0 <= now_ms <= u64::MAX - 2000,
    ensures
        ({
            let stage = ModeStage::Applying { refresh_hz };
            let (next, action) = ModeChange::after_answer(stage, result, now_ms);
            &&& result == 0 ==> action == ModeAction::Wait && (next matches ModeStage::Verifying {
                refresh_hz: rate,
                deadline_ms,
            } && rate == refresh_hz && deadline_ms == now_ms + 2000)
            &&& result == -2 && refresh_hz is Some ==> action == (ModeAction::Apply {
                refresh_hz: None,
            })
            &&& result == -2 && refresh_hz is None ==> action == ModeAction::Failed(
                ModeError::Unsupported,
            )
            &&& result != 0 && result != -2 ==> action == ModeAction::Failed(
                ModeError::Rejected { result },
            )
            &&& action is Failed ==> next == ModeStage::Over
        }),
{
}

/// A mode change that Windows accepted is done as soon as the display shows it, fails once its time
/// is up, and until then goes on waiting.
pub proof fn law_mode_change_waits_for_the_display(
    change: ModeChange,
    now_ms: int,
    current: DisplayMode,
)
    requires
        change.stage is Verifying,
    ensures
        ({
            let (next, action) = change.after_look(now_ms, Some(current));
            let rate = change.stage->Verifying_refresh_hz;
            let shows = current.width == change.width && current.height == change.height && (rate
                is None || current.refresh_hz == rate);
            let late = now_ms >= change.stage->Verifying_deadline_ms;
            &&& late ==> action == ModeAction::Failed(ModeError::NotApplied)
            &&& !late && shows ==> action == ModeAction::Done
            &&& !late && !shows ==> action == ModeAction::Wait && next == change.stage
            &&& late || shows ==> next == ModeStage::Over
        }),
{
}

proof fn lemma_lower_around(before: Seq<char>, name: Seq<char>, after: Seq<char>, low: Seq<char>)
    requires
        text::lower(name) == low,
    ensures
        text::contains(text::lower(before + name + after), low),
{
    let whole = text::lower(before + name + after);
    assert(whole == text::lower(before) + text::lower(name) + text::lower(after));
    let at = before.len() as int;
    assert(whole.subrange(at, at + low.len()) == low);
    assert(text::occurs_at(whole, low, at));
}

/// A display is recognised by its name in whatever case, and whatever stands around it.
pub proof fn law_display_names_are_recognised(before: Seq<char>, name: Seq<char>, after: Seq<char>)
    ensures
        text::lower(name) == "mttvdd"@ || text::lower(name) == "mtt1337"@ || text::lower(name)
            == "vdd by mtt"@ ==> names_bundled_display(before + name + after),
        text::lower(name) == "virtual display"@ || text::lower(name) == "idd"@ || text::lower(name)
            == "vdd"@ || text::lower(name) == "parsec"@ || text::lower(name) == "sudovda"@
            || text::lower(name) == "superdisplay"@ || text::lower(name) == "virtualdisplay"@
            || text::lower(name) == "virtual-display"@ ==> names_virtual_display(
            before + name + after,
        ),
{
    lemma_lower_around(before, name, after, text::lower(name));
}

/// A GPU of NVIDIA is found wherever one drives a display, and is named as that display's device.
pub proof fn law_nvidia_gpu_is_found(monitors: Seq<DisplayMonitor>, i: int)
    requires
        0 <= i < monitors.len(),
        text::contains(text::lower(monitors[i].adapter_description@), "nvidia"@),
    ensures
        nvidia_name(monitors) matches Some(name) && text::contains(text::lower(name), "nvidia"@),
{
    let p = |m: DisplayMonitor| is_nvidia(m);
    let description = monitors[i].adapter_description@;
    let rest = seq![' '] + monitors[i].device_id@ + seq![' '] + monitors[i].adapter_name@;
    let low = text::lower(description);
    let at = choose|at: int| text::occurs_at(low, "nvidia"@, at);
    let whole = text::lower(gpu_text(monitors[i]));
    assert(gpu_text(monitors[i]) == description + rest);
    assert(whole == low + text::lower(rest));
    assert(whole.subrange(at, at + "nvidia"@.len()) == low.subrange(at, at + "nvidia"@.len()));
    assert(text::occurs_at(whole, "nvidia"@, at));
    assert(p(monitors[i]));
    search::lemma_first_exists(monitors, p, i);
}

/// A display shows a mode where its size is the same, and its rate too where one is asked for.
pub proof fn law_modes_match_in_size_and_rate(mode: DisplayMode, width: u32, height: u32, rate: u32)
    ensures
        mode_matches(mode, width, height, None) <==> mode.width == width && mode.height == height,
        mode_matches(mode, width, height, Some(rate)) <==> mode_matches(mode, width, height, None)
            && mode.refresh_hz is Some && mode.refresh_hz->0 == rate,
{
}

/// Every bundled display counts as an endpoint, whatever its state.
pub proof fn law_every_bundled_display_is_an_endpoint(
    monitors: Seq<DisplayMonitor>,
    monitor: DisplayMonitor,
)
    ensures
        bundled_count(Seq::empty()) == 0,
        bundled_count(monitors.push(monitor)) == bundled_count(monitors) + (
        if monitor.bundled_virtual_display {
            1int
        } else {
            0
        }),
{
    assert(monitors.push(monitor).drop_last() == monitors);
    assert(monitors.push(monitor).last() == monitor);
}

/// The listing shows each display with its index, its names and its state, then what stands behind
/// it, and last the index of the virtual display that would be captured.
pub proof fn law_listing_shows_every_display(monitors: Seq<DisplayMonitor>, monitor: DisplayMonitor)
    ensures
        inventory_lines(monitors.push(monitor)) == inventory_lines(monitors) + monitor_lines(
            monitor,
        ),
        inventory_lines(Seq::empty()).len() == 0,
        monitors.len() > 0 ==> listing(monitors).drop_last() == inventory_lines(monitors),
        text::starts_with(
            monitor_lines(monitor)[0],
            "["@ + (if monitor.capture_index is Some {
                text::dec_int(monitor.capture_index->0 as int)
            } else {
                "-"@
            }) + "] "@ + monitor.adapter_name@ + " - "@ + monitor.adapter_description@ + (
            if monitor.attached {
                " attached"@
            } else {
                " detached"@
            }),
        ),
{
    assert(monitors.push(monitor).drop_last() == monitors);
    let index = if monitor.capture_index is Some {
        text::dec_int(monitor.capture_index->0 as int)
    } else {
        "-"@
    };
    let state = if monitor.attached {
        " attached"@
    } else {
        " detached"@
    };
    let start = "["@ + index + "] "@ + monitor.adapter_name@ + " - "@ + monitor.adapter_description@
        + state;
    let primary = flag(monitor.primary, " primary"@, ""@);
    let mirroring = flag(monitor.mirroring, " mirroring"@, ""@);
    let candidate = flag(monitor.virtual_candidate, " virtual-candidate"@, ""@);
    let bundled = flag(monitor.bundled_virtual_display, " bundled-vdd"@, ""@);
    let head = monitor_lines(monitor)[0];
    assert(head == start + primary + mirroring + candidate + bundled);
    lemma_begins(start);
    reading::lemma_starts(start, start, primary);
    reading::lemma_starts(start + primary, start, mirroring);
    reading::lemma_starts(start + primary + mirroring, start, candidate);
    reading::lemma_starts(start + primary + mirroring + candidate, start, bundled);
    if monitors.len() > 0 {
        assert(listing(monitors).drop_last() =~= inventory_lines(monitors));
    }
}

proof fn lemma_begins(s: Seq<char>)
    ensures
        text::starts_with(s, s),
{
    assert(s.subrange(0, s.len() as int) == s);
}

/// A summary names the display's device and its state behind their keys.
pub proof fn law_summaries_tell_the_state(monitor: DisplayMonitor)
    ensures
        text::starts_with(monitor.summary_text(), "adapter="@ + monitor.adapter_name@),
        text::ends_with(
            monitor.summary_text(),
            " attached="@ + (if monitor.attached {
                "true"@
            } else {
                "false"@
            }) + " bundled-vdd="@ + (if monitor.bundled_virtual_display {
                "true"@
            } else {
                "false"@
            }) + " device-id="@ + monitor.device_id@,
        ),
{
    let s = monitor.summary_text();
    let start = "adapter="@ + monitor.adapter_name@;
    assert(s.subrange(0, start.len() as int) == start);
    let end = " attached="@ + text::truth(monitor.attached) + " bundled-vdd="@ + text::truth(
        monitor.bundled_virtual_display,
    ) + " device-id="@ + monitor.device_id@;
    assert(s.subrange(s.len() - end.len(), s.len() as int) == end);
}

} // verus!
