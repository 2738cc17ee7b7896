//! DXGI adapters, so that the sender and the receiver can each pin their work to one GPU.
//!
//! The adapter index here is the DXGI enumeration index, which is exactly what the GStreamer
//! `d3d11` elements take in their `adapter` property, and the LUID is packed the way their
//! `adapter-luid` properties expose it. That lets pipeline building match a user choice against
//! the per-device encoder and decoder elements that GStreamer registers.
use crate::monitors::DisplayMonitor;
use crate::reading;
use crate::search;
use crate::text;
use crate::wide;
use vstd::prelude::*;

verus! {

pub const AUTO: &'static str = "auto";

/// `DXGI_ADAPTER_FLAG_SOFTWARE`.
pub const SOFTWARE_FLAG: u32 = 2;

#[derive(Debug)]
pub struct GpuAdapter {
    /// DXGI adapter index; matches the `adapter` property of the d3d11 elements.
    pub index: u32,
    /// DXGI adapter LUID; matches the `adapter-luid` property of the d3d11, nvcodec, qsv and amf
    /// elements.
    pub luid: i64,
    pub vendor_id: u32,
    /// PCI device identifier reported by DXGI. This is diagnostic context only; routing is
    /// capability-based so new devices do not require a hard-coded generation table.
    pub device_id: u32,
    pub description: String,
}

impl Clone for GpuAdapter {
    fn clone(&self) -> (r: Self)
        ensures
            r == *self,
    {
        GpuAdapter {
            index: self.index,
            luid: self.luid,
            vendor_id: self.vendor_id,
            device_id: self.device_id,
            description: self.description.clone(),
        }
    }
}

#[derive(Clone, Copy, Debug, PartialEq, Eq, Structural)]
pub enum GpuVendor {
    Nvidia,
    Amd,
    Intel,
    Other,
}

/// The vendor behind a PCI vendor identifier.
pub open spec fn vendor_of(vendor_id: u32) -> GpuVendor {
    if vendor_id == 0x10DE {
        GpuVendor::Nvidia
    } else if vendor_id == 0x1002 || vendor_id == 0x1022 {
        GpuVendor::Amd
    } else if vendor_id == 0x8086 {
        GpuVendor::Intel
    } else {
        GpuVendor::Other
    }
}

impl GpuAdapter {
    pub fn vendor(&self) -> (r: GpuVendor)
        ensures
            r == vendor_of(self.vendor_id),
    {
        match self.vendor_id {
            0x10DE => GpuVendor::Nvidia,
            0x1002 | 0x1022 => GpuVendor::Amd,
            0x8086 => GpuVendor::Intel,
            _ => GpuVendor::Other,
        }
    }

    /// Stable, human-editable identifier written to config.toml and shown in the tray menu.
    pub fn selection(&self) -> (r: String)
        ensures
            r@ == self.description@,
    {
        self.description.clone()
    }

    pub open spec fn summary_text(self) -> Seq<char> {
        "index="@ + text::dec(self.index as nat) + " luid="@ + text::dec_int(self.luid as int)
            + " vendor=0x"@ + text::upper_hex4(self.vendor_id as nat) + " device=0x"@
            + text::upper_hex4(self.device_id as nat) + " name="@ + self.description@
    }

    /// One line that identifies the adapter in a log.
    pub fn summary(&self) -> (r: String)
        ensures
            r@ == self.summary_text(),
    {
        let mut out = "index=".to_owned();
        text::push_dec(&mut out, self.index as u64);
        out.push_str(" luid=");
        text::push_dec_i64(&mut out, self.luid);
        out.push_str(" vendor=0x");
        text::push_upper_hex4(&mut out, self.vendor_id);
        out.push_str(" device=0x");
        text::push_upper_hex4(&mut out, self.device_id);
        out.push_str(" name=");
        out.push_str(&self.description);
        out
    }
}

pub open spec fn auto_selection(selection: Seq<char>) -> bool {
    text::trim(selection).len() == 0 || text::same_ignoring_case(text::trim(selection), AUTO@)
}

/// Whether a configured GPU leaves the choice open.
pub fn is_auto(selection: &str) -> (r: bool)
    ensures
        r == auto_selection(selection@),
{
    let trimmed = text::trimmed(selection);
    trimmed.len() == 0 || text::equal_ignoring_case(&text::string_of(&trimmed), AUTO)
}

/// The adapter that a selection names: by DXGI index where the selection is a number that some
/// adapter has, then by its whole name, then by a part of its name, each ignoring ASCII case.
pub open spec fn selected(selection: Seq<char>, adapters: Seq<GpuAdapter>) -> Option<GpuAdapter> {
    let needle = text::trim(selection);
    if auto_selection(selection) {
        None
    } else {
        let by_index = match text::parse_unsigned(needle, u32::MAX as nat) {
            Some(index) => search::first(adapters, |a: GpuAdapter| a.index == index),
            None => None,
        };
        search::or(
            by_index,
            search::or(
                search::first(
                    adapters,
                    |a: GpuAdapter| text::lower(a.description@) == text::lower(needle),
                ),
                search::first(
                    adapters,
                    |a: GpuAdapter|
                        text::contains(text::lower(a.description@), text::lower(needle)),
                ),
            ),
        )
    }
}

fn adapter_with_index(adapters: &Vec<GpuAdapter>, index: u32) -> (r: Option<GpuAdapter>)
    ensures
        r == search::first(adapters@, |a: GpuAdapter| a.index == index as nat),
{
    let ghost p = |a: GpuAdapter| a.index == index as nat;
    let mut i: usize = 0;
    proof {
        search::lemma_first_done(adapters@, p);
    }
    while i < adapters.len()
        invariant
            i <= adapters.len(),
            p == (|a: GpuAdapter| a.index == index as nat),
            search::first(adapters@.take(i as int), p) is None,
        decreases adapters.len() - i,
    {
        proof {
            search::lemma_first_step(adapters@, p, i as int);
        }
        if adapters[i].index == index {
            return Some(adapters[i].clone());
        }
        i += 1;
    }
    proof {
        search::lemma_first_done(adapters@, p);
    }
    None
}

fn adapter_named(adapters: &Vec<GpuAdapter>, needle: &[char], whole: bool) -> (r: Option<
    GpuAdapter,
>)
    ensures
        whole ==> r == search::first(
            adapters@,
            |a: GpuAdapter| text::lower(a.description@) == text::lower(needle@),
        ),
        !whole ==> r == search::first(
            adapters@,
            |a: GpuAdapter| text::contains(text::lower(a.description@), text::lower(needle@)),
        ),
{
    let ghost equal = |a: GpuAdapter| text::lower(a.description@) == text::lower(needle@);
    let ghost part = |a: GpuAdapter|
        text::contains(text::lower(a.description@), text::lower(needle@));
    let ghost p = if whole {
        equal
    } else {
        part
    };
    let wanted = text::lowered(needle);
    let wanted_text = text::string_of(&wanted);
    let mut i: usize = 0;
    proof {
        search::lemma_first_done(adapters@, p);
    }
    while i < adapters.len()
        invariant
            i <= adapters.len(),
            equal == (|a: GpuAdapter| text::lower(a.description@) == text::lower(needle@)),
            part == (|a: GpuAdapter|
                text::contains(text::lower(a.description@), text::lower(needle@))),
            p == if whole {
                equal
            } else {
                part
            },
            wanted@ == text::lower(needle@),
            wanted_text@ == wanted@,
            search::first(adapters@.take(i as int), p) is None,
        decreases adapters.len() - i,
    {
        proof {
            search::lemma_first_step(adapters@, p, i as int);
        }
        let description = text::lowered(&text::chars_of(&adapters[i].description));
        let found = if whole {
            text::chars_equal(&description, &wanted)
        } else {
            text::has_text(&description, &wanted_text)
        };
        if found {
            return Some(adapters[i].clone());
        }
        i += 1;
    }
    proof {
        search::lemma_first_done(adapters@, p);
    }
    None
}

/// Resolves a config or command line selection to one adapter. `None` means that GStreamer
/// decides, either because the selection is `auto` or because the named GPU is not present.
pub fn resolve(selection: &str, adapters: &Vec<GpuAdapter>) -> (r: Option<GpuAdapter>)
    ensures
        r == selected(selection@, adapters@),
{
    if is_auto(selection) {
        return None;
    }
    let needle = text::trimmed(selection);
    if let Some(index) = text::parse_number(&needle, u32::MAX as u64) {
        if let Some(adapter) = adapter_with_index(adapters, index as u32) {
            return Some(adapter);
        }
    }
    match adapter_named(adapters, &needle, true) {
        Some(adapter) => Some(adapter),
        None => adapter_named(adapters, &needle, false),
    }
}

/// One output of an adapter: a connected monitor.
#[derive(Debug)]
pub struct AdapterOutput {
    pub adapter: GpuAdapter,
    pub device_name: String,
    pub monitor_handle: u64,
}

pub open spec fn owner_of_handle(handle: u64, outputs: Seq<AdapterOutput>) -> Option<GpuAdapter> {
    match search::first(outputs, |o: AdapterOutput| o.monitor_handle == handle) {
        Some(output) => Some(output.adapter),
        None => None,
    }
}

/// The adapter that owns a monitor, which is also the adapter DXGI desktop duplication capture
/// runs on for that monitor.
pub fn adapter_for_monitor_handle(handle: u64, outputs: &Vec<AdapterOutput>) -> (r: Option<
    GpuAdapter,
>)
    ensures
        r == owner_of_handle(handle, outputs@),
{
    let ghost p = |o: AdapterOutput| o.monitor_handle == handle;
    let mut i: usize = 0;
    proof {
        search::lemma_first_done(outputs@, p);
    }
    while i < outputs.len()
        invariant
            i <= outputs.len(),
            p == (|o: AdapterOutput| o.monitor_handle == handle),
            search::first(outputs@.take(i as int), p) is None,
        decreases outputs.len() - i,
    {
        proof {
            search::lemma_first_step(outputs@, p, i as int);
        }
        if outputs[i].monitor_handle == handle {
            return Some(outputs[i].adapter.clone());
        }
        i += 1;
    }
    proof {
        search::lemma_first_done(outputs@, p);
    }
    None
}

pub open spec fn owner_of_device(device_name: Seq<char>, outputs: Seq<AdapterOutput>) -> Option<
    GpuAdapter,
> {
    match search::first(
        outputs,
        |o: AdapterOutput| text::same_ignoring_case(o.device_name@, device_name),
    ) {
        Some(output) => Some(output.adapter),
        None => None,
    }
}

/// Same lookup keyed by the GDI display device name, e.g. `\\.\DISPLAY2`.
pub fn adapter_for_display_device_name(device_name: &str, outputs: &Vec<AdapterOutput>) -> (r:
    Option<GpuAdapter>)
    ensures
        r == owner_of_device(device_name@, outputs@),
{
    let ghost p = |o: AdapterOutput| text::same_ignoring_case(o.device_name@, device_name@);
    let mut i: usize = 0;
    proof {
        search::lemma_first_done(outputs@, p);
    }
    while i < outputs.len()
        invariant
            i <= outputs.len(),
            p == (|o: AdapterOutput| text::same_ignoring_case(o.device_name@, device_name@)),
            search::first(outputs@.take(i as int), p) is None,
        decreases outputs.len() - i,
    {
        proof {
            search::lemma_first_step(outputs@, p, i as int);
        }
        if text::equal_ignoring_case(&outputs[i].device_name, device_name) {
            return Some(outputs[i].adapter.clone());
        }
        i += 1;
    }
    proof {
        search::lemma_first_done(outputs@, p);
    }
    None
}

/// The adapter that drives a monitor, by its handle or else by its device name.
pub open spec fn owner_of_monitor(monitor: DisplayMonitor, outputs: Seq<AdapterOutput>) -> Option<
    GpuAdapter,
> {
    let by_handle = match monitor.monitor_handle {
        Some(handle) => owner_of_handle(handle, outputs),
        None => None,
    };
    search::or(by_handle, owner_of_device(monitor.adapter_name@, outputs))
}

/// Finds the adapter that drives a monitor.
pub fn adapter_for_monitor(monitor: &DisplayMonitor, outputs: &Vec<AdapterOutput>) -> (r: Option<
    GpuAdapter,
>)
    ensures
        r == owner_of_monitor(*monitor, outputs@),
{
    if let Some(handle) = monitor.monitor_handle {
        if let Some(adapter) = adapter_for_monitor_handle(handle, outputs) {
            return Some(adapter);
        }
    }
    adapter_for_display_device_name(&monitor.adapter_name, outputs)
}

/// The display that a receiver renders on: the primary one, or else the first attached one.
pub open spec fn receiver_display(monitors: Seq<DisplayMonitor>) -> Option<DisplayMonitor> {
    search::or(
        search::first(monitors, |m: DisplayMonitor| m.attached && m.primary),
        search::first(monitors, |m: DisplayMonitor| m.attached),
    )
}

/// The adapter that a receiver decodes and renders on.
pub open spec fn receiver_adapter(
    selection: Seq<char>,
    adapters: Seq<GpuAdapter>,
    monitors: Seq<DisplayMonitor>,
    outputs: Seq<AdapterOutput>,
) -> Option<GpuAdapter> {
    if !auto_selection(selection) {
        selected(selection, adapters)
    } else {
        match receiver_display(monitors) {
            Some(monitor) => owner_of_monitor(monitor, outputs),
            None => None,
        }
    }
}

fn first_attached(monitors: &Vec<DisplayMonitor>, primary: bool) -> (r: Option<usize>)
    ensures
        primary ==> (match r {
            Some(i) => i < monitors@.len() && search::first(
                monitors@,
                |m: DisplayMonitor| m.attached && m.primary,
            ) == Some(monitors@[i as int]),
            None => search::first(monitors@, |m: DisplayMonitor| m.attached && m.primary) is None,
        }),
        !primary ==> (match r {
            Some(i) => i < monitors@.len() && search::first(
                monitors@,
                |m: DisplayMonitor| m.attached,
            ) == Some(monitors@[i as int]),
            None => search::first(monitors@, |m: DisplayMonitor| m.attached) is None,
        }),
{
    let ghost main = |m: DisplayMonitor| m.attached && m.primary;
    let ghost any = |m: DisplayMonitor| m.attached;
    let ghost p = if primary {
        main
    } else {
        any
    };
    let mut i: usize = 0;
    proof {
        search::lemma_first_done(monitors@, p);
    }
    while i < monitors.len()
        invariant
            i <= monitors.len(),
            main == (|m: DisplayMonitor| m.attached && m.primary),
            any == (|m: DisplayMonitor| m.attached),
            p == if primary {
                main
            } else {
                any
            },
            search::first(monitors@.take(i as int), p) is None,
        decreases monitors.len() - i,
    {
        proof {
            search::lemma_first_step(monitors@, p, i as int);
        }
        if monitors[i].attached && (!primary || monitors[i].primary) {
            return Some(i);
        }
        i += 1;
    }
    proof {
        search::lemma_first_done(monitors@, p);
    }
    None
}

/// Resolves the GPU used to render a receiver session. Explicit choices retain the normal
/// resolution rules, while `auto` follows the primary attached display so decoding and
/// presentation prefer the GPU that owns the visible output.
pub fn resolve_receiver(
    selection: &str,
    adapters: &Vec<GpuAdapter>,
    monitors: &Vec<DisplayMonitor>,
    outputs: &Vec<AdapterOutput>,
) -> (r: Option<GpuAdapter>)
    ensures
        r == receiver_adapter(selection@, adapters@, monitors@, outputs@),
{
    if !is_auto(selection) {
        return resolve(selection, adapters);
    }
    let target = match first_attached(monitors, true) {
        Some(i) => Some(i),
        None => first_attached(monitors, false),
    };
    match target {
        Some(i) => adapter_for_monitor(&monitors[i], outputs),
        None => None,
    }
}

/// Without a selection a receiver decodes and renders on the GPU that drives an attached primary
/// display, wherever that stands in the enumeration; the first attached display decides only where
/// no attached display is the primary one. A selection decides by itself.
pub proof fn law_receiver_renders_where_the_primary_display_is(
    selection: Seq<char>,
    adapters: Seq<GpuAdapter>,
    monitors: Seq<DisplayMonitor>,
    outputs: Seq<AdapterOutput>,
)
    ensures
        ({
            let chosen = receiver_adapter(selection, adapters, monitors, outputs);
            let automatic = auto_selection(selection);
            &&& automatic && (exists|i: int|
                0 <= i < monitors.len() && (#[trigger] monitors[i]).attached && monitors[i].primary)
                ==> exists|i: int|
                0 <= i < monitors.len() && (#[trigger] monitors[i]).attached && monitors[i].primary
                    && chosen == owner_of_monitor(monitors[i], outputs)
            &&& automatic && !(exists|i: int|
                0 <= i < monitors.len() && (#[trigger] monitors[i]).attached && monitors[i].primary)
                ==> forall|i: int|
                0 <= i < monitors.len() && (#[trigger] monitors[i]).attached && (forall|j: int|
                    0 <= j < i ==> !(#[trigger] monitors[j]).attached) ==> chosen
                    == owner_of_monitor(monitors[i], outputs)
            &&& automatic && !(exists|i: int|
                0 <= i < monitors.len() && (#[trigger] monitors[i]).attached) ==> chosen is None
            &&& !automatic ==> chosen == selected(selection, adapters)
        }),
{
    let main = |m: DisplayMonitor| m.attached && m.primary;
    let any = |m: DisplayMonitor| m.attached;
    search::lemma_first_sound(monitors, main);
    search::lemma_first_sound(monitors, any);
    let chosen = receiver_adapter(selection, adapters, monitors, outputs);
    if auto_selection(selection) {
        match search::first(monitors, main) {
            Some(found) => {
                let i = monitors.index_of(found);
                assert(monitors[i] == found);
                assert(main(found));
            },
            None => {
                assert(forall|i: int| 0 <= i < monitors.len() ==> !main(#[trigger] monitors[i]));
                assert forall|i: int|
                    0 <= i < monitors.len() && (#[trigger] monitors[i]).attached && (forall|j: int|
                        0 <= j < i ==> !(#[trigger] monitors[j]).attached) implies chosen
                    == owner_of_monitor(monitors[i], outputs) by {
                    search::lemma_first_at(monitors, any, i);
                }
                assert(forall|i: int|
                    0 <= i < monitors.len() && (#[trigger] monitors[i]).attached ==> any(
                        monitors[i],
                    ));
            },
        }
    }
}

/// A monitor is driven by the adapter of an output with its handle; only where no output has that
/// handle, by that of an output with its device name.
pub proof fn law_monitors_are_driven_by_their_output(
    monitor: DisplayMonitor,
    outputs: Seq<AdapterOutput>,
    i: int,
)
    requires
        0 <= i < outputs.len(),
    ensures
        monitor.monitor_handle == Some(outputs[i].monitor_handle) ==> exists|k: int|
            0 <= k <= i && monitor.monitor_handle == Some((#[trigger] outputs[k]).monitor_handle)
                && owner_of_monitor(monitor, outputs) == Some(outputs[k].adapter),
        (forall|k: int|
            0 <= k < outputs.len() ==> monitor.monitor_handle != Some(
                (#[trigger] outputs[k]).monitor_handle,
            )) && text::same_ignoring_case(outputs[i].device_name@, monitor.adapter_name@)
            ==> exists|k: int|
            0 <= k <= i && text::same_ignoring_case(
                (#[trigger] outputs[k]).device_name@,
                monitor.adapter_name@,
            ) && owner_of_monitor(monitor, outputs) == Some(outputs[k].adapter),
{
    let by_device = |o: AdapterOutput|
        text::same_ignoring_case(o.device_name@, monitor.adapter_name@);
    if monitor.monitor_handle is Some {
        let handle = monitor.monitor_handle->0;
        let by_handle = |o: AdapterOutput| o.monitor_handle == handle;
        search::lemma_first_sound(outputs, by_handle);
        if handle == outputs[i].monitor_handle {
            assert(by_handle(outputs[i]));
            search::lemma_first_exists(outputs, by_handle, i);
        }
        if search::first(outputs, by_handle) is Some {
            let found = search::first(outputs, by_handle)->0;
            let k = outputs.index_of(found);
            assert(outputs[k] == found);
            assert(by_handle(found));
            assert(monitor.monitor_handle == Some(outputs[k].monitor_handle));
        }
    }
    if by_device(outputs[i]) {
        search::lemma_first_exists(outputs, by_device, i);
    }
}

/// The number of an adapter selects that adapter, whatever the names are.
pub proof fn law_a_number_selects_by_index(adapters: Seq<GpuAdapter>, i: int)
    requires
        0 <= i < adapters.len(),
    ensures
        selected(text::dec(adapters[i].index as nat), adapters) matches Some(chosen)
            && adapters.contains(chosen) && chosen.index == adapters[i].index,
{
    let n = adapters[i].index as nat;
    let selection = text::dec(n);
    text::lemma_dec_digits(n);
    text::law_decimal_round_trip(n, u32::MAX as nat);
    lemma_digits_are_no_auto(selection);
    let p = |a: GpuAdapter| a.index == n;
    assert(p(adapters[i]));
    search::lemma_first_exists(adapters, p, i);
}

proof fn lemma_digits_are_no_auto(s: Seq<char>)
    requires
        text::all_digits(s),
        s.len() > 0,
    ensures
        text::trim(s) == s,
        !auto_selection(s),
{
    assert(text::is_digit(s[0]) && text::is_digit(s[s.len() - 1]));
    assert(text::trim_start(s) == s);
    assert(text::trim_end(s) == s);
    if text::same_ignoring_case(s, AUTO@) {
        reveal_strlit("auto");
        assert(text::lower(s)[0] == text::lower_char(s[0]));
        assert(text::lower(AUTO@)[0] == text::lower_char('a'));
    }
}

/// A selection that is no adapter's number selects by name: an adapter that has it for its whole
/// name, in whatever case, where there is one, and otherwise one that has it in its name. It selects
/// nothing only where it stands in no name.
pub proof fn law_a_name_selects_by_name(selection: Seq<char>, adapters: Seq<GpuAdapter>, i: int)
    requires
        0 <= i < adapters.len(),
        !auto_selection(selection),
        text::parse_unsigned(text::trim(selection), u32::MAX as nat) matches Some(n)
            ==> forall|k: int| 0 <= k < adapters.len() ==> (#[trigger] adapters[k]).index != n,
    ensures
        ({
            let needle = text::lower(text::trim(selection));
            let chosen = selected(selection, adapters);
            &&& text::lower(adapters[i].description@) == needle ==> chosen is Some && text::lower(
                chosen->0.description@,
            ) == needle
            &&& text::contains(text::lower(adapters[i].description@), needle) ==> chosen is Some
            &&& chosen is Some ==> adapters.contains(chosen->0) && text::contains(
                text::lower(chosen->0.description@),
                needle,
            )
        }),
{
    let needle = text::trim(selection);
    if let Some(n) = text::parse_unsigned(needle, u32::MAX as nat) {
        let numbered = |a: GpuAdapter| a.index == n;
        search::lemma_first_sound(adapters, numbered);
    }
    let whole = |a: GpuAdapter| text::lower(a.description@) == text::lower(needle);
    let part = |a: GpuAdapter| text::contains(text::lower(a.description@), text::lower(needle));
    search::lemma_first_sound(adapters, whole);
    search::lemma_first_sound(adapters, part);
    if whole(adapters[i]) {
        search::lemma_first_exists(adapters, whole, i);
    }
    if part(adapters[i]) {
        search::lemma_first_exists(adapters, part, i);
    }
    if let Some(found) = search::first(adapters, whole) {
        let name = text::lower(found.description@);
        assert(name.subrange(0, name.len() as int) == name);
        assert(text::occurs_at(name, text::lower(needle), 0));
    }
}

/// A packed LUID gives both of its parts back.
pub proof fn law_luids_keep_their_parts(high_part: i32, low_part: u32)
    ensures
        packed_luid(high_part, low_part) / 0x1_0000_0000 == high_part,
        packed_luid(high_part, low_part) % 0x1_0000_0000 == low_part,
{
}

/// The LUID as a `LARGE_INTEGER` packs it.
pub open spec fn packed_luid(high_part: i32, low_part: u32) -> int {
    high_part * 0x1_0000_0000 + low_part
}

/// GStreamer packs the LUID the same way `LARGE_INTEGER` does, so the high part keeps its sign.
pub fn luid_to_i64(high_part: i32, low_part: u32) -> (r: i64)
    ensures
        r == packed_luid(high_part, low_part),
{
    high_part as i64 * 0x1_0000_0000 + low_part as i64
}

/// One output as DXGI describes it.
pub struct OutputRecord {
    pub device_name: Vec<u16>,
    pub monitor_handle: u64,
}

/// One adapter as DXGI describes it, in enumeration order, with its outputs.
pub struct AdapterRecord {
    pub index: u32,
    pub flags: u32,
    pub luid_high: i32,
    pub luid_low: u32,
    pub vendor_id: u32,
    pub device_id: u32,
    pub description: Vec<u16>,
    pub outputs: Vec<OutputRecord>,
}

/// The text in a fixed DXGI buffer.
pub open spec fn record_text(buffer: Seq<u16>) -> Seq<char> {
    text::trim(wide::decoded(wide::until_nul(buffer)))
}

/// Whether an adapter is real hardware.
pub open spec fn is_hardware(record: AdapterRecord) -> bool {
    record.flags & SOFTWARE_FLAG == 0
}

/// Whether an adapter says what its record says.
pub open spec fn describes(adapter: GpuAdapter, record: AdapterRecord) -> bool {
    &&& adapter.index == record.index
    &&& adapter.luid == packed_luid(record.luid_high, record.luid_low)
    &&& adapter.vendor_id == record.vendor_id
    &&& adapter.device_id == record.device_id
    &&& adapter.description@ == record_text(record.description@)
}

fn text_of_record(buffer: &Vec<u16>) -> (r: String)
    ensures
        r@ == record_text(buffer@),
{
    let whole = wide::wide_array_to_string(buffer);
    text::string_of(&text::trimmed(&whole))
}

fn adapter_of_record(record: &AdapterRecord) -> (r: GpuAdapter)
    ensures
        describes(r, *record),
{
    GpuAdapter {
        index: record.index,
        luid: luid_to_i64(record.luid_high, record.luid_low),
        vendor_id: record.vendor_id,
        device_id: record.device_id,
        description: text_of_record(&record.description),
    }
}

/// The hardware adapters, in enumeration order.
pub fn adapters(records: &Vec<AdapterRecord>) -> (r: Vec<GpuAdapter>)
    ensures
        r@.len() == search::kept(records@, |a: AdapterRecord| is_hardware(a)).len(),
        forall|i: int|
            0 <= i < r@.len() ==> describes(
                #[trigger] r@[i],
                search::kept(records@, |a: AdapterRecord| is_hardware(a))[i],
            ),
{
    let ghost p = |a: AdapterRecord| is_hardware(a);
    let mut out: Vec<GpuAdapter> = Vec::new();
    let mut i: usize = 0;
    proof {
        search::lemma_kept_done(records@, p);
    }
    while i < records.len()
        invariant
            i <= records.len(),
            p == (|a: AdapterRecord| is_hardware(a)),
            out@.len() == search::kept(records@.take(i as int), p).len(),
            forall|k: int|
                0 <= k < out@.len() ==> describes(
                    #[trigger] out@[k],
                    search::kept(records@.take(i as int), p)[k],
                ),
        decreases records.len() - i,
    {
        proof {
            search::lemma_kept_step(records@, p, i as int);
        }
        if records[i].flags & SOFTWARE_FLAG == 0 {
            out.push(adapter_of_record(&records[i]));
        }
        i += 1;
    }
    proof {
        search::lemma_kept_done(records@, p);
    }
    out
}

/// Every output of every hardware adapter: the number of the record and of its output.
pub open spec fn output_places(records: Seq<AdapterRecord>) -> Seq<(int, int)>
    decreases records.len(),
{
    if records.len() == 0 {
        Seq::empty()
    } else {
        let before = output_places(records.drop_last());
        if is_hardware(records.last()) {
            before + Seq::new(
                records.last().outputs@.len(),
                |k: int| (records.len() - 1, k),
            )
        } else {
            before
        }
    }
}

/// Whether an output says what its record and its adapter's record say.
pub open spec fn output_describes(
    output: AdapterOutput,
    records: Seq<AdapterRecord>,
    place: (int, int),
) -> bool {
    let record = records[place.0];
    &&& 0 <= place.0 < records.len()
    &&& 0 <= place.1 < record.outputs@.len()
    &&& describes(output.adapter, record)
    &&& output.device_name@ == record_text(record.outputs@[place.1].device_name@)
    &&& output.monitor_handle == record.outputs@[place.1].monitor_handle
}

/// The outputs of the hardware adapters, in enumeration order.
pub fn outputs(records: &Vec<AdapterRecord>) -> (r: Vec<AdapterOutput>)
    ensures
        r@.len() == output_places(records@).len(),
        forall|i: int|
            0 <= i < r@.len() ==> output_describes(
                #[trigger] r@[i],
                records@,
                output_places(records@)[i],
            ),
{
    let mut out: Vec<AdapterOutput> = Vec::new();
    let mut i: usize = 0;
    assert(records@.take(0) == Seq::<AdapterRecord>::empty());
    while i < records.len()
        invariant
            i <= records.len(),
            out@.len() == output_places(records@.take(i as int)).len(),
            forall|k: int|
                0 <= k < out@.len() ==> output_describes(
                    #[trigger] out@[k],
                    records@,
                    output_places(records@.take(i as int))[k],
                ),
        decreases records.len() - i,
    {
        assert(records@.take(i + 1).drop_last() == records@.take(i as int));
        let ghost before = output_places(records@.take(i as int));
        if records[i].flags & SOFTWARE_FLAG == 0 {
            let ghost after = output_places(records@.take(i + 1));
            let count: usize = records[i].outputs.len();
            assert(after == before + Seq::new(
                count as nat,
                |k: int| (i as int, k),
            ));
            let mut k: usize = 0;
            while k < count
                invariant
                    k <= count,
                    i < records.len(),
                    count == records@[i as int].outputs@.len(),
                    after.len() == before.len() + count,
                    after == before + Seq::new(count as nat, |k: int| (i as int, k)),
                    out@.len() == before.len() + k,
                    forall|j: int|
                        0 <= j < out@.len() ==> output_describes(
                            #[trigger] out@[j],
                            records@,
                            after[j],
                        ),
                decreases count - k,
            {
                let record = &records[i];
                out.push(
                    AdapterOutput {
                        adapter: adapter_of_record(record),
                        device_name: text_of_record(&record.outputs[k].device_name),
                        monitor_handle: record.outputs[k].monitor_handle,
                    },
                );
                k += 1;
            }
        }
        i += 1;
    }
    assert(records@.take(records@.len() as int) == records@);
    out
}

/// What the adapter listing prints.
pub open spec fn adapter_lines(adapters: Seq<GpuAdapter>) -> Seq<Seq<char>> {
    if adapters.len() == 0 {
        seq!["No DXGI adapters found."@]
    } else {
        Seq::new(adapters.len(), |i: int| adapters[i].summary_text())
    }
}

/// The lines of the adapter listing.
pub fn print_adapters(adapters: &Vec<GpuAdapter>) -> (r: Vec<String>)
    ensures
        text::texts(r@) == adapter_lines(adapters@),
{
    let mut lines: Vec<String> = Vec::new();
    if adapters.len() == 0 {
        lines.push("No DXGI adapters found.".to_owned());
        assert(text::texts(lines@) == adapter_lines(adapters@));
        return lines;
    }
    let mut i: usize = 0;
    while i < adapters.len()
        invariant
            i <= adapters.len(),
            lines@.len() == i,
            forall|k: int| 0 <= k < i ==> (#[trigger] lines@[k])@ == adapters@[k].summary_text(),
        decreases adapters.len() - i,
    {
        lines.push(adapters[i].summary());
        i += 1;
    }
    assert(text::texts(lines@) == adapter_lines(adapters@));
    lines
}

/// A GPU is left open by an empty selection and by the word `auto` in whatever case, and by nothing
/// else.
pub proof fn law_selections_that_leave_the_gpu_open(selection: Seq<char>)
    ensures
        auto_selection(selection) <==> text::trim(selection).len() == 0 || text::lower(
            text::trim(selection),
        ) == "auto"@,
        auto_selection(selection) ==> selected(selection, Seq::empty()) is None,
{
    reveal_strlit("auto");
    assert(text::lower("auto"@) =~= "auto"@);
}

/// An adapter is real hardware exactly where the second of its flags is not set.
pub proof fn law_software_adapters_are_told_by_a_flag(record: AdapterRecord)
    ensures
        is_hardware(record) <==> record.flags / 2 % 2 == 0,
{
    let flags = record.flags;
    assert((flags & 2 == 0) == (flags / 2 % 2 == 0)) by (bit_vector);
}

/// Every output of every hardware adapter is listed, and no output of any other adapter is.
pub proof fn law_every_hardware_output_is_listed(records: Seq<AdapterRecord>, i: int, k: int)
    requires
        0 <= i < records.len(),
        0 <= k < records[i].outputs@.len(),
    ensures
        output_places(records).contains((i, k)) <==> is_hardware(records[i]),
    decreases records.len(),
{
    let rest = records.drop_last();
    let last = records.len() - 1;
    let before = output_places(rest);
    let all = output_places(records);
    lemma_places_are_of_records(rest);
    if i < last {
        law_every_hardware_output_is_listed(rest, i, k);
        if before.contains((i, k)) {
            let n = choose|n: int| 0 <= n < before.len() && before[n] == (i, k);
            assert(all[n] == (i, k));
        }
        if all.contains((i, k)) {
            let n = choose|n: int| 0 <= n < all.len() && all[n] == (i, k);
            if n < before.len() {
                assert(before[n] == (i, k));
            }
        }
    } else {
        if is_hardware(records[i]) {
            assert(all[before.len() + k] == (i, k));
        } else if all.contains((i, k)) {
            let n = choose|n: int| 0 <= n < before.len() && before[n] == (i, k);
            assert(before[n].0 < rest.len());
        }
    }
}

proof fn lemma_places_are_of_records(records: Seq<AdapterRecord>)
    ensures
        forall|n: int|
            0 <= n < output_places(records).len() ==> 0 <= (#[trigger] output_places(records)[n]).0
                < records.len(),
    decreases records.len(),
{
    if records.len() > 0 {
        let rest = records.drop_last();
        lemma_places_are_of_records(rest);
        let before = output_places(rest);
        let all = output_places(records);
        assert forall|n: int| 0 <= n < all.len() implies 0 <= (#[trigger] all[n]).0
            < records.len() by {
            if n < before.len() {
                assert(all[n] == before[n]);
            }
        }
    }
}

/// A summary tells an adapter's number and its LUID, and ends with its name.
pub proof fn law_summaries_identify_the_adapter(adapter: GpuAdapter)
    ensures
        reading::tells(adapter.summary_text(), "index="@, adapter.index as nat),
        reading::tells_integer(adapter.summary_text(), " luid="@, adapter.luid as int),
        text::ends_with(adapter.summary_text(), " name="@ + adapter.description@),
{
    let parts = Seq::<Seq<char>>::empty().push("index="@).push(
        text::dec(adapter.index as nat),
    ).push(" luid="@).push(text::dec_int(adapter.luid as int)).push(" vendor=0x"@).push(
        text::upper_hex4(adapter.vendor_id as nat),
    ).push(" device=0x"@).push(text::upper_hex4(adapter.device_id as nat)).push(" name="@).push(
        adapter.description@,
    );
    let s = adapter.summary_text();
    reading::lemma_cat_push();
    assert(s == reading::cat(parts));
    lemma_summary_keys();
    reading::lemma_part_tells(parts, 1, "index="@, adapter.index as nat);
    reading::lemma_part_tells_integer(parts, 3, " luid="@, adapter.luid as int);
    let end = " name="@ + adapter.description@;
    assert(s.subrange(s.len() - end.len(), s.len() as int) == end);
}

proof fn lemma_summary_keys()
    ensures
        text::ends_with("index="@, "index="@),
        text::ends_with(" luid="@, " luid="@),
        reading::ends_numbers(" luid="@) && " luid="@.len() > 0,
        reading::ends_numbers(" vendor=0x"@) && " vendor=0x"@.len() > 0,
{
    reveal_strlit("index=");
    reveal_strlit(" luid=");
    reveal_strlit(" vendor=0x");
    assert("index="@.subrange(0, 6) == "index="@);
    assert(" luid="@.subrange(0, 6) == " luid="@);
}

} // verus!
