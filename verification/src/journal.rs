//! What senders and receivers write in the log about the displays, GPUs, encoders, decoders and
//! routes that they chose.
use crate::decoders::{self, ReceiverGpuProfile, ReceiverVideoRoute, RouteModel};
use crate::elements::{self, Decoder, ElementRegistry, Encoder};
use crate::encoders::{self, EncoderFamily, SelectedEncoder};
use crate::gpu::{self, GpuAdapter, GpuVendor};
use crate::monitors::{self, DisplayMonitor, ModeChange, ModeStage};
use crate::pipeline::{self, CaptureApi, Machine, RecvArgs, SendArgs};
use crate::reading;
use crate::search;
use crate::text;
use vstd::prelude::*;

verus! {

/// One line, where there is one.
pub open spec fn told(line: Option<Seq<char>>) -> Seq<Seq<char>> {
    match line {
        Some(line) => seq![line],
        None => Seq::empty(),
    }
}

/// The text of a line, where there is one.
pub open spec fn line_text(line: Option<String>) -> Option<Seq<char>> {
    match line {
        Some(line) => Some(line@),
        None => None,
    }
}

fn add_line(lines: &mut Vec<String>, line: String)
    ensures
        text::texts(final(lines)@) == text::texts(old(lines)@) + seq![line@],
{
    lines.push(line);
    assert(text::texts(lines@) == text::texts(old(lines)@) + seq![line@]);
}

fn tell(lines: &mut Vec<String>, line: Option<String>)
    ensures
        text::texts(final(lines)@) == text::texts(old(lines)@) + told(line_text(line)),
{
    match line {
        Some(line) => {
            add_line(lines, line);
        },
        None => {
            assert(text::texts(lines@) == text::texts(lines@) + Seq::<Seq<char>>::empty());
        },
    }
}

/// How std's `Debug` shows a text: between double quotes, with some characters escaped.
pub uninterp spec fn quoted(value: Seq<char>) -> Seq<char>;

/// Calls `format!` with the `{:?}` of a `str`. Claimed is only that the result depends on the
/// text alone; which characters are escaped, and how, is left unsaid.
#[verifier::external_body]
fn quote(value: &str) -> (r: String)
    ensures
        r@ == quoted(value@),
{
    format!("{:?}", value)
}

pub open spec fn unmatched_text(shown: Seq<char>) -> Seq<char> {
    "configured GPU "@ + shown + " was not found; using automatic GPU selection"@
}

/// The line on a configured GPU that the machine does not have, from the way it is shown.
pub fn unmatched_line(shown: &str) -> (r: String)
    ensures
        r@ == unmatched_text(shown@),
{
    let mut out = "configured GPU ".to_owned();
    out.push_str(shown);
    out.push_str(" was not found; using automatic GPU selection");
    out
}

/// What is said of a selection that names a GPU the machine does not have.
pub open spec fn unmatched_selection(selection: Seq<char>, adapters: Seq<GpuAdapter>) -> Option<
    Seq<char>,
> {
    if !gpu::auto_selection(selection) && gpu::selected(selection, adapters) is None {
        Some(unmatched_text(quoted(text::trim(selection))))
    } else {
        None
    }
}

/// Notes a configured GPU that the machine does not have; `auto` is never noted.
pub fn note_unmatched_selection(selection: &str, adapters: &Vec<GpuAdapter>) -> (r: Option<String>)
    ensures
        line_text(r) == unmatched_selection(selection@, adapters@),
{
    if gpu::is_auto(selection) || gpu::resolve(selection, adapters).is_some() {
        return None;
    }
    let shown = quote(&text::string_of(&text::trimmed(selection)));
    Some(unmatched_line(&shown))
}

/// What is said of an encoder that is not bound to the GPU that it was looked up for.
pub open spec fn unbound_encoder(encoder: SelectedEncoder, gpu: Option<GpuAdapter>) -> Option<
    Seq<char>,
> {
    match gpu {
        Some(gpu) => if encoder.adapter_luid == Some(gpu.luid) {
            None
        } else {
            Some(
                "no "@ + encoder.family.base_text() + " variant is bound to GPU "@
                    + gpu.description@ + "; using "@ + encoder.element@,
            )
        },
        None => None,
    }
}

/// Notes an encoder that is not bound to the GPU that it was looked up for.
pub fn note_unbound_encoder(encoder: &SelectedEncoder, gpu: Option<&GpuAdapter>) -> (r: Option<
    String,
>)
    ensures
        line_text(r) == unbound_encoder(*encoder, elements::pointee(gpu)),
{
    let gpu = match gpu {
        Some(gpu) => gpu,
        None => return None,
    };
    if let Some(luid) = encoder.adapter_luid {
        if luid == gpu.luid {
            return None;
        }
    }
    let mut out = "no ".to_owned();
    out.push_str(encoder.family.base_element());
    out.push_str(" variant is bound to GPU ");
    out.push_str(&gpu.description);
    out.push_str("; using ");
    out.push_str(&encoder.element);
    Some(out)
}

/// An encoder that a family has on a GPU is noted as unbound just when no variant of the family is
/// bound to that GPU.
pub proof fn law_unbound_encoder_is_noted(
    family: EncoderFamily,
    gpu: GpuAdapter,
    registry: ElementRegistry,
)
    ensures
        encoders::encoder_on(family, Some(gpu), registry) matches Some(encoder) ==> (
        unbound_encoder(encoder, Some(gpu)) is Some <==> forall|i: int|
            0 <= i < registry.family(family.elements()).len() ==> registry.luid(
                (#[trigger] registry.family(family.elements())[i]).name@,
            ) != Some(gpu.luid)),
{
    let names = registry.family(family.elements());
    let p = |n: elements::ElementName| registry.luid(n.name@) == Some(gpu.luid);
    search::lemma_first_sound(names, p);
    if let Some(found) = search::first(names, p) {
        let i = names.index_of(found);
        assert(names[i] == found);
        assert(p(found));
    }
    if names.len() > 0 && search::first(names, p) is None {
        assert(!p(names[0]));
        assert forall|i: int| 0 <= i < names.len() implies registry.luid(
            (#[trigger] names[i]).name@,
        ) != Some(gpu.luid) by {
            assert(!p(names[i]));
        }
    }
}

/// The names of the settings that an element does not expose.
pub open spec fn refused_names(
    element: Seq<char>,
    settings: Seq<Seq<char>>,
    registry: ElementRegistry,
) -> Seq<Seq<char>>
    decreases settings.len(),
{
    if settings.len() == 0 {
        Seq::empty()
    } else {
        let before = refused_names(element, settings.drop_last(), registry);
        let name = encoders::setting_name(settings.last());
        if registry.accepts_property(element, name) {
            before
        } else {
            before.push(name)
        }
    }
}

/// What is said of settings that an encoder does not expose.
pub open spec fn dropped_settings(
    element: Seq<char>,
    settings: Seq<Seq<char>>,
    registry: ElementRegistry,
) -> Option<Seq<char>> {
    let names = refused_names(element, settings, registry);
    if names.len() == 0 {
        None
    } else {
        Some(
            "encoder "@ + element + " does not expose "@ + text::join(names, ", "@)
                + "; those settings were dropped"@,
        )
    }
}

/// Notes the settings that an encoder does not expose, which its description leaves out.
pub fn note_dropped_settings(
    element: &str,
    settings: &Vec<String>,
    registry: &ElementRegistry,
) -> (r: Option<String>)
    ensures
        line_text(r) == dropped_settings(element@, text::texts(settings@), *registry),
{
    let ghost all = text::texts(settings@);
    let mut names: Vec<String> = Vec::new();
    let mut i: usize = 0;
    assert(all.take(0) == Seq::<Seq<char>>::empty());
    assert(text::texts(names@) == Seq::<Seq<char>>::empty());
    while i < settings.len()
        invariant
            i <= settings.len(),
            all == text::texts(settings@),
            text::texts(names@) == refused_names(element@, all.take(i as int), *registry),
        decreases settings.len() - i,
    {
        assert(all.take(i + 1).drop_last() == all.take(i as int));
        assert(all.take(i + 1).last() == settings@[i as int]@);
        let parts = text::split_chars(&text::chars_of(&settings[i]), '=');
        let name = text::string_of(&parts[0]);
        assert(text::rows(parts@)[0] == parts@[0]@);
        if !registry.accepts_element_property(element, &name) {
            let ghost before = text::texts(names@);
            names.push(name);
            assert(text::texts(names@) == before.push(name@));
        }
        i += 1;
    }
    assert(all.take(all.len() as int) == all);
    assert(text::texts(names@).len() == names@.len());
    if names.len() == 0 {
        return None;
    }
    let mut out = "encoder ".to_owned();
    out.push_str(element);
    out.push_str(" does not expose ");
    out.push_str(&text::join_strings(&names, ", "));
    out.push_str("; those settings were dropped");
    Some(out)
}

/// How a preferred virtual display is captured, where that is said.
pub open spec fn capture_choice(capture_api: CaptureApi, display: DisplayMonitor) -> Option<
    Seq<char>,
> {
    match display.monitor_handle {
        Some(handle) => Some(
            "sender capture monitor-handle selected: "@ + text::dec(handle as nat)
                + "; capture-api="@ + capture_api.name_text() + "; adapter="@
                + display.adapter_name@,
        ),
        None => if display.bundled_virtual_display {
            None
        } else {
            Some(
                "sender fallback capture monitor-index selected: "@ + text::dec_int(
                    match display.capture_index {
                        Some(index) => index as int,
                        None => -1,
                    },
                ) + "; capture-api="@ + capture_api.name_text() + "; adapter="@
                    + display.adapter_name@,
            )
        },
    }
}

fn note_capture_choice(capture_api: CaptureApi, display: &DisplayMonitor) -> (r: Option<String>)
    ensures
        line_text(r) == capture_choice(capture_api, *display),
{
    let mut out = String::new();
    match display.monitor_handle {
        Some(handle) => {
            out = "sender capture monitor-handle selected: ".to_owned();
            text::push_dec(&mut out, handle);
        },
        None => {
            if display.bundled_virtual_display {
                return None;
            }
            out = "sender fallback capture monitor-index selected: ".to_owned();
            let index: i32 = match display.capture_index {
                Some(index) => index,
                None => -1,
            };
            text::push_dec_i64(&mut out, index as i64);
        },
    }
    out.push_str("; capture-api=");
    out.push_str(capture_api.name());
    out.push_str("; adapter=");
    out.push_str(&display.adapter_name);
    Some(out)
}

/// What is said of the display that a sender captures.
pub open spec fn capture_lines(
    args: SendArgs,
    target: Option<DisplayMonitor>,
    machine: Machine,
) -> Seq<Seq<char>> {
    match target {
        Some(display) => seq!["sender assigned capture target: "@ + display.summary_text()],
        None => if args.prefer_virtual_display && args.monitor_index < 0 {
            match monitors::preferred_virtual(machine.monitors@) {
                Some(display) => seq![
                    "sender preferred virtual display: "@ + display.summary_text(),
                ] + told(capture_choice(args.capture_api, display)),
                None => seq!["sender preferred virtual display: not found"@],
            }
        } else {
            Seq::empty()
        },
    }
}

fn tell_capture(
    lines: &mut Vec<String>,
    args: &SendArgs,
    target: Option<&DisplayMonitor>,
    machine: &Machine,
)
    ensures
        text::texts(final(lines)@) == text::texts(old(lines)@) + capture_lines(
            *args,
            elements::pointee(target),
            *machine,
        ),
{
    let ghost before = text::texts(lines@);
    if let Some(display) = target {
        add_line(lines, labelled("sender assigned capture target: ", &display.summary()));
    } else if args.prefer_virtual_display && args.monitor_index < 0 {
        match monitors::preferred_virtual_capture_target(&machine.monitors) {
            Some(display) => {
                add_line(
                    lines,
                    labelled("sender preferred virtual display: ", &display.summary()),
                );
                tell(lines, note_capture_choice(args.capture_api, &display));
            },
            None => {
                add_line(lines, "sender preferred virtual display: not found".to_owned());
            },
        }
    }
    assert(text::texts(lines@) == before + capture_lines(
        *args,
        elements::pointee(target),
        *machine,
    ));
}

fn labelled(label: &str, value: &str) -> (r: String)
    ensures
        r@ == label@ + value@,
{
    let mut out = label.to_owned();
    out.push_str(value);
    out
}

/// What is said of the GPU that a sender encodes on.
pub open spec fn sender_gpu_lines(
    selection: Seq<char>,
    capture: Option<GpuAdapter>,
    adapters: Seq<GpuAdapter>,
) -> Seq<Seq<char>> {
    let asked = gpu::selected(selection, adapters);
    let followed = match (asked, capture) {
        (None, Some(adapter)) => Some(
            "sender automatic GPU selected from the capture display: "@ + adapter.summary_text(),
        ),
        _ => None,
    };
    let used = match search::or(asked, capture) {
        Some(adapter) => Some("sender GPU selected: "@ + adapter.summary_text()),
        None => None,
    };
    told(unmatched_selection(selection, adapters)) + told(followed) + told(used)
}

fn tell_sender_gpu(
    lines: &mut Vec<String>,
    selection: &str,
    capture: Option<&GpuAdapter>,
    adapters: &Vec<GpuAdapter>,
)
    ensures
        text::texts(final(lines)@) == text::texts(old(lines)@) + sender_gpu_lines(
            selection@,
            elements::pointee(capture),
            adapters@,
        ),
{
    let ghost before = text::texts(lines@);
    tell(lines, note_unmatched_selection(selection, adapters));
    match gpu::resolve(selection, adapters) {
        Some(adapter) => {
            add_line(lines, labelled("sender GPU selected: ", &adapter.summary()));
        },
        None => {
            if let Some(adapter) = capture {
                add_line(
                    lines,
                    labelled(
                        "sender automatic GPU selected from the capture display: ",
                        &adapter.summary(),
                    ),
                );
                add_line(lines, labelled("sender GPU selected: ", &adapter.summary()));
            }
        },
    }
    assert(text::texts(lines@) == before + sender_gpu_lines(
        selection@,
        elements::pointee(capture),
        adapters@,
    ));
}

/// Why frames do not stay in GPU memory although that was asked for.
pub open spec fn memory_fallback(
    args: SendArgs,
    encoder: SelectedEncoder,
    capture: Option<GpuAdapter>,
    machine: Machine,
) -> Option<Seq<char>> {
    if !args.zero_copy || pipeline::keeps_gpu_memory(args, encoder, capture, machine) {
        None
    } else if !encoder.takes_d3d11(machine.registry) {
        Some(
            "sender encoder="@ + encoder.element@
                + " does not advertise D3D11 input; falling back to system-memory frames"@,
        )
    } else {
        Some(
            "sender encoder="@ + encoder.element@
                + " does not run on the capture GPU; falling back to system-memory frames"@,
        )
    }
}

/// The encoder of a sender, the memory that its frames are in and its rates.
pub open spec fn encoder_text(
    args: SendArgs,
    encoder: SelectedEncoder,
    capture: Option<GpuAdapter>,
    machine: Machine,
) -> Seq<char> {
    "sender encoder="@ + encoder.element@ + " frame-memory="@ + (if pipeline::keeps_gpu_memory(
        args,
        encoder,
        capture,
        machine,
    ) {
        "D3D11"@
    } else {
        "system"@
    }) + " fps="@ + text::dec(args.fps as nat) + " bitrate="@ + text::dec(args.bitrate as nat)
        + "kbit/s udp-buffer="@ + text::dec(args.udp_buffer_size as nat) + "bytes"@
}

/// What is said of the encoder that a sender uses.
pub open spec fn encoder_lines(
    args: SendArgs,
    encoder: SelectedEncoder,
    gpu: Option<GpuAdapter>,
    capture: Option<GpuAdapter>,
    machine: Machine,
) -> Seq<Seq<char>> {
    // The CPU encoder that an automatic choice falls back to is looked up for no GPU.
    let looked_up_for = if args.encoder == Encoder::Auto && encoder.family == EncoderFamily::X264 {
        None
    } else {
        gpu
    };
    told(unbound_encoder(encoder, looked_up_for)) + told(
        memory_fallback(args, encoder, capture, machine),
    ) + seq![encoder_text(args, encoder, capture, machine)] + told(
        dropped_settings(
            encoder.element@,
            encoder.settings(args.bitrate, args.fps, args.nvidia_tuning, machine.monitors@),
            machine.registry,
        ),
    )
}

fn tell_encoder(
    lines: &mut Vec<String>,
    args: &SendArgs,
    encoder: &SelectedEncoder,
    gpu: Option<&GpuAdapter>,
    capture: Option<&GpuAdapter>,
    machine: &Machine,
)
    ensures
        text::texts(final(lines)@) == text::texts(old(lines)@) + encoder_lines(
            *args,
            *encoder,
            elements::pointee(gpu),
            elements::pointee(capture),
            *machine,
        ),
{
    let ghost before = text::texts(lines@);
    let looked_up_for = if args.encoder == Encoder::Auto && encoder.family == EncoderFamily::X264 {
        None
    } else {
        gpu
    };
    tell(lines, note_unbound_encoder(encoder, looked_up_for));
    let accepts = encoder.supports_d3d11_input(&machine.registry);
    let same_gpu = match encoder.adapter_luid {
        Some(luid) => match capture {
            Some(adapter) => adapter.luid == luid,
            None => false,
        },
        None => true,
    };
    if args.zero_copy && !(accepts && same_gpu) {
        let mut out = labelled("sender encoder=", &encoder.element);
        if !accepts {
            out.push_str(
                " does not advertise D3D11 input; falling back to system-memory frames",
            );
        } else {
            out.push_str(
                " does not run on the capture GPU; falling back to system-memory frames",
            );
        }
        tell(lines, Some(out));
    } else {
        tell(lines, None);
    }
    let mut out = labelled("sender encoder=", &encoder.element);
    out.push_str(" frame-memory=");
    out.push_str(if args.zero_copy && accepts && same_gpu {
        "D3D11"
    } else {
        "system"
    });
    out.push_str(" fps=");
    text::push_dec(&mut out, args.fps as u64);
    out.push_str(" bitrate=");
    text::push_dec(&mut out, args.bitrate as u64);
    out.push_str("kbit/s udp-buffer=");
    text::push_dec(&mut out, args.udp_buffer_size as u64);
    out.push_str("bytes");
    add_line(lines, out);
    let settings = encoder.setting_list(
        args.bitrate,
        args.fps,
        args.nvidia_tuning,
        &machine.monitors,
    );
    tell(lines, note_dropped_settings(&encoder.element, &settings, &machine.registry));
    assert(text::texts(lines@) == before + encoder_lines(
        *args,
        *encoder,
        elements::pointee(gpu),
        elements::pointee(capture),
        *machine,
    ));
}

/// What is said once it is known what a sender captures, and on which display.
pub open spec fn source_lines(
    args: SendArgs,
    source: Seq<char>,
    tied: Option<DisplayMonitor>,
    machine: Machine,
) -> Seq<Seq<char>> {
    let capture = pipeline::capture_gpu(tied, args.monitor_index, machine);
    let gpu = search::or(gpu::selected(args.gpu@, machine.adapters@), capture);
    seq!["sender pipeline source: "@ + source] + sender_gpu_lines(
        args.gpu@,
        capture,
        machine.adapters@,
    ) + (match encoders::chosen_encoder(
        args.encoder,
        args.allow_software_encoder,
        gpu,
        machine.registry,
    ) {
        Err(_) => Seq::empty(),
        Ok(encoder) => encoder_lines(args, encoder, gpu, capture, machine),
    })
}

fn tell_source(
    lines: &mut Vec<String>,
    args: &SendArgs,
    source: &str,
    tied: Option<&DisplayMonitor>,
    machine: &Machine,
)
    ensures
        text::texts(final(lines)@) == text::texts(old(lines)@) + source_lines(
            *args,
            source@,
            elements::pointee(tied),
            *machine,
        ),
{
    let ghost before = text::texts(lines@);
    let capture = pipeline::capture_adapter(tied, args.monitor_index, machine);
    let gpu = pipeline::sender_gpu(&args.gpu, capture.as_ref(), &machine.adapters);
    add_line(lines, labelled("sender pipeline source: ", source));
    tell_sender_gpu(lines, &args.gpu, capture.as_ref(), &machine.adapters);
    if let Ok(encoder) = encoders::select_encoder(
        args.encoder,
        args.allow_software_encoder,
        gpu.as_ref(),
        &machine.registry,
    ) {
        tell_encoder(lines, args, &encoder, gpu.as_ref(), capture.as_ref(), machine);
    }
    assert(text::texts(lines@) == before + source_lines(
        *args,
        source@,
        elements::pointee(tied),
        *machine,
    ));
}

/// What a sender writes in the log as its video pipeline is built. The lines go as far as the
/// building does: nothing is said of arguments that are refused.
pub open spec fn sender_lines(
    args: SendArgs,
    target: Option<DisplayMonitor>,
    machine: Machine,
) -> Seq<Seq<char>> {
    if pipeline::sender_video_problem(args) is Some || pipeline::clients_text(
        args.host@,
        args.port,
        false,
    ) is Err {
        Seq::empty()
    } else {
        capture_lines(args, target, machine) + (match pipeline::sender_source(
            args,
            target,
            machine,
        ) {
            Err(_) => Seq::empty(),
            Ok((source, tied)) => source_lines(args, source, tied, machine),
        })
    }
}

/// The lines that a sender writes in the log as its video pipeline is built.
pub fn sender_log(args: &SendArgs, target: Option<&DisplayMonitor>, machine: &Machine) -> (r: Vec<
    String,
>)
    ensures
        text::texts(r@) == sender_lines(*args, elements::pointee(target), *machine),
{
    let mut lines: Vec<String> = Vec::new();
    assert(text::texts(lines@) == Seq::<Seq<char>>::empty());
    if pipeline::check_sender_video(args).is_err() || pipeline::multi_udp_clients(
        &args.host,
        args.port,
    ).is_err() {
        return lines;
    }
    tell_capture(&mut lines, args, target, machine);
    if let Ok((source, tied)) = pipeline::source_of(args, target, machine) {
        tell_source(&mut lines, args, &source, tied.as_ref(), machine);
    }
    assert(text::texts(lines@) == sender_lines(*args, elements::pointee(target), *machine));
    lines
}

/// What is said of the GPU that a receiver uses.
pub open spec fn receiver_gpu_lines(
    selection: Seq<char>,
    adapters: Seq<GpuAdapter>,
    gpu: Option<GpuAdapter>,
) -> Seq<Seq<char>> {
    let chosen = if !gpu::auto_selection(selection) {
        told(unmatched_selection(selection, adapters))
    } else {
        match gpu {
            Some(adapter) => seq![
                "receiver automatic GPU selected from display: "@ + adapter.summary_text(),
            ],
            None => seq![
                "receiver automatic GPU could not be resolved from an attached display; using GStreamer default"@,
            ],
        }
    };
    match gpu {
        Some(adapter) => chosen + seq!["receiver GPU selected: "@ + adapter.summary_text()],
        None => chosen,
    }
}

fn tell_receiver_gpu(
    lines: &mut Vec<String>,
    selection: &str,
    adapters: &Vec<GpuAdapter>,
    gpu: Option<&GpuAdapter>,
)
    ensures
        text::texts(final(lines)@) == text::texts(old(lines)@) + receiver_gpu_lines(
            selection@,
            adapters@,
            elements::pointee(gpu),
        ),
{
    let ghost before = text::texts(lines@);
    if !gpu::is_auto(selection) {
        tell(lines, note_unmatched_selection(selection, adapters));
    } else {
        match gpu {
            Some(adapter) => {
                add_line(
                    lines,
                    labelled(
                        "receiver automatic GPU selected from display: ",
                        &adapter.summary(),
                    ),
                );
            },
            None => {
                add_line(
                    lines,
                    "receiver automatic GPU could not be resolved from an attached display; using GStreamer default".to_owned(),
                );
            },
        }
    }
    if let Some(adapter) = gpu {
        add_line(lines, labelled("receiver GPU selected: ", &adapter.summary()));
    }
    assert(text::texts(lines@) == before + receiver_gpu_lines(
        selection@,
        adapters@,
        elements::pointee(gpu),
    ));
}

/// What is said of the GPU whose D3D11 decoder is missing, where that GPU is the only one.
pub open spec fn only_adapter_text(whose: Seq<char>, gpu: GpuAdapter) -> Seq<char> {
    whose + " GPU "@ + gpu.description@
        + " is the only DXGI adapter; using the base D3D11 H.264 decoder"@
}

fn only_adapter_line(whose: &str, gpu: &GpuAdapter) -> (r: String)
    ensures
        r@ == only_adapter_text(whose@, *gpu),
{
    let mut out = labelled(whose, " GPU ");
    out.push_str(&gpu.description);
    out.push_str(" is the only DXGI adapter; using the base D3D11 H.264 decoder");
    out
}

pub open spec fn no_hardware_text(profile: ReceiverGpuProfile) -> Seq<char> {
    "receiver "@ + profile.label_text()
        + " GPU has no matching hardware H.264 decoder; using decodebin with system-memory output to avoid cross-adapter textures"@
}

fn no_hardware_line(profile: ReceiverGpuProfile) -> (r: String)
    ensures
        r@ == no_hardware_text(profile),
{
    let mut out = labelled("receiver ", profile.label());
    out.push_str(
        " GPU has no matching hardware H.264 decoder; using decodebin with system-memory output to avoid cross-adapter textures",
    );
    out
}

/// What an automatic choice says of the decoder that it takes in place of a D3D11 one of the GPU.
pub open spec fn substitute_text(
    gpu: GpuAdapter,
    adapters: Seq<GpuAdapter>,
    registry: ElementRegistry,
) -> Seq<char> {
    let profile = decoders::profile_of(Some(gpu));
    let vendor_decoder = match gpu::vendor_of(gpu.vendor_id) {
        GpuVendor::Nvidia => decoders::nvidia_on(gpu, adapters, registry),
        GpuVendor::Intel => decoders::quick_sync_on(gpu, adapters, registry),
        _ => None,
    };
    if decoders::only_adapter(gpu, adapters) && registry.has("d3d11h264dec"@) {
        only_adapter_text("receiver"@, gpu)
    } else {
        match vendor_decoder {
            Some(decoder) => "receiver "@ + profile.label_text()
                + " GPU has no matching D3D11 H.264 decoder; using "@ + decoder.factory,
            None => no_hardware_text(profile),
        }
    }
}

fn substitute_line(gpu: &GpuAdapter, adapters: &Vec<GpuAdapter>, registry: &ElementRegistry) -> (r:
    String)
    ensures
        r@ == substitute_text(*gpu, adapters@, *registry),
{
    if decoders::selected_is_only_adapter(gpu, adapters) && registry.has_element("d3d11h264dec") {
        return only_adapter_line("receiver", gpu);
    }
    let profile = decoders::receiver_gpu_profile(Some(gpu));
    let vendor_decoder = match profile {
        ReceiverGpuProfile::Nvidia => decoders::nvidia_decoder_on_gpu(gpu, adapters, registry),
        ReceiverGpuProfile::Intel => decoders::qsv_decoder_on_gpu(gpu, adapters, registry),
        _ => None,
    };
    match vendor_decoder {
        Some(decoder) => {
            let mut out = labelled("receiver ", profile.label());
            out.push_str(" GPU has no matching D3D11 H.264 decoder; using ");
            out.push_str(&decoder.factory);
            out
        },
        None => no_hardware_line(profile),
    }
}

/// What is said as the decoder of a receiver is picked. A decoder that is bound to the GPU, and
/// one that was asked for and is tied to no GPU, are picked without a word.
pub open spec fn decoder_lines(
    requested: Decoder,
    gpu: Option<GpuAdapter>,
    adapters: Seq<GpuAdapter>,
    registry: ElementRegistry,
) -> Seq<Seq<char>> {
    match (requested, gpu) {
        (Decoder::D3d11, Some(gpu)) => if decoders::d3d11_on(gpu, registry) is Some {
            Seq::empty()
        } else {
            seq!["no d3d11 H.264 decoder is bound to GPU "@ + gpu.description@] + told(
                if decoders::only_adapter(gpu, adapters) {
                    Some(only_adapter_text("selected"@, gpu))
                } else {
                    None
                },
            )
        },
        (Decoder::Auto, Some(gpu)) => if decoders::d3d11_on(gpu, registry) is Some {
            Seq::empty()
        } else {
            seq![
                "no d3d11 H.264 decoder is bound to GPU "@ + gpu.description@,
                substitute_text(gpu, adapters, registry),
            ]
        },
        (Decoder::Auto, None) => if registry.has("d3d11h264dec"@) {
            seq!["receiver automatic GPU is unavailable; using the primary D3D11 H.264 decoder"@]
        } else {
            seq![no_hardware_text(ReceiverGpuProfile::Other)]
        },
        _ => Seq::empty(),
    }
}

fn tell_decoder(
    lines: &mut Vec<String>,
    requested: Decoder,
    gpu: Option<&GpuAdapter>,
    adapters: &Vec<GpuAdapter>,
    registry: &ElementRegistry,
)
    ensures
        text::texts(final(lines)@) == text::texts(old(lines)@) + decoder_lines(
            requested,
            elements::pointee(gpu),
            adapters@,
            *registry,
        ),
{
    let ghost before = text::texts(lines@);
    match (requested, gpu) {
        (Decoder::D3d11, Some(gpu)) => {
            if decoders::d3d11_decoder_on_gpu(gpu, registry).is_none() {
                add_line(
                    lines,
                    labelled("no d3d11 H.264 decoder is bound to GPU ", &gpu.description),
                );
                if decoders::selected_is_only_adapter(gpu, adapters) {
                    add_line(lines, only_adapter_line("selected", gpu));
                }
            }
        },
        (Decoder::Auto, Some(gpu)) => {
            if decoders::d3d11_decoder_on_gpu(gpu, registry).is_none() {
                add_line(
                    lines,
                    labelled("no d3d11 H.264 decoder is bound to GPU ", &gpu.description),
                );
                add_line(lines, substitute_line(gpu, adapters, registry));
            }
        },
        (Decoder::Auto, None) => {
            if registry.has_element("d3d11h264dec") {
                add_line(
                    lines,
                    "receiver automatic GPU is unavailable; using the primary D3D11 H.264 decoder".to_owned(),
                );
            } else {
                add_line(lines, no_hardware_line(ReceiverGpuProfile::Other));
            }
        },
        _ => {},
    }
    assert(text::texts(lines@) == before + decoder_lines(
        requested,
        elements::pointee(gpu),
        adapters@,
        *registry,
    ));
}

/// What is said as the route of a receiver is picked.
pub open spec fn route_lines(
    args: RecvArgs,
    gpu: Option<GpuAdapter>,
    allow_modern_intel_d3d12: bool,
    machine: Machine,
) -> Seq<Seq<char>> {
    let ordinary = decoder_lines(args.decoder, gpu, machine.adapters@, machine.registry);
    if allow_modern_intel_d3d12 && decoders::tries_d3d12(args.decoder, args.sink, gpu) {
        match (
            decoders::d3d12_on(gpu->0, machine.registry),
            decoders::d3d12_route(args.fullscreen, args.sampling, gpu, machine.registry),
        ) {
            (_, Some(route)) => seq![
                "receiver Intel GPU exposes a matching D3D12 H.264 route; using "@
                    + route.decoder.factory + " with D3D12 zero-copy"@,
            ],
            (Some(_), None) => ordinary,
            (None, None) => seq![
                "no D3D12Memory H.264 decoder is bound to GPU "@ + gpu->0.description@,
            ] + ordinary,
        }
    } else {
        ordinary
    }
}

fn tell_route(
    lines: &mut Vec<String>,
    args: &RecvArgs,
    gpu: Option<&GpuAdapter>,
    allow_modern_intel_d3d12: bool,
    machine: &Machine,
)
    ensures
        text::texts(final(lines)@) == text::texts(old(lines)@) + route_lines(
            *args,
            elements::pointee(gpu),
            allow_modern_intel_d3d12,
            *machine,
        ),
{
    let ghost before = text::texts(lines@);
    let ghost wanted = route_lines(
        *args,
        elements::pointee(gpu),
        allow_modern_intel_d3d12,
        *machine,
    );
    if allow_modern_intel_d3d12 && decoders::should_try_modern_intel_d3d12(
        args.decoder,
        args.sink,
        gpu,
    ) {
        if let Some(adapter) = gpu {
            match decoders::d3d12_decoder_on_gpu(adapter, &machine.registry) {
                Some(decoder) => {
                    if decoders::d3d12_sink_on_gpu(
                        args.fullscreen,
                        args.sampling,
                        adapter,
                        &machine.registry,
                    ).is_some() {
                        let mut out = labelled(
                            "receiver Intel GPU exposes a matching D3D12 H.264 route; using ",
                            &decoder.factory,
                        );
                        out.push_str(" with D3D12 zero-copy");
                        add_line(lines, out);
                        assert(text::texts(lines@) == before + wanted);
                        return ;
                    }
                },
                None => {
                    add_line(
                        lines,
                        labelled(
                            "no D3D12Memory H.264 decoder is bound to GPU ",
                            &adapter.description,
                        ),
                    );
                },
            }
        }
    }
    tell_decoder(lines, args.decoder, gpu, &machine.adapters, &machine.registry);
    assert(text::texts(lines@) == before + wanted);
}

/// The route of a receiver.
pub open spec fn route_text(gpu: Option<GpuAdapter>, route: RouteModel) -> Seq<char> {
    "receiver profile="@ + decoders::profile_of(gpu).route_label_text(route.decoder.memory)
        + " adapter="@ + (match gpu {
        Some(adapter) => adapter.summary_text(),
        None => "GStreamer default"@,
    }) + " decoder="@ + route.decoder.factory + " decoder-luid="@ + (
    match route.decoder.adapter_luid {
        Some(luid) => text::dec_int(luid as int),
        None => "default/unknown"@,
    }) + " memory="@ + route.decoder.memory_label(route.sink) + " sink="@ + route.sink
}

/// Shows the route of a receiver.
pub fn route_line(gpu: Option<&GpuAdapter>, route: &ReceiverVideoRoute) -> (r: String)
    ensures
        r@ == route_text(elements::pointee(gpu), route@),
{
    let profile = decoders::receiver_gpu_profile(gpu);
    let mut out = labelled("receiver profile=", profile.route_label(route.decoder.memory));
    out.push_str(" adapter=");
    match gpu {
        Some(adapter) => {
            out.push_str(&adapter.summary());
        },
        None => {
            out.push_str("GStreamer default");
        },
    }
    out.push_str(" decoder=");
    out.push_str(&route.decoder.factory);
    out.push_str(" decoder-luid=");
    match route.decoder.adapter_luid {
        Some(luid) => {
            text::push_dec_i64(&mut out, luid);
        },
        None => {
            out.push_str("default/unknown");
        },
    }
    out.push_str(" memory=");
    out.push_str(route.decoder.memory_label_for(&route.sink));
    out.push_str(" sink=");
    out.push_str(&route.sink);
    out
}

/// What is said of the largest frame that a decoder takes.
pub open spec fn limit_text(factory: Seq<char>, limits: Option<(u32, u32)>) -> Seq<char> {
    match limits {
        Some((width, height)) => "receiver decoder "@ + factory + " accepts up to "@ + text::dec(
            width as nat,
        ) + "x"@ + text::dec(height as nat) + "; announcing that limit to senders"@,
        None => "receiver decoder "@ + factory
            + " advertises no frame-size limit; senders will not scale for it"@,
    }
}

/// Shows the largest frame that a decoder takes.
pub fn limit_line(factory: &str, limits: Option<(u32, u32)>) -> (r: String)
    ensures
        r@ == limit_text(factory@, limits),
{
    let mut out = labelled("receiver decoder ", factory);
    match limits {
        Some((width, height)) => {
            out.push_str(" accepts up to ");
            text::push_dec(&mut out, width as u64);
            out.push_str("x");
            text::push_dec(&mut out, height as u64);
            out.push_str("; announcing that limit to senders");
        },
        None => {
            out.push_str(" advertises no frame-size limit; senders will not scale for it");
        },
    }
    out
}

/// What is said of the D3D11 route behind a D3D12 one.
pub open spec fn fallback_lines(
    args: RecvArgs,
    gpu: Option<GpuAdapter>,
    machine: Machine,
) -> Seq<Seq<char>> {
    route_lines(args, gpu, false, machine) + told(
        match pipeline::receiver_video_for(args, gpu, false, machine) {
            Ok(_) => None,
            Err(message) => Some(
                "receiver D3D12 route has no compatible D3D11/QSV fallback: "@ + message,
            ),
        },
    )
}

fn tell_fallback(
    lines: &mut Vec<String>,
    args: &RecvArgs,
    gpu: Option<&GpuAdapter>,
    machine: &Machine,
)
    ensures
        text::texts(final(lines)@) == text::texts(old(lines)@) + fallback_lines(
            *args,
            elements::pointee(gpu),
            *machine,
        ),
{
    let ghost before = text::texts(lines@);
    tell_route(lines, args, gpu, false, machine);
    if let Err(error) = pipeline::build_receiver_video_pipeline_for(args, gpu, false, machine) {
        add_line(
            lines,
            labelled(
                "receiver D3D12 route has no compatible D3D11/QSV fallback: ",
                &error.message(),
            ),
        );
    }
    assert(text::texts(lines@) == before + fallback_lines(
        *args,
        elements::pointee(gpu),
        *machine,
    ));
}

/// What a receiver writes in the log as its video plan is built. The lines go as far as the
/// building does.
pub open spec fn receiver_lines(args: RecvArgs, machine: Machine) -> Seq<Seq<char>> {
    let gpu = gpu::receiver_adapter(
        args.gpu@,
        machine.adapters@,
        machine.monitors@,
        machine.outputs@,
    );
    receiver_gpu_lines(args.gpu@, machine.adapters@, gpu) + route_lines(args, gpu, true, machine)
        + (match pipeline::receiver_route(args, gpu, true, machine) {
        Err(_) => Seq::empty(),
        Ok(route) => seq![route_text(gpu, route)] + (if pipeline::receiver_video(
            args,
            route,
        ) is Err {
            Seq::empty()
        } else {
            seq![
                limit_text(
                    route.decoder.factory,
                    machine.registry.frame_limits(route.decoder.factory),
                ),
            ] + (if route.d3d12() {
                fallback_lines(args, gpu, machine)
            } else {
                Seq::empty()
            })
        }),
    })
}

/// The lines that a receiver writes in the log as its video plan is built.
pub fn receiver_log(args: &RecvArgs, machine: &Machine) -> (r: Vec<String>)
    ensures
        text::texts(r@) == receiver_lines(*args, *machine),
{
    let mut lines: Vec<String> = Vec::new();
    assert(text::texts(lines@) == Seq::<Seq<char>>::empty());
    let gpu = gpu::resolve_receiver(
        &args.gpu,
        &machine.adapters,
        &machine.monitors,
        &machine.outputs,
    );
    tell_receiver_gpu(&mut lines, &args.gpu, &machine.adapters, gpu.as_ref());
    tell_route(&mut lines, args, gpu.as_ref(), true, machine);
    if let Ok(route) = decoders::select_receiver_route(
        args.decoder,
        args.sink,
        args.fullscreen,
        args.sampling,
        gpu.as_ref(),
        true,
        &machine.adapters,
        &machine.registry,
    ) {
        add_line(&mut lines, route_line(gpu.as_ref(), &route));
        if pipeline::receiver_video_pipeline(args, &route).is_ok() {
            let limits = machine.registry.decoder_frame_limits(&route.decoder.factory);
            add_line(&mut lines, limit_line(&route.decoder.factory, limits));
            if route.uses_d3d12() {
                tell_fallback(&mut lines, args, gpu.as_ref(), machine);
            }
        }
    }
    assert(text::texts(lines@) == receiver_lines(*args, *machine));
    lines
}

/// What is said of a mode change that Windows took only with the refresh rate left to the driver.
pub open spec fn driver_rate(device_name: Seq<char>, change: ModeChange) -> Option<Seq<char>> {
    if change.refresh_hz is Some && change.stage matches ModeStage::Verifying {
        refresh_hz: None,
        ..
    } {
        Some(
            "virtual display "@ + device_name + " accepted "@ + text::dec(change.width as nat)
                + "x"@ + text::dec(change.height as nat)
                + " using a driver-selected refresh rate"@,
        )
    } else {
        None
    }
}

/// Notes a mode change that Windows took only with the refresh rate left to the driver.
pub fn note_driver_rate(device_name: &str, change: &ModeChange) -> (r: Option<String>)
    ensures
        line_text(r) == driver_rate(device_name@, *change),
{
    if change.refresh_hz.is_none() {
        return None;
    }
    match change.stage {
        ModeStage::Verifying { refresh_hz: None, .. } => {
            let mut out = labelled("virtual display ", device_name);
            out.push_str(" accepted ");
            text::push_dec(&mut out, change.width as u64);
            out.push_str("x");
            text::push_dec(&mut out, change.height as u64);
            out.push_str(" using a driver-selected refresh rate");
            Some(out)
        },
        _ => None,
    }
}

/// What is said of frames in system memory is said exactly where GPU memory was asked for and not
/// kept.
pub proof fn law_lost_gpu_memory_is_noted(
    args: SendArgs,
    encoder: SelectedEncoder,
    capture: Option<GpuAdapter>,
    machine: Machine,
)
    ensures
        memory_fallback(args, encoder, capture, machine) is Some <==> args.zero_copy
            && !pipeline::keeps_gpu_memory(args, encoder, capture, machine),
{
}

/// A GPU that was asked for and is not there is noted, and only such a one.
pub proof fn law_missing_gpus_are_noted(selection: Seq<char>, adapters: Seq<GpuAdapter>)
    ensures
        unmatched_selection(selection, adapters) is Some <==> !gpu::auto_selection(selection)
            && gpu::selected(selection, adapters) is None,
{
}

/// The settings that are noted as dropped are those that the encoder's description leaves out.
pub proof fn law_dropped_settings_are_noted(
    element: Seq<char>,
    settings: Seq<Seq<char>>,
    setting: Seq<char>,
    registry: ElementRegistry,
)
    ensures
        ({
            let name = encoders::setting_name(setting);
            let longer = settings.push(setting);
            let kept = registry.accepts_property(element, name);
            &&& kept ==> refused_names(element, longer, registry) == refused_names(
                element,
                settings,
                registry,
            )
            &&& !kept ==> refused_names(element, longer, registry) == refused_names(
                element,
                settings,
                registry,
            ).push(name) && encoders::accepted_settings(element, longer, registry)
                == encoders::accepted_settings(element, settings, registry)
        }),
{
    assert(settings.push(setting).drop_last() == settings);
}

/// The limit of a decoder is said as its width and its height.
pub proof fn law_limits_are_said_as_width_by_height(factory: Seq<char>, width: u32, height: u32)
    ensures
        text::contains(
            limit_text(factory, Some((width, height))),
            " accepts up to "@ + text::dec(width as nat) + "x"@ + text::dec(height as nat),
        ),
{
    let said = limit_text(factory, Some((width, height)));
    let part = " accepts up to "@ + text::dec(width as nat) + "x"@ + text::dec(height as nat);
    let before = "receiver decoder "@ + factory;
    let after = "; announcing that limit to senders"@;
    assert(said == before + part + after);
    reading::lemma_contains(before, part, after);
}

/// The log of a sender that has a pipeline says what it captures and what it encodes with, as it
/// does in the pipeline.
pub proof fn law_sender_log_names_source_and_encoder(
    args: SendArgs,
    target: Option<DisplayMonitor>,
    machine: Machine,
)
    requires
        pipeline::sender_video(args, target, machine) is Ok,
    ensures
        ({
            let (source, tied) = pipeline::sender_source(args, target, machine)->Ok_0;
            let capture = pipeline::capture_gpu(tied, args.monitor_index, machine);
            let gpu = search::or(gpu::selected(args.gpu@, machine.adapters@), capture);
            let encoder = encoders::chosen_encoder(
                args.encoder,
                args.allow_software_encoder,
                gpu,
                machine.registry,
            )->Ok_0;
            let lines = sender_lines(args, target, machine);
            &&& lines.contains("sender pipeline source: "@ + source)
            &&& lines.contains(encoder_text(args, encoder, capture, machine))
            &&& gpu is Some ==> lines.contains("sender GPU selected: "@ + gpu->0.summary_text())
        }),
{
    let (source, tied) = pipeline::sender_source(args, target, machine)->Ok_0;
    let capture = pipeline::capture_gpu(tied, args.monitor_index, machine);
    let asked = gpu::selected(args.gpu@, machine.adapters@);
    let gpu = search::or(asked, capture);
    let encoder = encoders::chosen_encoder(
        args.encoder,
        args.allow_software_encoder,
        gpu,
        machine.registry,
    )->Ok_0;
    let first = capture_lines(args, target, machine);
    let own = seq!["sender pipeline source: "@ + source];
    let gpus = sender_gpu_lines(args.gpu@, capture, machine.adapters@);
    let rest = encoder_lines(args, encoder, gpu, capture, machine);
    let lines = sender_lines(args, target, machine);
    assert(lines == first + (own + gpus + rest));
    assert(lines[first.len() as int] == own[0]);
    let said = encoder_text(args, encoder, capture, machine);
    let looked_up_for = if args.encoder == Encoder::Auto && encoder.family == EncoderFamily::X264 {
        None
    } else {
        gpu
    };
    let notes = told(unbound_encoder(encoder, looked_up_for)) + told(
        memory_fallback(args, encoder, capture, machine),
    );
    assert(rest[notes.len() as int] == said);
    assert(lines[first.len() as int + 1 + gpus.len() + notes.len()] == said);
    if gpu is Some {
        let line = "sender GPU selected: "@ + gpu->0.summary_text();
        assert(gpus[gpus.len() - 1] == line);
        assert(lines[first.len() as int + gpus.len()] == line);
    }
}

/// The log of a receiver that has a route says which one, and what its decoder can take.
pub proof fn law_receiver_log_names_the_route(args: RecvArgs, machine: Machine)
    ensures
        ({
            let gpu = gpu::receiver_adapter(
                args.gpu@,
                machine.adapters@,
                machine.monitors@,
                machine.outputs@,
            );
            let lines = receiver_lines(args, machine);
            pipeline::receiver_route(args, gpu, true, machine) matches Ok(route) ==> {
                &&& lines.contains(route_text(gpu, route))
                &&& pipeline::receiver_video(args, route) is Ok ==> lines.contains(
                    limit_text(
                        route.decoder.factory,
                        machine.registry.frame_limits(route.decoder.factory),
                    ),
                )
            }
        }),
{
    let gpu = gpu::receiver_adapter(
        args.gpu@,
        machine.adapters@,
        machine.monitors@,
        machine.outputs@,
    );
    let lines = receiver_lines(args, machine);
    if let Ok(route) = pipeline::receiver_route(args, gpu, true, machine) {
        let before = receiver_gpu_lines(args.gpu@, machine.adapters@, gpu) + route_lines(
            args,
            gpu,
            true,
            machine,
        );
        assert(lines[before.len() as int] == route_text(gpu, route));
        if pipeline::receiver_video(args, route) is Ok {
            assert(lines[before.len() as int + 1] == limit_text(
                route.decoder.factory,
                machine.registry.frame_limits(route.decoder.factory),
            ));
        }
    }
}

} // verus!
