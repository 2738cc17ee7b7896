//! The H.264 decoder and the video sink of a receiver.
use crate::elements::{
    self, Decoder, ElementFamily, ElementName, ElementRegistry, PipelineError, ReceiverMemory,
    Sampling, Sink, RECEIVER_VIDEO_DECODER_NAME, RECEIVER_VIDEO_SINK_NAME,
};
use crate::gpu::{self, GpuAdapter, GpuVendor};
use crate::reading;
use crate::search;
use crate::text;
use vstd::prelude::*;

verus! {

#[derive(Clone, Copy, Debug, PartialEq, Eq, Structural)]
pub enum ReceiverGpuProfile {
    Nvidia,
    Amd,
    Intel,
    Other,
}

impl ReceiverGpuProfile {
    pub open spec fn label_text(self) -> Seq<char> {
        match self {
            ReceiverGpuProfile::Nvidia => "nvidia"@,
            ReceiverGpuProfile::Amd => "amd"@,
            ReceiverGpuProfile::Intel => "intel"@,
            ReceiverGpuProfile::Other => "other"@,
        }
    }

    pub fn label(self) -> (r: &'static str)
        ensures
            r@ == self.label_text(),
    {
        match self {
            ReceiverGpuProfile::Nvidia => "nvidia",
            ReceiverGpuProfile::Amd => "amd",
            ReceiverGpuProfile::Intel => "intel",
            ReceiverGpuProfile::Other => "other",
        }
    }

    pub open spec fn route_label_text(self, memory: ReceiverMemory) -> Seq<char> {
        if self == ReceiverGpuProfile::Intel && memory == ReceiverMemory::D3d12 {
            "intel-modern-d3d12"@
        } else {
            self.label_text()
        }
    }

    /// The label of a route; the D3D12 route of Intel GPUs has one of its own.
    pub fn route_label(self, memory: ReceiverMemory) -> (r: &'static str)
        ensures
            r@ == self.route_label_text(memory),
    {
        match (self, memory) {
            (ReceiverGpuProfile::Intel, ReceiverMemory::D3d12) => "intel-modern-d3d12",
            _ => self.label(),
        }
    }
}

pub open spec fn profile_of(gpu: Option<GpuAdapter>) -> ReceiverGpuProfile {
    match gpu {
        Some(gpu) => match gpu::vendor_of(gpu.vendor_id) {
            GpuVendor::Nvidia => ReceiverGpuProfile::Nvidia,
            GpuVendor::Amd => ReceiverGpuProfile::Amd,
            GpuVendor::Intel => ReceiverGpuProfile::Intel,
            GpuVendor::Other => ReceiverGpuProfile::Other,
        },
        None => ReceiverGpuProfile::Other,
    }
}

/// The profile that a receiver's GPU falls under.
pub fn receiver_gpu_profile(gpu: Option<&GpuAdapter>) -> (r: ReceiverGpuProfile)
    ensures
        r == profile_of(elements::pointee(gpu)),
{
    match gpu {
        Some(gpu) => match gpu.vendor() {
            GpuVendor::Nvidia => ReceiverGpuProfile::Nvidia,
            GpuVendor::Amd => ReceiverGpuProfile::Amd,
            GpuVendor::Intel => ReceiverGpuProfile::Intel,
            GpuVendor::Other => ReceiverGpuProfile::Other,
        },
        None => ReceiverGpuProfile::Other,
    }
}

/// A decoder element with its settings.
#[derive(Debug)]
pub struct ReceiverDecoder {
    pub factory: String,
    pub memory: ReceiverMemory,
    pub adapter_luid: Option<i64>,
    pub properties: String,
}

/// A decoder by what it says.
pub struct DecoderModel {
    pub factory: Seq<char>,
    pub memory: ReceiverMemory,
    pub adapter_luid: Option<i64>,
    pub properties: Seq<char>,
}

impl View for ReceiverDecoder {
    type V = DecoderModel;

    open spec fn view(&self) -> DecoderModel {
        DecoderModel {
            factory: self.factory@,
            memory: self.memory,
            adapter_luid: self.adapter_luid,
            properties: self.properties@,
        }
    }
}

/// A decoder without settings.
pub open spec fn plain_decoder(factory: Seq<char>, memory: ReceiverMemory) -> DecoderModel {
    DecoderModel { factory, memory, adapter_luid: None, properties: Seq::empty() }
}

impl ReceiverDecoder {
    pub fn new(factory: &str, memory: ReceiverMemory) -> (r: Self)
        ensures
            r@ == plain_decoder(factory@, memory),
    {
        ReceiverDecoder {
            factory: factory.to_owned(),
            memory,
            adapter_luid: None,
            properties: String::new(),
        }
    }

    pub fn with_adapter_luid(self, luid: i64) -> (r: Self)
        ensures
            r@ == (DecoderModel { adapter_luid: Some(luid), ..self@ }),
    {
        ReceiverDecoder { adapter_luid: Some(luid), ..self }
    }

    /// The same decoder with its frames in system memory.
    pub fn with_system_memory(self) -> (r: Self)
        ensures
            r@ == (DecoderModel { memory: ReceiverMemory::System, ..self@ }),
    {
        ReceiverDecoder { memory: ReceiverMemory::System, ..self }
    }

    pub fn with_property(self, name: &str, value: u64) -> (r: Self)
        ensures
            r@ == (DecoderModel {
                properties: self@.properties + " "@ + name@ + "="@ + text::dec(value as nat),
                ..self@
            }),
    {
        let mut decoder = self;
        decoder.properties.push_str(" ");
        decoder.properties.push_str(name);
        decoder.properties.push_str("=");
        text::push_dec(&mut decoder.properties, value);
        decoder
    }

    /// The decoder as a pipeline names it.
    pub fn pipeline_element(&self) -> (r: String)
        ensures
            r@ == self@.element_text(),
    {
        let mut out = self.factory.clone();
        out.push_str(" name=");
        out.push_str(RECEIVER_VIDEO_DECODER_NAME);
        out.push_str(&self.properties);
        out
    }

    /// The caps between the decoder and a sink. Frames stay on the GPU only where the sink draws
    /// with the same graphics API; otherwise GStreamer may choose a bridge.
    pub fn output_caps_for(&self, sink: &str) -> (r: &'static str)
        ensures
            r@ == self@.output_caps(sink@),
    {
        let sink = text::chars_of(sink);
        match self.memory {
            ReceiverMemory::D3d12 => if text::has_prefix(&sink, "d3d12videosink") {
                " ! video/x-raw(memory:D3D12Memory),format=NV12"
            } else {
                ""
            },
            ReceiverMemory::D3d11 => if text::has_prefix(&sink, "d3d11videosink") {
                " ! video/x-raw(memory:D3D11Memory),format=NV12"
            } else {
                ""
            },
            ReceiverMemory::System => " ! video/x-raw",
            ReceiverMemory::Negotiated => "",
        }
    }

    /// What a log calls the memory between the decoder and a sink.
    pub fn memory_label_for(&self, sink: &str) -> (r: &'static str)
        ensures
            r@ == self@.memory_label(sink@),
    {
        let sink = text::chars_of(sink);
        match self.memory {
            ReceiverMemory::D3d12 => if text::has_prefix(&sink, "d3d12videosink") {
                "D3D12Memory/NV12"
            } else {
                "negotiated"
            },
            ReceiverMemory::D3d11 => if text::has_prefix(&sink, "d3d11videosink") {
                "D3D11Memory/NV12"
            } else {
                "negotiated"
            },
            ReceiverMemory::System => "system-memory",
            ReceiverMemory::Negotiated => "negotiated",
        }
    }
}

impl DecoderModel {
    pub open spec fn element_text(self) -> Seq<char> {
        self.factory + " name="@ + RECEIVER_VIDEO_DECODER_NAME@ + self.properties
    }

    pub open spec fn output_caps(self, sink: Seq<char>) -> Seq<char> {
        match self.memory {
            ReceiverMemory::D3d12 => if text::starts_with(sink, "d3d12videosink"@) {
                " ! video/x-raw(memory:D3D12Memory),format=NV12"@
            } else {
                ""@
            },
            ReceiverMemory::D3d11 => if text::starts_with(sink, "d3d11videosink"@) {
                " ! video/x-raw(memory:D3D11Memory),format=NV12"@
            } else {
                ""@
            },
            ReceiverMemory::System => " ! video/x-raw"@,
            ReceiverMemory::Negotiated => ""@,
        }
    }

    pub open spec fn memory_label(self, sink: Seq<char>) -> Seq<char> {
        match self.memory {
            ReceiverMemory::D3d12 => if text::starts_with(sink, "d3d12videosink"@) {
                "D3D12Memory/NV12"@
            } else {
                "negotiated"@
            },
            ReceiverMemory::D3d11 => if text::starts_with(sink, "d3d11videosink"@) {
                "D3D11Memory/NV12"@
            } else {
                "negotiated"@
            },
            ReceiverMemory::System => "system-memory"@,
            ReceiverMemory::Negotiated => "negotiated"@,
        }
    }
}

/// Whether an optional decoder is the expected one.
pub open spec fn is_decoder(r: Option<ReceiverDecoder>, expected: Option<DecoderModel>) -> bool {
    match (r, expected) {
        (Some(decoder), Some(model)) => decoder@ == model,
        (None, None) => true,
        _ => false,
    }
}

/// Whether a result is the expected decoder, or an error with the expected message.
pub open spec fn gives_decoder(
    r: Result<ReceiverDecoder, PipelineError>,
    expected: Result<DecoderModel, Seq<char>>,
) -> bool {
    match (r, expected) {
        (Ok(decoder), Ok(model)) => decoder@ == model,
        (Err(error), Err(message)) => error.text() == message,
        _ => false,
    }
}

/// Whether a result is the expected text, or an error with the expected message.
pub open spec fn gives_text(
    r: Result<String, PipelineError>,
    expected: Result<Seq<char>, Seq<char>>,
) -> bool {
    match (r, expected) {
        (Ok(found), Ok(wanted)) => found@ == wanted,
        (Err(error), Err(message)) => error.text() == message,
        _ => false,
    }
}

/// The software decoders, most preferred first. The installer bundles openh264 (BSD) and
/// deliberately omits the GPL/LGPL-encumbered libav and x264 plugins, so `openh264dec` is the only
/// software decoder that exists on an installed build; `avdec_h264` stays as a second choice for
/// developer machines running a full GStreamer install.
pub fn software_h264_decoders() -> (r: [&'static str; 2])
    ensures
        r[0]@ == "openh264dec"@,
        r[1]@ == "avdec_h264"@,
{
    ["openh264dec", "avdec_h264"]
}

pub open spec fn software(registry: ElementRegistry) -> Option<DecoderModel> {
    if registry.has("openh264dec"@) {
        Some(plain_decoder("openh264dec"@, ReceiverMemory::System))
    } else if registry.has("avdec_h264"@) {
        Some(plain_decoder("avdec_h264"@, ReceiverMemory::System))
    } else {
        None
    }
}

/// The most preferred software decoder that is installed.
pub fn software_decoder(registry: &ElementRegistry) -> (r: Option<ReceiverDecoder>)
    ensures
        is_decoder(r, software(*registry)),
{
    let names = software_h264_decoders();
    if registry.has_element(names[0]) {
        Some(ReceiverDecoder::new(names[0], ReceiverMemory::System))
    } else if registry.has_element(names[1]) {
        Some(ReceiverDecoder::new(names[1], ReceiverMemory::System))
    } else {
        None
    }
}

/// The memory that an element gives frames in: the preferred one where it can, and otherwise what
/// is negotiated.
pub open spec fn memory_of(
    factory: Seq<char>,
    preferred: ReceiverMemory,
    registry: ElementRegistry,
) -> ReceiverMemory {
    if registry.gives_memory(factory, preferred) {
        preferred
    } else {
        ReceiverMemory::Negotiated
    }
}

pub open spec fn nvdec(factory: Seq<char>, registry: ElementRegistry) -> Option<DecoderModel> {
    if !registry.has(factory) {
        None
    } else {
        let base = plain_decoder(factory, memory_of(factory, ReceiverMemory::D3d11, registry));
        if registry.has_property(factory, "max-display-delay"@) {
            Some(
                DecoderModel {
                    properties: Seq::<char>::empty() + " "@ + "max-display-delay"@ + "="@
                        + text::dec(0),
                    ..base
                },
            )
        } else {
            Some(base)
        }
    }
}

/// An NVDEC decoder that holds no frame back.
pub fn nvidia_decoder(factory: &str, registry: &ElementRegistry) -> (r: Option<ReceiverDecoder>)
    ensures
        is_decoder(r, nvdec(factory@, *registry)),
{
    if !registry.has_element(factory) {
        return None;
    }
    let memory = if registry.factory_supports_raw_memory_src(factory, ReceiverMemory::D3d11) {
        ReceiverMemory::D3d11
    } else {
        ReceiverMemory::Negotiated
    };
    let decoder = ReceiverDecoder::new(factory, memory);
    if registry.element_has_property(factory, "max-display-delay") {
        Some(decoder.with_property("max-display-delay", 0))
    } else {
        Some(decoder)
    }
}

pub open spec fn preferring(
    factory: Seq<char>,
    preferred: ReceiverMemory,
    registry: ElementRegistry,
) -> Option<DecoderModel> {
    if registry.has(factory) {
        Some(plain_decoder(factory, memory_of(factory, preferred, registry)))
    } else {
        None
    }
}

/// A decoder with its frames in the preferred memory where it can give them there.
pub fn decoder_with_preferred_memory(
    factory: &str,
    preferred: ReceiverMemory,
    registry: &ElementRegistry,
) -> (r: Option<ReceiverDecoder>)
    ensures
        is_decoder(r, preferring(factory@, preferred, *registry)),
{
    if !registry.has_element(factory) {
        return None;
    }
    let memory = if registry.factory_supports_raw_memory_src(factory, preferred) {
        preferred
    } else {
        ReceiverMemory::Negotiated
    };
    Some(ReceiverDecoder::new(factory, memory))
}

/// The first decoder of a family that is bound to a GPU.
pub open spec fn bound_decoder(
    gpu: GpuAdapter,
    family: ElementFamily,
    preferred: ReceiverMemory,
    registry: ElementRegistry,
) -> Option<DecoderModel> {
    match search::first(
        registry.family(family),
        |n: ElementName| registry.luid(n.name@) == Some(gpu.luid),
    ) {
        Some(found) => {
            let decoder = if text::starts_with(found.name@, "nvh264"@) {
                nvdec(found.name@, registry)
            } else {
                preferring(found.name@, preferred, registry)
            };
            match decoder {
                Some(model) => Some(DecoderModel { adapter_luid: Some(gpu.luid), ..model }),
                None => None,
            }
        },
        None => None,
    }
}

/// Picks the first decoder of a family that is bound to a GPU.
pub fn family_decoder_on_gpu(
    gpu: &GpuAdapter,
    family: ElementFamily,
    preferred: ReceiverMemory,
    registry: &ElementRegistry,
) -> (r: Option<ReceiverDecoder>)
    ensures
        is_decoder(r, bound_decoder(*gpu, family, preferred, *registry)),
{
    let names = registry.family_elements(family);
    let ghost p = |n: ElementName| registry.luid(n.name@) == Some(gpu.luid);
    let mut i: usize = 0;
    proof {
        search::lemma_first_done(names@, p);
    }
    while i < names.len()
        invariant
            i <= names.len(),
            names@ == registry.family(family),
            p == (|n: ElementName| registry.luid(n.name@) == Some(gpu.luid)),
            search::first(names@.take(i as int), p) is None,
        decreases names.len() - i,
    {
        proof {
            search::lemma_first_step(names@, p, i as int);
        }
        let bound = match registry.element_adapter_luid(&names[i].name) {
            Some(luid) => luid == gpu.luid,
            None => false,
        };
        if bound {
            let factory = &names[i].name;
            let decoder = if text::has_prefix(&text::chars_of(factory), "nvh264") {
                nvidia_decoder(factory, registry)
            } else {
                decoder_with_preferred_memory(factory, preferred, registry)
            };
            return match decoder {
                Some(decoder) => Some(decoder.with_adapter_luid(gpu.luid)),
                None => None,
            };
        }
        i += 1;
    }
    proof {
        search::lemma_first_done(names@, p);
    }
    None
}

pub open spec fn only_adapter(selected: GpuAdapter, adapters: Seq<GpuAdapter>) -> bool {
    adapters.len() == 1 && adapters[0].luid == selected.luid
}

/// Whether a GPU is the only one of the machine.
pub fn selected_is_only_adapter(selected: &GpuAdapter, adapters: &Vec<GpuAdapter>) -> (r: bool)
    ensures
        r == only_adapter(*selected, adapters@),
{
    adapters.len() == 1 && adapters[0].luid == selected.luid
}

/// The adapters of one vendor.
pub open spec fn of_vendor(vendor: GpuVendor, adapters: Seq<GpuAdapter>) -> Seq<GpuAdapter> {
    search::kept(adapters, |a: GpuAdapter| gpu::vendor_of(a.vendor_id) == vendor)
}

pub open spec fn only_vendor_adapter(selected: GpuAdapter, adapters: Seq<GpuAdapter>) -> bool {
    only_adapter(selected, of_vendor(gpu::vendor_of(selected.vendor_id), adapters))
}

/// Whether a GPU is the only one of its vendor.
pub fn selected_is_only_vendor_adapter(selected: &GpuAdapter, adapters: &Vec<GpuAdapter>) -> (r:
    bool)
    ensures
        r == only_vendor_adapter(*selected, adapters@),
{
    let vendor = selected.vendor();
    let ghost p = |a: GpuAdapter| gpu::vendor_of(a.vendor_id) == vendor;
    let mut count: usize = 0;
    let mut first_luid: i64 = 0;
    let mut i: usize = 0;
    proof {
        search::lemma_kept_done(adapters@, p);
    }
    while i < adapters.len()
        invariant
            i <= adapters.len(),
            p == (|a: GpuAdapter| gpu::vendor_of(a.vendor_id) == vendor),
            count <= i,
            count == search::kept(adapters@.take(i as int), p).len(),
            count > 0 ==> first_luid == search::kept(adapters@.take(i as int), p)[0].luid,
        decreases adapters.len() - i,
    {
        proof {
            search::lemma_kept_step(adapters@, p, i as int);
        }
        if adapters[i].vendor() == vendor {
            if count == 0 {
                first_luid = adapters[i].luid;
            }
            count += 1;
        }
        i += 1;
    }
    proof {
        search::lemma_kept_done(adapters@, p);
    }
    count == 1 && first_luid == selected.luid
}

pub open spec fn d3d11_on(gpu: GpuAdapter, registry: ElementRegistry) -> Option<DecoderModel> {
    bound_decoder(gpu, ElementFamily::D3d11Decoder, ReceiverMemory::D3d11, registry)
}

/// The D3D11 decoder of a GPU.
pub fn d3d11_decoder_on_gpu(gpu: &GpuAdapter, registry: &ElementRegistry) -> (r: Option<
    ReceiverDecoder,
>)
    ensures
        is_decoder(r, d3d11_on(*gpu, *registry)),
{
    family_decoder_on_gpu(gpu, ElementFamily::D3d11Decoder, ReceiverMemory::D3d11, registry)
}

pub open spec fn d3d12_on(gpu: GpuAdapter, registry: ElementRegistry) -> Option<DecoderModel> {
    match bound_decoder(gpu, ElementFamily::D3d12Decoder, ReceiverMemory::D3d12, registry) {
        Some(model) => if model.memory == ReceiverMemory::D3d12 {
            Some(model)
        } else {
            None
        },
        None => None,
    }
}

/// The D3D12 decoder of a GPU, where it gives frames in D3D12 memory.
pub fn d3d12_decoder_on_gpu(gpu: &GpuAdapter, registry: &ElementRegistry) -> (r: Option<
    ReceiverDecoder,
>)
    ensures
        is_decoder(r, d3d12_on(*gpu, *registry)),
{
    match family_decoder_on_gpu(
        gpu,
        ElementFamily::D3d12Decoder,
        ReceiverMemory::D3d12,
        registry,
    ) {
        Some(decoder) => match decoder.memory {
            ReceiverMemory::D3d12 => Some(decoder),
            _ => None,
        },
        None => None,
    }
}

pub open spec fn nvidia_on(
    gpu: GpuAdapter,
    adapters: Seq<GpuAdapter>,
    registry: ElementRegistry,
) -> Option<DecoderModel> {
    search::or(
        bound_decoder(gpu, ElementFamily::NvidiaDecoder, ReceiverMemory::D3d11, registry),
        if only_vendor_adapter(gpu, adapters) {
            nvdec("nvh264dec"@, registry)
        } else {
            None
        },
    )
}

/// The NVDEC decoder of a GPU. The base element is safe only where no other GPU of the vendor
/// could be behind it.
pub fn nvidia_decoder_on_gpu(
    gpu: &GpuAdapter,
    adapters: &Vec<GpuAdapter>,
    registry: &ElementRegistry,
) -> (r: Option<ReceiverDecoder>)
    ensures
        is_decoder(r, nvidia_on(*gpu, adapters@, *registry)),
{
    if let Some(decoder) = family_decoder_on_gpu(
        gpu,
        ElementFamily::NvidiaDecoder,
        ReceiverMemory::D3d11,
        registry,
    ) {
        return Some(decoder);
    }
    if selected_is_only_vendor_adapter(gpu, adapters) {
        nvidia_decoder("nvh264dec", registry)
    } else {
        None
    }
}

pub open spec fn quick_sync_on(
    gpu: GpuAdapter,
    adapters: Seq<GpuAdapter>,
    registry: ElementRegistry,
) -> Option<DecoderModel> {
    search::or(
        bound_decoder(gpu, ElementFamily::QuickSyncDecoder, ReceiverMemory::D3d11, registry),
        if only_vendor_adapter(gpu, adapters) {
            preferring("qsvh264dec"@, ReceiverMemory::D3d11, registry)
        } else {
            None
        },
    )
}

/// The Quick Sync decoder of a GPU.
pub fn qsv_decoder_on_gpu(
    gpu: &GpuAdapter,
    adapters: &Vec<GpuAdapter>,
    registry: &ElementRegistry,
) -> (r: Option<ReceiverDecoder>)
    ensures
        is_decoder(r, quick_sync_on(*gpu, adapters@, *registry)),
{
    if let Some(decoder) = family_decoder_on_gpu(
        gpu,
        ElementFamily::QuickSyncDecoder,
        ReceiverMemory::D3d11,
        registry,
    ) {
        return Some(decoder);
    }
    if selected_is_only_vendor_adapter(gpu, adapters) {
        decoder_with_preferred_memory("qsvh264dec", ReceiverMemory::D3d11, registry)
    } else {
        None
    }
}

/// A decoder, where its element is installed.
pub open spec fn required(
    model: DecoderModel,
    registry: ElementRegistry,
) -> Result<DecoderModel, Seq<char>> {
    if registry.has(model.factory) {
        Ok(model)
    } else {
        Err(elements::missing_element_text(model.factory))
    }
}

fn require_decoder(decoder: ReceiverDecoder, registry: &ElementRegistry) -> (r: Result<
    ReceiverDecoder,
    PipelineError,
>)
    ensures
        gives_decoder(r, required(decoder@, *registry)),
{
    match registry.require_element(&decoder.factory) {
        Ok(_) => Ok(decoder),
        Err(error) => Err(error),
    }
}

/// The base D3D11 decoder.
pub open spec fn base_d3d11() -> DecoderModel {
    plain_decoder("d3d11h264dec"@, ReceiverMemory::D3d11)
}

/// The decoder for an explicit request for D3D11: one that is bound to the selected GPU, or the
/// base element where the selected GPU is the only one or none is selected.
pub open spec fn explicit_d3d11(
    gpu: Option<GpuAdapter>,
    adapters: Seq<GpuAdapter>,
    registry: ElementRegistry,
) -> Result<DecoderModel, Seq<char>> {
    match gpu {
        Some(gpu) => match d3d11_on(gpu, registry) {
            Some(model) => Ok(model),
            None => if only_adapter(gpu, adapters) {
                required(base_d3d11(), registry)
            } else {
                Err(elements::foreign_decoder_text(gpu.description@))
            },
        },
        None => required(base_d3d11(), registry),
    }
}

/// The decoder without a request for one: that of the selected GPU under D3D11, the base element
/// where there is no other GPU it could run on, the vendor's own, or one whose frames are in
/// system memory, which cannot cross adapters.
pub open spec fn auto_decoder(
    gpu: Option<GpuAdapter>,
    adapters: Seq<GpuAdapter>,
    registry: ElementRegistry,
) -> Result<DecoderModel, Seq<char>> {
    let system = DecoderModel {
        memory: ReceiverMemory::System,
        ..plain_decoder("decodebin"@, ReceiverMemory::Negotiated)
    };
    match gpu {
        Some(gpu) => match d3d11_on(gpu, registry) {
            Some(model) => Ok(model),
            None => if only_adapter(gpu, adapters) && registry.has("d3d11h264dec"@) {
                Ok(base_d3d11())
            } else {
                let vendor_decoder = match gpu::vendor_of(gpu.vendor_id) {
                    GpuVendor::Nvidia => nvidia_on(gpu, adapters, registry),
                    GpuVendor::Intel => quick_sync_on(gpu, adapters, registry),
                    _ => None,
                };
                match vendor_decoder {
                    Some(model) => Ok(model),
                    None => required(system, registry),
                }
            },
        },
        None => if registry.has("d3d11h264dec"@) {
            Ok(base_d3d11())
        } else {
            required(system, registry)
        },
    }
}

/// The decoder of a receiver.
pub open spec fn chosen_decoder(
    requested: Decoder,
    gpu: Option<GpuAdapter>,
    adapters: Seq<GpuAdapter>,
    registry: ElementRegistry,
) -> Result<DecoderModel, Seq<char>> {
    match requested {
        Decoder::D3d11 => explicit_d3d11(gpu, adapters, registry),
        Decoder::Avdec => required(
            plain_decoder("avdec_h264"@, ReceiverMemory::Negotiated),
            registry,
        ),
        Decoder::Software => match software(registry) {
            Some(model) => Ok(model),
            None => Err(elements::no_software_decoder_text()),
        },
        Decoder::Auto => auto_decoder(gpu, adapters, registry),
    }
}

/// Picks the decoder of a receiver.
pub fn select_decoder(
    requested: Decoder,
    gpu: Option<&GpuAdapter>,
    adapters: &Vec<GpuAdapter>,
    registry: &ElementRegistry,
) -> (r: Result<ReceiverDecoder, PipelineError>)
    ensures
        gives_decoder(
            r,
            chosen_decoder(requested, elements::pointee(gpu), adapters@, *registry),
        ),
{
    match requested {
        Decoder::D3d11 => {
            if let Some(gpu) = gpu {
                if let Some(decoder) = d3d11_decoder_on_gpu(gpu, registry) {
                    return Ok(decoder);
                }
                if !selected_is_only_adapter(gpu, adapters) {
                    return Err(
                        PipelineError::ForeignDecoder { description: gpu.description.clone() },
                    );
                }
            }
            require_decoder(ReceiverDecoder::new("d3d11h264dec", ReceiverMemory::D3d11), registry)
        },
        Decoder::Avdec => require_decoder(
            ReceiverDecoder::new("avdec_h264", ReceiverMemory::Negotiated),
            registry,
        ),
        Decoder::Software => match software_decoder(registry) {
            Some(decoder) => Ok(decoder),
            None => Err(PipelineError::NoSoftwareDecoder),
        },
        Decoder::Auto => {
            match gpu {
                Some(gpu) => {
                    if let Some(decoder) = d3d11_decoder_on_gpu(gpu, registry) {
                        return Ok(decoder);
                    }
                    if selected_is_only_adapter(gpu, adapters) && registry.has_element(
                        "d3d11h264dec",
                    ) {
                        return Ok(ReceiverDecoder::new("d3d11h264dec", ReceiverMemory::D3d11));
                    }
                    let vendor_decoder = match receiver_gpu_profile(Some(gpu)) {
                        ReceiverGpuProfile::Nvidia => nvidia_decoder_on_gpu(
                            gpu,
                            adapters,
                            registry,
                        ),
                        ReceiverGpuProfile::Intel => qsv_decoder_on_gpu(gpu, adapters, registry),
                        _ => None,
                    };
                    if let Some(decoder) = vendor_decoder {
                        return Ok(decoder);
                    }
                },
                None => {
                    if registry.has_element("d3d11h264dec") {
                        return Ok(ReceiverDecoder::new("d3d11h264dec", ReceiverMemory::D3d11));
                    }
                },
            }
            let decoder = ReceiverDecoder::new("decodebin", ReceiverMemory::Negotiated);
            require_decoder(decoder.with_system_memory(), registry)
        },
    }
}

/// A selected GPU never draws from the memory of another one. The decoder that is chosen
/// automatically for it is bound to it, or the GPU is the machine's only one or the only one of
/// its vendor, or the frames come in system memory.
pub proof fn law_automatic_decoder_stays_on_the_selected_gpu(
    gpu: GpuAdapter,
    adapters: Seq<GpuAdapter>,
    registry: ElementRegistry,
)
    ensures
        chosen_decoder(Decoder::Auto, Some(gpu), adapters, registry) matches Ok(model) ==> {
            ||| model.adapter_luid == Some(gpu.luid)
            ||| only_adapter(gpu, adapters)
            ||| only_vendor_adapter(gpu, adapters)
            ||| model.memory == ReceiverMemory::System
        },
{
}

/// A decoder that is bound to a GPU is an element of the family that reports that GPU, and there is
/// one wherever the family has such an element. Its frames are in the preferred memory exactly
/// where it can give them there; NVDEC gives them under D3D11 whatever is preferred.
pub proof fn law_bound_decoder_runs_on_the_gpu(
    gpu: GpuAdapter,
    family: ElementFamily,
    preferred: ReceiverMemory,
    registry: ElementRegistry,
    k: int,
)
    requires
        0 <= k < registry.family(family).len(),
        registry.luid(registry.family(family)[k].name@) == Some(gpu.luid),
    ensures
        bound_decoder(gpu, family, preferred, registry) matches Some(model) && {
            &&& model.adapter_luid == Some(gpu.luid)
            &&& registry.luid(model.factory) == Some(gpu.luid)
            &&& exists|i: int|
                0 <= i < registry.family(family).len() && (#[trigger] registry.family(
                    family,
                )[i]).name@ == model.factory
            &&& !text::starts_with(model.factory, "nvh264"@) ==> {
                &&& model.memory == preferred || model.memory == ReceiverMemory::Negotiated
                &&& model.memory == preferred <== registry.gives_memory(model.factory, preferred)
                &&& model.memory == ReceiverMemory::Negotiated <== !registry.gives_memory(
                    model.factory,
                    preferred,
                )
            }
            &&& text::starts_with(model.factory, "nvh264"@) ==> model.memory == (
            if registry.gives_memory(model.factory, ReceiverMemory::D3d11) {
                ReceiverMemory::D3d11
            } else {
                ReceiverMemory::Negotiated
            })
        },
{
    let names = registry.family(family);
    let p = |n: ElementName| registry.luid(n.name@) == Some(gpu.luid);
    assert(p(names[k]));
    search::lemma_first_exists(names, p, k);
}

/// A decoder that was asked for by name is used, or nothing is. Software decoding prefers openh264
/// and gives its frames in system memory. D3D11 decodes on the selected GPU: with an element that is
/// bound to it, or with the base element where there is no other GPU.
pub proof fn law_requested_decoder_is_used(
    gpu: Option<GpuAdapter>,
    adapters: Seq<GpuAdapter>,
    registry: ElementRegistry,
)
    ensures
        match chosen_decoder(Decoder::Avdec, gpu, adapters, registry) {
            Ok(model) => model.factory == "avdec_h264"@ && registry.has(model.factory)
                && model.memory == ReceiverMemory::Negotiated,
            Err(_) => !registry.has("avdec_h264"@),
        },
        match chosen_decoder(Decoder::Software, gpu, adapters, registry) {
            Ok(model) => registry.has(model.factory) && model.memory == ReceiverMemory::System && (
            model.factory == "openh264dec"@ || (model.factory == "avdec_h264"@ && !registry.has(
                "openh264dec"@,
            ))),
            Err(_) => !registry.has("openh264dec"@) && !registry.has("avdec_h264"@),
        },
        match chosen_decoder(Decoder::D3d11, gpu, adapters, registry) {
            Ok(model) => match gpu {
                Some(gpu) => d3d11_on(gpu, registry) == Some(model) || (d3d11_on(gpu, registry)
                    is None && model.factory == "d3d11h264dec"@ && registry.has(model.factory)
                    && model.memory == ReceiverMemory::D3d11 && forall|i: int|
                    0 <= i < adapters.len() ==> (#[trigger] adapters[i]).luid == gpu.luid),
                None => model.factory == "d3d11h264dec"@ && registry.has(model.factory)
                    && model.memory == ReceiverMemory::D3d11,
            },
            Err(_) => match gpu {
                Some(gpu) => d3d11_on(gpu, registry) is None && (!registry.has("d3d11h264dec"@)
                    || !only_adapter(gpu, adapters)),
                None => !registry.has("d3d11h264dec"@),
            },
        },
{
}

/// Without a request a GPU decodes under D3D11 where an element is bound to it, then with the base
/// element where no other GPU could take it over, then with NVDEC on a card of NVIDIA or Quick Sync
/// on one of Intel; only then is GStreamer left to pick, with frames in system memory.
pub proof fn law_automatic_decoder_prefers_d3d11(
    gpu: GpuAdapter,
    adapters: Seq<GpuAdapter>,
    registry: ElementRegistry,
)
    ensures
        ({
            let chosen = chosen_decoder(Decoder::Auto, Some(gpu), adapters, registry);
            let bound = d3d11_on(gpu, registry);
            let base = only_adapter(gpu, adapters) && registry.has("d3d11h264dec"@);
            let nvidia = gpu.vendor_id == 0x10DE && nvidia_on(gpu, adapters, registry) is Some;
            let intel = gpu.vendor_id == 0x8086 && quick_sync_on(gpu, adapters, registry) is Some;
            &&& bound is Some ==> chosen == Ok::<DecoderModel, Seq<char>>(bound->0)
            &&& bound is None && base ==> (chosen matches Ok(model) && model.factory
                == "d3d11h264dec"@ && model.memory == ReceiverMemory::D3d11)
            &&& bound is None && !base && nvidia ==> chosen == Ok::<DecoderModel, Seq<char>>(
                nvidia_on(gpu, adapters, registry)->0,
            )
            &&& bound is None && !base && intel ==> chosen == Ok::<DecoderModel, Seq<char>>(
                quick_sync_on(gpu, adapters, registry)->0,
            )
            &&& bound is None && !base && !nvidia && !intel ==> match chosen {
                Ok(model) => model.factory == "decodebin"@ && model.memory
                    == ReceiverMemory::System && registry.has(model.factory),
                Err(_) => !registry.has("decodebin"@),
            }
        }),
        match chosen_decoder(Decoder::Auto, None, adapters, registry) {
            Ok(model) => registry.has(model.factory) && (model.factory == "d3d11h264dec"@
                && model.memory == ReceiverMemory::D3d11 || model.factory == "decodebin"@
                && model.memory == ReceiverMemory::System && !registry.has("d3d11h264dec"@)),
            Err(_) => !registry.has("d3d11h264dec"@) && !registry.has("decodebin"@),
        },
{
}

/// The vendor's own decoder on a GPU is the one of its family that is bound to it. The base element
/// stands in for it only where the GPU is the only one of its vendor.
pub proof fn law_vendor_decoders_stay_on_the_gpu(
    gpu: GpuAdapter,
    adapters: Seq<GpuAdapter>,
    registry: ElementRegistry,
    i: int,
    j: int,
)
    requires
        0 <= i < adapters.len(),
        0 <= j < adapters.len(),
        adapters[i].luid != gpu.luid || i != j,
        gpu::vendor_of(adapters[i].vendor_id) == gpu::vendor_of(gpu.vendor_id),
        gpu::vendor_of(adapters[j].vendor_id) == gpu::vendor_of(gpu.vendor_id),
    ensures
        nvidia_on(gpu, adapters, registry) == bound_decoder(
            gpu,
            ElementFamily::NvidiaDecoder,
            ReceiverMemory::D3d11,
            registry,
        ),
        quick_sync_on(gpu, adapters, registry) == bound_decoder(
            gpu,
            ElementFamily::QuickSyncDecoder,
            ReceiverMemory::D3d11,
            registry,
        ),
{
    let vendor = gpu::vendor_of(gpu.vendor_id);
    let p = |a: GpuAdapter| gpu::vendor_of(a.vendor_id) == vendor;
    let kept = of_vendor(vendor, adapters);
    search::lemma_kept_sound(adapters, p);
    assert(p(adapters[i]) && p(adapters[j]));
    if only_adapter(gpu, kept) {
        lemma_kept_pair(adapters, p, i, j);
    }
}

proof fn lemma_kept_pair(s: Seq<GpuAdapter>, p: spec_fn(GpuAdapter) -> bool, i: int, j: int)
    requires
        0 <= i < s.len(),
        0 <= j < s.len(),
        p(s[i]),
        p(s[j]),
    ensures
        i != j ==> search::kept(s, p).len() >= 2,
        search::kept(s, p).contains(s[i]),
    decreases s.len(),
{
    let rest = s.drop_last();
    search::lemma_kept_sound(s, p);
    if i != j {
        let low = if i < j {
            i
        } else {
            j
        };
        let high = if i < j {
            j
        } else {
            i
        };
        if high < rest.len() {
            lemma_kept_pair(rest, p, i, j);
        } else {
            lemma_kept_pair(rest, p, low, low);
        }
    }
}

/// The D3D12 sink on a GPU.
pub open spec fn d3d12_sink_text(fullscreen: bool, sampling: Sampling, gpu: GpuAdapter) -> Seq<
    char,
> {
    "d3d12videosink name="@ + RECEIVER_VIDEO_SINK_NAME@ + " adapter="@ + text::dec(gpu.index as nat)
        + " sync=false async=false qos=true enable-last-sample=false sampling-method="@
        + sampling.method_text() + (if fullscreen {
        " fullscreen=true"@
    } else {
        ""@
    })
}

pub open spec fn d3d12_sink(
    fullscreen: bool,
    sampling: Sampling,
    gpu: GpuAdapter,
    registry: ElementRegistry,
) -> Option<Seq<char>> {
    if registry.takes_memory("d3d12videosink"@, ReceiverMemory::D3d12) {
        Some(d3d12_sink_text(fullscreen, sampling, gpu))
    } else {
        None
    }
}

/// The D3D12 sink on a GPU, where it takes frames in D3D12 memory.
pub fn d3d12_sink_on_gpu(
    fullscreen: bool,
    sampling: Sampling,
    gpu: &GpuAdapter,
    registry: &ElementRegistry,
) -> (r: Option<String>)
    ensures
        match r {
            Some(sink) => d3d12_sink(fullscreen, sampling, *gpu, *registry) == Some(sink@),
            None => d3d12_sink(fullscreen, sampling, *gpu, *registry) is None,
        },
{
    if !registry.factory_supports_raw_memory_sink("d3d12videosink", ReceiverMemory::D3d12) {
        return None;
    }
    let mut out = "d3d12videosink name=".to_owned();
    out.push_str(RECEIVER_VIDEO_SINK_NAME);
    out.push_str(" adapter=");
    text::push_dec(&mut out, gpu.index as u64);
    out.push_str(" sync=false async=false qos=true enable-last-sample=false sampling-method=");
    out.push_str(sampling.method());
    out.push_str(if fullscreen {
        " fullscreen=true"
    } else {
        ""
    });
    Some(out)
}

/// The D3D11 sink, on a GPU where one is selected.
pub open spec fn d3d11_sink_text(
    fullscreen: bool,
    sampling: Sampling,
    gpu: Option<GpuAdapter>,
) -> Seq<char> {
    "d3d11videosink name="@ + RECEIVER_VIDEO_SINK_NAME@ + (match gpu {
        Some(gpu) => " adapter="@ + text::dec(gpu.index as nat),
        None => Seq::empty(),
    }) + " sync=false async=false qos=true enable-last-sample=false sampling-method="@
        + sampling.method_text() + (if fullscreen {
        " fullscreen-toggle-mode=property fullscreen=true"@
    } else {
        ""@
    })
}

/// The sink that GStreamer picks.
pub open spec fn auto_sink_text() -> Seq<char> {
    "autovideosink name="@ + RECEIVER_VIDEO_SINK_NAME@ + " sync=false async=false"@
}

pub open spec fn chosen_sink(
    requested: Sink,
    fullscreen: bool,
    sampling: Sampling,
    gpu: Option<GpuAdapter>,
    registry: ElementRegistry,
) -> Result<Seq<char>, Seq<char>> {
    match requested {
        Sink::Auto => if registry.has("d3d11videosink"@) {
            Ok(d3d11_sink_text(fullscreen, sampling, gpu))
        } else {
            Ok(auto_sink_text())
        },
        Sink::D3d11 => if registry.has("d3d11videosink"@) {
            Ok(d3d11_sink_text(fullscreen, sampling, gpu))
        } else {
            Err(elements::missing_element_text("d3d11videosink"@))
        },
        Sink::AutoVideo => Ok(auto_sink_text()),
    }
}

/// Picks the video sink of a receiver.
pub fn select_sink(
    requested: Sink,
    fullscreen: bool,
    sampling: Sampling,
    gpu: Option<&GpuAdapter>,
    registry: &ElementRegistry,
) -> (r: Result<String, PipelineError>)
    ensures
        gives_text(
            r,
            chosen_sink(requested, fullscreen, sampling, elements::pointee(gpu), *registry),
        ),
{
    let installed = registry.has_element("d3d11videosink");
    let plain = match requested {
        Sink::Auto => !installed,
        Sink::AutoVideo => true,
        Sink::D3d11 => false,
    };
    if plain {
        let mut out = "autovideosink name=".to_owned();
        out.push_str(RECEIVER_VIDEO_SINK_NAME);
        out.push_str(" sync=false async=false");
        return Ok(out);
    }
    if !installed {
        return Err(PipelineError::MissingElement { name: "d3d11videosink".to_owned() });
    }
    let mut adapter = String::new();
    if let Some(gpu) = gpu {
        adapter.push_str(" adapter=");
        text::push_dec(&mut adapter, gpu.index as u64);
        assert(adapter@ == " adapter="@ + text::dec(gpu.index as nat));
    }
    let mut out = "d3d11videosink name=".to_owned();
    out.push_str(RECEIVER_VIDEO_SINK_NAME);
    out.push_str(&adapter);
    out.push_str(" sync=false async=false qos=true enable-last-sample=false sampling-method=");
    out.push_str(sampling.method());
    out.push_str(if fullscreen {
        " fullscreen-toggle-mode=property fullscreen=true"
    } else {
        ""
    });
    Ok(out)
}

/// A decoder and the sink that draws what it decodes.
#[derive(Debug)]
pub struct ReceiverVideoRoute {
    pub decoder: ReceiverDecoder,
    pub sink: String,
}

/// A route by what it says.
pub struct RouteModel {
    pub decoder: DecoderModel,
    pub sink: Seq<char>,
}

impl View for ReceiverVideoRoute {
    type V = RouteModel;

    open spec fn view(&self) -> RouteModel {
        RouteModel { decoder: self.decoder@, sink: self.sink@ }
    }
}

impl RouteModel {
    pub open spec fn d3d12(self) -> bool {
        self.decoder.memory == ReceiverMemory::D3d12 && text::starts_with(
            self.sink,
            "d3d12videosink"@,
        )
    }
}

impl ReceiverVideoRoute {
    pub fn uses_d3d12(&self) -> (r: bool)
        ensures
            r == self@.d3d12(),
    {
        match self.decoder.memory {
            ReceiverMemory::D3d12 => text::has_prefix(
                &text::chars_of(&self.sink),
                "d3d12videosink",
            ),
            _ => false,
        }
    }
}

proof fn lemma_sink_keys()
    ensures
        text::ends_with(" adapter="@, " adapter="@),
        reading::ends_numbers(" sync=false async=false qos=true enable-last-sample=false sampling-method="@),
        " sync=false async=false qos=true enable-last-sample=false sampling-method="@.len() > 0,
        text::ends_with(
            " sync=false async=false qos=true enable-last-sample=false sampling-method="@,
            " sampling-method="@,
        ),
        text::ends_with(" fullscreen=true"@, " fullscreen=true"@),
        text::ends_with(" fullscreen-toggle-mode=property fullscreen=true"@, " fullscreen=true"@),
        ""@.len() == 0,
        text::starts_with("d3d11videosink name="@, "d3d11videosink"@),
        text::starts_with("d3d12videosink name="@, "d3d12videosink"@),
        text::starts_with("autovideosink name="@, "autovideosink"@),
{
    reveal_strlit(" adapter=");
    reveal_strlit(" sync=false async=false qos=true enable-last-sample=false sampling-method=");
    reveal_strlit(" sampling-method=");
    reveal_strlit(" fullscreen=true");
    reveal_strlit(" fullscreen-toggle-mode=property fullscreen=true");
    reveal_strlit("");
    reveal_strlit("d3d11videosink name=");
    reveal_strlit("d3d12videosink name=");
    reveal_strlit("autovideosink name=");
    reveal_strlit("d3d11videosink");
    reveal_strlit("d3d12videosink");
    reveal_strlit("autovideosink");
    assert(" adapter="@.subrange(0, 9) == " adapter="@);
    let rest = " sync=false async=false qos=true enable-last-sample=false sampling-method="@;
    assert(rest.subrange(rest.len() - 17, rest.len() as int) == " sampling-method="@);
    assert(" fullscreen=true"@.subrange(0, 16) == " fullscreen=true"@);
    let whole = " fullscreen-toggle-mode=property fullscreen=true"@;
    assert(whole.subrange(whole.len() - 16, whole.len() as int) == " fullscreen=true"@);
    assert("d3d11videosink name="@.subrange(0, 14) == "d3d11videosink"@);
    assert("d3d12videosink name="@.subrange(0, 14) == "d3d12videosink"@);
    assert("autovideosink name="@.subrange(0, 13) == "autovideosink"@);
}

/// A sink draws on the selected GPU, with the sampling that was asked for, and over the whole
/// screen exactly where that was asked for.
pub proof fn law_sinks_carry_their_settings(
    fullscreen: bool,
    sampling: Sampling,
    gpu: GpuAdapter,
)
    ensures
        ({
            let modern = d3d12_sink_text(fullscreen, sampling, gpu);
            let sink = d3d11_sink_text(fullscreen, sampling, Some(gpu));
            let free = d3d11_sink_text(fullscreen, sampling, None);
            let method = match sampling {
                Sampling::Auto => "linear-minification"@,
                Sampling::Linear => "bilinear"@,
                Sampling::Point => "nearest-neighbour"@,
            };
            &&& text::starts_with(modern, "d3d12videosink"@)
            &&& text::starts_with(sink, "d3d11videosink"@)
            &&& text::starts_with(free, "d3d11videosink"@)
            &&& reading::tells(modern, " adapter="@, gpu.index as nat)
            &&& reading::tells(sink, " adapter="@, gpu.index as nat)
            &&& text::contains(modern, " sampling-method="@ + method)
            &&& text::contains(sink, " sampling-method="@ + method)
            &&& text::contains(free, " sampling-method="@ + method)
            &&& fullscreen ==> text::ends_with(modern, " fullscreen=true"@) && text::ends_with(
                sink,
                " fullscreen=true"@,
            ) && text::ends_with(free, " fullscreen=true"@)
            &&& !fullscreen ==> text::ends_with(modern, method) && text::ends_with(sink, method)
                && text::ends_with(free, method)
        }),
        text::starts_with(auto_sink_text(), "autovideosink"@),
{
    lemma_sink_keys();
    lemma_modern_sink(fullscreen, sampling, gpu);
    lemma_plain_sink(fullscreen, sampling, Some(gpu));
    lemma_plain_sink(fullscreen, sampling, None);
    reading::lemma_starts("autovideosink name="@, "autovideosink"@, RECEIVER_VIDEO_SINK_NAME@);
    reading::lemma_starts(
        "autovideosink name="@ + RECEIVER_VIDEO_SINK_NAME@,
        "autovideosink"@,
        " sync=false async=false"@,
    );
}

proof fn lemma_ends_in(before: Seq<char>, last: Seq<char>, end: Seq<char>)
    requires
        text::ends_with(last, end),
    ensures
        text::ends_with(before + last, end),
{
    let s = before + last;
    assert(s.subrange(s.len() - end.len(), s.len() as int) == last.subrange(
        last.len() - end.len(),
        last.len() as int,
    ));
}

proof fn lemma_modern_sink(fullscreen: bool, sampling: Sampling, gpu: GpuAdapter)
    ensures
        ({
            let sink = d3d12_sink_text(fullscreen, sampling, gpu);
            &&& text::starts_with(sink, "d3d12videosink"@)
            &&& reading::tells(sink, " adapter="@, gpu.index as nat)
            &&& text::contains(sink, " sampling-method="@ + sampling.method_text())
            &&& fullscreen ==> text::ends_with(sink, " fullscreen=true"@)
            &&& !fullscreen ==> text::ends_with(sink, sampling.method_text())
        }),
{
    let sink = d3d12_sink_text(fullscreen, sampling, gpu);
    let parts = Seq::<Seq<char>>::empty().push("d3d12videosink name="@).push(
        RECEIVER_VIDEO_SINK_NAME@,
    ).push(" adapter="@).push(text::dec(gpu.index as nat)).push(
        " sync=false async=false qos=true enable-last-sample=false sampling-method="@,
    ).push(sampling.method_text()).push(
        if fullscreen {
            " fullscreen=true"@
        } else {
            ""@
        },
    );
    reading::lemma_cat_push();
    assert(sink == reading::cat(parts));
    lemma_sink_keys();
    reading::lemma_part_tells(parts, 3, " adapter="@, gpu.index as nat);
    reading::lemma_part_behind(parts, 5, " sampling-method="@);
    reading::lemma_cat_ends(parts);
    let start = "d3d12videosink name="@;
    assert(sink == start + sink.skip(start.len() as int)) by {
        assert(sink.subrange(0, start.len() as int) == start);
    }
    reading::lemma_starts(start, "d3d12videosink"@, sink.skip(start.len() as int));
    if !fullscreen {
        let shorter = parts.drop_last();
        assert(parts.last() == Seq::<char>::empty());
        assert(sink == reading::cat(shorter));
        reading::lemma_cat_ends(shorter);
    }
}

proof fn lemma_plain_sink(fullscreen: bool, sampling: Sampling, gpu: Option<GpuAdapter>)
    ensures
        ({
            let sink = d3d11_sink_text(fullscreen, sampling, gpu);
            &&& text::starts_with(sink, "d3d11videosink"@)
            &&& gpu is Some ==> reading::tells(sink, " adapter="@, gpu->0.index as nat)
            &&& text::contains(sink, " sampling-method="@ + sampling.method_text())
            &&& fullscreen ==> text::ends_with(sink, " fullscreen=true"@)
            &&& !fullscreen ==> text::ends_with(sink, sampling.method_text())
        }),
{
    let sink = d3d11_sink_text(fullscreen, sampling, gpu);
    let adapter = match gpu {
        Some(gpu) => " adapter="@ + text::dec(gpu.index as nat),
        None => Seq::empty(),
    };
    let parts = Seq::<Seq<char>>::empty().push("d3d11videosink name="@).push(
        RECEIVER_VIDEO_SINK_NAME@,
    ).push(adapter).push(
        " sync=false async=false qos=true enable-last-sample=false sampling-method="@,
    ).push(sampling.method_text()).push(
        if fullscreen {
            " fullscreen-toggle-mode=property fullscreen=true"@
        } else {
            ""@
        },
    );
    reading::lemma_cat_push();
    assert(sink == reading::cat(parts));
    lemma_sink_keys();
    if let Some(gpu) = gpu {
        reading::lemma_tells(Seq::empty(), " adapter="@, gpu.index as nat, Seq::empty());
        assert(Seq::<char>::empty() + " adapter="@ + text::dec(gpu.index as nat) + Seq::<
            char,
        >::empty() == adapter);
        reading::lemma_part_within(parts, 2, " adapter="@, gpu.index as nat);
    }
    reading::lemma_part_behind(parts, 4, " sampling-method="@);
    reading::lemma_cat_ends(parts);
    let start = "d3d11videosink name="@;
    assert(sink == start + sink.skip(start.len() as int)) by {
        assert(sink.subrange(0, start.len() as int) == start);
    }
    reading::lemma_starts(start, "d3d11videosink"@, sink.skip(start.len() as int));
    if fullscreen {
        let last = parts.last();
        let before = sink.take(sink.len() - last.len());
        assert(sink == before + last) by {
            assert(sink.subrange(sink.len() - last.len(), sink.len() as int) == last);
        }
        lemma_ends_in(before, last, " fullscreen=true"@);
    } else {
        let shorter = parts.drop_last();
        assert(parts.last() == Seq::<char>::empty());
        assert(sink == reading::cat(shorter));
        reading::lemma_cat_ends(shorter);
    }
}

pub open spec fn tries_d3d12(decoder: Decoder, sink: Sink, gpu: Option<GpuAdapter>) -> bool {
    &&& decoder == Decoder::Auto
    &&& sink == Sink::Auto
    &&& gpu is Some
    &&& gpu::vendor_of(gpu->0.vendor_id) == GpuVendor::Intel
}

/// Whether the D3D12 route is worth a look: only on Intel GPUs, and only when neither the decoder
/// nor the sink was asked for.
pub fn should_try_modern_intel_d3d12(
    requested_decoder: Decoder,
    requested_sink: Sink,
    gpu: Option<&GpuAdapter>,
) -> (r: bool)
    ensures
        r == tries_d3d12(requested_decoder, requested_sink, elements::pointee(gpu)),
{
    requested_decoder == Decoder::Auto && requested_sink == Sink::Auto && match gpu {
        Some(gpu) => gpu.vendor() == GpuVendor::Intel,
        None => false,
    }
}

/// The D3D12 route of a GPU, where both of its ends are there.
pub open spec fn d3d12_route(
    fullscreen: bool,
    sampling: Sampling,
    gpu: Option<GpuAdapter>,
    registry: ElementRegistry,
) -> Option<RouteModel> {
    match gpu {
        Some(gpu) => match (
            d3d12_on(gpu, registry),
            d3d12_sink(fullscreen, sampling, gpu, registry),
        ) {
            (Some(decoder), Some(sink)) => Some(RouteModel { decoder, sink }),
            _ => None,
        },
        None => None,
    }
}

/// The route of a receiver: the D3D12 one where it may be tried and is complete, or else the
/// decoder and the sink that each choice gives. What is wrong with the decoder is reported first.
pub open spec fn chosen_route(
    decoder: Decoder,
    sink: Sink,
    fullscreen: bool,
    sampling: Sampling,
    gpu: Option<GpuAdapter>,
    allow_modern_intel_d3d12: bool,
    adapters: Seq<GpuAdapter>,
    registry: ElementRegistry,
) -> Result<RouteModel, Seq<char>> {
    let modern = d3d12_route(fullscreen, sampling, gpu, registry);
    if allow_modern_intel_d3d12 && tries_d3d12(decoder, sink, gpu) && modern is Some {
        Ok(modern->0)
    } else {
        match chosen_decoder(decoder, gpu, adapters, registry) {
            Ok(decoder) => match chosen_sink(sink, fullscreen, sampling, gpu, registry) {
                Ok(sink) => Ok(RouteModel { decoder, sink }),
                Err(message) => Err(message),
            },
            Err(message) => Err(message),
        }
    }
}

/// Picks the route of a receiver.
pub fn select_receiver_route(
    requested_decoder: Decoder,
    requested_sink: Sink,
    fullscreen: bool,
    sampling: Sampling,
    gpu: Option<&GpuAdapter>,
    allow_modern_intel_d3d12: bool,
    adapters: &Vec<GpuAdapter>,
    registry: &ElementRegistry,
) -> (r: Result<ReceiverVideoRoute, PipelineError>)
    ensures
        match (
            r,
            chosen_route(
                requested_decoder,
                requested_sink,
                fullscreen,
                sampling,
                elements::pointee(gpu),
                allow_modern_intel_d3d12,
                adapters@,
                *registry,
            ),
        ) {
            (Ok(route), Ok(model)) => route@ == model,
            (Err(error), Err(message)) => error.text() == message,
            _ => false,
        },
{
    if allow_modern_intel_d3d12 && should_try_modern_intel_d3d12(
        requested_decoder,
        requested_sink,
        gpu,
    ) {
        if let Some(adapter) = gpu {
            if let Some(decoder) = d3d12_decoder_on_gpu(adapter, registry) {
                if let Some(sink) = d3d12_sink_on_gpu(fullscreen, sampling, adapter, registry) {
                    return Ok(ReceiverVideoRoute { decoder, sink });
                }
            }
        }
    }
    let decoder = match select_decoder(requested_decoder, gpu, adapters, registry) {
        Ok(decoder) => decoder,
        Err(error) => return Err(error),
    };
    let sink = match select_sink(requested_sink, fullscreen, sampling, gpu, registry) {
        Ok(sink) => sink,
        Err(error) => return Err(error),
    };
    Ok(ReceiverVideoRoute { decoder, sink })
}

/// A route takes D3D12 from end to end or not at all. It takes D3D12 exactly where nothing else was
/// asked for, the GPU is one of Intel and has both ends of that route, and D3D12 is allowed.
pub proof fn law_d3d12_is_for_intel_alone(
    decoder: Decoder,
    sink: Sink,
    fullscreen: bool,
    sampling: Sampling,
    gpu: Option<GpuAdapter>,
    allow_modern_intel_d3d12: bool,
    adapters: Seq<GpuAdapter>,
    registry: ElementRegistry,
)
    ensures
        chosen_route(
            decoder,
            sink,
            fullscreen,
            sampling,
            gpu,
            allow_modern_intel_d3d12,
            adapters,
            registry,
        ) matches Ok(route) ==> {
            &&& text::starts_with(route.sink, "d3d12videosink"@) <==> {
                &&& allow_modern_intel_d3d12
                &&& decoder == Decoder::Auto && sink == Sink::Auto
                &&& gpu is Some && gpu->0.vendor_id == 0x8086
                &&& d3d12_on(gpu->0, registry) is Some
                &&& registry.takes_memory("d3d12videosink"@, ReceiverMemory::D3d12)
            }
            &&& route.d3d12() <==> text::starts_with(route.sink, "d3d12videosink"@)
            &&& route.d3d12() ==> route.decoder.adapter_luid == Some(gpu->0.luid) && reading::tells(
                route.sink,
                " adapter="@,
                gpu->0.index as nat,
            )
        },
{
    if let Ok(route) = chosen_route(
        decoder,
        sink,
        fullscreen,
        sampling,
        gpu,
        allow_modern_intel_d3d12,
        adapters,
        registry,
    ) {
        if gpu is Some {
            lemma_modern_sink(fullscreen, sampling, gpu->0);
            lemma_plain_sink(fullscreen, sampling, gpu);
        } else {
            lemma_plain_sink(fullscreen, sampling, None);
        }
        let names = RECEIVER_VIDEO_SINK_NAME@;
        lemma_sink_keys();
        reading::lemma_starts("autovideosink name="@, "autovideosink"@, names);
        reading::lemma_starts(
            "autovideosink name="@ + names,
            "autovideosink"@,
            " sync=false async=false"@,
        );
        lemma_sinks_are_told_apart(route.sink);
    }
}

proof fn lemma_sinks_are_told_apart(sink: Seq<char>)
    ensures
        !(text::starts_with(sink, "d3d11videosink"@) && text::starts_with(sink, "d3d12videosink"@)),
        !(text::starts_with(sink, "autovideosink"@) && text::starts_with(sink, "d3d12videosink"@)),
{
    reveal_strlit("d3d11videosink");
    reveal_strlit("d3d12videosink");
    reveal_strlit("autovideosink");
    let (a, b, c) = ("d3d11videosink"@, "d3d12videosink"@, "autovideosink"@);
    if text::starts_with(sink, b) {
        assert(sink.subrange(0, b.len() as int)[4] == b[4]);
        assert(sink.subrange(0, b.len() as int)[0] == b[0]);
        if text::starts_with(sink, a) {
            assert(sink.subrange(0, a.len() as int)[4] == a[4]);
        }
        if text::starts_with(sink, c) {
            assert(sink.subrange(0, c.len() as int)[0] == c[0]);
        }
    }
}

/// Frames stay on the GPU between a decoder and a sink exactly where both use the same graphics
/// interface; frames in system memory are never called GPU frames.
pub proof fn law_frames_stay_where_both_ends_agree(decoder: DecoderModel, sink: Seq<char>)
    ensures
        ({
            let caps = decoder.output_caps(sink);
            let d3d11 = decoder.memory == ReceiverMemory::D3d11 && text::starts_with(
                sink,
                "d3d11videosink"@,
            );
            let d3d12 = decoder.memory == ReceiverMemory::D3d12 && text::starts_with(
                sink,
                "d3d12videosink"@,
            );
            &&& d3d11 ==> caps == " ! video/x-raw(memory:D3D11Memory),format=NV12"@
                && decoder.memory_label(sink) == "D3D11Memory/NV12"@
            &&& d3d12 ==> caps == " ! video/x-raw(memory:D3D12Memory),format=NV12"@
                && decoder.memory_label(sink) == "D3D12Memory/NV12"@
            &&& decoder.memory == ReceiverMemory::System ==> caps == " ! video/x-raw"@
                && decoder.memory_label(sink) == "system-memory"@
            &&& !d3d11 && !d3d12 && decoder.memory != ReceiverMemory::System ==> caps.len() == 0
                && decoder.memory_label(sink) == "negotiated"@
        }),
{
    reveal_strlit("");
}

/// A GPU's profile goes by its vendor, and only the D3D12 route of Intel has a name of its own.
pub proof fn law_profiles_go_by_vendor(gpu: GpuAdapter, memory: ReceiverMemory)
    ensures
        ({
            let label = profile_of(Some(gpu)).route_label_text(memory);
            &&& gpu.vendor_id == 0x10DE ==> label == "nvidia"@
            &&& gpu.vendor_id == 0x1002 || gpu.vendor_id == 0x1022 ==> label == "amd"@
            &&& gpu.vendor_id == 0x8086 && memory == ReceiverMemory::D3d12 ==> label
                == "intel-modern-d3d12"@
            &&& gpu.vendor_id == 0x8086 && memory != ReceiverMemory::D3d12 ==> label == "intel"@
        }),
        profile_of(None).route_label_text(memory) == "other"@,
{
}

/// A sink that was asked for is used. D3D11 draws wherever it is installed and nothing else was
/// asked for; GStreamer picks a sink only where it is not, or where that was asked for.
pub proof fn law_requested_sink_is_used(
    fullscreen: bool,
    sampling: Sampling,
    gpu: Option<GpuAdapter>,
    registry: ElementRegistry,
)
    ensures
        ({
            let installed = registry.has("d3d11videosink"@);
            let auto = chosen_sink(Sink::Auto, fullscreen, sampling, gpu, registry);
            let asked = chosen_sink(Sink::D3d11, fullscreen, sampling, gpu, registry);
            let free = chosen_sink(Sink::AutoVideo, fullscreen, sampling, gpu, registry);
            &&& auto is Ok && free is Ok
            &&& asked is Ok <==> installed
            &&& text::starts_with(auto->Ok_0, "d3d11videosink"@) <==> installed
            &&& !installed ==> text::starts_with(auto->Ok_0, "autovideosink"@)
            &&& installed ==> asked == auto
            &&& text::starts_with(free->Ok_0, "autovideosink"@)
            &&& installed && gpu is Some ==> reading::tells(
                auto->Ok_0,
                " adapter="@,
                gpu->0.index as nat,
            )
            &&& installed ==> (text::ends_with(auto->Ok_0, " fullscreen=true"@) <== fullscreen)
            &&& installed && !fullscreen ==> text::ends_with(auto->Ok_0, sampling.method_text())
        }),
{
    lemma_plain_sink(fullscreen, sampling, gpu);
    lemma_sink_keys();
    let names = RECEIVER_VIDEO_SINK_NAME@;
    reading::lemma_starts("autovideosink name="@, "autovideosink"@, names);
    reading::lemma_starts(
        "autovideosink name="@ + names,
        "autovideosink"@,
        " sync=false async=false"@,
    );
    lemma_auto_is_not_d3d11(auto_sink_text());
}

proof fn lemma_auto_is_not_d3d11(sink: Seq<char>)
    ensures
        !(text::starts_with(sink, "autovideosink"@) && text::starts_with(sink, "d3d11videosink"@)),
{
    reveal_strlit("d3d11videosink");
    reveal_strlit("autovideosink");
    let (a, c) = ("d3d11videosink"@, "autovideosink"@);
    if text::starts_with(sink, a) && text::starts_with(sink, c) {
        assert(sink.subrange(0, a.len() as int)[0] == a[0]);
        assert(sink.subrange(0, c.len() as int)[0] == c[0]);
    }
}

} // verus!
