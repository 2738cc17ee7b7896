//! The H.264 encoder of a sender.
use crate::elements::{
    self, Encoder, ElementFamily, ElementName, ElementRegistry, NvidiaTuning, PipelineError,
    ReceiverMemory, SENDER_VIDEO_ENCODER_NAME,
};
use crate::gpu::{self, GpuAdapter, GpuVendor};
use crate::lan;
use crate::monitors::{self, DisplayMonitor};
use crate::reading;
use crate::search;
use crate::text;
use vstd::prelude::*;

verus! {

#[derive(Clone, Copy, Debug, PartialEq, Eq, Structural)]
pub enum EncoderFamily {
    Nvidia,
    Amf,
    MediaFoundation,
    QuickSync,
    X264,
}

impl EncoderFamily {
    pub open spec fn base_text(self) -> Seq<char> {
        match self {
            EncoderFamily::Nvidia => "nvd3d11h264enc"@,
            EncoderFamily::Amf => "amfh264enc"@,
            EncoderFamily::MediaFoundation => "mfh264enc"@,
            EncoderFamily::QuickSync => "qsvh264enc"@,
            EncoderFamily::X264 => "x264enc"@,
        }
    }

    /// Base element of the family. GStreamer registers one variant per GPU, named by inserting
    /// `deviceN` before the trailing role, so the base element is the device-0 variant.
    pub fn base_element(self) -> (r: &'static str)
        ensures
            r@ == self.base_text(),
    {
        match self {
            EncoderFamily::Nvidia => "nvd3d11h264enc",
            EncoderFamily::Amf => "amfh264enc",
            EncoderFamily::MediaFoundation => "mfh264enc",
            EncoderFamily::QuickSync => "qsvh264enc",
            EncoderFamily::X264 => "x264enc",
        }
    }

    pub open spec fn elements(self) -> ElementFamily {
        match self {
            EncoderFamily::Nvidia => ElementFamily::NvidiaEncoder,
            EncoderFamily::Amf => ElementFamily::AmfEncoder,
            EncoderFamily::MediaFoundation => ElementFamily::MediaFoundationEncoder,
            EncoderFamily::QuickSync => ElementFamily::QuickSyncEncoder,
            EncoderFamily::X264 => ElementFamily::X264Encoder,
        }
    }

    /// The elements that make up the family.
    pub fn element_family(self) -> (r: ElementFamily)
        ensures
            r == self.elements(),
    {
        match self {
            EncoderFamily::Nvidia => ElementFamily::NvidiaEncoder,
            EncoderFamily::Amf => ElementFamily::AmfEncoder,
            EncoderFamily::MediaFoundation => ElementFamily::MediaFoundationEncoder,
            EncoderFamily::QuickSync => ElementFamily::QuickSyncEncoder,
            EncoderFamily::X264 => ElementFamily::X264Encoder,
        }
    }

    /// Hardware families in the order they should be tried for one GPU vendor.
    pub open spec fn preferred(vendor: GpuVendor) -> Seq<EncoderFamily> {
        match vendor {
            GpuVendor::Nvidia => seq![EncoderFamily::Nvidia, EncoderFamily::MediaFoundation],
            GpuVendor::Amd => seq![EncoderFamily::Amf, EncoderFamily::MediaFoundation],
            GpuVendor::Intel => seq![EncoderFamily::QuickSync, EncoderFamily::MediaFoundation],
            GpuVendor::Other => seq![
                EncoderFamily::Nvidia,
                EncoderFamily::QuickSync,
                EncoderFamily::Amf,
                EncoderFamily::MediaFoundation,
            ],
        }
    }

    /// Lists the hardware families in the order they should be tried for one GPU vendor.
    pub fn preferred_for(vendor: GpuVendor) -> (r: Vec<EncoderFamily>)
        ensures
            r@ == Self::preferred(vendor),
    {
        let mut families: Vec<EncoderFamily> = Vec::new();
        match vendor {
            GpuVendor::Nvidia => {
                families.push(EncoderFamily::Nvidia);
            },
            GpuVendor::Amd => {
                families.push(EncoderFamily::Amf);
            },
            GpuVendor::Intel => {
                families.push(EncoderFamily::QuickSync);
            },
            GpuVendor::Other => {
                families.push(EncoderFamily::Nvidia);
                families.push(EncoderFamily::QuickSync);
                families.push(EncoderFamily::Amf);
            },
        }
        families.push(EncoderFamily::MediaFoundation);
        assert(families@ == Self::preferred(vendor));
        families
    }
}

/// An encoder element, and the GPU it is bound to when it advertises one.
#[derive(Debug)]
pub struct SelectedEncoder {
    pub family: EncoderFamily,
    pub element: String,
    pub adapter_luid: Option<i64>,
}

/// The variant of a family that is bound to a GPU, or else the family's default variant.
pub open spec fn encoder_on(
    family: EncoderFamily,
    gpu: Option<GpuAdapter>,
    registry: ElementRegistry,
) -> Option<SelectedEncoder> {
    let names = registry.family(family.elements());
    let bound = match gpu {
        Some(gpu) => search::first(
            names,
            |n: ElementName| registry.luid(n.name@) == Some(gpu.luid),
        ),
        None => None,
    };
    if names.len() == 0 {
        None
    } else {
        match bound {
            Some(found) => Some(
                SelectedEncoder { family, element: found.name, adapter_luid: Some(gpu->0.luid) },
            ),
            None => Some(
                SelectedEncoder {
                    family,
                    element: names[0].name,
                    adapter_luid: registry.luid(names[0].name@),
                },
            ),
        }
    }
}

/// Picks the family variant bound to the requested GPU, falling back to the family's default
/// variant when nothing advertises that GPU.
pub fn encoder_on_gpu(
    family: EncoderFamily,
    gpu: Option<&GpuAdapter>,
    registry: &ElementRegistry,
) -> (r: Option<SelectedEncoder>)
    ensures
        r == encoder_on(family, elements::pointee(gpu), *registry),
{
    let names = registry.family_elements(family.element_family());
    if names.len() == 0 {
        return None;
    }
    if let Some(adapter) = gpu {
        let ghost p = |n: ElementName| registry.luid(n.name@) == Some(adapter.luid);
        let mut i: usize = 0;
        proof {
            search::lemma_first_done(names@, p);
        }
        while i < names.len()
            invariant
                i <= names.len(),
                names.len() > 0,
                elements::pointee(gpu) == Some(*adapter),
                names@ == registry.family(family.elements()),
                p == (|n: ElementName| registry.luid(n.name@) == Some(adapter.luid)),
                search::first(names@.take(i as int), p) is None,
            decreases names.len() - i,
        {
            proof {
                search::lemma_first_step(names@, p, i as int);
            }
            let bound = match registry.element_adapter_luid(&names[i].name) {
                Some(luid) => luid == adapter.luid,
                None => false,
            };
            if bound {
                return Some(
                    SelectedEncoder {
                        family,
                        element: names[i].name.clone(),
                        adapter_luid: Some(adapter.luid),
                    },
                );
            }
            i += 1;
        }
        proof {
            search::lemma_first_done(names@, p);
        }
    }
    let element = names[0].name.clone();
    let adapter_luid = registry.element_adapter_luid(&element);
    Some(SelectedEncoder { family, element, adapter_luid })
}

/// The first family, in order, that has an element.
pub open spec fn first_encoder(
    families: Seq<EncoderFamily>,
    gpu: Option<GpuAdapter>,
    registry: ElementRegistry,
) -> Option<SelectedEncoder>
    decreases families.len(),
{
    if families.len() == 0 {
        None
    } else {
        search::or(
            first_encoder(families.drop_last(), gpu, registry),
            encoder_on(families.last(), gpu, registry),
        )
    }
}

proof fn lemma_first_encoder_in_prefix(
    families: Seq<EncoderFamily>,
    gpu: Option<GpuAdapter>,
    registry: ElementRegistry,
    k: int,
)
    requires
        0 <= k <= families.len(),
        first_encoder(families.take(k), gpu, registry) is Some,
    ensures
        first_encoder(families, gpu, registry) == first_encoder(families.take(k), gpu, registry),
    decreases families.len() - k,
{
    if k == families.len() {
        assert(families.take(k) == families);
    } else {
        assert(families.take(k + 1).drop_last() == families.take(k));
        lemma_first_encoder_in_prefix(families, gpu, registry, k + 1);
    }
}

/// The hardware families to try without a request for one of them.
pub open spec fn auto_families(gpu: Option<GpuAdapter>) -> Seq<EncoderFamily> {
    match gpu {
        Some(gpu) => EncoderFamily::preferred(gpu::vendor_of(gpu.vendor_id)),
        None => EncoderFamily::preferred(GpuVendor::Other),
    }
}

/// The encoder that is used without a request for one: a hardware one, or, where that is
/// permitted, the software one.
pub open spec fn auto_encoder(
    allow_software_encoder: bool,
    gpu: Option<GpuAdapter>,
    registry: ElementRegistry,
) -> Result<SelectedEncoder, Seq<char>> {
    match first_encoder(auto_families(gpu), gpu, registry) {
        Some(encoder) => Ok(encoder),
        None => if allow_software_encoder {
            match encoder_on(EncoderFamily::X264, None, registry) {
                Some(encoder) => Ok(encoder),
                None => Err(elements::missing_element_text("x264enc"@)),
            }
        } else {
            Err(elements::no_gpu_encoder_text())
        },
    }
}

/// Whether a result is the expected one: the same value, or an error with the expected message.
pub open spec fn gives<T>(r: Result<T, PipelineError>, expected: Result<T, Seq<char>>) -> bool {
    match (r, expected) {
        (Ok(value), Ok(wanted)) => value == wanted,
        (Err(error), Err(message)) => error.text() == message,
        _ => false,
    }
}

/// Picks the encoder that is used without a request for one.
pub fn first_available_encoder(
    allow_software_encoder: bool,
    gpu: Option<&GpuAdapter>,
    registry: &ElementRegistry,
) -> (r: Result<SelectedEncoder, PipelineError>)
    ensures
        gives(r, auto_encoder(allow_software_encoder, elements::pointee(gpu), *registry)),
{
    let families = match gpu {
        Some(gpu) => EncoderFamily::preferred_for(gpu.vendor()),
        None => EncoderFamily::preferred_for(GpuVendor::Other),
    };
    let ghost adapter = elements::pointee(gpu);
    let mut i: usize = 0;
    assert(families@.take(0) == Seq::<EncoderFamily>::empty());
    while i < families.len()
        invariant
            i <= families.len(),
            adapter == elements::pointee(gpu),
            families@ == auto_families(adapter),
            first_encoder(families@.take(i as int), adapter, *registry) is None,
        decreases families.len() - i,
    {
        assert(families@.take(i + 1).drop_last() == families@.take(i as int));
        if let Some(encoder) = encoder_on_gpu(families[i], gpu, registry) {
            proof {
                lemma_first_encoder_in_prefix(families@, adapter, *registry, i + 1);
            }
            return Ok(encoder);
        }
        i += 1;
    }
    assert(families@.take(families@.len() as int) == families@);
    if allow_software_encoder {
        return match encoder_on_gpu(EncoderFamily::X264, None, registry) {
            Some(encoder) => Ok(encoder),
            None => Err(PipelineError::MissingElement { name: "x264enc".to_owned() }),
        };
    }
    Err(PipelineError::NoGpuEncoder)
}

/// The family that a request names.
pub open spec fn requested_family(requested: Encoder) -> Option<EncoderFamily> {
    match requested {
        Encoder::Auto => None,
        Encoder::Nvidia => Some(EncoderFamily::Nvidia),
        Encoder::Amf => Some(EncoderFamily::Amf),
        Encoder::MediaFoundation => Some(EncoderFamily::MediaFoundation),
        Encoder::QuickSync => Some(EncoderFamily::QuickSync),
        Encoder::X264 => Some(EncoderFamily::X264),
    }
}

/// The encoder of a sender.
pub open spec fn chosen_encoder(
    requested: Encoder,
    allow_software_encoder: bool,
    gpu: Option<GpuAdapter>,
    registry: ElementRegistry,
) -> Result<SelectedEncoder, Seq<char>> {
    match requested_family(requested) {
        None => auto_encoder(allow_software_encoder, gpu, registry),
        Some(family) => match encoder_on(family, gpu, registry) {
            Some(encoder) => Ok(encoder),
            None => Err(elements::missing_element_text(family.base_text())),
        },
    }
}

/// Picks the encoder: the requested family, or without a request the best that is there.
pub fn select_encoder(
    requested: Encoder,
    allow_software_encoder: bool,
    gpu: Option<&GpuAdapter>,
    registry: &ElementRegistry,
) -> (r: Result<SelectedEncoder, PipelineError>)
    ensures
        gives(
            r,
            chosen_encoder(requested, allow_software_encoder, elements::pointee(gpu), *registry),
        ),
{
    let family = match requested {
        Encoder::Auto => {
            return first_available_encoder(allow_software_encoder, gpu, registry);
        },
        Encoder::Nvidia => EncoderFamily::Nvidia,
        Encoder::Amf => EncoderFamily::Amf,
        Encoder::MediaFoundation => EncoderFamily::MediaFoundation,
        Encoder::QuickSync => EncoderFamily::QuickSync,
        Encoder::X264 => EncoderFamily::X264,
    };
    match encoder_on_gpu(family, gpu, registry) {
        Some(encoder) => Ok(encoder),
        None => Err(PipelineError::MissingElement { name: family.base_element().to_owned() }),
    }
}

proof fn lemma_first_encoder_sound(
    families: Seq<EncoderFamily>,
    gpu: Option<GpuAdapter>,
    registry: ElementRegistry,
)
    ensures
        first_encoder(families, gpu, registry) matches Some(encoder) ==> exists|i: int|
            0 <= i < families.len() && encoder_on(#[trigger] families[i], gpu, registry) == Some(
                encoder,
            ),
    decreases families.len(),
{
    if families.len() > 0 {
        let rest = families.drop_last();
        lemma_first_encoder_sound(rest, gpu, registry);
        match first_encoder(rest, gpu, registry) {
            Some(encoder) => {
                let i = choose|i: int|
                    0 <= i < rest.len() && encoder_on(#[trigger] rest[i], gpu, registry) == Some(
                        encoder,
                    );
                assert(families[i] == rest[i]);
            },
            None => {
                assert(families[families.len() - 1] == families.last());
            },
        }
    }
}

/// Without permission for software encoding an automatic choice is never the CPU encoder, and a
/// CPU encoder that is chosen automatically means that no hardware family had an element.
pub proof fn law_automatic_choice_never_silently_uses_the_cpu(
    allow_software_encoder: bool,
    gpu: Option<GpuAdapter>,
    registry: ElementRegistry,
)
    ensures
        chosen_encoder(Encoder::Auto, allow_software_encoder, gpu, registry) matches Ok(encoder)
            ==> (encoder.family == EncoderFamily::X264 ==> allow_software_encoder && first_encoder(
            auto_families(gpu),
            gpu,
            registry,
        ) is None),
{
    lemma_first_encoder_sound(auto_families(gpu), gpu, registry);
}

/// Whether a family has an element on this machine.
pub open spec fn installed(family: EncoderFamily, registry: ElementRegistry) -> bool {
    registry.family(family.elements()).len() > 0
}

proof fn lemma_first_of_two(
    a: EncoderFamily,
    b: EncoderFamily,
    gpu: Option<GpuAdapter>,
    registry: ElementRegistry,
)
    ensures
        first_encoder(seq![a, b], gpu, registry) == search::or(
            encoder_on(a, gpu, registry),
            encoder_on(b, gpu, registry),
        ),
{
    reveal_with_fuel(first_encoder, 3);
    assert(seq![a, b].drop_last() == seq![a]);
    assert(seq![a].drop_last() == Seq::<EncoderFamily>::empty());
}

/// With an automatic encoder the GPU's own hardware encodes wherever it can: NVENC on a card of
/// NVIDIA, AMF on one of AMD, Quick Sync on one of Intel. Media Foundation takes its place only
/// where that has no element, the CPU only where both have none and it is permitted.
pub proof fn law_automatic_encoder_is_the_vendors_own(
    gpu: GpuAdapter,
    own: EncoderFamily,
    allow_software_encoder: bool,
    registry: ElementRegistry,
)
    requires
        gpu.vendor_id == 0x10DE ==> own == EncoderFamily::Nvidia,
        gpu.vendor_id == 0x1002 || gpu.vendor_id == 0x1022 ==> own == EncoderFamily::Amf,
        gpu.vendor_id == 0x8086 ==> own == EncoderFamily::QuickSync,
        gpu.vendor_id == 0x10DE || gpu.vendor_id == 0x1002 || gpu.vendor_id == 0x1022
            || gpu.vendor_id == 0x8086,
    ensures
        ({
            let chosen = chosen_encoder(Encoder::Auto, allow_software_encoder, Some(gpu), registry);
            if installed(own, registry) {
                chosen matches Ok(encoder) && encoder.family == own
            } else if installed(EncoderFamily::MediaFoundation, registry) {
                chosen matches Ok(encoder) && encoder.family == EncoderFamily::MediaFoundation
            } else if allow_software_encoder && installed(EncoderFamily::X264, registry) {
                chosen matches Ok(encoder) && encoder.family == EncoderFamily::X264
            } else {
                chosen is Err
            }
        }),
{
    lemma_first_of_two(own, EncoderFamily::MediaFoundation, Some(gpu), registry);
}

/// Where the vendor of the GPU is unknown, or no GPU is, the hardware encoders are tried in one
/// order: NVENC, Quick Sync, AMF, Media Foundation.
pub proof fn law_automatic_encoder_without_a_vendor(
    gpu: Option<GpuAdapter>,
    allow_software_encoder: bool,
    registry: ElementRegistry,
)
    requires
        gpu matches Some(adapter) ==> adapter.vendor_id != 0x10DE && adapter.vendor_id != 0x1002
            && adapter.vendor_id != 0x1022 && adapter.vendor_id != 0x8086,
    ensures
        ({
            let chosen = chosen_encoder(Encoder::Auto, allow_software_encoder, gpu, registry);
            if installed(EncoderFamily::Nvidia, registry) {
                chosen matches Ok(encoder) && encoder.family == EncoderFamily::Nvidia
            } else if installed(EncoderFamily::QuickSync, registry) {
                chosen matches Ok(encoder) && encoder.family == EncoderFamily::QuickSync
            } else if installed(EncoderFamily::Amf, registry) {
                chosen matches Ok(encoder) && encoder.family == EncoderFamily::Amf
            } else if installed(EncoderFamily::MediaFoundation, registry) {
                chosen matches Ok(encoder) && encoder.family == EncoderFamily::MediaFoundation
            } else if allow_software_encoder && installed(EncoderFamily::X264, registry) {
                chosen matches Ok(encoder) && encoder.family == EncoderFamily::X264
            } else {
                chosen is Err
            }
        }),
{
    let families = seq![
        EncoderFamily::Nvidia,
        EncoderFamily::QuickSync,
        EncoderFamily::Amf,
        EncoderFamily::MediaFoundation,
    ];
    reveal_with_fuel(first_encoder, 5);
    let three = families.drop_last();
    let two = three.drop_last();
    assert(three.last() == EncoderFamily::Amf);
    assert(two == seq![EncoderFamily::Nvidia, EncoderFamily::QuickSync]);
    lemma_first_of_two(EncoderFamily::Nvidia, EncoderFamily::QuickSync, gpu, registry);
}

/// An encoder that was asked for is used wherever it has an element, whatever else there is, and
/// nothing takes its place where it has none.
pub proof fn law_requested_encoder_is_used(
    allow_software_encoder: bool,
    gpu: Option<GpuAdapter>,
    registry: ElementRegistry,
)
    ensures
        forall|requested: Encoder, family: EncoderFamily|
            #![trigger chosen_encoder(requested, allow_software_encoder, gpu, registry), installed(family, registry)]
            (requested == Encoder::Nvidia && family == EncoderFamily::Nvidia || requested
                == Encoder::Amf && family == EncoderFamily::Amf || requested
                == Encoder::MediaFoundation && family == EncoderFamily::MediaFoundation
                || requested == Encoder::QuickSync && family == EncoderFamily::QuickSync
                || requested == Encoder::X264 && family == EncoderFamily::X264) ==> {
                let chosen = chosen_encoder(requested, allow_software_encoder, gpu, registry);
                &&& installed(family, registry) <==> chosen is Ok
                &&& chosen matches Ok(encoder) ==> encoder.family == family
            },
{
}

/// An encoder is an element of its family. It is one that is bound to the GPU in question wherever
/// the family has one, and otherwise the first of the family.
pub proof fn law_encoder_is_bound_to_the_gpu(
    family: EncoderFamily,
    gpu: GpuAdapter,
    registry: ElementRegistry,
    k: int,
)
    requires
        0 <= k < registry.family(family.elements()).len(),
    ensures
        encoder_on(family, Some(gpu), registry) matches Some(encoder) && {
            let names = registry.family(family.elements());
            &&& encoder.adapter_luid == registry.luid(encoder.element@)
            &&& exists|i: int| 0 <= i < names.len() && (#[trigger] names[i]).name == encoder.element
            &&& registry.luid(names[k].name@) == Some(gpu.luid) ==> encoder.adapter_luid == Some(
                gpu.luid,
            )
            &&& encoder.adapter_luid != Some(gpu.luid) ==> encoder.element == names[0].name
        },
{
    let names = registry.family(family.elements());
    let p = |n: ElementName| registry.luid(n.name@) == Some(gpu.luid);
    search::lemma_first_sound(names, p);
    match search::first(names, p) {
        Some(found) => {
            let i = names.index_of(found);
            assert(names[i] == found);
            assert(p(found));
        },
        None => {
            assert(!p(names[k]));
            assert(names[0].name == names[0].name);
        },
    }
}

impl SelectedEncoder {
    pub open spec fn takes_d3d11(self, registry: ElementRegistry) -> bool {
        self.family != EncoderFamily::X264 && registry.takes_memory(
            self.element@,
            ReceiverMemory::D3d11,
        )
    }

    /// Whether captured frames can stay in D3D11 memory for this encoder.
    pub fn supports_d3d11_input(&self, registry: &ElementRegistry) -> (r: bool)
        ensures
            r == self.takes_d3d11(*registry),
    {
        match self.family {
            EncoderFamily::X264 => false,
            _ => registry.factory_supports_raw_memory_sink(&self.element, ReceiverMemory::D3d11),
        }
    }

    /// The settings of the encoder.
    pub open spec fn settings(
        self,
        bitrate: u32,
        fps: u32,
        nvidia_tuning: NvidiaTuning,
        monitors: Seq<DisplayMonitor>,
    ) -> Seq<Seq<char>> {
        let rate = text::dec(bitrate as nat);
        let gop = text::dec(fps as nat);
        match self.family {
            EncoderFamily::Nvidia => nvidia_settings(
                bitrate,
                fps,
                resolved_tuning(nvidia_tuning, monitors),
            ),
            EncoderFamily::Amf => seq![
                "bitrate="@ + rate,
                "max-bitrate="@ + rate,
                "gop-size="@ + gop,
                "usage=ultra-low-latency"@,
                "preset=speed"@,
                "rate-control=cbr"@,
                "aud=false"@,
            ],
            EncoderFamily::MediaFoundation => seq![
                "bitrate="@ + rate,
                "max-bitrate="@ + rate,
                "gop-size="@ + gop,
                "bframes=0"@,
                "low-latency=true"@,
                "rc-mode=cbr"@,
                "quality-vs-speed=0"@,
            ],
            EncoderFamily::QuickSync => seq![
                "bitrate="@ + rate,
                "gop-size="@ + gop,
                "b-frames=0"@,
                "rc-lookahead=0"@,
                "rate-control=cbr"@,
            ],
            EncoderFamily::X264 => seq![
                "bitrate="@ + rate,
                "speed-preset=ultrafast"@,
                "tune=zerolatency"@,
                "key-int-max="@ + gop,
                "bframes=0"@,
                "sliced-threads=true"@,
                "byte-stream=true"@,
            ],
        }
    }

    pub(crate) fn setting_list(
        &self,
        bitrate: u32,
        fps: u32,
        nvidia_tuning: NvidiaTuning,
        monitors: &Vec<DisplayMonitor>,
    ) -> (r: Vec<String>)
        ensures
            text::texts(r@) == self.settings(bitrate, fps, nvidia_tuning, monitors@),
    {
        let mut out: Vec<String> = Vec::new();
        match self.family {
            EncoderFamily::Nvidia => {
                let tuning = resolve_nvidia_tuning(nvidia_tuning, monitors);
                out = nvidia_encoder_properties(bitrate, fps, tuning);
            },
            EncoderFamily::Amf => {
                out.push(setting("bitrate=", bitrate));
                out.push(setting("max-bitrate=", bitrate));
                out.push(setting("gop-size=", fps));
                out.push("usage=ultra-low-latency".to_owned());
                out.push("preset=speed".to_owned());
                out.push("rate-control=cbr".to_owned());
                out.push("aud=false".to_owned());
            },
            EncoderFamily::MediaFoundation => {
                out.push(setting("bitrate=", bitrate));
                out.push(setting("max-bitrate=", bitrate));
                out.push(setting("gop-size=", fps));
                out.push("bframes=0".to_owned());
                out.push("low-latency=true".to_owned());
                out.push("rc-mode=cbr".to_owned());
                out.push("quality-vs-speed=0".to_owned());
            },
            EncoderFamily::QuickSync => {
                out.push(setting("bitrate=", bitrate));
                out.push(setting("gop-size=", fps));
                out.push("b-frames=0".to_owned());
                out.push("rc-lookahead=0".to_owned());
                out.push("rate-control=cbr".to_owned());
            },
            EncoderFamily::X264 => {
                out.push(setting("bitrate=", bitrate));
                out.push("speed-preset=ultrafast".to_owned());
                out.push("tune=zerolatency".to_owned());
                out.push(setting("key-int-max=", fps));
                out.push("bframes=0".to_owned());
                out.push("sliced-threads=true".to_owned());
                out.push("byte-stream=true".to_owned());
            },
        }
        assert(text::texts(out@) == self.settings(bitrate, fps, nvidia_tuning, monitors@));
        out
    }

    pub open spec fn chain_text(
        self,
        bitrate: u32,
        fps: u32,
        nvidia_tuning: NvidiaTuning,
        registry: ElementRegistry,
        monitors: Seq<DisplayMonitor>,
    ) -> Seq<char> {
        self.element@ + " name="@ + SENDER_VIDEO_ENCODER_NAME@ + accepted_settings(
            self.element@,
            self.settings(bitrate, fps, nvidia_tuning, monitors),
            registry,
        )
            + " ! video/x-h264,stream-format=byte-stream,alignment=au,profile=constrained-baseline"@
    }

    /// The encoder with its settings, and the caps of what it gives.
    pub fn chain(
        &self,
        bitrate: u32,
        fps: u32,
        nvidia_tuning: NvidiaTuning,
        registry: &ElementRegistry,
        monitors: &Vec<DisplayMonitor>,
    ) -> (r: String)
        ensures
            r@ == self.chain_text(bitrate, fps, nvidia_tuning, *registry, monitors@),
    {
        let settings = self.setting_list(bitrate, fps, nvidia_tuning, monitors);
        let accepted = supported_properties(&self.element, &settings, registry);
        let mut out = self.element.clone();
        out.push_str(" name=");
        out.push_str(SENDER_VIDEO_ENCODER_NAME);
        out.push_str(&accepted);
        out.push_str(
            " ! video/x-h264,stream-format=byte-stream,alignment=au,profile=constrained-baseline",
        );
        out
    }
}

fn setting(name: &str, value: u32) -> (r: String)
    ensures
        r@ == name@ + text::dec(value as nat),
{
    let mut out = name.to_owned();
    text::push_dec(&mut out, value as u64);
    out
}

/// The name of a setting: what stands before its equals sign.
pub open spec fn setting_name(setting: Seq<char>) -> Seq<char> {
    text::split(setting, '=')[0]
}

/// The settings that an element exposes, each after a space.
pub open spec fn accepted_settings(
    element: Seq<char>,
    settings: Seq<Seq<char>>,
    registry: ElementRegistry,
) -> Seq<char>
    decreases settings.len(),
{
    if settings.len() == 0 {
        Seq::empty()
    } else {
        let before = accepted_settings(element, settings.drop_last(), registry);
        if registry.accepts_property(element, setting_name(settings.last())) {
            before + " "@ + settings.last()
        } else {
            before
        }
    }
}

/// Keeps only the tuning knobs the element actually exposes, prefixed with a space each.
///
/// Media Foundation registers per-MFT property sets, so `mfh264enc` on one machine has `bframes`
/// and on the next it does not; naming a property the element lacks fails the whole pipeline parse
/// and leaves the sender with no stream at all. A missing knob costs some latency tuning, which is
/// a far better outcome, so it is dropped instead.
pub fn supported_properties(
    element: &str,
    properties: &Vec<String>,
    registry: &ElementRegistry,
) -> (r: String)
    ensures
        r@ == accepted_settings(element@, text::texts(properties@), *registry),
{
    let ghost all = text::texts(properties@);
    let mut kept = String::new();
    let mut i: usize = 0;
    assert(all.take(0) == Seq::<Seq<char>>::empty());
    while i < properties.len()
        invariant
            i <= properties.len(),
            all == text::texts(properties@),
            kept@ == accepted_settings(element@, all.take(i as int), *registry),
        decreases properties.len() - i,
    {
        assert(all.take(i + 1).drop_last() == all.take(i as int));
        assert(all.take(i + 1).last() == properties@[i as int]@);
        let parts = text::split_chars(&text::chars_of(&properties[i]), '=');
        let name = text::string_of(&parts[0]);
        assert(text::rows(parts@)[0] == parts@[0]@);
        if registry.accepts_element_property(element, &name) {
            kept.push_str(" ");
            kept.push_str(&properties[i]);
        }
        i += 1;
    }
    assert(all.take(all.len() as int) == all);
    kept
}

/// An encoder is described by its element and the settings that the element exposes, in order, each
/// behind a space; a setting that it does not expose leaves no trace.
pub proof fn law_only_exposed_settings_are_written(
    element: Seq<char>,
    settings: Seq<Seq<char>>,
    name: Seq<char>,
    value: Seq<char>,
    registry: ElementRegistry,
)
    requires
        lan::lacks(name, '='),
    ensures
        ({
            let before = accepted_settings(element, settings, registry);
            let after = accepted_settings(element, settings.push(name + "="@ + value), registry);
            after == if registry.accepts_property(element, name) {
                before + " "@ + name + "="@ + value
            } else {
                before
            }
        }),
        accepted_settings(element, Seq::empty(), registry).len() == 0,
{
    let setting = name + "="@ + value;
    reveal_strlit("=");
    assert("="@ == seq!['=']);
    reading::lemma_split_at(name, '=', value);
    reading::lemma_split_whole(name, '=');
    assert(text::split(setting, '=')[0] == name);
    assert(settings.push(setting).drop_last() == settings);
    let before = accepted_settings(element, settings, registry);
    assert(before + " "@ + setting == before + " "@ + name + "="@ + value);
}

/// Every encoder is told the bit rate and how many frames apart keyframes are, which is one second.
pub proof fn law_encoders_are_told_rate_and_keyframes(
    encoder: SelectedEncoder,
    bitrate: u32,
    fps: u32,
    tuning: NvidiaTuning,
    monitors: Seq<DisplayMonitor>,
)
    ensures
        ({
            let settings = encoder.settings(bitrate, fps, tuning, monitors);
            &&& settings.len() > 0 && settings[0] == "bitrate="@ + text::dec(bitrate as nat)
            &&& encoder.family == EncoderFamily::X264 ==> settings.contains(
                "key-int-max="@ + text::dec(fps as nat),
            ) && settings.contains("tune=zerolatency"@) && settings.contains("bframes=0"@)
            &&& encoder.family != EncoderFamily::X264 ==> settings.contains(
                "gop-size="@ + text::dec(fps as nat),
            )
            &&& encoder.family == EncoderFamily::Amf ==> settings.contains(
                "usage=ultra-low-latency"@,
            ) && settings.contains("preset=speed"@)
            &&& encoder.family == EncoderFamily::MediaFoundation ==> settings.contains(
                "low-latency=true"@,
            ) && settings.contains("quality-vs-speed=0"@)
            &&& encoder.family == EncoderFamily::QuickSync ==> settings.contains("b-frames=0"@)
                && settings.contains("rc-lookahead=0"@)
            &&& encoder.family == EncoderFamily::Nvidia ==> settings.contains("zerolatency=true"@)
                && settings.contains("bframes=0"@) && settings.contains("rc-lookahead=0"@)
        }),
{
    let settings = encoder.settings(bitrate, fps, tuning, monitors);
    match encoder.family {
        EncoderFamily::Nvidia => {
            assert(settings[3] == "gop-size="@ + text::dec(fps as nat));
            assert(settings[4] == "bframes=0"@);
            assert(settings[5] == "rc-lookahead=0"@);
            assert(settings[6] == "zerolatency=true"@);
        },
        EncoderFamily::Amf => {
            assert(settings[2] == "gop-size="@ + text::dec(fps as nat));
            assert(settings[3] == "usage=ultra-low-latency"@);
            assert(settings[4] == "preset=speed"@);
        },
        EncoderFamily::MediaFoundation => {
            assert(settings[2] == "gop-size="@ + text::dec(fps as nat));
            assert(settings[4] == "low-latency=true"@);
            assert(settings[6] == "quality-vs-speed=0"@);
        },
        EncoderFamily::QuickSync => {
            assert(settings[1] == "gop-size="@ + text::dec(fps as nat));
            assert(settings[2] == "b-frames=0"@);
            assert(settings[3] == "rc-lookahead=0"@);
        },
        EncoderFamily::X264 => {
            assert(settings[2] == "tune=zerolatency"@);
            assert(settings[3] == "key-int-max="@ + text::dec(fps as nat));
            assert(settings[4] == "bframes=0"@);
        },
    }
}

/// The tuning that a request amounts to on this machine.
pub open spec fn resolved_tuning(tuning: NvidiaTuning, monitors: Seq<DisplayMonitor>) -> NvidiaTuning {
    if tuning != NvidiaTuning::Auto {
        tuning
    } else {
        match monitors::nvidia_name(monitors) {
            None => NvidiaTuning::LowLatency,
            Some(name) => {
                let n = text::lower(name);
                if text::contains(n, " rtx"@) || text::contains(n, "rtx "@) || text::contains(
                    n,
                    "geforce rtx"@,
                ) {
                    NvidiaTuning::Rtx
                } else if text::contains(n, " gtx"@) || text::contains(n, "gtx "@)
                    || text::contains(n, "geforce gtx"@) {
                    NvidiaTuning::Gtx
                } else {
                    NvidiaTuning::LowLatency
                }
            },
        }
    }
}

/// Tells GTX and RTX cards apart where the tuning is left open.
pub fn resolve_nvidia_tuning(tuning: NvidiaTuning, monitors: &Vec<DisplayMonitor>) -> (r:
    NvidiaTuning)
    ensures
        r == resolved_tuning(tuning, monitors@),
{
    match tuning {
        NvidiaTuning::Auto => {},
        _ => {
            return tuning;
        },
    }
    let name = match monitors::detected_nvidia_gpu_name(monitors) {
        Some(name) => name,
        None => return NvidiaTuning::LowLatency,
    };
    let n = text::lowered(&text::chars_of(&name));
    if text::has_text(&n, " rtx") || text::has_text(&n, "rtx ") || text::has_text(
        &n,
        "geforce rtx",
    ) {
        NvidiaTuning::Rtx
    } else if text::has_text(&n, " gtx") || text::has_text(&n, "gtx ") || text::has_text(
        &n,
        "geforce gtx",
    ) {
        NvidiaTuning::Gtx
    } else {
        NvidiaTuning::LowLatency
    }
}

/// One frame's worth of the bitrate, but at least 128 kbit.
pub open spec fn vbv_size(bitrate: u32, fps: u32) -> int {
    let per_frame = bitrate as int / (if fps == 0 {
        1
    } else {
        fps as int
    });
    if per_frame < 128 {
        128
    } else {
        per_frame
    }
}

pub open spec fn nvidia_settings(bitrate: u32, fps: u32, tuning: NvidiaTuning) -> Seq<Seq<char>> {
    let rate = text::dec(bitrate as nat);
    let base = seq![
        "bitrate="@ + rate,
        "max-bitrate="@ + rate,
        "vbv-buffer-size="@ + text::dec(vbv_size(bitrate, fps) as nat),
        "gop-size="@ + text::dec(fps as nat),
        "bframes=0"@,
        "rc-lookahead=0"@,
        "zerolatency=true"@,
        "strict-gop=true"@,
        "aud=false"@,
        "repeat-sequence-header=true"@,
    ];
    if tuning == NvidiaTuning::Rtx {
        base + seq!["spatial-aq=true"@, "temporal-aq=true"@, "aq-strength=8"@]
    } else {
        base
    }
}

/// The settings of an NVENC encoder under a resolved tuning.
pub fn nvidia_encoder_properties(bitrate: u32, fps: u32, tuning: NvidiaTuning) -> (r: Vec<String>)
    ensures
        text::texts(r@) == nvidia_settings(bitrate, fps, tuning),
{
    let frames: u32 = if fps == 0 {
        1
    } else {
        fps
    };
    let per_frame: u32 = bitrate / frames;
    let vbv: u32 = if per_frame < 128 {
        128
    } else {
        per_frame
    };
    let mut out: Vec<String> = Vec::new();
    out.push(setting("bitrate=", bitrate));
    out.push(setting("max-bitrate=", bitrate));
    out.push(setting("vbv-buffer-size=", vbv));
    out.push(setting("gop-size=", fps));
    out.push("bframes=0".to_owned());
    out.push("rc-lookahead=0".to_owned());
    out.push("zerolatency=true".to_owned());
    out.push("strict-gop=true".to_owned());
    out.push("aud=false".to_owned());
    out.push("repeat-sequence-header=true".to_owned());
    match tuning {
        NvidiaTuning::Rtx => {
            out.push("spatial-aq=true".to_owned());
            out.push("temporal-aq=true".to_owned());
            out.push("aq-strength=8".to_owned());
        },
        _ => {},
    }
    assert(text::texts(out@) == nvidia_settings(bitrate, fps, tuning));
    out
}

/// An encoder stands in a pipeline as its element with the settings that it exposes, and its stream
/// is one that every decoder takes.
pub proof fn law_chain_names_its_element(
    encoder: SelectedEncoder,
    bitrate: u32,
    fps: u32,
    tuning: NvidiaTuning,
    registry: ElementRegistry,
    monitors: Seq<DisplayMonitor>,
)
    ensures
        ({
            let chain = encoder.chain_text(bitrate, fps, tuning, registry, monitors);
            &&& text::starts_with(chain, encoder.element@ + " name="@)
            &&& text::ends_with(
                chain,
                " ! video/x-h264,stream-format=byte-stream,alignment=au,profile=constrained-baseline"@,
            )
            &&& text::contains(
                chain,
                accepted_settings(
                    encoder.element@,
                    encoder.settings(bitrate, fps, tuning, monitors),
                    registry,
                ),
            )
        }),
{
    let chain = encoder.chain_text(bitrate, fps, tuning, registry, monitors);
    let accepted = accepted_settings(
        encoder.element@,
        encoder.settings(bitrate, fps, tuning, monitors),
        registry,
    );
    let start = encoder.element@ + " name="@;
    let end =
        " ! video/x-h264,stream-format=byte-stream,alignment=au,profile=constrained-baseline"@;
    assert(chain.subrange(0, start.len() as int) == start);
    assert(chain.subrange(chain.len() - end.len(), chain.len() as int) == end);
    reading::lemma_contains(start + SENDER_VIDEO_ENCODER_NAME@, accepted, end);
}

/// The rate buffer of NVENC holds the bits of one frame, rounded down, but never less than 128
/// kilobits.
pub proof fn law_rate_buffer_holds_one_frame(bitrate: u32, fps: u32)
    requires
        fps > 0,
    ensures
        vbv_size(bitrate, fps) >= 128,
        vbv_size(bitrate, fps) > 128 ==> vbv_size(bitrate, fps) * fps <= bitrate < (vbv_size(
            bitrate,
            fps,
        ) + 1) * fps,
        vbv_size(bitrate, fps) == 128 ==> bitrate < 129 * fps,
{
    let (b, f) = (bitrate as int, fps as int);
    let q = b / f;
    assert(q * f <= b < (q + 1) * f) by (nonlinear_arith)
        requires
            q == b / f,
            f > 0,
    ;
    assert(q <= 128 ==> (q + 1) * f <= 129 * f) by (nonlinear_arith)
        requires
            f > 0,
    ;
}

/// NVENC is told the rate as the most it may use, the size of its buffer, and to spend bits where
/// the eye looks exactly where it is tuned for RTX cards.
pub proof fn law_nvenc_is_tuned(bitrate: u32, fps: u32, tuning: NvidiaTuning)
    ensures
        ({
            let settings = nvidia_settings(bitrate, fps, tuning);
            &&& settings.contains("max-bitrate="@ + text::dec(bitrate as nat))
            &&& settings.contains(
                "vbv-buffer-size="@ + text::dec(vbv_size(bitrate, fps) as nat),
            )
            &&& settings.contains("repeat-sequence-header=true"@)
            &&& tuning == NvidiaTuning::Rtx ==> settings.contains("spatial-aq=true"@)
                && settings.contains("temporal-aq=true"@) && settings.contains("aq-strength=8"@)
            &&& settings.len() == if tuning == NvidiaTuning::Rtx {
                13int
            } else {
                10
            }
        }),
{
    let settings = nvidia_settings(bitrate, fps, tuning);
    assert(settings[1] == "max-bitrate="@ + text::dec(bitrate as nat));
    assert(settings[2] == "vbv-buffer-size="@ + text::dec(vbv_size(bitrate, fps) as nat));
    assert(settings[9] == "repeat-sequence-header=true"@);
    if tuning == NvidiaTuning::Rtx {
        assert(settings[10] == "spatial-aq=true"@);
        assert(settings[11] == "temporal-aq=true"@);
        assert(settings[12] == "aq-strength=8"@);
    }
}

/// A tuning that was asked for is used. One that was left open goes by the name of the GPU, RTX
/// before GTX, and is the plain one where neither stands in it.
pub proof fn law_tuning_goes_by_the_gpu(tuning: NvidiaTuning, monitors: Seq<DisplayMonitor>)
    ensures
        tuning != NvidiaTuning::Auto ==> resolved_tuning(tuning, monitors) == tuning,
        resolved_tuning(tuning, monitors) != NvidiaTuning::Auto,
        tuning == NvidiaTuning::Auto ==> match monitors::nvidia_name(monitors) {
            None => resolved_tuning(tuning, monitors) == NvidiaTuning::LowLatency,
            Some(name) => {
                let low = text::lower(name);
                let rtx = text::contains(low, " rtx"@) || text::contains(low, "rtx "@);
                let gtx = text::contains(low, " gtx"@) || text::contains(low, "gtx "@);
                &&& rtx ==> resolved_tuning(tuning, monitors) == NvidiaTuning::Rtx
                &&& !rtx && gtx ==> resolved_tuning(tuning, monitors) == NvidiaTuning::Gtx
                &&& !rtx && !gtx ==> resolved_tuning(tuning, monitors) == NvidiaTuning::LowLatency
            },
        },
{
    if let Some(name) = monitors::nvidia_name(monitors) {
        lemma_longer_name(text::lower(name), "geforce rtx"@, " rtx"@);
        lemma_longer_name(text::lower(name), "geforce gtx"@, " gtx"@);
    }
}

proof fn lemma_longer_name(s: Seq<char>, long: Seq<char>, short: Seq<char>)
    requires
        long == "geforce rtx"@ && short == " rtx"@ || long == "geforce gtx"@ && short == " gtx"@,
    ensures
        text::contains(s, long) ==> text::contains(s, short),
{
    reveal_strlit("geforce rtx");
    reveal_strlit("geforce gtx");
    reveal_strlit(" rtx");
    reveal_strlit(" gtx");
    assert(long.subrange(7, 11) == short);
    if text::contains(s, long) {
        let at = choose|at: int| text::occurs_at(s, long, at);
        assert(s.subrange(at + 7, at + 11) == s.subrange(at, at + 11).subrange(7, 11));
        assert(text::occurs_at(s, short, at + 7));
    }
}

/// The base element of each family is one of that family.
pub proof fn law_base_elements_belong_to_their_family(family: EncoderFamily)
    ensures
        family.elements().owns(family.base_text()),
{
    elements::law_families_own_their_variants(Seq::empty());
    reveal_strlit("nvd3d11h264enc");
    reveal_strlit("amfh264enc");
    reveal_strlit("mfh264enc");
    reveal_strlit("qsvh264enc");
    reveal_strlit("nvd3d11h264");
    reveal_strlit("amfh264");
    reveal_strlit("mfh264");
    reveal_strlit("qsvh264");
    reveal_strlit("enc");
    let none = Seq::<char>::empty();
    assert("nvd3d11h264"@ + none + "enc"@ =~= "nvd3d11h264enc"@);
    assert("amfh264"@ + none + "enc"@ =~= "amfh264enc"@);
    assert("mfh264"@ + none + "enc"@ =~= "mfh264enc"@);
    assert("qsvh264"@ + none + "enc"@ =~= "qsvh264enc"@);
}

/// Where no GPU is known, a family encodes with its base element: the first that it lists.
pub proof fn law_without_a_gpu_the_base_element_encodes(
    family: EncoderFamily,
    registry: ElementRegistry,
)
    ensures
        ({
            let names = registry.family(family.elements());
            match encoder_on(family, None, registry) {
                Some(encoder) => names.len() > 0 && encoder.element == names[0].name
                    && encoder.family == family && encoder.adapter_luid == registry.luid(
                    names[0].name@,
                ),
                None => names.len() == 0,
            }
        }),
{
}

} // verus!
