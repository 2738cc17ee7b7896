//! The GStreamer elements of a machine, and the choice of encoder, decoder and sink among them.
use crate::order::{self, Ranked};
use crate::search;
use crate::text;
use vstd::prelude::*;

verus! {

pub const SENDER_VIDEO_ENCODER_NAME: &'static str = "sender_video_encoder";

pub const RECEIVER_VIDEO_DECODER_NAME: &'static str = "receiver_video_decoder";

pub const RECEIVER_VIDEO_SINK_NAME: &'static str = "receiver_video_sink";

#[derive(Clone, Copy, Debug, PartialEq, Eq, Structural)]
pub enum Encoder {
    Auto,
    Nvidia,
    Amf,
    MediaFoundation,
    QuickSync,
    X264,
}

#[derive(Clone, Copy, Debug, PartialEq, Eq, Structural)]
pub enum NvidiaTuning {
    Auto,
    Gtx,
    Rtx,
    LowLatency,
}

impl Default for NvidiaTuning {
    fn default() -> (r: Self)
        ensures
            r == NvidiaTuning::Auto,
    {
        NvidiaTuning::Auto
    }
}

#[derive(Clone, Copy, Debug, PartialEq, Eq, Structural)]
pub enum Decoder {
    Auto,
    D3d11,
    Avdec,
    Software,
}

#[derive(Clone, Copy, Debug, PartialEq, Eq, Structural)]
pub enum Sink {
    Auto,
    D3d11,
    AutoVideo,
}

/// The texture filter that the sink scales a frame with.
#[derive(Clone, Copy, Debug, PartialEq, Eq, Structural)]
pub enum Sampling {
    /// Averages when shrinking, and does not smear when stretching.
    Auto,
    /// Filters in both directions.
    Linear,
    /// No filtering at all.
    Point,
}

impl Sampling {
    pub open spec fn method_text(self) -> Seq<char> {
        match self {
            Sampling::Auto => "linear-minification"@,
            Sampling::Linear => "bilinear"@,
            Sampling::Point => "nearest-neighbour"@,
        }
    }

    /// The value of the sinks' `sampling-method` property.
    pub fn method(self) -> (r: &'static str)
        ensures
            r@ == self.method_text(),
    {
        match self {
            Sampling::Auto => "linear-minification",
            Sampling::Linear => "bilinear",
            Sampling::Point => "nearest-neighbour",
        }
    }
}

/// Why no pipeline can be built.
#[derive(Debug)]
pub enum PipelineError {
    NotPositive { option: &'static str },
    QosDscp,
    AudioFrame,
    SizePair,
    HostUnresolved,
    NoReceiverHost,
    NoVirtualTarget,
    AmbiguousCapture { adapter_name: String },
    MissingElement { name: String },
    NoGpuEncoder,
    ForeignDecoder { description: String },
    NoSoftwareDecoder,
}

/// The message for an option that must not be zero.
pub open spec fn not_positive_text(option: Seq<char>) -> Seq<char> {
    "--"@ + option + " must be greater than zero"@
}

/// The message for an element that is not installed.
pub open spec fn missing_element_text(name: Seq<char>) -> Seq<char> {
    "required GStreamer element not found: "@ + name
}

/// The message for a bundled display that Windows gives no handle for.
pub open spec fn ambiguous_capture_text(adapter_name: Seq<char>) -> Seq<char> {
    "bundled virtual display "@ + adapter_name
        + " has no stable monitor handle; refusing ambiguous monitor-index capture"@
}

/// The message for a GPU that an explicitly requested decoder does not run on.
pub open spec fn foreign_decoder_text(description: Seq<char>) -> Seq<char> {
    "no D3D11 H.264 decoder is bound to selected GPU "@ + description
        + "; refusing a cross-adapter decoder because decoder=d3d11 was explicitly requested"@
}

pub open spec fn no_gpu_encoder_text() -> Seq<char> {
    "no supported GPU H.264 encoder found; install GStreamer Bad plugins or pass --allow-software-encoder true to permit CPU x264"@
}

pub open spec fn no_software_decoder_text() -> Seq<char> {
    "no software H.264 decoder is available; expected one of openh264dec, avdec_h264"@
}

impl PipelineError {
    pub open spec fn text(self) -> Seq<char> {
        match self {
            PipelineError::NotPositive { option } => not_positive_text(option@),
            PipelineError::QosDscp => "--qos-dscp must be -1 or 0..63"@,
            PipelineError::AudioFrame =>
                "--audio-frame-ms must be one of: 2.5, 5, 10, 20, 40, 60"@,
            PipelineError::SizePair => "--width and --height must be specified together"@,
            PipelineError::HostUnresolved =>
                "sender host was not resolved; run discovery first or pass explicit --host"@,
            PipelineError::NoReceiverHost => "at least one receiver host is required"@,
            PipelineError::NoVirtualTarget =>
                "bundled virtual display is enabled but no capture-ready virtual target was found; refusing physical-display fallback"@,
            PipelineError::AmbiguousCapture { adapter_name } => ambiguous_capture_text(
                adapter_name@,
            ),
            PipelineError::MissingElement { name } => missing_element_text(name@),
            PipelineError::NoGpuEncoder => no_gpu_encoder_text(),
            PipelineError::ForeignDecoder { description } => foreign_decoder_text(description@),
            PipelineError::NoSoftwareDecoder => no_software_decoder_text(),
        }
    }

    /// The message that a user reads.
    pub fn message(&self) -> (r: String)
        ensures
            r@ == self.text(),
    {
        match self {
            PipelineError::NotPositive { option } => {
                let mut out = "--".to_owned();
                out.push_str(option);
                out.push_str(" must be greater than zero");
                out
            },
            PipelineError::QosDscp => "--qos-dscp must be -1 or 0..63".to_owned(),
            PipelineError::AudioFrame =>
                "--audio-frame-ms must be one of: 2.5, 5, 10, 20, 40, 60".to_owned(),
            PipelineError::SizePair =>
                "--width and --height must be specified together".to_owned(),
            PipelineError::HostUnresolved =>
                "sender host was not resolved; run discovery first or pass explicit --host".to_owned(),
            PipelineError::NoReceiverHost => "at least one receiver host is required".to_owned(),
            PipelineError::NoVirtualTarget =>
                "bundled virtual display is enabled but no capture-ready virtual target was found; refusing physical-display fallback".to_owned(),
            PipelineError::AmbiguousCapture { adapter_name } => {
                let mut out = "bundled virtual display ".to_owned();
                out.push_str(adapter_name);
                out.push_str(
                    " has no stable monitor handle; refusing ambiguous monitor-index capture",
                );
                out
            },
            PipelineError::MissingElement { name } => {
                let mut out = "required GStreamer element not found: ".to_owned();
                out.push_str(name);
                out
            },
            PipelineError::NoGpuEncoder =>
                "no supported GPU H.264 encoder found; install GStreamer Bad plugins or pass --allow-software-encoder true to permit CPU x264".to_owned(),
            PipelineError::ForeignDecoder { description } => {
                let mut out = "no D3D11 H.264 decoder is bound to selected GPU ".to_owned();
                out.push_str(description);
                out.push_str(
                    "; refusing a cross-adapter decoder because decoder=d3d11 was explicitly requested",
                );
                out
            },
            PipelineError::NoSoftwareDecoder =>
                "no software H.264 decoder is available; expected one of openh264dec, avdec_h264".to_owned(),
        }
    }
}

/// The memory that decoded frames live in.
#[derive(Clone, Copy, Debug, PartialEq, Eq, Structural)]
pub enum ReceiverMemory {
    D3d12,
    D3d11,
    Negotiated,
    System,
}

/// A dimension in the caps of a pad: hardware decoders write a range and software ones sometimes a
/// single value.
#[derive(Clone, Copy, Debug, PartialEq, Eq, Structural)]
pub enum CapsDimension {
    Absent,
    Fixed(i32),
    Range { max: i32 },
}

/// One structure of the caps of a pad template.
pub struct CapsStructure {
    pub name: String,
    pub width: CapsDimension,
    pub height: CapsDimension,
}

/// A pad template of an element.
pub struct PadTemplate {
    pub sink: bool,
    pub any_caps: bool,
    pub structures: Vec<CapsStructure>,
}

/// What GStreamer knows of one registered element.
pub struct ElementInfo {
    pub name: String,
    pub video_encoder: bool,
    pub decoder: bool,
    /// The GPU the element is bound to, read from the `adapter-luid` property the d3d11, nvcodec,
    /// qsv and amf elements expose. `None` means that the element does not advertise a GPU.
    pub adapter_luid: Option<i64>,
    /// The properties of the element, unless it cannot be created.
    pub properties: Option<Vec<String>>,
    /// Whether it takes NV12 frames in D3D11 memory, and in D3D12 memory.
    pub sinks_d3d11: bool,
    pub sinks_d3d12: bool,
    /// Whether it gives NV12 frames in D3D11 memory, and in D3D12 memory.
    pub srcs_d3d11: bool,
    pub srcs_d3d12: bool,
    pub templates: Vec<PadTemplate>,
}

/// The elements that GStreamer has registered.
pub struct ElementRegistry {
    pub elements: Vec<ElementInfo>,
}

impl ElementRegistry {
    /// The element with a name.
    pub open spec fn element(self, name: Seq<char>) -> Option<ElementInfo> {
        search::first(self.elements@, |e: ElementInfo| e.name@ == name)
    }

    pub open spec fn has(self, name: Seq<char>) -> bool {
        self.element(name) is Some
    }

    fn find(&self, name: &str) -> (r: Option<usize>)
        ensures
            match r {
                Some(i) => i < self.elements@.len() && self.element(name@) == Some(
                    self.elements@[i as int],
                ),
                None => self.element(name@) is None,
            },
    {
        let ghost p = |e: ElementInfo| e.name@ == name@;
        let mut i: usize = 0;
        proof {
            search::lemma_first_done(self.elements@, p);
        }
        while i < self.elements.len()
            invariant
                i <= self.elements.len(),
                p == (|e: ElementInfo| e.name@ == name@),
                search::first(self.elements@.take(i as int), p) is None,
            decreases self.elements.len() - i,
        {
            proof {
                search::lemma_first_step(self.elements@, p, i as int);
            }
            if text::str_equal(&self.elements[i].name, name) {
                return Some(i);
            }
            i += 1;
        }
        proof {
            search::lemma_first_done(self.elements@, p);
        }
        None
    }

    /// Whether an element is registered.
    pub fn has_element(&self, name: &str) -> (r: bool)
        ensures
            r == self.has(name@),
    {
        self.find(name).is_some()
    }

    pub open spec fn luid(self, name: Seq<char>) -> Option<i64> {
        match self.element(name) {
            Some(element) => element.adapter_luid,
            None => None,
        }
    }

    /// The GPU that an element is bound to.
    pub fn element_adapter_luid(&self, name: &str) -> (r: Option<i64>)
        ensures
            r == self.luid(name@),
    {
        match self.find(name) {
            Some(i) => self.elements[i].adapter_luid,
            None => None,
        }
    }

    /// Whether an element can be created and has a property.
    pub open spec fn has_property(self, name: Seq<char>, property: Seq<char>) -> bool {
        match self.element(name) {
            Some(element) => match element.properties {
                Some(properties) => text::texts(properties@).contains(property),
                None => false,
            },
            None => false,
        }
    }

    /// Whether a property may be set on an element. An element that cannot be created tells
    /// nothing of its properties, so nothing is held against it.
    pub open spec fn accepts_property(self, name: Seq<char>, property: Seq<char>) -> bool {
        match self.element(name) {
            Some(element) => match element.properties {
                Some(properties) => text::texts(properties@).contains(property),
                None => true,
            },
            None => true,
        }
    }

    fn property_state(&self, name: &str, property: &str) -> (r: Option<bool>)
        ensures
            self.has_property(name@, property@) == (r == Some(true)),
            self.accepts_property(name@, property@) == (r != Some(false)),
    {
        match self.find(name) {
            Some(i) => match &self.elements[i].properties {
                Some(properties) => Some(lists_text(properties, property)),
                None => None,
            },
            None => None,
        }
    }

    /// Tests whether an element can be created and has a property.
    pub fn element_has_property(&self, name: &str, property: &str) -> (r: bool)
        ensures
            r == self.has_property(name@, property@),
    {
        match self.property_state(name, property) {
            Some(found) => found,
            None => false,
        }
    }

    /// Tests whether a property may be set on an element.
    pub fn accepts_element_property(&self, name: &str, property: &str) -> (r: bool)
        ensures
            r == self.accepts_property(name@, property@),
    {
        match self.property_state(name, property) {
            Some(found) => found,
            None => true,
        }
    }

    pub open spec fn gives_memory(self, name: Seq<char>, memory: ReceiverMemory) -> bool {
        match self.element(name) {
            Some(element) => match memory {
                ReceiverMemory::D3d12 => element.srcs_d3d12,
                ReceiverMemory::D3d11 => element.srcs_d3d11,
                _ => false,
            },
            None => false,
        }
    }

    /// Whether an element can give frames in a kind of GPU memory.
    pub fn factory_supports_raw_memory_src(&self, name: &str, memory: ReceiverMemory) -> (r: bool)
        ensures
            r == self.gives_memory(name@, memory),
    {
        match self.find(name) {
            Some(i) => match memory {
                ReceiverMemory::D3d12 => self.elements[i].srcs_d3d12,
                ReceiverMemory::D3d11 => self.elements[i].srcs_d3d11,
                _ => false,
            },
            None => false,
        }
    }

    pub open spec fn takes_memory(self, name: Seq<char>, memory: ReceiverMemory) -> bool {
        match self.element(name) {
            Some(element) => match memory {
                ReceiverMemory::D3d12 => element.sinks_d3d12,
                ReceiverMemory::D3d11 => element.sinks_d3d11,
                _ => false,
            },
            None => false,
        }
    }

    /// Whether an element takes frames in a kind of GPU memory.
    pub fn factory_supports_raw_memory_sink(&self, name: &str, memory: ReceiverMemory) -> (r: bool)
        ensures
            r == self.takes_memory(name@, memory),
    {
        match self.find(name) {
            Some(i) => match memory {
                ReceiverMemory::D3d12 => self.elements[i].sinks_d3d12,
                ReceiverMemory::D3d11 => self.elements[i].sinks_d3d11,
                _ => false,
            },
            None => false,
        }
    }

    /// Passes when an element is registered, and names it when it is not.
    pub fn require_element(&self, name: &str) -> (r: Result<(), PipelineError>)
        ensures
            match r {
                Ok(_) => self.has(name@),
                Err(error) => !self.has(name@) && error.text() == missing_element_text(name@),
            },
    {
        if self.has_element(name) {
            Ok(())
        } else {
            Err(PipelineError::MissingElement { name: name.to_owned() })
        }
    }

    pub open spec fn frame_limits(self, factory: Seq<char>) -> Option<(u32, u32)> {
        match self.element(factory) {
            Some(element) => largest_size(h264_sizes(element.templates@)),
            None => None,
        }
    }

    /// Largest frame the decoder advertises on its sink pad.
    ///
    /// GStreamer's D3D11/D3D12/QSV decoders probe DXVA when they register and bake the answer into
    /// their pad templates, so an Intel HD 4000 reports `width=[1,1920]` where an RTX 4060 Ti
    /// reports far more. A decoder that names no bound is reported as unlimited, which is what
    /// senders assume for peers that announce nothing.
    pub fn decoder_frame_limits(&self, factory: &str) -> (r: Option<(u32, u32)>)
        ensures
            r == self.frame_limits(factory@),
    {
        let index: usize = match self.find(factory) {
            Some(i) => i,
            None => return None,
        };
        let templates = &self.elements[index].templates;
        let mut limits: Option<(u32, u32)> = None;
        let mut i: usize = 0;
        assert(templates@.take(0) == Seq::<PadTemplate>::empty());
        while i < templates.len()
            invariant
                i <= templates.len(),
                limits == largest_size(h264_sizes(templates@.take(i as int))),
            decreases templates.len() - i,
        {
            assert(templates@.take(i + 1).drop_last() == templates@.take(i as int));
            if templates[i].sink && !templates[i].any_caps {
                let structures = &templates[i].structures;
                let ghost before = h264_sizes(templates@.take(i as int));
                let mut k: usize = 0;
                assert(structures@.take(0) == Seq::<CapsStructure>::empty());
                assert(before + structure_sizes(structures@.take(0)) == before);
                while k < structures.len()
                    invariant
                        k <= structures.len(),
                        limits == largest_size(
                            before + structure_sizes(structures@.take(k as int)),
                        ),
                    decreases structures.len() - k,
                {
                    let ghost listed = structure_sizes(structures@.take(k as int));
                    assert(structures@.take(k + 1).drop_last() == structures@.take(k as int));
                    if let Some((width, height)) = h264_size(&structures[k]) {
                        let ghost all = before + listed.push((width, height));
                        assert(all.drop_last() == before + listed);
                        assert(before + structure_sizes(structures@.take(k + 1)) == all);
                        limits =
                        match limits {
                            Some((known_width, known_height)) => Some(
                                (
                                    if known_width < width {
                                        width
                                    } else {
                                        known_width
                                    },
                                    if known_height < height {
                                        height
                                    } else {
                                        known_height
                                    },
                                ),
                            ),
                            None => Some((width, height)),
                        };
                    }
                    k += 1;
                }
                assert(structures@.take(structures@.len() as int) == structures@);
            }
            i += 1;
        }
        assert(templates@.take(templates@.len() as int) == templates@);
        limits
    }
}

fn lists_text(texts: &Vec<String>, wanted: &str) -> (r: bool)
    ensures
        r == text::texts(texts@).contains(wanted@),
{
    let mut i: usize = 0;
    while i < texts.len()
        invariant
            i <= texts.len(),
            forall|k: int| 0 <= k < i ==> (#[trigger] texts@[k])@ != wanted@,
        decreases texts.len() - i,
    {
        if text::str_equal(&texts[i], wanted) {
            assert(text::texts(texts@)[i as int] == wanted@);
            return true;
        }
        i += 1;
    }
    assert forall|k: int| 0 <= k < texts@.len() implies text::texts(texts@)[k] != wanted@ by {
        assert(texts@[k]@ != wanted@);
    }
    false
}

/// The largest value of a dimension.
pub open spec fn dimension_max(dimension: CapsDimension) -> Option<u32> {
    match dimension {
        CapsDimension::Absent => None,
        CapsDimension::Fixed(value) => if value >= 0 {
            Some(value as u32)
        } else {
            None
        },
        CapsDimension::Range { max } => if max >= 0 {
            Some(max as u32)
        } else {
            None
        },
    }
}

/// Reads the largest value of a dimension.
pub fn maximum_dimension(dimension: CapsDimension) -> (r: Option<u32>)
    ensures
        r == dimension_max(dimension),
{
    let value: i32 = match dimension {
        CapsDimension::Absent => return None,
        CapsDimension::Fixed(value) => value,
        CapsDimension::Range { max } => max,
    };
    if value >= 0 {
        Some(value as u32)
    } else {
        None
    }
}

/// The frame size that one structure of H.264 caps allows, where it names both dimensions.
pub open spec fn structure_size(structure: CapsStructure) -> Option<(u32, u32)> {
    match (dimension_max(structure.width), dimension_max(structure.height)) {
        (Some(width), Some(height)) => if structure.name@ == "video/x-h264"@ {
            Some((width, height))
        } else {
            None
        },
        _ => None,
    }
}

fn h264_size(structure: &CapsStructure) -> (r: Option<(u32, u32)>)
    ensures
        r == structure_size(*structure),
{
    if !text::str_equal(&structure.name, "video/x-h264") {
        return None;
    }
    match (maximum_dimension(structure.width), maximum_dimension(structure.height)) {
        (Some(width), Some(height)) => Some((width, height)),
        _ => None,
    }
}

/// The frame sizes of all structures of H.264 caps.
pub open spec fn structure_sizes(structures: Seq<CapsStructure>) -> Seq<(u32, u32)>
    decreases structures.len(),
{
    if structures.len() == 0 {
        Seq::empty()
    } else {
        let before = structure_sizes(structures.drop_last());
        match structure_size(structures.last()) {
            Some(size) => before.push(size),
            None => before,
        }
    }
}

/// The frame sizes that the sink pads list for H.264.
pub open spec fn h264_sizes(templates: Seq<PadTemplate>) -> Seq<(u32, u32)>
    decreases templates.len(),
{
    if templates.len() == 0 {
        Seq::empty()
    } else {
        let before = h264_sizes(templates.drop_last());
        if templates.last().sink && !templates.last().any_caps {
            before + structure_sizes(templates.last().structures@)
        } else {
            before
        }
    }
}

/// The largest width and the largest height of some sizes.
pub open spec fn largest_size(sizes: Seq<(u32, u32)>) -> Option<(u32, u32)>
    decreases sizes.len(),
{
    if sizes.len() == 0 {
        None
    } else {
        match largest_size(sizes.drop_last()) {
            Some((width, height)) => Some(
                (
                    if width < sizes.last().0 {
                        sizes.last().0
                    } else {
                        width
                    },
                    if height < sizes.last().1 {
                        sizes.last().1
                    } else {
                        height
                    },
                ),
            ),
            None => Some(sizes.last()),
        }
    }
}

/// The name of an element; names are ordered by length, so that the base element of a family comes
/// before its per-device variants, and then alphabetically.
#[derive(Debug)]
pub struct ElementName {
    pub name: String,
}

impl Ranked for ElementName {
    type Key = (nat, Seq<char>);

    open spec fn rank(self) -> (nat, Seq<char>) {
        (text::utf8_length(self.name@), self.name@)
    }

    open spec fn rank_le(a: (nat, Seq<char>), b: (nat, Seq<char>)) -> bool {
        a.0 < b.0 || a.0 == b.0 && order::text_le(a.1, b.1)
    }

    proof fn rank_order_is_total() {
        order::law_text_order_is_total();
        let le = |a: Seq<char>, b: Seq<char>| order::text_le(a, b);
        let rank_le = |a: (nat, Seq<char>), b: (nat, Seq<char>)| Self::rank_le(a, b);
        assert forall|a: (nat, Seq<char>)| #[trigger] rank_le(a, a) by {
            assert(le(a.1, a.1));
        }
        assert forall|a: (nat, Seq<char>), b: (nat, Seq<char>)| #[trigger]
            rank_le(a, b) && #[trigger] rank_le(b, a) implies a == b by {
            assert(le(a.1, b.1) && le(b.1, a.1));
        }
        assert forall|a: (nat, Seq<char>), b: (nat, Seq<char>), c: (nat, Seq<char>)| #[trigger]
            rank_le(a, b) && #[trigger] rank_le(b, c) implies rank_le(a, c) by {
            if a.0 == b.0 && b.0 == c.0 {
                assert(le(a.1, b.1) && le(b.1, c.1));
                assert(le(a.1, c.1));
            }
        }
        assert forall|a: (nat, Seq<char>), b: (nat, Seq<char>)| #[trigger]
            rank_le(a, b) || #[trigger] rank_le(b, a) by {
            assert(le(a.1, b.1) || le(b.1, a.1));
        }
    }

    fn precedes(&self, other: &Self) -> (r: bool) {
        let own = text::chars_of(&self.name);
        let others = text::chars_of(&other.name);
        let own_length: u128 = text::byte_length(&own);
        let other_length: u128 = text::byte_length(&others);
        if own_length != other_length {
            own_length < other_length
        } else {
            !order::text_at_most(&others, &own)
        }
    }
}

/// A family of elements: one base element and its variants for each GPU, such as
/// `nvd3d11h264device1enc` or `qsvh264device1dec`.
#[derive(Clone, Copy, Debug, PartialEq, Eq, Structural)]
pub enum ElementFamily {
    NvidiaEncoder,
    AmfEncoder,
    MediaFoundationEncoder,
    QuickSyncEncoder,
    X264Encoder,
    D3d12Decoder,
    D3d11Decoder,
    NvidiaDecoder,
    QuickSyncDecoder,
}

impl ElementFamily {
    /// Whether the family is one of encoders.
    pub open spec fn encodes(self) -> bool {
        match self {
            ElementFamily::NvidiaEncoder => true,
            ElementFamily::AmfEncoder => true,
            ElementFamily::MediaFoundationEncoder => true,
            ElementFamily::QuickSyncEncoder => true,
            ElementFamily::X264Encoder => true,
            _ => false,
        }
    }

    /// Whether an element of the right kind belongs to the family, by its name.
    pub open spec fn owns(self, name: Seq<char>) -> bool {
        match self {
            ElementFamily::NvidiaEncoder => text::starts_with(name, "nvd3d11"@) && text::contains(
                name,
                "h264"@,
            ) && text::ends_with(name, "enc"@),
            ElementFamily::AmfEncoder => text::starts_with(name, "amf"@) && text::contains(
                name,
                "h264"@,
            ) && text::ends_with(name, "enc"@),
            ElementFamily::MediaFoundationEncoder => text::starts_with(name, "mf"@)
                && text::contains(name, "h264"@) && text::ends_with(name, "enc"@),
            ElementFamily::QuickSyncEncoder => text::starts_with(name, "qsv"@) && text::contains(
                name,
                "h264"@,
            ) && text::ends_with(name, "enc"@),
            ElementFamily::X264Encoder => name == "x264enc"@,
            ElementFamily::D3d12Decoder => text::starts_with(name, "d3d12"@) && text::contains(
                name,
                "h264"@,
            ) && text::ends_with(name, "dec"@),
            ElementFamily::D3d11Decoder => text::starts_with(name, "d3d11"@) && text::contains(
                name,
                "h264"@,
            ) && text::ends_with(name, "dec"@),
            ElementFamily::NvidiaDecoder => text::starts_with(name, "nvh264"@) && text::ends_with(
                name,
                "dec"@,
            ),
            ElementFamily::QuickSyncDecoder => text::starts_with(name, "qsvh264"@)
                && text::ends_with(name, "dec"@),
        }
    }

    /// Tests whether an element of the right kind belongs to the family.
    pub fn owns_element(self, name: &str) -> (r: bool)
        ensures
            r == self.owns(name@),
    {
        let chars = text::chars_of(name);
        match self {
            ElementFamily::NvidiaEncoder => text::has_prefix(&chars, "nvd3d11") && text::has_text(
                &chars,
                "h264",
            ) && text::has_suffix(&chars, "enc"),
            ElementFamily::AmfEncoder => text::has_prefix(&chars, "amf") && text::has_text(
                &chars,
                "h264",
            ) && text::has_suffix(&chars, "enc"),
            ElementFamily::MediaFoundationEncoder => text::has_prefix(&chars, "mf")
                && text::has_text(&chars, "h264") && text::has_suffix(&chars, "enc"),
            ElementFamily::QuickSyncEncoder => text::has_prefix(&chars, "qsv") && text::has_text(
                &chars,
                "h264",
            ) && text::has_suffix(&chars, "enc"),
            ElementFamily::X264Encoder => text::str_equal(name, "x264enc"),
            ElementFamily::D3d12Decoder => text::has_prefix(&chars, "d3d12") && text::has_text(
                &chars,
                "h264",
            ) && text::has_suffix(&chars, "dec"),
            ElementFamily::D3d11Decoder => text::has_prefix(&chars, "d3d11") && text::has_text(
                &chars,
                "h264",
            ) && text::has_suffix(&chars, "dec"),
            ElementFamily::NvidiaDecoder => text::has_prefix(&chars, "nvh264") && text::has_suffix(
                &chars,
                "dec",
            ),
            ElementFamily::QuickSyncDecoder => text::has_prefix(&chars, "qsvh264")
                && text::has_suffix(&chars, "dec"),
        }
    }
}

/// Whether a registered element belongs to a family.
pub open spec fn in_family(element: ElementInfo, family: ElementFamily) -> bool {
    (if family.encodes() {
        element.video_encoder
    } else {
        element.decoder
    }) && family.owns(element.name@)
}

/// The names of elements.
pub open spec fn names_of(elements: Seq<ElementInfo>) -> Seq<ElementName> {
    Seq::new(elements.len(), |i: int| ElementName { name: elements[i].name })
}

impl ElementRegistry {
    /// The elements of a family, base element first.
    pub open spec fn family(self, family: ElementFamily) -> Seq<ElementName> {
        order::sorted(
            names_of(search::kept(self.elements@, |e: ElementInfo| in_family(e, family))),
        )
    }

    /// Registered element names of a family, shortest name first so the family's base (device-0)
    /// element wins ties.
    ///
    /// Rank is an autoplugging hint, and hardware encoders are commonly registered below MARGINAL
    /// so decodebin does not pick them on its own. The family already says what is wanted, so
    /// every registered element counts, whatever its rank.
    pub fn family_elements(&self, family: ElementFamily) -> (r: Vec<ElementName>)
        ensures
            r@ == self.family(family),
    {
        let ghost p = |e: ElementInfo| in_family(e, family);
        let encodes = match family {
            ElementFamily::NvidiaEncoder => true,
            ElementFamily::AmfEncoder => true,
            ElementFamily::MediaFoundationEncoder => true,
            ElementFamily::QuickSyncEncoder => true,
            ElementFamily::X264Encoder => true,
            _ => false,
        };
        let mut names: Vec<ElementName> = Vec::new();
        let mut i: usize = 0;
        proof {
            search::lemma_kept_done(self.elements@, p);
            assert(names@ == names_of(search::kept(self.elements@.take(0), p)));
        }
        while i < self.elements.len()
            invariant
                i <= self.elements.len(),
                encodes == family.encodes(),
                p == (|e: ElementInfo| in_family(e, family)),
                names@ == names_of(search::kept(self.elements@.take(i as int), p)),
            decreases self.elements.len() - i,
        {
            proof {
                search::lemma_kept_step(self.elements@, p, i as int);
            }
            let ghost before = search::kept(self.elements@.take(i as int), p);
            let element = &self.elements[i];
            let of_kind = if encodes {
                element.video_encoder
            } else {
                element.decoder
            };
            if of_kind && family.owns_element(&element.name) {
                names.push(ElementName { name: element.name.clone() });
                assert(names@ == names_of(before.push(self.elements@[i as int])));
            }
            i += 1;
        }
        proof {
            search::lemma_kept_done(self.elements@, p);
        }
        order::stable_sort(names)
    }
}

/// A family lists every registered element that belongs to it.
pub proof fn law_families_list_their_elements(
    registry: ElementRegistry,
    family: ElementFamily,
    i: int,
)
    requires
        0 <= i < registry.elements@.len(),
        in_family(registry.elements@[i], family),
    ensures
        exists|k: int|
            0 <= k < registry.family(family).len() && (#[trigger] registry.family(family)[k]).name
                == registry.elements@[i].name,
{
    let p = |e: ElementInfo| in_family(e, family);
    let kept = search::kept(registry.elements@, p);
    let names = names_of(kept);
    let listed = registry.family(family);
    search::lemma_kept_sound(registry.elements@, p);
    assert(p(registry.elements@[i]));
    let j = choose|j: int| 0 <= j < kept.len() && #[trigger] kept[j] == registry.elements@[i];
    order::law_sorting_orders_and_keeps_every_value(names);
    order::lemma_same_values(names, listed, j);
    let k = choose|k: int| 0 <= k < listed.len() && #[trigger] listed[k] == names[j];
    assert(listed[k].name == registry.elements@[i].name);
}

/// A family lists nothing but registered elements that belong to it, shortest name first, so that
/// the element of the first GPU stands before its variants for the others.
pub proof fn law_families_list_nothing_else(
    registry: ElementRegistry,
    family: ElementFamily,
    k: int,
    later: int,
)
    requires
        0 <= k <= later < registry.family(family).len(),
    ensures
        exists|i: int|
            0 <= i < registry.elements@.len() && in_family(
                #[trigger] registry.elements@[i],
                family,
            ) && registry.elements@[i].name == registry.family(family)[k].name,
        text::utf8_length(registry.family(family)[k].name@) <= text::utf8_length(
            registry.family(family)[later].name@,
        ),
{
    let p = |e: ElementInfo| in_family(e, family);
    let kept = search::kept(registry.elements@, p);
    let names = names_of(kept);
    let listed = registry.family(family);
    order::law_sorting_orders_and_keeps_every_value(names);
    order::lemma_same_values(listed, names, k);
    let j = choose|j: int| 0 <= j < names.len() && #[trigger] names[j] == listed[k];
    search::lemma_kept_sound(registry.elements@, p);
    assert(p(kept[j]));
    let i = choose|i: int|
        0 <= i < registry.elements@.len() && #[trigger] registry.elements@[i] == kept[j];
    assert(in_family(registry.elements@[i], family));
    if k < later {
        assert(ElementName::rank_le(listed[k].rank(), listed[later].rank()));
    }
}

/// Each family is told by its names: an element is of a family where its name begins as those of
/// the family do, with the part for the GPU or without, and ends in its role.
pub proof fn law_families_own_their_variants(gpu: Seq<char>)
    ensures
        ElementFamily::NvidiaEncoder.owns("nvd3d11h264"@ + gpu + "enc"@),
        ElementFamily::AmfEncoder.owns("amfh264"@ + gpu + "enc"@),
        ElementFamily::MediaFoundationEncoder.owns("mfh264"@ + gpu + "enc"@),
        ElementFamily::QuickSyncEncoder.owns("qsvh264"@ + gpu + "enc"@),
        ElementFamily::D3d11Decoder.owns("d3d11h264"@ + gpu + "dec"@),
        ElementFamily::D3d12Decoder.owns("d3d12h264"@ + gpu + "dec"@),
        ElementFamily::NvidiaDecoder.owns("nvh264"@ + gpu + "dec"@),
        ElementFamily::QuickSyncDecoder.owns("qsvh264"@ + gpu + "dec"@),
{
    lemma_nvidia_encoders(gpu);
    lemma_amf_encoders(gpu);
    lemma_media_foundation_encoders(gpu);
    lemma_quick_sync_encoders(gpu);
    lemma_d3d11_decoders(gpu);
    lemma_d3d12_decoders(gpu);
    lemma_nvidia_decoders(gpu);
    lemma_quick_sync_decoders(gpu);
}

proof fn lemma_nvidia_encoders(gpu: Seq<char>)
    ensures
        ElementFamily::NvidiaEncoder.owns("nvd3d11h264"@ + gpu + "enc"@),
{
    reveal_strlit("nvd3d11h264");
    reveal_strlit("nvd3d11");
    reveal_strlit("h264");
    lemma_variant("nvd3d11h264"@, "nvd3d11"@, 7, gpu, "enc"@);
}

proof fn lemma_amf_encoders(gpu: Seq<char>)
    ensures
        ElementFamily::AmfEncoder.owns("amfh264"@ + gpu + "enc"@),
{
    reveal_strlit("amfh264");
    reveal_strlit("amf");
    reveal_strlit("h264");
    lemma_variant("amfh264"@, "amf"@, 3, gpu, "enc"@);
}

proof fn lemma_media_foundation_encoders(gpu: Seq<char>)
    ensures
        ElementFamily::MediaFoundationEncoder.owns("mfh264"@ + gpu + "enc"@),
{
    reveal_strlit("mfh264");
    reveal_strlit("mf");
    reveal_strlit("h264");
    lemma_variant("mfh264"@, "mf"@, 2, gpu, "enc"@);
}

proof fn lemma_quick_sync_encoders(gpu: Seq<char>)
    ensures
        ElementFamily::QuickSyncEncoder.owns("qsvh264"@ + gpu + "enc"@),
{
    reveal_strlit("qsvh264");
    reveal_strlit("qsv");
    reveal_strlit("h264");
    lemma_variant("qsvh264"@, "qsv"@, 3, gpu, "enc"@);
}

proof fn lemma_d3d11_decoders(gpu: Seq<char>)
    ensures
        ElementFamily::D3d11Decoder.owns("d3d11h264"@ + gpu + "dec"@),
{
    reveal_strlit("d3d11h264");
    reveal_strlit("d3d11");
    reveal_strlit("h264");
    lemma_variant("d3d11h264"@, "d3d11"@, 5, gpu, "dec"@);
}

proof fn lemma_d3d12_decoders(gpu: Seq<char>)
    ensures
        ElementFamily::D3d12Decoder.owns("d3d12h264"@ + gpu + "dec"@),
{
    reveal_strlit("d3d12h264");
    reveal_strlit("d3d12");
    reveal_strlit("h264");
    lemma_variant("d3d12h264"@, "d3d12"@, 5, gpu, "dec"@);
}

proof fn lemma_nvidia_decoders(gpu: Seq<char>)
    ensures
        ElementFamily::NvidiaDecoder.owns("nvh264"@ + gpu + "dec"@),
{
    reveal_strlit("nvh264");
    reveal_strlit("h264");
    lemma_variant("nvh264"@, "nvh264"@, 2, gpu, "dec"@);
}

proof fn lemma_quick_sync_decoders(gpu: Seq<char>)
    ensures
        ElementFamily::QuickSyncDecoder.owns("qsvh264"@ + gpu + "dec"@),
{
    reveal_strlit("qsvh264");
    reveal_strlit("h264");
    lemma_variant("qsvh264"@, "qsvh264"@, 3, gpu, "dec"@);
}

proof fn lemma_variant(
    head: Seq<char>,
    prefix: Seq<char>,
    codec_at: int,
    gpu: Seq<char>,
    role: Seq<char>,
)
    requires
        prefix.len() <= head.len(),
        head.subrange(0, prefix.len() as int) =~= prefix,
        0 <= codec_at,
        codec_at + "h264"@.len() == head.len(),
        head.subrange(codec_at, head.len() as int) =~= "h264"@,
    ensures
        text::starts_with(head + gpu + role, prefix),
        text::contains(head + gpu + role, "h264"@),
        text::ends_with(head + gpu + role, role),
{
    let s = head + gpu + role;
    assert(s.subrange(0, prefix.len() as int) == head.subrange(0, prefix.len() as int));
    assert(s.subrange(codec_at, head.len() as int) == head.subrange(codec_at, head.len() as int));
    assert(text::occurs_at(s, "h264"@, codec_at));
    assert(s.subrange(s.len() - role.len(), s.len() as int) == role);
}

/// No element is of two encoder families, and none of an encoder family has the role of a decoder.
pub proof fn law_families_are_told_apart(name: Seq<char>, a: ElementFamily, b: ElementFamily)
    requires
        a.owns(name),
        b.owns(name),
    ensures
        a == b,
{
    reveal_strlit("nvd3d11");
    reveal_strlit("amf");
    reveal_strlit("mf");
    reveal_strlit("qsv");
    reveal_strlit("qsvh264");
    reveal_strlit("d3d11");
    reveal_strlit("d3d12");
    reveal_strlit("nvh264");
    reveal_strlit("x264enc");
    reveal_strlit("enc");
    reveal_strlit("dec");
    lemma_first_letters(name, a);
    lemma_first_letters(name, b);
}

/// What a name of a family has at its first places and at its last but two.
proof fn lemma_first_letters(name: Seq<char>, family: ElementFamily)
    requires
        family.owns(name),
    ensures
        match family {
            ElementFamily::NvidiaEncoder => name[0] == 'n' && name[2] == 'd',
            ElementFamily::AmfEncoder => name[0] == 'a',
            ElementFamily::MediaFoundationEncoder => name[0] == 'm',
            ElementFamily::QuickSyncEncoder => name[0] == 'q',
            ElementFamily::X264Encoder => name[0] == 'x',
            ElementFamily::D3d12Decoder => name[0] == 'd' && name[4] == '2',
            ElementFamily::D3d11Decoder => name[0] == 'd' && name[4] == '1',
            ElementFamily::NvidiaDecoder => name[0] == 'n' && name[2] == 'h',
            ElementFamily::QuickSyncDecoder => name[0] == 'q',
        },
        name[name.len() - 3] == if family.encodes() {
            'e'
        } else {
            'd'
        },
{
    reveal_strlit("nvd3d11");
    reveal_strlit("amf");
    reveal_strlit("mf");
    reveal_strlit("qsv");
    reveal_strlit("qsvh264");
    reveal_strlit("d3d11");
    reveal_strlit("d3d12");
    reveal_strlit("nvh264");
    reveal_strlit("x264enc");
    reveal_strlit("enc");
    reveal_strlit("dec");
    if family is X264Encoder {
        assert(name[name.len() - 3] == 'e');
    } else {
        let role = if family.encodes() {
            "enc"@
        } else {
            "dec"@
        };
        assert(name.subrange(name.len() - 3, name.len() as int)[0] == role[0]);
        let prefix = match family {
            ElementFamily::NvidiaEncoder => "nvd3d11"@,
            ElementFamily::AmfEncoder => "amf"@,
            ElementFamily::MediaFoundationEncoder => "mf"@,
            ElementFamily::QuickSyncEncoder => "qsv"@,
            ElementFamily::D3d12Decoder => "d3d12"@,
            ElementFamily::D3d11Decoder => "d3d11"@,
            ElementFamily::NvidiaDecoder => "nvh264"@,
            _ => "qsvh264"@,
        };
        assert(name.subrange(0, prefix.len() as int) == prefix);
        assert(forall|i: int| 0 <= i < prefix.len() ==> name[i] == #[trigger] prefix[i]) by {
            assert forall|i: int| 0 <= i < prefix.len() implies name[i] == #[trigger] prefix[i] by {
                assert(name.subrange(0, prefix.len() as int)[i] == prefix[i]);
            }
        }
        assert(name[0] == prefix[0]);
        assert(prefix.len() > 2 ==> name[2] == prefix[2]);
        assert(prefix.len() > 4 ==> name[4] == prefix[4]);
    }
}

/// The value behind an optional reference.
pub open spec fn pointee<T>(value: Option<&T>) -> Option<T> {
    match value {
        Some(value) => Some(*value),
        None => None,
    }
}

/// A decoder's limits are the largest width and the largest height that its sink pads name for
/// H.264, both in one structure: no such structure goes beyond them, and each is the one of some.
pub proof fn law_frame_limits_cover_every_structure(
    registry: ElementRegistry,
    factory: Seq<char>,
    i: int,
    j: int,
)
    requires
        registry.element(factory) is Some,
        0 <= i < registry.element(factory)->0.templates@.len(),
        registry.element(factory)->0.templates@[i].sink,
        !registry.element(factory)->0.templates@[i].any_caps,
        0 <= j < registry.element(factory)->0.templates@[i].structures@.len(),
        registry.element(factory)->0.templates@[i].structures@[j].name@ == "video/x-h264"@,
    ensures
        ({
            let structure = registry.element(factory)->0.templates@[i].structures@[j];
            let width = dimension_max(structure.width);
            let height = dimension_max(structure.height);
            width is Some && height is Some ==> (registry.frame_limits(factory) matches Some(limits)
                && width->0 <= limits.0 && height->0 <= limits.1)
        }),
        registry.frame_limits(factory) matches Some(limits) ==> {
            let sizes = h264_sizes(registry.element(factory)->0.templates@);
            &&& exists|k: int| 0 <= k < sizes.len() && (#[trigger] sizes[k]).0 == limits.0
            &&& exists|k: int| 0 <= k < sizes.len() && (#[trigger] sizes[k]).1 == limits.1
        },
{
    let templates = registry.element(factory)->0.templates@;
    let structures = templates[i].structures@;
    let sizes = h264_sizes(templates);
    if structure_size(structures[j]) is Some {
        let size = structure_size(structures[j])->0;
        lemma_structure_is_listed(structures, j);
        lemma_template_is_listed(templates, i, size);
        let k = choose|k: int| 0 <= k < sizes.len() && sizes[k] == size;
        lemma_largest_size(sizes, k);
    }
    if sizes.len() > 0 {
        lemma_largest_size(sizes, 0);
    }
}

proof fn lemma_structure_is_listed(structures: Seq<CapsStructure>, j: int)
    requires
        0 <= j < structures.len(),
        structure_size(structures[j]) is Some,
    ensures
        structure_sizes(structures).contains(structure_size(structures[j])->0),
    decreases structures.len(),
{
    let rest = structures.drop_last();
    let before = structure_sizes(rest);
    let all = structure_sizes(structures);
    let size = structure_size(structures[j])->0;
    if j < rest.len() {
        lemma_structure_is_listed(rest, j);
        let k = choose|k: int| 0 <= k < before.len() && before[k] == size;
        assert(all[k] == size);
    } else {
        assert(all[before.len() as int] == size);
    }
}

proof fn lemma_template_is_listed(templates: Seq<PadTemplate>, i: int, size: (u32, u32))
    requires
        0 <= i < templates.len(),
        templates[i].sink,
        !templates[i].any_caps,
        structure_sizes(templates[i].structures@).contains(size),
    ensures
        h264_sizes(templates).contains(size),
    decreases templates.len(),
{
    let rest = templates.drop_last();
    let before = h264_sizes(rest);
    let all = h264_sizes(templates);
    if i < rest.len() {
        lemma_template_is_listed(rest, i, size);
        let k = choose|k: int| 0 <= k < before.len() && before[k] == size;
        assert(all[k] == size);
    } else {
        let own = structure_sizes(templates[i].structures@);
        let k = choose|k: int| 0 <= k < own.len() && own[k] == size;
        assert(all[before.len() + k] == size);
    }
}

proof fn lemma_largest_size(sizes: Seq<(u32, u32)>, k: int)
    requires
        0 <= k < sizes.len(),
    ensures
        largest_size(sizes) matches Some(limits) && {
            &&& sizes[k].0 <= limits.0 && sizes[k].1 <= limits.1
            &&& exists|n: int| 0 <= n < sizes.len() && (#[trigger] sizes[n]).0 == limits.0
            &&& exists|n: int| 0 <= n < sizes.len() && (#[trigger] sizes[n]).1 == limits.1
        },
    decreases sizes.len(),
{
    let rest = sizes.drop_last();
    let last = sizes.len() - 1;
    assert(sizes[last] == sizes.last());
    if rest.len() > 0 {
        lemma_largest_size(
            rest,
            if k < last {
                k
            } else {
                0
            },
        );
        let limits = largest_size(rest)->0;
        let a = choose|n: int| 0 <= n < rest.len() && (#[trigger] rest[n]).0 == limits.0;
        let b = choose|n: int| 0 <= n < rest.len() && (#[trigger] rest[n]).1 == limits.1;
        assert(sizes[a] == rest[a] && sizes[b] == rest[b]);
    }
}

/// A dimension is limited by its value or by the end of its range, and by nothing where it is
/// missing or makes no sense.
pub proof fn law_dimensions_are_limited_by_their_largest_value(value: i32, max: i32)
    ensures
        value >= 0 ==> dimension_max(CapsDimension::Fixed(value)) == Some(value as u32),
        max >= 0 ==> dimension_max(CapsDimension::Range { max }) == Some(max as u32),
        value < 0 ==> dimension_max(CapsDimension::Fixed(value)) is None,
        max < 0 ==> dimension_max(CapsDimension::Range { max }) is None,
        dimension_max(CapsDimension::Absent) is None,
{
}

/// A setting is written for an element that lists it, and for one that lists nothing because it
/// cannot be created; one that lists others but not this does without.
pub proof fn law_properties_are_as_listed(
    registry: ElementRegistry,
    name: Seq<char>,
    property: Seq<char>,
)
    ensures
        registry.has_property(name, property) ==> registry.has(name) && registry.accepts_property(
            name,
            property,
        ),
        registry.accepts_property(name, property) && !registry.has_property(name, property) <==> !(
        registry.element(name) is Some && registry.element(name)->0.properties is Some),
{
}

/// A decoder's limits come from what its sink pads name for H.264: each is the largest value of that
/// dimension in some structure there.
pub proof fn law_frame_limits_come_from_sink_pads(registry: ElementRegistry, factory: Seq<char>)
    ensures
        registry.frame_limits(factory) matches Some(limits) ==> {
            let templates = registry.element(factory)->0.templates@;
            &&& exists|i: int, j: int| #[trigger]
                names_size(templates, i, j) && dimension_max(
                    templates[i].structures@[j].width,
                ) == Some(limits.0)
            &&& exists|i: int, j: int| #[trigger]
                names_size(templates, i, j) && dimension_max(
                    templates[i].structures@[j].height,
                ) == Some(limits.1)
        },
{
    if let Some(limits) = registry.frame_limits(factory) {
        let templates = registry.element(factory)->0.templates@;
        let sizes = h264_sizes(templates);
        lemma_largest_size(sizes, 0);
        let a = choose|n: int| 0 <= n < sizes.len() && (#[trigger] sizes[n]).0 == limits.0;
        let b = choose|n: int| 0 <= n < sizes.len() && (#[trigger] sizes[n]).1 == limits.1;
        lemma_sizes_are_named(templates, a);
        lemma_sizes_are_named(templates, b);
        let (i, j) = choose|i: int, j: int| #[trigger]
            names_size(templates, i, j) && structure_size(templates[i].structures@[j]) == Some(
                sizes[a],
            );
        assert(names_size(templates, i, j));
        let (k, l) = choose|k: int, l: int| #[trigger]
            names_size(templates, k, l) && structure_size(templates[k].structures@[l]) == Some(
                sizes[b],
            );
        assert(names_size(templates, k, l));
    }
}

/// Whether a structure of a sink pad names a frame size for H.264.
pub open spec fn names_size(templates: Seq<PadTemplate>, i: int, j: int) -> bool {
    &&& 0 <= i < templates.len()
    &&& 0 <= j < templates[i].structures@.len()
    &&& templates[i].sink && !templates[i].any_caps
    &&& templates[i].structures@[j].name@ == "video/x-h264"@
}

proof fn lemma_sizes_are_named(templates: Seq<PadTemplate>, n: int)
    requires
        0 <= n < h264_sizes(templates).len(),
    ensures
        exists|i: int, j: int| #[trigger]
            names_size(templates, i, j) && structure_size(templates[i].structures@[j]) == Some(
                h264_sizes(templates)[n],
            ),
    decreases templates.len(),
{
    let rest = templates.drop_last();
    let before = h264_sizes(rest);
    let last = templates.len() - 1;
    if n < before.len() {
        lemma_sizes_are_named(rest, n);
        let (i, j) = choose|i: int, j: int| #[trigger]
            names_size(rest, i, j) && structure_size(rest[i].structures@[j]) == Some(before[n]);
        assert(rest[i] == templates[i]);
        assert(names_size(templates, i, j));
    } else {
        let structures = templates[last].structures@;
        lemma_structure_sizes(structures, n - before.len());
        let j = choose|j: int|
            0 <= j < structures.len() && structure_size(#[trigger] structures[j]) == Some(
                structure_sizes(structures)[n - before.len()],
            );
        assert(names_size(templates, last, j));
    }
}

proof fn lemma_structure_sizes(structures: Seq<CapsStructure>, n: int)
    requires
        0 <= n < structure_sizes(structures).len(),
    ensures
        exists|j: int|
            0 <= j < structures.len() && structure_size(#[trigger] structures[j]) == Some(
                structure_sizes(structures)[n],
            ),
    decreases structures.len(),
{
    let rest = structures.drop_last();
    let before = structure_sizes(rest);
    if n < before.len() {
        lemma_structure_sizes(rest, n);
        let j = choose|j: int|
            0 <= j < rest.len() && structure_size(#[trigger] rest[j]) == Some(before[n]);
        assert(structures[j] == rest[j]);
    } else {
        assert(structures[structures.len() - 1] == structures.last());
    }
}

} // verus!
