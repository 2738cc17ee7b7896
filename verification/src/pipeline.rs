//! The GStreamer pipelines of senders and receivers, as launch descriptions.
pub use crate::elements::{Decoder, Encoder, NvidiaTuning, PipelineError, Sampling, Sink};
use crate::decoders::{self, ReceiverVideoRoute, RouteModel};
use crate::elements::{self, ElementRegistry};
use crate::encoders;
use crate::gpu::{self, AdapterOutput, GpuAdapter};
use crate::lan;
use crate::monitors::{self, DisplayMonitor};
use crate::reading;
use crate::search;
use crate::text;
use vstd::prelude::*;

verus! {

pub const SENDER_RTP_PAY_NAME: &'static str = "sender_rtp_pay";

pub const RECEIVER_VIDEO_JITTER_NAME: &'static str = "receiver_video_jitter";

#[derive(Clone, Copy, Debug, PartialEq, Eq, Structural)]
pub enum CaptureApi {
    Dxgi,
    Wgc,
}

impl CaptureApi {
    pub open spec fn name_text(self) -> Seq<char> {
        match self {
            CaptureApi::Dxgi => "dxgi"@,
            CaptureApi::Wgc => "wgc"@,
        }
    }

    /// The value of the capture element's `capture-api` property.
    pub fn name(self) -> (r: &'static str)
        ensures
            r@ == self.name_text(),
    {
        match self {
            CaptureApi::Dxgi => "dxgi",
            CaptureApi::Wgc => "wgc",
        }
    }
}

/// What a sender sends, and where to.
#[derive(Debug)]
pub struct SendArgs {
    /// Receiver IPs or hosts separated by commas, or "auto" for LAN discovery.
    pub host: String,
    /// Receiver UDP port. All selected receivers use the same port.
    pub port: u16,
    /// Enable low-latency Opus/RTP system-audio loopback transfer.
    pub audio_enabled: bool,
    /// Receiver UDP audio port.
    pub audio_port: u16,
    /// Opus audio bitrate in bit/sec.
    pub audio_bitrate: u32,
    /// Opus frame size in ms: 2.5, 5, 10, 20, 40, or 60.
    pub audio_frame_ms: String,
    /// Maximum receivers to auto-connect to when host is "auto".
    pub max_receivers: u32,
    /// Four-digit PIN used for LAN discovery pairing.
    pub pin: String,
    /// Prefer a detected virtual monitor when monitor_index is -1.
    pub prefer_virtual_display: bool,
    /// Ask Windows to switch to extended desktop before sending.
    pub enable_virtual_display: bool,
    /// Match the preferred virtual display mode to the first receiver display.
    pub sync_virtual_display_resolution: bool,
    /// Capture monitor index. -1 means primary monitor.
    pub monitor_index: i32,
    /// Capture frame rate.
    pub fps: u32,
    /// Target bitrate in kbit/sec.
    pub bitrate: u32,
    /// RTP MTU. 1200 is safe for Wi-Fi and VPN-ish paths.
    pub mtu: u32,
    /// UDP kernel send buffer size in bytes.
    pub udp_buffer_size: u32,
    /// DSCP value for UDP video packets. -1 keeps OS default; 46 requests Expedited Forwarding.
    pub qos_dscp: i32,
    /// Permit auto encoder selection to fall back to CPU x264.
    pub allow_software_encoder: bool,
    /// NVIDIA NVENC tuning profile.
    pub nvidia_tuning: NvidiaTuning,
    /// Encoder to use. Auto prefers GPU encoders.
    pub encoder: Encoder,
    /// GPU to encode on: "auto", a DXGI adapter index, or part of the adapter name.
    pub gpu: String,
    /// Capture API. Dxgi is lowest overhead; wgc can behave better with window capture.
    pub capture_api: CaptureApi,
    /// Keep captured frames in D3D11 memory through hardware encoding when supported.
    pub zero_copy: bool,
    /// Disable cursor capture.
    pub no_cursor: bool,
    /// Optional output width. Omit to keep native monitor size.
    pub width: Option<u32>,
    /// Optional output height. Omit to keep native monitor size.
    pub height: Option<u32>,
}

impl Clone for SendArgs {
    fn clone(&self) -> (r: Self)
        ensures
            r == *self,
    {
        SendArgs {
            host: self.host.clone(),
            port: self.port,
            audio_enabled: self.audio_enabled,
            audio_port: self.audio_port,
            audio_bitrate: self.audio_bitrate,
            audio_frame_ms: self.audio_frame_ms.clone(),
            max_receivers: self.max_receivers,
            pin: self.pin.clone(),
            prefer_virtual_display: self.prefer_virtual_display,
            enable_virtual_display: self.enable_virtual_display,
            sync_virtual_display_resolution: self.sync_virtual_display_resolution,
            monitor_index: self.monitor_index,
            fps: self.fps,
            bitrate: self.bitrate,
            mtu: self.mtu,
            udp_buffer_size: self.udp_buffer_size,
            qos_dscp: self.qos_dscp,
            allow_software_encoder: self.allow_software_encoder,
            nvidia_tuning: self.nvidia_tuning,
            encoder: self.encoder,
            gpu: self.gpu.clone(),
            capture_api: self.capture_api,
            zero_copy: self.zero_copy,
            no_cursor: self.no_cursor,
            width: self.width,
            height: self.height,
        }
    }
}

/// What a receiver listens for, and how it shows it.
#[derive(Debug)]
pub struct RecvArgs {
    /// Local UDP port to listen on.
    pub port: u16,
    /// Enable low-latency Opus/RTP audio playback.
    pub audio_enabled: bool,
    /// Local UDP audio port to listen on.
    pub audio_port: u16,
    /// RTP audio jitter buffer latency in milliseconds.
    pub audio_jitter_ms: u32,
    /// Four-digit PIN advertised for LAN discovery pairing.
    pub pin: String,
    /// RTP jitter buffer latency in milliseconds.
    pub jitter_ms: u32,
    /// UDP kernel receive buffer size in bytes.
    pub udp_buffer_size: u32,
    /// Maximum expected RTP packet size.
    pub mtu: u32,
    /// Packets needed before the jitter buffer starts output.
    pub jitter_faststart_packets: u32,
    /// Maximum missing-packet tolerance in milliseconds.
    pub jitter_max_dropout_ms: u32,
    /// Maximum misordered-packet tolerance in milliseconds.
    pub jitter_max_misorder_ms: u32,
    /// Render receiver video fullscreen.
    pub fullscreen: bool,
    /// Texture filter that the sink scales with.
    pub sampling: Sampling,
    /// Decoder to use. Auto prefers a matching D3D12 route on modern Intel, then D3D11 GPU decode,
    /// and retries on the bundled software decoder when hardware decode rejects the stream.
    pub decoder: Decoder,
    /// Video sink to use. Auto pairs D3D12 on capable Intel GPUs, then prefers D3D11 rendering.
    pub sink: Sink,
    /// GPU to decode and render on: "auto", a DXGI adapter index, or part of the adapter name.
    pub gpu: String,
}

impl Clone for RecvArgs {
    fn clone(&self) -> (r: Self)
        ensures
            r == *self,
    {
        RecvArgs {
            port: self.port,
            audio_enabled: self.audio_enabled,
            audio_port: self.audio_port,
            audio_jitter_ms: self.audio_jitter_ms,
            pin: self.pin.clone(),
            jitter_ms: self.jitter_ms,
            udp_buffer_size: self.udp_buffer_size,
            mtu: self.mtu,
            jitter_faststart_packets: self.jitter_faststart_packets,
            jitter_max_dropout_ms: self.jitter_max_dropout_ms,
            jitter_max_misorder_ms: self.jitter_max_misorder_ms,
            fullscreen: self.fullscreen,
            sampling: self.sampling,
            decoder: self.decoder,
            sink: self.sink,
            gpu: self.gpu.clone(),
        }
    }
}

/// What a pipeline is built from besides its arguments: the elements, displays and GPUs of the
/// machine.
pub struct Machine {
    pub registry: ElementRegistry,
    pub monitors: Vec<DisplayMonitor>,
    pub adapters: Vec<GpuAdapter>,
    pub outputs: Vec<AdapterOutput>,
}

fn ensure_positive(option: &'static str, value: u32) -> (r: Result<(), PipelineError>)
    ensures
        match r {
            Ok(_) => value > 0,
            Err(error) => value == 0 && error.text() == elements::not_positive_text(option@),
        },
{
    if value == 0 {
        Err(PipelineError::NotPositive { option })
    } else {
        Ok(())
    }
}

pub open spec fn valid_qos_dscp(value: i32) -> bool {
    value == -1 || 0 <= value <= 63
}

pub open spec fn valid_audio_frame(value: Seq<char>) -> bool {
    ||| value == "2.5"@
    ||| value == "5"@
    ||| value == "10"@
    ||| value == "20"@
    ||| value == "40"@
    ||| value == "60"@
}

fn is_audio_frame(value: &str) -> (r: bool)
    ensures
        r == valid_audio_frame(value@),
{
    text::str_equal(value, "2.5") || text::str_equal(value, "5") || text::str_equal(value, "10")
        || text::str_equal(value, "20") || text::str_equal(value, "40") || text::str_equal(
        value,
        "60",
    )
}

pub open spec fn unresolved_host(host: Seq<char>) -> bool {
    text::trim(host).len() == 0 || text::same_ignoring_case(text::trim(host), "auto"@)
}

/// Whether a host still has to be found by discovery: it is empty, or the word "auto".
pub fn is_auto_host(host: &str) -> (r: bool)
    ensures
        r == unresolved_host(host@),
{
    let trimmed = text::trimmed(host);
    trimmed.len() == 0 || text::equal_ignoring_case(&text::string_of(&trimmed), "auto")
}

/// The entries of a comma-separated list, without the space around them and without empty ones.
pub open spec fn host_list(hosts: Seq<char>) -> Seq<Seq<char>> {
    trimmed_entries(text::split(hosts, ','))
}

pub open spec fn trimmed_entries(parts: Seq<Seq<char>>) -> Seq<Seq<char>>
    decreases parts.len(),
{
    if parts.len() == 0 {
        Seq::empty()
    } else {
        let before = trimmed_entries(parts.drop_last());
        let entry = text::trim(parts.last());
        if entry.len() == 0 {
            before
        } else {
            before.push(entry)
        }
    }
}

/// Splits a comma-separated list of hosts.
pub fn split_hosts(hosts: &str) -> (r: Vec<String>)
    ensures
        text::texts(r@) == host_list(hosts@),
{
    let parts = text::split_chars(&text::chars_of(hosts), ',');
    let ghost all = text::rows(parts@);
    let mut out: Vec<String> = Vec::new();
    let mut i: usize = 0;
    assert(all.take(0) == Seq::<Seq<char>>::empty());
    assert(text::texts(out@) == trimmed_entries(all.take(0)));
    while i < parts.len()
        invariant
            i <= parts.len(),
            all == text::rows(parts@),
            text::texts(out@) == trimmed_entries(all.take(i as int)),
        decreases parts.len() - i,
    {
        assert(all.take(i + 1).drop_last() == all.take(i as int));
        assert(all.take(i + 1).last() == parts@[i as int]@);
        let entry = text::trim_chars(&parts[i]);
        if entry.len() > 0 {
            let ghost before = text::texts(out@);
            out.push(text::string_of(&entry));
            assert(text::texts(out@) == before.push(entry@));
        }
        i += 1;
    }
    assert(all.take(all.len() as int) == all);
    out
}

/// The last position of a character.
pub open spec fn last_position(s: Seq<char>, c: char) -> Option<int>
    decreases s.len(),
{
    if s.len() == 0 {
        None
    } else if s.last() == c {
        Some(s.len() - 1)
    } else {
        last_position(s.drop_last(), c)
    }
}

/// Where the address of a host ends, when a port stands behind it.
pub open spec fn port_position(host: Seq<char>) -> Option<int> {
    match last_position(host, ':') {
        Some(at) => {
            let port = host.skip(at + 1);
            if port.len() > 0 && text::all_digits(port) {
                Some(at)
            } else {
                None
            }
        },
        None => None,
    }
}

fn find_port(host: &[char]) -> (r: Option<usize>)
    ensures
        match r {
            Some(at) => port_position(host@) == Some(at as int) && at < host@.len(),
            None => port_position(host@) is None,
        },
{
    let mut end: usize = host.len();
    assert(host@.take(end as int) == host@);
    while end > 0 && host[end - 1] != ':'
        invariant
            end <= host.len(),
            last_position(host@.take(end as int), ':') == last_position(host@, ':'),
        decreases end,
    {
        assert(host@.take(end as int).drop_last() == host@.take(end - 1));
        end -= 1;
    }
    if end == 0 {
        return None;
    }
    let port = text::copy_range(host, end, host.len());
    assert(port@ == host@.skip(end as int));
    if port.len() > 0 && text::only_digits(&port) {
        Some(end - 1)
    } else {
        None
    }
}

/// A receiver with the port it listens on: its own, or else the common one.
pub open spec fn client_text(host: Seq<char>, port: u16) -> Seq<char> {
    if port_position(host) is Some {
        host
    } else {
        host + ":"@ + text::dec(port as nat)
    }
}

/// A receiver with a port that takes the place of its own.
pub open spec fn forced_client_text(host: Seq<char>, port: u16) -> Seq<char> {
    let address = match port_position(host) {
        Some(at) => host.take(at),
        None => host,
    };
    address + ":"@ + text::dec(port as nat)
}

/// All receivers of a list of hosts, separated by commas.
pub open spec fn clients_text(hosts: Seq<char>, port: u16, force: bool) -> Result<
    Seq<char>,
    Seq<char>,
> {
    let list = host_list(hosts);
    if list.len() == 0 {
        Err("at least one receiver host is required"@)
    } else {
        Ok(
            text::join(
                Seq::new(
                    list.len(),
                    |i: int|
                        if force {
                            forced_client_text(list[i], port)
                        } else {
                            client_text(list[i], port)
                        },
                ),
                ","@,
            ),
        )
    }
}

fn client(host: &str, port: u16, force: bool) -> (r: String)
    ensures
        r@ == if force {
            forced_client_text(host@, port)
        } else {
            client_text(host@, port)
        },
{
    let chars = text::chars_of(host);
    let at = find_port(&chars);
    let mut out = match at {
        Some(at) => if force {
            text::string_of(&text::copy_range(&chars, 0, at))
        } else {
            return host.to_owned();
        },
        None => host.to_owned(),
    };
    assert(at is Some ==> out@ == host@.take(at->0 as int));
    out.push_str(":");
    text::push_dec(&mut out, port as u64);
    out
}

fn client_list(hosts: &str, port: u16, force: bool) -> (r: Result<String, PipelineError>)
    ensures
        decoders::gives_text(r, clients_text(hosts@, port, force)),
{
    let list = split_hosts(hosts);
    let ghost wanted = Seq::new(
        host_list(hosts@).len(),
        |i: int|
            if force {
                forced_client_text(host_list(hosts@)[i], port)
            } else {
                client_text(host_list(hosts@)[i], port)
            },
    );
    assert(list@.len() == text::texts(list@).len());
    if list.len() == 0 {
        return Err(PipelineError::NoReceiverHost);
    }
    let mut clients: Vec<String> = Vec::new();
    let mut i: usize = 0;
    while i < list.len()
        invariant
            i <= list.len(),
            text::texts(list@) == host_list(hosts@),
            list@.len() == host_list(hosts@).len(),
            clients@.len() == i,
            forall|k: int|
                0 <= k < i ==> (#[trigger] clients@[k])@ == if force {
                    forced_client_text(host_list(hosts@)[k], port)
                } else {
                    client_text(host_list(hosts@)[k], port)
                },
        decreases list.len() - i,
    {
        assert(text::texts(list@)[i as int] == list@[i as int]@);
        clients.push(client(&list[i], port, force));
        i += 1;
    }
    assert(text::texts(clients@) == wanted);
    Ok(text::join_strings(&clients, ","))
}

/// The receivers of a list of hosts; one without a port of its own gets the common one.
pub fn multi_udp_clients(hosts: &str, port: u16) -> (r: Result<String, PipelineError>)
    ensures
        decoders::gives_text(r, clients_text(hosts@, port, false)),
{
    client_list(hosts, port, false)
}

/// The receivers of a list of hosts, each with the given port.
pub fn multi_udp_clients_force_port(hosts: &str, port: u16) -> (r: Result<String, PipelineError>)
    ensures
        decoders::gives_text(r, clients_text(hosts@, port, true)),
{
    client_list(hosts, port, true)
}

/// A list of hosts names what its parts name: at every comma it can be taken apart. A part without
/// a comma names itself without the space around it, and nothing where there is no more than space.
pub proof fn law_host_lists_add_up(left: Seq<char>, right: Seq<char>)
    ensures
        host_list(left + ","@ + right) == host_list(left) + host_list(right),
        lan::lacks(left, ',') && text::trim(left).len() > 0 ==> host_list(left) == seq![
            text::trim(left),
        ],
        lan::lacks(left, ',') && text::trim(left).len() == 0 ==> host_list(left).len() == 0,
{
    reveal_strlit(",");
    assert(","@ == seq![',']);
    reading::lemma_split_at(left, ',', right);
    lemma_trimmed_entries_add_up(text::split(left, ','), text::split(right, ','));
    if lan::lacks(left, ',') {
        reading::lemma_split_whole(left, ',');
        let one = seq![left];
        assert(one.drop_last() == Seq::<Seq<char>>::empty());
        assert(trimmed_entries(one.drop_last()) == Seq::<Seq<char>>::empty());
        assert(Seq::<Seq<char>>::empty().push(text::trim(left)) == seq![text::trim(left)]);
    }
}

proof fn lemma_trimmed_entries_add_up(left: Seq<Seq<char>>, right: Seq<Seq<char>>)
    ensures
        trimmed_entries(left + right) == trimmed_entries(left) + trimmed_entries(right),
    decreases right.len(),
{
    if right.len() == 0 {
        assert(left + right == left);
        assert(trimmed_entries(right) == Seq::<Seq<char>>::empty());
    } else {
        lemma_trimmed_entries_add_up(left, right.drop_last());
        assert((left + right).drop_last() == left + right.drop_last());
        assert((left + right).last() == right.last());
        let entry = text::trim(right.last());
        let (a, b) = (trimmed_entries(left), trimmed_entries(right.drop_last()));
        assert((a + b).push(entry) == a + b.push(entry));
    }
}

proof fn lemma_trim_is_part(s: Seq<char>, c: char)
    requires
        lan::lacks(s, c),
    ensures
        lan::lacks(text::trim(s), c),
{
    lemma_trim_start_is_part(s, c);
    lemma_trim_end_is_part(text::trim_start(s), c);
}

proof fn lemma_trim_start_is_part(s: Seq<char>, c: char)
    requires
        lan::lacks(s, c),
    ensures
        lan::lacks(text::trim_start(s), c),
    decreases s.len(),
{
    if s.len() > 0 && text::is_space(s[0]) {
        assert forall|i: int| 0 <= i < s.len() - 1 implies #[trigger] s.skip(1)[i] != c by {
            assert(s.skip(1)[i] == s[i + 1]);
        }
        lemma_trim_start_is_part(s.skip(1), c);
    }
}

proof fn lemma_trim_end_is_part(s: Seq<char>, c: char)
    requires
        lan::lacks(s, c),
    ensures
        lan::lacks(text::trim_end(s), c),
    decreases s.len(),
{
    if s.len() > 0 && text::is_space(s.last()) {
        assert forall|i: int| 0 <= i < s.len() - 1 implies #[trigger] s.drop_last()[i] != c by {
            assert(s.drop_last()[i] == s[i]);
        }
        lemma_trim_end_is_part(s.drop_last(), c);
    }
}

proof fn lemma_entries_lack_commas(parts: Seq<Seq<char>>)
    requires
        forall|i: int| 0 <= i < parts.len() ==> lan::lacks(#[trigger] parts[i], ','),
    ensures
        forall|i: int|
            0 <= i < trimmed_entries(parts).len() ==> lan::lacks(
                #[trigger] trimmed_entries(parts)[i],
                ',',
            ),
    decreases parts.len(),
{
    if parts.len() > 0 {
        let rest = parts.drop_last();
        assert forall|i: int| 0 <= i < rest.len() implies lan::lacks(#[trigger] rest[i], ',') by {
            assert(rest[i] == parts[i]);
        }
        lemma_entries_lack_commas(rest);
        assert(lan::lacks(parts[parts.len() - 1], ','));
        lemma_trim_is_part(parts.last(), ',');
        let all = trimmed_entries(parts);
        let before = trimmed_entries(rest);
        assert forall|i: int| 0 <= i < all.len() implies lan::lacks(#[trigger] all[i], ',') by {
            if i < before.len() {
                assert(all[i] == before[i]);
            } else {
                assert(all[i] == text::trim(parts.last()));
            }
        }
    }
}

proof fn lemma_digits_lack(n: nat, c: char)
    requires
        !text::is_digit(c),
    ensures
        lan::lacks(text::dec(n), c),
{
    text::lemma_dec_digits(n);
    assert forall|i: int| 0 <= i < text::dec(n).len() implies #[trigger] text::dec(n)[i] != c by {
        assert(text::is_digit(text::dec(n)[i]));
    }
}

/// Whether a client is an address and the number of a port behind the last colon.
pub open spec fn addresses(client: Seq<char>, address: Seq<char>, port: nat) -> bool {
    &&& address.len() < client.len()
    &&& client.take(address.len() as int) == address
    &&& client[address.len() as int] == ':'
    &&& text::parse_unsigned(client.skip(address.len() as int + 1), u16::MAX as nat) == Some(port)
}

/// The clients of a list of hosts are one for each host, in order, and each can be found again
/// between the commas. With one port for all, each is the address of its host and that port.
/// Otherwise only a host without a port of its own gets the common port, and any other stays as it
/// is.
pub proof fn law_clients_are_hosts_with_ports(hosts: Seq<char>, port: u16, force: bool)
    ensures
        clients_text(hosts, port, force) is Ok <==> host_list(hosts).len() > 0,
        clients_text(hosts, port, force) matches Ok(clients) ==> {
            let list = text::split(clients, ',');
            &&& list.len() == host_list(hosts).len()
            &&& forall|i: int|
                0 <= i < list.len() ==> {
                    let host = host_list(hosts)[i];
                    let own = port_position(host);
                    let address = if own is Some {
                        host.take(own->0)
                    } else {
                        host
                    };
                    if own is Some && !force {
                        #[trigger] list[i] == host
                    } else {
                        addresses(list[i], address, port as nat)
                    }
                }
        },
{
    let list = host_list(hosts);
    if list.len() > 0 {
        let clients = Seq::new(
            list.len(),
            |i: int|
                if force {
                    forced_client_text(list[i], port)
                } else {
                    client_text(list[i], port)
                },
        );
        reading::lemma_split_pieces(hosts, ',');
        lemma_entries_lack_commas(text::split(hosts, ','));
        assert forall|i: int| 0 <= i < clients.len() implies lan::lacks(
            #[trigger] clients[i],
            ',',
        ) by {
            assert(lan::lacks(list[i], ','));
            lemma_client(list[i], port);
        }
        reveal_strlit(",");
        assert(","@ == seq![',']);
        reading::lemma_split_joined(clients, ',');
        assert forall|i: int| 0 <= i < clients.len() implies {
            let host = list[i];
            let own = port_position(host);
            let address = if own is Some {
                host.take(own->0)
            } else {
                host
            };
            if own is Some && !force {
                #[trigger] clients[i] == host
            } else {
                addresses(clients[i], address, port as nat)
            }
        } by {
            assert(lan::lacks(list[i], ','));
            lemma_client(list[i], port);
        }
    }
}

proof fn lemma_client(host: Seq<char>, port: u16)
    requires
        lan::lacks(host, ','),
    ensures
        lan::lacks(client_text(host, port), ','),
        lan::lacks(forced_client_text(host, port), ','),
        port_position(host) is None ==> addresses(client_text(host, port), host, port as nat)
            && addresses(forced_client_text(host, port), host, port as nat),
        port_position(host) matches Some(at) ==> addresses(
            forced_client_text(host, port),
            host.take(at),
            port as nat,
        ),
{
    let number = text::dec(port as nat);
    reveal_strlit(":");
    lemma_digits_lack(port as nat, ',');
    text::law_decimal_round_trip(port as nat, u16::MAX as nat);
    lemma_last_position(host, ':');
    let address = match port_position(host) {
        Some(at) => host.take(at),
        None => host,
    };
    let (long, short) = (host + ":"@ + number, address + ":"@ + number);
    assert(long.take(host.len() as int) == host);
    assert(long.skip(host.len() as int + 1) == number);
    assert(short.take(address.len() as int) == address);
    assert(short.skip(address.len() as int + 1) == number);
}

proof fn lemma_last_position(s: Seq<char>, c: char)
    ensures
        last_position(s, c) matches Some(at) ==> 0 <= at < s.len() && s[at] == c,
    decreases s.len(),
{
    if s.len() > 0 && s.last() != c {
        lemma_last_position(s.drop_last(), c);
    }
}

/// A host has a port of its own just where digits, and nothing else, stand behind its last colon.
pub proof fn law_own_ports(address: Seq<char>, tail: Seq<char>)
    requires
        lan::lacks(tail, ':'),
    ensures
        port_position(address + ":"@ + tail) == if tail.len() > 0 && text::all_digits(tail) {
            Some(address.len() as int)
        } else {
            None::<int>
        },
        port_position(tail) is None,
{
    reveal_strlit(":");
    assert(":"@ == seq![':']);
    lemma_last_colon(address, tail);
    lemma_no_colon(tail);
    let s = address + ":"@ + tail;
    assert(s.skip(address.len() as int + 1) == tail);
}

proof fn lemma_last_colon(address: Seq<char>, tail: Seq<char>)
    requires
        lan::lacks(tail, ':'),
        ":"@ == seq![':'],
    ensures
        last_position(address + ":"@ + tail, ':') == Some(address.len() as int),
    decreases tail.len(),
{
    let s = address + ":"@ + tail;
    if tail.len() > 0 {
        let rest = tail.drop_last();
        assert(tail[tail.len() - 1] != ':');
        assert forall|i: int| 0 <= i < rest.len() implies #[trigger] rest[i] != ':' by {
            assert(rest[i] == tail[i]);
        }
        lemma_last_colon(address, rest);
        assert(s.drop_last() == address + ":"@ + rest);
    }
}

proof fn lemma_no_colon(s: Seq<char>)
    requires
        lan::lacks(s, ':'),
    ensures
        last_position(s, ':') is None,
    decreases s.len(),
{
    if s.len() > 0 {
        assert(s[s.len() - 1] != ':');
        assert forall|i: int| 0 <= i < s.len() - 1 implies #[trigger] s.drop_last()[i] != ':' by {
            assert(s.drop_last()[i] == s[i]);
        }
        lemma_no_colon(s.drop_last());
    }
}

/// A text with a backslash before each backslash and each quotation mark.
pub open spec fn escaped(value: Seq<char>) -> Seq<char>
    decreases value.len(),
{
    if value.len() == 0 {
        Seq::empty()
    } else {
        let before = escaped(value.drop_last());
        let c = value.last();
        if c == '\\' || c == '"' {
            before.push('\\').push(c)
        } else {
            before.push(c)
        }
    }
}

/// A text as a quoted string of a pipeline description.
pub open spec fn literal_text(value: Seq<char>) -> Seq<char> {
    seq!['"'] + escaped(value) + seq!['"']
}

/// Quotes a text for a pipeline description.
pub fn gst_string_literal(value: &str) -> (r: String)
    ensures
        r@ == literal_text(value@),
{
    let chars = text::chars_of(value);
    let mut out = String::new();
    out.push('"');
    let mut i: usize = 0;
    assert(chars@.take(0) == Seq::<char>::empty());
    while i < chars.len()
        invariant
            i <= chars.len(),
            out@ == seq!['"'] + escaped(chars@.take(i as int)),
        decreases chars.len() - i,
    {
        assert(chars@.take(i + 1).drop_last() == chars@.take(i as int));
        let c = chars[i];
        if c == '\\' || c == '"' {
            out.push('\\');
        }
        out.push(c);
        assert(out@ == seq!['"'] + escaped(chars@.take(i + 1)));
        i += 1;
    }
    assert(chars@.take(chars@.len() as int) == chars@);
    out.push('"');
    assert(out@ == literal_text(value@));
    out
}

/// A text without the backslash before each character that it protects.
pub open spec fn unescaped(value: Seq<char>) -> Seq<char>
    decreases value.len(),
{
    if value.len() == 0 {
        Seq::empty()
    } else if value[0] == '\\' && value.len() > 1 {
        seq![value[1]] + unescaped(value.skip(2))
    } else {
        seq![value[0]] + unescaped(value.skip(1))
    }
}

/// A quoted text stands between two quotation marks and is read back as it was.
pub proof fn law_quoted_text_is_read_back(value: Seq<char>)
    ensures
        ({
            let quoted = literal_text(value);
            let inside = quoted.subrange(1, quoted.len() - 1);
            &&& quoted.len() >= 2 && quoted[0] == '"' && quoted.last() == '"'
            &&& unescaped(inside) == value
            &&& forall|i: int|
                0 <= i < inside.len() && #[trigger] inside[i] == '"' ==> i > 0 && inside[i - 1]
                    == '\\'
        }),
{
    let quoted = literal_text(value);
    assert(quoted.subrange(1, quoted.len() - 1) == escaped(value));
    assert(value == value + Seq::<char>::empty());
    lemma_unescaped(value, Seq::empty());
    assert(escaped(value) + Seq::<char>::empty() == escaped(value));
    lemma_quotes_are_escaped(value);
}

proof fn lemma_unescaped(value: Seq<char>, after: Seq<char>)
    ensures
        unescaped(escaped(value) + after) == value + unescaped(after),
    decreases value.len(),
{
    if value.len() == 0 {
        assert(escaped(value) + after == after);
        assert(value + unescaped(after) == unescaped(after));
    } else {
        let rest = value.drop_last();
        let c = value.last();
        let tail = if c == '\\' || c == '"' {
            seq!['\\', c]
        } else {
            seq![c]
        };
        let whole = tail + after;
        lemma_unescaped(rest, whole);
        assert(escaped(value) + after == escaped(rest) + whole);
        if tail.len() == 2 {
            assert(whole[0] == '\\' && whole[1] == c && whole.skip(2) == after);
        } else {
            assert(whole[0] == c && whole.skip(1) == after);
        }
        assert(rest + (seq![c] + unescaped(after)) == value + unescaped(after));
    }
}

proof fn lemma_quotes_are_escaped(value: Seq<char>)
    ensures
        forall|i: int|
            0 <= i < escaped(value).len() && #[trigger] escaped(value)[i] == '"' ==> i > 0
                && escaped(value)[i - 1] == '\\',
    decreases value.len(),
{
    if value.len() > 0 {
        let before = escaped(value.drop_last());
        lemma_quotes_are_escaped(value.drop_last());
        assert forall|i: int|
            0 <= i < escaped(value).len() && #[trigger] escaped(value)[i] == '"' implies i > 0
            && escaped(value)[i - 1] == '\\' by {
            if i < before.len() {
                assert(before[i] == '"');
            }
        }
    }
}

/// The size part of video caps; without both dimensions the native size is kept.
pub open spec fn size_text(width: Option<u32>, height: Option<u32>) -> Seq<char> {
    match (width, height) {
        (Some(width), Some(height)) => ",width="@ + text::dec(width as nat) + ",height="@
            + text::dec(height as nat),
        _ => Seq::empty(),
    }
}

/// The conversion of captured frames: to NV12 on the GPU, and down to system memory where they
/// cannot stay there.
pub open spec fn caps_text(fps: u32, width: Option<u32>, height: Option<u32>, d3d11: bool) -> Seq<
    char,
> {
    let rate = text::dec(fps as nat);
    let size = size_text(width, height);
    let on_gpu =
        "d3d11convert ! video/x-raw(memory:D3D11Memory),format=NV12,framerate="@ + rate + "/1"@
        + size;
    if d3d11 {
        on_gpu
    } else {
        on_gpu + " ! d3d11download ! video/x-raw,format=NV12,framerate="@ + rate + "/1"@ + size
    }
}

/// Describes the conversion of captured frames.
pub fn video_caps(fps: u32, width: Option<u32>, height: Option<u32>, d3d11: bool) -> (r: String)
    ensures
        r@ == caps_text(fps, width, height, d3d11),
{
    let mut size = String::new();
    if let (Some(width), Some(height)) = (width, height) {
        size.push_str(",width=");
        text::push_dec(&mut size, width as u64);
        size.push_str(",height=");
        text::push_dec(&mut size, height as u64);
        assert(size@ == ",width="@ + text::dec(width as nat) + ",height="@ + text::dec(
            height as nat,
        ));
    }
    assert(size@ == size_text(width, height));
    let mut out =
        "d3d11convert ! video/x-raw(memory:D3D11Memory),format=NV12,framerate=".to_owned();
    text::push_dec(&mut out, fps as u64);
    out.push_str("/1");
    out.push_str(&size);
    if !d3d11 {
        out.push_str(" ! d3d11download ! video/x-raw,format=NV12,framerate=");
        text::push_dec(&mut out, fps as u64);
        out.push_str("/1");
        out.push_str(&size);
    }
    out
}

proof fn lemma_caps_keys()
    ensures
        text::ends_with(
            "d3d11convert ! video/x-raw(memory:D3D11Memory),format=NV12,framerate="@,
            ",framerate="@,
        ),
        text::starts_with(
            "d3d11convert ! video/x-raw(memory:D3D11Memory),format=NV12,framerate="@,
            "d3d11convert ! video/x-raw(memory:D3D11Memory),format=NV12,"@,
        ),
        text::ends_with(
            " ! d3d11download ! video/x-raw,format=NV12,framerate="@,
            ",framerate="@,
        ),
        text::starts_with(
            " ! d3d11download ! video/x-raw,format=NV12,framerate="@,
            " ! d3d11download ! video/x-raw,format=NV12,"@,
        ),
        "/1"@.len() == 2,
        reading::ends_numbers("/1"@),
        reading::ends_numbers(",height="@),
        ",height="@.len() > 0,
{
    reveal_strlit("d3d11convert ! video/x-raw(memory:D3D11Memory),format=NV12,framerate=");
    reveal_strlit("d3d11convert ! video/x-raw(memory:D3D11Memory),format=NV12,");
    reveal_strlit(" ! d3d11download ! video/x-raw,format=NV12,framerate=");
    reveal_strlit(" ! d3d11download ! video/x-raw,format=NV12,");
    reveal_strlit(",framerate=");
    reveal_strlit("/1");
    reveal_strlit(",height=");
    let head = "d3d11convert ! video/x-raw(memory:D3D11Memory),format=NV12,framerate="@;
    let down = " ! d3d11download ! video/x-raw,format=NV12,framerate="@;
    let key = ",framerate="@;
    assert(head.subrange(head.len() - key.len(), head.len() as int) == key);
    assert(down.subrange(down.len() - key.len(), down.len() as int) == key);
    assert(head.subrange(0, 59)
        == "d3d11convert ! video/x-raw(memory:D3D11Memory),format=NV12,"@);
    assert(down.subrange(0, 43) == " ! d3d11download ! video/x-raw,format=NV12,"@);
}

/// The caps of frames that stay on the GPU say so, and hold the frame rate. Where both sides of a
/// size are asked for, the rest of the caps holds the width behind `width` and the height behind
/// `height`; where one is missing, there is no rest.
pub proof fn law_caps_tell_rate_and_size(fps: u32, width: Option<u32>, height: Option<u32>)
    ensures
        ({
            let caps = caps_text(fps, width, height, true);
            let native = caps_text(fps, None, None, true);
            let size = caps.skip(native.len() as int);
            &&& text::starts_with(
                caps,
                "d3d11convert ! video/x-raw(memory:D3D11Memory),format=NV12,"@,
            )
            &&& reading::tells(caps, ",framerate="@, fps as nat)
            &&& text::ends_with(native, "/1"@)
            &&& caps == native + size
            &&& width is Some && height is Some ==> reading::tells(
                size,
                ",width="@,
                width->0 as nat,
            ) && reading::tells(size, ",height="@, height->0 as nat)
            &&& width is None || height is None ==> caps == native
        }),
{
    let size = size_text(width, height);
    let head = "d3d11convert ! video/x-raw(memory:D3D11Memory),format=NV12,framerate="@;
    let caps = caps_text(fps, width, height, true);
    let native = caps_text(fps, None, None, true);
    let parts = Seq::<Seq<char>>::empty().push(
        head,
    ).push(
        text::dec(fps as nat),
    ).push(
        "/1"@,
    ).push(
        size,
    );
    let short = Seq::<Seq<char>>::empty().push(
        head,
    ).push(
        text::dec(fps as nat),
    ).push(
        "/1"@,
    );
    lemma_caps_keys();
    reading::lemma_cat_push();
    assert(caps == reading::cat(parts));
    assert(native == reading::cat(short) + Seq::<char>::empty());
    assert(native == reading::cat(short));
    reading::lemma_part_tells(parts, 1, ",framerate="@, fps as nat);
    reading::lemma_cat_at(parts, 0);
    assert(parts.take(0) == Seq::<Seq<char>>::empty());
    reading::lemma_starts(
        head,
        "d3d11convert ! video/x-raw(memory:D3D11Memory),format=NV12,"@,
        reading::cat(parts.skip(1)),
    );
    reading::lemma_cat_ends(short);
    assert(caps == native + size);
    assert(caps.skip(native.len() as int) == size);
    if width is Some && height is Some {
        lemma_size_text(width->0, height->0);
    }
}

proof fn lemma_size_text(width: u32, height: u32)
    ensures
        reading::tells(size_text(Some(width), Some(height)), ",width="@, width as nat),
        reading::tells(size_text(Some(width), Some(height)), ",height="@, height as nat),
{
    let (w, h) = (text::dec(width as nat), text::dec(height as nat));
    let size = size_text(Some(width), Some(height));
    lemma_caps_keys();
    assert(size == Seq::<char>::empty() + ",width="@ + w + (",height="@ + h));
    reading::lemma_tells(Seq::empty(), ",width="@, width as nat, ",height="@ + h);
    assert(size == (",width="@ + w) + ",height="@ + h + Seq::<char>::empty());
    reading::lemma_tells(",width="@ + w, ",height="@, height as nat, Seq::empty());
}

/// Frames that leave the GPU are converted there first, as those that stay; they are described once
/// more behind the download, with the same frame rate and size.
pub proof fn law_downloaded_frames_keep_rate_and_size(
    fps: u32,
    width: Option<u32>,
    height: Option<u32>,
)
    ensures
        ({
            let on_gpu = caps_text(fps, width, height, true);
            let native = caps_text(fps, None, None, true);
            let caps = caps_text(fps, width, height, false);
            let system = caps.skip(on_gpu.len() as int);
            let plain = caps_text(fps, None, None, false).skip(native.len() as int);
            &&& caps == on_gpu + system
            &&& text::starts_with(system, " ! d3d11download ! video/x-raw,format=NV12,"@)
            &&& reading::tells(system, ",framerate="@, fps as nat)
            &&& system == plain + on_gpu.skip(native.len() as int)
        }),
{
    let rate = text::dec(fps as nat);
    let size = size_text(width, height);
    let down = " ! d3d11download ! video/x-raw,format=NV12,framerate="@;
    let on_gpu = caps_text(fps, width, height, true);
    let native = caps_text(fps, None, None, true);
    let caps = caps_text(fps, width, height, false);
    let system = caps.skip(on_gpu.len() as int);
    let plain = caps_text(fps, None, None, false).skip(native.len() as int);
    lemma_caps_keys();
    assert(on_gpu.skip(native.len() as int) == size);
    assert(system == down + rate + ("/1"@ + size));
    assert(system == down + (rate + "/1"@ + size));
    assert(plain == down + rate + "/1"@);
    reading::lemma_tells_behind(down, ",framerate="@, fps as nat, "/1"@ + size);
    reading::lemma_starts(
        down,
        " ! d3d11download ! video/x-raw,format=NV12,"@,
        rate + "/1"@ + size,
    );
}

/// A capture of one monitor by its index.
pub open spec fn index_source_text(
    capture_api: CaptureApi,
    show_cursor: Seq<char>,
    monitor_index: int,
) -> Seq<char> {
    "d3d11screencapturesrc capture-api="@ + capture_api.name_text() + " monitor-index="@
        + text::dec_int(monitor_index) + " show-cursor="@ + show_cursor
}

fn index_source(capture_api: CaptureApi, show_cursor: &str, monitor_index: i32) -> (r: String)
    ensures
        r@ == index_source_text(capture_api, show_cursor@, monitor_index as int),
{
    let mut out = "d3d11screencapturesrc capture-api=".to_owned();
    out.push_str(capture_api.name());
    out.push_str(" monitor-index=");
    text::push_dec_i64(&mut out, monitor_index as i64);
    out.push_str(" show-cursor=");
    out.push_str(show_cursor);
    out
}

/// The capture of a target: by its handle where it has one. An index is ambiguous for a bundled
/// display, so a bundled display without a handle is refused.
pub open spec fn target_source_text(
    capture_api: CaptureApi,
    show_cursor: Seq<char>,
    target: DisplayMonitor,
) -> Result<Seq<char>, Seq<char>> {
    match target.monitor_handle {
        Some(handle) => Ok(
            "d3d11screencapturesrc capture-api="@ + capture_api.name_text() + " monitor-handle="@
                + text::dec(handle as nat) + " show-cursor="@ + show_cursor,
        ),
        None => if target.bundled_virtual_display {
            Err(elements::ambiguous_capture_text(target.adapter_name@))
        } else {
            Ok(
                index_source_text(
                    capture_api,
                    show_cursor,
                    match target.capture_index {
                        Some(index) => index as int,
                        None => -1,
                    },
                ),
            )
        },
    }
}

/// Describes the capture of a target.
pub fn capture_source_for_target(
    capture_api: CaptureApi,
    show_cursor: &str,
    target: &DisplayMonitor,
) -> (r: Result<String, PipelineError>)
    ensures
        decoders::gives_text(r, target_source_text(capture_api, show_cursor@, *target)),
{
    if let Some(handle) = target.monitor_handle {
        let mut out = "d3d11screencapturesrc capture-api=".to_owned();
        out.push_str(capture_api.name());
        out.push_str(" monitor-handle=");
        text::push_dec(&mut out, handle);
        out.push_str(" show-cursor=");
        out.push_str(show_cursor);
        return Ok(out);
    }
    if target.bundled_virtual_display {
        return Err(
            PipelineError::AmbiguousCapture { adapter_name: target.adapter_name.clone() },
        );
    }
    let monitor_index: i32 = match target.capture_index {
        Some(index) => index,
        None => -1,
    };
    Ok(index_source(capture_api, show_cursor, monitor_index))
}

pub open spec fn indexed_monitor(monitors: Seq<DisplayMonitor>, monitor_index: i32) -> Option<
    DisplayMonitor,
> {
    if monitor_index >= 0 {
        search::first(monitors, |m: DisplayMonitor| m.capture_index == Some(monitor_index))
    } else {
        search::first(monitors, |m: DisplayMonitor| m.primary)
    }
}

/// The monitor that an index captures; a negative index stands for the primary one.
pub fn capture_monitor_for_index(monitors: &Vec<DisplayMonitor>, monitor_index: i32) -> (r: Option<
    DisplayMonitor,
>)
    ensures
        r == indexed_monitor(monitors@, monitor_index),
{
    let ghost by_index = |m: DisplayMonitor| m.capture_index == Some(monitor_index);
    let ghost by_primary = |m: DisplayMonitor| m.primary;
    let ghost p = if monitor_index >= 0 {
        by_index
    } else {
        by_primary
    };
    let mut i: usize = 0;
    proof {
        search::lemma_first_done(monitors@, p);
    }
    while i < monitors.len()
        invariant
            i <= monitors.len(),
            by_index == (|m: DisplayMonitor| m.capture_index == Some(monitor_index)),
            by_primary == (|m: DisplayMonitor| m.primary),
            p == if monitor_index >= 0 {
                by_index
            } else {
                by_primary
            },
            search::first(monitors@.take(i as int), p) is None,
        decreases monitors.len() - i,
    {
        proof {
            search::lemma_first_step(monitors@, p, i as int);
        }
        let found = if monitor_index >= 0 {
            match monitors[i].capture_index {
                Some(index) => index == monitor_index,
                None => false,
            }
        } else {
            monitors[i].primary
        };
        if found {
            return Some(monitors[i].clone());
        }
        i += 1;
    }
    proof {
        search::lemma_first_done(monitors@, p);
    }
    None
}

/// The GPU that a sender captures on, which is always the one that drives the captured monitor.
pub open spec fn capture_gpu(
    target: Option<DisplayMonitor>,
    monitor_index: i32,
    machine: Machine,
) -> Option<GpuAdapter> {
    let monitor = search::or(target, indexed_monitor(machine.monitors@, monitor_index));
    match monitor {
        Some(monitor) => gpu::owner_of_monitor(monitor, machine.outputs@),
        None => None,
    }
}

/// The GPU DXGI desktop duplication captures on. `None` when the capture target cannot be tied to
/// a monitor.
pub fn capture_adapter(
    target: Option<&DisplayMonitor>,
    monitor_index: i32,
    machine: &Machine,
) -> (r: Option<GpuAdapter>)
    ensures
        r == capture_gpu(elements::pointee(target), monitor_index, *machine),
{
    match target {
        Some(target) => gpu::adapter_for_monitor(target, &machine.outputs),
        None => match capture_monitor_for_index(&machine.monitors, monitor_index) {
            Some(monitor) => gpu::adapter_for_monitor(&monitor, &machine.outputs),
            None => None,
        },
    }
}

/// Resolves the GPU the sender encodes on. `auto` follows the adapter that owns the capture target
/// so a multi-GPU machine does not encode on an adapter the frames never touch, which would force
/// every frame through system memory.
pub fn sender_gpu(
    selection: &str,
    capture_adapter: Option<&GpuAdapter>,
    adapters: &Vec<GpuAdapter>,
) -> (r: Option<GpuAdapter>)
    ensures
        r == search::or(
            gpu::selected(selection@, adapters@),
            elements::pointee(capture_adapter),
        ),
{
    match gpu::resolve(selection, adapters) {
        Some(gpu) => Some(gpu),
        None => match capture_adapter {
            Some(adapter) => Some(adapter.clone()),
            None => None,
        },
    }
}

/// What a sender captures, and the monitor that it is tied to.
pub open spec fn sender_source(
    args: SendArgs,
    target: Option<DisplayMonitor>,
    machine: Machine,
) -> Result<(Seq<char>, Option<DisplayMonitor>), Seq<char>> {
    let cursor = text::truth(!args.no_cursor);
    let preferred = monitors::preferred_virtual(machine.monitors@);
    let tied = if target is Some {
        target
    } else if args.prefer_virtual_display && args.monitor_index < 0 {
        preferred
    } else {
        None
    };
    match tied {
        Some(monitor) => match target_source_text(args.capture_api, cursor, monitor) {
            Ok(source) => Ok((source, Some(monitor))),
            Err(message) => Err(message),
        },
        None => if args.prefer_virtual_display && args.monitor_index < 0
            && args.enable_virtual_display {
            Err(
                "bundled virtual display is enabled but no capture-ready virtual target was found; refusing physical-display fallback"@,
            )
        } else {
            Ok((index_source_text(args.capture_api, cursor, args.monitor_index as int), None))
        },
    }
}

pub(crate) fn source_of(args: &SendArgs, target: Option<&DisplayMonitor>, machine: &Machine) -> (r: Result<
    (String, Option<DisplayMonitor>),
    PipelineError,
>)
    ensures
        match (r, sender_source(*args, elements::pointee(target), *machine)) {
            (Ok((source, monitor)), Ok((wanted, tied))) => source@ == wanted && monitor == tied,
            (Err(error), Err(message)) => error.text() == message,
            _ => false,
        },
{
    let cursor = text::truth_text(!args.no_cursor);
    let tied = match target {
        Some(target) => Some(target.clone()),
        None => if args.prefer_virtual_display && args.monitor_index < 0 {
            monitors::preferred_virtual_capture_target(&machine.monitors)
        } else {
            None
        },
    };
    if let Some(monitor) = tied {
        return match capture_source_for_target(args.capture_api, cursor, &monitor) {
            Ok(source) => Ok((source, Some(monitor))),
            Err(error) => Err(error),
        };
    }
    if args.prefer_virtual_display && args.monitor_index < 0 && args.enable_virtual_display {
        return Err(PipelineError::NoVirtualTarget);
    }
    let monitor_index: i32 = monitors::resolve_capture_monitor_index(
        args.monitor_index,
        args.prefer_virtual_display,
        &machine.monitors,
    );
    Ok((index_source(args.capture_api, cursor, monitor_index), None))
}

proof fn lemma_source_keys()
    ensures
        text::ends_with("d3d11screencapturesrc capture-api="@, " capture-api="@),
        text::ends_with(" monitor-index="@, " monitor-index="@),
        text::ends_with(" monitor-handle="@, " monitor-handle="@),
        text::ends_with(" show-cursor="@, " show-cursor="@),
        reading::ends_numbers(" show-cursor="@) && " show-cursor="@.len() > 0,
{
    reveal_strlit("d3d11screencapturesrc capture-api=");
    reveal_strlit(" capture-api=");
    reveal_strlit(" monitor-index=");
    reveal_strlit(" monitor-handle=");
    reveal_strlit(" show-cursor=");
    let api = "d3d11screencapturesrc capture-api="@;
    assert(api.subrange(api.len() - 13, api.len() as int) == " capture-api="@);
    assert(" monitor-index="@.subrange(0, 15) == " monitor-index="@);
    assert(" monitor-handle="@.subrange(0, 16) == " monitor-handle="@);
    assert(" show-cursor="@.subrange(0, 13) == " show-cursor="@);
}

/// A capture names the display that it is of: the one that the sender is tied to by its handle, or
/// by its index where it has no handle, and otherwise the index that was asked for. It draws the
/// cursor unless that was switched off, and uses the interface that was asked for.
pub proof fn law_capture_names_its_display(
    args: SendArgs,
    target: Option<DisplayMonitor>,
    machine: Machine,
)
    ensures
        sender_source(args, target, machine) matches Ok((source, tied)) ==> {
            &&& tied is Some && tied->0.monitor_handle is Some ==> reading::tells(
                source,
                " monitor-handle="@,
                tied->0.monitor_handle->0 as nat,
            )
            &&& tied is Some && tied->0.monitor_handle is None ==> reading::tells_integer(
                source,
                " monitor-index="@,
                if tied->0.capture_index is Some {
                    tied->0.capture_index->0 as int
                } else {
                    -1
                },
            )
            &&& tied is None ==> reading::tells_integer(
                source,
                " monitor-index="@,
                args.monitor_index as int,
            )
            &&& text::ends_with(
                source,
                if args.no_cursor {
                    "false"@
                } else {
                    "true"@
                },
            )
            &&& text::contains(
                source,
                " capture-api="@ + if args.capture_api == CaptureApi::Dxgi {
                    "dxgi"@
                } else {
                    "wgc"@
                },
            )
            &&& target is Some ==> tied == target
            &&& target is None && (args.monitor_index >= 0 || !args.prefer_virtual_display)
                ==> tied is None
        },
{
    if let Ok((source, tied)) = sender_source(args, target, machine) {
        let index: int = if tied is None {
            args.monitor_index as int
        } else if tied->0.capture_index is Some {
            tied->0.capture_index->0 as int
        } else {
            -1
        };
        let by_handle = tied is Some && tied->0.monitor_handle is Some;
        let parts = Seq::<Seq<char>>::empty().push("d3d11screencapturesrc capture-api="@).push(
            args.capture_api.name_text(),
        ).push(
            if by_handle {
                " monitor-handle="@
            } else {
                " monitor-index="@
            },
        ).push(
            if by_handle {
                text::dec(tied->0.monitor_handle->0 as nat)
            } else {
                text::dec_int(index)
            },
        ).push(" show-cursor="@).push(text::truth(!args.no_cursor));
        reading::lemma_cat_push();
        assert(source == reading::cat(parts));
        lemma_source_keys();
        if by_handle {
            reading::lemma_part_tells(
                parts,
                3,
                " monitor-handle="@,
                tied->0.monitor_handle->0 as nat,
            );
        } else {
            reading::lemma_part_tells_integer(parts, 3, " monitor-index="@, index);
        }
        reading::lemma_part_behind(parts, 1, " capture-api="@);
        reading::lemma_cat_ends(parts);
    }
}

/// The GPU of a capture is the one that drives the captured display: the target where there is one,
/// else a display with the index, or for a negative index a primary one.
pub proof fn law_capture_gpu_drives_the_captured_display(
    target: Option<DisplayMonitor>,
    monitor_index: i32,
    machine: Machine,
    i: int,
)
    requires
        0 <= i < machine.monitors@.len(),
    ensures
        target is Some ==> capture_gpu(target, monitor_index, machine) == gpu::owner_of_monitor(
            target->0,
            machine.outputs@,
        ),
        target is None && (if monitor_index >= 0 {
            machine.monitors@[i].capture_index == Some(monitor_index)
        } else {
            machine.monitors@[i].primary
        }) ==> exists|k: int|
            0 <= k <= i && (if monitor_index >= 0 {
                (#[trigger] machine.monitors@[k]).capture_index == Some(monitor_index)
            } else {
                machine.monitors@[k].primary
            }) && capture_gpu(target, monitor_index, machine) == gpu::owner_of_monitor(
                machine.monitors@[k],
                machine.outputs@,
            ),
{
    let all = machine.monitors@;
    let by_index = |m: DisplayMonitor| m.capture_index == Some(monitor_index);
    let by_primary = |m: DisplayMonitor| m.primary;
    if target is None {
        if monitor_index >= 0 && by_index(all[i]) {
            search::lemma_first_exists(all, by_index, i);
        }
        if monitor_index < 0 && by_primary(all[i]) {
            search::lemma_first_exists(all, by_primary, i);
        }
    }
}

/// What is wrong with the numbers and the host of a sender, if anything.
pub open spec fn sender_video_problem(args: SendArgs) -> Option<Seq<char>> {
    if args.fps == 0 {
        Some(elements::not_positive_text("fps"@))
    } else if args.bitrate == 0 {
        Some(elements::not_positive_text("bitrate"@))
    } else if args.mtu == 0 {
        Some(elements::not_positive_text("mtu"@))
    } else if args.udp_buffer_size == 0 {
        Some(elements::not_positive_text("udp-buffer-size"@))
    } else if args.max_receivers == 0 {
        Some(elements::not_positive_text("max-receivers"@))
    } else if !valid_qos_dscp(args.qos_dscp) {
        Some("--qos-dscp must be -1 or 0..63"@)
    } else if args.width is Some != args.height is Some {
        Some("--width and --height must be specified together"@)
    } else if unresolved_host(args.host@) {
        Some("sender host was not resolved; run discovery first or pass explicit --host"@)
    } else {
        None
    }
}

pub(crate) fn check_sender_video(args: &SendArgs) -> (r: Result<(), PipelineError>)
    ensures
        match r {
            Ok(_) => sender_video_problem(*args) is None,
            Err(error) => sender_video_problem(*args) == Some(error.text()),
        },
{
    ensure_positive("fps", args.fps)?;
    ensure_positive("bitrate", args.bitrate)?;
    ensure_positive("mtu", args.mtu)?;
    ensure_positive("udp-buffer-size", args.udp_buffer_size)?;
    ensure_positive("max-receivers", args.max_receivers)?;
    if !(args.qos_dscp == -1 || (0 <= args.qos_dscp && args.qos_dscp <= 63)) {
        return Err(PipelineError::QosDscp);
    }
    if args.width.is_some() != args.height.is_some() {
        return Err(PipelineError::SizePair);
    }
    if is_auto_host(&args.host) {
        return Err(PipelineError::HostUnresolved);
    }
    Ok(())
}

/// Whether frames can stay in GPU memory from capture to encoder. Frames captured on one GPU
/// cannot stay in D3D11 memory while another GPU encodes them, so that combination goes through
/// system memory and lets the encoder upload on its own device.
pub open spec fn keeps_gpu_memory(
    args: SendArgs,
    encoder: encoders::SelectedEncoder,
    capture: Option<GpuAdapter>,
    machine: Machine,
) -> bool {
    &&& args.zero_copy
    &&& encoder.takes_d3d11(machine.registry)
    &&& encoder.adapter_luid is Some ==> capture is Some && capture->0.luid
        == encoder.adapter_luid->0
}

/// The video pipeline of a sender, from its parts.
pub open spec fn sender_video_text(
    args: SendArgs,
    source: Seq<char>,
    d3d11: bool,
    encoder: encoders::SelectedEncoder,
    clients: Seq<char>,
    machine: Machine,
) -> Seq<char> {
    source + " ! queue max-size-buffers=1 max-size-time=0 max-size-bytes=0 leaky=downstream ! "@
        + caps_text(args.fps, args.width, args.height, d3d11) + " ! "@ + encoder.chain_text(
        args.bitrate,
        args.fps,
        args.nvidia_tuning,
        machine.registry,
        machine.monitors@,
    ) + " ! h264parse config-interval=-1 ! rtph264pay name="@ + SENDER_RTP_PAY_NAME@
        + " pt=96 mtu="@ + text::dec(args.mtu as nat)
        + " config-interval=-1 aggregate-mode=zero-latency ! multiudpsink clients="@ + literal_text(
        clients,
    ) + " sync=false async=false buffer-size="@ + text::dec(args.udp_buffer_size as nat)
        + " qos-dscp="@ + text::dec_int(args.qos_dscp as int) + " send-duplicates=false ttl=1"@
}

/// The video pipeline of a sender, or the message that says why there is none.
pub open spec fn sender_video(
    args: SendArgs,
    target: Option<DisplayMonitor>,
    machine: Machine,
) -> Result<Seq<char>, Seq<char>> {
    match sender_video_problem(args) {
        Some(message) => Err(message),
        None => match clients_text(args.host@, args.port, false) {
            Err(message) => Err(message),
            Ok(clients) => match sender_source(args, target, machine) {
                Err(message) => Err(message),
                Ok((source, tied)) => {
                    let capture = capture_gpu(tied, args.monitor_index, machine);
                    let gpu = search::or(
                        gpu::selected(args.gpu@, machine.adapters@),
                        capture,
                    );
                    match encoders::chosen_encoder(
                        args.encoder,
                        args.allow_software_encoder,
                        gpu,
                        machine.registry,
                    ) {
                        Err(message) => Err(message),
                        Ok(encoder) => Ok(
                            sender_video_text(
                                args,
                                source,
                                keeps_gpu_memory(args, encoder, capture, machine),
                                encoder,
                                clients,
                                machine,
                            ),
                        ),
                    }
                },
            },
        },
    }
}

/// Builds the video pipeline of a sender, pinned to one capture target where one is given, so
/// that each receiver can get its own display.
pub fn build_sender_video_pipeline_for(
    args: &SendArgs,
    target: Option<&DisplayMonitor>,
    machine: &Machine,
) -> (r: Result<String, PipelineError>)
    ensures
        decoders::gives_text(r, sender_video(*args, elements::pointee(target), *machine)),
{
    check_sender_video(args)?;
    let clients = multi_udp_clients(&args.host, args.port)?;
    let (source, tied) = source_of(args, target, machine)?;
    let capture = capture_adapter(tied.as_ref(), args.monitor_index, machine);
    let gpu = sender_gpu(&args.gpu, capture.as_ref(), &machine.adapters);
    let encoder = encoders::select_encoder(
        args.encoder,
        args.allow_software_encoder,
        gpu.as_ref(),
        &machine.registry,
    )?;
    let same_gpu = match encoder.adapter_luid {
        Some(encoder_luid) => match &capture {
            Some(adapter) => adapter.luid == encoder_luid,
            None => false,
        },
        None => true,
    };
    let d3d11 = args.zero_copy && encoder.supports_d3d11_input(&machine.registry) && same_gpu;
    let caps = video_caps(args.fps, args.width, args.height, d3d11);
    let chain = encoder.chain(
        args.bitrate,
        args.fps,
        args.nvidia_tuning,
        &machine.registry,
        &machine.monitors,
    );
    let mut out = source;
    out.push_str(
        " ! queue max-size-buffers=1 max-size-time=0 max-size-bytes=0 leaky=downstream ! ",
    );
    out.push_str(&caps);
    out.push_str(" ! ");
    out.push_str(&chain);
    out.push_str(" ! h264parse config-interval=-1 ! rtph264pay name=");
    out.push_str(SENDER_RTP_PAY_NAME);
    out.push_str(" pt=96 mtu=");
    text::push_dec(&mut out, args.mtu as u64);
    out.push_str(
        " config-interval=-1 aggregate-mode=zero-latency ! multiudpsink clients=",
    );
    out.push_str(&gst_string_literal(&clients));
    out.push_str(" sync=false async=false buffer-size=");
    text::push_dec(&mut out, args.udp_buffer_size as u64);
    out.push_str(" qos-dscp=");
    text::push_dec_i64(&mut out, args.qos_dscp as i64);
    out.push_str(" send-duplicates=false ttl=1");
    Ok(out)
}

proof fn lemma_caps_tell(fps: u32, width: Option<u32>, height: Option<u32>, d3d11: bool)
    ensures
        reading::tells(caps_text(fps, width, height, d3d11), ",framerate="@, fps as nat),
        width is Some && height is Some ==> {
            &&& reading::tells(caps_text(fps, width, height, d3d11), ",width="@, width->0 as nat)
            &&& reading::tells(caps_text(fps, width, height, d3d11), ",height="@, height->0 as nat)
        },
{
    let empty = Seq::<char>::empty();
    let caps = caps_text(fps, width, height, true);
    let native = caps_text(fps, None, None, true);
    let size = caps.skip(native.len() as int);
    law_caps_tell_rate_and_size(fps, width, height);
    assert(native + size + empty == caps);
    if width is Some && height is Some {
        reading::lemma_tells_within(native, size, empty, ",width="@, width->0 as nat);
        reading::lemma_tells_within(native, size, empty, ",height="@, height->0 as nat);
    }
    if !d3d11 {
        let both = caps_text(fps, width, height, false);
        let system = both.skip(caps.len() as int);
        law_downloaded_frames_keep_rate_and_size(fps, width, height);
        reveal_strlit(" ! d3d11download ! video/x-raw,format=NV12,");
        assert(system[0] == system.subrange(0, 43)[0]);
        assert(empty + caps + system == both);
        reading::lemma_tells_within(empty, caps, system, ",framerate="@, fps as nat);
        if width is Some && height is Some {
            reading::lemma_tells_within(empty, caps, system, ",width="@, width->0 as nat);
            reading::lemma_tells_within(empty, caps, system, ",height="@, height->0 as nat);
        }
    }
}

proof fn lemma_sender_keys()
    ensures
        text::ends_with(" pt=96 mtu="@, " mtu="@),
        text::ends_with(" sync=false async=false buffer-size="@, " buffer-size="@),
        text::ends_with(
            " config-interval=-1 aggregate-mode=zero-latency ! multiudpsink clients="@,
            " ! multiudpsink clients="@,
        ),
        reading::ends_numbers(" ! "@) && " ! "@.len() > 0,
        reading::ends_numbers(
            " config-interval=-1 aggregate-mode=zero-latency ! multiudpsink clients="@,
        ),
        " config-interval=-1 aggregate-mode=zero-latency ! multiudpsink clients="@.len() > 0,
        reading::ends_numbers(" qos-dscp="@) && " qos-dscp="@.len() > 0,
        reading::ends_numbers(" send-duplicates=false ttl=1"@),
        " send-duplicates=false ttl=1"@.len() > 0,
{
    reveal_strlit(" pt=96 mtu=");
    reveal_strlit(" mtu=");
    reveal_strlit(" sync=false async=false buffer-size=");
    reveal_strlit(" buffer-size=");
    reveal_strlit(" config-interval=-1 aggregate-mode=zero-latency ! multiudpsink clients=");
    reveal_strlit(" ! multiudpsink clients=");
    reveal_strlit(" ! ");
    reveal_strlit(" qos-dscp=");
    reveal_strlit(" send-duplicates=false ttl=1");
    assert(" pt=96 mtu="@.subrange(6, 11) == " mtu="@);
    assert(" sync=false async=false buffer-size="@.subrange(23, 36) == " buffer-size="@);
    assert(" config-interval=-1 aggregate-mode=zero-latency ! multiudpsink clients="@.subrange(
        47,
        71,
    ) == " ! multiudpsink clients="@);
}

/// What a sender was asked for is in its video pipeline: the frame rate and the size in the caps,
/// the packet size, the socket's buffer and its traffic class behind their keys, the receivers with
/// their ports as the clients of the socket, and the capture of the display first of all.
pub proof fn law_sender_video_carries_its_settings(
    args: SendArgs,
    target: Option<DisplayMonitor>,
    machine: Machine,
)
    ensures
        sender_video(args, target, machine) matches Ok(video) ==> {
            &&& reading::tells(video, ",framerate="@, args.fps as nat)
            &&& args.width is Some ==> reading::tells(video, ",width="@, args.width->0 as nat)
            &&& args.height is Some ==> reading::tells(video, ",height="@, args.height->0 as nat)
            &&& reading::tells(video, " mtu="@, args.mtu as nat)
            &&& reading::tells(video, " buffer-size="@, args.udp_buffer_size as nat)
            &&& reading::tells_integer(video, " qos-dscp="@, args.qos_dscp as int)
            &&& sender_source(args, target, machine) matches Ok((source, _))
                && text::starts_with(video, source)
            &&& clients_text(args.host@, args.port, false) matches Ok(clients) && text::contains(
                video,
                " ! multiudpsink clients="@ + literal_text(clients),
            )
        },
{
    if let Ok(video) = sender_video(args, target, machine) {
        let clients = clients_text(args.host@, args.port, false)->Ok_0;
        let (source, tied) = sender_source(args, target, machine)->Ok_0;
        let capture = capture_gpu(tied, args.monitor_index, machine);
        let gpu = search::or(gpu::selected(args.gpu@, machine.adapters@), capture);
        let encoder = encoders::chosen_encoder(
            args.encoder,
            args.allow_software_encoder,
            gpu,
            machine.registry,
        )->Ok_0;
        lemma_sender_video_text(
            args,
            source,
            keeps_gpu_memory(args, encoder, capture, machine),
            encoder,
            clients,
            machine,
        );
    }
}

proof fn lemma_sender_video_text(
    args: SendArgs,
    source: Seq<char>,
    d3d11: bool,
    encoder: encoders::SelectedEncoder,
    clients: Seq<char>,
    machine: Machine,
)
    ensures
        ({
            let video = sender_video_text(args, source, d3d11, encoder, clients, machine);
            &&& reading::tells(video, ",framerate="@, args.fps as nat)
            &&& args.width is Some && args.height is Some ==> {
                &&& reading::tells(video, ",width="@, args.width->0 as nat)
                &&& reading::tells(video, ",height="@, args.height->0 as nat)
            }
            &&& reading::tells(video, " mtu="@, args.mtu as nat)
            &&& reading::tells(video, " buffer-size="@, args.udp_buffer_size as nat)
            &&& reading::tells_integer(video, " qos-dscp="@, args.qos_dscp as int)
            &&& text::starts_with(video, source)
            &&& text::contains(video, " ! multiudpsink clients="@ + literal_text(clients))
        }),
{
    let video = sender_video_text(args, source, d3d11, encoder, clients, machine);
    let parts = Seq::<Seq<char>>::empty().push(
        source,
    ).push(
        " ! queue max-size-buffers=1 max-size-time=0 max-size-bytes=0 leaky=downstream ! "@,
    ).push(
        caps_text(args.fps, args.width, args.height, d3d11),
    ).push(
        " ! "@,
    ).push(
        encoder.chain_text(
            args.bitrate,
            args.fps,
            args.nvidia_tuning,
            machine.registry,
            machine.monitors@,
        ),
    ).push(
        " ! h264parse config-interval=-1 ! rtph264pay name="@,
    ).push(
        SENDER_RTP_PAY_NAME@,
    ).push(
        " pt=96 mtu="@,
    ).push(
        text::dec(args.mtu as nat),
    ).push(
        " config-interval=-1 aggregate-mode=zero-latency ! multiudpsink clients="@,
    ).push(
        literal_text(clients),
    ).push(
        " sync=false async=false buffer-size="@,
    ).push(
        text::dec(args.udp_buffer_size as nat),
    ).push(
        " qos-dscp="@,
    ).push(
        text::dec_int(args.qos_dscp as int),
    ).push(
        " send-duplicates=false ttl=1"@,
    );
    reading::lemma_cat_push();
    assert(video == reading::cat(parts));
    lemma_sender_keys();
    lemma_caps_tell(args.fps, args.width, args.height, d3d11);
    reading::lemma_part_within(parts, 2, ",framerate="@, args.fps as nat);
    if args.width is Some && args.height is Some {
        reading::lemma_part_within(parts, 2, ",width="@, args.width->0 as nat);
        reading::lemma_part_within(parts, 2, ",height="@, args.height->0 as nat);
    }
    reading::lemma_cat_ends(parts);
    reading::lemma_part_tells(parts, 8, " mtu="@, args.mtu as nat);
    reading::lemma_part_behind(parts, 10, " ! multiudpsink clients="@);
    reading::lemma_part_tells(parts, 12, " buffer-size="@, args.udp_buffer_size as nat);
    assert(" qos-dscp="@.subrange(0, " qos-dscp="@.len() as int) == " qos-dscp="@);
    reading::lemma_part_tells_integer(parts, 14, " qos-dscp="@, args.qos_dscp as int);
}

/// A sender that is to use the bundled virtual display, and was given no capture target, never
/// captures by monitor index: it captures a virtual display that is not the primary one, or is
/// refused.
pub proof fn law_enabled_virtual_display_has_no_physical_fallback(args: SendArgs, machine: Machine)
    requires
        args.prefer_virtual_display,
        args.enable_virtual_display,
        args.monitor_index < 0,
    ensures
        match sender_source(args, None, machine) {
            Ok((source, tied)) => tied is Some && !tied->0.primary && machine.monitors@.contains(
                tied->0,
            ) && (tied->0.bundled_target() || tied->0.other_virtual_target()),
            Err(_) => true,
        },
{
    let all = machine.monitors@;
    search::lemma_first_sound(all, |m: DisplayMonitor| m.bundled_target());
    search::lemma_first_sound(all, |m: DisplayMonitor| m.other_virtual_target());
}

/// The bundled display is captured by its handle alone.
pub proof fn law_bundled_display_is_captured_by_handle(
    args: SendArgs,
    target: DisplayMonitor,
    machine: Machine,
)
    requires
        target.bundled_virtual_display,
    ensures
        sender_source(args, Some(target), machine) is Ok <==> target.monitor_handle is Some,
{
}

/// What is wrong with the arguments of an audio sender, if anything.
pub open spec fn sender_audio_problem(args: SendArgs) -> Option<Seq<char>> {
    if args.audio_bitrate == 0 {
        Some(elements::not_positive_text("audio-bitrate"@))
    } else if args.mtu == 0 {
        Some(elements::not_positive_text("mtu"@))
    } else if args.udp_buffer_size == 0 {
        Some(elements::not_positive_text("udp-buffer-size"@))
    } else if !valid_qos_dscp(args.qos_dscp) {
        Some("--qos-dscp must be -1 or 0..63"@)
    } else if !valid_audio_frame(args.audio_frame_ms@) {
        Some("--audio-frame-ms must be one of: 2.5, 5, 10, 20, 40, 60"@)
    } else if unresolved_host(args.host@) {
        Some("sender host was not resolved; run discovery first or pass explicit --host"@)
    } else {
        None
    }
}

/// The first of some elements that is not installed.
pub open spec fn missing_element(names: Seq<Seq<char>>, registry: ElementRegistry) -> Option<
    Seq<char>,
> {
    search::first(names, |name: Seq<char>| !registry.has(name))
}

/// The elements that an audio sender needs.
pub open spec fn sender_audio_elements() -> Seq<Seq<char>> {
    seq![
        "wasapi2src"@,
        "audioconvert"@,
        "audioresample"@,
        "opusenc"@,
        "rtpopuspay"@,
        "multiudpsink"@,
    ]
}

/// The elements that an audio receiver needs.
pub open spec fn receiver_audio_elements() -> Seq<Seq<char>> {
    seq!["rtpopusdepay"@, "opusdec"@, "audioconvert"@, "audioresample"@]
}

/// The audio pipeline of a sender.
pub open spec fn sender_audio_text(args: SendArgs, clients: Seq<char>) -> Seq<char> {
    "wasapi2src loopback=true low-latency=true provide-clock=false ! queue max-size-buffers=2 max-size-time=20000000 max-size-bytes=0 leaky=downstream ! audioconvert ! audioresample ! audio/x-raw,format=S16LE,rate=48000,channels=2 ! opusenc bitrate="@
        + text::dec(args.audio_bitrate as nat)
        + " bitrate-type=cbr audio-type=restricted-lowdelay frame-size="@ + args.audio_frame_ms@
        + " inband-fec=false dtx=false ! rtpopuspay pt=97 mtu="@ + text::dec(args.mtu as nat)
        + " perfect-rtptime=true ! multiudpsink clients="@ + literal_text(clients)
        + " sync=false async=false buffer-size="@ + text::dec(args.udp_buffer_size as nat)
        + " qos-dscp="@ + text::dec_int(args.qos_dscp as int) + " send-duplicates=false ttl=1"@
}

/// The audio pipeline of a sender, or the message that says why there is none.
pub open spec fn sender_audio(args: SendArgs, registry: ElementRegistry) -> Result<
    Seq<char>,
    Seq<char>,
> {
    match sender_audio_problem(args) {
        Some(message) => Err(message),
        None => match missing_element(sender_audio_elements(), registry) {
            Some(name) => Err(elements::missing_element_text(name)),
            None => match clients_text(args.host@, args.audio_port, true) {
                Ok(clients) => Ok(sender_audio_text(args, clients)),
                Err(message) => Err(message),
            },
        },
    }
}

fn require_all(names: &[&'static str], registry: &ElementRegistry) -> (r: Result<
    (),
    PipelineError,
>)
    ensures
        match r {
            Ok(_) => missing_element(
                Seq::new(names@.len(), |i: int| names@[i]@),
                *registry,
            ) is None,
            Err(error) => {
                let missing = missing_element(
                    Seq::new(names@.len(), |i: int| names@[i]@),
                    *registry,
                );
                missing is Some && error.text() == elements::missing_element_text(missing->0)
            },
        },
{
    let ghost all = Seq::new(names@.len(), |i: int| names@[i]@);
    let ghost p = |name: Seq<char>| !registry.has(name);
    let mut i: usize = 0;
    proof {
        search::lemma_first_done(all, p);
    }
    while i < names.len()
        invariant
            i <= names.len(),
            all == Seq::new(names@.len(), |i: int| names@[i]@),
            p == (|name: Seq<char>| !registry.has(name)),
            search::first(all.take(i as int), p) is None,
        decreases names.len() - i,
    {
        proof {
            search::lemma_first_step(all, p, i as int);
        }
        registry.require_element(names[i])?;
        i += 1;
    }
    proof {
        search::lemma_first_done(all, p);
    }
    Ok(())
}

fn check_sender_audio(args: &SendArgs) -> (r: Result<(), PipelineError>)
    ensures
        match r {
            Ok(_) => sender_audio_problem(*args) is None,
            Err(error) => sender_audio_problem(*args) == Some(error.text()),
        },
{
    ensure_positive("audio-bitrate", args.audio_bitrate)?;
    ensure_positive("mtu", args.mtu)?;
    ensure_positive("udp-buffer-size", args.udp_buffer_size)?;
    if !(args.qos_dscp == -1 || (0 <= args.qos_dscp && args.qos_dscp <= 63)) {
        return Err(PipelineError::QosDscp);
    }
    if !is_audio_frame(&args.audio_frame_ms) {
        return Err(PipelineError::AudioFrame);
    }
    if is_auto_host(&args.host) {
        return Err(PipelineError::HostUnresolved);
    }
    Ok(())
}

/// Builds the audio pipeline of a sender.
pub fn build_sender_audio_pipeline(args: &SendArgs, registry: &ElementRegistry) -> (r: Result<
    String,
    PipelineError,
>)
    ensures
        decoders::gives_text(r, sender_audio(*args, *registry)),
{
    check_sender_audio(args)?;
    let names = [
        "wasapi2src",
        "audioconvert",
        "audioresample",
        "opusenc",
        "rtpopuspay",
        "multiudpsink",
    ];
    assert(Seq::new(names@.len(), |i: int| names@[i]@) == sender_audio_elements());
    require_all(&names, registry)?;
    let clients = multi_udp_clients_force_port(&args.host, args.audio_port)?;
    let mut out =
        "wasapi2src loopback=true low-latency=true provide-clock=false ! queue max-size-buffers=2 max-size-time=20000000 max-size-bytes=0 leaky=downstream ! audioconvert ! audioresample ! audio/x-raw,format=S16LE,rate=48000,channels=2 ! opusenc bitrate=".to_owned();
    text::push_dec(&mut out, args.audio_bitrate as u64);
    out.push_str(" bitrate-type=cbr audio-type=restricted-lowdelay frame-size=");
    out.push_str(&args.audio_frame_ms);
    out.push_str(" inband-fec=false dtx=false ! rtpopuspay pt=97 mtu=");
    text::push_dec(&mut out, args.mtu as u64);
    out.push_str(" perfect-rtptime=true ! multiudpsink clients=");
    out.push_str(&gst_string_literal(&clients));
    out.push_str(" sync=false async=false buffer-size=");
    text::push_dec(&mut out, args.udp_buffer_size as u64);
    out.push_str(" qos-dscp=");
    text::push_dec_i64(&mut out, args.qos_dscp as i64);
    out.push_str(" send-duplicates=false ttl=1");
    Ok(out)
}

/// A sender encodes on the GPU that was selected, or else on the one that it captures on. The
/// encoder stands right behind the frames that it takes, which stay in GPU memory only where that
/// was asked for, the encoder can take them there, and it is not bound to another GPU than the one
/// that they were captured on.
pub proof fn law_sender_encodes_on_the_selected_gpu(
    args: SendArgs,
    target: Option<DisplayMonitor>,
    machine: Machine,
)
    ensures
        sender_video(args, target, machine) matches Ok(video) ==> {
            let tied = (sender_source(args, target, machine)->Ok_0).1;
            let capture = capture_gpu(tied, args.monitor_index, machine);
            let selected = gpu::selected(args.gpu@, machine.adapters@);
            let chosen = encoders::chosen_encoder(
                args.encoder,
                args.allow_software_encoder,
                if selected is Some {
                    selected
                } else {
                    capture
                },
                machine.registry,
            );
            &&& chosen matches Ok(encoder) && {
                let chain = encoder.chain_text(
                    args.bitrate,
                    args.fps,
                    args.nvidia_tuning,
                    machine.registry,
                    machine.monitors@,
                );
                let foreign = encoder.adapter_luid is Some && (capture is None || capture->0.luid
                    != encoder.adapter_luid->0);
                &&& args.zero_copy && encoder.takes_d3d11(machine.registry) && !foreign
                    ==> text::contains(
                    video,
                    caps_text(args.fps, args.width, args.height, true) + " ! "@ + chain,
                )
                &&& !args.zero_copy || !encoder.takes_d3d11(machine.registry) || foreign
                    ==> text::contains(
                    video,
                    caps_text(args.fps, args.width, args.height, false) + " ! "@ + chain,
                )
            }
        },
{
    if let Ok(video) = sender_video(args, target, machine) {
        let (source, tied) = sender_source(args, target, machine)->Ok_0;
        let capture = capture_gpu(tied, args.monitor_index, machine);
        let selected = gpu::selected(args.gpu@, machine.adapters@);
        assert(search::or(selected, capture) == if selected is Some {
            selected
        } else {
            capture
        });
        let encoder = encoders::chosen_encoder(
            args.encoder,
            args.allow_software_encoder,
            search::or(selected, capture),
            machine.registry,
        )->Ok_0;
        let keeps = keeps_gpu_memory(args, encoder, capture, machine);
        let clients = clients_text(args.host@, args.port, false)->Ok_0;
        lemma_encoder_follows_caps(args, source, keeps, encoder, clients, machine);
    }
}

proof fn lemma_encoder_follows_caps(
    args: SendArgs,
    source: Seq<char>,
    d3d11: bool,
    encoder: encoders::SelectedEncoder,
    clients: Seq<char>,
    machine: Machine,
)
    ensures
        text::contains(
            sender_video_text(args, source, d3d11, encoder, clients, machine),
            caps_text(args.fps, args.width, args.height, d3d11) + " ! "@ + encoder.chain_text(
                args.bitrate,
                args.fps,
                args.nvidia_tuning,
                machine.registry,
                machine.monitors@,
            ),
        ),
{
    let parts = Seq::<Seq<char>>::empty().push(source).push(
        " ! queue max-size-buffers=1 max-size-time=0 max-size-bytes=0 leaky=downstream ! "@,
    ).push(caps_text(args.fps, args.width, args.height, d3d11)).push(" ! "@).push(
        encoder.chain_text(
            args.bitrate,
            args.fps,
            args.nvidia_tuning,
            machine.registry,
            machine.monitors@,
        ),
    ).push(" ! h264parse config-interval=-1 ! rtph264pay name="@).push(SENDER_RTP_PAY_NAME@).push(
        " pt=96 mtu="@,
    ).push(text::dec(args.mtu as nat)).push(
        " config-interval=-1 aggregate-mode=zero-latency ! multiudpsink clients="@,
    ).push(literal_text(clients)).push(" sync=false async=false buffer-size="@).push(
        text::dec(args.udp_buffer_size as nat),
    ).push(" qos-dscp="@).push(text::dec_int(args.qos_dscp as int)).push(
        " send-duplicates=false ttl=1"@,
    );
    reading::lemma_cat_push();
    assert(sender_video_text(args, source, d3d11, encoder, clients, machine) == reading::cat(
        parts,
    ));
    reading::lemma_parts_in_a_row(parts, 2);
}

/// A sender is refused for its numbers exactly where one is zero that may not be, the traffic class
/// is none, or only one dimension is given; and for its host where that is still to be found.
pub proof fn law_senders_that_are_refused(args: SendArgs)
    ensures
        sender_video_problem(args) is None <==> {
            &&& args.fps > 0 && args.bitrate > 0 && args.mtu > 0 && args.udp_buffer_size > 0
            &&& args.max_receivers > 0
            &&& -1 <= args.qos_dscp < 64
            &&& args.width is Some && args.height is Some || args.width is None
                && args.height is None
            &&& !unresolved_host(args.host@)
        },
        sender_audio_problem(args) is None <==> {
            &&& args.audio_bitrate > 0 && args.mtu > 0 && args.udp_buffer_size > 0
            &&& -1 <= args.qos_dscp < 64
            &&& valid_audio_frame(args.audio_frame_ms@)
            &&& !unresolved_host(args.host@)
        },
{
}

/// The whole pipeline of a sender starts with its video pipeline. It ends with the audio pipeline
/// exactly where audio is enabled, and is nothing but video where it is not.
pub proof fn law_sender_audio_follows_video(
    args: SendArgs,
    target: Option<DisplayMonitor>,
    machine: Machine,
)
    ensures
        sender_pipeline(args, target, machine) matches Ok(whole) ==> {
            &&& sender_video(args, target, machine) matches Ok(video) && text::starts_with(
                whole,
                video,
            )
            &&& args.audio_enabled ==> (sender_audio(args, machine.registry) matches Ok(audio)
                && text::ends_with(whole, audio) && whole.len() == (sender_video(
                args,
                target,
                machine,
            )->Ok_0).len() + 1 + audio.len())
            &&& !args.audio_enabled ==> Ok::<Seq<char>, Seq<char>>(whole) == sender_video(
                args,
                target,
                machine,
            )
        },
{
    if let Ok(whole) = sender_pipeline(args, target, machine) {
        let video = sender_video(args, target, machine)->Ok_0;
        assert(whole.subrange(0, video.len() as int) == video);
        if args.audio_enabled {
            let audio = sender_audio(args, machine.registry)->Ok_0;
            reveal_strlit(" ");
            assert(whole.subrange(whole.len() - audio.len(), whole.len() as int) == audio);
        }
    }
}

proof fn lemma_audio_keys()
    ensures
        text::ends_with(
            "wasapi2src loopback=true low-latency=true provide-clock=false ! queue max-size-buffers=2 max-size-time=20000000 max-size-bytes=0 leaky=downstream ! audioconvert ! audioresample ! audio/x-raw,format=S16LE,rate=48000,channels=2 ! opusenc bitrate="@,
            " ! opusenc bitrate="@,
        ),
        text::ends_with(
            " bitrate-type=cbr audio-type=restricted-lowdelay frame-size="@,
            " frame-size="@,
        ),
        text::ends_with(" inband-fec=false dtx=false ! rtpopuspay pt=97 mtu="@, " mtu="@),
        text::ends_with(" perfect-rtptime=true ! multiudpsink clients="@, " ! multiudpsink clients="@),
        reading::ends_numbers(" bitrate-type=cbr audio-type=restricted-lowdelay frame-size="@),
        " bitrate-type=cbr audio-type=restricted-lowdelay frame-size="@.len() > 0,
        reading::ends_numbers(" perfect-rtptime=true ! multiudpsink clients="@),
        " perfect-rtptime=true ! multiudpsink clients="@.len() > 0,
{
    reveal_strlit("wasapi2src loopback=true low-latency=true provide-clock=false ! queue max-size-buffers=2 max-size-time=20000000 max-size-bytes=0 leaky=downstream ! audioconvert ! audioresample ! audio/x-raw,format=S16LE,rate=48000,channels=2 ! opusenc bitrate=");
    reveal_strlit(" ! opusenc bitrate=");
    reveal_strlit(" bitrate-type=cbr audio-type=restricted-lowdelay frame-size=");
    reveal_strlit(" frame-size=");
    reveal_strlit(" inband-fec=false dtx=false ! rtpopuspay pt=97 mtu=");
    reveal_strlit(" mtu=");
    reveal_strlit(" perfect-rtptime=true ! multiudpsink clients=");
    reveal_strlit(" ! multiudpsink clients=");
    let source = "wasapi2src loopback=true low-latency=true provide-clock=false ! queue max-size-buffers=2 max-size-time=20000000 max-size-bytes=0 leaky=downstream ! audioconvert ! audioresample ! audio/x-raw,format=S16LE,rate=48000,channels=2 ! opusenc bitrate="@;
    assert(source.subrange(source.len() - 19, source.len() as int) == " ! opusenc bitrate="@);
    let frame = " bitrate-type=cbr audio-type=restricted-lowdelay frame-size="@;
    assert(frame.subrange(frame.len() - 12, frame.len() as int) == " frame-size="@);
    let pay = " inband-fec=false dtx=false ! rtpopuspay pt=97 mtu="@;
    assert(pay.subrange(pay.len() - 5, pay.len() as int) == " mtu="@);
    let send = " perfect-rtptime=true ! multiudpsink clients="@;
    assert(send.subrange(send.len() - 24, send.len() as int) == " ! multiudpsink clients="@);
}

/// What a sender was asked for is in its audio pipeline: the bit rate and the frame length of the
/// encoder, the packet size, the socket's buffer and its traffic class behind their keys, and as
/// the clients of the socket the receivers, each at the audio port.
pub proof fn law_sender_audio_carries_its_settings(args: SendArgs, registry: ElementRegistry)
    ensures
        sender_audio(args, registry) matches Ok(audio) ==> {
            &&& reading::tells(audio, " ! opusenc bitrate="@, args.audio_bitrate as nat)
            &&& text::contains(audio, " frame-size="@ + args.audio_frame_ms@)
            &&& reading::tells(audio, " mtu="@, args.mtu as nat)
            &&& reading::tells(audio, " buffer-size="@, args.udp_buffer_size as nat)
            &&& reading::tells_integer(audio, " qos-dscp="@, args.qos_dscp as int)
            &&& clients_text(args.host@, args.audio_port, true) matches Ok(clients)
                && text::contains(audio, " ! multiudpsink clients="@ + literal_text(clients))
        },
{
    if let Ok(audio) = sender_audio(args, registry) {
        let clients = clients_text(args.host@, args.audio_port, true)->Ok_0;
        let parts = Seq::<Seq<char>>::empty().push(
            "wasapi2src loopback=true low-latency=true provide-clock=false ! queue max-size-buffers=2 max-size-time=20000000 max-size-bytes=0 leaky=downstream ! audioconvert ! audioresample ! audio/x-raw,format=S16LE,rate=48000,channels=2 ! opusenc bitrate="@,
        ).push(
            text::dec(args.audio_bitrate as nat),
        ).push(
            " bitrate-type=cbr audio-type=restricted-lowdelay frame-size="@,
        ).push(
            args.audio_frame_ms@,
        ).push(
            " inband-fec=false dtx=false ! rtpopuspay pt=97 mtu="@,
        ).push(
            text::dec(args.mtu as nat),
        ).push(
            " perfect-rtptime=true ! multiudpsink clients="@,
        ).push(
            literal_text(clients),
        ).push(
            " sync=false async=false buffer-size="@,
        ).push(
            text::dec(args.udp_buffer_size as nat),
        ).push(
            " qos-dscp="@,
        ).push(
            text::dec_int(args.qos_dscp as int),
        ).push(
            " send-duplicates=false ttl=1"@,
        );
        reading::lemma_cat_push();
        assert(audio == reading::cat(parts));
        lemma_audio_keys();
        lemma_sender_keys();
        reading::lemma_part_tells(parts, 1, " ! opusenc bitrate="@, args.audio_bitrate as nat);
        reading::lemma_part_behind(parts, 3, " frame-size="@);
        reading::lemma_part_tells(parts, 5, " mtu="@, args.mtu as nat);
        reading::lemma_part_behind(parts, 7, " ! multiudpsink clients="@);
        reading::lemma_part_tells(parts, 9, " buffer-size="@, args.udp_buffer_size as nat);
        assert(" qos-dscp="@.subrange(0, " qos-dscp="@.len() as int) == " qos-dscp="@);
        reading::lemma_part_tells_integer(parts, 11, " qos-dscp="@, args.qos_dscp as int);
    }
}

/// The whole pipeline of a sender: video, and audio where it is enabled.
pub open spec fn sender_pipeline(
    args: SendArgs,
    target: Option<DisplayMonitor>,
    machine: Machine,
) -> Result<Seq<char>, Seq<char>> {
    match sender_video(args, target, machine) {
        Ok(video) => if args.audio_enabled {
            match sender_audio(args, machine.registry) {
                Ok(audio) => Ok(video + " "@ + audio),
                Err(message) => Err(message),
            }
        } else {
            Ok(video)
        },
        Err(message) => Err(message),
    }
}

/// Builds the whole pipeline of a sender for one capture target.
pub fn build_sender_pipeline_for(
    args: &SendArgs,
    target: Option<&DisplayMonitor>,
    machine: &Machine,
) -> (r: Result<String, PipelineError>)
    ensures
        decoders::gives_text(r, sender_pipeline(*args, elements::pointee(target), *machine)),
{
    let video = build_sender_video_pipeline_for(args, target, machine)?;
    if !args.audio_enabled {
        return Ok(video);
    }
    let audio = build_sender_audio_pipeline(args, &machine.registry)?;
    let mut out = video;
    out.push_str(" ");
    out.push_str(&audio);
    Ok(out)
}

/// Builds the whole pipeline of a sender that chooses its own capture target.
pub fn build_sender_pipeline(args: &SendArgs, machine: &Machine) -> (r: Result<
    String,
    PipelineError,
>)
    ensures
        decoders::gives_text(r, sender_pipeline(*args, None, *machine)),
{
    build_sender_pipeline_for(args, None, machine)
}

/// What is wrong with the numbers of a receiver, if anything.
pub open spec fn receiver_video_problem(args: RecvArgs) -> Option<Seq<char>> {
    if args.jitter_ms == 0 {
        Some(elements::not_positive_text("jitter-ms"@))
    } else if args.udp_buffer_size == 0 {
        Some(elements::not_positive_text("udp-buffer-size"@))
    } else if args.mtu == 0 {
        Some(elements::not_positive_text("mtu"@))
    } else if args.jitter_faststart_packets == 0 {
        Some(elements::not_positive_text("jitter-faststart-packets"@))
    } else if args.jitter_max_dropout_ms == 0 {
        Some(elements::not_positive_text("jitter-max-dropout-ms"@))
    } else if args.jitter_max_misorder_ms == 0 {
        Some(elements::not_positive_text("jitter-max-misorder-ms"@))
    } else {
        None
    }
}

/// The video pipeline of a receiver over a route. The decoder and the renderer stay in one
/// graphics API.
pub open spec fn receiver_video_text(args: RecvArgs, route: RouteModel) -> Seq<char> {
    "udpsrc name=receiver_video_src port="@ + text::dec(args.port as nat) + " buffer-size="@
        + text::dec(args.udp_buffer_size as nat) + " mtu="@ + text::dec(args.mtu as nat)
        + " retrieve-sender-address=false timeout=0 caps=\"application/x-rtp,media=(string)video,clock-rate=(int)90000,encoding-name=(string)H264,payload=(int)96,packetization-mode=(string)1\" ! rtpjitterbuffer name="@
        + RECEIVER_VIDEO_JITTER_NAME@ + " latency="@ + text::dec(args.jitter_ms as nat)
        + " drop-on-latency=true do-lost=true faststart-min-packets="@ + text::dec(
        args.jitter_faststart_packets as nat,
    ) + " max-dropout-time="@ + text::dec(args.jitter_max_dropout_ms as nat)
        + " max-misorder-time="@ + text::dec(args.jitter_max_misorder_ms as nat)
        + " ! rtph264depay wait-for-keyframe=true ! h264parse disable-passthrough=true ! queue max-size-buffers=4 max-size-time=0 max-size-bytes=0 ! "@
        + route.decoder.element_text() + route.decoder.output_caps(route.sink)
        + " ! queue max-size-buffers=1 max-size-time=0 max-size-bytes=0 leaky=downstream ! "@
        + route.sink
}

pub open spec fn receiver_video(args: RecvArgs, route: RouteModel) -> Result<
    Seq<char>,
    Seq<char>,
> {
    match receiver_video_problem(args) {
        Some(message) => Err(message),
        None => Ok(receiver_video_text(args, route)),
    }
}

proof fn lemma_receiver_keys()
    ensures
        text::ends_with("udpsrc name=receiver_video_src port="@, " port="@),
        text::ends_with(" buffer-size="@, " buffer-size="@),
        text::ends_with(" mtu="@, " mtu="@),
        text::ends_with(" latency="@, " latency="@),
        text::ends_with(
            " drop-on-latency=true do-lost=true faststart-min-packets="@,
            " faststart-min-packets="@,
        ),
        text::ends_with(" max-dropout-time="@, " max-dropout-time="@),
        text::ends_with(" max-misorder-time="@, " max-misorder-time="@),
        reading::ends_numbers(" buffer-size="@) && " buffer-size="@.len() > 0,
        reading::ends_numbers(" mtu="@) && " mtu="@.len() > 0,
        reading::ends_numbers(" retrieve-sender-address=false timeout=0 caps=\"application/x-rtp,media=(string)video,clock-rate=(int)90000,encoding-name=(string)H264,payload=(int)96,packetization-mode=(string)1\" ! rtpjitterbuffer name="@),
        " retrieve-sender-address=false timeout=0 caps=\"application/x-rtp,media=(string)video,clock-rate=(int)90000,encoding-name=(string)H264,payload=(int)96,packetization-mode=(string)1\" ! rtpjitterbuffer name="@.len() > 0,
        reading::ends_numbers(" drop-on-latency=true do-lost=true faststart-min-packets="@),
        " drop-on-latency=true do-lost=true faststart-min-packets="@.len() > 0,
        reading::ends_numbers(" max-dropout-time="@) && " max-dropout-time="@.len() > 0,
        reading::ends_numbers(" max-misorder-time="@) && " max-misorder-time="@.len() > 0,
        reading::ends_numbers(" ! rtph264depay wait-for-keyframe=true ! h264parse disable-passthrough=true ! queue max-size-buffers=4 max-size-time=0 max-size-bytes=0 ! "@),
        " ! rtph264depay wait-for-keyframe=true ! h264parse disable-passthrough=true ! queue max-size-buffers=4 max-size-time=0 max-size-bytes=0 ! "@.len() > 0,
        text::ends_with(" ! rtph264depay wait-for-keyframe=true ! h264parse disable-passthrough=true ! queue max-size-buffers=4 max-size-time=0 max-size-bytes=0 ! "@, " ! "@),
{
    reveal_strlit("udpsrc name=receiver_video_src port=");
    reveal_strlit(" port=");
    reveal_strlit(" buffer-size=");
    reveal_strlit(" mtu=");
    reveal_strlit(" latency=");
    reveal_strlit(" drop-on-latency=true do-lost=true faststart-min-packets=");
    reveal_strlit(" faststart-min-packets=");
    reveal_strlit(" max-dropout-time=");
    reveal_strlit(" max-misorder-time=");
    reveal_strlit(" retrieve-sender-address=false timeout=0 caps=\"application/x-rtp,media=(string)video,clock-rate=(int)90000,encoding-name=(string)H264,payload=(int)96,packetization-mode=(string)1\" ! rtpjitterbuffer name=");
    reveal_strlit(" ! rtph264depay wait-for-keyframe=true ! h264parse disable-passthrough=true ! queue max-size-buffers=4 max-size-time=0 max-size-bytes=0 ! ");
    reveal_strlit(" ! ");
    let port = "udpsrc name=receiver_video_src port="@;
    assert(port.subrange(port.len() - 6, port.len() as int) == " port="@);
    assert(" buffer-size="@.subrange(0, 13) == " buffer-size="@);
    assert(" mtu="@.subrange(0, 5) == " mtu="@);
    assert(" latency="@.subrange(0, 9) == " latency="@);
    let start = " drop-on-latency=true do-lost=true faststart-min-packets="@;
    assert(start.subrange(start.len() - 23, start.len() as int) == " faststart-min-packets="@);
    assert(" max-dropout-time="@.subrange(0, 18) == " max-dropout-time="@);
    assert(" max-misorder-time="@.subrange(0, 19) == " max-misorder-time="@);
    let parse = " ! rtph264depay wait-for-keyframe=true ! h264parse disable-passthrough=true ! queue max-size-buffers=4 max-size-time=0 max-size-bytes=0 ! "@;
    assert(parse.subrange(parse.len() - 3, parse.len() as int) == " ! "@);
}

/// What a receiver was asked for is in its video pipeline: the port it listens on, the socket's
/// buffer, the packet size and the four bounds of the jitter buffer behind their keys, the decoder
/// of the route behind the depacketiser and the sink of the route at the end.
pub proof fn law_receiver_video_carries_its_settings(args: RecvArgs, route: RouteModel)
    ensures
        receiver_video(args, route) matches Ok(video) ==> {
            &&& reading::tells(video, " port="@, args.port as nat)
            &&& text::starts_with(video, "udpsrc name=receiver_video_src port="@)
            &&& reading::tells(video, " buffer-size="@, args.udp_buffer_size as nat)
            &&& reading::tells(video, " mtu="@, args.mtu as nat)
            &&& reading::tells(video, " latency="@, args.jitter_ms as nat)
            &&& reading::tells(
                video,
                " faststart-min-packets="@,
                args.jitter_faststart_packets as nat,
            )
            &&& reading::tells(video, " max-dropout-time="@, args.jitter_max_dropout_ms as nat)
            &&& reading::tells(video, " max-misorder-time="@, args.jitter_max_misorder_ms as nat)
            &&& text::contains(video, " ! "@ + route.decoder.element_text())
            &&& text::ends_with(video, route.sink)
        },
{
    if let Ok(video) = receiver_video(args, route) {
        let parts = Seq::<Seq<char>>::empty().push(
            "udpsrc name=receiver_video_src port="@,
        ).push(
            text::dec(args.port as nat),
        ).push(
            " buffer-size="@,
        ).push(
            text::dec(args.udp_buffer_size as nat),
        ).push(
            " mtu="@,
        ).push(
            text::dec(args.mtu as nat),
        ).push(
            " retrieve-sender-address=false timeout=0 caps=\"application/x-rtp,media=(string)video,clock-rate=(int)90000,encoding-name=(string)H264,payload=(int)96,packetization-mode=(string)1\" ! rtpjitterbuffer name="@,
        ).push(
            RECEIVER_VIDEO_JITTER_NAME@,
        ).push(
            " latency="@,
        ).push(
            text::dec(args.jitter_ms as nat),
        ).push(
            " drop-on-latency=true do-lost=true faststart-min-packets="@,
        ).push(
            text::dec(args.jitter_faststart_packets as nat),
        ).push(
            " max-dropout-time="@,
        ).push(
            text::dec(args.jitter_max_dropout_ms as nat),
        ).push(
            " max-misorder-time="@,
        ).push(
            text::dec(args.jitter_max_misorder_ms as nat),
        ).push(
            " ! rtph264depay wait-for-keyframe=true ! h264parse disable-passthrough=true ! queue max-size-buffers=4 max-size-time=0 max-size-bytes=0 ! "@,
        ).push(
            route.decoder.element_text(),
        ).push(
            route.decoder.output_caps(route.sink),
        ).push(
            " ! queue max-size-buffers=1 max-size-time=0 max-size-bytes=0 leaky=downstream ! "@,
        ).push(
            route.sink,
        );
        reading::lemma_cat_push();
        assert(video == reading::cat(parts));
        lemma_receiver_keys();
        reading::lemma_part_tells(parts, 1, " port="@, args.port as nat);
        reading::lemma_part_tells(parts, 3, " buffer-size="@, args.udp_buffer_size as nat);
        reading::lemma_part_tells(parts, 5, " mtu="@, args.mtu as nat);
        reading::lemma_part_tells(parts, 9, " latency="@, args.jitter_ms as nat);
        reading::lemma_part_tells(
            parts,
            11,
            " faststart-min-packets="@,
            args.jitter_faststart_packets as nat,
        );
        reading::lemma_part_tells(
            parts,
            13,
            " max-dropout-time="@,
            args.jitter_max_dropout_ms as nat,
        );
        reading::lemma_part_tells(
            parts,
            15,
            " max-misorder-time="@,
            args.jitter_max_misorder_ms as nat,
        );
        reading::lemma_part_behind(parts, 17, " ! "@);
        reading::lemma_cat_ends(parts);
    }
}

/// Builds the video pipeline of a receiver over a route.
pub fn receiver_video_pipeline(args: &RecvArgs, route: &ReceiverVideoRoute) -> (r: Result<
    String,
    PipelineError,
>)
    ensures
        decoders::gives_text(r, receiver_video(*args, route@)),
{
    ensure_positive("jitter-ms", args.jitter_ms)?;
    ensure_positive("udp-buffer-size", args.udp_buffer_size)?;
    ensure_positive("mtu", args.mtu)?;
    ensure_positive("jitter-faststart-packets", args.jitter_faststart_packets)?;
    ensure_positive("jitter-max-dropout-ms", args.jitter_max_dropout_ms)?;
    ensure_positive("jitter-max-misorder-ms", args.jitter_max_misorder_ms)?;
    let mut out = "udpsrc name=receiver_video_src port=".to_owned();
    text::push_dec(&mut out, args.port as u64);
    out.push_str(" buffer-size=");
    text::push_dec(&mut out, args.udp_buffer_size as u64);
    out.push_str(" mtu=");
    text::push_dec(&mut out, args.mtu as u64);
    out.push_str(
        " retrieve-sender-address=false timeout=0 caps=\"application/x-rtp,media=(string)video,clock-rate=(int)90000,encoding-name=(string)H264,payload=(int)96,packetization-mode=(string)1\" ! rtpjitterbuffer name=",
    );
    out.push_str(RECEIVER_VIDEO_JITTER_NAME);
    out.push_str(" latency=");
    text::push_dec(&mut out, args.jitter_ms as u64);
    out.push_str(" drop-on-latency=true do-lost=true faststart-min-packets=");
    text::push_dec(&mut out, args.jitter_faststart_packets as u64);
    out.push_str(" max-dropout-time=");
    text::push_dec(&mut out, args.jitter_max_dropout_ms as u64);
    out.push_str(" max-misorder-time=");
    text::push_dec(&mut out, args.jitter_max_misorder_ms as u64);
    out.push_str(
        " ! rtph264depay wait-for-keyframe=true ! h264parse disable-passthrough=true ! queue max-size-buffers=4 max-size-time=0 max-size-bytes=0 ! ",
    );
    out.push_str(&route.decoder.pipeline_element());
    out.push_str(route.decoder.output_caps_for(&route.sink));
    out.push_str(
        " ! queue max-size-buffers=1 max-size-time=0 max-size-bytes=0 leaky=downstream ! ",
    );
    out.push_str(&route.sink);
    Ok(out)
}

/// The route of a receiver on a GPU.
pub open spec fn receiver_route(
    args: RecvArgs,
    gpu: Option<GpuAdapter>,
    allow_modern_intel_d3d12: bool,
    machine: Machine,
) -> Result<RouteModel, Seq<char>> {
    decoders::chosen_route(
        args.decoder,
        args.sink,
        args.fullscreen,
        args.sampling,
        gpu,
        allow_modern_intel_d3d12,
        machine.adapters@,
        machine.registry,
    )
}

/// The video pipeline of a receiver on a GPU, with the route it takes.
pub open spec fn receiver_video_for(
    args: RecvArgs,
    gpu: Option<GpuAdapter>,
    allow_modern_intel_d3d12: bool,
    machine: Machine,
) -> Result<(Seq<char>, RouteModel), Seq<char>> {
    match receiver_route(args, gpu, allow_modern_intel_d3d12, machine) {
        Ok(route) => match receiver_video(args, route) {
            Ok(description) => Ok((description, route)),
            Err(message) => Err(message),
        },
        Err(message) => Err(message),
    }
}

/// Builds the video pipeline of a receiver on a GPU.
pub fn build_receiver_video_pipeline_for(
    args: &RecvArgs,
    gpu: Option<&GpuAdapter>,
    allow_modern_intel_d3d12: bool,
    machine: &Machine,
) -> (r: Result<(String, ReceiverVideoRoute), PipelineError>)
    ensures
        match (
            r,
            receiver_video_for(*args, elements::pointee(gpu), allow_modern_intel_d3d12, *machine),
        ) {
            (Ok((description, route)), Ok((wanted, model))) => description@ == wanted && route@
                == model,
            (Err(error), Err(message)) => error.text() == message,
            _ => false,
        },
{
    let route = decoders::select_receiver_route(
        args.decoder,
        args.sink,
        args.fullscreen,
        args.sampling,
        gpu,
        allow_modern_intel_d3d12,
        &machine.adapters,
        &machine.registry,
    )?;
    let description = receiver_video_pipeline(args, &route)?;
    Ok((description, route))
}

/// The software pipeline that a receiver falls back to. There is none where software decoding was
/// asked for in the first place, or where no software decoder is installed.
pub open spec fn software_video(
    args: RecvArgs,
    gpu: Option<GpuAdapter>,
    machine: Machine,
) -> Option<Seq<char>> {
    if args.decoder == Decoder::Avdec || args.decoder == Decoder::Software {
        None
    } else {
        match (
            decoders::software(machine.registry),
            decoders::chosen_sink(
                args.sink,
                args.fullscreen,
                args.sampling,
                gpu,
                machine.registry,
            ),
        ) {
            (Some(decoder), Ok(sink)) => match receiver_video(args, RouteModel { decoder, sink }) {
                Ok(description) => Some(description),
                Err(_) => None,
            },
            _ => None,
        }
    }
}

/// Hardware decoders advertise fixed caps: Intel HD Graphics 4000 tops out at 1920x1920 and no
/// DXVA decoder accepts 4:4:4. A stream outside those caps fails to negotiate before the decoder
/// sees a frame. Software decode has no such limit, so it is kept as the last route for every GPU.
pub fn build_receiver_software_video_pipeline(
    args: &RecvArgs,
    gpu: Option<&GpuAdapter>,
    machine: &Machine,
) -> (r: Option<String>)
    ensures
        match r {
            Some(description) => software_video(*args, elements::pointee(gpu), *machine) == Some(
                description@,
            ),
            None => software_video(*args, elements::pointee(gpu), *machine) is None,
        },
{
    if args.decoder == Decoder::Avdec || args.decoder == Decoder::Software {
        return None;
    }
    let decoder = match decoders::software_decoder(&machine.registry) {
        Some(decoder) => decoder,
        None => return None,
    };
    let sink = match decoders::select_sink(
        args.sink,
        args.fullscreen,
        args.sampling,
        gpu,
        &machine.registry,
    ) {
        Ok(sink) => sink,
        Err(_) => return None,
    };
    let route = ReceiverVideoRoute { decoder, sink };
    match receiver_video_pipeline(args, &route) {
        Ok(description) => Some(description),
        Err(_) => None,
    }
}

/// A route that a receiver retries on.
#[derive(Debug)]
pub struct ReceiverFallbackRoute {
    pub label: &'static str,
    pub description: String,
}

/// The pipelines of a receiver, in the order in which they are tried.
///
/// A hardware decoder rejects a stream that exceeds its DXVA limits before any frame reaches it,
/// so every route after the first exists to keep the receiver showing a picture instead of
/// stopping on `not-negotiated`.
#[derive(Debug)]
pub struct ReceiverPipelinePlan {
    pub primary: String,
    pub fallbacks: Vec<ReceiverFallbackRoute>,
    /// Largest frame the primary decoder accepts, announced to senders so they can scale down
    /// before encoding instead of pushing the receiver onto a software fallback.
    pub decode_limits: Option<(u32, u32)>,
}

/// A plan by what it says; each retry is a label and a description.
pub struct PlanModel {
    pub primary: Seq<char>,
    pub fallbacks: Seq<(Seq<char>, Seq<char>)>,
    pub decode_limits: Option<(u32, u32)>,
}

pub open spec fn fallback_texts(fallbacks: Seq<ReceiverFallbackRoute>) -> Seq<
    (Seq<char>, Seq<char>),
> {
    Seq::new(fallbacks.len(), |i: int| (fallbacks[i].label@, fallbacks[i].description@))
}

impl View for ReceiverPipelinePlan {
    type V = PlanModel;

    open spec fn view(&self) -> PlanModel {
        PlanModel {
            primary: self.primary@,
            fallbacks: fallback_texts(self.fallbacks@),
            decode_limits: self.decode_limits,
        }
    }
}

impl PlanModel {
    /// The plan with one more pipeline on every route.
    pub open spec fn with_pipeline(self, description: Seq<char>) -> PlanModel {
        PlanModel {
            primary: self.primary + seq![' '] + description,
            fallbacks: Seq::new(
                self.fallbacks.len(),
                |i: int| (self.fallbacks[i].0, self.fallbacks[i].1 + seq![' '] + description),
            ),
            decode_limits: self.decode_limits,
        }
    }
}

impl ReceiverPipelinePlan {
    pub fn primary(&self) -> (r: &str)
        ensures
            r@ == self@.primary,
    {
        self.primary.as_str()
    }

    pub fn decode_limits(&self) -> (r: Option<(u32, u32)>)
        ensures
            r == self@.decode_limits,
    {
        self.decode_limits
    }

    /// Adds a pipeline to every route.
    pub fn append_pipeline(&mut self, description: &str)
        ensures
            final(self)@ == old(self)@.with_pipeline(description@),
    {
        self.primary.push(' ');
        self.primary.push_str(description);
        assert(self.primary@ == old(self).primary@ + seq![' '] + description@);
        let mut extended: Vec<ReceiverFallbackRoute> = Vec::new();
        let mut i: usize = 0;
        while i < self.fallbacks.len()
            invariant
                i <= self.fallbacks.len(),
                self.fallbacks@ == old(self).fallbacks@,
                self.decode_limits == old(self).decode_limits,
                self.primary@ == old(self).primary@ + seq![' '] + description@,
                extended@.len() == i,
                forall|k: int|
                    0 <= k < i ==> (#[trigger] extended@[k]).label@ == self.fallbacks@[k].label@
                        && extended@[k].description@ == self.fallbacks@[k].description@ + seq![' ']
                        + description@,
            decreases self.fallbacks.len() - i,
        {
            let mut route = self.fallbacks[i].description.clone();
            route.push(' ');
            route.push_str(description);
            assert(route@ == self.fallbacks@[i as int].description@ + seq![' '] + description@);
            extended.push(
                ReceiverFallbackRoute { label: self.fallbacks[i].label, description: route },
            );
            i += 1;
        }
        self.fallbacks = extended;
        assert(fallback_texts(self.fallbacks@) == old(self)@.with_pipeline(
            description@,
        ).fallbacks);
    }
}

/// The video plan of a receiver: its route, the D3D11 route of the same GPU behind a D3D12 one,
/// and the software route last.
pub open spec fn video_plan(args: RecvArgs, machine: Machine) -> Result<PlanModel, Seq<char>> {
    let gpu = gpu::receiver_adapter(
        args.gpu@,
        machine.adapters@,
        machine.monitors@,
        machine.outputs@,
    );
    match receiver_video_for(args, gpu, true, machine) {
        Err(message) => Err(message),
        Ok((primary, route)) => {
            let hardware = match receiver_video_for(args, gpu, false, machine) {
                Ok((description, _)) => if route.d3d12() {
                    seq![("D3D11/QSV"@, description)]
                } else {
                    Seq::empty()
                },
                Err(_) => Seq::empty(),
            };
            let fallbacks = match software_video(args, gpu, machine) {
                Some(description) => hardware.push(("software"@, description)),
                None => hardware,
            };
            Ok(
                PlanModel {
                    primary,
                    fallbacks,
                    decode_limits: machine.registry.frame_limits(route.decoder.factory),
                },
            )
        },
    }
}

/// Whether a result is the expected plan, or an error with the expected message.
pub open spec fn gives_plan(
    r: Result<ReceiverPipelinePlan, PipelineError>,
    expected: Result<PlanModel, Seq<char>>,
) -> bool {
    match (r, expected) {
        (Ok(plan), Ok(model)) => plan@ == model,
        (Err(error), Err(message)) => error.text() == message,
        _ => false,
    }
}

/// Builds the video plan of a receiver.
pub fn build_receiver_video_plan(args: &RecvArgs, machine: &Machine) -> (r: Result<
    ReceiverPipelinePlan,
    PipelineError,
>)
    ensures
        gives_plan(r, video_plan(*args, *machine)),
{
    let gpu = gpu::resolve_receiver(
        &args.gpu,
        &machine.adapters,
        &machine.monitors,
        &machine.outputs,
    );
    let (primary, route) = build_receiver_video_pipeline_for(args, gpu.as_ref(), true, machine)?;
    let decode_limits = machine.registry.decoder_frame_limits(&route.decoder.factory);
    let mut fallbacks: Vec<ReceiverFallbackRoute> = Vec::new();
    assert(fallback_texts(fallbacks@) == Seq::<(Seq<char>, Seq<char>)>::empty());
    if route.uses_d3d12() {
        if let Ok((description, _)) = build_receiver_video_pipeline_for(
            args,
            gpu.as_ref(),
            false,
            machine,
        ) {
            fallbacks.push(ReceiverFallbackRoute { label: "D3D11/QSV", description });
            assert(fallback_texts(fallbacks@) == seq![("D3D11/QSV"@, description@)]);
        }
    }
    let ghost hardware = fallback_texts(fallbacks@);
    if let Some(description) = build_receiver_software_video_pipeline(
        args,
        gpu.as_ref(),
        machine,
    ) {
        fallbacks.push(ReceiverFallbackRoute { label: "software", description });
        assert(fallback_texts(fallbacks@) == hardware.push(("software"@, description@)));
    }
    Ok(ReceiverPipelinePlan { primary, fallbacks, decode_limits })
}

/// The audio pipeline of a receiver.
pub open spec fn receiver_audio_text(args: RecvArgs, registry: ElementRegistry) -> Seq<char> {
    "udpsrc port="@ + text::dec(args.audio_port as nat) + " buffer-size="@ + text::dec(
        args.udp_buffer_size as nat,
    ) + " mtu="@ + text::dec(args.mtu as nat)
        + " retrieve-sender-address=false caps=\"application/x-rtp,media=(string)audio,clock-rate=(int)48000,encoding-name=(string)OPUS,payload=(int)97\" ! queue max-size-buffers=4 max-size-time=20000000 max-size-bytes=0 leaky=downstream ! rtpjitterbuffer latency="@
        + text::dec(args.audio_jitter_ms as nat)
        + " drop-on-latency=true do-lost=true faststart-min-packets=2 ! rtpopusdepay ! opusdec plc=true ! queue max-size-buffers=2 max-size-time=10000000 max-size-bytes=0 leaky=downstream ! audioconvert ! audioresample ! "@
        + (if registry.has("wasapi2sink"@) {
        "wasapi2sink low-latency=true sync=false async=false"@
    } else {
        "autoaudiosink sync=false"@
    })
}

/// The audio pipeline of a receiver, or the message that says why there is none.
pub open spec fn receiver_audio(args: RecvArgs, registry: ElementRegistry) -> Result<
    Seq<char>,
    Seq<char>,
> {
    if args.audio_jitter_ms == 0 {
        Err(elements::not_positive_text("audio-jitter-ms"@))
    } else if args.udp_buffer_size == 0 {
        Err(elements::not_positive_text("udp-buffer-size"@))
    } else if args.mtu == 0 {
        Err(elements::not_positive_text("mtu"@))
    } else {
        match missing_element(receiver_audio_elements(), registry) {
            Some(name) => Err(elements::missing_element_text(name)),
            None => Ok(receiver_audio_text(args, registry)),
        }
    }
}

proof fn lemma_receiver_audio_keys()
    ensures
        text::ends_with("udpsrc port="@, "udpsrc port="@),
        text::ends_with(" retrieve-sender-address=false caps=\"application/x-rtp,media=(string)audio,clock-rate=(int)48000,encoding-name=(string)OPUS,payload=(int)97\" ! queue max-size-buffers=4 max-size-time=20000000 max-size-bytes=0 leaky=downstream ! rtpjitterbuffer latency="@, " ! rtpjitterbuffer latency="@),
        reading::ends_numbers(" retrieve-sender-address=false caps=\"application/x-rtp,media=(string)audio,clock-rate=(int)48000,encoding-name=(string)OPUS,payload=(int)97\" ! queue max-size-buffers=4 max-size-time=20000000 max-size-bytes=0 leaky=downstream ! rtpjitterbuffer latency="@),
        " retrieve-sender-address=false caps=\"application/x-rtp,media=(string)audio,clock-rate=(int)48000,encoding-name=(string)OPUS,payload=(int)97\" ! queue max-size-buffers=4 max-size-time=20000000 max-size-bytes=0 leaky=downstream ! rtpjitterbuffer latency="@.len() > 0,
        reading::ends_numbers(" drop-on-latency=true do-lost=true faststart-min-packets=2 ! rtpopusdepay ! opusdec plc=true ! queue max-size-buffers=2 max-size-time=10000000 max-size-bytes=0 leaky=downstream ! audioconvert ! audioresample ! "@),
        " drop-on-latency=true do-lost=true faststart-min-packets=2 ! rtpopusdepay ! opusdec plc=true ! queue max-size-buffers=2 max-size-time=10000000 max-size-bytes=0 leaky=downstream ! audioconvert ! audioresample ! "@.len() > 0,
{
    reveal_strlit("udpsrc port=");
    reveal_strlit(" retrieve-sender-address=false caps=\"application/x-rtp,media=(string)audio,clock-rate=(int)48000,encoding-name=(string)OPUS,payload=(int)97\" ! queue max-size-buffers=4 max-size-time=20000000 max-size-bytes=0 leaky=downstream ! rtpjitterbuffer latency=");
    reveal_strlit(" ! rtpjitterbuffer latency=");
    reveal_strlit(" drop-on-latency=true do-lost=true faststart-min-packets=2 ! rtpopusdepay ! opusdec plc=true ! queue max-size-buffers=2 max-size-time=10000000 max-size-bytes=0 leaky=downstream ! audioconvert ! audioresample ! ");
    assert("udpsrc port="@.subrange(0, 12) == "udpsrc port="@);
    let caps = " retrieve-sender-address=false caps=\"application/x-rtp,media=(string)audio,clock-rate=(int)48000,encoding-name=(string)OPUS,payload=(int)97\" ! queue max-size-buffers=4 max-size-time=20000000 max-size-bytes=0 leaky=downstream ! rtpjitterbuffer latency="@;
    assert(caps.subrange(caps.len() - 27, caps.len() as int) == " ! rtpjitterbuffer latency="@);
}

/// What a receiver was asked for is in its audio pipeline: first of all it listens on the audio
/// port, whatever the video port is; the socket's buffer, the packet size and the latency of the
/// jitter buffer stand behind their keys.
pub proof fn law_receiver_audio_carries_its_settings(args: RecvArgs, registry: ElementRegistry)
    ensures
        receiver_audio(args, registry) matches Ok(audio) ==> {
            &&& text::starts_with(audio, "udpsrc port="@)
            &&& reading::number_at(audio, "udpsrc port="@.len() as int) == Some(
                args.audio_port as nat,
            )
            &&& reading::tells(audio, " buffer-size="@, args.udp_buffer_size as nat)
            &&& reading::tells(audio, " mtu="@, args.mtu as nat)
            &&& reading::tells(audio, " ! rtpjitterbuffer latency="@, args.audio_jitter_ms as nat)
        },
{
    if let Ok(audio) = receiver_audio(args, registry) {
        let parts = Seq::<Seq<char>>::empty().push(
            "udpsrc port="@,
        ).push(
            text::dec(args.audio_port as nat),
        ).push(
            " buffer-size="@,
        ).push(
            text::dec(args.udp_buffer_size as nat),
        ).push(
            " mtu="@,
        ).push(
            text::dec(args.mtu as nat),
        ).push(
            " retrieve-sender-address=false caps=\"application/x-rtp,media=(string)audio,clock-rate=(int)48000,encoding-name=(string)OPUS,payload=(int)97\" ! queue max-size-buffers=4 max-size-time=20000000 max-size-bytes=0 leaky=downstream ! rtpjitterbuffer latency="@,
        ).push(
            text::dec(args.audio_jitter_ms as nat),
        ).push(
            " drop-on-latency=true do-lost=true faststart-min-packets=2 ! rtpopusdepay ! opusdec plc=true ! queue max-size-buffers=2 max-size-time=10000000 max-size-bytes=0 leaky=downstream ! audioconvert ! audioresample ! "@,
        ).push(
            if registry.has("wasapi2sink"@) {
                "wasapi2sink low-latency=true sync=false async=false"@
            } else {
                "autoaudiosink sync=false"@
            },
        );
        reading::lemma_cat_push();
        assert(audio == reading::cat(parts));
        lemma_receiver_keys();
        lemma_receiver_audio_keys();
        reading::lemma_cat_ends(parts);
        reading::lemma_part_number(parts, 1, args.audio_port as nat);
        assert(parts.take(1) == Seq::<Seq<char>>::empty().push("udpsrc port="@));
        reading::lemma_part_tells(parts, 3, " buffer-size="@, args.udp_buffer_size as nat);
        reading::lemma_part_tells(parts, 5, " mtu="@, args.mtu as nat);
        reading::lemma_part_tells(
            parts,
            7,
            " ! rtpjitterbuffer latency="@,
            args.audio_jitter_ms as nat,
        );
    }
}

/// Builds the audio pipeline of a receiver.
pub fn build_receiver_audio_pipeline(args: &RecvArgs, registry: &ElementRegistry) -> (r: Result<
    String,
    PipelineError,
>)
    ensures
        decoders::gives_text(r, receiver_audio(*args, *registry)),
{
    ensure_positive("audio-jitter-ms", args.audio_jitter_ms)?;
    ensure_positive("udp-buffer-size", args.udp_buffer_size)?;
    ensure_positive("mtu", args.mtu)?;
    let names = ["rtpopusdepay", "opusdec", "audioconvert", "audioresample"];
    assert(Seq::new(names@.len(), |i: int| names@[i]@) == receiver_audio_elements());
    require_all(&names, registry)?;
    let mut out = "udpsrc port=".to_owned();
    text::push_dec(&mut out, args.audio_port as u64);
    out.push_str(" buffer-size=");
    text::push_dec(&mut out, args.udp_buffer_size as u64);
    out.push_str(" mtu=");
    text::push_dec(&mut out, args.mtu as u64);
    out.push_str(
        " retrieve-sender-address=false caps=\"application/x-rtp,media=(string)audio,clock-rate=(int)48000,encoding-name=(string)OPUS,payload=(int)97\" ! queue max-size-buffers=4 max-size-time=20000000 max-size-bytes=0 leaky=downstream ! rtpjitterbuffer latency=",
    );
    text::push_dec(&mut out, args.audio_jitter_ms as u64);
    out.push_str(
        " drop-on-latency=true do-lost=true faststart-min-packets=2 ! rtpopusdepay ! opusdec plc=true ! queue max-size-buffers=2 max-size-time=10000000 max-size-bytes=0 leaky=downstream ! audioconvert ! audioresample ! ",
    );
    out.push_str(if registry.has_element("wasapi2sink") {
        "wasapi2sink low-latency=true sync=false async=false"
    } else {
        "autoaudiosink sync=false"
    });
    Ok(out)
}

/// Whether every client of a list is addressed at one port.
pub open spec fn all_at_port(clients: Seq<char>, port: nat) -> bool {
    forall|i: int|
        0 <= i < text::split(clients, ',').len() ==> at_port(
            #[trigger] text::split(clients, ',')[i],
            port,
        )
}

pub open spec fn at_port(client: Seq<char>, port: nat) -> bool {
    exists|address: Seq<char>| addresses(client, address, port)
}

/// Sender and receiver of one audio port meet there: the port that the receiver listens on is the
/// port at which the sender addresses every receiver, whatever their video ports are.
pub proof fn law_audio_meets_at_the_audio_port(
    sender: SendArgs,
    receiver: RecvArgs,
    sending: ElementRegistry,
    receiving: ElementRegistry,
)
    requires
        sender.audio_port == receiver.audio_port,
    ensures
        sender_audio(sender, sending) is Ok && receiver_audio(receiver, receiving) is Ok ==> {
            let sent = sender_audio(sender, sending)->Ok_0;
            let heard = receiver_audio(receiver, receiving)->Ok_0;
            let port = reading::number_at(heard, "udpsrc port="@.len() as int);
            &&& port is Some
            &&& exists|clients: Seq<char>| #[trigger]
                text::contains(sent, " ! multiudpsink clients="@ + literal_text(clients))
                    && text::split(clients, ',').len() == host_list(sender.host@).len()
                    && all_at_port(clients, port->0)
        },
{
    law_sender_audio_carries_its_settings(sender, sending);
    law_receiver_audio_carries_its_settings(receiver, receiving);
    law_clients_are_hosts_with_ports(sender.host@, sender.audio_port, true);
    if sender_audio(sender, sending) is Ok && receiver_audio(receiver, receiving) is Ok {
        let sent = sender_audio(sender, sending)->Ok_0;
        let clients = clients_text(sender.host@, sender.audio_port, true)->Ok_0;
        let list = text::split(clients, ',');
        assert(text::contains(sent, " ! multiudpsink clients="@ + literal_text(clients)));
        assert forall|i: int| 0 <= i < list.len() implies at_port(
            #[trigger] list[i],
            receiver.audio_port as nat,
        ) by {
            let host = host_list(sender.host@)[i];
            let own = port_position(host);
            let address = if own is Some {
                host.take(own->0)
            } else {
                host
            };
            assert(addresses(list[i], address, receiver.audio_port as nat));
        }
        assert(all_at_port(clients, receiver.audio_port as nat));
    }
}

/// A receiver is refused for its numbers exactly where one of them is zero.
pub proof fn law_receivers_that_are_refused(args: RecvArgs)
    ensures
        receiver_video_problem(args) is None <==> args.jitter_ms > 0 && args.udp_buffer_size > 0
            && args.mtu > 0 && args.jitter_faststart_packets > 0 && args.jitter_max_dropout_ms > 0
            && args.jitter_max_misorder_ms > 0,
{
}

/// A receiver tries its route first. A D3D12 route is followed by the route of the same GPU without
/// D3D12; the software route comes last, and never where software was asked for.
pub proof fn law_routes_of_a_plan(args: RecvArgs, machine: Machine)
    ensures
        video_plan(args, machine) matches Ok(plan) ==> {
            let gpu = gpu::receiver_adapter(
                args.gpu@,
                machine.adapters@,
                machine.monitors@,
                machine.outputs@,
            );
            let modern = receiver_video_for(args, gpu, true, machine);
            let plain = receiver_video_for(args, gpu, false, machine);
            let n = plan.fallbacks.len();
            &&& modern matches Ok((description, route)) && plan.primary == description
                && plan.decode_limits == machine.registry.frame_limits(route.decoder.factory)
            &&& n <= 2
            &&& (modern->Ok_0).1.d3d12() && plain is Ok ==> n > 0 && plan.fallbacks[0].1
                == (plain->Ok_0).0
            &&& forall|i: int|
                0 <= i < n && (#[trigger] plan.fallbacks[i]).0 != "software"@ ==> i == 0
                    && (modern->Ok_0).1.d3d12()
            &&& args.decoder == Decoder::Avdec || args.decoder == Decoder::Software ==> n <= 1
            &&& n > 0 && plan.fallbacks[n - 1].0 == "software"@ ==> args.decoder != Decoder::Avdec
                && args.decoder != Decoder::Software
        },
{
    reveal_strlit("software");
    reveal_strlit("D3D11/QSV");
}

/// The whole plan of a receiver: its video plan, with audio on every route where it is enabled.
pub open spec fn receiver_plan(args: RecvArgs, machine: Machine) -> Result<PlanModel, Seq<char>> {
    match video_plan(args, machine) {
        Ok(plan) => if args.audio_enabled {
            match receiver_audio(args, machine.registry) {
                Ok(audio) => Ok(plan.with_pipeline(audio)),
                Err(message) => Err(message),
            }
        } else {
            Ok(plan)
        },
        Err(message) => Err(message),
    }
}

/// Builds the whole plan of a receiver.
pub fn build_receiver_pipeline_plan(args: &RecvArgs, machine: &Machine) -> (r: Result<
    ReceiverPipelinePlan,
    PipelineError,
>)
    ensures
        gives_plan(r, receiver_plan(*args, *machine)),
{
    let mut plan = build_receiver_video_plan(args, machine)?;
    if args.audio_enabled {
        let audio = build_receiver_audio_pipeline(args, &machine.registry)?;
        plan.append_pipeline(&audio);
    }
    Ok(plan)
}

/// Builds the pipeline that a receiver tries first.
pub fn build_receiver_pipeline(args: &RecvArgs, machine: &Machine) -> (r: Result<
    String,
    PipelineError,
>)
    ensures
        match (r, receiver_plan(*args, *machine)) {
            (Ok(description), Ok(plan)) => description@ == plan.primary,
            (Err(error), Err(message)) => error.text() == message,
            _ => false,
        },
{
    let plan = build_receiver_pipeline_plan(args, machine)?;
    Ok(plan.primary)
}

/// Every plan whose decoder was not asked to be a software one ends with the software route, on
/// every machine with a software decoder; and the frames of that route are in system memory.
pub proof fn law_plan_ends_with_a_software_route(args: RecvArgs, machine: Machine)
    requires
        video_plan(args, machine) is Ok,
        args.decoder != Decoder::Avdec,
        args.decoder != Decoder::Software,
        decoders::software(machine.registry) is Some,
    ensures
        ({
            let plan = video_plan(args, machine)->Ok_0;
            let gpu = gpu::receiver_adapter(
                args.gpu@,
                machine.adapters@,
                machine.monitors@,
                machine.outputs@,
            );
            let decoder = decoders::software(machine.registry)->0;
            let sink = decoders::chosen_sink(
                args.sink,
                args.fullscreen,
                args.sampling,
                gpu,
                machine.registry,
            );
            &&& decoder.memory == elements::ReceiverMemory::System
            &&& sink is Ok ==> plan.fallbacks.len() > 0 && plan.fallbacks.last() == (
                "software"@,
                receiver_video_text(args, RouteModel { decoder, sink: sink->Ok_0 }),
            )
            &&& args.sink != Sink::D3d11 ==> sink is Ok
        }),
{
}

/// A software decoder that was asked for is not tried a second time.
pub proof fn law_explicit_software_decoder_is_not_repeated(args: RecvArgs, machine: Machine)
    requires
        video_plan(args, machine) is Ok,
        args.decoder == Decoder::Avdec || args.decoder == Decoder::Software,
    ensures
        forall|i: int|
            0 <= i < (video_plan(args, machine)->Ok_0).fallbacks.len() ==> (
            #[trigger] (video_plan(args, machine)->Ok_0).fallbacks[i]).0 == "D3D11/QSV"@,
{
}

/// Turning audio on changes nothing about the routes but the audio pipeline at the end of each.
pub proof fn law_audio_extends_every_route(args: RecvArgs, machine: Machine)
    requires
        receiver_plan(args, machine) is Ok,
        args.audio_enabled,
    ensures
        ({
            let video = video_plan(args, machine)->Ok_0;
            let whole = receiver_plan(args, machine)->Ok_0;
            let audio = receiver_audio_text(args, machine.registry);
            &&& whole.primary == video.primary + seq![' '] + audio
            &&& whole.fallbacks.len() == video.fallbacks.len()
            &&& forall|i: int|
                0 <= i < whole.fallbacks.len() ==> (#[trigger] whole.fallbacks[i]).0
                    == video.fallbacks[i].0 && whole.fallbacks[i].1 == video.fallbacks[i].1 + seq![
                    ' ',
                ] + audio
            &&& whole.decode_limits == video.decode_limits
        }),
{
}

/// The lines that the element probe reports, as pairs of a role and an element.
pub open spec fn probed() -> Seq<(Seq<char>, Seq<char>)> {
    seq![
        ("capture"@, "d3d11screencapturesrc"@),
        ("gpu encode"@, "nvd3d11h264enc"@),
        ("amf encode"@, "amfh264enc"@),
        ("mf encode"@, "mfh264enc"@),
        ("qsv encode"@, "qsvh264enc"@),
        ("cpu encode"@, "x264enc"@),
        ("rtp pay"@, "rtph264pay"@),
        ("opus encode"@, "opusenc"@),
        ("opus decode"@, "opusdec"@),
        ("audio capture"@, "wasapi2src"@),
        ("audio sink"@, "wasapi2sink"@),
        ("multi udp"@, "multiudpsink"@),
        ("rtp jitter"@, "rtpjitterbuffer"@),
        ("rtp depay"@, "rtph264depay"@),
        ("d3d12 decode"@, "d3d12h264dec"@),
        ("gpu decode"@, "d3d11h264dec"@),
        ("qsv decode"@, "qsvh264dec"@),
        ("cpu decode"@, "openh264dec"@),
        ("cpu decode"@, "avdec_h264"@),
        ("d3d12 sink"@, "d3d12videosink"@),
        ("gpu sink"@, "d3d11videosink"@),
    ]
}

/// What the element probe reports on, in the order a reader scans it. It names every software
/// decoder that a receiver would try.
pub fn probed_elements() -> (r: Vec<(&'static str, &'static str)>)
    ensures
        r@.len() == probed().len(),
        forall|i: int|
            0 <= i < r@.len() ==> (#[trigger] r@[i]).0@ == probed()[i].0 && r@[i].1@
                == probed()[i].1,
{
    let mut out: Vec<(&'static str, &'static str)> = Vec::new();
    out.push(("capture", "d3d11screencapturesrc"));
    out.push(("gpu encode", "nvd3d11h264enc"));
    out.push(("amf encode", "amfh264enc"));
    out.push(("mf encode", "mfh264enc"));
    out.push(("qsv encode", "qsvh264enc"));
    out.push(("cpu encode", "x264enc"));
    out.push(("rtp pay", "rtph264pay"));
    out.push(("opus encode", "opusenc"));
    out.push(("opus decode", "opusdec"));
    out.push(("audio capture", "wasapi2src"));
    out.push(("audio sink", "wasapi2sink"));
    out.push(("multi udp", "multiudpsink"));
    out.push(("rtp jitter", "rtpjitterbuffer"));
    out.push(("rtp depay", "rtph264depay"));
    out.push(("d3d12 decode", "d3d12h264dec"));
    out.push(("gpu decode", "d3d11h264dec"));
    out.push(("qsv decode", "qsvh264dec"));
    let software = decoders::software_h264_decoders();
    out.push(("cpu decode", software[0]));
    out.push(("cpu decode", software[1]));
    out.push(("d3d12 sink", "d3d12videosink"));
    out.push(("gpu sink", "d3d11videosink"));
    out
}

/// What the probe prints of one element.
pub open spec fn probe_line(role: Seq<char>, name: Seq<char>, registry: ElementRegistry) -> Seq<
    char,
> {
    text::space_padded(role, 12) + " "@ + text::space_padded(name, 24) + " "@ + (
    if registry.has(name) {
        "yes"@
    } else {
        "no"@
    })
}

/// The lines of the element probe.
pub fn probe_elements(registry: &ElementRegistry) -> (r: Vec<String>)
    ensures
        text::texts(r@) == Seq::new(
            probed().len(),
            |i: int| probe_line(probed()[i].0, probed()[i].1, *registry),
        ),
{
    let elements = probed_elements();
    let mut lines: Vec<String> = Vec::new();
    let mut i: usize = 0;
    while i < elements.len()
        invariant
            i <= elements.len(),
            elements@.len() == probed().len(),
            forall|k: int|
                0 <= k < elements@.len() ==> (#[trigger] elements@[k]).0@ == probed()[k].0
                    && elements@[k].1@ == probed()[k].1,
            lines@.len() == i,
            forall|k: int|
                0 <= k < i ==> (#[trigger] lines@[k])@ == probe_line(
                    probed()[k].0,
                    probed()[k].1,
                    *registry,
                ),
        decreases elements.len() - i,
    {
        let (role, name) = elements[i];
        let mut line = String::new();
        text::push_space_padded(&mut line, role, 12);
        line.push_str(" ");
        text::push_space_padded(&mut line, name, 24);
        line.push_str(" ");
        line.push_str(if registry.has_element(name) {
            "yes"
        } else {
            "no"
        });
        assert(elements@[i as int].0@ == probed()[i as int].0);
        assert(line@ == probe_line(probed()[i as int].0, probed()[i as int].1, *registry));
        lines.push(line);
        i += 1;
    }
    assert(text::texts(lines@) == Seq::new(
        probed().len(),
        |i: int| probe_line(probed()[i].0, probed()[i].1, *registry),
    ));
    lines
}

/// A host is still to be found exactly where there is none, or the word `auto` in whatever case.
pub proof fn law_hosts_that_are_still_to_be_found(host: Seq<char>)
    ensures
        unresolved_host(host) <==> text::trim(host).len() == 0 || text::lower(text::trim(host))
            == "auto"@,
{
    reveal_strlit("auto");
    assert(text::lower("auto"@) =~= "auto"@);
}

/// Audio is sent exactly where the arguments are in order, there is somebody to send it to, and
/// every element of the way from the sound card to the socket is installed.
pub proof fn law_sent_audio_needs_its_elements(args: SendArgs, registry: ElementRegistry)
    ensures
        sender_audio(args, registry) is Ok <==> {
            &&& sender_audio_problem(args) is None
            &&& host_list(args.host@).len() > 0
            &&& registry.has("wasapi2src"@) && registry.has("audioconvert"@)
            &&& registry.has("audioresample"@) && registry.has("opusenc"@)
            &&& registry.has("rtpopuspay"@) && registry.has("multiudpsink"@)
        },
{
    let names = sender_audio_elements();
    let p = |name: Seq<char>| !registry.has(name);
    law_clients_are_hosts_with_ports(args.host@, args.audio_port, true);
    search::lemma_first_sound(names, p);
    assert(names[0] == "wasapi2src"@ && names[1] == "audioconvert"@ && names[2]
        == "audioresample"@ && names[3] == "opusenc"@ && names[4] == "rtpopuspay"@ && names[5]
        == "multiudpsink"@);
    if search::first(names, p) is None {
        assert(!p(names[0]) && !p(names[1]) && !p(names[2]) && !p(names[3]) && !p(names[4]) && !p(
            names[5],
        ));
    }
}

/// Audio is received exactly where its numbers are not zero and every element of the way from the
/// socket to the speakers is installed.
pub proof fn law_received_audio_needs_its_elements(args: RecvArgs, registry: ElementRegistry)
    ensures
        receiver_audio(args, registry) is Ok <==> {
            &&& args.audio_jitter_ms > 0 && args.udp_buffer_size > 0 && args.mtu > 0
            &&& registry.has("rtpopusdepay"@) && registry.has("opusdec"@)
            &&& registry.has("audioconvert"@) && registry.has("audioresample"@)
        },
{
    let names = receiver_audio_elements();
    let p = |name: Seq<char>| !registry.has(name);
    search::lemma_first_sound(names, p);
    assert(names[0] == "rtpopusdepay"@ && names[1] == "opusdec"@ && names[2] == "audioconvert"@
        && names[3] == "audioresample"@);
    if search::first(names, p) is None {
        assert(!p(names[0]) && !p(names[1]) && !p(names[2]) && !p(names[3]));
    }
}

/// The video of a sender has a pipeline exactly where the arguments are in order, there is somebody
/// to send it to, something to capture and something to encode with.
pub proof fn law_sent_video_needs_a_source_and_an_encoder(
    args: SendArgs,
    target: Option<DisplayMonitor>,
    machine: Machine,
)
    ensures
        sender_video(args, target, machine) is Ok <==> {
            &&& sender_video_problem(args) is None
            &&& host_list(args.host@).len() > 0
            &&& sender_source(args, target, machine) matches Ok((_, tied))
                && encoders::chosen_encoder(
                args.encoder,
                args.allow_software_encoder,
                search::or(
                    gpu::selected(args.gpu@, machine.adapters@),
                    capture_gpu(tied, args.monitor_index, machine),
                ),
                machine.registry,
            ) is Ok
        },
{
    law_clients_are_hosts_with_ports(args.host@, args.port, false);
}

/// A receiver's route follows what was asked for: the decoder and the sink that the request gives
/// on the GPU, drawn as large and as smooth as was asked for; D3D12 stands in for both only where
/// neither was asked for.
pub proof fn law_receiver_route_follows_the_request(
    args: RecvArgs,
    gpu: Option<GpuAdapter>,
    allow_modern_intel_d3d12: bool,
    machine: Machine,
)
    ensures
        receiver_route(args, gpu, allow_modern_intel_d3d12, machine) matches Ok(route) ==> {
            let modern = text::starts_with(route.sink, "d3d12videosink"@);
            &&& args.decoder != Decoder::Auto || args.sink != Sink::Auto
                || !allow_modern_intel_d3d12 ==> !modern
            &&& !modern ==> decoders::chosen_decoder(
                args.decoder,
                gpu,
                machine.adapters@,
                machine.registry,
            ) == Ok::<decoders::DecoderModel, Seq<char>>(route.decoder)
                && decoders::chosen_sink(
                args.sink,
                args.fullscreen,
                args.sampling,
                gpu,
                machine.registry,
            ) == Ok::<Seq<char>, Seq<char>>(route.sink)
            &&& modern ==> gpu is Some && route.sink == decoders::d3d12_sink_text(
                args.fullscreen,
                args.sampling,
                gpu->0,
            )
        },
{
    decoders::law_d3d12_is_for_intel_alone(
        args.decoder,
        args.sink,
        args.fullscreen,
        args.sampling,
        gpu,
        allow_modern_intel_d3d12,
        machine.adapters@,
        machine.registry,
    );
}

} // verus!
