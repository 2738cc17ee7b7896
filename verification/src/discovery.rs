//! Peers on the local network: what they announce, how they are probed for, and which of them
//! a discovery pass keeps.
use crate::clock::now_ms;
use crate::lan;
use crate::reading;
use crate::text;
use sha2::{Digest, Sha256};
#[allow(unused_imports)]
use vstd::arithmetic::power2::*;
use vstd::prelude::*;

verus! {

pub const DISCOVERY_PORT: u16 = 47777;

pub const DISCOVERY_PROBE_PORT: u16 = 47776;

pub const PROTOCOL: &'static str = "screen-mirror.discovery";

pub const PROBE_PROTOCOL: &'static str = "screen-mirror.discovery-probe";

pub const PROTOCOL_VERSION: u16 = 1;

pub const DEFAULT_PIN: &'static str = "0000";

/// The most addresses that one discovery pass probes directly.
pub const MAX_PROBE_ADDRESSES: usize = 2048;

/// An IPv4 address, as the number that its four octets make up in network order.
#[derive(Clone, Copy, Debug, PartialEq, Eq, PartialOrd, Ord, Hash, Structural)]
pub struct Ipv4Addr {
    pub bits: u32,
}

impl Ipv4Addr {
    /// The number that four octets make up.
    pub open spec fn of_octets(a: u8, b: u8, c: u8, d: u8) -> int {
        a * 0x100_0000 + b * 0x1_0000 + c * 0x100 + d
    }

    pub fn new(a: u8, b: u8, c: u8, d: u8) -> (r: Self)
        ensures
            r.bits == Self::of_octets(a, b, c, d),
    {
        Ipv4Addr { bits: a as u32 * 0x100_0000 + b as u32 * 0x1_0000 + c as u32 * 0x100 + d as u32 }
    }

    /// The first octet.
    pub open spec fn octet0(self) -> int {
        self.bits as int / 0x100_0000
    }

    /// The second octet.
    pub open spec fn octet1(self) -> int {
        self.bits as int / 0x1_0000 % 0x100
    }

    /// The third octet.
    pub open spec fn octet2(self) -> int {
        self.bits as int / 0x100 % 0x100
    }

    /// The last octet.
    pub open spec fn octet3(self) -> int {
        self.bits as int % 0x100
    }

    pub fn octets(self) -> (r: [u8; 4])
        ensures
            r[0] == self.octet0(),
            r[1] == self.octet1(),
            r[2] == self.octet2(),
            r[3] == self.octet3(),
    {
        [
            (self.bits / 0x100_0000) as u8,
            (self.bits / 0x1_0000 % 0x100) as u8,
            (self.bits / 0x100 % 0x100) as u8,
            (self.bits % 0x100) as u8,
        ]
    }

    /// The address in dotted decimal notation.
    pub open spec fn dotted(self) -> Seq<char> {
        text::dec(self.octet0() as nat) + seq!['.'] + text::dec(self.octet1() as nat) + seq!['.'] + text::dec(
            self.octet2() as nat,
        ) + seq!['.'] + text::dec(self.octet3() as nat)
    }

    /// Appends the dotted decimal notation.
    pub fn push_to(self, out: &mut String)
        ensures
            final(out)@ == old(out)@ + self.dotted(),
    {
        let octets = self.octets();
        text::push_dec(out, octets[0] as u64);
        out.push('.');
        text::push_dec(out, octets[1] as u64);
        out.push('.');
        text::push_dec(out, octets[2] as u64);
        out.push('.');
        text::push_dec(out, octets[3] as u64);
        assert(out@ == old(out)@ + self.dotted());
    }

    pub open spec fn loopback(self) -> bool {
        self.octet0() == 127
    }

    /// Whether the address lies in 127.0.0.0/8.
    pub fn is_loopback(self) -> (r: bool)
        ensures
            r == self.loopback(),
    {
        self.bits / 0x100_0000 == 127
    }

    pub open spec fn link_local(self) -> bool {
        self.octet0() == 169 && self.octet1() == 254
    }

    /// Whether the address lies in 169.254.0.0/16.
    pub fn is_link_local(self) -> (r: bool)
        ensures
            r == self.link_local(),
    {
        self.bits / 0x100_0000 == 169 && self.bits / 0x1_0000 % 0x100 == 254
    }

    pub open spec fn private(self) -> bool {
        ||| self.octet0() == 10
        ||| self.octet0() == 172 && 16 <= self.octet1() <= 31
        ||| self.octet0() == 192 && self.octet1() == 168
    }

    /// Whether the address lies in 10.0.0.0/8, 172.16.0.0/12 or 192.168.0.0/16.
    pub fn is_private(self) -> (r: bool)
        ensures
            r == self.private(),
    {
        let first: u32 = self.bits / 0x100_0000;
        let second: u32 = self.bits / 0x1_0000 % 0x100;
        first == 10 || (first == 172 && 16 <= second && second <= 31) || (first == 192 && second
            == 168)
    }
}

/// Reading the octets of an address gives the octets that it was made of.
pub proof fn law_octets_round_trip(a: u8, b: u8, c: u8, d: u8, address: Ipv4Addr)
    requires
        address.bits == Ipv4Addr::of_octets(a, b, c, d),
    ensures
        address.octet0() == a,
        address.octet1() == b,
        address.octet2() == c,
        address.octet3() == d,
{
    let (a, b, c, d) = (a as int, b as int, c as int, d as int);
    let n = address.bits as int;
    assert(n / 0x100 == a * 0x1_0000 + b * 0x100 + c && n % 0x100 == d);
    assert(n / 0x1_0000 == a * 0x100 + b) by {
        assert(n == (a * 0x100 + b) * 0x1_0000 + (c * 0x100 + d));
    }
    assert(n / 0x100_0000 == a) by {
        assert(n == a * 0x100_0000 + (b * 0x1_0000 + c * 0x100 + d));
    }
}

/// One address of a network interface.
#[derive(Clone, Copy, Debug, PartialEq, Eq, Structural)]
pub enum InterfaceAddr {
    V4 { ip: Ipv4Addr, netmask: Ipv4Addr },
    V6,
}

/// What is wrong with a PIN or with a packet.
#[derive(Clone, Copy, Debug, PartialEq, Eq, Structural)]
pub enum DiscoveryError {
    PinFormat,
    UnexpectedDiscoveryProtocol,
    UnsupportedDiscoveryVersion,
    UnexpectedProbeProtocol,
    UnsupportedProbeVersion,
}

impl DiscoveryError {
    pub open spec fn text(self) -> Seq<char> {
        match self {
            DiscoveryError::PinFormat => "PIN must be exactly four digits"@,
            DiscoveryError::UnexpectedDiscoveryProtocol => "unexpected discovery protocol"@,
            DiscoveryError::UnsupportedDiscoveryVersion => "unsupported discovery version"@,
            DiscoveryError::UnexpectedProbeProtocol => "unexpected probe protocol"@,
            DiscoveryError::UnsupportedProbeVersion => "unsupported probe version"@,
        }
    }

    /// The message that a user reads.
    pub fn message(self) -> (r: &'static str)
        ensures
            r@ == self.text(),
    {
        match self {
            DiscoveryError::PinFormat => "PIN must be exactly four digits",
            DiscoveryError::UnexpectedDiscoveryProtocol => "unexpected discovery protocol",
            DiscoveryError::UnsupportedDiscoveryVersion => "unsupported discovery version",
            DiscoveryError::UnexpectedProbeProtocol => "unexpected probe protocol",
            DiscoveryError::UnsupportedProbeVersion => "unsupported probe version",
        }
    }
}

/// Whether a text is a PIN once the white space around it is gone.
pub open spec fn is_pin(pin: Seq<char>) -> bool {
    text::trim(pin).len() == 4 && text::all_digits(text::trim(pin))
}

/// The four digits of a PIN.
pub fn normalize_pin(pin: &str) -> (r: Result<String, DiscoveryError>)
    ensures
        match r {
            Ok(digits) => is_pin(pin@) && digits@ == text::trim(pin@),
            Err(error) => !is_pin(pin@) && error == DiscoveryError::PinFormat,
        },
{
    let digits = text::trimmed(pin);
    if digits.len() == 4 && text::only_digits(&digits) {
        Ok(text::string_of(&digits))
    } else {
        Err(DiscoveryError::PinFormat)
    }
}

/// What SHA-256 makes of a message.
pub uninterp spec fn sha256(message: Seq<u8>) -> Seq<u8>;

/// `sha2::Sha256::digest`: the SHA-256 hash of a message, a function of its bytes alone, which
/// is 32 bytes long.
#[verifier::external_body]
fn sha256_digest(message: &[u8]) -> (r: Vec<u8>)
    ensures
        r@ == sha256(message@),
        r@.len() == 32,
{
    Sha256::digest(message).to_vec()
}

/// The lower case hexadecimal digit of a value below sixteen.
pub open spec fn hex_digit(n: int) -> char {
    if n < 10 {
        (48 + n) as u8 as char
    } else {
        (87 + n) as u8 as char
    }
}

/// Two lower case hexadecimal digits for each byte.
pub open spec fn hex(bytes: Seq<u8>) -> Seq<char> {
    Seq::new(
        bytes.len() * 2,
        |i: int|
            if i % 2 == 0 {
                hex_digit(bytes[i / 2] as int / 16)
            } else {
                hex_digit(bytes[i / 2] as int % 16)
            },
    )
}

fn hex_char(n: u8) -> (r: char)
    requires
        n < 16,
    ensures
        r == hex_digit(n as int),
{
    if n < 10 {
        (48 + n) as char
    } else {
        (87 + n) as char
    }
}

/// Writes bytes in hexadecimal.
pub fn hex_string(bytes: &[u8]) -> (r: String)
    ensures
        r@ == hex(bytes@),
{
    let mut out = String::new();
    let mut i: usize = 0;
    while i < bytes.len()
        invariant
            i <= bytes.len(),
            out@ == hex(bytes@.take(i as int)),
        decreases bytes.len() - i,
    {
        let ghost before = out@;
        out.push(hex_char(bytes[i] / 16));
        out.push(hex_char(bytes[i] % 16));
        assert(out@ == hex(bytes@.take(i + 1))) by {
            assert(bytes@.take(i + 1).drop_last() == bytes@.take(i as int));
            assert forall|k: int| 0 <= k < out@.len() implies out@[k] == hex(bytes@.take(i + 1))[k] by {
                if k < 2 * i {
                    assert(before[k] == hex(bytes@.take(i as int))[k]);
                    assert(k / 2 < i);
                } else {
                    assert(k / 2 == i);
                }
            }
        }
        i += 1;
    }
    assert(bytes@.take(bytes@.len() as int) == bytes@);
    out
}

/// The text that is hashed in place of a PIN: a fixed label, then the four digits.
pub open spec fn pin_message(digits: Seq<char>) -> Seq<u8> {
    ("screen-mirror.pin.v1:"@ + digits).map_values(|c: char| c as u8)
}

/// Whether a text has the form of a PIN's hash: 64 lower case hexadecimal digits.
pub open spec fn is_pin_hash(hash: Seq<char>) -> bool {
    &&& hash.len() == 64
    &&& forall|i: int|
        0 <= i < hash.len() ==> '0' <= #[trigger] hash[i] <= '9' || 'a' <= hash[i] <= 'f'
}

/// Thirty-two bytes have the form of a hash in hexadecimal.
proof fn lemma_hex_of_digest(bytes: Seq<u8>)
    requires
        bytes.len() == 32,
    ensures
        is_pin_hash(hex(bytes)),
{
    assert forall|i: int| 0 <= i < hex(bytes).len() implies '0' <= #[trigger] hex(bytes)[i] <= '9'
        || 'a' <= hex(bytes)[i] <= 'f' by {
        let byte: int = bytes[i / 2] as int;
        let n: int = if i % 2 == 0 {
            byte / 16
        } else {
            byte % 16
        };
        assert(0 <= n < 16);
        assert(hex(bytes)[i] == hex_digit(n));
    }
}

/// What peers compare in place of a PIN.
pub open spec fn pin_hash_of(pin: Seq<char>) -> Seq<char> {
    hex(sha256(pin_message(text::trim(pin))))
}

/// Hashes a PIN, so that no packet carries it in the clear.
pub fn pin_hash(pin: &str) -> (r: Result<String, DiscoveryError>)
    ensures
        match r {
            Ok(hash) => is_pin(pin@) && hash@ == pin_hash_of(pin@) && is_pin_hash(hash@),
            Err(error) => !is_pin(pin@) && error == DiscoveryError::PinFormat,
        },
{
    let digits = match normalize_pin(pin) {
        Ok(digits) => digits,
        Err(error) => return Err(error),
    };
    let mut labelled = String::new();
    labelled.push_str("screen-mirror.pin.v1:");
    labelled.push_str(&digits);
    let chars = text::chars_of(&labelled);
    proof {
        reveal_strlit("screen-mirror.pin.v1:");
        assert(chars@ == "screen-mirror.pin.v1:"@ + text::trim(pin@));
    }
    let mut message: Vec<u8> = Vec::new();
    let mut i: usize = 0;
    while i < chars.len()
        invariant
            i <= chars.len(),
            forall|k: int| 0 <= k < chars@.len() ==> (#[trigger] chars@[k] as u32) < 128,
            message@ == chars@.take(i as int).map_values(|c: char| c as u8),
        decreases chars.len() - i,
    {
        message.push(chars[i] as u8);
        assert(chars@.take(i + 1).map_values(|c: char| c as u8) == chars@.take(
            i as int,
        ).map_values(|c: char| c as u8).push(chars@[i as int] as u8));
        i += 1;
    }
    assert(chars@.take(chars@.len() as int) == chars@);
    let digest = sha256_digest(&message);
    proof {
        lemma_hex_of_digest(digest@);
    }
    Ok(hex_string(&digest))
}

/// White space around a PIN plays no part in its hash.
pub proof fn law_pin_hash_ignores_surrounding_space(left: Seq<char>, right: Seq<char>)
    requires
        text::trim(left) == text::trim(right),
    ensures
        is_pin(left) == is_pin(right),
        pin_hash_of(left) == pin_hash_of(right),
{
}

#[derive(Clone, Copy, Debug, PartialEq, Eq, Structural)]
pub enum PeerRole {
    Idle,
    Sender,
    Receiver,
}

/// A display as a peer announces it.
#[derive(Clone, Copy, Debug, PartialEq, Eq, Structural)]
pub struct DisplayInfo {
    pub width: u32,
    pub height: u32,
    pub refresh_hz: Option<u32>,
    /// Largest frame the peer's hardware decoder accepts, when it knows one. A stream above this
    /// fails to negotiate before the decoder sees a frame, so a sender scales down to fit
    /// instead. Peers that do not send this field leave it empty, which means no known limit.
    pub max_decode_width: Option<u32>,
    pub max_decode_height: Option<u32>,
}

impl DisplayInfo {
    pub fn new(width: u32, height: u32, refresh_hz: Option<u32>) -> (r: Self)
        ensures
            r == (DisplayInfo {
                width,
                height,
                refresh_hz,
                max_decode_width: None,
                max_decode_height: None,
            }),
    {
        DisplayInfo { width, height, refresh_hz, max_decode_width: None, max_decode_height: None }
    }

    /// Sets both sides of the decode limit, or clears both.
    pub fn with_decode_limits(self, limits: Option<(u32, u32)>) -> (r: Self)
        ensures
            r == (DisplayInfo {
                max_decode_width: match limits {
                    Some((width, height)) => Some(width),
                    None => None,
                },
                max_decode_height: match limits {
                    Some((width, height)) => Some(height),
                    None => None,
                },
                ..self
            }),
    {
        match limits {
            Some((width, height)) => DisplayInfo {
                max_decode_width: Some(width),
                max_decode_height: Some(height),
                ..self
            },
            None => DisplayInfo { max_decode_width: None, max_decode_height: None, ..self },
        }
    }

    /// A limit is only usable as a pair, so a peer that reports one side and not the other is
    /// treated as having reported nothing.
    pub open spec fn limits(self) -> Option<(u32, u32)> {
        match (self.max_decode_width, self.max_decode_height) {
            (Some(width), Some(height)) => Some((width, height)),
            _ => None,
        }
    }

    pub fn decode_limits(&self) -> (r: Option<(u32, u32)>)
        ensures
            r == self.limits(),
    {
        match (self.max_decode_width, self.max_decode_height) {
            (Some(width), Some(height)) => Some((width, height)),
            _ => None,
        }
    }

    pub open spec fn fitted(self, source: (u32, u32)) -> Option<(u32, u32)> {
        match self.limits() {
            Some(limit) => fitted_within(source, limit),
            None => None,
        }
    }

    /// Frame size a `source`-sized capture has to be scaled to before this peer can decode it,
    /// or `None` when the capture already fits or the peer announced no limit.
    pub fn fitted_frame_size(&self, source: (u32, u32)) -> (r: Option<(u32, u32)>)
        ensures
            r == self.fitted(source),
            r matches Some((width, height)) ==> self.limits() matches Some(limit) && width
                <= limit.0 && height <= limit.1,
    {
        match self.decode_limits() {
            Some(limit) => fit_within(source, limit),
            None => None,
        }
    }
}

/// A limit that was announced is the limit that is read back.
pub proof fn law_decode_limits_round_trip(display: DisplayInfo, width: u32, height: u32)
    ensures
        (DisplayInfo {
            max_decode_width: Some(width),
            max_decode_height: Some(height),
            ..display
        }).limits() == Some((width, height)),
{
}

/// The largest even number up to `n`, but no less than two.
pub open spec fn even_side(n: int) -> int {
    if n < 2 {
        2
    } else {
        n - n % 2
    }
}

/// The size at which a frame fills its limit on one side and stays inside it on the other.
pub open spec fn scaled(source: (u32, u32), limit: (u32, u32)) -> (int, int) {
    let height_at_max_width = limit.0 as int * source.1 as int / source.0 as int;
    if height_at_max_width <= limit.1 {
        (even_side(limit.0 as int), even_side(height_at_max_width))
    } else {
        (even_side(limit.1 as int * source.0 as int / source.1 as int), even_side(limit.1 as int))
    }
}

/// The size that a frame is scaled down to, if it has to be scaled at all. No frame with even sides
/// lies inside a limit with a side below two.
pub open spec fn fitted_within(source: (u32, u32), limit: (u32, u32)) -> Option<(u32, u32)> {
    if source.0 == 0 || source.1 == 0 || limit.0 < 2 || limit.1 < 2 {
        None
    } else if source.0 <= limit.0 && source.1 <= limit.1 {
        None
    } else if scaled(source, limit) == (source.0 as int, source.1 as int) {
        None
    } else {
        Some((scaled(source, limit).0 as u32, scaled(source, limit).1 as u32))
    }
}

/// Where the scaled width or height is bounded by the frame's own, it fits 32 bits.
proof fn lemma_scaled_bounds(source: (u32, u32), limit: (u32, u32))
    requires
        source.0 > 0,
        source.1 > 0,
        limit.0 > 0,
        limit.1 > 0,
    ensures
        0 <= scaled(source, limit).0 <= u32::MAX,
        0 <= scaled(source, limit).1 <= u32::MAX,
        limit.0 as int * source.1 as int / source.0 as int > limit.1 ==> limit.1 as int
            * source.0 as int / source.1 as int <= limit.0,
        0 <= limit.0 as int * source.1 as int / source.0 as int,
        0 <= limit.1 as int * source.0 as int / source.1 as int,
{
    let (w, h) = (source.0 as int, source.1 as int);
    let (mw, mh) = (limit.0 as int, limit.1 as int);
    assert(mw * h / w > mh ==> mh * w / h <= mw) by (nonlinear_arith)
        requires
            w > 0,
            h > 0,
            mw > 0,
            mh > 0,
    ;
    assert(0 <= mw * h / w) by (nonlinear_arith)
        requires
            w > 0,
            h > 0,
            mw > 0,
    ;
    assert(0 <= mh * w / h) by (nonlinear_arith)
        requires
            w > 0,
            h > 0,
            mh > 0,
    ;
}

fn even_u32(n: u64) -> (r: u32)
    requires
        n <= u32::MAX,
    ensures
        r == even_side(n as int),
{
    let n: u32 = n as u32;
    if n < 2 {
        2
    } else {
        n - n % 2
    }
}

/// Scales `source` down to fit `limit` while keeping its aspect ratio, or `None` when it already
/// fits and needs no scaling at all.
///
/// Both sides are rounded down to an even number: H.264 chroma subsampling needs even dimensions
/// and the D3D11 encoders reject odd ones. Rounding down also keeps the result inside the limit,
/// and a limit that leaves no room for an even frame gives none.
pub fn fit_within(source: (u32, u32), limit: (u32, u32)) -> (r: Option<(u32, u32)>)
    ensures
        r == fitted_within(source, limit),
        r matches Some((width, height)) ==> width <= limit.0 && height <= limit.1,
{
    let (width, height) = source;
    let (max_width, max_height) = limit;
    if width == 0 || height == 0 || max_width < 2 || max_height < 2 {
        return None;
    }
    if width <= max_width && height <= max_height {
        return None;
    }
    proof {
        lemma_scaled_bounds(source, limit);
    }
    let width_by_height: u64 = {
        assert(max_width as int * height as int <= u64::MAX) by (nonlinear_arith)
            requires
                0 <= max_width <= u32::MAX,
                0 <= height <= u32::MAX,
        ;
        max_width as u64 * height as u64
    };
    let height_at_max_width: u64 = width_by_height / width as u64;
    let fitted: (u32, u32) = if height_at_max_width <= max_height as u64 {
        (even_u32(max_width as u64), even_u32(height_at_max_width))
    } else {
        assert(max_height as int * width as int <= u64::MAX) by (nonlinear_arith)
            requires
                0 <= max_height <= u32::MAX,
                0 <= width <= u32::MAX,
        ;
        let width_at_max_height: u64 = max_height as u64 * width as u64 / height as u64;
        (even_u32(width_at_max_height), even_u32(max_height as u64))
    };
    if fitted.0 == width && fitted.1 == height {
        None
    } else {
        Some(fitted)
    }
}

/// A fitted frame has even sides, lies inside its limit, fills the limit on one side up to evenness,
/// and needs no second fitting.
pub proof fn law_fitted_frame_is_even_and_inside_the_limit(source: (u32, u32), limit: (u32, u32))
    requires
        fitted_within(source, limit) is Some,
    ensures
        ({
            let fitted = fitted_within(source, limit)->0;
            &&& fitted.0 % 2 == 0
            &&& fitted.1 % 2 == 0
            &&& 2 <= fitted.0 <= limit.0
            &&& 2 <= fitted.1 <= limit.1
            &&& fitted.0 >= limit.0 - 1 || fitted.1 >= limit.1 - 1
            &&& fitted_within(fitted, limit) is None
        }),
{
    lemma_scaled_bounds(source, limit);
}

/// A fitted frame keeps the aspect ratio of its source: the side that does not fill the limit is
/// the exactly scaled one, rounded down by less than two pixels.
pub proof fn law_fitted_frame_keeps_the_aspect(source: (u32, u32), limit: (u32, u32))
    requires
        fitted_within(source, limit) is Some,
    ensures
        ({
            let fitted = fitted_within(source, limit)->0;
            ||| fitted.0 == even_side(limit.0 as int) && (fitted.1 == 2 || 0 <= limit.0 as int
                * source.1 as int - fitted.1 as int * source.0 as int) && limit.0 as int
                * source.1 as int - fitted.1 as int * source.0 as int <= 2 * source.0 as int
            ||| fitted.1 == even_side(limit.1 as int) && (fitted.0 == 2 || 0 <= limit.1 as int
                * source.0 as int - fitted.0 as int * source.1 as int) && limit.1 as int
                * source.0 as int - fitted.0 as int * source.1 as int <= 2 * source.1 as int
        }),
{
    lemma_scaled_bounds(source, limit);
    let (w, h) = (source.0 as int, source.1 as int);
    let (mw, mh) = (limit.0 as int, limit.1 as int);
    let fitted = fitted_within(source, limit)->0;
    let (fw, fh) = (fitted.0 as int, fitted.1 as int);
    if mw * h / w <= mh {
        let q = mw * h / w;
        assert(q * w <= mw * h < (q + 1) * w) by (nonlinear_arith)
            requires
                w > 0,
                q == mw * h / w,
        ;
        if q >= 2 {
            assert(fh == q || fh == q - 1);
            assert(0 <= mw * h - fh * w <= 2 * w) by (nonlinear_arith)
                requires
                    w > 0,
                    q * w <= mw * h < (q + 1) * w,
                    fh == q || fh == q - 1,
            ;
        } else {
            assert(mw * h - fh * w <= 2 * w) by (nonlinear_arith)
                requires
                    w > 0,
                    mw * h < (q + 1) * w,
                    q < 2,
                    fh == 2,
            ;
        }
    } else {
        let q = mh * w / h;
        assert(q * h <= mh * w < (q + 1) * h) by (nonlinear_arith)
            requires
                h > 0,
                q == mh * w / h,
        ;
        if q >= 2 {
            assert(fw == q || fw == q - 1);
            assert(0 <= mh * w - fw * h <= 2 * h) by (nonlinear_arith)
                requires
                    h > 0,
                    q * h <= mh * w < (q + 1) * h,
                    fw == q || fw == q - 1,
            ;
        } else {
            assert(mh * w - fw * h <= 2 * h) by (nonlinear_arith)
                requires
                    h > 0,
                    mh * w < (q + 1) * h,
                    q < 2,
                    fw == 2,
            ;
        }
    }
}

/// What a peer tells the network about itself.
#[derive(Debug)]
pub struct PeerAnnouncement {
    pub protocol: String,
    pub version: u16,
    pub instance_id: String,
    pub device_name: String,
    pub role: PeerRole,
    pub stream_port: u16,
    pub audio_port: Option<u16>,
    pub diagnostics_port: Option<u16>,
    pub pin_hash: Option<String>,
    pub display: Option<DisplayInfo>,
    pub timestamp_ms: u64,
}

impl Clone for PeerAnnouncement {
    fn clone(&self) -> (r: Self)
        ensures
            r == *self,
    {
        PeerAnnouncement {
            protocol: self.protocol.clone(),
            version: self.version,
            instance_id: self.instance_id.clone(),
            device_name: self.device_name.clone(),
            role: self.role,
            stream_port: self.stream_port,
            audio_port: self.audio_port,
            diagnostics_port: self.diagnostics_port,
            pin_hash: self.pin_hash.clone(),
            display: self.display,
            timestamp_ms: self.timestamp_ms,
        }
    }
}

/// The characters of an optional text.
pub open spec fn optional_text(s: Option<String>) -> Option<Seq<char>> {
    match s {
        Some(text) => Some(text@),
        None => None,
    }
}

/// Whether a peer's role and PIN hash are the wanted ones; what is not asked for always fits.
pub open spec fn matches_request(
    announcement: PeerAnnouncement,
    role: Option<PeerRole>,
    pin_hash: Option<Seq<char>>,
) -> bool {
    &&& role is Some ==> announcement.role == role->0
    &&& pin_hash is Some ==> optional_text(announcement.pin_hash) == pin_hash
}

impl PeerAnnouncement {
    /// An announcement without optional parts, as of a given moment.
    pub fn new_at(
        instance_id: &str,
        device_name: &str,
        role: PeerRole,
        stream_port: u16,
        timestamp_ms: u64,
    ) -> (r: Self)
        ensures
            r.protocol@ == PROTOCOL@,
            r.version == PROTOCOL_VERSION,
            r.instance_id@ == instance_id@,
            r.device_name@ == device_name@,
            r.role == role,
            r.stream_port == stream_port,
            r.audio_port is None,
            r.diagnostics_port is None,
            r.pin_hash is None,
            r.display is None,
            r.timestamp_ms == timestamp_ms,
    {
        PeerAnnouncement {
            protocol: PROTOCOL.to_owned(),
            version: PROTOCOL_VERSION,
            instance_id: instance_id.to_owned(),
            device_name: device_name.to_owned(),
            role,
            stream_port,
            audio_port: None,
            diagnostics_port: None,
            pin_hash: None,
            display: None,
            timestamp_ms,
        }
    }

    /// An announcement without optional parts, as of now.
    pub fn new(instance_id: &str, device_name: &str, role: PeerRole, stream_port: u16) -> (r: Self)
        ensures
            r.protocol@ == PROTOCOL@,
            r.version == PROTOCOL_VERSION,
            r.instance_id@ == instance_id@,
            r.device_name@ == device_name@,
            r.role == role,
            r.stream_port == stream_port,
            r.audio_port is None,
            r.diagnostics_port is None,
            r.pin_hash is None,
            r.display is None,
    {
        PeerAnnouncement::new_at(instance_id, device_name, role, stream_port, now_ms())
    }

    /// Adds the hash of a PIN.
    pub fn with_pin(self, pin: &str) -> (r: Result<Self, DiscoveryError>)
        ensures
            match r {
                Ok(announcement) => {
                    &&& is_pin(pin@)
                    &&& optional_text(announcement.pin_hash) == Some(pin_hash_of(pin@))
                    &&& is_pin_hash(pin_hash_of(pin@))
                    &&& announcement == (PeerAnnouncement {
                        pin_hash: announcement.pin_hash,
                        ..self
                    })
                },
                Err(error) => !is_pin(pin@) && error == DiscoveryError::PinFormat,
            },
    {
        match pin_hash(pin) {
            Ok(hash) => Ok(PeerAnnouncement { pin_hash: Some(hash), ..self }),
            Err(error) => Err(error),
        }
    }

    pub fn with_audio_port(self, audio_port: Option<u16>) -> (r: Self)
        ensures
            r == (PeerAnnouncement { audio_port, ..self }),
    {
        PeerAnnouncement { audio_port, ..self }
    }

    pub fn with_diagnostics_port(self, diagnostics_port: u16) -> (r: Self)
        ensures
            r == (PeerAnnouncement { diagnostics_port: Some(diagnostics_port), ..self }),
    {
        PeerAnnouncement { diagnostics_port: Some(diagnostics_port), ..self }
    }

    pub fn with_display(self, display: DisplayInfo) -> (r: Self)
        ensures
            r == (PeerAnnouncement { display: Some(display), ..self }),
    {
        PeerAnnouncement { display: Some(display), ..self }
    }

    /// Whether a packet that was parsed is an announcement of this protocol.
    pub open spec fn supported(self) -> bool {
        self.protocol@ == PROTOCOL@ && self.version == PROTOCOL_VERSION
    }

    /// Lets a parsed packet through when it belongs to this protocol and version.
    pub fn validated(self) -> (r: Result<Self, DiscoveryError>)
        ensures
            match r {
                Ok(packet) => self.supported() && packet == self,
                Err(DiscoveryError::UnexpectedDiscoveryProtocol) => self.protocol@ != PROTOCOL@,
                Err(DiscoveryError::UnsupportedDiscoveryVersion) => self.protocol@ == PROTOCOL@
                    && self.version != PROTOCOL_VERSION,
                Err(_) => false,
            },
    {
        if !text::str_equal(&self.protocol, PROTOCOL) {
            Err(DiscoveryError::UnexpectedDiscoveryProtocol)
        } else if self.version != PROTOCOL_VERSION {
            Err(DiscoveryError::UnsupportedDiscoveryVersion)
        } else {
            Ok(self)
        }
    }

    /// Tests an announcement against the wanted role and PIN hash.
    pub fn fits(&self, role: Option<PeerRole>, pin_hash: Option<&str>) -> (r: bool)
        ensures
            r == matches_request(
                *self,
                role,
                match pin_hash {
                    Some(hash) => Some(hash@),
                    None => None,
                },
            ),
    {
        if let Some(wanted) = role {
            if self.role != wanted {
                return false;
            }
        }
        match pin_hash {
            Some(wanted) => match &self.pin_hash {
                Some(own) => text::str_equal(own, wanted),
                None => false,
            },
            None => true,
        }
    }
}

/// A peer that a discovery pass found.
#[derive(Debug)]
pub struct DiscoveredPeer {
    pub announcement: PeerAnnouncement,
    pub address: Ipv4Addr,
}

impl Clone for DiscoveredPeer {
    fn clone(&self) -> (r: Self)
        ensures
            r == *self,
    {
        DiscoveredPeer { announcement: self.announcement.clone(), address: self.address }
    }
}

/// A question to a peer: announce yourself if you have this role and this PIN.
#[derive(Debug)]
pub struct DiscoveryProbe {
    pub protocol: String,
    pub version: u16,
    pub wanted_role: Option<PeerRole>,
    pub pin_hash: Option<String>,
    pub timestamp_ms: u64,
}

/// What a probe carries in place of an optional PIN.
pub open spec fn wanted_hash(pin: Option<&str>) -> Option<Seq<char>> {
    match pin {
        Some(pin) => Some(pin_hash_of(pin@)),
        None => None,
    }
}

impl DiscoveryProbe {
    /// A probe as of a given moment.
    pub fn new_at(wanted_role: Option<PeerRole>, pin: Option<&str>, timestamp_ms: u64) -> (r:
        Result<Self, DiscoveryError>)
        ensures
            match r {
                Ok(probe) => {
                    &&& pin is Some ==> is_pin(pin->0@)
                    &&& probe.protocol@ == PROBE_PROTOCOL@
                    &&& probe.version == PROTOCOL_VERSION
                    &&& probe.wanted_role == wanted_role
                    &&& optional_text(probe.pin_hash) == wanted_hash(pin)
                    &&& pin is Some ==> is_pin_hash(pin_hash_of(pin->0@))
                    &&& probe.timestamp_ms == timestamp_ms
                },
                Err(error) => {
                    &&& pin is Some
                    &&& !is_pin(pin->0@)
                    &&& error == DiscoveryError::PinFormat
                },
            },
    {
        let hash = match pin {
            Some(pin) => match pin_hash(pin) {
                Ok(hash) => Some(hash),
                Err(error) => return Err(error),
            },
            None => None,
        };
        Ok(
            DiscoveryProbe {
                protocol: PROBE_PROTOCOL.to_owned(),
                version: PROTOCOL_VERSION,
                wanted_role,
                pin_hash: hash,
                timestamp_ms,
            },
        )
    }

    /// A probe as of now.
    pub fn new(wanted_role: Option<PeerRole>, pin: Option<&str>) -> (r: Result<
        Self,
        DiscoveryError,
    >)
        ensures
            match r {
                Ok(probe) => {
                    &&& pin is Some ==> is_pin(pin->0@)
                    &&& probe.protocol@ == PROBE_PROTOCOL@
                    &&& probe.version == PROTOCOL_VERSION
                    &&& probe.wanted_role == wanted_role
                    &&& optional_text(probe.pin_hash) == wanted_hash(pin)
                    &&& pin is Some ==> is_pin_hash(pin_hash_of(pin->0@))
                },
                Err(error) => {
                    &&& pin is Some
                    &&& !is_pin(pin->0@)
                    &&& error == DiscoveryError::PinFormat
                },
            },
    {
        DiscoveryProbe::new_at(wanted_role, pin, now_ms())
    }

    /// Whether a packet that was parsed is a probe of this protocol.
    pub open spec fn supported(self) -> bool {
        self.protocol@ == PROBE_PROTOCOL@ && self.version == PROTOCOL_VERSION
    }

    /// Lets a parsed probe through when it belongs to this protocol and version.
    pub fn validated(self) -> (r: Result<Self, DiscoveryError>)
        ensures
            match r {
                Ok(probe) => self.supported() && probe == self,
                Err(DiscoveryError::UnexpectedProbeProtocol) => self.protocol@ != PROBE_PROTOCOL@,
                Err(DiscoveryError::UnsupportedProbeVersion) => self.protocol@ == PROBE_PROTOCOL@
                    && self.version != PROTOCOL_VERSION,
                Err(_) => false,
            },
    {
        if !text::str_equal(&self.protocol, PROBE_PROTOCOL) {
            Err(DiscoveryError::UnexpectedProbeProtocol)
        } else if self.version != PROTOCOL_VERSION {
            Err(DiscoveryError::UnsupportedProbeVersion)
        } else {
            Ok(self)
        }
    }

    /// Whether the peer that makes this announcement should answer.
    pub fn accepts(&self, announcement: &PeerAnnouncement) -> (r: bool)
        ensures
            r == matches_request(*announcement, self.wanted_role, optional_text(self.pin_hash)),
    {
        match &self.pin_hash {
            Some(hash) => announcement.fits(self.wanted_role, Some(hash.as_str())),
            None => announcement.fits(self.wanted_role, None),
        }
    }
}

/// A peer answers a probe for its own role and its own PIN, however each side spaced the PIN, and
/// never one for another role or for a PIN with another hash.
pub proof fn law_probe_selects_role_and_pin(
    probe: DiscoveryProbe,
    announcement: PeerAnnouncement,
    probe_pin: Seq<char>,
    peer_pin: Seq<char>,
)
    requires
        probe.wanted_role is Some,
        optional_text(probe.pin_hash) == Some(pin_hash_of(probe_pin)),
        optional_text(announcement.pin_hash) == Some(pin_hash_of(peer_pin)),
    ensures
        matches_request(announcement, probe.wanted_role, optional_text(probe.pin_hash)) <==> (
        announcement.role == probe.wanted_role->0 && pin_hash_of(probe_pin) == pin_hash_of(
            peer_pin,
        )),
        text::trim(probe_pin) == text::trim(peer_pin) && announcement.role == probe.wanted_role->0
            ==> matches_request(announcement, probe.wanted_role, optional_text(probe.pin_hash)),
{
}

/// Whether a peer with this instance is among the peers.
pub open spec fn knows_instance(peers: Seq<DiscoveredPeer>, instance_id: Seq<char>) -> bool {
    exists|i: int|
        0 <= i < peers.len() && (#[trigger] peers[i]).announcement.instance_id@ == instance_id
}

/// No two peers are the same instance.
pub open spec fn distinct_instances(peers: Seq<DiscoveredPeer>) -> bool {
    forall|i: int, j: int|
        0 <= i < j < peers.len() ==> (#[trigger] peers[i]).announcement.instance_id@ != (
        #[trigger] peers[j]).announcement.instance_id@
}

fn has_instance(peers: &Vec<DiscoveredPeer>, instance_id: &str) -> (r: bool)
    ensures
        r == knows_instance(peers@, instance_id@),
{
    let mut i: usize = 0;
    while i < peers.len()
        invariant
            i <= peers.len(),
            forall|k: int|
                0 <= k < i ==> (#[trigger] peers@[k]).announcement.instance_id@ != instance_id@,
        decreases peers.len() - i,
    {
        if text::str_equal(&peers[i].announcement.instance_id, instance_id) {
            return true;
        }
        i += 1;
    }
    false
}

/// Keeps an announcement that arrived during a discovery pass: it must fit what is wanted, come
/// from an IPv4 source, and be the first from its instance.
pub fn accept_announcement(
    peers: &mut Vec<DiscoveredPeer>,
    role: Option<PeerRole>,
    wanted_pin_hash: Option<&str>,
    announcement: PeerAnnouncement,
    source: Option<Ipv4Addr>,
) -> (r: bool)
    ensures
        r == ({
            &&& matches_request(
                announcement,
                role,
                match wanted_pin_hash {
                    Some(hash) => Some(hash@),
                    None => None,
                },
            )
            &&& source is Some
            &&& !knows_instance(old(peers)@, announcement.instance_id@)
        }),
        r ==> final(peers)@ == old(peers)@.push(
            DiscoveredPeer { announcement, address: source->0 },
        ),
        !r ==> final(peers)@ == old(peers)@,
        distinct_instances(old(peers)@) ==> distinct_instances(final(peers)@),
{
    if !announcement.fits(role, wanted_pin_hash) {
        return false;
    }
    let address = match source {
        Some(address) => address,
        None => return false,
    };
    if has_instance(peers, &announcement.instance_id) {
        return false;
    }
    peers.push(DiscoveredPeer { announcement, address });
    true
}

/// What a discovery pass does next.
#[derive(Clone, Copy, Debug, PartialEq, Eq, Structural)]
pub enum DiscoveryStep {
    /// Send the probes, then listen.
    ProbeAndListen,
    Listen,
    Done,
}

/// The schedule of one discovery pass, in milliseconds of a monotonic clock: it listens until its
/// deadline, and sends its probes at once and then a second after it last sent them.
#[derive(Clone, Copy, Debug, PartialEq, Eq, Structural)]
pub struct DiscoveryPass {
    pub deadline_ms: u64,
    pub next_probe_ms: u64,
}

impl DiscoveryPass {
    pub fn new(now_ms: u64, timeout_ms: u64) -> (r: Self)
        requires
            now_ms + timeout_ms <= u64::MAX,
        ensures
            r.deadline_ms == now_ms + timeout_ms,
            r.next_probe_ms == now_ms,
    {
        DiscoveryPass { deadline_ms: now_ms + timeout_ms, next_probe_ms: now_ms }
    }

    /// Decides one round of the pass.
    pub fn step(&mut self, now_ms: u64) -> (r: DiscoveryStep)
        requires
            now_ms + 1000 <= u64::MAX,
        ensures
            r == if now_ms >= old(self).deadline_ms {
                DiscoveryStep::Done
            } else if now_ms >= old(self).next_probe_ms {
                DiscoveryStep::ProbeAndListen
            } else {
                DiscoveryStep::Listen
            },
            final(self).deadline_ms == old(self).deadline_ms,
            final(self).next_probe_ms == if r == DiscoveryStep::ProbeAndListen {
                now_ms + 1000
            } else {
                old(self).next_probe_ms as int
            },
            now_ms < old(self).deadline_ms <==> r != DiscoveryStep::Done,
            r == DiscoveryStep::Listen ==> now_ms < final(self).next_probe_ms,
            r == DiscoveryStep::ProbeAndListen ==> final(self).next_probe_ms - now_ms == 1000,
    {
        if now_ms >= self.deadline_ms {
            DiscoveryStep::Done
        } else if now_ms >= self.next_probe_ms {
            self.next_probe_ms = now_ms + 1000;
            DiscoveryStep::ProbeAndListen
        } else {
            DiscoveryStep::Listen
        }
    }
}

/// A sequence with an element added at its end, unless it holds it already.
pub open spec fn push_new<T>(s: Seq<T>, x: T) -> Seq<T> {
    if s.contains(x) {
        s
    } else {
        s.push(x)
    }
}

fn push_new_address(addresses: &mut Vec<Ipv4Addr>, address: Ipv4Addr)
    ensures
        final(addresses)@ == push_new(old(addresses)@, address),
{
    let mut i: usize = 0;
    while i < addresses.len()
        invariant
            i <= addresses.len(),
            forall|k: int| 0 <= k < i ==> addresses@[k] != address,
        decreases addresses.len() - i,
    {
        if addresses[i] == address {
            assert(addresses@[i as int] == address);
            return;
        }
        i += 1;
    }
    addresses.push(address);
}

/// The address that reaches every host of a subnet.
pub open spec fn broadcast_of(ip: Ipv4Addr, netmask: Ipv4Addr) -> Ipv4Addr {
    Ipv4Addr { bits: ip.bits | !netmask.bits }
}

/// The broadcast addresses of the interfaces that reach other hosts, each once, in the order in
/// which they first come up.
pub open spec fn broadcast_targets(interfaces: Seq<InterfaceAddr>) -> Seq<Ipv4Addr>
    decreases interfaces.len(),
{
    if interfaces.len() == 0 {
        Seq::empty()
    } else {
        let before = broadcast_targets(interfaces.drop_last());
        match interfaces.last() {
            InterfaceAddr::V4 { ip, netmask } => if ip.loopback() || ip.octet0() == 169 {
                before
            } else {
                push_new(before, broadcast_of(ip, netmask))
            },
            InterfaceAddr::V6 => before,
        }
    }
}

/// Where to broadcast: the subnets of the interfaces, or the whole local network when no interface
/// has one.
pub fn broadcast_addresses(interfaces: &Vec<InterfaceAddr>) -> (r: Vec<Ipv4Addr>)
    ensures
        r@ == if broadcast_targets(interfaces@).len() == 0 {
            seq![Ipv4Addr { bits: u32::MAX }]
        } else {
            broadcast_targets(interfaces@)
        },
{
    let mut addresses: Vec<Ipv4Addr> = Vec::new();
    let mut i: usize = 0;
    while i < interfaces.len()
        invariant
            i <= interfaces.len(),
            addresses@ == broadcast_targets(interfaces@.take(i as int)),
        decreases interfaces.len() - i,
    {
        assert(interfaces@.take(i + 1).drop_last() == interfaces@.take(i as int));
        if let InterfaceAddr::V4 { ip, netmask } = interfaces[i] {
            if !ip.is_loopback() && ip.bits / 0x100_0000 != 169 {
                push_new_address(&mut addresses, Ipv4Addr { bits: ip.bits | !netmask.bits });
            }
        }
        i += 1;
    }
    assert(interfaces@.take(interfaces@.len() as int) == interfaces@);
    if addresses.len() == 0 {
        addresses.push(Ipv4Addr { bits: u32::MAX });
    }
    addresses
}

/// How many bits of a number are set.
pub open spec fn ones(n: nat) -> nat
    decreases n,
{
    if n == 0 {
        0
    } else {
        n % 2 + ones(n / 2)
    }
}

fn count_ones(n: u32) -> (r: u32)
    ensures
        r == ones(n as nat),
        r <= n,
    decreases n,
{
    if n == 0 {
        0
    } else {
        n % 2 + count_ones(n / 2)
    }
}

/// The mask by which a subnet is scanned: its own, but never one wider than 256 addresses.
pub open spec fn scan_mask(netmask: Ipv4Addr) -> u32 {
    if ones(netmask.bits as nat) < 24 {
        0xffff_ff00
    } else {
        netmask.bits
    }
}

/// The addresses from `from` up to but not including `to`, but for one's own, added in order to
/// those that are there already.
pub open spec fn scan(before: Seq<Ipv4Addr>, own: Ipv4Addr, from: int, to: int) -> Seq<Ipv4Addr>
    decreases to - from,
{
    if to <= from {
        before
    } else {
        let rest = scan(before, own, from, to - 1);
        let candidate = Ipv4Addr { bits: (to - 1) as u32 };
        if candidate == own {
            rest
        } else {
            push_new(rest, candidate)
        }
    }
}

/// The probe targets after the hosts of one subnet have been added.
pub open spec fn with_subnet(before: Seq<Ipv4Addr>, own: Ipv4Addr, netmask: Ipv4Addr) -> Seq<
    Ipv4Addr,
> {
    let mask = scan_mask(netmask);
    scan(before, own, (own.bits & mask) + 1, (own.bits | !mask) as int)
}

/// Adds every other host address of one's own subnet to the probe targets.
pub fn append_probe_subnet(addresses: &mut Vec<Ipv4Addr>, own_ip: Ipv4Addr, netmask: Ipv4Addr)
    ensures
        final(addresses)@ == with_subnet(old(addresses)@, own_ip, netmask),
{
    let mask: u32 = if count_ones(netmask.bits) < 24 {
        0xffff_ff00
    } else {
        netmask.bits
    };
    let network: u32 = own_ip.bits & mask;
    let broadcast: u32 = own_ip.bits | !mask;
    if broadcast <= network || broadcast - network <= 1 {
        return;
    }
    let mut candidate: u32 = network + 1;
    while candidate < broadcast
        invariant
            network + 1 <= candidate <= broadcast,
            addresses@ == scan(old(addresses)@, own_ip, network + 1, candidate as int),
        decreases broadcast - candidate,
    {
        let address = Ipv4Addr { bits: candidate };
        if address != own_ip {
            push_new_address(addresses, address);
        }
        candidate += 1;
    }
}

pub open spec fn lan_address(ip: Ipv4Addr) -> bool {
    ip.private() || ip.octet0() == 100 && 64 <= ip.octet1() <= 127
}

/// Whether an address belongs to a private network or to the shared range 100.64.0.0/10.
pub fn is_lan_address(ip: Ipv4Addr) -> (r: bool)
    ensures
        r == lan_address(ip),
{
    let first: u32 = ip.bits / 0x100_0000;
    let second: u32 = ip.bits / 0x1_0000 % 0x100;
    ip.is_private() || (first == 100 && 64 <= second && second <= 127)
}

/// Every host of every LAN subnet, in the order of the interfaces.
pub open spec fn probe_targets(interfaces: Seq<InterfaceAddr>) -> Seq<Ipv4Addr>
    decreases interfaces.len(),
{
    if interfaces.len() == 0 {
        Seq::empty()
    } else {
        let before = probe_targets(interfaces.drop_last());
        match interfaces.last() {
            InterfaceAddr::V4 { ip, netmask } => if ip.loopback() || ip.link_local()
                || !lan_address(ip) {
                before
            } else {
                with_subnet(before, ip, netmask)
            },
            InterfaceAddr::V6 => before,
        }
    }
}

proof fn lemma_scan_extends(before: Seq<Ipv4Addr>, own: Ipv4Addr, from: int, to: int)
    ensures
        before.len() <= scan(before, own, from, to).len(),
        scan(before, own, from, to).take(before.len() as int) == before,
    decreases to - from,
{
    if to > from {
        lemma_scan_extends(before, own, from, to - 1);
        let rest = scan(before, own, from, to - 1);
        assert(scan(before, own, from, to).take(rest.len() as int) == rest);
        assert(scan(before, own, from, to).take(before.len() as int) == rest.take(
            before.len() as int,
        ));
    } else {
        assert(before.take(before.len() as int) == before);
    }
}

/// What earlier interfaces contribute comes first, whatever later ones add.
proof fn lemma_probe_targets_extend(interfaces: Seq<InterfaceAddr>, k: int)
    requires
        0 <= k <= interfaces.len(),
    ensures
        ({
            let before = probe_targets(interfaces.take(k));
            let after = probe_targets(interfaces);
            before.len() <= after.len() && after.take(before.len() as int) == before
        }),
    decreases interfaces.len() - k,
{
    let before = probe_targets(interfaces.take(k));
    let after = probe_targets(interfaces);
    if k == interfaces.len() {
        assert(interfaces.take(k) == interfaces);
        assert(after.take(after.len() as int) == after);
    } else {
        lemma_probe_targets_extend(interfaces, k + 1);
        let next = interfaces.take(k + 1);
        assert(next.drop_last() == interfaces.take(k));
        let middle = probe_targets(next);
        match next.last() {
            InterfaceAddr::V4 { ip, netmask } => {
                let mask = scan_mask(netmask);
                lemma_scan_extends(
                    before,
                    ip,
                    (ip.bits & mask) + 1,
                    (ip.bits | !mask) as int,
                );
            },
            InterfaceAddr::V6 => {},
        }
        assert(before.take(before.len() as int) == before);
        assert(middle.take(before.len() as int) == before);
        assert(after.take(before.len() as int) == middle.take(before.len() as int)) by {
            assert(after.take(middle.len() as int).take(before.len() as int) == after.take(
                before.len() as int,
            ));
        }
    }
}

/// The hosts to probe directly: those of the LAN subnets that this machine is on, up to a fixed
/// number.
pub fn unicast_probe_addresses(interfaces: &Vec<InterfaceAddr>) -> (r: Vec<Ipv4Addr>)
    ensures
        r@ == probe_targets(interfaces@).take(
            if probe_targets(interfaces@).len() < MAX_PROBE_ADDRESSES {
                probe_targets(interfaces@).len() as int
            } else {
                MAX_PROBE_ADDRESSES as int
            },
        ),
{
    let mut addresses: Vec<Ipv4Addr> = Vec::new();
    let mut i: usize = 0;
    while i < interfaces.len() && addresses.len() < MAX_PROBE_ADDRESSES
        invariant
            i <= interfaces.len(),
            addresses@ == probe_targets(interfaces@.take(i as int)),
        decreases interfaces.len() - i,
    {
        assert(interfaces@.take(i + 1).drop_last() == interfaces@.take(i as int));
        if let InterfaceAddr::V4 { ip, netmask } = interfaces[i] {
            if !ip.is_loopback() && !ip.is_link_local() && is_lan_address(ip) {
                append_probe_subnet(&mut addresses, ip, netmask);
            }
        }
        i += 1;
    }
    proof {
        lemma_probe_targets_extend(interfaces@, i as int);
        assert(interfaces@.take(interfaces@.len() as int) == interfaces@);
    }
    let ghost all = probe_targets(interfaces@);
    let ghost kept = addresses@;
    if addresses.len() > MAX_PROBE_ADDRESSES {
        addresses.truncate(MAX_PROBE_ADDRESSES);
        assert(kept.take(MAX_PROBE_ADDRESSES as int) == all.take(MAX_PROBE_ADDRESSES as int)) by {
            assert(all.take(kept.len() as int).take(MAX_PROBE_ADDRESSES as int) == all.take(
                MAX_PROBE_ADDRESSES as int,
            ));
        }
    }
    assert(addresses@ == all.take(
        if all.len() < MAX_PROBE_ADDRESSES {
            all.len() as int
        } else {
            MAX_PROBE_ADDRESSES as int
        },
    ));
    addresses
}

/// Whether no address stands in a list twice.
pub open spec fn distinct_addresses(addresses: Seq<Ipv4Addr>) -> bool {
    forall|i: int, j: int| 0 <= i < j < addresses.len() ==> addresses[i] != addresses[j]
}

proof fn lemma_scan_members(before: Seq<Ipv4Addr>, own: Ipv4Addr, from: int, to: int)
    requires
        0 <= from,
        to <= 0x1_0000_0000,
    ensures
        distinct_addresses(before) ==> distinct_addresses(scan(before, own, from, to)),
        forall|i: int|
            before.len() <= i < scan(before, own, from, to).len() ==> {
                &&& from <= (#[trigger] scan(before, own, from, to)[i]).bits < to
                &&& scan(before, own, from, to)[i] != own
            },
        scan(before, own, from, to).len() <= before.len() + if to > from {
            to - from
        } else {
            0
        },
        forall|n: u32|
            from <= n < to && n != own.bits ==> #[trigger] scan(before, own, from, to).contains(
                Ipv4Addr { bits: n },
            ),
    decreases to - from,
{
    if to > from {
        lemma_scan_members(before, own, from, to - 1);
        lemma_scan_extends(before, own, from, to - 1);
        let rest = scan(before, own, from, to - 1);
        let all = scan(before, own, from, to);
        let candidate = Ipv4Addr { bits: (to - 1) as u32 };
        assert forall|n: u32| from <= n < to && n != own.bits implies #[trigger] all.contains(
            Ipv4Addr { bits: n },
        ) by {
            if n == to - 1 {
                if !rest.contains(candidate) {
                    assert(all[rest.len() as int] == candidate);
                }
            } else {
                assert(rest.contains(Ipv4Addr { bits: n }));
                let k = choose|k: int| 0 <= k < rest.len() && rest[k] == Ipv4Addr { bits: n };
                assert(all[k] == Ipv4Addr { bits: n });
            }
        }
    }
}

proof fn lemma_ones_of_run(length: nat)
    ensures
        pow2(length) >= 1,
        ones((pow2(length) - 1) as nat) == length,
    decreases length,
{
    lemma_pow2_pos(length);
    if length == 0 {
        lemma2_to64();
    } else {
        lemma_ones_of_run((length - 1) as nat);
        lemma_pow2_unfold(length);
        let n = (pow2(length) - 1) as nat;
        assert(n % 2 == 1 && n / 2 == pow2((length - 1) as nat) - 1);
    }
}

proof fn lemma_ones_shifted(n: nat, by: nat)
    ensures
        ones(n * pow2(by)) == ones(n),
    decreases by,
{
    if by == 0 {
        lemma2_to64();
    } else {
        lemma_ones_shifted(n, (by - 1) as nat);
        lemma_pow2_unfold(by);
        let m = n * pow2((by - 1) as nat);
        assert(n * pow2(by) == 2 * m) by (nonlinear_arith)
            requires
                pow2(by) == 2 * pow2((by - 1) as nat),
                m == n * pow2((by - 1) as nat),
        ;
        assert((2 * m) % 2 == 0 && (2 * m) / 2 == m);
        assert(m == 0 ==> ones(n * pow2(by)) == 0);
    }
}

/// A netmask that leaves `host_bits` low bits clear has all its other bits set.
proof fn lemma_netmask_ones(host_bits: nat)
    requires
        host_bits <= 32,
    ensures
        pow2(host_bits) <= 0x1_0000_0000,
        ones((0x1_0000_0000 - pow2(host_bits)) as nat) == 32 - host_bits,
{
    let run = (32 - host_bits) as nat;
    lemma2_to64();
    lemma_pow2_adds(run, host_bits);
    lemma_ones_of_run(run);
    lemma_ones_shifted((pow2(run) - 1) as nat, host_bits);
    assert(pow2(32) == 0x1_0000_0000);
    assert((pow2(run) - 1) * pow2(host_bits) == pow2(32) - pow2(host_bits)) by (nonlinear_arith)
        requires
            pow2(run) * pow2(host_bits) == pow2(32),
    ;
    assert(0 <= (pow2(run) - 1) * pow2(host_bits)) by (nonlinear_arith)
        requires
            pow2(run) >= 1,
    ;
}

/// Scanning a subnet with a proper mask adds at most 254 hosts, none of them twice, none of them
/// oneself, and all of them in one's own block of 256 addresses. Where the subnet is that block or
/// larger, every other host of the block is among the targets.
pub proof fn law_probe_scan_stays_in_the_local_block(
    before: Seq<Ipv4Addr>,
    own: Ipv4Addr,
    netmask: Ipv4Addr,
    host_bits: nat,
)
    requires
        distinct_addresses(before),
        host_bits <= 32,
        netmask.bits == 0x1_0000_0000 - pow2(host_bits),
    ensures
        ({
            let after = with_subnet(before, own, netmask);
            &&& after.take(before.len() as int) == before
            &&& distinct_addresses(after)
            &&& after.len() <= before.len() + 254
            &&& forall|i: int|
                before.len() <= i < after.len() ==> #[trigger] after[i] != own && after[i].bits / 256
                    == own.bits / 256
            &&& host_bits >= 8 ==> forall|n: u32|
                n / 256 == own.bits / 256 && 0 < n % 256 < 255 && n != own.bits ==>
                    #[trigger] after.contains(Ipv4Addr { bits: n })
        }),
{
    let mask = scan_mask(netmask);
    let bits = own.bits;
    let network = bits & mask;
    let broadcast = bits | !mask;
    lemma_netmask_ones(host_bits);
    lemma2_to64();
    assert(host_bits >= 8 ==> mask == 0xffff_ff00u32);
    assert(0xffff_ff00u32 <= mask) by {
        if host_bits < 8 {
            assert(host_bits == 0 || host_bits == 1 || host_bits == 2 || host_bits == 3 || host_bits
                == 4 || host_bits == 5 || host_bits == 6 || host_bits == 7);
        }
    }
    assert(0xffff_ff00u32 <= mask ==> (bits & mask) / 256 == bits / 256 && (bits | !mask) / 256
        == bits / 256) by (bit_vector);
    assert(mask == 0xffff_ff00u32 ==> (bits & mask) % 256 == 0 && (bits | !mask) % 256 == 255)
        by (bit_vector);
    lemma_scan_members(before, own, network + 1, broadcast as int);
    lemma_scan_extends(before, own, network + 1, broadcast as int);
    let after = with_subnet(before, own, netmask);
    assert forall|i: int| before.len() <= i < after.len() implies #[trigger] after[i] != own
        && after[i].bits / 256 == own.bits / 256 by {
        assert(network + 1 <= after[i].bits < broadcast);
    }
}

/// The octets of an address are its digits to the base 256, the most significant one first.
pub proof fn law_octets_are_most_significant_first(address: Ipv4Addr)
    ensures
        address.bits == address.octet0() * 0x100_0000 + address.octet1() * 0x1_0000
            + address.octet2() * 0x100 + address.octet3(),
        0 <= address.octet0() < 256,
        0 <= address.octet1() < 256,
        0 <= address.octet2() < 256,
        0 <= address.octet3() < 256,
{
}

/// The dotted notation is the four octets in decimal, most significant first, between dots.
pub proof fn law_dotted_notation_tells_the_address(address: Ipv4Addr)
    ensures
        ({
            let parts = text::split(address.dotted(), '.');
            &&& parts.len() == 4
            &&& forall|i: int|
                0 <= i < 4 ==> text::parse_unsigned(#[trigger] parts[i], 255) is Some
            &&& address.bits == text::parse_unsigned(parts[0], 255)->0 * 0x100_0000
                + text::parse_unsigned(parts[1], 255)->0 * 0x1_0000 + text::parse_unsigned(
                parts[2],
                255,
            )->0 * 0x100 + text::parse_unsigned(parts[3], 255)->0
        }),
{
    let a = text::dec(address.octet0() as nat);
    let b = text::dec(address.octet1() as nat);
    let c = text::dec(address.octet2() as nat);
    let d = text::dec(address.octet3() as nat);
    lemma_octet(address.octet0() as nat);
    lemma_octet(address.octet1() as nat);
    lemma_octet(address.octet2() as nat);
    lemma_octet(address.octet3() as nat);
    let ab = a + seq!['.'] + b;
    let abc = ab + seq!['.'] + c;
    reading::lemma_split_at(a, '.', b);
    reading::lemma_split_at(ab, '.', c);
    reading::lemma_split_at(abc, '.', d);
    assert(address.dotted() == abc + seq!['.'] + d);
    let parts = text::split(address.dotted(), '.');
    assert(parts == seq![a] + seq![b] + seq![c] + seq![d]);
    assert(parts[0] == a && parts[1] == b && parts[2] == c && parts[3] == d);
}

proof fn lemma_octet(n: nat)
    requires
        n < 256,
    ensures
        text::split(text::dec(n), '.') == seq![text::dec(n)],
        text::parse_unsigned(text::dec(n), 255) == Some(n),
{
    text::lemma_dec_digits(n);
    assert(lan::lacks(text::dec(n), '.')) by {
        assert forall|i: int| 0 <= i < text::dec(n).len() implies #[trigger] text::dec(n)[i]
            != '.' by {
            assert(text::is_digit(text::dec(n)[i]));
        }
    }
    reading::lemma_split_whole(text::dec(n), '.');
    text::law_decimal_round_trip(n, 255);
}

/// The ranges that addresses are told by, as the first and the last address of each.
pub proof fn law_address_ranges(address: Ipv4Addr)
    ensures
        address.loopback() <==> 0x7F00_0000 <= address.bits <= 0x7FFF_FFFF,
        address.link_local() <==> 0xA9FE_0000 <= address.bits <= 0xA9FE_FFFF,
        address.private() <==> (0x0A00_0000 <= address.bits <= 0x0AFF_FFFF || 0xAC10_0000
            <= address.bits <= 0xAC1F_FFFF || 0xC0A8_0000 <= address.bits <= 0xC0A8_FFFF),
        lan_address(address) <==> address.private() || 0x6440_0000 <= address.bits <= 0x647F_FFFF,
{
}

/// A PIN is four digits with nothing but white space around them.
pub proof fn law_four_digits_are_a_pin(pin: Seq<char>)
    ensures
        is_pin(pin) <==> text::trim(pin).len() == 4 && forall|i: int|
            0 <= i < 4 ==> '0' <= #[trigger] text::trim(pin)[i] <= '9',
{
    let digits = text::trim(pin);
    if digits.len() == 4 && (forall|i: int| 0 <= i < 4 ==> '0' <= #[trigger] digits[i] <= '9') {
        assert(text::all_digits(digits)) by {
            assert forall|i: int| 0 <= i < digits.len() implies text::is_digit(
                #[trigger] digits[i],
            ) by {
                assert('0' <= digits[i] <= '9');
            }
        }
    }
    if is_pin(pin) {
        assert forall|i: int| 0 <= i < 4 implies '0' <= #[trigger] digits[i] <= '9' by {
            assert(text::is_digit(digits[i]));
        }
    }
}

/// The value of a lower case hexadecimal digit.
pub open spec fn hex_value(c: char) -> int {
    if '0' <= c <= '9' {
        c as int - '0' as int
    } else {
        c as int - 'a' as int + 10
    }
}

/// The bytes can be read back from their hexadecimal digits, two for each, the high one first.
pub proof fn law_hexadecimal_is_read_back(bytes: Seq<u8>, i: int)
    requires
        0 <= i < bytes.len(),
    ensures
        hex(bytes).len() == 2 * bytes.len(),
        hex_value(hex(bytes)[2 * i]) * 16 + hex_value(hex(bytes)[2 * i + 1]) == bytes[i],
        '0' <= hex(bytes)[2 * i] <= '9' || 'a' <= hex(bytes)[2 * i] <= 'f',
        '0' <= hex(bytes)[2 * i + 1] <= '9' || 'a' <= hex(bytes)[2 * i + 1] <= 'f',
{
    let n = bytes[i] as int;
    assert(hex(bytes)[2 * i] == hex_digit(n / 16));
    assert(hex(bytes)[2 * i + 1] == hex_digit(n % 16)) by {
        assert((2 * i + 1) / 2 == i);
    }
}

/// A frame is scaled exactly where it is larger than its limit on one side. A limit too small for
/// any even frame scales nothing.
pub proof fn law_only_larger_frames_are_scaled(source: (u32, u32), limit: (u32, u32))
    requires
        source.0 > 0,
        source.1 > 0,
        limit.0 >= 2,
        limit.1 >= 2,
    ensures
        fitted_within(source, limit) is Some <==> source.0 > limit.0 || source.1 > limit.1,
{
    if source.0 > limit.0 || source.1 > limit.1 {
        lemma_scaled_bounds(source, limit);
    }
}

/// A probe that asks for nothing is answered by everyone. What it asks for decides by itself: a peer
/// of another role never answers, nor one with another PIN or with none where a PIN is asked for.
pub proof fn law_probes_ask_for_what_they_carry(
    announcement: PeerAnnouncement,
    role: PeerRole,
    pin_hash: Seq<char>,
)
    ensures
        matches_request(announcement, None, None),
        matches_request(announcement, Some(role), None) <==> announcement.role == role,
        matches_request(announcement, None, Some(pin_hash)) <==> announcement.pin_hash is Some
            && announcement.pin_hash->0@ == pin_hash,
        matches_request(announcement, Some(role), Some(pin_hash)) <==> matches_request(
            announcement,
            Some(role),
            None,
        ) && matches_request(announcement, None, Some(pin_hash)),
{
}

/// A broadcast address has the network part of its interface and only ones behind it.
pub proof fn law_broadcast_keeps_the_network(ip: Ipv4Addr, netmask: Ipv4Addr)
    ensures
        broadcast_of(ip, netmask).bits & netmask.bits == ip.bits & netmask.bits,
        broadcast_of(ip, netmask).bits | netmask.bits == u32::MAX,
{
    let (a, m) = (ip.bits, netmask.bits);
    assert((a | !m) & m == a & m) by (bit_vector);
    assert((a | !m) | m == 0xffff_ffffu32) by (bit_vector);
}

/// Every interface that reaches other hosts is broadcast on, no address twice, and nothing else is:
/// neither a loopback interface nor one without a real address.
pub proof fn law_every_network_is_broadcast_on(interfaces: Seq<InterfaceAddr>)
    ensures
        distinct_addresses(broadcast_targets(interfaces)),
        forall|i: int|
            0 <= i < interfaces.len() && ((#[trigger] interfaces[i]) matches InterfaceAddr::V4 {
                ip,
                netmask,
            } && ip.octet0() != 127 && ip.octet0() != 169) ==> broadcast_targets(
                interfaces,
            ).contains(broadcast_of(interfaces[i]->ip, interfaces[i]->netmask)),
        forall|k: int|
            0 <= k < broadcast_targets(interfaces).len() ==> exists|i: int|
                0 <= i < interfaces.len() && ((#[trigger] interfaces[i]) matches InterfaceAddr::V4 {
                    ip,
                    netmask,
                } && ip.octet0() != 127 && ip.octet0() != 169 && broadcast_of(ip, netmask)
                    == #[trigger] broadcast_targets(interfaces)[k]),
    decreases interfaces.len(),
{
    if interfaces.len() > 0 {
        let rest = interfaces.drop_last();
        let before = broadcast_targets(rest);
        let all = broadcast_targets(interfaces);
        let last = interfaces.len() - 1;
        law_every_network_is_broadcast_on(rest);
        assert forall|i: int|
            0 <= i < interfaces.len() && ((#[trigger] interfaces[i]) matches InterfaceAddr::V4 {
                ip,
                netmask,
            } && ip.octet0() != 127 && ip.octet0() != 169) implies all.contains(
            broadcast_of(interfaces[i]->ip, interfaces[i]->netmask),
        ) by {
            let wanted = broadcast_of(interfaces[i]->ip, interfaces[i]->netmask);
            if i < last {
                assert(rest[i] == interfaces[i]);
                let k = choose|k: int| 0 <= k < before.len() && before[k] == wanted;
                assert(all[k] == wanted);
            } else if !before.contains(wanted) {
                assert(all[before.len() as int] == wanted);
            }
        }
        assert forall|k: int| 0 <= k < all.len() implies exists|i: int|
            0 <= i < interfaces.len() && ((#[trigger] interfaces[i]) matches InterfaceAddr::V4 {
                ip,
                netmask,
            } && ip.octet0() != 127 && ip.octet0() != 169 && broadcast_of(ip, netmask)
                == #[trigger] all[k]) by {
            if k < before.len() {
                assert(all[k] == before[k]);
                let i = choose|i: int|
                    0 <= i < rest.len() && ((#[trigger] rest[i]) matches InterfaceAddr::V4 {
                        ip,
                        netmask,
                    } && ip.octet0() != 127 && ip.octet0() != 169 && broadcast_of(ip, netmask)
                        == before[k]);
                assert(interfaces[i] == rest[i]);
            } else {
                assert(interfaces[last] == interfaces.last());
            }
        }
    }
}

/// Every other host of the block of 256 addresses around each LAN interface is probed where its
/// network holds that block: whatever the interfaces after it add, what one contributes stays.
pub proof fn law_every_lan_host_is_probed(
    interfaces: Seq<InterfaceAddr>,
    i: int,
    host_bits: nat,
    n: u32,
)
    requires
        0 <= i < interfaces.len(),
        interfaces[i] is V4,
        lan_address(interfaces[i]->ip),
        8 <= host_bits <= 32,
        interfaces[i]->netmask.bits == 0x1_0000_0000 - pow2(host_bits),
        n / 256 == interfaces[i]->ip.bits / 256,
        0 < n % 256 < 255,
        n != interfaces[i]->ip.bits,
    ensures
        probe_targets(interfaces).contains(Ipv4Addr { bits: n }),
{
    let upto = interfaces.take(i + 1);
    let before = probe_targets(interfaces.take(i));
    let (ip, netmask) = (interfaces[i]->ip, interfaces[i]->netmask);
    assert(upto.drop_last() == interfaces.take(i));
    assert(upto.last() == interfaces[i]);
    lemma_probe_targets_are_distinct(interfaces.take(i));
    law_probe_scan_stays_in_the_local_block(before, ip, netmask, host_bits);
    let after = with_subnet(before, ip, netmask);
    let host = Ipv4Addr { bits: n };
    assert(after.contains(host));
    assert(probe_targets(upto) == after);
    lemma_probe_targets_extend(interfaces, i + 1);
    let k = choose|k: int| 0 <= k < after.len() && after[k] == host;
    let all = probe_targets(interfaces);
    assert(all.take(after.len() as int)[k] == all[k]);
}

proof fn lemma_probe_targets_are_distinct(interfaces: Seq<InterfaceAddr>)
    ensures
        distinct_addresses(probe_targets(interfaces)),
    decreases interfaces.len(),
{
    if interfaces.len() > 0 {
        let rest = interfaces.drop_last();
        lemma_probe_targets_are_distinct(rest);
        if let InterfaceAddr::V4 { ip, netmask } = interfaces.last() {
            let mask = scan_mask(netmask);
            lemma_scan_members(
                probe_targets(rest),
                ip,
                (ip.bits & mask) + 1,
                (ip.bits | !mask) as int,
            );
        }
    }
}

} // verus!
