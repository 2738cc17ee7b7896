//! Sending to the receivers of the local network: whom to send to, which display each of them
//! gets, and the life of a sending session.
use crate::discovery::{self, DiscoveredPeer, DiscoveryError, DisplayInfo, PeerAnnouncement, PeerRole};
use crate::elements::{self, PipelineError};
use crate::monitors::{self, DisplayMode, DisplayMonitor, MAX_BUNDLED_VIRTUAL_DISPLAYS};
use crate::order::{self, Ranked};
use crate::pipeline::{self, Machine, SendArgs};
use crate::reading;
use crate::text;
#[allow(unused_imports)]
use vstd::multiset::*;
use vstd::prelude::*;
#[allow(unused_imports)]
use vstd::relations::*;

verus! {

/// How long a sender keeps streaming to receivers that discovery no longer finds, in
/// milliseconds.
pub const RECEIVER_LOSS_GRACE_MS: u64 = 75_000;

/// How long a sender searches for receivers in one pass.
pub const RECEIVER_SEARCH_MS: u64 = 5_000;

/// How long a sender waits after a pass that missed the receivers it still streams to.
pub const REDISCOVERY_DELAY_MS: u64 = 1_000;

/// How long a sender waits for one command between two passes.
pub const COMMAND_WAIT_MS: u64 = 100;

/// How often it does so before the next pass.
pub const COMMAND_WAITS_PER_PASS: u32 = 50;

/// Consecutive failed sender starts before the tray stops claiming the session is fine.
pub const PREPARE_FAILURES_BEFORE_ALERT: u32 = 3;

/// How often a peer announces itself, in milliseconds.
pub const ANNOUNCE_INTERVAL_MS: u64 = 1000;

/// Why a sender cannot send.
#[derive(Debug)]
pub enum LanError {
    NoReceivers,
    DisplayCount { required: usize, available: usize },
    NotCaptureReady,
    NoPipelines,
    Pipeline { host: String, error: PipelineError },
}

pub open spec fn display_count_text(required: nat, available: nat) -> Seq<char> {
    "bundled virtual displays are not capture-ready: required "@ + text::dec(required)
        + ", available "@ + text::dec(available) + "; refusing physical-display fallback"@
}

pub open spec fn pipeline_failure_text(host: Seq<char>, problem: Seq<char>) -> Seq<char> {
    "failed to build sender video pipeline for "@ + host + ": "@ + problem
}

impl LanError {
    pub open spec fn text(self) -> Seq<char> {
        match self {
            LanError::NoReceivers =>
                "no receivers discovered with matching PIN; start receiver mode on another device or set the same four-digit PIN"@,
            LanError::DisplayCount { required, available } => display_count_text(
                required as nat,
                available as nat,
            ),
            LanError::NotCaptureReady => "bundled VDD was not capture-ready before sender start"@,
            LanError::NoPipelines => "no receiver video pipelines were prepared"@,
            LanError::Pipeline { host, error } => pipeline_failure_text(host@, error.text()),
        }
    }

    /// The message that a user reads.
    pub fn message(&self) -> (r: String)
        ensures
            r@ == self.text(),
    {
        match self {
            LanError::NoReceivers =>
                "no receivers discovered with matching PIN; start receiver mode on another device or set the same four-digit PIN".to_owned(),
            LanError::DisplayCount { required, available } => {
                let mut out = "bundled virtual displays are not capture-ready: required ".to_owned();
                text::push_dec(&mut out, *required as u64);
                out.push_str(", available ");
                text::push_dec(&mut out, *available as u64);
                out.push_str("; refusing physical-display fallback");
                out
            },
            LanError::NotCaptureReady =>
                "bundled VDD was not capture-ready before sender start".to_owned(),
            LanError::NoPipelines => "no receiver video pipelines were prepared".to_owned(),
            LanError::Pipeline { host, error } => {
                let mut out = "failed to build sender video pipeline for ".to_owned();
                out.push_str(host);
                out.push_str(": ");
                out.push_str(&error.message());
                out
            },
        }
    }
}

/// Whether a sender has to find its receivers by discovery.
pub fn wants_auto_host(host: &str) -> (r: bool)
    ensures
        r == pipeline::unresolved_host(host@),
{
    pipeline::is_auto_host(host)
}

/// What a peer is ordered by: instance, then address, then port.
pub struct PeerRank {
    pub instance_id: Seq<char>,
    pub address: u32,
    pub port: u16,
}

impl Ranked for DiscoveredPeer {
    type Key = PeerRank;

    open spec fn rank(self) -> PeerRank {
        PeerRank {
            instance_id: self.announcement.instance_id@,
            address: self.address.bits,
            port: self.announcement.stream_port,
        }
    }

    open spec fn rank_le(a: PeerRank, b: PeerRank) -> bool {
        if a.instance_id != b.instance_id {
            order::text_le(a.instance_id, b.instance_id)
        } else if a.address != b.address {
            a.address < b.address
        } else {
            a.port <= b.port
        }
    }

    proof fn rank_order_is_total() {
        order::law_text_order_is_total();
        let le = |a: Seq<char>, b: Seq<char>| order::text_le(a, b);
        let rank_le = |a: PeerRank, b: PeerRank| Self::rank_le(a, b);
        assert forall|a: PeerRank, b: PeerRank| #[trigger]
            rank_le(a, b) && #[trigger] rank_le(b, a) implies a == b by {
            if a.instance_id != b.instance_id {
                assert(le(a.instance_id, b.instance_id) && le(b.instance_id, a.instance_id));
            }
        }
        assert forall|a: PeerRank, b: PeerRank, c: PeerRank| #[trigger]
            rank_le(a, b) && #[trigger] rank_le(b, c) implies rank_le(a, c) by {
            if a.instance_id != b.instance_id && b.instance_id != c.instance_id {
                assert(le(a.instance_id, b.instance_id) && le(b.instance_id, c.instance_id));
                assert(le(a.instance_id, c.instance_id));
                if a.instance_id == c.instance_id {
                    assert(le(b.instance_id, a.instance_id));
                }
            }
        }
        assert forall|a: PeerRank, b: PeerRank| #[trigger]
            rank_le(a, b) || #[trigger] rank_le(b, a) by {
            assert(le(a.instance_id, b.instance_id) || le(b.instance_id, a.instance_id));
        }
    }

    fn precedes(&self, other: &Self) -> (r: bool) {
        let own = text::chars_of(&self.announcement.instance_id);
        let others = text::chars_of(&other.announcement.instance_id);
        if !text::chars_equal(&own, &others) {
            !order::text_at_most(&others, &own)
        } else if self.address.bits != other.address.bits {
            self.address.bits < other.address.bits
        } else {
            self.announcement.stream_port < other.announcement.stream_port
        }
    }
}

/// Whether two peers receive at the same endpoint.
pub open spec fn same_endpoint(a: DiscoveredPeer, b: DiscoveredPeer) -> bool {
    a.address.bits == b.address.bits && a.announcement.stream_port == b.announcement.stream_port
}

pub open spec fn has_endpoint(peers: Seq<DiscoveredPeer>, peer: DiscoveredPeer) -> bool {
    exists|i: int| 0 <= i < peers.len() && same_endpoint(#[trigger] peers[i], peer)
}

/// The first peer of each endpoint, in order.
pub open spec fn one_per_endpoint(peers: Seq<DiscoveredPeer>) -> Seq<DiscoveredPeer>
    decreases peers.len(),
{
    if peers.len() == 0 {
        Seq::empty()
    } else {
        let before = one_per_endpoint(peers.drop_last());
        if has_endpoint(before, peers.last()) {
            before
        } else {
            before.push(peers.last())
        }
    }
}

fn knows_endpoint(peers: &Vec<DiscoveredPeer>, peer: &DiscoveredPeer) -> (r: bool)
    ensures
        r == has_endpoint(peers@, *peer),
{
    let mut i: usize = 0;
    while i < peers.len()
        invariant
            i <= peers.len(),
            forall|k: int| 0 <= k < i ==> !same_endpoint(#[trigger] peers@[k], *peer),
        decreases peers.len() - i,
    {
        if peers[i].address.bits == peer.address.bits && peers[i].announcement.stream_port
            == peer.announcement.stream_port {
            assert(same_endpoint(peers@[i as int], *peer));
            return true;
        }
        i += 1;
    }
    false
}

/// Discovery arrival order changes from pass to pass. Keep receiver-to-display assignment stable
/// and collapse stale duplicate announcements that point at the same RTP endpoint; otherwise the
/// sender rebuilds its pipelines and can alternate two desktop streams on one UDP socket.
pub fn stable_unique_receivers(receivers: Vec<DiscoveredPeer>) -> (r: Vec<DiscoveredPeer>)
    ensures
        r@ == one_per_endpoint(order::sorted(receivers@)),
{
    let sorted = order::stable_sort(receivers);
    let mut out: Vec<DiscoveredPeer> = Vec::new();
    let mut i: usize = 0;
    assert(sorted@.take(0) == Seq::<DiscoveredPeer>::empty());
    while i < sorted.len()
        invariant
            i <= sorted.len(),
            out@ == one_per_endpoint(sorted@.take(i as int)),
        decreases sorted.len() - i,
    {
        assert(sorted@.take(i + 1).drop_last() == sorted@.take(i as int));
        if !knows_endpoint(&out, &sorted[i]) {
            out.push(sorted[i].clone());
        }
        i += 1;
    }
    assert(sorted@.take(sorted@.len() as int) == sorted@);
    out
}

/// No two of the receivers that are kept share an endpoint, and every endpoint that was found is
/// kept.
pub proof fn law_one_receiver_per_endpoint(peers: Seq<DiscoveredPeer>)
    ensures
        forall|i: int, j: int|
            0 <= i < j < one_per_endpoint(peers).len() ==> !same_endpoint(
                #[trigger] one_per_endpoint(peers)[i],
                #[trigger] one_per_endpoint(peers)[j],
            ),
        forall|i: int|
            0 <= i < peers.len() ==> has_endpoint(one_per_endpoint(peers), #[trigger] peers[i]),
        one_per_endpoint(peers).len() <= peers.len(),
    decreases peers.len(),
{
    if peers.len() > 0 {
        let rest = peers.drop_last();
        law_one_receiver_per_endpoint(rest);
        let before = one_per_endpoint(rest);
        let all = one_per_endpoint(peers);
        assert forall|i: int| 0 <= i < peers.len() implies has_endpoint(
            all,
            #[trigger] peers[i],
        ) by {
            if i < rest.len() {
                assert(rest[i] == peers[i]);
                let k = choose|k: int|
                    0 <= k < before.len() && same_endpoint(#[trigger] before[k], peers[i]);
                assert(all[k] == before[k]);
            } else if !has_endpoint(before, peers.last()) {
                assert(all[before.len() as int] == peers.last());
                assert(same_endpoint(all[before.len() as int], peers[i]));
            }
        }
    }
}

proof fn lemma_unique_depends_on_ranks(a: Seq<DiscoveredPeer>, b: Seq<DiscoveredPeer>)
    requires
        order::ranks(a) == order::ranks(b),
    ensures
        order::ranks(one_per_endpoint(a)) == order::ranks(one_per_endpoint(b)),
    decreases a.len(),
{
    assert(a.len() == order::ranks(a).len() && b.len() == order::ranks(b).len());
    if a.len() > 0 {
        let (ra, rb) = (a.drop_last(), b.drop_last());
        assert forall|i: int| 0 <= i < a.len() implies (#[trigger] a[i]).rank() == b[i].rank() by {
            assert(order::ranks(a)[i] == a[i].rank());
            assert(order::ranks(b)[i] == b[i].rank());
        }
        assert(order::ranks(ra) == order::ranks(rb));
        lemma_unique_depends_on_ranks(ra, rb);
        let (ua, ub) = (one_per_endpoint(ra), one_per_endpoint(rb));
        assert(ua.len() == order::ranks(ua).len() && ub.len() == order::ranks(ub).len());
        assert forall|i: int| 0 <= i < ua.len() implies (#[trigger] ua[i]).rank()
            == ub[i].rank() by {
            assert(order::ranks(ua)[i] == ua[i].rank());
            assert(order::ranks(ub)[i] == ub[i].rank());
        }
        assert(a.last() == a[a.len() - 1] && b.last() == b[b.len() - 1]);
        assert(has_endpoint(ua, a.last()) == has_endpoint(ub, b.last())) by {
            if has_endpoint(ua, a.last()) {
                let k = choose|k: int|
                    0 <= k < ua.len() && same_endpoint(#[trigger] ua[k], a.last());
                assert(ua[k].rank() == ub[k].rank());
                assert(same_endpoint(ub[k], b.last()));
            }
            if has_endpoint(ub, b.last()) {
                let k = choose|k: int|
                    0 <= k < ub.len() && same_endpoint(#[trigger] ub[k], b.last());
                assert(ua[k].rank() == ub[k].rank());
                assert(same_endpoint(ua[k], a.last()));
            }
        }
        assert(order::ranks(one_per_endpoint(a)) == order::ranks(one_per_endpoint(b)));
    } else {
        assert(order::ranks(one_per_endpoint(a)) == order::ranks(one_per_endpoint(b)));
    }
}

/// Two discovery passes that found the same peers, in whatever order, give the same receivers in
/// the same order.
pub proof fn law_receivers_ignore_arrival_order(
    first: Seq<DiscoveredPeer>,
    second: Seq<DiscoveredPeer>,
)
    requires
        order::ranks(first).to_multiset() == order::ranks(second).to_multiset(),
    ensures
        order::ranks(one_per_endpoint(order::sorted(first))) == order::ranks(
            one_per_endpoint(order::sorted(second)),
        ),
{
    order::law_sorting_ignores_arrival_order(first, second);
    lemma_unique_depends_on_ranks(order::sorted(first), order::sorted(second));
}

/// One receiver of a sender.
#[derive(Debug)]
pub struct ReceiverTarget {
    pub host: String,
    pub display: Option<DisplayInfo>,
}

/// A sender that knows its receivers.
#[derive(Debug)]
pub struct ResolvedSender {
    pub args: SendArgs,
    pub target_display: Option<DisplayInfo>,
    pub receivers: Vec<ReceiverTarget>,
}

/// A receiver by what it says.
pub open spec fn target_texts(receivers: Seq<ReceiverTarget>) -> Seq<
    (Seq<char>, Option<DisplayInfo>),
> {
    Seq::new(receivers.len(), |i: int| (receivers[i].host@, receivers[i].display))
}

/// The part of the receiver key that one receiver contributes.
pub open spec fn receiver_key_part(host: Seq<char>, display: Option<DisplayInfo>) -> Seq<char> {
    match display {
        Some(display) => host + "@"@ + text::dec(display.width as nat) + "x"@ + text::dec(
            display.height as nat,
        ) + "@"@ + text::dec(
            (match display.refresh_hz {
                Some(hz) => hz,
                None => 0,
            }) as nat,
        ),
        None => host + "@unknown"@,
    }
}

/// What identifies a set of receivers, with the display that each of them announced.
pub open spec fn set_key(receivers: Seq<(Seq<char>, Option<DisplayInfo>)>) -> Seq<char> {
    text::join(
        Seq::new(receivers.len(), |i: int| receiver_key_part(receivers[i].0, receivers[i].1)),
        "|"@,
    )
}

/// Names a set of receivers, so that a change of a receiver or of its display shows.
pub fn receiver_set_key(receivers: &Vec<ReceiverTarget>) -> (r: String)
    ensures
        r@ == set_key(target_texts(receivers@)),
{
    let mut parts: Vec<String> = Vec::new();
    let mut i: usize = 0;
    while i < receivers.len()
        invariant
            i <= receivers.len(),
            parts@.len() == i,
            forall|k: int|
                0 <= k < i ==> (#[trigger] parts@[k])@ == receiver_key_part(
                    receivers@[k].host@,
                    receivers@[k].display,
                ),
        decreases receivers.len() - i,
    {
        let mut part = receivers[i].host.clone();
        match receivers[i].display {
            Some(display) => {
                part.push_str("@");
                text::push_dec(&mut part, display.width as u64);
                part.push_str("x");
                text::push_dec(&mut part, display.height as u64);
                part.push_str("@");
                let hz: u32 = match display.refresh_hz {
                    Some(hz) => hz,
                    None => 0,
                };
                text::push_dec(&mut part, hz as u64);
            },
            None => {
                part.push_str("@unknown");
            },
        }
        parts.push(part);
        i += 1;
    }
    assert(text::texts(parts@) == Seq::new(
        target_texts(receivers@).len(),
        |i: int| receiver_key_part(target_texts(receivers@)[i].0, target_texts(receivers@)[i].1),
    ));
    text::join_strings(&parts, "|")
}

/// Whether a character stands nowhere in a text.
pub open spec fn lacks(s: Seq<char>, c: char) -> bool {
    forall|i: int| 0 <= i < s.len() ==> #[trigger] s[i] != c
}

/// Two texts that are equal are equal before and behind the first separator.
proof fn lemma_cut_at_first(
    head: Seq<char>,
    tail: Seq<char>,
    other_head: Seq<char>,
    other_tail: Seq<char>,
    c: char,
)
    requires
        head + seq![c] + tail == other_head + seq![c] + other_tail,
        lacks(head, c),
        lacks(other_head, c),
    ensures
        head == other_head,
        tail == other_tail,
{
    let s = head + seq![c] + tail;
    let t = other_head + seq![c] + other_tail;
    if head.len() < other_head.len() {
        assert(s[head.len() as int] == c);
        assert(t[head.len() as int] == other_head[head.len() as int]);
    }
    if other_head.len() < head.len() {
        assert(t[other_head.len() as int] == c);
        assert(s[other_head.len() as int] == head[other_head.len() as int]);
    }
    assert(head == s.take(head.len() as int));
    assert(other_head == t.take(head.len() as int));
    assert(tail == s.skip(head.len() as int + 1));
    assert(other_tail == t.skip(head.len() as int + 1));
}

/// Two texts that are equal are equal before and behind the last separator.
proof fn lemma_cut_at_last(
    head: Seq<char>,
    tail: Seq<char>,
    other_head: Seq<char>,
    other_tail: Seq<char>,
    c: char,
)
    requires
        head + seq![c] + tail == other_head + seq![c] + other_tail,
        lacks(tail, c),
        lacks(other_tail, c),
    ensures
        head == other_head,
        tail == other_tail,
{
    let s = head + seq![c] + tail;
    let t = other_head + seq![c] + other_tail;
    assert(s.len() == head.len() + 1 + tail.len());
    assert(t.len() == other_head.len() + 1 + other_tail.len());
    if head.len() < other_head.len() {
        assert(t[other_head.len() as int] == c);
        assert(s[other_head.len() as int] == tail[other_head.len() - head.len() - 1]);
    }
    if other_head.len() < head.len() {
        assert(s[head.len() as int] == c);
        assert(t[head.len() as int] == other_tail[head.len() - other_head.len() - 1]);
    }
    assert(head == s.take(head.len() as int));
    assert(other_head == t.take(head.len() as int));
    assert(tail == s.skip(head.len() as int + 1));
    assert(other_tail == t.skip(head.len() as int + 1));
}

proof fn lemma_digits_lack(n: nat, c: char)
    requires
        !text::is_digit(c),
    ensures
        lacks(text::dec(n), c),
        text::dec(n).len() >= 1,
        text::is_digit(text::dec(n)[0]),
{
    text::lemma_dec_digits(n);
    assert forall|i: int| 0 <= i < text::dec(n).len() implies #[trigger] text::dec(n)[i] != c by {
        assert(text::is_digit(text::dec(n)[i]));
    }
    assert(text::is_digit(text::dec(n)[0]));
}

proof fn lemma_same_number(m: nat, n: nat)
    requires
        text::dec(m) == text::dec(n),
    ensures
        m == n,
{
    text::lemma_dec_digits(m);
    text::lemma_dec_digits(n);
}

/// The refresh rate that counts for a display: zero where none is announced.
pub open spec fn key_rate(display: DisplayInfo) -> nat {
    (match display.refresh_hz {
        Some(hz) => hz,
        None => 0,
    }) as nat
}

/// Whether two receivers are the same endpoint with the same announced mode. What they can decode
/// plays no part.
pub open spec fn same_target(
    a: (Seq<char>, Option<DisplayInfo>),
    b: (Seq<char>, Option<DisplayInfo>),
) -> bool {
    &&& a.0 == b.0
    &&& match (a.1, b.1) {
        (None, None) => true,
        (Some(one), Some(other)) => one.width == other.width && one.height == other.height
            && key_rate(one) == key_rate(other),
        _ => false,
    }
}

/// What one receiver contributes behind its host.
spec fn mode_part(display: Option<DisplayInfo>) -> Seq<char> {
    match display {
        Some(display) => text::dec(display.width as nat) + seq!['x'] + (text::dec(
            display.height as nat,
        ) + seq!['@'] + text::dec(key_rate(display))),
        None => "unknown"@,
    }
}

proof fn lemma_part_is_host_and_mode(host: Seq<char>, display: Option<DisplayInfo>)
    ensures
        receiver_key_part(host, display) == host + seq!['@'] + mode_part(display),
        lacks(mode_part(display), '|'),
{
    reveal_strlit("@");
    reveal_strlit("x");
    reveal_strlit("unknown");
    reveal_strlit("@unknown");
    match display {
        Some(shown) => {
            let (w, h) = (text::dec(shown.width as nat), text::dec(shown.height as nat));
            let hz = text::dec(key_rate(shown));
            lemma_digits_lack(shown.width as nat, '|');
            lemma_digits_lack(shown.height as nat, '|');
            lemma_digits_lack(key_rate(shown), '|');
            assert(host + "@"@ + w + "x"@ + h + "@"@ + hz == host + seq!['@'] + (w + seq!['x'] + (h
                + seq!['@'] + hz)));
            let mode = mode_part(display);
            assert forall|i: int| 0 <= i < mode.len() implies #[trigger] mode[i] != '|' by {
                if i < w.len() {
                    assert(mode[i] == w[i]);
                } else if i == w.len() {
                    assert(mode[i] == 'x');
                } else if i < w.len() + 1 + h.len() {
                    assert(mode[i] == h[i - w.len() - 1]);
                } else if i == w.len() + 1 + h.len() {
                    assert(mode[i] == '@');
                } else {
                    assert(mode[i] == hz[i - w.len() - h.len() - 2]);
                }
            }
        },
        None => {
            assert(host + "@unknown"@ == host + seq!['@'] + "unknown"@);
        },
    }
}

proof fn lemma_modes_tell_apart(a: Option<DisplayInfo>, b: Option<DisplayInfo>)
    requires
        mode_part(a) == mode_part(b),
    ensures
        same_target((Seq::empty(), a), (Seq::empty(), b)),
{
    reveal_strlit("unknown");
    match (a, b) {
        (Some(one), Some(other)) => {
            lemma_digits_lack(one.width as nat, 'x');
            lemma_digits_lack(other.width as nat, 'x');
            lemma_digits_lack(one.height as nat, '@');
            lemma_digits_lack(other.height as nat, '@');
            let rest = text::dec(one.height as nat) + seq!['@'] + text::dec(key_rate(one));
            let other_rest = text::dec(other.height as nat) + seq!['@'] + text::dec(
                key_rate(other),
            );
            lemma_cut_at_first(
                text::dec(one.width as nat),
                rest,
                text::dec(other.width as nat),
                other_rest,
                'x',
            );
            lemma_cut_at_first(
                text::dec(one.height as nat),
                text::dec(key_rate(one)),
                text::dec(other.height as nat),
                text::dec(key_rate(other)),
                '@',
            );
            lemma_same_number(one.width as nat, other.width as nat);
            lemma_same_number(one.height as nat, other.height as nat);
            lemma_same_number(key_rate(one), key_rate(other));
        },
        (Some(one), None) => {
            lemma_digits_lack(one.width as nat, 'x');
            assert(mode_part(a)[0] == text::dec(one.width as nat)[0]);
            assert("unknown"@[0] == 'u');
        },
        (None, Some(other)) => {
            lemma_digits_lack(other.width as nat, 'x');
            assert(mode_part(b)[0] == text::dec(other.width as nat)[0]);
            assert("unknown"@[0] == 'u');
        },
        (None, None) => {},
    }
}

/// Two receivers whose hosts hold no separator contribute the same exactly where they are the same
/// endpoint with the same mode.
proof fn lemma_parts_tell_apart(
    a: (Seq<char>, Option<DisplayInfo>),
    b: (Seq<char>, Option<DisplayInfo>),
)
    requires
        lacks(a.0, '@'),
        lacks(b.0, '@'),
    ensures
        receiver_key_part(a.0, a.1) == receiver_key_part(b.0, b.1) <==> same_target(a, b),
{
    lemma_part_is_host_and_mode(a.0, a.1);
    lemma_part_is_host_and_mode(b.0, b.1);
    if receiver_key_part(a.0, a.1) == receiver_key_part(b.0, b.1) {
        lemma_cut_at_first(a.0, mode_part(a.1), b.0, mode_part(b.1), '@');
        lemma_modes_tell_apart(a.1, b.1);
    }
}

spec fn key_parts(receivers: Seq<(Seq<char>, Option<DisplayInfo>)>) -> Seq<Seq<char>> {
    Seq::new(receivers.len(), |i: int| receiver_key_part(receivers[i].0, receivers[i].1))
}

/// Joined texts that hold no separator and are not empty can be told apart again.
proof fn lemma_joined_tell_apart(a: Seq<Seq<char>>, b: Seq<Seq<char>>)
    requires
        forall|i: int| 0 <= i < a.len() ==> lacks(#[trigger] a[i], '|') && a[i].len() > 0,
        forall|i: int| 0 <= i < b.len() ==> lacks(#[trigger] b[i], '|') && b[i].len() > 0,
        text::join(a, "|"@) == text::join(b, "|"@),
    ensures
        a == b,
    decreases a.len(),
{
    reveal_strlit("|");
    assert("|"@ == seq!['|']);
    lemma_joined_shape(a);
    lemma_joined_shape(b);
    if a.len() >= 2 && b.len() >= 2 {
        let rest = text::join(a.drop_last(), "|"@);
        let other_rest = text::join(b.drop_last(), "|"@);
        lemma_cut_at_last(rest, a.last(), other_rest, b.last(), '|');
        lemma_joined_tell_apart(a.drop_last(), b.drop_last());
        assert(a == a.drop_last().push(a.last()));
        assert(b == b.drop_last().push(b.last()));
    } else if a.len() == 1 && b.len() == 1 {
        assert(a == b);
    } else if a.len() == 1 && b.len() >= 2 {
        let at = text::join(b.drop_last(), "|"@).len() as int;
        assert(text::join(b, "|"@)[at] == '|');
        assert(a[0][at] == '|');
    } else if a.len() >= 2 && b.len() == 1 {
        let at = text::join(a.drop_last(), "|"@).len() as int;
        assert(text::join(a, "|"@)[at] == '|');
        assert(b[0][at] == '|');
    } else {
        assert(a == b);
    }
}

proof fn lemma_joined_shape(a: Seq<Seq<char>>)
    requires
        forall|i: int| 0 <= i < a.len() ==> (#[trigger] a[i]).len() > 0,
    ensures
        a.len() == 0 ==> text::join(a, "|"@).len() == 0,
        a.len() == 1 ==> text::join(a, "|"@) == a[0],
        a.len() >= 1 ==> text::join(a, "|"@).len() > 0,
        a.len() >= 2 ==> text::join(a, "|"@) == text::join(a.drop_last(), "|"@) + "|"@ + a.last(),
{
}

/// The key of a receiver set tells exactly which endpoints with which announced modes it names, in
/// which order, so whatever is prepared for a key is prepared anew exactly when an endpoint or its
/// mode changes. Hosts hold neither of the two separators.
pub proof fn law_receiver_key_names_endpoints_and_modes(
    a: Seq<(Seq<char>, Option<DisplayInfo>)>,
    b: Seq<(Seq<char>, Option<DisplayInfo>)>,
)
    requires
        forall|i: int| 0 <= i < a.len() ==> lacks((#[trigger] a[i]).0, '@') && lacks(a[i].0, '|'),
        forall|i: int| 0 <= i < b.len() ==> lacks((#[trigger] b[i]).0, '@') && lacks(b[i].0, '|'),
    ensures
        set_key(a) == set_key(b) <==> a.len() == b.len() && forall|i: int|
            0 <= i < a.len() ==> #[trigger] same_target(a[i], b[i]),
{
    let (parts, others) = (key_parts(a), key_parts(b));
    assert forall|i: int| 0 <= i < parts.len() implies lacks(#[trigger] parts[i], '|')
        && parts[i].len() > 0 by {
        lemma_part_lacks_bar(a[i].0, a[i].1);
    }
    assert forall|i: int| 0 <= i < others.len() implies lacks(#[trigger] others[i], '|')
        && others[i].len() > 0 by {
        lemma_part_lacks_bar(b[i].0, b[i].1);
    }
    if set_key(a) == set_key(b) {
        lemma_joined_tell_apart(parts, others);
        assert forall|i: int| 0 <= i < a.len() implies #[trigger] same_target(a[i], b[i]) by {
            assert(parts[i] == others[i]);
            lemma_parts_tell_apart(a[i], b[i]);
        }
    }
    if a.len() == b.len() && forall|i: int|
        0 <= i < a.len() ==> #[trigger] same_target(a[i], b[i]) {
        assert forall|i: int| 0 <= i < parts.len() implies parts[i] == others[i] by {
            assert(same_target(a[i], b[i]));
            lemma_parts_tell_apart(a[i], b[i]);
        }
        assert(parts == others);
    }
}

proof fn lemma_part_lacks_bar(host: Seq<char>, display: Option<DisplayInfo>)
    requires
        lacks(host, '|'),
    ensures
        lacks(receiver_key_part(host, display), '|'),
        receiver_key_part(host, display).len() > 0,
{
    lemma_part_is_host_and_mode(host, display);
    let part = receiver_key_part(host, display);
    let mode = mode_part(display);
    assert forall|i: int| 0 <= i < part.len() implies #[trigger] part[i] != '|' by {
        if i < host.len() {
            assert(part[i] == host[i]);
        } else if i == host.len() {
            assert(part[i] == '@');
        } else {
            assert(part[i] == mode[i - host.len() - 1]);
        }
    }
}

/// The receiver that a discovered peer is.
pub open spec fn peer_target(peer: DiscoveredPeer) -> (Seq<char>, Option<DisplayInfo>) {
    (
        peer.address.dotted() + ":"@ + text::dec(peer.announcement.stream_port as nat),
        peer.announcement.display,
    )
}

/// How many receivers a sender takes. The bundled driver tops out at a fixed number of monitors,
/// and every receiver needs its own; taking more than that would fail the exact-count check
/// forever.
pub open spec fn receiver_limit(args: SendArgs) -> nat {
    if args.enable_virtual_display && args.max_receivers > MAX_BUNDLED_VIRTUAL_DISPLAYS {
        MAX_BUNDLED_VIRTUAL_DISPLAYS as nat
    } else {
        args.max_receivers as nat
    }
}

/// The receivers of a sender that finds them by discovery.
pub open spec fn discovered_targets(args: SendArgs, peers: Seq<DiscoveredPeer>) -> Seq<
    (Seq<char>, Option<DisplayInfo>),
> {
    let unique = one_per_endpoint(order::sorted(peers));
    let count = if unique.len() < receiver_limit(args) {
        unique.len()
    } else {
        receiver_limit(args)
    };
    Seq::new(count, |i: int| peer_target(unique[i]))
}

/// The first display that some receiver announced.
pub open spec fn first_display(targets: Seq<(Seq<char>, Option<DisplayInfo>)>) -> Option<
    DisplayInfo,
>
    decreases targets.len(),
{
    if targets.len() == 0 {
        None
    } else {
        match first_display(targets.drop_last()) {
            Some(display) => Some(display),
            None => targets.last().1,
        }
    }
}

/// Takes the receivers that are named in the arguments. Nothing is known of their displays.
pub fn manual_receivers(args: SendArgs) -> (r: ResolvedSender)
    ensures
        r.args == args,
        r.target_display is None,
        target_texts(r.receivers@) == Seq::new(
            pipeline::host_list(args.host@).len(),
            |i: int| (pipeline::host_list(args.host@)[i], None::<DisplayInfo>),
        ),
{
    let hosts = pipeline::split_hosts(&args.host);
    let ghost list = pipeline::host_list(args.host@);
    assert(hosts@.len() == text::texts(hosts@).len());
    let mut receivers: Vec<ReceiverTarget> = Vec::new();
    let mut i: usize = 0;
    while i < hosts.len()
        invariant
            i <= hosts.len(),
            text::texts(hosts@) == list,
            receivers@.len() == i,
            forall|k: int|
                0 <= k < i ==> (#[trigger] receivers@[k]).host@ == list[k]
                    && receivers@[k].display is None,
        decreases hosts.len() - i,
    {
        assert(text::texts(hosts@)[i as int] == hosts@[i as int]@);
        receivers.push(ReceiverTarget { host: hosts[i].clone(), display: None });
        i += 1;
    }
    assert(target_texts(receivers@) == Seq::new(
        list.len(),
        |i: int| (list[i], None::<DisplayInfo>),
    ));
    ResolvedSender { args, target_display: None, receivers }
}

/// Takes the receivers that discovery found, as far as the arguments allow.
pub fn discovered_receivers(args: SendArgs, peers: Vec<DiscoveredPeer>) -> (r: Result<
    ResolvedSender,
    LanError,
>)
    ensures
        match r {
            Ok(resolved) => {
                let targets = discovered_targets(args, peers@);
                &&& peers@.len() > 0
                &&& target_texts(resolved.receivers@) == targets
                &&& resolved.target_display == first_display(targets)
                &&& resolved.args.host@ == text::join(
                    Seq::new(targets.len(), |i: int| targets[i].0),
                    ","@,
                )
                &&& resolved.args == (SendArgs { host: resolved.args.host, ..args })
            },
            Err(error) => peers@.len() == 0 && error is NoReceivers,
        },
{
    let ghost all = peers@;
    let unique = stable_unique_receivers(peers);
    proof {
        order::law_sorting_orders_and_keeps_every_value(all);
        all.to_multiset_ensures();
        order::sorted(all).to_multiset_ensures();
        assert(order::sorted(all).len() == all.len());
        law_one_receiver_per_endpoint(order::sorted(all));
        if all.len() > 0 {
            let first = order::sorted(all)[0];
            assert(has_endpoint(unique@, first));
        }
    }
    if unique.len() == 0 {
        return Err(LanError::NoReceivers);
    }
    let limit: usize = if args.enable_virtual_display && args.max_receivers as usize
        > MAX_BUNDLED_VIRTUAL_DISPLAYS {
        MAX_BUNDLED_VIRTUAL_DISPLAYS
    } else {
        args.max_receivers as usize
    };
    let count: usize = if unique.len() < limit {
        unique.len()
    } else {
        limit
    };
    let ghost targets = discovered_targets(args, all);
    let mut receivers: Vec<ReceiverTarget> = Vec::new();
    let mut hosts: Vec<String> = Vec::new();
    let mut target_display: Option<DisplayInfo> = None;
    let mut i: usize = 0;
    assert(targets.take(0) == Seq::<(Seq<char>, Option<DisplayInfo>)>::empty());
    while i < count
        invariant
            i <= count <= unique.len(),
            targets.len() == count,
            targets == discovered_targets(args, all),
            unique@ == one_per_endpoint(order::sorted(all)),
            receivers@.len() == i,
            hosts@.len() == i,
            target_display == first_display(targets.take(i as int)),
            forall|k: int|
                0 <= k < i ==> (#[trigger] receivers@[k]).host@ == targets[k].0
                    && receivers@[k].display == targets[k].1,
            forall|k: int| 0 <= k < i ==> (#[trigger] hosts@[k])@ == targets[k].0,
        decreases count - i,
    {
        assert(targets.take(i + 1).drop_last() == targets.take(i as int));
        assert(targets[i as int] == peer_target(unique@[i as int]));
        let mut host = String::new();
        unique[i].address.push_to(&mut host);
        host.push_str(":");
        text::push_dec(&mut host, unique[i].announcement.stream_port as u64);
        assert(host@ == targets[i as int].0);
        if target_display.is_none() {
            target_display = unique[i].announcement.display;
        }
        hosts.push(host.clone());
        receivers.push(
            ReceiverTarget { host, display: unique[i].announcement.display },
        );
        i += 1;
    }
    assert(targets.take(targets.len() as int) == targets);
    assert(text::texts(hosts@) == Seq::new(targets.len(), |i: int| targets[i].0));
    assert(target_texts(receivers@) == targets);
    let host = text::join_strings(&hosts, ",");
    Ok(ResolvedSender { args: SendArgs { host, ..args }, target_display, receivers })
}

/// Where a peer receives.
pub open spec fn endpoint(peer: DiscoveredPeer) -> (u32, u16) {
    (peer.address.bits, peer.announcement.stream_port)
}

/// The endpoints at which some peers receive.
pub open spec fn endpoints(peers: Seq<DiscoveredPeer>) -> Set<(u32, u16)> {
    Seq::new(peers.len(), |i: int| endpoint(peers[i])).to_set()
}

/// A sender takes as many receivers as there are endpoints, but no more than it may take, and with
/// virtual displays no more than the driver has displays for.
pub proof fn law_every_endpoint_within_the_bounds_is_taken(
    args: SendArgs,
    peers: Seq<DiscoveredPeer>,
)
    ensures
        ({
            let taken = discovered_targets(args, peers).len();
            let found = endpoints(peers).len();
            &&& endpoints(peers).finite()
            &&& taken <= found
            &&& taken <= args.max_receivers
            &&& args.enable_virtual_display ==> taken <= MAX_BUNDLED_VIRTUAL_DISPLAYS
            &&& taken == found || taken == args.max_receivers || (args.enable_virtual_display
                && taken == MAX_BUNDLED_VIRTUAL_DISPLAYS)
        }),
{
    lemma_unique_count(peers);
}

proof fn lemma_unique_count(peers: Seq<DiscoveredPeer>)
    ensures
        endpoints(peers).finite(),
        endpoints(peers).len() == one_per_endpoint(order::sorted(peers)).len(),
{
    let sorted = order::sorted(peers);
    let unique = one_per_endpoint(sorted);
    let places = Seq::new(unique.len(), |i: int| endpoint(unique[i]));
    order::law_sorting_orders_and_keeps_every_value(peers);
    law_one_receiver_per_endpoint(sorted);
    lemma_unique_are_some(sorted);
    assert(places.no_duplicates()) by {
        assert forall|i: int, j: int|
            0 <= i < places.len() && 0 <= j < places.len() && i != j implies places[i]
            != places[j] by {
            if i < j {
                assert(!same_endpoint(unique[i], unique[j]));
            } else {
                assert(!same_endpoint(unique[j], unique[i]));
            }
        }
    }
    places.unique_seq_to_set();
    let all = Seq::new(peers.len(), |i: int| endpoint(peers[i]));
    assert(places.to_set() =~= all.to_set()) by {
        assert forall|e: (u32, u16)| places.contains(e) <==> all.contains(e) by {
            if places.contains(e) {
                let k = choose|k: int| 0 <= k < places.len() && places[k] == e;
                let i = choose|i: int| 0 <= i < sorted.len() && #[trigger] sorted[i] == unique[k];
                order::lemma_same_values(sorted, peers, i);
                let j = choose|j: int| 0 <= j < peers.len() && #[trigger] peers[j] == sorted[i];
                assert(all[j] == e);
            }
            if all.contains(e) {
                let j = choose|j: int| 0 <= j < all.len() && all[j] == e;
                order::lemma_same_values(peers, sorted, j);
                let i = choose|i: int| 0 <= i < sorted.len() && #[trigger] sorted[i] == peers[j];
                assert(has_endpoint(unique, sorted[i]));
                let k = choose|k: int|
                    0 <= k < unique.len() && same_endpoint(#[trigger] unique[k], sorted[i]);
                assert(places[k] == e);
            }
        }
    }
}

proof fn lemma_unique_are_some(peers: Seq<DiscoveredPeer>)
    ensures
        forall|k: int|
            0 <= k < one_per_endpoint(peers).len() ==> exists|i: int|
                0 <= i < peers.len() && #[trigger] peers[i] == #[trigger] one_per_endpoint(
                    peers,
                )[k],
    decreases peers.len(),
{
    if peers.len() > 0 {
        let rest = peers.drop_last();
        let before = one_per_endpoint(rest);
        let all = one_per_endpoint(peers);
        lemma_unique_are_some(rest);
        assert forall|k: int| 0 <= k < all.len() implies exists|i: int|
            0 <= i < peers.len() && #[trigger] peers[i] == #[trigger] all[k] by {
            if k < before.len() {
                let i = choose|i: int| 0 <= i < rest.len() && #[trigger] rest[i] == before[k];
                assert(peers[i] == all[k]);
            } else {
                assert(peers[peers.len() - 1] == all[k]);
            }
        }
    }
}

/// While no bound is reached, every peer that was found is a receiver: as many are taken as there
/// are endpoints, and each endpoint is one of them.
pub proof fn law_every_found_peer_is_a_receiver(
    args: SendArgs,
    peers: Seq<DiscoveredPeer>,
    i: int,
)
    requires
        0 <= i < peers.len(),
        endpoints(peers).len() <= args.max_receivers,
        args.enable_virtual_display ==> endpoints(peers).len() <= MAX_BUNDLED_VIRTUAL_DISPLAYS,
    ensures
        exists|k: int|
            0 <= k < discovered_targets(args, peers).len() && pipeline::addresses(
                (#[trigger] discovered_targets(args, peers)[k]).0,
                peers[i].address.dotted(),
                peers[i].announcement.stream_port as nat,
            ),
{
    let sorted = order::sorted(peers);
    let unique = one_per_endpoint(sorted);
    let targets = discovered_targets(args, peers);
    law_every_endpoint_within_the_bounds_is_taken(args, peers);
    lemma_unique_count(peers);
    order::law_sorting_orders_and_keeps_every_value(peers);
    law_one_receiver_per_endpoint(sorted);
    order::lemma_same_values(peers, sorted, i);
    let j = choose|j: int| 0 <= j < sorted.len() && #[trigger] sorted[j] == peers[i];
    assert(has_endpoint(unique, sorted[j]));
    let k = choose|k: int| 0 <= k < unique.len() && same_endpoint(#[trigger] unique[k], sorted[j]);
    let port = peers[i].announcement.stream_port as nat;
    lemma_target_is_addressed(unique[k]);
    assert(targets[k] == peer_target(unique[k]));
    assert(unique[k].address == peers[i].address);
    assert(pipeline::addresses(targets[k].0, peers[i].address.dotted(), port));
}

proof fn lemma_target_is_addressed(peer: DiscoveredPeer)
    ensures
        pipeline::addresses(
            peer_target(peer).0,
            peer.address.dotted(),
            peer.announcement.stream_port as nat,
        ),
{
    let port = peer.announcement.stream_port as nat;
    let address = peer.address.dotted();
    let host = peer_target(peer).0;
    reveal_strlit(":");
    text::law_decimal_round_trip(port, u16::MAX as nat);
    assert(host == address + ":"@ + text::dec(port));
    assert(host.take(address.len() as int) == address);
    assert(host.skip(address.len() as int + 1) == text::dec(port));
}

/// Every receiver that is taken is one of the peers that were found: it is addressed in dotted
/// notation at the port that the peer announced, and with the display that it announced.
pub proof fn law_receivers_are_addressed_as_announced(
    args: SendArgs,
    peers: Seq<DiscoveredPeer>,
    k: int,
)
    requires
        0 <= k < discovered_targets(args, peers).len(),
    ensures
        exists|i: int|
            0 <= i < peers.len() && {
                let (host, display) = discovered_targets(args, peers)[k];
                &&& pipeline::addresses(
                    host,
                    (#[trigger] peers[i]).address.dotted(),
                    peers[i].announcement.stream_port as nat,
                )
                &&& display == peers[i].announcement.display
            },
{
    let sorted = order::sorted(peers);
    let unique = one_per_endpoint(sorted);
    let (host, display) = discovered_targets(args, peers)[k];
    order::law_sorting_orders_and_keeps_every_value(peers);
    lemma_unique_are_some(sorted);
    let j = choose|j: int| 0 <= j < sorted.len() && #[trigger] sorted[j] == unique[k];
    order::lemma_same_values(sorted, peers, j);
    let i = choose|i: int| 0 <= i < peers.len() && #[trigger] peers[i] == sorted[j];
    let port = peers[i].announcement.stream_port as nat;
    lemma_target_is_addressed(peers[i]);
    assert(pipeline::addresses(host, peers[i].address.dotted(), port));
}

/// Preserve the capture source's native mode unless the user explicitly requested output caps.
///
/// A receiver's display dimensions are only a target for VDD mode sync. Using them as encoder caps
/// stretches the source when Windows cannot apply that mode (for example, a 1366x768 VDD paired
/// with a portrait phone).
pub fn effective_video_size(
    width: Option<u32>,
    height: Option<u32>,
    _receiver_display: Option<&DisplayInfo>,
) -> (r: (Option<u32>, Option<u32>))
    ensures
        r == (width, height),
{
    (width, height)
}

/// Passes when there is exactly one virtual display per receiver.
pub fn ensure_virtual_target_count(required: usize, available: usize) -> (r: Result<(), LanError>)
    ensures
        match r {
            Ok(_) => available == required,
            Err(error) => available != required && error == (LanError::DisplayCount {
                required,
                available,
            }),
        },
{
    if available == required {
        Ok(())
    } else {
        Err(LanError::DisplayCount { required, available })
    }
}

/// Whether the receivers of a sender each get a virtual display.
pub open spec fn uses_virtual_displays(resolved: ResolvedSender) -> bool {
    resolved.args.enable_virtual_display && resolved.receivers@.len() > 0
}

/// How many virtual displays a sender needs before it can be given any.
pub fn virtual_displays_needed(resolved: &ResolvedSender) -> (r: Option<usize>)
    ensures
        r == if uses_virtual_displays(*resolved) {
            Some(resolved.receivers@.len() as usize)
        } else {
            None
        },
{
    if resolved.args.enable_virtual_display && resolved.receivers.len() > 0 {
        Some(resolved.receivers.len())
    } else {
        None
    }
}

/// The display that one receiver gets, and the mode to give it.
#[derive(Debug)]
pub struct DisplayAssignment {
    pub target: Option<DisplayMonitor>,
    pub mode: Option<DisplayMode>,
}

/// Whether an assignment is the right one for a receiver: without virtual displays none, and
/// otherwise the target with the same number, in the mode that the receiver announced where the
/// modes are to match.
pub open spec fn assigned(
    assignment: DisplayAssignment,
    resolved: ResolvedSender,
    targets: Seq<DisplayMonitor>,
    i: int,
) -> bool {
    let receiver = resolved.receivers@[i];
    if !uses_virtual_displays(resolved) {
        assignment.target is None && assignment.mode is None
    } else {
        &&& assignment.target == Some(targets[i])
        &&& assignment.mode is Some <==> resolved.args.sync_virtual_display_resolution
            && monitors::worth_syncing(receiver.display)
        &&& assignment.mode matches Some(mode) ==> mode.width == receiver.display->0.width
            && mode.height == receiver.display->0.height && mode.refresh_hz
            == receiver.display->0.refresh_hz
    }
}

/// Gives every receiver its own virtual display, so a second phone joining gets a new desktop
/// instead of a copy of the first one's.
pub fn assign_receiver_displays(
    resolved: &ResolvedSender,
    targets: &Vec<DisplayMonitor>,
) -> (r: Result<Vec<DisplayAssignment>, LanError>)
    ensures
        match r {
            Ok(assignments) => {
                &&& uses_virtual_displays(*resolved) ==> targets@.len()
                    == resolved.receivers@.len()
                &&& assignments@.len() == resolved.receivers@.len()
                &&& forall|i: int|
                    0 <= i < assignments@.len() ==> assigned(
                        #[trigger] assignments@[i],
                        *resolved,
                        targets@,
                        i,
                    )
            },
            Err(error) => uses_virtual_displays(*resolved) && targets@.len()
                != resolved.receivers@.len() && error == (LanError::DisplayCount {
                required: resolved.receivers@.len() as usize,
                available: targets@.len() as usize,
            }),
        },
{
    let virtual_displays = virtual_displays_needed(resolved).is_some();
    if virtual_displays {
        ensure_virtual_target_count(resolved.receivers.len(), targets.len())?;
    }
    let mut assignments: Vec<DisplayAssignment> = Vec::new();
    let mut i: usize = 0;
    while i < resolved.receivers.len()
        invariant
            i <= resolved.receivers.len(),
            virtual_displays == uses_virtual_displays(*resolved),
            virtual_displays ==> targets.len() == resolved.receivers.len(),
            assignments@.len() == i,
            forall|k: int|
                0 <= k < i ==> assigned(#[trigger] assignments@[k], *resolved, targets@, k),
        decreases resolved.receivers.len() - i,
    {
        let assignment = if virtual_displays {
            let mode = if resolved.args.sync_virtual_display_resolution {
                monitors::sync_virtual_display_mode(resolved.receivers[i].display.as_ref())
            } else {
                None
            };
            DisplayAssignment { target: Some(targets[i].clone()), mode }
        } else {
            DisplayAssignment { target: None, mode: None }
        };
        assert(assigned(assignment, *resolved, targets@, i as int));
        assignments.push(assignment);
        i += 1;
    }
    Ok(assignments)
}

/// The arguments for one receiver of a sender.
pub open spec fn is_args_for(one: SendArgs, args: SendArgs, host: Seq<char>) -> bool {
    one.host@ == host && one == (SendArgs { host: one.host, ..args })
}

/// Narrows the arguments of a sender to one of its receivers.
pub fn receiver_args(args: &SendArgs, receiver: &ReceiverTarget) -> (r: SendArgs)
    ensures
        is_args_for(r, *args, receiver.host@),
{
    let (width, height) = effective_video_size(args.width, args.height, receiver.display.as_ref());
    let mut one = args.clone();
    one.host = receiver.host.clone();
    one.width = width;
    one.height = height;
    one
}

/// Whether a description is the video pipeline for one receiver.
pub open spec fn describes_receiver(
    description: Seq<char>,
    resolved: ResolvedSender,
    assignments: Seq<DisplayAssignment>,
    machine: Machine,
    i: int,
) -> bool {
    exists|args: SendArgs|
        #![trigger is_args_for(args, resolved.args, resolved.receivers@[i].host@)]
        is_args_for(args, resolved.args, resolved.receivers@[i].host@) && pipeline::sender_video(
            args,
            assignments[i].target,
            machine,
        ) == Ok::<Seq<char>, Seq<char>>(description)
}

/// Whether there is no pipeline for one receiver, and why.
pub open spec fn fails_receiver(
    problem: Seq<char>,
    resolved: ResolvedSender,
    assignments: Seq<DisplayAssignment>,
    machine: Machine,
    i: int,
) -> bool {
    exists|args: SendArgs|
        #![trigger is_args_for(args, resolved.args, resolved.receivers@[i].host@)]
        is_args_for(args, resolved.args, resolved.receivers@[i].host@) && pipeline::sender_video(
            args,
            assignments[i].target,
            machine,
        ) == Err::<Seq<char>, Seq<char>>(problem)
}

/// Whether there is a pipeline for one receiver.
pub open spec fn reaches_receiver(
    resolved: ResolvedSender,
    assignments: Seq<DisplayAssignment>,
    machine: Machine,
    i: int,
) -> bool {
    exists|description: Seq<char>| #[trigger]
        describes_receiver(description, resolved, assignments, machine, i)
}

/// Builds the video pipeline of every receiver. No pipeline is started unless there is one for
/// each of them: the first receiver without one fails the whole.
pub fn build_receiver_video_pipelines(
    resolved: &ResolvedSender,
    assignments: &Vec<DisplayAssignment>,
    machine: &Machine,
) -> (r: Result<Vec<String>, LanError>)
    requires
        assignments@.len() == resolved.receivers@.len(),
    ensures
        match r {
            Ok(descriptions) => {
                &&& descriptions@.len() == resolved.receivers@.len()
                &&& descriptions@.len() > 0
                &&& forall|i: int|
                    0 <= i < descriptions@.len() ==> describes_receiver(
                        (#[trigger] descriptions@[i])@,
                        *resolved,
                        assignments@,
                        *machine,
                        i,
                    )
            },
            Err(LanError::NoPipelines) => resolved.receivers@.len() == 0,
            Err(LanError::Pipeline { host, error }) => exists|i: int|
                0 <= i < resolved.receivers@.len() && host@ == (
                #[trigger] resolved.receivers@[i]).host@ && fails_receiver(
                    error.text(),
                    *resolved,
                    assignments@,
                    *machine,
                    i,
                ) && forall|k: int|
                    0 <= k < i ==> #[trigger] reaches_receiver(
                        *resolved,
                        assignments@,
                        *machine,
                        k,
                    ),
            Err(_) => false,
        },
{
    let mut descriptions: Vec<String> = Vec::new();
    let mut i: usize = 0;
    while i < resolved.receivers.len()
        invariant
            i <= resolved.receivers.len(),
            assignments@.len() == resolved.receivers@.len(),
            descriptions@.len() == i,
            forall|k: int|
                0 <= k < i ==> describes_receiver(
                    (#[trigger] descriptions@[k])@,
                    *resolved,
                    assignments@,
                    *machine,
                    k,
                ),
        decreases resolved.receivers.len() - i,
    {
        let receiver = &resolved.receivers[i];
        let args = receiver_args(&resolved.args, receiver);
        match pipeline::build_sender_video_pipeline_for(
            &args,
            assignments[i].target.as_ref(),
            machine,
        ) {
            Ok(description) => {
                assert(describes_receiver(
                    description@,
                    *resolved,
                    assignments@,
                    *machine,
                    i as int,
                ));
                descriptions.push(description);
            },
            Err(error) => {
                assert(fails_receiver(
                    error.text(),
                    *resolved,
                    assignments@,
                    *machine,
                    i as int,
                ));
                assert forall|k: int| 0 <= k < i implies #[trigger] reaches_receiver(
                    *resolved,
                    assignments@,
                    *machine,
                    k,
                ) by {
                    assert(describes_receiver(
                        descriptions@[k]@,
                        *resolved,
                        assignments@,
                        *machine,
                        k,
                    ));
                }
                return Err(LanError::Pipeline { host: receiver.host.clone(), error });
            },
        }
        i += 1;
    }
    if descriptions.len() == 0 {
        return Err(LanError::NoPipelines);
    }
    Ok(descriptions)
}

/// Passes when the bundled display is ready, where a sender uses it.
pub fn prepare_sender_environment(enable_virtual_display: bool, ready: bool) -> (r: Result<
    (),
    LanError,
>)
    ensures
        match r {
            Ok(_) => !enable_virtual_display || ready,
            Err(error) => enable_virtual_display && !ready && error is NotCaptureReady,
        },
{
    if enable_virtual_display && !ready {
        Err(LanError::NotCaptureReady)
    } else {
        Ok(())
    }
}

/// The receiver set that the environment was last prepared for; none where the key is empty.
#[derive(Debug)]
pub struct SenderPreparationState {
    pub receiver_key: String,
}

impl Default for SenderPreparationState {
    fn default() -> (r: Self)
        ensures
            r.receiver_key@ == Seq::<char>::empty(),
    {
        SenderPreparationState { receiver_key: String::new() }
    }
}

impl SenderPreparationState {
    pub fn needs_prepare(&self, receiver_key: &str) -> (r: bool)
        ensures
            r == (self.receiver_key@ != receiver_key@),
    {
        !text::str_equal(&self.receiver_key, receiver_key)
    }

    pub fn mark_prepared(&mut self, receiver_key: &str)
        ensures
            final(self).receiver_key@ == receiver_key@,
    {
        self.receiver_key = receiver_key.to_owned();
    }

    pub fn reset(&mut self)
        ensures
            final(self).receiver_key@ == Seq::<char>::empty(),
    {
        self.receiver_key = String::new();
    }
}

/// What to do about the audio stream.
#[derive(Clone, Copy, Debug, PartialEq, Eq, Structural)]
pub enum AudioAction {
    Keep,
    Stop,
    Start,
}

/// What to do when discovery found receivers.
#[derive(Clone, Copy, Debug, PartialEq, Eq, Structural)]
pub enum DiscoveryAction {
    /// The same receivers as before: leave the streams alone.
    KeepStreams,
    /// Other receivers: every stream is stopped and started anew, after the environment has been
    /// prepared where that is asked for.
    Restart { prepare: bool },
}

/// What to do when discovery found no receivers.
#[derive(Clone, Copy, Debug, PartialEq, Eq, Structural)]
pub enum LossAction {
    /// Receivers were there a moment ago: keep streaming.
    Grace,
    /// Every stream is stopped, and the virtual displays are removed where that is asked for.
    Stop { remove_display: bool },
}

/// A sending session: what streams, to whom, and what has been prepared for it.
#[derive(Debug)]
pub struct SenderSession {
    pub enable_virtual_display: bool,
    pub audio_enabled: bool,
    pub active_hosts: String,
    pub active_receiver_key: String,
    pub video_streams: usize,
    pub audio_running: bool,
    pub detached_for_no_receivers: bool,
    pub last_receiver_seen_ms: Option<u64>,
    pub preparation: SenderPreparationState,
    pub failed_starts: u32,
}

/// A session by what it says.
pub struct SessionModel {
    pub enable_virtual_display: bool,
    pub audio_enabled: bool,
    pub hosts: Seq<char>,
    pub key: Seq<char>,
    pub video_streams: nat,
    pub audio_running: bool,
    pub detached: bool,
    pub last_seen_ms: Option<u64>,
    pub prepared_key: Seq<char>,
    pub failed_starts: nat,
}

impl View for SenderSession {
    type V = SessionModel;

    open spec fn view(&self) -> SessionModel {
        SessionModel {
            enable_virtual_display: self.enable_virtual_display,
            audio_enabled: self.audio_enabled,
            hosts: self.active_hosts@,
            key: self.active_receiver_key@,
            video_streams: self.video_streams as nat,
            audio_running: self.audio_running,
            detached: self.detached_for_no_receivers,
            last_seen_ms: self.last_receiver_seen_ms,
            prepared_key: self.preparation.receiver_key@,
            failed_starts: self.failed_starts as nat,
        }
    }
}

impl SessionModel {
    /// A session never streams without knowing to whom: there are video streams exactly while there
    /// is an active receiver set, for which the environment is prepared; and audio runs only beside
    /// video.
    pub open spec fn wf(self) -> bool {
        &&& self.video_streams > 0 <==> self.key.len() > 0
        &&& self.hosts.len() > 0 ==> self.video_streams > 0
        &&& self.audio_running ==> self.hosts.len() > 0
        &&& self.key.len() > 0 ==> self.prepared_key == self.key
        &&& self.detached ==> self.video_streams == 0
    }

    /// The session with every stream stopped and no active receiver set.
    pub open spec fn stopped(self) -> SessionModel {
        SessionModel {
            hosts: Seq::empty(),
            key: Seq::empty(),
            video_streams: 0,
            audio_running: false,
            ..self
        }
    }

    pub open spec fn unprepared(self) -> SessionModel {
        SessionModel { prepared_key: Seq::empty(), ..self }
    }

    pub open spec fn audio_action(self) -> AudioAction {
        if !self.audio_enabled {
            if self.audio_running {
                AudioAction::Stop
            } else {
                AudioAction::Keep
            }
        } else if self.hosts.len() > 0 && !self.audio_running {
            AudioAction::Start
        } else {
            AudioAction::Keep
        }
    }

    pub open spec fn discovery_action(self, key: Seq<char>) -> DiscoveryAction {
        if key == self.key {
            DiscoveryAction::KeepStreams
        } else {
            DiscoveryAction::Restart { prepare: self.prepared_key != key }
        }
    }

    pub open spec fn loss_action(self, now_ms: int) -> LossAction {
        if !self.detached && self.last_seen_ms is Some && now_ms - self.last_seen_ms->0
            < RECEIVER_LOSS_GRACE_MS {
            LossAction::Grace
        } else {
            LossAction::Stop { remove_display: self.enable_virtual_display && !self.detached }
        }
    }

    pub open spec fn after_loss(self, now_ms: int) -> SessionModel {
        match self.loss_action(now_ms) {
            LossAction::Grace => self,
            LossAction::Stop { remove_display } => if remove_display {
                SessionModel { detached: true, last_seen_ms: None, ..self.stopped().unprepared() }
            } else {
                self.stopped()
            },
        }
    }
}

impl SenderSession {
    /// A session that has not found anyone yet.
    pub fn new(enable_virtual_display: bool, audio_enabled: bool) -> (r: Self)
        ensures
            r@ == (SessionModel {
                enable_virtual_display,
                audio_enabled,
                hosts: Seq::empty(),
                key: Seq::empty(),
                video_streams: 0,
                audio_running: false,
                detached: false,
                last_seen_ms: None,
                prepared_key: Seq::empty(),
                failed_starts: 0,
            }),
            r@.wf(),
    {
        SenderSession {
            enable_virtual_display,
            audio_enabled,
            active_hosts: String::new(),
            active_receiver_key: String::new(),
            video_streams: 0,
            audio_running: false,
            detached_for_no_receivers: false,
            last_receiver_seen_ms: None,
            preparation: SenderPreparationState::default(),
            failed_starts: 0,
        }
    }

    fn clear_streams(&mut self)
        ensures
            final(self)@ == old(self)@.stopped(),
    {
        self.active_hosts = String::new();
        self.active_receiver_key = String::new();
        self.video_streams = 0;
        self.audio_running = false;
    }

    /// Whether anything is being streamed.
    pub fn stream_active(&self) -> (r: bool)
        ensures
            r == (self@.video_streams > 0),
    {
        self.video_streams > 0
    }

    /// One receiver's pipeline dying takes the whole set down, so the next discovery pass rebuilds
    /// every receiver against a fresh display assignment. Every stream has to be stopped.
    pub fn video_stopped(&mut self)
        requires
            old(self)@.wf(),
        ensures
            final(self)@ == old(self)@.stopped().unprepared(),
            final(self)@.wf(),
    {
        self.clear_streams();
        self.preparation.reset();
    }

    /// The audio stream ended; video goes on.
    pub fn audio_stopped(&mut self)
        requires
            old(self)@.wf(),
        ensures
            final(self)@ == (SessionModel { audio_running: false, ..old(self)@ }),
            final(self)@.wf(),
    {
        self.audio_running = false;
    }

    /// Turns audio transfer on or off.
    pub fn set_audio_enabled(&mut self, enabled: bool)
        requires
            old(self)@.wf(),
        ensures
            final(self)@ == (SessionModel { audio_enabled: enabled, ..old(self)@ }),
            final(self)@.wf(),
    {
        self.audio_enabled = enabled;
    }

    /// What to do about the audio stream now. Video is never touched on its account.
    pub fn audio_action(&self) -> (r: AudioAction)
        ensures
            r == self@.audio_action(),
    {
        if !self.audio_enabled {
            if self.audio_running {
                AudioAction::Stop
            } else {
                AudioAction::Keep
            }
        } else if !self.active_hosts.as_str().is_empty() && !self.audio_running {
            AudioAction::Start
        } else {
            AudioAction::Keep
        }
    }

    /// The audio stream was started.
    pub fn audio_started(&mut self)
        requires
            old(self)@.wf(),
            old(self)@.audio_action() == AudioAction::Start,
        ensures
            final(self)@ == (SessionModel { audio_running: true, ..old(self)@ }),
            final(self)@.wf(),
    {
        self.audio_running = true;
    }

    /// Discovery found receivers. Where they are others than before, every stream has to be
    /// stopped before the restart.
    pub fn receivers_found(&mut self, now_ms: u64, receiver_key: &str) -> (r: DiscoveryAction)
        requires
            old(self)@.wf(),
        ensures
            r == old(self)@.discovery_action(receiver_key@),
            final(self)@ == match r {
                DiscoveryAction::KeepStreams => SessionModel {
                    last_seen_ms: Some(now_ms),
                    detached: false,
                    ..old(self)@
                },
                DiscoveryAction::Restart { .. } => SessionModel {
                    last_seen_ms: Some(now_ms),
                    ..old(self)@.stopped()
                },
            },
            final(self)@.wf(),
    {
        self.last_receiver_seen_ms = Some(now_ms);
        if text::str_equal(receiver_key, &self.active_receiver_key) {
            self.detached_for_no_receivers = false;
            return DiscoveryAction::KeepStreams;
        }
        self.clear_streams();
        DiscoveryAction::Restart { prepare: self.preparation.needs_prepare(receiver_key) }
    }

    /// The environment was prepared and every stream of a restart runs.
    pub fn streams_started(&mut self, hosts: &str, receiver_key: &str, streams: usize)
        requires
            old(self)@.wf(),
            old(self)@.video_streams == 0,
            streams > 0,
            receiver_key@.len() > 0,
        ensures
            final(self)@ == (SessionModel {
                hosts: hosts@,
                key: receiver_key@,
                prepared_key: receiver_key@,
                video_streams: streams as nat,
                detached: false,
                failed_starts: 0,
                ..old(self)@
            }),
            final(self)@.wf(),
    {
        self.preparation.mark_prepared(receiver_key);
        self.failed_starts = 0;
        self.active_hosts = hosts.to_owned();
        self.active_receiver_key = receiver_key.to_owned();
        self.video_streams = streams;
        self.detached_for_no_receivers = false;
    }

    /// A restart failed. Preparation is committed only for a complete receiver route: any count,
    /// mode or pipeline build failure must retry it. Retrying forever behind a "sending" label
    /// looks identical to a working session, so the user is told once the environment has clearly
    /// not recovered on its own.
    pub fn start_failed(&mut self) -> (alert: bool)
        requires
            old(self)@.wf(),
            old(self)@.video_streams == 0,
            old(self)@.failed_starts < u32::MAX,
        ensures
            final(self)@ == (SessionModel {
                failed_starts: old(self)@.failed_starts + 1,
                ..old(self)@.unprepared()
            }),
            alert == (final(self)@.failed_starts == PREPARE_FAILURES_BEFORE_ALERT),
            alert <==> old(self)@.failed_starts == 2,
            final(self)@.prepared_key.len() == 0,
            final(self)@.wf(),
    {
        self.preparation.reset();
        self.failed_starts = self.failed_starts + 1;
        self.failed_starts == PREPARE_FAILURES_BEFORE_ALERT
    }

    /// Discovery found no receivers.
    pub fn receivers_lost(&mut self, now_ms: u64) -> (r: LossAction)
        requires
            old(self)@.wf(),
        ensures
            r == old(self)@.loss_action(now_ms as int),
            final(self)@ == old(self)@.after_loss(now_ms as int),
            final(self)@.wf(),
    {
        let recent = match self.last_receiver_seen_ms {
            Some(seen) => now_ms < seen || now_ms - seen < RECEIVER_LOSS_GRACE_MS,
            None => false,
        };
        if !self.detached_for_no_receivers && recent {
            return LossAction::Grace;
        }
        self.clear_streams();
        let remove_display = self.enable_virtual_display && !self.detached_for_no_receivers;
        if remove_display {
            self.detached_for_no_receivers = true;
            self.last_receiver_seen_ms = None;
            self.preparation.reset();
        }
        LossAction::Stop { remove_display }
    }
}

/// Finding the same receivers again neither stops a stream nor prepares anything: driver actions
/// run only when a receiver endpoint or its announced display mode changes.
pub proof fn law_rediscovery_leaves_a_running_session_alone(session: SessionModel)
    requires
        session.wf(),
        session.video_streams > 0,
    ensures
        session.discovery_action(session.key) == DiscoveryAction::KeepStreams,
        forall|key: Seq<char>|
            key != session.key ==> #[trigger] session.discovery_action(key)
                == (DiscoveryAction::Restart { prepare: true }),
{
}

/// The virtual displays are removed at most once while the receivers stay away: after a removal
/// every further pass without receivers stops nothing that is not stopped and removes nothing.
pub proof fn law_virtual_displays_are_removed_once(session: SessionModel, t1: int, t2: int)
    requires
        session.wf(),
        session.loss_action(t1) == (LossAction::Stop { remove_display: true }),
    ensures
        ({
            let after = session.after_loss(t1);
            &&& after.detached
            &&& after.video_streams == 0
            &&& after.loss_action(t2) == (LossAction::Stop { remove_display: false })
            &&& after.after_loss(t2) == after
        }),
{
    let after = session.after_loss(t1);
    assert(after.stopped() == after);
}

/// Within the grace period a session that lost sight of its receivers is left exactly as it was.
pub proof fn law_short_losses_change_nothing(session: SessionModel, now_ms: int)
    requires
        !session.detached,
        session.last_seen_ms is Some,
        now_ms - session.last_seen_ms->0 < RECEIVER_LOSS_GRACE_MS,
    ensures
        session.after_loss(now_ms) == session,
{
}

/// After a start that failed nothing streams, and the next attempt, for whatever receivers,
/// prepares the environment again.
pub proof fn law_failed_start_streams_nothing_and_is_retried(
    before: SessionModel,
    after: SessionModel,
    key: Seq<char>,
)
    requires
        before.wf(),
        before.video_streams == 0,
        after == (SessionModel { failed_starts: before.failed_starts + 1, ..before.unprepared() }),
        key.len() > 0,
    ensures
        after.video_streams == 0,
        !after.audio_running,
        after.discovery_action(key) == (DiscoveryAction::Restart { prepare: true }),
{
}

/// Toggling audio never concerns the video streams: the action that follows is about audio alone,
/// and the receiver set, the streams and the preparation stay as they are.
pub proof fn law_audio_toggle_keeps_video(session: SessionModel, enabled: bool)
    requires
        session.wf(),
    ensures
        ({
            let after = SessionModel { audio_enabled: enabled, ..session };
            &&& after.video_streams == session.video_streams
            &&& after.key == session.key
            &&& after.prepared_key == session.prepared_key
            &&& after.audio_action() == AudioAction::Start ==> enabled && session.video_streams > 0
            &&& after.audio_action() == AudioAction::Stop ==> !enabled
        }),
{
}

/// The announcement of a peer.
pub fn peer_announcement(
    instance_id: &str,
    device_name: &str,
    role: PeerRole,
    stream_port: u16,
    audio_port: Option<u16>,
    pin: &str,
    diagnostics_port: u16,
    display: Option<DisplayInfo>,
    decode_limits: Option<(u32, u32)>,
) -> (r: Result<PeerAnnouncement, DiscoveryError>)
    ensures
        match r {
            Ok(announcement) => {
                &&& discovery::is_pin(pin@)
                &&& announcement.supported()
                &&& announcement.instance_id@ == instance_id@
                &&& announcement.device_name@ == device_name@
                &&& announcement.role == role
                &&& announcement.stream_port == stream_port
                &&& announcement.audio_port == audio_port
                &&& announcement.diagnostics_port == Some(diagnostics_port)
                &&& discovery::optional_text(announcement.pin_hash) == Some(
                    discovery::pin_hash_of(pin@),
                )
                &&& discovery::is_pin_hash(discovery::pin_hash_of(pin@))
                &&& match (display, announcement.display) {
                    (Some(own), Some(announced)) => announced.width == own.width && announced.height
                        == own.height && announced.refresh_hz == own.refresh_hz
                        && announced.limits() == decode_limits,
                    (None, None) => true,
                    _ => false,
                }
            },
            Err(error) => !discovery::is_pin(pin@) && error == DiscoveryError::PinFormat,
        },
{
    let announcement = PeerAnnouncement::new(instance_id, device_name, role, stream_port);
    let announcement = match announcement.with_pin(pin) {
        Ok(announcement) => announcement,
        Err(error) => return Err(error),
    };
    let announcement = announcement.with_audio_port(audio_port).with_diagnostics_port(
        diagnostics_port,
    );
    match display {
        Some(display) => Ok(announcement.with_display(display.with_decode_limits(decode_limits))),
        None => Ok(announcement),
    }
}

/// When a peer announces itself next.
#[derive(Clone, Copy, Debug, PartialEq, Eq, Structural)]
pub struct AnnounceSchedule {
    pub next_broadcast_ms: u64,
}

impl AnnounceSchedule {
    pub fn new(now_ms: u64) -> (r: Self)
        ensures
            r.next_broadcast_ms == now_ms,
    {
        AnnounceSchedule { next_broadcast_ms: now_ms }
    }

    /// Whether to announce now.
    pub fn take_due(&mut self, now_ms: u64) -> (r: bool)
        requires
            now_ms + ANNOUNCE_INTERVAL_MS <= u64::MAX,
        ensures
            r == (now_ms >= old(self).next_broadcast_ms),
            final(self).next_broadcast_ms == if r {
                now_ms + ANNOUNCE_INTERVAL_MS
            } else {
                old(self).next_broadcast_ms as int
            },
    {
        if now_ms >= self.next_broadcast_ms {
            self.next_broadcast_ms = now_ms + ANNOUNCE_INTERVAL_MS;
            true
        } else {
            false
        }
    }
}

/// What identifies one run of the application on the network.
pub fn instance_id(device_name: &str, process_id: u32) -> (r: String)
    ensures
        r@ == device_name@ + "-"@ + text::dec(process_id as nat),
{
    let mut out = device_name.to_owned();
    out.push_str("-");
    text::push_dec(&mut out, process_id as u64);
    out
}

/// The name of this device: the Windows computer name, the host name, or a fixed name.
pub fn device_name(computer_name: Option<String>, host_name: Option<String>) -> (r: String)
    ensures
        r@ == match (computer_name, host_name) {
            (Some(name), _) => name@,
            (None, Some(name)) => name@,
            (None, None) => "screen-mirror-desktop"@,
        },
{
    match computer_name {
        Some(name) => name,
        None => match host_name {
            Some(name) => name,
            None => "screen-mirror-desktop".to_owned(),
        },
    }
}

/// The display that a sender goes by is the one of the first receiver that announced one.
pub proof fn law_first_announced_display_is_taken(
    targets: Seq<(Seq<char>, Option<DisplayInfo>)>,
    k: int,
)
    requires
        0 <= k <= targets.len(),
        forall|i: int| 0 <= i < k ==> (#[trigger] targets[i]).1 is None,
    ensures
        k < targets.len() && targets[k].1 is Some ==> first_display(targets) == targets[k].1,
        k == targets.len() ==> first_display(targets) is None,
    decreases targets.len(),
{
    if targets.len() > 0 {
        let rest = targets.drop_last();
        if k < targets.len() {
            assert forall|i: int| 0 <= i < k implies (#[trigger] rest[i]).1 is None by {
                assert(rest[i] == targets[i]);
            }
            law_first_announced_display_is_taken(rest, k);
            assert(k < rest.len() ==> rest[k] == targets[k]);
        } else {
            assert forall|i: int| 0 <= i < rest.len() implies (#[trigger] rest[i]).1 is None by {
                assert(rest[i] == targets[i]);
            }
            law_first_announced_display_is_taken(rest, rest.len() as int);
            assert(targets[targets.len() - 1].1 is None);
        }
    }
}

/// A session that lost its receivers goes on for seventy-five seconds after it last saw them; then
/// its streams stop. The virtual displays go with them where the session made them, once.
pub proof fn law_long_losses_stop_the_session(session: SessionModel, now_ms: int)
    requires
        session.last_seen_ms is Some,
        !session.detached,
    ensures
        session.loss_action(now_ms) == LossAction::Grace <==> now_ms < session.last_seen_ms->0
            + 75_000,
        now_ms >= session.last_seen_ms->0 + 75_000 ==> {
            &&& session.loss_action(now_ms) == (LossAction::Stop {
                remove_display: session.enable_virtual_display,
            })
            &&& session.after_loss(now_ms).video_streams == 0
            &&& !session.after_loss(now_ms).audio_running
            &&& session.after_loss(now_ms).hosts.len() == 0
            &&& session.after_loss(now_ms).key.len() == 0
            &&& session.after_loss(now_ms).detached == session.enable_virtual_display
        },
{
}

/// Audio is started exactly where it is wanted, there is somebody to send it to and it does not run
/// yet; it is stopped exactly where it runs and is not wanted.
pub proof fn law_audio_runs_where_it_is_wanted(session: SessionModel)
    ensures
        session.audio_action() == AudioAction::Start <==> session.audio_enabled
            && !session.audio_running && session.hosts.len() > 0,
        session.audio_action() == AudioAction::Stop <==> !session.audio_enabled
            && session.audio_running,
{
}

/// Whatever is found anew is started; the environment is prepared for it unless it is prepared for
/// just that.
pub proof fn law_new_receivers_are_started(session: SessionModel, key: Seq<char>)
    requires
        key != session.key,
    ensures
        session.discovery_action(key) matches DiscoveryAction::Restart { prepare } && (prepare
            <==> session.prepared_key != key),
{
}

/// Two receivers never share a display where each gets one of its own, and a display takes on the
/// size and the rate that its own receiver announced, if that is at least 640 by 480.
pub proof fn law_receivers_get_their_own_displays(
    a: DisplayAssignment,
    b: DisplayAssignment,
    resolved: ResolvedSender,
    targets: Seq<DisplayMonitor>,
    i: int,
    j: int,
)
    requires
        assigned(a, resolved, targets, i),
        assigned(b, resolved, targets, j),
        targets[i] != targets[j],
        resolved.args.enable_virtual_display,
        resolved.receivers@.len() > 0,
    ensures
        a.target is Some && b.target is Some && a.target != b.target,
        ({
            let display = resolved.receivers@[i].display;
            if resolved.args.sync_virtual_display_resolution && display is Some
                && display->0.width >= 640 && display->0.height >= 480 {
                a.mode matches Some(mode) && mode.width == display->0.width && mode.height
                    == display->0.height && mode.refresh_hz == display->0.refresh_hz
            } else {
                a.mode is None
            }
        }),
{
}

/// A receiver's video pipeline is for that receiver alone: its clients are the ones that the
/// receiver's own host stands for.
pub proof fn law_pipelines_reach_their_own_receiver(
    description: Seq<char>,
    resolved: ResolvedSender,
    assignments: Seq<DisplayAssignment>,
    machine: Machine,
    i: int,
)
    requires
        describes_receiver(description, resolved, assignments, machine, i),
    ensures
        pipeline::clients_text(
            resolved.receivers@[i].host@,
            resolved.args.port,
            false,
        ) matches Ok(clients) && text::contains(
            description,
            " ! multiudpsink clients="@ + pipeline::literal_text(clients),
        ),
{
    let args = choose|args: SendArgs|
        #![trigger is_args_for(args, resolved.args, resolved.receivers@[i].host@)]
        is_args_for(args, resolved.args, resolved.receivers@[i].host@) && pipeline::sender_video(
            args,
            assignments[i].target,
            machine,
        ) == Ok::<Seq<char>, Seq<char>>(description);
    pipeline::law_sender_video_carries_its_settings(args, assignments[i].target, machine);
}

/// The receivers that a sender found are the hosts that it sends to: its list of hosts names each
/// of them once, in order.
pub proof fn law_found_receivers_are_the_hosts(args: SendArgs, peers: Seq<DiscoveredPeer>)
    requires
        discovered_targets(args, peers).len() > 0,
    ensures
        ({
            let targets = discovered_targets(args, peers);
            let hosts = Seq::new(targets.len(), |i: int| targets[i].0);
            pipeline::host_list(text::join(hosts, ","@)) == hosts
        }),
{
    let targets = discovered_targets(args, peers);
    let hosts = Seq::new(targets.len(), |i: int| targets[i].0);
    let unique = one_per_endpoint(order::sorted(peers));
    reveal_strlit(",");
    assert(","@ == seq![',']);
    assert forall|i: int| 0 <= i < hosts.len() implies lacks(#[trigger] hosts[i], ',')
        && text::trim(hosts[i]) == hosts[i] && hosts[i].len() > 0 by {
        assert(hosts[i] == peer_target(unique[i]).0);
        lemma_host_is_one_entry(unique[i]);
    }
    reading::lemma_split_joined(hosts, ',');
    lemma_entries_stay(hosts);
}

proof fn lemma_entries_stay(hosts: Seq<Seq<char>>)
    requires
        forall|i: int|
            0 <= i < hosts.len() ==> text::trim(#[trigger] hosts[i]) == hosts[i] && hosts[i].len()
                > 0,
    ensures
        pipeline::trimmed_entries(hosts) == hosts,
    decreases hosts.len(),
{
    if hosts.len() > 0 {
        let rest = hosts.drop_last();
        assert forall|i: int| 0 <= i < rest.len() implies text::trim(#[trigger] rest[i]) == rest[i]
            && rest[i].len() > 0 by {
            assert(rest[i] == hosts[i]);
        }
        lemma_entries_stay(rest);
        assert(hosts[hosts.len() - 1] == hosts.last());
        assert(rest.push(hosts.last()) == hosts);
    }
}

/// Whether a text is made of digits, dots and colons.
spec fn is_address(s: Seq<char>) -> bool {
    forall|i: int|
        0 <= i < s.len() ==> text::is_digit(#[trigger] s[i]) || s[i] == '.' || s[i] == ':'
}

proof fn lemma_addresses_add_up(a: Seq<char>, b: Seq<char>)
    requires
        is_address(a),
        is_address(b),
    ensures
        is_address(a + b),
{
    let s = a + b;
    assert forall|i: int| 0 <= i < s.len() implies text::is_digit(#[trigger] s[i]) || s[i] == '.'
        || s[i] == ':' by {
        if i < a.len() {
            assert(s[i] == a[i]);
        } else {
            assert(s[i] == b[i - a.len()]);
        }
    }
}

proof fn lemma_number_is_address(n: nat)
    ensures
        is_address(text::dec(n)),
        text::dec(n).len() > 0,
        text::is_digit(text::dec(n)[0]),
        text::is_digit(text::dec(n).last()),
{
    text::lemma_dec_digits(n);
    let s = text::dec(n);
    assert forall|i: int| 0 <= i < s.len() implies text::is_digit(#[trigger] s[i]) || s[i] == '.'
        || s[i] == ':' by {
        assert(text::is_digit(s[i]));
    }
    assert(text::is_digit(s[0]) && text::is_digit(s[s.len() - 1]));
}

proof fn lemma_host_is_one_entry(peer: DiscoveredPeer)
    ensures
        ({
            let host = peer_target(peer).0;
            lacks(host, ',') && text::trim(host) == host && host.len() > 0
        }),
{
    let host = peer_target(peer).0;
    let dot = seq!['.'];
    let a = text::dec(peer.address.octet0() as nat);
    let b = text::dec(peer.address.octet1() as nat);
    let c = text::dec(peer.address.octet2() as nat);
    let d = text::dec(peer.address.octet3() as nat);
    let port = text::dec(peer.announcement.stream_port as nat);
    lemma_number_is_address(peer.address.octet0() as nat);
    lemma_number_is_address(peer.address.octet1() as nat);
    lemma_number_is_address(peer.address.octet2() as nat);
    lemma_number_is_address(peer.address.octet3() as nat);
    lemma_number_is_address(peer.announcement.stream_port as nat);
    reveal_strlit(":");
    assert(is_address(dot) && is_address(":"@));
    lemma_addresses_add_up(a, dot);
    lemma_addresses_add_up(a + dot, b);
    lemma_addresses_add_up(a + dot + b, dot);
    lemma_addresses_add_up(a + dot + b + dot, c);
    lemma_addresses_add_up(a + dot + b + dot + c, dot);
    lemma_addresses_add_up(a + dot + b + dot + c + dot, d);
    lemma_addresses_add_up(peer.address.dotted(), ":"@);
    lemma_addresses_add_up(peer.address.dotted() + ":"@, port);
    assert(host[0] == a[0]);
    assert(host.last() == port.last());
    assert(lacks(host, ',')) by {
        assert forall|i: int| 0 <= i < host.len() implies #[trigger] host[i] != ',' by {}
    }
    assert(text::trim_start(host) == host);
    assert(text::trim_end(host) == host);
}

/// Without virtual displays nothing is assigned and nothing is changed.
pub proof fn law_without_virtual_displays_nothing_is_assigned(
    assignment: DisplayAssignment,
    resolved: ResolvedSender,
    targets: Seq<DisplayMonitor>,
    i: int,
)
    requires
        assigned(assignment, resolved, targets, i),
        !resolved.args.enable_virtual_display,
    ensures
        assignment.target is None,
        assignment.mode is None,
{
}

/// Receivers are ordered by their instance, then by their address, then by their port, whatever
/// order they were found in.
pub proof fn law_receivers_are_ordered_by_instance(peers: Seq<DiscoveredPeer>, i: int, j: int)
    requires
        0 <= i < j < one_per_endpoint(order::sorted(peers)).len(),
    ensures
        ({
            let a = one_per_endpoint(order::sorted(peers))[i];
            let b = one_per_endpoint(order::sorted(peers))[j];
            &&& a.announcement.instance_id@ != b.announcement.instance_id@ ==> order::text_le(
                a.announcement.instance_id@,
                b.announcement.instance_id@,
            )
            &&& a.announcement.instance_id@ == b.announcement.instance_id@ ==> a.address.bits
                < b.address.bits || a.address.bits == b.address.bits
                && a.announcement.stream_port <= b.announcement.stream_port
        }),
{
    let sorted = order::sorted(peers);
    let unique = one_per_endpoint(sorted);
    order::law_sorting_orders_and_keeps_every_value(peers);
    lemma_unique_ascend(sorted);
    assert(DiscoveredPeer::rank_le(unique[i].rank(), unique[j].rank()));
}

proof fn lemma_unique_ascend(peers: Seq<DiscoveredPeer>)
    requires
        order::ascending(peers),
    ensures
        order::ascending(one_per_endpoint(peers)),
    decreases peers.len(),
{
    if peers.len() > 0 {
        let rest = peers.drop_last();
        let before = one_per_endpoint(rest);
        let all = one_per_endpoint(peers);
        assert(order::ascending(rest)) by {
            assert forall|i: int, j: int| 0 <= i < j < rest.len() implies DiscoveredPeer::rank_le(
                (#[trigger] rest[i]).rank(),
                (#[trigger] rest[j]).rank(),
            ) by {
                assert(rest[i] == peers[i] && rest[j] == peers[j]);
            }
        }
        lemma_unique_ascend(rest);
        assert forall|i: int, j: int| 0 <= i < j < all.len() implies DiscoveredPeer::rank_le(
            (#[trigger] all[i]).rank(),
            (#[trigger] all[j]).rank(),
        ) by {
            if j < before.len() {
                assert(all[i] == before[i] && all[j] == before[j]);
            } else {
                lemma_comes_before_the_last(peers, i);
            }
        }
    }
}

proof fn lemma_comes_before_the_last(peers: Seq<DiscoveredPeer>, i: int)
    requires
        order::ascending(peers),
        peers.len() > 0,
        0 <= i < one_per_endpoint(peers.drop_last()).len(),
    ensures
        DiscoveredPeer::rank_le(
            one_per_endpoint(peers.drop_last())[i].rank(),
            peers.last().rank(),
        ),
{
    let rest = peers.drop_last();
    let before = one_per_endpoint(rest);
    lemma_unique_are_some(rest);
    let m = choose|m: int| 0 <= m < rest.len() && #[trigger] rest[m] == before[i];
    let last = peers.len() - 1;
    assert(peers[m] == before[i]);
    assert(peers[last] == peers.last());
    assert(DiscoveredPeer::rank_le(peers[m].rank(), peers[last].rank()));
}

} // verus!
