//! Diagnostics reports that peers hand out to each other.
use crate::clock::now_ms;
use crate::discovery::{self, DiscoveryError};
use crate::reading;
use crate::text;
use vstd::prelude::*;

verus! {

pub const DIAGNOSTICS_PORT: u16 = 47779;

pub const DIAGNOSTICS_PROTOCOL: &'static str = "screen-mirror.diagnostics";

pub const DIAGNOSTICS_VERSION: u16 = 1;

/// The most bytes of a request that are read.
pub const MAX_REQUEST_BYTES: u64 = 16_384;

/// The most bytes of a report that are read.
pub const MAX_REPORT_BYTES: u64 = 4_194_304;

/// Why there is no diagnostics report.
#[derive(Clone, Copy, Debug, PartialEq, Eq, Structural)]
pub enum DiagnosticsError {
    UnexpectedProtocol,
    UnsupportedVersion,
    PinMismatch,
    NoReport,
    ScriptFailed,
    NoOutput,
}

impl DiagnosticsError {
    /// The message that a user reads.
    pub fn message(self) -> (r: &'static str)
        ensures
            r@ == match self {
                DiagnosticsError::UnexpectedProtocol => "unexpected diagnostics protocol"@,
                DiagnosticsError::UnsupportedVersion => "unsupported diagnostics version"@,
                DiagnosticsError::PinMismatch => "PIN mismatch"@,
                DiagnosticsError::NoReport => "diagnostics endpoint returned no report"@,
                DiagnosticsError::ScriptFailed => "diagnostics script failed"@,
                DiagnosticsError::NoOutput => "diagnostics script produced no output"@,
            },
    {
        match self {
            DiagnosticsError::UnexpectedProtocol => "unexpected diagnostics protocol",
            DiagnosticsError::UnsupportedVersion => "unsupported diagnostics version",
            DiagnosticsError::PinMismatch => "PIN mismatch",
            DiagnosticsError::NoReport => "diagnostics endpoint returned no report",
            DiagnosticsError::ScriptFailed => "diagnostics script failed",
            DiagnosticsError::NoOutput => "diagnostics script produced no output",
        }
    }
}

/// A peer's request for this machine's report.
#[derive(Debug)]
pub struct DiagnosticsRequest {
    pub protocol: String,
    pub version: u16,
    pub request_id: String,
    pub pin_hash: String,
    pub timestamp_ms: u64,
}

/// What identifies a request: the process that makes it, and when.
pub open spec fn request_id_text(process_id: nat, timestamp_ms: nat) -> Seq<char> {
    "diag-"@ + text::dec(process_id) + "-"@ + text::dec(timestamp_ms)
}

impl DiagnosticsRequest {
    /// A request as of a given moment.
    pub fn new_at(pin: &str, process_id: u32, timestamp_ms: u64) -> (r: Result<
        Self,
        DiscoveryError,
    >)
        ensures
            match r {
                Ok(request) => {
                    &&& discovery::is_pin(pin@)
                    &&& request.supported()
                    &&& request.request_id@ == request_id_text(
                        process_id as nat,
                        timestamp_ms as nat,
                    )
                    &&& request.pin_hash@ == discovery::pin_hash_of(pin@)
                    &&& discovery::is_pin_hash(request.pin_hash@)
                    &&& request.timestamp_ms == timestamp_ms
                },
                Err(error) => !discovery::is_pin(pin@) && error == DiscoveryError::PinFormat,
            },
    {
        let pin_hash = match discovery::pin_hash(pin) {
            Ok(hash) => hash,
            Err(error) => return Err(error),
        };
        let mut request_id = "diag-".to_owned();
        text::push_dec(&mut request_id, process_id as u64);
        request_id.push_str("-");
        text::push_dec(&mut request_id, timestamp_ms);
        Ok(
            DiagnosticsRequest {
                protocol: DIAGNOSTICS_PROTOCOL.to_owned(),
                version: DIAGNOSTICS_VERSION,
                request_id,
                pin_hash,
                timestamp_ms,
            },
        )
    }

    /// A request as of now.
    pub fn new(pin: &str, process_id: u32) -> (r: Result<Self, DiscoveryError>)
        ensures
            match r {
                Ok(request) => {
                    &&& discovery::is_pin(pin@)
                    &&& request.supported()
                    &&& request.request_id@ == request_id_text(
                        process_id as nat,
                        request.timestamp_ms as nat,
                    )
                    &&& request.pin_hash@ == discovery::pin_hash_of(pin@)
                    &&& discovery::is_pin_hash(request.pin_hash@)
                },
                Err(error) => !discovery::is_pin(pin@) && error == DiscoveryError::PinFormat,
            },
    {
        DiagnosticsRequest::new_at(pin, process_id, now_ms())
    }

    pub open spec fn supported(self) -> bool {
        self.protocol@ == DIAGNOSTICS_PROTOCOL@ && self.version == DIAGNOSTICS_VERSION
    }

    /// Lets a parsed request through when it belongs to this protocol and version.
    pub fn validated(self) -> (r: Result<Self, DiagnosticsError>)
        ensures
            match r {
                Ok(request) => self.supported() && request == self,
                Err(DiagnosticsError::UnexpectedProtocol) => self.protocol@
                    != DIAGNOSTICS_PROTOCOL@,
                Err(DiagnosticsError::UnsupportedVersion) => self.protocol@
                    == DIAGNOSTICS_PROTOCOL@ && self.version != DIAGNOSTICS_VERSION,
                Err(_) => false,
            },
    {
        if !text::str_equal(&self.protocol, DIAGNOSTICS_PROTOCOL) {
            Err(DiagnosticsError::UnexpectedProtocol)
        } else if self.version != DIAGNOSTICS_VERSION {
            Err(DiagnosticsError::UnsupportedVersion)
        } else {
            Ok(self)
        }
    }

    /// Passes when the request was made with the expected PIN.
    pub fn authorize(&self, expected_pin_hash: &str) -> (r: Result<(), DiagnosticsError>)
        ensures
            match r {
                Ok(_) => self.pin_hash@ == expected_pin_hash@,
                Err(error) => self.pin_hash@ != expected_pin_hash@ && error
                    == DiagnosticsError::PinMismatch,
            },
    {
        if text::str_equal(&self.pin_hash, expected_pin_hash) {
            Ok(())
        } else {
            Err(DiagnosticsError::PinMismatch)
        }
    }
}

/// A character as it may stand in a file name: letters, digits, '-' and '_' stay.
pub open spec fn safe_char(c: char) -> char {
    if ('a' <= c <= 'z') || ('A' <= c <= 'Z') || ('0' <= c <= '9') || c == '-' || c == '_' {
        c
    } else {
        '_'
    }
}

/// The name of a peer, fit for a file name.
pub fn safe_peer_name(peer_name: &str) -> (r: String)
    ensures
        r@ == peer_name@.map_values(|c: char| safe_char(c)),
{
    let chars = text::chars_of(peer_name);
    let mut out = String::new();
    let mut i: usize = 0;
    assert(chars@.take(0).map_values(|c: char| safe_char(c)) == Seq::<char>::empty());
    while i < chars.len()
        invariant
            i <= chars.len(),
            out@ == chars@.take(i as int).map_values(|c: char| safe_char(c)),
        decreases chars.len() - i,
    {
        let c = chars[i];
        let safe = if ('a' <= c && c <= 'z') || ('A' <= c && c <= 'Z') || ('0' <= c && c <= '9')
            || c == '-' || c == '_' {
            c
        } else {
            '_'
        };
        out.push(safe);
        assert(chars@.take(i + 1).map_values(|c: char| safe_char(c)) == chars@.take(
            i as int,
        ).map_values(|c: char| safe_char(c)).push(safe));
        i += 1;
    }
    assert(chars@.take(chars@.len() as int) == chars@);
    out
}

/// The file that a peer's report is saved in.
pub fn report_file_name(peer_name: &str, seconds: u64) -> (r: String)
    ensures
        r@ == "ScreenMirror-peer-diagnostics-"@ + peer_name@.map_values(|c: char| safe_char(c))
            + "-"@ + text::dec(seconds as nat) + ".txt"@,
{
    let mut out = "ScreenMirror-peer-diagnostics-".to_owned();
    out.push_str(&safe_peer_name(peer_name));
    out.push_str("-");
    text::push_dec(&mut out, seconds);
    out.push_str(".txt");
    out
}

/// Passes on what a peer answered, unless it answered nothing.
pub fn received_report(bytes: Vec<u8>) -> (r: Result<Vec<u8>, DiagnosticsError>)
    ensures
        match r {
            Ok(report) => bytes@.len() > 0 && report == bytes,
            Err(error) => bytes@.len() == 0 && error == DiagnosticsError::NoReport,
        },
{
    if bytes.len() == 0 {
        Err(DiagnosticsError::NoReport)
    } else {
        Ok(bytes)
    }
}

/// Passes on what the diagnostics script printed, unless it failed or printed nothing.
pub fn script_report(success: bool, output: String) -> (r: Result<String, DiagnosticsError>)
    ensures
        match r {
            Ok(report) => success && text::trim(output@).len() > 0 && report == output,
            Err(DiagnosticsError::ScriptFailed) => !success,
            Err(DiagnosticsError::NoOutput) => success && text::trim(output@).len() == 0,
            Err(_) => false,
        },
{
    if !success {
        return Err(DiagnosticsError::ScriptFailed);
    }
    if text::trimmed(&output).len() == 0 {
        return Err(DiagnosticsError::NoOutput);
    }
    Ok(output)
}

/// Whatever a peer calls itself, its name makes a file name: it holds letters, digits, `-` and `_`
/// alone, and those of them that it had stay in their places.
pub proof fn law_peer_names_are_safe(peer_name: Seq<char>, i: int)
    requires
        0 <= i < peer_name.len(),
    ensures
        ({
            let safe = peer_name.map_values(|c: char| safe_char(c));
            let c = safe[i];
            let fine = |c: char|
                'a' <= c <= 'z' || 'A' <= c <= 'Z' || '0' <= c <= '9' || c == '-' || c == '_';
            &&& safe.len() == peer_name.len()
            &&& fine(c)
            &&& fine(peer_name[i]) ==> c == peer_name[i]
            &&& !fine(peer_name[i]) ==> c == '_'
        }),
{
}

/// A request is named by the process that makes it and by when it does.
pub proof fn law_requests_are_named_by_process_and_time(process_id: u32, timestamp_ms: u64)
    ensures
        reading::tells(
            request_id_text(process_id as nat, timestamp_ms as nat),
            "diag-"@,
            process_id as nat,
        ),
        text::ends_with(
            request_id_text(process_id as nat, timestamp_ms as nat),
            "-"@ + text::dec(timestamp_ms as nat),
        ),
{
    let id = request_id_text(process_id as nat, timestamp_ms as nat);
    let rest = "-"@ + text::dec(timestamp_ms as nat);
    reveal_strlit("-");
    reading::lemma_tells(Seq::empty(), "diag-"@, process_id as nat, rest);
    assert(Seq::<char>::empty() + "diag-"@ + text::dec(process_id as nat) + rest == id);
    assert(id.subrange(id.len() - rest.len(), id.len() as int) == rest);
}

} // verus!
