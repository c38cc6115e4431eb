//! Data carried through one probe: the reply as the transport reported it,
//! the outcome of the exchange, the result record handed to the caller, and
//! the call-level errors raised before any packet is sent.

use vstd::prelude::*;

verus! {

/// What the transport read out of a matched echo reply, per address family.
/// An IPv4 reply carries an optional time-to-live; an IPv6 reply carries a
/// hop limit, which serves the same role and surfaces through the same field.
#[derive(Clone, Copy, PartialEq, Eq, Structural, Debug)]
pub enum IcmpReply {
    V4 { sequence: u16, ttl: Option<u8> },
    V6 { sequence: u16, max_hop_limit: u8 },
}

/// Outcome of one echo exchange. Exactly one variant is produced per call:
/// a matched reply with the elapsed time the transport measured, a
/// protocol-level failure reported before the deadline, or deadline expiry.
#[derive(Debug)]
pub enum ProbeOutcome {
    Matched { reply: IcmpReply, elapsed_ns: u64 },
    ProtocolError { message: String },
    TimedOut,
}

/// A failure raised before any echo request is sent. Such a failure is the
/// call's own error: no [`PingResult`] exists for it.
#[derive(Debug)]
pub enum PingError {
    /// The host string could not be turned into an address.
    Resolution(String),
    /// The raw ICMP session could not be constructed.
    Transport(String),
}

impl PingError {
    /// The human-readable message carried by either variant.
    pub fn message(&self) -> (r: &String)
        ensures
            r@ == self.message_view(),
    {
        match self {
            PingError::Resolution(m) => m,
            PingError::Transport(m) => m,
        }
    }

    /// The message text of either variant, as a sequence of characters.
    pub open spec fn message_view(&self) -> Seq<char> {
        match self {
            PingError::Resolution(m) => m@,
            PingError::Transport(m) => m@,
        }
    }
}

/// Result record of one probe, immutable once built.
///
/// Round-trip time is kept as whole nanoseconds; a caller that wants
/// fractional milliseconds divides at the edge.
#[derive(Debug)]
pub struct PingResult {
    /// The original host string as the caller gave it, never rewritten.
    pub host: String,
    /// Textual address the exchange spoke to; on failure, the address that
    /// was resolved before the attempt.
    pub ip: String,
    /// Payload length actually sent; zero on a failure path that sent nothing.
    pub bytes: u32,
    /// The ICMP sequence number used for this probe.
    pub icmp_seq: u32,
    /// Time-to-live (IPv4) or hop limit (IPv6) from the reply; present only
    /// on success, and even then only when the reply carried one.
    pub ttl: Option<u32>,
    /// Round-trip time in nanoseconds; zero when no reply was received.
    pub time_ns: u64,
    /// True exactly when a matching reply arrived before the deadline.
    pub success: bool,
    /// Failure message; present exactly when `success` is false.
    pub error: Option<String>,
}

impl PingResult {
    /// The shape every result must have: `success` holds exactly when no
    /// error message is present, a hop count is reported only on success,
    /// and a failed probe reports no elapsed time and no bytes sent.
    pub open spec fn valid(&self) -> bool {
        &&& self.success <==> self.error is None
        &&& self.ttl is Some ==> self.success
        &&& !self.success ==> self.time_ns == 0 && self.bytes == 0
    }
}

} // verus!
