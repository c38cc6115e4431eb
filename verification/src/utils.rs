//! The decisions of one probe: which ICMP variant fits a resolved address,
//! how a lookup outcome becomes a single address or a resolution error, and
//! how the outcome of the echo exchange becomes the one result record.

use vstd::prelude::*;

use crate::addr::{is_ip_address, spec_parse_ip, IpAddress};
use crate::types::{IcmpReply, PingError, PingResult, ProbeOutcome};

verus! {

/// What resolution decides for a host string: a literal resolves on the
/// spot, anything else needs one lookup through the system resolver.
#[derive(Clone, Copy, PartialEq, Eq, Structural, Debug)]
pub enum ResolveAction {
    /// The host string is an IP literal; this is its address, and no
    /// lookup of any kind is to be performed.
    Resolved(IpAddress),
    /// The host string is no literal; it must go to the system resolver.
    NeedsLookup,
}

/// Decides how a host string resolves: exactly the strings of the literal
/// grammars resolve immediately, to their own address; every other string
/// is referred to a lookup.
pub fn resolve_host(host: &str) -> (r: ResolveAction)
    ensures
        (spec_parse_ip(host@) matches Some(ip) ==> r == ResolveAction::Resolved(ip)),
        (spec_parse_ip(host@) is None ==> r == ResolveAction::NeedsLookup),
{
    match is_ip_address(host) {
        Some(ip) => ResolveAction::Resolved(ip),
        None => ResolveAction::NeedsLookup,
    }
}

/// Payload length of every echo request, in bytes.
pub const PAYLOAD_SIZE: usize = 56;

/// Deadline for the echo exchange, in seconds. Only the exchange itself is
/// time-boxed; name resolution and session setup run before the clock starts.
pub const PING_TIMEOUT_SECS: u64 = 5;

/// The ICMP protocol variant a session must be built with. Sending the
/// wrong variant for the address family is a protocol violation, so the
/// choice is a function of the family alone.
#[derive(Clone, Copy, PartialEq, Eq, Structural, Debug)]
pub enum IcmpKind {
    V4,
    V6,
}

/// Selects the ICMP variant matching the address family.
pub fn icmp_kind_for(ip: &IpAddress) -> (r: IcmpKind)
    ensures
        r == IcmpKind::V4 <==> ip is V4,
        r == IcmpKind::V6 <==> ip is V6,
{
    match ip {
        IpAddress::V4(_) => IcmpKind::V4,
        IpAddress::V6(_) => IcmpKind::V6,
    }
}

/// The ICMP sequence number a reply carries, widened for the result record.
pub open spec fn reply_seq(reply: IcmpReply) -> u32 {
    match reply {
        IcmpReply::V4 { sequence, .. } => sequence as u32,
        IcmpReply::V6 { sequence, .. } => sequence as u32,
    }
}

/// The hop count a reply carries: the optional IPv4 time-to-live, or the
/// IPv6 hop limit, which is always present.
pub open spec fn reply_ttl(reply: IcmpReply) -> Option<u32> {
    match reply {
        IcmpReply::V4 { ttl: t, .. } => match t {
            Some(v) => Some(v as u32),
            None => None,
        },
        IcmpReply::V6 { max_hop_limit, .. } => Some(max_hop_limit as u32),
    }
}

/// The record a failed probe must equal: no bytes counted as sent, no hop
/// count, no elapsed time, and exactly the given message.
pub open spec fn is_error_result(
    r: PingResult,
    host: Seq<char>,
    ip: Seq<char>,
    seq: u32,
    error: Seq<char>,
) -> bool {
    &&& r.host@ == host
    &&& r.ip@ == ip
    &&& r.bytes == 0
    &&& r.icmp_seq == seq
    &&& r.ttl is None
    &&& r.time_ns == 0
    &&& r.success == false
    &&& r.error matches Some(m) && m@ == error
}

/// The record a matched reply must equal: the payload length actually sent,
/// the sequence and hop count read from the reply, the elapsed time the
/// transport measured, and no error.
pub open spec fn is_success_result(
    r: PingResult,
    host: Seq<char>,
    ip: Seq<char>,
    payload_len: int,
    elapsed_ns: u64,
    reply: IcmpReply,
) -> bool {
    &&& r.host@ == host
    &&& r.ip@ == ip
    &&& r.bytes == payload_len
    &&& r.icmp_seq == reply_seq(reply)
    &&& r.ttl == reply_ttl(reply)
    &&& r.time_ns == elapsed_ns
    &&& r.success == true
    &&& r.error is None
}

/// Builds the result of a probe that failed after resolution: a protocol
/// error or a timeout. Total, and always yields a well-formed record.
pub fn create_error_result(host: &str, ip: &str, seq: u32, error: String) -> (r: PingResult)
    ensures
        is_error_result(r, host@, ip@, seq, error@),
        r.valid(),
{
    PingResult {
        host: host.to_owned(),
        ip: ip.to_owned(),
        bytes: 0,
        icmp_seq: seq,
        ttl: None,
        time_ns: 0,
        success: false,
        error: Some(error),
    }
}

/// Builds the result of a probe whose reply matched. The sequence number
/// and hop count are read from the reply itself, per its address family.
pub fn create_success_result(
    host: &str,
    pinger_host: &str,
    payload_len: usize,
    _seq: u32,
    elapsed_ns: u64,
    reply: &IcmpReply,
) -> (r: PingResult)
    requires
        payload_len <= u32::MAX,
    ensures
        is_success_result(r, host@, pinger_host@, payload_len as int, elapsed_ns, *reply),
        r.valid(),
{
    let (icmp_seq, ttl): (u32, Option<u32>) = match reply {
        IcmpReply::V4 { sequence, ttl } => (
            *sequence as u32,
            match ttl {
                Some(t) => Some(*t as u32),
                None => None,
            },
        ),
        IcmpReply::V6 { sequence, max_hop_limit } => (*sequence as u32, Some(*max_hop_limit as u32)),
    };
    PingResult {
        host: host.to_owned(),
        ip: pinger_host.to_owned(),
        bytes: payload_len as u32,
        icmp_seq,
        ttl,
        time_ns: elapsed_ns,
        success: true,
        error: None,
    }
}

/// Folds the outcome of one echo exchange into the result record: a matched
/// reply becomes a success reported from the transport's perspective
/// (`pinger_host`); a protocol error keeps the transport's message verbatim;
/// deadline expiry reports the literal timeout message. Total: every outcome
/// yields a well-formed record.
pub fn execute_ping(
    host: &str,
    ip: &str,
    pinger_host: &str,
    seq: u16,
    payload_len: usize,
    outcome: ProbeOutcome,
) -> (r: PingResult)
    requires
        payload_len <= u32::MAX,
    ensures
        (outcome matches ProbeOutcome::Matched { reply, elapsed_ns } ==> is_success_result(
            r,
            host@,
            pinger_host@,
            payload_len as int,
            elapsed_ns,
            reply,
        )),
        (outcome matches ProbeOutcome::ProtocolError { message } ==> is_error_result(
            r,
            host@,
            ip@,
            seq as u32,
            message@,
        )),
        (outcome is TimedOut ==> is_error_result(r, host@, ip@, seq as u32, "Timeout"@)),
        r.valid(),
{
    match outcome {
        ProbeOutcome::Matched { reply, elapsed_ns } => create_success_result(
            host,
            pinger_host,
            payload_len,
            seq as u32,
            elapsed_ns,
            &reply,
        ),
        ProbeOutcome::ProtocolError { message } => create_error_result(
            host,
            ip,
            seq as u32,
            message,
        ),
        ProbeOutcome::TimedOut => create_error_result(
            host,
            ip,
            seq as u32,
            String::from_str("Timeout"),
        ),
    }
}

/// Reduces a finished name lookup to a single address: the first address in
/// the order the system resolver returned them, or a resolution error when
/// the lookup failed or returned none.
pub fn resolve_lookup(lookup: Result<Vec<IpAddress>, String>) -> (r: Result<IpAddress, PingError>)
    ensures
        (lookup matches Ok(addrs) ==> if addrs@.len() > 0 {
            r == Ok::<IpAddress, PingError>(addrs@[0])
        } else {
            (r matches Err(PingError::Resolution(m)) && m@ == "No valid IP address found"@)
        }),
        (lookup matches Err(e) ==> (r matches Err(PingError::Resolution(m)) && m@
            == "DNS lookup failed: "@ + e@)),
{
    match lookup {
        Ok(addrs) => {
            if addrs.len() > 0 {
                Ok(addrs[0])
            } else {
                Err(PingError::Resolution(String::from_str("No valid IP address found")))
            }
        },
        Err(e) => {
            let msg = String::from_str("DNS lookup failed: ").concat(e.as_str());
            Err(PingError::Resolution(msg))
        },
    }
}

} // verus!
