//! Construction of one probe request: the fixed all-zero payload, the fixed
//! sequence number, and a fresh random session identifier so that replies of
//! concurrent probes cannot be misattributed to one another.

use vstd::prelude::*;

use crate::utils::PAYLOAD_SIZE;

verus! {

/// Relies on rand::random: draws a value from the thread-local generator.
/// Nothing can be promised of the value drawn.
pub assume_specification<T>[ rand::random::<T> ]() -> (r: T)
    where
        rand::distr::StandardUniform: rand::distr::Distribution<T>,
;

/// Everything one probe sends, fixed at call start and discarded after the
/// exchange. Each call builds its own request; no state crosses calls.
pub struct ProbeRequest {
    /// The host string as the caller gave it.
    pub host: String,
    /// The ICMP sequence number; the same constant on every call, since
    /// each call is a one-shot probe with its own session.
    pub sequence: u16,
    /// Random session identifier embedded in the packets, so concurrent
    /// probes to the same target stay distinguishable at the protocol level.
    pub identifier: u16,
    /// The echo payload: all-zero bytes of the fixed length.
    pub payload: Vec<u8>,
}

impl ProbeRequest {
    /// The fixed parts every request must have: the caller's host string
    /// kept as given, the constant sequence number, and the all-zero
    /// payload of the fixed length.
    pub open spec fn wf(&self, host: Seq<char>) -> bool {
        &&& self.host@ == host
        &&& self.sequence == 1
        &&& self.payload@.len() == PAYLOAD_SIZE
        &&& forall|i: int| 0 <= i < self.payload@.len() ==> self.payload@[i] == 0u8
    }
}

/// Builds the request for one probe: payload of `PAYLOAD_SIZE` zero bytes,
/// sequence number 1, and a freshly drawn session identifier. The
/// identifier is random; nothing is stated of its value.
pub fn build_probe_request(host: &str) -> (r: ProbeRequest)
    ensures
        r.wf(host@),
{
    let identifier: u16 = rand::random::<u16>();
    let mut payload: Vec<u8> = Vec::new();
    while payload.len() < PAYLOAD_SIZE
        invariant
            payload@.len() <= PAYLOAD_SIZE,
            forall|i: int| 0 <= i < payload@.len() ==> payload@[i] == 0u8,
        decreases PAYLOAD_SIZE - payload@.len(),
    {
        payload.push(0u8);
    }
    ProbeRequest { host: host.to_owned(), sequence: 1, identifier, payload }
}

} // verus!
