//! Core of a one-shot ICMP echo probe.
//!
//! One call resolves a host string to a single address, sends one echo
//! request bounded by a fixed deadline, and folds the outcome (matched
//! reply, protocol error, or timeout) into one immutable result record.
//! Everything that decides or computes lives here with a contract; the
//! raw-socket and DNS I/O that drives a probe is left to the surrounding
//! binary, which feeds events back into these functions.

pub mod addr;
pub mod ping;
pub mod types;
pub mod utils;
