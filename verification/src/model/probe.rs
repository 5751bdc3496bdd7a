//! Repeated-probe result types.

use super::latency::LatencySummary;
use super::rate::Rate;
use super::FailureKind;
use crate::net::SocketAddr;
use vstd::prelude::*;

verus! {

/// A single failure-mode count within a repeated probe.
#[derive(Debug, Clone, Copy, PartialEq, Eq, Structural)]
pub struct FailureCount {
    /// The classified failure mode.
    pub kind: FailureKind,
    /// Number of attempts that failed this way.
    pub count: usize,
}

/// A single HTTP status-code count within a repeated HTTP probe.
///
/// Present only for the HTTP repeat probes; the transport-repeat probes have
/// an empty list. Surfacing the observed statuses lets a repeat probe reveal
/// status flapping independently of the transport-success semantics (a
/// completed response with any status counts as a successful exchange).
#[derive(Debug, Clone, Copy, PartialEq, Eq, Structural)]
pub struct StatusCount {
    /// The HTTP response status code observed.
    pub status: u16,
    /// How many attempts returned that status.
    pub count: usize,
}

/// Aggregated result of repeatedly probing one destination socket address.
#[derive(Debug, Clone)]
pub struct ProbeResult {
    /// Destination socket address probed.
    pub destination: SocketAddr,
    /// Total attempts.
    pub attempts: usize,
    /// Successful attempts.
    pub successes: usize,
    /// Failed attempts.
    pub failures: usize,
    /// Success rate, between zero and one.
    pub success_rate: Rate,
    /// Latency statistics over the successful attempts.
    pub latency: LatencySummary,
    /// Time-to-first-byte statistics over the successful HTTP attempts; empty
    /// for the transport-repeat probes.
    pub ttfb: LatencySummary,
    /// Failure distribution (count per failure kind).
    pub failure_counts: Vec<FailureCount>,
    /// HTTP status-code distribution over the attempts (empty for the
    /// transport-repeat probes).
    pub status_counts: Vec<StatusCount>,
}

} // verus!
