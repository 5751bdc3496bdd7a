//! Core typed data model for network observations and diagnoses.
//!
//! This module is free of any networking code. It is the vocabulary used
//! between the measurement layer and the diagnostic engine. Types that hold
//! text have a mathematical model (their deep view), in which a string is the
//! sequence of its characters.

pub mod decimal;
pub mod diagnosis;
pub mod dns;
pub mod double;
pub mod http;
pub mod latency;
pub mod probe;
pub mod rate;
pub mod tcp;
pub mod tls;

pub use diagnosis::{Confidence, Diagnosis, DiagnosticCategory, Evidence, Severity};
pub use dns::{DnsObservation, DnsRecord, DnsRecordType, DnsRepeatResult, ResolverKind};
pub use double::Double;
pub use http::HttpObservation;
pub use latency::{LatencyStats, LatencySummary};
pub use probe::{FailureCount, ProbeResult, StatusCount};
pub use rate::Rate;
pub use tcp::TcpObservation;
pub use tls::{CertificateSummary, TlsObservation, TlsProtocol};

use vstd::prelude::*;

verus! {

/// A classified low-level failure with a human-readable context message.
#[derive(Debug, PartialEq, Eq)]
pub struct ProbeError {
    /// The classified failure mode.
    pub kind: FailureKind,
    /// Human-readable context, e.g. `connection refused by 1.2.3.4:443`.
    pub message: String,
}

/// The model of a [`ProbeError`].
#[verifier::ext_equal]
pub struct ProbeErrorModel {
    pub kind: FailureKind,
    pub message: Seq<char>,
}

impl DeepView for ProbeError {
    type V = ProbeErrorModel;

    open spec fn deep_view(&self) -> ProbeErrorModel {
        ProbeErrorModel { kind: self.kind, message: self.message@ }
    }
}

impl Clone for ProbeError {
    fn clone(&self) -> (r: Self)
        ensures
            r == *self,
    {
        ProbeError { kind: self.kind, message: self.message.clone() }
    }
}

/// Classification of a network failure into a distinct, observable mode.
///
/// The variants are kept deliberately distinct because a timeout, a reset and
/// a refusal each imply a different failure mechanism and must never be
/// silently collapsed.
#[derive(Debug, Clone, Copy, PartialEq, Eq, Hash, Structural)]
pub enum FailureKind {
    /// Operation did not complete within its configured deadline.
    Timeout,
    /// Destination actively refused the connection (RST from listener).
    ConnectionRefused,
    /// Connection was reset out-of-band during the operation (RST).
    ConnectionReset,
    /// Network reported the destination network as unreachable.
    NetworkUnreachable,
    /// Network reported the destination host as unreachable.
    HostUnreachable,
    /// DNS resolution failed.
    Dns,
    /// TLS handshake failed / was aborted.
    TlsHandshake,
    /// TLS certificate validation failed.
    Certificate,
    /// A protocol-level violation.
    Protocol,
    /// An HTTP-level error.
    Http,
    /// A QUIC (UDP path) failure.
    Quic,
    /// A failure that does not fit a more specific category.
    Other,
    /// The failure could not be characterised.
    Unknown,
}

impl FailureKind {
    /// The human-readable name of the failure mode.
    pub open spec fn text(self) -> Seq<char> {
        match self {
            FailureKind::Timeout => "timeout"@,
            FailureKind::ConnectionRefused => "connection refused"@,
            FailureKind::ConnectionReset => "connection reset"@,
            FailureKind::NetworkUnreachable => "network unreachable"@,
            FailureKind::HostUnreachable => "host unreachable"@,
            FailureKind::Dns => "dns"@,
            FailureKind::TlsHandshake => "tls handshake"@,
            FailureKind::Certificate => "certificate"@,
            FailureKind::Protocol => "protocol"@,
            FailureKind::Http => "http"@,
            FailureKind::Quic => "quic"@,
            FailureKind::Other => "other"@,
            FailureKind::Unknown => "unknown"@,
        }
    }

    /// The human-readable name of the failure mode.
    pub fn to_text(&self) -> (out: &'static str)
        ensures
            out@ == self.text(),
    {
        match self {
            FailureKind::Timeout => "timeout",
            FailureKind::ConnectionRefused => "connection refused",
            FailureKind::ConnectionReset => "connection reset",
            FailureKind::NetworkUnreachable => "network unreachable",
            FailureKind::HostUnreachable => "host unreachable",
            FailureKind::Dns => "dns",
            FailureKind::TlsHandshake => "tls handshake",
            FailureKind::Certificate => "certificate",
            FailureKind::Protocol => "protocol",
            FailureKind::Http => "http",
            FailureKind::Quic => "quic",
            FailureKind::Other => "other",
            FailureKind::Unknown => "unknown",
        }
    }

    /// The position of the mode in the declaration, by which equally frequent
    /// modes are ordered.
    pub open spec fn rank(self) -> int {
        match self {
            FailureKind::Timeout => 0,
            FailureKind::ConnectionRefused => 1,
            FailureKind::ConnectionReset => 2,
            FailureKind::NetworkUnreachable => 3,
            FailureKind::HostUnreachable => 4,
            FailureKind::Dns => 5,
            FailureKind::TlsHandshake => 6,
            FailureKind::Certificate => 7,
            FailureKind::Protocol => 8,
            FailureKind::Http => 9,
            FailureKind::Quic => 10,
            FailureKind::Other => 11,
            FailureKind::Unknown => 12,
        }
    }
}

/// Version of the IP protocol an endpoint uses.
#[derive(Debug, Clone, Copy, PartialEq, Eq, Structural)]
pub enum IpVersion {
    /// IPv4.
    V4,
    /// IPv6.
    V6,
}

/// No two failure modes share a name or a position.
pub proof fn lemma_modes_are_told_apart(a: FailureKind, b: FailureKind)
    ensures
        a.text() == b.text() <==> a == b,
        a.rank() == b.rank() <==> a == b,
{
    reveal_strlit("timeout");
    reveal_strlit("connection refused");
    reveal_strlit("connection reset");
    reveal_strlit("network unreachable");
    reveal_strlit("host unreachable");
    reveal_strlit("dns");
    reveal_strlit("tls handshake");
    reveal_strlit("certificate");
    reveal_strlit("protocol");
    reveal_strlit("http");
    reveal_strlit("quic");
    reveal_strlit("other");
    reveal_strlit("unknown");
    if a != b {
        assert(a.text().len() != b.text().len() || a.text()[0] != b.text()[0]);
    }
}

/// The modes stand in the order of the layers they belong to: the connection, the
/// name, the handshake, the protocols, and last what fits nowhere.
pub proof fn lemma_modes_in_order()
    ensures
        FailureKind::Timeout.rank() < FailureKind::ConnectionRefused.rank() < FailureKind::ConnectionReset.rank()
            < FailureKind::NetworkUnreachable.rank() < FailureKind::HostUnreachable.rank() < FailureKind::Dns.rank()
            < FailureKind::TlsHandshake.rank() < FailureKind::Certificate.rank() < FailureKind::Protocol.rank()
            < FailureKind::Http.rank() < FailureKind::Quic.rank() < FailureKind::Other.rank()
            < FailureKind::Unknown.rank(),
{
}

} // verus!
