//! TLS observation types.

use super::ProbeError;
use crate::net::SocketAddr;
use vstd::prelude::*;

verus! {

/// Which TLS protocol versions a client offers.
#[derive(Debug, Clone, Copy, PartialEq, Eq, Structural)]
pub enum TlsProtocol {
    /// The defaults of the TLS implementation.
    Auto,
    /// TLS 1.2 only.
    Tls12,
    /// TLS 1.3 only.
    Tls13,
}

/// Summary of the peer-end entity certificate presented during the handshake.
#[derive(Debug, Clone, PartialEq, Eq)]
pub struct CertificateSummary {
    /// Raw subject (DN).
    pub subject: String,
    /// Raw issuer (DN).
    pub issuer: String,
    /// `notBefore` as an RFC 3339 UTC timestamp, when available.
    pub not_before_utc: Option<String>,
    /// `notAfter` as an RFC 3339 UTC timestamp, when available.
    pub not_after_utc: Option<String>,
    /// Subject Alternative Names (hostnames / IPs / emails / URIs) that the
    /// certificate is valid for, in certificate order.
    pub sans: Vec<String>,
}

/// A single TLS handshake to one destination socket address.
///
/// `sni` records which server name was presented, independently of the
/// address connected to. `version`/`cipher`/`alpn`/`certificate` are only
/// populated on success.
#[derive(Debug, Clone, PartialEq, Eq)]
pub struct TlsObservation {
    /// Destination socket address probed.
    pub destination: SocketAddr,
    /// Server Name Indication presented in the `ClientHello`.
    pub sni: String,
    /// Whether the TLS handshake completed.
    pub success: bool,
    /// Negotiated TLS version, e.g. `TLSv1.3`.
    pub version: Option<String>,
    /// Negotiated cipher suite.
    pub cipher: Option<String>,
    /// Negotiated ALPN protocol (e.g. `h2`, `http/1.1`).
    pub alpn: Option<String>,
    /// Peer certificate summary.
    pub certificate: Option<CertificateSummary>,
    /// Handshake latency in milliseconds on success.
    pub latency_ms: Option<u64>,
    /// Classified failure mode and context, when not successful.
    pub failure: Option<ProbeError>,
}

} // verus!
