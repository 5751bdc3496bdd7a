//! HTTP observation types.

use super::tls::TlsObservation;
use super::ProbeError;
use crate::net::SocketAddr;
use vstd::prelude::*;

verus! {

/// A single HTTPS/HTTP request to one destination socket address.
///
/// `tls` carries the underlying TLS handshake details (when the handshake
/// succeeded) so a single HTTP probe also reveals the negotiated TLS version,
/// cipher, ALPN and certificate. `protocol` identifies the wire protocol
/// actually used (e.g. `HTTP/1.1`).
#[derive(Debug, Clone, PartialEq, Eq)]
pub struct HttpObservation {
    /// Destination socket address probed.
    pub destination: SocketAddr,
    /// Host used for SNI and the `Host` header.
    pub host: String,
    /// HTTP method used (e.g. `GET`, `HEAD`).
    pub method: String,
    /// Request path probed.
    pub path: String,
    /// Underlying TLS handshake when it succeeded.
    pub tls: Option<TlsObservation>,
    /// Wire protocol, e.g. `HTTP/1.1`.
    pub protocol: Option<String>,
    /// HTTP response status code.
    pub status: Option<u16>,
    /// `Location` header (redirect target), when present.
    pub location: Option<String>,
    /// Recorded response headers, in order.
    pub headers: Vec<(String, String)>,
    /// Response body bytes read (capped); `None` when the body did not end.
    pub body_bytes: Option<u64>,
    /// Whether the body reading stopped at the read cap.
    pub body_capped: bool,
    /// The beginning of the body as text.
    pub body_snippet: Option<String>,
    /// Overall latency (TLS + HTTP) in milliseconds on success.
    pub latency_ms: Option<u64>,
    /// Time from the request to the response headers, in milliseconds.
    pub ttfb_ms: Option<u64>,
    /// Classified failure mode and context, when not successful.
    pub failure: Option<ProbeError>,
}

} // verus!
