//! A network observability and diagnostics toolkit.
//!
//! The library works on what was measured when a destination was reached at
//! each protocol layer (DNS, TCP, TLS, HTTP): it decides what to send and what
//! to do next, classifies what comes back into typed observations, and then,
//! separately, interprets them. The diagnostic engine is deterministic and
//! does no network I/O.
//!
//! A failure is never taken for censorship merely because a connection fails:
//! the engine reports evidence and confidence, and lists the other
//! explanations that remain consistent with the evidence.

pub mod cli;
pub mod diagnostics;
pub mod dns;
pub mod error;
pub mod http;
pub mod http_common;
pub mod http_probe;
pub mod model;
pub mod net;
pub mod probe;
pub mod report;
pub mod route;
pub mod style;
pub mod target;
pub mod tcp;
pub mod text;

pub use diagnostics::{diagnose, DiagnosticInput};
pub use model::{
    CertificateSummary, Confidence, Diagnosis, DiagnosticCategory, DnsObservation, DnsRecord, DnsRecordType, Evidence,
    FailureKind, HttpObservation, IpVersion, LatencyStats, ProbeError, ProbeResult, ResolverKind, Severity,
    TcpObservation, TlsObservation,
};
pub use route::{aggregate_runs, RouteHop, RouteHopStats, RouteRepeat, TracerouteConfig};
