//! Error types for the network diagnostics toolkit.
//!
//! Every error preserves context: the operation, the destination, the
//! protocol layer and (where available) the text of the underlying cause.

use crate::net::SocketAddr;
use crate::text::{debug_text, group_occurrence, has_text, millis, millis_text, quoted};
use vstd::prelude::*;

verus! {

/// Top-level error type of the toolkit.
#[allow(inconsistent_fields)]
#[derive(Debug, PartialEq, Eq)]
pub enum DiagError {
    /// A DNS lookup failed.
    Dns { hostname: String, kind: String, source: String },
    /// A DNS client could not be constructed.
    DnsClient(String),
    /// A TCP connect failed.
    Tcp { destination: SocketAddr, source: String },
    /// An operation exceeded its deadline.
    Timeout { operation: String, destination: String, timeout_ms: u64 },
    /// The target could not be parsed.
    InvalidTarget { input: String, reason: String },
    /// A configuration problem.
    Config(String),
}

impl DiagError {
    /// The message of the error.
    pub open spec fn text(self) -> Seq<char> {
        match self {
            DiagError::Dns { hostname, kind, source } => "dns lookup of "@ + hostname@ + " ("@ + kind@ + ") failed: "@
                + source@,
            DiagError::DnsClient(message) => "failed to construct DNS client: "@ + message@,
            DiagError::Tcp { destination, source } => "tcp connect to "@ + destination.text() + " failed: "@ + source@,
            DiagError::Timeout { operation, destination, timeout_ms } => operation@ + " to "@ + destination@
                + " timed out after "@ + millis(timeout_ms),
            DiagError::InvalidTarget { input, reason } => "invalid target "@ + quoted(input@) + ": "@ + reason@,
            DiagError::Config(message) => message@,
        }
    }

    /// The message of the error.
    pub fn to_text(&self) -> (out: String)
        ensures
            out@ == self.text(),
    {
        match self {
            DiagError::Dns { hostname, kind, source } => {
                let mut out = "dns lookup of ".to_owned();
                out.append(hostname.as_str());
                out.append(" (");
                out.append(kind.as_str());
                out.append(") failed: ");
                out.append(source.as_str());
                out
            },
            DiagError::DnsClient(message) => {
                let mut out = "failed to construct DNS client: ".to_owned();
                out.append(message.as_str());
                out
            },
            DiagError::Tcp { destination, source } => {
                let mut out = "tcp connect to ".to_owned();
                out.append(destination.to_text().as_str());
                out.append(" failed: ");
                out.append(source.as_str());
                out
            },
            DiagError::Timeout { operation, destination, timeout_ms } => {
                let mut out = operation.clone();
                out.append(" to ");
                out.append(destination.as_str());
                out.append(" timed out after ");
                out.append(millis_text(*timeout_ms).as_str());
                out
            },
            DiagError::InvalidTarget { input, reason } => {
                let mut out = "invalid target ".to_owned();
                out.append(debug_text(input.as_str()).as_str());
                out.append(": ");
                out.append(reason.as_str());
                out
            },
            DiagError::Config(message) => message.clone(),
        }
    }
}

/// The message of an error keeps its context: the operation, the destination and
/// the text of the cause.
pub proof fn lemma_message_keeps_the_context(e: DiagError)
    ensures
        match e {
            DiagError::Dns { hostname, kind, source } => has_text(e.text(), hostname@) && has_text(e.text(), kind@)
                && has_text(e.text(), source@),
            DiagError::DnsClient(message) => has_text(e.text(), message@),
            DiagError::Tcp { destination, source } => has_text(e.text(), destination.text()) && has_text(
                e.text(),
                source@,
            ),
            DiagError::Timeout { operation, destination, timeout_ms } => has_text(e.text(), operation@) && has_text(
                e.text(),
                destination@,
            ) && has_text(e.text(), millis(timeout_ms)),
            DiagError::InvalidTarget { input, reason } => has_text(e.text(), quoted(input@)) && has_text(
                e.text(),
                reason@,
            ),
            DiagError::Config(message) => e.text() == message@,
        },
{
    broadcast use group_occurrence;

}

} // verus!
