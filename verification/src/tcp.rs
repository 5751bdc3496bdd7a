//! TCP connectivity probes: classifying connect failures and building the
//! observation of one attempt.

use crate::model::{FailureKind, ProbeError, TcpObservation};
use crate::net::SocketAddr;
use crate::text::{group_occurrence, has_text, millis, millis_text};
use vstd::prelude::*;

verus! {

/// The standard library's I/O error.
#[verifier::external_type_specification]
#[verifier::external_body]
pub struct ExIoError(std::io::Error);

/// The I/O error kinds that decide a classification.
#[derive(Debug, Clone, Copy, PartialEq, Eq, Structural)]
pub enum IoErrorKind {
    ConnectionRefused,
    ConnectionReset,
    TimedOut,
    /// Any other kind.
    Other,
}

/// The kind that [`error_kind`] reports for an I/O error.
pub uninterp spec fn io_kind(e: std::io::Error) -> IoErrorKind;

/// The code that [`error_code`] reports for an I/O error.
pub uninterp spec fn io_code(e: std::io::Error) -> Option<i32>;

/// `std::io::Error::kind`, with the kinds that do not matter here taken
/// together.
#[verifier::external_body]
fn error_kind(e: &std::io::Error) -> (kind: IoErrorKind)
    ensures
        kind == io_kind(*e),
{
    match e.kind() {
        std::io::ErrorKind::ConnectionRefused => IoErrorKind::ConnectionRefused,
        std::io::ErrorKind::ConnectionReset => IoErrorKind::ConnectionReset,
        std::io::ErrorKind::TimedOut => IoErrorKind::TimedOut,
        _ => IoErrorKind::Other,
    }
}

/// `std::io::Error::raw_os_error`: the operating system's error code, if there
/// is one.
#[verifier::external_body]
fn error_code(e: &std::io::Error) -> (code: Option<i32>)
    ensures
        code == io_code(*e),
{
    e.raw_os_error()
}

/// The failure mode of an I/O error kind and operating-system code.
pub open spec fn io_failure(kind: IoErrorKind, code: Option<i32>) -> FailureKind {
    match kind {
        IoErrorKind::ConnectionRefused => FailureKind::ConnectionRefused,
        IoErrorKind::ConnectionReset => FailureKind::ConnectionReset,
        IoErrorKind::TimedOut => FailureKind::Timeout,
        IoErrorKind::Other => match code {
            None => FailureKind::Other,
            Some(c) => if c == 101 || c == 64 {
                FailureKind::NetworkUnreachable
            } else if c == 113 || c == 65 {
                FailureKind::HostUnreachable
            } else if c == 110 {
                FailureKind::Timeout
            } else if c == 104 {
                FailureKind::ConnectionReset
            } else if c == 111 {
                FailureKind::ConnectionRefused
            } else {
                FailureKind::Other
            },
        },
    }
}

/// Classify an I/O error kind and operating-system code.
///
/// The kind covers refused/reset/timeout. Unreachable conditions have no
/// stable kind, so they are recovered from the code (Linux and macOS values).
pub fn classify(kind: IoErrorKind, code: Option<i32>) -> (r: FailureKind)
    ensures
        r == io_failure(kind, code),
{
    match kind {
        IoErrorKind::ConnectionRefused => FailureKind::ConnectionRefused,
        IoErrorKind::ConnectionReset => FailureKind::ConnectionReset,
        IoErrorKind::TimedOut => FailureKind::Timeout,
        IoErrorKind::Other => match code {
            // ENETUNREACH: 101 = Linux, 64 = macOS.
            Some(101) | Some(64) => FailureKind::NetworkUnreachable,
            // EHOSTUNREACH: 113 = Linux, 65 = macOS.
            Some(113) | Some(65) => FailureKind::HostUnreachable,
            // ETIMEDOUT
            Some(110) => FailureKind::Timeout,
            // ECONNRESET
            Some(104) => FailureKind::ConnectionReset,
            // ECONNREFUSED
            Some(111) => FailureKind::ConnectionRefused,
            _ => FailureKind::Other,
        },
    }
}

/// Classify an OS I/O error into a [`FailureKind`].
pub fn classify_io_error(e: &std::io::Error) -> (r: FailureKind)
    ensures
        r == io_failure(io_kind(*e), io_code(*e)),
{
    classify(error_kind(e), error_code(e))
}

/// How a connect attempt ended.
#[derive(Debug)]
pub enum ConnectOutcome {
    /// Connected after so many milliseconds.
    Connected(u64),
    /// Failed with this classified mode and message.
    Failed(FailureKind, String),
    /// Did not finish within so many milliseconds.
    TimedOut(u64),
}

/// The failure a connect attempt is reported with.
pub open spec fn connect_failure(destination: SocketAddr, outcome: ConnectOutcome) -> Option<(FailureKind, Seq<char>)> {
    match outcome {
        ConnectOutcome::Connected(_) => None,
        ConnectOutcome::Failed(kind, message) => Some((kind, message@)),
        ConnectOutcome::TimedOut(ms) => Some(
            (FailureKind::Timeout, "connect to "@ + destination.text() + " timed out after "@ + millis(ms)),
        ),
    }
}

/// Build the observation of one connect attempt from how it ended.
pub fn connect_observation(destination: SocketAddr, outcome: ConnectOutcome) -> (r: TcpObservation)
    ensures
        r.destination == destination,
        r.success == (outcome is Connected),
        r.latency_ms == (match outcome {
            ConnectOutcome::Connected(ms) => Some(ms),
            _ => None,
        }),
        r.failure is Some <==> connect_failure(destination, outcome) is Some,
        r.failure matches Some(f) ==> connect_failure(destination, outcome) == Some((f.kind, f.message@)),
{
    match outcome {
        ConnectOutcome::Connected(ms) => TcpObservation {
            destination,
            success: true,
            latency_ms: Some(ms),
            failure: None,
        },
        ConnectOutcome::Failed(kind, message) => TcpObservation {
            destination,
            success: false,
            latency_ms: None,
            failure: Some(ProbeError { kind, message }),
        },
        ConnectOutcome::TimedOut(ms) => {
            let mut message = "connect to ".to_owned();
            message.append(destination.to_text().as_str());
            message.append(" timed out after ");
            message.append(millis_text(ms).as_str());
            TcpObservation {
                destination,
                success: false,
                latency_ms: None,
                failure: Some(ProbeError { kind: FailureKind::Timeout, message }),
            }
        },
    }
}

/// A connect failure has the mode that the system reported: by its kind where
/// it names one, and otherwise by its code, with the codes of the supported
/// systems for an unreachable network and an unreachable host.
pub proof fn lemma_connect_failures_keep_their_mode(kind: IoErrorKind, code: Option<i32>)
    ensures
        kind == IoErrorKind::ConnectionRefused ==> io_failure(kind, code) == FailureKind::ConnectionRefused,
        kind == IoErrorKind::ConnectionReset ==> io_failure(kind, code) == FailureKind::ConnectionReset,
        kind == IoErrorKind::TimedOut ==> io_failure(kind, code) == FailureKind::Timeout,
        io_failure(kind, code) == FailureKind::NetworkUnreachable <==> kind == IoErrorKind::Other && (code == Some(101i32)
            || code == Some(64i32)),
        io_failure(kind, code) == FailureKind::HostUnreachable <==> kind == IoErrorKind::Other && (code == Some(113i32)
            || code == Some(65i32)),
        io_failure(kind, code) == FailureKind::ConnectionRefused <==> kind == IoErrorKind::ConnectionRefused || (kind
            == IoErrorKind::Other && code == Some(111i32)),
        io_failure(kind, code) == FailureKind::ConnectionReset <==> kind == IoErrorKind::ConnectionReset || (kind
            == IoErrorKind::Other && code == Some(104i32)),
        io_failure(kind, code) == FailureKind::Timeout <==> kind == IoErrorKind::TimedOut || (kind == IoErrorKind::Other
            && code == Some(110i32)),
{
}

/// A connect that completed has no failure, one that failed keeps its mode and
/// message, and one that ran out of time is a timeout.
pub proof fn lemma_connect_outcome(destination: SocketAddr, outcome: ConnectOutcome)
    ensures
        connect_failure(destination, outcome) is None <==> outcome is Connected,
        outcome matches ConnectOutcome::Failed(kind, message) ==> connect_failure(destination, outcome) == Some(
            (kind, message@),
        ),
        outcome is TimedOut ==> (connect_failure(destination, outcome) matches Some((kind, message)) && kind
            == FailureKind::Timeout),
{
}

/// A connect that ran out of time says where it was to go and how long was waited.
pub proof fn lemma_connect_timeout_names_the_destination(destination: SocketAddr, ms: u64)
    ensures
        connect_failure(destination, ConnectOutcome::TimedOut(ms)) matches Some((kind, message)) && has_text(
            message,
            destination.text() + " timed out after "@ + millis(ms),
        ),
{
    broadcast use group_occurrence;

    let p = destination.text() + " timed out after "@ + millis(ms);
    assert("connect to "@ + destination.text() + " timed out after "@ + millis(ms) =~= "connect to "@ + p);
}

} // verus!
