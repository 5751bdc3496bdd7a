use ip_tools::model::FailureKind;
use ip_tools::net::SocketAddr;
use ip_tools::tcp::{classify, classify_io_error, connect_observation, ConnectOutcome, IoErrorKind};

fn err(code: i32) -> std::io::Error {
    std::io::Error::from_raw_os_error(code)
}

#[test]
fn classifies_refused_by_kind() {
    let e = std::io::Error::new(std::io::ErrorKind::ConnectionRefused, "r");
    assert_eq!(classify_io_error(&e), FailureKind::ConnectionRefused);
}

#[test]
fn classifies_reset_by_kind() {
    let e = std::io::Error::new(std::io::ErrorKind::ConnectionReset, "r");
    assert_eq!(classify_io_error(&e), FailureKind::ConnectionReset);
}

#[test]
fn classifies_timeout_by_kind() {
    let e = std::io::Error::new(std::io::ErrorKind::TimedOut, "t");
    assert_eq!(classify_io_error(&e), FailureKind::Timeout);
}

#[test]
fn classifies_unreachable_by_os_code() {
    assert_eq!(classify_io_error(&err(101)), FailureKind::NetworkUnreachable);
    // macOS variant of ENETUNREACH.
    assert_eq!(classify_io_error(&err(64)), FailureKind::NetworkUnreachable);
    assert_eq!(classify_io_error(&err(113)), FailureKind::HostUnreachable);
    assert_eq!(classify_io_error(&err(65)), FailureKind::HostUnreachable);
    assert_eq!(classify_io_error(&err(110)), FailureKind::Timeout);
    assert_eq!(classify_io_error(&err(104)), FailureKind::ConnectionReset);
    assert_eq!(classify_io_error(&err(111)), FailureKind::ConnectionRefused);
}

#[test]
fn unknown_os_error_is_other() {
    assert_eq!(classify_io_error(&err(9999)), FailureKind::Other);
}

#[test]
fn the_kind_decides_before_the_code() {
    assert_eq!(classify(IoErrorKind::TimedOut, Some(111)), FailureKind::Timeout);
}

#[test]
fn a_connection_is_observed_with_its_latency() {
    let d = SocketAddr::parse("192.0.2.1:443").unwrap();
    let o = connect_observation(d, ConnectOutcome::Connected(7));
    assert!(o.success);
    assert_eq!(o.latency_ms, Some(7));
    assert!(o.failure.is_none());
}
