use arcium_core::transport::TransportError;
use std::io;

#[test]
fn bootstrap_error_display() {
    let e = TransportError::Bootstrap("no consensus".to_string());
    assert_eq!(e.to_string(), "bootstrap failed: no consensus");
}

#[test]
fn connect_error_display() {
    let e = TransportError::Connect("refused".to_string());
    assert_eq!(e.to_string(), "connection failed: refused");
}

#[test]
fn io_error_display() {
    let io_err = io::Error::new(io::ErrorKind::NotFound, "file missing");
    let e = TransportError::Io(io_err);
    assert_eq!(e.to_string(), "io error: file missing");
}

#[test]
fn io_error_from_conversion() {
    let io_err = io::Error::new(io::ErrorKind::PermissionDenied, "denied");
    let e: TransportError = io_err.into();
    assert!(matches!(e, TransportError::Io(_)));
}

#[test]
fn io_error_exposes_source() {
    let io_err = io::Error::new(io::ErrorKind::BrokenPipe, "broken");
    let e = TransportError::Io(io_err);
    assert!(e.source().is_some(), "Io variant must expose its source");
}
