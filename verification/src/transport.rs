//! Errors of the Tor transport. The transport itself, which bootstraps a Tor
//! client and opens streams, is network I/O and lives outside this library.

use vstd::prelude::*;

use crate::text::push_str;

verus! {

/// An operating-system I/O error.
#[verifier::external_type_specification]
#[verifier::external_body]
pub struct ExIoError(std::io::Error);

/// Why the transport failed.
#[derive(Debug)]
pub enum TransportError {
    /// The Tor client could not bootstrap.
    Bootstrap(String),
    /// A connection could not be made.
    Connect(String),
    /// An I/O operation failed.
    Io(std::io::Error),
}

/// The text of an I/O error. Calls `ToString::to_string` through its
/// `Display`; what the text says is the operating system's and is not stated.
#[verifier::external_body]
fn io_error_text(e: &std::io::Error) -> (s: String) {
    e.to_string()
}

impl TransportError {
    /// What failed, with the underlying reason.
    pub fn to_string(&self) -> (s: String)
        ensures
            self matches TransportError::Bootstrap(m) ==> s@ == "bootstrap failed: "@ + m@,
            self matches TransportError::Connect(m) ==> s@ == "connection failed: "@ + m@,
            self is Io ==> exists|t: Seq<char>| s@ == "io error: "@ + t,
    {
        let mut s = String::new();
        match self {
            TransportError::Bootstrap(m) => {
                push_str(&mut s, "bootstrap failed: ");
                push_str(&mut s, m.as_str());
            },
            TransportError::Connect(m) => {
                push_str(&mut s, "connection failed: ");
                push_str(&mut s, m.as_str());
            },
            TransportError::Io(e) => {
                push_str(&mut s, "io error: ");
                let t = io_error_text(e);
                push_str(&mut s, t.as_str());
            },
        }
        s
    }

    /// The underlying I/O error, for the `Io` variant.
    pub fn source(&self) -> (r: Option<&std::io::Error>)
        ensures
            r is Some <==> self is Io,
    {
        match self {
            TransportError::Io(e) => Some(e),
            _ => None,
        }
    }
}

impl From<std::io::Error> for TransportError {
    fn from(e: std::io::Error) -> (r: Self) {
        TransportError::Io(e)
    }
}

impl vstd::std_specs::convert::FromSpecImpl<std::io::Error> for TransportError {
    open spec fn obeys_from_spec() -> bool {
        true
    }

    open spec fn from_spec(e: std::io::Error) -> Self {
        TransportError::Io(e)
    }
}

} // verus!
