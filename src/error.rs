use vstd::prelude::*;

use crate::text::push_str;

verus! {

/// The errors of the library.
#[derive(Debug)]
pub enum Error {
    /// An I/O failure, with the system's description of it.
    Io(String),
    Config(String),
    Capture(String),
    Parse(String),
    Dpdk(String),
    Xdp(String),
    Protocol(String),
    Output(String),
    Other(String),
    /// `start` was called on a driver that is already running.
    DriverAlreadyRunning,
}

/// The text an error is shown as.
pub open spec fn error_text(e: &Error) -> Seq<char> {
    match e {
        Error::Io(m) => "IO error: "@ + m@,
        Error::Config(m) => "configuration error: "@ + m@,
        Error::Capture(m) => "capture error: "@ + m@,
        Error::Parse(m) => "parse error: "@ + m@,
        Error::Dpdk(m) => "DPDK error: "@ + m@,
        Error::Xdp(m) => "XDP error: "@ + m@,
        Error::Protocol(m) => "protocol error: "@ + m@,
        Error::Output(m) => "output error: "@ + m@,
        Error::Other(m) => "error: "@ + m@,
        Error::DriverAlreadyRunning => "error: driver already running"@,
    }
}

impl Error {
    /// The error as text.
    pub fn message(&self) -> (r: String)
        ensures
            r@ == error_text(self),
    {
        let mut s = String::new();
        match self {
            Error::Io(m) => {
                push_str(&mut s, "IO error: ");
                push_str(&mut s, m.as_str());
            },
            Error::Config(m) => {
                push_str(&mut s, "configuration error: ");
                push_str(&mut s, m.as_str());
            },
            Error::Capture(m) => {
                push_str(&mut s, "capture error: ");
                push_str(&mut s, m.as_str());
            },
            Error::Parse(m) => {
                push_str(&mut s, "parse error: ");
                push_str(&mut s, m.as_str());
            },
            Error::Dpdk(m) => {
                push_str(&mut s, "DPDK error: ");
                push_str(&mut s, m.as_str());
            },
            Error::Xdp(m) => {
                push_str(&mut s, "XDP error: ");
                push_str(&mut s, m.as_str());
            },
            Error::Protocol(m) => {
                push_str(&mut s, "protocol error: ");
                push_str(&mut s, m.as_str());
            },
            Error::Output(m) => {
                push_str(&mut s, "output error: ");
                push_str(&mut s, m.as_str());
            },
            Error::Other(m) => {
                push_str(&mut s, "error: ");
                push_str(&mut s, m.as_str());
            },
            Error::DriverAlreadyRunning => {
                push_str(&mut s, "error: driver already running");
            },
        }
        proof {
            assert(Seq::<char>::empty() + "error: driver already running"@ =~= "error: driver already running"@);
        }
        s
    }
}

impl From<String> for Error {
    fn from(err: String) -> (r: Error)
        ensures
            r == Error::Other(err),
    {
        Error::Other(err)
    }
}

impl vstd::std_specs::convert::FromSpecImpl<String> for Error {
    open spec fn obeys_from_spec() -> bool {
        true
    }

    open spec fn from_spec(err: String) -> Error {
        Error::Other(err)
    }
}

/// The result type of the library.
pub type Result<T> = core::result::Result<T, Error>;

} // verus!
