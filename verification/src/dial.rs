//! What to make of connecting to a peer.
use vstd::prelude::*;

use crate::addr::SocketAddr;
use crate::io::ErrorKind;

verus! {

/// Maximum number of seconds to wait when reading from a socket.
pub const READ_TIMEOUT_SECS: u64 = 6;

/// Maximum number of seconds to wait when writing to a socket.
pub const WRITE_TIMEOUT_SECS: u64 = 6;

/// The family of a socket.
#[derive(Clone, Copy, Debug, PartialEq, Eq, Structural)]
pub enum Domain {
    Ipv4,
    Ipv6,
}

/// The family of the socket that can connect to an address.
pub fn domain(addr: &SocketAddr) -> (domain: Domain)
    ensures
        domain == (if *addr is V4 {
            Domain::Ipv4
        } else {
            Domain::Ipv6
        }),
{
    if addr.is_ipv4() {
        Domain::Ipv4
    } else {
        Domain::Ipv6
    }
}

/// How a call to connect a socket failed.
#[derive(Clone, Copy, Debug, PartialEq, Eq, Structural)]
pub struct ConnectError {
    /// The error number of the operating system, if there is one.
    pub raw_os_error: Option<i32>,
    pub kind: ErrorKind,
}

/// What a call to connect a socket led to.
#[derive(Clone, Copy, Debug, PartialEq, Eq, Structural)]
pub enum Connecting {
    /// The connection is established, or will be.
    Started,
    /// There already is a connection.
    AlreadyExists,
    /// The call failed.
    Failed,
}

/// What a call to connect a socket led to. The socket does not block, so that a connection
/// that is not established yet is no failure. `in_progress` and `already` are the numbers by
/// which the operating system says that the connection is on its way, and that it was asked
/// for before.
pub fn connecting(result: Result<(), ConnectError>, in_progress: i32, already: i32) -> (outcome:
    Connecting)
    ensures
        outcome == (match result {
            Ok(()) => Connecting::Started,
            Err(error) => if error.raw_os_error == Some(in_progress) {
                Connecting::Started
            } else if error.raw_os_error == Some(already) {
                Connecting::AlreadyExists
            } else if error.kind == ErrorKind::WouldBlock {
                Connecting::Started
            } else {
                Connecting::Failed
            },
        }),
{
    match result {
        Ok(()) => Connecting::Started,
        Err(error) => {
            match error.raw_os_error {
                Some(number) => {
                    if number == in_progress {
                        return Connecting::Started;
                    }
                    if number == already {
                        return Connecting::AlreadyExists;
                    }
                },
                None => {},
            }
            if error.kind == ErrorKind::WouldBlock {
                Connecting::Started
            } else {
                Connecting::Failed
            }
        },
    }
}

} // verus!
