//! What goes in and out of the reactor.
use vstd::prelude::*;

use crate::addr::{Link, SocketAddr};
use crate::time::{LocalDuration, LocalTime};

verus! {

/// What the service asks the reactor to do. `R` is why the service disconnects a peer, `E` is
/// an event that it publishes.
pub enum Io<R, E> {
    /// Send these bytes to a peer.
    Write(SocketAddr, Vec<u8>),
    /// Connect to a peer.
    Connect(SocketAddr),
    /// Disconnect from a peer.
    Disconnect(SocketAddr, R),
    /// Wake the service up after some time.
    SetTimer(LocalDuration),
    /// Publish an event.
    Event(E),
}

/// How an operation on a socket failed, as far as it matters here.
#[derive(Clone, Copy, Debug, PartialEq, Eq, Structural)]
pub enum ErrorKind {
    /// The operation would have to wait.
    WouldBlock,
    /// Nothing could be written.
    WriteZero,
    /// Nothing happened in time.
    TimedOut,
    /// There already is a connection.
    AlreadyExists,
    /// Any other failure.
    Other,
}

/// What is left to do for something that the service asked for.
pub enum Output<R, E> {
    /// Nothing.
    Nothing,
    /// Hand these bytes to the socket of the peer.
    Push(SocketAddr, Vec<u8>),
    /// Dial the peer.
    Dial(SocketAddr),
    /// Shut the socket of the peer down, and tell the service.
    Disconnect(SocketAddr, R),
    /// Wake the service up at this time.
    SetTimer(LocalTime),
    /// Publish this event.
    Publish(E),
}

/// What is left to do once a connection was accepted.
#[derive(Clone, Copy, Debug, PartialEq, Eq, Structural)]
pub enum Accepted {
    /// Keep the socket, tell the service of the link, and look for another connection.
    Connected(Link),
    /// Nothing: there are no more connections.
    Done,
    /// Look for no other connection now: accepting one has failed.
    Failed,
}

/// What is left to do once a peer was dialed.
pub enum Dialed {
    /// Hand this key to the socket of the peer, and tell the service of the attempt.
    Attempted(Vec<u8>),
    /// Nothing: no key could be made.
    NoKey,
    /// Nothing: there already is a connection.
    AlreadyExists,
    /// Tell the service that the peer could not be dialed.
    Failed,
}

/// What is left to do once a socket was read.
pub enum Readable {
    /// Nothing.
    Nothing,
    /// Hand the key, if there is one, to the socket and flush it; then do the same with the
    /// terminator.
    Answer { key: Option<Vec<u8>>, terminator: Vec<u8> },
    /// Tell the service of these messages.
    Messages(Vec<u8>),
    /// Shut the socket down, and tell the service that the peer has closed the connection.
    Closed,
    /// Shut the socket down, and tell the service of the error.
    Failed,
}

/// What the poll said of a source.
#[derive(Clone, Copy, Debug, PartialEq, Eq, Structural)]
pub struct Readiness {
    /// There is something to read.
    pub readable: bool,
    /// There is room to write.
    pub writable: bool,
    /// The file descriptor is closed.
    pub invalid: bool,
}

/// What is left to do for an event.
#[derive(Clone, Copy, Debug, PartialEq, Eq, Structural)]
pub enum Ready {
    /// Nothing: the source is gone.
    Gone,
    /// Serve a peer: first what is to be written, then what is to be read.
    Peer { addr: SocketAddr, write: bool, read: bool },
    /// Accept connections until there are no more.
    Accept,
    /// Look for a shutdown, then for commands.
    Wake,
}

/// What is left to do when the poll returns.
#[derive(Clone, Copy, Debug, PartialEq, Eq, Structural)]
pub enum Woken {
    /// There are events.
    Events,
    /// Look for timers that have expired.
    TimedOut,
    /// Stop with the error.
    Failed,
}

} // verus!
