//! Peer addresses and the direction of a connection.
use vstd::prelude::*;

verus! {

/// An internet socket address. It is what a peer is known by.
#[derive(Clone, Copy, Debug, PartialEq, Eq, Structural)]
pub enum SocketAddr {
    /// An IPv4 address, its four octets as one number in network order.
    V4 { ip: u32, port: u16 },
    /// An IPv6 address, its sixteen octets as one number in network order.
    V6 { ip6: u128, port: u16, flowinfo: u32, scope_id: u32 },
}

impl SocketAddr {
    /// Whether this is an IPv4 address.
    pub fn is_ipv4(&self) -> (result: bool)
        ensures
            result == (self is V4),
    {
        match self {
            SocketAddr::V4 { .. } => true,
            SocketAddr::V6 { .. } => false,
        }
    }
}

/// Which side opened a connection.
#[derive(Clone, Copy, Debug, PartialEq, Eq, Structural)]
pub enum Link {
    /// The peer connected to us.
    Inbound,
    /// We connected to the peer.
    Outbound,
}

} // verus!
