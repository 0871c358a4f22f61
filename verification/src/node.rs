//! The configuration of a node.
use vstd::prelude::*;

use crate::addr::SocketAddr;
use crate::transport::Network;

verus! {

/// The service flag of nodes that support the encrypted transport.
pub const P2P_V2: u64 = 0x800;

/// Limits on connections.
pub struct Limits {
    /// How many peers to connect to.
    pub max_outbound_peers: usize,
}

/// The configuration of a node. `D` is a domain of addresses, `P` is a path.
pub struct Config<D, P> {
    /// The network to connect to.
    pub network: Network,
    /// Peers to connect to.
    pub connect: Vec<SocketAddr>,
    /// Domains of addresses to connect to.
    pub domains: Vec<D>,
    /// Addresses to listen on.
    pub listen: Vec<SocketAddr>,
    /// Whether connections are encrypted.
    pub p2p_v2: bool,
    /// Where the node keeps its data.
    pub root: P,
    pub limits: Limits,
    /// The services that the node offers.
    pub services: u64,
}

/// The address that stands for any free port on all interfaces.
pub open spec fn any_address() -> SocketAddr {
    SocketAddr::V4 { ip: 0, port: 0 }
}

/// The configuration for running a node. Takes an initial list of peers to connect to, a list
/// of listen addresses, the client root and the Bitcoin network to connect to. What none of
/// them decides is as in `base`.
pub fn configure<D, P>(
    base: Config<D, P>,
    connect: Vec<SocketAddr>,
    listen: Vec<SocketAddr>,
    root: Option<P>,
    domains: Vec<D>,
    network: Network,
    p2p_v2: bool,
) -> (config: Config<D, P>)
    ensures
        config.network == network,
        config.connect == connect,
        config.domains == domains,
        listen@.len() == 0 ==> config.listen@ == seq![any_address()],
        listen@.len() > 0 ==> config.listen == listen,
        config.p2p_v2 == p2p_v2,
        config.root == (match root {
            Some(path) => path,
            None => base.root,
        }),
        config.limits.max_outbound_peers == (if connect@.len() > 0 {
            connect@.len() as usize
        } else {
            base.limits.max_outbound_peers
        }),
        config.services == (if p2p_v2 {
            base.services | P2P_V2
        } else {
            base.services
        }),
{
    let max_outbound_peers: usize = if connect.len() > 0 {
        connect.len()
    } else {
        base.limits.max_outbound_peers
    };
    let listen = if listen.len() == 0 {
        let any: Vec<SocketAddr> = vec![SocketAddr::V4 { ip: 0, port: 0 }];
        assert(any@ == seq![any_address()]);
        any
    } else {
        listen
    };
    let root = match root {
        Some(path) => path,
        None => base.root,
    };
    let services: u64 = if p2p_v2 {
        base.services | P2P_V2
    } else {
        base.services
    };
    Config {
        network,
        connect,
        domains,
        listen,
        p2p_v2,
        root,
        limits: Limits { max_outbound_peers },
        services,
    }
}

} // verus!
