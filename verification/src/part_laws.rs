//! What calls on the smaller parts come to.
use vstd::prelude::*;

use crate::addr::SocketAddr;
use crate::bip324_info::{Bip324Info, MessageBuffer};
use crate::dial::{connecting, domain, ConnectError, Connecting, Domain};
use crate::io::ErrorKind;
use crate::node::{configure, Config};
use crate::peers::PeerMap;
use crate::time::LocalDuration;
use crate::transport::Network;

verus! {

/// A socket is of the family of the address that it is to connect to.
pub proof fn law_sockets_fit_addresses(addr: SocketAddr, ipv4: bool, family: Domain)
    requires
        call_ensures(SocketAddr::is_ipv4, (&addr,), ipv4),
        call_ensures(domain, (&addr,), family),
    ensures
        ipv4 <==> addr is V4,
        family == Domain::Ipv4 <==> addr is V4,
        family == Domain::Ipv6 <==> addr is V6,
{
}

/// A connection that is established or on its way is started. One that was asked for before
/// exists already; the number of the operating system decides that before anything else. Every
/// other error is a failure.
pub proof fn law_connections_start(
    result: Result<(), ConnectError>,
    in_progress: i32,
    already: i32,
    outcome: Connecting,
)
    requires
        call_ensures(connecting, (result, in_progress, already), outcome),
        in_progress != already,
    ensures
        result is Ok ==> outcome == Connecting::Started,
        result matches Err(error) ==> {
            &&& outcome == Connecting::AlreadyExists <==> error.raw_os_error == Some(already)
            &&& outcome == Connecting::Started <==> error.raw_os_error == Some(in_progress) || (
            error.kind == ErrorKind::WouldBlock && error.raw_os_error != Some(already))
        },
{
}

/// Seconds have a thousand milliseconds, and minutes sixty seconds.
pub proof fn law_durations(count: u64, secs: LocalDuration, mins: LocalDuration)
    requires
        call_ensures(LocalDuration::from_secs, (count,), secs),
        call_ensures(LocalDuration::from_mins, (count,), mins),
    ensures
        secs.millis == 1000 * count,
        mins.millis == 60 * secs.millis,
{
}

/// Every argument goes into the configuration. A node listens on any free port if nothing else is
/// asked for, and makes as many connections as there are peers to connect to. What no argument
/// decides is as it was.
pub proof fn law_arguments_decide<D, P>(
    base: Config<D, P>,
    connect: Vec<SocketAddr>,
    listen: Vec<SocketAddr>,
    root: Option<P>,
    domains: Vec<D>,
    network: Network,
    p2p_v2: bool,
    config: Config<D, P>,
)
    requires
        call_ensures(
            configure::<D, P>,
            (base, connect, listen, root, domains, network, p2p_v2),
            config,
        ),
    ensures
        config.network == network,
        config.connect@ == connect@,
        config.domains@ == domains@,
        config.p2p_v2 == p2p_v2,
        listen@.len() > 0 ==> config.listen@ == listen@,
        listen@.len() == 0 ==> config.listen@.len() == 1 && config.listen@[0] == (SocketAddr::V4 {
            ip: 0,
            port: 0,
        }),
        root matches Some(path) ==> config.root == path,
        root is None ==> config.root == base.root,
        connect@.len() > 0 ==> config.limits.max_outbound_peers == connect@.len(),
        connect@.len() == 0 ==> config.limits.max_outbound_peers == base.limits.max_outbound_peers,
        !p2p_v2 ==> config.services == base.services,
        p2p_v2 ==> config.services & 0x800 == 0x800,
        p2p_v2 ==> config.services & !0x800 == base.services & !0x800,
{
    let services = base.services;
    assert((services | 0x800) & 0x800 == 0x800) by (bit_vector);
    assert((services | 0x800) & !0x800 == services & !0x800) by (bit_vector);
    assert(connect@.len() == connect.len());
}

/// By default nothing has been sent, and nothing has arrived.
pub proof fn law_defaults(info: Bip324Info, buffer: MessageBuffer)
    requires
        call_ensures(<Bip324Info as Default>::default, (), info),
        call_ensures(<MessageBuffer as Default>::default, (), buffer),
    ensures
        info.key_sent is None && info.key_received is None && info.terminator_sent is None,
        info.garbage_received@.len() == 0,
        info.packet_handler is None && info.handshake is None && info.handshake_started is None,
        info.message_buffer.pending_bytes == 0 && info.message_buffer.buffer@.len() == 0,
        buffer.pending_bytes == 0 && buffer.buffer@.len() == 0,
{
}

/// A map gives back for an address what was last inserted for it, until it is removed.
pub proof fn law_maps_give_back<V>(map: &mut PeerMap<V>, addr: SocketAddr, value: V, other: SocketAddr)
    requires
        call_ensures(PeerMap::<V>::insert, (map, addr, value), ()),
    ensures
        final(map).wf(),
        final(map)@.contains_key(addr) && final(map)@[addr] == value,
        other != addr ==> final(map)@.contains_key(other) == old(map)@.contains_key(other),
        other != addr && old(map)@.contains_key(other) ==> final(map)@[other] == old(map)@[other],
{
}

/// What is looked up in a map is what it holds for the address.
pub proof fn law_maps_are_looked_up<V>(
    map: &PeerMap<V>,
    addr: SocketAddr,
    found: bool,
    value: Option<&V>,
)
    requires
        call_ensures(PeerMap::<V>::contains_key, (map, &addr), found),
        call_ensures(PeerMap::<V>::get, (map, &addr), value),
    ensures
        found <==> map@.contains_key(addr),
        value is Some <==> map@.contains_key(addr),
        value matches Some(value) ==> *value == map@[addr],
{
}

/// An address that is removed from a map is not in it any more. The result says whether it was.
pub proof fn law_maps_forget<V>(
    map: &mut PeerMap<V>,
    addr: SocketAddr,
    removed: bool,
    other: SocketAddr,
)
    requires
        call_ensures(PeerMap::<V>::remove, (map, &addr), removed),
    ensures
        final(map).wf(),
        removed <==> old(map)@.contains_key(addr),
        !final(map)@.contains_key(addr),
        other != addr ==> final(map)@.contains_key(other) == old(map)@.contains_key(other),
        other != addr && old(map)@.contains_key(other) ==> final(map)@[other] == old(map)@[other],
{
}

} // verus!
