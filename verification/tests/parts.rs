use nakamoto_net_poll::addr::SocketAddr;
use nakamoto_net_poll::bip324_info::{
    Bip324Info, MessageBuffer, BIP324_HANDSHAKE_TIMEOUT_SECS, DEFAULT_SIZE_BYTES_V2,
    ELLI_SWIFT_KEY_SIZE, GARBAGE_TERMINATOR_BYTES, MAX_GARBAGE_BUFFER_BYTES, VERSION_CONTENT,
};
use nakamoto_net_poll::dial::{
    connecting, domain, ConnectError, Connecting, Domain, READ_TIMEOUT_SECS, WRITE_TIMEOUT_SECS,
};
use nakamoto_net_poll::framing::READ_BUFFER_SIZE;
use nakamoto_net_poll::io::ErrorKind;
use nakamoto_net_poll::node::{configure, Config, Limits};
use nakamoto_net_poll::peers::PeerMap;
use nakamoto_net_poll::time::LocalDuration;
use nakamoto_net_poll::transport::Network;

fn v4(ip: u32, port: u16) -> SocketAddr {
    SocketAddr::V4 { ip, port }
}

fn v6(ip6: u128) -> SocketAddr {
    SocketAddr::V6 { ip6, port: 18444, flowinfo: 0, scope_id: 0 }
}

fn base() -> Config<&'static str, &'static str> {
    Config {
        network: Network::Mainnet,
        connect: vec![v4(1, 1)],
        domains: vec!["ipv4"],
        listen: vec![v4(2, 2)],
        p2p_v2: false,
        root: "home",
        limits: Limits { max_outbound_peers: 8 },
        services: 9,
    }
}

#[test]
fn sizes_are_those_of_the_protocol() {
    assert_eq!(VERSION_CONTENT.len(), 0);
    assert_eq!(GARBAGE_TERMINATOR_BYTES, 16);
    assert_eq!(DEFAULT_SIZE_BYTES_V2, 3);
    assert_eq!(ELLI_SWIFT_KEY_SIZE, 64);
    assert_eq!(MAX_GARBAGE_BUFFER_BYTES, 36);
    assert_eq!(BIP324_HANDSHAKE_TIMEOUT_SECS, 5);
    assert_eq!(READ_BUFFER_SIZE, 196_608);
    assert_eq!(READ_TIMEOUT_SECS, 6);
    assert_eq!(WRITE_TIMEOUT_SECS, 6);
}

#[test]
fn nothing_has_arrived_by_default() {
    let buffer = MessageBuffer::default();
    assert_eq!(buffer.pending_bytes, 0);
    assert!(buffer.buffer.is_empty());

    let info = Bip324Info::default();
    assert!(info.key_sent.is_none());
    assert!(info.key_received.is_none());
    assert!(info.terminator_sent.is_none());
    assert!(info.garbage_received.is_empty());
    assert!(info.packet_handler.is_none());
    assert!(info.handshake.is_none());
    assert_eq!(info.message_buffer.pending_bytes, 0);
    assert!(info.message_buffer.buffer.is_empty());
    assert!(info.handshake_started.is_none());
}

#[test]
fn durations_are_in_milliseconds() {
    assert_eq!(LocalDuration::from_secs(5).millis, 5_000);
    assert_eq!(LocalDuration::from_mins(60).millis, 3_600_000);
    assert_eq!(LocalDuration::from_mins(u64::MAX).millis, u64::MAX as u128 * 60_000);
}

#[test]
fn the_family_of_a_socket_is_that_of_the_address() {
    assert!(v4(1, 1).is_ipv4());
    assert!(!v6(1).is_ipv4());
    assert_eq!(domain(&v4(1, 1)), Domain::Ipv4);
    assert_eq!(domain(&v6(1)), Domain::Ipv6);
}

#[test]
fn a_connection_on_its_way_is_no_failure() {
    let error = |raw_os_error, kind| Err(ConnectError { raw_os_error, kind });
    assert_eq!(connecting(Ok(()), 115, 114), Connecting::Started);
    assert_eq!(connecting(error(Some(115), ErrorKind::Other), 115, 114), Connecting::Started);
    assert_eq!(
        connecting(error(Some(114), ErrorKind::Other), 115, 114),
        Connecting::AlreadyExists
    );
    assert_eq!(
        connecting(error(Some(114), ErrorKind::WouldBlock), 115, 114),
        Connecting::AlreadyExists
    );
    assert_eq!(connecting(error(Some(11), ErrorKind::WouldBlock), 115, 114), Connecting::Started);
    assert_eq!(connecting(error(None, ErrorKind::WouldBlock), 115, 114), Connecting::Started);
    assert_eq!(connecting(error(Some(111), ErrorKind::Other), 115, 114), Connecting::Failed);
    assert_eq!(connecting(error(None, ErrorKind::TimedOut), 115, 114), Connecting::Failed);
}

#[test]
fn a_node_without_arguments_is_as_configured() {
    let config = configure(base(), vec![], vec![], None, vec![], Network::Regtest, false);
    assert_eq!(config.network, Network::Regtest);
    assert!(config.connect.is_empty());
    assert!(config.domains.is_empty());
    assert_eq!(config.listen, vec![v4(0, 0)]);
    assert!(!config.p2p_v2);
    assert_eq!(config.root, "home");
    assert_eq!(config.limits.max_outbound_peers, 8);
    assert_eq!(config.services, 9);
}

#[test]
fn arguments_decide_what_they_name() {
    let connect = vec![v4(3, 3), v6(4), v4(5, 5)];
    let listen = vec![v4(6, 6)];
    let config = configure(
        base(),
        connect.clone(),
        listen.clone(),
        Some("elsewhere"),
        vec!["ipv6"],
        Network::Signet,
        true,
    );
    assert_eq!(config.network, Network::Signet);
    assert_eq!(config.connect, connect);
    assert_eq!(config.domains, vec!["ipv6"]);
    assert_eq!(config.listen, listen);
    assert!(config.p2p_v2);
    assert_eq!(config.root, "elsewhere");
    assert_eq!(config.limits.max_outbound_peers, 3);
    assert_eq!(config.services, 2057);
}

#[test]
fn peer_maps_hold_one_value_for_each_address() {
    let mut map: PeerMap<u32> = PeerMap::new();
    assert!(!map.contains_key(&v4(1, 1)));
    assert_eq!(map.get(&v4(1, 1)), None);
    map.insert(v4(1, 1), 10);
    map.insert(v4(1, 2), 20);
    map.insert(v6(1), 30);
    map.insert(v4(1, 1), 11);
    assert_eq!(map.get(&v4(1, 1)), Some(&11));
    assert_eq!(map.get(&v4(1, 2)), Some(&20));
    assert_eq!(map.get(&v6(1)), Some(&30));
    if let Some(value) = map.get_mut(&v4(1, 2)) {
        *value += 1;
    }
    assert_eq!(map.get(&v4(1, 2)), Some(&21));
    assert!(map.get_mut(&v6(2)).is_none());
    assert!(map.remove(&v4(1, 1)));
    assert!(!map.remove(&v4(1, 1)));
    assert!(!map.contains_key(&v4(1, 1)));
    assert_eq!(map.get(&v4(1, 2)), Some(&21));
    assert_eq!(map.get(&v6(1)), Some(&30));
}
