use std::collections::VecDeque;

use nakamoto_net_poll::addr::{Link, SocketAddr};
use nakamoto_net_poll::framing::Fault;
use nakamoto_net_poll::io::{
    Accepted, Dialed, ErrorKind, Io, Output, Readable, Readiness, Ready, Woken,
};
use nakamoto_net_poll::reactor::{timer_expired, wait_timeout, wake_up, Reactor};
use nakamoto_net_poll::session::start_handshake;
use nakamoto_net_poll::sources::Source;
use nakamoto_net_poll::time::{LocalDuration, LocalTime};
use nakamoto_net_poll::transport::Role;

type Out = Io<&'static str, u32>;
type Queue = VecDeque<Out>;

const READ: i16 = 3;
const WRITE: i16 = 516;

fn addr(n: u32) -> SocketAddr {
    SocketAddr::V4 { ip: n, port: 8333 }
}

/// What the registry says of a source: its file descriptor and what it is polled for.
fn polled(reactor: &mut Reactor, source: Source) -> Option<String> {
    reactor.sources_mut().get(&source).map(|source| format!("{:?}", source))
}

fn entry(fd: i32, events: i16) -> Option<String> {
    Some(format!("Source {{ fd: {}, events: {}, revents: 0 }}", fd, events))
}

fn now() -> LocalTime {
    LocalTime { millis: 1_700_000_000_000 }
}

fn output(reactor: &mut Reactor, queue: &mut Queue, out: Out) -> Output<&'static str, u32> {
    match reactor.process_output(out, now(), queue) {
        Ok(output) => output,
        Err(fault) => panic!("{:?}", fault),
    }
}

fn dial(reactor: &mut Reactor, peer: SocketAddr, fd: i32) -> Vec<u8> {
    match reactor.dialed(peer, Ok(fd), now()) {
        Dialed::Attempted(key) => key,
        _ => panic!("not attempted"),
    }
}

fn read(reactor: &mut Reactor, peer: SocketAddr, data: &[u8]) -> Readable {
    reactor.handle_readable(&peer, Ok(data)).unwrap()
}

fn answer(reactor: &mut Reactor, peer: SocketAddr, data: &[u8]) -> (Option<Vec<u8>>, Vec<u8>) {
    match read(reactor, peer, data) {
        Readable::Answer { key, terminator } => (key, terminator),
        _ => panic!("no answer"),
    }
}

fn messages(reactor: &mut Reactor, peer: SocketAddr, data: &[u8]) -> Vec<u8> {
    match read(reactor, peer, data) {
        Readable::Messages(messages) => messages,
        _ => panic!("no messages"),
    }
}

/// Connects `one` to `other`, who know each other by these addresses.
fn join(one: &mut Reactor, other: &mut Reactor, one_addr: SocketAddr, other_addr: SocketAddr) {
    let key = dial(one, other_addr, 5);
    other.register_peer(one_addr, 6, Link::Inbound);
    let (their_key, their_terminator) = answer(other, one_addr, &key);
    let (none, terminator) = answer(one, other_addr, &their_key.expect("a key"));
    assert!(none.is_none());
    assert!(matches!(read(one, other_addr, &their_terminator), Readable::Nothing));
    assert!(matches!(read(other, one_addr, &terminator), Readable::Nothing));
}

#[test]
fn a_new_reactor_polls_nothing() {
    let mut reactor = Reactor::new();
    assert!(reactor.sources_mut().is_empty());
    assert!(!reactor.is_peer(&addr(1)));
}

#[test]
fn peers_are_registered_for_everything() {
    let mut reactor = Reactor::new();
    reactor.register_peer(addr(1), 7, Link::Inbound);
    assert!(reactor.is_peer(&addr(1)));
    assert!(!reactor.is_peer(&addr(2)));
    assert_eq!(polled(&mut reactor, Source::Peer(addr(1))), entry(7, READ | WRITE));
}

#[test]
fn the_listener_is_registered_for_reading() {
    let mut reactor = Reactor::new();
    reactor.register_listener(4);
    assert_eq!(polled(&mut reactor, Source::Listener), entry(4, READ));
}

#[test]
fn unregistering_undoes_registering() {
    let mut reactor = Reactor::new();
    reactor.register_listener(4);
    reactor.register_peer(addr(1), 7, Link::Inbound);
    reactor.register_peer(addr(2), 8, Link::Inbound);
    reactor.unregister_peer(&addr(1));
    assert!(!reactor.is_peer(&addr(1)));
    assert!(reactor.is_peer(&addr(2)));
    assert_eq!(reactor.sources_mut().len(), 2);
    assert_eq!(polled(&mut reactor, Source::Peer(addr(1))), None);
    assert_eq!(polled(&mut reactor, Source::Peer(addr(2))), entry(8, READ | WRITE));
    assert_eq!(polled(&mut reactor, Source::Listener), entry(4, READ));

    // There is nothing left to undo.
    reactor.unregister_peer(&addr(1));
    assert_eq!(reactor.sources_mut().len(), 2);
}

#[test]
fn registering_twice_leaves_two_sources() {
    let mut reactor = Reactor::new();
    reactor.register_peer(addr(1), 7, Link::Inbound);
    reactor.register_peer(addr(1), 8, Link::Inbound);
    assert_eq!(reactor.sources_mut().len(), 2);
    assert_eq!(polled(&mut reactor, Source::Peer(addr(1))), entry(7, READ | WRITE));
    reactor.unregister_peer(&addr(1));
    assert_eq!(polled(&mut reactor, Source::Peer(addr(1))), entry(8, READ | WRITE));
    assert!(!reactor.is_peer(&addr(1)));
}

#[test]
fn a_dialed_peer_gets_a_key() {
    let mut reactor = Reactor::new();
    let key = dial(&mut reactor, addr(1), 7);
    assert_eq!(key.len(), 64);
    assert!(reactor.is_peer(&addr(1)));
    assert_eq!(polled(&mut reactor, Source::Peer(addr(1))), entry(7, READ | WRITE));
}

#[test]
fn a_peer_that_cannot_be_dialed_is_not_registered() {
    let mut reactor = Reactor::new();
    let exists = reactor.dialed(addr(1), Err(ErrorKind::AlreadyExists), now());
    assert!(matches!(exists, Dialed::AlreadyExists));
    assert!(matches!(reactor.dialed(addr(1), Err(ErrorKind::Other), now()), Dialed::Failed));
    assert!(matches!(reactor.dialed(addr(1), Err(ErrorKind::WouldBlock), now()), Dialed::Failed));
    assert!(!reactor.is_peer(&addr(1)));
    assert!(reactor.sources_mut().is_empty());
}

#[test]
fn connecting_returns_the_key_of_the_handshake() {
    let mut reactor = Reactor::new();
    let (handshake, key) = start_handshake(Role::Initiator).expect("a key");
    let expected = key.clone();
    assert_eq!(reactor.connect(addr(1), 7, Some((handshake, key)), now()), Some(expected));
    assert_eq!(reactor.connect(addr(2), 8, None, now()), None);
    assert!(reactor.is_peer(&addr(1)) && reactor.is_peer(&addr(2)));
    assert_eq!(reactor.handle_writable(&addr(2)), Ok(Some(Link::Outbound)));
}

#[test]
fn a_peer_is_connected_once_its_socket_is_writable() {
    let mut reactor = Reactor::new();
    dial(&mut reactor, addr(1), 7);
    reactor.register_peer(addr(2), 8, Link::Inbound);
    assert_eq!(reactor.handle_writable(&addr(1)), Ok(Some(Link::Outbound)));
    assert_eq!(reactor.handle_writable(&addr(1)), Ok(None));
    assert_eq!(reactor.handle_writable(&addr(2)), Ok(None));
}

#[test]
fn a_peer_without_a_socket_is_not_writable() {
    let mut reactor = Reactor::new();
    assert_eq!(reactor.handle_writable(&addr(1)), Err(Fault::Unregistered));
    reactor.register_peer(addr(1), 7, Link::Inbound);
    reactor.sources_mut().unregister(&Source::Peer(addr(1)));
    assert_eq!(reactor.handle_writable(&addr(1)), Err(Fault::Unregistered));
}

#[test]
fn sockets_are_polled_for_writing_as_long_as_there_is_something_to_write() {
    let mut reactor = Reactor::new();
    reactor.register_peer(addr(1), 7, Link::Inbound);
    assert!(!reactor.flushed(&addr(1), Ok(())));
    assert_eq!(polled(&mut reactor, Source::Peer(addr(1))), entry(7, READ));
    assert!(!reactor.flushed(&addr(1), Err(ErrorKind::WouldBlock)));
    assert_eq!(polled(&mut reactor, Source::Peer(addr(1))), entry(7, READ | WRITE));
    assert!(!reactor.flushed(&addr(1), Ok(())));
    assert!(!reactor.flushed(&addr(1), Err(ErrorKind::WriteZero)));
    assert_eq!(polled(&mut reactor, Source::Peer(addr(1))), entry(7, READ | WRITE));
    assert!(reactor.is_peer(&addr(1)));
}

#[test]
fn a_peer_that_cannot_be_written_to_is_unregistered() {
    let mut reactor = Reactor::new();
    reactor.register_peer(addr(1), 7, Link::Inbound);
    assert!(reactor.flushed(&addr(1), Err(ErrorKind::Other)));
    assert!(!reactor.is_peer(&addr(1)));
    assert!(reactor.sources_mut().is_empty());
}

#[test]
fn reads_of_unknown_peers_are_ignored() {
    let mut reactor = Reactor::new();
    assert!(matches!(read(&mut reactor, addr(1), b"hello"), Readable::Nothing));
    let failed = reactor.handle_readable(&addr(1), Err(ErrorKind::Other));
    assert!(matches!(failed, Ok(Readable::Nothing)));
}

#[test]
fn reading_nothing_means_that_the_peer_is_gone() {
    let mut reactor = Reactor::new();
    reactor.register_peer(addr(1), 7, Link::Inbound);
    reactor.register_peer(addr(2), 8, Link::Inbound);
    assert!(matches!(read(&mut reactor, addr(1), b""), Readable::Closed));
    assert!(!reactor.is_peer(&addr(1)));
    assert!(reactor.is_peer(&addr(2)));
    assert_eq!(polled(&mut reactor, Source::Peer(addr(2))), entry(8, READ | WRITE));
}

#[test]
fn a_failed_read_unregisters_the_peer_unless_it_would_block() {
    let mut reactor = Reactor::new();
    reactor.register_peer(addr(1), 7, Link::Inbound);
    let blocked = reactor.handle_readable(&addr(1), Err(ErrorKind::WouldBlock));
    assert!(matches!(blocked, Ok(Readable::Nothing)));
    assert!(reactor.is_peer(&addr(1)));
    let failed = reactor.handle_readable(&addr(1), Err(ErrorKind::Other));
    assert!(matches!(failed, Ok(Readable::Failed)));
    assert!(!reactor.is_peer(&addr(1)));
    assert!(reactor.sources_mut().is_empty());
}

#[test]
fn faults_of_a_connection_are_reported() {
    let mut reactor = Reactor::new();
    reactor.register_peer(addr(1), 7, Link::Inbound);
    let result = reactor.handle_readable(&addr(1), Ok(b"short"));
    assert!(matches!(result, Err(Fault::KeyLength)));
}

#[test]
fn messages_to_a_connected_peer_go_out_encrypted() {
    let (mut one, mut other) = (Reactor::new(), Reactor::new());
    join(&mut one, &mut other, addr(1), addr(2));
    let mut queue = Queue::new();
    one.flushed(&addr(2), Ok(()));
    match output(&mut one, &mut queue, Io::Write(addr(2), b"ping".to_vec())) {
        Output::Push(to, packet) => {
            assert_eq!(to, addr(2));
            assert_eq!(packet.len(), 24);
            assert_eq!(messages(&mut other, addr(1), &packet), b"ping".to_vec());
        }
        _ => panic!("nothing to push"),
    }
    assert!(queue.is_empty());
    assert_eq!(polled(&mut one, Source::Peer(addr(2))), entry(5, READ | WRITE));
}

#[test]
fn messages_wait_until_their_peer_is_ready() {
    let (mut one, mut other) = (Reactor::new(), Reactor::new());
    let mut queue = Queue::new();
    let key = dial(&mut one, addr(2), 5);
    one.register_peer(addr(3), 9, Link::Inbound);
    for text in [b"a", b"b"] {
        let waiting = output(&mut one, &mut queue, Io::Write(addr(2), text.to_vec()));
        assert!(matches!(waiting, Output::Nothing));
    }
    let waiting = output(&mut one, &mut queue, Io::Write(addr(3), b"x".to_vec()));
    assert!(matches!(waiting, Output::Nothing));
    assert!(one.process_queue(now(), &mut queue).unwrap().is_empty());
    assert_eq!(queue.len(), 3);

    other.register_peer(addr(1), 6, Link::Inbound);
    let (their_key, their_terminator) = answer(&mut other, addr(1), &key);
    let (_, terminator) = answer(&mut one, addr(2), &their_key.expect("a key"));
    assert!(one.process_queue(now(), &mut queue).unwrap().is_empty());
    read(&mut one, addr(2), &their_terminator);
    read(&mut other, addr(1), &terminator);

    let pushed = one.process_queue(now(), &mut queue).unwrap();
    assert_eq!(pushed.len(), 2);
    let mut data: Vec<u8> = Vec::new();
    for (to, packet) in &pushed {
        assert_eq!(*to, addr(2));
        assert_eq!(packet.len(), 21);
        data.extend(packet);
    }
    assert_eq!(messages(&mut other, addr(1), &data), b"ab".to_vec());

    // What is left is for the other peer, and going through it again changes nothing.
    assert_eq!(queue.len(), 1);
    assert!(matches!(queue.front(), Some(Io::Write(to, _)) if *to == addr(3)));
    assert!(one.process_queue(now(), &mut queue).unwrap().is_empty());
    assert_eq!(queue.len(), 1);
}

fn later(millis: u128) -> LocalTime {
    LocalTime { millis: now().millis + millis }
}

#[test]
fn a_connection_falls_back_after_five_seconds() {
    let mut reactor = Reactor::new();
    let mut queue = Queue::new();
    dial(&mut reactor, addr(1), 7);
    assert_eq!(reactor.accepted(Ok((addr(2), 8)), now()), Accepted::Connected(Link::Inbound));
    for peer in [addr(1), addr(2)] {
        for text in [b"a", b"b"] {
            let write = Io::Write(peer, text.to_vec());
            let waiting = reactor.process_output(write, later(5_000), &mut queue);
            assert!(matches!(waiting, Ok(Output::Nothing)));
        }
    }
    assert_eq!(queue.len(), 4);
    assert!(reactor.process_queue(later(5_000), &mut queue).unwrap().is_empty());
    assert_eq!(queue.len(), 4);

    // What was queued goes first, as it is.
    reactor.flushed(&addr(1), Ok(()));
    let pushed = reactor.process_queue(later(5_001), &mut queue).unwrap();
    assert_eq!(
        pushed,
        vec![
            (addr(1), b"a".to_vec()),
            (addr(1), b"b".to_vec()),
            (addr(2), b"a".to_vec()),
            (addr(2), b"b".to_vec()),
        ]
    );
    assert!(queue.is_empty());
    assert_eq!(polled(&mut reactor, Source::Peer(addr(1))), entry(7, READ | WRITE));

    match reactor.process_output(Io::Write(addr(1), b"c".to_vec()), later(5_001), &mut queue) {
        Ok(Output::Push(to, bytes)) => {
            assert_eq!(to, addr(1));
            assert_eq!(bytes, b"c".to_vec());
        }
        _ => panic!("nothing to push"),
    }
    assert!(queue.is_empty());
}

#[test]
fn only_connections_that_began_and_are_there_fall_back() {
    let mut reactor = Reactor::new();
    let mut queue = Queue::new();
    // Nothing is known of when this one began.
    reactor.register_peer(addr(1), 7, Link::Inbound);
    // This one is gone.
    dial(&mut reactor, addr(2), 8);
    reactor.unregister_peer(&addr(2));
    queue.push_back(Io::Write(addr(1), vec![1]));
    queue.push_back(Io::Write(addr(2), vec![2]));
    assert!(reactor.process_queue(later(60_000), &mut queue).unwrap().is_empty());
    assert_eq!(queue.len(), 2);

    // A clock that was set back does not make a connection any older.
    dial(&mut reactor, addr(3), 9);
    let earlier = LocalTime { millis: now().millis - 60_000 };
    let waiting = reactor.process_output(Io::Write(addr(3), vec![3]), earlier, &mut queue);
    assert!(matches!(waiting, Ok(Output::Nothing)));
    assert_eq!(queue.len(), 3);
}

#[test]
fn a_connection_that_is_ready_does_not_fall_back() {
    let (mut one, mut other) = (Reactor::new(), Reactor::new());
    join(&mut one, &mut other, addr(1), addr(2));
    let mut queue = Queue::new();
    match one.process_output(Io::Write(addr(2), b"ping".to_vec()), later(60_000), &mut queue) {
        Ok(Output::Push(_, packet)) => {
            assert_eq!(messages(&mut other, addr(1), &packet), b"ping".to_vec());
        }
        _ => panic!("nothing to push"),
    }
}

#[test]
fn a_queue_keeps_its_order() {
    let mut reactor = Reactor::new();
    reactor.register_peer(addr(1), 7, Link::Inbound);
    reactor.register_peer(addr(2), 8, Link::Inbound);
    let mut queue = Queue::new();
    queue.push_back(Io::Write(addr(1), vec![1]));
    queue.push_back(Io::Event(9));
    queue.push_back(Io::Write(addr(2), vec![2]));
    queue.push_back(Io::Connect(addr(3)));
    queue.push_back(Io::Write(addr(1), vec![3]));
    assert!(reactor.process_queue(now(), &mut queue).unwrap().is_empty());
    let left: Vec<(SocketAddr, Vec<u8>)> = queue
        .into_iter()
        .map(|io| match io {
            Io::Write(to, message) => (to, message),
            _ => panic!("not a message"),
        })
        .collect();
    assert_eq!(left, vec![(addr(1), vec![1]), (addr(2), vec![2]), (addr(1), vec![3])]);
}

#[test]
fn messages_to_peers_that_are_gone_are_dropped() {
    let (mut one, mut other) = (Reactor::new(), Reactor::new());
    join(&mut one, &mut other, addr(1), addr(2));
    let mut queue = Queue::new();
    one.unregister_peer(&addr(2));
    let dropped = output(&mut one, &mut queue, Io::Write(addr(2), b"late".to_vec()));
    assert!(matches!(dropped, Output::Nothing));
    assert!(queue.is_empty());

    queue.push_back(Io::Write(addr(2), b"late".to_vec()));
    assert!(one.process_queue(now(), &mut queue).unwrap().is_empty());
    assert!(queue.is_empty());

    // A peer that was never ready keeps its place in the queue.
    queue.push_back(Io::Write(addr(4), b"early".to_vec()));
    assert!(one.process_queue(now(), &mut queue).unwrap().is_empty());
    assert_eq!(queue.len(), 1);
}

#[test]
fn a_peer_that_comes_back_starts_anew() {
    let (mut one, mut other) = (Reactor::new(), Reactor::new());
    join(&mut one, &mut other, addr(1), addr(2));
    one.unregister_peer(&addr(2));
    one.register_peer(addr(2), 11, Link::Inbound);
    let mut queue = Queue::new();
    let waiting = output(&mut one, &mut queue, Io::Write(addr(2), b"hi".to_vec()));
    assert!(matches!(waiting, Output::Nothing));
    assert_eq!(queue.len(), 1);
}

#[test]
fn cut_reads_deliver_what_one_read_does() {
    let (mut one, mut other) = (Reactor::new(), Reactor::new());
    join(&mut one, &mut other, addr(1), addr(2));
    let mut queue = Queue::new();
    // The first packet has twenty-five bytes, the second one twenty-six.
    for cut in [3, 10, 25, 28, 50] {
        let mut data = Vec::new();
        for text in ["first", "second"] {
            let write = Io::Write(addr(2), text.as_bytes().to_vec());
            match output(&mut one, &mut queue, write) {
                Output::Push(_, packet) => data.extend(packet),
                _ => panic!("nothing to push"),
            }
        }
        assert_eq!(data.len(), 51);
        let mut contents = messages(&mut other, addr(1), &data[..cut]);
        contents.extend(messages(&mut other, addr(1), &data[cut..]));
        assert_eq!(contents, b"firstsecond".to_vec());
    }
}

#[test]
fn peers_do_not_interfere() {
    let (mut hub, mut left, mut right) = (Reactor::new(), Reactor::new(), Reactor::new());
    join(&mut hub, &mut left, addr(1), addr(2));
    join(&mut hub, &mut right, addr(1), addr(3));
    let mut queue = Queue::new();
    queue.push_back(Io::Write(addr(2), b"left".to_vec()));
    queue.push_back(Io::Write(addr(3), b"right".to_vec()));
    let pushed = hub.process_queue(now(), &mut queue).unwrap();
    assert_eq!(pushed.len(), 2);
    assert_eq!(pushed[0].0, addr(2));
    assert_eq!(pushed[1].0, addr(3));
    assert_eq!(messages(&mut left, addr(1), &pushed[0].1), b"left".to_vec());
    assert_eq!(messages(&mut right, addr(1), &pushed[1].1), b"right".to_vec());
    assert!(queue.is_empty());
}

#[test]
fn disconnecting_is_for_peers() {
    let mut reactor = Reactor::new();
    let mut queue = Queue::new();
    let unknown = output(&mut reactor, &mut queue, Io::Disconnect(addr(1), "bye"));
    assert!(matches!(unknown, Output::Nothing));
    reactor.register_peer(addr(1), 7, Link::Inbound);
    match output(&mut reactor, &mut queue, Io::Disconnect(addr(1), "bye")) {
        Output::Disconnect(peer, reason) => {
            assert_eq!(peer, addr(1));
            assert_eq!(reason, "bye");
        }
        _ => panic!("not disconnected"),
    }
    assert!(!reactor.is_peer(&addr(1)));
}

#[test]
fn other_outputs_are_handed_on() {
    let mut reactor = Reactor::new();
    let mut queue = Queue::new();
    let dial = output(&mut reactor, &mut queue, Io::Connect(addr(1)));
    assert!(matches!(dial, Output::Dial(peer) if peer == addr(1)));
    let timer = output(&mut reactor, &mut queue, Io::SetTimer(LocalDuration::from_secs(3)));
    assert!(matches!(timer, Output::SetTimer(at) if at.millis == 1_700_000_003_000));
    let event = output(&mut reactor, &mut queue, Io::Event(42));
    assert!(matches!(event, Output::Publish(42)));
    assert!(queue.is_empty());
    assert!(!reactor.is_peer(&addr(1)));
}

#[test]
fn outputs_are_taken_in_turn() {
    let mut reactor = Reactor::new();
    let mut queue = Queue::new();
    let outs: Vec<Out> = vec![
        Io::Event(1),
        Io::SetTimer(LocalDuration::from_secs(2)),
        Io::Write(addr(9), vec![0]),
        Io::Event(1),
        Io::SetTimer(LocalDuration::from_secs(1)),
        Io::Event(3),
    ];
    let (mut published, mut timers) = (Vec::new(), Vec::new());
    for out in outs {
        match output(&mut reactor, &mut queue, out) {
            Output::Publish(event) => published.push(event),
            Output::SetTimer(at) => timers.push(at.millis - now().millis),
            Output::Nothing => {}
            _ => panic!("something else"),
        }
    }
    assert_eq!(published, vec![1, 1, 3]);
    assert_eq!(timers, vec![2_000, 1_000]);
}

#[test]
fn accepted_peers_are_registered() {
    let mut reactor = Reactor::new();
    assert_eq!(reactor.accepted(Ok((addr(1), 7)), now()), Accepted::Connected(Link::Inbound));
    assert!(reactor.is_peer(&addr(1)));
    assert_eq!(polled(&mut reactor, Source::Peer(addr(1))), entry(7, READ | WRITE));
    assert_eq!(reactor.handle_writable(&addr(1)), Ok(None));
    assert_eq!(reactor.accepted(Err(ErrorKind::WouldBlock), now()), Accepted::Done);
    assert_eq!(reactor.accepted(Err(ErrorKind::Other), now()), Accepted::Failed);
    assert_eq!(reactor.sources_mut().len(), 1);
}

#[test]
fn events_are_served() {
    let mut reactor = Reactor::new();
    reactor.register_peer(addr(1), 7, Link::Inbound);
    let readable = Readiness { readable: true, writable: false, invalid: false };
    assert_eq!(
        reactor.handle_event(Source::Peer(addr(1)), readable),
        Ready::Peer { addr: addr(1), write: false, read: true }
    );
    let both = Readiness { readable: true, writable: true, invalid: false };
    assert_eq!(
        reactor.handle_event(Source::Peer(addr(1)), both),
        Ready::Peer { addr: addr(1), write: true, read: true }
    );
    assert_eq!(reactor.handle_event(Source::Listener, readable), Ready::Accept);
    assert_eq!(reactor.handle_event(Source::Waker, readable), Ready::Wake);

    let invalid = Readiness { readable: true, writable: true, invalid: true };
    assert_eq!(reactor.handle_event(Source::Peer(addr(1)), invalid), Ready::Gone);
    assert!(reactor.sources_mut().is_empty());
    assert!(reactor.is_peer(&addr(1)));
}

#[test]
fn waiting_ends_with_the_next_timer() {
    assert_eq!(wait_timeout(None).millis, 3_600_000);
    assert_eq!(wait_timeout(Some(LocalDuration { millis: 250 })).millis, 250);
}

#[test]
fn waiting_never_takes_longer_than_an_hour() {
    assert_eq!(wait_timeout(Some(LocalDuration::from_mins(60))).millis, 3_600_000);
    assert_eq!(wait_timeout(Some(LocalDuration { millis: 3_599_999 })).millis, 3_599_999);
    assert_eq!(wait_timeout(Some(LocalDuration { millis: 3_600_001 })).millis, 3_600_000);
    assert_eq!(wait_timeout(Some(LocalDuration::from_mins(120))).millis, 3_600_000);
    assert_eq!(wait_timeout(Some(LocalDuration { millis: u128::MAX })).millis, 3_600_000);
}

#[test]
fn waking_up_depends_on_how_waiting_ended() {
    assert_eq!(wake_up(Ok(0)), Woken::Events);
    assert_eq!(wake_up(Ok(3)), Woken::Events);
    assert_eq!(wake_up(Err(ErrorKind::TimedOut)), Woken::TimedOut);
    assert_eq!(wake_up(Err(ErrorKind::WouldBlock)), Woken::Failed);
    assert_eq!(wake_up(Err(ErrorKind::Other)), Woken::Failed);
}

#[test]
fn any_expired_timer_wakes_the_service() {
    assert!(!timer_expired(0));
    assert!(timer_expired(1));
    assert!(timer_expired(2));
}
