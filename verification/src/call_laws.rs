//! What calls on the reactor come to.
//!
//! Each law speaks of a call and of what the reactor holds before and after it.
use std::collections::VecDeque;

use vstd::prelude::*;

use crate::addr::{Link, SocketAddr};
use crate::connection_laws::{
    arrive, first_is_the_key, just_started, law_arrivals, law_messages_arrive, reads_on,
    terminator_is_taken, untouched,
};
use crate::framing::Fault;
use crate::io::{Accepted, Dialed, ErrorKind, Io, Output, Readable, Readiness, Ready, Woken};
use crate::laws::stretch;
use crate::process_laws::{
    law_draining_leaves_only_what_waits, lemma_drain_to_one_peer, only_waiting, outgoing,
};
use crate::reactor::{
    drain, pushes_of, reading_of, reading_of_arrival, timer_expired, wait_timeout, wake_up,
    Reactor, ReactorState,
};
use crate::reactor_laws::{
    law_nothing_is_overtaken, law_queue_keeps_what_waits, lemma_others_stay_registered,
    lemma_position_finds, lemma_sending_keeps_the_rest, messages_to, pushes_to,
};
use crate::session::{refused, Arrival, Bip324Info, Session};
use crate::sources::{position, switched, unregistered, Interest, Registration, Source};
use crate::time::{LocalDuration, LocalTime};
use crate::transport::{encrypted_packet, handshake_state, CipherState, Role};

verus! {

/// The first entry for a source is at this place.
pub open spec fn is_first(entries: Seq<Registration>, source: Source, i: int) -> bool {
    &&& 0 <= i < entries.len()
    &&& entries[i].source == source
    &&& forall|j: int| 0 <= j < i ==> (#[trigger] entries[j]).source != source
}

/// There is an entry for a source.
pub open spec fn is_polled(entries: Seq<Registration>, source: Source) -> bool {
    exists|i: int| 0 <= i < entries.len() && (#[trigger] entries[i]).source == source
}

proof fn lemma_first(entries: Seq<Registration>, source: Source)
    ensures
        is_polled(entries, source) <==> position(entries, source) is Some,
        position(entries, source) matches Some(at) ==> is_first(entries, source, at as int),
        forall|i: int| #[trigger]
            is_first(entries, source, i) ==> position(entries, source) == Some(i as nat),
    decreases entries.len(),
{
    lemma_position_finds(entries, source);
    if entries.len() > 0 {
        let rest = entries.skip(1);
        lemma_first(rest, source);
        match position(entries, source) {
            Some(at) => {
                if at > 0 {
                    assert(is_first(rest, source, at - 1));
                    assert forall|j: int| 0 <= j < at implies (#[trigger] entries[j]).source
                        != source by {
                        if j > 0 {
                            assert(rest[j - 1] == entries[j]);
                        }
                    }
                    assert(rest[at - 1] == entries[at as int]);
                }
            },
            None => {},
        }
        assert forall|i: int| #[trigger] is_first(entries, source, i) implies position(
            entries,
            source,
        ) == Some(i as nat) by {
            if i > 0 {
                assert(entries[0].source != source);
                assert(is_first(rest, source, i - 1)) by {
                    assert forall|j: int| 0 <= j < i - 1 implies (#[trigger] rest[j]).source
                        != source by {
                        assert(entries[j + 1] == rest[j]);
                    }
                    assert(rest[i - 1] == entries[i]);
                }
            }
        }
    }
}

/// Everything about a peer is as it was.
pub open spec fn stays(before: ReactorState, after: ReactorState, addr: SocketAddr) -> bool {
    &&& after.peers.contains_key(addr) == before.peers.contains_key(addr)
    &&& before.peers.contains_key(addr) ==> after.peers[addr] == before.peers[addr]
    &&& after.connecting.contains(addr) == before.connecting.contains(addr)
    &&& after.sessions.contains_key(addr) == before.sessions.contains_key(addr)
    &&& before.sessions.contains_key(addr) ==> after.sessions[addr] == before.sessions[addr]
    &&& is_polled(after.sources, Source::Peer(addr)) == is_polled(
        before.sources,
        Source::Peer(addr),
    )
}

/// Everything about every other peer is as it was.
pub open spec fn others_stay(before: ReactorState, after: ReactorState, addr: SocketAddr) -> bool {
    forall|other: SocketAddr| other != addr ==> #[trigger] stays(before, after, other)
}

/// One more entry stands at the end of the registry.
pub open spec fn is_added(
    before: Seq<Registration>,
    after: Seq<Registration>,
    entry: Registration,
) -> bool {
    &&& after.len() == before.len() + 1
    &&& after.last() == entry
    &&& forall|i: int| 0 <= i < before.len() ==> #[trigger] after[i] == before[i]
}

/// The first entry for a source was taken out, and the last of all has taken its place.
pub open spec fn is_taken_out(
    before: Seq<Registration>,
    after: Seq<Registration>,
    source: Source,
) -> bool {
    &&& !is_polled(before, source) ==> after == before
    &&& forall|at: int| #[trigger]
        is_first(before, source, at) ==> {
            &&& after.len() == before.len() - 1
            &&& forall|i: int|
                0 <= i < after.len() ==> #[trigger] after[i] == (if i == at {
                    before[before.len() - 1]
                } else {
                    before[i]
                })
        }
}

/// The first entry for a source is polled for writing, or is not. Nothing else changed.
pub open spec fn is_polled_for_writing(
    before: Seq<Registration>,
    after: Seq<Registration>,
    source: Source,
    write: bool,
) -> bool {
    &&& after.len() == before.len()
    &&& forall|i: int|
        0 <= i < before.len() ==> #[trigger] after[i] == (if is_first(before, source, i) {
            Registration { write, ..before[i] }
        } else {
            before[i]
        })
}

proof fn lemma_taken_out(before: Seq<Registration>, source: Source)
    ensures
        is_taken_out(before, unregistered(before, source), source),
{
    lemma_first(before, source);
}

proof fn lemma_polled_for_writing(before: Seq<Registration>, source: Source, on: bool)
    ensures
        is_polled_for_writing(
            before,
            switched(before, source, Interest::Write, on),
            source,
            on,
        ),
{
    lemma_first(before, source);
    let after = switched(before, source, Interest::Write, on);
    assert forall|i: int| 0 <= i < before.len() implies #[trigger] after[i] == (if is_first(
        before,
        source,
        i,
    ) {
        Registration { write: on, ..before[i] }
    } else {
        before[i]
    }) by {
        if is_first(before, source, i) {
            assert(position(before, source) == Some(i as nat));
        }
    }
}

/// The peer is gone: it has no socket, it is not being connected to, and the first entry for it
/// was taken out of the registry. All connections are kept, and no other peer is concerned.
pub open spec fn is_gone(before: ReactorState, after: ReactorState, addr: SocketAddr) -> bool {
    &&& !after.peers.contains_key(addr)
    &&& !after.connecting.contains(addr)
    &&& after.sessions == before.sessions
    &&& is_taken_out(before.sources, after.sources, Source::Peer(addr))
    &&& others_stay(before, after, addr)
}

proof fn lemma_gone(before: ReactorState, addr: SocketAddr)
    ensures
        is_gone(before, before.without_peer(addr), addr),
{
    let after = before.without_peer(addr);
    lemma_taken_out(before.sources, Source::Peer(addr));
    assert forall|other: SocketAddr| other != addr implies #[trigger] stays(
        before,
        after,
        other,
    ) by {
        lemma_others_stay_registered(before.sources, Source::Peer(addr), Source::Peer(other));
        lemma_first(before.sources, Source::Peer(other));
        lemma_first(after.sources, Source::Peer(other));
    }
}

/// The peer is there: it has a socket of this link, which is polled for everything.
pub open spec fn has_come(
    before: ReactorState,
    after: ReactorState,
    addr: SocketAddr,
    fd: i32,
    link: Link,
) -> bool {
    &&& after.peers.contains_key(addr)
    &&& after.peers[addr] == link
    &&& is_added(
        before.sources,
        after.sources,
        Registration { source: Source::Peer(addr), fd, read: true, write: true },
    )
    &&& after.sessions.contains_key(addr)
    &&& others_stay(before, after, addr)
}

proof fn lemma_added_keeps_others(
    before: Seq<Registration>,
    after: Seq<Registration>,
    entry: Registration,
    source: Source,
)
    requires
        is_added(before, after, entry),
        entry.source != source,
    ensures
        is_polled(after, source) == is_polled(before, source),
{
    if is_polled(before, source) {
        let i = choose|i: int| 0 <= i < before.len() && (#[trigger] before[i]).source == source;
        assert(after[i] == before[i]);
    }
    if is_polled(after, source) {
        let i = choose|i: int| 0 <= i < after.len() && (#[trigger] after[i]).source == source;
        assert(i < before.len());
        assert(after[i] == before[i]);
    }
}

proof fn lemma_come(
    before: ReactorState,
    after: ReactorState,
    addr: SocketAddr,
    fd: i32,
    link: Link,
    session: Session,
)
    requires
        after.peers == before.peers.insert(addr, link),
        after.sources == before.sources.push(
            Registration { source: Source::Peer(addr), fd, read: true, write: true },
        ),
        after.sessions == before.sessions.insert(addr, session),
        forall|other: SocketAddr|
            other != addr ==> after.connecting.contains(other) == before.connecting.contains(other),
    ensures
        has_come(before, after, addr, fd, link),
{
    let entry = Registration { source: Source::Peer(addr), fd, read: true, write: true };
    assert(is_added(before.sources, after.sources, entry));
    assert forall|other: SocketAddr| other != addr implies #[trigger] stays(
        before,
        after,
        other,
    ) by {
        lemma_added_keeps_others(before.sources, after.sources, entry, Source::Peer(other));
    }
}

/// A new reactor knows no peers and polls nothing.
pub proof fn law_new_reactors_are_empty(reactor: Reactor)
    requires
        call_ensures(Reactor::new, (), reactor),
    ensures
        reactor.wf(),
        forall|addr: SocketAddr|
            !(#[trigger] reactor@.peers.contains_key(addr)) && !reactor@.connecting.contains(addr)
                && !reactor@.sessions.contains_key(addr),
        reactor@.sources.len() == 0,
{
}

/// A peer is one that has a socket.
pub proof fn law_peers_have_sockets(reactor: &Reactor, addr: SocketAddr, result: bool)
    requires
        call_ensures(Reactor::is_peer, (reactor, &addr), result),
    ensures
        result <==> reactor@.peers.contains_key(addr),
{
}

/// A peer that is registered is there, and its connection is untouched, whatever was known of it
/// before.
pub proof fn law_peers_are_registered(reactor: &mut Reactor, addr: SocketAddr, fd: i32, link: Link)
    requires
        call_ensures(Reactor::register_peer, (reactor, addr, fd, link), ()),
    ensures
        final(reactor).wf(),
        has_come(old(reactor)@, final(reactor)@, addr, fd, link),
        untouched(final(reactor)@.sessions[addr]),
        final(reactor)@.sessions[addr].handshake_started is None,
        final(reactor)@.connecting == old(reactor)@.connecting,
{
    lemma_come(old(reactor)@, final(reactor)@, addr, fd, link, Session::new());
}

/// A peer that is unregistered is gone.
pub proof fn law_peers_are_unregistered(reactor: &mut Reactor, addr: SocketAddr)
    requires
        call_ensures(Reactor::unregister_peer, (reactor, &addr), ()),
    ensures
        final(reactor).wf(),
        is_gone(old(reactor)@, final(reactor)@, addr),
{
    lemma_gone(old(reactor)@, addr);
}

/// The listener is polled for reading, and nothing else changes.
pub proof fn law_the_listener_is_registered(reactor: &mut Reactor, fd: i32)
    requires
        call_ensures(Reactor::register_listener, (reactor, fd), ()),
    ensures
        final(reactor).wf(),
        is_added(
            old(reactor)@.sources,
            final(reactor)@.sources,
            Registration { source: Source::Listener, fd, read: true, write: false },
        ),
        final(reactor)@ == (ReactorState {
            sources: final(reactor)@.sources,
            ..old(reactor)@
        }),
{
}

/// A connection that is accepted makes an inbound peer, whose connection is untouched and begins
/// now. Accepting goes on after that, and only after that.
pub proof fn law_connections_are_accepted(
    reactor: &mut Reactor,
    outcome: Result<(SocketAddr, i32), ErrorKind>,
    now: LocalTime,
    result: Accepted,
)
    requires
        call_ensures(Reactor::accepted, (reactor, outcome, now), result),
    ensures
        final(reactor).wf(),
        match outcome {
            Ok((addr, fd)) => {
                &&& result == Accepted::Connected(Link::Inbound)
                &&& has_come(old(reactor)@, final(reactor)@, addr, fd, Link::Inbound)
                &&& untouched(final(reactor)@.sessions[addr])
                &&& final(reactor)@.sessions[addr].handshake_started == Some(now)
                &&& final(reactor)@.connecting == old(reactor)@.connecting
            },
            Err(kind) => {
                &&& result == (if kind == ErrorKind::WouldBlock {
                    Accepted::Done
                } else {
                    Accepted::Failed
                })
                &&& final(reactor)@ == old(reactor)@
            },
        },
{
    match outcome {
        Ok((addr, fd)) => {
            let before = old(reactor)@;
            let session = Session::new().begun(now);
            assert(before.sessions.insert(addr, Session::new()).insert(addr, session)
                == before.sessions.insert(addr, session));
            lemma_come(before, final(reactor)@, addr, fd, Link::Inbound, session);
        },
        Err(_) => {},
    }
}

/// The connection to a peer that was dialed: nothing has arrived, and it begins now.
pub open spec fn is_dialed(session: Session, now: LocalTime) -> bool {
    &&& session.handshake_started == Some(now)
    &&& untouched(Session { key_sent: None, handshake: None, ..session })
}

/// A peer that could be dialed is there, outbound and being connected to, whatever was known of
/// it before. A handshake with it is always tried: it gets the key that was made, unless the
/// transport refused to make one. A peer that could not be dialed changes nothing.
pub proof fn law_peers_are_dialed(
    reactor: &mut Reactor,
    addr: SocketAddr,
    outcome: Result<i32, ErrorKind>,
    now: LocalTime,
    result: Dialed,
)
    requires
        call_ensures(Reactor::dialed, (reactor, addr, outcome, now), result),
    ensures
        final(reactor).wf(),
        match outcome {
            Ok(fd) => {
                let session = final(reactor)@.sessions[addr];
                &&& has_come(old(reactor)@, final(reactor)@, addr, fd, Link::Outbound)
                &&& final(reactor)@.connecting.contains(addr)
                &&& is_dialed(session, now)
                &&& match result {
                    Dialed::Attempted(key) => {
                        &&& key@.len() == 64
                        &&& session.key_sent == Some(key@)
                        &&& session.handshake matches Some(handshake) && just_started(
                            handshake,
                            Role::Initiator,
                            key@,
                        )
                    },
                    Dialed::NoKey => {
                        &&& refused(Role::Initiator)
                        &&& session.key_sent is None
                        &&& session.handshake is None
                    },
                    _ => false,
                }
            },
            Err(kind) => {
                &&& result == (if kind == ErrorKind::AlreadyExists {
                    Dialed::AlreadyExists
                } else {
                    Dialed::Failed
                })
                &&& final(reactor)@ == old(reactor)@
            },
        },
{
    match outcome {
        Ok(fd) => {
            let before = old(reactor)@;
            let session = final(reactor)@.sessions[addr];
            assert(before.sessions.insert(addr, Session::new()).insert(addr, session)
                == before.sessions.insert(addr, session));
            lemma_come(before, final(reactor)@, addr, fd, Link::Outbound, session);
        },
        Err(_) => {},
    }
}

/// A handshake that was started for a peer is taken up, and its key goes out.
pub proof fn law_started_handshakes_are_taken_up(
    reactor: &mut Reactor,
    addr: SocketAddr,
    fd: i32,
    started: Option<(bip324::Handshake<'static>, Vec<u8>)>,
    now: LocalTime,
    key: Option<Vec<u8>>,
)
    requires
        call_ensures(Reactor::connect, (reactor, addr, fd, started, now), key),
    ensures
        final(reactor).wf(),
        has_come(old(reactor)@, final(reactor)@, addr, fd, Link::Outbound),
        final(reactor)@.connecting.contains(addr),
        is_dialed(final(reactor)@.sessions[addr], now),
        match started {
            Some((handshake, own_key)) => {
                &&& key matches Some(sent) && sent@ == own_key@
                &&& final(reactor)@.sessions[addr].key_sent == Some(own_key@)
                &&& final(reactor)@.sessions[addr].handshake == Some(handshake_state(handshake))
            },
            None => {
                &&& key is None
                &&& final(reactor)@.sessions[addr].key_sent is None
                &&& final(reactor)@.sessions[addr].handshake is None
            },
        },
{
    let before = old(reactor)@;
    let session = final(reactor)@.sessions[addr];
    assert(before.sessions.insert(addr, Session::new()).insert(addr, session)
        == before.sessions.insert(addr, session));
    lemma_come(before, final(reactor)@, addr, fd, Link::Outbound, session);
}

/// A peer is reported as connected once, when its socket can be written to for the first time
/// after it was dialed, with its link. A peer without a socket is a fault.
pub proof fn law_peers_are_connected_once(
    reactor: &mut Reactor,
    addr: SocketAddr,
    result: Result<Option<Link>, Fault>,
)
    requires
        call_ensures(Reactor::handle_writable, (reactor, &addr), result),
    ensures
        final(reactor).wf(),
        ({
            let before = old(reactor)@;
            let after = final(reactor)@;
            let open = before.peers.contains_key(addr) && is_polled(
                before.sources,
                Source::Peer(addr),
            );
            &&& result is Ok <==> open
            &&& result matches Err(fault) ==> fault == Fault::Unregistered && after == before
            &&& result matches Ok(link) ==> {
                &&& link is Some <==> before.connecting.contains(addr)
                &&& link matches Some(link) ==> link == before.peers[addr]
                &&& !after.connecting.contains(addr)
                &&& after.peers == before.peers
                &&& after.sources == before.sources
                &&& after.sessions == before.sessions
                &&& others_stay(before, after, addr)
            }
        }),
{
    lemma_first(old(reactor)@.sources, Source::Peer(addr));
}

/// Writing to a socket that ends well, or that has to go on later, is only a matter of what the
/// socket is polled for: not for writing any more, or for writing. If it ends otherwise, the peer
/// is gone, and is to be disconnected.
pub proof fn law_writing_ends(
    reactor: &mut Reactor,
    addr: SocketAddr,
    written: Result<(), ErrorKind>,
    disconnect: bool,
)
    requires
        call_ensures(Reactor::flushed, (reactor, &addr, written), disconnect),
    ensures
        final(reactor).wf(),
        disconnect <==> (written matches Err(kind) && kind != ErrorKind::WouldBlock && kind
            != ErrorKind::WriteZero),
        disconnect ==> is_gone(old(reactor)@, final(reactor)@, addr),
        !disconnect ==> {
            &&& is_polled_for_writing(
                old(reactor)@.sources,
                final(reactor)@.sources,
                Source::Peer(addr),
                written is Err,
            )
            &&& final(reactor)@ == (ReactorState {
                sources: final(reactor)@.sources,
                ..old(reactor)@
            })
        },
{
    lemma_gone(old(reactor)@, addr);
    lemma_polled_for_writing(old(reactor)@.sources, Source::Peer(addr), written is Err);
}

/// An event is served by what it is about: a peer by writing and reading as far as it is ready
/// for that, the listener by accepting, the waker by waking up. A peer whose file descriptor is
/// closed is not polled any more, but it stays a peer.
pub proof fn law_events_are_served(
    reactor: &mut Reactor,
    source: Source,
    readiness: Readiness,
    ready: Ready,
)
    requires
        call_ensures(Reactor::handle_event, (reactor, source, readiness), ready),
    ensures
        final(reactor).wf(),
        ready == Ready::Gone <==> (source is Peer && readiness.invalid),
        ready == Ready::Accept <==> source == Source::Listener,
        ready == Ready::Wake <==> source == Source::Waker,
        ready matches Ready::Peer { addr, write, read } ==> source == Source::Peer(addr) && write
            == readiness.writable && read == readiness.readable,
        ready != Ready::Gone ==> final(reactor)@ == old(reactor)@,
        ready == Ready::Gone ==> {
            &&& is_taken_out(old(reactor)@.sources, final(reactor)@.sources, source)
            &&& final(reactor)@ == (ReactorState {
                sources: final(reactor)@.sources,
                ..old(reactor)@
            })
        },
{
    lemma_taken_out(old(reactor)@.sources, source);
}

/// What is read from the socket of a peer that has none is ignored. Reading nothing, or failing
/// to read, ends a peer; having to wait does not.
pub proof fn law_reading_ends(
    reactor: &mut Reactor,
    addr: SocketAddr,
    read: Result<&[u8], ErrorKind>,
    result: Result<Readable, Fault>,
)
    requires
        call_ensures(Reactor::handle_readable, (reactor, &addr, read), result),
    ensures
        !old(reactor)@.peers.contains_key(addr) ==> {
            &&& result matches Ok(Readable::Nothing)
            &&& final(reactor)@ == old(reactor)@
        },
        old(reactor)@.peers.contains_key(addr) ==> match read {
            Ok(data) => data@.len() == 0 ==> {
                &&& result matches Ok(Readable::Closed)
                &&& is_gone(old(reactor)@, final(reactor)@, addr)
            },
            Err(kind) => if kind == ErrorKind::WouldBlock {
                &&& result matches Ok(Readable::Nothing)
                &&& final(reactor)@ == old(reactor)@
            } else {
                &&& result matches Ok(Readable::Failed)
                &&& is_gone(old(reactor)@, final(reactor)@, addr)
            },
        },
        result is Ok ==> final(reactor).wf(),
{
    lemma_gone(old(reactor)@, addr);
}

/// Only the connection to this peer has changed.
pub open spec fn only_session_changes(
    before: ReactorState,
    after: ReactorState,
    addr: SocketAddr,
) -> bool {
    &&& after.peers == before.peers
    &&& after.connecting == before.connecting
    &&& after.sources == before.sources
    &&& after.sessions.contains_key(addr)
    &&& others_stay(before, after, addr)
}

/// What was read arrives on the connection to the peer: first its key, which is answered; then
/// its terminator; then its messages. What is left to do is what has arrived.
pub proof fn law_reading_is_receiving(
    reactor: &mut Reactor,
    addr: SocketAddr,
    data: &[u8],
    result: Result<Readable, Fault>,
)
    requires
        call_ensures(
            Reactor::handle_readable,
            (reactor, &addr, Ok::<&[u8], ErrorKind>(data)),
            result,
        ),
        old(reactor)@.wf(),
        old(reactor)@.peers.contains_key(addr),
        data@.len() > 0,
    ensures
        ({
            let before = old(reactor)@.sessions[addr];
            let after = final(reactor)@.sessions[addr];
            &&& result is Ok ==> only_session_changes(old(reactor)@, final(reactor)@, addr)
            &&& before.key_received is None ==> match result {
                Ok(Readable::Answer { key, terminator }) => {
                    &&& terminator@.len() == 36
                    &&& key matches Some(key) ==> key@.len() == 64
                    &&& first_is_the_key(
                        before,
                        data@,
                        Ok(
                            Arrival::Answer {
                                key: match key {
                                    Some(key) => Some(key@),
                                    None => None,
                                },
                                terminator: terminator@,
                            },
                        ),
                        after,
                    )
                },
                Ok(_) => false,
                Err(fault) => first_is_the_key(before, data@, Err(fault), after),
            }
            &&& before.key_received is Some && before.terminator_received is None ==> {
                &&& result matches Ok(Readable::Nothing)
                &&& terminator_is_taken(before, data@, after)
            }
            &&& before.key_received is Some && before.terminator_received is Some ==> {
                &&& result is Ok ==> (result matches Ok(Readable::Messages(_)))
                &&& before.channel is None ==> (result matches Ok(Readable::Messages(messages))
                    && messages@ == data@ && after == before)
            }
        }),
{
    let before = old(reactor)@.sessions[addr];
    assert(old(reactor)@.sessions.contains_key(addr));
    let (arrival, session) = choose|arrival: Result<Arrival, Fault>, session: Session| #[trigger]
        before.receives(data@, arrival, session) && reading_of(result)
            == reading_of_arrival(arrival) && (reading_of(
            result,
        ) is Ok ==> final(reactor)@ == old(reactor)@.with_session(addr, session));
    law_arrivals(before, data@, arrival, session);
}

/// Every packet that a read finishes is delivered to the service, in order; one that is not
/// finished is kept for the next read. This is so for reads of any length, wherever they start
/// and end.
pub proof fn law_reading_delivers_messages(
    reactor: &mut Reactor,
    addr: SocketAddr,
    data: &[u8],
    result: Result<Readable, Fault>,
    states: Seq<CipherState>,
    messages: Seq<Seq<u8>>,
    packets: Seq<Seq<u8>>,
    from: int,
    to: int,
)
    requires
        call_ensures(
            Reactor::handle_readable,
            (reactor, &addr, Ok::<&[u8], ErrorKind>(data)),
            result,
        ),
        old(reactor)@.wf(),
        old(reactor)@.peers.contains_key(addr),
        reads_on(old(reactor)@.sessions[addr], states, messages, packets, from, to),
        data@ == stretch(packets, from, to),
        data@.len() > 0,
    ensures
        result matches Ok(Readable::Messages(contents)) && arrive(
            old(reactor)@.sessions[addr],
            states,
            messages,
            packets,
            from,
            to,
            contents@,
            final(reactor)@.sessions[addr],
        ),
        only_session_changes(old(reactor)@, final(reactor)@, addr),
{
    let before = old(reactor)@.sessions[addr];
    assert(old(reactor)@.sessions.contains_key(addr));
    let (arrival, session) = choose|arrival: Result<Arrival, Fault>, session: Session| #[trigger]
        before.receives(data@, arrival, session) && reading_of(result)
            == reading_of_arrival(arrival) && (reading_of(
            result,
        ) is Ok ==> final(reactor)@ == old(reactor)@.with_session(addr, session));
    law_messages_arrive(before, arrival, session, states, messages, packets, from, to);
}

/// Reading from the socket of a peer that is past its handshake comes to the same as receiving
/// messages on its connection: the same messages are delivered, or the same fault is reported.
pub proof fn law_reading_is_receiving_messages(
    reactor: &mut Reactor,
    info: &mut Bip324Info,
    addr: SocketAddr,
    data: &[u8],
    result: Result<Readable, Fault>,
    received: Result<Vec<u8>, Fault>,
)
    requires
        call_ensures(
            Reactor::handle_readable,
            (reactor, &addr, Ok::<&[u8], ErrorKind>(data)),
            result,
        ),
        call_ensures(Bip324Info::receive_messages, (info, data), received),
        old(reactor)@.wf(),
        old(reactor)@.peers.contains_key(addr),
        old(reactor)@.sessions[addr].terminator_received is Some,
        old(info)@ == old(reactor)@.sessions[addr],
        data@.len() > 0,
    ensures
        match received {
            Ok(messages) => {
                &&& result matches Ok(Readable::Messages(delivered)) && delivered@ == messages@
                &&& final(reactor)@.sessions[addr] == final(info)@
                &&& only_session_changes(old(reactor)@, final(reactor)@, addr)
            },
            Err(fault) => result == Err::<Readable, Fault>(fault),
        },
{
    let before = old(reactor)@.sessions[addr];
    assert(old(reactor)@.sessions.contains_key(addr));
    let (arrival, session) = choose|arrival: Result<Arrival, Fault>, session: Session| #[trigger]
        before.receives(data@, arrival, session) && reading_of(result)
            == reading_of_arrival(arrival) && (reading_of(
            result,
        ) is Ok ==> final(reactor)@ == old(reactor)@.with_session(addr, session));
}

/// Both keys were exchanged, and the terminator of the peer has arrived.
pub open spec fn is_complete(state: ReactorState, addr: SocketAddr) -> bool {
    &&& state.sessions.contains_key(addr)
    &&& state.sessions[addr].key_sent is Some
    &&& state.sessions[addr].key_received is Some
    &&& state.sessions[addr].terminator_received is Some
}

/// The connection to a peer that has a socket began more than five seconds ago.
pub open spec fn is_late(state: ReactorState, addr: SocketAddr, now: LocalTime) -> bool {
    &&& has_socket(state, addr)
    &&& state.sessions[addr].handshake_started matches Some(started) && now.millis - started.millis
        > 5000
}

/// The peer has a socket, and it is polled.
pub open spec fn has_socket(state: ReactorState, addr: SocketAddr) -> bool {
    state.peers.contains_key(addr) && is_polled(state.sources, Source::Peer(addr))
}

/// Who is ready, who falls back and who has to wait, in plain words: a peer has to wait as long as
/// its handshake is not complete, but no longer than five seconds from when its connection began.
pub proof fn law_who_has_to_wait(state: ReactorState, addr: SocketAddr, now: LocalTime)
    requires
        state.wf(),
    ensures
        state.is_open(addr) <==> has_socket(state, addr),
        state.is_ready(addr) <==> is_complete(state, addr),
        state.falls_back(addr, now) <==> !is_complete(state, addr) && is_late(state, addr, now),
        state.waits(addr, now) <==> !is_complete(state, addr) && !is_late(state, addr, now),
{
    lemma_first(state.sources, Source::Peer(addr));
}

/// A message went out on a connection: `bytes` are the message itself where there is no channel,
/// and the packet that the transport makes of it where there is one.
pub open spec fn went_out(
    before: Session,
    message: Seq<u8>,
    bytes: Seq<u8>,
    after: Session,
) -> bool {
    match before.channel {
        None => bytes == message && after == before,
        Some(channel) => {
            let (packet, keys) = encrypted_packet(channel.sending, message);
            &&& before.packets_written < u32::MAX
            &&& bytes == packet
            &&& after.channel matches Some(next) && next.receiving == channel.receiving
                && next.sending == (CipherState {
                keys,
                prefixes: channel.sending.prefixes + 1,
                payloads: channel.sending.payloads + 1,
            })
            &&& after == (Session {
                channel: after.channel,
                packets_written: before.packets_written + 1,
                ..before
            })
        },
    }
}

/// A message that the service asks to be sent. It is dropped if the peer has no socket. It goes to
/// the end of the queue if the peer has to wait. Otherwise it goes out, and the socket is polled
/// for writing; the queue is left alone.
pub proof fn law_messages_are_processed<R, E>(
    reactor: &mut Reactor,
    addr: SocketAddr,
    message: Vec<u8>,
    now: LocalTime,
    queue: &mut VecDeque<Io<R, E>>,
    result: Result<Output<R, E>, Fault>,
)
    requires
        call_ensures(
            Reactor::process_output::<R, E>,
            (reactor, Io::<R, E>::Write(addr, message), now, queue),
            result,
        ),
        old(reactor)@.wf(),
    ensures
        ({
            let before = old(reactor)@;
            let after = final(reactor)@;
            if !has_socket(before, addr) {
                &&& result matches Ok(Output::Nothing)
                &&& after == before
                &&& final(queue)@ == old(queue)@
            } else if !is_complete(before, addr) && !is_late(before, addr, now) {
                &&& result matches Ok(Output::Nothing)
                &&& after == before
                &&& final(queue)@ == old(queue)@.push(Io::Write(addr, message))
            } else {
                &&& final(queue)@ == old(queue)@
                &&& result is Err <==> before.sessions[addr].channel is Some
                    && before.sessions[addr].packets_written >= u32::MAX
                &&& result matches Err(fault) ==> fault == Fault::Exhausted
                &&& result matches Ok(output) ==> {
                    &&& output matches Output::Push(to, bytes) && to == addr && went_out(
                        before.sessions[addr],
                        message@,
                        bytes@,
                        after.sessions[addr],
                    )
                    &&& is_polled_for_writing(
                        before.sources,
                        after.sources,
                        Source::Peer(addr),
                        true,
                    )
                    &&& after.peers == before.peers
                    &&& after.connecting == before.connecting
                    &&& after.sessions == before.sessions.insert(addr, after.sessions[addr])
                }
            }
        }),
{
    law_who_has_to_wait(old(reactor)@, addr, now);
    lemma_polled_for_writing(old(reactor)@.sources, Source::Peer(addr), true);
}

/// A peer that has a socket is disconnected whenever the service asks for it, whatever its link:
/// it is gone, and it is left to shut its socket down and to tell the service the reason. For a
/// peer that has no socket there is nothing to do.
pub proof fn law_peers_are_disconnected<R, E>(
    reactor: &mut Reactor,
    addr: SocketAddr,
    reason: R,
    now: LocalTime,
    queue: &mut VecDeque<Io<R, E>>,
    result: Result<Output<R, E>, Fault>,
)
    requires
        call_ensures(
            Reactor::process_output::<R, E>,
            (reactor, Io::<R, E>::Disconnect(addr, reason), now, queue),
            result,
        ),
    ensures
        final(queue)@ == old(queue)@,
        if old(reactor)@.peers.contains_key(addr) {
            &&& result == Ok::<Output<R, E>, Fault>(Output::Disconnect(addr, reason))
            &&& is_gone(old(reactor)@, final(reactor)@, addr)
        } else {
            &&& result == Ok::<Output<R, E>, Fault>(Output::Nothing)
            &&& final(reactor)@ == old(reactor)@
        },
{
    lemma_gone(old(reactor)@, addr);
}

/// Whatever else the service asks for is handed on, and changes nothing: a peer to dial, a timer
/// that is due after the time asked for, an event to publish.
pub proof fn law_other_outputs_are_handed_on<R, E>(
    reactor: &mut Reactor,
    out: Io<R, E>,
    now: LocalTime,
    queue: &mut VecDeque<Io<R, E>>,
    result: Result<Output<R, E>, Fault>,
)
    requires
        call_ensures(Reactor::process_output::<R, E>, (reactor, out, now, queue), result),
        !(out is Write),
        !(out is Disconnect),
    ensures
        final(reactor)@ == old(reactor)@,
        final(queue)@ == old(queue)@,
        out matches Io::Connect(addr) ==> result == Ok::<Output<R, E>, Fault>(Output::Dial(addr)),
        out matches Io::Event(event) ==> result == Ok::<Output<R, E>, Fault>(
            Output::Publish(event),
        ),
        out matches Io::SetTimer(timeout) ==> (result matches Ok(Output::SetTimer(at)) && (
        now.millis + timeout.millis <= u128::MAX ==> at.millis == now.millis + timeout.millis)),
{
}

/// The connection after messages went out on it, one after the other.
pub open spec fn after_outgoing(session: Session, messages: Seq<Seq<u8>>) -> Session
    decreases messages.len(),
{
    if messages.len() == 0 {
        session
    } else {
        match session.written(messages[0]) {
            Ok((next, _)) => after_outgoing(next, messages.skip(1)),
            Err(_) => session,
        }
    }
}

/// Messages that go out on a connection one after the other each go out as one message does.
pub proof fn law_messages_go_out_one_by_one(session: Session, messages: Seq<Seq<u8>>)
    requires
        messages.len() > 0,
        session.written(messages[0]) is Ok,
    ensures
        ({
            let next = after_outgoing(session, messages.take(1));
            &&& went_out(session, messages[0], outgoing(session, messages)[0], next)
            &&& outgoing(session, messages).skip(1) == outgoing(next, messages.skip(1))
            &&& after_outgoing(session, messages) == after_outgoing(next, messages.skip(1))
        }),
{
    let (next, bytes) = session.written(messages[0])->Ok_0;
    let one = messages.take(1);
    assert(one[0] == messages[0]);
    assert(one.skip(1) == Seq::<Seq<u8>>::empty());
    assert(after_outgoing(next, one.skip(1)) == next);
    assert((seq![bytes] + outgoing(next, messages.skip(1))).skip(1) == outgoing(
        next,
        messages.skip(1),
    ));
}

/// The registry is as it was, but that the sockets of peers that something is handed to are polled
/// for writing.
pub open spec fn are_polled_for_writing(
    before: Seq<Registration>,
    after: Seq<Registration>,
    pushes: Seq<(SocketAddr, Seq<u8>)>,
) -> bool {
    &&& after.len() == before.len()
    &&& forall|i: int|
        0 <= i < before.len() ==> (#[trigger] after[i] == before[i] || after[i] == (Registration {
            write: true,
            ..before[i]
        }))
    &&& forall|i: int, addr: SocketAddr|
        #![trigger is_first(before, Source::Peer(addr), i)]
        is_first(before, Source::Peer(addr), i) ==> after[i] == (if pushes_to(pushes, addr).len()
            > 0 {
            Registration { write: true, ..before[i] }
        } else {
            before[i]
        })
}

proof fn lemma_first_stays(
    before: Seq<Registration>,
    after: Seq<Registration>,
    source: Source,
    i: int,
)
    requires
        after.len() == before.len(),
        forall|j: int| 0 <= j < before.len() ==> (#[trigger] after[j]).source == before[j].source,
    ensures
        is_first(before, source, i) == is_first(after, source, i),
{
    if is_first(before, source, i) {
        assert forall|j: int| 0 <= j < i implies (#[trigger] after[j]).source != source by {
            assert(before[j].source != source);
        }
    }
    if is_first(after, source, i) {
        assert forall|j: int| 0 <= j < i implies (#[trigger] before[j]).source != source by {
            assert(after[j].source != source);
        }
    }
}

proof fn lemma_drain_keeps_the_rest<R, E>(
    state: ReactorState,
    items: Seq<Io<R, E>>,
    now: LocalTime,
)
    ensures
        drain(state, items, now) matches Ok((next, _, pushes)) ==> {
            &&& next.peers == state.peers
            &&& next.connecting == state.connecting
            &&& are_polled_for_writing(state.sources, next.sources, pushes)
        },
    decreases items.len(),
{
    if items.len() > 0 && drain(state, items, now) is Ok {
        let rest = items.skip(1);
        match items[0] {
            Io::Write(to, message) => {
                if !state.waits(to, now) && state.is_open(to) {
                    let (middle, bytes) = state.sent(to, message@)->Ok_0;
                    lemma_drain_keeps_the_rest(middle, rest, now);
                    let (next, _, more) = drain(middle, rest, now)->Ok_0;
                    let pushes = seq![(to, bytes)] + more;
                    assert(pushes.skip(1) == more);
                    assert(pushes[0] == (to, bytes));
                    lemma_polled_for_writing(state.sources, Source::Peer(to), true);
                    let a = state.sources;
                    let b = middle.sources;
                    let c = next.sources;
                    assert forall|j: int| 0 <= j < a.len() implies (#[trigger] b[j]).source
                        == a[j].source by {
                        assert(b[j] == a[j] || b[j] == (Registration { write: true, ..a[j] }));
                    }
                    assert forall|i: int| 0 <= i < a.len() implies (#[trigger] c[i] == a[i] || c[i]
                        == (Registration { write: true, ..a[i] })) by {
                        assert(b[i] == a[i] || b[i] == (Registration { write: true, ..a[i] }));
                        assert(c[i] == b[i] || c[i] == (Registration { write: true, ..b[i] }));
                    }
                    assert forall|i: int, addr: SocketAddr|
                        #![trigger is_first(a, Source::Peer(addr), i)]
                        is_first(a, Source::Peer(addr), i) implies c[i] == (if pushes_to(
                        pushes,
                        addr,
                    ).len() > 0 {
                        Registration { write: true, ..a[i] }
                    } else {
                        a[i]
                    }) by {
                        lemma_first_stays(a, b, Source::Peer(addr), i);
                        assert(is_first(b, Source::Peer(addr), i));
                        assert(b[i] == (if is_first(a, Source::Peer(to), i) {
                            Registration { write: true, ..a[i] }
                        } else {
                            a[i]
                        }));
                    }
                } else {
                    lemma_drain_keeps_the_rest(state, rest, now);
                    let (_, _, more) = drain(state, rest, now)->Ok_0;
                    assert(Seq::<(SocketAddr, Seq<u8>)>::empty() + more == more);
                }
            },
            _ => {
                lemma_drain_keeps_the_rest(state, rest, now);
            },
        }
    }
}

proof fn lemma_drain_moves_one_connection<R, E>(
    state: ReactorState,
    items: Seq<Io<R, E>>,
    now: LocalTime,
    addr: SocketAddr,
)
    ensures
        drain(state, items, now) matches Ok((next, _, _)) ==> next.sessions[addr]
            == (if state.is_open(addr) && !state.waits(addr, now) {
            after_outgoing(state.sessions[addr], messages_to(items, addr))
        } else {
            state.sessions[addr]
        }),
    decreases items.len(),
{
    if items.len() > 0 && drain(state, items, now) is Ok {
        let rest = items.skip(1);
        match items[0] {
            Io::Write(to, message) => {
                if !state.waits(to, now) && state.is_open(to) {
                    let (middle, _) = state.sent(to, message@)->Ok_0;
                    lemma_sending_keeps_the_rest(
                        state,
                        to,
                        message@,
                        now,
                        addr,
                    );
                    lemma_drain_moves_one_connection(middle, rest, now, addr);
                    if to == addr {
                        let messages = messages_to(items, addr);
                        assert(messages == seq![message@] + messages_to(rest, addr));
                        assert(messages.skip(1) == messages_to(rest, addr));
                    }
                } else {
                    lemma_drain_moves_one_connection(state, rest, now, addr);
                }
            },
            _ => {
                lemma_drain_moves_one_connection(state, rest, now, addr);
            },
        }
    }
}

/// What becomes of the messages in a queue for one peer. If the peer has to wait, they stay, all of
/// them and in order. If its handshake is complete but its socket is gone, they are dropped.
/// Otherwise they go out, all of them and in order. Nothing but messages stays in the queue, and
/// none for a peer whose handshake is complete.
pub proof fn law_queues_are_processed<R, E>(
    reactor: &mut Reactor,
    now: LocalTime,
    queue: &mut VecDeque<Io<R, E>>,
    result: Result<Vec<(SocketAddr, Vec<u8>)>, Fault>,
    addr: SocketAddr,
)
    requires
        call_ensures(Reactor::process_queue::<R, E>, (reactor, now, queue), result),
        old(reactor)@.wf(),
    ensures
        result matches Ok(pushed) ==> {
            let before = old(reactor)@;
            let after = final(reactor)@;
            let asked = messages_to(old(queue)@, addr);
            let left = messages_to(final(queue)@, addr);
            let sent = pushes_to(pushes_of(pushed@), addr);
            &&& if !is_complete(before, addr) && !is_late(before, addr, now) {
                left == asked && sent.len() == 0 && after.sessions[addr] == before.sessions[addr]
            } else if !has_socket(before, addr) {
                left.len() == 0 && sent.len() == 0 && after.sessions[addr] == before.sessions[addr]
            } else {
                &&& left.len() == 0
                &&& sent == outgoing(before.sessions[addr], asked)
                &&& after.sessions[addr] == after_outgoing(before.sessions[addr], asked)
            }
            &&& forall|i: int|
                0 <= i < final(queue)@.len() ==> ((#[trigger] final(queue)@[i]) matches Io::Write(
                    to,
                    _,
                ) && !is_complete(after, to))
            &&& after.peers == before.peers
            &&& after.connecting == before.connecting
            &&& are_polled_for_writing(before.sources, after.sources, pushes_of(pushed@))
        },
{
    let before = old(reactor)@;
    let after = final(reactor)@;
    let items = old(queue)@;
    match result {
        Ok(pushed) => {
            law_who_has_to_wait(before, addr, now);
            law_nothing_is_overtaken(before, items, now, addr);
            law_queue_keeps_what_waits(before, items, now);
            law_draining_leaves_only_what_waits(before, items, now);
            lemma_drain_keeps_the_rest(before, items, now);
            lemma_drain_moves_one_connection(before, items, now, addr);
            assert(after.waits(addr, now) == before.waits(addr, now));
            if before.is_open(addr) {
                lemma_drain_to_one_peer(before, items, now, addr);
            } else {
                lemma_nothing_to_closed_peers(before, items, now, addr);
            }
            assert forall|i: int| 0 <= i < final(queue)@.len() implies ((
            #[trigger] final(queue)@[i]) matches Io::Write(to, _) && !is_complete(after, to)) by {
                assert(only_waiting(after, final(queue)@));
                match final(queue)@[i] {
                    Io::Write(to, _) => {
                        assert(!after.is_ready(to));
                    },
                    _ => {},
                }
            }
        },
        Err(_) => {},
    }
}

proof fn lemma_nothing_to_closed_peers<R, E>(
    state: ReactorState,
    items: Seq<Io<R, E>>,
    now: LocalTime,
    addr: SocketAddr,
)
    requires
        !state.is_open(addr),
    ensures
        drain(state, items, now) matches Ok((_, _, pushes)) ==> pushes_to(
            pushes,
            addr,
        ).len() == 0,
    decreases items.len(),
{
    if items.len() > 0 && drain(state, items, now) is Ok {
        let rest = items.skip(1);
        match items[0] {
            Io::Write(to, message) => {
                if !state.waits(to, now) && state.is_open(to) {
                    let (middle, bytes) = state.sent(to, message@)->Ok_0;
                    lemma_sending_keeps_the_rest(
                        state,
                        to,
                        message@,
                        now,
                        addr,
                    );
                    lemma_nothing_to_closed_peers(middle, rest, now, addr);
                    let (_, _, more) = drain(middle, rest, now)->Ok_0;
                    let pushes = seq![(to, bytes)] + more;
                    assert(pushes.skip(1) == more);
                    assert(pushes[0] == (to, bytes));
                } else {
                    lemma_nothing_to_closed_peers(state, rest, now, addr);
                    let (_, _, more) = drain(state, rest, now)->Ok_0;
                    assert(Seq::<(SocketAddr, Seq<u8>)>::empty() + more == more);
                }
            },
            _ => {
                lemma_nothing_to_closed_peers(state, rest, now, addr);
            },
        }
    }
}

/// A queue can be gone through unless the ciphers of a peer are used up.
pub proof fn law_queues_do_not_fail<R, E>(
    state: ReactorState,
    items: Seq<Io<R, E>>,
    now: LocalTime,
)
    requires
        forall|addr: SocketAddr|
            (#[trigger] state.sessions[addr]).channel is Some
                ==> state.sessions[addr].packets_written + items.len() <= u32::MAX,
    ensures
        drain(state, items, now) is Ok,
    decreases items.len(),
{
    if items.len() > 0 {
        let rest = items.skip(1);
        match items[0] {
            Io::Write(to, message) => {
                if !state.waits(to, now) && state.is_open(to) {
                    assert(state.sessions[to].channel is Some
                        ==> state.sessions[to].packets_written + items.len() <= u32::MAX);
                    let (next, _) = state.sent(to, message@)->Ok_0;
                    assert forall|addr: SocketAddr|
                        (#[trigger] next.sessions[addr]).channel is Some implies
                        next.sessions[addr].packets_written + rest.len() <= u32::MAX by {
                        assert(state.sessions[addr].channel is Some
                            ==> state.sessions[addr].packets_written + items.len() <= u32::MAX);
                        if addr != to {
                            assert(next.sessions[addr] == state.sessions[addr]);
                        }
                    }
                    law_queues_do_not_fail(next, rest, now);
                } else {
                    law_queues_do_not_fail(state, rest, now);
                }
            },
            _ => {
                law_queues_do_not_fail(state, rest, now);
            },
        }
    }
}

/// Going through a queue succeeds as long as every channel has room for as many packets as there
/// are messages.
pub proof fn law_processing_queues_succeeds<R, E>(
    reactor: &mut Reactor,
    now: LocalTime,
    queue: &mut VecDeque<Io<R, E>>,
    result: Result<Vec<(SocketAddr, Vec<u8>)>, Fault>,
)
    requires
        call_ensures(Reactor::process_queue::<R, E>, (reactor, now, queue), result),
    ensures
        (forall|addr: SocketAddr|
            (#[trigger] old(reactor)@.sessions[addr]).channel is Some
                ==> old(reactor)@.sessions[addr].packets_written + old(queue)@.len() <= u32::MAX)
            ==> result is Ok,
        result matches Err(fault) ==> fault == Fault::Exhausted,
        result is Ok ==> final(reactor).wf(),
{
    law_queues_fail_by_exhaustion(old(reactor)@, old(queue)@, now);
    if forall|addr: SocketAddr|
        (#[trigger] old(reactor)@.sessions[addr]).channel is Some
            ==> old(reactor)@.sessions[addr].packets_written + old(queue)@.len() <= u32::MAX {
        law_queues_do_not_fail(old(reactor)@, old(queue)@, now);
    }
}

/// If going through a queue fails, the ciphers of a peer are used up.
pub proof fn law_queues_fail_by_exhaustion<R, E>(
    state: ReactorState,
    items: Seq<Io<R, E>>,
    now: LocalTime,
)
    ensures
        drain(state, items, now) matches Err(fault) ==> fault == Fault::Exhausted,
    decreases items.len(),
{
    if items.len() > 0 {
        let rest = items.skip(1);
        match items[0] {
            Io::Write(to, message) => {
                if !state.waits(to, now) && state.is_open(to) {
                    match state.sent(to, message@) {
                        Ok((next, _)) => {
                            law_queues_fail_by_exhaustion(next, rest, now);
                        },
                        Err(_) => {},
                    }
                } else {
                    law_queues_fail_by_exhaustion(state, rest, now);
                }
            },
            _ => {
                law_queues_fail_by_exhaustion(state, rest, now);
            },
        }
    }
}

/// What is handed to sockets is listed as it is.
pub proof fn law_pushes_are_listed(pushed: Seq<(SocketAddr, Vec<u8>)>)
    ensures
        pushes_of(pushed).len() == pushed.len(),
        forall|i: int|
            0 <= i < pushed.len() ==> #[trigger] pushes_of(pushed)[i] == (
                pushed[i].0,
                pushed[i].1@,
            ),
{
}

/// The wait for i/o ends with the next timer, but never takes longer than an hour. Without a timer
/// it takes an hour.
pub proof fn law_waits_are_bounded(next: Option<LocalDuration>, timeout: LocalDuration)
    requires
        call_ensures(wait_timeout, (next,), timeout),
    ensures
        timeout.millis <= 3_600_000,
        next matches Some(duration) ==> timeout.millis <= duration.millis,
        timeout.millis == 3_600_000 || (next matches Some(duration) && timeout.millis
            == duration.millis),
{
}

/// The reactor wakes up for events unless the wait has failed, and running out of time is no
/// failure.
pub proof fn law_waking_up(waited: Result<usize, ErrorKind>, woken: Woken)
    requires
        call_ensures(wake_up, (waited,), woken),
    ensures
        woken == Woken::Events <==> waited is Ok,
        woken == Woken::TimedOut <==> (waited matches Err(kind) && kind == ErrorKind::TimedOut),
        woken == Woken::Failed <==> (waited matches Err(kind) && kind != ErrorKind::TimedOut),
{
}

/// The service is woken up if any timer has expired at all.
pub proof fn law_any_timer_counts(expired: usize, wake: bool)
    requires
        call_ensures(timer_expired, (expired,), wake),
    ensures
        !wake <==> expired == 0,
{
}

} // verus!
