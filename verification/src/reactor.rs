//! The reactor: what is known of peers, and what to do when something happens.
//!
//! Sockets, clocks and the service are outside. Each function takes what was asked for or
//! what happened, brings the state up to date and says what is left to do.
use std::collections::VecDeque;

use vstd::prelude::*;

use crate::addr::{Link, SocketAddr};
use crate::bip324_info::GARBAGE_TERMINATOR_BYTES;
use crate::framing::{Fault, READ_BUFFER_SIZE};
use crate::io::{Accepted, Dialed, ErrorKind, Io, Output, Readable, Readiness, Ready, Woken};
use crate::peers::PeerMap;
use crate::session::{
    bytes_of, refused, start_handshake, start_of, started_handshake, Arrival, Received, Session,
};
use crate::sources::{
    is_registered, new_sources, position, register, registered, registrations, set_interest,
    switched, unregister, unregistered, unset_interest, Interest, Registration, Source,
};
use crate::time::{LocalDuration, LocalTime};
use crate::transport::{
    handshake_state, HandshakeState, Role, KEY_BYTES, MAX_PLAINTEXT_BYTES, PACKET_OVERHEAD_BYTES,
};

pub use crate::session::Bip324Info;

verus! {

/// Maximum number of minutes to wait for i/o.
pub const WAIT_TIMEOUT_MINS: u64 = 60;

/// A single-threaded non-blocking reactor.
pub struct Reactor {
    peers: PeerMap<Link>,
    connecting: PeerMap<()>,
    sources: popol::Sources<Source>,
    bip324_info: PeerMap<Bip324Info>,
}

/// What a [`Reactor`] holds.
pub struct ReactorState {
    /// The peers that have a socket.
    pub peers: Map<SocketAddr, Link>,
    /// The peers whose connection is not established yet.
    pub connecting: Set<SocketAddr>,
    /// What is polled.
    pub sources: Seq<Registration>,
    /// The encrypted connections, also of peers that are gone.
    pub sessions: Map<SocketAddr, Session>,
}

impl ReactorState {
    /// No peers, and nothing to poll.
    pub open spec fn new() -> ReactorState {
        ReactorState {
            peers: Map::empty(),
            connecting: Set::empty(),
            sources: Seq::empty(),
            sessions: Map::empty(),
        }
    }

    /// Every peer has an encrypted connection, and only peers are being connected to.
    pub open spec fn wf(self) -> bool {
        &&& self.peers.dom().subset_of(self.sessions.dom())
        &&& self.connecting.subset_of(self.peers.dom())
        &&& forall|addr: SocketAddr| #[trigger]
            self.sessions.contains_key(addr) ==> self.sessions[addr].wf()
    }

    /// There is something to poll for the peer.
    pub open spec fn has_source(self, addr: SocketAddr) -> bool {
        position(self.sources, Source::Peer(addr)) is Some
    }

    /// Messages for the peer can go out.
    pub open spec fn is_ready(self, addr: SocketAddr) -> bool {
        self.sessions.contains_key(addr) && self.sessions[addr].ready()
    }

    /// The peer has a socket, and it is polled.
    pub open spec fn is_open(self, addr: SocketAddr) -> bool {
        self.peers.contains_key(addr) && self.has_source(addr)
    }

    /// The state with a peer that has just got a socket.
    pub open spec fn with_peer(self, addr: SocketAddr, fd: i32, link: Link) -> ReactorState {
        ReactorState {
            peers: self.peers.insert(addr, link),
            sources: registered(self.sources, Source::Peer(addr), fd, Interest::All),
            sessions: self.sessions.insert(addr, Session::new()),
            ..self
        }
    }

    /// The peer has a socket, but its handshake is not waited for any longer: the connection
    /// falls back to the unencrypted transport.
    pub open spec fn falls_back(self, addr: SocketAddr, now: LocalTime) -> bool {
        self.is_open(addr) && self.sessions[addr].lapsed(now)
    }

    /// Messages for the peer have to wait.
    pub open spec fn waits(self, addr: SocketAddr, now: LocalTime) -> bool {
        !self.is_ready(addr) && !self.falls_back(addr, now)
    }

    /// The state with a peer whose connection was just accepted.
    pub open spec fn accepting(self, addr: SocketAddr, fd: i32, now: LocalTime) -> ReactorState {
        self.with_peer(addr, fd, Link::Inbound).with_session(addr, Session::new().begun(now))
    }

    /// The state with a peer that was just dialed, and the handshake that was started with it.
    pub open spec fn dialing(
        self,
        addr: SocketAddr,
        fd: i32,
        started: Option<(HandshakeState, Seq<u8>)>,
        now: LocalTime,
    ) -> ReactorState {
        let begun = Session::new().begun(now);
        let session = match started {
            Some((handshake, key)) => begun.started(handshake, key),
            None => begun,
        };
        ReactorState {
            connecting: self.connecting.insert(addr),
            ..self.with_peer(addr, fd, Link::Outbound).with_session(addr, session)
        }
    }

    /// The state without the peer. Its encrypted connection is kept.
    pub open spec fn without_peer(self, addr: SocketAddr) -> ReactorState {
        ReactorState {
            peers: self.peers.remove(addr),
            connecting: self.connecting.remove(addr),
            sources: unregistered(self.sources, Source::Peer(addr)),
            ..self
        }
    }

    /// The state with another encrypted connection for the peer.
    pub open spec fn with_session(self, addr: SocketAddr, session: Session) -> ReactorState {
        ReactorState { sessions: self.sessions.insert(addr, session), ..self }
    }

    /// `result` comes of what was read from the socket of a peer, and `next` is the state
    /// afterwards. Nothing is said of a state that cannot go on.
    pub open spec fn reads(
        self,
        addr: SocketAddr,
        read: Result<Seq<u8>, ErrorKind>,
        result: Result<Reading, Fault>,
        next: ReactorState,
    ) -> bool {
        if !self.peers.contains_key(addr) {
            result == Ok::<Reading, Fault>(Reading::Nothing) && next == self
        } else {
            match read {
                Ok(data) => if data.len() == 0 {
                    result == Ok::<Reading, Fault>(Reading::Closed) && next == self.without_peer(
                        addr,
                    )
                } else {
                    exists|arrival: Result<Arrival, Fault>, session: Session| #[trigger]
                        self.sessions[addr].receives(data, arrival, session) && result
                            == reading_of_arrival(arrival) && (result is Ok ==> next
                            == self.with_session(addr, session))
                },
                Err(ErrorKind::WouldBlock) => result == Ok::<Reading, Fault>(Reading::Nothing)
                    && next == self,
                Err(_) => result == Ok::<Reading, Fault>(Reading::Failed) && next
                    == self.without_peer(addr),
            }
        }
    }

    /// What goes out to a peer for a message, and the state afterwards.
    pub open spec fn sent(self, addr: SocketAddr, message: Seq<u8>) -> Result<
        (ReactorState, Seq<u8>),
        Fault,
    > {
        match self.sessions[addr].written(message) {
            Ok((session, bytes)) => Ok(
                (self.with_session(addr, session).polling_write(addr), bytes),
            ),
            Err(fault) => Err(fault),
        }
    }

    /// The state once bytes for a peer were handed to its socket.
    pub open spec fn polling_write(self, addr: SocketAddr) -> ReactorState {
        ReactorState {
            sources: switched(self.sources, Source::Peer(addr), Interest::Write, true),
            ..self
        }
    }
}

/// No message is longer than what can be encrypted.
pub open spec fn writes_fit<R, E>(items: Seq<Io<R, E>>) -> bool {
    forall|i: int|
        0 <= i < items.len() ==> ((#[trigger] items[i]) matches Io::Write(_, message)
            ==> message@.len() <= MAX_PLAINTEXT_BYTES)
}

/// What becomes of a queue: the state afterwards, what stays in the queue, and what is handed
/// to the sockets of peers.
pub type Drained<R, E> = Result<
    (ReactorState, Seq<Io<R, E>>, Seq<(SocketAddr, Seq<u8>)>),
    Fault,
>;

/// Items that stay and bytes that go out in front of what becomes of the rest of a queue.
pub open spec fn drained_before<R, E>(
    kept: Seq<Io<R, E>>,
    pushes: Seq<(SocketAddr, Seq<u8>)>,
    rest: Drained<R, E>,
) -> Drained<R, E> {
    match rest {
        Ok((state, more_kept, more_pushes)) => Ok((state, kept + more_kept, pushes + more_pushes)),
        Err(fault) => Err(fault),
    }
}

/// What becomes of a queue. A message stays as long as its peer is not ready for it, unless
/// the connection to the peer falls back. If the peer is ready but its socket is gone, the
/// message is dropped. Nothing but messages stays in a queue.
pub open spec fn drain<R, E>(
    state: ReactorState,
    items: Seq<Io<R, E>>,
    now: LocalTime,
) -> Drained<R, E>
    decreases items.len(),
{
    if items.len() == 0 {
        Ok((state, Seq::empty(), Seq::empty()))
    } else {
        match items[0] {
            Io::Write(addr, message) => if state.waits(addr, now) {
                drained_before(seq![items[0]], Seq::empty(), drain(state, items.skip(1), now))
            } else if !state.is_open(addr) {
                drain(state, items.skip(1), now)
            } else {
                match state.sent(addr, message@) {
                    Ok((next, bytes)) => drained_before(
                        Seq::empty(),
                        seq![(addr, bytes)],
                        drain(next, items.skip(1), now),
                    ),
                    Err(fault) => Err(fault),
                }
            },
            _ => drain(state, items.skip(1), now),
        }
    }
}

/// Every message that goes out of a queue can be read by its peer.
pub open spec fn drains_faithfully<R, E>(
    state: ReactorState,
    items: Seq<Io<R, E>>,
    now: LocalTime,
) -> bool
    decreases items.len(),
{
    items.len() > 0 ==> match items[0] {
        Io::Write(addr, message) => if !state.waits(addr, now) && state.is_open(addr) {
            &&& state.sessions[addr].faithful(message@)
            &&& state.sent(addr, message@) matches Ok((next, _)) ==> drains_faithfully(
                next,
                items.skip(1),
                now,
            )
        } else {
            drains_faithfully(state, items.skip(1), now)
        },
        _ => drains_faithfully(state, items.skip(1), now),
    }
}

/// What is left to do for something that the service asked for.
pub enum Effect<R, E> {
    Nothing,
    Push(SocketAddr, Seq<u8>),
    Dial(SocketAddr),
    Disconnect(SocketAddr, R),
    SetTimer(LocalTime),
    Publish(E),
}

/// What the result of [`Reactor::process_output`] stands for.
pub open spec fn effect_of<R, E>(output: Output<R, E>) -> Effect<R, E> {
    match output {
        Output::Nothing => Effect::Nothing,
        Output::Push(addr, bytes) => Effect::Push(addr, bytes@),
        Output::Dial(addr) => Effect::Dial(addr),
        Output::Disconnect(addr, reason) => Effect::Disconnect(addr, reason),
        Output::SetTimer(at) => Effect::SetTimer(at),
        Output::Publish(event) => Effect::Publish(event),
    }
}

/// What becomes of something that the service asks for: the state and the queue afterwards,
/// and what is left to do. A message for a peer that has no socket is dropped. One for a peer
/// that is not ready goes to the end of the queue, unless the connection to the peer falls
/// back.
pub open spec fn processed<R, E>(
    state: ReactorState,
    queue: Seq<Io<R, E>>,
    out: Io<R, E>,
    now: LocalTime,
) -> Result<(ReactorState, Seq<Io<R, E>>, Effect<R, E>), Fault> {
    match out {
        Io::Write(addr, message) => if !state.is_open(addr) {
            Ok((state, queue, Effect::Nothing))
        } else if state.waits(addr, now) {
            Ok((state, queue.push(out), Effect::Nothing))
        } else {
            match state.sent(addr, message@) {
                Ok((next, bytes)) => Ok((next, queue, Effect::Push(addr, bytes))),
                Err(fault) => Err(fault),
            }
        },
        Io::Connect(addr) => Ok((state, queue, Effect::Dial(addr))),
        Io::Disconnect(addr, reason) => if state.peers.contains_key(addr) {
            Ok((state.without_peer(addr), queue, Effect::Disconnect(addr, reason)))
        } else {
            Ok((state, queue, Effect::Nothing))
        },
        Io::SetTimer(timeout) => Ok(
            (
                state,
                queue,
                Effect::SetTimer(LocalTime { millis: (now.millis + timeout.millis) as u128 }),
            ),
        ),
        Io::Event(event) => Ok((state, queue, Effect::Publish(event))),
    }
}

/// The bytes in a list of what is handed to sockets.
pub open spec fn pushes_of(pushed: Seq<(SocketAddr, Vec<u8>)>) -> Seq<(SocketAddr, Seq<u8>)> {
    pushed.map_values(|push: (SocketAddr, Vec<u8>)| (push.0, push.1@))
}

proof fn lemma_pushes_push(pushed: Seq<(SocketAddr, Vec<u8>)>, push: (SocketAddr, Vec<u8>))
    ensures
        pushes_of(pushed.push(push)) == pushes_of(pushed).push((push.0, push.1@)),
{
    assert(pushes_of(pushed.push(push)) =~= pushes_of(pushed).push((push.0, push.1@)));
}

proof fn lemma_nothing_drained_before<R, E>(rest: Drained<R, E>)
    ensures
        drained_before(Seq::empty(), Seq::empty(), rest) == rest,
{
    match rest {
        Ok((_, kept, pushes)) => {
            assert(Seq::<Io<R, E>>::empty() + kept == kept);
            assert(Seq::<(SocketAddr, Seq<u8>)>::empty() + pushes == pushes);
        },
        Err(_) => {},
    }
}

proof fn lemma_drained_push<R, E>(
    kept: Seq<Io<R, E>>,
    pushes: Seq<(SocketAddr, Seq<u8>)>,
    more_kept: Seq<Io<R, E>>,
    more_pushes: Seq<(SocketAddr, Seq<u8>)>,
    rest: Drained<R, E>,
)
    ensures
        drained_before(kept, pushes, drained_before(more_kept, more_pushes, rest))
            == drained_before(kept + more_kept, pushes + more_pushes, rest),
{
    match rest {
        Ok((_, last_kept, last_pushes)) => {
            assert(kept + (more_kept + last_kept) == (kept + more_kept) + last_kept);
            assert(pushes + (more_pushes + last_pushes) == (pushes + more_pushes) + last_pushes);
        },
        Err(_) => {},
    }
}

/// What is left to do once a socket was read.
pub enum Reading {
    Nothing,
    Answer { key: Option<Seq<u8>>, terminator: Seq<u8> },
    Messages(Seq<u8>),
    Closed,
    Failed,
}

/// What the result of [`Reactor::handle_readable`] stands for.
pub open spec fn reading_of(result: Result<Readable, Fault>) -> Result<Reading, Fault> {
    match result {
        Ok(Readable::Nothing) => Ok(Reading::Nothing),
        Ok(Readable::Answer { key, terminator }) => Ok(
            Reading::Answer { key: bytes_of(key), terminator: terminator@ },
        ),
        Ok(Readable::Messages(messages)) => Ok(Reading::Messages(messages@)),
        Ok(Readable::Closed) => Ok(Reading::Closed),
        Ok(Readable::Failed) => Ok(Reading::Failed),
        Err(fault) => Err(fault),
    }
}

/// What is left to do for what arrived on a connection.
pub open spec fn reading_of_arrival(arrival: Result<Arrival, Fault>) -> Result<Reading, Fault> {
    match arrival {
        Ok(Arrival::Answer { key, terminator }) => Ok(Reading::Answer { key, terminator }),
        Ok(Arrival::Nothing) => Ok(Reading::Nothing),
        Ok(Arrival::Messages(messages)) => Ok(Reading::Messages(messages)),
        Err(fault) => Err(fault),
    }
}

impl View for Reactor {
    type V = ReactorState;

    closed spec fn view(&self) -> ReactorState {
        ReactorState {
            peers: self.peers@,
            connecting: self.connecting@.dom(),
            sources: registrations(self.sources),
            sessions: self.bip324_info@.map_values(|info: Bip324Info| info@),
        }
    }
}

impl Reactor {
    /// The maps are in order, every peer has an encrypted connection, and only peers are being
    /// connected to.
    pub closed spec fn wf(&self) -> bool {
        &&& self.peers.wf()
        &&& self.connecting.wf()
        &&& self.bip324_info.wf()
        &&& self@.wf()
    }

    /// What [`Reactor::wf`] says of the state.
    pub proof fn lemma_wf(&self)
        requires
            self.wf(),
        ensures
            self@.wf(),
    {
    }

    /// A reactor without peers that polls nothing.
    pub fn new() -> (reactor: Reactor)
        ensures
            reactor.wf(),
            reactor@ == ReactorState::new(),
    {
        let reactor = Reactor {
            peers: PeerMap::new(),
            connecting: PeerMap::new(),
            sources: new_sources(),
            bip324_info: PeerMap::new(),
        };
        assert(reactor@.sessions == Map::<SocketAddr, Session>::empty());
        assert(reactor@.connecting == Set::<SocketAddr>::empty());
        reactor
    }

    /// The registry of what is polled, to be polled or added to.
    pub fn sources_mut(&mut self) -> (sources: &mut popol::Sources<Source>)
        requires
            old(self).wf(),
        ensures
            registrations(*sources) == old(self)@.sources,
            final(self).wf(),
            final(self)@ == (ReactorState {
                sources: registrations(*final(sources)),
                ..old(self)@
            }),
    {
        &mut self.sources
    }

    /// Whether the peer has a socket.
    pub fn is_peer(&self, addr: &SocketAddr) -> (result: bool)
        requires
            self.wf(),
        ensures
            result == self@.peers.contains_key(*addr),
    {
        self.peers.contains_key(addr)
    }

    /// Registers a peer with the reactor.
    pub fn register_peer(&mut self, addr: SocketAddr, fd: i32, link: Link)
        requires
            old(self).wf(),
        ensures
            final(self).wf(),
            final(self)@ == old(self)@.with_peer(addr, fd, link),
    {
        let ghost before = self@;
        register(&mut self.sources, Source::Peer(addr), fd, Interest::All);
        self.peers.insert(addr, link);
        let info = Bip324Info::default();
        self.bip324_info.insert(addr, info);
        assert(self@.sessions == before.sessions.insert(addr, Session::new()));
    }

    /// Unregisters a peer from the reactor.
    pub fn unregister_peer(&mut self, addr: &SocketAddr)
        requires
            old(self).wf(),
        ensures
            final(self).wf(),
            final(self)@ == old(self)@.without_peer(*addr),
    {
        let ghost before = self@;
        self.connecting.remove(addr);
        self.peers.remove(addr);
        unregister(&mut self.sources, &Source::Peer(*addr));
        assert(self@.connecting == before.connecting.remove(*addr));
    }

    /// Takes what was read from the socket of a peer. Reading nothing means that the peer has
    /// closed the connection. A peer without a socket is ignored: it may have been
    /// disconnected by a write just before.
    pub fn handle_readable(&mut self, addr: &SocketAddr, read: Result<&[u8], ErrorKind>) -> (result:
        Result<Readable, Fault>)
        requires
            old(self).wf(),
            read matches Ok(data) ==> data@.len() <= READ_BUFFER_SIZE,
        ensures
            result is Ok ==> final(self).wf(),
            old(self)@.reads(
                *addr,
                match read {
                    Ok(data) => Ok(data@),
                    Err(kind) => Err(kind),
                },
                reading_of(result),
                final(self)@,
            ),
            match result {
                Ok(Readable::Answer { key, terminator }) => {
                    &&& key matches Some(key) ==> key@.len() == KEY_BYTES
                    &&& terminator@.len() == GARBAGE_TERMINATOR_BYTES + PACKET_OVERHEAD_BYTES
                },
                _ => true,
            },
    {
        if !self.peers.contains_key(addr) {
            return Ok(Readable::Nothing);
        }
        match read {
            Ok(data) => {
                if data.len() == 0 {
                    self.unregister_peer(addr);
                    return Ok(Readable::Closed);
                }
                let ghost before = self@;
                match self.bip324_info.get_mut(addr) {
                    Some(info) => {
                        assert(info@ == before.sessions[*addr]);
                        let result = match info.receive(data) {
                            Ok(Received::Answer { key, terminator }) => Ok(
                                Readable::Answer { key, terminator },
                            ),
                            Ok(Received::Nothing) => Ok(Readable::Nothing),
                            Ok(Received::Messages(messages)) => Ok(Readable::Messages(messages)),
                            Err(fault) => Err(fault),
                        };
                        let ghost session = info@;
                        assert(self@.sessions == before.sessions.insert(*addr, session));
                        result
                    },
                    None => {
                        assert(false);
                        Ok(Readable::Nothing)
                    },
                }
            },
            Err(ErrorKind::WouldBlock) => Ok(Readable::Nothing),
            Err(_) => {
                self.unregister_peer(addr);
                Ok(Readable::Failed)
            },
        }
    }

    /// Takes note that the socket of a peer can be written to. If the peer was being
    /// connected to, it is now, and the result is the link to tell the service of.
    pub fn handle_writable(&mut self, addr: &SocketAddr) -> (result: Result<Option<Link>, Fault>)
        requires
            old(self).wf(),
        ensures
            final(self).wf(),
            if !old(self)@.has_source(*addr) || !old(self)@.peers.contains_key(*addr) {
                &&& result == Err::<Option<Link>, Fault>(Fault::Unregistered)
                &&& final(self)@ == old(self)@
            } else {
                &&& result == Ok::<Option<Link>, Fault>(
                    if old(self)@.connecting.contains(*addr) {
                        Some(old(self)@.peers[*addr])
                    } else {
                        None
                    },
                )
                &&& final(self)@ == (ReactorState {
                    connecting: old(self)@.connecting.remove(*addr),
                    ..old(self)@
                })
            },
    {
        let ghost before = self@;
        if !is_registered(&mut self.sources, &Source::Peer(*addr)) {
            return Err(Fault::Unregistered);
        }
        let link = match self.peers.get(addr) {
            Some(link) => *link,
            None => {
                return Err(Fault::Unregistered);
            },
        };
        let connected = self.connecting.remove(addr);
        assert(self@.connecting == before.connecting.remove(*addr));
        if connected {
            Ok(Some(link))
        } else {
            Ok(None)
        }
    }

    /// Takes how writing to the socket of a peer ended. Once everything is written, the socket
    /// is no longer polled for writing; as long as it is not, it is. After any other error the
    /// peer is unregistered, and the result is that its socket is to be shut down and the
    /// service told.
    pub fn flushed(&mut self, addr: &SocketAddr, written: Result<(), ErrorKind>) -> (disconnect:
        bool)
        requires
            old(self).wf(),
        ensures
            final(self).wf(),
            disconnect == (written matches Err(kind) && kind != ErrorKind::WouldBlock && kind
                != ErrorKind::WriteZero),
            final(self)@ == (if disconnect {
                old(self)@.without_peer(*addr)
            } else {
                ReactorState {
                    sources: switched(
                        old(self)@.sources,
                        Source::Peer(*addr),
                        Interest::Write,
                        written is Err,
                    ),
                    ..old(self)@
                }
            }),
    {
        match written {
            Ok(()) => {
                unset_interest(&mut self.sources, &Source::Peer(*addr), Interest::Write);
                false
            },
            Err(ErrorKind::WouldBlock) | Err(ErrorKind::WriteZero) => {
                set_interest(&mut self.sources, &Source::Peer(*addr), Interest::Write);
                false
            },
            Err(_) => {
                self.unregister_peer(addr);
                true
            },
        }
    }

    /// What goes out to a peer for a message.
    fn send(&mut self, addr: &SocketAddr, message: &Vec<u8>) -> (result: Result<Vec<u8>, Fault>)
        requires
            old(self).wf(),
            old(self)@.sessions.contains_key(*addr),
            message@.len() <= MAX_PLAINTEXT_BYTES,
        ensures
            result is Ok ==> final(self).wf(),
            match old(self)@.sent(*addr, message@) {
                Ok((state, bytes)) => {
                    &&& result matches Ok(sent) && sent@ == bytes
                    &&& final(self)@ == state
                    &&& old(self)@.sessions[*addr].faithful(message@)
                },
                Err(fault) => result == Err::<Vec<u8>, Fault>(fault),
            },
    {
        let ghost before = self@;
        match self.bip324_info.get_mut(addr) {
            Some(info) => {
                assert(info@ == before.sessions[*addr]);
                let written = info.write(message.as_slice());
                let ghost session = info@;
                assert(self@.sessions == before.sessions.insert(*addr, session));
                match written {
                    Ok(bytes) => {
                        set_interest(&mut self.sources, &Source::Peer(*addr), Interest::Write);
                        Ok(bytes)
                    },
                    Err(fault) => Err(fault),
                }
            },
            None => {
                assert(false);
                Err(Fault::Unregistered)
            },
        }
    }

    /// Goes through what is waiting to be written. What is for peers that are not ready stays
    /// in the queue, in order, unless their handshake is not waited for any longer. Of the rest,
    /// what is for peers that are gone is dropped; what can go out now is returned, in order,
    /// and encrypted where there is a channel.
    pub fn process_queue<R, E>(
        &mut self,
        local_time: LocalTime,
        queue: &mut VecDeque<Io<R, E>>,
    ) -> (result: Result<
        Vec<(SocketAddr, Vec<u8>)>,
        Fault,
    >)
        requires
            old(self).wf(),
            writes_fit(old(queue)@),
        ensures
            result is Ok ==> final(self).wf() && writes_fit(final(queue)@),
            match drain(old(self)@, old(queue)@, local_time) {
                Ok((state, kept, pushes)) => {
                    &&& result matches Ok(pushed) && pushes_of(pushed@) == pushes
                    &&& final(self)@ == state
                    &&& final(queue)@ == kept
                    &&& drains_faithfully(old(self)@, old(queue)@, local_time)
                },
                Err(fault) => result == Err::<Vec<(SocketAddr, Vec<u8>)>, Fault>(fault),
            },
    {
        let ghost items = queue@;
        let ghost mut kept: Seq<Io<R, E>> = Seq::empty();
        let mut pushed: Vec<(SocketAddr, Vec<u8>)> = Vec::new();
        let count: usize = queue.len();
        let mut i: usize = 0;
        proof {
            assert(items.skip(0) == items);
            assert(pushes_of(pushed@) == Seq::<(SocketAddr, Seq<u8>)>::empty());
            lemma_nothing_drained_before(drain(self@, items, local_time));
            assert(items + kept == items);
        }
        while i < count
            invariant
                items == old(queue)@,
                count == items.len(),
                i <= count,
                self.wf(),
                writes_fit(items),
                writes_fit(kept),
                queue@ == items.skip(i as int) + kept,
                drain(old(self)@, items, local_time) == drained_before(
                    kept,
                    pushes_of(pushed@),
                    drain(self@, items.skip(i as int), local_time),
                ),
                drains_faithfully(self@, items.skip(i as int), local_time) ==> drains_faithfully(
                    old(self)@,
                    items,
                    local_time,
                ),
            decreases count - i,
        {
            let ghost state = self@;
            let ghost rest = items.skip(i as int);
            let ghost pushes = pushes_of(pushed@);
            let ghost earlier = pushed@;
            proof {
                assert(rest[0] == items[i as int]);
                assert(rest.skip(1) == items.skip(i + 1));
                assert(queue@[0] == rest[0]);
                assert(queue@.subrange(1, queue@.len() as int) == rest.skip(1) + kept);
            }
            match queue.pop_front() {
                Some(io) => {
                    match &io {
                        Io::Write(addr, message) => {
                            let open = self.is_open(addr);
                            if self.is_ready(addr) || (open && self.has_lapsed(addr, local_time)) {
                                if open {
                                    match self.send(addr, message) {
                                        Ok(bytes) => {
                                            pushed.push((*addr, bytes));
                                            proof {
                                                lemma_pushes_push(earlier, (*addr, bytes));
                                                lemma_drained_push(
                                                    kept,
                                                    pushes,
                                                    Seq::empty(),
                                                    seq![(*addr, bytes@)],
                                                    drain(self@, rest.skip(1), local_time),
                                                );
                                                assert(kept + Seq::empty() == kept);
                                                assert(pushes + seq![(*addr, bytes@)]
                                                    == pushes.push((*addr, bytes@)));
                                            }
                                        },
                                        Err(fault) => {
                                            return Err(fault);
                                        },
                                    }
                                }
                            } else {
                                proof {
                                    lemma_drained_push(
                                        kept,
                                        pushes,
                                        seq![io],
                                        Seq::empty(),
                                        drain(self@, rest.skip(1), local_time),
                                    );
                                    assert(pushes + Seq::empty() == pushes);
                                    assert(kept + seq![io] == kept.push(io));
                                    assert((rest.skip(1) + kept).push(io) == rest.skip(1)
                                        + kept.push(io));
                                    kept = kept.push(io);
                                }
                                queue.push_back(io);
                            }
                        },
                        _ => {},
                    }
                },
                None => {
                    assert(false);
                },
            }
            i += 1;
        }
        proof {
            assert(items.skip(count as int) + kept == kept);
            assert(pushes_of(pushed@) + Seq::empty() == pushes_of(pushed@));
            assert(kept + Seq::empty() == kept);
        }
        Ok(pushed)
    }

    /// Keys were exchanged with the peer and its terminator has arrived.
    fn is_ready(&self, addr: &SocketAddr) -> (ready: bool)
        requires
            self.wf(),
        ensures
            ready == self@.is_ready(*addr),
    {
        match self.bip324_info.get(addr) {
            Some(info) => {
                assert(self@.sessions[*addr] == info@);
                info.is_ready()
            },
            None => false,
        }
    }

    /// The peer has a socket, and it is polled.
    fn is_open(&mut self, addr: &SocketAddr) -> (open: bool)
        requires
            old(self).wf(),
        ensures
            final(self).wf(),
            final(self)@ == old(self)@,
            open == old(self)@.is_open(*addr),
    {
        self.peers.contains_key(addr) && is_registered(&mut self.sources, &Source::Peer(*addr))
    }

    /// The connection to the peer began too long ago for its handshake still to be waited for.
    fn has_lapsed(&self, addr: &SocketAddr, now: LocalTime) -> (lapsed: bool)
        requires
            self.wf(),
        ensures
            lapsed == (self@.sessions.contains_key(*addr) && self@.sessions[*addr].lapsed(now)),
    {
        match self.bip324_info.get(addr) {
            Some(info) => {
                assert(self@.sessions[*addr] == info@);
                info.has_lapsed(now)
            },
            None => false,
        }
    }

    /// Takes something that the service asks for. A message for a peer that is not ready for
    /// it goes to the end of the queue, unless the handshake with the peer is not waited for any
    /// longer: it then goes out as it is. What was queued before has to be gone through first,
    /// at the same time. Note that there may be messages destined for a peer
    /// that has since been disconnected: they are dropped.
    pub fn process_output<R, E>(
        &mut self,
        out: Io<R, E>,
        local_time: LocalTime,
        queue: &mut VecDeque<Io<R, E>>,
    ) -> (result: Result<Output<R, E>, Fault>)
        requires
            old(self).wf(),
            writes_fit(old(queue)@),
            out matches Io::Write(_, message) ==> message@.len() <= MAX_PLAINTEXT_BYTES,
            out matches Io::SetTimer(timeout) ==> local_time.millis + timeout.millis <= u128::MAX,
        ensures
            result is Ok ==> final(self).wf() && writes_fit(final(queue)@),
            match processed(old(self)@, old(queue)@, out, local_time) {
                Ok((state, items, effect)) => {
                    &&& result matches Ok(output) && effect_of(output) == effect
                    &&& final(self)@ == state
                    &&& final(queue)@ == items
                },
                Err(fault) => {
                    &&& result == Err::<Output<R, E>, Fault>(fault)
                    &&& final(queue)@ == old(queue)@
                },
            },
            match out {
                Io::Write(addr, message) => {
                    &&& old(self)@.is_open(addr) && !old(self)@.waits(addr, local_time)
                        && result is Ok ==> old(self)@.sessions[addr].faithful(message@)
                    &&& old(self)@.falls_back(addr, local_time) ==> final(queue)@ == old(queue)@
                },
                _ => true,
            },
    {
        match out {
            Io::Write(addr, message) => {
                if !self.is_open(&addr) {
                    return Ok(Output::Nothing);
                }
                if !self.is_ready(&addr) && !self.has_lapsed(&addr, local_time) {
                    queue.push_back(Io::Write(addr, message));
                    return Ok(Output::Nothing);
                }
                match self.send(&addr, &message) {
                    Ok(bytes) => Ok(Output::Push(addr, bytes)),
                    Err(fault) => Err(fault),
                }
            },
            Io::Connect(addr) => Ok(Output::Dial(addr)),
            Io::Disconnect(addr, reason) => {
                if self.peers.contains_key(&addr) {
                    self.unregister_peer(&addr);
                    Ok(Output::Disconnect(addr, reason))
                } else {
                    Ok(Output::Nothing)
                }
            },
            Io::SetTimer(timeout) => Ok(
                Output::SetTimer(LocalTime { millis: local_time.millis + timeout.millis }),
            ),
            Io::Event(event) => Ok(Output::Publish(event)),
        }
    }

    /// Takes how dialing a peer ended. A peer that could be dialed is registered, and a
    /// handshake with it is started.
    pub fn dialed(
        &mut self,
        addr: SocketAddr,
        outcome: Result<i32, ErrorKind>,
        local_time: LocalTime,
    ) -> (result: Dialed)
        requires
            old(self).wf(),
        ensures
            final(self).wf(),
            match outcome {
                Ok(fd) => match result {
                    Dialed::Attempted(key) => {
                        &&& key@.len() == KEY_BYTES
                        &&& final(self)@ == old(self)@.dialing(
                            addr,
                            fd,
                            Some((started_handshake(Role::Initiator, key@), key@)),
                            local_time,
                        )
                    },
                    Dialed::NoKey => {
                        &&& refused(Role::Initiator)
                        &&& final(self)@ == old(self)@.dialing(addr, fd, None, local_time)
                    },
                    _ => false,
                },
                Err(ErrorKind::AlreadyExists) => {
                    &&& result == Dialed::AlreadyExists
                    &&& final(self)@ == old(self)@
                },
                Err(_) => {
                    &&& result == Dialed::Failed
                    &&& final(self)@ == old(self)@
                },
            },
    {
        match outcome {
            Ok(fd) => match self.connect(
                addr,
                fd,
                start_handshake(Role::Initiator),
                local_time,
            ) {
                Some(key) => Dialed::Attempted(key),
                None => Dialed::NoKey,
            },
            Err(ErrorKind::AlreadyExists) => Dialed::AlreadyExists,
            Err(_) => Dialed::Failed,
        }
    }

    /// Registers a peer that was dialed and takes up the handshake that was started for it.
    /// The result is the key to be sent.
    pub fn connect(
        &mut self,
        addr: SocketAddr,
        fd: i32,
        started: Option<(bip324::Handshake<'static>, Vec<u8>)>,
        local_time: LocalTime,
    ) -> (key: Option<Vec<u8>>)
        requires
            old(self).wf(),
            started matches Some((handshake, key)) ==> key@.len() == KEY_BYTES && handshake_state(
                handshake,
            ) == started_handshake(Role::Initiator, key@),
        ensures
            final(self).wf(),
            final(self)@ == old(self)@.dialing(addr, fd, start_of(started), local_time),
            bytes_of(key) == (match started {
                Some((_, key)) => Some(key@),
                None => None,
            }),
    {
        let ghost before = self@;
        self.begin(addr, fd, Link::Outbound, local_time);
        self.connecting.insert(addr, ());
        let ghost begun = self@;
        assert(begun.connecting == before.connecting.insert(addr));
        assert(begun.sessions.contains_key(addr));
        match started {
            Some((handshake, key)) => {
                match self.bip324_info.get_mut(&addr) {
                    Some(info) => {
                        assert(info@ == begun.sessions[addr]);
                        let sent = info.begin(handshake, key);
                        let ghost session = info@;
                        assert(self@.sessions == begun.sessions.insert(addr, session));
                        assert(self@.sessions == before.sessions.insert(
                            addr,
                            Session::new(),
                        ).insert(addr, session));
                        Some(sent)
                    },
                    None => {
                        assert(false);
                        None
                    },
                }
            },
            None => None,
        }
    }

    /// Registers a peer whose connection begins now.
    fn begin(&mut self, addr: SocketAddr, fd: i32, link: Link, local_time: LocalTime)
        requires
            old(self).wf(),
        ensures
            final(self).wf(),
            final(self)@ == old(self)@.with_peer(addr, fd, link).with_session(
                addr,
                Session::new().begun(local_time),
            ),
    {
        self.register_peer(addr, fd, link);
        let ghost registered = self@;
        assert(registered.sessions.contains_key(addr));
        match self.bip324_info.get_mut(&addr) {
            Some(info) => {
                assert(info@ == registered.sessions[addr]);
                info.begin_at(local_time);
                let ghost session = info@;
                assert(self@.sessions == registered.sessions.insert(addr, session));
            },
            None => {
                assert(false);
            },
        }
    }

    /// Registers the socket on which peers connect.
    pub fn register_listener(&mut self, fd: i32)
        requires
            old(self).wf(),
        ensures
            final(self).wf(),
            final(self)@ == (ReactorState {
                sources: registered(old(self)@.sources, Source::Listener, fd, Interest::Read),
                ..old(self)@
            }),
    {
        register(&mut self.sources, Source::Listener, fd, Interest::Read);
    }

    /// Takes how accepting a connection ended: the address of the peer and the file descriptor
    /// of its socket. The peer is registered.
    pub fn accepted(
        &mut self,
        outcome: Result<(SocketAddr, i32), ErrorKind>,
        local_time: LocalTime,
    ) -> (result: Accepted)
        requires
            old(self).wf(),
        ensures
            final(self).wf(),
            match outcome {
                Ok((addr, fd)) => {
                    &&& result == Accepted::Connected(Link::Inbound)
                    &&& final(self)@ == old(self)@.accepting(addr, fd, local_time)
                },
                Err(ErrorKind::WouldBlock) => {
                    &&& result == Accepted::Done
                    &&& final(self)@ == old(self)@
                },
                Err(_) => {
                    &&& result == Accepted::Failed
                    &&& final(self)@ == old(self)@
                },
            },
    {
        match outcome {
            Ok((addr, fd)) => {
                self.begin(addr, fd, Link::Inbound, local_time);
                Accepted::Connected(Link::Inbound)
            },
            Err(ErrorKind::WouldBlock) => Accepted::Done,
            Err(_) => Accepted::Failed,
        }
    }

    /// Takes an event. A source whose file descriptor is closed is not polled any more: this
    /// shouldn't happen, it means that the source wasn't properly unregistered, or that there
    /// is a duplicate source.
    pub fn handle_event(&mut self, source: Source, readiness: Readiness) -> (ready: Ready)
        requires
            old(self).wf(),
        ensures
            final(self).wf(),
            match source {
                Source::Peer(addr) => if readiness.invalid {
                    &&& ready == Ready::Gone
                    &&& final(self)@ == (ReactorState {
                        sources: unregistered(old(self)@.sources, source),
                        ..old(self)@
                    })
                } else {
                    &&& ready == (Ready::Peer {
                        addr,
                        write: readiness.writable,
                        read: readiness.readable,
                    })
                    &&& final(self)@ == old(self)@
                },
                Source::Listener => ready == Ready::Accept && final(self)@ == old(self)@,
                Source::Waker => ready == Ready::Wake && final(self)@ == old(self)@,
            },
    {
        match source {
            Source::Peer(addr) => {
                if readiness.invalid {
                    unregister(&mut self.sources, &source);
                    Ready::Gone
                } else {
                    Ready::Peer { addr, write: readiness.writable, read: readiness.readable }
                }
            },
            Source::Listener => Ready::Accept,
            Source::Waker => Ready::Wake,
        }
    }
}

/// How long to wait for i/o, given how long it is until the next timer expires: until then,
/// but never longer than the maximum.
pub fn wait_timeout(next: Option<LocalDuration>) -> (timeout: LocalDuration)
    ensures
        timeout.millis == (match next {
            Some(duration) => if duration.millis < WAIT_TIMEOUT_MINS * 60 * 1000 {
                duration.millis as int
            } else {
                WAIT_TIMEOUT_MINS * 60 * 1000
            },
            None => WAIT_TIMEOUT_MINS * 60 * 1000,
        }),
{
    let longest = LocalDuration::from_mins(WAIT_TIMEOUT_MINS);
    match next {
        Some(duration) => {
            if duration.millis < longest.millis {
                duration
            } else {
                longest
            }
        },
        None => longest,
    }
}

/// Takes how waiting for i/o ended.
pub fn wake_up(waited: Result<usize, ErrorKind>) -> (woken: Woken)
    ensures
        woken == (match waited {
            Ok(_) => Woken::Events,
            Err(ErrorKind::TimedOut) => Woken::TimedOut,
            Err(_) => Woken::Failed,
        }),
{
    match waited {
        Ok(_) => Woken::Events,
        Err(ErrorKind::TimedOut) => Woken::TimedOut,
        Err(_) => Woken::Failed,
    }
}

/// Whether to wake the service up, given how many timers have expired. It does not matter
/// which ones: as long as *something* timed out, we wake the service.
pub fn timer_expired(expired: usize) -> (wake: bool)
    ensures
        wake == (expired > 0),
{
    expired > 0
}

} // verus!
