//! What holds of the reactor over many calls.
use vstd::prelude::*;

use crate::addr::SocketAddr;
use crate::framing::Fault;
use crate::io::Io;
use crate::reactor::{drain, processed, Effect, Reactor, ReactorState};
use crate::reactor_laws::{
    law_nothing_is_overtaken, law_queue_keeps_what_waits, lemma_sending_keeps_the_rest,
    messages_to, pushes_to, waiting,
};
use crate::session::Session;
use crate::time::LocalTime;
use crate::transport::HandshakeState;

verus! {

/// Whatever was done with a reactor, as long as it has not come to a fault, every peer has an
/// encrypted connection, and only peers are being connected to.
pub proof fn law_peers_have_connections(reactor: Reactor, addr: SocketAddr)
    requires
        reactor.wf(),
    ensures
        reactor@.peers.contains_key(addr) ==> reactor@.sessions.contains_key(addr),
        reactor@.connecting.contains(addr) ==> reactor@.peers.contains_key(addr),
{
    reactor.lemma_wf();
}

/// Whatever was done with a reactor, as long as it has not come to a fault, the steps of every
/// connection were taken in order. A channel comes last: everything was exchanged, and the
/// handshake is over. Nothing is kept of a packet unless one is unfinished, and none is without
/// a channel.
pub proof fn law_connections_are_in_order(reactor: Reactor, addr: SocketAddr)
    requires
        reactor.wf(),
        reactor@.sessions.contains_key(addr),
    ensures
        ({
            let session = reactor@.sessions[addr];
            &&& session.channel is Some ==> {
                &&& session.key_sent is Some
                &&& session.key_received is Some
                &&& session.terminator_sent is Some
                &&& session.terminator_received is Some
                &&& session.handshake is None
            }
            &&& session.terminator_received is Some ==> session.key_received is Some
            &&& session.key_received is Some ==> session.terminator_sent is Some
            &&& session.pending_bytes == 0 ==> session.message_buffer.len() == 0
            &&& session.channel is None ==> session.pending_bytes == 0
        }),
{
    reactor.lemma_wf();
}

/// Something that happened to a reactor and its queue.
pub enum Step<R, E> {
    /// The queue was gone through.
    Drain(LocalTime),
    /// What the service asked for was processed, at the time at which the queue was gone
    /// through.
    Output(Io<R, E>),
    /// Something was done for another peer while outputs were processed, such as dialing it.
    Aside,
    /// Something else was done, between one time that the queue was gone through and the next.
    Between,
}

/// What happened to a reactor and its queue: the steps, the state and the queue before each of
/// them and after the last one, and what each of them has handed to sockets.
pub struct History<R, E> {
    pub steps: Seq<Step<R, E>>,
    pub states: Seq<ReactorState>,
    pub queues: Seq<Seq<Io<R, E>>>,
    pub pushes: Seq<Seq<(SocketAddr, Seq<u8>)>>,
}

/// What is handed to sockets for what the service asked for.
pub open spec fn pushed_by<R, E>(effect: Effect<R, E>) -> Seq<(SocketAddr, Seq<u8>)> {
    match effect {
        Effect::Push(addr, bytes) => seq![(addr, bytes)],
        _ => Seq::empty(),
    }
}

/// The bytes that go out on a connection for messages, one after the other.
pub open spec fn outgoing(session: Session, messages: Seq<Seq<u8>>) -> Seq<Seq<u8>>
    decreases messages.len(),
{
    if messages.len() == 0 {
        Seq::empty()
    } else {
        match session.written(messages[0]) {
            Ok((next, bytes)) => seq![bytes] + outgoing(next, messages.skip(1)),
            Err(_) => Seq::empty(),
        }
    }
}

impl<R, E> History<R, E> {
    /// The time at which outputs are processed before a step, if they are.
    pub open spec fn time(self, i: int) -> Option<LocalTime>
        decreases i,
    {
        if i <= 0 {
            None
        } else {
            match self.steps[i - 1] {
                Step::Drain(now) => Some(now),
                Step::Output(_) | Step::Aside => self.time(i - 1),
                Step::Between => None,
            }
        }
    }

    /// A step is what it says it is, and the peer keeps its socket. Outputs are only processed
    /// after the queue was gone through.
    pub open spec fn happens(self, i: int, addr: SocketAddr) -> bool {
        let state = self.states[i];
        let queue = self.queues[i];
        let next = self.states[i + 1];
        &&& state.is_open(addr)
        &&& next.is_open(addr)
        &&& match self.steps[i] {
            Step::Drain(now) => drain(state, queue, now) == Ok::<
                (ReactorState, Seq<Io<R, E>>, Seq<(SocketAddr, Seq<u8>)>),
                Fault,
            >((next, self.queues[i + 1], self.pushes[i])),
            Step::Output(out) => {
                &&& out != Io::<R, E>::Connect(addr)
                &&& self.time(i) matches Some(now)
                &&& processed(state, queue, out, now) matches Ok((after, items, effect))
                &&& next == after
                &&& self.queues[i + 1] == items
                &&& self.pushes[i] == pushed_by(effect)
            },
            Step::Aside => {
                &&& self.queues[i + 1] == queue
                &&& self.pushes[i].len() == 0
                &&& next.sessions[addr] == state.sessions[addr]
                &&& next.sessions.contains_key(addr) == state.sessions.contains_key(addr)
            },
            Step::Between => self.queues[i + 1] == queue && self.pushes[i].len() == 0,
        }
    }

    /// Everything has happened as it says, with the peer keeping its socket all the time.
    pub open spec fn is_of(self, addr: SocketAddr) -> bool {
        &&& self.states.len() == self.steps.len() + 1
        &&& self.queues.len() == self.steps.len() + 1
        &&& self.pushes.len() == self.steps.len()
        &&& forall|i: int| 0 <= i < self.steps.len() ==> #[trigger] self.happens(i, addr)
    }

    /// The messages that the service has asked to be sent to the peer before a step.
    pub open spec fn asked(self, i: int, addr: SocketAddr) -> Seq<Seq<u8>>
        decreases i,
    {
        if i <= 0 {
            Seq::empty()
        } else {
            match self.steps[i - 1] {
                Step::Output(out) => self.asked(i - 1, addr) + messages_to(seq![out], addr),
                _ => self.asked(i - 1, addr),
            }
        }
    }

    /// The messages that go out to the peer in a step.
    pub open spec fn batch(self, i: int, addr: SocketAddr) -> Seq<Seq<u8>> {
        match self.steps[i] {
            Step::Drain(now) => if self.states[i].waits(addr, now) {
                Seq::empty()
            } else {
                messages_to(self.queues[i], addr)
            },
            Step::Output(out) => if self.states[i].waits(addr, self.time(i)->0) {
                Seq::empty()
            } else {
                messages_to(seq![out], addr)
            },
            _ => Seq::empty(),
        }
    }

    /// The messages that have gone out to the peer before a step.
    pub open spec fn gone_out(self, i: int, addr: SocketAddr) -> Seq<Seq<u8>>
        decreases i,
    {
        if i <= 0 {
            Seq::empty()
        } else {
            self.gone_out(i - 1, addr) + self.batch(i - 1, addr)
        }
    }
}

/// What is handed to the socket of one peer when a queue is gone through.
pub proof fn lemma_drain_to_one_peer<R, E>(
    state: ReactorState,
    items: Seq<Io<R, E>>,
    now: LocalTime,
    addr: SocketAddr,
)
    requires
        state.is_open(addr),
    ensures
        drain(state, items, now) matches Ok((_, _, pushes)) ==> pushes_to(pushes, addr) == (
        if state.waits(addr, now) {
            Seq::empty()
        } else {
            outgoing(state.sessions[addr], messages_to(items, addr))
        }),
    decreases items.len(),
{
    if items.len() > 0 && drain(state, items, now) is Ok {
        let rest = items.skip(1);
        match items[0] {
            Io::Write(to, message) => {
                if !state.waits(to, now) && state.is_open(to) {
                    let (next, bytes) = state.sent(to, message@)->Ok_0;
                    lemma_sending_keeps_the_rest(state, to, message@, now, addr);
                    lemma_drain_to_one_peer(next, rest, now, addr);
                    let (_, _, more) = drain(next, rest, now)->Ok_0;
                    let pushes = seq![(to, bytes)] + more;
                    assert(pushes.skip(1) == more);
                    assert(pushes[0] == (to, bytes));
                    if to == addr {
                        let messages = messages_to(items, addr);
                        assert(messages == seq![message@] + messages_to(rest, addr));
                        assert(messages.skip(1) == messages_to(rest, addr));
                    }
                } else {
                    lemma_drain_to_one_peer(state, rest, now, addr);
                    let (_, _, more) = drain(state, rest, now)->Ok_0;
                    assert(Seq::<(SocketAddr, Seq<u8>)>::empty() + more == more);
                }
            },
            _ => {
                lemma_drain_to_one_peer(state, rest, now, addr);
            },
        }
    }
}

proof fn lemma_messages_to_pushed<R, E>(items: Seq<Io<R, E>>, out: Io<R, E>, addr: SocketAddr)
    ensures
        messages_to(items.push(out), addr) == messages_to(items, addr) + messages_to(
            seq![out],
            addr,
        ),
    decreases items.len(),
{
    let whole = items.push(out);
    if items.len() == 0 {
        assert(whole == seq![out]);
        assert(messages_to(items, addr) == Seq::<Seq<u8>>::empty());
        assert(messages_to(items, addr) + messages_to(seq![out], addr) == messages_to(
            seq![out],
            addr,
        ));
    } else {
        assert(whole.skip(1) == items.skip(1).push(out));
        assert(whole[0] == items[0]);
        lemma_messages_to_pushed(items.skip(1), out, addr);
        let rest = messages_to(items.skip(1), addr);
        let last = messages_to(seq![out], addr);
        match items[0] {
            Io::Write(to, message) => {
                if to == addr {
                    assert(seq![message@] + (rest + last) == (seq![message@] + rest) + last);
                }
            },
            _ => {},
        }
    }
}

proof fn lemma_message_alone<R, E>(out: Io<R, E>, addr: SocketAddr)
    ensures
        messages_to(seq![out], addr) == (match out {
            Io::Write(to, message) => if to == addr {
                seq![message@]
            } else {
                Seq::empty()
            },
            _ => Seq::empty(),
        }),
{
    let alone = seq![out];
    assert(alone.skip(1) == Seq::<Io<R, E>>::empty());
    assert(messages_to(alone.skip(1), addr) == Seq::<Seq<u8>>::empty());
    match out {
        Io::Write(to, message) => {
            assert(seq![message@] + Seq::<Seq<u8>>::empty() == seq![message@]);
        },
        _ => {},
    }
}

proof fn lemma_push_alone(to: SocketAddr, bytes: Seq<u8>, addr: SocketAddr)
    ensures
        pushes_to(seq![(to, bytes)], addr) == (if to == addr {
            seq![bytes]
        } else {
            Seq::empty()
        }),
{
    let alone = seq![(to, bytes)];
    assert(alone.skip(1) == Seq::<(SocketAddr, Seq<u8>)>::empty());
    assert(pushes_to(alone.skip(1), addr) == Seq::<Seq<u8>>::empty());
    assert(seq![bytes] + Seq::<Seq<u8>>::empty() == seq![bytes]);
}

proof fn lemma_outgoing_alone(session: Session, message: Seq<u8>)
    ensures
        session.written(message) matches Ok((_, bytes)) ==> outgoing(session, seq![message])
            == seq![bytes],
{
    let alone = seq![message];
    assert(alone.skip(1) == Seq::<Seq<u8>>::empty());
    match session.written(message) {
        Ok((next, bytes)) => {
            assert(outgoing(next, alone.skip(1)) == Seq::<Seq<u8>>::empty());
            assert(seq![bytes] + Seq::<Seq<u8>>::empty() == seq![bytes]);
        },
        Err(_) => {},
    }
}

/// In each step, what is handed to the socket of a peer is what its connection makes of the
/// messages that go out in this step: packets if there is a channel, the messages themselves
/// if there is none.
pub proof fn law_each_step_sends_its_messages<R, E>(
    history: History<R, E>,
    addr: SocketAddr,
    i: int,
)
    requires
        history.is_of(addr),
        0 <= i < history.steps.len(),
    ensures
        pushes_to(history.pushes[i], addr) == outgoing(
            history.states[i].sessions[addr],
            history.batch(i, addr),
        ),
{
    assert(history.happens(i, addr));
    let state = history.states[i];
    match history.steps[i] {
        Step::Drain(now) => {
            lemma_drain_to_one_peer(state, history.queues[i], now, addr);
        },
        Step::Output(out) => {
            lemma_message_alone(out, addr);
            match out {
                Io::Write(to, message) => {
                    let now = history.time(i)->0;
                    if state.is_open(to) && !state.waits(to, now) {
                        let (_, bytes) = state.sent(to, message@)->Ok_0;
                        lemma_push_alone(to, bytes, addr);
                        if to == addr {
                            lemma_outgoing_alone(state.sessions[addr], message@);
                        }
                    }
                },
                _ => {},
            }
        },
        _ => {},
    }
}

proof fn lemma_steps_keep_the_order<R, E>(history: History<R, E>, addr: SocketAddr, i: int)
    requires
        history.is_of(addr),
        0 <= i <= history.steps.len(),
    ensures
        history.gone_out(i, addr) + messages_to(history.queues[i], addr) == messages_to(
            history.queues[0],
            addr,
        ) + history.asked(i, addr),
        history.time(i) matches Some(now) && !history.states[i].waits(addr, now) ==> messages_to(
            history.queues[i],
            addr,
        ).len() == 0,
    decreases i,
{
    if i == 0 {
        let first = messages_to(history.queues[0], addr);
        assert(Seq::<Seq<u8>>::empty() + first == first + Seq::<Seq<u8>>::empty());
    } else {
        let k = i - 1;
        lemma_steps_keep_the_order(history, addr, k);
        assert(history.happens(k, addr));
        let state = history.states[k];
        let queue = history.queues[k];
        let next = history.states[i];
        let held = messages_to(queue, addr);
        let gone = history.gone_out(k, addr);
        let first = messages_to(history.queues[0], addr);
        let asked = history.asked(k, addr);
        assert(gone + Seq::<Seq<u8>>::empty() == gone);
        match history.steps[k] {
            Step::Drain(now) => {
                law_nothing_is_overtaken(state, queue, now, addr);
                law_queue_keeps_what_waits(state, queue, now);
                assert(state.waits(addr, now) == next.waits(addr, now));
                assert((gone + held) + Seq::<Seq<u8>>::empty() == gone + held);
            },
            Step::Output(out) => {
                let now = history.time(k)->0;
                let message = messages_to(seq![out], addr);
                lemma_message_alone(out, addr);
                match out {
                    Io::Write(to, bytes) => {
                        if state.is_open(to) && !state.waits(to, now) {
                            lemma_sending_keeps_the_rest(state, to, bytes@, now, addr);
                        } else {
                            lemma_messages_to_pushed(queue, out, addr);
                        }
                    },
                    _ => {},
                }
                assert(next.waits(addr, now) == state.waits(addr, now));
                if state.waits(addr, now) {
                    assert(messages_to(history.queues[i], addr) == held + message);
                    assert(gone + (held + message) == (gone + held) + message);
                } else {
                    assert(held == Seq::<Seq<u8>>::empty());
                    assert(messages_to(history.queues[i], addr) == Seq::<Seq<u8>>::empty());
                    assert((gone + message) + Seq::<Seq<u8>>::empty() == (gone + held) + message);
                }
                assert((first + asked) + message == first + (asked + message));
            },
            Step::Aside => {},
            Step::Between => {},
        }
    }
}

/// Messages to a peer go out in the order in which the service asked for them, each exactly
/// once: those that were in the queue, then those that were asked for, are those that have
/// gone out, then those that wait. It does not matter what else happens, or when the handshake
/// with the peer is completed, as long as the peer keeps its socket.
pub proof fn law_messages_go_out_in_order<R, E>(history: History<R, E>, addr: SocketAddr)
    requires
        history.is_of(addr),
    ensures
        history.gone_out(history.steps.len() as int, addr) + messages_to(
            history.queues.last(),
            addr,
        ) == messages_to(history.queues[0], addr) + history.asked(
            history.steps.len() as int,
            addr,
        ),
{
    lemma_steps_keep_the_order(history, addr, history.steps.len() as int);
}

/// Once the queue was gone through for a peer that does not have to be waited for, all that the
/// service has asked for has gone out to it, and nothing waits. This is so for a peer that is
/// ready, and for one whose handshake is not waited for any longer.
pub proof fn law_nothing_waits_in_the_end<R, E>(
    history: History<R, E>,
    addr: SocketAddr,
    now: LocalTime,
)
    requires
        history.is_of(addr),
        history.time(history.steps.len() as int) == Some(now),
        history.states.last().is_ready(addr) || history.states.last().falls_back(addr, now),
    ensures
        messages_to(history.queues.last(), addr).len() == 0,
        history.gone_out(history.steps.len() as int, addr) == messages_to(
            history.queues[0],
            addr,
        ) + history.asked(history.steps.len() as int, addr),
{
    let count = history.steps.len() as int;
    lemma_steps_keep_the_order(history, addr, count);
    let gone = history.gone_out(count, addr);
    assert(messages_to(history.queues.last(), addr) == Seq::<Seq<u8>>::empty());
    assert(gone + Seq::<Seq<u8>>::empty() == gone);
}

/// A peer whose handshake is not waited for any longer gets messages as they are.
pub proof fn law_falling_back_sends_plain_messages(
    state: ReactorState,
    addr: SocketAddr,
    message: Seq<u8>,
    now: LocalTime,
)
    requires
        state.wf(),
        state.falls_back(addr, now),
    ensures
        state.sent(addr, message) matches Ok((next, bytes)) && bytes == message
            && next.sessions[addr] == state.sessions[addr],
{
    assert(state.sessions.contains_key(addr));
}

/// A queue holds nothing but messages to peers that are not ready.
pub open spec fn only_waiting<R, E>(state: ReactorState, queue: Seq<Io<R, E>>) -> bool {
    forall|i: int|
        0 <= i < queue.len() ==> ((#[trigger] queue[i]) matches Io::Write(addr, _)
            && !state.is_ready(addr))
}

proof fn lemma_waiting_is_not_ready<R, E>(
    state: ReactorState,
    items: Seq<Io<R, E>>,
    now: LocalTime,
)
    ensures
        only_waiting(state, waiting(state, items, now)),
    decreases items.len(),
{
    if items.len() > 0 {
        lemma_waiting_is_not_ready(state, items.skip(1), now);
        let rest = waiting(state, items.skip(1), now);
        match items[0] {
            Io::Write(addr, _) => {
                if state.waits(addr, now) {
                    let whole = seq![items[0]] + rest;
                    assert forall|i: int| 0 <= i < whole.len() implies ((
                    #[trigger] whole[i]) matches Io::Write(to, _) && !state.is_ready(to)) by {
                        if i > 0 {
                            assert(whole[i] == rest[i - 1]);
                        }
                    }
                }
            },
            _ => {},
        }
    }
}

/// Once a queue was gone through, it holds nothing but messages to peers that are not ready,
/// whatever it held before.
pub proof fn law_draining_leaves_only_what_waits<R, E>(
    state: ReactorState,
    items: Seq<Io<R, E>>,
    now: LocalTime,
)
    ensures
        drain(state, items, now) matches Ok((next, kept, _)) ==> only_waiting(next, kept),
{
    law_queue_keeps_what_waits(state, items, now);
    lemma_waiting_is_not_ready(state, items, now);
    match drain(state, items, now) {
        Ok((next, kept, _)) => {
            assert forall|i: int| 0 <= i < kept.len() implies ((
            #[trigger] kept[i]) matches Io::Write(addr, _) && !next.is_ready(addr)) by {
                match kept[i] {
                    Io::Write(addr, _) => {
                        assert(state.is_ready(addr) == next.is_ready(addr));
                    },
                    _ => {},
                }
            }
        },
        Err(_) => {},
    }
}

/// A queue that holds nothing but messages to peers that are not ready still does so when
/// something that the service asks for was processed.
pub proof fn law_outputs_queue_only_what_waits<R, E>(
    state: ReactorState,
    queue: Seq<Io<R, E>>,
    out: Io<R, E>,
    now: LocalTime,
)
    requires
        only_waiting(state, queue),
    ensures
        processed(state, queue, out, now) matches Ok((next, items, _)) ==> only_waiting(
            next,
            items,
        ),
{
    match processed(state, queue, out, now) {
        Ok((next, items, _)) => {
            assert forall|i: int| 0 <= i < items.len() implies ((
            #[trigger] items[i]) matches Io::Write(addr, _) && !next.is_ready(addr)) by {
                if i < queue.len() {
                    assert(items[i] == queue[i]);
                }
                match (items[i], out) {
                    (Io::Write(addr, _), Io::Write(to, message)) => {
                        if state.is_open(to) && !state.waits(to, now) {
                            lemma_sending_keeps_the_rest(state, to, message@, now, addr);
                        }
                    },
                    _ => {},
                }
            }
        },
        Err(_) => {},
    }
}

/// A queue that holds nothing but messages to peers that are not ready still does so when a
/// peer was dialed.
pub proof fn law_dialing_keeps_what_waits<R, E>(
    state: ReactorState,
    queue: Seq<Io<R, E>>,
    addr: SocketAddr,
    fd: i32,
    started: Option<(HandshakeState, Seq<u8>)>,
    now: LocalTime,
)
    requires
        only_waiting(state, queue),
    ensures
        only_waiting(state.dialing(addr, fd, started, now), queue),
{
    let next = state.dialing(addr, fd, started, now);
    assert forall|i: int| 0 <= i < queue.len() implies ((
    #[trigger] queue[i]) matches Io::Write(to, _) && !next.is_ready(to)) by {
        match queue[i] {
            Io::Write(to, _) => {
                assert(!state.is_ready(to));
            },
            _ => {},
        }
    }
}

/// Something that is done while outputs are processed.
pub enum Deed<R, E> {
    /// What the service asked for was processed.
    Output(Io<R, E>),
    /// A peer was dialed.
    Dialed { addr: SocketAddr, fd: i32, started: Option<(HandshakeState, Seq<u8>)> },
}

/// What the state and the queue are after a deed.
pub open spec fn after_deed<R, E>(
    state: ReactorState,
    queue: Seq<Io<R, E>>,
    deed: Deed<R, E>,
    now: LocalTime,
) -> Result<(ReactorState, Seq<Io<R, E>>), Fault> {
    match deed {
        Deed::Output(out) => match processed(state, queue, out, now) {
            Ok((next, items, _)) => Ok((next, items)),
            Err(fault) => Err(fault),
        },
        Deed::Dialed { addr, fd, started } => Ok((state.dialing(addr, fd, started, now), queue)),
    }
}

/// What the state and the queue are after several deeds, one after the other.
pub open spec fn after_deeds<R, E>(
    state: ReactorState,
    queue: Seq<Io<R, E>>,
    deeds: Seq<Deed<R, E>>,
    now: LocalTime,
) -> Result<(ReactorState, Seq<Io<R, E>>), Fault>
    decreases deeds.len(),
{
    if deeds.len() == 0 {
        Ok((state, queue))
    } else {
        match after_deed(state, queue, deeds[0], now) {
            Ok((next, items)) => after_deeds(next, items, deeds.skip(1), now),
            Err(fault) => Err(fault),
        }
    }
}

proof fn lemma_deeds_queue_only_what_waits<R, E>(
    state: ReactorState,
    queue: Seq<Io<R, E>>,
    deeds: Seq<Deed<R, E>>,
    now: LocalTime,
)
    requires
        only_waiting(state, queue),
    ensures
        after_deeds(state, queue, deeds, now) matches Ok((next, items)) ==> only_waiting(
            next,
            items,
        ),
    decreases deeds.len(),
{
    if deeds.len() > 0 {
        match deeds[0] {
            Deed::Output(out) => {
                law_outputs_queue_only_what_waits(state, queue, out, now);
            },
            Deed::Dialed { addr, fd, started } => {
                law_dialing_keeps_what_waits(state, queue, addr, fd, started, now);
            },
        }
        match after_deed(state, queue, deeds[0], now) {
            Ok((next, items)) => {
                lemma_deeds_queue_only_what_waits(next, items, deeds.skip(1), now);
            },
            Err(_) => {},
        }
    }
}

/// Whatever a queue held, and whatever the service asks for: once the queue was gone through
/// and all that was asked for is done, the queue holds nothing but messages, and none to a peer
/// that is ready.
pub proof fn law_processing_leaves_only_what_waits<R, E>(
    state: ReactorState,
    items: Seq<Io<R, E>>,
    deeds: Seq<Deed<R, E>>,
    now: LocalTime,
)
    ensures
        drain(state, items, now) matches Ok((drained, kept, _)) ==> (after_deeds(
            drained,
            kept,
            deeds,
            now,
        ) matches Ok((next, queue)) ==> only_waiting(next, queue)),
{
    law_draining_leaves_only_what_waits(state, items, now);
    match drain(state, items, now) {
        Ok((drained, kept, _)) => {
            lemma_deeds_queue_only_what_waits(drained, kept, deeds, now);
        },
        Err(_) => {},
    }
}

/// Something that the service asked for, and what was left to do for it.
pub struct Turn<R, E> {
    pub state: ReactorState,
    pub queue: Seq<Io<R, E>>,
    pub out: Io<R, E>,
    pub effect: Effect<R, E>,
}

/// What was left to do is what comes of processing what was asked for.
pub open spec fn taken<R, E>(turn: Turn<R, E>, now: LocalTime) -> bool {
    processed(turn.state, turn.queue, turn.out, now) matches Ok((_, _, effect)) && effect
        == turn.effect
}

/// The events that the service asked to be published.
pub open spec fn events<R, E>(turns: Seq<Turn<R, E>>) -> Seq<E>
    decreases turns.len(),
{
    if turns.len() == 0 {
        Seq::empty()
    } else {
        match turns.last().out {
            Io::Event(event) => events(turns.drop_last()).push(event),
            _ => events(turns.drop_last()),
        }
    }
}

/// The events that were left to be published.
pub open spec fn published<R, E>(turns: Seq<Turn<R, E>>) -> Seq<E>
    decreases turns.len(),
{
    if turns.len() == 0 {
        Seq::empty()
    } else {
        match turns.last().effect {
            Effect::Publish(event) => published(turns.drop_last()).push(event),
            _ => published(turns.drop_last()),
        }
    }
}

/// The times at which the service asked to be woken up.
pub open spec fn wake_ups<R, E>(turns: Seq<Turn<R, E>>, now: LocalTime) -> Seq<LocalTime>
    decreases turns.len(),
{
    if turns.len() == 0 {
        Seq::empty()
    } else {
        match turns.last().out {
            Io::SetTimer(timeout) => wake_ups(turns.drop_last(), now).push(
                LocalTime { millis: (now.millis + timeout.millis) as u128 },
            ),
            _ => wake_ups(turns.drop_last(), now),
        }
    }
}

/// The timers that were left to be set.
pub open spec fn timers<R, E>(turns: Seq<Turn<R, E>>) -> Seq<LocalTime>
    decreases turns.len(),
{
    if turns.len() == 0 {
        Seq::empty()
    } else {
        match turns.last().effect {
            Effect::SetTimer(at) => timers(turns.drop_last()).push(at),
            _ => timers(turns.drop_last()),
        }
    }
}

/// The disconnects that the service asked for, of peers that had a socket then.
pub open spec fn disconnects<R, E>(turns: Seq<Turn<R, E>>) -> Seq<(SocketAddr, R)>
    decreases turns.len(),
{
    if turns.len() == 0 {
        Seq::empty()
    } else {
        let earlier = disconnects(turns.drop_last());
        match turns.last().out {
            Io::Disconnect(addr, reason) => if turns.last().state.peers.contains_key(addr) {
                earlier.push((addr, reason))
            } else {
                earlier
            },
            _ => earlier,
        }
    }
}

/// The disconnects that were left to do.
pub open spec fn disconnected<R, E>(turns: Seq<Turn<R, E>>) -> Seq<(SocketAddr, R)>
    decreases turns.len(),
{
    if turns.len() == 0 {
        Seq::empty()
    } else {
        match turns.last().effect {
            Effect::Disconnect(addr, reason) => disconnected(turns.drop_last()).push(
                (addr, reason),
            ),
            _ => disconnected(turns.drop_last()),
        }
    }
}

/// The peers that the service asked to connect to.
pub open spec fn connects<R, E>(turns: Seq<Turn<R, E>>) -> Seq<SocketAddr>
    decreases turns.len(),
{
    if turns.len() == 0 {
        Seq::empty()
    } else {
        match turns.last().out {
            Io::Connect(addr) => connects(turns.drop_last()).push(addr),
            _ => connects(turns.drop_last()),
        }
    }
}

/// The peers that were left to be dialed.
pub open spec fn dials<R, E>(turns: Seq<Turn<R, E>>) -> Seq<SocketAddr>
    decreases turns.len(),
{
    if turns.len() == 0 {
        Seq::empty()
    } else {
        match turns.last().effect {
            Effect::Dial(addr) => dials(turns.drop_last()).push(addr),
            _ => dials(turns.drop_last()),
        }
    }
}

/// Whatever else the service asks for, exactly the peers that it wants disconnected and that have a
/// socket are left to be disconnected, in order and each with its reason, and exactly the peers
/// that it wants to connect to are left to be dialed, in order.
pub proof fn law_disconnects_and_dials_are_taken_in_turn<R, E>(
    turns: Seq<Turn<R, E>>,
    now: LocalTime,
)
    requires
        forall|i: int| 0 <= i < turns.len() ==> #[trigger] taken(turns[i], now),
    ensures
        disconnected(turns) == disconnects(turns),
        dials(turns) == connects(turns),
    decreases turns.len(),
{
    if turns.len() > 0 {
        let earlier = turns.drop_last();
        assert(taken(turns[turns.len() - 1], now));
        assert forall|i: int| 0 <= i < earlier.len() implies #[trigger] taken(earlier[i], now) by {
            assert(taken(turns[i], now));
        }
        law_disconnects_and_dials_are_taken_in_turn(earlier, now);
    }
}

/// Whatever else the service asks for, exactly the events that it wants published are
/// published, in order and each once, and exactly the timers that it wants are set, in order.
pub proof fn law_outputs_are_taken_in_turn<R, E>(turns: Seq<Turn<R, E>>, now: LocalTime)
    requires
        forall|i: int| 0 <= i < turns.len() ==> #[trigger] taken(turns[i], now),
    ensures
        published(turns) == events(turns),
        timers(turns) == wake_ups(turns, now),
    decreases turns.len(),
{
    if turns.len() > 0 {
        let earlier = turns.drop_last();
        assert(taken(turns[turns.len() - 1], now));
        assert forall|i: int| 0 <= i < earlier.len() implies #[trigger] taken(earlier[i], now) by {
            assert(taken(turns[i], now));
        }
        law_outputs_are_taken_in_turn(earlier, now);
    }
}

} // verus!
