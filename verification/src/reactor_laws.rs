//! What holds of the reactor as a whole.
use vstd::prelude::*;

use crate::addr::{Link, SocketAddr};
use crate::framing::{unpack_data, Fault, Inbound};
use crate::io::{ErrorKind, Io};
use crate::laws::{
    cut_outside_prefix, cut_payload, encrypted_in_turn, fit, joined, law_any_cut_delivers_the_same,
    law_messages_cross, law_read_gives_back_what_was_written,
};
use crate::reactor::{drain, drains_faithfully, Reading, ReactorState};
use crate::session::Session;
use crate::sources::{position, registered, switched, unregistered, Interest, Registration, Source};
use crate::time::LocalTime;
use crate::transport::{fits_prefix, opens_to, CipherState, MAX_CIPHERTEXT_BYTES};

verus! {

proof fn lemma_position_in_range(entries: Seq<Registration>, source: Source)
    ensures
        position(entries, source) matches Some(i) ==> i < entries.len() && entries[i as int].source
            == source,
    decreases entries.len(),
{
    if entries.len() > 0 && entries[0].source != source {
        lemma_position_in_range(entries.skip(1), source);
    }
}

proof fn lemma_position_of_replaced(
    entries: Seq<Registration>,
    i: int,
    entry: Registration,
    source: Source,
)
    requires
        0 <= i < entries.len(),
        entry.source == entries[i].source,
    ensures
        position(entries.update(i, entry), source) == position(entries, source),
    decreases entries.len(),
{
    let updated = entries.update(i, entry);
    if entries[0].source != source {
        if i == 0 {
            assert(updated.skip(1) == entries.skip(1));
        } else {
            assert(updated.skip(1) == entries.skip(1).update(i - 1, entry));
            lemma_position_of_replaced(entries.skip(1), i - 1, entry, source);
        }
    }
}

proof fn lemma_position_of_added(entries: Seq<Registration>, entry: Registration)
    requires
        position(entries, entry.source) is None,
    ensures
        position(entries.push(entry), entry.source) == Some(entries.len()),
    decreases entries.len(),
{
    if entries.len() > 0 {
        assert(entries.push(entry).skip(1) == entries.skip(1).push(entry));
        lemma_position_of_added(entries.skip(1), entry);
    } else {
        assert(entries.push(entry)[0] == entry);
    }
}

/// Switching an interest on or off does not change what is registered.
pub proof fn law_switching_keeps_sources(
    entries: Seq<Registration>,
    changed: Source,
    interest: Interest,
    on: bool,
    source: Source,
)
    ensures
        position(switched(entries, changed, interest, on), source) == position(entries, source),
{
    match position(entries, changed) {
        Some(i) => {
            lemma_position_in_range(entries, changed);
            lemma_position_of_replaced(
                entries,
                i as int,
                switched(entries, changed, interest, on)[i as int],
                source,
            );
        },
        None => {},
    }
}

/// Unregistering a peer undoes registering it. Only its encrypted connection is kept.
pub proof fn law_unregistering_undoes_registering(
    state: ReactorState,
    addr: SocketAddr,
    fd: i32,
    link: Link,
)
    requires
        !state.peers.contains_key(addr),
        !state.connecting.contains(addr),
        !state.has_source(addr),
    ensures
        state.with_peer(addr, fd, link).without_peer(addr) == state.with_session(
            addr,
            Session::new(),
        ),
{
    let source = Source::Peer(addr);
    let entries = registered(state.sources, source, fd, Interest::All);
    lemma_position_of_added(state.sources, entries.last());
    assert(unregistered(entries, source) == state.sources);
    assert(state.peers.insert(addr, link).remove(addr) == state.peers);
    assert(state.connecting.remove(addr) == state.connecting);
}

/// A source has a first entry exactly if it has one at all.
pub proof fn lemma_position_finds(entries: Seq<Registration>, source: Source)
    ensures
        position(entries, source) is Some <==> exists|i: int|
            0 <= i < entries.len() && (#[trigger] entries[i]).source == source,
    decreases entries.len(),
{
    if entries.len() > 0 {
        let rest = entries.skip(1);
        lemma_position_finds(rest, source);
        if exists|i: int| 0 <= i < entries.len() && (#[trigger] entries[i]).source == source {
            let i = choose|i: int|
                0 <= i < entries.len() && (#[trigger] entries[i]).source == source;
            if i > 0 {
                assert(rest[i - 1] == entries[i]);
            }
        }
        if exists|i: int| 0 <= i < rest.len() && (#[trigger] rest[i]).source == source {
            let i = choose|i: int| 0 <= i < rest.len() && (#[trigger] rest[i]).source == source;
            assert(entries[i + 1] == rest[i]);
        }
    }
}

/// Taking a source out of the registry leaves every other one in it.
pub proof fn lemma_others_stay_registered(entries: Seq<Registration>, gone: Source, source: Source)
    requires
        gone != source,
    ensures
        position(unregistered(entries, gone), source) is Some == position(entries, source) is Some,
{
    let left = unregistered(entries, gone);
    lemma_position_finds(entries, source);
    lemma_position_finds(left, source);
    lemma_position_in_range(entries, gone);
    match position(entries, gone) {
        Some(at) => {
            let at = at as int;
            if position(entries, source) is Some {
                let i = choose|i: int|
                    0 <= i < entries.len() && (#[trigger] entries[i]).source == source;
                if i == entries.len() - 1 {
                    assert(left[at] == entries[i]);
                } else {
                    assert(left[i] == entries[i]);
                }
            }
            if position(left, source) is Some {
                let i = choose|i: int| 0 <= i < left.len() && (#[trigger] left[i]).source == source;
                if i == at {
                    assert(entries[entries.len() - 1] == left[i]);
                } else {
                    assert(entries[i] == left[i]);
                }
            }
        },
        None => {},
    }
}

/// What is read from the socket of one peer does not concern any other peer: it keeps its
/// socket, its place in the registry and its encrypted connection.
pub proof fn law_reads_concern_one_peer(
    state: ReactorState,
    addr: SocketAddr,
    read: Result<Seq<u8>, ErrorKind>,
    reading: Reading,
    next: ReactorState,
    other: SocketAddr,
)
    requires
        state.reads(addr, read, Ok(reading), next),
        other != addr,
    ensures
        next.peers.contains_key(other) == state.peers.contains_key(other),
        next.peers[other] == state.peers[other],
        next.connecting.contains(other) == state.connecting.contains(other),
        next.sessions.contains_key(other) == state.sessions.contains_key(other),
        next.sessions[other] == state.sessions[other],
        next.is_open(other) == state.is_open(other),
{
    lemma_others_stay_registered(state.sources, Source::Peer(addr), Source::Peer(other));
}

/// A connection to a peer that comes back starts anew: nothing of the one before is left.
pub proof fn law_peers_start_anew(state: ReactorState, addr: SocketAddr, fd: i32, link: Link)
    ensures
        state.with_peer(addr, fd, link).sessions[addr] == Session::new(),
        !state.with_peer(addr, fd, link).is_ready(addr),
{
}

/// Sending to a peer does not change who is ready, who has a socket and who has to wait, nor the
/// connection to any other peer.
pub proof fn lemma_sending_keeps_the_rest(
    state: ReactorState,
    to: SocketAddr,
    message: Seq<u8>,
    now: LocalTime,
    addr: SocketAddr,
)
    requires
        !state.waits(to, now),
    ensures
        state.sent(to, message) matches Ok((next, _)) ==> {
            &&& next.is_ready(addr) == state.is_ready(addr)
            &&& next.is_open(addr) == state.is_open(addr)
            &&& next.waits(addr, now) == state.waits(addr, now)
            &&& addr != to ==> next.sessions[addr] == state.sessions[addr]
        },
{
    law_switching_keeps_sources(
        state.sources,
        Source::Peer(to),
        Interest::Write,
        true,
        Source::Peer(addr),
    );
}

/// Two reactors whose channels fit talk to each other: what one of them sends to the other one
/// for a message is read there as exactly this message, and the channels still fit.
pub proof fn law_reactors_talk(
    one: ReactorState,
    other: ReactorState,
    one_addr: SocketAddr,
    other_addr: SocketAddr,
    message: Seq<u8>,
    result: Result<Reading, Fault>,
    other_next: ReactorState,
)
    requires
        one.wf(),
        other.wf(),
        one.peers.contains_key(other_addr),
        other.peers.contains_key(one_addr),
        one.sessions[other_addr].channel is Some,
        other.sessions[one_addr].channel is Some,
        fit(one.sessions[other_addr].channel->0, other.sessions[one_addr].channel->0),
        one.sessions[other_addr].packets_written < u32::MAX,
        other.sessions[one_addr].prefixes_read < u32::MAX,
        other.sessions[one_addr].pending_bytes == 0,
        fits_prefix(message),
        one.sessions[other_addr].faithful(message),
        one.sent(other_addr, message) matches Ok((_, bytes)) && other.reads(
            one_addr,
            Ok(bytes),
            result,
            other_next,
        ),
    ensures
        result == Ok::<Reading, Fault>(Reading::Messages(message)),
        one.sent(other_addr, message) matches Ok((one_next, _)) && fit(
            one_next.sessions[other_addr].channel->0,
            other_next.sessions[one_addr].channel->0,
        ),
{
    law_messages_cross(one.sessions[other_addr], other.sessions[one_addr], message);
}

/// Two reads from the socket of a peer deliver what one read of all the bytes would: whole
/// packets may be cut anywhere but inside a length prefix. Afterwards the state is that of the
/// one read, with nothing left over.
pub proof fn law_cut_reads_deliver_the_same(
    state: ReactorState,
    addr: SocketAddr,
    data: Seq<u8>,
    cut: int,
    first: Result<Reading, Fault>,
    between: ReactorState,
    second: Result<Reading, Fault>,
    next: ReactorState,
)
    requires
        state.wf(),
        state.peers.contains_key(addr),
        state.sessions[addr].channel is Some,
        state.sessions[addr].pending_bytes == 0,
        0 < cut < data.len() <= MAX_CIPHERTEXT_BYTES,
        state.sessions[addr].opened(data) matches Ok((whole, _)) && whole.pending_bytes == 0,
        cut_outside_prefix(state.sessions[addr].inbound(), data, cut),
        state.reads(addr, Ok(data.take(cut)), first, between),
        between.reads(addr, Ok(data.skip(cut)), second, next),
    ensures
        ({
            &&& state.sessions[addr].opened(data) matches Ok((whole, contents))
            &&& first matches Ok(Reading::Messages(head))
            &&& second matches Ok(Reading::Messages(tail))
            &&& head + tail == contents
            &&& next == state.with_session(addr, whole)
            &&& next.sessions[addr].pending_bytes == 0
            &&& next.sessions[addr].message_buffer.len() == 0
            &&& between.sessions[addr].message_buffer.len() + between.sessions[addr].pending_bytes
                == cut_payload(state.sessions[addr].inbound(), data, cut)
        }),
{
    let session = state.sessions[addr];
    assert(state.sessions.contains_key(addr));
    law_any_cut_delivers_the_same(session.inbound(), data, cut);
    let (whole, _) = session.opened(data)->Ok_0;
    let (middle, _) = session.opened(data.take(cut))->Ok_0;
    assert(between == state.with_session(addr, middle));
    assert(between.sessions[addr] == middle);
    assert(middle.terminator_received is Some && middle.key_received is Some);
    assert(next == between.with_session(addr, whole));
    assert(next.sessions == state.sessions.insert(addr, whole));
}

/// The messages of a queue that have to wait.
pub open spec fn waiting<R, E>(
    state: ReactorState,
    items: Seq<Io<R, E>>,
    now: LocalTime,
) -> Seq<Io<R, E>>
    decreases items.len(),
{
    if items.len() == 0 {
        Seq::empty()
    } else {
        let rest = waiting(state, items.skip(1), now);
        match items[0] {
            Io::Write(addr, _) => if state.waits(addr, now) {
                seq![items[0]] + rest
            } else {
                rest
            },
            _ => rest,
        }
    }
}

proof fn lemma_waiting_depends_on_peers<R, E>(
    state: ReactorState,
    other: ReactorState,
    items: Seq<Io<R, E>>,
    now: LocalTime,
)
    requires
        forall|addr: SocketAddr| state.waits(addr, now) == #[trigger] other.waits(addr, now),
    ensures
        waiting(state, items, now) == waiting(other, items, now),
    decreases items.len(),
{
    if items.len() > 0 {
        lemma_waiting_depends_on_peers(state, other, items.skip(1), now);
        match items[0] {
            Io::Write(addr, _) => {
                assert(state.waits(addr, now) == other.waits(addr, now));
            },
            _ => {},
        }
    }
}

/// What stays in a queue is the messages that have to wait, in the order in which they were
/// there. Everything else leaves it. Who is ready, and who has to wait, does not change.
pub proof fn law_queue_keeps_what_waits<R, E>(
    state: ReactorState,
    items: Seq<Io<R, E>>,
    now: LocalTime,
)
    ensures
        drain(state, items, now) matches Ok((next, kept, _)) ==> {
            &&& kept == waiting(state, items, now)
            &&& forall|addr: SocketAddr| state.is_ready(addr) == #[trigger] next.is_ready(addr)
            &&& forall|addr: SocketAddr|
                state.waits(addr, now) == #[trigger] next.waits(addr, now)
            &&& forall|addr: SocketAddr| state.is_open(addr) == #[trigger] next.is_open(addr)
        },
    decreases items.len(),
{
    if items.len() > 0 {
        let rest = items.skip(1);
        match items[0] {
            Io::Write(addr, message) => {
                if !state.waits(addr, now) && state.is_open(addr) {
                    match state.sent(addr, message@) {
                        Ok((next, _)) => {
                            law_queue_keeps_what_waits(next, rest, now);
                            assert forall|other: SocketAddr|
                                state.is_ready(other) == #[trigger] next.is_ready(other) by {
                                lemma_sending_keeps_the_rest(state, addr, message@, now, other);
                            }
                            assert forall|other: SocketAddr|
                                state.waits(other, now) == #[trigger] next.waits(other, now) by {
                                lemma_sending_keeps_the_rest(state, addr, message@, now, other);
                            }
                            assert forall|other: SocketAddr|
                                state.is_open(other) == #[trigger] next.is_open(other) by {
                                lemma_sending_keeps_the_rest(state, addr, message@, now, other);
                            }
                            lemma_waiting_depends_on_peers(state, next, rest, now);
                            match drain(next, rest, now) {
                                Ok((_, kept, _)) => {
                                    assert(Seq::<Io<R, E>>::empty() + kept == kept);
                                },
                                Err(_) => {},
                            }
                        },
                        Err(_) => {},
                    }
                } else {
                    law_queue_keeps_what_waits(state, rest, now);
                }
            },
            _ => {
                law_queue_keeps_what_waits(state, rest, now);
            },
        }
    }
}

proof fn lemma_nothing_goes_out<R, E>(
    state: ReactorState,
    items: Seq<Io<R, E>>,
    now: LocalTime,
)
    ensures
        drain(state, waiting(state, items, now), now) == Ok::<
            (ReactorState, Seq<Io<R, E>>, Seq<(SocketAddr, Seq<u8>)>),
            Fault,
        >((state, waiting(state, items, now), Seq::empty())),
    decreases items.len(),
{
    if items.len() > 0 {
        lemma_nothing_goes_out(state, items.skip(1), now);
        let rest = waiting(state, items.skip(1), now);
        match items[0] {
            Io::Write(addr, _) => {
                if state.waits(addr, now) {
                    let whole = seq![items[0]] + rest;
                    assert(whole[0] == items[0]);
                    assert(whole.skip(1) == rest);
                    assert(Seq::<(SocketAddr, Seq<u8>)>::empty() + Seq::<
                        (SocketAddr, Seq<u8>),
                    >::empty() == Seq::<(SocketAddr, Seq<u8>)>::empty());
                }
            },
            _ => {},
        }
    }
}

/// Going through a queue a second time changes nothing: what could go out has gone out.
pub proof fn law_queue_is_exhausted<R, E>(
    state: ReactorState,
    items: Seq<Io<R, E>>,
    now: LocalTime,
)
    ensures
        drain(state, items, now) matches Ok((next, kept, _)) ==> drain(next, kept, now) == Ok::<
            (ReactorState, Seq<Io<R, E>>, Seq<(SocketAddr, Seq<u8>)>),
            Fault,
        >((next, kept, Seq::empty())),
{
    law_queue_keeps_what_waits(state, items, now);
    match drain(state, items, now) {
        Ok((next, kept, _)) => {
            lemma_waiting_depends_on_peers(state, next, items, now);
            lemma_nothing_goes_out(next, items, now);
        },
        Err(_) => {},
    }
}

/// Nothing is handed to the socket of a peer that has none. A peer that is not ready is only
/// written to if the connection to it falls back.
pub proof fn law_only_open_peers_are_written_to<R, E>(
    state: ReactorState,
    items: Seq<Io<R, E>>,
    now: LocalTime,
)
    ensures
        drain(state, items, now) matches Ok((_, _, pushes)) ==> forall|i: int|
            0 <= i < pushes.len() ==> state.is_open((#[trigger] pushes[i]).0) && !state.waits(
                pushes[i].0,
                now,
            ),
    decreases items.len(),
{
    if items.len() > 0 {
        let rest = items.skip(1);
        match items[0] {
            Io::Write(addr, message) => {
                if !state.waits(addr, now) && state.is_open(addr) {
                    match state.sent(addr, message@) {
                        Ok((next, bytes)) => {
                            law_only_open_peers_are_written_to(next, rest, now);
                            match drain(next, rest, now) {
                                Ok((_, _, pushes)) => {
                                    let whole = seq![(addr, bytes)] + pushes;
                                    assert forall|i: int| 0 <= i < whole.len() implies state.is_open(
                                        (#[trigger] whole[i]).0,
                                    ) && !state.waits(whole[i].0, now) by {
                                        if i > 0 {
                                            assert(whole[i] == pushes[i - 1]);
                                            lemma_sending_keeps_the_rest(
                                                state,
                                                addr,
                                                message@,
                                                now,
                                                pushes[i - 1].0,
                                            );
                                        }
                                    }
                                },
                                Err(_) => {},
                            }
                        },
                        Err(_) => {},
                    }
                } else {
                    law_only_open_peers_are_written_to(state, rest, now);
                    match drain(state, rest, now) {
                        Ok((_, _, pushes)) => {
                            assert(Seq::<(SocketAddr, Seq<u8>)>::empty() + pushes == pushes);
                        },
                        Err(_) => {},
                    }
                }
            },
            _ => {
                law_only_open_peers_are_written_to(state, rest, now);
            },
        }
    }
}

/// The messages in a queue for one peer.
pub open spec fn messages_to<R, E>(items: Seq<Io<R, E>>, addr: SocketAddr) -> Seq<Seq<u8>>
    decreases items.len(),
{
    if items.len() == 0 {
        Seq::empty()
    } else {
        let rest = messages_to(items.skip(1), addr);
        match items[0] {
            Io::Write(to, message) => if to == addr {
                seq![message@] + rest
            } else {
                rest
            },
            _ => rest,
        }
    }
}

/// What is handed to the socket of one peer.
pub open spec fn pushes_to(pushes: Seq<(SocketAddr, Seq<u8>)>, addr: SocketAddr) -> Seq<Seq<u8>>
    decreases pushes.len(),
{
    if pushes.len() == 0 {
        Seq::empty()
    } else {
        let rest = pushes_to(pushes.skip(1), addr);
        if pushes[0].0 == addr {
            seq![pushes[0].1] + rest
        } else {
            rest
        }
    }
}

proof fn lemma_messages_that_wait<R, E>(
    state: ReactorState,
    items: Seq<Io<R, E>>,
    now: LocalTime,
    addr: SocketAddr,
)
    ensures
        messages_to(waiting(state, items, now), addr) == (if state.waits(addr, now) {
            messages_to(items, addr)
        } else {
            Seq::empty()
        }),
    decreases items.len(),
{
    if items.len() > 0 {
        lemma_messages_that_wait(state, items.skip(1), now, addr);
        let rest = waiting(state, items.skip(1), now);
        match items[0] {
            Io::Write(to, _) => {
                if state.waits(to, now) {
                    let whole = seq![items[0]] + rest;
                    assert(whole[0] == items[0]);
                    assert(whole.skip(1) == rest);
                }
            },
            _ => {},
        }
    }
}

/// No message overtakes another one to the same peer: once a queue was gone through, it holds
/// nothing for a peer that does not have to be waited for, so that what is sent to it next
/// comes last. For a peer that has to be waited for it holds everything that it held before.
pub proof fn law_nothing_is_overtaken<R, E>(
    state: ReactorState,
    items: Seq<Io<R, E>>,
    now: LocalTime,
    addr: SocketAddr,
)
    ensures
        drain(state, items, now) matches Ok((next, kept, _)) ==> messages_to(kept, addr) == (
        if next.waits(addr, now) {
            messages_to(items, addr)
        } else {
            Seq::empty()
        }),
{
    law_queue_keeps_what_waits(state, items, now);
    match drain(state, items, now) {
        Ok((next, _, _)) => {
            assert(state.waits(addr, now) == next.waits(addr, now));
            lemma_messages_that_wait(state, items, now, addr);
        },
        Err(_) => {},
    }
}

proof fn lemma_queue_is_encrypted_in_turn<R, E>(
    state: ReactorState,
    items: Seq<Io<R, E>>,
    now: LocalTime,
    addr: SocketAddr,
) -> (states: Seq<CipherState>)
    requires
        drain(state, items, now) is Ok,
        drains_faithfully(state, items, now),
        state.is_ready(addr),
        state.is_open(addr),
        state.sessions[addr].channel is Some,
        forall|i: int|
            0 <= i < messages_to(items, addr).len() ==> fits_prefix(
                #[trigger] messages_to(items, addr)[i],
            ),
    ensures
        drain(state, items, now) matches Ok((next, _, pushes)) && {
            &&& encrypted_in_turn(states, messages_to(items, addr), pushes_to(pushes, addr))
            &&& states[0] == state.sessions[addr].channel->0.sending
            &&& next.sessions[addr].channel is Some
            &&& states.last() == next.sessions[addr].channel->0.sending
        },
    decreases items.len(),
{
    if items.len() == 0 {
        seq![state.sessions[addr].channel->0.sending]
    } else {
        let rest = items.skip(1);
        match items[0] {
            Io::Write(to, message) => {
                if !state.waits(to, now) && state.is_open(to) {
                    let (next, bytes) = state.sent(to, message@)->Ok_0;
                    lemma_sending_keeps_the_rest(state, to, message@, now, addr);
                    let (_, _, more) = drain(next, rest, now)->Ok_0;
                    let pushes = seq![(to, bytes)] + more;
                    assert(pushes.skip(1) == more);
                    assert(drain(state, items, now)->Ok_0.2 == pushes);
                    let messages = messages_to(items, addr);
                    if to == addr {
                        assert(messages[0] == message@);
                        assert forall|i: int| 0 <= i < messages_to(rest, addr).len() implies fits_prefix(
                            #[trigger] messages_to(rest, addr)[i],
                        ) by {
                            assert(messages[i + 1] == messages_to(rest, addr)[i]);
                        }
                        let later = lemma_queue_is_encrypted_in_turn(next, rest, now, addr);
                        let states = seq![state.sessions[addr].channel->0.sending] + later;
                        let packets = pushes_to(pushes, addr);
                        assert(packets == seq![bytes] + pushes_to(more, addr));
                        assert forall|i: int|
                            0 <= i < messages.len() implies opens_to(
                            states[i],
                            #[trigger] packets[i],
                            messages[i],
                            states[i + 1],
                        ) by {
                            if i == 0 {
                                assert(state.sessions[addr].faithful(message@));
                                assert(fits_prefix(messages[0]));
                            } else {
                                assert(packets[i] == pushes_to(more, addr)[i - 1]);
                                assert(messages[i] == messages_to(rest, addr)[i - 1]);
                            }
                        }
                        states
                    } else {
                        assert(pushes_to(pushes, addr) == pushes_to(more, addr));
                        lemma_queue_is_encrypted_in_turn(next, rest, now, addr)
                    }
                } else {
                    let (_, _, more) = drain(state, rest, now)->Ok_0;
                    assert(Seq::<(SocketAddr, Seq<u8>)>::empty() + more == more);
                    assert(messages_to(items, addr) == messages_to(rest, addr));
                    lemma_queue_is_encrypted_in_turn(state, rest, now, addr)
                }
            },
            _ => {
                assert(messages_to(items, addr) == messages_to(rest, addr));
                lemma_queue_is_encrypted_in_turn(state, rest, now, addr)
            },
        }
    }
}

/// What a queue holds for a peer arrives there: a peer whose receiving ciphers are in the
/// state of our sending ciphers reads, from what its socket is handed, the messages that were
/// in the queue for it, in the order in which they were there.
pub proof fn law_queued_messages_arrive<R, E>(
    state: ReactorState,
    items: Seq<Io<R, E>>,
    now: LocalTime,
    addr: SocketAddr,
    inbound: Inbound,
)
    requires
        drain(state, items, now) is Ok,
        drains_faithfully(state, items, now),
        state.is_ready(addr),
        state.is_open(addr),
        state.sessions[addr].channel is Some,
        forall|i: int|
            0 <= i < messages_to(items, addr).len() ==> fits_prefix(
                #[trigger] messages_to(items, addr)[i],
            ),
        inbound.wf(),
        inbound.pending == 0,
        inbound.state == state.sessions[addr].channel->0.sending,
        inbound.prefixes + messages_to(items, addr).len() <= u32::MAX,
    ensures
        drain(state, items, now) matches Ok((next, _, pushes)) && next.sessions[addr].channel is Some
            && unpack_data(inbound, joined(pushes_to(pushes, addr))) == Ok::<
            (Inbound, Seq<u8>),
            Fault,
        >(
            (
                Inbound {
                    state: next.sessions[addr].channel->0.sending,
                    prefixes: inbound.prefixes + messages_to(items, addr).len(),
                    ..inbound
                },
                joined(messages_to(items, addr)),
            ),
        ),
{
    let states = lemma_queue_is_encrypted_in_turn(state, items, now, addr);
    let (_, _, pushes) = drain(state, items, now)->Ok_0;
    law_read_gives_back_what_was_written(
        inbound,
        states,
        messages_to(items, addr),
        pushes_to(pushes, addr),
    );
}

} // verus!
