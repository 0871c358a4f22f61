//! What calls on the encrypted connection to one peer come to.
//!
//! Each law speaks of a call and of what the connection holds before and after it.
use vstd::prelude::*;

use crate::framing::{unpack_data, Fault};
use crate::laws::{
    encrypted_in_turn, joined, law_a_read_delivers_what_it_finishes, law_reads_that_are_faults,
    law_short_reads, stands_at, stretch,
};
use crate::session::{
    arrival_of, bytes_of, can_start, refused, start_handshake, with_own_key, Arrival, Bip324Info,
    Channel, Received, Session,
};
use crate::time::LocalTime;
use crate::transport::{
    after_length, authenticated, decrypted_length, decrypted_payload, encrypted_packet, fresh,
    handshake_state, magic, opens_to, shared_secrets, CipherState, HandshakeState, Materials,
    Network, Role, SharedSecrets, MAX_CIPHERTEXT_BYTES,
};

verus! {

/// The bytes that every unencrypted message starts with on the network for regression tests.
pub open spec fn regtest_magic() -> Seq<u8> {
    seq![0xFAu8, 0xBFu8, 0xB5u8, 0xDAu8]
}

/// A handshake was just started: the transport made it for this role and this key, and nothing
/// has come of it yet.
pub open spec fn just_started(handshake: HandshakeState, role: Role, key: Seq<u8>) -> bool {
    &&& handshake.magic == regtest_magic()
    &&& handshake.role == role
    &&& handshake.garbage is None
    &&& handshake.own_key == key
    &&& handshake.materials is None
    &&& handshake.untouched
    &&& key.len() == 64
}

/// A handshake is always tried: there is none only if the transport refused to make one.
pub proof fn law_handshakes_are_tried(
    role: Role,
    started: Option<(bip324::Handshake<'static>, Vec<u8>)>,
)
    requires
        call_ensures(start_handshake, (role,), started),
    ensures
        match started {
            Some((handshake, key)) => just_started(handshake_state(handshake), role, key@),
            None => refused(role),
        },
{
    assert(regtest_magic() == seq![0xFAu8, 0xBFu8, 0xB5u8, 0xDAu8]);
}

/// A handshake that was made is taken up with its key, and one that was not is not.
pub proof fn law_what_was_made_is_taken_up(
    made: Result<bip324::Handshake<'static>, bip324::Error>,
    key: Vec<u8>,
    started: Option<(bip324::Handshake<'static>, Vec<u8>)>,
)
    requires
        call_ensures(with_own_key, (made, key), started),
    ensures
        made matches Ok(handshake) ==> started == Some((handshake, key)),
        made is Err ==> started is None,
{
}

/// Nothing was sent or received on a new connection.
pub open spec fn untouched(session: Session) -> bool {
    &&& !session.v2
    &&& session.key_sent is None
    &&& session.key_received is None
    &&& session.channel is None
    &&& session.handshake is None
    &&& session.terminator_sent is None
    &&& session.terminator_received is None
    &&& session.message_buffer.len() == 0
    &&& session.pending_bytes == 0
    &&& session.prefixes_read == 0
    &&& session.packets_written == 0
}

/// A new connection is untouched, it has not begun, and it is well-formed.
pub proof fn law_new_connections_are_untouched(info: Bip324Info)
    requires
        call_ensures(<Bip324Info as Default>::default, (), info),
    ensures
        untouched(info@),
        info@.handshake_started is None,
        info@.wf(),
{
}

/// A connection is ready exactly if both keys were exchanged and the terminator of the peer has
/// arrived.
pub proof fn law_ready_connections(info: Bip324Info, ready: bool)
    requires
        call_ensures(Bip324Info::is_ready, (&info,), ready),
    ensures
        ready == info@.ready(),
        ready <==> info@.key_sent is Some && info@.key_received is Some
            && info@.terminator_received is Some,
{
}

/// A connection lapses five seconds after it began, unless it is ready by then.
pub proof fn law_lapsed_connections(info: Bip324Info, now: LocalTime, lapsed: bool)
    requires
        call_ensures(Bip324Info::has_lapsed, (&info, now), lapsed),
    ensures
        lapsed == info@.lapsed(now),
        info@.ready() ==> !lapsed,
        info@.handshake_started is None ==> !lapsed,
        !info@.ready() ==> (info@.handshake_started matches Some(started) ==> (lapsed
            <==> now.millis - started.millis > 5000)),
{
}

/// Taking note of when a connection began changes nothing else.
pub proof fn law_connections_begin(info: &mut Bip324Info, at: LocalTime)
    requires
        call_ensures(Bip324Info::begin_at, (info, at), ()),
    ensures
        final(info)@.handshake_started == Some(at),
        final(info)@ == (Session { handshake_started: Some(at), ..old(info)@ }),
{
}

/// A handshake that is taken up becomes that of the connection, its key is the one that was
/// sent, and exactly this key goes out.
pub proof fn law_handshakes_are_taken_up(
    info: &mut Bip324Info,
    handshake: bip324::Handshake<'static>,
    key: Vec<u8>,
    sent: Vec<u8>,
)
    requires
        call_ensures(Bip324Info::begin, (info, handshake, key), sent),
    ensures
        sent@ == key@,
        final(info)@ == (Session {
            key_sent: Some(key@),
            handshake: Some(handshake_state(handshake)),
            ..old(info)@
        }),
{
}

/// The keys with which the given side of a connection sends.
pub open spec fn sending_keys(role: Role, secrets: SharedSecrets) -> Seq<u8> {
    if role == Role::Initiator {
        secrets.initiator_keys
    } else {
        secrets.responder_keys
    }
}

/// The terminator that the given side of a connection sends.
pub open spec fn sent_terminator(role: Role, secrets: SharedSecrets) -> Seq<u8> {
    if role == Role::Initiator {
        secrets.initiator_terminator
    } else {
        secrets.responder_terminator
    }
}

/// The other side of a connection.
pub open spec fn other(role: Role) -> Role {
    if role == Role::Initiator {
        Role::Responder
    } else {
        Role::Initiator
    }
}

/// What both sides derive from the keys that they exchanged.
pub open spec fn derived(handshake: HandshakeState, their_key: Seq<u8>) -> SharedSecrets {
    if handshake.role == Role::Initiator {
        shared_secrets(handshake.own_key, their_key, handshake.magic)
    } else {
        shared_secrets(their_key, handshake.own_key, handshake.magic)
    }
}

/// A key was answered within a handshake: `response` is the terminator of this side and its
/// version packet, which is empty; afterwards the handshake waits for the terminator of the
/// other side.
pub open spec fn responds(
    handshake: HandshakeState,
    their_key: Seq<u8>,
    response: Seq<u8>,
    next: HandshakeState,
) -> bool {
    let secrets = derived(handshake, their_key);
    let sent = encrypted_packet(fresh(sending_keys(handshake.role, secrets)), Seq::empty());
    &&& response == sent_terminator(handshake.role, secrets) + sent.0
    &&& next == (HandshakeState {
        materials: Some(
            Materials {
                terminator: sent_terminator(other(handshake.role), secrets),
                sending: CipherState { keys: sent.1, prefixes: 1, payloads: 1 },
                receiving: fresh(sending_keys(other(handshake.role), secrets)),
            },
        ),
        ..handshake
    })
}

/// The key of the peer was answered on a connection that holds `session`, with `started` for a
/// handshake that was taken up first.
pub open spec fn key_is_answered(
    session: Session,
    started: Option<(HandshakeState, Seq<u8>)>,
    key: Seq<u8>,
    response: Seq<u8>,
    next: Session,
) -> bool {
    let handshake = match started {
        Some((handshake, _)) => Some(handshake),
        None => session.handshake,
    };
    &&& next.key_received == Some(key)
    &&& next.terminator_sent == Some(response)
    &&& next.key_sent == (match started {
        Some((_, own_key)) => Some(own_key),
        None => session.key_sent,
    })
    &&& match handshake {
        Some(handshake) => {
            &&& key.len() == 64
            &&& key.take(4) != handshake.magic
            &&& next.handshake matches Some(after) && responds(handshake, key, response, after)
        },
        None => next.handshake is None && response.len() == 36 && forall|i: int|
            0 <= i < 36 ==> response[i] == 0,
    }
    &&& next == (Session {
        key_received: next.key_received,
        key_sent: next.key_sent,
        terminator_sent: next.terminator_sent,
        handshake: next.handshake,
        ..session
    })
}

/// A key is refused only within a handshake: if it has not 64 bytes, or if it starts like an
/// unencrypted message.
pub open spec fn key_is_refused(handshake: HandshakeState, key: Seq<u8>, fault: Fault) -> bool {
    if key.len() != 64 {
        fault == Fault::KeyLength
    } else {
        key.take(4) == handshake.magic && fault == Fault::UnencryptedPeer
    }
}

proof fn lemma_answered(session: Session, started: Option<(HandshakeState, Seq<u8>)>, key: Seq<u8>)
    ensures
        match session.with_key(key, started).answered() {
            Ok((next, response)) => key_is_answered(session, started, key, response, next),
            Err(fault) => match started {
                Some((handshake, _)) => key_is_refused(handshake, key, fault),
                None => session.handshake matches Some(handshake) && key_is_refused(
                    handshake,
                    key,
                    fault,
                ),
            },
        },
{
}

/// The key of the peer is answered with the terminator and the version packet of this side,
/// which are 36 bytes, and within a handshake the answer is that of the transport.
pub proof fn law_keys_are_answered(
    info: &mut Bip324Info,
    received: &[u8],
    started: Option<(bip324::Handshake<'static>, Vec<u8>)>,
    result: Result<(Option<Vec<u8>>, Vec<u8>), Fault>,
)
    requires
        call_ensures(Bip324Info::receive_key, (info, received, started), result),
    ensures
        ({
            let start = match started {
                Some((handshake, key)) => Some((handshake_state(handshake), key@)),
                None => None,
            };
            match result {
                Ok((key, terminator)) => {
                    &&& bytes_of(key) == (match started {
                        Some((_, own_key)) => Some(own_key@),
                        None => None,
                    })
                    &&& terminator@.len() == 36
                    &&& key_is_answered(
                        old(info)@,
                        start,
                        received@,
                        terminator@,
                        final(info)@,
                    )
                },
                Err(fault) => match start {
                    Some((handshake, _)) => key_is_refused(handshake, received@, fault),
                    None => old(info)@.handshake matches Some(handshake) && key_is_refused(
                        handshake,
                        received@,
                        fault,
                    ),
                },
            }
        }),
{
    let start = match started {
        Some((handshake, key)) => Some((handshake_state(handshake), key@)),
        None => None,
    };
    lemma_answered(old(info)@, start, received@);
}

/// Answering a key that has arrived before is the same as answering it when it arrives.
pub proof fn law_terminators_are_made(info: &mut Bip324Info, result: Result<Vec<u8>, Fault>)
    requires
        call_ensures(Bip324Info::create_and_send_terminator, (info,), result),
        old(info)@.key_received is Some,
    ensures
        match result {
            Ok(terminator) => {
                &&& terminator@.len() == 36
                &&& key_is_answered(
                    old(info)@,
                    None,
                    old(info)@.key_received->0,
                    terminator@,
                    final(info)@,
                )
            },
            Err(fault) => {
                &&& old(info)@.handshake matches Some(handshake) && key_is_refused(
                    handshake,
                    old(info)@.key_received->0,
                    fault,
                )
                &&& final(info)@ == old(info)@
            },
        },
{
    lemma_answered(old(info)@, None, old(info)@.key_received->0);
    assert(old(info)@.with_key(old(info)@.key_received->0, None) == old(info)@);
}

/// The receiving ciphers behind what authenticates the peer, if it does.
pub open spec fn authenticates(session: Session, terminator: Seq<u8>) -> Option<CipherState> {
    match session.handshake {
        Some(HandshakeState { materials: Some(m), .. }) => authenticated(
            m.terminator,
            m.receiving,
            terminator,
        ),
        _ => None,
    }
}

/// The terminator of the peer was taken: the handshake is over, and there is a channel exactly
/// if the transport has authenticated the peer. Its ciphers are those of the handshake. One
/// packet was sent in it, and as many may have been received as there is room for behind the
/// sixteen bytes of a terminator.
pub open spec fn terminator_is_taken(session: Session, terminator: Seq<u8>, next: Session) -> bool {
    &&& next.terminator_received == Some(terminator)
    &&& next.handshake is None
    &&& match authenticates(session, terminator) {
        Some(receiving) => {
            &&& next.channel == Some(
                Channel { sending: session.handshake->0.materials->0.sending, receiving },
            )
            &&& next.packets_written == 1
            &&& terminator.len() >= 36 ==> 20 * next.prefixes_read <= terminator.len() - 16 < 20 * (
            next.prefixes_read + 1)
        },
        None => {
            &&& next.channel == session.channel
            &&& next.packets_written == session.packets_written
            &&& next.prefixes_read == session.prefixes_read
        },
    }
    &&& next == (Session {
        terminator_received: next.terminator_received,
        handshake: next.handshake,
        channel: next.channel,
        prefixes_read: next.prefixes_read,
        packets_written: next.packets_written,
        ..session
    })
}

/// The terminator of the peer opens the channel if it authenticates the peer.
pub proof fn law_terminators_are_taken(info: &mut Bip324Info, received: &[u8])
    requires
        call_ensures(Bip324Info::receive_terminator, (info, received), ()),
    ensures
        terminator_is_taken(old(info)@, received@, final(info)@),
        final(info)@.wf(),
{
}

/// The key of the peer was answered within a handshake that was just started for it.
pub open spec fn answered_anew(
    session: Session,
    handshake: HandshakeState,
    own_key: Seq<u8>,
    key: Seq<u8>,
    response: Seq<u8>,
    next: Session,
) -> bool {
    &&& just_started(handshake, Role::Responder, own_key)
    &&& key_is_answered(session, Some((handshake, own_key)), key, response, next)
}

/// What arrives first is the key of the peer. It is answered, with a key of our own if we have
/// sent none. Such a key is always made: there is none only if the transport refused.
pub open spec fn first_is_the_key(
    session: Session,
    data: Seq<u8>,
    result: Result<Arrival, Fault>,
    next: Session,
) -> bool {
    match result {
        Ok(Arrival::Answer { key, terminator }) => {
            &&& key matches Some(own_key) ==> session.key_sent is None && (exists|
                handshake: HandshakeState,
            | #[trigger]
                answered_anew(session, handshake, own_key, data, terminator, next))
            &&& key is None ==> (session.key_sent is Some || refused(Role::Responder))
                && key_is_answered(session, None, data, terminator, next)
        },
        Err(fault) => {
            &&& session.handshake is Some || session.key_sent is None
            &&& {
                ||| data.len() != 64 && fault == Fault::KeyLength
                ||| data.len() == 64 && fault == Fault::UnencryptedPeer && data.take(4) == (
                match session.handshake {
                    Some(handshake) if session.key_sent is Some => handshake.magic,
                    _ => regtest_magic(),
                })
            }
        },
        _ => false,
    }
}

proof fn lemma_first_is_the_key(
    session: Session,
    data: Seq<u8>,
    result: Result<Arrival, Fault>,
    next: Session,
)
    requires
        session.receives(data, result, next),
        session.key_received is None,
        session.wf(),
    ensures
        first_is_the_key(session, data, result, next),
{
    assert(regtest_magic() == magic(Network::Regtest));
    let started = choose|started: Option<(HandshakeState, Seq<u8>)>| #[trigger]
        session.answers(data, started, result, next) && can_start(session, started);
    lemma_answered(session, started, data);
    match started {
        Some((handshake, key)) => {
            assert(just_started(handshake, Role::Responder, key));
            match result {
                Ok(Arrival::Answer { key: own_key, terminator }) => {
                    assert(own_key == Some(key));
                    let own = own_key->0;
                    assert(answered_anew(session, handshake, own, data, terminator, next));
                    assert(exists|made: HandshakeState| #[trigger]
                        answered_anew(session, made, own, data, terminator, next));
                    assert(first_is_the_key(session, data, result, next));
                },
                _ => {},
            }
        },
        None => {},
    }
}

/// What arrives is the key of the peer, then its terminator, then its messages. The key is
/// answered, with a key of our own if we have sent none and the transport does not refuse to make
/// one. The terminator needs no answer.
pub proof fn law_arrivals(
    session: Session,
    data: Seq<u8>,
    result: Result<Arrival, Fault>,
    next: Session,
)
    requires
        session.receives(data, result, next),
        session.wf(),
    ensures
        session.key_received is None ==> first_is_the_key(session, data, result, next),
        session.key_received is Some && session.terminator_received is None ==> {
            &&& result == Ok::<Arrival, Fault>(Arrival::Nothing)
            &&& terminator_is_taken(session, data, next)
        },
        session.key_received is Some && session.terminator_received is Some ==> {
            &&& result is Ok ==> (result matches Ok(Arrival::Messages(_)))
            &&& session.channel is None ==> result == Ok::<Arrival, Fault>(Arrival::Messages(data))
                && next == session
        },
{
    if session.key_received is None {
        lemma_first_is_the_key(session, data, result, next);
    }
}

/// Two connections meet: one that has sent its key, and an untouched one that this key arrives on.
/// Each then receives what the other one has answered. Afterwards both are ready, and what one of
/// them sends the other one can read.
pub proof fn law_connections_meet(
    opening: (Session, Seq<u8>, HandshakeState),
    accepting: Session,
    accepted: (Session, Seq<u8>, Seq<u8>),
    opened: (Session, Seq<u8>),
    initiator: Session,
    responder: Session,
)
    requires
        just_started(opening.2, Role::Initiator, opening.1),
        opening.0.key_sent == Some(opening.1),
        opening.0.handshake == Some(opening.2),
        untouched(Session { key_sent: None, handshake: None, ..opening.0 }),
        untouched(accepting),
        accepting.receives(
            opening.1,
            Ok(Arrival::Answer { key: Some(accepted.1), terminator: accepted.2 }),
            accepted.0,
        ),
        opening.0.receives(
            accepted.1,
            Ok(Arrival::Answer { key: None, terminator: opened.1 }),
            opened.0,
        ),
        opened.0.receives(accepted.2, Ok(Arrival::Nothing), initiator),
        accepted.0.receives(opened.1, Ok(Arrival::Nothing), responder),
    ensures
        initiator.ready(),
        responder.ready(),
        initiator.channel is Some,
        responder.channel is Some,
        initiator.channel->0.sending == responder.channel->0.receiving,
        responder.channel->0.sending == initiator.channel->0.receiving,
{
    let first = Ok::<Arrival, Fault>(
        Arrival::Answer { key: Some(accepted.1), terminator: accepted.2 },
    );
    let started = choose|started: Option<(HandshakeState, Seq<u8>)>| #[trigger]
        accepting.answers(opening.1, started, first, accepted.0) && can_start(accepting, started);
    lemma_answered(accepting, started, opening.1);
    let second = Ok::<Arrival, Fault>(Arrival::Answer { key: None, terminator: opened.1 });
    let none = choose|started: Option<(HandshakeState, Seq<u8>)>| #[trigger]
        opening.0.answers(accepted.1, started, second, opened.0) && can_start(opening.0, started);
    assert(none is None);
    lemma_answered(opening.0, none, accepted.1);
    assert(regtest_magic() == magic(Network::Regtest));
    assert(opened.0.awaits(accepted.2));
    assert(accepted.0.awaits(opened.1));
}

/// What a call of `receive` comes to is what arrives.
pub proof fn law_receiving(info: &mut Bip324Info, received: &[u8], result: Result<Received, Fault>)
    requires
        call_ensures(Bip324Info::receive, (info, received), result),
        old(info)@.wf(),
    ensures
        old(info)@.receives(received@, arrival_of(result), final(info)@),
        match result {
            Ok(Received::Answer { key, terminator }) => arrival_of(result) == Ok::<Arrival, Fault>(
                Arrival::Answer {
                    key: match key {
                        Some(key) => Some(key@),
                        None => None,
                    },
                    terminator: terminator@,
                },
            ) && terminator@.len() == 36 && old(info)@.key_received is None,
            Ok(Received::Nothing) => arrival_of(result) == Ok::<Arrival, Fault>(Arrival::Nothing)
                && old(info)@.key_received is Some && old(info)@.terminator_received is None,
            Ok(Received::Messages(messages)) => arrival_of(result) == Ok::<Arrival, Fault>(
                Arrival::Messages(messages@),
            ) && old(info)@.key_received is Some && old(info)@.terminator_received is Some,
            Err(fault) => arrival_of(result) == Err::<Arrival, Fault>(fault),
        },
{
    if old(info)@.key_received is None {
        lemma_first_is_the_key(old(info)@, received@, arrival_of(result), final(info)@);
    }
}

/// A connection that has read the first `from` bytes of a packet reads on: from there over whole
/// packets up to the place `to` in the last one. The packets were encrypted in turn, from the
/// state that the receiving ciphers were in.
pub open spec fn reads_on(
    session: Session,
    states: Seq<CipherState>,
    messages: Seq<Seq<u8>>,
    packets: Seq<Seq<u8>>,
    from: int,
    to: int,
) -> bool {
    &&& session.wf()
    &&& session.channel is Some
    &&& encrypted_in_turn(states, messages, packets)
    &&& packets.len() > 0
    &&& packets.len() == 1 ==> from == 0
    &&& stands_at(session.inbound(), states[0], packets[0], from)
    &&& to == 0 || 3 <= to < packets.last().len()
    &&& packets[0].len() - 3 <= MAX_CIPHERTEXT_BYTES
    &&& session.prefixes_read + packets.len() <= u32::MAX
}

/// The messages of all packets that a read finishes arrive, joined, and no others. Where the
/// read ends in a packet, the connection stands there. Nothing else about it changes.
pub open spec fn arrive(
    session: Session,
    states: Seq<CipherState>,
    messages: Seq<Seq<u8>>,
    packets: Seq<Seq<u8>>,
    from: int,
    to: int,
    contents: Seq<u8>,
    next: Session,
) -> bool {
    &&& contents == joined(messages.drop_last())
    &&& next.prefixes_read == session.prefixes_read + packets.len() - (if from == 0 {
        0int
    } else {
        1int
    }) - (if to == 0 {
        1int
    } else {
        0int
    })
    &&& next.channel is Some
    &&& stands_at(next.inbound(), states[packets.len() - 1], packets.last(), to)
    &&& next.channel->0.sending == session.channel->0.sending
    &&& next == (Session {
        channel: next.channel,
        message_buffer: next.message_buffer,
        pending_bytes: next.pending_bytes,
        prefixes_read: next.prefixes_read,
        ..session
    })
}

proof fn lemma_messages_arrive(
    session: Session,
    states: Seq<CipherState>,
    messages: Seq<Seq<u8>>,
    packets: Seq<Seq<u8>>,
    from: int,
    to: int,
)
    requires
        reads_on(session, states, messages, packets, from, to),
    ensures
        session.opened(stretch(packets, from, to)) matches Ok((next, contents)) && arrive(
            session,
            states,
            messages,
            packets,
            from,
            to,
            contents,
            next,
        ),
{
    law_a_read_delivers_what_it_finishes(
        session.inbound(),
        states,
        messages,
        packets,
        from,
        to,
    );
}

/// Every packet that is there in full is decrypted and its message delivered, in order; one that
/// is not is kept for the next read. This is so for reads of any length, wherever they start and
/// end.
pub proof fn law_finished_packets_are_delivered(
    info: &mut Bip324Info,
    received: &[u8],
    result: Result<Vec<u8>, Fault>,
    states: Seq<CipherState>,
    messages: Seq<Seq<u8>>,
    packets: Seq<Seq<u8>>,
    from: int,
    to: int,
)
    requires
        call_ensures(Bip324Info::receive_messages, (info, received), result),
        reads_on(old(info)@, states, messages, packets, from, to),
        received@ == stretch(packets, from, to),
    ensures
        result matches Ok(contents) && arrive(
            old(info)@,
            states,
            messages,
            packets,
            from,
            to,
            contents@,
            final(info)@,
        ),
{
    lemma_messages_arrive(old(info)@, states, messages, packets, from, to);
}

/// What arrives on a connection that is past its handshake is delivered in the same way.
pub proof fn law_messages_arrive(
    session: Session,
    result: Result<Arrival, Fault>,
    next: Session,
    states: Seq<CipherState>,
    messages: Seq<Seq<u8>>,
    packets: Seq<Seq<u8>>,
    from: int,
    to: int,
)
    requires
        session.receives(stretch(packets, from, to), result, next),
        reads_on(session, states, messages, packets, from, to),
    ensures
        result matches Ok(Arrival::Messages(contents)) && arrive(
            session,
            states,
            messages,
            packets,
            from,
            to,
            contents,
            next,
        ),
{
    lemma_messages_arrive(session, states, messages, packets, from, to);
}

/// Whatever arrives on a channel is unpacked on its receiving side: what comes of that is what is
/// delivered, and what is kept. Nothing else about the connection changes.
pub proof fn law_messages_are_unpacked(
    info: &mut Bip324Info,
    received: &[u8],
    result: Result<Vec<u8>, Fault>,
)
    requires
        call_ensures(Bip324Info::receive_messages, (info, received), result),
        old(info)@.channel is Some,
    ensures
        final(info)@.wf(),
        match unpack_data(old(info)@.inbound(), received@) {
            Ok((inbound, contents)) => {
                &&& result matches Ok(messages) && messages@ == contents
                &&& final(info)@.channel == Some(
                    Channel {
                        sending: old(info)@.channel->0.sending,
                        receiving: inbound.state,
                    },
                )
                &&& final(info)@ == (Session {
                    channel: final(info)@.channel,
                    message_buffer: inbound.buffer,
                    pending_bytes: inbound.pending,
                    prefixes_read: inbound.prefixes,
                    ..old(info)@
                })
            },
            Err(fault) => result == Err::<Vec<u8>, Fault>(fault),
        },
{
}

/// A read that does not finish a packet that was started before delivers what it would deliver if
/// none was started; besides, all of it is kept for the packet.
pub proof fn law_short_reads_are_kept(
    info: &mut Bip324Info,
    fresh: &mut Bip324Info,
    received: &[u8],
    result: Result<Vec<u8>, Fault>,
    expected: Result<Vec<u8>, Fault>,
)
    requires
        call_ensures(Bip324Info::receive_messages, (info, received), result),
        call_ensures(Bip324Info::receive_messages, (fresh, received), expected),
        old(info)@.wf(),
        received@.len() < old(info)@.pending_bytes,
        old(fresh)@ == (Session {
            pending_bytes: 0,
            message_buffer: Seq::empty(),
            ..old(info)@
        }),
    ensures
        match expected {
            Ok(contents) => {
                let kept = final(fresh)@;
                &&& result matches Ok(messages) && messages@ == contents@
                &&& final(info)@ == (Session {
                    pending_bytes: if kept.pending_bytes > 0 {
                        kept.pending_bytes
                    } else {
                        old(info)@.pending_bytes
                    },
                    message_buffer: old(info)@.message_buffer + received@ + kept.message_buffer,
                    ..kept
                })
            },
            Err(fault) => result == Err::<Vec<u8>, Fault>(fault),
        },
{
    law_short_reads(old(info)@.inbound(), received@);
}

/// Without a channel everything arrives as it is, and nothing about the connection changes.
pub proof fn law_plain_messages_arrive(
    info: &mut Bip324Info,
    received: &[u8],
    result: Result<Vec<u8>, Fault>,
)
    requires
        call_ensures(Bip324Info::receive_messages, (info, received), result),
        old(info)@.channel is None,
    ensures
        result matches Ok(contents) && contents@ == received@,
        final(info)@ == old(info)@,
{
}

/// A read behind whole packets that ends in a length prefix, or whose next packet the ciphers
/// refuse, is a fault, and nothing of it is delivered.
pub proof fn law_faults_are_reported(
    info: &mut Bip324Info,
    received: &[u8],
    result: Result<Vec<u8>, Fault>,
    states: Seq<CipherState>,
    messages: Seq<Seq<u8>>,
    packets: Seq<Seq<u8>>,
    tail: Seq<u8>,
)
    requires
        call_ensures(Bip324Info::receive_messages, (info, received), result),
        old(info)@.wf(),
        old(info)@.channel is Some,
        old(info)@.pending_bytes == 0,
        encrypted_in_turn(states, messages, packets),
        states[0] == old(info)@.channel->0.receiving,
        old(info)@.prefixes_read + packets.len() < u32::MAX,
        tail.len() > 0,
        received@ == joined(packets) + tail,
    ensures
        ({
            let length = decrypted_length(states.last(), tail.take(3)).0;
            let behind = after_length(states.last(), tail.take(3));
            &&& tail.len() < 3 ==> result == Err::<Vec<u8>, Fault>(Fault::TruncatedPrefix)
            &&& 3 + length <= tail.len() && decrypted_payload(
                behind,
                tail.subrange(3, 3 + length as int),
            ) is None ==> result == Err::<Vec<u8>, Fault>(Fault::Decryption)
        }),
{
    law_reads_that_are_faults(old(info)@.inbound(), states, messages, packets, tail);
}

/// What goes out for a message. Without a channel it is the message itself. With one it is the
/// packet that the transport makes of it, from which a peer with the same ciphers reads exactly
/// the message. There is none once the ciphers are used up.
pub proof fn law_messages_are_written(
    info: &mut Bip324Info,
    message: &[u8],
    result: Result<Vec<u8>, Fault>,
)
    requires
        call_ensures(Bip324Info::write, (info, message), result),
    ensures
        match old(info)@.channel {
            None => {
                &&& result matches Ok(bytes) && bytes@ == message@
                &&& final(info)@ == old(info)@
            },
            Some(channel) => {
                &&& result is Err <==> old(info)@.packets_written >= u32::MAX
                &&& result matches Err(fault) ==> fault == Fault::Exhausted && final(info)@
                    == old(info)@
                &&& result matches Ok(bytes) ==> {
                    &&& bytes@ == encrypted_packet(channel.sending, message@).0
                    &&& final(info)@.channel is Some
                    &&& message@.len() < 0x100_0000 ==> opens_to(
                        channel.sending,
                        bytes@,
                        message@,
                        final(info)@.channel->0.sending,
                    )
                    &&& final(info)@.channel->0.receiving == channel.receiving
                    &&& final(info)@.channel->0.sending == (CipherState {
                        keys: encrypted_packet(channel.sending, message@).1,
                        prefixes: channel.sending.prefixes + 1,
                        payloads: channel.sending.payloads + 1,
                    })
                    &&& final(info)@ == (Session {
                        channel: final(info)@.channel,
                        packets_written: old(info)@.packets_written + 1,
                        ..old(info)@
                    })
                }
            },
        },
{
}

} // verus!
