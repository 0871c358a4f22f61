//! What the reactor knows of the encrypted connection to one peer.
//!
//! A connection starts with an exchange of public keys. Each side then answers the key of
//! the other with a garbage terminator and a version packet. Once the terminator of the
//! peer has arrived, everything that follows is messages.
use vstd::prelude::*;
use vstd::slice::*;

use crate::bip324_info::{
    BIP324_HANDSHAKE_TIMEOUT_SECS, ELLI_SWIFT_KEY_SIZE, GARBAGE_TERMINATOR_BYTES, VERSION_CONTENT,
};
use crate::framing::{unpack, unpack_data, Fault, Inbound, READ_BUFFER_SIZE};
use crate::time::LocalTime;
use crate::transport::{
    after_response, after_sealing, authenticate, authenticated, complete_materials, encrypt_packet,
    finalize, fits_prefix, handshake_response, handshake_state, initiator_key, magic,
    new_handshake, opens_to, receiving, responder_key, sealed, sending, shared_secrets,
    CipherState, HandshakeState, Network, Role, KEY_BYTES, MAX_PLAINTEXT_BYTES,
    PACKET_OVERHEAD_BYTES, TERMINATOR_BYTES,
};

verus! {

/// The encrypted connection to a peer.
pub struct Bip324Info {
    v2: bool,
    key_sent: Option<Vec<u8>>,
    key_received: Option<Vec<u8>>,
    packet_handler: Option<bip324::PacketHandler>,
    handshake: Option<Box<bip324::Handshake<'static>>>,
    terminator_sent: Option<Vec<u8>>,
    terminator_received: Option<Vec<u8>>,
    message_buffer: Vec<u8>,
    pending_bytes: usize,
    handshake_started: Option<LocalTime>,
    prefixes_read: u32,
    packets_written: u32,
}

/// The ciphers of both directions of a channel.
pub struct Channel {
    pub sending: CipherState,
    pub receiving: CipherState,
}

/// What a [`Bip324Info`] holds.
pub struct Session {
    pub v2: bool,
    pub key_sent: Option<Seq<u8>>,
    pub key_received: Option<Seq<u8>>,
    pub channel: Option<Channel>,
    pub handshake: Option<HandshakeState>,
    pub terminator_sent: Option<Seq<u8>>,
    pub terminator_received: Option<Seq<u8>>,
    /// What has arrived of an unfinished packet.
    pub message_buffer: Seq<u8>,
    /// How many bytes of an unfinished packet have not arrived.
    pub pending_bytes: nat,
    /// When the connection began.
    pub handshake_started: Option<LocalTime>,
    /// How many length prefixes may have been decrypted. The version packet and the decoys
    /// before it are not counted one by one: the transport does not say how many there were,
    /// so that this is how many there may have been. It is exact for a peer that sends less
    /// than twenty bytes of garbage and no decoys.
    pub prefixes_read: nat,
    /// How many packets were encrypted.
    pub packets_written: nat,
}

/// The bytes in an optional vector.
pub open spec fn bytes_of(bytes: Option<Vec<u8>>) -> Option<Seq<u8>> {
    match bytes {
        Some(bytes) => Some(bytes@),
        None => None,
    }
}

/// A handshake that was just started: its state and the key that it starts with.
pub open spec fn started_handshake(role: Role, key: Seq<u8>) -> HandshakeState {
    HandshakeState {
        magic: magic(Network::Regtest),
        role,
        garbage: None,
        own_key: key,
        materials: None,
        untouched: true,
    }
}

impl Session {
    /// A connection over which nothing was sent or received.
    pub open spec fn new() -> Session {
        Session {
            v2: false,
            key_sent: None,
            key_received: None,
            channel: None,
            handshake: None,
            terminator_sent: None,
            terminator_received: None,
            message_buffer: Seq::empty(),
            pending_bytes: 0,
            handshake_started: None,
            prefixes_read: 0,
            packets_written: 0,
        }
    }

    /// The connection, which began at the given time.
    pub open spec fn begun(self, at: LocalTime) -> Session {
        Session { handshake_started: Some(at), ..self }
    }

    /// The connection began too long ago for its handshake still to be waited for.
    pub open spec fn lapsed(self, now: LocalTime) -> bool {
        !self.ready() && (self.handshake_started matches Some(started) && now.millis
            > started.millis + BIP324_HANDSHAKE_TIMEOUT_SECS * 1000)
    }

    /// The receiving side of the channel.
    pub open spec fn inbound(self) -> Inbound
        recommends
            self.channel is Some,
    {
        Inbound {
            state: self.channel->0.receiving,
            pending: self.pending_bytes,
            buffer: self.message_buffer,
            prefixes: self.prefixes_read,
        }
    }

    /// The same connection with another receiving side.
    pub open spec fn with_inbound(self, inbound: Inbound) -> Session {
        Session {
            channel: Some(Channel { receiving: inbound.state, ..self.channel->0 }),
            message_buffer: inbound.buffer,
            pending_bytes: inbound.pending,
            prefixes_read: inbound.prefixes,
            ..self
        }
    }

    /// The steps of a connection were taken in order, and a channel has ciphers that agree
    /// with what is kept beside them.
    pub open spec fn wf(self) -> bool {
        &&& self.key_received is Some ==> self.terminator_sent is Some
        &&& self.terminator_received is Some ==> self.key_received is Some && self.handshake is None
        &&& self.channel matches Some(channel) ==> {
            &&& self.terminator_received is Some
            &&& self.key_sent is Some
            &&& self.inbound().wf()
            &&& channel.sending.prefixes == self.packets_written
            &&& channel.sending.payloads == self.packets_written
            &&& self.packets_written <= u32::MAX
        }
        &&& self.channel is None ==> self.pending_bytes == 0 && self.message_buffer.len() == 0
        &&& self.handshake matches Some(handshake) ==> {
            &&& self.key_sent == Some(handshake.own_key)
            &&& handshake.own_key.len() == KEY_BYTES
            &&& handshake.magic == magic(Network::Regtest)
            &&& handshake.garbage is None
            &&& handshake.untouched
            &&& handshake.materials is Some <==> self.key_received is Some
            &&& handshake.materials matches Some(materials) ==> {
                &&& materials.receiving.prefixes == 0
                &&& materials.receiving.payloads == 0
                &&& materials.sending.prefixes == 1
                &&& materials.sending.payloads == 1
            }
        }
    }

    /// Keys were exchanged and the terminator of the peer has arrived: messages can be sent.
    pub open spec fn ready(self) -> bool {
        self.key_sent is Some && self.key_received is Some && self.terminator_received is Some
    }

    /// The connection once a handshake was started with `key`.
    pub open spec fn started(self, handshake: HandshakeState, key: Seq<u8>) -> Session {
        Session { key_sent: Some(key), handshake: Some(handshake), ..self }
    }

    /// What answers the key of the peer, and the connection afterwards. Where there is no
    /// handshake the answer is made of zeroes.
    pub open spec fn answered(self) -> Result<(Session, Seq<u8>), Fault> {
        match self.handshake {
            Some(handshake) => {
                let key = self.key_received->0;
                if key.len() != KEY_BYTES {
                    Err(Fault::KeyLength)
                } else if key.take(4) == handshake.magic {
                    Err(Fault::UnencryptedPeer)
                } else {
                    let secrets = shared_secrets(
                        initiator_key(handshake, key),
                        responder_key(handshake, key),
                        handshake.magic,
                    );
                    let response = handshake_response(handshake.role, secrets);
                    Ok(
                        (
                            Session {
                                handshake: Some(after_response(handshake, secrets)),
                                terminator_sent: Some(response),
                                ..self
                            },
                            response,
                        ),
                    )
                }
            },
            None => {
                let zeroes = Seq::new(
                    (GARBAGE_TERMINATOR_BYTES + PACKET_OVERHEAD_BYTES) as nat,
                    |i: int| 0u8,
                );
                Ok((Session { terminator_sent: Some(zeroes), ..self }, zeroes))
            },
        }
    }

    /// The connection with the key of the peer. A key of our own goes out now if none did
    /// before and a handshake could be started.
    pub open spec fn with_key(
        self,
        key: Seq<u8>,
        started: Option<(HandshakeState, Seq<u8>)>,
    ) -> Session {
        let keyed = Session { key_received: Some(key), ..self };
        match started {
            Some((handshake, own_key)) => keyed.started(handshake, own_key),
            None => keyed,
        }
    }

    /// The connection once the terminator of the peer has arrived. There is a channel only
    /// if the peer is authenticated; otherwise messages will not be encrypted.
    pub open spec fn with_terminator(self, terminator: Seq<u8>) -> Session {
        let heard = Session {
            terminator_received: Some(terminator),
            handshake: None,
            ..self
        };
        match self.handshake {
            Some(HandshakeState { materials: Some(m), .. }) => match authenticated(
                m.terminator,
                m.receiving,
                terminator,
            ) {
                Some(receiving) => Session {
                    channel: Some(Channel { sending: m.sending, receiving }),
                    prefixes_read: ((terminator.len() - TERMINATOR_BYTES)
                        / PACKET_OVERHEAD_BYTES as int) as nat,
                    packets_written: 1,
                    ..heard
                },
                None => heard,
            },
            _ => heard,
        }
    }

    /// The terminator and the empty version packet that this side of a handshake waits for.
    pub open spec fn awaits(self, terminator: Seq<u8>) -> bool {
        self.handshake matches Some(HandshakeState { materials: Some(m), .. }) && terminator
            == m.terminator + sealed(m.receiving, Seq::empty())
    }

    /// The channel behind an empty version packet.
    pub open spec fn expected(self) -> Channel {
        let materials = self.handshake->0.materials->0;
        Channel {
            sending: materials.sending,
            receiving: after_sealing(materials.receiving, Seq::empty()),
        }
    }

    /// `result` comes of the key of the peer, and `next` is the connection afterwards.
    /// `started` is the handshake that was started for it.
    pub open spec fn answers(
        self,
        key: Seq<u8>,
        started: Option<(HandshakeState, Seq<u8>)>,
        result: Result<Arrival, Fault>,
        next: Session,
    ) -> bool {
        let own_key = match started {
            Some((_, own_key)) => Some(own_key),
            None => None,
        };
        match self.with_key(key, started).answered() {
            Ok((session, terminator)) => {
                &&& result == Ok::<Arrival, Fault>(Arrival::Answer { key: own_key, terminator })
                &&& next == session
            },
            Err(fault) => result == Err::<Arrival, Fault>(fault),
        }
    }

    /// `result` comes of what arrived: the key of the peer, then its terminator, then its
    /// messages; `next` is the connection afterwards. Nothing is said of a connection that
    /// cannot go on.
    pub open spec fn receives(
        self,
        data: Seq<u8>,
        result: Result<Arrival, Fault>,
        next: Session,
    ) -> bool {
        if self.key_received is None {
            exists|started: Option<(HandshakeState, Seq<u8>)>| #[trigger]
                self.answers(data, started, result, next) && can_start(self, started)
        } else if self.terminator_received is None {
            &&& result == Ok::<Arrival, Fault>(Arrival::Nothing)
            &&& next == self.with_terminator(data)
            &&& self.awaits(data) ==> next.channel == Some(self.expected())
        } else {
            match self.opened(data) {
                Ok((session, messages)) => {
                    &&& result == Ok::<Arrival, Fault>(Arrival::Messages(messages))
                    &&& next == session
                },
                Err(fault) => result == Err::<Arrival, Fault>(fault),
            }
        }
    }

    /// What messages arrived, and the connection afterwards. Without a channel they arrive
    /// as they are.
    pub open spec fn opened(self, data: Seq<u8>) -> Result<(Session, Seq<u8>), Fault> {
        match self.channel {
            Some(_) => match unpack_data(self.inbound(), data) {
                Ok((inbound, contents)) => Ok((self.with_inbound(inbound), contents)),
                Err(fault) => Err(fault),
            },
            None => Ok((self, data)),
        }
    }

    /// A peer whose receiving ciphers are in the state of our sending ones reads the message
    /// from what goes out for it.
    pub open spec fn faithful(self, message: Seq<u8>) -> bool {
        self.channel matches Some(channel) ==> fits_prefix(message) ==> opens_to(
            channel.sending,
            sealed(channel.sending, message),
            message,
            after_sealing(channel.sending, message),
        )
    }

    /// What goes out for a message, and the connection afterwards. Without a channel it goes
    /// out as it is.
    pub open spec fn written(self, message: Seq<u8>) -> Result<(Session, Seq<u8>), Fault> {
        match self.channel {
            Some(channel) => if self.packets_written >= u32::MAX {
                Err(Fault::Exhausted)
            } else {
                Ok(
                    (
                        Session {
                            channel: Some(
                                Channel {
                                    sending: after_sealing(channel.sending, message),
                                    ..channel
                                },
                            ),
                            packets_written: self.packets_written + 1,
                            ..self
                        },
                        sealed(channel.sending, message),
                    ),
                )
            },
            None => Ok((self, message)),
        }
    }
}

impl View for Bip324Info {
    type V = Session;

    closed spec fn view(&self) -> Session {
        Session {
            v2: self.v2,
            key_sent: bytes_of(self.key_sent),
            key_received: bytes_of(self.key_received),
            channel: match self.packet_handler {
                Some(handler) => Some(
                    Channel { sending: sending(handler), receiving: receiving(handler) },
                ),
                None => None,
            },
            handshake: match self.handshake {
                Some(handshake) => Some(handshake_state(*handshake)),
                None => None,
            },
            terminator_sent: bytes_of(self.terminator_sent),
            terminator_received: bytes_of(self.terminator_received),
            message_buffer: self.message_buffer@,
            pending_bytes: self.pending_bytes as nat,
            handshake_started: self.handshake_started,
            prefixes_read: self.prefixes_read as nat,
            packets_written: self.packets_written as nat,
        }
    }
}

impl Default for Bip324Info {
    /// A connection over which nothing was sent or received.
    fn default() -> (info: Self)
        ensures
            info@ == Session::new(),
            info@.wf(),
    {
        Bip324Info {
            v2: false,
            key_sent: None,
            key_received: None,
            packet_handler: None,
            handshake: None,
            terminator_sent: None,
            terminator_received: None,
            message_buffer: Vec::new(),
            pending_bytes: 0,
            handshake_started: None,
            prefixes_read: 0,
            packets_written: 0,
        }
    }
}

/// The transport was asked for a handshake and refused to make one.
pub closed spec fn refused(role: Role) -> bool {
    exists|buffer: &mut Vec<u8>, error: bip324::Error|
        call_ensures(
            new_handshake,
            (Network::Regtest, role, buffer),
            Err::<bip324::Handshake<'static>, bip324::Error>(error),
        )
}

/// Starts a handshake with a new key. The key is made from a random number, and some numbers
/// make none: the transport then refuses, and there is no handshake.
pub fn start_handshake(role: Role) -> (started: Option<(bip324::Handshake<'static>, Vec<u8>)>)
    ensures
        started matches Some((handshake, key)) ==> key@.len() == KEY_BYTES && handshake_state(
            handshake,
        ) == started_handshake(role, key@),
        started is None ==> refused(role),
{
    let mut key: Vec<u8> = vec![0u8; ELLI_SWIFT_KEY_SIZE];
    let made = new_handshake(Network::Regtest, role, &mut key);
    assert(key@.take(KEY_BYTES as int) == key@);
    assert(made is Err ==> made == Err::<bip324::Handshake<'static>, bip324::Error>(made->Err_0));
    with_own_key(made, key)
}

/// A handshake together with the key that was made for it. Where none could be made there is
/// neither.
pub fn with_own_key(
    made: Result<bip324::Handshake<'static>, bip324::Error>,
    key: Vec<u8>,
) -> (started: Option<(bip324::Handshake<'static>, Vec<u8>)>)
    ensures
        started == (match made {
            Ok(handshake) => Some((handshake, key)),
            Err(_) => None,
        }),
{
    match made {
        Ok(handshake) => Some((handshake, key)),
        Err(_) => None,
    }
}

/// What the bytes that arrived on a connection lead to.
pub enum Arrival {
    Answer { key: Option<Seq<u8>>, terminator: Seq<u8> },
    Nothing,
    Messages(Seq<u8>),
}

/// What the result of [`Bip324Info::receive`] stands for.
pub open spec fn arrival_of(result: Result<Received, Fault>) -> Result<Arrival, Fault> {
    match result {
        Ok(Received::Answer { key, terminator }) => Ok(
            Arrival::Answer { key: bytes_of(key), terminator: terminator@ },
        ),
        Ok(Received::Nothing) => Ok(Arrival::Nothing),
        Ok(Received::Messages(messages)) => Ok(Arrival::Messages(messages@)),
        Err(fault) => Err(fault),
    }
}

/// What a handshake that was started, if any, stands for.
pub open spec fn start_of(started: Option<(bip324::Handshake<'static>, Vec<u8>)>) -> Option<
    (HandshakeState, Seq<u8>),
> {
    match started {
        Some((handshake, key)) => Some((handshake_state(handshake), key@)),
        None => None,
    }
}

/// A handshake that may be started when the key of the peer arrives. There is none for a
/// peer that has our key already. For any other peer there is one, unless the transport refused
/// to make it.
pub open spec fn can_start(session: Session, started: Option<(HandshakeState, Seq<u8>)>) -> bool {
    match started {
        Some((handshake, key)) => {
            &&& session.key_sent is None
            &&& key.len() == KEY_BYTES
            &&& handshake == started_handshake(Role::Responder, key)
        },
        None => session.key_sent is Some || refused(Role::Responder),
    }
}

/// What the bytes that arrived on a connection lead to.
pub enum Received {
    /// The peer is answered: with a key if it did not have ours, then with a terminator.
    Answer { key: Option<Vec<u8>>, terminator: Vec<u8> },
    /// There is nothing to do.
    Nothing,
    /// These messages arrived.
    Messages(Vec<u8>),
}

impl Bip324Info {
    /// Keys were exchanged and the terminator of the peer has arrived.
    pub fn is_ready(&self) -> (ready: bool)
        ensures
            ready == self@.ready(),
    {
        self.key_sent.is_some() && self.key_received.is_some() && self.terminator_received.is_some()
    }

    /// Takes note of when the connection began.
    pub fn begin_at(&mut self, at: LocalTime)
        ensures
            final(self)@ == old(self)@.begun(at),
    {
        self.handshake_started = Some(at);
    }

    /// Whether the connection began too long ago for its handshake still to be waited for.
    pub fn has_lapsed(&self, now: LocalTime) -> (lapsed: bool)
        ensures
            lapsed == self@.lapsed(now),
    {
        match self.handshake_started {
            Some(started) => {
                let limit: u128 = BIP324_HANDSHAKE_TIMEOUT_SECS as u128 * 1000;
                !self.is_ready() && now.millis > started.millis && now.millis - started.millis
                    > limit
            },
            None => false,
        }
    }

    /// Takes up a handshake that was started and returns the key that starts it.
    pub fn begin(&mut self, handshake: bip324::Handshake<'static>, key: Vec<u8>) -> (sent: Vec<u8>)
        ensures
            sent@ == key@,
            final(self)@ == old(self)@.started(handshake_state(handshake), key@),
    {
        let sent = key.clone();
        self.key_sent = Some(key);
        self.handshake = Some(Box::new(handshake));
        assert(sent@ == key@);
        sent
    }

    /// Answers the key of the peer: returns the terminator and version packet to be sent.
    pub fn create_and_send_terminator(&mut self) -> (result: Result<Vec<u8>, Fault>)
        requires
            old(self)@.handshake matches Some(handshake) ==> {
                &&& old(self)@.key_received is Some
                &&& old(self)@.key_received->0.len() == KEY_BYTES
                &&& handshake.garbage is None
            },
        ensures
            match old(self)@.answered() {
                Ok((session, sent)) => {
                    &&& result matches Ok(bytes) && bytes@ == sent && bytes@.len()
                        == GARBAGE_TERMINATOR_BYTES + PACKET_OVERHEAD_BYTES
                    &&& final(self)@ == session
                },
                Err(fault) => result == Err::<Vec<u8>, Fault>(fault) && final(self)@ == old(self)@,
            },
    {
        let content: [u8; 0] = VERSION_CONTENT;
        let num_version_packet_bytes: usize = bip324::PacketWriter::required_packet_allocation(
            content.as_slice(),
        );
        let mut response: Vec<u8> = vec![
            0u8;
            GARBAGE_TERMINATOR_BYTES + num_version_packet_bytes
        ];
        match self.handshake.take() {
            Some(mut handshake) => {
                let key = match &self.key_received {
                    Some(key) => key.as_slice(),
                    None => {
                        assert(false);
                        content.as_slice()
                    },
                };
                let completed = complete_materials(&mut *handshake, key, &mut response);
                self.handshake = Some(handshake);
                match completed {
                    Ok(()) => {
                        assert(response@.take(TERMINATOR_BYTES + PACKET_OVERHEAD_BYTES)
                            == response@);
                    },
                    Err(_) => {
                        return Err(Fault::UnencryptedPeer);
                    },
                }
            },
            None => {
                assert(response@ == Seq::new(
                    (GARBAGE_TERMINATOR_BYTES + PACKET_OVERHEAD_BYTES) as nat,
                    |i: int| 0u8,
                ));
            },
        }
        let sent = response.clone();
        assert(sent@ == response@);
        self.terminator_sent = Some(response);
        Ok(sent)
    }

    /// Takes the key of the peer and answers it. `started` is a handshake to take up first,
    /// for a peer that has no key of ours yet.
    pub fn receive_key(
        &mut self,
        received: &[u8],
        started: Option<(bip324::Handshake<'static>, Vec<u8>)>,
    ) -> (result: Result<(Option<Vec<u8>>, Vec<u8>), Fault>)
        requires
            old(self)@.wf(),
            old(self)@.key_received is None,
            started matches Some((handshake, key)) ==> {
                &&& old(self)@.key_sent is None
                &&& key@.len() == KEY_BYTES
                &&& handshake_state(handshake) == started_handshake(Role::Responder, key@)
            },
        ensures
            match old(self)@.with_key(received@, start_of(started)).answered() {
                Ok((session, sent)) => {
                    &&& result matches Ok((key, terminator)) && bytes_of(key) == (match started {
                        Some((_, key)) => Some(key@),
                        None => None,
                    }) && terminator@ == sent && terminator@.len() == GARBAGE_TERMINATOR_BYTES
                        + PACKET_OVERHEAD_BYTES
                    &&& final(self)@ == session
                    &&& final(self)@.wf()
                },
                Err(fault) => result == Err::<(Option<Vec<u8>>, Vec<u8>), Fault>(fault),
            },
    {
        let ghost before = self@;
        self.key_received = Some(slice_to_vec(received));
        let key = match started {
            Some((handshake, key)) => Some(self.begin(handshake, key)),
            None => None,
        };
        assert(self@ == before.with_key(received@, start_of(started)));
        if self.handshake.is_some() && received.len() != KEY_BYTES {
            return Err(Fault::KeyLength);
        }
        match self.create_and_send_terminator() {
            Ok(terminator) => Ok((key, terminator)),
            Err(fault) => Err(fault),
        }
    }

    /// Takes the terminator of the peer and opens the channel if it authenticates the peer.
    pub fn receive_terminator(&mut self, received: &[u8])
        requires
            old(self)@.wf(),
            old(self)@.key_received is Some,
            old(self)@.terminator_received is None,
            received@.len() <= READ_BUFFER_SIZE,
        ensures
            final(self)@ == old(self)@.with_terminator(received@),
            final(self)@.wf(),
            old(self)@.awaits(received@) ==> final(self)@.channel == Some(old(self)@.expected()),
    {
        self.terminator_received = Some(slice_to_vec(received));
        match self.handshake.take() {
            Some(mut handshake) => {
                match authenticate(&mut *handshake, received) {
                    Ok(()) => {
                        match finalize(handshake) {
                            Ok(handler) => {
                                self.packet_handler = Some(handler);
                                let packets: usize = received.len() - TERMINATOR_BYTES;
                                self.prefixes_read = (packets / PACKET_OVERHEAD_BYTES) as u32;
                                self.packets_written = 1;
                            },
                            Err(_) => {
                                assert(false);
                            },
                        }
                    },
                    Err(_) => {},
                }
            },
            None => {},
        }
    }

    /// Takes messages of the peer: decrypts them if there is a channel.
    pub fn receive_messages(&mut self, received: &[u8]) -> (result: Result<Vec<u8>, Fault>)
        requires
            old(self)@.wf(),
            received@.len() <= READ_BUFFER_SIZE,
        ensures
            final(self)@.wf(),
            match old(self)@.opened(received@) {
                Ok((session, messages)) => {
                    &&& result matches Ok(bytes) && bytes@ == messages
                    &&& final(self)@ == session
                },
                Err(fault) => result == Err::<Vec<u8>, Fault>(fault),
            },
    {
        match self.packet_handler.take() {
            Some(mut handler) => {
                let result = unpack(
                    &mut handler,
                    &mut self.pending_bytes,
                    &mut self.message_buffer,
                    &mut self.prefixes_read,
                    received,
                );
                self.packet_handler = Some(handler);
                result
            },
            None => Ok(slice_to_vec(received)),
        }
    }

    /// Takes what arrived from the peer: its key, its terminator or its messages, in that
    /// order.
    pub fn receive(&mut self, received: &[u8]) -> (result: Result<Received, Fault>)
        requires
            old(self)@.wf(),
            received@.len() <= READ_BUFFER_SIZE,
        ensures
            result is Ok ==> final(self)@.wf(),
            old(self)@.receives(received@, arrival_of(result), final(self)@),
            match result {
                Ok(Received::Answer { key, terminator }) => {
                    &&& key matches Some(key) ==> key@.len() == KEY_BYTES
                    &&& terminator@.len() == GARBAGE_TERMINATOR_BYTES + PACKET_OVERHEAD_BYTES
                },
                _ => true,
            },
    {
        if self.key_received.is_none() {
            let started = if self.key_sent.is_none() {
                start_handshake(Role::Responder)
            } else {
                None
            };
            let ghost before = self@;
            let ghost start = start_of(started);
            assert(can_start(before, start));
            let result = match self.receive_key(received, started) {
                Ok((key, terminator)) => Ok(Received::Answer { key, terminator }),
                Err(fault) => Err(fault),
            };
            assert(before.answers(received@, start, arrival_of(result), self@));
            result
        } else if self.terminator_received.is_none() {
            self.receive_terminator(received);
            Ok(Received::Nothing)
        } else {
            match self.receive_messages(received) {
                Ok(messages) => Ok(Received::Messages(messages)),
                Err(fault) => Err(fault),
            }
        }
    }

    /// What is to be sent for a message: a packet if there is a channel.
    pub fn write(&mut self, message: &[u8]) -> (result: Result<Vec<u8>, Fault>)
        requires
            old(self)@.wf(),
            message@.len() <= MAX_PLAINTEXT_BYTES,
        ensures
            final(self)@.wf(),
            match old(self)@.written(message@) {
                Ok((session, sent)) => {
                    &&& result matches Ok(bytes) && bytes@ == sent
                    &&& final(self)@ == session
                    &&& old(self)@.faithful(message@)
                },
                Err(fault) => result == Err::<Vec<u8>, Fault>(fault) && final(self)@ == old(self)@,
            },
    {
        match self.packet_handler.take() {
            Some(mut handler) => {
                if self.packets_written == u32::MAX {
                    self.packet_handler = Some(handler);
                    return Err(Fault::Exhausted);
                }
                let encrypted = encrypt_packet(&mut handler, message);
                self.packet_handler = Some(handler);
                self.packets_written = self.packets_written + 1;
                match encrypted {
                    Ok(packet) => Ok(packet),
                    Err(_) => {
                        assert(false);
                        Err(Fault::Exhausted)
                    },
                }
            },
            None => Ok(slice_to_vec(message)),
        }
    }
}

} // verus!
