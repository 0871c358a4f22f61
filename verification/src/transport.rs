//! The encrypted transport, as the `bip324` crate provides it.
//!
//! This module holds the boundary to that crate: the types of it that pass through the
//! reactor, names for what its ciphers compute, and one function for each call.
use vstd::prelude::*;

verus! {

/// A handshake that has not yet led to an encrypted channel.
#[verifier::external_type_specification]
#[verifier::external_body]
pub struct ExHandshake<'a>(bip324::Handshake<'a>);

/// The two halves of an encrypted channel.
#[verifier::external_type_specification]
#[verifier::external_body]
pub struct ExPacketHandler(bip324::PacketHandler);

/// Why the transport refused something.
#[verifier::external_type_specification]
#[verifier::external_body]
pub struct ExError(bip324::Error);

/// Number of bytes in a public key.
pub const KEY_BYTES: usize = 64;

/// Number of bytes in a garbage terminator.
pub const TERMINATOR_BYTES: usize = 16;

/// Number of bytes that a packet has beside its contents.
pub const PACKET_OVERHEAD_BYTES: usize = 20;

/// Number of bytes that follow the length prefix of a packet beside its contents.
pub const PAYLOAD_OVERHEAD_BYTES: usize = 17;

/// The longest contents that the packet cipher can encrypt: its block counter has 32 bits.
pub const MAX_PLAINTEXT_BYTES: u64 = 274_877_906_815;

/// The longest payload that the packet cipher can decrypt.
pub const MAX_CIPHERTEXT_BYTES: u64 = 274_877_906_832;

/// Contents shorter than this have a length that fits the prefix of a packet.
pub const LENGTH_LIMIT: usize = 0x100_0000;

/// The Bitcoin network that a node belongs to.
#[derive(Clone, Copy, Debug, PartialEq, Eq, Structural)]
pub enum Network {
    Mainnet,
    Testnet,
    Regtest,
    Signet,
}

/// The four bytes that start every unencrypted message on a network.
pub open spec fn magic(network: Network) -> Seq<u8> {
    match network {
        Network::Mainnet => seq![0xF9u8, 0xBEu8, 0xB4u8, 0xD9u8],
        Network::Testnet => seq![0x0Bu8, 0x11u8, 0x09u8, 0x07u8],
        Network::Regtest => seq![0xFAu8, 0xBFu8, 0xB5u8, 0xDAu8],
        Network::Signet => seq![0x0Au8, 0x03u8, 0xCFu8, 0x40u8],
    }
}

/// The part taken in a handshake.
#[derive(Clone, Copy, Debug, PartialEq, Eq, Structural)]
pub enum Role {
    /// Opened the connection.
    Initiator,
    /// Accepted the connection.
    Responder,
}

/// What the two ciphers of one direction of a channel hold.
pub struct CipherState {
    /// The current keys, and the place in the key stream of the length cipher.
    pub keys: Seq<u8>,
    /// How many length prefixes went through the length cipher.
    pub prefixes: nat,
    /// How many payloads went through the packet cipher.
    pub payloads: nat,
}

/// What two peers derive from their public keys.
pub struct SharedSecrets {
    pub initiator_keys: Seq<u8>,
    pub responder_keys: Seq<u8>,
    pub initiator_terminator: Seq<u8>,
    pub responder_terminator: Seq<u8>,
}

/// What a handshake holds once the key of the peer is known.
pub struct Materials {
    /// The garbage terminator that the peer will send.
    pub terminator: Seq<u8>,
    /// The ciphers for what is sent.
    pub sending: CipherState,
    /// The ciphers for what is received.
    pub receiving: CipherState,
}

/// What a handshake holds.
pub struct HandshakeState {
    /// The magic bytes of the network.
    pub magic: Seq<u8>,
    pub role: Role,
    /// What is sent along with the key.
    pub garbage: Option<Seq<u8>>,
    /// The public key that was made for this handshake.
    pub own_key: Seq<u8>,
    pub materials: Option<Materials>,
    /// Nothing from behind the garbage of the peer was looked at yet.
    pub untouched: bool,
}

/// What the receiving half of a channel holds.
pub uninterp spec fn receiving(handler: bip324::PacketHandler) -> CipherState;

/// What the sending half of a channel holds.
pub uninterp spec fn sending(handler: bip324::PacketHandler) -> CipherState;

/// What a handshake holds.
pub uninterp spec fn handshake_state(handshake: bip324::Handshake<'static>) -> HandshakeState;

/// The number of bytes that follow an encrypted length prefix, and the keys after that.
pub uninterp spec fn decrypted_length(state: CipherState, prefix: Seq<u8>) -> (nat, Seq<u8>);

/// The contents of an encrypted payload and the keys after that, or nothing where its tag
/// does not match.
pub uninterp spec fn decrypted_payload(state: CipherState, payload: Seq<u8>) -> Option<
    (Seq<u8>, Seq<u8>),
>;

/// The packet that carries `contents`, and the keys after that.
pub uninterp spec fn encrypted_packet(state: CipherState, contents: Seq<u8>) -> (Seq<u8>, Seq<u8>);

/// What two peers derive from the public keys that they exchanged and from the magic bytes of
/// their network.
pub uninterp spec fn shared_secrets(
    initiator_key: Seq<u8>,
    responder_key: Seq<u8>,
    magic: Seq<u8>,
) -> SharedSecrets;

/// The receiving ciphers behind the version packet of the peer, or nothing where `received`
/// does not authenticate the peer.
pub uninterp spec fn authenticated(
    terminator: Seq<u8>,
    state: CipherState,
    received: Seq<u8>,
) -> Option<CipherState>;

/// The ciphers of a direction that nothing was sent in yet.
pub open spec fn fresh(keys: Seq<u8>) -> CipherState {
    CipherState { keys, prefixes: 0, payloads: 0 }
}

/// The receiving ciphers once a length prefix was decrypted.
pub open spec fn after_length(state: CipherState, prefix: Seq<u8>) -> CipherState {
    CipherState {
        keys: decrypted_length(state, prefix).1,
        prefixes: state.prefixes + 1,
        payloads: state.payloads,
    }
}

/// The receiving ciphers once a payload was decrypted.
pub open spec fn after_payload(state: CipherState, payload: Seq<u8>) -> CipherState {
    match decrypted_payload(state, payload) {
        Some((_, keys)) => CipherState {
            keys,
            prefixes: state.prefixes,
            payloads: state.payloads + 1,
        },
        None => state,
    }
}

/// The packet that carries `contents`.
pub open spec fn sealed(state: CipherState, contents: Seq<u8>) -> Seq<u8> {
    encrypted_packet(state, contents).0
}

/// The sending ciphers once a packet was encrypted.
pub open spec fn after_sealing(state: CipherState, contents: Seq<u8>) -> CipherState {
    CipherState {
        keys: encrypted_packet(state, contents).1,
        prefixes: state.prefixes + 1,
        payloads: state.payloads + 1,
    }
}

/// Receiving ciphers in `state` read `contents` from `packet` and are then in `next`.
pub open spec fn opens_to(
    state: CipherState,
    packet: Seq<u8>,
    contents: Seq<u8>,
    next: CipherState,
) -> bool {
    let behind = after_length(state, packet.take(3));
    &&& packet.len() >= 3
    &&& decrypted_length(state, packet.take(3)).0 == packet.len() - 3
    &&& decrypted_payload(behind, packet.skip(3)) == Some((contents, next.keys))
    &&& next == after_payload(behind, packet.skip(3))
}

/// Contents whose length fits the prefix of a packet.
pub open spec fn fits_prefix(contents: Seq<u8>) -> bool {
    contents.len() < LENGTH_LIMIT
}

/// The key of the side that opened the connection.
pub open spec fn initiator_key(state: HandshakeState, their_key: Seq<u8>) -> Seq<u8> {
    match state.role {
        Role::Initiator => state.own_key,
        Role::Responder => their_key,
    }
}

/// The key of the side that accepted the connection.
pub open spec fn responder_key(state: HandshakeState, their_key: Seq<u8>) -> Seq<u8> {
    match state.role {
        Role::Initiator => their_key,
        Role::Responder => state.own_key,
    }
}

/// The keys for what this side of a handshake sends.
pub open spec fn own_keys(role: Role, secrets: SharedSecrets) -> Seq<u8> {
    match role {
        Role::Initiator => secrets.initiator_keys,
        Role::Responder => secrets.responder_keys,
    }
}

/// The keys for what this side of a handshake receives.
pub open spec fn remote_keys(role: Role, secrets: SharedSecrets) -> Seq<u8> {
    match role {
        Role::Initiator => secrets.responder_keys,
        Role::Responder => secrets.initiator_keys,
    }
}

/// The garbage terminator that this side of a handshake sends.
pub open spec fn own_terminator(role: Role, secrets: SharedSecrets) -> Seq<u8> {
    match role {
        Role::Initiator => secrets.initiator_terminator,
        Role::Responder => secrets.responder_terminator,
    }
}

/// The garbage terminator that this side of a handshake waits for.
pub open spec fn remote_terminator(role: Role, secrets: SharedSecrets) -> Seq<u8> {
    match role {
        Role::Initiator => secrets.responder_terminator,
        Role::Responder => secrets.initiator_terminator,
    }
}

/// What a handshake answers to the key of the peer: its garbage terminator and its version
/// packet, which is empty.
pub open spec fn handshake_response(role: Role, secrets: SharedSecrets) -> Seq<u8> {
    own_terminator(role, secrets) + sealed(fresh(own_keys(role, secrets)), Seq::empty())
}

/// A handshake once it has answered to the key of the peer.
pub open spec fn after_response(state: HandshakeState, secrets: SharedSecrets) -> HandshakeState {
    HandshakeState {
        materials: Some(
            Materials {
                terminator: remote_terminator(state.role, secrets),
                sending: after_sealing(fresh(own_keys(state.role, secrets)), Seq::empty()),
                receiving: fresh(remote_keys(state.role, secrets)),
            },
        ),
        ..state
    }
}

/// Calls `bip324::Handshake::new` without garbage.
///
/// A handshake starts with a new public key, which is also written to the first bytes of
/// `buffer`. The key is made from a random number, so nothing is promised of it beyond its
/// place, and there is no promise of success: a random number that is no secret key is
/// refused, and the buffer is then left alone.
#[verifier::external_body]
pub(crate) fn new_handshake(network: Network, role: Role, buffer: &mut Vec<u8>) -> (result: Result<
    bip324::Handshake<'static>,
    bip324::Error,
>)
    requires
        old(buffer)@.len() >= KEY_BYTES,
    ensures
        final(buffer)@.len() == old(buffer)@.len(),
        final(buffer)@.skip(KEY_BYTES as int) == old(buffer)@.skip(KEY_BYTES as int),
        match result {
            Ok(handshake) => handshake_state(handshake) == (HandshakeState {
                magic: magic(network),
                role,
                garbage: None,
                own_key: final(buffer)@.take(KEY_BYTES as int),
                materials: None,
                untouched: true,
            }),
            Err(_) => final(buffer)@ == old(buffer)@,
        },
{
    let network = match network {
        Network::Mainnet => bip324::Network::Bitcoin,
        Network::Testnet => bip324::Network::Testnet,
        Network::Regtest => bip324::Network::Regtest,
        Network::Signet => bip324::Network::Signet,
    };
    let role = match role {
        Role::Initiator => bip324::Role::Initiator,
        Role::Responder => bip324::Role::Responder,
    };
    bip324::Handshake::new(network, role, None, buffer)
}

/// Calls `bip324::Handshake::complete_materials` without decoys.
///
/// It refuses a key that starts with the magic bytes of the network, and leaves everything
/// as it was. Any other key leads to the secrets that both peers derive; the answer to the
/// peer is written to the first bytes of `response`.
#[verifier::external_body]
pub(crate) fn complete_materials(
    handshake: &mut bip324::Handshake<'static>,
    their_key: &[u8],
    response: &mut Vec<u8>,
) -> (result: Result<(), bip324::Error>)
    requires
        handshake_state(*old(handshake)).garbage is None,
        their_key@.len() == KEY_BYTES,
        old(response)@.len() >= TERMINATOR_BYTES + PACKET_OVERHEAD_BYTES,
    ensures
        result is Err <==> their_key@.take(4) == handshake_state(*old(handshake)).magic,
        result is Err ==> handshake_state(*final(handshake)) == handshake_state(*old(handshake)),
        result is Err ==> final(response)@ == old(response)@,
        result is Ok ==> handshake_state(*final(handshake)) == after_response(
            handshake_state(*old(handshake)),
            shared_secrets(
                initiator_key(handshake_state(*old(handshake)), their_key@),
                responder_key(handshake_state(*old(handshake)), their_key@),
                handshake_state(*old(handshake)).magic,
            ),
        ),
        result is Ok ==> final(response)@.take(TERMINATOR_BYTES + PACKET_OVERHEAD_BYTES)
            == handshake_response(
            handshake_state(*old(handshake)).role,
            shared_secrets(
                initiator_key(handshake_state(*old(handshake)), their_key@),
                responder_key(handshake_state(*old(handshake)), their_key@),
                handshake_state(*old(handshake)).magic,
            ),
        ),
        final(response)@.len() == old(response)@.len(),
        final(response)@.skip(TERMINATOR_BYTES + PACKET_OVERHEAD_BYTES) == old(response)@.skip(
            TERMINATOR_BYTES + PACKET_OVERHEAD_BYTES,
        ),
{
    let their_key: [u8; 64] = their_key.try_into().expect("a key of the right length");
    handshake.complete_materials(their_key, response, None)
}

/// Calls `bip324::Handshake::authenticate_garbage_and_version`.
///
/// It skips what stands before the garbage terminator of the peer, decrypts packets up to
/// the first genuine one, and fails where it does not get there. A packet has at least
/// twenty bytes, and packets stand behind the sixteen bytes of the terminator, which bounds how
/// many were decrypted; the crate does not give their number. A peer that sends nothing but its
/// terminator and its empty version packet is authenticated. Nothing is said of a handshake
/// that failed here.
#[verifier::external_body]
pub(crate) fn authenticate(handshake: &mut bip324::Handshake<'static>, received: &[u8]) -> (result:
    Result<(), bip324::Error>)
    requires
        handshake_state(*old(handshake)).materials matches Some(m) ==> m.receiving.prefixes
            + received@.len() < u32::MAX && m.receiving.payloads + received@.len() < u64::MAX,
    ensures
        match handshake_state(*old(handshake)).materials {
            Some(m) => handshake_state(*old(handshake)).untouched ==> {
                &&& match authenticated(m.terminator, m.receiving, received@) {
                    Some(next) => {
                        &&& result is Ok
                        &&& handshake_state(*final(handshake)) == (HandshakeState {
                            materials: Some(Materials { receiving: next, ..m }),
                            untouched: false,
                            ..handshake_state(*old(handshake))
                        })
                        &&& next.prefixes - m.receiving.prefixes == next.payloads
                            - m.receiving.payloads
                        &&& 0 < PACKET_OVERHEAD_BYTES * (next.prefixes - m.receiving.prefixes)
                            <= received@.len() - TERMINATOR_BYTES
                    },
                    None => result is Err,
                }
                &&& received@ == m.terminator + sealed(m.receiving, Seq::empty())
                    ==> authenticated(m.terminator, m.receiving, received@) == Some(
                    after_sealing(m.receiving, Seq::empty()),
                )
            },
            None => result is Err,
        },
{
    handshake.authenticate_garbage_and_version(received)
}

/// Calls `bip324::Handshake::finalize`.
///
/// It hands out the channel of a handshake that has the key of the peer.
#[verifier::external_body]
pub(crate) fn finalize(handshake: Box<bip324::Handshake<'static>>) -> (result: Result<
    bip324::PacketHandler,
    bip324::Error,
>)
    ensures
        match handshake_state(*handshake).materials {
            Some(m) => result matches Ok(handler) && sending(handler) == m.sending && receiving(
                handler,
            ) == m.receiving,
            None => result is Err,
        },
{
    handshake.finalize()
}

/// Calls `bip324::PacketReader::decypt_len`.
///
/// It decrypts three bytes into the length of what follows them in a packet, and moves the
/// length cipher on. That cipher counts its uses in 32 bits.
#[verifier::external_body]
pub(crate) fn decrypt_length(handler: &mut bip324::PacketHandler, prefix: [u8; 3]) -> (length:
    usize)
    requires
        receiving(*old(handler)).prefixes < u32::MAX,
    ensures
        length == decrypted_length(receiving(*old(handler)), prefix@).0,
        PAYLOAD_OVERHEAD_BYTES <= length < PAYLOAD_OVERHEAD_BYTES + LENGTH_LIMIT,
        receiving(*final(handler)) == after_length(receiving(*old(handler)), prefix@),
        sending(*final(handler)) == sending(*old(handler)),
{
    handler.reader().decypt_len(prefix)
}

/// Calls `bip324::PacketReader::decrypt_payload` without associated data, and
/// `bip324::Payload::contents` on what it returns.
///
/// It checks the tag of a payload and decrypts its contents, without the header byte. Where
/// the tag does not match, the ciphers stay as they were.
#[verifier::external_body]
pub(crate) fn decrypt_payload(handler: &mut bip324::PacketHandler, payload: &[u8]) -> (result:
    Result<Vec<u8>, bip324::Error>)
    requires
        PAYLOAD_OVERHEAD_BYTES <= payload@.len() <= MAX_CIPHERTEXT_BYTES,
        receiving(*old(handler)).payloads < u64::MAX,
    ensures
        match decrypted_payload(receiving(*old(handler)), payload@) {
            Some((contents, _)) => result matches Ok(bytes) && bytes@ == contents && bytes@.len()
                == payload@.len() - PAYLOAD_OVERHEAD_BYTES,
            None => result is Err,
        },
        receiving(*final(handler)) == after_payload(receiving(*old(handler)), payload@),
        sending(*final(handler)) == sending(*old(handler)),
{
    handler.reader().decrypt_payload(payload, None).map(|payload| payload.contents().to_vec())
}

/// Calls `bip324::PacketWriter::encrypt_packet` for a genuine packet without associated data.
///
/// It always succeeds. Contents whose length fits the prefix are what receiving ciphers in
/// the state of these sending ones read from the packet; they are then again in the same
/// state.
#[verifier::external_body]
pub(crate) fn encrypt_packet(handler: &mut bip324::PacketHandler, contents: &[u8]) -> (result:
    Result<Vec<u8>, bip324::Error>)
    requires
        contents@.len() <= MAX_PLAINTEXT_BYTES,
        sending(*old(handler)).prefixes < u32::MAX,
        sending(*old(handler)).payloads < u64::MAX,
    ensures
        match result {
            Ok(packet) => {
                &&& packet@ == encrypted_packet(sending(*old(handler)), contents@).0
                &&& packet@.len() == contents@.len() + PACKET_OVERHEAD_BYTES
                &&& fits_prefix(contents@) ==> opens_to(
                    sending(*old(handler)),
                    packet@,
                    contents@,
                    sending(*final(handler)),
                )
            },
            Err(_) => false,
        },
        sending(*final(handler)) == after_sealing(sending(*old(handler)), contents@),
        receiving(*final(handler)) == receiving(*old(handler)),
{
    handler.writer().encrypt_packet(contents, None, bip324::PacketType::Genuine)
}

/// `bip324::PacketWriter::required_packet_allocation` is the length of the packet for the
/// given contents.
pub assume_specification[ bip324::PacketWriter::required_packet_allocation ](
    plaintext: &[u8],
) -> (length: usize)
    requires
        plaintext@.len() + PACKET_OVERHEAD_BYTES <= usize::MAX,
    ensures
        length == plaintext@.len() + PACKET_OVERHEAD_BYTES,
;

} // verus!
