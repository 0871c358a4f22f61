//! What is kept for the encrypted connection to a peer, with the sizes that it is made of.
use vstd::prelude::*;

use crate::time::LocalTime;

verus! {

/// Version content is always empty for the current version of the protocol.
pub const VERSION_CONTENT: [u8; 0] = [];

/// Number of bytes for the garbage terminator.
pub const GARBAGE_TERMINATOR_BYTES: usize = 16;

/// Number of bytes used to indicate size when decrypting a message.
pub const DEFAULT_SIZE_BYTES_V2: usize = 3;

/// Size of an ElligatorSwift key.
pub const ELLI_SWIFT_KEY_SIZE: usize = 64;

/// Size of the buffer that holds a garbage terminator and a version packet.
pub const MAX_GARBAGE_BUFFER_BYTES: usize = 36;

/// Number of seconds after which a connection should fall back to the unencrypted transport.
pub const BIP324_HANDSHAKE_TIMEOUT_SECS: u64 = 5;

/// The encrypted connection to a peer.
pub struct Bip324Info {
    pub key_sent: Option<Vec<u8>>,
    pub key_received: Option<Vec<u8>>,
    pub terminator_sent: Option<Vec<u8>>,
    pub garbage_received: Vec<u8>,
    pub packet_handler: Option<bip324::PacketHandler>,
    pub handshake: Option<Box<bip324::Handshake<'static>>>,
    pub message_buffer: MessageBuffer,
    pub handshake_started: Option<LocalTime>,
}

/// What has arrived of a message, and how much of it has not.
pub struct MessageBuffer {
    pub pending_bytes: usize,
    pub buffer: Vec<u8>,
}

impl Default for MessageBuffer {
    /// Nothing has arrived, and nothing is waited for.
    fn default() -> (message_buffer: Self)
        ensures
            message_buffer.pending_bytes == 0,
            message_buffer.buffer@.len() == 0,
    {
        MessageBuffer { pending_bytes: 0, buffer: Vec::new() }
    }
}

impl Default for Bip324Info {
    /// Nothing was sent, and nothing has arrived.
    fn default() -> (info: Self)
        ensures
            info.key_sent is None,
            info.key_received is None,
            info.terminator_sent is None,
            info.garbage_received@.len() == 0,
            info.packet_handler is None,
            info.handshake is None,
            info.message_buffer.pending_bytes == 0,
            info.message_buffer.buffer@.len() == 0,
            info.handshake_started is None,
    {
        Bip324Info {
            key_sent: None,
            key_received: None,
            terminator_sent: None,
            garbage_received: Vec::new(),
            packet_handler: None,
            handshake: None,
            message_buffer: MessageBuffer::default(),
            handshake_started: None,
        }
    }
}

} // verus!
