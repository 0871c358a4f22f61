//! Packets in a stream of received bytes.
//!
//! A read from a socket may end in a packet. What is known of an unfinished packet is kept for
//! the next read, which should bring all the bytes that it lacks. Where that read brings fewer,
//! they are kept too, but they are also taken for packets of their own.
use vstd::prelude::*;
use vstd::slice::*;

use crate::bip324_info::DEFAULT_SIZE_BYTES_V2;
use crate::transport::{
    after_length, after_payload, decrypt_length, decrypt_payload, decrypted_length,
    decrypted_payload, receiving, sending, CipherState, MAX_CIPHERTEXT_BYTES,
    PAYLOAD_OVERHEAD_BYTES,
};

verus! {

/// Socket read buffer size. No more than this is read at once.
pub const READ_BUFFER_SIZE: usize = 1024 * 192;

/// Why a connection cannot go on. There is no way back from any of these.
#[derive(Clone, Copy, Debug, PartialEq, Eq, Structural)]
pub enum Fault {
    /// What came in place of a key does not have the length of one.
    KeyLength,
    /// The peer does not encrypt: what came in place of a key is an unencrypted message.
    UnencryptedPeer,
    /// A read ended within the length prefix of a packet.
    TruncatedPrefix,
    /// More bytes were collected for a packet than the ciphers can decrypt.
    PayloadLength,
    /// A packet is not what the peer encrypted.
    Decryption,
    /// The ciphers of the channel are used up.
    Exhausted,
    /// Something happened to the socket of a peer that has none.
    Unregistered,
}

/// The receiving side of a channel.
pub struct Inbound {
    pub state: CipherState,
    /// How many bytes of an unfinished packet have not arrived.
    pub pending: nat,
    /// What has arrived of an unfinished packet, without its length prefix.
    pub buffer: Seq<u8>,
    /// How many length prefixes may have gone through the ciphers.
    pub prefixes: nat,
}

/// What becomes of received bytes: the receiving side afterwards and the decrypted contents.
pub type Unpacked = Result<(Inbound, Seq<u8>), Fault>;

impl Inbound {
    /// The ciphers do not run out before `prefixes` does, nothing is kept of a packet unless
    /// one is unfinished, and an unfinished packet has room for what every packet has.
    pub open spec fn wf(self) -> bool {
        &&& self.state.prefixes <= self.prefixes <= u32::MAX
        &&& self.state.payloads + (if self.pending > 0 {
            1int
        } else {
            0int
        }) <= self.state.prefixes
        &&& self.pending == 0 ==> self.buffer.len() == 0
        &&& self.pending > 0 ==> self.buffer.len() + self.pending >= PAYLOAD_OVERHEAD_BYTES
    }
}

/// `contents` in front of what becomes of the bytes behind them.
pub open spec fn preceded(contents: Seq<u8>, rest: Unpacked) -> Unpacked {
    match rest {
        Ok((inbound, more)) => Ok((inbound, contents + more)),
        Err(fault) => Err(fault),
    }
}

/// The receiving side behind a length prefix.
pub open spec fn behind_prefix(inbound: Inbound, prefix: Seq<u8>) -> Inbound {
    Inbound {
        state: after_length(inbound.state, prefix),
        prefixes: inbound.prefixes + 1,
        ..inbound
    }
}

/// What becomes of bytes that start with a length prefix. Each packet that is there in full
/// is decrypted. What is there of the last one is kept.
pub open spec fn unpack_packets(inbound: Inbound, data: Seq<u8>) -> Unpacked
    decreases data.len(),
{
    if data.len() == 0 {
        Ok((inbound, Seq::empty()))
    } else if data.len() < 3 {
        Err(Fault::TruncatedPrefix)
    } else if inbound.prefixes >= u32::MAX {
        Err(Fault::Exhausted)
    } else {
        let end = 3 + decrypted_length(inbound.state, data.take(3)).0;
        let behind = behind_prefix(inbound, data.take(3));
        if end > data.len() {
            Ok(
                (
                    Inbound {
                        pending: (end - data.len()) as nat,
                        buffer: inbound.buffer + data.skip(3),
                        ..behind
                    },
                    Seq::empty(),
                ),
            )
        } else {
            let payload = data.subrange(3, end as int);
            match decrypted_payload(behind.state, payload) {
                Some((contents, _)) => preceded(
                    contents,
                    unpack_packets(
                        Inbound { state: after_payload(behind.state, payload), ..behind },
                        data.skip(end as int),
                    ),
                ),
                None => Err(Fault::Decryption),
            }
        }
    }
}

/// What becomes of received bytes. Those that an unfinished packet lacks come first. Where
/// there are not enough of them to finish it, they are kept, and are also taken for packets
/// of their own.
pub open spec fn unpack_data(inbound: Inbound, data: Seq<u8>) -> Unpacked {
    if inbound.pending == 0 {
        unpack_packets(inbound, data)
    } else if inbound.pending <= data.len() {
        let payload = inbound.buffer + data.take(inbound.pending as int);
        if payload.len() > MAX_CIPHERTEXT_BYTES {
            Err(Fault::PayloadLength)
        } else {
            match decrypted_payload(inbound.state, payload) {
                Some((contents, _)) => preceded(
                    contents,
                    unpack_packets(
                        Inbound {
                            state: after_payload(inbound.state, payload),
                            pending: 0,
                            buffer: Seq::empty(),
                            ..inbound
                        },
                        data.skip(inbound.pending as int),
                    ),
                ),
                None => Err(Fault::Decryption),
            }
        }
    } else {
        unpack_packets(Inbound { buffer: inbound.buffer + data, ..inbound }, data)
    }
}

/// The receiving side that a packet handler and what is kept beside it stand for.
pub open spec fn inbound_of(
    handler: bip324::PacketHandler,
    pending_bytes: usize,
    message_buffer: Seq<u8>,
    prefixes_read: u32,
) -> Inbound {
    Inbound {
        state: receiving(handler),
        pending: pending_bytes as nat,
        buffer: message_buffer,
        prefixes: prefixes_read as nat,
    }
}

/// Decrypts every packet that `message` finishes and keeps what there is of the next one.
pub(crate) fn unpack(
    handler: &mut bip324::PacketHandler,
    pending_bytes: &mut usize,
    message_buffer: &mut Vec<u8>,
    prefixes_read: &mut u32,
    message: &[u8],
) -> (result: Result<Vec<u8>, Fault>)
    requires
        inbound_of(*old(handler), *old(pending_bytes), old(message_buffer)@, *old(prefixes_read)).wf(),
        message@.len() <= READ_BUFFER_SIZE,
    ensures
        sending(*final(handler)) == sending(*old(handler)),
        inbound_of(
            *final(handler),
            *final(pending_bytes),
            final(message_buffer)@,
            *final(prefixes_read),
        ).wf(),
        match unpack_data(
            inbound_of(*old(handler), *old(pending_bytes), old(message_buffer)@, *old(prefixes_read)),
            message@,
        ) {
            Ok((inbound, contents)) => {
                &&& result matches Ok(bytes) && bytes@ == contents
                &&& inbound == inbound_of(
                    *final(handler),
                    *final(pending_bytes),
                    final(message_buffer)@,
                    *final(prefixes_read),
                )
            },
            Err(fault) => result == Err::<Vec<u8>, Fault>(fault),
        },
{
    let ghost before = inbound_of(*handler, *pending_bytes, message_buffer@, *prefixes_read);
    let count: usize = message.len();
    let mut contents: Vec<u8> = Vec::new();
    let mut index: usize = 0;
    if *pending_bytes > 0 {
        if *pending_bytes <= count {
            message_buffer.extend_from_slice(slice_subrange(message, 0, *pending_bytes));
            assert(message_buffer@ == before.buffer + message@.take(before.pending as int));
            if message_buffer.len() as u64 > MAX_CIPHERTEXT_BYTES {
                return Err(Fault::PayloadLength);
            }
            match decrypt_payload(handler, message_buffer.as_slice()) {
                Ok(bytes) => {
                    contents = bytes;
                },
                Err(_) => {
                    return Err(Fault::Decryption);
                },
            }
            message_buffer.clear();
            index = *pending_bytes;
            *pending_bytes = 0;
        } else {
            message_buffer.extend_from_slice(message);
            assert(message_buffer@ == before.buffer + message@);
        }
    }
    let ghost start = inbound_of(*handler, *pending_bytes, message_buffer@, *prefixes_read);
    let ghost rest = message@.skip(index as int);
    assert(unpack_data(before, message@) == preceded(contents@, unpack_packets(start, rest))) by {
        if before.pending == 0 || before.pending > count {
            assert(rest == message@);
        }
        match unpack_packets(start, rest) {
            Ok((_, more)) => {
                assert(Seq::<u8>::empty() + more == more);
            },
            Err(_) => {},
        }
    }
    while index < count
        invariant_except_break
            unpack_data(before, message@) == preceded(
                contents@,
                unpack_packets(
                    inbound_of(*handler, *pending_bytes, message_buffer@, *prefixes_read),
                    message@.skip(index as int),
                ),
            ),
        invariant
            before == inbound_of(
                *old(handler),
                *old(pending_bytes),
                old(message_buffer)@,
                *old(prefixes_read),
            ),
            count == message@.len(),
            count <= READ_BUFFER_SIZE,
            index <= count,
            sending(*handler) == sending(*old(handler)),
            inbound_of(*handler, *pending_bytes, message_buffer@, *prefixes_read).wf(),
        ensures
            sending(*handler) == sending(*old(handler)),
            inbound_of(*handler, *pending_bytes, message_buffer@, *prefixes_read).wf(),
            unpack_data(before, message@) == Ok::<(Inbound, Seq<u8>), Fault>(
                (inbound_of(*handler, *pending_bytes, message_buffer@, *prefixes_read), contents@),
            ),
        decreases count - index,
    {
        let ghost here = inbound_of(*handler, *pending_bytes, message_buffer@, *prefixes_read);
        let ghost data = message@.skip(index as int);
        if count - index < DEFAULT_SIZE_BYTES_V2 {
            return Err(Fault::TruncatedPrefix);
        }
        if *prefixes_read == u32::MAX {
            return Err(Fault::Exhausted);
        }
        let prefix: [u8; 3] = [message[index], message[index + 1], message[index + 2]];
        assert(prefix@ == data.take(3));
        let length: usize = decrypt_length(handler, prefix);
        *prefixes_read = *prefixes_read + 1;
        index = index + DEFAULT_SIZE_BYTES_V2;
        let finish: usize = index + length;
        assert(message@.skip(index as int) == data.skip(3));
        if finish > count {
            *pending_bytes = finish - count;
            message_buffer.extend_from_slice(slice_subrange(message, index, count));
            assert(message_buffer@ == here.buffer + data.skip(3));
            assert(contents@ + Seq::<u8>::empty() == contents@);
            break;
        }
        let payload = slice_subrange(message, index, finish);
        assert(payload@ == data.subrange(3, 3 + length as int));
        match decrypt_payload(handler, payload) {
            Ok(bytes) => {
                let ghost sofar = contents@;
                contents.extend_from_slice(bytes.as_slice());
                proof {
                    assert(message@.skip(finish as int) == data.skip(3 + length as int));
                    assert(contents@ == sofar + bytes@);
                    match unpack_packets(
                        inbound_of(*handler, *pending_bytes, message_buffer@, *prefixes_read),
                        message@.skip(finish as int),
                    ) {
                        Ok((_, more)) => {
                            assert(sofar + (bytes@ + more) == contents@ + more);
                        },
                        Err(_) => {},
                    }
                }
            },
            Err(_) => {
                return Err(Fault::Decryption);
            },
        }
        index = finish;
    }
    Ok(contents)
}

} // verus!
