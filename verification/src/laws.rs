//! What holds of connections as a whole.
use vstd::prelude::*;

use crate::framing::{
    behind_prefix, preceded, unpack_data, unpack_packets, Fault, Inbound, Unpacked,
};
use crate::session::{started_handshake, Arrival, Channel, Session};
use crate::transport::{
    after_length, after_payload, after_sealing, decrypted_length, decrypted_payload, fits_prefix,
    magic, opens_to, sealed, CipherState, Network, Role, KEY_BYTES, MAX_CIPHERTEXT_BYTES,
};

verus! {

proof fn lemma_packets_join(
    inbound: Inbound,
    first: Seq<u8>,
    second: Seq<u8>,
    between: Inbound,
    contents: Seq<u8>,
)
    requires
        inbound.pending == 0,
        inbound.buffer.len() == 0,
        unpack_packets(inbound, first) == Ok::<(Inbound, Seq<u8>), Fault>((between, contents)),
        between.pending <= second.len(),
        between.buffer.len() + between.pending <= MAX_CIPHERTEXT_BYTES,
    ensures
        unpack_packets(inbound, first + second) == preceded(contents, unpack_data(between, second)),
    decreases first.len(),
{
    let whole = first + second;
    if first.len() == 0 {
        assert(whole == second);
        lemma_preceded_by_nothing(unpack_data(between, second));
    } else {
        assert(whole.take(3) == first.take(3));
        let end = 3 + decrypted_length(inbound.state, first.take(3)).0 as int;
        let behind = behind_prefix(inbound, first.take(3));
        if end > first.len() {
            assert(between.buffer == first.skip(3));
            let payload = between.buffer + second.take(between.pending as int);
            assert(payload == whole.subrange(3, end));
            assert(second.skip(between.pending as int) == whole.skip(end));
            lemma_preceded_by_nothing(unpack_data(between, second));
            assert(inbound.buffer == Seq::<u8>::empty());
        } else {
            let payload = first.subrange(3, end);
            assert(payload == whole.subrange(3, end));
            assert(first.skip(end) + second == whole.skip(end));
            let next = Inbound { state: after_payload(behind.state, payload), ..behind };
            let (head, _) = decrypted_payload(behind.state, payload)->0;
            let (_, tail) = unpack_packets(next, first.skip(end))->Ok_0;
            lemma_packets_join(next, first.skip(end), second, between, tail);
            lemma_preceded_twice(head, tail, unpack_data(between, second));
        }
    }
}

proof fn lemma_preceded_by_nothing(rest: Unpacked)
    ensures
        preceded(Seq::empty(), rest) == rest,
{
    match rest {
        Ok((_, more)) => {
            assert(Seq::<u8>::empty() + more == more);
        },
        Err(_) => {},
    }
}

proof fn lemma_preceded_twice(first: Seq<u8>, second: Seq<u8>, rest: Unpacked)
    ensures
        preceded(first, preceded(second, rest)) == preceded(first + second, rest),
{
    match rest {
        Ok((_, more)) => {
            assert(first + (second + more) == (first + second) + more);
        },
        Err(_) => {},
    }
}

proof fn lemma_reads_join(
    inbound: Inbound,
    first: Seq<u8>,
    second: Seq<u8>,
    between: Inbound,
    contents: Seq<u8>,
)
    requires
        inbound.pending == 0 ==> inbound.buffer.len() == 0,
        inbound.pending <= first.len(),
        unpack_data(inbound, first) == Ok::<(Inbound, Seq<u8>), Fault>((between, contents)),
        between.pending <= second.len(),
        between.buffer.len() + between.pending <= MAX_CIPHERTEXT_BYTES,
    ensures
        unpack_data(inbound, first + second) == preceded(contents, unpack_data(between, second)),
{
    let whole = first + second;
    if inbound.pending == 0 {
        lemma_packets_join(inbound, first, second, between, contents);
    } else {
        let lacking = inbound.pending as int;
        assert(whole.take(lacking) == first.take(lacking));
        assert(whole.skip(lacking) == first.skip(lacking) + second);
        let payload = inbound.buffer + first.take(lacking);
        let next = Inbound {
            state: after_payload(inbound.state, payload),
            pending: 0,
            buffer: Seq::empty(),
            ..inbound
        };
        let (head, _) = decrypted_payload(inbound.state, payload)->0;
        let (_, tail) = unpack_packets(next, first.skip(lacking))->Ok_0;
        lemma_packets_join(next, first.skip(lacking), second, between, tail);
        lemma_preceded_twice(head, tail, unpack_data(between, second));
    }
}

/// It does not matter where a read ends: two reads lead to the messages, and to the receiving
/// side, that one read of all the bytes leads to. The first read has to finish the packet that
/// it starts in, and the second read the packet that the first one ends in.
pub proof fn law_reads_join(
    inbound: Inbound,
    first: Seq<u8>,
    second: Seq<u8>,
    between: Inbound,
    contents: Seq<u8>,
)
    requires
        inbound.wf(),
        inbound.pending <= first.len(),
        unpack_data(inbound, first) == Ok::<(Inbound, Seq<u8>), Fault>((between, contents)),
        between.pending <= second.len(),
        between.buffer.len() + between.pending <= MAX_CIPHERTEXT_BYTES,
    ensures
        unpack_data(inbound, first + second) == preceded(contents, unpack_data(between, second)),
{
    lemma_reads_join(inbound, first, second, between, contents);
}

/// What becomes of several reads, one after the other.
pub open spec fn unpack_reads(inbound: Inbound, reads: Seq<Seq<u8>>) -> Unpacked
    decreases reads.len(),
{
    if reads.len() == 0 {
        Ok((inbound, Seq::empty()))
    } else {
        match unpack_data(inbound, reads[0]) {
            Ok((next, contents)) => preceded(contents, unpack_reads(next, reads.skip(1))),
            Err(fault) => Err(fault),
        }
    }
}

/// Each read is long enough for the packet that it starts in, leaves whole what it has of a
/// length prefix, and holds nothing that the ciphers refuse.
pub open spec fn cut_well(inbound: Inbound, reads: Seq<Seq<u8>>) -> bool
    decreases reads.len(),
{
    reads.len() > 0 ==> {
        &&& inbound.pending <= reads[0].len()
        &&& unpack_data(inbound, reads[0]) matches Ok((next, _)) && {
            &&& next.buffer.len() + next.pending <= MAX_CIPHERTEXT_BYTES
            &&& cut_well(next, reads.skip(1))
        }
    }
}

proof fn lemma_unpack_tidy(inbound: Inbound, data: Seq<u8>)
    requires
        inbound.pending == 0 ==> inbound.buffer.len() == 0,
    ensures
        unpack_packets(inbound, data) matches Ok((next, _)) ==> next.pending == 0
            ==> next.buffer.len() == 0,
    decreases data.len(),
{
    if data.len() >= 3 && inbound.prefixes < u32::MAX {
        let end = 3 + decrypted_length(inbound.state, data.take(3)).0 as int;
        let behind = behind_prefix(inbound, data.take(3));
        if end <= data.len() {
            let payload = data.subrange(3, end);
            lemma_unpack_tidy(
                Inbound { state: after_payload(behind.state, payload), ..behind },
                data.skip(end),
            );
        }
    }
}

proof fn lemma_reads_join_all(inbound: Inbound, reads: Seq<Seq<u8>>)
    requires
        inbound.pending == 0 ==> inbound.buffer.len() == 0,
        inbound.pending > 0 ==> reads.len() > 0,
        cut_well(inbound, reads),
    ensures
        unpack_reads(inbound, reads) == unpack_data(inbound, joined(reads)),
    decreases reads.len(),
{
    if reads.len() > 0 {
        let first = reads[0];
        let rest = reads.skip(1);
        let (next, contents) = unpack_data(inbound, first)->Ok_0;
        if inbound.pending == 0 {
            lemma_unpack_tidy(inbound, first);
        } else {
            let payload = inbound.buffer + first.take(inbound.pending as int);
            lemma_unpack_tidy(
                Inbound {
                    state: after_payload(inbound.state, payload),
                    pending: 0,
                    buffer: Seq::empty(),
                    ..inbound
                },
                first.skip(inbound.pending as int),
            );
        }
        assert(cut_well(next, rest));
        if rest.len() == 0 {
            assert(joined(rest) == Seq::<u8>::empty());
            assert(first + joined(rest) == first);
            assert(unpack_reads(next, rest) == Ok::<(Inbound, Seq<u8>), Fault>(
                (next, Seq::empty()),
            ));
            assert(contents + Seq::<u8>::empty() == contents);
        } else {
            assert(joined(rest) == rest[0] + joined(rest.skip(1)));
            lemma_reads_join_all(next, rest);
            lemma_reads_join(inbound, first, joined(rest), next, contents);
        }
    }
}

/// However received bytes are cut into reads, the same messages arrive: those of one read of
/// all the bytes. This holds as long as each read finishes the packet that it starts in and
/// none ends in a length prefix.
pub proof fn law_cuts_do_not_matter(inbound: Inbound, reads: Seq<Seq<u8>>)
    requires
        inbound.wf(),
        inbound.pending > 0 ==> reads.len() > 0,
        cut_well(inbound, reads),
    ensures
        unpack_reads(inbound, reads) == unpack_data(inbound, joined(reads)),
{
    lemma_reads_join_all(inbound, reads);
}

/// The end of the first packet of some bytes.
pub open spec fn packet_end(inbound: Inbound, data: Seq<u8>) -> int {
    3 + decrypted_length(inbound.state, data.take(3)).0 as int
}

/// The receiving side behind the first packet of some bytes.
pub open spec fn behind_packet(inbound: Inbound, data: Seq<u8>) -> Inbound {
    let behind = behind_prefix(inbound, data.take(3));
    Inbound {
        state: after_payload(behind.state, data.subrange(3, packet_end(inbound, data))),
        ..behind
    }
}

/// Packets are cut at a place that is not inside a length prefix.
pub open spec fn cut_outside_prefix(inbound: Inbound, data: Seq<u8>, cut: int) -> bool
    decreases data.len(),
{
    if cut <= 0 || data.len() < 3 {
        cut == 0
    } else {
        let end = packet_end(inbound, data);
        &&& 3 <= cut
        &&& end <= cut && end <= data.len() ==> cut_outside_prefix(
            behind_packet(inbound, data),
            data.skip(end),
            cut - end,
        )
    }
}

/// The length of the payload that a cut goes through, or nothing for a cut between packets.
pub open spec fn cut_payload(inbound: Inbound, data: Seq<u8>, cut: int) -> nat
    decreases data.len(),
{
    if cut <= 0 || data.len() < 3 {
        0
    } else {
        let end = packet_end(inbound, data);
        if cut < end || end > data.len() {
            (end - 3) as nat
        } else {
            cut_payload(behind_packet(inbound, data), data.skip(end), cut - end)
        }
    }
}

proof fn lemma_cut_packets(inbound: Inbound, data: Seq<u8>, cut: int)
    requires
        inbound.pending == 0,
        inbound.buffer.len() == 0,
        unpack_packets(inbound, data) matches Ok((last, _)) && last.pending == 0,
        0 <= cut <= data.len(),
        cut_outside_prefix(inbound, data, cut),
    ensures
        unpack_packets(inbound, data.take(cut)) matches Ok((between, _)) && {
            &&& between.pending <= data.len() - cut
            &&& between.buffer.len() + between.pending == cut_payload(inbound, data, cut)
            &&& between.buffer.len() + between.pending <= data.len()
        },
    decreases data.len(),
{
    let head = data.take(cut);
    if cut > 0 {
        let end = packet_end(inbound, data);
        assert(head.take(3) == data.take(3));
        if cut < end {
            assert(inbound.buffer + head.skip(3) == head.skip(3));
        } else {
            let payload = data.subrange(3, end);
            assert(head.subrange(3, end) == payload);
            assert(head.skip(end) == data.skip(end).take(cut - end));
            lemma_cut_packets(behind_packet(inbound, data), data.skip(end), cut - end);
        }
    }
}

/// Whole packets may be cut anywhere but inside a length prefix: the two reads together deliver
/// the messages that one read of all the bytes delivers, and nothing is left over in the end.
/// In between, what is kept of the packet that was cut and what it lacks add up to its payload.
pub proof fn law_any_cut_delivers_the_same(inbound: Inbound, data: Seq<u8>, cut: int)
    requires
        inbound.wf(),
        inbound.pending == 0,
        data.len() <= MAX_CIPHERTEXT_BYTES,
        unpack_data(inbound, data) matches Ok((last, _)) && last.pending == 0,
        0 <= cut <= data.len(),
        cut_outside_prefix(inbound, data, cut),
    ensures
        ({
            &&& unpack_data(inbound, data) matches Ok((last, contents))
            &&& unpack_data(inbound, data.take(cut)) matches Ok((between, first))
            &&& unpack_data(between, data.skip(cut)) matches Ok((end, second))
            &&& first + second == contents
            &&& end == last
            &&& last.buffer.len() == 0
            &&& between.buffer.len() + between.pending == cut_payload(inbound, data, cut)
        }),
{
    lemma_cut_packets(inbound, data, cut);
    lemma_unpack_tidy(inbound, data);
    let (between, first) = unpack_data(inbound, data.take(cut))->Ok_0;
    assert(data.take(cut) + data.skip(cut) == data);
    lemma_reads_join(inbound, data.take(cut), data.skip(cut), between, first);
}

/// The bytes of all parts, one behind the other.
pub open spec fn joined(parts: Seq<Seq<u8>>) -> Seq<u8>
    decreases parts.len(),
{
    if parts.len() == 0 {
        Seq::empty()
    } else {
        parts[0] + joined(parts.skip(1))
    }
}

/// Sending ciphers that were in `states[0]` have encrypted `messages` to `packets`, one by
/// one, and were in `states[i]` before the `i`th.
pub open spec fn encrypted_in_turn(
    states: Seq<CipherState>,
    messages: Seq<Seq<u8>>,
    packets: Seq<Seq<u8>>,
) -> bool {
    &&& states.len() == messages.len() + 1
    &&& packets.len() == messages.len()
    &&& forall|i: int|
        0 <= i < messages.len() ==> opens_to(
            states[i],
            #[trigger] packets[i],
            messages[i],
            states[i + 1],
        )
}

/// A read gives back what was written: a peer whose receiving ciphers are in the state of our
/// sending ciphers reads exactly the messages that we wrote, in the order in which we wrote
/// them, and its ciphers are then in the state of ours.
pub proof fn law_read_gives_back_what_was_written(
    inbound: Inbound,
    states: Seq<CipherState>,
    messages: Seq<Seq<u8>>,
    packets: Seq<Seq<u8>>,
)
    requires
        inbound.wf(),
        inbound.pending == 0,
        encrypted_in_turn(states, messages, packets),
        states[0] == inbound.state,
        inbound.prefixes + packets.len() <= u32::MAX,
    ensures
        unpack_data(inbound, joined(packets)) == Ok::<(Inbound, Seq<u8>), Fault>(
            (
                Inbound {
                    state: states.last(),
                    prefixes: inbound.prefixes + packets.len(),
                    ..inbound
                },
                joined(messages),
            ),
        ),
    decreases packets.len(),
{
    if packets.len() > 0 {
        let packet = packets[0];
        let rest = joined(packets.skip(1));
        let data = packet + rest;
        assert(opens_to(states[0], packets[0], messages[0], states[1]));
        assert(data.take(3) == packet.take(3));
        assert(data.subrange(3, packet.len() as int) == packet.skip(3));
        assert(data.skip(packet.len() as int) == rest);
        let next = Inbound { state: states[1], prefixes: inbound.prefixes + 1, ..inbound };
        assert(after_payload(
            after_length(states[0], packet.take(3)),
            packet.skip(3),
        ) == states[1]);
        assert(encrypted_in_turn(states.skip(1), messages.skip(1), packets.skip(1))) by {
            assert forall|i: int| 0 <= i < messages.skip(1).len() implies opens_to(
                states.skip(1)[i],
                #[trigger] packets.skip(1)[i],
                messages.skip(1)[i],
                states.skip(1)[i + 1],
            ) by {
                assert(packets.skip(1)[i] == packets[i + 1]);
            }
        }
        assert(states.skip(1).last() == states.last());
        law_read_gives_back_what_was_written(
            next,
            states.skip(1),
            messages.skip(1),
            packets.skip(1),
        );
        assert(unpack_packets(inbound, data) == preceded(messages[0], unpack_packets(next, rest)));
    }
}

/// A receiving side whose ciphers were in `state` has read the first `at` bytes of a packet.
pub open spec fn stands_at(
    inbound: Inbound,
    state: CipherState,
    packet: Seq<u8>,
    at: int,
) -> bool {
    if at == 0 {
        inbound.state == state && inbound.pending == 0 && inbound.buffer.len() == 0
    } else {
        &&& 3 <= at < packet.len()
        &&& inbound.state == after_length(state, packet.take(3))
        &&& inbound.pending == packet.len() - at
        &&& inbound.buffer == packet.subrange(3, at)
    }
}

/// The bytes of packets from a place in the first one up to a place in the last one.
pub open spec fn stretch(packets: Seq<Seq<u8>>, from: int, to: int) -> Seq<u8> {
    (joined(packets.drop_last()) + packets.last().take(to)).skip(from)
}

proof fn lemma_stretch_of_rest(packets: Seq<Seq<u8>>, to: int)
    requires
        packets.len() > 1,
    ensures
        joined(packets.drop_last()) + packets.last().take(to) == packets[0] + (joined(
            packets.skip(1).drop_last(),
        ) + packets.skip(1).last().take(to)),
{
    let rest = packets.skip(1);
    assert(packets.drop_last().skip(1) == rest.drop_last());
    assert(packets.drop_last()[0] == packets[0]);
    assert(rest.last() == packets.last());
    let tail = packets.last().take(to);
    assert((packets[0] + joined(rest.drop_last())) + tail == packets[0] + (joined(rest.drop_last())
        + tail));
}

proof fn lemma_turns_of_rest(
    states: Seq<CipherState>,
    messages: Seq<Seq<u8>>,
    packets: Seq<Seq<u8>>,
)
    requires
        encrypted_in_turn(states, messages, packets),
        packets.len() > 0,
    ensures
        encrypted_in_turn(states.skip(1), messages.skip(1), packets.skip(1)),
        opens_to(states[0], packets[0], messages[0], states[1]),
{
    assert forall|i: int| 0 <= i < messages.skip(1).len() implies opens_to(
        states.skip(1)[i],
        #[trigger] packets.skip(1)[i],
        messages.skip(1)[i],
        states.skip(1)[i + 1],
    ) by {
        assert(packets.skip(1)[i] == packets[i + 1]);
    }
    assert(packets[0] == packets[0]);
}

proof fn lemma_read_from_a_boundary(
    inbound: Inbound,
    states: Seq<CipherState>,
    messages: Seq<Seq<u8>>,
    packets: Seq<Seq<u8>>,
    to: int,
)
    requires
        encrypted_in_turn(states, messages, packets),
        packets.len() > 0,
        stands_at(inbound, states[0], packets[0], 0),
        to == 0 || 3 <= to < packets.last().len(),
        inbound.prefixes + packets.len() <= u32::MAX,
    ensures
        unpack_packets(
            inbound,
            joined(packets.drop_last()) + packets.last().take(to),
        ) matches Ok((next, contents)) && {
            &&& contents == joined(messages.drop_last())
            &&& stands_at(next, states[packets.len() - 1], packets.last(), to)
            &&& next.prefixes == inbound.prefixes + packets.len() - (if to == 0 {
                1int
            } else {
                0int
            })
        },
    decreases packets.len(),
{
    let data = joined(packets.drop_last()) + packets.last().take(to);
    lemma_turns_of_rest(states, messages, packets);
    let packet = packets[0];
    if packets.len() == 1 {
        assert(packets.drop_last() == Seq::<Seq<u8>>::empty());
        assert(messages.drop_last() == Seq::<Seq<u8>>::empty());
        assert(data == packet.take(to));
        if to > 0 {
            assert(data.take(3) == packet.take(3));
            assert(inbound.buffer + data.skip(3) == packet.subrange(3, to));
        }
    } else {
        lemma_stretch_of_rest(packets, to);
        let rest = packets.skip(1);
        let behind = joined(rest.drop_last()) + rest.last().take(to);
        assert(data == packet + behind);
        assert(data.take(3) == packet.take(3));
        assert(data.subrange(3, packet.len() as int) == packet.skip(3));
        assert(data.skip(packet.len() as int) == behind);
        let next = Inbound { state: states[1], prefixes: inbound.prefixes + 1, ..inbound };
        lemma_read_from_a_boundary(next, states.skip(1), messages.skip(1), rest, to);
        assert(unpack_packets(inbound, data) == preceded(messages[0], unpack_packets(next, behind)));
        assert(messages.drop_last().skip(1) == messages.skip(1).drop_last());
        assert(messages.drop_last()[0] == messages[0]);
        assert(states.skip(1)[rest.len() - 1] == states[packets.len() - 1]);
        assert(rest.last() == packets.last());
    }
}

/// A read delivers the messages of all the packets that it finishes, and of no others. It may
/// start in a packet, which it has to finish, and end in a packet: in the latter it then stands,
/// so that the next read can go on there. This is so for every length of a read and of packets.
pub proof fn law_a_read_delivers_what_it_finishes(
    inbound: Inbound,
    states: Seq<CipherState>,
    messages: Seq<Seq<u8>>,
    packets: Seq<Seq<u8>>,
    from: int,
    to: int,
)
    requires
        inbound.wf(),
        encrypted_in_turn(states, messages, packets),
        packets.len() > 0,
        packets.len() == 1 ==> from == 0,
        stands_at(inbound, states[0], packets[0], from),
        to == 0 || 3 <= to < packets.last().len(),
        packets[0].len() - 3 <= MAX_CIPHERTEXT_BYTES,
        inbound.prefixes + packets.len() <= u32::MAX,
    ensures
        unpack_data(inbound, stretch(packets, from, to)) matches Ok((next, contents)) && {
            &&& contents == joined(messages.drop_last())
            &&& stands_at(next, states[packets.len() - 1], packets.last(), to)
            &&& next.prefixes == inbound.prefixes + packets.len() - (if to == 0 {
                1int
            } else {
                0int
            }) - (if from == 0 {
                0int
            } else {
                1int
            })
        },
{
    let whole = joined(packets.drop_last()) + packets.last().take(to);
    let data = stretch(packets, from, to);
    if from == 0 {
        assert(data == whole);
        lemma_read_from_a_boundary(inbound, states, messages, packets, to);
    } else {
        lemma_turns_of_rest(states, messages, packets);
        lemma_stretch_of_rest(packets, to);
        let packet = packets[0];
        let rest = packets.skip(1);
        let behind = joined(rest.drop_last()) + rest.last().take(to);
        let lacking = packet.len() - from;
        assert(data.take(lacking) == packet.skip(from));
        assert(data.skip(lacking) == behind);
        assert(inbound.buffer + data.take(lacking) == packet.skip(3));
        let next = Inbound { state: states[1], pending: 0, buffer: Seq::empty(), ..inbound };
        lemma_read_from_a_boundary(next, states.skip(1), messages.skip(1), rest, to);
        assert(unpack_data(inbound, data) == preceded(messages[0], unpack_packets(next, behind)));
        assert(messages.drop_last().skip(1) == messages.skip(1).drop_last());
        assert(messages.drop_last()[0] == messages[0]);
        assert(states.skip(1)[rest.len() - 1] == states[packets.len() - 1]);
        assert(rest.last() == packets.last());
    }
}

proof fn lemma_behind_packets(
    inbound: Inbound,
    states: Seq<CipherState>,
    messages: Seq<Seq<u8>>,
    packets: Seq<Seq<u8>>,
    tail: Seq<u8>,
)
    requires
        inbound.wf(),
        inbound.pending == 0,
        encrypted_in_turn(states, messages, packets),
        states[0] == inbound.state,
        inbound.prefixes + packets.len() <= u32::MAX,
    ensures
        unpack_data(inbound, joined(packets) + tail) == preceded(
            joined(messages),
            unpack_packets(
                Inbound {
                    state: states.last(),
                    prefixes: inbound.prefixes + packets.len(),
                    ..inbound
                },
                tail,
            ),
        ),
{
    law_read_gives_back_what_was_written(inbound, states, messages, packets);
    let between = Inbound {
        state: states.last(),
        prefixes: inbound.prefixes + packets.len(),
        ..inbound
    };
    lemma_packets_join(inbound, joined(packets), tail, between, joined(messages));
}

/// A read is a fault if it ends in a length prefix, if it holds a packet that the ciphers refuse,
/// or if they are used up. It does not matter how many packets come before that.
pub proof fn law_reads_that_are_faults(
    inbound: Inbound,
    states: Seq<CipherState>,
    messages: Seq<Seq<u8>>,
    packets: Seq<Seq<u8>>,
    tail: Seq<u8>,
)
    requires
        inbound.wf(),
        inbound.pending == 0,
        encrypted_in_turn(states, messages, packets),
        states[0] == inbound.state,
        inbound.prefixes + packets.len() <= u32::MAX,
        tail.len() > 0,
    ensures
        ({
            let result = unpack_data(inbound, joined(packets) + tail);
            let length = decrypted_length(states.last(), tail.take(3)).0;
            let behind = after_length(states.last(), tail.take(3));
            &&& tail.len() < 3 ==> result == Err::<(Inbound, Seq<u8>), Fault>(
                Fault::TruncatedPrefix,
            )
            &&& tail.len() >= 3 && inbound.prefixes + packets.len() == u32::MAX ==> result == Err::<
                (Inbound, Seq<u8>),
                Fault,
            >(Fault::Exhausted)
            &&& 3 + length <= tail.len() && inbound.prefixes + packets.len() < u32::MAX
                && decrypted_payload(behind, tail.subrange(3, 3 + length as int)) is None
                ==> result == Err::<(Inbound, Seq<u8>), Fault>(Fault::Decryption)
        }),
{
    lemma_behind_packets(inbound, states, messages, packets, tail);
}

/// Received bytes are taken packet by packet: what comes of them is what comes of the first packet,
/// and then what comes of the rest. A packet that is not there in full is kept as it is, and
/// nothing is delivered of it. This is so whoever made the packets.
pub proof fn law_packets_are_taken_one_by_one(inbound: Inbound, data: Seq<u8>)
    requires
        inbound.wf(),
        inbound.pending == 0,
        data.len() >= 3,
        inbound.prefixes < u32::MAX,
    ensures
        ({
            let end = packet_end(inbound, data);
            let behind = after_length(inbound.state, data.take(3));
            if data.len() < end {
                unpack_data(inbound, data) matches Ok((next, contents)) && {
                    &&& contents.len() == 0
                    &&& next.pending == end - data.len()
                    &&& next.buffer == data.skip(3)
                    &&& next.state == behind
                    &&& next.prefixes == inbound.prefixes + 1
                }
            } else {
                match decrypted_payload(behind, data.subrange(3, end)) {
                    Some((contents, keys)) => {
                        let next = Inbound {
                            state: CipherState { keys, payloads: behind.payloads + 1, ..behind },
                            prefixes: inbound.prefixes + 1,
                            ..inbound
                        };
                        match unpack_data(next, data.skip(end)) {
                            Ok((last, more)) => unpack_data(inbound, data) == Ok::<
                                (Inbound, Seq<u8>),
                                Fault,
                            >((last, contents + more)),
                            Err(fault) => unpack_data(inbound, data) == Err::<
                                (Inbound, Seq<u8>),
                                Fault,
                            >(fault),
                        }
                    },
                    None => unpack_data(inbound, data) == Err::<(Inbound, Seq<u8>), Fault>(
                        Fault::Decryption,
                    ),
                }
            }
        }),
{
    assert(inbound.buffer + data.skip(3) == data.skip(3));
}

/// The bytes that an unfinished packet lacks finish it, and the bytes behind them are taken as if
/// they had come by themselves.
pub proof fn law_packets_are_finished(inbound: Inbound, data: Seq<u8>)
    requires
        inbound.wf(),
        0 < inbound.pending <= data.len(),
        inbound.buffer.len() + inbound.pending <= MAX_CIPHERTEXT_BYTES,
    ensures
        ({
            let lacking = inbound.pending as int;
            match decrypted_payload(inbound.state, inbound.buffer + data.take(lacking)) {
                Some((contents, keys)) => {
                    let next = Inbound {
                        state: CipherState {
                            keys,
                            payloads: inbound.state.payloads + 1,
                            ..inbound.state
                        },
                        pending: 0,
                        buffer: Seq::empty(),
                        ..inbound
                    };
                    match unpack_data(next, data.skip(lacking)) {
                        Ok((last, more)) => unpack_data(inbound, data) == Ok::<
                            (Inbound, Seq<u8>),
                            Fault,
                        >((last, contents + more)),
                        Err(fault) => unpack_data(inbound, data) == Err::<
                            (Inbound, Seq<u8>),
                            Fault,
                        >(fault),
                    }
                },
                None => unpack_data(inbound, data) == Err::<(Inbound, Seq<u8>), Fault>(
                    Fault::Decryption,
                ),
            }
        }),
{
}

/// The bytes that finish a packet are a fault if the ciphers refuse the packet, or if more was
/// collected for it than they can take.
pub proof fn law_packets_that_are_faults(inbound: Inbound, data: Seq<u8>)
    requires
        inbound.wf(),
        0 < inbound.pending <= data.len(),
    ensures
        ({
            let payload = inbound.buffer + data.take(inbound.pending as int);
            &&& payload.len() > 274_877_906_832 ==> unpack_data(inbound, data) == Err::<
                (Inbound, Seq<u8>),
                Fault,
            >(Fault::PayloadLength)
            &&& payload.len() <= 274_877_906_832 && decrypted_payload(inbound.state, payload) is None
                ==> unpack_data(inbound, data) == Err::<(Inbound, Seq<u8>), Fault>(
                Fault::Decryption,
            )
        }),
{
}

proof fn lemma_what_is_kept_does_not_matter(inbound: Inbound, fresh: Inbound, data: Seq<u8>)
    requires
        fresh == (Inbound { pending: 0, buffer: Seq::empty(), ..inbound }),
    ensures
        match unpack_packets(fresh, data) {
            Ok((next, contents)) => unpack_packets(inbound, data) == Ok::<
                (Inbound, Seq<u8>),
                Fault,
            >(
                (
                    Inbound {
                        pending: if next.pending > 0 {
                            next.pending
                        } else {
                            inbound.pending
                        },
                        buffer: inbound.buffer + next.buffer,
                        ..next
                    },
                    contents,
                ),
            ),
            Err(fault) => unpack_packets(inbound, data) == Err::<(Inbound, Seq<u8>), Fault>(fault),
        },
    decreases data.len(),
{
    assert(inbound.buffer + Seq::<u8>::empty() == inbound.buffer);
    if data.len() >= 3 && inbound.prefixes < u32::MAX {
        let end = packet_end(inbound, data);
        if end > data.len() {
            assert(Seq::<u8>::empty() + data.skip(3) == data.skip(3));
        } else {
            lemma_what_is_kept_does_not_matter(
                behind_packet(inbound, data),
                behind_packet(fresh, data),
                data.skip(end),
            );
        }
    }
}

/// A read that does not finish a packet that was started before delivers what it would deliver
/// if none was started, and leaves the same behind; besides, all of it is kept for the packet.
pub proof fn law_short_reads(inbound: Inbound, data: Seq<u8>)
    requires
        inbound.wf(),
        data.len() < inbound.pending,
    ensures
        match unpack_data(Inbound { pending: 0, buffer: Seq::empty(), ..inbound }, data) {
            Ok((next, contents)) => unpack_data(inbound, data) == Ok::<(Inbound, Seq<u8>), Fault>(
                (
                    Inbound {
                        pending: if next.pending > 0 {
                            next.pending
                        } else {
                            inbound.pending
                        },
                        buffer: inbound.buffer + data + next.buffer,
                        ..next
                    },
                    contents,
                ),
            ),
            Err(fault) => unpack_data(inbound, data) == Err::<(Inbound, Seq<u8>), Fault>(fault),
        },
{
    let kept = Inbound { buffer: inbound.buffer + data, ..inbound };
    lemma_what_is_kept_does_not_matter(
        kept,
        Inbound { pending: 0, buffer: Seq::empty(), ..inbound },
        data,
    );
}

/// What the side that opened a connection answers to the key of the other side, and its
/// connection afterwards.
pub open spec fn initiator_answer(initiator_key: Seq<u8>, responder_key: Seq<u8>) -> Result<
    (Session, Seq<u8>),
    Fault,
> {
    Session::new().started(
        started_handshake(Role::Initiator, initiator_key),
        initiator_key,
    ).with_key(responder_key, None).answered()
}

/// What the side that accepted a connection answers to the key of the other side, and its
/// connection afterwards.
pub open spec fn responder_answer(initiator_key: Seq<u8>, responder_key: Seq<u8>) -> Result<
    (Session, Seq<u8>),
    Fault,
> {
    Session::new().with_key(
        initiator_key,
        Some((started_handshake(Role::Responder, responder_key), responder_key)),
    ).answered()
}

/// What one side of a channel sends the other one can read, in both directions.
pub open spec fn fit(one: Channel, other: Channel) -> bool {
    one.sending == other.receiving && other.sending == one.receiving
}

/// Two peers that exchange keys answer each other with what the other one waits for, and
/// the channels that they then have fit.
pub proof fn law_handshakes_meet(initiator_key: Seq<u8>, responder_key: Seq<u8>)
    requires
        initiator_key.len() == KEY_BYTES,
        responder_key.len() == KEY_BYTES,
        initiator_key.take(4) != magic(Network::Regtest),
        responder_key.take(4) != magic(Network::Regtest),
    ensures
        ({
            &&& initiator_answer(initiator_key, responder_key) matches Ok((initiator, sent))
            &&& responder_answer(initiator_key, responder_key) matches Ok((responder, returned))
            &&& initiator.awaits(returned)
            &&& responder.awaits(sent)
            &&& fit(initiator.expected(), responder.expected())
        }),
{
}

/// Two peers that exchange keys and then receive the answers of each other are ready for
/// messages, and have channels that fit.
pub proof fn law_handshakes_open_channels(
    initiator_key: Seq<u8>,
    responder_key: Seq<u8>,
    initiator: (Session, Seq<u8>),
    responder: (Session, Seq<u8>),
    initiator_next: Session,
    responder_next: Session,
)
    requires
        initiator_key.len() == KEY_BYTES,
        responder_key.len() == KEY_BYTES,
        initiator_answer(initiator_key, responder_key) == Ok::<(Session, Seq<u8>), Fault>(
            initiator,
        ),
        responder_answer(initiator_key, responder_key) == Ok::<(Session, Seq<u8>), Fault>(
            responder,
        ),
        initiator.0.receives(responder.1, Ok(Arrival::Nothing), initiator_next),
        responder.0.receives(initiator.1, Ok(Arrival::Nothing), responder_next),
    ensures
        initiator_next.ready(),
        responder_next.ready(),
        initiator_next.channel is Some,
        responder_next.channel is Some,
        fit(initiator_next.channel->0, responder_next.channel->0),
{
    law_handshakes_meet(initiator_key, responder_key);
}

/// A message crosses a channel: a peer whose channel fits reads from what is sent for the
/// message exactly the message, and the channels still fit. The peer must not be in the
/// middle of another packet.
pub proof fn law_messages_cross(writer: Session, reader: Session, message: Seq<u8>)
    requires
        writer.wf(),
        reader.wf(),
        writer.channel is Some,
        reader.channel is Some,
        fit(writer.channel->0, reader.channel->0),
        reader.pending_bytes == 0,
        reader.prefixes_read < u32::MAX,
        writer.packets_written < u32::MAX,
        fits_prefix(message),
        writer.faithful(message),
    ensures
        ({
            &&& writer.written(message) matches Ok((writer_next, sent))
            &&& reader.opened(sent) matches Ok((reader_next, contents))
            &&& contents == message
            &&& reader_next.pending_bytes == 0
            &&& fit(writer_next.channel->0, reader_next.channel->0)
        }),
{
    let state = writer.channel->0.sending;
    let packet = sealed(state, message);
    let states = seq![state, after_sealing(state, message)];
    law_read_gives_back_what_was_written(reader.inbound(), states, seq![message], seq![packet]);
    assert(joined(seq![packet]) == packet) by {
        assert(seq![packet].skip(1) == Seq::<Seq<u8>>::empty());
        assert(joined(Seq::empty()) == Seq::<u8>::empty());
        assert(packet + Seq::<u8>::empty() == packet);
    }
    assert(joined(seq![message]) == message) by {
        assert(seq![message].skip(1) == Seq::<Seq<u8>>::empty());
        assert(joined(Seq::empty()) == Seq::<u8>::empty());
        assert(message + Seq::<u8>::empty() == message);
    }
}

/// Writing changes nothing on the receiving side of a connection, and reading nothing on the
/// sending side: the two directions do not get in each other's way.
pub proof fn law_directions_are_apart(session: Session, message: Seq<u8>, data: Seq<u8>)
    requires
        session.wf(),
        session.channel is Some,
    ensures
        session.written(message) matches Ok((next, _)) ==> next.inbound() == session.inbound(),
        session.opened(data) matches Ok((next, _)) ==> next.channel->0.sending
            == session.channel->0.sending && next.packets_written == session.packets_written,
{
}

/// A connection that has a channel is ready for messages, and it stays ready.
pub proof fn law_ready_stays_ready(session: Session, message: Seq<u8>, data: Seq<u8>)
    requires
        session.wf(),
    ensures
        session.channel is Some ==> session.ready(),
        session.written(message) matches Ok((next, _)) ==> next.ready() == session.ready(),
        session.opened(data) matches Ok((next, _)) ==> next.ready() == session.ready(),
{
}

} // verus!
