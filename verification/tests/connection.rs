use nakamoto_net_poll::framing::{Fault, READ_BUFFER_SIZE};
use nakamoto_net_poll::reactor::Bip324Info;
use nakamoto_net_poll::session::{start_handshake, with_own_key, Received};
use nakamoto_net_poll::time::LocalTime;
use nakamoto_net_poll::transport::Role;

/// A connection on which our key has gone out, with that key.
fn dialed() -> (Bip324Info, Vec<u8>) {
    let (handshake, key) = start_handshake(Role::Initiator).expect("a key");
    let mut info = Bip324Info::default();
    let sent = info.begin(handshake, key);
    (info, sent)
}

fn answer(info: &mut Bip324Info, data: &[u8]) -> (Option<Vec<u8>>, Vec<u8>) {
    match info.receive(data) {
        Ok(Received::Answer { key, terminator }) => (key, terminator),
        _ => panic!("no answer"),
    }
}

fn messages(info: &mut Bip324Info, data: &[u8]) -> Vec<u8> {
    match info.receive(data) {
        Ok(Received::Messages(messages)) => messages,
        _ => panic!("no messages"),
    }
}

fn fault(info: &mut Bip324Info, data: &[u8]) -> Fault {
    match info.receive(data) {
        Err(fault) => fault,
        Ok(_) => panic!("no fault"),
    }
}

/// Two ends of an encrypted connection.
fn channel() -> (Bip324Info, Bip324Info) {
    let (mut initiator, key) = dialed();
    let mut responder = Bip324Info::default();
    let (their_key, their_terminator) = answer(&mut responder, &key);
    let (none, terminator) = answer(&mut initiator, &their_key.expect("a key"));
    assert!(none.is_none());
    assert!(matches!(initiator.receive(&their_terminator), Ok(Received::Nothing)));
    assert!(matches!(responder.receive(&terminator), Ok(Received::Nothing)));
    (initiator, responder)
}

#[test]
fn a_new_connection_is_not_ready() {
    assert!(!Bip324Info::default().is_ready());
}

#[test]
fn a_connection_lapses_after_five_seconds() {
    let at = |millis| LocalTime { millis };
    let mut info = Bip324Info::default();
    assert!(!info.has_lapsed(at(1_000_000)));
    info.begin_at(at(1_000));
    assert!(!info.has_lapsed(at(0)));
    assert!(!info.has_lapsed(at(1_000)));
    assert!(!info.has_lapsed(at(6_000)));
    assert!(info.has_lapsed(at(6_001)));
    info.begin_at(at(u128::MAX));
    assert!(!info.has_lapsed(at(u128::MAX)));

    let (mut ready, _) = channel();
    ready.begin_at(at(0));
    assert!(!ready.has_lapsed(at(1_000_000)));
}

#[test]
fn keys_and_terminators_are_exchanged() {
    let (mut initiator, key) = dialed();
    assert_eq!(key.len(), 64);
    assert!(key.iter().any(|byte| *byte != 0));

    let mut responder = Bip324Info::default();
    let (their_key, their_terminator) = answer(&mut responder, &key);
    let their_key = their_key.expect("a key");
    assert_eq!(their_key.len(), 64);
    assert_ne!(their_key, key);
    assert_eq!(their_terminator.len(), 36);
    assert_ne!(their_terminator, vec![0u8; 36]);
    assert!(!responder.is_ready());

    let (none, terminator) = answer(&mut initiator, &their_key);
    assert!(none.is_none());
    assert_eq!(terminator.len(), 36);
    assert_ne!(terminator, their_terminator);
    assert!(!initiator.is_ready());

    assert!(matches!(initiator.receive(&their_terminator), Ok(Received::Nothing)));
    assert!(initiator.is_ready());
    assert!(matches!(responder.receive(&terminator), Ok(Received::Nothing)));
    assert!(responder.is_ready());
}

#[test]
fn there_is_a_handshake_exactly_where_one_could_be_made() {
    let mut key = vec![0u8; 64];
    let made =
        bip324::Handshake::new(bip324::Network::Regtest, bip324::Role::Initiator, None, &mut key);
    let (handshake, own_key) = with_own_key(made, key.clone()).expect("a handshake");
    assert_eq!(own_key, key);

    let mut info = Bip324Info::default();
    assert_eq!(info.begin(handshake, own_key), key);
    let (their_key, _) = answer(&mut Bip324Info::default(), &key);
    assert_eq!(answer(&mut info, &their_key.expect("a key")).1.len(), 36);

    assert!(with_own_key(Err(bip324::Error::TooMuchGarbage), key).is_none());
}

#[test]
fn handshakes_start_with_different_keys() {
    let (_, one) = dialed();
    let (_, other) = dialed();
    assert_ne!(one, other);
}

#[test]
fn messages_cross_in_both_directions() {
    let (mut one, mut other) = channel();
    let packet = one.write(b"hello").unwrap();
    assert_eq!(packet.len(), 25);
    assert!(!packet.windows(5).any(|window| window == b"hello"));
    assert_eq!(messages(&mut other, &packet), b"hello".to_vec());

    let packet = other.write(b"world!").unwrap();
    assert_eq!(packet.len(), 26);
    assert_eq!(messages(&mut one, &packet), b"world!".to_vec());
}

#[test]
fn an_empty_message_is_a_packet_of_its_own() {
    let (mut one, mut other) = channel();
    let packet = one.write(b"").unwrap();
    assert_eq!(packet.len(), 20);
    assert_eq!(messages(&mut other, &packet), Vec::<u8>::new());
    assert!(other.is_ready());
}

#[test]
fn the_same_message_is_never_encrypted_alike() {
    let (mut one, mut other) = channel();
    let first = one.write(b"ping").unwrap();
    let second = one.write(b"ping").unwrap();
    assert_ne!(first, second);
    assert_eq!(messages(&mut other, &first), b"ping".to_vec());
    assert_eq!(messages(&mut other, &second), b"ping".to_vec());
}

#[test]
fn packets_of_one_read_arrive_in_order() {
    let (mut one, mut other) = channel();
    let mut data = one.write(b"first ").unwrap();
    data.extend(one.write(b"second ").unwrap());
    data.extend(one.write(b"third").unwrap());
    assert_eq!(messages(&mut other, &data), b"first second third".to_vec());
}

#[test]
fn a_read_may_end_in_a_payload() {
    let (mut one, mut other) = channel();
    let mut data = one.write(b"whole").unwrap();
    data.extend(one.write(b"cut in two").unwrap());
    data.extend(one.write(b"!").unwrap());
    // Twenty-five bytes are the first packet; the read ends seven bytes into the second one.
    assert_eq!(messages(&mut other, &data[..32]), b"whole".to_vec());
    assert_eq!(messages(&mut other, &data[32..]), b"cut in two!".to_vec());
}

#[test]
fn every_cut_outside_a_prefix_leads_to_the_same_messages() {
    for cut in 3..45 {
        let (mut one, mut other) = channel();
        let mut data = one.write(b"to be ").unwrap();
        let first = data.len();
        data.extend(one.write(b"cut").unwrap());
        if cut == first + 1 || cut == first + 2 {
            continue;
        }
        let mut contents = messages(&mut other, &data[..cut]);
        contents.extend(messages(&mut other, &data[cut..]));
        assert_eq!(contents, b"to be cut".to_vec());
    }
}

#[test]
fn a_read_may_end_behind_a_prefix() {
    let (mut one, mut other) = channel();
    let packet = one.write(b"later").unwrap();
    assert_eq!(messages(&mut other, &packet[..3]), Vec::<u8>::new());
    assert_eq!(messages(&mut other, &packet[3..]), b"later".to_vec());
}

#[test]
fn messages_may_be_longer_than_a_read() {
    let (mut one, mut other) = channel();
    let message = vec![7u8; READ_BUFFER_SIZE + 5000];
    let packet = one.write(&message).unwrap();
    assert_eq!(packet.len(), READ_BUFFER_SIZE + 5020);
    assert_eq!(messages(&mut other, &packet[..READ_BUFFER_SIZE]), Vec::<u8>::new());
    assert_eq!(messages(&mut other, &packet[READ_BUFFER_SIZE..]), message);
}

#[test]
fn the_ciphers_of_both_sides_change_keys_together() {
    let (mut one, mut other) = channel();
    for i in 0..500u32 {
        let message = i.to_le_bytes();
        let packet = one.write(&message).unwrap();
        assert_eq!(messages(&mut other, &packet), message.to_vec());
    }
    let packet = other.write(b"still here").unwrap();
    assert_eq!(messages(&mut one, &packet), b"still here".to_vec());
}

#[test]
fn reading_does_not_disturb_writing() {
    let (mut one, mut other) = channel();
    let before = one.write(b"a").unwrap();
    let packet = other.write(b"b").unwrap();
    assert_eq!(messages(&mut one, &packet), b"b".to_vec());
    let after = one.write(b"c").unwrap();
    assert_eq!(messages(&mut other, &before), b"a".to_vec());
    assert_eq!(messages(&mut other, &after), b"c".to_vec());
    assert!(one.is_ready() && other.is_ready());
}

#[test]
fn a_read_that_ends_in_a_prefix_is_a_fault() {
    let (mut one, mut other) = channel();
    let packet = one.write(b"late").unwrap();
    assert_eq!(fault(&mut other, &packet[..2]), Fault::TruncatedPrefix);
}

#[test]
fn a_read_that_does_not_finish_a_packet_is_also_taken_for_packets() {
    let (mut one, mut other) = channel();
    let packet = one.write(b"a message").unwrap();
    assert_eq!(messages(&mut other, &packet[..10]), Vec::<u8>::new());
    assert_eq!(fault(&mut other, &packet[10..12]), Fault::TruncatedPrefix);
}

#[test]
fn a_packet_that_was_changed_is_a_fault() {
    let (mut one, mut other) = channel();
    let mut packet = one.write(b"payment").unwrap();
    packet[10] ^= 1;
    assert_eq!(fault(&mut other, &packet), Fault::Decryption);
}

#[test]
fn a_packet_that_was_changed_and_cut_is_a_fault() {
    let (mut one, mut other) = channel();
    let mut packet = one.write(b"payment").unwrap();
    packet[20] ^= 1;
    assert_eq!(messages(&mut other, &packet[..15]), Vec::<u8>::new());
    assert_eq!(fault(&mut other, &packet[15..]), Fault::Decryption);
}

#[test]
fn a_key_of_another_length_is_a_fault() {
    assert_eq!(fault(&mut Bip324Info::default(), &[1u8; 63]), Fault::KeyLength);
    let (mut initiator, _) = dialed();
    assert_eq!(fault(&mut initiator, &[1u8; 65]), Fault::KeyLength);
}

#[test]
fn an_unencrypted_peer_is_a_fault() {
    let mut version = [0u8; 64];
    version[..4].copy_from_slice(&[0xFA, 0xBF, 0xB5, 0xDA]);
    assert_eq!(fault(&mut Bip324Info::default(), &version), Fault::UnencryptedPeer);

    // The magic bytes of another network are a key like any other.
    version[..4].copy_from_slice(&[0xF9, 0xBE, 0xB4, 0xD9]);
    let (key, terminator) = answer(&mut Bip324Info::default(), &version);
    assert_eq!(key.expect("a key").len(), 64);
    assert_eq!(terminator.len(), 36);
}

#[test]
fn a_peer_that_is_not_authenticated_is_talked_to_in_the_clear() {
    let (mut initiator, key) = dialed();
    let mut responder = Bip324Info::default();
    let (their_key, mut their_terminator) = answer(&mut responder, &key);
    answer(&mut initiator, &their_key.expect("a key"));
    their_terminator[35] ^= 1;
    assert!(matches!(initiator.receive(&their_terminator), Ok(Received::Nothing)));
    assert!(initiator.is_ready());
    assert_eq!(initiator.write(b"plain").unwrap(), b"plain".to_vec());
    assert_eq!(messages(&mut initiator, b"text"), b"text".to_vec());
}

#[test]
fn a_peer_is_answered_with_zeroes_where_there_is_no_handshake() {
    let mut info = Bip324Info::default();
    let (key, terminator) = info.receive_key(&[9u8; 64], None).unwrap();
    assert!(key.is_none());
    assert_eq!(terminator, vec![0u8; 36]);
    info.receive_terminator(&[1u8; 36]);
    assert!(!info.is_ready());
    assert_eq!(info.receive_messages(b"clear").unwrap(), b"clear".to_vec());

    assert_eq!(Bip324Info::default().create_and_send_terminator().unwrap(), vec![0u8; 36]);
}

#[test]
fn a_handshake_can_be_taken_up_when_the_key_arrives() {
    let (mut initiator, key) = dialed();
    let mut responder = Bip324Info::default();
    let started = start_handshake(Role::Responder);
    let (their_key, their_terminator) = responder.receive_key(&key, started).unwrap();
    let (_, terminator) = answer(&mut initiator, &their_key.expect("a key"));
    initiator.receive_terminator(&their_terminator);
    responder.receive_terminator(&terminator);
    let packet = initiator.write(b"met").unwrap();
    assert_eq!(responder.receive_messages(&packet).unwrap(), b"met".to_vec());
}

#[test]
fn a_third_party_cannot_read() {
    let (mut one, _) = channel();
    let (_, mut stranger) = channel();
    let packet = one.write(b"secret").unwrap();
    match stranger.receive(&packet) {
        Ok(Received::Messages(contents)) => assert_ne!(contents, b"secret".to_vec()),
        Ok(_) => panic!("not messages"),
        Err(_) => {}
    }
}
