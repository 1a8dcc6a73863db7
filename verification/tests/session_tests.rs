//! End-to-end exercises of the session layer: handshake, round trips,
//! chunked delivery, tampering, reordering.
use crypto_stream::session::{CryptoError, CryptoStream, CryptoStruct};
use crypto_stream::sink::VecSink;

fn handshake_pair() -> (CryptoStruct, CryptoStruct) {
    let mut out_a = VecSink::new();
    let mut out_b = VecSink::new();
    let mut a = CryptoStruct::new(&mut out_a);
    let mut b = CryptoStruct::new(&mut out_b);
    assert_eq!(out_a.items.len(), 1);
    assert_eq!(out_b.items.len(), 1);
    assert_eq!(out_a.items[0].len(), 32);
    let mut quiet = VecSink::new();
    a.decrypt(&out_b.items[0], &mut quiet).unwrap();
    b.decrypt(&out_a.items[0], &mut quiet).unwrap();
    assert!(quiet.items.is_empty());
    assert!(a.handshake_done() && b.handshake_done());
    (a, b)
}

fn send(from: &mut CryptoStruct, msg: &[u8]) -> Vec<u8> {
    let mut out = VecSink::new();
    from.encrypt(&msg.to_vec(), &mut out);
    assert_eq!(out.items.len(), 1);
    out.items.remove(0)
}

#[test]
fn handshake_emits_32_byte_public_key() {
    let mut out = VecSink::new();
    let s = CryptoStruct::new(&mut out);
    assert!(!s.handshake_done());
    assert_eq!(out.items.len(), 1);
    assert_eq!(out.items[0].len(), 32);
}

#[test]
fn round_trip_single_message() {
    let (mut a, mut b) = handshake_pair();
    let wire = send(&mut a, b"hello, peer");
    assert_eq!(wire.len(), 2 + 11 + 16);
    let mut delivered = VecSink::new();
    b.decrypt(&wire, &mut delivered).unwrap();
    assert_eq!(delivered.items, vec![b"hello, peer".to_vec()]);
}

#[test]
fn round_trip_empty_message() {
    let (mut a, mut b) = handshake_pair();
    let wire = send(&mut a, b"");
    assert_eq!(wire.len(), 18);
    let mut delivered = VecSink::new();
    b.decrypt(&wire, &mut delivered).unwrap();
    assert_eq!(delivered.items, vec![Vec::<u8>::new()]);
}

#[test]
fn round_trip_both_directions() {
    let (mut a, mut b) = handshake_pair();
    let wire = send(&mut a, b"lol, wtf");
    let mut delivered = VecSink::new();
    b.decrypt(&wire, &mut delivered).unwrap();
    assert_eq!(delivered.items, vec![b"lol, wtf".to_vec()]);
    let wire_back = send(&mut b, b"lol, wtf");
    let mut delivered_back = VecSink::new();
    a.decrypt(&wire_back, &mut delivered_back).unwrap();
    assert_eq!(delivered_back.items, vec![b"lol, wtf".to_vec()]);
}

#[test]
fn three_messages_one_read() {
    let (mut a, mut b) = handshake_pair();
    let mut stream = Vec::new();
    stream.extend(send(&mut a, b"lol, monkey1"));
    stream.extend(send(&mut a, b"lol, monkey2"));
    stream.extend(send(&mut a, b"lol, monkey3"));
    let mut delivered = VecSink::new();
    b.decrypt(&stream, &mut delivered).unwrap();
    assert_eq!(
        delivered.items,
        vec![
            b"lol, monkey1".to_vec(),
            b"lol, monkey2".to_vec(),
            b"lol, monkey3".to_vec(),
        ]
    );
}

#[test]
fn byte_by_byte_matches_one_call() {
    let (mut a, mut b1) = handshake_pair();
    let mut stream = Vec::new();
    stream.extend(send(&mut a, b"first"));
    stream.extend(send(&mut a, b"second message, a bit longer"));
    stream.extend(send(&mut a, b"third"));

    // A second receiver with the same keys is not available, so compare one
    // session fed whole against the same session's expected output computed
    // up front: feed a fresh pair the same plaintexts byte by byte.
    let mut whole = VecSink::new();
    b1.decrypt(&stream, &mut whole).unwrap();

    let (mut a2, mut b2) = handshake_pair();
    let mut stream2 = Vec::new();
    stream2.extend(send(&mut a2, b"first"));
    stream2.extend(send(&mut a2, b"second message, a bit longer"));
    stream2.extend(send(&mut a2, b"third"));
    let mut dribbled = VecSink::new();
    for byte in &stream2 {
        b2.decrypt(&vec![*byte], &mut dribbled).unwrap();
    }
    assert_eq!(whole.items, dribbled.items);
    assert_eq!(
        dribbled.items,
        vec![
            b"first".to_vec(),
            b"second message, a bit longer".to_vec(),
            b"third".to_vec(),
        ]
    );
}

#[test]
fn tampering_any_bit_fails_and_delivers_nothing() {
    let probe = send(&mut handshake_pair().0, b"hey!");
    // Flip every bit of the ciphertext and the tag (bytes past the 2-byte
    // length prefix), each against a fresh session pair.
    for byte_ix in 2..probe.len() {
        for bit in 0..8 {
            let (mut a, mut b) = handshake_pair();
            let mut wire = send(&mut a, b"hey!");
            wire[byte_ix] ^= 1 << bit;
            let mut delivered = VecSink::new();
            let r = b.decrypt(&wire, &mut delivered);
            assert_eq!(r, Err(CryptoError::AuthenticationFailure));
            assert!(delivered.items.is_empty());
        }
    }
}

#[test]
fn out_of_order_packets_fail_authentication() {
    let (mut a, mut b) = handshake_pair();
    let pkt_one = send(&mut a, b"packet one");
    let pkt_two = send(&mut a, b"packet two");
    let pkt_three = send(&mut a, b"packet three");
    let mut delivered = VecSink::new();
    b.decrypt(&pkt_one, &mut delivered).unwrap();
    let r = b.decrypt(&pkt_three, &mut delivered);
    assert_eq!(r, Err(CryptoError::AuthenticationFailure));
    let _ = pkt_two;
    assert_eq!(delivered.items, vec![b"packet one".to_vec()]);
}

#[test]
fn session_stays_failed_closed_after_bad_packet() {
    let (mut a, mut b) = handshake_pair();
    let mut wire = send(&mut a, b"good things");
    let n = wire.len();
    wire[n - 1] ^= 0x80;
    let mut delivered = VecSink::new();
    assert_eq!(
        b.decrypt(&wire, &mut delivered),
        Err(CryptoError::AuthenticationFailure)
    );
    assert!(delivered.items.is_empty());
    // The bad packet stays buffered in front of everything later, so the
    // session keeps failing closed: even a subsequent genuine packet
    // delivers nothing.
    let later = send(&mut a, b"never seen");
    assert!(b.decrypt(&later, &mut delivered).is_err());
    assert!(delivered.items.is_empty());
}

#[test]
fn handshake_determinism_with_fixed_keys() {
    let sa: Vec<u8> = (0..32).map(|i| i as u8 + 1).collect();
    let sb: Vec<u8> = (0..32).map(|i| 101 - i as u8).collect();

    let build = |sa: &Vec<u8>, sb: &Vec<u8>| {
        let mut out_a = VecSink::new();
        let mut out_b = VecSink::new();
        let mut a = CryptoStruct::with_secret(sa.clone(), &mut out_a);
        let mut b = CryptoStruct::with_secret(sb.clone(), &mut out_b);
        let mut quiet = VecSink::new();
        a.decrypt(&out_b.items[0], &mut quiet).unwrap();
        b.decrypt(&out_a.items[0], &mut quiet).unwrap();
        (a, b)
    };

    // Two independently built pairs with the same secrets produce the same
    // wire bytes: the whole derivation is deterministic.
    let (mut a1, mut b1) = build(&sa, &sb);
    let (mut a2, _b2) = build(&sa, &sb);
    let w1 = send(&mut a1, b"determinism");
    let w2 = send(&mut a2, b"determinism");
    assert_eq!(w1, w2);

    // And A's send direction matches B's receive direction.
    let mut delivered = VecSink::new();
    b1.decrypt(&w1, &mut delivered).unwrap();
    assert_eq!(delivered.items, vec![b"determinism".to_vec()]);
}

#[test]
fn packet_split_across_length_prefix() {
    let (mut a, mut b) = handshake_pair();
    let wire = send(&mut a, b"split me");
    let mut delivered = VecSink::new();
    b.decrypt(&wire[..1].to_vec(), &mut delivered).unwrap();
    assert!(delivered.items.is_empty());
    b.decrypt(&wire[1..3].to_vec(), &mut delivered).unwrap();
    assert!(delivered.items.is_empty());
    b.decrypt(&wire[3..].to_vec(), &mut delivered).unwrap();
    assert_eq!(delivered.items, vec![b"split me".to_vec()]);
}

#[test]
fn largest_payload_round_trips() {
    let (mut a, mut b) = handshake_pair();
    let big: Vec<u8> = (0..0xFFFFusize).map(|i| (i * 7) as u8).collect();
    let wire = send(&mut a, &big);
    assert_eq!(wire.len(), 2 + 0xFFFF + 16);
    let mut delivered = VecSink::new();
    b.decrypt(&wire, &mut delivered).unwrap();
    assert_eq!(delivered.items.len(), 1);
    assert_eq!(delivered.items[0], big);
}

#[test]
fn two_seals_never_repeat_ciphertext() {
    // The nonce advances after every seal, so sealing the same plaintext
    // twice yields different bytes on the wire.
    let (mut a, mut b) = handshake_pair();
    let w1 = send(&mut a, b"same plaintext");
    let w2 = send(&mut a, b"same plaintext");
    assert_ne!(w1, w2);
    let mut delivered = VecSink::new();
    b.decrypt(&w1, &mut delivered).unwrap();
    b.decrypt(&w2, &mut delivered).unwrap();
    assert_eq!(
        delivered.items,
        vec![b"same plaintext".to_vec(), b"same plaintext".to_vec()]
    );
}
