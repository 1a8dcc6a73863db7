//! Unit exercises of the components under the session: the directional
//! cipher state, the little-endian encoders, and the line-transport framing.
use crypto_stream::box_state::BoxState;
use crypto_stream::framed::{Frame, Parser, Serializer, FRAME_SIZE};
use crypto_stream::wire::{u16_from_le, u16_le, u64_le};

#[test]
fn u16_le_exact_bytes() {
    assert_eq!(u16_le(0x1234), vec![0x34, 0x12]);
    assert_eq!(u16_le(0), vec![0, 0]);
    assert_eq!(u16_le(0xFFFF), vec![0xFF, 0xFF]);
    assert_eq!(u16_from_le(0x34, 0x12), 0x1234);
}

#[test]
fn u64_le_exact_bytes() {
    assert_eq!(
        u64_le(0x0102030405060708),
        vec![0x08, 0x07, 0x06, 0x05, 0x04, 0x03, 0x02, 0x01]
    );
    assert_eq!(u64_le(0), vec![0; 8]);
    assert_eq!(u64_le(u64::MAX), vec![0xFF; 8]);
}

#[test]
fn seal_then_open_round_trips() {
    let seed: Vec<u8> = (0..16).collect();
    let mut sealer = BoxState::new(&seed);
    let mut opener = BoxState::new(&seed);
    let sealed = sealer.encrypt(&b"payload".to_vec());
    assert_eq!(sealed.len(), 7 + 16);
    let ct = sealed[..7].to_vec();
    let tag = sealed[7..].to_vec();
    // The ciphertext is not the plaintext: the cipher really ran.
    assert_ne!(ct, b"payload".to_vec());
    assert_eq!(opener.decrypt(&ct, &tag), Some(b"payload".to_vec()));
}

#[test]
fn failed_open_leaves_state_retriable() {
    let seed: Vec<u8> = (16..32).collect();
    let mut sealer = BoxState::new(&seed);
    let mut opener = BoxState::new(&seed);
    let sealed = sealer.encrypt(&b"good things".to_vec());
    let split = sealed.len() - 16;
    let ct = sealed[..split].to_vec();
    let tag = sealed[split..].to_vec();
    let mut bad_tag = tag.clone();
    bad_tag[0] ^= 1;
    assert_eq!(opener.decrypt(&ct, &bad_tag), None);
    // The failed verification advanced nothing: the genuine packet still
    // opens afterwards.
    assert_eq!(opener.decrypt(&ct, &tag), Some(b"good things".to_vec()));
}

#[test]
fn sequence_counters_must_stay_in_lockstep() {
    let seed: Vec<u8> = (32..48).collect();
    let mut sealer = BoxState::new(&seed);
    let mut opener = BoxState::new(&seed);
    let s1 = sealer.encrypt(&b"one".to_vec());
    let s2 = sealer.encrypt(&b"two".to_vec());
    // Opening the second packet first fails: its tag binds sequence 1, the
    // opener expects 0.
    let ct2 = s2[..3].to_vec();
    let tag2 = s2[3..].to_vec();
    assert_eq!(opener.decrypt(&ct2, &tag2), None);
    let ct1 = s1[..3].to_vec();
    let tag1 = s1[3..].to_vec();
    assert_eq!(opener.decrypt(&ct1, &tag1), Some(b"one".to_vec()));
    assert_eq!(opener.decrypt(&ct2, &tag2), Some(b"two".to_vec()));
}

#[test]
fn parser_needs_a_full_frame() {
    let mut parser = Parser;
    let mut buf: Vec<u8> = vec![7; FRAME_SIZE - 1];
    assert_eq!(parser.parse(&mut buf), None);
    assert_eq!(buf.len(), FRAME_SIZE - 1);
}

#[test]
fn parser_cuts_frames_in_order() {
    let mut parser = Parser;
    let mut buf: Vec<u8> = (0..150).map(|i| i as u8).collect();
    let first = parser.parse(&mut buf);
    let expected: Vec<u8> = (0..FRAME_SIZE).map(|i| i as u8).collect();
    assert_eq!(first, Some(Frame::Message(expected)));
    assert_eq!(buf.len(), 50);
    assert_eq!(parser.parse(&mut buf), None);
}

#[test]
fn serializer_appends_message_bytes() {
    let mut serializer = Serializer;
    let mut buf: Vec<u8> = vec![1, 2];
    serializer.serialize(Frame::Message(vec![3, 4, 5]), &mut buf);
    assert_eq!(buf, vec![1, 2, 3, 4, 5]);
    serializer.serialize(Frame::Done, &mut buf);
    assert_eq!(buf, vec![1, 2, 3, 4, 5]);
}
