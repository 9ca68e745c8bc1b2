use cipher_chat::cipher::xor_cipher;
use cipher_chat::frame::{decode_frame, encode_frame, frame_length, FrameError, MAX_FRAME_LEN};
use cipher_chat::handshake::{
    make_pub_key, make_secret, DhHandshake, DhParams, HandshakeStep, Role, DH_GENERATOR, DH_PRIME,
};
use cipher_chat::keystream::KeystreamGenerator;
use cipher_chat::modexp::{exp_mod, mod_exp};
use cipher_chat::session::ChatSession;
use cipher_chat::wire::{be_to_u64, u32_to_be, u64_to_be};

#[test]
fn zero_exponent_gives_one() {
    for m in [2u64, 3, 23, 1000, DH_PRIME, u64::MAX] {
        for g in [0u64, 1, 2, 5, 12345, u64::MAX] {
            assert_eq!(mod_exp(g, 0, m), 1);
            assert_eq!(exp_mod(g, 0, m), 1);
        }
    }
}

#[test]
fn modulus_one_gives_zero() {
    assert_eq!(mod_exp(7, 0, 1), 0);
    assert_eq!(mod_exp(7, 9, 1), 0);
    assert_eq!(exp_mod(7, 9, 1), 0);
    assert_eq!(exp_mod(7, 0, 1), 0);
}

#[test]
fn two_to_the_ten_mod_thousand() {
    assert_eq!(mod_exp(2, 10, 1000), 24);
    assert_eq!(exp_mod(2, 10, 1000), 24);
}

#[test]
fn large_operands_do_not_overflow() {
    assert_eq!(mod_exp(u64::MAX, u64::MAX, DH_PRIME), 2823308764207266673);
    assert_eq!(exp_mod(u64::MAX, u64::MAX, DH_PRIME), 2823308764207266673);
    assert_eq!(mod_exp(2, 12345, DH_PRIME), 9738017624642813618);
    assert_eq!(mod_exp(3, 200, 1_000_000_007), 136318165);
}

#[test]
fn dh_agreement_toy_values() {
    let (p, g) = (23u64, 5u64);
    let (a, b) = (5u64, 7u64);
    let pa = mod_exp(g, a, p);
    let pb = mod_exp(g, b, p);
    assert_eq!(pa, 20);
    assert_eq!(pb, 17);
    assert_eq!(mod_exp(pb, a, p), 21);
    assert_eq!(mod_exp(pa, b, p), 21);
}

#[test]
fn fixed_parameter_keys_agree() {
    let a = 0x1234_5678_9abc_def0u64;
    let b = 0x0fed_cba9_8765_4321u64;
    let pa = make_pub_key(a);
    let pb = make_pub_key(b);
    assert_eq!(pa, mod_exp(DH_GENERATOR, a, DH_PRIME));
    assert_eq!(make_secret(a, pb), make_secret(b, pa));
    assert_eq!(make_pub_key(0), 1);
    assert_eq!(make_pub_key(1), 2);
}

#[test]
fn keystream_known_bytes() {
    let mut g = KeystreamGenerator::new(0);
    let got: Vec<u8> = (0..8).map(|_| g.next_byte()).collect();
    assert_eq!(got, vec![0, 220, 4, 101, 170, 31, 173, 29]);
    let mut g = KeystreamGenerator::new(42);
    let got: Vec<u8> = (0..8).map(|_| g.next_byte()).collect();
    assert_eq!(got, vec![137, 137, 165, 117, 32, 69, 109, 132]);
    let mut g = KeystreamGenerator::new(u64::MAX);
    let got: Vec<u8> = (0..4).map(|_| g.next_byte()).collect();
    assert_eq!(got, vec![57, 57, 134, 94]);
}

#[test]
fn keystream_determinism() {
    let mut g1 = KeystreamGenerator::new(0xdead_beef);
    let mut g2 = KeystreamGenerator::new(0xdead_beef);
    for _ in 0..5000 {
        assert_eq!(g1.next_byte(), g2.next_byte());
    }
    let mut g3 = KeystreamGenerator::new(99);
    let mut g4 = KeystreamGenerator::new(99);
    let whole = xor_cipher(&[0u8; 30], &mut g3);
    let mut split = xor_cipher(&[0u8; 10], &mut g4);
    split.extend(xor_cipher(&[0u8; 20], &mut g4));
    assert_eq!(whole, split);
}

#[test]
fn cipher_round_trip() {
    let msg = b"the quick brown fox jumps over the lazy dog".to_vec();
    for seed in [0u64, 1, 21, u64::MAX] {
        let mut enc = KeystreamGenerator::new(seed);
        let mut dec = KeystreamGenerator::new(seed);
        let c = xor_cipher(&msg, &mut enc);
        assert_eq!(xor_cipher(&c, &mut dec), msg);
    }
    let mut g = KeystreamGenerator::new(5);
    assert_eq!(xor_cipher(&[], &mut g), Vec::<u8>::new());
}

#[test]
fn cipher_known_value() {
    let mut g = KeystreamGenerator::new(21);
    assert_eq!(xor_cipher(b"hi", &mut g), vec![44, 91]);
}

#[test]
fn dropped_byte_desynchronizes() {
    let msg: Vec<u8> = (0..200u32).map(|i| (i % 26) as u8 + b'a').collect();
    let mut enc = KeystreamGenerator::new(21);
    let mut c = xor_cipher(&msg, &mut enc);
    c.remove(50);
    let mut dec = KeystreamGenerator::new(21);
    let d = xor_cipher(&c, &mut dec);
    assert_eq!(&d[..50], &msg[..50]);
    assert_ne!(&d[50..], &msg[51..]);
    let wrong = d[50..].iter().zip(msg[51..].iter()).filter(|(x, y)| x != y).count();
    assert!(wrong > 100);
}

#[test]
fn frame_encoding_layout() {
    assert_eq!(encode_frame(b"abc"), vec![0, 0, 0, 3, b'a', b'b', b'c']);
    assert_eq!(encode_frame(&[]), vec![0, 0, 0, 0]);
    let big = vec![7u8; 0x1_0203];
    let f = encode_frame(&big);
    assert_eq!(&f[..4], &[0, 1, 2, 3]);
    assert_eq!(f.len(), 4 + big.len());
}

#[test]
fn frame_round_trip() {
    for n in [0usize, 1, 255, 256, MAX_FRAME_LEN] {
        let payload: Vec<u8> = (0..n).map(|i| (i * 7) as u8).collect();
        let f = encode_frame(&payload);
        assert_eq!(decode_frame(&f), Ok((payload, n + 4)));
    }
}

#[test]
fn frame_too_large_is_rejected() {
    let payload = vec![1u8; MAX_FRAME_LEN + 1];
    let f = encode_frame(&payload);
    assert_eq!(decode_frame(&f), Err(FrameError::TooLarge));
    assert_eq!(frame_length(&[0xff, 0xff, 0xff, 0xff]), Err(FrameError::TooLarge));
    assert_eq!(frame_length(&[0, 0, 0x27, 0x10]), Ok(10000));
    assert_eq!(frame_length(&[0, 0, 0x27, 0x11]), Err(FrameError::TooLarge));
}

#[test]
fn frame_truncated_is_rejected() {
    assert_eq!(decode_frame(&[0, 0, 0]), Err(FrameError::Truncated));
    assert_eq!(decode_frame(&[0, 0, 0, 5, 1, 2]), Err(FrameError::Truncated));
    assert_eq!(frame_length(&[1]), Err(FrameError::Truncated));
    assert_eq!(decode_frame(&[0, 0, 0, 2, 9, 8, 7]), Ok((vec![9, 8], 6)));
}

#[test]
fn big_endian_helpers() {
    assert_eq!(u32_to_be(0x0102_0304), vec![1, 2, 3, 4]);
    assert_eq!(u64_to_be(0x0102_0304_0506_0708), vec![1, 2, 3, 4, 5, 6, 7, 8]);
    assert_eq!(be_to_u64(&[1, 2, 3, 4, 5, 6, 7, 8]), 0x0102_0304_0506_0708);
    assert_eq!(be_to_u64(&[]), 0);
    assert_eq!(be_to_u64(&u64_to_be(u64::MAX)), u64::MAX);
}

fn established(h: &DhHandshake) -> u64 {
    match h.next_step() {
        HandshakeStep::Established(s) => s,
        _ => panic!("handshake not finished"),
    }
}

fn run_handshake(a: &mut DhHandshake, b: &mut DhHandshake) {
    // a is the initiator: it writes first.
    let a_key = match a.next_step() {
        HandshakeStep::SendOwnKey(bytes) => bytes,
        _ => panic!("initiator must write first"),
    };
    assert!(matches!(b.next_step(), HandshakeStep::ReadPeerKey));
    a.on_sent();
    b.on_peer_key(&a_key);
    let b_key = match b.next_step() {
        HandshakeStep::SendOwnKey(bytes) => bytes,
        _ => panic!("responder must write after reading"),
    };
    b.on_sent();
    assert!(matches!(a.next_step(), HandshakeStep::ReadPeerKey));
    a.on_peer_key(&b_key);
}

#[test]
fn end_to_end_toy_exchange() {
    let params = DhParams { p: 23, g: 5 };
    let mut a = DhHandshake::new(params, Role::Initiator, 5);
    let mut b = DhHandshake::new(params, Role::Responder, 7);
    assert_eq!(a.public_key(), 20);
    assert_eq!(b.public_key(), 17);
    run_handshake(&mut a, &mut b);
    let sa = established(&a);
    let sb = established(&b);
    assert_eq!(sa, 21);
    assert_eq!(sa, sb);

    let (mut a_send, _a_recv) = ChatSession::new(Role::Initiator, sa).split();
    let (_b_send, mut b_recv) = ChatSession::new(Role::Responder, sb).split();
    let frame = a_send.seal_line("hi").unwrap();
    assert_eq!(frame, vec![0, 0, 0, 2, 44, 91]);
    let (payload, used) = decode_frame(&frame).unwrap();
    assert_eq!(used, frame.len());
    assert_eq!(b_recv.open_payload(&payload), Some("hi".to_string()));
}

#[test]
fn random_keys_still_agree() {
    let params = DhParams::standard();
    let mut a = DhHandshake::start(params, Role::Initiator);
    let mut b = DhHandshake::start(params, Role::Responder);
    run_handshake(&mut a, &mut b);
    assert_eq!(established(&a), established(&b));
    assert_eq!(a.public_key(), mod_exp(DH_GENERATOR, a.private_key(), DH_PRIME));
}

#[test]
fn empty_line_sends_nothing() {
    let (mut send, _) = ChatSession::new(Role::Initiator, 21).split();
    assert_eq!(send.seal_line(""), None);
    assert_eq!(send.seal_line("hi").unwrap(), vec![0, 0, 0, 2, 44, 91]);
}

#[test]
fn undecodable_message_is_dropped_and_stream_stays_in_step() {
    let session = ChatSession::new(Role::Responder, 77);
    assert_eq!(session.role(), Role::Responder);
    let (_, mut recv) = session.split();
    let mut peer = KeystreamGenerator::new(77);
    let bad = xor_cipher(&[0xff, 0xfe], &mut peer);
    assert_eq!(recv.open_payload(&bad), None);
    let good = xor_cipher("héllo".as_bytes(), &mut peer);
    assert_eq!(recv.open_payload(&good), Some("héllo".to_string()));
}

#[test]
fn several_messages_in_a_row() {
    let (mut send, _) = ChatSession::new(Role::Initiator, 1234).split();
    let (_, mut recv) = ChatSession::new(Role::Responder, 1234).split();
    for line in ["one", "two", "three", "four"] {
        let f = send.seal_line(line).unwrap();
        let n = frame_length(&f[..4]).unwrap();
        assert_eq!(recv.open_payload(&f[4..4 + n]), Some(line.to_string()));
    }
}
