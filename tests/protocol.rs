use secure_chat::{
    frame_message, generate_keypair, keypair_from_private, modexp, shared_secret,
    u64_from_be_bytes, u64_to_be_bytes, unframe_message, xor_with_keystream, Action, Channel,
    Event, Handshake, HandshakeState, Lcg, Role, G, P,
};
use std::io::{Cursor, Read, Write};

#[test]
fn modexp_known_values() {
    assert_eq!(modexp(2, 10, 1000), 24);
    assert_eq!(modexp(5, 0, 7), 1);
    assert_eq!(modexp(0, 5, 7), 0);
}

#[test]
fn modexp_more_values() {
    assert_eq!(modexp(3, 4, 5), 1);
    assert_eq!(modexp(7, 13, 11), 2);
    assert_eq!(modexp(12, 1, 5), 2);
    assert_eq!(modexp(9, 0, 1), 0);
    assert_eq!(modexp(u64::MAX, 2, u64::MAX - 1), 1);
    assert_eq!(modexp(2, 64, u64::MAX), 1);
}

#[test]
fn modexp_matches_repeated_multiplication() {
    let mut expected: u128 = 1;
    for e in 0..50u64 {
        assert_eq!(modexp(G, e, P) as u128, expected);
        expected = expected * (G as u128) % (P as u128);
    }
}

#[test]
fn diffie_hellman_commutes() {
    let pairs = [(1u64, 2u64), (12345, 67890), (u64::MAX, 3), (0, 99), (P, P - 1)];
    for (a, b) in pairs {
        let pa = modexp(G, a, P);
        let pb = modexp(G, b, P);
        assert_eq!(modexp(pa, b, P), modexp(pb, a, P));
    }
}

#[test]
fn keypair_public_matches_private() {
    let (private, public) = keypair_from_private(10);
    assert_eq!(private, 10);
    assert_eq!(public, 1024);
    let (private, public) = generate_keypair();
    assert_eq!(public, modexp(G, private, P));
    assert!(public < P);
}

#[test]
fn shared_secret_is_peer_public_to_own_private() {
    assert_eq!(shared_secret(4, 3), 64);
    let (a, pa) = keypair_from_private(0xDEAD_BEEF);
    let (b, pb) = keypair_from_private(0x1234_5678_9ABC);
    assert_eq!(shared_secret(pb, a), shared_secret(pa, b));
}

#[test]
fn lcg_steps_with_fixed_constants() {
    let mut lcg = Lcg::from_secret(0);
    assert_eq!(lcg.next_u32(), 12345);
    let expected = ((1103515245u64 * 12345 + 12345) % (1u64 << 32)) as u32;
    assert_eq!(lcg.next_u32(), expected);
    let mut lcg = Lcg::from_secret(0x0000_0001_0000_0003);
    assert_eq!(lcg.next_u32(), 2207042835);
    let mut lcg = Lcg::from_secret(0);
    assert_eq!(lcg.next_byte(), 0x39);
}

#[test]
fn keystream_is_deterministic() {
    let secret = 0x0123_4567_89AB_CDEF;
    let mut a = Lcg::from_secret(secret);
    let mut b = Lcg::from_secret(secret);
    let xs: Vec<u8> = (0..64).map(|_| a.next_byte()).collect();
    let ys: Vec<u8> = (0..64).map(|_| b.next_byte()).collect();
    assert_eq!(xs, ys);
}

#[test]
fn keystream_state_moves_every_draw() {
    let mut lcg = Lcg::from_secret(42);
    let mut prev = lcg.next_u32();
    for _ in 0..1000 {
        let next = lcg.next_u32();
        assert_ne!(next, prev);
        assert_ne!(next % 2, prev % 2);
        prev = next;
    }
}

#[test]
fn keystream_split_draws_agree() {
    let zeros = vec![0u8; 20];
    let mut whole = Lcg::from_secret(7);
    let all = xor_with_keystream(&zeros, &mut whole);
    let mut split = Lcg::from_secret(7);
    let mut pieces = xor_with_keystream(&zeros[..5], &mut split);
    pieces.extend(xor_with_keystream(&zeros[5..], &mut split));
    assert_eq!(all, pieces);
    let mut single = Lcg::from_secret(7);
    let one_by_one: Vec<u8> = (0..20).map(|_| single.next_byte()).collect();
    assert_eq!(all, one_by_one);
}

#[test]
fn xor_round_trip_restores_plaintext() {
    let plain = b"attack at dawn".to_vec();
    for seed in [0u64, 1, P, u64::MAX] {
        let mut enc = Lcg::from_secret(seed);
        let mut dec = Lcg::from_secret(seed);
        let cipher = xor_with_keystream(&plain, &mut enc);
        assert_ne!(cipher, plain);
        assert_eq!(xor_with_keystream(&cipher, &mut dec), plain);
    }
    let mut ks = Lcg::from_secret(3);
    assert_eq!(xor_with_keystream(&[], &mut ks), Vec::<u8>::new());
}

#[test]
fn be_codec_round_trip() {
    for v in [0u64, u64::MAX, P, 1, 0x0102_0304_0506_0708] {
        assert_eq!(u64_from_be_bytes(u64_to_be_bytes(v)), v);
        assert_eq!(u64_to_be_bytes(v), v.to_be_bytes());
    }
    assert_eq!(u64_to_be_bytes(0x0102_0304_0506_0708), [1, 2, 3, 4, 5, 6, 7, 8]);
    assert_eq!(u64_from_be_bytes([0, 0, 0, 0, 0, 0, 1, 0]), 256);
}

#[test]
fn be_codec_over_a_stream() {
    let mut wire: Vec<u8> = Vec::new();
    for v in [0u64, u64::MAX, P] {
        wire.write_all(&u64_to_be_bytes(v)).unwrap();
    }
    assert_eq!(wire.len(), 24);
    let mut reader = Cursor::new(wire);
    for v in [0u64, u64::MAX, P] {
        let mut buf = [0u8; 8];
        reader.read_exact(&mut buf).unwrap();
        assert_eq!(u64_from_be_bytes(buf), v);
    }
    let mut buf = [0u8; 8];
    assert!(reader.read_exact(&mut buf).is_err());
}

#[test]
fn frame_layout() {
    assert_eq!(frame_message(b"hi"), vec![2, b'h', b'i']);
    assert_eq!(frame_message(&[]), vec![0]);
}

#[test]
fn frame_round_trip_at_255_bytes() {
    let data: Vec<u8> = (0..255u32).map(|i| (i * 7) as u8).collect();
    let framed = frame_message(&data);
    assert_eq!(framed.len(), 256);
    assert_eq!(framed[0], 255);
    assert_eq!(unframe_message(&framed), Some((data, 256)));
}

#[test]
fn frame_longer_than_255_truncates_length() {
    let data = vec![9u8; 300];
    let framed = frame_message(&data);
    assert_eq!(framed.len(), 301);
    assert_eq!(framed[0], 44);
    assert_eq!(unframe_message(&framed), Some((vec![9u8; 44], 45)));
    let framed = frame_message(&vec![1u8; 256]);
    assert_eq!(framed[0], 0);
    assert_eq!(unframe_message(&framed), Some((Vec::new(), 1)));
}

#[test]
fn unframe_short_input() {
    assert_eq!(unframe_message(&[]), None);
    assert_eq!(unframe_message(&[3, 1, 2]), None);
    assert_eq!(unframe_message(&[2, 1, 2, 3]), Some((vec![1, 2], 3)));
}

#[test]
fn handshake_server_sequence() {
    let mut hs = Handshake::new(Role::Server);
    assert_eq!(hs.secret(), None);
    let public = modexp(G, 5, P);
    assert_eq!(hs.step(Event::KeyDrawn(5)), Action::SendPublic(public));
    assert_eq!(hs.state, HandshakeState::KeypairGenerated { private: 5, public });
    assert_eq!(hs.step(Event::PublicReceived(7)), Action::Unexpected);
    assert_eq!(hs.step(Event::PublicSent), Action::ReceivePublic);
    let secret = modexp(1000, 5, P);
    assert_eq!(hs.step(Event::PublicReceived(1000)), Action::Finished(secret));
    assert_eq!(hs.secret(), Some(secret));
    assert_eq!(hs.step(Event::PublicSent), Action::Unexpected);
    assert_eq!(hs.secret(), Some(secret));
}

#[test]
fn handshake_client_sequence() {
    let mut hs = Handshake::new(Role::Client);
    assert_eq!(hs.step(Event::PublicSent), Action::Unexpected);
    assert_eq!(hs.state, HandshakeState::Start);
    let public = modexp(G, 9, P);
    assert_eq!(hs.step(Event::KeyDrawn(9)), Action::ReceivePublic);
    assert_eq!(hs.step(Event::PublicSent), Action::Unexpected);
    assert_eq!(hs.step(Event::PublicReceived(33)), Action::SendPublic(public));
    assert_eq!(hs.step(Event::PublicSent), Action::Finished(modexp(33, 9, P)));
    assert_eq!(hs.role, Role::Client);
}

#[test]
fn handshake_begin_draws_keypair() {
    let mut hs = Handshake::new(Role::Server);
    match hs.begin() {
        Action::SendPublic(public) => match hs.state {
            HandshakeState::KeypairGenerated { private, public: p } => {
                assert_eq!(p, public);
                assert_eq!(public, modexp(G, private, P));
            }
            other => panic!("unexpected state {:?}", other),
        },
        other => panic!("unexpected action {:?}", other),
    }
    assert_eq!(hs.begin(), Action::Unexpected);
    let mut client = Handshake::new(Role::Client);
    assert_eq!(client.begin(), Action::ReceivePublic);
}

/// Drives a handshake against an in-memory transport until it finishes.
fn drive(hs: &mut Handshake, first: Action, out: &mut Vec<u8>, inbox: &mut Cursor<Vec<u8>>) -> Option<u64> {
    let mut action = first;
    loop {
        action = match action {
            Action::SendPublic(v) => {
                out.extend_from_slice(&u64_to_be_bytes(v));
                hs.step(Event::PublicSent)
            }
            Action::ReceivePublic => {
                let mut buf = [0u8; 8];
                if inbox.read_exact(&mut buf).is_err() {
                    return None;
                }
                hs.step(Event::PublicReceived(u64_from_be_bytes(buf)))
            }
            Action::Finished(secret) => return Some(secret),
            Action::Unexpected => return None,
        }
    }
}

#[test]
fn end_to_end_exchange() {
    let mut server = Handshake::new(Role::Server);
    let mut client = Handshake::new(Role::Client);
    let server_first = server.step(Event::KeyDrawn(0x1111_2222_3333_4444));
    let client_first = client.step(Event::KeyDrawn(0x5555_6666_7777_8888));

    // The server sends first, so it runs up to its receive.
    let mut to_client: Vec<u8> = Vec::new();
    let mut to_server: Vec<u8> = Vec::new();
    let action = match server_first {
        Action::SendPublic(v) => {
            to_client.extend_from_slice(&u64_to_be_bytes(v));
            server.step(Event::PublicSent)
        }
        other => panic!("server opened with {:?}", other),
    };
    assert_eq!(action, Action::ReceivePublic);
    let client_secret = drive(&mut client, client_first, &mut to_server, &mut Cursor::new(to_client)).unwrap();
    let server_secret = drive(&mut server, action, &mut Vec::new(), &mut Cursor::new(to_server)).unwrap();
    assert_eq!(server_secret, client_secret);

    let mut server_channel = Channel::new(server_secret);
    let mut client_channel = Channel::new(client_secret);

    let wire = frame_message(&server_channel.encrypt(b"hi"));
    assert_eq!(wire.len(), 3);
    let (cipher, used) = unframe_message(&wire).unwrap();
    assert_eq!(used, 3);
    assert_eq!(client_channel.decrypt(&cipher), b"hi".to_vec());

    let wire = frame_message(&client_channel.encrypt(b"ok"));
    let (cipher, _) = unframe_message(&wire).unwrap();
    assert_eq!(server_channel.decrypt(&cipher), b"ok".to_vec());
}

#[test]
fn end_to_end_with_random_keys() {
    let mut server = Handshake::new(Role::Server);
    let mut client = Handshake::new(Role::Client);
    let server_first = server.begin();
    let client_first = client.begin();
    let mut to_client: Vec<u8> = Vec::new();
    let action = match server_first {
        Action::SendPublic(v) => {
            to_client.extend_from_slice(&u64_to_be_bytes(v));
            server.step(Event::PublicSent)
        }
        other => panic!("server opened with {:?}", other),
    };
    let mut to_server: Vec<u8> = Vec::new();
    let c = drive(&mut client, client_first, &mut to_server, &mut Cursor::new(to_client)).unwrap();
    let s = drive(&mut server, action, &mut Vec::new(), &mut Cursor::new(to_server)).unwrap();
    assert_eq!(s, c);
}

#[test]
fn channel_directions_are_independent() {
    let mut ch = Channel::new(77);
    let mut reference = Lcg::from_secret(77);
    let expected = xor_with_keystream(b"abc", &mut reference);
    assert_eq!(ch.encrypt(b"abc"), expected);
    // The inbound cursor has not moved: it yields the same first bytes.
    assert_eq!(ch.decrypt(b"abc"), expected);
    let mut a = Channel::new(77);
    let first = a.encrypt(b"xyz");
    let second = a.encrypt(b"xyz");
    assert_ne!(first, second);
}
