use mcproto::cipher::EncryptedStream;
use mcproto::codec::{encode_varint, write_bytes_short, write_i32_be, write_varstring};
use mcproto::connection::{Action, Connection, ConnectionState, Transport};
use mcproto::error::ProtocolError;
use mcproto::fields::FieldValue;
use mcproto::packets::{read_server_packet_by_state, decode_packet, encode_client_packet, ClientPacket};
use mcproto::schema::{server_packet_kind, ClientPacketKind, ServerPacketKind};
use rsa::pkcs8::EncodePublicKey;
use rsa::{PaddingScheme, RsaPrivateKey, RsaPublicKey};

fn frame(payload: &[u8]) -> Vec<u8> {
    let mut f = encode_varint(payload.len() as i32);
    f.extend_from_slice(payload);
    f
}

fn login_success_frame() -> Vec<u8> {
    let mut p = encode_varint(0x02);
    write_varstring(&mut p, "069a79f4-44e9-4726-a5be-fca90e38aaf5");
    write_varstring(&mut p, "bot");
    frame(&p)
}

fn keep_alive_frame(id: i32) -> Vec<u8> {
    let mut p = encode_varint(0x00);
    write_i32_be(&mut p, id);
    frame(&p)
}

#[test]
fn handshake_and_login_start_bytes() {
    let mut conn = Connection::new(());
    let packets = conn.start_login("localhost", 25565, "bot");
    assert_eq!(conn.state, ConnectionState::Login);
    let hs = encode_client_packet(&packets[0]).unwrap();
    let mut expected = vec![0x00, 0x05, 9];
    expected.extend_from_slice(b"localhost");
    expected.extend_from_slice(&[0x63, 0xdd, 0x02]);
    assert_eq!(hs, frame(&expected));
    let ls = encode_client_packet(&packets[1]).unwrap();
    assert_eq!(ls, frame(&[0x00, 3, b'b', b'o', b't']));
}

#[test]
fn login_without_encryption_enters_play() {
    let mut conn = Connection::new(());
    let _ = conn.start_login("localhost", 25565, "bot");
    let buf = login_success_frame();
    let (packet, used) = read_server_packet_by_state(&buf, conn.state).unwrap();
    assert_eq!(used, buf.len());
    assert_eq!(packet.kind, ServerPacketKind::LoginSuccess);
    let acts = conn.handle_packet(&packet).unwrap();
    assert!(acts.is_empty());
    assert_eq!(conn.state, ConnectionState::Play);

    // later frames keep the connection in play; id 0x02 is now chat
    for buf in [keep_alive_frame(77), login_success_frame()] {
        let (packet, _) = read_server_packet_by_state(&buf, conn.state).unwrap();
        conn.handle_packet(&packet).unwrap();
        assert_eq!(conn.state, ConnectionState::Play);
    }
}

#[test]
fn keep_alive_is_answered() {
    let mut conn = Connection::new(());
    conn.state = ConnectionState::Play;
    let (packet, _) = read_server_packet_by_state(&keep_alive_frame(-5), ConnectionState::Play).unwrap();
    let acts = conn.handle_packet(&packet).unwrap();
    assert_eq!(acts.len(), 1);
    match &acts[0] {
        Action::Send(p) => {
            assert_eq!(p.kind, ClientPacketKind::KeepAlive);
            assert_eq!(encode_client_packet(p).unwrap(), frame(&[0x00, 0xff, 0xff, 0xff, 0xfb]));
        },
        other => panic!("unexpected {:?}", other),
    }
}

#[test]
fn join_game_sets_entity_id() {
    let mut conn = Connection::new(());
    conn.state = ConnectionState::Play;
    let mut p = encode_varint(0x01);
    write_i32_be(&mut p, 1234);
    p.extend_from_slice(&[1, 0, 2, 20]);
    write_varstring(&mut p, "default");
    let (packet, _) = read_server_packet_by_state(&frame(&p), conn.state).unwrap();
    let acts = conn.handle_packet(&packet).unwrap();
    assert_eq!(conn.entity_id, Some(1234));
    assert_eq!(acts.len(), 2);
    assert!(matches!(&acts[1], Action::Send(p) if p.kind == ClientPacketKind::ClientStatus));
}

#[test]
fn fml_handshake_is_answered() {
    let mut conn = Connection::new(());
    conn.state = ConnectionState::Play;
    let mut p = encode_varint(0x3F);
    write_varstring(&mut p, "FML|HS");
    p.extend_from_slice(&encode_varint(2));
    p.extend_from_slice(&[1, 2]);
    let (packet, _) = read_server_packet_by_state(&frame(&p), conn.state).unwrap();
    let acts = conn.handle_packet(&packet).unwrap();
    assert_eq!(acts.len(), 1);
    match &acts[0] {
        Action::Send(reply) => {
            let mut expected = encode_varint(0x17);
            write_varstring(&mut expected, "FML|HS");
            write_bytes_short(&mut expected, &[0]);
            assert_eq!(encode_client_packet(reply).unwrap(), frame(&expected));
        },
        other => panic!("unexpected {:?}", other),
    }
}

#[test]
fn unknown_packet_id_is_fatal_with_data() {
    let payload = [0x05u8, 1, 2, 3];
    let err = read_server_packet_by_state(&frame(&payload), ConnectionState::Login).unwrap_err();
    assert_eq!(err, ProtocolError::UnknownPacketId { id: 5, data: vec![1, 2, 3] });
    let err = decode_packet(&[0x60, 9], ConnectionState::Play).unwrap_err();
    assert_eq!(err, ProtocolError::UnknownPacketId { id: 0x60, data: vec![9] });
}

#[test]
fn handshaking_state_receives_nothing() {
    assert_eq!(decode_packet(&[0x00], ConnectionState::Handshaking).unwrap_err(), ProtocolError::UnsupportedState);
    assert_eq!(decode_packet(&[0x00], ConnectionState::Status).unwrap_err(), ProtocolError::UnsupportedState);
}

#[test]
fn trailing_bytes_of_a_frame_are_skipped() {
    let mut p = encode_varint(0x00);
    write_i32_be(&mut p, 9);
    p.extend_from_slice(&[0xaa, 0xbb]);
    let mut buf = frame(&p);
    let first_len = buf.len();
    buf.extend(keep_alive_frame(10));
    let (packet, used) = read_server_packet_by_state(&buf, ConnectionState::Play).unwrap();
    assert_eq!(used, first_len);
    assert!(matches!(packet.fields[0], FieldValue::Int(9)));
    let (next, _) = read_server_packet_by_state(&buf[used..], ConnectionState::Play).unwrap();
    assert!(matches!(next.fields[0], FieldValue::Int(10)));
}

#[test]
fn incomplete_frame_is_unexpected_end() {
    let buf = keep_alive_frame(3);
    assert_eq!(read_server_packet_by_state(&buf[..buf.len() - 1], ConnectionState::Play).unwrap_err(), ProtocolError::UnexpectedEnd);
}

#[test]
fn registry_lookup() {
    assert_eq!(server_packet_kind(ConnectionState::Login, 0x01), Some(ServerPacketKind::EncryptionRequest));
    assert_eq!(server_packet_kind(ConnectionState::Play, 0x26), Some(ServerPacketKind::MapChunkBulk));
    assert_eq!(server_packet_kind(ConnectionState::Play, 0x24), None);
    assert_eq!(ServerPacketKind::SetSlot.id(), 0x2F);
}

#[test]
fn encryption_enabled_once() {
    let mut conn = Connection::new(vec![1u8]);
    assert_eq!(conn.enable_encryption(&[0u8; 15]), Err(ProtocolError::CryptoFailure));
    assert!(matches!(conn.transport, Transport::Plain(_)));
    assert_eq!(conn.enable_encryption(&[0u8; 16]), Ok(()));
    assert!(matches!(conn.transport, Transport::Encrypted(_)));
    assert_eq!(conn.enable_encryption(&[0u8; 16]), Err(ProtocolError::AlreadyEncrypted));
}

#[test]
fn login_with_encryption() {
    let mut rng = rand::rngs::OsRng;
    let private = RsaPrivateKey::new(&mut rng, 512).unwrap();
    let public = RsaPublicKey::from(&private);
    let der = public.to_public_key_der().unwrap().as_bytes().to_vec();
    let token = vec![9u8, 8, 7, 6];

    let mut conn = Connection::new(Vec::<u8>::new());
    let _ = conn.start_login("localhost", 25565, "bot");
    let mut p = encode_varint(0x01);
    write_varstring(&mut p, "");
    write_bytes_short(&mut p, &der);
    write_bytes_short(&mut p, &token);
    let (packet, _) = read_server_packet_by_state(&frame(&p), conn.state).unwrap();
    assert_eq!(packet.kind, ServerPacketKind::EncryptionRequest);
    let acts = conn.handle_packet(&packet).unwrap();
    assert_eq!(acts.len(), 3);

    let response = match &acts[0] {
        Action::Send(r) => r.clone(),
        other => panic!("unexpected {:?}", other),
    };
    assert_eq!(response.kind, ClientPacketKind::EncryptionResponse);
    let secret = match &acts[1] {
        Action::EnableEncryption(s) => s.clone(),
        other => panic!("unexpected {:?}", other),
    };
    assert_eq!(secret.len(), 16);
    match (&response.fields[0], &response.fields[1]) {
        (FieldValue::BytesShort(es), FieldValue::BytesShort(et)) => {
            assert_eq!(private.decrypt(PaddingScheme::new_pkcs1v15_encrypt(), es).unwrap(), secret);
            assert_eq!(private.decrypt(PaddingScheme::new_pkcs1v15_encrypt(), et).unwrap(), token);
        },
        other => panic!("unexpected {:?}", other),
    }
    match &acts[2] {
        Action::JoinSession(h) => {
            assert!(!h.is_empty());
            assert_eq!(*h, mcproto::auth::session_hash("", &secret, &der));
        },
        other => panic!("unexpected {:?}", other),
    }

    // the response goes out in plain, then the transport is wrapped
    let response_bytes = encode_client_packet(&response).unwrap();
    assert_eq!(response_bytes[1], 0x01);
    conn.enable_encryption(&secret).unwrap();
    let mut server = EncryptedStream::new((), &secret).unwrap();

    // server to client: login success, then keep-alives, all encrypted
    let mut wire = server.encrypt(&login_success_frame());
    wire.extend(server.encrypt(&keep_alive_frame(42)));
    let mut received = Vec::new();
    if let Transport::Encrypted(es) = &mut conn.transport {
        for chunk in wire.chunks(5) {
            let mut c = chunk.to_vec();
            es.decrypt(&mut c);
            received.extend(c);
        }
    } else {
        panic!("transport not encrypted");
    }
    let (first, used) = read_server_packet_by_state(&received, conn.state).unwrap();
    conn.handle_packet(&first).unwrap();
    assert_eq!(conn.state, ConnectionState::Play);
    let (second, _) = read_server_packet_by_state(&received[used..], conn.state).unwrap();
    let acts = conn.handle_packet(&second).unwrap();

    // client to server: the keep-alive answer, encrypted and read back
    let answer = match &acts[0] {
        Action::Send(p) => encode_client_packet(p).unwrap(),
        other => panic!("unexpected {:?}", other),
    };
    let sent = if let Transport::Encrypted(es) = &mut conn.transport { es.encrypt(&answer) } else { unreachable!() };
    assert_ne!(sent, answer);
    let mut back = sent.clone();
    server.decrypt(&mut back);
    assert_eq!(back, answer);
}

#[test]
fn client_packet_constructors_encode() {
    let p = ClientPacket::chat_message("hi");
    assert_eq!(encode_client_packet(&p).unwrap(), frame(&[0x01, 2, b'h', b'i']));
    let p = ClientPacket::client_status(0);
    assert_eq!(encode_client_packet(&p).unwrap(), frame(&[0x16, 0]));
}

#[test]
fn status_handshake_moves_to_status() {
    let mut conn = Connection::new(());
    let hs = conn.handshake("h", 1, ConnectionState::Status);
    assert_eq!(conn.state, ConnectionState::Status);
    assert_eq!(encode_client_packet(&hs).unwrap(), frame(&[0x00, 0x05, 1, b'h', 0x00, 0x01, 0x01]));
    assert_eq!(encode_client_packet(&ClientPacket::status_request()).unwrap(), vec![1, 0]);
    assert_eq!(encode_client_packet(&ClientPacket::status_ping(5)).unwrap(), frame(&[0x01, 0, 0, 0, 0, 0, 0, 0, 5]));
}

#[test]
fn encryption_request_with_given_secret() {
    let mut rng = rand::rngs::OsRng;
    let private = RsaPrivateKey::new(&mut rng, 512).unwrap();
    let der = RsaPublicKey::from(&private).to_public_key_der().unwrap().as_bytes().to_vec();
    let secret = [3u8; 16];
    let acts = Connection::<()>::handle_encryption_request("srv", &der, &[1, 2], &secret).unwrap();
    assert_eq!(acts.len(), 3);
    match &acts[0] {
        Action::Send(p) => match (&p.fields[0], &p.fields[1]) {
            (FieldValue::BytesShort(es), FieldValue::BytesShort(et)) => {
                assert_eq!(es.len(), 64);
                assert_eq!(et.len(), 64);
                assert_eq!(private.decrypt(PaddingScheme::new_pkcs1v15_encrypt(), es).unwrap(), secret.to_vec());
                assert_eq!(private.decrypt(PaddingScheme::new_pkcs1v15_encrypt(), et).unwrap(), vec![1, 2]);
            },
            other => panic!("unexpected {:?}", other),
        },
        other => panic!("unexpected {:?}", other),
    }
    assert!(matches!(&acts[1], Action::EnableEncryption(s) if s[..] == secret[..]));
    assert!(matches!(&acts[2], Action::JoinSession(h) if *h == mcproto::auth::session_hash("srv", &secret, &der)));
    // a token too long for the key
    let long = vec![7u8; 60];
    assert_eq!(
        Connection::<()>::handle_encryption_request("srv", &der, &long, &secret).unwrap_err(),
        ProtocolError::CryptoFailure
    );
}

#[test]
fn malformed_public_key_is_crypto_failure() {
    let secret = [3u8; 16];
    assert_eq!(
        Connection::<()>::handle_encryption_request("srv", &[1, 2, 3], &[1], &secret).unwrap_err(),
        ProtocolError::CryptoFailure
    );
    let mut conn = Connection::new(());
    conn.state = ConnectionState::Login;
    let mut p = encode_varint(0x01);
    write_varstring(&mut p, "");
    write_bytes_short(&mut p, &[0x30, 0x00]);
    write_bytes_short(&mut p, &[1]);
    let (packet, _) = read_server_packet_by_state(&frame(&p), conn.state).unwrap();
    assert_eq!(conn.handle_packet(&packet).unwrap_err(), ProtocolError::CryptoFailure);
    assert!(matches!(conn.transport, Transport::Plain(_)));
}
