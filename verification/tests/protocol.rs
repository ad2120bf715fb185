//! End-to-end checks of the frame, envelope, crypto and session layers.

use prontafon::codec::{Message, MessageType};
use prontafon::crypto::{CryptoContext, EcdhKeypair, b64_encode};
use prontafon::errors::ProtocolError;
use prontafon::frames::{MessageReassembler, chunk_message};
use prontafon::json::bytes_to_hex;
use prontafon::payloads::{PairAckPayload, PairRequestPayload, WordPayload};
use prontafon::session::{ConnectionEvent, ConnectionState, ServerState, StatusCode};

fn reassemble_all(frames: &[Vec<u8>]) -> Vec<Vec<u8>> {
    let mut r = MessageReassembler::new();
    let mut out = Vec::new();
    for f in frames {
        if let Some(p) = r.process_packet(f) {
            out.push(p);
        }
    }
    out
}

#[test]
fn chunk_roundtrip_small_payload() {
    let payload: Vec<u8> = vec![7, 8, 9];
    let frames = chunk_message(&payload, 23);
    assert_eq!(frames.len(), 1);
    let out = reassemble_all(&frames);
    assert_eq!(out, vec![payload]);
}

#[test]
fn chunk_roundtrip_large_payload() {
    let payload: Vec<u8> = (0..300u32).map(|i| (i % 251) as u8).collect();
    let frames = chunk_message(&payload, 23);
    assert!(frames.len() > 1);
    let out = reassemble_all(&frames);
    assert_eq!(out, vec![payload]);
}

#[test]
fn chunk_sizes_at_mtu_185() {
    // A 400-byte payload at ATT MTU 185: one first fragment of 180 bytes of
    // body, then the rest in 182-byte steps.
    let payload: Vec<u8> = vec![0xAA; 400];
    let frames = chunk_message(&payload, 185);
    assert_eq!(frames.len(), 3);
    // first fragment: FIRST flag, seq 0, total_len 400 little-endian
    assert_eq!(frames[0][0], 1);
    assert_eq!(frames[0][1], 0);
    assert_eq!(frames[0][2], 0);
    assert_eq!(u16::from_le_bytes([frames[0][3], frames[0][4]]), 400);
    let out = reassemble_all(&frames);
    assert_eq!(out, vec![payload]);
}

#[test]
fn out_of_order_fragment_resets() {
    let payload: Vec<u8> = vec![1; 100];
    let frames = chunk_message(&payload, 23);
    let mut r = MessageReassembler::new();
    assert!(r.process_packet(&frames[0]).is_none());
    // skip a fragment: the reassembler resets and yields nothing
    assert!(r.process_packet(&frames[2]).is_none());
    for f in &frames[3..] {
        assert!(r.process_packet(f).is_none());
    }
}

#[test]
fn envelope_roundtrip_plain() {
    let msg = Message {
        message_type: MessageType::Text,
        id: "0123456789abcdef0123456789abcdef".to_string(),
        timestamp: 1234567890123,
        payload: "hello world".to_string(),
        signature: None,
        nonce: None,
    };
    let json = msg.to_json();
    let back = Message::from_json(&json).unwrap();
    assert_eq!(back.message_type, MessageType::Text);
    assert_eq!(back.id, msg.id);
    assert_eq!(back.timestamp, msg.timestamp);
    assert_eq!(back.payload, msg.payload);
    assert!(back.signature.is_none());
    assert!(back.nonce.is_none());
}

#[test]
fn envelope_roundtrip_escapes() {
    let msg = Message {
        message_type: MessageType::Word,
        id: "id".to_string(),
        timestamp: 0,
        payload: "quote \" backslash \\ newline \n tab \t bell \u{7}".to_string(),
        signature: Some("c2ln".to_string()),
        nonce: Some("bm9uY2U=".to_string()),
    };
    let json = msg.to_json();
    let back = Message::from_json(&json).unwrap();
    assert_eq!(back.payload, msg.payload);
    assert_eq!(back.signature, msg.signature);
    assert_eq!(back.nonce, msg.nonce);
}

#[test]
fn envelope_accepts_any_key_order() {
    let json = "{\"payload\":\"x\",\"id\":\"a\",\"type\":\"ACK\",\"timestamp_ms\":7}";
    let m = Message::from_json(json).unwrap();
    assert_eq!(m.message_type, MessageType::Ack);
    assert_eq!(m.timestamp, 7);
}

#[test]
fn envelope_accepts_whitespace() {
    let json = " {\n  \"type\" : \"ACK\" ,\n  \"id\" : \"a\" ,\n  \"timestamp_ms\" : 7 ,\n  \"payload\" : \"x\"\n} \n";
    let m = Message::from_json(json).unwrap();
    assert_eq!(m.message_type, MessageType::Ack);
    assert_eq!(m.timestamp, 7);
    assert_eq!(m.payload, "x");
}

#[test]
fn envelope_rejects_garbage() {
    assert!(matches!(
        Message::from_json("not json at all"),
        Err(ProtocolError::MalformedEnvelope)
    ));
    assert!(matches!(
        Message::from_json("{\"type\":\"NOPE\",\"id\":\"a\",\"timestamp_ms\":1,\"payload\":\"\"}"),
        Err(ProtocolError::MalformedEnvelope)
    ));
    assert!(matches!(
        Message::from_json("{\"id\":\"a\",\"timestamp_ms\":1,\"payload\":\"\"}"),
        Err(ProtocolError::MalformedEnvelope)
    ));
}

#[test]
fn hex_and_base64_encodings() {
    assert_eq!(bytes_to_hex(&vec![0xABu8, 0x01, 0xFF]), "ab01ff");
    assert_eq!(b64_encode(&vec![1u8, 2, 3]), "AQID");
}

#[test]
fn key_agreement_both_sides_equal() {
    let a = EcdhKeypair::generate();
    let b = EcdhKeypair::generate();
    let shared_a = a.compute_shared_secret_base64(&b.public_key_base64()).unwrap();
    let shared_b = b.compute_shared_secret_base64(&a.public_key_base64()).unwrap();
    assert_eq!(shared_a, shared_b);
}

#[test]
fn handshake_rejects_bad_key() {
    let a = EcdhKeypair::generate();
    assert!(matches!(
        a.compute_shared_secret_base64("@@@not base64@@@"),
        Err(ProtocolError::HandshakeFailed)
    ));
    assert!(matches!(
        a.compute_shared_secret_base64("AQID"),
        Err(ProtocolError::HandshakeFailed)
    ));
}

fn test_context() -> CryptoContext {
    CryptoContext::from_ecdh("c2hhcmVkLXNlY3JldA==", "phone-1", "desktop-1")
}

#[test]
fn kdf_symmetric_in_device_ids() {
    let c1 = CryptoContext::from_ecdh("c2VjcmV0", "alpha", "beta");
    let c2 = CryptoContext::from_ecdh("c2VjcmV0", "beta", "alpha");
    let mut m1 = Message::new(MessageType::Text, "cross".to_string());
    let id = m1.id.clone();
    let ts = m1.timestamp;
    assert!(m1.sign_and_encrypt(&c1));
    let mut m2 = Message::from_json(&m1.to_json()).unwrap();
    assert_eq!(m2.id, id);
    assert_eq!(m2.timestamp, ts);
    assert!(m2.verify_and_decrypt(&c2).is_ok());
    assert_eq!(m2.payload, "cross");
}

#[test]
fn sign_encrypt_verify_decrypt_roundtrip() {
    let ctx = test_context();
    let mut msg = Message::new(MessageType::Text, "attack at dawn".to_string());
    assert!(msg.sign_and_encrypt(&ctx));
    assert_ne!(msg.payload, "attack at dawn");
    assert!(msg.signature.is_some());
    assert!(msg.nonce.is_some());
    let r = msg.verify_and_decrypt(&ctx);
    assert!(r.is_ok());
    assert_eq!(msg.payload, "attack at dawn");
    assert!(msg.signature.is_none());
    assert!(msg.nonce.is_none());
}

#[test]
fn nonce_unique_per_encryption() {
    let ctx = test_context();
    let base = Message::new(MessageType::Text, "same plaintext".to_string());
    let mut m1 = Message {
        message_type: base.message_type,
        id: base.id.clone(),
        timestamp: base.timestamp,
        payload: base.payload.clone(),
        signature: None,
        nonce: None,
    };
    let mut m2 = Message {
        message_type: base.message_type,
        id: base.id.clone(),
        timestamp: base.timestamp,
        payload: base.payload.clone(),
        signature: None,
        nonce: None,
    };
    assert!(m1.sign_and_encrypt(&ctx));
    assert!(m2.sign_and_encrypt(&ctx));
    assert_ne!(m1.nonce, m2.nonce);
    assert_ne!(m1.payload, m2.payload);
}

#[test]
fn tampered_signature_fails_auth() {
    let ctx = test_context();
    let mut msg = Message::new(MessageType::Text, "payload".to_string());
    assert!(msg.sign_and_encrypt(&ctx));
    msg.signature = Some("AAAA".to_string());
    assert!(matches!(msg.verify_and_decrypt(&ctx), Err(ProtocolError::AuthFailed)));
}

#[test]
fn tampered_nonce_fails_decrypt() {
    let ctx = test_context();
    let mut msg = Message::new(MessageType::Text, "payload".to_string());
    assert!(msg.sign_and_encrypt(&ctx));
    msg.nonce = Some(b64_encode(&vec![9u8; 12]));
    assert!(matches!(msg.verify_and_decrypt(&ctx), Err(ProtocolError::DecryptFailed)));
}

fn frames_for(msg: &Message, mtu: usize) -> Vec<Vec<u8>> {
    let json = msg.to_json();
    chunk_message(json.as_bytes(), mtu)
}

#[test]
fn pairing_happy_path() {
    let mut server = ServerState::new();
    let client_keys = EcdhKeypair::generate();
    let req = PairRequestPayload {
        device_id: "D".to_string(),
        device_name: None,
        public_key: client_keys.public_key_base64(),
    };
    let req_msg = Message::new(MessageType::PairReq, req.to_json());
    let req_ts = req_msg.timestamp;

    let mut events = Vec::new();
    let mut replies = Vec::new();
    for f in frames_for(&req_msg, 23) {
        let (mut ev, mut rp) = server.handle_frame(&f, 23);
        events.append(&mut ev);
        replies.append(&mut rp);
    }
    assert_eq!(events.len(), 1);
    match &events[0] {
        ConnectionEvent::PairRequested { device_id, device_name } => {
            assert_eq!(device_id, "D");
            assert!(device_name.is_none());
        },
        other => panic!("unexpected event {:?}", other),
    }
    assert_eq!(replies.len(), 1);
    assert_eq!(replies[0].message_type, MessageType::Ack);
    assert_eq!(replies[0].timestamp, req_ts);
    assert_eq!(server.status_code, StatusCode::AwaitingPairing);

    let (events2, replies2) = server.complete_pairing("desktop-xyz", 5_000).unwrap();
    assert_eq!(server.state, ConnectionState::Authenticated);
    assert_eq!(server.status_code, StatusCode::Paired);
    assert_eq!(server.status_code.as_byte(), 0x02);
    assert_eq!(server.last_connected_time, Some(5_000));
    assert_eq!(events2.len(), 1);
    match &events2[0] {
        ConnectionEvent::Connected { device_name } => assert_eq!(device_name, "D"),
        other => panic!("unexpected event {:?}", other),
    }
    assert_eq!(replies2.len(), 1);
    assert_eq!(replies2[0].message_type, MessageType::PairAck);
    let ack = PairAckPayload::from_json(&replies2[0].payload).unwrap();
    assert_eq!(ack.status, "ok");
    assert_eq!(ack.device_id, "desktop-xyz");
    assert!(ack.public_key.is_some());

    // The client derives the same session keys and can talk.
    let shared = client_keys
        .compute_shared_secret_base64(ack.public_key.as_ref().unwrap())
        .unwrap();
    let client_ctx = CryptoContext::from_ecdh(&shared, "D", "desktop-xyz");
    let mut text = Message::new(MessageType::Text, "hello desktop".to_string());
    assert!(text.sign_and_encrypt(&client_ctx));
    let mut events3 = Vec::new();
    for f in frames_for(&text, 23) {
        let (mut ev, _) = server.handle_frame(&f, 23);
        events3.append(&mut ev);
    }
    assert_eq!(events3.len(), 1);
    match &events3[0] {
        ConnectionEvent::TextReceived(t) => assert_eq!(t, "hello desktop"),
        other => panic!("unexpected event {:?}", other),
    }
}

#[test]
fn rejected_pairing_answers_error() {
    let mut server = ServerState::new();
    let req = PairRequestPayload {
        device_id: "D".to_string(),
        device_name: Some("Phone".to_string()),
        public_key: "AQID".to_string(),
    };
    let req_msg = Message::new(MessageType::PairReq, req.to_json());
    for f in frames_for(&req_msg, 23) {
        server.handle_frame(&f, 23);
    }
    assert!(server.pending_pairing.is_some());
    let reply = server.reject_pairing("desktop-xyz", "user refused");
    assert!(server.pending_pairing.is_none());
    assert_eq!(server.status_code, StatusCode::Idle);
    assert_eq!(reply.message_type, MessageType::PairAck);
    let ack = PairAckPayload::from_json(&reply.payload).unwrap();
    assert_eq!(ack.status, "error");
    assert_eq!(ack.reason.as_deref(), Some("user refused"));
}

#[test]
fn data_before_pairing_is_dropped() {
    let mut server = ServerState::new();
    let msg = Message::new(MessageType::Text, "sneaky".to_string());
    for f in frames_for(&msg, 23) {
        let (ev, rp) = server.handle_frame(&f, 23);
        assert!(ev.is_empty());
        assert!(rp.is_empty());
    }
}

#[test]
fn mtu_grows_and_never_shrinks() {
    let mut server = ServerState::new();
    assert_eq!(server.negotiated_mtu, 23);
    let heartbeat = Message::new(MessageType::Heartbeat, String::new());
    for f in frames_for(&heartbeat, 23) {
        server.handle_frame(&f, 185);
    }
    assert_eq!(server.negotiated_mtu, 185);
    let heartbeat2 = Message::new(MessageType::Heartbeat, String::new());
    for f in frames_for(&heartbeat2, 23) {
        server.handle_frame(&f, 23);
    }
    assert_eq!(server.negotiated_mtu, 185);
}

#[test]
fn heartbeat_is_acknowledged() {
    let mut server = ServerState::new();
    let hb = Message::new(MessageType::Heartbeat, String::new());
    let ts = hb.timestamp;
    let mut replies = Vec::new();
    for f in frames_for(&hb, 23) {
        let (_, mut rp) = server.handle_frame(&f, 23);
        replies.append(&mut rp);
    }
    assert_eq!(replies.len(), 1);
    assert_eq!(replies[0].message_type, MessageType::Ack);
    assert_eq!(replies[0].timestamp, ts);
}

#[test]
fn word_message_parses_payload() {
    let mut server = ServerState::new();
    let client = EcdhKeypair::generate();
    let req = PairRequestPayload {
        device_id: "D".to_string(),
        device_name: None,
        public_key: client.public_key_base64(),
    };
    let req_msg = Message::new(MessageType::PairReq, req.to_json());
    for f in frames_for(&req_msg, 23) {
        server.handle_frame(&f, 23);
    }
    let (_, replies) = server.complete_pairing("desk", 0).unwrap();
    let ack = PairAckPayload::from_json(&replies[0].payload).unwrap();
    let shared = client
        .compute_shared_secret_base64(ack.public_key.as_ref().unwrap())
        .unwrap();
    let ctx = CryptoContext::from_ecdh(&shared, "D", "desk");
    let wp = WordPayload { word: "hello".to_string(), seq: Some(3), session: "s1".to_string() };
    let mut wm = Message::new(MessageType::Word, wp.to_json());
    assert!(wm.sign_and_encrypt(&ctx));
    let mut events = Vec::new();
    for f in frames_for(&wm, 23) {
        let (mut ev, _) = server.handle_frame(&f, 23);
        events.append(&mut ev);
    }
    assert_eq!(events.len(), 1);
    match &events[0] {
        ConnectionEvent::WordReceived { word, seq, session } => {
            assert_eq!(word, "hello");
            assert_eq!(*seq, Some(3));
            assert_eq!(session, "s1");
        },
        other => panic!("unexpected event {:?}", other),
    }
}

#[test]
fn data_messages_arrive_in_order() {
    let mut server = ServerState::new();
    let client = EcdhKeypair::generate();
    let req = PairRequestPayload {
        device_id: "D".to_string(),
        device_name: None,
        public_key: client.public_key_base64(),
    };
    let req_msg = Message::new(MessageType::PairReq, req.to_json());
    for f in frames_for(&req_msg, 23) {
        server.handle_frame(&f, 23);
    }
    let (_, replies) = server.complete_pairing("desk", 0).unwrap();
    let ack = PairAckPayload::from_json(&replies[0].payload).unwrap();
    let shared = client
        .compute_shared_secret_base64(ack.public_key.as_ref().unwrap())
        .unwrap();
    let ctx = CryptoContext::from_ecdh(&shared, "D", "desk");

    let texts = ["first phrase", "second phrase", "third phrase"];
    let mut events = Vec::new();
    for t in texts {
        let mut m = Message::new(MessageType::Text, t.to_string());
        assert!(m.sign_and_encrypt(&ctx));
        for f in frames_for(&m, 23) {
            let (mut ev, _) = server.handle_frame(&f, 23);
            events.append(&mut ev);
        }
    }
    assert_eq!(events.len(), 3);
    for (i, t) in texts.iter().enumerate() {
        match &events[i] {
            ConnectionEvent::TextReceived(got) => assert_eq!(got, t),
            other => panic!("unexpected event {:?}", other),
        }
    }
}

#[test]
fn disconnect_debounce_and_single_emission() {
    let mut server = ServerState::new();
    let client = EcdhKeypair::generate();
    let req = PairRequestPayload {
        device_id: "D".to_string(),
        device_name: None,
        public_key: client.public_key_base64(),
    };
    let req_msg = Message::new(MessageType::PairReq, req.to_json());
    for f in frames_for(&req_msg, 23) {
        server.handle_frame(&f, 185);
    }
    server.complete_pairing("desk", 1_000).unwrap();
    assert_eq!(server.last_connected_time, Some(1_000));

    // 200 ms after pairing: inside the debounce window, ignored.
    assert!(!server.on_disconnect(1_200));
    assert_eq!(server.state, ConnectionState::Authenticated);

    // 600 ms after pairing: the disconnect is handled once.
    assert!(server.on_disconnect(1_600));
    assert_eq!(server.state, ConnectionState::AwaitingPair);
    assert!(server.crypto.is_none());
    assert!(server.device_id.is_none());
    assert!(server.pending_pairing.is_none());
    assert_eq!(server.status_code, StatusCode::Idle);
    assert_eq!(server.negotiated_mtu, 23);

    // A concurrent second detector fires later: nothing more is reported.
    assert!(!server.on_disconnect(1_800));
}

#[test]
fn status_bytes_and_mtu_bytes() {
    let server = ServerState::new();
    assert_eq!(StatusCode::Idle.as_byte(), 0x00);
    assert_eq!(StatusCode::AwaitingPairing.as_byte(), 0x01);
    assert_eq!(StatusCode::Paired.as_byte(), 0x02);
    assert_eq!(StatusCode::Error.as_byte(), 0xFF);
    assert_eq!(server.mtu_le_bytes(), vec![23, 0]);
}
