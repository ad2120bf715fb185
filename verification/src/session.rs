//! The pairing and session state machine, and the handling of every message
//! a peer writes to the Command-RX characteristic.
//!
//! The surrounding application owns the BLE plumbing; it hands complete
//! writes in and carries the returned events and reply frames out. All
//! decisions live here and are verified.

use vstd::prelude::*;
use vstd::utf8::{decode_utf8, encode_utf8, valid_utf8};
use crate::codec::{Message, MessageType, MsgModel, spec_decode, spec_encode, sign_image};
use crate::crypto::{CryptoContext, CryptoModel, EcdhKeypair, b64_of, spec_k_enc, spec_k_mac};
use crate::errors::ProtocolError;
use crate::frames::{MessageReassembler, MAX_PAYLOAD, MIN_MTU, chunk_message, spec_chunk,
    spec_chunk_all, spec_feed, spec_step, init_rstate, lemma_chunk_all_reassemble};
use crate::codec::{lemma_codec_roundtrip, msg_wf};
use crate::json::print_object;
use crate::payloads::{PairAckPayload, PairRequestPayload, WordPayload, pair_ack_fields,
    spec_decode_pair_req, spec_decode_word};

verus! {

/// How long after a successful pairing a disconnect signal is ignored, in
/// milliseconds: the debounce against an immediate-reconnect race.
pub const DISCONNECT_DEBOUNCE_MS: u64 = 500;

/// Whether the link is paired and authenticated.
#[derive(Debug, Clone, Copy, PartialEq, Eq, Structural)]
pub enum ConnectionState {
    AwaitingPair,
    Authenticated,
}

/// What the Status characteristic reads as.
#[derive(Debug, Clone, Copy, PartialEq, Eq, Structural)]
pub enum StatusCode {
    Idle,
    AwaitingPairing,
    Paired,
    Error,
}

impl StatusCode {
    /// The wire value of this status.
    pub open spec fn spec_byte(self) -> u8 {
        match self {
            StatusCode::Idle => 0x00u8,
            StatusCode::AwaitingPairing => 0x01u8,
            StatusCode::Paired => 0x02u8,
            StatusCode::Error => 0xFFu8,
        }
    }

    /// The single status byte.
    pub fn as_byte(self) -> (r: u8)
        ensures
            r == self.spec_byte(),
    {
        match self {
            StatusCode::Idle => 0x00,
            StatusCode::AwaitingPairing => 0x01,
            StatusCode::Paired => 0x02,
            StatusCode::Error => 0xFF,
        }
    }

    /// The status as the one-byte notification body.
    pub fn as_bytes(self) -> (r: Vec<u8>)
        ensures
            r@ == seq![self.spec_byte()],
    {
        let mut v: Vec<u8> = Vec::new();
        v.push(self.as_byte());
        proof {
            assert(v@ =~= seq![self.spec_byte()]);
        }
        v
    }
}

/// Events the server reports to the application's event loop.
#[derive(Debug, Clone)]
pub enum ConnectionEvent {
    /// Whole-phrase text received from the peer.
    TextReceived(String),
    /// One word of the live speech stream.
    WordReceived { word: String, seq: Option<u64>, session: String },
    /// A command token received from the peer.
    CommandReceived(String),
    /// Pairing completed.
    Connected { device_name: String },
    /// The link is gone.
    Disconnected,
    /// A peer asked to pair and awaits the verdict.
    PairRequested { device_id: String, device_name: Option<String> },
}

/// The handshake held between a pairing request and the user's verdict.
pub struct PendingPairing {
    pub peer_device_id: String,
    pub peer_device_name: Option<String>,
    pub peer_public_key: String,
    pub local_keypair: EcdhKeypair,
}

/// The one server-side session: connection state, reassembly, crypto and the
/// negotiated MTU.
pub struct ServerState {
    pub state: ConnectionState,
    pub reassembler: MessageReassembler,
    pub crypto: Option<CryptoContext>,
    pub device_id: Option<String>,
    pub negotiated_mtu: usize,
    pub status_code: StatusCode,
    pub pending_pairing: Option<PendingPairing>,
    pub last_connected_time: Option<u64>,
}

/// The crypto keys as an option of models.
pub open spec fn crypto_view(c: &Option<CryptoContext>) -> Option<CryptoModel> {
    match c {
        Some(cc) => Some(cc@),
        None => None,
    }
}

/// Whether a disconnect signal at `now_ms` falls inside the debounce window
/// after the last successful pairing.
pub open spec fn spec_debounced(last_connected: Option<u64>, now_ms: u64) -> bool {
    match last_connected {
        Some(t) => now_ms < t + DISCONNECT_DEBOUNCE_MS,
        None => false,
    }
}

impl ServerState {
    /// The state invariant: crypto is bound exactly in `Authenticated`, keys
    /// and pending keypairs are well formed, and the MTU stays in its
    /// 16-bit band, never below the BLE default.
    pub open spec fn wf(&self) -> bool {
        &&& (self.crypto is Some <==> self.state == ConnectionState::Authenticated)
        &&& match self.crypto {
            Some(c) => c.wf(),
            None => true,
        }
        &&& match self.pending_pairing {
            Some(p) => p.local_keypair.wf(),
            None => true,
        }
        &&& MIN_MTU <= self.negotiated_mtu <= 0xFFFF
    }

    /// A server that has just started: awaiting pairing at the default MTU.
    pub fn new() -> (r: ServerState)
        ensures
            r.wf(),
            r.state == ConnectionState::AwaitingPair,
            r.crypto is None,
            r.device_id is None,
            r.negotiated_mtu == MIN_MTU,
            r.status_code == StatusCode::Idle,
            r.pending_pairing is None,
            r.last_connected_time is None,
            r.reassembler@ == init_rstate(),
    {
        ServerState {
            state: ConnectionState::AwaitingPair,
            reassembler: MessageReassembler::new(),
            crypto: None,
            device_id: None,
            negotiated_mtu: MIN_MTU,
            status_code: StatusCode::Idle,
            pending_pairing: None,
            last_connected_time: None,
        }
    }

    /// Raises the negotiated MTU to the ATT MTU a write carried, never
    /// lowering it: the MTU is monotone within a connection.
    pub fn update_mtu(&mut self, write_mtu: u16)
        requires
            old(self).wf(),
        ensures
            final(self).wf(),
            final(self).negotiated_mtu == if write_mtu > old(self).negotiated_mtu {
                write_mtu as usize
            } else {
                old(self).negotiated_mtu
            },
            final(self).negotiated_mtu >= old(self).negotiated_mtu,
            *final(self) == (ServerState {
                negotiated_mtu: final(self).negotiated_mtu,
                ..*old(self)
            }),
    {
        if (write_mtu as usize) > self.negotiated_mtu {
            self.negotiated_mtu = write_mtu as usize;
        }
    }

    /// The MTU-Info characteristic body: the negotiated MTU, little endian.
    pub fn mtu_le_bytes(&self) -> (r: Vec<u8>)
        requires
            self.wf(),
        ensures
            r@ == crate::frames::le16(self.negotiated_mtu as int),
    {
        let m = self.negotiated_mtu;
        let mut v: Vec<u8> = Vec::new();
        v.push((m % 256) as u8);
        v.push((m / 256) as u8);
        proof {
            assert(v@ =~= crate::frames::le16(self.negotiated_mtu as int));
        }
        v
    }

    /// Handles a disconnect signal from either detector (the poll and the
    /// failed notify), at time `now_ms`.
    ///
    /// Exactly one `Disconnected` is reported per transition out of
    /// `Authenticated`: the signal is ignored inside the debounce window and
    /// when no session is up, and a handled signal leaves `AwaitingPair`, so
    /// a second signal reports nothing. After a handled disconnect, crypto,
    /// peer identity and pending pairing are gone and the MTU is back at the
    /// BLE default.
    pub fn on_disconnect(&mut self, now_ms: u64) -> (emitted: bool)
        requires
            old(self).wf(),
        ensures
            final(self).wf(),
            emitted <==> (old(self).state == ConnectionState::Authenticated && !spec_debounced(
                old(self).last_connected_time,
                now_ms,
            )),
            !emitted ==> *final(self) == *old(self),
            emitted ==> {
                &&& final(self).state == ConnectionState::AwaitingPair
                &&& final(self).crypto is None
                &&& final(self).device_id is None
                &&& final(self).pending_pairing is None
                &&& final(self).status_code == StatusCode::Idle
                &&& final(self).negotiated_mtu == MIN_MTU
                &&& final(self).last_connected_time is None
                &&& final(self).reassembler@ == init_rstate()
            },
    {
        if self.state != ConnectionState::Authenticated {
            return false;
        }
        let debounced = match self.last_connected_time {
            Some(t) => now_ms <= t || now_ms - t < DISCONNECT_DEBOUNCE_MS,
            None => false,
        };
        if debounced {
            return false;
        }
        self.state = ConnectionState::AwaitingPair;
        self.crypto = None;
        self.device_id = None;
        self.pending_pairing = None;
        self.status_code = StatusCode::Idle;
        self.negotiated_mtu = MIN_MTU;
        self.last_connected_time = None;
        self.reassembler.reset();
        true
    }
}

/// An option of a string, viewed.
pub open spec fn opt_str_view(o: &Option<String>) -> Option<Seq<char>> {
    match o {
        Some(s) => Some(s@),
        None => None,
    }
}

/// The reply every handled message gets: a fresh unsigned ACK echoing the
/// sender's timestamp.
pub open spec fn is_ack_for(reply: Message, ts: int) -> bool {
    &&& reply@.typ == MessageType::Ack
    &&& reply@.timestamp == ts
    &&& reply@.signature is None
    &&& reply@.nonce is None
}

/// The kinds that ride encrypted and signed.
pub open spec fn is_data_type(t: MessageType) -> bool {
    t == MessageType::Text || t == MessageType::Word || t == MessageType::Command
}

impl ServerState {
    /// Handles one write to the Command-RX characteristic: raises the MTU to
    /// the write's ATT MTU, feeds the fragment to the reassembler, and when a
    /// message completes, decodes and dispatches it. Returns the events for
    /// the application and the replies to notify back, in order.
    ///
    /// Connection state and session keys never change here; a malformed
    /// fragment, envelope or payload is dropped and nothing is reported.
    /// Data messages (TEXT, WORD, COMMAND) are verified and decrypted first:
    /// every envelope the peer built with `sign_and_encrypt` under the
    /// session keys yields exactly its message's event, so a sequence of
    /// such envelopes, delivered fragment by fragment in link order, yields
    /// the peer's messages in order.
    pub fn handle_frame(&mut self, data: &[u8], write_mtu: u16) -> (r: (
        Vec<ConnectionEvent>,
        Vec<Message>,
    ))
        requires
            old(self).wf(),
        ensures
            final(self).wf(),
            final(self).state == old(self).state,
            crypto_view(&final(self).crypto) == crypto_view(&old(self).crypto),
            final(self).last_connected_time == old(self).last_connected_time,
            final(self).negotiated_mtu == if write_mtu > old(self).negotiated_mtu {
                write_mtu as usize
            } else {
                old(self).negotiated_mtu
            },
            final(self).reassembler@ == spec_step(old(self).reassembler@, data@).0,
            ({
                let done = spec_step(old(self).reassembler@, data@).1;
                let quiet = final(self).device_id == old(self).device_id && final(self).status_code
                    == old(self).status_code && final(self).pending_pairing == old(self).pending_pairing;
                match done {
                    None => r.0@.len() == 0 && r.1@.len() == 0 && quiet,
                    Some(p) => if !valid_utf8(p) || spec_decode(decode_utf8(p)) is None {
                        r.0@.len() == 0 && r.1@.len() == 0 && quiet
                    } else {
                        let m = spec_decode(decode_utf8(p)).unwrap();
                        &&& (m.typ == MessageType::Heartbeat ==> r.0@.len() == 0 && r.1@.len() == 1
                            && is_ack_for(r.1@[0], m.timestamp) && quiet)
                        &&& (m.typ == MessageType::PairReq ==> final(self).pair_req_outcome(
                            m,
                            spec_decode_pair_req(m.payload),
                            r,
                        ))
                        &&& (m.typ == MessageType::PairReq && (match spec_decode_pair_req(
                            m.payload,
                        ) {
                            None => true,
                            Some(p) => p.public_key.len() == 0,
                        }) ==> quiet)
                        &&& (m.typ == MessageType::PairAck ==> r.0@.len() == 0 && r.1@.len() == 0
                            && quiet)
                        &&& (is_data_type(m.typ) ==> quiet)
                        &&& (is_data_type(m.typ) && old(self).state != ConnectionState::Authenticated
                            ==> r.0@.len() == 0 && r.1@.len() == 0)
                        &&& (is_data_type(m.typ) && old(self).state == ConnectionState::Authenticated
                            ==> (match old(self).crypto {
                            Some(c) => !crate::codec::auth_ok(m, c@) || !crate::codec::sealed_form(
                                m,
                                c@,
                            ) ==> r.0@.len() == 0 && r.1@.len() == 0,
                            None => true,
                        }))
                        &&& (is_data_type(m.typ) && old(self).state == ConnectionState::Authenticated
                            ==> (match old(self).crypto {
                            Some(c) => forall|m0: MsgModel, nb: Seq<u8>|
                                nb.len() == 12 && m == sign_image(m0, nb, c@)
                                    ==> #[trigger] sign_image(m0, nb, c@) == m && final(self).data_outcome(
                                    m0,
                                    r,
                                ),
                            None => false,
                        }))
                    },
                }
            }),
    {
        self.update_mtu(write_mtu);
        let completed = self.reassembler.process_packet(data);
        let payload = match completed {
            Some(p) => p,
            None => {
                return (Vec::new(), Vec::new());
            },
        };
        let text = match crate::crypto::bytes_to_string(&payload) {
            Some(t) => t,
            None => {
                return (Vec::new(), Vec::new());
            },
        };
        proof {
            vstd::utf8::encode_utf8_decode_utf8(text@);
            vstd::utf8::encode_utf8_valid_utf8(text@);
        }
        let mut msg = match Message::from_json(text.as_str()) {
            Ok(m) => m,
            Err(_) => {
                return (Vec::new(), Vec::new());
            },
        };
        let mut events: Vec<ConnectionEvent> = Vec::new();
        let mut replies: Vec<Message> = Vec::new();
        match msg.message_type {
            MessageType::Heartbeat => {
                replies.push(Message::ack(msg.timestamp));
                proof {
                    assert(replies@.len() == 1);
                }
            },
            MessageType::PairReq => {
                let payload_parsed = PairRequestPayload::from_json(msg.payload.as_str());
                match payload_parsed {
                    Ok(p) => {
                        if !p.public_key.as_str().is_empty() {
                            let keypair = EcdhKeypair::generate();
                            self.device_id = Some(p.device_id.clone());
                            self.status_code = StatusCode::AwaitingPairing;
                            events.push(
                                ConnectionEvent::PairRequested {
                                    device_id: p.device_id.clone(),
                                    device_name: p.device_name.clone(),
                                },
                            );
                            self.pending_pairing = Some(
                                PendingPairing {
                                    peer_device_id: p.device_id,
                                    peer_device_name: p.device_name,
                                    peer_public_key: p.public_key,
                                    local_keypair: keypair,
                                },
                            );
                            replies.push(Message::ack(msg.timestamp));
                        } else {
                            proof {
                                assert(p@.public_key.len() == 0);
                            }
                        }
                    },
                    Err(_) => {},
                }
            },
            MessageType::Text => {
                if self.state == ConnectionState::Authenticated {
                    let ok = match &self.crypto {
                        Some(c) => {
                            let v = msg.verify_and_decrypt(c);
                            v.is_ok()
                        },
                        None => false,
                    };
                    if ok {
                        let ts = msg.timestamp;
                        events.push(ConnectionEvent::TextReceived(msg.payload));
                        replies.push(Message::ack(ts));
                    }
                }
            },
            MessageType::Word => {
                if self.state == ConnectionState::Authenticated {
                    let ok = match &self.crypto {
                        Some(c) => {
                            let v = msg.verify_and_decrypt(c);
                            v.is_ok()
                        },
                        None => false,
                    };
                    if ok {
                        match WordPayload::from_json(msg.payload.as_str()) {
                            Ok(w) => {
                                events.push(
                                    ConnectionEvent::WordReceived {
                                        word: w.word,
                                        seq: w.seq,
                                        session: w.session,
                                    },
                                );
                            },
                            Err(_) => {},
                        }
                        replies.push(Message::ack(msg.timestamp));
                    }
                }
            },
            MessageType::Command => {
                if self.state == ConnectionState::Authenticated {
                    let ok = match &self.crypto {
                        Some(c) => {
                            let v = msg.verify_and_decrypt(c);
                            v.is_ok()
                        },
                        None => false,
                    };
                    if ok {
                        let ts = msg.timestamp;
                        events.push(ConnectionEvent::CommandReceived(msg.payload));
                        replies.push(Message::ack(ts));
                    }
                }
            },
            MessageType::PairAck => {},
            MessageType::Ack => {},
        }
        (events, replies)
    }

    /// What a well-formed pairing request leaves behind: the pending
    /// handshake, the `PairRequested` event and the immediate ACK; a
    /// malformed or keyless one is dropped without a trace.
    pub open spec fn pair_req_outcome(
        &self,
        m: MsgModel,
        pd: Option<crate::payloads::PairReqModel>,
        r: (Vec<ConnectionEvent>, Vec<Message>),
    ) -> bool {
        match pd {
            None => r.0@.len() == 0 && r.1@.len() == 0,
            Some(p) => if p.public_key.len() == 0 {
                r.0@.len() == 0 && r.1@.len() == 0
            } else {
                &&& (self.device_id matches Some(d) && d@ == p.device_id)
                &&& self.status_code == StatusCode::AwaitingPairing
                &&& (self.pending_pairing matches Some(pp) && pp.peer_device_id@ == p.device_id
                    && opt_str_view(&pp.peer_device_name) == p.device_name
                    && pp.peer_public_key@ == p.public_key)
                &&& r.0@.len() == 1
                &&& (r.0@[0] matches ConnectionEvent::PairRequested { device_id, device_name }
                    && device_id@ == p.device_id && opt_str_view(&device_name) == p.device_name)
                &&& r.1@.len() == 1
                &&& is_ack_for(r.1@[0], m.timestamp)
            },
        }
    }

    /// What an authenticated data message from the peer yields: its event
    /// and an ACK. A TEXT or COMMAND reports its decrypted payload; a WORD
    /// reports the parsed word delivery, or nothing when its payload does
    /// not parse, but is still acknowledged.
    pub open spec fn data_outcome(&self, m0: MsgModel, r: (Vec<ConnectionEvent>, Vec<Message>)) -> bool {
        &&& r.1@.len() == 1
        &&& is_ack_for(r.1@[0], m0.timestamp)
        &&& (m0.typ == MessageType::Text ==> r.0@.len() == 1 && (r.0@[0]
            matches ConnectionEvent::TextReceived(t) && t@ == m0.payload))
        &&& (m0.typ == MessageType::Command ==> r.0@.len() == 1 && (r.0@[0]
            matches ConnectionEvent::CommandReceived(t) && t@ == m0.payload))
        &&& (m0.typ == MessageType::Word ==> match spec_decode_word(m0.payload) {
            Some(w) => r.0@.len() == 1 && (r.0@[0] matches ConnectionEvent::WordReceived {
                word,
                seq,
                session,
            } && word@ == w.word && session@ == w.session && (match seq {
                Some(n) => w.seq == Some(n as int),
                None => w.seq is None,
            })),
            None => r.0@.len() == 0,
        })
    }
}

impl ServerState {
    /// Completes an approved pairing: derives the session keys from the
    /// pending handshake, installs them, and answers with the PAIR_ACK that
    /// carries this side's public key. The pending handshake is consumed
    /// whether or not key agreement succeeds.
    pub fn complete_pairing(&mut self, local_device_id: &str, now_ms: u64) -> (r: Result<
        (Vec<ConnectionEvent>, Vec<Message>),
        ProtocolError,
    >)
        requires
            old(self).wf(),
        ensures
            final(self).wf(),
            final(self).pending_pairing is None,
            final(self).negotiated_mtu == old(self).negotiated_mtu,
            final(self).reassembler@ == old(self).reassembler@,
            r matches Err(e) ==> (e == ProtocolError::HandshakeFailed
                && final(self).state == old(self).state
                && crypto_view(&final(self).crypto) == crypto_view(&old(self).crypto)
                && final(self).status_code == old(self).status_code
                && final(self).device_id == old(self).device_id
                && final(self).last_connected_time == old(self).last_connected_time),
            old(self).pending_pairing is None ==> r is Err,
            (old(self).pending_pairing matches Some(pp) && (exists|pb: Seq<u8>|
                {
                    &&& pp.peer_public_key@ == crate::crypto::b64_of(pb)
                    &&& pb.len() == 32
                    &&& !crate::crypto::all_zero(crate::crypto::x25519_of(
                        pp.local_keypair@.secret,
                        pb,
                    ))
                })) ==> r is Ok,
            r matches Ok(out) ==> {
                let pp = old(self).pending_pairing->Some_0;
                &&& old(self).pending_pairing is Some
                &&& final(self).state == ConnectionState::Authenticated
                &&& final(self).status_code == StatusCode::Paired
                &&& final(self).last_connected_time == Some(now_ms)
                &&& (final(self).device_id matches Some(d) && d@ == pp.peer_device_id@)
                &&& (final(self).crypto matches Some(c) && exists|pb: Seq<u8>|
                    {
                        &&& pp.peer_public_key@ == crate::crypto::b64_of(pb)
                        &&& pb.len() == 32
                        &&& c@.k_enc == spec_k_enc(
                            b64_of(crate::crypto::x25519_of(pp.local_keypair@.secret, pb)),
                            pp.peer_device_id@,
                            local_device_id@,
                        )
                        &&& c@.k_mac == spec_k_mac(
                            b64_of(crate::crypto::x25519_of(pp.local_keypair@.secret, pb)),
                            pp.peer_device_id@,
                            local_device_id@,
                        )
                    })
                &&& out.0@.len() == 1
                &&& (out.0@[0] matches ConnectionEvent::Connected { device_name } && device_name@
                    == (match pp.peer_device_name {
                    Some(n) => n@,
                    None => pp.peer_device_id@,
                }))
                &&& out.1@.len() == 1
                &&& out.1@[0]@.typ == MessageType::PairAck
                &&& out.1@[0]@.signature is None
                &&& out.1@[0]@.nonce is None
                &&& out.1@[0]@.payload == print_object(
                    pair_ack_fields(
                        crate::payloads::PairAckModel {
                            device_id: local_device_id@,
                            status: "ok"@,
                            public_key: Some(b64_of(pp.local_keypair@.public)),
                            reason: None,
                        },
                    ),
                )
            },
    {
        let pending = match self.pending_pairing.take() {
            Some(p) => p,
            None => {
                return Err(ProtocolError::HandshakeFailed);
            },
        };
        let desktop_public_key = pending.local_keypair.public_key_base64();
        let shared_secret = match pending.local_keypair.compute_shared_secret_base64(
            pending.peer_public_key.as_str(),
        ) {
            Ok(s) => s,
            Err(_) => {
                return Err(ProtocolError::HandshakeFailed);
            },
        };
        let crypto = CryptoContext::from_ecdh(
            shared_secret.as_str(),
            pending.peer_device_id.as_str(),
            local_device_id,
        );
        let ack_payload = PairAckPayload::success_with_key(local_device_id, desktop_public_key);
        let response = Message::new(MessageType::PairAck, ack_payload.to_json());
        self.crypto = Some(crypto);
        self.state = ConnectionState::Authenticated;
        self.status_code = StatusCode::Paired;
        self.device_id = Some(pending.peer_device_id.clone());
        self.last_connected_time = Some(now_ms);
        let device_name = match pending.peer_device_name {
            Some(n) => n,
            None => pending.peer_device_id,
        };
        let mut events: Vec<ConnectionEvent> = Vec::new();
        events.push(ConnectionEvent::Connected { device_name });
        let mut replies: Vec<Message> = Vec::new();
        replies.push(response);
        Ok((events, replies))
    }

    /// Rejects the pending pairing: clears it, drops back to idle, and
    /// answers with the PAIR_ACK that names the reason.
    pub fn reject_pairing(&mut self, local_device_id: &str, reason: &str) -> (reply: Message)
        requires
            old(self).wf(),
        ensures
            final(self).wf(),
            final(self).pending_pairing is None,
            final(self).status_code == StatusCode::Idle,
            final(self).state == old(self).state,
            crypto_view(&final(self).crypto) == crypto_view(&old(self).crypto),
            final(self).device_id == old(self).device_id,
            final(self).negotiated_mtu == old(self).negotiated_mtu,
            final(self).last_connected_time == old(self).last_connected_time,
            final(self).reassembler@ == old(self).reassembler@,
            reply@.typ == MessageType::PairAck,
            reply@.signature is None,
            reply@.nonce is None,
            reply@.payload == print_object(
                pair_ack_fields(
                    crate::payloads::PairAckModel {
                        device_id: local_device_id@,
                        status: "error"@,
                        public_key: None,
                        reason: Some(reason@),
                    },
                ),
            ),
    {
        self.pending_pairing = None;
        self.status_code = StatusCode::Idle;
        let payload = PairAckPayload::error(local_device_id, reason);
        Message::new(MessageType::PairAck, payload.to_json())
    }

    /// Turns one reply into the fragments to notify on Response-TX: data
    /// kinds are signed and encrypted under the session keys first, then the
    /// envelope is serialized and cut at the negotiated MTU. A message too
    /// large for one envelope, or one the cipher refuses, is dropped.
    pub fn render_reply(&self, msg: Message) -> (r: Option<Vec<Vec<u8>>>)
        requires
            self.wf(),
        ensures
            r matches Some(frames) ==> exists|m2: MsgModel|
                {
                    &&& (if is_data_type(msg@.typ) && self.crypto is Some {
                        exists|nb: Seq<u8>|
                            nb.len() == 12 && m2 == sign_image(msg@, nb, self.crypto->Some_0@)
                    } else {
                        m2 == msg@
                    })
                    &&& encode_utf8(spec_encode(m2)).len() <= MAX_PAYLOAD
                    &&& frames.deep_view() == #[trigger] spec_chunk(
                        encode_utf8(spec_encode(m2)),
                        self.negotiated_mtu as int,
                    )
                },
            (!is_data_type(msg@.typ) && encode_utf8(spec_encode(msg@)).len() <= MAX_PAYLOAD)
                ==> r is Some,
    {
        let mut msg = msg;
        let is_data = match msg.message_type {
            MessageType::Text => true,
            MessageType::Word => true,
            MessageType::Command => true,
            _ => false,
        };
        if is_data {
            match &self.crypto {
                Some(c) => {
                    if !msg.sign_and_encrypt(c) {
                        return None;
                    }
                },
                None => {},
            }
        }
        let json = msg.to_json();
        let bytes = crate::crypto::string_bytes(json.as_str());
        if bytes.len() > MAX_PAYLOAD {
            return None;
        }
        Some(chunk_message(bytes.as_slice(), self.negotiated_mtu))
    }
}

/// The bytes each envelope of a signed stream occupies on the wire: the
/// message under nonce `nonces[i]`, signed and encrypted under `k`, then
/// serialized as its JSON envelope and UTF-8 encoded.
pub open spec fn wire_payloads(msgs: Seq<MsgModel>, nonces: Seq<Seq<u8>>, k: CryptoModel) -> Seq<
    Seq<u8>,
> {
    Seq::new(msgs.len(), |i: int| encode_utf8(spec_encode(sign_image(msgs[i], nonces[i], k))))
}

/// In-order stream transmission: a sequence of messages, each signed and
/// encrypted under the session keys, serialized, and chunked at any one MTU,
/// delivered to a fresh reassembler fragment by fragment in link order,
/// reassembles and decodes to exactly the signed envelopes, in order, one
/// per message. Since `verify_and_decrypt` returns every signed envelope's
/// original message, the receiver decodes the same message sequence, in
/// order.
pub proof fn lemma_stream_transmission(
    msgs: Seq<MsgModel>,
    nonces: Seq<Seq<u8>>,
    k: CryptoModel,
    mtu: int,
)
    requires
        MIN_MTU <= mtu,
        msgs.len() == nonces.len(),
        forall|i: int| 0 <= i < msgs.len() ==> msg_wf(#[trigger] msgs[i]),
        forall|i: int|
            0 <= i < msgs.len() ==> (#[trigger] wire_payloads(msgs, nonces, k)[i]).len()
                <= MAX_PAYLOAD,
    ensures
        ({
            let outs = spec_feed(
                init_rstate(),
                spec_chunk_all(wire_payloads(msgs, nonces, k), mtu),
            ).1;
            &&& outs.len() == msgs.len()
            &&& forall|i: int|
                0 <= i < msgs.len() ==> valid_utf8(#[trigger] outs[i]) && spec_decode(
                    decode_utf8(outs[i]),
                ) == Some(sign_image(msgs[i], nonces[i], k))
        }),
        forall|i: int|
            0 <= i < msgs.len() && (#[trigger] nonces[i]).len() == 12
                ==> crate::codec::auth_ok(sign_image(msgs[i], nonces[i], k), k)
                && crate::codec::sealed_form(sign_image(msgs[i], nonces[i], k), k),
{
    let wires = wire_payloads(msgs, nonces, k);
    lemma_chunk_all_reassemble(wires, mtu);
    let outs = spec_feed(init_rstate(), spec_chunk_all(wires, mtu)).1;
    assert forall|i: int|
        0 <= i < msgs.len() implies valid_utf8(#[trigger] outs[i]) && spec_decode(
        decode_utf8(outs[i]),
    ) == Some(sign_image(msgs[i], nonces[i], k)) by {
        let m2 = sign_image(msgs[i], nonces[i], k);
        vstd::utf8::encode_utf8_valid_utf8(spec_encode(m2));
        vstd::utf8::encode_utf8_decode_utf8(spec_encode(m2));
        lemma_codec_roundtrip(m2);
    }
    assert forall|i: int|
        0 <= i < msgs.len() && (#[trigger] nonces[i]).len() == 12 implies crate::codec::auth_ok(
        sign_image(msgs[i], nonces[i], k),
        k,
    ) && crate::codec::sealed_form(sign_image(msgs[i], nonces[i], k), k) by {
        let m2 = sign_image(msgs[i], nonces[i], k);
        let plain = encode_utf8(msgs[i].payload);
        vstd::utf8::encode_utf8_valid_utf8(msgs[i].payload);
        assert(m2.nonce == Some(b64_of(nonces[i])));
        assert(m2.payload == b64_of(crate::crypto::seal_of(k.k_enc, nonces[i], plain)));
        assert(crate::codec::sealed_form(m2, k));
    }
}

} // verus!
