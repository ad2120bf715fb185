//! The wire message codec: the JSON envelope every application message
//! rides in, and its encode and decode operations.

use vstd::prelude::*;
use crate::errors::ProtocolError;
use crate::json::{
    JVal, JsonValue, MAX_JSON_UINT, chars_to_string, find_field, jfields_view, lemma_object_rt,
    parse_object, print_object, sp_find, sp_object, string_to_chars, vec_char_eq, write_object,
    fields_wf, print_uint, u64_string, hex_seq, bytes_to_hex,
};
use crate::crypto::{
    CryptoContext, CryptoModel, b64_of, seal_of, hmac_sha256_of, b64_encode, b64_decode,
    bytes_to_string, string_bytes, random_bytes, now_ms,
};
use vstd::utf8::{encode_utf8, decode_utf8, valid_utf8, encode_utf8_valid_utf8,
    encode_utf8_decode_utf8};

verus! {

/// The kind of an envelope.
#[derive(Debug, Clone, Copy, PartialEq, Eq, Structural)]
pub enum MessageType {
    PairReq,
    PairAck,
    Text,
    Word,
    Command,
    Heartbeat,
    Ack,
}

impl MessageType {
    /// The token this kind is written as on the wire.
    pub open spec fn spec_token(self) -> Seq<char> {
        match self {
            MessageType::PairReq => "PAIR_REQ"@,
            MessageType::PairAck => "PAIR_ACK"@,
            MessageType::Text => "TEXT"@,
            MessageType::Word => "WORD"@,
            MessageType::Command => "COMMAND"@,
            MessageType::Heartbeat => "HEARTBEAT"@,
            MessageType::Ack => "ACK"@,
        }
    }

    /// The kind a wire token names, if any.
    pub open spec fn spec_from_token(t: Seq<char>) -> Option<MessageType> {
        if t == "PAIR_REQ"@ {
            Some(MessageType::PairReq)
        } else if t == "PAIR_ACK"@ {
            Some(MessageType::PairAck)
        } else if t == "TEXT"@ {
            Some(MessageType::Text)
        } else if t == "WORD"@ {
            Some(MessageType::Word)
        } else if t == "COMMAND"@ {
            Some(MessageType::Command)
        } else if t == "HEARTBEAT"@ {
            Some(MessageType::Heartbeat)
        } else if t == "ACK"@ {
            Some(MessageType::Ack)
        } else {
            None
        }
    }

    /// Writes the wire token.
    pub fn token(self) -> (r: &'static str)
        ensures
            r@ == self.spec_token(),
    {
        match self {
            MessageType::PairReq => "PAIR_REQ",
            MessageType::PairAck => "PAIR_ACK",
            MessageType::Text => "TEXT",
            MessageType::Word => "WORD",
            MessageType::Command => "COMMAND",
            MessageType::Heartbeat => "HEARTBEAT",
            MessageType::Ack => "ACK",
        }
    }

    /// Reads a wire token.
    pub fn from_token(t: &Vec<char>) -> (r: Option<MessageType>)
        ensures
            r == MessageType::spec_from_token(t@),
    {
        let pair_req = string_to_chars("PAIR_REQ");
        if vec_char_eq(t, &pair_req) {
            return Some(MessageType::PairReq);
        }
        let pair_ack = string_to_chars("PAIR_ACK");
        if vec_char_eq(t, &pair_ack) {
            return Some(MessageType::PairAck);
        }
        let text = string_to_chars("TEXT");
        if vec_char_eq(t, &text) {
            return Some(MessageType::Text);
        }
        let word = string_to_chars("WORD");
        if vec_char_eq(t, &word) {
            return Some(MessageType::Word);
        }
        let command = string_to_chars("COMMAND");
        if vec_char_eq(t, &command) {
            return Some(MessageType::Command);
        }
        let heartbeat = string_to_chars("HEARTBEAT");
        if vec_char_eq(t, &heartbeat) {
            return Some(MessageType::Heartbeat);
        }
        let ack = string_to_chars("ACK");
        if vec_char_eq(t, &ack) {
            return Some(MessageType::Ack);
        }
        None
    }
}

/// One application message: what rides between the peers in a JSON envelope.
/// `payload` is the JSON-encoded payload of plaintext kinds, or base64
/// ciphertext once `sign_and_encrypt` ran; `signature` and `nonce` are set
/// only on authenticated kinds.
pub struct Message {
    pub message_type: MessageType,
    pub id: String,
    pub timestamp: u64,
    pub payload: String,
    pub signature: Option<String>,
    pub nonce: Option<String>,
}

/// The mathematical content of a message.
#[verifier::ext_equal]
pub ghost struct MsgModel {
    pub typ: MessageType,
    pub id: Seq<char>,
    pub timestamp: int,
    pub payload: Seq<char>,
    pub signature: Option<Seq<char>>,
    pub nonce: Option<Seq<char>>,
}

impl View for Message {
    type V = MsgModel;

    open spec fn view(&self) -> MsgModel {
        MsgModel {
            typ: self.message_type,
            id: self.id@,
            timestamp: self.timestamp as int,
            payload: self.payload@,
            signature: match self.signature {
                Some(ref s) => Some(s@),
                None => None,
            },
            nonce: match self.nonce {
                Some(ref s) => Some(s@),
                None => None,
            },
        }
    }
}

/// A model whose encoder output decodes again: the timestamp fits 64 bits.
/// Every `Message` value satisfies this.
pub open spec fn msg_wf(m: MsgModel) -> bool {
    0 <= m.timestamp <= MAX_JSON_UINT
}

/// The members of the envelope object, in the order the encoder writes them.
pub open spec fn msg_fields(m: MsgModel) -> Seq<(Seq<char>, JVal)> {
    let base = seq![
        ("type"@, JVal::S(m.typ.spec_token())),
        ("id"@, JVal::S(m.id)),
        ("timestamp_ms"@, JVal::N(m.timestamp)),
        ("payload"@, JVal::S(m.payload)),
    ];
    let with_sig = match m.signature {
        Some(s) => base.push(("signature"@, JVal::S(s))),
        None => base,
    };
    match m.nonce {
        Some(n) => with_sig.push(("ciphertext_nonce"@, JVal::S(n))),
        None => with_sig,
    }
}

/// What `to_json` writes.
pub open spec fn spec_encode(m: MsgModel) -> Seq<char> {
    print_object(msg_fields(m))
}

/// Reads the optional string member named `key`: absent is `Some(None)`, a
/// string is `Some(Some(..))`, any other value malformed.
pub open spec fn opt_str_field(fields: Seq<(Seq<char>, JVal)>, key: Seq<char>) -> Option<
    Option<Seq<char>>,
> {
    match sp_find(fields, key) {
        None => Some(None),
        Some(JVal::S(s)) => Some(Some(s)),
        Some(JVal::N(_)) => None,
    }
}

/// What `from_json` reads out of the envelope text.
pub open spec fn spec_decode(s: Seq<char>) -> Option<MsgModel> {
    match sp_object(s) {
        None => None,
        Some(fields) => match (
            sp_find(fields, "type"@),
            sp_find(fields, "id"@),
            sp_find(fields, "timestamp_ms"@),
            sp_find(fields, "payload"@),
        ) {
            (Some(JVal::S(t)), Some(JVal::S(id)), Some(JVal::N(ts)), Some(JVal::S(p))) => match (
                MessageType::spec_from_token(t),
                opt_str_field(fields, "signature"@),
                opt_str_field(fields, "ciphertext_nonce"@),
            ) {
                (Some(typ), Some(sig), Some(nonce)) => Some(
                    MsgModel { typ, id, timestamp: ts, payload: p, signature: sig, nonce },
                ),
                _ => None,
            },
            _ => None,
        },
    }
}

impl Message {
    /// Serializes the envelope as compact JSON.
    pub fn to_json(&self) -> (r: String)
        ensures
            r@ == spec_encode(self@),
    {
        let mut fields: Vec<(Vec<char>, JsonValue)> = Vec::new();
        fields.push((string_to_chars("type"), JsonValue::S(string_to_chars(self.message_type.token()))));
        fields.push((string_to_chars("id"), JsonValue::S(string_to_chars(self.id.as_str()))));
        fields.push((string_to_chars("timestamp_ms"), JsonValue::N(self.timestamp)));
        fields.push((string_to_chars("payload"), JsonValue::S(string_to_chars(self.payload.as_str()))));
        match &self.signature {
            Some(s) => {
                fields.push((string_to_chars("signature"), JsonValue::S(string_to_chars(s.as_str()))));
            },
            None => {},
        }
        match &self.nonce {
            Some(n) => {
                fields.push((string_to_chars("ciphertext_nonce"), JsonValue::S(string_to_chars(n.as_str()))));
            },
            None => {},
        }
        proof {
            assert(jfields_view(fields@) =~= msg_fields(self@));
        }
        let out = write_object(&fields);
        chars_to_string(&out)
    }

    /// Parses an envelope; anything the encoder could not have produced in
    /// spirit (bad JSON, unknown type, missing or mistyped required fields)
    /// is a `MalformedEnvelope`.
    pub fn from_json(s: &str) -> (r: Result<Message, ProtocolError>)
        ensures
            match r {
                Ok(m) => spec_decode(s@) == Some(m@),
                Err(e) => spec_decode(s@) is None && e == ProtocolError::MalformedEnvelope,
            },
    {
        let chars = string_to_chars(s);
        let fields = match parse_object(&chars) {
            Some(fs) => fs,
            None => {
                return Err(ProtocolError::MalformedEnvelope);
            },
        };
        let type_key = string_to_chars("type");
        let t = match find_field(&fields, &type_key) {
            Some(i) => match &fields[i].1 {
                JsonValue::S(t) => t,
                JsonValue::N(_) => {
                    return Err(ProtocolError::MalformedEnvelope);
                },
            },
            None => {
                return Err(ProtocolError::MalformedEnvelope);
            },
        };
        let message_type = match MessageType::from_token(t) {
            Some(mt) => mt,
            None => {
                return Err(ProtocolError::MalformedEnvelope);
            },
        };
        let id_key = string_to_chars("id");
        let id = match find_field(&fields, &id_key) {
            Some(i) => match &fields[i].1 {
                JsonValue::S(v) => chars_to_string(v),
                JsonValue::N(_) => {
                    return Err(ProtocolError::MalformedEnvelope);
                },
            },
            None => {
                return Err(ProtocolError::MalformedEnvelope);
            },
        };
        let ts_key = string_to_chars("timestamp_ms");
        let timestamp = match find_field(&fields, &ts_key) {
            Some(i) => match &fields[i].1 {
                JsonValue::N(n) => *n,
                JsonValue::S(_) => {
                    return Err(ProtocolError::MalformedEnvelope);
                },
            },
            None => {
                return Err(ProtocolError::MalformedEnvelope);
            },
        };
        let payload_key = string_to_chars("payload");
        let payload = match find_field(&fields, &payload_key) {
            Some(i) => match &fields[i].1 {
                JsonValue::S(v) => chars_to_string(v),
                JsonValue::N(_) => {
                    return Err(ProtocolError::MalformedEnvelope);
                },
            },
            None => {
                return Err(ProtocolError::MalformedEnvelope);
            },
        };
        let sig_key = string_to_chars("signature");
        let signature = match find_field(&fields, &sig_key) {
            Some(i) => match &fields[i].1 {
                JsonValue::S(v) => Some(chars_to_string(v)),
                JsonValue::N(_) => {
                    return Err(ProtocolError::MalformedEnvelope);
                },
            },
            None => None,
        };
        let nonce_key = string_to_chars("ciphertext_nonce");
        let nonce = match find_field(&fields, &nonce_key) {
            Some(i) => match &fields[i].1 {
                JsonValue::S(v) => Some(chars_to_string(v)),
                JsonValue::N(_) => {
                    return Err(ProtocolError::MalformedEnvelope);
                },
            },
            None => None,
        };
        Ok(Message { message_type, id, timestamp, payload, signature, nonce })
    }
}

/// Decoding inverts encoding: for every well-formed message model, the
/// envelope text the encoder writes decodes to exactly that model.
pub proof fn lemma_codec_roundtrip(m: MsgModel)
    requires
        msg_wf(m),
    ensures
        spec_decode(spec_encode(m)) == Some(m),
{
    let fields = msg_fields(m);
    assert(fields_wf(fields)) by {
        assert(forall|i: int|
            0 <= i < fields.len() ==> #[trigger] fields[i] == fields[i] && crate::json::jval_wf(
                fields[i].1,
            ));
    }
    lemma_object_rt(fields);
    lemma_msg_fields_found(m);
}

proof fn lemma_sp_find_push(fields: Seq<(Seq<char>, JVal)>, x: (Seq<char>, JVal), key: Seq<char>)
    ensures
        sp_find(fields.push(x), key) == match sp_find(fields, key) {
            Some(v) => Some(v),
            None => if x.0 == key {
                Some(x.1)
            } else {
                None
            },
        },
    decreases fields.len(),
{
    if fields.len() == 0 {
        assert(fields.push(x)[0] == x);
        assert(fields.push(x).drop_first() =~= Seq::<(Seq<char>, JVal)>::empty());
    } else {
        assert(fields.push(x)[0] == fields[0]);
        assert(fields.push(x).drop_first() =~= fields.drop_first().push(x));
        lemma_sp_find_push(fields.drop_first(), x, key);
    }
}

proof fn lemma_msg_fields_found(m: MsgModel)
    ensures
        sp_find(msg_fields(m), "type"@) == Some(JVal::S(m.typ.spec_token())),
        sp_find(msg_fields(m), "id"@) == Some(JVal::S(m.id)),
        sp_find(msg_fields(m), "timestamp_ms"@) == Some(JVal::N(m.timestamp)),
        sp_find(msg_fields(m), "payload"@) == Some(JVal::S(m.payload)),
        opt_str_field(msg_fields(m), "signature"@) == Some(m.signature),
        opt_str_field(msg_fields(m), "ciphertext_nonce"@) == Some(m.nonce),
        MessageType::spec_from_token(m.typ.spec_token()) == Some(m.typ),
{
    reveal_strlit("type");
    reveal_strlit("id");
    reveal_strlit("timestamp_ms");
    reveal_strlit("payload");
    reveal_strlit("signature");
    reveal_strlit("ciphertext_nonce");
    reveal_strlit("PAIR_REQ");
    reveal_strlit("PAIR_ACK");
    reveal_strlit("TEXT");
    reveal_strlit("WORD");
    reveal_strlit("COMMAND");
    reveal_strlit("HEARTBEAT");
    reveal_strlit("ACK");
    let e0 = ("type"@, JVal::S(m.typ.spec_token()));
    let e1 = ("id"@, JVal::S(m.id));
    let e2 = ("timestamp_ms"@, JVal::N(m.timestamp));
    let e3 = ("payload"@, JVal::S(m.payload));
    let base = seq![e0, e1, e2, e3];
    assert("type"@.len() == 4);
    assert("id"@.len() == 2);
    assert("timestamp_ms"@.len() == 12);
    assert("payload"@.len() == 7);
    assert("signature"@.len() == 9);
    assert("ciphertext_nonce"@.len() == 16);
    lemma_find_in_base(base, "type"@, Some(e0.1));
    lemma_find_in_base(base, "id"@, Some(e1.1));
    lemma_find_in_base(base, "timestamp_ms"@, Some(e2.1));
    lemma_find_in_base(base, "payload"@, Some(e3.1));
    lemma_find_in_base(base, "signature"@, None);
    lemma_find_in_base(base, "ciphertext_nonce"@, None);
    let with_sig = match m.signature {
        Some(sg) => base.push(("signature"@, JVal::S(sg))),
        None => base,
    };
    let all = match m.nonce {
        Some(n) => with_sig.push(("ciphertext_nonce"@, JVal::S(n))),
        None => with_sig,
    };
    assert(all == msg_fields(m));
    match m.signature {
        Some(sg) => {
            lemma_sp_find_push(base, ("signature"@, JVal::S(sg)), "type"@);
            lemma_sp_find_push(base, ("signature"@, JVal::S(sg)), "id"@);
            lemma_sp_find_push(base, ("signature"@, JVal::S(sg)), "timestamp_ms"@);
            lemma_sp_find_push(base, ("signature"@, JVal::S(sg)), "payload"@);
            lemma_sp_find_push(base, ("signature"@, JVal::S(sg)), "signature"@);
            lemma_sp_find_push(base, ("signature"@, JVal::S(sg)), "ciphertext_nonce"@);
        },
        None => {},
    }
    match m.nonce {
        Some(n) => {
            lemma_sp_find_push(with_sig, ("ciphertext_nonce"@, JVal::S(n)), "type"@);
            lemma_sp_find_push(with_sig, ("ciphertext_nonce"@, JVal::S(n)), "id"@);
            lemma_sp_find_push(with_sig, ("ciphertext_nonce"@, JVal::S(n)), "timestamp_ms"@);
            lemma_sp_find_push(with_sig, ("ciphertext_nonce"@, JVal::S(n)), "payload"@);
            lemma_sp_find_push(with_sig, ("ciphertext_nonce"@, JVal::S(n)), "signature"@);
            lemma_sp_find_push(with_sig, ("ciphertext_nonce"@, JVal::S(n)), "ciphertext_nonce"@);
        },
        None => {},
    }
    match m.typ {
        MessageType::PairReq => {
            assert("PAIR_REQ"@.len() == 8);
        },
        MessageType::PairAck => {
            assert("PAIR_ACK"@.len() == 8 && "PAIR_REQ"@.len() == 8);
            assert("PAIR_ACK"@[5] == 'A' && "PAIR_REQ"@[5] == 'R');
            assert("PAIR_ACK"@ != "PAIR_REQ"@);
        },
        MessageType::Text => {
            assert("TEXT"@.len() == 4 && "PAIR_REQ"@.len() == 8 && "PAIR_ACK"@.len() == 8);
            assert("TEXT"@ != "PAIR_REQ"@);
            assert("TEXT"@ != "PAIR_ACK"@);
        },
        MessageType::Word => {
            assert("WORD"@.len() == 4 && "TEXT"@.len() == 4 && "PAIR_REQ"@.len() == 8
                && "PAIR_ACK"@.len() == 8);
            assert("WORD"@[0] == 'W' && "TEXT"@[0] == 'T');
            assert("WORD"@ != "PAIR_REQ"@);
            assert("WORD"@ != "PAIR_ACK"@);
            assert("WORD"@ != "TEXT"@);
        },
        MessageType::Command => {
            assert("COMMAND"@.len() == 7 && "PAIR_REQ"@.len() == 8 && "PAIR_ACK"@.len() == 8
                && "TEXT"@.len() == 4 && "WORD"@.len() == 4);
            assert("COMMAND"@ != "PAIR_REQ"@);
            assert("COMMAND"@ != "PAIR_ACK"@);
            assert("COMMAND"@ != "TEXT"@);
            assert("COMMAND"@ != "WORD"@);
        },
        MessageType::Heartbeat => {
            assert("HEARTBEAT"@.len() == 9 && "PAIR_REQ"@.len() == 8 && "PAIR_ACK"@.len() == 8
                && "TEXT"@.len() == 4 && "WORD"@.len() == 4 && "COMMAND"@.len() == 7);
            assert("HEARTBEAT"@ != "PAIR_REQ"@);
            assert("HEARTBEAT"@ != "PAIR_ACK"@);
            assert("HEARTBEAT"@ != "TEXT"@);
            assert("HEARTBEAT"@ != "WORD"@);
            assert("HEARTBEAT"@ != "COMMAND"@);
        },
        MessageType::Ack => {
            assert("ACK"@.len() == 3 && "PAIR_REQ"@.len() == 8 && "PAIR_ACK"@.len() == 8
                && "TEXT"@.len() == 4 && "WORD"@.len() == 4 && "COMMAND"@.len() == 7
                && "HEARTBEAT"@.len() == 9);
            assert("ACK"@ != "PAIR_REQ"@);
            assert("ACK"@ != "PAIR_ACK"@);
            assert("ACK"@ != "TEXT"@);
            assert("ACK"@ != "WORD"@);
            assert("ACK"@ != "COMMAND"@);
            assert("ACK"@ != "HEARTBEAT"@);
        },
    }
}

proof fn lemma_find_in_base(base: Seq<(Seq<char>, JVal)>, key: Seq<char>, expect: Option<JVal>)
    requires
        base.len() == 4,
        forall|i: int, j: int|
            0 <= i < j < base.len() ==> #[trigger] base[i].0 != #[trigger] base[j].0,
        match expect {
            Some(v) => exists|i: int| 0 <= i < base.len() && base[i] == (key, v),
            None => forall|i: int| 0 <= i < base.len() ==> #[trigger] base[i].0 != key,
        },
    ensures
        sp_find(base, key) == expect,
{
    let b1 = base.drop_first();
    let b2 = b1.drop_first();
    let b3 = b2.drop_first();
    let b4 = b3.drop_first();
    assert(b1.len() == 3 && b1[0] == base[1] && b1[1] == base[2] && b1[2] == base[3]);
    assert(b2.len() == 2 && b2[0] == base[2] && b2[1] == base[3]);
    assert(b3.len() == 1 && b3[0] == base[3]);
    assert(b4.len() == 0);
    assert(sp_find(b4, key) is None);
    assert(sp_find(b3, key) == if base[3].0 == key {
        Some(base[3].1)
    } else {
        sp_find(b4, key)
    });
    assert(sp_find(b2, key) == if base[2].0 == key {
        Some(base[2].1)
    } else {
        sp_find(b3, key)
    });
    assert(sp_find(b1, key) == if base[1].0 == key {
        Some(base[1].1)
    } else {
        sp_find(b2, key)
    });
    assert(sp_find(base, key) == if base[0].0 == key {
        Some(base[0].1)
    } else {
        sp_find(b1, key)
    });
    match expect {
        Some(v) => {
            let i = choose|i: int| 0 <= i < base.len() && base[i] == (key, v);
            assert(base[i].0 == key && base[i].1 == v);
            assert(forall|j: int| 0 <= j < base.len() && j != i ==> #[trigger] base[j].0 != key);
        },
        None => {},
    }
}

/// A message with its signature and nonce taken off.
pub open spec fn stripped(m: MsgModel) -> MsgModel {
    MsgModel { signature: None, nonce: None, ..m }
}

/// The bytes the signature covers: type, id, timestamp and the (already
/// encrypted, base64) payload, concatenated and UTF-8 encoded.
pub open spec fn sig_input(m: MsgModel) -> Seq<u8> {
    encode_utf8(m.typ.spec_token() + m.id + print_uint(m.timestamp) + m.payload)
}

/// Whether the signature field carries the right tag for the rest of the
/// envelope under the session's signing key.
pub open spec fn auth_ok(m: MsgModel, k: CryptoModel) -> bool {
    m.signature == Some(b64_of(hmac_sha256_of(k.k_mac, sig_input(m))))
}

/// Whether an envelope's nonce and payload have the shape the send path
/// gives them: a 96-bit nonce and a sealed, UTF-8 plaintext, all base64.
/// Every envelope that decrypts has this shape.
pub open spec fn sealed_form(m: MsgModel, k: CryptoModel) -> bool {
    exists|nb: Seq<u8>, p: Seq<u8>|
        {
            &&& nb.len() == 12
            &&& m.nonce == Some(b64_of(nb))
            &&& m.payload == b64_of(seal_of(k.k_enc, nb, p))
            &&& valid_utf8(p)
        }
}

/// The envelope `sign_and_encrypt` turns `m` into under nonce bytes `nb`:
/// payload replaced by the base64 ciphertext, nonce and signature attached.
pub open spec fn sign_image(m: MsgModel, nb: Seq<u8>, k: CryptoModel) -> MsgModel {
    let cipher_payload = b64_of(seal_of(k.k_enc, nb, encode_utf8(m.payload)));
    MsgModel {
        typ: m.typ,
        id: m.id,
        timestamp: m.timestamp,
        payload: cipher_payload,
        signature: Some(
            b64_of(
                hmac_sha256_of(
                    k.k_mac,
                    encode_utf8(
                        m.typ.spec_token() + m.id + print_uint(m.timestamp) + cipher_payload,
                    ),
                ),
            ),
        ),
        nonce: Some(b64_of(nb)),
    }
}

impl Message {
    /// A fresh envelope of the given kind and payload, with a new 128-bit
    /// identifier and the wall clock's timestamp.
    pub fn new(message_type: MessageType, payload: String) -> (r: Message)
        ensures
            r@.typ == message_type,
            r@.payload == payload@,
            r@.signature is None,
            r@.nonce is None,
            r@.id.len() == 32,
    {
        let id_bytes = random_bytes(16);
        let id = bytes_to_hex(&id_bytes);
        proof {
            lemma_hex_seq_len(id_bytes@);
        }
        let timestamp = now_ms();
        Message { message_type, id, timestamp, payload, signature: None, nonce: None }
    }

    /// The ACK for a message: echoes its timestamp, as the replay defense
    /// asks.
    pub fn ack(timestamp: u64) -> (r: Message)
        ensures
            r@.typ == MessageType::Ack,
            r@.timestamp == timestamp,
            r@.payload.len() == 0,
            r@.signature is None,
            r@.nonce is None,
            r@.id.len() == 32,
    {
        let id_bytes = random_bytes(16);
        let id = bytes_to_hex(&id_bytes);
        proof {
            lemma_hex_seq_len(id_bytes@);
        }
        Message {
            message_type: MessageType::Ack,
            id,
            timestamp,
            payload: String::new(),
            signature: None,
            nonce: None,
        }
    }

    /// Encrypts the payload under a fresh random nonce and signs the
    /// envelope. On success the message is exactly the signed image of its
    /// old value under some 96-bit nonce; it fails only when the payload
    /// reaches the cipher's limit, and then the message is unchanged.
    pub fn sign_and_encrypt(&mut self, crypto: &CryptoContext) -> (ok: bool)
        requires
            crypto.wf(),
        ensures
            ok ==> exists|nb: Seq<u8>|
                nb.len() == 12 && final(self)@ == sign_image(old(self)@, nb, crypto@),
            !ok ==> final(self)@ == old(self)@,
            encode_utf8(old(self)@.payload).len() < 64 * 0xFFFF_FFFF ==> ok,
    {
        let plain = string_bytes(self.payload.as_str());
        let sealed = crypto.encrypt(&plain);
        match sealed {
            Some((ct, nonce)) => {
                let cipher_b64 = b64_encode(&ct);
                let nonce_b64 = b64_encode(&nonce);
                let mut sign_text = String::new();
                sign_text.append(self.message_type.token());
                sign_text.append(self.id.as_str());
                let ts = u64_string(self.timestamp);
                sign_text.append(ts.as_str());
                sign_text.append(cipher_b64.as_str());
                let data = string_bytes(sign_text.as_str());
                let tag = crypto.sign(&data);
                let sig_b64 = b64_encode(&tag);
                self.payload = cipher_b64;
                self.signature = Some(sig_b64);
                self.nonce = Some(nonce_b64);
                proof {
                    assert(self@ =~= sign_image(old(self)@, nonce@, crypto@));
                }
                true
            },
            None => false,
        }
    }

    /// Checks the signature and decrypts the payload in place.
    ///
    /// The first ensures clause is the crypto round-trip law: every envelope
    /// that `sign_and_encrypt` produced under this context verifies and
    /// decrypts back to the message it was made from. `AuthFailed` comes
    /// exactly when the signature is absent or wrong; every other failure is
    /// `DecryptFailed`; a failed message is left unchanged.
    pub fn verify_and_decrypt(&mut self, crypto: &CryptoContext) -> (r: Result<
        (),
        ProtocolError,
    >)
        requires
            crypto.wf(),
        ensures
            forall|m0: MsgModel, nb: Seq<u8>|
                nb.len() == 12 && old(self)@ == sign_image(m0, nb, crypto@) ==> (r is Ok
                    && final(self)@ == stripped(m0)),
            r is Ok ==> auth_ok(old(self)@, crypto@),
            r == Err::<(), ProtocolError>(ProtocolError::AuthFailed) <==> !auth_ok(
                old(self)@,
                crypto@,
            ),
            r matches Err(e) ==> (e == ProtocolError::AuthFailed || e
                == ProtocolError::DecryptFailed) && final(self)@ == old(self)@,
            r is Ok ==> exists|plain: Seq<u8>, nb: Seq<u8>|
                {
                    &&& nb.len() == 12
                    &&& old(self)@.nonce == Some(b64_of(nb))
                    &&& old(self)@.payload == b64_of(seal_of(crypto@.k_enc, nb, plain))
                    &&& valid_utf8(plain)
                    &&& final(self)@ == MsgModel {
                        payload: decode_utf8(plain),
                        signature: None,
                        nonce: None,
                        ..old(self)@
                    }
                },
    {
        broadcast use encode_utf8_valid_utf8, encode_utf8_decode_utf8;

        let mut sign_text = String::new();
        sign_text.append(self.message_type.token());
        sign_text.append(self.id.as_str());
        let ts = u64_string(self.timestamp);
        sign_text.append(ts.as_str());
        sign_text.append(self.payload.as_str());
        let data = string_bytes(sign_text.as_str());
        let sig = match &self.signature {
            Some(sg) => sg,
            None => {
                return Err(ProtocolError::AuthFailed);
            },
        };
        let tag = match b64_decode(sig.as_str()) {
            Some(t) => t,
            None => {
                return Err(ProtocolError::AuthFailed);
            },
        };
        if !crypto.verify(&data, &tag) {
            return Err(ProtocolError::AuthFailed);
        }
        let nonce_b64 = match &self.nonce {
            Some(n) => n,
            None => {
                return Err(ProtocolError::DecryptFailed);
            },
        };
        let nonce = match b64_decode(nonce_b64.as_str()) {
            Some(n) => n,
            None => {
                return Err(ProtocolError::DecryptFailed);
            },
        };
        if nonce.len() != 12 {
            return Err(ProtocolError::DecryptFailed);
        }
        let ct = match b64_decode(self.payload.as_str()) {
            Some(c) => c,
            None => {
                return Err(ProtocolError::DecryptFailed);
            },
        };
        let plain = match crypto.decrypt(&ct, &nonce) {
            Ok(p) => p,
            Err(_) => {
                return Err(ProtocolError::DecryptFailed);
            },
        };
        let text = match bytes_to_string(&plain) {
            Some(t) => t,
            None => {
                return Err(ProtocolError::DecryptFailed);
            },
        };
        self.payload = text;
        self.signature = None;
        self.nonce = None;
        proof {
            assert forall|m0: MsgModel, nb0: Seq<u8>|
                nb0.len() == 12 && old(self)@ == sign_image(m0, nb0, crypto@) implies self@
                == stripped(m0) by {
                assert(seal_of(crypto@.k_enc, nb0, encode_utf8(m0.payload)) == ct@);
                assert(nb0 == nonce@);
                assert(encode_utf8(m0.payload) == plain@);
                assert(decode_utf8(plain@) == m0.payload);
                assert(self@ =~= stripped(m0));
            }
            assert(encode_utf8(text@) == plain@);
            assert(decode_utf8(plain@) == text@);
        }
        Ok(())
    }
}

proof fn lemma_hex_seq_len(b: Seq<u8>)
    ensures
        hex_seq(b).len() == 2 * b.len(),
    decreases b.len(),
{
    if b.len() > 0 {
        lemma_hex_seq_len(b.drop_first());
    }
}

} // verus!
