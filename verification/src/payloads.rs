//! The typed payloads that ride inside the envelope: pairing request and
//! acknowledgement, and the per-word delivery of the speech stream.

use vstd::prelude::*;
use crate::errors::ProtocolError;
use crate::json::{
    JVal, JsonValue, chars_to_string, find_field, jfields_view, parse_object, print_object,
    sp_find, sp_object, string_to_chars, write_object,
};

verus! {

/// Reads an optional string member: absent is `Some(None)`, a string is
/// `Some(Some(..))`, any other value malformed.
pub open spec fn opt_str(fields: Seq<(Seq<char>, JVal)>, key: Seq<char>) -> Option<
    Option<Seq<char>>,
> {
    match sp_find(fields, key) {
        None => Some(None),
        Some(JVal::S(s)) => Some(Some(s)),
        Some(JVal::N(_)) => None,
    }
}

/// Reads an optional number member the same way.
pub open spec fn opt_num(fields: Seq<(Seq<char>, JVal)>, key: Seq<char>) -> Option<Option<int>> {
    match sp_find(fields, key) {
        None => Some(None),
        Some(JVal::N(n)) => Some(Some(n)),
        Some(JVal::S(_)) => None,
    }
}

/// What the phone sends to ask for pairing.
pub struct PairRequestPayload {
    pub device_id: String,
    pub device_name: Option<String>,
    pub public_key: String,
}

/// The mathematical content of a pairing request.
#[verifier::ext_equal]
pub ghost struct PairReqModel {
    pub device_id: Seq<char>,
    pub device_name: Option<Seq<char>>,
    pub public_key: Seq<char>,
}

impl View for PairRequestPayload {
    type V = PairReqModel;

    open spec fn view(&self) -> PairReqModel {
        PairReqModel {
            device_id: self.device_id@,
            device_name: match self.device_name {
                Some(ref n) => Some(n@),
                None => None,
            },
            public_key: self.public_key@,
        }
    }
}

/// What `PairRequestPayload::from_json` reads.
pub open spec fn spec_decode_pair_req(s: Seq<char>) -> Option<PairReqModel> {
    match sp_object(s) {
        None => None,
        Some(fields) => match (
            sp_find(fields, "device_id"@),
            opt_str(fields, "device_name"@),
            sp_find(fields, "public_key"@),
        ) {
            (Some(JVal::S(id)), Some(name), Some(JVal::S(key))) => Some(
                PairReqModel { device_id: id, device_name: name, public_key: key },
            ),
            _ => None,
        },
    }
}

/// The members of a pairing request, in the order `to_json` writes them.
pub open spec fn pair_req_fields(m: PairReqModel) -> Seq<(Seq<char>, JVal)> {
    let base = seq![("device_id"@, JVal::S(m.device_id))];
    let with_name = match m.device_name {
        Some(n) => base.push(("device_name"@, JVal::S(n))),
        None => base,
    };
    with_name.push(("public_key"@, JVal::S(m.public_key)))
}

impl PairRequestPayload {
    /// Serializes the payload as compact JSON.
    pub fn to_json(&self) -> (r: String)
        ensures
            r@ == print_object(pair_req_fields(self@)),
    {
        let mut fields: Vec<(Vec<char>, JsonValue)> = Vec::new();
        fields.push((string_to_chars("device_id"), JsonValue::S(string_to_chars(self.device_id.as_str()))));
        match &self.device_name {
            Some(n) => {
                fields.push((string_to_chars("device_name"), JsonValue::S(string_to_chars(n.as_str()))));
            },
            None => {},
        }
        fields.push((string_to_chars("public_key"), JsonValue::S(string_to_chars(self.public_key.as_str()))));
        proof {
            assert(jfields_view(fields@) =~= pair_req_fields(self@));
        }
        let out = write_object(&fields);
        chars_to_string(&out)
    }

    /// Parses a pairing request payload.
    pub fn from_json(s: &str) -> (r: Result<PairRequestPayload, ProtocolError>)
        ensures
            match r {
                Ok(p) => spec_decode_pair_req(s@) == Some(p@),
                Err(e) => spec_decode_pair_req(s@) is None && e
                    == ProtocolError::MalformedEnvelope,
            },
    {
        let chars = string_to_chars(s);
        let fields = match parse_object(&chars) {
            Some(fs) => fs,
            None => {
                return Err(ProtocolError::MalformedEnvelope);
            },
        };
        let id_key = string_to_chars("device_id");
        let device_id = match find_field(&fields, &id_key) {
            Some(i) => match &fields[i].1 {
                JsonValue::S(v) => chars_to_string(v),
                JsonValue::N(_) => {
                    return Err(ProtocolError::MalformedEnvelope);
                },
            },
            None => {
                return Err(ProtocolError::MalformedEnvelope);
            },
        };
        let name_key = string_to_chars("device_name");
        let device_name = match find_field(&fields, &name_key) {
            Some(i) => match &fields[i].1 {
                JsonValue::S(v) => Some(chars_to_string(v)),
                JsonValue::N(_) => {
                    return Err(ProtocolError::MalformedEnvelope);
                },
            },
            None => None,
        };
        let key_key = string_to_chars("public_key");
        let public_key = match find_field(&fields, &key_key) {
            Some(i) => match &fields[i].1 {
                JsonValue::S(v) => chars_to_string(v),
                JsonValue::N(_) => {
                    return Err(ProtocolError::MalformedEnvelope);
                },
            },
            None => {
                return Err(ProtocolError::MalformedEnvelope);
            },
        };
        Ok(PairRequestPayload { device_id, device_name, public_key })
    }
}

/// What the desktop answers a pairing request with.
pub struct PairAckPayload {
    pub device_id: String,
    pub status: String,
    pub public_key: Option<String>,
    pub reason: Option<String>,
}

/// The mathematical content of a pairing acknowledgement.
#[verifier::ext_equal]
pub ghost struct PairAckModel {
    pub device_id: Seq<char>,
    pub status: Seq<char>,
    pub public_key: Option<Seq<char>>,
    pub reason: Option<Seq<char>>,
}

impl View for PairAckPayload {
    type V = PairAckModel;

    open spec fn view(&self) -> PairAckModel {
        PairAckModel {
            device_id: self.device_id@,
            status: self.status@,
            public_key: match self.public_key {
                Some(ref k) => Some(k@),
                None => None,
            },
            reason: match self.reason {
                Some(ref t) => Some(t@),
                None => None,
            },
        }
    }
}

/// The members of a pairing acknowledgement, in the order `to_json` writes
/// them.
pub open spec fn pair_ack_fields(m: PairAckModel) -> Seq<(Seq<char>, JVal)> {
    let base = seq![("device_id"@, JVal::S(m.device_id)), ("status"@, JVal::S(m.status))];
    let with_key = match m.public_key {
        Some(k) => base.push(("public_key"@, JVal::S(k))),
        None => base,
    };
    match m.reason {
        Some(t) => with_key.push(("reason"@, JVal::S(t))),
        None => with_key,
    }
}

/// What `PairAckPayload::from_json` reads.
pub open spec fn spec_decode_pair_ack(s: Seq<char>) -> Option<PairAckModel> {
    match sp_object(s) {
        None => None,
        Some(fields) => match (
            sp_find(fields, "device_id"@),
            sp_find(fields, "status"@),
            opt_str(fields, "public_key"@),
            opt_str(fields, "reason"@),
        ) {
            (Some(JVal::S(id)), Some(JVal::S(st)), Some(key), Some(reason)) => Some(
                PairAckModel { device_id: id, status: st, public_key: key, reason },
            ),
            _ => None,
        },
    }
}

impl PairAckPayload {
    /// The acknowledgement of an accepted pairing, carrying this side's
    /// public key.
    pub fn success_with_key(device_id: &str, public_key: String) -> (r: PairAckPayload)
        ensures
            r@.device_id == device_id@,
            r@.status == "ok"@,
            r@.public_key == Some(public_key@),
            r@.reason is None,
    {
        PairAckPayload {
            device_id: device_id.to_owned(),
            status: "ok".to_owned(),
            public_key: Some(public_key),
            reason: None,
        }
    }

    /// The acknowledgement of a rejected or failed pairing.
    pub fn error(device_id: &str, reason: &str) -> (r: PairAckPayload)
        ensures
            r@.device_id == device_id@,
            r@.status == "error"@,
            r@.public_key is None,
            r@.reason == Some(reason@),
    {
        PairAckPayload {
            device_id: device_id.to_owned(),
            status: "error".to_owned(),
            public_key: None,
            reason: Some(reason.to_owned()),
        }
    }

    /// Serializes the payload as compact JSON.
    pub fn to_json(&self) -> (r: String)
        ensures
            r@ == print_object(pair_ack_fields(self@)),
    {
        let mut fields: Vec<(Vec<char>, JsonValue)> = Vec::new();
        fields.push((string_to_chars("device_id"), JsonValue::S(string_to_chars(self.device_id.as_str()))));
        fields.push((string_to_chars("status"), JsonValue::S(string_to_chars(self.status.as_str()))));
        match &self.public_key {
            Some(k) => {
                fields.push((string_to_chars("public_key"), JsonValue::S(string_to_chars(k.as_str()))));
            },
            None => {},
        }
        match &self.reason {
            Some(t) => {
                fields.push((string_to_chars("reason"), JsonValue::S(string_to_chars(t.as_str()))));
            },
            None => {},
        }
        proof {
            assert(jfields_view(fields@) =~= pair_ack_fields(self@));
        }
        let out = write_object(&fields);
        chars_to_string(&out)
    }

    /// Parses a pairing acknowledgement payload.
    pub fn from_json(s: &str) -> (r: Result<PairAckPayload, ProtocolError>)
        ensures
            match r {
                Ok(p) => spec_decode_pair_ack(s@) == Some(p@),
                Err(e) => spec_decode_pair_ack(s@) is None && e
                    == ProtocolError::MalformedEnvelope,
            },
    {
        let chars = string_to_chars(s);
        let fields = match parse_object(&chars) {
            Some(fs) => fs,
            None => {
                return Err(ProtocolError::MalformedEnvelope);
            },
        };
        let id_key = string_to_chars("device_id");
        let device_id = match find_field(&fields, &id_key) {
            Some(i) => match &fields[i].1 {
                JsonValue::S(v) => chars_to_string(v),
                JsonValue::N(_) => {
                    return Err(ProtocolError::MalformedEnvelope);
                },
            },
            None => {
                return Err(ProtocolError::MalformedEnvelope);
            },
        };
        let status_key = string_to_chars("status");
        let status = match find_field(&fields, &status_key) {
            Some(i) => match &fields[i].1 {
                JsonValue::S(v) => chars_to_string(v),
                JsonValue::N(_) => {
                    return Err(ProtocolError::MalformedEnvelope);
                },
            },
            None => {
                return Err(ProtocolError::MalformedEnvelope);
            },
        };
        let key_key = string_to_chars("public_key");
        let public_key = match find_field(&fields, &key_key) {
            Some(i) => match &fields[i].1 {
                JsonValue::S(v) => Some(chars_to_string(v)),
                JsonValue::N(_) => {
                    return Err(ProtocolError::MalformedEnvelope);
                },
            },
            None => None,
        };
        let reason_key = string_to_chars("reason");
        let reason = match find_field(&fields, &reason_key) {
            Some(i) => match &fields[i].1 {
                JsonValue::S(v) => Some(chars_to_string(v)),
                JsonValue::N(_) => {
                    return Err(ProtocolError::MalformedEnvelope);
                },
            },
            None => None,
        };
        Ok(PairAckPayload { device_id, status, public_key, reason })
    }
}

/// One word of the live speech stream.
pub struct WordPayload {
    pub word: String,
    pub seq: Option<u64>,
    pub session: String,
}

/// The mathematical content of a word delivery.
#[verifier::ext_equal]
pub ghost struct WordModel {
    pub word: Seq<char>,
    pub seq: Option<int>,
    pub session: Seq<char>,
}

impl View for WordPayload {
    type V = WordModel;

    open spec fn view(&self) -> WordModel {
        WordModel {
            word: self.word@,
            seq: match self.seq {
                Some(n) => Some(n as int),
                None => None,
            },
            session: self.session@,
        }
    }
}

/// What `WordPayload::from_json` reads.
pub open spec fn spec_decode_word(s: Seq<char>) -> Option<WordModel> {
    match sp_object(s) {
        None => None,
        Some(fields) => match (
            sp_find(fields, "word"@),
            opt_num(fields, "seq"@),
            sp_find(fields, "session"@),
        ) {
            (Some(JVal::S(w)), Some(seq_no), Some(JVal::S(sess))) => Some(
                WordModel { word: w, seq: seq_no, session: sess },
            ),
            _ => None,
        },
    }
}

/// The members of a word delivery, in the order `to_json` writes them.
pub open spec fn word_fields(m: WordModel) -> Seq<(Seq<char>, JVal)> {
    let base = seq![("word"@, JVal::S(m.word))];
    let with_seq = match m.seq {
        Some(n) => base.push(("seq"@, JVal::N(n))),
        None => base,
    };
    with_seq.push(("session"@, JVal::S(m.session)))
}

impl WordPayload {
    /// Serializes the payload as compact JSON.
    pub fn to_json(&self) -> (r: String)
        ensures
            r@ == print_object(word_fields(self@)),
    {
        let mut fields: Vec<(Vec<char>, JsonValue)> = Vec::new();
        fields.push((string_to_chars("word"), JsonValue::S(string_to_chars(self.word.as_str()))));
        match self.seq {
            Some(n) => {
                fields.push((string_to_chars("seq"), JsonValue::N(n)));
            },
            None => {},
        }
        fields.push((string_to_chars("session"), JsonValue::S(string_to_chars(self.session.as_str()))));
        proof {
            assert(jfields_view(fields@) =~= word_fields(self@));
        }
        let out = write_object(&fields);
        chars_to_string(&out)
    }

    /// Parses a word delivery payload.
    pub fn from_json(s: &str) -> (r: Result<WordPayload, ProtocolError>)
        ensures
            match r {
                Ok(p) => spec_decode_word(s@) == Some(p@),
                Err(e) => spec_decode_word(s@) is None && e == ProtocolError::MalformedEnvelope,
            },
    {
        let chars = string_to_chars(s);
        let fields = match parse_object(&chars) {
            Some(fs) => fs,
            None => {
                return Err(ProtocolError::MalformedEnvelope);
            },
        };
        let word_key = string_to_chars("word");
        let word = match find_field(&fields, &word_key) {
            Some(i) => match &fields[i].1 {
                JsonValue::S(v) => chars_to_string(v),
                JsonValue::N(_) => {
                    return Err(ProtocolError::MalformedEnvelope);
                },
            },
            None => {
                return Err(ProtocolError::MalformedEnvelope);
            },
        };
        let seq_key = string_to_chars("seq");
        let seq = match find_field(&fields, &seq_key) {
            Some(i) => match &fields[i].1 {
                JsonValue::N(n) => Some(*n),
                JsonValue::S(_) => {
                    return Err(ProtocolError::MalformedEnvelope);
                },
            },
            None => None,
        };
        let session_key = string_to_chars("session");
        let session = match find_field(&fields, &session_key) {
            Some(i) => match &fields[i].1 {
                JsonValue::S(v) => chars_to_string(v),
                JsonValue::N(_) => {
                    return Err(ProtocolError::MalformedEnvelope);
                },
            },
            None => {
                return Err(ProtocolError::MalformedEnvelope);
            },
        };
        Ok(WordPayload { word, seq, session })
    }
}

} // verus!
