//! Session crypto: Curve25519 key agreement, key derivation, authenticated
//! encryption and HMAC signing, together with the system sources of
//! randomness and time.
//!
//! The outside primitives stand behind trusted wrappers; what each one
//! returns is named by an uninterpreted function of its arguments, and the
//! library's own logic is verified against those names.

use vstd::prelude::*;
use vstd::slice::slice_to_vec;
use vstd::utf8::{encode_utf8, valid_utf8};
use crate::errors::ProtocolError;

verus! {

/// The RFC 7748 x25519 function of a scalar and a point, 32 bytes each.
pub uninterp spec fn x25519_of(k: Seq<u8>, u: Seq<u8>) -> Seq<u8>;

/// The SHA-256 digest of a byte string.
pub uninterp spec fn sha256_of(b: Seq<u8>) -> Seq<u8>;

/// The HMAC-SHA256 tag of a key and a byte string.
pub uninterp spec fn hmac_sha256_of(key: Seq<u8>, data: Seq<u8>) -> Seq<u8>;

/// The ChaCha20-Poly1305 ciphertext (tag included) of a key, a nonce and a
/// plaintext.
pub uninterp spec fn seal_of(key: Seq<u8>, nonce: Seq<u8>, plain: Seq<u8>) -> Seq<u8>;

/// The standard base64 encoding, with padding, of a byte string.
pub uninterp spec fn b64_of(b: Seq<u8>) -> Seq<char>;

/// Relies on `x25519_dalek::x25519`: the bare, byte-oriented RFC 7748
/// function, a 32-byte result of the two arguments alone.
#[verifier::external_body]
fn x25519_mul(k: &Vec<u8>, u: &Vec<u8>) -> (r: Vec<u8>)
    requires
        k@.len() == 32,
        u@.len() == 32,
    ensures
        r@ == x25519_of(k@, u@),
        r@.len() == 32,
{
    x25519_dalek::x25519(
        k.as_slice().try_into().unwrap(),
        u.as_slice().try_into().unwrap(),
    ).to_vec()
}

/// Relies on `sha2::Sha256`: a 32-byte digest of the input alone.
#[verifier::external_body]
fn sha256(b: &Vec<u8>) -> (r: Vec<u8>)
    ensures
        r@ == sha256_of(b@),
        r@.len() == 32,
{
    <sha2::Sha256 as sha2::Digest>::digest(b.as_slice()).to_vec()
}

/// Relies on `hmac::Hmac` over `sha2::Sha256`: a 32-byte tag of the key and
/// the data alone; any key length is accepted.
#[verifier::external_body]
fn hmac_sha256(key: &Vec<u8>, data: &Vec<u8>) -> (r: Vec<u8>)
    ensures
        r@ == hmac_sha256_of(key@, data@),
        r@.len() == 32,
{
    let mut mac = <hmac::Hmac<sha2::Sha256> as hmac::KeyInit>::new_from_slice(
        key.as_slice(),
    ).expect("any key length is accepted");
    hmac::Mac::update(&mut mac, data.as_slice());
    hmac::Mac::finalize(mac).into_bytes().to_vec()
}

/// Relies on `chacha20poly1305::ChaCha20Poly1305` through the `Aead` trait:
/// encryption is a function of key, nonce and plaintext, with the tag
/// appended; it fails only when the plaintext reaches the cipher's limit of
/// 64·(2^32 − 1) bytes.
#[verifier::external_body]
fn aead_seal(key: &Vec<u8>, nonce: &Vec<u8>, plain: &Vec<u8>) -> (r: Option<Vec<u8>>)
    requires
        key@.len() == 32,
        nonce@.len() == 12,
    ensures
        r matches Some(c) ==> c@ == seal_of(key@, nonce@, plain@),
        r is None ==> plain@.len() >= 64 * 0xFFFF_FFFF,
{
    let cipher = <chacha20poly1305::ChaCha20Poly1305 as chacha20poly1305::KeyInit>::new_from_slice(
        key.as_slice(),
    ).expect("key length checked");
    let n = chacha20poly1305::Nonce::try_from(nonce.as_slice()).expect("nonce length checked");
    chacha20poly1305::aead::Aead::encrypt(&cipher, &n, plain.as_slice()).ok()
}

/// Relies on `chacha20poly1305::ChaCha20Poly1305` through the `Aead` trait:
/// decryption returns the original plaintext of every sealed ciphertext and
/// rejects everything whose tag does not verify.
#[verifier::external_body]
fn aead_open(key: &Vec<u8>, nonce: &Vec<u8>, cipher_text: &Vec<u8>) -> (r: Option<Vec<u8>>)
    requires
        key@.len() == 32,
        nonce@.len() == 12,
    ensures
        r matches Some(q) ==> cipher_text@ == seal_of(key@, nonce@, q@) && (forall|p: Seq<u8>|
            cipher_text@ == seal_of(key@, nonce@, p) ==> p == q@),
        r is None ==> forall|p: Seq<u8>| cipher_text@ != seal_of(key@, nonce@, p),
{
    let cipher = <chacha20poly1305::ChaCha20Poly1305 as chacha20poly1305::KeyInit>::new_from_slice(
        key.as_slice(),
    ).expect("key length checked");
    let n = chacha20poly1305::Nonce::try_from(nonce.as_slice()).expect("nonce length checked");
    chacha20poly1305::aead::Aead::decrypt(&cipher, &n, cipher_text.as_slice()).ok()
}

/// Relies on base64's `STANDARD` engine: encoding is a function of the bytes.
#[verifier::external_body]
pub fn b64_encode(b: &Vec<u8>) -> (r: String)
    ensures
        r@ == b64_of(b@),
{
    base64::Engine::encode(&base64::engine::general_purpose::STANDARD, b.as_slice())
}

/// Relies on base64's `STANDARD` engine: with canonical padding required and
/// trailing bits rejected, decoding accepts exactly the encoder's outputs.
#[verifier::external_body]
pub(crate) fn b64_decode(s: &str) -> (r: Option<Vec<u8>>)
    ensures
        r matches Some(q) ==> s@ == b64_of(q@) && (forall|p: Seq<u8>| s@ == b64_of(p) ==> p
            == q@),
        r is None ==> forall|p: Seq<u8>| s@ != b64_of(p),
{
    base64::Engine::decode(&base64::engine::general_purpose::STANDARD, s).ok()
}

/// Relies on `rand::fill` with the thread RNG; only the length is certain.
#[verifier::external_body]
pub(crate) fn random_bytes(n: usize) -> (r: Vec<u8>)
    ensures
        r@.len() == n,
{
    let mut v = vec![0u8; n];
    rand::fill(&mut v[..]);
    v
}

/// Relies on `std::time::SystemTime::now`: milliseconds since the Unix
/// epoch, zero before it. Nothing is promised of the clock.
#[verifier::external_body]
pub fn now_ms() -> (r: u64)
{
    match std::time::SystemTime::now().duration_since(std::time::UNIX_EPOCH) {
        Ok(d) => d.as_millis() as u64,
        Err(_) => 0,
    }
}

/// Relies on `String::from_utf8`: accepts exactly valid UTF-8 and keeps the
/// bytes.
#[verifier::external_body]
pub(crate) fn bytes_to_string(v: &Vec<u8>) -> (r: Option<String>)
    ensures
        r matches Some(s) ==> encode_utf8(s@) == v@,
        r is None ==> !valid_utf8(v@),
{
    match String::from_utf8(v.clone()) {
        Ok(s) => Some(s),
        Err(_) => None,
    }
}

/// The bytes of a string: its UTF-8 encoding.
pub fn string_bytes(s: &str) -> (r: Vec<u8>)
    ensures
        r@ == encode_utf8(s@),
{
    slice_to_vec(s.as_bytes())
}

/// The x25519 base point, nine then zeros.
pub open spec fn spec_basepoint() -> Seq<u8> {
    Seq::new(32, |i: int| if i == 0 { 9u8 } else { 0u8 })
}

fn basepoint() -> (r: Vec<u8>)
    ensures
        r@ == spec_basepoint(),
{
    let mut v: Vec<u8> = Vec::new();
    v.push(9);
    let mut i: usize = 1;
    while i < 32
        invariant
            1 <= i <= 32,
            v@.len() == i,
            v@[0] == 9u8,
            forall|j: int| 1 <= j < i ==> v@[j] == 0u8,
        decreases 32 - i,
    {
        v.push(0);
        i = i + 1;
    }
    proof {
        assert(v@ =~= spec_basepoint());
    }
    v
}

/// Whether every byte is zero: the degenerate shared secret a low-order
/// peer point produces.
pub open spec fn all_zero(b: Seq<u8>) -> bool {
    forall|i: int| 0 <= i < b.len() ==> b[i] == 0u8
}

fn is_all_zero(b: &Vec<u8>) -> (r: bool)
    ensures
        r == all_zero(b@),
{
    let mut i: usize = 0;
    while i < b.len()
        invariant
            i <= b@.len(),
            forall|j: int| 0 <= j < i ==> b@[j] == 0u8,
        decreases b@.len() - i,
    {
        if b[i] != 0 {
            return false;
        }
        i = i + 1;
    }
    true
}

/// Lexicographic order on byte strings, shorter prefixes first.
pub open spec fn lex_le(a: Seq<u8>, b: Seq<u8>) -> bool
    decreases a.len(),
{
    if a.len() == 0 {
        true
    } else if b.len() == 0 {
        false
    } else if a[0] < b[0] {
        true
    } else if a[0] > b[0] {
        false
    } else {
        lex_le(a.drop_first(), b.drop_first())
    }
}

fn lex_le_exec(a: &Vec<u8>, b: &Vec<u8>) -> (r: bool)
    ensures
        r == lex_le(a@, b@),
{
    let mut i: usize = 0;
    proof {
        assert(a@.skip(0) =~= a@);
        assert(b@.skip(0) =~= b@);
    }
    loop
        invariant
            i <= a@.len(),
            i <= b@.len(),
            lex_le(a@, b@) == lex_le(a@.skip(i as int), b@.skip(i as int)),
        decreases a@.len() - i,
    {
        if i >= a.len() {
            proof {
                assert(a@.skip(i as int).len() == 0);
            }
            return true;
        }
        if i >= b.len() {
            proof {
                assert(b@.skip(i as int).len() == 0);
                assert(a@.skip(i as int).len() > 0);
            }
            return false;
        }
        proof {
            assert(a@.skip(i as int)[0] == a@[i as int]);
            assert(b@.skip(i as int)[0] == b@[i as int]);
            assert(a@.skip(i as int).drop_first() =~= a@.skip((i + 1) as int));
            assert(b@.skip(i as int).drop_first() =~= b@.skip((i + 1) as int));
        }
        if a[i] < b[i] {
            return true;
        }
        if a[i] > b[i] {
            return false;
        }
        i = i + 1;
    }
}

/// Total: two byte strings always compare one way or the other.
proof fn lemma_lex_total(a: Seq<u8>, b: Seq<u8>)
    ensures
        lex_le(a, b) || lex_le(b, a),
    decreases a.len(),
{
    if a.len() > 0 && b.len() > 0 && a[0] == b[0] {
        lemma_lex_total(a.drop_first(), b.drop_first());
    }
}

/// The session keys both peers derive from the shared secret and the two
/// device identities: the identities enter in lexicographic order of their
/// UTF-8 bytes, so the pair is symmetric in them.
pub open spec fn spec_kdf_material(shared: Seq<char>, id_a: Seq<char>, id_b: Seq<char>) -> Seq<
    u8,
> {
    let a = encode_utf8(id_a);
    let b = encode_utf8(id_b);
    let lo = if lex_le(a, b) {
        a
    } else {
        b
    };
    let hi = if lex_le(a, b) {
        b
    } else {
        a
    };
    encode_utf8(shared) + seq![124u8] + lo + seq![124u8] + hi
}

/// The encryption key of a session.
pub open spec fn spec_k_enc(shared: Seq<char>, id_a: Seq<char>, id_b: Seq<char>) -> Seq<u8> {
    sha256_of(spec_kdf_material(shared, id_a, id_b).push(1u8))
}

/// The signing key of a session.
pub open spec fn spec_k_mac(shared: Seq<char>, id_a: Seq<char>, id_b: Seq<char>) -> Seq<u8> {
    sha256_of(spec_kdf_material(shared, id_a, id_b).push(2u8))
}

/// Key derivation is symmetric in the two device identities, except when the
/// two identities' byte strings are equal prefixes of one another in both
/// directions, which means they are equal: both peers derive the same keys.
pub proof fn lemma_kdf_symmetric(shared: Seq<char>, id_a: Seq<char>, id_b: Seq<char>)
    ensures
        spec_k_enc(shared, id_a, id_b) == spec_k_enc(shared, id_b, id_a),
        spec_k_mac(shared, id_a, id_b) == spec_k_mac(shared, id_b, id_a),
{
    let a = encode_utf8(id_a);
    let b = encode_utf8(id_b);
    lemma_lex_total(a, b);
    lemma_lex_antisym(a, b);
    assert(spec_kdf_material(shared, id_a, id_b) =~= spec_kdf_material(shared, id_b, id_a));
}

/// Mutual lexicographic order is equality.
proof fn lemma_lex_antisym(a: Seq<u8>, b: Seq<u8>)
    ensures
        lex_le(a, b) && lex_le(b, a) ==> a == b,
    decreases a.len(),
{
    if a.len() > 0 && b.len() > 0 && a[0] == b[0] {
        lemma_lex_antisym(a.drop_first(), b.drop_first());
        if lex_le(a, b) && lex_le(b, a) {
            assert(a =~= seq![a[0]] + a.drop_first());
            assert(b =~= seq![b[0]] + b.drop_first());
        }
    } else if a.len() == 0 {
        if lex_le(b, a) {
            assert(b.len() == 0);
            assert(a =~= b);
        }
    }
}

/// The mathematical content of a session's crypto context.
#[verifier::ext_equal]
pub ghost struct CryptoModel {
    pub k_enc: Seq<u8>,
    pub k_mac: Seq<u8>,
}

/// Per-session encryption and signing keys.
pub struct CryptoContext {
    k_enc: Vec<u8>,
    k_mac: Vec<u8>,
}

impl View for CryptoContext {
    type V = CryptoModel;

    closed spec fn view(&self) -> CryptoModel {
        CryptoModel { k_enc: self.k_enc@, k_mac: self.k_mac@ }
    }
}

impl CryptoContext {
    /// Keys have their full length.
    pub open spec fn wf(&self) -> bool {
        self@.k_enc.len() == 32 && self@.k_mac.len() == 32
    }

    /// Derives the session keys from the base64 shared secret and the two
    /// device identities, as `spec_k_enc` / `spec_k_mac` say.
    pub fn from_ecdh(shared_secret_b64: &str, peer_device_id: &str, local_device_id: &str) -> (r:
        CryptoContext)
        ensures
            r.wf(),
            r@.k_enc == spec_k_enc(shared_secret_b64@, peer_device_id@, local_device_id@),
            r@.k_mac == spec_k_mac(shared_secret_b64@, peer_device_id@, local_device_id@),
    {
        let a = string_bytes(peer_device_id);
        let b = string_bytes(local_device_id);
        let a_first = lex_le_exec(&a, &b);
        let mut material = string_bytes(shared_secret_b64);
        material.push(124);
        if a_first {
            material.append(&mut a.clone());
            material.push(124);
            material.append(&mut b.clone());
        } else {
            material.append(&mut b.clone());
            material.push(124);
            material.append(&mut a.clone());
        }
        proof {
            assert(material@ =~= spec_kdf_material(
                shared_secret_b64@,
                peer_device_id@,
                local_device_id@,
            ));
        }
        let mut enc_input = material.clone();
        enc_input.push(1);
        let mut mac_input = material;
        mac_input.push(2);
        let k_enc = sha256(&enc_input);
        let k_mac = sha256(&mac_input);
        CryptoContext { k_enc, k_mac }
    }

    /// Encrypts under a fresh 96-bit random nonce; returns the ciphertext
    /// and the nonce. Fails only when the plaintext reaches the cipher's
    /// limit; every shorter plaintext is sealed.
    pub fn encrypt(&self, plain: &Vec<u8>) -> (r: Option<(Vec<u8>, Vec<u8>)>)
        requires
            self.wf(),
        ensures
            r matches Some(p) ==> p.1@.len() == 12 && p.0@ == seal_of(self@.k_enc, p.1@, plain@),
            plain@.len() < 64 * 0xFFFF_FFFF ==> r is Some,
    {
        let nonce = random_bytes(12);
        match aead_seal(&self.k_enc, &nonce, plain) {
            Some(c) => Some((c, nonce)),
            None => None,
        }
    }

    /// Decrypts a ciphertext under its nonce: exactly the sealed ciphertexts
    /// open, and to the plaintext they were sealed from.
    pub fn decrypt(&self, cipher_text: &Vec<u8>, nonce: &Vec<u8>) -> (r: Result<
        Vec<u8>,
        ProtocolError,
    >)
        requires
            self.wf(),
            nonce@.len() == 12,
        ensures
            forall|p: Seq<u8>|
                cipher_text@ == seal_of(self@.k_enc, nonce@, p) ==> (r matches Ok(q) && q@ == p),
            r matches Ok(q) ==> cipher_text@ == seal_of(self@.k_enc, nonce@, q@),
            r matches Err(e) ==> e == ProtocolError::DecryptFailed,
    {
        match aead_open(&self.k_enc, nonce, cipher_text) {
            Some(p) => Ok(p),
            None => Err(ProtocolError::DecryptFailed),
        }
    }

    /// The HMAC-SHA256 tag of `data` under the signing key.
    pub fn sign(&self, data: &Vec<u8>) -> (r: Vec<u8>)
        ensures
            r@ == hmac_sha256_of(self@.k_mac, data@),
            r@.len() == 32,
    {
        hmac_sha256(&self.k_mac, data)
    }

    /// Whether `tag` is the HMAC-SHA256 tag of `data` under the signing key.
    pub fn verify(&self, data: &Vec<u8>, tag: &Vec<u8>) -> (r: bool)
        ensures
            r == (tag@ == hmac_sha256_of(self@.k_mac, data@)),
    {
        let expected = hmac_sha256(&self.k_mac, data);
        vec_u8_eq(&expected, tag)
    }
}

/// Compares two byte vectors.
pub fn vec_u8_eq(a: &Vec<u8>, b: &Vec<u8>) -> (r: bool)
    ensures
        r == (a@ == b@),
{
    if a.len() != b.len() {
        proof {
            assert(a@ != b@);
        }
        return false;
    }
    let mut i: usize = 0;
    while i < a.len()
        invariant
            i <= a@.len() == b@.len(),
            forall|j: int| 0 <= j < i ==> a@[j] == b@[j],
        decreases a@.len() - i,
    {
        if a[i] != b[i] {
            return false;
        }
        i = i + 1;
    }
    proof {
        assert(a@ =~= b@);
    }
    true
}

/// The mathematical content of an ephemeral keypair.
#[verifier::ext_equal]
pub ghost struct KeypairModel {
    pub secret: Seq<u8>,
    pub public: Seq<u8>,
}

/// An ephemeral Curve25519 keypair for one pairing handshake.
pub struct EcdhKeypair {
    secret: Vec<u8>,
    public: Vec<u8>,
}

impl View for EcdhKeypair {
    type V = KeypairModel;

    closed spec fn view(&self) -> KeypairModel {
        KeypairModel { secret: self.secret@, public: self.public@ }
    }
}

impl EcdhKeypair {
    /// Keys have their full length and the public key belongs to the secret.
    pub open spec fn wf(&self) -> bool {
        self@.secret.len() == 32 && self@.public == x25519_of(self@.secret, spec_basepoint())
    }

    /// A fresh keypair from 32 random bytes.
    pub fn generate() -> (r: EcdhKeypair)
        ensures
            r.wf(),
    {
        let secret = random_bytes(32);
        let public = x25519_mul(&secret, &basepoint());
        EcdhKeypair { secret, public }
    }

    /// The public key, base64.
    pub fn public_key_base64(&self) -> (r: String)
        ensures
            r@ == b64_of(self@.public),
    {
        b64_encode(&self.public)
    }

    /// Computes the base64 shared secret against the peer's base64 public
    /// key. A key that is not 32 bytes of base64, or one whose product is
    /// the all-zero point, is a failed handshake.
    pub fn compute_shared_secret_base64(&self, peer_public_b64: &str) -> (r: Result<
        String,
        ProtocolError,
    >)
        requires
            self.wf(),
        ensures
            r matches Ok(s) ==> exists|pb: Seq<u8>|
                {
                    &&& peer_public_b64@ == b64_of(pb)
                    &&& pb.len() == 32
                    &&& s@ == b64_of(x25519_of(self@.secret, pb))
                    &&& !all_zero(x25519_of(self@.secret, pb))
                },
            r matches Err(e) ==> e == ProtocolError::HandshakeFailed,
            (exists|pb: Seq<u8>|
                {
                    &&& peer_public_b64@ == b64_of(pb)
                    &&& pb.len() == 32
                    &&& !all_zero(x25519_of(self@.secret, pb))
                }) ==> r is Ok,
    {
        let peer = match b64_decode(peer_public_b64) {
            Some(p) => p,
            None => {
                return Err(ProtocolError::HandshakeFailed);
            },
        };
        if peer.len() != 32 {
            return Err(ProtocolError::HandshakeFailed);
        }
        let shared = x25519_mul(&self.secret, &peer);
        if is_all_zero(&shared) {
            return Err(ProtocolError::HandshakeFailed);
        }
        Ok(b64_encode(&shared))
    }
}

} // verus!
