//! Local error kinds. None of these ever escape to the wire; they are
//! observable only through logs and Status characteristic transitions.

use vstd::prelude::*;

verus! {

/// Error kinds of the protocol core.
#[derive(Debug, Clone, Copy, PartialEq, Eq, Structural)]
pub enum ProtocolError {
    /// Bad fragment header; the fragment is dropped, the connection kept.
    MalformedFrame,
    /// Reassembly buffer overflow or out-of-order fragment; reassembler reset.
    ReassemblyOverflow,
    /// Bad JSON, unknown message type, or missing required fields.
    MalformedEnvelope,
    /// Signature mismatch on an authenticated message.
    AuthFailed,
    /// Ciphertext that does not decrypt under the session key.
    DecryptFailed,
    /// Data message received before pairing completed.
    UnauthorizedState,
    /// Key agreement produced a zero or otherwise invalid point.
    HandshakeFailed,
    /// A notify send failed; the disconnect path is triggered.
    LinkFailure,
    /// Keystroke injection failed; non-fatal.
    InjectorFailed,
}

impl ProtocolError {
    /// A short stable name for logs.
    pub fn describe(&self) -> (r: &'static str)
        ensures
            r@ == self.spec_describe(),
    {
        match self {
            ProtocolError::MalformedFrame => "malformed frame",
            ProtocolError::ReassemblyOverflow => "reassembly overflow",
            ProtocolError::MalformedEnvelope => "malformed envelope",
            ProtocolError::AuthFailed => "authentication failed",
            ProtocolError::DecryptFailed => "decryption failed",
            ProtocolError::UnauthorizedState => "unauthorized state",
            ProtocolError::HandshakeFailed => "handshake failed",
            ProtocolError::LinkFailure => "link failure",
            ProtocolError::InjectorFailed => "injector failed",
        }
    }

    /// What `describe` returns for each kind.
    pub open spec fn spec_describe(&self) -> Seq<char> {
        match self {
            ProtocolError::MalformedFrame => "malformed frame"@,
            ProtocolError::ReassemblyOverflow => "reassembly overflow"@,
            ProtocolError::MalformedEnvelope => "malformed envelope"@,
            ProtocolError::AuthFailed => "authentication failed"@,
            ProtocolError::DecryptFailed => "decryption failed"@,
            ProtocolError::UnauthorizedState => "unauthorized state"@,
            ProtocolError::HandshakeFailed => "handshake failed"@,
            ProtocolError::LinkFailure => "link failure"@,
            ProtocolError::InjectorFailed => "injector failed"@,
        }
    }
}

} // verus!
