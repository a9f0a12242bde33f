//! A verified core for a WebSocket server: the frame codec (decoding and
//! encoding of wire frames, including extended lengths, masking and the
//! control-frame rules), the upgrade-handshake validation with its accept
//! token, the per-connection protocol state machine, and the registry that
//! keys live connections by identifier.
//!
//! Socket and multiplexer I/O, and the incremental HTTP header tokenizer,
//! are external collaborators: they hand this library plain bytes and header
//! pairs and write out the bytes it queues.
use vstd::prelude::*;

pub mod connection;
pub mod frame;
pub mod handshake;
pub mod registry;

verus! {

/// A fresh copy of a byte vector.
pub fn clone_bytes(v: &Vec<u8>) -> (r: Vec<u8>)
    ensures
        r@ == v@,
{
    let mut r: Vec<u8> = Vec::new();
    frame::append_bytes(&mut r, v);
    proof {
        assert(r@ =~= v@);
    }
    r
}

/// The failures the protocol core can report.
///
/// `WouldBlock`, I/O faults and "need more data" are not here: the first two
/// belong to the socket boundary outside this library, and an incomplete
/// frame is reported by the codec as `DecodeOutcome::NeedMoreData`, which is
/// not an error.
#[derive(Clone, Copy, Debug, PartialEq, Eq, Structural)]
pub enum WsError {
    /// The HTTP request is not a well-formed WebSocket upgrade request.
    BadHandshake,
    /// A malformed frame or a forbidden opcode / reserved-bit combination.
    ProtocolError,
    /// The caller asked to encode a control frame with a payload over 125 bytes.
    InvalidFrame,
}

} // verus!
