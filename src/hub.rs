//! The hub's rules for a new agent connection: the handshake it must open
//! with, and the nickname it is listed under.

use crate::proto::{BackendMessage, Handshake, NoIdBackendMessage, PROTOCOL_VERSION};
use vstd::prelude::*;

verus! {

/// Why an agent's handshake was refused.
#[derive(Debug, Clone, Copy, PartialEq, Eq, Structural)]
pub enum HandshakeError {
    /// The agent disconnected before sending anything.
    Disconnected,
    /// The first message was not a handshake.
    NotHandshake,
    /// The agent speaks another protocol version (the one it sent).
    VersionMismatch(u32),
}

/// Accepts the first message of a connection if it is a handshake of this
/// protocol version; `None` stands for a stream that ended first.
pub fn check_handshake(first: Option<BackendMessage>) -> (r: Result<Handshake, HandshakeError>)
    ensures
        match first {
            None => r == Err::<Handshake, HandshakeError>(HandshakeError::Disconnected),
            Some(BackendMessage::Id(_, _)) => r == Err::<Handshake, HandshakeError>(
                HandshakeError::NotHandshake,
            ),
            Some(BackendMessage::NoId(NoIdBackendMessage::Handshake(h))) => if h.version
                == PROTOCOL_VERSION {
                r == Ok::<Handshake, HandshakeError>(h)
            } else {
                r == Err::<Handshake, HandshakeError>(HandshakeError::VersionMismatch(h.version))
            },
        },
{
    match first {
        None => Err(HandshakeError::Disconnected),
        Some(BackendMessage::Id(_, _)) => Err(HandshakeError::NotHandshake),
        Some(BackendMessage::NoId(NoIdBackendMessage::Handshake(h))) => {
            if h.version == PROTOCOL_VERSION {
                Ok(h)
            } else {
                Err(HandshakeError::VersionMismatch(h.version))
            }
        },
    }
}

/// The name an agent is listed under: its own nickname, or the textual form
/// of its address when the nickname is empty.
pub fn determine_nickname(handshake: Handshake, addr_text: String) -> (r: String)
    ensures
        r@ == if handshake.nickname@.len() > 0 {
            handshake.nickname@
        } else {
            addr_text@
        },
{
    if !handshake.nickname.as_str().is_empty() {
        handshake.nickname
    } else {
        addr_text
    }
}

} // verus!
