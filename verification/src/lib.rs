//! Verified core of a small peer-to-peer text chat.
//!
//! The crate covers the parts of the chat that carry real design contracts:
//! the length-prefixed transport framing used on a direct connection
//! (`frame`), the authenticated cipher session that protects it (`cipher`),
//! the message envelope exchanged in both direct and gossip mode
//! (`envelope`), the identity registry that maps peer identifiers to display
//! names (`registry`), and the dispatch rules that tie them together
//! (`transport`, `chat`). Process startup, sockets and the gossip overlay
//! itself live outside the library and hand it plain byte values.

use vstd::prelude::*;

pub mod chat;
pub mod cipher;
pub mod endian;
pub mod envelope;
pub mod frame;
pub mod registry;
pub mod transport;

verus! {

/// The error taxonomy of the chat core.
///
/// `FrameTooLarge`: a length prefix exceeds the configured maximum frame
/// size. `ConnectionClosed`: the byte stream ended or does not contain a
/// whole frame. `AuthenticationFailed`: an authenticated decryption did not
/// pass its tag check. `MalformedEnvelope`: envelope bytes do not decode to
/// a known message shape.
#[derive(Clone, Copy, Debug, PartialEq, Eq, Structural)]
pub enum ChatError {
    FrameTooLarge,
    ConnectionClosed,
    AuthenticationFailed,
    MalformedEnvelope,
}

} // verus!
