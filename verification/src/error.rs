//! The error taxonomy of the protocol core.

use vstd::prelude::*;

verus! {

/// Failure of decoding an inbound frame.
///
/// `MalformedFrame` marks structurally invalid bytes: a continuation chain
/// past the integer's maximum width, a truncated field, or an invalid
/// discriminant. It is fatal to the session that produced it.
///
/// `UnsupportedVariant` marks a syntactically valid discriminant whose
/// semantics require a capability the receiver lacks, or one the receiver
/// does not know at all.
#[derive(Debug, Clone, Copy, PartialEq, Eq, Structural)]
pub enum DecodeError {
    MalformedFrame,
    UnsupportedVariant,
}

/// Failure of sending on a session: the underlying link is no longer open.
#[derive(Debug, Clone, Copy, PartialEq, Eq, Structural)]
pub enum SendError {
    LinkClosed,
}

/// Failure of opening an outbound session, surfaced to the caller of
/// `open_session` and never retried internally.
#[derive(Debug, Clone, Copy, PartialEq, Eq, Structural)]
pub enum ConnectError {
    LocatorUnreachable,
    HandshakeFailed,
}

} // verus!
