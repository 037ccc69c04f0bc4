//! The listener's one decision per connection: which transport a new socket
//! speaks, judged by its first bytes and never revised.

use vstd::prelude::*;

verus! {

/// The transport under a connection.
#[derive(Debug, Clone, Copy, PartialEq, Eq, Structural)]
pub enum TransportKind {
    /// A web-socket, which opens with an upgrade request.
    WebSocket,
    /// A raw byte stream that carries frames from the first byte on.
    RawStream,
}

/// Number of bytes that the listener peeks at.
pub const SNIFF_LENGTH: usize = 3;

/// The first bytes of an upgrade request: the letters `GET`.
pub open spec fn upgrade_prefix() -> Seq<u8> {
    seq![0x47u8, 0x45u8, 0x54u8]
}

/// The transport that the peeked bytes point to: a web-socket exactly when
/// at least three bytes were there and they are the upgrade prefix.
pub open spec fn spec_sniff(peeked: Seq<u8>) -> TransportKind {
    if peeked.len() >= SNIFF_LENGTH && peeked.take(SNIFF_LENGTH as int) == upgrade_prefix() {
        TransportKind::WebSocket
    } else {
        TransportKind::RawStream
    }
}

/// Decides the transport of a new connection from the bytes peeked at its
/// start.
pub fn sniff_transport(peeked: &[u8]) -> (kind: TransportKind)
    ensures
        kind == spec_sniff(peeked@),
{
    if peeked.len() >= SNIFF_LENGTH && peeked[0] == 0x47 && peeked[1] == 0x45 && peeked[2]
        == 0x54 {
        assert(peeked@.take(SNIFF_LENGTH as int) =~= upgrade_prefix());
        TransportKind::WebSocket
    } else {
        if peeked.len() >= SNIFF_LENGTH {
            let ghost front = peeked@.take(SNIFF_LENGTH as int);
            assert(front[0] == peeked@[0] && front[1] == peeked@[1] && front[2] == peeked@[2]);
        }
        TransportKind::RawStream
    }
}

} // verus!
