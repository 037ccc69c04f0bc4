//! The life of one session: what the server does next, given what the
//! connection just delivered.
//!
//! The loop that reads from the connection and writes to it lives with the
//! transport. Here is only the decision: from the state of the session and
//! an event to the next state and the action to perform.

use crate::coding::buffer::bytes_copy_from_slice;
use crate::networking::error::NetworkingError;
use crate::networking::packet::{spec_dispatch, Packet, PacketView};
use crate::networking::raw_packet::{RawPacket, RawPacketView};
use vstd::prelude::*;
use vstd::string::StringSliceAdditionalSpecFns;

verus! {

/// Where a session stands.
#[derive(Debug, Clone, Copy, PartialEq, Eq, Structural)]
pub enum SessionState {
    /// Accepted; no frame was exchanged yet.
    Handshake,
    /// At least one packet was decoded.
    Active,
    /// Over. Nothing leads out of this state.
    Disconnected,
}

/// When a user joined and when the server last heard from them, in
/// milliseconds on the server's clock.
#[derive(Debug, Clone, Copy, PartialEq, Eq, Structural)]
pub struct UserStats {
    /// The moment the user joined.
    pub join_at: u64,
    /// The moment of the last frame from the user, if there was one.
    pub last_interaction: Option<u64>,
}

/// What a connection delivers to its session.
#[derive(Debug, PartialEq)]
pub enum SessionEvent {
    /// A whole frame.
    Frame(RawPacket),
    /// Bytes that the framing layer refused.
    Rejected(NetworkingError),
    /// The peer closed the stream between two frames.
    EndOfStream,
    /// The transport failed.
    TransportFailed,
}

/// A `SessionEvent` as plain values.
pub enum SessionEventView {
    Frame(RawPacketView),
    Rejected(NetworkingError),
    EndOfStream,
    TransportFailed,
}

impl View for SessionEvent {
    type V = SessionEventView;

    open spec fn view(&self) -> SessionEventView {
        match self {
            SessionEvent::Frame(raw) => SessionEventView::Frame(raw@),
            SessionEvent::Rejected(e) => SessionEventView::Rejected(*e),
            SessionEvent::EndOfStream => SessionEventView::EndOfStream,
            SessionEvent::TransportFailed => SessionEventView::TransportFailed,
        }
    }
}

/// What the server does in answer to an event.
#[derive(Debug, PartialEq)]
pub enum SessionAction {
    /// Hand the packet to its handler, then read on.
    Handle(Packet),
    /// Send this frame if the connection still takes it, then close.
    Reject(RawPacket),
    /// Close without sending anything.
    Close,
}

/// A `SessionAction` as plain values.
pub enum SessionActionView {
    Handle(PacketView),
    Reject(RawPacketView),
    Close,
}

impl View for SessionAction {
    type V = SessionActionView;

    open spec fn view(&self) -> SessionActionView {
        match self {
            SessionAction::Handle(packet) => SessionActionView::Handle(packet@),
            SessionAction::Reject(raw) => SessionActionView::Reject(raw@),
            SessionAction::Close => SessionActionView::Close,
        }
    }
}

/// The type tag of the frame that tells a peer that its data was refused.
pub const REJECTION_PACKET_TYPE: u8 = 1;

/// The frame that tells a peer that its data was refused.
pub open spec fn spec_rejection() -> RawPacketView {
    RawPacketView { packet_type: REJECTION_PACKET_TYPE, payload: "wrong packet".spec_bytes() }
}

/// The next state and the action for an event.
///
/// A frame that decodes is handled and makes the session active. A frame
/// that does not decode, and bytes that the framing layer refused while the
/// peer is still there, are answered with the rejection frame and end the
/// session. The end of the stream and a failed transport end it without a
/// word. A session that is over stays over.
pub open spec fn spec_step(state: SessionState, event: SessionEventView) -> (
    SessionState,
    SessionActionView,
) {
    if state == SessionState::Disconnected {
        (SessionState::Disconnected, SessionActionView::Close)
    } else {
        match event {
            SessionEventView::Frame(raw) => match spec_dispatch(raw) {
                Ok(packet) => (SessionState::Active, SessionActionView::Handle(packet)),
                Err(_) => (
                    SessionState::Disconnected,
                    SessionActionView::Reject(spec_rejection()),
                ),
            },
            SessionEventView::Rejected(e) => if e == NetworkingError::TransportClosed {
                (SessionState::Disconnected, SessionActionView::Close)
            } else {
                (SessionState::Disconnected, SessionActionView::Reject(spec_rejection()))
            },
            SessionEventView::EndOfStream => (SessionState::Disconnected, SessionActionView::Close),
            SessionEventView::TransportFailed => (
                SessionState::Disconnected,
                SessionActionView::Close,
            ),
        }
    }
}

/// The server's side of one connected client.
#[derive(Debug)]
pub struct Session {
    id: u128,
    state: SessionState,
    stats: UserStats,
}

/// A `Session` as plain values.
pub struct SessionView {
    pub id: u128,
    pub state: SessionState,
    pub stats: UserStats,
}

impl View for Session {
    type V = SessionView;

    closed spec fn view(&self) -> SessionView {
        SessionView { id: self.id, state: self.state, stats: self.stats }
    }
}

/// The frame that tells a peer that its data was refused.
fn rejection() -> (raw: RawPacket)
    ensures
        raw@ == spec_rejection(),
{
    RawPacket::new(REJECTION_PACKET_TYPE, bytes_copy_from_slice("wrong packet".as_bytes()))
}

impl Session {
    /// A session for a client accepted at `now`, under the identity `id`.
    pub fn new(id: u128, now: u64) -> (session: Self)
        ensures
            session@ == (SessionView {
                id,
                state: SessionState::Handshake,
                stats: UserStats { join_at: now, last_interaction: None },
            }),
    {
        Session {
            id,
            state: SessionState::Handshake,
            stats: UserStats { join_at: now, last_interaction: None },
        }
    }

    /// The identity of the session, the key under which it is filed.
    pub fn id(&self) -> (id: u128)
        ensures
            id == self@.id,
    {
        self.id
    }

    /// Where the session stands.
    pub fn state(&self) -> (state: SessionState)
        ensures
            state == self@.state,
    {
        self.state
    }

    /// When the user joined and was last heard from.
    pub fn stats(&self) -> (stats: UserStats)
        ensures
            stats == self@.stats,
    {
        self.stats
    }

    /// Takes in what the connection delivered at `now` and says what to do.
    /// A frame that reaches a live session counts as an interaction.
    pub fn on_event(&mut self, event: SessionEvent, now: u64) -> (action: SessionAction)
        ensures
            final(self)@.id == old(self)@.id,
            final(self)@.state == spec_step(old(self)@.state, event@).0,
            action@ == spec_step(old(self)@.state, event@).1,
            final(self)@.stats.join_at == old(self)@.stats.join_at,
            final(self)@.stats.last_interaction == (if old(self)@.state
                != SessionState::Disconnected && event is Frame {
                Some(now)
            } else {
                old(self)@.stats.last_interaction
            }),
    {
        match self.state {
            SessionState::Disconnected => {
                return SessionAction::Close;
            },
            _ => {},
        }
        match event {
            SessionEvent::Frame(raw) => {
                self.stats.last_interaction = Some(now);
                match Packet::from(raw) {
                    Ok(packet) => {
                        self.state = SessionState::Active;
                        SessionAction::Handle(packet)
                    },
                    Err(_) => {
                        self.state = SessionState::Disconnected;
                        SessionAction::Reject(rejection())
                    },
                }
            },
            SessionEvent::Rejected(e) => {
                self.state = SessionState::Disconnected;
                match e {
                    NetworkingError::TransportClosed => SessionAction::Close,
                    _ => SessionAction::Reject(rejection()),
                }
            },
            SessionEvent::EndOfStream => {
                self.state = SessionState::Disconnected;
                SessionAction::Close
            },
            SessionEvent::TransportFailed => {
                self.state = SessionState::Disconnected;
                SessionAction::Close
            },
        }
    }
}

/// Nothing leads out of `Disconnected`, and every event that is no decoded
/// frame leads into it.
pub proof fn lemma_disconnected_is_terminal(state: SessionState, event: SessionEventView)
    ensures
        state == SessionState::Disconnected ==> spec_step(state, event) == (
            SessionState::Disconnected,
            SessionActionView::Close,
        ),
        spec_step(state, event).0 == SessionState::Active || spec_step(state, event).0
            == SessionState::Disconnected,
        spec_step(state, event).0 == SessionState::Active <==> spec_step(state, event).1 is Handle,
{
}

} // verus!
