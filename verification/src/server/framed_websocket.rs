//! What makes a message-oriented web-socket look like a byte stream.
//!
//! Only binary messages carry bytes of the frame layer. Their bytes are
//! queued and handed to the reader in order, as many at a time as the
//! reader has room for; nothing is lost and nothing is handed out twice.

use vstd::prelude::*;
use vstd::slice::slice_subrange;

verus! {

/// The kinds of message that a web-socket delivers.
#[derive(Debug, Clone, Copy, PartialEq, Eq, Structural)]
pub enum MessageKind {
    Binary,
    Text,
    Ping,
    Pong,
    Close,
    Frame,
}

/// What the adapter does with an inbound message.
#[derive(Debug, Clone, Copy, PartialEq, Eq, Structural)]
pub enum Inbound {
    /// Its bytes belong to the stream.
    Deliver,
    /// It carries nothing for the stream and is passed over.
    Skip,
    /// The stream ends here, as on a read of zero bytes.
    EndOfStream,
}

/// The treatment that each kind of message gets: binary data is delivered,
/// a close ends the stream without an error, everything else is dropped
/// unread.
pub open spec fn spec_classify(kind: MessageKind) -> Inbound {
    match kind {
        MessageKind::Binary => Inbound::Deliver,
        MessageKind::Close => Inbound::EndOfStream,
        _ => Inbound::Skip,
    }
}

/// Decides what to do with an inbound message of the given kind.
pub fn classify(kind: MessageKind) -> (action: Inbound)
    ensures
        action == spec_classify(kind),
{
    match kind {
        MessageKind::Binary => Inbound::Deliver,
        MessageKind::Close => Inbound::EndOfStream,
        MessageKind::Text | MessageKind::Ping | MessageKind::Pong | MessageKind::Frame => {
            Inbound::Skip
        },
    }
}

/// The bytes of delivered messages that the reader has not taken yet. Its
/// view is those bytes in the order they arrived.
#[derive(Debug)]
pub struct ReadQueue {
    pending: Vec<u8>,
}

impl View for ReadQueue {
    type V = Seq<u8>;

    closed spec fn view(&self) -> Seq<u8> {
        self.pending@
    }
}

impl ReadQueue {
    /// An empty queue.
    pub fn new() -> (queue: Self)
        ensures
            queue@ == Seq::<u8>::empty(),
    {
        ReadQueue { pending: Vec::new() }
    }

    /// Number of bytes waiting.
    pub fn len(&self) -> (n: usize)
        ensures
            n == self@.len(),
    {
        self.pending.len()
    }

    /// Queues the bytes of a binary message behind those already waiting.
    pub fn push_message(&mut self, data: &[u8])
        ensures
            final(self)@ == old(self)@ + data@,
    {
        self.pending.extend_from_slice(data);
    }

    /// The bytes to hand to a reader with room for `capacity`: the front of
    /// the queue, as much of it as fits.
    pub fn front(&self, capacity: usize) -> (chunk: &[u8])
        ensures
            chunk@ == self@.take(
                if capacity <= self@.len() {
                    capacity as int
                } else {
                    self@.len() as int
                },
            ),
    {
        let waiting = self.pending.len();
        let count = if capacity <= waiting {
            capacity
        } else {
            waiting
        };
        slice_subrange(self.pending.as_slice(), 0, count)
    }

    /// Drops the first `count` bytes, which the reader has taken.
    pub fn consume(&mut self, count: usize)
        requires
            count <= old(self)@.len(),
        ensures
            final(self)@ == old(self)@.skip(count as int),
    {
        let rest = self.pending.split_off(count);
        self.pending = rest;
    }
}

} // verus!
