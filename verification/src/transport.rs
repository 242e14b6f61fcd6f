//! What the reader of one connection does next. The reader itself waits
//! on the connection and the inbox; the decisions are made here.

use crate::raft_node::RaftMessage;
use vstd::prelude::*;

verus! {

/// The most that one read takes from a connection. One read is one unit
/// to decode.
pub const READ_BUFFER_SIZE: usize = 1024;

/// The number of messages that the inbox holds before readers wait.
pub const INBOX_CAPACITY: usize = 100;

/// What the reader of a connection has just seen.
#[derive(Debug, Clone, Copy, PartialEq, Eq, Structural)]
pub enum ReaderEvent {
    /// A read of zero bytes: the peer has closed the connection.
    Closed,
    /// A read failed.
    ReadFailed,
    /// What was read decodes to no message.
    Undecodable,
    /// What was read decodes to this message.
    Decoded(RaftMessage),
    /// The inbox took the message.
    Forwarded,
    /// The inbox is gone.
    InboxClosed,
}

/// What the reader of a connection does next.
#[derive(Debug, Clone, Copy, PartialEq, Eq, Structural)]
pub enum ReaderAction {
    /// Wait for the next read.
    Read,
    /// Hand the message to the inbox.
    Forward(RaftMessage),
    /// Leave; other connections are not affected.
    Exit,
}

/// Whether the reader leaves on `event`: when the connection or the inbox
/// has ended, and on nothing else.
pub open spec fn ends_reader(event: ReaderEvent) -> bool {
    event is Closed || event is ReadFailed || event is InboxClosed
}

/// Decides what the reader does after `event`. What does not decode is
/// dropped, and the reader waits for the next read.
pub fn reader_step(event: ReaderEvent) -> (action: ReaderAction)
    ensures
        ends_reader(event) <==> action is Exit,
        event matches ReaderEvent::Decoded(message) ==> action == ReaderAction::Forward(message),
        event is Undecodable || event is Forwarded ==> action is Read,
{
    match event {
        ReaderEvent::Closed => ReaderAction::Exit,
        ReaderEvent::ReadFailed => ReaderAction::Exit,
        ReaderEvent::Undecodable => ReaderAction::Read,
        ReaderEvent::Decoded(message) => ReaderAction::Forward(message),
        ReaderEvent::Forwarded => ReaderAction::Read,
        ReaderEvent::InboxClosed => ReaderAction::Exit,
    }
}

} // verus!
