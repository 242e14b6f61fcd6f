use raft::raft_node::RaftMessage;
use raft::transport::{reader_step, ReaderAction, ReaderEvent, READ_BUFFER_SIZE};

#[test]
fn undecodable_bytes_leave_the_connection_open() {
    assert_eq!(reader_step(ReaderEvent::Undecodable), ReaderAction::Read);
    assert_eq!(reader_step(ReaderEvent::Undecodable), ReaderAction::Read);
    assert_eq!(reader_step(ReaderEvent::Closed), ReaderAction::Exit);
}

#[test]
fn decoded_message_goes_to_the_inbox_and_the_reader_reads_on() {
    let message = RaftMessage::AppendEntries { term: 3, leader_id: 9 };
    assert_eq!(reader_step(ReaderEvent::Decoded(message)), ReaderAction::Forward(message));
    assert_eq!(reader_step(ReaderEvent::Forwarded), ReaderAction::Read);
}

#[test]
fn reader_leaves_when_the_connection_or_the_inbox_ends() {
    assert_eq!(reader_step(ReaderEvent::Closed), ReaderAction::Exit);
    assert_eq!(reader_step(ReaderEvent::ReadFailed), ReaderAction::Exit);
    assert_eq!(reader_step(ReaderEvent::InboxClosed), ReaderAction::Exit);
}

#[test]
fn one_read_takes_a_kilobyte_at_most() {
    assert_eq!(READ_BUFFER_SIZE, 1024);
}
