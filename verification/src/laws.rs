//! What holds of one peer whatever messages reach it.

use crate::model::NodeView;
use crate::raft_node::{
    Envelope, Event, NodeState, RaftMessage, ELECTION_TIMEOUT_SECS, HEARTBEAT_PERIOD_SECS,
};
use vstd::prelude::*;

verus! {

/// The state after all of `messages` have been handled, first to last.
pub open spec fn handle_all(start: NodeView, messages: Seq<RaftMessage>) -> NodeView
    decreases messages.len(),
{
    if messages.len() == 0 {
        start
    } else {
        handle_all(start, messages.drop_last()).handle(messages.last())
    }
}

/// Whether `message` asks for a vote in `term`.
pub open spec fn requests_vote_in(message: RaftMessage, term: u64) -> bool {
    message matches RaftMessage::RequestVote { term: t, .. } && t == term
}

/// Whether every one of `messages` asks for a vote in `term`.
pub open spec fn all_request_votes_in(messages: Seq<RaftMessage>, term: u64) -> bool {
    forall|i: int| 0 <= i < messages.len() ==> requests_vote_in(#[trigger] messages[i], term)
}

/// No event moves the term backwards.
pub proof fn lemma_dispatch_term_never_decreases(node: NodeView, event: Event)
    requires
        node.can_dispatch(event),
    ensures
        node.dispatch(event).node.current_term >= node.current_term,
{
}

/// The term never decreases, whatever sequence of messages is handled.
pub proof fn lemma_term_never_decreases(start: NodeView, messages: Seq<RaftMessage>)
    ensures
        handle_all(start, messages).current_term >= start.current_term,
    decreases messages.len(),
{
    if messages.len() > 0 {
        lemma_term_never_decreases(start, messages.drop_last());
    }
}

/// A peer that has voted in its term stays as it is under any number of
/// vote requests of that term.
pub proof fn lemma_voted_peer_is_unmoved(voted: NodeView, requests: Seq<RaftMessage>)
    requires
        voted.voted_for is Some,
        all_request_votes_in(requests, voted.current_term),
    ensures
        handle_all(voted, requests) == voted,
    decreases requests.len(),
{
    if requests.len() > 0 {
        let earlier = requests.drop_last();
        lemma_voted_peer_is_unmoved(voted, earlier);
    }
}

/// One vote per term: once a vote request of `term` has been granted, the
/// answer to every later vote request of that term is a refusal, however
/// many of them arrive in between.
pub proof fn lemma_one_vote_per_term(
    node: NodeView,
    term: u64,
    candidate_id: u64,
    later: Seq<RaftMessage>,
    k: int,
)
    requires
        node.grants(term),
        all_request_votes_in(later, term),
        0 <= k < later.len(),
    ensures
        later[k] matches RaftMessage::RequestVote { candidate_id: asker, .. } && handle_all(
            node.on_request_vote(term, candidate_id),
            later.take(k),
        ).reply(later[k]) == Some(
            Envelope {
                to: asker,
                message: RaftMessage::VoteResponse { term, vote_granted: false },
            },
        ),
{
    let voted = node.on_request_vote(term, candidate_id);
    let before = later.take(k);
    lemma_voted_peer_is_unmoved(voted, before);
}

/// A candidate or leader steps down at once when a leader's entries arrive
/// with a term that is not behind its own, and when a vote is requested
/// for a term ahead of its own.
pub proof fn lemma_steps_down(node: NodeView, message: RaftMessage)
    requires
        node.state == NodeState::Candidate || node.state == NodeState::Leader,
        (message matches RaftMessage::AppendEntries { term, .. } && term >= node.current_term) || (
        message matches RaftMessage::RequestVote { term, .. } && term > node.current_term),
    ensures
        node.handle(message).state == NodeState::Follower,
{
}

/// Any message of a term ahead of the peer's own makes it a follower in
/// that term.
pub proof fn lemma_higher_term_makes_follower(node: NodeView, message: RaftMessage)
    requires
        message_term(message) > node.current_term,
    ensures
        node.handle(message).state == NodeState::Follower,
        node.handle(message).current_term == message_term(message),
{
}

/// The term that `message` carries.
pub open spec fn message_term(message: RaftMessage) -> u64 {
    match message {
        RaftMessage::RequestVote { term, .. } => term,
        RaftMessage::VoteResponse { term, .. } => term,
        RaftMessage::AppendEntries { term, .. } => term,
        RaftMessage::AppendEntriesResponse { term, .. } => term,
    }
}

/// A new election moves the term on by exactly one and leaves a candidate
/// that has voted for itself and counts that one vote.
pub proof fn lemma_start_election(node: NodeView)
    requires
        node.current_term < u64::MAX,
    ensures
        node.start_election().current_term == node.current_term + 1,
        node.start_election().state == NodeState::Candidate,
        node.start_election().voted_for == Some(node.id),
        node.start_election().votes_received == 1,
{
}

/// Only a candidate becomes leader, and only with a tally above the
/// threshold.
pub proof fn lemma_leader_was_candidate(node: NodeView, message: RaftMessage)
    requires
        node.can_handle(message),
        node.state != NodeState::Leader,
        node.handle(message).state == NodeState::Leader,
    ensures
        node.state == NodeState::Candidate,
        message is VoteResponse,
        node.handle(message).votes_received > node.threshold(),
        node.handle(message).current_term == node.current_term,
        node.handle(message).leader_id == Some(node.id),
{
}

/// The roles change along these lines and no others: a follower becomes a
/// candidate when its election timer fires; a candidate becomes leader on
/// a vote response, or stays or begins again; candidates and leaders
/// become followers on messages; and no event makes a follower the leader
/// or a leader a candidate.
pub proof fn lemma_role_changes(node: NodeView, event: Event)
    ensures
        ({
            let then = node.dispatch(event).node;
            &&& then.state == NodeState::Leader ==> node.state == NodeState::Leader || (node.state
                == NodeState::Candidate && event matches Event::Message(
                RaftMessage::VoteResponse { .. },
            ))
            &&& then.state == NodeState::Candidate ==> node.state != NodeState::Leader && (
            node.state == NodeState::Candidate || event == Event::ElectionTimeout)
            &&& then.state == NodeState::Follower && node.state != NodeState::Follower
                ==> event is Message
        }),
{
}

/// The tally changes only when a candidate or a leader counts a granted
/// vote of its own term, by one, and when an election begins, to one.
pub proof fn lemma_tally_changes(node: NodeView, event: Event)
    requires
        node.can_dispatch(event),
    ensures
        ({
            let then = node.dispatch(event).node;
            then.votes_received != node.votes_received ==> {
                ||| event == Event::ElectionTimeout && node.state != NodeState::Leader
                    && then.votes_received == 1
                ||| node.state != NodeState::Follower && event == Event::Message(
                    RaftMessage::VoteResponse { term: node.current_term, vote_granted: true },
                ) && then.votes_received == node.votes_received + 1
            }
        }),
{
}

/// A vote on record is forgotten only when a vote is requested for a term
/// ahead of the peer's own, and is replaced only by the vote of a new
/// election or of such a request.
pub proof fn lemma_vote_is_kept(node: NodeView, event: Event)
    requires
        node.can_dispatch(event),
        node.voted_for is Some,
        node.dispatch(event).node.voted_for != node.voted_for,
    ensures
        (event == Event::ElectionTimeout && node.state != NodeState::Leader) || (
        event matches Event::Message(RaftMessage::RequestVote { term, .. }) && term
            > node.current_term),
        node.dispatch(event).node.current_term > node.current_term,
{
}

/// The state after all of `events` have been dispatched, first to last.
pub open spec fn dispatch_all(start: NodeView, events: Seq<Event>) -> NodeView
    decreases events.len(),
{
    if events.len() == 0 {
        start
    } else {
        dispatch_all(start, events.drop_last()).dispatch(events.last()).node
    }
}

/// Whether the peer has room for each of `events` when its turn comes.
pub open spec fn can_dispatch_all(start: NodeView, events: Seq<Event>) -> bool
    decreases events.len(),
{
    events.len() > 0 ==> can_dispatch_all(start, events.drop_last()) && dispatch_all(
        start,
        events.drop_last(),
    ).can_dispatch(events.last())
}

/// The term never decreases, whatever sequence of messages and timer
/// signals is dispatched.
pub proof fn lemma_term_never_decreases_over_events(start: NodeView, events: Seq<Event>)
    requires
        can_dispatch_all(start, events),
    ensures
        dispatch_all(start, events).current_term >= start.current_term,
    decreases events.len(),
{
    if events.len() > 0 {
        lemma_term_never_decreases_over_events(start, events.drop_last());
    }
}

/// A leader's heartbeat keeps a peer that is not ahead of it from
/// beginning an election: the peer becomes or stays a follower in the
/// leader's term, knows the leader, accepts, and starts its election timer
/// over.
pub proof fn lemma_heartbeat_is_accepted(leader: NodeView, peer: NodeView, k: int)
    requires
        0 <= k < leader.heartbeats().len(),
        peer.current_term <= leader.current_term,
    ensures
        ({
            let beat = leader.heartbeats()[k].message;
            &&& peer.handle(beat).state == NodeState::Follower
            &&& peer.handle(beat).current_term == leader.current_term
            &&& peer.handle(beat).leader_id == Some(leader.id)
            &&& peer.resets_timer(beat)
            &&& peer.reply(beat) == Some(
                Envelope {
                    to: leader.id,
                    message: RaftMessage::AppendEntriesResponse {
                        term: leader.current_term,
                        success: true,
                    },
                },
            )
        }),
{
}

/// A leader's heartbeats come more often than an election timer runs
/// out, so that a follower that hears them does not begin an election.
pub proof fn lemma_heartbeats_outpace_elections()
    ensures
        0 < HEARTBEAT_PERIOD_SECS < ELECTION_TIMEOUT_SECS,
{
}

} // verus!
