//! The election state of one peer, and the handlers that change it.

use crate::model::{majority_threshold, NodeView};
use vstd::prelude::*;

verus! {

/// The seconds without a leader's entries or a granted vote after which a
/// peer begins an election.
pub const ELECTION_TIMEOUT_SECS: u64 = 5;

/// The seconds from one round of a leader's heartbeats to the next.
pub const HEARTBEAT_PERIOD_SECS: u64 = 1;

/// What peers say to each other.
#[derive(Debug, Clone, Copy, PartialEq, Eq, Structural)]
pub enum RaftMessage {
    RequestVote { term: u64, candidate_id: u64 },
    VoteResponse { term: u64, vote_granted: bool },
    AppendEntries { term: u64, leader_id: u64 },
    AppendEntriesResponse { term: u64, success: bool },
}

/// How a peer currently takes part in the election.
#[derive(Debug, Clone, Copy, PartialEq, Eq, Structural)]
pub enum NodeState {
    Follower,
    Candidate,
    Leader,
}

/// A message on its way to the peer `to`.
#[derive(Debug, Clone, Copy, PartialEq, Eq, Structural)]
pub struct Envelope {
    pub to: u64,
    pub message: RaftMessage,
}

/// What can wake the dispatcher.
#[derive(Debug, Clone, Copy, PartialEq, Eq, Structural)]
pub enum Event {
    /// A message was taken from the inbox.
    Message(RaftMessage),
    /// The election timer fired.
    ElectionTimeout,
    /// The heartbeat ticker fired.
    HeartbeatTick,
}

/// What the dispatcher asks of the transport and the timer after one event.
#[derive(Debug)]
pub struct Effects {
    /// The messages to send, in order.
    pub outbound: Vec<Envelope>,
    /// Whether the election timer starts over: it has fired, a vote was
    /// granted, or a leader's entries were accepted.
    pub reset_election_timer: bool,
}

/// Computes [`majority_threshold`] without leaving the range of `usize`.
pub fn majority(peers: usize) -> (m: u64)
    ensures
        m == majority_threshold(peers as nat),
{
    let half: usize = peers / 2;
    let odd: usize = peers % 2;
    (half + odd) as u64
}

/// One peer of the cluster. Only the dispatcher that owns it changes it.
#[derive(Debug)]
pub struct RaftNode {
    id: u64,
    state: NodeState,
    current_term: u64,
    voted_for: Option<u64>,
    votes_received: u64,
    leader_id: Option<u64>,
    other_nodes: Vec<u64>,
}

impl View for RaftNode {
    type V = NodeView;

    closed spec fn view(&self) -> NodeView {
        NodeView {
            id: self.id,
            state: self.state,
            current_term: self.current_term,
            voted_for: self.voted_for,
            votes_received: self.votes_received,
            leader_id: self.leader_id,
            other_nodes: self.other_nodes@,
        }
    }
}

impl Clone for RaftNode {
    fn clone(&self) -> (copy: RaftNode)
        ensures
            copy@ == self@,
    {
        RaftNode {
            id: self.id,
            state: self.state,
            current_term: self.current_term,
            voted_for: self.voted_for,
            votes_received: self.votes_received,
            leader_id: self.leader_id,
            other_nodes: self.other_nodes.clone(),
        }
    }
}

impl RaftNode {
    /// A follower in term 0 that has neither voted nor heard of a leader.
    pub fn new(id: u64, other_nodes: Vec<u64>) -> (node: RaftNode)
        ensures
            node@ == NodeView::initial(id, other_nodes@),
    {
        RaftNode {
            id,
            state: NodeState::Follower,
            current_term: 0,
            voted_for: None,
            votes_received: 0,
            leader_id: None,
            other_nodes,
        }
    }

    /// Applies the rule for `message` and returns the answer to send, if the
    /// rule has one.
    pub fn handle_message(&mut self, message: RaftMessage) -> (reply: Option<Envelope>)
        requires
            old(self)@.can_handle(message),
        ensures
            final(self)@ == old(self)@.handle(message),
            reply == old(self)@.reply(message),
            final(self)@.current_term >= old(self)@.current_term,
    {
        match message {
            RaftMessage::RequestVote { term, candidate_id } => {
                if term > self.current_term {
                    self.current_term = term;
                    self.voted_for = None;
                    self.state = NodeState::Follower;
                }
                let vote_granted: bool = term >= self.current_term && self.voted_for.is_none();
                if vote_granted {
                    self.voted_for = Some(candidate_id);
                }
                Some(
                    Envelope {
                        to: candidate_id,
                        message: RaftMessage::VoteResponse { term: self.current_term, vote_granted },
                    },
                )
            },
            RaftMessage::VoteResponse { term, vote_granted } => {
                if term > self.current_term {
                    self.current_term = term;
                    self.state = NodeState::Follower;
                } else if self.state != NodeState::Follower {
                    let threshold: u64 = majority(self.other_nodes.len());
                    if vote_granted && term == self.current_term {
                        self.votes_received = self.votes_received + 1;
                    }
                    if self.votes_received > threshold {
                        self.state = NodeState::Leader;
                        self.leader_id = Some(self.id);
                    }
                }
                None
            },
            RaftMessage::AppendEntries { term, leader_id } => {
                let success: bool = term >= self.current_term;
                if success {
                    self.current_term = term;
                    self.state = NodeState::Follower;
                    self.leader_id = Some(leader_id);
                }
                Some(
                    Envelope {
                        to: leader_id,
                        message: RaftMessage::AppendEntriesResponse {
                            term: self.current_term,
                            success,
                        },
                    },
                )
            },
            RaftMessage::AppendEntriesResponse { term, success: _ } => {
                if term > self.current_term {
                    self.current_term = term;
                    self.state = NodeState::Follower;
                }
                None
            },
        }
    }

    /// Begins a new election: the next term, a vote for itself, and a vote
    /// request for every peer of the directory.
    pub fn start_election(&mut self) -> (requests: Vec<Envelope>)
        requires
            old(self)@.current_term < u64::MAX,
        ensures
            final(self)@ == old(self)@.start_election(),
            requests@ == final(self)@.vote_requests(),
            final(self)@.current_term == old(self)@.current_term + 1,
            final(self)@.state == NodeState::Candidate,
            final(self)@.voted_for == Some(old(self)@.id),
            final(self)@.votes_received == 1,
    {
        self.current_term = self.current_term + 1;
        self.state = NodeState::Candidate;
        self.voted_for = Some(self.id);
        self.votes_received = 1;
        self.broadcast(RaftMessage::RequestVote { term: self.current_term, candidate_id: self.id })
    }

    /// The heartbeats that a leader sends on each tick; nothing for any
    /// other role.
    pub fn heartbeat(&self) -> (beats: Vec<Envelope>)
        ensures
            beats@ == if self@.state == NodeState::Leader {
                self@.heartbeats()
            } else {
                Seq::empty()
            },
    {
        if self.state == NodeState::Leader {
            self.broadcast(
                RaftMessage::AppendEntries { term: self.current_term, leader_id: self.id },
            )
        } else {
            Vec::new()
        }
    }

    /// Applies exactly one rule to the state: the handler of a message, a
    /// new election unless this peer leads, or a leader's heartbeats.
    pub fn dispatch(&mut self, event: Event) -> (effects: Effects)
        requires
            old(self)@.can_dispatch(event),
        ensures
            final(self)@ == old(self)@.dispatch(event).node,
            effects.outbound@ == old(self)@.dispatch(event).outbound,
            effects.reset_election_timer == old(self)@.dispatch(event).reset_election_timer,
            final(self)@.current_term >= old(self)@.current_term,
    {
        match event {
            Event::Message(message) => {
                let reset_election_timer: bool = self.resets_timer(message);
                let mut outbound: Vec<Envelope> = Vec::new();
                if let Some(envelope) = self.handle_message(message) {
                    outbound.push(envelope);
                }
                Effects { outbound, reset_election_timer }
            },
            Event::ElectionTimeout => {
                let outbound: Vec<Envelope> = if self.state == NodeState::Leader {
                    Vec::new()
                } else {
                    self.start_election()
                };
                Effects { outbound, reset_election_timer: true }
            },
            Event::HeartbeatTick => Effects {
                outbound: self.heartbeat(),
                reset_election_timer: false,
            },
        }
    }

    /// Whether the tally and the term have room for what `event` may
    /// bring. They have, short of 2^64 - 1 votes or terms.
    pub fn can_dispatch(&self, event: Event) -> (can: bool)
        ensures
            can == self@.can_dispatch(event),
    {
        match event {
            Event::Message(RaftMessage::VoteResponse { term, vote_granted }) => !(self.state
                != NodeState::Follower && vote_granted && term == self.current_term)
                || self.votes_received < u64::MAX,
            Event::ElectionTimeout => self.state == NodeState::Leader || self.current_term
                < u64::MAX,
            _ => true,
        }
    }

    /// Whether handling `message` now would start the election timer over.
    pub fn resets_timer(&self, message: RaftMessage) -> (reset: bool)
        ensures
            reset == self@.resets_timer(message),
    {
        match message {
            RaftMessage::RequestVote { term, candidate_id: _ } => term > self.current_term || (term
                == self.current_term && self.voted_for.is_none()),
            RaftMessage::AppendEntries { term, leader_id: _ } => term >= self.current_term,
            _ => false,
        }
    }

    /// Resolves a peer through the directory. A peer that the directory
    /// does not list has no address, and what is meant for it is not sent.
    pub fn peer_address(&self, target_id: u64) -> (address: Option<u64>)
        ensures
            address == self@.address_of(target_id),
    {
        let mut i: usize = 0;
        while i < self.other_nodes.len()
            invariant
                i <= self.other_nodes.len(),
                forall|j: int| 0 <= j < i ==> self.other_nodes@[j] != target_id,
            decreases self.other_nodes.len() - i,
        {
            if self.other_nodes[i] == target_id {
                return Some(self.other_nodes[i]);
            }
            i = i + 1;
        }
        None
    }

    /// Whether this peer leads in its term.
    pub fn is_leader(&self) -> (leader: bool)
        ensures
            leader == (self@.state == NodeState::Leader),
    {
        self.state == NodeState::Leader
    }

    /// The identifier by which the other peers know this one.
    pub fn id(&self) -> (id: u64)
        ensures
            id == self@.id,
    {
        self.id
    }

    /// The role.
    pub fn state(&self) -> (state: NodeState)
        ensures
            state == self@.state,
    {
        self.state
    }

    /// The term.
    pub fn current_term(&self) -> (term: u64)
        ensures
            term == self@.current_term,
    {
        self.current_term
    }

    /// The peer that the vote on record is for.
    pub fn voted_for(&self) -> (vote: Option<u64>)
        ensures
            vote == self@.voted_for,
    {
        self.voted_for
    }

    /// The tally of the election that this peer began last.
    pub fn votes_received(&self) -> (votes: u64)
        ensures
            votes == self@.votes_received,
    {
        self.votes_received
    }

    /// The peer that this one last took for the leader.
    pub fn leader_id(&self) -> (leader: Option<u64>)
        ensures
            leader == self@.leader_id,
    {
        self.leader_id
    }

    /// The peer directory: the identifiers of the other peers.
    pub fn other_nodes(&self) -> (peers: &[u64])
        ensures
            peers@ == self@.other_nodes,
    {
        self.other_nodes.as_slice()
    }

    /// One copy of `message` for every peer of the directory.
    fn broadcast(&self, message: RaftMessage) -> (out: Vec<Envelope>)
        ensures
            out@ == self@.broadcast(message),
    {
        let mut out: Vec<Envelope> = Vec::new();
        let mut i: usize = 0;
        while i < self.other_nodes.len()
            invariant
                i <= self.other_nodes.len(),
                out@.len() == i,
                forall|j: int|
                    0 <= j < i ==> out@[j] == (Envelope { to: self.other_nodes@[j], message }),
            decreases self.other_nodes.len() - i,
        {
            out.push(Envelope { to: self.other_nodes[i], message });
            i = i + 1;
        }
        out
    }
}

} // verus!
