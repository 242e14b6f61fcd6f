//! The election rules as mathematics: what one peer's state is, and what
//! each message and each timer signal makes of it.

use crate::raft_node::{Envelope, Event, NodeState, RaftMessage};
use vstd::prelude::*;

verus! {

/// The number of votes a candidate with `peers` other peers must exceed.
pub open spec fn majority_threshold(peers: nat) -> nat {
    (peers + 1) / 2
}

/// The larger of two terms.
pub open spec fn later_term(a: u64, b: u64) -> u64 {
    if a >= b {
        a
    } else {
        b
    }
}

/// The election state of one peer.
pub struct NodeView {
    pub id: u64,
    pub state: NodeState,
    pub current_term: u64,
    pub voted_for: Option<u64>,
    pub votes_received: u64,
    pub leader_id: Option<u64>,
    pub other_nodes: Seq<u64>,
}

/// What one dispatched event leaves behind.
pub struct Outcome {
    pub node: NodeView,
    pub outbound: Seq<Envelope>,
    pub reset_election_timer: bool,
}

impl NodeView {
    /// The state a peer is created in.
    pub open spec fn initial(id: u64, other_nodes: Seq<u64>) -> NodeView {
        NodeView {
            id,
            state: NodeState::Follower,
            current_term: 0,
            voted_for: None,
            votes_received: 0,
            leader_id: None,
            other_nodes,
        }
    }

    /// The tally this peer must exceed to lead.
    pub open spec fn threshold(self) -> nat {
        majority_threshold(self.other_nodes.len())
    }

    /// Whether a vote request for `term` is granted: the term is ahead of
    /// this peer's, or it is this peer's and no vote is on record.
    pub open spec fn grants(self, term: u64) -> bool {
        term > self.current_term || (term == self.current_term && self.voted_for is None)
    }

    /// A request of a term ahead makes this peer a follower in that term
    /// with no vote on record. A vote that is granted goes on record.
    pub open spec fn on_request_vote(self, term: u64, candidate_id: u64) -> NodeView {
        let seen = if term > self.current_term {
            NodeView { current_term: term, voted_for: None, state: NodeState::Follower, ..self }
        } else {
            self
        };
        if self.grants(term) {
            NodeView { voted_for: Some(candidate_id), ..seen }
        } else {
            seen
        }
    }

    /// The answer to a vote request, for the candidate: the term that this
    /// peer is then in, and whether the vote is granted.
    pub open spec fn vote_reply(self, term: u64, candidate_id: u64) -> Envelope {
        Envelope {
            to: candidate_id,
            message: RaftMessage::VoteResponse {
                term: later_term(term, self.current_term),
                vote_granted: self.grants(term),
            },
        }
    }

    /// Whether a vote response for `term` is counted: a granted vote of
    /// the present term, by a peer that stands or stood for election in it.
    pub open spec fn counts(self, term: u64, vote_granted: bool) -> bool {
        self.state != NodeState::Follower && vote_granted && term == self.current_term
    }

    /// A response of a term ahead makes this peer a follower in that
    /// term, and no more. Else a follower lets the response pass; a
    /// candidate or leader counts it if it counts, and leads with itself
    /// as the leader it knows once the tally is above the threshold.
    pub open spec fn on_vote_response(self, term: u64, vote_granted: bool) -> NodeView {
        if term > self.current_term {
            NodeView { current_term: term, state: NodeState::Follower, ..self }
        } else if self.state != NodeState::Follower {
            let tally = if self.counts(term, vote_granted) {
                self.votes_received + 1
            } else {
                self.votes_received as int
            };
            if tally > self.threshold() {
                NodeView {
                    votes_received: tally as u64,
                    state: NodeState::Leader,
                    leader_id: Some(self.id),
                    ..self
                }
            } else {
                NodeView { votes_received: tally as u64, ..self }
            }
        } else {
            self
        }
    }

    /// Entries of a term that is not behind make this peer a follower in
    /// that term, with their sender as the leader it knows.
    pub open spec fn on_append_entries(self, term: u64, leader_id: u64) -> NodeView {
        if term >= self.current_term {
            NodeView {
                current_term: term,
                state: NodeState::Follower,
                leader_id: Some(leader_id),
                ..self
            }
        } else {
            self
        }
    }

    /// The answer to a leader's entries, for that leader: the term that
    /// this peer is then in, and whether the entries were accepted.
    pub open spec fn append_reply(self, term: u64, leader_id: u64) -> Envelope {
        Envelope {
            to: leader_id,
            message: RaftMessage::AppendEntriesResponse {
                term: later_term(term, self.current_term),
                success: term >= self.current_term,
            },
        }
    }

    /// A response of a term ahead makes this peer a follower in that
    /// term. Any other is let pass.
    pub open spec fn on_append_entries_response(self, term: u64) -> NodeView {
        if term > self.current_term {
            NodeView { current_term: term, state: NodeState::Follower, ..self }
        } else {
            self
        }
    }

    /// Whether the tally has room for the vote that `message` may bring.
    pub open spec fn can_handle(self, message: RaftMessage) -> bool {
        message matches RaftMessage::VoteResponse { term, vote_granted } && self.counts(
            term,
            vote_granted,
        ) ==> self.votes_received < u64::MAX
    }

    /// Whether the tally and the term have room for what `event` may bring.
    pub open spec fn can_dispatch(self, event: Event) -> bool {
        match event {
            Event::Message(message) => self.can_handle(message),
            Event::ElectionTimeout => self.state == NodeState::Leader || self.current_term
                < u64::MAX,
            Event::HeartbeatTick => true,
        }
    }

    /// The state after `message` has been handled.
    pub open spec fn handle(self, message: RaftMessage) -> NodeView {
        match message {
            RaftMessage::RequestVote { term, candidate_id } => self.on_request_vote(
                term,
                candidate_id,
            ),
            RaftMessage::VoteResponse { term, vote_granted } => self.on_vote_response(
                term,
                vote_granted,
            ),
            RaftMessage::AppendEntries { term, leader_id } => self.on_append_entries(
                term,
                leader_id,
            ),
            RaftMessage::AppendEntriesResponse { term, .. } => self.on_append_entries_response(
                term,
            ),
        }
    }

    /// The answer that handling `message` sends, and to whom.
    pub open spec fn reply(self, message: RaftMessage) -> Option<Envelope> {
        match message {
            RaftMessage::RequestVote { term, candidate_id } => Some(
                self.vote_reply(term, candidate_id),
            ),
            RaftMessage::AppendEntries { term, leader_id } => Some(
                self.append_reply(term, leader_id),
            ),
            _ => None,
        }
    }

    /// Whether handling `message` starts the election timer over: a vote
    /// was granted, or a leader's entries were accepted.
    pub open spec fn resets_timer(self, message: RaftMessage) -> bool {
        match message {
            RaftMessage::RequestVote { term, .. } => self.grants(term),
            RaftMessage::AppendEntries { term, .. } => term >= self.current_term,
            _ => false,
        }
    }

    /// The state after this peer has begun a new election.
    pub open spec fn start_election(self) -> NodeView
        recommends
            self.current_term < u64::MAX,
    {
        NodeView {
            current_term: (self.current_term + 1) as u64,
            state: NodeState::Candidate,
            voted_for: Some(self.id),
            votes_received: 1,
            ..self
        }
    }

    /// One copy of `message` for every entry of the peer directory, in its order.
    pub open spec fn broadcast(self, message: RaftMessage) -> Seq<Envelope> {
        Seq::new(self.other_nodes.len(), |i: int| Envelope { to: self.other_nodes[i], message })
    }

    /// The vote requests of a candidate in its current term.
    pub open spec fn vote_requests(self) -> Seq<Envelope> {
        self.broadcast(RaftMessage::RequestVote { term: self.current_term, candidate_id: self.id })
    }

    /// The heartbeats of a leader in its current term.
    pub open spec fn heartbeats(self) -> Seq<Envelope> {
        self.broadcast(RaftMessage::AppendEntries { term: self.current_term, leader_id: self.id })
    }

    /// Where `target_id` is reached, if the peer directory knows it.
    pub open spec fn address_of(self, target_id: u64) -> Option<u64> {
        if self.other_nodes.contains(target_id) {
            Some(target_id)
        } else {
            None
        }
    }

    /// What the dispatcher makes of one event: the handler's rule for a
    /// message; a new election when the election timer fires, unless this
    /// peer leads; a leader's heartbeats when the heartbeat ticker fires.
    /// The election timer starts over when it has fired, and as
    /// [`NodeView::resets_timer`] says.
    pub open spec fn dispatch(self, event: Event) -> Outcome {
        match event {
            Event::Message(message) => Outcome {
                node: self.handle(message),
                outbound: match self.reply(message) {
                    Some(envelope) => seq![envelope],
                    None => Seq::empty(),
                },
                reset_election_timer: self.resets_timer(message),
            },
            Event::ElectionTimeout => if self.state == NodeState::Leader {
                Outcome { node: self, outbound: Seq::empty(), reset_election_timer: true }
            } else {
                Outcome {
                    node: self.start_election(),
                    outbound: self.start_election().vote_requests(),
                    reset_election_timer: true,
                }
            },
            Event::HeartbeatTick => Outcome {
                node: self,
                outbound: if self.state == NodeState::Leader {
                    self.heartbeats()
                } else {
                    Seq::empty()
                },
                reset_election_timer: false,
            },
        }
    }
}

} // verus!
