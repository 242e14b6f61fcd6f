//! A cluster of peers and the network between them, as mathematics: the
//! setting in which the election's safety is stated.
//!
//! The network may delay, reorder and lose messages. It hands each message
//! to at most one dispatcher, as a transport does that opens one connection
//! for each message.

use crate::model::NodeView;
use crate::raft_node::{Envelope, Event, NodeState, RaftMessage};
use vstd::multiset::Multiset;
use vstd::prelude::*;

verus! {

/// A vote that was cast: the peer at index `voter` voted for the peer
/// `candidate` in `term`.
pub struct Ballot {
    pub voter: int,
    pub term: u64,
    pub candidate: u64,
}

/// The peers, the messages under way, and the record of all votes cast.
/// The record is kept for the sake of the proofs: no step reads it.
pub struct Cluster {
    pub nodes: Seq<NodeView>,
    pub network: Multiset<Envelope>,
    pub ballots: Set<Ballot>,
}

/// One thing that can happen in a cluster.
pub enum Step {
    /// The dispatcher of the peer at index `node` takes up `event`. A
    /// message is taken from the network.
    Dispatch { node: int, event: Event },
    /// The network loses a message.
    Lose { envelope: Envelope },
}

impl Cluster {
    /// Every peer counts all the others as its peers, and no two peers
    /// share an identifier.
    pub open spec fn configured(self) -> bool {
        &&& forall|i: int|
            0 <= i < self.nodes.len() ==> (#[trigger] self.nodes[i]).other_nodes.len() + 1
                == self.nodes.len()
        &&& forall|i: int, j: int|
            0 <= i < j < self.nodes.len() ==> (#[trigger] self.nodes[i]).id
                != (#[trigger] self.nodes[j]).id
    }

    /// A configured cluster of new peers, with nothing sent and no vote cast.
    pub open spec fn initial(self) -> bool {
        &&& self.configured()
        &&& forall|i: int|
            0 <= i < self.nodes.len() ==> #[trigger] self.nodes[i] == NodeView::initial(
                self.nodes[i].id,
                self.nodes[i].other_nodes,
            )
        &&& self.network == Multiset::<Envelope>::empty()
        &&& self.ballots == Set::<Ballot>::empty()
    }

    /// The message as it travels to the peer at index `node`.
    pub open spec fn addressed(self, node: int, message: RaftMessage) -> Envelope {
        Envelope { to: self.nodes[node].id, message }
    }

    /// The vote that the peer at index `node` casts in taking up `event`:
    /// for the candidate whose request it grants, or for itself in an
    /// election that it begins.
    pub open spec fn cast(self, node: int, event: Event) -> Option<Ballot> {
        let peer = self.nodes[node];
        match event {
            Event::Message(RaftMessage::RequestVote { term, candidate_id }) => if peer.grants(
                term,
            ) {
                Some(Ballot { voter: node, term, candidate: candidate_id })
            } else {
                None
            },
            Event::ElectionTimeout => if peer.state != NodeState::Leader {
                Some(
                    Ballot {
                        voter: node,
                        term: (peer.current_term + 1) as u64,
                        candidate: peer.id,
                    },
                )
            } else {
                None
            },
            _ => None,
        }
    }

    /// Whether `step` can happen: a dispatched message is under way to
    /// that peer and the peer has room for what it brings, a lost one is
    /// under way, and an election has a term left to move to.
    pub open spec fn enabled(self, step: Step) -> bool {
        match step {
            Step::Dispatch { node, event } => {
                &&& 0 <= node < self.nodes.len()
                &&& event matches Event::Message(message) ==> self.network.count(
                    self.addressed(node, message),
                ) > 0
                &&& self.nodes[node].can_dispatch(event)
            },
            Step::Lose { envelope } => self.network.count(envelope) > 0,
        }
    }

    /// The cluster after `step`.
    pub open spec fn after(self, step: Step) -> Cluster {
        match step {
            Step::Dispatch { node, event } => {
                let outcome = self.nodes[node].dispatch(event);
                let remaining = match event {
                    Event::Message(message) => self.network.remove(self.addressed(node, message)),
                    _ => self.network,
                };
                Cluster {
                    nodes: self.nodes.update(node, outcome.node),
                    network: remaining.add(outcome.outbound.to_multiset()),
                    ballots: match self.cast(node, event) {
                        Some(ballot) => self.ballots.insert(ballot),
                        None => self.ballots,
                    },
                }
            },
            Step::Lose { envelope } => Cluster {
                network: self.network.remove(envelope),
                ..self
            },
        }
    }

    /// Whether `then` follows from this cluster by `step`.
    pub open spec fn steps_to(self, step: Step, then: Cluster) -> bool {
        self.enabled(step) && then == self.after(step)
    }

    /// Whether `then` follows from this cluster by one step.
    pub open spec fn next(self, then: Cluster) -> bool {
        exists|step: Step| #[trigger] self.steps_to(step, then)
    }

    /// Whether the peer at index `node` leads in `term`.
    pub open spec fn leads(self, node: int, term: u64) -> bool {
        &&& 0 <= node < self.nodes.len()
        &&& self.nodes[node].state == NodeState::Leader
        &&& self.nodes[node].current_term == term
    }
}

/// A history of a cluster: it begins in an initial state, and each state
/// follows from the one before by one step.
pub open spec fn is_run(states: Seq<Cluster>) -> bool {
    &&& states.len() > 0
    &&& states[0].initial()
    &&& forall|n: int| 0 <= n < states.len() - 1 ==> (#[trigger] states[n]).next(states[n + 1])
}

} // verus!
