use raft::raft_node::{Effects, Envelope, Event, NodeState, RaftMessage, RaftNode};

fn leader_at(id: u64, peers: Vec<u64>, term: u64) -> RaftNode {
    assert!(term >= 1);
    let mut node = RaftNode::new(id, peers);
    if term > 1 {
        node.handle_message(RaftMessage::AppendEntriesResponse { term: term - 1, success: true });
    }
    node.start_election();
    let mut guard = 0;
    while !node.is_leader() {
        node.handle_message(RaftMessage::VoteResponse { term, vote_granted: true });
        guard += 1;
        assert!(guard < 100);
    }
    assert_eq!(node.current_term(), term);
    node
}

#[test]
fn new_node_is_a_follower_in_term_zero() {
    let node = RaftNode::new(7, vec![8, 9]);
    assert_eq!(node.id(), 7);
    assert_eq!(node.state(), NodeState::Follower);
    assert_eq!(node.current_term(), 0);
    assert_eq!(node.voted_for(), None);
    assert_eq!(node.votes_received(), 0);
    assert_eq!(node.leader_id(), None);
    assert_eq!(node.other_nodes(), &[8, 9]);
    assert!(!node.is_leader());
}

#[test]
fn three_nodes_elect_the_first_to_time_out() {
    let mut a = RaftNode::new(1, vec![2, 3]);
    let mut b = RaftNode::new(2, vec![1, 3]);
    let mut c = RaftNode::new(3, vec![1, 2]);

    let requests = a.start_election();
    assert_eq!(a.state(), NodeState::Candidate);
    assert_eq!(a.current_term(), 1);
    assert_eq!(a.votes_received(), 1);
    let ask = RaftMessage::RequestVote { term: 1, candidate_id: 1 };
    assert_eq!(
        requests,
        vec![Envelope { to: 2, message: ask }, Envelope { to: 3, message: ask }]
    );

    let yes = RaftMessage::VoteResponse { term: 1, vote_granted: true };
    assert_eq!(b.handle_message(ask), Some(Envelope { to: 1, message: yes }));
    assert_eq!(c.handle_message(ask), Some(Envelope { to: 1, message: yes }));
    assert_eq!(b.voted_for(), Some(1));
    assert_eq!(c.voted_for(), Some(1));

    assert_eq!(a.handle_message(yes), None);
    assert!(a.is_leader());
    assert_eq!(a.votes_received(), 2);
    assert_eq!(a.handle_message(yes), None);
    assert!(a.is_leader());
    assert_eq!(a.votes_received(), 3);
    assert_eq!(a.current_term(), 1);
    assert_eq!(a.leader_id(), Some(1));
}

#[test]
fn leader_yields_to_a_vote_request_of_a_later_term() {
    let mut node = leader_at(1, vec![2, 3], 5);
    let reply = node.handle_message(RaftMessage::RequestVote { term: 6, candidate_id: 2 });
    assert_eq!(
        reply,
        Some(Envelope {
            to: 2,
            message: RaftMessage::VoteResponse { term: 6, vote_granted: true }
        })
    );
    assert_eq!(node.current_term(), 6);
    assert_eq!(node.state(), NodeState::Follower);
    assert_eq!(node.voted_for(), Some(2));
}

#[test]
fn follower_refuses_entries_of_an_earlier_term() {
    let mut node = RaftNode::new(1, vec![2, 3]);
    node.handle_message(RaftMessage::AppendEntries { term: 5, leader_id: 2 });
    assert_eq!(node.current_term(), 5);
    assert_eq!(node.leader_id(), Some(2));
    let reply = node.handle_message(RaftMessage::AppendEntries { term: 4, leader_id: 3 });
    assert_eq!(
        reply,
        Some(Envelope {
            to: 3,
            message: RaftMessage::AppendEntriesResponse { term: 5, success: false }
        })
    );
    assert_eq!(node.current_term(), 5);
    assert_eq!(node.state(), NodeState::Follower);
    assert_eq!(node.leader_id(), Some(2));
    assert_eq!(node.voted_for(), None);
    assert_eq!(node.votes_received(), 0);
}

#[test]
fn dispatch_of_a_message_reports_the_reply() {
    let mut node = RaftNode::new(1, vec![2, 3]);
    let Effects { outbound, reset_election_timer } =
        node.dispatch(Event::Message(RaftMessage::RequestVote { term: 1, candidate_id: 3 }));
    assert_eq!(
        outbound,
        vec![Envelope {
            to: 3,
            message: RaftMessage::VoteResponse { term: 1, vote_granted: true }
        }]
    );
    assert!(reset_election_timer);
}

#[test]
fn split_vote_elects_nobody_and_the_next_round_is_a_term_later() {
    let mut a = RaftNode::new(1, vec![2, 3, 4]);
    let mut b = RaftNode::new(2, vec![1, 3, 4]);
    let mut c = RaftNode::new(3, vec![1, 2, 4]);
    let mut d = RaftNode::new(4, vec![1, 2, 3]);
    a.start_election();
    c.start_election();
    assert_eq!(a.state(), NodeState::Candidate);
    assert_eq!(c.state(), NodeState::Candidate);
    assert_eq!((a.current_term(), c.current_term()), (1, 1));
    let ask_a = RaftMessage::RequestVote { term: 1, candidate_id: 1 };
    let ask_c = RaftMessage::RequestVote { term: 1, candidate_id: 3 };
    let yes = RaftMessage::VoteResponse { term: 1, vote_granted: true };
    let no = RaftMessage::VoteResponse { term: 1, vote_granted: false };

    assert_eq!(b.handle_message(ask_a), Some(Envelope { to: 1, message: yes }));
    assert_eq!(b.handle_message(ask_c), Some(Envelope { to: 3, message: no }));
    assert_eq!(b.voted_for(), Some(1));
    assert_eq!(d.handle_message(ask_c), Some(Envelope { to: 3, message: yes }));
    assert_eq!(d.handle_message(ask_a), Some(Envelope { to: 1, message: no }));
    assert_eq!(d.voted_for(), Some(3));
    assert_eq!(a.handle_message(ask_c), Some(Envelope { to: 3, message: no }));
    assert_eq!(c.handle_message(ask_a), Some(Envelope { to: 1, message: no }));

    for reply in [yes, no, no] {
        a.handle_message(reply);
        c.handle_message(reply);
    }
    assert_eq!(a.votes_received(), 2);
    assert_eq!(c.votes_received(), 2);
    assert_eq!(a.state(), NodeState::Candidate);
    assert_eq!(c.state(), NodeState::Candidate);

    let effects = a.dispatch(Event::ElectionTimeout);
    assert_eq!(a.current_term(), 2);
    assert_eq!(a.state(), NodeState::Candidate);
    assert_eq!(a.votes_received(), 1);
    assert_eq!(effects.outbound.len(), 3);
    assert!(effects.reset_election_timer);
    c.dispatch(Event::ElectionTimeout);
    assert_eq!(c.current_term(), 2);
}

#[test]
fn second_request_of_a_term_is_refused() {
    let mut node = RaftNode::new(1, vec![2, 3]);
    let first = node.handle_message(RaftMessage::RequestVote { term: 3, candidate_id: 2 });
    assert_eq!(
        first,
        Some(Envelope { to: 2, message: RaftMessage::VoteResponse { term: 3, vote_granted: true } })
    );
    for candidate_id in [3, 2, 9, 3] {
        let reply = node.handle_message(RaftMessage::RequestVote { term: 3, candidate_id });
        assert_eq!(
            reply,
            Some(Envelope {
                to: candidate_id,
                message: RaftMessage::VoteResponse { term: 3, vote_granted: false }
            })
        );
        assert_eq!(node.voted_for(), Some(2));
        assert_eq!(node.current_term(), 3);
    }
}

#[test]
fn request_of_an_earlier_term_is_refused_with_the_present_term() {
    let mut node = RaftNode::new(1, vec![2, 3]);
    node.handle_message(RaftMessage::AppendEntriesResponse { term: 4, success: false });
    let reply = node.handle_message(RaftMessage::RequestVote { term: 3, candidate_id: 2 });
    assert_eq!(
        reply,
        Some(Envelope { to: 2, message: RaftMessage::VoteResponse { term: 4, vote_granted: false } })
    );
    assert_eq!(node.voted_for(), None);
}

#[test]
fn term_never_decreases_over_a_mixed_sequence() {
    let mut node = RaftNode::new(1, vec![2, 3]);
    let messages = [
        RaftMessage::AppendEntries { term: 3, leader_id: 2 },
        RaftMessage::AppendEntries { term: 1, leader_id: 3 },
        RaftMessage::RequestVote { term: 2, candidate_id: 3 },
        RaftMessage::VoteResponse { term: 7, vote_granted: false },
        RaftMessage::AppendEntriesResponse { term: 5, success: true },
        RaftMessage::RequestVote { term: 9, candidate_id: 2 },
        RaftMessage::VoteResponse { term: 0, vote_granted: true },
    ];
    let expected = [3, 3, 3, 7, 7, 9, 9];
    let mut before = node.current_term();
    for (message, term) in messages.iter().zip(expected) {
        node.handle_message(*message);
        assert!(node.current_term() >= before);
        assert_eq!(node.current_term(), term);
        before = node.current_term();
    }
}

#[test]
fn candidate_and_leader_step_down() {
    let mut candidate = RaftNode::new(1, vec![2, 3]);
    candidate.start_election();
    candidate.handle_message(RaftMessage::AppendEntries { term: 1, leader_id: 2 });
    assert_eq!(candidate.state(), NodeState::Follower);
    assert_eq!(candidate.leader_id(), Some(2));

    let mut leader = leader_at(1, vec![2, 3], 4);
    let reply = leader.handle_message(RaftMessage::AppendEntries { term: 4, leader_id: 3 });
    assert_eq!(leader.state(), NodeState::Follower);
    assert_eq!(
        reply,
        Some(Envelope {
            to: 3,
            message: RaftMessage::AppendEntriesResponse { term: 4, success: true }
        })
    );

    let mut candidate = RaftNode::new(1, vec![2, 3]);
    candidate.start_election();
    candidate.handle_message(RaftMessage::RequestVote { term: 2, candidate_id: 3 });
    assert_eq!(candidate.state(), NodeState::Follower);
    assert_eq!(candidate.voted_for(), Some(3));

    let mut leader = leader_at(1, vec![2, 3], 4);
    leader.handle_message(RaftMessage::VoteResponse { term: 6, vote_granted: false });
    assert_eq!(leader.state(), NodeState::Follower);
    assert_eq!(leader.current_term(), 6);
    let mut leader = leader_at(1, vec![2, 3], 4);
    leader.handle_message(RaftMessage::AppendEntriesResponse { term: 5, success: true });
    assert_eq!(leader.state(), NodeState::Follower);
    assert_eq!(leader.current_term(), 5);
}

#[test]
fn candidate_keeps_its_role_on_a_vote_request_of_its_own_term() {
    let mut candidate = RaftNode::new(1, vec![2, 3]);
    candidate.start_election();
    let reply = candidate.handle_message(RaftMessage::RequestVote { term: 1, candidate_id: 3 });
    assert_eq!(candidate.state(), NodeState::Candidate);
    assert_eq!(
        reply,
        Some(Envelope { to: 3, message: RaftMessage::VoteResponse { term: 1, vote_granted: false } })
    );
}

#[test]
fn start_election_moves_on_by_one_term() {
    let mut node = RaftNode::new(5, vec![6, 7, 8]);
    node.handle_message(RaftMessage::AppendEntries { term: 41, leader_id: 6 });
    let requests = node.start_election();
    assert_eq!(node.current_term(), 42);
    assert_eq!(node.state(), NodeState::Candidate);
    assert_eq!(node.voted_for(), Some(5));
    assert_eq!(node.votes_received(), 1);
    assert_eq!(node.leader_id(), Some(6));
    let ask = RaftMessage::RequestVote { term: 42, candidate_id: 5 };
    assert_eq!(
        requests,
        vec![
            Envelope { to: 6, message: ask },
            Envelope { to: 7, message: ask },
            Envelope { to: 8, message: ask }
        ]
    );
    node.start_election();
    assert_eq!(node.current_term(), 43);
    assert_eq!(node.votes_received(), 1);
}

#[test]
fn stale_and_refused_votes_are_not_counted() {
    let mut node = RaftNode::new(1, vec![2, 3, 4, 5]);
    node.start_election();
    node.start_election();
    assert_eq!(node.current_term(), 2);
    node.handle_message(RaftMessage::VoteResponse { term: 1, vote_granted: true });
    assert_eq!(node.votes_received(), 1);
    node.handle_message(RaftMessage::VoteResponse { term: 2, vote_granted: false });
    assert_eq!(node.votes_received(), 1);
    node.handle_message(RaftMessage::VoteResponse { term: 2, vote_granted: true });
    assert_eq!(node.votes_received(), 2);
    assert_eq!(node.state(), NodeState::Candidate);
    node.handle_message(RaftMessage::VoteResponse { term: 2, vote_granted: true });
    assert_eq!(node.votes_received(), 3);
    assert_eq!(node.state(), NodeState::Leader);
    assert_eq!(node.leader_id(), Some(1));
    node.handle_message(RaftMessage::VoteResponse { term: 2, vote_granted: true });
    node.handle_message(RaftMessage::VoteResponse { term: 1, vote_granted: true });
    node.handle_message(RaftMessage::VoteResponse { term: 2, vote_granted: false });
    assert_eq!(node.votes_received(), 4);
    assert_eq!(node.state(), NodeState::Leader);
}

#[test]
fn room_for_an_event_ends_with_the_last_term() {
    let mut node = RaftNode::new(1, vec![2, 3]);
    assert!(node.can_dispatch(Event::ElectionTimeout));
    node.handle_message(RaftMessage::AppendEntries { term: u64::MAX, leader_id: 2 });
    assert_eq!(node.current_term(), u64::MAX);
    assert!(!node.can_dispatch(Event::ElectionTimeout));
    assert!(node.can_dispatch(Event::HeartbeatTick));
    assert!(node.can_dispatch(Event::Message(RaftMessage::VoteResponse {
        term: u64::MAX,
        vote_granted: true
    })));
}

#[test]
fn follower_does_not_count_votes() {
    let mut node = RaftNode::new(1, vec![2, 3]);
    node.handle_message(RaftMessage::VoteResponse { term: 0, vote_granted: true });
    node.handle_message(RaftMessage::VoteResponse { term: 0, vote_granted: true });
    assert_eq!(node.state(), NodeState::Follower);
    assert_eq!(node.votes_received(), 0);
}

#[test]
fn majority_is_half_of_the_peers_rounded_up() {
    let expected = [0, 1, 1, 2, 2, 3, 3, 4];
    for (peers, threshold) in expected.iter().enumerate() {
        assert_eq!(raft::raft_node::majority(peers), *threshold);
    }
    assert_eq!(raft::raft_node::majority(usize::MAX), (usize::MAX / 2) as u64 + 1);
}

#[test]
fn timers_follow_the_role() {
    let mut node = RaftNode::new(1, vec![2, 3]);
    let idle = node.dispatch(Event::HeartbeatTick);
    assert!(idle.outbound.is_empty());
    assert!(node.heartbeat().is_empty());

    let mut leader = leader_at(1, vec![2, 3], 2);
    let beat = RaftMessage::AppendEntries { term: 2, leader_id: 1 };
    let effects = leader.dispatch(Event::HeartbeatTick);
    assert_eq!(
        effects.outbound,
        vec![Envelope { to: 2, message: beat }, Envelope { to: 3, message: beat }]
    );
    assert!(!effects.reset_election_timer);
    let effects = leader.dispatch(Event::ElectionTimeout);
    assert!(effects.outbound.is_empty());
    assert!(effects.reset_election_timer);
    assert!(leader.is_leader());
    assert_eq!(leader.current_term(), 2);
}

#[test]
fn messages_start_the_timer_over_on_a_grant_and_on_accepted_entries_only() {
    let mut node = RaftNode::new(1, vec![2, 3]);
    let accepted = node.dispatch(Event::Message(RaftMessage::AppendEntries { term: 2, leader_id: 2 }));
    assert!(accepted.reset_election_timer);
    let refused = node.dispatch(Event::Message(RaftMessage::AppendEntries { term: 1, leader_id: 3 }));
    assert!(!refused.reset_election_timer);
    let granted = node.dispatch(Event::Message(RaftMessage::RequestVote { term: 2, candidate_id: 3 }));
    assert!(granted.reset_election_timer);
    let again = node.dispatch(Event::Message(RaftMessage::RequestVote { term: 2, candidate_id: 2 }));
    assert!(!again.reset_election_timer);
    let silent = node.dispatch(Event::Message(RaftMessage::VoteResponse { term: 2, vote_granted: true }));
    assert!(!silent.reset_election_timer);
    assert!(silent.outbound.is_empty());
    assert!(node.resets_timer(RaftMessage::RequestVote { term: 3, candidate_id: 2 }));
    assert!(!node.resets_timer(RaftMessage::AppendEntriesResponse { term: 3, success: true }));
}

#[test]
fn directory_resolves_its_own_peers_only() {
    let node = RaftNode::new(1, vec![20, 30]);
    assert_eq!(node.peer_address(30), Some(30));
    assert_eq!(node.peer_address(20), Some(20));
    assert_eq!(node.peer_address(1), None);
    assert_eq!(node.peer_address(40), None);
}
