use raft::raft_node::{Envelope, NodeState, RaftMessage, RaftNode};
use std::collections::{BTreeMap, HashSet};

#[derive(Clone)]
struct World {
    nodes: Vec<RaftNode>,
    network: Vec<Envelope>,
    elections_left: u32,
    leaders: BTreeMap<u64, u64>,
}

fn key(world: &World) -> String {
    let mut network: Vec<String> = world.network.iter().map(|e| format!("{:?}", e)).collect();
    network.sort();
    format!("{:?}|{:?}|{}|{:?}", world.nodes, network, world.elections_left, world.leaders)
}

fn note_leaders(world: &mut World) {
    for node in &world.nodes {
        if node.state() == NodeState::Leader {
            let known = *world.leaders.entry(node.current_term()).or_insert(node.id());
            assert_eq!(known, node.id(), "two leaders in term {}", node.current_term());
        }
    }
}

fn explore(start: World) -> usize {
    let mut seen: HashSet<String> = HashSet::new();
    let mut open: Vec<World> = vec![start];
    let mut elected = 0;
    while let Some(world) = open.pop() {
        if !seen.insert(key(&world)) {
            continue;
        }
        if world.elections_left > 0 {
            for i in 0..world.nodes.len() {
                if world.nodes[i].state() == NodeState::Leader {
                    continue;
                }
                let mut next = world.clone();
                next.elections_left -= 1;
                let requests = next.nodes[i].start_election();
                next.network.extend(requests);
                note_leaders(&mut next);
                open.push(next);
            }
        }
        for k in 0..world.network.len() {
            let mut next = world.clone();
            let envelope = next.network.remove(k);
            let target = next.nodes.iter().position(|n| n.id() == envelope.to);
            if let Some(i) = target {
                if let Some(reply) = next.nodes[i].handle_message(envelope.message) {
                    next.network.push(reply);
                }
            }
            note_leaders(&mut next);
            if next.nodes.iter().any(|n| n.is_leader()) {
                elected += 1;
            }
            open.push(next);
        }
    }
    assert!(elected > 0);
    seen.len()
}

fn cluster(size: u64, elections: u32) -> World {
    let ids: Vec<u64> = (1..=size).collect();
    let nodes = ids
        .iter()
        .map(|id| RaftNode::new(*id, ids.iter().copied().filter(|other| other != id).collect()))
        .collect();
    World { nodes, network: Vec::new(), elections_left: elections, leaders: BTreeMap::new() }
}

#[test]
fn three_nodes_never_have_two_leaders_in_a_term() {
    let states = explore(cluster(3, 3));
    assert!(states > 1000);
}

#[test]
fn four_nodes_never_have_two_leaders_in_a_term() {
    let states = explore(cluster(4, 2));
    assert!(states > 10000);
}

#[test]
fn a_reply_is_a_vote_for_the_candidate_of_that_term_only() {
    let mut voter = RaftNode::new(2, vec![1, 3]);
    let granted = voter.handle_message(RaftMessage::RequestVote { term: 1, candidate_id: 1 });
    assert_eq!(
        granted,
        Some(Envelope { to: 1, message: RaftMessage::VoteResponse { term: 1, vote_granted: true } })
    );
    let later = voter.handle_message(RaftMessage::RequestVote { term: 2, candidate_id: 3 });
    assert_eq!(
        later,
        Some(Envelope { to: 3, message: RaftMessage::VoteResponse { term: 2, vote_granted: true } })
    );
    assert_eq!(voter.voted_for(), Some(3));
}
