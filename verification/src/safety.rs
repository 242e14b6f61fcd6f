//! Election safety: in every history of a cluster at most one peer leads
//! in any one term.

use crate::cluster::{is_run, Ballot, Cluster, Step};
use crate::model::NodeView;
use crate::raft_node::{Envelope, Event, NodeState, RaftMessage};
use vstd::multiset::Multiset;
use vstd::prelude::*;
use vstd::set_lib::{lemma_int_range, lemma_len_subset, lemma_set_disjoint_lens, set_int_range};

verus! {

/// The granted vote for `term` on its way to the peer `to`.
pub open spec fn granted(to: u64, term: u64) -> Envelope {
    Envelope { to, message: RaftMessage::VoteResponse { term, vote_granted: true } }
}

/// The peers, by index, that voted for `candidate` in `term`.
pub open spec fn supporters(c: Cluster, candidate: u64, term: u64) -> Set<int> {
    Set::new(|voter: int| c.ballots.contains(Ballot { voter, term, candidate }))
}

/// Every vote is that of a peer, in a term that the peer has reached.
spec fn ballots_bounded(c: Cluster) -> bool {
    forall|b: Ballot| #[trigger]
        c.ballots.contains(b) ==> 0 <= b.voter < c.nodes.len() && b.term
            <= c.nodes[b.voter].current_term
}

/// No peer has voted for two candidates in one term.
spec fn ballots_unique(c: Cluster) -> bool {
    forall|b1: Ballot, b2: Ballot|
        #[trigger] c.ballots.contains(b1) && #[trigger] c.ballots.contains(b2) && b1.voter
            == b2.voter && b1.term == b2.term ==> b1.candidate == b2.candidate
}

/// A peer that has voted in its present term remembers that it has.
spec fn ballots_locked(c: Cluster) -> bool {
    forall|b: Ballot| #[trigger]
        c.ballots.contains(b) && 0 <= b.voter < c.nodes.len() && b.term
            == c.nodes[b.voter].current_term ==> c.nodes[b.voter].voted_for is Some
}

/// No vote request is ahead of the candidate that it names.
spec fn requests_behind(c: Cluster) -> bool {
    forall|k: int, e: Envelope|
        0 <= k < c.nodes.len() && #[trigger] c.network.count(e) > 0 && e.message is RequestVote
            && e.message->candidate_id == (#[trigger] c.nodes[k]).id ==> e.message->RequestVote_term
            <= c.nodes[k].current_term
}

/// No granted vote is ahead of the candidate that it travels to.
spec fn grants_behind(c: Cluster) -> bool {
    forall|k: int, t: u64|
        0 <= k < c.nodes.len() && t > c.nodes[k].current_term ==> #[trigger] c.network.count(
            granted(c.nodes[k].id, t),
        ) == 0
}

/// The votes that a candidate or leader has counted, and those still on
/// their way to it, were all cast for it in its term.
spec fn tally_backed(c: Cluster) -> bool {
    forall|k: int|
        0 <= k < c.nodes.len() && (#[trigger] c.nodes[k]).state != NodeState::Follower
            ==> c.nodes[k].votes_received + c.network.count(
            granted(c.nodes[k].id, c.nodes[k].current_term),
        ) <= supporters(c, c.nodes[k].id, c.nodes[k].current_term).len()
}

/// A leader's tally is above its threshold.
spec fn leaders_elected(c: Cluster) -> bool {
    forall|k: int|
        0 <= k < c.nodes.len() && (#[trigger] c.nodes[k]).state == NodeState::Leader
            ==> c.nodes[k].votes_received > c.nodes[k].threshold()
}

/// What holds of every state of every history.
spec fn inv(c: Cluster) -> bool {
    &&& c.configured()
    &&& ballots_bounded(c)
    &&& ballots_unique(c)
    &&& ballots_locked(c)
    &&& requests_behind(c)
    &&& grants_behind(c)
    &&& tally_backed(c)
    &&& leaders_elected(c)
}

proof fn lemma_supporters_bounded(c: Cluster, candidate: u64, term: u64)
    requires
        ballots_bounded(c),
    ensures
        supporters(c, candidate, term).finite(),
        supporters(c, candidate, term).len() <= c.nodes.len(),
{
    let all = set_int_range(0, c.nodes.len() as int);
    lemma_int_range(0, c.nodes.len() as int);
    lemma_len_subset(supporters(c, candidate, term), all);
}

proof fn lemma_supporters_grow(c: Cluster, then: Cluster, candidate: u64, term: u64)
    requires
        ballots_bounded(then),
        c.ballots.subset_of(then.ballots),
    ensures
        supporters(c, candidate, term).len() <= supporters(then, candidate, term).len(),
{
    lemma_supporters_bounded(then, candidate, term);
    lemma_len_subset(supporters(c, candidate, term), supporters(then, candidate, term));
}

proof fn lemma_supporters_gain(c: Cluster, then: Cluster, b: Ballot)
    requires
        ballots_bounded(c),
        then.ballots == c.ballots.insert(b),
        forall|candidate: u64|
            !c.ballots.contains(Ballot { voter: b.voter, term: b.term, candidate }),
    ensures
        supporters(then, b.candidate, b.term).len() == supporters(c, b.candidate, b.term).len()
            + 1,
{
    lemma_supporters_bounded(c, b.candidate, b.term);
    assert(supporters(then, b.candidate, b.term) =~= supporters(c, b.candidate, b.term).insert(
        b.voter,
    ));
}

/// Two candidates of one term share no supporter, so that their
/// supporters together are no more than the peers.
proof fn lemma_rivals_share_none(c: Cluster, first: u64, second: u64, term: u64)
    requires
        ballots_bounded(c),
        ballots_unique(c),
        first != second,
    ensures
        supporters(c, first, term).len() + supporters(c, second, term).len() <= c.nodes.len(),
{
    let a = supporters(c, first, term);
    let b = supporters(c, second, term);
    let all = set_int_range(0, c.nodes.len() as int);
    lemma_supporters_bounded(c, first, term);
    lemma_supporters_bounded(c, second, term);
    lemma_int_range(0, c.nodes.len() as int);
    assert(a.disjoint(b));
    lemma_set_disjoint_lens(a, b);
    lemma_len_subset(a + b, all);
}

proof fn lemma_single_outbound(sent: Envelope, other: Envelope)
    ensures
        seq![sent].to_multiset().count(other) == if other == sent {
            1nat
        } else {
            0nat
        },
{
    let none = Seq::<Envelope>::empty();
    none.to_multiset_ensures();
    assert(none.to_multiset().count(other) == 0);
}

proof fn lemma_absent_outbound(sent: Seq<Envelope>, other: Envelope)
    requires
        forall|i: int| 0 <= i < sent.len() ==> sent[i] != other,
    ensures
        sent.to_multiset().count(other) == 0,
{
    sent.to_multiset_ensures();
}

/// Whether taking up `event` sends the granted vote for `term` to `to`.
spec fn grant_sent(c: Cluster, node: int, event: Event, to: u64, term: u64) -> bool {
    event matches Event::Message(RaftMessage::RequestVote { term: asked, candidate_id })
        && c.nodes[node].grants(asked) && candidate_id == to && asked == term
}

/// Whether taking up `event` takes the granted vote for `term` to `to`
/// from the network.
spec fn grant_taken(c: Cluster, node: int, event: Event, to: u64, term: u64) -> bool {
    event == Event::Message(RaftMessage::VoteResponse { term, vote_granted: true })
        && c.nodes[node].id == to
}

/// How many granted votes for `term` are under way to `to` after a peer
/// has taken up an event.
proof fn lemma_granted_flow(c: Cluster, node: int, event: Event, to: u64, term: u64)
    requires
        c.enabled(Step::Dispatch { node, event }),
    ensures
        c.after(Step::Dispatch { node, event }).network.count(granted(to, term))
            == c.network.count(granted(to, term)) + (if grant_sent(c, node, event, to, term) {
            1int
        } else {
            0int
        }) - (if grant_taken(c, node, event, to, term) {
            1int
        } else {
            0int
        }),
{
    let g = granted(to, term);
    let peer = c.nodes[node];
    let outbound = peer.dispatch(event).outbound;
    match event {
        Event::Message(message) => {
            match peer.reply(message) {
                Some(reply) => {
                    lemma_single_outbound(reply, g);
                },
                None => {
                    lemma_absent_outbound(outbound, g);
                },
            }
        },
        _ => {
            lemma_absent_outbound(outbound, g);
        },
    }
}

/// A vote request that is under way after a peer has taken up an event
/// was under way before, or is that of the election just begun.
proof fn lemma_request_flow(c: Cluster, node: int, event: Event, e: Envelope)
    requires
        c.enabled(Step::Dispatch { node, event }),
        e.message is RequestVote,
        c.after(Step::Dispatch { node, event }).network.count(e) > 0,
    ensures
        c.network.count(e) > 0 || (event == Event::ElectionTimeout && c.nodes[node].state
            != NodeState::Leader && e.message == RaftMessage::RequestVote {
            term: (c.nodes[node].current_term + 1) as u64,
            candidate_id: c.nodes[node].id,
        }),
{
    let peer = c.nodes[node];
    let outbound = peer.dispatch(event).outbound;
    match event {
        Event::Message(message) => {
            match peer.reply(message) {
                Some(reply) => {
                    lemma_single_outbound(reply, e);
                },
                None => {
                    lemma_absent_outbound(outbound, e);
                },
            }
        },
        Event::ElectionTimeout => {
            if c.network.count(e) == 0 {
                outbound.to_multiset_ensures();
            }
        },
        Event::HeartbeatTick => {
            lemma_absent_outbound(outbound, e);
        },
    }
}

/// What a dispatcher's step leaves alone.
proof fn lemma_dispatch_frame(c: Cluster, node: int, event: Event)
    requires
        inv(c),
        c.enabled(Step::Dispatch { node, event }),
    ensures
        ({
            let then = c.after(Step::Dispatch { node, event });
            &&& then.nodes.len() == c.nodes.len()
            &&& forall|k: int|
                0 <= k < c.nodes.len() && k != node ==> #[trigger] then.nodes[k] == c.nodes[k]
            &&& then.nodes[node] == c.nodes[node].dispatch(event).node
            &&& forall|k: int|
                0 <= k < c.nodes.len() ==> (#[trigger] then.nodes[k]).id == c.nodes[k].id
                    && then.nodes[k].other_nodes == c.nodes[k].other_nodes
                    && then.nodes[k].current_term >= c.nodes[k].current_term
            &&& c.ballots.subset_of(then.ballots)
            &&& then.configured()
        }),
{
}

/// The peer at index `node` has cast no vote in `term`.
spec fn has_not_voted(c: Cluster, node: int, term: u64) -> bool {
    forall|candidate: u64| !c.ballots.contains(Ballot { voter: node, term, candidate })
}

/// A vote is cast only by a peer that has not voted in that term.
proof fn lemma_cast_is_first(c: Cluster, node: int, event: Event)
    requires
        inv(c),
        c.enabled(Step::Dispatch { node, event }),
        c.cast(node, event) is Some,
    ensures
        has_not_voted(c, node, c.cast(node, event)->0.term),
        c.cast(node, event)->0.voter == node,
        c.cast(node, event)->0.term == c.nodes[node].dispatch(event).node.current_term,
        c.nodes[node].dispatch(event).node.voted_for is Some,
{
}

proof fn lemma_dispatch_ballots(c: Cluster, node: int, event: Event)
    requires
        inv(c),
        c.enabled(Step::Dispatch { node, event }),
    ensures
        ballots_bounded(c.after(Step::Dispatch { node, event })),
        ballots_unique(c.after(Step::Dispatch { node, event })),
        ballots_locked(c.after(Step::Dispatch { node, event })),
{
    lemma_dispatch_frame(c, node, event);
    if c.cast(node, event) is Some {
        lemma_cast_is_first(c, node, event);
    }
}

proof fn lemma_dispatch_requests(c: Cluster, node: int, event: Event)
    requires
        inv(c),
        c.enabled(Step::Dispatch { node, event }),
    ensures
        requests_behind(c.after(Step::Dispatch { node, event })),
{
    let then = c.after(Step::Dispatch { node, event });
    lemma_dispatch_frame(c, node, event);
    assert forall|k: int, e: Envelope|
        0 <= k < then.nodes.len() && #[trigger] then.network.count(e) > 0
            && e.message is RequestVote && e.message->candidate_id == (
        #[trigger] then.nodes[k]).id implies e.message->RequestVote_term
        <= then.nodes[k].current_term by {
        lemma_request_flow(c, node, event, e);
    }
}

proof fn lemma_dispatch_grants(c: Cluster, node: int, event: Event)
    requires
        inv(c),
        c.enabled(Step::Dispatch { node, event }),
    ensures
        grants_behind(c.after(Step::Dispatch { node, event })),
{
    let then = c.after(Step::Dispatch { node, event });
    lemma_dispatch_frame(c, node, event);
    assert forall|k: int, t: u64|
        0 <= k < then.nodes.len() && t > then.nodes[k].current_term implies #[trigger] then.network.count(
        granted(then.nodes[k].id, t),
    ) == 0 by {
        lemma_granted_flow(c, node, event, c.nodes[k].id, t);
    }
}

proof fn lemma_dispatch_tally(c: Cluster, node: int, event: Event)
    requires
        inv(c),
        c.enabled(Step::Dispatch { node, event }),
    ensures
        tally_backed(c.after(Step::Dispatch { node, event })),
        leaders_elected(c.after(Step::Dispatch { node, event })),
{
    let then = c.after(Step::Dispatch { node, event });
    lemma_dispatch_frame(c, node, event);
    lemma_dispatch_ballots(c, node, event);
    assert forall|k: int|
        0 <= k < then.nodes.len() && (#[trigger] then.nodes[k]).state
            != NodeState::Follower implies then.nodes[k].votes_received + then.network.count(
        granted(then.nodes[k].id, then.nodes[k].current_term),
    ) <= supporters(then, then.nodes[k].id, then.nodes[k].current_term).len() by {
        let id = then.nodes[k].id;
        let term = then.nodes[k].current_term;
        lemma_granted_flow(c, node, event, id, term);
        lemma_supporters_grow(c, then, id, term);
        if term == c.nodes[k].current_term {
            if grant_sent(c, node, event, id, term) {
                lemma_cast_is_first(c, node, event);
                lemma_supporters_gain(c, then, c.cast(node, event)->0);
            }
        } else {
            lemma_supporters_bounded(then, id, term);
            assert(supporters(then, id, term).contains(node));
        }
    }
}

/// Every step keeps what holds of every state.
proof fn lemma_step_inv(c: Cluster, step: Step)
    requires
        inv(c),
        c.enabled(step),
    ensures
        inv(c.after(step)),
        c.after(step).nodes.len() == c.nodes.len(),
        forall|k: int| 0 <= k < c.nodes.len() ==> (#[trigger] c.after(step).nodes[k]).id == c.nodes[k].id,
        c.ballots.subset_of(c.after(step).ballots),
{
    match step {
        Step::Dispatch { node, event } => {
            lemma_dispatch_frame(c, node, event);
            lemma_dispatch_ballots(c, node, event);
            lemma_dispatch_requests(c, node, event);
            lemma_dispatch_grants(c, node, event);
            lemma_dispatch_tally(c, node, event);
        },
        Step::Lose { .. } => {},
    }
}

proof fn lemma_initial_inv(c: Cluster)
    requires
        c.initial(),
    ensures
        inv(c),
{
}

/// What holds of every state holds of each state of a history, and the
/// peers are the same throughout.
proof fn lemma_run_inv(states: Seq<Cluster>, n: int)
    requires
        is_run(states),
        0 <= n < states.len(),
    ensures
        inv(states[n]),
        states[n].nodes.len() == states[0].nodes.len(),
        forall|k: int|
            0 <= k < states[0].nodes.len() ==> (#[trigger] states[n].nodes[k]).id
                == states[0].nodes[k].id,
    decreases n,
{
    if n == 0 {
        lemma_initial_inv(states[0]);
    } else {
        lemma_run_inv(states, n - 1);
        let before = states[n - 1];
        let step = choose|step: Step| #[trigger] before.steps_to(step, states[n]);
        lemma_step_inv(before, step);
    }
}

/// A vote once cast stays on record.
proof fn lemma_run_keeps_ballots(states: Seq<Cluster>, a: int, b: int)
    requires
        is_run(states),
        0 <= a <= b < states.len(),
    ensures
        states[a].ballots.subset_of(states[b].ballots),
    decreases b - a,
{
    if a < b {
        lemma_run_keeps_ballots(states, a, b - 1);
        lemma_run_inv(states, b - 1);
        let before = states[b - 1];
        let step = choose|step: Step| #[trigger] before.steps_to(step, states[b]);
        lemma_step_inv(before, step);
    }
}

/// A leader has the votes of more than half of the peers.
proof fn lemma_leader_has_majority(c: Cluster, node: int, term: u64)
    requires
        inv(c),
        c.leads(node, term),
    ensures
        2 * supporters(c, c.nodes[node].id, term).len() > c.nodes.len(),
{
}

proof fn lemma_leaders_in_order(states: Seq<Cluster>, a: int, b: int, i: int, j: int, term: u64)
    requires
        is_run(states),
        0 <= a <= b < states.len(),
        states[a].leads(i, term),
        states[b].leads(j, term),
    ensures
        i == j,
{
    let early = states[a];
    let late = states[b];
    lemma_run_inv(states, a);
    lemma_run_inv(states, b);
    lemma_run_keeps_ballots(states, a, b);
    lemma_leader_has_majority(early, i, term);
    lemma_leader_has_majority(late, j, term);
    lemma_supporters_grow(early, late, late.nodes[i].id, term);
    if i != j {
        lemma_rivals_share_none(late, late.nodes[i].id, late.nodes[j].id, term);
    }
}

/// Election safety. In a history of a configured cluster, where every
/// peer counts all the others as its peers, the peer that leads in a term
/// is the only one that ever leads in that term: if the peer at index `i`
/// leads in `term` in one state of the history and the peer at index `j`
/// leads in `term` in another or the same, they are one peer.
pub proof fn lemma_one_leader_per_term(
    states: Seq<Cluster>,
    a: int,
    b: int,
    i: int,
    j: int,
    term: u64,
)
    requires
        is_run(states),
        0 <= a < states.len(),
        0 <= b < states.len(),
        states[a].leads(i, term),
        states[b].leads(j, term),
    ensures
        i == j,
{
    if a <= b {
        lemma_leaders_in_order(states, a, b, i, j, term);
    } else {
        lemma_leaders_in_order(states, b, a, j, i, term);
    }
}

/// In a history of a configured cluster no peer votes for two candidates
/// in one term.
pub proof fn lemma_one_ballot_per_term(states: Seq<Cluster>, n: int, first: Ballot, second: Ballot)
    requires
        is_run(states),
        0 <= n < states.len(),
        states[n].ballots.contains(first),
        states[n].ballots.contains(second),
        first.voter == second.voter,
        first.term == second.term,
    ensures
        first.candidate == second.candidate,
{
    lemma_run_inv(states, n);
}

/// In a history of a configured cluster a leader has the votes of more
/// than half of the peers, its own among them, all cast in its term.
pub proof fn lemma_leader_is_elected(states: Seq<Cluster>, n: int, node: int, term: u64)
    requires
        is_run(states),
        0 <= n < states.len(),
        states[n].leads(node, term),
    ensures
        supporters(states[n], states[n].nodes[node].id, term).finite(),
        2 * supporters(states[n], states[n].nodes[node].id, term).len() > states[n].nodes.len(),
{
    lemma_run_inv(states, n);
    lemma_leader_has_majority(states[n], node, term);
    lemma_supporters_bounded(states[n], states[n].nodes[node].id, term);
}

/// In a history of a cluster of no more than 2^64 - 1 peers, a peer has
/// room in its tally for every vote that is under way to it: no message
/// ever waits for want of room.
pub proof fn lemma_tally_has_room(states: Seq<Cluster>, n: int, node: int, message: RaftMessage)
    requires
        is_run(states),
        0 <= n < states.len(),
        0 <= node < states[n].nodes.len() <= u64::MAX,
        states[n].network.count(states[n].addressed(node, message)) > 0,
    ensures
        states[n].nodes[node].can_handle(message),
{
    let c = states[n];
    let peer = c.nodes[node];
    lemma_run_inv(states, n);
    if message matches RaftMessage::VoteResponse { term, vote_granted } && peer.counts(
        term,
        vote_granted,
    ) {
        lemma_supporters_bounded(c, peer.id, peer.current_term);
    }
}

/// In a history of a cluster no peer's term ever decreases.
pub proof fn lemma_run_terms_never_decrease(states: Seq<Cluster>, a: int, b: int, node: int)
    requires
        is_run(states),
        0 <= a <= b < states.len(),
        0 <= node < states[a].nodes.len(),
    ensures
        node < states[b].nodes.len(),
        states[a].nodes[node].current_term <= states[b].nodes[node].current_term,
    decreases b - a,
{
    lemma_run_inv(states, a);
    lemma_run_inv(states, b);
    if a < b {
        lemma_run_terms_never_decrease(states, a, b - 1, node);
        lemma_run_inv(states, b - 1);
        let before = states[b - 1];
        let step = choose|step: Step| #[trigger] before.steps_to(step, states[b]);
        if let Step::Dispatch { node: at, event } = step {
            lemma_dispatch_frame(before, at, event);
        }
    }
}

/// The histories are not empty words: in a cluster of two new peers, the
/// first to time out is elected once the other has granted its request.
/// The history that is returned ends with that peer leading in term 1.
pub proof fn lemma_a_leader_can_be_elected() -> (states: Seq<Cluster>)
    ensures
        is_run(states),
        states.last().leads(0, 1),
{
    let first = NodeView::initial(1, seq![2u64]);
    let second = NodeView::initial(2, seq![1u64]);
    let begin = Cluster {
        nodes: seq![first, second],
        network: Multiset::empty(),
        ballots: Set::empty(),
    };
    let ask = RaftMessage::RequestVote { term: 1, candidate_id: 1 };
    let yes = RaftMessage::VoteResponse { term: 1, vote_granted: true };
    let timeout = Step::Dispatch { node: 0, event: Event::ElectionTimeout };
    let vote = Step::Dispatch { node: 1, event: Event::Message(ask) };
    let count = Step::Dispatch { node: 0, event: Event::Message(yes) };
    assert(begin.initial());
    let asked = begin.after(timeout);
    assert(first.start_election().vote_requests() =~= seq![Envelope { to: 2, message: ask }]);
    lemma_single_outbound(Envelope { to: 2, message: ask }, Envelope { to: 2, message: ask });
    assert(begin.steps_to(timeout, asked));
    let voted = asked.after(vote);
    lemma_single_outbound(Envelope { to: 1, message: yes }, Envelope { to: 1, message: yes });
    assert(asked.steps_to(vote, voted));
    let elected = voted.after(count);
    assert(voted.steps_to(count, elected));
    let states = seq![begin, asked, voted, elected];
    assert forall|n: int| 0 <= n < states.len() - 1 implies (#[trigger] states[n]).next(
        states[n + 1],
    ) by {
        if n == 0 {
            assert(states[0].steps_to(timeout, states[1]));
        } else if n == 1 {
            assert(states[1].steps_to(vote, states[2]));
        } else {
            assert(states[2].steps_to(count, states[3]));
        }
    }
    states
}

} // verus!
