use raft::node::{Action, Node};

#[test]
fn new_node_does_not_lead() {
    let node = Node::new(8080);
    assert_eq!(node.port(), 8080);
    assert!(!node.is_leader());
}

#[test]
fn actions_compare_by_their_fields() {
    assert!(Action::Create { key: 1, val: 2 } == Action::Create { key: 1, val: 2 });
    assert!(Action::Write { key: 1, val: 2 } != Action::Create { key: 1, val: 2 });
    assert!(Action::Read { key: 1 } != Action::Delete { key: 1 });
}
