//! A node as the replicated log will see it: the operations that a log
//! entry can carry, and the node's place in the cluster.

use vstd::prelude::*;

verus! {

/// An operation on the database. Every entry of the log is one.
#[derive(Clone, Copy, PartialEq, Eq, Structural)]
pub enum Action {
    Create { key: u32, val: u32 },
    Read { key: u32 },
    Write { key: u32, val: u32 },
    Delete { key: u32 },
}

/// An entry of the log, between the entry before it and the one after.
pub struct Log {
    id: u32,
    cur: Action,
    prev: Option<Box<Log>>,
    next: Option<Box<Log>>,
}

/// A node of one cluster.
pub struct Node {
    log_head: Option<Log>,
    cur: Option<Action>,
    is_leader: bool,
    port: u32,
}

impl Node {
    /// Whether the node has neither a log nor an operation under way.
    pub closed spec fn is_idle(&self) -> bool {
        self.log_head is None && self.cur is None
    }

    pub closed spec fn spec_is_leader(&self) -> bool {
        self.is_leader
    }

    pub closed spec fn spec_port(&self) -> u32 {
        self.port
    }

    /// An idle node at `port` that does not lead.
    pub fn new(port: u32) -> (node: Node)
        ensures
            node.is_idle(),
            !node.is_leader(),
            node.port() == port,
    {
        Node { log_head: None, cur: None, is_leader: false, port: port }
    }

    #[verifier::when_used_as_spec(spec_is_leader)]
    pub fn is_leader(&self) -> (leader: bool)
        ensures
            leader == self.spec_is_leader(),
    {
        self.is_leader
    }

    #[verifier::when_used_as_spec(spec_port)]
    pub fn port(&self) -> (port: u32)
        ensures
            port == self.spec_port(),
    {
        self.port
    }
}

} // verus!
