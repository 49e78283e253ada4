//! What can go wrong with a request, and what a request gives back.

use vstd::prelude::*;

use crate::type_config::{GroupId, NodeId};

verus! {

#[derive(Debug)]
pub enum MultiRaftError {
    /// This node does not lead the group; `hint` is the leader it knows of.
    NotLeader { hint: Option<NodeId> },
    /// This node has no such group.
    UnknownGroup(GroupId),
    /// Local reads are switched off on this node.
    StaleQueriesDisabled,
    Other(String),
}

/// `e` is `Other` with the text `t`.
pub open spec fn is_other(e: MultiRaftError, t: Seq<char>) -> bool {
    e matches MultiRaftError::Other(m) && m@ == t
}

/// Where a proposal was committed.
#[derive(Clone, Copy, Debug, PartialEq, Eq, Structural)]
pub struct ProposeOk {
    pub index: u64,
    pub term: u64,
}

/// A value read from this node's own state, and how far that state had come.
#[derive(Debug)]
pub struct StaleRead<R> {
    pub value: R,
    pub applied_index: u64,
    pub applied_term: u64,
}

} // verus!
