//! Routing of Raft calls between the nodes of one process: one channel for each node, which all
//! of its groups share.

use std::collections::{HashMap, HashSet};

use vstd::prelude::*;

use crate::standby_throttle::StandbyThrottle;
use crate::text;
use crate::type_config::NodeId;

verus! {

broadcast use vstd::std_specs::hash::group_hash_axioms;

/// Why a call did not get through.
#[derive(Debug)]
pub struct RouterError(pub String);

impl RouterError {
    pub fn message(&self) -> (r: &str)
        ensures
            r@ == self.0@,
    {
        self.0.as_str()
    }
}

/// A Raft call, or its reply, by its kind.
#[derive(Clone, Copy, Debug, PartialEq, Eq, Structural)]
pub enum CallKind {
    Vote,
    Append,
    Snapshot,
    Transfer,
}

/// What a node answers to a call.
#[derive(Debug)]
pub enum RaftReply<R> {
    /// The group's answer to a call of that kind, or its error as text.
    Answer { kind: CallKind, result: Result<R, String> },
    /// The node has no such group.
    MissingGroup,
}

/// The channels of the nodes, by number, and the throttle of sends to standbys.
#[derive(Debug)]
pub struct Router {
    pub nodes: HashMap<u64, u64>,
    /// Every node that has had a channel.
    pub peers: HashSet<u64>,
    pub throttle: StandbyThrottle,
}

/// How far a send has come.
#[derive(Clone, Copy, Debug, PartialEq, Eq, Structural)]
pub enum SendStatus {
    /// The message is in the channel.
    Sent,
    /// The channel is full: the send waits for room.
    Full,
    /// The channel is closed.
    Closed,
}

/// What a send does next.
#[derive(Debug)]
pub enum SendStep {
    /// Wait for the reply.
    AwaitReply,
    /// Wait for room in the channel, then for the reply.
    AwaitRoom,
    /// Give up.
    Fail(RouterError),
}

impl Router {
    /// The channel of each node that is connected.
    pub open spec fn channels(&self) -> Map<NodeId, u64> {
        self.nodes@
    }

    /// Every node that has had a channel.
    pub open spec fn links(&self) -> Set<NodeId> {
        self.peers@
    }

    pub open spec fn wf(&self) -> bool {
        self.throttle.wf() && self.links().finite()
    }

    pub fn new() -> (r: Self)
        ensures
            r.wf(),
            r.channels() == Map::<NodeId, u64>::empty(),
            r.links() == Set::<NodeId>::empty(),
            r.throttle.ids() == Set::<NodeId>::empty(),
            r.throttle.delay() == 0,
            r.throttle.limit() == crate::standby_throttle::DEFAULT_MAX_INFLIGHT,
    {
        Router {
            nodes: HashMap::new(),
            peers: HashSet::new(),
            throttle: StandbyThrottle::default(),
        }
    }

    pub fn throttle(&self) -> (r: &StandbyThrottle)
        ensures
            *r == self.throttle,
    {
        &self.throttle
    }

    /// Connects `node_id` through the channel `tx`, in place of the one it had.
    pub fn register_node(&mut self, node_id: NodeId, tx: u64)
        requires
            old(self).wf(),
        ensures
            final(self).wf(),
            final(self).channels() == old(self).channels().insert(node_id, tx),
            final(self).links() == old(self).links().insert(node_id),
            final(self).throttle == old(self).throttle,
    {
        self.nodes.insert(node_id, tx);
        self.peers.insert(node_id);
    }

    /// Disconnects `node_id`; its channel, if it had one.
    pub fn unregister_node(&mut self, node_id: NodeId) -> (r: Option<u64>)
        requires
            old(self).wf(),
        ensures
            final(self).wf(),
            final(self).channels() == old(self).channels().remove(node_id),
            final(self).links() == old(self).links(),
            final(self).throttle == old(self).throttle,
            r == (if old(self).channels().contains_key(node_id) {
                Some(old(self).channels()[node_id])
            } else {
                None
            }),
    {
        let r = self.nodes.remove(&node_id);
        assert(self.nodes@ =~= old(self).nodes@.remove(node_id));
        r
    }

    /// How many nodes have been connected: links are counted by node, however many groups use
    /// them and however often a node comes back.
    pub fn unique_peer_links(&self) -> (r: usize)
        ensures
            r == self.links().len(),
    {
        self.peers.len()
    }

    pub fn has_node(&self, node_id: NodeId) -> (r: bool)
        ensures
            r == self.channels().contains_key(node_id),
    {
        self.nodes.contains_key(&node_id)
    }

    /// The channel for a call to `to_node`, once the throttle let it pass.
    pub fn send_call(&self, to_node: NodeId) -> (r: Result<u64, RouterError>)
        ensures
            match r {
                Ok(tx) => self.channels().contains_key(to_node) && tx == self.channels()[to_node],
                Err(e) => !self.channels().contains_key(to_node) && e.0@ == "node "@
                    + text::decimal(to_node as nat) + " not connected"@,
            },
    {
        match self.nodes.get(&to_node) {
            Some(tx) => Ok(*tx),
            None => {
                let mut m = "node ".to_owned();
                m.append(text::decimal_text(to_node).as_str());
                m.append(" not connected");
                Err(RouterError(m))
            },
        }
    }

    /// What follows a first attempt to put a call into its channel.
    pub fn after_try_send(status: SendStatus) -> (r: SendStep)
        ensures
            match status {
                SendStatus::Sent => r is AwaitReply,
                SendStatus::Full => r is AwaitRoom,
                SendStatus::Closed => r matches SendStep::Fail(e) && e.0@ == "node channel closed"@,
            },
    {
        match status {
            SendStatus::Sent => SendStep::AwaitReply,
            SendStatus::Full => SendStep::AwaitRoom,
            SendStatus::Closed => SendStep::Fail(RouterError("node channel closed".to_owned())),
        }
    }

    /// What a call of kind `kind` gives back for `reply`. An answer to another kind of call is no
    /// answer.
    pub fn unpack<R>(kind: CallKind, reply: RaftReply<R>) -> (r: Result<R, RouterError>)
        ensures
            match reply {
                RaftReply::MissingGroup => r matches Err(e) && e.0@ == "missing group"@,
                RaftReply::Answer { kind: k, result } => if k != kind {
                    r matches Err(e) && e.0@ == "reply type mismatch"@
                } else {
                    match result {
                        Ok(x) => r == Ok::<R, RouterError>(x),
                        Err(m) => r matches Err(e) && e.0@ == m@,
                    }
                },
            },
    {
        match reply {
            RaftReply::MissingGroup => Err(RouterError("missing group".to_owned())),
            RaftReply::Answer { kind: k, result } => {
                if k != kind {
                    Err(RouterError("reply type mismatch".to_owned()))
                } else {
                    match result {
                        Ok(x) => Ok(x),
                        Err(m) => Err(RouterError(m)),
                    }
                }
            },
        }
    }
}

/// A node that leaves and comes back is counted as one link, and is connected again.
pub proof fn law_restart_keeps_links(links: Set<NodeId>, channels: Map<NodeId, u64>, node: NodeId, tx: u64)
    requires
        links.finite(),
        links.contains(node),
    ensures
        links.insert(node).len() == links.len(),
        channels.remove(node).insert(node, tx).contains_key(node),
{
    assert(links.insert(node) =~= links);
}

} // verus!
