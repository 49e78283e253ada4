//! Identifiers, requests and responses shared by every group.

use vstd::prelude::*;

use crate::text;

verus! {

/// A Raft group.
pub type GroupId = u64;

/// A node of the cluster.
pub type NodeId = u64;

/// Where an entry stands in a log: the leader that proposed it, and its index.
#[derive(Clone, Copy, Debug, PartialEq, Eq, Structural)]
pub struct LogId {
    pub term: u64,
    pub node_id: u64,
    pub index: u64,
}

impl LogId {
    /// Log ids are ordered by term, then by proposing node, then by index.
    pub open spec fn spec_le(self, other: LogId) -> bool {
        self.term < other.term || (self.term == other.term && (self.node_id < other.node_id || (
        self.node_id == other.node_id && self.index <= other.index)))
    }
}

/// An optional log id is at most `b`; `None` comes before every log id.
pub open spec fn opt_log_id_le(a: Option<LogId>, b: LogId) -> bool {
    match a {
        None => true,
        Some(x) => x.spec_le(b),
    }
}

/// The vote a node has cast or accepted.
#[derive(Clone, Copy, Debug, PartialEq, Eq, Structural)]
pub struct Vote {
    pub term: u64,
    pub node_id: u64,
    pub committed: bool,
}

/// Application write request: opaque bytes that the group's state machine applies.
#[derive(Debug)]
pub struct Request {
    pub data: Vec<u8>,
}

impl Request {
    pub fn new(data: Vec<u8>) -> (r: Self)
        ensures
            r.data == data,
    {
        Request { data }
    }

    /// `Request(<n> bytes)`.
    pub fn display(&self) -> (r: String)
        ensures
            r@ == "Request("@ + text::decimal(self.data@.len()) + " bytes)"@,
    {
        let mut out = "Request(".to_owned();
        let n: u64 = self.data.len() as u64;
        out.append(text::decimal_text(n).as_str());
        out.append(" bytes)");
        out
    }
}

/// Application response returned after a log entry is applied.
#[derive(Debug)]
pub struct Response {
    pub effects: Vec<u8>,
}

impl Clone for Request {
    fn clone(&self) -> (r: Self)
        ensures
            r.data@ == self.data@,
    {
        let mut data: Vec<u8> = Vec::new();
        data.extend_from_slice(self.data.as_slice());
        assert(data@ =~= self.data@);
        Request { data }
    }
}

impl Clone for Response {
    fn clone(&self) -> (r: Self)
        ensures
            r.effects@ == self.effects@,
    {
        let mut effects: Vec<u8> = Vec::new();
        effects.extend_from_slice(self.effects.as_slice());
        assert(effects@ =~= self.effects@);
        Response { effects }
    }
}

impl Response {
    pub fn new(effects: Vec<u8>) -> (r: Self)
        ensures
            r.effects == effects,
    {
        Response { effects }
    }

    /// A response without effects.
    pub fn none() -> (r: Self)
        ensures
            r.effects@.len() == 0,
    {
        Response { effects: Vec::new() }
    }
}

impl Default for Response {
    fn default() -> (r: Self)
        ensures
            r.effects@.len() == 0,
    {
        Response { effects: Vec::new() }
    }
}

} // verus!
