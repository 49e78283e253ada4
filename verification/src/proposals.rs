//! Proposals and reads: what is sent to a group's Raft, and what its answers come to.

use vstd::prelude::*;

use crate::error;
use crate::error::{MultiRaftError, ProposeOk, StaleRead};
use crate::multiraft::MultiRaft;
use crate::snapshot;
use crate::text;
use crate::type_config::{GroupId, LogId, NodeId, Request};

verus! {

/// What Raft answers to a write.
#[derive(Debug)]
pub enum WriteReply {
    /// It was committed and applied as this entry.
    Applied(LogId),
    /// Another node leads the group.
    Forward { leader: Option<NodeId> },
    Failed(String),
}

/// One answer in the stream of answers to many writes.
#[derive(Debug)]
pub enum StreamItem {
    Applied(LogId),
    Forward { leader: Option<NodeId> },
    /// The stream broke.
    Broken(String),
}

/// What Raft answers when asked whether this node may serve a read.
#[derive(Debug)]
pub enum ReadReply {
    Confirmed,
    Forward { leader: Option<NodeId> },
    Failed(String),
}

/// Where the entry was committed.
pub open spec fn committed_at(id: LogId) -> ProposeOk {
    ProposeOk { index: id.index, term: id.term }
}

/// The requests carry the payloads, in order.
pub open spec fn carry(requests: Seq<Request>, payloads: Seq<Vec<u8>>) -> bool {
    &&& requests.len() == payloads.len()
    &&& forall|i: int| 0 <= i < payloads.len() ==> (#[trigger] requests[i]).data == payloads[i]
}

/// Every item was applied.
pub open spec fn all_applied(items: Seq<StreamItem>) -> bool {
    forall|i: int| 0 <= i < items.len() ==> #[trigger] items[i] is Applied
}

/// The item at `k` is the first that was not applied.
pub open spec fn first_not_applied(items: Seq<StreamItem>, k: int) -> bool {
    &&& 0 <= k < items.len()
    &&& !(items[k] is Applied)
    &&& forall|i: int| 0 <= i < k ==> #[trigger] items[i] is Applied
}

/// `e` says why the item was not applied.
pub open spec fn is_fault_of(e: MultiRaftError, item: StreamItem) -> bool {
    match item {
        StreamItem::Applied(_) => false,
        StreamItem::Forward { leader } => e == (MultiRaftError::NotLeader { hint: leader }),
        StreamItem::Broken(m) => error::is_other(e, "client_write_many stream: "@ + m@),
    }
}

impl MultiRaft {
    /// The request for a payload, if this node has the group.
    pub fn propose(&self, group: GroupId, data: Vec<u8>) -> (r: Result<Request, MultiRaftError>)
        ensures
            match self.view_of(group) {
                Some(_) => r matches Ok(q) && q.data == data,
                None => r == Err::<Request, MultiRaftError>(MultiRaftError::UnknownGroup(group)),
            },
    {
        match self.raft(group) {
            Ok(_) => Ok(Request::new(data)),
            Err(e) => Err(e),
        }
    }

    /// The request that has standbys build a snapshot of `group`.
    pub fn trigger_standby_snapshot(&self, group: GroupId) -> (r: Result<Request, MultiRaftError>)
        ensures
            match self.view_of(group) {
                Some(_) => r matches Ok(q) && q.data@ == snapshot::STANDBY_SNAPSHOT_TRIGGER@,
                None => r == Err::<Request, MultiRaftError>(MultiRaftError::UnknownGroup(group)),
            },
    {
        let mut data: Vec<u8> = Vec::new();
        let mut i: usize = 0;
        while i < 36
            invariant
                i <= 36,
                data@ == snapshot::STANDBY_SNAPSHOT_TRIGGER@.take(i as int),
            decreases 36 - i,
        {
            data.push(snapshot::STANDBY_SNAPSHOT_TRIGGER[i]);
            assert(data@ =~= snapshot::STANDBY_SNAPSHOT_TRIGGER@.take(i + 1));
            i = i + 1;
        }
        assert(data@ =~= snapshot::STANDBY_SNAPSHOT_TRIGGER@);
        self.propose(group, data)
    }

    /// The requests for many payloads, one for each; without payloads there is nothing to ask, not
    /// even whether this node has the group.
    pub fn propose_batch(&self, group: GroupId, payloads: Vec<Vec<u8>>) -> (r: Result<
        Vec<Request>,
        MultiRaftError,
    >)
        ensures
            if payloads@.len() == 0 || self.view_of(group) is Some {
                r matches Ok(q) && carry(q@, payloads@)
            } else {
                r == Err::<Vec<Request>, MultiRaftError>(MultiRaftError::UnknownGroup(group))
            },
    {
        let mut out: Vec<Request> = Vec::new();
        if payloads.len() == 0 {
            return Ok(out);
        }
        match self.raft(group) {
            Err(e) => {
                return Err(e);
            },
            Ok(_) => {},
        }
        for data in it: payloads
            invariant
                it.seq() == payloads@,
                carry(out@, payloads@.take(it.index() as int)),
        {
            out.push(Request::new(data));
        }
        assert(payloads@.take(payloads@.len() as int) =~= payloads@);
        Ok(out)
    }

    /// What a write comes to: where it was committed, a hint at the leader, or the failure.
    pub fn client_write_one(reply: WriteReply) -> (r: Result<ProposeOk, MultiRaftError>)
        ensures
            match reply {
                WriteReply::Applied(id) => r == Ok::<ProposeOk, MultiRaftError>(committed_at(id)),
                WriteReply::Forward { leader } => r == Err::<ProposeOk, MultiRaftError>(
                    MultiRaftError::NotLeader { hint: leader },
                ),
                WriteReply::Failed(m) => r matches Err(e) && error::is_other(
                    e,
                    "client_write: "@ + m@,
                ),
            },
    {
        match reply {
            WriteReply::Applied(id) => Ok(ProposeOk { index: id.index, term: id.term }),
            WriteReply::Forward { leader } => Err(MultiRaftError::NotLeader { hint: leader }),
            WriteReply::Failed(m) => Err(
                MultiRaftError::Other(text::concat("client_write: ", m.as_str())),
            ),
        }
    }

    /// The requests for many payloads that go to Raft together; as with `propose_batch`, there is
    /// nothing to ask without payloads.
    pub fn propose_many(&self, group: GroupId, payloads: Vec<Vec<u8>>) -> (r: Result<
        Vec<Request>,
        MultiRaftError,
    >)
        ensures
            if payloads@.len() == 0 || self.view_of(group) is Some {
                r matches Ok(q) && carry(q@, payloads@)
            } else {
                r == Err::<Vec<Request>, MultiRaftError>(MultiRaftError::UnknownGroup(group))
            },
    {
        self.propose_batch(group, payloads)
    }

    /// What a stream of answers comes to: where each write was committed, in order, or what became
    /// of the first that was not. `refused`: Raft did not take the writes at all.
    pub fn many_outcome(refused: Option<String>, items: &Vec<StreamItem>) -> (r: Result<
        Vec<ProposeOk>,
        MultiRaftError,
    >)
        ensures
            match refused {
                Some(m) => r matches Err(e) && error::is_other(e, "client_write_many: "@ + m@),
                None => match r {
                    Ok(out) => {
                        &&& all_applied(items@)
                        &&& out@ == items@.map_values(|i: StreamItem| committed_at(i->Applied_0))
                    },
                    Err(e) => exists|k: int| #[trigger]
                        first_not_applied(items@, k) && is_fault_of(e, items@[k]),
                },
            },
    {
        match refused {
            Some(m) => {
                return Err(
                    MultiRaftError::Other(text::concat("client_write_many: ", m.as_str())),
                );
            },
            None => {},
        }
        let mut out: Vec<ProposeOk> = Vec::new();
        let ghost want = items@.map_values(|i: StreamItem| committed_at(i->Applied_0));
        let mut i: usize = 0;
        while i < items.len()
            invariant
                i <= items@.len(),
                refused is None,
                want == items@.map_values(|i: StreamItem| committed_at(i->Applied_0)),
                out@ == want.take(i as int),
                forall|j: int| 0 <= j < i ==> #[trigger] items@[j] is Applied,
            decreases items@.len() - i,
        {
            match &items[i] {
                StreamItem::Applied(id) => {
                    out.push(ProposeOk { index: id.index, term: id.term });
                    assert(out@ =~= want.take(i + 1));
                },
                StreamItem::Forward { leader } => {
                    assert(first_not_applied(items@, i as int));
                    return Err(MultiRaftError::NotLeader { hint: *leader });
                },
                StreamItem::Broken(m) => {
                    assert(first_not_applied(items@, i as int));
                    return Err(
                        MultiRaftError::Other(
                            text::concat("client_write_many stream: ", m.as_str()),
                        ),
                    );
                },
            }
            i = i + 1;
        }
        assert(want.take(i as int) =~= want);
        Ok(out)
    }

    /// Whether this node may answer a read of `group` from its state machine: `reply` is Raft's
    /// answer. `present`: the state machine is still there once Raft has answered.
    pub fn read_linearizable(&self, group: GroupId, reply: ReadReply, present: bool) -> (r: Result<
        (),
        MultiRaftError,
    >)
        ensures
            match self.view_of(group) {
                None => r == Err::<(), MultiRaftError>(MultiRaftError::UnknownGroup(group)),
                Some(_) => match reply {
                    ReadReply::Confirmed => if present {
                        r is Ok
                    } else {
                        r matches Err(e) && error::is_other(
                            e,
                            "read_linearizable: fsm missing for group "@ + text::decimal(
                                group as nat,
                            ),
                        )
                    },
                    ReadReply::Forward { leader } => r == Err::<(), MultiRaftError>(
                        MultiRaftError::NotLeader { hint: leader },
                    ),
                    ReadReply::Failed(m) => r matches Err(e) && error::is_other(
                        e,
                        "ensure_linearizable: "@ + m@,
                    ),
                },
            },
    {
        match self.raft(group) {
            Err(e) => {
                return Err(e);
            },
            Ok(_) => {},
        }
        match reply {
            ReadReply::Confirmed => {
                if present {
                    Ok(())
                } else {
                    Err(
                        MultiRaftError::Other(
                            text::concat(
                                "read_linearizable: fsm missing for group ",
                                text::decimal_text(group).as_str(),
                            ),
                        ),
                    )
                }
            },
            ReadReply::Forward { leader } => Err(MultiRaftError::NotLeader { hint: leader }),
            ReadReply::Failed(m) => Err(
                MultiRaftError::Other(text::concat("ensure_linearizable: ", m.as_str())),
            ),
        }
    }

    /// Whether this node answers a read of `group` from its own state, and the mark that goes with
    /// the answer: how far that state has come, (0, 0) where that is unknown.
    pub fn read_stale(&self, group: GroupId) -> (r: Result<(u64, u64), MultiRaftError>)
        ensures
            if !self.config.enable_stale_queries {
                r == Err::<(u64, u64), MultiRaftError>(MultiRaftError::StaleQueriesDisabled)
            } else {
                match self.view_of(group) {
                    None => r == Err::<(u64, u64), MultiRaftError>(
                        MultiRaftError::UnknownGroup(group),
                    ),
                    Some(_) => r == Ok::<(u64, u64), MultiRaftError>(
                        crate::recovery::applied_or_zero(*self, group),
                    ),
                }
            },
    {
        if !self.config.enable_stale_queries {
            return Err(MultiRaftError::StaleQueriesDisabled);
        }
        match self.raft(group) {
            Err(e) => Err(e),
            Ok(v) => Ok(
                match v.applied {
                    Some(p) => p,
                    None => (0, 0),
                },
            ),
        }
    }

    /// The answer to a stale read: the value with its mark.
    pub fn stale_answer<R>(value: R, mark: (u64, u64)) -> (r: StaleRead<R>)
        ensures
            r.value == value,
            r.applied_index == mark.0,
            r.applied_term == mark.1,
    {
        StaleRead { value, applied_index: mark.0, applied_term: mark.1 }
    }
}

} // verus!
