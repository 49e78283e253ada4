//! A node's receiving side: calls go to a fixed set of workers, and each worker to the group that
//! is called.

use vstd::prelude::*;

use crate::router::{CallKind, RaftReply, SendStatus};
use crate::type_config::GroupId;

verus! {

/// The room for calls of a node.
pub const NODE_CHANNEL: usize = 16384;

/// The number of workers of a node.
pub const RPC_WORKERS: usize = 32;

/// The room for calls of one worker.
pub const RPC_WORKER_QUEUE: usize = 256;

/// The worker that handles the calls to `group`: the same one for all of them.
pub fn worker_for(group: GroupId) -> (r: usize)
    ensures
        r == group % 32,
        r < RPC_WORKERS,
{
    (group % 32) as usize
}

/// What a node does once it has tried to hand a call to its worker.
#[derive(Clone, Copy, Debug, PartialEq, Eq, Structural)]
pub enum DispatchStep {
    /// Take the next call.
    Next,
    /// Wait for room in the worker's queue.
    AwaitRoom,
    /// Stop: the worker is gone.
    Stop,
}

pub fn after_hand_over(status: SendStatus) -> (r: DispatchStep)
    ensures
        r == (match status {
            SendStatus::Sent => DispatchStep::Next,
            SendStatus::Full => DispatchStep::AwaitRoom,
            SendStatus::Closed => DispatchStep::Stop,
        }),
{
    match status {
        SendStatus::Sent => DispatchStep::Next,
        SendStatus::Full => DispatchStep::AwaitRoom,
        SendStatus::Closed => DispatchStep::Stop,
    }
}

/// What a worker does with a call.
#[derive(Debug)]
pub enum HandleStep<R> {
    /// Hand it to the group's Raft: a vote, an append, a full snapshot or a leader transfer.
    Call(CallKind),
    /// Answer at once.
    Reply(RaftReply<R>),
}

/// A call to a group that the node does not have is answered so; others go to the group.
pub fn handle_node_message<R>(has_group: bool, kind: CallKind) -> (r: HandleStep<R>)
    ensures
        has_group ==> r == HandleStep::<R>::Call(kind),
        !has_group ==> r matches HandleStep::Reply(RaftReply::MissingGroup),
{
    if has_group {
        HandleStep::Call(kind)
    } else {
        HandleStep::Reply(RaftReply::MissingGroup)
    }
}

/// The reply to a call of kind `kind`, once the group has answered: one of the same kind.
pub fn reply_to<R>(kind: CallKind, result: Result<R, String>) -> (r: RaftReply<R>)
    ensures
        r == (RaftReply::Answer { kind, result }),
{
    RaftReply::Answer { kind, result }
}

} // verus!
