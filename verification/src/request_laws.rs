//! What holds of proposals and reads, and of the calls between nodes.

use vstd::prelude::*;

use crate::config::ClusterConfig;
use crate::error::{MultiRaftError, ProposeOk, StaleRead};
use crate::multiraft::MultiRaft;
use crate::node::{
    after_hand_over, handle_node_message, reply_to, worker_for, DispatchStep, HandleStep,
    RPC_WORKERS,
};
use crate::proposals;
use crate::proposals::{ReadReply, StreamItem, WriteReply};
use crate::router::{CallKind, RaftReply, Router, RouterError, SendStatus, SendStep};
use crate::snapshot::is_standby_snapshot_trigger;
use crate::type_config::{GroupId, NodeId, Request, Response};

verus! {

/// A payload goes into the log as it is, alone or among others, in the order in which it came; only
/// a group that the node has takes any.
pub proof fn law_payloads_are_proposed_in_order(
    node: &MultiRaft,
    group: GroupId,
    payloads: Vec<Vec<u8>>,
    batch: Result<Vec<Request>, MultiRaftError>,
    many: Result<Vec<Request>, MultiRaftError>,
    i: int,
    one: Result<Request, MultiRaftError>,
)
    requires
        call_ensures(MultiRaft::propose_batch, (node, group, payloads), batch),
        call_ensures(MultiRaft::propose_many, (node, group, payloads), many),
        0 <= i < payloads@.len(),
        call_ensures(MultiRaft::propose, (node, group, payloads@[i]), one),
    ensures
        one is Ok <==> node.groups@.contains_key(group),
        batch is Ok <==> one is Ok,
        many is Ok <==> one is Ok,
        one is Ok ==> {
            &&& one->Ok_0.data@ == payloads@[i]@
            &&& batch->Ok_0@.len() == payloads@.len()
            &&& batch->Ok_0@[i].data@ == one->Ok_0.data@
            &&& many->Ok_0@.len() == payloads@.len()
            &&& many->Ok_0@[i].data@ == one->Ok_0.data@
        },
        one is Err ==> one->Err_0 == MultiRaftError::UnknownGroup(group) && batch->Err_0
            == one->Err_0 && many->Err_0 == one->Err_0,
{
    if one is Ok {
        assert(batch->Ok_0@[i].data == payloads@[i]);
        assert(many->Ok_0@[i].data == payloads@[i]);
    }
}

/// Nothing to propose is no failure, whatever the group.
pub proof fn law_nothing_to_propose(
    node: &MultiRaft,
    group: GroupId,
    payloads: Vec<Vec<u8>>,
    batch: Result<Vec<Request>, MultiRaftError>,
    many: Result<Vec<Request>, MultiRaftError>,
)
    requires
        payloads@.len() == 0,
        call_ensures(MultiRaft::propose_batch, (node, group, payloads), batch),
        call_ensures(MultiRaft::propose_many, (node, group, payloads), many),
    ensures
        batch is Ok && batch->Ok_0@.len() == 0,
        many is Ok && many->Ok_0@.len() == 0,
{
}

/// The request that triggers snapshots is recognised as such, and no request with other bytes is.
pub proof fn law_trigger_is_recognised(
    node: &MultiRaft,
    group: GroupId,
    r: Result<Request, MultiRaftError>,
    data: &[u8],
    seen: bool,
)
    requires
        call_ensures(MultiRaft::trigger_standby_snapshot, (node, group), r),
        call_ensures(is_standby_snapshot_trigger, (data,), seen),
    ensures
        r is Ok <==> node.groups@.contains_key(group),
        r is Ok ==> (seen <==> data@ == r->Ok_0.data@),
        r is Err ==> r->Err_0 == MultiRaftError::UnknownGroup(group),
{
}

/// A write that was applied is reported at the index and the term of its entry; one that another
/// node must take names that node; any other failure keeps its reason.
pub proof fn law_write_is_reported_at_its_entry(
    reply: WriteReply,
    r: Result<ProposeOk, MultiRaftError>,
)
    requires
        call_ensures(MultiRaft::client_write_one, (reply,), r),
    ensures
        r is Ok <==> reply is Applied,
        reply is Applied ==> r->Ok_0.index == reply->Applied_0.index && r->Ok_0.term
            == reply->Applied_0.term,
        reply is Forward ==> r->Err_0 is NotLeader && r->Err_0->hint == reply->leader,
        reply is Failed ==> r->Err_0 is Other && ends_with(r->Err_0->Other_0@, reply->Failed_0@),
{
    if reply is Failed {
        lemma_ends_with("client_write: "@, reply->Failed_0@);
    }
}

/// `t` ends with `s`.
pub open spec fn ends_with(t: Seq<char>, s: Seq<char>) -> bool {
    t.len() >= s.len() && t.skip(t.len() - s.len()) == s
}

pub proof fn lemma_ends_with(head: Seq<char>, s: Seq<char>)
    ensures
        ends_with(head + s, s),
{
    assert((head + s).skip(head.len() as int) =~= s);
}

/// Of many writes each is reported as it would be alone, in order, and they all are exactly where
/// all were applied. The first that was not decides what is returned: whatever follows it.
pub proof fn law_many_writes_are_reported_in_order(
    items: &Vec<StreamItem>,
    r: Result<Vec<ProposeOk>, MultiRaftError>,
    i: int,
    alone: Result<ProposeOk, MultiRaftError>,
)
    requires
        call_ensures(MultiRaft::many_outcome, (None::<String>, items), r),
        0 <= i < items@.len(),
        items@[i] is Applied ==> call_ensures(
            MultiRaft::client_write_one,
            (WriteReply::Applied(items@[i]->Applied_0),),
            alone,
        ),
        items@[i] is Forward ==> call_ensures(
            MultiRaft::client_write_one,
            (WriteReply::Forward { leader: items@[i]->leader },),
            alone,
        ),
    ensures
        r is Ok ==> r->Ok_0@.len() == items@.len() && items@[i] is Applied && Ok::<
            ProposeOk,
            MultiRaftError,
        >(r->Ok_0@[i]) == alone,
        (forall|j: int| 0 <= j < i ==> #[trigger] items@[j] is Applied) && !(items@[i] is Applied)
            ==> r is Err,
        (forall|j: int| 0 <= j < i ==> #[trigger] items@[j] is Applied) && items@[i] is Forward
            ==> alone is Err && r->Err_0 == alone->Err_0,
        (forall|j: int| 0 <= j < i ==> #[trigger] items@[j] is Applied) && items@[i] is Broken
            ==> r->Err_0 is Other && ends_with(r->Err_0->Other_0@, items@[i]->Broken_0@),
        (forall|j: int| 0 <= j < items@.len() ==> #[trigger] items@[j] is Applied) ==> r is Ok,
{
    if r is Err {
        let k = choose|k: int| #[trigger]
            proposals::first_not_applied(items@, k) && proposals::is_fault_of(
                r->Err_0,
                items@[k],
            );
        assert(!(items@[k] is Applied));
        if (forall|j: int| 0 <= j < i ==> #[trigger] items@[j] is Applied) && !(
        items@[i] is Applied) {
            assert(k == i) by {
                if k < i {
                    assert(items@[k] is Applied);
                }
                if i < k {
                    assert(items@[i] is Applied);
                }
            }
            if items@[i] is Broken {
                lemma_ends_with("client_write_many stream: "@, items@[i]->Broken_0@);
            }
        }
    } else {
        assert(items@[i] is Applied);
    }
}

/// Where the writes were refused as a whole, nothing is reported as written.
pub proof fn law_refused_writes_are_not_reported(
    why: String,
    items: &Vec<StreamItem>,
    r: Result<Vec<ProposeOk>, MultiRaftError>,
)
    requires
        call_ensures(MultiRaft::many_outcome, (Some(why), items), r),
    ensures
        r is Err,
        r->Err_0 is Other,
        ends_with(r->Err_0->Other_0@, why@),
{
    lemma_ends_with("client_write_many: "@, why@);
}

/// A linearizable read is answered exactly where Raft has confirmed it for a group of this node
/// whose state machine is there; where another node leads, it is named.
pub proof fn law_linearizable_read_is_confirmed(
    node: &MultiRaft,
    group: GroupId,
    reply: ReadReply,
    present: bool,
    r: Result<(), MultiRaftError>,
)
    requires
        call_ensures(MultiRaft::read_linearizable, (node, group, reply, present), r),
    ensures
        r is Ok <==> node.groups@.contains_key(group) && reply is Confirmed && present,
        !node.groups@.contains_key(group) ==> r->Err_0 == MultiRaftError::UnknownGroup(group),
        node.groups@.contains_key(group) && reply is Forward ==> r->Err_0 is NotLeader
            && r->Err_0->hint == reply->leader,
        node.groups@.contains_key(group) && reply is Failed ==> r->Err_0 is Other && ends_with(
            r->Err_0->Other_0@,
            reply->Failed_0@,
        ),
        node.groups@.contains_key(group) && reply is Confirmed && !present ==> r->Err_0 is Other,
{
    if reply is Failed {
        lemma_ends_with("ensure_linearizable: "@, reply->Failed_0@);
    }
}

/// A stale read is answered exactly where such reads are switched on and the node has the group. Its
/// answer is the value with the index and the term up to which the node has applied the group's log,
/// zero where it knows of none.
pub proof fn law_stale_read_tells_how_far_it_is<R>(
    node: &MultiRaft,
    group: GroupId,
    r: Result<(u64, u64), MultiRaftError>,
    value: R,
    answer: StaleRead<R>,
    applied: Option<(u64, u64)>,
)
    requires
        call_ensures(MultiRaft::read_stale, (node, group), r),
        r is Ok ==> call_ensures(MultiRaft::stale_answer::<R>, (value, r->Ok_0), answer),
        call_ensures(MultiRaft::local_applied, (node, group), applied),
    ensures
        r is Ok <==> node.config.enable_stale_queries && node.groups@.contains_key(group),
        !node.config.enable_stale_queries ==> r->Err_0 is StaleQueriesDisabled,
        node.config.enable_stale_queries && r is Err ==> r->Err_0 == MultiRaftError::UnknownGroup(
            group,
        ),
        r is Ok ==> answer.value == value,
        r is Ok && applied is Some ==> (answer.applied_index, answer.applied_term)
            == applied->Some_0,
        r is Ok && applied is None ==> answer.applied_index == 0 && answer.applied_term == 0,
        node.groups@.contains_key(group) ==> applied == node.groups@[group].applied,
{
}

/// Switching stale reads on or off changes nothing else, and can be taken back.
pub proof fn law_stale_reads_are_switched_alone(
    config: ClusterConfig,
    on: bool,
    r: ClusterConfig,
    back: ClusterConfig,
)
    requires
        call_ensures(ClusterConfig::with_stale_queries, (config, on), r),
        call_ensures(ClusterConfig::with_stale_queries, (r, config.enable_stale_queries), back),
    ensures
        r.enable_stale_queries == on,
        back == config,
        on == config.enable_stale_queries ==> r == config,
{
}

/// A node that is connected is reached through the channel that it was last connected with, until it
/// is disconnected; other nodes are reached as before.
pub proof fn law_connected_node_is_reached(
    router: &mut Router,
    node: NodeId,
    tx: u64,
    other: NodeId,
    before: &Router,
    after: &Router,
    to_node: Result<u64, RouterError>,
    connected: bool,
    to_other: Result<u64, RouterError>,
    to_other_before: Result<u64, RouterError>,
    links_before: usize,
    links: usize,
)
    requires
        call_ensures(Router::register_node, (router, node, tx), ()),
        *before == *old(router),
        *after == *final(router),
        other != node,
        before.wf(),
        call_ensures(Router::send_call, (after, node), to_node),
        call_ensures(Router::has_node, (after, node), connected),
        call_ensures(Router::send_call, (after, other), to_other),
        call_ensures(Router::send_call, (before, other), to_other_before),
        call_ensures(Router::unique_peer_links, (before,), links_before),
        call_ensures(Router::unique_peer_links, (after,), links),
    ensures
        to_node == Ok::<u64, RouterError>(tx),
        connected,
        to_other is Ok <==> to_other_before is Ok,
        to_other is Ok ==> to_other->Ok_0 == to_other_before->Ok_0,
        before.links().contains(node) ==> links == links_before,
        !before.links().contains(node) ==> links == links_before + 1,
        after.throttle == before.throttle,
        after.wf(),
{
    if before.links().contains(node) {
        assert(before.links().insert(node) =~= before.links());
    }
}

/// A node that is disconnected is not reached, and its channel is handed back; other nodes are
/// reached as before, and the links stay counted.
pub proof fn law_disconnected_node_is_not_reached(
    router: &mut Router,
    node: NodeId,
    taken: Option<u64>,
    other: NodeId,
    before: &Router,
    after: &Router,
    to_node: Result<u64, RouterError>,
    to_node_before: Result<u64, RouterError>,
    connected: bool,
    to_other: Result<u64, RouterError>,
    to_other_before: Result<u64, RouterError>,
    links_before: usize,
    links: usize,
)
    requires
        call_ensures(Router::unregister_node, (router, node), taken),
        *before == *old(router),
        *after == *final(router),
        other != node,
        call_ensures(Router::send_call, (after, node), to_node),
        call_ensures(Router::send_call, (before, node), to_node_before),
        call_ensures(Router::has_node, (after, node), connected),
        call_ensures(Router::send_call, (after, other), to_other),
        call_ensures(Router::send_call, (before, other), to_other_before),
        call_ensures(Router::unique_peer_links, (before,), links_before),
        call_ensures(Router::unique_peer_links, (after,), links),
    ensures
        to_node is Err,
        !connected,
        taken is Some <==> to_node_before is Ok,
        taken is Some ==> taken->Some_0 == to_node_before->Ok_0,
        to_other is Ok <==> to_other_before is Ok,
        to_other is Ok ==> to_other->Ok_0 == to_other_before->Ok_0,
        links == links_before,
{
}

/// A node is reached exactly where the router has it.
pub proof fn law_known_nodes_are_reached(
    router: &Router,
    node: NodeId,
    r: Result<u64, RouterError>,
    connected: bool,
)
    requires
        call_ensures(Router::send_call, (router, node), r),
        call_ensures(Router::has_node, (router, node), connected),
    ensures
        r is Ok <==> connected,
        r is Ok ==> router.nodes@[node] == r->Ok_0,
{
}

/// A call gets its group's answer back: what the node replies to a call is what the caller unpacks,
/// and an answer to another kind of call is none.
pub proof fn law_call_gets_its_answer<R>(
    kind: CallKind,
    asked: CallKind,
    result: Result<R, String>,
    reply: RaftReply<R>,
    r: Result<R, RouterError>,
)
    requires
        call_ensures(reply_to::<R>, (kind, result), reply),
        call_ensures(Router::unpack::<R>, (asked, reply), r),
    ensures
        r is Ok <==> kind == asked && result is Ok,
        r is Ok ==> r->Ok_0 == result->Ok_0,
        kind == asked && result is Err ==> r->Err_0.0@ == result->Err_0@,
{
}

/// A call goes to the group's Raft as the call that it is, exactly where the node has the group;
/// else the caller learns that there is no such group.
pub proof fn law_call_goes_to_its_group<R>(
    has_group: bool,
    kind: CallKind,
    step: HandleStep<R>,
    r: Result<R, RouterError>,
)
    requires
        call_ensures(handle_node_message::<R>, (has_group, kind), step),
        step is Reply ==> call_ensures(Router::unpack::<R>, (kind, step->Reply_0), r),
    ensures
        step is Call <==> has_group,
        step is Call ==> step->Call_0 == kind,
        step is Reply ==> r is Err && r->Err_0.0@ == "missing group"@,
{
}

/// A send that is in the channel waits for its reply, one that finds the channel full waits for
/// room, and one that finds it closed fails; a worker's queue is treated alike.
pub proof fn law_full_channels_are_waited_for(
    status: SendStatus,
    send: SendStep,
    hand_over: DispatchStep,
)
    requires
        call_ensures(Router::after_try_send, (status,), send),
        call_ensures(after_hand_over, (status,), hand_over),
    ensures
        send is AwaitReply <==> status == SendStatus::Sent,
        send is AwaitRoom <==> status == SendStatus::Full,
        send is Fail <==> status == SendStatus::Closed,
        hand_over is Next <==> send is AwaitReply,
        hand_over is AwaitRoom <==> send is AwaitRoom,
        hand_over is Stop <==> send is Fail,
{
}

/// All calls to a group go to one worker, and as many neighbouring groups as there are workers go to
/// different ones.
pub proof fn law_workers_share_the_groups(a: GroupId, b: GroupId, wa: usize, wb: usize)
    requires
        call_ensures(worker_for, (a,), wa),
        call_ensures(worker_for, (b,), wb),
    ensures
        wa < RPC_WORKERS,
        a == b ==> wa == wb,
        a < b < a + RPC_WORKERS ==> wa != wb,
{
}

/// Requests and responses keep their bytes; a response without effects has none.
pub proof fn law_requests_keep_their_bytes(
    data: Vec<u8>,
    request: Request,
    response: Response,
    nothing: Response,
)
    requires
        call_ensures(Request::new, (data,), request),
        call_ensures(Response::new, (data,), response),
        call_ensures(Response::none, (), nothing),
    ensures
        request.data@ == data@,
        response.effects@ == data@,
        nothing.effects@.len() == 0,
{
}

/// The text of a request tells how many bytes it has.
pub proof fn law_request_text_tells_its_size(a: &Request, b: &Request, ta: String, tb: String)
    requires
        call_ensures(Request::display, (a,), ta),
        call_ensures(Request::display, (b,), tb),
    ensures
        ta@ == tb@ <==> a.data@.len() == b.data@.len(),
{
    let head = "Request("@;
    let tail = " bytes)"@;
    let da = crate::text::decimal(a.data@.len());
    let db = crate::text::decimal(b.data@.len());
    if ta@ == tb@ {
        assert(ta@.skip(head.len() as int).take(da.len() as int) =~= da);
        assert(tb@.skip(head.len() as int).take(db.len() as int) =~= db);
        assert(ta@.len() == head.len() + da.len() + tail.len());
        assert(tb@.len() == head.len() + db.len() + tail.len());
        crate::text::lemma_decimal_injective(a.data@.len(), b.data@.len());
    }
}

} // verus!
