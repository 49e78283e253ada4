//! What holds of membership changes, of the throttling that goes with them, and of setting groups
//! up together.

use vstd::prelude::*;

use crate::cluster_glue::ClusterGlue;
use crate::config::ClusterConfig;
use crate::error::MultiRaftError;
use crate::membership;
use crate::membership::{
    change_outcome, membership_err_retryable, retry_on_membership_pending, ChangeReply, RetryStep,
    RoleStep, ThrottleWatch,
};
use crate::multiraft::{find_addr, MultiRaft};
use crate::standby_throttle;
use crate::standby_throttle::{BeforeSend, Gate, Sends, SendsOp, StandbyThrottle};
use crate::text;
use crate::type_config::{GroupId, NodeId};

verus! {

/// A change comes to what Raft answers: it succeeds where it is done, names the leader where another
/// node leads, and else fails with its name and its reason.
pub proof fn law_change_comes_to_its_answer(
    label: &str,
    reply: ChangeReply,
    r: Result<(), MultiRaftError>,
)
    requires
        call_ensures(change_outcome, (label, reply), r),
    ensures
        r is Ok <==> reply is Done,
        reply is Forward ==> r->Err_0 is NotLeader && r->Err_0->hint == reply->leader,
        reply is Failed ==> r->Err_0 is Other && text::contains_text(
            r->Err_0->Other_0@,
            reply->Failed_0@,
        ) && r->Err_0->Other_0@.len() > label@.len() && r->Err_0->Other_0@.take(
            label@.len() as int,
        ) == label@,
{
    if reply is Failed {
        let t = r->Err_0->Other_0@;
        let m = reply->Failed_0@;
        let at: int = label@.len() as int + 2;
        reveal_strlit(": ");
        assert(t.take(label@.len() as int) =~= label@);
        assert(t.subrange(at, at + m.len()) =~= m);
        assert(text::occurs_at(t, m, at));
    }
}

/// A change that met another one under way is tried again after fifty milliseconds, and only within
/// the first fifteen seconds; every other result stands as it is.
pub proof fn law_pending_changes_are_tried_again(
    label: &str,
    reply: ChangeReply,
    result: Result<(), MultiRaftError>,
    elapsed_ms: u64,
    step: RetryStep,
)
    requires
        call_ensures(change_outcome, (label, reply), result),
        call_ensures(retry_on_membership_pending, (result, elapsed_ms), step),
    ensures
        reply is Failed && text::contains_text(reply->Failed_0@, "configuration change"@)
            && elapsed_ms < 15_000 ==> step is Pause && step->Pause_0 == 50,
        reply is Done || reply is Forward || elapsed_ms >= 15_000 ==> step == RetryStep::Return(
            result,
        ),
        step is Return ==> step->Return_0 == result,
{
    if reply is Failed && text::contains_text(reply->Failed_0@, "configuration change"@) {
        membership::law_pending_change_is_retried(label@, reply->Failed_0, result);
    }
}

/// Only the text of an error tells that another change is under way.
pub proof fn law_retry_goes_by_the_text(e: &MultiRaftError, r: bool)
    requires
        call_ensures(membership_err_retryable, (e,), r),
    ensures
        r <==> *e is Other && text::contains_text(e->Other_0@, "configuration change"@),
{
}

/// A standby is added under the address that the configuration has for it, none where it has none.
pub proof fn law_standby_is_added_under_its_address(
    node: &MultiRaft,
    group: GroupId,
    id: NodeId,
    r: Result<String, MultiRaftError>,
    peers: &Vec<(NodeId, String)>,
    found: Option<String>,
)
    requires
        call_ensures(MultiRaft::add_standby, (node, group, id), r),
        *peers == node.config.peers,
        call_ensures(find_addr, (peers, id), found),
    ensures
        r is Ok <==> node.groups@.contains_key(group),
        r is Err ==> r->Err_0 == MultiRaftError::UnknownGroup(group),
        r is Ok && found is Some ==> r->Ok_0@ == found->Some_0@,
        r is Ok && found is None ==> r->Ok_0@.len() == 0,
{
}

/// The address found for an id is that of the first peer with it.
pub proof fn law_address_is_of_the_first_peer(
    peers: &Vec<(NodeId, String)>,
    id: NodeId,
    r: Option<String>,
    i: int,
)
    requires
        call_ensures(find_addr, (peers, id), r),
        0 <= i < peers@.len(),
        forall|j: int| 0 <= j < i ==> (#[trigger] peers@[j]).0 != id,
    ensures
        peers@[i].0 == id ==> r is Some && r->Some_0@ == peers@[i].1@,
        peers@[i].0 != id && i == peers@.len() - 1 ==> r is None,
{
    lemma_addr_of(peers@, id, i);
}

proof fn lemma_addr_of(peers: Seq<(NodeId, String)>, id: NodeId, i: int)
    requires
        0 <= i < peers.len(),
        forall|j: int| 0 <= j < i ==> (#[trigger] peers[j]).0 != id,
    ensures
        peers[i].0 == id ==> crate::multiraft::addr_of(peers, id) == Some(peers[i].1@),
        peers[i].0 != id && i == peers.len() - 1 ==> crate::multiraft::addr_of(peers, id) is None,
    decreases i,
{
    if i > 0 {
        let rest = peers.drop_first();
        assert(peers[0].0 != id);
        assert forall|j: int| 0 <= j < i - 1 implies (#[trigger] rest[j]).0 != id by {
            assert(rest[j] == peers[j + 1]);
        }
        lemma_addr_of(rest, id, i - 1);
    } else if peers.len() == 1 {
        reveal_with_fuel(crate::multiraft::addr_of, 2);
        assert(peers.drop_first().len() == 0);
    }
}

/// A learner that was added is held up from then on, as long as the throttle delays; where it was not
/// added, nothing changes. Other nodes are treated as before.
pub proof fn law_added_standby_is_throttled(
    node: &MultiRaft,
    throttle: &mut StandbyThrottle,
    id: NodeId,
    reply: ChangeReply,
    r: Result<(), MultiRaftError>,
    before: &StandbyThrottle,
    after: &StandbyThrottle,
    to: NodeId,
    sent_before: BeforeSend,
    sent: BeforeSend,
    delay: u64,
)
    requires
        before.wf(),
        call_ensures(MultiRaft::add_standby_once, (node, throttle, id, reply), r),
        *before == *old(throttle),
        *after == *final(throttle),
        call_ensures(StandbyThrottle::before_send, (before, to), sent_before),
        call_ensures(StandbyThrottle::before_send, (after, to), sent),
        call_ensures(StandbyThrottle::delay_ms, (before,), delay),
    ensures
        r is Ok <==> reply is Done,
        reply is Done && to == id ==> sent == (BeforeSend::Throttled { delay_ms: delay }),
        !(reply is Done) || to != id ==> sent == sent_before,
{
}

/// A promoted node is held up no more; where it was not promoted, nothing changes. Other nodes are
/// treated as before.
pub proof fn law_promoted_node_is_not_throttled(
    node: &MultiRaft,
    throttle: &mut StandbyThrottle,
    id: NodeId,
    reply: ChangeReply,
    r: Result<(), MultiRaftError>,
    before: &StandbyThrottle,
    after: &StandbyThrottle,
    to: NodeId,
    sent_before: BeforeSend,
    sent: BeforeSend,
)
    requires
        before.wf(),
        call_ensures(MultiRaft::promote_standby_once, (node, throttle, id, reply), r),
        *before == *old(throttle),
        *after == *final(throttle),
        call_ensures(StandbyThrottle::before_send, (before, to), sent_before),
        call_ensures(StandbyThrottle::before_send, (after, to), sent),
    ensures
        r is Ok <==> reply is Done,
        reply is Done && to == id ==> sent == BeforeSend::Pass,
        !(reply is Done) || to != id ==> sent == sent_before,
{
}

/// A demoted node is held up from then on; where it was not demoted, nothing changes. Other nodes
/// are treated as before.
pub proof fn law_demoted_node_is_throttled(
    node: &MultiRaft,
    throttle: &mut StandbyThrottle,
    id: NodeId,
    reply: ChangeReply,
    r: Result<(), MultiRaftError>,
    before: &StandbyThrottle,
    after: &StandbyThrottle,
    to: NodeId,
    sent_before: BeforeSend,
    sent: BeforeSend,
)
    requires
        before.wf(),
        call_ensures(MultiRaft::demote_to_standby_once, (node, throttle, id, reply), r),
        *before == *old(throttle),
        *after == *final(throttle),
        call_ensures(StandbyThrottle::before_send, (before, to), sent_before),
        call_ensures(StandbyThrottle::before_send, (after, to), sent),
    ensures
        r is Ok <==> reply is Done,
        reply is Done && to == id ==> sent is Throttled,
        !(reply is Done) || to != id ==> sent == sent_before,
{
}

/// Raft is asked to promote a learner that is no voter. A voter is one already, and is held up no
/// more; any other node is refused, and nothing changes.
pub proof fn law_learners_are_promoted(
    node: &MultiRaft,
    throttle: &mut StandbyThrottle,
    group: GroupId,
    id: NodeId,
    r: Result<RoleStep, MultiRaftError>,
    before: &StandbyThrottle,
    after: &StandbyThrottle,
    to: NodeId,
    sent_before: BeforeSend,
    sent: BeforeSend,
)
    requires
        before.wf(),
        call_ensures(MultiRaft::promote_standby, (node, throttle, group, id), r),
        *before == *old(throttle),
        *after == *final(throttle),
        call_ensures(StandbyThrottle::before_send, (before, to), sent_before),
        call_ensures(StandbyThrottle::before_send, (after, to), sent),
    ensures
        r == Ok::<RoleStep, MultiRaftError>(RoleStep::Change) <==> node.groups@.contains_key(group)
            && node.groups@[group].learners@.contains(id) && !node.groups@[group].voters@.contains(
            id,
        ),
        r == Ok::<RoleStep, MultiRaftError>(RoleStep::Done) <==> node.groups@.contains_key(group)
            && node.groups@[group].voters@.contains(id),
        !node.groups@.contains_key(group) ==> r->Err_0 == MultiRaftError::UnknownGroup(group),
        r is Err && node.groups@.contains_key(group) ==> r->Err_0 is Other,
        r == Ok::<RoleStep, MultiRaftError>(RoleStep::Done) && to == id ==> sent
            == BeforeSend::Pass,
        r != Ok::<RoleStep, MultiRaftError>(RoleStep::Done) || to != id ==> sent == sent_before,
{
}

/// Raft is asked to demote a voter. Any other node of a known group is a standby already, and is
/// held up from then on.
pub proof fn law_voters_are_demoted(
    node: &MultiRaft,
    throttle: &mut StandbyThrottle,
    group: GroupId,
    id: NodeId,
    r: Result<RoleStep, MultiRaftError>,
    before: &StandbyThrottle,
    after: &StandbyThrottle,
    to: NodeId,
    sent_before: BeforeSend,
    sent: BeforeSend,
)
    requires
        before.wf(),
        call_ensures(MultiRaft::demote_to_standby, (node, throttle, group, id), r),
        *before == *old(throttle),
        *after == *final(throttle),
        call_ensures(StandbyThrottle::before_send, (before, to), sent_before),
        call_ensures(StandbyThrottle::before_send, (after, to), sent),
    ensures
        r is Ok <==> node.groups@.contains_key(group),
        r is Err ==> r->Err_0 == MultiRaftError::UnknownGroup(group),
        r is Ok ==> (r->Ok_0 == RoleStep::Change <==> node.groups@[group].voters@.contains(id)),
        r == Ok::<RoleStep, MultiRaftError>(RoleStep::Done) && to == id ==> sent is Throttled,
        r != Ok::<RoleStep, MultiRaftError>(RoleStep::Done) || to != id ==> sent == sent_before,
{
}

/// Once a membership has been seen anew, its voters are not held up and its other learners are, each
/// other node as before; seeing the same learners once more changes nothing.
pub proof fn law_throttle_follows_the_membership(
    watch: &mut ThrottleWatch,
    throttle: &mut StandbyThrottle,
    learners: Vec<NodeId>,
    voters: &Vec<NodeId>,
    before: &StandbyThrottle,
    after: &StandbyThrottle,
    to: NodeId,
    sent_before: BeforeSend,
    sent: BeforeSend,
)
    requires
        before.wf(),
        call_ensures(ThrottleWatch::observe, (watch, throttle, learners, voters), ()),
        *before == *old(throttle),
        *after == *final(throttle),
        call_ensures(StandbyThrottle::before_send, (before, to), sent_before),
        call_ensures(StandbyThrottle::before_send, (after, to), sent),
    ensures
        final(watch).last is Some,
        final(watch).last->Some_0@ == learners@,
        old(watch).last is Some && old(watch).last->Some_0@ == learners@ ==> sent == sent_before,
        !(old(watch).last is Some && old(watch).last->Some_0@ == learners@) ==> {
            &&& voters@.contains(to) ==> sent == BeforeSend::Pass
            &&& learners@.contains(to) && !voters@.contains(to) ==> sent is Throttled
            &&& !learners@.contains(to) && !voters@.contains(to) ==> sent == sent_before
        },
{
    assert(voters@.to_set().contains(to) <==> voters@.contains(to));
    assert(learners@.to_set().contains(to) <==> learners@.contains(to));
}

/// A watch that has seen nothing takes the first membership over.
pub proof fn law_first_membership_is_taken_over(
    fresh: ThrottleWatch,
    watch: &mut ThrottleWatch,
    throttle: &mut StandbyThrottle,
    learners: Vec<NodeId>,
    voters: &Vec<NodeId>,
    after: &StandbyThrottle,
    to: NodeId,
    sent: BeforeSend,
)
    requires
        call_ensures(ThrottleWatch::new, (), fresh),
        *old(watch) == fresh,
        call_ensures(ThrottleWatch::observe, (watch, throttle, learners, voters), ()),
        *after == *final(throttle),
        call_ensures(StandbyThrottle::before_send, (after, to), sent),
    ensures
        voters@.contains(to) ==> sent == BeforeSend::Pass,
        learners@.contains(to) && !voters@.contains(to) ==> sent is Throttled,
{
    assert(voters@.to_set().contains(to) <==> voters@.contains(to));
    assert(learners@.to_set().contains(to) <==> learners@.contains(to));
}

/// A send is held up exactly where its target is throttled, for the delay that is set.
pub proof fn law_throttled_sends_wait_the_delay(
    throttle: &StandbyThrottle,
    to: NodeId,
    sent: BeforeSend,
    delay: u64,
    throttled: bool,
    ids: &std::collections::HashSet<NodeId>,
)
    requires
        call_ensures(StandbyThrottle::before_send, (throttle, to), sent),
        call_ensures(StandbyThrottle::delay_ms, (throttle,), delay),
        call_ensures(StandbyThrottle::contains, (throttle, to), throttled),
        call_ensures(StandbyThrottle::standby_ids, (throttle,), ids),
    ensures
        sent is Throttled <==> throttled,
        sent is Throttled ==> sent->delay_ms == delay,
        throttled <==> ids@.contains(to),
{
}

/// A configured throttle holds up the nodes that the configuration names, for the time it says, and
/// lets as many sends through at once as it says, eight where it says none.
pub proof fn law_throttle_is_as_configured(
    config: &ClusterConfig,
    throttle: &StandbyThrottle,
    to: NodeId,
    sent: BeforeSend,
    limit: u32,
    asked: &mut StandbyThrottle,
    gate: Gate,
)
    requires
        call_ensures(StandbyThrottle::from_config, (config,), *throttle),
        call_ensures(StandbyThrottle::before_send, (throttle, to), sent),
        call_ensures(StandbyThrottle::max_inflight, (throttle,), limit),
        *old(asked) == *throttle,
        call_ensures(StandbyThrottle::gate, (asked, to), gate),
    ensures
        sent is Throttled <==> config.standby_node_ids@.contains(to),
        sent is Throttled ==> sent->delay_ms == config.standby_replicate_delay_ms,
        config.standby_max_inflight > 0 ==> limit == config.standby_max_inflight,
        config.standby_max_inflight == 0 ==> limit == 8,
        gate.fresh,
        gate.capacity == limit,
{
    assert(config.standby_node_ids@.to_set().contains(to)
        <==> config.standby_node_ids@.contains(to));
}

/// A throttle that is configured anew takes the new delay and limit over for every gate, and holds
/// up what it held up before and what the configuration names.
pub proof fn law_new_limits_are_taken_over(
    throttle: &mut StandbyThrottle,
    config: &ClusterConfig,
    before: &StandbyThrottle,
    after: &StandbyThrottle,
    to: NodeId,
    sent_before: BeforeSend,
    sent: BeforeSend,
    asked: &mut StandbyThrottle,
    gate: Gate,
)
    requires
        before.wf(),
        call_ensures(StandbyThrottle::apply_config, (throttle, config), ()),
        *before == *old(throttle),
        *after == *final(throttle),
        call_ensures(StandbyThrottle::before_send, (before, to), sent_before),
        call_ensures(StandbyThrottle::before_send, (after, to), sent),
        *old(asked) == *after,
        call_ensures(StandbyThrottle::gate, (asked, to), gate),
    ensures
        sent is Throttled <==> sent_before is Throttled || config.standby_node_ids@.contains(to),
        sent is Throttled ==> sent->delay_ms == config.standby_replicate_delay_ms,
        gate.fresh,
        config.standby_max_inflight > 0 ==> gate.capacity == config.standby_max_inflight,
        config.standby_max_inflight == 0 ==> gate.capacity == 8,
{
    assert(config.standby_node_ids@.to_set().contains(to)
        <==> config.standby_node_ids@.contains(to));
}

/// A target keeps its gate from one send to the next; a gate lets through as many sends as the limit
/// says, and at least one.
pub proof fn law_gate_is_kept(
    first: &mut StandbyThrottle,
    second: &mut StandbyThrottle,
    to: NodeId,
    a: Gate,
    b: Gate,
    limit: u32,
    before: &StandbyThrottle,
)
    requires
        call_ensures(StandbyThrottle::gate, (first, to), a),
        *old(second) == *final(first),
        call_ensures(StandbyThrottle::gate, (second, to), b),
        *before == *old(first),
        call_ensures(StandbyThrottle::max_inflight, (before,), limit),
    ensures
        !b.fresh,
        b.capacity == a.capacity,
        a.capacity >= 1,
        limit >= 1 ==> a.capacity == limit,
{
}

/// A node that is throttled no more loses its gate: the next one is new. No other gate is touched.
pub proof fn law_removed_node_loses_its_gate(
    asked: &mut StandbyThrottle,
    removed: &mut StandbyThrottle,
    again: &mut StandbyThrottle,
    id: NodeId,
    to: NodeId,
    a: Gate,
    b: Gate,
)
    requires
        call_ensures(StandbyThrottle::gate, (asked, to), a),
        *old(removed) == *final(asked),
        call_ensures(StandbyThrottle::remove, (removed, id), ()),
        *old(again) == *final(removed),
        call_ensures(StandbyThrottle::gate, (again, to), b),
    ensures
        b.fresh <==> id == to,
        b.capacity == a.capacity,
{
}

/// Throttling a node and taking it back leaves every node treated as before, but that one.
pub proof fn law_throttling_can_be_taken_back(
    put: &mut StandbyThrottle,
    taken: &mut StandbyThrottle,
    id: NodeId,
    before: &StandbyThrottle,
    held: &StandbyThrottle,
    after: &StandbyThrottle,
    to: NodeId,
    sent_before: BeforeSend,
    sent_held: BeforeSend,
    sent: BeforeSend,
)
    requires
        before.wf(),
        call_ensures(StandbyThrottle::insert, (put, id), ()),
        *old(taken) == *final(put),
        call_ensures(StandbyThrottle::remove, (taken, id), ()),
        *before == *old(put),
        *held == *final(put),
        *after == *final(taken),
        call_ensures(StandbyThrottle::before_send, (before, to), sent_before),
        call_ensures(StandbyThrottle::before_send, (held, to), sent_held),
        call_ensures(StandbyThrottle::before_send, (after, to), sent),
    ensures
        to == id ==> sent_held is Throttled && sent == BeforeSend::Pass,
        to != id ==> sent_held == sent_before && sent == sent_before,
{
}

/// A group is ready for a node that creates it exactly where every member has created it, this one
/// included; creating it changes nothing for other groups, nor any claim.
pub proof fn law_group_is_ready_when_all_have_it(
    glue: &mut ClusterGlue,
    group: GroupId,
    node: NodeId,
    members: &[NodeId],
    all: bool,
    other: GroupId,
    i: int,
)
    requires
        call_ensures(ClusterGlue::mark_ready, (glue, group, node, members), all),
        other != group,
    ensures
        all && 0 <= i < members@.len() ==> members@[i] == node || old(glue).ready(group).contains(
            members@[i],
        ),
        (forall|j: int|
            0 <= j < members@.len() ==> #[trigger] members@[j] == node || old(glue).ready(
                group,
            ).contains(members@[j])) ==> all,
        final(glue).ready(other) == old(glue).ready(other),
        final(glue).ready(group).contains(node),
        final(glue).claimed() == old(glue).claimed(),
{
}

/// A setup is claimed once: the first claim of a group succeeds and every later one fails, whatever
/// other groups are claimed.
pub proof fn law_setup_claim_is_exclusive(
    first: &mut ClusterGlue,
    second: &mut ClusterGlue,
    a: GroupId,
    b: GroupId,
    got_a: bool,
    got_b: bool,
)
    requires
        call_ensures(ClusterGlue::try_claim_init, (first, a), got_a),
        *old(second) == *final(first),
        call_ensures(ClusterGlue::try_claim_init, (second, b), got_b),
    ensures
        a == b ==> !got_b,
        a != b && !old(first).claimed().contains(b) ==> got_b,
        got_a <==> !old(first).claimed().contains(a),
        final(first).ready(a) == old(first).ready(a),
{
}

/// A new glue knows of no group: whatever is claimed first is granted.
pub proof fn law_new_glue_grants_claims(
    fresh: ClusterGlue,
    glue: &mut ClusterGlue,
    group: GroupId,
    got: bool,
)
    requires
        call_ensures(ClusterGlue::new, (), fresh),
        *old(glue) == fresh,
        call_ensures(ClusterGlue::try_claim_init, (glue, group), got),
    ensures
        got,
        fresh.ready(group) == Set::<NodeId>::empty(),
{
}

/// A node that is promoted loses its gate, and no other node does; adding or demoting one takes no
/// gate away.
pub proof fn law_only_promotion_takes_a_gate(
    node: &MultiRaft,
    promoted: &mut StandbyThrottle,
    found: &mut StandbyThrottle,
    group: GroupId,
    added: &mut StandbyThrottle,
    demoted: &mut StandbyThrottle,
    id: NodeId,
    r: Result<(), MultiRaftError>,
    step: Result<RoleStep, MultiRaftError>,
    a: Result<(), MultiRaftError>,
    d: Result<(), MultiRaftError>,
    to: NodeId,
)
    requires
        call_ensures(
            MultiRaft::promote_standby_once,
            (node, promoted, id, ChangeReply::Done),
            r,
        ),
        call_ensures(MultiRaft::promote_standby, (node, found, group, id), step),
        call_ensures(MultiRaft::add_standby_once, (node, added, id, ChangeReply::Done), a),
        call_ensures(
            MultiRaft::demote_to_standby_once,
            (node, demoted, id, ChangeReply::Done),
            d,
        ),
    ensures
        final(promoted).gates().contains_key(to) <==> old(promoted).gates().contains_key(to) && to
            != id,
        step == Ok::<RoleStep, MultiRaftError>(RoleStep::Done) ==> (final(found).gates().contains_key(
            to,
        ) <==> old(found).gates().contains_key(to) && to != id),
        step != Ok::<RoleStep, MultiRaftError>(RoleStep::Done) ==> final(found).gates() == old(
            found,
        ).gates(),
        final(added).gates() == old(added).gates(),
        final(demoted).gates() == old(demoted).gates(),
        final(promoted).limit() == old(promoted).limit(),
        final(promoted).delay() == old(promoted).delay(),
        final(added).limit() == old(added).limit(),
        final(added).delay() == old(added).delay(),
        final(demoted).limit() == old(demoted).limit(),
        final(demoted).delay() == old(demoted).delay(),
{
}

/// A membership that is seen takes the gates of its voters that were throttled, and no other; delay
/// and limit stay.
pub proof fn law_seen_voters_lose_their_gates(
    watch: &mut ThrottleWatch,
    throttle: &mut StandbyThrottle,
    learners: Vec<NodeId>,
    voters: &Vec<NodeId>,
    to: NodeId,
)
    requires
        call_ensures(ThrottleWatch::observe, (watch, throttle, learners, voters), ()),
        !(old(watch).last is Some && old(watch).last->Some_0@ == learners@),
    ensures
        voters@.contains(to) && (old(throttle).ids().contains(to) || learners@.contains(to))
            ==> !final(throttle).gates().contains_key(to),
        !voters@.contains(to) ==> (final(throttle).gates().contains_key(to) <==> old(
            throttle,
        ).gates().contains_key(to)),
        final(throttle).limit() == old(throttle).limit(),
        final(throttle).delay() == old(throttle).delay(),
{
    assert(voters@.to_set().contains(to) <==> voters@.contains(to));
    assert(learners@.to_set().contains(to) <==> learners@.contains(to));
}

/// One call on the throttle is one step of what can happen to it, with the permits that are out as
/// they are: a fresh gate has none out, and a gate that is dropped takes its permits with it.
pub proof fn law_throttle_calls_are_steps(
    put: &mut StandbyThrottle,
    taken: &mut StandbyThrottle,
    set: &mut StandbyThrottle,
    asked: &mut StandbyThrottle,
    config: &ClusterConfig,
    id: NodeId,
    gate: Gate,
    out: Map<NodeId, nat>,
)
    requires
        old(put).wf(),
        old(taken).wf(),
        old(set).wf(),
        old(asked).wf(),
        call_ensures(StandbyThrottle::insert, (put, id), ()),
        call_ensures(StandbyThrottle::remove, (taken, id), ()),
        call_ensures(StandbyThrottle::apply_config, (set, config), ()),
        call_ensures(StandbyThrottle::gate, (asked, id), gate),
    ensures
        standby_throttle::sends_move(
            Sends { throttle: *old(put), out },
            SendsOp::Insert(id),
            Sends { throttle: *final(put), out },
        ),
        standby_throttle::sends_move(
            Sends { throttle: *old(taken), out },
            SendsOp::Remove(id),
            Sends { throttle: *final(taken), out: out.remove(id) },
        ),
        standby_throttle::sends_move(
            Sends { throttle: *old(set), out },
            SendsOp::Configured,
            Sends { throttle: *final(set), out: Map::empty() },
        ),
        standby_throttle::sends_move(
            Sends { throttle: *old(asked), out },
            SendsOp::Gated(id, gate),
            Sends {
                throttle: *final(asked),
                out: if gate.fresh {
                    out.insert(id, 0)
                } else {
                    out
                },
            },
        ),
{
}

} // verus!
