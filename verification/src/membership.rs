//! Adding, promoting and demoting standbys, and waiting for membership changes to settle.

use vstd::prelude::*;

use crate::error;
use crate::error::MultiRaftError;
use crate::group_setup;
use crate::multiraft::MultiRaft;
use crate::standby_throttle::StandbyThrottle;
use crate::text;
use crate::type_config::{GroupId, NodeId};

verus! {

broadcast use vstd::std_specs::btree::group_btree_axioms;

/// How long a membership change is tried again.
pub const MEMBERSHIP_RETRY_TIMEOUT_MS: u64 = 15000;

/// The pause between two tries.
pub const MEMBERSHIP_RETRY_INTERVAL_MS: u64 = 50;

/// What Raft answers to a membership change.
#[derive(Debug)]
pub enum ChangeReply {
    Done,
    /// Another node leads the group.
    Forward { leader: Option<NodeId> },
    Failed(String),
}

/// What an error text holds while another membership change is under way.
pub open spec fn is_pending_text(m: Seq<char>) -> bool {
    text::contains_text(m, "configuration change"@)
}

/// The text of a change that is to be tried again.
pub open spec fn transient_text(label: Seq<char>, m: Seq<char>) -> Seq<char> {
    label + ": "@ + m + " (retry after membership settles)"@
}

/// The error of a change that is to be tried again.
pub fn transient_membership_err(label: &str, m: &str) -> (r: MultiRaftError)
    ensures
        error::is_other(r, transient_text(label@, m@)),
{
    let mut t = label.to_owned();
    t.append(": ");
    t.append(m);
    t.append(" (retry after membership settles)");
    MultiRaftError::Other(t)
}

/// The change is worth trying again: another one was under way.
pub open spec fn is_retryable(e: MultiRaftError) -> bool {
    e matches MultiRaftError::Other(m) && is_pending_text(m@)
}

/// Whether the change is worth trying again.
pub fn membership_err_retryable(e: &MultiRaftError) -> (r: bool)
    ensures
        r == is_retryable(*e),
{
    match e {
        MultiRaftError::Other(m) => text::text_contains(m.as_str(), "configuration change"),
        _ => false,
    }
}

/// What a change that is called `label` in messages comes to.
pub open spec fn change_result(
    label: Seq<char>,
    reply: ChangeReply,
    r: Result<(), MultiRaftError>,
) -> bool {
    match reply {
        ChangeReply::Done => r is Ok,
        ChangeReply::Forward { leader } => r == Err::<(), MultiRaftError>(
            MultiRaftError::NotLeader { hint: leader },
        ),
        ChangeReply::Failed(m) => r matches Err(e) && error::is_other(
            e,
            if is_pending_text(m@) {
                transient_text(label, m@)
            } else {
                label + ": "@ + m@
            },
        ),
    }
}

/// What a membership change comes to: another leader is named as a hint, and a failure says
/// whether the change is to be tried again.
pub fn change_outcome(label: &str, reply: ChangeReply) -> (r: Result<(), MultiRaftError>)
    ensures
        change_result(label@, reply, r),
{
    match reply {
        ChangeReply::Done => Ok(()),
        ChangeReply::Forward { leader } => Err(MultiRaftError::NotLeader { hint: leader }),
        ChangeReply::Failed(m) => {
            if text::text_contains(m.as_str(), "configuration change") {
                Err(transient_membership_err(label, m.as_str()))
            } else {
                let mut t = label.to_owned();
                t.append(": ");
                t.append(m.as_str());
                Err(MultiRaftError::Other(t))
            }
        },
    }
}

/// What follows one try of a membership change.
#[derive(Debug)]
pub enum RetryStep {
    /// It is over, with this result.
    Return(Result<(), MultiRaftError>),
    /// Pause so many milliseconds, then try again.
    Pause(u64),
}

/// What follows a try of a membership change, where so much time has passed since the first one.
/// Only a change that met another under way is tried again, and only before the timeout.
pub fn retry_on_membership_pending(result: Result<(), MultiRaftError>, elapsed_ms: u64) -> (r:
    RetryStep)
    ensures
        (result matches Err(e) && is_retryable(e) && elapsed_ms < MEMBERSHIP_RETRY_TIMEOUT_MS) ==> r
            == RetryStep::Pause(MEMBERSHIP_RETRY_INTERVAL_MS),
        !(result matches Err(e) && is_retryable(e) && elapsed_ms < MEMBERSHIP_RETRY_TIMEOUT_MS)
            ==> r == RetryStep::Return(result),
{
    match result {
        Ok(done) => RetryStep::Return(Ok(done)),
        Err(e) => {
            if membership_err_retryable(&e) && elapsed_ms < MEMBERSHIP_RETRY_TIMEOUT_MS {
                RetryStep::Pause(MEMBERSHIP_RETRY_INTERVAL_MS)
            } else {
                RetryStep::Return(Err(e))
            }
        },
    }
}

/// How a change of a node's role goes on.
#[derive(Clone, Copy, Debug, PartialEq, Eq, Structural)]
pub enum RoleStep {
    /// The node has that role already.
    Done,
    /// Ask Raft for the change.
    Change,
}

/// The throttle `a` has the delay and the limit of `b`.
pub open spec fn same_limits(a: &StandbyThrottle, b: &StandbyThrottle) -> bool {
    a.delay() == b.delay() && a.limit() == b.limit()
}

/// The throttle `a` is `b`.
pub open spec fn throttles_same(a: &StandbyThrottle, b: &StandbyThrottle) -> bool {
    same_limits(a, b) && a.ids() == b.ids() && a.gates() == b.gates()
}

/// The throttle `a` is `b`, with `id` throttled.
pub open spec fn throttles_more(a: &StandbyThrottle, b: &StandbyThrottle, id: NodeId) -> bool {
    same_limits(a, b) && a.ids() == b.ids().insert(id) && a.gates() == b.gates()
}

/// The throttle `a` is `b`, with `id` not throttled, and without a gate.
pub open spec fn throttles_less(a: &StandbyThrottle, b: &StandbyThrottle, id: NodeId) -> bool {
    same_limits(a, b) && a.ids() == b.ids().remove(id) && a.gates() == b.gates().remove(id)
}

impl MultiRaft {
    /// The address with which `standby_id` is added to `group` as a learner.
    pub fn add_standby(&self, group: GroupId, standby_id: NodeId) -> (r: Result<
        String,
        MultiRaftError,
    >)
        ensures
            match r {
                Ok(addr) => self.view_of(group) is Some && addr@ == group_setup::addr_or_empty(
                    self.config.peers@,
                    standby_id,
                ),
                Err(e) => self.view_of(group) is None && e == MultiRaftError::UnknownGroup(group),
            },
    {
        match self.raft(group) {
            Ok(_) => Ok(self.peer_addr(standby_id)),
            Err(e) => Err(e),
        }
    }

    /// What adding the learner `standby_id` comes to; once it is added it is throttled.
    pub fn add_standby_once(
        &self,
        throttle: &mut StandbyThrottle,
        standby_id: NodeId,
        reply: ChangeReply,
    ) -> (r: Result<(), MultiRaftError>)
        requires
            old(throttle).wf(),
        ensures
            final(throttle).wf(),
            change_result("add_learner"@, reply, r),
            if r is Ok {
                throttles_more(final(throttle), old(throttle), standby_id)
            } else {
                throttles_same(final(throttle), old(throttle))
            },
    {
        let r = change_outcome("add_learner", reply);
        if r.is_ok() {
            throttle.insert(standby_id);
        }
        r
    }

    /// Whether Raft is to make the learner `node_id` of `group` a voter. A voter is one already,
    /// and is throttled no more; a node that is neither cannot be promoted.
    pub fn promote_standby(
        &self,
        throttle: &mut StandbyThrottle,
        group: GroupId,
        node_id: NodeId,
    ) -> (r: Result<RoleStep, MultiRaftError>)
        requires
            old(throttle).wf(),
        ensures
            final(throttle).wf(),
            if r == Ok::<RoleStep, MultiRaftError>(RoleStep::Done) {
                throttles_less(final(throttle), old(throttle), node_id)
            } else {
                throttles_same(final(throttle), old(throttle))
            },
            match self.view_of(group) {
                None => r == Err::<RoleStep, MultiRaftError>(MultiRaftError::UnknownGroup(group)),
                Some(v) => if v.voters@.contains(node_id) {
                    r == Ok::<RoleStep, MultiRaftError>(RoleStep::Done)
                } else if v.learners@.contains(node_id) {
                    r == Ok::<RoleStep, MultiRaftError>(RoleStep::Change)
                } else {
                    r matches Err(e) && error::is_other(
                        e,
                        "promote_standby: node "@ + text::decimal(node_id as nat)
                            + " is not a learner in group "@ + text::decimal(group as nat),
                    )
                },
            },
    {
        match self.raft(group) {
            Err(e) => Err(e),
            Ok(v) => {
                if v.voters.contains(&node_id) {
                    throttle.remove(node_id);
                    Ok(RoleStep::Done)
                } else if !v.learners.contains(&node_id) {
                    let mut m = "promote_standby: node ".to_owned();
                    m.append(text::decimal_text(node_id).as_str());
                    m.append(" is not a learner in group ");
                    m.append(text::decimal_text(group).as_str());
                    Err(MultiRaftError::Other(m))
                } else {
                    Ok(RoleStep::Change)
                }
            },
        }
    }

    /// What promoting `node_id` comes to; once it is a voter it is throttled no more.
    pub fn promote_standby_once(
        &self,
        throttle: &mut StandbyThrottle,
        node_id: NodeId,
        reply: ChangeReply,
    ) -> (r: Result<(), MultiRaftError>)
        requires
            old(throttle).wf(),
        ensures
            final(throttle).wf(),
            change_result("promote_standby change_membership"@, reply, r),
            if r is Ok {
                throttles_less(final(throttle), old(throttle), node_id)
            } else {
                throttles_same(final(throttle), old(throttle))
            },
    {
        let r = change_outcome("promote_standby change_membership", reply);
        if r.is_ok() {
            throttle.remove(node_id);
        }
        r
    }

    /// Whether Raft is to make the voter `node_id` of `group` a learner. A node that is no voter
    /// is throttled, and nothing more is to be done.
    pub fn demote_to_standby(
        &self,
        throttle: &mut StandbyThrottle,
        group: GroupId,
        node_id: NodeId,
    ) -> (r: Result<RoleStep, MultiRaftError>)
        requires
            old(throttle).wf(),
        ensures
            final(throttle).wf(),
            if r == Ok::<RoleStep, MultiRaftError>(RoleStep::Done) {
                throttles_more(final(throttle), old(throttle), node_id)
            } else {
                throttles_same(final(throttle), old(throttle))
            },
            match self.view_of(group) {
                None => r == Err::<RoleStep, MultiRaftError>(MultiRaftError::UnknownGroup(group)),
                Some(v) => r == Ok::<RoleStep, MultiRaftError>(
                    if v.voters@.contains(node_id) {
                        RoleStep::Change
                    } else {
                        RoleStep::Done
                    },
                ),
            },
    {
        match self.raft(group) {
            Err(e) => Err(e),
            Ok(v) => {
                if !v.voters.contains(&node_id) {
                    throttle.insert(node_id);
                    Ok(RoleStep::Done)
                } else {
                    Ok(RoleStep::Change)
                }
            },
        }
    }

    /// What demoting `node_id` comes to; once it is a learner it is throttled.
    pub fn demote_to_standby_once(
        &self,
        throttle: &mut StandbyThrottle,
        node_id: NodeId,
        reply: ChangeReply,
    ) -> (r: Result<(), MultiRaftError>)
        requires
            old(throttle).wf(),
        ensures
            final(throttle).wf(),
            change_result("demote_to_standby change_membership"@, reply, r),
            if r is Ok {
                throttles_more(final(throttle), old(throttle), node_id)
            } else {
                throttles_same(final(throttle), old(throttle))
            },
    {
        let r = change_outcome("demote_to_standby change_membership", reply);
        if r.is_ok() {
            throttle.insert(node_id);
        }
        r
    }
}

/// The nodes throttled once a membership has been seen, where `ids` were before.
pub open spec fn watched(
    ids: Set<NodeId>,
    learners: Set<NodeId>,
    voters: Set<NodeId>,
) -> Set<NodeId> {
    ids.union(learners).difference(voters)
}

/// What the watcher of a group's membership has last seen: its learners by rising id.
#[derive(Debug)]
pub struct ThrottleWatch {
    pub last: Option<Vec<NodeId>>,
}

impl ThrottleWatch {
    pub fn new() -> (r: Self)
        ensures
            r.last is None,
    {
        ThrottleWatch { last: None }
    }

    /// Keeps the throttle in step with the membership, so that whichever node comes to lead
    /// throttles the learners and no voter: where the learners have changed, they are throttled,
    /// and voters are throttled no more.
    pub fn observe(
        &mut self,
        throttle: &mut StandbyThrottle,
        learners: Vec<NodeId>,
        voters: &Vec<NodeId>,
    )
        requires
            old(throttle).wf(),
        ensures
            final(throttle).wf(),
            same_limits(final(throttle), old(throttle)),
            (old(self).last matches Some(l) && l@ == learners@) ==> {
                &&& *final(self) == *old(self)
                &&& *final(throttle) == *old(throttle)
            },
            !(old(self).last matches Some(l) && l@ == learners@) ==> {
                &&& final(self).last matches Some(l)
                &&& l@ == learners@
                &&& final(throttle).ids() == watched(
                    old(throttle).ids(),
                    learners@.to_set(),
                    voters@.to_set(),
                )
                &&& final(throttle).gates() == old(throttle).gates().remove_keys(
                    old(throttle).ids().union(learners@.to_set()).intersect(voters@.to_set()),
                )
            },
    {
        let unchanged = match &self.last {
            Some(l) => same_ids(l, &learners),
            None => false,
        };
        if unchanged {
            return;
        }
        let ghost start = throttle.ids();
        let mut i: usize = 0;
        proof {
            assert(learners@.take(0).to_set() =~= Set::empty());
            assert(start.union(learners@.take(0).to_set()) =~= start);
        }
        while i < learners.len()
            invariant
                i <= learners@.len(),
                throttle.wf(),
                same_limits(throttle, old(throttle)),
                throttle.gates() == old(throttle).gates(),
                throttle.ids() == start.union(learners@.take(i as int).to_set()),
            decreases learners@.len() - i,
        {
            let id: u64 = learners[i];
            throttle.insert(id);
            proof {
                lemma_take_set(learners@, i as int);
                assert(throttle.ids() =~= start.union(learners@.take(i + 1).to_set()));
            }
            i = i + 1;
        }
        assert(learners@.take(i as int) =~= learners@);
        let ghost grown = throttle.ids();
        let mut j: usize = 0;
        proof {
            assert(voters@.take(0).to_set() =~= Set::empty());
            assert(grown.difference(voters@.take(0).to_set()) =~= grown);
            assert(throttle.gates() =~= old(throttle).gates().remove_keys(
                grown.intersect(voters@.take(0).to_set()),
            ));
        }
        while j < voters.len()
            invariant
                j <= voters@.len(),
                throttle.wf(),
                same_limits(throttle, old(throttle)),
                throttle.ids() == grown.difference(voters@.take(j as int).to_set()),
                throttle.gates() == old(throttle).gates().remove_keys(
                    grown.intersect(voters@.take(j as int).to_set()),
                ),
            decreases voters@.len() - j,
        {
            let id: u64 = voters[j];
            if throttle.contains(id) {
                throttle.remove(id);
            }
            proof {
                lemma_take_set(voters@, j as int);
                assert(throttle.ids() =~= grown.difference(voters@.take(j + 1).to_set()));
                assert(throttle.gates() =~= old(throttle).gates().remove_keys(
                    grown.intersect(voters@.take(j + 1).to_set()),
                ));
            }
            j = j + 1;
        }
        assert(voters@.take(j as int) =~= voters@);
        self.last = Some(learners);
    }
}

proof fn lemma_take_set(s: Seq<NodeId>, i: int)
    requires
        0 <= i < s.len(),
    ensures
        s.take(i + 1).to_set() == s.take(i).to_set().insert(s[i]),
{
    let a = s.take(i);
    let b = s.take(i + 1);
    assert forall|x: NodeId| b.to_set().contains(x) <==> a.to_set().insert(s[i]).contains(x) by {
        if b.contains(x) {
            let k = choose|k: int| 0 <= k < b.len() && b[k] == x;
            if k < a.len() {
                assert(a[k] == x);
            }
        }
        if a.contains(x) {
            let k = choose|k: int| 0 <= k < a.len() && a[k] == x;
            assert(b[k] == x);
        }
        assert(b[i] == s[i]);
    }
    assert(b.to_set() =~= a.to_set().insert(s[i]));
}

/// Whether the two are the same ids in the same order.
fn same_ids(a: &Vec<NodeId>, b: &Vec<NodeId>) -> (r: bool)
    ensures
        r == (a@ == b@),
{
    if a.len() != b.len() {
        return false;
    }
    let mut i: usize = 0;
    while i < a.len()
        invariant
            i <= a@.len(),
            a@.len() == b@.len(),
            forall|j: int| 0 <= j < i ==> a@[j] == b@[j],
        decreases a@.len() - i,
    {
        if a[i] != b[i] {
            return false;
        }
        i = i + 1;
    }
    assert(a@ =~= b@);
    true
}

/// A failure that Raft reports while another change is under way is tried again, whatever the
/// change is called.
pub proof fn law_pending_change_is_retried(
    label: Seq<char>,
    m: String,
    r: Result<(), MultiRaftError>,
)
    requires
        is_pending_text(m@),
        change_result(label, ChangeReply::Failed(m), r),
    ensures
        r matches Err(e) && is_retryable(e),
{
    let needle = "configuration change"@;
    let at = choose|at: int| text::occurs_at(m@, needle, at);
    let head = label + ": "@;
    let whole = transient_text(label, m@);
    assert(whole.subrange(head.len() + at, head.len() + at + needle.len()) =~= m@.subrange(
        at,
        at + needle.len(),
    ));
    assert(text::occurs_at(whole, needle, head.len() + at));
}

/// Neither another leader nor an unknown group is a reason to try again.
pub proof fn law_other_errors_are_final(hint: Option<NodeId>, group: GroupId)
    ensures
        !is_retryable(MultiRaftError::NotLeader { hint }),
        !is_retryable(MultiRaftError::UnknownGroup(group)),
{
}

/// Replication between voters is never throttled, and that to learners always is: so it stands
/// once a membership has been seen, whatever the configuration named, and seeing it once more
/// changes nothing.
pub proof fn law_learners_alone_are_throttled(
    ids: Set<NodeId>,
    learners: Set<NodeId>,
    voters: Set<NodeId>,
    id: NodeId,
)
    ensures
        voters.contains(id) ==> !watched(ids, learners, voters).contains(id),
        learners.contains(id) && !voters.contains(id) ==> watched(ids, learners, voters).contains(
            id,
        ),
        watched(watched(ids, learners, voters), learners, voters) == watched(ids, learners, voters),
{
    assert(watched(watched(ids, learners, voters), learners, voters) =~= watched(
        ids,
        learners,
        voters,
    ));
}

/// Demoting a standby that was promoted brings its throttling back; its gate is made anew.
pub proof fn law_demotion_undoes_promotion(
    before: StandbyThrottle,
    promoted: StandbyThrottle,
    demoted: StandbyThrottle,
    id: NodeId,
)
    requires
        before.ids().contains(id),
        throttles_less(&promoted, &before, id),
        throttles_more(&demoted, &promoted, id),
    ensures
        !promoted.ids().contains(id),
        demoted.ids() == before.ids(),
        same_limits(&demoted, &before),
        demoted.gates() == before.gates().remove(id),
{
    assert(before.ids().remove(id).insert(id) =~= before.ids());
}

} // verus!
