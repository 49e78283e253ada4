//! The loop that has lagging standbys promoted, as the transition plugins say.

use std::collections::{BTreeMap, BTreeSet};

use vstd::prelude::*;
use vstd::std_specs::cmp::OrdSpec;
use vstd::std_specs::iter::IteratorSpec;

use crate::config::ClusterConfig;
use crate::error;
use crate::error::MultiRaftError;
use crate::membership;
use crate::membership::ChangeReply;
use crate::multiraft::{GroupView, MultiRaft};
use crate::plugin;
use crate::plugin::{
    PluginEvent, PluginRegistry, TransitionAction, TransitionContext, TransitionPlugin,
    TransitionSnapshot,
};
use crate::standby_throttle::StandbyThrottle;
use crate::text;
use crate::type_config::{GroupId, LogId, NodeId};

verus! {

broadcast use vstd::std_specs::btree::group_btree_axioms;

/// The ids of the set, rising.
pub open spec fn are_rising_ids(ids: Seq<NodeId>, set: Set<NodeId>) -> bool {
    &&& forall|i: int, j: int| 0 <= i < j < ids.len() ==> ids[i] < ids[j]
    &&& forall|id: NodeId| #[trigger] ids.contains(id) <==> set.contains(id)
}

fn rising_ids(set: &BTreeSet<NodeId>) -> (r: Vec<NodeId>)
    ensures
        are_rising_ids(r@, set@),
{
    let mut out: Vec<NodeId> = Vec::new();
    for id in it: set.iter()
        invariant
            it.seq() == vstd::std_specs::btree::spec_btree_keys_iter(set).remaining(),
            out@ == it.seq().unref().take(it.index() as int),
    {
        out.push(*id);
        assert(out@ =~= it.seq().unref().take(it.index() + 1));
    }
    proof {
        assert(out@ =~= vstd::std_specs::btree::spec_btree_keys_iter(set).remaining().unref());
        lemma_set_is_walked_rising(set, out@);
    }
    out
}

/// A set of numbers is walked from the least up.
proof fn lemma_set_is_walked_rising(set: &BTreeSet<NodeId>, ids: Seq<NodeId>)
    requires
        ids == vstd::std_specs::btree::spec_btree_keys_iter(set).remaining().unref(),
    ensures
        are_rising_ids(ids, set@),
{
    broadcast use vstd::std_specs::btree::axiom_spec_btree_keys_iter;

    lemma_references_are_ordered();
    let seq = vstd::std_specs::btree::spec_btree_keys_iter(set).remaining();
    vstd::std_specs::btree::axiom_increasing_seq_meaning(seq);
    assert forall|i: int, j: int| 0 <= i < j < ids.len() implies ids[i] < ids[j] by {
        assert(OrdSpec::cmp_spec(&seq[i], &seq[j]) is Less);
    }
    assert forall|id: NodeId| #[trigger] ids.contains(id) <==> set@.contains(id) by {
        assert(ids.to_set().contains(id) <==> set@.contains(id));
    }
}

/// References to numbers are ordered as the numbers.
proof fn lemma_references_are_ordered()
    ensures
        vstd::laws_cmp::obeys_cmp::<&u64>(),
{
    reveal(vstd::laws_eq::obeys_eq_spec_properties);
    reveal(vstd::laws_cmp::obeys_cmp_partial_ord);
    reveal(vstd::laws_cmp::obeys_cmp_ord);
    reveal(vstd::laws_cmp::obeys_partial_cmp_spec_properties);
}

/// Those of the ids that are learners, in their order.
pub open spec fn learners_among(ids: Seq<NodeId>, learners: Set<NodeId>) -> Seq<NodeId>
    decreases ids.len(),
{
    if ids.len() == 0 {
        Seq::empty()
    } else if learners.contains(ids.last()) {
        learners_among(ids.drop_last(), learners).push(ids.last())
    } else {
        learners_among(ids.drop_last(), learners)
    }
}

/// The standbys that are looked at: the configured ones that are learners, in the order of the
/// configuration; all learners, from the least id up, where none is configured.
pub open spec fn are_candidates(
    configured: Seq<NodeId>,
    learners: Set<NodeId>,
    r: Seq<NodeId>,
) -> bool {
    if configured.len() == 0 {
        are_rising_ids(r, learners)
    } else {
        r == learners_among(configured, learners)
    }
}

/// The standbys that are looked at.
pub fn candidates(configured: &Vec<NodeId>, learners: &BTreeSet<NodeId>) -> (r: Vec<NodeId>)
    ensures
        are_candidates(configured@, learners@, r@),
{
    if configured.len() == 0 {
        return rising_ids(learners);
    }
    let mut out: Vec<NodeId> = Vec::new();
    let mut i: usize = 0;
    while i < configured.len()
        invariant
            i <= configured@.len(),
            out@ == learners_among(configured@.take(i as int), learners@),
        decreases configured@.len() - i,
    {
        assert(configured@.take(i + 1).drop_last() =~= configured@.take(i as int));
        if learners.contains(&configured[i]) {
            out.push(configured[i]);
        }
        i = i + 1;
    }
    assert(configured@.take(i as int) =~= configured@);
    out
}

/// The index up to which a node has replicated the log, as the leader knows it; 0 where it does
/// not.
pub open spec fn replicated_to(
    replication: Option<Map<NodeId, Option<LogId>>>,
    id: NodeId,
) -> u64 {
    match replication {
        Some(m) => if m.contains_key(id) {
            match m[id] {
                Some(l) => l.index,
                None => 0,
            }
        } else {
            0
        },
        None => 0,
    }
}

/// The progress of the followers, as a map.
pub open spec fn progress(replication: Option<BTreeMap<NodeId, Option<LogId>>>) -> Option<
    Map<NodeId, Option<LogId>>,
> {
    match replication {
        Some(m) => Some(m@),
        None => None,
    }
}

/// One round over the standbys of a group: what the leader knew when it began, and how far the
/// round has come.
#[derive(Debug)]
pub struct TransitionTick {
    pub group: GroupId,
    pub leader_applied: u64,
    pub standbys: Vec<NodeId>,
    pub replication: Option<BTreeMap<NodeId, Option<LogId>>>,
    /// How many of the standbys have been dealt with.
    pub next: usize,
}

impl TransitionTick {
    /// What the plugins are asked about the standby at `i`.
    pub open spec fn question(&self, i: int) -> TransitionContext {
        TransitionContext {
            group: self.group,
            leader_applied_index: self.leader_applied,
            standby_id: self.standbys@[i],
            standby_applied_index: replicated_to(progress(self.replication), self.standbys@[i]),
            standby_is_learner: true,
        }
    }

    /// That the standbys from `from` up to `to` are not to be promoted.
    pub open spec fn passed_over(&self, from: int, to: int) -> Seq<PluginEvent>
        decreases to - from,
    {
        if to <= from {
            Seq::empty()
        } else {
            self.passed_over(from, to - 1).push(
                PluginEvent::Asked(self.question(to - 1), TransitionAction::NoAction),
            )
        }
    }

    /// Asks the plugins about the standbys that are left, until one says that a standby is to be
    /// promoted: that standby.
    pub fn next_promotion(&mut self, plugins: &mut PluginRegistry) -> (r: Option<NodeId>)
        requires
            old(plugins).wf(),
            old(self).next <= old(self).standbys@.len(),
        ensures
            final(plugins).wf(),
            plugin::same_but_transition(*old(plugins), *final(plugins)),
            *final(self) == (TransitionTick { next: final(self).next, ..*old(self) }),
            old(self).next <= final(self).next <= final(self).standbys@.len(),
            match r {
                Some(id) => {
                    let k = final(self).next - 1;
                    &&& old(self).next <= k
                    &&& id == old(self).standbys@[k]
                    &&& exists|p: int| #[trigger]
                        promoted_by(
                            old(plugins).transition@,
                            final(plugins).transition@,
                            p,
                            old(self).passed_over(old(self).next as int, k),
                            old(self).question(k),
                        )
                },
                None => final(self).next == final(self).standbys@.len() && all_asked(
                    old(plugins).transition@,
                    final(plugins).transition@,
                    old(self).passed_over(
                        old(self).next as int,
                        old(self).standbys@.len() as int,
                    ),
                ),
            },
    {
        let ghost from = self.next as int;
        let ghost start = *plugins;
        proof {
            assert forall|j: int| 0 <= j < start.transition@.len() implies (
            #[trigger] start.transition@[j]).history() == start.transition@[j].history()
                + self.passed_over(from, from) by {
                assert(start.transition@[j].history() + Seq::<PluginEvent>::empty()
                    =~= start.transition@[j].history());
            }
        }
        while self.next < self.standbys.len()
            invariant
                old(plugins).wf(),
                start == *old(plugins),
                from == old(self).next,
                *self == (TransitionTick { next: self.next, ..*old(self) }),
                from <= self.next <= self.standbys@.len(),
                plugin::same_but_transition(start, *plugins),
                all_asked(
                    start.transition@,
                    plugins.transition@,
                    old(self).passed_over(from, self.next as int),
                ),
            decreases self.standbys@.len() - self.next,
        {
            let ghost k = self.next as int;
            let ghost before = plugins.transition@;
            let id: NodeId = self.standbys[self.next];
            let ctx = TransitionContext {
                group: self.group,
                leader_applied_index: self.leader_applied,
                standby_id: id,
                standby_applied_index: replicated_index(&self.replication, id),
                standby_is_learner: true,
            };
            assert(ctx == old(self).question(k));
            self.next = self.next + 1;
            let promote = ask_transition(plugins, &ctx);
            if promote {
                proof {
                    let p = choose|p: int| #[trigger]
                        promoted_by(before, plugins.transition@, p, Seq::empty(), ctx);
                    lemma_then_promoted(
                        start.transition@,
                        before,
                        plugins.transition@,
                        p,
                        old(self).passed_over(from, k),
                        ctx,
                    );
                }
                return Some(id);
            }
            proof {
                lemma_then_asked(
                    start.transition@,
                    before,
                    plugins.transition@,
                    old(self).passed_over(from, k),
                    ctx,
                );
            }
        }
        None
    }
}

/// The plugins are those there were: they report and answer by the same rules.
pub open spec fn same_policies(
    before: Seq<Box<dyn TransitionPlugin>>,
    after: Seq<Box<dyn TransitionPlugin>>,
) -> bool {
    &&& after.len() == before.len()
    &&& forall|j: int|
        0 <= j < after.len() ==> (#[trigger] after[j]).reports() == before[j].reports()
            && after[j].acts() == before[j].acts()
}

/// Each plugin has been told `events` more.
pub open spec fn all_asked(
    before: Seq<Box<dyn TransitionPlugin>>,
    after: Seq<Box<dyn TransitionPlugin>>,
    events: Seq<PluginEvent>,
) -> bool {
    &&& same_policies(before, after)
    &&& forall|j: int|
        0 <= j < after.len() ==> (#[trigger] after[j]).history() == before[j].history() + events
}

/// Each plugin has been told `events` more; then the plugins up to `p` have been asked about
/// `ctx`: the one at `p` wants the standby promoted, those before it do not.
pub open spec fn promoted_by(
    before: Seq<Box<dyn TransitionPlugin>>,
    after: Seq<Box<dyn TransitionPlugin>>,
    p: int,
    events: Seq<PluginEvent>,
    ctx: TransitionContext,
) -> bool {
    &&& same_policies(before, after)
    &&& 0 <= p < after.len()
    &&& forall|j: int|
        0 <= j < p ==> (#[trigger] after[j]).history() == (before[j].history() + events).push(
            PluginEvent::Asked(ctx, TransitionAction::NoAction),
        )
    &&& after[p].history() == (before[p].history() + events).push(
        PluginEvent::Asked(ctx, TransitionAction::PromoteStandby),
    )
    &&& forall|j: int|
        p < j < after.len() ==> (#[trigger] after[j]).history() == before[j].history() + events
}

proof fn lemma_then_asked(
    start: Seq<Box<dyn TransitionPlugin>>,
    before: Seq<Box<dyn TransitionPlugin>>,
    after: Seq<Box<dyn TransitionPlugin>>,
    events: Seq<PluginEvent>,
    ctx: TransitionContext,
)
    requires
        all_asked(start, before, events),
        all_asked(before, after, seq![PluginEvent::Asked(ctx, TransitionAction::NoAction)]),
    ensures
        all_asked(start, after, events.push(PluginEvent::Asked(ctx, TransitionAction::NoAction))),
{
    let e = PluginEvent::Asked(ctx, TransitionAction::NoAction);
    assert forall|j: int| 0 <= j < after.len() implies (#[trigger] after[j]).history()
        == start[j].history() + events.push(e) by {
        assert(before[j].history() == start[j].history() + events);
        assert(start[j].history() + events + seq![e] =~= start[j].history() + events.push(e));
    }
}

proof fn lemma_then_promoted(
    start: Seq<Box<dyn TransitionPlugin>>,
    before: Seq<Box<dyn TransitionPlugin>>,
    after: Seq<Box<dyn TransitionPlugin>>,
    p: int,
    events: Seq<PluginEvent>,
    ctx: TransitionContext,
)
    requires
        all_asked(start, before, events),
        promoted_by(before, after, p, Seq::empty(), ctx),
    ensures
        promoted_by(start, after, p, events, ctx),
{
    assert forall|j: int| 0 <= j < after.len() implies before[j].history()
        + Seq::<PluginEvent>::empty() == start[j].history() + events && #[trigger] after[j]
        == after[j] by {
        assert(before[j].history() == start[j].history() + events);
        assert(before[j].history() + Seq::<PluginEvent>::empty() =~= before[j].history());
    }
}

fn replicated_index(
    replication: &Option<BTreeMap<NodeId, Option<LogId>>>,
    id: NodeId,
) -> (r: u64)
    ensures
        r == replicated_to(progress(*replication), id),
{
    match replication {
        Some(m) => match m.get(&id) {
            Some(Some(l)) => l.index,
            _ => 0,
        },
        None => 0,
    }
}

/// Each plugin may answer that the standby is not to be promoted.
pub open spec fn none_must_promote(
    plugins: Seq<Box<dyn TransitionPlugin>>,
    ctx: TransitionContext,
) -> bool {
    forall|j: int|
        0 <= j < plugins.len() ==> #[trigger] plugin::may_act(
            plugins,
            j,
            ctx,
            TransitionAction::NoAction,
        )
}

/// Asks the transition plugins about a standby, in the order of registration, until one wants it
/// promoted.
pub fn ask_transition(plugins: &mut PluginRegistry, ctx: &TransitionContext) -> (promote: bool)
    requires
        old(plugins).wf(),
    ensures
        final(plugins).wf(),
        plugin::same_but_transition(*old(plugins), *final(plugins)),
        if promote {
            exists|p: int| #[trigger]
                promoted_by(
                    old(plugins).transition@,
                    final(plugins).transition@,
                    p,
                    Seq::empty(),
                    *ctx,
                ) && plugin::may_act(
                    old(plugins).transition@,
                    p,
                    *ctx,
                    TransitionAction::PromoteStandby,
                )
        } else {
            all_asked(
                old(plugins).transition@,
                final(plugins).transition@,
                seq![PluginEvent::Asked(*ctx, TransitionAction::NoAction)],
            )
        },
        promote || none_must_promote(old(plugins).transition@, *ctx),
{
    let ghost start = *plugins;
    let ghost no = PluginEvent::Asked(*ctx, TransitionAction::NoAction);
    let mut i: usize = 0;
    while i < plugins.transition.len()
        invariant
            i <= plugins.transition@.len(),
            start == *old(plugins),
            start.wf(),
            no == PluginEvent::Asked(*ctx, TransitionAction::NoAction),
            plugin::same_but_transition(start, *plugins),
            plugins.transition@.len() == start.transition@.len(),
            forall|j: int|
                0 <= j < i ==> (#[trigger] plugins.transition@[j]).history()
                    == start.transition@[j].history().push(no) && plugins.transition@[j].reports()
                    == start.transition@[j].reports() && plugins.transition@[j].acts()
                    == start.transition@[j].acts(),
            forall|j: int|
                0 <= j < i ==> #[trigger] plugin::may_act(
                    start.transition@,
                    j,
                    *ctx,
                    TransitionAction::NoAction,
                ),
            forall|j: int|
                i <= j < plugins.transition@.len() ==> #[trigger] plugins.transition@[j]
                    == start.transition@[j],
        decreases plugins.transition@.len() - i,
    {
        assert(plugins.transition@[i as int] == start.transition@[i as int]);
        let action = plugins.transition[i].evaluate(ctx);
        assert(plugin::may_act(start.transition@, i as int, *ctx, action));
        if action == TransitionAction::PromoteStandby {
            proof {
                lemma_no_events(start.transition@);
                assert(promoted_by(
                    start.transition@,
                    plugins.transition@,
                    i as int,
                    Seq::empty(),
                    *ctx,
                ));
            }
            return true;
        }
        i = i + 1;
    }
    proof {
        assert forall|j: int| 0 <= j < plugins.transition@.len() implies (
        #[trigger] plugins.transition@[j]).history() == start.transition@[j].history()
            + seq![no] by {
            assert(start.transition@[j].history() + seq![no]
                =~= start.transition@[j].history().push(no));
        }
    }
    false
}

proof fn lemma_no_events(plugins: Seq<Box<dyn TransitionPlugin>>)
    ensures
        forall|j: int|
            #![trigger plugins[j]]
            0 <= j < plugins.len() ==> plugins[j].history() + Seq::<PluginEvent>::empty()
                == plugins[j].history(),
{
    assert forall|j: int| #![trigger plugins[j]] 0 <= j < plugins.len() implies plugins[j].history()
        + Seq::<PluginEvent>::empty() == plugins[j].history() by {
        assert(plugins[j].history() + Seq::<PluginEvent>::empty() =~= plugins[j].history());
    }
}

/// Whether some transition plugin says that it is enabled.
pub fn transition_enabled(plugins: &PluginRegistry) -> (r: bool)
    ensures
        is_enabled_verdict(plugins.transition@, r),
{
    if plugins.transition.len() == 0 {
        return false;
    }
    let snapshots = plugins.transition_snapshots();
    let mut i: usize = 0;
    while i < snapshots.len()
        invariant
            i <= snapshots@.len(),
            snapshots@.len() == plugins.transition@.len(),
            forall|j: int|
                0 <= j < snapshots@.len() ==> plugin::transition_may_report(
                    plugins.transition@,
                    j,
                    #[trigger] snapshots@[j],
                ),
            forall|j: int| 0 <= j < i ==> #[trigger] may_say(plugins.transition@, j, false),
        decreases snapshots@.len() - i,
    {
        assert(plugin::transition_may_report(
            plugins.transition@,
            i as int,
            snapshots@[i as int],
        ));
        if snapshots[i].enabled {
            assert(may_say(plugins.transition@, i as int, true));
            return true;
        }
        i = i + 1;
    }
    false
}

/// The plugin at `j` may say of itself that it is enabled, or that it is not.
pub open spec fn may_say(plugins: Seq<Box<dyn TransitionPlugin>>, j: int, enabled: bool) -> bool {
    exists|s: TransitionSnapshot| #[trigger]
        plugin::transition_may_report(plugins, j, s) && s.enabled == enabled
}

/// `enabled` is what the plugins say together: one of them may say so, or all may deny it.
pub open spec fn is_enabled_verdict(plugins: Seq<Box<dyn TransitionPlugin>>, enabled: bool) -> bool {
    if enabled {
        exists|j: int| 0 <= j < plugins.len() && #[trigger] may_say(plugins, j, true)
    } else {
        forall|j: int| 0 <= j < plugins.len() ==> #[trigger] may_say(plugins, j, false)
    }
}

/// `t` is the round that begins in `group`, of which the leader knows `v`.
pub open spec fn is_tick(
    t: TransitionTick,
    group: GroupId,
    v: GroupView,
    configured: Seq<NodeId>,
    replication: Option<BTreeMap<NodeId, Option<LogId>>>,
) -> bool {
    &&& t.group == group
    &&& t.leader_applied == (match v.applied {
        Some(a) => a.0,
        None => 0,
    })
    &&& are_candidates(configured, v.learners@, t.standbys@)
    &&& t.replication == replication
    &&& t.next == 0
}

impl MultiRaft {
    /// The round over the standbys of `group` that begins now. None begins unless a transition
    /// plugin is enabled and this node leads the group.
    pub fn transition_tick_once(
        &self,
        plugins: &PluginRegistry,
        group: GroupId,
        replication: Option<BTreeMap<NodeId, Option<LogId>>>,
    ) -> (r: Option<TransitionTick>)
        ensures
            match r {
                Some(t) => {
                    &&& is_enabled_verdict(plugins.transition@, true)
                    &&& self.view_of(group) matches Some(v)
                    &&& v.is_leader
                    &&& is_tick(t, group, v, self.config.standby_node_ids@, replication)
                },
                None => {
                    ||| is_enabled_verdict(plugins.transition@, false)
                    ||| self.view_of(group) is None
                    ||| self.view_of(group) matches Some(v) && !v.is_leader
                },
            },
    {
        if !transition_enabled(plugins) {
            return None;
        }
        match self.groups.get(&group) {
            None => None,
            Some(v) => {
                if !v.is_leader {
                    return None;
                }
                let leader_applied: u64 = match v.applied {
                    Some(a) => a.0,
                    None => 0,
                };
                Some(
                    TransitionTick {
                        group,
                        leader_applied,
                        standbys: candidates(&self.config.standby_node_ids, &v.learners),
                        replication,
                        next: 0,
                    },
                )
            },
        }
    }
}

/// What the promotion of a standby comes to within a round. A promoted standby is no longer
/// throttled; a change that met another under way is left for a later round; any other failure
/// ends the round.
pub fn promote_standby_once(
    throttle: &mut StandbyThrottle,
    node_id: NodeId,
    reply: ChangeReply,
) -> (r: Result<(), MultiRaftError>)
    requires
        old(throttle).wf(),
    ensures
        final(throttle).wf(),
        match reply {
            ChangeReply::Done => r is Ok && membership::throttles_less(
                final(throttle),
                old(throttle),
                node_id,
            ),
            ChangeReply::Forward { leader } => r == Err::<(), MultiRaftError>(
                MultiRaftError::NotLeader { hint: leader },
            ) && *final(throttle) == *old(throttle),
            ChangeReply::Failed(m) => *final(throttle) == *old(throttle) && (
            if membership::is_pending_text(m@) {
                r is Ok
            } else {
                r matches Err(e) && error::is_other(
                    e,
                    "transition promote change_membership: "@ + m@,
                )
            }),
        },
{
    match reply {
        ChangeReply::Done => {
            throttle.remove(node_id);
            Ok(())
        },
        ChangeReply::Forward { leader } => Err(MultiRaftError::NotLeader { hint: leader }),
        ChangeReply::Failed(m) => {
            if text::text_contains(m.as_str(), "configuration change") {
                Ok(())
            } else {
                Err(
                    MultiRaftError::Other(
                        text::concat("transition promote change_membership: ", m.as_str()),
                    ),
                )
            }
        },
    }
}

/// The shortest pause between two rounds.
pub const TRANSITION_MIN_INTERVAL_MS: u64 = 100;

/// The pause between two rounds over all groups, in milliseconds. There are no rounds where the
/// configured pause is 0 or no transition plugin is enabled.
pub fn spawn_transition_loop(config: &ClusterConfig, plugins: &PluginRegistry) -> (r: Option<u64>)
    ensures
        match r {
            Some(ms) => {
                &&& config.transition_poll_interval_ms > 0
                &&& is_enabled_verdict(plugins.transition@, true)
                &&& ms == (if config.transition_poll_interval_ms < TRANSITION_MIN_INTERVAL_MS {
                    TRANSITION_MIN_INTERVAL_MS
                } else {
                    config.transition_poll_interval_ms
                })
            },
            None => config.transition_poll_interval_ms == 0 || is_enabled_verdict(
                plugins.transition@,
                false,
            ),
        },
{
    let interval_ms: u64 = config.transition_poll_interval_ms;
    if interval_ms == 0 {
        return None;
    }
    if !transition_enabled(plugins) {
        return None;
    }
    if interval_ms < TRANSITION_MIN_INTERVAL_MS {
        Some(TRANSITION_MIN_INTERVAL_MS)
    } else {
        Some(interval_ms)
    }
}

/// Only learners are looked at, whatever the configuration names.
pub proof fn law_only_learners_are_looked_at(
    configured: Seq<NodeId>,
    learners: Set<NodeId>,
    r: Seq<NodeId>,
    i: int,
)
    requires
        are_candidates(configured, learners, r),
        0 <= i < r.len(),
    ensures
        learners.contains(r[i]),
        configured.len() > 0 ==> configured.contains(r[i]),
{
    if configured.len() == 0 {
        assert(r.contains(r[i]));
    } else {
        lemma_learners_among(configured, learners, i);
    }
}

proof fn lemma_learners_among(ids: Seq<NodeId>, learners: Set<NodeId>, i: int)
    requires
        0 <= i < learners_among(ids, learners).len(),
    ensures
        learners.contains(learners_among(ids, learners)[i]),
        ids.contains(learners_among(ids, learners)[i]),
    decreases ids.len(),
{
    let head = learners_among(ids.drop_last(), learners);
    if i < head.len() {
        lemma_learners_among(ids.drop_last(), learners, i);
        let k = choose|k: int| 0 <= k < ids.drop_last().len() && ids.drop_last()[k] == head[i];
        assert(ids[k] == head[i]);
    } else {
        assert(ids[ids.len() - 1] == ids.last());
    }
}

/// Without an enabled policy there is no round: nothing is asked and nothing is promoted.
pub proof fn law_disabled_policies_never_act(plugins: Seq<Box<dyn TransitionPlugin>>, enabled: bool)
    requires
        is_enabled_verdict(plugins, enabled),
        forall|j: int| 0 <= j < plugins.len() ==> !#[trigger] may_say(plugins, j, true),
    ensures
        !enabled,
{
}

/// A standby that some policy must have promoted is not passed over.
pub proof fn law_due_promotions_are_made(
    plugins: Seq<Box<dyn TransitionPlugin>>,
    ctx: TransitionContext,
    j: int,
    promote: bool,
)
    requires
        promote || forall|i: int|
            0 <= i < plugins.len() ==> #[trigger] plugin::may_act(
                plugins,
                i,
                ctx,
                TransitionAction::NoAction,
            ),
        0 <= j < plugins.len(),
        !plugin::may_act(plugins, j, ctx, TransitionAction::NoAction),
    ensures
        promote,
{
}

} // verus!
