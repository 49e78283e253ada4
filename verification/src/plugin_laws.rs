//! What holds of the plugins that a node comes with, of the registry that tells them, and of the
//! promotions that they bring about.

use std::collections::{BTreeMap, BTreeSet};

use vstd::prelude::*;

use crate::config::ClusterConfig;
use crate::error::MultiRaftError;
use crate::membership::ChangeReply;
use crate::multiraft::MultiRaft;
use crate::plugin;
use crate::plugin::{
    ArchivePlugin, ArchiveSnapshot, AuthPlugin, MetricsPlugin, MetricsSnapshot, Plugin, PluginCall,
    PluginContext, PluginEvent, PluginKind, PluginRegistry, StageSample, TransitionAction,
    TransitionContext, TransitionPlugin, TransitionSnapshot,
};
use crate::plugin_archive::CatalogArchive;
use crate::plugin_auth::BearerTokenAuth;
use crate::plugin_metrics;
use crate::plugin_metrics::SegmentedLatencyMetrics;
use crate::plugin_ops;
use crate::plugin_ops::{
    auth_header, premium_registry, replicate_payload, request, OpsCommand, OpsRequest,
};
use crate::plugin_transition::LagPromotePolicy;
use crate::standby_throttle::{BeforeSend, StandbyThrottle};
use crate::text;
use crate::transition_loop;
use crate::transition_loop::{
    ask_transition, candidates, promote_standby_once, spawn_transition_loop, transition_enabled,
    TransitionTick,
};
use crate::type_config::{GroupId, LogId, NodeId};

verus! {

/// A guard lets in whoever sends its token as a bearer token, and no one else; one without a token
/// lets everyone in.
pub proof fn law_guard_asks_for_its_token(
    token: &str,
    guard: &BearerTokenAuth,
    authorization: Option<&str>,
    r: bool,
)
    requires
        call_ensures(BearerTokenAuth::new, (token,), *guard),
        call_ensures(<BearerTokenAuth as AuthPlugin>::authorize_admin, (guard, authorization), r),
    ensures
        r <==> token@.len() == 0 || (authorization is Some && authorization->Some_0@ == "Bearer "@
            + token@),
{
}

/// A guard takes the token of the environment over; without one it lets everyone in.
pub proof fn law_guard_takes_the_environments_token(
    value: Option<String>,
    guard: &BearerTokenAuth,
    authorization: Option<&str>,
    r: bool,
)
    requires
        call_ensures(BearerTokenAuth::from_env, (value,), *guard),
        call_ensures(<BearerTokenAuth as AuthPlugin>::authorize_admin, (guard, authorization), r),
    ensures
        r <==> value is None || value->Some_0@.len() == 0 || (authorization is Some
            && authorization->Some_0@ == "Bearer "@ + value->Some_0@),
{
}

/// The tool sends the token that it was given, else that of the environment: a guard with that token
/// lets it in, and one with another token does not.
pub proof fn law_tool_is_let_in_by_its_token(
    token: Option<&str>,
    env_token: Option<&str>,
    header: Option<String>,
    sent: Option<&str>,
    at_guard: &str,
    guard: &BearerTokenAuth,
    r: bool,
)
    requires
        call_ensures(auth_header, (token, env_token), header),
        sent is Some <==> header is Some,
        sent is Some ==> sent->Some_0@ == header->Some_0@,
        call_ensures(BearerTokenAuth::new, (at_guard,), *guard),
        call_ensures(<BearerTokenAuth as AuthPlugin>::authorize_admin, (guard, sent), r),
        at_guard@.len() > 0,
    ensures
        token is Some ==> (r <==> token->Some_0@ == at_guard@),
        token is None && env_token is Some ==> (r <==> env_token->Some_0@ == at_guard@),
        token is None && env_token is None ==> !r && header is None,
{
    let b = "Bearer "@;
    let given = if token is Some {
        token->Some_0@
    } else {
        env_token->Some_0@
    };
    if header is Some {
        assert((b + given).skip(b.len() as int) =~= given);
        assert((b + at_guard@).skip(b.len() as int) =~= at_guard@);
    }
}

/// The registry that a node comes with lets in whoever sends the token that was given, else that of
/// the environment; everyone where there is neither.
pub proof fn law_premium_registry_guards_by_token(
    auth_token: Option<&str>,
    threshold: Option<u64>,
    env_token: Option<String>,
    registry: &PluginRegistry,
    authorization: Option<&str>,
    r: bool,
)
    requires
        call_ensures(premium_registry, (auth_token, threshold, env_token), *registry),
        call_ensures(PluginRegistry::authorize_admin, (registry, authorization), r),
    ensures
        auth_token is Some ==> (r <==> auth_token->Some_0@.len() == 0 || (authorization is Some
            && authorization->Some_0@ == "Bearer "@ + auth_token->Some_0@)),
        auth_token is None && env_token is Some ==> (r <==> env_token->Some_0@.len() == 0 || (
        authorization is Some && authorization->Some_0@ == "Bearer "@ + env_token->Some_0@)),
        auth_token is None && env_token is None ==> r,
{
    let a = plugin::opt_text(authorization);
    if r {
        assert(plugin::may_answer(registry.auth@, 0, a, true));
    } else {
        let k = choose|k: int| #[trigger] plugin::refuses_first(registry.auth@, a, k);
        assert(plugin::may_answer(registry.auth@, 0, a, false));
    }
}

/// A registry without guards lets everyone in; one more guard that refuses a request keeps it out.
pub proof fn law_every_guard_must_agree(
    registry: &PluginRegistry,
    authorization: Option<&str>,
    r: bool,
    k: int,
)
    requires
        call_ensures(PluginRegistry::authorize_admin, (registry, authorization), r),
    ensures
        registry.auth@.len() == 0 ==> r,
        0 <= k < registry.auth@.len() && !plugin::may_answer(
            registry.auth@,
            k,
            plugin::opt_text(authorization),
            true,
        ) ==> !r,
        (forall|j: int|
            0 <= j < registry.auth@.len() ==> !#[trigger] plugin::may_answer(
                registry.auth@,
                j,
                plugin::opt_text(authorization),
                false,
            )) ==> r,
{
    let a = plugin::opt_text(authorization);
    if !r {
        let k2 = choose|k: int| #[trigger] plugin::refuses_first(registry.auth@, a, k);
        assert(plugin::may_answer(registry.auth@, k2, a, false));
    }
}

/// An enabled policy promotes a learner exactly where it is behind the leader by the threshold or
/// more, and by at least one entry; it then tells that this was its last answer.
pub proof fn law_enabled_policy_promotes_by_lag(
    threshold: u64,
    fresh: LagPromotePolicy,
    policy: &mut LagPromotePolicy,
    ctx: &TransitionContext,
    r: TransitionAction,
    after: &LagPromotePolicy,
    s: TransitionSnapshot,
)
    requires
        call_ensures(LagPromotePolicy::enabled, (threshold,), fresh),
        *old(policy) == fresh,
        call_ensures(<LagPromotePolicy as TransitionPlugin>::evaluate, (policy, ctx), r),
        *after == *final(policy),
        call_ensures(<LagPromotePolicy as TransitionPlugin>::snapshot, (after,), s),
    ensures
        r == TransitionAction::PromoteStandby <==> ctx.standby_is_learner
            && ctx.leader_applied_index >= ctx.standby_applied_index + threshold
            && ctx.leader_applied_index > ctx.standby_applied_index,
        s.enabled,
        threshold >= 1 ==> s.lag_threshold == threshold,
        threshold == 0 ==> s.lag_threshold == 1,
        s.last_action == r,
        s.plugin@ == "lag-promote"@,
{
    assert(after.history() == fresh.history().push(PluginEvent::Asked(*ctx, r)));
    assert(after.history().last() == PluginEvent::Asked(*ctx, r));
}

/// A disabled policy promotes nothing, and says that it is disabled.
pub proof fn law_disabled_policy_promotes_nothing(
    fresh: LagPromotePolicy,
    policy: &mut LagPromotePolicy,
    ctx: &TransitionContext,
    r: TransitionAction,
    after: &LagPromotePolicy,
    s: TransitionSnapshot,
)
    requires
        call_ensures(LagPromotePolicy::disabled, (), fresh),
        *old(policy) == fresh,
        call_ensures(<LagPromotePolicy as TransitionPlugin>::evaluate, (policy, ctx), r),
        *after == *final(policy),
        call_ensures(<LagPromotePolicy as TransitionPlugin>::snapshot, (after,), s),
    ensures
        r == TransitionAction::NoAction,
        !s.enabled,
{
}

/// The registry that a node comes with has a standby promoted exactly where a threshold above zero
/// was given and the standby is a learner that is behind by it or more.
pub proof fn law_premium_registry_promotes_by_lag(
    auth_token: Option<&str>,
    threshold: Option<u64>,
    env_token: Option<String>,
    fresh: PluginRegistry,
    registry: &mut PluginRegistry,
    ctx: &TransitionContext,
    promote: bool,
)
    requires
        call_ensures(premium_registry, (auth_token, threshold, env_token), fresh),
        *old(registry) == fresh,
        call_ensures(ask_transition, (registry, ctx), promote),
    ensures
        promote <==> threshold is Some && threshold->Some_0 > 0 && ctx.standby_is_learner
            && ctx.leader_applied_index >= ctx.standby_applied_index + threshold->Some_0,
        final(registry).metrics == fresh.metrics,
        final(registry).auth == fresh.auth,
        final(registry).order == fresh.order,
{
    if promote {
        let p = choose|p: int| #[trigger]
            transition_loop::promoted_by(
                old(registry).transition@,
                final(registry).transition@,
                p,
                Seq::empty(),
                *ctx,
            ) && plugin::may_act(
                old(registry).transition@,
                p,
                *ctx,
                TransitionAction::PromoteStandby,
            );
        assert(plugin::may_act(fresh.transition@, 0, *ctx, TransitionAction::PromoteStandby));
    } else {
        assert(transition_loop::none_must_promote(fresh.transition@, *ctx));
        assert(plugin::may_act(fresh.transition@, 0, *ctx, TransitionAction::NoAction));
    }
}

/// Rounds are made exactly where a policy is enabled and a pause is configured, and no more often
/// than every tenth of a second.
pub proof fn law_rounds_are_paced(
    auth_token: Option<&str>,
    threshold: Option<u64>,
    env_token: Option<String>,
    registry: &PluginRegistry,
    config: &ClusterConfig,
    r: Option<u64>,
    enabled: bool,
)
    requires
        call_ensures(premium_registry, (auth_token, threshold, env_token), *registry),
        call_ensures(spawn_transition_loop, (config, registry), r),
        call_ensures(transition_enabled, (registry,), enabled),
    ensures
        enabled <==> threshold is Some && threshold->Some_0 > 0,
        r is Some <==> enabled && config.transition_poll_interval_ms > 0,
        r is Some ==> r->Some_0 >= 100,
        r is Some && config.transition_poll_interval_ms >= 100 ==> r->Some_0
            == config.transition_poll_interval_ms,
        r is Some && config.transition_poll_interval_ms < 100 ==> r->Some_0 == 100,
{
    lemma_premium_verdict(*registry, threshold, enabled);
    if r is Some {
        lemma_premium_verdict(*registry, threshold, true);
    } else if config.transition_poll_interval_ms > 0 {
        lemma_premium_verdict(*registry, threshold, false);
    }
}

proof fn lemma_premium_verdict(registry: PluginRegistry, threshold: Option<u64>, verdict: bool)
    requires
        registry.transition@.len() == 1,
        registry.transition@[0].reports() == crate::plugin_transition::lag_reports(
            plugin_ops::lag_enabled(threshold),
            plugin_ops::lag_threshold_of(threshold),
        ),
        transition_loop::is_enabled_verdict(registry.transition@, verdict),
    ensures
        verdict <==> threshold is Some && threshold->Some_0 > 0,
{
    let t = registry.transition@;
    if verdict {
        let j = choose|j: int| 0 <= j < t.len() && #[trigger] transition_loop::may_say(t, j, true);
        let s = choose|s: TransitionSnapshot| #[trigger]
            plugin::transition_may_report(t, j, s) && s.enabled;
        assert(s.enabled == plugin_ops::lag_enabled(threshold));
    } else {
        assert(transition_loop::may_say(t, 0, false));
        let s = choose|s: TransitionSnapshot| #[trigger]
            plugin::transition_may_report(t, 0, s) && !s.enabled;
        assert(s.enabled == plugin_ops::lag_enabled(threshold));
    }
}

/// A round begins only on the leader. It looks at learners alone: at each that is configured, or at
/// all where none is; it takes the leader's applied index over, and the progress of the followers.
pub proof fn law_rounds_look_at_learners(
    node: &MultiRaft,
    plugins: &PluginRegistry,
    group: GroupId,
    replication: Option<BTreeMap<NodeId, Option<LogId>>>,
    r: Option<TransitionTick>,
    i: int,
    id: NodeId,
)
    requires
        call_ensures(MultiRaft::transition_tick_once, (node, plugins, group, replication), r),
    ensures
        r is Some ==> node.groups@.contains_key(group) && node.groups@[group].is_leader,
        r is Some ==> r->Some_0.group == group && r->Some_0.next == 0 && r->Some_0.replication
            == replication,
        r is Some && node.groups@[group].applied is Some ==> r->Some_0.leader_applied
            == node.groups@[group].applied->Some_0.0,
        r is Some && node.groups@[group].applied is None ==> r->Some_0.leader_applied == 0,
        r is Some && 0 <= i < r->Some_0.standbys@.len() ==> node.groups@[group].learners@.contains(
            r->Some_0.standbys@[i],
        ),
        r is Some && node.groups@[group].learners@.contains(id) && (
        node.config.standby_node_ids@.len() == 0 || node.config.standby_node_ids@.contains(id))
            ==> r->Some_0.standbys@.contains(id),
        r is Some && r->Some_0.standbys@.contains(id) && node.config.standby_node_ids@.len() > 0
            ==> node.config.standby_node_ids@.contains(id),
{
    if r is Some {
        lemma_candidates(
            node.config.standby_node_ids@,
            node.groups@[group].learners@,
            r->Some_0.standbys@,
            i,
            id,
        );
    }
}

proof fn lemma_candidates(
    configured: Seq<NodeId>,
    learners: Set<NodeId>,
    r: Seq<NodeId>,
    i: int,
    id: NodeId,
)
    requires
        transition_loop::are_candidates(configured, learners, r),
    ensures
        0 <= i < r.len() ==> learners.contains(r[i]),
        learners.contains(id) && (configured.len() == 0 || configured.contains(id)) ==> r.contains(
            id,
        ),
        r.contains(id) && configured.len() > 0 ==> configured.contains(id),
{
    if 0 <= i < r.len() {
        transition_loop::law_only_learners_are_looked_at(configured, learners, r, i);
    }
    if r.contains(id) {
        transition_loop::law_only_learners_are_looked_at(
            configured,
            learners,
            r,
            r.index_of(id),
        );
    }
    if learners.contains(id) && configured.contains(id) && configured.len() > 0 {
        lemma_learner_is_among(configured, learners, id);
    }
}

proof fn lemma_learner_is_among(ids: Seq<NodeId>, learners: Set<NodeId>, id: NodeId)
    requires
        ids.contains(id),
        learners.contains(id),
    ensures
        transition_loop::learners_among(ids, learners).contains(id),
    decreases ids.len(),
{
    let init = ids.drop_last();
    let before = transition_loop::learners_among(init, learners);
    let all = transition_loop::learners_among(ids, learners);
    if ids.last() == id {
        assert(all[all.len() - 1] == id);
    } else {
        let i = ids.index_of(id);
        assert(init[i] == id);
        lemma_learner_is_among(init, learners, id);
        let k = before.index_of(id);
        assert(all[k] == id);
    }
}

/// Candidates are learners; each learner that is configured is one, or each learner where none is
/// configured.
pub proof fn law_candidates_are_learners(
    configured: &Vec<NodeId>,
    learners: &BTreeSet<NodeId>,
    r: Vec<NodeId>,
    i: int,
    j: int,
    id: NodeId,
)
    requires
        call_ensures(candidates, (configured, learners), r),
    ensures
        0 <= i < r@.len() ==> learners@.contains(r@[i]),
        learners@.contains(id) && (configured@.len() == 0 || configured@.contains(id))
            ==> r@.contains(id),
        configured@.len() == 0 && 0 <= i < j < r@.len() ==> r@[i] < r@[j],
        r@.contains(id) && configured@.len() > 0 ==> configured@.contains(id),
{
    lemma_candidates(configured@, learners@, r@, i, id);
}

/// The standby that a round has promoted is one that it had not dealt with yet, and the first that a
/// policy wants promoted: the policy was asked of that standby, in the round's group, with the index
/// that the leader has applied and the one that the standby has replicated.
pub proof fn law_promoted_standby_was_asked_about(
    tick: &mut TransitionTick,
    plugins: &mut PluginRegistry,
    id: NodeId,
)
    requires
        old(plugins).wf(),
        old(tick).next <= old(tick).standbys@.len(),
        call_ensures(TransitionTick::next_promotion, (tick, plugins), Some(id)),
    ensures
        old(tick).next < final(tick).next <= old(tick).standbys@.len(),
        old(tick).standbys@[final(tick).next - 1] == id,
        final(tick).standbys == old(tick).standbys,
        final(tick).group == old(tick).group,
        exists|p: int, ctx: TransitionContext|
            0 <= p < final(plugins).transition@.len()
                && (#[trigger] final(plugins).transition@[p]).history().last()
                == #[trigger] asked_to_promote(ctx)
                && ctx.standby_id == id && ctx.group == old(tick).group
                && ctx.leader_applied_index == old(tick).leader_applied && ctx.standby_is_learner
                && is_progress_of(*old(tick), id, ctx.standby_applied_index),
        final(plugins).transition@.len() == old(plugins).transition@.len(),
        final(plugins).metrics == old(plugins).metrics,
        final(plugins).auth == old(plugins).auth,
        final(plugins).archive == old(plugins).archive,
        final(plugins).plain == old(plugins).plain,
        final(plugins).order == old(plugins).order,
        final(plugins).calls() == old(plugins).calls(),
        forall|j: int|
            0 <= j < final(plugins).transition@.len() ==> {
                let was = old(plugins).transition@[j].history().len();
                let now = (#[trigger] final(plugins).transition@[j]).history().len();
                now == was + final(tick).next - 1 - old(tick).next || now == was + final(tick).next
                    - old(tick).next
            },
{
    lemma_passed_over(*old(tick), old(tick).next as int, final(tick).next - 1, 0);
    let k = final(tick).next - 1;
    let ctx = old(tick).question(k);
    let p = choose|p: int| #[trigger]
        transition_loop::promoted_by(
            old(plugins).transition@,
            final(plugins).transition@,
            p,
            old(tick).passed_over(old(tick).next as int, k),
            old(tick).question(k),
        );
    assert(final(plugins).transition@[p].history().last() == asked_to_promote(ctx));
    assert(is_progress_of(*old(tick), id, ctx.standby_applied_index));
}

/// A policy was asked of `ctx`, and wants the standby promoted.
pub open spec fn asked_to_promote(ctx: TransitionContext) -> PluginEvent {
    PluginEvent::Asked(ctx, TransitionAction::PromoteStandby)
}

/// The standby `id` has replicated up to `index`, as the round knows it; zero where it does not.
pub open spec fn is_progress_of(tick: TransitionTick, id: NodeId, index: u64) -> bool {
    if tick.replication is Some && tick.replication->Some_0@.contains_key(id)
        && tick.replication->Some_0@[id] is Some {
        index == tick.replication->Some_0@[id]->Some_0.index
    } else {
        index == 0
    }
}

/// Where a round ends, each policy has been asked of each standby that was left, once and in order,
/// and wanted none of them promoted.
pub proof fn law_finished_round_has_asked_all(
    tick: &mut TransitionTick,
    plugins: &mut PluginRegistry,
    j: int,
    i: int,
)
    requires
        old(plugins).wf(),
        old(tick).next <= old(tick).standbys@.len(),
        call_ensures(TransitionTick::next_promotion, (tick, plugins), None::<NodeId>),
        0 <= j < old(plugins).transition@.len(),
        old(tick).next <= i < old(tick).standbys@.len(),
    ensures
        final(tick).next == old(tick).standbys@.len(),
        final(plugins).transition@.len() == old(plugins).transition@.len(),
        final(plugins).transition@[j].history().len() == old(plugins).transition@[j].history().len()
            + old(tick).standbys@.len() - old(tick).next,
        final(plugins).transition@[j].history()[old(plugins).transition@[j].history().len() + i
            - old(tick).next] is Asked,
        ({
            let e = final(plugins).transition@[j].history()[old(
                plugins,
            ).transition@[j].history().len() + i - old(tick).next];
            &&& e->Asked_1 == TransitionAction::NoAction
            &&& e->Asked_0.standby_id == old(tick).standbys@[i]
            &&& e->Asked_0.group == old(tick).group
            &&& e->Asked_0.leader_applied_index == old(tick).leader_applied
            &&& is_progress_of(*old(tick), old(tick).standbys@[i], e->Asked_0.standby_applied_index)
        }),
{
    lemma_passed_over(
        *old(tick),
        old(tick).next as int,
        old(tick).standbys@.len() as int,
        i,
    );
    assert(final(plugins).transition@[j].history() == old(plugins).transition@[j].history()
        + old(tick).passed_over(old(tick).next as int, old(tick).standbys@.len() as int));
}

proof fn lemma_passed_over(tick: TransitionTick, from: int, to: int, i: int)
    requires
        from <= to,
    ensures
        tick.passed_over(from, to).len() == to - from,
        from <= i < to ==> tick.passed_over(from, to)[i - from] == PluginEvent::Asked(
            tick.question(i),
            TransitionAction::NoAction,
        ),
    decreases to - from,
{
    if from < to {
        lemma_passed_over(tick, from, to - 1, i);
    }
}

/// A standby that was promoted within a round is held up no more; a promotion that met another change
/// is left alone, and any other failure ends the round.
pub proof fn law_round_promotes_or_leaves_alone(
    throttle: &mut StandbyThrottle,
    id: NodeId,
    reply: ChangeReply,
    r: Result<(), MultiRaftError>,
    before: &StandbyThrottle,
    after: &StandbyThrottle,
    to: NodeId,
    sent_before: BeforeSend,
    sent: BeforeSend,
)
    requires
        before.wf(),
        call_ensures(promote_standby_once, (throttle, id, reply), r),
        *before == *old(throttle),
        *after == *final(throttle),
        call_ensures(StandbyThrottle::before_send, (before, to), sent_before),
        call_ensures(StandbyThrottle::before_send, (after, to), sent),
    ensures
        reply is Done ==> r is Ok && (to == id ==> sent == BeforeSend::Pass),
        !(reply is Done) || to != id ==> sent == sent_before,
        reply is Forward ==> r is Err && r->Err_0 is NotLeader && r->Err_0->hint == reply->leader,
        reply is Failed ==> (r is Ok <==> text::contains_text(
            reply->Failed_0@,
            "configuration change"@,
        )),
        reply is Failed && r is Err ==> r->Err_0 is Other && crate::request_laws::ends_with(
            r->Err_0->Other_0@,
            reply->Failed_0@,
        ),
{
    if reply is Failed {
        crate::request_laws::lemma_ends_with(
            "transition promote change_membership: "@,
            reply->Failed_0@,
        );
    }
}

/// A new registry is empty, and has told no one anything.
pub proof fn law_new_registry_is_empty(r: &PluginRegistry, empty: bool, made: Vec<(PluginKind, usize)>)
    requires
        call_ensures(PluginRegistry::new, (), *r),
        call_ensures(PluginRegistry::is_empty, (r,), empty),
        call_ensures(PluginRegistry::roll_call, (r,), made),
    ensures
        empty,
        made@.len() == 0,
        r.metrics@.len() == 0,
        r.auth@.len() == 0,
        r.transition@.len() == 0,
        r.archive@.len() == 0,
        r.plain@.len() == 0,
        r.calls().len() == 0,
{
}

/// The calls that a hook makes are one for each plugin, in the order of registration.
pub open spec fn told_along(
    before: PluginRegistry,
    after: PluginRegistry,
    event: PluginEvent,
) -> bool {
    &&& after.calls().len() == before.calls().len() + before.order@.len()
    &&& forall|i: int|
        0 <= i < before.calls().len() ==> #[trigger] after.calls()[i] == before.calls()[i]
    &&& forall|i: int|
        #![trigger before.order@[i]]
        0 <= i < before.order@.len() ==> after.calls()[before.calls().len() + i].kind
            == before.order@[i] && after.calls()[before.calls().len() + i].event == event
    &&& forall|i: int|
        0 <= i < before.metrics@.len() ==> (#[trigger] after.metrics@[i]).history()
            == before.metrics@[i].history().push(event)
    &&& forall|i: int|
        0 <= i < before.transition@.len() ==> (#[trigger] after.transition@[i]).history()
            == before.transition@[i].history().push(event)
    &&& forall|i: int|
        0 <= i < before.archive@.len() ==> (#[trigger] after.archive@[i]).history()
            == before.archive@[i].history().push(event)
    &&& forall|i: int|
        0 <= i < before.auth@.len() ==> (#[trigger] after.auth@[i]).history()
            == before.auth@[i].history().push(event)
    &&& forall|i: int|
        0 <= i < before.plain@.len() ==> (#[trigger] after.plain@[i]).history()
            == before.plain@[i].history().push(event)
    &&& forall|i: int|
        0 <= i < before.metrics@.len() ==> (#[trigger] after.metrics@[i]).reports()
            == before.metrics@[i].reports()
    &&& forall|i: int|
        0 <= i < before.transition@.len() ==> (#[trigger] after.transition@[i]).reports()
            == before.transition@[i].reports() && after.transition@[i].acts()
            == before.transition@[i].acts()
    &&& forall|i: int|
        0 <= i < before.archive@.len() ==> (#[trigger] after.archive@[i]).reports()
            == before.archive@[i].reports()
    &&& forall|i: int|
        0 <= i < before.auth@.len() ==> (#[trigger] after.auth@[i]).answers()
            == before.auth@[i].answers()
    &&& after.metrics@.len() == before.metrics@.len()
    &&& after.transition@.len() == before.transition@.len()
    &&& after.archive@.len() == before.archive@.len()
    &&& after.auth@.len() == before.auth@.len()
    &&& after.plain@.len() == before.plain@.len()
    &&& after.order == before.order
}

proof fn lemma_told_along(before: PluginRegistry, after: PluginRegistry, event: PluginEvent)
    requires
        plugin::all_told(before, after, event),
    ensures
        told_along(before, after, event),
{
    let along = plugin::calls_along(plugin::roll(before.order@), event);
    if before.order@.len() > 0 {
        plugin::lemma_roll(before.order@, 0);
    } else {
        assert(plugin::roll(before.order@).len() == 0);
    }
    assert(along.len() == before.order@.len());
    assert forall|i: int|
        #![trigger before.order@[i]]
        0 <= i < before.order@.len() implies after.calls()[before.calls().len() + i].kind
        == before.order@[i] && after.calls()[before.calls().len() + i].event == event by {
        plugin::lemma_roll(before.order@, i);
        assert(after.calls()[before.calls().len() + i] == along[i]);
    }
}

/// Each hook tells every plugin of what happened, once and in the order of registration.
pub proof fn law_hooks_tell_every_plugin(
    registry: &mut PluginRegistry,
    ctx: &PluginContext,
    stopped: &mut PluginRegistry,
    readied: &mut PluginRegistry,
    group: GroupId,
)
    requires
        old(registry).wf(),
        old(stopped).wf(),
        old(readied).wf(),
        call_ensures(PluginRegistry::on_node_start, (registry, ctx), ()),
        call_ensures(PluginRegistry::on_node_stop, (stopped, ctx), ()),
        call_ensures(PluginRegistry::on_group_ready, (readied, ctx, group), ()),
    ensures
        told_along(*old(registry), *final(registry), PluginEvent::NodeStart(*ctx)),
        told_along(*old(stopped), *final(stopped), PluginEvent::NodeStop(*ctx)),
        told_along(*old(readied), *final(readied), PluginEvent::GroupReady(*ctx, group)),
{
    lemma_told_along(*old(registry), *final(registry), PluginEvent::NodeStart(*ctx));
    lemma_told_along(*old(stopped), *final(stopped), PluginEvent::NodeStop(*ctx));
    lemma_told_along(*old(readied), *final(readied), PluginEvent::GroupReady(*ctx, group));
}

/// A sample reaches every metrics plugin, in the order of registration, and no other plugin.
pub proof fn law_sample_reaches_every_metrics_plugin(
    registry: &mut PluginRegistry,
    sample: StageSample,
    i: int,
)
    requires
        old(registry).wf(),
        call_ensures(PluginRegistry::record_stage, (registry, sample), ()),
        0 <= i < old(registry).metrics@.len(),
    ensures
        final(registry).metrics@.len() == old(registry).metrics@.len(),
        final(registry).metrics@[i].history() == old(registry).metrics@[i].history().push(
            PluginEvent::Sample(sample),
        ),
        final(registry).metrics@[i].reports() == old(registry).metrics@[i].reports(),
        final(registry).calls().len() == old(registry).calls().len() + old(
            registry,
        ).metrics@.len(),
        final(registry).calls()[old(registry).calls().len() + i] == (PluginCall {
            kind: PluginKind::Metrics,
            at: i as nat,
            event: PluginEvent::Sample(sample),
        }),
        final(registry).auth == old(registry).auth,
        final(registry).transition == old(registry).transition,
        final(registry).archive == old(registry).archive,
        final(registry).plain == old(registry).plain,
{
}

/// Asking for snapshots gives that of each plugin, in the order of registration.
pub proof fn law_snapshots_are_of_their_plugins(
    registry: &PluginRegistry,
    metrics: Vec<MetricsSnapshot>,
    transitions: Vec<TransitionSnapshot>,
    i: int,
)
    requires
        call_ensures(PluginRegistry::metrics_snapshots, (registry,), metrics),
        call_ensures(PluginRegistry::transition_snapshots, (registry,), transitions),
    ensures
        metrics@.len() == registry.metrics@.len(),
        transitions@.len() == registry.transition@.len(),
        0 <= i < metrics@.len() ==> (registry.metrics@[i].reports())(
            registry.metrics@[i].history(),
            metrics@[i],
        ),
        0 <= i < transitions@.len() ==> (registry.transition@[i].reports())(
            registry.transition@[i].history(),
            transitions@[i],
        ),
{
}

/// The registry that a node comes with reports no timings until there are any, and tells of its
/// policy whether it is enabled and by which threshold.
pub proof fn law_premium_registry_starts_silent(
    auth_token: Option<&str>,
    threshold: Option<u64>,
    env_token: Option<String>,
    registry: &PluginRegistry,
    metrics: Vec<MetricsSnapshot>,
    transitions: Vec<TransitionSnapshot>,
)
    requires
        call_ensures(premium_registry, (auth_token, threshold, env_token), *registry),
        call_ensures(PluginRegistry::metrics_snapshots, (registry,), metrics),
        call_ensures(PluginRegistry::transition_snapshots, (registry,), transitions),
    ensures
        metrics@.len() == 1,
        metrics@[0].plugin@ == "segmented-latency"@,
        metrics@[0].stages@.len() == 0,
        transitions@.len() == 1,
        transitions@[0].plugin@ == "lag-promote"@,
        transitions@[0].enabled <==> threshold is Some && threshold->Some_0 > 0,
        transitions@[0].enabled ==> transitions@[0].lag_threshold == threshold->Some_0,
        transitions@[0].last_action == TransitionAction::NoAction,
        registry.order@ == seq![PluginKind::Metrics, PluginKind::Transition, PluginKind::Auth],
        registry.auth@.len() == 1,
        registry.auth@[0].history().len() == 0,
        registry.plain@.len() == 0,
        registry.archive@.len() == 0,
        registry.calls().len() == 0,
{
    let h = registry.metrics@[0].history();
    assert((registry.metrics@[0].reports())(h, metrics@[0]));
    if metrics@[0].stages@.len() > 0 {
        let s = metrics@[0].stages@[0];
        assert(plugin_metrics::live(h, s.group, s.stage).len() > 0);
    }
    assert((registry.transition@[0].reports())(registry.transition@[0].history(), transitions@[0]));
}

/// `t` is `base` without the slashes at its end, followed by `path`.
pub open spec fn is_at(t: Seq<char>, base: Seq<char>, path: Seq<char>) -> bool {
    t == text::without_trailing_slashes(base) + path
}

/// Each command of the tool asks the node for what it names: of that group, at that index and term,
/// or for that node; and by a post where it changes something.
pub proof fn law_tool_asks_for_what_is_named(
    base: &str,
    cmd: &OpsCommand,
    r: OpsRequest,
)
    requires
        call_ensures(request, (base, cmd), r),
    ensures
        *cmd is Routes <==> r is PrintRoutes,
        r is Post <==> *cmd is Promote || *cmd is Demote || *cmd is Replicate,
        r is GetBytes <==> *cmd is ArchiveExport && cmd->data,
        *cmd is MetricsStages ==> is_at(r->Get_0@, base@, "/metrics/propose-stages"@),
        *cmd is ArchivePositions ==> is_at(
            r->Get_0@,
            base@,
            "/admin/archive/"@ + text::decimal(cmd->ArchivePositions_group as nat) + "/positions"@,
        ),
        *cmd is GroupStatus ==> is_at(
            r->Get_0@,
            base@,
            "/admin/groups/"@ + text::decimal(cmd->GroupStatus_group as nat) + "/status"@,
        ),
        *cmd is BestAd ==> is_at(
            r->Get_0@,
            base@,
            "/admin/best_snapshot_ad/"@ + text::decimal(cmd->BestAd_group as nat),
        ),
        *cmd is ArchiveExport && !cmd->data ==> is_at(
            r->Get_0@,
            base@,
            "/admin/archive/"@ + text::decimal(cmd->ArchiveExport_group as nat) + "/export/"@
                + text::decimal(cmd->index as nat) + "/"@ + text::decimal(cmd->term as nat),
        ),
        *cmd is ArchiveExport && cmd->data ==> is_at(
            r->GetBytes_0@,
            base@,
            "/admin/archive/"@ + text::decimal(cmd->ArchiveExport_group as nat) + "/export/"@
                + text::decimal(cmd->index as nat) + "/"@ + text::decimal(cmd->term as nat)
                + "/data"@,
        ),
        *cmd is Promote ==> is_at(
            r->url@,
            base@,
            "/admin/promote_standby/"@ + text::decimal(cmd->Promote_group as nat) + "/"@
                + text::decimal(cmd->Promote_id as nat),
        ) && r->body@ == "{}"@,
        *cmd is Demote ==> is_at(
            r->url@,
            base@,
            "/admin/demote_standby/"@ + text::decimal(cmd->Demote_group as nat) + "/"@
                + text::decimal(cmd->Demote_id as nat),
        ) && r->body@ == "{}"@,
        *cmd is Replicate ==> is_at(
            r->url@,
            base@,
            "/admin/replicate_standby_snapshot/"@ + text::decimal(cmd->Replicate_group as nat),
        ),
        *cmd is Replicate && cmd->fetch_url is None ==> r->body@ == "{}"@,
        *cmd is Replicate && cmd->fetch_url is Some ==> r->body@ == "{\"fetch_url\":"@
            + plugin_ops::json_string(cmd->fetch_url->Some_0@) + "}"@,
{
    if *cmd is ArchiveExport && !cmd->data {
        let path = "/admin/archive/"@ + text::decimal(cmd->ArchiveExport_group as nat) + "/export/"@
            + text::decimal(cmd->index as nat) + "/"@ + text::decimal(cmd->term as nat);
        assert(path + Seq::<char>::empty() =~= path);
    }
}

/// The body of a replication names the URL where there is one, as the tool's request does.
pub proof fn law_replication_names_its_url(quoted: Option<String>, r: String)
    requires
        call_ensures(replicate_payload, (quoted,), r),
    ensures
        quoted is None ==> r@ == "{}"@,
        quoted is Some ==> r@ == "{\"fetch_url\":"@ + quoted->Some_0@ + "}"@,
{
}

/// With the registry that a node comes with, a round begins exactly where the policy is enabled and
/// this node leads the group.
pub proof fn law_rounds_begin_on_the_leader(
    auth_token: Option<&str>,
    threshold: Option<u64>,
    env_token: Option<String>,
    registry: &PluginRegistry,
    node: &MultiRaft,
    group: GroupId,
    replication: Option<BTreeMap<NodeId, Option<LogId>>>,
    r: Option<TransitionTick>,
)
    requires
        call_ensures(premium_registry, (auth_token, threshold, env_token), *registry),
        call_ensures(MultiRaft::transition_tick_once, (node, registry, group, replication), r),
    ensures
        r is Some <==> threshold is Some && threshold->Some_0 > 0 && node.groups@.contains_key(group)
            && node.groups@[group].is_leader,
{
    if r is Some {
        lemma_premium_verdict(*registry, threshold, true);
    } else if node.groups@.contains_key(group) && node.groups@[group].is_leader {
        lemma_premium_verdict(*registry, threshold, false);
    }
}

/// What a node tells its policy of itself changes neither its settings nor its last answer: it
/// answers as before.
pub proof fn law_hooks_leave_the_policy_as_it_is(
    policy: &mut LagPromotePolicy,
    ctx: &PluginContext,
    stopped: &mut LagPromotePolicy,
    readied: &mut LagPromotePolicy,
    group: GroupId,
    asked: &mut LagPromotePolicy,
    later: &mut LagPromotePolicy,
    question: &TransitionContext,
    a: TransitionAction,
    b: TransitionAction,
)
    requires
        call_ensures(<LagPromotePolicy as TransitionPlugin>::on_node_start, (policy, ctx), ()),
        *old(stopped) == *final(policy),
        call_ensures(<LagPromotePolicy as TransitionPlugin>::on_node_stop, (stopped, ctx), ()),
        *old(readied) == *final(stopped),
        call_ensures(
            <LagPromotePolicy as TransitionPlugin>::on_group_ready,
            (readied, ctx, group),
            (),
        ),
        *old(asked) == *old(policy),
        *old(later) == *final(readied),
        call_ensures(<LagPromotePolicy as TransitionPlugin>::evaluate, (asked, question), a),
        call_ensures(<LagPromotePolicy as TransitionPlugin>::evaluate, (later, question), b),
    ensures
        a == b,
        final(readied).spec_last_action() == old(policy).spec_last_action(),
        final(later).spec_last_action() == b,
{
}

/// What a node tells its guard of itself does not change its token: it answers as before.
pub proof fn law_hooks_leave_the_guard_as_it_is(
    guard: &mut BearerTokenAuth,
    ctx: &PluginContext,
    stopped: &mut BearerTokenAuth,
    readied: &mut BearerTokenAuth,
    group: GroupId,
    before: &BearerTokenAuth,
    after: &BearerTokenAuth,
    authorization: Option<&str>,
    a: bool,
    b: bool,
)
    requires
        call_ensures(<BearerTokenAuth as AuthPlugin>::on_node_start, (guard, ctx), ()),
        *old(stopped) == *final(guard),
        call_ensures(<BearerTokenAuth as AuthPlugin>::on_node_stop, (stopped, ctx), ()),
        *old(readied) == *final(stopped),
        call_ensures(
            <BearerTokenAuth as AuthPlugin>::on_group_ready,
            (readied, ctx, group),
            (),
        ),
        *before == *old(guard),
        *after == *final(readied),
        call_ensures(<BearerTokenAuth as AuthPlugin>::authorize_admin, (before, authorization), a),
        call_ensures(<BearerTokenAuth as AuthPlugin>::authorize_admin, (after, authorization), b),
    ensures
        a == b,
{
}

/// The roll has the plugins in the order of registration, each with its place among those of its
/// kind.
pub proof fn law_roll_is_in_order(
    registry: &PluginRegistry,
    r: Vec<(PluginKind, usize)>,
    i: int,
    j: int,
)
    requires
        registry.wf(),
        call_ensures(PluginRegistry::roll_call, (registry,), r),
    ensures
        r@.len() == registry.order@.len(),
        0 <= i < r@.len() ==> r@[i].0 == registry.order@[i],
        0 <= i < r@.len() ==> r@[i].1 < registry.count(r@[i].0),
        0 <= i < j < r@.len() && r@[i].0 == r@[j].0 ==> r@[i].1 < r@[j].1,
{
    if registry.order@.len() > 0 {
        plugin::lemma_roll(registry.order@, 0);
    } else {
        assert(plugin::roll(registry.order@).len() == 0);
    }
    if 0 <= i < r@.len() {
        plugin::lemma_roll(registry.order@, i);
        assert(r@[i].0 == registry.order@[i]);
        if i < j < r@.len() {
            plugin::lemma_roll(registry.order@, j);
            assert(r@[j].0 == registry.order@[j]);
            lemma_count_grows(registry.order@, i, j);
        }
    }
}

proof fn lemma_count_grows(order: Seq<PluginKind>, i: int, j: int)
    requires
        0 <= i < j < order.len(),
    ensures
        plugin::count_kind(order.take(i), order[i]) < plugin::count_kind(order.take(j), order[i]),
    decreases j - i,
{
    plugin::lemma_count_step(order, j - 1, order[i]);
    if i < j - 1 {
        lemma_count_grows(order, i, j - 1);
    }
}

/// Each plugin goes by its own name.
pub proof fn law_plugins_have_their_names(
    guard: &BearerTokenAuth,
    policy: &LagPromotePolicy,
    latency: &SegmentedLatencyMetrics,
    archive: &CatalogArchive,
    a: &'static str,
    b: &'static str,
    c: &'static str,
    d: &'static str,
    s: ArchiveSnapshot,
)
    requires
        call_ensures(<BearerTokenAuth as AuthPlugin>::name, (guard,), a),
        call_ensures(<LagPromotePolicy as TransitionPlugin>::name, (policy,), b),
        call_ensures(<SegmentedLatencyMetrics as MetricsPlugin>::name, (latency,), c),
        call_ensures(CatalogArchive::name, (archive,), d),
        call_ensures(CatalogArchive::snapshot, (archive,), s),
    ensures
        a@ == "bearer-auth"@,
        b@ == "lag-promote"@,
        c@ == "segmented-latency"@,
        d@ == "catalog-archive"@,
        s.plugin@ == d@,
        s.positions@.len() == 0,
{
}

/// A guard that is registered stands behind those of its kind, which stay as they were, and is told
/// behind all others; no other plugin is touched.
pub proof fn law_registered_guard_stands_last(
    with: (PluginRegistry, Box<dyn AuthPlugin>),
    r: PluginRegistry,
    i: int,
)
    requires
        with.0.wf(),
        call_ensures(PluginRegistry::register_auth, with, r),
    ensures
        r.wf(),
        r.auth@.len() == with.0.auth@.len() + 1,
        r.auth@.last() == with.1,
        0 <= i < with.0.auth@.len() ==> r.auth@[i] == with.0.auth@[i],
        r.order@.len() == with.0.order@.len() + 1,
        r.order@.last() == PluginKind::Auth,
        0 <= i < with.0.order@.len() ==> r.order@[i] == with.0.order@[i],
        r.calls() == with.0.calls(),
        r.plain == with.0.plain,
        r.metrics == with.0.metrics,
        r.archive == with.0.archive,
        r.transition == with.0.transition,
{
}

/// A metrics plugin that is registered stands behind those of its kind, which stay as they were, and
/// is told behind all others; no other plugin is touched.
pub proof fn law_registered_metrics_plugin_stands_last(
    with: (PluginRegistry, Box<dyn MetricsPlugin>),
    r: PluginRegistry,
    i: int,
)
    requires
        with.0.wf(),
        call_ensures(PluginRegistry::register_metrics, with, r),
    ensures
        r.wf(),
        r.metrics@.len() == with.0.metrics@.len() + 1,
        r.metrics@.last() == with.1,
        0 <= i < with.0.metrics@.len() ==> r.metrics@[i] == with.0.metrics@[i],
        r.order@.len() == with.0.order@.len() + 1,
        r.order@.last() == PluginKind::Metrics,
        0 <= i < with.0.order@.len() ==> r.order@[i] == with.0.order@[i],
        r.calls() == with.0.calls(),
        r.plain == with.0.plain,
        r.archive == with.0.archive,
        r.transition == with.0.transition,
        r.auth == with.0.auth,
{
}

/// A policy that is registered stands behind those of its kind, which stay as they were, and is told
/// behind all others; no other plugin is touched.
pub proof fn law_registered_policy_stands_last(
    with: (PluginRegistry, Box<dyn TransitionPlugin>),
    r: PluginRegistry,
    i: int,
)
    requires
        with.0.wf(),
        call_ensures(PluginRegistry::register_transition, with, r),
    ensures
        r.wf(),
        r.transition@.len() == with.0.transition@.len() + 1,
        r.transition@.last() == with.1,
        0 <= i < with.0.transition@.len() ==> r.transition@[i] == with.0.transition@[i],
        r.order@.len() == with.0.order@.len() + 1,
        r.order@.last() == PluginKind::Transition,
        0 <= i < with.0.order@.len() ==> r.order@[i] == with.0.order@[i],
        r.calls() == with.0.calls(),
        r.plain == with.0.plain,
        r.metrics == with.0.metrics,
        r.archive == with.0.archive,
        r.auth == with.0.auth,
{
}

/// An archive that is registered stands behind those of its kind, which stay as they were, and is told
/// behind all others; no other plugin is touched.
pub proof fn law_registered_archive_stands_last(
    with: (PluginRegistry, Box<dyn ArchivePlugin>),
    r: PluginRegistry,
    i: int,
)
    requires
        with.0.wf(),
        call_ensures(PluginRegistry::register_archive, with, r),
    ensures
        r.wf(),
        r.archive@.len() == with.0.archive@.len() + 1,
        r.archive@.last() == with.1,
        0 <= i < with.0.archive@.len() ==> r.archive@[i] == with.0.archive@[i],
        r.order@.len() == with.0.order@.len() + 1,
        r.order@.last() == PluginKind::Archive,
        0 <= i < with.0.order@.len() ==> r.order@[i] == with.0.order@[i],
        r.calls() == with.0.calls(),
        r.plain == with.0.plain,
        r.metrics == with.0.metrics,
        r.transition == with.0.transition,
        r.auth == with.0.auth,
{
}

/// A plugin of no special kind that is registered stands behind those like it, which stay as they
/// were, and is told behind all others; no other plugin is touched.
pub proof fn law_registered_plain_plugin_stands_last(
    with: (PluginRegistry, Box<dyn Plugin>),
    r: PluginRegistry,
    i: int,
)
    requires
        with.0.wf(),
        call_ensures(PluginRegistry::register_plugin, with, r),
    ensures
        r.wf(),
        r.plain@.len() == with.0.plain@.len() + 1,
        r.plain@.last() == with.1,
        0 <= i < with.0.plain@.len() ==> r.plain@[i] == with.0.plain@[i],
        r.order@.len() == with.0.order@.len() + 1,
        r.order@.last() == PluginKind::Plain,
        0 <= i < with.0.order@.len() ==> r.order@[i] == with.0.order@[i],
        r.calls() == with.0.calls(),
        r.metrics == with.0.metrics,
        r.archive == with.0.archive,
        r.transition == with.0.transition,
        r.auth == with.0.auth,
{
}

/// The plugins of each kind are handed out as they are held.
pub proof fn law_plugins_are_handed_out(
    registry: &PluginRegistry,
    metrics: &Vec<Box<dyn MetricsPlugin>>,
    guards: &Vec<Box<dyn AuthPlugin>>,
    policies: &Vec<Box<dyn TransitionPlugin>>,
)
    requires
        call_ensures(PluginRegistry::metrics_plugins, (registry,), metrics),
        call_ensures(PluginRegistry::auth_plugins, (registry,), guards),
        call_ensures(PluginRegistry::transition_plugins, (registry,), policies),
    ensures
        *metrics == registry.metrics,
        *guards == registry.auth,
        *policies == registry.transition,
{
}

} // verus!
