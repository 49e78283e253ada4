//! A policy that has a standby promoted when it lags behind.

use vstd::prelude::*;

use crate::plugin::{
    PluginContext, PluginEvent, TransitionAction, TransitionContext, TransitionPlugin,
    TransitionSnapshot,
};
use crate::type_config::GroupId;

verus! {

/// Has a standby promoted once it lags by a threshold; off unless enabled.
pub struct LagPromotePolicy {
    enabled: bool,
    lag_threshold: u64,
    last_action: TransitionAction,
    told: Ghost<Seq<PluginEvent>>,
}

/// By how many entries the standby is behind the leader.
pub open spec fn lag(ctx: TransitionContext) -> int {
    if ctx.leader_applied_index > ctx.standby_applied_index {
        ctx.leader_applied_index - ctx.standby_applied_index
    } else {
        0
    }
}

/// What the policy answers: a learner that lags by the threshold or more is promoted, by an
/// enabled policy.
pub open spec fn lag_action(
    enabled: bool,
    lag_threshold: u64,
    ctx: TransitionContext,
) -> TransitionAction {
    if enabled && ctx.standby_is_learner && lag(ctx) >= lag_threshold {
        TransitionAction::PromoteStandby
    } else {
        TransitionAction::NoAction
    }
}

impl LagPromotePolicy {
    pub closed spec fn spec_enabled(&self) -> bool {
        self.enabled
    }

    pub closed spec fn spec_lag_threshold(&self) -> u64 {
        self.lag_threshold
    }

    pub closed spec fn spec_last_action(&self) -> TransitionAction {
        self.last_action
    }

    pub fn disabled() -> (r: Self)
        ensures
            !r.spec_enabled(),
            r.spec_lag_threshold() == 0,
            r.spec_last_action() == TransitionAction::NoAction,
            r.history() == Seq::<PluginEvent>::empty(),
    {
        LagPromotePolicy {
            enabled: false,
            lag_threshold: 0,
            last_action: TransitionAction::NoAction,
            told: Ghost(Seq::empty()),
        }
    }

    /// An enabled policy; the threshold is at least 1.
    pub fn enabled(lag_threshold: u64) -> (r: Self)
        ensures
            r.spec_enabled(),
            r.spec_lag_threshold() == (if lag_threshold < 1 {
                1
            } else {
                lag_threshold
            }),
            r.spec_last_action() == TransitionAction::NoAction,
            r.history() == Seq::<PluginEvent>::empty(),
    {
        LagPromotePolicy {
            enabled: true,
            lag_threshold: if lag_threshold < 1 {
                1
            } else {
                lag_threshold
            },
            last_action: TransitionAction::NoAction,
            told: Ghost(Seq::empty()),
        }
    }

    #[verifier::type_invariant]
    spec fn inv(&self) -> bool {
        self.last_action == last_answer(self.told@)
    }

    /// The settings are those of `other`.
    pub open spec fn same_settings(&self, other: &Self) -> bool {
        &&& self.spec_enabled() == other.spec_enabled()
        &&& self.spec_lag_threshold() == other.spec_lag_threshold()
    }
}

/// The last answer given, as the history tells it.
pub open spec fn last_answer(h: Seq<PluginEvent>) -> TransitionAction
    decreases h.len(),
{
    if h.len() == 0 {
        TransitionAction::NoAction
    } else {
        match h.last() {
            PluginEvent::Asked(_, a) => a,
            _ => last_answer(h.drop_last()),
        }
    }
}

/// What a policy with these settings may report, by what it has been told.
pub open spec fn lag_reports(enabled: bool, lag_threshold: u64) -> spec_fn(
    Seq<PluginEvent>,
    TransitionSnapshot,
) -> bool {
    |h: Seq<PluginEvent>, s: TransitionSnapshot|
        s.plugin@ == "lag-promote"@ && s.enabled == enabled && s.lag_threshold == lag_threshold
            && s.last_action == last_answer(h)
}

/// What a policy with these settings may answer: the same whatever it has been told.
pub open spec fn lag_acts(enabled: bool, lag_threshold: u64) -> spec_fn(
    Seq<PluginEvent>,
    TransitionContext,
    TransitionAction,
) -> bool {
    |h: Seq<PluginEvent>, c: TransitionContext, a: TransitionAction|
        a == lag_action(enabled, lag_threshold, c)
}

impl TransitionPlugin for LagPromotePolicy {
    closed spec fn history(&self) -> Seq<PluginEvent> {
        self.told@
    }

    open spec fn reports(&self) -> spec_fn(Seq<PluginEvent>, TransitionSnapshot) -> bool {
        lag_reports(self.spec_enabled(), self.spec_lag_threshold())
    }

    open spec fn acts(&self) -> spec_fn(
        Seq<PluginEvent>,
        TransitionContext,
        TransitionAction,
    ) -> bool {
        lag_acts(self.spec_enabled(), self.spec_lag_threshold())
    }

    fn name(&self) -> (r: &'static str)
        ensures
            r@ == "lag-promote"@,
    {
        "lag-promote"
    }

    fn on_node_start(&mut self, ctx: &PluginContext)
        ensures
            final(self).same_settings(old(self)),
            final(self).spec_last_action() == old(self).spec_last_action(),
    {
        proof {
            use_type_invariant(&*self);
            lemma_answer_kept(self.told@, PluginEvent::NodeStart(*ctx));
        }
        *self = LagPromotePolicy {
            enabled: self.enabled,
            lag_threshold: self.lag_threshold,
            last_action: self.last_action,
            told: Ghost(self.told@.push(PluginEvent::NodeStart(*ctx))),
        };
    }

    fn on_node_stop(&mut self, ctx: &PluginContext)
        ensures
            final(self).same_settings(old(self)),
            final(self).spec_last_action() == old(self).spec_last_action(),
    {
        proof {
            use_type_invariant(&*self);
            lemma_answer_kept(self.told@, PluginEvent::NodeStop(*ctx));
        }
        *self = LagPromotePolicy {
            enabled: self.enabled,
            lag_threshold: self.lag_threshold,
            last_action: self.last_action,
            told: Ghost(self.told@.push(PluginEvent::NodeStop(*ctx))),
        };
    }

    fn on_group_ready(&mut self, ctx: &PluginContext, group: GroupId)
        ensures
            final(self).same_settings(old(self)),
            final(self).spec_last_action() == old(self).spec_last_action(),
    {
        proof {
            use_type_invariant(&*self);
            lemma_answer_kept(self.told@, PluginEvent::GroupReady(*ctx, group));
        }
        *self = LagPromotePolicy {
            enabled: self.enabled,
            lag_threshold: self.lag_threshold,
            last_action: self.last_action,
            told: Ghost(self.told@.push(PluginEvent::GroupReady(*ctx, group))),
        };
    }

    fn evaluate(&mut self, ctx: &TransitionContext) -> (r: TransitionAction)
        ensures
            r == lag_action(old(self).spec_enabled(), old(self).spec_lag_threshold(), *ctx),
            final(self).same_settings(old(self)),
            final(self).spec_last_action() == r,
    {
        let behind: u64 = ctx.leader_applied_index.saturating_sub(ctx.standby_applied_index);
        let action = if self.enabled && ctx.standby_is_learner && behind >= self.lag_threshold {
            TransitionAction::PromoteStandby
        } else {
            TransitionAction::NoAction
        };
        *self = LagPromotePolicy {
            enabled: self.enabled,
            lag_threshold: self.lag_threshold,
            last_action: action,
            told: Ghost(self.told@.push(PluginEvent::Asked(*ctx, action))),
        };
        action
    }

    fn snapshot(&self) -> (r: TransitionSnapshot) {
        proof {
            use_type_invariant(self);
        }
        TransitionSnapshot {
            plugin: self.name(),
            enabled: self.enabled,
            lag_threshold: self.lag_threshold,
            last_action: self.last_action,
        }
    }
}

/// What is no question leaves the last answer as it was.
proof fn lemma_answer_kept(h: Seq<PluginEvent>, e: PluginEvent)
    requires
        !(e is Asked),
    ensures
        last_answer(h.push(e)) == last_answer(h),
{
    assert(h.push(e).drop_last() =~= h);
}

/// A disabled policy promotes nothing, however far the standby is behind.
pub proof fn law_disabled_never_promotes(lag_threshold: u64, ctx: TransitionContext)
    ensures
        lag_action(false, lag_threshold, ctx) == TransitionAction::NoAction,
{
}

/// An enabled policy, whose threshold is at least 1, promotes no voter and no standby that has
/// caught up; a standby that it has promoted it would also have promoted further behind.
pub proof fn law_only_lagging_learners_are_promoted(
    lag_threshold: u64,
    ctx: TransitionContext,
    further: TransitionContext,
)
    requires
        lag_threshold >= 1,
        lag_action(true, lag_threshold, ctx) == TransitionAction::PromoteStandby,
        further.standby_is_learner,
        lag(further) >= lag(ctx),
    ensures
        ctx.standby_is_learner,
        ctx.standby_applied_index < ctx.leader_applied_index,
        lag_action(true, lag_threshold, further) == TransitionAction::PromoteStandby,
{
}

} // verus!
