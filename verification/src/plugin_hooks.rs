//! Telling the plugins of a registry, one after the other.

use vstd::prelude::*;

use crate::plugin;
use crate::plugin::{
    Hook, MetricsPlugin, MetricsSnapshot, PluginContext, PluginEvent, PluginKind, PluginRegistry,
    StageSample,
};
use crate::plugin_metrics;
use crate::type_config::GroupId;

verus! {

proof fn lemma_along(order: Seq<PluginKind>, i: int, event: PluginEvent)
    requires
        0 <= i < order.len(),
    ensures
        plugin::calls_along(plugin::roll(order), event).take(i + 1) == plugin::calls_along(
            plugin::roll(order),
            event,
        ).take(i).push(
            plugin::PluginCall {
                kind: plugin::roll(order)[i].0,
                at: plugin::roll(order)[i].1,
                event,
            },
        ),
{
    plugin::lemma_roll(order, i);
    assert(plugin::calls_along(plugin::roll(order), event).take(i + 1) =~= plugin::calls_along(
        plugin::roll(order),
        event,
    ).take(i).push(
        plugin::PluginCall {
            kind: plugin::roll(order)[i].0,
            at: plugin::roll(order)[i].1,
            event,
        },
    ));
}

impl PluginRegistry {
    /// Tells every plugin, in the order of registration, what `hook` tells of.
    fn tell_all(&mut self, hook: Hook)
        requires
            old(self).wf(),
        ensures
            final(self).wf(),
            plugin::all_told(*old(self), *final(self), hook.event()),
    {
        let ghost order = self.order@;
        let ghost event = hook.event();
        let ghost along = plugin::calls_along(plugin::roll(order), event);
        let rolled = self.roll_call();
        let mut i: usize = 0;
        proof {
            if order.len() > 0 {
                plugin::lemma_roll(order, 0);
            } else {
                assert(plugin::roll(order).len() == 0);
            }
            assert(self.calls() + along.take(0) =~= self.calls());
        }
        while i < rolled.len()
            invariant
                i <= rolled@.len(),
                old(self).wf(),
                order == old(self).order@,
                self.order == old(self).order,
                event == hook.event(),
                along == plugin::calls_along(plugin::roll(order), event),
                rolled@.len() == order.len(),
                plugin::roll(order).len() == order.len(),
                forall|j: int|
                    0 <= j < rolled@.len() ==> (#[trigger] rolled@[j]).0 == plugin::roll(order)[j].0
                        && rolled@[j].1 == plugin::roll(order)[j].1,
                forall|j: int|
                    0 <= j < rolled@.len() ==> (#[trigger] rolled@[j]).1 < old(self).count(
                        rolled@[j].0,
                    ),
                self.calls() == old(self).calls() + along.take(i as int),
                plugin::plain_told(
                    old(self).plain@,
                    self.plain@,
                    plugin::count_kind(order.take(i as int), PluginKind::Plain) as int,
                    event,
                ),
                plugin::metrics_told(
                    old(self).metrics@,
                    self.metrics@,
                    plugin::count_kind(order.take(i as int), PluginKind::Metrics) as int,
                    event,
                ),
                plugin::archive_told(
                    old(self).archive@,
                    self.archive@,
                    plugin::count_kind(order.take(i as int), PluginKind::Archive) as int,
                    event,
                ),
                plugin::transition_told(
                    old(self).transition@,
                    self.transition@,
                    plugin::count_kind(order.take(i as int), PluginKind::Transition) as int,
                    event,
                ),
                plugin::auth_told(
                    old(self).auth@,
                    self.auth@,
                    plugin::count_kind(order.take(i as int), PluginKind::Auth) as int,
                    event,
                ),
            decreases rolled@.len() - i,
        {
            let (kind, at) = rolled[i];
            proof {
                plugin::lemma_roll(order, i as int);
                lemma_along(order, i as int, event);
                plugin::lemma_count_step(order, i as int, PluginKind::Plain);
                plugin::lemma_count_step(order, i as int, PluginKind::Metrics);
                plugin::lemma_count_step(order, i as int, PluginKind::Archive);
                plugin::lemma_count_step(order, i as int, PluginKind::Transition);
                plugin::lemma_count_step(order, i as int, PluginKind::Auth);
            }
            let ghost was = *self;
            self.tell(kind, at, hook);
            assert(old(self).calls() + along.take(i + 1) =~= was.calls().push(
                plugin::PluginCall { kind, at: at as nat, event },
            ));
            i = i + 1;
        }
        proof {
            assert(order.take(i as int) =~= order);
            assert(along.take(i as int) =~= along);
        }
    }

    /// Tells every plugin, in the order of registration, that the node has started.
    pub fn on_node_start(&mut self, ctx: &PluginContext)
        requires
            old(self).wf(),
        ensures
            final(self).wf(),
            plugin::all_told(*old(self), *final(self), PluginEvent::NodeStart(*ctx)),
    {
        self.tell_all(Hook::NodeStart(*ctx));
    }

    /// Tells every plugin, in the order of registration, that the node stops.
    pub fn on_node_stop(&mut self, ctx: &PluginContext)
        requires
            old(self).wf(),
        ensures
            final(self).wf(),
            plugin::all_told(*old(self), *final(self), PluginEvent::NodeStop(*ctx)),
    {
        self.tell_all(Hook::NodeStop(*ctx));
    }

    /// Tells every plugin, in the order of registration, that `group` is ready.
    pub fn on_group_ready(&mut self, ctx: &PluginContext, group: GroupId)
        requires
            old(self).wf(),
        ensures
            final(self).wf(),
            plugin::all_told(*old(self), *final(self), PluginEvent::GroupReady(*ctx, group)),
    {
        self.tell_all(Hook::GroupReady(*ctx, group));
    }

    /// Hands `sample` to every metrics plugin, in the order of registration.
    pub fn record_stage(&mut self, sample: StageSample)
        requires
            old(self).wf(),
        ensures
            final(self).wf(),
            plugin::metrics_told(
                old(self).metrics@,
                final(self).metrics@,
                old(self).metrics@.len() as int,
                PluginEvent::Sample(sample),
            ),
            plugin::same_but_metrics(*old(self), *final(self)),
            final(self).calls() == old(self).calls() + plugin::metrics_calls(
                old(self).metrics@.len(),
                PluginEvent::Sample(sample),
            ),
    {
        let ghost event = PluginEvent::Sample(sample);
        let mut i: usize = 0;
        assert(self.calls() + plugin::metrics_calls(0, event) =~= self.calls());
        while i < self.metrics.len()
            invariant
                i <= self.metrics@.len(),
                event == PluginEvent::Sample(sample),
                plugin::metrics_told(old(self).metrics@, self.metrics@, i as int, event),
                plugin::same_but_metrics(*old(self), *self),
                self.calls() == old(self).calls() + plugin::metrics_calls(i as nat, event),
            decreases self.metrics@.len() - i,
        {
            let ghost was = *self;
            self.hand_sample(i, sample);
            assert(old(self).calls() + plugin::metrics_calls((i + 1) as nat, event)
                =~= was.calls().push(
                plugin::PluginCall { kind: PluginKind::Metrics, at: i as nat, event },
            ));
            i = i + 1;
        }
    }
}

/// When the node has stopped the registry holds the plugins it held, in the order they had, and a
/// latency plugin among them reports no figures.
pub proof fn law_stopped_nodes_report_nothing(
    before: PluginRegistry,
    after: PluginRegistry,
    ctx: PluginContext,
    i: int,
    s: MetricsSnapshot,
)
    requires
        plugin::all_told(before, after, PluginEvent::NodeStop(ctx)),
        0 <= i < before.metrics@.len(),
        before.metrics@[i].reports() == plugin_metrics::latency_reports(),
        plugin::metrics_may_report(after.metrics@, i, s),
    ensures
        after.order == before.order,
        after.metrics@.len() == before.metrics@.len(),
        after.metrics@[i].reports() == plugin_metrics::latency_reports(),
        s.stages@.len() == 0,
{
    let h = before.metrics@[i].history();
    assert(after.metrics@[i].history() == h.push(PluginEvent::NodeStop(ctx)));
    assert((plugin_metrics::latency_reports())(h.push(PluginEvent::NodeStop(ctx)), s));
    plugin_metrics::law_stop_clears_the_figures(h, ctx, s.stages@);
}

/// What a latency plugin reports after a hook that tells of no stop, and a sample after it, are the
/// figures it had, with the sample counted in.
pub proof fn law_samples_are_reported(
    start: PluginRegistry,
    hooked: PluginRegistry,
    after: PluginRegistry,
    event: PluginEvent,
    sample: StageSample,
    i: int,
    s: MetricsSnapshot,
)
    requires
        plugin::all_told(start, hooked, event),
        event is NodeStart || event is GroupReady,
        plugin::metrics_told(
            hooked.metrics@,
            after.metrics@,
            hooked.metrics@.len() as int,
            PluginEvent::Sample(sample),
        ),
        0 <= i < start.metrics@.len(),
        start.metrics@[i].reports() == plugin_metrics::latency_reports(),
        plugin::metrics_may_report(after.metrics@, i, s),
    ensures
        s.plugin@ == "segmented-latency"@,
        plugin_metrics::is_report(
            start.metrics@[i].history().push(PluginEvent::Sample(sample)),
            s.stages@,
        ),
        exists|k: int|
            0 <= k < s.stages@.len() && (#[trigger] s.stages@[k]).group == sample.group
                && s.stages@[k].stage == sample.stage && plugin_metrics::is_summary(
                plugin_metrics::live(
                    start.metrics@[i].history(),
                    sample.group,
                    sample.stage,
                ).push(sample),
                s.stages@[k],
            ),
{
    let h = start.metrics@[i].history();
    let told = h.push(event).push(PluginEvent::Sample(sample));
    assert(hooked.metrics@[i].history() == h.push(event));
    assert(after.metrics@[i].history() == told);
    assert((plugin_metrics::latency_reports())(told, s));
    plugin_metrics::lemma_hooks_leave_figures(h, event, sample, s.stages@);
    plugin_metrics::lemma_sampled(h, sample, s.stages@);
}

} // verus!
