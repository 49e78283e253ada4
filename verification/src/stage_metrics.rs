//! What the timings of a proposal come to in samples: the client's wait and Raft's own stages.

use vstd::prelude::*;

use crate::duration;
use crate::duration::Duration;
use crate::error::{MultiRaftError, ProposeOk};
use crate::plugin;
use crate::plugin::{
    MetricsPlugin, MetricsSnapshot, PluginCall, PluginEvent, PluginRegistry, ProposeStage,
    StageSample,
};
use crate::plugin_metrics;
use crate::type_config::GroupId;

verus! {

/// When the entries of a run of the log passed each point, counted from a common start.
#[derive(Clone, Copy, Debug)]
pub struct LogSegment {
    /// The first index of the run.
    pub start: u64,
    /// The index behind the run.
    pub end: u64,
    pub proposed: Duration,
    pub received: Duration,
    pub submitted: Duration,
    pub persisted: Duration,
    pub committed: Duration,
    pub applied: Duration,
}

/// How long each stage of a proposal took.
#[derive(Clone, Copy, Debug, PartialEq, Eq, Structural)]
pub struct StageDurations {
    pub enqueued: Duration,
    pub leader_append: Duration,
    pub quorum_ack: Duration,
    pub committed: Duration,
    pub applied: Duration,
}

/// The run holds the entry at `index`.
pub open spec fn covers(seg: LogSegment, index: u64) -> bool {
    seg.start <= index < seg.end
}

/// The durations are those of the run's points.
pub open spec fn are_durations(d: StageDurations, seg: LogSegment) -> bool {
    &&& d.enqueued.nanos == duration::since(seg.received, seg.proposed)
    &&& d.leader_append.nanos == duration::since(seg.submitted, seg.received) + duration::since(
        seg.persisted,
        seg.submitted,
    )
    &&& d.quorum_ack.nanos == duration::since(seg.committed, seg.persisted)
    &&& d.committed == d.quorum_ack
    &&& d.applied.nanos == duration::since(seg.applied, seg.committed)
}

/// The run at `k` is the first that holds the entry at `index`.
pub open spec fn first_covering(segs: Seq<LogSegment>, index: u64, k: int) -> bool {
    &&& 0 <= k < segs.len()
    &&& covers(segs[k], index)
    &&& forall|i: int| 0 <= i < k ==> !covers(#[trigger] segs[i], index)
}

/// Some run holds the entry at `index`.
pub open spec fn is_covered(segs: Seq<LogSegment>, index: u64) -> bool {
    exists|k: int| first_covering(segs, index, k)
}

/// No run holds the entry at `index`.
pub open spec fn none_covers(segs: Seq<LogSegment>, index: u64) -> bool {
    forall|i: int| 0 <= i < segs.len() ==> !covers(#[trigger] segs[i], index)
}

/// How long the stages of the entry at `index` took, where it was timed.
pub fn durations_for_index(segments: &Vec<LogSegment>, index: u64) -> (r: Option<StageDurations>)
    ensures
        match r {
            Some(d) => exists|k: int| #[trigger]
                first_covering(segments@, index, k) && are_durations(d, segments@[k]),
            None => none_covers(segments@, index),
        },
{
    let mut i: usize = 0;
    while i < segments.len()
        invariant
            i <= segments@.len(),
            forall|j: int| 0 <= j < i ==> !covers(#[trigger] segments@[j], index),
        decreases segments@.len() - i,
    {
        let seg = segments[i];
        if seg.start <= index && index < seg.end {
            let to_submit = seg.submitted.saturating_since(seg.received);
            let to_persist = seg.persisted.saturating_since(seg.submitted);
            let quorum_ack = seg.committed.saturating_since(seg.persisted);
            let d = StageDurations {
                enqueued: seg.received.saturating_since(seg.proposed),
                leader_append: Duration { nanos: to_submit.nanos + to_persist.nanos },
                quorum_ack,
                committed: quorum_ack,
                applied: seg.applied.saturating_since(seg.committed),
            };
            assert(first_covering(segments@, index, i as int));
            assert(are_durations(d, segments@[i as int]));
            return Some(d);
        }
        i = i + 1;
    }
    None
}

/// What is recorded of one stage: a success that took so long, or nothing where it took no time.
pub open spec fn stage_event(group: GroupId, stage: ProposeStage, d: Duration) -> Seq<PluginEvent> {
    if d.nanos == 0 {
        Seq::empty()
    } else {
        seq![PluginEvent::Sample(StageSample { group, stage, duration: d, ok: true })]
    }
}

/// What is recorded of a proposal, in this order.
pub open spec fn stage_events(group: GroupId, d: StageDurations) -> Seq<PluginEvent> {
    stage_event(group, ProposeStage::ClientEnqueued, d.enqueued) + stage_event(
        group,
        ProposeStage::LeaderAppend,
        d.leader_append,
    ) + stage_event(group, ProposeStage::QuorumAck, d.quorum_ack) + stage_event(
        group,
        ProposeStage::Committed,
        d.committed,
    ) + stage_event(group, ProposeStage::Applied, d.applied)
}

/// The calls that hand each of `events` in turn to `n` metrics plugins, one after the other.
pub open spec fn heard_calls(n: nat, events: Seq<PluginEvent>) -> Seq<PluginCall>
    decreases events.len(),
{
    if events.len() == 0 {
        Seq::empty()
    } else {
        heard_calls(n, events.drop_last()) + plugin::metrics_calls(n, events.last())
    }
}

proof fn lemma_heard_calls(n: nat, first: Seq<PluginEvent>, then: Seq<PluginEvent>)
    ensures
        heard_calls(n, first + then) == heard_calls(n, first) + heard_calls(n, then),
    decreases then.len(),
{
    if then.len() == 0 {
        assert(first + then =~= first);
        assert(heard_calls(n, first) + heard_calls(n, then) =~= heard_calls(n, first));
    } else {
        lemma_heard_calls(n, first, then.drop_last());
        assert((first + then).drop_last() =~= first + then.drop_last());
        assert(heard_calls(n, first + then) =~= heard_calls(n, first) + heard_calls(n, then));
    }
}

proof fn lemma_one_heard(n: nat, event: PluginEvent)
    ensures
        heard_calls(n, seq![event]) == plugin::metrics_calls(n, event),
{
    assert(seq![event].drop_last() =~= Seq::<PluginEvent>::empty());
    assert(heard_calls(n, Seq::empty()) =~= Seq::<PluginCall>::empty());
    assert(heard_calls(n, seq![event]) =~= plugin::metrics_calls(n, event));
}

/// Each metrics plugin, and no other, has been told `events` more: each event reaches them all, in
/// the order of registration, before the next.
pub open spec fn metrics_heard(
    before: PluginRegistry,
    after: PluginRegistry,
    events: Seq<PluginEvent>,
) -> bool {
    &&& plugin::same_but_metrics(before, after)
    &&& after.calls() == before.calls() + heard_calls(before.metrics@.len(), events)
    &&& after.metrics@.len() == before.metrics@.len()
    &&& forall|i: int|
        0 <= i < after.metrics@.len() ==> (#[trigger] after.metrics@[i]).history()
            == before.metrics@[i].history() + events && after.metrics@[i].reports()
            == before.metrics@[i].reports()
}

/// Hands one stage to the metrics plugins, unless it took no time.
pub fn record(plugins: &mut PluginRegistry, group: GroupId, stage: ProposeStage, d: Duration)
    requires
        old(plugins).wf(),
    ensures
        final(plugins).wf(),
        metrics_heard(*old(plugins), *final(plugins), stage_event(group, stage, d)),
{
    if d.is_zero() {
        assert(plugins.calls() + Seq::<PluginCall>::empty() =~= plugins.calls());
        assert forall|i: int| 0 <= i < plugins.metrics@.len() implies (
        #[trigger] plugins.metrics@[i]).history() == old(plugins).metrics@[i].history()
            + stage_event(group, stage, d) by {
            assert(plugins.metrics@[i].history() + Seq::<PluginEvent>::empty()
                =~= plugins.metrics@[i].history());
        }
        return;
    }
    let sample = StageSample { group, stage, duration: d, ok: true };
    plugins.record_stage(sample);
    proof {
        lemma_one_heard(old(plugins).metrics@.len(), PluginEvent::Sample(sample));
    }
    assert forall|i: int| 0 <= i < plugins.metrics@.len() implies (
    #[trigger] plugins.metrics@[i]).history() == old(plugins).metrics@[i].history() + stage_event(
        group,
        stage,
        d,
    ) by {
        assert(old(plugins).metrics@[i].history().push(PluginEvent::Sample(sample)) =~= old(
            plugins,
        ).metrics@[i].history() + stage_event(group, stage, d));
    }
}

proof fn lemma_heard(
    a: PluginRegistry,
    b: PluginRegistry,
    c: PluginRegistry,
    first: Seq<PluginEvent>,
    then: Seq<PluginEvent>,
)
    requires
        metrics_heard(a, b, first),
        metrics_heard(b, c, then),
    ensures
        metrics_heard(a, c, first + then),
{
    lemma_heard_calls(a.metrics@.len(), first, then);
    assert(a.calls() + heard_calls(a.metrics@.len(), first) + heard_calls(a.metrics@.len(), then)
        =~= a.calls() + heard_calls(a.metrics@.len(), first + then));
    assert forall|i: int| 0 <= i < c.metrics@.len() implies (#[trigger] c.metrics@[i]).history()
        == a.metrics@[i].history() + (first + then) by {
        assert(b.metrics@[i].history() == a.metrics@[i].history() + first);
        assert(b.metrics@[i].reports() == a.metrics@[i].reports());
        assert(a.metrics@[i].history() + first + then =~= a.metrics@[i].history() + (first + then));
    }
}

/// Hands the stages of the entry at `index` to the metrics plugins, by the timings that Raft gives;
/// nothing where it gives none or did not time that entry.
pub fn record_openraft_stages(
    plugins: &mut PluginRegistry,
    group: GroupId,
    index: u64,
    timings: Option<&Vec<LogSegment>>,
)
    requires
        old(plugins).wf(),
    ensures
        final(plugins).wf(),
        match timings {
            Some(segs) => if is_covered(segs@, index) {
                exists|k: int, d: StageDurations|
                    first_covering(segs@, index, k) && #[trigger] are_durations(d, segs@[k])
                        && metrics_heard(*old(plugins), *final(plugins), stage_events(group, d))
            } else {
                *final(plugins) == *old(plugins)
            },
            None => *final(plugins) == *old(plugins),
        },
{
    let segs = match timings {
        Some(s) => s,
        None => return,
    };
    let d = match durations_for_index(segs, index) {
        Some(d) => d,
        None => return,
    };
    let ghost start = *plugins;
    record(plugins, group, ProposeStage::ClientEnqueued, d.enqueued);
    let ghost one = *plugins;
    record(plugins, group, ProposeStage::LeaderAppend, d.leader_append);
    let ghost two = *plugins;
    record(plugins, group, ProposeStage::QuorumAck, d.quorum_ack);
    let ghost three = *plugins;
    record(plugins, group, ProposeStage::Committed, d.committed);
    let ghost four = *plugins;
    record(plugins, group, ProposeStage::Applied, d.applied);
    proof {
        let e1 = stage_event(group, ProposeStage::ClientEnqueued, d.enqueued);
        let e2 = stage_event(group, ProposeStage::LeaderAppend, d.leader_append);
        let e3 = stage_event(group, ProposeStage::QuorumAck, d.quorum_ack);
        let e4 = stage_event(group, ProposeStage::Committed, d.committed);
        let e5 = stage_event(group, ProposeStage::Applied, d.applied);
        lemma_heard(start, one, two, e1, e2);
        lemma_heard(start, two, three, e1 + e2, e3);
        lemma_heard(start, three, four, e1 + e2 + e3, e4);
        lemma_heard(start, four, *plugins, e1 + e2 + e3 + e4, e5);
        let k = choose|k: int| #[trigger]
            first_covering(segs@, index, k) && are_durations(d, segs@[k]);
        assert(first_covering(segs@, index, k) && are_durations(d, segs@[k]));
    }
}

/// How long a client waited for its proposal, and whether it was taken.
pub open spec fn client_write(group: GroupId, elapsed: Duration, ok: bool) -> StageSample {
    StageSample { group, stage: ProposeStage::ClientWrite, duration: elapsed, ok }
}

/// The sample of a proposal that took `elapsed` and came out as `result`.
pub fn client_write_sample(
    group: GroupId,
    elapsed: Duration,
    result: &Result<ProposeOk, MultiRaftError>,
) -> (r: StageSample)
    ensures
        r == client_write(group, elapsed, result is Ok),
{
    StageSample { group, stage: ProposeStage::ClientWrite, duration: elapsed, ok: result.is_ok() }
}

/// Hands the metrics plugins how long a proposal took, however it came out.
pub fn record_client_write(
    plugins: &mut PluginRegistry,
    group: GroupId,
    elapsed: Duration,
    result: &Result<ProposeOk, MultiRaftError>,
)
    requires
        old(plugins).wf(),
    ensures
        final(plugins).wf(),
        metrics_heard(
            *old(plugins),
            *final(plugins),
            seq![PluginEvent::Sample(client_write(group, elapsed, result is Ok))],
        ),
{
    let sample = client_write_sample(group, elapsed, result);
    plugins.record_stage(sample);
    proof {
        lemma_one_heard(old(plugins).metrics@.len(), PluginEvent::Sample(sample));
    }
    assert forall|i: int| 0 <= i < plugins.metrics@.len() implies (
    #[trigger] plugins.metrics@[i]).history() == old(plugins).metrics@[i].history()
        + seq![PluginEvent::Sample(sample)] && plugins.metrics@[i].reports() == old(
        plugins,
    ).metrics@[i].reports() by {
        assert(old(plugins).metrics@[i].history().push(PluginEvent::Sample(sample)) =~= old(
            plugins,
        ).metrics@[i].history() + seq![PluginEvent::Sample(sample)]);
    }
}

/// A proposal is counted in what a latency plugin reports: there is a row of client writes of its
/// group, over the samples that were there and this one.
pub proof fn law_proposals_are_timed(
    before: PluginRegistry,
    after: PluginRegistry,
    group: GroupId,
    elapsed: Duration,
    ok: bool,
    i: int,
    s: MetricsSnapshot,
)
    requires
        metrics_heard(
            before,
            after,
            seq![PluginEvent::Sample(client_write(group, elapsed, ok))],
        ),
        0 <= i < before.metrics@.len(),
        before.metrics@[i].reports() == plugin_metrics::latency_reports(),
        plugin::metrics_may_report(after.metrics@, i, s),
    ensures
        exists|k: int|
            0 <= k < s.stages@.len() && (#[trigger] s.stages@[k]).group == group
                && s.stages@[k].stage == ProposeStage::ClientWrite && plugin_metrics::is_summary(
                plugin_metrics::live(
                    before.metrics@[i].history(),
                    group,
                    ProposeStage::ClientWrite,
                ).push(client_write(group, elapsed, ok)),
                s.stages@[k],
            ),
{
    let h = before.metrics@[i].history();
    let sample = client_write(group, elapsed, ok);
    assert(after.metrics@[i].history() == h + seq![PluginEvent::Sample(sample)]);
    assert(h + seq![PluginEvent::Sample(sample)] =~= h.push(PluginEvent::Sample(sample)));
    assert((plugin_metrics::latency_reports())(h.push(PluginEvent::Sample(sample)), s));
    plugin_metrics::lemma_sampled(h, sample, s.stages@);
}

/// Where the points of a proposal lie in order, its stages add up to the time from the proposal to
/// its application.
pub proof fn law_stages_add_up(seg: LogSegment, d: StageDurations)
    requires
        are_durations(d, seg),
        seg.proposed.nanos <= seg.received.nanos <= seg.submitted.nanos <= seg.persisted.nanos
            <= seg.committed.nanos <= seg.applied.nanos,
    ensures
        d.enqueued.nanos + d.leader_append.nanos + d.quorum_ack.nanos + d.applied.nanos
            == seg.applied.nanos - seg.proposed.nanos,
{
}

} // verus!
