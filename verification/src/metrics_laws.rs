//! What holds of the timings of proposals, from the points that Raft gives to the figures that are
//! reported.

use vstd::prelude::*;

use crate::duration::Duration;
use crate::error::{MultiRaftError, ProposeOk};
use crate::plugin::{
    MetricsPlugin, MetricsSnapshot, PluginContext, PluginEvent, PluginRegistry, ProposeStage,
    StageLatencySummary, StageSample,
};
use crate::plugin_metrics;
use crate::plugin_metrics::{percentile, sorted_copy, SegmentedLatencyMetrics, StageAgg};
use crate::stage_metrics;
use crate::stage_metrics::{
    client_write_sample, durations_for_index, record, record_client_write, record_openraft_stages,
    LogSegment, StageDurations,
};
use crate::type_config::GroupId;

verus! {

/// `us` is the time `d` in whole microseconds, or the highest number where that does not fit.
pub open spec fn is_micros(d: Duration, us: u64) -> bool {
    if d.nanos < 1000 * (u64::MAX + 1) {
        us * 1000 <= d.nanos < us * 1000 + 1000
    } else {
        us == u64::MAX
    }
}

proof fn lemma_micros(d: Duration)
    ensures
        is_micros(d, plugin_metrics::micros(d)),
{
}

/// Times of different units are the same time: a thousand of one make one of the next. What is read
/// in microseconds is what was put in.
pub proof fn law_units_of_time_agree(
    n: u64,
    nanos: Duration,
    micros: Duration,
    millis: Duration,
    read: u128,
    read_millis: u128,
    zero: bool,
)
    requires
        call_ensures(Duration::from_nanos, (n,), nanos),
        call_ensures(Duration::from_micros, (n,), micros),
        call_ensures(Duration::from_millis, (n,), millis),
        call_ensures(Duration::as_micros, (micros,), read),
        call_ensures(Duration::as_micros, (millis,), read_millis),
        call_ensures(Duration::is_zero, (nanos,), zero),
    ensures
        nanos.nanos == n,
        micros.nanos == nanos.nanos * 1000,
        millis.nanos == micros.nanos * 1000,
        read == n,
        read_millis == n * 1000,
        zero <==> n == 0,
{
}

/// The time between two points is what leads from the earlier to the later one; there is none the
/// other way round.
pub proof fn law_time_between_points(
    later: Duration,
    earlier: Duration,
    r: Duration,
    back: Duration,
)
    requires
        call_ensures(Duration::saturating_since, (later, earlier), r),
        call_ensures(Duration::saturating_since, (earlier, later), back),
    ensures
        earlier.nanos <= later.nanos ==> earlier.nanos + r.nanos == later.nanos && back.nanos == 0,
        later.nanos <= earlier.nanos ==> r.nanos == 0,
{
}

/// The name of a stage tells it apart from the others.
pub proof fn law_stage_names_differ(
    a: ProposeStage,
    b: ProposeStage,
    ta: &'static str,
    tb: &'static str,
)
    requires
        call_ensures(ProposeStage::as_str, (a,), ta),
        call_ensures(ProposeStage::as_str, (b,), tb),
    ensures
        ta@ == tb@ <==> a == b,
        a == ProposeStage::ClientEnqueued ==> ta@ == "client_enqueued"@,
        a == ProposeStage::ClientWrite ==> ta@ == "client_write"@,
        a == ProposeStage::LeaderAppend ==> ta@ == "leader_append"@,
        a == ProposeStage::QuorumAck ==> ta@ == "quorum_ack"@,
        a == ProposeStage::Committed ==> ta@ == "committed"@,
        a == ProposeStage::Applied ==> ta@ == "applied"@,
{
    reveal_strlit("client_enqueued");
    reveal_strlit("client_write");
    reveal_strlit("leader_append");
    reveal_strlit("quorum_ack");
    reveal_strlit("committed");
    reveal_strlit("applied");
    assert("committed"@[0] == 'c');
    assert("client_enqueued"@.len() == 15);
    assert("client_write"@.len() == 12);
    assert("leader_append"@.len() == 13);
    assert("quorum_ack"@.len() == 10);
    assert("committed"@.len() == 9);
    assert("applied"@.len() == 7);
}

/// The stages of an entry are timed by the first run that holds it, each from the point before to its
/// own. An entry is timed exactly where some run holds it.
pub proof fn law_stages_are_timed_between_their_points(
    segments: &Vec<LogSegment>,
    index: u64,
    r: Option<StageDurations>,
    k: int,
)
    requires
        call_ensures(durations_for_index, (segments, index), r),
        0 <= k < segments@.len(),
        segments@[k].start <= index < segments@[k].end,
        forall|i: int|
            0 <= i < k ==> !((#[trigger] segments@[i]).start <= index < segments@[i].end),
    ensures
        r is Some,
        ({
            let s = segments@[k];
            let d = r->Some_0;
            s.proposed.nanos <= s.received.nanos <= s.submitted.nanos <= s.persisted.nanos
                <= s.committed.nanos <= s.applied.nanos ==> {
                &&& s.proposed.nanos + d.enqueued.nanos == s.received.nanos
                &&& s.received.nanos + d.leader_append.nanos == s.persisted.nanos
                &&& s.persisted.nanos + d.quorum_ack.nanos == s.committed.nanos
                &&& d.committed == d.quorum_ack
                &&& s.committed.nanos + d.applied.nanos == s.applied.nanos
            }
        }),
{
    assert(stage_metrics::covers(segments@[k], index));
    if r is Some {
        let j = choose|j: int| #[trigger]
            stage_metrics::first_covering(segments@, index, j) && stage_metrics::are_durations(
                r->Some_0,
                segments@[j],
            );
        if j < k {
            assert(stage_metrics::covers(segments@[j], index));
        }
        if k < j {
            assert(!stage_metrics::covers(segments@[k], index));
        }
    }
}

/// An entry that no run holds is not timed.
pub proof fn law_other_entries_are_not_timed(
    segments: &Vec<LogSegment>,
    index: u64,
    r: Option<StageDurations>,
)
    requires
        call_ensures(durations_for_index, (segments, index), r),
        forall|i: int|
            0 <= i < segments@.len() ==> !((#[trigger] segments@[i]).start <= index
                < segments@[i].end),
    ensures
        r is None,
{
    if r is Some {
        let j = choose|j: int| #[trigger]
            stage_metrics::first_covering(segments@, index, j) && stage_metrics::are_durations(
                r->Some_0,
                segments@[j],
            );
        assert(stage_metrics::covers(segments@[j], index));
    }
}

/// A stage that took time is handed to every metrics plugin as a success of that group and stage,
/// with that time; one that took none is not.
pub proof fn law_stage_is_recorded_once(
    plugins: &mut PluginRegistry,
    group: GroupId,
    stage: ProposeStage,
    d: Duration,
    i: int,
)
    requires
        old(plugins).wf(),
        call_ensures(record, (plugins, group, stage, d), ()),
        0 <= i < old(plugins).metrics@.len(),
    ensures
        final(plugins).metrics@.len() == old(plugins).metrics@.len(),
        d.nanos == 0 ==> final(plugins).metrics@[i].history() == old(plugins).metrics@[i].history(),
        d.nanos > 0 ==> final(plugins).metrics@[i].history() == old(
            plugins,
        ).metrics@[i].history().push(
            PluginEvent::Sample(StageSample { group, stage, duration: d, ok: true }),
        ),
{
    let h = old(plugins).metrics@[i].history();
    assert(h + stage_metrics::stage_event(group, stage, d) =~= final(plugins).metrics@[i].history());
    if d.nanos == 0 {
        assert(h + Seq::<PluginEvent>::empty() =~= h);
    }
}

/// An event of the stage `stage` of `group` that took from `from` to `to`.
pub open spec fn is_stage_sample(
    e: PluginEvent,
    group: GroupId,
    stage: ProposeStage,
    from: Duration,
    to: Duration,
) -> bool {
    &&& e is Sample
    &&& e->Sample_0.group == group
    &&& e->Sample_0.stage == stage
    &&& e->Sample_0.ok
    &&& from.nanos + e->Sample_0.duration.nanos == to.nanos
}

/// The timings of an entry reach every metrics plugin stage by stage: from its proposal to its
/// receipt, to the leader's disk, to the quorum, its commit with it, and to its application.
pub proof fn law_raft_stages_are_recorded(
    plugins: &mut PluginRegistry,
    group: GroupId,
    index: u64,
    segments: &Vec<LogSegment>,
    k: int,
    i: int,
)
    requires
        old(plugins).wf(),
        call_ensures(record_openraft_stages, (plugins, group, index, Some(segments)), ()),
        0 <= k < segments@.len(),
        segments@[k].start <= index < segments@[k].end,
        forall|j: int|
            0 <= j < k ==> !((#[trigger] segments@[j]).start <= index < segments@[j].end),
        segments@[k].proposed.nanos < segments@[k].received.nanos < segments@[k].submitted.nanos
            < segments@[k].persisted.nanos < segments@[k].committed.nanos
            < segments@[k].applied.nanos,
        0 <= i < old(plugins).metrics@.len(),
    ensures
        ({
            let s = segments@[k];
            let was = old(plugins).metrics@[i].history();
            let now = final(plugins).metrics@[i].history();
            &&& now.len() == was.len() + 5
            &&& now.take(was.len() as int) == was
            &&& is_stage_sample(
                now[was.len() as int],
                group,
                ProposeStage::ClientEnqueued,
                s.proposed,
                s.received,
            )
            &&& is_stage_sample(
                now[was.len() as int + 1],
                group,
                ProposeStage::LeaderAppend,
                s.received,
                s.persisted,
            )
            &&& is_stage_sample(
                now[was.len() as int + 2],
                group,
                ProposeStage::QuorumAck,
                s.persisted,
                s.committed,
            )
            &&& is_stage_sample(
                now[was.len() as int + 3],
                group,
                ProposeStage::Committed,
                s.persisted,
                s.committed,
            )
            &&& is_stage_sample(
                now[was.len() as int + 4],
                group,
                ProposeStage::Applied,
                s.committed,
                s.applied,
            )
        }),
{
    assert(stage_metrics::covers(segments@[k], index));
    assert(stage_metrics::first_covering(segments@, index, k));
    let (j, d) = choose|j: int, d: StageDurations|
        stage_metrics::first_covering(segments@, index, j) && #[trigger] stage_metrics::are_durations(
            d,
            segments@[j],
        ) && stage_metrics::metrics_heard(
            *old(plugins),
            *final(plugins),
            stage_metrics::stage_events(group, d),
        );
    if j < k {
        assert(stage_metrics::covers(segments@[j], index));
    }
    if k < j {
        assert(!stage_metrics::covers(segments@[k], index));
    }
    let was = old(plugins).metrics@[i].history();
    let now = final(plugins).metrics@[i].history();
    assert(now == was + stage_metrics::stage_events(group, d));
    assert(now.take(was.len() as int) =~= was);
}

/// Without timings, or for an entry that was not timed, nothing is recorded.
pub proof fn law_untimed_entries_are_not_recorded(
    plugins: &mut PluginRegistry,
    group: GroupId,
    index: u64,
    timings: Option<&Vec<LogSegment>>,
)
    requires
        old(plugins).wf(),
        call_ensures(record_openraft_stages, (plugins, group, index, timings), ()),
        timings is Some ==> forall|i: int|
            0 <= i < timings->Some_0@.len() ==> !((#[trigger] timings->Some_0@[i]).start <= index
                < timings->Some_0@[i].end),
    ensures
        *final(plugins) == *old(plugins),
{
    if timings is Some {
        let segs = timings->Some_0@;
        assert forall|k: int| !stage_metrics::first_covering(segs, index, k) by {
            if stage_metrics::first_covering(segs, index, k) {
                assert(stage_metrics::covers(segs[k], index));
            }
        }
    }
}

/// A proposal is recorded with the client's wait, as a success exactly where it was taken.
pub proof fn law_client_write_is_recorded(
    plugins: &mut PluginRegistry,
    group: GroupId,
    elapsed: Duration,
    result: &Result<ProposeOk, MultiRaftError>,
    sample: StageSample,
    i: int,
)
    requires
        old(plugins).wf(),
        call_ensures(client_write_sample, (group, elapsed, result), sample),
        call_ensures(record_client_write, (plugins, group, elapsed, result), ()),
        0 <= i < old(plugins).metrics@.len(),
    ensures
        sample.group == group,
        sample.stage == ProposeStage::ClientWrite,
        sample.duration == elapsed,
        sample.ok <==> *result is Ok,
        final(plugins).metrics@.len() == old(plugins).metrics@.len(),
        final(plugins).metrics@[i].history() == old(plugins).metrics@[i].history().push(
            PluginEvent::Sample(sample),
        ),
        final(plugins).calls().len() == old(plugins).calls().len() + old(plugins).metrics@.len(),
        final(plugins).auth == old(plugins).auth,
        final(plugins).transition == old(plugins).transition,
{
    reveal_with_fuel(stage_metrics::heard_calls, 2);
    let e = PluginEvent::Sample(sample);
    assert(seq![e].drop_last() =~= Seq::<PluginEvent>::empty());
    let h = old(plugins).metrics@[i].history();
    assert(h + seq![PluginEvent::Sample(sample)] =~= h.push(PluginEvent::Sample(sample)));
}

/// One more timing is counted once, as a success only where it was one; its time is added, and is the
/// longest where none was longer. It is the latest of the recent ones, of which there are at most
/// 4096: the oldest leaves when there are more.
pub proof fn law_timing_is_counted_in(
    agg: &mut StageAgg,
    d: Duration,
    ok: bool,
    us: u64,
    i: int,
)
    requires
        call_ensures(StageAgg::record, (agg, d, ok), ()),
        is_micros(d, us),
        old(agg).recent_us@.len() <= 4096,
    ensures
        old(agg).count < u64::MAX ==> final(agg).count == old(agg).count + 1,
        ok && old(agg).ok_count < u64::MAX ==> final(agg).ok_count == old(agg).ok_count + 1,
        !ok ==> final(agg).ok_count == old(agg).ok_count,
        old(agg).sum_us + us <= u64::MAX ==> final(agg).sum_us == old(agg).sum_us + us,
        old(agg).sum_us + us > u64::MAX ==> final(agg).sum_us == u64::MAX,
        final(agg).max_us >= us,
        final(agg).max_us >= old(agg).max_us,
        final(agg).max_us == us || final(agg).max_us == old(agg).max_us,
        final(agg).recent_us@.len() == (if old(agg).recent_us@.len() < 4096 {
            old(agg).recent_us@.len() + 1
        } else {
            4096
        }),
        final(agg).recent_us@.last() == us,
        old(agg).recent_us@.len() < 4096 && 0 <= i < old(agg).recent_us@.len()
            ==> final(agg).recent_us@[i] == old(agg).recent_us@[i],
        old(agg).recent_us@.len() == 4096 && 0 <= i < 4095 ==> final(agg).recent_us@[i] == old(
            agg,
        ).recent_us@[i + 1],
{
    lemma_micros(d);
    assert(us == plugin_metrics::micros(d));
}

/// The figures of a summary are those of the timings: counts, sum and longest as they stand.
pub proof fn law_summary_tells_the_timings(
    agg: &StageAgg,
    group: GroupId,
    stage: ProposeStage,
    r: StageLatencySummary,
)
    requires
        call_ensures(StageAgg::summary, (agg, group, stage), r),
    ensures
        r.group == group,
        r.stage == stage,
        r.count == agg.count,
        r.ok_count == agg.ok_count,
        r.sum_us == agg.sum_us,
        r.max_us == agg.max_us,
        agg.recent_us@.len() == 0 ==> r.p50_us == 0 && r.p99_us == 0,
        agg.recent_us@.len() > 0 ==> r.p50_us <= r.p99_us,
        agg.recent_us@.len() == 1 ==> r.p50_us == agg.recent_us@[0] && r.p99_us
            == agg.recent_us@[0],
{
    let v = agg.recent_us@;
    if v.len() > 0 {
        let a = choose|s: Seq<u64>| #[trigger]
            plugin_metrics::is_rising(s) && s.to_multiset() == v.to_multiset() && r.p50_us
                == s[plugin_metrics::rank(v.len() as int, 50)];
        let b = choose|s: Seq<u64>| #[trigger]
            plugin_metrics::is_rising(s) && s.to_multiset() == v.to_multiset() && r.p99_us
                == s[plugin_metrics::rank(v.len() as int, 99)];
        plugin_metrics::lemma_rising_is_unique(a, b);
        broadcast use vstd::seq_lib::group_to_multiset_ensures;

        assert(a.len() == a.to_multiset().len());
        assert(v.len() == v.to_multiset().len());
        assert(plugin_metrics::rank(v.len() as int, 50) <= plugin_metrics::rank(
            v.len() as int,
            99,
        ));
        assert(plugin_metrics::rank(v.len() as int, 99) < v.len());
        if v.len() == 1 {
            assert(plugin_metrics::is_rising(v));
            plugin_metrics::lemma_rising_is_unique(a, v);
        }
    }
}

/// The percentile of sorted values is the one at the nearest place to that share of the way from the
/// first to the last.
pub proof fn law_percentile_is_at_its_place(sorted: &Vec<u64>, percent: u64, r: u64)
    requires
        percent <= 100,
        sorted@.len() > 0,
        call_ensures(percentile, (sorted, percent), r),
    ensures
        exists|at: int|
            0 <= at < sorted@.len() && r == #[trigger] sorted@[at] && -50 < 100 * at - (sorted@.len()
                - 1) * percent <= 50,
        percent == 0 ==> r == sorted@[0],
        percent == 100 ==> r == sorted@.last(),
{
    let n = sorted@.len() as int;
    let at = plugin_metrics::rank(n, percent as int);
    assert(r == sorted@[at]);
    let x = (n - 1) * percent;
    assert(at == (x + 50) / 100);
    if percent == 0 {
        assert(x == 0) by (nonlinear_arith)
            requires
                x == (n - 1) * percent,
                percent == 0,
        ;
    }
    if percent == 100 {
        assert(x == 100 * (n - 1)) by (nonlinear_arith)
            requires
                x == (n - 1) * percent,
                percent == 100,
        ;
    }
}

/// Sorting puts the same values into rising order.
pub proof fn law_sorting_keeps_the_values(v: &Vec<u64>, r: Vec<u64>, i: int, j: int)
    requires
        call_ensures(sorted_copy, (v,), r),
    ensures
        0 <= i < j < r@.len() ==> r@[i] <= r@[j],
        r@.to_multiset() == v@.to_multiset(),
        r@.len() == v@.len(),
{
}

/// A latency plugin that has been handed one sample reports it alone: one row, of its group and
/// stage, with its time in every figure; when the node stops it reports nothing.
pub proof fn law_one_sample_is_reported(
    fresh: SegmentedLatencyMetrics,
    plugin: &mut SegmentedLatencyMetrics,
    sample: StageSample,
    us: u64,
    after: &SegmentedLatencyMetrics,
    s: MetricsSnapshot,
    stopped: &mut SegmentedLatencyMetrics,
    ctx: &PluginContext,
    at_end: &SegmentedLatencyMetrics,
    none: MetricsSnapshot,
)
    requires
        call_ensures(SegmentedLatencyMetrics::new, (), fresh),
        *old(plugin) == fresh,
        call_ensures(
            <SegmentedLatencyMetrics as MetricsPlugin>::record_stage,
            (plugin, sample),
            (),
        ),
        is_micros(sample.duration, us),
        *after == *final(plugin),
        call_ensures(<SegmentedLatencyMetrics as MetricsPlugin>::snapshot, (after,), s),
        *old(stopped) == *after,
        call_ensures(<SegmentedLatencyMetrics as MetricsPlugin>::on_node_stop, (stopped, ctx), ()),
        *at_end == *final(stopped),
        call_ensures(<SegmentedLatencyMetrics as MetricsPlugin>::snapshot, (at_end,), none),
    ensures
        s.plugin@ == "segmented-latency"@,
        s.stages@.len() == 1,
        s.stages@[0].group == sample.group,
        s.stages@[0].stage == sample.stage,
        s.stages@[0].count == 1,
        s.stages@[0].ok_count == (if sample.ok {
            1u64
        } else {
            0u64
        }),
        s.stages@[0].sum_us == us,
        s.stages@[0].max_us == us,
        s.stages@[0].p50_us == us,
        s.stages@[0].p99_us == us,
        none.stages@.len() == 0,
{
    let h = after.history();
    assert(h =~= seq![PluginEvent::Sample(sample)]);
    assert((after.reports())(h, s));
    assert(plugin_metrics::is_report(h, s.stages@));
    lemma_live_one(sample);
    assert(plugin_metrics::live(h, sample.group, sample.stage).len() > 0);
    let k = choose|k: int|
        0 <= k < s.stages@.len() && (#[trigger] s.stages@[k]).group == sample.group
            && s.stages@[k].stage == sample.stage;
    if s.stages@.len() > 1 {
        lemma_rows_are_one(h, sample, s.stages@, 0, 1);
    }
    assert(k == 0);
    let live = plugin_metrics::live(h, sample.group, sample.stage);
    assert(live =~= seq![sample]);
    lemma_micros(sample.duration);
    lemma_summary_of_one(sample, us, s.stages@[0]);
    assert(at_end.history() == h.push(PluginEvent::NodeStop(*ctx)));
    assert((at_end.reports())(at_end.history(), none));
    plugin_metrics::law_stop_clears_the_figures(h, *ctx, none.stages@);
}

/// All rows of one sample's report are of its group and stage, so no two can stand in order.
proof fn lemma_rows_are_one(
    h: Seq<PluginEvent>,
    sample: StageSample,
    stages: Seq<StageLatencySummary>,
    i: int,
    j: int,
)
    requires
        h == seq![PluginEvent::Sample(sample)],
        plugin_metrics::is_report(h, stages),
        0 <= i < stages.len(),
        0 <= j < stages.len(),
    ensures
        i == j,
{
    lemma_live_one(sample);
    assert(plugin_metrics::live(h, stages[i].group, stages[i].stage).len() > 0);
    assert(plugin_metrics::live(h, stages[j].group, stages[j].stage).len() > 0);
    if i < j {
        assert(crate::order::pair_lt(
            plugin_metrics::row_key(stages[i].group, stages[i].stage),
            plugin_metrics::row_key(stages[j].group, stages[j].stage),
        ));
    }
    if j < i {
        assert(crate::order::pair_lt(
            plugin_metrics::row_key(stages[j].group, stages[j].stage),
            plugin_metrics::row_key(stages[i].group, stages[i].stage),
        ));
    }
}

proof fn lemma_live_one(sample: StageSample)
    ensures
        forall|g: GroupId, st: ProposeStage| #[trigger]
            plugin_metrics::live(seq![PluginEvent::Sample(sample)], g, st) == (if g == sample.group
                && st == sample.stage {
                seq![sample]
            } else {
                Seq::<StageSample>::empty()
            }),
{
    let h = seq![PluginEvent::Sample(sample)];
    assert forall|g: GroupId, st: ProposeStage| #[trigger]
        plugin_metrics::live(h, g, st) == (if g == sample.group && st == sample.stage {
            seq![sample]
        } else {
            Seq::<StageSample>::empty()
        }) by {
        reveal_with_fuel(plugin_metrics::live, 2);
        assert(h.drop_last() =~= Seq::<PluginEvent>::empty());
        assert(h.last() == PluginEvent::Sample(sample));
        assert(Seq::<StageSample>::empty().push(sample) =~= seq![sample]);
    }
}

proof fn lemma_summary_of_one(sample: StageSample, us: u64, s: StageLatencySummary)
    requires
        plugin_metrics::is_summary(seq![sample], s),
        us == plugin_metrics::micros(sample.duration),
    ensures
        s.count == 1,
        s.ok_count == (if sample.ok {
            1u64
        } else {
            0u64
        }),
        s.sum_us == us,
        s.max_us == us,
        s.p50_us == us,
        s.p99_us == us,
{
    let v = seq![sample];
    reveal_with_fuel(plugin_metrics::successes, 2);
    reveal_with_fuel(plugin_metrics::total_us, 2);
    reveal_with_fuel(plugin_metrics::longest_us, 2);
    assert(v.drop_last() =~= Seq::<StageSample>::empty());
    let recent = plugin_metrics::recent_of(v);
    assert(recent =~= seq![us]);
    assert(plugin_metrics::is_rising(recent));
    assert(plugin_metrics::rank(1, 50) == 0);
    assert(plugin_metrics::rank(1, 99) == 0);
    let a = choose|x: Seq<u64>| #[trigger]
        plugin_metrics::is_rising(x) && x.to_multiset() == recent.to_multiset() && s.p50_us
            == x[plugin_metrics::rank(1, 50)];
    let b = choose|x: Seq<u64>| #[trigger]
        plugin_metrics::is_rising(x) && x.to_multiset() == recent.to_multiset() && s.p99_us
            == x[plugin_metrics::rank(1, 99)];
    plugin_metrics::lemma_rising_is_unique(a, recent);
    plugin_metrics::lemma_rising_is_unique(b, recent);
}

/// Of any history, what a latency plugin reports has its rows by rising group, and by stage within a
/// group; each row counts the samples of its group and stage since the node last stopped, with their
/// sum as far as it fits and the longest of them.
pub proof fn law_rows_sum_their_samples_up(
    plugin: &SegmentedLatencyMetrics,
    s: MetricsSnapshot,
    i: int,
    j: int,
)
    requires
        call_ensures(<SegmentedLatencyMetrics as MetricsPlugin>::snapshot, (plugin,), s),
    ensures
        0 <= i < j < s.stages@.len() ==> s.stages@[i].group <= s.stages@[j].group && (
        s.stages@[i].group != s.stages@[j].group || s.stages@[i].stage != s.stages@[j].stage),
        0 <= i < s.stages@.len() ==> {
            let row = s.stages@[i];
            let samples = plugin_metrics::live(plugin.history(), row.group, row.stage);
            &&& samples.len() > 0
            &&& samples.len() <= u64::MAX ==> row.count == samples.len() && row.ok_count
                <= row.count
            &&& plugin_metrics::total_us(samples) <= u64::MAX ==> row.sum_us
                == plugin_metrics::total_us(samples)
            &&& row.p50_us <= row.p99_us <= row.max_us
        },
{
    assert((plugin.reports())(plugin.history(), s));
    if 0 <= i < j < s.stages@.len() {
        assert(crate::order::pair_lt(
            plugin_metrics::row_key(s.stages@[i].group, s.stages@[i].stage),
            plugin_metrics::row_key(s.stages@[j].group, s.stages@[j].stage),
        ));
    }
    if 0 <= i < s.stages@.len() {
        let row = s.stages@[i];
        let samples = plugin_metrics::live(plugin.history(), row.group, row.stage);
        assert(plugin_metrics::is_summary(samples, row));
        plugin_metrics::law_figures_are_ordered(samples, row);
        lemma_successes(samples);
    }
}

proof fn lemma_successes(samples: Seq<StageSample>)
    ensures
        plugin_metrics::successes(samples) <= samples.len(),
    decreases samples.len(),
{
    if samples.len() > 0 {
        lemma_successes(samples.drop_last());
    }
}

/// The median and the 99th percentile of a summary are those of the recent timings, sorted.
pub proof fn law_summary_has_the_percentiles(
    agg: &StageAgg,
    group: GroupId,
    stage: ProposeStage,
    r: StageLatencySummary,
    recent: &Vec<u64>,
    sorted: &Vec<u64>,
    median: u64,
    high: u64,
)
    requires
        call_ensures(StageAgg::summary, (agg, group, stage), r),
        *recent == agg.recent_us,
        call_ensures(sorted_copy, (recent,), *sorted),
        call_ensures(percentile, (sorted, 50u64), median),
        call_ensures(percentile, (sorted, 99u64), high),
    ensures
        r.p50_us == median,
        r.p99_us == high,
{
    let v = agg.recent_us@;
    if v.len() > 0 {
        assert(plugin_metrics::is_rising(sorted@));
        assert(plugin_metrics::is_percentile(v, 50, median));
        assert(plugin_metrics::is_percentile(v, 99, high));
        plugin_metrics::law_percentile_is_unique(v, v, 50, r.p50_us, median);
        plugin_metrics::law_percentile_is_unique(v, v, 99, r.p99_us, high);
    }
}

/// Timings that are new count nothing.
pub proof fn law_new_timings_are_none(agg: StageAgg)
    requires
        call_ensures(<StageAgg as Default>::default, (), agg),
    ensures
        agg.count == 0,
        agg.ok_count == 0,
        agg.sum_us == 0,
        agg.max_us == 0,
        agg.recent_us@.len() == 0,
{
}

} // verus!
