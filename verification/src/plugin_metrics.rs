//! Latency of proposals, by group and stage.

use vstd::prelude::*;

use crate::duration::Duration;
use crate::order;
use crate::plugin::{
    MetricsPlugin, MetricsSnapshot, PluginContext, PluginEvent, ProposeStage, StageLatencySummary,
    StageSample,
};
use crate::type_config::GroupId;

verus! {

broadcast use vstd::seq_lib::group_to_multiset_ensures;

/// How many of the latest timings the percentiles are taken from.
pub const RECENT_CAP: usize = 4096;

/// The timings of one stage of one group.
#[derive(Debug)]
pub struct StageAgg {
    pub count: u64,
    pub ok_count: u64,
    pub sum_us: u64,
    pub max_us: u64,
    /// The latest timings, oldest first.
    pub recent_us: Vec<u64>,
}

/// Whole microseconds, as far as they fit.
pub open spec fn micros(d: Duration) -> u64 {
    if d.nanos / 1000 > u64::MAX {
        u64::MAX
    } else {
        (d.nanos / 1000) as u64
    }
}

/// All values are in rising order.
pub open spec fn is_rising(s: Seq<u64>) -> bool {
    forall|i: int, j: int| 0 <= i < j < s.len() ==> s[i] <= s[j]
}

/// The place of the percentile in `n` sorted values: `percent` hundredths of the way from the
/// first to the last, rounded to the nearest, halves up.
pub open spec fn rank(n: int, percent: int) -> int {
    ((n - 1) * percent + 50) / 100
}

/// `v` is the percentile of `values`; 0 for none.
pub open spec fn is_percentile(values: Seq<u64>, percent: int, v: u64) -> bool {
    if values.len() == 0 {
        v == 0
    } else {
        exists|sorted: Seq<u64>| #[trigger]
            is_rising(sorted) && sorted.to_multiset() == values.to_multiset() && v == sorted[rank(
                values.len() as int,
                percent,
            )]
    }
}

/// The values of `v` in rising order.
pub fn sorted_copy(v: &Vec<u64>) -> (r: Vec<u64>)
    ensures
        is_rising(r@),
        r@.to_multiset() == v@.to_multiset(),
        r@.len() == v@.len(),
{
    let mut out: Vec<u64> = Vec::new();
    let mut n: usize = 0;
    assert(v@.take(0) =~= Seq::empty());
    assert(out@ =~= v@.take(0));
    while n < v.len()
        invariant
            n <= v@.len(),
            out@.len() == n,
            is_rising(out@),
            out@.to_multiset() == v@.take(n as int).to_multiset(),
        decreases v@.len() - n,
    {
        let x: u64 = v[n];
        let mut at: usize = out.len();
        while at > 0 && out[at - 1] > x
            invariant
                at <= out@.len(),
                forall|j: int| at <= j < out@.len() ==> #[trigger] out@[j] > x,
            decreases at,
        {
            at = at - 1;
        }
        let ghost before = out@;
        out.insert(at, x);
        proof {
            vstd::seq_lib::to_multiset_insert(before, at as int, x);
            assert(v@.take(n + 1) =~= v@.take(n as int).push(x));
            assert forall|i: int, j: int| 0 <= i < j < out@.len() implies out@[i] <= out@[j] by {
                let bi = if i < at { i } else { i - 1 };
                let bj = if j < at { j } else { j - 1 };
                if i != at && j != at {
                    assert(out@[i] == before[bi] && out@[j] == before[bj]);
                } else if i == at {
                    assert(out@[j] == before[bj]);
                } else {
                    assert(out@[i] == before[bi]);
                    if bi < at - 1 {
                        assert(before[bi] <= before[at - 1]);
                    }
                }
            }
        }
        n = n + 1;
    }
    assert(v@.take(n as int) =~= v@);
    out
}

/// The percentile of values that are in rising order; 0 for none.
pub fn percentile(sorted: &Vec<u64>, percent: u64) -> (r: u64)
    requires
        percent <= 100,
    ensures
        sorted@.len() == 0 ==> r == 0,
        sorted@.len() > 0 ==> 0 <= rank(sorted@.len() as int, percent as int) < sorted@.len() && r
            == sorted@[rank(sorted@.len() as int, percent as int)],
{
    if sorted.len() == 0 {
        return 0;
    }
    let last: u128 = (sorted.len() - 1) as u128;
    proof {
        assert(last * percent <= last * 100) by (nonlinear_arith)
            requires
                percent <= 100,
                last >= 0,
        ;
        assert(last * percent >= 0) by (nonlinear_arith)
            requires
                percent >= 0,
                last >= 0,
        ;
    }
    let at: u128 = (last * (percent as u128) + 50) / 100;
    sorted[at as usize]
}

/// The number of samples that were successes.
pub open spec fn successes(samples: Seq<StageSample>) -> nat
    decreases samples.len(),
{
    if samples.len() == 0 {
        0
    } else {
        successes(samples.drop_last()) + (if samples.last().ok {
            1nat
        } else {
            0nat
        })
    }
}

/// The time of all samples together, in microseconds.
pub open spec fn total_us(samples: Seq<StageSample>) -> nat
    decreases samples.len(),
{
    if samples.len() == 0 {
        0
    } else {
        total_us(samples.drop_last()) + micros(samples.last().duration) as nat
    }
}

/// The longest time of a sample, in microseconds; 0 for none.
pub open spec fn longest_us(samples: Seq<StageSample>) -> u64
    decreases samples.len(),
{
    if samples.len() == 0 {
        0
    } else {
        let rest = longest_us(samples.drop_last());
        let one = micros(samples.last().duration);
        if one > rest {
            one
        } else {
            rest
        }
    }
}

/// The times of the latest samples, at most [`RECENT_CAP`] of them, oldest first.
pub open spec fn recent_of(samples: Seq<StageSample>) -> Seq<u64> {
    let from = if samples.len() > RECENT_CAP {
        samples.len() - RECENT_CAP
    } else {
        0
    };
    samples.skip(from).map_values(|s: StageSample| micros(s.duration))
}

/// A count of `n`, as far as 64 bits hold it.
pub open spec fn counted(n: nat) -> u64 {
    (n % 0x1_0000_0000_0000_0000) as u64
}

/// A sum of `n`, or the highest number where that does not fit.
pub open spec fn capped(n: nat) -> u64 {
    if n > u64::MAX {
        u64::MAX
    } else {
        n as u64
    }
}

/// `s` sums the samples up.
pub open spec fn is_summary(samples: Seq<StageSample>, s: StageLatencySummary) -> bool {
    &&& s.count == counted(samples.len())
    &&& s.ok_count == counted(successes(samples))
    &&& s.sum_us == capped(total_us(samples))
    &&& s.max_us == longest_us(samples)
    &&& is_percentile(recent_of(samples), 50, s.p50_us)
    &&& is_percentile(recent_of(samples), 99, s.p99_us)
}

impl Default for StageAgg {
    fn default() -> (r: Self)
        ensures
            r.holds(Seq::empty()),
    {
        let r = StageAgg { count: 0, ok_count: 0, sum_us: 0, max_us: 0, recent_us: Vec::new() };
        assert(r.recent_us@ =~= recent_of(Seq::empty()));
        r
    }
}

/// `after` is `before` with one more timing. Counts go round at 64 bits, the sum stops there.
pub open spec fn is_recorded(
    before: StageAgg,
    after: StageAgg,
    duration: Duration,
    ok: bool,
) -> bool {
    &&& after.count == counted((before.count + 1) as nat)
    &&& after.ok_count == (if ok {
        counted((before.ok_count + 1) as nat)
    } else {
        before.ok_count
    })
    &&& after.sum_us == capped((before.sum_us + micros(duration)) as nat)
    &&& after.max_us == (if micros(duration) > before.max_us {
        micros(duration)
    } else {
        before.max_us
    })
    &&& after.recent_us@ == (if before.recent_us@.len() >= RECENT_CAP {
        before.recent_us@.drop_first()
    } else {
        before.recent_us@
    }).push(micros(duration))
}

impl StageAgg {
    /// These are the timings of `samples`.
    pub open spec fn holds(&self, samples: Seq<StageSample>) -> bool {
        &&& self.count == counted(samples.len())
        &&& self.ok_count == counted(successes(samples))
        &&& self.sum_us == capped(total_us(samples))
        &&& self.max_us == longest_us(samples)
        &&& self.recent_us@ == recent_of(samples)
    }

    /// Takes one timing in.
    pub fn record(&mut self, duration: Duration, ok: bool)
        ensures
            is_recorded(*old(self), *final(self), duration, ok),
    {
        let whole: u128 = duration.as_micros();
        let us: u64 = if whole > u64::MAX as u128 {
            u64::MAX
        } else {
            whole as u64
        };
        self.count = self.count.wrapping_add(1);
        if ok {
            self.ok_count = self.ok_count.wrapping_add(1);
        }
        self.sum_us = self.sum_us.saturating_add(us);
        if us > self.max_us {
            self.max_us = us;
        }
        if self.recent_us.len() >= RECENT_CAP {
            self.recent_us.remove(0);
            assert(self.recent_us@ =~= old(self).recent_us@.drop_first());
        }
        self.recent_us.push(us);
    }

    /// The timings in figures.
    pub fn summary(&self, group: GroupId, stage: ProposeStage) -> (r: StageLatencySummary)
        ensures
            r.group == group,
            r.stage == stage,
            r.count == self.count,
            r.ok_count == self.ok_count,
            r.sum_us == self.sum_us,
            r.max_us == self.max_us,
            is_percentile(self.recent_us@, 50, r.p50_us),
            is_percentile(self.recent_us@, 99, r.p99_us),
    {
        let sorted = sorted_copy(&self.recent_us);
        StageLatencySummary {
            group,
            stage,
            count: self.count,
            ok_count: self.ok_count,
            sum_us: self.sum_us,
            max_us: self.max_us,
            p50_us: percentile(&sorted, 50),
            p99_us: percentile(&sorted, 99),
        }
    }
}

/// One more timing that is recorded is one more sample held: after any number of them the timings
/// are those of all the samples, in order.
pub proof fn law_each_record_is_one_more_sample(
    before: StageAgg,
    after: StageAgg,
    samples: Seq<StageSample>,
    s: StageSample,
)
    requires
        before.holds(samples),
        is_recorded(before, after, s.duration, s.ok),
    ensures
        after.holds(samples.push(s)),
{
    let more = samples.push(s);
    assert(more.drop_last() =~= samples);
    assert(more.last() == s);
    assert(after.recent_us@ =~= recent_of(more));
}

/// The samples of one stage of one group since the node last stopped.
pub open spec fn live(h: Seq<PluginEvent>, group: GroupId, stage: ProposeStage) -> Seq<StageSample>
    decreases h.len(),
{
    if h.len() == 0 {
        Seq::empty()
    } else {
        match h.last() {
            PluginEvent::NodeStop(_) => Seq::empty(),
            PluginEvent::Sample(s) => if s.group == group && s.stage == stage {
                live(h.drop_last(), group, stage).push(s)
            } else {
                live(h.drop_last(), group, stage)
            },
            _ => live(h.drop_last(), group, stage),
        }
    }
}

/// By what summaries are ordered: group first, then stage.
pub open spec fn row_key(group: GroupId, stage: ProposeStage) -> (u64, u64) {
    (group, stage.number())
}

/// The summaries are those of the samples since the node last stopped: one for each group and
/// stage with a sample, by rising group and stage.
pub open spec fn is_report(h: Seq<PluginEvent>, stages: Seq<StageLatencySummary>) -> bool {
    &&& forall|i: int, j: int|
        0 <= i < j < stages.len() ==> order::pair_lt(
            row_key((#[trigger] stages[i]).group, stages[i].stage),
            row_key((#[trigger] stages[j]).group, stages[j].stage),
        )
    &&& forall|i: int|
        0 <= i < stages.len() ==> live(h, (#[trigger] stages[i]).group, stages[i].stage).len() > 0
            && is_summary(live(h, stages[i].group, stages[i].stage), stages[i])
    &&& forall|g: GroupId, st: ProposeStage| #[trigger]
        live(h, g, st).len() > 0 ==> exists|i: int|
            0 <= i < stages.len() && (#[trigger] stages[i]).group == g && stages[i].stage == st
}

/// The timings of one group and stage.
struct StageRow {
    group: GroupId,
    stage: ProposeStage,
    agg: StageAgg,
}

/// Collects the latency of proposals, by group and stage.
pub struct SegmentedLatencyMetrics {
    rows: Vec<StageRow>,
    told: Ghost<Seq<PluginEvent>>,
}

spec fn key_at(rows: Seq<StageRow>, i: int) -> (u64, u64) {
    row_key(rows[i].group, rows[i].stage)
}

spec fn rows_rise(rows: Seq<StageRow>) -> bool {
    forall|i: int, j: int|
        0 <= i < j < rows.len() ==> order::pair_lt(
            #[trigger] key_at(rows, i),
            #[trigger] key_at(rows, j),
        )
}

spec fn row_holds(rows: Seq<StageRow>, i: int, h: Seq<PluginEvent>) -> bool {
    &&& live(h, rows[i].group, rows[i].stage).len() > 0
    &&& rows[i].agg.holds(live(h, rows[i].group, rows[i].stage))
}

/// The rows hold the live samples of `h`, each group and stage its own, by rising key.
spec fn rows_hold(rows: Seq<StageRow>, h: Seq<PluginEvent>) -> bool {
    &&& rows_rise(rows)
    &&& forall|i: int| 0 <= i < rows.len() ==> #[trigger] row_holds(rows, i, h)
    &&& forall|g: GroupId, st: ProposeStage| #[trigger]
        live(h, g, st).len() > 0 ==> has_row(rows, g, st)
}

spec fn has_row(rows: Seq<StageRow>, g: GroupId, st: ProposeStage) -> bool {
    exists|i: int| 0 <= i < rows.len() && (#[trigger] rows[i]).group == g && rows[i].stage == st
}

fn stage_number(stage: ProposeStage) -> (r: u64)
    ensures
        r == stage.number(),
{
    match stage {
        ProposeStage::ClientEnqueued => 0,
        ProposeStage::ClientWrite => 1,
        ProposeStage::LeaderAppend => 2,
        ProposeStage::QuorumAck => 3,
        ProposeStage::Committed => 4,
        ProposeStage::Applied => 5,
    }
}

/// The position of the first row whose key is not below that of `group` and `stage`.
fn find_row(rows: &Vec<StageRow>, group: GroupId, stage: ProposeStage) -> (at: usize)
    requires
        rows_rise(rows@),
    ensures
        at <= rows@.len(),
        forall|j: int|
            0 <= j < at ==> order::pair_lt(#[trigger] key_at(rows@, j), row_key(group, stage)),
        forall|j: int|
            at <= j < rows@.len() ==> !order::pair_lt(
                #[trigger] key_at(rows@, j),
                row_key(group, stage),
            ),
{
    let key: (u64, u64) = (group, stage_number(stage));
    let mut at: usize = 0;
    while at < rows.len()
        invariant
            rows_rise(rows@),
            at <= rows@.len(),
            key == row_key(group, stage),
            forall|j: int| 0 <= j < at ==> order::pair_lt(#[trigger] key_at(rows@, j), key),
        decreases rows@.len() - at,
    {
        let here = (rows[at].group, stage_number(rows[at].stage));
        assert(here == key_at(rows@, at as int));
        if !order::pair_less(here, key) {
            assert forall|j: int| at <= j < rows@.len() implies !order::pair_lt(
                #[trigger] key_at(rows@, j),
                key,
            ) by {
                if j > at {
                    assert(order::pair_lt(key_at(rows@, at as int), key_at(rows@, j)));
                }
            }
            return at;
        }
        at = at + 1;
    }
    at
}

/// What was live stays live, but for the samples of the group and stage that one was added to.
proof fn lemma_live_push(h: Seq<PluginEvent>, s: StageSample)
    ensures
        forall|g: GroupId, st: ProposeStage| #[trigger]
            live(h.push(PluginEvent::Sample(s)), g, st) == (if g == s.group && st == s.stage {
                live(h, g, st).push(s)
            } else {
                live(h, g, st)
            }),
{
    assert(h.push(PluginEvent::Sample(s)).drop_last() =~= h);
}

proof fn lemma_row_updated(
    start: Seq<StageRow>,
    h: Seq<PluginEvent>,
    s: StageSample,
    at: int,
    agg: StageAgg,
)
    requires
        rows_hold(start, h),
        0 <= at < start.len(),
        start[at].group == s.group,
        start[at].stage == s.stage,
        agg.holds(live(h, s.group, s.stage).push(s)),
    ensures
        rows_hold(
            start.update(at, (StageRow { group: s.group, stage: s.stage, agg })),
            h.push(PluginEvent::Sample(s)),
        ),
{
    let next = h.push(PluginEvent::Sample(s));
    let after = start.update(at, (StageRow { group: s.group, stage: s.stage, agg }));
    lemma_live_push(h, s);
    assert forall|i: int, j: int| 0 <= i < j < after.len() implies order::pair_lt(
        #[trigger] key_at(after, i),
        #[trigger] key_at(after, j),
    ) by {
        assert(key_at(after, i) == key_at(start, i) && key_at(after, j) == key_at(start, j));
    }
    assert forall|i: int| 0 <= i < after.len() implies #[trigger] row_holds(after, i, next) by {
        assert(row_holds(start, i, h));
        if i != at {
            lemma_other_key(start, i, at);
        }
    }
    assert forall|g: GroupId, st: ProposeStage| #[trigger]
        live(next, g, st).len() > 0 implies has_row(after, g, st) by {
        if g == s.group && st == s.stage {
            assert(after[at].group == g && after[at].stage == st);
        } else {
            assert(live(h, g, st).len() > 0);
            assert(has_row(start, g, st));
            let i = choose|i: int|
                0 <= i < start.len() && (#[trigger] start[i]).group == g && start[i].stage == st;
            assert(after[i].group == g && after[i].stage == st);
        }
    }
}

/// Rows at different positions are of different groups or stages.
proof fn lemma_other_key(rows: Seq<StageRow>, i: int, j: int)
    requires
        rows_rise(rows),
        0 <= i < rows.len(),
        0 <= j < rows.len(),
        i != j,
    ensures
        !(rows[i].group == rows[j].group && rows[i].stage == rows[j].stage),
{
    if i < j {
        assert(order::pair_lt(key_at(rows, i), key_at(rows, j)));
    } else {
        assert(order::pair_lt(key_at(rows, j), key_at(rows, i)));
    }
}

proof fn lemma_row_added(
    start: Seq<StageRow>,
    h: Seq<PluginEvent>,
    s: StageSample,
    at: int,
    agg: StageAgg,
)
    requires
        rows_hold(start, h),
        0 <= at <= start.len(),
        forall|j: int|
            0 <= j < at ==> order::pair_lt(#[trigger] key_at(start, j), row_key(s.group, s.stage)),
        forall|j: int|
            at <= j < start.len() ==> order::pair_lt(
                row_key(s.group, s.stage),
                #[trigger] key_at(start, j),
            ),
        agg.holds(Seq::empty().push(s)),
    ensures
        rows_hold(
            start.insert(at, (StageRow { group: s.group, stage: s.stage, agg })),
            h.push(PluginEvent::Sample(s)),
        ),
{
    let next = h.push(PluginEvent::Sample(s));
    let after = start.insert(at, (StageRow { group: s.group, stage: s.stage, agg }));
    lemma_live_push(h, s);
    assert(live(h, s.group, s.stage).len() == 0) by {
        if live(h, s.group, s.stage).len() > 0 {
            assert(has_row(start, s.group, s.stage));
            let i = choose|i: int|
                0 <= i < start.len() && (#[trigger] start[i]).group == s.group && start[i].stage
                    == s.stage;
            assert(key_at(start, i) == row_key(s.group, s.stage));
        }
    }
    assert(live(h, s.group, s.stage) =~= Seq::empty());
    assert forall|i: int, j: int| 0 <= i < j < after.len() implies order::pair_lt(
        #[trigger] key_at(after, i),
        #[trigger] key_at(after, j),
    ) by {
        let si = if i < at { i } else { i - 1 };
        let sj = if j < at { j } else { j - 1 };
        if i != at {
            assert(key_at(after, i) == key_at(start, si));
        }
        if j != at {
            assert(key_at(after, j) == key_at(start, sj));
        }
    }
    assert forall|i: int| 0 <= i < after.len() implies #[trigger] row_holds(after, i, next) by {
        if i != at {
            let si = if i < at { i } else { i - 1 };
            assert(after[i] == start[si]);
            assert(row_holds(start, si, h));
            assert(key_at(start, si) != row_key(s.group, s.stage));
        }
    }
    assert forall|g: GroupId, st: ProposeStage| #[trigger]
        live(next, g, st).len() > 0 implies has_row(after, g, st) by {
        if g == s.group && st == s.stage {
            assert(after[at].group == g && after[at].stage == st);
        } else {
            assert(live(h, g, st).len() > 0);
            assert(has_row(start, g, st));
            let i = choose|i: int|
                0 <= i < start.len() && (#[trigger] start[i]).group == g && start[i].stage == st;
            if i < at {
                assert(after[i].group == g && after[i].stage == st);
            } else {
                assert(after[i + 1].group == g && after[i + 1].stage == st);
            }
        }
    }
}

/// Takes `sample` into its row, a new one where there is none.
fn absorb(rows: &mut Vec<StageRow>, sample: StageSample, Ghost(h): Ghost<Seq<PluginEvent>>)
    requires
        rows_hold(old(rows)@, h),
    ensures
        rows_hold(final(rows)@, h.push(PluginEvent::Sample(sample))),
{
    let ghost start = rows@;
    let at: usize = find_row(rows, sample.group, sample.stage);
    if at < rows.len() && rows[at].group == sample.group && rows[at].stage == sample.stage {
        let ghost row = rows@[at as int];
        rows[at].agg.record(sample.duration, sample.ok);
        proof {
            assert(row_holds(start, at as int, h));
            law_each_record_is_one_more_sample(
                row.agg,
                rows@[at as int].agg,
                live(h, sample.group, sample.stage),
                sample,
            );
            lemma_row_updated(start, h, sample, at as int, rows@[at as int].agg);
            assert(rows@ =~= start.update(
                at as int,
                (StageRow {
                    group: sample.group,
                    stage: sample.stage,
                    agg: rows@[at as int].agg,
                }),
            ));
        }
    } else {
        let mut agg = StageAgg::default();
        let ghost fresh = agg;
        agg.record(sample.duration, sample.ok);
        proof {
            law_each_record_is_one_more_sample(fresh, agg, Seq::empty(), sample);
            assert forall|j: int| at <= j < start.len() implies order::pair_lt(
                row_key(sample.group, sample.stage),
                #[trigger] key_at(start, j),
            ) by {
                lemma_stages_differ(start[at as int].stage, sample.stage);
                if j > at {
                    assert(order::pair_lt(key_at(start, at as int), key_at(start, j)));
                }
                assert(!order::pair_lt(
                    key_at(start, at as int),
                    row_key(sample.group, sample.stage),
                ));
            }
            lemma_row_added(start, h, sample, at as int, agg);
        }
        rows.insert(at, StageRow { group: sample.group, stage: sample.stage, agg });
    }
}

/// Two stages with the same number are the same.
proof fn lemma_stages_differ(a: ProposeStage, b: ProposeStage)
    ensures
        a.number() == b.number() <==> a == b,
{
}

/// The rows hold as before after an event that is no sample and no stop.
proof fn lemma_no_sample(rows: Seq<StageRow>, h: Seq<PluginEvent>, e: PluginEvent)
    requires
        rows_hold(rows, h),
        !(e is Sample),
        !(e is NodeStop),
    ensures
        rows_hold(rows, h.push(e)),
{
    let next = h.push(e);
    assert(next.drop_last() =~= h);
    assert(forall|g: GroupId, st: ProposeStage| #[trigger] live(next, g, st) == live(h, g, st));
    assert forall|i: int| 0 <= i < rows.len() implies #[trigger] row_holds(rows, i, next) by {
        assert(row_holds(rows, i, h));
    }
}

/// What a latency plugin may report, by what it has been told.
pub open spec fn latency_reports() -> spec_fn(Seq<PluginEvent>, MetricsSnapshot) -> bool {
    |h: Seq<PluginEvent>, s: MetricsSnapshot|
        s.plugin@ == "segmented-latency"@ && is_report(h, s.stages@)
}

impl SegmentedLatencyMetrics {
    #[verifier::type_invariant]
    spec fn inv(&self) -> bool {
        rows_hold(self.rows@, self.told@)
    }

    pub fn new() -> (r: Self)
        ensures
            r.history() == Seq::<PluginEvent>::empty(),
    {
        SegmentedLatencyMetrics { rows: Vec::new(), told: Ghost(Seq::empty()) }
    }

    /// Takes the rows out, and leaves a plugin that has been told nothing.
    fn take_rows(&mut self) -> (rows: Vec<StageRow>)
        ensures
            rows_hold(rows@, old(self).told@),
    {
        proof {
            use_type_invariant(&*self);
        }
        let mut taken = SegmentedLatencyMetrics::new();
        std::mem::swap(&mut taken, self);
        taken.rows
    }
}

impl MetricsPlugin for SegmentedLatencyMetrics {
    closed spec fn history(&self) -> Seq<PluginEvent> {
        self.told@
    }

    open spec fn reports(&self) -> spec_fn(Seq<PluginEvent>, MetricsSnapshot) -> bool {
        latency_reports()
    }

    fn name(&self) -> (r: &'static str)
        ensures
            r@ == "segmented-latency"@,
    {
        "segmented-latency"
    }

    fn on_node_start(&mut self, ctx: &PluginContext) {
        let ghost e = PluginEvent::NodeStart(*ctx);
        let rows = self.take_rows();
        proof {
            lemma_no_sample(rows@, old(self).told@, e);
        }
        *self = SegmentedLatencyMetrics { rows, told: Ghost(old(self).told@.push(e)) };
    }

    /// The timings of a node that stops are dropped.
    fn on_node_stop(&mut self, ctx: &PluginContext) {
        let ghost e = PluginEvent::NodeStop(*ctx);
        *self = SegmentedLatencyMetrics { rows: Vec::new(), told: Ghost(self.told@.push(e)) };
    }

    fn on_group_ready(&mut self, ctx: &PluginContext, group: GroupId) {
        let ghost e = PluginEvent::GroupReady(*ctx, group);
        let rows = self.take_rows();
        proof {
            lemma_no_sample(rows@, old(self).told@, e);
        }
        *self = SegmentedLatencyMetrics { rows, told: Ghost(old(self).told@.push(e)) };
    }

    fn record_stage(&mut self, sample: StageSample) {
        let ghost e = PluginEvent::Sample(sample);
        let mut rows = self.take_rows();
        absorb(&mut rows, sample, Ghost(old(self).told@));
        *self = SegmentedLatencyMetrics { rows, told: Ghost(old(self).told@.push(e)) };
    }

    fn snapshot(&self) -> (r: MetricsSnapshot) {
        proof {
            use_type_invariant(self);
        }
        let ghost h = self.told@;
        let mut stages: Vec<StageLatencySummary> = Vec::new();
        let mut i: usize = 0;
        while i < self.rows.len()
            invariant
                i <= self.rows@.len(),
                h == self.told@,
                rows_hold(self.rows@, h),
                stages@.len() == i,
                forall|j: int|
                    0 <= j < i ==> (#[trigger] stages@[j]).group == self.rows@[j].group
                        && stages@[j].stage == self.rows@[j].stage && is_summary(
                        live(h, stages@[j].group, stages@[j].stage),
                        stages@[j],
                    ),
            decreases self.rows@.len() - i,
        {
            let row = &self.rows[i];
            assert(row_holds(self.rows@, i as int, h));
            stages.push(row.agg.summary(row.group, row.stage));
            i = i + 1;
        }
        proof {
            let rows = self.rows@;
            assert forall|i: int, j: int| 0 <= i < j < stages@.len() implies order::pair_lt(
                row_key((#[trigger] stages@[i]).group, stages@[i].stage),
                row_key((#[trigger] stages@[j]).group, stages@[j].stage),
            ) by {
                assert(order::pair_lt(key_at(rows, i), key_at(rows, j)));
            }
            assert forall|i: int| 0 <= i < stages@.len() implies live(
                h,
                (#[trigger] stages@[i]).group,
                stages@[i].stage,
            ).len() > 0 && is_summary(live(h, stages@[i].group, stages@[i].stage), stages@[i]) by {
                assert(row_holds(rows, i, h));
            }
            assert forall|g: GroupId, st: ProposeStage| #[trigger]
                live(h, g, st).len() > 0 implies exists|i: int|
                0 <= i < stages@.len() && (#[trigger] stages@[i]).group == g && stages@[i].stage
                    == st by {
                assert(has_row(rows, g, st));
                let i = choose|i: int|
                    0 <= i < rows.len() && (#[trigger] rows[i]).group == g && rows[i].stage == st;
                assert(stages@[i].group == g && stages@[i].stage == st);
            }
        }
        MetricsSnapshot { plugin: "segmented-latency", stages }
    }
}

/// There is one percentile of the values, in whatever order they came.
pub proof fn law_percentile_is_unique(
    a: Seq<u64>,
    b: Seq<u64>,
    percent: int,
    v: u64,
    w: u64,
)
    requires
        a.to_multiset() == b.to_multiset(),
        is_percentile(a, percent, v),
        is_percentile(b, percent, w),
    ensures
        v == w,
{
    assert(a.len() == a.to_multiset().len());
    assert(b.len() == b.to_multiset().len());
    if a.len() > 0 {
        let x = choose|sorted: Seq<u64>| #[trigger]
            is_rising(sorted) && sorted.to_multiset() == a.to_multiset() && v == sorted[rank(
                a.len() as int,
                percent,
            )];
        let y = choose|sorted: Seq<u64>| #[trigger]
            is_rising(sorted) && sorted.to_multiset() == b.to_multiset() && w == sorted[rank(
                b.len() as int,
                percent,
            )];
        lemma_rising_is_unique(x, y);
    }
}

pub proof fn lemma_rising_is_unique(x: Seq<u64>, y: Seq<u64>)
    requires
        is_rising(x),
        is_rising(y),
        x.to_multiset() == y.to_multiset(),
    ensures
        x == y,
{
    let leq = |a: u64, b: u64| a <= b;
    vstd::seq_lib::lemma_sorted_unique(x, y, leq);
}

/// No timing of the samples is above the longest.
proof fn lemma_longest(samples: Seq<StageSample>, i: int)
    requires
        0 <= i < samples.len(),
    ensures
        micros(samples[i].duration) <= longest_us(samples),
    decreases samples.len(),
{
    if i < samples.len() - 1 {
        lemma_longest(samples.drop_last(), i);
    }
}

/// Of every summary: the median is at most the 99th percentile, which is at most the longest time.
pub proof fn law_figures_are_ordered(samples: Seq<StageSample>, s: StageLatencySummary)
    requires
        is_summary(samples, s),
    ensures
        s.p50_us <= s.p99_us <= s.max_us,
{
    let recent = recent_of(samples);
    if recent.len() > 0 {
        let n = recent.len() as int;
        let x = choose|sorted: Seq<u64>| #[trigger]
            is_rising(sorted) && sorted.to_multiset() == recent.to_multiset() && s.p50_us
                == sorted[rank(n, 50)];
        let y = choose|sorted: Seq<u64>| #[trigger]
            is_rising(sorted) && sorted.to_multiset() == recent.to_multiset() && s.p99_us
                == sorted[rank(n, 99)];
        lemma_rising_is_unique(x, y);
        assert(y.len() == y.to_multiset().len());
        assert(recent.len() == recent.to_multiset().len());
        assert(0 <= rank(n, 50) <= rank(n, 99) < n);
        assert(y.contains(s.p99_us));
        assert(recent.to_multiset().count(s.p99_us) > 0);
        assert(recent.contains(s.p99_us));
        let i = choose|i: int| 0 <= i < recent.len() && recent[i] == s.p99_us;
        let from = samples.len() - recent.len();
        assert(recent[i] == micros(samples[from + i].duration));
        lemma_longest(samples, from + i);
    }
}

/// After a node stops there is nothing to report until the next sample.
pub proof fn law_stop_clears_the_figures(
    h: Seq<PluginEvent>,
    ctx: PluginContext,
    stages: Seq<StageLatencySummary>,
)
    requires
        is_report(h.push(PluginEvent::NodeStop(ctx)), stages),
    ensures
        stages.len() == 0,
{
    if stages.len() > 0 {
        let first = stages[0];
        assert(live(h.push(PluginEvent::NodeStop(ctx)), first.group, first.stage).len() == 0);
    }
}

/// A hook that tells of no stop makes no difference to what is reported.
pub proof fn lemma_hooks_leave_figures(
    h: Seq<PluginEvent>,
    event: PluginEvent,
    sample: StageSample,
    stages: Seq<StageLatencySummary>,
)
    requires
        event is NodeStart || event is GroupReady,
        is_report(h.push(event).push(PluginEvent::Sample(sample)), stages),
    ensures
        is_report(h.push(PluginEvent::Sample(sample)), stages),
{
    let e = PluginEvent::Sample(sample);
    assert(h.push(event).drop_last() =~= h);
    assert(h.push(event).push(e).drop_last() =~= h.push(event));
    assert(h.push(e).drop_last() =~= h);
    assert forall|g: GroupId, st: ProposeStage| #[trigger]
        live(h.push(e), g, st) == live(h.push(event).push(e), g, st) by {
        assert(live(h.push(event), g, st) == live(h, g, st));
    }
}

/// The report after a sample has a row for its group and stage, with the sample counted in.
pub proof fn lemma_sampled(
    h: Seq<PluginEvent>,
    sample: StageSample,
    stages: Seq<StageLatencySummary>,
)
    requires
        is_report(h.push(PluginEvent::Sample(sample)), stages),
    ensures
        exists|k: int|
            0 <= k < stages.len() && (#[trigger] stages[k]).group == sample.group
                && stages[k].stage == sample.stage && is_summary(
                live(h, sample.group, sample.stage).push(sample),
                stages[k],
            ),
{
    let next = h.push(PluginEvent::Sample(sample));
    assert(next.drop_last() =~= h);
    assert(live(next, sample.group, sample.stage) == live(h, sample.group, sample.stage).push(
        sample,
    ));
    assert(live(next, sample.group, sample.stage).len() > 0);
}

/// The keys of a report's rows, in order.
pub open spec fn report_keys(stages: Seq<StageLatencySummary>) -> Seq<(u64, u64)> {
    stages.map_values(|s: StageLatencySummary| row_key(s.group, s.stage))
}

/// Keys that rise are determined by which keys they are.
proof fn lemma_rising_keys_are_unique(a: Seq<(u64, u64)>, b: Seq<(u64, u64)>)
    requires
        forall|i: int, j: int|
            0 <= i < j < a.len() ==> order::pair_lt(#[trigger] a[i], #[trigger] a[j]),
        forall|i: int, j: int|
            0 <= i < j < b.len() ==> order::pair_lt(#[trigger] b[i], #[trigger] b[j]),
        forall|k: (u64, u64)| #[trigger] a.contains(k) <==> b.contains(k),
    ensures
        a == b,
    decreases a.len(),
{
    if a.len() == 0 {
        if b.len() > 0 {
            assert(b.contains(b[0]));
            assert(a.contains(b[0]));
        }
        assert(a =~= b);
    } else {
        assert(a.contains(a.last()));
        assert(b.contains(a.last()));
        let p = b.index_of(a.last());
        assert(b.contains(b.last()));
        assert(a.contains(b.last()));
        let q = a.index_of(b.last());
        assert(a.last() == b.last()) by {
            if q < a.len() - 1 && p < b.len() - 1 {
                assert(order::pair_lt(a[q], a[a.len() - 1]));
                assert(order::pair_lt(b[p], b[b.len() - 1]));
            }
        }
        let x = a.drop_last();
        let y = b.drop_last();
        assert forall|k: (u64, u64)| #[trigger] x.contains(k) <==> y.contains(k) by {
            if x.contains(k) {
                let i = x.index_of(k);
                assert(a[i] == k);
                assert(order::pair_lt(a[i], a[a.len() - 1]));
                assert(a.contains(k));
                assert(b.contains(k));
                let j = b.index_of(k);
                assert(y[j] == k);
            }
            if y.contains(k) {
                let j = y.index_of(k);
                assert(b[j] == k);
                assert(order::pair_lt(b[j], b[b.len() - 1]));
                assert(b.contains(k));
                assert(a.contains(k));
                let i = a.index_of(k);
                assert(x[i] == k);
            }
        }
        assert forall|i: int, j: int| 0 <= i < j < x.len() implies order::pair_lt(
            #[trigger] x[i],
            #[trigger] x[j],
        ) by {
            assert(order::pair_lt(a[i], a[j]));
        }
        assert forall|i: int, j: int| 0 <= i < j < y.len() implies order::pair_lt(
            #[trigger] y[i],
            #[trigger] y[j],
        ) by {
            assert(order::pair_lt(b[i], b[j]));
        }
        lemma_rising_keys_are_unique(x, y);
        assert(a =~= x.push(a.last()));
        assert(b =~= y.push(b.last()));
    }
}

/// A report has a row for a group and stage exactly where there are samples of it.
proof fn lemma_report_has(h: Seq<PluginEvent>, stages: Seq<StageLatencySummary>, k: (u64, u64))
    requires
        is_report(h, stages),
    ensures
        report_keys(stages).contains(k) <==> exists|st: ProposeStage|
            row_key(k.0, st) == k && (#[trigger] live(h, k.0, st)).len() > 0,
{
    let keys = report_keys(stages);
    if keys.contains(k) {
        let i = keys.index_of(k);
        assert(keys[i] == row_key(stages[i].group, stages[i].stage));
        assert(live(h, stages[i].group, stages[i].stage).len() > 0);
    }
    if exists|st: ProposeStage| row_key(k.0, st) == k && (#[trigger] live(h, k.0, st)).len() > 0 {
        let st = choose|st: ProposeStage|
            row_key(k.0, st) == k && (#[trigger] live(h, k.0, st)).len() > 0;
        let i = choose|i: int|
            0 <= i < stages.len() && (#[trigger] stages[i]).group == k.0 && stages[i].stage == st;
        assert(keys[i] == k);
    }
}

/// What has been told determines the report: there is one for each history.
pub proof fn law_report_is_unique(
    h: Seq<PluginEvent>,
    a: Seq<StageLatencySummary>,
    b: Seq<StageLatencySummary>,
)
    requires
        is_report(h, a),
        is_report(h, b),
    ensures
        a == b,
{
    let x = report_keys(a);
    let y = report_keys(b);
    assert forall|k: (u64, u64)| #[trigger] x.contains(k) <==> y.contains(k) by {
        lemma_report_has(h, a, k);
        lemma_report_has(h, b, k);
    }
    assert forall|i: int, j: int| 0 <= i < j < x.len() implies order::pair_lt(
        #[trigger] x[i],
        #[trigger] x[j],
    ) by {
        assert(order::pair_lt(row_key(a[i].group, a[i].stage), row_key(a[j].group, a[j].stage)));
    }
    assert forall|i: int, j: int| 0 <= i < j < y.len() implies order::pair_lt(
        #[trigger] y[i],
        #[trigger] y[j],
    ) by {
        assert(order::pair_lt(row_key(b[i].group, b[i].stage), row_key(b[j].group, b[j].stage)));
    }
    lemma_rising_keys_are_unique(x, y);
    assert(a.len() == b.len());
    assert forall|i: int| 0 <= i < a.len() implies #[trigger] a[i] == b[i] by {
        assert(x[i] == y[i]);
        lemma_stages_differ(a[i].stage, b[i].stage);
        let samples = live(h, a[i].group, a[i].stage);
        assert(is_summary(samples, a[i]));
        assert(is_summary(samples, b[i]));
        law_percentile_is_unique(
            recent_of(samples),
            recent_of(samples),
            50,
            a[i].p50_us,
            b[i].p50_us,
        );
        law_percentile_is_unique(
            recent_of(samples),
            recent_of(samples),
            99,
            a[i].p99_us,
            b[i].p99_us,
        );
    }
    assert(a =~= b);
}

} // verus!
