//! What a group's log keeps, from call to call and from one opening to the next.

use vstd::prelude::*;

use crate::config::FileLogSyncLevel;
use crate::file_log;
use crate::file_log::{DataError, FileLogInner, FlushBatch, HardState, LogState};
use crate::flush;
use crate::flush::{flush_pipeline, FlushAction, FlushEvent, FlushStage, FlushStep, IoFault};
use crate::frames;
use crate::log_open;
use crate::log_open::{AppendPlan, FileLogStore};
use crate::log_table;
use crate::log_table::{IndexBound, LogEntry, LogTable};
use crate::rewrite;
use crate::rewrite::{rewrite_log, RewriteAction, RewriteEvent, RewriteStage};
use crate::type_config::{LogId, Vote};

verus! {

/// A vote that is saved is the one read, the hard state handed out for it holds it together with the
/// commit point and the purge point, and it is written at least at `Data` and at least at the log's
/// own level. Nothing else changes.
pub proof fn law_saved_vote_is_read(
    log: &mut FileLogInner,
    vote: Vote,
    out: (HardState, FileLogSyncLevel),
    again: &FileLogInner,
    read: Option<Vote>,
)
    requires
        call_ensures(FileLogInner::save_vote, (log, vote), out),
        *again == *final(log),
        call_ensures(FileLogInner::read_vote, (again,), read),
    ensures
        read == Some(vote),
        out.0.vote == Some(vote),
        out.0.committed == old(log).committed,
        out.0.last_purged_log_id == old(log).last_purged_log_id,
        out.1 != FileLogSyncLevel::Os,
        old(log).sync_level == FileLogSyncLevel::All ==> out.1 == FileLogSyncLevel::All,
        *final(log) == (FileLogInner { vote: Some(vote), ..*old(log) }),
{
}

/// A commit point that is saved is the one read, and the change is noted as unwritten. Nothing else
/// changes.
pub proof fn law_saved_commit_point_is_read(
    log: &mut FileLogInner,
    committed: Option<LogId>,
    again: &FileLogInner,
    read: Option<LogId>,
)
    requires
        call_ensures(FileLogInner::save_committed, (log, committed), ()),
        *again == *final(log),
        call_ensures(FileLogInner::read_committed, (again,), read),
    ensures
        read == committed,
        final(log).hard_state_dirty,
        final(log).vote == old(log).vote,
        final(log).last_purged_log_id == old(log).last_purged_log_id,
        final(log).log == old(log).log,
        final(log).pending_buf == old(log).pending_buf,
        final(log).pending_callbacks == old(log).pending_callbacks,
        final(log).sync_level == old(log).sync_level,
{
}

/// The hard state handed out is the one in memory: vote, commit point and purge point. Once it is
/// noted as written, that note is all that changes.
pub proof fn law_hard_state_is_what_is_in_memory(
    log: &mut FileLogInner,
    before: &FileLogInner,
    out: (HardState, FileLogSyncLevel),
)
    requires
        *before == *old(log),
        call_ensures(FileLogInner::hard_state, (before,), out),
        call_ensures(FileLogInner::hard_state_persisted, (log,), ()),
    ensures
        out.0.vote == before.vote,
        out.0.committed == before.committed,
        out.0.last_purged_log_id == before.last_purged_log_id,
        out.1.number() >= 1,
        out.1.number() >= before.sync_level.number(),
        !final(log).hard_state_dirty,
        *final(log) == (FileLogInner { hard_state_dirty: false, ..*before }),
{
}

/// One call of `flush_pipeline` is one step of a flush run.
pub proof fn law_flush_call_is_one_step<K: Copy>(
    log: &mut FileLogInner,
    stage: FlushStage<K>,
    event: FlushEvent<K>,
    r: (FlushStage<K>, FlushAction<K>),
)
    requires
        old(log).wf(),
        flush::awaits(stage, event),
        call_ensures(flush_pipeline::<K>, (log, stage, event), r),
    ensures
        final(log).wf(),
        flush::flush_moves(*old(log), stage, event, *final(log), r.0, r.1),
{
}

/// One call of `rewrite_log` is one step of a rewrite run.
pub proof fn law_rewrite_call_is_one_step<K: Copy>(
    log: &mut FileLogInner,
    stage: RewriteStage<K>,
    event: RewriteEvent<K>,
    r: (RewriteStage<K>, RewriteAction<K>),
)
    requires
        old(log).wf(),
        rewrite::awaits(stage, event),
        call_ensures(rewrite_log::<K>, (log, stage, event), r),
    ensures
        final(log).wf(),
        rewrite::rewrite_moves(*old(log), stage, event, *final(log), r.0, r.1),
{
}

/// The report of step `i` is that the hard state was written.
pub open spec fn wrote_hard_state<K>(run: Seq<FlushStep<K>>, i: int) -> bool {
    run[i].event is Persisted && run[i].event->Persisted_0 is Ok
}

/// The hard state on disk after step `i`, where it was `disk[i]` before: what the step before handed
/// out, where this one reports it as written.
pub open spec fn disk_after<K>(run: Seq<FlushStep<K>>, disk: Seq<HardState>, i: int) -> HardState {
    if i > 0 && wrote_hard_state(run, i) && run[i - 1].action is Persist {
        run[i - 1].action->state
    } else {
        disk[i]
    }
}

/// What may happen between step `i` and the next. While the hard state is being written nothing
/// does. Else a change of it is noted as unwritten, or was written.
pub open spec fn is_honest_between<K>(
    run: Seq<FlushStep<K>>,
    disk: Seq<HardState>,
    i: int,
) -> bool {
    let after = run[i].after;
    let before = run[i + 1].before;
    if run[i].action is Persist {
        before == after && disk[i + 1] == disk_after(run, disk, i)
    } else {
        ||| before.hard_state_dirty
        ||| disk[i + 1] == before.hard()
        ||| before.hard() == after.hard() && before.hard_state_dirty == after.hard_state_dirty
            && disk[i + 1] == disk_after(run, disk, i)
    }
}

/// Steps of flushes with the hard state on disk before each. At first it is the one in memory,
/// unless a change is noted as unwritten.
pub open spec fn is_flush_life<K>(run: Seq<FlushStep<K>>, disk: Seq<HardState>) -> bool {
    &&& flush::is_flush_run(run)
    &&& disk.len() == run.len()
    &&& run.len() > 0 && !run[0].before.hard_state_dirty ==> disk[0] == run[0].before.hard()
    &&& forall|i: int| 0 <= i && i + 1 < run.len() ==> #[trigger] is_honest_between(run, disk, i)
}

proof fn lemma_flush_keeps_hard_state<K>(run: Seq<FlushStep<K>>, disk: Seq<HardState>, n: int)
    requires
        is_flush_life(run, disk),
        0 <= n < run.len(),
    ensures
        run[n].after.hard() == run[n].before.hard(),
        run[n].action is Persist ==> run[n].action->state == run[n].before.hard()
            && run[n].next is Persisting,
        run[n].next is Persisting ==> run[n].action is Persist,
        !run[n].before.hard_state_dirty ==> disk[n] == run[n].before.hard(),
        !run[n].after.hard_state_dirty ==> disk_after(run, disk, n) == run[n].after.hard(),
    decreases n,
{
    if n > 0 {
        lemma_flush_keeps_hard_state(run, disk, n - 1);
        assert(is_honest_between(run, disk, n - 1));
        assert(run[n].stage == run[n - 1].next);
    }
}

/// Over any run of flush steps: unless a change is noted as unwritten, the hard state on disk has
/// the vote, the commit point and the purge point that the log has in memory.
pub proof fn law_flushes_keep_the_hard_state<K>(
    run: Seq<FlushStep<K>>,
    disk: Seq<HardState>,
    n: int,
)
    requires
        is_flush_life(run, disk),
        0 <= n < run.len(),
        !run[n].after.hard_state_dirty,
    ensures
        disk_after(run, disk, n).vote == run[n].after.vote,
        disk_after(run, disk, n).committed == run[n].after.committed,
        disk_after(run, disk, n).last_purged_log_id == run[n].after.last_purged_log_id,
{
    lemma_flush_keeps_hard_state(run, disk, n);
}

/// A log whose append was answered with success opens again with the vote, the commit point and the
/// purge point that it had: they were on disk when the callback was told.
pub proof fn law_answered_log_opens_with_its_hard_state<K>(
    run: Seq<FlushStep<K>>,
    disk: Seq<HardState>,
    n: int,
    j: int,
    dir: String,
    log: LogTable,
    writer_cap: usize,
    sync_level: FileLogSyncLevel,
    again: FileLogInner,
)
    requires
        is_flush_life(run, disk),
        0 <= n < run.len(),
        run[n].action is Tell,
        0 <= j < run[n].action->told@.len(),
        run[n].action->told@[j].1 is Ok,
        log.wf(),
        call_ensures(
            FileLogInner::opened,
            (dir, disk_after(run, disk, n), log, writer_cap, sync_level),
            again,
        ),
    ensures
        again.vote == run[n].after.vote,
        again.committed == run[n].after.committed,
        again.last_purged_log_id == run[n].after.last_purged_log_id,
        again.log == log,
        again.sync_level == sync_level,
        again.pending_buf@.len() == 0,
        again.pending_callbacks@.len() == 0,
        !again.hard_state_dirty,
{
    assert(run[n].stage is Writing || run[n].stage is Persisting);
    lemma_flush_keeps_hard_state(run, disk, n);
    if n > 0 {
        lemma_flush_keeps_hard_state(run, disk, n - 1);
        assert(run[n].stage == run[n - 1].next);
    }
    assert(again.hard() == disk_after(run, disk, n));
}

/// Every write of log bytes that a flush asks for is at the log's own level and holds all that was
/// pending; every write of the hard state is at least at `Data` and at least at the log's level.
pub proof fn law_flush_writes_at_the_logs_level<K: Copy>(
    log: &mut FileLogInner,
    stage: FlushStage<K>,
    event: FlushEvent<K>,
    r: (FlushStage<K>, FlushAction<K>),
)
    requires
        old(log).wf(),
        flush::awaits(stage, event),
        call_ensures(flush_pipeline::<K>, (log, stage, event), r),
    ensures
        r.1 matches FlushAction::Write { buf, sync_level } ==> sync_level == old(log).sync_level
            && buf@ == old(log).pending_buf@ && final(log).pending_buf@.len() == 0
            && final(log).pending_callbacks@.len() == 0,
        r.1 matches FlushAction::Persist { state, sync_level } ==> sync_level
            != FileLogSyncLevel::Os && (old(log).sync_level == FileLogSyncLevel::All ==> sync_level
            == FileLogSyncLevel::All) && state.vote == old(log).vote && state.committed == old(
            log,
        ).committed && state.last_purged_log_id == old(log).last_purged_log_id,
        final(log).log == old(log).log,
        final(log).vote == old(log).vote,
        final(log).committed == old(log).committed,
        final(log).last_purged_log_id == old(log).last_purged_log_id,
        final(log).sync_level == old(log).sync_level,
{
}

/// A flush that fails tells every callback of its batch of that failure, and ends with it; one whose
/// file could not be opened tells none. What was handed out is not pending any more.
pub proof fn law_failed_flush_ends_with_its_failure<K: Copy>(
    log: &mut FileLogInner,
    callbacks: Vec<u64>,
    event: FlushEvent<K>,
    r: (FlushStage<K>, FlushAction<K>),
    later: &mut FileLogInner,
    end: (FlushStage<K>, FlushAction<K>),
)
    requires
        old(log).wf(),
        old(later).wf(),
        event is Written,
        event->Written_0 is Err,
        call_ensures(flush_pipeline::<K>, (log, FlushStage::Writing { callbacks }, event), r),
        call_ensures(flush_pipeline::<K>, (later, r.0, FlushEvent::<K>::Proceed), end),
    ensures
        r.1 matches FlushAction::Tell { told } && told@.len() == callbacks@.len() && forall|i: int|
            0 <= i < told@.len() ==> (#[trigger] told@[i]).0 == callbacks@[i] && told@[i].1 is Err
                && told@[i].1->Err_0.kind == event->Written_0->Err_0.kind
                && told@[i].1->Err_0.message@ == event->Written_0->Err_0.message@,
        end.1 == FlushAction::<K>::Return(Err(event->Written_0->Err_0)),
        end.0 is Ready,
        *final(later) == *old(later),
{
}

/// What is pending is handed out once: a batch is all of the bytes with all of the callbacks, in
/// order, at the log's level, and then nothing is left to hand out.
pub proof fn law_pending_bytes_are_taken_once(
    log: &mut FileLogInner,
    first: Option<FlushBatch>,
    then: &mut FileLogInner,
    second: Option<FlushBatch>,
)
    requires
        old(log).wf(),
        call_ensures(FileLogInner::take_flush_batch, (log,), first),
        *old(then) == *final(log),
        call_ensures(FileLogInner::take_flush_batch, (then,), second),
    ensures
        first is Some <==> old(log).pending_buf@.len() > 0,
        first is Some ==> first->Some_0.buf@ == old(log).pending_buf@
            && first->Some_0.callbacks@ == old(log).pending_callbacks@ && first->Some_0.sync_level
            == old(log).sync_level,
        second is None,
        *final(then) == *final(log),
        final(log).log == old(log).log,
        final(log).hard() == old(log).hard(),
        final(log).hard_state_dirty == old(log).hard_state_dirty,
        final(log).sync_level == old(log).sync_level,
{
}

/// No later entry of the run has the index of the one at `i`.
pub open spec fn is_last_of_its_index(entries: Seq<LogEntry>, i: int) -> bool {
    forall|j: int|
        i < j < entries.len() ==> (#[trigger] entries[j]).log_id.index != entries[i].log_id.index
}

/// Entries that were appended are read: a range over their indexes gives each that no later one
/// replaced, as it was appended; entries under other indexes are read as before.
pub proof fn law_appended_entries_are_read(
    log: &mut FileLogInner,
    entries: Vec<LogEntry>,
    callback: u64,
    done: bool,
    again: &FileLogInner,
    a: u64,
    b: u64,
    r: Vec<LogEntry>,
)
    requires
        old(log).wf(),
        call_ensures(FileLogInner::append, (log, entries, callback), Ok(done)),
        *again == *final(log),
        a <= b,
        call_ensures(
            FileLogInner::try_get_log_entries,
            (again, IndexBound::Included(a), IndexBound::Excluded(b)),
            r,
        ),
    ensures
        final(log).wf(),
        forall|i: int|
            0 <= i < entries@.len() && is_last_of_its_index(entries@, i) && a <= (
            #[trigger] entries@[i]).log_id.index < b ==> log_table::entry_views(r@).contains(
                entries@[i]@,
            ),
        forall|k: u64| #[trigger]
            old(log).log@.contains_key(k) && a <= k < b && (forall|i: int|
                0 <= i < entries@.len() ==> (#[trigger] entries@[i]).log_id.index != k)
                ==> log_table::entry_views(r@).contains(old(log).log@[k]),
        forall|i: int| 0 <= i < r@.len() ==> a <= (#[trigger] r@[i]).log_id.index < b,
{
    let v = log_table::entry_views(entries@);
    let out = log_table::entry_views(r@);
    log_table::law_range_reads_what_lies_between(again.log, a, b, out);
    if v.len() == 0 {
        assert(old(log).log@ == again.log@);
    }
    assert forall|i: int|
        0 <= i < entries@.len() && is_last_of_its_index(entries@, i) && a <= (
        #[trigger] entries@[i]).log_id.index < b implies out.contains(entries@[i]@) by {
        assert(v[i] == entries@[i]@);
        assert forall|j: int| i < j < v.len() implies (#[trigger] v[j]).log_id.index
            != v[i].log_id.index by {
            assert(v[j] == entries@[j]@);
        }
        log_table::lemma_replay_at(v, i);
        assert(again.log@.contains_key(entries@[i].log_id.index));
    }
    assert forall|k: u64| #[trigger]
        old(log).log@.contains_key(k) && a <= k < b && (forall|i: int|
            0 <= i < entries@.len() ==> (#[trigger] entries@[i]).log_id.index
                != k) implies out.contains(old(log).log@[k]) by {
        log_table::lemma_replay_dom(v, k);
        if log_table::replay(v).contains_key(k) {
            let i = choose|i: int| log_table::has_index(v, i, k);
            assert(v[i] == entries@[i]@);
        }
        assert(again.log@.contains_key(k));
        assert(again.log@[k] == old(log).log@[k]);
    }
    assert forall|i: int| 0 <= i < r@.len() implies a <= (#[trigger] r@[i]).log_id.index < b by {
        assert(out[i] == r@[i]@);
    }
}

/// An append queues the frames of its entries behind what was pending, and its callback behind those
/// that wait; vote, commit point and purge point stay. Without entries nothing is queued, and the
/// callback is complete.
pub proof fn law_append_queues_its_entries(
    log: &mut FileLogInner,
    entries: Vec<LogEntry>,
    callback: u64,
    done: bool,
)
    requires
        old(log).wf(),
        frames::tail_from(old(log).pending_buf@, 0) is Clean,
        call_ensures(FileLogInner::append, (log, entries, callback), Ok(done)),
    ensures
        done <==> entries@.len() == 0,
        done ==> *final(log) == *old(log),
        frames::tail_from(final(log).pending_buf@, 0) is Clean,
        frames::payloads_from(final(log).pending_buf@, 0) == frames::payloads_from(
            old(log).pending_buf@,
            0,
        ) + entries@.map_values(|e: LogEntry| e@.encoded->Ok_0),
        !done ==> final(log).pending_callbacks@ == old(log).pending_callbacks@.push(callback),
        final(log).hard() == old(log).hard(),
        final(log).hard_state_dirty == old(log).hard_state_dirty,
        final(log).sync_level == old(log).sync_level,
{
    let v = log_table::entry_views(entries@);
    log_open::lemma_raws_fit(v);
    frames::law_frames_round_trip(file_log::raws(v));
    frames::law_append_reads_after(old(log).pending_buf@, file_log::encoded_bytes(v));
    assert(file_log::raws(v) =~= entries@.map_values(|e: LogEntry| e@.encoded->Ok_0));
    if entries@.len() == 0 {
        assert(frames::payloads_from(old(log).pending_buf@, 0) + file_log::raws(v)
            =~= frames::payloads_from(old(log).pending_buf@, 0));
    }
}

/// An append that fails leaves the log, its callbacks and its hard state as they were: the entry at
/// fault could not be serialised, or is longer than a frame can be.
pub proof fn law_failed_append_changes_no_entry(
    log: &mut FileLogInner,
    entries: Vec<LogEntry>,
    callback: u64,
    e: DataError,
)
    requires
        old(log).wf(),
        call_ensures(FileLogInner::append, (log, entries, callback), Err(e)),
    ensures
        final(log).log == old(log).log,
        final(log).pending_callbacks == old(log).pending_callbacks,
        final(log).hard() == old(log).hard(),
        final(log).hard_state_dirty == old(log).hard_state_dirty,
        exists|k: int|
            0 <= k < entries@.len() && match (#[trigger] entries@[k]).encoded {
                Ok(raw) => raw@.len() > 0xffff_ffff && e is EntryTooLarge,
                Err(m) => e is Encode && e->Encode_0@ == m@,
            },
{
    let v = log_table::entry_views(entries@);
    let k = choose|k: int| #[trigger] file_log::first_bad(v, k) && file_log::is_fault_of(e, v[k]);
    assert(v[k] == entries@[k]@);
}

/// After a truncation the log reads as it did up to `last_log_id`, and has no entry after it; vote,
/// commit point, purge point and all that is pending stay.
pub proof fn law_truncation_drops_what_follows(
    log: &mut FileLogInner,
    last: LogId,
    again: &FileLogInner,
    lo: u64,
    r: Vec<LogEntry>,
)
    requires
        old(log).wf(),
        last.index < u64::MAX,
        call_ensures(FileLogInner::truncate_after, (log, Some(last)), ()),
        *again == *final(log),
        lo <= last.index,
        call_ensures(
            FileLogInner::try_get_log_entries,
            (again, IndexBound::Included(lo), IndexBound::Unbounded),
            r,
        ),
    ensures
        final(log).wf(),
        forall|i: int|
            0 <= i < r@.len() ==> lo <= (#[trigger] r@[i]).log_id.index <= last.index && old(
                log,
            ).log@.contains_key(r@[i].log_id.index) && old(log).log@[r@[i].log_id.index] == r@[i]@,
        forall|k: u64| #[trigger]
            old(log).log@.contains_key(k) && lo <= k <= last.index ==> log_table::entry_views(
                r@,
            ).contains(old(log).log@[k]),
        final(log).hard() == old(log).hard(),
        final(log).hard_state_dirty == old(log).hard_state_dirty,
        final(log).pending_buf == old(log).pending_buf,
        final(log).pending_callbacks == old(log).pending_callbacks,
{
    let out = log_table::entry_views(r@);
    log_table::lemma_range_to_the_end(again.log, lo, out);
    assert forall|i: int| 0 <= i < r@.len() implies lo <= (#[trigger] r@[i]).log_id.index
        <= last.index && old(log).log@.contains_key(r@[i].log_id.index) && old(
        log,
    ).log@[r@[i].log_id.index] == r@[i]@ by {
        assert(out[i] == r@[i]@);
    }
    assert forall|k: u64| #[trigger]
        old(log).log@.contains_key(k) && lo <= k <= last.index implies out.contains(
        old(log).log@[k],
    ) by {
        assert(again.log@.contains_key(k));
    }
}

/// Truncating with no last entry leaves no entry.
pub proof fn law_truncation_to_nothing(log: &mut FileLogInner, again: &FileLogInner, s: LogState)
    requires
        old(log).wf(),
        call_ensures(FileLogInner::truncate_after, (log, None::<LogId>), ()),
        *again == *final(log),
        call_ensures(FileLogInner::get_log_state, (again,), s),
    ensures
        final(log).log@ == Map::<u64, log_table::EntryView>::empty(),
        s.last_purged_log_id == old(log).last_purged_log_id,
        s.last_log_id == old(log).last_purged_log_id,
        final(log).hard() == old(log).hard(),
{
    assert(final(log).log@ =~= Map::<u64, log_table::EntryView>::empty());
    assert(final(log).log@.dom() =~= Set::<u64>::empty());
}

/// After a purge the log reads as it did after `upto`, and has no entry up to it; the purge point is
/// there, and vote and commit point stay.
pub proof fn law_purge_drops_what_precedes(
    log: &mut FileLogInner,
    upto: LogId,
    again: &FileLogInner,
    s: LogState,
    k: u64,
)
    requires
        old(log).wf(),
        call_ensures(FileLogInner::purge, (log, upto), ()),
        *again == *final(log),
        call_ensures(FileLogInner::get_log_state, (again,), s),
    ensures
        final(log).wf(),
        final(log).log@.contains_key(k) <==> old(log).log@.contains_key(k) && k > upto.index,
        final(log).log@.contains_key(k) ==> final(log).log@[k] == old(log).log@[k],
        s.last_purged_log_id == Some(upto),
        s.last_log_id is Some,
        final(log).log@.contains_key(k) ==> s.last_log_id->Some_0.index >= k,
        final(log).vote == old(log).vote,
        final(log).committed == old(log).committed,
        final(log).hard_state_dirty == old(log).hard_state_dirty,
        final(log).pending_buf == old(log).pending_buf,
        final(log).pending_callbacks == old(log).pending_callbacks,
{
    if final(log).log@.contains_key(k) {
        assert(final(log).log@.dom().contains(k));
    }
}

/// The last id of a log is that of its entry with the greatest index: an entry appended behind all
/// others is the last one then.
pub proof fn law_last_id_is_of_the_greatest_index(
    log: &mut FileLogInner,
    entries: Vec<LogEntry>,
    callback: u64,
    done: bool,
    again: &FileLogInner,
    s: LogState,
)
    requires
        old(log).wf(),
        entries@.len() == 1,
        forall|k: u64| #[trigger]
            old(log).log@.contains_key(k) ==> k < entries@[0].log_id.index,
        call_ensures(FileLogInner::append, (log, entries, callback), Ok(done)),
        *again == *final(log),
        call_ensures(FileLogInner::get_log_state, (again,), s),
    ensures
        s.last_log_id == Some(entries@[0].log_id),
        s.last_purged_log_id == old(log).last_purged_log_id,
{
    let v = log_table::entry_views(entries@);
    let k = entries@[0].log_id.index;
    assert(v[0] == entries@[0]@);
    log_table::lemma_replay_at(v, 0);
    assert(again.log@.contains_key(k));
    assert(again.log@.dom().contains(k));
    let id = s.last_log_id->Some_0;
    log_table::lemma_replay_dom(v, id.index);
    if log_table::replay(v).contains_key(id.index) {
        let i = choose|i: int| log_table::has_index(v, i, id.index);
        assert(i == 0);
    } else {
        assert(old(log).log@.contains_key(id.index));
    }
}

/// The callbacks are told, each in its place, that all went well.
pub open spec fn told_of_success<K>(
    told: Seq<(u64, Result<(), IoFault<K>>)>,
    callbacks: Seq<u64>,
) -> bool {
    &&& told.len() == callbacks.len()
    &&& forall|i: int|
        0 <= i < told.len() ==> (#[trigger] told[i]).0 == callbacks[i] && told[i].1 is Ok
}

/// The callbacks are told, each in its place, of the failure `e`.
pub open spec fn told_of_failure<K>(
    told: Seq<(u64, Result<(), IoFault<K>>)>,
    callbacks: Seq<u64>,
    e: IoFault<K>,
) -> bool {
    &&& told.len() == callbacks.len()
    &&& forall|i: int|
        0 <= i < told.len() ==> (#[trigger] told[i]).0 == callbacks[i] && told[i].1 is Err
            && told[i].1->Err_0.kind == e.kind && told[i].1->Err_0.message@ == e.message@
}

/// A flush goes step by step: with nothing pending it is over; else what is pending is written, a
/// changed hard state after it, and only then are the callbacks told, each of what became of it. A
/// file that could not be opened ends the flush with no callback told.
pub proof fn law_flush_goes_step_by_step<K: Copy>(
    log: &mut FileLogInner,
    stage: FlushStage<K>,
    event: FlushEvent<K>,
    r: (FlushStage<K>, FlushAction<K>),
)
    requires
        old(log).wf(),
        flush::awaits(stage, event),
        call_ensures(flush_pipeline::<K>, (log, stage, event), r),
    ensures
        stage is Ready && old(log).pending_buf@.len() == 0 ==> {
            &&& r.0 is Ready
            &&& r.1 is Return
            &&& r.1->Return_0 is Ok
            &&& *final(log) == *old(log)
        },
        stage is Ready && old(log).pending_buf@.len() > 0 ==> {
            &&& r.1 is Write
            &&& r.0 is Writing
            &&& r.0->Writing_callbacks@ == old(log).pending_callbacks@
        },
        stage is Writing && event is OpenFailed ==> {
            &&& r.0 is Ready
            &&& r.1 is Return
            &&& r.1->Return_0 is Err
            &&& r.1->Return_0->Err_0 == event->OpenFailed_0
            &&& *final(log) == *old(log)
        },
        stage is Writing && event is Written ==> final(log).writer_open
            && final(log).hard_state_dirty == old(log).hard_state_dirty,
        stage is Writing && event is Written && event->Written_0 is Ok && old(log).hard_state_dirty
            ==> {
            &&& r.1 is Persist
            &&& r.0 is Persisting
            &&& r.0->Persisting_callbacks@ == stage->Writing_callbacks@
        },
        stage is Writing && event is Written && event->Written_0 is Ok && !old(log).hard_state_dirty
            ==> {
            &&& r.0 is Ready
            &&& r.1 is Tell
            &&& told_of_success(r.1->told@, stage->Writing_callbacks@)
        },
        stage is Persisting && event->Persisted_0 is Ok ==> {
            &&& r.0 is Ready
            &&& r.1 is Tell
            &&& told_of_success(r.1->told@, stage->Persisting_callbacks@)
            &&& !final(log).hard_state_dirty
        },
        stage is Persisting && event->Persisted_0 is Err ==> {
            &&& r.0 is Failing
            &&& r.0->fault == event->Persisted_0->Err_0
            &&& r.1 is Tell
            &&& told_of_failure(
                r.1->told@,
                stage->Persisting_callbacks@,
                event->Persisted_0->Err_0,
            )
            &&& *final(log) == *old(log)
        },
        stage is Writing && event is Written && event->Written_0 is Err ==> {
            &&& r.0 is Failing
            &&& r.0->fault == event->Written_0->Err_0
            &&& r.1 is Tell
            &&& told_of_failure(r.1->told@, stage->Writing_callbacks@, event->Written_0->Err_0)
        },
        stage is Failing ==> {
            &&& r.0 is Ready
            &&& r.1 is Return
            &&& r.1->Return_0 is Err
            &&& r.1->Return_0->Err_0 == stage->fault
            &&& *final(log) == *old(log)
        },
        final(log).dir == old(log).dir,
        final(log).writer_cap == old(log).writer_cap,
        !(stage is Ready) ==> final(log).pending_buf == old(log).pending_buf
            && final(log).pending_callbacks == old(log).pending_callbacks,
{
}

/// A rewrite goes step by step: after a purge the hard state first; then what is pending goes to the
/// old file, and its callbacks are told; then a changed hard state is written, and then the new file
/// is put in place and those of older formats are removed. An entry that cannot be written ends it.
pub proof fn law_rewrite_goes_step_by_step<K: Copy>(
    log: &mut FileLogInner,
    stage: RewriteStage<K>,
    event: RewriteEvent<K>,
    r: (RewriteStage<K>, RewriteAction<K>),
)
    requires
        old(log).wf(),
        rewrite::awaits(stage, event),
        call_ensures(rewrite_log::<K>, (log, stage, event), r),
    ensures
        stage is Purged ==> r.1 is Persist && r.0 is PersistingPurge && *final(log) == *old(log),
        (stage is Start || (stage is PersistingPurge && event->Persisted_0 is Ok)) && old(
            log,
        ).pending_buf@.len() > 0 ==> {
            &&& r.1 is Write
            &&& r.0 is Flushing
            &&& r.0->callbacks@ == old(log).pending_callbacks@
            &&& final(log).pending_callbacks@.len() == 0
        },
        stage is PersistingPurge && event->Persisted_0 is Ok ==> !final(log).hard_state_dirty,
        ((stage is Start && old(log).pending_buf@.len() == 0) || stage is Flushed) && old(
            log,
        ).hard_state_dirty ==> r.1 is Persist && r.0 is Persisting && *final(log) == *old(log),
        ((stage is Start && old(log).pending_buf@.len() == 0) || stage is Flushed) && !old(
            log,
        ).hard_state_dirty ==> r.1 is Replace || r.1 is Return,
        stage is Persisting && event->Persisted_0 is Ok ==> !final(log).hard_state_dirty && (
        r.1 is Replace || r.1 is Return),
        r.1 is Replace ==> r.0 is Replacing && !final(log).writer_open,
        stage is Replacing && event->Replaced_0 is Ok ==> r.1 is RemoveOld && r.0 is Removing
            && *final(log) == *old(log),
        stage is Removing ==> r.1 is Return && r.1->Return_0 is Ok && r.0 is Done && *final(log)
            == *old(log),
        r.1 is Return && r.1->Return_0 is Err && r.1->Return_0->Err_0 is Data ==> {
            &&& r.0 is Done
            &&& exists|k: int|
                0 <= k < old(log).log.ordered().len() && !file_log::encodable(
                    #[trigger] old(log).log.ordered()[k],
                )
        },
        stage is Flushing && event is Written ==> final(log).writer_open,
        stage is Flushing && event is Written && event->Written_0 is Ok ==> r.0 is Flushed
            && r.1 is Tell && told_of_success(r.1->told@, stage->callbacks@),
        stage is Flushing && event is Written && event->Written_0 is Err ==> r.1 is Tell
            && told_of_failure(r.1->told@, stage->callbacks@, event->Written_0->Err_0),
        stage is Flushing && event is OpenFailed ==> r.1 is Tell && told_of_failure(
            r.1->told@,
            stage->callbacks@,
            event->OpenFailed_0,
        ),
        final(log).dir == old(log).dir,
        final(log).writer_cap == old(log).writer_cap,
{
    if r.1 is Return && r.1->Return_0 is Err && r.1->Return_0->Err_0 is Data {
        let k = choose|k: int| #[trigger] file_log::first_bad(old(log).log.ordered(), k);
        assert(!file_log::encodable(old(log).log.ordered()[k]));
    }
}

/// A log that is opened has the entries and the hard state that it was given, nothing pending, and
/// its file still closed.
pub proof fn law_opened_log_is_as_given(
    dir: String,
    hard: HardState,
    log: LogTable,
    writer_cap: usize,
    level: FileLogSyncLevel,
    r: FileLogInner,
)
    requires
        log.wf(),
        call_ensures(FileLogInner::opened, (dir, hard, log, writer_cap, level), r),
    ensures
        r.dir@ == dir@,
        r.vote == hard.vote,
        r.committed == hard.committed,
        r.last_purged_log_id == hard.last_purged_log_id,
        r.log == log,
        r.writer_cap == writer_cap,
        r.sync_level == level,
        !r.writer_open,
        !r.hard_state_dirty,
        r.pending_buf@.len() == 0,
        r.pending_callbacks@.len() == 0,
{
}

/// A store appends as its log does: the same entries, bytes and callbacks, and the same failure.
pub proof fn law_store_appends_as_its_log(
    store: &mut FileLogStore,
    log: &mut FileLogInner,
    entries: Vec<LogEntry>,
    callback: u64,
    r: Result<AppendPlan, DataError>,
    done: Result<bool, DataError>,
)
    requires
        old(store).wf(),
        *old(log) == old(store).inner,
        call_ensures(FileLogStore::append, (store, entries, callback), r),
        call_ensures(FileLogInner::append, (log, entries, callback), done),
    ensures
        r is Ok <==> done is Ok,
        r is Ok ==> {
            &&& r->Ok_0.complete is Some <==> done->Ok_0
            &&& final(store).inner.log@ == final(log).log@
            &&& final(store).inner.pending_buf@ == final(log).pending_buf@
            &&& final(store).inner.pending_callbacks@ == final(log).pending_callbacks@
        },
        r is Err ==> final(store).inner.log == old(store).inner.log
            && final(store).inner.pending_callbacks == old(store).inner.pending_callbacks
            && final(store).control == old(store).control,
        final(store).inner.hard() == old(store).inner.hard(),
        final(store).inner.sync_level == old(store).inner.sync_level,
        final(store).inner.dir == old(store).inner.dir,
        final(store).inner.hard_state_dirty == old(store).inner.hard_state_dirty,
{
    let v = log_table::entry_views(entries@);
    if r is Ok && done is Err {
        let k = choose|k: int| #[trigger] file_log::first_bad(v, k);
        assert(!file_log::encodable(v[k]));
    }
    if r is Err && done is Ok {
        let k = choose|k: int| #[trigger] file_log::first_bad(v, k);
        assert(!file_log::encodable(v[k]));
    }
}

} // verus!
