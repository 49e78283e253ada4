//! The order of work when the log file is written anew, one step at a time.
//!
//! The caller performs each action and reports what came of it.

use vstd::prelude::*;

use crate::config::FileLogSyncLevel;
use crate::durability;
use crate::durability::{rewrite_replace, ReplaceStep};
use crate::file_log;
use crate::file_log::{encode_entries_into, DataError, FileLogInner, HardState};
use crate::flush;
use crate::flush::{complete_flush_callbacks, IoFault};

verus! {

/// Why a rewrite ends early.
#[derive(Debug)]
pub enum RewriteFault<K> {
    Io(IoFault<K>),
    Data(DataError),
}

/// Where a rewrite stands.
#[derive(Debug)]
pub enum RewriteStage<K> {
    /// After a purge: the hard state is to be written first.
    Purged,
    /// That is under way.
    PersistingPurge,
    /// The log is to be rewritten.
    Start,
    /// What was pending is being written to the old file.
    Flushing { callbacks: Vec<u64> },
    /// Its callbacks are told of success.
    Flushed,
    /// They are told of a failure, with which the rewrite then ends.
    Failing { fault: IoFault<K> },
    /// The hard state is being written.
    Persisting,
    /// The new file is being put in place.
    Replacing,
    /// The files of older formats are being removed.
    Removing,
    /// Over.
    Done,
}

/// What the caller reports.
#[derive(Debug)]
pub enum RewriteEvent<K> {
    /// Go on.
    Proceed,
    /// The log file could not be opened.
    OpenFailed(IoFault<K>),
    /// The batch was written and synced, or that failed.
    Written(Result<(), IoFault<K>>),
    /// The hard state was written, or that failed.
    Persisted(Result<(), IoFault<K>>),
    /// The new file is in place, or that failed.
    Replaced(Result<(), IoFault<K>>),
}

/// What the caller is to do next.
#[derive(Debug)]
pub enum RewriteAction<K> {
    /// Open the log file unless it is open, append `buf`, and sync at `sync_level`.
    Write { buf: Vec<u8>, sync_level: FileLogSyncLevel },
    /// Tell these callbacks.
    Tell { told: Vec<(u64, Result<(), IoFault<K>>)> },
    /// Replace the hard-state file.
    Persist { state: HardState, sync_level: FileLogSyncLevel },
    /// Close the log file and replace it with `contents` by `steps`.
    Replace { contents: Vec<u8>, steps: Vec<ReplaceStep> },
    /// Remove the files of older formats; a failure counts for nothing.
    RemoveOld,
    /// The rewrite is over.
    Return(Result<(), RewriteFault<K>>),
}

/// Each stage awaits reports of its own.
pub open spec fn awaits<K>(stage: RewriteStage<K>, event: RewriteEvent<K>) -> bool {
    match stage {
        RewriteStage::Flushing { .. } => event is OpenFailed || event is Written,
        RewriteStage::PersistingPurge => event is Persisted,
        RewriteStage::Persisting => event is Persisted,
        RewriteStage::Replacing => event is Replaced,
        RewriteStage::Done => false,
        _ => event is Proceed,
    }
}

/// The hard state is to be written next.
pub open spec fn asks_to_persist<K>(before: FileLogInner, action: RewriteAction<K>) -> bool {
    &&& action matches RewriteAction::Persist { state, sync_level }
    &&& state == before.hard()
    &&& sync_level == durability::spec_hard_state_sync_level(before.sync_level)
}

/// The log file is closed, and replaced by the frames of the log's entries by rising index; or an
/// entry that cannot be written ends the rewrite.
pub open spec fn asks_to_replace<K>(
    before: FileLogInner,
    after: FileLogInner,
    next: RewriteStage<K>,
    action: RewriteAction<K>,
) -> bool {
    &&& after == (FileLogInner { writer_open: false, ..before })
    &&& if file_log::all_encodable(before.log.ordered()) {
        &&& next is Replacing
        &&& action matches RewriteAction::Replace { contents, steps }
        &&& contents@ == file_log::encoded_bytes(before.log.ordered())
        &&& steps@ == durability::rewrite_steps(before.sync_level)
    } else {
        &&& next is Done
        &&& action matches RewriteAction::Return(Err(RewriteFault::Data(e)))
        &&& exists|k: int| #[trigger]
            file_log::first_bad(before.log.ordered(), k) && file_log::is_fault_of(
                e,
                before.log.ordered()[k],
            )
    }
}

/// What follows once nothing is pending: a changed hard state is written, then the file replaced.
pub open spec fn settles<K>(
    before: FileLogInner,
    after: FileLogInner,
    next: RewriteStage<K>,
    action: RewriteAction<K>,
) -> bool {
    if before.hard_state_dirty {
        next is Persisting && after == before && asks_to_persist(before, action)
    } else {
        asks_to_replace(before, after, next, action)
    }
}

/// The rewrite ends with `fault`.
pub open spec fn ends_with<K>(
    next: RewriteStage<K>,
    action: RewriteAction<K>,
    fault: IoFault<K>,
) -> bool {
    &&& next is Done
    &&& action matches RewriteAction::Return(Err(RewriteFault::Io(e)))
    &&& e == fault
}

/// What one step of a rewrite does: from `before` and `stage`, on `event`, to `after` and `next`,
/// asking for `action`.
pub open spec fn rewrite_moves<K>(
    before: FileLogInner,
    stage: RewriteStage<K>,
    event: RewriteEvent<K>,
    after: FileLogInner,
    next: RewriteStage<K>,
    action: RewriteAction<K>,
) -> bool {
    match (stage, event) {
        (RewriteStage::Purged, _) => next is PersistingPurge && after == before && asks_to_persist(
            before,
            action,
        ),
        (RewriteStage::PersistingPurge, RewriteEvent::Persisted(Err(e))) => after == before
            && ends_with(next, action, e),
        (RewriteStage::PersistingPurge, RewriteEvent::Persisted(Ok(_))) => starts(
            FileLogInner { hard_state_dirty: false, ..before },
            after,
            next,
            action,
        ),
        (RewriteStage::Start, _) => starts(before, after, next, action),
        (RewriteStage::Flushing { callbacks }, RewriteEvent::OpenFailed(e)) => {
            &&& after == before
            &&& next matches RewriteStage::Failing { fault }
            &&& fault == e
            &&& action matches RewriteAction::Tell { told }
            &&& flush::told_all(told@, callbacks@, Err(e))
        },
        (RewriteStage::Flushing { callbacks }, RewriteEvent::Written(Err(e))) => {
            &&& after == (FileLogInner { writer_open: true, ..before })
            &&& next matches RewriteStage::Failing { fault }
            &&& fault == e
            &&& action matches RewriteAction::Tell { told }
            &&& flush::told_all(told@, callbacks@, Err(e))
        },
        (RewriteStage::Flushing { callbacks }, RewriteEvent::Written(Ok(_))) => {
            &&& after == (FileLogInner { writer_open: true, ..before })
            &&& next is Flushed
            &&& action matches RewriteAction::Tell { told }
            &&& flush::told_all(told@, callbacks@, Ok(()))
        },
        (RewriteStage::Flushed, _) => settles(before, after, next, action),
        (RewriteStage::Failing { fault }, _) => after == before && ends_with(next, action, fault),
        (RewriteStage::Persisting, RewriteEvent::Persisted(Err(e))) => after == before && ends_with(
            next,
            action,
            e,
        ),
        (RewriteStage::Persisting, RewriteEvent::Persisted(Ok(_))) => asks_to_replace(
            FileLogInner { hard_state_dirty: false, ..before },
            after,
            next,
            action,
        ),
        (RewriteStage::Replacing, RewriteEvent::Replaced(Err(e))) => after == before && ends_with(
            next,
            action,
            e,
        ),
        (RewriteStage::Replacing, RewriteEvent::Replaced(Ok(_))) => {
            &&& after == before
            &&& next is Removing
            &&& action is RemoveOld
        },
        (RewriteStage::Removing, _) => {
            &&& after == before
            &&& next is Done
            &&& action matches RewriteAction::Return(Ok(_))
        },
        _ => true,
    }
}

/// The first work of a rewrite: what is pending goes to the old file, all as one batch.
pub open spec fn starts<K>(
    before: FileLogInner,
    after: FileLogInner,
    next: RewriteStage<K>,
    action: RewriteAction<K>,
) -> bool {
    if before.pending_buf@.len() == 0 {
        settles(before, after, next, action)
    } else {
        &&& next matches RewriteStage::Flushing { callbacks }
        &&& callbacks == before.pending_callbacks
        &&& action matches RewriteAction::Write { buf, sync_level }
        &&& buf == before.pending_buf
        &&& sync_level == before.sync_level
        &&& after.pending_buf@.len() == 0
        &&& after.pending_callbacks@.len() == 0
        &&& after.same_but_pending(&before)
    }
}

fn replace<K>(inner: &mut FileLogInner) -> (r: (RewriteStage<K>, RewriteAction<K>))
    requires
        old(inner).wf(),
    ensures
        final(inner).wf(),
        asks_to_replace(*old(inner), *final(inner), r.0, r.1),
{
    inner.writer_open = false;
    let mut contents: Vec<u8> = Vec::new();
    match encode_entries_into(&mut contents, inner.log.entries()) {
        Err(e) => {
            proof {
                let v = inner.log.ordered();
                let k = choose|k: int| #[trigger]
                    file_log::first_bad(v, k) && file_log::is_fault_of(e, v[k]);
                assert(!file_log::encodable(v[k]));
            }
            (RewriteStage::Done, RewriteAction::Return(Err(RewriteFault::Data(e))))
        },
        Ok(()) => {
            assert(contents@ =~= file_log::encoded_bytes(inner.log.ordered()));
            (
                RewriteStage::Replacing,
                RewriteAction::Replace { contents, steps: rewrite_replace(inner.sync_level) },
            )
        },
    }
}

fn settle<K>(inner: &mut FileLogInner) -> (r: (RewriteStage<K>, RewriteAction<K>))
    requires
        old(inner).wf(),
    ensures
        final(inner).wf(),
        settles(*old(inner), *final(inner), r.0, r.1),
{
    if inner.hard_state_dirty {
        let (state, sync_level) = inner.hard_state();
        (RewriteStage::Persisting, RewriteAction::Persist { state, sync_level })
    } else {
        replace(inner)
    }
}

fn start<K>(inner: &mut FileLogInner) -> (r: (RewriteStage<K>, RewriteAction<K>))
    requires
        old(inner).wf(),
    ensures
        final(inner).wf(),
        starts(*old(inner), *final(inner), r.0, r.1),
{
    match inner.take_flush_batch() {
        None => settle(inner),
        Some(batch) => (
            RewriteStage::Flushing { callbacks: batch.callbacks },
            RewriteAction::Write { buf: batch.buf, sync_level: batch.sync_level },
        ),
    }
}

fn fail<K: Copy>(callbacks: &Vec<u64>, e: IoFault<K>) -> (r: (RewriteStage<K>, RewriteAction<K>))
    ensures
        r.0 matches RewriteStage::Failing { fault } && fault == e,
        r.1 matches RewriteAction::Tell { told } && flush::told_all(told@, callbacks@, Err(e)),
{
    let res: Result<(), IoFault<K>> = Err(e);
    let told = complete_flush_callbacks(callbacks, &res);
    match res {
        Err(fault) => (RewriteStage::Failing { fault }, RewriteAction::Tell { told }),
        Ok(()) => (RewriteStage::Done, RewriteAction::Tell { told }),
    }
}

/// One step of a rewrite. What is pending is flushed to the old file first, its callbacks told; a
/// changed hard state is written; then a new file with every entry takes the old one's place, and
/// the files of older formats go.
pub fn rewrite_log<K: Copy>(
    inner: &mut FileLogInner,
    stage: RewriteStage<K>,
    event: RewriteEvent<K>,
) -> (r: (RewriteStage<K>, RewriteAction<K>))
    requires
        old(inner).wf(),
        awaits(stage, event),
    ensures
        final(inner).wf(),
        rewrite_moves(*old(inner), stage, event, *final(inner), r.0, r.1),
{
    match stage {
        RewriteStage::Purged => {
            let (state, sync_level) = inner.hard_state();
            (RewriteStage::PersistingPurge, RewriteAction::Persist { state, sync_level })
        },
        RewriteStage::PersistingPurge => match event {
            RewriteEvent::Persisted(Err(e)) => (
                RewriteStage::Done,
                RewriteAction::Return(Err(RewriteFault::Io(e))),
            ),
            _ => {
                inner.hard_state_persisted();
                start(inner)
            },
        },
        RewriteStage::Start => start(inner),
        RewriteStage::Flushing { callbacks } => match event {
            RewriteEvent::OpenFailed(e) => fail(&callbacks, e),
            RewriteEvent::Written(Err(e)) => {
                inner.writer_open = true;
                fail(&callbacks, e)
            },
            _ => {
                inner.writer_open = true;
                let res: Result<(), IoFault<K>> = Ok(());
                let told = complete_flush_callbacks(&callbacks, &res);
                (RewriteStage::Flushed, RewriteAction::Tell { told })
            },
        },
        RewriteStage::Flushed => settle(inner),
        RewriteStage::Failing { fault } => (
            RewriteStage::Done,
            RewriteAction::Return(Err(RewriteFault::Io(fault))),
        ),
        RewriteStage::Persisting => match event {
            RewriteEvent::Persisted(Err(e)) => (
                RewriteStage::Done,
                RewriteAction::Return(Err(RewriteFault::Io(e))),
            ),
            _ => {
                inner.hard_state_persisted();
                replace(inner)
            },
        },
        RewriteStage::Replacing => match event {
            RewriteEvent::Replaced(Err(e)) => (
                RewriteStage::Done,
                RewriteAction::Return(Err(RewriteFault::Io(e))),
            ),
            _ => (RewriteStage::Removing, RewriteAction::RemoveOld),
        },
        RewriteStage::Removing => (RewriteStage::Done, RewriteAction::Return(Ok(()))),
        RewriteStage::Done => (RewriteStage::Done, RewriteAction::Return(Ok(()))),
    }
}

} // verus!
