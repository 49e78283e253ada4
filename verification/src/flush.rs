//! The order of work when pending log bytes reach the disk, one step at a time.
//!
//! The caller performs each action and reports what came of it.

use vstd::prelude::*;

use crate::config::FileLogSyncLevel;
use crate::durability;
use crate::file_log::{FileLogInner, HardState};

verus! {

/// A failed operation of the file system: its kind, as the caller tells kinds apart, and its text.
#[derive(Debug)]
pub struct IoFault<K> {
    pub kind: K,
    pub message: String,
}

/// The same kind and text.
pub open spec fn same_fault<K>(a: IoFault<K>, b: IoFault<K>) -> bool {
    a.kind == b.kind && a.message@ == b.message@
}

/// Both succeeded, or both failed alike.
pub open spec fn same_result<K>(a: Result<(), IoFault<K>>, b: Result<(), IoFault<K>>) -> bool {
    match (a, b) {
        (Ok(_), Ok(_)) => true,
        (Err(x), Err(y)) => same_fault(x, y),
        _ => false,
    }
}

impl<K: Copy> IoFault<K> {
    /// The same fault once more.
    pub fn copied(&self) -> (r: IoFault<K>)
        ensures
            same_fault(r, *self),
    {
        IoFault { kind: self.kind, message: self.message.clone() }
    }
}

/// Each callback with what it is told, in the order in which the callbacks were queued.
pub open spec fn told_all<K>(
    told: Seq<(u64, Result<(), IoFault<K>>)>,
    callbacks: Seq<u64>,
    res: Result<(), IoFault<K>>,
) -> bool {
    &&& told.len() == callbacks.len()
    &&& forall|i: int|
        0 <= i < told.len() ==> (#[trigger] told[i]).0 == callbacks[i] && same_result(
            told[i].1,
            res,
        )
}

/// Every callback of a batch is told the batch's result.
pub fn complete_flush_callbacks<K: Copy>(
    callbacks: &Vec<u64>,
    res: &Result<(), IoFault<K>>,
) -> (told: Vec<(u64, Result<(), IoFault<K>>)>)
    ensures
        told_all(told@, callbacks@, *res),
{
    let mut told: Vec<(u64, Result<(), IoFault<K>>)> = Vec::new();
    let mut i: usize = 0;
    while i < callbacks.len()
        invariant
            i <= callbacks@.len(),
            told_all(told@, callbacks@.take(i as int), *res),
        decreases callbacks@.len() - i,
    {
        let one: Result<(), IoFault<K>> = match res {
            Ok(()) => Ok(()),
            Err(e) => Err(e.copied()),
        };
        told.push((callbacks[i], one));
        i = i + 1;
    }
    assert(callbacks@.take(i as int) =~= callbacks@);
    told
}

/// Where a flush stands.
#[derive(Debug)]
pub enum FlushStage<K> {
    /// Nothing is under way.
    Ready,
    /// A batch with these callbacks is being written.
    Writing { callbacks: Vec<u64> },
    /// Its bytes are written; the hard state is being written with them.
    Persisting { callbacks: Vec<u64> },
    /// The callbacks are told of a failure, with which the flush then ends.
    Failing { fault: IoFault<K> },
}

/// What the caller reports.
#[derive(Debug)]
pub enum FlushEvent<K> {
    /// Go on.
    Proceed,
    /// The log file could not be opened; nothing was written.
    OpenFailed(IoFault<K>),
    /// The batch was written and synced, or that failed.
    Written(Result<(), IoFault<K>>),
    /// The hard state was written, or that failed.
    Persisted(Result<(), IoFault<K>>),
}

/// What the caller is to do next.
#[derive(Debug)]
pub enum FlushAction<K> {
    /// Open the log file unless it is open, append `buf`, and sync at `sync_level`.
    Write { buf: Vec<u8>, sync_level: FileLogSyncLevel },
    /// Replace the hard-state file.
    Persist { state: HardState, sync_level: FileLogSyncLevel },
    /// Tell these callbacks.
    Tell { told: Vec<(u64, Result<(), IoFault<K>>)> },
    /// The flush is over.
    Return(Result<(), IoFault<K>>),
}

/// Each stage awaits reports of its own.
pub open spec fn awaits<K>(stage: FlushStage<K>, event: FlushEvent<K>) -> bool {
    match stage {
        FlushStage::Ready => event is Proceed,
        FlushStage::Writing { .. } => event is OpenFailed || event is Written,
        FlushStage::Persisting { .. } => event is Persisted,
        FlushStage::Failing { .. } => event is Proceed,
    }
}

/// What one step of a flush does: from `before` and `stage`, on `event`, to `after` and `next`,
/// asking for `action`.
pub open spec fn flush_moves<K>(
    before: FileLogInner,
    stage: FlushStage<K>,
    event: FlushEvent<K>,
    after: FileLogInner,
    next: FlushStage<K>,
    action: FlushAction<K>,
) -> bool {
    match (stage, event) {
        (FlushStage::Ready, _) => if before.pending_buf@.len() == 0 {
            &&& next is Ready
            &&& action matches FlushAction::Return(Ok(_))
            &&& after == before
        } else {
            &&& next matches FlushStage::Writing { callbacks }
            &&& callbacks == before.pending_callbacks
            &&& action matches FlushAction::Write { buf, sync_level }
            &&& buf == before.pending_buf
            &&& sync_level == before.sync_level
            &&& after.pending_buf@.len() == 0
            &&& after.pending_callbacks@.len() == 0
            &&& after.same_but_pending(&before)
        },
        (FlushStage::Writing { .. }, FlushEvent::OpenFailed(e)) => {
            &&& next is Ready
            &&& action matches FlushAction::Return(Err(x))
            &&& x == e
            &&& after == before
        },
        (FlushStage::Writing { callbacks }, FlushEvent::Written(Ok(_))) => {
            &&& after == (FileLogInner { writer_open: true, ..before })
            &&& if before.hard_state_dirty {
                &&& next matches FlushStage::Persisting { callbacks: c }
                &&& c == callbacks
                &&& action matches FlushAction::Persist { state, sync_level }
                &&& state == before.hard()
                &&& sync_level == durability::spec_hard_state_sync_level(
                    before.sync_level,
                )
            } else {
                &&& next is Ready
                &&& action matches FlushAction::Tell { told }
                &&& told_all(told@, callbacks@, Ok(()))
            }
        },
        (FlushStage::Writing { callbacks }, FlushEvent::Written(Err(e))) => {
            &&& after == (FileLogInner { writer_open: true, ..before })
            &&& next matches FlushStage::Failing { fault }
            &&& fault == e
            &&& action matches FlushAction::Tell { told }
            &&& told_all(told@, callbacks@, Err(e))
        },
        (FlushStage::Persisting { callbacks }, FlushEvent::Persisted(Ok(_))) => {
            &&& after == (FileLogInner { hard_state_dirty: false, ..before })
            &&& next is Ready
            &&& action matches FlushAction::Tell { told }
            &&& told_all(told@, callbacks@, Ok(()))
        },
        (FlushStage::Persisting { callbacks }, FlushEvent::Persisted(Err(e))) => {
            &&& after == before
            &&& next matches FlushStage::Failing { fault }
            &&& fault == e
            &&& action matches FlushAction::Tell { told }
            &&& told_all(told@, callbacks@, Err(e))
        },
        (FlushStage::Failing { fault }, _) => {
            &&& after == before
            &&& next is Ready
            &&& action matches FlushAction::Return(Err(x))
            &&& x == fault
        },
        _ => true,
    }
}

/// One step of a flush that lets appends go on meanwhile: batches are written one by one until
/// nothing is pending. A batch is written and synced, then the hard state if it has changed, and
/// only then are the batch's callbacks told. A log file that cannot be opened ends the flush with
/// the batch's callbacks untold.
pub fn flush_pipeline<K: Copy>(
    inner: &mut FileLogInner,
    stage: FlushStage<K>,
    event: FlushEvent<K>,
) -> (r: (FlushStage<K>, FlushAction<K>))
    requires
        old(inner).wf(),
        awaits(stage, event),
    ensures
        final(inner).wf(),
        flush_moves(*old(inner), stage, event, *final(inner), r.0, r.1),
{
    match stage {
        FlushStage::Ready => match inner.take_flush_batch() {
            None => (FlushStage::Ready, FlushAction::Return(Ok(()))),
            Some(batch) => (
                FlushStage::Writing { callbacks: batch.callbacks },
                FlushAction::Write { buf: batch.buf, sync_level: batch.sync_level },
            ),
        },
        FlushStage::Writing { callbacks } => match event {
            FlushEvent::OpenFailed(e) => (FlushStage::Ready, FlushAction::Return(Err(e))),
            FlushEvent::Written(Ok(())) => {
                inner.writer_open = true;
                if inner.hard_state_dirty {
                    let (state, sync_level) = inner.hard_state();
                    (
                        FlushStage::Persisting { callbacks },
                        FlushAction::Persist { state, sync_level },
                    )
                } else {
                    let res: Result<(), IoFault<K>> = Ok(());
                    let told = complete_flush_callbacks(&callbacks, &res);
                    (FlushStage::Ready, FlushAction::Tell { told })
                }
            },
            FlushEvent::Written(Err(e)) => {
                inner.writer_open = true;
                let res: Result<(), IoFault<K>> = Err(e);
                let told = complete_flush_callbacks(&callbacks, &res);
                match res {
                    Err(fault) => (FlushStage::Failing { fault }, FlushAction::Tell { told }),
                    Ok(()) => (FlushStage::Ready, FlushAction::Tell { told }),
                }
            },
            _ => (FlushStage::Ready, FlushAction::Return(Ok(()))),
        },
        FlushStage::Persisting { callbacks } => match event {
            FlushEvent::Persisted(Err(e)) => {
                let res: Result<(), IoFault<K>> = Err(e);
                let told = complete_flush_callbacks(&callbacks, &res);
                match res {
                    Err(fault) => (FlushStage::Failing { fault }, FlushAction::Tell { told }),
                    Ok(()) => (FlushStage::Ready, FlushAction::Tell { told }),
                }
            },
            _ => {
                inner.hard_state_persisted();
                let res: Result<(), IoFault<K>> = Ok(());
                let told = complete_flush_callbacks(&callbacks, &res);
                (FlushStage::Ready, FlushAction::Tell { told })
            },
        },
        FlushStage::Failing { fault } => (FlushStage::Ready, FlushAction::Return(Err(fault))),
    }
}

/// One step of a flush, as it was taken.
pub ghost struct FlushStep<K> {
    pub before: FileLogInner,
    pub stage: FlushStage<K>,
    pub event: FlushEvent<K>,
    pub after: FileLogInner,
    pub next: FlushStage<K>,
    pub action: FlushAction<K>,
}

/// Steps that follow on one another from `Ready`. Between two steps the log may have been appended
/// to.
pub open spec fn is_flush_run<K>(run: Seq<FlushStep<K>>) -> bool {
    &&& run.len() > 0 ==> run[0].stage is Ready
    &&& forall|i: int|
        0 <= i < run.len() ==> awaits((#[trigger] run[i]).stage, run[i].event) && flush_moves(
            run[i].before,
            run[i].stage,
            run[i].event,
            run[i].after,
            run[i].next,
            run[i].action,
        )
    &&& forall|i: int, j: int|
        0 <= i && j == i + 1 && j < run.len() ==> (#[trigger] run[j]).stage == (
        #[trigger] run[i]).next
}

/// The step `w`, before step `n`, handed out all that was pending to be written, with the callback
/// that step `n` tells as its `j`-th; and the write was reported as done.
pub open spec fn wrote_for<K>(run: Seq<FlushStep<K>>, w: int, n: int, j: int) -> bool {
    &&& 0 <= w < n < run.len()
    &&& run[w].action matches FlushAction::Write { buf, sync_level }
    &&& buf == run[w].before.pending_buf
    &&& sync_level == run[w].before.sync_level
    &&& run[w + 1].event matches FlushEvent::Written(Ok(_))
    &&& run[n].action matches FlushAction::Tell { told }
    &&& 0 <= j < run[w].before.pending_callbacks@.len()
    &&& run[w].before.pending_callbacks@[j] == told@[j].0
}

/// A callback that is told of success had its bytes written and synced before.
pub proof fn law_success_is_told_after_the_write<K>(run: Seq<FlushStep<K>>, n: int, j: int)
    requires
        is_flush_run(run),
        0 <= n < run.len(),
        run[n].action matches FlushAction::Tell { told } && 0 <= j < told@.len() && told@[j].1 is Ok,
    ensures
        exists|w: int| #[trigger] wrote_for(run, w, n, j),
{
    let s = run[n];
    assert(n > 0);
    let p = run[n - 1];
    assert(s.stage == p.next);
    if s.stage is Writing {
        assert(p.stage is Ready);
        assert(wrote_for(run, n - 1, n, j));
    } else {
        assert(s.stage is Persisting);
        assert(p.stage is Writing);
        assert(n > 1);
        let q = run[n - 2];
        assert(p.stage == q.next);
        assert(q.stage is Ready);
        assert(wrote_for(run, n - 2, n, j));
    }
}

} // verus!
