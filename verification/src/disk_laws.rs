//! What holds of the log file and of the files that replace others, and of when they are written.

use vstd::prelude::*;

use crate::config::FileLogSyncLevel;
use crate::durability;
use crate::durability::{
    atomic_replace, hard_state_sync_level, rewrite_replace, sync_file, temp_swap_path, ReplaceStep,
    SyncCall,
};
use crate::file_log;
use crate::file_log::{encode_entries_into, DataError, FileLogInner, HardState};
use crate::flush;
use crate::flush::{complete_flush_callbacks, IoFault};
use crate::frames;
use crate::frames::{push_frame, split_frames, FrameScan, FrameTail};
use crate::log_open;
use crate::log_open::{
    load_bin, load_log, load_ndjson, log_source, migration, nonblank_lines, table_of, AppendPlan,
    FileLogStore, LoadedLog, LogFound, LogSource,
};
use crate::log_table;
use crate::log_table::{LogEntry, LogTable};
use crate::order;
use crate::rewrite;
use crate::rewrite::{rewrite_log, RewriteAction, RewriteEvent, RewriteFault, RewriteStage};
use crate::stream_control::{AfterAppend, FileLogStreamOptions, FlusherWait, StreamControl};
use crate::text;

verus! {

/// Bytes go into a file as one frame behind what was there: the length in four little-endian bytes,
/// then the bytes. Taking the file apart then gives them behind what it gave before; bytes that are
/// too long for a frame leave the file as it was.
pub proof fn law_framed_bytes_are_read_again(
    buf: &mut Vec<u8>,
    raw: &Vec<u8>,
    ok: bool,
    before: &[u8],
    after: &[u8],
    scan_before: FrameScan,
    scan: FrameScan,
)
    requires
        call_ensures(push_frame, (buf, raw), ok),
        before@ == old(buf)@,
        after@ == final(buf)@,
        call_ensures(split_frames, (before,), scan_before),
        scan_before.tail == FrameTail::Clean,
        call_ensures(split_frames, (after,), scan),
    ensures
        ok <==> raw@.len() <= u32::MAX,
        ok ==> {
            &&& final(buf)@.len() == old(buf)@.len() + 4 + raw@.len()
            &&& final(buf)@.take(old(buf)@.len() as int) == old(buf)@
            &&& final(buf)@.subrange(old(buf)@.len() as int, old(buf)@.len() as int + 4)
                == vstd::bytes::spec_u32_to_le_bytes(raw@.len() as u32)
            &&& final(buf)@.skip(old(buf)@.len() as int + 4) == raw@
            &&& scan.frames@.len() == scan_before.frames@.len() + 1
            &&& scan.frames@.last()@ == raw@
        },
        !ok ==> final(buf)@ == old(buf)@ && scan.frames@.len() == scan_before.frames@.len(),
        forall|i: int|
            0 <= i < scan_before.frames@.len() ==> (#[trigger] scan.frames@[i])@
                == scan_before.frames@[i]@,
        scan.tail == FrameTail::Clean,
{
    let a = old(buf)@;
    let was = frames::views(scan_before.frames@);
    let now = frames::views(scan.frames@);
    assert(was.len() == scan_before.frames@.len());
    assert(now.len() == scan.frames@.len());
    if ok {
        let f = frames::frame(raw@);
        vstd::bytes::lemma_auto_spec_u32_to_from_le_bytes();
        frames::law_frame_round_trip(raw@);
        frames::law_append_reads_after(a, f);
        assert(now =~= was + seq![raw@]);
        assert(now.last() == raw@);
        assert(final(buf)@.take(a.len() as int) =~= a);
        assert(final(buf)@.subrange(a.len() as int, a.len() as int + 4)
            =~= vstd::bytes::spec_u32_to_le_bytes(raw@.len() as u32));
        assert(final(buf)@.skip(a.len() as int + 4) =~= raw@);
    } else {
        assert(now == was);
    }
    assert forall|i: int| 0 <= i < scan_before.frames@.len() implies (
    #[trigger] scan.frames@[i])@ == scan_before.frames@[i]@ by {
        assert(now[i] == was[i]);
    }
}

/// A file that was cut inside its last frame gives the frames before it, and says how it ends: where
/// the missing bytes would start, or how many bytes are left of a length.
pub proof fn law_cut_file_says_so(
    buf: &mut Vec<u8>,
    raw: &Vec<u8>,
    before: &[u8],
    cut: &[u8],
    scan_before: FrameScan,
    scan: FrameScan,
)
    requires
        call_ensures(push_frame, (buf, raw), true),
        before@ == old(buf)@,
        call_ensures(split_frames, (before,), scan_before),
        scan_before.tail == FrameTail::Clean,
        old(buf)@.len() < cut@.len() < final(buf)@.len(),
        final(buf)@.len() <= usize::MAX,
        cut@ == final(buf)@.take(cut@.len() as int),
        call_ensures(split_frames, (cut,), scan),
    ensures
        scan.frames@.len() == scan_before.frames@.len(),
        forall|i: int|
            0 <= i < scan_before.frames@.len() ==> (#[trigger] scan.frames@[i])@
                == scan_before.frames@[i]@,
        cut@.len() >= old(buf)@.len() + 4 ==> scan.tail == (FrameTail::Truncated {
            at: (old(buf)@.len() + 4) as usize,
        }),
        cut@.len() < old(buf)@.len() + 4 ==> scan.tail == (FrameTail::Trailing {
            count: (cut@.len() - old(buf)@.len()) as usize,
        }),
{
    let a = old(buf)@;
    let f = frames::frame(raw@);
    let b = cut@.skip(a.len() as int);
    vstd::bytes::lemma_auto_spec_u32_to_from_le_bytes();
    assert(cut@ =~= a + b);
    assert(b =~= f.take(b.len() as int));
    if frames::whole_frame_at(b, 0) {
        assert(b.subrange(0, 4) =~= f.subrange(0, 4));
        assert(f.subrange(0, 4) =~= vstd::bytes::spec_u32_to_le_bytes(raw@.len() as u32));
        assert(frames::prefix_at(b, 0) == raw@.len());
    }
    assert(frames::payloads_from(b, 0) =~= Seq::<Seq<u8>>::empty());
    frames::law_append_reads_after(a, b);
    frames::lemma_tail_behind(a, b, 0);
    assert((a + b).subrange(a.len() as int, a.len() as int + 4) =~= b.subrange(0, 4) || b.len() < 4);
    let was = frames::views(scan_before.frames@);
    let now = frames::views(scan.frames@);
    assert(now =~= was);
    assert(scan.frames@.len() == now.len());
    assert forall|i: int| 0 <= i < scan_before.frames@.len() implies (
    #[trigger] scan.frames@[i])@ == scan_before.frames@[i]@ by {
        assert(now[i] == was[i]);
    }
}

/// Entries are written as one frame each, in order, behind what was there; taking the file apart
/// gives the bytes that each was serialised to.
pub proof fn law_written_entries_are_framed(
    buf: &mut Vec<u8>,
    entries: &Vec<LogEntry>,
    before: &[u8],
    after: &[u8],
    scan_before: FrameScan,
    scan: FrameScan,
    i: int,
)
    requires
        call_ensures(encode_entries_into, (buf, entries), Ok::<(), DataError>(())),
        before@ == old(buf)@,
        after@ == final(buf)@,
        call_ensures(split_frames, (before,), scan_before),
        scan_before.tail == FrameTail::Clean,
        call_ensures(split_frames, (after,), scan),
        0 <= i < entries@.len(),
    ensures
        scan.tail == FrameTail::Clean,
        scan.frames@.len() == scan_before.frames@.len() + entries@.len(),
        entries@[i].encoded is Ok,
        scan.frames@[scan_before.frames@.len() + i]@ == entries@[i].encoded->Ok_0@,
{
    let v = log_table::entry_views(entries@);
    log_open::lemma_raws_fit(v);
    frames::law_frames_round_trip(file_log::raws(v));
    frames::law_append_reads_after(old(buf)@, file_log::encoded_bytes(v));
    let was = frames::views(scan_before.frames@);
    let now = frames::views(scan.frames@);
    assert(now =~= was + file_log::raws(v));
    assert(scan.frames@.len() == now.len());
    assert(file_log::encodable(v[i]));
    assert(v[i] == entries@[i]@);
    assert(now[was.len() + i] == file_log::raws(v)[i]);
}

/// Entries are refused exactly where one of them was not serialised, or is longer than a frame can
/// be; the first such entry is the reason.
pub proof fn law_entries_that_do_not_fit_are_refused(
    buf: &mut Vec<u8>,
    entries: &Vec<LogEntry>,
    r: Result<(), DataError>,
    i: int,
)
    requires
        call_ensures(encode_entries_into, (buf, entries), r),
        0 <= i < entries@.len(),
        forall|j: int|
            0 <= j < i ==> (#[trigger] entries@[j]).encoded is Ok
                && entries@[j].encoded->Ok_0@.len() <= u32::MAX,
    ensures
        r is Ok ==> entries@[i].encoded is Ok && entries@[i].encoded->Ok_0@.len() <= u32::MAX,
        entries@[i].encoded is Err ==> r is Err && r->Err_0 is Encode && r->Err_0->Encode_0@
            == entries@[i].encoded->Err_0@,
        entries@[i].encoded is Ok && entries@[i].encoded->Ok_0@.len() > u32::MAX ==> r is Err
            && r->Err_0 is EntryTooLarge,
{
    let v = log_table::entry_views(entries@);
    assert(v[i] == entries@[i]@);
    if r is Err {
        let e = r->Err_0;
        let k = choose|k: int| #[trigger]
            file_log::first_bad(v, k) && file_log::is_fault_of(e, v[k]) && final(buf)@ == old(
                buf,
            )@ + file_log::encoded_bytes(v.take(k));
        assert(v[k] == entries@[k]@);
        if i < k {
            assert(v.take(k)[i] == v[i]);
            assert(file_log::encodable(v[i]));
        }
        if k < i {
            assert(entries@[k].encoded is Ok);
        }
    } else {
        assert(file_log::encodable(v[i]));
    }
}

/// Each level syncs by its own call, none at `Os`; the hard state is always synced, as hard as the
/// log or harder.
pub proof fn law_levels_are_synced(
    level: FileLogSyncLevel,
    call: SyncCall,
    hard: FileLogSyncLevel,
    hard_call: SyncCall,
)
    requires
        call_ensures(sync_file, (level,), call),
        call_ensures(hard_state_sync_level, (level,), hard),
        call_ensures(sync_file, (hard,), hard_call),
    ensures
        call == SyncCall::Nothing <==> level == FileLogSyncLevel::Os,
        call == SyncCall::SyncData <==> level == FileLogSyncLevel::Data,
        call == SyncCall::SyncAll <==> level == FileLogSyncLevel::All,
        hard_call != SyncCall::Nothing,
        call != SyncCall::Nothing ==> hard_call == call,
        level == FileLogSyncLevel::Os ==> hard_call == SyncCall::SyncData,
{
}

/// Level numbers can be read back: exactly three numbers are levels, and each level's number leads
/// to it.
pub proof fn law_level_numbers_are_read_back(
    level: FileLogSyncLevel,
    n: u8,
    back: Option<FileLogSyncLevel>,
    v: u8,
    r: Option<FileLogSyncLevel>,
    m: u8,
)
    requires
        call_ensures(FileLogSyncLevel::as_u8, (level,), n),
        call_ensures(FileLogSyncLevel::from_u8, (n,), back),
        call_ensures(FileLogSyncLevel::from_u8, (v,), r),
        r is Some ==> call_ensures(FileLogSyncLevel::as_u8, (r->Some_0,), m),
    ensures
        back == Some(level),
        r is Some <==> v <= 2,
        r is Some ==> m == v,
        level == FileLogSyncLevel::Os ==> n == 0,
        level == FileLogSyncLevel::All ==> n == 2,
{
}

/// The temporary file of another file is another file, and files with different names have
/// different ones.
pub proof fn law_temporary_files_are_apart(a: &str, b: &str, ta: String, tb: String)
    requires
        call_ensures(temp_swap_path, (Some(a),), ta),
        call_ensures(temp_swap_path, (Some(b),), tb),
    ensures
        ta@ == tb@ ==> a@ == b@,
        ta@ != a@,
        ta@.len() > a@.len(),
        ta@.take(a@.len() as int) == a@,
{
    reveal_strlit(".tmp");
    assert(ta@.take(a@.len() as int) =~= a@);
    assert(tb@.take(b@.len() as int) =~= b@);
}

/// A file is replaced in full at every level. Where the level syncs, a power loss after any number of
/// steps leaves the old contents or the new ones, and after all of them the new ones; so it is for
/// the log file that is written anew.
pub proof fn law_replacing_is_atomic(
    level: FileLogSyncLevel,
    replace: Vec<ReplaceStep>,
    again: Vec<ReplaceStep>,
    before: Option<Seq<u8>>,
    contents: Seq<u8>,
    done: int,
    c: Option<Seq<u8>>,
)
    requires
        call_ensures(atomic_replace, (level,), replace),
        call_ensures(rewrite_replace, (level,), again),
    ensures
        durability::after_steps(durability::untouched(before), contents, replace@).renamed,
        durability::after_steps(durability::untouched(before), contents, replace@).temp == contents,
        durability::after_steps(durability::untouched(before), contents, again@).renamed,
        durability::after_steps(durability::untouched(before), contents, again@).temp == contents,
        level != FileLogSyncLevel::Os && 0 <= done <= replace@.len() && durability::may_survive(
            durability::after_steps(
                durability::untouched(before),
                contents,
                replace@.take(done),
            ),
            c,
        ) ==> c == before || c == Some(contents),
        level != FileLogSyncLevel::Os && durability::may_survive(
            durability::after_steps(durability::untouched(before), contents, replace@),
            c,
        ) ==> c == Some(contents),
        level != FileLogSyncLevel::Os && 0 <= done <= again@.len() && durability::may_survive(
            durability::after_steps(durability::untouched(before), contents, again@.take(done)),
            c,
        ) ==> c == before || c == Some(contents),
        level != FileLogSyncLevel::Os && durability::may_survive(
            durability::after_steps(durability::untouched(before), contents, again@),
            c,
        ) ==> c == Some(contents),
{
    lemma_replaced(replace@, before, contents);
    lemma_replaced(again@, before, contents);
    if level != FileLogSyncLevel::Os {
        assert(replace@.take(replace@.len() as int) =~= replace@);
        assert(again@.take(again@.len() as int) =~= again@);
        if 0 <= done <= replace@.len() && durability::may_survive(
            durability::after_steps(
                durability::untouched(before),
                contents,
                replace@.take(done),
            ),
            c,
        ) {
            durability::law_replace_is_atomic(before, contents, level, done, c);
        }
        if durability::may_survive(
            durability::after_steps(durability::untouched(before), contents, replace@),
            c,
        ) {
            durability::law_replace_is_atomic(before, contents, level, replace@.len() as int, c);
        }
        if 0 <= done <= again@.len() && durability::may_survive(
            durability::after_steps(durability::untouched(before), contents, again@.take(done)),
            c,
        ) {
            durability::law_rewrite_is_atomic(before, contents, level, done, c);
        }
        if durability::may_survive(
            durability::after_steps(durability::untouched(before), contents, again@),
            c,
        ) {
            durability::law_rewrite_is_atomic(before, contents, level, again@.len() as int, c);
        }
    }
}

proof fn lemma_replaced(steps: Seq<ReplaceStep>, before: Option<Seq<u8>>, contents: Seq<u8>)
    requires
        steps.len() >= 4,
        steps[0] == ReplaceStep::CreateTemp,
        steps[1] == ReplaceStep::WriteTemp,
        steps[2] is SyncTemp,
        steps[3] == ReplaceStep::Rename,
        forall|i: int|
            4 <= i < steps.len() ==> #[trigger] steps[i] is SyncDir || steps[i] is SyncTarget,
    ensures
        durability::after_steps(durability::untouched(before), contents, steps).renamed,
        durability::after_steps(durability::untouched(before), contents, steps).temp == contents,
    decreases steps.len(),
{
    if steps.len() > 4 {
        assert(steps[steps.len() - 1] is SyncDir || steps[steps.len() - 1] is SyncTarget);
        assert forall|i: int| 4 <= i < steps.drop_last().len() implies #[trigger] steps.drop_last()[i]
             is SyncDir || steps.drop_last()[i] is SyncTarget by {
            assert(steps[i] is SyncDir || steps[i] is SyncTarget);
        }
        lemma_replaced(steps.drop_last(), before, contents);
    } else {
        reveal_with_fuel(durability::after_steps, 5);
        let a = steps.drop_last();
        let b = a.drop_last();
        let c = b.drop_last();
        assert(c.drop_last() =~= Seq::<ReplaceStep>::empty());
        assert(c.last() == steps[0]);
        assert(b.last() == steps[1]);
        assert(a.last() == steps[2]);
        assert(steps.last() == steps[3]);
    }
}

/// At `Os` a rewrite of the log waits for no sync at all.
pub proof fn law_rewrite_at_os_syncs_nothing(steps: Vec<ReplaceStep>, i: int)
    requires
        call_ensures(rewrite_replace, (FileLogSyncLevel::Os,), steps),
        0 <= i < steps@.len(),
    ensures
        !(steps@[i] is SyncDir),
        steps@[i] is SyncTemp ==> steps@[i] == ReplaceStep::SyncTemp(SyncCall::Nothing),
        steps@[i] is SyncTarget ==> steps@[i] == ReplaceStep::SyncTarget(SyncCall::Nothing),
{
}

/// Every callback of a batch is told of what became of the batch, in order.
pub proof fn law_callbacks_are_told_the_result<K: Copy>(
    callbacks: &Vec<u64>,
    res: &Result<(), IoFault<K>>,
    told: Vec<(u64, Result<(), IoFault<K>>)>,
    i: int,
)
    requires
        call_ensures(complete_flush_callbacks::<K>, (callbacks, res), told),
        0 <= i < callbacks@.len(),
    ensures
        told@.len() == callbacks@.len(),
        told@[i].0 == callbacks@[i],
        told@[i].1 is Ok <==> *res is Ok,
        *res is Err ==> told@[i].1->Err_0.kind == res->Err_0.kind && told@[i].1->Err_0.message@
            == res->Err_0.message@,
{
    assert(flush::told_all(told@, callbacks@, *res));
    assert(told@[i].0 == callbacks@[i]);
}

/// A rewrite changes neither the log in memory nor the hard state. The hard state that it has written
/// is the one in memory, at least at `Data` and at least at the log's level; what it writes to the
/// old file is all that was pending, at the log's level; and the file that it puts in place has one
/// frame for each entry of the log, by rising index.
pub proof fn law_rewrite_writes_what_is_in_memory<K: Copy>(
    log: &mut FileLogInner,
    stage: RewriteStage<K>,
    event: RewriteEvent<K>,
    r: (RewriteStage<K>, RewriteAction<K>),
    file: &[u8],
    scan: FrameScan,
    steps: Vec<ReplaceStep>,
    i: int,
)
    requires
        old(log).wf(),
        rewrite::awaits(stage, event),
        call_ensures(rewrite_log::<K>, (log, stage, event), r),
        r.1 is Replace ==> file@ == r.1->contents@,
        call_ensures(split_frames, (file,), scan),
        call_ensures(rewrite_replace, (old(log).sync_level,), steps),
    ensures
        final(log).log == old(log).log,
        final(log).vote == old(log).vote,
        final(log).committed == old(log).committed,
        final(log).last_purged_log_id == old(log).last_purged_log_id,
        final(log).sync_level == old(log).sync_level,
        r.1 is Persist ==> {
            &&& r.1->state.vote == old(log).vote
            &&& r.1->state.committed == old(log).committed
            &&& r.1->state.last_purged_log_id == old(log).last_purged_log_id
            &&& r.1->Persist_sync_level != FileLogSyncLevel::Os
            &&& old(log).sync_level == FileLogSyncLevel::All ==> r.1->Persist_sync_level
                == FileLogSyncLevel::All
        },
        r.1 is Write ==> r.1->buf@ == old(log).pending_buf@ && r.1->Write_sync_level == old(
            log,
        ).sync_level && final(log).pending_buf@.len() == 0,
        r.1 is Replace ==> {
            &&& r.1->steps@ == steps@
            &&& scan.tail == FrameTail::Clean
            &&& scan.frames@.len() == old(log).log.ordered().len()
            &&& 0 <= i < scan.frames@.len() ==> old(log).log.ordered()[i].encoded is Ok
                && scan.frames@[i]@ == old(log).log.ordered()[i].encoded->Ok_0
            &&& !final(log).hard_state_dirty
        },
        r.1 is Return && r.1->Return_0 is Ok ==> stage is Removing,
        r.1 is RemoveOld ==> stage is Replacing && event->Replaced_0 is Ok,
{
    if r.1 is Replace {
        let v = old(log).log.ordered();
        log_open::lemma_raws_fit(v);
        frames::law_frames_round_trip(file_log::raws(v));
        assert(file@ == file_log::encoded_bytes(v));
        let now = frames::views(scan.frames@);
        assert(now == file_log::raws(v));
        assert(scan.frames@.len() == now.len());
        if 0 <= i < scan.frames@.len() {
            assert(file_log::encodable(v[i]));
            assert(now[i] == file_log::raws(v)[i]);
        }
    }
}

/// A failure ends a rewrite with that very failure, once the callbacks of what it was writing have
/// been told of it.
pub proof fn law_failed_rewrite_ends_with_its_failure<K: Copy>(
    log: &mut FileLogInner,
    stage: RewriteStage<K>,
    event: RewriteEvent<K>,
    r: (RewriteStage<K>, RewriteAction<K>),
)
    requires
        old(log).wf(),
        rewrite::awaits(stage, event),
        call_ensures(rewrite_log::<K>, (log, stage, event), r),
    ensures
        event is Persisted && event->Persisted_0 is Err ==> r.1 == RewriteAction::<K>::Return(
            Err(RewriteFault::Io(event->Persisted_0->Err_0)),
        ) && r.0 is Done,
        event is Replaced && event->Replaced_0 is Err ==> r.1 == RewriteAction::<K>::Return(
            Err(RewriteFault::Io(event->Replaced_0->Err_0)),
        ) && r.0 is Done,
        stage is Failing ==> r.1 == RewriteAction::<K>::Return(
            Err(RewriteFault::Io(stage->fault)),
        ) && r.0 is Done,
        event is Written && event->Written_0 is Err ==> r.0 == (RewriteStage::Failing {
            fault: event->Written_0->Err_0,
        }) && r.1 is Tell,
        event is OpenFailed ==> r.0 == (RewriteStage::Failing { fault: event->OpenFailed_0 })
            && r.1 is Tell,
        stage is Flushing ==> r.1 is Tell && r.1->told@.len() == stage->callbacks@.len(),
        stage is Flushing && event is Written && event->Written_0 is Ok ==> r.0 is Flushed,
{
}

/// The newest format that is there is read; nothing is read exactly where there is none.
pub proof fn law_newest_format_is_read(bin: bool, ndjson: bool, legacy: bool, r: LogSource)
    requires
        call_ensures(log_source, (bin, ndjson, legacy), r),
    ensures
        r == LogSource::Bin <==> bin,
        r == LogSource::Ndjson <==> ndjson && !bin,
        r == LogSource::Legacy <==> legacy && !ndjson && !bin,
        r == LogSource::Nothing <==> !bin && !ndjson && !legacy,
{
}

/// The lines that are read are those with something on them, in order, each once.
pub proof fn law_blank_lines_are_passed_over(
    lines: &Vec<String>,
    r: Vec<usize>,
    n: int,
    i: int,
    j: int,
)
    requires
        call_ensures(nonblank_lines, (lines,), r),
    ensures
        0 <= i < r@.len() ==> r@[i] < lines@.len() && exists|c: int|
            0 <= c < lines@[r@[i] as int]@.len() && !text::is_white_space(
                #[trigger] lines@[r@[i] as int]@[c],
            ),
        0 <= i < j < r@.len() ==> r@[i] < r@[j],
        0 <= n < lines@.len() && (exists|c: int|
            0 <= c < lines@[n]@.len() && !text::is_white_space(#[trigger] lines@[n]@[c]))
            ==> order::has_position(r@, n),
{
    if 0 <= i < r@.len() {
        let line = lines@[r@[i] as int]@;
        assert(!text::is_blank_text(line));
    }
    if 0 <= n < lines@.len() && (exists|c: int|
        0 <= c < lines@[n]@.len() && !text::is_white_space(#[trigger] lines@[n]@[c])) {
        assert(!text::is_blank_text(lines@[n]@));
    }
}

/// A log of entries holds the last of each index, and nothing else.
pub proof fn law_log_holds_the_last_of_each_index(entries: Vec<LogEntry>, r: LogTable, i: int, k: u64)
    requires
        call_ensures(table_of, (entries,), r),
    ensures
        r.wf(),
        0 <= i < entries@.len() && crate::store_laws::is_last_of_its_index(entries@, i)
            ==> r@.contains_key(entries@[i].log_id.index) && r@[entries@[i].log_id.index]
            == entries@[i]@,
        r@.contains_key(k) ==> exists|j: int|
            0 <= j < entries@.len() && (#[trigger] entries@[j]).log_id.index == k,
{
    let v = log_table::entry_views(entries@);
    lemma_last_of_each_index(v, i, k);
    if 0 <= i < entries@.len() && crate::store_laws::is_last_of_its_index(entries@, i) {
        assert(v[i] == entries@[i]@);
        assert forall|j: int| i < j < v.len() implies (#[trigger] v[j]).log_id.index
            != v[i].log_id.index by {
            assert(v[j] == entries@[j]@);
        }
    }
    if r@.contains_key(k) {
        let j = choose|j: int| 0 <= j < v.len() && (#[trigger] v[j]).log_id.index == k;
        assert(entries@[j].log_id.index == k);
    }
}

proof fn lemma_last_of_each_index(v: Seq<log_table::EntryView>, i: int, k: u64)
    ensures
        0 <= i < v.len() && (forall|j: int|
            i < j < v.len() ==> (#[trigger] v[j]).log_id.index != v[i].log_id.index)
            ==> log_table::replay(v).contains_key(v[i].log_id.index) && log_table::replay(
            v,
        )[v[i].log_id.index] == v[i],
        log_table::replay(v).contains_key(k) ==> exists|j: int|
            0 <= j < v.len() && (#[trigger] v[j]).log_id.index == k,
    decreases v.len(),
{
    if v.len() > 0 {
        let init = v.drop_last();
        lemma_last_of_each_index(init, i, k);
        if 0 <= i < init.len() && (forall|j: int|
            i < j < v.len() ==> (#[trigger] v[j]).log_id.index != v[i].log_id.index) {
            assert(v[v.len() - 1].log_id.index != v[i].log_id.index);
            assert forall|j: int| i < j < init.len() implies (#[trigger] init[j]).log_id.index
                != init[i].log_id.index by {
                assert(v[j].log_id.index != v[i].log_id.index);
            }
        }
        if log_table::replay(v).contains_key(k) && v.last().log_id.index != k {
            let j = choose|j: int| 0 <= j < init.len() && (#[trigger] init[j]).log_id.index == k;
            assert(v[j].log_id.index == k);
        } else if log_table::replay(v).contains_key(k) {
            assert(v[v.len() - 1].log_id.index == k);
        }
    }
}

/// A log file loads exactly where every frame was read as an entry and no bytes are left over; it
/// then holds the last entry of each index, and nothing is migrated.
pub proof fn law_log_file_loads_whole(
    dir: &str,
    path: String,
    tail: FrameTail,
    decoded: Vec<Result<LogEntry, String>>,
    r: Result<LoadedLog, DataError>,
    i: int,
    k: u64,
)
    requires
        call_ensures(load_log, (dir, LogFound::Bin { path, tail, decoded }), r),
    ensures
        r is Ok <==> tail == FrameTail::Clean && forall|j: int|
            0 <= j < decoded@.len() ==> #[trigger] decoded@[j] is Ok,
        r is Ok ==> r->Ok_0.migrate is None && r->Ok_0.log.wf(),
        r is Ok && 0 <= i < decoded@.len() && (forall|j: int|
            i < j < decoded@.len() ==> (#[trigger] decoded@[j])->Ok_0.log_id.index
                != decoded@[i]->Ok_0.log_id.index) ==> r->Ok_0.log@.contains_key(
            decoded@[i]->Ok_0.log_id.index,
        ) && r->Ok_0.log@[decoded@[i]->Ok_0.log_id.index] == decoded@[i]->Ok_0@,
        r is Ok && r->Ok_0.log@.contains_key(k) ==> exists|j: int|
            0 <= j < decoded@.len() && (#[trigger] decoded@[j])->Ok_0.log_id.index == k,
        r is Err && r->Err_0 is Truncated ==> tail == (FrameTail::Truncated { at: r->Err_0->at }),
        r is Err && r->Err_0 is Trailing ==> tail == (FrameTail::Trailing {
            count: r->Err_0->count,
        }),
        r is Err ==> r->Err_0 is Truncated || r->Err_0 is Trailing || r->Err_0 is Decode,
{
    lemma_all_read(decoded@);
    if r is Ok {
        lemma_loaded(decoded@, i, k);
    }
}

proof fn lemma_all_read(decoded: Seq<Result<LogEntry, String>>)
    ensures
        log_open::all_read(decoded) <==> forall|j: int|
            0 <= j < decoded.len() ==> #[trigger] decoded[j] is Ok,
{
    if log_open::all_read(decoded) {
        assert forall|j: int| 0 <= j < decoded.len() implies #[trigger] decoded[j] is Ok by {
            assert(log_open::read_at(decoded, j));
        }
    }
}

proof fn lemma_loaded(decoded: Seq<Result<LogEntry, String>>, i: int, k: u64)
    ensures
        0 <= i < decoded.len() && (forall|j: int|
            i < j < decoded.len() ==> (#[trigger] decoded[j])->Ok_0.log_id.index
                != decoded[i]->Ok_0.log_id.index) ==> log_table::replay(
            log_open::read_views(decoded),
        ).contains_key(decoded[i]->Ok_0.log_id.index) && log_table::replay(
            log_open::read_views(decoded),
        )[decoded[i]->Ok_0.log_id.index] == decoded[i]->Ok_0@,
        log_table::replay(log_open::read_views(decoded)).contains_key(k) ==> exists|j: int|
            0 <= j < decoded.len() && (#[trigger] decoded[j])->Ok_0.log_id.index == k,
{
    let v = log_open::read_views(decoded);
    lemma_last_of_each_index(v, i, k);
    if 0 <= i < decoded.len() && (forall|j: int|
        i < j < decoded.len() ==> (#[trigger] decoded[j])->Ok_0.log_id.index
            != decoded[i]->Ok_0.log_id.index) {
        assert(v[i] == decoded[i]->Ok_0@);
        assert forall|j: int| i < j < v.len() implies (#[trigger] v[j]).log_id.index
            != v[i].log_id.index by {
            assert(v[j] == decoded[j]->Ok_0@);
        }
    }
    if log_table::replay(v).contains_key(k) {
        let j = choose|j: int| 0 <= j < v.len() && (#[trigger] v[j]).log_id.index == k;
        assert(decoded[j]->Ok_0.log_id.index == k);
    }
}

/// A log of lines loads exactly where every line that has something on it was read as an entry. A log
/// with entries is migrated as it was read, without a hard state of its own; the first line that was
/// not read is named by its number, counted from one.
pub proof fn law_log_of_lines_loads_whole(
    dir: &str,
    path: String,
    lines: Vec<String>,
    at: Vec<usize>,
    decoded: Vec<Result<LogEntry, String>>,
    r: Result<LoadedLog, DataError>,
    i: int,
)
    requires
        log_open::are_nonblank_lines(lines@, at@),
        at@.len() == decoded@.len(),
        call_ensures(load_log, (dir, LogFound::Ndjson { path, lines, at, decoded }), r),
        0 <= i < decoded@.len(),
        forall|j: int| 0 <= j < i ==> #[trigger] decoded@[j] is Ok,
    ensures
        decoded@[i] is Err ==> r is Err && r->Err_0 is BadLine && r->Err_0->line == at@[i] + 1
            && r->Err_0->reason@ == decoded@[i]->Err_0@ && r->Err_0->BadLine_path@ == path@,
        decoded@[i] is Ok && i == decoded@.len() - 1 ==> r is Ok,
        r is Ok ==> decoded@[i] is Ok && r->Ok_0.migrate is Some && {
            let inner = r->Ok_0.migrate->Some_0;
            &&& inner.log@ == r->Ok_0.log@
            &&& inner.dir@ == dir@
            &&& inner.vote is None
            &&& inner.committed is None
            &&& inner.last_purged_log_id is None
            &&& inner.pending_buf@.len() == 0
            &&& inner.wf()
        },
        r is Ok && i == decoded@.len() - 1 ==> r->Ok_0.log@.contains_key(
            decoded@[i]->Ok_0.log_id.index,
        ) && r->Ok_0.log@[decoded@[i]->Ok_0.log_id.index] == decoded@[i]->Ok_0@,
{
    lemma_all_read(decoded@);
    if r is Err {
        let e = r->Err_0;
        if e is BadLine {
            let k = choose|k: int| #[trigger]
                log_open::first_unread(decoded@, k) && e->BadLine_path@ == path@ && e->line
                    == at@[k] + 1 && e->reason@ == decoded@[k]->Err_0@;
            assert(!log_open::read_at(decoded@, k));
            if i < k {
                assert(log_open::read_at(decoded@, i));
            }
            if k < i {
                assert(decoded@[k] is Ok);
            }
        }
    } else {
        let last = decoded@.len() - 1;
        lemma_loaded(decoded@, last, decoded@[last]->Ok_0.log_id.index);
        let log = r->Ok_0.log;
        assert(log@.contains_key(decoded@[last]->Ok_0.log_id.index));
        lemma_holding_log_has_entries(log, decoded@[last]->Ok_0.log_id.index);
    }
}

proof fn lemma_holding_log_has_entries(log: LogTable, k: u64)
    requires
        log.wf(),
        log@.contains_key(k),
    ensures
        log.ordered().len() > 0,
{
    log_table::lemma_replay_dom(log.ordered(), k);
}

/// The oldest format loads exactly where it was read, as the entries that were read; nothing at all
/// loads as an empty log, with nothing to migrate.
pub proof fn law_oldest_format_loads(
    dir: &str,
    entries: Vec<LogEntry>,
    r: Result<LoadedLog, DataError>,
    table: LogTable,
    why: String,
    failed: Result<LoadedLog, DataError>,
    nothing: Result<LoadedLog, DataError>,
    k: u64,
)
    requires
        call_ensures(load_log, (dir, LogFound::Legacy(Ok(entries))), r),
        call_ensures(table_of, (entries,), table),
        call_ensures(load_log, (dir, LogFound::Legacy(Err(why))), failed),
        call_ensures(load_log, (dir, LogFound::Nothing), nothing),
    ensures
        r is Ok,
        r->Ok_0.log@ == table@,
        r->Ok_0.migrate is Some ==> r->Ok_0.migrate->Some_0.log@ == table@,
        failed is Err,
        failed->Err_0 is Decode,
        failed->Err_0->Decode_0@ == why@,
        nothing is Ok,
        !nothing->Ok_0.log@.contains_key(k),
        nothing->Ok_0.migrate is None,
{
    lemma_last_of_each_index(Seq::<log_table::EntryView>::empty(), 0, k);
    let log = nothing->Ok_0.log;
    if log.ordered().len() > 0 {
        let first = log.ordered()[0].log_id.index;
        log_table::lemma_replay_dom(log.ordered(), first);
        assert(log_table::has_index(log.ordered(), 0, first));
    }
}

/// A log is migrated exactly where it was read from an older format and has an entry.
pub proof fn law_only_older_formats_are_migrated(
    dir: &str,
    source: LogSource,
    log: &LogTable,
    r: Option<FileLogInner>,
    k: u64,
)
    requires
        log.wf(),
        log@.contains_key(k),
        call_ensures(migration, (dir, source, log), r),
    ensures
        r is Some <==> source != LogSource::Bin,
        r is Some ==> r->Some_0.log@ == log@ && r->Some_0.dir@ == dir@ && r->Some_0.vote is None
            && r->Some_0.committed is None && r->Some_0.last_purged_log_id is None,
        r is Some ==> r->Some_0.sync_level == FileLogSyncLevel::Os && !r->Some_0.writer_open
            && !r->Some_0.hard_state_dirty && r->Some_0.writer_cap == 65536
            && r->Some_0.pending_buf@.len() == 0 && r->Some_0.pending_callbacks@.len() == 0,
{
    lemma_holding_log_has_entries(*log, k);
}

/// However a store is opened, it has the log and the hard state that it was given, with nothing
/// pending, in its directory; what is not asked for is off, and the level is `Os` unless another is
/// asked for.
pub proof fn law_store_opens_with_what_it_was_given(
    dir: String,
    coalesce_us: u64,
    level: FileLogSyncLevel,
    stream: FileLogStreamOptions,
    hard: HardState,
    log: LogTable,
    full: FileLogStore,
    plain: FileLogStore,
    windowed: FileLogStore,
    leveled: FileLogStore,
    store: &FileLogStore,
    told_level: FileLogSyncLevel,
    told_stream: FileLogStreamOptions,
)
    requires
        log.wf(),
        call_ensures(
            FileLogStore::open_with_full_options,
            (dir, coalesce_us, level, stream, hard, log),
            full,
        ),
        call_ensures(FileLogStore::open, (dir, hard, log), plain),
        call_ensures(FileLogStore::open_with_coalesce, (dir, coalesce_us, hard, log), windowed),
        call_ensures(
            FileLogStore::open_with_options,
            (dir, coalesce_us, level, hard, log),
            leveled,
        ),
        *store == full,
        call_ensures(FileLogStore::sync_level, (store,), told_level),
        call_ensures(FileLogStore::stream_options, (store,), told_stream),
    ensures
        full.inner.log == log,
        full.inner.vote == hard.vote,
        full.inner.committed == hard.committed,
        full.inner.last_purged_log_id == hard.last_purged_log_id,
        full.inner.dir@ == dir@,
        full.inner.pending_buf@.len() == 0,
        full.inner.pending_callbacks@.len() == 0,
        !full.inner.hard_state_dirty,
        !full.inner.writer_open,
        full.inner.sync_level == level,
        full.control.coalesce_us == coalesce_us,
        !full.control.flusher_running,
        told_level == level,
        told_stream == stream,
        full.inner.writer_cap >= stream.stream_buf_bytes,
        full.inner.writer_cap >= 65536,
        full.inner.writer_cap == stream.stream_buf_bytes || full.inner.writer_cap == 65536,
        plain.inner.log == log,
        plain.inner.hard() == hard,
        plain.inner.sync_level == FileLogSyncLevel::Os,
        plain.control.coalesce_us == 0,
        windowed.inner.log == log,
        windowed.inner.hard() == hard,
        windowed.inner.sync_level == FileLogSyncLevel::Os,
        windowed.control.coalesce_us == coalesce_us,
        leveled.inner.log == log,
        leveled.inner.hard() == hard,
        leveled.inner.sync_level == level,
        leveled.control.coalesce_us == coalesce_us,
        forall|s: FileLogStore|
            #![trigger s.control]
            s == plain || s == windowed || s == leveled ==> s.control.stream.stream_buf_bytes == 0
                && s.control.stream.stream_flush_ms == 0 && !s.control.stream.hold_overlap
                && s.control.sync_level == s.inner.sync_level,
        full.control.sync_level == level,
{
}

/// Appends are flushed as the store's settings say: before they return where nothing defers them.
/// Deferred, the flusher is started once, and woken where a cap is hit or overlap is not held. An
/// append without entries is complete at once.
pub proof fn law_append_is_flushed_as_set(
    store: &mut FileLogStore,
    entries: Vec<LogEntry>,
    callback: u64,
    plan: AppendPlan,
    control: &StreamControl,
    defers: bool,
    hit: bool,
    pending_len: usize,
    pending_callbacks: usize,
)
    requires
        old(store).wf(),
        call_ensures(FileLogStore::append, (store, entries, callback), Ok(plan)),
        *control == old(store).control,
        pending_len == final(store).inner.pending_buf@.len(),
        pending_callbacks == final(store).inner.pending_callbacks@.len(),
        call_ensures(StreamControl::defer_enabled, (control,), defers),
        call_ensures(
            StreamControl::hit_force_flush_cap,
            (control, pending_len, pending_callbacks),
            hit,
        ),
    ensures
        plan.complete is Some <==> entries@.len() == 0,
        plan.complete is Some ==> plan.complete->Some_0 == callback,
        plan.then_flush is FlushNow <==> !defers,
        defers ==> (plan.then_flush->wake <==> hit || !control.stream.hold_overlap),
        defers ==> (plan.then_flush->start_flusher <==> !control.flusher_running),
        defers ==> final(store).control.flusher_running,
        !defers ==> final(store).control == old(store).control,
        final(store).control.sync_level == old(store).control.sync_level,
        final(store).control.stream == old(store).control.stream,
        final(store).control.coalesce_us == old(store).control.coalesce_us,
{
}

/// Flushing is left to the background where a window is set, or at `Os` a threshold or a timer; an
/// append may wait only where that is so and no cap is hit.
pub proof fn law_appends_wait_where_flushing_is_deferred(
    c: &StreamControl,
    pending_len: usize,
    pending_callbacks: usize,
    defers: bool,
    hit: bool,
    waits: bool,
)
    requires
        call_ensures(StreamControl::defer_enabled, (c,), defers),
        call_ensures(StreamControl::hit_force_flush_cap, (c, pending_len, pending_callbacks), hit),
        call_ensures(StreamControl::should_defer, (c, pending_len, pending_callbacks), waits),
    ensures
        c.coalesce_us > 0 ==> defers,
        c.coalesce_us == 0 && c.sync_level != FileLogSyncLevel::Os ==> !defers,
        c.coalesce_us == 0 && c.stream.stream_buf_bytes == 0 && c.stream.stream_flush_ms == 0
            ==> !defers,
        c.sync_level == FileLogSyncLevel::Os && c.stream.stream_buf_bytes > 0 ==> defers,
        c.sync_level == FileLogSyncLevel::Os && c.stream.stream_flush_ms > 0 ==> defers,
        waits ==> defers && !hit,
        defers && !hit && pending_callbacks <= 1 ==> waits,
        defers && !hit && c.stream.hold_overlap && c.coalesce_us > 0 ==> waits,
        waits && pending_callbacks > 1 ==> c.stream.hold_overlap && c.coalesce_us > 0,
{
}

/// A cap that is hit stays hit with more pending. Where the threshold counts, it is hit exactly from
/// there on, or from 8192 callbacks on while overlap is held; where nothing is set and overlap is
/// held, from one MiB on.
pub proof fn law_caps_bound_what_is_pending(
    c: &StreamControl,
    len_a: usize,
    callbacks_a: usize,
    a: bool,
    len_b: usize,
    callbacks_b: usize,
    b: bool,
)
    requires
        call_ensures(StreamControl::hit_force_flush_cap, (c, len_a, callbacks_a), a),
        call_ensures(StreamControl::hit_force_flush_cap, (c, len_b, callbacks_b), b),
        len_a <= len_b,
        callbacks_a <= callbacks_b,
    ensures
        a ==> b,
        c.stream.hold_overlap && callbacks_a >= 8192 ==> a,
        c.stream.stream_buf_bytes > 0 && (c.stream.hold_overlap || c.sync_level
            == FileLogSyncLevel::Os) && len_a >= c.stream.stream_buf_bytes ==> a,
        c.stream.stream_buf_bytes > 0 && (c.stream.hold_overlap || c.sync_level
            == FileLogSyncLevel::Os) && len_a < c.stream.stream_buf_bytes && callbacks_a < 8192
            ==> !a,
        c.stream.hold_overlap && c.stream.stream_buf_bytes == 0 && len_a >= 1048576 ==> a,
        c.stream.hold_overlap && c.stream.stream_buf_bytes == 0 && len_a < 1048576 && callbacks_a
            < 8192 ==> !a,
        !c.stream.hold_overlap && c.sync_level != FileLogSyncLevel::Os ==> !a,
        !c.stream.hold_overlap && c.stream.stream_buf_bytes == 0 ==> !a,
{
}

/// Bytes are held no longer than any window that counts, and as long as one of them; off `Os` only
/// the coalesce window counts. The flusher waits that long, and for the timer alone where overlap is
/// held; without a window it waits to be woken.
pub proof fn law_bytes_are_held_for_the_shortest_window(
    c: &StreamControl,
    us: u64,
    wait: FlusherWait,
)
    requires
        call_ensures(StreamControl::flush_wait_us, (c,), us),
        call_ensures(StreamControl::flusher_wait, (c,), wait),
    ensures
        c.sync_level != FileLogSyncLevel::Os ==> us == c.coalesce_us,
        c.coalesce_us > 0 ==> 0 < us <= c.coalesce_us,
        c.sync_level == FileLogSyncLevel::Os && c.stream.stream_flush_ms > 0 ==> 0 < us
            <= c.stream.stream_flush_ms * 1000,
        us == 0 || us == c.coalesce_us || us == c.stream.stream_flush_ms * 1000 || us == u64::MAX,
        us == u64::MAX ==> c.coalesce_us == u64::MAX || c.stream.stream_flush_ms * 1000 >= u64::MAX,
        us == 0 <==> c.coalesce_us == 0 && (c.stream.stream_flush_ms == 0 || c.sync_level
            != FileLogSyncLevel::Os),
        wait is Notify <==> us == 0,
        wait is Timer ==> wait->Timer_0 == us && c.stream.hold_overlap,
        wait is NotifyOrTimer ==> wait->NotifyOrTimer_0 == us && !c.stream.hold_overlap,
{
}

/// The flusher is started once: after the append or the call that starts it, none starts it again
/// until it has ended.
pub proof fn law_flusher_is_started_once(
    coalesce_us: u64,
    level: FileLogSyncLevel,
    stream: FileLogStreamOptions,
    fresh: StreamControl,
    c: &mut StreamControl,
    first: bool,
    again: &mut StreamControl,
    second: bool,
    ended: &mut StreamControl,
    later: &mut StreamControl,
    third: bool,
    appended: &mut StreamControl,
    plan: AfterAppend,
    pending_len: usize,
    pending_callbacks: usize,
    defers: bool,
    control: &StreamControl,
)
    requires
        call_ensures(StreamControl::new, (coalesce_us, level, stream), fresh),
        *old(c) == fresh,
        *control == fresh,
        call_ensures(StreamControl::defer_enabled, (control,), defers),
        call_ensures(StreamControl::ensure_flusher, (c,), first),
        *old(again) == *final(c),
        call_ensures(StreamControl::ensure_flusher, (again,), second),
        *old(appended) == *final(c),
        call_ensures(
            StreamControl::after_append,
            (appended, pending_len, pending_callbacks),
            plan,
        ),
        *old(ended) == *final(again),
        call_ensures(StreamControl::flusher_stopped, (ended,), ()),
        *old(later) == *final(ended),
        call_ensures(StreamControl::ensure_flusher, (later,), third),
    ensures
        fresh.coalesce_us == coalesce_us,
        fresh.sync_level == level,
        fresh.stream == stream,
        first <==> defers,
        !second,
        third <==> defers,
        plan is Defer <==> defers,
        plan is Defer ==> !plan->start_flusher,
        final(c).sync_level == level,
        final(c).stream == stream,
        final(c).coalesce_us == coalesce_us,
        final(appended).stream == stream,
        final(ended).stream == stream,
        final(ended).sync_level == level,
{
}

/// A replacement syncs the new file before it takes the target's name, as hard as the level says, and
/// the directory after; at `All` the target is synced once more. A rewrite of the log does so at
/// every level that syncs.
pub proof fn law_replacing_syncs_at_its_level(
    level: FileLogSyncLevel,
    call: SyncCall,
    replace: Vec<ReplaceStep>,
    again: Vec<ReplaceStep>,
)
    requires
        call_ensures(sync_file, (level,), call),
        call_ensures(atomic_replace, (level,), replace),
        call_ensures(rewrite_replace, (level,), again),
    ensures
        replace@.contains(ReplaceStep::SyncTemp(call)),
        replace@.contains(ReplaceStep::SyncDir),
        replace@.last() == ReplaceStep::SyncTarget(SyncCall::SyncAll) <==> level
            == FileLogSyncLevel::All,
        replace@.len() == (if level == FileLogSyncLevel::All {
            6nat
        } else {
            5nat
        }),
        again@.contains(ReplaceStep::SyncTemp(call)),
        again@.contains(ReplaceStep::SyncDir) <==> call != SyncCall::Nothing,
        call != SyncCall::Nothing ==> again@.last() == ReplaceStep::SyncTarget(call) && again@.len()
            == 6,
        call == SyncCall::Nothing ==> again@.len() == 4,
{
    assert(replace@[2] == ReplaceStep::SyncTemp(call));
    assert(replace@[4] == ReplaceStep::SyncDir);
    assert(again@[2] == ReplaceStep::SyncTemp(call));
    if call != SyncCall::Nothing {
        assert(again@[4] == ReplaceStep::SyncDir);
    }
}

/// A file that is read on its own gives what loading the directory gives of it.
pub proof fn law_files_load_as_their_directory(
    dir: &str,
    path: String,
    at_path: &str,
    tail: FrameTail,
    decoded: Vec<Result<LogEntry, String>>,
    entries: &Vec<Result<LogEntry, String>>,
    bin: Result<LogTable, DataError>,
    loaded: Result<LoadedLog, DataError>,
    lines: Vec<String>,
    line_list: &Vec<String>,
    at: Vec<usize>,
    at_list: &Vec<usize>,
    ndjson: Result<LogTable, DataError>,
    loaded_lines: Result<LoadedLog, DataError>,
)
    requires
        at_path@ == path@,
        *entries == decoded,
        call_ensures(load_bin, (at_path, tail, entries), bin),
        call_ensures(load_log, (dir, LogFound::Bin { path, tail, decoded }), loaded),
        *line_list == lines,
        *at_list == at,
        log_open::are_nonblank_lines(lines@, at@),
        at@.len() == decoded@.len(),
        call_ensures(load_ndjson, (at_path, line_list, at_list, entries), ndjson),
        call_ensures(load_log, (dir, LogFound::Ndjson { path, lines, at, decoded }), loaded_lines),
    ensures
        bin is Ok <==> loaded is Ok,
        bin is Ok ==> bin->Ok_0@ == loaded->Ok_0.log@,
        bin is Err && tail == FrameTail::Clean ==> bin->Err_0 is Decode && loaded->Err_0 is Decode
            && bin->Err_0->Decode_0@ == loaded->Err_0->Decode_0@,
        ndjson is Ok <==> loaded_lines is Ok,
        ndjson is Ok ==> ndjson->Ok_0@ == loaded_lines->Ok_0.log@,
        ndjson is Err ==> ndjson->Err_0 is BadLine && loaded_lines->Err_0 is BadLine
            && ndjson->Err_0->line == loaded_lines->Err_0->line && ndjson->Err_0->reason@
            == loaded_lines->Err_0->reason@,
{
    lemma_all_read(decoded@);
    if bin is Err && bin->Err_0 is Decode {
        let k = choose|k: int| #[trigger]
            log_open::first_unread(decoded@, k) && bin->Err_0->Decode_0@ == decoded@[k]->Err_0@;
        assert(!log_open::read_at(decoded@, k));
        if loaded->Err_0 is Decode {
            let j = choose|j: int| #[trigger]
                log_open::first_unread(decoded@, j) && loaded->Err_0->Decode_0@
                    == decoded@[j]->Err_0@;
            lemma_first_unread_is_one(decoded@, k, j);
        }
    }
    if loaded is Err && loaded->Err_0 is Decode {
        let j = choose|j: int| #[trigger]
            log_open::first_unread(decoded@, j) && loaded->Err_0->Decode_0@ == decoded@[j]->Err_0@;
        assert(!log_open::read_at(decoded@, j));
    }
    if ndjson is Err {
        let e = ndjson->Err_0;
        let k = choose|k: int| #[trigger]
            log_open::first_unread(decoded@, k) && e->BadLine_path@ == path@ && e->line == at@[k] + 1
                && e->reason@ == decoded@[k]->Err_0@;
        assert(!log_open::read_at(decoded@, k));
        let f = loaded_lines->Err_0;
        let j = choose|j: int| #[trigger]
            log_open::first_unread(decoded@, j) && f->BadLine_path@ == path@ && f->line == at@[j] + 1
                && f->reason@ == decoded@[j]->Err_0@;
        lemma_first_unread_is_one(decoded@, k, j);
    }
    if loaded_lines is Err {
        let f = loaded_lines->Err_0;
        let j = choose|j: int| #[trigger]
            log_open::first_unread(decoded@, j) && f->BadLine_path@ == path@ && f->line == at@[j] + 1
                && f->reason@ == decoded@[j]->Err_0@;
        assert(!log_open::read_at(decoded@, j));
    }
}

proof fn lemma_first_unread_is_one(decoded: Seq<Result<LogEntry, String>>, a: int, b: int)
    requires
        log_open::first_unread(decoded, a),
        log_open::first_unread(decoded, b),
    ensures
        a == b,
{
    if a < b {
        assert(log_open::read_at(decoded, a));
    }
    if b < a {
        assert(log_open::read_at(decoded, b));
    }
}

} // verus!
