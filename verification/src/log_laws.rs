//! What holds of a log from one opening to the next.

use vstd::prelude::*;

use crate::file_log;
use crate::file_log::{DataError, FileLogInner, HardState, LogState};
use crate::flush;
use crate::flush::{FlushAction, FlushEvent, FlushStep};
use crate::frames;
use crate::log_open;
use crate::log_open::{LoadedLog, LogFound, RewriteTaken};
use crate::log_table;
use crate::log_table::LogEntry;
use crate::rewrite::RewriteAction;
use crate::type_config::LogId;

verus! {

/// Each frame of the log file was read, as what `decode` makes of its bytes.
pub open spec fn is_read(
    file: Seq<u8>,
    decode: spec_fn(Seq<u8>) -> log_table::EntryView,
    decoded: Seq<Result<LogEntry, String>>,
) -> bool {
    &&& decoded.len() == frames::payloads_from(file, 0).len()
    &&& forall|i: int|
        0 <= i < decoded.len() ==> (#[trigger] decoded[i]) is Ok && decoded[i]->Ok_0@ == decode(
            frames::payloads_from(file, 0)[i],
        )
}

/// `found` is what a scan of the log file gives, each frame read as what `decode` makes of it.
pub open spec fn is_found(
    file: Seq<u8>,
    decode: spec_fn(Seq<u8>) -> log_table::EntryView,
    found: LogFound,
) -> bool {
    &&& found matches LogFound::Bin { path, tail, decoded }
    &&& tail == frames::tail_from(file, 0)
    &&& is_read(file, decode, decoded@)
}

/// A clean file whose frames are read loads as the log that it holds.
proof fn lemma_clean_file_loads(
    file: Seq<u8>,
    decode: spec_fn(Seq<u8>) -> log_table::EntryView,
    dir: Seq<char>,
    found: LogFound,
    r: Result<LoadedLog, DataError>,
)
    requires
        frames::tail_from(file, 0) is Clean,
        is_found(file, decode, found),
        log_open::is_load(dir, found, r),
    ensures
        r matches Ok(l) && l.log@ == log_open::log_on_disk(file, decode) && l.migrate is None,
{
    let decoded = found->Bin_decoded@;
    assert forall|i: int| 0 <= i < decoded.len() implies #[trigger] log_open::read_at(
        decoded,
        i,
    ) by {
        assert(decoded[i] is Ok);
    }
    assert(log_open::read_views(decoded) =~= frames::payloads_from(file, 0).map_values(decode));
}

/// The bytes of batches of entries, each written behind the one before.
pub open spec fn written(batches: Seq<Seq<log_table::EntryView>>) -> Seq<u8>
    decreases batches.len(),
{
    if batches.len() == 0 {
        Seq::empty()
    } else {
        written(batches.drop_last()) + file_log::encoded_bytes(batches.last())
    }
}

/// The entries of batches, one after the other.
pub open spec fn all_entries(batches: Seq<Seq<log_table::EntryView>>) -> Seq<log_table::EntryView>
    decreases batches.len(),
{
    if batches.len() == 0 {
        Seq::empty()
    } else {
        all_entries(batches.drop_last()) + batches.last()
    }
}

/// Every batch could be written, and is read as it was written.
pub open spec fn batches_hold(
    batches: Seq<Seq<log_table::EntryView>>,
    decode: spec_fn(Seq<u8>) -> log_table::EntryView,
) -> bool {
    forall|b: int|
        0 <= b < batches.len() ==> file_log::all_encodable(#[trigger] batches[b])
            && log_open::reads_back(decode, batches[b])
}

/// A file of batches holds the bytes of each entry, in order, and nothing else, whatever may read
/// them.
pub proof fn law_batches_are_held_byte_for_byte(batches: Seq<Seq<log_table::EntryView>>)
    requires
        forall|b: int| 0 <= b < batches.len() ==> file_log::all_encodable(#[trigger] batches[b]),
    ensures
        frames::tail_from(written(batches), 0) is Clean,
        frames::payloads_from(written(batches), 0) == file_log::raws(all_entries(batches)),
    decreases batches.len(),
{
    if batches.len() == 0 {
        assert(frames::payloads_from(Seq::<u8>::empty(), 0) =~= file_log::raws(
            all_entries(batches),
        ));
    } else {
        let init = batches.drop_last();
        let last = batches.last();
        assert forall|b: int| 0 <= b < init.len() implies file_log::all_encodable(
            #[trigger] init[b],
        ) by {
            assert(init[b] == batches[b]);
        }
        law_batches_are_held_byte_for_byte(init);
        assert(batches[batches.len() - 1] == last);
        log_open::lemma_raws_fit(last);
        frames::law_frames_round_trip(file_log::raws(last));
        frames::law_append_reads_after(written(init), file_log::encoded_bytes(last));
        assert(file_log::raws(all_entries(init) + last) =~= file_log::raws(all_entries(init))
            + file_log::raws(last));
    }
}

/// A file of batches loads as what the reader makes of each entry's own bytes, in order: no reader
/// sees bytes of two entries, or of none.
pub proof fn law_each_entry_loads_from_its_own_bytes(
    batches: Seq<Seq<log_table::EntryView>>,
    decode: spec_fn(Seq<u8>) -> log_table::EntryView,
    dir: Seq<char>,
    found: LogFound,
    r: Result<LoadedLog, DataError>,
)
    requires
        forall|b: int| 0 <= b < batches.len() ==> file_log::all_encodable(#[trigger] batches[b]),
        is_found(written(batches), decode, found),
        log_open::is_load(dir, found, r),
    ensures
        r is Ok,
        r->Ok_0.log@ == log_table::replay(
            all_entries(batches).map_values(|e: log_table::EntryView| decode(e.encoded->Ok_0)),
        ),
{
    law_batches_are_held_byte_for_byte(batches);
    lemma_clean_file_loads(written(batches), decode, dir, found, r);
    assert(file_log::raws(all_entries(batches)).map_values(decode) =~= all_entries(
        batches,
    ).map_values(|e: log_table::EntryView| decode(e.encoded->Ok_0)));
}

proof fn lemma_batches(
    batches: Seq<Seq<log_table::EntryView>>,
    decode: spec_fn(Seq<u8>) -> log_table::EntryView,
)
    requires
        batches_hold(batches, decode),
    ensures
        frames::tail_from(written(batches), 0) is Clean,
        log_open::log_on_disk(written(batches), decode) == log_table::replay(all_entries(batches)),
    decreases batches.len(),
{
    if batches.len() == 0 {
        assert(frames::payloads_from(Seq::<u8>::empty(), 0) =~= Seq::<Seq<u8>>::empty());
        assert(frames::payloads_from(Seq::<u8>::empty(), 0).map_values(decode)
            =~= Seq::<log_table::EntryView>::empty());
    } else {
        let init = batches.drop_last();
        let last = batches.last();
        assert forall|b: int| 0 <= b < init.len() implies file_log::all_encodable(
            #[trigger] init[b],
        ) && log_open::reads_back(decode, init[b]) by {
            assert(init[b] == batches[b]);
        }
        lemma_batches(init, decode);
        assert(batches[batches.len() - 1] == last);
        log_open::law_appended_entries_read_back(written(init), last, decode);
        log_table::lemma_replay_concat(all_entries(init), last);
    }
}

/// A file of batches that were written one after the other loads as the last entry of each index:
/// the log has an index exactly where some entry has it, and holds there the entry that no later
/// one shares it with.
pub proof fn law_last_entry_of_each_index_loads(
    batches: Seq<Seq<log_table::EntryView>>,
    decode: spec_fn(Seq<u8>) -> log_table::EntryView,
    dir: Seq<char>,
    found: LogFound,
    r: Result<LoadedLog, DataError>,
)
    requires
        batches_hold(batches, decode),
        is_found(written(batches), decode, found),
        log_open::is_load(dir, found, r),
    ensures
        r is Ok,
        forall|k: u64| #[trigger]
            r->Ok_0.log@.contains_key(k) <==> exists|i: int|
                log_table::has_index(all_entries(batches), i, k),
        forall|i: int|
            0 <= i < all_entries(batches).len() && (forall|j: int|
                i < j < all_entries(batches).len() ==> (#[trigger] all_entries(
                    batches,
                )[j]).log_id.index != all_entries(batches)[i].log_id.index)
                ==> r->Ok_0.log@[(#[trigger] all_entries(batches)[i]).log_id.index]
                == all_entries(batches)[i],
{
    let all = all_entries(batches);
    lemma_batches(batches, decode);
    lemma_clean_file_loads(written(batches), decode, dir, found, r);
    let log = r->Ok_0.log@;
    assert forall|k: u64| #[trigger] log.contains_key(k) <==> exists|i: int|
        log_table::has_index(all, i, k) by {
        log_table::lemma_replay_dom(all, k);
    }
    assert forall|i: int|
        0 <= i < all.len() && (forall|j: int|
            i < j < all.len() ==> (#[trigger] all[j]).log_id.index
                != all[i].log_id.index) implies log[(#[trigger] all[i]).log_id.index] == all[i] by {
        log_table::lemma_replay_at(all, i);
    }
}

/// A log file that has bytes behind its batches which are no whole frames does not load: not when
/// the last frame was cut, and not when stray bytes follow it. Where each whole frame is read, the
/// error says which of the two it was.
pub proof fn law_damaged_log_does_not_load(
    batches: Seq<Seq<log_table::EntryView>>,
    extra: Seq<u8>,
    decode: spec_fn(Seq<u8>) -> log_table::EntryView,
    dir: Seq<char>,
    found: LogFound,
    r: Result<LoadedLog, DataError>,
)
    requires
        batches_hold(batches, decode),
        !(frames::tail_from(extra, 0) is Clean),
        found is Bin,
        found->Bin_tail == frames::tail_from(written(batches) + extra, 0),
        log_open::is_load(dir, found, r),
    ensures
        r is Err,
        log_open::all_read(found->Bin_decoded@) ==> (r->Err_0 is Truncated || r->Err_0 is Trailing)
            && (r->Err_0 is Truncated <==> frames::tail_from(extra, 0) is Truncated),
{
    lemma_batches(batches, decode);
    frames::law_append_reads_after(written(batches), extra);
}

/// What is left of a frame that was cut is no whole frame, and neither are fewer than four bytes.
pub proof fn law_cut_and_stray_bytes_are_no_frames(raw: Seq<u8>, cut: int, stray: Seq<u8>)
    requires
        raw.len() <= frames::MAX_FRAME,
        0 < cut < frames::frame(raw).len(),
        0 < stray.len() < 4,
    ensures
        !(frames::tail_from(frames::frame(raw).take(cut), 0) is Clean),
        frames::tail_from(stray, 0) is Trailing,
{
    frames::law_torn_write_is_seen(Seq::empty(), raw, cut);
    assert(frames::frames(Seq::<Seq<u8>>::empty()) + frames::frame(raw).take(cut) =~= frames::frame(
        raw,
    ).take(cut));
}

/// Loading twice what was found gives the same log.
pub proof fn law_loading_again_gives_the_same(
    dir: Seq<char>,
    found: LogFound,
    first: Result<LoadedLog, DataError>,
    second: Result<LoadedLog, DataError>,
)
    requires
        log_open::is_load(dir, found, first),
        log_open::is_load(dir, found, second),
    ensures
        first is Ok <==> second is Ok,
        first is Ok ==> second->Ok_0.log@ == first->Ok_0.log@,
{
}

/// The rewrite ended well at step `n`, after step `w` had put `contents` in the log file's place.
pub open spec fn is_rewritten<K>(
    run: Seq<RewriteTaken<K>>,
    n: int,
    w: int,
    contents: Seq<u8>,
) -> bool {
    &&& log_open::is_rewrite_run(run)
    &&& 0 <= n < run.len()
    &&& run[n].action matches RewriteAction::Return(Ok(_))
    &&& log_open::replaced_by(run, w, n, contents)
}

/// The file that a rewrite put in place holds the bytes of each entry of the log that was
/// rewritten, by rising index, and nothing else, whatever may read them.
pub proof fn law_rewritten_file_holds_the_log<K>(
    run: Seq<RewriteTaken<K>>,
    n: int,
    w: int,
    contents: Seq<u8>,
)
    requires
        is_rewritten(run, n, w, contents),
    ensures
        file_log::all_encodable(run[0].before.log.ordered()),
        contents == file_log::encoded_bytes(run[0].before.log.ordered()),
        frames::tail_from(contents, 0) is Clean,
        frames::payloads_from(contents, 0) == file_log::raws(run[0].before.log.ordered()),
{
    log_open::lemma_log_stays(run, w);
    assert(run[w].action is Replace);
    assert(run[w].after.log == run[w].before.log);
    log_open::lemma_raws_fit(run[0].before.log.ordered());
    frames::law_frames_round_trip(file_log::raws(run[0].before.log.ordered()));
}

/// A file that a rewrite put in place loads as the log that was rewritten.
proof fn lemma_rewritten_file_loads<K>(
    run: Seq<RewriteTaken<K>>,
    n: int,
    w: int,
    contents: Seq<u8>,
    decode: spec_fn(Seq<u8>) -> log_table::EntryView,
    dir: Seq<char>,
    found: LogFound,
    r: Result<LoadedLog, DataError>,
)
    requires
        is_rewritten(run, n, w, contents),
        log_open::reads_back(decode, run[0].before.log.ordered()),
        is_found(contents, decode, found),
        log_open::is_load(dir, found, r),
    ensures
        r matches Ok(l) && l.log@ == run[0].before.log@ && l.migrate is None,
{
    log_open::lemma_log_stays(run, w);
    assert(run[w].action is Replace);
    assert(run[w].after.log == run[w].before.log);
    log_open::law_rewritten_log_reads_back(run[w].after.log, decode);
    lemma_clean_file_loads(contents, decode, dir, found, r);
}

/// A log that was read from an older format, and migrated, loads as the same log again, and is not
/// migrated once more. The files of older formats are removed after the new one is in place, and
/// before the migration ends.
pub proof fn law_migrated_log_loads_the_same<K>(
    dir: Seq<char>,
    found: LogFound,
    first: LoadedLog,
    run: Seq<RewriteTaken<K>>,
    n: int,
    w: int,
    contents: Seq<u8>,
    decode: spec_fn(Seq<u8>) -> log_table::EntryView,
    found_again: LogFound,
    second: Result<LoadedLog, DataError>,
)
    requires
        log_open::is_load(dir, found, Ok(first)),
        first.migrate is Some,
        is_rewritten(run, n, w, contents),
        run[0].before == first.migrate->Some_0,
        log_open::reads_back(decode, run[0].before.log.ordered()),
        is_found(contents, decode, found_again),
        log_open::is_load(dir, found_again, second),
    ensures
        second matches Ok(l) && l.log@ == first.log@ && l.migrate is None,
        w < n - 1,
        run[n - 1].action is RemoveOld,
{
    assert(run[n].stage is Removing);
    assert(run[n].stage == run[n - 1].next);
    assert(run[w].action is Replace);
    lemma_rewritten_file_loads(run, n, w, contents, decode, dir, found_again, second);
}

/// The hard state on disk after step `n` of a rewrite, where it was `disk` before the first: what
/// was last handed out to be written, and reported as written.
pub open spec fn hard_on_disk<K>(
    run: Seq<RewriteTaken<K>>,
    n: int,
    disk: HardState,
) -> HardState
    decreases n + 1,
{
    if n < 0 {
        disk
    } else if n > 0 && run[n].event is Persisted && run[n].event->Persisted_0 is Ok && run[n
        - 1].action is Persist {
        run[n - 1].action->state
    } else {
        hard_on_disk(run, n - 1, disk)
    }
}

/// The hard state on disk is the one in memory, unless a change is noted as unwritten or a purge
/// has still to write it.
proof fn lemma_hard_on_disk<K>(run: Seq<RewriteTaken<K>>, n: int, disk: HardState)
    requires
        log_open::is_rewrite_run(run),
        0 <= n < run.len(),
        run[0].stage is Start && !run[0].before.hard_state_dirty ==> disk == run[0].before.hard(),
    ensures
        run[n].after.hard() == run[0].before.hard(),
        run[n].action is Persist ==> run[n].action->state == run[0].before.hard(),
        run[n].next is PersistingPurge || run[n].next is Done || run[n].after.hard_state_dirty
            || hard_on_disk(run, n, disk) == run[0].before.hard(),
    decreases n,
{
    if n > 0 {
        lemma_hard_on_disk(run, n - 1, disk);
        assert(run[n].stage == run[n - 1].next && run[n].before == run[n - 1].after);
    }
}

/// A log that was rewritten opens again as it was: every entry, the vote, the purge point and the
/// commit point. `disk` is the hard state on disk when the rewrite began.
pub proof fn law_rewritten_log_opens_again<K>(
    run: Seq<RewriteTaken<K>>,
    n: int,
    w: int,
    contents: Seq<u8>,
    disk: HardState,
    decode: spec_fn(Seq<u8>) -> log_table::EntryView,
    dir: Seq<char>,
    found: LogFound,
    r: Result<LoadedLog, DataError>,
)
    requires
        is_rewritten(run, n, w, contents),
        run[0].stage is Start && !run[0].before.hard_state_dirty ==> disk == run[0].before.hard(),
        log_open::reads_back(decode, run[0].before.log.ordered()),
        is_found(contents, decode, found),
        log_open::is_load(dir, found, r),
    ensures
        r matches Ok(l) && l.log@ == run[0].before.log@,
        hard_on_disk(run, n, disk) == run[0].before.hard(),
{
    lemma_rewritten_file_loads(run, n, w, contents, decode, dir, found, r);
    log_open::law_finished_rewrite_is_on_disk(run, n, decode);
    lemma_hard_on_disk(run, n, disk);
    assert(run[n].stage is Removing);
    assert(run[n].stage == run[n - 1].next && run[n].before == run[n - 1].after);
    lemma_hard_on_disk(run, n - 1, disk);
}

/// A log that was truncated opens again as truncated: with the entries up to `last_log_id` alone,
/// and the vote, the purge point and the commit point that it had.
pub proof fn law_truncated_log_opens_again<K>(
    before: FileLogInner,
    last_log_id: Option<LogId>,
    run: Seq<RewriteTaken<K>>,
    n: int,
    w: int,
    contents: Seq<u8>,
    disk: HardState,
    decode: spec_fn(Seq<u8>) -> log_table::EntryView,
    dir: Seq<char>,
    found: LogFound,
    r: Result<LoadedLog, DataError>,
)
    requires
        is_rewritten(run, n, w, contents),
        run[0].stage is Start,
        file_log::is_truncated(before, run[0].before, last_log_id),
        !before.hard_state_dirty ==> disk == before.hard(),
        log_open::reads_back(decode, run[0].before.log.ordered()),
        is_found(contents, decode, found),
        log_open::is_load(dir, found, r),
    ensures
        r is Ok,
        forall|k: u64| #[trigger]
            r->Ok_0.log@.contains_key(k) <==> before.log@.contains_key(k) && last_log_id is Some
                && k <= last_log_id->Some_0.index,
        forall|k: u64| #[trigger]
            r->Ok_0.log@.contains_key(k) ==> r->Ok_0.log@[k] == before.log@[k],
        hard_on_disk(run, n, disk) == before.hard(),
{
    law_rewritten_log_opens_again(run, n, w, contents, disk, decode, dir, found, r);
}

/// A log that was purged opens again as purged: with the entries after `log_id` alone and the purge
/// point there, and the vote and the commit point that it had.
pub proof fn law_purged_log_opens_again<K>(
    before: FileLogInner,
    log_id: LogId,
    run: Seq<RewriteTaken<K>>,
    n: int,
    w: int,
    contents: Seq<u8>,
    disk: HardState,
    decode: spec_fn(Seq<u8>) -> log_table::EntryView,
    dir: Seq<char>,
    found: LogFound,
    r: Result<LoadedLog, DataError>,
)
    requires
        is_rewritten(run, n, w, contents),
        run[0].stage is Purged,
        file_log::is_purged(before, run[0].before, log_id),
        log_open::reads_back(decode, run[0].before.log.ordered()),
        is_found(contents, decode, found),
        log_open::is_load(dir, found, r),
    ensures
        r is Ok,
        forall|k: u64| #[trigger]
            r->Ok_0.log@.contains_key(k) <==> before.log@.contains_key(k) && k > log_id.index,
        forall|k: u64| #[trigger]
            r->Ok_0.log@.contains_key(k) ==> r->Ok_0.log@[k] == before.log@[k],
        hard_on_disk(run, n, disk) == (HardState {
            last_purged_log_id: Some(log_id),
            ..before.hard()
        }),
{
    law_rewritten_log_opens_again(run, n, w, contents, disk, decode, dir, found, r);
}

/// The state of a purged log: the purge point is where it was moved, and the last entry is the
/// greatest that is left, or else that point.
pub proof fn law_purged_log_has_its_state(
    before: FileLogInner,
    after: FileLogInner,
    log_id: LogId,
    r: LogState,
)
    requires
        file_log::is_purged(before, after, log_id),
        file_log::is_log_state(after, r),
    ensures
        r.last_purged_log_id == Some(log_id),
        r.last_log_id is Some,
        (forall|k: u64| #[trigger] before.log@.contains_key(k) ==> k <= log_id.index)
            ==> r.last_log_id == Some(log_id),
        forall|k: u64| #[trigger]
            before.log@.contains_key(k) && k > log_id.index ==> r.last_log_id->Some_0.index >= k
                && before.log@.contains_key(r.last_log_id->Some_0.index)
                && before.log@[r.last_log_id->Some_0.index].log_id == r.last_log_id->Some_0,
{
    if forall|k: u64| #[trigger] before.log@.contains_key(k) ==> k <= log_id.index {
        assert(after.log@.dom() =~= Set::<u64>::empty());
    }
    assert forall|k: u64| #[trigger]
        before.log@.contains_key(k) && k > log_id.index implies r.last_log_id->Some_0.index >= k
        && before.log@.contains_key(r.last_log_id->Some_0.index)
        && before.log@[r.last_log_id->Some_0.index].log_id == r.last_log_id->Some_0 by {
        assert(after.log@.contains_key(k));
        assert(after.log@.dom().contains(k));
    }
}

/// Step `t` of a flush tells `callback`, as its `j`-th.
pub open spec fn tells<K>(run: Seq<FlushStep<K>>, t: int, j: int, callback: u64) -> bool {
    &&& 0 <= t < run.len()
    &&& run[t].action matches FlushAction::Tell { told }
    &&& 0 <= j < told@.len()
    &&& told@[j].0 == callback
}

/// What step `t` tells is what some step shortly before it handed out to be written.
proof fn lemma_told_batch<K>(run: Seq<FlushStep<K>>, t: int, j: int, callback: u64)
    requires
        flush::is_flush_run(run),
        tells(run, t, j, callback),
    ensures
        t >= 1,
        run[t].stage is Writing ==> 0 <= j < run[t - 1].before.pending_callbacks@.len()
            && run[t - 1].before.pending_callbacks@[j] == callback,
        run[t].stage is Persisting ==> t >= 2 && 0 <= j < run[t
            - 2].before.pending_callbacks@.len() && run[t - 2].before.pending_callbacks@[j]
            == callback,
        run[t].stage is Writing || run[t].stage is Persisting,
{
    assert(run[t].stage is Writing || run[t].stage is Persisting);
    assert(t >= 1);
    assert(run[t].stage == run[t - 1].next);
    if run[t].stage is Persisting {
        assert(run[t - 1].stage is Writing);
        assert(t - 1 >= 1);
        assert(run[t - 1].stage == run[t - 2].next);
        assert(run[t - 2].stage is Ready);
    } else {
        assert(run[t - 1].stage is Ready);
    }
}

/// An append that is flushed at once tells its callback once, of success, after its frames were
/// handed out in one batch and that batch was reported as written. `before` is the log before the
/// append; the flush ends well at step `n`, and the callback's number is in no other use.
pub proof fn law_append_is_answered_once<K>(
    before: FileLogInner,
    entries: Seq<log_table::EntryView>,
    callback: u64,
    run: Seq<FlushStep<K>>,
    n: int,
)
    requires
        flush::is_flush_run(run),
        0 <= n < run.len(),
        run[n].action matches FlushAction::Return(Ok(_)),
        forall|i: int| 0 <= i < n ==> !((#[trigger] run[i]).action is Return),
        run[0].before.wf(),
        run[0].before.pending_buf@ == before.pending_buf@ + file_log::encoded_bytes(entries),
        run[0].before.pending_callbacks@ == before.pending_callbacks@.push(callback),
        !before.pending_callbacks@.contains(callback),
        forall|i: int|
            0 < i <= n ==> !(#[trigger] run[i]).before.pending_callbacks@.contains(callback),
    ensures
        run[0].action matches FlushAction::Write { buf, sync_level } && buf@ == before.pending_buf@
            + file_log::encoded_bytes(entries) && sync_level == run[0].before.sync_level,
        run[1].event matches FlushEvent::Written(Ok(_)),
        exists|t: int, j: int|
            1 <= t <= n && #[trigger] tells(run, t, j, callback) && run[t].action->told@[j].1 is Ok
                && forall|u: int, i: int|
                u <= n && #[trigger] tells(run, u, i, callback) ==> u == t && i == j,
{
    let p = before.pending_callbacks@.len() as int;
    assert(run[0].before.pending_callbacks@[p] == callback);
    assert(run[0].next is Writing);
    assert(run[1].stage == run[0].next);
    assert(run[1].event matches FlushEvent::Written(Ok(_))) by {
        if run[1].next is Failing {
            assert(run[2].stage == run[1].next);
            assert(run[2].action is Return);
        }
    }
    let t = if run[1].next is Persisting {
        2int
    } else {
        1int
    };
    if t == 2 {
        assert(run[2].stage == run[1].next);
        if run[2].next is Failing {
            assert(run[3].stage == run[2].next);
            assert(run[3].action is Return);
        }
    }
    assert(tells(run, t, p, callback));
    assert(run[t].action->told@[p].1 is Ok);
    assert forall|u: int, i: int| u <= n && #[trigger] tells(run, u, i, callback) implies u == t
        && i == p by {
        lemma_told_batch(run, u, i, callback);
        let w = if run[u].stage is Persisting {
            u - 2
        } else {
            u - 1
        };
        assert(run[w].before.pending_callbacks@[i] == callback);
        assert(run[w].before.pending_callbacks@.contains(callback));
        assert(w == 0);
        if i < p {
            assert(before.pending_callbacks@[i] == callback);
        }
        if u == 2 {
            assert(run[2].stage == run[1].next);
        }
    }
}

/// When an append that is flushed at once is answered, the log file holds its entries' bytes as its
/// last frames; and a log that is opened from the file then is the log in memory, the entries among
/// it. `file` is what the log file held when the flush began.
pub proof fn law_answered_append_opens_again<K>(
    file: Seq<u8>,
    before: FileLogInner,
    entries: Seq<log_table::EntryView>,
    callback: u64,
    run: Seq<FlushStep<K>>,
    n: int,
    decode: spec_fn(Seq<u8>) -> log_table::EntryView,
    dir: Seq<char>,
    found: LogFound,
    r: Result<LoadedLog, DataError>,
)
    requires
        log_open::mirrored(file, before, decode),
        file_log::all_encodable(entries),
        log_open::reads_back(decode, entries),
        flush::is_flush_run(run),
        0 <= n < run.len(),
        run[n].action matches FlushAction::Return(Ok(_)),
        forall|i: int| 0 <= i < n ==> !((#[trigger] run[i]).action is Return),
        run[0].before.wf(),
        run[0].before.log@ == before.log@.union_prefer_right(log_table::replay(entries)),
        run[0].before.pending_buf@ == before.pending_buf@ + file_log::encoded_bytes(entries),
        run[0].before.pending_callbacks@ == before.pending_callbacks@.push(callback),
        !before.pending_callbacks@.contains(callback),
        forall|i: int|
            0 < i <= n ==> !(#[trigger] run[i]).before.pending_callbacks@.contains(callback),
        is_found(file + run[0].before.pending_buf@, decode, found),
        log_open::is_load(dir, found, r),
    ensures
        run[0].action matches FlushAction::Write { buf, sync_level } && buf@
            == run[0].before.pending_buf@,
        run[1].event matches FlushEvent::Written(Ok(_)),
        frames::payloads_from(file + run[0].before.pending_buf@, 0) == frames::payloads_from(
            file + before.pending_buf@,
            0,
        ) + file_log::raws(entries),
        r is Ok,
        r->Ok_0.log@ == run[0].before.log@,
        forall|i: int|
            0 <= i < entries.len() ==> r->Ok_0.log@.contains_key(
                (#[trigger] entries[i]).log_id.index,
            ),
{
    law_append_is_answered_once(before, entries, callback, run, n);
    let held = file + before.pending_buf@;
    let more = file_log::encoded_bytes(entries);
    assert(held + more =~= file + run[0].before.pending_buf@);
    log_open::law_appended_entries_read_back(held, entries, decode);
    log_open::lemma_raws_fit(entries);
    frames::law_frames_round_trip(file_log::raws(entries));
    frames::law_append_reads_after(held, more);
    lemma_clean_file_loads(held + more, decode, dir, found, r);
    assert forall|i: int| 0 <= i < entries.len() implies r->Ok_0.log@.contains_key(
        (#[trigger] entries[i]).log_id.index,
    ) by {
        let k = entries[i].log_id.index;
        log_table::lemma_replay_dom(entries, k);
        assert(log_table::has_index(entries, i, k));
    }
}

} // verus!
