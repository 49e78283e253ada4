//! Opening a group's log: which file it is read from, how that file is read, and what reading it
//! gives back.

use vstd::prelude::*;

use crate::config::FileLogSyncLevel;
use crate::durability::ReplaceStep;
use crate::file_log;
use crate::file_log::{DataError, FileLogInner, HardState, DEFAULT_WRITER_CAP};
use crate::flush;
use crate::flush::{FlushAction, FlushEvent, FlushStage};
use crate::frames;
use crate::frames::FrameTail;
use crate::log_table;
use crate::log_table::{LogEntry, LogTable};
use crate::order;
use crate::rewrite;
use crate::rewrite::{RewriteAction, RewriteEvent, RewriteStage};
use crate::stream_control::{AfterAppend, FileLogStreamOptions, StreamControl};
use crate::text;

verus! {

pub const HARD_STATE_FILE: &'static str = "hard_state.json";

/// The oldest format: one JSON array of entries.
pub const LOG_FILE_LEGACY: &'static str = "log.json";

/// An older format: one JSON entry on each line.
pub const LOG_NDJSON: &'static str = "log.ndjson";

/// The log file: length-prefixed frames.
pub const LOG_BIN: &'static str = "log.bin";

/// The new log file while it is being written.
pub const LOG_BIN_TEMP: &'static str = "log.bin.tmp";

/// Where a log is read from.
#[derive(Clone, Copy, Debug, PartialEq, Eq, Structural)]
pub enum LogSource {
    Bin,
    Ndjson,
    Legacy,
    /// There is no file: the log is empty.
    Nothing,
}

/// The newest format that is there.
pub fn log_source(bin: bool, ndjson: bool, legacy: bool) -> (r: LogSource)
    ensures
        r == (if bin {
            LogSource::Bin
        } else if ndjson {
            LogSource::Ndjson
        } else if legacy {
            LogSource::Legacy
        } else {
            LogSource::Nothing
        }),
{
    if bin {
        LogSource::Bin
    } else if ndjson {
        LogSource::Ndjson
    } else if legacy {
        LogSource::Legacy
    } else {
        LogSource::Nothing
    }
}

/// The log that a run of entries leaves.
pub fn table_of(entries: Vec<LogEntry>) -> (r: LogTable)
    ensures
        r.wf(),
        r@ == log_table::replay(log_table::entry_views(entries@)),
{
    let ghost v = log_table::entry_views(entries@);
    let mut table = LogTable::new();
    let mut i: usize = 0;
    assert(v.take(0) =~= Seq::empty());
    while i < entries.len()
        invariant
            i <= entries@.len(),
            v == log_table::entry_views(entries@),
            table.wf(),
            table@ == log_table::replay(v.take(i as int)),
        decreases entries@.len() - i,
    {
        assert(v.take(i + 1).drop_last() =~= v.take(i as int));
        assert(v[i as int] == entries@[i as int]@);
        table.insert(entries[i].copied());
        i = i + 1;
    }
    assert(v.take(i as int) =~= v);
    table
}

/// What was read as an entry, and what could not be.
pub open spec fn read_at(decoded: Seq<Result<LogEntry, String>>, i: int) -> bool {
    decoded[i] is Ok
}

/// Every one was read.
pub open spec fn all_read(decoded: Seq<Result<LogEntry, String>>) -> bool {
    forall|i: int| 0 <= i < decoded.len() ==> #[trigger] read_at(decoded, i)
}

/// The one at `k` is the first that could not be read.
pub open spec fn first_unread(decoded: Seq<Result<LogEntry, String>>, k: int) -> bool {
    &&& 0 <= k < decoded.len()
    &&& !read_at(decoded, k)
    &&& forall|i: int| 0 <= i < k ==> #[trigger] read_at(decoded, i)
}

/// The entries that were read.
pub open spec fn read_views(decoded: Seq<Result<LogEntry, String>>) -> Seq<log_table::EntryView> {
    decoded.map_values(|d: Result<LogEntry, String>| d->Ok_0@)
}

/// Puts what was read into a log; stops at the first that could not be read, with its position
/// and the reason.
fn collect(decoded: &Vec<Result<LogEntry, String>>) -> (r: Result<LogTable, (usize, String)>)
    ensures
        match r {
            Ok(t) => t.wf() && all_read(decoded@) && t@ == log_table::replay(read_views(decoded@)),
            Err((k, m)) => first_unread(decoded@, k as int) && m@ == decoded@[k as int]->Err_0@,
        },
{
    let ghost v = read_views(decoded@);
    let mut table = LogTable::new();
    let mut i: usize = 0;
    assert(v.take(0) =~= Seq::empty());
    while i < decoded.len()
        invariant
            i <= decoded@.len(),
            v == read_views(decoded@),
            table.wf(),
            table@ == log_table::replay(v.take(i as int)),
            forall|j: int| 0 <= j < i ==> #[trigger] read_at(decoded@, j),
        decreases decoded@.len() - i,
    {
        match &decoded[i] {
            Err(m) => {
                assert(!read_at(decoded@, i as int));
                return Err((i, m.clone()));
            },
            Ok(e) => {
                assert(v.take(i + 1).drop_last() =~= v.take(i as int));
                assert(v[i as int] == e@);
                table.insert(e.copied());
                assert(read_at(decoded@, i as int));
            },
        }
        i = i + 1;
    }
    assert(v.take(i as int) =~= v);
    Ok(table)
}

/// Reads the log file `path`: `tail` is what a scan found after its whole frames, `decoded` what
/// each frame was read as.
pub fn load_bin(path: &str, tail: FrameTail, decoded: &Vec<Result<LogEntry, String>>) -> (r: Result<
    LogTable,
    DataError,
>)
    ensures
        match r {
            Ok(t) => {
                &&& all_read(decoded@)
                &&& tail == FrameTail::Clean
                &&& t.wf()
                &&& t@ == log_table::replay(read_views(decoded@))
            },
            Err(DataError::Decode(m)) => exists|k: int| #[trigger]
                first_unread(decoded@, k) && m@ == decoded@[k]->Err_0@,
            Err(DataError::Truncated { path: p, at }) => all_read(decoded@) && p@ == path@ && tail
                == (FrameTail::Truncated { at }),
            Err(DataError::Trailing { path: p, count }) => all_read(decoded@) && p@ == path@ && tail
                == (FrameTail::Trailing { count }),
            Err(_) => false,
        },
{
    match collect(decoded) {
        Err((k, m)) => {
            assert(first_unread(decoded@, k as int));
            Err(DataError::Decode(m))
        },
        Ok(table) => match tail {
            FrameTail::Clean => Ok(table),
            FrameTail::Truncated { at } => Err(DataError::Truncated { path: path.to_owned(), at }),
            FrameTail::Trailing { count } => Err(
                DataError::Trailing { path: path.to_owned(), count },
            ),
        },
    }
}

/// `at` are the positions of the lines that are not blank, in order.
pub open spec fn are_nonblank_lines(lines: Seq<String>, at: Seq<usize>) -> bool {
    &&& forall|i: int, j: int| 0 <= i < j < at.len() ==> at[i] < at[j]
    &&& forall|i: int|
        0 <= i < at.len() ==> (#[trigger] at[i]) < lines.len() && !text::is_blank_text(
            lines[at[i] as int]@,
        )
    &&& forall|n: int|
        0 <= n < lines.len() && !text::is_blank_text((#[trigger] lines[n])@) ==> order::has_position(at, n)
}

/// The lines to read as entries: blank ones are passed over.
pub fn nonblank_lines(lines: &Vec<String>) -> (r: Vec<usize>)
    ensures
        are_nonblank_lines(lines@, r@),
{
    let mut out: Vec<usize> = Vec::new();
    let mut i: usize = 0;
    while i < lines.len()
        invariant
            i <= lines@.len(),
            forall|a: int, b: int| 0 <= a < b < out@.len() ==> out@[a] < out@[b],
            forall|a: int|
                0 <= a < out@.len() ==> (#[trigger] out@[a]) < i && !text::is_blank_text(
                    lines@[out@[a] as int]@,
                ),
            forall|n: int|
                0 <= n < i && !text::is_blank_text((#[trigger] lines@[n])@) ==> order::has_position(
                    out@,
                    n,
                ),
        decreases lines@.len() - i,
    {
        let ghost before = out@;
        if !text::is_blank(lines[i].as_str()) {
            out.push(i);
            proof {
                assert(out@[before.len() as int] == i);
                assert forall|n: int|
                    0 <= n < i + 1 && !text::is_blank_text(
                        (#[trigger] lines@[n])@,
                    ) implies order::has_position(out@, n) by {
                    if n < i {
                        assert(order::has_position(before, n));
                        let a = choose|a: int| 0 <= a < before.len() && #[trigger] before[a] == n;
                        assert(out@[a] == n);
                    }
                }
            }
        }
        i = i + 1;
    }
    out
}

/// Reads the file `path` of one entry a line: `at` are those of its lines that are not blank,
/// `decoded` what each of them was read as.
pub fn load_ndjson(
    path: &str,
    lines: &Vec<String>,
    at: &Vec<usize>,
    decoded: &Vec<Result<LogEntry, String>>,
) -> (r: Result<LogTable, DataError>)
    requires
        are_nonblank_lines(lines@, at@),
        at@.len() == decoded@.len(),
    ensures
        match r {
            Ok(t) => all_read(decoded@) && t.wf() && t@ == log_table::replay(read_views(decoded@)),
            Err(DataError::BadLine { path: p, line, reason }) => exists|k: int| #[trigger]
                first_unread(decoded@, k) && p@ == path@ && line == at@[k] + 1 && reason@
                    == decoded@[k]->Err_0@,
            Err(_) => false,
        },
{
    match collect(decoded) {
        Ok(table) => Ok(table),
        Err((k, reason)) => {
            assert(first_unread(decoded@, k as int));
            assert(at@[k as int] < lines.len());
            let line: u64 = at[k] as u64 + 1;
            Err(DataError::BadLine { path: path.to_owned(), line, reason })
        },
    }
}

impl FileLogInner {
    /// A log as it was read, with nothing pending.
    pub fn opened(
        dir: String,
        hard: HardState,
        log: LogTable,
        writer_cap: usize,
        sync_level: FileLogSyncLevel,
    ) -> (r: FileLogInner)
        requires
            log.wf(),
        ensures
            r.wf(),
            r.dir == dir,
            r.hard() == hard,
            r.log == log,
            !r.writer_open,
            r.writer_cap == writer_cap,
            r.pending_buf@.len() == 0,
            r.pending_callbacks@.len() == 0,
            r.sync_level == sync_level,
            !r.hard_state_dirty,
    {
        FileLogInner {
            dir,
            last_purged_log_id: hard.last_purged_log_id,
            log,
            committed: hard.committed,
            vote: hard.vote,
            writer_open: false,
            writer_cap,
            pending_buf: Vec::new(),
            pending_callbacks: Vec::new(),
            sync_level,
            hard_state_dirty: false,
        }
    }
}

/// `inner` is what is rewritten as `log.bin` in `dir` when `log` was read from an older format:
/// nothing pending, no hard state of its own.
pub open spec fn is_migration(
    inner: FileLogInner,
    dir: Seq<char>,
    log: Map<u64, log_table::EntryView>,
) -> bool {
    &&& inner.wf()
    &&& inner.dir@ == dir
    &&& inner.log@ == log
    &&& inner.hard() == (HardState { last_purged_log_id: None, committed: None, vote: None })
    &&& !inner.writer_open
    &&& inner.writer_cap == DEFAULT_WRITER_CAP
    &&& inner.sync_level == FileLogSyncLevel::Os
    &&& inner.pending_buf@.len() == 0
    &&& inner.pending_callbacks@.len() == 0
    &&& !inner.hard_state_dirty
}

/// The log to rewrite as `log.bin` when an older format was read; nothing where the log was read
/// from `log.bin`, or is empty.
pub fn migration(dir: &str, source: LogSource, log: &LogTable) -> (r: Option<FileLogInner>)
    requires
        log.wf(),
    ensures
        r is Some <==> source != LogSource::Bin && log.ordered().len() > 0,
        r matches Some(inner) ==> is_migration(inner, dir@, log@),
{
    if matches!(source, LogSource::Bin) || log.len() == 0 {
        return None;
    }
    let copy = log.copied();
    let none = HardState { last_purged_log_id: None, committed: None, vote: None };
    Some(FileLogInner::opened(dir.to_owned(), none, copy, DEFAULT_WRITER_CAP, FileLogSyncLevel::Os))
}

/// What was read of a log directory, from the newest format there.
#[derive(Debug)]
pub enum LogFound {
    /// The file of frames at `path`: what a scan found after its whole frames, and what each frame
    /// was read as.
    Bin { path: String, tail: FrameTail, decoded: Vec<Result<LogEntry, String>> },
    /// The file of lines at `path`: those of its lines that are not blank, and what each of them
    /// was read as.
    Ndjson {
        path: String,
        lines: Vec<String>,
        at: Vec<usize>,
        decoded: Vec<Result<LogEntry, String>>,
    },
    /// The entries of the oldest format, or why it could not be read.
    Legacy(Result<Vec<LogEntry>, String>),
    Nothing,
}

impl LogFound {
    /// Each line that is not blank was tried.
    pub open spec fn wf(&self) -> bool {
        match *self {
            LogFound::Ndjson { path, lines, at, decoded } => are_nonblank_lines(lines@, at@)
                && at@.len() == decoded@.len(),
            _ => true,
        }
    }

    /// All of it could be read, and nothing is left over.
    pub open spec fn is_whole(&self) -> bool {
        match *self {
            LogFound::Bin { path, tail, decoded } => all_read(decoded@) && tail == FrameTail::Clean,
            LogFound::Ndjson { path, lines, at, decoded } => all_read(decoded@),
            LogFound::Legacy(r) => r is Ok,
            LogFound::Nothing => true,
        }
    }

    /// The entries that were read, in order.
    pub open spec fn entries(&self) -> Seq<log_table::EntryView> {
        match *self {
            LogFound::Bin { path, tail, decoded } => read_views(decoded@),
            LogFound::Ndjson { path, lines, at, decoded } => read_views(decoded@),
            LogFound::Legacy(Ok(entries)) => log_table::entry_views(entries@),
            _ => Seq::empty(),
        }
    }

    /// `e` says what is wrong first.
    pub open spec fn is_wrong(&self, e: DataError) -> bool {
        match *self {
            LogFound::Bin { path, tail, decoded } => match e {
                DataError::Decode(m) => exists|k: int| #[trigger]
                    first_unread(decoded@, k) && m@ == decoded@[k]->Err_0@,
                DataError::Truncated { path: p, at } => all_read(decoded@) && p@ == path@ && tail
                    == (FrameTail::Truncated { at }),
                DataError::Trailing { path: p, count } => all_read(decoded@) && p@ == path@ && tail
                    == (FrameTail::Trailing { count }),
                _ => false,
            },
            LogFound::Ndjson { path, lines, at, decoded } => match e {
                DataError::BadLine { path: p, line, reason } => exists|k: int| #[trigger]
                    first_unread(decoded@, k) && p@ == path@ && line == at@[k] + 1 && reason@
                        == decoded@[k]->Err_0@,
                _ => false,
            },
            LogFound::Legacy(Err(m)) => e matches DataError::Decode(x) && x@ == m@,
            _ => false,
        }
    }
}

/// A log that was read, and the log to rewrite as `log.bin` first where an older format was read.
#[derive(Debug)]
pub struct LoadedLog {
    pub log: LogTable,
    pub migrate: Option<FileLogInner>,
}

/// `r` is what loading the directory `dir` gives where `found` was read of it.
pub open spec fn is_load(
    dir: Seq<char>,
    found: LogFound,
    r: Result<LoadedLog, DataError>,
) -> bool {
    match r {
        Ok(l) => {
            &&& found.is_whole()
            &&& l.log.wf()
            &&& l.log@ == log_table::replay(found.entries())
            &&& l.migrate is Some <==> !(found is Bin) && l.log.ordered().len() > 0
            &&& l.migrate matches Some(inner) ==> is_migration(inner, dir, l.log@)
        },
        Err(e) => !found.is_whole() && found.is_wrong(e),
    }
}

/// The log in the directory `dir`. An older format is migrated once, unless it holds no entry;
/// data that cannot be read is an error.
pub fn load_log(dir: &str, found: LogFound) -> (r: Result<LoadedLog, DataError>)
    requires
        found.wf(),
    ensures
        is_load(dir@, found, r),
{
    let (source, loaded) = match found {
        LogFound::Bin { path, tail, decoded } => (
            LogSource::Bin,
            load_bin(path.as_str(), tail, &decoded),
        ),
        LogFound::Ndjson { path, lines, at, decoded } => (
            LogSource::Ndjson,
            load_ndjson(path.as_str(), &lines, &at, &decoded),
        ),
        LogFound::Legacy(Ok(entries)) => (LogSource::Legacy, Ok(table_of(entries))),
        LogFound::Legacy(Err(m)) => (LogSource::Legacy, Err(DataError::Decode(m))),
        LogFound::Nothing => (LogSource::Nothing, Ok(LogTable::new())),
    };
    match loaded {
        Err(e) => Err(e),
        Ok(log) => {
            let migrate = migration(dir, source, &log);
            Ok(LoadedLog { log, migrate })
        },
    }
}

/// A log store: the log, and how it is flushed.
#[derive(Debug)]
pub struct FileLogStore {
    pub inner: FileLogInner,
    pub control: StreamControl,
}

/// What follows an append: a callback that is complete already, and the flushing.
#[derive(Clone, Copy, Debug, PartialEq, Eq, Structural)]
pub struct AppendPlan {
    pub complete: Option<u64>,
    pub then_flush: AfterAppend,
}

impl FileLogStore {
    pub open spec fn wf(&self) -> bool {
        self.inner.wf()
    }

    /// A store as it is opened: nothing pending, no flusher.
    pub open spec fn is_opened(
        &self,
        dir: String,
        coalesce_us: u64,
        sync_level: FileLogSyncLevel,
        stream: FileLogStreamOptions,
        hard: HardState,
        log: LogTable,
    ) -> bool {
        &&& self.wf()
        &&& self.inner.dir == dir
        &&& self.inner.hard() == hard
        &&& self.inner.log == log
        &&& !self.inner.writer_open
        &&& self.inner.writer_cap == (if stream.stream_buf_bytes > DEFAULT_WRITER_CAP {
            stream.stream_buf_bytes
        } else {
            DEFAULT_WRITER_CAP
        })
        &&& self.inner.pending_buf@.len() == 0
        &&& self.inner.pending_callbacks@.len() == 0
        &&& self.inner.sync_level == sync_level
        &&& !self.inner.hard_state_dirty
        &&& self.control == (StreamControl {
            coalesce_us,
            sync_level,
            stream,
            flusher_running: false,
        })
    }

    /// Opens a log that was read, to flush each append at once at `Os`.
    pub fn open(dir: String, hard: HardState, log: LogTable) -> (r: FileLogStore)
        requires
            log.wf(),
        ensures
            r.is_opened(
                dir,
                0,
                FileLogSyncLevel::Os,
                FileLogStreamOptions {
                    stream_buf_bytes: 0,
                    stream_flush_ms: 0,
                    hold_overlap: false,
                },
                hard,
                log,
            ),
    {
        FileLogStore::open_with_options(dir, 0, FileLogSyncLevel::Os, hard, log)
    }

    /// Opens with a group-commit window, at `Os`.
    pub fn open_with_coalesce(dir: String, coalesce_us: u64, hard: HardState, log: LogTable) -> (r:
        FileLogStore)
        requires
            log.wf(),
        ensures
            r.is_opened(
                dir,
                coalesce_us,
                FileLogSyncLevel::Os,
                FileLogStreamOptions {
                    stream_buf_bytes: 0,
                    stream_flush_ms: 0,
                    hold_overlap: false,
                },
                hard,
                log,
            ),
    {
        FileLogStore::open_with_options(dir, coalesce_us, FileLogSyncLevel::Os, hard, log)
    }

    /// Opens with a group-commit window and a sync level.
    pub fn open_with_options(
        dir: String,
        coalesce_us: u64,
        sync_level: FileLogSyncLevel,
        hard: HardState,
        log: LogTable,
    ) -> (r: FileLogStore)
        requires
            log.wf(),
        ensures
            r.is_opened(
                dir,
                coalesce_us,
                sync_level,
                FileLogStreamOptions {
                    stream_buf_bytes: 0,
                    stream_flush_ms: 0,
                    hold_overlap: false,
                },
                hard,
                log,
            ),
    {
        let stream = FileLogStreamOptions {
            stream_buf_bytes: 0,
            stream_flush_ms: 0,
            hold_overlap: false,
        };
        FileLogStore::open_with_full_options(dir, coalesce_us, sync_level, stream, hard, log)
    }

    /// Opens with a group-commit window, a sync level and buffering. The writer's capacity is the
    /// byte threshold, if that is larger than the default.
    pub fn open_with_full_options(
        dir: String,
        coalesce_us: u64,
        sync_level: FileLogSyncLevel,
        stream: FileLogStreamOptions,
        hard: HardState,
        log: LogTable,
    ) -> (r: FileLogStore)
        requires
            log.wf(),
        ensures
            r.is_opened(dir, coalesce_us, sync_level, stream, hard, log),
    {
        let writer_cap: usize = if stream.stream_buf_bytes > DEFAULT_WRITER_CAP {
            stream.stream_buf_bytes
        } else {
            DEFAULT_WRITER_CAP
        };
        FileLogStore {
            inner: FileLogInner::opened(dir, hard, log, writer_cap, sync_level),
            control: StreamControl::new(coalesce_us, sync_level, stream),
        }
    }

    pub fn sync_level(&self) -> (r: FileLogSyncLevel)
        ensures
            r == self.control.sync_level,
    {
        self.control.sync_level
    }

    pub fn stream_options(&self) -> (r: FileLogStreamOptions)
        ensures
            r == self.control.stream,
    {
        self.control.stream
    }

    /// Queues `entries` and says how they are flushed. Entries that cannot be written are an
    /// error, and nothing is flushed then.
    pub fn append(&mut self, entries: Vec<LogEntry>, callback: u64) -> (r: Result<
        AppendPlan,
        DataError,
    >)
        requires
            old(self).wf(),
        ensures
            final(self).wf(),
            ({
                let v = log_table::entry_views(entries@);
                let before = old(self).inner;
                let after = final(self).inner;
                match r {
                    Err(e) => {
                        &&& exists|k: int| #[trigger]
                            file_log::first_bad(v, k) && file_log::is_fault_of(e, v[k])
                                && after.pending_buf@ == before.pending_buf@
                                + file_log::encoded_bytes(v.take(k))
                        &&& after == (FileLogInner { pending_buf: after.pending_buf, ..before })
                        &&& final(self).control == old(self).control
                    },
                    Ok(plan) => {
                        &&& file_log::all_encodable(v)
                        &&& if v.len() == 0 {
                            plan.complete == Some(callback) && after == before
                        } else {
                            &&& plan.complete is None
                            &&& after.log@ == before.log@.union_prefer_right(log_table::replay(v))
                            &&& after.pending_buf@ == before.pending_buf@ + file_log::encoded_bytes(
                                v,
                            )
                            &&& after.pending_callbacks@ == before.pending_callbacks@.push(callback)
                            &&& after == (FileLogInner {
                                log: after.log,
                                pending_buf: after.pending_buf,
                                pending_callbacks: after.pending_callbacks,
                                ..before
                            })
                        }
                        &&& plan.then_flush == (if old(self).control.defers() {
                            AfterAppend::Defer {
                                start_flusher: !old(self).control.flusher_running,
                                wake: old(self).control.at_cap(
                                    after.pending_buf@.len() as usize,
                                    after.pending_callbacks@.len() as usize,
                                ) || !old(self).control.stream.hold_overlap,
                            }
                        } else {
                            AfterAppend::FlushNow
                        })
                        &&& final(self).control == (StreamControl {
                            flusher_running: old(self).control.flusher_running || old(
                                self,
                            ).control.defers(),
                            ..old(self).control
                        })
                    },
                }
            }),
    {
        match self.inner.append(entries, callback) {
            Err(e) => Err(e),
            Ok(complete) => {
                let pending_len: usize = self.inner.pending_buf.len();
                let callbacks: usize = self.inner.pending_callbacks.len();
                let then_flush = self.control.after_append(pending_len, callbacks);
                Ok(
                    AppendPlan {
                        complete: if complete {
                            Some(callback)
                        } else {
                            None
                        },
                        then_flush,
                    },
                )
            },
        }
    }
}

/// What a log file's bytes read as, where `decode` reads one entry's bytes.
pub open spec fn log_on_disk(
    bytes: Seq<u8>,
    decode: spec_fn(Seq<u8>) -> log_table::EntryView,
) -> Map<u64, log_table::EntryView> {
    log_table::replay(frames::payloads_from(bytes, 0).map_values(decode))
}

/// `decode` reads each entry's bytes as that entry.
pub open spec fn reads_back(
    decode: spec_fn(Seq<u8>) -> log_table::EntryView,
    s: Seq<log_table::EntryView>,
) -> bool {
    forall|i: int| 0 <= i < s.len() ==> decode((#[trigger] s[i]).encoded->Ok_0) == s[i]
}

pub proof fn lemma_raws_fit(s: Seq<log_table::EntryView>)
    requires
        file_log::all_encodable(s),
    ensures
        frames::all_fit(file_log::raws(s)),
{
    let r = file_log::raws(s);
    assert forall|i: int| 0 <= i < r.len() implies (#[trigger] r[i]).len() <= frames::MAX_FRAME by {
        assert(file_log::encodable(s[i]));
    }
}

proof fn lemma_decode_all(
    decode: spec_fn(Seq<u8>) -> log_table::EntryView,
    s: Seq<log_table::EntryView>,
)
    requires
        reads_back(decode, s),
    ensures
        file_log::raws(s).map_values(decode) == s,
{
    let r = file_log::raws(s).map_values(decode);
    assert forall|i: int| 0 <= i < s.len() implies r[i] == s[i] by {
        assert(decode(s[i].encoded->Ok_0) == s[i]);
    }
    assert(r =~= s);
}

/// The log file followed by the pending bytes reads back as the log in memory.
pub open spec fn mirrored(
    file: Seq<u8>,
    inner: FileLogInner,
    decode: spec_fn(Seq<u8>) -> log_table::EntryView,
) -> bool {
    &&& frames::tail_from(file + inner.pending_buf@, 0) is Clean
    &&& log_on_disk(file + inner.pending_buf@, decode) == inner.log@
}

/// A rewritten log file reads back as the log it was written from.
pub proof fn law_rewritten_log_reads_back(
    log: LogTable,
    decode: spec_fn(Seq<u8>) -> log_table::EntryView,
)
    requires
        file_log::all_encodable(log.ordered()),
        reads_back(decode, log.ordered()),
    ensures
        log_on_disk(file_log::encoded_bytes(log.ordered()), decode) == log@,
        frames::tail_from(file_log::encoded_bytes(log.ordered()), 0) is Clean,
{
    let s = log.ordered();
    lemma_raws_fit(s);
    frames::law_frames_round_trip(file_log::raws(s));
    lemma_decode_all(decode, s);
}

/// Entries appended to a log file read back over what the file held, in the place of older ones
/// with their indexes; so a file that read back as the log in memory still does after an append.
pub proof fn law_appended_entries_read_back(
    file: Seq<u8>,
    entries: Seq<log_table::EntryView>,
    decode: spec_fn(Seq<u8>) -> log_table::EntryView,
)
    requires
        frames::tail_from(file, 0) is Clean,
        file_log::all_encodable(entries),
        reads_back(decode, entries),
    ensures
        log_on_disk(file + file_log::encoded_bytes(entries), decode) == log_on_disk(
            file,
            decode,
        ).union_prefer_right(log_table::replay(entries)),
        frames::tail_from(file + file_log::encoded_bytes(entries), 0) is Clean,
{
    let more = file_log::encoded_bytes(entries);
    lemma_raws_fit(entries);
    frames::law_frames_round_trip(file_log::raws(entries));
    frames::law_append_reads_after(file, more);
    lemma_decode_all(decode, entries);
    let a = frames::payloads_from(file, 0);
    let b = frames::payloads_from(more, 0);
    assert((a + b).map_values(decode) =~= a.map_values(decode) + b.map_values(decode));
    log_table::lemma_replay_concat(a.map_values(decode), entries);
}

/// An append that succeeds keeps the files and the log in memory in step.
pub proof fn law_append_keeps_in_step(
    file: Seq<u8>,
    before: FileLogInner,
    after: FileLogInner,
    entries: Seq<log_table::EntryView>,
    decode: spec_fn(Seq<u8>) -> log_table::EntryView,
)
    requires
        mirrored(file, before, decode),
        file_log::all_encodable(entries),
        reads_back(decode, entries),
        after.log@ == before.log@.union_prefer_right(log_table::replay(entries)),
        after.pending_buf@ == before.pending_buf@ + file_log::encoded_bytes(entries),
    ensures
        mirrored(file, after, decode),
{
    law_appended_entries_read_back(file + before.pending_buf@, entries, decode);
    assert(file + before.pending_buf@ + file_log::encoded_bytes(entries) =~= file
        + after.pending_buf@);
}

/// Every step of a flush keeps them in step, once the bytes it hands out have been written.
pub proof fn law_flush_keeps_in_step<K>(
    file: Seq<u8>,
    before: FileLogInner,
    stage: FlushStage<K>,
    event: FlushEvent<K>,
    after: FileLogInner,
    next: FlushStage<K>,
    action: FlushAction<K>,
    decode: spec_fn(Seq<u8>) -> log_table::EntryView,
)
    requires
        mirrored(file, before, decode),
        flush::awaits(stage, event),
        flush::flush_moves(before, stage, event, after, next, action),
    ensures
        mirrored(
            match action {
                FlushAction::Write { buf, sync_level } => file + buf@,
                _ => file,
            },
            after,
            decode,
        ),
{
    if action is Write {
        assert(file + before.pending_buf@ + after.pending_buf@ =~= file + before.pending_buf@);
    }
}

/// A rewrite brings them in step, whatever the file held: truncated and purged entries are gone
/// from the disk too. Nothing is pending when the file is replaced.
pub proof fn law_rewrite_brings_in_step<K>(
    before: FileLogInner,
    stage: RewriteStage<K>,
    event: RewriteEvent<K>,
    after: FileLogInner,
    next: RewriteStage<K>,
    contents: Vec<u8>,
    steps: Vec<ReplaceStep>,
    decode: spec_fn(Seq<u8>) -> log_table::EntryView,
)
    requires
        rewrite::awaits(stage, event),
        rewrite::rewrite_moves(
            before,
            stage,
            event,
            after,
            next,
            RewriteAction::Replace { contents, steps },
        ),
        before.pending_buf@.len() == 0,
        reads_back(decode, after.log.ordered()),
    ensures
        mirrored(contents@, after, decode),
{
    let f = file_log::encoded_bytes(after.log.ordered());
    law_rewritten_log_reads_back(after.log, decode);
    assert(f + after.pending_buf@ =~= f);
}

/// One step of a rewrite, as it was taken.
pub ghost struct RewriteTaken<K> {
    pub before: FileLogInner,
    pub stage: RewriteStage<K>,
    pub event: RewriteEvent<K>,
    pub after: FileLogInner,
    pub next: RewriteStage<K>,
    pub action: RewriteAction<K>,
}

/// Steps of one rewrite from its start, or from a purge, that follow on one another. Nothing else
/// touches the log meanwhile.
pub open spec fn is_rewrite_run<K>(run: Seq<RewriteTaken<K>>) -> bool {
    &&& run.len() > 0 ==> run[0].stage is Start || run[0].stage is Purged
    &&& forall|i: int|
        0 <= i < run.len() ==> rewrite::awaits((#[trigger] run[i]).stage, run[i].event)
            && rewrite::rewrite_moves(
            run[i].before,
            run[i].stage,
            run[i].event,
            run[i].after,
            run[i].next,
            run[i].action,
        )
    &&& forall|i: int, j: int|
        0 <= i && j == i + 1 && j < run.len() ==> (#[trigger] run[j]).stage == (
        #[trigger] run[i]).next && run[j].before == run[i].after
}

/// Past the first flush nothing is pending.
proof fn lemma_nothing_pending<K>(run: Seq<RewriteTaken<K>>, n: int)
    requires
        is_rewrite_run(run),
        0 <= n < run.len(),
    ensures
        !(run[n].next is Purged) && !(run[n].next is Start),
        run[n].next is PersistingPurge || run[n].next is Failing || run[n].next is Done
            || run[n].after.pending_buf@.len() == 0,
    decreases n,
{
    if n > 0 {
        lemma_nothing_pending(run, n - 1);
        assert(run[n].stage == run[n - 1].next);
    }
}

/// Step `w`, before step `n`, put `contents` in the log file's place, and that was reported done.
pub open spec fn replaced_by<K>(
    run: Seq<RewriteTaken<K>>,
    w: int,
    n: int,
    contents: Seq<u8>,
) -> bool {
    &&& 0 <= w && w + 1 < n < run.len()
    &&& run[w].action matches RewriteAction::Replace { contents: c, steps }
    &&& c@ == contents
    &&& run[w + 1].event matches RewriteEvent::Replaced(Ok(_))
}

/// A rewrite that ends well has put the log as it stands in the file's place, and no change of the
/// hard state is left unwritten. So it is after every truncation and every purge.
pub proof fn law_finished_rewrite_is_on_disk<K>(
    run: Seq<RewriteTaken<K>>,
    n: int,
    decode: spec_fn(Seq<u8>) -> log_table::EntryView,
)
    requires
        is_rewrite_run(run),
        0 <= n < run.len(),
        run[n].action matches RewriteAction::Return(Ok(_)),
        reads_back(decode, run[0].before.log.ordered()),
    ensures
        run[n].after.log == run[0].before.log,
        !run[n].after.hard_state_dirty,
        exists|w: int, contents: Seq<u8>| #[trigger]
            replaced_by(run, w, n, contents) && mirrored(contents, run[n].after, decode),
{
    lemma_log_stays(run, n);
    assert(run[n].stage is Removing);
    assert(run[n].stage == run[n - 1].next && run[n].before == run[n - 1].after);
    assert(run[n - 1].stage is Replacing);
    if n >= 2 {
        assert(run[n - 1].stage == run[n - 2].next && run[n - 1].before == run[n - 2].after);
        let w = n - 2;
        lemma_nothing_pending(run, w);
        assert(run[w].next is Replacing);
        assert(run[w].action is Replace);
        let contents = run[w].action->contents@;
        assert(contents == file_log::encoded_bytes(run[w].after.log.ordered()));
        law_rewritten_log_reads_back(run[w].after.log, decode);
        assert(contents + run[n].after.pending_buf@ =~= contents);
        assert(replaced_by(run, w, n, contents));
    }
}

/// A rewrite leaves the log in memory alone.
pub proof fn lemma_log_stays<K>(run: Seq<RewriteTaken<K>>, n: int)
    requires
        is_rewrite_run(run),
        0 <= n < run.len(),
    ensures
        run[n].after.log == run[0].before.log,
    decreases n,
{
    if n > 0 {
        lemma_log_stays(run, n - 1);
        assert(run[n].stage == run[n - 1].next && run[n].before == run[n - 1].after);
    }
}

/// After a purge the purge point reaches the disk before the purged entries leave it.
pub proof fn law_purge_point_is_written_first<K>(run: Seq<RewriteTaken<K>>, r: int)
    requires
        is_rewrite_run(run),
        0 <= r < run.len(),
        run[0].stage is Purged,
        run[r].action is Replace,
    ensures
        r > 0,
        rewrite::asks_to_persist(run[0].before, run[0].action),
        run[1].event matches RewriteEvent::Persisted(Ok(_)),
{
    assert(run[0].next is PersistingPurge);
    assert(run[1].stage == run[0].next);
    if r > 1 {
        assert(run[2].stage == run[1].next);
    }
}

/// A log that is opened again is the log that was there: where all that was appended has reached
/// the file and each frame is read as the entry it was written from, reading the file succeeds and
/// gives the log in memory.
pub proof fn law_reopened_log_is_the_log(
    file: Seq<u8>,
    inner: FileLogInner,
    decode: spec_fn(Seq<u8>) -> log_table::EntryView,
    decoded: Seq<Result<LogEntry, String>>,
)
    requires
        mirrored(file, inner, decode),
        inner.pending_buf@.len() == 0,
        decoded.len() == frames::payloads_from(file, 0).len(),
        forall|i: int|
            0 <= i < decoded.len() ==> (#[trigger] decoded[i]) is Ok && decoded[i]->Ok_0@ == decode(
                frames::payloads_from(file, 0)[i],
            ),
    ensures
        frames::tail_from(file, 0) == FrameTail::Clean,
        all_read(decoded),
        log_table::replay(read_views(decoded)) == inner.log@,
{
    assert(file + inner.pending_buf@ =~= file);
    assert forall|i: int| 0 <= i < decoded.len() implies #[trigger] read_at(decoded, i) by {
        assert(decoded[i] is Ok);
    }
    assert(read_views(decoded) =~= frames::payloads_from(file, 0).map_values(decode));
}

} // verus!
