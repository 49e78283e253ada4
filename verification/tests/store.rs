//! The log store: frames, flushing, rewriting, opening; durability; the snapshot catalog.

use multiraft::catalog::{
    accept, dir_name, hex_sha256, CatalogError, DirItem, MetaFile, MetaFound, SnapshotCatalog,
};
use multiraft::config::FileLogSyncLevel;
use multiraft::durability::{
    atomic_replace, hard_state_sync_level, rewrite_replace, sync_file, temp_swap_path,
    ReplaceStep, SyncCall,
};
use multiraft::file_log::{
    encode_entries_into, DataError, FileLogInner, HardState, DEFAULT_WRITER_CAP,
};
use multiraft::flush::{
    complete_flush_callbacks, flush_pipeline, FlushAction, FlushEvent, FlushStage, IoFault,
};
use multiraft::frames::{push_frame, split_frames, FrameTail};
use multiraft::log_open::{
    load_bin, load_log, load_ndjson, log_source, migration, nonblank_lines, table_of, FileLogStore,
    LogFound, LogSource,
};
use multiraft::log_table::{IndexBound, LogEntry, LogTable};
use multiraft::rewrite::{
    rewrite_log, RewriteAction, RewriteEvent, RewriteFault, RewriteStage,
};
use multiraft::stream_control::{
    AfterAppend, FileLogStreamOptions, FlusherWait, StreamControl, HOLD_OVERLAP_DEFAULT_BUF_CAP,
    HOLD_OVERLAP_MAX_CALLBACKS,
};
use multiraft::type_config::{LogId, Vote};

fn id(index: u64) -> LogId {
    LogId { term: 1, node_id: 1, index }
}

fn entry(index: u64, raw: &[u8]) -> LogEntry {
    LogEntry { log_id: id(index), encoded: Ok(raw.to_vec()) }
}

fn fault(message: &str) -> IoFault<u8> {
    IoFault { kind: 5, message: message.to_string() }
}

fn inner(sync_level: FileLogSyncLevel) -> FileLogInner {
    FileLogInner {
        dir: "/tmp/x".to_string(),
        last_purged_log_id: None,
        log: LogTable::new(),
        committed: None,
        vote: None,
        writer_open: false,
        writer_cap: DEFAULT_WRITER_CAP,
        pending_buf: Vec::new(),
        pending_callbacks: Vec::new(),
        sync_level,
        hard_state_dirty: false,
    }
}

fn indexes(inner: &FileLogInner) -> Vec<u64> {
    inner.log.entries().iter().map(|e| e.log_id.index).collect()
}

/// Reads a log file in which an entry is its index, one byte.
fn read_back(file: &[u8]) -> Result<LogTable, DataError> {
    let scan = split_frames(file);
    let decoded = scan
        .frames
        .iter()
        .map(|raw| match raw.first() {
            Some(0) | None => Err("no entry".to_string()),
            Some(index) => Ok(LogEntry { log_id: id(*index as u64), encoded: Ok(raw.clone()) }),
        })
        .collect();
    load_bin("log.bin", scan.tail, &decoded)
}

/// Flushes all that is pending to `file`, with every operation a success.
fn flush(inner: &mut FileLogInner, file: &mut Vec<u8>) -> Vec<u64> {
    let mut done = Vec::new();
    let mut stage: FlushStage<u8> = FlushStage::Ready;
    let mut event = FlushEvent::Proceed;
    loop {
        let (next, action) = flush_pipeline(inner, stage, event);
        stage = next;
        event = match action {
            FlushAction::Write { buf, .. } => {
                file.extend_from_slice(&buf);
                FlushEvent::Written(Ok(()))
            }
            FlushAction::Persist { .. } => FlushEvent::Persisted(Ok(())),
            FlushAction::Tell { told } => {
                for (callback, res) in told {
                    assert!(res.is_ok());
                    done.push(callback);
                }
                FlushEvent::Proceed
            }
            FlushAction::Return(res) => {
                assert!(res.is_ok());
                return done;
            }
        };
    }
}

/// Rewrites the log, with every operation a success: the new file, and what was done.
fn rewrite(inner: &mut FileLogInner, from: RewriteStage<u8>) -> (Vec<u8>, Vec<&'static str>) {
    let mut file = Vec::new();
    let mut log = Vec::new();
    let mut stage = from;
    let mut event = RewriteEvent::Proceed;
    loop {
        let (next, action) = rewrite_log(inner, stage, event);
        stage = next;
        event = match action {
            RewriteAction::Write { .. } => {
                log.push("write");
                RewriteEvent::Written(Ok(()))
            }
            RewriteAction::Tell { .. } => {
                log.push("tell");
                RewriteEvent::Proceed
            }
            RewriteAction::Persist { .. } => {
                log.push("persist");
                RewriteEvent::Persisted(Ok(()))
            }
            RewriteAction::Replace { contents, .. } => {
                log.push("replace");
                file = contents;
                RewriteEvent::Replaced(Ok(()))
            }
            RewriteAction::RemoveOld => {
                log.push("remove");
                RewriteEvent::Proceed
            }
            RewriteAction::Return(res) => {
                assert!(res.is_ok());
                return (file, log);
            }
        };
    }
}

#[test]
fn hard_state_sync_level_never_weaker_than_data() {
    assert_eq!(
        hard_state_sync_level(FileLogSyncLevel::Os),
        FileLogSyncLevel::Data
    );
    assert_eq!(
        hard_state_sync_level(FileLogSyncLevel::Data),
        FileLogSyncLevel::Data
    );
    assert_eq!(
        hard_state_sync_level(FileLogSyncLevel::All),
        FileLogSyncLevel::All
    );
}

#[test]
fn replacing_a_file_step_by_step() {
    assert_eq!(sync_file(FileLogSyncLevel::Os), SyncCall::Nothing);
    assert_eq!(sync_file(FileLogSyncLevel::Data), SyncCall::SyncData);
    assert_eq!(sync_file(FileLogSyncLevel::All), SyncCall::SyncAll);
    assert_eq!(
        atomic_replace(FileLogSyncLevel::Data),
        vec![
            ReplaceStep::CreateTemp,
            ReplaceStep::WriteTemp,
            ReplaceStep::SyncTemp(SyncCall::SyncData),
            ReplaceStep::Rename,
            ReplaceStep::SyncDir,
        ]
    );
    assert_eq!(
        atomic_replace(FileLogSyncLevel::All).last(),
        Some(&ReplaceStep::SyncTarget(SyncCall::SyncAll))
    );
    // Hard state is synced even where the log is not.
    assert_eq!(
        atomic_replace(hard_state_sync_level(FileLogSyncLevel::Os))[2],
        ReplaceStep::SyncTemp(SyncCall::SyncData)
    );
    assert_eq!(
        rewrite_replace(FileLogSyncLevel::Os),
        vec![
            ReplaceStep::CreateTemp,
            ReplaceStep::WriteTemp,
            ReplaceStep::SyncTemp(SyncCall::Nothing),
            ReplaceStep::Rename,
        ]
    );
    assert_eq!(rewrite_replace(FileLogSyncLevel::Data).len(), 6);
    assert_eq!(temp_swap_path(Some("state.json")), "state.json.tmp");
    assert_eq!(temp_swap_path(None), "file.tmp");
}

#[test]
fn file_log_inner_debug_fmt() {
    let inner = inner(FileLogSyncLevel::Data);
    let s = format!("{inner:?}");
    assert!(s.contains("FileLogInner"));
    assert!(s.contains("sync_level"));
}

#[test]
fn stream_control_defer_and_disabled_flusher() {
    let mut disabled = StreamControl::new(
        0,
        FileLogSyncLevel::Data,
        FileLogStreamOptions {
            stream_buf_bytes: 1024,
            stream_flush_ms: 1,
            hold_overlap: false,
        },
    );
    // Data without coalesce: no defer (must fdatasync per append by default).
    assert!(!disabled.defer_enabled());
    assert!(!disabled.should_defer(10, 1));

    let os = StreamControl::new(
        0,
        FileLogSyncLevel::Os,
        FileLogStreamOptions {
            stream_buf_bytes: 100,
            stream_flush_ms: 1,
            hold_overlap: false,
        },
    );
    assert!(os.defer_enabled());
    assert!(!os.should_defer(10, 2)); // pipelined callbacks
    assert!(!os.should_defer(100, 1)); // at/over buf threshold
    assert!(os.should_defer(50, 1));

    let coal = StreamControl::new(50, FileLogSyncLevel::Os, FileLogStreamOptions::default());
    assert!(coal.defer_enabled());
    assert_eq!(coal.flush_wait_us(), 50);
    assert!(coal.should_defer(10, 1));

    let data_coal = StreamControl::new(
        1000,
        FileLogSyncLevel::Data,
        FileLogStreamOptions::default(),
    );
    assert!(data_coal.defer_enabled());
    assert!(data_coal.should_defer(10, 1));
    assert!(!data_coal.should_defer(10, 2));

    let hold = StreamControl::new(
        10_000,
        FileLogSyncLevel::Data,
        FileLogStreamOptions {
            stream_buf_bytes: 0,
            stream_flush_ms: 0,
            hold_overlap: true,
        },
    );
    assert!(hold.should_defer(10, 1));
    assert!(hold.should_defer(10, 64)); // hold across overlap
    assert!(hold.hit_force_flush_cap(HOLD_OVERLAP_DEFAULT_BUF_CAP, 1));

    assert!(!disabled.ensure_flusher());
    assert!(!disabled.flusher_running);
}

#[test]
fn flusher_already_running_short_circuits() {
    let mut os = StreamControl::new(
        0,
        FileLogSyncLevel::Os,
        FileLogStreamOptions {
            stream_buf_bytes: 1024,
            stream_flush_ms: 50,
            hold_overlap: false,
        },
    );
    os.flusher_running = true;
    assert!(!os.ensure_flusher());
    assert!(os.flusher_running);
}

#[test]
fn flusher_waits_and_caps() {
    let stream = |buf: usize, ms: u64, hold: bool| FileLogStreamOptions {
        stream_buf_bytes: buf,
        stream_flush_ms: ms,
        hold_overlap: hold,
    };
    let c = StreamControl::new(2000, FileLogSyncLevel::Os, stream(0, 1, false));
    assert_eq!(c.flush_wait_us(), 1000);
    assert_eq!(c.flusher_wait(), FlusherWait::NotifyOrTimer(1000));
    // The stream settings are for `Os`: elsewhere the coalesce window alone counts.
    let c = StreamControl::new(5_000, FileLogSyncLevel::Data, stream(0, 1, false));
    assert_eq!(c.flush_wait_us(), 5_000);
    assert_eq!(c.flusher_wait(), FlusherWait::NotifyOrTimer(5_000));
    let c = StreamControl::new(2000, FileLogSyncLevel::All, stream(64, 1, false));
    assert_eq!(c.flush_wait_us(), 2000);
    assert!(!c.hit_force_flush_cap(1_000_000, 1));
    assert!(c.should_defer(1_000_000, 1));
    // Held overlap keeps its size cap.
    let c = StreamControl::new(2000, FileLogSyncLevel::Data, stream(64, 1, true));
    assert!(c.hit_force_flush_cap(64, 1) && !c.hit_force_flush_cap(63, 1));
    assert_eq!(c.flusher_wait(), FlusherWait::Timer(2000));
    let c = StreamControl::new(2000, FileLogSyncLevel::Data, stream(0, 0, true));
    assert_eq!(c.flusher_wait(), FlusherWait::Timer(2000));
    assert!(c.hit_force_flush_cap(1, HOLD_OVERLAP_MAX_CALLBACKS));
    assert!(!c.hit_force_flush_cap(1, HOLD_OVERLAP_MAX_CALLBACKS - 1));
    let c = StreamControl::new(0, FileLogSyncLevel::Os, stream(64, 0, false));
    assert_eq!(c.flusher_wait(), FlusherWait::Notify);
    let c = StreamControl::new(0, FileLogSyncLevel::Os, stream(0, u64::MAX, false));
    assert_eq!(c.flush_wait_us(), u64::MAX);
    // The flusher starts once, until it stops.
    let mut c = StreamControl::new(5, FileLogSyncLevel::All, stream(0, 0, false));
    assert_eq!(c.after_append(4, 1), AfterAppend::Defer { start_flusher: true, wake: true });
    assert_eq!(c.after_append(8, 2), AfterAppend::Defer { start_flusher: false, wake: true });
    c.flusher_stopped();
    assert!(c.ensure_flusher());
}

#[test]
fn frames_round_trip_and_tails() {
    let mut buf = Vec::new();
    assert!(push_frame(&mut buf, &b"ab".to_vec()));
    assert!(push_frame(&mut buf, &Vec::new()));
    assert_eq!(buf, vec![2, 0, 0, 0, b'a', b'b', 0, 0, 0, 0]);
    let scan = split_frames(&buf);
    assert_eq!(scan.frames, vec![b"ab".to_vec(), Vec::new()]);
    assert_eq!(scan.tail, FrameTail::Clean);
    // Every cut of the last frame shows.
    for cut in 1..buf.len() {
        let tail = split_frames(&buf[..cut]).tail;
        if cut == 6 {
            assert_eq!(tail, FrameTail::Clean);
        } else {
            assert_ne!(tail, FrameTail::Clean);
        }
    }
}

#[test]
fn open_helpers_and_corrupt_frames() {
    let dir = "open-helpers".to_string();
    let s = FileLogStore::open(dir.clone(), HardState::default(), LogTable::new());
    assert_eq!(s.sync_level(), FileLogSyncLevel::Os);
    let s2 = FileLogStore::open_with_coalesce(dir, 10, HardState::default(), LogTable::new());
    assert_eq!(s2.sync_level(), FileLogSyncLevel::Os);
    assert_eq!(s2.control.coalesce_us, 10);

    // Truncated length-prefixed frame.
    let mut f = 10u32.to_le_bytes().to_vec();
    f.extend_from_slice(b"short");
    let err = read_back(&f).unwrap_err();
    assert!(matches!(err, DataError::Truncated { at: 4, .. }));
    assert_eq!(err.message(), "log.bin: truncated frame at 4");
    // Trailing garbage after complete frames.
    let mut f = 1u32.to_le_bytes().to_vec();
    f.push(7);
    f.push(0xAB);
    let err = read_back(&f).unwrap_err();
    assert!(matches!(err, DataError::Trailing { count: 1, .. }));
    assert_eq!(err.message(), "log.bin: trailing 1 bytes");
    // Valid length, invalid payload.
    let mut f = 8u32.to_le_bytes().to_vec();
    f.extend_from_slice(&[0u8; 8]);
    let err = read_back(&f).unwrap_err();
    assert_eq!(err.message(), "no entry");
    assert!(matches!(err, DataError::Decode(_)));
    // A bad frame is found before what follows the frames.
    f.push(1);
    assert!(matches!(read_back(&f).unwrap_err(), DataError::Decode(_)));
    // ndjson: blank lines + bad JSON.
    let lines = vec![String::new(), "\u{3000}\t ".to_string(), "not-json".to_string()];
    let at = nonblank_lines(&lines);
    assert_eq!(at, vec![2]);
    let decoded = vec![Err("expected ident at line 1 column 2".to_string())];
    let err = load_ndjson("log.ndjson", &lines, &at, &decoded).unwrap_err();
    assert_eq!(err.message(), "log.ndjson:3: expected ident at line 1 column 2");
}

#[test]
fn append_flush_and_reopen() {
    for level in [FileLogSyncLevel::Os, FileLogSyncLevel::Data, FileLogSyncLevel::All] {
        let mut file = Vec::new();
        let mut store = FileLogStore::open_with_options(
            "d".to_string(),
            0,
            level,
            HardState::default(),
            LogTable::new(),
        );
        // Empty append: its callback is complete at once.
        let plan = store.append(Vec::new(), 9).unwrap();
        assert_eq!(plan.complete, Some(9));
        assert_eq!(plan.then_flush, AfterAppend::FlushNow);

        let plan = store.append(vec![entry(1, &[1]), entry(2, &[2, b'a'])], 10).unwrap();
        assert_eq!(plan.complete, None);
        assert_eq!(plan.then_flush, AfterAppend::FlushNow);
        assert_eq!(flush(&mut store.inner, &mut file), vec![10]);
        assert!(store.inner.writer_open);

        let vote = Vote { term: 1, node_id: 1, committed: false };
        let (hard, hard_level) = store.inner.save_vote(vote);
        assert_eq!(hard.vote, Some(vote));
        assert_eq!(hard_level, hard_state_sync_level(level));
        assert_eq!(store.inner.read_vote(), Some(vote));
        store.inner.save_committed(Some(id(2)));
        assert_eq!(store.inner.read_committed(), Some(id(2)));
        assert!(store.inner.hard_state_dirty);

        let state = store.inner.get_log_state();
        assert_eq!(state.last_log_id, Some(id(2)));
        let entries =
            store.inner.try_get_log_entries(IndexBound::Included(1), IndexBound::Included(2));
        assert_eq!(entries.len(), 2);

        // Truncate, then rewrite; the commit point goes to disk with it.
        store.append(vec![entry(3, &[3]), entry(4, &[4])], 11).unwrap();
        assert_eq!(flush(&mut store.inner, &mut file), vec![11]);
        assert!(!store.inner.hard_state_dirty);
        assert_eq!(read_back(&file).unwrap().len(), 4);
        store.inner.truncate_after(Some(id(2)));
        let (rewritten, done) = rewrite(&mut store.inner, RewriteStage::Start);
        assert_eq!(done, vec!["replace", "remove"]);
        assert!(!store.inner.writer_open);
        file = rewritten;
        assert_eq!(store.inner.get_log_state().last_log_id.map(|x| x.index), Some(2));
        assert_eq!(read_back(&file).unwrap().len(), 2);

        // Purge: hard state first, then the file.
        store.inner.purge(id(1));
        let (rewritten, done) = rewrite(&mut store.inner, RewriteStage::Purged);
        assert_eq!(done, vec!["persist", "replace", "remove"]);
        file = rewritten;

        // Reopening reads the same log and hard state.
        let (hard, _) = store.inner.hard_state();
        let log = read_back(&file).unwrap();
        let again = FileLogStore::open_with_options("d".to_string(), 0, level, hard, log);
        assert_eq!(indexes(&again.inner), vec![2]);
        assert_eq!(again.inner.get_log_state(), store.inner.get_log_state());
        assert_eq!(again.inner.last_purged_log_id, Some(id(1)));
    }
}

#[test]
fn truncate_after_none_rewrites_empty() {
    let mut store = inner(FileLogSyncLevel::All);
    let mut file = Vec::new();
    store.append(vec![entry(1, &[1])], 1).unwrap();
    flush(&mut store, &mut file);
    store.truncate_after(None);
    let (file, _) = rewrite(&mut store, RewriteStage::Start);
    assert_eq!(file, Vec::<u8>::new());
    let st = store.get_log_state();
    assert!(st.last_log_id.is_none() || st.last_log_id == st.last_purged_log_id);
}

#[test]
fn logs_are_loaded_from_every_format() {
    let good = |index: u64| Ok(entry(index, &[7]));
    let loaded = load_log("d", LogFound::Nothing).unwrap();
    assert_eq!(loaded.log.len(), 0);
    assert!(loaded.migrate.is_none());

    let found = LogFound::Bin {
        path: "d/log.bin".to_string(),
        tail: FrameTail::Clean,
        decoded: vec![good(1), good(2), good(1)],
    };
    let loaded = load_log("d", found).unwrap();
    assert_eq!(loaded.log.len(), 2);
    assert!(loaded.migrate.is_none());
    let found = LogFound::Bin {
        path: "d/log.bin".to_string(),
        tail: FrameTail::Truncated { at: 9 },
        decoded: vec![good(1)],
    };
    assert_eq!(load_log("d", found).unwrap_err().message(), "d/log.bin: truncated frame at 9");

    let found = LogFound::Legacy(Ok(vec![entry(3, &[1])]));
    let loaded = load_log("d", found).unwrap();
    assert_eq!(loaded.log.len(), 1);
    let migrate = loaded.migrate.unwrap();
    assert_eq!((migrate.dir.as_str(), migrate.log.len()), ("d", 1));
    assert!(load_log("d", LogFound::Legacy(Ok(Vec::new()))).unwrap().migrate.is_none());
    let found = LogFound::Legacy(Err("no array".to_string()));
    assert_eq!(load_log("d", found).unwrap_err().message(), "no array");

    let lines = vec!["a".to_string(), " ".to_string(), "b".to_string()];
    let at = nonblank_lines(&lines);
    let found = LogFound::Ndjson {
        path: "d/log.ndjson".to_string(),
        lines,
        at,
        decoded: vec![good(1), Err("bad".to_string())],
    };
    assert_eq!(load_log("d", found).unwrap_err().message(), "d/log.ndjson:3: bad");
}

#[test]
fn migrate_legacy_json_and_ndjson() {
    assert_eq!(log_source(true, true, true), LogSource::Bin);
    assert_eq!(log_source(false, true, true), LogSource::Ndjson);
    assert_eq!(log_source(false, false, true), LogSource::Legacy);
    assert_eq!(log_source(false, false, false), LogSource::Nothing);
    // log.json migration
    let log = table_of(vec![entry(1, &[1]), entry(2, &[2])]);
    let mut tmp = migration("mig-json", LogSource::Legacy, &log).unwrap();
    let (file, done) = rewrite(&mut tmp, RewriteStage::Start);
    assert_eq!(done, vec!["replace", "remove"]);
    assert_eq!(read_back(&file).unwrap().last_log_id().map(|x| x.index), Some(2));
    // log.ndjson migration
    let lines = vec!["1".to_string(), "2".to_string()];
    let at = nonblank_lines(&lines);
    let decoded = vec![Ok(entry(1, &[1])), Ok(entry(2, &[2]))];
    let log = load_ndjson("log.ndjson", &lines, &at, &decoded).unwrap();
    assert!(migration("mig-ndjson", LogSource::Ndjson, &log).is_some());
    assert_eq!(log.last_log_id().map(|x| x.index), Some(2));
    // Nothing to migrate.
    assert!(migration("d", LogSource::Bin, &log).is_none());
    assert!(migration("d", LogSource::Nothing, &LogTable::new()).is_none());
}

#[test]
fn save_vote_persists_when_log_is_os() {
    let mut store = inner(FileLogSyncLevel::Os);
    let vote = Vote { term: 2, node_id: 1, committed: false };
    let (hard, level) = store.save_vote(vote);
    assert_eq!(level, FileLogSyncLevel::Data);
    store.hard_state_persisted();
    let again = FileLogStore::open_with_options(
        "vote-os".to_string(),
        0,
        FileLogSyncLevel::Os,
        hard,
        LogTable::new(),
    );
    assert_eq!(again.inner.read_vote(), Some(vote));
}

#[test]
fn rewrite_persists_dirty_hard_state() {
    let mut store = FileLogStore::open_with_options(
        "dirty-hs".to_string(),
        0,
        FileLogSyncLevel::Os,
        HardState::default(),
        LogTable::new(),
    );
    let mut file = Vec::new();
    store.append(vec![entry(1, &[1]), entry(2, &[2])], 1).unwrap();
    assert_eq!(flush(&mut store.inner, &mut file), vec![1]);
    store.inner.save_committed(Some(id(2)));
    assert!(store.inner.hard_state_dirty);
    store.inner.truncate_after(Some(id(1)));
    let (file, done) = rewrite(&mut store.inner, RewriteStage::Start);
    assert_eq!(done, vec!["persist", "replace", "remove"]);
    assert!(!store.inner.hard_state_dirty);
    let (hard, _) = store.inner.hard_state();
    let again = FileLogStore::open_with_options(
        "dirty-hs".to_string(),
        0,
        FileLogSyncLevel::Os,
        hard,
        read_back(&file).unwrap(),
    );
    assert_eq!(again.inner.read_committed(), Some(id(2)));
    assert_eq!(indexes(&again.inner), vec![1]);
}

#[test]
fn a_rewrite_flushes_first() {
    let mut store = inner(FileLogSyncLevel::Data);
    store.append(vec![entry(1, &[1])], 1).unwrap();
    store.save_committed(Some(id(1)));
    store.truncate_after(Some(id(1)));
    // What is pending goes out first, then the hard state, then the file.
    let (file, done) = rewrite(&mut store, RewriteStage::Start);
    assert_eq!(done, vec!["write", "tell", "persist", "replace", "remove"]);
    assert!(!store.hard_state_dirty);
    assert_eq!(read_back(&file).unwrap().len(), 1);
}

#[test]
fn callbacks_hear_of_failures() {
    let mut store = inner(FileLogSyncLevel::Data);
    store.append(vec![entry(1, &[1])], 4).unwrap();
    store.append(vec![entry(2, &[2])], 5).unwrap();
    let (stage, action) = flush_pipeline::<u8>(&mut store, FlushStage::Ready, FlushEvent::Proceed);
    assert!(matches!(action, FlushAction::Write { sync_level: FileLogSyncLevel::Data, .. }));
    let (stage, action) =
        flush_pipeline(&mut store, stage, FlushEvent::Written(Err(fault("disk full"))));
    match action {
        FlushAction::Tell { told } => {
            assert_eq!(told.len(), 2);
            for (n, (callback, res)) in told.iter().enumerate() {
                assert_eq!(*callback, 4 + n as u64);
                let e = res.as_ref().unwrap_err();
                assert_eq!((e.kind, e.message.as_str()), (5, "disk full"));
            }
        }
        other => panic!("{other:?}"),
    }
    let (_, action) = flush_pipeline(&mut store, stage, FlushEvent::Proceed);
    match action {
        FlushAction::Return(Err(e)) => assert_eq!(e.message, "disk full"),
        other => panic!("{other:?}"),
    }

    // A hard state that cannot be written fails the batch.
    let mut store = inner(FileLogSyncLevel::Os);
    store.append(vec![entry(1, &[1])], 6).unwrap();
    store.save_committed(Some(id(1)));
    let (stage, _) = flush_pipeline::<u8>(&mut store, FlushStage::Ready, FlushEvent::Proceed);
    let (stage, action) = flush_pipeline(&mut store, stage, FlushEvent::Written(Ok(())));
    assert!(matches!(action, FlushAction::Persist { sync_level: FileLogSyncLevel::Data, .. }));
    let (stage, action) =
        flush_pipeline(&mut store, stage, FlushEvent::Persisted(Err(fault("no"))));
    assert!(matches!(action, FlushAction::Tell { ref told } if told[0].1.is_err()));
    assert!(store.hard_state_dirty);
    assert!(matches!(stage, FlushStage::Failing { .. }));

    // A log file that cannot be opened: the flush ends, its callbacks untold.
    let mut store = inner(FileLogSyncLevel::Os);
    store.append(vec![entry(1, &[1])], 7).unwrap();
    let (stage, _) = flush_pipeline::<u8>(&mut store, FlushStage::Ready, FlushEvent::Proceed);
    let (_, action) = flush_pipeline(&mut store, stage, FlushEvent::OpenFailed(fault("denied")));
    assert!(matches!(action, FlushAction::Return(Err(_))));
    assert!(!store.writer_open);
    assert_eq!(complete_flush_callbacks(&vec![1, 2], &Ok::<(), IoFault<u8>>(())).len(), 2);
}

#[test]
fn rewrites_that_fail() {
    let mut store = inner(FileLogSyncLevel::Os);
    store.append(vec![entry(1, &[1])], 7).unwrap();
    let (stage, _) = rewrite_log::<u8>(&mut store, RewriteStage::Start, RewriteEvent::Proceed);
    let (stage, action) = rewrite_log(&mut store, stage, RewriteEvent::OpenFailed(fault("denied")));
    // Here the callbacks are told.
    assert!(matches!(action, RewriteAction::Tell { ref told } if told[0].0 == 7));
    let (_, action) = rewrite_log(&mut store, stage, RewriteEvent::Proceed);
    assert!(matches!(action, RewriteAction::Return(Err(RewriteFault::Io(_)))));

    // An entry that cannot be written is found before the file is touched.
    let mut store = inner(FileLogSyncLevel::Os);
    store.log.insert(LogEntry { log_id: id(3), encoded: Err("too deep".to_string()) });
    let (_, action) = rewrite_log::<u8>(&mut store, RewriteStage::Start, RewriteEvent::Proceed);
    match action {
        RewriteAction::Return(Err(RewriteFault::Data(e))) => assert_eq!(e.message(), "too deep"),
        other => panic!("{other:?}"),
    }
}

#[test]
fn entries_that_cannot_be_encoded() {
    let mut store = inner(FileLogSyncLevel::Os);
    let bad = LogEntry { log_id: id(2), encoded: Err("nope".to_string()) };
    let err = store.append(vec![entry(1, &[1]), bad], 1).unwrap_err();
    assert!(matches!(err, DataError::Encode(_)));
    assert_eq!(err.message(), "nope");
    // The log and the callbacks stay; what was encoded before the bad entry stays pending.
    assert_eq!(store.log.len(), 0);
    assert_eq!(store.pending_callbacks.len(), 0);
    assert_eq!(store.pending_buf, vec![1, 0, 0, 0, 1]);
    assert_eq!(DataError::EntryTooLarge.message(), "entry too large");
    let mut buf = vec![9];
    encode_entries_into(&mut buf, &vec![entry(1, &[4])]).unwrap();
    assert_eq!(buf, vec![9, 1, 0, 0, 0, 4]);
}

#[test]
fn later_entries_replace_earlier_ones() {
    let mut store = inner(FileLogSyncLevel::Os);
    let mut file = Vec::new();
    store.append(vec![entry(1, &[1]), entry(2, &[2]), entry(3, &[3])], 1).unwrap();
    store.append(vec![LogEntry { log_id: LogId { term: 2, node_id: 1, index: 2 }, encoded: Ok(vec![2, 9]) }], 2)
        .unwrap();
    flush(&mut store, &mut file);
    assert_eq!(indexes(&store), vec![1, 2, 3]);
    assert_eq!(store.log.entries()[1].log_id.term, 2);
    let back = read_back(&file).unwrap();
    assert_eq!(back.entries()[1].encoded, Ok(vec![2, 9]));
    let some = store.try_get_log_entries(IndexBound::Excluded(1), IndexBound::Unbounded);
    assert_eq!(some.len(), 2);
    assert_eq!(some[0].log_id.index, 2);
}

#[test]
fn data_sync_never_defers_stream_flush() {
    let mut store = FileLogStore::open_with_full_options(
        "stream-data".to_string(),
        0,
        FileLogSyncLevel::Data,
        FileLogStreamOptions {
            stream_buf_bytes: 64 * 1024,
            stream_flush_ms: 50,
            hold_overlap: false,
        },
        HardState::default(),
        LogTable::new(),
    );
    let plan = store.append(vec![entry(1, &[1])], 1).unwrap();
    assert_eq!(plan.then_flush, AfterAppend::FlushNow);
}

#[test]
fn stream_options_getter_and_buf_threshold_flush() {
    let stream = FileLogStreamOptions {
        stream_buf_bytes: 64,
        stream_flush_ms: 0,
        hold_overlap: false,
    };
    let mut store = FileLogStore::open_with_full_options(
        "stream-buf".to_string(),
        0,
        FileLogSyncLevel::Os,
        stream,
        HardState::default(),
        LogTable::new(),
    );
    assert_eq!(store.stream_options(), stream);
    assert_eq!(store.inner.writer_cap, DEFAULT_WRITER_CAP);
    let plan = store.append(vec![entry(1, &[1; 128])], 1).unwrap();
    assert_eq!(plan.then_flush, AfterAppend::Defer { start_flusher: true, wake: true });
    // Holding overlaps, only a full buffer wakes the flusher.
    let mut store = FileLogStore::open_with_full_options(
        "hold".to_string(),
        30_000,
        FileLogSyncLevel::Data,
        FileLogStreamOptions { stream_buf_bytes: 128_000, stream_flush_ms: 0, hold_overlap: true },
        HardState::default(),
        LogTable::new(),
    );
    assert_eq!(store.inner.writer_cap, 128_000);
    let plan = store.append(vec![entry(1, &[1; 100])], 1).unwrap();
    assert_eq!(plan.then_flush, AfterAppend::Defer { start_flusher: true, wake: false });
    let plan = store.append(vec![entry(2, &[2; 128_000])], 2).unwrap();
    assert_eq!(plan.then_flush, AfterAppend::Defer { start_flusher: false, wake: true });
}

/// The directory that a write leaves behind.
fn written(catalog: &SnapshotCatalog, index: u64, term: u64, id: &str, data: &[u8]) -> DirItem {
    let plan = catalog.write(0, index, term, id.to_string(), data);
    assert_eq!(plan.group_dir, "0");
    assert_eq!(plan.sha256_file, format!("{}\n", plan.entry.sha256_hex));
    let name = plan.entry.dir.unwrap();
    DirItem {
        is_dir: true,
        path: format!("{}/0/{name}", catalog.root()),
        name: Some(name),
        meta: MetaFound::Good(plan.meta),
    }
}

fn prune(catalog: &SnapshotCatalog, items: &mut Vec<DirItem>) {
    let listing = catalog.list(items).unwrap();
    let mut gone: Vec<usize> =
        catalog.prune(&listing.entries).into_iter().map(|p| listing.from[p]).collect();
    gone.sort();
    for at in gone.into_iter().rev() {
        items.remove(at);
    }
}

#[test]
fn write_read_latest_and_prune() {
    let catalog = SnapshotCatalog::new("/c".to_string(), 2);
    let mut items = Vec::new();

    items.push(written(&catalog, 10, 1, "10-1", b"hello-10"));
    prune(&catalog, &mut items);
    let listing = catalog.list(&items).unwrap();
    assert_eq!(listing.entries[0].last_index, 10);
    let at = catalog.find(&listing.entries, "10-1").unwrap();
    assert_eq!(catalog.read(&listing.entries[at], b"hello-10".to_vec()).unwrap(), b"hello-10");

    items.push(written(&catalog, 20, 2, "20-2", b"hello-20"));
    prune(&catalog, &mut items);
    let listing = catalog.list(&items).unwrap();
    let latest = catalog.latest(&listing.entries).unwrap();
    assert_eq!(listing.entries[latest].snapshot_id, "20-2");

    items.push(written(&catalog, 30, 3, "30-3", b"hello-30"));
    prune(&catalog, &mut items);
    // keep=2 → oldest (10) pruned
    let listing = catalog.list(&items).unwrap();
    assert!(catalog.find(&listing.entries, "10-1").is_none());
    assert!(catalog.find(&listing.entries, "20-2").is_some());
    assert!(catalog.find(&listing.entries, "30-3").is_some());
    let latest = catalog.latest(&listing.entries).unwrap();
    assert_eq!(listing.entries[latest].last_index, 30);
}

#[test]
fn catalog_edges() {
    assert_eq!(
        hex_sha256(b"hello world"),
        "b94d27b9934d3e08a52e52d7da7dabfac484efe37a5380ee9088f7ace2efcde9"
    );
    assert_eq!(
        hex_sha256(b""),
        "e3b0c44298fc1c149afbf4c8996fb92427ae41e4649b934ca495991b7852b855"
    );
    assert_eq!(dir_name(0, 18446744073709551615), "0-18446744073709551615");
    let catalog = SnapshotCatalog::new("/c".to_string(), 0);
    assert_eq!((catalog.root(), catalog.keep()), ("/c", 1));
    // Files, and directories without metadata, do not count.
    let items = vec![
        DirItem {
            is_dir: false,
            name: Some("x".to_string()),
            path: "/c/0/x".to_string(),
            meta: MetaFound::Bad("no".to_string()),
        },
        DirItem {
            is_dir: true,
            name: None,
            path: "/c/0/?".to_string(),
            meta: MetaFound::Missing,
        },
        written(&catalog, 5, 1, "five", b"v"),
    ];
    let listing = catalog.list(&items).unwrap();
    assert_eq!(listing.from, vec![2]);
    // By id, or by directory.
    assert_eq!(catalog.find(&listing.entries, "five"), Some(0));
    assert_eq!(catalog.find(&listing.entries, "5-1"), Some(0));
    assert_eq!(catalog.find(&listing.entries, "5"), None);
    assert_eq!(catalog.latest(&Vec::new()), None);
    let err = catalog.read(&listing.entries[0], b"w".to_vec()).unwrap_err();
    assert_eq!(
        err.message(),
        format!(
            "snapshot sha256 mismatch: expected {}, got {}",
            hex_sha256(b"v"),
            hex_sha256(b"w")
        )
    );
    assert!(matches!(err, CatalogError::ShaMismatch { .. }));
    assert!(accept("ab", "ab".to_string(), vec![1]).is_ok());
    let bad = vec![DirItem {
        is_dir: true,
        name: Some("9-9".to_string()),
        path: "/c/0/9-9".to_string(),
        meta: MetaFound::Bad("expected value".to_string()),
    }];
    assert_eq!(catalog.list(&bad).unwrap_err().message(), "expected value");
}

#[test]
fn pruning_goes_by_index_before_term() {
    let catalog = SnapshotCatalog::new("/c".to_string(), 1);
    let meta = |index: u64, term: u64| DirItem {
        is_dir: true,
        name: Some(dir_name(index, term)),
        path: String::new(),
        meta: MetaFound::Good(MetaFile {
            group: 0,
            last_index: index,
            last_term: term,
            snapshot_id: dir_name(index, term),
            size: 0,
            sha256_hex: String::new(),
        }),
    };
    let items = vec![meta(10, 9), meta(12, 1), meta(12, 1), meta(11, 7)];
    let listing = catalog.list(&items).unwrap();
    assert_eq!(catalog.prune(&listing.entries), vec![0, 3, 1]);
    assert_eq!(catalog.latest(&listing.entries), Some(1));
}

/// Rewrites the log, with every operation a success: the new file, and the hard state on disk,
/// which was `disk` before.
fn rewrite_on_disk(
    inner: &mut FileLogInner,
    from: RewriteStage<u8>,
    disk: HardState,
) -> (Vec<u8>, HardState) {
    let mut file = Vec::new();
    let mut hard = disk;
    let mut stage = from;
    let mut event = RewriteEvent::Proceed;
    loop {
        let (next, action) = rewrite_log(inner, stage, event);
        stage = next;
        event = match action {
            RewriteAction::Write { .. } => RewriteEvent::Written(Ok(())),
            RewriteAction::Persist { state, .. } => {
                hard = state;
                RewriteEvent::Persisted(Ok(()))
            }
            RewriteAction::Replace { contents, .. } => {
                file = contents;
                RewriteEvent::Replaced(Ok(()))
            }
            RewriteAction::Tell { .. } | RewriteAction::RemoveOld => RewriteEvent::Proceed,
            RewriteAction::Return(res) => {
                assert!(res.is_ok());
                return (file, hard);
            }
        };
    }
}

/// A log of three entries with a vote and a commit point, all of it on disk.
fn settled_log() -> (FileLogInner, HardState) {
    let mut log = inner(FileLogSyncLevel::Data);
    let entries = (1..=3).map(|n| entry(n, &[n as u8])).collect();
    assert!(!log.append(entries, 1).unwrap());
    let mut file = Vec::new();
    log.save_committed(Some(id(2)));
    log.save_vote(Vote { term: 4, node_id: 2, committed: true });
    assert_eq!(flush(&mut log, &mut file), vec![1]);
    let hard = log.hard_state().0;
    (log, hard)
}

#[test]
fn a_truncated_log_opens_again_as_truncated() {
    let (mut log, disk) = settled_log();
    log.truncate_after(Some(id(2)));
    let (file, hard) = rewrite_on_disk(&mut log, RewriteStage::Start, disk);
    let again = FileLogInner::opened(
        "/d".to_string(),
        hard,
        read_back(&file).unwrap(),
        DEFAULT_WRITER_CAP,
        FileLogSyncLevel::Data,
    );
    assert_eq!(indexes(&again), vec![1, 2]);
    assert_eq!(again.read_vote(), Some(Vote { term: 4, node_id: 2, committed: true }));
    assert_eq!(again.read_committed(), Some(id(2)));
    assert_eq!(again.last_purged_log_id, None);
}

#[test]
fn a_purged_log_opens_again_as_purged() {
    let (mut log, disk) = settled_log();
    log.purge(id(1));
    let (file, hard) = rewrite_on_disk(&mut log, RewriteStage::Purged, disk);
    let again = FileLogInner::opened(
        "/d".to_string(),
        hard,
        read_back(&file).unwrap(),
        DEFAULT_WRITER_CAP,
        FileLogSyncLevel::Data,
    );
    assert_eq!(indexes(&again), vec![2, 3]);
    assert_eq!(again.last_purged_log_id, Some(id(1)));
    assert_eq!(again.read_vote(), Some(Vote { term: 4, node_id: 2, committed: true }));
    assert_eq!(again.read_committed(), Some(id(2)));
}

#[test]
fn batches_load_as_the_last_entry_of_each_index() {
    let mut file = Vec::new();
    encode_entries_into(&mut file, &vec![entry(1, &[1, 10]), entry(2, &[2, 10])]).unwrap();
    encode_entries_into(&mut file, &vec![entry(2, &[2, 20]), entry(3, &[3, 20])]).unwrap();
    encode_entries_into(&mut file, &vec![entry(3, &[3, 30])]).unwrap();
    let log = read_back(&file).unwrap();
    let raws: Vec<Vec<u8>> = log.entries().iter().map(|e| e.encoded.clone().unwrap()).collect();
    assert_eq!(raws, vec![vec![1, 10], vec![2, 20], vec![3, 30]]);
    // Loading it once more gives the same.
    let again = read_back(&file).unwrap();
    assert_eq!(format!("{again:?}"), format!("{log:?}"));

    // A file that was cut, and one with bytes over, do not load.
    for cut in 1..6 {
        assert!(read_back(&file[..file.len() - cut]).is_err());
    }
    for stray in 1..4 {
        let mut longer = file.clone();
        longer.extend_from_slice(&[9, 0, 0][..stray]);
        assert!(matches!(read_back(&longer), Err(DataError::Trailing { .. })));
    }
    file.extend_from_slice(&[9, 0, 0, 0, 1]);
    assert!(matches!(read_back(&file), Err(DataError::Truncated { .. })));
}

#[test]
fn a_migrated_log_loads_the_same() {
    let first = load_log("/d", LogFound::Legacy(Ok(vec![entry(2, &[2]), entry(5, &[5])]))).unwrap();
    let mut moved = first.migrate.unwrap();
    let none = HardState { last_purged_log_id: None, committed: None, vote: None };
    let (file, hard) = rewrite_on_disk(&mut moved, RewriteStage::Start, none);
    assert_eq!(hard, none);
    let again = read_back(&file).unwrap();
    assert_eq!(format!("{again:?}"), format!("{:?}", first.log));
}

#[test]
fn an_append_is_answered_once() {
    let mut log = inner(FileLogSyncLevel::Os);
    let mut file = Vec::new();
    assert!(!log.append(vec![entry(1, &[1])], 7).unwrap());
    assert!(!log.append(vec![entry(2, &[2])], 8).unwrap());
    assert_eq!(flush(&mut log, &mut file), vec![7, 8]);
    assert_eq!(flush(&mut log, &mut file), Vec::<u64>::new());
    assert_eq!(read_back(&file).unwrap().entries().len(), 2);
}

#[test]
fn a_write_keeps_the_newest() {
    let catalog = SnapshotCatalog::new("/c".to_string(), 2);
    let mut items =
        vec![written(&catalog, 20, 1, "old", b"old"), written(&catalog, 30, 1, "30-1", b"c")];
    // One at the same point takes the place of the one that was there.
    items[0] = written(&catalog, 20, 1, "new", b"new");
    prune(&catalog, &mut items);
    let listing = catalog.list(&items).unwrap();
    assert_eq!(listing.entries.len(), 2);
    assert!(catalog.find(&listing.entries, "old").is_none());
    assert!(catalog.find(&listing.entries, "new").is_some());
    // A new one that is older than all of them goes itself.
    items.push(written(&catalog, 10, 9, "10-9", b"late"));
    prune(&catalog, &mut items);
    let listing = catalog.list(&items).unwrap();
    assert_eq!(listing.entries.len(), 2);
    assert!(catalog.find(&listing.entries, "10-9").is_none());
    // Another group has another directory.
    assert_eq!(catalog.write(12, 1, 1, "x".to_string(), b"").group_dir, "12");
}

#[test]
fn a_purged_log_tells_its_state() {
    let (mut log, _) = settled_log();
    log.purge(id(2));
    let state = log.get_log_state();
    assert_eq!((state.last_purged_log_id, state.last_log_id), (Some(id(2)), Some(id(3))));
    log.purge(id(9));
    let state = log.get_log_state();
    assert_eq!((state.last_purged_log_id, state.last_log_id), (Some(id(9)), Some(id(9))));
}

#[test]
fn an_answered_append_is_in_the_file() {
    let mut log = inner(FileLogSyncLevel::Data);
    let mut file = Vec::new();
    for n in 1..=3u64 {
        assert!(!log.append(vec![entry(n, &[n as u8])], n).unwrap());
        assert_eq!(flush(&mut log, &mut file), vec![n]);
        assert_eq!(split_frames(&file).frames.last(), Some(&vec![n as u8]));
        assert_eq!(read_back(&file).unwrap().entries().len(), n as usize);
    }
    let before = file.clone();
    assert!(log.append(Vec::new(), 4).unwrap());
    assert_eq!(flush(&mut log, &mut file), Vec::<u64>::new());
    assert_eq!(file, before);
}
