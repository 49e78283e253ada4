//! One group's log on disk: what is in memory, what waits to be written, and what the files hold.
//!
//! Entries are appended to `log.bin` as length-prefixed frames. Truncating and purging rewrite the
//! file. Vote, commit point and purge point are kept in `hard_state.json`.

use vstd::prelude::*;

use crate::config::FileLogSyncLevel;
use crate::durability::hard_state_sync_level;
use crate::frames;
use crate::log_table;
use crate::log_table::{IndexBound, LogEntry, LogTable};
use crate::text;
use crate::type_config;
use crate::type_config::{LogId, Vote};

verus! {

/// Why log data cannot be written or read.
#[derive(Debug)]
pub enum DataError {
    /// An entry does not fit a frame.
    EntryTooLarge,
    /// An entry could not be serialised.
    Encode(String),
    /// A frame could not be read as an entry.
    Decode(String),
    /// The file `path` ends inside the frame whose bytes start at `at`.
    Truncated { path: String, at: usize },
    /// The file `path` ends in `count` bytes that are no frame.
    Trailing { path: String, count: usize },
    /// Line `line` of the file `path` could not be read as an entry.
    BadLine { path: String, line: u64, reason: String },
}

/// The text of `e`.
pub open spec fn data_error_text(e: DataError) -> Seq<char> {
    match e {
        DataError::EntryTooLarge => "entry too large"@,
        DataError::Encode(m) => m@,
        DataError::Decode(m) => m@,
        DataError::Truncated { path, at } => path@ + ": truncated frame at "@ + text::decimal(
            at as nat,
        ),
        DataError::Trailing { path, count } => path@ + ": trailing "@ + text::decimal(count as nat)
            + " bytes"@,
        DataError::BadLine { path, line, reason } => path@ + ":"@ + text::decimal(line as nat)
            + ": "@ + reason@,
    }
}

impl DataError {
    pub fn message(&self) -> (r: String)
        ensures
            r@ == data_error_text(*self),
    {
        match self {
            DataError::EntryTooLarge => "entry too large".to_owned(),
            DataError::Encode(m) => m.clone(),
            DataError::Decode(m) => m.clone(),
            DataError::Truncated { path, at } => {
                let mut out = path.clone();
                out.append(": truncated frame at ");
                out.append(text::decimal_text(*at as u64).as_str());
                out
            },
            DataError::Trailing { path, count } => {
                let mut out = path.clone();
                out.append(": trailing ");
                out.append(text::decimal_text(*count as u64).as_str());
                out.append(" bytes");
                out
            },
            DataError::BadLine { path, line, reason } => {
                let mut out = path.clone();
                out.append(":");
                out.append(text::decimal_text(*line).as_str());
                out.append(": ");
                out.append(reason.as_str());
                out
            },
        }
    }
}

/// An entry can be written as one frame.
pub open spec fn encodable(e: log_table::EntryView) -> bool {
    e.encoded matches Ok(raw) && raw.len() <= frames::MAX_FRAME
}

/// Every one of the entries can be written.
pub open spec fn all_encodable(s: Seq<log_table::EntryView>) -> bool {
    forall|i: int| 0 <= i < s.len() ==> encodable(#[trigger] s[i])
}

/// The entry at `k` is the first that cannot be written.
pub open spec fn first_bad(s: Seq<log_table::EntryView>, k: int) -> bool {
    0 <= k < s.len() && !encodable(s[k]) && all_encodable(s.take(k))
}

/// `e` says why `v` cannot be written.
pub open spec fn is_fault_of(e: DataError, v: log_table::EntryView) -> bool {
    match v.encoded {
        Err(m) => e matches DataError::Encode(x) && x@ == m,
        Ok(raw) => raw.len() > frames::MAX_FRAME && e is EntryTooLarge,
    }
}

/// The serialised bytes of each entry.
pub open spec fn raws(s: Seq<log_table::EntryView>) -> Seq<Seq<u8>> {
    s.map_values(|e: log_table::EntryView| e.encoded->Ok_0)
}

/// The bytes that the entries take in the log file.
pub open spec fn encoded_bytes(s: Seq<log_table::EntryView>) -> Seq<u8> {
    frames::frames(raws(s))
}

proof fn lemma_encoded_push(s: Seq<log_table::EntryView>, i: int)
    requires
        0 <= i < s.len(),
    ensures
        encoded_bytes(s.take(i + 1)) == encoded_bytes(s.take(i)) + frames::frame(
            s[i].encoded->Ok_0,
        ),
{
    let a = raws(s.take(i));
    let b = raws(s.take(i + 1));
    assert(b.drop_last() =~= a);
    assert(b.last() == s[i].encoded->Ok_0);
}

/// Appends the frames of `entries` to `buf`, up to the first entry that cannot be written.
pub fn encode_entries_into(buf: &mut Vec<u8>, entries: &Vec<LogEntry>) -> (r: Result<
    (),
    DataError,
>)
    ensures
        match r {
            Ok(_) => {
                let v = log_table::entry_views(entries@);
                all_encodable(v) && final(buf)@ == old(buf)@ + encoded_bytes(v)
            },
            Err(e) => {
                let v = log_table::entry_views(entries@);
                exists|k: int| #[trigger]
                    first_bad(v, k) && is_fault_of(e, v[k]) && final(buf)@ == old(buf)@
                        + encoded_bytes(v.take(k))
            },
        },
{
    let ghost v = log_table::entry_views(entries@);
    let ghost start = buf@;
    let mut i: usize = 0;
    proof {
        assert(raws(v.take(0)) =~= Seq::<Seq<u8>>::empty());
        assert(start + encoded_bytes(v.take(0)) =~= start);
    }
    while i < entries.len()
        invariant
            i <= entries@.len(),
            v == log_table::entry_views(entries@),
            start == old(buf)@,
            all_encodable(v.take(i as int)),
            buf@ == start + encoded_bytes(v.take(i as int)),
        decreases entries@.len() - i,
    {
        let ent = &entries[i];
        assert(v[i as int] == ent@);
        match &ent.encoded {
            Err(m) => {
                assert(first_bad(v, i as int));
                return Err(DataError::Encode(m.clone()));
            },
            Ok(raw) => {
                let ok = frames::push_frame(buf, raw);
                if !ok {
                    assert(first_bad(v, i as int));
                    return Err(DataError::EntryTooLarge);
                }
                proof {
                    lemma_encoded_push(v, i as int);
                    assert forall|j: int| 0 <= j < i + 1 implies encodable(
                        #[trigger] v.take(i + 1)[j],
                    ) by {
                        if j < i {
                            assert(v.take(i + 1)[j] == v.take(i as int)[j]);
                        }
                    }
                    assert(buf@ =~= start + encoded_bytes(v.take(i + 1)));
                }
            },
        }
        i = i + 1;
    }
    assert(v.take(i as int) =~= v);
    Ok(())
}

/// What outlives the log file's entries.
#[derive(Clone, Copy, Debug, PartialEq, Eq, Structural)]
pub struct HardState {
    pub last_purged_log_id: Option<LogId>,
    pub committed: Option<LogId>,
    pub vote: Option<Vote>,
}

impl Default for HardState {
    fn default() -> (r: Self)
        ensures
            r == (HardState { last_purged_log_id: None, committed: None, vote: None }),
    {
        HardState { last_purged_log_id: None, committed: None, vote: None }
    }
}

/// The purge point, and the id of the last entry.
#[derive(Clone, Copy, Debug, PartialEq, Eq, Structural)]
pub struct LogState {
    pub last_purged_log_id: Option<LogId>,
    pub last_log_id: Option<LogId>,
}

/// Bytes and callbacks taken together for one durable write.
#[derive(Debug)]
pub struct FlushBatch {
    pub buf: Vec<u8>,
    pub callbacks: Vec<u64>,
    pub sync_level: FileLogSyncLevel,
}

/// The capacity of the log writer where no larger one is asked for.
pub const DEFAULT_WRITER_CAP: usize = 65536;

/// The state of one group's log. Callbacks are numbers that their owner hands in.
#[derive(Debug)]
pub struct FileLogInner {
    pub dir: String,
    pub last_purged_log_id: Option<LogId>,
    pub log: LogTable,
    pub committed: Option<LogId>,
    pub vote: Option<Vote>,
    /// The log file is open for appending.
    pub writer_open: bool,
    pub writer_cap: usize,
    /// Frames that wait for one flush.
    pub pending_buf: Vec<u8>,
    pub pending_callbacks: Vec<u64>,
    pub sync_level: FileLogSyncLevel,
    /// The commit point has changed since the hard state was last written.
    pub hard_state_dirty: bool,
}

/// `r` are the purge point and the last entry's id; in an empty log the last id is the purge point.
pub open spec fn is_log_state(inner: FileLogInner, r: LogState) -> bool {
    &&& r.last_purged_log_id == inner.last_purged_log_id
    &&& if inner.log@.dom() =~= Set::<u64>::empty() {
        r.last_log_id == inner.last_purged_log_id
    } else {
        &&& r.last_log_id matches Some(id)
        &&& inner.log@.contains_key(id.index)
        &&& inner.log@[id.index].log_id == id
        &&& forall|k: u64| #[trigger] inner.log@.contains_key(k) ==> k <= id.index
    }
}

/// `after` is `before` without the entries after `last_log_id`, or without any.
pub open spec fn is_truncated(
    before: FileLogInner,
    after: FileLogInner,
    last_log_id: Option<LogId>,
) -> bool {
    &&& after.log@ == before.log@.restrict(
        Set::new(
            |k: u64|
                match last_log_id {
                    Some(id) => k <= id.index,
                    None => false,
                },
        ),
    )
    &&& after == (FileLogInner { log: after.log, ..before })
}

/// `after` is `before` with the purge point at `log_id`, without the entries up to it.
pub open spec fn is_purged(before: FileLogInner, after: FileLogInner, log_id: LogId) -> bool {
    &&& after.log@ == before.log@.restrict(Set::new(|k: u64| k > log_id.index))
    &&& after == (FileLogInner { last_purged_log_id: Some(log_id), log: after.log, ..before })
}

impl FileLogInner {
    /// The log is in order, and no callback waits without bytes to write.
    pub open spec fn wf(&self) -> bool {
        &&& self.log.wf()
        &&& self.pending_buf@.len() == 0 ==> self.pending_callbacks@.len() == 0
    }

    /// The hard state as it stands in memory.
    pub open spec fn hard(&self) -> HardState {
        HardState {
            last_purged_log_id: self.last_purged_log_id,
            committed: self.committed,
            vote: self.vote,
        }
    }

    /// The two differ in the pending bytes and callbacks alone.
    pub open spec fn same_but_pending(&self, other: &FileLogInner) -> bool {
        *self == (FileLogInner {
            pending_buf: self.pending_buf,
            pending_callbacks: self.pending_callbacks,
            ..*other
        })
    }

    /// What is written to the hard-state file, and how hard it is synced.
    pub fn hard_state(&self) -> (r: (HardState, FileLogSyncLevel))
        ensures
            r.0 == self.hard(),
            r.1 == crate::durability::spec_hard_state_sync_level(self.sync_level),
    {
        (
            HardState {
                last_purged_log_id: self.last_purged_log_id,
                committed: self.committed,
                vote: self.vote,
            },
            hard_state_sync_level(self.sync_level),
        )
    }

    /// Queues `entries` to be written, with `callback` to be told of it. With no entries nothing
    /// is queued, and `true` says that the callback is complete.
    pub fn append(&mut self, entries: Vec<LogEntry>, callback: u64) -> (r: Result<bool, DataError>)
        requires
            old(self).wf(),
        ensures
            final(self).wf(),
            ({
                let v = log_table::entry_views(entries@);
                match r {
                    Ok(complete) => {
                        &&& all_encodable(v)
                        &&& complete == (v.len() == 0)
                        &&& complete ==> *final(self) == *old(self)
                        &&& !complete ==> {
                            &&& final(self).log@ == old(self).log@.union_prefer_right(
                                log_table::replay(v),
                            )
                            &&& final(self).pending_buf@ == old(self).pending_buf@ + encoded_bytes(v)
                            &&& final(self).pending_callbacks@ == old(self).pending_callbacks@.push(
                                callback,
                            )
                            &&& *final(self) == (FileLogInner {
                                log: final(self).log,
                                pending_buf: final(self).pending_buf,
                                pending_callbacks: final(self).pending_callbacks,
                                ..*old(self)
                            })
                        }
                    },
                    Err(e) => {
                        &&& exists|k: int| #[trigger]
                            first_bad(v, k) && is_fault_of(e, v[k]) && final(self).pending_buf@
                                == old(self).pending_buf@ + encoded_bytes(v.take(k))
                        &&& *final(self) == (FileLogInner {
                            pending_buf: final(self).pending_buf,
                            ..*old(self)
                        })
                    },
                }
            }),
    {
        let ghost v = log_table::entry_views(entries@);
        if entries.len() == 0 {
            return Ok(true);
        }
        match encode_entries_into(&mut self.pending_buf, &entries) {
            Err(e) => {
                return Err(e);
            },
            Ok(()) => {},
        }
        proof {
            lemma_encoded_nonempty(v);
        }
        let mut done: usize = 0;
        let ghost before = self.log@;
        let total: usize = entries.len();
        proof {
            assert(log_table::replay(v.take(0)) =~= Map::empty());
            assert(before.union_prefer_right(log_table::replay(v.take(0))) =~= before);
        }
        while done < total
            invariant
                done <= total,
                total == entries@.len(),
                v == log_table::entry_views(entries@),
                total == v.len(),
                self.log.wf(),
                self.log@ == before.union_prefer_right(log_table::replay(v.take(done as int))),
                before == old(self).log@,
                all_encodable(v),
                v.len() > 0,
                encoded_bytes(v).len() > 0,
                self.pending_buf@ == old(self).pending_buf@ + encoded_bytes(v),
                *self == (FileLogInner {
                    log: self.log,
                    pending_buf: self.pending_buf,
                    ..*old(self)
                }),
            decreases total - done,
        {
            let entry = entries[done].copied();
            assert(v[done as int] == entry@);
            self.log.insert(entry);
            proof {
                let t = v.take(done + 1);
                assert(t.drop_last() =~= v.take(done as int));
                assert(before.union_prefer_right(log_table::replay(t)) =~= before.union_prefer_right(
                    log_table::replay(v.take(done as int)),
                ).insert(entry.log_id.index, entry@));
            }
            done = done + 1;
        }
        assert(v.take(done as int) =~= v);
        self.pending_callbacks.push(callback);
        Ok(false)
    }

    /// Takes what is pending as one batch; nothing where no bytes wait.
    pub fn take_flush_batch(&mut self) -> (r: Option<FlushBatch>)
        requires
            old(self).wf(),
        ensures
            final(self).wf(),
            r is None <==> old(self).pending_buf@.len() == 0,
            r is None ==> *final(self) == *old(self),
            r matches Some(b) ==> {
                &&& b.buf == old(self).pending_buf
                &&& b.callbacks == old(self).pending_callbacks
                &&& b.sync_level == old(self).sync_level
                &&& final(self).pending_buf@.len() == 0
                &&& final(self).pending_callbacks@.len() == 0
                &&& final(self).same_but_pending(old(self))
            },
    {
        if self.pending_buf.len() == 0 {
            return None;
        }
        let mut buf: Vec<u8> = Vec::new();
        let mut callbacks: Vec<u64> = Vec::new();
        std::mem::swap(&mut buf, &mut self.pending_buf);
        std::mem::swap(&mut callbacks, &mut self.pending_callbacks);
        Some(FlushBatch { buf, callbacks, sync_level: self.sync_level })
    }

    /// The entries between two ends, by rising index.
    pub fn try_get_log_entries(&self, lo: IndexBound, hi: IndexBound) -> (r: Vec<LogEntry>)
        requires
            self.wf(),
            log_table::bounds_in_order(lo, hi),
        ensures
            log_table::is_range(self.log.ordered(), lo, hi, log_table::entry_views(r@)),
    {
        self.log.range(lo, hi)
    }

    /// The purge point and the last entry's id; in an empty log the last id is the purge point.
    pub fn get_log_state(&self) -> (r: LogState)
        requires
            self.wf(),
        ensures
            is_log_state(*self, r),
    {
        proof {
            lemma_last_is_greatest(&self.log);
        }
        let last = match self.log.last_log_id() {
            None => self.last_purged_log_id,
            Some(x) => Some(x),
        };
        LogState { last_purged_log_id: self.last_purged_log_id, last_log_id: last }
    }

    /// Sets the commit point; it is written with the next flush, vote or rewrite.
    pub fn save_committed(&mut self, committed: Option<LogId>)
        ensures
            *final(self) == (FileLogInner { committed, hard_state_dirty: true, ..*old(self) }),
    {
        self.committed = committed;
        self.hard_state_dirty = true;
    }

    pub fn read_committed(&self) -> (r: Option<LogId>)
        ensures
            r == self.committed,
    {
        self.committed
    }

    /// Sets the vote; returned is the hard state, which is to be written before the call is
    /// answered.
    pub fn save_vote(&mut self, vote: Vote) -> (r: (HardState, FileLogSyncLevel))
        ensures
            *final(self) == (FileLogInner { vote: Some(vote), ..*old(self) }),
            r.0 == final(self).hard(),
            r.1 == crate::durability::spec_hard_state_sync_level(old(self).sync_level),
    {
        self.vote = Some(vote);
        self.hard_state()
    }

    pub fn read_vote(&self) -> (r: Option<Vote>)
        ensures
            r == self.vote,
    {
        self.vote
    }

    /// Notes that the hard state has been written.
    pub fn hard_state_persisted(&mut self)
        ensures
            *final(self) == (FileLogInner { hard_state_dirty: false, ..*old(self) }),
    {
        self.hard_state_dirty = false;
    }

    /// Drops every entry after `last_log_id`, or all of them; the log file is then to be
    /// rewritten.
    pub fn truncate_after(&mut self, last_log_id: Option<LogId>)
        requires
            old(self).wf(),
            last_log_id matches Some(id) ==> id.index < u64::MAX,
        ensures
            final(self).wf(),
            is_truncated(*old(self), *final(self), last_log_id),
    {
        let start: u64 = match last_log_id {
            Some(id) => id.index + 1,
            None => 0,
        };
        let ghost before = self.log@;
        self.log.remove_from(start);
        assert(self.log@ =~= before.restrict(
            Set::new(
                |k: u64|
                    match last_log_id {
                        Some(id) => k <= id.index,
                        None => false,
                    },
            ),
        ));
    }

    /// Moves the purge point to `log_id` and drops every entry up to it; the hard state is then
    /// to be written, and the log file rewritten.
    pub fn purge(&mut self, log_id: LogId)
        requires
            old(self).wf(),
            type_config::opt_log_id_le(old(self).last_purged_log_id, log_id),
        ensures
            final(self).wf(),
            is_purged(*old(self), *final(self), log_id),
    {
        self.last_purged_log_id = Some(log_id);
        self.log.remove_through(log_id.index);
    }
}

pub proof fn lemma_encoded_nonempty(s: Seq<log_table::EntryView>)
    requires
        s.len() > 0,
    ensures
        encoded_bytes(s).len() > 0,
{
    vstd::bytes::lemma_auto_spec_u32_to_from_le_bytes();
    let r = raws(s);
    assert(frames::frame(r.last()).len() >= 4);
}

/// The last entry's index is the greatest.
pub proof fn lemma_last_is_greatest(t: &LogTable)
    requires
        t.wf(),
    ensures
        t.ordered().len() == 0 <==> t@.dom() =~= Set::<u64>::empty(),
        t.ordered().len() > 0 ==> ({
            let id = t.ordered().last().log_id;
            t@.contains_key(id.index) && t@[id.index].log_id == id && forall|k: u64| #[trigger]
                t@.contains_key(k) ==> k <= id.index
        }),
{
    let s = t.ordered();
    if s.len() > 0 {
        log_table::lemma_replay_at(s, s.len() - 1);
        assert(t@.dom().contains(s.last().log_id.index));
        assert forall|k: u64| #[trigger] t@.contains_key(k) implies k <= s.last().log_id.index by {
            log_table::lemma_replay_dom(s, k);
            let i = choose|i: int| log_table::has_index(s, i, k);
            assert(s[i].log_id.index == k);
        }
    } else {
        assert(t@ =~= Map::empty());
    }
}

} // verus!
