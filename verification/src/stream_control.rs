//! When appended log bytes are flushed: at once, on a timer, on a notification, or at a cap.

use vstd::prelude::*;

use crate::config::FileLogSyncLevel;

verus! {

/// Buffering and timed group-commit settings.
#[derive(Clone, Copy, Debug, PartialEq, Eq, Structural)]
pub struct FileLogStreamOptions {
    /// Pending bytes that force a flush, at `Os` or with `hold_overlap`. 0 sets no threshold, but
    /// for the safety cap that `hold_overlap` brings.
    pub stream_buf_bytes: usize,
    /// Longest time to hold pending bytes at `Os`; 0 sets no timer.
    pub stream_flush_ms: u64,
    /// With a coalesce window: overlapping appends do not flush early, only the timer and the
    /// caps do.
    pub hold_overlap: bool,
}

impl Default for FileLogStreamOptions {
    fn default() -> (r: Self)
        ensures
            r.stream_buf_bytes == 0,
            r.stream_flush_ms == 0,
            !r.hold_overlap,
    {
        FileLogStreamOptions { stream_buf_bytes: 0, stream_flush_ms: 0, hold_overlap: false }
    }
}

/// Pending callbacks that force a flush while overlapping appends are held.
pub const HOLD_OVERLAP_MAX_CALLBACKS: usize = 8192;

/// Pending bytes that force a flush while overlapping appends are held, where no threshold is set.
pub const HOLD_OVERLAP_DEFAULT_BUF_CAP: usize = 1048576;

/// The flush settings of a log file, and whether its background flusher runs.
#[derive(Debug)]
pub struct StreamControl {
    pub coalesce_us: u64,
    pub sync_level: FileLogSyncLevel,
    pub stream: FileLogStreamOptions,
    pub flusher_running: bool,
}

/// What the flusher waits for before it flushes.
#[derive(Clone, Copy, Debug, PartialEq, Eq, Structural)]
pub enum FlusherWait {
    /// The timer alone, in microseconds: a notification must not cut the window short.
    Timer(u64),
    /// A notification, or the timer, whichever comes first.
    NotifyOrTimer(u64),
    /// A notification.
    Notify,
}

/// What an append does after its bytes are queued.
#[derive(Clone, Copy, Debug, PartialEq, Eq, Structural)]
pub enum AfterAppend {
    /// Flush before returning.
    FlushNow,
    /// Return at once. `start_flusher`: the flusher is to be started; `wake`: it is to be woken.
    Defer { start_flusher: bool, wake: bool },
}

impl StreamControl {
    /// Appends leave flushing to the background: a coalesce window is set, or, at `Os` alone, a
    /// byte threshold or a timer.
    pub open spec fn defers(&self) -> bool {
        self.coalesce_us > 0 || (self.sync_level == FileLogSyncLevel::Os && (
        self.stream.stream_buf_bytes > 0 || self.stream.stream_flush_ms > 0))
    }

    /// The byte threshold counts: at `Os`, or as the size cap while overlapping appends are held.
    pub open spec fn heeds_threshold(&self) -> bool {
        self.stream.stream_buf_bytes > 0 && (self.sync_level == FileLogSyncLevel::Os
            || self.stream.hold_overlap)
    }

    /// The byte cap in force: the threshold if it counts, else the safety cap while overlapping
    /// appends are held, else none.
    pub open spec fn byte_cap(&self) -> Option<usize> {
        if self.heeds_threshold() {
            Some(self.stream.stream_buf_bytes)
        } else if self.stream.hold_overlap {
            Some(HOLD_OVERLAP_DEFAULT_BUF_CAP)
        } else {
            None
        }
    }

    /// So much is pending that it must be flushed.
    pub open spec fn at_cap(&self, pending_len: usize, pending_callbacks: usize) -> bool {
        ||| self.byte_cap() matches Some(cap) && pending_len >= cap
        ||| self.stream.hold_overlap && pending_callbacks >= HOLD_OVERLAP_MAX_CALLBACKS
    }

    /// The longest time to hold pending bytes in microseconds: at `Data` and `All` the coalesce
    /// window; at `Os` the shorter of the two windows that are set, 0 if none is.
    pub open spec fn window_us(&self) -> int {
        let stream_us = if self.stream.stream_flush_ms * 1000 > u64::MAX {
            u64::MAX as int
        } else {
            self.stream.stream_flush_ms * 1000
        };
        if self.sync_level != FileLogSyncLevel::Os {
            self.coalesce_us as int
        } else if self.coalesce_us == 0 {
            stream_us
        } else if stream_us == 0 || self.coalesce_us <= stream_us {
            self.coalesce_us as int
        } else {
            stream_us
        }
    }

    pub fn new(coalesce_us: u64, sync_level: FileLogSyncLevel, stream: FileLogStreamOptions) -> (r:
        Self)
        ensures
            r == (StreamControl { coalesce_us, sync_level, stream, flusher_running: false }),
    {
        StreamControl { coalesce_us, sync_level, stream, flusher_running: false }
    }

    /// Whether appends leave flushing to the background.
    pub fn defer_enabled(&self) -> (r: bool)
        ensures
            r == self.defers(),
    {
        if self.coalesce_us > 0 {
            return true;
        }
        self.sync_level == FileLogSyncLevel::Os && (self.stream.stream_buf_bytes > 0
            || self.stream.stream_flush_ms > 0)
    }

    /// Whether so much is pending that it must be flushed.
    pub fn hit_force_flush_cap(&self, pending_len: usize, pending_callbacks: usize) -> (r: bool)
        ensures
            r == self.at_cap(pending_len, pending_callbacks),
    {
        if self.sync_level == FileLogSyncLevel::Os && self.stream.stream_buf_bytes > 0
            && pending_len >= self.stream.stream_buf_bytes {
            return true;
        }
        if self.stream.hold_overlap {
            if pending_callbacks >= HOLD_OVERLAP_MAX_CALLBACKS {
                return true;
            }
            let cap: usize = if self.stream.stream_buf_bytes > 0 {
                self.stream.stream_buf_bytes
            } else {
                HOLD_OVERLAP_DEFAULT_BUF_CAP
            };
            if pending_len >= cap {
                return true;
            }
        }
        false
    }

    /// Whether an append with this much pending may wait: flushing is deferred, no cap is hit,
    /// and either overlap is held under a coalesce window or at most one callback waits.
    pub fn should_defer(&self, pending_len: usize, pending_callbacks: usize) -> (r: bool)
        ensures
            r == (self.defers() && !self.at_cap(pending_len, pending_callbacks) && ((
            self.stream.hold_overlap && self.coalesce_us > 0) || pending_callbacks <= 1)),
    {
        if !self.defer_enabled() || self.hit_force_flush_cap(pending_len, pending_callbacks) {
            return false;
        }
        if self.stream.hold_overlap && self.coalesce_us > 0 {
            return true;
        }
        pending_callbacks <= 1
    }

    /// The flusher's timer in microseconds; 0 for none.
    pub fn flush_wait_us(&self) -> (r: u64)
        ensures
            r == self.window_us(),
    {
        if self.sync_level != FileLogSyncLevel::Os {
            return self.coalesce_us;
        }
        let from_stream: u64 = match self.stream.stream_flush_ms.checked_mul(1000) {
            Some(us) => us,
            None => u64::MAX,
        };
        if self.coalesce_us > 0 && from_stream > 0 {
            if self.coalesce_us <= from_stream {
                self.coalesce_us
            } else {
                from_stream
            }
        } else if self.coalesce_us > 0 {
            self.coalesce_us
        } else {
            from_stream
        }
    }

    /// Marks the flusher as running; `true` where the caller is to start it: flushing is deferred
    /// and it did not run.
    pub fn ensure_flusher(&mut self) -> (start: bool)
        ensures
            start == (old(self).defers() && !old(self).flusher_running),
            *final(self) == (StreamControl {
                flusher_running: old(self).flusher_running || start,
                ..*old(self)
            }),
    {
        if !self.defer_enabled() {
            return false;
        }
        if self.flusher_running {
            return false;
        }
        self.flusher_running = true;
        true
    }

    /// Marks the flusher as ended.
    pub fn flusher_stopped(&mut self)
        ensures
            *final(self) == (StreamControl { flusher_running: false, ..*old(self) }),
    {
        self.flusher_running = false;
    }

    /// What the flusher waits for before its next flush.
    pub fn flusher_wait(&self) -> (r: FlusherWait)
        ensures
            r == (if self.window_us() == 0 {
                FlusherWait::Notify
            } else if self.stream.hold_overlap {
                FlusherWait::Timer(self.window_us() as u64)
            } else {
                FlusherWait::NotifyOrTimer(self.window_us() as u64)
            }),
    {
        let wait_us: u64 = self.flush_wait_us();
        if self.stream.hold_overlap && wait_us > 0 {
            FlusherWait::Timer(wait_us)
        } else if wait_us > 0 {
            FlusherWait::NotifyOrTimer(wait_us)
        } else {
            FlusherWait::Notify
        }
    }

    /// What an append does once this much is pending. Deferred, it never waits for the disk; the
    /// flusher is woken unless overlap is held below the caps.
    pub fn after_append(&mut self, pending_len: usize, pending_callbacks: usize) -> (r: AfterAppend)
        ensures
            !old(self).defers() ==> r == AfterAppend::FlushNow && *final(self) == *old(self),
            old(self).defers() ==> r == (AfterAppend::Defer {
                start_flusher: !old(self).flusher_running,
                wake: old(self).at_cap(pending_len, pending_callbacks)
                    || !old(self).stream.hold_overlap,
            }) && *final(self) == (StreamControl { flusher_running: true, ..*old(self) }),
    {
        if self.defer_enabled() {
            let at_cap = self.hit_force_flush_cap(pending_len, pending_callbacks);
            let start_flusher = self.ensure_flusher();
            AfterAppend::Defer { start_flusher, wake: at_cap || !self.stream.hold_overlap }
        } else {
            AfterAppend::FlushNow
        }
    }
}

/// Without a coalesce window, `Data` and `All` never defer: each append is synced before it
/// returns.
pub proof fn law_synced_levels_need_a_window(c: StreamControl)
    requires
        c.coalesce_us == 0,
        c.sync_level != FileLogSyncLevel::Os,
    ensures
        !c.defers(),
{
}

/// At `Data` and `All` the stream settings count for nothing, but for the size cap on held
/// overlap: two controls that differ in them alone defer, wait and cap alike.
pub proof fn law_stream_settings_are_for_os(
    a: StreamControl,
    b: StreamControl,
    pending_len: usize,
    pending_callbacks: usize,
)
    requires
        a.sync_level != FileLogSyncLevel::Os,
        a.sync_level == b.sync_level,
        a.coalesce_us == b.coalesce_us,
        a.stream.hold_overlap == b.stream.hold_overlap,
    ensures
        a.defers() == b.defers(),
        a.window_us() == b.window_us(),
        !a.stream.hold_overlap ==> !a.at_cap(pending_len, pending_callbacks),
{
}

/// While overlapping appends are held, pending bytes are bounded: a cap is always in force.
pub proof fn law_held_overlap_is_bounded(
    c: StreamControl,
    pending_len: usize,
    pending_callbacks: usize,
)
    requires
        c.stream.hold_overlap,
        !c.at_cap(pending_len, pending_callbacks),
    ensures
        pending_callbacks < HOLD_OVERLAP_MAX_CALLBACKS,
        c.byte_cap() is Some,
        pending_len < c.byte_cap()->0,
{
}

} // verus!
