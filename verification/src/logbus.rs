//! A bounded record of what happened, newest entries last.
use crate::time::now_unix_ms;
use vstd::prelude::*;

verus! {

/// How grave an entry is.
#[derive(Debug, Clone, Copy, PartialEq, Eq, Structural)]
pub enum LogLevel {
    Info,
    Warn,
    Error,
}

/// One entry of the record.
#[derive(Debug, Clone, PartialEq)]
pub struct LogEntry {
    pub ts_unix_ms: u128,
    pub level: LogLevel,
    pub source: String,
    pub msg: String,
}

/// The mathematical value of a `LogEntry`.
pub struct LogEntryView {
    pub ts_unix_ms: u128,
    pub level: LogLevel,
    pub source: Seq<char>,
    pub msg: Seq<char>,
}

impl LogEntry {
    /// The mathematical value.
    pub open spec fn view(&self) -> LogEntryView {
        LogEntryView {
            ts_unix_ms: self.ts_unix_ms,
            level: self.level,
            source: self.source@,
            msg: self.msg@,
        }
    }

    /// A copy of the entry.
    pub fn duplicate(&self) -> (r: LogEntry)
        ensures
            r@ == self@,
    {
        LogEntry {
            ts_unix_ms: self.ts_unix_ms,
            level: self.level,
            source: self.source.clone(),
            msg: self.msg.clone(),
        }
    }
}

/// Fewest entries that a record holds before it drops the oldest.
pub const MIN_LOG_CAPACITY: usize = 50;

/// The record: at most `cap` entries, oldest first.
#[derive(Debug, Clone)]
pub struct LogBus {
    pub buf: Vec<LogEntry>,
    pub cap: usize,
}

/// The mathematical value of a `LogBus`: its entries, oldest first, and how
/// many it holds at most.
pub struct LogBusView {
    pub entries: Seq<LogEntryView>,
    pub cap: int,
}

/// The views of a list of entries.
pub open spec fn entry_views(entries: Seq<LogEntry>) -> Seq<LogEntryView> {
    Seq::new(entries.len(), |i: int| entries[i]@)
}

/// `entries` with `e` at its end, and without its first entry where it
/// already held `cap` or more.
pub open spec fn pushed(entries: Seq<LogEntryView>, cap: int, e: LogEntryView) -> Seq<
    LogEntryView,
> {
    if entries.len() >= cap && entries.len() > 0 {
        entries.drop_first().push(e)
    } else {
        entries.push(e)
    }
}

/// How many entries a listing with the given limit shows: the limit, but at
/// least one, and no more than there are.
pub open spec fn listed_len(len: int, limit: int) -> int {
    let lim = if limit < len {
        limit
    } else {
        len
    };
    let lim = if lim < 1 {
        1
    } else {
        lim
    };
    if lim < len {
        lim
    } else {
        len
    }
}

/// The newest `n` of `entries`, newest first.
pub open spec fn newest_first(entries: Seq<LogEntryView>, n: int) -> Seq<LogEntryView> {
    Seq::new(n as nat, |i: int| entries[entries.len() - 1 - i])
}

impl LogBusView {
    /// The record with `e` added; the oldest entry leaves where the record
    /// is full.
    pub open spec fn with_entry(self, e: LogEntryView) -> LogBusView {
        LogBusView { entries: pushed(self.entries, self.cap, e), ..self }
    }

    /// The record without its entries.
    pub open spec fn cleared(self) -> LogBusView {
        LogBusView { entries: Seq::empty(), ..self }
    }
}

impl LogBus {
    /// The mathematical value.
    pub open spec fn view(&self) -> LogBusView {
        LogBusView { entries: entry_views(self.buf@), cap: self.cap as int }
    }

    /// The record never holds more than its capacity, which is at least
    /// `MIN_LOG_CAPACITY`.
    pub open spec fn wf(&self) -> bool {
        self.buf@.len() <= self.cap && self.cap >= MIN_LOG_CAPACITY
    }

    /// An empty record for `cap` entries, or for `MIN_LOG_CAPACITY` where
    /// `cap` is less.
    pub fn new(cap: usize) -> (r: LogBus)
        ensures
            r.wf(),
            r@ == (LogBusView {
                entries: Seq::empty(),
                cap: if cap < MIN_LOG_CAPACITY {
                    MIN_LOG_CAPACITY as int
                } else {
                    cap as int
                },
            }),
    {
        let r = LogBus {
            buf: Vec::new(),
            cap: if cap < MIN_LOG_CAPACITY {
                MIN_LOG_CAPACITY
            } else {
                cap
            },
        };
        assert(r@.entries =~= Seq::empty());
        r
    }

    /// Adds an entry with the time `ts_unix_ms`; the oldest entry leaves
    /// where the record is full.
    pub fn push_at(&mut self, ts_unix_ms: u128, level: LogLevel, source: String, msg: String)
        requires
            old(self).wf(),
        ensures
            final(self).wf(),
            final(self)@ == old(self)@.with_entry(
                LogEntryView { ts_unix_ms, level, source: source@, msg: msg@ },
            ),
    {
        let ghost before = self@;
        if self.buf.len() >= self.cap {
            self.buf.remove(0);
        }
        let e = LogEntry { ts_unix_ms, level, source, msg };
        self.buf.push(e);
        assert(self@.entries =~= before.with_entry(e@).entries);
    }

    /// Adds an entry with the time of the clock.
    pub fn push(&mut self, level: LogLevel, source: String, msg: String)
        requires
            old(self).wf(),
        ensures
            final(self).wf(),
            exists|ts: u128|
                final(self)@ == old(self)@.with_entry(
                    LogEntryView { ts_unix_ms: ts, level, source: source@, msg: msg@ },
                ),
    {
        let ts = now_unix_ms();
        self.push_at(ts, level, source, msg);
    }

    /// The newest entries, newest first: `limit` of them, but at least one,
    /// and no more than there are.
    pub fn list(&self, limit: usize) -> (r: Vec<LogEntry>)
        ensures
            entry_views(r@) == newest_first(
                self@.entries,
                listed_len(self@.entries.len() as int, limit as int),
            ),
    {
        let len = self.buf.len();
        let lim = if limit < len {
            limit
        } else {
            len
        };
        let lim = if lim < 1 {
            1
        } else {
            lim
        };
        let n = if lim < len {
            lim
        } else {
            len
        };
        let mut out: Vec<LogEntry> = Vec::new();
        let mut i: usize = 0;
        while i < n
            invariant
                i <= n <= len,
                len == self.buf.len(),
                out.len() == i,
                forall|j: int| 0 <= j < i ==> out@[j]@ == self.buf@[len - 1 - j]@,
            decreases n - i,
        {
            out.push(self.buf[len - 1 - i].duplicate());
            i += 1;
        }
        assert(entry_views(out@) =~= newest_first(self@.entries, n as int));
        out
    }

    /// Drops every entry.
    pub fn clear(&mut self)
        requires
            old(self).wf(),
        ensures
            final(self).wf(),
            final(self)@ == old(self)@.cleared(),
    {
        self.buf = Vec::new();
        assert(self@.entries =~= Seq::empty());
    }
}

} // verus!
