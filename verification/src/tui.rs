//! State shared with the terminal UI that is not tied to the terminal:
//! the bounded event log and the editing cursors.

use vstd::prelude::*;

verus! {

/// Capacity of the event log; older entries are dropped first.
pub const LOG_CAPACITY: usize = 500;

#[derive(Clone, Copy, Debug)]
pub struct VoiceEditState {
    pub chain_idx: usize,
    pub voice_idx: usize,
}

#[derive(Clone, Copy, Debug)]
pub struct QuantizeEditState {
    pub chain_idx: usize,
}

/// Where a log entry came from.
#[derive(Clone, Copy, Debug, PartialEq, Eq, Structural)]
pub enum LogSource {
    Osc,
    Midi,
    Internal,
}

pub struct LogEntry {
    pub source: LogSource,
    pub content: String,
}

/// The mathematical value of a `LogEntry`.
pub struct LogEntryView {
    pub source: LogSource,
    pub content: Seq<char>,
}

impl View for LogEntry {
    type V = LogEntryView;

    open spec fn view(&self) -> LogEntryView {
        LogEntryView { source: self.source, content: self.content@ }
    }
}

/// The most recent log entries, oldest first, at most `LOG_CAPACITY` of
/// them.
pub struct EventLog {
    entries: Vec<LogEntry>,
}

impl View for EventLog {
    type V = Seq<LogEntryView>;

    closed spec fn view(&self) -> Seq<LogEntryView> {
        self.entries@.map_values(|e: LogEntry| e@)
    }
}

/// The log after appending `e`: when full, the oldest entry goes first.
pub open spec fn log_push(log: Seq<LogEntryView>, e: LogEntryView) -> Seq<LogEntryView> {
    if log.len() >= LOG_CAPACITY {
        log.skip(1).push(e)
    } else {
        log.push(e)
    }
}

impl EventLog {
    pub fn new() -> (r: Self)
        ensures
            r@ == Seq::<LogEntryView>::empty(),
    {
        let r = EventLog { entries: Vec::new() };
        assert(r@ =~= Seq::<LogEntryView>::empty());
        r
    }

    /// Append an entry, dropping the oldest when the log is full.
    pub fn push(&mut self, source: LogSource, content: String)
        ensures
            final(self)@ == log_push(old(self)@, LogEntryView { source, content: content@ }),
    {
        let ghost e = LogEntryView { source, content: content@ };
        if self.entries.len() >= LOG_CAPACITY {
            let ghost before = self.entries@;
            let _ = self.entries.remove(0);
            assert(self.entries@.map_values(|x: LogEntry| x@) =~= before.map_values(
                |x: LogEntry| x@,
            ).skip(1));
        }
        let ghost mid = self.entries@;
        self.entries.push(LogEntry { source, content });
        assert(self.entries@.map_values(|x: LogEntry| x@) =~= mid.map_values(|x: LogEntry| x@).push(
            e,
        ));
    }

    pub fn len(&self) -> (r: usize)
        ensures
            r == self@.len(),
    {
        self.entries.len()
    }

    /// The entries, oldest first.
    pub fn entries(&self) -> (r: &Vec<LogEntry>)
        ensures
            r@.map_values(|x: LogEntry| x@) == self@,
    {
        &self.entries
    }
}

/// The log never holds more than `LOG_CAPACITY` entries, and the newest
/// entry is always the last one.
pub proof fn lemma_log_bounded(log: Seq<LogEntryView>, e: LogEntryView)
    requires
        log.len() <= LOG_CAPACITY,
    ensures
        log_push(log, e).len() <= LOG_CAPACITY,
        log_push(log, e).last() == e,
{
}

} // verus!
