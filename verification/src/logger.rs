//! Log records and the bounded in-memory log queue. The asynchronous
//! writer that drains queues to files lives outside this core; what is
//! modelled here is the record format and the bounded claim/complete
//! bookkeeping that keeps a queue from overflowing its fixed buffer.

use vstd::prelude::*;

verus! {

/// Number of log slots a queue may hold.
pub const LOGS_BUFFER_SIZE: usize = 1024;

/// Severity of one log record.
#[derive(Clone, Copy, PartialEq, Eq, Structural, Debug)]
pub enum LogType {
    INFO,
    WARNING,
    ERROR,
    METRIC,
}

impl LogType {
    /// The fixed-width label written in front of each log line.
    pub fn label(&self) -> (r: &'static str)
        ensures
            self is INFO ==> r == "INFO  ",
            self is WARNING ==> r == "WARN  ",
            self is ERROR ==> r == "ERROR ",
            self is METRIC ==> r == "METRIC",
    {
        match self {
            LogType::INFO => "INFO  ",
            LogType::WARNING => "WARN  ",
            LogType::ERROR => "ERROR ",
            LogType::METRIC => "METRIC",
        }
    }
}

/// One log record: its message, severity, and whether the writer must
/// confirm it before the logging call returns.
pub struct Log {
    pub message: String,
    pub tpe: LogType,
    pub sync: bool,
}

impl Log {
    pub fn new(tpe: LogType, message: String) -> (r: Log)
        ensures
            r.tpe == tpe,
            r.message == message,
            !r.sync,
    {
        Log { message, tpe, sync: false }
    }
}

/// A bounded queue of log records: `in_progress` counts claimed slots,
/// `completed` counts fully written ones. Invariant here (one writer, no
/// concurrent claims): both counters equal the number of records stored,
/// and never exceed the buffer size.
pub struct LogsQueue {
    pub in_progress: usize,
    pub completed: usize,
    pub logs: Vec<Log>,
}

impl LogsQueue {
    pub open spec fn wf(self) -> bool {
        &&& self.in_progress == self.logs@.len()
        &&& self.completed == self.logs@.len()
        &&& self.logs@.len() <= LOGS_BUFFER_SIZE
    }

    pub fn new() -> (r: LogsQueue)
        ensures
            r.wf(),
            r.logs@.len() == 0,
    {
        LogsQueue { in_progress: 0, completed: 0, logs: Vec::new() }
    }

    /// Claim a slot and write a record: refused exactly when the buffer is
    /// full, in which case nothing changes and the caller must retry after
    /// the writer has drained the queue.
    pub fn enqueue(&mut self, log: Log) -> (accepted: bool)
        requires
            old(self).wf(),
        ensures
            final(self).wf(),
            accepted == (old(self).logs@.len() < LOGS_BUFFER_SIZE),
            accepted ==> final(self).logs@ == old(self).logs@.push(log),
            !accepted ==> *final(self) == *old(self),
    {
        if self.in_progress >= LOGS_BUFFER_SIZE {
            return false;
        }
        self.logs.push(log);
        self.in_progress = self.in_progress + 1;
        self.completed = self.completed + 1;
        true
    }

    /// The writer has drained every completed record: the queue is empty
    /// again and its storage is reused.
    pub fn drain(&mut self)
        ensures
            final(self).wf(),
            final(self).logs@.len() == 0,
    {
        self.logs.clear();
        self.in_progress = 0;
        self.completed = 0;
    }
}

} // verus!
