//! The health reporter of a sink.
//!
//! A sink records each change of its status as one row in a shard. The reporter
//! decides whether a status is a change worth recording, prepares the row, and
//! picks the time at which to append it: the current time, or the upper of the
//! shard where that is later. The append itself is up to the caller, who hands
//! back what became of it.

use crate::frontier::{joined, Frontier};
use crate::status::{status_error, status_name, transition_allowed, SinkStatus, StatusView};
use vstd::prelude::*;

verus! {

/// One row of the status shard. The fifth column, the metadata, is always null.
#[derive(Debug, PartialEq, Eq)]
pub struct StatusRow {
    /// The whole seconds of the time of the report, since the epoch.
    pub seconds: i64,
    /// The nanoseconds of the time of the report, within the second.
    pub nanos: u32,
    /// The identifier of the sink.
    pub sink_id: String,
    /// The name of the status.
    pub status: String,
    /// The message of the status, if it has one.
    pub error: Option<String>,
}

/// The mathematical value of a [`StatusRow`].
pub struct StatusRowView {
    pub seconds: int,
    pub nanos: int,
    pub sink_id: Seq<char>,
    pub status: Seq<char>,
    pub error: Option<Seq<char>>,
}

impl View for StatusRow {
    type V = StatusRowView;

    open spec fn view(&self) -> StatusRowView {
        StatusRowView {
            seconds: self.seconds as int,
            nanos: self.nanos as int,
            sink_id: self.sink_id@,
            status: self.status@,
            error: match self.error {
                Some(e) => Some(e@),
                None => None,
            },
        }
    }
}

impl StatusRow {
    /// A copy of the row.
    pub fn clone(&self) -> (row: StatusRow)
        ensures
            row@ == self@,
    {
        StatusRow {
            seconds: self.seconds,
            nanos: self.nanos,
            sink_id: self.sink_id.clone(),
            status: self.status.clone(),
            error: match &self.error {
                Some(e) => Some(e.clone()),
                None => None,
            },
        }
    }
}

/// The row that records `status` for the sink `sink_id` at `ts` milliseconds.
pub open spec fn status_row(sink_id: Seq<char>, status: StatusView, ts: u64) -> StatusRowView {
    StatusRowView {
        seconds: ts as int / 1000,
        nanos: (ts as int % 1000) * 1_000_000,
        sink_id,
        status: status_name(status),
        error: status_error(status),
    }
}

/// An append that the reporter asks for: one row at `ts`, against the upper that
/// the reporter knows, moving the upper to just after `ts`.
#[derive(Debug, PartialEq, Eq)]
pub struct StatusWrite {
    pub row: StatusRow,
    pub ts: u64,
    pub expected_upper: Frontier,
    pub new_upper: Frontier,
}

/// What became of an append that the reporter asked for.
#[derive(Debug, PartialEq, Eq)]
pub enum AppendResult {
    /// The row is in the shard.
    Applied,
    /// The upper of the shard is another one: this one.
    UpperMismatch(Frontier),
    /// The append may or may not have happened.
    Indeterminate,
}

/// Tracks the status of one sink, and the upper of the shard that records it.
#[derive(Debug, PartialEq, Eq)]
pub struct Healthchecker {
    sink_id: String,
    current_status: Option<SinkStatus>,
    upper: Frontier,
}

/// The mathematical value of an optional status.
pub open spec fn recorded(status: Option<SinkStatus>) -> Option<StatusView> {
    match status {
        Some(s) => Some(s@),
        None => None,
    }
}

impl Healthchecker {
    /// The identifier of the sink.
    pub closed spec fn sink(&self) -> Seq<char> {
        self.sink_id@
    }

    /// The status that was last recorded, if any was.
    pub closed spec fn status(&self) -> Option<StatusView> {
        recorded(self.current_status)
    }

    /// The upper of the status shard as the reporter last saw it.
    pub closed spec fn known_upper(&self) -> Seq<u64> {
        self.upper@
    }

    /// Every timestamp at or before the upper can still be stepped forward.
    pub open spec fn can_step(ts: u64, upper: Seq<u64>) -> bool {
        ts < u64::MAX && forall|i: int| 0 <= i < upper.len() ==> upper[i] < u64::MAX
    }

    /// A reporter for a sink, with nothing recorded yet, for a shard whose upper
    /// is `upper`.
    pub fn new(sink_id: String, upper: Frontier) -> (hc: Healthchecker)
        ensures
            hc.sink() == sink_id@,
            hc.status() is None,
            hc.known_upper() == upper@,
    {
        Healthchecker { sink_id, current_status: None, upper }
    }

    /// The status that was last recorded, if any was.
    pub fn current_status(&self) -> (status: Option<&SinkStatus>)
        ensures
            match status {
                Some(s) => self.status() == Some(s@),
                None => self.status() is None,
            },
    {
        self.current_status.as_ref()
    }

    /// The upper of the status shard as the reporter last saw it.
    pub fn upper(&self) -> (upper: &Frontier)
        ensures
            upper@ == self.known_upper(),
    {
        &self.upper
    }

    /// The row that records `status_update` at `ts` milliseconds since the epoch.
    pub fn prepare_row(&self, status_update: &SinkStatus, ts: u64) -> (row: StatusRow)
        ensures
            row@ == status_row(self.sink(), status_update@, ts),
    {
        let seconds: u64 = ts / 1000;
        let nanos: u64 = (ts % 1000) * 1_000_000;
        StatusRow {
            seconds: seconds as i64,
            nanos: nanos as u32,
            sink_id: self.sink_id.clone(),
            status: String::from_str(status_update.name()),
            error: match status_update.error() {
                Some(e) => Some(String::from_str(e)),
                None => None,
            },
        }
    }

    /// The append that puts `row` into the shard as the reporter knows it: at
    /// `ts`, or at the upper of the shard where that is later.
    pub fn next_write(&self, row: StatusRow, ts: u64) -> (write: StatusWrite)
        requires
            Healthchecker::can_step(ts, self.known_upper()),
        ensures
            write.row@ == row@,
            write.ts == joined(ts, self.known_upper()),
            ts <= write.ts,
            write.expected_upper@ == self.known_upper(),
            write.new_upper@ == seq![(write.ts + 1) as u64],
    {
        let at = self.upper.join_time(ts);
        StatusWrite {
            row,
            ts: at,
            expected_upper: self.upper.clone(),
            new_upper: Frontier::from_elem(at + 1),
        }
    }

    /// Decides on a status that the sink reports at `now`.
    ///
    /// A status that is no allowed transition from the recorded one is passed
    /// over: nothing is to be written. For an allowed one the row is prepared
    /// for `now`, and the append of it is handed out.
    pub fn update_status(&self, status_update: &SinkStatus, now: u64) -> (write: Option<StatusWrite>)
        requires
            Healthchecker::can_step(now, self.known_upper()),
        ensures
            match write {
                Some(write) => transition_allowed(self.status(), status_update@) && write.row@
                    == status_row(self.sink(), status_update@, now) && write.ts == joined(
                    now,
                    self.known_upper(),
                ) && write.expected_upper@ == self.known_upper() && write.new_upper@
                    == seq![(write.ts + 1) as u64],
                None => !transition_allowed(self.status(), status_update@),
            },
    {
        if SinkStatus::can_transition(self.current_status.as_ref(), status_update) {
            let row = self.prepare_row(status_update, now);
            Some(self.next_write(row, now))
        } else {
            None
        }
    }

    /// Takes in what became of an append, and hands out the next one to try, if
    /// the row is not in the shard yet.
    ///
    /// After an applied append the status is recorded, and the reporter knows
    /// the upper that the append moved the shard to. After a mismatch the
    /// reporter knows the upper of the shard, and tries again at or after it.
    /// After an append of which nothing is known it tries the same again.
    pub fn append_result(&mut self, status_update: SinkStatus, write: StatusWrite, result: AppendResult) -> (retry:
        Option<StatusWrite>)
        requires
            write.ts < u64::MAX,
            result matches AppendResult::UpperMismatch(actual) ==> Healthchecker::can_step(
                write.ts,
                actual@,
            ),
            result is Indeterminate ==> Healthchecker::can_step(write.ts, old(self).known_upper()),
        ensures
            final(self).sink() == old(self).sink(),
            match result {
                AppendResult::Applied => retry is None && final(self).status() == Some(
                    status_update@,
                ) && final(self).known_upper() == write.new_upper@,
                AppendResult::UpperMismatch(actual) => retry matches Some(next) && next.row@
                    == write.row@ && next.ts == joined(write.ts, actual@) && next.expected_upper@
                    == actual@ && next.new_upper@ == seq![(next.ts + 1) as u64] && final(self).status() == old(self).status() && final(self).known_upper() == actual@,
                AppendResult::Indeterminate => retry matches Some(next) && next.row@
                    == write.row@ && next.ts == joined(write.ts, old(self).known_upper())
                    && next.expected_upper@ == old(self).known_upper() && next.new_upper@
                    == seq![(next.ts + 1) as u64] && final(self).status() == old(self).status()
                    && final(self).known_upper() == old(self).known_upper(),
            },
    {
        match result {
            AppendResult::Applied => {
                self.upper = write.new_upper;
                self.current_status = Some(status_update);
                None
            },
            AppendResult::UpperMismatch(actual) => {
                self.upper = actual;
                Some(self.next_write(write.row, write.ts))
            },
            AppendResult::Indeterminate => Some(self.next_write(write.row, write.ts)),
        }
    }
}

} // verus!
