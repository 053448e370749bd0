//! Progress of a backtest while it runs.

use crate::time::{Date, Duration};
use vstd::prelude::*;

verus! {

/// Progress as a fraction: `done` of `total` days.
#[derive(Clone, Copy, Debug, PartialEq, Eq, Structural)]
pub struct Progress {
    pub done: i64,
    pub total: i64,
}

/// What a progress report does besides rewriting the progress file.
#[derive(Clone, Copy, Debug, PartialEq, Eq, Structural)]
pub struct ProgressReport {
    pub progress: Progress,
    /// Log a line: the first report of a date.
    pub log: bool,
    /// Append a heartbeat.
    pub heartbeat: bool,
}

/// A file that a run writes while it goes on.
#[derive(Clone, Copy, Debug, PartialEq, Eq, Structural)]
pub enum StreamFile {
    /// Rewritten with each progress report.
    Progress,
    OrderEvents,
    Trades,
    Heartbeat,
}

impl StreamFile {
    pub open spec fn text(self) -> Seq<char> {
        match self {
            StreamFile::Progress => "progress.json"@,
            StreamFile::OrderEvents => "order-events.jsonl"@,
            StreamFile::Trades => "trades.jsonl"@,
            StreamFile::Heartbeat => "heartbeat.log"@,
        }
    }

    /// Name of the file in the directory of the run.
    pub fn name(self) -> (res: &'static str)
        ensures
            res@ == self.text(),
    {
        match self {
            StreamFile::Progress => "progress.json",
            StreamFile::OrderEvents => "order-events.jsonl",
            StreamFile::Trades => "trades.jsonl",
            StreamFile::Heartbeat => "heartbeat.log",
        }
    }
}

/// The files that are mirrored after each progress report: all of a run.
pub fn mirrored_files() -> (res: Vec<StreamFile>)
    ensures
        res@ == seq![
            StreamFile::Progress,
            StreamFile::OrderEvents,
            StreamFile::Trades,
            StreamFile::Heartbeat,
        ],
{
    vec![
        StreamFile::Progress,
        StreamFile::OrderEvents,
        StreamFile::Trades,
        StreamFile::Heartbeat,
    ]
}

/// The files that a run starts with and that are empty then: those that are
/// appended to, and the progress file where an earlier run left one. So nothing
/// of an earlier run in the same directory is taken for this one's.
pub fn emptied_files(progress_exists: bool) -> (res: Vec<StreamFile>)
    ensures
        forall|file: StreamFile| #[trigger]
            res@.contains(file) <==> (file != StreamFile::Progress || progress_exists),
        res@.no_duplicates(),
{
    let mut files = vec![StreamFile::OrderEvents, StreamFile::Trades, StreamFile::Heartbeat];
    proof {
        assert(files@[0] == StreamFile::OrderEvents);
        assert(files@[1] == StreamFile::Trades);
        assert(files@[2] == StreamFile::Heartbeat);
    }
    if progress_exists {
        let ghost before = files@;
        files.push(StreamFile::Progress);
        proof {
            assert forall|i: int| 0 <= i < before.len() implies files@[i] == before[i] by {}
            assert(files@[3] == StreamFile::Progress);
        }
    }
    files
}

/// State of the progress reports of a run.
#[derive(Clone, Copy, Debug, PartialEq, Eq, Structural)]
pub struct BacktestStreamWriter {
    pub start_date: Date,
    pub end_date: Date,
    pub last_log_date: Option<Date>,
    /// Instant of the last heartbeat, in nanoseconds; none before the first.
    pub last_heartbeat: Option<u128>,
}

/// Days done and days in all: at least one in all, and never more done than that.
pub open spec fn progress_of(start: Date, end: Date, current: Date) -> Progress {
    let total = if end.days - start.days >= 1 {
        end.days - start.days
    } else {
        1
    };
    let done = if current.days - start.days >= 0 {
        current.days - start.days
    } else {
        0
    };
    Progress {
        done: (if done <= total {
            done
        } else {
            total
        }) as i64,
        total: total as i64,
    }
}

impl BacktestStreamWriter {
    pub fn new(start_date: Date, end_date: Date) -> (res: BacktestStreamWriter)
        ensures
            res == (BacktestStreamWriter {
                start_date,
                end_date,
                last_log_date: None,
                last_heartbeat: None,
            }),
    {
        BacktestStreamWriter { start_date, end_date, last_log_date: None, last_heartbeat: None }
    }

    pub fn progress_fraction(&self, current_date: Date) -> (res: Progress)
        ensures
            res == progress_of(self.start_date, self.end_date, current_date),
            0 <= res.done <= res.total,
    {
        let span: i64 = self.end_date.days as i64 - self.start_date.days as i64;
        let total: i64 = if span >= 1 {
            span
        } else {
            1
        };
        let since: i64 = current_date.days as i64 - self.start_date.days as i64;
        let reached: i64 = if since >= 0 {
            since
        } else {
            0
        };
        let done: i64 = if reached <= total {
            reached
        } else {
            total
        };
        Progress { done, total }
    }

    /// Whether a heartbeat is due: the first report, and then one every 30 seconds.
    pub open spec fn heartbeat_due(&self, now: u128) -> bool {
        match self.last_heartbeat {
            Some(last) => now - last >= 30_000_000_000,
            None => true,
        }
    }

    /// Decides what a progress report does.
    pub fn record_progress(&mut self, current_date: Date, now: u128) -> (res: ProgressReport)
        ensures
            res.progress == progress_of(old(self).start_date, old(self).end_date, current_date),
            res.log == (old(self).last_log_date != Some(current_date)),
            res.heartbeat == old(self).heartbeat_due(now),
            *final(self) == (BacktestStreamWriter {
                last_log_date: Some(current_date),
                last_heartbeat: if res.heartbeat {
                    Some(now)
                } else {
                    old(self).last_heartbeat
                },
                ..*old(self)
            }),
            reported(*old(self), current_date, now, *final(self), res),
    {
        let progress = self.progress_fraction(current_date);
        let log = match self.last_log_date {
            Some(date) => date != current_date,
            None => true,
        };
        if log {
            self.last_log_date = Some(current_date);
        }
        let interval: u128 = Duration::from_secs(30).nanos;
        let heartbeat = match self.last_heartbeat {
            Some(last) => now >= last && now - last >= interval,
            None => true,
        };
        if heartbeat {
            self.last_heartbeat = Some(now);
        }
        ProgressReport { progress, log, heartbeat }
    }
}

/// Progress starts at nothing, is complete on the last day, never leaves these bounds
/// and never falls as the days go on; a day is worth the same throughout.
pub proof fn law_progress_grows_with_the_days(start: Date, end: Date, earlier: Date, later: Date)
    requires
        earlier.days <= later.days,
    ensures
        progress_of(start, end, start).done == 0,
        progress_of(start, end, later).total >= 1,
        start.days < end.days ==> progress_of(start, end, later).total == end.days - start.days,
        start.days < end.days && later.days >= end.days ==> progress_of(start, end, later).done
            == progress_of(start, end, later).total,
        progress_of(start, end, earlier).done <= progress_of(start, end, later).done,
        0 <= progress_of(start, end, later).done <= progress_of(start, end, later).total,
        start.days <= earlier.days && later.days <= end.days && start.days < end.days
            ==> progress_of(start, end, later).done - progress_of(start, end, earlier).done
            == later.days - earlier.days,
{
}

/// A heartbeat is due at the first report, and then after 30 seconds.
pub proof fn law_heartbeats_come_every_half_minute(writer: BacktestStreamWriter, now: u128)
    ensures
        writer.last_heartbeat is None ==> writer.heartbeat_due(now),
        writer.last_heartbeat matches Some(last) ==> (writer.heartbeat_due(now) <==> now >= last
            + 30_000_000_000),
{
}

/// Files have names of their own.
pub proof fn law_files_have_names_of_their_own(a: StreamFile, b: StreamFile)
    requires
        a != b,
    ensures
        a.text() != b.text(),
{
    reveal_strlit("progress.json");
    reveal_strlit("order-events.jsonl");
    reveal_strlit("trades.jsonl");
    reveal_strlit("heartbeat.log");
    if a.text() == b.text() {
        assert(a.text()[0] == b.text()[0]);
    }
}

/// What a progress report leads to.
pub open spec fn reported(
    before: BacktestStreamWriter,
    date: Date,
    now: u128,
    after: BacktestStreamWriter,
    report: ProgressReport,
) -> bool {
    &&& report.progress == progress_of(before.start_date, before.end_date, date)
    &&& report.log <==> before.last_log_date != Some(date)
    &&& report.heartbeat <==> before.heartbeat_due(now)
    &&& after.start_date == before.start_date
    &&& after.end_date == before.end_date
    &&& after.last_log_date == Some(date)
    &&& after.last_heartbeat == (if report.heartbeat {
        Some(now)
    } else {
        before.last_heartbeat
    })
}

/// A date is logged with its first report only, and heartbeats are half a minute apart: a
/// second report of a date at once logs nothing and beats no more.
pub proof fn law_dates_are_logged_once(
    before: BacktestStreamWriter,
    date: Date,
    now: u128,
    middle: BacktestStreamWriter,
    first: ProgressReport,
    later: u128,
    after: BacktestStreamWriter,
    second: ProgressReport,
)
    requires
        reported(before, date, now, middle, first),
        reported(middle, date, later, after, second),
        now <= later,
    ensures
        !second.log,
        second.progress == first.progress,
        first.heartbeat && later < now + 30_000_000_000 ==> !second.heartbeat,
        first.heartbeat && later >= now + 30_000_000_000 ==> second.heartbeat,
        before.last_heartbeat is None ==> first.heartbeat,
{
}

} // verus!
