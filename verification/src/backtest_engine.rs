//! The time loop of the plain backtest engine.

use crate::time::{Date, DateTime};
use vstd::prelude::*;

verus! {

/// What the engine does with a slice.
#[derive(Clone, Copy, Debug, PartialEq, Eq, Structural)]
pub enum EngineAction {
    /// The slice is after the end of the run.
    Stop,
    /// The slice has no data.
    Skip,
    /// Process the slice, after ending the previous day if it starts a new one.
    Process { end_previous_day: bool },
}

/// Days and slices that a run has seen.
#[derive(Clone, Copy, Debug, PartialEq, Eq, Structural)]
pub struct BacktestEngine {
    pub end: DateTime,
    pub trading_days: i64,
    pub last_date: Option<Date>,
    pub slices_processed: i64,
}

impl BacktestEngine {
    pub fn new(end: DateTime) -> (res: BacktestEngine)
        ensures
            res == (BacktestEngine { end, trading_days: 0, last_date: None, slices_processed: 0 }),
    {
        BacktestEngine { end, trading_days: 0, last_date: None, slices_processed: 0 }
    }

    /// Whether a slice starts a trading day.
    pub open spec fn starts_day(self, time: DateTime) -> bool {
        self.last_date != Some(time.date())
    }

    /// Takes a slice into account. A slice of another date than the last one
    /// starts a trading day and ends the day before it.
    pub fn on_slice(&mut self, time: DateTime, has_data: bool) -> (res: EngineAction)
        requires
            old(self).trading_days < i64::MAX,
            old(self).slices_processed < i64::MAX,
        ensures
            res == (if time.ns > old(self).end.ns {
                EngineAction::Stop
            } else if !has_data {
                EngineAction::Skip
            } else {
                EngineAction::Process {
                    end_previous_day: old(self).starts_day(time) && old(self).last_date is Some,
                }
            }),
            *final(self) == (if time.ns > old(self).end.ns || !has_data {
                *old(self)
            } else {
                BacktestEngine {
                    trading_days: (old(self).trading_days + (if old(self).starts_day(time) {
                        1int
                    } else {
                        0int
                    })) as i64,
                    last_date: Some(time.date()),
                    slices_processed: (old(self).slices_processed + 1) as i64,
                    ..*old(self)
                }
            }),
            counted(*old(self), time, has_data, *final(self), res),
    {
        if time.ns > self.end.ns {
            return EngineAction::Stop;
        }
        if !has_data {
            return EngineAction::Skip;
        }
        let date = time.date_utc();
        let mut end_previous_day = false;
        let new_day = match self.last_date {
            Some(previous) => previous != date,
            None => true,
        };
        if new_day {
            if self.last_date.is_some() {
                end_previous_day = true;
            }
            self.trading_days = self.trading_days + 1;
        }
        self.last_date = Some(date);
        self.slices_processed = self.slices_processed + 1;
        EngineAction::Process { end_previous_day }
    }

    /// Whether the last day is still to be ended when the data are over.
    pub fn ends_last_day(&self) -> (res: bool)
        ensures
            res == (self.slices_processed > 0),
    {
        self.slices_processed > 0
    }
}

/// Every trading day is ended exactly once: with each processed slice the days
/// ended so far are one fewer than the days started, and the end of the run
/// ends the last one.
pub proof fn law_every_day_is_ended_once(before: BacktestEngine, ended: int, time: DateTime)
    requires
        before.slices_processed >= 0,
        before.trading_days >= 0,
        before.slices_processed > 0 <==> before.last_date is Some,
        ended == (if before.slices_processed > 0 {
            before.trading_days - 1
        } else {
            0
        }),
        before.slices_processed == 0 ==> before.trading_days == 0,
        before.slices_processed < i64::MAX,
        before.trading_days < i64::MAX,
    ensures
        ({
            let ends = before.starts_day(time) && before.last_date is Some;
            let days = before.trading_days + if before.starts_day(time) {
                1int
            } else {
                0int
            };
            ended + (if ends {
                1int
            } else {
                0int
            }) == days - 1
        }),
{
}

/// A slice starts a trading day if and only if no slice of its date came right before
/// it.
pub proof fn law_days_start_with_their_first_slice(engine: BacktestEngine, time: DateTime)
    ensures
        engine.last_date is None ==> engine.starts_day(time),
        engine.last_date matches Some(date) ==> (engine.starts_day(time) <==> date.days
            != time.day()),
{
    time.lemma_day();
    if let Some(date) = engine.last_date {
        assert(date == Date { days: date.days });
    }
}

/// What a slice leads to: the counts after it, and what is done with it.
pub open spec fn counted(
    before: BacktestEngine,
    time: DateTime,
    has_data: bool,
    after: BacktestEngine,
    action: EngineAction,
) -> bool {
    if time.ns > before.end.ns {
        after == before && action == EngineAction::Stop
    } else if !has_data {
        after == before && action == EngineAction::Skip
    } else {
        &&& action == (EngineAction::Process {
            end_previous_day: before.last_date is Some && before.starts_day(time),
        })
        &&& after.end == before.end
        &&& after.last_date == Some(time.date())
        &&& after.slices_processed == before.slices_processed + 1
        &&& after.trading_days == before.trading_days + (if before.starts_day(time) {
            1int
        } else {
            0int
        })
    }
}

/// No slice after the end of the run is processed, nor one without data; every other one is,
/// and is counted. A day is counted with its first slice and ended with the first slice of
/// another day.
pub proof fn law_slices_and_days_are_counted(
    before: BacktestEngine,
    time: DateTime,
    has_data: bool,
    after: BacktestEngine,
    action: EngineAction,
)
    requires
        counted(before, time, has_data, after, action),
    ensures
        action is Process <==> time.ns <= before.end.ns && has_data,
        action is Stop <==> time.ns > before.end.ns,
        !(action is Process) ==> after == before,
        action is Process ==> after.slices_processed == before.slices_processed + 1,
        before.last_date matches Some(date) ==> (action is Process ==> after.trading_days
            - before.trading_days == (if date.days == time.day() {
            0int
        } else {
            1int
        }) && action == (EngineAction::Process { end_previous_day: date.days != time.day() })),
        before.last_date is None && action is Process ==> after.trading_days == before.trading_days
            + 1 && action == (EngineAction::Process { end_previous_day: false }),
{
    law_days_start_with_their_first_slice(before, time);
}

} // verus!
