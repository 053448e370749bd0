//! Decisions of a backtest: its dates, the order of its work and what it
//! records.

use crate::decimal::Price;
use crate::model::SubscriptionDataConfig;
use crate::result_handler::{with_value, ResultHandler};
use crate::slice::{row_of, Slice};
use crate::subscription_reader::coverage::lemma_push_contains;
use crate::text::texts;
use crate::time::{clock_ns, date_text, day_of, Date, DateTime};
use vstd::prelude::*;
use vstd::string::*;

verus! {

/// Whether a slice holds data for the algorithm.
pub open spec fn has_algorithm_data(slice: Slice) -> bool {
    has_fill_data(slice) || slice.custom@.len() > 0
}

/// Whether a slice holds data against which orders can fill.
pub open spec fn has_fill_data(slice: Slice) -> bool {
    ||| slice.bars@.len() > 0
    ||| slice.quote_bars@.len() > 0
    ||| slice.ticks@.len() > 0
    ||| slice.has_order_books
    ||| slice.has_perpetual_contexts
}

/// Whether a slice holds anything.
pub open spec fn has_data(slice: Slice) -> bool {
    has_algorithm_data(slice) || slice.option_chains@.len() > 0
}

pub fn slice_has_algorithm_data(slice: &Slice) -> (res: bool)
    ensures
        res == has_algorithm_data(*slice),
{
    slice.bars.len() > 0 || slice.quote_bars.len() > 0 || slice.ticks.len() > 0
        || slice.custom.len() > 0 || slice.has_order_books || slice.has_perpetual_contexts
}

pub fn slice_has_fill_data(slice: &Slice) -> (res: bool)
    ensures
        res == has_fill_data(*slice),
{
    slice.bars.len() > 0 || slice.quote_bars.len() > 0 || slice.ticks.len() > 0
        || slice.has_order_books || slice.has_perpetual_contexts
}

// ---------------------------------------------------------------------------
// Dates
// ---------------------------------------------------------------------------

/// First and last date of a backtest before they are held against each other.
pub open spec fn wanted_dates(
    start_override: Option<Date>,
    end_override: Option<Date>,
    algorithm_start: DateTime,
    algorithm_end: DateTime,
    engine_date: Date,
) -> (Date, Date) {
    let start = match start_override {
        Some(date) => date,
        None => algorithm_start.date(),
    };
    let end = match end_override {
        Some(date) => date,
        None => if algorithm_end.ns == i64::MAX {
            engine_date
        } else {
            algorithm_end.date()
        },
    };
    (start, end)
}

/// The dates of a backtest. Overrides come first, then the dates of the
/// algorithm; one that sets no end runs through the engine's date. A start
/// after the end is an error.
pub fn resolve_backtest_dates(
    start_override: Option<Date>,
    end_override: Option<Date>,
    algorithm_start: DateTime,
    algorithm_end: DateTime,
    engine_date: Date,
) -> (res: Result<(Date, Date), String>)
    requires
        start_override matches Some(date) ==> date.in_calendar(),
        end_override matches Some(date) ==> date.in_calendar(),
        engine_date.in_calendar(),
    ensures
        ({
            let (start, end) = wanted_dates(
                start_override,
                end_override,
                algorithm_start,
                algorithm_end,
                engine_date,
            );
            match res {
                Ok(dates) => start.days <= end.days && dates == (start, end),
                Err(message) => start.days > end.days && message@ == "backtest start date "@
                    + date_text(start.days as int) + " is after end date "@ + date_text(
                    end.days as int,
                ),
            }
        }),
{
    let start = match start_override {
        Some(date) => date,
        None => algorithm_start.date_utc(),
    };
    let end = match end_override {
        Some(date) => date,
        None => if algorithm_end.ns == i64::MAX {
            engine_date
        } else {
            algorithm_end.date_utc()
        },
    };
    if start.days > end.days {
        let start_text = start.to_text();
        let end_text = end.to_text();
        return Err(
            "backtest start date ".to_owned().concat(start_text.as_str()).concat(
                " is after end date ",
            ).concat(end_text.as_str()),
        );
    }
    Ok((start, end))
}

/// Earliest of the warm-up starts of the subscriptions that are not internal.
pub open spec fn earliest_start(configs: Seq<SubscriptionDataConfig>, starts: Seq<Date>) -> Option<
    Date,
>
    decreases configs.len(),
{
    if configs.len() == 0 {
        None
    } else {
        let head = earliest_start(configs.drop_last(), starts.drop_last());
        if configs.last().is_internal_feed {
            head
        } else {
            match head {
                Some(date) => if starts.last().days < date.days {
                    Some(starts.last())
                } else {
                    Some(date)
                },
                None => Some(starts.last()),
            }
        }
    }
}

/// Start of a warm-up that is counted in bars. `starts` holds, for each
/// subscription, the date that lies the wanted number of sessions back.
pub fn warmup_start_from_bar_count(subscriptions: &Vec<SubscriptionDataConfig>, starts: &Vec<Date>) -> (res:
    Option<Date>)
    requires
        starts@.len() == subscriptions@.len(),
    ensures
        res == earliest_start(subscriptions@, starts@),
{
    let mut earliest: Option<Date> = None;
    let mut i: usize = 0;
    while i < subscriptions.len()
        invariant
            i <= subscriptions@.len(),
            starts@.len() == subscriptions@.len(),
            earliest == earliest_start(subscriptions@.take(i as int), starts@.take(i as int)),
        decreases subscriptions.len() - i,
    {
        proof {
            assert(subscriptions@.take(i + 1).drop_last() =~= subscriptions@.take(i as int));
            assert(starts@.take(i + 1).drop_last() =~= starts@.take(i as int));
            assert(subscriptions@.take(i + 1).last() == subscriptions@[i as int]);
            assert(starts@.take(i + 1).last() == starts@[i as int]);
        }
        if !subscriptions[i].is_internal_feed {
            earliest = match earliest {
                Some(date) => if starts[i].days < date.days {
                    Some(starts[i])
                } else {
                    Some(date)
                },
                None => Some(starts[i]),
            };
        }
        i = i + 1;
    }
    assert(subscriptions@.take(i as int) =~= subscriptions@);
    assert(starts@.take(i as int) =~= starts@);
    earliest
}

/// How long an algorithm warms up.
#[derive(Clone, Copy, Debug, PartialEq, Eq, Structural)]
pub enum WarmupLength {
    /// From this date on, where the bars reach back that far.
    Bars(Option<Date>),
    /// For a number of nanoseconds, if one is set.
    Span(Option<i64>),
}

/// First instant of a warm-up.
pub open spec fn warmup_start(length: WarmupLength, normal_start: DateTime) -> Option<int> {
    match length {
        WarmupLength::Bars(Some(date)) => Some(clock_ns(date.days as int, 0)),
        WarmupLength::Span(Some(span)) => Some(normal_start.ns - span),
        _ => None,
    }
}

/// The window that is replayed before a backtest: up to the last nanosecond
/// before it. There is none where the window would be empty.
pub fn warmup_window(length: WarmupLength, normal_start: DateTime) -> (res: Option<(DateTime, DateTime)>)
    requires
        normal_start.ns > i64::MIN,
        length matches WarmupLength::Bars(Some(date)) ==> date.on_clock(),
        length matches WarmupLength::Span(Some(span)) ==> i64::MIN <= normal_start.ns - span
            <= i64::MAX,
    ensures
        res == (match warmup_start(length, normal_start) {
            Some(start) => if start <= normal_start.ns - 1 {
                Some(
                    (
                        DateTime { ns: start as i64 },
                        DateTime { ns: (normal_start.ns - 1) as i64 },
                    ),
                )
            } else {
                None
            },
            None => None,
        }),
        res matches Some(window) ==> is_warmup_window(length, normal_start, window),
{
    let start = match length {
        WarmupLength::Bars(Some(date)) => DateTime::at(date, 0),
        WarmupLength::Span(Some(span)) => DateTime { ns: normal_start.ns - span },
        _ => {
            return None;
        },
    };
    let end = DateTime { ns: normal_start.ns - 1 };
    if start.ns <= end.ns {
        Some((start, end))
    } else {
        None
    }
}

/// First and last instant of a backtest: from the start of its first date to the
/// last second of its last one.
pub fn backtest_window(start: Date, end: Date) -> (res: (DateTime, DateTime))
    requires
        start.on_clock(),
        end.on_clock(),
    ensures
        res.0.ns == clock_ns(start.days as int, 0),
        res.1.ns == clock_ns(end.days as int, 86_399),
{
    (DateTime::at(start, 0), DateTime::at(end, 86_399))
}

/// Steps of the processing of one slice of a warm-up.
#[derive(Clone, Copy, Debug, PartialEq, Eq, Structural)]
pub enum WarmupStep {
    AdvanceFrontier,
    DeliverData,
    AdvanceFramework,
    EndTimeStep,
    Done,
    /// The algorithm raised an error, and the run is over.
    Failed,
}

/// The first step; an empty slice has none.
pub fn first_warmup_step(slice: &Slice) -> (res: WarmupStep)
    ensures
        res == (if has_data(*slice) {
            WarmupStep::AdvanceFrontier
        } else {
            WarmupStep::Done
        }),
{
    if slice_has_algorithm_data(slice) || slice.option_chains.len() > 0 {
        WarmupStep::AdvanceFrontier
    } else {
        WarmupStep::Done
    }
}

/// The step after another. `failed` tells whether the algorithm raised an error
/// when it was given the data.
pub open spec fn warmup_step_after(step: WarmupStep, failed: bool) -> WarmupStep {
    match step {
        WarmupStep::AdvanceFrontier => WarmupStep::DeliverData,
        WarmupStep::DeliverData => if failed {
            WarmupStep::Failed
        } else {
            WarmupStep::AdvanceFramework
        },
        WarmupStep::AdvanceFramework => WarmupStep::EndTimeStep,
        WarmupStep::EndTimeStep => WarmupStep::Done,
        WarmupStep::Done => WarmupStep::Done,
        WarmupStep::Failed => WarmupStep::Failed,
    }
}

/// The step after another, given how the delivery of the data went. During a
/// warm-up no orders are filled and no universe is selected. An error ends it.
pub fn next_warmup_step(step: WarmupStep, delivery: &Result<(), String>) -> (res: WarmupStep)
    ensures
        res == warmup_step_after(step, delivery is Err),
{
    match step {
        WarmupStep::AdvanceFrontier => WarmupStep::DeliverData,
        WarmupStep::DeliverData => if delivery.is_err() {
            WarmupStep::Failed
        } else {
            WarmupStep::AdvanceFramework
        },
        WarmupStep::AdvanceFramework => WarmupStep::EndTimeStep,
        WarmupStep::EndTimeStep => WarmupStep::Done,
        WarmupStep::Done => WarmupStep::Done,
        WarmupStep::Failed => WarmupStep::Failed,
    }
}

// ---------------------------------------------------------------------------
// Slices
// ---------------------------------------------------------------------------

/// Steps of the processing of one backtest slice.
#[derive(Clone, Copy, Debug, PartialEq, Eq, Structural)]
pub enum BacktestStep {
    StartTradingDay,
    SelectUniverse,
    SyncChangedUniverse,
    AdvanceFrontier,
    SettleRestingOrders,
    DeliverData,
    SyncSubscriptions,
    FillNewOrders,
    RunFramework,
    SyncAfterFramework,
    FillFrameworkOrders,
    EndTimeStep,
    RecordResults,
    Done,
    /// The algorithm raised an error, and the run is over.
    Failed,
}

/// What the processing of a slice depends on.
#[derive(Clone, Copy, Debug, PartialEq, Eq, Structural)]
pub struct BacktestSlice {
    pub algorithm_data: bool,
    pub fill_data: bool,
    pub run_framework: bool,
    pub universe_changed: bool,
}

/// The step after another. `failed` tells whether the algorithm raised an error
/// when it was given the data.
pub open spec fn backtest_step_after(
    step: BacktestStep,
    slice: BacktestSlice,
    failed: bool,
) -> BacktestStep {
    match step {
        BacktestStep::StartTradingDay => BacktestStep::SelectUniverse,
        BacktestStep::SelectUniverse => if slice.universe_changed {
            BacktestStep::SyncChangedUniverse
        } else {
            BacktestStep::AdvanceFrontier
        },
        BacktestStep::SyncChangedUniverse => BacktestStep::AdvanceFrontier,
        BacktestStep::AdvanceFrontier => if slice.fill_data {
            BacktestStep::SettleRestingOrders
        } else {
            BacktestStep::DeliverData
        },
        BacktestStep::SettleRestingOrders => BacktestStep::DeliverData,
        BacktestStep::DeliverData => if failed {
            BacktestStep::Failed
        } else {
            BacktestStep::SyncSubscriptions
        },
        BacktestStep::SyncSubscriptions => if slice.fill_data {
            BacktestStep::FillNewOrders
        } else if slice.run_framework {
            BacktestStep::RunFramework
        } else {
            BacktestStep::EndTimeStep
        },
        BacktestStep::FillNewOrders => if slice.run_framework {
            BacktestStep::RunFramework
        } else {
            BacktestStep::EndTimeStep
        },
        BacktestStep::RunFramework => BacktestStep::SyncAfterFramework,
        BacktestStep::SyncAfterFramework => BacktestStep::FillFrameworkOrders,
        BacktestStep::FillFrameworkOrders => BacktestStep::EndTimeStep,
        BacktestStep::EndTimeStep => if slice.algorithm_data {
            BacktestStep::RecordResults
        } else {
            BacktestStep::Done
        },
        BacktestStep::RecordResults => BacktestStep::Done,
        BacktestStep::Done => BacktestStep::Done,
        BacktestStep::Failed => BacktestStep::Failed,
    }
}

/// The step after another, given how the delivery of the data went. Resting
/// orders are settled before the algorithm sees the data; orders are filled only
/// against market data. An error ends the run.
pub fn next_backtest_step(
    step: BacktestStep,
    slice: BacktestSlice,
    delivery: &Result<(), String>,
) -> (res: BacktestStep)
    ensures
        res == backtest_step_after(step, slice, delivery is Err),
{
    match step {
        BacktestStep::StartTradingDay => BacktestStep::SelectUniverse,
        BacktestStep::SelectUniverse => if slice.universe_changed {
            BacktestStep::SyncChangedUniverse
        } else {
            BacktestStep::AdvanceFrontier
        },
        BacktestStep::SyncChangedUniverse => BacktestStep::AdvanceFrontier,
        BacktestStep::AdvanceFrontier => if slice.fill_data {
            BacktestStep::SettleRestingOrders
        } else {
            BacktestStep::DeliverData
        },
        BacktestStep::SettleRestingOrders => BacktestStep::DeliverData,
        BacktestStep::DeliverData => if delivery.is_err() {
            BacktestStep::Failed
        } else {
            BacktestStep::SyncSubscriptions
        },
        BacktestStep::SyncSubscriptions => {
            if slice.fill_data {
                return BacktestStep::FillNewOrders;
            }
            framework_or_end(slice)
        },
        BacktestStep::FillNewOrders => framework_or_end(slice),
        BacktestStep::RunFramework => BacktestStep::SyncAfterFramework,
        BacktestStep::SyncAfterFramework => BacktestStep::FillFrameworkOrders,
        BacktestStep::FillFrameworkOrders => BacktestStep::EndTimeStep,
        BacktestStep::EndTimeStep => if slice.algorithm_data {
            BacktestStep::RecordResults
        } else {
            BacktestStep::Done
        },
        BacktestStep::RecordResults => BacktestStep::Done,
        BacktestStep::Done => BacktestStep::Done,
        BacktestStep::Failed => BacktestStep::Failed,
    }
}

fn framework_or_end(slice: BacktestSlice) -> (res: BacktestStep)
    ensures
        res == (if slice.run_framework {
            BacktestStep::RunFramework
        } else {
            BacktestStep::EndTimeStep
        }),
{
    if slice.run_framework {
        BacktestStep::RunFramework
    } else {
        BacktestStep::EndTimeStep
    }
}

/// Position of a step in the order of a slice.
pub open spec fn backtest_rank(step: BacktestStep) -> int {
    match step {
        BacktestStep::StartTradingDay => 0,
        BacktestStep::SelectUniverse => 1,
        BacktestStep::SyncChangedUniverse => 2,
        BacktestStep::AdvanceFrontier => 3,
        BacktestStep::SettleRestingOrders => 4,
        BacktestStep::DeliverData => 5,
        BacktestStep::SyncSubscriptions => 6,
        BacktestStep::FillNewOrders => 7,
        BacktestStep::RunFramework => 8,
        BacktestStep::SyncAfterFramework => 9,
        BacktestStep::FillFrameworkOrders => 10,
        BacktestStep::EndTimeStep => 11,
        BacktestStep::RecordResults => 12,
        BacktestStep::Done => 13,
        BacktestStep::Failed => 14,
    }
}

/// A slice goes through its steps in order, never back.
pub proof fn law_backtest_slice_goes_forward(
    step: BacktestStep,
    slice: BacktestSlice,
    failed: bool,
)
    requires
        step != BacktestStep::Done,
        step != BacktestStep::Failed,
    ensures
        backtest_rank(step) < backtest_rank(backtest_step_after(step, slice, failed)) <= 14,
{
}

/// Counts the slices of a backtest that carry data for the algorithm.
#[derive(Clone, Copy, Debug, PartialEq, Eq, Structural)]
pub struct BacktestLoop {
    pub had_warmup: bool,
    pub market_slices_after_warmup: usize,
}

impl BacktestLoop {
    pub fn new(had_warmup: bool) -> (res: BacktestLoop)
        ensures
            res == (BacktestLoop { had_warmup, market_slices_after_warmup: 0 }),
    {
        BacktestLoop { had_warmup, market_slices_after_warmup: 0 }
    }

    /// Takes a slice into account and decides how it is processed, and with
    /// which step. An empty slice is passed over. The framework sits out the
    /// first slice after a warm-up.
    pub fn begin_slice(&mut self, slice: &Slice) -> (res: Option<(BacktestStep, BacktestSlice)>)
        requires
            old(self).market_slices_after_warmup < usize::MAX,
        ensures
            final(self).had_warmup == old(self).had_warmup,
            final(self).market_slices_after_warmup == old(self).market_slices_after_warmup + (
            if has_algorithm_data(*slice) {
                1int
            } else {
                0int
            }),
            res == (if has_data(*slice) {
                Some(
                    (
                        if has_algorithm_data(*slice) {
                            BacktestStep::StartTradingDay
                        } else {
                            BacktestStep::AdvanceFrontier
                        },
                        BacktestSlice {
                            algorithm_data: has_algorithm_data(*slice),
                            fill_data: has_fill_data(*slice),
                            run_framework: has_algorithm_data(*slice) && !(old(self).had_warmup
                                && old(self).market_slices_after_warmup == 0),
                            universe_changed: false,
                        },
                    ),
                )
            } else {
                None
            }),
            slice_begun(*old(self), *slice, *final(self), res),
    {
        let algorithm_data = slice_has_algorithm_data(slice);
        if !algorithm_data && slice.option_chains.len() == 0 {
            return None;
        }
        let fill_data = slice_has_fill_data(slice);
        if algorithm_data {
            self.market_slices_after_warmup = self.market_slices_after_warmup + 1;
        }
        let run_framework = algorithm_data && !(self.had_warmup && self.market_slices_after_warmup
            == 1);
        let first = if algorithm_data {
            BacktestStep::StartTradingDay
        } else {
            BacktestStep::AdvanceFrontier
        };
        Some(
            (
                first,
                BacktestSlice { algorithm_data, fill_data, run_framework, universe_changed: false },
            ),
        )
    }
}

/// Records the results of a slice: the value of the portfolio, and the close of
/// the benchmark where the slice has a bar of it.
pub fn record_slice_results(
    handler: &mut ResultHandler,
    slice: &Slice,
    portfolio_value: Price,
    benchmark: Option<&SubscriptionDataConfig>,
)
    requires
        old(handler).wf(),
    ensures
        final(handler).wf(),
        final(handler).equity_curve.points@ == with_value(
            old(handler).equity_curve.points@,
            slice.time.ns,
            portfolio_value,
        ),
        final(handler).benchmark_curve.points@ == (match benchmark {
            Some(config) => match row_of(slice.bars@, config.symbol.sid) {
                Some(bar) => with_value(
                    old(handler).benchmark_curve.points@,
                    slice.time.ns,
                    bar.close,
                ),
                None => old(handler).benchmark_curve.points@,
            },
            None => old(handler).benchmark_curve.points@,
        }),
{
    handler.record_equity(slice.time, portfolio_value);
    if let Some(config) = benchmark {
        if let Some(bar) = slice.get_bar(config.symbol.sid) {
            handler.record_benchmark(slice.time, bar.close);
        }
    }
}

/// Whether a run goes on after the algorithm was given data: an error that it
/// raised ends the run.
pub fn after_delivery(runtime_error: Option<&str>, warming_up: bool) -> (res: Result<(), String>)
    ensures
        match runtime_error {
            Some(error) => res matches Err(message) && message@ == (if warming_up {
                "Algorithm runtime error during warm-up: "@
            } else {
                "Algorithm runtime error: "@
            }) + error@,
            None => res is Ok,
        },
{
    match runtime_error {
        Some(error) => if warming_up {
            Err("Algorithm runtime error during warm-up: ".to_owned().concat(error))
        } else {
            Err("Algorithm runtime error: ".to_owned().concat(error))
        },
        None => Ok(()),
    }
}

/// Phases of a backtest.
#[derive(Clone, Copy, Debug, PartialEq, Eq, Structural)]
pub enum RunPhase {
    PrepareDataDelivery,
    ReplayWarmup,
    FlushWarmup,
    FinishWarmup,
    Replay,
    FlushCaches,
    FinishAlgorithm,
    FinishStream,
    FinalizeResults,
    Done,
    /// A phase failed, and the run is over.
    Failed,
}

/// What the phases of a backtest depend on.
#[derive(Clone, Copy, Debug, PartialEq, Eq, Structural)]
pub struct RunOptions {
    /// Whether a window is replayed before the backtest.
    pub has_warmup_window: bool,
    /// Whether results are written while the backtest runs.
    pub streams_results: bool,
}

/// The phase after another that went well.
pub open spec fn phase_after(phase: RunPhase, options: RunOptions) -> RunPhase {
    match phase {
        RunPhase::PrepareDataDelivery => if options.has_warmup_window {
            RunPhase::ReplayWarmup
        } else {
            RunPhase::FinishWarmup
        },
        RunPhase::ReplayWarmup => RunPhase::FlushWarmup,
        RunPhase::FlushWarmup => RunPhase::FinishWarmup,
        RunPhase::FinishWarmup => RunPhase::Replay,
        RunPhase::Replay => RunPhase::FlushCaches,
        RunPhase::FlushCaches => RunPhase::FinishAlgorithm,
        RunPhase::FinishAlgorithm => if options.streams_results {
            RunPhase::FinishStream
        } else {
            RunPhase::FinalizeResults
        },
        RunPhase::FinishStream => RunPhase::FinalizeResults,
        RunPhase::FinalizeResults => RunPhase::Done,
        RunPhase::Done => RunPhase::Done,
        RunPhase::Failed => RunPhase::Failed,
    }
}

/// The phase after another; one that failed is the last.
pub open spec fn phase_after_outcome(
    phase: RunPhase,
    options: RunOptions,
    failed: bool,
) -> RunPhase {
    if failed {
        RunPhase::Failed
    } else {
        phase_after(phase, options)
    }
}

/// The phase after another, given how that one went. The algorithm is told that
/// its warm-up is over in any case, and what was held back from the store is
/// written before it ends. An error ends the run at once.
pub fn next_run_phase(
    phase: RunPhase,
    options: RunOptions,
    outcome: &Result<(), String>,
) -> (res: RunPhase)
    ensures
        res == phase_after_outcome(phase, options, outcome is Err),
{
    if outcome.is_err() {
        return RunPhase::Failed;
    }
    match phase {
        RunPhase::PrepareDataDelivery => if options.has_warmup_window {
            RunPhase::ReplayWarmup
        } else {
            RunPhase::FinishWarmup
        },
        RunPhase::ReplayWarmup => RunPhase::FlushWarmup,
        RunPhase::FlushWarmup => RunPhase::FinishWarmup,
        RunPhase::FinishWarmup => RunPhase::Replay,
        RunPhase::Replay => RunPhase::FlushCaches,
        RunPhase::FlushCaches => RunPhase::FinishAlgorithm,
        RunPhase::FinishAlgorithm => if options.streams_results {
            RunPhase::FinishStream
        } else {
            RunPhase::FinalizeResults
        },
        RunPhase::FinishStream => RunPhase::FinalizeResults,
        RunPhase::FinalizeResults => RunPhase::Done,
        RunPhase::Done => RunPhase::Done,
        RunPhase::Failed => RunPhase::Failed,
    }
}

/// The phase after a number of transitions.
pub open spec fn nth_phase(phase: RunPhase, options: RunOptions, n: nat) -> RunPhase
    decreases n,
{
    if n == 0 {
        phase
    } else {
        phase_after(nth_phase(phase, options, (n - 1) as nat), options)
    }
}

/// Position of a phase in the order of a backtest.
pub open spec fn phase_rank(phase: RunPhase) -> int {
    match phase {
        RunPhase::PrepareDataDelivery => 0,
        RunPhase::ReplayWarmup => 1,
        RunPhase::FlushWarmup => 2,
        RunPhase::FinishWarmup => 3,
        RunPhase::Replay => 4,
        RunPhase::FlushCaches => 5,
        RunPhase::FinishAlgorithm => 6,
        RunPhase::FinishStream => 7,
        RunPhase::FinalizeResults => 8,
        RunPhase::Done => 9,
        RunPhase::Failed => 10,
    }
}

/// A backtest goes through its phases in order, never back.
pub proof fn law_backtest_goes_forward(phase: RunPhase, options: RunOptions)
    requires
        phase != RunPhase::Done,
        phase != RunPhase::Failed,
    ensures
        phase_rank(phase) < phase_rank(phase_after(phase, options)) <= 9,
{
}

/// The steps of a slice, one after the other. `failed` tells how the delivery of
/// its data went.
pub open spec fn slice_steps(
    steps: Seq<BacktestStep>,
    slices: Seq<BacktestSlice>,
    failed: bool,
) -> bool {
    &&& slices.len() == steps.len()
    &&& forall|i: int|
        0 <= i < steps.len() - 1 ==> steps[i + 1] == backtest_step_after(
            steps[i],
            #[trigger] slices[i],
            failed,
        )
}

/// A slice whose delivery fails ends there: whatever is known of the slice by
/// then, no step after the delivery gives the algorithm data, fills orders, runs
/// the framework or records results.
pub proof fn law_failed_delivery_ends_the_slice(
    steps: Seq<BacktestStep>,
    slices: Seq<BacktestSlice>,
    i: int,
    j: int,
)
    requires
        slice_steps(steps, slices, true),
        0 <= i < j < steps.len(),
        steps[i] == BacktestStep::DeliverData,
    ensures
        steps[j] == BacktestStep::Failed,
    decreases j,
{
    assert(steps[j - 1 + 1] == backtest_step_after(steps[j - 1], slices[j - 1], true));
    if j > i + 1 {
        law_failed_delivery_ends_the_slice(steps, slices, i, j - 1);
    }
}

/// Whether a step of a warm-up slice whose delivery fails leads to the next one.
pub open spec fn failed_warmup_step(steps: Seq<WarmupStep>, k: int) -> bool {
    steps[k + 1] == warmup_step_after(steps[k], true)
}

/// The same of a slice of the warm-up.
pub proof fn law_failed_delivery_ends_the_warmup(steps: Seq<WarmupStep>, i: int, j: int)
    requires
        forall|k: int| 0 <= k < steps.len() - 1 ==> #[trigger] failed_warmup_step(steps, k),
        0 <= i < j < steps.len(),
        steps[i] == WarmupStep::DeliverData,
    ensures
        steps[j] == WarmupStep::Failed,
    decreases j,
{
    assert(failed_warmup_step(steps, j - 1));
    if j > i + 1 {
        law_failed_delivery_ends_the_warmup(steps, i, j - 1);
    }
}

/// A backtest that fails stops: after a phase that failed there is no other, so
/// nothing is replayed, nothing is written to the store, the algorithm is not
/// finished and no results are made. `failed[i]` tells whether phase `i` failed.
pub proof fn law_failed_backtest_stops(
    phases: Seq<RunPhase>,
    failed: Seq<bool>,
    options: RunOptions,
    i: int,
    j: int,
)
    requires
        failed.len() == phases.len(),
        forall|k: int|
            0 <= k < phases.len() - 1 ==> phases[k + 1] == phase_after_outcome(
                phases[k],
                options,
                #[trigger] failed[k],
            ),
        0 <= i < j < phases.len(),
        failed[i],
    ensures
        phases[j] == RunPhase::Failed,
    decreases j,
{
    assert(phases[j - 1 + 1] == phase_after_outcome(phases[j - 1], options, failed[j - 1]));
    if j > i + 1 {
        law_failed_backtest_stops(phases, failed, options, i, j - 1);
    }
}

/// A backtest finishes its warm-up right before it replays its slices, writes
/// its caches right after, and comes to an end.
pub proof fn law_backtest_completes(options: RunOptions)
    ensures
        ({
            let first = RunPhase::PrepareDataDelivery;
            let n: nat = if options.has_warmup_window {
                3
            } else {
                1
            };
            &&& nth_phase(first, options, n) == RunPhase::FinishWarmup
            &&& nth_phase(first, options, n + 1) == RunPhase::Replay
            &&& nth_phase(first, options, n + 2) == RunPhase::FlushCaches
            &&& nth_phase(first, options, 9) == RunPhase::Done
        }),
{
    let first = RunPhase::PrepareDataDelivery;
    assert(nth_phase(first, options, 0) == first);
    lemma_next_phase(first, options, 0);
    lemma_next_phase(first, options, 1);
    lemma_next_phase(first, options, 2);
    lemma_next_phase(first, options, 3);
    lemma_next_phase(first, options, 4);
    lemma_next_phase(first, options, 5);
    lemma_next_phase(first, options, 6);
    lemma_next_phase(first, options, 7);
    lemma_next_phase(first, options, 8);
}

proof fn lemma_next_phase(phase: RunPhase, options: RunOptions, n: nat)
    ensures
        nth_phase(phase, options, n + 1) == phase_after(nth_phase(phase, options, n), options),
{
}

/// Rows that were streamed already.
#[derive(Clone, Copy, Debug, PartialEq, Eq, Structural)]
pub struct StreamCursor {
    pub streamed: usize,
}

impl StreamCursor {
    /// The rows to stream now, as a range, once `len` rows are there. Each row is
    /// streamed once.
    pub fn advance(&mut self, len: usize) -> (res: Option<(usize, usize)>)
        ensures
            res == (if len > old(self).streamed {
                Some((old(self).streamed, len))
            } else {
                None
            }),
            final(self).streamed == (if len > old(self).streamed {
                len
            } else {
                old(self).streamed
            }),
            advanced(old(self).streamed, len, final(self).streamed, res),
    {
        if len > self.streamed {
            let from: usize = self.streamed;
            self.streamed = len;
            Some((from, len))
        } else {
            None
        }
    }
}

/// Number of distinct days among some instants.
pub open spec fn distinct_days(times: Seq<i64>) -> Set<int> {
    times.map_values(|ns: i64| day_of(ns as int)).to_set()
}

/// Trading days of a result: those counted by the algorithm, but no fewer than
/// the distinct days of the equity curve.
pub fn result_trading_days(trading_days: i64, equity_times: &Vec<i64>) -> (res: i64)
    requires
        equity_times@.len() <= i64::MAX,
    ensures
        res == (if trading_days >= distinct_days(equity_times@).len() {
            trading_days as int
        } else {
            distinct_days(equity_times@).len() as int
        }),
{
    let mut days: Vec<i32> = Vec::new();
    let mut i: usize = 0;
    let ghost f = |ns: i64| day_of(ns as int);
    let ghost all = equity_times@.map_values(f);
    let ghost as_int = |d: i32| d as int;
    assert(days@.map_values(as_int).to_set() =~= all.take(0).to_set());
    while i < equity_times.len()
        invariant
            i <= equity_times@.len(),
            days@.len() <= i,
            f == |ns: i64| day_of(ns as int),
            as_int == |d: i32| d as int,
            all == equity_times@.map_values(f),
            days@.map_values(as_int).no_duplicates(),
            days@.map_values(as_int).to_set() == all.take(i as int).to_set(),
        decreases equity_times.len() - i,
    {
        let day: i32 = DateTime { ns: equity_times[i] }.date_utc().days;
        let ghost before = days@.map_values(as_int);
        let ghost head = all.take(i as int);
        proof {
            assert(all[i as int] == day);
            assert(all.take(i + 1) =~= head.push(day as int));
            lemma_push_contains(head, day as int);
            lemma_push_contains(before, day as int);
            assert forall|x: int| before.contains(x) <==> head.contains(x) by {
                assert(before.to_set().contains(x) <==> head.to_set().contains(x));
            }
        }
        let known = has_day(&days, day);
        proof {
            if days@.contains(day) {
                let k = choose|k: int| 0 <= k < days@.len() && days@[k] == day;
                assert(before[k] == day);
            }
            if before.contains(day as int) {
                let k = choose|k: int| 0 <= k < before.len() && before[k] == day;
                assert(days@[k] == day);
            }
        }
        if !known {
            days.push(day);
            assert(days@.map_values(as_int) =~= before.push(day as int));
        }
        assert(days@.map_values(as_int).to_set() =~= all.take(i + 1).to_set());
        i = i + 1;
    }
    assert(all.take(i as int) =~= all);
    proof {
        days@.map_values(as_int).unique_seq_to_set();
    }
    let observed: i64 = days.len() as i64;
    if trading_days >= observed {
        trading_days
    } else {
        observed
    }
}

/// Result of a backtest, in exact numbers.
pub struct BacktestReport {
    pub trading_days: i64,
    pub final_value: Price,
    pub starting_cash: Price,
    pub start_date: Date,
    pub end_date: Date,
    pub equity_curve: Vec<Price>,
    pub daily_dates: Vec<String>,
    pub benchmark_curve: Vec<Price>,
    pub benchmark_dates: Vec<String>,
}

/// Puts the result of a backtest together. Its final value is the last one of the
/// equity curve, or the starting cash where nothing was recorded.
pub fn build_backtest_result(
    handler: &ResultHandler,
    trading_days: i64,
    starting_cash: Price,
    start_date: Date,
    end_date: Date,
) -> (res: BacktestReport)
    requires
        handler.equity_curve.points@.len() <= i64::MAX,
    ensures
        ({
            let equity = handler.equity_curve.points@;
            let benchmark = handler.benchmark_curve.points@;
            let value = |point: (i64, Price)| point.1;
            let date = |point: (i64, Price)| date_text(day_of(point.0 as int));
            let observed = distinct_days(equity.map_values(|point: (i64, Price)| point.0)).len();
            &&& res.equity_curve@ == equity.map_values(value)
            &&& texts(res.daily_dates@) == equity.map_values(date)
            &&& res.benchmark_curve@ == benchmark.map_values(value)
            &&& texts(res.benchmark_dates@) == benchmark.map_values(date)
            &&& res.final_value == if equity.len() > 0 {
                equity.last().1
            } else {
                starting_cash
            }
            &&& res.trading_days == if trading_days >= observed {
                trading_days as int
            } else {
                observed as int
            }
            &&& res.starting_cash == starting_cash
            &&& res.start_date == start_date
            &&& res.end_date == end_date
        }),
{
    let equity_curve = handler.equity_curve.values();
    let final_value = if equity_curve.len() > 0 {
        equity_curve[equity_curve.len() - 1]
    } else {
        starting_cash
    };
    let equity_times = handler.equity_curve.times();
    BacktestReport {
        trading_days: result_trading_days(trading_days, &equity_times),
        final_value,
        starting_cash,
        start_date,
        end_date,
        equity_curve,
        daily_dates: handler.equity_curve.dates(),
        benchmark_curve: handler.benchmark_curve.values(),
        benchmark_dates: handler.benchmark_curve.dates(),
    }
}

fn has_day(days: &Vec<i32>, day: i32) -> (res: bool)
    ensures
        res == days@.contains(day),
{
    let mut i: usize = 0;
    while i < days.len()
        invariant
            i <= days@.len(),
            forall|j: int| 0 <= j < i ==> days@[j] != day,
        decreases days.len() - i,
    {
        if days[i] == day {
            return true;
        }
        i = i + 1;
    }
    false
}

/// The step of a slice reached after a number of steps, where the delivery goes well.
pub open spec fn backtest_step_at(slice: BacktestSlice, n: nat) -> BacktestStep
    decreases n,
{
    if n == 0 {
        if slice.algorithm_data {
            BacktestStep::StartTradingDay
        } else {
            BacktestStep::AdvanceFrontier
        }
    } else {
        backtest_step_after(backtest_step_at(slice, (n - 1) as nat), slice, false)
    }
}

/// Whether a step has a place in the order, under the given conditions.
spec fn backtest_step_fits(step: BacktestStep, slice: BacktestSlice) -> bool {
    match step {
        BacktestStep::StartTradingDay => slice.algorithm_data,
        BacktestStep::SelectUniverse => slice.algorithm_data,
        BacktestStep::SyncChangedUniverse => slice.algorithm_data && slice.universe_changed,
        BacktestStep::AdvanceFrontier => true,
        BacktestStep::SettleRestingOrders => slice.fill_data,
        BacktestStep::DeliverData => true,
        BacktestStep::SyncSubscriptions => true,
        BacktestStep::FillNewOrders => slice.fill_data,
        BacktestStep::RunFramework => slice.run_framework,
        BacktestStep::SyncAfterFramework => slice.run_framework,
        BacktestStep::FillFrameworkOrders => slice.run_framework,
        BacktestStep::EndTimeStep => true,
        BacktestStep::RecordResults => slice.algorithm_data,
        BacktestStep::Done => true,
        BacktestStep::Failed => false,
    }
}

proof fn lemma_backtest_step_fits(slice: BacktestSlice, n: nat)
    ensures
        backtest_step_fits(backtest_step_at(slice, n), slice),
        backtest_step_at(slice, n + 1) == backtest_step_after(
            backtest_step_at(slice, n),
            slice,
            false,
        ),
    decreases n,
{
    if n > 0 {
        lemma_backtest_step_fits(slice, (n - 1) as nat);
    }
}

/// A slice takes every step that its data call for, and no other: its data are
/// delivered in any case, orders are settled and filled only against market data, a
/// universe is selected and results are recorded only where there are data for the
/// algorithm, and the framework runs where it is to.
pub proof fn law_backtest_slice_takes_every_step(slice: BacktestSlice)
    ensures
        (exists|n: nat| #[trigger] backtest_step_at(slice, n) == BacktestStep::StartTradingDay) <==> (slice.algorithm_data),
        (exists|n: nat| #[trigger] backtest_step_at(slice, n) == BacktestStep::SelectUniverse) <==> (slice.algorithm_data),
        (exists|n: nat| #[trigger] backtest_step_at(slice, n) == BacktestStep::SyncChangedUniverse) <==> (slice.algorithm_data && slice.universe_changed),
        exists|n: nat| #[trigger] backtest_step_at(slice, n) == BacktestStep::AdvanceFrontier,
        (exists|n: nat| #[trigger] backtest_step_at(slice, n) == BacktestStep::SettleRestingOrders) <==> (slice.fill_data),
        exists|n: nat| #[trigger] backtest_step_at(slice, n) == BacktestStep::DeliverData,
        exists|n: nat| #[trigger] backtest_step_at(slice, n) == BacktestStep::SyncSubscriptions,
        (exists|n: nat| #[trigger] backtest_step_at(slice, n) == BacktestStep::FillNewOrders) <==> (slice.fill_data),
        (exists|n: nat| #[trigger] backtest_step_at(slice, n) == BacktestStep::RunFramework) <==> (slice.run_framework),
        (exists|n: nat| #[trigger] backtest_step_at(slice, n) == BacktestStep::SyncAfterFramework) <==> (slice.run_framework),
        (exists|n: nat| #[trigger] backtest_step_at(slice, n) == BacktestStep::FillFrameworkOrders) <==> (slice.run_framework),
        exists|n: nat| #[trigger] backtest_step_at(slice, n) == BacktestStep::EndTimeStep,
        (exists|n: nat| #[trigger] backtest_step_at(slice, n) == BacktestStep::RecordResults) <==> (slice.algorithm_data),
        exists|n: nat| #[trigger] backtest_step_at(slice, n) == BacktestStep::Done,
{
    let first: nat = if slice.algorithm_data {
        if slice.universe_changed {
            3
        } else {
            2
        }
    } else {
        0
    };
    assert(backtest_step_at(slice, 0) == if slice.algorithm_data {
        BacktestStep::StartTradingDay
    } else {
        BacktestStep::AdvanceFrontier
    });
    lemma_backtest_step_fits(slice, 0);
    lemma_backtest_step_fits(slice, 1);
    lemma_backtest_step_fits(slice, 2);
    if slice.algorithm_data {
        assert(backtest_step_at(slice, 1) == BacktestStep::SelectUniverse);
        assert(slice.universe_changed ==> backtest_step_at(slice, 2)
            == BacktestStep::SyncChangedUniverse);
    }
    let at0 = first;
    assert(backtest_step_at(slice, at0) == BacktestStep::AdvanceFrontier);
    lemma_backtest_step_fits(slice, at0);
    let at1: nat = if slice.fill_data {
        at0 + 1
    } else {
        at0
    };
    assert(slice.fill_data ==> backtest_step_at(slice, at1) == BacktestStep::SettleRestingOrders);
    lemma_backtest_step_fits(slice, at1);
    let at2: nat = at1 + 1;
    assert(backtest_step_at(slice, at2) == BacktestStep::DeliverData);
    lemma_backtest_step_fits(slice, at2);
    let at3: nat = at2 + 1;
    assert(backtest_step_at(slice, at3) == BacktestStep::SyncSubscriptions);
    lemma_backtest_step_fits(slice, at3);
    let at4: nat = if slice.fill_data {
        at3 + 1
    } else {
        at3
    };
    assert(slice.fill_data ==> backtest_step_at(slice, at4) == BacktestStep::FillNewOrders);
    lemma_backtest_step_fits(slice, at4);
    let at5: nat = if slice.run_framework {
        at4 + 1
    } else {
        at4
    };
    assert(slice.run_framework ==> backtest_step_at(slice, at5) == BacktestStep::RunFramework);
    lemma_backtest_step_fits(slice, at5);
    let at6: nat = if slice.run_framework {
        at5 + 1
    } else {
        at5
    };
    assert(slice.run_framework ==> backtest_step_at(slice, at6) == BacktestStep::SyncAfterFramework);
    lemma_backtest_step_fits(slice, at6);
    let at7: nat = if slice.run_framework {
        at6 + 1
    } else {
        at6
    };
    assert(slice.run_framework ==> backtest_step_at(slice, at7) == BacktestStep::FillFrameworkOrders);
    lemma_backtest_step_fits(slice, at7);
    let at8: nat = at7 + 1;
    assert(backtest_step_at(slice, at8) == BacktestStep::EndTimeStep);
    lemma_backtest_step_fits(slice, at8);
    let at9: nat = if slice.algorithm_data {
        at8 + 1
    } else {
        at8
    };
    assert(slice.algorithm_data ==> backtest_step_at(slice, at9) == BacktestStep::RecordResults);
    lemma_backtest_step_fits(slice, at9);
    let at10: nat = at9 + 1;
    assert(backtest_step_at(slice, at10) == BacktestStep::Done);
    if exists|n: nat| #[trigger] backtest_step_at(slice, n) == BacktestStep::StartTradingDay {
        let n = choose|n: nat| #[trigger] backtest_step_at(slice, n) == BacktestStep::StartTradingDay;
        lemma_backtest_step_fits(slice, n);
    }
    if exists|n: nat| #[trigger] backtest_step_at(slice, n) == BacktestStep::SelectUniverse {
        let n = choose|n: nat| #[trigger] backtest_step_at(slice, n) == BacktestStep::SelectUniverse;
        lemma_backtest_step_fits(slice, n);
    }
    if exists|n: nat| #[trigger] backtest_step_at(slice, n) == BacktestStep::SyncChangedUniverse {
        let n = choose|n: nat| #[trigger] backtest_step_at(slice, n) == BacktestStep::SyncChangedUniverse;
        lemma_backtest_step_fits(slice, n);
    }
    if exists|n: nat| #[trigger] backtest_step_at(slice, n) == BacktestStep::SettleRestingOrders {
        let n = choose|n: nat| #[trigger] backtest_step_at(slice, n) == BacktestStep::SettleRestingOrders;
        lemma_backtest_step_fits(slice, n);
    }
    if exists|n: nat| #[trigger] backtest_step_at(slice, n) == BacktestStep::FillNewOrders {
        let n = choose|n: nat| #[trigger] backtest_step_at(slice, n) == BacktestStep::FillNewOrders;
        lemma_backtest_step_fits(slice, n);
    }
    if exists|n: nat| #[trigger] backtest_step_at(slice, n) == BacktestStep::RunFramework {
        let n = choose|n: nat| #[trigger] backtest_step_at(slice, n) == BacktestStep::RunFramework;
        lemma_backtest_step_fits(slice, n);
    }
    if exists|n: nat| #[trigger] backtest_step_at(slice, n) == BacktestStep::SyncAfterFramework {
        let n = choose|n: nat| #[trigger] backtest_step_at(slice, n) == BacktestStep::SyncAfterFramework;
        lemma_backtest_step_fits(slice, n);
    }
    if exists|n: nat| #[trigger] backtest_step_at(slice, n) == BacktestStep::FillFrameworkOrders {
        let n = choose|n: nat| #[trigger] backtest_step_at(slice, n) == BacktestStep::FillFrameworkOrders;
        lemma_backtest_step_fits(slice, n);
    }
    if exists|n: nat| #[trigger] backtest_step_at(slice, n) == BacktestStep::RecordResults {
        let n = choose|n: nat| #[trigger] backtest_step_at(slice, n) == BacktestStep::RecordResults;
        lemma_backtest_step_fits(slice, n);
    }
}

/// The phase of a backtest reached after a number of phases that went well.
pub open spec fn phase_at(options: RunOptions, n: nat) -> RunPhase
    decreases n,
{
    if n == 0 {
        RunPhase::PrepareDataDelivery
    } else {
        phase_after(phase_at(options, (n - 1) as nat), options)
    }
}

/// Whether a step has a place in the order, under the given conditions.
spec fn phase_fits(step: RunPhase, options: RunOptions) -> bool {
    match step {
        RunPhase::PrepareDataDelivery => true,
        RunPhase::ReplayWarmup => options.has_warmup_window,
        RunPhase::FlushWarmup => options.has_warmup_window,
        RunPhase::FinishWarmup => true,
        RunPhase::Replay => true,
        RunPhase::FlushCaches => true,
        RunPhase::FinishAlgorithm => true,
        RunPhase::FinishStream => options.streams_results,
        RunPhase::FinalizeResults => true,
        RunPhase::Done => true,
        RunPhase::Failed => false,
    }
}

proof fn lemma_phase_fits(options: RunOptions, n: nat)
    ensures
        phase_fits(phase_at(options, n), options),
        phase_at(options, n + 1) == phase_after(phase_at(options, n), options),
    decreases n,
{
    if n > 0 {
        lemma_phase_fits(options, (n - 1) as nat);
    }
}

/// A backtest takes every phase that its options call for, and no other. The algorithm
/// is told that its warm-up is over and is finished in any case, the caches are written
/// and results are made; a warm-up is replayed and written where there is one.
pub proof fn law_backtest_takes_every_phase(options: RunOptions)
    ensures
        exists|n: nat| #[trigger] phase_at(options, n) == RunPhase::PrepareDataDelivery,
        (exists|n: nat| #[trigger] phase_at(options, n) == RunPhase::ReplayWarmup) <==> (options.has_warmup_window),
        (exists|n: nat| #[trigger] phase_at(options, n) == RunPhase::FlushWarmup) <==> (options.has_warmup_window),
        exists|n: nat| #[trigger] phase_at(options, n) == RunPhase::FinishWarmup,
        exists|n: nat| #[trigger] phase_at(options, n) == RunPhase::Replay,
        exists|n: nat| #[trigger] phase_at(options, n) == RunPhase::FlushCaches,
        exists|n: nat| #[trigger] phase_at(options, n) == RunPhase::FinishAlgorithm,
        (exists|n: nat| #[trigger] phase_at(options, n) == RunPhase::FinishStream) <==> (options.streams_results),
        exists|n: nat| #[trigger] phase_at(options, n) == RunPhase::FinalizeResults,
        exists|n: nat| #[trigger] phase_at(options, n) == RunPhase::Done,
{
    let at0: nat = 0;
    assert(phase_at(options, at0) == RunPhase::PrepareDataDelivery);
    lemma_phase_fits(options, at0);
    let at1: nat = if options.has_warmup_window {
        at0 + 1
    } else {
        at0
    };
    assert(options.has_warmup_window ==> phase_at(options, at1) == RunPhase::ReplayWarmup);
    lemma_phase_fits(options, at1);
    let at2: nat = if options.has_warmup_window {
        at1 + 1
    } else {
        at1
    };
    assert(options.has_warmup_window ==> phase_at(options, at2) == RunPhase::FlushWarmup);
    lemma_phase_fits(options, at2);
    let at3: nat = at2 + 1;
    assert(phase_at(options, at3) == RunPhase::FinishWarmup);
    lemma_phase_fits(options, at3);
    let at4: nat = at3 + 1;
    assert(phase_at(options, at4) == RunPhase::Replay);
    lemma_phase_fits(options, at4);
    let at5: nat = at4 + 1;
    assert(phase_at(options, at5) == RunPhase::FlushCaches);
    lemma_phase_fits(options, at5);
    let at6: nat = at5 + 1;
    assert(phase_at(options, at6) == RunPhase::FinishAlgorithm);
    lemma_phase_fits(options, at6);
    let at7: nat = if options.streams_results {
        at6 + 1
    } else {
        at6
    };
    assert(options.streams_results ==> phase_at(options, at7) == RunPhase::FinishStream);
    lemma_phase_fits(options, at7);
    let at8: nat = at7 + 1;
    assert(phase_at(options, at8) == RunPhase::FinalizeResults);
    lemma_phase_fits(options, at8);
    let at9: nat = at8 + 1;
    assert(phase_at(options, at9) == RunPhase::Done);
    if exists|n: nat| #[trigger] phase_at(options, n) == RunPhase::ReplayWarmup {
        let n = choose|n: nat| #[trigger] phase_at(options, n) == RunPhase::ReplayWarmup;
        lemma_phase_fits(options, n);
    }
    if exists|n: nat| #[trigger] phase_at(options, n) == RunPhase::FlushWarmup {
        let n = choose|n: nat| #[trigger] phase_at(options, n) == RunPhase::FlushWarmup;
        lemma_phase_fits(options, n);
    }
    if exists|n: nat| #[trigger] phase_at(options, n) == RunPhase::FinishStream {
        let n = choose|n: nat| #[trigger] phase_at(options, n) == RunPhase::FinishStream;
        lemma_phase_fits(options, n);
    }
}

/// A warm-up slice moves the frontier, delivers its data, lets the framework follow and
/// ends its time step, in this order.
pub proof fn law_warmup_takes_every_step()
    ensures
        warmup_step_after(WarmupStep::AdvanceFrontier, false) == WarmupStep::DeliverData,
        warmup_step_after(WarmupStep::DeliverData, false) == WarmupStep::AdvanceFramework,
        warmup_step_after(WarmupStep::AdvanceFramework, false) == WarmupStep::EndTimeStep,
        warmup_step_after(WarmupStep::EndTimeStep, false) == WarmupStep::Done,
        warmup_step_after(WarmupStep::Done, false) == WarmupStep::Done,
{
}

/// Dates that are given come before those of the algorithm. Without either an end is
/// the last day of the algorithm, or the engine's date where the algorithm has none.
pub proof fn law_given_dates_come_first(
    start: Option<Date>,
    end: Option<Date>,
    algorithm_start: DateTime,
    algorithm_end: DateTime,
    engine_date: Date,
)
    ensures
        ({
            let (first, last) = wanted_dates(
                start,
                end,
                algorithm_start,
                algorithm_end,
                engine_date,
            );
            &&& start matches Some(date) ==> first == date
            &&& start is None ==> first.days == algorithm_start.day()
            &&& end matches Some(date) ==> last == date
            &&& end is None && algorithm_end.ns == i64::MAX ==> last == engine_date
            &&& end is None && algorithm_end.ns != i64::MAX ==> last.days == algorithm_end.day()
        }),
{
    algorithm_start.lemma_day();
    algorithm_end.lemma_day();
}

/// A slice holds something if any part of it does; option chains alone are no data for
/// the algorithm, and custom rows alone are nothing to fill orders against.
pub proof fn law_what_a_slice_holds(slice: Slice)
    ensures
        has_data(slice) <==> slice.bars@.len() > 0 || slice.quote_bars@.len() > 0
            || slice.ticks@.len() > 0 || slice.custom@.len() > 0 || slice.option_chains@.len() > 0
            || slice.has_order_books || slice.has_perpetual_contexts,
        slice.option_chains@.len() > 0 && slice.bars@.len() == 0 && slice.quote_bars@.len() == 0
            && slice.ticks@.len() == 0 && slice.custom@.len() == 0 && !slice.has_order_books
            && !slice.has_perpetual_contexts ==> !has_algorithm_data(slice),
        slice.custom@.len() > 0 ==> has_algorithm_data(slice),
        slice.bars@.len() > 0 || slice.quote_bars@.len() > 0 || slice.ticks@.len() > 0
            || slice.has_order_books || slice.has_perpetual_contexts ==> has_fill_data(slice)
            && has_algorithm_data(slice),
        slice.bars@.len() == 0 && slice.quote_bars@.len() == 0 && slice.ticks@.len() == 0
            && !slice.has_order_books && !slice.has_perpetual_contexts ==> !has_fill_data(slice),
{
}

/// A warm-up starts with the earliest start that any subscription of the algorithm
/// asks for; internal ones ask for none.
pub proof fn law_warmup_starts_with_the_earliest(
    configs: Seq<SubscriptionDataConfig>,
    starts: Seq<Date>,
    k: int,
)
    requires
        starts.len() == configs.len(),
    ensures
        0 <= k < configs.len() && !configs[k].is_internal_feed ==> (earliest_start(configs, starts)
            matches Some(date) && date.days <= starts[k].days),
        earliest_start(configs, starts) matches Some(date) ==> exists|i: int|
            0 <= i < configs.len() && !(#[trigger] configs[i]).is_internal_feed && starts[i] == date,
    decreases configs.len(),
{
    if configs.len() > 0 {
        let head = configs.drop_last();
        let dates = starts.drop_last();
        law_warmup_starts_with_the_earliest(head, dates, k);
        assert(configs[configs.len() - 1] == configs.last());
        assert(starts[starts.len() - 1] == starts.last());
        if k < head.len() && 0 <= k {
            assert(head[k] == configs[k] && dates[k] == starts[k]);
        }
        if let Some(date) = earliest_start(head, dates) {
            let i = choose|i: int|
                0 <= i < head.len() && !(#[trigger] head[i]).is_internal_feed && dates[i] == date;
            assert(configs[i] == head[i] && starts[i] == dates[i]);
        }
    }
}

/// A warm-up of bars starts with its first day, a warm-up of a span that long before
/// the backtest.
pub proof fn law_warmup_reaches_back(date: Date, span: i64, start: DateTime)
    requires
        date.on_clock(),
    ensures
        warmup_start(WarmupLength::Bars(Some(date)), start) matches Some(ns) && day_of(ns)
            == date.days && crate::time::time_of_day(ns) == 0,
        warmup_start(WarmupLength::Span(Some(span)), start) matches Some(ns) && ns + span
            == start.ns,
        warmup_start(WarmupLength::Bars(None), start) is None,
        warmup_start(WarmupLength::Span(None), start) is None,
{
    crate::time::law_clock_reads_back(date.days as int, 0);
}

/// Days are counted once, however many instants fall on them.
pub proof fn law_days_are_counted_once(times: Seq<i64>, time: i64)
    ensures
        distinct_days(times.push(time)) == distinct_days(times).insert(day_of(time as int)),
        distinct_days(Seq::<i64>::empty()) == Set::<int>::empty(),
        forall|i: int|
            0 <= i < times.len() ==> distinct_days(times).contains(
                day_of(#[trigger] times[i] as int),
            ),
{
    let f = |ns: i64| day_of(ns as int);
    let days = times.map_values(f);
    let all = times.push(time).map_values(f);
    assert(all =~= days.push(day_of(time as int)));
    assert forall|d: int| all.contains(d) <==> days.contains(d) || d == day_of(time as int) by {
        lemma_push_contains(days, day_of(time as int));
    }
    assert(distinct_days(times.push(time)) =~= distinct_days(times).insert(day_of(time as int)));
    assert(Seq::<i64>::empty().map_values(f) =~= Seq::<int>::empty());
    assert(distinct_days(Seq::<i64>::empty()) =~= Set::<int>::empty());
    assert forall|i: int| 0 <= i < times.len() implies distinct_days(times).contains(
        day_of(#[trigger] times[i] as int),
    ) by {
        assert(days[i] == day_of(times[i] as int));
    }
}

/// How a slice is taken up.
pub open spec fn slice_begun(
    before: BacktestLoop,
    slice: Slice,
    after: BacktestLoop,
    taken: Option<(BacktestStep, BacktestSlice)>,
) -> bool {
    &&& after.had_warmup == before.had_warmup
    &&& after.market_slices_after_warmup == before.market_slices_after_warmup + (
    if has_algorithm_data(slice) {
        1int
    } else {
        0int
    })
    &&& taken is Some <==> has_data(slice)
    &&& taken matches Some((step, context)) ==> {
        &&& step == (if has_algorithm_data(slice) {
            BacktestStep::StartTradingDay
        } else {
            BacktestStep::AdvanceFrontier
        })
        &&& context.algorithm_data == has_algorithm_data(slice)
        &&& context.fill_data == has_fill_data(slice)
        &&& context.run_framework == (has_algorithm_data(slice) && !(before.had_warmup
            && before.market_slices_after_warmup == 0))
        &&& !context.universe_changed
    }
}

/// The framework runs on every slice with data for the algorithm, but for the first one
/// after a warm-up; without a warm-up it runs from the first one on. Slices without
/// anything are passed over.
pub proof fn law_framework_sits_out_one_slice(
    before: BacktestLoop,
    slice: Slice,
    after: BacktestLoop,
    taken: Option<(BacktestStep, BacktestSlice)>,
)
    requires
        slice_begun(before, slice, after, taken),
    ensures
        taken is None <==> !has_data(slice),
        taken matches Some((step, context)) ==> {
            &&& !before.had_warmup ==> context.run_framework == has_algorithm_data(slice)
            &&& before.had_warmup && before.market_slices_after_warmup == 0
                ==> !context.run_framework
            &&& before.had_warmup && before.market_slices_after_warmup > 0 ==> context.run_framework
                == has_algorithm_data(slice)
            &&& context.fill_data ==> context.algorithm_data
            &&& context.algorithm_data <==> step == BacktestStep::StartTradingDay
        },
        has_algorithm_data(slice) ==> after.market_slices_after_warmup > 0,
{
}

/// Whether a window is the one that is replayed before a backtest.
pub open spec fn is_warmup_window(
    length: WarmupLength,
    normal_start: DateTime,
    window: (DateTime, DateTime),
) -> bool {
    &&& warmup_start(length, normal_start) == Some(window.0.ns as int)
    &&& window.1.ns == normal_start.ns - 1
    &&& window.0.ns <= window.1.ns
}

/// A warm-up ends right before the backtest begins, so that no instant is replayed twice and
/// none is left out between the two.
pub proof fn law_warmup_ends_before_the_backtest(
    length: WarmupLength,
    normal_start: DateTime,
    window: (DateTime, DateTime),
    time: DateTime,
)
    requires
        is_warmup_window(length, normal_start, window),
    ensures
        window.0.ns < normal_start.ns,
        window.1.ns + 1 == normal_start.ns,
        window.0.ns <= time.ns ==> (time.ns <= window.1.ns <==> time.ns < normal_start.ns),
        length matches WarmupLength::Span(Some(span)) ==> normal_start.ns - window.0.ns == span,
{
}

/// What is streamed once some rows are there.
pub open spec fn advanced(
    streamed: usize,
    len: usize,
    after: usize,
    range: Option<(usize, usize)>,
) -> bool {
    if len > streamed {
        range == Some((streamed, len)) && after == len
    } else {
        range is None && after == streamed
    }
}

/// Every row is streamed once: what is streamed begins where the streaming before it ended
/// and reaches to the last row, and nothing is streamed where no row is new.
pub proof fn law_every_row_is_streamed_once(
    streamed: usize,
    first_len: usize,
    middle: usize,
    first: Option<(usize, usize)>,
    second_len: usize,
    after: usize,
    second: Option<(usize, usize)>,
)
    requires
        advanced(streamed, first_len, middle, first),
        advanced(middle, second_len, after, second),
    ensures
        first matches Some((from, to)) ==> from == streamed && to == first_len && middle == to,
        second matches Some((from, to)) ==> from == middle && from >= streamed && to == second_len,
        first is Some <==> first_len > streamed,
        first_len <= second_len && streamed <= first_len ==> after == second_len,
        second_len <= middle ==> second is None,
{
}

} // verus!
