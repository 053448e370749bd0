//! Configuration of the engine.

use crate::decimal::Decimal;
use crate::time::DateTime;
use vstd::prelude::*;
use vstd::string::*;

verus! {

pub struct EngineConfig {
    /// Path of the data directory.
    pub data_root: String,
    pub start_date: Option<DateTime>,
    pub end_date: Option<DateTime>,
    pub starting_cash: Decimal,
    pub benchmark_symbol: Option<String>,
    /// Maximum number of open orders.
    pub max_orders: usize,
    /// Whether the clock is real time.
    pub live_mode: bool,
    /// Threads that load data.
    pub threads: usize,
}

/// Number of processors.
///
/// Wraps `num_cpus::get`. What it returns depends on the machine, and nothing
/// is claimed of it.
#[verifier::external_body]
fn available_processors() -> (res: usize) {
    num_cpus::get()
}

impl EngineConfig {
    /// Whether everything but the number of threads is as by default.
    pub open spec fn is_default(self) -> bool {
        &&& self.data_root@ == "data"@
        &&& self.start_date is None
        &&& self.end_date is None
        &&& self.starting_cash == (Decimal { mantissa: 100_000, scale: 0 })
        &&& self.benchmark_symbol matches Some(symbol) && symbol@ == "SPY"@
        &&& self.max_orders == 10_000
        &&& !self.live_mode
    }

    /// The default configuration with a number of threads.
    pub fn with_threads(threads: usize) -> (res: EngineConfig)
        ensures
            res.is_default(),
            res.threads == threads,
    {
        EngineConfig {
            data_root: "data".to_owned(),
            start_date: None,
            end_date: None,
            starting_cash: Decimal::from_i64(100_000),
            benchmark_symbol: Some("SPY".to_owned()),
            max_orders: 10_000,
            live_mode: false,
            threads,
        }
    }
}

impl Default for EngineConfig {
    /// The default configuration, with as many threads as there are processors.
    fn default() -> (res: EngineConfig)
        ensures
            res.is_default(),
    {
        EngineConfig::with_threads(available_processors())
    }
}

/// By default a backtest of the algorithm's own dates starts with 100 000 in cash, is held
/// against SPY and may place 10 000 orders.
pub proof fn law_default_configuration(config: EngineConfig)
    requires
        config.is_default(),
    ensures
        config.starting_cash.mantissa == 100_000 && config.starting_cash.scale == 0,
        config.start_date is None && config.end_date is None,
        config.benchmark_symbol matches Some(symbol) && symbol@ == "SPY"@,
        config.max_orders == 10_000,
        !config.live_mode,
        config.data_root@ == "data"@,
{
}

} // verus!
