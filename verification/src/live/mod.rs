//! Live trading against a brokerage.

pub mod brokerage;
pub mod transaction_handler;
pub mod worker;
