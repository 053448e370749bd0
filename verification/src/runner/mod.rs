//! Backtest and live runs.

pub mod backtest;
pub mod live;
pub mod live_feed;
pub mod stream_writer;
pub mod subscriptions;
