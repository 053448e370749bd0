//! Reads one subscription partition by partition and emits its points in order.

pub mod coverage;
pub mod custom;
pub mod fetch;
pub mod market;
pub mod options;
pub mod ordering;
pub mod producer;
pub mod stream;
pub mod window;
