//! Shared services of the data feed: prefetch limits, provider retries and
//! buffered cache writes.

pub mod context;
pub mod market_cache;
pub mod policy;
pub mod retry;

pub use context::DataFeedContext;
pub use market_cache::{CorporateActionWriteBuffer, MarketCacheKey, MarketCacheWriteBuffer};
pub use policy::{DataFeedOptions, ProviderBackoffPolicy, SubscriptionCachePolicy};
