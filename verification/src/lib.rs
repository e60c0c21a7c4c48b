//! A deduplicating two-tier cache: a bounded in-memory tier, an optional
//! remote tier, and a wait registry that elects one producer per absent key.

pub mod cache;
pub mod codec;
pub mod configuration;
pub mod laws;
pub mod lru_tier;
pub mod metrics;
pub mod storage;
pub mod telemetry;
pub mod wait_map;
pub mod world;
