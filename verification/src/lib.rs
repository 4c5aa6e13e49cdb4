//! Verified core of an asset-resolution service: a sliding-window rate
//! limiter, a typed in-memory asset store with dependency-surface emission,
//! a mutator attribute algebra, a location-chain resolver, a deduplicating
//! saga work-graph engine, and a report projector over the closed store.

pub mod assets_saga;
pub mod assets_work;
pub mod bytes;
pub mod dbs;
pub mod errors;
pub mod chain;
pub mod engine;
pub mod hierarchy;
pub mod market;
pub mod ratelimit;
pub mod report;
pub mod ring;
pub mod snapshot;
pub mod store;
pub mod table;
pub mod types;
pub mod virtualattr;
