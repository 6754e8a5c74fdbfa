//! Streaming feature-computation core of an algorithmic trading engine.
//!
//! The library ingests market events (quotes, trades) into a time-indexed
//! state store, derives a directed acyclic graph of time-series features from
//! a catalog of feature configurations, and evaluates that graph per
//! (instrument, event-time) trigger, writing every produced feature value
//! back into the store.

pub mod config;
pub mod execution;
pub mod features;
pub mod laws;
pub mod models;
pub mod num;
pub mod parser;
pub mod pipeline;
pub mod portfolio;
pub mod providers;
pub mod store;
