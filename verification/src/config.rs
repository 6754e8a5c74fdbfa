//! Pipeline configuration: the recognized feature kinds and their options,
//! and the error taxonomy of the engine.

use vstd::prelude::*;

use crate::num::Dec;
use crate::models::Venue;

verus! {

/// Which shape of query a feature runs against the store.
#[derive(Clone, Copy, PartialEq, Eq, Structural, Debug)]
pub enum QueryType {
    /// The single entry with the greatest composite key at or before `as_of`.
    Latest,
    /// All entries with timestamp strictly inside `(as_of - duration, as_of)`,
    /// duration in nanoseconds.
    Window(u64),
    /// The `n` entries with the greatest composite keys at or before `as_of`.
    Periods(usize),
}

/// One input series of a feature: the node it depends on, the series it
/// reads, and how it queries that series.
#[derive(Clone)]
pub struct FeatureInput {
    /// The producing node, or a base identifier.
    pub from: String,
    /// The series queried from the store.
    pub feature_id: String,
    /// The query shape.
    pub query: QueryType,
}

pub struct SMAFeatureConfig {
    pub id: String,
    pub input: FeatureInput,
    pub output: String,
}

pub struct EMAFeatureConfig {
    pub id: String,
    pub input: FeatureInput,
    pub output: String,
}

pub struct VWAPFeatureConfig {
    pub id: String,
    /// The producing node (or base identifier) of the price series.
    pub price_input: String,
    /// The producing node (or base identifier) of the quantity series.
    pub qty_input: String,
    /// Window length in nanoseconds.
    pub window: u64,
    pub output: String,
}

pub struct VolumeFeatureConfig {
    pub id: String,
    pub qty_input: String,
    /// Window length in nanoseconds.
    pub window: u64,
    pub output: String,
}

pub struct SpreadFeatureConfig {
    pub id: String,
    pub front_component: String,
    pub back_component: String,
    pub output: String,
}

/// One feature of the catalog.
pub enum FeatureConfig {
    SMA(SMAFeatureConfig),
    EMA(EMAFeatureConfig),
    VWAP(VWAPFeatureConfig),
    Volume(VolumeFeatureConfig),
    Spread(SpreadFeatureConfig),
}

/// The whole pipeline: a name, the trigger cadence the caller should use,
/// and the ordered feature catalog.
pub struct PipelineConfig {
    pub name: String,
    pub frequency_secs: u64,
    pub features: Vec<FeatureConfig>,
}

/// Why pipeline construction refused a configuration.  Fatal: the engine
/// does not start.
#[derive(Clone, Copy, PartialEq, Eq, Structural, Debug)]
pub enum ConfigError {
    /// Two nodes declare the same node identifier.
    DuplicateNode,
    /// A source is neither a base identifier nor produced by any node.
    UnresolvedSource,
    /// The dependency graph has a cycle.
    Cycle,
}

/// Why a single node declined to emit during evaluation.  Locally recovered:
/// the node emits nothing and dependents still run.
#[derive(Clone, Copy, PartialEq, Eq, Structural, Debug)]
pub enum FeatureError {
    /// A query the feature needs at least one point from came back empty.
    DataInsufficient,
}

/// Simulated-venue execution options.
pub struct SimulationConfig {
    pub latency: u64,
    pub commission_maker: Dec,
    pub commission_taker: Dec,
    pub max_orders_per_minute: u64,
    pub max_order_size_notional: Dec,
    pub min_order_size_notional: Dec,
}

/// Venue-specific execution endpoint options.
pub struct ExecutionEndpointConfig {
    pub venue: Venue,
    pub simulation: SimulationConfig,
}

/// One executor of the execution factory.
pub enum ExecutionConfig {
    Binance(BinanceExecutionConfig),
}

/// Binance executor options.
pub struct BinanceExecutionConfig {
    pub max_orders_per_minute: u64,
}

/// Execution manager options.
pub struct ExecutionManagerConfig {
    pub endpoints: Vec<ExecutionEndpointConfig>,
    pub default_endpoint: Venue,
    pub rebalance_threshold: Dec,
}

/// Spreader strategy options.
pub struct SpreaderConfig {
    pub min_spread: Dec,
}

} // verus!
