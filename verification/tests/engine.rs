//! End-to-end scenarios: the store, the catalog, and the pipeline engine.

use arkin::config::{
    ConfigError, EMAFeatureConfig, FeatureConfig, FeatureInput, PipelineConfig, QueryType,
    SMAFeatureConfig, SpreadFeatureConfig, VWAPFeatureConfig,
};
use arkin::models::{FeatureEvent, IngestorID, Instrument, Tick, TradeSide, Trade, Venue};
use arkin::num::{Dec, Value};
use arkin::pipeline::Pipeline;
use arkin::store::State;

fn btc_perp() -> Instrument {
    Instrument::perpetual(Venue::Binance, "BTC".to_string(), "USDT".to_string())
}

fn tick_at(t: u64, price: i64, id: u64) -> Tick {
    let p = Dec::from_int(price);
    let q = Dec::from_int(1);
    Tick::new(t, btc_perp(), id, p, q, p, q, IngestorID::Test)
}

fn sma_config(id: &str, input: &str, query: QueryType, output: &str) -> FeatureConfig {
    FeatureConfig::SMA(SMAFeatureConfig {
        id: id.to_string(),
        input: FeatureInput {
            from: input.to_string(),
            feature_id: input.to_string(),
            query,
        },
        output: output.to_string(),
    })
}

fn ema_config(id: &str, input: &str, query: QueryType, output: &str) -> FeatureConfig {
    FeatureConfig::EMA(EMAFeatureConfig {
        id: id.to_string(),
        input: FeatureInput {
            from: input.to_string(),
            feature_id: input.to_string(),
            query,
        },
        output: output.to_string(),
    })
}

fn pipeline_of(features: Vec<FeatureConfig>) -> Pipeline {
    Pipeline::from_config(&PipelineConfig {
        name: "test_pipeline".to_string(),
        frequency_secs: 1,
        features,
    })
    .unwrap()
}

#[test]
fn empty_dag() {
    let mut state = State::new();
    let pipeline = pipeline_of(vec![]);
    let batch = pipeline.calculate(&mut state, &btc_perp(), 1);
    assert!(batch.is_empty());
    // No store writes happened: no derived series exists.
    let vals = state.read_series(&btc_perp(), &"anything".to_string(), 10, QueryType::Latest);
    assert!(vals.is_empty());
}

#[test]
fn single_sma_over_three_base_ticks() {
    let mut state = State::new();
    state.ingest_tick(&tick_at(1, 100, 1));
    state.ingest_tick(&tick_at(2, 102, 2));
    state.ingest_tick(&tick_at(3, 104, 3));
    let pipeline = pipeline_of(vec![
        sma_config("sma3", "mid_price", QueryType::Periods(3), "sma3"),
    ]);
    let batch = pipeline.calculate(&mut state, &btc_perp(), 4);
    assert_eq!(batch.len(), 1);
    assert_eq!(batch[0].id, "sma3".to_string());
    assert!(batch[0].instrument.matches(&btc_perp()));
    assert_eq!(batch[0].event_time, 4);
    assert_eq!(batch[0].value, Value::Num(Dec::from_int(102)));
}

#[test]
fn chained_sma_then_ema() {
    let mut state = State::new();
    state.ingest_tick(&tick_at(1, 100, 1));
    state.ingest_tick(&tick_at(2, 102, 2));
    state.ingest_tick(&tick_at(3, 104, 3));
    let pipeline = pipeline_of(vec![
        sma_config("sma3", "mid_price", QueryType::Periods(3), "sma3"),
        ema_config("ema3", "sma3", QueryType::Periods(3), "ema3"),
    ]);
    let batch = pipeline.calculate(&mut state, &btc_perp(), 4);
    assert_eq!(batch.len(), 2);
    let ema = batch.iter().find(|e| e.id == "ema3").unwrap();
    // One observation in the input series: the EMA seeds to it.
    assert_eq!(ema.value, Value::Num(Dec::from_int(102)));
}

#[test]
fn spread_fan_in() {
    let mut state = State::new();
    state.ingest_tick(&tick_at(1, 100, 1));
    state.ingest_tick(&tick_at(2, 110, 2));
    let pipeline = pipeline_of(vec![
        sma_config("sma2", "mid_price", QueryType::Periods(2), "sma2"),
        ema_config("ema2", "mid_price", QueryType::Periods(2), "ema2"),
        FeatureConfig::Spread(SpreadFeatureConfig {
            id: "sp".to_string(),
            front_component: "sma2".to_string(),
            back_component: "ema2".to_string(),
            output: "sp".to_string(),
        }),
    ]);
    let batch = pipeline.calculate(&mut state, &btc_perp(), 3);
    assert_eq!(batch.len(), 3);
    let sma = batch.iter().find(|e| e.id == "sma2").unwrap();
    assert_eq!(sma.value, Value::Num(Dec::from_int(105)));
    // EMA: seed = 100 (first observation), then one exact step
    // alpha * 110 + (1 - alpha) * 100 with alpha = 2/3, computed as
    // (2 * 110 + 1 * 100) / 3 = 320/3 = 106.666666666 truncated.
    let ema = batch.iter().find(|e| e.id == "ema2").unwrap();
    assert_eq!(ema.value, Value::Num(Dec::from_scaled(106_666_666_666).unwrap()));
    // Spread = front - back = 105 - 106.666666666.
    let sp = batch.iter().find(|e| e.id == "sp").unwrap();
    assert_eq!(sp.value, Value::Num(Dec::from_scaled(-1_666_666_666).unwrap()));
}

#[test]
fn vwap_zero_volume() {
    let mut state = State::new();
    // No trades at all: the VWAP over any window is NaN.
    let pipeline = pipeline_of(vec![FeatureConfig::VWAP(VWAPFeatureConfig {
        id: "vwap".to_string(),
        price_input: "trade_price".to_string(),
        qty_input: "trade_qty".to_string(),
        window: 60,
        output: "vwap".to_string(),
    })]);
    let batch = pipeline.calculate(&mut state, &btc_perp(), 61);
    assert_eq!(batch.len(), 1);
    assert_eq!(batch[0].value, Value::NaN);
}

#[test]
fn vwap_over_trades() {
    let mut state = State::new();
    // Two trades inside the window: 100 x 1 and 110 x 3.
    let i = btc_perp();
    state.ingest_trade(&Trade::new(
        5,
        i.clone(),
        1,
        Dec::from_int(100),
        Dec::from_int(1),
        TradeSide::Buy,
    ));
    state.ingest_trade(&Trade::new(
        6,
        i.clone(),
        2,
        Dec::from_int(110),
        Dec::from_int(3),
        TradeSide::Sell,
    ));
    let pipeline = pipeline_of(vec![FeatureConfig::VWAP(VWAPFeatureConfig {
        id: "vwap".to_string(),
        price_input: "trade_price".to_string(),
        qty_input: "trade_qty".to_string(),
        window: 60,
        output: "vwap".to_string(),
    })]);
    let batch = pipeline.calculate(&mut state, &btc_perp(), 10);
    // (100*1 + 110*3) / 4 = 107.5
    assert_eq!(batch[0].value, Value::Num(Dec::from_scaled(107_500_000_000).unwrap()));
}

#[test]
fn cycle_rejection() {
    let r = Pipeline::from_config(&PipelineConfig {
        name: "cyclic".to_string(),
        frequency_secs: 1,
        features: vec![
            sma_config("A", "B", QueryType::Latest, "A"),
            sma_config("B", "A", QueryType::Latest, "B"),
        ],
    });
    assert_eq!(r.err().unwrap(), ConfigError::Cycle);
}

#[test]
fn duplicate_node_rejection() {
    let r = Pipeline::from_config(&PipelineConfig {
        name: "dup".to_string(),
        frequency_secs: 1,
        features: vec![
            sma_config("A", "mid_price", QueryType::Latest, "x"),
            sma_config("A", "mid_price", QueryType::Latest, "y"),
        ],
    });
    assert_eq!(r.err().unwrap(), ConfigError::DuplicateNode);
}

#[test]
fn unresolved_source_rejection() {
    let r = Pipeline::from_config(&PipelineConfig {
        name: "dangling".to_string(),
        frequency_secs: 1,
        features: vec![sma_config("A", "nowhere", QueryType::Latest, "x")],
    });
    assert_eq!(r.err().unwrap(), ConfigError::UnresolvedSource);
}

#[test]
fn idempotent_recalculation_on_base_inputs() {
    // Same trigger twice, no intervening ingestion: identical emitted values.
    let mut state = State::new();
    state.ingest_tick(&tick_at(1, 100, 1));
    state.ingest_tick(&tick_at(2, 102, 2));
    state.ingest_tick(&tick_at(3, 104, 3));
    let pipeline = pipeline_of(vec![
        sma_config("sma3", "mid_price", QueryType::Periods(3), "sma3"),
    ]);
    let first = pipeline.calculate(&mut state, &btc_perp(), 4);
    let second = pipeline.calculate(&mut state, &btc_perp(), 4);
    assert_eq!(first.len(), second.len());
    assert_eq!(first[0].id, second[0].id);
    assert_eq!(first[0].value, second[0].value);
}

#[test]
fn declaration_order_permutation_same_outputs() {
    // The spread pipeline declared in two orders emits the same set.
    let run = |features: Vec<FeatureConfig>| {
        let mut state = State::new();
        state.ingest_tick(&tick_at(1, 100, 1));
        state.ingest_tick(&tick_at(2, 110, 2));
        let pipeline = pipeline_of(features);
        let mut out: Vec<(String, Value)> = pipeline
            .calculate(&mut state, &btc_perp(), 3)
            .into_iter()
            .map(|e| (e.id, e.value))
            .collect();
        out.sort_by(|a, b| a.0.cmp(&b.0));
        out
    };
    let spread = || {
        FeatureConfig::Spread(SpreadFeatureConfig {
            id: "sp".to_string(),
            front_component: "sma2".to_string(),
            back_component: "ema2".to_string(),
            output: "sp".to_string(),
        })
    };
    let a = run(vec![
        sma_config("sma2", "mid_price", QueryType::Periods(2), "sma2"),
        ema_config("ema2", "mid_price", QueryType::Periods(2), "ema2"),
        spread(),
    ]);
    let b = run(vec![
        spread(),
        ema_config("ema2", "mid_price", QueryType::Periods(2), "ema2"),
        sma_config("sma2", "mid_price", QueryType::Periods(2), "sma2"),
    ]);
    assert_eq!(a, b);
}

#[test]
fn window_boundaries_are_open() {
    let mut state = State::new();
    for (t, p, id) in [(1u64, 100i64, 1u64), (2, 101, 2), (3, 102, 3), (4, 103, 4)] {
        state.ingest_tick(&tick_at(t, p, id));
    }
    let i = btc_perp();
    let mid = "mid_price".to_string();
    // Window(2) at t=4 is the open interval (2, 4): only ts=3 qualifies.
    let w = state.read_series(&i, &mid, 4, QueryType::Window(2));
    assert_eq!(w, vec![Value::Num(Dec::from_int(102))]);
    // Latest at t=3 is the entry at ts=3 itself.
    let l = state.read_series(&i, &mid, 3, QueryType::Latest);
    assert_eq!(l, vec![Value::Num(Dec::from_int(102))]);
    // Periods(2) at t=3: the last two entries at or before 3, ascending.
    let p = state.read_series(&i, &mid, 3, QueryType::Periods(2));
    assert_eq!(
        p,
        vec![Value::Num(Dec::from_int(101)), Value::Num(Dec::from_int(102))]
    );
}

#[test]
fn composite_keys_strictly_increase_at_equal_timestamps() {
    let mut state = State::new();
    let i = btc_perp();
    let fid = "series".to_string();
    // Two inserts at the same timestamp must both survive, in order.
    state.add_feature(FeatureEvent::new(
        fid.clone(),
        i.clone(),
        7,
        Value::Num(Dec::from_int(1)),
    ));
    state.add_feature(FeatureEvent::new(
        fid.clone(),
        i.clone(),
        7,
        Value::Num(Dec::from_int(2)),
    ));
    let vals = state.read_series(&i, &fid, 7, QueryType::Periods(10));
    assert_eq!(
        vals,
        vec![Value::Num(Dec::from_int(1)), Value::Num(Dec::from_int(2))]
    );
    // Latest picks the later tie-breaker.
    let l = state.read_series(&i, &fid, 7, QueryType::Latest);
    assert_eq!(l, vec![Value::Num(Dec::from_int(2))]);
}

#[test]
fn latest_price_is_last_mid_at_or_before() {
    let mut state = State::new();
    state.ingest_tick(&tick_at(1, 100, 1));
    state.ingest_tick(&tick_at(5, 104, 2));
    let i = btc_perp();
    assert_eq!(state.latest_price(&i, 4), Some(Dec::from_int(100)));
    assert_eq!(state.latest_price(&i, 5), Some(Dec::from_int(104)));
    assert_eq!(state.latest_price(&i, 0), None);
}

#[test]
fn every_node_with_nonempty_inputs_emits() {
    // All three nodes have non-empty inputs, so all three emit.
    let mut state = State::new();
    state.ingest_tick(&tick_at(1, 100, 1));
    state.ingest_tick(&tick_at(2, 110, 2));
    let pipeline = pipeline_of(vec![
        sma_config("sma2", "mid_price", QueryType::Periods(2), "sma2"),
        ema_config("ema2", "mid_price", QueryType::Periods(2), "ema2"),
        FeatureConfig::Spread(SpreadFeatureConfig {
            id: "sp".to_string(),
            front_component: "sma2".to_string(),
            back_component: "ema2".to_string(),
            output: "sp".to_string(),
        }),
    ]);
    let batch = pipeline.calculate(&mut state, &btc_perp(), 3);
    let mut ids: Vec<String> = batch.iter().map(|e| e.id.clone()).collect();
    ids.sort();
    assert_eq!(ids, vec!["ema2".to_string(), "sma2".to_string(), "sp".to_string()]);
}

#[test]
fn ema_with_empty_input_emits_nothing() {
    let mut state = State::new();
    let pipeline = pipeline_of(vec![
        ema_config("ema2", "mid_price", QueryType::Periods(2), "ema2"),
    ]);
    let batch = pipeline.calculate(&mut state, &btc_perp(), 3);
    assert!(batch.is_empty());
}
