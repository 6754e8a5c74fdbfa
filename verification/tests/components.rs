//! Component-level tests: fixed-point numbers, parsing, subscriptions,
//! portfolio and execution.

use arkin::config::{BinanceExecutionConfig, ExecutionConfig, ExecutionManagerConfig};
use arkin::execution::{EnrichedAllocation, ExecutionFactory, ExecutionManager, ExecutionType};
use arkin::models::{
    Allocation, IngestorID, Instrument, InstrumentType, Position, Tick, Venue,
};
use arkin::num::{Dec, Value, DEC_BOUND};
use arkin::parser::BinanceParser;
use arkin::portfolio::SinglePortfolio;
use arkin::providers::Subscription;
use arkin::store::State;

fn btc_perp() -> Instrument {
    Instrument::perpetual(Venue::Binance, "BTC".to_string(), "USDT".to_string())
}

#[test]
fn decimal_arithmetic_is_exact() {
    let two = Value::Num(Dec::from_int(2));
    let three = Value::Num(Dec::from_int(3));
    assert_eq!(two.add(three), Value::Num(Dec::from_int(5)));
    assert_eq!(two.sub(three), Value::Num(Dec::from_int(-1)));
    assert_eq!(two.mul(three), Value::Num(Dec::from_int(6)));
    // 2 / 3 truncates at nine fractional digits.
    assert_eq!(two.div(three), Value::Num(Dec::from_scaled(666_666_666).unwrap()));
}

#[test]
fn division_by_zero_is_nan() {
    let one = Value::Num(Dec::from_int(1));
    let zero = Value::Num(Dec::from_int(0));
    assert_eq!(one.div(zero), Value::NaN);
    assert!(one.div(zero).is_nan());
}

#[test]
fn overflow_is_nan() {
    let big = Value::Num(Dec::from_scaled(DEC_BOUND).unwrap());
    assert_eq!(big.add(big), Value::NaN);
    assert_eq!(big.mul(big), Value::NaN);
    // NaN absorbs.
    assert_eq!(big.add(big).add(Value::Num(Dec::from_int(1))), Value::NaN);
}

#[test]
fn midpoint_truncates_toward_zero() {
    let a = Dec::from_scaled(3).unwrap();
    let b = Dec::from_scaled(0).unwrap();
    assert_eq!(a.mid(b).mantissa(), 1);
    let c = Dec::from_scaled(-3).unwrap();
    assert_eq!(c.mid(b).mantissa(), -1);
}

#[test]
fn parse_instrument_splits_quote_asset() {
    let i = BinanceParser::parse_instrument("BTCUSDT");
    assert_eq!(i.instrument_type, InstrumentType::Perpetual);
    assert_eq!(i.venue, Venue::Binance);
    assert_eq!(i.base, "BTC".to_string());
    assert_eq!(i.quote, "USDT".to_string());
    assert!(i.maturity.is_none());
    assert!(i.strike.is_none());
    assert!(i.option_type.is_none());
}

#[test]
fn subscription_wraps_channels() {
    let mut sub = Subscription::new(vec!["btcusdt@bookTicker", "ethusdt@aggTrade"]);
    assert_eq!(sub.method, "SUBSCRIBE".to_string());
    assert_eq!(
        sub.params,
        vec!["btcusdt@bookTicker".to_string(), "ethusdt@aggTrade".to_string()]
    );
    assert_eq!(sub.id, 0);
    sub.update_id(7);
    assert_eq!(sub.id, 7);
}

#[test]
fn enriched_allocation_difference_and_exposure() {
    let i = btc_perp();
    let alloc = Allocation::new(1, i.clone(), "s1".to_string(), Dec::from_int(1000));
    let pos = Position::new(i.clone(), Dec::from_int(2));
    let e = EnrichedAllocation::new(Dec::from_int(100), alloc, pos);
    assert_eq!(e.exposure(), Value::Num(Dec::from_int(200)));
    assert_eq!(e.difference(), Value::Num(Dec::from_int(800)));
}

#[test]
fn difference_to_position_uses_latest_price() {
    let mut state = State::new();
    let i = btc_perp();
    let p = Dec::from_int(100);
    let q = Dec::from_int(1);
    state.ingest_tick(&Tick::new(1, i.clone(), 1, p, q, p, q, IngestorID::Test));
    let mut portfolio = SinglePortfolio::new();
    portfolio.add_position(Position::new(i.clone(), Dec::from_int(2)));
    let manager = ExecutionManager::from_config(&ExecutionManagerConfig {
        endpoints: vec![],
        default_endpoint: Venue::Simulation,
        rebalance_threshold: Dec::from_int(50),
    });
    let allocs = vec![Allocation::new(2, i.clone(), "s1".to_string(), Dec::from_int(1000))];
    let out = manager.difference_to_position(&state, &portfolio, &allocs);
    // 1000 - 100 * 2 = 800.
    assert_eq!(out.len(), 1);
    assert_eq!(out[0].notional, Dec::from_int(800));
    // Without any price, nothing is produced.
    let other = Instrument::perpetual(Venue::Binance, "ETH".to_string(), "USDT".to_string());
    let allocs2 = vec![Allocation::new(2, other, "s1".to_string(), Dec::from_int(1000))];
    assert!(manager.difference_to_position(&state, &portfolio, &allocs2).is_empty());
}

#[test]
fn test_execution_manager() {
    // Orders are produced only above the rebalance threshold, sized as
    // difference over price.
    let mut state = State::new();
    let i = btc_perp();
    let p = Dec::from_int(100);
    let q = Dec::from_int(1);
    state.ingest_tick(&Tick::new(1, i.clone(), 1, p, q, p, q, IngestorID::Test));
    let portfolio = SinglePortfolio::new();
    let manager = ExecutionManager::from_config(&ExecutionManagerConfig {
        endpoints: vec![],
        default_endpoint: Venue::Simulation,
        rebalance_threshold: Dec::from_int(50),
    });
    let allocations = vec![
        Allocation::new(2, i.clone(), "s1".to_string(), Dec::from_int(1000)),
        Allocation::new(2, i.clone(), "s1".to_string(), Dec::from_int(10)),
    ];
    let orders = manager.allocate(&state, &portfolio, &allocations);
    // 1000 notional at price 100, no position: order for 10 units; the
    // 10-notional allocation is under the threshold.
    assert_eq!(orders.len(), 1);
    assert_eq!(orders[0].quantity, Dec::from_int(10));
    assert_eq!(orders[0].event_time, 2);
}

#[test]
fn execution_factory_builds_configured_executors() {
    let configs = vec![ExecutionConfig::Binance(BinanceExecutionConfig {
        max_orders_per_minute: 60,
    })];
    let built = ExecutionFactory::from_config(&configs);
    assert_eq!(built.len(), 1);
    match &built[0] {
        ExecutionType::Binance(e) => assert_eq!(e.max_orders_per_minute, 60),
    }
}

#[test]
fn portfolio_position_defaults_to_flat() {
    let portfolio = SinglePortfolio::new();
    let i = btc_perp();
    let pos = portfolio.position(&i, 1);
    assert_eq!(pos.quantity.mantissa(), 0);
    assert!(pos.instrument.matches(&i));
}
