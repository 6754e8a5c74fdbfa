//! Execution: turning strategy allocations into orders against current
//! positions and prices.

use vstd::prelude::*;

use crate::config::{ExecutionConfig, ExecutionManagerConfig};
use crate::models::{ikey, Allocation, Instrument, Order, Position, Venue};
use crate::num::{abs_int, dec_wf, spec_div, spec_mul, spec_sub, val_wf, Dec, Value};
use crate::portfolio::SinglePortfolio;
use crate::store::{latest_price_spec, State};

verus! {

/// An allocation enriched with the current price and held position.
pub struct EnrichedAllocation {
    pub current_price: Dec,
    pub allocation: Allocation,
    pub position: Position,
}

impl EnrichedAllocation {
    pub fn new(current_price: Dec, allocation: Allocation, position: Position) -> (r:
        EnrichedAllocation)
        ensures
            r == (EnrichedAllocation { current_price, allocation, position }),
    {
        EnrichedAllocation { current_price, allocation, position }
    }

    /// The notional currently at work: price times held quantity; NaN on
    /// overflow.
    pub fn exposure(&self) -> (r: Value)
        requires
            dec_wf(self.current_price),
            dec_wf(self.position.quantity),
        ensures
            r == spec_mul(Value::Num(self.current_price), Value::Num(self.position.quantity)),
            val_wf(r),
    {
        Value::Num(self.current_price).mul(Value::Num(self.position.quantity))
    }

    /// How far the allocation is from the current exposure; NaN on overflow.
    pub fn difference(&self) -> (r: Value)
        requires
            dec_wf(self.current_price),
            dec_wf(self.position.quantity),
            dec_wf(self.allocation.notional),
        ensures
            r == spec_sub(
                Value::Num(self.allocation.notional),
                spec_mul(Value::Num(self.current_price), Value::Num(self.position.quantity)),
            ),
            val_wf(r),
    {
        Value::Num(self.allocation.notional).sub(self.exposure())
    }
}

/// What `difference_to_position` computes per allocation, when a price is
/// known: the difference between the allocated notional and the current
/// exposure.
pub open spec fn diff_notional(price: Dec, quantity: Dec, notional: Dec) -> Value {
    spec_sub(Value::Num(notional), spec_mul(Value::Num(price), Value::Num(quantity)))
}

/// Routes orders; holds the venue of the default endpoint and the notional
/// threshold under which rebalancing is skipped.
pub struct ExecutionManager {
    pub default_endpoint: Venue,
    pub rebalance_threshold: Dec,
}

impl ExecutionManager {
    pub fn from_config(config: &ExecutionManagerConfig) -> (r: ExecutionManager)
        ensures
            r.default_endpoint == config.default_endpoint,
            r.rebalance_threshold == config.rebalance_threshold,
    {
        ExecutionManager {
            default_endpoint: config.default_endpoint,
            rebalance_threshold: config.rebalance_threshold,
        }
    }

    /// Rewrite the allocations as differences to the current positions:
    /// the ordered filter-map keeping, in input order, each allocation
    /// whose instrument has a price and whose difference is numerically
    /// defined.
    pub fn difference_to_position(
        &self,
        state: &State,
        portfolio: &SinglePortfolio,
        allocations: &Vec<Allocation>,
    ) -> (r: Vec<Allocation>)
        requires
            state.wf(),
            portfolio.wf(),
            forall|i: int| 0 <= i < allocations@.len() ==> dec_wf(allocations@[i].notional),
        ensures
            r@ == diff_outputs(state@, portfolio, allocations@),
            forall|j: int| 0 <= j < r@.len() ==> dec_wf(#[trigger] r@[j].notional),
    {
        let mut r: Vec<Allocation> = Vec::new();
        let mut i: usize = 0;
        while i < allocations.len()
            invariant
                0 <= i <= allocations@.len(),
                state.wf(),
                portfolio.wf(),
                forall|k: int| 0 <= k < allocations@.len() ==> dec_wf(allocations@[k].notional),
                r@ == diff_outputs(state@, portfolio, allocations@.take(i as int)),
                forall|j: int| 0 <= j < r@.len() ==> dec_wf(#[trigger] r@[j].notional),
            decreases allocations.len() - i,
        {
            let a = &allocations[i];
            let pos = portfolio.position(&a.instrument, a.event_time);
            proof {
                assert(allocations@.take(i as int + 1).drop_last() =~= allocations@.take(
                    i as int,
                ));
                assert(allocations@.take(i as int + 1).last() == allocations@[i as int]);
            }
            match state.latest_price(&a.instrument, a.event_time) {
                Some(price) => {
                    let diff = Value::Num(a.notional).sub(
                        Value::Num(price).mul(Value::Num(pos.quantity)),
                    );
                    proof {
                        assert(diff == diff_notional(
                            price,
                            portfolio.position_quantity(ikey(allocations@[i as int].instrument)),
                            allocations@[i as int].notional,
                        ));
                    }
                    match diff {
                        Value::Num(d) => {
                            let out = Allocation::new(
                                a.event_time,
                                a.instrument.clone(),
                                a.strategy_id.clone(),
                                d,
                            );
                            proof {
                                assert(diff_output_of(
                                    state@,
                                    portfolio,
                                    allocations@[i as int],
                                ) == Some(out));
                            }
                            r.push(out);
                            proof {
                                assert(r@ =~= diff_outputs(
                                    state@,
                                    portfolio,
                                    allocations@.take(i as int + 1),
                                ));
                            }
                        },
                        Value::NaN => {
                            proof {
                                assert(diff_output_of(
                                    state@,
                                    portfolio,
                                    allocations@[i as int],
                                ) is None);
                                assert(r@ =~= diff_outputs(
                                    state@,
                                    portfolio,
                                    allocations@.take(i as int + 1),
                                ));
                            }
                        },
                    }
                },
                None => {
                    proof {
                        assert(diff_output_of(state@, portfolio, allocations@[i as int])
                            is None);
                        assert(r@ =~= diff_outputs(
                            state@,
                            portfolio,
                            allocations@.take(i as int + 1),
                        ));
                    }
                },
            }
            i += 1;
        }
        proof {
            assert(allocations@.take(allocations@.len() as int) =~= allocations@);
        }
        r
    }

    /// Turn allocations into market orders: the ordered filter-map keeping
    /// each allocation whose absolute difference to the current exposure
    /// exceeds the rebalance threshold, sized as difference over price.
    pub fn allocate(
        &self,
        state: &State,
        portfolio: &SinglePortfolio,
        allocations: &Vec<Allocation>,
    ) -> (r: Vec<Order>)
        requires
            state.wf(),
            portfolio.wf(),
            forall|i: int| 0 <= i < allocations@.len() ==> dec_wf(allocations@[i].notional),
        ensures
            r@ == order_outputs(state@, portfolio, self.rebalance_threshold, allocations@),
    {
        let mut r: Vec<Order> = Vec::new();
        let mut i: usize = 0;
        while i < allocations.len()
            invariant
                0 <= i <= allocations@.len(),
                state.wf(),
                portfolio.wf(),
                forall|k: int| 0 <= k < allocations@.len() ==> dec_wf(allocations@[k].notional),
                r@ == order_outputs(
                    state@,
                    portfolio,
                    self.rebalance_threshold,
                    allocations@.take(i as int),
                ),
            decreases allocations.len() - i,
        {
            let a = &allocations[i];
            let pos = portfolio.position(&a.instrument, a.event_time);
            proof {
                assert(allocations@.take(i as int + 1).drop_last() =~= allocations@.take(
                    i as int,
                ));
                assert(allocations@.take(i as int + 1).last() == allocations@[i as int]);
            }
            let mut produced: Option<Order> = None;
            match state.latest_price(&a.instrument, a.event_time) {
                Some(price) => {
                    let diff = Value::Num(a.notional).sub(
                        Value::Num(price).mul(Value::Num(pos.quantity)),
                    );
                    proof {
                        assert(diff == diff_notional(
                            price,
                            portfolio.position_quantity(ikey(allocations@[i as int].instrument)),
                            allocations@[i as int].notional,
                        ));
                    }
                    match diff {
                        Value::Num(d) => {
                            if d.abs().mantissa() > self.rebalance_threshold.mantissa() {
                                match diff.div(Value::Num(price)) {
                                    Value::Num(qty) => {
                                        produced = Some(
                                            Order::new_market(
                                                a.event_time,
                                                a.instrument.clone(),
                                                a.strategy_id.clone(),
                                                qty,
                                            ),
                                        );
                                    },
                                    Value::NaN => {},
                                }
                            }
                        },
                        Value::NaN => {},
                    }
                },
                None => {},
            }
            proof {
                assert(produced == order_output_of(
                    state@,
                    portfolio,
                    self.rebalance_threshold,
                    allocations@[i as int],
                ));
            }
            match produced {
                Some(out) => {
                    r.push(out);
                },
                None => {},
            }
            proof {
                assert(r@ =~= order_outputs(
                    state@,
                    portfolio,
                    self.rebalance_threshold,
                    allocations@.take(i as int + 1),
                ));
            }
            i += 1;
        }
        proof {
            assert(allocations@.take(allocations@.len() as int) =~= allocations@);
        }
        r
    }
}

/// The difference-allocation computed from `a`, when a price is known and
/// the difference is numerically defined; `None` otherwise.
pub open spec fn diff_output_of(
    s: crate::store::StateM,
    portfolio: &SinglePortfolio,
    a: Allocation,
) -> Option<Allocation> {
    match latest_price_spec(s, ikey(a.instrument), a.event_time) {
        Some(p) => match diff_notional(
            p,
            portfolio.position_quantity(ikey(a.instrument)),
            a.notional,
        ) {
            Value::Num(d) => Some(
                Allocation {
                    event_time: a.event_time,
                    instrument: a.instrument,
                    strategy_id: a.strategy_id,
                    notional: d,
                },
            ),
            Value::NaN => None,
        },
        None => None,
    }
}

/// The ordered filter-map `difference_to_position` returns: one
/// difference-allocation per priced input with a defined difference, in
/// input order.
pub open spec fn diff_outputs(
    s: crate::store::StateM,
    portfolio: &SinglePortfolio,
    allocs: Seq<Allocation>,
) -> Seq<Allocation>
    decreases allocs.len(),
{
    if allocs.len() == 0 {
        Seq::empty()
    } else {
        diff_outputs(s, portfolio, allocs.drop_last()) + match diff_output_of(
            s,
            portfolio,
            allocs.last(),
        ) {
            Some(o) => seq![o],
            None => Seq::empty(),
        }
    }
}

/// The market order computed from `a`: produced exactly when a price is
/// known, the difference is defined and its magnitude exceeds the
/// threshold, and the quantity (difference over price) is defined.
pub open spec fn order_output_of(
    s: crate::store::StateM,
    portfolio: &SinglePortfolio,
    threshold: Dec,
    a: Allocation,
) -> Option<Order> {
    match latest_price_spec(s, ikey(a.instrument), a.event_time) {
        Some(p) => match diff_notional(
            p,
            portfolio.position_quantity(ikey(a.instrument)),
            a.notional,
        ) {
            Value::Num(d) => if abs_int(d.m as int) > threshold.m {
                match spec_div(Value::Num(d), Value::Num(p)) {
                    Value::Num(qty) => Some(
                        Order {
                            event_time: a.event_time,
                            instrument: a.instrument,
                            strategy_id: a.strategy_id,
                            quantity: qty,
                        },
                    ),
                    Value::NaN => None,
                }
            } else {
                None
            },
            Value::NaN => None,
        },
        None => None,
    }
}

/// The ordered filter-map `allocate` returns: one market order per
/// qualifying input allocation, in input order.
pub open spec fn order_outputs(
    s: crate::store::StateM,
    portfolio: &SinglePortfolio,
    threshold: Dec,
    allocs: Seq<Allocation>,
) -> Seq<Order>
    decreases allocs.len(),
{
    if allocs.len() == 0 {
        Seq::empty()
    } else {
        order_outputs(s, portfolio, threshold, allocs.drop_last()) + match order_output_of(
            s,
            portfolio,
            threshold,
            allocs.last(),
        ) {
            Some(o) => seq![o],
            None => Seq::empty(),
        }
    }
}

/// A venue-specific executor.
pub struct BinanceExecution {
    pub max_orders_per_minute: u64,
}

impl BinanceExecution {
    pub fn new(config: &crate::config::BinanceExecutionConfig) -> (r: BinanceExecution)
        ensures
            r.max_orders_per_minute == config.max_orders_per_minute,
    {
        BinanceExecution { max_orders_per_minute: config.max_orders_per_minute }
    }
}

/// The executors the factory can build.
pub enum ExecutionType {
    Binance(BinanceExecution),
}

/// The executor built for a configuration.
pub open spec fn exec_matches(e: ExecutionType, c: ExecutionConfig) -> bool {
    match (e, c) {
        (ExecutionType::Binance(x), ExecutionConfig::Binance(y)) => {
            x.max_orders_per_minute == y.max_orders_per_minute
        },
    }
}

/// Builds executors from configuration.
pub struct ExecutionFactory {}

impl ExecutionFactory {
    pub fn from_config(configs: &Vec<ExecutionConfig>) -> (r: Vec<ExecutionType>)
        ensures
            r@.len() == configs@.len(),
            forall|i: int| 0 <= i < r@.len() ==> exec_matches(#[trigger] r@[i], configs@[i]),
    {
        let mut r: Vec<ExecutionType> = Vec::new();
        let mut i: usize = 0;
        while i < configs.len()
            invariant
                0 <= i <= configs@.len(),
                r@.len() == i,
                forall|j: int| 0 <= j < i ==> exec_matches(#[trigger] r@[j], configs@[j]),
            decreases configs.len() - i,
        {
            let e = match &configs[i] {
                ExecutionConfig::Binance(c) => ExecutionType::Binance(BinanceExecution::new(c)),
            };
            r.push(e);
            i += 1;
        }
        r
    }
}

} // verus!
