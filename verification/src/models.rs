//! Market data model: instruments, ticks, trades, feature events, and the
//! order/allocation records the execution side works with.
//!
//! Timestamps are UTC wall-clock nanoseconds.  Instruments are structural
//! composite keys; the store deduplicates them by that key.

use vstd::prelude::*;

use crate::num::{dec_wf, val_wf, spec_mid, Dec, Value};

verus! {

/// Where an instrument trades, or where an order is routed.
#[derive(Clone, Copy, PartialEq, Eq, Structural, Debug)]
pub enum Venue {
    Binance,
    Simulation,
}

/// The contract type of an instrument.
#[derive(Clone, Copy, PartialEq, Eq, Structural, Debug)]
pub enum InstrumentType {
    Spot,
    Perpetual,
    Future,
    OptionContract,
}

/// Call or put, for option instruments.
#[derive(Clone, Copy, PartialEq, Eq, Structural, Debug)]
pub enum OptionKind {
    Call,
    Put,
}

/// Which ingestion feed produced a tick.
#[derive(Clone, Copy, PartialEq, Eq, Structural, Debug)]
pub enum IngestorID {
    Binance,
    Test,
}

/// Buyer- or seller-initiated, for trades.
#[derive(Clone, Copy, PartialEq, Eq, Structural, Debug)]
pub enum TradeSide {
    Buy,
    Sell,
}

/// An immutable composite instrument key.
#[derive(Debug)]
pub struct Instrument {
    pub instrument_type: InstrumentType,
    pub venue: Venue,
    pub base: String,
    pub quote: String,
    pub maturity: Option<u64>,
    pub strike: Option<Dec>,
    pub option_type: Option<OptionKind>,
}

/// The mathematical key of an instrument: the tuple of its fields, with
/// strings taken as character sequences.  Two instruments denote the same
/// market exactly when their keys are equal.
pub struct IKey {
    pub instrument_type: InstrumentType,
    pub venue: Venue,
    pub base: Seq<char>,
    pub quote: Seq<char>,
    pub maturity: Option<u64>,
    pub strike: Option<Dec>,
    pub option_type: Option<OptionKind>,
}

/// The key of an instrument.
pub open spec fn ikey(i: Instrument) -> IKey {
    IKey {
        instrument_type: i.instrument_type,
        venue: i.venue,
        base: i.base@,
        quote: i.quote@,
        maturity: i.maturity,
        strike: i.strike,
        option_type: i.option_type,
    }
}

impl Instrument {
    /// A plain instrument without maturity, strike or option side.
    pub fn new(
        instrument_type: InstrumentType,
        venue: Venue,
        base: String,
        quote: String,
        maturity: Option<u64>,
        strike: Option<Dec>,
        option_type: Option<OptionKind>,
    ) -> (r: Instrument)
        ensures
            r == (Instrument {
                instrument_type,
                venue,
                base,
                quote,
                maturity,
                strike,
                option_type,
            }),
    {
        Instrument { instrument_type, venue, base, quote, maturity, strike, option_type }
    }

    /// A perpetual swap on `venue` for the `base`/`quote` pair.
    pub fn perpetual(venue: Venue, base: String, quote: String) -> (r: Instrument)
        ensures
            r.instrument_type == InstrumentType::Perpetual,
            r.venue == venue,
            r.base == base,
            r.quote == quote,
            r.maturity is None,
            r.strike is None,
            r.option_type is None,
    {
        Instrument {
            instrument_type: InstrumentType::Perpetual,
            venue,
            base,
            quote,
            maturity: None,
            strike: None,
            option_type: None,
        }
    }

    /// Structural equality of the composite keys.
    pub fn matches(&self, other: &Instrument) -> (r: bool)
        ensures
            r == (ikey(*self) == ikey(*other)),
    {
        let type_eq = self.instrument_type == other.instrument_type;
        let venue_eq = self.venue == other.venue;
        let base_eq = self.base == other.base;
        let quote_eq = self.quote == other.quote;
        let maturity_eq = match (self.maturity, other.maturity) {
            (None, None) => true,
            (Some(a), Some(b)) => a == b,
            _ => false,
        };
        let strike_eq = match (self.strike, other.strike) {
            (None, None) => true,
            (Some(a), Some(b)) => a == b,
            _ => false,
        };
        let option_eq = match (self.option_type, other.option_type) {
            (None, None) => true,
            (Some(a), Some(b)) => a == b,
            _ => false,
        };
        let r = type_eq && venue_eq && base_eq && quote_eq && maturity_eq && strike_eq
            && option_eq;
        proof {
            if r {
                assert(ikey(*self) == ikey(*other));
            } else {
                assert(ikey(*self) != ikey(*other));
            }
        }
        r
    }
}

impl Clone for Instrument {
    fn clone(&self) -> (r: Self)
        ensures
            r == *self,
    {
        Instrument {
            instrument_type: self.instrument_type,
            venue: self.venue,
            base: self.base.clone(),
            quote: self.quote.clone(),
            maturity: self.maturity,
            strike: self.strike,
            option_type: self.option_type,
        }
    }
}

/// A top-of-book quote snapshot.
pub struct Tick {
    pub received_time: u64,
    pub event_time: u64,
    pub instrument: Instrument,
    pub tick_id: u64,
    pub bid_price: Dec,
    pub bid_quantity: Dec,
    pub ask_price: Dec,
    pub ask_quantity: Dec,
    pub source: IngestorID,
}

/// A tick is well formed when its monetary fields are in range.
pub open spec fn tick_wf(t: Tick) -> bool {
    dec_wf(t.bid_price) && dec_wf(t.bid_quantity) && dec_wf(t.ask_price) && dec_wf(
        t.ask_quantity,
    )
}

impl Tick {
    /// A tick received at its own event time.
    pub fn new(
        event_time: u64,
        instrument: Instrument,
        tick_id: u64,
        bid_price: Dec,
        bid_quantity: Dec,
        ask_price: Dec,
        ask_quantity: Dec,
        source: IngestorID,
    ) -> (r: Tick)
        ensures
            r == (Tick {
                received_time: event_time,
                event_time,
                instrument,
                tick_id,
                bid_price,
                bid_quantity,
                ask_price,
                ask_quantity,
                source,
            }),
    {
        Tick {
            received_time: event_time,
            event_time,
            instrument,
            tick_id,
            bid_price,
            bid_quantity,
            ask_price,
            ask_quantity,
            source,
        }
    }

    /// The midpoint of bid and ask.
    pub fn mid_price(&self) -> (r: Dec)
        requires
            tick_wf(*self),
        ensures
            r == spec_mid(self.bid_price, self.ask_price),
            dec_wf(r),
    {
        self.bid_price.mid(self.ask_price)
    }
}

impl Clone for Tick {
    fn clone(&self) -> (r: Self)
        ensures
            r == *self,
    {
        Tick {
            received_time: self.received_time,
            event_time: self.event_time,
            instrument: self.instrument.clone(),
            tick_id: self.tick_id,
            bid_price: self.bid_price,
            bid_quantity: self.bid_quantity,
            ask_price: self.ask_price,
            ask_quantity: self.ask_quantity,
            source: self.source,
        }
    }
}

/// An executed trade.
pub struct Trade {
    pub event_time: u64,
    pub instrument: Instrument,
    pub trade_id: u64,
    pub price: Dec,
    pub quantity: Dec,
    pub side: TradeSide,
}

/// A trade is well formed when its monetary fields are in range.
pub open spec fn trade_wf(t: Trade) -> bool {
    dec_wf(t.price) && dec_wf(t.quantity)
}

impl Trade {
    pub fn new(
        event_time: u64,
        instrument: Instrument,
        trade_id: u64,
        price: Dec,
        quantity: Dec,
        side: TradeSide,
    ) -> (r: Trade)
        ensures
            r == (Trade { event_time, instrument, trade_id, price, quantity, side }),
    {
        Trade { event_time, instrument, trade_id, price, quantity, side }
    }
}

impl Clone for Trade {
    fn clone(&self) -> (r: Self)
        ensures
            r == *self,
    {
        Trade {
            event_time: self.event_time,
            instrument: self.instrument.clone(),
            trade_id: self.trade_id,
            price: self.price,
            quantity: self.quantity,
            side: self.side,
        }
    }
}

/// A derived feature value produced by one pipeline node for one instrument
/// at one event time; the unit written back to the store.
pub struct FeatureEvent {
    pub id: String,
    pub instrument: Instrument,
    pub event_time: u64,
    pub value: Value,
}

impl FeatureEvent {
    pub fn new(id: String, instrument: Instrument, event_time: u64, value: Value) -> (r:
        FeatureEvent)
        ensures
            r == (FeatureEvent { id, instrument, event_time, value }),
    {
        FeatureEvent { id, instrument, event_time, value }
    }
}

impl Clone for FeatureEvent {
    fn clone(&self) -> (r: Self)
        ensures
            r == *self,
    {
        FeatureEvent {
            id: self.id.clone(),
            instrument: self.instrument.clone(),
            event_time: self.event_time,
            value: self.value,
        }
    }
}

/// A strategy's desired notional stake in an instrument.
pub struct Allocation {
    pub event_time: u64,
    pub instrument: Instrument,
    pub strategy_id: String,
    pub notional: Dec,
}

impl Allocation {
    pub fn new(event_time: u64, instrument: Instrument, strategy_id: String, notional: Dec) -> (
        r: Allocation)
        ensures
            r == (Allocation { event_time, instrument, strategy_id, notional }),
    {
        Allocation { event_time, instrument, strategy_id, notional }
    }
}

impl Clone for Allocation {
    fn clone(&self) -> (r: Self)
        ensures
            r == *self,
    {
        Allocation {
            event_time: self.event_time,
            instrument: self.instrument.clone(),
            strategy_id: self.strategy_id.clone(),
            notional: self.notional,
        }
    }
}

/// A market order derived from an allocation difference.
pub struct Order {
    pub event_time: u64,
    pub instrument: Instrument,
    pub strategy_id: String,
    pub quantity: Dec,
}

impl Order {
    /// A market order for `quantity` units.
    pub fn new_market(
        event_time: u64,
        instrument: Instrument,
        strategy_id: String,
        quantity: Dec,
    ) -> (r: Order)
        ensures
            r == (Order { event_time, instrument, strategy_id, quantity }),
    {
        Order { event_time, instrument, strategy_id, quantity }
    }
}

/// A held position in an instrument.
pub struct Position {
    pub instrument: Instrument,
    pub quantity: Dec,
}

impl Position {
    pub fn new(instrument: Instrument, quantity: Dec) -> (r: Position)
        ensures
            r == (Position { instrument, quantity }),
    {
        Position { instrument, quantity }
    }
}

impl Clone for Position {
    fn clone(&self) -> (r: Self)
        ensures
            r == *self,
    {
        Position { instrument: self.instrument.clone(), quantity: self.quantity }
    }
}

/// A portfolio-side notification that a position changed.
pub struct PositionUpdate {
    pub event_time: u64,
    pub instrument: Instrument,
    pub quantity: Dec,
}

/// A strategy signal: a weighted opinion on an instrument.
pub struct Signal {
    pub received_time: u64,
    pub event_time: u64,
    pub instrument: Instrument,
    pub strategy_id: String,
    pub signal: Dec,
}

} // verus!
