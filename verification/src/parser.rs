//! Venue-specific symbol parsing: the part of ingestion that is pure
//! computation on strings.

use vstd::prelude::*;
use vstd::string::*;

use crate::models::{Instrument, InstrumentType, Venue};

verus! {

/// Parses venue symbols into instruments.
pub struct BinanceParser {}

impl BinanceParser {
    /// Split a perpetual-swap symbol into base and quote: the last four
    /// characters are the quote asset.
    pub fn parse_instrument(instrument: &str) -> (r: Instrument)
        requires
            instrument.is_ascii(),
            instrument@.len() >= 4,
        ensures
            r.instrument_type == InstrumentType::Perpetual,
            r.venue == Venue::Binance,
            r.base@ == instrument@.subrange(0, instrument@.len() - 4),
            r.quote@ == instrument@.subrange(instrument@.len() - 4, instrument@.len() as int),
            r.maturity is None,
            r.strike is None,
            r.option_type is None,
    {
        let n = instrument.unicode_len();
        let base = instrument.substring_ascii(0, n - 4);
        let quote = instrument.substring_ascii(n - 4, n);
        Instrument::perpetual(
            Venue::Binance,
            String::from_str(base),
            String::from_str(quote),
        )
    }
}

} // verus!
