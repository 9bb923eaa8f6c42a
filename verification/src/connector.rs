//! Market data as an exchange sends it.
use vstd::prelude::*;

use crate::types::{Level, Price, Qty};

verus! {

/// A market data message of an exchange, with its decimals scaled to integers.
#[allow(inconsistent_fields)]
#[derive(Debug)]
pub enum RawFeedMessage {
    OrderBookSnapshot { symbol: String, bids: Vec<Level>, asks: Vec<Level>, timestamp: u64 },
    OrderBookDelta { symbol: String, bids: Vec<Level>, asks: Vec<Level>, timestamp: u64 },
    Trade { symbol: String, price: Price, qty: Qty, is_buy: bool, timestamp: u64 },
}

} // verus!
