//! What the exchange streams.

use vstd::prelude::*;

verus! {

/// The book as it is streamed: prices and quantities, bid and asked.
#[derive(Clone, Debug)]
pub struct DepthUpdate {
    pub bids: Vec<[String; 2]>,
    pub asks: Vec<[String; 2]>,
}

/// A trade that took place: its price, its quantity, and whether the buyer's order was the one that
/// was waiting.
#[derive(Clone, Debug)]
pub struct AggTradeUpdate {
    pub price: String,
    pub qty: String,
    pub is_buyer_maker: bool,
}

} // verus!
