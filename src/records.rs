//! The records a run reads: closed trades and the featured open position.
//! Numeric fields arrive as decimal text and are read leniently.

use vstd::prelude::*;

verus! {

/// One closed trade. Amounts are fixed-point decimal text: collateral with 6
/// decimals, leverage with 2, prices, funding and rollover with 18.
#[derive(Clone, Debug, PartialEq, Eq)]
pub struct Trade {
    pub trader: String,
    pub is_buy: bool,
    pub collateral: String,
    pub leverage: String,
    pub open_price: String,
    pub close_price: String,
    pub timestamp: String,
    pub funding: String,
    pub rollover: String,
}

/// The open position shown beside the aggregate figures.
#[derive(Clone, Debug, PartialEq, Eq)]
pub struct FeaturedPosition {
    pub trader: String,
    pub trade_id: u64,
    pub pair_index: u32,
    pub is_buy: bool,
    pub leverage: String,
    pub collateral: String,
    pub entry_price: String,
    pub is_open: bool,
    pub timestamp: String,
}

/// Everything one run reads: the closed trades of a trader and the featured
/// position.
#[derive(Clone, Debug, PartialEq, Eq)]
pub struct ProofInput {
    pub trades: Vec<Trade>,
    pub featured: FeaturedPosition,
}

} // verus!
