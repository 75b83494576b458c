//! The featured position, transcribed field by field into fixed-width values.

use vstd::prelude::*;

use crate::parse::{field_u128, field_u64, parse_u128, parse_u64};
use crate::records::FeaturedPosition;

verus! {

/// The featured position as committed: leverage in hundredths, collateral in
/// micro-USDC, entry price with 18 decimals.
#[derive(Clone, Copy, Debug, PartialEq, Eq)]
pub struct FeaturedResult {
    pub trade_id: u64,
    pub pair_index: u32,
    pub is_buy: bool,
    pub leverage_hundredths: u32,
    pub collateral_micros: u64,
    pub entry_price: u128,
    pub is_open: bool,
    pub timestamp: u64,
}

/// The featured position as committed. Leverage keeps the low 32 bits and
/// collateral the low 64 bits of what their text reads as.
pub open spec fn featured_of(p: FeaturedPosition) -> FeaturedResult {
    FeaturedResult {
        trade_id: p.trade_id,
        pair_index: p.pair_index,
        is_buy: p.is_buy,
        leverage_hundredths: (field_u128(p.leverage@) % 0x1_0000_0000) as u32,
        collateral_micros: (field_u128(p.collateral@) % 0x1_0000_0000_0000_0000) as u64,
        entry_price: field_u128(p.entry_price@) as u128,
        is_open: p.is_open,
        timestamp: field_u64(p.timestamp@) as u64,
    }
}

/// Transcribes the featured position field by field; text that does not read
/// as a number gives zero.
pub fn summarize_featured(p: &FeaturedPosition) -> (r: FeaturedResult)
    ensures
        r == featured_of(*p),
{
    FeaturedResult {
        trade_id: p.trade_id,
        pair_index: p.pair_index,
        is_buy: p.is_buy,
        leverage_hundredths: (parse_u128(p.leverage.as_str()) % 0x1_0000_0000) as u32,
        collateral_micros: (parse_u128(p.collateral.as_str()) % 0x1_0000_0000_0000_0000) as u64,
        entry_price: parse_u128(p.entry_price.as_str()),
        is_open: p.is_open,
        timestamp: parse_u64(p.timestamp.as_str()),
    }
}

} // verus!
