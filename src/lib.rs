//! Verified trading-performance statistics for one trader and one featured
//! position, with the fixed big-endian layout in which they are committed.

mod aggregate;
mod commitment;
mod featured;
mod layout;
mod parse;
mod records;

pub use aggregate::{aggregate, aggregate_with_fallback, trade_pnl_micros, AggregateError, AggregateResult};
pub use commitment::{compute_public_values, compute_results};
pub use featured::{summarize_featured, FeaturedResult};
pub use layout::{
    decode_aggregate, decode_public_values, encode_aggregate, encode_public_values, trader_hex,
    DecodeError, AGGREGATE_LEN, PUBLIC_VALUES_LEN,
};
pub use parse::{decode_address, parse_u128, parse_u64};
pub use records::{FeaturedPosition, ProofInput, Trade};
