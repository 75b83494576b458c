//! One run: the trades and the featured position in, the committed bytes out.

use vstd::prelude::*;

use crate::aggregate::{
    aggregate_of, aggregate_in_range, aggregate_with_fallback, AggregateError, AggregateResult,
    AggregateView,
};
use crate::featured::{featured_of, summarize_featured, FeaturedResult};
use crate::layout::{encode_public_values, public_values_bytes, PUBLIC_VALUES_LEN};
use crate::parse::{address_of, decode_address, text_bytes};
use crate::records::ProofInput;

verus! {

/// Aggregates the trades and transcribes the featured position. With no
/// trades, the aggregate's trader is the featured position's trader.
pub fn compute_results(input: &ProofInput) -> (r: Result<(AggregateResult, FeaturedResult), AggregateError>)
    ensures
        aggregate_in_range(input.trades@) <==> r is Ok,
        r matches Ok((a, f)) ==> a@ == aggregate_of(
            input.trades@,
            address_of(text_bytes(input.featured.trader@)),
        ) && f == featured_of(input.featured),
        input.trades@.len() == 0 ==> (r matches Ok((a, f)) && a@ == AggregateView {
            trader: address_of(text_bytes(input.featured.trader@)),
            trade_count: 0,
            win_count: 0,
            total_pnl_micros: 0,
            total_collateral_micros: 0,
            start_timestamp: 0,
            end_timestamp: 0,
        }),
{
    let fallback = decode_address(input.featured.trader.as_str());
    let featured = summarize_featured(&input.featured);
    match aggregate_with_fallback(&input.trades, &fallback) {
        Ok(aggregate) => Ok((aggregate, featured)),
        Err(e) => Err(e),
    }
}

/// The 110 bytes that a run commits for `input`.
pub fn compute_public_values(input: &ProofInput) -> (r: Result<Vec<u8>, AggregateError>)
    ensures
        aggregate_in_range(input.trades@) <==> r is Ok,
        r matches Ok(bytes) ==> bytes@ == public_values_bytes(
            aggregate_of(input.trades@, address_of(text_bytes(input.featured.trader@))),
            featured_of(input.featured),
        ) && bytes@.len() == PUBLIC_VALUES_LEN,
{
    match compute_results(input) {
        Ok((aggregate, featured)) => Ok(encode_public_values(&aggregate, &featured)),
        Err(e) => Err(e),
    }
}

} // verus!
