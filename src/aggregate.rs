//! Reduction of a trader's closed trades to count, wins, profit and loss,
//! collateral and time range, in exact fixed-point integer arithmetic.

use vstd::prelude::*;
use vstd::arithmetic::div_mod::lemma_div_denominator;

use crate::parse::{address_of, decode_address, field_u128, field_u64, parse_u128, parse_u64, text_bytes};
use crate::records::Trade;

verus! {

/// The aggregate figures of one trader. Profit and collateral are in
/// micro-USDC (6 decimals); timestamps are seconds.
#[derive(Clone, Copy, Debug, PartialEq, Eq)]
pub struct AggregateResult {
    pub trader: [u8; 20],
    pub trade_count: u32,
    pub win_count: u32,
    pub total_pnl_micros: i64,
    pub total_collateral_micros: u64,
    pub start_timestamp: u64,
    pub end_timestamp: u64,
}

/// [`AggregateResult`] with its address as a sequence of bytes.
pub ghost struct AggregateView {
    pub trader: Seq<u8>,
    pub trade_count: u32,
    pub win_count: u32,
    pub total_pnl_micros: i64,
    pub total_collateral_micros: u64,
    pub start_timestamp: u64,
    pub end_timestamp: u64,
}

impl View for AggregateResult {
    type V = AggregateView;

    open spec fn view(&self) -> AggregateView {
        AggregateView {
            trader: self.trader@,
            trade_count: self.trade_count,
            win_count: self.win_count,
            total_pnl_micros: self.total_pnl_micros,
            total_collateral_micros: self.total_collateral_micros,
            start_timestamp: self.start_timestamp,
            end_timestamp: self.end_timestamp,
        }
    }
}

/// Funding and rollover carry 18 decimals; dividing by this gives micro-USDC.
pub const FEE_SCALE: u128 = 1_000_000_000_000;

/// The aggregation left the range of its fixed-width results.
#[derive(Clone, Copy, Debug, PartialEq, Eq)]
pub enum AggregateError {
    /// A trade's profit numerator needs more than 128 bits, a trade's profit
    /// or the total profit is outside `i64`, the total collateral is outside
    /// `u64`, or there are more trades than `u32` can count.
    ArithmeticOverflow,
}

/// How far the price moved in the position's favour: up for a long, down for
/// a short.
pub open spec fn price_move(is_buy: bool, open_price: int, close_price: int) -> int {
    if is_buy {
        close_price - open_price
    } else {
        open_price - close_price
    }
}

pub open spec fn abs(x: int) -> nat {
    if x < 0 {
        (-x) as nat
    } else {
        x as nat
    }
}

/// Integer division by a positive `d` that truncates toward zero.
pub open spec fn div_toward_zero(n: int, d: int) -> int {
    if n >= 0 {
        n / d
    } else {
        -((-n) / d)
    }
}

/// Profit before costs, in micro-USDC:
/// `collateral * leverage * move / (open_price * 100)`, truncated toward zero,
/// and zero when the open price is zero.
pub open spec fn gross_pnl(
    is_buy: bool,
    collateral: nat,
    leverage: nat,
    open_price: nat,
    close_price: nat,
) -> int {
    if open_price == 0 {
        0
    } else {
        div_toward_zero(
            collateral * leverage * price_move(is_buy, open_price as int, close_price as int),
            open_price * 100 as int,
        )
    }
}

/// The trading costs in micro-USDC: funding and rollover, each rescaled from
/// 18 decimals, counted as a cost whatever their sign.
pub open spec fn fee_micros(funding: nat, rollover: nat) -> nat {
    funding / (FEE_SCALE as nat) + rollover / (FEE_SCALE as nat)
}

/// A trade's profit in micro-USDC, costs subtracted.
pub open spec fn pnl_value(
    is_buy: bool,
    collateral: nat,
    leverage: nat,
    open_price: nat,
    close_price: nat,
    funding: nat,
    rollover: nat,
) -> int {
    gross_pnl(is_buy, collateral, leverage, open_price, close_price) - fee_micros(funding, rollover)
}

/// The profit of a trade can be computed: its numerator fits in 128 bits and
/// the profit itself in `i64`.
pub open spec fn pnl_in_range(
    is_buy: bool,
    collateral: nat,
    leverage: nat,
    open_price: nat,
    close_price: nat,
    funding: nat,
    rollover: nat,
) -> bool {
    &&& (open_price == 0 || collateral * leverage * abs(
        price_move(is_buy, open_price as int, close_price as int),
    )
        <= u128::MAX)
    &&& i64::MIN <= pnl_value(is_buy, collateral, leverage, open_price, close_price, funding, rollover)
        <= i64::MAX
}

proof fn lemma_product_bound(c: nat, l: nat, d: nat)
    requires
        d >= 1,
    ensures
        c * l <= c * l * d,
{
    assert(c * l <= c * l * d) by (nonlinear_arith)
        requires
            d >= 1,
    ;
}

proof fn lemma_fee_bound(funding: u128, rollover: u128)
    ensures
        fee_micros(funding as nat, rollover as nat) < 0x400_0000_0000_0000_0000_0000,
{
}

/// A trade's profit in micro-USDC, costs subtracted, or `None` where it is
/// out of range (see [`pnl_in_range`]). All amounts are fixed-point: collateral
/// with 6 decimals, leverage with 2, prices, funding and rollover with 18.
pub fn trade_pnl_micros(
    is_buy: bool,
    collateral: u128,
    leverage: u128,
    open_price: u128,
    close_price: u128,
    funding: u128,
    rollover: u128,
) -> (r: Option<i64>)
    ensures
        r == (if pnl_in_range(
            is_buy,
            collateral as nat,
            leverage as nat,
            open_price as nat,
            close_price as nat,
            funding as nat,
            rollover as nat,
        ) {
            Some(
                pnl_value(
                    is_buy,
                    collateral as nat,
                    leverage as nat,
                    open_price as nat,
                    close_price as nat,
                    funding as nat,
                    rollover as nat,
                ) as i64,
            )
        } else {
            None::<i64>
        }),
{
    let ghost c = collateral as nat;
    let ghost l = leverage as nat;
    let ghost o = open_price as nat;
    let ghost m = price_move(is_buy, open_price as int, close_price as int);
    let fee: u128 = funding / FEE_SCALE + rollover / FEE_SCALE;
    proof {
        lemma_fee_bound(funding, rollover);
    }
    // The gross profit as a sign and a magnitude.
    let mut gain = true;
    let mut quotient: u128 = 0;
    if open_price > 0 {
        let favourable = if is_buy {
            close_price >= open_price
        } else {
            open_price >= close_price
        };
        let diff: u128 = if is_buy == favourable {
            close_price - open_price
        } else {
            open_price - close_price
        };
        let ghost d = diff as nat;
        assert(d == abs(m));
        gain = favourable;
        if diff > 0 {
            let scaled = match collateral.checked_mul(leverage) {
                Some(cl) => cl.checked_mul(diff),
                None => {
                    proof {
                        lemma_product_bound(c, l, d);
                    }
                    None
                },
            };
            match scaled {
                None => {
                    return None;
                },
                Some(n) => {
                    quotient = n / open_price / 100;
                    proof {
                        lemma_div_denominator(n as int, o as int, 100);
                        if favourable {
                            assert(c * l * m == n);
                        } else {
                            assert(c * l * m == -(n as int)) by (nonlinear_arith)
                                requires
                                    m == -(d as int),
                                    n == c * l * d,
                            ;
                            assert(c * l * m <= 0) by (nonlinear_arith)
                                requires
                                    m == -(d as int),
                            ;
                        }
                    }
                },
            }
        } else {
            assert(c * l * m == 0) by (nonlinear_arith)
                requires
                    m == 0,
            ;
        }
    }
    assert(gross_pnl(is_buy, c, l, o, close_price as nat) == if gain {
        quotient as int
    } else {
        -(quotient as int)
    });
    if quotient > 0x1_0000_0000_0000_0000_0000_0000 {
        return None;
    }
    let gross: i128 = if gain {
        quotient as i128
    } else {
        -(quotient as i128)
    };
    let net: i128 = gross - fee as i128;
    if net < i64::MIN as i128 || net > i64::MAX as i128 {
        return None;
    }
    Some(net as i64)
}

/// The profit of one trade record, its numeric fields read leniently.
pub open spec fn trade_pnl(t: Trade) -> int {
    pnl_value(
        t.is_buy,
        field_u128(t.collateral@),
        field_u128(t.leverage@),
        field_u128(t.open_price@),
        field_u128(t.close_price@),
        field_u128(t.funding@),
        field_u128(t.rollover@),
    )
}

pub open spec fn trade_in_range(t: Trade) -> bool {
    pnl_in_range(
        t.is_buy,
        field_u128(t.collateral@),
        field_u128(t.leverage@),
        field_u128(t.open_price@),
        field_u128(t.close_price@),
        field_u128(t.funding@),
        field_u128(t.rollover@),
    )
}

/// The collateral that a trade adds to the total: its low 64 bits.
pub open spec fn trade_collateral(t: Trade) -> nat {
    field_u128(t.collateral@) % 0x1_0000_0000_0000_0000
}

pub open spec fn trade_timestamp(t: Trade) -> nat {
    field_u64(t.timestamp@)
}

pub open spec fn total_pnl(s: Seq<Trade>) -> int
    decreases s.len(),
{
    if s.len() == 0 {
        0
    } else {
        total_pnl(s.drop_last()) + trade_pnl(s.last())
    }
}

pub open spec fn total_collateral(s: Seq<Trade>) -> nat
    decreases s.len(),
{
    if s.len() == 0 {
        0
    } else {
        total_collateral(s.drop_last()) + trade_collateral(s.last())
    }
}

/// The number of trades whose profit is strictly positive.
pub open spec fn wins(s: Seq<Trade>) -> nat
    decreases s.len(),
{
    if s.len() == 0 {
        0
    } else {
        wins(s.drop_last()) + if trade_pnl(s.last()) > 0 {
            1nat
        } else {
            0nat
        }
    }
}

/// The least timestamp of the trades, `u64::MAX` for none.
pub open spec fn min_timestamp(s: Seq<Trade>) -> nat
    decreases s.len(),
{
    if s.len() == 0 {
        u64::MAX as nat
    } else if trade_timestamp(s.last()) < min_timestamp(s.drop_last()) {
        trade_timestamp(s.last())
    } else {
        min_timestamp(s.drop_last())
    }
}

/// The greatest timestamp of the trades, zero for none.
pub open spec fn max_timestamp(s: Seq<Trade>) -> nat
    decreases s.len(),
{
    if s.len() == 0 {
        0
    } else if trade_timestamp(s.last()) > max_timestamp(s.drop_last()) {
        trade_timestamp(s.last())
    } else {
        max_timestamp(s.drop_last())
    }
}

/// The trades can be aggregated without leaving any fixed-width range.
pub open spec fn aggregate_in_range(s: Seq<Trade>) -> bool {
    &&& s.len() <= u32::MAX
    &&& forall|i: int| 0 <= i < s.len() ==> trade_in_range(#[trigger] s[i])
    &&& i64::MIN <= total_pnl(s) <= i64::MAX
    &&& total_collateral(s) <= u64::MAX
}

/// The address that is all zero bytes.
pub open spec fn zero_address() -> Seq<u8> {
    Seq::new(20, |i: int| 0u8)
}

/// The aggregate of the trades `s`. The trader is the address of the first
/// trade, or `fallback` when there is none; the time range is zero to zero
/// when there is none.
pub open spec fn aggregate_of(s: Seq<Trade>, fallback: Seq<u8>) -> AggregateView {
    AggregateView {
        trader: if s.len() == 0 {
            fallback
        } else {
            address_of(text_bytes(s[0].trader@))
        },
        trade_count: s.len() as u32,
        win_count: wins(s) as u32,
        total_pnl_micros: total_pnl(s) as i64,
        total_collateral_micros: total_collateral(s) as u64,
        start_timestamp: if s.len() == 0 {
            0
        } else {
            min_timestamp(s) as u64
        },
        end_timestamp: max_timestamp(s) as u64,
    }
}

/// There are never more winning trades than trades.
pub proof fn lemma_wins_le_count(s: Seq<Trade>)
    ensures
        wins(s) <= s.len(),
    decreases s.len(),
{
    if s.len() > 0 {
        lemma_wins_le_count(s.drop_last());
    }
}

/// A trade opened at price zero makes no gross profit, whatever its other
/// fields; when it also carries no funding or rollover cost, it adds nothing
/// to the total profit and is no win.
pub proof fn lemma_zero_open_price(t: Trade)
    requires
        field_u128(t.open_price@) == 0,
    ensures
        gross_pnl(
            t.is_buy,
            field_u128(t.collateral@),
            field_u128(t.leverage@),
            0,
            field_u128(t.close_price@),
        ) == 0,
        fee_micros(field_u128(t.funding@), field_u128(t.rollover@)) == 0 ==> {
            &&& aggregate_in_range(seq![t])
            &&& total_pnl(seq![t]) == 0
            &&& wins(seq![t]) == 0
        },
{
    let s = seq![t];
    assert(s.drop_last() =~= Seq::<Trade>::empty());
    assert(s.last() == t);
    let e = s.drop_last();
    assert(total_collateral(e) == 0 && total_pnl(e) == 0 && wins(e) == 0);
    assert(total_collateral(s) == trade_collateral(t));
    if fee_micros(field_u128(t.funding@), field_u128(t.rollover@)) == 0 {
        assert(trade_pnl(t) == 0);
        assert forall|i: int| 0 <= i < s.len() implies trade_in_range(#[trigger] s[i]) by {
            assert(s[i] == t);
        }
    }
}

proof fn lemma_timestamps_fit(s: Seq<Trade>)
    ensures
        min_timestamp(s) <= u64::MAX,
        max_timestamp(s) <= u64::MAX,
    decreases s.len(),
{
    if s.len() > 0 {
        lemma_timestamps_fit(s.drop_last());
    }
}

/// Aggregates `trades` in order, with `fallback` as the trader when there are
/// none.
pub fn aggregate_with_fallback(trades: &Vec<Trade>, fallback: &[u8; 20]) -> (r: Result<
    AggregateResult,
    AggregateError,
>)
    ensures
        aggregate_in_range(trades@) <==> r is Ok,
        r matches Ok(a) ==> a@ == aggregate_of(trades@, fallback@),
{
    let n = trades.len();
    if n > u32::MAX as usize {
        return Err(AggregateError::ArithmeticOverflow);
    }
    let ghost s = trades@;
    let mut trader: [u8; 20] = *fallback;
    let mut trade_count: u32 = 0;
    let mut win_count: u32 = 0;
    let mut pnl_total: i128 = 0;
    let mut collateral_total: u128 = 0;
    let mut start_timestamp: u64 = u64::MAX;
    let mut end_timestamp: u64 = 0;
    let mut i: usize = 0;
    while i < n
        invariant
            n == s.len(),
            s == trades@,
            n <= u32::MAX,
            i <= n,
            trade_count == i,
            win_count == wins(s.subrange(0, i as int)),
            wins(s.subrange(0, i as int)) <= i,
            pnl_total == total_pnl(s.subrange(0, i as int)),
            -(i as int) * 0x8000_0000_0000_0000 <= pnl_total <= (i as int) * 0x8000_0000_0000_0000,
            collateral_total == total_collateral(s.subrange(0, i as int)),
            collateral_total <= (i as int) * 0x1_0000_0000_0000_0000,
            start_timestamp == min_timestamp(s.subrange(0, i as int)),
            end_timestamp == max_timestamp(s.subrange(0, i as int)),
            forall|j: int| 0 <= j < i ==> trade_in_range(#[trigger] s[j]),
            trader@ == (if i == 0 {
                fallback@
            } else {
                address_of(text_bytes(s[0].trader@))
            }),
        decreases n - i,
    {
        let t = &trades[i];
        if i == 0 {
            trader = decode_address(t.trader.as_str());
        }
        let collateral = parse_u128(t.collateral.as_str());
        let pnl = trade_pnl_micros(
            t.is_buy,
            collateral,
            parse_u128(t.leverage.as_str()),
            parse_u128(t.open_price.as_str()),
            parse_u128(t.close_price.as_str()),
            parse_u128(t.funding.as_str()),
            parse_u128(t.rollover.as_str()),
        );
        let ghost prefix = s.subrange(0, i + 1);
        assert(prefix.drop_last() =~= s.subrange(0, i as int));
        assert(prefix.last() == s[i as int]);
        let p = match pnl {
            Some(p) => p,
            None => {
                assert(!trade_in_range(s[i as int]));
                return Err(AggregateError::ArithmeticOverflow);
            },
        };
        trade_count = trade_count + 1;
        collateral_total = collateral_total + collateral % 0x1_0000_0000_0000_0000;
        pnl_total = pnl_total + p as i128;
        if p > 0 {
            win_count = win_count + 1;
        }
        let ts = parse_u64(t.timestamp.as_str());
        if ts < start_timestamp {
            start_timestamp = ts;
        }
        if ts > end_timestamp {
            end_timestamp = ts;
        }
        i = i + 1;
    }
    assert(s.subrange(0, n as int) =~= s);
    if pnl_total < i64::MIN as i128 || pnl_total > i64::MAX as i128 || collateral_total
        > u64::MAX as u128 {
        return Err(AggregateError::ArithmeticOverflow);
    }
    if n == 0 {
        start_timestamp = 0;
    }
    proof {
        lemma_timestamps_fit(s);
    }
    Ok(
        AggregateResult {
            trader,
            trade_count,
            win_count,
            total_pnl_micros: pnl_total as i64,
            total_collateral_micros: collateral_total as u64,
            start_timestamp,
            end_timestamp,
        },
    )
}

/// Aggregates a trader's closed trades, in order. Every record counts; a
/// numeric field that does not read as a number counts as zero. With no
/// trades, every figure is zero and so is the trader's address.
pub fn aggregate(trades: &Vec<Trade>) -> (r: Result<AggregateResult, AggregateError>)
    ensures
        aggregate_in_range(trades@) <==> r is Ok,
        r matches Ok(a) ==> a@ == aggregate_of(trades@, zero_address()),
        r matches Ok(a) ==> a.trade_count == trades@.len() && a.win_count <= a.trade_count,
        trades@.len() == 0 ==> (r matches Ok(a) && a@ == AggregateView {
            trader: zero_address(),
            trade_count: 0,
            win_count: 0,
            total_pnl_micros: 0,
            total_collateral_micros: 0,
            start_timestamp: 0,
            end_timestamp: 0,
        }),
{
    let zero = [0u8; 20];
    assert(zero@ =~= zero_address());
    let r = aggregate_with_fallback(trades, &zero);
    proof {
        lemma_wins_le_count(trades@);
    }
    r
}

} // verus!
