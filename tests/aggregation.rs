use ostium_trader_proof::{
    aggregate, aggregate_with_fallback, compute_results, summarize_featured, trade_pnl_micros,
    AggregateError, FeaturedPosition, ProofInput, Trade,
};

const ADDR: &str = "0x00112233445566778899aabbccddeeff01234567";

fn trade(is_buy: bool, collateral: &str, leverage: &str, open: &str, close: &str, ts: &str) -> Trade {
    Trade {
        trader: ADDR.to_string(),
        is_buy,
        collateral: collateral.to_string(),
        leverage: leverage.to_string(),
        open_price: open.to_string(),
        close_price: close.to_string(),
        timestamp: ts.to_string(),
        funding: "0".to_string(),
        rollover: "0".to_string(),
    }
}

fn featured(trader: &str) -> FeaturedPosition {
    FeaturedPosition {
        trader: trader.to_string(),
        trade_id: 42,
        pair_index: 3,
        is_buy: true,
        leverage: "500".to_string(),
        collateral: "250000000".to_string(),
        entry_price: "65000000000000000000000".to_string(),
        is_open: true,
        timestamp: "1700000500".to_string(),
    }
}

#[test]
fn pnl_of_one_percent_move_at_fifty_times() {
    let p = trade_pnl_micros(
        true,
        100_000000,
        5000,
        1_000000000000000000,
        1_010000000000000000,
        0,
        0,
    );
    assert_eq!(p, Some(50_000000));
}

#[test]
fn pnl_of_short_position() {
    // Short at 2.0, closed at 2.2: a 10% adverse move at 10x on 10 USDC.
    let p = trade_pnl_micros(
        false,
        10_000000,
        1000,
        2_000000000000000000,
        2_200000000000000000,
        0,
        0,
    );
    assert_eq!(p, Some(-10_000000));
    let q = trade_pnl_micros(
        false,
        10_000000,
        1000,
        2_200000000000000000,
        2_000000000000000000,
        0,
        0,
    );
    // 10 * 10 * (0.2 / 2.2) = 9.0909... USDC, truncated.
    assert_eq!(q, Some(9_090909));
}

#[test]
fn pnl_truncates_toward_zero() {
    // 1 * 100 * (-1) / (3 * 100) = -1/3, which truncates to 0, not -1.
    assert_eq!(trade_pnl_micros(true, 1, 100, 3, 2, 0, 0), Some(0));
    // 2 * 100 * (-2) / (3 * 100) = -4/3, which truncates to -1.
    assert_eq!(trade_pnl_micros(true, 2, 100, 3, 1, 0, 0), Some(-1));
}

#[test]
fn pnl_zero_open_price_is_zero() {
    assert_eq!(trade_pnl_micros(true, 100_000000, 5000, 0, 1_010000000000000000, 0, 0), Some(0));
    assert_eq!(trade_pnl_micros(false, u128::MAX, u128::MAX, 0, u128::MAX, 0, 0), Some(0));
}

#[test]
fn pnl_fees_are_always_costs() {
    // funding 2.5 and rollover 0.75 USDC, in 18 decimals.
    let p = trade_pnl_micros(
        true,
        100_000000,
        5000,
        1_000000000000000000,
        1_010000000000000000,
        2_500000000000000000,
        750000000000000000,
    );
    assert_eq!(p, Some(50_000000 - 2_500000 - 750000));
    // Funding below one micro-USDC is dropped by the rescaling.
    assert_eq!(trade_pnl_micros(true, 0, 0, 1, 1, 999_999_999_999, 0), Some(0));
    assert_eq!(trade_pnl_micros(true, 0, 0, 1, 1, 1_000_000_000_000, 0), Some(-1));
}

#[test]
fn pnl_overflow_is_reported() {
    assert_eq!(trade_pnl_micros(true, u128::MAX, 2, 1, 2, 0, 0), None);
    // Fits in 128 bits but not in i64.
    assert_eq!(trade_pnl_micros(true, 1u128 << 70, 100, 1, 2, 0, 0), None);
}

#[test]
fn one_winning_buy_trade() {
    let trades = vec![trade(
        true,
        "100000000",
        "5000",
        "1000000000000000000",
        "1010000000000000000",
        "1700000000",
    )];
    let a = aggregate(&trades).unwrap();
    assert_eq!(a.trade_count, 1);
    assert_eq!(a.win_count, 1);
    assert_eq!(a.total_pnl_micros, 50_000000);
    assert_eq!(a.total_collateral_micros, 100_000000);
    assert_eq!(a.start_timestamp, 1_700_000_000);
    assert_eq!(a.end_timestamp, 1_700_000_000);
    assert_eq!(a.trader[0], 0x00);
    assert_eq!(a.trader[1], 0x11);
    assert_eq!(a.trader[19], 0x67);
}

#[test]
fn empty_trades_give_zero_aggregate() {
    let a = aggregate(&Vec::new()).unwrap();
    assert_eq!(a.trade_count, 0);
    assert_eq!(a.win_count, 0);
    assert_eq!(a.total_pnl_micros, 0);
    assert_eq!(a.total_collateral_micros, 0);
    assert_eq!(a.start_timestamp, 0);
    assert_eq!(a.end_timestamp, 0);
    assert_eq!(a.trader, [0u8; 20]);
}

#[test]
fn empty_trades_take_featured_trader() {
    let input = ProofInput { trades: Vec::new(), featured: featured("0xffeeddccbbaa99887766554433221100fedcba98") };
    let (a, f) = compute_results(&input).unwrap();
    assert_eq!(a.trade_count, 0);
    assert_eq!(a.start_timestamp, 0);
    assert_eq!(a.end_timestamp, 0);
    assert_eq!(a.trader[0], 0xff);
    assert_eq!(a.trader[19], 0x98);
    assert_eq!(f.trade_id, 42);
}

#[test]
fn fallback_trader_only_when_empty() {
    let fallback = [7u8; 20];
    let empty = aggregate_with_fallback(&Vec::new(), &fallback).unwrap();
    assert_eq!(empty.trader, fallback);
    let trades = vec![trade(true, "1", "1", "1", "1", "5")];
    let a = aggregate_with_fallback(&trades, &fallback).unwrap();
    assert_eq!(a.trader[1], 0x11);
}

#[test]
fn counts_wins_and_time_range() {
    let trades = vec![
        trade(true, "100000000", "1000", "1000000000000000000", "1100000000000000000", "1700000300"),
        trade(false, "100000000", "1000", "1000000000000000000", "1100000000000000000", "1700000100"),
        trade(true, "100000000", "1000", "1000000000000000000", "1000000000000000000", "1700000900"),
        trade(true, "50000000", "200", "2000000000000000000", "3000000000000000000", "1700000500"),
    ];
    let a = aggregate(&trades).unwrap();
    assert_eq!(a.trade_count, 4);
    // +100, -100, 0 (no win), +50
    assert_eq!(a.win_count, 2);
    assert!(a.win_count <= a.trade_count);
    assert_eq!(a.total_pnl_micros, 50_000000);
    assert_eq!(a.total_collateral_micros, 350_000000);
    assert_eq!(a.start_timestamp, 1_700_000_100);
    assert_eq!(a.end_timestamp, 1_700_000_900);
}

#[test]
fn first_trade_sets_trader() {
    let mut second = trade(true, "1", "1", "1", "1", "5");
    second.trader = "0xffffffffffffffffffffffffffffffffffffffff".to_string();
    let trades = vec![trade(true, "1", "1", "1", "1", "5"), second];
    let a = aggregate(&trades).unwrap();
    assert_eq!(a.trader[0], 0x00);
    assert_eq!(a.trader[1], 0x11);
}

#[test]
fn zero_open_price_trade_adds_no_profit() {
    let trades = vec![trade(true, "100000000", "5000", "0", "1010000000000000000", "10")];
    let a = aggregate(&trades).unwrap();
    assert_eq!(a.trade_count, 1);
    assert_eq!(a.win_count, 0);
    assert_eq!(a.total_pnl_micros, 0);
    assert_eq!(a.total_collateral_micros, 100_000000);
}

#[test]
fn malformed_fields_count_as_zero() {
    let mut t = trade(true, "12x", "5000", "1000000000000000000", "1010000000000000000", "soon");
    t.trader = "0xnot-hex".to_string();
    let trades = vec![t];
    let a = aggregate(&trades).unwrap();
    assert_eq!(a.trade_count, 1);
    assert_eq!(a.win_count, 0);
    assert_eq!(a.total_pnl_micros, 0);
    assert_eq!(a.total_collateral_micros, 0);
    assert_eq!(a.start_timestamp, 0);
    assert_eq!(a.end_timestamp, 0);
    assert_eq!(a.trader, [0u8; 20]);
}

#[test]
fn collateral_keeps_low_64_bits() {
    // 2^64 + 5 adds 5 to the collateral total.
    let trades = vec![trade(true, "18446744073709551621", "0", "0", "0", "1")];
    let a = aggregate(&trades).unwrap();
    assert_eq!(a.total_collateral_micros, 5);
}

#[test]
fn collateral_total_overflow_is_reported() {
    let trades = vec![
        trade(true, "18446744073709551615", "0", "0", "0", "1"),
        trade(true, "1", "0", "0", "0", "1"),
    ];
    assert_eq!(aggregate(&trades), Err(AggregateError::ArithmeticOverflow));
}

#[test]
fn profit_total_overflow_is_reported() {
    // Each trade makes 2^62 micro-USDC; two of them pass i64::MAX.
    let big = (1u128 << 62).to_string();
    let trades = vec![
        trade(true, &big, "100", "1", "2", "1"),
        trade(true, &big, "100", "1", "2", "1"),
    ];
    assert_eq!(aggregate(&trades), Err(AggregateError::ArithmeticOverflow));
    let one = vec![trade(true, &big, "100", "1", "2", "1")];
    assert_eq!(aggregate(&one).unwrap().total_pnl_micros, 1i64 << 62);
}

#[test]
fn trade_overflow_is_reported() {
    let trades = vec![trade(true, "340282366920938463463374607431768211455", "2", "1", "2", "1")];
    assert_eq!(aggregate(&trades), Err(AggregateError::ArithmeticOverflow));
}

#[test]
fn featured_fields_are_transcribed() {
    let f = summarize_featured(&featured(ADDR));
    assert_eq!(f.trade_id, 42);
    assert_eq!(f.pair_index, 3);
    assert!(f.is_buy);
    assert_eq!(f.leverage_hundredths, 500);
    assert_eq!(f.collateral_micros, 250_000000);
    assert_eq!(f.entry_price, 65_000_000_000_000_000_000_000);
    assert!(f.is_open);
    assert_eq!(f.timestamp, 1_700_000_500);
}

#[test]
fn featured_wide_values_keep_low_bits() {
    let mut p = featured(ADDR);
    p.leverage = "4294967301".to_string();
    p.collateral = "18446744073709551617".to_string();
    p.entry_price = "bad".to_string();
    p.timestamp = "18446744073709551616".to_string();
    let f = summarize_featured(&p);
    assert_eq!(f.leverage_hundredths, 5);
    assert_eq!(f.collateral_micros, 1);
    assert_eq!(f.entry_price, 0);
    assert_eq!(f.timestamp, 0);
}
