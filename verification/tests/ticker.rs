//! Tests for the tick history and its derived statistics.
use tickgate::dec::Dec;
use tickgate::middleware::ticker::{Ticker, TickerStats, calculate_zscore_last, mean, std_dev};

fn tick(bid_units: i64, ask_units: i64, recived_at: Option<i64>) -> Ticker {
    Ticker {
        symbol: "USDJPY".to_string(),
        bid: Dec::new(bid_units),
        ask: Dec::new(ask_units),
        flag: Some(0),
        side: Some(0),
        server_at: recived_at,
        recived_at,
        diff_micros: Some(0),
    }
}

#[test]
fn test_ticker_stats() {
    let tickers = vec![
        tick(110_000_000, 110_100_000, Some(0)),
        tick(110_100_000, 110_200_000, Some(10)),
    ];

    let ts = TickerStats::from(tickers);

    assert_eq!(ts.len(), 2);
    assert_eq!(ts.last().unwrap().symbol, "USDJPY");
    // mid() is the smoothed reference: the average of the two mids
    // 110.05 and 110.15.
    assert_eq!(ts.mid(), Some(Dec::new(110_100_000)));
}

#[test]
fn test_tick_mid() {
    let t = tick(110_000_000, 110_100_000, None);
    assert_eq!(t.mid(), Dec::new(110_050_000));
}

#[test]
fn test_tick_flag_default_zero() {
    let mut t = tick(1, 1, None);
    t.flag = None;
    assert_eq!(t.flag(), 0);
    t.flag = Some(7);
    assert_eq!(t.flag(), 7);
}

#[test]
fn test_push_and_last() {
    let mut ts = TickerStats::new();
    assert!(ts.is_empty());
    assert!(ts.last().is_none());
    ts.push(tick(1_000_000, 2_000_000, Some(5)));
    assert_eq!(ts.len(), 1);
    assert!(!ts.is_empty());
    assert_eq!(ts.last().unwrap().recived_at, Some(5));
}

#[test]
fn test_mid_empty_is_none() {
    let ts = TickerStats::new();
    assert_eq!(ts.mid(), None);
}

#[test]
fn test_filter_micros_newest_older_entry() {
    let mut ts = TickerStats::new();
    ts.push(tick(1_000_000, 1_000_000, Some(0)));
    ts.push(tick(2_000_000, 2_000_000, Some(400)));
    ts.push(tick(3_000_000, 3_000_000, Some(800)));
    ts.push(tick(4_000_000, 4_000_000, Some(1_000)));
    // Entries older than 300us relative to the newest (t=1000): those at
    // t=0 and t=400; the newest of them is t=400.
    let found = ts.filter_micros(300).unwrap();
    assert_eq!(found.recived_at, Some(400));
    // Nothing is older than 1500us.
    assert!(ts.filter_micros(1_500).is_none());
}

#[test]
fn test_filter_micros_empty_and_unstamped() {
    let ts = TickerStats::new();
    assert!(ts.filter_micros(0).is_none());
    let mut ts2 = TickerStats::new();
    ts2.push(tick(1, 1, None));
    ts2.push(tick(1, 1, None));
    assert!(ts2.filter_micros(0).is_none());
}

#[test]
fn test_diff_no_old_entry_is_zero() {
    let mut ts = TickerStats::new();
    ts.push(tick(110_000_000, 110_100_000, Some(0)));
    // One entry: nothing older than the newest.
    assert_eq!(ts.diff(1), Dec::zero());
    // Too-young history.
    ts.push(tick(120_000_000, 120_100_000, Some(50)));
    assert_eq!(ts.diff(1_000), Dec::zero());
}

#[test]
fn test_diff_zero_when_mids_equal() {
    // A qualifying old entry exists but the mids are numerically equal:
    // the drift is exactly zero.
    let mut ts = TickerStats::new();
    ts.push(tick(110_000_000, 110_100_000, Some(0)));
    ts.push(tick(110_000_000, 110_100_000, Some(1_000_000)));
    assert_eq!(ts.diff(500_000), Dec::zero());
}

#[test]
fn scenario_diff_after_jump() {
    // Constant 110.00/110.10 for the full history, then one tick at
    // 110.50/110.60: the drift over a lookback covering all prior ticks
    // is exactly +0.50.
    let mut ts = TickerStats::new();
    for i in 0..5i64 {
        ts.push(tick(110_000_000, 110_100_000, Some(i * 10_000)));
    }
    ts.push(tick(110_500_000, 110_600_000, Some(100_000)));
    let d = ts.diff(10_000);
    assert_eq!(d, Dec::new(500_000));
}

#[test]
fn scenario_single_tick_history() {
    // A history of exactly one tick: mid() equals that tick's mid,
    // the z-score is zero, and the drift is zero for any lookback.
    let mut ts = TickerStats::new();
    ts.push(tick(110_000_000, 110_100_000, Some(77)));
    assert_eq!(ts.mid(), Some(Dec::new(110_050_000)));
    assert_eq!(ts.zscore("bid"), Ok(Dec::zero()));
    assert_eq!(ts.zscore("ask"), Ok(Dec::zero()));
    assert_eq!(ts.diff(0), Dec::zero());
    assert_eq!(ts.diff(1_000_000), Dec::zero());
}

#[test]
fn test_zscore_short_history_is_zero() {
    let ts = TickerStats::new();
    assert_eq!(ts.zscore("bid"), Ok(Dec::zero()));
    let mut one = TickerStats::new();
    one.push(tick(1_000_000, 2_000_000, Some(0)));
    assert_eq!(one.zscore("ask"), Ok(Dec::zero()));
}

#[test]
fn test_zscore_constant_history_is_zero() {
    // A flat market: the deviation is zero and the z-score is defined as
    // exactly zero, never a division failure.
    let mut ts = TickerStats::new();
    ts.push(tick(110_000_000, 110_100_000, Some(0)));
    ts.push(tick(110_000_000, 110_100_000, Some(1)));
    ts.push(tick(110_000_000, 110_100_000, Some(2)));
    assert_eq!(ts.zscore("bid"), Ok(Dec::zero()));
    assert_eq!(ts.zscore("ask"), Ok(Dec::zero()));
}

#[test]
fn test_zscore_near_constant_history_is_zero() {
    // Values so close that the floored integer variance is zero: bids of
    // 0, 0 and 1 units. Defined as zero, like the flat case.
    let data = vec![
        tick(0, 5_000_000, Some(0)),
        tick(0, 5_000_000, Some(1)),
        tick(1, 5_000_000, Some(2)),
    ];
    assert_eq!(calculate_zscore_last(&data, "bid"), Ok(Dec::zero()));
}

#[test]
fn test_zscore_invalid_field_is_error() {
    let mut ts = TickerStats::new();
    ts.push(tick(1_000_000, 2_000_000, Some(0)));
    assert!(ts.zscore("mid").is_err());
    assert!(ts.zscore("").is_err());
    // The error is explicit even when the history is short.
    let empty = TickerStats::new();
    assert!(empty.zscore("bids").is_err());
}

#[test]
fn test_zscore_exact_value() {
    // Bids 1.0, 2.0, 3.0: mean 2.0, Bessel variance 1.0, so the latest
    // bid sits exactly one standard deviation above the mean.
    let mut ts = TickerStats::new();
    ts.push(tick(1_000_000, 5_000_000, Some(0)));
    ts.push(tick(2_000_000, 5_000_000, Some(1)));
    ts.push(tick(3_000_000, 5_000_000, Some(2)));
    assert_eq!(ts.zscore("bid"), Ok(Dec::new(1_000_000)));
}

#[test]
fn test_zscore_two_samples() {
    let data = vec![
        tick(110_000_000, 110_000_000, Some(0)),
        tick(110_100_000, 110_100_000, Some(1)),
    ];
    assert_eq!(calculate_zscore_last(&data, "bid"), Ok(Dec::new(707_113)));
}

#[test]
fn test_shrink_evicts_oldest() {
    let mut ts = TickerStats::new();
    for i in 0..5i64 {
        ts.push(tick(i * 1_000_000, i * 1_000_000, Some(i)));
    }
    ts.shrink(3);
    assert_eq!(ts.len(), 3);
    // The oldest two are gone; the survivors start at the third.
    assert_eq!(ts.diff(i64::MAX), Dec::zero());
    let first_left = ts.filter_micros(1).unwrap();
    assert_eq!(first_left.recived_at, Some(2));
}

#[test]
fn test_shrink_idempotent() {
    // Shrinking twice with the same limit gives the same history as
    // once, and the length never exceeds the limit.
    let mut a = TickerStats::new();
    for i in 0..6i64 {
        a.push(tick(i, i, Some(i)));
    }
    let mut b = TickerStats::new();
    for i in 0..6i64 {
        b.push(tick(i, i, Some(i)));
    }
    a.shrink(4);
    b.shrink(4);
    b.shrink(4);
    assert_eq!(a.len(), 4);
    assert_eq!(b.len(), 4);
    assert_eq!(a.last().unwrap().recived_at, b.last().unwrap().recived_at);
    assert_eq!(
        a.filter_micros(0).map(|t| t.recived_at),
        b.filter_micros(0).map(|t| t.recived_at)
    );
    // At or under the limit it does nothing.
    a.shrink(10);
    assert_eq!(a.len(), 4);
    a.shrink(0);
    assert_eq!(a.len(), 0);
}

#[test]
fn test_mean_and_std_dev() {
    let data = vec![
        tick(1_000_000, 1_000_000, Some(0)),
        tick(2_000_000, 2_000_000, Some(1)),
        tick(3_000_000, 3_000_000, Some(2)),
    ];
    assert_eq!(mean(&data), Some(Dec::new(2_000_000)));
    assert_eq!(std_dev(&data), Some(Dec::new(816_496)));
    let empty: Vec<Ticker> = Vec::new();
    assert_eq!(mean(&empty), None);
    assert_eq!(std_dev(&empty), None);
}

#[test]
fn test_culc_diff_micros_stamps_latency() {
    let mut t = tick(1_000_000, 1_000_000, None);
    t.server_at = Some(0);
    t.recived_at = None;
    t.diff_micros = None;
    t.culc_diff_micros();
    let received = t.recived_at.expect("receipt time stamped");
    assert_eq!(t.diff_micros, Some(received));
    assert_eq!(t.server_at, Some(0));

    // Without a server time the latency is zero.
    let mut u = tick(1, 1, None);
    u.server_at = None;
    u.culc_diff_micros();
    assert!(u.recived_at.is_some());
    assert_eq!(u.diff_micros, Some(0));
}

#[test]
fn test_ingest_stamps_and_bounds() {
    let mut ts = TickerStats::new();
    for i in 0..4i64 {
        let mut t = tick(i * 1_000_000, i * 1_000_000, None);
        t.server_at = Some(i);
        t.recived_at = None;
        ts.ingest(t, 3);
        assert!(ts.len() <= 3);
        assert!(ts.last().unwrap().recived_at.is_some());
    }
    assert_eq!(ts.len(), 3);
    assert_eq!(ts.last().unwrap().server_at, Some(3));
}

#[test]
fn test_ticker_default() {
    let t = Ticker::default();
    assert_eq!(t.symbol, "");
    assert_eq!(t.bid, Dec::zero());
    assert_eq!(t.ask, Dec::zero());
    assert_eq!(t.flag, None);
    assert_eq!(t.recived_at, None);
}
