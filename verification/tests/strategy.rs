//! Tests for the four strategies and the dispatch decision.
use tickgate::dec::Dec;
use tickgate::invoke::gui::{Data, Mouse, RegionKind, Setting, set_mouse, set_setting};
use tickgate::middleware::ticker::{Ticker, TickerStats};
use tickgate::order_type::dispatch::{Choice, decide};
use tickgate::order_type::origin::OriginAction;
use tickgate::order_type::{entry, exit, origin, process, simple};
use tickgate::signal::{Direction, evaluate};

fn tick_at(bid_units: i64, ask_units: i64, at: i64) -> Ticker {
    Ticker {
        symbol: "USDJPY".to_string(),
        bid: Dec::new(bid_units),
        ask: Dec::new(ask_units),
        flag: Some(0),
        side: Some(0),
        server_at: Some(at),
        recived_at: Some(at),
        diff_micros: Some(0),
    }
}

fn setting_with(order_type: &str, vol: &str) -> Setting {
    let mut s = Setting::new();
    s.order_type = order_type.to_string();
    s.vol = vol.to_string();
    s
}

/// A history whose drift over the default 100ms lookback is +0.50: mids
/// move from 110.05 to 110.55 across 200ms.
fn jumped_history() -> TickerStats {
    let mut ts = TickerStats::new();
    ts.push(tick_at(110_000_000, 110_100_000, 0));
    ts.push(tick_at(110_500_000, 110_600_000, 200_000));
    ts
}

fn configured_data(vol: &str) -> Data {
    let mut data = Data::default();
    set_setting(&mut data, setting_with("0", vol)).unwrap();
    let buy = Mouse { start_x: 10, start_y: 10, end_x: 20, end_y: 20, n: 1 };
    let sell = Mouse { start_x: 30, start_y: 30, end_x: 40, end_y: 40, n: 1 };
    let exit_m = Mouse { start_x: 50, start_y: 50, end_x: 60, end_y: 60, n: 3 };
    set_mouse(&mut data, RegionKind::EntryBuy, buy).unwrap();
    set_mouse(&mut data, RegionKind::EntrySell, sell).unwrap();
    set_mouse(&mut data, RegionKind::Exit, exit_m).unwrap();
    data
}

#[test]
fn scenario_simple_buy_cycle() {
    // Threshold 0.05, drift +0.50 (buy direction): the cycle acquires the
    // execution gate, plans one buy entry, the dwell, the exit action
    // three times, and releases with an order whose side is "buy".
    let mut data = configured_data("0.05");
    let tickers = jumped_history();

    let plan = simple::process(&mut data, &tickers).expect("trigger fires");
    assert!(data.status.is_processing);
    assert_eq!(plan.entry_mouse, data.mouse_entry_buy);
    assert_eq!(plan.exit_mouse, data.mouse_exit);
    assert_eq!(plan.exit_mouse.n, 3);
    assert_eq!(plan.order.side, "buy");
    assert_eq!(plan.order.entry, Dec::new(110_550_000));
    assert_eq!(plan.order.exit, Dec::zero());
    assert_eq!(plan.sleep_ms, 10_000);

    simple::finish(&mut data, plan.order);
    assert!(!data.status.is_processing);
    assert_eq!(data.status.orders.len(), 1);
    assert_eq!(data.status.orders[0].side, "buy");
    assert_eq!(data.status.orders[0].exit, Dec::zero());
    assert!(!data.status.message.is_empty());
}

#[test]
fn test_simple_sell_direction() {
    let mut data = configured_data("0.05");
    let mut ts = TickerStats::new();
    ts.push(tick_at(110_500_000, 110_600_000, 0));
    ts.push(tick_at(110_000_000, 110_100_000, 200_000));
    let plan = simple::process(&mut data, &ts).expect("trigger fires");
    assert_eq!(plan.order.side, "sell");
    assert_eq!(plan.entry_mouse, data.mouse_entry_sell);
    simple::finish(&mut data, plan.order);
    assert_eq!(data.status.orders[0].side, "sell");
}

#[test]
fn test_simple_no_trigger_is_noop() {
    let mut data = configured_data("0.05");
    let mut ts = TickerStats::new();
    ts.push(tick_at(110_000_000, 110_100_000, 0));
    ts.push(tick_at(110_000_000, 110_100_000, 200_000));
    let message_before = data.status.message.clone();
    assert!(simple::process(&mut data, &ts).is_none());
    assert!(!data.status.is_processing);
    assert_eq!(data.status.message, message_before);
    assert!(data.status.orders.is_empty());
}

#[test]
fn test_simple_zero_diff_never_triggers() {
    // An empty or too-young history yields a zero drift, which must not
    // cross the positive threshold.
    let mut data = configured_data("0.05");
    let ts = TickerStats::new();
    assert!(simple::process(&mut data, &ts).is_none());
    assert!(!data.status.is_processing);
}

#[test]
fn test_entry_matching_side_buy() {
    let mut data = configured_data("0.05");
    let tickers = jumped_history();
    let plan = entry::process(1, &mut data, &tickers).expect("side matches");
    assert!(data.status.is_processing);
    assert_eq!(plan.entry_mouse, data.mouse_entry_buy);
    process::unlock(&mut data, None);
    assert!(!data.status.is_processing);
}

#[test]
fn test_entry_mismatched_side_is_skip() {
    // Positive drift with the sell-only selector: a logged skip, not an
    // error; the execution gate comes back idle.
    let mut data = configured_data("0.05");
    let tickers = jumped_history();
    assert!(entry::process(2, &mut data, &tickers).is_none());
    assert!(!data.status.is_processing);
    assert_eq!(data.status.message, "undefined");
}

#[test]
fn test_entry_unknown_side_code_is_skip() {
    let mut data = configured_data("0.05");
    let tickers = jumped_history();
    assert!(entry::process(7, &mut data, &tickers).is_none());
    assert!(!data.status.is_processing);
}

#[test]
fn test_entry_no_trigger_is_skip() {
    let mut data = configured_data("0.05");
    let ts = TickerStats::new();
    assert!(entry::process(1, &mut data, &ts).is_none());
    assert!(!data.status.is_processing);
}

#[test]
fn test_exit_strategy_trigger() {
    let mut data = configured_data("0.05");
    let tickers = jumped_history();
    let plan = exit::process(&mut data, &tickers).expect("trigger fires");
    assert!(data.status.is_processing);
    assert_eq!(plan.exit_mouse, data.mouse_exit);
    assert_eq!(plan.exit_mouse.n, 3);
    process::unlock(&mut data, None);
    assert!(!data.status.is_processing);
}

#[test]
fn test_exit_strategy_no_trigger() {
    let mut data = configured_data("0.05");
    let ts = TickerStats::new();
    assert!(exit::process(&mut data, &ts).is_none());
    assert!(!data.status.is_processing);
}

fn flagged_history(flag: u8) -> TickerStats {
    let mut ts = TickerStats::default();
    ts.push(Ticker { flag: Some(flag), ..Default::default() });
    ts
}

#[test]
fn test_process_none_flag() {
    let mut data = Data::default();
    let tickers = flagged_history(0);
    assert!(origin::process(&mut data, &tickers).is_none());
    assert!(!data.status.is_processing);
}

#[test]
fn test_process_entry_buy_flag() {
    let mut data = Data::default();
    data.mouse_entry_buy = Mouse { n: 1, start_x: 0, start_y: 0, end_x: 10, end_y: 10 };
    let tickers = flagged_history(1);
    match origin::process(&mut data, &tickers) {
        Some(OriginAction::Entry { entry_mouse }) => {
            assert_eq!(entry_mouse, data.mouse_entry_buy);
        }
        _ => panic!("expected an entry action"),
    }
    assert!(data.status.is_processing);
    process::unlock(&mut data, None);
}

#[test]
fn test_process_entry_sell_flag() {
    let mut data = Data::default();
    let tickers = flagged_history(2);
    match origin::process(&mut data, &tickers) {
        Some(OriginAction::Entry { entry_mouse }) => {
            assert_eq!(entry_mouse, data.mouse_entry_sell);
        }
        _ => panic!("expected an entry action"),
    }
    assert!(data.status.is_processing);
    process::unlock(&mut data, None);
}

#[test]
fn test_process_entry_buy_exit_flag() {
    let mut data = Data::default();
    let tickers = flagged_history(3);
    match origin::process(&mut data, &tickers) {
        Some(OriginAction::EntryExit { entry_mouse, exit_mouse, sleep_ms }) => {
            assert_eq!(entry_mouse, data.mouse_entry_buy);
            assert_eq!(exit_mouse, data.mouse_exit);
            assert_eq!(sleep_ms, 10_000);
        }
        _ => panic!("expected an entry-then-exit action"),
    }
    assert!(data.status.is_processing);
    process::unlock(&mut data, None);
}

#[test]
fn test_process_entry_sell_exit_flag() {
    let mut data = Data::default();
    let tickers = flagged_history(4);
    match origin::process(&mut data, &tickers) {
        Some(OriginAction::EntryExit { entry_mouse, exit_mouse, .. }) => {
            assert_eq!(entry_mouse, data.mouse_entry_sell);
            assert_eq!(exit_mouse, data.mouse_exit);
        }
        _ => panic!("expected an entry-then-exit action"),
    }
    assert!(data.status.is_processing);
    process::unlock(&mut data, None);
}

#[test]
fn test_process_exit_buy_flag() {
    let mut data = Data::default();
    let tickers = flagged_history(5);
    match origin::process(&mut data, &tickers) {
        Some(OriginAction::Exit { exit_mouse }) => {
            assert_eq!(exit_mouse, data.mouse_exit);
        }
        _ => panic!("expected an exit action"),
    }
    assert!(data.status.is_processing);
    process::unlock(&mut data, None);
}

#[test]
fn test_process_exit_sell_flag() {
    let mut data = Data::default();
    let tickers = flagged_history(6);
    match origin::process(&mut data, &tickers) {
        Some(OriginAction::Exit { exit_mouse }) => {
            assert_eq!(exit_mouse, data.mouse_exit);
        }
        _ => panic!("expected an exit action"),
    }
    assert!(data.status.is_processing);
    process::unlock(&mut data, None);
}

#[test]
fn test_process_unmapped_flag_is_noop() {
    let mut data = Data::default();
    let tickers = flagged_history(42);
    assert!(origin::process(&mut data, &tickers).is_none());
    assert!(!data.status.is_processing);
}

#[test]
fn test_process_no_ticker_is_noop() {
    let mut data = Data::default();
    let tickers = TickerStats::default();
    assert!(origin::process(&mut data, &tickers).is_none());
    assert!(!data.status.is_processing);
}

#[test]
fn test_dispatch_not_running() {
    let data = Data::default();
    assert_eq!(decide(&data), Choice::NotRunning);
}

#[test]
fn scenario_dispatch_while_processing_is_noop() {
    // A dispatch attempted while an execution holds the single-flight
    // lock is dropped entirely: no strategy is selected, nothing changes,
    // and no error is raised.
    let mut data = Data::default();
    data.status.is_running = true;
    data.status.is_processing = true;
    let orders_before = data.status.orders.len();
    let message_before = data.status.message.clone();
    assert_eq!(decide(&data), Choice::Busy);
    assert!(data.status.is_processing);
    assert!(data.status.is_running);
    assert_eq!(data.status.orders.len(), orders_before);
    assert_eq!(data.status.message, message_before);
}

#[test]
fn test_dispatch_order_type_selection() {
    let mut data = Data::default();
    data.status.is_running = true;
    assert_eq!(decide(&data), Choice::Simple);
    set_setting(&mut data, setting_with("1", "0.1")).unwrap();
    assert_eq!(decide(&data), Choice::Entry(1));
    set_setting(&mut data, setting_with("2", "0.1")).unwrap();
    assert_eq!(decide(&data), Choice::Entry(2));
    set_setting(&mut data, setting_with("3", "0.1")).unwrap();
    assert_eq!(decide(&data), Choice::Exit);
    set_setting(&mut data, setting_with("99", "0.1")).unwrap();
    assert_eq!(decide(&data), Choice::Origin);
    set_setting(&mut data, setting_with("7", "0.1")).unwrap();
    assert_eq!(decide(&data), Choice::Simple);
}

#[test]
fn test_signal_evaluate_directions() {
    let data = configured_data("0.05");
    // Upward drift: +0.50, crosses 0.05, direction buy.
    let up = jumped_history();
    let sig = evaluate(&up, &data.setting);
    assert_eq!(sig.diff, Dec::new(500_000));
    assert!(sig.exceeds);
    assert_eq!(sig.direction, Direction::Buy);
    // Downward drift.
    let mut down = TickerStats::new();
    down.push(tick_at(110_500_000, 110_600_000, 0));
    down.push(tick_at(110_000_000, 110_100_000, 200_000));
    let sig = evaluate(&down, &data.setting);
    assert_eq!(sig.diff, Dec::new(-500_000));
    assert!(sig.exceeds);
    assert_eq!(sig.direction, Direction::Sell);
    // No drift: the zero signal never triggers.
    let mut flat = TickerStats::new();
    flat.push(tick_at(110_000_000, 110_100_000, 0));
    flat.push(tick_at(110_000_000, 110_100_000, 200_000));
    let sig = evaluate(&flat, &data.setting);
    assert_eq!(sig.diff, Dec::zero());
    assert!(!sig.exceeds);
    assert_eq!(sig.direction, Direction::Flat);
}

#[test]
fn test_signal_small_drift_below_threshold() {
    let data = configured_data("0.05");
    let mut ts = TickerStats::new();
    ts.push(tick_at(110_000_000, 110_100_000, 0));
    ts.push(tick_at(110_040_000, 110_140_000, 200_000));
    let sig = evaluate(&ts, &data.setting);
    assert_eq!(sig.diff, Dec::new(40_000));
    assert!(!sig.exceeds);
    assert_eq!(sig.direction, Direction::Buy);
}
