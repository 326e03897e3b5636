//! Tests for the execution gate, the status record-keeping, and the run
//! commands.
use tickgate::dec::Dec;
use tickgate::invoke::gui::{Data, Mouse, Order, RunOutcome, Status, run};
use tickgate::order_type::process::{lock, unlock};

#[test]
fn test_gate_lock_unlock_alternates() {
    let mut data = Data::default();
    assert!(!data.status.is_processing);
    lock(&mut data);
    assert!(data.status.is_processing);
    unlock(&mut data, None);
    assert!(!data.status.is_processing);
    assert_eq!(data.status.message, "undefined");
    // A second full pair behaves identically.
    lock(&mut data);
    assert!(data.status.is_processing);
    unlock(&mut data, None);
    assert!(!data.status.is_processing);
}

#[test]
fn test_unlock_appends_and_caps_order_log() {
    let mut data = Data::default();
    for i in 0..10i64 {
        lock(&mut data);
        let mut o = Order::new(Dec::new(i * 1_000_000));
        o.side = "buy".to_string();
        unlock(&mut data, Some(o));
        assert!(!data.status.is_processing);
        assert!(!data.status.message.is_empty());
    }
    // The status log keeps the most recent eight records.
    assert_eq!(data.status.orders.len(), 8);
    assert_eq!(data.status.orders[0].entry, Dec::new(2_000_000));
    assert_eq!(data.status.orders[7].entry, Dec::new(9_000_000));
}

#[test]
fn test_status_update_ltp() {
    let mut st = Status::new();
    st.update_ltp(Dec::new(5));
    assert!(st.is_recived);
    assert_eq!(st.ltp, Dec::new(5));
    // The same price again only clears the freshness flag.
    st.update_ltp(Dec::new(5));
    assert!(!st.is_recived);
    assert_eq!(st.ltp, Dec::new(5));
}

#[test]
fn test_status_push_and_shrink() {
    let mut st = Status::new();
    for i in 0..5i64 {
        st.push(Order::new(Dec::new(i)));
    }
    assert_eq!(st.orders.len(), 5);
    st.shrink(2);
    assert_eq!(st.orders.len(), 2);
    assert_eq!(st.orders[0].entry, Dec::new(3));
    assert_eq!(st.orders[1].entry, Dec::new(4));
    st.shrink(2);
    assert_eq!(st.orders.len(), 2);
}

#[test]
fn test_order_new_and_done() {
    let mut o = Order::new(Dec::new(100_000_000));
    assert_eq!(o.side, "");
    assert_eq!(o.entry, Dec::new(100_000_000));
    assert_eq!(o.exit, Dec::zero());
    let copy = o.done(Some(Dec::new(101_000_000)));
    assert_eq!(o.exit, Dec::new(101_000_000));
    assert_eq!(copy.exit, Dec::new(101_000_000));
    assert_eq!(copy.entry, Dec::new(100_000_000));
    // Settling without a price records the zero sentinel.
    let mut p = Order::new(Dec::new(7));
    p.done(None);
    assert_eq!(p.exit, Dec::zero());
}

#[test]
fn test_order_describe_nonempty() {
    let mut o = Order::new(Dec::new(110_050_000));
    o.side = "sell".to_string();
    let text = o.describe();
    assert!(!text.is_empty());
}

#[test]
fn test_run_stop_start_status() {
    let mut data = Data::default();
    // Start.
    let started = run(&mut data, 1).unwrap();
    assert!(matches!(started, RunOutcome::Message(ref m) if m == "on"));
    assert!(data.status.is_running);
    assert_eq!(data.status.message, "on");
    // Snapshot.
    let snap = run(&mut data, 2).unwrap();
    match snap {
        RunOutcome::Snapshot(st) => {
            assert!(st.is_running);
            assert_eq!(st.message, "on");
        }
        RunOutcome::Message(_) => panic!("expected a snapshot"),
    }
    // Stop clears both flags.
    data.status.is_processing = true;
    let stopped = run(&mut data, 0).unwrap();
    assert!(matches!(stopped, RunOutcome::Message(ref m) if m == "off"));
    assert!(!data.status.is_running);
    assert!(!data.status.is_processing);
    assert_eq!(data.status.message, "off");
    // Unknown command.
    let err = run(&mut data, 9).unwrap_err();
    assert_eq!(err, "error: undefined");
}

#[test]
fn test_wrapped_data_update() {
    // Setup initial data
    let mut data = Data::default();
    let initial_ltp = Dec::new(100_000_000);
    let updated_ltp = Dec::new(200_000_000);

    // Add an order
    let mut order = Order::new(initial_ltp);
    order.side = "BUY".to_string();
    data.status.orders.push(order);

    // Test update without exit price update
    data.update(false, updated_ltp);
    assert_eq!(data.status.ltp, updated_ltp);
    assert_eq!(data.status.orders[0].exit, Dec::zero());

    // Test update with exit price update
    data.update(true, updated_ltp);
    assert_eq!(data.status.ltp, updated_ltp);
    assert_eq!(data.status.orders[0].exit, updated_ltp);
}

#[test]
fn test_update_leaves_settled_order_alone() {
    let mut data = Data::default();
    let mut order = Order::new(Dec::new(1));
    order.exit = Dec::new(9);
    data.status.orders.push(order);
    let message_before = data.status.message.clone();
    data.update(true, Dec::new(2));
    // The already-settled order keeps its exit price; no message change.
    assert_eq!(data.status.orders[0].exit, Dec::new(9));
    assert_eq!(data.status.message, message_before);
}
