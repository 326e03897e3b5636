//! Tests for configuration: regions, settings, parsing, and defaults.
use tickgate::dec::{Dec, dec_to_string, isqrt_u128, parse_dec, parse_u8};
use tickgate::invoke::gui::{
    Data, Mouse, Op, RegionKind, Setting, confirm_target, set_exit_clicks, set_mouse, set_setting,
};
use tickgate::text::{str_eq, u64_to_string};

#[test]
fn test_mouse_ok_validity() {
    // A region is valid only when start is strictly inside end on both
    // axes; anything else is rejected.
    assert!(Mouse { start_x: 1, start_y: 1, end_x: 2, end_y: 2, n: 1 }.ok().is_ok());
    assert!(Mouse { start_x: 2, start_y: 1, end_x: 2, end_y: 2, n: 1 }.ok().is_err());
    assert!(Mouse { start_x: 1, start_y: 2, end_x: 2, end_y: 2, n: 1 }.ok().is_err());
    assert!(Mouse { start_x: 3, start_y: 3, end_x: 2, end_y: 2, n: 1 }.ok().is_err());
    assert!(Mouse { start_x: 0, start_y: 0, end_x: 0, end_y: 0, n: 0 }.ok().is_err());
}

#[test]
fn scenario_invalid_region_never_stored() {
    // An inverted region is rejected before it reaches shared state.
    let mut data = Data::default();
    let before = data.mouse_entry_buy;
    let bad = Mouse { start_x: 5, start_y: 5, end_x: 5, end_y: 9, n: 1 };
    assert!(set_mouse(&mut data, RegionKind::EntryBuy, bad).is_err());
    assert_eq!(data.mouse_entry_buy, before);
    // A valid one is stored, and only in its own slot.
    let good = Mouse { start_x: 5, start_y: 5, end_x: 9, end_y: 9, n: 2 };
    set_mouse(&mut data, RegionKind::EntrySell, good).unwrap();
    assert_eq!(data.mouse_entry_sell, good);
    assert_eq!(data.mouse_entry_buy, before);
    assert_eq!(data.mouse_exit, before);
}

#[test]
fn test_random_xy() {
    let mouse_c = tickgate::middleware::mouse::Mouse::default();
    let (min_x, min_y, max_x, max_y) = (1, 1, 2, 2);
    let (x, y) = mouse_c.random_xy(min_x, min_y, max_x, max_y);

    assert!(min_x <= x && x <= max_x);
    assert!(min_y <= y && y <= max_y);
}

#[test]
fn test_random_xy_stays_inside() {
    let mouse_c = tickgate::middleware::mouse::Mouse::default();
    for _ in 0..200 {
        let (x, y) = mouse_c.random_xy(10, 20, 30, 40);
        assert!((10..30).contains(&x));
        assert!((20..40).contains(&y));
    }
}

#[test]
fn test_setting_defaults() {
    let s = Setting::new();
    assert_eq!(s.tcp, "8080");
    assert_eq!(s.order_type, "0");
    assert_eq!(s.speed, "1");
    assert_eq!(s.vol, "0.1");
    assert_eq!(s.interval, 10);
    assert!(!s.interval_random);
}

#[test]
fn test_speed_to_ms_mapping() {
    let mut s = Setting::new();
    s.speed = "0".to_string();
    assert_eq!(s.speed_to_ms(), 1);
    s.speed = "1".to_string();
    assert_eq!(s.speed_to_ms(), 100);
    s.speed = "2".to_string();
    assert_eq!(s.speed_to_ms(), 1_000);
    s.speed = "3".to_string();
    assert_eq!(s.speed_to_ms(), 3_000);
    s.speed = "9".to_string();
    assert_eq!(s.speed_to_ms(), 10_000);
    s.speed = "".to_string();
    assert_eq!(s.speed_to_ms(), 10_000);
}

#[test]
fn test_setting_get_parses_threshold() {
    let s = Setting::new();
    let (micros, thr) = s.get();
    assert_eq!(micros, 100_000);
    assert_eq!(thr, Dec::new(100_000));
}

#[test]
fn test_get_sleep_ms_fixed_and_jitter() {
    let mut s = Setting::new();
    assert_eq!(s.get_sleep_ms(), 10_000);
    s.interval_random = true;
    for _ in 0..100 {
        let ms = s.get_sleep_ms();
        assert!((5_000..15_000).contains(&ms));
    }
}

#[test]
fn test_set_setting_rejects_bad_threshold() {
    let mut data = Data::default();
    let before_vol = data.setting.vol.clone();
    let mut bad = Setting::new();
    bad.vol = "abc".to_string();
    assert!(set_setting(&mut data, bad).is_err());
    assert_eq!(data.setting.vol, before_vol);

    let mut negative = Setting::new();
    negative.vol = "-0.1".to_string();
    assert!(set_setting(&mut data, negative).is_err());

    let mut bad_order = Setting::new();
    bad_order.order_type = "many".to_string();
    assert!(set_setting(&mut data, bad_order).is_err());

    // A randomized dwell needs at least one second to draw from.
    let mut zero_jitter = Setting::new();
    zero_jitter.interval_random = true;
    zero_jitter.interval = 0;
    assert!(set_setting(&mut data, zero_jitter).is_err());
    let mut one_jitter = Setting::new();
    one_jitter.interval_random = true;
    one_jitter.interval = 1;
    assert!(set_setting(&mut data, one_jitter).is_ok());
    let restore = Setting::new();
    assert!(set_setting(&mut data, restore).is_ok());

    let mut good = Setting::new();
    good.vol = "0.25".to_string();
    good.order_type = "99".to_string();
    assert!(set_setting(&mut data, good).is_ok());
    assert_eq!(data.setting.vol, "0.25");
    assert_eq!(data.setting.order_type, "99");
}

#[test]
fn test_set_exit_clicks() {
    let mut data = Data::default();
    set_exit_clicks(&mut data, 5);
    assert_eq!(data.mouse_exit.n, 5);
}

#[test]
fn test_confirm_target_mapping() {
    let mut data = Data::default();
    data.mouse_entry_buy = Mouse { start_x: 1, start_y: 1, end_x: 9, end_y: 9, n: 1 };
    data.mouse_entry_sell = Mouse { start_x: 2, start_y: 2, end_x: 9, end_y: 9, n: 1 };
    data.mouse_exit = Mouse { start_x: 3, start_y: 3, end_x: 9, end_y: 9, n: 1 };
    assert_eq!(confirm_target(&data, 3), data.mouse_entry_buy);
    assert_eq!(confirm_target(&data, 4), data.mouse_entry_sell);
    assert_eq!(confirm_target(&data, 5), data.mouse_exit);
    assert_eq!(confirm_target(&data, 1), Mouse::default());
}

#[test]
fn test_data_default_option_lists() {
    let data = Data::default();
    assert_eq!(data.host, "localhost");
    assert_eq!(data.setting.tcp, "8080");
    let values: Vec<&str> = data.order_type.iter().map(|o| o.value.as_str()).collect();
    assert_eq!(values, ["0", "1", "2", "3", "99"]);
    let speeds: Vec<&str> = data.speed.iter().map(|o| o.value.as_str()).collect();
    assert_eq!(speeds, ["0", "1", "2", "3"]);
    assert!(!data.status.is_running);
    assert_eq!(data.status.message, "off");
}

#[test]
fn test_data_new_with_explicit_options() {
    let ops = vec![Op::default()];
    let data = Data::new(Some(ops), None);
    assert_eq!(data.order_type.len(), 1);
    assert_eq!(data.order_type[0].value, "0");
    assert_eq!(data.order_type[0].label, "option");
    assert_eq!(data.speed.len(), 4);
}

#[test]
fn test_parse_dec_values() {
    assert_eq!(parse_dec("0"), Some(Dec::new(0)));
    assert_eq!(parse_dec("0.1"), Some(Dec::new(100_000)));
    assert_eq!(parse_dec("110.05"), Some(Dec::new(110_050_000)));
    assert_eq!(parse_dec("-3"), Some(Dec::new(-3_000_000)));
    assert_eq!(parse_dec("1.234567"), Some(Dec::new(1_234_567)));
    assert_eq!(parse_dec("1.2345678"), None); // seven fractional digits
    assert_eq!(parse_dec("1.23456"), Some(Dec::new(1_234_560)));
    assert_eq!(parse_dec("1000000"), Some(Dec::new(1_000_000_000_000)));
    assert_eq!(parse_dec("1000001"), None); // beyond the stored range
    assert_eq!(parse_dec(""), None);
    assert_eq!(parse_dec("."), None);
    assert_eq!(parse_dec("1."), None);
    assert_eq!(parse_dec(".5"), None);
    assert_eq!(parse_dec("1..2"), None);
    assert_eq!(parse_dec("12a"), None);
    assert_eq!(parse_dec("-"), None);
}

#[test]
fn test_parse_u8_values() {
    assert_eq!(parse_u8("0"), Some(0));
    assert_eq!(parse_u8("99"), Some(99));
    assert_eq!(parse_u8("255"), Some(255));
    assert_eq!(parse_u8("256"), None);
    assert_eq!(parse_u8(""), None);
    assert_eq!(parse_u8("1x"), None);
    assert_eq!(parse_u8("007"), Some(7));
}

#[test]
fn test_dec_helpers() {
    assert!(Dec::zero().is_zero());
    assert!(!Dec::new(1).is_zero());
    assert_eq!(Dec::new(-5).abs(), Dec::new(5));
    assert_eq!(Dec::new(5).abs(), Dec::new(5));
    assert!(Dec::new(1).lt(&Dec::new(2)));
    assert!(!Dec::new(2).lt(&Dec::new(2)));
}

#[test]
fn test_dec_to_string_shapes() {
    assert_eq!(dec_to_string(&Dec::new(110_050_000)), "110.05");
    assert_eq!(dec_to_string(&Dec::new(-3_000_000)), "-3");
    assert_eq!(dec_to_string(&Dec::new(0)), "0");
    assert_eq!(dec_to_string(&Dec::new(1)), "0.000001");
}

#[test]
fn test_u64_to_string_digits() {
    assert_eq!(u64_to_string(0), "0");
    assert_eq!(u64_to_string(7), "7");
    assert_eq!(u64_to_string(1234), "1234");
    assert_eq!(u64_to_string(u64::MAX), "18446744073709551615");
}

#[test]
fn test_str_eq_behaviour() {
    assert!(str_eq("bid", "bid"));
    assert!(!str_eq("bid", "ask"));
    assert!(!str_eq("bid", "bids"));
    assert!(str_eq("", ""));
}

#[test]
fn test_isqrt_values() {
    assert_eq!(isqrt_u128(0), 0);
    assert_eq!(isqrt_u128(15), 3);
    assert_eq!(isqrt_u128(16), 4);
    assert_eq!(isqrt_u128(1_000_000_000_000), 1_000_000);
    assert_eq!(isqrt_u128(2_000_000_000_000), 1_414_213);
}
