use swingr::fetch::{bt_interval_range, market_ok, scan_interval_range, MARKET_PROXY};

#[test]
fn scan_and_backtest_periods() {
    assert_eq!(scan_interval_range("daily"), ("1d", "3y"));
    assert_eq!(scan_interval_range("weekly"), ("1wk", "10y"));
    assert_eq!(scan_interval_range("anything"), ("1wk", "10y"));
    assert_eq!(bt_interval_range("daily"), ("1d", "5y"));
    assert_eq!(bt_interval_range("weekly"), ("1wk", "15y"));
}

#[test]
fn market_filter_is_permissive_when_unknown() {
    assert!(market_ok(None));
    assert!(market_ok(Some(true)));
    assert!(!market_ok(Some(false)));
    assert_eq!(MARKET_PROXY, "SPY");
}
