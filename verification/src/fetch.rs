//! Which price history a scan or a backtest asks Yahoo for, and how the market filter reads
//! the fetched SPY history.

use vstd::prelude::*;

use crate::text::str_eq;

verus! {

/// The ticker whose trend decides whether the market is risk-on.
pub const MARKET_PROXY: &'static str = "SPY";

/// Scan periods: weekly bars over 10 years, or daily bars over 3 years.
pub fn scan_interval_range(timeframe: &str) -> (r: (&'static str, &'static str))
    ensures
        timeframe@ == "daily"@ ==> r.0@ == "1d"@ && r.1@ == "3y"@,
        timeframe@ != "daily"@ ==> r.0@ == "1wk"@ && r.1@ == "10y"@,
{
    if str_eq(timeframe, "daily") {
        ("1d", "3y")
    } else {
        ("1wk", "10y")
    }
}

/// Backtest periods: weekly bars over 15 years, or daily bars over 5 years.
pub fn bt_interval_range(timeframe: &str) -> (r: (&'static str, &'static str))
    ensures
        timeframe@ == "daily"@ ==> r.0@ == "1d"@ && r.1@ == "5y"@,
        timeframe@ != "daily"@ ==> r.0@ == "1wk"@ && r.1@ == "15y"@,
{
    if str_eq(timeframe, "daily") {
        ("1d", "5y")
    } else {
        ("1wk", "15y")
    }
}

/// The market filter: risk-on when SPY's last close is at or above its 200 EMA on the same
/// timeframe. `spy_above_ema200` is that comparison, or `None` when the SPY history could
/// not be fetched or is empty; an unknown market counts as risk-on (permissive).
pub fn market_ok(spy_above_ema200: Option<bool>) -> (ok: bool)
    ensures
        ok == match spy_above_ema200 {
            Some(b) => b,
            None => true,
        },
{
    match spy_above_ema200 {
        Some(b) => b,
        None => true,
    }
}

} // verus!
