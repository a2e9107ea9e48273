use swingr::signal::{evaluate_last, setup_quality, verdict_for, Readings, ScanSignal};

fn readings(below: bool, above: bool, reversal: bool, slope: bool, volume: bool, rsi: bool) -> Readings {
    Readings {
        below_fair_band: below,
        above_fair_band: above,
        above_ema9: reversal,
        above_ema20: reversal,
        ema9_above_ema20: reversal,
        slope_ok: slope,
        volume_ok: volume,
        rsi_ok: rsi,
    }
}

fn sig(regime: &str, reversal: bool, slope: bool, market: bool, entry: bool) -> ScanSignal {
    ScanSignal {
        regime: regime.to_string(),
        reversal,
        slope_ok: slope,
        volume_ok: true,
        rsi_ok: true,
        market_ok: market,
        quality: 0,
        entry_ok: entry,
    }
}

#[test]
fn regime_reversal_quality_and_entry() {
    let s = evaluate_last(&readings(true, false, true, false, true, true), false);
    assert_eq!(s.regime, "DISCOUNT");
    assert!(s.reversal && s.entry_ok && s.rsi_ok && s.volume_ok && !s.slope_ok && !s.market_ok);
    assert_eq!(s.quality, 3);
    let s = evaluate_last(&readings(false, true, true, true, true, true), true);
    assert_eq!(s.regime, "PREMIUM");
    assert!(!s.entry_ok);
    assert_eq!(s.quality, 5);
    let s = evaluate_last(&readings(false, false, false, false, false, false), false);
    assert_eq!(s.regime, "FAIR");
    assert_eq!(s.quality, 0);
    // a negative fair band can make both band tests true: the discount test comes first
    assert_eq!(evaluate_last(&readings(true, true, false, false, false, false), true).regime, "DISCOUNT");
}

#[test]
fn reversal_needs_all_three_comparisons() {
    let mut r = readings(true, false, true, true, true, true);
    r.ema9_above_ema20 = false;
    let s = evaluate_last(&r, true);
    assert!(!s.reversal && !s.entry_ok);
    assert_eq!(s.quality, 4);
}

#[test]
fn rsi_gate_blocks_entry() {
    let s = evaluate_last(&readings(true, false, true, true, true, false), true);
    assert!(!s.entry_ok);
}

#[test]
fn every_verdict() {
    assert_eq!(verdict_for(&sig("DISCOUNT", true, true, true, true), true), "BUY");
    assert_eq!(verdict_for(&sig("DISCOUNT", true, true, true, true), false), "BUY (thin R \u{2014} size down)");
    assert_eq!(
        verdict_for(&sig("DISCOUNT", true, true, false, false), true),
        "HOLD FIRE \u{2014} setup ok but market risk-off (SPY<200)"
    );
    assert_eq!(
        verdict_for(&sig("DISCOUNT", true, false, true, false), true),
        "CAUTION \u{2014} reclaim ok but 200 sloping down (value-trap risk)"
    );
    assert_eq!(verdict_for(&sig("DISCOUNT", false, true, true, false), true), "WATCH \u{2014} wait for reclaim of 9/20");
    assert_eq!(verdict_for(&sig("FAIR", true, true, true, false), true), "WAIT \u{2014} near fair value, poor risk/reward");
    assert_eq!(verdict_for(&sig("PREMIUM", true, true, true, false), true), "AVOID \u{2014} premium, price above the 200 line");
}

#[test]
fn risk_flags_do_not_veto_a_buy() {
    for (slope, volume, market) in [(true, true, true), (false, false, false), (false, true, false)] {
        let s = evaluate_last(&readings(true, false, true, slope, volume, true), market);
        assert!(s.entry_ok);
        assert_eq!(verdict_for(&s, true), "BUY");
    }
}

#[test]
fn quality_text() {
    assert_eq!(setup_quality(3), "3/5");
    assert_eq!(setup_quality(0), "0/5");
}
