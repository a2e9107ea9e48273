//! The 9 / 20 / 200 EMA reversal rules: the regime, the entry gates, the risk flags and the
//! setup quality of the last bar, and the verdict that a scan reports.
//!
//! The comparisons of prices with their averages are made by the caller; the rules here
//! decide from their outcomes.

use vstd::prelude::*;

use crate::text::{decimal, has_prefix, push_decimal, push_str, str_eq, string_of};

verus! {

/// Where the last close stands against the 200 EMA.
#[derive(Clone, Copy, Debug, PartialEq, Eq, Structural)]
pub enum Regime {
    /// Below the 200 EMA by more than the fair band.
    Discount,
    /// Within the fair band around the 200 EMA.
    Fair,
    /// Above the 200 EMA by more than the fair band.
    Premium,
}

/// The outcomes of the comparisons made on the last bar.
#[derive(Clone, Copy, Debug)]
pub struct Readings {
    /// close < EMA200 * (1 - fair_band)
    pub below_fair_band: bool,
    /// close > EMA200 * (1 + fair_band)
    pub above_fair_band: bool,
    /// close > EMA9
    pub above_ema9: bool,
    /// close > EMA20
    pub above_ema20: bool,
    /// EMA9 > EMA20
    pub ema9_above_ema20: bool,
    /// the 200 EMA of 20 bars ago is known and the 200 EMA is at or above it
    pub slope_ok: bool,
    /// volume at or above its 20-bar average, or OBV at or above its 10-bar average
    pub volume_ok: bool,
    /// RSI(14) is known and below 70
    pub rsi_ok: bool,
}

/// The signal of the last bar.
pub struct ScanSignal {
    pub regime: String,
    pub reversal: bool,
    pub slope_ok: bool,
    pub volume_ok: bool,
    pub rsi_ok: bool,
    pub market_ok: bool,
    pub quality: u32,
    pub entry_ok: bool,
}

/// The regime of a bar: discount below the band, premium above it, fair within it.
pub open spec fn regime_of(r: Readings) -> Regime {
    if r.below_fair_band {
        Regime::Discount
    } else if r.above_fair_band {
        Regime::Premium
    } else {
        Regime::Fair
    }
}

/// The name a regime is reported under.
pub open spec fn regime_label(g: Regime) -> Seq<char> {
    match g {
        Regime::Discount => "DISCOUNT"@,
        Regime::Fair => "FAIR"@,
        Regime::Premium => "PREMIUM"@,
    }
}

/// The reversal gate: price above the 9 and the 20 EMA, and the 9 above the 20.
pub open spec fn reversal_of(r: Readings) -> bool {
    r.above_ema9 && r.above_ema20 && r.ema9_above_ema20
}

/// The entry gates: a discount, a confirmed reversal, and RSI not overbought.
pub open spec fn entry_ok_of(r: Readings) -> bool {
    regime_of(r) == Regime::Discount && reversal_of(r) && r.rsi_ok
}

/// One for a passed check, zero for a failed one.
pub open spec fn point(b: bool) -> int {
    if b {
        1
    } else {
        0
    }
}

/// The setup quality: how many of the five checks pass (slope, volume, RSI, market,
/// reversal).
pub open spec fn quality_of(r: Readings, market_ok: bool) -> int {
    point(r.slope_ok) + point(r.volume_ok) + point(r.rsi_ok) + point(market_ok) + point(
        reversal_of(r),
    )
}

/// The signal of the last bar from its readings and the market flag.
pub fn evaluate_last(r: &Readings, market_ok: bool) -> (sig: ScanSignal)
    ensures
        sig.regime@ == regime_label(regime_of(*r)),
        sig.reversal == reversal_of(*r),
        sig.slope_ok == r.slope_ok,
        sig.volume_ok == r.volume_ok,
        sig.rsi_ok == r.rsi_ok,
        sig.market_ok == market_ok,
        sig.quality == quality_of(*r, market_ok),
        sig.entry_ok == entry_ok_of(*r),
        sig.reversal == (r.above_ema9 && r.above_ema20 && r.ema9_above_ema20),
        sig.entry_ok == (r.below_fair_band && r.above_ema9 && r.above_ema20 && r.ema9_above_ema20
            && r.rsi_ok),
{
    let discount = r.below_fair_band;
    let regime = if discount {
        "DISCOUNT".to_string()
    } else if r.above_fair_band {
        "PREMIUM".to_string()
    } else {
        "FAIR".to_string()
    };
    let reversal = r.above_ema9 && r.above_ema20 && r.ema9_above_ema20;
    let quality: u32 = (if r.slope_ok {
        1u32
    } else {
        0
    }) + (if r.volume_ok {
        1u32
    } else {
        0
    }) + (if r.rsi_ok {
        1u32
    } else {
        0
    }) + (if market_ok {
        1u32
    } else {
        0
    }) + (if reversal {
        1u32
    } else {
        0
    });
    let entry_ok = discount && reversal && r.rsi_ok;
    ScanSignal {
        regime,
        reversal,
        slope_ok: r.slope_ok,
        volume_ok: r.volume_ok,
        rsi_ok: r.rsi_ok,
        market_ok,
        quality,
        entry_ok,
    }
}

/// The verdict of a scan, from the signal and whether the R-multiple reaches 1.5.
pub open spec fn verdict_text(sig: ScanSignal, r_ok: bool) -> Seq<char> {
    let discount = sig.regime@ == "DISCOUNT"@;
    if sig.entry_ok && r_ok {
        "BUY"@
    } else if sig.entry_ok {
        "BUY (thin R \u{2014} size down)"@
    } else if discount && sig.reversal && !sig.market_ok {
        "HOLD FIRE \u{2014} setup ok but market risk-off (SPY<200)"@
    } else if discount && sig.reversal && !sig.slope_ok {
        "CAUTION \u{2014} reclaim ok but 200 sloping down (value-trap risk)"@
    } else if discount && !sig.reversal {
        "WATCH \u{2014} wait for reclaim of 9/20"@
    } else if sig.regime@ == "FAIR"@ {
        "WAIT \u{2014} near fair value, poor risk/reward"@
    } else {
        "AVOID \u{2014} premium, price above the 200 line"@
    }
}

/// The verdict of a scan. `r_ok` tells whether the R-multiple is at least 1.5.
pub fn verdict_for(sig: &ScanSignal, r_ok: bool) -> (v: String)
    ensures
        v@ == verdict_text(*sig, r_ok),
{
    let discount = str_eq(sig.regime.as_str(), "DISCOUNT");
    if sig.entry_ok && r_ok {
        "BUY".to_string()
    } else if sig.entry_ok {
        "BUY (thin R \u{2014} size down)".to_string()
    } else if discount && sig.reversal && !sig.market_ok {
        "HOLD FIRE \u{2014} setup ok but market risk-off (SPY<200)".to_string()
    } else if discount && sig.reversal && !sig.slope_ok {
        "CAUTION \u{2014} reclaim ok but 200 sloping down (value-trap risk)".to_string()
    } else if discount && !sig.reversal {
        "WATCH \u{2014} wait for reclaim of 9/20".to_string()
    } else if str_eq(sig.regime.as_str(), "FAIR") {
        "WAIT \u{2014} near fair value, poor risk/reward".to_string()
    } else {
        "AVOID \u{2014} premium, price above the 200 line".to_string()
    }
}

/// The setup quality as reported: the number of passed checks, then "/5".
pub open spec fn quality_text(q: nat) -> Seq<char> {
    decimal(q) + "/5"@
}

/// The setup quality as reported, such as "3/5".
pub fn setup_quality(quality: u32) -> (s: String)
    ensures
        s@ == quality_text(quality as nat),
{
    let mut out: Vec<char> = Vec::new();
    push_decimal(&mut out, quality as u64);
    push_str(&mut out, "/5");
    string_of(out.as_slice())
}

// ---------------------------------------------------------------------------------------
// Laws
// ---------------------------------------------------------------------------------------

/// The setup quality is between 0 and 5, and is 5 exactly when all five checks pass.
pub proof fn lemma_quality_bounds(r: Readings, market_ok: bool)
    ensures
        0 <= quality_of(r, market_ok) <= 5,
        quality_of(r, market_ok) == 5 <==> (r.slope_ok && r.volume_ok && r.rsi_ok && market_ok
            && reversal_of(r)),
{
}

/// A BUY needs the three gates (discount, reversal, RSI < 70) and an R-multiple of at least
/// 1.5; the gates without the R-multiple give the thin-R BUY.
pub proof fn lemma_buy_needs_gates(r: Readings, sig: ScanSignal, r_ok: bool)
    requires
        sig.regime@ == regime_label(regime_of(r)),
        sig.reversal == reversal_of(r),
        sig.rsi_ok == r.rsi_ok,
        sig.entry_ok == entry_ok_of(r),
    ensures
        verdict_text(sig, r_ok) == "BUY"@ <==> (regime_of(r) == Regime::Discount && reversal_of(r)
            && r.rsi_ok && r_ok),
{
    lemma_buy_prefix_iff_entry(sig, r_ok);
    reveal_strlit("BUY");
    assert("BUY"@.take(3) =~= "BUY"@);
    reveal_strlit("BUY (thin R \u{2014} size down)");
    reveal_strlit("HOLD FIRE \u{2014} setup ok but market risk-off (SPY<200)");
    reveal_strlit("CAUTION \u{2014} reclaim ok but 200 sloping down (value-trap risk)");
    reveal_strlit("WATCH \u{2014} wait for reclaim of 9/20");
    reveal_strlit("WAIT \u{2014} near fair value, poor risk/reward");
    reveal_strlit("AVOID \u{2014} premium, price above the 200 line");
    assert("BUY (thin R \u{2014} size down)"@.len() != "BUY"@.len());
}

/// The verdicts that start with "BUY" (the FINDR hits) are exactly the signals that pass
/// the entry gates.
pub proof fn lemma_buy_prefix_iff_entry(sig: ScanSignal, r_ok: bool)
    ensures
        has_prefix(verdict_text(sig, r_ok), "BUY"@) == sig.entry_ok,
{
    reveal_strlit("BUY");
    reveal_strlit("BUY (thin R \u{2014} size down)");
    reveal_strlit("HOLD FIRE \u{2014} setup ok but market risk-off (SPY<200)");
    reveal_strlit("CAUTION \u{2014} reclaim ok but 200 sloping down (value-trap risk)");
    reveal_strlit("WATCH \u{2014} wait for reclaim of 9/20");
    reveal_strlit("WAIT \u{2014} near fair value, poor risk/reward");
    reveal_strlit("AVOID \u{2014} premium, price above the 200 line");
    let v = verdict_text(sig, r_ok);
    if !sig.entry_ok {
        assert(v[0] != 'B');
        assert(v.take(3)[0] != "BUY"@[0]);
    } else {
        assert(v.take(3) =~= "BUY"@);
    }
}

/// The risk flags (200-EMA slope, volume, market) lower the setup quality but never veto
/// an entry: two bars that agree on regime, reversal and RSI agree on the entry gates and
/// on whether the verdict is a BUY, whatever their flags.
pub proof fn lemma_risk_flags_do_not_veto(
    r1: Readings,
    r2: Readings,
    s1: ScanSignal,
    s2: ScanSignal,
    r_ok: bool,
)
    requires
        regime_of(r1) == regime_of(r2),
        reversal_of(r1) == reversal_of(r2),
        r1.rsi_ok == r2.rsi_ok,
        s1.entry_ok == entry_ok_of(r1),
        s2.entry_ok == entry_ok_of(r2),
    ensures
        entry_ok_of(r1) == entry_ok_of(r2),
        has_prefix(verdict_text(s1, r_ok), "BUY"@) == has_prefix(verdict_text(s2, r_ok), "BUY"@),
        (verdict_text(s1, r_ok) == "BUY"@) == (verdict_text(s2, r_ok) == "BUY"@),
{
    lemma_buy_prefix_iff_entry(s1, r_ok);
    lemma_buy_prefix_iff_entry(s2, r_ok);
    reveal_strlit("BUY");
    reveal_strlit("BUY (thin R \u{2014} size down)");
    reveal_strlit("HOLD FIRE \u{2014} setup ok but market risk-off (SPY<200)");
    reveal_strlit("CAUTION \u{2014} reclaim ok but 200 sloping down (value-trap risk)");
    reveal_strlit("WATCH \u{2014} wait for reclaim of 9/20");
    reveal_strlit("WAIT \u{2014} near fair value, poor risk/reward");
    reveal_strlit("AVOID \u{2014} premium, price above the 200 line");
}


/// The signal's flags in terms of the readings: the reversal needs the close above the 9
/// EMA and the 20 EMA and the 9 above the 20; an entry needs a discount (close below the
/// fair band), that reversal and RSI below 70; the quality counts slope, volume, RSI,
/// market and reversal. So a close not above its 9 EMA never reverses nor enters, and
/// costs one point of quality.
pub proof fn lemma_signal_from_readings(r: Readings, market_ok: bool)
    ensures
        reversal_of(r) == (r.above_ema9 && r.above_ema20 && r.ema9_above_ema20),
        entry_ok_of(r) == (r.below_fair_band && r.above_ema9 && r.above_ema20
            && r.ema9_above_ema20 && r.rsi_ok),
        !r.above_ema9 ==> !reversal_of(r) && !entry_ok_of(r),
        !r.above_ema20 ==> !reversal_of(r) && !entry_ok_of(r),
        !r.ema9_above_ema20 ==> !reversal_of(r) && !entry_ok_of(r),
        quality_of(r, market_ok) == (if r.slope_ok { 1int } else { 0 }) + (if r.volume_ok {
            1int
        } else {
            0
        }) + (if r.rsi_ok { 1int } else { 0 }) + (if market_ok { 1int } else { 0 }) + (if r.above_ema9
            && r.above_ema20 && r.ema9_above_ema20 {
            1int
        } else {
            0
        }),
        r.below_fair_band ==> regime_label(regime_of(r)) == "DISCOUNT"@,
        !r.below_fair_band && r.above_fair_band ==> regime_label(regime_of(r)) == "PREMIUM"@,
        !r.below_fair_band && !r.above_fair_band ==> regime_label(regime_of(r)) == "FAIR"@,
{
}

/// The verdict table: a gated entry is a BUY (thin-R when R < 1.5); otherwise a discount
/// with a reversal is HOLD FIRE when the market is risk-off, else CAUTION when the 200 EMA
/// slopes down; a discount without a reversal is WATCH whatever the market and slope; a
/// fair regime is WAIT; everything else is AVOID, which is never given to a fair regime,
/// and to a discount only when it has a reversal in a risk-on market with a rising 200 EMA
/// yet no entry (in a signal from `evaluate_last`: RSI at 70 or above).
pub proof fn lemma_verdict_table(sig: ScanSignal, r_ok: bool)
    ensures
        sig.entry_ok && r_ok ==> verdict_text(sig, r_ok) == "BUY"@,
        sig.entry_ok && !r_ok ==> verdict_text(sig, r_ok) == "BUY (thin R \u{2014} size down)"@,
        !sig.entry_ok && sig.regime@ == "DISCOUNT"@ && sig.reversal && !sig.market_ok
            ==> verdict_text(sig, r_ok) == "HOLD FIRE \u{2014} setup ok but market risk-off (SPY<200)"@,
        !sig.entry_ok && sig.regime@ == "DISCOUNT"@ && sig.reversal && sig.market_ok && !sig.slope_ok
            ==> verdict_text(sig, r_ok) == "CAUTION \u{2014} reclaim ok but 200 sloping down (value-trap risk)"@,
        !sig.entry_ok && sig.regime@ == "DISCOUNT"@ && !sig.reversal ==> verdict_text(sig, r_ok)
            == "WATCH \u{2014} wait for reclaim of 9/20"@,
        !sig.entry_ok && sig.regime@ == "FAIR"@ ==> verdict_text(sig, r_ok)
            == "WAIT \u{2014} near fair value, poor risk/reward"@,
        !sig.entry_ok && sig.regime@ != "DISCOUNT"@ && sig.regime@ != "FAIR"@ ==> verdict_text(sig, r_ok)
            == "AVOID \u{2014} premium, price above the 200 line"@,
        verdict_text(sig, r_ok) == "AVOID \u{2014} premium, price above the 200 line"@ ==> sig.regime@
            != "FAIR"@ && !sig.entry_ok && (sig.regime@ == "DISCOUNT"@ ==> sig.reversal
            && sig.market_ok && sig.slope_ok),
        verdict_text(sig, r_ok) == "WATCH \u{2014} wait for reclaim of 9/20"@ ==> sig.regime@
            == "DISCOUNT"@ && !sig.reversal && !sig.entry_ok,
{
    reveal_strlit("DISCOUNT");
    reveal_strlit("FAIR");
    reveal_strlit("BUY");
    reveal_strlit("BUY (thin R \u{2014} size down)");
    reveal_strlit("HOLD FIRE \u{2014} setup ok but market risk-off (SPY<200)");
    reveal_strlit("CAUTION \u{2014} reclaim ok but 200 sloping down (value-trap risk)");
    reveal_strlit("WATCH \u{2014} wait for reclaim of 9/20");
    reveal_strlit("WAIT \u{2014} near fair value, poor risk/reward");
    reveal_strlit("AVOID \u{2014} premium, price above the 200 line");
    assert("FAIR"@.len() != "DISCOUNT"@.len());
    let avoid = "AVOID \u{2014} premium, price above the 200 line"@;
    assert("BUY"@[0] != avoid[0]);
    assert("BUY (thin R \u{2014} size down)"@[0] != avoid[0]);
    assert("HOLD FIRE \u{2014} setup ok but market risk-off (SPY<200)"@[0] != avoid[0]);
    assert("CAUTION \u{2014} reclaim ok but 200 sloping down (value-trap risk)"@[0] != avoid[0]);
    assert("WATCH \u{2014} wait for reclaim of 9/20"@[0] != avoid[0]);
    assert("WAIT \u{2014} near fair value, poor risk/reward"@[0] != avoid[0]);
    assert("WATCH \u{2014} wait for reclaim of 9/20"@[2] != "WAIT \u{2014} near fair value, poor risk/reward"@[2]);
}

} // verus!
