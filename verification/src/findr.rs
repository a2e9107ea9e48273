//! FINDR, the bulk swing screener: the decisions it makes around the per-symbol scans
//! (which letters and timeframe a run covers, which symbols it scans, when it retries,
//! when it reports progress, which scans are hits and how hits are ranked).

use vstd::prelude::*;

use crate::series::{is_stably_sorted, precedes, stable_order, stable_sorted};
use crate::text::{
    chars_of, has_prefix, starts_with_str, str_eq, to_uppercase, trim_chars, trimmed,
    case_upper, string_of,
};
use crate::universe::{listings_view, Listing};

verus! {

/// Symbols scanned at once.
pub const CONCURRENCY: usize = 6;

/// A progress event every this many scanned symbols.
pub const PROGRESS_EVERY: usize = 15;

/// Whether `c` is an ASCII uppercase letter.
pub open spec fn is_letter(c: char) -> bool {
    65 <= c as u32 <= 90
}

/// The letter a range bound gives: the first character of its trimmed, uppercased text;
/// none when the trimmed text is empty.
pub open spec fn bound_letter(s: Seq<char>) -> Option<char> {
    let t = trimmed(s);
    if t.len() > 0 {
        Some(case_upper(t)[0])
    } else {
        None
    }
}

/// The letter range of a run: both bounds must give a letter A-Z; the range runs from
/// the lower to the higher letter, whichever order they were given in.
pub open spec fn letter_range_of(start: Seq<char>, end: Seq<char>) -> Result<(char, char), Seq<char>> {
    match bound_letter(start) {
        None => Err("start must be a single letter A-Z"@),
        Some(a) => match bound_letter(end) {
            None => Err("end must be a single letter A-Z"@),
            Some(b) => if !is_letter(a) || !is_letter(b) {
                Err("start/end must be A-Z letters"@)
            } else if a as u32 <= b as u32 {
                Ok((a, b))
            } else {
                Ok((b, a))
            },
        },
    }
}

/// The view of a range result.
pub open spec fn range_view(r: Result<(char, char), String>) -> Result<(char, char), Seq<char>> {
    match r {
        Ok(p) => Ok(p),
        Err(e) => Err(e@),
    }
}

/// The letter a range bound gives, if any.
fn bound_letter_of(s: &str) -> (r: Option<char>)
    ensures
        r == bound_letter(s@),
{
    let v = chars_of(s);
    let t = trim_chars(&v);
    let ts = string_of(t.as_slice());
    let up = to_uppercase(ts.as_str());
    let u = chars_of(up.as_str());
    if u.len() > 0 {
        Some(u[0])
    } else {
        None
    }
}

/// The first and last letter of a run, from the user's two bounds.
pub fn letter_range(start: &str, end: &str) -> (r: Result<(char, char), String>)
    ensures
        range_view(r) == letter_range_of(start@, end@),
{
    let a = match bound_letter_of(start) {
        Some(c) => c,
        None => {
            return Err("start must be a single letter A-Z".to_string());
        },
    };
    let b = match bound_letter_of(end) {
        Some(c) => c,
        None => {
            return Err("end must be a single letter A-Z".to_string());
        },
    };
    let (ua, ub) = (a as u32, b as u32);
    if !(65 <= ua && ua <= 90) || !(65 <= ub && ub <= 90) {
        return Err("start/end must be A-Z letters".to_string());
    }
    if ua <= ub {
        Ok((a, b))
    } else {
        Ok((b, a))
    }
}

/// The timeframe a run uses: "daily" when asked for, else "weekly".
pub fn normalize_timeframe(timeframe: &str) -> (r: String)
    ensures
        timeframe@ == "daily"@ ==> r@ == "daily"@,
        timeframe@ != "daily"@ ==> r@ == "weekly"@,
{
    if str_eq(timeframe, "daily") {
        "daily".to_string()
    } else {
        "weekly".to_string()
    }
}

/// A symbol's first character lies in `lo..=hi`.
pub open spec fn starts_in_range(sym: Seq<char>, lo: char, hi: char) -> bool {
    sym.len() > 0 && lo as u32 <= sym[0] as u32 <= hi as u32
}

/// The listings whose symbol starts with a letter in `lo..=hi`, in order.
pub open spec fn listings_in_range(rows: Seq<Listing>, lo: char, hi: char) -> Seq<Listing>
    decreases rows.len(),
{
    if rows.len() == 0 {
        seq![]
    } else {
        let prev = listings_in_range(rows.drop_last(), lo, hi);
        if starts_in_range(rows.last().0, lo, hi) {
            prev.push(rows.last())
        } else {
            prev
        }
    }
}

/// The listings of the universe that a run over `lo..=hi` scans, in universe order.
pub fn symbols_in_range(universe: &Vec<(String, String)>, lo: char, hi: char) -> (out: Vec<
    (String, String),
>)
    ensures
        listings_view(out@) == listings_in_range(listings_view(universe@), lo, hi),
{
    let ghost rows = listings_view(universe@);
    let mut out: Vec<(String, String)> = Vec::new();
    let mut k: usize = 0;
    while k < universe.len()
        invariant
            rows == listings_view(universe@),
            k <= universe.len(),
            listings_view(out@) == listings_in_range(rows.take(k as int), lo, hi),
        decreases universe.len() - k,
    {
        assert(rows.take(k + 1).drop_last() == rows.take(k as int));
        assert(rows.take(k + 1).last() == rows[k as int]);
        let sym = chars_of(universe[k].0.as_str());
        let keep = sym.len() > 0 && (lo as u32) <= (sym[0] as u32) && (sym[0] as u32) <= (
        hi as u32);
        if keep {
            let ghost prev = listings_view(out@);
            out.push((universe[k].0.clone(), universe[k].1.clone()));
            assert(listings_view(out@) == prev.push(rows[k as int]));
        }
        k = k + 1;
    }
    assert(rows.take(universe.len() as int) == rows);
    out
}

/// The pause before the next attempt at a symbol after `attempts` failed ones: 400 ms
/// after the first, 900 ms after the second, and no further attempt after the third.
pub open spec fn retry_delay(attempts: nat) -> Option<u64> {
    if attempts == 1 {
        Some(400)
    } else if attempts == 2 {
        Some(900)
    } else {
        None
    }
}

/// The pause before retrying a symbol whose `attempts` attempts all failed, or `None`
/// when it is given up (it then counts as scanned, not found).
pub fn retry_delay_ms(attempts: usize) -> (r: Option<u64>)
    ensures
        r == retry_delay(attempts as nat),
{
    if attempts == 1 {
        Some(400)
    } else if attempts == 2 {
        Some(900)
    } else {
        None
    }
}

/// Whether a progress event is due after `scanned` symbols.
pub fn progress_due(scanned: usize) -> (r: bool)
    ensures
        r == (scanned % PROGRESS_EVERY == 0),
{
    scanned % PROGRESS_EVERY == 0
}

/// A scan is a FINDR hit when its verdict is a BUY (with or without a thin R).
pub fn is_hit(verdict: &str) -> (r: bool)
    ensures
        r == has_prefix(verdict@, "BUY"@),
{
    starts_with_str(verdict, "BUY")
}

/// The order in which hits are reported: by R-multiple, largest first; hits without a
/// finite R-multiple (`None`) last; ties in the order found.
pub fn rank_hits(r_multiples: &Vec<Option<i64>>) -> (order: Vec<usize>)
    ensures
        order@ == stable_sorted(r_multiples@, r_multiples@.len(), true),
        order@.len() == r_multiples@.len(),
        is_stably_sorted(order@, r_multiples@, true),
        forall|x: usize| #[trigger] order@.contains(x) <==> x < r_multiples@.len(),
        forall|p: int, q: int|
            0 <= p < q < order@.len() && r_multiples@[#[trigger] order@[q] as int] is Some
                ==> r_multiples@[#[trigger] order@[p] as int] is Some,
{
    let order = stable_order(r_multiples, true);
    assert forall|p: int, q: int|
        0 <= p < q < order@.len() && r_multiples@[#[trigger] order@[q] as int] is Some
            implies r_multiples@[#[trigger] order@[p] as int] is Some by {
        assert(precedes(r_multiples@, order@[p] as int, order@[q] as int, true));
    }
    order
}

// ---------------------------------------------------------------------------------------
// Laws
// ---------------------------------------------------------------------------------------

/// The two bounds of a run may be given in either order.
pub proof fn lemma_letter_range_symmetric(start: Seq<char>, end: Seq<char>)
    requires
        letter_range_of(start, end) is Ok,
    ensures
        letter_range_of(end, start) == letter_range_of(start, end),
{
    let a = bound_letter(start)->0;
    let b = bound_letter(end)->0;
    vstd::utf8::char_u32_cast(a, a as u32);
    vstd::utf8::char_u32_cast(b, b as u32);
}

/// Every listing that a run scans starts with a letter of its range, and comes from the
/// universe.
pub proof fn lemma_scanned_in_range(rows: Seq<Listing>, lo: char, hi: char)
    ensures
        forall|k: int|
            0 <= k < listings_in_range(rows, lo, hi).len() ==> starts_in_range(
                (#[trigger] listings_in_range(rows, lo, hi)[k]).0,
                lo,
                hi,
            ) && rows.contains(listings_in_range(rows, lo, hi)[k]),
    decreases rows.len(),
{
    if rows.len() > 0 {
        let init = rows.drop_last();
        lemma_scanned_in_range(init, lo, hi);
        let prev = listings_in_range(init, lo, hi);
        let cur = listings_in_range(rows, lo, hi);
        assert forall|k: int| 0 <= k < cur.len() implies starts_in_range((#[trigger] cur[k]).0, lo, hi)
            && rows.contains(cur[k]) by {
            if k < prev.len() {
                assert(cur[k] == prev[k]);
                let m = choose|m: int| 0 <= m < init.len() && init[m] == prev[k];
                assert(rows[m] == init[m]);
            } else {
                assert(rows[rows.len() - 1] == cur[k]);
            }
        }
    }
}

/// A symbol gets at most three attempts: after three failures no retry follows.
pub proof fn lemma_at_most_three_attempts(attempts: nat)
    ensures
        retry_delay(attempts) is Some <==> (attempts == 1 || attempts == 2),
{
}


/// The listings a run over `lo..=hi` scans are exactly the universe's listings whose
/// symbol's first character lies in `lo..=hi`, in universe order: every such listing is
/// scanned (the first one included), none other is.
pub proof fn lemma_scanned_exactly_in_range(rows: Seq<Listing>, lo: char, hi: char)
    ensures
        listings_in_range(rows, lo, hi) == rows.filter(
            |r: Listing| r.0.len() > 0 && lo as u32 <= r.0[0] as u32 <= hi as u32,
        ),
        forall|k: int|
            0 <= k < rows.len() && (#[trigger] rows[k]).0.len() > 0 && lo as u32 <= rows[k].0[0] as u32
                <= hi as u32 ==> listings_in_range(rows, lo, hi).contains(rows[k]),
    decreases rows.len(),
{
    let pred = |r: Listing| r.0.len() > 0 && lo as u32 <= r.0[0] as u32 <= hi as u32;
    reveal(Seq::filter);
    if rows.len() > 0 {
        lemma_scanned_exactly_in_range(rows.drop_last(), lo, hi);
    }
    assert(listings_in_range(rows, lo, hi) == rows.filter(pred));
    assert forall|k: int|
        0 <= k < rows.len() && (#[trigger] rows[k]).0.len() > 0 && lo as u32 <= rows[k].0[0] as u32
            <= hi as u32 implies listings_in_range(rows, lo, hi).contains(rows[k]) by {
        rows.lemma_filter_contains(pred, k);
    }
}


/// A run's letter range in terms of its bounds: a blank start is refused first, then a
/// blank end; an accepted range runs from the lower to the higher of the two bounds'
/// uppercased first letters, both within 'A'..='Z'.
pub proof fn lemma_letter_range_meaning(start: Seq<char>, end: Seq<char>)
    ensures
        trimmed(start).len() == 0 ==> letter_range_of(start, end) == Err::<(char, char), Seq<char>>(
            "start must be a single letter A-Z"@,
        ),
        trimmed(start).len() > 0 && trimmed(end).len() == 0 ==> letter_range_of(start, end) == Err::<
            (char, char),
            Seq<char>,
        >("end must be a single letter A-Z"@),
        letter_range_of(start, end) matches Ok((a, b)) ==> {
            let x = case_upper(trimmed(start))[0];
            let y = case_upper(trimmed(end))[0];
            &&& 65 <= a as u32 <= b as u32 <= 90
            &&& (a, b) == (x, y) || (a, b) == (y, x)
        },
{
}

} // verus!
