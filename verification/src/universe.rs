//! The FINDR universe: which listings of the NASDAQ Trader symbol directories count as
//! common stock, how the two directory files are read, and how they are merged.

use vstd::prelude::*;

use crate::text::{
    chars_eq, chars_of, push_str, string_of, contains_in_range, contains_str, copy_range, has_substring, lines_of,
    line_ranges, case_lower, pieces, ranges_within, split_on, split_ranges, string_of_range,
    to_lowercase, trim_range, trimmed,
};

verus! {

/// The two layouts of the symbol directory files.
///
/// `nasdaqlisted.txt`: Symbol|Security Name|Market Category|Test Issue|Financial Status|
/// Round Lot Size|ETF|NextShares.
/// `otherlisted.txt`: ACT Symbol|Security Name|Exchange|CQS Symbol|ETF|Round Lot Size|
/// Test Issue|NASDAQ Symbol.
#[derive(Clone, Copy, Debug, PartialEq, Eq, Structural)]
pub enum ListingFormat {
    NasdaqListed,
    OtherListed,
}

/// A symbol, security name pair, as views.
pub type Listing = (Seq<char>, Seq<char>);

/// The views of a list of (symbol, name) strings.
pub open spec fn listings_view(v: Seq<(String, String)>) -> Seq<Listing> {
    v.map_values(|p: (String, String)| (p.0@, p.1@))
}

/// Matches `^[A-Z]{1,5}$`: one to five uppercase ASCII letters and nothing else.
pub open spec fn is_common_symbol(s: Seq<char>) -> bool {
    &&& 1 <= s.len() <= 5
    &&& forall|k: int| 0 <= k < s.len() ==> 65 <= #[trigger] (s[k] as u32) <= 90
}

/// A security name that marks a listing as something other than common stock: its
/// lowercase form holds one of the excluded words.
pub open spec fn name_is_excluded(name: Seq<char>) -> bool {
    let l = case_lower(name);
    ||| has_substring(l, "warrant"@)
    ||| has_substring(l, "right"@)
    ||| has_substring(l, " unit"@)
    ||| has_substring(l, "depositary"@)
    ||| has_substring(l, "preferred"@)
    ||| has_substring(l, "convertible"@)
    ||| has_substring(l, "debenture"@)
    ||| has_substring(l, " notes"@)
}

/// The first column's title in the header row.
pub open spec fn header_label(fmt: ListingFormat) -> Seq<char> {
    match fmt {
        ListingFormat::NasdaqListed => "Symbol"@,
        ListingFormat::OtherListed => "ACT Symbol"@,
    }
}

/// The column that holds the Test Issue flag.
pub open spec fn test_issue_column(fmt: ListingFormat) -> int {
    match fmt {
        ListingFormat::NasdaqListed => 3,
        ListingFormat::OtherListed => 6,
    }
}

/// The column that holds the ETF flag.
pub open spec fn etf_column(fmt: ListingFormat) -> int {
    match fmt {
        ListingFormat::NasdaqListed => 6,
        ListingFormat::OtherListed => 4,
    }
}

/// What one line of a directory file contributes: nothing for the footer, the header, a
/// malformed row (fewer than eight fields), a test issue, an ETF, a symbol that is not
/// common stock or an excluded name; else the trimmed symbol and name.
pub open spec fn listing_row(fmt: ListingFormat, line: Seq<char>) -> Option<Listing> {
    let cols = split_on(line, '|');
    if has_substring(line, "File Creation Time"@) || cols.len() < 8 || cols[0] == header_label(
        fmt,
    ) {
        None
    } else {
        let symbol = trimmed(cols[0]);
        let name = trimmed(cols[1]);
        let test_issue = trimmed(cols[test_issue_column(fmt)]);
        let etf = trimmed(cols[etf_column(fmt)]);
        if test_issue == "Y"@ || etf == "Y"@ || !is_common_symbol(symbol) || name_is_excluded(
            name,
        ) {
            None
        } else {
            Some((symbol, name))
        }
    }
}

/// The listings of a sequence of lines, in order.
pub open spec fn listing_rows(fmt: ListingFormat, lines: Seq<Seq<char>>) -> Seq<Listing>
    decreases lines.len(),
{
    if lines.len() == 0 {
        seq![]
    } else {
        let prev = listing_rows(fmt, lines.drop_last());
        match listing_row(fmt, lines.last()) {
            Some(r) => prev.push(r),
            None => prev,
        }
    }
}

/// The listings of a directory file's text.
pub open spec fn parsed_listings(fmt: ListingFormat, text: Seq<char>) -> Seq<Listing> {
    listing_rows(fmt, lines_of(text))
}

/// Whether some listing in `rows` has symbol `sym`.
pub open spec fn symbol_listed(rows: Seq<Listing>, sym: Seq<char>) -> bool {
    exists|k: int| 0 <= k < rows.len() && (#[trigger] rows[k]).0 == sym
}

/// The listings with repeated symbols dropped: the first listing of a symbol wins.
pub open spec fn first_per_symbol(rows: Seq<Listing>) -> Seq<Listing>
    decreases rows.len(),
{
    if rows.len() == 0 {
        seq![]
    } else {
        let prev = first_per_symbol(rows.drop_last());
        if symbol_listed(prev, rows.last().0) {
            prev
        } else {
            prev.push(rows.last())
        }
    }
}

/// The listings a download contributes: those of its text, or none if it failed.
pub open spec fn downloaded_listings(fmt: ListingFormat, download: Result<Seq<char>, Seq<char>>) -> Seq<Listing> {
    match download {
        Ok(text) => parsed_listings(fmt, text),
        Err(_) => seq![],
    }
}

/// The message when both directory downloads failed.
pub open spec fn both_failed_message(e1: Seq<char>, e2: Seq<char>) -> Seq<char> {
    "FINDR universe download failed for both sources: nasdaqlisted="@ + e1 + ", otherlisted="@
        + e2
}

/// The view of a download result.
pub open spec fn download_view(r: Result<String, String>) -> Result<Seq<char>, Seq<char>> {
    match r {
        Ok(t) => Ok(t@),
        Err(e) => Err(e@),
    }
}

// ---------------------------------------------------------------------------------------
// Executable code
// ---------------------------------------------------------------------------------------

/// Matches `^[A-Z]{1,5}$`: 1 to 5 uppercase ASCII letters, nothing else. Drops preferreds,
/// warrants, when-issued and other non-common-stock tickers that carry '.', '$', '-' or
/// digits.
pub fn is_common_stock_symbol(s: &str) -> (r: bool)
    ensures
        r == is_common_symbol(s@),
{
    let v = chars_of(s);
    if v.len() == 0 || v.len() > 5 {
        return false;
    }
    let mut k: usize = 0;
    while k < v.len()
        invariant
            v@ == s@,
            k <= v.len(),
            forall|j: int| 0 <= j < k ==> 65 <= #[trigger] (v@[j] as u32) <= 90,
        decreases v.len() - k,
    {
        let u = v[k] as u32;
        if u < 65 || u > 90 {
            return false;
        }
        k = k + 1;
    }
    true
}

/// Whether a security name marks the listing as something other than common stock.
pub fn name_excluded(name: &str) -> (r: bool)
    ensures
        r == name_is_excluded(name@),
        r == ({
            let l = case_lower(name@);
            has_substring(l, "warrant"@) || has_substring(l, "right"@) || has_substring(l, " unit"@)
                || has_substring(l, "depositary"@) || has_substring(l, "preferred"@)
                || has_substring(l, "convertible"@) || has_substring(l, "debenture"@)
                || has_substring(l, " notes"@)
        }),
{
    let lower = to_lowercase(name);
    let l = lower.as_str();
    contains_str(l, "warrant") || contains_str(l, "right") || contains_str(l, " unit")
        || contains_str(l, "depositary") || contains_str(l, "preferred") || contains_str(
        l,
        "convertible",
    ) || contains_str(l, "debenture") || contains_str(l, " notes")
}

/// Whether `v[lo..hi]` is exactly the string `lit`.
fn range_is(v: &Vec<char>, lo: usize, hi: usize, lit: &str) -> (r: bool)
    requires
        lo <= hi <= v.len(),
    ensures
        r == (v@.subrange(lo as int, hi as int) == lit@),
{
    let piece = copy_range(v, lo, hi);
    let want = chars_of(lit);
    chars_eq(&piece, &want)
}

/// What the line `v[lo..hi]` contributes, as `listing_row` states.
fn listing_row_of(v: &Vec<char>, lo: usize, hi: usize, fmt: ListingFormat) -> (r: Option<
    (String, String),
>)
    requires
        lo <= hi <= v.len(),
    ensures
        match r {
            Some(p) => listing_row(fmt, v@.subrange(lo as int, hi as int)) == Some((p.0@, p.1@)),
            None => listing_row(fmt, v@.subrange(lo as int, hi as int)) is None,
        },
{
    let ghost line = v@.subrange(lo as int, hi as int);
    let footer = chars_of("File Creation Time");
    if contains_in_range(v, lo, hi, &footer) {
        return None;
    }
    let cols = split_ranges(v, lo, hi, '|');
    let ghost cs = split_on(line, '|');
    assert(pieces(v@, cols@) == cs);
    if cols.len() < 8 {
        return None;
    }
    assert(cols@[0].0 <= cols@[0].1 <= hi);
    assert(cs[0] == v@.subrange(cols@[0].0 as int, cols@[0].1 as int));
    let is_header = match fmt {
        ListingFormat::NasdaqListed => range_is(v, cols[0].0, cols[0].1, "Symbol"),
        ListingFormat::OtherListed => range_is(v, cols[0].0, cols[0].1, "ACT Symbol"),
    };
    if is_header {
        return None;
    }
    let (test_col, etf_col): (usize, usize) = match fmt {
        ListingFormat::NasdaqListed => (3, 6),
        ListingFormat::OtherListed => (6, 4),
    };
    assert(ranges_within(cols@, lo as int, hi as int));
    assert(cols@[1].0 <= cols@[1].1 <= hi);
    assert(cols@[test_col as int].0 <= cols@[test_col as int].1 <= hi);
    assert(cols@[etf_col as int].0 <= cols@[etf_col as int].1 <= hi);
    assert(cs[1] == v@.subrange(cols@[1].0 as int, cols@[1].1 as int));
    assert(cs[test_col as int] == v@.subrange(
        cols@[test_col as int].0 as int,
        cols@[test_col as int].1 as int,
    ));
    assert(cs[etf_col as int] == v@.subrange(
        cols@[etf_col as int].0 as int,
        cols@[etf_col as int].1 as int,
    ));
    let (s0, s1) = trim_range(v, cols[0].0, cols[0].1);
    let (n0, n1) = trim_range(v, cols[1].0, cols[1].1);
    let (t0, t1) = trim_range(v, cols[test_col].0, cols[test_col].1);
    let (e0, e1) = trim_range(v, cols[etf_col].0, cols[etf_col].1);
    if range_is(v, t0, t1, "Y") || range_is(v, e0, e1, "Y") {
        return None;
    }
    let symbol = string_of_range(v, s0, s1);
    let name = string_of_range(v, n0, n1);
    if !is_common_stock_symbol(symbol.as_str()) || name_excluded(name.as_str()) {
        return None;
    }
    Some((symbol, name))
}

/// The common-stock listings of a directory file in the given layout, in file order.
#[verifier::rlimit(40)]
pub fn parse_listing(text: &str, fmt: ListingFormat) -> (out: Vec<(String, String)>)
    ensures
        listings_view(out@) == parsed_listings(fmt, text@),
{
    let v = chars_of(text);
    let lines = line_ranges(&v);
    let ghost ls = pieces(v@, lines@);
    let mut out: Vec<(String, String)> = Vec::new();
    let mut k: usize = 0;
    while k < lines.len()
        invariant
            v@ == text@,
            ls == pieces(v@, lines@),
            ls == lines_of(v@),
            ranges_within(lines@, 0, v@.len() as int),
            k <= lines.len(),
            listings_view(out@) == listing_rows(fmt, ls.take(k as int)),
        decreases lines.len() - k,
    {
        let (lo, hi) = lines[k];
        assert(lines@[k as int].0 <= lines@[k as int].1 <= v@.len());
        let row = listing_row_of(&v, lo, hi, fmt);
        assert(ls.take(k + 1).drop_last() == ls.take(k as int));
        assert(ls.take(k + 1).last() == v@.subrange(lo as int, hi as int));
        let ghost prev = listings_view(out@);
        match row {
            Some(p) => {
                out.push(p);
                assert(listings_view(out@) == prev.push((out@.last().0@, out@.last().1@)));
            },
            None => {},
        }
        k = k + 1;
    }
    assert(ls.take(lines.len() as int) == ls);
    out
}

/// `nasdaqlisted.txt`: Symbol|Security Name|Market Category|Test Issue|Financial Status|
/// Round Lot Size|ETF|NextShares
pub fn parse_nasdaq_listed(text: &str) -> (out: Vec<(String, String)>)
    ensures
        listings_view(out@) == parsed_listings(ListingFormat::NasdaqListed, text@),
{
    parse_listing(text, ListingFormat::NasdaqListed)
}

/// `otherlisted.txt`: ACT Symbol|Security Name|Exchange|CQS Symbol|ETF|Round Lot Size|
/// Test Issue|NASDAQ Symbol
pub fn parse_other_listed(text: &str) -> (out: Vec<(String, String)>)
    ensures
        listings_view(out@) == parsed_listings(ListingFormat::OtherListed, text@),
{
    parse_listing(text, ListingFormat::OtherListed)
}


/// The number a common-stock symbol is keyed by in the merge: its letters as base-27
/// digits 1..=26, first letter least significant.
pub open spec fn symbol_key(s: Seq<char>) -> int
    decreases s.len(),
{
    if s.len() == 0 {
        0
    } else {
        (s[0] as u32 - 64) + 27 * symbol_key(s.drop_first())
    }
}

/// Every character is an ASCII uppercase letter.
pub open spec fn all_letters(s: Seq<char>) -> bool {
    forall|k: int| 0 <= k < s.len() ==> 65 <= #[trigger] (s[k] as u32) <= 90
}

/// 27 to the power `n`.
pub open spec fn pow27(n: nat) -> int
    decreases n,
{
    if n == 0 {
        1
    } else {
        27 * pow27((n - 1) as nat)
    }
}

/// A key of letters is below 27 to the power of its length, and zero only when empty.
proof fn lemma_symbol_key_bound(s: Seq<char>)
    requires
        all_letters(s),
    ensures
        0 <= symbol_key(s) < pow27(s.len()),
        symbol_key(s) == 0 <==> s.len() == 0,
    decreases s.len(),
{
    if s.len() > 0 {
        let rest = s.drop_first();
        assert forall|k: int| 0 <= k < rest.len() implies 65 <= #[trigger] (rest[k] as u32) <= 90 by {
            assert(rest[k] == s[k + 1]);
        }
        lemma_symbol_key_bound(rest);
        let d = s[0] as u32 - 64;
        let e = symbol_key(rest);
        let p = pow27(rest.len());
        assert(1 <= d <= 26);
        assert(d + 27 * e < 27 * p) by (nonlinear_arith)
            requires
                1 <= d <= 26,
                0 <= e < p,
        ;
        assert(d + 27 * e >= 1) by (nonlinear_arith)
            requires
                1 <= d,
                0 <= e,
        ;
    }
}

/// Different symbols of letters have different keys.
proof fn lemma_symbol_key_injective(s: Seq<char>, t: Seq<char>)
    requires
        all_letters(s),
        all_letters(t),
        symbol_key(s) == symbol_key(t),
    ensures
        s == t,
    decreases s.len(),
{
    lemma_symbol_key_bound(s);
    lemma_symbol_key_bound(t);
    if s.len() > 0 && t.len() > 0 {
        let (rs, rt) = (s.drop_first(), t.drop_first());
        assert forall|k: int| 0 <= k < rs.len() implies 65 <= #[trigger] (rs[k] as u32) <= 90 by {
            assert(rs[k] == s[k + 1]);
        }
        assert forall|k: int| 0 <= k < rt.len() implies 65 <= #[trigger] (rt[k] as u32) <= 90 by {
            assert(rt[k] == t[k + 1]);
        }
        lemma_symbol_key_bound(rs);
        lemma_symbol_key_bound(rt);
        let (d1, d2) = (s[0] as u32 - 64, t[0] as u32 - 64);
        let (e1, e2) = (symbol_key(rs), symbol_key(rt));
        assert(d1 == d2 && e1 == e2) by (nonlinear_arith)
            requires
                1 <= d1 <= 26,
                1 <= d2 <= 26,
                0 <= e1,
                0 <= e2,
                d1 + 27 * e1 == d2 + 27 * e2,
        ;
        lemma_symbol_key_injective(rs, rt);
        vstd::utf8::char_u32_cast(s[0], s[0] as u32);
        vstd::utf8::char_u32_cast(t[0], t[0] as u32);
        assert(s == seq![s[0]] + rs);
        assert(t == seq![t[0]] + rt);
    }
}

/// The key of a common-stock symbol.
fn key_of_symbol(v: &Vec<char>) -> (k: u64)
    requires
        is_common_symbol(v@),
    ensures
        k == symbol_key(v@),
{
    let ghost s = v@;
    let mut acc: u64 = 0;
    let mut j = v.len();
    assert(s.skip(j as int) =~= Seq::<char>::empty());
    assert(pow27(5) == 14348907) by {
        reveal_with_fuel(pow27, 6);
    }
    while j > 0
        invariant
            s == v@,
            is_common_symbol(s),
            j <= s.len(),
            acc == symbol_key(s.skip(j as int)),
            acc < pow27((s.len() - j) as nat),
            pow27(5) == 14348907,
        decreases j,
    {
        proof {
            assert forall|k: int| 0 <= k < s.skip(j - 1).len() implies 65 <= #[trigger] (s.skip(
                j - 1,
            )[k] as u32) <= 90 by {
                assert(s.skip(j - 1)[k] == s[k + j - 1]);
            }
            lemma_symbol_key_bound(s.skip(j - 1));
            assert(s.skip(j - 1).drop_first() =~= s.skip(j as int));
            assert(s.skip(j - 1).len() == s.len() - (j - 1));
            lemma_pow27_monotone((s.len() - (j - 1)) as nat, 5);
        }
        j = j - 1;
        let d = (v[j] as u32 - 64) as u64;
        acc = d + 27 * acc;
    }
    assert(s.skip(0) =~= s);
    acc
}

/// Powers of 27 grow with the exponent.
proof fn lemma_pow27_monotone(a: nat, b: nat)
    requires
        a <= b,
    ensures
        1 <= pow27(a) <= pow27(b),
    decreases b,
{
    if b > 0 {
        if a < b {
            lemma_pow27_monotone(a, (b - 1) as nat);
        }
        lemma_pow27_monotone((b - 1) as nat, (b - 1) as nat);
    }
}

/// Every listing's symbol is common stock.
pub open spec fn all_common(rows: Seq<Listing>) -> bool {
    forall|k: int| 0 <= k < rows.len() ==> is_common_symbol(#[trigger] rows[k].0)
}

/// The listings of a download all have common-stock symbols.
proof fn lemma_downloads_common(fmt: ListingFormat, download: Result<Seq<char>, Seq<char>>)
    ensures
        all_common(downloaded_listings(fmt, download)),
{
    if let Ok(text) = download {
        lemma_listings_are_common_stock(fmt, lines_of(text));
        let rows = listing_rows(fmt, lines_of(text));
        assert forall|k: int| 0 <= k < rows.len() implies is_common_symbol(#[trigger] rows[k].0) by {
            assert(is_common_symbol(rows[k].0) && !name_is_excluded(rows[k].1));
        }
    }
}

/// Appends to `out` each listing of `rows` whose symbol is not yet in `out`; `seen` holds
/// the keys of the symbols of `out`.
fn add_new_symbols(
    out: &mut Vec<(String, String)>,
    seen: &mut std::collections::HashSet<u64>,
    rows: &Vec<(String, String)>,
    Ghost(before): Ghost<Seq<Listing>>,
)
    requires
        listings_view(old(out)@) == first_per_symbol(before),
        all_common(listings_view(old(out)@)),
        all_common(listings_view(rows@)),
        forall|x: u64|
            #[trigger] old(seen)@.contains(x) <==> exists|j: int|
                0 <= j < old(out)@.len() && x == symbol_key(#[trigger] old(out)@[j].0@),
    ensures
        listings_view(final(out)@) == first_per_symbol(before + listings_view(rows@)),
        all_common(listings_view(final(out)@)),
        forall|x: u64|
            #[trigger] final(seen)@.contains(x) <==> exists|j: int|
                0 <= j < final(out)@.len() && x == symbol_key(#[trigger] final(out)@[j].0@),
{
    broadcast use vstd::std_specs::hash::group_hash_axioms;

    let ghost rv = listings_view(rows@);
    let mut k: usize = 0;
    while k < rows.len()
        invariant
            rv == listings_view(rows@),
            all_common(rv),
            k <= rows.len(),
            listings_view(out@) == first_per_symbol(before + rv.take(k as int)),
            all_common(listings_view(out@)),
            forall|x: u64|
                #[trigger] seen@.contains(x) <==> exists|j: int|
                    0 <= j < out@.len() && x == symbol_key(#[trigger] out@[j].0@),
        decreases rows.len() - k,
    {
        let sym = chars_of(rows[k].0.as_str());
        assert(is_common_symbol(rv[k as int].0));
        let key = key_of_symbol(&sym);
        let ghost prev = listings_view(out@);
        assert((before + rv.take(k + 1)).drop_last() == before + rv.take(k as int));
        assert((before + rv.take(k + 1)).last() == rv[k as int]);
        proof {
            assert(symbol_listed(prev, rv[k as int].0) <==> seen@.contains(key)) by {
                if symbol_listed(prev, rv[k as int].0) {
                    let j = choose|j: int| 0 <= j < prev.len() && (#[trigger] prev[j]).0 == rv[k as int].0;
                    assert(out@[j].0@ == prev[j].0);
                    assert(key == symbol_key(out@[j].0@));
                }
                if seen@.contains(key) {
                    let j = choose|j: int| 0 <= j < out@.len() && key == symbol_key(#[trigger] out@[j].0@);
                    assert(prev[j].0 == out@[j].0@);
                    assert(is_common_symbol(prev[j].0));
                    lemma_symbol_key_injective(prev[j].0, sym@);
                }
            }
        }
        let ghost old_out = out@;
        let ghost old_seen = seen@;
        if seen.insert(key) {
            let p = (rows[k].0.clone(), rows[k].1.clone());
            out.push(p);
            assert(listings_view(out@) == prev.push(rv[k as int]));
            assert(out@ == old_out.push(out@.last()));
            assert forall|x: u64|
                #[trigger] seen@.contains(x) <==> exists|j: int|
                    0 <= j < out@.len() && x == symbol_key(#[trigger] out@[j].0@) by {
                if seen@.contains(x) {
                    if x == key {
                        assert(x == symbol_key(out@[out@.len() - 1].0@));
                    } else {
                        assert(old_seen.contains(x));
                        let j = choose|j: int| 0 <= j < old_out.len() && x == symbol_key(#[trigger] old_out[j].0@);
                        assert(out@[j] == old_out[j]);
                    }
                }
                if exists|j: int| 0 <= j < out@.len() && x == symbol_key(#[trigger] out@[j].0@) {
                    let j = choose|j: int| 0 <= j < out@.len() && x == symbol_key(#[trigger] out@[j].0@);
                    if j < old_out.len() {
                        assert(out@[j] == old_out[j]);
                        assert(old_seen.contains(x));
                    } else {
                        assert(x == key);
                    }
                }
            }
            assert forall|i: int| 0 <= i < listings_view(out@).len() implies is_common_symbol(
                #[trigger] listings_view(out@)[i].0,
            ) by {
                if i < prev.len() {
                    assert(listings_view(out@)[i] == prev[i]);
                }
            }
        }
        k = k + 1;
    }
    assert(rv.take(rows.len() as int) == rv);
}

/// The FINDR universe from the two directory downloads: if both failed, an error naming
/// both failures; else the common-stock listings of `nasdaqlisted.txt` followed by those of
/// `otherlisted.txt`, each symbol once (its first listing wins).
pub fn build_universe(nasdaq: Result<String, String>, other: Result<String, String>) -> (r: Result<
    Vec<(String, String)>,
    String,
>)
    ensures
        match (nasdaq, other) {
            (Err(e1), Err(e2)) => r matches Err(msg) && msg@ == both_failed_message(e1@, e2@),
            _ => r matches Ok(u) && listings_view(u@) == first_per_symbol(
                downloaded_listings(ListingFormat::NasdaqListed, download_view(nasdaq))
                    + downloaded_listings(ListingFormat::OtherListed, download_view(other)),
            ),
        },
{
    if let (Err(e1), Err(e2)) = (&nasdaq, &other) {
        let mut msg: Vec<char> = Vec::new();
        push_str(&mut msg, "FINDR universe download failed for both sources: nasdaqlisted=");
        push_str(&mut msg, e1.as_str());
        push_str(&mut msg, ", otherlisted=");
        push_str(&mut msg, e2.as_str());
        return Err(string_of(msg.as_slice()));
    }
    broadcast use vstd::std_specs::hash::group_hash_axioms;

    let mut out: Vec<(String, String)> = Vec::new();
    let mut seen: std::collections::HashSet<u64> = std::collections::HashSet::new();
    let ghost empty: Seq<Listing> = seq![];
    let first = match &nasdaq {
        Ok(text) => parse_nasdaq_listed(text.as_str()),
        Err(_) => Vec::new(),
    };
    assert(listings_view(first@) == downloaded_listings(
        ListingFormat::NasdaqListed,
        download_view(nasdaq),
    ));
    assert(listings_view(out@) == empty);
    proof {
        lemma_downloads_common(ListingFormat::NasdaqListed, download_view(nasdaq));
    }
    add_new_symbols(&mut out, &mut seen, &first, Ghost(empty));
    assert(empty + listings_view(first@) == listings_view(first@));
    let second = match &other {
        Ok(text) => parse_other_listed(text.as_str()),
        Err(_) => Vec::new(),
    };
    assert(listings_view(second@) == downloaded_listings(
        ListingFormat::OtherListed,
        download_view(other),
    ));
    proof {
        lemma_downloads_common(ListingFormat::OtherListed, download_view(other));
    }
    add_new_symbols(&mut out, &mut seen, &second, Ghost(listings_view(first@)));
    Ok(out)
}

/// The message when the merged universe is empty.
pub open spec fn empty_universe_message() -> Seq<char> {
    "FINDR universe is empty after filtering (both nasdaqlisted.txt and otherlisted.txt downloads may have failed, and no cached universe is available)"@
}

/// A freshly built universe, or the error that an empty one is reported as.
pub fn universe_or_error(fresh: Vec<(String, String)>) -> (r: Result<Vec<(String, String)>, String>)
    ensures
        fresh@.len() == 0 ==> (r matches Err(msg) && msg@ == empty_universe_message()),
        fresh@.len() > 0 ==> r == Ok::<Vec<(String, String)>, String>(fresh),
{
    if fresh.len() == 0 {
        let msg = "FINDR universe is empty after filtering (both nasdaqlisted.txt and otherlisted.txt downloads may have failed, and no cached universe is available)".to_string();
        Err(msg)
    } else {
        Ok(fresh)
    }
}

// ---------------------------------------------------------------------------------------
// Laws
// ---------------------------------------------------------------------------------------

/// Every listing read from a directory file is common stock: its symbol is one to five
/// uppercase letters and its name holds none of the excluded words.
pub proof fn lemma_listings_are_common_stock(fmt: ListingFormat, lines: Seq<Seq<char>>)
    ensures
        forall|k: int|
            0 <= k < listing_rows(fmt, lines).len() ==> {
                let row = #[trigger] listing_rows(fmt, lines)[k];
                is_common_symbol(row.0) && !name_is_excluded(row.1)
            },
    decreases lines.len(),
{
    if lines.len() > 0 {
        let prev = listing_rows(fmt, lines.drop_last());
        lemma_listings_are_common_stock(fmt, lines.drop_last());
        let cur = listing_rows(fmt, lines);
        assert forall|k: int| 0 <= k < cur.len() implies {
            let row = #[trigger] cur[k];
            is_common_symbol(row.0) && !name_is_excluded(row.1)
        } by {
            if k < prev.len() {
                assert(cur[k] == prev[k]);
            }
        }
    }
}

/// Merging keeps each symbol once, keeps every symbol that any listing has, and keeps for
/// each symbol the first listing that has it.
pub proof fn lemma_universe_merge(rows: Seq<Listing>)
    ensures
        forall|i: int, j: int|
            0 <= i < j < first_per_symbol(rows).len() ==> (#[trigger] first_per_symbol(rows)[i]).0
                != (#[trigger] first_per_symbol(rows)[j]).0,
        forall|k: int| 0 <= k < rows.len() ==> symbol_listed(first_per_symbol(rows), (#[trigger] rows[k]).0),
        forall|i: int|
            0 <= i < first_per_symbol(rows).len() ==> exists|k: int|
                0 <= k < rows.len() && rows[k] == #[trigger] first_per_symbol(rows)[i] && forall|
                    j: int,
                | 0 <= j < k ==> (#[trigger] rows[j]).0 != rows[k].0,
    decreases rows.len(),
{
    if rows.len() > 0 {
        let init = rows.drop_last();
        lemma_universe_merge(init);
        let prev = first_per_symbol(init);
        let cur = first_per_symbol(rows);
        let last = rows.last();
        assert forall|k: int| 0 <= k < rows.len() implies symbol_listed(cur, (#[trigger] rows[k]).0) by {
            if k < rows.len() - 1 {
                assert(rows[k] == init[k]);
                let j = choose|j: int| 0 <= j < prev.len() && (#[trigger] prev[j]).0 == init[k].0;
                assert(cur[j] == prev[j]);
            } else if symbol_listed(prev, last.0) {
                let j = choose|j: int| 0 <= j < prev.len() && (#[trigger] prev[j]).0 == last.0;
                assert(cur[j] == prev[j]);
            } else {
                assert(cur[prev.len() as int] == last);
            }
        }
        assert forall|i: int|
            0 <= i < cur.len() implies exists|k: int|
                0 <= k < rows.len() && rows[k] == #[trigger] cur[i] && forall|j: int|
                    0 <= j < k ==> (#[trigger] rows[j]).0 != rows[k].0 by {
            if i < prev.len() {
                assert(cur[i] == prev[i]);
                let k = choose|k: int|
                    0 <= k < init.len() && init[k] == #[trigger] prev[i] && forall|j: int|
                        0 <= j < k ==> (#[trigger] init[j]).0 != init[k].0;
                assert(rows[k] == init[k]);
                assert forall|j: int| 0 <= j < k implies (#[trigger] rows[j]).0 != rows[k].0 by {
                    assert(rows[j] == init[j]);
                }
            } else {
                let k = rows.len() - 1;
                assert(cur[i] == last);
                assert forall|j: int| 0 <= j < k implies (#[trigger] rows[j]).0 != rows[k].0 by {
                    assert(rows[j] == init[j]);
                    if rows[j].0 == last.0 {
                        let m = choose|m: int| 0 <= m < prev.len() && (#[trigger] prev[m]).0 == init[j].0;
                        assert(symbol_listed(prev, last.0));
                    }
                }
            }
        }
        if !symbol_listed(prev, last.0) {
            assert forall|i: int, j: int|
                0 <= i < j < cur.len() implies (#[trigger] cur[i]).0 != (#[trigger] cur[j]).0 by {
                if j == prev.len() {
                    assert(cur[i] == prev[i]);
                    if cur[i].0 == cur[j].0 {
                        assert(symbol_listed(prev, last.0));
                    }
                } else {
                    assert(cur[i] == prev[i]);
                    assert(cur[j] == prev[j]);
                }
            }
        }
    }
}


/// No listing read from a directory file is anything but common stock by its name and
/// symbol: its name's lowercase form holds none of "warrant", "right", " unit",
/// "depositary", "preferred", "convertible", "debenture" and " notes", and its symbol is one
/// to five letters 'A'..='Z'.
pub proof fn lemma_listings_exclude_words(fmt: ListingFormat, text: Seq<char>)
    ensures
        forall|k: int|
            0 <= k < parsed_listings(fmt, text).len() ==> {
                let row = #[trigger] parsed_listings(fmt, text)[k];
                let l = case_lower(row.1);
                &&& !has_substring(l, "warrant"@)
                &&& !has_substring(l, "right"@)
                &&& !has_substring(l, " unit"@)
                &&& !has_substring(l, "depositary"@)
                &&& !has_substring(l, "preferred"@)
                &&& !has_substring(l, "convertible"@)
                &&& !has_substring(l, "debenture"@)
                &&& !has_substring(l, " notes"@)
                &&& 1 <= row.0.len() <= 5
                &&& forall|c: int| 0 <= c < row.0.len() ==> 65 <= #[trigger] (row.0[c] as u32) <= 90
            },
{
    lemma_listings_are_common_stock(fmt, lines_of(text));
    let rows = parsed_listings(fmt, text);
    assert forall|k: int| 0 <= k < rows.len() implies {
        let row = #[trigger] rows[k];
        let l = case_lower(row.1);
        &&& !has_substring(l, "warrant"@)
        &&& !has_substring(l, "right"@)
        &&& !has_substring(l, " unit"@)
        &&& !has_substring(l, "depositary"@)
        &&& !has_substring(l, "preferred"@)
        &&& !has_substring(l, "convertible"@)
        &&& !has_substring(l, "debenture"@)
        &&& !has_substring(l, " notes"@)
        &&& 1 <= row.0.len() <= 5
        &&& forall|c: int| 0 <= c < row.0.len() ==> 65 <= #[trigger] (row.0[c] as u32) <= 90
    } by {
        assert(is_common_symbol(rows[k].0) && !name_is_excluded(rows[k].1));
    }
}


/// What one directory line yields, field by field: a line is kept exactly when it is not
/// the footer ("File Creation Time"), has at least eight '|'-separated fields, is not the
/// header ("Symbol" / "ACT Symbol" in field 0), its Test Issue field (3 / 6) and ETF field
/// (6 / 4) are not "Y" once trimmed, its trimmed symbol is one to five letters 'A'..='Z', and
/// its trimmed name's lowercase form holds none of the excluded words; a kept line yields
/// its trimmed symbol and name.
pub proof fn lemma_listing_row_fields(fmt: ListingFormat, line: Seq<char>)
    ensures
        ({
            let cols = split_on(line, '|');
            let nasdaq = fmt == ListingFormat::NasdaqListed;
            let header: Seq<char> = if nasdaq { "Symbol"@ } else { "ACT Symbol"@ };
            let test_col: int = if nasdaq { 3 } else { 6 };
            let etf_col: int = if nasdaq { 6 } else { 4 };
            let keep = !has_substring(line, "File Creation Time"@) && cols.len() >= 8 && cols[0]
                != header && trimmed(cols[test_col]) != "Y"@ && trimmed(cols[etf_col]) != "Y"@ && 1
                <= trimmed(cols[0]).len() <= 5 && (forall|c: int|
                0 <= c < trimmed(cols[0]).len() ==> 65 <= #[trigger] (trimmed(cols[0])[c] as u32)
                    <= 90) && ({
                let l = case_lower(trimmed(cols[1]));
                !has_substring(l, "warrant"@) && !has_substring(l, "right"@) && !has_substring(
                    l,
                    " unit"@,
                ) && !has_substring(l, "depositary"@) && !has_substring(l, "preferred"@)
                    && !has_substring(l, "convertible"@) && !has_substring(l, "debenture"@)
                    && !has_substring(l, " notes"@)
            });
            listing_row(fmt, line) == if keep {
                Some((trimmed(cols[0]), trimmed(cols[1])))
            } else {
                None
            }
        }),
{
}

/// A directory file yields, in file order, what each of its lines yields.
pub proof fn lemma_listings_per_line(fmt: ListingFormat, lines: Seq<Seq<char>>)
    ensures
        listing_rows(fmt, lines) == lines.filter_map(|l: Seq<char>| listing_row(fmt, l)),
    decreases lines.len(),
{
    if lines.len() > 0 {
        lemma_listings_per_line(fmt, lines.drop_last());
        let f = |l: Seq<char>| listing_row(fmt, l);
        let prev = lines.drop_last().filter_map(f);
        match listing_row(fmt, lines.last()) {
            Some(r) => {
                assert(prev.push(r) == prev + seq![r]);
            },
            None => {},
        }
    }
}

} // verus!
