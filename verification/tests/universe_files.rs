use swingr::universe::{
    build_universe, is_common_stock_symbol, name_excluded, parse_nasdaq_listed, parse_other_listed,
    universe_or_error,
};

const NASDAQ: &str = "Symbol|Security Name|Market Category|Test Issue|Financial Status|Round Lot Size|ETF|NextShares\n\
AAPL|Apple Inc. - Common Stock|Q|N|N|100|N|N\r\n\
ZVZZT|NASDAQ TEST STOCK|G|Y|N|100|N|N\n\
QQQ|Invesco QQQ Trust|G|N|N|100|Y|N\n\
ABCDW|Abc Corp - Warrant|G|N|N|100|N|N\n\
BRK.A|Berkshire|G|N|N|100|N|N\n\
SHORT|too|few|fields\n\
 MSFT |  Microsoft Corporation - Common Stock |Q|N|N|100|N|N\n\
File Creation Time: 0101202400:00|||||||\n";

const OTHER: &str = "ACT Symbol|Security Name|Exchange|CQS Symbol|ETF|Round Lot Size|Test Issue|NASDAQ Symbol\n\
A|Agilent Technologies, Inc. Common Stock|N|A|N|100|N|A\n\
AAPL|Apple duplicate|N|AAPL|N|100|N|AAPL\n\
BAC-PB|Bank of America Preferred|N|BAC PB|N|100|N|BAC-PB\n\
SPY|SPDR S&P 500|P|SPY|Y|100|N|SPY\n\
XYZ|Xyz Depositary Shares|N|XYZ|N|100|N|XYZ\n\
TEST|Test Co|N|TEST|N|100|Y|TEST\n\
File Creation Time: 0101202400:00|||||||";

fn pairs(v: &[(&str, &str)]) -> Vec<(String, String)> {
    v.iter().map(|(a, b)| (a.to_string(), b.to_string())).collect()
}

#[test]
fn common_stock_symbols() {
    assert!(is_common_stock_symbol("A"));
    assert!(is_common_stock_symbol("GOOGL"));
    assert!(!is_common_stock_symbol(""));
    assert!(!is_common_stock_symbol("ABCDEF"));
    assert!(!is_common_stock_symbol("BRK.A"));
    assert!(!is_common_stock_symbol("abc"));
    assert!(!is_common_stock_symbol("\u{c4}B"));
}

#[test]
fn excluded_names_ignore_case() {
    assert!(name_excluded("ACME CORP WARRANTS"));
    assert!(name_excluded("Foo Rights"));
    assert!(name_excluded("Foo Trust Units"));
    assert!(name_excluded("Foo 5% Senior Notes due 2030"));
    assert!(name_excluded("Foo Depositary Shares"));
    assert!(!name_excluded("Foo Inc. - Common Stock"));
    assert!(!name_excluded("Unity Software"));
}

#[test]
fn nasdaq_listed_rows() {
    let got = parse_nasdaq_listed(NASDAQ);
    assert_eq!(
        got,
        pairs(&[
            ("AAPL", "Apple Inc. - Common Stock"),
            ("MSFT", "Microsoft Corporation - Common Stock"),
        ])
    );
}

#[test]
fn other_listed_rows() {
    let got = parse_other_listed(OTHER);
    assert_eq!(
        got,
        pairs(&[("A", "Agilent Technologies, Inc. Common Stock"), ("AAPL", "Apple duplicate")])
    );
}

#[test]
fn universe_merges_with_first_listing_winning() {
    let u = build_universe(Ok(NASDAQ.to_string()), Ok(OTHER.to_string())).unwrap();
    assert_eq!(
        u,
        pairs(&[
            ("AAPL", "Apple Inc. - Common Stock"),
            ("MSFT", "Microsoft Corporation - Common Stock"),
            ("A", "Agilent Technologies, Inc. Common Stock"),
        ])
    );
    let only_other = build_universe(Err("timeout".to_string()), Ok(OTHER.to_string())).unwrap();
    assert_eq!(only_other.len(), 2);
}

#[test]
fn universe_fails_when_both_downloads_fail() {
    let e = build_universe(Err("e1".to_string()), Err("e2".to_string())).unwrap_err();
    assert_eq!(
        e,
        "FINDR universe download failed for both sources: nasdaqlisted=e1, otherlisted=e2"
    );
}

#[test]
fn empty_universe_is_an_error() {
    let e = universe_or_error(Vec::new()).unwrap_err();
    assert!(e.starts_with("FINDR universe is empty after filtering (both nasdaqlisted.txt and otherlisted.txt downloads"));
    let u = pairs(&[("A", "x")]);
    assert_eq!(universe_or_error(u.clone()).unwrap(), u);
}
