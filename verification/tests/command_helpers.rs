use swingr::commands::{
    auth_step, check_url, crumb_from_body, date_label, news_status, news_summary, AuthAction, export_dir, fundamentals_read, history_check,
    is_auth_error, quote_reply_check, sanitize_filename, ymd, ExportDir, HistoryUse, PeComparison,
    RangePosition,
};

#[test]
fn history_checks() {
    assert_eq!(history_check(60, "weekly", "BSX", HistoryUse::Scan), Ok(()));
    assert_eq!(
        history_check(59, "weekly", "bsx", HistoryUse::Scan),
        Err("Only 59 weekly candles for bsx; need history for a 200 EMA.".to_string())
    );
    assert_eq!(
        history_check(3, "daily", "ABC", HistoryUse::Chart),
        Err("Only 3 daily candles for ABC.".to_string())
    );
    assert_eq!(
        history_check(0, "daily", "ABC", HistoryUse::Findr),
        Err("only 0 daily candles for ABC".to_string())
    );
}

#[test]
fn trade_dates() {
    assert_eq!(ymd(0), "1970-01-01");
    assert_eq!(ymd(1_700_000_000), "2023-11-14");
    assert_eq!(ymd(-1), "1969-12-31");
    assert_eq!(ymd(i64::MAX), i64::MAX.to_string());
    assert_eq!(ymd(-377_705_116_800), "-9999-01-01");
    assert_eq!(ymd(253_402_300_799), "9999-12-31");
    assert_eq!(ymd(253_402_300_800), "253402300800");
    assert_eq!(ymd(951_782_400), "2000-02-29");
    assert_eq!(date_label(Some((7, 3, 9)), 0), "0007-03-09");
    assert_eq!(date_label(Some((-44, 3, 15)), 0), "-044-03-15");
    assert_eq!(date_label(None, -5), "-5");
}

#[test]
fn crumbs_and_auth_errors() {
    assert_eq!(crumb_from_body("  abc.DEF\n"), Ok("abc.DEF".to_string()));
    assert_eq!(crumb_from_body(" \n"), Err("empty crumb from getcrumb".to_string()));
    assert!(is_auth_error("Unauthorized: HTTP 401"));
    assert!(!is_auth_error("no quote result for ticker"));
}

#[test]
fn quote_replies() {
    assert_eq!(quote_reply_check(Some("{\"code\":\"x\"}"), Some("401"), true), Err("Unauthorized: {\"code\":\"x\"}".to_string()));
    assert_eq!(quote_reply_check(None, Some("401 Unauthorized"), true), Err("Unauthorized: HTTP 401 Unauthorized".to_string()));
    assert_eq!(quote_reply_check(None, None, false), Err("no quote result for ticker".to_string()));
    assert_eq!(quote_reply_check(None, None, true), Ok(()));
}

#[test]
fn url_screening() {
    assert_eq!(check_url("https://finance.yahoo.com/quote/BSX"), Ok(()));
    assert_eq!(check_url("HTTP://EXAMPLE.COM"), Ok(()));
    assert_eq!(check_url("file:///etc/passwd"), Err("only http(s) URLs are allowed".to_string()));
    assert_eq!(check_url("https://x.com/a b"), Err("URL contains illegal characters".to_string()));
    assert_eq!(check_url("https://x.com/;rm"), Err("URL contains illegal characters".to_string()));
    assert_eq!(check_url("https://x.com/$(id)"), Err("URL contains illegal characters".to_string()));
}

#[test]
fn export_folders_and_names() {
    assert!(matches!(export_dir("desktop"), ExportDir::Desktop));
    assert!(matches!(export_dir("downloads"), ExportDir::Downloads));
    assert!(matches!(export_dir("elsewhere"), ExportDir::Downloads));
    match export_dir("/Users/me/out") {
        ExportDir::Folder(p) => assert_eq!(p, "/Users/me/out"),
        _ => panic!("expected a folder"),
    }
    assert_eq!(sanitize_filename("../etc/x"), ".._etc_x.txt");
    assert_eq!(sanitize_filename("scan.JSON"), "scan.JSON");
    assert_eq!(sanitize_filename("a\\b.txt"), "a_b.txt");
    assert_eq!(sanitize_filename("report"), "report.txt");
}

#[test]
fn fundamentals_sentences() {
    assert_eq!(
        fundamentals_read(Some(true), None, None, Some(RangePosition::LowerThird)),
        "Unprofitable on a trailing basis (negative/no earnings). Trading in the lower third of its 52-week range."
    );
    assert_eq!(
        fundamentals_read(None, Some(true), None, None),
        "Unprofitable on a trailing basis (negative/no earnings)."
    );
    let pe = PeComparison { forward_below_trailing: true, forward: "18.2".to_string(), trailing: "25.0".to_string() };
    assert_eq!(
        fundamentals_read(Some(false), Some(false), Some(pe), Some(RangePosition::Middle)),
        "Forward P/E 18.2 below trailing 25.0 \u{2014} market expects earnings to grow. Trading in the middle of its 52-week range."
    );
    let pe = PeComparison { forward_below_trailing: false, forward: "30.0".to_string(), trailing: "25.0".to_string() };
    assert_eq!(
        fundamentals_read(None, None, Some(pe), None),
        "Forward P/E 30.0 at/above trailing 25.0 \u{2014} no earnings growth priced in."
    );
    assert_eq!(fundamentals_read(None, None, None, Some(RangePosition::UpperThird)), "Trading in the upper third of its 52-week range.");
    assert_eq!(fundamentals_read(None, None, None, None), "");
}

#[test]
fn reauthenticates_once_on_unauthorized() {
    assert!(matches!(auth_step(true, Ok(())), AuthAction::Use));
    assert!(matches!(auth_step(true, Err("Unauthorized: HTTP 401".to_string())), AuthAction::Reauthenticate));
    match auth_step(false, Err("Unauthorized: HTTP 401".to_string())) {
        AuthAction::Fail(e) => assert_eq!(e, "Unauthorized: HTTP 401"),
        _ => panic!("the retry is final"),
    }
    match auth_step(true, Err("quote request failed: timeout".to_string())) {
        AuthAction::Fail(e) => assert_eq!(e, "quote request failed: timeout"),
        _ => panic!("only authorization failures are retried"),
    }
}

#[test]
fn news_replies() {
    assert_eq!(news_status(Some("503 Service Unavailable")), Err("HTTP 503 Service Unavailable".to_string()));
    assert_eq!(news_status(None), Ok(()));
    let s = |x: &str| Some(x.to_string());
    let raw: Vec<(Option<String>, Option<String>, Option<String>, Option<i64>)> = (0..8)
        .map(|i| (s(&format!("t{i}")), None, s("l"), if i == 0 { None } else { Some(i) }))
        .collect();
    let n = news_summary(Some(None), s("Tech"), None, s("Chips"), &raw);
    assert_eq!(n.sector, None);
    assert_eq!(n.industry, s("Chips"));
    assert_eq!(n.items.len(), 6);
    assert_eq!(n.items[5].title, "t5");
    assert_eq!(n.items[0].publisher, "");
    assert_eq!(n.items[0].unix_time, None);
    assert_eq!(n.items[3].unix_time, Some(3));
    let n = news_summary(Some(s("Technology")), s("Tech"), None, None, &Vec::new());
    assert_eq!(n.sector, s("Technology"));
    assert_eq!(n.industry, None);
    assert!(n.items.is_empty());
}
