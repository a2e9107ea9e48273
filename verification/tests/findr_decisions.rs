use swingr::findr::{
    is_hit, letter_range, normalize_timeframe, progress_due, rank_hits, retry_delay_ms,
    symbols_in_range,
};

fn pairs(v: &[(&str, &str)]) -> Vec<(String, String)> {
    v.iter().map(|(a, b)| (a.to_string(), b.to_string())).collect()
}

#[test]
fn letter_range_parses_and_orders_bounds() {
    assert_eq!(letter_range("a", "c"), Ok(('A', 'C')));
    assert_eq!(letter_range(" z ", "m"), Ok(('M', 'Z')));
    assert_eq!(letter_range("Bravo", "b"), Ok(('B', 'B')));
    assert_eq!(letter_range("m", "z"), letter_range("z", "m"));
}

#[test]
fn letter_range_errors() {
    assert_eq!(letter_range("  ", "c"), Err("start must be a single letter A-Z".to_string()));
    assert_eq!(letter_range("a", ""), Err("end must be a single letter A-Z".to_string()));
    assert_eq!(letter_range("1", "c"), Err("start/end must be A-Z letters".to_string()));
    assert_eq!(letter_range("a", "\u{e9}"), Err("start/end must be A-Z letters".to_string()));
    // uppercasing "\u{df}" gives "SS", whose first letter is S
    assert_eq!(letter_range("\u{df}", "t"), Ok(('S', 'T')));
}

#[test]
fn timeframe_defaults_to_weekly() {
    assert_eq!(normalize_timeframe("daily"), "daily");
    assert_eq!(normalize_timeframe("weekly"), "weekly");
    assert_eq!(normalize_timeframe("monthly"), "weekly");
}

#[test]
fn symbols_filtered_by_first_letter() {
    let u = pairs(&[("AAPL", "a"), ("MSFT", "m"), ("BAC", "b"), ("ZM", "z"), ("C", "c")]);
    assert_eq!(symbols_in_range(&u, 'B', 'M'), pairs(&[("MSFT", "m"), ("BAC", "b"), ("C", "c")]));
    assert!(symbols_in_range(&u, 'N', 'Y').is_empty());
}

#[test]
fn retries_then_gives_up() {
    assert_eq!(retry_delay_ms(1), Some(400));
    assert_eq!(retry_delay_ms(2), Some(900));
    assert_eq!(retry_delay_ms(3), None);
    assert_eq!(retry_delay_ms(0), None);
}

#[test]
fn progress_every_fifteen() {
    assert!(progress_due(15));
    assert!(progress_due(30));
    assert!(!progress_due(16));
}

#[test]
fn hits_are_buy_verdicts() {
    assert!(is_hit("BUY"));
    assert!(is_hit("BUY (thin R \u{2014} size down)"));
    assert!(!is_hit("WATCH \u{2014} wait for reclaim of 9/20"));
    assert!(!is_hit("buy"));
}

#[test]
fn hits_ranked_by_r_multiple() {
    let r = vec![Some(150), None, Some(742), Some(150), None, Some(200)];
    assert_eq!(rank_hits(&r), vec![2, 5, 0, 3, 1, 4]);
}
