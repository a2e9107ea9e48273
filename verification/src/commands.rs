//! The decisions of the desktop commands that surround the engine: history checks, trade
//! dates, Yahoo authentication replies, URL and file-name screening, and the plain-English
//! fundamentals summary.

use vstd::prelude::*;

use crate::text::{
    chars_end_with, chars_of, chars_start_with, decimal, has_prefix, has_suffix, is_whitespace,
    is_ws, case_lower, push_chars, push_decimal, push_str, push_signed_decimal, push_zero_padded,
    signed_decimal, starts_with_str, str_eq, string_of, to_lowercase, trim, trimmed, zero_padded,
};

verus! {

// ---------------------------------------------------------------------------------------
// History length
// ---------------------------------------------------------------------------------------

/// Bars needed before a ticker is scanned or charted.
pub const MIN_BARS: usize = 60;

/// The command that checks a history's length; each words its refusal its own way.
#[derive(Clone, Copy, Debug, PartialEq, Eq, Structural)]
pub enum HistoryUse {
    /// A FINDR scan of one symbol.
    Findr,
    /// A single-ticker scan.
    Scan,
    /// A chart.
    Chart,
}

/// The refusal for a history of `bars` bars.
pub open spec fn short_history_message(purpose: HistoryUse, bars: nat, timeframe: Seq<char>, ticker: Seq<char>) -> Seq<char> {
    match purpose {
        HistoryUse::Findr => "only "@ + decimal(bars) + " "@ + timeframe + " candles for "@
            + ticker,
        HistoryUse::Scan => "Only "@ + decimal(bars) + " "@ + timeframe + " candles for "@
            + ticker + "; need history for a 200 EMA."@,
        HistoryUse::Chart => "Only "@ + decimal(bars) + " "@ + timeframe + " candles for "@
            + ticker + "."@,
    }
}

/// A history of `bars` bars is long enough (at least 60), or the refusal that says so.
pub fn history_check(bars: usize, timeframe: &str, ticker: &str, purpose: HistoryUse) -> (r: Result<(), String>)
    ensures
        r is Ok <==> bars >= MIN_BARS,
        r matches Err(m) ==> m@ == short_history_message(purpose, bars as nat, timeframe@, ticker@),
{
    if bars >= MIN_BARS {
        return Ok(());
    }
    let mut m: Vec<char> = Vec::new();
    match purpose {
        HistoryUse::Findr => push_str(&mut m, "only "),
        _ => push_str(&mut m, "Only "),
    }
    push_decimal(&mut m, bars as u64);
    push_str(&mut m, " ");
    push_str(&mut m, timeframe);
    push_str(&mut m, " candles for ");
    push_str(&mut m, ticker);
    match purpose {
        HistoryUse::Findr => {},
        HistoryUse::Scan => push_str(&mut m, "; need history for a 200 EMA."),
        HistoryUse::Chart => push_str(&mut m, "."),
    }
    Err(string_of(m.as_slice()))
}

// ---------------------------------------------------------------------------------------
// Trade dates
// ---------------------------------------------------------------------------------------

#[verifier::external_type_specification]
#[verifier::external_body]
pub struct ExComponentRange(time::error::ComponentRange);

/// A leap year of the proleptic Gregorian calendar.
pub open spec fn is_leap(y: int) -> bool {
    (y % 4 == 0 && y % 100 != 0) || y % 400 == 0
}

/// The number of days in month `m` of year `y`.
pub open spec fn days_in_month(y: int, m: int) -> int {
    if m == 2 {
        if is_leap(y) {
            29
        } else {
            28
        }
    } else if m == 4 || m == 6 || m == 9 || m == 11 {
        30
    } else {
        31
    }
}

/// Days from 1970-01-01 to the date `y-m-d` of the proleptic Gregorian calendar.
pub open spec fn days_from_civil(y: int, m: int, d: int) -> int {
    let yy = if m <= 2 { y - 1 } else { y };
    let era = yy / 400;
    let yoe = yy - era * 400;
    let mp = if m > 2 { m - 3 } else { m + 9 };
    let doy = (153 * mp + 2) / 5 + d - 1;
    let doe = yoe * 365 + yoe / 4 - yoe / 100 + doy;
    era * 146097 + doe - 719468
}

/// `date` (year, month, day) is a valid calendar date, and the UTC day of timestamp `ts`.
pub open spec fn is_date_of(ts: int, date: (int, int, int)) -> bool {
    let (y, m, d) = date;
    &&& 1 <= m <= 12
    &&& 1 <= d <= days_in_month(y, m)
    &&& days_from_civil(y, m, d) == ts / 86400
}

/// The timestamps of the years -9999 to 9999: from -9999-01-01T00:00:00Z to
/// 9999-12-31T23:59:59Z.
pub open spec fn timestamp_in_range(ts: int) -> bool {
    -377705116800 <= ts <= 253402300799
}

/// The UTC calendar date (year, month, day) of a Unix timestamp, as `time` computes it,
/// or `None` when the timestamp lies outside the dates `time` represents.
pub uninterp spec fn utc_date(ts: i64) -> Option<(int, int, int)>;

/// `time::OffsetDateTime::from_unix_timestamp`, read as a calendar date.
/// Claimed: the outcome depends on the timestamp alone; on success the result is the valid
/// proleptic Gregorian date of the timestamp's UTC day; every timestamp of the years -9999
/// to 9999 succeeds. Whether a timestamp beyond those years succeeds depends on the
/// crate's `large-dates` feature (off in this build) and is left unsaid.
#[verifier::external_body]
fn unix_date(ts: i64) -> (r: Result<(i32, u8, u8), time::error::ComponentRange>)
    ensures
        match r {
            Ok(d) => utc_date(ts) == Some((d.0 as int, d.1 as int, d.2 as int)) && is_date_of(
                ts as int,
                (d.0 as int, d.1 as int, d.2 as int),
            ),
            Err(_) => utc_date(ts) is None && !timestamp_in_range(ts as int),
        },
{
    match time::OffsetDateTime::from_unix_timestamp(ts) {
        Ok(dt) => Ok((dt.year(), dt.month() as u8, dt.day())),
        Err(e) => Err(e),
    }
}

/// A trade date as shown: `YYYY-MM-DD` (`{:04}-{:02}-{:02}`), or the raw timestamp when it
/// has no date.
pub open spec fn date_text(date: Option<(int, int, int)>, ts: int) -> Seq<char> {
    match date {
        Some((y, m, d)) => zero_padded(y, 4) + "-"@ + zero_padded(m, 2) + "-"@ + zero_padded(d, 2),
        None => signed_decimal(ts),
    }
}

/// A trade date as shown, from its calendar date (if any) and its timestamp.
pub fn date_label(date: Option<(i32, u8, u8)>, ts: i64) -> (s: String)
    ensures
        s@ == date_text(
            match date {
                Some(d) => Some((d.0 as int, d.1 as int, d.2 as int)),
                None => None,
            },
            ts as int,
        ),
{
    let mut out: Vec<char> = Vec::new();
    match date {
        Some((y, m, d)) => {
            push_zero_padded(&mut out, y as i64, 4);
            push_str(&mut out, "-");
            push_zero_padded(&mut out, m as i64, 2);
            push_str(&mut out, "-");
            push_zero_padded(&mut out, d as i64, 2);
        },
        None => push_signed_decimal(&mut out, ts),
    }
    string_of(out.as_slice())
}

/// The date of a Unix timestamp as `YYYY-MM-DD`, or the timestamp itself when `time`
/// cannot represent it (never for the years -9999 to 9999).
pub fn ymd(ts: i64) -> (s: String)
    ensures
        s@ == date_text(utc_date(ts), ts as int),
        utc_date(ts) matches Some(d) ==> is_date_of(ts as int, d),
        timestamp_in_range(ts as int) ==> utc_date(ts) is Some,
{
    let date = match unix_date(ts) {
        Ok(d) => Some(d),
        Err(_) => None,
    };
    date_label(date, ts)
}

// ---------------------------------------------------------------------------------------
// Yahoo authentication replies
// ---------------------------------------------------------------------------------------

/// The crumb a `getcrumb` reply carries: its trimmed body, which must not be empty.
pub fn crumb_from_body(body: &str) -> (r: Result<String, String>)
    ensures
        trimmed(body@).len() > 0 ==> (r matches Ok(c) && c@ == trimmed(body@)),
        trimmed(body@).len() == 0 ==> (r matches Err(e) && e@ == "empty crumb from getcrumb"@),
{
    let crumb = trim(body);
    if crumb.as_str().is_empty() {
        Err("empty crumb from getcrumb".to_string())
    } else {
        Ok(crumb)
    }
}

/// Whether a quote failure was an authorization failure (the crumb was rejected), which
/// calls for a fresh handshake.
pub fn is_auth_error(e: &str) -> (r: bool)
    ensures
        r == has_prefix(e@, "Unauthorized"@),
{
    starts_with_str(e, "Unauthorized")
}

/// What a quote reply means: an error object in the reply, or an HTTP failure status, is
/// an authorization failure; otherwise the reply must hold a first result.
/// `error_text` is the reply's non-null `/quoteResponse/error`, as printed;
/// `failed_status` the status line when it is not a success.
pub fn quote_reply_check(error_text: Option<&str>, failed_status: Option<&str>, has_result: bool) -> (r: Result<(), String>)
    ensures
        match (error_text, failed_status) {
            (Some(e), _) => r matches Err(m) && m@ == "Unauthorized: "@ + e@,
            (None, Some(st)) => r matches Err(m) && m@ == "Unauthorized: HTTP "@ + st@,
            (None, None) => if has_result {
                r is Ok
            } else {
                r matches Err(m) && m@ == "no quote result for ticker"@
            },
        },
{
    if let Some(e) = error_text {
        let mut m: Vec<char> = Vec::new();
        push_str(&mut m, "Unauthorized: ");
        push_str(&mut m, e);
        return Err(string_of(m.as_slice()));
    }
    if let Some(st) = failed_status {
        let mut m: Vec<char> = Vec::new();
        push_str(&mut m, "Unauthorized: HTTP ");
        push_str(&mut m, st);
        return Err(string_of(m.as_slice()));
    }
    if has_result {
        Ok(())
    } else {
        Err("no quote result for ticker".to_string())
    }
}

// ---------------------------------------------------------------------------------------
// Opening reference links
// ---------------------------------------------------------------------------------------

/// A character that may not appear in a URL handed to the system opener: whitespace or a
/// shell metacharacter.
pub open spec fn is_illegal_url_char(c: char) -> bool {
    is_ws(c) || c == '\'' || c == '"' || c == '`' || c == ';' || c == '|' || c == '&' || c == '$'
        || c == '<' || c == '>' || c == '\\'
}

/// Whether a URL may be opened: only http(s), and no character that a shell could act on.
pub open spec fn url_verdict(url: Seq<char>) -> Result<(), Seq<char>> {
    let lower = case_lower(url);
    if !(has_prefix(lower, "http://"@) || has_prefix(lower, "https://"@)) {
        Err("only http(s) URLs are allowed"@)
    } else if exists|k: int| 0 <= k < url.len() && is_illegal_url_char(#[trigger] url[k]) {
        Err("URL contains illegal characters"@)
    } else {
        Ok(())
    }
}

/// Screens a URL before it is opened in the user's browser: only http(s) URLs with no
/// whitespace or shell metacharacters pass, so opening one can never run a command.
pub fn check_url(url: &str) -> (r: Result<(), String>)
    ensures
        match r {
            Ok(()) => url_verdict(url@) is Ok,
            Err(e) => url_verdict(url@) == Err::<(), Seq<char>>(e@),
        },
        r is Ok ==> (has_prefix(case_lower(url@), "http://"@) || has_prefix(
            case_lower(url@),
            "https://"@,
        )),
        r is Ok ==> forall|k: int|
            0 <= k < url@.len() ==> {
                let c = #[trigger] url@[k];
                &&& !is_ws(c)
                &&& c != '\'' && c != '"' && c != '`' && c != ';' && c != '|' && c != '&'
                &&& c != '$' && c != '<' && c != '>' && c != '\\'
            },
{
    let lower = to_lowercase(url);
    let lc = chars_of(lower.as_str());
    let p1 = chars_of("http://");
    let p2 = chars_of("https://");
    if !(chars_start_with(&lc, &p1) || chars_start_with(&lc, &p2)) {
        return Err("only http(s) URLs are allowed".to_string());
    }
    let v = chars_of(url);
    let mut k: usize = 0;
    while k < v.len()
        invariant
            v@ == url@,
            k <= v.len(),
            has_prefix(case_lower(url@), "http://"@) || has_prefix(case_lower(url@), "https://"@),
            forall|j: int| 0 <= j < k ==> !is_illegal_url_char(#[trigger] v@[j]),
        decreases v.len() - k,
    {
        let c = v[k];
        if is_whitespace(c) || c == '\'' || c == '"' || c == '`' || c == ';' || c == '|' || c
            == '&' || c == '$' || c == '<' || c == '>' || c == '\\' {
            assert(is_illegal_url_char(url@[k as int]));
            return Err("URL contains illegal characters".to_string());
        }
        k = k + 1;
    }
    Ok(())
}

// ---------------------------------------------------------------------------------------
// Saving exports
// ---------------------------------------------------------------------------------------

/// Where an export is saved.
pub enum ExportDir {
    /// The user's Desktop folder.
    Desktop,
    /// The user's Downloads folder.
    Downloads,
    /// An absolute folder the user chose.
    Folder(String),
}

/// The folder for an export: "desktop" or "downloads", an absolute path as given, and
/// Downloads for anything else.
pub fn export_dir(location: &str) -> (d: ExportDir)
    ensures
        location@ == "desktop"@ ==> d is Desktop,
        location@ != "desktop"@ && location@ == "downloads"@ ==> d is Downloads,
        location@ != "desktop"@ && location@ != "downloads"@ && has_prefix(location@, seq!['/'])
            ==> (d matches ExportDir::Folder(p) && p@ == location@),
        location@ != "desktop"@ && location@ != "downloads"@ && !has_prefix(location@, seq!['/'])
            ==> d is Downloads,
{
    if str_eq(location, "desktop") {
        ExportDir::Desktop
    } else if str_eq(location, "downloads") {
        ExportDir::Downloads
    } else {
        let v = chars_of(location);
        if v.len() > 0 && v[0] == '/' {
            assert(v@.take(1) == seq!['/']);
            ExportDir::Folder(string_of(v.as_slice()))
        } else {
            assert(!has_prefix(location@, seq!['/'])) by {
                if has_prefix(location@, seq!['/']) {
                    assert(location@.take(1)[0] == '/');
                }
            }
            ExportDir::Downloads
        }
    }
}

/// A file name with every path separator ('/' or '\') replaced by '_'.
pub open spec fn without_separators(name: Seq<char>) -> Seq<char> {
    name.map_values(|c: char| if c == '/' || c == '\\' { '_' } else { c })
}

/// The name an export is saved under: separators replaced, and ".txt" appended unless
/// the name already ends in ".txt" or ".json" (in any case).
pub open spec fn export_name(filename: Seq<char>) -> Seq<char> {
    let name = without_separators(filename);
    let lower = case_lower(name);
    if has_suffix(lower, ".txt"@) || has_suffix(lower, ".json"@) {
        name
    } else {
        name + ".txt"@
    }
}

/// The sanitized file name of an export: no path separators, and a .txt or .json
/// extension (".txt" is appended when neither is present).
pub fn sanitize_filename(filename: &str) -> (r: String)
    ensures
        r@ == export_name(filename@),
        forall|k: int| 0 <= k < r@.len() ==> #[trigger] r@[k] != '/' && r@[k] != '\\',
{
    let v = chars_of(filename);
    let mut name: Vec<char> = Vec::new();
    let mut k: usize = 0;
    while k < v.len()
        invariant
            v@ == filename@,
            k <= v.len(),
            name@ == without_separators(v@.take(k as int)),
        decreases v.len() - k,
    {
        let c = v[k];
        if c == '/' || c == '\\' {
            name.push('_');
        } else {
            name.push(c);
        }
        k = k + 1;
        assert(name@ == without_separators(v@.take(k as int)));
    }
    assert(v@.take(v.len() as int) == v@);
    let name_s = string_of(name.as_slice());
    let lower = to_lowercase(name_s.as_str());
    let lc = chars_of(lower.as_str());
    let txt = chars_of(".txt");
    let json = chars_of(".json");
    if !(chars_end_with(&lc, &txt) || chars_end_with(&lc, &json)) {
        push_chars(&mut name, &txt);
    }
    proof {
        reveal_strlit(".txt");
    }
    string_of(name.as_slice())
}

// ---------------------------------------------------------------------------------------
// Fundamentals summary
// ---------------------------------------------------------------------------------------

/// The forward and trailing P/E of a profitable company, as shown (one decimal).
pub struct PeComparison {
    /// Whether the forward P/E is below the trailing P/E.
    pub forward_below_trailing: bool,
    /// The forward P/E, as shown.
    pub forward: String,
    /// The trailing P/E, as shown.
    pub trailing: String,
}

/// Where the price stands in its 52-week range.
#[derive(Clone, Copy, Debug, PartialEq, Eq, Structural)]
pub enum RangePosition {
    /// Below a third of the way up the range.
    LowerThird,
    /// Between a third and two thirds of the way up.
    Middle,
    /// Two thirds of the way up or more.
    UpperThird,
}

/// Whether the company is unprofitable on a trailing basis: a non-positive trailing P/E,
/// or, without one, a non-positive trailing EPS.
pub open spec fn unprofitable(trailing_pe_nonpositive: Option<bool>, eps_ttm_nonpositive: Option<bool>) -> bool {
    match trailing_pe_nonpositive {
        Some(b) => b,
        None => eps_ttm_nonpositive == Some(true),
    }
}

/// The earnings sentence, if any.
pub open spec fn earnings_sentence(unprofitable: bool, pe: Option<(bool, Seq<char>, Seq<char>)>) -> Option<Seq<char>> {
    if unprofitable {
        Some("Unprofitable on a trailing basis (negative/no earnings)."@)
    } else {
        match pe {
            Some((below, f, t)) => if below {
                Some("Forward P/E "@ + f + " below trailing "@ + t
                    + " \u{2014} market expects earnings to grow."@)
            } else {
                Some("Forward P/E "@ + f + " at/above trailing "@ + t
                    + " \u{2014} no earnings growth priced in."@)
            },
            None => None,
        }
    }
}

/// The words naming a position in the 52-week range.
pub open spec fn range_words(p: RangePosition) -> Seq<char> {
    match p {
        RangePosition::LowerThird => "lower third"@,
        RangePosition::Middle => "middle"@,
        RangePosition::UpperThird => "upper third"@,
    }
}

/// The range sentence, if any.
pub open spec fn range_sentence(range: Option<RangePosition>) -> Option<Seq<char>> {
    match range {
        Some(p) => Some("Trading in the "@ + range_words(p) + " of its 52-week range."@),
        None => None,
    }
}

/// The sentences joined by single spaces.
pub open spec fn join_sentences(a: Option<Seq<char>>, b: Option<Seq<char>>) -> Seq<char> {
    match (a, b) {
        (Some(x), Some(y)) => x + " "@ + y,
        (Some(x), None) => x,
        (None, Some(y)) => y,
        (None, None) => seq![],
    }
}

/// The view of a P/E comparison.
pub open spec fn pe_view(pe: Option<PeComparison>) -> Option<(bool, Seq<char>, Seq<char>)> {
    match pe {
        Some(c) => Some((c.forward_below_trailing, c.forward@, c.trailing@)),
        None => None,
    }
}

/// A factual one- or two-sentence read of the fundamentals: profitability or the P/E
/// trend, then the position in the 52-week range.
pub fn fundamentals_read(
    trailing_pe_nonpositive: Option<bool>,
    eps_ttm_nonpositive: Option<bool>,
    pe: Option<PeComparison>,
    range: Option<RangePosition>,
) -> (s: String)
    ensures
        s@ == join_sentences(
            earnings_sentence(unprofitable(trailing_pe_nonpositive, eps_ttm_nonpositive), pe_view(pe)),
            range_sentence(range),
        ),
{
    let loss = match trailing_pe_nonpositive {
        Some(b) => b,
        None => match eps_ttm_nonpositive {
            Some(b) => b,
            None => false,
        },
    };
    let mut out: Vec<char> = Vec::new();
    let mut has_first = false;
    if loss {
        push_str(&mut out, "Unprofitable on a trailing basis (negative/no earnings).");
        has_first = true;
    } else if let Some(c) = &pe {
        push_str(&mut out, "Forward P/E ");
        push_str(&mut out, c.forward.as_str());
        if c.forward_below_trailing {
            push_str(&mut out, " below trailing ");
            push_str(&mut out, c.trailing.as_str());
            push_str(&mut out, " \u{2014} market expects earnings to grow.");
        } else {
            push_str(&mut out, " at/above trailing ");
            push_str(&mut out, c.trailing.as_str());
            push_str(&mut out, " \u{2014} no earnings growth priced in.");
        }
        has_first = true;
    }
    let ghost first = out@;
    assert(has_first ==> earnings_sentence(loss, pe_view(pe)) == Some(first));
    assert(!has_first ==> earnings_sentence(loss, pe_view(pe)) is None && first == Seq::<char>::empty());
    if let Some(p) = range {
        if has_first {
            push_str(&mut out, " ");
        }
        push_str(&mut out, "Trading in the ");
        match p {
            RangePosition::LowerThird => push_str(&mut out, "lower third"),
            RangePosition::Middle => push_str(&mut out, "middle"),
            RangePosition::UpperThird => push_str(&mut out, "upper third"),
        }
        push_str(&mut out, " of its 52-week range.");
    }
    string_of(out.as_slice())
}


// ---------------------------------------------------------------------------------------
// Re-authentication and news replies
// ---------------------------------------------------------------------------------------

/// What the fundamentals command does after a quote attempt.
pub enum AuthAction {
    /// The quote arrived: use it.
    Use,
    /// The crumb was rejected on the first attempt: drop it, handshake again and retry once.
    Reauthenticate,
    /// Give up with this error.
    Fail(String),
}

/// The next step after a quote attempt (`first_attempt` tells whether it was the first):
/// an authorization failure on the first attempt earns one fresh handshake and retry; any
/// other failure, or any failure of the retry, is final.
pub fn auth_step(first_attempt: bool, reply: Result<(), String>) -> (a: AuthAction)
    ensures
        match reply {
            Ok(()) => a is Use,
            Err(e) => if first_attempt && has_prefix(e@, "Unauthorized"@) {
                a is Reauthenticate
            } else {
                a matches AuthAction::Fail(m) && m@ == e@
            },
        },
{
    match reply {
        Ok(()) => AuthAction::Use,
        Err(e) => {
            if first_attempt && is_auth_error(e.as_str()) {
                AuthAction::Reauthenticate
            } else {
                AuthAction::Fail(e)
            }
        },
    }
}

/// News items shown per ticker.
pub const NEWS_ITEMS: usize = 6;

/// The search reply's status: an HTTP failure is reported as "HTTP" and its status line.
pub fn news_status(failed_status: Option<&str>) -> (r: Result<(), String>)
    ensures
        match failed_status {
            Some(st) => r matches Err(m) && m@ == "HTTP "@ + st@,
            None => r is Ok,
        },
{
    match failed_status {
        Some(st) => {
            let mut m: Vec<char> = Vec::new();
            push_str(&mut m, "HTTP ");
            push_str(&mut m, st);
            Err(string_of(m.as_slice()))
        },
        None => Ok(()),
    }
}

/// One news item as shown.
pub struct NewsItem {
    pub title: String,
    pub publisher: String,
    pub link: String,
    pub unix_time: Option<i64>,
}

/// What the news command reports of a search reply.
pub struct NewsSummary {
    pub sector: Option<String>,
    pub industry: Option<String>,
    pub items: Vec<NewsItem>,
}

/// A reply field with a display variant: the display field when the reply has it (its
/// text, if it is text), else the plain field's text.
pub open spec fn display_or_plain(display: Option<Option<Seq<char>>>, plain: Option<Seq<char>>) -> Option<Seq<char>> {
    match display {
        Some(d) => d,
        None => plain,
    }
}

/// The view of an optional text.
pub open spec fn opt_view(o: Option<String>) -> Option<Seq<char>> {
    match o {
        Some(s) => Some(s@),
        None => None,
    }
}

/// The view of an optional display field.
pub open spec fn opt_opt_view(o: Option<Option<String>>) -> Option<Option<Seq<char>>> {
    match o {
        Some(x) => Some(opt_view(x)),
        None => None,
    }
}

/// A text field of a news item: its text, or "" when absent or not text.
pub open spec fn text_or_empty(o: Option<String>) -> Seq<char> {
    match o {
        Some(s) => s@,
        None => seq![],
    }
}

/// A news item is the reply item shown: missing texts become "", the time is kept.
pub open spec fn item_shows(it: NewsItem, raw: (Option<String>, Option<String>, Option<String>, Option<i64>)) -> bool {
    &&& it.title@ == text_or_empty(raw.0)
    &&& it.publisher@ == text_or_empty(raw.1)
    &&& it.link@ == text_or_empty(raw.2)
    &&& it.unix_time == raw.3
}

/// A text field, or "" when absent.
fn text_field(o: &Option<String>) -> (s: String)
    ensures
        s@ == text_or_empty(*o),
{
    match o {
        Some(s) => s.clone(),
        None => String::new(),
    }
}

/// What the news command reports: the sector and industry (display names preferred), and
/// the first six news items with missing texts shown as "".
/// `sector_display` is `Some(text)` when the reply has a display sector (`text` being `None`
/// when it is not text); likewise `industry_display`. Each raw item is (title, publisher,
/// link, publish time), each `None` when absent or of another kind.
pub fn news_summary(
    sector_display: Option<Option<String>>,
    sector: Option<String>,
    industry_display: Option<Option<String>>,
    industry: Option<String>,
    raw_items: &Vec<(Option<String>, Option<String>, Option<String>, Option<i64>)>,
) -> (r: NewsSummary)
    ensures
        opt_view(r.sector) == display_or_plain(opt_opt_view(sector_display), opt_view(sector)),
        opt_view(r.industry) == display_or_plain(opt_opt_view(industry_display), opt_view(industry)),
        r.items@.len() == if raw_items@.len() < NEWS_ITEMS { raw_items@.len() } else { NEWS_ITEMS as nat },
        forall|k: int| 0 <= k < r.items@.len() ==> item_shows(#[trigger] r.items@[k], raw_items@[k]),
{
    let sector_out = match sector_display {
        Some(d) => d,
        None => sector,
    };
    let industry_out = match industry_display {
        Some(d) => d,
        None => industry,
    };
    let mut items: Vec<NewsItem> = Vec::new();
    let mut k: usize = 0;
    while k < raw_items.len() && k < NEWS_ITEMS
        invariant
            k <= raw_items@.len(),
            k <= NEWS_ITEMS,
            items@.len() == k,
            forall|j: int| 0 <= j < k ==> item_shows(#[trigger] items@[j], raw_items@[j]),
        decreases NEWS_ITEMS - k,
    {
        let raw = &raw_items[k];
        let it = NewsItem {
            title: text_field(&raw.0),
            publisher: text_field(&raw.1),
            link: text_field(&raw.2),
            unix_time: raw.3,
        };
        items.push(it);
        k = k + 1;
    }
    NewsSummary { sector: sector_out, industry: industry_out, items }
}

} // verus!
