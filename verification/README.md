# swingr

The verified core of Swing R, a 9 / 20 / 200 EMA reversal screener.

`src/` is a Verus library. Every function in it carries a contract; Verus proves all of them
except the `#[verifier::external_body]` wrappers around std's case mapping and string
collection and around the `time` crate's timestamp conversion, whose contracts are trusted.

- `text` — characters, Unicode whitespace and trimming, `lines`/`split` semantics,
  substring tests and decimal rendering, all stated over `Seq<char>`.
- `universe` — reading the NASDAQ Trader symbol directories, the common-stock filter and
  the merge of the two files (first listing of a symbol wins, de-duplicated through a
  `HashSet` of symbol keys).
- `series` — lagging a series, swing highs/lows, and the stable orderings used to rank hits
  and list price levels (prices enter as integer keys that order as the prices do).
- `signal` — regime, entry gates, risk flags, setup quality and the scan verdict.
- `fetch` — which history a scan or backtest requests, and the permissive market filter.
- `findr` — the bulk screener's decisions: letter range, timeframe, symbol selection,
  retries, progress cadence, hits and ranking.
- `commands` — history checks, trade dates, Yahoo reply handling, URL and file-name
  screening, and the fundamentals summary.

`app/` is the command-line shell: network and file I/O, JSON, async orchestration and the
floating-point indicator math, which the library does not take.
