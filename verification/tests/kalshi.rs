use mantis_hybrid::db::BookSnapshotRow;
use mantis_hybrid::json::Json;
use mantis_hybrid::num::Real;
use mantis_hybrid::venue::kalshi::{
    amount_read, extract_strike, first_amount, kalshi_event_ticker, kalshi_series,
    market_type_for_series, oracle_for_series, parse_dollar_amount, parse_kalshi_book, parse_kalshi_levels, parse_kalshi_listing,
    parse_kalshi_market, parse_resolution, rules_with_cap, ResolutionInfo, RULES_MAX,
};
use mantis_hybrid::venue::{levels_at_least, positive_only, BookFigures, Level};

fn r(x: f64) -> Real {
    Real { bits: x.to_bits() }
}

fn f(x: Real) -> f64 {
    f64::from_bits(x.bits)
}

fn json(text: &str) -> Json {
    Json::parse(text).unwrap()
}

fn finite_field(m: &Json, key: &str) -> Option<Real> {
    m.get(key).and_then(|v| v.finite())
}

fn resolution_with_status(status: &str) -> Option<ResolutionInfo> {
    parse_resolution(&json(&format!(r#"{{"market": {{"status": "{status}", "result": "yes"}}}}"#)))
}

fn rules_of(text: &str) -> String {
    let m = json(&format!(r#"{{"ticker": "T", "rules_primary": "{text}"}}"#));
    parse_kalshi_market(&m, "KXBTCD").unwrap().rules.unwrap()
}

/// The snapshot of a book at a time, in seconds.
fn snapshot(data: &Json, ts: f64, market_id: i64) -> Option<BookSnapshotRow> {
    let book = parse_kalshi_book(data)?;
    let bid = book.best_yes().map_or(0.0, f);
    let ask = book.best_no().map_or(0.0, |p| 1.0 - f(p));
    let depth = |levels: &Vec<Level>, floor: f64| -> f64 {
        levels_at_least(levels, r(floor)).iter().map(|l| f(l.size)).sum()
    };
    let figures = BookFigures {
        spread: r(ask - bid),
        bid_depth: r(depth(&book.yes, bid - 0.05)),
        ask_depth: r(depth(&book.no, 1.0 - (ask + 0.05))),
    };
    let pairs = |levels: &Vec<Level>| -> Vec<[f64; 2]> {
        levels.iter().map(|l| [f(l.price), f(l.size)]).collect()
    };
    let levels = format!("{{\"no\":{:?},\"yes\":{:?}}}", pairs(&book.no), pairs(&book.yes));
    Some(book.snapshot((ts * 1_000_000.0) as i64, market_id, r(ask), figures, levels))
}

// ── Market type mapping ───────────────────────────────────────────────────

#[test]
fn market_type_kxbtc15m() {
    assert_eq!(market_type_for_series("KXBTC15M"), "up_down_15m");
}

#[test]
fn market_type_kxbtcd_is_hourly_not_daily() {
    // KXBTCD = hourly above/below, not daily
    assert_eq!(market_type_for_series("KXBTCD"), "above_below_hourly");
}

#[test]
fn market_type_kxbtc() {
    assert_eq!(market_type_for_series("KXBTC"), "range_hourly");
}

#[test]
fn market_type_btcd_is_daily() {
    assert_eq!(market_type_for_series("BTCD"), "above_below_daily");
}

#[test]
fn market_type_unknown_series() {
    assert_eq!(market_type_for_series("XXXX"), "unknown");
}

// ── Event ticker extraction ───────────────────────────────────────────────

#[test]
fn event_ticker_three_part() {
    assert_eq!(
        kalshi_event_ticker("KXBTCD-26MAR1400-T70000"),
        "KXBTCD-26MAR1400"
    );
}

#[test]
fn event_ticker_two_part() {
    assert_eq!(kalshi_event_ticker("KXBTC15M-T90000"), "KXBTC15M");
}

#[test]
fn event_ticker_no_hyphen() {
    assert_eq!(kalshi_event_ticker("SIMPLE"), "SIMPLE");
}

#[test]
fn event_ticker_btcd() {
    assert_eq!(
        kalshi_event_ticker("BTCD-26MAR-T70000"),
        "BTCD-26MAR"
    );
}

// ── Strike extraction ─────────────────────────────────────────────────────

#[test]
fn strike_from_floor_strike() {
    let m = json(r#"{"floor_strike": 70000.0, "subtitle": "Will BTC be above $65,000?"}"#);
    assert_eq!(extract_strike(&m), Some(r(70000.0)));
}

#[test]
fn strike_from_floor_strike_string() {
    // Kalshi sometimes returns numeric fields as strings
    let m = json(r#"{"floor_strike": "75000.5"}"#);
    assert_eq!(extract_strike(&m), Some(r(75000.5)));
}

#[test]
fn strike_fallback_to_subtitle_regex() {
    let m = json(r#"{"subtitle": "Will BTC close above $95,000 at 2pm?"}"#);
    assert_eq!(extract_strike(&m), Some(r(95000.0)));
}

#[test]
fn strike_fallback_to_title_regex() {
    let m = json(r#"{"title": "BTC above $85,000"}"#);
    assert_eq!(extract_strike(&m), Some(r(85000.0)));
}

#[test]
fn strike_none_when_absent() {
    let m = json(r#"{"subtitle": "No price here"}"#);
    assert_eq!(extract_strike(&m), None);
}

#[test]
fn parse_dollar_amount_with_commas() {
    assert_eq!(parse_dollar_amount("above $70,000 at close"), Some(r(70000.0)));
}

#[test]
fn parse_dollar_amount_no_commas() {
    assert_eq!(parse_dollar_amount("strike $95000"), Some(r(95000.0)));
}

#[test]
fn parse_dollar_amount_no_match() {
    assert_eq!(parse_dollar_amount("no price"), None);
}

// ── Ticker fallback ───────────────────────────────────────────────────────

#[test]
fn ticker_field_preferred_over_market_ticker() {
    let m = json(r#"{"ticker": "KXBTCD-26MAR1400-T70000", "market_ticker": "SHOULD_NOT_USE"}"#);
    let row = parse_kalshi_market(&m, "KXBTCD");
    let ticker = row.as_ref().map(|row| row.ticker.as_str());
    assert_eq!(ticker, Some("KXBTCD-26MAR1400-T70000"));
}

#[test]
fn ticker_falls_back_to_market_ticker() {
    let m = json(r#"{"market_ticker": "KXBTCD-26MAR1400-T70000"}"#);
    let row = parse_kalshi_market(&m, "KXBTCD");
    let ticker = row.as_ref().map(|row| row.ticker.as_str());
    assert_eq!(ticker, Some("KXBTCD-26MAR1400-T70000"));
}

#[test]
fn ticker_none_when_both_absent() {
    let m = json(r#"{"other_field": "irrelevant"}"#);
    let row = parse_kalshi_market(&m, "KXBTCD");
    let ticker = row.as_ref().map(|row| row.ticker.as_str());
    assert!(ticker.is_none());
}

// ── Field mapping (yes_bid_dollars etc.) ─────────────────────────────────

#[test]
fn field_mapping_dollar_fields() {
    let m = json(r#"{
        "ticker": "KXBTCD-26MAR1400-T70000",
        "yes_bid_dollars": "0.4700",
        "yes_ask_dollars": "0.4900",
        "no_bid_dollars": "0.5100",
        "no_ask_dollars": "0.5300",
        "volume_fp": "12345.67",
        "open_interest_fp": "999.0"
    }"#);

    assert_eq!(finite_field(&m, "yes_bid_dollars"), Some(r(0.47)));
    assert_eq!(finite_field(&m, "yes_ask_dollars"), Some(r(0.49)));
    assert_eq!(finite_field(&m, "no_bid_dollars"), Some(r(0.51)));
    assert_eq!(finite_field(&m, "no_ask_dollars"), Some(r(0.53)));
}

#[test]
fn field_mapping_volume_fp_preferred_over_volume() {
    let m = json(r#"{"volume_fp": "12345.0", "volume": 999}"#);
    let vol = finite_field(&m, "volume_fp").or_else(|| finite_field(&m, "volume"));
    assert_eq!(vol, Some(r(12345.0)));
}

#[test]
fn field_mapping_volume_fallback() {
    let m = json(r#"{"volume": 999}"#);
    let vol = finite_field(&m, "volume_fp").or_else(|| finite_field(&m, "volume"));
    assert_eq!(vol, Some(r(999.0)));
}

#[test]
fn field_mapping_oi_fp_preferred() {
    let m = json(r#"{"open_interest_fp": "500.5", "open_interest": 1}"#);
    let oi = finite_field(&m, "open_interest_fp")
        .or_else(|| finite_field(&m, "open_interest"));
    assert_eq!(oi, Some(r(500.5)));
}

#[test]
fn nan_firewall_rejects_non_finite() {
    // JSON null → None
    let m = json(r#"{"yes_bid_dollars": null}"#);
    assert_eq!(finite_field(&m, "yes_bid_dollars"), None);
}

// ── Resolution detection ──────────────────────────────────────────────────

#[test]
fn resolution_status_open_not_resolved() {
    // status "open" → still active
    let status = "open";
    assert!(matches!(status, "" | "open" | "active"));
    assert!(resolution_with_status(status).is_none());
}

#[test]
fn resolution_status_active_not_resolved() {
    let status = "active";
    assert!(matches!(status, "" | "open" | "active"));
    assert!(resolution_with_status(status).is_none());
}

#[test]
fn resolution_status_settled_is_resolved() {
    let status = "settled";
    assert!(!matches!(status, "" | "open" | "active"));
    assert!(resolution_with_status(status).is_some());
}

#[test]
fn resolution_status_closed_is_resolved() {
    let status = "closed";
    assert!(!matches!(status, "" | "open" | "active"));
    assert!(resolution_with_status(status).is_some());
}

#[test]
fn resolution_status_resolved_is_resolved() {
    let status = "resolved";
    assert!(!matches!(status, "" | "open" | "active"));
    assert!(resolution_with_status(status).is_some());
}

// ── Rules truncation ──────────────────────────────────────────────────────

#[test]
fn rules_truncated_to_2000_chars() {
    let long_rules: String = "x".repeat(5000);
    let truncated = rules_of(&long_rules);
    assert_eq!(truncated.len(), 2000);
}

#[test]
fn rules_under_2000_unchanged() {
    let short = "short rules text";
    let truncated = rules_of(short);
    assert_eq!(truncated, short);
}

// ── L2 book parsing ───────────────────────────────────────────────────────

#[test]
fn test_parse_kalshi_book() {
    let data = json(r#"{
        "orderbook_fp": {
            "yes_dollars": [
                ["0.1000", "200.00"],
                ["0.2000", "100.00"],
                ["0.2500", "50.00"]
            ],
            "no_dollars": [
                ["0.0100", "500.00"],
                ["0.5000", "300.00"],
                ["0.7000", "150.00"]
            ]
        }
    }"#);
    let book = snapshot(&data, 1000.0, 1).unwrap();
    assert_eq!(book.market_id, 1);
    assert!((f(book.best_bid.unwrap()) - 0.25).abs() < 1e-6);
    assert!((f(book.best_ask.unwrap()) - 0.30).abs() < 1e-6); // 1.0 - 0.70
    assert!((f(book.spread) - 0.05).abs() < 1e-6);
    assert!(f(book.bid_depth) > 0.0);
    assert!(f(book.ask_depth) > 0.0);
    assert!(book.levels.is_some());
    assert_eq!(book.ts, 1_000_000_000);
    assert_eq!(book.venue, "kalshi");
    assert_eq!(
        book.levels.unwrap(),
        r#"{"no":[[0.01, 500.0], [0.5, 300.0], [0.7, 150.0]],"yes":[[0.1, 200.0], [0.2, 100.0], [0.25, 50.0]]}"#
    );
}

#[test]
fn snapshot_of_a_book_with_one_side() {
    let data = json(r#"{"orderbook_fp": {"yes_dollars": [["0.40", "7"]], "no_dollars": []}}"#);
    let row = snapshot(&data, 1000.0, 3).unwrap();
    assert_eq!((row.best_bid, row.best_ask), (Some(r(0.4)), None));
    assert_eq!((row.spread, row.bid_depth, row.ask_depth), (r(0.0), r(7.0), r(0.0)));

    // Figures of a side without quotes are not taken over.
    let book = parse_kalshi_book(&data).unwrap();
    let figures = BookFigures { spread: r(0.1), bid_depth: r(7.0), ask_depth: r(9.0) };
    let row = book.snapshot(5, 3, r(0.5), figures, String::new());
    assert_eq!((row.best_ask, row.spread, row.ask_depth), (None, r(0.0), r(0.0)));
}

#[test]
fn test_parse_kalshi_book_empty() {
    let data = json(r#"{
        "orderbook_fp": {
            "yes_dollars": [],
            "no_dollars": []
        }
    }"#);
    assert!(snapshot(&data, 1000.0, 1).is_none());
}

#[test]
fn test_parse_kalshi_levels() {
    let arr = json(r#"[["0.42", "13.00"], ["0.50", "20.00"]]"#);
    let levels = parse_kalshi_levels(&arr);
    assert_eq!(levels.len(), 2);
    assert!((f(levels[0].price) - 0.42).abs() < 1e-6);
    assert!((f(levels[0].size) - 13.0).abs() < 1e-6);
}

#[test]
fn test_kalshi_depth_within_5_cents() {
    // Best bid at 0.50, levels at 0.50, 0.48, 0.46, 0.44, 0.10
    // Only 0.50, 0.48, 0.46 are within $0.05
    let data = json(r#"{
        "orderbook_fp": {
            "yes_dollars": [
                ["0.1000", "1000.00"],
                ["0.4400", "100.00"],
                ["0.4600", "200.00"],
                ["0.4800", "300.00"],
                ["0.5000", "400.00"]
            ],
            "no_dollars": [
                ["0.4500", "500.00"]
            ]
        }
    }"#);
    let book = snapshot(&data, 1000.0, 1).unwrap();
    // bid_depth: 0.50 + 0.48 + 0.46 (all >= 0.45) = 400 + 300 + 200 = 900
    // 0.44 is < 0.45 so excluded
    assert!((f(book.bid_depth) - 900.0).abs() < 1e-6);
}

#[test]
fn series_map_to_their_oracles() {
    assert_eq!(kalshi_series(), ["KXBTC15M", "KXBTCD", "KXBTC", "BTCD"]);
    assert_eq!(oracle_for_series("KXBTCD"), "brti");
    assert_eq!(oracle_for_series("BTCD"), "brr");
}

#[test]
fn dollar_amounts_are_whole() {
    assert_eq!(parse_dollar_amount("$1,234.50 or $9"), Some(r(1234.0)));
    assert_eq!(parse_dollar_amount("pays $ 70 then $80"), Some(r(80.0)));
    assert_eq!(parse_dollar_amount("$, $5"), Some(r(5.0)));
    assert_eq!(parse_dollar_amount("$"), None);
    assert_eq!(parse_dollar_amount(""), None);
    assert_eq!(parse_dollar_amount("caf\u{e9} $12"), Some(r(12.0)));
}

#[test]
fn market_fields_are_read_from_a_listing() {
    let data = json(
        r#"{"markets": [
            {"ticker": "A-1", "floor_strike": 70000, "cap_strike": 70250, "open_time": "o",
             "close_time": "c", "rules_primary": "the rules"},
            {"no": "ticker"},
            {"market_ticker": "B-2", "title": "BTC above $85,000"}
        ]}"#,
    );
    let rows = parse_kalshi_listing(&data, "KXBTC").unwrap();
    assert_eq!(rows.len(), 2);
    assert_eq!(rows[0].ticker, "A-1");
    assert_eq!(rows[0].series, "KXBTC");
    assert_eq!(rows[0].market_type, "range_hourly");
    assert_eq!(rows[0].strike, Some(r(70000.0)));
    assert_eq!(rows[0].cap_strike, Some(r(70250.0)));
    assert_eq!(rows[0].close_time.as_deref(), Some("c"));
    assert_eq!(rows[0].rules.as_deref(), Some("the rules"));
    assert_eq!(rows[1].ticker, "B-2");
    assert_eq!(rows[1].strike, Some(r(85000.0)));
    assert_eq!(rows[1].rules.as_deref(), Some("BTC above $85,000"));
    assert!(rows[1].cap_strike.is_none());
    assert!(parse_kalshi_listing(&json("{}"), "KXBTC").is_none());
}

#[test]
fn rules_carry_the_cap_in_front() {
    assert_eq!(rules_with_cap(Some("text"), Some("70250")).as_deref(), Some("cap_strike=70250 text"));
    assert_eq!(rules_with_cap(None, Some("70250")).as_deref(), Some("cap_strike=70250"));
    assert_eq!(rules_with_cap(Some("text"), None).as_deref(), Some("text"));
    assert_eq!(rules_with_cap(None, None), None);
    assert_eq!(RULES_MAX, 2000);
}

#[test]
fn rules_are_cut_between_characters() {
    let text: String = "\u{20bf}".repeat(2001);
    assert_eq!(rules_of(&text), "\u{20bf}".repeat(2000));
}

#[test]
fn resolution_reads_every_field() {
    let info = parse_resolution(&json(
        r#"{"market": {"status": "settled", "result": "yes", "expiration_value": "70123.5",
            "close_time": "2026-03-15T14:00:00Z", "resolution_time": "2026-03-15T14:05:00Z"}}"#,
    ))
    .unwrap();
    assert_eq!(info.outcome.as_deref(), Some("yes"));
    assert_eq!(info.oracle_value_at_close, Some(r(70123.5)));
    assert_eq!(info.close_time_str.as_deref(), Some("2026-03-15T14:00:00Z"));
    assert_eq!(info.resolution_time_str.as_deref(), Some("2026-03-15T14:05:00Z"));
    assert_eq!(info.status, "settled");
    let bare = parse_resolution(&json(r#"{"status": "closed", "winner_side": "no"}"#)).unwrap();
    assert_eq!(bare.outcome.as_deref(), Some("no"));
    assert!(bare.resolution_time_str.is_none());
    assert!(parse_resolution(&json("{}")).is_none());
}

#[test]
fn malformed_levels_are_left_out() {
    let levels = parse_kalshi_levels(&json(
        r#"[["0.42", "13.00"], ["x", "1"], ["0.5"], ["0", "1"], ["-1", "1"], ["0.6", "inf"], 7, [0.1, 2]]"#,
    ));
    assert_eq!(levels.len(), 1);
    assert!(parse_kalshi_levels(&json("{}")).is_empty());
    assert!(parse_kalshi_book(&json(r#"{"orderbook_fp": {"yes_dollars": []}}"#)).is_none());
}

#[test]
fn amounts_beyond_every_float_are_infinite() {
    let long = format!("above ${}", "9".repeat(400));
    assert_eq!(first_amount(&long), Some("9".repeat(400)));
    assert_eq!(parse_dollar_amount(&long), Some(r(f64::INFINITY)));
    assert_eq!(amount_read(None), r(f64::INFINITY));
    assert_eq!(amount_read(Some(r(5.0))), r(5.0));
    assert_eq!(first_amount("above $70,000 at close"), Some("70000".to_string()));
    assert_eq!(first_amount("no price"), None);
}

#[test]
fn only_finite_positive_numbers_are_kept() {
    assert_eq!(positive_only(Some(r(0.42))), Some(r(0.42)));
    for x in [0.0, -0.0, -1.0, f64::INFINITY, f64::NAN] {
        assert_eq!(positive_only(Some(r(x))), None, "{x}");
    }
    assert_eq!(positive_only(None), None);
}
