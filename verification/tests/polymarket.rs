use mantis_hybrid::db::BookSnapshotRow;
use mantis_hybrid::json::Json;
use mantis_hybrid::kernel::risk::in_open_unit;
use mantis_hybrid::num::Real;
use mantis_hybrid::venue::polymarket::{
    daily_above_slug, daily_up_or_down_slug, determine_market_type, determine_oracle, et_hour_str,
    extract_strike_from_question, first_of_texts, gamma_id_from_ticker, hourly_up_or_down_slug, is_dst,
    object_in_response, outcome_at_price, outcome_from_api, outcome_from_prices, parse_outcome_prices,
    parse_poly_book, parse_poly_event, parse_poly_levels, parse_poly_market, parse_resolution,
    prev_day, slug_candidates, utc_ymdh, SlugCandidate, NINE_TENTHS, ONE_TENTH,
};
use mantis_hybrid::venue::{levels_at_least, levels_at_most, BookFigures, Level};
use std::collections::HashSet;

fn r(x: f64) -> Real {
    Real { bits: x.to_bits() }
}

fn f(x: Real) -> f64 {
    f64::from_bits(x.bits)
}

fn json(text: &str) -> Json {
    Json::parse(text).unwrap()
}

/// The snapshot of a book at a time, in seconds.
fn snapshot(data: &Json, ts: f64, market_id: i64) -> Option<BookSnapshotRow> {
    let book = parse_poly_book(data)?;
    let bid = book.best_bid().map_or(0.0, f);
    let ask = book.best_ask().map_or(0.0, f);
    let total = |levels: Vec<Level>| -> f64 { levels.iter().map(|l| f(l.size)).sum() };
    let figures = BookFigures {
        spread: r(ask - bid),
        bid_depth: r(total(levels_at_least(&book.bids, r(bid - 0.05)))),
        ask_depth: r(total(levels_at_most(&book.asks, r(ask + 0.05)))),
    };
    Some(book.snapshot((ts * 1_000_000.0) as i64, market_id, figures, "{}".to_owned()))
}

// ── UTC decomposition ─────────────────────────────────────────────────────

#[test]
fn utc_ymdh_epoch() {
    // Unix epoch = 1970-01-01 00:00:00 UTC
    assert_eq!(utc_ymdh(0), (1970, 1, 1, 0));
}

#[test]
fn utc_ymdh_known_date() {
    // 2026-03-15 14:30:00 UTC
    // 2026-03-15 00:00:00 UTC = 1773532800
    let ts = 1773532800 + 14 * 3600 + 30 * 60;
    let (y, m, d, h) = utc_ymdh(ts);
    assert_eq!(y, 2026);
    assert_eq!(m, 3);
    assert_eq!(d, 15);
    assert_eq!(h, 14);
}

#[test]
fn utc_ymdh_leap_day() {
    // 2024-02-29 12:00:00 UTC = 1709208000
    let ts = 1709208000;
    let (y, m, d, _) = utc_ymdh(ts);
    assert_eq!(y, 2024);
    assert_eq!(m, 2);
    assert_eq!(d, 29);
}

// ── Slug generation — daily above ────────────────────────────────────────

#[test]
fn daily_above_slug_january_1() {
    assert_eq!(daily_above_slug(1, 1), "bitcoin-above-on-january-1");
}

#[test]
fn daily_above_slug_december_31() {
    assert_eq!(daily_above_slug(12, 31), "bitcoin-above-on-december-31");
}

#[test]
fn daily_above_slug_march_15() {
    assert_eq!(daily_above_slug(3, 15), "bitcoin-above-on-march-15");
}

#[test]
fn daily_above_slug_offsets_match_python() {
    // Today = 2026-03-15
    let now_ts = 1773532800_i64;
    let slugs: Vec<String> = (-2i64..=2)
        .map(|off| {
            let ts = now_ts + off * 86400;
            let (_, m, d, _) = utc_ymdh(ts);
            daily_above_slug(m, d)
        })
        .collect();
    assert_eq!(slugs[0], "bitcoin-above-on-march-13");
    assert_eq!(slugs[1], "bitcoin-above-on-march-14");
    assert_eq!(slugs[2], "bitcoin-above-on-march-15");
    assert_eq!(slugs[3], "bitcoin-above-on-march-16");
    assert_eq!(slugs[4], "bitcoin-above-on-march-17");
}

// ── Slug generation — intraday boundary ──────────────────────────────────

#[test]
fn intraday_slug_5m_boundary() {
    // now_ts = 1773532800, interval = 300
    // 1773532800 / 300 = 5911776, * 300 = 1773532800 (already aligned)
    let now_ts = 1773532800_i64;
    let interval_s = 300_i64;
    let boundary = (now_ts / interval_s) * interval_s;
    assert_eq!(boundary, 1773532800);
    let slug = format!("btc-updown-5m-{boundary}");
    assert_eq!(slug, "btc-updown-5m-1773532800");
    assert!(slug_candidates(now_ts).iter().any(|c| c.slug == slug && c.at_spot));
}

#[test]
fn intraday_slug_15m_boundary_offset() {
    // offset_mult = -1; now_ts = 1773532800, interval = 900
    // 1773532800 / 900 = 1970592, * 900 = 1773532800; -1 → 1773531900
    let now_ts = 1773532800_i64;
    let interval_s = 900_i64;
    let boundary = ((now_ts / interval_s) + (-1)) * interval_s;
    assert_eq!(boundary, 1773531900);
    let slug = format!("btc-updown-15m-{boundary}");
    assert_eq!(slug, "btc-updown-15m-1773531900");
    assert!(slug_candidates(now_ts).iter().any(|c| c.slug == slug && c.at_spot));
}

#[test]
fn intraday_slug_4h_boundary() {
    // now_ts = 1773532800, interval = 14400
    // 1773532800 / 14400 = 123162, * 14400 = 1773532800
    let now_ts = 1773532800_i64;
    let interval_s = 14400_i64;
    let boundary = (now_ts / interval_s) * interval_s;
    assert_eq!(boundary, 1773532800);
    let slug = format!("btc-updown-4h-{boundary}");
    assert_eq!(slug, "btc-updown-4h-1773532800");
    assert!(slug_candidates(now_ts).iter().any(|c| c.slug == slug && c.at_spot));
}

// ── Slug generation — hourly ET ───────────────────────────────────────────

#[test]
fn et_hour_str_midnight() {
    assert_eq!(et_hour_str(0), "12am");
}

#[test]
fn et_hour_str_noon() {
    assert_eq!(et_hour_str(12), "12pm");
}

#[test]
fn et_hour_str_1am() {
    assert_eq!(et_hour_str(1), "1am");
}

#[test]
fn et_hour_str_11am() {
    assert_eq!(et_hour_str(11), "11am");
}

#[test]
fn et_hour_str_1pm() {
    assert_eq!(et_hour_str(13), "1pm");
}

#[test]
fn et_hour_str_11pm() {
    assert_eq!(et_hour_str(23), "11pm");
}

#[test]
fn hourly_slug_format() {
    // ET hour 14 (2pm ET), march 15
    let slug = hourly_up_or_down_slug(3, 15, "2pm");
    assert_eq!(slug, "bitcoin-up-or-down-march-15-2pm-et");
}

#[test]
fn hourly_slug_midnight() {
    let slug = hourly_up_or_down_slug(1, 5, "12am");
    assert_eq!(slug, "bitcoin-up-or-down-january-5-12am-et");
}

#[test]
fn et_conversion_utc18_is_2pm_et() {
    // UTC 18:00 → ET = (18-4)%24 = 14 → "2pm"
    let utc_hour = 18u32;
    let et_hour = ((utc_hour as i64) - 4).rem_euclid(24) as u32;
    assert_eq!(et_hour, 14);
    assert_eq!(et_hour_str(et_hour), "2pm");
}

#[test]
fn et_conversion_utc2_is_10pm_et_prev_day() {
    // UTC 02:00 → ET = (2-4+24)%24 = 22 → "10pm"
    let utc_hour = 2u32;
    let et_hour = ((utc_hour as i64) - 4).rem_euclid(24) as u32;
    assert_eq!(et_hour, 22);
    assert_eq!(et_hour_str(et_hour), "10pm");
}

// ── outcomePrices parsing ─────────────────────────────────────────────────

#[test]
fn parse_outcome_prices_json_string() {
    let m = json(r#"{"outcomePrices": "[\"0.72\", \"0.28\"]"}"#);
    let prices = parse_outcome_prices(&m).unwrap();
    assert_eq!(prices.len(), 2);
    assert_eq!(prices[0].finite(), Some(r(0.72)));
    assert_eq!(prices[1].finite(), Some(r(0.28)));
}

#[test]
fn parse_outcome_prices_native_array() {
    let m = json(r#"{"outcomePrices": [0.72, 0.28]}"#);
    let prices = parse_outcome_prices(&m).unwrap();
    assert_eq!(prices.len(), 2);
    assert_eq!(prices[0].finite(), Some(r(0.72)));
    assert_eq!(prices[1].finite(), Some(r(0.28)));
}

#[test]
fn parse_outcome_prices_missing() {
    let m = json(r#"{"something_else": 1}"#);
    assert!(parse_outcome_prices(&m).is_none());
}

#[test]
fn parse_outcome_prices_empty_string_array() {
    let m = json(r#"{"outcomePrices": "[]"}"#);
    let prices = parse_outcome_prices(&m).unwrap();
    assert!(prices.is_empty());
}

// ── Oracle determination ─────────────────────────────────────────────────

#[test]
fn oracle_chainlink_in_res_src() {
    assert_eq!(
        determine_oracle("https://data.chain.link/...", "", "some-slug"),
        "chainlink_streams"
    );
}

#[test]
fn oracle_chainlink_explicit() {
    assert_eq!(
        determine_oracle("chainlink data streams", "", "some-slug"),
        "chainlink_streams"
    );
}

#[test]
fn oracle_binance_in_res_src() {
    assert_eq!(
        determine_oracle("binance spot price", "", "some-slug"),
        "binance_1m_candle"
    );
}

#[test]
fn oracle_binance_in_question() {
    assert_eq!(
        determine_oracle("", "Will BTC (binance) close above...", "some-slug"),
        "binance_1m_candle"
    );
}

#[test]
fn oracle_updown_slug_chainlink() {
    assert_eq!(
        determine_oracle("", "", "btc-updown-5m-1741996800"),
        "chainlink_streams"
    );
}

#[test]
fn oracle_updown_15m_chainlink() {
    assert_eq!(
        determine_oracle("", "", "btc-updown-15m-1741996800"),
        "chainlink_streams"
    );
}

#[test]
fn oracle_updown_4h_chainlink() {
    assert_eq!(
        determine_oracle("", "", "btc-updown-4h-1741996800"),
        "chainlink_streams"
    );
}

#[test]
fn oracle_up_or_down_chainlink() {
    assert_eq!(
        determine_oracle("", "", "bitcoin-up-or-down-march-15-2pm-et"),
        "chainlink_streams"
    );
}

#[test]
fn oracle_above_on_binance() {
    assert_eq!(
        determine_oracle("", "", "bitcoin-above-on-march-15"),
        "binance_1m_candle"
    );
}

#[test]
fn oracle_unknown_default() {
    assert_eq!(determine_oracle("", "", "some-random-slug"), "unknown");
}

// ── market_type determination ─────────────────────────────────────────────

#[test]
fn market_type_5m() {
    assert_eq!(determine_market_type("btc-updown-5m-123456", ""), "up_down_5m");
}

#[test]
fn market_type_15m() {
    assert_eq!(determine_market_type("btc-updown-15m-123456", ""), "up_down_15m");
}

#[test]
fn market_type_4h() {
    assert_eq!(determine_market_type("btc-updown-4h-123456", ""), "up_down_4h");
}

#[test]
fn market_type_up_or_down_hourly_pm() {
    // "pm et" in question → hourly
    assert_eq!(
        determine_market_type(
            "bitcoin-up-or-down-march-15-2pm-et",
            "Will BTC go up or down at 2pm et?"
        ),
        "up_down_hourly"
    );
}

#[test]
fn market_type_up_or_down_hourly_am() {
    assert_eq!(
        determine_market_type(
            "bitcoin-up-or-down-march-15-10am-et",
            "Will BTC go up or down at 10am et?"
        ),
        "up_down_hourly"
    );
}

#[test]
fn market_type_up_or_down_daily_no_time() {
    assert_eq!(
        determine_market_type(
            "bitcoin-up-or-down-on-march-15-2026",
            "Will BTC go up or down on March 15?"
        ),
        "up_down_daily"
    );
}

#[test]
fn market_type_above_below_daily() {
    assert_eq!(
        determine_market_type("bitcoin-above-on-march-15", ""),
        "above_below_daily"
    );
}

#[test]
fn market_type_unknown() {
    assert_eq!(determine_market_type("some-random-slug", ""), "unknown");
}

// ── Ticker construction ───────────────────────────────────────────────────

#[test]
fn ticker_from_numeric_id() {
    let m = json(r#"{"id": 12345, "question": "Will BTC close above $95,000?"}"#);
    let row = parse_poly_market(&m, "bitcoin-above-on-march-15");
    assert_eq!(row.ticker, "poly-12345");
}

#[test]
fn ticker_from_string_id() {
    let m = json(r#"{"id": "abc123", "question": "Will BTC close above $95,000?"}"#);
    let row = parse_poly_market(&m, "bitcoin-above-on-march-15");
    assert_eq!(row.ticker, "poly-abc123");
}

#[test]
fn ticker_from_condition_id_fallback() {
    let m = json(r#"{
        "conditionId": "0xdeadbeef",
        "question": "Will BTC close above $95,000?"
    }"#);
    let row = parse_poly_market(&m, "bitcoin-above-on-march-15");
    assert_eq!(row.ticker, "poly-0xdeadbeef");
}

#[test]
fn ticker_fallback_to_slug_when_no_id() {
    let m = json(r#"{"question": "short question"}"#);
    let row = parse_poly_market(&m, "some-slug");
    assert!(row.ticker.starts_with("poly-some-slug-"));
}

// ── gamma_id extraction ───────────────────────────────────────────────────

#[test]
fn gamma_id_strips_poly_prefix() {
    assert_eq!(gamma_id_from_ticker("poly-12345"), "12345");
}

#[test]
fn gamma_id_no_prefix_unchanged() {
    assert_eq!(gamma_id_from_ticker("12345"), "12345");
}

#[test]
fn gamma_id_condition_id_format() {
    assert_eq!(
        gamma_id_from_ticker("poly-0xdeadbeef1234"),
        "0xdeadbeef1234"
    );
}

// ── Outcome determination from prices ────────────────────────────────────

#[test]
fn outcome_yes_above_0_9() {
    let prices = vec![json("0.95"), json("0.05")];
    assert_eq!(outcome_from_prices(&prices), Some("Yes".to_owned()));
}

#[test]
fn outcome_no_below_0_1() {
    let prices = vec![json("0.03"), json("0.97")];
    assert_eq!(outcome_from_prices(&prices), Some("No".to_owned()));
}

#[test]
fn outcome_none_between() {
    let prices = vec![json("0.50"), json("0.50")];
    assert_eq!(outcome_from_prices(&prices), None);
}

#[test]
fn outcome_exactly_0_9_is_none() {
    // Boundary: > 0.9, not >= 0.9
    let prices = vec![json("0.9"), json("0.1")];
    assert_eq!(outcome_from_prices(&prices), None);
}

#[test]
fn outcome_exactly_0_1_is_none() {
    // Boundary: < 0.1, not <= 0.1
    let prices = vec![json("0.1"), json("0.9")];
    assert_eq!(outcome_from_prices(&prices), None);
}

#[test]
fn outcome_empty_prices_is_none() {
    let prices: Vec<Json> = vec![];
    assert_eq!(outcome_from_prices(&prices), None);
}

// ── Polymarket midpoint passthrough ──────────────────────

#[test]
fn poly_midpoint_stored_in_p_market_not_bid_ask() {
    // real midpoint goes to p_market; bid/ask must be None.
    let yes_mid = 0.72_f64;
    let p_market_val = if in_open_unit(r(yes_mid)) { Some(yes_mid) } else { None };
    let yes_bid: Option<f64> = None;
    let yes_ask: Option<f64> = None;

    assert_eq!(p_market_val, Some(0.72));
    assert!(yes_bid.is_none());
    assert!(yes_ask.is_none());
}

#[test]
fn poly_midpoint_boundary_values_rejected() {
    // values outside (0, 1) are rejected by the NaN firewall.
    for &mid in &[0.0_f64, 1.0, -0.1, 1.01, f64::NAN, f64::INFINITY] {
        let p_market_val = if in_open_unit(r(mid)) {
            Some(mid)
        } else {
            None
        };
        assert!(p_market_val.is_none(), "expected None for mid={mid}");
    }
}

// ── Slug deduplication ───────────────────────────────────────────────────

#[test]
fn slugs_tried_dedup() {
    let candidates = slug_candidates(1773532800);
    let mut distinct: HashSet<&str> = HashSet::new();
    assert!(candidates.iter().all(|c| distinct.insert(c.slug.as_str())));

    let mut slugs_tried: HashSet<String> = HashSet::new();
    let slug = "bitcoin-above-on-march-15".to_owned();

    assert!(slugs_tried.insert(slug.clone())); // first: inserted
    assert!(!slugs_tried.insert(slug.clone())); // second: already exists
    assert_eq!(slugs_tried.len(), 1);
}

#[test]
fn dedup_across_offset_ranges_same_slug() {
    // Verify that if two offsets produce the same slug, it's only inserted once
    // Example: daily-above for a specific day that appears at offsets +1 and -1
    // in two different calls (contrived, but the mechanism is what matters)
    let mut slugs_tried: HashSet<String> = HashSet::new();
    let slugs_to_try = vec!["bitcoin-above-on-march-15", "bitcoin-above-on-march-15"];

    let mut inserts = 0;
    for s in slugs_to_try {
        if slugs_tried.insert(s.to_owned()) {
            inserts += 1;
        }
    }
    assert_eq!(inserts, 1);
    assert_eq!(slugs_tried.len(), 1);
}

// ── Strike extraction ────────────────────────────────────────────────────

#[test]
fn strike_from_question_with_commas() {
    assert_eq!(
        extract_strike_from_question("Will BTC close above $95,000?"),
        Some(r(95000.0))
    );
}

#[test]
fn strike_from_question_no_commas() {
    assert_eq!(
        extract_strike_from_question("BTC above $85000"),
        Some(r(85000.0))
    );
}

#[test]
fn strike_none_when_no_dollar() {
    assert_eq!(extract_strike_from_question("Will BTC go up?"), None);
}

// ── parse_poly_market integration ────────────────────────────────────────

#[test]
fn parse_poly_market_oracle_and_type() {
    let m = json(r#"{
        "id": "777",
        "question": "Will BTC go up or down at 2pm et?",
        "outcomePrices": "[\"0.55\", \"0.45\"]",
        "resolutionSource": "chain.link",
        "endDate": "2026-03-15T14:00:00Z",
        "closed": false
    }"#);
    let row = parse_poly_market(&m, "bitcoin-up-or-down-march-15-2pm-et");
    assert_eq!(row.ticker, "poly-777");
    assert_eq!(row.oracle, "chainlink_streams");
    assert_eq!(row.market_type, "up_down_hourly");
    assert!(row.outcome.is_none()); // not closed
}

#[test]
fn parse_poly_market_closed_yes_outcome() {
    let m = json(r#"{
        "id": "888",
        "question": "Will BTC close above $95,000?",
        "outcomePrices": "[\"0.97\", \"0.03\"]",
        "resolutionSource": "",
        "endDate": "2026-03-15T00:00:00Z",
        "closed": true,
        "resolvedBy": "binance",
        "resolutionDate": "2026-03-15T00:05:00Z"
    }"#);
    let row = parse_poly_market(&m, "bitcoin-above-on-march-15");
    assert_eq!(row.outcome, Some("Yes".to_owned()));
    assert_eq!(row.oracle, "binance_1m_candle");
    assert_eq!(row.strike, Some(r(95000.0)));
    assert!(row.resolution_time.is_some());
}

#[test]
fn parse_poly_market_no_resolution_time_when_not_resolved_by() {
    let m = json(r#"{
        "id": "999",
        "question": "Will BTC go up?",
        "outcomePrices": "[\"0.5\", \"0.5\"]",
        "endDate": "2026-03-15T14:00:00Z",
        "closed": false
    }"#);
    let row = parse_poly_market(&m, "bitcoin-up-or-down-on-march-15-2026");
    assert!(row.resolution_time.is_none());
}

// ── Daily up-or-down slug ────────────────────────────────────────────────

#[test]
fn daily_up_or_down_slug_format() {
    assert_eq!(
        daily_up_or_down_slug(3, 15, 2026),
        "bitcoin-up-or-down-on-march-15-2026"
    );
}

#[test]
fn daily_up_or_down_slug_january() {
    assert_eq!(
        daily_up_or_down_slug(1, 1, 2027),
        "bitcoin-up-or-down-on-january-1-2027"
    );
}

// ── Outcome from API fields ──────────────────────────────────────────────

/// The outcome comes from the `resolved` and `winners` fields where they are present.
#[test]
fn outcome_from_api_resolved_winners_yes() {
    // Market with resolved=true, winners=["Yes"], price at 0.85 (below 0.9 threshold)
    let m = json(r#"{
        "resolved": true,
        "winners": ["Yes"],
        "outcomePrices": ["0.85", "0.15"]
    }"#);
    let outcome = outcome_from_api(&m);
    assert_eq!(
        outcome,
        Some("Yes".to_owned()),
        "resolved+winners should return Some(Yes) even when price < 0.9"
    );
}

#[test]
fn outcome_from_api_resolved_winners_no() {
    let m = json(r#"{
        "resolved": true,
        "winners": ["No"],
        "outcomePrices": ["0.15", "0.85"]
    }"#);
    let outcome = outcome_from_api(&m);
    assert_eq!(outcome, Some("No".to_owned()));
}

#[test]
fn outcome_from_api_price_only_not_resolved_is_none() {
    // Price at 0.85 but resolved=false → should NOT trigger resolution
    // (price threshold requires >0.9 anyway, 0.85 is below it)
    let m = json(r#"{
        "resolved": false,
        "outcomePrices": ["0.85", "0.15"]
    }"#);
    let outcome = outcome_from_api(&m);
    assert!(
        outcome.is_none(),
        "price=0.85 with resolved=false should be None, got {outcome:?}"
    );
}

#[test]
fn outcome_from_api_price_threshold_still_works_when_no_winners() {
    // No resolved/winners fields but price > 0.9 → fallback price inference
    let m = json(r#"{
        "outcomePrices": ["0.97", "0.03"]
    }"#);
    let outcome = outcome_from_api(&m);
    assert_eq!(
        outcome,
        Some("Yes".to_owned()),
        "price fallback should still resolve when price > 0.9"
    );
}

/// DST offset produces correct ET date
///
/// `is_dst`: July is summer (EDT=UTC-4), January is winter (EST=UTC-5).
/// `prev_day`: handles month boundaries including year wrap.
#[test]
fn is_dst_july_is_true() {
    // July is always DST (month 4-10 → true)
    assert!(is_dst(7, 15), "July should be DST");
}

#[test]
fn is_dst_january_is_false() {
    assert!(!is_dst(1, 15), "January should not be DST");
}

#[test]
fn is_dst_march_before_8_is_false() {
    // DST starts second Sunday ≥ Mar 8; day 7 is before it
    assert!(!is_dst(3, 7), "March 7 should not be DST");
}

#[test]
fn is_dst_march_from_8_is_true() {
    assert!(is_dst(3, 8), "March 8 should be DST");
    assert!(is_dst(3, 15), "March 15 should be DST");
}

#[test]
fn is_dst_november_before_7_is_true() {
    // DST ends first Sunday in November; day < 7 still in DST
    assert!(is_dst(11, 1), "November 1 should be DST");
    assert!(is_dst(11, 6), "November 6 should be DST");
}

#[test]
fn is_dst_november_from_7_is_false() {
    assert!(!is_dst(11, 7), "November 7 should not be DST");
}

#[test]
fn prev_day_mid_month() {
    assert_eq!(prev_day(3, 15), (3, 14));
}

#[test]
fn prev_day_first_of_month() {
    // March 1 → Feb 28
    assert_eq!(prev_day(3, 1), (2, 28));
}

#[test]
fn prev_day_january_first_wraps_to_december() {
    // January 1 → December 31
    assert_eq!(prev_day(1, 1), (12, 31));
}

#[test]
fn prev_day_june_first() {
    // June 1 → May 31
    assert_eq!(prev_day(6, 1), (5, 31));
}

#[test]
fn prev_day_april_first() {
    // April 1 → March 31
    assert_eq!(prev_day(4, 1), (3, 31));
}

/// Full ET date derivation for slug generation
///
/// At UTC 02:00 in July (DST, offset=4), ET is 22:00 the PREVIOUS day.
/// The slug must use the previous ET day, not the UTC day.
#[test]
fn et_date_wraps_to_prev_day_when_utc_before_offset() {
    // UTC July 16, 02:00 → ET = 02:00 - 4 = -2 → prev day → July 15, 22:00
    let utc_month = 7u32;
    let utc_day = 16u32;
    let utc_hour = 2u32;

    let et_offset = if is_dst(utc_month, utc_day) { 4i64 } else { 5i64 };
    let et_hour_raw = (utc_hour as i64) - et_offset;
    let et_hour = et_hour_raw.rem_euclid(24) as u32;
    let (et_month, et_day) = if et_hour_raw < 0 {
        prev_day(utc_month, utc_day)
    } else {
        (utc_month, utc_day)
    };

    // Should have wrapped to July 15
    assert_eq!((et_month, et_day), (7, 15), "ET date should be July 15");
    assert_eq!(et_hour, 22, "ET hour should be 22");
    assert_eq!(et_hour_str(et_hour), "10pm");
}

#[test]
fn et_date_no_wrap_when_utc_after_offset() {
    // UTC July 16, 18:00 → ET = 18 - 4 = 14 → same day
    let utc_month = 7u32;
    let utc_day = 16u32;
    let utc_hour = 18u32;

    let et_offset = if is_dst(utc_month, utc_day) { 4i64 } else { 5i64 };
    let et_hour_raw = (utc_hour as i64) - et_offset;
    let (et_month, et_day) = if et_hour_raw < 0 {
        prev_day(utc_month, utc_day)
    } else {
        (utc_month, utc_day)
    };

    assert_eq!((et_month, et_day), (7, 16), "ET date should stay July 16");
}

// ── L2 book parsing ───────────────────────────────────────────────────────

#[test]
fn test_parse_poly_book() {
    let data = json(r#"{
        "market": "0xtest",
        "asset_id": "123",
        "bids": [
            {"price": "0.45", "size": "100"},
            {"price": "0.44", "size": "200"}
        ],
        "asks": [
            {"price": "0.46", "size": "150"},
            {"price": "0.47", "size": "250"}
        ],
        "tick_size": "0.01",
        "last_trade_price": "0.45"
    }"#);
    let book = snapshot(&data, 1000.0, 1).unwrap();
    assert!((f(book.best_bid.unwrap()) - 0.45).abs() < 1e-6);
    assert!((f(book.best_ask.unwrap()) - 0.46).abs() < 1e-6);
    assert!((f(book.spread) - 0.01).abs() < 1e-6);
    assert_eq!(book.venue, "polymarket");
    assert_eq!((book.ts, book.market_id), (1_000_000_000, 1));
    assert_eq!((book.bid_depth, book.ask_depth), (r(300.0), r(400.0)));
    assert_eq!(book.levels.as_deref(), Some("{}"));
}

#[test]
fn test_parse_poly_book_empty() {
    let data = json(r#"{
        "bids": [],
        "asks": []
    }"#);
    assert!(snapshot(&data, 1000.0, 1).is_none());
    let data = json(r#"{"bids": [], "asks": [{"price": "0.46", "size": "150"}]}"#);
    let row = snapshot(&data, 1000.0, 1).unwrap();
    assert_eq!((row.best_bid, row.best_ask), (None, Some(r(0.46))));
    assert_eq!((row.spread, row.bid_depth, row.ask_depth), (r(0.0), r(0.0), r(150.0)));
}

#[test]
fn test_parse_poly_levels() {
    let arr = json(r#"[
        {"price": "0.45", "size": "100"},
        {"price": "0.44", "size": "200"}
    ]"#);
    let levels = parse_poly_levels(&arr);
    assert_eq!(levels.len(), 2);
    assert!((f(levels[0].price) - 0.45).abs() < 1e-6);
    assert!((f(levels[1].size) - 200.0).abs() < 1e-6);
}

#[test]
fn candidates_at_a_known_time() {
    // 2026-03-15T02:30:00Z: 22:30 on the 14th in New York.
    let now = 1773532800 + 2 * 3600 + 1800;
    let candidates = slug_candidates(now);
    let slugs: Vec<&str> = candidates.iter().map(|c| c.slug.as_str()).collect();
    assert_eq!(slugs.len(), 5 + 15 + 3 + 7);
    assert_eq!(slugs[0], "bitcoin-above-on-march-13");
    assert_eq!(slugs[4], "bitcoin-above-on-march-17");
    assert_eq!(slugs[5], "btc-updown-5m-1773541200");
    assert_eq!(slugs[9], "btc-updown-5m-1773542400");
    assert_eq!(slugs[10], "btc-updown-15m-1773540000");
    assert_eq!(slugs[15], "btc-updown-4h-1773504000");
    assert_eq!(slugs[20], "bitcoin-up-or-down-on-march-14-2026");
    assert_eq!(slugs[22], "bitcoin-up-or-down-on-march-16-2026");
    assert_eq!(slugs[23], "bitcoin-up-or-down-march-14-7pm-et");
    assert_eq!(slugs[26], "bitcoin-up-or-down-march-14-10pm-et");
    assert_eq!(slugs[29], "bitcoin-up-or-down-march-14-1am-et");
    let at_spot: Vec<bool> = candidates.iter().map(|c| c.at_spot).collect();
    assert_eq!(at_spot, (0..30).map(|i| (5..20).contains(&i)).collect::<Vec<bool>>());
}

#[test]
fn utc_ymdh_before_the_epoch() {
    assert_eq!(utc_ymdh(-1), (1969, 12, 31, 23));
    assert_eq!(utc_ymdh(-62_135_596_800), (1, 1, 1, 0));
    assert_eq!(utc_ymdh(951_782_400), (2000, 2, 29, 0));
    assert_eq!(utc_ymdh(4_107_542_399), (2100, 2, 28, 23));
}

#[test]
fn thresholds_are_the_decimals_they_stand_for() {
    assert_eq!(NINE_TENTHS, 0.9f64.to_bits());
    assert_eq!(ONE_TENTH, 0.1f64.to_bits());
}

#[test]
fn oracles_match_whatever_their_case() {
    assert_eq!(determine_oracle("CHAINLINK", "", ""), "chainlink_streams");
    assert_eq!(determine_market_type("BTC-UPDOWN-5M-1", ""), "up_down_5m");
}

#[test]
fn outcome_prices_that_do_not_parse_are_none() {
    assert!(parse_outcome_prices(&json(r#"{"outcomePrices": "not json"}"#)).is_none());
    assert!(parse_outcome_prices(&json(r#"{"outcomePrices": 7}"#)).is_none());
    assert_eq!(outcome_from_prices(&vec![json(r#""0.95""#)]), Some("Yes".to_owned()));
    assert_eq!(outcome_from_prices(&vec![json("null")]), None);
}

#[test]
fn declared_unresolved_market_is_not_resolved_by_price() {
    let m = json(r#"{"resolved": false, "outcomePrices": ["0.97", "0.03"]}"#);
    assert_eq!(outcome_from_api(&m), None);
    let m = json(r#"{"resolved": false, "winners": ["Yes"], "outcomePrices": [0.97, 0.03]}"#);
    assert_eq!(outcome_from_api(&m), None);
    let m = json(r#"{"closed": true, "resolved": false, "outcomePrices": [0.97, 0.03]}"#);
    assert_eq!(parse_resolution(&m).unwrap().outcome, None);
    let m = json(r#"{"resolved": null, "outcomePrices": [0.97, 0.03]}"#);
    assert_eq!(outcome_from_api(&m), Some("Yes".to_owned()));
    let m = json(r#"{"resolved": true, "winners": [], "outcomePrices": [0.03, 0.97]}"#);
    assert_eq!(outcome_from_api(&m), Some("No".to_owned()));
}

#[test]
fn rules_and_token_come_from_the_market() {
    let m = json(
        r#"{"id": 5, "question": "Will BTC close above $95,000?",
            "clobTokenIds": "[\"111\", \"222\"]", "startDate": "s", "end_date_iso": "e",
            "tokens": [{"token_id": "333"}]}"#,
    );
    let row = parse_poly_market(&m, "bitcoin-above-on-march-15");
    assert_eq!(row.series, "bitcoin-above-on-march-15");
    assert_eq!(row.token_id.as_deref(), Some("111"));
    assert_eq!(row.rules.as_deref(), Some("Will BTC close above $95,000?"));
    assert_eq!(row.open_time.as_deref(), Some("s"));
    assert_eq!(row.close_time.as_deref(), Some("e"));
    let other = json(r#"{"id": 5, "clobTokenIds": "[1]", "tokens": [{"token_id": "333"}]}"#);
    assert_eq!(parse_poly_market(&other, "x").token_id.as_deref(), Some("333"));
    assert!(parse_poly_market(&json("{}"), "x").token_id.is_none());
}

#[test]
fn spot_is_the_strike_where_a_question_names_none() {
    let event = json(
        r#"{"markets": [{"id": 1, "question": "Up or down?"},
                        {"id": 2, "question": "Above $95,000?"}]}"#,
    );
    let up_down = SlugCandidate { slug: "btc-updown-5m-1".to_string(), at_spot: true };
    let rows = parse_poly_event(&event, &up_down, Some(r(74000.0))).unwrap();
    assert_eq!(rows[0].strike, Some(r(74000.0)));
    assert_eq!(rows[1].strike, Some(r(95000.0)));
    let rows = parse_poly_event(&event, &up_down, Some(r(0.0))).unwrap();
    assert_eq!(rows[0].strike, None);
    let hourly = SlugCandidate { slug: "h".to_string(), at_spot: false };
    let rows = parse_poly_event(&event, &hourly, Some(r(74000.0))).unwrap();
    assert_eq!(rows[0].strike, None);
    assert!(parse_poly_event(&json("{}"), &hourly, None).is_none());
}

#[test]
fn responses_may_be_wrapped_in_a_list() {
    let plain = object_in_response(json(r#"{"a": "b"}"#)).unwrap();
    assert_eq!(plain.text_at("a"), Some("b"));
    let listed = object_in_response(json(r#"[{"a": "c"}, {"a": "d"}]"#)).unwrap();
    assert_eq!(listed.text_at("a"), Some("c"));
    assert!(object_in_response(json("[]")).is_none());
    assert!(object_in_response(json("7")).is_none());
}

#[test]
fn resolution_needs_a_flag() {
    assert!(parse_resolution(&json(r#"{"outcomePrices": ["0.97", "0.03"]}"#)).is_none());
    let info = parse_resolution(&json(
        r#"{"closed": true, "outcomePrices": ["0.03", "0.97"], "endDate": "e",
            "resolvedBy": "0xabc"}"#,
    ))
    .unwrap();
    assert_eq!(info.outcome.as_deref(), Some("No"));
    assert_eq!(info.close_time_str.as_deref(), Some("e"));
    assert_eq!(info.resolution_time_str.as_deref(), Some("e"));
    assert_eq!(info.resolved_by.as_deref(), Some("0xabc"));
    assert!(info.oracle_value_at_close.is_none());
    assert!(parse_resolution(&json(r#"{"resolved": true}"#)).unwrap().outcome.is_none());
}

#[test]
fn depth_counts_the_levels_near_the_best() {
    let level = |price: f64, size: f64| Level { price: r(price), size: r(size) };
    let levels = vec![level(0.44, 1.0), level(0.46, 2.0), level(0.50, 4.0)];
    let near: f64 = levels_at_least(&levels, r(0.45)).iter().map(|l| f(l.size)).sum();
    assert_eq!(near, 6.0);
    let cheap: f64 = levels_at_most(&levels, r(0.46)).iter().map(|l| f(l.size)).sum();
    assert_eq!(cheap, 3.0);
    assert!(levels_at_least(&levels, r(f64::NAN)).is_empty());
}

#[test]
fn prices_near_the_ends_show_the_outcome() {
    assert_eq!(outcome_at_price(Some(r(0.91))), Some("Yes".to_owned()));
    assert_eq!(outcome_at_price(Some(r(0.09))), Some("No".to_owned()));
    assert_eq!(outcome_at_price(Some(r(0.9))), None);
    assert_eq!(outcome_at_price(Some(r(0.1))), None);
    assert_eq!(outcome_at_price(None), None);
}

#[test]
fn lists_of_texts_give_their_first() {
    assert_eq!(first_of_texts(&json(r#"["1", "2"]"#)), Some("1".to_owned()));
    assert_eq!(first_of_texts(&json(r#"["1", 2]"#)), None);
    assert_eq!(first_of_texts(&json(r#"["", "2"]"#)), None);
    assert_eq!(first_of_texts(&json("[]")), None);
    assert_eq!(first_of_texts(&json("{}")), None);
}

#[test]
fn tickers_give_their_ids_back() {
    for (m, id) in [(r#"{"id": 12345}"#, "12345"), (r#"{"conditionId": "poly-0x1"}"#, "poly-0x1")] {
        let row = parse_poly_market(&json(m), "slug");
        assert_eq!(gamma_id_from_ticker(&row.ticker), id);
    }
}

#[test]
fn generated_slugs_tell_their_type() {
    for month in 1..=12 {
        for day in [0, 4, 5, 15, 31] {
            let above = daily_above_slug(month, day);
            assert_eq!(determine_market_type(&above, "at 2pm ET?"), "above_below_daily");
            for year in [-5, 2015, 2026] {
                let daily = daily_up_or_down_slug(month, day, year);
                assert_eq!(determine_market_type(&daily, "Up on March 15?"), "up_down_daily");
                assert_eq!(determine_market_type(&daily, "Up at 2PM ET?"), "up_down_hourly");
            }
            for hour in 0..24 {
                let hourly = hourly_up_or_down_slug(month, day, &et_hour_str(hour));
                assert_eq!(determine_market_type(&hourly, "Up at 10am-11am?"), "up_down_hourly");
                assert_eq!(determine_market_type(&hourly, ""), "up_down_daily");
            }
        }
    }
}
