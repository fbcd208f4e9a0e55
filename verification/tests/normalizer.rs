use mantis_hybrid::db::{parse_stamp, IsoTime, MarketRow};
use mantis_hybrid::json::Json;
use mantis_hybrid::kernel::risk::{OracleType, Venue};
use mantis_hybrid::normalizer::{
    normalize, oracle_for, oracle_readings, positive_at, quote_of_kalshi, quote_of_poly, read_bbo,
    read_oracle_value, venue_for, OracleReadings,
};
use mantis_hybrid::num::Real;
use mantis_hybrid::ring::{RingSet, META_CAP, ORACLE_WINDOW};

/// 2026-03-15T00:00:00Z, in seconds.
const NOW: f64 = 1_773_532_800.0;

fn r(x: f64) -> Real {
    Real { bits: x.to_bits() }
}

fn f(x: Real) -> f64 {
    f64::from_bits(x.bits)
}

fn us(secs: f64) -> i64 {
    (secs * 1_000_000.0).round() as i64
}

/// Unix seconds as "YYYY-MM-DDTHH:MM:SSZ".
fn unix_to_iso_z(unix: f64) -> String {
    let secs = unix as i64;
    let days = secs.div_euclid(86400);
    let rem = secs.rem_euclid(86400);
    let h = rem / 3600;
    let mn = (rem % 3600) / 60;
    let s = rem % 60;

    let z = days + 719468;
    let era = (if z >= 0 { z } else { z - 146096 }) / 146097;
    let doe = z - era * 146097;
    let yoe = (doe - doe / 1460 + doe / 36524 - doe / 146096) / 365;
    let y = yoe + era * 400;
    let doy = doe - (365 * yoe + yoe / 4 - yoe / 100);
    let mp = (5 * doy + 2) / 153;
    let d = doy - (153 * mp + 2) / 5 + 1;
    let mo = if mp < 10 { mp + 3 } else { mp - 9 };
    let yr = if mo <= 2 { y + 1 } else { y };

    format!("{yr:04}-{mo:02}-{d:02}T{h:02}:{mn:02}:{s:02}Z")
}

/// A Kalshi market; `close_offset_secs` is positive for an open one, negative for an expired one.
fn kalshi_market(close_offset_secs: f64, strike: Option<f64>) -> MarketRow {
    MarketRow {
        id: 1,
        venue: "kalshi".to_string(),
        ticker: "KXBTCD-TEST-T70000".to_string(),
        series: Some("KXBTCD".to_string()),
        market_type: Some("daily".to_string()),
        oracle: Some("brti".to_string()),
        strike: strike.map(r),
        open_time: None,
        close_time: Some(unix_to_iso_z(NOW + close_offset_secs)),
        resolution_time: None,
        outcome: None,
        rules: None,
        token_id: None,
        discovered_at: Some(us(NOW)),
    }
}

/// A Polymarket market: its ticker is a database key, its token id the ring's.
fn poly_market(close_offset_secs: f64, strike: Option<f64>) -> MarketRow {
    MarketRow {
        id: 2,
        venue: "polymarket".to_string(),
        ticker: "poly-1611425".to_string(),
        series: Some("btc-updown-5m".to_string()),
        market_type: Some("5m".to_string()),
        oracle: Some("chainlink_streams".to_string()),
        strike: strike.map(r),
        open_time: None,
        close_time: Some(unix_to_iso_z(NOW + close_offset_secs)),
        resolution_time: None,
        outcome: None,
        rules: None,
        token_id: Some("token-id-abc123".to_string()),
        discovered_at: Some(us(NOW)),
    }
}

fn write_spot(rings: &mut RingSet, spot: f64) {
    rings.binance.write(us(NOW), r(spot), b"", None);
}

fn write_brti(rings: &mut RingSet, val: f64) {
    rings.brti.write(us(NOW), r(val), b"", None);
}

fn write_chainlink(rings: &mut RingSet, val: f64) {
    rings.chainlink.write(us(NOW), r(val), b"", None);
}

fn write_rtds_chainlink(rings: &mut RingSet, val: f64) {
    rings.rtds_chainlink.write(us(NOW), r(val), b"", None);
}

fn object(fields: &[(&str, Option<f64>)]) -> serde_json::Value {
    let mut map = serde_json::Map::new();
    for (key, value) in fields {
        map.insert(key.to_string(), serde_json::Value::from(*value));
    }
    serde_json::Value::Object(map)
}

fn write_kalshi_bbo(rings: &mut RingSet, ticker: &str, bid: f64, ask: f64) {
    let meta = object(&[("yes_ask", Some(ask))]);
    rings.kalshi_ticker.write(us(NOW), r(bid), meta.to_string().as_bytes(), Some(ticker));
}

fn write_poly_bbo(rings: &mut RingSet, token_id: &str, bid: f64, ask: f64) {
    let mid = (bid + ask) / 2.0;
    let meta = object(&[("best_bid", Some(bid)), ("best_ask", Some(ask))]);
    rings.poly_bbo.write(us(NOW), r(mid), meta.to_string().as_bytes(), Some(token_id));
}

/// Everything a Kalshi market needs; the volatility is returned.
fn all_data_kalshi(rings: &mut RingSet) -> Real {
    write_spot(rings, 74000.0);
    write_brti(rings, 73950.0);
    write_kalshi_bbo(rings, "KXBTCD-TEST-T70000", 0.47, 0.49);
    r(8.5e-5)
}

/// Everything a Polymarket market needs; the volatility is returned.
fn all_data_poly(rings: &mut RingSet) -> Real {
    write_spot(rings, 74000.0);
    write_rtds_chainlink(rings, 73940.0);
    write_poly_bbo(rings, "token-id-abc123", 0.46, 0.50);
    r(8.5e-5)
}

// ── None path tests ───────────────────────────────────────────────────

#[test]
fn normalize_returns_none_on_missing_spot() {
    let mut rings = RingSet::new();
    let market = kalshi_market(300.0, Some(70000.0));
    let now = us(NOW);
    // binance ring empty — spot missing
    let sigma = r(8.5e-5);
    write_brti(&mut rings, 73950.0);
    write_kalshi_bbo(&mut rings, "KXBTCD-TEST-T70000", 0.47, 0.49);
    assert!(normalize(&rings, sigma, &market, now).is_none());
}

#[test]
fn normalize_returns_none_on_stale_sigma() {
    let mut rings = RingSet::new();
    let sigma = r(0.0);
    let market = kalshi_market(300.0, Some(70000.0));
    let now = us(NOW);
    write_spot(&mut rings, 74000.0);
    // sigma_1s = 0.0 (default) — stale/missing
    write_brti(&mut rings, 73950.0);
    write_kalshi_bbo(&mut rings, "KXBTCD-TEST-T70000", 0.47, 0.49);
    assert!(normalize(&rings, sigma, &market, now).is_none());
}

#[test]
fn normalize_returns_none_on_missing_oracle() {
    let mut rings = RingSet::new();
    let market = kalshi_market(300.0, Some(70000.0));
    let now = us(NOW);
    write_spot(&mut rings, 74000.0);
    let sigma = r(8.5e-5);
    // brti ring empty — oracle missing
    write_kalshi_bbo(&mut rings, "KXBTCD-TEST-T70000", 0.47, 0.49);
    assert!(normalize(&rings, sigma, &market, now).is_none());
}

#[test]
fn normalize_returns_none_on_missing_bbo() {
    let mut rings = RingSet::new();
    let market = kalshi_market(300.0, Some(70000.0));
    let now = us(NOW);
    write_spot(&mut rings, 74000.0);
    let sigma = r(8.5e-5);
    write_brti(&mut rings, 73950.0);
    // kalshi_ticker ring empty — BBO missing
    assert!(normalize(&rings, sigma, &market, now).is_none());
}

#[test]
fn normalize_returns_none_on_expired_market() {
    let mut rings = RingSet::new();
    // close_time 60s in the past
    let market = kalshi_market(-60.0, Some(70000.0));
    let now = us(NOW);
    let sigma = all_data_kalshi(&mut rings);
    assert!(normalize(&rings, sigma, &market, now).is_none());
}

#[test]
fn normalize_returns_none_on_missing_strike() {
    let mut rings = RingSet::new();
    let market = kalshi_market(300.0, None); // no strike
    let now = us(NOW);
    let sigma = all_data_kalshi(&mut rings);
    assert!(normalize(&rings, sigma, &market, now).is_none());
}

#[test]
fn normalize_returns_none_for_brr_oracle() {
    let mut rings = RingSet::new();
    let mut market = kalshi_market(300.0, Some(70000.0));
    market.oracle = Some("brr".to_string());
    market.series = Some("BTCD".to_string());
    let now = us(NOW);
    write_spot(&mut rings, 74000.0);
    let sigma = r(8.5e-5);
    assert!(normalize(&rings, sigma, &market, now).is_none());
}

// ── Some path tests ───────────────────────────────────────────────────

#[test]
fn normalize_returns_some_with_all_fields_valid_kalshi() {
    let mut rings = RingSet::new();
    let market = kalshi_market(300.0, Some(70000.0));
    let now = us(NOW);
    let sigma = all_data_kalshi(&mut rings);

    let inputs = normalize(&rings, sigma, &market, now).expect("should be Some");
    assert!((f(inputs.spot) - 74000.0).abs() < 1.0);
    assert!((f(inputs.sigma_1s) - 8.5e-5).abs() < 1e-8);
    assert!((f(inputs.oracle_value) - 73950.0).abs() < 1.0);
    assert!((f(inputs.best_bid) - 0.47).abs() < 1e-6);
    assert!((f(inputs.best_ask) - 0.49).abs() < 1e-6);
    assert!(inputs.close.is_after(inputs.now));
    assert!((f(inputs.strike) - 70000.0).abs() < 1.0);
    assert!(matches!(inputs.venue, Venue::KalshiIndex));
    assert!(matches!(inputs.oracle_type, OracleType::Brti));
    assert_eq!(inputs.ticker, "KXBTCD-TEST-T70000");
}

#[test]
fn normalize_returns_some_with_all_fields_valid_polymarket() {
    let mut rings = RingSet::new();
    let market = poly_market(300.0, Some(70000.0));
    let now = us(NOW);
    let sigma = all_data_poly(&mut rings);

    let inputs = normalize(&rings, sigma, &market, now).expect("should be Some");
    assert!((f(inputs.spot) - 74000.0).abs() < 1.0);
    assert!((f(inputs.best_bid) - 0.46).abs() < 1e-6);
    assert!((f(inputs.best_ask) - 0.50).abs() < 1e-6);
    assert!(matches!(inputs.venue, Venue::PolymarketCrypto));
    assert!(matches!(inputs.oracle_type, OracleType::ChainlinkStreams));
    // ticker = market display ticker (poly-XXXXX), NOT the ring key (token_id).
    // Ring lookups use market.token_id internally; callers see the ticker.
    assert_eq!(inputs.ticker, "poly-1611425");
}

#[test]
fn normalize_falls_back_to_chainlink_rest_when_rtds_empty() {
    let mut rings = RingSet::new();
    let market = poly_market(300.0, Some(70000.0));
    let now = us(NOW);
    write_spot(&mut rings, 74000.0);
    let sigma = r(8.5e-5);
    // rtds_chainlink empty — fall back to chainlink HTTP ring
    write_chainlink(&mut rings, 73940.0);
    write_poly_bbo(&mut rings, "token-id-abc123", 0.46, 0.50);

    let inputs = normalize(&rings, sigma, &market, now).expect("should be Some");
    assert!((f(inputs.oracle_value) - 73940.0).abs() < 1.0);
}

#[test]
fn normalize_selects_correct_oracle_ring_for_kalshi() {
    let mut rings = RingSet::new();
    let market = kalshi_market(300.0, Some(70000.0));
    let now = us(NOW);
    let sigma = all_data_kalshi(&mut rings);

    let inputs = normalize(&rings, sigma, &market, now).unwrap();
    // Kalshi KXBTCD uses BRTI — oracle_value comes from brti ring
    assert!(matches!(inputs.oracle_type, OracleType::Brti));
    assert!((f(inputs.oracle_value) - 73950.0).abs() < 1.0);
}

#[test]
fn normalize_selects_correct_oracle_ring_for_polymarket() {
    let mut rings = RingSet::new();
    let market = poly_market(300.0, Some(70000.0));
    let now = us(NOW);
    let sigma = all_data_poly(&mut rings);

    let inputs = normalize(&rings, sigma, &market, now).unwrap();
    // Polymarket up/down uses Chainlink — oracle_value from rtds_chainlink
    assert!(matches!(inputs.oracle_type, OracleType::ChainlinkStreams));
    assert!((f(inputs.oracle_value) - 73940.0).abs() < 1.0);
}

#[test]
fn normalize_validates_aba_guard_on_venue_ring() {
    let mut rings = RingSet::new();
    let market = kalshi_market(300.0, Some(70000.0));
    let now = us(NOW);
    write_spot(&mut rings, 74000.0);
    let sigma = r(8.5e-5);
    write_brti(&mut rings, 73950.0);

    // Write BBO for the target ticker
    write_kalshi_bbo(&mut rings, "KXBTCD-TEST-T70000", 0.47, 0.49);
    // Lap the ring by writing 180+ entries for a different ticker
    for _ in 0..181 {
        write_kalshi_bbo(&mut rings, "OTHER-TICKER", 0.50, 0.52);
    }
    // The slot for KXBTCD-TEST-T70000 has been overwritten — ABA guard should fire
    // get_by_ticker validates seq; lapped slot returns None → normalize returns None
    assert!(normalize(&rings, sigma, &market, now).is_none());
}

// ── Meta-size boundary tests ──────────────────────────────────────────

/// Kalshi ticker ring meta must fit within META_CAP.
///
/// The actual feed writes `{"yes_ask": <f64|null>}`.
/// Worst case: yes_ask is a full-precision f64 (~20 bytes total).
/// This test catches any future regression where the feed meta grows
/// past 128 bytes and becomes unreadable by parse_f64_from_meta.
#[test]
fn kalshi_bbo_meta_fits_within_meta_cap() {
    let yes_ask: Option<f64> = Some(0.123456789012345_f64);
    let meta = object(&[("yes_ask", yes_ask)]);
    let meta_s = meta.to_string();
    assert!(
        meta_s.len() <= META_CAP,
        "kalshi_ticker BBO meta ({} bytes) exceeds META_CAP ({META_CAP}): {meta_s}",
        meta_s.len()
    );
}

/// Polymarket BBO ring meta must fit within META_CAP.
///
/// The actual feed writes `{"best_bid": <f64|null>, "best_ask": <f64|null>}`.
/// Worst case: both fields are full-precision f64 (~50 bytes total).
/// This test catches any future regression where the feed meta grows
/// past 128 bytes and becomes unreadable by parse_f64_from_meta.
#[test]
fn poly_bbo_meta_fits_within_meta_cap() {
    let best_bid: Option<f64> = Some(0.123456789012345_f64);
    let best_ask: Option<f64> = Some(0.987654321098765_f64);
    let meta = object(&[("best_bid", best_bid), ("best_ask", best_ask)]);
    let meta_s = meta.to_string();
    assert!(
        meta_s.len() <= META_CAP,
        "poly_bbo BBO meta ({} bytes) exceeds META_CAP ({META_CAP}): {meta_s}",
        meta_s.len()
    );
}

/// Ring meta is valid JSON and the key field is parseable.
///
/// Verifies the full data path: feed helper → ring write → ring read →
/// parse_f64_from_meta → correct value. If meta were truncated or the
/// key name mismatched, this test would fail with None.
#[test]
fn kalshi_bbo_meta_yes_ask_parseable_from_ring() {
    let mut rings = RingSet::new();
    write_kalshi_bbo(&mut rings, "KXBTCD-TEST-T70000", 0.47, 0.49);
    let now = us(NOW);
    let entry = rings
        .kalshi_ticker
        .get_by_ticker("KXBTCD-TEST-T70000", now + us(1.0))
        .expect("entry must exist");
    // value = yes_bid
    assert!((f(entry.value) - 0.47).abs() < 1e-9);
    // meta must be valid JSON with yes_ask key
    let meta_str = entry.meta_str().expect("meta must be present");
    let v: serde_json::Value = serde_json::from_str(meta_str).expect("meta must be valid JSON");
    let yes_ask = v["yes_ask"].as_f64().expect("yes_ask must be f64");
    assert!((yes_ask - 0.49).abs() < 1e-9);
}

/// Ring meta is valid JSON and both BBO fields are parseable.
#[test]
fn poly_bbo_meta_fields_parseable_from_ring() {
    let mut rings = RingSet::new();
    write_poly_bbo(&mut rings, "token-id-abc123", 0.46, 0.50);
    let now = us(NOW);
    let entry = rings
        .poly_bbo
        .get_by_ticker("token-id-abc123", now + us(1.0))
        .expect("entry must exist");
    // value = mid
    assert!((f(entry.value) - 0.48).abs() < 1e-9);
    // meta must be valid JSON with best_bid, best_ask keys
    let meta_str = entry.meta_str().expect("meta must be present");
    let v: serde_json::Value = serde_json::from_str(meta_str).expect("meta must be valid JSON");
    let bid = v["best_bid"].as_f64().expect("best_bid must be f64");
    let ask = v["best_ask"].as_f64().expect("best_ask must be f64");
    assert!((bid - 0.46).abs() < 1e-9);
    assert!((ask - 0.50).abs() < 1e-9);
}

/// Long real-world Polymarket token IDs must not push meta over META_CAP.
///
/// Polymarket token IDs are ~77-char decimal strings. The compact meta
/// (`{"best_bid":...,"best_ask":...}`) must fit regardless of token ID
/// length — the asset_id is NOT in the ring meta, only in the ticker index.
#[test]
fn poly_bbo_long_token_id_meta_still_fits() {
    let long_token_id =
        "21742633143463906290569050155826241533067272736897614950488156847949938836455";
    let mut rings = RingSet::new();
    write_poly_bbo(&mut rings, long_token_id, 0.48, 0.52);
    let now = us(NOW);
    let entry = rings
        .poly_bbo
        .get_by_ticker(long_token_id, now + us(1.0))
        .expect("entry must exist for long token ID");
    assert!(
        entry.meta_len as usize <= META_CAP,
        "meta overflowed META_CAP: {} bytes",
        entry.meta_len
    );
    // Must still be parseable
    let meta_str = entry.meta_str().expect("meta must be present");
    let v: serde_json::Value = serde_json::from_str(meta_str)
        .expect("meta must be valid JSON even with long token ID");
    assert!(v["best_bid"].as_f64().is_some());
    assert!(v["best_ask"].as_f64().is_some());
}

#[test]
fn venue_for_maps_kalshi_series_correctly() {
    assert!(matches!(venue_for("kalshi", "KXBTCD"), Venue::KalshiIndex));
    assert!(matches!(
        venue_for("kalshi", "KXBTC15M"),
        Venue::KalshiIndex
    ));
    assert!(matches!(venue_for("kalshi", "KXBTC"), Venue::KalshiIndex));
    assert!(matches!(venue_for("kalshi", "BTCD"), Venue::KalshiGeneral));
    assert!(matches!(venue_for("kalshi", ""), Venue::KalshiGeneral));
    assert!(matches!(
        venue_for("polymarket", "btc-updown-5m"),
        Venue::PolymarketCrypto
    ));
    assert!(matches!(venue_for("unknown", ""), Venue::KalshiGeneral)); // conservative
}

#[test]
fn oracle_for_maps_oracle_strings_correctly() {
    assert!(matches!(oracle_for("brti"), Some(OracleType::Brti)));
    assert!(matches!(
        oracle_for("chainlink_streams"),
        Some(OracleType::ChainlinkStreams)
    ));
    assert!(matches!(
        oracle_for("chainlink"),
        Some(OracleType::ChainlinkStreams)
    ));
    assert!(matches!(
        oracle_for("binance_1m_candle"),
        Some(OracleType::BinanceCandle)
    ));
    assert!(matches!(
        oracle_for("binance"),
        Some(OracleType::BinanceCandle)
    ));
    assert!(oracle_for("brr").is_none()); // BRR not yet supported
    assert!(oracle_for("unknown").is_none());
    assert!(oracle_for("").is_none());
}

#[test]
fn normalize_gives_the_exact_inputs() {
    let mut rings = RingSet::new();
    let sigma = all_data_kalshi(&mut rings);
    let inputs = normalize(&rings, sigma, &kalshi_market(300.0, Some(70000.0)), us(NOW)).unwrap();
    assert_eq!(inputs.spot, r(74000.0));
    assert_eq!(inputs.sigma_1s, r(8.5e-5));
    assert_eq!(inputs.oracle_value, r(73950.0));
    assert_eq!(inputs.best_bid, r(0.47));
    assert_eq!(inputs.best_ask, r(0.49));
    assert_eq!(inputs.close, IsoTime { secs: NOW as i64 + 300, frac: 0, scale: 0 });
    assert_eq!(inputs.now, us(NOW));
    assert_eq!(inputs.strike, r(70000.0));
}

#[test]
fn normalize_refuses_unusable_numbers() {
    let mut rings = RingSet::new();
    let sigma = all_data_kalshi(&mut rings);
    let market = kalshi_market(300.0, Some(70000.0));
    let now = us(NOW);
    assert!(normalize(&rings, sigma, &market, now).is_some());
    assert!(normalize(&rings, r(f64::NAN), &market, now).is_none());
    assert!(normalize(&rings, r(f64::INFINITY), &market, now).is_none());
    assert!(normalize(&rings, r(-8.5e-5), &market, now).is_none());
    assert!(normalize(&rings, sigma, &kalshi_market(300.0, Some(0.0)), now).is_none());
    assert!(normalize(&rings, sigma, &kalshi_market(300.0, Some(f64::NAN)), now).is_none());
    assert!(normalize(&rings, sigma, &kalshi_market(0.0, Some(70000.0)), now).is_none());
    let mut undated = kalshi_market(300.0, Some(70000.0));
    undated.close_time = None;
    assert!(normalize(&rings, sigma, &undated, now).is_none());
    write_spot(&mut rings, f64::NAN);
    assert!(normalize(&rings, sigma, &market, now).is_none());
}

#[test]
fn polymarket_without_a_token_has_no_quote() {
    let mut rings = RingSet::new();
    all_data_poly(&mut rings);
    let now = us(NOW);
    let token = Some("token-id-abc123".to_string());
    let venue = Venue::PolymarketCrypto;
    assert_eq!(read_bbo(&rings, venue, "poly-1611425", &token, now), Some((r(0.46), r(0.50))));
    assert!(read_bbo(&rings, venue, "token-id-abc123", &None, now).is_none());
    assert!(read_bbo(&rings, venue, "token-id-abc123", &Some(String::new()), now).is_none());
}

#[test]
fn quotes_come_from_positive_fields() {
    let doc = Json::parse(r#"{"yes_ask":0.5,"best_bid":0.25,"best_ask":0,"text":"0.5"}"#).unwrap();
    assert_eq!(positive_at(&doc, "yes_ask"), Some(r(0.5)));
    assert!(positive_at(&doc, "best_ask").is_none());
    assert!(positive_at(&doc, "text").is_none());
    assert!(positive_at(&doc, "absent").is_none());
    assert_eq!(quote_of_kalshi(r(0.4), &doc), Some((r(0.4), r(0.5))));
    assert!(quote_of_kalshi(r(0.0), &doc).is_none());
    assert!(quote_of_poly(&doc).is_none());
    let both = Json::parse(r#"{"best_bid":0.25,"best_ask":0.75}"#).unwrap();
    assert_eq!(quote_of_poly(&both), Some((r(0.25), r(0.75))));
}

#[test]
fn chainlink_prefers_the_stream_over_the_poll() {
    let mut rings = RingSet::new();
    assert!(read_oracle_value(&rings, OracleType::ChainlinkStreams, us(NOW)).is_none());
    write_chainlink(&mut rings, 73000.0);
    assert_eq!(read_oracle_value(&rings, OracleType::ChainlinkStreams, us(NOW)), Some(r(73000.0)));
    write_rtds_chainlink(&mut rings, 73940.0);
    assert_eq!(read_oracle_value(&rings, OracleType::ChainlinkStreams, us(NOW)), Some(r(73940.0)));
    write_rtds_chainlink(&mut rings, 0.0);
    assert_eq!(read_oracle_value(&rings, OracleType::ChainlinkStreams, us(NOW)), Some(r(73000.0)));
    write_spot(&mut rings, 74000.0);
    assert_eq!(read_oracle_value(&rings, OracleType::BinanceCandle, us(NOW)), Some(r(74000.0)));
}

#[test]
fn stale_spot_is_not_used() {
    let mut rings = RingSet::new();
    let sigma = all_data_kalshi(&mut rings);
    let market = kalshi_market(300.0, Some(70000.0));
    assert!(normalize(&rings, sigma, &market, us(NOW)).is_some());
    // The newest spot is as old as the window allows, then a little younger.
    rings.binance.write(us(NOW) - ORACLE_WINDOW, r(74000.0), b"", None);
    assert!(normalize(&rings, sigma, &market, us(NOW)).is_none());
    rings.binance.write(us(NOW) - ORACLE_WINDOW + 1, r(74000.0), b"", None);
    assert!(normalize(&rings, sigma, &market, us(NOW)).is_some());
}

#[test]
fn stale_oracle_is_not_used() {
    let mut rings = RingSet::new();
    let sigma = all_data_kalshi(&mut rings);
    let market = kalshi_market(300.0, Some(70000.0));
    rings.brti.write(us(NOW) - ORACLE_WINDOW, r(73950.0), b"", None);
    assert!(normalize(&rings, sigma, &market, us(NOW)).is_none());
    assert!(read_oracle_value(&rings, OracleType::Brti, us(NOW)).is_none());
    assert_eq!(
        oracle_readings(&rings, r(74000.0)),
        Some(OracleReadings { brti: Some(r(73950.0)), chainlink: None })
    );
}

#[test]
fn stale_stream_falls_through_to_the_poll() {
    let mut rings = RingSet::new();
    rings.rtds_chainlink.write(us(NOW) - ORACLE_WINDOW, r(73940.0), b"", None);
    assert!(read_oracle_value(&rings, OracleType::ChainlinkStreams, us(NOW)).is_none());
    write_chainlink(&mut rings, 73000.0);
    assert_eq!(
        read_oracle_value(&rings, OracleType::ChainlinkStreams, us(NOW)),
        Some(r(73000.0))
    );
    assert!(rings.rtds_chainlink.fresh_head(us(NOW)).is_none());
    assert_eq!(rings.chainlink.fresh_head(us(NOW)).unwrap().value, r(73000.0));
}

#[test]
fn oracle_readings_need_a_usable_spot() {
    let mut rings = RingSet::new();
    write_brti(&mut rings, 73950.0);
    assert!(oracle_readings(&rings, r(0.0)).is_none());
    assert_eq!(
        oracle_readings(&rings, r(74000.0)),
        Some(OracleReadings { brti: Some(r(73950.0)), chainlink: None })
    );
}

#[test]
fn series_match_whatever_their_case() {
    assert!(matches!(venue_for("kalshi", "kxbtcd"), Venue::KalshiIndex));
    assert!(matches!(venue_for("Kalshi", "KXBTCD"), Venue::KalshiGeneral));
}

#[test]
fn close_time_is_read_exactly() {
    assert_eq!(
        parse_stamp(Some(&unix_to_iso_z(NOW))),
        Some(IsoTime { secs: NOW as i64, frac: 0, scale: 0 })
    );
    let mut rings = RingSet::new();
    let sigma = all_data_kalshi(&mut rings);
    let closes = |at: &str| {
        let mut market = kalshi_market(300.0, Some(70000.0));
        market.close_time = Some(at.to_string());
        normalize(&rings, sigma, &market, us(NOW)).map(|i| i.close)
    };
    assert!(closes("2026-03-15T00:00:00Z").is_none());
    assert!(closes("2026-03-15T00:00:00.000001Z").is_some());
    assert_eq!(closes("1000000-01-01T00:00:00Z").unwrap().secs, 31_494_784_780_800);
    assert!(closes("2026-03-15T00:00:01.9e999Z").is_none());
    assert!(closes("2026-03-15T00:00:01.1e309Z").is_some());
}
